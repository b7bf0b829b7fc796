//! Topology events: nodes, ports and links as they come and go.

use vstd::prelude::*;
use crate::config::{key_base, key_with_index, lookup, Config, NodeKey};
use crate::graph::{
    ids_unique,
    is_first_with_id,
    no_node_has,
    node_index,
    Graph,
    Link,
    Node,
    NodeSource,
    Port,
    PortDirection,
    PortType,
};
use crate::layout::{
    auto_position,
    crowded,
    free_row_y,
    is_crowded,
    position_by_type,
    PROCESSOR_X,
    SINK_X,
    SOURCE_X,
};
use crate::pipewire_client::PipewireEvent;
use crate::text::{copy_text, opt_chars, same_text};
use crate::units::{add_sat, clamp_coord, Point};

verus! {

/// A node that arrives on top of another is moved by this much in x and y.
pub const NUDGE: i64 = 30_000;

/// How often a node is moved at most.
pub const NUDGE_LIMIT: i64 = 20;

/// Half the node width: closer than this in x is on top.
pub const NUDGE_REACH_X: i64 = 90_000;

/// Twice the header height: closer than this in y is on top.
pub const NUDGE_REACH_Y: i64 = 56_000;

/// Where a node ends up that wants to stand at `p`: moved diagonally while
/// another node stands on that place, at most `NUDGE_LIMIT` times.
pub open spec fn nudged(nodes: Seq<Node>, p: Point, attempts: int) -> Point
    decreases NUDGE_LIMIT - attempts,
{
    if attempts >= NUDGE_LIMIT || !crowded(nodes, p, NUDGE_REACH_X as int, NUDGE_REACH_Y as int) {
        p
    } else {
        nudged(
            nodes,
            Point { x: clamp_coord(p.x + NUDGE) as i64, y: clamp_coord(p.y + NUDGE) as i64 },
            attempts + 1,
        )
    }
}

/// Whether two lists of nodes have their nodes at the same positions.
pub open spec fn same_positions(a: Seq<Node>, b: Seq<Node>) -> bool {
    a.len() == b.len() && forall|i: int| 0 <= i < a.len() ==> (#[trigger] a[i]).position == b[i].position
}

/// Crowding looks at positions alone.
pub proof fn lemma_crowded_by_positions(a: Seq<Node>, b: Seq<Node>, p: Point, rx: int, ry: int)
    requires
        same_positions(a, b),
    ensures
        crowded(a, p, rx, ry) == crowded(b, p, rx, ry),
{
    if crowded(a, p, rx, ry) {
        let i = choose|i: int|
            0 <= i < a.len() && crate::layout::distance((#[trigger] a[i]).position.x as int, p.x as int) < rx
                && crate::layout::distance(a[i].position.y as int, p.y as int) < ry;
        assert(b[i].position == a[i].position);
    }
    if crowded(b, p, rx, ry) {
        let i = choose|i: int|
            0 <= i < b.len() && crate::layout::distance((#[trigger] b[i]).position.x as int, p.x as int) < rx
                && crate::layout::distance(b[i].position.y as int, p.y as int) < ry;
        assert(a[i].position == b[i].position);
    }
}

/// The free row of a column depends on positions alone.
pub proof fn lemma_free_row_by_positions(a: Seq<Node>, b: Seq<Node>, base_x: i64, row: int)
    requires
        same_positions(a, b),
    ensures
        free_row_y(a, base_x, row) == free_row_y(b, base_x, row),
    decreases crate::layout::GRID_ROWS - row,
{
    if row < crate::layout::GRID_ROWS {
        lemma_crowded_by_positions(
            a,
            b,
            Point { x: base_x, y: crate::layout::row_y(row) as i64 },
            crate::layout::GRID_REACH_X as int,
            crate::layout::GRID_REACH_Y as int,
        );
        lemma_free_row_by_positions(a, b, base_x, row + 1);
    }
}

/// Nudging depends on positions alone.
pub proof fn lemma_nudged_by_positions(a: Seq<Node>, b: Seq<Node>, p: Point, attempts: int)
    requires
        same_positions(a, b),
    ensures
        nudged(a, p, attempts) == nudged(b, p, attempts),
    decreases NUDGE_LIMIT - attempts,
{
    lemma_crowded_by_positions(a, b, p, NUDGE_REACH_X as int, NUDGE_REACH_Y as int);
    if attempts < NUDGE_LIMIT {
        lemma_nudged_by_positions(
            a,
            b,
            Point { x: clamp_coord(p.x + NUDGE) as i64, y: clamp_coord(p.y + NUDGE) as i64 },
            attempts + 1,
        );
    }
}

/// Whether a node has the given name, application and hardware path.
pub open spec fn has_identity(node: Node, name: Seq<char>, app: Option<Seq<char>>, path: Option<Seq<char>>) -> bool {
    node.name@ == name && opt_chars(node.app_name) == app && opt_chars(node.object_path) == path
}

/// Number of nodes with the given identity among the first `upto`.
pub open spec fn count_same(
    nodes: Seq<Node>,
    name: Seq<char>,
    app: Option<Seq<char>>,
    path: Option<Seq<char>>,
    upto: int,
) -> int
    decreases upto,
{
    if upto <= 0 {
        0
    } else {
        count_same(nodes, name, app, path, upto - 1) + if has_identity(nodes[upto - 1], name, app, path) {
            1int
        } else {
            0
        }
    }
}

/// The duplicate index for a count of earlier nodes.
pub open spec fn duplicate_index(count: int) -> u32 {
    if count > u32::MAX {
        u32::MAX
    } else {
        count as u32
    }
}

/// The links that do not touch node `id`, among the first `upto`.
pub open spec fn links_clear_of(links: Seq<Link>, id: u32, upto: int) -> Seq<Link>
    decreases upto,
{
    if upto <= 0 {
        Seq::empty()
    } else if links[upto - 1].output_node == id || links[upto - 1].input_node == id {
        links_clear_of(links, id, upto - 1)
    } else {
        links_clear_of(links, id, upto - 1).push(links[upto - 1])
    }
}

/// The links with another id than `id`, among the first `upto`.
pub open spec fn links_without(links: Seq<Link>, id: u32, upto: int) -> Seq<Link>
    decreases upto,
{
    if upto <= 0 {
        Seq::empty()
    } else if links[upto - 1].id == id {
        links_without(links, id, upto - 1)
    } else {
        links_without(links, id, upto - 1).push(links[upto - 1])
    }
}

/// The ports with another id than `id`, among the first `upto`.
pub open spec fn ports_without(ports: Seq<Port>, id: u32, upto: int) -> Seq<Port>
    decreases upto,
{
    if upto <= 0 {
        Seq::empty()
    } else if ports[upto - 1].id == id {
        ports_without(ports, id, upto - 1)
    } else {
        ports_without(ports, id, upto - 1).push(ports[upto - 1])
    }
}

/// Takes the ports with the given id out of a list.
pub fn remove_port(ports: &mut Vec<Port>, id: u32)
    ensures
        final(ports)@ == ports_without(old(ports)@, id, old(ports)@.len() as int),
{
    let ghost all = ports@;
    let ghost mut seen: int = 0;
    let mut i: usize = 0;
    assert(ports@ =~= ports_without(all, id, 0) + all.subrange(0, all.len() as int));
    while i < ports.len()
        invariant
            0 <= seen <= all.len(),
            i <= ports.len(),
            i == ports_without(all, id, seen).len(),
            ports@ == ports_without(all, id, seen) + all.subrange(seen, all.len() as int),
        ensures
            seen == all.len(),
            ports@ == ports_without(all, id, seen),
        decreases ports.len() - i,
    {
        let ghost kept = ports_without(all, id, seen);
        assert(ports@[i as int] == all[seen]);
        if ports[i].id == id {
            ports.remove(i);
            proof {
                assert(ports@ =~= kept + all.subrange(seen + 1, all.len() as int));
                seen = seen + 1;
            }
        } else {
            proof {
                assert(ports@ =~= kept.push(all[seen]) + all.subrange(seen + 1, all.len() as int));
                seen = seen + 1;
            }
            i += 1;
        }
    }
    proof {
        assert(ports.len() == ports_without(all, id, seen).len() + (all.len() - seen));
        assert(ports@ =~= ports_without(all, id, seen));
    }
}

/// The node that an arrival brings into a graph with nodes `nodes`.
pub open spec fn is_arrival(
    n: Node,
    nodes: Seq<Node>,
    cfg: Config,
    id: u32,
    name: String,
    app_name: Option<String>,
    serial: Option<String>,
    object_path: Option<String>,
) -> bool {
    let app = opt_chars(app_name);
    let path = opt_chars(object_path);
    let index = duplicate_index(count_same(nodes, name@, app, path, nodes.len() as int));
    let key = key_with_index(key_base(name@, app, path), Some(index));
    let saved = lookup(cfg.saved_positions(), key);
    let wanted = match saved {
        Some(p) => Point { x: p.x, y: p.y },
        None => Point { x: PROCESSOR_X, y: free_row_y(nodes, PROCESSOR_X, 0) as i64 },
    };
    &&& n.id == id
    &&& n.name == name
    &&& n.app_name == app_name
    &&& n.serial == serial
    &&& n.object_path == object_path
    &&& n.index == index
    &&& n.position == nudged(nodes, wanted, 0)
    &&& n.has_saved_position == saved.is_some()
    &&& n.input_ports@.len() == 0
    &&& n.output_ports@.len() == 0
    &&& n.custom_name == lookup(cfg.node_renames@, key)
    &&& n.source == NodeSource::PipeWire
}

/// Whether a node waits for its first port to find its column.
pub open spec fn awaits_first_port(node: Node) -> bool {
    !node.has_saved_position && node.input_ports@.len() == 0 && node.output_ports@.len() == 0
}

/// The x of the column that the first port sends a node to.
pub open spec fn first_port_x(direction: PortDirection) -> i64 {
    match direction {
        PortDirection::Input => SINK_X,
        PortDirection::Output => SOURCE_X,
    }
}

/// What an event makes of the graph.
pub open spec fn event_holds(a: Graph, b: Graph, cfg: Config, event: PipewireEvent) -> bool {
    match event {
        PipewireEvent::NodeAdded { id, name, app_name, serial, object_path, device_id } => {
            &&& b == (Graph { nodes: b.nodes, dirty: true, ..a })
            &&& no_node_has(a.nodes@, id) ==> b.nodes@.len() == a.nodes@.len() + 1 && b.nodes@.drop_last() == a.nodes@
                && is_arrival(b.nodes@.last(), a.nodes@, cfg, id, name, app_name, serial, object_path)
            &&& forall|i: int| #[trigger]
                is_first_with_id(a.nodes@, id, i) ==> b.nodes@.len() == a.nodes@.len() && b.nodes@ == a.nodes@.update(
                    i,
                    b.nodes@[i],
                ) && is_arrival(b.nodes@[i], a.nodes@, cfg, id, name, app_name, serial, object_path)
        },
        PipewireEvent::NodeRemoved { id } => {
            &&& b == (Graph { nodes: b.nodes, links: b.links, dirty: true, ..a })
            &&& b.links@ == links_clear_of(a.links@, id, a.links@.len() as int)
            &&& no_node_has(a.nodes@, id) ==> b.nodes@ == a.nodes@
            &&& forall|i: int| #[trigger] is_first_with_id(a.nodes@, id, i) ==> b.nodes@ == a.nodes@.remove(i)
        },
        PipewireEvent::PortAdded { node_id, port_id, name, direction, port_type } => {
            let port = Port { id: port_id, name, direction, port_type };
            &&& b == (Graph { nodes: b.nodes, dirty: true, ..a })
            &&& b.nodes@.len() == a.nodes@.len()
            &&& no_node_has(a.nodes@, node_id) ==> b.nodes@ == a.nodes@
            &&& forall|i: int| #[trigger]
                is_first_with_id(a.nodes@, node_id, i) ==> {
                    let before = a.nodes@[i];
                    let after = b.nodes@[i];
                    &&& b.nodes@ == a.nodes@.update(i, after)
                    &&& after == (Node {
                        input_ports: after.input_ports,
                        output_ports: after.output_ports,
                        position: after.position,
                        ..before
                    })
                    &&& after.input_ports@ == (if direction == PortDirection::Input {
                        before.input_ports@.push(port)
                    } else {
                        before.input_ports@
                    })
                    &&& after.output_ports@ == (if direction == PortDirection::Output {
                        before.output_ports@.push(port)
                    } else {
                        before.output_ports@
                    })
                    &&& after.position == (if awaits_first_port(before) {
                        nudged(
                            a.nodes@,
                            Point {
                                x: first_port_x(direction),
                                y: free_row_y(a.nodes@, first_port_x(direction), 0) as i64,
                            },
                            0,
                        )
                    } else {
                        before.position
                    })
                }
        },
        PipewireEvent::PortRemoved { node_id, port_id } => {
            &&& no_node_has(a.nodes@, node_id) ==> b == a
            &&& forall|i: int| #[trigger]
                is_first_with_id(a.nodes@, node_id, i) ==> {
                    let before = a.nodes@[i];
                    let after = b.nodes@[i];
                    &&& b == (Graph { nodes: b.nodes, dirty: true, ..a })
                    &&& b.nodes@ == a.nodes@.update(i, after)
                    &&& after == (Node { input_ports: after.input_ports, output_ports: after.output_ports, ..before })
                    &&& after.input_ports@ == ports_without(before.input_ports@, port_id, before.input_ports@.len() as int)
                    &&& after.output_ports@ == ports_without(
                        before.output_ports@,
                        port_id,
                        before.output_ports@.len() as int,
                    )
                }
        },
        PipewireEvent::LinkAdded { id, output_node, output_port, input_node, input_port } => {
            &&& b == (Graph { links: b.links, dirty: true, ..a })
            &&& b.links@ == a.links@.push(Link { id, output_node, output_port, input_node, input_port })
        },
        PipewireEvent::LinkRemoved { id } => {
            &&& b == (Graph { links: b.links, dirty: true, ..a })
            &&& b.links@ == links_without(a.links@, id, a.links@.len() as int)
        },
        PipewireEvent::DeviceAdded { id, name, description, api } => b == a,
        PipewireEvent::DeviceRemoved { id } => b == a,
    }
}

/// A first node with a given id is the only first one.
pub proof fn lemma_first_is_one(nodes: Seq<Node>, id: u32, i: int, k: int)
    requires
        is_first_with_id(nodes, id, i),
        is_first_with_id(nodes, id, k),
    ensures
        i == k,
{
    if k < i {
        assert(nodes[k].id != id);
    } else if i < k {
        assert(nodes[i].id != id);
    }
}

impl Graph {
    /// Moves a wanted position off the nodes that stand there.
    pub fn find_non_overlapping_position(&self, pos: Point) -> (r: Point)
        ensures
            r == nudged(self.nodes@, pos, 0),
    {
        let mut p = pos;
        let mut attempts: i64 = 0;
        while attempts < NUDGE_LIMIT
            invariant
                0 <= attempts <= NUDGE_LIMIT,
                nudged(self.nodes@, pos, 0) == nudged(self.nodes@, p, attempts as int),
            decreases NUDGE_LIMIT - attempts,
        {
            if !is_crowded(&self.nodes, p, NUDGE_REACH_X, NUDGE_REACH_Y) {
                return p;
            }
            p = Point { x: add_sat(p.x, NUDGE), y: add_sat(p.y, NUDGE) };
            attempts += 1;
        }
        p
    }

    /// Counts the nodes with the given identity.
    fn count_identity(&self, name: &String, app_name: &Option<String>, object_path: &Option<String>) -> (r: u32)
        ensures
            r == duplicate_index(
                count_same(
                    self.nodes@,
                    name@,
                    opt_chars(*app_name),
                    opt_chars(*object_path),
                    self.nodes@.len() as int,
                ),
            ),
    {
        let mut count: usize = 0;
        let mut i: usize = 0;
        while i < self.nodes.len()
            invariant
                i <= self.nodes.len(),
                count <= i,
                count == count_same(self.nodes@, name@, opt_chars(*app_name), opt_chars(*object_path), i as int),
            decreases self.nodes.len() - i,
        {
            let n = &self.nodes[i];
            if n.name == *name && same_text(&n.app_name, app_name) && same_text(&n.object_path, object_path) {
                count += 1;
            }
            i += 1;
        }
        if count > u32::MAX as usize {
            u32::MAX
        } else {
            count as u32
        }
    }

    fn add_node(
        &mut self,
        id: u32,
        name: String,
        app_name: Option<String>,
        serial: Option<String>,
        object_path: Option<String>,
        device_id: Option<u32>,
        config: &Config,
    )
        ensures
            event_holds(
                *old(self),
                *final(self),
                *config,
                PipewireEvent::NodeAdded { id, name, app_name, serial, object_path, device_id },
            ),
    {
        let index = self.count_identity(&name, &app_name, &object_path);
        let key = NodeKey {
            node_name: name.clone(),
            app_name: copy_text(&app_name),
            object_path: copy_text(&object_path),
            index: Some(index),
        };
        assert(key.key_text() == key_with_index(
            key_base(name@, opt_chars(app_name), opt_chars(object_path)),
            Some(index),
        ));
        let (wanted, has_saved_position) = match config.get_position(&key) {
            Some(p) => (Point { x: p.x, y: p.y }, true),
            None => (auto_position(&self.nodes, id), false),
        };
        let custom_name: Option<String> = match config.get_node_rename(&key) {
            Some(n) => Some(n.clone()),
            None => None,
        };
        let position = self.find_non_overlapping_position(wanted);
        let node = Node {
            id,
            name,
            app_name,
            serial,
            object_path,
            index,
            position,
            has_saved_position,
            input_ports: Vec::new(),
            output_ports: Vec::new(),
            custom_name,
            source: NodeSource::PipeWire,
        };
        assert(is_arrival(node, self.nodes@, *config, id, name, app_name, serial, object_path));
        match node_index(&self.nodes, id) {
            Some(i) => {
                self.nodes.set(i, node);
                proof {
                    assert forall|k: int| #[trigger] is_first_with_id(old(self).nodes@, id, k) implies k == i by {
                        lemma_first_is_one(old(self).nodes@, id, i as int, k);
                    }
                    assert(self.nodes@ =~= old(self).nodes@.update(i as int, self.nodes@[i as int]));
                }
            },
            None => {
                self.nodes.push(node);
                proof {
                    assert(self.nodes@.drop_last() =~= old(self).nodes@);
                    assert forall|k: int| #[trigger] is_first_with_id(old(self).nodes@, id, k) implies false by {
                        assert(old(self).nodes@[k].id != id);
                    }
                }
            },
        }
        self.dirty = true;
    }

    fn remove_node(&mut self, id: u32, Ghost(cfg): Ghost<Config>)
        ensures
            event_holds(*old(self), *final(self), cfg, PipewireEvent::NodeRemoved { id }),
    {
        match node_index(&self.nodes, id) {
            Some(i) => {
                self.nodes.remove(i);
                proof {
                    assert forall|k: int| #[trigger] is_first_with_id(old(self).nodes@, id, k) implies k == i by {
                        lemma_first_is_one(old(self).nodes@, id, i as int, k);
                    }
                }
            },
            None => {
                proof {
                    assert forall|k: int| #[trigger] is_first_with_id(old(self).nodes@, id, k) implies false by {
                        assert(old(self).nodes@[k].id != id);
                    }
                }
            },
        }
        let mut kept: Vec<Link> = Vec::new();
        let mut l: usize = 0;
        while l < self.links.len()
            invariant
                l <= self.links.len(),
                self.links == old(self).links,
                kept@ == links_clear_of(self.links@, id, l as int),
            decreases self.links.len() - l,
        {
            let link = self.links[l];
            if link.output_node != id && link.input_node != id {
                kept.push(link);
            }
            l += 1;
        }
        self.links = kept;
        self.dirty = true;
    }

    fn add_port(
        &mut self,
        node_id: u32,
        port_id: u32,
        name: String,
        direction: PortDirection,
        port_type: PortType,
        Ghost(cfg): Ghost<Config>,
    )
        ensures
            event_holds(
                *old(self),
                *final(self),
                cfg,
                PipewireEvent::PortAdded { node_id, port_id, name, direction, port_type },
            ),
    {
        match node_index(&self.nodes, node_id) {
            Some(i) => {
                let node = &self.nodes[i];
                let should_reposition = !node.has_saved_position && node.input_ports.len() == 0
                    && node.output_ports.len() == 0;
                let port = Port { id: port_id, name, direction, port_type };
                match direction {
                    PortDirection::Input => self.nodes[i].input_ports.push(port),
                    PortDirection::Output => self.nodes[i].output_ports.push(port),
                }
                if should_reposition {
                    let wanted = position_by_type(&self.nodes, &self.nodes[i]);
                    let settled = self.find_non_overlapping_position(wanted);
                    proof {
                        assert(same_positions(self.nodes@, old(self).nodes@));
                        lemma_free_row_by_positions(self.nodes@, old(self).nodes@, first_port_x(direction), 0);
                        lemma_nudged_by_positions(self.nodes@, old(self).nodes@, wanted, 0);
                    }
                    self.nodes[i].position = settled;
                }
                proof {
                    assert forall|k: int| #[trigger] is_first_with_id(old(self).nodes@, node_id, k) implies k == i by {
                        lemma_first_is_one(old(self).nodes@, node_id, i as int, k);
                    }
                    assert(self.nodes@ =~= old(self).nodes@.update(i as int, self.nodes@[i as int]));
                }
            },
            None => {
                proof {
                    assert forall|k: int| #[trigger] is_first_with_id(old(self).nodes@, node_id, k) implies false by {
                        assert(old(self).nodes@[k].id != node_id);
                    }
                }
            },
        }
        self.dirty = true;
    }

    fn drop_port(&mut self, node_id: u32, port_id: u32, Ghost(cfg): Ghost<Config>)
        ensures
            event_holds(*old(self), *final(self), cfg, PipewireEvent::PortRemoved { node_id, port_id }),
    {
        match node_index(&self.nodes, node_id) {
            Some(i) => {
                remove_port(&mut self.nodes[i].input_ports, port_id);
                remove_port(&mut self.nodes[i].output_ports, port_id);
                self.dirty = true;
                proof {
                    assert forall|k: int| #[trigger] is_first_with_id(old(self).nodes@, node_id, k) implies k == i by {
                        lemma_first_is_one(old(self).nodes@, node_id, i as int, k);
                    }
                    assert(self.nodes@ =~= old(self).nodes@.update(i as int, self.nodes@[i as int]));
                }
            },
            None => {
                proof {
                    assert forall|k: int| #[trigger] is_first_with_id(old(self).nodes@, node_id, k) implies false by {
                        assert(old(self).nodes@[k].id != node_id);
                    }
                }
            },
        }
    }

    fn drop_link(&mut self, id: u32, Ghost(cfg): Ghost<Config>)
        ensures
            event_holds(*old(self), *final(self), cfg, PipewireEvent::LinkRemoved { id }),
    {
        let mut kept: Vec<Link> = Vec::new();
        let mut l: usize = 0;
        while l < self.links.len()
            invariant
                l <= self.links.len(),
                self.links == old(self).links,
                kept@ == links_without(self.links@, id, l as int),
            decreases self.links.len() - l,
        {
            let link = self.links[l];
            if link.id != id {
                kept.push(link);
            }
            l += 1;
        }
        self.links = kept;
        self.dirty = true;
    }

    /// Applies one topology event to the graph.
    ///
    /// A node that arrives gets its duplicate index, its saved or a free
    /// position, and its custom name; a node that leaves takes its links
    /// with it; the first port of a node without saved position sends it to
    /// the column of its kind.
    pub fn handle_pipewire_event(&mut self, event: PipewireEvent, config: &Config)
        ensures
            event_holds(*old(self), *final(self), *config, event),
    {
        match event {
            PipewireEvent::NodeAdded { id, name, app_name, serial, object_path, device_id } => {
                self.add_node(id, name, app_name, serial, object_path, device_id, config);
            },
            PipewireEvent::NodeRemoved { id } => {
                self.remove_node(id, Ghost(*config));
            },
            PipewireEvent::PortAdded { node_id, port_id, name, direction, port_type } => {
                self.add_port(node_id, port_id, name, direction, port_type, Ghost(*config));
            },
            PipewireEvent::PortRemoved { node_id, port_id } => {
                self.drop_port(node_id, port_id, Ghost(*config));
            },
            PipewireEvent::LinkAdded { id, output_node, output_port, input_node, input_port } => {
                self.links.push(Link { id, output_node, output_port, input_node, input_port });
                self.dirty = true;
            },
            PipewireEvent::LinkRemoved { id } => {
                self.drop_link(id, Ghost(*config));
            },
            PipewireEvent::DeviceAdded { id, name, description, api } => {},
            PipewireEvent::DeviceRemoved { id } => {},
        }
    }
}

/// Number of nodes that have the identity of `node`.
pub open spec fn identity_count(nodes: Seq<Node>, node: Node) -> int {
    count_same(nodes, node.name@, opt_chars(node.app_name), opt_chars(node.object_path), nodes.len() as int)
}

/// Whether two nodes have the same name, application and hardware path.
pub open spec fn share_identity(a: Node, b: Node) -> bool {
    has_identity(a, b.name@, opt_chars(b.app_name), opt_chars(b.object_path))
}

/// Whether the duplicate index of every node is below the number of nodes
/// of its identity.
pub open spec fn indices_in_count(nodes: Seq<Node>) -> bool {
    forall|i: int| 0 <= i < nodes.len() ==> (#[trigger] nodes[i]).index < identity_count(nodes, nodes[i])
}

/// Whether, of two nodes of one identity, the one that came later has the
/// larger duplicate index.
pub open spec fn duplicates_ascend(nodes: Seq<Node>) -> bool {
    forall|i: int, j: int|
        0 <= i < j < nodes.len() && share_identity(#[trigger] nodes[i], #[trigger] nodes[j]) ==> nodes[i].index
            < nodes[j].index
}

/// Whether two lists hold nodes of the same identities and indices.
pub open spec fn same_identities(a: Seq<Node>, b: Seq<Node>) -> bool {
    a.len() == b.len() && forall|i: int|
        0 <= i < a.len() ==> share_identity(#[trigger] a[i], b[i]) && a[i].index == b[i].index
}

proof fn lemma_count_same_bound(nodes: Seq<Node>, name: Seq<char>, app: Option<Seq<char>>, path: Option<Seq<char>>, upto: int)
    requires
        0 <= upto,
    ensures
        0 <= count_same(nodes, name, app, path, upto) <= upto,
    decreases upto,
{
    if upto > 0 {
        lemma_count_same_bound(nodes, name, app, path, upto - 1);
    }
}

proof fn lemma_count_same_agrees(
    a: Seq<Node>,
    b: Seq<Node>,
    name: Seq<char>,
    app: Option<Seq<char>>,
    path: Option<Seq<char>>,
    upto: int,
)
    requires
        0 <= upto <= a.len(),
        upto <= b.len(),
        forall|i: int| 0 <= i < upto ==> share_identity(#[trigger] a[i], b[i]),
    ensures
        count_same(a, name, app, path, upto) == count_same(b, name, app, path, upto),
    decreases upto,
{
    if upto > 0 {
        lemma_count_same_agrees(a, b, name, app, path, upto - 1);
        assert(share_identity(a[upto - 1], b[upto - 1]));
    }
}

/// In a graph without nodes no two duplicate indices are out of order.
pub proof fn lemma_no_nodes_in_order(nodes: Seq<Node>)
    requires
        nodes.len() == 0,
    ensures
        indices_in_count(nodes),
        duplicates_ascend(nodes),
{
}

/// A node that arrives under an id of its own gets as duplicate index the
/// number of nodes of its identity that are there; that index is larger
/// than the index of each of them, so that duplicate indices ascend in
/// arrival order as long as nodes only arrive.
pub proof fn lemma_arrival_index_ascends(
    a: Graph,
    b: Graph,
    cfg: Config,
    id: u32,
    name: String,
    app_name: Option<String>,
    serial: Option<String>,
    object_path: Option<String>,
    device_id: Option<u32>,
)
    requires
        event_holds(a, b, cfg, PipewireEvent::NodeAdded { id, name, app_name, serial, object_path, device_id }),
        no_node_has(a.nodes@, id),
        a.nodes@.len() <= u32::MAX,
        indices_in_count(a.nodes@),
        duplicates_ascend(a.nodes@),
    ensures
        b.nodes@.len() == a.nodes@.len() + 1,
        b.nodes@.last().index == count_same(
            a.nodes@,
            name@,
            opt_chars(app_name),
            opt_chars(object_path),
            a.nodes@.len() as int,
        ),
        forall|i: int|
            0 <= i < a.nodes@.len() && share_identity(#[trigger] b.nodes@[i], b.nodes@.last()) ==> b.nodes@[i].index
                < b.nodes@.last().index,
        indices_in_count(b.nodes@),
        duplicates_ascend(b.nodes@),
{
    let old_nodes = a.nodes@;
    let new_nodes = b.nodes@;
    let n = old_nodes.len() as int;
    let last = new_nodes.last();
    let app = opt_chars(app_name);
    let path = opt_chars(object_path);
    assert(new_nodes.drop_last() == old_nodes);
    assert forall|i: int| 0 <= i < n implies new_nodes[i] == old_nodes[i] by {
        assert(new_nodes.drop_last()[i] == new_nodes[i]);
    }
    lemma_count_same_bound(old_nodes, name@, app, path, n);
    assert(last.index == count_same(old_nodes, name@, app, path, n));
    assert forall|i: int| 0 <= i < new_nodes.len() implies (#[trigger] new_nodes[i]).index < identity_count(
        new_nodes,
        new_nodes[i],
    ) by {
        let x = new_nodes[i];
        let xa = opt_chars(x.app_name);
        let xp = opt_chars(x.object_path);
        lemma_count_same_agrees(new_nodes, old_nodes, x.name@, xa, xp, n);
        if i < n {
            assert(old_nodes[i].index < identity_count(old_nodes, old_nodes[i]));
        } else {
            assert(has_identity(last, x.name@, xa, xp));
        }
    }
    assert forall|i: int, j: int|
        0 <= i < j < new_nodes.len() && share_identity(#[trigger] new_nodes[i], #[trigger] new_nodes[j]) implies new_nodes[i].index
        < new_nodes[j].index by {
        if j < n {
            assert(share_identity(old_nodes[i], old_nodes[j]));
        } else {
            assert(old_nodes[i].index < identity_count(old_nodes, old_nodes[i]));
        }
    }
}

/// Ports and links that come and go leave the duplicate indices in order.
pub proof fn lemma_ports_and_links_keep_order(a: Graph, b: Graph, cfg: Config, event: PipewireEvent)
    requires
        event_holds(a, b, cfg, event),
        !(event is NodeAdded),
        !(event is NodeRemoved),
        indices_in_count(a.nodes@),
        duplicates_ascend(a.nodes@),
    ensures
        same_identities(a.nodes@, b.nodes@),
        indices_in_count(b.nodes@),
        duplicates_ascend(b.nodes@),
{
    let x = a.nodes@;
    let y = b.nodes@;
    assert(same_identities(x, y)) by {
        match event {
            PipewireEvent::PortAdded { node_id, port_id, name, direction, port_type } => {
                if !no_node_has(x, node_id) {
                    let i = first_index(x, node_id, 0);
                    assert(is_first_with_id(x, node_id, i));
                }
            },
            PipewireEvent::PortRemoved { node_id, port_id } => {
                if !no_node_has(x, node_id) {
                    let i = first_index(x, node_id, 0);
                    assert(is_first_with_id(x, node_id, i));
                }
            },
            _ => {},
        }
    }
    assert forall|i: int| 0 <= i < y.len() implies (#[trigger] y[i]).index < identity_count(y, y[i]) by {
        let node = y[i];
        assert(share_identity(x[i], y[i]));
        lemma_count_same_agrees(x, y, node.name@, opt_chars(node.app_name), opt_chars(node.object_path), x.len() as int);
        assert(x[i].index < identity_count(x, x[i]));
    }
    assert forall|i: int, j: int|
        0 <= i < j < y.len() && share_identity(#[trigger] y[i], #[trigger] y[j]) implies y[i].index < y[j].index by {
        assert(share_identity(x[i], y[i]));
        assert(share_identity(x[j], y[j]));
        assert(share_identity(x[i], x[j]));
    }
}

/// No event brings a second node under an id that a node carries: a node
/// that arrives under such an id takes the place of the one that carries it.
pub proof fn lemma_events_keep_ids_unique(a: Graph, b: Graph, cfg: Config, event: PipewireEvent)
    requires
        event_holds(a, b, cfg, event),
        ids_unique(a.nodes@),
    ensures
        ids_unique(b.nodes@),
{
    let x = a.nodes@;
    let y = b.nodes@;
    match event {
        PipewireEvent::NodeAdded { id, name, app_name, serial, object_path, device_id } => {
            if no_node_has(x, id) {
                assert(y.drop_last() == x);
                assert forall|i: int, j: int| 0 <= i < j < y.len() implies (#[trigger] y[i]).id != (#[trigger] y[j]).id by {
                    assert(y.drop_last()[i] == y[i]);
                    if j < x.len() {
                        assert(y.drop_last()[j] == y[j]);
                    }
                }
            } else {
                let k = first_index(x, id, 0);
                assert(is_first_with_id(x, id, k));
            }
        },
        PipewireEvent::NodeRemoved { id } => {
            if !no_node_has(x, id) {
                let k = first_index(x, id, 0);
                assert(is_first_with_id(x, id, k));
                assert forall|i: int, j: int| 0 <= i < j < y.len() implies (#[trigger] y[i]).id != (#[trigger] y[j]).id by {
                    let i0 = if i < k { i } else { i + 1 };
                    let j0 = if j < k { j } else { j + 1 };
                    assert(y[i] == x[i0]);
                    assert(y[j] == x[j0]);
                }
            }
        },
        PipewireEvent::PortAdded { node_id, port_id, name, direction, port_type } => {
            if !no_node_has(x, node_id) {
                let k = first_index(x, node_id, 0);
                assert(is_first_with_id(x, node_id, k));
            }
        },
        PipewireEvent::PortRemoved { node_id, port_id } => {
            if !no_node_has(x, node_id) {
                let k = first_index(x, node_id, 0);
                assert(is_first_with_id(x, node_id, k));
            }
        },
        _ => {},
    }
}

/// Finds the first node with id `id` from place `from` on.
proof fn first_index(nodes: Seq<Node>, id: u32, from: int) -> (i: int)
    requires
        0 <= from <= nodes.len(),
        forall|m: int| 0 <= m < from ==> (#[trigger] nodes[m]).id != id,
        !no_node_has(nodes, id),
    ensures
        is_first_with_id(nodes, id, i),
    decreases nodes.len() - from,
{
    if from < nodes.len() && nodes[from].id == id {
        from
    } else {
        if from >= nodes.len() {
            assert(no_node_has(nodes, id));
        }
        first_index(nodes, id, from + 1)
    }
}

} // verus!
