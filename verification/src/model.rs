//! Changes to the graph that the user asks for: dragging, panning and
//! zooming, connecting and disconnecting with undo and redo, and search.

use vstd::prelude::*;
use vstd::string::StringExecFns;
use crate::auto_layout::layout_holds;
use crate::config::{key_base, key_with_index, Config, NodeKey, Position};
use crate::geometry::{clamp_zoom, to_world, world_coord};
use crate::graph::{
    is_first_with_id,
    no_node_has,
    node_index,
    Effect,
    Graph,
    GraphMessage,
    Node,
    Port,
    UndoAction,
    ZOOM_MAX,
    ZOOM_MIN,
    ZOOM_ONE,
};
use crate::rows::Placement;
use crate::search::{first_match, lowest_id, search_result};
use crate::text::{copy_text, drop_last_char, opt_chars};
use crate::units::{add_sat, clamp_coord, div_floor, saturate, scale, scaled, Point, Vector, UNIT};

verus! {

/// Screen x to which a committed search brings the node it found.
pub const VIEW_CENTER_X: i64 = 400_000;

/// Screen y to which a committed search brings the node it found.
pub const VIEW_CENTER_Y: i64 = 300_000;

/// Scroll amounts are in thousandths of a line; one line changes the zoom by
/// a tenth, so the zoom is multiplied by `(ZOOM_DIVISOR + delta) / ZOOM_DIVISOR`.
pub const ZOOM_DIVISOR: i64 = 10_000;

/// Whether two graphs hold the same nodes and links.
pub open spec fn same_model(a: Graph, b: Graph) -> bool {
    a.nodes == b.nodes && a.links == b.links
}

/// Whether two graphs are seen through the same pan and zoom.
pub open spec fn same_viewport(a: Graph, b: Graph) -> bool {
    a.pan_offset == b.pan_offset && a.zoom == b.zoom
}

/// Whether two graphs have the same undo and redo history.
pub open spec fn same_history(a: Graph, b: Graph) -> bool {
    a.undo_stack == b.undo_stack && a.redo_stack == b.redo_stack
}

/// Whether two graphs are in the same state of search.
pub open spec fn same_search(a: Graph, b: Graph) -> bool {
    a.search_query == b.search_query && a.search_active == b.search_active && a.filtered_nodes == b.filtered_nodes
}

/// Whether two graphs agree on presets, renaming and pinned connections.
pub open spec fn same_extras(a: Graph, b: Graph) -> bool {
    &&& a.current_preset == b.current_preset
    &&& a.preset_path == b.preset_path
    &&& a.exclusive_mode == b.exclusive_mode
    &&& a.renaming_node == b.renaming_node
    &&& a.rename_text == b.rename_text
    &&& a.pinned_connections == b.pinned_connections
}

/// A position moved by a screen delta, which the zoom scales to world
/// distance.
pub open spec fn moved_by(p: Point, delta: Vector, zoom: int) -> Point {
    Point {
        x: clamp_coord(p.x + scaled(delta.x as int, UNIT as int, zoom)) as i64,
        y: clamp_coord(p.y + scaled(delta.y as int, UNIT as int, zoom)) as i64,
    }
}

/// The storage key of a node.
pub open spec fn node_key_text(node: Node) -> Seq<char> {
    key_with_index(key_base(node.name@, opt_chars(node.app_name), opt_chars(node.object_path)), Some(node.index))
}

/// Whether the first node with id `node_id` has an output port `port_id`.
pub open spec fn is_output_of(nodes: Seq<Node>, node_id: u32, port_id: u32) -> bool {
    exists|i: int, p: int|
        is_first_with_id(nodes, node_id, i) && 0 <= p < nodes[i].output_ports@.len() && (#[trigger] nodes[i].output_ports@[p]).id
            == port_id
}

/// The action that takes an action back.
pub open spec fn inverse(action: UndoAction) -> UndoAction {
    match action {
        UndoAction::Connect { output_port, input_port } => UndoAction::Disconnect { output_port, input_port },
        UndoAction::Disconnect { output_port, input_port } => UndoAction::Connect { output_port, input_port },
    }
}

/// The command that carries an action out.
pub open spec fn command_of(action: UndoAction) -> Effect {
    match action {
        UndoAction::Connect { output_port, input_port } => Effect::Connect { output_port, input_port },
        UndoAction::Disconnect { output_port, input_port } => Effect::Disconnect { output_port, input_port },
    }
}

/// The zoom factor after scrolling by `delta`.
pub open spec fn zoomed(zoom: int, delta: int) -> int {
    clamp_zoom(zoom * (ZOOM_DIVISOR + delta) / (ZOOM_DIVISOR as int))
}

/// The pan that shows, at zoom `next`, under the cursor the world
/// coordinate that showed there at zoom `zoom`.
pub open spec fn anchored(pan: int, cursor: int, zoom: int, next: int) -> int {
    clamp_coord(cursor - world_coord(cursor, pan, zoom) * next / (UNIT as int))
}

/// Zooming at the cursor keeps the world point under the cursor: wherever
/// the new pan did not run into the end of the coordinate range, the world
/// coordinate under the cursor after the zoom lies at most 4 thousandths
/// below the one before, and never above it.
pub proof fn lemma_zoom_keeps_cursor_point(pan: int, cursor: int, zoom: int, delta: int)
    requires
        ZOOM_MIN <= zoom <= ZOOM_MAX,
        crate::units::in_range(cursor - world_coord(cursor, pan, zoom) * zoomed(zoom, delta) / (UNIT as int)),
    ensures
        world_coord(cursor, pan, zoom) - 4 <= world_coord(
            cursor,
            anchored(pan, cursor, zoom, zoomed(zoom, delta)),
            zoomed(zoom, delta),
        ) <= world_coord(cursor, pan, zoom),
{
    let next = zoomed(zoom, delta);
    let w = world_coord(cursor, pan, zoom);
    let q = w * next / 1000;
    let r = (w * next) % 1000;
    assert(anchored(pan, cursor, zoom, next) == cursor - q);
    assert((cursor - (cursor - q)) * 1000 == q * 1000);
    assert(w * next == 1000 * q + r && 0 <= r < 1000) by {
        vstd::arithmetic::div_mod::lemma_fundamental_div_mod(w * next, 1000);
        vstd::arithmetic::div_mod::lemma_mod_bound(w * next, 1000);
    }
    assert(q * 1000 <= next * w) by (nonlinear_arith)
        requires
            w * next == 1000 * q + r,
            0 <= r,
    ;
    assert(next * (w - 4) <= q * 1000) by (nonlinear_arith)
        requires
            w * next == 1000 * q + r,
            r < 1000,
            250 <= next,
    ;
    vstd::arithmetic::div_mod::lemma_div_is_ordered(q * 1000, next * w, next);
    vstd::arithmetic::div_mod::lemma_div_is_ordered(next * (w - 4), q * 1000, next);
    vstd::arithmetic::div_mod::lemma_div_multiples_vanish(w, next);
    vstd::arithmetic::div_mod::lemma_div_multiples_vanish(w - 4, next);
}

/// The pan that shows world coordinate `pos` at screen coordinate `center`.
pub open spec fn centered(pos: int, zoom: int, center: int) -> int {
    clamp_coord(center - pos * zoom / (UNIT as int))
}

/// What a message makes of the graph and the settings, and what it asks
/// the caller to do.
pub open spec fn update_holds(
    a: Graph,
    b: Graph,
    cfg_a: Config,
    cfg_b: Config,
    message: GraphMessage,
    effect: Effect,
) -> bool {
    match message {
        GraphMessage::NodeDragged { node_id, delta } => {
            &&& cfg_b == cfg_a
            &&& effect == Effect::Nothing
            &&& b.links == a.links
            &&& same_viewport(a, b)
            &&& same_history(a, b)
            &&& same_search(a, b)
            &&& same_extras(a, b)
            &&& b.show_help == a.show_help
            &&& b.nodes.len() == a.nodes.len()
            &&& no_node_has(a.nodes@, node_id) ==> b.nodes == a.nodes && b.dirty == a.dirty
            &&& forall|i: int|
                is_first_with_id(a.nodes@, node_id, i) ==> b.dirty && #[trigger] b.nodes@[i] == (Node {
                    position: moved_by(a.nodes@[i].position, delta, a.zoom_factor()),
                    ..a.nodes@[i]
                }) && forall|j: int| 0 <= j < a.nodes.len() && j != i ==> #[trigger] b.nodes@[j] == a.nodes@[j]
        },
        GraphMessage::NodeDragEnded { node_id } => {
            &&& b.links == a.links
            &&& same_viewport(a, b)
            &&& same_history(a, b)
            &&& same_search(a, b)
            &&& same_extras(a, b)
            &&& b.show_help == a.show_help
            &&& b.dirty == a.dirty
            &&& b.nodes.len() == a.nodes.len()
            &&& no_node_has(a.nodes@, node_id) ==> b.nodes == a.nodes && cfg_b == cfg_a && effect == Effect::Nothing
            &&& forall|i: int|
                is_first_with_id(a.nodes@, node_id, i) ==> {
                    &&& effect == Effect::SaveConfig
                    &&& #[trigger] b.nodes@[i] == (Node { has_saved_position: true, ..a.nodes@[i] })
                    &&& forall|j: int| 0 <= j < a.nodes.len() && j != i ==> #[trigger] b.nodes@[j] == a.nodes@[j]
                    &&& cfg_b.saved_positions() == cfg_a.saved_positions().insert(
                        node_key_text(a.nodes@[i]),
                        Position { x: a.nodes@[i].position.x, y: a.nodes@[i].position.y },
                    )
                    &&& cfg_b.node_renames == cfg_a.node_renames
                    &&& cfg_b.last_preset == cfg_a.last_preset
                    &&& cfg_b.exclusive_mode == cfg_a.exclusive_mode
                    &&& cfg_b.auto_pin == cfg_a.auto_pin
                    &&& cfg_b.alsa_midi_enabled == cfg_a.alsa_midi_enabled
                    &&& cfg_b.device_profiles == cfg_a.device_profiles
                    &&& cfg_b.device_positions == cfg_a.device_positions
                }
        },
        GraphMessage::ConnectionStarted { node_id, port_id } => {
            b == a && cfg_b == cfg_a && effect == Effect::Nothing
        },
        GraphMessage::ConnectionEnded { from_node, from_port, to_node, to_port } => {
            let action = if is_output_of(a.nodes@, from_node, from_port) {
                UndoAction::Connect { output_port: from_port, input_port: to_port }
            } else {
                UndoAction::Connect { output_port: to_port, input_port: from_port }
            };
            &&& cfg_b == cfg_a
            &&& effect == command_of(action)
            &&& same_model(a, b)
            &&& same_viewport(a, b)
            &&& same_search(a, b)
            &&& same_extras(a, b)
            &&& b.show_help == a.show_help
            &&& b.dirty == a.dirty
            &&& b.undo_stack@ == a.undo_stack@.push(action)
            &&& b.redo_stack@ == Seq::<UndoAction>::empty()
        },
        GraphMessage::ConnectionCancelled => {
            &&& cfg_b == cfg_a
            &&& effect == Effect::Nothing
            &&& b == (Graph { dirty: true, ..a })
        },
        GraphMessage::DisconnectLink { link_id, output_port, input_port } => {
            &&& cfg_b == cfg_a
            &&& effect == Effect::Disconnect { output_port, input_port }
            &&& same_model(a, b)
            &&& same_viewport(a, b)
            &&& same_search(a, b)
            &&& same_extras(a, b)
            &&& b.show_help == a.show_help
            &&& b.dirty == a.dirty
            &&& b.undo_stack@ == a.undo_stack@.push(UndoAction::Disconnect { output_port, input_port })
            &&& b.redo_stack@ == Seq::<UndoAction>::empty()
        },
        GraphMessage::Pan(delta) => {
            &&& cfg_b == cfg_a
            &&& effect == Effect::Nothing
            &&& b == (Graph {
                pan_offset: Vector {
                    x: clamp_coord(a.pan_offset.x + delta.x) as i64,
                    y: clamp_coord(a.pan_offset.y + delta.y) as i64,
                },
                dirty: true,
                ..a
            })
        },
        GraphMessage::Zoom { delta, cursor } => {
            let next = zoomed(a.zoom_factor(), delta as int);
            &&& cfg_b == cfg_a
            &&& effect == Effect::Nothing
            &&& b == (Graph {
                zoom: next as i64,
                pan_offset: Vector {
                    x: anchored(a.pan_offset.x as int, cursor.x as int, a.zoom_factor(), next) as i64,
                    y: anchored(a.pan_offset.y as int, cursor.y as int, a.zoom_factor(), next) as i64,
                },
                dirty: true,
                ..a
            })
        },
        GraphMessage::AutoLayout => {
            &&& cfg_b == cfg_a
            &&& effect == Effect::Nothing
            &&& exists|plan: Seq<Placement>| layout_holds(a, b, plan)
        },
        GraphMessage::Undo => {
            &&& cfg_b == cfg_a
            &&& same_model(a, b)
            &&& same_viewport(a, b)
            &&& same_search(a, b)
            &&& same_extras(a, b)
            &&& b.show_help == a.show_help
            &&& b.dirty == a.dirty
            &&& if a.undo_stack@.len() > 0 {
                &&& effect == command_of(inverse(a.undo_stack@.last()))
                &&& b.undo_stack@ == a.undo_stack@.drop_last()
                &&& b.redo_stack@ == a.redo_stack@.push(inverse(a.undo_stack@.last()))
            } else {
                effect == Effect::Nothing && same_history(a, b)
            }
        },
        GraphMessage::Redo => {
            &&& cfg_b == cfg_a
            &&& same_model(a, b)
            &&& same_viewport(a, b)
            &&& same_search(a, b)
            &&& same_extras(a, b)
            &&& b.show_help == a.show_help
            &&& b.dirty == a.dirty
            &&& if a.redo_stack@.len() > 0 {
                &&& effect == command_of(inverse(a.redo_stack@.last()))
                &&& b.redo_stack@ == a.redo_stack@.drop_last()
                &&& b.undo_stack@ == a.undo_stack@.push(inverse(a.redo_stack@.last()))
            } else {
                effect == Effect::Nothing && same_history(a, b)
            }
        },
        GraphMessage::ToggleHelp => {
            &&& cfg_b == cfg_a
            &&& effect == Effect::Nothing
            &&& b == (Graph { show_help: !a.show_help, dirty: true, ..a })
        },
        GraphMessage::SearchActivate => {
            &&& cfg_b == cfg_a
            &&& effect == Effect::Nothing
            &&& search_reset(a, b, true)
            &&& same_viewport(a, b)
        },
        GraphMessage::SearchInput { text } => {
            &&& cfg_b == cfg_a
            &&& effect == Effect::Nothing
            &&& search_edited(a, b, a.search_query@ + text@)
            &&& b.search_active
        },
        GraphMessage::SearchBackspace => {
            &&& cfg_b == cfg_a
            &&& effect == Effect::Nothing
            &&& search_edited(
                a,
                b,
                if a.search_query@.len() > 0 {
                    a.search_query@.drop_last()
                } else {
                    a.search_query@
                },
            )
            &&& b.search_active == a.search_active
        },
        GraphMessage::SearchClear => {
            &&& cfg_b == cfg_a
            &&& effect == Effect::Nothing
            &&& search_reset(a, b, false)
            &&& same_viewport(a, b)
        },
        GraphMessage::SearchCommit => {
            &&& cfg_b == cfg_a
            &&& effect == Effect::Nothing
            &&& search_reset(a, b, false)
            &&& b.zoom == a.zoom
            &&& match lowest_id(a.filtered_nodes@, a.filtered_nodes@.len() as int) {
                Some(id) => {
                    &&& no_node_has(a.nodes@, id) ==> b.pan_offset == a.pan_offset
                    &&& forall|i: int| #[trigger]
                        is_first_with_id(a.nodes@, id, i) ==> b.pan_offset == (Vector {
                            x: centered(a.nodes@[i].position.x as int, a.zoom_factor(), VIEW_CENTER_X as int) as i64,
                            y: centered(a.nodes@[i].position.y as int, a.zoom_factor(), VIEW_CENTER_Y as int) as i64,
                        })
                },
                None => b.pan_offset == a.pan_offset,
            }
        },
    }
}

/// The search is emptied and switched on or off; pan and zoom aside,
/// nothing else changes but the need to redraw.
pub open spec fn search_reset(a: Graph, b: Graph, active: bool) -> bool {
    &&& same_model(a, b)
    &&& same_history(a, b)
    &&& same_extras(a, b)
    &&& b.show_help == a.show_help
    &&& b.dirty
    &&& b.search_active == active
    &&& b.search_query@ == Seq::<char>::empty()
    &&& b.filtered_nodes@ == Seq::<u32>::empty()
}

/// The query becomes `query` and the filter follows it.
pub open spec fn search_edited(a: Graph, b: Graph, query: Seq<char>) -> bool {
    &&& same_model(a, b)
    &&& same_viewport(a, b)
    &&& same_history(a, b)
    &&& same_extras(a, b)
    &&& b.show_help == a.show_help
    &&& b.dirty
    &&& b.search_query@ == query
    &&& b.filtered_nodes@ == search_result(a.nodes@, query)
}

/// Tells whether a port list holds a port with the given id.
pub fn has_port(ports: &Vec<Port>, id: u32) -> (r: bool)
    ensures
        r == exists|p: int| 0 <= p < ports@.len() && (#[trigger] ports@[p]).id == id,
{
    let mut p: usize = 0;
    while p < ports.len()
        invariant
            p <= ports.len(),
            forall|q: int| 0 <= q < p ==> (#[trigger] ports@[q]).id != id,
        decreases ports.len() - p,
    {
        if ports[p].id == id {
            return true;
        }
        p += 1;
    }
    false
}

/// Computes the pan coordinate that keeps the point under the cursor.
fn anchor_pan(pan: i64, cursor: i64, zoom: i64, next: i64) -> (r: i64)
    requires
        ZOOM_MIN <= zoom <= ZOOM_MAX,
        ZOOM_MIN <= next <= ZOOM_MAX,
    ensures
        r == anchored(pan as int, cursor as int, zoom as int, next as int),
{
    let world: i128 = to_world(cursor, pan, zoom);
    assert(-0x8_0000_0000_0000_0000 * 4000 <= world * next <= 0x8_0000_0000_0000_0000 * 4000) by (nonlinear_arith)
        requires
            -0x8_0000_0000_0000_0000 <= world <= 0x8_0000_0000_0000_0000,
            250 <= next <= 4000,
    ;
    let shown: i128 = div_floor(world * (next as i128), UNIT as i128);
    saturate(cursor as i128 - shown)
}

/// Computes the pan coordinate that shows `pos` at `center`.
fn center_pan(pos: i64, zoom: i64, center: i64) -> (r: i64)
    requires
        ZOOM_MIN <= zoom <= ZOOM_MAX,
    ensures
        r == centered(pos as int, zoom as int, center as int),
{
    let wide: i128 = pos as i128;
    assert(-0x8000_0000_0000_0000 * 4000 <= wide * zoom <= 0x8000_0000_0000_0000 * 4000) by (nonlinear_arith)
        requires
            -0x8000_0000_0000_0000 <= wide <= 0x8000_0000_0000_0000,
            250 <= zoom <= 4000,
    ;
    let shown: i128 = div_floor(wide * (zoom as i128), UNIT as i128);
    saturate(center as i128 - shown)
}

/// Computes the zoom factor after scrolling by `delta`.
fn next_zoom(zoom: i64, delta: i64) -> (r: i64)
    requires
        ZOOM_MIN <= zoom <= ZOOM_MAX,
    ensures
        r == zoomed(zoom as int, delta as int),
        ZOOM_MIN <= r <= ZOOM_MAX,
{
    let factor: i128 = ZOOM_DIVISOR as i128 + delta as i128;
    assert(-0x1_0000_0000_0000_0000 * 4000 <= zoom * factor <= 0x1_0000_0000_0000_0000 * 4000) by (nonlinear_arith)
        requires
            -0x1_0000_0000_0000_0000 <= factor <= 0x1_0000_0000_0000_0000,
            250 <= zoom <= 4000,
    ;
    let raw: i128 = div_floor((zoom as i128) * factor, ZOOM_DIVISOR as i128);
    if raw < ZOOM_MIN as i128 {
        ZOOM_MIN
    } else if raw > ZOOM_MAX as i128 {
        ZOOM_MAX
    } else {
        raw as i64
    }
}

impl Graph {
    /// An empty graph, seen at zoom 1 from the origin.
    pub fn new(config: &Config) -> (g: Self)
        ensures
            g.nodes@.len() == 0,
            g.links@.len() == 0,
            g.pan_offset == (Vector { x: 0, y: 0 }),
            g.zoom == ZOOM_ONE,
            g.dirty,
            g.undo_stack@.len() == 0,
            g.redo_stack@.len() == 0,
            !g.show_help,
            g.search_query@.len() == 0,
            !g.search_active,
            g.filtered_nodes@.len() == 0,
            g.current_preset.is_none(),
            g.preset_path.is_none(),
            g.exclusive_mode == config.exclusive_mode,
            g.renaming_node.is_none(),
            g.rename_text@.len() == 0,
            g.pinned_connections@.len() == 0,
    {
        Graph {
            nodes: Vec::new(),
            links: Vec::new(),
            pan_offset: Vector { x: 0, y: 0 },
            zoom: ZOOM_ONE,
            dirty: true,
            undo_stack: Vec::new(),
            redo_stack: Vec::new(),
            show_help: false,
            search_query: String::new(),
            search_active: false,
            filtered_nodes: Vec::new(),
            current_preset: None,
            preset_path: None,
            exclusive_mode: config.exclusive_mode,
            renaming_node: None,
            rename_text: String::new(),
            pinned_connections: Vec::new(),
        }
    }

    fn drag_node(&mut self, node_id: u32, delta: Vector, Ghost(cfg): Ghost<Config>)
        ensures
            update_holds(
                *old(self),
                *final(self),
                cfg,
                cfg,
                GraphMessage::NodeDragged { node_id, delta },
                Effect::Nothing,
            ),
    {
        let zoom = self.zoom_in_use();
        match node_index(&self.nodes, node_id) {
            Some(i) => {
                let p = self.nodes[i].position;
                let moved = Point {
                    x: add_sat(p.x, scale(delta.x, UNIT, zoom)),
                    y: add_sat(p.y, scale(delta.y, UNIT, zoom)),
                };
                self.nodes[i].position = moved;
                self.dirty = true;
                proof {
                    assert forall|k: int| is_first_with_id(old(self).nodes@, node_id, k) implies k == i by {
                        if k < i {
                            assert(old(self).nodes@[k].id != node_id);
                        } else if k > i {
                            assert(old(self).nodes@[i as int].id != node_id);
                        }
                    }
                }
            },
            None => {},
        }
    }

    fn end_drag(&mut self, node_id: u32, config: &mut Config) -> (effect: Effect)
        ensures
            update_holds(
                *old(self),
                *final(self),
                *old(config),
                *final(config),
                GraphMessage::NodeDragEnded { node_id },
                effect,
            ),
    {
        match node_index(&self.nodes, node_id) {
            Some(i) => {
                self.nodes[i].has_saved_position = true;
                let node = &self.nodes[i];
                let key = NodeKey {
                    node_name: node.name.clone(),
                    app_name: copy_text(&node.app_name),
                    object_path: copy_text(&node.object_path),
                    index: Some(node.index),
                };
                let pos = Position { x: node.position.x, y: node.position.y };
                assert(key.key_text() == node_key_text(old(self).nodes@[i as int]));
                config.set_position(key, pos);
                proof {
                    assert forall|k: int| is_first_with_id(old(self).nodes@, node_id, k) implies k == i by {
                        if k < i {
                            assert(old(self).nodes@[k].id != node_id);
                        } else if k > i {
                            assert(old(self).nodes@[i as int].id != node_id);
                        }
                    }
                }
                Effect::SaveConfig
            },
            None => Effect::Nothing,
        }
    }

    fn end_connection(&mut self, from_node: u32, from_port: u32, to_node: u32, to_port: u32, Ghost(cfg): Ghost<Config>) -> (effect: Effect)
        ensures
            update_holds(
                *old(self),
                *final(self),
                cfg,
                cfg,
                GraphMessage::ConnectionEnded { from_node, from_port, to_node, to_port },
                effect,
            ),
    {
        let from_is_output = match node_index(&self.nodes, from_node) {
            Some(i) => {
                let found = has_port(&self.nodes[i].output_ports, from_port);
                proof {
                    if found {
                        let p = choose|p: int|
                            0 <= p < self.nodes@[i as int].output_ports@.len() && (#[trigger] self.nodes@[i as int].output_ports@[p]).id
                                == from_port;
                        assert(is_first_with_id(self.nodes@, from_node, i as int) && 0 <= p
                            < self.nodes@[i as int].output_ports@.len() && self.nodes@[i as int].output_ports@[p].id
                            == from_port);
                    }
                    if is_output_of(self.nodes@, from_node, from_port) {
                        let (k, p) = choose|k: int, p: int|
                            is_first_with_id(self.nodes@, from_node, k) && 0 <= p < self.nodes@[k].output_ports@.len()
                                && (#[trigger] self.nodes@[k].output_ports@[p]).id == from_port;
                        if k < i {
                            assert(self.nodes@[k].id != from_node);
                        } else if k > i {
                            assert(self.nodes@[i as int].id != from_node);
                        }
                        assert(self.nodes@[i as int].output_ports@[p].id == from_port);
                    }
                }
                found
            },
            None => {
                proof {
                    if is_output_of(self.nodes@, from_node, from_port) {
                        let (k, p) = choose|k: int, p: int|
                            is_first_with_id(self.nodes@, from_node, k) && 0 <= p < self.nodes@[k].output_ports@.len()
                                && (#[trigger] self.nodes@[k].output_ports@[p]).id == from_port;
                        assert(self.nodes@[k].id != from_node);
                    }
                }
                false
            },
        };
        let (output_port, input_port) = if from_is_output {
            (from_port, to_port)
        } else {
            (to_port, from_port)
        };
        self.undo_stack.push(UndoAction::Connect { output_port, input_port });
        self.redo_stack = Vec::new();
        Effect::Connect { output_port, input_port }
    }

    fn undo(&mut self, Ghost(cfg): Ghost<Config>) -> (effect: Effect)
        ensures
            update_holds(
                *old(self),
                *final(self),
                cfg,
                cfg,
                GraphMessage::Undo,
                effect,
            ),
    {
        if self.undo_stack.len() == 0 {
            return Effect::Nothing;
        }
        match self.undo_stack.pop() {
            Some(action) => {
                let (back, effect) = match action {
                    UndoAction::Connect { output_port, input_port } => (
                        UndoAction::Disconnect { output_port, input_port },
                        Effect::Disconnect { output_port, input_port },
                    ),
                    UndoAction::Disconnect { output_port, input_port } => (
                        UndoAction::Connect { output_port, input_port },
                        Effect::Connect { output_port, input_port },
                    ),
                };
                self.redo_stack.push(back);
                effect
            },
            None => Effect::Nothing,
        }
    }

    fn redo(&mut self, Ghost(cfg): Ghost<Config>) -> (effect: Effect)
        ensures
            update_holds(
                *old(self),
                *final(self),
                cfg,
                cfg,
                GraphMessage::Redo,
                effect,
            ),
    {
        if self.redo_stack.len() == 0 {
            return Effect::Nothing;
        }
        match self.redo_stack.pop() {
            Some(action) => {
                let (back, effect) = match action {
                    UndoAction::Connect { output_port, input_port } => (
                        UndoAction::Disconnect { output_port, input_port },
                        Effect::Disconnect { output_port, input_port },
                    ),
                    UndoAction::Disconnect { output_port, input_port } => (
                        UndoAction::Connect { output_port, input_port },
                        Effect::Connect { output_port, input_port },
                    ),
                };
                self.undo_stack.push(back);
                effect
            },
            None => Effect::Nothing,
        }
    }

    fn zoom_at(&mut self, delta: i64, cursor: Point, Ghost(cfg): Ghost<Config>)
        ensures
            update_holds(
                *old(self),
                *final(self),
                cfg,
                cfg,
                GraphMessage::Zoom { delta, cursor },
                Effect::Nothing,
            ),
    {
        let zoom = self.zoom_in_use();
        let next = next_zoom(zoom, delta);
        let pan = Vector {
            x: anchor_pan(self.pan_offset.x, cursor.x, zoom, next),
            y: anchor_pan(self.pan_offset.y, cursor.y, zoom, next),
        };
        self.zoom = next;
        self.pan_offset = pan;
        self.dirty = true;
    }

    fn reset_search(&mut self, active: bool)
        ensures
            search_reset(*old(self), *final(self), active),
            same_viewport(*old(self), *final(self)),
    {
        self.search_active = active;
        self.search_query = String::new();
        self.filtered_nodes = Vec::new();
        self.dirty = true;
    }

    fn commit_search(&mut self, Ghost(cfg): Ghost<Config>)
        ensures
            update_holds(
                *old(self),
                *final(self),
                cfg,
                cfg,
                GraphMessage::SearchCommit,
                Effect::Nothing,
            ),
    {
        let zoom = self.zoom_in_use();
        match first_match(&self.filtered_nodes) {
            Some(id) => {
                match node_index(&self.nodes, id) {
                    Some(i) => {
                        let p = self.nodes[i].position;
                        self.pan_offset = Vector {
                            x: center_pan(p.x, zoom, VIEW_CENTER_X),
                            y: center_pan(p.y, zoom, VIEW_CENTER_Y),
                        };
                        proof {
                            assert forall|k: int| is_first_with_id(old(self).nodes@, id, k) implies k == i by {
                                if k < i {
                                    assert(old(self).nodes@[k].id != id);
                                } else if k > i {
                                    assert(old(self).nodes@[i as int].id != id);
                                }
                            }
                        }
                    },
                    None => {},
                }
            },
            None => {},
        }
        let ghost mid = *self;
        self.reset_search(false);
    }

    /// Applies one message to the graph and says what is left for the
    /// caller to do: issue a connect or disconnect command, or write the
    /// settings out.
    pub fn update(&mut self, message: GraphMessage, config: &mut Config) -> (effect: Effect)
        ensures
            update_holds(*old(self), *final(self), *old(config), *final(config), message, effect),
    {
        match message {
            GraphMessage::NodeDragged { node_id, delta } => {
                self.drag_node(node_id, delta, Ghost(*config));
                Effect::Nothing
            },
            GraphMessage::NodeDragEnded { node_id } => self.end_drag(node_id, config),
            GraphMessage::ConnectionStarted { node_id, port_id } => Effect::Nothing,
            GraphMessage::ConnectionEnded { from_node, from_port, to_node, to_port } => self.end_connection(
                from_node,
                from_port,
                to_node,
                to_port,
                Ghost(*config),
            ),
            GraphMessage::ConnectionCancelled => {
                self.dirty = true;
                Effect::Nothing
            },
            GraphMessage::DisconnectLink { link_id, output_port, input_port } => {
                self.undo_stack.push(UndoAction::Disconnect { output_port, input_port });
                self.redo_stack = Vec::new();
                Effect::Disconnect { output_port, input_port }
            },
            GraphMessage::Pan(delta) => {
                self.pan_offset = Vector {
                    x: add_sat(self.pan_offset.x, delta.x),
                    y: add_sat(self.pan_offset.y, delta.y),
                };
                self.dirty = true;
                Effect::Nothing
            },
            GraphMessage::Zoom { delta, cursor } => {
                self.zoom_at(delta, cursor, Ghost(*config));
                Effect::Nothing
            },
            GraphMessage::AutoLayout => {
                let plan = self.perform_auto_layout();
                assert(layout_holds(*old(self), *self, plan@));
                Effect::Nothing
            },
            GraphMessage::Undo => self.undo(Ghost(*config)),
            GraphMessage::Redo => self.redo(Ghost(*config)),
            GraphMessage::ToggleHelp => {
                self.show_help = !self.show_help;
                self.dirty = true;
                Effect::Nothing
            },
            GraphMessage::SearchActivate => {
                self.reset_search(true);
                Effect::Nothing
            },
            GraphMessage::SearchInput { text } => {
                self.search_active = true;
                self.search_query.append(text.as_str());
                self.update_search_filter();
                self.dirty = true;
                Effect::Nothing
            },
            GraphMessage::SearchBackspace => {
                drop_last_char(&mut self.search_query);
                self.update_search_filter();
                self.dirty = true;
                Effect::Nothing
            },
            GraphMessage::SearchClear => {
                self.reset_search(false);
                Effect::Nothing
            },
            GraphMessage::SearchCommit => {
                self.commit_search(Ghost(*config));
                Effect::Nothing
            },
        }
    }
}

} // verus!
