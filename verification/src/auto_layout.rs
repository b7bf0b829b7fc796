//! Full automatic layout: isolated nodes in a column of their own, linked
//! nodes in columns that follow the direction of the links.

use vstd::prelude::*;
use crate::columns::{assign_columns, columns_follow_links, endpoint_indices, ColumnEntry};
use crate::geometry::node_height_of;
use crate::graph::{is_first_with_id, node_index, Graph, Link, Node};
use crate::rows::{all_bounded, layout_rows, rows_follow_passes, rows_settled, stacked_at, Placement};
use crate::units::{clamp_coord, saturate, Point, COORD_MAX};

verus! {

/// Horizontal distance between two columns.
pub const COL_WIDTH: i64 = 250_000;

/// x of the first column when no node is isolated.
pub const START_X: i64 = 50_000;

/// y of the topmost node of a column.
pub const START_Y: i64 = 50_000;

/// Vertical gap between two nodes of a column.
pub const ROW_GAP: i64 = 25_000;

/// x of the column of isolated nodes.
pub const ISOLATED_X: i64 = 50_000;

/// Extra room between the isolated column and the linked nodes.
pub const ISOLATED_GAP: i64 = 150_000;

/// Height taken for an id that links mention but no node carries.
pub const DEFAULT_HEIGHT: i64 = 80_000;

/// Group key of a node without outgoing link.
pub const NO_GROUP: u32 = 0xffff_ffff;

/// What the links make of a node.
#[derive(Debug, Clone, Copy, PartialEq, Eq, Structural)]
pub enum NodeRole {
    /// No link touches the node.
    Isolated,
    /// Links leave the node and none arrives.
    Source,
    /// Links arrive at the node and none leaves.
    Sink,
    /// Links arrive and leave.
    Processor,
}

/// Whether some link leaves node `id`.
pub open spec fn has_outgoing(links: Seq<Link>, id: u32) -> bool {
    exists|i: int| 0 <= i < links.len() && (#[trigger] links[i]).output_node == id
}

/// Whether some link arrives at node `id`.
pub open spec fn has_incoming(links: Seq<Link>, id: u32) -> bool {
    exists|i: int| 0 <= i < links.len() && (#[trigger] links[i]).input_node == id
}

/// Whether some link touches node `id`.
pub open spec fn is_connected(links: Seq<Link>, id: u32) -> bool {
    has_outgoing(links, id) || has_incoming(links, id)
}

/// The role of node `id`, decided by the links alone.
pub open spec fn role_of(links: Seq<Link>, id: u32) -> NodeRole {
    if has_incoming(links, id) {
        if has_outgoing(links, id) {
            NodeRole::Processor
        } else {
            NodeRole::Sink
        }
    } else if has_outgoing(links, id) {
        NodeRole::Source
    } else {
        NodeRole::Isolated
    }
}

/// Whether each id is smaller than the next.
#[verifier::opaque]
pub open spec fn strictly_ascending(ids: Seq<u32>) -> bool {
    forall|i: int, j: int| 0 <= i < j < ids.len() ==> ids[i] < ids[j]
}

/// Classifies a node by the direction of the links that touch it.
pub fn classify(links: &Vec<Link>, id: u32) -> (r: NodeRole)
    ensures
        r == role_of(links@, id),
{
    let mut incoming = false;
    let mut outgoing = false;
    let mut i: usize = 0;
    while i < links.len()
        invariant
            i <= links.len(),
            incoming == has_incoming(links@.take(i as int), id),
            outgoing == has_outgoing(links@.take(i as int), id),
        decreases links.len() - i,
    {
        let link = links[i];
        proof {
            let before = links@.take(i as int);
            let after = links@.take(i + 1);
            assert(after[i as int] == links@[i as int]);
            assert forall|j: int| 0 <= j < before.len() implies before[j] == after[j] by {}
            if has_incoming(before, id) {
                let w = choose|j: int| 0 <= j < before.len() && (#[trigger] before[j]).input_node == id;
                assert(after[w].input_node == id);
            }
            if has_outgoing(before, id) {
                let w = choose|j: int| 0 <= j < before.len() && (#[trigger] before[j]).output_node == id;
                assert(after[w].output_node == id);
            }
            if has_incoming(after, id) && link.input_node != id {
                let w = choose|j: int| 0 <= j < after.len() && (#[trigger] after[j]).input_node == id;
                assert(before[w].input_node == id);
            }
            if has_outgoing(after, id) && link.output_node != id {
                let w = choose|j: int| 0 <= j < after.len() && (#[trigger] after[j]).output_node == id;
                assert(before[w].output_node == id);
            }
        }
        if link.input_node == id {
            incoming = true;
        }
        if link.output_node == id {
            outgoing = true;
        }
        i += 1;
    }
    assert(links@.take(links.len() as int) =~= links@);
    if incoming {
        if outgoing {
            NodeRole::Processor
        } else {
            NodeRole::Sink
        }
    } else if outgoing {
        NodeRole::Source
    } else {
        NodeRole::Isolated
    }
}

/// Position of `id` in an ascending list, if it is there.
pub fn index_of(ids: &Vec<u32>, id: u32) -> (r: Option<usize>)
    ensures
        match r {
            Some(i) => i < ids.len() && ids@[i as int] == id,
            None => !ids@.contains(id),
        },
{
    let mut i: usize = 0;
    while i < ids.len()
        invariant
            i <= ids.len(),
            forall|j: int| 0 <= j < i ==> ids@[j] != id,
        decreases ids.len() - i,
    {
        if ids[i] == id {
            return Some(i);
        }
        i += 1;
    }
    None
}

/// Adds `id` to an ascending list unless it is there already.
fn insert_id(ids: &mut Vec<u32>, id: u32)
    requires
        strictly_ascending(old(ids)@),
    ensures
        strictly_ascending(final(ids)@),
        forall|x: u32| final(ids)@.contains(x) <==> (old(ids)@.contains(x) || x == id),
{
    proof {
        reveal(strictly_ascending);
    }
    let mut k: usize = 0;
    while k < ids.len() && ids[k] < id
        invariant
            k <= ids.len(),
            ids@ == old(ids)@,
            forall|j: int| 0 <= j < k ==> ids@[j] < id,
        decreases ids.len() - k,
    {
        k += 1;
    }
    if k < ids.len() && ids[k] == id {
        assert(ids@.contains(id));
        return ;
    }
    let ghost before = ids@;
    ids.insert(k, id);
    proof {
        let after = ids@;
        assert(after == before.insert(k as int, id));
        assert forall|i: int, j: int| 0 <= i < j < after.len() implies after[i] < after[j] by {
            if j < k {
            } else if j == k {
            } else {
                assert(after[j] == before[j - 1]);
                if i < k {
                    assert(after[i] == before[i]);
                    assert(before[i] < id);
                    if j - 1 > k {
                        assert(before[k as int] < before[j - 1]);
                    }
                } else if i == k {
                    if j - 1 > k {
                        assert(before[k as int] < before[j - 1]);
                    }
                } else {
                    assert(after[i] == before[i - 1]);
                }
            }
        }
        assert forall|x: u32| after.contains(x) <==> (before.contains(x) || x == id) by {
            if after.contains(x) {
                let w = choose|i: int| 0 <= i < after.len() && after[i] == x;
                if w < k {
                    assert(before[w] == x);
                } else if w > k {
                    assert(before[w - 1] == x);
                }
            }
            if before.contains(x) {
                let w = choose|i: int| 0 <= i < before.len() && before[i] == x;
                if w < k {
                    assert(after[w] == x);
                } else {
                    assert(after[w + 1] == x);
                }
            }
            if x == id {
                assert(after[k as int] == x);
            }
        }
    }
}

/// The ids that links mention, each once, in ascending order.
pub fn connected_ids(links: &Vec<Link>) -> (ids: Vec<u32>)
    ensures
        strictly_ascending(ids@),
        forall|x: u32| ids@.contains(x) <==> is_connected(links@, x),
{
    let mut ids: Vec<u32> = Vec::new();
    let mut i: usize = 0;
    proof {
        reveal(strictly_ascending);
    }
    while i < links.len()
        invariant
            i <= links.len(),
            strictly_ascending(ids@),
            forall|x: u32| ids@.contains(x) <==> is_connected(links@.take(i as int), x),
        decreases links.len() - i,
    {
        let link = links[i];
        let ghost seen = ids@;
        insert_id(&mut ids, link.output_node);
        insert_id(&mut ids, link.input_node);
        proof {
            let before = links@.take(i as int);
            let after = links@.take(i + 1);
            assert(after[i as int] == links@[i as int]);
            assert forall|j: int| 0 <= j < before.len() implies before[j] == after[j] by {}
            assert forall|x: u32| ids@.contains(x) <==> is_connected(after, x) by {
                if is_connected(before, x) {
                    if has_outgoing(before, x) {
                        let w = choose|j: int| 0 <= j < before.len() && (#[trigger] before[j]).output_node == x;
                        assert(after[w].output_node == x);
                    } else {
                        let w = choose|j: int| 0 <= j < before.len() && (#[trigger] before[j]).input_node == x;
                        assert(after[w].input_node == x);
                    }
                }
                if has_outgoing(after, x) && x != link.output_node {
                    let w = choose|j: int| 0 <= j < after.len() && (#[trigger] after[j]).output_node == x;
                    assert(before[w].output_node == x);
                }
                if has_incoming(after, x) && x != link.input_node {
                    let w = choose|j: int| 0 <= j < after.len() && (#[trigger] after[j]).input_node == x;
                    assert(before[w].input_node == x);
                }
            }
        }
        i += 1;
    }
    assert(links@.take(links.len() as int) =~= links@);
    ids
}

/// The column part of a layout table.
pub open spec fn entries_of(plan: Seq<Placement>) -> Seq<ColumnEntry> {
    Seq::new(
        plan.len(),
        |k: int| ColumnEntry { id: plan[k].id, role: plan[k].role, column: plan[k].column, reached: plan[k].reached },
    )
}

/// Whether the table gives every id the height of its node, and of a node
/// of default size where no node carries the id.
pub open spec fn heights_follow_nodes(nodes: Seq<Node>, plan: Seq<Placement>) -> bool {
    &&& forall|k: int, j: int|
        0 <= k < plan.len() && #[trigger] is_first_with_id(nodes, plan[k].id, j) ==> plan[k].height == node_height_of(
            nodes[j],
        )
    &&& forall|k: int|
        0 <= k < plan.len() && (forall|j: int| 0 <= j < nodes.len() ==> (#[trigger] nodes[j]).id != plan[k].id)
            ==> (#[trigger] plan[k]).height == DEFAULT_HEIGHT
}

/// The table before any node is placed: every node at the top.
pub open spec fn fresh_table(plan: Seq<Placement>) -> Seq<Placement> {
    Seq::new(
        plan.len(),
        |k: int|
            Placement { y: START_Y, first_y: START_Y, desired: START_Y, group: 0, placed: false, ..plan[k] },
    )
}

/// Whether the two lists name, for every link, the entries of its two ends.
pub open spec fn ends_match(links: Seq<Link>, plan: Seq<Placement>, src: Seq<usize>, dst: Seq<usize>) -> bool {
    &&& src.len() == links.len()
    &&& dst.len() == links.len()
    &&& forall|l: int|
        0 <= l < links.len() ==> (#[trigger] src[l]) < plan.len() && plan[src[l] as int].id == links[l].output_node
    &&& forall|l: int|
        0 <= l < links.len() ==> (#[trigger] dst[l]) < plan.len() && plan[dst[l] as int].id == links[l].input_node
}

/// Whether the places of the table are those that the passes over the
/// columns give, started from the table with every node at the top.
pub open spec fn rows_follow_links(links: Seq<Link>, plan: Seq<Placement>) -> bool {
    exists|src: Seq<usize>, dst: Seq<usize>| #[trigger]
        ends_match(links, plan, src, dst) && rows_follow_passes(fresh_table(plan), plan, src, dst, plan.len() as int + 1)
}

/// Builds the layout table from the column assignment and the node sizes.
fn build_table(nodes: &Vec<Node>, columns: &Vec<ColumnEntry>) -> (cells: Vec<Placement>)
    ensures
        cells.len() == columns.len(),
        entries_of(cells@) =~= columns@,
        all_bounded(cells@),
        heights_follow_nodes(nodes@, cells@),
        cells@ == fresh_table(cells@),
{
    let mut cells: Vec<Placement> = Vec::new();
    let mut k: usize = 0;
    while k < columns.len()
        invariant
            k <= columns.len(),
            cells.len() == k,
            all_bounded(cells@),
            heights_follow_nodes(nodes@, cells@),
            forall|j: int|
                0 <= j < k ==> (#[trigger] cells@[j]).id == columns@[j].id && cells@[j].role == columns@[j].role
                    && cells@[j].column == columns@[j].column && cells@[j].reached == columns@[j].reached,
            forall|j: int|
                0 <= j < k ==> (#[trigger] cells@[j]).y == START_Y && cells@[j].first_y == START_Y
                    && cells@[j].desired == START_Y && cells@[j].group == 0 && !cells@[j].placed,
        decreases columns.len() - k,
    {
        let e = columns[k];
        let found = node_index(nodes, e.id);
        let height: i64 = match found {
            Some(j) => {
                assert(is_first_with_id(nodes@, e.id, j as int));
                Graph::node_height(&nodes[j])
            },
            None => DEFAULT_HEIGHT,
        };
        let ghost before = cells@;
        cells.push(
            Placement {
                id: e.id,
                role: e.role,
                column: e.column,
                reached: e.reached,
                height,
                y: START_Y,
                first_y: START_Y,
                desired: START_Y,
                group: 0,
                placed: false,
            },
        );
        proof {
            assert forall|a: int, j: int|
                0 <= a < cells@.len() && #[trigger] is_first_with_id(nodes@, cells@[a].id, j) implies cells@[a].height
                == node_height_of(nodes@[j]) by {
                if a < k {
                    assert(cells@[a] == before[a]);
                    assert(is_first_with_id(nodes@, before[a].id, j));
                } else {
                    match found {
                        Some(w) => {
                            if (w as int) < j {
                                assert(nodes@[w as int].id != e.id);
                            } else if j < w as int {
                                assert(nodes@[j].id != e.id);
                            }
                        },
                        None => {},
                    }
                }
            }
            assert forall|a: int|
                0 <= a < cells@.len() && (forall|j: int| 0 <= j < nodes@.len() ==> (#[trigger] nodes@[j]).id != cells@[a].id) implies (#[trigger] cells@[a]).height
                == DEFAULT_HEIGHT by {
                if a < k {
                    assert(cells@[a] == before[a]);
                }
            }
        }
        k += 1;
    }
    assert(cells@ =~= fresh_table(cells@));
    cells
}

/// Height of the isolated nodes with a smaller id than `id`, each with the
/// row gap below it, over the first `upto` nodes.
pub open spec fn isolated_run(nodes: Seq<Node>, links: Seq<Link>, id: u32, upto: int) -> int
    decreases upto,
{
    if upto <= 0 {
        0
    } else {
        isolated_run(nodes, links, id, upto - 1) + if role_of(links, nodes[upto - 1].id) == NodeRole::Isolated
            && nodes[upto - 1].id < id {
            node_height_of(nodes[upto - 1]) + ROW_GAP
        } else {
            0
        }
    }
}

/// Whether some node is isolated.
pub open spec fn some_isolated(nodes: Seq<Node>, links: Seq<Link>) -> bool {
    exists|j: int| 0 <= j < nodes.len() && role_of(links, (#[trigger] nodes[j]).id) == NodeRole::Isolated
}

/// x of column 0 of the linked nodes: shifted right of the isolated column
/// where there is one.
pub open spec fn linked_start_x(nodes: Seq<Node>, links: Seq<Link>) -> int {
    if some_isolated(nodes, links) {
        START_X + COL_WIDTH + ISOLATED_GAP
    } else {
        START_X as int
    }
}

/// x of a column of linked nodes.
pub open spec fn column_x(start: int, column: int) -> int {
    clamp_coord(start + column * COL_WIDTH)
}

/// Where the layout puts a node: isolated nodes stacked by id in their own
/// column, linked nodes at the column and place of their table entry.
pub open spec fn laid_out(nodes: Seq<Node>, links: Seq<Link>, plan: Seq<Placement>, node: Node, p: Point) -> bool {
    if role_of(links, node.id) == NodeRole::Isolated {
        p.x == ISOLATED_X && p.y == stacked_at(isolated_run(nodes, links, node.id, nodes.len() as int))
    } else {
        forall|k: int|
            0 <= k < plan.len() && (#[trigger] plan[k]).id == node.id ==> p.x == column_x(
                linked_start_x(nodes, links),
                plan[k].column as int,
            ) && p.y == plan[k].y
    }
}

/// Which nodes no link touches.
fn isolated_flags(nodes: &Vec<Node>, links: &Vec<Link>) -> (flags: Vec<bool>)
    ensures
        flags.len() == nodes.len(),
        forall|j: int| 0 <= j < nodes.len() ==> (#[trigger] flags@[j]) == (role_of(links@, nodes@[j].id) == NodeRole::Isolated),
{
    let mut flags: Vec<bool> = Vec::new();
    let mut j: usize = 0;
    while j < nodes.len()
        invariant
            j <= nodes.len(),
            flags.len() == j,
            forall|m: int| 0 <= m < j ==> (#[trigger] flags@[m]) == (role_of(links@, nodes@[m].id) == NodeRole::Isolated),
        decreases nodes.len() - j,
    {
        flags.push(matches!(classify(links, nodes[j].id), NodeRole::Isolated));
        j += 1;
    }
    flags
}

/// The place of an isolated node in its column.
fn isolated_y(nodes: &Vec<Node>, links: &Vec<Link>, flags: &Vec<bool>, id: u32) -> (y: i64)
    requires
        flags.len() == nodes.len(),
        forall|j: int| 0 <= j < nodes.len() ==> (#[trigger] flags@[j]) == (role_of(links@, nodes@[j].id) == NodeRole::Isolated),
    ensures
        y == stacked_at(isolated_run(nodes@, links@, id, nodes.len() as int)),
        START_Y <= y <= COORD_MAX,
{
    let mut y: i64 = START_Y;
    let mut j: usize = 0;
    while j < nodes.len()
        invariant
            j <= nodes.len(),
            flags.len() == nodes.len(),
            forall|m: int| 0 <= m < nodes.len() ==> (#[trigger] flags@[m]) == (role_of(links@, nodes@[m].id) == NodeRole::Isolated),
            0 <= isolated_run(nodes@, links@, id, j as int),
            y == stacked_at(isolated_run(nodes@, links@, id, j as int)),
        decreases nodes.len() - j,
    {
        if flags[j] && nodes[j].id < id {
            let next: i64 = y + Graph::node_height(&nodes[j]) + ROW_GAP;
            y = if next > COORD_MAX {
                COORD_MAX
            } else {
                next
            };
        }
        j += 1;
    }
    y
}

/// What a full layout leaves of a node: everything but its position, and
/// no claim to a position that was saved.
pub open spec fn relaid(before: Node, after: Node) -> bool {
    after == (Node { position: after.position, has_saved_position: false, ..before })
}

/// The ids of a layout table, in table order.
pub open spec fn plan_ids(plan: Seq<Placement>) -> Seq<u32> {
    entries_of(plan).map_values(|e: ColumnEntry| e.id)
}

/// What the table of the linked nodes promises: one entry for each id that
/// a link mentions, by ascending id; columns that follow the links; the
/// heights of the nodes; and rows in which no two nodes collide.
pub open spec fn plan_holds(nodes: Seq<Node>, links: Seq<Link>, plan: Seq<Placement>) -> bool {
    &&& strictly_ascending(plan_ids(plan))
    &&& forall|x: u32| is_connected(links, x) <==> exists|k: int| 0 <= k < plan.len() && (#[trigger] plan[k]).id == x
    &&& columns_follow_links(links, entries_of(plan))
    &&& heights_follow_nodes(nodes, plan)
    &&& rows_follow_links(links, plan)
    &&& rows_settled(plan)
}

/// What a full layout makes of a graph, with `plan` as the table of the
/// linked nodes.
pub open spec fn layout_holds(before: Graph, after: Graph, plan: Seq<Placement>) -> bool {
    &&& after.links == before.links
    &&& after.pan_offset == before.pan_offset
    &&& after.zoom == before.zoom
    &&& after.dirty
    &&& after.undo_stack == before.undo_stack
    &&& after.redo_stack == before.redo_stack
    &&& after.show_help == before.show_help
    &&& after.search_query == before.search_query
    &&& after.search_active == before.search_active
    &&& after.filtered_nodes == before.filtered_nodes
    &&& after.current_preset == before.current_preset
    &&& after.preset_path == before.preset_path
    &&& after.exclusive_mode == before.exclusive_mode
    &&& after.renaming_node == before.renaming_node
    &&& after.rename_text == before.rename_text
    &&& after.pinned_connections == before.pinned_connections
    &&& after.nodes.len() == before.nodes.len()
    &&& forall|i: int| 0 <= i < before.nodes.len() ==> relaid(before.nodes@[i], #[trigger] after.nodes@[i])
    &&& forall|i: int|
        0 <= i < before.nodes.len() ==> laid_out(
            before.nodes@,
            before.links@,
            plan,
            before.nodes@[i],
            (#[trigger] after.nodes@[i]).position,
        )
    &&& plan_holds(before.nodes@, before.links@, plan)
}

/// The passes that led from the start table to the final one are passes
/// from the fresh copy of the final table.
proof fn lemma_rows_follow_links(
    links: Seq<Link>,
    start: Seq<Placement>,
    cells: Seq<Placement>,
    src: Seq<usize>,
    dst: Seq<usize>,
)
    requires
        crate::rows::same_shape(start, cells),
        start == fresh_table(start),
        ends_match(links, start, src, dst),
        rows_follow_passes(start, cells, src, dst, start.len() as int + 1),
    ensures
        rows_follow_links(links, cells),
{
    assert(fresh_table(cells) =~= start) by {
        assert forall|k: int| 0 <= k < start.len() implies fresh_table(cells)[k] == start[k] by {
            assert(crate::rows::same_node(start[k], cells[k]));
            assert(start[k] == fresh_table(start)[k]);
        }
    }
    assert(ends_match(links, cells, src, dst)) by {
        assert forall|l: int| 0 <= l < links.len() implies (#[trigger] src[l]) < cells.len() && cells[src[l] as int].id
            == links[l].output_node by {
            assert(crate::rows::same_node(start[src[l] as int], cells[src[l] as int]));
        }
        assert forall|l: int| 0 <= l < links.len() implies (#[trigger] dst[l]) < cells.len() && cells[dst[l] as int].id
            == links[l].input_node by {
            assert(crate::rows::same_node(start[dst[l] as int], cells[dst[l] as int]));
        }
    }
}

/// The table that the row layout made of the start table keeps what the
/// columns and the start table promised.
proof fn lemma_table_keeps_plan(
    nodes: Seq<Node>,
    links: Seq<Link>,
    ids: Seq<u32>,
    columns: Seq<ColumnEntry>,
    start: Seq<Placement>,
    cells: Seq<Placement>,
)
    requires
        strictly_ascending(ids),
        forall|x: u32| ids.contains(x) <==> is_connected(links, x),
        columns.len() == ids.len(),
        forall|i: int| 0 <= i < ids.len() ==> (#[trigger] columns[i]).id == ids[i],
        columns_follow_links(links, columns),
        entries_of(start) =~= columns,
        heights_follow_nodes(nodes, start),
        crate::rows::same_shape(start, cells),
        rows_settled(cells),
        rows_follow_links(links, cells),
    ensures
        plan_holds(nodes, links, cells),
{
    assert(entries_of(cells) =~= columns) by {
        assert forall|k: int| 0 <= k < cells.len() implies entries_of(cells)[k] == columns[k] by {
            assert(crate::rows::same_node(start[k], cells[k]));
            assert(entries_of(start)[k] == columns[k]);
        }
    }
    assert(plan_ids(cells) =~= ids) by {
        assert forall|k: int| 0 <= k < cells.len() implies plan_ids(cells)[k] == ids[k] by {
            assert(entries_of(cells)[k] == columns[k]);
        }
    }
    assert forall|x: u32| is_connected(links, x) <==> exists|k: int| 0 <= k < cells.len() && (#[trigger] cells[k]).id == x by {
        if is_connected(links, x) {
            assert(ids.contains(x));
            let w = choose|w: int| 0 <= w < ids.len() && ids[w] == x;
            assert(entries_of(cells)[w] == columns[w]);
            assert(cells[w].id == x);
        }
        if exists|k: int| 0 <= k < cells.len() && (#[trigger] cells[k]).id == x {
            let w = choose|k: int| 0 <= k < cells.len() && (#[trigger] cells[k]).id == x;
            assert(entries_of(cells)[w] == columns[w]);
            assert(ids[w] == x);
            assert(ids.contains(x));
        }
    }
    assert(heights_follow_nodes(nodes, cells)) by {
        assert forall|k: int, j: int|
            0 <= k < cells.len() && #[trigger] is_first_with_id(nodes, cells[k].id, j) implies cells[k].height
            == node_height_of(nodes[j]) by {
            assert(crate::rows::same_node(start[k], cells[k]));
            assert(is_first_with_id(nodes, start[k].id, j));
        }
        assert forall|k: int|
            0 <= k < cells.len() && (forall|j: int| 0 <= j < nodes.len() ==> (#[trigger] nodes[j]).id != cells[k].id) implies (#[trigger] cells[k]).height
            == DEFAULT_HEIGHT by {
            assert(crate::rows::same_node(start[k], cells[k]));
            assert(start[k].height == DEFAULT_HEIGHT);
        }
    }
}

/// Computes the table of the linked nodes: their columns and their places.
pub fn plan_linked(nodes: &Vec<Node>, links: &Vec<Link>) -> (cells: Vec<Placement>)
    ensures
        plan_holds(nodes@, links@, cells@),
{
    let ids = connected_ids(links);
    let columns = assign_columns(links, &ids);
    let ends = endpoint_indices(links, &ids);
    let mut cells = build_table(nodes, &columns);
    let ghost start_cells = cells@;
    let last: u64 = ids.len() as u64 + 1;
    proof {
        assert forall|i: int| 0 <= i < cells.len() implies (#[trigger] cells@[i]).column <= last by {
            assert(entries_of(cells@)[i] == columns@[i]);
        }
    }
    proof {
        assert forall|l: int| 0 <= l < links.len() implies (#[trigger] ends.0@[l]) < cells.len() && cells@[ends.0@[l] as int].id
            == links@[l].output_node by {
            assert(entries_of(cells@)[ends.0@[l] as int] == columns@[ends.0@[l] as int]);
        }
        assert forall|l: int| 0 <= l < links.len() implies (#[trigger] ends.1@[l]) < cells.len() && cells@[ends.1@[l] as int].id
            == links@[l].input_node by {
            assert(entries_of(cells@)[ends.1@[l] as int] == columns@[ends.1@[l] as int]);
        }
        assert(ends_match(links@, cells@, ends.0@, ends.1@));
    }
    layout_rows(&mut cells, &ends.0, &ends.1, last);
    proof {
        lemma_rows_follow_links(links@, start_cells, cells@, ends.0@, ends.1@);
        lemma_table_keeps_plan(nodes@, links@, ids@, columns@, start_cells, cells@);
    }
    cells
}

/// Place of the entry of `id` in a layout table.
fn plan_index(cells: &Vec<Placement>, id: u32) -> (r: Option<usize>)
    ensures
        match r {
            Some(k) => k < cells.len() && cells@[k as int].id == id,
            None => forall|k: int| 0 <= k < cells.len() ==> (#[trigger] cells@[k]).id != id,
        },
{
    let mut k: usize = 0;
    while k < cells.len()
        invariant
            k <= cells.len(),
            forall|j: int| 0 <= j < k ==> (#[trigger] cells@[j]).id != id,
        decreases cells.len() - k,
    {
        if cells[k].id == id {
            return Some(k);
        }
        k += 1;
    }
    None
}

/// Two entries of a table with ascending ids that carry one id are one.
proof fn lemma_one_entry(plan: Seq<Placement>, a: int, b: int)
    requires
        strictly_ascending(plan_ids(plan)),
        0 <= a < plan.len(),
        0 <= b < plan.len(),
        plan[a].id == plan[b].id,
    ensures
        a == b,
{
    reveal(strictly_ascending);
    let ids = plan_ids(plan);
    assert(ids[a] == plan[a].id);
    assert(ids[b] == plan[b].id);
    if a < b {
        assert(ids[a] < ids[b]);
    } else if b < a {
        assert(ids[b] < ids[a]);
    }
}

/// Tells whether some node is isolated, and so where column 0 begins.
fn linked_start(flags: &Vec<bool>, Ghost(nodes): Ghost<Seq<Node>>, Ghost(links): Ghost<Seq<Link>>) -> (x: i64)
    requires
        flags.len() == nodes.len(),
        forall|m: int| 0 <= m < nodes.len() ==> (#[trigger] flags@[m]) == (role_of(links, nodes[m].id) == NodeRole::Isolated),
    ensures
        x == linked_start_x(nodes, links),
{
    let mut any_isolated = false;
    let mut j: usize = 0;
    while j < flags.len()
        invariant
            j <= flags.len(),
            any_isolated == exists|m: int| 0 <= m < j && #[trigger] flags@[m],
        decreases flags.len() - j,
    {
        if flags[j] {
            any_isolated = true;
        }
        j += 1;
    }
    proof {
        if any_isolated {
            let m = choose|m: int| 0 <= m < flags.len() && #[trigger] flags@[m];
            assert(role_of(links, nodes[m].id) == NodeRole::Isolated);
        }
        if some_isolated(nodes, links) {
            let m = choose|m: int| 0 <= m < nodes.len() && role_of(links, (#[trigger] nodes[m]).id) == NodeRole::Isolated;
            assert(flags@[m]);
        }
    }
    if any_isolated {
        START_X + COL_WIDTH + ISOLATED_GAP
    } else {
        START_X
    }
}

/// Decides where each node goes.
fn target_positions(nodes: &Vec<Node>, links: &Vec<Link>, cells: &Vec<Placement>) -> (targets: Vec<Point>)
    requires
        strictly_ascending(plan_ids(cells@)),
        forall|x: u32| is_connected(links@, x) <==> exists|k: int| 0 <= k < cells.len() && (#[trigger] cells@[k]).id == x,
    ensures
        targets.len() == nodes.len(),
        forall|m: int| 0 <= m < nodes.len() ==> laid_out(nodes@, links@, cells@, nodes@[m], #[trigger] targets@[m]),
{
    let flags = isolated_flags(nodes, links);
    let start_x = linked_start(&flags, Ghost(nodes@), Ghost(links@));
    let mut targets: Vec<Point> = Vec::new();
    let mut i: usize = 0;
    while i < nodes.len()
        invariant
            i <= nodes.len(),
            targets.len() == i,
            flags.len() == nodes.len(),
            forall|m: int| 0 <= m < nodes.len() ==> (#[trigger] flags@[m]) == (role_of(links@, nodes@[m].id) == NodeRole::Isolated),
            start_x == linked_start_x(nodes@, links@),
            strictly_ascending(plan_ids(cells@)),
            forall|m: int| 0 <= m < i ==> laid_out(nodes@, links@, cells@, nodes@[m], #[trigger] targets@[m]),
        decreases nodes.len() - i,
    {
        let id: u32 = nodes[i].id;
        let target = if flags[i] {
            Point { x: ISOLATED_X, y: isolated_y(nodes, links, &flags, id) }
        } else {
            match plan_index(cells, id) {
                Some(k) => {
                    proof {
                        assert forall|m: int| 0 <= m < cells.len() && (#[trigger] cells@[m]).id == id implies m == k by {
                            lemma_one_entry(cells@, m, k as int);
                        }
                    }
                    let column: i128 = cells[k].column as i128;
                    assert(0 <= column * 250_000 <= 0xffff_ffff_ffff_ffff * 250_000) by (nonlinear_arith)
                        requires
                            0 <= column <= 0xffff_ffff_ffff_ffff,
                    ;
                    Point { x: saturate(start_x as i128 + column * (COL_WIDTH as i128)), y: cells[k].y }
                },
                None => nodes[i].position,
            }
        };
        targets.push(target);
        i += 1;
    }
    targets
}

impl Graph {
    /// Lays out the whole graph afresh and returns the table of the linked
    /// nodes.
    ///
    /// Saved positions are given up. Isolated nodes are stacked by id in a
    /// column of their own at the left. Linked nodes stand in columns that
    /// follow the links from left to right, and in each column near the
    /// nodes they are linked to, no two closer than the row gap.
    pub fn perform_auto_layout(&mut self) -> (plan: Vec<Placement>)
        ensures
            layout_holds(*old(self), *final(self), plan@),
    {
        let cells = plan_linked(&self.nodes, &self.links);
        let targets = target_positions(&self.nodes, &self.links, &cells);
        let mut n: usize = 0;
        while n < self.nodes.len()
            invariant
                n <= self.nodes.len(),
                self.nodes.len() == old(self).nodes.len(),
                targets.len() == self.nodes.len(),
                self.links == old(self).links,
                self.pan_offset == old(self).pan_offset,
                self.zoom == old(self).zoom,
                self.undo_stack == old(self).undo_stack,
                self.redo_stack == old(self).redo_stack,
                self.show_help == old(self).show_help,
                self.search_query == old(self).search_query,
                self.search_active == old(self).search_active,
                self.filtered_nodes == old(self).filtered_nodes,
                self.current_preset == old(self).current_preset,
                self.preset_path == old(self).preset_path,
                self.exclusive_mode == old(self).exclusive_mode,
                self.renaming_node == old(self).renaming_node,
                self.rename_text == old(self).rename_text,
                self.pinned_connections == old(self).pinned_connections,
                forall|m: int| n <= m < self.nodes.len() ==> (#[trigger] self.nodes@[m]) == old(self).nodes@[m],
                forall|m: int|
                    0 <= m < n ==> relaid(old(self).nodes@[m], #[trigger] self.nodes@[m]) && self.nodes@[m].position
                        == targets@[m],
            decreases self.nodes.len() - n,
        {
            let target = targets[n];
            self.nodes[n].position = target;
            self.nodes[n].has_saved_position = false;
            n += 1;
        }
        self.dirty = true;
        cells
    }
}

} // verus!
