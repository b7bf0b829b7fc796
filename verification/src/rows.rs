//! Vertical placement of the linked nodes, column by column.
//!
//! Each node asks for a `y` near the nodes it is linked to; the slot search
//! of its column answers with a free place. Sources are placed three times,
//! the other columns twice, each pass with the better knowledge of the
//! pass before.

use vstd::prelude::*;
use crate::auto_layout::{NodeRole, NO_GROUP, ROW_GAP, START_Y};
use crate::graph::Graph;
use crate::slots::{free_y, hits_any, overlaps, slots_in_range};
use crate::units::{in_range, COORD_MAX};

verus! {

/// One linked node in the layout table.
#[derive(Debug, Clone, Copy, PartialEq, Eq, Structural)]
pub struct Placement {
    pub id: u32,
    pub role: NodeRole,
    pub column: u64,
    /// Whether the column relaxation reached the node from a source.
    pub reached: bool,
    pub height: i64,
    /// The place the node has in its column.
    pub y: i64,
    /// The place the node had after the first pass.
    pub first_y: i64,
    /// The place the node asked for in the pass that placed it last.
    pub desired: i64,
    /// The node's cluster in the pass that placed it last.
    pub group: u32,
    /// Whether the running pass has placed the node.
    pub placed: bool,
}

/// Whether the numbers of a table entry lie where the passes keep them.
pub open spec fn cell_bounds(c: Placement) -> bool {
    &&& 0 <= c.height <= COORD_MAX
    &&& START_Y <= c.y <= COORD_MAX
    &&& START_Y <= c.first_y <= COORD_MAX
    &&& START_Y <= c.desired <= COORD_MAX
}

pub open spec fn all_bounded(cells: Seq<Placement>) -> bool {
    forall|i: int| 0 <= i < cells.len() ==> cell_bounds(#[trigger] cells[i])
}

/// Whether two entries describe the same node in the same column.
pub open spec fn same_node(a: Placement, b: Placement) -> bool {
    &&& a.id == b.id
    &&& a.role == b.role
    &&& a.column == b.column
    &&& a.reached == b.reached
    &&& a.height == b.height
}

/// Whether two tables hold the same nodes in the same columns.
pub open spec fn same_shape(a: Seq<Placement>, b: Seq<Placement>) -> bool {
    a.len() == b.len() && forall|i: int| 0 <= i < a.len() ==> same_node(#[trigger] a[i], b[i])
}

/// Whether two nodes keep the row gap, or one of them sits at the end of the
/// coordinate range, where placement saturates.
pub open spec fn apart(a: Placement, b: Placement) -> bool {
    a.y == COORD_MAX || b.y == COORD_MAX || !overlaps(
        a.y as int,
        a.height as int,
        b.y as int,
        b.height as int,
        ROW_GAP as int,
    )
}

/// Whether all nodes of column `col` keep the row gap to each other.
pub open spec fn column_clear(cells: Seq<Placement>, col: u64) -> bool {
    forall|i: int, j: int|
        0 <= i < cells.len() && 0 <= j < cells.len() && i != j && cells[i].column == col && cells[j].column
            == col ==> #[trigger] apart(cells[i], cells[j])
}

/// Whether entry `a` comes before entry `b` in its column: by cluster, then
/// by the place asked for, then by id.
pub open spec fn comes_first(a: Placement, b: Placement) -> bool {
    a.group < b.group || (a.group == b.group && (a.desired < b.desired || (a.desired == b.desired && a.id
        <= b.id)))
}

/// Whether `order` lists entries of column `col` in placement order.
pub open spec fn ordered_column(cells: Seq<Placement>, order: Seq<usize>, col: u64) -> bool {
    &&& forall|a: int| 0 <= a < order.len() ==> (#[trigger] order[a]) < cells.len() && cells[order[a] as int].column == col
    &&& forall|a: int, b: int|
        0 <= a < b < order.len() ==> comes_first(cells[#[trigger] order[a] as int], cells[#[trigger] order[b] as int])
}

/// Whether no entry is listed twice.
pub open spec fn distinct(order: Seq<usize>) -> bool {
    forall|a: int, b: int| 0 <= a < b < order.len() ==> order[a] != order[b]
}

/// Whether `order` lists the entries of column `col`, each once, in the
/// order in which they are placed.
pub open spec fn column_order(cells: Seq<Placement>, order: Seq<usize>, col: u64) -> bool {
    &&& ordered_column(cells, order, col)
    &&& distinct(order)
    &&& forall|i: int| 0 <= i < cells.len() && cells[i].column == col ==> order.contains(i as usize)
}

/// The slots that the first `t` listed entries take.
pub open spec fn slots_before(cells: Seq<Placement>, order: Seq<usize>, t: int) -> Seq<(i64, i64)> {
    Seq::new(t as nat, |a: int| (cells[order[a] as int].y, cells[order[a] as int].height))
}

/// A place held at the end of the coordinate range.
pub open spec fn top_clamped(y: int) -> int {
    if y > COORD_MAX {
        COORD_MAX as int
    } else {
        y
    }
}

/// Whether each listed entry stands where the slot search puts it, given
/// the slots of the entries listed before it.
pub open spec fn placed_in_order(cells: Seq<Placement>, order: Seq<usize>) -> bool {
    forall|t: int|
        0 <= t < order.len() ==> (#[trigger] cells[order[t] as int]).y == top_clamped(
            free_y(
                cells[order[t] as int].desired as int,
                cells[order[t] as int].height as int,
                slots_before(cells, order, t),
                ROW_GAP as int,
                START_Y as int,
            ),
        )
}

/// Whether table `b` is table `a` with column `col` placed afresh: its
/// entries placed one after the other in the order of the column, each at
/// the free place nearest to the one it asked for; all else as it was.
pub open spec fn column_placed(a: Seq<Placement>, b: Seq<Placement>, col: u64) -> bool {
    &&& a.len() == b.len()
    &&& forall|i: int| 0 <= i < a.len() && a[i].column != col ==> (#[trigger] b[i]) == a[i]
    &&& forall|i: int|
        0 <= i < a.len() && a[i].column == col ==> (#[trigger] b[i]) == (Placement { y: b[i].y, placed: true, ..a[i] })
    &&& exists|order: Seq<usize>| #[trigger] column_order(a, order, col) && placed_in_order(b, order)
}

fn before(a: &Placement, b: &Placement) -> (r: bool)
    ensures
        r == comes_first(*a, *b),
{
    a.group < b.group || (a.group == b.group && (a.desired < b.desired || (a.desired == b.desired && a.id
        <= b.id)))
}

/// Lists the entries of column `col` in the order in which they are placed.
pub fn order_column(cells: &Vec<Placement>, col: u64) -> (order: Vec<usize>)
    ensures
        column_order(cells@, order@, col),
{
    let mut order: Vec<usize> = Vec::new();
    let mut i: usize = 0;
    while i < cells.len()
        invariant
            i <= cells.len(),
            ordered_column(cells@, order@, col),
            distinct(order@),
            forall|a: int| 0 <= a < order.len() ==> (#[trigger] order@[a]) < i,
            forall|j: int| 0 <= j < i && cells@[j].column == col ==> order@.contains(j as usize),
        decreases cells.len() - i,
    {
        if cells[i].column == col {
            let mut k: usize = 0;
            while k < order.len() && before(&cells[order[k]], &cells[i])
                invariant
                    k <= order.len(),
                    i < cells.len(),
                    ordered_column(cells@, order@, col),
                    forall|a: int| 0 <= a < k ==> comes_first(cells@[#[trigger] order@[a] as int], cells@[i as int]),
                decreases order.len() - k,
            {
                k += 1;
            }
            let ghost old_order = order@;
            order.insert(k, i);
            proof {
                let new_order = order@;
                assert(new_order == old_order.insert(k as int, i));
                assert forall|a: int| 0 <= a < new_order.len() implies (#[trigger] new_order[a]) < cells.len()
                    && cells@[new_order[a] as int].column == col by {
                    if a < k {
                        assert(new_order[a] == old_order[a]);
                    } else if a > k {
                        assert(new_order[a] == old_order[a - 1]);
                    }
                }
                assert forall|a: int, b: int| 0 <= a < b < new_order.len() implies comes_first(
                    cells@[#[trigger] new_order[a] as int],
                    cells@[#[trigger] new_order[b] as int],
                ) by {
                    if b < k {
                        assert(new_order[a] == old_order[a] && new_order[b] == old_order[b]);
                    } else if b == k {
                        assert(new_order[a] == old_order[a]);
                    } else {
                        assert(new_order[b] == old_order[b - 1]);
                        if a < k {
                            assert(new_order[a] == old_order[a]);
                        } else if a == k {
                            // the entry at k did not come before the new one
                            assert(!comes_first(cells@[old_order[k as int] as int], cells@[i as int]));
                            if b - 1 > k {
                                assert(comes_first(
                                    cells@[old_order[k as int] as int],
                                    cells@[old_order[b - 1] as int],
                                ));
                            }
                        } else {
                            assert(new_order[a] == old_order[a - 1]);
                        }
                    }
                }
                assert forall|a: int| 0 <= a < new_order.len() implies (#[trigger] new_order[a]) < i + 1 by {
                    if a < k {
                        assert(new_order[a] == old_order[a]);
                    } else if a > k {
                        assert(new_order[a] == old_order[a - 1]);
                    }
                }
                assert forall|a: int, b: int| 0 <= a < b < new_order.len() implies new_order[a] != new_order[b] by {
                    let a0 = if a < k { a } else { a - 1 };
                    let b0 = if b < k { b } else { b - 1 };
                    if a != k {
                        assert(new_order[a] == old_order[a0]);
                    }
                    if b != k {
                        assert(new_order[b] == old_order[b0]);
                    }
                }
                assert forall|j: int| 0 <= j < i + 1 && cells@[j].column == col implies new_order.contains(
                    j as usize,
                ) by {
                    if j < i {
                        let w = choose|w: int| 0 <= w < old_order.len() && old_order[w] == j as usize;
                        if w < k {
                            assert(new_order[w] == j as usize);
                        } else {
                            assert(new_order[w + 1] == j as usize);
                        }
                    } else {
                        assert(new_order[k as int] == i);
                    }
                }
            }
        }
        i += 1;
    }
    order
}

/// Whether every listed entry is an entry of column `col`.
pub open spec fn lists_column(cells: Seq<Placement>, order: Seq<usize>, col: u64) -> bool {
    forall|a: int| 0 <= a < order.len() ==> (#[trigger] order[a]) < cells.len() && cells[order[a] as int].column == col
}

/// The state of a column while its first `t` listed entries are placed.
pub open spec fn placing(
    start: Seq<Placement>,
    cells: Seq<Placement>,
    order: Seq<usize>,
    slots: Seq<(i64, i64)>,
    t: int,
) -> bool {
    &&& 0 <= t <= order.len()
    &&& start.len() == cells.len()
    &&& all_bounded(cells)
    &&& slots_in_range(slots)
    &&& slots == slots_before(cells, order, t)
    &&& forall|i: int|
        0 <= i < cells.len() ==> (#[trigger] cells[i]) == (Placement { y: cells[i].y, placed: cells[i].placed, ..start[i] })
    &&& forall|i: int| 0 <= i < cells.len() && !order.contains(i as usize) ==> (#[trigger] cells[i]) == start[i]
    &&& forall|a: int| t <= a < order.len() ==> cells[#[trigger] order[a] as int] == start[order[a] as int]
    &&& forall|a: int| 0 <= a < t ==> cells[#[trigger] order[a] as int].placed
    &&& forall|a: int|
        0 <= a < t ==> (#[trigger] cells[order[a] as int]).y == top_clamped(
            free_y(
                cells[order[a] as int].desired as int,
                cells[order[a] as int].height as int,
                slots_before(cells, order, a),
                ROW_GAP as int,
                START_Y as int,
            ),
        )
    &&& forall|a: int, b: int|
        0 <= a < t && 0 <= b < t && a != b ==> #[trigger] apart(cells[order[a] as int], cells[order[b] as int])
}

/// Placing one entry changes no slot of the entries listed before it.
proof fn lemma_slots_stay(before: Seq<Placement>, after: Seq<Placement>, order: Seq<usize>, t: int, a: int)
    requires
        distinct(order),
        0 <= a <= t < order.len(),
        before.len() == after.len(),
        forall|i: int| 0 <= i < before.len() && i != order[t] ==> after[i] == before[i],
        forall|k: int| 0 <= k < order.len() ==> (#[trigger] order[k]) < before.len(),
    ensures
        slots_before(after, order, a) == slots_before(before, order, a),
{
    assert forall|b: int| 0 <= b < a implies slots_before(after, order, a)[b] == slots_before(before, order, a)[b] by {
        assert(order[b] != order[t]);
        assert(after[order[b] as int] == before[order[b] as int]);
    }
    assert(slots_before(after, order, a) =~= slots_before(before, order, a));
}

/// The step of the placement: with entry `order[t]` placed at `y`, where
/// the slot search sent it, the column is in the state for `t + 1`.
proof fn lemma_place_step(
    start: Seq<Placement>,
    before: Seq<Placement>,
    after: Seq<Placement>,
    order: Seq<usize>,
    slots: Seq<(i64, i64)>,
    t: int,
    y: i64,
)
    requires
        placing(start, before, order, slots, t),
        distinct(order),
        t < order.len(),
        forall|k: int| 0 <= k < order.len() ==> (#[trigger] order[k]) < before.len(),
        after == before.update(
            order[t] as int,
            Placement { y, placed: true, ..before[order[t] as int] },
        ),
        y == top_clamped(
            free_y(
                before[order[t] as int].desired as int,
                before[order[t] as int].height as int,
                slots,
                ROW_GAP as int,
                START_Y as int,
            ),
        ),
        START_Y <= y <= COORD_MAX,
        y != COORD_MAX ==> !hits_any(y as int, before[order[t] as int].height as int, slots, ROW_GAP as int),
    ensures
        placing(start, after, order, slots.push((y, before[order[t] as int].height)), t + 1),
{
    let i = order[t] as int;
    let height = before[i].height;
    let next = slots.push((y, height));
    assert(cell_bounds(before[i]));
    assert forall|k: int| 0 <= k < after.len() implies cell_bounds(#[trigger] after[k]) by {
        if k != i {
            assert(after[k] == before[k]);
            assert(cell_bounds(before[k]));
        }
    }
    assert forall|a: int| 0 <= a <= t implies #[trigger] slots_before(after, order, a) == slots_before(before, order, a) by {
        lemma_slots_stay(before, after, order, t, a);
    }
    assert(next =~= slots_before(after, order, t + 1)) by {
        assert forall|b: int| 0 <= b < t + 1 implies next[b] == slots_before(after, order, t + 1)[b] by {
            if b < t {
                assert(order[b] != order[t]);
                assert(after[order[b] as int] == before[order[b] as int]);
                assert(slots_before(before, order, t)[b] == (before[order[b] as int].y, before[order[b] as int].height));
            }
        }
    }
    assert forall|k: int| 0 <= k < next.len() implies in_range(#[trigger] next[k].0 as int) && in_range(
        next[k].1 as int,
    ) by {
        if k < slots.len() {
            assert(next[k] == slots[k]);
        }
    }
    assert forall|a: int| t + 1 <= a < order.len() implies after[#[trigger] order[a] as int] == start[order[a] as int] by {
        assert(order[t] != order[a]);
    }
    assert forall|a: int| 0 <= a < t + 1 implies after[#[trigger] order[a] as int].placed by {
        if a < t {
            assert(order[a] != order[t]);
        }
    }
    assert forall|k: int| 0 <= k < after.len() && !order.contains(k as usize) implies (#[trigger] after[k]) == start[k] by {
        assert(order[t] == i as usize);
        assert(k != i);
    }
    assert forall|a: int| 0 <= a < t + 1 implies (#[trigger] after[order[a] as int]).y == top_clamped(
        free_y(
            after[order[a] as int].desired as int,
            after[order[a] as int].height as int,
            slots_before(after, order, a),
            ROW_GAP as int,
            START_Y as int,
        ),
    ) by {
        assert(slots_before(after, order, a) == slots_before(before, order, a));
        if a < t {
            assert(order[a] != order[t]);
            assert(after[order[a] as int] == before[order[a] as int]);
        }
    }
    assert forall|a: int, b: int| 0 <= a < t + 1 && 0 <= b < t + 1 && a != b implies #[trigger] apart(
        after[order[a] as int],
        after[order[b] as int],
    ) by {
        if a < t && b < t {
            assert(order[a] != order[t]);
            assert(order[b] != order[t]);
            assert(apart(before[order[a] as int], before[order[b] as int]));
        } else {
            let other = if a == t {
                b
            } else {
                a
            };
            assert(order[other] != order[t]);
            let co = order[other] as int;
            assert(after[co] == before[co]);
            assert(slots[other] == (before[co].y, before[co].height));
            if y != COORD_MAX {
                assert(!overlaps(y as int, height as int, slots[other].0 as int, slots[other].1 as int, ROW_GAP as int));
            }
        }
    }
}

/// Places the listed entries one after the other, each at the free place
/// nearest to the one it asked for.
fn place_in_order(cells: &mut Vec<Placement>, order: &Vec<usize>, col: u64)
    requires
        all_bounded(old(cells)@),
        distinct(order@),
        lists_column(old(cells)@, order@, col),
    ensures
        placing(old(cells)@, final(cells)@, order@, slots_before(final(cells)@, order@, order@.len() as int), order@.len() as int),
{
    let mut slots: Vec<(i64, i64)> = Vec::new();
    let mut t: usize = 0;
    assert(slots@ =~= slots_before(cells@, order@, 0));
    while t < order.len()
        invariant
            distinct(order@),
            forall|k: int| 0 <= k < order.len() ==> (#[trigger] order@[k]) < cells.len(),
            placing(old(cells)@, cells@, order@, slots@, t as int),
        decreases order.len() - t,
    {
        let i: usize = order[t];
        let ghost before_cells = cells@;
        let ghost before_slots = slots@;
        assert(cell_bounds(cells@[i as int]));
        let wish: i64 = cells[i].desired;
        let height: i64 = cells[i].height;
        let found: i64 = Graph::find_free_y(wish, height, &slots, ROW_GAP, START_Y);
        let y: i64 = if found > COORD_MAX {
            COORD_MAX
        } else {
            found
        };
        slots.push((y, height));
        cells[i].y = y;
        cells[i].placed = true;
        proof {
            assert(cells@ =~= before_cells.update(i as int, Placement { y, placed: true, ..before_cells[i as int] }));
            lemma_place_step(old(cells)@, before_cells, cells@, order@, before_slots, t as int, y);
        }
        t += 1;
    }
}

/// Places every node of column `col` afresh, in the order of its column.
pub fn place_column(cells: &mut Vec<Placement>, col: u64)
    requires
        all_bounded(old(cells)@),
    ensures
        column_placed(old(cells)@, final(cells)@, col),
        same_shape(old(cells)@, final(cells)@),
        all_bounded(final(cells)@),
        column_clear(final(cells)@, col),
        forall|i: int|
            0 <= i < old(cells).len() && old(cells)@[i].column != col ==> (#[trigger] final(cells)@[i]) == old(
                cells,
            )@[i],
        forall|i: int|
            0 <= i < old(cells).len() ==> (#[trigger] final(cells)@[i]).first_y == old(cells)@[i].first_y
                && final(cells)@[i].desired == old(cells)@[i].desired && final(cells)@[i].group == old(
                cells,
            )@[i].group,
        forall|i: int| 0 <= i < old(cells).len() && old(cells)@[i].column == col ==> (#[trigger] final(cells)@[i]).placed,
{
    let count: usize = cells.len();
    let order = order_column(cells, col);
    place_in_order(cells, &order, col);
    proof {
        assert(old(cells)@.len() == count);
        lemma_column_is_placed(old(cells)@, cells@, order@, col);
    }
}

/// When all listed entries are placed, the column is placed and clear.
proof fn lemma_column_is_placed(start: Seq<Placement>, cells: Seq<Placement>, order: Seq<usize>, col: u64)
    requires
        start.len() <= usize::MAX,
        column_order(start, order, col),
        placing(start, cells, order, slots_before(cells, order, order.len() as int), order.len() as int),
    ensures
        column_placed(start, cells, col),
        same_shape(start, cells),
        column_clear(cells, col),
        forall|i: int| 0 <= i < start.len() && start[i].column != col ==> (#[trigger] cells[i]) == start[i],
        forall|i: int|
            0 <= i < start.len() ==> (#[trigger] cells[i]).first_y == start[i].first_y && cells[i].desired
                == start[i].desired && cells[i].group == start[i].group,
        forall|i: int| 0 <= i < start.len() && start[i].column == col ==> (#[trigger] cells[i]).placed,
{
    assert forall|i: int| 0 <= i < start.len() && start[i].column != col implies (#[trigger] cells[i]) == start[i] by {
        if order.contains(i as usize) {
            let w = choose|w: int| 0 <= w < order.len() && order[w] == i as usize;
            assert(start[order[w] as int].column == col);
        }
    }
    assert forall|i: int| 0 <= i < start.len() && start[i].column == col implies (#[trigger] cells[i]).placed by {
        assert(order.contains(i as usize));
        let w = choose|w: int| 0 <= w < order.len() && order[w] == i as usize;
        assert(cells[order[w] as int].placed);
    }
    assert forall|i: int| 0 <= i < start.len() && start[i].column == col implies (#[trigger] cells[i]) == (Placement {
        y: cells[i].y,
        placed: true,
        ..start[i]
    }) by {
        assert(cells[i].placed);
    }
    assert forall|i: int, j: int|
        0 <= i < cells.len() && 0 <= j < cells.len() && i != j && cells[i].column == col && cells[j].column
            == col implies #[trigger] apart(cells[i], cells[j]) by {
        assert(cells[i].column == start[i].column);
        assert(cells[j].column == start[j].column);
        assert(order.contains(i as usize));
        assert(order.contains(j as usize));
        let a = choose|a: int| 0 <= a < order.len() && order[a] == i as usize;
        let b = choose|b: int| 0 <= b < order.len() && order[b] == j as usize;
        assert(a != b);
        assert(apart(cells[order[a] as int], cells[order[b] as int]));
    }
    assert(placed_in_order(cells, order));
    assert(column_order(start, order, col) && placed_in_order(cells, order));
}

/// Whether the two lists name, for every link, entries of the table.
pub open spec fn ends_fit(cells: Seq<Placement>, src: Seq<usize>, dst: Seq<usize>) -> bool {
    &&& src.len() == dst.len()
    &&& forall|l: int| 0 <= l < src.len() ==> (#[trigger] src[l]) < cells.len()
    &&& forall|l: int| 0 <= l < dst.len() ==> (#[trigger] dst[l]) < cells.len()
}

/// Whether link `l` brings entry `i` a placed neighbour from the column to
/// its left.
pub open spec fn fed_from_left(cells: Seq<Placement>, src: Seq<usize>, dst: Seq<usize>, i: int, l: int) -> bool {
    dst[l] == i && cells[src[l] as int].placed && cells[src[l] as int].column + 1 == cells[i].column
}

/// Sum of the places of the left neighbours over the first `upto` links.
pub open spec fn left_sum(cells: Seq<Placement>, src: Seq<usize>, dst: Seq<usize>, i: int, upto: int) -> int
    decreases upto,
{
    if upto <= 0 {
        0
    } else {
        left_sum(cells, src, dst, i, upto - 1) + if fed_from_left(cells, src, dst, i, upto - 1) {
            cells[src[upto - 1] as int].y as int
        } else {
            0
        }
    }
}

/// Number of left neighbours over the first `upto` links.
pub open spec fn left_count(cells: Seq<Placement>, src: Seq<usize>, dst: Seq<usize>, i: int, upto: int) -> int
    decreases upto,
{
    if upto <= 0 {
        0
    } else {
        left_count(cells, src, dst, i, upto - 1) + if fed_from_left(cells, src, dst, i, upto - 1) {
            1int
        } else {
            0
        }
    }
}

/// The place of the first placed node that feeds entry `i`, over the first
/// `upto` links.
pub open spec fn first_feeder(cells: Seq<Placement>, src: Seq<usize>, dst: Seq<usize>, i: int, upto: int) -> Option<
    i64,
>
    decreases upto,
{
    if upto <= 0 {
        None
    } else {
        match first_feeder(cells, src, dst, i, upto - 1) {
            Some(y) => Some(y),
            None => if dst[upto - 1] == i && cells[src[upto - 1] as int].placed {
                Some(cells[src[upto - 1] as int].y)
            } else {
                None
            },
        }
    }
}

/// The place a node of a later column asks for: the mean place of its
/// neighbours in the column to the left; without such a neighbour the place
/// of the first placed node that feeds it; without any the top.
pub open spec fn wish_from_inputs(cells: Seq<Placement>, src: Seq<usize>, dst: Seq<usize>, i: int) -> int {
    let n = src.len() as int;
    if left_count(cells, src, dst, i, n) > 0 {
        left_sum(cells, src, dst, i, n) / left_count(cells, src, dst, i, n)
    } else {
        match first_feeder(cells, src, dst, i, n) {
            Some(y) => y as int,
            None => START_Y as int,
        }
    }
}

/// A mean lies between the bounds of what it averages.
proof fn lemma_mean_bounds(sum: int, count: int, lo: int, hi: int)
    requires
        count > 0,
        lo * count <= sum <= hi * count,
    ensures
        lo <= sum / count <= hi,
{
    assert(lo <= sum / count) by (nonlinear_arith)
        requires
            count > 0,
            lo * count <= sum,
    ;
    assert(sum / count <= hi) by (nonlinear_arith)
        requires
            count > 0,
            sum <= hi * count,
    ;
}

/// Computes the place that entry `i` asks for from the nodes that feed it.
pub fn input_wish(cells: &Vec<Placement>, src: &Vec<usize>, dst: &Vec<usize>, i: usize) -> (r: i64)
    requires
        all_bounded(cells@),
        ends_fit(cells@, src@, dst@),
        i < cells.len(),
    ensures
        r == wish_from_inputs(cells@, src@, dst@, i as int),
        START_Y <= r <= COORD_MAX,
{
    let mut sum: i128 = 0;
    let mut count: u64 = 0;
    let mut first: Option<i64> = None;
    let mut l: usize = 0;
    while l < src.len()
        invariant
            l <= src.len(),
            all_bounded(cells@),
            ends_fit(cells@, src@, dst@),
            i < cells.len(),
            sum == left_sum(cells@, src@, dst@, i as int, l as int),
            count == left_count(cells@, src@, dst@, i as int, l as int),
            first == first_feeder(cells@, src@, dst@, i as int, l as int),
            count <= l,
            START_Y * count <= sum <= COORD_MAX * count,
            first matches Some(y) ==> START_Y <= y <= COORD_MAX,
        decreases src.len() - l,
    {
        let u: usize = src[l];
        assert(cell_bounds(cells@[u as int]));
        if dst[l] == i && cells[u].placed {
            if first.is_none() {
                first = Some(cells[u].y);
            }
            if cells[u].column < u64::MAX && cells[u].column + 1 == cells[i].column {
                assert(COORD_MAX * count <= COORD_MAX * 0xffff_ffff_ffff_ffff) by (nonlinear_arith)
                    requires
                        count <= 0xffff_ffff_ffff_ffff,
                ;
                sum = sum + cells[u].y as i128;
                count = count + 1;
            }
        }
        l += 1;
    }
    if count > 0 {
        proof {
            lemma_mean_bounds(sum as int, count as int, START_Y as int, COORD_MAX as int);
        }
        (sum / (count as i128)) as i64
    } else {
        match first {
            Some(y) => y,
            None => START_Y,
        }
    }
}

/// The id of the node that the first link leaving entry `i` arrives at.
pub open spec fn first_target(cells: Seq<Placement>, src: Seq<usize>, dst: Seq<usize>, i: int, upto: int) -> u32
    decreases upto,
{
    if upto <= 0 {
        NO_GROUP
    } else if exists|l: int| 0 <= l < upto - 1 && #[trigger] src[l] == i {
        first_target(cells, src, dst, i, upto - 1)
    } else if src[upto - 1] == i {
        cells[dst[upto - 1] as int].id
    } else {
        NO_GROUP
    }
}

/// Computes the cluster of entry `i`: the node its first link leads to.
pub fn cluster_of(cells: &Vec<Placement>, src: &Vec<usize>, dst: &Vec<usize>, i: usize) -> (r: u32)
    requires
        ends_fit(cells@, src@, dst@),
    ensures
        r == first_target(cells@, src@, dst@, i as int, src.len() as int),
{
    let mut l: usize = 0;
    while l < src.len()
        invariant
            l <= src.len(),
            ends_fit(cells@, src@, dst@),
            forall|k: int| 0 <= k < l ==> src@[k] != i,
            first_target(cells@, src@, dst@, i as int, l as int) == NO_GROUP,
        decreases src.len() - l,
    {
        if src[l] == i {
            let found: u32 = cells[dst[l]].id;
            proof {
                lemma_first_target_stays(cells@, src@, dst@, i as int, l as int, src.len() as int);
            }
            return found;
        }
        l += 1;
    }
    NO_GROUP
}

/// Once a link leaving `i` has been seen at `l`, later links change nothing.
proof fn lemma_first_target_stays(cells: Seq<Placement>, src: Seq<usize>, dst: Seq<usize>, i: int, l: int, upto: int)
    requires
        0 <= l < upto,
        src[l] == i,
        forall|k: int| 0 <= k < l ==> src[k] != i,
    ensures
        first_target(cells, src, dst, i, upto) == cells[dst[l] as int].id,
    decreases upto,
{
    if upto == l + 1 {
    } else {
        lemma_first_target_stays(cells, src, dst, i, l, upto - 1);
        assert(0 <= l < upto - 1 && src[l] == i);
    }
}

/// Whether table `b` is table `a` with the wishes of column `col` set: each
/// of its nodes asks for the place that the nodes that feed it suggest, and
/// belongs to the cluster of the node it feeds first where clusters are in
/// use.
pub open spec fn wishes_set(
    a: Seq<Placement>,
    b: Seq<Placement>,
    src: Seq<usize>,
    dst: Seq<usize>,
    col: u64,
    grouped: bool,
) -> bool {
    &&& a.len() == b.len()
    &&& forall|i: int|
        0 <= i < a.len() ==> (#[trigger] b[i]) == (if a[i].column == col {
            Placement {
                desired: wish_from_inputs(a, src, dst, i) as i64,
                group: if grouped {
                    first_target(a, src, dst, i, src.len() as int)
                } else {
                    0u32
                },
                ..a[i]
            }
        } else {
            a[i]
        })
}

/// Sets what the nodes of column `col` ask for before they are placed.
pub fn set_column_wishes(cells: &mut Vec<Placement>, src: &Vec<usize>, dst: &Vec<usize>, col: u64, grouped: bool)
    requires
        all_bounded(old(cells)@),
        ends_fit(old(cells)@, src@, dst@),
    ensures
        wishes_set(old(cells)@, final(cells)@, src@, dst@, col, grouped),
        same_shape(old(cells)@, final(cells)@),
        all_bounded(final(cells)@),
        forall|i: int|
            0 <= i < old(cells).len() ==> (#[trigger] final(cells)@[i]).y == old(cells)@[i].y && final(cells)@[i].first_y
                == old(cells)@[i].first_y && final(cells)@[i].placed == old(cells)@[i].placed,
        forall|i: int| 0 <= i < old(cells).len() && old(cells)@[i].column != col ==> (#[trigger] final(cells)@[i]) == old(cells)@[i],
        forall|i: int|
            0 <= i < old(cells).len() && old(cells)@[i].column == col ==> (#[trigger] final(cells)@[i]).desired
                == wish_from_inputs(old(cells)@, src@, dst@, i) && final(cells)@[i].group == (if grouped {
                first_target(old(cells)@, src@, dst@, i, src@.len() as int)
            } else {
                0u32
            }),
{
    let mut wishes: Vec<i64> = Vec::new();
    let mut groups: Vec<u32> = Vec::new();
    let mut i: usize = 0;
    while i < cells.len()
        invariant
            i <= cells.len(),
            cells@ == old(cells)@,
            all_bounded(cells@),
            ends_fit(cells@, src@, dst@),
            wishes.len() == i,
            groups.len() == i,
            forall|j: int|
                0 <= j < i ==> START_Y <= (#[trigger] wishes@[j]) <= COORD_MAX && (cells@[j].column == col
                    ==> wishes@[j] == wish_from_inputs(cells@, src@, dst@, j)),
            forall|j: int|
                0 <= j < i && cells@[j].column == col ==> (#[trigger] groups@[j]) == (if grouped {
                    first_target(cells@, src@, dst@, j, src@.len() as int)
                } else {
                    0u32
                }),
        decreases cells.len() - i,
    {
        if cells[i].column == col {
            wishes.push(input_wish(cells, src, dst, i));
            groups.push(
                if grouped {
                    cluster_of(cells, src, dst, i)
                } else {
                    0
                },
            );
        } else {
            wishes.push(START_Y);
            groups.push(0);
        }
        i += 1;
    }
    let mut k: usize = 0;
    while k < cells.len()
        invariant
            k <= cells.len(),
            cells.len() == old(cells).len(),
            wishes.len() == cells.len(),
            groups.len() == cells.len(),
            same_shape(old(cells)@, cells@),
            all_bounded(cells@),
            forall|j: int| 0 <= j < wishes.len() ==> START_Y <= (#[trigger] wishes@[j]) <= COORD_MAX,
            forall|j: int|
                0 <= j < cells.len() ==> (#[trigger] cells@[j]).y == old(cells)@[j].y && cells@[j].first_y == old(
                    cells,
                )@[j].first_y && cells@[j].placed == old(cells)@[j].placed,
            forall|j: int| 0 <= j < cells.len() && (old(cells)@[j].column != col || j >= k) ==> (#[trigger] cells@[j]) == old(cells)@[j],
            forall|j: int|
                0 <= j < k && old(cells)@[j].column == col ==> (#[trigger] cells@[j]) == (Placement {
                    desired: wishes@[j],
                    group: groups@[j],
                    ..old(cells)@[j]
                }),
        decreases cells.len() - k,
    {
        assert(same_node(old(cells)@[k as int], cells@[k as int]));
        if cells[k].column == col {
            cells[k].desired = wishes[k];
            cells[k].group = groups[k];
        }
        k += 1;
    }
}

/// Whether table `after` is table `before` with the columns 1 to `col`
/// placed from left to right, each after its wishes were set.
pub open spec fn downstream_done(
    before: Seq<Placement>,
    after: Seq<Placement>,
    src: Seq<usize>,
    dst: Seq<usize>,
    col: int,
    grouped: bool,
) -> bool
    decreases col,
{
    if col <= 0 {
        after == before
    } else {
        exists|mid: Seq<Placement>, wished: Seq<Placement>|
            downstream_done(before, mid, src, dst, col - 1, grouped) && #[trigger] wishes_set(
                mid,
                wished,
                src,
                dst,
                col as u64,
                grouped,
            ) && column_placed(wished, after, col as u64)
    }
}

/// One more column placed is one more column done.
proof fn lemma_downstream_step(
    before: Seq<Placement>,
    mid: Seq<Placement>,
    wished: Seq<Placement>,
    after: Seq<Placement>,
    src: Seq<usize>,
    dst: Seq<usize>,
    col: int,
    grouped: bool,
)
    requires
        1 <= col,
        downstream_done(before, mid, src, dst, col - 1, grouped),
        wishes_set(mid, wished, src, dst, col as u64, grouped),
        column_placed(wished, after, col as u64),
    ensures
        downstream_done(before, after, src, dst, col, grouped),
{
}

/// Places the columns 1 to `last` from left to right.
///
/// With `grouped`, the nodes of a column that feed the same node stand
/// together; without, a column is ordered by the places asked for alone.
pub fn place_downstream(cells: &mut Vec<Placement>, src: &Vec<usize>, dst: &Vec<usize>, last: u64, grouped: bool)
    requires
        all_bounded(old(cells)@),
        ends_fit(old(cells)@, src@, dst@),
        last < u64::MAX,
    ensures
        downstream_done(old(cells)@, final(cells)@, src@, dst@, last as int, grouped),
        same_shape(old(cells)@, final(cells)@),
        all_bounded(final(cells)@),
        forall|c: u64| 1 <= c <= last ==> column_clear(final(cells)@, c),
        forall|i: int|
            0 <= i < old(cells).len() && !(1 <= old(cells)@[i].column <= last) ==> (#[trigger] final(cells)@[i]) == old(cells)@[i],
        forall|i: int| 0 <= i < old(cells).len() && 1 <= old(cells)@[i].column <= last ==> (#[trigger] final(cells)@[i]).placed,
        forall|i: int| 0 <= i < old(cells).len() ==> (#[trigger] final(cells)@[i]).first_y == old(cells)@[i].first_y,
{
    let mut col: u64 = 1;
    while col <= last
        invariant
            1 <= col <= last + 1,
            last < u64::MAX,
            downstream_done(old(cells)@, cells@, src@, dst@, col - 1, grouped),
            same_shape(old(cells)@, cells@),
            all_bounded(cells@),
            ends_fit(cells@, src@, dst@),
            forall|c: u64| 1 <= c < col ==> column_clear(cells@, c),
            forall|i: int|
                0 <= i < cells.len() && !(1 <= old(cells)@[i].column < col) ==> (#[trigger] cells@[i]) == old(cells)@[i],
            forall|i: int| 0 <= i < cells.len() && 1 <= old(cells)@[i].column < col ==> (#[trigger] cells@[i]).placed,
            forall|i: int| 0 <= i < cells.len() ==> (#[trigger] cells@[i]).first_y == old(cells)@[i].first_y,
        decreases last + 1 - col,
    {
        let ghost before = cells@;
        set_column_wishes(cells, src, dst, col, grouped);
        let ghost wished = cells@;
        place_column(cells, col);
        proof {
            lemma_downstream_step(old(cells)@, before, wished, cells@, src@, dst@, col as int, grouped);
            assert forall|c: u64| 1 <= c < col + 1 implies column_clear(cells@, c) by {
                if c < col {
                    assert(column_clear(before, c));
                    assert forall|i: int, j: int|
                        0 <= i < cells.len() && 0 <= j < cells.len() && i != j && cells@[i].column == c
                            && cells@[j].column == c implies #[trigger] apart(cells@[i], cells@[j]) by {
                        assert(same_node(wished[i], cells@[i]));
                        assert(same_node(wished[j], cells@[j]));
                        assert(same_node(before[i], wished[i]));
                        assert(same_node(before[j], wished[j]));
                        assert(cells@[i] == wished[i]);
                        assert(wished[i] == before[i]);
                        assert(cells@[j] == wished[j]);
                        assert(wished[j] == before[j]);
                        assert(apart(before[i], before[j]));
                    }
                }
            }
            assert forall|i: int| 0 <= i < cells.len() && !(1 <= old(cells)@[i].column < col + 1) implies (#[trigger] cells@[i])
                == old(cells)@[i] by {
                assert(same_node(old(cells)@[i], before[i]));
                assert(same_node(before[i], wished[i]));
                assert(wished[i] == before[i]);
                assert(cells@[i] == wished[i]);
            }
            assert forall|i: int| 0 <= i < cells.len() && 1 <= old(cells)@[i].column < col + 1 implies (#[trigger] cells@[i]).placed by {
                assert(same_node(old(cells)@[i], before[i]));
                assert(same_node(before[i], wished[i]));
                if old(cells)@[i].column < col {
                    assert(wished[i] == before[i]);
                    assert(cells@[i] == wished[i]);
                }
            }
            assert(same_shape(old(cells)@, cells@)) by {
                assert forall|i: int| 0 <= i < cells.len() implies same_node(#[trigger] old(cells)@[i], cells@[i]) by {
                    assert(same_node(old(cells)@[i], before[i]));
                    assert(same_node(before[i], wished[i]));
                    assert(same_node(wished[i], cells@[i]));
                }
            }
            assert(ends_fit(cells@, src@, dst@));
        }
        col += 1;
    }
}

/// Height of the sources above entry `upto`, each with the row gap below it.
pub open spec fn source_run(cells: Seq<Placement>, upto: int) -> int
    decreases upto,
{
    if upto <= 0 {
        0
    } else {
        source_run(cells, upto - 1) + if cells[upto - 1].role == NodeRole::Source {
            cells[upto - 1].height + ROW_GAP
        } else {
            0
        }
    }
}

/// `START_Y + run`, saturated at the end of the coordinate range.
pub open spec fn stacked_at(run: int) -> int {
    if START_Y + run > COORD_MAX {
        COORD_MAX as int
    } else {
        START_Y + run
    }
}

/// Whether table `b` is table `a` with the sources stacked from the top in
/// table order, and they alone marked as placed.
pub open spec fn sources_stacked(a: Seq<Placement>, b: Seq<Placement>) -> bool {
    &&& a.len() == b.len()
    &&& forall|i: int|
        0 <= i < a.len() ==> (#[trigger] b[i]) == (Placement {
            y: if a[i].role == NodeRole::Source {
                stacked_at(source_run(a, i)) as i64
            } else {
                a[i].y
            },
            placed: a[i].role == NodeRole::Source,
            ..a[i]
        })
}

/// First pass over the sources: stacks them from the top in table order and
/// marks every other node as not yet placed.
pub fn stack_sources(cells: &mut Vec<Placement>)
    requires
        all_bounded(old(cells)@),
    ensures
        sources_stacked(old(cells)@, final(cells)@),
        same_shape(old(cells)@, final(cells)@),
        all_bounded(final(cells)@),
        forall|i: int| 0 <= i < old(cells).len() ==> (#[trigger] final(cells)@[i]).placed == (old(cells)@[i].role == NodeRole::Source),
        forall|i: int|
            0 <= i < old(cells).len() && old(cells)@[i].role == NodeRole::Source ==> (#[trigger] final(cells)@[i]).y
                == stacked_at(source_run(old(cells)@, i)),
{
    let mut y: i64 = START_Y;
    let mut i: usize = 0;
    while i < cells.len()
        invariant
            i <= cells.len(),
            same_shape(old(cells)@, cells@),
            all_bounded(cells@),
            0 <= source_run(old(cells)@, i as int),
            y == stacked_at(source_run(old(cells)@, i as int)),
            forall|j: int| i <= j < cells.len() ==> (#[trigger] cells@[j]) == old(cells)@[j],
            forall|j: int|
                0 <= j < i ==> (#[trigger] cells@[j]) == (Placement {
                    y: cells@[j].y,
                    placed: cells@[j].placed,
                    ..old(cells)@[j]
                }) && (old(cells)@[j].role != NodeRole::Source ==> cells@[j].y == old(cells)@[j].y),
            forall|j: int| 0 <= j < i ==> (#[trigger] cells@[j]).placed == (old(cells)@[j].role == NodeRole::Source),
            forall|j: int|
                0 <= j < i && old(cells)@[j].role == NodeRole::Source ==> (#[trigger] cells@[j]).y == stacked_at(
                    source_run(old(cells)@, j),
                ),
        decreases cells.len() - i,
    {
        assert(cell_bounds(cells@[i as int]));
        assert(same_node(old(cells)@[i as int], cells@[i as int]));
        if matches!(cells[i].role, NodeRole::Source) {
            cells[i].y = y;
            cells[i].placed = true;
            let next: i64 = y + cells[i].height + ROW_GAP;
            y = if next > COORD_MAX {
                COORD_MAX
            } else {
                next
            };
        } else {
            cells[i].placed = false;
        }
        i += 1;
    }
}

/// Whether table `b` is table `a` with the places kept as those of the
/// first pass, and no node marked as placed.
pub open spec fn first_pass_closed(a: Seq<Placement>, b: Seq<Placement>) -> bool {
    &&& a.len() == b.len()
    &&& forall|i: int| 0 <= i < a.len() ==> (#[trigger] b[i]) == (Placement { first_y: a[i].y, placed: false, ..a[i] })
}

/// Keeps the places of the first pass and marks every node as not placed.
pub fn close_first_pass(cells: &mut Vec<Placement>)
    requires
        all_bounded(old(cells)@),
    ensures
        first_pass_closed(old(cells)@, final(cells)@),
        same_shape(old(cells)@, final(cells)@),
        all_bounded(final(cells)@),
        forall|i: int|
            0 <= i < old(cells).len() ==> (#[trigger] final(cells)@[i]).first_y == old(cells)@[i].y && final(cells)@[i].y
                == old(cells)@[i].y && !final(cells)@[i].placed,
{
    let mut i: usize = 0;
    while i < cells.len()
        invariant
            i <= cells.len(),
            same_shape(old(cells)@, cells@),
            all_bounded(cells@),
            forall|j: int| i <= j < cells.len() ==> (#[trigger] cells@[j]) == old(cells)@[j],
            forall|j: int|
                0 <= j < i ==> (#[trigger] cells@[j]) == (Placement {
                    first_y: old(cells)@[j].y,
                    placed: false,
                    ..old(cells)@[j]
                }),
        decreases cells.len() - i,
    {
        assert(cell_bounds(cells@[i as int]));
        let y: i64 = cells[i].y;
        cells[i].first_y = y;
        cells[i].placed = false;
        i += 1;
    }
}

/// `s` with `v` put behind the last value that is not larger.
pub open spec fn with_sorted(s: Seq<i64>, v: i64) -> Seq<i64>
    decreases s.len(),
{
    if s.len() == 0 {
        seq![v]
    } else if s.last() <= v {
        s.push(v)
    } else {
        with_sorted(s.drop_last(), v).push(s.last())
    }
}

/// First-pass places of the nodes that entry `i` feeds, over the first
/// `upto` links, in ascending order.
pub open spec fn target_places(cells: Seq<Placement>, src: Seq<usize>, dst: Seq<usize>, i: int, upto: int) -> Seq<
    i64,
>
    decreases upto,
{
    if upto <= 0 {
        Seq::empty()
    } else {
        let rest = target_places(cells, src, dst, i, upto - 1);
        if src[upto - 1] == i {
            with_sorted(rest, cells[dst[upto - 1] as int].first_y)
        } else {
            rest
        }
    }
}

/// The median of an ascending list of places; the top for an empty list.
pub open spec fn median_of(s: Seq<i64>) -> int {
    let mid = s.len() as int / 2;
    if s.len() == 0 {
        START_Y as int
    } else if s.len() % 2 == 0 {
        (s[mid - 1] + s[mid]) / 2
    } else {
        s[mid] as int
    }
}

/// Putting `v` at `k` is the sorted insertion when everything from `k` on is
/// larger and what stands before `k` is not.
proof fn lemma_with_sorted_is_insert(s: Seq<i64>, v: i64, k: int)
    requires
        0 <= k <= s.len(),
        forall|j: int| k <= j < s.len() ==> s[j] > v,
        k > 0 ==> s[k - 1] <= v,
    ensures
        with_sorted(s, v) == s.insert(k, v),
    decreases s.len() - k,
{
    if s.len() == 0 {
        assert(s.insert(0, v) =~= seq![v]);
    } else if k == s.len() {
        assert(s.insert(k, v) =~= s.push(v));
    } else {
        lemma_with_sorted_is_insert(s.drop_last(), v, k);
        assert(s.drop_last().insert(k, v).push(s.last()) =~= s.insert(k, v));
    }
}

fn insert_place(places: &mut Vec<i64>, v: i64)
    ensures
        final(places)@ == with_sorted(old(places)@, v),
        final(places)@.len() == old(places)@.len() + 1,
        (forall|j: int| 0 <= j < old(places)@.len() ==> START_Y <= #[trigger] old(places)@[j] <= COORD_MAX) && START_Y
            <= v <= COORD_MAX ==> (forall|j: int|
            0 <= j < final(places)@.len() ==> START_Y <= #[trigger] final(places)@[j] <= COORD_MAX),
{
    let mut k: usize = places.len();
    while k > 0 && places[k - 1] > v
        invariant
            k <= places.len(),
            places@ == old(places)@,
            forall|j: int| k <= j < places.len() ==> places@[j] > v,
        decreases k,
    {
        k -= 1;
    }
    proof {
        lemma_with_sorted_is_insert(places@, v, k as int);
    }
    places.insert(k, v);
}

/// Computes the place a source asks for in its second pass: the median of
/// the first-pass places of the nodes it feeds.
pub fn median_wish(cells: &Vec<Placement>, src: &Vec<usize>, dst: &Vec<usize>, i: usize) -> (r: i64)
    requires
        all_bounded(cells@),
        ends_fit(cells@, src@, dst@),
    ensures
        r == median_of(target_places(cells@, src@, dst@, i as int, src.len() as int)),
        START_Y <= r <= COORD_MAX,
{
    let mut places: Vec<i64> = Vec::new();
    let mut l: usize = 0;
    while l < src.len()
        invariant
            l <= src.len(),
            all_bounded(cells@),
            ends_fit(cells@, src@, dst@),
            places@ == target_places(cells@, src@, dst@, i as int, l as int),
            forall|j: int| 0 <= j < places.len() ==> START_Y <= #[trigger] places@[j] <= COORD_MAX,
        decreases src.len() - l,
    {
        if src[l] == i {
            assert(cell_bounds(cells@[dst@[l as int] as int]));
            insert_place(&mut places, cells[dst[l]].first_y);
        }
        l += 1;
    }
    let n: usize = places.len();
    if n == 0 {
        START_Y
    } else if n % 2 == 0 {
        let mid: usize = n / 2;
        (places[mid - 1] + places[mid]) / 2
    } else {
        places[n / 2]
    }
}

/// Whether link `l` leads from entry `i` to a placed node.
pub open spec fn feeds_placed(cells: Seq<Placement>, src: Seq<usize>, dst: Seq<usize>, i: int, l: int) -> bool {
    src[l] == i && cells[dst[l] as int].placed
}

/// Sum of the places of the placed nodes that entry `i` feeds.
pub open spec fn right_sum(cells: Seq<Placement>, src: Seq<usize>, dst: Seq<usize>, i: int, upto: int) -> int
    decreases upto,
{
    if upto <= 0 {
        0
    } else {
        right_sum(cells, src, dst, i, upto - 1) + if feeds_placed(cells, src, dst, i, upto - 1) {
            cells[dst[upto - 1] as int].y as int
        } else {
            0
        }
    }
}

/// Number of placed nodes that entry `i` feeds, each link counted.
pub open spec fn right_count(cells: Seq<Placement>, src: Seq<usize>, dst: Seq<usize>, i: int, upto: int) -> int
    decreases upto,
{
    if upto <= 0 {
        0
    } else {
        right_count(cells, src, dst, i, upto - 1) + if feeds_placed(cells, src, dst, i, upto - 1) {
            1int
        } else {
            0
        }
    }
}

/// The mean place of the placed nodes that entry `i` feeds; the top if
/// there is none.
pub open spec fn wish_from_outputs(cells: Seq<Placement>, src: Seq<usize>, dst: Seq<usize>, i: int) -> int {
    let n = src.len() as int;
    if right_count(cells, src, dst, i, n) > 0 {
        right_sum(cells, src, dst, i, n) / right_count(cells, src, dst, i, n)
    } else {
        START_Y as int
    }
}

/// Computes the place a source asks for in its last pass.
pub fn mean_wish(cells: &Vec<Placement>, src: &Vec<usize>, dst: &Vec<usize>, i: usize) -> (r: i64)
    requires
        all_bounded(cells@),
        ends_fit(cells@, src@, dst@),
    ensures
        r == wish_from_outputs(cells@, src@, dst@, i as int),
        START_Y <= r <= COORD_MAX,
{
    let mut sum: i128 = 0;
    let mut count: u64 = 0;
    let mut l: usize = 0;
    while l < src.len()
        invariant
            l <= src.len(),
            all_bounded(cells@),
            ends_fit(cells@, src@, dst@),
            sum == right_sum(cells@, src@, dst@, i as int, l as int),
            count == right_count(cells@, src@, dst@, i as int, l as int),
            count <= l,
            START_Y * count <= sum <= COORD_MAX * count,
        decreases src.len() - l,
    {
        let p: usize = dst[l];
        assert(cell_bounds(cells@[p as int]));
        if src[l] == i && cells[p].placed {
            assert(COORD_MAX * count <= COORD_MAX * 0xffff_ffff_ffff_ffff) by (nonlinear_arith)
                requires
                    count <= 0xffff_ffff_ffff_ffff,
            ;
            sum = sum + cells[p].y as i128;
            count = count + 1;
        }
        l += 1;
    }
    if count > 0 {
        proof {
            lemma_mean_bounds(sum as int, count as int, START_Y as int, COORD_MAX as int);
        }
        (sum / (count as i128)) as i64
    } else {
        START_Y
    }
}

/// The place a source asks for: the median of the first-pass places of what
/// it feeds, or the mean of their present places.
pub open spec fn source_wish(cells: Seq<Placement>, src: Seq<usize>, dst: Seq<usize>, i: int, by_median: bool) -> int {
    if by_median {
        median_of(target_places(cells, src, dst, i, src.len() as int))
    } else {
        wish_from_outputs(cells, src, dst, i)
    }
}

/// Whether table `b` is table `a` with the wishes of the sources set.
pub open spec fn source_wishes_set(
    a: Seq<Placement>,
    b: Seq<Placement>,
    src: Seq<usize>,
    dst: Seq<usize>,
    by_median: bool,
) -> bool {
    &&& a.len() == b.len()
    &&& forall|i: int|
        0 <= i < a.len() ==> (#[trigger] b[i]) == (if a[i].column == 0 {
            Placement { desired: source_wish(a, src, dst, i, by_median) as i64, group: 0, ..a[i] }
        } else {
            a[i]
        })
}

/// Whether table `b` is table `a` with column 0 placed afresh, each source
/// near the nodes that it feeds.
pub open spec fn sources_replaced(
    a: Seq<Placement>,
    b: Seq<Placement>,
    src: Seq<usize>,
    dst: Seq<usize>,
    by_median: bool,
) -> bool {
    exists|wished: Seq<Placement>| #[trigger]
        source_wishes_set(a, wished, src, dst, by_median) && column_placed(wished, b, 0)
}

/// Places column 0 afresh, each source near the nodes that it feeds.
pub fn replace_sources(cells: &mut Vec<Placement>, src: &Vec<usize>, dst: &Vec<usize>, by_median: bool)
    requires
        all_bounded(old(cells)@),
        ends_fit(old(cells)@, src@, dst@),
    ensures
        sources_replaced(old(cells)@, final(cells)@, src@, dst@, by_median),
        same_shape(old(cells)@, final(cells)@),
        all_bounded(final(cells)@),
        column_clear(final(cells)@, 0),
        forall|i: int| 0 <= i < old(cells).len() && old(cells)@[i].column != 0 ==> (#[trigger] final(cells)@[i]) == old(cells)@[i],
        forall|i: int| 0 <= i < old(cells).len() && old(cells)@[i].column == 0 ==> (#[trigger] final(cells)@[i]).placed,
        forall|i: int|
            0 <= i < old(cells).len() && old(cells)@[i].column == 0 ==> (#[trigger] final(cells)@[i]).desired == source_wish(
                old(cells)@,
                src@,
                dst@,
                i,
                by_median,
            ) && final(cells)@[i].group == 0,
        forall|i: int| 0 <= i < old(cells).len() ==> (#[trigger] final(cells)@[i]).first_y == old(cells)@[i].first_y,
{
    let mut wishes: Vec<i64> = Vec::new();
    let mut i: usize = 0;
    while i < cells.len()
        invariant
            i <= cells.len(),
            cells@ == old(cells)@,
            all_bounded(cells@),
            ends_fit(cells@, src@, dst@),
            wishes.len() == i,
            forall|j: int|
                0 <= j < i ==> START_Y <= (#[trigger] wishes@[j]) <= COORD_MAX && (cells@[j].column == 0
                    ==> wishes@[j] == source_wish(cells@, src@, dst@, j, by_median)),
        decreases cells.len() - i,
    {
        if cells[i].column == 0 {
            wishes.push(
                if by_median {
                    median_wish(cells, src, dst, i)
                } else {
                    mean_wish(cells, src, dst, i)
                },
            );
        } else {
            wishes.push(START_Y);
        }
        i += 1;
    }
    let mut k: usize = 0;
    while k < cells.len()
        invariant
            k <= cells.len(),
            cells.len() == old(cells).len(),
            wishes.len() == cells.len(),
            same_shape(old(cells)@, cells@),
            all_bounded(cells@),
            forall|j: int| 0 <= j < wishes.len() ==> START_Y <= (#[trigger] wishes@[j]) <= COORD_MAX,
            forall|j: int| 0 <= j < cells.len() ==> (#[trigger] cells@[j]).first_y == old(cells)@[j].first_y,
            forall|j: int| 0 <= j < cells.len() && (old(cells)@[j].column != 0 || j >= k) ==> (#[trigger] cells@[j]) == old(cells)@[j],
            forall|j: int|
                0 <= j < k && old(cells)@[j].column == 0 ==> (#[trigger] cells@[j]) == (Placement {
                    desired: wishes@[j],
                    group: 0,
                    ..old(cells)@[j]
                }),
        decreases cells.len() - k,
    {
        assert(same_node(old(cells)@[k as int], cells@[k as int]));
        if cells[k].column == 0 {
            cells[k].desired = wishes[k];
            cells[k].group = 0;
        }
        k += 1;
    }
    let ghost wished = cells@;
    place_column(cells, 0);
    proof {
        assert(source_wishes_set(old(cells)@, wished, src@, dst@, by_median) && column_placed(wished, cells@, 0));
        assert forall|i: int| 0 <= i < cells.len() implies same_node(#[trigger] old(cells)@[i], cells@[i]) by {
            assert(same_node(old(cells)@[i], wished[i]));
            assert(same_node(wished[i], cells@[i]));
        }
        assert forall|i: int| 0 <= i < cells.len() && old(cells)@[i].column != 0 implies (#[trigger] cells@[i]) == old(cells)@[i] by {
            assert(same_node(old(cells)@[i], wished[i]));
            assert(cells@[i] == wished[i]);
        }
        assert forall|i: int| 0 <= i < cells.len() && old(cells)@[i].column == 0 implies (#[trigger] cells@[i]).placed
            && cells@[i].desired == source_wish(old(cells)@, src@, dst@, i, by_median) && cells@[i].group == 0 by {
            assert(same_node(old(cells)@[i], wished[i]));
            assert(wished[i].desired == wishes@[i]);
        }
    }
}

/// Whether every node stands clear of the others of its column, at or below
/// the top.
pub open spec fn rows_settled(cells: Seq<Placement>) -> bool {
    all_bounded(cells) && forall|c: u64| column_clear(cells, c)
}

/// Whether table `end` is table `start` after all passes: the sources
/// stacked, the later columns placed, the first pass closed, the sources
/// placed by the median of what they feed, the later columns placed again
/// in clusters, and the sources placed by the mean of what they feed.
pub open spec fn rows_follow_passes(
    start: Seq<Placement>,
    end: Seq<Placement>,
    src: Seq<usize>,
    dst: Seq<usize>,
    last: int,
) -> bool {
    exists|c1: Seq<Placement>, c2: Seq<Placement>, c3: Seq<Placement>, c4: Seq<Placement>, c5: Seq<Placement>|
        #![trigger sources_stacked(start, c1), first_pass_closed(c2, c3), downstream_done(c4, c5, src, dst, last, true)]
        {
            &&& sources_stacked(start, c1)
            &&& downstream_done(c1, c2, src, dst, last, false)
            &&& first_pass_closed(c2, c3)
            &&& sources_replaced(c3, c4, src, dst, true)
            &&& downstream_done(c4, c5, src, dst, last, true)
            &&& sources_replaced(c5, end, src, dst, false)
        }
}

/// Gives every linked node its place in its column.
///
/// The sources are stacked from the top, the later columns placed near the
/// nodes that feed them; then the sources move to the median of what they
/// feed, the later columns are placed again, clustered by what they feed,
/// and the sources move once more, to the mean of what they feed. In the
/// end no two nodes of a column come closer than the row gap, unless the
/// column has run to the end of the coordinate range.
pub fn layout_rows(cells: &mut Vec<Placement>, src: &Vec<usize>, dst: &Vec<usize>, last: u64)
    requires
        all_bounded(old(cells)@),
        ends_fit(old(cells)@, src@, dst@),
        last < u64::MAX,
        forall|i: int| 0 <= i < old(cells).len() ==> (#[trigger] old(cells)@[i]).column <= last,
    ensures
        rows_follow_passes(old(cells)@, final(cells)@, src@, dst@, last as int),
        same_shape(old(cells)@, final(cells)@),
        rows_settled(final(cells)@),
        forall|i: int| 0 <= i < old(cells).len() ==> (#[trigger] final(cells)@[i]).placed,
{
    stack_sources(cells);
    let ghost c1 = cells@;
    place_downstream(cells, src, dst, last, false);
    let ghost c2 = cells@;
    close_first_pass(cells);
    let ghost c3 = cells@;
    replace_sources(cells, src, dst, true);
    let ghost c4 = cells@;
    place_downstream(cells, src, dst, last, true);
    let ghost c5 = cells@;
    replace_sources(cells, src, dst, false);
    proof {
        assert(sources_stacked(old(cells)@, c1) && downstream_done(c1, c2, src@, dst@, last as int, false)
            && first_pass_closed(c2, c3) && sources_replaced(c3, c4, src@, dst@, true) && downstream_done(
            c4,
            c5,
            src@,
            dst@,
            last as int,
            true,
        ) && sources_replaced(c5, cells@, src@, dst@, false));
        assert forall|i: int| 0 <= i < cells.len() implies same_node(#[trigger] old(cells)@[i], cells@[i]) by {
            assert(same_node(old(cells)@[i], c1[i]));
            assert(same_node(c1[i], c2[i]));
            assert(same_node(c2[i], c3[i]));
            assert(same_node(c3[i], c4[i]));
            assert(same_node(c4[i], c5[i]));
            assert(same_node(c5[i], cells@[i]));
        }
        assert forall|i: int| 0 <= i < cells.len() implies (#[trigger] cells@[i]).placed by {
            assert(same_node(old(cells)@[i], c1[i]));
            assert(same_node(c1[i], c2[i]));
            assert(same_node(c2[i], c3[i]));
            assert(same_node(c3[i], c4[i]));
            assert(same_node(c4[i], c5[i]));
            if c5[i].column != 0 {
                assert(c5[i].placed);
                assert(cells@[i] == c5[i]);
            }
        }
        assert forall|c: u64| column_clear(cells@, c) by {
            if c != 0 {
                assert forall|i: int, j: int|
                    0 <= i < cells.len() && 0 <= j < cells.len() && i != j && cells@[i].column == c
                        && cells@[j].column == c implies #[trigger] apart(cells@[i], cells@[j]) by {
                    assert(same_node(c5[i], cells@[i]));
                    assert(same_node(c5[j], cells@[j]));
                    assert(cells@[i] == c5[i]);
                    assert(cells@[j] == c5[j]);
                    assert(same_node(old(cells)@[i], cells@[i]));
                    assert(c <= last);
                    assert(column_clear(c5, c));
                    assert(apart(c5[i], c5[j]));
                }
            }
        }
    }
}

} // verus!
