//! Column assignment: sources on the left, processors by relaxation along
//! the links, sinks on the right.

use vstd::prelude::*;
use crate::graph::Link;
use crate::auto_layout::{classify, index_of, is_connected, role_of, strictly_ascending, NodeRole};

verus! {

/// The column of one linked node.
#[derive(Debug, Clone, Copy, PartialEq, Eq, Structural)]
pub struct ColumnEntry {
    pub id: u32,
    pub role: NodeRole,
    pub column: u64,
    /// Whether the relaxation reached the node from a source.
    pub reached: bool,
}

/// The column after `c`, held at `cap` so that a cycle of links cannot push
/// a node to the right without end.
pub open spec fn next_column(c: int, cap: int) -> int {
    if c + 1 < cap {
        c + 1
    } else {
        cap
    }
}

/// Whether link `l` leaves entry `u` and arrives at entry `p`.
pub open spec fn joins(links: Seq<Link>, plan: Seq<ColumnEntry>, l: int, u: int, p: int) -> bool {
    &&& 0 <= l < links.len()
    &&& 0 <= u < plan.len()
    &&& 0 <= p < plan.len()
    &&& links[l].output_node == plan[u].id
    &&& links[l].input_node == plan[p].id
}

/// The largest column of an entry that is no sink; 0 if there is none.
pub open spec fn inner_max(plan: Seq<ColumnEntry>) -> int
    decreases plan.len(),
{
    if plan.len() == 0 {
        0
    } else {
        let rest = inner_max(plan.drop_last());
        let e = plan.last();
        if e.role != NodeRole::Sink && e.column > rest {
            e.column as int
        } else {
            rest
        }
    }
}

/// Whether every reached processor is fed by a reached node of lower rank:
/// with such ranks, what counts as reached can be walked back to a source.
#[verifier::opaque]
pub open spec fn ranks_descend(links: Seq<Link>, plan: Seq<ColumnEntry>, rank: Seq<nat>) -> bool {
    &&& rank.len() == plan.len()
    &&& forall|i: int|
        0 <= i < plan.len() && (#[trigger] plan[i]).role == NodeRole::Processor && plan[i].reached ==> exists|
            l: int,
            u: int,
        | #[trigger] joins(links, plan, l, u, i) && plan[u].reached && rank[u] < rank[i]
}

/// Whether every entry has the role that the links give its node.
pub open spec fn roles_follow_links(links: Seq<Link>, plan: Seq<ColumnEntry>) -> bool {
    forall|i: int| 0 <= i < plan.len() ==> (#[trigger] plan[i]).role == role_of(links, plan[i].id)
}

/// Whether sources stand in column 0, processors in the columns 1 to the
/// number of entries, and sinks one column right of everything else.
pub open spec fn columns_by_role(plan: Seq<ColumnEntry>) -> bool {
    &&& forall|i: int|
        0 <= i < plan.len() && (#[trigger] plan[i]).role == NodeRole::Source ==> plan[i].column == 0
            && plan[i].reached
    &&& forall|i: int|
        0 <= i < plan.len() && (#[trigger] plan[i]).role == NodeRole::Sink ==> plan[i].column
            == inner_max(plan) + 1 && !plan[i].reached
    &&& forall|i: int|
        0 <= i < plan.len() && (#[trigger] plan[i]).role == NodeRole::Processor ==> 1
            <= plan[i].column <= plan.len()
    &&& forall|i: int|
        0 <= i < plan.len() && (#[trigger] plan[i]).role == NodeRole::Processor && !plan[i].reached
            ==> plan[i].column == 1
}

/// Whether every reached processor stands exactly one column right of some
/// reached node that feeds it.
pub open spec fn reached_are_fed(links: Seq<Link>, plan: Seq<ColumnEntry>) -> bool {
    forall|i: int|
        0 <= i < plan.len() && (#[trigger] plan[i]).role == NodeRole::Processor && plan[i].reached
            ==> exists|l: int, u: int| #[trigger]
            joins(links, plan, l, u, i) && plan[u].reached && plan[i].column == next_column(
                plan[u].column as int,
                plan.len() as int,
            )
}

/// Whether every processor that a reached node feeds is reached and stands
/// right of that node.
pub open spec fn fed_stand_right(links: Seq<Link>, plan: Seq<ColumnEntry>) -> bool {
    forall|i: int, l: int, u: int|
        #[trigger] joins(links, plan, l, u, i) && plan[i].role == NodeRole::Processor
            && plan[u].reached ==> plan[i].reached && plan[i].column >= next_column(
            plan[u].column as int,
            plan.len() as int,
        )
}

/// Whether the reached processors can be walked back to a source.
pub open spec fn reached_from_sources(links: Seq<Link>, plan: Seq<ColumnEntry>) -> bool {
    exists|rank: Seq<nat>| #[trigger] ranks_descend(links, plan, rank)
}

/// What the column assignment promises.
///
/// Sources stand in column 0. The reached nodes are the sources and the
/// processors that links lead to from a source by way of processors. A
/// reached processor stands one column right of the rightmost reached node
/// that feeds it; one that is not reached stands in column 1. Sinks stand
/// one column right of everything else.
pub open spec fn columns_follow_links(links: Seq<Link>, plan: Seq<ColumnEntry>) -> bool {
    &&& roles_follow_links(links, plan)
    &&& columns_by_role(plan)
    &&& reached_are_fed(links, plan)
    &&& fed_stand_right(links, plan)
    &&& reached_from_sources(links, plan)
}

/// An ascending list of ids is no longer than there are ids.
pub proof fn lemma_ascending_is_short(ids: Seq<u32>)
    requires
        strictly_ascending(ids),
    ensures
        ids.len() <= 0x1_0000_0000,
{
    if ids.len() > 0 {
        lemma_ascending_grows(ids, ids.len() - 1);
    }
}

proof fn lemma_ascending_grows(ids: Seq<u32>, i: int)
    requires
        strictly_ascending(ids),
        0 <= i < ids.len(),
    ensures
        ids[i] >= i,
    decreases i,
{
    reveal(strictly_ascending);
    if i > 0 {
        lemma_ascending_grows(ids, i - 1);
    }
}

/// Whether the relaxation has found entry `i`.
pub open spec fn discovered(roles: Seq<NodeRole>, cols: Seq<u64>, i: int) -> bool {
    roles[i] == NodeRole::Source || (roles[i] == NodeRole::Processor && cols[i] > 0)
}

/// Whether the work list still holds entry `u` with its present column.
pub open spec fn pending(queue: Seq<(usize, u64)>, head: int, u: int, c: int) -> bool {
    exists|q: int| head <= q < queue.len() && #[trigger] queue[q] == (u as usize, c as u64)
}

/// Whether link `l` has been relaxed, or will be: its target stands right of
/// its origin, or the origin waits in the work list with its present column,
/// or the origin is the entry in hand and the link comes later in its scan.
pub open spec fn link_settled(
    src: Seq<usize>,
    dst: Seq<usize>,
    roles: Seq<NodeRole>,
    cols: Seq<u64>,
    queue: Seq<(usize, u64)>,
    head: int,
    hand: Option<(int, int, int)>,
    l: int,
) -> bool {
    let u = src[l] as int;
    let p = dst[l] as int;
    discovered(roles, cols, u) && roles[p] == NodeRole::Processor ==> {
        ||| cols[p] >= next_column(cols[u] as int, cols.len() as int)
        ||| pending(queue, head, u, cols[u] as int)
        ||| (hand matches Some(h) && h.0 == u && h.1 == cols[u] && l >= h.2)
    }
}

/// Whether the column of processor `p` was set from a discovered origin.
pub open spec fn has_witness(
    src: Seq<usize>,
    dst: Seq<usize>,
    roles: Seq<NodeRole>,
    cols: Seq<u64>,
    p: int,
) -> bool {
    exists|l: int|
        0 <= l < src.len() && #[trigger] dst[l] == p && discovered(roles, cols, src[l] as int)
            && cols[p] <= next_column(cols[src[l] as int] as int, cols.len() as int)
}

/// Whether a discovered node of lower rank feeds processor `p`.
pub open spec fn has_ranked_feeder(
    src: Seq<usize>,
    dst: Seq<usize>,
    roles: Seq<NodeRole>,
    cols: Seq<u64>,
    rank: Seq<nat>,
    p: int,
) -> bool {
    exists|l: int|
        0 <= l < src.len() && #[trigger] dst[l] == p && discovered(roles, cols, src[l] as int) && rank[src[l] as int]
            < rank[p]
}

/// Whether every discovered processor has a feeder of lower rank.
pub open spec fn ranks_hold(src: Seq<usize>, dst: Seq<usize>, roles: Seq<NodeRole>, cols: Seq<u64>, rank: Seq<nat>) -> bool {
    &&& rank.len() == roles.len()
    &&& forall|p: int|
        0 <= p < roles.len() && roles[p] == NodeRole::Processor && (#[trigger] cols[p]) > 0 ==> has_ranked_feeder(
            src,
            dst,
            roles,
            cols,
            rank,
            p,
        )
}

/// Sum of all columns: the measure that the relaxation drives up.
pub open spec fn total(cols: Seq<u64>) -> int
    decreases cols.len(),
{
    if cols.len() == 0 {
        0
    } else {
        total(cols.drop_last()) + cols.last()
    }
}

proof fn lemma_total_update(cols: Seq<u64>, i: int, v: u64)
    requires
        0 <= i < cols.len(),
    ensures
        total(cols.update(i, v)) == total(cols) - cols[i] + v,
    decreases cols.len(),
{
    let next = cols.update(i, v);
    if i == cols.len() - 1 {
        assert(next.drop_last() =~= cols.drop_last());
    } else {
        lemma_total_update(cols.drop_last(), i, v);
        assert(next.drop_last() =~= cols.drop_last().update(i, v));
    }
}

proof fn lemma_total_bound(cols: Seq<u64>, cap: int)
    requires
        forall|i: int| 0 <= i < cols.len() ==> cols[i] <= cap,
        0 <= cap,
    ensures
        0 <= total(cols) <= cols.len() * cap,
    decreases cols.len(),
{
    if cols.len() > 0 {
        lemma_total_bound(cols.drop_last(), cap);
        assert((cols.len() - 1) * cap + cap == cols.len() * cap) by (nonlinear_arith);
    }
}

/// The state that the relaxation keeps between two steps.
pub open spec fn relaxation_state(
    src: Seq<usize>,
    dst: Seq<usize>,
    roles: Seq<NodeRole>,
    cols: Seq<u64>,
    queue: Seq<(usize, u64)>,
    head: int,
    hand: Option<(int, int, int)>,
) -> bool {
    let n = roles.len();
    &&& cols.len() == n
    &&& src.len() == dst.len()
    &&& n <= 0x1_0000_0000
    &&& 0 <= head <= queue.len()
    &&& forall|l: int| 0 <= l < src.len() ==> (#[trigger] src[l]) < n && roles[src[l] as int] != NodeRole::Sink
    &&& forall|l: int| 0 <= l < dst.len() ==> (#[trigger] dst[l]) < n
    &&& forall|i: int| 0 <= i < n ==> (#[trigger] cols[i]) <= n
    &&& forall|i: int| 0 <= i < n && roles[i] != NodeRole::Processor ==> (#[trigger] cols[i]) == 0
    &&& forall|q: int|
        0 <= q < queue.len() ==> (#[trigger] queue[q]).0 < n && discovered(roles, cols, queue[q].0 as int)
            && queue[q].1 <= cols[queue[q].0 as int]
    &&& forall|p: int|
        0 <= p < n && roles[p] == NodeRole::Processor && (#[trigger] cols[p]) > 0 ==> has_witness(
            src,
            dst,
            roles,
            cols,
            p,
        )
    &&& forall|l: int|
        0 <= l < src.len() ==> #[trigger] link_settled(src, dst, roles, cols, queue, head, hand, l)
}

/// Relaxes the links that leave entry `u`, taken from the work list with
/// column `c`: each processor that they reach moves right of `c` unless it
/// stands there already, and joins the work list when it moved. No column
/// ever decreases.
fn relax_targets(
    src: &Vec<usize>,
    dst: &Vec<usize>,
    roles: &Vec<NodeRole>,
    cols: &mut Vec<u64>,
    queue: &mut Vec<(usize, u64)>,
    head: usize,
    u: usize,
    c: u64,
    Ghost(rank): Ghost<Seq<nat>>,
) -> (next_rank: Ghost<Seq<nat>>)
    requires
        relaxation_state(src@, dst@, roles@, old(cols)@, old(queue)@, head as int, Some((u as int, c as int, 0int))),
        u < roles.len(),
        discovered(roles@, old(cols)@, u as int),
        c <= old(cols)@[u as int],
        ranks_hold(src@, dst@, roles@, old(cols)@, rank),
    ensures
        ranks_hold(src@, dst@, roles@, final(cols)@, next_rank@),
        relaxation_state(src@, dst@, roles@, final(cols)@, final(queue)@, head as int, None),
        forall|i: int| 0 <= i < roles.len() ==> final(cols)@[i] >= old(cols)@[i],
        total(final(cols)@) >= total(old(cols)@),
        total(final(cols)@) == total(old(cols)@) ==> final(queue)@ == old(queue)@,
        final(queue)@.len() >= old(queue)@.len(),
{
    let n: usize = roles.len();
    let ghost mut ranks: Seq<nat> = rank;
    let mut l: usize = 0;
    while l < src.len()
        invariant
            l <= src.len(),
            n == roles.len(),
            u < n,
            ranks_hold(src@, dst@, roles@, cols@, ranks),
            relaxation_state(src@, dst@, roles@, cols@, queue@, head as int, Some((u as int, c as int, l as int))),
            discovered(roles@, cols@, u as int),
            c <= cols@[u as int],
            forall|i: int| 0 <= i < n ==> cols@[i] >= old(cols)@[i],
            total(cols@) >= total(old(cols)@),
            total(cols@) == total(old(cols)@) ==> queue@ == old(queue)@,
            queue@.len() >= old(queue)@.len(),
        decreases src.len() - l,
    {
        let ghost cols0 = cols@;
        let ghost queue0 = queue@;
        let ghost hand0 = Some((u as int, c as int, l as int));
        let ghost hand1 = Some((u as int, c as int, l + 1));
        let p: usize = dst[l];
        let mut moved = false;
        if src[l] == u && matches!(roles[p], NodeRole::Processor) {
            let next: u64 = if c + 1 < n as u64 {
                c + 1
            } else {
                n as u64
            };
            if next > cols[p] {
                cols.set(p, next);
                queue.push((p, next));
                moved = true;
                proof {
                    let before_ranks = ranks;
                    if cols0[p as int] == 0 {
                        ranks = ranks.update(p as int, ranks[u as int] + 1);
                    }
                    lemma_rank_step(src@, dst@, roles@, cols0, before_ranks, l as int, next);
                    lemma_total_update(cols0, p as int, next);
                    assert(cols@ == cols0.update(p as int, next));
                    assert(queue@ == queue0.push((p, next)));
                    let last = queue0.len() as int;
                    assert(queue@[last] == (p, next));
                    assert(pending(queue@, head as int, p as int, next as int));
                    // every discovered entry stays discovered
                    assert forall|i: int| 0 <= i < n && discovered(roles@, cols0, i) implies discovered(
                        roles@,
                        cols@,
                        i,
                    ) by {}
                    assert forall|q: int| 0 <= q < queue@.len() implies (#[trigger] queue@[q]).0 < n
                        && discovered(roles@, cols@, queue@[q].0 as int) && queue@[q].1 <= cols@[queue@[q].0 as int] by {
                        if q < last {
                            assert(queue@[q] == queue0[q]);
                        }
                    }
                    assert forall|t: int|
                        0 <= t < n && roles@[t] == NodeRole::Processor && (#[trigger] cols@[t]) > 0 implies has_witness(
                        src@,
                        dst@,
                        roles@,
                        cols@,
                        t,
                    ) by {
                        if t == p {
                            assert(dst@[l as int] == p);
                            assert(discovered(roles@, cols@, src@[l as int] as int));
                        } else {
                            assert(cols0[t] > 0);
                            assert(has_witness(src@, dst@, roles@, cols0, t));
                            let w = choose|w: int|
                                0 <= w < src@.len() && #[trigger] dst@[w] == t && discovered(
                                    roles@,
                                    cols0,
                                    src@[w] as int,
                                ) && cols0[t] <= next_column(cols0[src@[w] as int] as int, cols0.len() as int);
                            assert(dst@[w] == t && discovered(roles@, cols@, src@[w] as int));
                        }
                    }
                    assert forall|k: int| 0 <= k < src@.len() implies #[trigger] link_settled(
                        src@,
                        dst@,
                        roles@,
                        cols@,
                        queue@,
                        head as int,
                        hand1,
                        k,
                    ) by {
                        let a = src@[k] as int;
                        let b = dst@[k] as int;
                        assert(link_settled(src@, dst@, roles@, cols0, queue0, head as int, hand0, k));
                        if discovered(roles@, cols@, a) && roles@[b] == NodeRole::Processor {
                            if a == p {
                            } else if discovered(roles@, cols0, a) {
                                if cols0[b] >= next_column(cols0[a] as int, cols0.len() as int) {
                                } else if pending(queue0, head as int, a, cols0[a] as int) {
                                    let q = choose|q: int|
                                        head <= q < queue0.len() && #[trigger] queue0[q] == (
                                            a as usize,
                                            cols0[a] as u64,
                                        );
                                    assert(queue@[q] == queue0[q]);
                                } else {
                                    if k == l {
                                        assert(b == p);
                                    }
                                }
                            }
                        }
                    }
                }
            }
        }
        proof {
            if !moved {
                assert forall|k: int| 0 <= k < src@.len() implies #[trigger] link_settled(
                    src@,
                    dst@,
                    roles@,
                    cols@,
                    queue@,
                    head as int,
                    hand1,
                    k,
                ) by {
                    assert(link_settled(src@, dst@, roles@, cols0, queue0, head as int, hand0, k));
                }
            }
        }
        l += 1;
    }
    proof {
        let hand_end = Some((u as int, c as int, l as int));
        assert forall|k: int| 0 <= k < src@.len() implies #[trigger] link_settled(
            src@,
            dst@,
            roles@,
            cols@,
            queue@,
            head as int,
            None,
            k,
        ) by {
            assert(link_settled(src@, dst@, roles@, cols@, queue@, head as int, hand_end, k));
        }
    }
    Ghost(ranks)
}

/// A processor that moves right keeps its rank if it was discovered, and
/// else takes a rank above that of the node it was discovered from; either
/// way every discovered processor has a feeder of lower rank.
proof fn lemma_rank_step(
    src: Seq<usize>,
    dst: Seq<usize>,
    roles: Seq<NodeRole>,
    cols: Seq<u64>,
    rank: Seq<nat>,
    l: int,
    next: u64,
)
    requires
        0 <= l < src.len(),
        src.len() == dst.len(),
        cols.len() == roles.len(),
        src[l] < roles.len(),
        dst[l] < roles.len(),
        roles[dst[l] as int] == NodeRole::Processor,
        discovered(roles, cols, src[l] as int),
        next > cols[dst[l] as int],
        forall|k: int| 0 <= k < src.len() ==> (#[trigger] src[k]) < roles.len(),
        ranks_hold(src, dst, roles, cols, rank),
    ensures
        ranks_hold(
            src,
            dst,
            roles,
            cols.update(dst[l] as int, next),
            if cols[dst[l] as int] == 0 {
                rank.update(dst[l] as int, rank[src[l] as int] + 1)
            } else {
                rank
            },
        ),
{
    let p = dst[l] as int;
    let u = src[l] as int;
    let after = cols.update(p, next);
    let ranks = if cols[p] == 0 {
        rank.update(p, rank[u] + 1)
    } else {
        rank
    };
    assert forall|t: int| 0 <= t < roles.len() && roles[t] == NodeRole::Processor && (#[trigger] after[t]) > 0 implies has_ranked_feeder(
        src,
        dst,
        roles,
        after,
        ranks,
        t,
    ) by {
        if t == p && cols[p] == 0 {
            assert(u != p);
            assert(dst[l] == p && discovered(roles, after, src[l] as int) && ranks[src[l] as int] < ranks[p]);
        } else {
            assert(cols[t] > 0);
            assert(has_ranked_feeder(src, dst, roles, cols, rank, t));
            let w = choose|w: int|
                0 <= w < src.len() && #[trigger] dst[w] == t && discovered(roles, cols, src[w] as int) && rank[src[w] as int]
                    < rank[t];
            assert(dst[w] == t && discovered(roles, after, src[w] as int) && ranks[src[w] as int] < ranks[t]);
        }
    }
}

/// Entries that agree on roles, and on the columns of all but the sinks,
/// have the same largest inner column.
proof fn lemma_inner_max_ignores_sinks(a: Seq<ColumnEntry>, b: Seq<ColumnEntry>)
    requires
        a.len() == b.len(),
        forall|i: int| 0 <= i < a.len() ==> a[i].role == b[i].role,
        forall|i: int| 0 <= i < a.len() && a[i].role != NodeRole::Sink ==> a[i].column == b[i].column,
    ensures
        inner_max(a) == inner_max(b),
    decreases a.len(),
{
    if a.len() > 0 {
        lemma_inner_max_ignores_sinks(a.drop_last(), b.drop_last());
    }
}

/// The role of every id of the list.
fn roles_of(links: &Vec<Link>, ids: &Vec<u32>) -> (roles: Vec<NodeRole>)
    ensures
        roles.len() == ids.len(),
        forall|i: int| 0 <= i < ids.len() ==> roles@[i] == role_of(links@, ids@[i]),
{
    let mut roles: Vec<NodeRole> = Vec::new();
    let mut i: usize = 0;
    while i < ids.len()
        invariant
            i <= ids.len(),
            roles.len() == i,
            forall|j: int| 0 <= j < i ==> roles@[j] == role_of(links@, ids@[j]),
        decreases ids.len() - i,
    {
        roles.push(classify(links, ids[i]));
        i += 1;
    }
    roles
}

/// For every link, the places of its two ends in the list of ids.
pub fn endpoint_indices(links: &Vec<Link>, ids: &Vec<u32>) -> (ends: (Vec<usize>, Vec<usize>))
    requires
        forall|x: u32| ids@.contains(x) <==> is_connected(links@, x),
    ensures
        ends.0.len() == links.len(),
        ends.1.len() == links.len(),
        forall|l: int|
            0 <= l < links.len() ==> (#[trigger] ends.0@[l]) < ids.len() && ids@[ends.0@[l] as int]
                == links@[l].output_node,
        forall|l: int|
            0 <= l < links.len() ==> (#[trigger] ends.1@[l]) < ids.len() && ids@[ends.1@[l] as int]
                == links@[l].input_node,
{
    let mut src: Vec<usize> = Vec::new();
    let mut dst: Vec<usize> = Vec::new();
    let mut l: usize = 0;
    while l < links.len()
        invariant
            l <= links.len(),
            src.len() == l,
            dst.len() == l,
            forall|x: u32| ids@.contains(x) <==> is_connected(links@, x),
            forall|k: int|
                0 <= k < l ==> (#[trigger] src@[k]) < ids.len() && ids@[src@[k] as int]
                    == links@[k].output_node,
            forall|k: int|
                0 <= k < l ==> (#[trigger] dst@[k]) < ids.len() && ids@[dst@[k] as int]
                    == links@[k].input_node,
        decreases links.len() - l,
    {
        let link = links[l];
        assert(links@[l as int].output_node == link.output_node);
        assert(is_connected(links@, link.output_node));
        assert(is_connected(links@, link.input_node));
        let from = match index_of(ids, link.output_node) {
            Some(i) => i,
            None => 0,
        };
        let to = match index_of(ids, link.input_node) {
            Some(i) => i,
            None => 0,
        };
        src.push(from);
        dst.push(to);
        l += 1;
    }
    (src, dst)
}

/// Whether the target of link `l` stands right of its origin, where the
/// origin was discovered and the target is a processor.
pub open spec fn relaxed(src: Seq<usize>, dst: Seq<usize>, roles: Seq<NodeRole>, cols: Seq<u64>, l: int) -> bool {
    discovered(roles, cols, src[l] as int) && roles[dst[l] as int] == NodeRole::Processor ==> cols[dst[l] as int]
        >= next_column(cols[src[l] as int] as int, cols.len() as int)
}

/// What holds when the work list has run empty.
pub open spec fn relaxation_done(src: Seq<usize>, dst: Seq<usize>, roles: Seq<NodeRole>, cols: Seq<u64>) -> bool {
    let n = roles.len();
    &&& cols.len() == n
    &&& src.len() == dst.len()
    &&& forall|i: int| 0 <= i < n ==> (#[trigger] cols[i]) <= n
    &&& forall|i: int| 0 <= i < n && roles[i] != NodeRole::Processor ==> (#[trigger] cols[i]) == 0
    &&& forall|p: int|
        0 <= p < n && roles[p] == NodeRole::Processor && (#[trigger] cols[p]) > 0 ==> has_witness(
            src,
            dst,
            roles,
            cols,
            p,
        )
    &&& forall|l: int| 0 <= l < src.len() ==> #[trigger] relaxed(src, dst, roles, cols, l)
}

/// Runs the relaxation from the sources until no link is left to relax.
fn relax_all(src: &Vec<usize>, dst: &Vec<usize>, roles: &Vec<NodeRole>) -> (r: (Vec<u64>, Ghost<Seq<nat>>))
    requires
        roles.len() <= 0x1_0000_0000,
        src.len() == dst.len(),
        forall|l: int| 0 <= l < src.len() ==> (#[trigger] src@[l]) < roles.len() && roles@[src@[l] as int] != NodeRole::Sink,
        forall|l: int| 0 <= l < dst.len() ==> (#[trigger] dst@[l]) < roles.len(),
    ensures
        relaxation_done(src@, dst@, roles@, r.0@),
        ranks_hold(src@, dst@, roles@, r.0@, r.1@),
{
    let n: usize = roles.len();
    let mut cols: Vec<u64> = Vec::new();
    let mut queue: Vec<(usize, u64)> = Vec::new();
    let mut i: usize = 0;
    while i < n
        invariant
            i <= n,
            n == roles.len(),
            cols.len() == i,
            forall|j: int| 0 <= j < i ==> cols@[j] == 0,
            forall|q: int| 0 <= q < queue.len() ==> (#[trigger] queue@[q]).0 < i && roles@[queue@[q].0 as int] == NodeRole::Source && queue@[q].1 == 0,
            forall|j: int| 0 <= j < i && roles@[j] == NodeRole::Source ==> pending(queue@, 0, j, 0),
        decreases n - i,
    {
        cols.push(0);
        if matches!(roles[i], NodeRole::Source) {
            let ghost queue0 = queue@;
            queue.push((i, 0));
            proof {
                assert(queue@[queue0.len() as int] == (i, 0u64));
                assert forall|j: int| 0 <= j < i + 1 && roles@[j] == NodeRole::Source implies pending(
                    queue@,
                    0,
                    j,
                    0,
                ) by {
                    if j < i {
                        let q = choose|q: int| 0 <= q < queue0.len() && #[trigger] queue0[q] == (j as usize, 0u64);
                        assert(queue@[q] == queue0[q]);
                    }
                }
            }
        }
        i += 1;
    }
    let mut head: usize = 0;
    let ghost mut rank: Seq<nat> = Seq::new(n as nat, |i: int| 0nat);
    proof {
        assert forall|l: int| 0 <= l < src@.len() implies #[trigger] link_settled(
            src@,
            dst@,
            roles@,
            cols@,
            queue@,
            0,
            None,
            l,
        ) by {}
        lemma_total_bound(cols@, n as int);
    }
    while head < queue.len()
        invariant
            n == roles.len(),
            ranks_hold(src@, dst@, roles@, cols@, rank),
            relaxation_state(src@, dst@, roles@, cols@, queue@, head as int, None),
        decreases n * n - total(cols@), queue.len() - head,
    {
        let entry = queue[head];
        let u: usize = entry.0;
        let c: u64 = entry.1;
        let ghost cols0 = cols@;
        let ghost queue0 = queue@;
        proof {
            lemma_total_bound(cols@, n as int);
            assert forall|l: int| 0 <= l < src@.len() implies #[trigger] link_settled(
                src@,
                dst@,
                roles@,
                cols@,
                queue@,
                head + 1,
                Some((u as int, c as int, 0int)),
                l,
            ) by {
                assert(link_settled(src@, dst@, roles@, cols@, queue@, head as int, None, l));
                let a = src@[l] as int;
                if pending(queue@, head as int, a, cols@[a] as int) {
                    let q = choose|q: int| head <= q < queue@.len() && #[trigger] queue@[q] == (a as usize, cols@[a] as u64);
                    if q == head {
                    } else {
                        assert(head + 1 <= q);
                    }
                }
            }
        }
        head += 1;
        let next_rank = relax_targets(src, dst, roles, &mut cols, &mut queue, head, u, c, Ghost(rank));
        proof {
            rank = next_rank@;
            lemma_total_bound(cols@, n as int);
        }
    }
    proof {
        assert forall|l: int| 0 <= l < src@.len() implies #[trigger] relaxed(src@, dst@, roles@, cols@, l) by {
            assert(link_settled(src@, dst@, roles@, cols@, queue@, head as int, None, l));
        }
    }
    (cols, Ghost(rank))
}

/// The entry of position `j`, once the relaxation is over and `most` is the
/// largest column among sources and processors.
pub open spec fn entry_for(ids: Seq<u32>, roles: Seq<NodeRole>, cols: Seq<u64>, most: int, j: int) -> ColumnEntry {
    ColumnEntry {
        id: ids[j],
        role: roles[j],
        column: if roles[j] == NodeRole::Sink {
            (most + 1) as u64
        } else if roles[j] == NodeRole::Processor && cols[j] == 0 {
            1u64
        } else {
            cols[j]
        },
        reached: roles[j] != NodeRole::Sink && discovered(roles, cols, j),
    }
}

/// Turns the relaxed columns into the table of entries.
fn build_plan(ids: &Vec<u32>, roles: &Vec<NodeRole>, cols: &Vec<u64>) -> (plan: Vec<ColumnEntry>)
    requires
        ids.len() == roles.len(),
        ids.len() == cols.len(),
        ids.len() <= 0x1_0000_0000,
        forall|j: int| 0 <= j < cols.len() ==> (#[trigger] cols@[j]) <= cols.len(),
    ensures
        plan.len() == ids.len(),
        forall|j: int|
            0 <= j < ids.len() ==> (#[trigger] plan@[j]) == entry_for(ids@, roles@, cols@, inner_max(plan@), j),
        0 <= inner_max(plan@) <= ids.len(),
        forall|j: int| 0 <= j < ids.len() ==> (#[trigger] plan@[j]).column <= ids.len() + 1,
{
    let n: usize = ids.len();
    let mut most: u64 = 0;
    let mut plan: Vec<ColumnEntry> = Vec::new();
    let mut i: usize = 0;
    while i < n
        invariant
            i <= n,
            n == ids.len(),
            n == roles.len(),
            n == cols.len(),
            n <= 0x1_0000_0000,
            plan.len() == i,
            most == inner_max(plan@),
            most <= n,
            forall|j: int| 0 <= j < n ==> (#[trigger] cols@[j]) <= n,
            forall|j: int|
                0 <= j < i ==> (#[trigger] plan@[j]).role == roles@[j] && (roles@[j] != NodeRole::Sink
                    ==> plan@[j] == entry_for(ids@, roles@, cols@, 0, j)) && (roles@[j]
                    == NodeRole::Sink ==> plan@[j] == (ColumnEntry {
                    column: 0,
                    ..entry_for(ids@, roles@, cols@, 0, j)
                })),
        decreases n - i,
    {
        let role = roles[i];
        let found: bool = match role {
            NodeRole::Source => true,
            NodeRole::Processor => cols[i] > 0,
            _ => false,
        };
        let column: u64 = match role {
            NodeRole::Sink => 0,
            NodeRole::Processor => if cols[i] == 0 {
                1
            } else {
                cols[i]
            },
            _ => cols[i],
        };
        let ghost before = plan@;
        plan.push(ColumnEntry { id: ids[i], role, column, reached: found });
        assert(plan@.drop_last() =~= before);
        assert(n >= 1);
        if !matches!(role, NodeRole::Sink) && column > most {
            most = column;
        }
        i += 1;
    }
    let ghost inner = plan@;
    let mut k: usize = 0;
    while k < n
        invariant
            k <= n,
            n == plan.len(),
            n == inner.len(),
            n == ids.len(),
            n == roles.len(),
            n == cols.len(),
            most <= n,
            n <= 0x1_0000_0000,
            forall|j: int| 0 <= j < n ==> (#[trigger] inner[j]).role == roles@[j],
            forall|j: int| 0 <= j < n ==> (#[trigger] plan@[j]).role == inner[j].role,
            forall|j: int| 0 <= j < n && roles@[j] != NodeRole::Sink ==> (#[trigger] plan@[j]) == inner[j],
            forall|j: int| k <= j < n ==> (#[trigger] plan@[j]) == inner[j],
            forall|j: int|
                0 <= j < n && roles@[j] == NodeRole::Sink ==> (#[trigger] inner[j]) == (ColumnEntry {
                    column: 0,
                    ..entry_for(ids@, roles@, cols@, 0, j)
                }),
            forall|j: int|
                0 <= j < k && roles@[j] == NodeRole::Sink ==> (#[trigger] plan@[j]) == entry_for(
                    ids@,
                    roles@,
                    cols@,
                    most as int,
                    j,
                ),
        decreases n - k,
    {
        let e = plan[k];
        if matches!(e.role, NodeRole::Sink) {
            plan.set(k, ColumnEntry { id: e.id, role: e.role, column: most + 1, reached: e.reached });
        }
        k += 1;
    }
    proof {
        lemma_inner_max_ignores_sinks(inner, plan@);
    }
    plan
}

/// Two places of an ascending list that hold the same id are one place.
proof fn lemma_one_place(ids: Seq<u32>, a: int, b: int)
    requires
        strictly_ascending(ids),
        0 <= a < ids.len(),
        0 <= b < ids.len(),
        ids[a] == ids[b],
    ensures
        a == b,
{
    reveal(strictly_ascending);
    if a < b {
        assert(ids[a] < ids[b]);
    } else if b < a {
        assert(ids[b] < ids[a]);
    }
}

/// A reached processor stands exactly one column right of some reached node
/// that feeds it.
proof fn lemma_reached_has_feeder(
    links: Seq<Link>,
    ids: Seq<u32>,
    src: Seq<usize>,
    dst: Seq<usize>,
    roles: Seq<NodeRole>,
    cols: Seq<u64>,
    plan: Seq<ColumnEntry>,
    i: int,
) -> (w: (int, int))
    requires
        ids.len() == roles.len(),
        plan.len() == ids.len(),
        src.len() == links.len(),
        forall|l: int| 0 <= l < links.len() ==> (#[trigger] src[l]) < ids.len() && ids[src[l] as int] == links[l].output_node,
        forall|l: int| 0 <= l < links.len() ==> (#[trigger] dst[l]) < ids.len() && ids[dst[l] as int] == links[l].input_node,
        relaxation_done(src, dst, roles, cols),
        forall|j: int| 0 <= j < ids.len() ==> (#[trigger] plan[j]) == entry_for(ids, roles, cols, inner_max(plan), j),
        0 <= i < ids.len(),
        plan[i].role == NodeRole::Processor,
        plan[i].reached,
    ensures
        joins(links, plan, w.0, w.1, i),
        plan[w.1].reached,
        plan[i].column == next_column(plan[w.1].column as int, plan.len() as int),
{
    assert(plan[i] == entry_for(ids, roles, cols, inner_max(plan), i));
    assert(cols[i] > 0);
    assert(has_witness(src, dst, roles, cols, i));
    let l = choose|l: int|
        0 <= l < src.len() && #[trigger] dst[l] == i && discovered(roles, cols, src[l] as int) && cols[i]
            <= next_column(cols[src[l] as int] as int, cols.len() as int);
    let u = src[l] as int;
    assert(relaxed(src, dst, roles, cols, l));
    assert(plan[u] == entry_for(ids, roles, cols, inner_max(plan), u));
    (l, u)
}

/// A processor that a reached node feeds is reached and stands right of it.
proof fn lemma_fed_is_right(
    links: Seq<Link>,
    ids: Seq<u32>,
    src: Seq<usize>,
    dst: Seq<usize>,
    roles: Seq<NodeRole>,
    cols: Seq<u64>,
    plan: Seq<ColumnEntry>,
    i: int,
    l: int,
    u: int,
)
    requires
        strictly_ascending(ids),
        ids.len() == roles.len(),
        plan.len() == ids.len(),
        src.len() == links.len(),
        forall|l: int| 0 <= l < links.len() ==> (#[trigger] src[l]) < ids.len() && ids[src[l] as int] == links[l].output_node,
        forall|l: int| 0 <= l < links.len() ==> (#[trigger] dst[l]) < ids.len() && ids[dst[l] as int] == links[l].input_node,
        relaxation_done(src, dst, roles, cols),
        forall|j: int| 0 <= j < ids.len() ==> (#[trigger] plan[j]) == entry_for(ids, roles, cols, inner_max(plan), j),
        joins(links, plan, l, u, i),
        plan[i].role == NodeRole::Processor,
        plan[u].reached,
    ensures
        plan[i].reached,
        plan[i].column >= next_column(plan[u].column as int, plan.len() as int),
{
    assert(plan[i] == entry_for(ids, roles, cols, inner_max(plan), i));
    assert(plan[u] == entry_for(ids, roles, cols, inner_max(plan), u));
    let a = src[l] as int;
    let b = dst[l] as int;
    lemma_one_place(ids, a, u);
    lemma_one_place(ids, b, i);
    assert(relaxed(src, dst, roles, cols, l));
}

/// The table built from a finished relaxation gives every entry the column
/// of its role.
proof fn lemma_plan_by_role(
    links: Seq<Link>,
    ids: Seq<u32>,
    roles: Seq<NodeRole>,
    cols: Seq<u64>,
    plan: Seq<ColumnEntry>,
)
    requires
        ids.len() == roles.len(),
        plan.len() == ids.len(),
        cols.len() == ids.len(),
        forall|i: int| 0 <= i < ids.len() ==> roles[i] == role_of(links, ids[i]),
        forall|i: int| 0 <= i < ids.len() ==> (#[trigger] cols[i]) <= ids.len(),
        forall|i: int| 0 <= i < ids.len() && roles[i] != NodeRole::Processor ==> (#[trigger] cols[i]) == 0,
        forall|j: int| 0 <= j < ids.len() ==> (#[trigger] plan[j]) == entry_for(ids, roles, cols, inner_max(plan), j),
        0 <= inner_max(plan) <= ids.len(),
        ids.len() <= 0x1_0000_0000,
    ensures
        roles_follow_links(links, plan),
        columns_by_role(plan),
{
    assert forall|i: int| 0 <= i < plan.len() implies (#[trigger] plan[i]).role == role_of(links, plan[i].id) by {
        assert(plan[i] == entry_for(ids, roles, cols, inner_max(plan), i));
    }
}

/// The table built from a finished relaxation places the processors by the
/// nodes that feed them.
proof fn lemma_plan_by_feeders(
    links: Seq<Link>,
    ids: Seq<u32>,
    src: Seq<usize>,
    dst: Seq<usize>,
    roles: Seq<NodeRole>,
    cols: Seq<u64>,
    plan: Seq<ColumnEntry>,
)
    requires
        strictly_ascending(ids),
        ids.len() == roles.len(),
        plan.len() == ids.len(),
        src.len() == links.len(),
        forall|l: int| 0 <= l < links.len() ==> (#[trigger] src[l]) < ids.len() && ids[src[l] as int] == links[l].output_node,
        forall|l: int| 0 <= l < links.len() ==> (#[trigger] dst[l]) < ids.len() && ids[dst[l] as int] == links[l].input_node,
        relaxation_done(src, dst, roles, cols),
        forall|j: int| 0 <= j < ids.len() ==> (#[trigger] plan[j]) == entry_for(ids, roles, cols, inner_max(plan), j),
    ensures
        reached_are_fed(links, plan),
        fed_stand_right(links, plan),
{
    let cap = ids.len() as int;
    assert forall|i: int|
        0 <= i < plan.len() && (#[trigger] plan[i]).role == NodeRole::Processor && plan[i].reached implies exists|
        l: int,
        u: int,
    | #[trigger]
        joins(links, plan, l, u, i) && plan[u].reached && plan[i].column == next_column(
            plan[u].column as int,
            cap,
        ) by {
        let w = lemma_reached_has_feeder(links, ids, src, dst, roles, cols, plan, i);
        assert(joins(links, plan, w.0, w.1, i));
    }
    assert forall|i: int, l: int, u: int|
        #[trigger] joins(links, plan, l, u, i) && plan[i].role == NodeRole::Processor
            && plan[u].reached implies plan[i].reached && plan[i].column >= next_column(
        plan[u].column as int,
        cap,
    ) by {
        lemma_fed_is_right(links, ids, src, dst, roles, cols, plan, i, l, u);
    }
}

/// The table built from a finished relaxation counts as reached only what
/// can be walked back to a source.
proof fn lemma_plan_by_ranks(
    links: Seq<Link>,
    ids: Seq<u32>,
    src: Seq<usize>,
    dst: Seq<usize>,
    roles: Seq<NodeRole>,
    cols: Seq<u64>,
    plan: Seq<ColumnEntry>,
    rank: Seq<nat>,
)
    requires
        ids.len() == roles.len(),
        plan.len() == ids.len(),
        src.len() == links.len(),
        forall|l: int| 0 <= l < links.len() ==> (#[trigger] src[l]) < ids.len() && ids[src[l] as int] == links[l].output_node,
        forall|l: int| 0 <= l < links.len() ==> (#[trigger] dst[l]) < ids.len() && ids[dst[l] as int] == links[l].input_node,
        cols.len() == ids.len(),
        dst.len() == links.len(),
        ranks_hold(src, dst, roles, cols, rank),
        forall|j: int| 0 <= j < ids.len() ==> (#[trigger] plan[j]) == entry_for(ids, roles, cols, inner_max(plan), j),
    ensures
        reached_from_sources(links, plan),
{
    assert forall|i: int|
        0 <= i < plan.len() && (#[trigger] plan[i]).role == NodeRole::Processor && plan[i].reached implies exists|
        l: int,
        u: int,
    | #[trigger] joins(links, plan, l, u, i) && plan[u].reached && rank[u] < rank[i] by {
        let w = lemma_reached_has_ranked_feeder(links, ids, src, dst, roles, cols, plan, rank, i);
        assert(joins(links, plan, w.0, w.1, i));
    }
    assert(ranks_descend(links, plan, rank)) by {
        reveal(ranks_descend);
    }
}

/// A reached processor is fed by a reached node of lower rank.
proof fn lemma_reached_has_ranked_feeder(
    links: Seq<Link>,
    ids: Seq<u32>,
    src: Seq<usize>,
    dst: Seq<usize>,
    roles: Seq<NodeRole>,
    cols: Seq<u64>,
    plan: Seq<ColumnEntry>,
    rank: Seq<nat>,
    i: int,
) -> (w: (int, int))
    requires
        ids.len() == roles.len(),
        plan.len() == ids.len(),
        src.len() == links.len(),
        forall|l: int| 0 <= l < links.len() ==> (#[trigger] src[l]) < ids.len() && ids[src[l] as int] == links[l].output_node,
        forall|l: int| 0 <= l < links.len() ==> (#[trigger] dst[l]) < ids.len() && ids[dst[l] as int] == links[l].input_node,
        cols.len() == ids.len(),
        dst.len() == links.len(),
        ranks_hold(src, dst, roles, cols, rank),
        forall|j: int| 0 <= j < ids.len() ==> (#[trigger] plan[j]) == entry_for(ids, roles, cols, inner_max(plan), j),
        0 <= i < ids.len(),
        plan[i].role == NodeRole::Processor,
        plan[i].reached,
    ensures
        joins(links, plan, w.0, w.1, i),
        plan[w.1].reached,
        rank[w.1] < rank[i],
{
    assert(plan[i] == entry_for(ids, roles, cols, inner_max(plan), i));
    assert(cols[i] > 0);
    assert(has_ranked_feeder(src, dst, roles, cols, rank, i));
    let l = choose|l: int|
        0 <= l < src.len() && #[trigger] dst[l] == i && discovered(roles, cols, src[l] as int) && rank[src[l] as int]
            < rank[i];
    let u = src[l] as int;
    assert(plan[u] == entry_for(ids, roles, cols, inner_max(plan), u));
    (l, u)
}

/// Assigns a column to every linked node.
///
/// `ids` are the ids that the links mention, ascending. Sources start in
/// column 0; the relaxation walks the links forward from them and moves each
/// processor right of the nodes that feed it; what it did not reach goes to
/// column 1; sinks go one column right of all others.
pub fn assign_columns(links: &Vec<Link>, ids: &Vec<u32>) -> (plan: Vec<ColumnEntry>)
    requires
        strictly_ascending(ids@),
        forall|x: u32| ids@.contains(x) <==> is_connected(links@, x),
    ensures
        plan.len() == ids.len(),
        forall|i: int| 0 <= i < ids.len() ==> (#[trigger] plan@[i]).id == ids@[i],
        columns_follow_links(links@, plan@),
        forall|i: int| 0 <= i < ids.len() ==> (#[trigger] plan@[i]).column <= ids.len() + 1,
        ids.len() <= 0x1_0000_0000,
{
    proof {
        lemma_ascending_is_short(ids@);
    }
    let roles = roles_of(links, ids);
    let ends = endpoint_indices(links, ids);
    let src = ends.0;
    let dst = ends.1;
    proof {
        assert forall|l: int| 0 <= l < src@.len() implies (#[trigger] src@[l]) < roles.len() && roles@[src@[l] as int]
            != NodeRole::Sink by {
            assert(links@[l].output_node == ids@[src@[l] as int]);
        }
    }
    let relaxed = relax_all(&src, &dst, &roles);
    let cols = relaxed.0;
    let plan = build_plan(ids, &roles, &cols);
    proof {
        lemma_plan_by_role(links@, ids@, roles@, cols@, plan@);
        lemma_plan_by_feeders(links@, ids@, src@, dst@, roles@, cols@, plan@);
        lemma_plan_by_ranks(links@, ids@, src@, dst@, roles@, cols@, plan@, relaxed.1@);
    }
    plan
}

} // verus!
