//! Vertical slot search inside one layout column.
//!
//! A column holds `(y, height)` slots. A new node asks for a desired `y`; the
//! search answers with the nearest free `y` that keeps a gap to every slot.

use vstd::prelude::*;
use crate::graph::Graph;
use crate::units::{in_range, COORD_MAX};

verus! {

/// Smallest distance between two probes of the search.
pub const MIN_SEARCH_STEP: i64 = 5_000;

/// Number of probe distances tried before the node is stacked at the bottom.
pub const PROBE_LIMIT: i64 = 500;

/// Whether a node at `y` comes closer than `gap` to the slot `(slot_y, slot_h)`.
pub open spec fn overlaps(y: int, height: int, slot_y: int, slot_h: int, gap: int) -> bool {
    y < slot_y + slot_h + gap && y + height + gap > slot_y
}

/// Whether a node at `y` comes closer than `gap` to any slot.
pub open spec fn hits_any(y: int, height: int, slots: Seq<(i64, i64)>, gap: int) -> bool {
    exists|i: int|
        0 <= i < slots.len() && #[trigger] overlaps(
            y,
            height,
            slots[i].0 as int,
            slots[i].1 as int,
            gap,
        )
}

/// Whether `y` is an acceptable place: in bounds and clear of every slot.
pub open spec fn is_free(y: int, height: int, slots: Seq<(i64, i64)>, gap: int, min_y: int) -> bool {
    y >= min_y && !hits_any(y, height, slots, gap)
}

/// Distance between probes: half the gap, at least `MIN_SEARCH_STEP`.
pub open spec fn search_step(gap: int) -> int {
    if gap / 2 > MIN_SEARCH_STEP {
        gap / 2
    } else {
        MIN_SEARCH_STEP as int
    }
}

/// The place just below the lowest slot, and never above `min_y`.
pub open spec fn stack_below(slots: Seq<(i64, i64)>, gap: int, min_y: int) -> int
    decreases slots.len(),
{
    if slots.len() == 0 {
        min_y
    } else {
        let rest = stack_below(slots.drop_last(), gap, min_y);
        let below = slots.last().0 + slots.last().1 + gap;
        if below > rest {
            below
        } else {
            rest
        }
    }
}

/// The answer of the search once every probe distance before `k` has failed:
/// below first, then above, then the next distance; after the last distance
/// the bottom of the column.
pub open spec fn probe_from(
    desired: int,
    height: int,
    slots: Seq<(i64, i64)>,
    gap: int,
    min_y: int,
    k: int,
) -> int
    decreases PROBE_LIMIT - k,
{
    if k >= PROBE_LIMIT {
        stack_below(slots, gap, min_y)
    } else {
        let step = search_step(gap) * k;
        if is_free(desired + step, height, slots, gap, min_y) {
            desired + step
        } else if is_free(desired - step, height, slots, gap, min_y) {
            desired - step
        } else {
            probe_from(desired, height, slots, gap, min_y, k + 1)
        }
    }
}

/// The free `y` nearest to `desired`.
pub open spec fn free_y(desired: int, height: int, slots: Seq<(i64, i64)>, gap: int, min_y: int) -> int {
    if slots.len() == 0 {
        if desired > min_y {
            desired
        } else {
            min_y
        }
    } else if is_free(desired, height, slots, gap, min_y) {
        desired
    } else {
        probe_from(desired, height, slots, gap, min_y, 1)
    }
}

/// Whether all slots lie inside the coordinate range.
pub open spec fn slots_in_range(slots: Seq<(i64, i64)>) -> bool {
    forall|i: int| 0 <= i < slots.len() ==> in_range(#[trigger] slots[i].0 as int) && in_range(slots[i].1 as int)
}

/// Whether no two slots of a column come closer than `gap`.
pub open spec fn pairwise_clear(slots: Seq<(i64, i64)>, gap: int) -> bool {
    forall|i: int, j: int|
        0 <= i < slots.len() && 0 <= j < slots.len() && i != j ==> !#[trigger] overlaps(
            slots[i].0 as int,
            slots[i].1 as int,
            slots[j].0 as int,
            slots[j].1 as int,
            gap,
        )
}

/// The bottom of the column is at or below `min_y` and clear of every slot.
pub proof fn lemma_stack_below_is_free(slots: Seq<(i64, i64)>, height: int, gap: int, min_y: int)
    ensures
        stack_below(slots, gap, min_y) >= min_y,
        forall|i: int| 0 <= i < slots.len() ==> stack_below(slots, gap, min_y) >= #[trigger] slots[i].0 + slots[i].1 + gap,
        is_free(stack_below(slots, gap, min_y), height, slots, gap, min_y),
    decreases slots.len(),
{
    if slots.len() > 0 {
        lemma_stack_below_is_free(slots.drop_last(), height, gap, min_y);
        assert forall|i: int| 0 <= i < slots.len() implies stack_below(slots, gap, min_y)
            >= #[trigger] slots[i].0 + slots[i].1 + gap by {
            if i < slots.len() - 1 {
                assert(slots.drop_last()[i] == slots[i]);
            }
        }
    }
}

/// The search answers with a place that is in bounds and clear of every
/// slot, whatever was asked for.
pub proof fn lemma_free_y_is_free(desired: int, height: int, slots: Seq<(i64, i64)>, gap: int, min_y: int)
    ensures
        is_free(free_y(desired, height, slots, gap, min_y), height, slots, gap, min_y),
{
    if slots.len() == 0 {
    } else if is_free(desired, height, slots, gap, min_y) {
    } else {
        lemma_probe_is_free(desired, height, slots, gap, min_y, 1);
    }
}

proof fn lemma_probe_is_free(desired: int, height: int, slots: Seq<(i64, i64)>, gap: int, min_y: int, k: int)
    ensures
        is_free(probe_from(desired, height, slots, gap, min_y, k), height, slots, gap, min_y),
    decreases PROBE_LIMIT - k,
{
    if k >= PROBE_LIMIT {
        lemma_stack_below_is_free(slots, height, gap, min_y);
    } else {
        lemma_probe_is_free(desired, height, slots, gap, min_y, k + 1);
    }
}

/// A column whose slots keep the gap still does so after the slot that the
/// search accepted is added.
pub proof fn lemma_accepted_slot_keeps_column_clear(
    slots: Seq<(i64, i64)>,
    y: i64,
    height: i64,
    gap: int,
)
    requires
        pairwise_clear(slots, gap),
        !hits_any(y as int, height as int, slots, gap),
    ensures
        pairwise_clear(slots.push((y, height)), gap),
{
    let next = slots.push((y, height));
    assert forall|i: int, j: int| 0 <= i < next.len() && 0 <= j < next.len() && i != j implies !#[trigger] overlaps(
        next[i].0 as int,
        next[i].1 as int,
        next[j].0 as int,
        next[j].1 as int,
        gap,
    ) by {
        if i < slots.len() && j < slots.len() {
            assert(!overlaps(slots[i].0 as int, slots[i].1 as int, slots[j].0 as int, slots[j].1 as int, gap));
        } else if i == slots.len() {
            assert(!overlaps(y as int, height as int, slots[j].0 as int, slots[j].1 as int, gap));
        } else {
            assert(!overlaps(y as int, height as int, slots[i].0 as int, slots[i].1 as int, gap));
        }
    }
}

/// Tells whether a node at `y` comes closer than `gap` to any slot.
fn slot_taken(y: i64, height: i64, slots: &Vec<(i64, i64)>, gap: i64) -> (r: bool)
    requires
        -500 * COORD_MAX <= y <= 500 * COORD_MAX,
        in_range(height as int),
        in_range(gap as int),
        slots_in_range(slots@),
    ensures
        r == hits_any(y as int, height as int, slots@, gap as int),
{
    let mut i: usize = 0;
    while i < slots.len()
        invariant
            i <= slots.len(),
            -500 * COORD_MAX <= y <= 500 * COORD_MAX,
            in_range(height as int),
            in_range(gap as int),
            slots_in_range(slots@),
            forall|j: int| 0 <= j < i ==> !#[trigger] overlaps(
                y as int,
                height as int,
                slots@[j].0 as int,
                slots@[j].1 as int,
                gap as int,
            ),
        decreases slots.len() - i,
    {
        let slot = slots[i];
        assert(in_range(slots@[i as int].0 as int));
        if y < slot.0 + slot.1 + gap && y + height + gap > slot.0 {
            assert(overlaps(y as int, height as int, slots@[i as int].0 as int, slots@[i as int].1 as int, gap as int));
            return true;
        }
        i += 1;
    }
    false
}

/// Computes the place just below the lowest slot.
fn bottom_of(slots: &Vec<(i64, i64)>, gap: i64, min_y: i64) -> (r: i64)
    requires
        in_range(gap as int),
        in_range(min_y as int),
        slots_in_range(slots@),
    ensures
        r == stack_below(slots@, gap as int, min_y as int),
        -COORD_MAX <= r <= 3 * COORD_MAX,
{
    let mut best: i64 = min_y;
    let mut i: usize = 0;
    assert(slots@.take(0) =~= Seq::empty());
    while i < slots.len()
        invariant
            i <= slots.len(),
            in_range(gap as int),
            in_range(min_y as int),
            slots_in_range(slots@),
            best == stack_below(slots@.take(i as int), gap as int, min_y as int),
            -COORD_MAX <= best <= 3 * COORD_MAX,
        decreases slots.len() - i,
    {
        let slot = slots[i];
        assert(in_range(slots@[i as int].0 as int));
        assert(slots@.take(i + 1).drop_last() =~= slots@.take(i as int));
        assert(slots@.take(i + 1).last() == slots@[i as int]);
        let below: i64 = slot.0 + slot.1 + gap;
        if below > best {
            best = below;
        }
        i += 1;
    }
    assert(slots@.take(slots.len() as int) =~= slots@);
    best
}

impl Graph {
    /// Finds the free `y` nearest to `desired` in a column.
    ///
    /// `desired` itself is taken when it is in bounds and clear of every
    /// slot. Otherwise the search probes outwards in steps of half the gap,
    /// below before above, and after the last probe stacks the node under the
    /// lowest slot. The answer is never above `min_y` and never closer than
    /// `gap` to a slot.
    pub fn find_free_y(desired: i64, height: i64, slots: &Vec<(i64, i64)>, gap: i64, min_y: i64) -> (r: i64)
        requires
            in_range(desired as int),
            in_range(height as int),
            in_range(gap as int),
            in_range(min_y as int),
            slots_in_range(slots@),
        ensures
            r == free_y(desired as int, height as int, slots@, gap as int, min_y as int),
            r >= min_y,
            !hits_any(r as int, height as int, slots@, gap as int),
            r <= 500 * COORD_MAX,
    {
        proof {
            lemma_free_y_is_free(desired as int, height as int, slots@, gap as int, min_y as int);
        }
        if slots.len() == 0 {
            return if desired > min_y {
                desired
            } else {
                min_y
            };
        }
        if desired >= min_y && !slot_taken(desired, height, slots, gap) {
            return desired;
        }
        let step: i64 = if gap >= 2 * MIN_SEARCH_STEP && gap / 2 > MIN_SEARCH_STEP {
            gap / 2
        } else {
            MIN_SEARCH_STEP
        };
        assert(step == search_step(gap as int));
        let mut k: i64 = 1;
        while k < PROBE_LIMIT
            invariant
                1 <= k <= PROBE_LIMIT,
                in_range(desired as int),
                in_range(height as int),
                in_range(gap as int),
                in_range(min_y as int),
                slots_in_range(slots@),
                step == search_step(gap as int),
                0 < step <= COORD_MAX / 2,
                free_y(desired as int, height as int, slots@, gap as int, min_y as int) == probe_from(
                    desired as int,
                    height as int,
                    slots@,
                    gap as int,
                    min_y as int,
                    k as int,
                ),
            decreases PROBE_LIMIT - k,
        {
            assert(0 < step * k <= COORD_MAX / 2 * 499) by (nonlinear_arith)
                requires
                    0 < step <= COORD_MAX / 2,
                    1 <= k <= 499,
            ;
            let offset: i64 = step * k;
            let below: i64 = desired + offset;
            if below >= min_y && !slot_taken(below, height, slots, gap) {
                return below;
            }
            let above: i64 = desired - offset;
            if above >= min_y && !slot_taken(above, height, slots, gap) {
                return above;
            }
            k += 1;
        }
        bottom_of(slots, gap, min_y)
    }
}

} // verus!
