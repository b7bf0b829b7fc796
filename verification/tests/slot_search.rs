use solder::graph::Graph;

const GAP: i64 = 25_000;
const TOP: i64 = 50_000;

fn clear(a: (i64, i64), b: (i64, i64)) -> bool {
    !(a.0 < b.0 + b.1 + GAP && a.0 + a.1 + GAP > b.0)
}

#[test]
fn empty_column_takes_desired_or_top() {
    assert_eq!(Graph::find_free_y(120_000, 58_000, &vec![], GAP, TOP), 120_000);
    assert_eq!(Graph::find_free_y(10_000, 58_000, &vec![], GAP, TOP), TOP);
}

#[test]
fn free_desired_place_is_taken() {
    let slots = vec![(50_000, 58_000)];
    assert_eq!(Graph::find_free_y(133_000, 58_000, &slots, GAP, TOP), 133_000);
}

#[test]
fn taken_place_probes_below_first() {
    let slots = vec![(50_000, 58_000)];
    // the first free place below is 133_000; probes step by 12_500
    assert_eq!(Graph::find_free_y(50_000, 58_000, &slots, GAP, TOP), 137_500);
}

#[test]
fn probe_goes_above_when_it_is_nearer() {
    let slots = vec![(300_000, 58_000)];
    // below needs 383_000 (7 steps), above needs at most 217_000 (4 steps from 260_000)
    assert_eq!(Graph::find_free_y(260_000, 58_000, &slots, GAP, TOP), 210_000);
}

#[test]
fn desired_above_the_top_is_not_accepted() {
    let slots = vec![(400_000, 10_000)];
    let y = Graph::find_free_y(0, 10_000, &slots, GAP, TOP);
    assert_eq!(y, 50_000);
}

#[test]
fn small_gap_uses_the_minimum_step() {
    let slots = vec![(50_000, 10_000)];
    // gap 4_000: step is 5_000, not 2_000; the first free place below is 64_000
    assert_eq!(Graph::find_free_y(50_000, 10_000, &slots, 4_000, TOP), 65_000);
}

#[test]
fn crowded_column_stacks_at_the_bottom() {
    // slots every 60_000 from the top leave no room within 499 probes of 12_500
    let mut slots = Vec::new();
    let mut y = TOP;
    while y < 7_000_000 {
        slots.push((y, 58_000));
        y += 60_000;
    }
    let lowest = slots[slots.len() - 1].0;
    let found = Graph::find_free_y(TOP, 58_000, &slots, GAP, TOP);
    assert_eq!(found, lowest + 58_000 + GAP);
}

#[test]
fn accepted_slots_never_overlap() {
    let mut slots: Vec<(i64, i64)> = Vec::new();
    let wishes = [50_000, 50_000, 60_000, 300_000, 55_000, 290_000, 50_000, 1_000, 310_000];
    let heights = [58_000, 84_000, 32_000, 58_000, 110_000, 58_000, 58_000, 32_000, 58_000];
    for k in 0..wishes.len() {
        let y = Graph::find_free_y(wishes[k], heights[k], &slots, GAP, TOP);
        assert!(y >= TOP);
        for s in &slots {
            assert!(clear((y, heights[k]), *s));
        }
        slots.push((y, heights[k]));
    }
}
