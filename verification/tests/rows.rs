use solder::auto_layout::NodeRole;
use solder::rows::{
    close_first_pass, cluster_of, input_wish, layout_rows, mean_wish, median_wish, order_column, place_column,
    place_downstream, replace_sources, set_column_wishes, stack_sources, Placement,
};

fn cell(id: u32, role: NodeRole, column: u64, height: i64) -> Placement {
    Placement {
        id,
        role,
        column,
        reached: role != NodeRole::Sink,
        height,
        y: 50_000,
        first_y: 50_000,
        desired: 50_000,
        group: 0,
        placed: false,
    }
}

/// Sources 0 and 1 feed processor 2; source 1 feeds sink 3 too; the
/// processor feeds the sink.
fn table() -> (Vec<Placement>, Vec<usize>, Vec<usize>) {
    let cells = vec![
        cell(10, NodeRole::Source, 0, 58_000),
        cell(11, NodeRole::Source, 0, 84_000),
        cell(12, NodeRole::Processor, 1, 58_000),
        cell(13, NodeRole::Sink, 2, 58_000),
    ];
    (cells, vec![0, 1, 1, 2], vec![2, 2, 3, 3])
}

#[test]
fn sources_are_stacked_in_table_order() {
    let (mut cells, _, _) = table();
    cells[2].placed = true;
    stack_sources(&mut cells);
    assert_eq!(cells[0].y, 50_000);
    assert_eq!(cells[1].y, 50_000 + 58_000 + 25_000);
    let placed: Vec<bool> = cells.iter().map(|c| c.placed).collect();
    assert_eq!(placed, vec![true, true, false, false]);
}

#[test]
fn wish_is_the_mean_of_the_left_neighbours() {
    let (mut cells, src, dst) = table();
    stack_sources(&mut cells);
    assert_eq!(input_wish(&cells, &src, &dst, 2), (50_000 + 133_000) / 2);
    // the sink has no placed neighbour in column 1 yet: the first placed feeder decides
    assert_eq!(input_wish(&cells, &src, &dst, 3), 133_000);
    // nothing feeds a source
    assert_eq!(input_wish(&cells, &src, &dst, 0), 50_000);
}

#[test]
fn wish_counts_every_link() {
    let mut cells = vec![
        cell(1, NodeRole::Source, 0, 58_000),
        cell(2, NodeRole::Source, 0, 58_000),
        cell(3, NodeRole::Sink, 1, 58_000),
    ];
    cells[0].y = 100_000;
    cells[0].placed = true;
    cells[1].y = 400_001;
    cells[1].placed = true;
    // two links from the first source, one from the second
    let src = vec![0, 0, 1];
    let dst = vec![2, 2, 2];
    assert_eq!(input_wish(&cells, &src, &dst, 2), 200_000);
}

#[test]
fn cluster_is_the_first_target() {
    let (cells, src, dst) = table();
    assert_eq!(cluster_of(&cells, &src, &dst, 1), 12);
    assert_eq!(cluster_of(&cells, &src, &dst, 2), 13);
    assert_eq!(cluster_of(&cells, &src, &dst, 3), 0xffff_ffff);
}

#[test]
fn column_wishes_touch_only_their_column() {
    let (mut cells, src, dst) = table();
    stack_sources(&mut cells);
    let before = cells.clone();
    set_column_wishes(&mut cells, &src, &dst, 1, true);
    assert_eq!(cells[2].desired, 91_500);
    assert_eq!(cells[2].group, 13);
    assert_eq!(cells[0], before[0]);
    assert_eq!(cells[1], before[1]);
    assert_eq!(cells[3], before[3]);
    set_column_wishes(&mut cells, &src, &dst, 1, false);
    assert_eq!(cells[2].group, 0);
}

#[test]
fn column_is_ordered_by_cluster_then_wish_then_id() {
    let mut cells = vec![
        cell(5, NodeRole::Processor, 1, 58_000),
        cell(6, NodeRole::Processor, 1, 58_000),
        cell(7, NodeRole::Processor, 2, 58_000),
        cell(8, NodeRole::Processor, 1, 58_000),
        cell(9, NodeRole::Processor, 1, 58_000),
    ];
    cells[0].group = 2;
    cells[0].desired = 60_000;
    cells[1].group = 1;
    cells[1].desired = 900_000;
    cells[3].group = 2;
    cells[3].desired = 50_000;
    cells[4].group = 2;
    cells[4].desired = 50_000;
    assert_eq!(order_column(&cells, 1), vec![1, 3, 4, 0]);
    assert_eq!(order_column(&cells, 2), vec![2]);
    assert_eq!(order_column(&cells, 3), Vec::<usize>::new());
}

#[test]
fn column_is_placed_in_its_order() {
    let mut cells = vec![
        cell(5, NodeRole::Processor, 1, 58_000),
        cell(6, NodeRole::Processor, 1, 58_000),
        cell(7, NodeRole::Processor, 2, 58_000),
    ];
    cells[0].desired = 100_000;
    cells[1].desired = 90_000;
    cells[2].y = 777_000;
    place_column(&mut cells, 1);
    // entry 1 asks for less and goes first; entry 0 finds its place taken
    assert_eq!(cells[1].y, 90_000);
    // 90 + 58 + 25 = 173 is the first free place; probes from 100 in steps of 12.5 reach 175
    assert_eq!(cells[0].y, 175_000);
    assert!(cells[0].placed && cells[1].placed);
    assert_eq!(cells[2].y, 777_000);
    assert!(!cells[2].placed);
}

#[test]
fn median_and_mean_of_the_targets() {
    let mut cells = vec![
        cell(1, NodeRole::Source, 0, 58_000),
        cell(2, NodeRole::Sink, 1, 58_000),
        cell(3, NodeRole::Sink, 1, 58_000),
        cell(4, NodeRole::Sink, 1, 58_000),
        cell(5, NodeRole::Sink, 1, 58_000),
    ];
    let places = [0, 900_000, 100_000, 400_000, 200_001];
    for k in 1..5 {
        cells[k].first_y = places[k];
        cells[k].y = places[k] + 1_000;
        cells[k].placed = true;
    }
    let three_src = vec![0, 0, 0];
    let three_dst = vec![1, 2, 3];
    assert_eq!(median_wish(&cells, &three_src, &three_dst, 0), 400_000);
    assert_eq!(mean_wish(&cells, &three_src, &three_dst, 0), (901_000 + 101_000 + 401_000) / 3);
    let four_src = vec![0, 0, 0, 0];
    let four_dst = vec![1, 2, 3, 4];
    // the two middle places are 200_001 and 400_000
    assert_eq!(median_wish(&cells, &four_src, &four_dst, 0), 300_000);
    assert_eq!(median_wish(&cells, &vec![], &vec![], 0), 50_000);
    assert_eq!(mean_wish(&cells, &vec![], &vec![], 0), 50_000);
    cells[3].placed = false;
    assert_eq!(mean_wish(&cells, &three_src, &three_dst, 0), (901_000 + 101_000) / 2);
}

#[test]
fn passes_run_one_after_the_other() {
    let (mut cells, src, dst) = table();
    stack_sources(&mut cells);
    place_downstream(&mut cells, &src, &dst, 2, false);
    assert_eq!(cells[2].y, 91_500);
    assert_eq!(cells[3].y, 91_500);
    close_first_pass(&mut cells);
    assert!(cells.iter().all(|c| !c.placed && c.first_y == c.y));
    replace_sources(&mut cells, &src, &dst, true);
    // both sources ask for 91.5; the second has to go below the first
    assert_eq!(cells[0].desired, 91_500);
    assert_eq!(cells[1].desired, 91_500);
    assert_eq!(cells[0].y, 91_500);
    assert_eq!(cells[1].y, 179_000);
    assert!(!cells[2].placed);
}

#[test]
fn layout_rows_settles_every_column() {
    let (mut cells, src, dst) = table();
    layout_rows(&mut cells, &src, &dst, 3);
    assert!(cells.iter().all(|c| c.placed && c.y >= 50_000));
    let a = cells[0];
    let b = cells[1];
    assert!(a.y + a.height + 25_000 <= b.y || b.y + b.height + 25_000 <= a.y);
    // the processor sits at the mean of the sources of the second pass, the sink beside it
    assert_eq!(cells[2].y, (91_500 + 179_000) / 2);
    assert_eq!(cells[2].group, 13);
    assert_eq!(cells[3].desired, cells[2].y);
}
