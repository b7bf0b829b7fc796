use solder::auto_layout::{classify, connected_ids, NodeRole, COL_WIDTH, ISOLATED_GAP, ISOLATED_X, ROW_GAP, START_X, START_Y};
use solder::columns::assign_columns;
use solder::config::Config;
use solder::graph::{Graph, GraphMessage, Link, PortDirection, PortType};
use solder::pipewire_client::PipewireEvent;

fn add_node(graph: &mut Graph, config: &Config, id: u32, name: &str) {
    graph.handle_pipewire_event(
        PipewireEvent::NodeAdded {
            id,
            name: name.to_string(),
            app_name: None,
            serial: None,
            object_path: None,
            device_id: None,
        },
        config,
    );
}

fn add_port(graph: &mut Graph, config: &Config, node_id: u32, port_id: u32, direction: PortDirection) {
    graph.handle_pipewire_event(
        PipewireEvent::PortAdded {
            node_id,
            port_id,
            name: "port".to_string(),
            direction,
            port_type: PortType::Audio,
        },
        config,
    );
}

fn add_link(graph: &mut Graph, config: &Config, id: u32, from: (u32, u32), to: (u32, u32)) {
    graph.handle_pipewire_event(
        PipewireEvent::LinkAdded {
            id,
            output_node: from.0,
            output_port: from.1,
            input_node: to.0,
            input_port: to.1,
        },
        config,
    );
}

fn link(id: u32, from: u32, to: u32) -> Link {
    Link { id, output_node: from, output_port: from * 10, input_node: to, input_port: to * 10 + 1 }
}

fn chain() -> (Graph, Config) {
    let config = Config::default();
    let mut graph = Graph::new(&config);
    add_node(&mut graph, &config, 1, "A");
    add_node(&mut graph, &config, 2, "B");
    add_node(&mut graph, &config, 3, "C");
    add_port(&mut graph, &config, 1, 1, PortDirection::Output);
    add_port(&mut graph, &config, 2, 2, PortDirection::Input);
    add_port(&mut graph, &config, 2, 3, PortDirection::Output);
    add_port(&mut graph, &config, 3, 4, PortDirection::Input);
    add_link(&mut graph, &config, 100, (1, 1), (2, 2));
    add_link(&mut graph, &config, 101, (2, 3), (3, 4));
    (graph, config)
}

#[test]
fn chain_is_laid_out_left_to_right() {
    let (mut graph, _config) = chain();
    let plan = graph.perform_auto_layout();
    let columns: Vec<(u32, u64)> = plan.iter().map(|p| (p.id, p.column)).collect();
    assert_eq!(columns, vec![(1, 0), (2, 1), (3, 2)]);
    let xs: Vec<i64> = graph.nodes.iter().map(|n| n.position.x).collect();
    assert_eq!(xs, vec![START_X, START_X + COL_WIDTH, START_X + 2 * COL_WIDTH]);
    assert!(xs[0] < xs[1] && xs[1] < xs[2]);
    for node in &graph.nodes {
        assert_eq!(node.position.y, START_Y);
        assert!(!node.has_saved_position);
    }
}

#[test]
fn layout_message_marks_the_graph_dirty() {
    let (mut graph, mut config) = chain();
    graph.dirty = false;
    graph.update(GraphMessage::AutoLayout, &mut config);
    assert!(graph.dirty);
    assert_eq!(graph.nodes[2].position.x, START_X + 2 * COL_WIDTH);
}

#[test]
fn isolated_nodes_stack_by_id_in_their_own_column() {
    let (mut graph, config) = chain();
    add_node(&mut graph, &config, 9, "Late");
    add_node(&mut graph, &config, 7, "Early");
    add_port(&mut graph, &config, 7, 70, PortDirection::Output);
    add_port(&mut graph, &config, 7, 71, PortDirection::Output);
    graph.perform_auto_layout();
    let early = graph.nodes.iter().find(|n| n.id == 7).unwrap();
    let late = graph.nodes.iter().find(|n| n.id == 9).unwrap();
    assert_eq!(early.position.x, ISOLATED_X);
    assert_eq!(late.position.x, ISOLATED_X);
    assert_eq!(early.position.y, START_Y);
    // node 7 has two port rows: 28 + 2 * 26 + 4 = 84 units
    assert_eq!(late.position.y, START_Y + 84_000 + ROW_GAP);
    let first = graph.nodes.iter().find(|n| n.id == 1).unwrap();
    let last = graph.nodes.iter().find(|n| n.id == 3).unwrap();
    assert_eq!(first.position.x, START_X + COL_WIDTH + ISOLATED_GAP);
    assert_eq!(last.position.x, START_X + COL_WIDTH + ISOLATED_GAP + 2 * COL_WIDTH);
}

#[test]
fn layout_gives_up_saved_positions() {
    let (mut graph, _config) = chain();
    graph.nodes[1].has_saved_position = true;
    graph.nodes[1].position.x = 999_000;
    graph.perform_auto_layout();
    assert!(!graph.nodes[1].has_saved_position);
    assert_eq!(graph.nodes[1].position.x, START_X + COL_WIDTH);
}

#[test]
fn roles_follow_links_not_ports() {
    let links = vec![link(1, 1, 2), link(2, 2, 3)];
    assert_eq!(classify(&links, 1), NodeRole::Source);
    assert_eq!(classify(&links, 2), NodeRole::Processor);
    assert_eq!(classify(&links, 3), NodeRole::Sink);
    assert_eq!(classify(&links, 4), NodeRole::Isolated);
}

#[test]
fn connected_ids_are_ascending_and_unique() {
    let links = vec![link(1, 9, 2), link(2, 2, 5), link(3, 9, 5), link(4, 1, 9)];
    assert_eq!(connected_ids(&links), vec![1, 2, 5, 9]);
}

#[test]
fn diamond_takes_the_longest_way() {
    // 1 -> 2 -> 3 -> 5, 1 -> 3, 1 -> 4 -> 5, 5 -> 6
    let links = vec![
        link(1, 1, 3),
        link(2, 1, 2),
        link(3, 2, 3),
        link(4, 3, 5),
        link(5, 1, 4),
        link(6, 4, 5),
        link(7, 5, 6),
    ];
    let ids = connected_ids(&links);
    let plan = assign_columns(&links, &ids);
    let columns: Vec<(u32, u64)> = plan.iter().map(|e| (e.id, e.column)).collect();
    assert_eq!(columns, vec![(1, 0), (2, 1), (3, 2), (4, 1), (5, 3), (6, 4)]);
    assert!(plan.iter().all(|e| e.reached == (e.role != NodeRole::Sink)));
}

#[test]
fn sinks_stand_right_of_every_processor() {
    // sink 3 hangs on the source, yet stands right of processor 4 in column 2
    let links = vec![link(1, 1, 3), link(2, 1, 2), link(3, 2, 4), link(4, 4, 5)];
    let ids = connected_ids(&links);
    let plan = assign_columns(&links, &ids);
    let columns: Vec<(u32, u64)> = plan.iter().map(|e| (e.id, e.column)).collect();
    assert_eq!(columns, vec![(1, 0), (2, 1), (3, 3), (4, 2), (5, 3)]);
}

#[test]
fn unreached_processors_default_to_column_one() {
    // 2 and 3 feed each other and feed sink 4; no source reaches them
    let links = vec![link(1, 2, 3), link(2, 3, 2), link(3, 3, 4)];
    let ids = connected_ids(&links);
    let plan = assign_columns(&links, &ids);
    let columns: Vec<(u32, u64, bool)> = plan.iter().map(|e| (e.id, e.column, e.reached)).collect();
    assert_eq!(columns, vec![(2, 1, false), (3, 1, false), (4, 2, false)]);
}

#[test]
fn cycle_behind_a_source_ends_at_the_cap() {
    // 1 -> 2 -> 3 -> 2: the relaxation stops when the columns reach the number of linked nodes
    let links = vec![link(1, 1, 2), link(2, 2, 3), link(3, 3, 2)];
    let ids = connected_ids(&links);
    let plan = assign_columns(&links, &ids);
    let columns: Vec<(u32, u64)> = plan.iter().map(|e| (e.id, e.column)).collect();
    assert_eq!(columns, vec![(1, 0), (2, 3), (3, 3)]);
}

#[test]
fn two_sources_gather_around_their_sink() {
    let config = Config::default();
    let mut graph = Graph::new(&config);
    add_node(&mut graph, &config, 1, "S1");
    add_node(&mut graph, &config, 2, "S2");
    add_node(&mut graph, &config, 3, "K");
    add_port(&mut graph, &config, 1, 10, PortDirection::Output);
    add_port(&mut graph, &config, 2, 20, PortDirection::Output);
    add_port(&mut graph, &config, 3, 30, PortDirection::Input);
    add_link(&mut graph, &config, 100, (1, 10), (3, 30));
    add_link(&mut graph, &config, 101, (2, 20), (3, 30));
    let plan = graph.perform_auto_layout();
    let rows: Vec<(u32, u64, i64, i64)> = plan.iter().map(|p| (p.id, p.column, p.height, p.y)).collect();
    assert_eq!(
        rows,
        vec![(1, 0, 58_000, 135_250), (2, 0, 58_000, 222_750), (3, 1, 58_000, 135_250)]
    );
    assert_eq!(plan[0].first_y, 50_000);
    assert_eq!(plan[1].first_y, 133_000);
    assert_eq!(plan[2].first_y, 91_500);
    let ys: Vec<i64> = graph.nodes.iter().map(|n| n.position.y).collect();
    assert_eq!(ys, vec![135_250, 222_750, 135_250]);
}

#[test]
fn links_to_missing_nodes_take_the_default_height() {
    let config = Config::default();
    let mut graph = Graph::new(&config);
    add_node(&mut graph, &config, 1, "Only");
    add_link(&mut graph, &config, 100, (1, 10), (50, 500));
    let plan = graph.perform_auto_layout();
    let heights: Vec<(u32, i64)> = plan.iter().map(|p| (p.id, p.height)).collect();
    assert_eq!(heights, vec![(1, 32_000), (50, 80_000)]);
    assert_eq!(graph.nodes[0].position.x, START_X);
}

#[test]
fn nodes_of_a_column_keep_the_row_gap() {
    let config = Config::default();
    let mut graph = Graph::new(&config);
    add_node(&mut graph, &config, 1, "Source");
    for id in 2..9 {
        add_node(&mut graph, &config, id, "Sink");
        add_port(&mut graph, &config, id, id * 10, PortDirection::Input);
        add_link(&mut graph, &config, 100 + id, (1, 10), (id, id * 10));
    }
    let plan = graph.perform_auto_layout();
    for a in &plan {
        assert!(a.y >= START_Y);
        for b in &plan {
            if a.id != b.id && a.column == b.column {
                assert!(a.y + a.height + ROW_GAP <= b.y || b.y + b.height + ROW_GAP <= a.y);
            }
        }
    }
}
