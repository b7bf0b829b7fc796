use solder::config::Config;
use solder::events::remove_port;
use solder::graph::{Graph, Link, NodeSource, Port, PortDirection, PortType};
use solder::layout::{auto_position, find_free_position, position_by_type, NodeType};
use solder::pipewire_client::PipewireEvent;
use solder::units::Point;

fn arrival(id: u32, name: &str) -> PipewireEvent {
    PipewireEvent::NodeAdded {
        id,
        name: name.to_string(),
        app_name: None,
        serial: Some("9".to_string()),
        object_path: None,
        device_id: Some(3),
    }
}

fn port(node_id: u32, port_id: u32, direction: PortDirection) -> PipewireEvent {
    PipewireEvent::PortAdded {
        node_id,
        port_id,
        name: "p".to_string(),
        direction,
        port_type: PortType::Midi,
    }
}

fn link(id: u32, from: u32, to: u32) -> PipewireEvent {
    PipewireEvent::LinkAdded { id, output_node: from, output_port: from * 10, input_node: to, input_port: to * 10 }
}

#[test]
fn arriving_nodes_fill_the_middle_column() {
    let config = Config::default();
    let mut graph = Graph::new(&config);
    graph.dirty = false;
    graph.handle_pipewire_event(arrival(1, "A"), &config);
    graph.handle_pipewire_event(arrival(2, "B"), &config);
    graph.handle_pipewire_event(arrival(3, "C"), &config);
    let places: Vec<Point> = graph.nodes.iter().map(|n| n.position).collect();
    assert_eq!(
        places,
        vec![
            Point { x: 350_000, y: 50_000 },
            Point { x: 350_000, y: 200_000 },
            Point { x: 350_000, y: 350_000 },
        ]
    );
    assert!(graph.dirty);
    let node = &graph.nodes[0];
    assert_eq!(node.serial, Some("9".to_string()));
    assert_eq!(node.source, NodeSource::PipeWire);
    assert!(node.input_ports.is_empty() && node.output_ports.is_empty());
    assert!(!node.has_saved_position);
}

#[test]
fn saved_position_on_top_of_a_node_is_nudged() {
    let mut config = Config::default();
    config.set_position(
        solder::config::NodeKey { node_name: "B".to_string(), app_name: None, object_path: None, index: Some(0) },
        solder::config::Position { x: 360_000, y: 60_000 },
    );
    let mut graph = Graph::new(&config);
    graph.handle_pipewire_event(arrival(1, "A"), &config);
    // node A stands at (350, 50): closer than 90 in x and 56 in y is on top of it
    assert_eq!(graph.find_non_overlapping_position(Point { x: 0, y: 0 }), Point { x: 0, y: 0 });
    assert_eq!(
        graph.find_non_overlapping_position(Point { x: 439_999, y: 105_999 }),
        Point { x: 469_999, y: 135_999 }
    );
    assert_eq!(
        graph.find_non_overlapping_position(Point { x: 440_000, y: 105_999 }),
        Point { x: 440_000, y: 105_999 }
    );
    assert_eq!(
        graph.find_non_overlapping_position(Point { x: 439_999, y: 106_000 }),
        Point { x: 439_999, y: 106_000 }
    );
    graph.handle_pipewire_event(arrival(2, "B"), &config);
    // (360, 60) and (390, 90) are on top of node A; (420, 120) is 70 units below it
    assert_eq!(graph.nodes[1].position, Point { x: 420_000, y: 120_000 });
    assert!(graph.nodes[1].has_saved_position);
    // now the way leads past node B too
    assert_eq!(
        graph.find_non_overlapping_position(Point { x: 439_999, y: 105_999 }),
        Point { x: 529_999, y: 195_999 }
    );
}

#[test]
fn nudging_gives_up_after_twenty_steps() {
    let config = Config::default();
    let mut graph = Graph::new(&config);
    for k in 0..25 {
        graph.handle_pipewire_event(arrival(k, "N"), &config);
        graph.nodes[k as usize].position = Point { x: 30_000 * k as i64, y: 30_000 * k as i64 };
    }
    assert_eq!(graph.find_non_overlapping_position(Point { x: 0, y: 0 }), Point { x: 600_000, y: 600_000 });
}

#[test]
fn same_id_replaces_the_node() {
    let config = Config::default();
    let mut graph = Graph::new(&config);
    graph.handle_pipewire_event(arrival(1, "A"), &config);
    graph.handle_pipewire_event(arrival(2, "B"), &config);
    graph.handle_pipewire_event(arrival(1, "A2"), &config);
    let names: Vec<&str> = graph.nodes.iter().map(|n| n.name.as_str()).collect();
    assert_eq!(names, vec!["A2", "B"]);
}

#[test]
fn first_port_sends_the_node_to_the_column_of_its_kind() {
    let config = Config::default();
    let mut graph = Graph::new(&config);
    graph.handle_pipewire_event(arrival(1, "In"), &config);
    graph.handle_pipewire_event(port(1, 10, PortDirection::Input), &config);
    assert_eq!(graph.nodes[0].position, Point { x: 650_000, y: 50_000 });
    graph.handle_pipewire_event(port(1, 11, PortDirection::Output), &config);
    // only the first port moves the node
    assert_eq!(graph.nodes[0].position, Point { x: 650_000, y: 50_000 });
    assert_eq!(graph.nodes[0].input_ports.len(), 1);
    assert_eq!(graph.nodes[0].output_ports[0].id, 11);
    assert_eq!(graph.nodes[0].output_ports[0].port_type, PortType::Midi);
    graph.handle_pipewire_event(arrival(2, "In2"), &config);
    graph.handle_pipewire_event(port(2, 20, PortDirection::Input), &config);
    assert_eq!(graph.nodes[1].position, Point { x: 650_000, y: 200_000 });
}

#[test]
fn node_with_saved_position_stays_on_first_port() {
    let mut config = Config::default();
    config.set_position(
        solder::config::NodeKey { node_name: "A".to_string(), app_name: None, object_path: None, index: Some(0) },
        solder::config::Position { x: 10_000, y: 20_000 },
    );
    let mut graph = Graph::new(&config);
    graph.handle_pipewire_event(arrival(1, "A"), &config);
    graph.handle_pipewire_event(port(1, 10, PortDirection::Output), &config);
    assert_eq!(graph.nodes[0].position, Point { x: 10_000, y: 20_000 });
}

#[test]
fn port_for_a_missing_node_only_marks_dirty() {
    let config = Config::default();
    let mut graph = Graph::new(&config);
    graph.dirty = false;
    graph.handle_pipewire_event(port(7, 70, PortDirection::Input), &config);
    assert!(graph.nodes.is_empty());
    assert!(graph.dirty);
    graph.dirty = false;
    graph.handle_pipewire_event(PipewireEvent::PortRemoved { node_id: 7, port_id: 70 }, &config);
    assert!(!graph.dirty);
}

#[test]
fn removed_port_leaves_both_lists() {
    let config = Config::default();
    let mut graph = Graph::new(&config);
    graph.handle_pipewire_event(arrival(1, "A"), &config);
    graph.handle_pipewire_event(port(1, 10, PortDirection::Input), &config);
    graph.handle_pipewire_event(port(1, 11, PortDirection::Input), &config);
    graph.handle_pipewire_event(port(1, 12, PortDirection::Output), &config);
    graph.handle_pipewire_event(PipewireEvent::PortRemoved { node_id: 1, port_id: 10 }, &config);
    let inputs: Vec<u32> = graph.nodes[0].input_ports.iter().map(|p| p.id).collect();
    assert_eq!(inputs, vec![11]);
    assert_eq!(graph.nodes[0].output_ports.len(), 1);
    graph.handle_pipewire_event(PipewireEvent::PortRemoved { node_id: 1, port_id: 12 }, &config);
    assert!(graph.nodes[0].output_ports.is_empty());
}

#[test]
fn remove_port_takes_every_port_with_the_id() {
    let make = |id: u32| Port { id, name: "p".to_string(), direction: PortDirection::Input, port_type: PortType::Audio };
    let mut ports = vec![make(1), make(2), make(1), make(3), make(1)];
    remove_port(&mut ports, 1);
    let ids: Vec<u32> = ports.iter().map(|p| p.id).collect();
    assert_eq!(ids, vec![2, 3]);
    remove_port(&mut ports, 9);
    assert_eq!(ports.len(), 2);
}

#[test]
fn removed_node_takes_its_links_along() {
    let config = Config::default();
    let mut graph = Graph::new(&config);
    for id in 1..4 {
        graph.handle_pipewire_event(arrival(id, "N"), &config);
    }
    graph.handle_pipewire_event(link(100, 1, 2), &config);
    graph.handle_pipewire_event(link(101, 2, 3), &config);
    graph.handle_pipewire_event(link(102, 1, 3), &config);
    graph.handle_pipewire_event(PipewireEvent::NodeRemoved { id: 2 }, &config);
    let ids: Vec<u32> = graph.nodes.iter().map(|n| n.id).collect();
    assert_eq!(ids, vec![1, 3]);
    assert_eq!(
        graph.links,
        vec![Link { id: 102, output_node: 1, output_port: 10, input_node: 3, input_port: 30 }]
    );
    graph.handle_pipewire_event(PipewireEvent::NodeRemoved { id: 2 }, &config);
    assert_eq!(graph.nodes.len(), 2);
}

#[test]
fn removed_link_leaves_the_others() {
    let config = Config::default();
    let mut graph = Graph::new(&config);
    graph.handle_pipewire_event(link(100, 1, 2), &config);
    graph.handle_pipewire_event(link(101, 2, 3), &config);
    graph.handle_pipewire_event(PipewireEvent::LinkRemoved { id: 100 }, &config);
    let ids: Vec<u32> = graph.links.iter().map(|l| l.id).collect();
    assert_eq!(ids, vec![101]);
}

#[test]
fn device_events_leave_the_graph_alone() {
    let config = Config::default();
    let mut graph = Graph::new(&config);
    graph.dirty = false;
    graph.handle_pipewire_event(
        PipewireEvent::DeviceAdded {
            id: 5,
            name: "card".to_string(),
            description: "Card".to_string(),
            api: "alsa".to_string(),
        },
        &config,
    );
    graph.handle_pipewire_event(PipewireEvent::DeviceRemoved { id: 5 }, &config);
    assert!(graph.nodes.is_empty() && graph.links.is_empty());
    assert!(!graph.dirty);
}

#[test]
fn node_type_follows_the_ports() {
    let config = Config::default();
    let mut graph = Graph::new(&config);
    graph.handle_pipewire_event(arrival(1, "A"), &config);
    assert_eq!(NodeType::from_node(&graph.nodes[0]), NodeType::Unknown);
    graph.handle_pipewire_event(port(1, 10, PortDirection::Output), &config);
    assert_eq!(NodeType::from_node(&graph.nodes[0]), NodeType::Source);
    graph.handle_pipewire_event(port(1, 11, PortDirection::Input), &config);
    assert_eq!(NodeType::from_node(&graph.nodes[0]), NodeType::Processor);
    graph.handle_pipewire_event(PipewireEvent::PortRemoved { node_id: 1, port_id: 10 }, &config);
    assert_eq!(NodeType::from_node(&graph.nodes[0]), NodeType::Sink);
    assert_eq!(NodeType::Source.base_x(), 50_000);
    assert_eq!(NodeType::Processor.base_x(), 350_000);
    assert_eq!(NodeType::Unknown.base_x(), 350_000);
    assert_eq!(NodeType::Sink.base_x(), 650_000);
}

#[test]
fn free_position_skips_crowded_rows() {
    let config = Config::default();
    let mut graph = Graph::new(&config);
    graph.handle_pipewire_event(arrival(1, "A"), &config);
    graph.nodes[0].position = Point { x: 200_000, y: 139_999 };
    // rows at y = 50 and y = 200 lie within 90 units of the node; x = 50 lies within 200
    assert_eq!(find_free_position(&graph.nodes, 50_000), Point { x: 50_000, y: 350_000 });
    assert_eq!(find_free_position(&graph.nodes, 400_000), Point { x: 400_000, y: 50_000 });
    assert_eq!(auto_position(&graph.nodes, 2), Point { x: 350_000, y: 350_000 });
    graph.handle_pipewire_event(arrival(2, "B"), &config);
    graph.handle_pipewire_event(port(2, 20, PortDirection::Output), &config);
    assert_eq!(position_by_type(&graph.nodes, &graph.nodes[1]).x, 50_000);
}

#[test]
fn full_column_falls_back_to_the_top_row() {
    let config = Config::default();
    let mut graph = Graph::new(&config);
    for row in 0..50 {
        graph.handle_pipewire_event(arrival(row, "N"), &config);
        graph.nodes[row as usize].position = Point { x: 350_000, y: 50_000 + 150_000 * row as i64 };
    }
    assert_eq!(find_free_position(&graph.nodes, 350_000), Point { x: 350_000, y: 50_000 });
}
