use solder::config::Config;
use solder::graph::{Graph, GraphMessage, HitResult, Link, PortDirection, PortType};
use solder::hit::curve_through;
use solder::pipewire_client::PipewireEvent;
use solder::units::{Point, Vector};

fn add_node(graph: &mut Graph, config: &Config, id: u32) {
    graph.handle_pipewire_event(
        PipewireEvent::NodeAdded {
            id,
            name: "Node".to_string(),
            app_name: None,
            serial: None,
            object_path: None,
            device_id: None,
        },
        config,
    );
}

fn add_port(graph: &mut Graph, config: &Config, node_id: u32, port_id: u32, direction: PortDirection) {
    graph.handle_pipewire_event(
        PipewireEvent::PortAdded {
            node_id,
            port_id,
            name: "port".to_string(),
            direction,
            port_type: PortType::Audio,
        },
        config,
    );
}

/// Node 1 at (50, 50) with output port 11; node 2 at (650, 50) with input
/// port 21; link 100 between the two ports.
fn pair() -> (Graph, Config) {
    let config = Config::default();
    let mut graph = Graph::new(&config);
    add_node(&mut graph, &config, 1);
    add_port(&mut graph, &config, 1, 11, PortDirection::Output);
    add_node(&mut graph, &config, 2);
    add_port(&mut graph, &config, 2, 21, PortDirection::Input);
    graph.handle_pipewire_event(
        PipewireEvent::LinkAdded { id: 100, output_node: 1, output_port: 11, input_node: 2, input_port: 21 },
        &config,
    );
    (graph, config)
}

#[test]
fn first_port_sends_nodes_to_their_columns() {
    let (graph, _config) = pair();
    assert_eq!(graph.nodes[0].position, Point { x: 50_000, y: 50_000 });
    assert_eq!(graph.nodes[1].position, Point { x: 650_000, y: 50_000 });
}

#[test]
fn port_positions_sit_on_the_node_edges() {
    let (graph, _config) = pair();
    let out = Graph::port_position(&graph.nodes[0], &graph.nodes[0].output_ports[0]);
    assert_eq!(out, Point { x: 230_000, y: 93_000 });
    let input = Graph::port_position(&graph.nodes[1], &graph.nodes[1].input_ports[0]);
    assert_eq!(input, Point { x: 650_000, y: 93_000 });
    assert_eq!(Graph::port_at(&graph.nodes[1], PortDirection::Input, 2), Point { x: 650_000, y: 145_000 });
}

#[test]
fn node_height_counts_the_longer_port_list() {
    let (mut graph, config) = pair();
    assert_eq!(Graph::node_height(&graph.nodes[0]), 58_000);
    add_port(&mut graph, &config, 1, 12, PortDirection::Output);
    add_port(&mut graph, &config, 1, 13, PortDirection::Input);
    assert_eq!(Graph::node_height(&graph.nodes[0]), 84_000);
}

#[test]
fn port_wins_inside_the_node_rectangle() {
    let (graph, _config) = pair();
    // 5 units left of the port centre, inside the rectangle of node 1
    assert_eq!(
        graph.hit_test(Point { x: 225_000, y: 93_000 }),
        HitResult::Port { node_id: 1, port_id: 11 }
    );
}

#[test]
fn port_is_hit_outside_the_node_rectangle() {
    let (graph, _config) = pair();
    assert_eq!(
        graph.hit_test(Point { x: 240_000, y: 100_000 }),
        HitResult::Port { node_id: 1, port_id: 11 }
    );
    assert_eq!(
        graph.hit_test(Point { x: 640_000, y: 93_000 }),
        HitResult::Port { node_id: 2, port_id: 21 }
    );
}

#[test]
fn pick_radius_is_exclusive() {
    let (graph, _config) = pair();
    // exactly 15 units right of the port centre: no port, no body, and between two
    // sampled points of the link (at x = 230 and x = 259.977)
    assert_eq!(graph.hit_test(Point { x: 245_000, y: 93_000 }), HitResult::Nothing);
    assert_eq!(
        graph.hit_test(Point { x: 252_000, y: 93_000 }),
        HitResult::Link { link_id: 100, output_port: 11, input_port: 21 }
    );
    assert_eq!(graph.hit_test(Point { x: 230_000, y: 78_000 }), HitResult::Nothing);
    assert_eq!(
        graph.hit_test(Point { x: 230_000, y: 78_001 }),
        HitResult::Port { node_id: 1, port_id: 11 }
    );
}

#[test]
fn node_body_is_hit_away_from_ports() {
    let (graph, _config) = pair();
    assert_eq!(graph.hit_test(Point { x: 100_000, y: 60_000 }), HitResult::Node(1));
    assert_eq!(graph.hit_test(Point { x: 50_000, y: 50_000 }), HitResult::Node(1));
    // the right and lower edges are outside
    assert_eq!(graph.hit_test(Point { x: 100_000, y: 108_000 }), HitResult::Nothing);
    assert_eq!(graph.hit_test(Point { x: 700_000, y: 107_999 }), HitResult::Node(2));
}

#[test]
fn link_is_hit_near_its_curve() {
    let (graph, _config) = pair();
    assert_eq!(
        graph.hit_test(Point { x: 440_000, y: 98_000 }),
        HitResult::Link { link_id: 100, output_port: 11, input_port: 21 }
    );
    assert_eq!(graph.hit_test(Point { x: 440_000, y: 101_000 }), HitResult::Nothing);
    assert_eq!(graph.hit_test(Point { x: 440_000, y: 300_000 }), HitResult::Nothing);
}

#[test]
fn link_without_its_port_is_not_hit() {
    let (mut graph, config) = pair();
    graph.handle_pipewire_event(PipewireEvent::PortRemoved { node_id: 2, port_id: 21 }, &config);
    assert_eq!(graph.hit_test(Point { x: 440_000, y: 93_000 }), HitResult::Nothing);
    let link = Link { id: 100, output_node: 1, output_port: 11, input_node: 2, input_port: 21 };
    assert_eq!(graph.distance_to_link(Point { x: 440_000, y: 93_000 }, &link), None);
}

#[test]
fn distance_to_link_is_the_squared_gap() {
    let (graph, _config) = pair();
    let link = graph.links[0];
    assert_eq!(graph.distance_to_link(Point { x: 440_000, y: 93_000 }, &link), Some(0));
    assert_eq!(graph.distance_to_link(Point { x: 440_000, y: 98_000 }, &link), Some(25_000_000));
    assert_eq!(graph.distance_to_link(Point { x: 230_000, y: 90_000 }, &link), Some(9_000_000));
}

#[test]
fn curve_has_control_points_half_the_span_away() {
    let c = curve_through(Point { x: 230_000, y: 93_000 }, Point { x: 650_000, y: 193_000 });
    assert_eq!(c.ctrl1, Point { x: 440_000, y: 93_000 });
    assert_eq!(c.ctrl2, Point { x: 440_000, y: 193_000 });
    let tight = curve_through(Point { x: 100_000, y: 0 }, Point { x: 60_000, y: 50_000 });
    assert_eq!(tight.ctrl1, Point { x: 160_000, y: 0 });
    assert_eq!(tight.ctrl2, Point { x: 0, y: 50_000 });
}

#[test]
fn cubic_bezier_samples_the_curve() {
    let first = Point { x: 0, y: 0 };
    let second = Point { x: 100_000, y: 0 };
    let third = Point { x: 100_000, y: 80_000 };
    let fourth = Point { x: 200_000, y: 80_000 };
    assert_eq!(Graph::cubic_bezier(first, second, third, fourth, 0), first);
    assert_eq!(Graph::cubic_bezier(first, second, third, fourth, 20), fourth);
    assert_eq!(Graph::cubic_bezier(first, second, third, fourth, 10), Point { x: 100_000, y: 40_000 });
    // t = 1/4: x = (27 * 0 + 27 * 100 + 9 * 100 + 200) / 64, y = (9 * 80 + 80) / 64
    assert_eq!(Graph::cubic_bezier(first, second, third, fourth, 5), Point { x: 59_375, y: 12_500 });
}

#[test]
fn hit_test_follows_pan_and_zoom() {
    let (mut graph, mut config) = pair();
    graph.update(GraphMessage::Pan(Vector { x: 10_000, y: -20_000 }), &mut config);
    assert_eq!(graph.pan_offset, Vector { x: 10_000, y: -20_000 });
    assert_eq!(graph.screen_to_world(Point { x: 110_000, y: 40_000 }), Point { x: 100_000, y: 60_000 });
    assert_eq!(graph.hit_test(Point { x: 110_000, y: 40_000 }), HitResult::Node(1));
    graph.zoom = 2000;
    // world = (screen - pan) / 2
    assert_eq!(graph.screen_to_world(Point { x: 210_000, y: 100_000 }), Point { x: 100_000, y: 60_000 });
    assert_eq!(graph.hit_test(Point { x: 210_000, y: 100_000 }), HitResult::Node(1));
    assert_eq!(graph.screen_to_world(Point { x: 9_999, y: -20_001 }), Point { x: -1, y: -1 });
}

#[test]
fn zoom_out_of_range_is_read_as_the_nearest_bound() {
    let (mut graph, _config) = pair();
    graph.zoom = 0;
    assert_eq!(graph.zoom_in_use(), 250);
    assert_eq!(graph.screen_to_world(Point { x: 25_000, y: 15_000 }), Point { x: 100_000, y: 60_000 });
    graph.zoom = 90_000;
    assert_eq!(graph.zoom_in_use(), 4000);
}
