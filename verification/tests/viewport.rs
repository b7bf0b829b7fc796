use solder::config::{Config, NodeKey, Position};
use solder::graph::{Effect, Graph, GraphMessage};
use solder::pipewire_client::PipewireEvent;
use solder::units::{add_sat, div_floor, saturate, scale, sub_sat, Point, Vector, COORD_MAX};

fn graph_with_node() -> (Graph, Config) {
    let config = Config::default();
    let mut graph = Graph::new(&config);
    graph.handle_pipewire_event(
        PipewireEvent::NodeAdded {
            id: 4,
            name: "Synth".to_string(),
            app_name: Some("Studio".to_string()),
            serial: Some("77".to_string()),
            object_path: None,
            device_id: None,
        },
        &config,
    );
    (graph, config)
}

#[test]
fn new_graph_is_empty_at_zoom_one() {
    let mut config = Config::default();
    config.exclusive_mode = true;
    let graph = Graph::new(&config);
    assert!(graph.nodes.is_empty());
    assert!(graph.links.is_empty());
    assert_eq!(graph.zoom, 1000);
    assert_eq!(graph.pan_offset, Vector { x: 0, y: 0 });
    assert!(graph.exclusive_mode);
    assert!(!graph.search_active);
    assert!(!graph.show_help);
    assert!(graph.dirty);
}

#[test]
fn zoom_keeps_the_point_under_the_cursor() {
    let (mut graph, mut config) = graph_with_node();
    let cursor = Point { x: 400_000, y: 300_000 };
    let before = graph.screen_to_world(cursor);
    graph.update(GraphMessage::Zoom { delta: 1000, cursor }, &mut config);
    assert_eq!(graph.zoom, 1100);
    assert_eq!(graph.pan_offset, Vector { x: -40_000, y: -30_000 });
    assert_eq!(graph.screen_to_world(cursor), before);
}

#[test]
fn zoom_keeps_the_cursor_point_within_tolerance() {
    let (mut graph, mut config) = graph_with_node();
    graph.update(GraphMessage::Pan(Vector { x: 12_345, y: -6_789 }), &mut config);
    let cursor = Point { x: 333_333, y: 777_777 };
    for delta in [700, -1300, 250, 4000, -2500, 1, -1] {
        let before = graph.screen_to_world(cursor);
        graph.update(GraphMessage::Zoom { delta, cursor }, &mut config);
        let after = graph.screen_to_world(cursor);
        assert!(before.x - 4 <= after.x && after.x <= before.x);
        assert!(before.y - 4 <= after.y && after.y <= before.y);
    }
}

#[test]
fn zoom_is_clamped() {
    let (mut graph, mut config) = graph_with_node();
    let cursor = Point { x: 0, y: 0 };
    graph.update(GraphMessage::Zoom { delta: 100_000, cursor }, &mut config);
    assert_eq!(graph.zoom, 4000);
    graph.update(GraphMessage::Zoom { delta: -9_900, cursor }, &mut config);
    assert_eq!(graph.zoom, 250);
    graph.update(GraphMessage::Zoom { delta: -50_000, cursor }, &mut config);
    assert_eq!(graph.zoom, 250);
}

#[test]
fn zoom_rounds_the_factor_down() {
    let (mut graph, mut config) = graph_with_node();
    graph.zoom = 333;
    graph.update(GraphMessage::Zoom { delta: 1000, cursor: Point { x: 0, y: 0 } }, &mut config);
    // 333 * 1.1 = 366.3
    assert_eq!(graph.zoom, 366);
}

#[test]
fn drag_moves_by_the_delta_over_the_zoom() {
    let (mut graph, mut config) = graph_with_node();
    let start = graph.nodes[0].position;
    graph.zoom = 2000;
    graph.dirty = false;
    let effect = graph.update(
        GraphMessage::NodeDragged { node_id: 4, delta: Vector { x: 30_000, y: -9_001 } },
        &mut config,
    );
    assert_eq!(effect, Effect::Nothing);
    assert_eq!(graph.nodes[0].position, Point { x: start.x + 15_000, y: start.y - 4_501 });
    assert!(graph.dirty);
}

#[test]
fn drag_of_unknown_node_changes_nothing() {
    let (mut graph, mut config) = graph_with_node();
    let start = graph.nodes[0].position;
    graph.dirty = false;
    graph.update(GraphMessage::NodeDragged { node_id: 5, delta: Vector { x: 30_000, y: 0 } }, &mut config);
    assert_eq!(graph.nodes[0].position, start);
    assert!(!graph.dirty);
}

#[test]
fn drag_end_saves_the_position_under_the_node_key() {
    let (mut graph, mut config) = graph_with_node();
    graph.update(GraphMessage::NodeDragged { node_id: 4, delta: Vector { x: 1_000, y: 2_000 } }, &mut config);
    let effect = graph.update(GraphMessage::NodeDragEnded { node_id: 4 }, &mut config);
    assert_eq!(effect, Effect::SaveConfig);
    assert!(graph.nodes[0].has_saved_position);
    let key = NodeKey {
        node_name: "Synth".to_string(),
        app_name: Some("Studio".to_string()),
        object_path: None,
        index: Some(0),
    };
    let p = graph.nodes[0].position;
    assert_eq!(config.get_position(&key), Some(Position { x: p.x, y: p.y }));
    assert_eq!(config.positions.entries()[0].0, "Synth|Studio");
    assert_eq!(graph.update(GraphMessage::NodeDragEnded { node_id: 99 }, &mut config), Effect::Nothing);
}

#[test]
fn pan_adds_the_delta() {
    let (mut graph, mut config) = graph_with_node();
    graph.update(GraphMessage::Pan(Vector { x: 5, y: 6 }), &mut config);
    graph.update(GraphMessage::Pan(Vector { x: -15, y: 4 }), &mut config);
    assert_eq!(graph.pan_offset, Vector { x: -10, y: 10 });
}

#[test]
fn pan_saturates_at_the_coordinate_range() {
    let (mut graph, mut config) = graph_with_node();
    graph.update(GraphMessage::Pan(Vector { x: i64::MAX, y: i64::MIN }), &mut config);
    graph.update(GraphMessage::Pan(Vector { x: i64::MAX, y: i64::MIN }), &mut config);
    assert_eq!(graph.pan_offset, Vector { x: COORD_MAX, y: -COORD_MAX });
}

#[test]
fn toggle_help_and_cancel_mark_dirty() {
    let (mut graph, mut config) = graph_with_node();
    graph.dirty = false;
    graph.update(GraphMessage::ToggleHelp, &mut config);
    assert!(graph.show_help && graph.dirty);
    graph.dirty = false;
    graph.update(GraphMessage::ConnectionCancelled, &mut config);
    assert!(graph.dirty);
    graph.dirty = false;
    graph.update(GraphMessage::ConnectionStarted { node_id: 4, port_id: 1 }, &mut config);
    assert!(!graph.dirty);
    graph.update(GraphMessage::ToggleHelp, &mut config);
    assert!(!graph.show_help);
}

#[test]
fn fixed_point_helpers_round_down_and_saturate() {
    assert_eq!(div_floor(7, 2), 3);
    assert_eq!(div_floor(-7, 2), -4);
    assert_eq!(div_floor(-8, 2), -4);
    assert_eq!(div_floor(0, 5), 0);
    assert_eq!(scale(-9_001, 1000, 2000), -4_501);
    assert_eq!(scale(9_001, 1000, 2000), 4_500);
    assert_eq!(saturate(i128::MAX), COORD_MAX);
    assert_eq!(saturate(-5), -5);
    assert_eq!(add_sat(COORD_MAX, 1), COORD_MAX);
    assert_eq!(sub_sat(-COORD_MAX, 1), -COORD_MAX);
    assert_eq!(sub_sat(10, 4), 6);
}
