use solder::config::{Config, NodeKey, Position, TextMap};
use solder::graph::Graph;
use solder::pipewire_client::PipewireEvent;
use solder::text::decimal_text;

fn key(name: &str, app: Option<&str>, path: Option<&str>, index: Option<u32>) -> NodeKey {
    NodeKey {
        node_name: name.to_string(),
        app_name: app.map(|s| s.to_string()),
        object_path: path.map(|s| s.to_string()),
        index,
    }
}

#[test]
fn key_prefers_object_path() {
    assert_eq!(key("Mic", Some("app"), Some("alsa:pcm:1"), Some(0)).to_string_key(), "path:alsa:pcm:1");
}

#[test]
fn key_joins_name_and_app() {
    assert_eq!(key("Mic", Some("Recorder"), None, None).to_string_key(), "Mic|Recorder");
}

#[test]
fn key_is_name_alone_without_app_and_path() {
    assert_eq!(key("Mic", None, None, None).to_string_key(), "Mic");
}

#[test]
fn key_omits_index_zero_and_appends_others() {
    assert_eq!(key("Mic", None, None, Some(0)).to_string_key(), "Mic");
    assert_eq!(key("Mic", None, None, Some(1)).to_string_key(), "Mic#1");
    assert_eq!(key("Mic", Some("Rec"), None, Some(12)).to_string_key(), "Mic|Rec#12");
    assert_eq!(key("Mic", None, Some("p"), Some(4294967295)).to_string_key(), "path:p#4294967295");
}

#[test]
fn decimal_text_writes_digits() {
    assert_eq!(decimal_text(0), "0");
    assert_eq!(decimal_text(7), "7");
    assert_eq!(decimal_text(10), "10");
    assert_eq!(decimal_text(90817), "90817");
}

fn arrival(id: u32, name: &str, app: Option<&str>, path: Option<&str>) -> PipewireEvent {
    PipewireEvent::NodeAdded {
        id,
        name: name.to_string(),
        app_name: app.map(|s| s.to_string()),
        serial: None,
        object_path: path.map(|s| s.to_string()),
        device_id: None,
    }
}

#[test]
fn duplicate_indices_ascend_in_arrival_order() {
    let config = Config::default();
    let mut graph = Graph::new(&config);
    graph.handle_pipewire_event(arrival(10, "Synth", Some("app"), None), &config);
    graph.handle_pipewire_event(arrival(11, "Other", None, None), &config);
    graph.handle_pipewire_event(arrival(12, "Synth", Some("app"), None), &config);
    graph.handle_pipewire_event(arrival(13, "Synth", Some("app"), None), &config);
    graph.handle_pipewire_event(arrival(14, "Synth", None, None), &config);
    let indices: Vec<u32> = graph.nodes.iter().map(|n| n.index).collect();
    assert_eq!(indices, vec![0, 0, 1, 2, 0]);
}

#[test]
fn arrival_takes_saved_position_and_name_by_key() {
    let mut config = Config::default();
    config.set_position(key("Synth", None, None, Some(1)), Position { x: 700_000, y: 900_000 });
    config.set_node_rename(key("Synth", None, None, Some(1)), "Lead".to_string());
    let mut graph = Graph::new(&config);
    graph.handle_pipewire_event(arrival(1, "Synth", None, None), &config);
    graph.handle_pipewire_event(arrival(2, "Synth", None, None), &config);
    assert!(!graph.nodes[0].has_saved_position);
    assert_eq!(graph.nodes[0].custom_name, None);
    assert!(graph.nodes[1].has_saved_position);
    assert_eq!(graph.nodes[1].position.x, 700_000);
    assert_eq!(graph.nodes[1].position.y, 900_000);
    assert_eq!(graph.nodes[1].custom_name, Some("Lead".to_string()));
}

#[test]
fn config_stores_and_replaces_positions() {
    let mut config = Config::default();
    assert_eq!(config.get_position(&key("A", None, None, None)), None);
    config.set_position(key("A", None, None, None), Position { x: 1, y: 2 });
    config.set_position(key("B", None, None, None), Position { x: 3, y: 4 });
    config.set_position(key("A", None, None, Some(0)), Position { x: 5, y: 6 });
    assert_eq!(config.get_position(&key("A", None, None, None)), Some(Position { x: 5, y: 6 }));
    assert_eq!(config.get_position(&key("B", None, None, None)), Some(Position { x: 3, y: 4 }));
    assert_eq!(config.positions.entries().len(), 2);
}

#[test]
fn config_renames_can_be_cleared() {
    let mut config = Config::default();
    config.set_node_rename(key("A", None, None, None), "Alpha".to_string());
    assert_eq!(config.get_node_rename(&key("A", None, None, None)), Some(&"Alpha".to_string()));
    config.clear_node_rename(&key("A", None, None, None));
    assert_eq!(config.get_node_rename(&key("A", None, None, None)), None);
    config.clear_node_rename(&key("A", None, None, None));
    assert_eq!(config.node_renames.entries().len(), 0);
}

#[test]
fn config_keeps_device_settings() {
    let mut config = Config::default();
    assert_eq!(config.get_device_profile("card0"), None);
    config.set_device_profile("card0".to_string(), 3);
    config.set_device_position("card0".to_string(), Position { x: -5, y: 8 });
    assert_eq!(config.get_device_profile("card0"), Some(3));
    assert_eq!(config.get_device_position("card0"), Some(Position { x: -5, y: 8 }));
    assert_eq!(config.get_device_position("card1"), None);
}

#[test]
fn text_map_removes_only_the_key() {
    let mut map: TextMap<u32> = TextMap::new();
    map.insert("a".to_string(), 1);
    map.insert("b".to_string(), 2);
    map.insert("c".to_string(), 3);
    map.remove(&"b".to_string());
    assert_eq!(map.get(&"a".to_string()), Some(&1));
    assert_eq!(map.get(&"b".to_string()), None);
    assert_eq!(map.get(&"c".to_string()), Some(&3));
}

#[test]
fn with_positions_starts_from_a_table() {
    let mut table: TextMap<Position> = TextMap::new();
    table.insert("Mic".to_string(), Position { x: 10, y: 20 });
    let config = Config::with_positions(table);
    assert_eq!(config.get_position(&key("Mic", None, None, None)), Some(Position { x: 10, y: 20 }));
}
