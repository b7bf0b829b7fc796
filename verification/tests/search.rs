use solder::config::{Config, NodeKey};
use solder::graph::{Graph, GraphMessage};
use solder::pipewire_client::PipewireEvent;
use solder::search::first_match;
use solder::units::Vector;

fn add_node(graph: &mut Graph, config: &Config, id: u32, name: &str) {
    graph.handle_pipewire_event(
        PipewireEvent::NodeAdded {
            id,
            name: name.to_string(),
            app_name: None,
            serial: None,
            object_path: None,
            device_id: None,
        },
        config,
    );
}

fn studio() -> (Graph, Config) {
    let config = Config::default();
    let mut graph = Graph::new(&config);
    add_node(&mut graph, &config, 31, "Guitar Rig");
    add_node(&mut graph, &config, 32, "Drum Machine");
    (graph, config)
}

fn type_text(graph: &mut Graph, config: &mut Config, text: &str) {
    graph.update(GraphMessage::SearchInput { text: text.to_string() }, config);
}

#[test]
fn query_matches_names_whatever_the_case() {
    let (mut graph, mut config) = studio();
    graph.update(GraphMessage::SearchActivate, &mut config);
    type_text(&mut graph, &mut config, "guitar");
    assert_eq!(graph.filtered_nodes, vec![31]);
    assert!(graph.search_active);
    assert_eq!(graph.search_query, "guitar");
}

#[test]
fn upper_case_query_matches_too() {
    let (mut graph, mut config) = studio();
    type_text(&mut graph, &mut config, "MACH");
    assert_eq!(graph.filtered_nodes, vec![32]);
    assert!(graph.search_active);
}

#[test]
fn query_is_built_up_and_taken_back() {
    let (mut graph, mut config) = studio();
    graph.update(GraphMessage::SearchActivate, &mut config);
    type_text(&mut graph, &mut config, "r");
    assert_eq!(graph.filtered_nodes, vec![31, 32]);
    type_text(&mut graph, &mut config, "i");
    assert_eq!(graph.filtered_nodes, vec![31]);
    type_text(&mut graph, &mut config, "x");
    assert!(graph.filtered_nodes.is_empty());
    graph.update(GraphMessage::SearchBackspace, &mut config);
    assert_eq!(graph.search_query, "ri");
    assert_eq!(graph.filtered_nodes, vec![31]);
    graph.update(GraphMessage::SearchBackspace, &mut config);
    graph.update(GraphMessage::SearchBackspace, &mut config);
    assert_eq!(graph.search_query, "");
    assert!(graph.filtered_nodes.is_empty());
    graph.update(GraphMessage::SearchBackspace, &mut config);
    assert_eq!(graph.search_query, "");
}

#[test]
fn custom_name_takes_the_place_of_the_name() {
    let mut config = Config::default();
    config.set_node_rename(
        NodeKey { node_name: "Guitar Rig".to_string(), app_name: None, object_path: None, index: Some(0) },
        "Lead".to_string(),
    );
    let mut graph = Graph::new(&config);
    add_node(&mut graph, &config, 31, "Guitar Rig");
    graph.search_query = "guitar".to_string();
    graph.update_search_filter();
    assert!(graph.filtered_nodes.is_empty());
    graph.search_query = "LEAD".to_string();
    graph.update_search_filter();
    assert_eq!(graph.filtered_nodes, vec![31]);
}

#[test]
fn clear_closes_the_search() {
    let (mut graph, mut config) = studio();
    type_text(&mut graph, &mut config, "drum");
    graph.update(GraphMessage::SearchClear, &mut config);
    assert!(!graph.search_active);
    assert_eq!(graph.search_query, "");
    assert!(graph.filtered_nodes.is_empty());
}

#[test]
fn activate_starts_with_an_empty_query() {
    let (mut graph, mut config) = studio();
    type_text(&mut graph, &mut config, "drum");
    graph.update(GraphMessage::SearchActivate, &mut config);
    assert!(graph.search_active);
    assert_eq!(graph.search_query, "");
    assert!(graph.filtered_nodes.is_empty());
}

#[test]
fn commit_centres_the_match_with_the_lowest_id() {
    let config = Config::default();
    let mut graph = Graph::new(&config);
    add_node(&mut graph, &config, 40, "Mixer B");
    add_node(&mut graph, &config, 12, "Mixer A");
    let mut config = config;
    type_text(&mut graph, &mut config, "mixer");
    assert_eq!(graph.filtered_nodes, vec![40, 12]);
    assert_eq!(first_match(&graph.filtered_nodes), Some(12));
    let target = graph.nodes[1].position;
    graph.zoom = 2000;
    graph.update(GraphMessage::SearchCommit, &mut config);
    assert_eq!(
        graph.pan_offset,
        Vector { x: 400_000 - target.x * 2, y: 300_000 - target.y * 2 }
    );
    assert!(!graph.search_active);
    assert_eq!(graph.search_query, "");
    assert!(graph.filtered_nodes.is_empty());
}

#[test]
fn commit_without_match_keeps_the_pan() {
    let (mut graph, mut config) = studio();
    graph.update(GraphMessage::Pan(Vector { x: 7, y: 8 }), &mut config);
    type_text(&mut graph, &mut config, "zzz");
    graph.update(GraphMessage::SearchCommit, &mut config);
    assert_eq!(graph.pan_offset, Vector { x: 7, y: 8 });
    assert!(!graph.search_active);
    assert_eq!(first_match(&vec![]), None);
}
