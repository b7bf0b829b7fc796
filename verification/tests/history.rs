use solder::config::Config;
use solder::graph::{Effect, Graph, GraphMessage, PortDirection, PortType, UndoAction};
use solder::pipewire_client::PipewireEvent;

fn graph_with_ports() -> (Graph, Config) {
    let config = Config::default();
    let mut graph = Graph::new(&config);
    graph.handle_pipewire_event(
        PipewireEvent::NodeAdded {
            id: 1,
            name: "Mic".to_string(),
            app_name: None,
            serial: None,
            object_path: None,
            device_id: None,
        },
        &config,
    );
    graph.handle_pipewire_event(
        PipewireEvent::NodeAdded {
            id: 2,
            name: "Speakers".to_string(),
            app_name: None,
            serial: None,
            object_path: None,
            device_id: None,
        },
        &config,
    );
    graph.handle_pipewire_event(
        PipewireEvent::PortAdded {
            node_id: 1,
            port_id: 5,
            name: "out".to_string(),
            direction: PortDirection::Output,
            port_type: PortType::Audio,
        },
        &config,
    );
    graph.handle_pipewire_event(
        PipewireEvent::PortAdded {
            node_id: 2,
            port_id: 9,
            name: "in".to_string(),
            direction: PortDirection::Input,
            port_type: PortType::Audio,
        },
        &config,
    );
    (graph, config)
}

#[test]
fn connect_undo_redo_restores_history() {
    let (mut graph, mut config) = graph_with_ports();
    let mut issued = Vec::new();
    issued.push(graph.update(
        GraphMessage::ConnectionEnded { from_node: 1, from_port: 5, to_node: 2, to_port: 9 },
        &mut config,
    ));
    issued.push(graph.update(GraphMessage::Undo, &mut config));
    issued.push(graph.update(GraphMessage::Redo, &mut config));
    assert_eq!(
        issued,
        vec![
            Effect::Connect { output_port: 5, input_port: 9 },
            Effect::Disconnect { output_port: 5, input_port: 9 },
            Effect::Connect { output_port: 5, input_port: 9 },
        ]
    );
    assert_eq!(graph.undo_stack, vec![UndoAction::Connect { output_port: 5, input_port: 9 }]);
    assert!(graph.redo_stack.is_empty());
}

#[test]
fn undo_moves_the_inverse_to_the_redo_stack() {
    let (mut graph, mut config) = graph_with_ports();
    graph.update(
        GraphMessage::ConnectionEnded { from_node: 1, from_port: 5, to_node: 2, to_port: 9 },
        &mut config,
    );
    graph.update(GraphMessage::Undo, &mut config);
    assert!(graph.undo_stack.is_empty());
    assert_eq!(graph.redo_stack, vec![UndoAction::Disconnect { output_port: 5, input_port: 9 }]);
}

#[test]
fn drag_from_input_port_still_connects_output_to_input() {
    let (mut graph, mut config) = graph_with_ports();
    let effect = graph.update(
        GraphMessage::ConnectionEnded { from_node: 2, from_port: 9, to_node: 1, to_port: 5 },
        &mut config,
    );
    assert_eq!(effect, Effect::Connect { output_port: 5, input_port: 9 });
}

#[test]
fn connection_from_unknown_node_takes_origin_as_input() {
    let mut config = Config::default();
    let mut graph = Graph::new(&config);
    let effect = graph.update(
        GraphMessage::ConnectionEnded { from_node: 1, from_port: 5, to_node: 2, to_port: 9 },
        &mut config,
    );
    assert_eq!(effect, Effect::Connect { output_port: 9, input_port: 5 });
}

#[test]
fn new_action_clears_redo() {
    let (mut graph, mut config) = graph_with_ports();
    graph.update(
        GraphMessage::ConnectionEnded { from_node: 1, from_port: 5, to_node: 2, to_port: 9 },
        &mut config,
    );
    graph.update(GraphMessage::Undo, &mut config);
    assert_eq!(graph.redo_stack.len(), 1);
    let effect = graph.update(
        GraphMessage::DisconnectLink { link_id: 7, output_port: 5, input_port: 9 },
        &mut config,
    );
    assert_eq!(effect, Effect::Disconnect { output_port: 5, input_port: 9 });
    assert!(graph.redo_stack.is_empty());
    assert_eq!(graph.undo_stack, vec![UndoAction::Disconnect { output_port: 5, input_port: 9 }]);
}

#[test]
fn undo_of_disconnect_connects_again() {
    let (mut graph, mut config) = graph_with_ports();
    graph.update(GraphMessage::DisconnectLink { link_id: 7, output_port: 5, input_port: 9 }, &mut config);
    let effect = graph.update(GraphMessage::Undo, &mut config);
    assert_eq!(effect, Effect::Connect { output_port: 5, input_port: 9 });
    assert_eq!(graph.redo_stack, vec![UndoAction::Connect { output_port: 5, input_port: 9 }]);
}

#[test]
fn undo_and_redo_on_empty_history_do_nothing() {
    let mut config = Config::default();
    let mut graph = Graph::new(&config);
    assert_eq!(graph.update(GraphMessage::Undo, &mut config), Effect::Nothing);
    assert_eq!(graph.update(GraphMessage::Redo, &mut config), Effect::Nothing);
    assert!(graph.undo_stack.is_empty());
    assert!(graph.redo_stack.is_empty());
}
