use solder::config::Config;
use solder::graph::{Graph, GraphMessage, Interaction, PortDirection, PortType};
use solder::interaction::{is_control, printable, CanvasAction, CanvasEvent, Key, Modifiers, PointerShape, ScrollDelta};
use solder::pipewire_client::PipewireEvent;
use solder::units::{Point, Vector};

const PLAIN: Modifiers = Modifiers { control: false, shift: false, alt: false };
const CTRL: Modifiers = Modifiers { control: true, shift: false, alt: false };
const CTRL_SHIFT: Modifiers = Modifiers { control: true, shift: true, alt: false };

/// Node 1 at (50, 50) with output port 11; node 2 at (650, 50) with input
/// port 21; link 100 between the two ports.
fn pair() -> Graph {
    let config = Config::default();
    let mut graph = Graph::new(&config);
    for (id, port, direction) in [(1, 11, PortDirection::Output), (2, 21, PortDirection::Input)] {
        graph.handle_pipewire_event(
            PipewireEvent::NodeAdded {
                id,
                name: "Node".to_string(),
                app_name: None,
                serial: None,
                object_path: None,
                device_id: None,
            },
            &config,
        );
        graph.handle_pipewire_event(
            PipewireEvent::PortAdded {
                node_id: id,
                port_id: port,
                name: "port".to_string(),
                direction,
                port_type: PortType::Audio,
            },
            &config,
        );
    }
    graph.handle_pipewire_event(
        PipewireEvent::LinkAdded { id: 100, output_node: 1, output_port: 11, input_node: 2, input_port: 21 },
        &config,
    );
    graph
}

const ON_PORT_11: Point = Point { x: 230_000, y: 93_000 };
const ON_PORT_21: Point = Point { x: 650_000, y: 93_000 };
const ON_NODE_1: Point = Point { x: 100_000, y: 60_000 };
const ON_LINK: Point = Point { x: 440_000, y: 93_000 };
const ON_NOTHING: Point = Point { x: 440_000, y: 400_000 };

fn message(action: Option<CanvasAction>) -> GraphMessage {
    match action {
        Some(CanvasAction::Publish(m)) => m,
        other => panic!("no message: {:?}", other),
    }
}

fn key(graph: &Graph, key: Key, modifiers: Modifiers, text: Option<&str>) -> Option<CanvasAction> {
    let mut state = Interaction::Idle;
    let action = graph.on_canvas_event(
        &mut state,
        CanvasEvent::KeyPressed { key, modifiers, text: text.map(|t| t.to_string()) },
        Some(ON_NOTHING),
    );
    assert_eq!(state, Interaction::Idle);
    action
}

#[test]
fn press_on_port_starts_a_connection() {
    let graph = pair();
    let mut state = Interaction::default();
    let action = graph.on_canvas_event(&mut state, CanvasEvent::LeftPressed, Some(ON_PORT_11));
    assert_eq!(state, Interaction::CreatingConnection { from_node: 1, from_port: 11 });
    assert!(matches!(message(action), GraphMessage::ConnectionStarted { node_id: 1, port_id: 11 }));
}

#[test]
fn press_on_node_starts_a_drag() {
    let graph = pair();
    let mut state = Interaction::Idle;
    let action = graph.on_canvas_event(&mut state, CanvasEvent::LeftPressed, Some(ON_NODE_1));
    assert_eq!(state, Interaction::Dragging { node_id: 1, last_pos: ON_NODE_1 });
    assert!(matches!(action, Some(CanvasAction::RequestRedraw)));
}

#[test]
fn press_elsewhere_starts_panning() {
    let graph = pair();
    for at in [ON_LINK, ON_NOTHING] {
        let mut state = Interaction::Idle;
        let action = graph.on_canvas_event(&mut state, CanvasEvent::LeftPressed, Some(at));
        assert_eq!(state, Interaction::Panning { last_pos: at });
        assert!(matches!(action, Some(CanvasAction::RequestRedraw)));
    }
}

#[test]
fn right_press_on_link_disconnects() {
    let graph = pair();
    let mut state = Interaction::Idle;
    let action = graph.on_canvas_event(&mut state, CanvasEvent::RightPressed, Some(ON_LINK));
    assert_eq!(state, Interaction::Idle);
    assert!(matches!(
        message(action),
        GraphMessage::DisconnectLink { link_id: 100, output_port: 11, input_port: 21 }
    ));
    let none = graph.on_canvas_event(&mut state, CanvasEvent::RightPressed, Some(ON_NODE_1));
    assert!(none.is_none());
}

#[test]
fn move_while_dragging_reports_the_delta() {
    let graph = pair();
    let mut state = Interaction::Dragging { node_id: 1, last_pos: ON_NODE_1 };
    let to = Point { x: 130_000, y: 45_000 };
    let action = graph.on_canvas_event(&mut state, CanvasEvent::CursorMoved, Some(to));
    assert_eq!(state, Interaction::Dragging { node_id: 1, last_pos: to });
    match message(action) {
        GraphMessage::NodeDragged { node_id, delta } => {
            assert_eq!(node_id, 1);
            assert_eq!(delta, Vector { x: 30_000, y: -15_000 });
        },
        other => panic!("unexpected {:?}", other),
    }
}

#[test]
fn move_while_panning_reports_the_delta() {
    let graph = pair();
    let mut state = Interaction::Panning { last_pos: ON_NOTHING };
    let to = Point { x: 400_000, y: 410_000 };
    let action = graph.on_canvas_event(&mut state, CanvasEvent::CursorMoved, Some(to));
    assert_eq!(state, Interaction::Panning { last_pos: to });
    match message(action) {
        GraphMessage::Pan(delta) => assert_eq!(delta, Vector { x: -40_000, y: 10_000 }),
        other => panic!("unexpected {:?}", other),
    }
}

#[test]
fn move_while_connecting_only_redraws() {
    let graph = pair();
    let mut state = Interaction::CreatingConnection { from_node: 1, from_port: 11 };
    let action = graph.on_canvas_event(&mut state, CanvasEvent::CursorMoved, Some(ON_NOTHING));
    assert_eq!(state, Interaction::CreatingConnection { from_node: 1, from_port: 11 });
    assert!(matches!(action, Some(CanvasAction::RequestRedraw)));
    let mut idle = Interaction::Idle;
    assert!(graph.on_canvas_event(&mut idle, CanvasEvent::CursorMoved, Some(ON_NOTHING)).is_none());
}

#[test]
fn release_after_drag_ends_the_drag() {
    let graph = pair();
    let mut state = Interaction::Dragging { node_id: 1, last_pos: ON_NODE_1 };
    let action = graph.on_canvas_event(&mut state, CanvasEvent::LeftReleased, Some(ON_NOTHING));
    assert_eq!(state, Interaction::Idle);
    assert!(matches!(message(action), GraphMessage::NodeDragEnded { node_id: 1 }));
}

#[test]
fn release_over_port_ends_the_connection() {
    let graph = pair();
    let mut state = Interaction::CreatingConnection { from_node: 1, from_port: 11 };
    let action = graph.on_canvas_event(&mut state, CanvasEvent::LeftReleased, Some(ON_PORT_21));
    assert_eq!(state, Interaction::Idle);
    assert!(matches!(
        message(action),
        GraphMessage::ConnectionEnded { from_node: 1, from_port: 11, to_node: 2, to_port: 21 }
    ));
}

#[test]
fn release_over_nothing_cancels_the_connection() {
    let graph = pair();
    let mut state = Interaction::CreatingConnection { from_node: 1, from_port: 11 };
    let action = graph.on_canvas_event(&mut state, CanvasEvent::LeftReleased, Some(ON_NOTHING));
    assert_eq!(state, Interaction::Idle);
    assert!(matches!(message(action), GraphMessage::ConnectionCancelled));
    let mut panning = Interaction::Panning { last_pos: ON_NOTHING };
    let redraw = graph.on_canvas_event(&mut panning, CanvasEvent::LeftReleased, Some(ON_NOTHING));
    assert_eq!(panning, Interaction::Idle);
    assert!(matches!(redraw, Some(CanvasAction::RequestRedraw)));
}

#[test]
fn wheel_zooms_at_the_cursor() {
    let graph = pair();
    let mut state = Interaction::Idle;
    let lines = graph.on_canvas_event(
        &mut state,
        CanvasEvent::WheelScrolled { delta: ScrollDelta::Lines { y: -2_000 } },
        Some(ON_LINK),
    );
    match message(lines) {
        GraphMessage::Zoom { delta, cursor } => {
            assert_eq!(delta, -2_000);
            assert_eq!(cursor, ON_LINK);
        },
        other => panic!("unexpected {:?}", other),
    }
    let pixels = graph.on_canvas_event(
        &mut state,
        CanvasEvent::WheelScrolled { delta: ScrollDelta::Pixels { y: -12_050 } },
        Some(ON_LINK),
    );
    match message(pixels) {
        GraphMessage::Zoom { delta, .. } => assert_eq!(delta, -121),
        other => panic!("unexpected {:?}", other),
    }
}

#[test]
fn events_without_pointer_position_are_passed_over() {
    let graph = pair();
    let mut state = Interaction::Dragging { node_id: 1, last_pos: ON_NODE_1 };
    assert!(graph.on_canvas_event(&mut state, CanvasEvent::LeftReleased, None).is_none());
    assert_eq!(state, Interaction::Dragging { node_id: 1, last_pos: ON_NODE_1 });
    assert!(graph.on_canvas_event(&mut state, CanvasEvent::Other, Some(ON_NOTHING)).is_none());
}

#[test]
fn command_keys_map_to_messages() {
    let graph = pair();
    assert!(matches!(message(key(&graph, Key::Character('l'), PLAIN, Some("l"))), GraphMessage::AutoLayout));
    assert!(matches!(message(key(&graph, Key::Character('L'), PLAIN, None)), GraphMessage::AutoLayout));
    assert!(key(&graph, Key::Character('l'), CTRL, None).is_none());
    assert!(matches!(message(key(&graph, Key::Character('z'), CTRL, None)), GraphMessage::Undo));
    assert!(matches!(message(key(&graph, Key::Character('Z'), CTRL_SHIFT, None)), GraphMessage::Redo));
    assert!(matches!(message(key(&graph, Key::Character('y'), CTRL, None)), GraphMessage::Redo));
    assert!(key(&graph, Key::Character('z'), PLAIN, None).is_none());
    assert!(matches!(message(key(&graph, Key::Character('f'), CTRL, None)), GraphMessage::SearchActivate));
    assert!(key(&graph, Key::Character('f'), PLAIN, None).is_none());
    assert!(matches!(message(key(&graph, Key::Character('/'), PLAIN, None)), GraphMessage::SearchActivate));
    assert!(key(&graph, Key::Character('/'), CTRL, None).is_none());
    assert!(matches!(message(key(&graph, Key::Character('?'), PLAIN, None)), GraphMessage::ToggleHelp));
    assert!(matches!(message(key(&graph, Key::F1, PLAIN, None)), GraphMessage::ToggleHelp));
    assert!(key(&graph, Key::Enter, PLAIN, None).is_none());
    assert!(key(&graph, Key::Other, PLAIN, Some("x")).is_none());
}

#[test]
fn escape_closes_the_help_only_when_open() {
    let mut graph = pair();
    assert!(key(&graph, Key::Escape, PLAIN, None).is_none());
    graph.show_help = true;
    assert!(matches!(message(key(&graph, Key::Escape, PLAIN, None)), GraphMessage::ToggleHelp));
}

#[test]
fn open_search_takes_the_keys() {
    let mut graph = pair();
    graph.search_active = true;
    assert!(matches!(message(key(&graph, Key::Escape, PLAIN, None)), GraphMessage::SearchClear));
    assert!(matches!(message(key(&graph, Key::Backspace, PLAIN, None)), GraphMessage::SearchBackspace));
    assert!(matches!(message(key(&graph, Key::Enter, PLAIN, None)), GraphMessage::SearchCommit));
    match message(key(&graph, Key::Character('l'), PLAIN, Some("l"))) {
        GraphMessage::SearchInput { text } => assert_eq!(text, "l"),
        other => panic!("unexpected {:?}", other),
    }
    assert!(key(&graph, Key::Character('l'), CTRL, Some("l")).is_none());
    assert!(key(&graph, Key::Character('l'), Modifiers { control: false, shift: false, alt: true }, Some("l")).is_none());
    assert!(key(&graph, Key::Other, PLAIN, Some("")).is_none());
    assert!(key(&graph, Key::Other, PLAIN, None).is_none());
    assert!(key(&graph, Key::Other, PLAIN, Some("\u{7}")).is_none());
    assert!(key(&graph, Key::Other, PLAIN, Some("a\tb")).is_none());
}

#[test]
fn control_codes_are_told_apart() {
    assert!(is_control('\u{0}'));
    assert!(is_control('\u{1f}'));
    assert!(!is_control(' '));
    assert!(!is_control('~'));
    assert!(is_control('\u{7f}'));
    assert!(is_control('\u{9f}'));
    assert!(!is_control('\u{a0}'));
    assert!(!is_control('é'));
    for code in 0..0x2000u32 {
        if let Some(c) = char::from_u32(code) {
            assert_eq!(is_control(c), c.is_control());
        }
    }
    assert!(printable("Gain +3 dB é"));
    assert!(printable(""));
    assert!(!printable("line\nbreak"));
}

#[test]
fn pointer_shape_follows_state_and_hit() {
    let graph = pair();
    let idle = Interaction::Idle;
    assert_eq!(graph.mouse_interaction(&idle, Some(ON_NODE_1)), PointerShape::Grab);
    assert_eq!(graph.mouse_interaction(&idle, Some(ON_PORT_11)), PointerShape::Crosshair);
    assert_eq!(graph.mouse_interaction(&idle, Some(ON_LINK)), PointerShape::Pointer);
    assert_eq!(graph.mouse_interaction(&idle, Some(ON_NOTHING)), PointerShape::Default);
    assert_eq!(graph.mouse_interaction(&idle, None), PointerShape::Default);
    let dragging = Interaction::Dragging { node_id: 1, last_pos: ON_NODE_1 };
    assert_eq!(graph.mouse_interaction(&dragging, Some(ON_NOTHING)), PointerShape::Grabbing);
    assert_eq!(graph.mouse_interaction(&dragging, None), PointerShape::Default);
    let panning = Interaction::Panning { last_pos: ON_NODE_1 };
    assert_eq!(graph.mouse_interaction(&panning, Some(ON_NODE_1)), PointerShape::Grabbing);
    let connecting = Interaction::CreatingConnection { from_node: 1, from_port: 11 };
    assert_eq!(graph.mouse_interaction(&connecting, Some(ON_NODE_1)), PointerShape::Crosshair);
}
