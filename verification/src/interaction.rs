//! The interaction state machine: from pointer and keyboard events to
//! messages for the graph.

use vstd::prelude::*;
use vstd::string::StrSliceExecFns;
use crate::graph::{Graph, GraphMessage, HitResult, Interaction};
use crate::units::{div_floor, saturate, clamp_coord, Point, Vector};

verus! {

/// A key of the keyboard, as far as the editor tells keys apart.
#[derive(Debug, Clone, Copy, PartialEq, Eq, Structural)]
pub enum Key {
    Character(char),
    Escape,
    Backspace,
    Enter,
    F1,
    Other,
}

/// The modifier keys that are held down.
#[derive(Debug, Clone, Copy, PartialEq, Eq, Structural)]
pub struct Modifiers {
    pub control: bool,
    pub shift: bool,
    pub alt: bool,
}

/// How far the wheel was turned, in thousandths of a line or of a pixel.
#[derive(Debug, Clone, Copy, PartialEq, Eq, Structural)]
pub enum ScrollDelta {
    Lines { y: i64 },
    Pixels { y: i64 },
}

/// An event on the canvas.
#[derive(Debug, Clone)]
pub enum CanvasEvent {
    LeftPressed,
    RightPressed,
    LeftReleased,
    CursorMoved,
    WheelScrolled { delta: ScrollDelta },
    KeyPressed { key: Key, modifiers: Modifiers, text: Option<String> },
    /// Any other event; it is passed over.
    Other,
}

/// What the canvas has to do after an event.
#[derive(Debug, Clone)]
pub enum CanvasAction {
    /// Hand the message to the graph.
    Publish(GraphMessage),
    /// Draw again; the model did not change.
    RequestRedraw,
}

/// The shape of the pointer over the canvas.
#[derive(Debug, Clone, Copy, PartialEq, Eq, Structural)]
pub enum PointerShape {
    Default,
    Grab,
    Grabbing,
    Crosshair,
    Pointer,
}

/// One hundred pixels of scrolling count as one line.
pub const PIXELS_PER_LINE: i64 = 100;

/// Whether a character is a control code: U+0000 to U+001F and U+007F to
/// U+009F.
pub open spec fn is_control_char(c: char) -> bool {
    (c as u32) <= 0x1f || (0x7f <= (c as u32) && (c as u32) <= 0x9f)
}

/// Whether a text holds no control code.
pub open spec fn is_printable(text: Seq<char>) -> bool {
    forall|i: int| 0 <= i < text.len() ==> !is_control_char(#[trigger] text[i])
}

/// Tells whether a character is a control code.
pub fn is_control(c: char) -> (r: bool)
    ensures
        r == is_control_char(c),
{
    let u: u32 = c as u32;
    u <= 0x1f || (0x7f <= u && u <= 0x9f)
}

/// Tells whether a text holds no control code.
pub fn printable(text: &str) -> (r: bool)
    ensures
        r == is_printable(text@),
{
    let n: usize = text.unicode_len();
    let mut i: usize = 0;
    while i < n
        invariant
            i <= n,
            n == text@.len(),
            forall|j: int| 0 <= j < i ==> !is_control_char(#[trigger] text@[j]),
        decreases n - i,
    {
        if is_control(text.get_char(i)) {
            return false;
        }
        i += 1;
    }
    true
}

/// The scroll amount in thousandths of a line.
pub open spec fn scroll_lines(delta: ScrollDelta) -> int {
    match delta {
        ScrollDelta::Lines { y } => y as int,
        ScrollDelta::Pixels { y } => y as int / (PIXELS_PER_LINE as int),
    }
}

/// The message of a key while the search is open.
pub open spec fn search_key(key: Key, modifiers: Modifiers, text: Option<String>) -> Option<GraphMessage> {
    match key {
        Key::Escape => Some(GraphMessage::SearchClear),
        Key::Backspace => Some(GraphMessage::SearchBackspace),
        Key::Enter => Some(GraphMessage::SearchCommit),
        _ => match text {
            Some(t) => if t@.len() > 0 && !modifiers.control && !modifiers.alt && is_printable(t@) {
                Some(GraphMessage::SearchInput { text: t })
            } else {
                None
            },
            None => None,
        },
    }
}

/// The message of a key while the search is closed.
pub open spec fn command_key(key: Key, modifiers: Modifiers, show_help: bool) -> Option<GraphMessage> {
    match key {
        Key::Character(c) => if (c == 'f' || c == 'F') && modifiers.control {
            Some(GraphMessage::SearchActivate)
        } else if c == '/' && !modifiers.control {
            Some(GraphMessage::SearchActivate)
        } else if (c == 'l' || c == 'L') && !modifiers.control {
            Some(GraphMessage::AutoLayout)
        } else if (c == 'z' || c == 'Z') && modifiers.control && !modifiers.shift {
            Some(GraphMessage::Undo)
        } else if (c == 'z' || c == 'Z') && modifiers.control && modifiers.shift {
            Some(GraphMessage::Redo)
        } else if (c == 'y' || c == 'Y') && modifiers.control {
            Some(GraphMessage::Redo)
        } else if c == '?' {
            Some(GraphMessage::ToggleHelp)
        } else {
            None
        },
        Key::F1 => Some(GraphMessage::ToggleHelp),
        Key::Escape => if show_help {
            Some(GraphMessage::ToggleHelp)
        } else {
            None
        },
        _ => None,
    }
}

/// What an action is made of a message, if there is one.
pub open spec fn published(message: Option<GraphMessage>) -> Option<CanvasAction> {
    match message {
        Some(m) => Some(CanvasAction::Publish(m)),
        None => None,
    }
}

/// The step of the state machine: the state after an event with the
/// pointer at `cursor`, and what the canvas has to do. `hit` is what lies
/// under the pointer.
pub open spec fn canvas_step(
    state: Interaction,
    event: CanvasEvent,
    cursor: Point,
    hit: HitResult,
    search_active: bool,
    show_help: bool,
) -> (Interaction, Option<CanvasAction>) {
    match event {
        CanvasEvent::LeftPressed => match hit {
            HitResult::Port { node_id, port_id } => (
                Interaction::CreatingConnection { from_node: node_id, from_port: port_id },
                Some(CanvasAction::Publish(GraphMessage::ConnectionStarted { node_id, port_id })),
            ),
            HitResult::Node(node_id) => (
                Interaction::Dragging { node_id, last_pos: cursor },
                Some(CanvasAction::RequestRedraw),
            ),
            _ => (Interaction::Panning { last_pos: cursor }, Some(CanvasAction::RequestRedraw)),
        },
        CanvasEvent::RightPressed => match hit {
            HitResult::Link { link_id, output_port, input_port } => (
                state,
                Some(CanvasAction::Publish(GraphMessage::DisconnectLink { link_id, output_port, input_port })),
            ),
            _ => (state, None),
        },
        CanvasEvent::LeftReleased => (
            Interaction::Idle,
            match state {
                Interaction::Dragging { node_id, last_pos } => Some(
                    CanvasAction::Publish(GraphMessage::NodeDragEnded { node_id }),
                ),
                Interaction::CreatingConnection { from_node, from_port } => match hit {
                    HitResult::Port { node_id, port_id } => Some(
                        CanvasAction::Publish(
                            GraphMessage::ConnectionEnded { from_node, from_port, to_node: node_id, to_port: port_id },
                        ),
                    ),
                    _ => Some(CanvasAction::Publish(GraphMessage::ConnectionCancelled)),
                },
                _ => Some(CanvasAction::RequestRedraw),
            },
        ),
        CanvasEvent::CursorMoved => match state {
            Interaction::Dragging { node_id, last_pos } => (
                Interaction::Dragging { node_id, last_pos: cursor },
                Some(CanvasAction::Publish(GraphMessage::NodeDragged { node_id, delta: offset(last_pos, cursor) })),
            ),
            Interaction::Panning { last_pos } => (
                Interaction::Panning { last_pos: cursor },
                Some(CanvasAction::Publish(GraphMessage::Pan(offset(last_pos, cursor)))),
            ),
            Interaction::CreatingConnection { from_node, from_port } => (state, Some(CanvasAction::RequestRedraw)),
            Interaction::Idle => (state, None),
        },
        CanvasEvent::WheelScrolled { delta } => (
            state,
            Some(
                CanvasAction::Publish(
                    GraphMessage::Zoom { delta: clamp_scroll(scroll_lines(delta)) as i64, cursor },
                ),
            ),
        ),
        CanvasEvent::KeyPressed { key, modifiers, text } => (
            state,
            published(
                if search_active {
                    search_key(key, modifiers, text)
                } else {
                    command_key(key, modifiers, show_help)
                },
            ),
        ),
        CanvasEvent::Other => (state, None),
    }
}

/// The way from `from` to `to`, each coordinate held in the coordinate
/// range.
pub open spec fn offset(from: Point, to: Point) -> Vector {
    Vector { x: clamp_coord(to.x - from.x) as i64, y: clamp_coord(to.y - from.y) as i64 }
}

/// A scroll amount held in the coordinate range.
pub open spec fn clamp_scroll(lines: int) -> int {
    clamp_coord(lines)
}

fn way(from: Point, to: Point) -> (r: Vector)
    ensures
        r == offset(from, to),
{
    Vector { x: saturate(to.x as i128 - from.x as i128), y: saturate(to.y as i128 - from.y as i128) }
}

fn key_message(key: Key, modifiers: Modifiers, show_help: bool) -> (r: Option<GraphMessage>)
    ensures
        r == command_key(key, modifiers, show_help),
{
    match key {
        Key::Character(c) => {
            if (c == 'f' || c == 'F') && modifiers.control {
                Some(GraphMessage::SearchActivate)
            } else if c == '/' && !modifiers.control {
                Some(GraphMessage::SearchActivate)
            } else if (c == 'l' || c == 'L') && !modifiers.control {
                Some(GraphMessage::AutoLayout)
            } else if (c == 'z' || c == 'Z') && modifiers.control && !modifiers.shift {
                Some(GraphMessage::Undo)
            } else if (c == 'z' || c == 'Z') && modifiers.control && modifiers.shift {
                Some(GraphMessage::Redo)
            } else if (c == 'y' || c == 'Y') && modifiers.control {
                Some(GraphMessage::Redo)
            } else if c == '?' {
                Some(GraphMessage::ToggleHelp)
            } else {
                None
            }
        },
        Key::F1 => Some(GraphMessage::ToggleHelp),
        Key::Escape => {
            if show_help {
                Some(GraphMessage::ToggleHelp)
            } else {
                None
            }
        },
        _ => None,
    }
}

fn search_message(key: Key, modifiers: Modifiers, text: Option<String>) -> (r: Option<GraphMessage>)
    ensures
        r == search_key(key, modifiers, text),
{
    match key {
        Key::Escape => Some(GraphMessage::SearchClear),
        Key::Backspace => Some(GraphMessage::SearchBackspace),
        Key::Enter => Some(GraphMessage::SearchCommit),
        _ => match text {
            Some(t) => {
                if !t.as_str().is_empty() && !modifiers.control && !modifiers.alt && printable(t.as_str()) {
                    Some(GraphMessage::SearchInput { text: t })
                } else {
                    None
                }
            },
            None => None,
        },
    }
}

impl Graph {
    /// Takes one event on the canvas with the pointer at `cursor_position`:
    /// moves the interaction state on and says what the canvas has to do.
    /// Without a pointer position nothing happens.
    pub fn on_canvas_event(
        &self,
        state: &mut Interaction,
        event: CanvasEvent,
        cursor_position: Option<Point>,
    ) -> (action: Option<CanvasAction>)
        ensures
            match cursor_position {
                Some(cursor) => (*final(state), action) == canvas_step(
                    *old(state),
                    event,
                    cursor,
                    self.hit_of(cursor),
                    self.search_active,
                    self.show_help,
                ),
                None => *final(state) == *old(state) && action.is_none(),
            },
    {
        let cursor = match cursor_position {
            Some(p) => p,
            None => {
                return None;
            },
        };
        match event {
            CanvasEvent::LeftPressed => {
                match self.hit_test(cursor) {
                    HitResult::Port { node_id, port_id } => {
                        *state = Interaction::CreatingConnection { from_node: node_id, from_port: port_id };
                        Some(CanvasAction::Publish(GraphMessage::ConnectionStarted { node_id, port_id }))
                    },
                    HitResult::Node(node_id) => {
                        *state = Interaction::Dragging { node_id, last_pos: cursor };
                        Some(CanvasAction::RequestRedraw)
                    },
                    _ => {
                        *state = Interaction::Panning { last_pos: cursor };
                        Some(CanvasAction::RequestRedraw)
                    },
                }
            },
            CanvasEvent::RightPressed => {
                match self.hit_test(cursor) {
                    HitResult::Link { link_id, output_port, input_port } => Some(
                        CanvasAction::Publish(GraphMessage::DisconnectLink { link_id, output_port, input_port }),
                    ),
                    _ => None,
                }
            },
            CanvasEvent::LeftReleased => {
                let action = match *state {
                    Interaction::Dragging { node_id, last_pos } => Some(
                        CanvasAction::Publish(GraphMessage::NodeDragEnded { node_id }),
                    ),
                    Interaction::CreatingConnection { from_node, from_port } => {
                        match self.hit_test(cursor) {
                            HitResult::Port { node_id, port_id } => Some(
                                CanvasAction::Publish(
                                    GraphMessage::ConnectionEnded {
                                        from_node,
                                        from_port,
                                        to_node: node_id,
                                        to_port: port_id,
                                    },
                                ),
                            ),
                            _ => Some(CanvasAction::Publish(GraphMessage::ConnectionCancelled)),
                        }
                    },
                    _ => Some(CanvasAction::RequestRedraw),
                };
                *state = Interaction::Idle;
                action
            },
            CanvasEvent::CursorMoved => {
                match *state {
                    Interaction::Dragging { node_id, last_pos } => {
                        let delta = way(last_pos, cursor);
                        *state = Interaction::Dragging { node_id, last_pos: cursor };
                        Some(CanvasAction::Publish(GraphMessage::NodeDragged { node_id, delta }))
                    },
                    Interaction::Panning { last_pos } => {
                        let delta = way(last_pos, cursor);
                        *state = Interaction::Panning { last_pos: cursor };
                        Some(CanvasAction::Publish(GraphMessage::Pan(delta)))
                    },
                    Interaction::CreatingConnection { from_node, from_port } => Some(CanvasAction::RequestRedraw),
                    Interaction::Idle => None,
                }
            },
            CanvasEvent::WheelScrolled { delta } => {
                let lines: i64 = match delta {
                    ScrollDelta::Lines { y } => saturate(y as i128),
                    ScrollDelta::Pixels { y } => saturate(div_floor(y as i128, PIXELS_PER_LINE as i128)),
                };
                Some(CanvasAction::Publish(GraphMessage::Zoom { delta: lines, cursor }))
            },
            CanvasEvent::KeyPressed { key, modifiers, text } => {
                let message = if self.search_active {
                    search_message(key, modifiers, text)
                } else {
                    key_message(key, modifiers, self.show_help)
                };
                match message {
                    Some(m) => Some(CanvasAction::Publish(m)),
                    None => None,
                }
            },
            CanvasEvent::Other => None,
        }
    }

    /// The pointer shape that fits the state and what lies under the
    /// pointer; the default shape where the pointer is off the canvas.
    pub open spec fn pointer_for(self, state: Interaction, cursor_position: Option<Point>) -> PointerShape {
        match cursor_position {
            Some(cursor) => match state {
                Interaction::Dragging { node_id, last_pos } => PointerShape::Grabbing,
                Interaction::Panning { last_pos } => PointerShape::Grabbing,
                Interaction::CreatingConnection { from_node, from_port } => PointerShape::Crosshair,
                Interaction::Idle => match self.hit_of(cursor) {
                    HitResult::Node(id) => PointerShape::Grab,
                    HitResult::Port { node_id, port_id } => PointerShape::Crosshair,
                    HitResult::Link { link_id, output_port, input_port } => PointerShape::Pointer,
                    HitResult::Nothing => PointerShape::Default,
                },
            },
            None => PointerShape::Default,
        }
    }

    /// Picks the shape of the pointer.
    pub fn mouse_interaction(&self, state: &Interaction, cursor_position: Option<Point>) -> (r: PointerShape)
        ensures
            r == self.pointer_for(*state, cursor_position),
    {
        match cursor_position {
            Some(cursor) => match state {
                Interaction::Dragging { node_id, last_pos } => PointerShape::Grabbing,
                Interaction::Panning { last_pos } => PointerShape::Grabbing,
                Interaction::CreatingConnection { from_node, from_port } => PointerShape::Crosshair,
                Interaction::Idle => match self.hit_test(cursor) {
                    HitResult::Node(id) => PointerShape::Grab,
                    HitResult::Port { node_id, port_id } => PointerShape::Crosshair,
                    HitResult::Link { link_id, output_port, input_port } => PointerShape::Pointer,
                    HitResult::Nothing => PointerShape::Default,
                },
            },
            None => PointerShape::Default,
        }
    }
}

} // verus!
