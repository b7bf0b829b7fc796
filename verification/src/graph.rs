//! The graph model: nodes with typed ports, links between ports, and the
//! view and editing state that goes with them.

use vstd::prelude::*;
use crate::units::{Point, Vector};
use crate::preset::Preset;

verus! {

pub const NODE_WIDTH: i64 = 180_000;

pub const NODE_HEADER_HEIGHT: i64 = 28_000;

pub const PORT_HEIGHT: i64 = 22_000;

pub const PORT_RADIUS: i64 = 6_000;

pub const PORT_SPACING: i64 = 4_000;

/// Zoom factor 1.0, in thousandths.
pub const ZOOM_ONE: i64 = 1000;

/// Smallest zoom factor (0.25), in thousandths.
pub const ZOOM_MIN: i64 = 250;

/// Largest zoom factor (4.0), in thousandths.
pub const ZOOM_MAX: i64 = 4000;

/// A request to change the model, produced by the interaction state machine.
#[allow(inconsistent_fields)]
#[derive(Debug, Clone)]
pub enum GraphMessage {
    NodeDragged { node_id: u32, delta: Vector },
    NodeDragEnded { node_id: u32 },
    ConnectionStarted { node_id: u32, port_id: u32 },
    ConnectionEnded { from_node: u32, from_port: u32, to_node: u32, to_port: u32 },
    ConnectionCancelled,
    DisconnectLink { link_id: u32, output_port: u32, input_port: u32 },
    Pan(Vector),
    /// `delta` is the scroll amount in thousandths of a line.
    Zoom { delta: i64, cursor: Point },
    AutoLayout,
    Undo,
    Redo,
    ToggleHelp,
    SearchActivate,
    SearchInput { text: String },
    SearchBackspace,
    SearchClear,
    SearchCommit,
}

#[derive(Debug, Clone)]
pub struct Node {
    pub id: u32,
    pub name: String,
    pub app_name: Option<String>,
    pub serial: Option<String>,
    pub object_path: Option<String>,
    /// Number of nodes of the same identity that were present on arrival.
    pub index: u32,
    pub position: Point,
    pub has_saved_position: bool,
    pub input_ports: Vec<Port>,
    pub output_ports: Vec<Port>,
    pub custom_name: Option<String>,
    pub source: NodeSource,
}

#[derive(Debug, Clone, Copy, PartialEq, Eq, Structural)]
pub enum NodeSource {
    PipeWire,
    AlsaMidi,
}

impl Default for NodeSource {
    fn default() -> (r: Self)
        ensures
            r == NodeSource::PipeWire,
    {
        NodeSource::PipeWire
    }
}

#[derive(Debug, Clone)]
pub struct Port {
    pub id: u32,
    pub name: String,
    pub direction: PortDirection,
    pub port_type: PortType,
}

#[derive(Debug, Clone, Copy, PartialEq, Eq, Structural)]
pub enum PortDirection {
    Input,
    Output,
}

#[derive(Debug, Clone, Copy, PartialEq, Eq, Structural)]
pub enum PortType {
    Audio,
    Midi,
    Video,
}

impl Default for PortType {
    fn default() -> (r: Self)
        ensures
            r == PortType::Audio,
    {
        PortType::Audio
    }
}

#[derive(Debug, Clone, Copy, PartialEq, Eq, Structural)]
pub struct Link {
    pub id: u32,
    pub output_node: u32,
    pub output_port: u32,
    pub input_node: u32,
    pub input_port: u32,
}

#[derive(Debug, Clone, Copy, PartialEq, Eq, Structural)]
pub enum UndoAction {
    Connect { output_port: u32, input_port: u32 },
    Disconnect { output_port: u32, input_port: u32 },
}

/// What the caller has to carry out after a model update.
#[derive(Debug, Clone, Copy, PartialEq, Eq, Structural)]
pub enum Effect {
    Nothing,
    /// Ask the connection mechanism to link the two ports.
    Connect { output_port: u32, input_port: u32 },
    /// Ask the connection mechanism to unlink the two ports.
    Disconnect { output_port: u32, input_port: u32 },
    /// The position store changed and has to be written out.
    SaveConfig,
}

pub struct Graph {
    /// Nodes in arrival order; no id occurs twice.
    pub nodes: Vec<Node>,
    pub links: Vec<Link>,
    pub pan_offset: Vector,
    /// Zoom factor in thousandths.
    pub zoom: i64,
    /// Set by every change that the drawing layer has to pick up.
    pub dirty: bool,
    pub undo_stack: Vec<UndoAction>,
    pub redo_stack: Vec<UndoAction>,
    pub show_help: bool,
    pub search_query: String,
    pub search_active: bool,
    /// Ids of the nodes that match the query, in node order.
    pub filtered_nodes: Vec<u32>,
    pub current_preset: Option<Preset>,
    pub preset_path: Option<String>,
    pub exclusive_mode: bool,
    pub renaming_node: Option<u32>,
    pub rename_text: String,
    pub pinned_connections: Vec<(u32, u32)>,
}

/// Whether `nodes[j]` is the first node that carries `id`.
pub open spec fn is_first_with_id(nodes: Seq<Node>, id: u32, j: int) -> bool {
    0 <= j < nodes.len() && nodes[j].id == id && forall|m: int| 0 <= m < j ==> (#[trigger] nodes[m]).id != id
}

/// Whether no two nodes carry the same id.
pub open spec fn ids_unique(nodes: Seq<Node>) -> bool {
    forall|i: int, j: int| 0 <= i < j < nodes.len() ==> (#[trigger] nodes[i]).id != (#[trigger] nodes[j]).id
}

/// Whether no node carries `id`.
pub open spec fn no_node_has(nodes: Seq<Node>, id: u32) -> bool {
    forall|j: int| 0 <= j < nodes.len() ==> (#[trigger] nodes[j]).id != id
}

/// Place of the first node with the given id, if there is one.
pub fn node_index(nodes: &Vec<Node>, id: u32) -> (r: Option<usize>)
    ensures
        match r {
            Some(i) => is_first_with_id(nodes@, id, i as int),
            None => no_node_has(nodes@, id),
        },
{
    let mut i: usize = 0;
    while i < nodes.len()
        invariant
            i <= nodes.len(),
            forall|j: int| 0 <= j < i ==> (#[trigger] nodes@[j]).id != id,
        decreases nodes.len() - i,
    {
        if nodes[i].id == id {
            return Some(i);
        }
        i += 1;
    }
    None
}

#[derive(Debug, Clone, Copy, PartialEq, Eq, Structural)]
pub enum HitResult {
    /// No port, node body or link lies under the point.
    Nothing,
    Node(u32),
    Port { node_id: u32, port_id: u32 },
    Link { link_id: u32, output_port: u32, input_port: u32 },
}

#[derive(Debug, Clone, Copy, PartialEq, Eq, Structural)]
pub enum Interaction {
    Idle,
    Dragging { node_id: u32, last_pos: Point },
    Panning { last_pos: Point },
    CreatingConnection { from_node: u32, from_port: u32 },
}

impl Default for Interaction {
    fn default() -> (r: Self)
        ensures
            r == Interaction::Idle,
    {
        Interaction::Idle
    }
}

} // verus!
