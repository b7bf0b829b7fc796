//! First placement of a node that arrives: a free row in the column of its
//! kind.

use vstd::prelude::*;
use crate::graph::Node;
use crate::units::Point;

verus! {

pub const GRID_SPACING_X: i64 = 250_000;

pub const GRID_SPACING_Y: i64 = 150_000;

pub const INITIAL_Y: i64 = 50_000;

/// Column of the nodes that only have outputs.
pub const SOURCE_X: i64 = 50_000;

/// Column of the nodes that have both inputs and outputs, and of those
/// whose ports are not known yet.
pub const PROCESSOR_X: i64 = 350_000;

/// Column of the nodes that only have inputs.
pub const SINK_X: i64 = 650_000;

/// Number of rows that are tried in a column.
pub const GRID_ROWS: i64 = 50;

/// A node closer than this to a candidate in x and in y crowds it:
/// four fifths of the grid spacing in x, three fifths in y.
pub const GRID_REACH_X: i64 = 200_000;

pub const GRID_REACH_Y: i64 = 90_000;

/// What the ports make of a node.
#[derive(Debug, Clone, Copy, PartialEq, Eq, Structural)]
pub enum NodeType {
    /// Only outputs.
    Source,
    /// Only inputs.
    Sink,
    /// Both inputs and outputs.
    Processor,
    /// No ports yet.
    Unknown,
}

/// The kind of a node by its ports.
pub open spec fn node_type_of(node: Node) -> NodeType {
    if node.input_ports@.len() > 0 {
        if node.output_ports@.len() > 0 {
            NodeType::Processor
        } else {
            NodeType::Sink
        }
    } else if node.output_ports@.len() > 0 {
        NodeType::Source
    } else {
        NodeType::Unknown
    }
}

impl NodeType {
    /// The x of the column of a kind.
    pub open spec fn column_x(self) -> int {
        match self {
            NodeType::Source => SOURCE_X as int,
            NodeType::Sink => SINK_X as int,
            NodeType::Processor => PROCESSOR_X as int,
            NodeType::Unknown => PROCESSOR_X as int,
        }
    }

    /// Tells the kind of a node from the ports it has.
    pub fn from_node(node: &Node) -> (r: Self)
        ensures
            r == node_type_of(*node),
    {
        let has_inputs = node.input_ports.len() > 0;
        let has_outputs = node.output_ports.len() > 0;
        if has_inputs {
            if has_outputs {
                NodeType::Processor
            } else {
                NodeType::Sink
            }
        } else if has_outputs {
            NodeType::Source
        } else {
            NodeType::Unknown
        }
    }

    /// The x of the column in which nodes of this kind are placed first.
    pub fn base_x(&self) -> (r: i64)
        ensures
            r == self.column_x(),
    {
        match self {
            NodeType::Source => SOURCE_X,
            NodeType::Sink => SINK_X,
            NodeType::Processor => PROCESSOR_X,
            NodeType::Unknown => PROCESSOR_X,
        }
    }
}

/// Absolute difference of two coordinates.
pub open spec fn distance(a: int, b: int) -> int {
    if a >= b {
        a - b
    } else {
        b - a
    }
}

/// Whether some node stands closer to `p` than `reach_x` in x and `reach_y`
/// in y.
pub open spec fn crowded(nodes: Seq<Node>, p: Point, reach_x: int, reach_y: int) -> bool {
    exists|i: int|
        0 <= i < nodes.len() && distance((#[trigger] nodes[i]).position.x as int, p.x as int) < reach_x && distance(
            nodes[i].position.y as int,
            p.y as int,
        ) < reach_y
}

/// Tells whether some node crowds the point `p`.
pub fn is_crowded(nodes: &Vec<Node>, p: Point, reach_x: i64, reach_y: i64) -> (r: bool)
    ensures
        r == crowded(nodes@, p, reach_x as int, reach_y as int),
{
    let mut i: usize = 0;
    while i < nodes.len()
        invariant
            i <= nodes.len(),
            forall|j: int|
                0 <= j < i ==> !(distance((#[trigger] nodes@[j]).position.x as int, p.x as int) < reach_x && distance(
                    nodes@[j].position.y as int,
                    p.y as int,
                ) < reach_y),
        decreases nodes.len() - i,
    {
        let q = nodes[i].position;
        let dx: i128 = if q.x >= p.x {
            q.x as i128 - p.x as i128
        } else {
            p.x as i128 - q.x as i128
        };
        let dy: i128 = if q.y >= p.y {
            q.y as i128 - p.y as i128
        } else {
            p.y as i128 - q.y as i128
        };
        if dx < reach_x as i128 && dy < reach_y as i128 {
            return true;
        }
        i += 1;
    }
    false
}

/// The y of grid row `row`.
pub open spec fn row_y(row: int) -> int {
    INITIAL_Y + row * GRID_SPACING_Y
}

/// The first grid row from `row` on in which no node crowds the column at
/// `base_x`; the top row if all are crowded.
pub open spec fn free_row_y(nodes: Seq<Node>, base_x: i64, row: int) -> int
    decreases GRID_ROWS - row,
{
    if row >= GRID_ROWS {
        INITIAL_Y as int
    } else if !crowded(nodes, Point { x: base_x, y: row_y(row) as i64 }, GRID_REACH_X as int, GRID_REACH_Y as int) {
        row_y(row)
    } else {
        free_row_y(nodes, base_x, row + 1)
    }
}

/// Finds a free row in the column at `base_x`.
pub fn find_free_position(existing_nodes: &Vec<Node>, base_x: i64) -> (r: Point)
    ensures
        r.x == base_x,
        r.y == free_row_y(existing_nodes@, base_x, 0),
{
    let mut row: i64 = 0;
    while row < GRID_ROWS
        invariant
            0 <= row <= GRID_ROWS,
            free_row_y(existing_nodes@, base_x, 0) == free_row_y(existing_nodes@, base_x, row as int),
        decreases GRID_ROWS - row,
    {
        let candidate = Point { x: base_x, y: INITIAL_Y + row * GRID_SPACING_Y };
        if !is_crowded(existing_nodes, candidate, GRID_REACH_X, GRID_REACH_Y) {
            return candidate;
        }
        row += 1;
    }
    Point { x: base_x, y: INITIAL_Y }
}

/// Places a node whose ports are not known yet: a free row in the middle
/// column.
pub fn auto_position(existing_nodes: &Vec<Node>, _node_id: u32) -> (r: Point)
    ensures
        r.x == PROCESSOR_X,
        r.y == free_row_y(existing_nodes@, PROCESSOR_X, 0),
{
    find_free_position(existing_nodes, PROCESSOR_X)
}

/// Places a node by its kind, once its ports are known: a free row in the
/// column of sources, processors or sinks.
pub fn position_by_type(existing_nodes: &Vec<Node>, node: &Node) -> (r: Point)
    ensures
        r.x == node_type_of(*node).column_x(),
        r.y == free_row_y(existing_nodes@, node_type_of(*node).column_x() as i64, 0),
{
    let node_type = NodeType::from_node(node);
    let base_x = node_type.base_x();
    find_free_position(existing_nodes, base_x)
}

} // verus!
