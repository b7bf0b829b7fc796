//! Sizes and anchor points of nodes and ports on the canvas.

use vstd::prelude::*;
use crate::graph::{Graph, Node, NODE_HEADER_HEIGHT, PORT_HEIGHT, PORT_SPACING, ZOOM_MAX, ZOOM_MIN};
use crate::units::{clamp_coord, div_floor, in_range, saturate, UNIT};

verus! {

/// Number of port rows of a node: the longer of its two port lists.
pub open spec fn port_rows(node: Node) -> int {
    if node.input_ports@.len() > node.output_ports@.len() {
        node.input_ports@.len() as int
    } else {
        node.output_ports@.len() as int
    }
}

/// Height of a node: header, one row per port with spacing, and a closing
/// spacing; saturated to the coordinate range.
pub open spec fn node_height_of(node: Node) -> int {
    clamp_coord(NODE_HEADER_HEIGHT + port_rows(node) * (PORT_HEIGHT + PORT_SPACING) + PORT_SPACING)
}

/// A zoom factor pulled into the range that the view allows.
pub open spec fn clamp_zoom(z: int) -> int {
    if z < ZOOM_MIN {
        ZOOM_MIN as int
    } else if z > ZOOM_MAX {
        ZOOM_MAX as int
    } else {
        z
    }
}

/// The world coordinate that shows at a screen coordinate:
/// `(screen - pan) / zoom`, rounded down to a thousandth.
pub open spec fn world_coord(screen: int, pan: int, zoom: int) -> int {
    (screen - pan) * UNIT / zoom
}

/// Computes the world coordinate under a screen coordinate.
pub fn to_world(screen: i64, pan: i64, zoom: i64) -> (r: i128)
    requires
        ZOOM_MIN <= zoom <= ZOOM_MAX,
    ensures
        r == world_coord(screen as int, pan as int, zoom as int),
        -0x8_0000_0000_0000_0000 <= r <= 0x8_0000_0000_0000_0000,
{
    let span: i128 = screen as i128 - pan as i128;
    let r = div_floor(span * 1000, zoom as i128);
    assert(-0x8_0000_0000_0000_0000 <= r <= 0x8_0000_0000_0000_0000) by {
        let a = span * 1000;
        let z = zoom as int;
        assert(a / z <= 0x8_0000_0000_0000_0000) by (nonlinear_arith)
            requires
                a <= 0x1_0000_0000_0000_0000 * 1000,
                250 <= z,
        ;
        assert(a / z >= -0x8_0000_0000_0000_0000) by (nonlinear_arith)
            requires
                a >= -0x1_0000_0000_0000_0000 * 1000,
                250 <= z,
        ;
    }
    r
}

impl Graph {
    /// The zoom factor in use: the stored one, held inside its range.
    pub open spec fn zoom_factor(self) -> int {
        clamp_zoom(self.zoom as int)
    }

    /// The zoom factor in use.
    pub fn zoom_in_use(&self) -> (z: i64)
        ensures
            z == self.zoom_factor(),
            ZOOM_MIN <= z <= ZOOM_MAX,
    {
        if self.zoom < ZOOM_MIN {
            ZOOM_MIN
        } else if self.zoom > ZOOM_MAX {
            ZOOM_MAX
        } else {
            self.zoom
        }
    }

    /// Height of the rectangle that a node takes on the canvas.
    pub fn node_height(node: &Node) -> (r: i64)
        ensures
            r == node_height_of(*node),
            0 < r,
            in_range(r as int),
    {
        let ins: usize = node.input_ports.len();
        let outs: usize = node.output_ports.len();
        let rows: usize = if ins > outs {
            ins
        } else {
            outs
        };
        let count: i128 = rows as i128;
        let row: i128 = PORT_HEIGHT as i128 + PORT_SPACING as i128;
        assert(0 <= count * row <= 0xffff_ffff_ffff_ffff * 26_000) by (nonlinear_arith)
            requires
                0 <= count <= 0xffff_ffff_ffff_ffff,
                row == 26_000,
        ;
        let wide: i128 = NODE_HEADER_HEIGHT as i128 + count * row + PORT_SPACING as i128;
        saturate(wide)
    }
}

} // verus!
