//! Hit testing: what lies under a point of the screen. Ports come before
//! node bodies, node bodies before links.

use vstd::prelude::*;
use crate::geometry::{node_height_of, to_world, world_coord};
use crate::graph::{
    is_first_with_id,
    no_node_has,
    node_index,
    Graph,
    HitResult,
    Link,
    Node,
    Port,
    PortDirection,
    NODE_HEADER_HEIGHT,
    NODE_WIDTH,
    PORT_HEIGHT,
    PORT_SPACING,
};
use crate::layout::distance;
use crate::units::{clamp_coord, div_floor, in_range, saturate, Point};

verus! {

/// A port is hit within this distance of its centre.
pub const PORT_HIT_RADIUS: i64 = 15_000;

/// A link is hit within this distance of a sampled point of its curve.
pub const LINK_HIT_DISTANCE: i64 = 8_000;

/// The control points of a link's curve stand at least this far from its
/// ends.
pub const MIN_CONTROL_OFFSET: i64 = 60_000;

/// The curve of a link is sampled at `t = 0, 1/20, ..., 20/20`.
pub const CURVE_STEPS: u32 = 20;

/// Place of the first port with `id` from `from` on; 0 if there is none.
pub open spec fn port_row_from(ports: Seq<Port>, id: u32, from: int) -> int
    decreases ports.len() - from,
{
    if from >= ports.len() || from < 0 {
        0
    } else if ports[from].id == id {
        from
    } else {
        port_row_from(ports, id, from + 1)
    }
}

/// The ports of a node on one side.
pub open spec fn side_of(node: Node, direction: PortDirection) -> Seq<Port> {
    match direction {
        PortDirection::Input => node.input_ports@,
        PortDirection::Output => node.output_ports@,
    }
}

/// The centre of the port in row `row`: on the left edge for inputs, on the
/// right edge for outputs, below the header.
pub open spec fn port_point(node: Node, direction: PortDirection, row: int) -> Point {
    Point {
        x: clamp_coord(
            node.position.x + (if direction == PortDirection::Output {
                NODE_WIDTH as int
            } else {
                0
            }),
        ) as i64,
        y: clamp_coord(
            node.position.y + NODE_HEADER_HEIGHT + PORT_SPACING + row * (PORT_HEIGHT + PORT_SPACING) + PORT_HEIGHT
                / 2,
        ) as i64,
    }
}

/// Where a port of a node is drawn.
pub open spec fn port_place(node: Node, port: Port) -> Point {
    port_point(node, port.direction, port_row_from(side_of(node, port.direction), port.id, 0))
}

/// Squared distance of two points.
pub open spec fn sq_distance(a: Point, b: Point) -> int {
    (a.x - b.x) * (a.x - b.x) + (a.y - b.y) * (a.y - b.y)
}

/// Whether two points are closer than `reach`.
pub open spec fn within(a: Point, b: Point, reach: int) -> bool {
    sq_distance(a, b) < reach * reach
}

/// Whether both coordinates of a point lie in the coordinate range.
pub open spec fn point_in_range(p: Point) -> bool {
    in_range(p.x as int) && in_range(p.y as int)
}

/// Computes the squared distance of two points.
pub fn squared_distance(a: Point, b: Point) -> (r: i128)
    requires
        point_in_range(a),
        point_in_range(b),
    ensures
        r == sq_distance(a, b),
        0 <= r,
{
    let dx: i128 = a.x as i128 - b.x as i128;
    let dy: i128 = a.y as i128 - b.y as i128;
    assert(0 <= dx * dx <= 4_000_000_000_000_000_000_000_000_000_000) by (nonlinear_arith)
        requires
            -2_000_000_000_000_000 <= dx <= 2_000_000_000_000_000,
    ;
    assert(0 <= dy * dy <= 4_000_000_000_000_000_000_000_000_000_000) by (nonlinear_arith)
        requires
            -2_000_000_000_000_000 <= dy <= 2_000_000_000_000_000,
    ;
    dx * dx + dy * dy
}

/// One coordinate of the cubic curve through `first` and `fourth` with control
/// coordinates `second` and `third`, at `t = step / 20`.
pub open spec fn curve_coord(first: int, second: int, third: int, fourth: int, step: int) -> int {
    let a = 20 - step;
    clamp_coord((a * a * a * first + 3 * a * a * step * second + 3 * a * step * step * third + step * step * step * fourth) / 8000)
}

/// The point of the cubic curve at `t = step / 20`.
pub open spec fn curve_point(first: Point, second: Point, third: Point, fourth: Point, step: int) -> Point {
    Point {
        x: curve_coord(first.x as int, second.x as int, third.x as int, fourth.x as int, step) as i64,
        y: curve_coord(first.y as int, second.y as int, third.y as int, fourth.y as int, step) as i64,
    }
}

fn bezier_coord(first: i64, second: i64, third: i64, fourth: i64, step: u32) -> (r: i64)
    requires
        step <= CURVE_STEPS,
    ensures
        r == curve_coord(first as int, second as int, third as int, fourth as int, step as int),
        in_range(r as int),
{
    let i: i128 = step as i128;
    let a: i128 = 20 - i;
    assert(0 <= a * a <= 400 && 0 <= i * i <= 400 && 0 <= a * i <= 400) by (nonlinear_arith)
        requires
            0 <= a <= 20,
            0 <= i <= 20,
    ;
    let aa: i128 = a * a;
    let ii: i128 = i * i;
    let ai: i128 = a * i;
    assert(0 <= aa * a <= 8000 && 0 <= ii * i <= 8000 && 0 <= aa * i <= 8000 && 0 <= ai * i <= 8000) by (nonlinear_arith)
        requires
            0 <= a <= 20,
            0 <= i <= 20,
            0 <= aa <= 400,
            0 <= ii <= 400,
            0 <= ai <= 400,
    ;
    let c0: i128 = aa * a;
    let c1: i128 = 3 * (aa * i);
    let c2: i128 = 3 * (ai * i);
    let c3: i128 = ii * i;
    assert(c0 == a * a * a && c1 == 3 * a * a * i && c2 == 3 * a * i * i && c3 == i * i * i) by (nonlinear_arith)
        requires
            aa == a * a,
            ii == i * i,
            ai == a * i,
            c0 == aa * a,
            c1 == 3 * (aa * i),
            c2 == 3 * (ai * i),
            c3 == ii * i,
    ;
    let w0: i128 = first as i128;
    let w1: i128 = second as i128;
    let w2: i128 = third as i128;
    let w3: i128 = fourth as i128;
    assert(-0x8000_0000_0000_0000 * 24000 <= c0 * w0 <= 0x8000_0000_0000_0000 * 24000) by (nonlinear_arith)
        requires
            0 <= c0 <= 24000,
            -0x8000_0000_0000_0000 <= w0 <= 0x8000_0000_0000_0000,
    ;
    assert(-0x8000_0000_0000_0000 * 24000 <= c1 * w1 <= 0x8000_0000_0000_0000 * 24000) by (nonlinear_arith)
        requires
            0 <= c1 <= 24000,
            -0x8000_0000_0000_0000 <= w1 <= 0x8000_0000_0000_0000,
    ;
    assert(-0x8000_0000_0000_0000 * 24000 <= c2 * w2 <= 0x8000_0000_0000_0000 * 24000) by (nonlinear_arith)
        requires
            0 <= c2 <= 24000,
            -0x8000_0000_0000_0000 <= w2 <= 0x8000_0000_0000_0000,
    ;
    assert(-0x8000_0000_0000_0000 * 24000 <= c3 * w3 <= 0x8000_0000_0000_0000 * 24000) by (nonlinear_arith)
        requires
            0 <= c3 <= 24000,
            -0x8000_0000_0000_0000 <= w3 <= 0x8000_0000_0000_0000,
    ;
    let sum: i128 = c0 * w0 + c1 * w1 + c2 * w2 + c3 * w3;
    saturate(div_floor(sum, 8000))
}

/// The curve of a link: its two ends and its two control points.
pub struct Curve {
    pub start: Point,
    pub ctrl1: Point,
    pub ctrl2: Point,
    pub end: Point,
}

/// How far the control points stand from the ends: half the horizontal
/// span, at least `MIN_CONTROL_OFFSET`.
pub open spec fn control_offset(start_x: int, end_x: int) -> int {
    if distance(end_x, start_x) / 2 > MIN_CONTROL_OFFSET {
        distance(end_x, start_x) / 2
    } else {
        MIN_CONTROL_OFFSET as int
    }
}

/// The curve between two port centres.
pub open spec fn curve_between(start: Point, end: Point) -> Curve {
    Curve {
        start,
        ctrl1: Point { x: (start.x + control_offset(start.x as int, end.x as int)) as i64, y: start.y },
        ctrl2: Point { x: (end.x - control_offset(start.x as int, end.x as int)) as i64, y: end.y },
        end,
    }
}

/// Place of the first node with `id` from `from` on.
pub open spec fn node_from(nodes: Seq<Node>, id: u32, from: int) -> Option<int>
    decreases nodes.len() - from,
{
    if from >= nodes.len() || from < 0 {
        None
    } else if nodes[from].id == id {
        Some(from)
    } else {
        node_from(nodes, id, from + 1)
    }
}

/// Place of the first port with `id` from `from` on.
pub open spec fn port_from(ports: Seq<Port>, id: u32, from: int) -> Option<int>
    decreases ports.len() - from,
{
    if from >= ports.len() || from < 0 {
        None
    } else if ports[from].id == id {
        Some(from)
    } else {
        port_from(ports, id, from + 1)
    }
}

/// The curve of a link, where both its nodes and both its ports are there.
pub open spec fn curve_of(nodes: Seq<Node>, link: Link) -> Option<Curve> {
    match (node_from(nodes, link.output_node, 0), node_from(nodes, link.input_node, 0)) {
        (Some(o), Some(i)) => match (
            port_from(nodes[o].output_ports@, link.output_port, 0),
            port_from(nodes[i].input_ports@, link.input_port, 0),
        ) {
            (Some(op), Some(ip)) => Some(
                curve_between(
                    port_point(nodes[o], PortDirection::Output, op),
                    port_point(nodes[i], PortDirection::Input, ip),
                ),
            ),
            _ => None,
        },
        _ => None,
    }
}

/// Smallest squared distance from `w` to the first `upto` sampled points
/// of a curve.
pub open spec fn curve_gap(c: Curve, w: Point, upto: int) -> int
    decreases upto,
{
    if upto <= 1 {
        sq_distance(w, curve_point(c.start, c.ctrl1, c.ctrl2, c.end, 0))
    } else {
        let rest = curve_gap(c, w, upto - 1);
        let here = sq_distance(w, curve_point(c.start, c.ctrl1, c.ctrl2, c.end, upto - 1));
        if here < rest {
            here
        } else {
            rest
        }
    }
}

/// Whether the world point `w` hits a link.
pub open spec fn link_reached(nodes: Seq<Node>, w: Point, link: Link) -> bool {
    match curve_of(nodes, link) {
        Some(c) => curve_gap(c, w, CURVE_STEPS + 1) < LINK_HIT_DISTANCE * LINK_HIT_DISTANCE,
        None => false,
    }
}

/// Whether the world point `w` lies in the rectangle of a node.
pub open spec fn inside(node: Node, w: Point) -> bool {
    node.position.x <= w.x < node.position.x + NODE_WIDTH && node.position.y <= w.y < node.position.y
        + node_height_of(node)
}

/// The first port of one side of a node, from `from` on, that `w` hits.
pub open spec fn side_hit_from(node: Node, direction: PortDirection, w: Point, from: int) -> Option<u32>
    decreases side_of(node, direction).len() - from,
{
    let ports = side_of(node, direction);
    if from >= ports.len() || from < 0 {
        None
    } else if within(w, port_place(node, ports[from]), PORT_HIT_RADIUS as int) {
        Some(ports[from].id)
    } else {
        side_hit_from(node, direction, w, from + 1)
    }
}

/// The first port of a node that `w` hits, inputs before outputs.
pub open spec fn node_port_hit(node: Node, w: Point) -> Option<u32> {
    match side_hit_from(node, PortDirection::Input, w, 0) {
        Some(id) => Some(id),
        None => side_hit_from(node, PortDirection::Output, w, 0),
    }
}

/// The first link from `from` on that `w` hits.
pub open spec fn link_hit_from(nodes: Seq<Node>, links: Seq<Link>, w: Point, from: int) -> HitResult
    decreases links.len() - from,
{
    if from >= links.len() || from < 0 {
        HitResult::Nothing
    } else if link_reached(nodes, w, links[from]) {
        HitResult::Link {
            link_id: links[from].id,
            output_port: links[from].output_port,
            input_port: links[from].input_port,
        }
    } else {
        link_hit_from(nodes, links, w, from + 1)
    }
}

/// The first node body from `from` on that `w` hits; else the links.
pub open spec fn body_hit_from(nodes: Seq<Node>, links: Seq<Link>, w: Point, from: int) -> HitResult
    decreases nodes.len() - from,
{
    if from >= nodes.len() || from < 0 {
        link_hit_from(nodes, links, w, 0)
    } else if inside(nodes[from], w) {
        HitResult::Node(nodes[from].id)
    } else {
        body_hit_from(nodes, links, w, from + 1)
    }
}

/// The first port of the nodes from `from` on that `w` hits; else the node
/// bodies.
pub open spec fn port_hit_from(nodes: Seq<Node>, links: Seq<Link>, w: Point, from: int) -> HitResult
    decreases nodes.len() - from,
{
    if from >= nodes.len() || from < 0 {
        body_hit_from(nodes, links, w, 0)
    } else {
        match node_port_hit(nodes[from], w) {
            Some(port_id) => HitResult::Port { node_id: nodes[from].id, port_id },
            None => port_hit_from(nodes, links, w, from + 1),
        }
    }
}

impl Graph {
    /// The world point that shows at a screen point, held inside the
    /// coordinate range.
    pub open spec fn world_point(self, point: Point) -> Point {
        Point {
            x: clamp_coord(world_coord(point.x as int, self.pan_offset.x as int, self.zoom_factor())) as i64,
            y: clamp_coord(world_coord(point.y as int, self.pan_offset.y as int, self.zoom_factor())) as i64,
        }
    }

    /// What lies under a screen point.
    pub open spec fn hit_of(self, point: Point) -> HitResult {
        port_hit_from(self.nodes@, self.links@, self.world_point(point), 0)
    }

    /// Turns a screen point into the world point that shows there.
    pub fn screen_to_world(&self, point: Point) -> (w: Point)
        ensures
            w == self.world_point(point),
            point_in_range(w),
    {
        let zoom = self.zoom_in_use();
        Point {
            x: saturate(to_world(point.x, self.pan_offset.x, zoom)),
            y: saturate(to_world(point.y, self.pan_offset.y, zoom)),
        }
    }

    /// The centre of a port on the edge of its node.
    pub fn port_position(node: &Node, port: &Port) -> (r: Point)
        ensures
            r == port_place(*node, *port),
            point_in_range(r),
    {
        let ports = match port.direction {
            PortDirection::Input => &node.input_ports,
            PortDirection::Output => &node.output_ports,
        };
        let mut row: usize = 0;
        let mut k: usize = 0;
        while k < ports.len()
            invariant_except_break
                row == 0,
                port_row_from(ports@, port.id, 0) == port_row_from(ports@, port.id, k as int),
            invariant
                k <= ports.len(),
                ports@ == side_of(*node, port.direction),
            ensures
                row == port_row_from(ports@, port.id, 0),
            decreases ports.len() - k,
        {
            if ports[k].id == port.id {
                row = k;
                break ;
            }
            k += 1;
        }
        Self::port_at(node, port.direction, row)
    }

    /// The centre of the port in a given row of one side of a node.
    pub fn port_at(node: &Node, direction: PortDirection, row: usize) -> (r: Point)
        ensures
            r == port_point(*node, direction, row as int),
            point_in_range(r),
    {
        let shift: i128 = match direction {
            PortDirection::Input => 0,
            PortDirection::Output => NODE_WIDTH as i128,
        };
        let count: i128 = row as i128;
        assert(0 <= count * 26_000 <= 0xffff_ffff_ffff_ffff * 26_000) by (nonlinear_arith)
            requires
                0 <= count <= 0xffff_ffff_ffff_ffff,
        ;
        Point {
            x: saturate(node.position.x as i128 + shift),
            y: saturate(
                node.position.y as i128 + NODE_HEADER_HEIGHT as i128 + PORT_SPACING as i128 + count * 26_000
                    + 11_000,
            ),
        }
    }

    /// The point of a cubic curve at `t = step / 20`.
    pub fn cubic_bezier(first: Point, second: Point, third: Point, fourth: Point, step: u32) -> (r: Point)
        requires
            step <= CURVE_STEPS,
        ensures
            r == curve_point(first, second, third, fourth, step as int),
            point_in_range(r),
    {
        Point { x: bezier_coord(first.x, second.x, third.x, fourth.x, step), y: bezier_coord(first.y, second.y, third.y, fourth.y, step) }
    }
}

/// The first node with an id is where the search from the front finds it.
proof fn lemma_node_from_first(nodes: Seq<Node>, id: u32, i: int, from: int)
    requires
        is_first_with_id(nodes, id, i),
        0 <= from <= i,
    ensures
        node_from(nodes, id, from) == Some(i),
    decreases i - from,
{
    if from < i {
        assert(nodes[from].id != id);
        lemma_node_from_first(nodes, id, i, from + 1);
    }
}

/// Where no node has an id, the search from the front finds none.
proof fn lemma_node_from_none(nodes: Seq<Node>, id: u32, from: int)
    requires
        no_node_has(nodes, id),
        0 <= from,
    ensures
        node_from(nodes, id, from).is_none(),
    decreases nodes.len() - from,
{
    if from < nodes.len() {
        assert(nodes[from].id != id);
        lemma_node_from_none(nodes, id, from + 1);
    }
}

/// Finds the first node with the given id.
pub fn find_node(nodes: &Vec<Node>, id: u32) -> (r: Option<usize>)
    ensures
        match r {
            Some(i) => node_from(nodes@, id, 0) == Some(i as int) && i < nodes.len(),
            None => node_from(nodes@, id, 0).is_none(),
        },
{
    let r = node_index(nodes, id);
    proof {
        match r {
            Some(i) => lemma_node_from_first(nodes@, id, i as int, 0),
            None => lemma_node_from_none(nodes@, id, 0),
        }
    }
    r
}

/// Finds the first port with the given id.
pub fn find_port(ports: &Vec<Port>, id: u32) -> (r: Option<usize>)
    ensures
        match r {
            Some(i) => port_from(ports@, id, 0) == Some(i as int) && i < ports.len(),
            None => port_from(ports@, id, 0).is_none(),
        },
{
    let mut k: usize = 0;
    while k < ports.len()
        invariant
            k <= ports.len(),
            port_from(ports@, id, 0) == port_from(ports@, id, k as int),
        decreases ports.len() - k,
    {
        if ports[k].id == id {
            return Some(k);
        }
        k += 1;
    }
    None
}

/// Computes the curve between two port centres.
pub fn curve_through(start: Point, end: Point) -> (c: Curve)
    requires
        point_in_range(start),
        point_in_range(end),
    ensures
        c == curve_between(start, end),
{
    let span: i64 = if end.x >= start.x {
        end.x - start.x
    } else {
        start.x - end.x
    };
    let half: i64 = span / 2;
    let offset: i64 = if half > MIN_CONTROL_OFFSET {
        half
    } else {
        MIN_CONTROL_OFFSET
    };
    Curve {
        start,
        ctrl1: Point { x: start.x + offset, y: start.y },
        ctrl2: Point { x: end.x - offset, y: end.y },
        end,
    }
}

/// An input port that is within reach of `w` makes its side answer.
proof fn lemma_side_hit_found(node: Node, direction: PortDirection, w: Point, j: int, from: int)
    requires
        0 <= from <= j < side_of(node, direction).len(),
        within(w, port_place(node, side_of(node, direction)[j]), PORT_HIT_RADIUS as int),
    ensures
        side_hit_from(node, direction, w, from).is_some(),
    decreases j - from,
{
    if from < j {
        lemma_side_hit_found(node, direction, w, j, from + 1);
    }
}

/// A node with a port within reach of `w` makes the port search answer
/// with a port, whatever node bodies and links lie under `w`.
proof fn lemma_port_hit_found(nodes: Seq<Node>, links: Seq<Link>, w: Point, k: int, from: int)
    requires
        0 <= from <= k < nodes.len(),
        node_port_hit(nodes[k], w).is_some(),
    ensures
        port_hit_from(nodes, links, w, from) is Port,
    decreases k - from,
{
    if from < k {
        lemma_port_hit_found(nodes, links, w, k, from + 1);
    }
}

/// A point within the pick radius of a port hits a port, also where it
/// lies inside the rectangle of a node or on a link.
pub proof fn lemma_port_before_body(g: Graph, point: Point, k: int, direction: PortDirection, j: int)
    requires
        0 <= k < g.nodes@.len(),
        0 <= j < side_of(g.nodes@[k], direction).len(),
        within(g.world_point(point), port_place(g.nodes@[k], side_of(g.nodes@[k], direction)[j]), PORT_HIT_RADIUS as int),
    ensures
        g.hit_of(point) is Port,
{
    let w = g.world_point(point);
    lemma_side_hit_found(g.nodes@[k], direction, w, j, 0);
    lemma_port_hit_found(g.nodes@, g.links@, w, k, 0);
}

/// The port that the search answers with belongs to the first node that has
/// a port within reach, and is the first such port of that node.
pub proof fn lemma_first_port_is_hit(g: Graph, point: Point, k: int, port_id: u32)
    requires
        0 <= k < g.nodes@.len(),
        node_port_hit(g.nodes@[k], g.world_point(point)) == Some(port_id),
        forall|m: int| 0 <= m < k ==> node_port_hit(#[trigger] g.nodes@[m], g.world_point(point)).is_none(),
    ensures
        g.hit_of(point) == (HitResult::Port { node_id: g.nodes@[k].id, port_id }),
{
    lemma_first_port_from(g.nodes@, g.links@, g.world_point(point), k, port_id, 0);
}

proof fn lemma_first_port_from(nodes: Seq<Node>, links: Seq<Link>, w: Point, k: int, port_id: u32, from: int)
    requires
        0 <= from <= k < nodes.len(),
        node_port_hit(nodes[k], w) == Some(port_id),
        forall|m: int| 0 <= m < k ==> node_port_hit(#[trigger] nodes[m], w).is_none(),
    ensures
        port_hit_from(nodes, links, w, from) == (HitResult::Port { node_id: nodes[k].id, port_id }),
    decreases k - from,
{
    if from < k {
        assert(node_port_hit(nodes[from], w).is_none());
        lemma_first_port_from(nodes, links, w, k, port_id, from + 1);
    }
}

impl Graph {
    /// The first port of one side of a node that the world point hits.
    fn side_hit(node: &Node, direction: PortDirection, w: Point) -> (r: Option<u32>)
        requires
            point_in_range(w),
        ensures
            r == side_hit_from(*node, direction, w, 0),
    {
        let ports = match direction {
            PortDirection::Input => &node.input_ports,
            PortDirection::Output => &node.output_ports,
        };
        let mut j: usize = 0;
        while j < ports.len()
            invariant
                j <= ports.len(),
                point_in_range(w),
                ports@ == side_of(*node, direction),
                side_hit_from(*node, direction, w, 0) == side_hit_from(*node, direction, w, j as int),
            decreases ports.len() - j,
        {
            let place = Self::port_position(node, &ports[j]);
            if squared_distance(w, place) < (PORT_HIT_RADIUS as i128) * (PORT_HIT_RADIUS as i128) {
                return Some(ports[j].id);
            }
            j += 1;
        }
        None
    }

    /// The curve of a link, if both its ports are there.
    pub fn link_curve(&self, link: &Link) -> (r: Option<Curve>)
        ensures
            r == curve_of(self.nodes@, *link),
    {
        let o = match find_node(&self.nodes, link.output_node) {
            Some(o) => o,
            None => {
                return None;
            },
        };
        let i = match find_node(&self.nodes, link.input_node) {
            Some(i) => i,
            None => {
                return None;
            },
        };
        let op = match find_port(&self.nodes[o].output_ports, link.output_port) {
            Some(op) => op,
            None => {
                return None;
            },
        };
        let ip = match find_port(&self.nodes[i].input_ports, link.input_port) {
            Some(ip) => ip,
            None => {
                return None;
            },
        };
        let start = Self::port_at(&self.nodes[o], PortDirection::Output, op);
        let end = Self::port_at(&self.nodes[i], PortDirection::Input, ip);
        Some(curve_through(start, end))
    }

    /// Squared distance from a world point to the nearest sampled point of
    /// a link's curve; nothing where the link cannot be drawn.
    pub fn distance_to_link(&self, point: Point, link: &Link) -> (r: Option<i128>)
        requires
            point_in_range(point),
        ensures
            match curve_of(self.nodes@, *link) {
                Some(c) => r matches Some(gap) && gap == curve_gap(c, point, CURVE_STEPS + 1),
                None => r.is_none(),
            },
    {
        let c = match self.link_curve(link) {
            Some(c) => c,
            None => {
                return None;
            },
        };
        let first = Self::cubic_bezier(c.start, c.ctrl1, c.ctrl2, c.end, 0);
        let mut least: i128 = squared_distance(point, first);
        let mut step: u32 = 1;
        while step <= CURVE_STEPS
            invariant
                1 <= step <= CURVE_STEPS + 1,
                point_in_range(point),
                least == curve_gap(c, point, step as int),
            decreases CURVE_STEPS + 1 - step,
        {
            let sample = Self::cubic_bezier(c.start, c.ctrl1, c.ctrl2, c.end, step);
            let here = squared_distance(point, sample);
            if here < least {
                least = here;
            }
            step += 1;
        }
        Some(least)
    }

    /// Tells whether the world point lies in the rectangle of a node.
    fn in_body(node: &Node, w: Point) -> (r: bool)
        ensures
            r == inside(*node, w),
    {
        let x: i128 = node.position.x as i128;
        let y: i128 = node.position.y as i128;
        let height: i128 = Self::node_height(node) as i128;
        x <= w.x as i128 && (w.x as i128) < x + NODE_WIDTH as i128 && y <= w.y as i128 && (w.y as i128) < y + height
    }

    /// Finds what lies under a point of the screen: the first port within
    /// the pick radius, else the first node whose rectangle holds the point,
    /// else the first link whose curve passes close by.
    pub fn hit_test(&self, point: Point) -> (r: HitResult)
        ensures
            r == self.hit_of(point),
    {
        let w = self.screen_to_world(point);
        let mut k: usize = 0;
        while k < self.nodes.len()
            invariant
                k <= self.nodes.len(),
                point_in_range(w),
                self.hit_of(point) == port_hit_from(self.nodes@, self.links@, w, k as int),
            decreases self.nodes.len() - k,
        {
            let node = &self.nodes[k];
            match Self::side_hit(node, PortDirection::Input, w) {
                Some(port_id) => {
                    return HitResult::Port { node_id: node.id, port_id };
                },
                None => {},
            }
            match Self::side_hit(node, PortDirection::Output, w) {
                Some(port_id) => {
                    return HitResult::Port { node_id: node.id, port_id };
                },
                None => {},
            }
            k += 1;
        }
        let mut b: usize = 0;
        while b < self.nodes.len()
            invariant
                b <= self.nodes.len(),
                point_in_range(w),
                self.hit_of(point) == body_hit_from(self.nodes@, self.links@, w, b as int),
            decreases self.nodes.len() - b,
        {
            if Self::in_body(&self.nodes[b], w) {
                return HitResult::Node(self.nodes[b].id);
            }
            b += 1;
        }
        let mut l: usize = 0;
        while l < self.links.len()
            invariant
                l <= self.links.len(),
                point_in_range(w),
                self.hit_of(point) == link_hit_from(self.nodes@, self.links@, w, l as int),
            decreases self.links.len() - l,
        {
            let link = self.links[l];
            match self.distance_to_link(w, &link) {
                Some(gap) => {
                    if gap < (LINK_HIT_DISTANCE as i128) * (LINK_HIT_DISTANCE as i128) {
                        return HitResult::Link {
                            link_id: link.id,
                            output_port: link.output_port,
                            input_port: link.input_port,
                        };
                    }
                },
                None => {},
            }
            l += 1;
        }
        HitResult::Nothing
    }
}

} // verus!
