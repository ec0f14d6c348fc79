//! Points, the sidedness test and the quadratic Bézier formula.
use vstd::prelude::*;

verus! {

/// A position on the integer grid. Real coordinates are scaled onto the grid
/// by the caller; all the tests on positions are then exact.
#[derive(Clone, Copy, Debug, PartialEq, Eq, Structural)]
pub struct Vec2 {
    pub x: i32,
    pub y: i32,
}

/// Whether a boundary point is a vertex of the outline or a curve control point.
#[derive(Clone, Copy, Debug, PartialEq, Eq, Structural)]
pub enum PointType {
    Normal,
    Control,
}

/// What the vertex store holds for one vertex.
#[derive(Clone, Copy, Debug, PartialEq, Eq, Structural)]
pub struct PointData {
    pub position: Vec2,
    pub point_type: PointType,
}

/// The three positions of one quadratic arc, in loop order.
#[derive(Clone, Copy, Debug, PartialEq, Eq, Structural)]
pub struct QuadraticBezierSegment {
    pub from: Vec2,
    pub ctrl: Vec2,
    pub to: Vec2,
}

/// `cross(end - start, control - start)`.
pub open spec fn sidedness(start: Vec2, control: Vec2, end: Vec2) -> int {
    (end.x - start.x) * (control.y - start.y) - (end.y - start.y) * (control.x - start.x)
}

/// The control point lies outside the polygon, relative to the chord from
/// `start` to `end`. A collinear control point counts as inside.
pub open spec fn control_outside(start: Vec2, control: Vec2, end: Vec2) -> bool {
    sidedness(start, control, end) < 0
}

pub open spec fn segment_outside(s: QuadraticBezierSegment) -> bool {
    control_outside(s.from, s.ctrl, s.to)
}

proof fn lemma_product_bound(a: int, b: int)
    requires
        -0x1_0000_0000 <= a <= 0x1_0000_0000,
        -0x1_0000_0000 <= b <= 0x1_0000_0000,
    ensures
        -0x1_0000_0000_0000_0000 <= a * b <= 0x1_0000_0000_0000_0000,
{
    assert(-0x1_0000_0000_0000_0000 <= a * b <= 0x1_0000_0000_0000_0000) by (nonlinear_arith)
        requires
            -0x1_0000_0000 <= a <= 0x1_0000_0000,
            -0x1_0000_0000 <= b <= 0x1_0000_0000,
    ;
}

/// The sidedness indicator `cross(end - start, control - start)`, exactly.
pub fn cross_sign(start: Vec2, control: Vec2, end: Vec2) -> (r: i128)
    ensures
        r == sidedness(start, control, end),
{
    let ux = end.x as i128 - start.x as i128;
    let uy = end.y as i128 - start.y as i128;
    let vx = control.x as i128 - start.x as i128;
    let vy = control.y as i128 - start.y as i128;
    proof {
        lemma_product_bound(ux as int, vy as int);
        lemma_product_bound(uy as int, vx as int);
    }
    ux * vy - uy * vx
}

/// Whether the control point lies outside the chord from `start` to `end`
/// (the curve bulges out of the polygon).
pub fn is_control_outside(start: Vec2, control: Vec2, end: Vec2) -> (r: bool)
    ensures
        r == control_outside(start, control, end),
{
    cross_sign(start, control, end) < 0
}

} // verus!
