//! Extraction and flattening of quadratic Bézier arcs embedded in polygon
//! boundary loops.
//!
//! A boundary loop is a cyclic sequence of points, each tagged `Normal` or
//! `Control`. Every control point, with its two normal neighbours, describes
//! one quadratic arc. The separators walk the loop, report every arc and cut
//! out of the outline the arcs whose control point lies outside the polygon.
//! The flattener samples one arc exactly and builds a triangle fan over it.
//!
//! Positions are points of the integer grid (`i32` coordinates), so that the
//! sidedness test and the samples are computed exactly: the cross product in
//! `i128`, and each sample as a point with a common denominator (an
//! `ArcVertex`). A caller with real coordinates scales them onto the grid and
//! divides the samples back out.
use vstd::prelude::*;

pub mod geometry;
pub mod boundary;
pub mod polygon;
pub mod flatten;
pub mod kernel;
pub mod separation;

verus! {

/// The ways in which separation or flattening refuses its input.
#[derive(Clone, Copy, Debug, PartialEq, Eq, Structural)]
pub enum BezierError {
    /// A control point has another control point beside it: only quadratic
    /// arcs are supported.
    UnsupportedCurveOrder,
    /// Following the links from the given edge does not close a simple loop.
    MalformedLoop,
    /// Fewer than two samples were asked of an arc.
    DegenerateSampleCount,
}

} // verus!
