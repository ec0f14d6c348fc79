//! Flattening of one quadratic arc into exact samples and a triangle fan.
use vstd::prelude::*;
use crate::geometry::{Vec2, control_outside, is_control_outside};
use crate::BezierError;

verus! {

/// A point in homogeneous form: it stands for `(x / w, y / w)`, with `w > 0`.
#[derive(Clone, Copy, Debug, PartialEq, Eq, Structural)]
pub struct ArcVertex {
    pub x: i128,
    pub y: i128,
    pub w: i128,
}

/// Three vertex indices of one triangle.
#[derive(Clone, Copy, Debug, PartialEq, Eq, Structural)]
pub struct Triangle {
    pub a: usize,
    pub b: usize,
    pub c: usize,
}

/// A vertex buffer and an index buffer. Indices pushed after
/// `begin_geometry` are local to the geometry begun there.
pub struct VertexBuffers {
    pub vertices: Vec<ArcVertex>,
    pub indices: Vec<Triangle>,
    pub base: usize,
}

pub open spec fn point_vertex(p: Vec2) -> ArcVertex {
    ArcVertex { x: p.x as i128, y: p.y as i128, w: 1 }
}

/// The quadratic Bézier point at `t = i / (n - 1)`, scaled by `(n - 1)^2`:
/// `(1 - t)^2 from + 2 (1 - t) t ctrl + t^2 to`.
pub open spec fn sample_at(from: Vec2, ctrl: Vec2, to: Vec2, n: int, i: int) -> ArcVertex {
    let d = n - 1;
    let s = d - i;
    ArcVertex {
        x: (s * s * from.x + 2 * s * i * ctrl.x + i * i * to.x) as i128,
        y: (s * s * from.y + 2 * s * i * ctrl.y + i * i * to.y) as i128,
        w: (d * d) as i128,
    }
}

/// The vertices of a flattened arc: the control point first when it lies
/// inside the chord, then the `n` samples in order.
pub open spec fn arc_vertices(from: Vec2, ctrl: Vec2, to: Vec2, n: int) -> Seq<ArcVertex> {
    let samples = Seq::new(n as nat, |i: int| sample_at(from, ctrl, to, n, i));
    if control_outside(from, ctrl, to) {
        samples
    } else {
        seq![point_vertex(ctrl)] + samples
    }
}

/// The fan `(0, j + 1, j + 2)` for `j < count`, offset by `base`.
pub open spec fn fan(base: int, count: int) -> Seq<Triangle> {
    Seq::new(
        count as nat,
        |j: int| Triangle { a: base as usize, b: (base + j + 1) as usize, c: (base + j + 2) as usize },
    )
}

/// How many triangles the fan over an arc of `n` samples has.
pub open spec fn fan_size(from: Vec2, ctrl: Vec2, to: Vec2, n: int) -> int {
    if control_outside(from, ctrl, to) {
        n - 2
    } else {
        n - 1
    }
}

impl VertexBuffers {
    pub fn new() -> (r: VertexBuffers)
        ensures
            r.vertices@.len() == 0,
            r.indices@.len() == 0,
            r.base == 0,
    {
        VertexBuffers { vertices: Vec::new(), indices: Vec::new(), base: 0 }
    }

    /// Starts a geometry: later indices count from the next vertex.
    pub fn begin_geometry(&mut self)
        ensures
            final(self).base == old(self).vertices@.len(),
            final(self).vertices@ == old(self).vertices@,
            final(self).indices@ == old(self).indices@,
    {
        self.base = self.vertices.len();
    }

    /// Appends a vertex and returns its index local to the current geometry.
    pub fn push_vertex(&mut self, v: ArcVertex) -> (r: usize)
        requires
            old(self).base <= old(self).vertices@.len(),
        ensures
            r == old(self).vertices@.len() - old(self).base,
            final(self).vertices@ == old(self).vertices@.push(v),
            final(self).indices@ == old(self).indices@,
            final(self).base == old(self).base,
    {
        let r = self.vertices.len() - self.base;
        self.vertices.push(v);
        r
    }

    /// Appends a triangle given by indices local to the current geometry.
    pub fn push_indices(&mut self, a: usize, b: usize, c: usize)
        requires
            old(self).base + a <= usize::MAX,
            old(self).base + b <= usize::MAX,
            old(self).base + c <= usize::MAX,
        ensures
            final(self).indices@ == old(self).indices@.push(
                Triangle {
                    a: (old(self).base + a) as usize,
                    b: (old(self).base + b) as usize,
                    c: (old(self).base + c) as usize,
                },
            ),
            final(self).vertices@ == old(self).vertices@,
            final(self).base == old(self).base,
    {
        let t = Triangle { a: self.base + a, b: self.base + b, c: self.base + c };
        self.indices.push(t);
    }
}

proof fn lemma_weighted(w: int, c: int)
    requires
        0 <= w <= 0x2_0000_0000_0000_0000,
        -0x8000_0000 <= c <= 0x8000_0000,
    ensures
        -0x1_0000_0000_0000_0000_0000_0000 <= w * c <= 0x1_0000_0000_0000_0000_0000_0000,
{
    assert(-0x1_0000_0000_0000_0000_0000_0000 <= w * c <= 0x1_0000_0000_0000_0000_0000_0000)
        by (nonlinear_arith)
        requires
            0 <= w <= 0x2_0000_0000_0000_0000,
            -0x8000_0000 <= c <= 0x8000_0000,
    ;
}

proof fn lemma_weights(s: int, i: int)
    requires
        0 <= s <= 0x1_0000_0000,
        0 <= i <= 0x1_0000_0000,
    ensures
        0 <= s * s <= 0x1_0000_0000_0000_0000,
        0 <= s * i <= 0x1_0000_0000_0000_0000,
        0 <= i * i <= 0x1_0000_0000_0000_0000,
{
    assert(0 <= s * i <= 0x1_0000_0000_0000_0000) by (nonlinear_arith)
        requires
            0 <= s <= 0x1_0000_0000,
            0 <= i <= 0x1_0000_0000,
    ;
    assert(0 <= s * s <= 0x1_0000_0000_0000_0000) by (nonlinear_arith)
        requires
            0 <= s <= 0x1_0000_0000,
    ;
    assert(0 <= i * i <= 0x1_0000_0000_0000_0000) by (nonlinear_arith)
        requires
            0 <= i <= 0x1_0000_0000,
    ;
}

/// The sample `i` of `n` on the arc, exactly, in homogeneous form.
pub fn bezier_sample(from: Vec2, ctrl: Vec2, to: Vec2, n: u32, i: u32) -> (r: ArcVertex)
    requires
        2 <= n,
        i < n,
    ensures
        r == sample_at(from, ctrl, to, n as int, i as int),
{
    let d = n as i128 - 1;
    let t = i as i128;
    let s = d - t;
    proof {
        lemma_weights(s as int, t as int);
        lemma_weights(d as int, d as int);
    }
    let ws = s * s;
    let wm = 2 * (s * t);
    let we = t * t;
    proof {
        lemma_weighted(ws as int, from.x as int);
        lemma_weighted(wm as int, ctrl.x as int);
        lemma_weighted(we as int, to.x as int);
        lemma_weighted(ws as int, from.y as int);
        lemma_weighted(wm as int, ctrl.y as int);
        lemma_weighted(we as int, to.y as int);
        assert(2 * (s * t) == 2 * s * t) by (nonlinear_arith);
    }
    let x = ws * from.x as i128 + wm * ctrl.x as i128 + we * to.x as i128;
    let y = ws * from.y as i128 + wm * ctrl.y as i128 + we * to.y as i128;
    ArcVertex { x, y, w: d * d }
}

/// Flattens the arc `from`, `ctrl`, `to` into `num_points` exact samples and a
/// triangle fan over them, written to `output` as one new geometry. When the
/// control point lies inside the chord it is pushed first, and the fan is
/// anchored at it. Fewer than two samples are refused, and `output` is left
/// as it is.
pub fn triangulate_quadratic_bezier(
    from: Vec2,
    ctrl: Vec2,
    to: Vec2,
    num_points: u32,
    output: &mut VertexBuffers,
) -> (r: Result<(), BezierError>)
    requires
        old(output).vertices@.len() + num_points + 1 <= usize::MAX,
    ensures
        r is Err <==> num_points < 2,
        r is Err ==> r == Err::<(), BezierError>(BezierError::DegenerateSampleCount),
        r is Err ==> final(output).vertices@ == old(output).vertices@ && final(output).indices@
            == old(output).indices@ && final(output).base == old(output).base,
        r is Ok ==> final(output).base == old(output).vertices@.len(),
        r is Ok ==> final(output).vertices@ == old(output).vertices@ + arc_vertices(
            from,
            ctrl,
            to,
            num_points as int,
        ),
        r is Ok ==> final(output).indices@ == old(output).indices@ + fan(
            old(output).vertices@.len() as int,
            fan_size(from, ctrl, to, num_points as int),
        ),
{
    if num_points < 2 {
        return Err(BezierError::DegenerateSampleCount);
    }
    let ghost v0 = output.vertices@;
    let ghost i0 = output.indices@;
    output.begin_geometry();
    let base = output.base;
    let outside = is_control_outside(from, ctrl, to);
    let count: usize = if outside {
        num_points as usize - 2
    } else {
        output.push_vertex(point_vertex_of(ctrl));
        num_points as usize - 1
    };
    let ghost vh = output.vertices@;
    let mut j: usize = 0;
    while j < count
        invariant
            j <= count,
            count == fan_size(from, ctrl, to, num_points as int),
            base == v0.len(),
            output.base == base,
            base + num_points + 1 <= usize::MAX,
            output.vertices@ == vh,
            output.indices@ == i0 + fan(base as int, j as int),
        decreases count - j,
    {
        output.push_indices(0, j + 1, j + 2);
        assert(output.indices@ =~= i0 + fan(base as int, j + 1));
        j = j + 1;
    }
    let ghost ih = output.indices@;
    let mut i: u32 = 0;
    while i < num_points
        invariant
            2 <= num_points,
            i <= num_points,
            output.base == base,
            base <= vh.len(),
            base == v0.len(),
            output.indices@ == ih,
            output.vertices@ == vh + Seq::new(
                i as nat,
                |k: int| sample_at(from, ctrl, to, num_points as int, k),
            ),
        decreases num_points - i,
    {
        let v = bezier_sample(from, ctrl, to, num_points, i);
        output.push_vertex(v);
        assert(output.vertices@ =~= vh + Seq::new(
            (i + 1) as nat,
            |k: int| sample_at(from, ctrl, to, num_points as int, k),
        ));
        i = i + 1;
    }
    assert(output.vertices@ =~= v0 + arc_vertices(from, ctrl, to, num_points as int));
    Ok(())
}

fn point_vertex_of(p: Vec2) -> (r: ArcVertex)
    ensures
        r == point_vertex(p),
{
    ArcVertex { x: p.x as i128, y: p.y as i128, w: 1 }
}

} // verus!
