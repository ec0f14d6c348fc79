//! A boundary loop stored as a cyclic sequence of vertex identifiers,
//! addressed by position.
use vstd::prelude::*;
use crate::boundary::{
    curve_segments, excised_at, is_control_at, is_quadratic_loop, kept_upto, lemma_kept_first,
    lemma_kept_len, next_index, prev_index, quadratic_only, segment_at,
    segments_upto, separated_loop, vertices_in_store,
};
use crate::geometry::{PointData, PointType, QuadraticBezierSegment, is_control_outside};
use crate::BezierError;

verus! {

/// A polygon given by the vertex identifiers of its outline, in order; the
/// last one is followed by the first.
pub struct Polygon {
    pub vertices: Vec<usize>,
}

impl View for Polygon {
    type V = Seq<usize>;

    open spec fn view(&self) -> Seq<usize> {
        self.vertices@
    }
}

impl Polygon {
    pub fn new(vertices: Vec<usize>) -> (r: Polygon)
        ensures
            r@ == vertices@,
    {
        Polygon { vertices }
    }

    pub fn len(&self) -> (r: usize)
        ensures
            r == self@.len(),
    {
        self.vertices.len()
    }

    /// The position after `p`, wrapping around.
    pub fn next(&self, p: usize) -> (r: usize)
        requires
            p < self@.len(),
        ensures
            r == next_index(self@.len() as int, p as int),
    {
        if p == self.vertices.len() - 1 {
            0
        } else {
            p + 1
        }
    }

    /// The position before `p`, wrapping around.
    pub fn previous(&self, p: usize) -> (r: usize)
        requires
            p < self@.len(),
        ensures
            r == prev_index(self@.len() as int, p as int),
    {
        if p == 0 {
            self.vertices.len() - 1
        } else {
            p - 1
        }
    }

    /// The vertex at position `p`.
    pub fn vertex(&self, p: usize) -> (r: usize)
        requires
            p < self@.len(),
        ensures
            r == self@[p as int],
    {
        self.vertices[p]
    }

    /// Takes the vertex at position `p` out of the cyclic order; its two
    /// neighbours become adjacent.
    pub fn remove_vertex(&mut self, p: usize)
        requires
            p < old(self)@.len(),
        ensures
            final(self)@ == old(self)@.remove(p as int),
    {
        self.vertices.remove(p);
    }
}

/// Walks the polygon once, from its first position. Reports the arc of every
/// control point to `out_beziers`, in loop order, and removes from the outline
/// each control point that lies outside its chord. A loop in which a control
/// point has a control point beside it is refused and left as it is.
pub fn separate_bezier_faces2(
    polygon: &mut Polygon,
    vertices: &[PointData],
    out_beziers: &mut Vec<QuadraticBezierSegment>,
) -> (r: Result<(), BezierError>)
    requires
        vertices_in_store(vertices@, old(polygon)@),
    ensures
        r is Err <==> !quadratic_only(vertices@, old(polygon)@),
        r is Err ==> r == Err::<(), BezierError>(BezierError::UnsupportedCurveOrder),
        r is Err ==> *final(polygon) == *old(polygon) && final(out_beziers)@ == old(out_beziers)@,
        r is Ok ==> final(polygon)@ == separated_loop(vertices@, old(polygon)@),
        r is Ok ==> final(out_beziers)@ == old(out_beziers)@ + curve_segments(
            vertices@,
            old(polygon)@,
        ),
{
    if !is_quadratic_loop(vertices, &polygon.vertices) {
        return Err(BezierError::UnsupportedCurveOrder);
    }
    let ghost store = vertices@;
    let ghost vs = polygon@;
    let ghost out0 = out_beziers@;
    let n = polygon.len();
    let mut i: usize = 0;
    let mut it: usize = 0;
    while i < n
        invariant
            n == vs.len(),
            i <= n,
            store == vertices@,
            vertices_in_store(store, vs),
            quadratic_only(store, vs),
            it == kept_upto(store, vs, i as nat).len(),
            polygon@ == kept_upto(store, vs, i as nat) + vs.subrange(i as int, n as int),
            out_beziers@ == out0 + segments_upto(store, vs, i as nat),
        decreases n - i,
    {
        proof {
            lemma_kept_len(store, vs, i as nat);
        }
        let ghost kept = kept_upto(store, vs, i as nat);
        assert(polygon@[it as int] == vs[i as int]);
        let v = polygon.vertex(it);
        if vertices[v].point_type == PointType::Control {
            assert(is_control_at(store, vs, i as int));
            let prev = polygon.previous(it);
            let next = polygon.next(it);
            proof {
                if it > 0 {
                    assert(!excised_at(store, vs, i - 1));
                    assert(polygon@[prev as int] == vs[prev_index(n as int, i as int)]);
                } else if i > 0 {
                    assert(!excised_at(store, vs, i - 1));
                    assert(false);
                }
                if it + 1 < polygon@.len() {
                    assert(polygon@[next as int] == vs[next_index(n as int, i as int)]);
                } else if it > 0 {
                    lemma_kept_first(store, vs, i as nat);
                } else {
                    assert(n == 1);
                    assert(false);
                }
            }
            let seg = QuadraticBezierSegment {
                from: vertices[polygon.vertex(prev)].position,
                ctrl: vertices[v].position,
                to: vertices[polygon.vertex(next)].position,
            };
            assert(seg == segment_at(store, vs, i as int));
            if is_control_outside(seg.from, seg.ctrl, seg.to) {
                polygon.remove_vertex(it);
                assert(polygon@ =~= kept_upto(store, vs, (i + 1) as nat) + vs.subrange(
                    i + 1,
                    n as int,
                ));
            } else {
                assert(polygon@ =~= kept_upto(store, vs, (i + 1) as nat) + vs.subrange(
                    i + 1,
                    n as int,
                ));
                it = it + 1;
            }
            out_beziers.push(seg);
        } else {
            assert(polygon@ =~= kept_upto(store, vs, (i + 1) as nat) + vs.subrange(
                i + 1,
                n as int,
            ));
            it = it + 1;
        }
        i = i + 1;
    }
    assert(polygon@ =~= separated_loop(store, vs));
    Ok(())
}

} // verus!
