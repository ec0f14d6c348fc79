//! Separation of Bézier arcs on a loop of the connectivity kernel.
use vstd::prelude::*;
use crate::boundary::{
    curve_segments, excised_at, excised_count, excised_count_upto, is_control_at,
    is_quadratic_loop, kept_entries_upto, kept_upto, lemma_kept_first, lemma_kept_len, next_index,
    prev_index, quadratic_only, segment_at, segments_upto, separated_entries, separated_loop,
    vertices_in_store,
};
use crate::geometry::{
    PointData, PointType, QuadraticBezierSegment, is_control_outside, segment_outside, sidedness,
};
use crate::kernel::{
    ConnectivityKernel, HalfEdge, connected, edge_vertices, is_cycle, lemma_excise,
    lemma_loop_unique, links_at, loop_at, loop_edges, loop_vertices,
};
use crate::BezierError;

verus! {

/// Every edge of the kernel starts from a vertex of the store.
pub open spec fn vertices_known(k: Seq<HalfEdge>, store: Seq<PointData>) -> bool {
    forall|e: int| 0 <= e < k.len() ==> #[trigger] k[e].vertex < store.len()
}

/// The arc around the edge `ctrl`: the positions of its predecessor, itself
/// and its successor.
pub open spec fn arc_around(k: Seq<HalfEdge>, store: Seq<PointData>, ctrl: usize) -> QuadraticBezierSegment {
    QuadraticBezierSegment {
        from: store[k[k[ctrl as int].prev as int].vertex as int].position,
        ctrl: store[k[ctrl as int].vertex as int].position,
        to: store[k[k[ctrl as int].next as int].vertex as int].position,
    }
}

proof fn lemma_closed_chord_inside(s: QuadraticBezierSegment)
    requires
        s.from == s.to,
    ensures
        !segment_outside(s),
{
    assert(sidedness(s.from, s.ctrl, s.to) == 0) by (nonlinear_arith)
        requires
            s.from == s.to,
    ;
}

/// Handles the arc whose control point is the edge `ctrl`: reports it to
/// `out_beziers` and, when the control point lies outside its chord, takes
/// `ctrl` off the loop by connecting the edge before it to the edge after it.
pub fn separate_quadratic_bezier(
    kernel: &mut ConnectivityKernel,
    ctrl: usize,
    vertices: &[PointData],
    out_beziers: &mut Vec<QuadraticBezierSegment>,
)
    requires
        ctrl < old(kernel)@.len(),
        old(kernel)@[ctrl as int].prev < old(kernel)@.len(),
        old(kernel)@[ctrl as int].next < old(kernel)@.len(),
        old(kernel)@[old(kernel)@[ctrl as int].prev as int].next == ctrl,
        old(kernel)@[old(kernel)@[ctrl as int].next as int].prev == ctrl,
        vertices_known(old(kernel)@, vertices@),
        vertices@[old(kernel)@[ctrl as int].vertex as int].point_type == PointType::Control,
        vertices@[old(kernel)@[old(kernel)@[ctrl as int].prev as int].vertex as int].point_type
            == PointType::Normal,
        vertices@[old(kernel)@[old(kernel)@[ctrl as int].next as int].vertex as int].point_type
            == PointType::Normal,
    ensures
        final(out_beziers)@ == old(out_beziers)@.push(arc_around(old(kernel)@, vertices@, ctrl)),
        segment_outside(arc_around(old(kernel)@, vertices@, ctrl)) ==> final(kernel)@ == connected(
            old(kernel)@,
            old(kernel)@[ctrl as int].prev,
            old(kernel)@[ctrl as int].next,
        ),
        !segment_outside(arc_around(old(kernel)@, vertices@, ctrl)) ==> final(kernel)@ == old(
            kernel,
        )@,
{
    let ea = kernel.prev(ctrl);
    let eb = ctrl;
    let ec = kernel.next(ctrl);
    let va = vertices[kernel.vertex(ea)].position;
    let vb = vertices[kernel.vertex(eb)].position;
    let vc = vertices[kernel.vertex(ec)].position;
    let seg = QuadraticBezierSegment { from: va, ctrl: vb, to: vc };
    if is_control_outside(va, vb, vc) {
        kernel.connect_edges(ea, ec);
    }
    out_beziers.push(seg);
}

/// Walks the loop through `edge_loop` once. Reports the arc of every control
/// point to `out_bezier`, in loop order, and takes off the loop each control
/// edge whose point lies outside its chord; no edge is added, and edges off
/// the loop are left as they are. Returns an edge of the resulting loop, from
/// which it reads as the loop's kept edges in their order. A link structure
/// that does not close a simple loop, or a control point with a control
/// point beside it, is refused and nothing is changed.
pub fn separate_bezier_faces(
    kernel: &mut ConnectivityKernel,
    edge_loop: usize,
    vertices: &[PointData],
    out_bezier: &mut Vec<QuadraticBezierSegment>,
) -> (r: Result<usize, BezierError>)
    requires
        vertices_known(old(kernel)@, vertices@),
    ensures
        r == Err::<usize, BezierError>(BezierError::MalformedLoop) <==> !exists|c: Seq<usize>|
            loop_at(old(kernel)@, edge_loop, c),
        r == Err::<usize, BezierError>(BezierError::UnsupportedCurveOrder) <==> (exists|
            c: Seq<usize>,
        | loop_at(old(kernel)@, edge_loop, c)) && !quadratic_only(
            vertices@,
            loop_vertices(old(kernel)@, edge_loop),
        ),
        r is Ok <==> (exists|c: Seq<usize>| loop_at(old(kernel)@, edge_loop, c)) && quadratic_only(
            vertices@,
            loop_vertices(old(kernel)@, edge_loop),
        ),
        r is Err ==> final(kernel)@ == old(kernel)@ && final(out_bezier)@ == old(out_bezier)@,
        final(kernel)@.len() == old(kernel)@.len(),
        forall|e: int|
            0 <= e < old(kernel)@.len() && !loop_edges(old(kernel)@, edge_loop).contains(
                e as usize,
            ) ==> #[trigger] final(kernel)@[e] == old(kernel)@[e],
        excised_count(vertices@, loop_vertices(old(kernel)@, edge_loop)) == 0 ==> final(kernel)@
            == old(kernel)@,
        r matches Ok(e) ==> loop_at(final(kernel)@, e, loop_edges(final(kernel)@, e)),
        r matches Ok(e) ==> loop_edges(final(kernel)@, e) == separated_entries(
            vertices@,
            loop_vertices(old(kernel)@, edge_loop),
            loop_edges(old(kernel)@, edge_loop),
        ),
        r matches Ok(e) ==> loop_vertices(final(kernel)@, e) == separated_loop(
            vertices@,
            loop_vertices(old(kernel)@, edge_loop),
        ),
        r is Ok ==> final(out_bezier)@ == old(out_bezier)@ + curve_segments(
            vertices@,
            loop_vertices(old(kernel)@, edge_loop),
        ),
{
    let ghost k0 = kernel@;
    let ghost store = vertices@;
    let ghost out0 = out_bezier@;
    let edges = match kernel.loop_from(edge_loop) {
        Some(w) => w,
        None => {
            return Err(BezierError::MalformedLoop);
        },
    };
    let n = edges.len();
    let mut loop_vs: Vec<usize> = Vec::new();
    let mut j: usize = 0;
    while j < n
        invariant
            n == edges@.len(),
            j <= n,
            loop_at(k0, edge_loop, edges@),
            kernel@ == k0,
            loop_vs@ == edge_vertices(k0, edges@).subrange(0, j as int),
        decreases n - j,
    {
        assert(edges@[j as int] < k0.len());
        loop_vs.push(kernel.vertex(edges[j]));
        assert(loop_vs@ =~= edge_vertices(k0, edges@).subrange(0, j + 1));
        j = j + 1;
    }
    let ghost vs = loop_vs@;
    let ghost es = edges@;
    assert(vs =~= loop_vertices(k0, edge_loop));
    assert(vertices_in_store(store, vs)) by {
        assert forall|t: int| 0 <= t < vs.len() implies #[trigger] vs[t] < store.len() by {
            assert(edges@[t] < k0.len());
        }
    }
    if !is_quadratic_loop(vertices, &loop_vs) {
        return Err(BezierError::UnsupportedCurveOrder);
    }
    let ghost mut cur = edges@;
    let mut it = edge_loop;
    let mut first = edge_loop;
    let mut p: usize = 0;
    let mut i: usize = 0;
    assert(cur =~= kept_entries_upto(store, vs, es, 0) + es.subrange(0, n as int));
    while i < n
        invariant
            n == vs.len(),
            n == es.len(),
            es == loop_edges(k0, edge_loop),
            i <= n,
            store == vertices@,
            vertices_in_store(store, vs),
            quadratic_only(store, vs),
            vertices_known(kernel@, store),
            kernel@.len() == k0.len(),
            is_cycle(kernel@, cur),
            p == kept_upto(store, vs, i as nat).len(),
            cur.len() == p + (n - i),
            cur == kept_entries_upto(store, vs, es, i as nat) + es.subrange(i as int, n as int),
            edge_vertices(kernel@, cur) == kept_upto(store, vs, i as nat) + vs.subrange(
                i as int,
                n as int,
            ),
            forall|t: int| 0 <= t < cur.len() ==> es.contains(#[trigger] cur[t]),
            forall|e: int|
                0 <= e < k0.len() && !es.contains(e as usize) ==> #[trigger] kernel@[e] == k0[e],
            excised_count_upto(store, vs, i as nat) == 0 ==> kernel@ == k0,
            i < n ==> it == cur[p as int],
            first == cur[0],
            out_bezier@ == out0 + segments_upto(store, vs, i as nat),
        decreases n - i,
    {
        proof {
            lemma_kept_len(store, vs, i as nat);
        }
        let ghost k1 = kernel@;
        let ghost m = cur.len() as int;
        let ghost c1 = cur;
        let ghost vseq = edge_vertices(k1, cur);
        assert(vseq[p as int] == vs[i as int]);
        assert(cur[p as int] < k1.len());
        let v = kernel.vertex(it);
        if vertices[v].point_type == PointType::Control {
            assert(is_control_at(store, vs, i as int));
            let ghost pi = prev_index(m, p as int);
            let ghost ni = next_index(m, p as int);
            proof {
                assert(links_at(k1, cur, pi));
                assert(next_index(m, pi) == p);
                assert(links_at(k1, cur, p as int));
                if p > 0 {
                    assert(!excised_at(store, vs, i - 1));
                    assert(vseq[pi] == vs[prev_index(n as int, i as int)]);
                } else if i > 0 {
                    assert(!excised_at(store, vs, i - 1));
                    assert(false);
                }
                if p + 1 < m {
                    assert(vseq[ni] == vs[next_index(n as int, i as int)]);
                } else if p > 0 {
                    lemma_kept_first(store, vs, i as nat);
                } else {
                    assert(n == 1);
                    assert(false);
                }
                assert(cur[pi] < k1.len());
                assert(cur[ni] < k1.len());
                assert(k1[it as int].prev == cur[pi]);
                assert(k1[it as int].next == cur[ni]);
                assert(vseq[pi] == k1[cur[pi] as int].vertex);
                assert(vseq[ni] == k1[cur[ni] as int].vertex);
                assert(vseq[p as int] == k1[it as int].vertex);
                assert(arc_around(k1, store, it) == segment_at(store, vs, i as int));
            }
            let next = kernel.next(it);
            separate_quadratic_bezier(kernel, it, vertices, out_bezier);
            if kernel.edges[it].next != next {
                proof {
                    if m < 3 {
                        assert(pi == ni);
                        lemma_closed_chord_inside(segment_at(store, vs, i as int));
                    }
                    assert(kernel@ == connected(k1, cur[pi], cur[ni]));
                    lemma_excise(k1, cur, p as int);
                    assert(kept_upto(store, vs, (i + 1) as nat) + vs.subrange(i + 1, n as int)
                        =~= vseq.remove(p as int));
                    assert(kept_entries_upto(store, vs, es, (i + 1) as nat) + es.subrange(
                        i + 1,
                        n as int,
                    ) =~= c1.remove(p as int));
                    cur = c1.remove(p as int);
                    assert forall|t: int| 0 <= t < cur.len() implies es.contains(
                        #[trigger] cur[t],
                    ) by {
                        if t < p {
                            assert(cur[t] == c1[t]);
                        } else {
                            assert(cur[t] == c1[t + 1]);
                        }
                    }
                    assert(es.contains(c1[pi]));
                    assert(es.contains(c1[ni]));
                    assert(es.contains(c1[p as int]));
                    assert forall|e: int|
                        0 <= e < k0.len() && !es.contains(e as usize) implies #[trigger] kernel@[e]
                        == k0[e] by {
                        assert(kernel@[e] == k1[e]);
                    }
                    assert forall|e: int| 0 <= e < kernel@.len() implies #[trigger] kernel@[e].vertex
                        < store.len() by {
                        assert(kernel@[e].vertex == k1[e].vertex);
                    }
                }
                // The loop is read from its first kept edge.
                if p == 0 {
                    first = next;
                }
                it = next;
            } else {
                proof {
                    if segment_outside(segment_at(store, vs, i as int)) {
                        assert(kernel@[it as int].next == cur[ni]);
                        lemma_excise(k1, cur, p as int);
                        if m < 3 {
                            assert(pi == ni);
                            lemma_closed_chord_inside(segment_at(store, vs, i as int));
                        }
                        assert(cur[p as int] != cur[pi]);
                        assert(false);
                    }
                    assert(kept_upto(store, vs, (i + 1) as nat) + vs.subrange(i + 1, n as int)
                        =~= vseq);
                    assert(kept_entries_upto(store, vs, es, (i + 1) as nat) + es.subrange(
                        i + 1,
                        n as int,
                    ) =~= c1);
                }
                it = next;
                p = p + 1;
            }
        } else {
            proof {
                assert(kept_upto(store, vs, (i + 1) as nat) + vs.subrange(i + 1, n as int)
                    =~= vseq);
                assert(kept_entries_upto(store, vs, es, (i + 1) as nat) + es.subrange(
                    i + 1,
                    n as int,
                ) =~= c1);
                assert(links_at(k1, cur, p as int));
            }
            it = kernel.next(it);
            p = p + 1;
        }
        i = i + 1;
    }
    proof {
        assert(loop_at(kernel@, first, cur));
        lemma_loop_unique(kernel@, first, cur, loop_edges(kernel@, first));
        assert(edge_vertices(kernel@, cur) =~= separated_loop(store, vs));
        assert(cur =~= separated_entries(store, vs, es));
    }
    Ok(first)
}

/// Both separators, run on a valid loop given once as a loop of the kernel
/// and once as a polygon listing the same vertices, succeed (their contracts
/// owe it); their results then agree: the loop left in the kernel and the
/// polygon left list the same vertices, and the two report the same arcs in
/// the same order, hence the same multiset of arcs.
pub proof fn lemma_representations_agree(
    store: Seq<PointData>,
    k0: Seq<HalfEdge>,
    edge_loop: usize,
    k1: Seq<HalfEdge>,
    kernel_result: usize,
    kernel_arcs: Seq<QuadraticBezierSegment>,
    polygon0: Seq<usize>,
    polygon1: Seq<usize>,
    polygon_arcs: Seq<QuadraticBezierSegment>,
)
    requires
        exists|c: Seq<usize>| loop_at(k0, edge_loop, c),
        loop_vertices(k0, edge_loop) == polygon0,
        quadratic_only(store, polygon0),
        loop_vertices(k1, kernel_result) == separated_loop(store, loop_vertices(k0, edge_loop)),
        kernel_arcs == curve_segments(store, loop_vertices(k0, edge_loop)),
        polygon1 == separated_loop(store, polygon0),
        polygon_arcs == curve_segments(store, polygon0),
    ensures
        loop_vertices(k1, kernel_result) == polygon1,
        kernel_arcs == polygon_arcs,
        kernel_arcs.to_multiset() == polygon_arcs.to_multiset(),
{
}

} // verus!
