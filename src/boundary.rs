//! The abstract meaning of separating a boundary loop: a loop is the cyclic
//! sequence of its vertex identifiers, read against a vertex store.
use vstd::prelude::*;
use crate::geometry::{PointData, PointType, QuadraticBezierSegment, Vec2, segment_outside, sidedness};

verus! {

pub open spec fn prev_index(n: int, i: int) -> int {
    if i == 0 { n - 1 } else { i - 1 }
}

pub open spec fn next_index(n: int, i: int) -> int {
    if i + 1 == n { 0 } else { i + 1 }
}

/// Every vertex identifier of the loop names an entry of the store.
pub open spec fn vertices_in_store(store: Seq<PointData>, vs: Seq<usize>) -> bool {
    forall|i: int| 0 <= i < vs.len() ==> #[trigger] vs[i] < store.len()
}

pub open spec fn is_control_at(store: Seq<PointData>, vs: Seq<usize>, i: int) -> bool {
    store[vs[i] as int].point_type == PointType::Control
}

pub open spec fn position_at(store: Seq<PointData>, vs: Seq<usize>, i: int) -> Vec2 {
    store[vs[i] as int].position
}

/// Every control point has a normal point on each side: only quadratic arcs.
pub open spec fn quadratic_only(store: Seq<PointData>, vs: Seq<usize>) -> bool {
    forall|i: int|
        0 <= i < vs.len() && #[trigger] is_control_at(store, vs, i) ==> !is_control_at(
            store,
            vs,
            prev_index(vs.len() as int, i),
        ) && !is_control_at(store, vs, next_index(vs.len() as int, i))
}

/// The arc around position `i`: its predecessor, itself and its successor.
pub open spec fn segment_at(store: Seq<PointData>, vs: Seq<usize>, i: int) -> QuadraticBezierSegment {
    QuadraticBezierSegment {
        from: position_at(store, vs, prev_index(vs.len() as int, i)),
        ctrl: position_at(store, vs, i),
        to: position_at(store, vs, next_index(vs.len() as int, i)),
    }
}

/// Position `i` is a control point whose arc bulges out of the polygon: it
/// leaves the outline.
pub open spec fn excised_at(store: Seq<PointData>, vs: Seq<usize>, i: int) -> bool {
    is_control_at(store, vs, i) && segment_outside(segment_at(store, vs, i))
}

/// The first `i` positions of the loop, without the excised ones.
pub open spec fn kept_upto(store: Seq<PointData>, vs: Seq<usize>, i: nat) -> Seq<usize>
    decreases i,
{
    if i == 0 {
        Seq::empty()
    } else {
        let rest = kept_upto(store, vs, (i - 1) as nat);
        if excised_at(store, vs, i - 1) {
            rest
        } else {
            rest.push(vs[i - 1])
        }
    }
}

/// The entries of `es` at the first `i` positions of the loop `vs`, without
/// those at excised positions. `es` names the loop's positions another way
/// (by edge, say).
pub open spec fn kept_entries_upto(
    store: Seq<PointData>,
    vs: Seq<usize>,
    es: Seq<usize>,
    i: nat,
) -> Seq<usize>
    decreases i,
{
    if i == 0 {
        Seq::empty()
    } else {
        let rest = kept_entries_upto(store, vs, es, (i - 1) as nat);
        if excised_at(store, vs, i - 1) {
            rest
        } else {
            rest.push(es[i - 1])
        }
    }
}

/// The arcs of the first `i` positions, in loop order.
pub open spec fn segments_upto(store: Seq<PointData>, vs: Seq<usize>, i: nat) -> Seq<
    QuadraticBezierSegment,
>
    decreases i,
{
    if i == 0 {
        Seq::empty()
    } else {
        let rest = segments_upto(store, vs, (i - 1) as nat);
        if is_control_at(store, vs, i - 1) {
            rest.push(segment_at(store, vs, i - 1))
        } else {
            rest
        }
    }
}

/// How many of the first `i` positions are excised.
pub open spec fn excised_count_upto(store: Seq<PointData>, vs: Seq<usize>, i: nat) -> nat
    decreases i,
{
    if i == 0 {
        0
    } else {
        excised_count_upto(store, vs, (i - 1) as nat) + if excised_at(store, vs, i - 1) {
            1nat
        } else {
            0nat
        }
    }
}

/// How many of the first `i` positions are control points.
pub open spec fn control_count_upto(store: Seq<PointData>, vs: Seq<usize>, i: nat) -> nat
    decreases i,
{
    if i == 0 {
        0
    } else {
        control_count_upto(store, vs, (i - 1) as nat) + if is_control_at(store, vs, i - 1) {
            1nat
        } else {
            0nat
        }
    }
}

/// The loop after separation, read from the same first position.
pub open spec fn separated_loop(store: Seq<PointData>, vs: Seq<usize>) -> Seq<usize> {
    kept_upto(store, vs, vs.len())
}

/// The entries of `es`, one per position of the loop `vs`, that stay on the
/// loop after separation.
pub open spec fn separated_entries(store: Seq<PointData>, vs: Seq<usize>, es: Seq<usize>) -> Seq<usize> {
    kept_entries_upto(store, vs, es, vs.len())
}

/// The arcs that separation reports, in loop order.
pub open spec fn curve_segments(store: Seq<PointData>, vs: Seq<usize>) -> Seq<QuadraticBezierSegment> {
    segments_upto(store, vs, vs.len())
}

pub open spec fn excised_count(store: Seq<PointData>, vs: Seq<usize>) -> nat {
    excised_count_upto(store, vs, vs.len())
}

pub open spec fn control_count(store: Seq<PointData>, vs: Seq<usize>) -> nat {
    control_count_upto(store, vs, vs.len())
}

pub proof fn lemma_kept_len(store: Seq<PointData>, vs: Seq<usize>, i: nat)
    requires
        i <= vs.len(),
    ensures
        kept_upto(store, vs, i).len() + excised_count_upto(store, vs, i) == i,
    decreases i,
{
    if i > 0 {
        lemma_kept_len(store, vs, (i - 1) as nat);
    }
}

/// A position that is not excised is the first kept one once it is passed.
pub proof fn lemma_kept_first(store: Seq<PointData>, vs: Seq<usize>, i: nat)
    requires
        1 <= i <= vs.len(),
        !excised_at(store, vs, 0),
    ensures
        kept_upto(store, vs, i).len() >= 1,
        kept_upto(store, vs, i)[0] == vs[0],
    decreases i,
{
    let rest = kept_upto(store, vs, (i - 1) as nat);
    if i > 1 {
        lemma_kept_first(store, vs, (i - 1) as nat);
        if !excised_at(store, vs, i - 1) {
            assert(kept_upto(store, vs, i)[0] == rest[0]);
        }
    } else {
        assert(rest.len() == 0);
        assert(kept_upto(store, vs, i) == rest.push(vs[0]));
    }
}

/// Every kept position keeps its vertex; the kept entries come from the loop.
pub proof fn lemma_kept_from_loop(store: Seq<PointData>, vs: Seq<usize>, i: nat)
    requires
        i <= vs.len(),
    ensures
        forall|j: int|
            0 <= j < kept_upto(store, vs, i).len() ==> exists|k: int|
                0 <= k < i && !excised_at(store, vs, k) && vs[k] == #[trigger] kept_upto(
                    store,
                    vs,
                    i,
                )[j],
    decreases i,
{
    if i > 0 {
        lemma_kept_from_loop(store, vs, (i - 1) as nat);
        let rest = kept_upto(store, vs, (i - 1) as nat);
        assert forall|j: int| 0 <= j < kept_upto(store, vs, i).len() implies exists|k: int|
            0 <= k < i && !excised_at(store, vs, k) && vs[k] == #[trigger] kept_upto(
                store,
                vs,
                i,
            )[j] by {
            if j < rest.len() {
                assert(kept_upto(store, vs, i)[j] == rest[j]);
            } else {
                assert(kept_upto(store, vs, i)[j] == vs[i - 1]);
            }
        }
    }
}

/// Separation shortens a loop by one position per excised arc, and every
/// position left in it is one that was not excised.
pub proof fn lemma_separated_loop_shape(store: Seq<PointData>, vs: Seq<usize>)
    ensures
        separated_loop(store, vs).len() == vs.len() - excised_count(store, vs),
        forall|j: int|
            0 <= j < separated_loop(store, vs).len() ==> exists|k: int|
                0 <= k < vs.len() && !excised_at(store, vs, k) && vs[k]
                    == #[trigger] separated_loop(store, vs)[j],
{
    lemma_kept_len(store, vs, vs.len());
    lemma_kept_from_loop(store, vs, vs.len());
}

proof fn lemma_segments_len(store: Seq<PointData>, vs: Seq<usize>, i: nat)
    ensures
        segments_upto(store, vs, i).len() == control_count_upto(store, vs, i),
    decreases i,
{
    if i > 0 {
        lemma_segments_len(store, vs, (i - 1) as nat);
    }
}

/// Separation reports exactly one arc per control point of the loop.
pub proof fn lemma_one_segment_per_control(store: Seq<PointData>, vs: Seq<usize>)
    ensures
        curve_segments(store, vs).len() == control_count(store, vs),
{
    lemma_segments_len(store, vs, vs.len());
}

/// A control point leaves the loop exactly when the cross product of its
/// chord and its control offset is negative; a collinear control point stays.
pub proof fn lemma_sidedness_decides(store: Seq<PointData>, vs: Seq<usize>, i: int)
    requires
        0 <= i < vs.len(),
        is_control_at(store, vs, i),
    ensures
        excised_at(store, vs, i) <==> sidedness(
            segment_at(store, vs, i).from,
            segment_at(store, vs, i).ctrl,
            segment_at(store, vs, i).to,
        ) < 0,
        sidedness(
            segment_at(store, vs, i).from,
            segment_at(store, vs, i).ctrl,
            segment_at(store, vs, i).to,
        ) == 0 ==> !excised_at(store, vs, i),
{
}

proof fn lemma_kept_entries_membership(
    store: Seq<PointData>,
    vs: Seq<usize>,
    es: Seq<usize>,
    i: nat,
    j: int,
)
    requires
        es.no_duplicates(),
        es.len() == vs.len(),
        i <= vs.len(),
        0 <= j < es.len(),
    ensures
        kept_entries_upto(store, vs, es, i).contains(es[j]) <==> (j < i && !excised_at(
            store,
            vs,
            j,
        )),
    decreases i,
{
    if i > 0 {
        lemma_kept_entries_membership(store, vs, es, (i - 1) as nat, j);
        let rest = kept_entries_upto(store, vs, es, (i - 1) as nat);
        if !excised_at(store, vs, i - 1) {
            let all = rest.push(es[i - 1]);
            if rest.contains(es[j]) {
                let t = choose|t: int| 0 <= t < rest.len() && rest[t] == es[j];
                assert(all[t] == es[j]);
            }
            if j == i - 1 {
                assert(all[rest.len() as int] == es[j]);
            }
            if all.contains(es[j]) {
                let t = choose|t: int| 0 <= t < all.len() && all[t] == es[j];
                if t < rest.len() {
                    assert(rest[t] == es[j]);
                } else {
                    assert(es[i - 1] == es[j]);
                }
            }
        }
    }
}

/// On a loop whose positions are named by distinct entries (its edges), the
/// entry of a control point is gone after separation exactly when the cross
/// product of its chord and its control offset is negative; a collinear
/// control point stays.
pub proof fn lemma_control_entry_leaves_iff_outside(
    store: Seq<PointData>,
    vs: Seq<usize>,
    es: Seq<usize>,
    j: int,
)
    requires
        es.no_duplicates(),
        es.len() == vs.len(),
        0 <= j < vs.len(),
        is_control_at(store, vs, j),
    ensures
        !separated_entries(store, vs, es).contains(es[j]) <==> sidedness(
            segment_at(store, vs, j).from,
            segment_at(store, vs, j).ctrl,
            segment_at(store, vs, j).to,
        ) < 0,
{
    lemma_kept_entries_membership(store, vs, es, vs.len(), j);
}

/// Whether every control point of the loop `vs` has a normal point on each
/// side.
pub fn is_quadratic_loop(store: &[PointData], vs: &Vec<usize>) -> (r: bool)
    requires
        vertices_in_store(store@, vs@),
    ensures
        r == quadratic_only(store@, vs@),
{
    let n = vs.len();
    let mut i: usize = 0;
    while i < n
        invariant
            n == vs@.len(),
            i <= n,
            vertices_in_store(store@, vs@),
            forall|j: int|
                0 <= j < i && #[trigger] is_control_at(store@, vs@, j) ==> !is_control_at(
                    store@,
                    vs@,
                    prev_index(n as int, j),
                ) && !is_control_at(store@, vs@, next_index(n as int, j)),
        decreases n - i,
    {
        if store[vs[i]].point_type == PointType::Control {
            let p = if i == 0 { n - 1 } else { i - 1 };
            let q = if i + 1 == n { 0 } else { i + 1 };
            if store[vs[p]].point_type == PointType::Control
                || store[vs[q]].point_type == PointType::Control {
                assert(is_control_at(store@, vs@, i as int));
                return false;
            }
        }
        i += 1;
    }
    true
}

} // verus!
