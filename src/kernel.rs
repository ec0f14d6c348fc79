//! A connectivity kernel: an arena of half-edges linked by stable integer
//! identifiers. Each edge knows the vertex it starts from and its successor
//! and predecessor along its loop.
use vstd::prelude::*;
use vstd::set_lib::{lemma_int_range, lemma_len_subset, set_int_range};
use crate::boundary::{next_index, prev_index};

verus! {

#[derive(Clone, Copy, Debug, PartialEq, Eq, Structural)]
pub struct HalfEdge {
    pub next: usize,
    pub prev: usize,
    pub vertex: usize,
}

pub struct ConnectivityKernel {
    pub edges: Vec<HalfEdge>,
}

impl View for ConnectivityKernel {
    type V = Seq<HalfEdge>;

    open spec fn view(&self) -> Seq<HalfEdge> {
        self.edges@
    }
}

/// The edge at position `j` of `c` links forward to the edge after it, and
/// that edge links back.
pub open spec fn links_at(k: Seq<HalfEdge>, c: Seq<usize>, j: int) -> bool {
    let nj = next_index(c.len() as int, j);
    k[c[j] as int].next == c[nj] && k[c[nj] as int].prev == c[j]
}

/// `c` lists, in order, the distinct edges of one closed loop of `k`.
pub open spec fn is_cycle(k: Seq<HalfEdge>, c: Seq<usize>) -> bool {
    &&& c.len() >= 1
    &&& c.no_duplicates()
    &&& forall|j: int| 0 <= j < c.len() ==> #[trigger] c[j] < k.len()
    &&& forall|j: int| 0 <= j < c.len() ==> #[trigger] links_at(k, c, j)
}

/// `c` is the loop of `k` that starts at edge `e`.
pub open spec fn loop_at(k: Seq<HalfEdge>, e: usize, c: Seq<usize>) -> bool {
    is_cycle(k, c) && c[0] == e
}

/// The vertices that the edges `c` start from.
pub open spec fn edge_vertices(k: Seq<HalfEdge>, c: Seq<usize>) -> Seq<usize> {
    Seq::new(c.len(), |j: int| k[c[j] as int].vertex)
}

/// The edges of the loop through `e`, from `e` on.
pub open spec fn loop_edges(k: Seq<HalfEdge>, e: usize) -> Seq<usize> {
    choose|c: Seq<usize>| loop_at(k, e, c)
}

/// The vertices of the loop through `e`, from `e` on.
pub open spec fn loop_vertices(k: Seq<HalfEdge>, e: usize) -> Seq<usize> {
    edge_vertices(k, loop_edges(k, e))
}

/// The kernel after `connect_edges(a, b)`: `b` follows `a` directly, and the
/// span of edges that went between them is closed into a loop of its own.
/// No edge is added or removed.
pub open spec fn connected(k: Seq<HalfEdge>, a: usize, b: usize) -> Seq<HalfEdge> {
    let na = k[a as int].next;
    let pb = k[b as int].prev;
    Seq::new(
        k.len(),
        |e: int|
            HalfEdge {
                next: if e == a {
                    b
                } else if e == pb {
                    na
                } else {
                    k[e].next
                },
                prev: if e == b {
                    a
                } else if e == na {
                    pb
                } else {
                    k[e].prev
                },
                vertex: k[e].vertex,
            },
    )
}

pub open spec fn rotate(c: Seq<usize>, r: int) -> Seq<usize> {
    c.subrange(r, c.len() as int) + c.subrange(0, r)
}

/// A sequence of distinct identifiers below `n` has at most `n` entries.
proof fn lemma_distinct_bounded(s: Seq<usize>, n: nat)
    requires
        s.no_duplicates(),
        forall|j: int| 0 <= j < s.len() ==> #[trigger] s[j] < n,
    ensures
        s.len() <= n,
{
    let t = s.map_values(|x: usize| x as int);
    assert forall|i: int, j: int| 0 <= i < t.len() && 0 <= j < t.len() && i != j implies t[i]
        != t[j] by {
        assert(s[i] != s[j]);
    }
    t.unique_seq_to_set();
    lemma_int_range(0, n as int);
    assert forall|x: int| t.to_set().contains(x) implies set_int_range(0, n as int).contains(x) by {
        let j = choose|j: int| 0 <= j < t.len() && t[j] == x;
        assert(s[j] < n);
    }
    lemma_len_subset(t.to_set(), set_int_range(0, n as int));
}

proof fn lemma_prefix_agrees(k: Seq<HalfEdge>, e: usize, c1: Seq<usize>, c2: Seq<usize>, j: int)
    requires
        loop_at(k, e, c1),
        loop_at(k, e, c2),
        0 <= j < c1.len(),
        j < c2.len(),
    ensures
        c1[j] == c2[j],
    decreases j,
{
    if j > 0 {
        lemma_prefix_agrees(k, e, c1, c2, j - 1);
        assert(links_at(k, c1, j - 1));
        assert(links_at(k, c2, j - 1));
    }
}

/// The loop through an edge is unique.
pub proof fn lemma_loop_unique(k: Seq<HalfEdge>, e: usize, c1: Seq<usize>, c2: Seq<usize>)
    requires
        loop_at(k, e, c1),
        loop_at(k, e, c2),
    ensures
        c1 == c2,
{
    if c1.len() < c2.len() {
        let l = c1.len() as int;
        lemma_prefix_agrees(k, e, c1, c2, l - 1);
        assert(links_at(k, c1, l - 1));
        assert(links_at(k, c2, l - 1));
        assert(c2[l] == c2[0]);
        assert(false);
    } else if c2.len() < c1.len() {
        let l = c2.len() as int;
        lemma_prefix_agrees(k, e, c2, c1, l - 1);
        assert(links_at(k, c1, l - 1));
        assert(links_at(k, c2, l - 1));
        assert(c1[l] == c1[0]);
        assert(false);
    } else {
        assert forall|j: int| 0 <= j < c1.len() implies c1[j] == c2[j] by {
            lemma_prefix_agrees(k, e, c1, c2, j);
        }
        assert(c1 =~= c2);
    }
}

proof fn lemma_rotate_cycle(k: Seq<HalfEdge>, c: Seq<usize>, r: int)
    requires
        is_cycle(k, c),
        0 <= r <= c.len(),
    ensures
        is_cycle(k, rotate(c, r)),
        forall|j: int|
            0 <= j < c.len() ==> #[trigger] rotate(c, r)[j] == if j < c.len() - r {
                c[j + r]
            } else {
                c[j + r - c.len()]
            },
{
    let m = c.len() as int;
    let rc = rotate(c, r);
    assert forall|j: int| 0 <= j < m implies #[trigger] rc[j] == if j < m - r {
        c[j + r]
    } else {
        c[j + r - m]
    } by {}
    assert forall|i: int, j: int| 0 <= i < m && 0 <= j < m && i != j implies rc[i] != rc[j] by {
        let oi = if i < m - r { i + r } else { i + r - m };
        let oj = if j < m - r { j + r } else { j + r - m };
        assert(rc[i] == c[oi]);
        assert(rc[j] == c[oj]);
    }
    assert forall|j: int| 0 <= j < m implies #[trigger] rc[j] < k.len() by {
        let oj = if j < m - r { j + r } else { j + r - m };
        assert(rc[j] == c[oj]);
    }
    assert forall|j: int| 0 <= j < m implies #[trigger] links_at(k, rc, j) by {
        let oj = if j < m - r { j + r } else { j + r - m };
        let nj = next_index(m, j);
        let onj = if nj < m - r { nj + r } else { nj + r - m };
        assert(rc[j] == c[oj]);
        assert(rc[nj] == c[onj]);
        assert(onj == next_index(m, oj));
        assert(links_at(k, c, oj));
    }
}

proof fn lemma_rotate_index(c: Seq<usize>, r: int)
    requires
        0 <= r <= c.len(),
    ensures
        rotate(c, r).len() == c.len(),
        forall|j: int|
            0 <= j < c.len() ==> #[trigger] rotate(c, r)[j] == if j < c.len() - r {
                c[j + r]
            } else {
                c[j + r - c.len()]
            },
{
}

/// Connecting `c[0]` to `c[2]` leaves the loop without `c[1]`.
proof fn lemma_connect_cycle(k: Seq<HalfEdge>, c: Seq<usize>)
    requires
        is_cycle(k, c),
        c.len() >= 3,
    ensures
        is_cycle(connected(k, c[0], c[2]), seq![c[0]] + c.subrange(2, c.len() as int)),
{
    let m = c.len() as int;
    let k2 = connected(k, c[0], c[2]);
    let c2 = seq![c[0]] + c.subrange(2, m);
    assert(links_at(k, c, 0));
    assert(links_at(k, c, 1));
    assert(c[0] != c[1] && c[1] != c[2] && c[0] != c[2]);
    assert(c2.len() == m - 1);
    assert forall|j: int| 0 <= j < c2.len() implies #[trigger] c2[j] < k2.len() by {
        if j >= 1 {
            assert(c2[j] == c[j + 1]);
        }
    }
    assert forall|i: int, j: int| 0 <= i < c2.len() && 0 <= j < c2.len() && i != j implies c2[i]
        != c2[j] by {
        if i >= 1 {
            assert(c2[i] == c[i + 1]);
        }
        if j >= 1 {
            assert(c2[j] == c[j + 1]);
        }
    }
    assert forall|j: int| 0 <= j < c2.len() implies #[trigger] links_at(k2, c2, j) by {
        let nj = next_index(m - 1, j);
        if j == 0 {
            assert(c2[1] == c[2]);
        } else {
            assert(c2[j] == c[j + 1]);
            assert(links_at(k, c, j + 1));
            let onj = next_index(m, j + 1);
            if nj == 0 {
                assert(onj == 0);
            } else {
                assert(c2[nj] == c[nj + 1]);
                assert(onj == nj + 1);
            }
            assert(c[j + 1] != c[0] && c[j + 1] != c[1]);
            assert(c[onj] != c[1]);
            assert(c[onj] != c[2]);
        }
    }
}

/// Rotating so that the edge before `c[p]` comes first, connecting, and
/// rotating back leaves `c` without its entry `p`.
proof fn lemma_excise_order(c: Seq<usize>, p: int)
    requires
        c.len() >= 3,
        0 <= p < c.len(),
    ensures
        ({
            let m = c.len() as int;
            let r = prev_index(m, p);
            let rc = rotate(c, r);
            let s = if p == 0 {
                1
            } else {
                m - p
            };
            &&& 0 <= r < m
            &&& 0 <= s <= m - 1
            &&& rotate(seq![rc[0]] + rc.subrange(2, m), s) == c.remove(p)
        }),
{
    let m = c.len() as int;
    let r = prev_index(m, p);
    lemma_rotate_index(c, r);
    let rc = rotate(c, r);
    let c3 = seq![rc[0]] + rc.subrange(2, m);
    let s = if p == 0 {
        1
    } else {
        m - p
    };
    lemma_rotate_index(c3, s);
    let c2 = c.remove(p);
    assert forall|j: int| 0 <= j < m - 1 implies #[trigger] rotate(c3, s)[j] == c2[j] by {
        if j < m - 1 - s {
            assert(rotate(c3, s)[j] == c3[j + s]);
        } else {
            assert(rotate(c3, s)[j] == c3[j + s - (m - 1)]);
        }
    }
    assert(rotate(c3, s) =~= c2);
}

/// Cutting a control edge `c[p]` out of a loop of at least three edges, by
/// connecting the edge before it to the edge after it.
pub proof fn lemma_excise(k: Seq<HalfEdge>, c: Seq<usize>, p: int)
    requires
        is_cycle(k, c),
        c.len() >= 3,
        0 <= p < c.len(),
    ensures
        ({
            let m = c.len() as int;
            let k2 = connected(k, c[prev_index(m, p)], c[next_index(m, p)]);
            &&& is_cycle(k2, c.remove(p))
            &&& edge_vertices(k2, c.remove(p)) == edge_vertices(k, c).remove(p)
            &&& k[c[prev_index(m, p)] as int].next == c[p]
            &&& k[c[next_index(m, p)] as int].prev == c[p]
        }),
{
    let m = c.len() as int;
    let r = prev_index(m, p);
    lemma_rotate_cycle(k, c, r);
    let rc = rotate(c, r);
    lemma_rotate_index(c, r);
    assert(rc[0] == c[r]);
    assert(rc[2] == c[next_index(m, p)]);
    lemma_connect_cycle(k, rc);
    let c3 = seq![rc[0]] + rc.subrange(2, m);
    let k2 = connected(k, c[r], c[next_index(m, p)]);
    lemma_excise_order(c, p);
    let s = if p == 0 {
        1
    } else {
        m - p
    };
    lemma_rotate_cycle(k2, c3, s);
    assert(links_at(k, c, r));
    assert(links_at(k, c, p));
    assert(edge_vertices(k2, c.remove(p)) =~= edge_vertices(k, c).remove(p));
}

/// From every edge of a loop, following the links walks the whole loop and
/// comes back after as many steps as the loop has edges.
pub proof fn lemma_loop_from_any_edge(k: Seq<HalfEdge>, c: Seq<usize>, j: int)
    requires
        is_cycle(k, c),
        0 <= j < c.len(),
    ensures
        loop_at(k, c[j], rotate(c, j)),
        loop_edges(k, c[j]) == rotate(c, j),
        loop_edges(k, c[j]).len() == c.len(),
{
    lemma_rotate_cycle(k, c, j);
    lemma_rotate_index(c, j);
    lemma_loop_unique(k, c[j], rotate(c, j), loop_edges(k, c[j]));
}

impl ConnectivityKernel {
    pub fn new() -> (r: ConnectivityKernel)
        ensures
            r@.len() == 0,
    {
        ConnectivityKernel { edges: Vec::new() }
    }

    pub fn num_edges(&self) -> (r: usize)
        ensures
            r == self@.len(),
    {
        self.edges.len()
    }

    pub fn next(&self, e: usize) -> (r: usize)
        requires
            e < self@.len(),
        ensures
            r == self@[e as int].next,
    {
        self.edges[e].next
    }

    pub fn prev(&self, e: usize) -> (r: usize)
        requires
            e < self@.len(),
        ensures
            r == self@[e as int].prev,
    {
        self.edges[e].prev
    }

    pub fn vertex(&self, e: usize) -> (r: usize)
        requires
            e < self@.len(),
        ensures
            r == self@[e as int].vertex,
    {
        self.edges[e].vertex
    }

    /// Adds a closed loop through `vertices`, in order, and returns its first
    /// edge. The edges already there are left as they are.
    pub fn add_loop(&mut self, vertices: &Vec<usize>) -> (r: usize)
        requires
            vertices@.len() >= 1,
            old(self)@.len() + vertices@.len() <= usize::MAX,
        ensures
            r == old(self)@.len(),
            final(self)@.subrange(0, old(self)@.len() as int) == old(self)@,
            loop_at(
                final(self)@,
                r,
                Seq::new(vertices@.len(), |j: int| (old(self)@.len() + j) as usize),
            ),
            loop_vertices(final(self)@, r) == vertices@,
    {
        let ghost k0 = self@;
        let l = self.edges.len();
        let n = vertices.len();
        let mut j: usize = 0;
        while j < n
            invariant
                l == k0.len(),
                n == vertices@.len(),
                n >= 1,
                l + n <= usize::MAX,
                j <= n,
                self@.len() == l + j,
                self@.subrange(0, l as int) == k0,
                forall|t: int|
                    0 <= t < j ==> #[trigger] self@[l + t] == (HalfEdge {
                        next: (l + next_index(n as int, t)) as usize,
                        prev: (l + prev_index(n as int, t)) as usize,
                        vertex: vertices@[t],
                    }),
            decreases n - j,
        {
            let next = if j == n - 1 { l } else { l + j + 1 };
            let prev = if j == 0 { l + n - 1 } else { l + j - 1 };
            self.edges.push(HalfEdge { next, prev, vertex: vertices[j] });
            assert(self@.subrange(0, l as int) =~= k0);
            j = j + 1;
        }
        let ghost c = Seq::new(n as nat, |j: int| (l + j) as usize);
        assert forall|t: int| 0 <= t < c.len() implies #[trigger] links_at(self@, c, t) by {
            assert(self@[l + t] == self@[c[t] as int]);
            let nt = next_index(n as int, t);
            assert(self@[l + nt] == self@[c[nt] as int]);
        }
        assert(loop_at(self@, l, c));
        proof {
            lemma_loop_unique(self@, l, c, loop_edges(self@, l));
            assert forall|t: int| 0 <= t < n implies #[trigger] loop_vertices(self@, l)[t]
                == vertices@[t] by {
                assert(self@[l + t] == self@[c[t] as int]);
            }
            assert(loop_vertices(self@, l) =~= vertices@);
        }
        l
    }

    /// The edges of the loop through `e`, from `e` on; `None` where following
    /// the links from `e` does not close a simple loop within as many steps
    /// as the kernel has edges.
    pub fn loop_from(&self, e: usize) -> (r: Option<Vec<usize>>)
        ensures
            r is Some <==> exists|c: Seq<usize>| loop_at(self@, e, c),
            r matches Some(w) ==> loop_at(self@, e, w@) && w@ == loop_edges(self@, e),
    {
        let len = self.edges.len();
        if e >= len {
            return None;
        }
        let mut w: Vec<usize> = Vec::new();
        w.push(e);
        while w.len() <= len
            invariant
                len == self@.len(),
                w@.len() >= 1,
                w@[0] == e,
                w@.no_duplicates(),
                forall|j: int| 0 <= j < w@.len() ==> #[trigger] w@[j] < len,
                forall|j: int|
                    0 <= j < w@.len() - 1 ==> #[trigger] self@[w@[j] as int].next == w@[j + 1]
                        && self@[w@[j + 1] as int].prev == w@[j],
                forall|c: Seq<usize>|
                    #[trigger] loop_at(self@, e, c) ==> w@.len() <= c.len() && w@ =~= c.subrange(
                        0,
                        w@.len() as int,
                    ),
            decreases len + 1 - w@.len(),
        {
            let x = w[w.len() - 1];
            let nx = self.edges[x].next;
            let ghost m = w@.len() as int;
            if nx >= len || self.edges[nx].prev != x {
                assert forall|c: Seq<usize>| !loop_at(self@, e, c) by {
                    if loop_at(self@, e, c) {
                        assert(c[m - 1] == w@[m - 1]);
                        assert(links_at(self@, c, m - 1));
                    }
                }
                return None;
            }
            if nx == e {
                assert forall|j: int| 0 <= j < w@.len() implies #[trigger] links_at(self@, w@, j) by {
                    if j < m - 1 {
                        assert(self@[w@[j] as int].next == w@[j + 1]);
                    }
                }
                assert(loop_at(self@, e, w@));
                proof {
                    lemma_loop_unique(self@, e, w@, loop_edges(self@, e));
                }
                return Some(w);
            }
            assert forall|j: int| 0 <= j < m implies w@[j] != nx by {
                if j > 0 && w@[j] == nx {
                    assert(self@[w@[j - 1] as int].next == w@[j]);
                    assert(w@[j - 1] == x);
                    assert(w@[m - 1] == x);
                }
            }
            assert forall|c: Seq<usize>| #[trigger] loop_at(self@, e, c) implies w@.len() < c.len() by {
                if c.len() == m {
                    assert(links_at(self@, c, m - 1));
                    assert(c[m - 1] == w@[m - 1]);
                }
            }
            let ghost w0 = w@;
            w.push(nx);
            assert forall|c: Seq<usize>| #[trigger] loop_at(self@, e, c) implies w@.len() <= c.len()
                && w@ =~= c.subrange(0, w@.len() as int) by {
                assert(w0 =~= c.subrange(0, m));
                assert(links_at(self@, c, m - 1));
                assert(c[m - 1] == w0[m - 1]);
            }
        }
        assert forall|c: Seq<usize>| !loop_at(self@, e, c) by {
            if loop_at(self@, e, c) {
                lemma_distinct_bounded(c, len as nat);
            }
        }
        None
    }

    /// Makes `b` follow `a` directly. The edges that went between them are
    /// taken off the loop and closed into a loop of their own.
    pub fn connect_edges(&mut self, a: usize, b: usize)
        requires
            a < old(self)@.len(),
            b < old(self)@.len(),
            old(self)@[a as int].next < old(self)@.len(),
            old(self)@[b as int].prev < old(self)@.len(),
            old(self)@[a as int].next != b,
            old(self)@[b as int].prev != a,
        ensures
            final(self)@ == connected(old(self)@, a, b),
    {
        let ghost k0 = self@;
        let na = self.edges[a].next;
        let pb = self.edges[b].prev;
        let mut ea = self.edges[a];
        ea.next = b;
        self.edges.set(a, ea);
        let mut epb = self.edges[pb];
        epb.next = na;
        self.edges.set(pb, epb);
        let mut eb = self.edges[b];
        eb.prev = a;
        self.edges.set(b, eb);
        let mut ena = self.edges[na];
        ena.prev = pb;
        self.edges.set(na, ena);
        assert(self@ =~= connected(k0, a, b));
    }
}

} // verus!
