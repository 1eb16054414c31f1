//! The mesh topology engine: a container owning vertex, half-edge, edge and
//! triangle arenas, keeping them consistent under incremental construction
//! and removal.
//!
//! All cross-references are arena indices. Removed records are tombstoned
//! (their `alive` flag cleared), never compacted, so identifiers held by a
//! caller are never re-used for something else.
//!
//! The consistency that `wf` maintains across every operation:
//! - each face is a closed `next`/`prev` cycle of three half-edges;
//! - `opposite` links are symmetric and connect the two directed traversals
//!   of one shared edge, which both record the same `Edge`;
//! - every vertex heads a sibling list that holds exactly the live
//!   half-edges leaving it, each list strictly descending by index;
//! - an edge exists exactly while it has at least one live half-edge, and
//!   never has more than two (the two-manifold bound).

use vstd::prelude::*;

use crate::vertex::Vertex;

verus! {

/// Inserting the triangle would give some edge a third incident face, or a
/// second face traversing it in the same direction (inconsistent winding).
#[derive(Debug, Clone, Copy, PartialEq, Eq)]
pub struct NonManifoldError;

/// One directed traversal step of an edge, belonging to one triangle.
#[derive(Debug, Clone, Copy)]
pub struct MeshHalfEdge {
    /// Vertex this half-edge leaves from.
    pub origin: usize,
    /// Next half-edge around the same face loop.
    pub next: usize,
    /// Previous half-edge around the same face loop.
    pub prev: usize,
    /// The half-edge traversing the same edge the other way, if that side
    /// has a face.
    pub opposite: Option<usize>,
    /// Next half-edge in the origin vertex's list of outgoing half-edges.
    pub sibling: Option<usize>,
    /// The undirected edge this half-edge traverses.
    pub edge: usize,
    /// The triangle this half-edge bounds.
    pub triangle: usize,
    pub alive: bool,
}

/// A vertex record: its attributes and the head of its sibling list of
/// outgoing half-edges.
#[derive(Debug, Clone, Copy)]
pub struct MeshVertex<T> {
    pub data: Vertex<T>,
    /// Head of the list of live half-edges whose origin is this vertex.
    pub half_edge: Option<usize>,
    pub alive: bool,
}

/// An undirected adjacency between two vertices, shared by the at most two
/// half-edges that traverse it.
#[derive(Debug, Clone, Copy)]
pub struct EdgeMesh {
    pub v1: usize,
    pub v2: usize,
    /// First attached half-edge slot.
    pub half_edge_a: Option<usize>,
    /// Second attached half-edge slot; a third can never attach.
    pub half_edge_b: Option<usize>,
    pub alive: bool,
}

/// A triangular face: its three vertices in winding order and an entry
/// point into its half-edge cycle.
#[derive(Debug, Clone, Copy)]
pub struct TriangleMesh {
    /// The corner vertices, in the order the triangle was created with.
    pub vertices: (usize, usize, usize),
    /// The half-edge leaving `vertices.0`; the other two follow by `next`.
    pub half_edge: usize,
    pub alive: bool,
}

/// Membership of half-edge `x` in the sibling list that begins at `head`.
/// Lists are strictly descending by index, which is what bounds every walk.
pub open spec fn in_chain(hes: Seq<MeshHalfEdge>, head: Option<usize>, x: usize) -> bool
    decreases
            (match head {
                Some(h) => h as int + 1,
                None => 0,
            }),
{
    match head {
        None => false,
        Some(h) => x == h || (match hes[h as int].sibling {
            Some(s) => if s < h {
                in_chain(hes, Some(s), x)
            } else {
                false
            },
            None => false,
        }),
    }
}

/// Sibling lists over `hes` are locally sound around vertex `v`: every live
/// half-edge leaving `v` chains to a strictly smaller live half-edge that
/// also leaves `v`.
pub open spec fn sibling_sound(hes: Seq<MeshHalfEdge>, v: usize) -> bool {
    forall|k: usize|
        k < hes.len() && (#[trigger] hes[k as int]).alive && hes[k as int].origin == v ==> (
        hes[k as int].sibling matches Some(s) ==> s < k && hes[s as int].alive && hes[
            s as int
        ].origin == v)
}

/// A chain that starts at a live half-edge of `v` contains only live
/// half-edges of `v`, none larger than its head.
pub proof fn lemma_chain_sound(hes: Seq<MeshHalfEdge>, head: Option<usize>, v: usize, x: usize)
    requires
        sibling_sound(hes, v),
        head matches Some(h0) ==> h0 < hes.len() && hes[h0 as int].alive && hes[h0 as int].origin
            == v,
        in_chain(hes, head, x),
    ensures
        x < hes.len(),
        hes[x as int].alive,
        hes[x as int].origin == v,
        head matches Some(h0) ==> x <= h0,
    decreases
            (match head {
                Some(h) => h as int + 1,
                None => 0,
            }),
{
    let h0 = head->Some_0;
    if x != h0 {
        lemma_chain_sound(hes, hes[h0 as int].sibling, v, x);
    }
}

/// Chain membership depends only on the head and the sibling links of the
/// chain's own members: two arenas that agree there have the same chains.
pub proof fn lemma_chain_frame(
    hes1: Seq<MeshHalfEdge>,
    hes2: Seq<MeshHalfEdge>,
    head: Option<usize>,
    x: usize,
)
    requires
        forall|k: usize| #[trigger]
            in_chain(hes1, head, k) ==> hes2[k as int].sibling == hes1[k as int].sibling,
    ensures
        in_chain(hes1, head, x) <==> in_chain(hes2, head, x),
    decreases
            (match head {
                Some(h) => h as int + 1,
                None => 0,
            }),
{
    match head {
        None => {},
        Some(h) => {
            assert(in_chain(hes1, head, h));
            assert(hes2[h as int].sibling == hes1[h as int].sibling);
            match hes1[h as int].sibling {
                Some(s) => {
                    if s < h {
                        assert forall|k: usize| #[trigger]
                            in_chain(hes1, Some(s), k) implies hes2[k as int].sibling == hes1[
                            k as int
                        ].sibling by {
                            assert(in_chain(hes1, head, k));
                        }
                        lemma_chain_frame(hes1, hes2, Some(s), x);
                    }
                },
                None => {},
            }
        },
    }
}

/// Chain membership is transitive: whatever is reachable from a member is
/// reachable from the head.
proof fn lemma_chain_trans(hes: Seq<MeshHalfEdge>, head: Option<usize>, p: usize, x: usize)
    requires
        in_chain(hes, head, p),
        in_chain(hes, Some(p), x),
    ensures
        in_chain(hes, head, x),
    decreases
            (match head {
                Some(c) => c as int + 1,
                None => 0,
            }),
{
    match head {
        None => {},
        Some(c) => {
            if p != c {
                match hes[c as int].sibling {
                    Some(s) => {
                        if s < c {
                            lemma_chain_trans(hes, Some(s), p, x);
                        }
                    },
                    None => {},
                }
            }
        },
    }
}

/// Unlinking `h` behind its predecessor `p` removes exactly `h` from the
/// chain: every other member stays, and `h` is gone.
proof fn lemma_chain_unlink(
    hes: Seq<MeshHalfEdge>,
    hes2: Seq<MeshHalfEdge>,
    head: Option<usize>,
    v: usize,
    p: usize,
    h: usize,
    x: usize,
)
    requires
        sibling_sound(hes, v),
        head is Some ==> head->Some_0 < hes.len() && hes[head->Some_0 as int].alive && hes[
            head->Some_0 as int
        ].origin == v,
        in_chain(hes, head, p),
        hes[p as int].sibling == Some(h),
        hes2 == hes.update(
            p as int,
            MeshHalfEdge { sibling: hes[h as int].sibling, ..hes[p as int] },
        ),
    ensures
        !in_chain(hes2, head, h),
        x != h ==> (in_chain(hes2, head, x) <==> in_chain(hes, head, x)),
    decreases
            (match head {
                Some(c) => c as int + 1,
                None => 0,
            }),
{
    match head {
        None => {
            assert(!in_chain(hes, head, p));
        },
        Some(c) => {
            lemma_chain_sound(hes, head, v, p);
            assert(h < p && hes[h as int].alive && hes[h as int].origin == v);
            if c == p {
                let sib_h = hes[h as int].sibling;
                assert(hes2[c as int].sibling == sib_h);
                assert(in_chain(hes, Some(c), x) == (x == c || in_chain(hes, Some(h), x)));
                assert(in_chain(hes, Some(c), h) == (h == c || in_chain(hes, Some(h), h)));
                match sib_h {
                    Some(s2) => {
                        assert(s2 < h && hes[s2 as int].alive && hes[s2 as int].origin == v);
                        assert forall|k: usize| #[trigger]
                            in_chain(hes, Some(s2), k) implies hes2[k as int].sibling == hes[
                            k as int
                        ].sibling by {
                            lemma_chain_sound(hes, Some(s2), v, k);
                        }
                        lemma_chain_frame(hes, hes2, Some(s2), x);
                        lemma_chain_frame(hes, hes2, Some(s2), h);
                        if in_chain(hes, Some(s2), h) {
                            lemma_chain_sound(hes, Some(s2), v, h);
                        }
                        assert(in_chain(hes, Some(h), x) == (x == h || in_chain(
                            hes,
                            Some(s2),
                            x,
                        )));
                        assert(in_chain(hes2, Some(c), x) == (x == c || in_chain(
                            hes2,
                            Some(s2),
                            x,
                        )));
                        assert(in_chain(hes2, Some(c), h) == (h == c || in_chain(
                            hes2,
                            Some(s2),
                            h,
                        )));
                    },
                    None => {
                        assert(in_chain(hes, Some(h), x) == (x == h));
                        assert(in_chain(hes2, Some(c), x) == (x == c));
                        assert(!in_chain(hes2, Some(c), h));
                    },
                }
            } else {
                assert(hes2[c as int].sibling == hes[c as int].sibling);
                assert(in_chain(hes, Some(c), p) && p != c);
                match hes[c as int].sibling {
                    Some(s) => {
                        if s < c {
                            lemma_chain_unlink(hes, hes2, Some(s), v, p, h, x);
                            lemma_chain_sound(hes, Some(s), v, p);
                            assert(h < p <= s < c);
                            assert(in_chain(hes, Some(c), x) == (x == c || in_chain(
                                hes,
                                Some(s),
                                x,
                            )));
                            assert(in_chain(hes2, Some(c), x) == (x == c || in_chain(
                                hes2,
                                Some(s),
                                x,
                            )));
                            assert(in_chain(hes2, Some(c), h) == (h == c || in_chain(
                                hes2,
                                Some(s),
                                h,
                            )));
                        }
                    },
                    None => {},
                }
            }
        },
    }
}

/// The sibling list of `v` can be walked safely: its head is a live
/// half-edge of `v` (when present) and its links are sound around `v`.
pub open spec fn vertex_chain_ok<T>(m: Mesh<T>, v: usize) -> bool {
    &&& v < m.vertices@.len()
    &&& sibling_sound(m.half_edges@, v)
    &&& (m.vx(v).half_edge is Some ==> m.vx(v).half_edge->Some_0 < m.half_edges@.len() && m.he(
        m.vx(v).half_edge->Some_0,
    ).alive && m.he(m.vx(v).half_edge->Some_0).origin == v)
}

/// A state change that leaves every head, sibling link, origin and liveness
/// flag alone leaves every sibling list alone.
proof fn lemma_chain_ok_frame<T>(ma: Mesh<T>, mb: Mesh<T>, v: usize, x: usize)
    requires
        vertex_chain_ok(ma, v),
        mb.half_edges@.len() == ma.half_edges@.len(),
        mb.vertices@.len() == ma.vertices@.len(),
        forall|k: usize|
            k < ma.half_edges@.len() ==> (#[trigger] mb.he(k)).sibling == ma.he(k).sibling && mb.he(
                k,
            ).origin == ma.he(k).origin && mb.he(k).alive == ma.he(k).alive,
        mb.vx(v).half_edge == ma.vx(v).half_edge,
    ensures
        vertex_chain_ok(mb, v),
        in_chain(mb.half_edges@, mb.vx(v).half_edge, x) <==> in_chain(
            ma.half_edges@,
            ma.vx(v).half_edge,
            x,
        ),
{
    assert forall|k: usize| #[trigger]
        in_chain(ma.half_edges@, ma.vx(v).half_edge, k) implies mb.half_edges@[k as int].sibling
        == ma.half_edges@[k as int].sibling by {
        lemma_chain_sound(ma.half_edges@, ma.vx(v).half_edge, v, k);
        assert(mb.he(k).sibling == ma.he(k).sibling);
    }
    lemma_chain_frame(ma.half_edges@, mb.half_edges@, ma.vx(v).half_edge, x);
    assert(sibling_sound(mb.half_edges@, v)) by {
        assert forall|k: usize|
            k < mb.half_edges@.len() && (#[trigger] mb.half_edges@[k as int]).alive
                && mb.half_edges@[k as int].origin == v implies (mb.half_edges@[
            k as int].sibling matches Some(s) ==> s < k && mb.half_edges@[s as int].alive
            && mb.half_edges@[s as int].origin == v) by {
            assert(mb.he(k) == mb.half_edges@[k as int]);
            assert(mb.he(k).sibling == ma.he(k).sibling && mb.he(k).alive == ma.he(k).alive
                && mb.he(k).origin == ma.he(k).origin);
            match mb.he(k).sibling {
                Some(s) => {
                    assert(mb.he(s).sibling == ma.he(s).sibling && mb.he(s).alive == ma.he(
                        s,
                    ).alive && mb.he(s).origin == ma.he(s).origin);
                },
                None => {},
            }
        }
    }
}

/// A state change that touches no sibling link and no head leaves every
/// walkable sibling list with exactly its members, whatever happens to
/// liveness flags or other fields.
proof fn lemma_chain_same_links<T>(ma: Mesh<T>, mb: Mesh<T>, v: usize, x: usize)
    requires
        vertex_chain_ok(ma, v),
        mb.half_edges@.len() == ma.half_edges@.len(),
        forall|k: usize|
            k < ma.half_edges@.len() ==> (#[trigger] mb.he(k)).sibling == ma.he(k).sibling,
        mb.vx(v).half_edge == ma.vx(v).half_edge,
    ensures
        in_chain(mb.half_edges@, mb.vx(v).half_edge, x) <==> in_chain(
            ma.half_edges@,
            ma.vx(v).half_edge,
            x,
        ),
{
    assert forall|k: usize| #[trigger]
        in_chain(ma.half_edges@, ma.vx(v).half_edge, k) implies mb.half_edges@[k as int].sibling
        == ma.half_edges@[k as int].sibling by {
        lemma_chain_sound(ma.half_edges@, ma.vx(v).half_edge, v, k);
        assert(mb.he(k).sibling == ma.he(k).sibling);
    }
    lemma_chain_frame(ma.half_edges@, mb.half_edges@, ma.vx(v).half_edge, x);
}

/// Unlinking `hw` from `w`'s sibling list leaves the list of any other
/// vertex `v` — members, soundness and head — exactly as it was.
proof fn lemma_unlink_effect_other<T>(ma: Mesh<T>, mb: Mesh<T>, w: usize, hw: usize, v: usize, x: usize)
    requires
        mb.half_edges@.len() == ma.half_edges@.len(),
        mb.vertices@.len() == ma.vertices@.len(),
        forall|k: usize|
            k < ma.half_edges@.len() ==> {
                let before = ma.he(k);
                let after = #[trigger] mb.he(k);
                &&& after.origin == before.origin
                &&& after.alive == before.alive
                &&& (after.sibling != before.sibling ==> in_chain(
                    ma.half_edges@,
                    ma.vx(w).half_edge,
                    k,
                ))
            },
        forall|u: usize|
            u < ma.vertices@.len() && u != w ==> #[trigger] mb.vx(u) == ma.vx(u),
        vertex_chain_ok(ma, w),
        vertex_chain_ok(ma, v),
        v != w,
    ensures
        vertex_chain_ok(mb, v),
        in_chain(mb.half_edges@, mb.vx(v).half_edge, x) <==> in_chain(
            ma.half_edges@,
            ma.vx(v).half_edge,
            x,
        ),
{
    // nothing on `v`'s list was relinked: whatever changed lies on `w`'s
    assert forall|k: usize| #[trigger]
        in_chain(ma.half_edges@, ma.vx(v).half_edge, k) implies mb.half_edges@[k as int].sibling
        == ma.half_edges@[k as int].sibling by {
        lemma_chain_sound(ma.half_edges@, ma.vx(v).half_edge, v, k);
        if mb.he(k).sibling != ma.he(k).sibling {
            lemma_chain_sound(ma.half_edges@, ma.vx(w).half_edge, w, k);
        }
        assert(mb.he(k).sibling == ma.he(k).sibling);
    }
    lemma_chain_frame(ma.half_edges@, mb.half_edges@, ma.vx(v).half_edge, x);
    assert(sibling_sound(mb.half_edges@, v)) by {
        assert forall|k: usize|
            k < mb.half_edges@.len() && (#[trigger] mb.half_edges@[k as int]).alive
                && mb.half_edges@[k as int].origin == v implies (mb.half_edges@[k as int].sibling
            matches Some(s) ==> s < k && mb.half_edges@[s as int].alive && mb.half_edges@[
            s as int].origin == v) by {
            assert(mb.he(k) == mb.half_edges@[k as int]);
            assert(ma.he(k).alive == mb.he(k).alive && ma.he(k).origin == mb.he(k).origin);
            if mb.he(k).sibling != ma.he(k).sibling {
                lemma_chain_sound(ma.half_edges@, ma.vx(w).half_edge, w, k);
            }
            match mb.he(k).sibling {
                Some(s) => {
                    assert(mb.he(s).alive == ma.he(s).alive && mb.he(s).origin == ma.he(
                        s,
                    ).origin);
                },
                None => {},
            }
        }
    }
}

/// After unlinking `hw`, `w`'s own sibling list can still be walked safely.
proof fn lemma_unlink_effect_self<T>(ma: Mesh<T>, mb: Mesh<T>, w: usize, hw: usize)
    requires
        mb.half_edges@.len() == ma.half_edges@.len(),
        mb.vertices@.len() == ma.vertices@.len(),
        hw < ma.half_edges@.len(),
        ma.he(hw).origin == w,
        forall|k: usize|
            k < ma.half_edges@.len() ==> {
                let before = ma.he(k);
                let after = #[trigger] mb.he(k);
                &&& after.origin == before.origin
                &&& after.alive == before.alive
                &&& (after.sibling != before.sibling ==> in_chain(
                    ma.half_edges@,
                    ma.vx(w).half_edge,
                    k,
                ) && after.sibling == ma.he(hw).sibling && before.sibling == Some(hw))
            },
        mb.vx(w).half_edge != ma.vx(w).half_edge ==> ma.vx(w).half_edge == Some(hw)
            && mb.vx(w).half_edge == ma.he(hw).sibling,
        vertex_chain_ok(ma, w),
        in_chain(ma.half_edges@, ma.vx(w).half_edge, hw),
    ensures
        vertex_chain_ok(mb, w),
{
    lemma_chain_sound(ma.half_edges@, ma.vx(w).half_edge, w, hw);
    assert(sibling_sound(mb.half_edges@, w)) by {
        assert forall|k: usize|
            k < mb.half_edges@.len() && (#[trigger] mb.half_edges@[k as int]).alive
                && mb.half_edges@[k as int].origin == w implies (mb.half_edges@[k as int].sibling
            matches Some(s) ==> s < k && mb.half_edges@[s as int].alive && mb.half_edges@[
            s as int].origin == w) by {
            assert(mb.he(k) == mb.half_edges@[k as int]);
            assert(ma.he(k).alive == mb.he(k).alive && ma.he(k).origin == mb.he(k).origin);
            if mb.he(k).sibling != ma.he(k).sibling {
                lemma_chain_sound(ma.half_edges@, ma.vx(w).half_edge, w, k);
                lemma_chain_sound(ma.half_edges@, ma.vx(w).half_edge, w, hw);
            }
            match mb.he(k).sibling {
                Some(s) => {
                    assert(mb.he(s).alive == ma.he(s).alive && mb.he(s).origin == ma.he(
                        s,
                    ).origin);
                },
                None => {},
            }
        }
    }
}

/// The mesh: the single owner of all vertices, half-edges, edges and
/// triangles, and the only mutation entry point.
pub struct Mesh<T> {
    pub vertices: Vec<MeshVertex<T>>,
    pub half_edges: Vec<MeshHalfEdge>,
    pub edges: Vec<EdgeMesh>,
    pub triangles: Vec<TriangleMesh>,
}

impl<T> Mesh<T> {
    /// Half-edge record at index `h`.
    pub open spec fn he(self, h: usize) -> MeshHalfEdge {
        self.half_edges@[h as int]
    }

    /// Vertex record at index `v`.
    pub open spec fn vx(self, v: usize) -> MeshVertex<T> {
        self.vertices@[v as int]
    }

    /// Edge record at index `e`.
    pub open spec fn ed(self, e: usize) -> EdgeMesh {
        self.edges@[e as int]
    }

    /// Triangle record at index `t`.
    pub open spec fn tr(self, t: usize) -> TriangleMesh {
        self.triangles@[t as int]
    }

    /// `h` names a live half-edge.
    pub open spec fn valid_he(self, h: usize) -> bool {
        h < self.half_edges@.len() && self.he(h).alive
    }

    /// `v` names a live vertex.
    pub open spec fn valid_vertex(self, v: usize) -> bool {
        v < self.vertices@.len() && self.vx(v).alive
    }

    /// `e` names a live edge.
    pub open spec fn valid_edge(self, e: usize) -> bool {
        e < self.edges@.len() && self.ed(e).alive
    }

    /// `t` names a live triangle.
    pub open spec fn valid_triangle(self, t: usize) -> bool {
        t < self.triangles@.len() && self.tr(t).alive
    }

    /// The vertex a half-edge points at: the origin of its successor.
    pub open spec fn he_target(self, h: usize) -> usize {
        self.he(self.he(h).next).origin
    }

    /// Some live half-edge goes from `a` to `b`.
    pub open spec fn spec_has_half_edge(self, a: usize, b: usize) -> bool {
        exists|h: usize|
            self.valid_he(h) && #[trigger] self.he(h).origin == a && self.he_target(h) == b
    }

    /// Adding a half-edge from `a` to `b` is a non-manifold conflict: either
    /// some face already traverses `a -> b` in this direction (inconsistent
    /// winding), or the edge already has faces on both sides.
    pub open spec fn spec_side_blocked(self, a: usize, b: usize) -> bool {
        self.spec_has_half_edge(a, b) || (exists|h: usize|
            self.valid_he(h) && #[trigger] self.he(h).origin == b && self.he_target(h) == a
                && self.he(h).opposite is Some)
    }

    /// Some side of the triangle `(a, b, c)` cannot be inserted.
    pub open spec fn spec_triangle_blocked(self, a: usize, b: usize, c: usize) -> bool {
        self.spec_side_blocked(a, b) || self.spec_side_blocked(b, c) || self.spec_side_blocked(
            c,
            a,
        )
    }

    /// Per-half-edge consistency.
    pub open spec fn wf_half_edge(self, h: usize) -> bool {
        let he = self.he(h);
        &&& he.origin < self.vertices@.len() && self.vx(he.origin).alive
        &&& he.next < self.half_edges@.len() && self.he(he.next).alive && self.he(he.next).prev
            == h
        &&& he.prev < self.half_edges@.len() && self.he(he.prev).alive && self.he(he.prev).next
            == h
        &&& (he.sibling matches Some(s) ==> s < h && self.he(s).alive && self.he(s).origin
            == he.origin)
        &&& (he.opposite matches Some(o) ==> {
            &&& o < self.half_edges@.len() && self.he(o).alive
            &&& self.he(o).opposite == Some(h)
            &&& self.he(o).origin == self.he_target(h)
            &&& self.he_target(o) == he.origin
            &&& self.he(o).edge == he.edge
        })
        &&& he.edge < self.edges@.len() && self.ed(he.edge).alive
        &&& (self.ed(he.edge).half_edge_a == Some(h) || self.ed(he.edge).half_edge_b == Some(h))
        &&& he.triangle < self.triangles@.len() && self.tr(he.triangle).alive
        &&& {
            let t = self.tr(he.triangle);
            h == t.half_edge || h == self.he(t.half_edge).next || h == self.he(
                self.he(t.half_edge).next,
            ).next
        }
    }

    /// Per-vertex consistency: the sibling list head leaves this vertex.
    pub open spec fn wf_vertex(self, v: usize) -> bool {
        self.vx(v).half_edge matches Some(h) ==> h < self.half_edges@.len() && self.he(h).alive
            && self.he(h).origin == v
    }

    /// Per-edge consistency: an edge lives exactly with its one or two
    /// half-edges, which traverse its endpoints, and two attached
    /// half-edges are each other's opposite.
    pub open spec fn wf_edge(self, e: usize) -> bool {
        let ed = self.ed(e);
        &&& ed.v1 != ed.v2
        &&& (ed.half_edge_a is Some || ed.half_edge_b is Some)
        &&& (ed.half_edge_a matches Some(h) ==> self.valid_he(h) && self.he(h).edge == e && (
        (self.he(h).origin == ed.v1 && self.he_target(h) == ed.v2) || (self.he(h).origin == ed.v2
            && self.he_target(h) == ed.v1)))
        &&& (ed.half_edge_b matches Some(h) ==> self.valid_he(h) && self.he(h).edge == e && (
        (self.he(h).origin == ed.v1 && self.he_target(h) == ed.v2) || (self.he(h).origin == ed.v2
            && self.he_target(h) == ed.v1)))
        &&& (ed.half_edge_a is Some && ed.half_edge_b is Some ==> {
            let a = ed.half_edge_a->Some_0;
            let b = ed.half_edge_b->Some_0;
            a != b && self.he(a).opposite == Some(b) && self.he(b).opposite == Some(a)
        })
    }

    /// Per-triangle consistency: a closed 3-cycle of distinct half-edges
    /// over three distinct vertices, recorded in winding order.
    pub open spec fn wf_triangle(self, t: usize) -> bool {
        let tri = self.tr(t);
        let h0 = tri.half_edge;
        let h1 = self.he(h0).next;
        let h2 = self.he(h1).next;
        &&& h0 < self.half_edges@.len() && self.he(h0).alive
        &&& h1 < self.half_edges@.len() && self.he(h1).alive
        &&& h2 < self.half_edges@.len() && self.he(h2).alive
        &&& self.he(h2).next == h0
        &&& h0 != h1 && h1 != h2 && h0 != h2
        &&& self.he(h0).triangle == t && self.he(h1).triangle == t && self.he(h2).triangle == t
        &&& tri.vertices == (self.he(h0).origin, self.he(h1).origin, self.he(h2).origin)
        &&& self.he(h0).origin != self.he(h1).origin
        &&& self.he(h1).origin != self.he(h2).origin
        &&& self.he(h0).origin != self.he(h2).origin
    }

    /// The whole-mesh invariant.
    pub open spec fn wf(self) -> bool {
        &&& self.vertices@.len() <= usize::MAX
        &&& self.half_edges@.len() <= usize::MAX
        &&& self.edges@.len() <= usize::MAX
        &&& self.triangles@.len() <= usize::MAX
        &&& forall|h: usize| #[trigger] self.valid_he(h) ==> self.wf_half_edge(h)
        &&& forall|v: usize| #[trigger] self.valid_vertex(v) ==> self.wf_vertex(v)
        &&& forall|e: usize| #[trigger] self.valid_edge(e) ==> self.wf_edge(e)
        &&& forall|t: usize| #[trigger] self.valid_triangle(t) ==> self.wf_triangle(t)
        // every live half-edge is reachable in its origin's sibling list
        &&& forall|h: usize| #[trigger] self.valid_he(h) ==> in_chain(
            self.half_edges@,
            self.vx(self.he(h).origin).half_edge,
            h,
        )
        // at most one live half-edge per directed vertex pair
        &&& forall|h1: usize, h2: usize|
            #[trigger] self.valid_he(h1) && #[trigger] self.valid_he(h2) && h1 != h2 ==> !(self.he(
                h1,
            ).origin == self.he(h2).origin && self.he_target(h1) == self.he_target(h2))
        // two live half-edges traversing one edge in opposite directions
        // are always linked as opposites
        &&& forall|h1: usize, h2: usize|
            #[trigger] self.valid_he(h1) && #[trigger] self.valid_he(h2) && self.he(h1).origin
                == self.he_target(h2) && self.he_target(h1) == self.he(h2).origin ==> self.he(
                h1,
            ).opposite == Some(h2) && self.he(h2).opposite == Some(h1)
    }

    /// An empty mesh: no vertices, no triangles, no edges.
    pub fn new() -> (r: Self)
        ensures
            r.wf(),
            r.vertices@.len() == 0,
            r.half_edges@.len() == 0,
            r.edges@.len() == 0,
            r.triangles@.len() == 0,
    {
        Mesh { vertices: Vec::new(), half_edges: Vec::new(), edges: Vec::new(), triangles: Vec::new() }
    }

    /// Adds a fresh vertex record and returns its identifier. The new vertex
    /// has no half-edges yet; nothing else changes.
    pub fn add_vertex(&mut self, data: Vertex<T>) -> (v: usize)
        requires
            old(self).wf(),
            old(self).vertices@.len() < usize::MAX,
        ensures
            final(self).wf(),
            v == old(self).vertices@.len(),
            final(self).vertices@ == old(self).vertices@.push(
                MeshVertex { data, half_edge: None, alive: true },
            ),
            final(self).half_edges@ == old(self).half_edges@,
            final(self).edges@ == old(self).edges@,
            final(self).triangles@ == old(self).triangles@,
    {
        let v = self.vertices.len();
        self.vertices.push(MeshVertex { data, half_edge: None, alive: true });
        proof {
            assert forall|h: usize| #[trigger] self.valid_he(h) implies self.wf_half_edge(h) by {
                assert(old(self).valid_he(h));
                assert(old(self).wf_half_edge(h));
            }
            assert forall|u: usize| #[trigger] self.valid_vertex(u) implies self.wf_vertex(u) by {
                if u < old(self).vertices@.len() {
                    assert(old(self).valid_vertex(u));
                }
            }
            assert forall|e: usize| #[trigger] self.valid_edge(e) implies self.wf_edge(e) by {
                assert(old(self).valid_edge(e));
                assert(old(self).wf_edge(e));
            }
            assert forall|t: usize| #[trigger] self.valid_triangle(t) implies self.wf_triangle(
                t,
            ) by {
                assert(old(self).valid_triangle(t));
                assert(old(self).wf_triangle(t));
            }
            assert forall|h: usize| #[trigger] self.valid_he(h) implies in_chain(
                self.half_edges@,
                self.vx(self.he(h).origin).half_edge,
                h,
            ) by {
                assert(old(self).valid_he(h));
                assert(old(self).wf_half_edge(h));
                assert(self.vx(self.he(h).origin) == old(self).vx(old(self).he(h).origin));
            }
            assert forall|h1: usize, h2: usize|
                #[trigger] self.valid_he(h1) && #[trigger] self.valid_he(h2) && h1 != h2 implies !(
            self.he(h1).origin == self.he(h2).origin && self.he_target(h1) == self.he_target(
                h2,
            )) by {
                assert(old(self).valid_he(h1) && old(self).valid_he(h2));
            }
            assert forall|h1: usize, h2: usize|
                #[trigger] self.valid_he(h1) && #[trigger] self.valid_he(h2) && self.he(h1).origin
                    == self.he_target(h2) && self.he_target(h1) == self.he(h2).origin implies self
                .he(h1).opposite == Some(h2) && self.he(h2).opposite == Some(h1) by {
                assert(old(self).valid_he(h1) && old(self).valid_he(h2));
            }
        }
        v
    }

    /// Walks `from`'s sibling list for a live half-edge from `from` to `to`:
    /// the adjacency lookup, O(degree of `from`). Finding nothing means the
    /// whole mesh has no such half-edge, because the sibling list of a
    /// vertex holds every live half-edge leaving it.
    pub fn get_half_edge_to(&self, from: usize, to: usize) -> (r: Option<usize>)
        requires
            self.wf(),
            self.valid_vertex(from),
        ensures
            match r {
                Some(h) => self.valid_he(h) && self.he(h).origin == from && self.he_target(h)
                    == to,
                None => !self.spec_has_half_edge(from, to),
            },
    {
        let mut cur: Option<usize> = self.vertices[from].half_edge;
        loop
            invariant
                self.wf(),
                self.valid_vertex(from),
                (cur matches Some(c) ==> self.valid_he(c) && self.he(c).origin == from),
                forall|x: usize|
                    self.valid_he(x) && (#[trigger] self.he(x)).origin == from && self.he_target(x)
                        == to ==> in_chain(self.half_edges@, cur, x),
            decreases
                    (match cur {
                        Some(c) => c as int + 1,
                        None => 0,
                    }),
        {
            match cur {
                None => {
                    proof {
                        if self.spec_has_half_edge(from, to) {
                            let x = choose|x: usize|
                                self.valid_he(x) && #[trigger] self.he(x).origin == from
                                    && self.he_target(x) == to;
                            assert(in_chain(self.half_edges@, cur, x));
                        }
                    }
                    return None;
                },
                Some(c) => {
                    let nxt = self.half_edges[c].next;
                    if self.half_edges[nxt].origin == to {
                        return Some(c);
                    }
                    proof {
                        assert(self.wf_half_edge(c));
                        assert forall|x: usize|
                            self.valid_he(x) && (#[trigger] self.he(x)).origin == from
                                && self.he_target(x) == to implies in_chain(
                            self.half_edges@,
                            self.he(c).sibling,
                            x,
                        ) by {
                            assert(in_chain(self.half_edges@, cur, x));
                            assert(x != c);
                        }
                    }
                    cur = self.half_edges[c].sibling;
                },
            }
        }
    }

    /// What a successful insertion of triangle `(a, b, c)` does to the mesh:
    /// one new triangle record, three new half-edges in creation order wired
    /// into a closed cycle, opposite links made exactly where the mesh
    /// already had the reverse traversal, and everything else untouched
    /// (but for the three sibling-list heads and the filled edge slots).
    pub open spec fn spec_added_triangle(
        pre: Mesh<T>,
        post: Mesh<T>,
        a: usize,
        b: usize,
        c: usize,
        t: usize,
    ) -> bool {
        let n = pre.half_edges@.len() as usize;
        let n1 = (n + 1) as usize;
        let n2 = (n + 2) as usize;
        &&& t == pre.triangles@.len()
        &&& post.triangles@ == pre.triangles@.push(
            TriangleMesh { vertices: (a, b, c), half_edge: n, alive: true },
        )
        &&& post.half_edges@.len() == pre.half_edges@.len() + 3
        // the three new half-edges, in creation order, one per side
        &&& post.he(n).origin == a && post.he(n1).origin == b && post.he(n2).origin == c
        &&& post.he(n).next == n1 && post.he(n1).next == n2 && post.he(n2).next == n
        &&& post.he(n).prev == n2 && post.he(n1).prev == n && post.he(n2).prev == n1
        &&& post.he(n).triangle == t && post.he(n1).triangle == t && post.he(n2).triangle == t
        &&& post.he(n).alive && post.he(n1).alive && post.he(n2).alive
        // a new side is linked exactly when the mesh already had its reverse
        &&& (post.he(n).opposite is Some <==> pre.spec_has_half_edge(b, a))
        &&& (post.he(n1).opposite is Some <==> pre.spec_has_half_edge(c, b))
        &&& (post.he(n2).opposite is Some <==> pre.spec_has_half_edge(a, c))
        &&& (post.he(n).opposite matches Some(x) ==> x < n && pre.valid_he(x) && pre.he(x).origin
            == b && pre.he_target(x) == a)
        &&& (post.he(n1).opposite matches Some(x) ==> x < n && pre.valid_he(x) && pre.he(x).origin
            == c && pre.he_target(x) == b)
        &&& (post.he(n2).opposite matches Some(x) ==> x < n && pre.valid_he(x) && pre.he(x).origin
            == a && pre.he_target(x) == c)
        // old half-edges: only `opposite` can change, and only to link a new one
        &&& forall|h: usize|
            h < pre.half_edges@.len() ==> {
                let before = pre.he(h);
                let after = #[trigger] post.he(h);
                &&& after.alive == before.alive
                &&& after.origin == before.origin
                &&& after.next == before.next
                &&& after.prev == before.prev
                &&& after.sibling == before.sibling
                &&& after.edge == before.edge
                &&& after.triangle == before.triangle
                &&& (after.opposite != before.opposite ==> (after.opposite matches Some(x) && x
                    >= pre.half_edges@.len()))
            }
        // old triangles untouched
        &&& forall|u: usize|
            u < pre.triangles@.len() ==> #[trigger] post.tr(u) == pre.tr(u)
        // vertices: data and liveness unchanged, only the three heads move
        &&& post.vertices@.len() == pre.vertices@.len()
        &&& forall|v: usize|
            v < pre.vertices@.len() ==> (#[trigger] post.vx(v)).alive == pre.vx(v).alive
                && post.vx(v).data == pre.vx(v).data
        &&& forall|v: usize|
            v < pre.vertices@.len() && v != a && v != b && v != c ==> #[trigger] post.vx(v)
                == pre.vx(v)
        // edges: existing records keep identity and liveness
        &&& pre.edges@.len() <= post.edges@.len() <= pre.edges@.len() + 3
        &&& forall|e: usize|
            e < pre.edges@.len() ==> (#[trigger] post.ed(e)).alive == pre.ed(e).alive && post.ed(
                e,
            ).v1 == pre.ed(e).v1 && post.ed(e).v2 == pre.ed(e).v2
    }

    /// What taking `h` out of `v`'s sibling list does to the mesh: one link
    /// (or the head) is relinked past `h`, nothing else moves, and the list
    /// holds exactly its old members less `h`.
    pub open spec fn unlink_rel(ma: Mesh<T>, mb: Mesh<T>, v: usize, h: usize) -> bool {
        &&& mb.edges@ == ma.edges@
        &&& mb.triangles@ == ma.triangles@
        &&& mb.vertices@.len() == ma.vertices@.len()
        &&& forall|u: usize|
            u < ma.vertices@.len() && u != v ==> #[trigger] mb.vx(u) == ma.vx(u)
        &&& mb.vx(v).data == ma.vx(v).data
        &&& mb.vx(v).alive == ma.vx(v).alive
        &&& (mb.vx(v).half_edge != ma.vx(v).half_edge ==> ma.vx(v).half_edge == Some(h)
            && mb.vx(v).half_edge == ma.he(h).sibling)
        &&& mb.half_edges@.len() == ma.half_edges@.len()
        &&& forall|k: usize|
            k < ma.half_edges@.len() ==> {
                let before = ma.he(k);
                let after = #[trigger] mb.he(k);
                &&& after.origin == before.origin
                &&& after.next == before.next
                &&& after.prev == before.prev
                &&& after.opposite == before.opposite
                &&& after.edge == before.edge
                &&& after.triangle == before.triangle
                &&& after.alive == before.alive
                &&& (after.sibling != before.sibling ==> in_chain(
                    ma.half_edges@,
                    ma.vx(v).half_edge,
                    k,
                ) && after.sibling == ma.he(h).sibling && before.sibling == Some(h))
            }
        &&& !in_chain(mb.half_edges@, mb.vx(v).half_edge, h)
        &&& forall|x: usize|
            x != h ==> (in_chain(mb.half_edges@, mb.vx(v).half_edge, x) <==> in_chain(
                ma.half_edges@,
                ma.vx(v).half_edge,
                x,
            ))
    }

    /// What clearing the opposite back-references and the edge slots of the
    /// three half-edges of triangle `t` does to the mesh.
    pub open spec fn remove_detach_rel(m0: Mesh<T>, g1: Mesh<T>, t: usize) -> bool {
        let h0 = m0.tr(t).half_edge;
        let h1 = m0.he(h0).next;
        let h2 = m0.he(h1).next;
        let e0 = m0.he(h0).edge;
        let e1 = m0.he(h1).edge;
        let e2 = m0.he(h2).edge;
        &&& g1.vertices@ == m0.vertices@
        &&& g1.triangles@ == m0.triangles@
        &&& g1.half_edges@.len() == m0.half_edges@.len()
        &&& forall|k: usize|
            k < m0.half_edges@.len() ==> #[trigger] g1.he(k) == MeshHalfEdge {
                opposite: if m0.he(h0).opposite == Some(k) || m0.he(h1).opposite == Some(k)
                    || m0.he(h2).opposite == Some(k) {
                    None
                } else {
                    m0.he(k).opposite
                },
                ..m0.he(k)
            }
        &&& g1.edges@.len() == m0.edges@.len()
        &&& e0 != e1 && e1 != e2 && e0 != e2
        &&& forall|e: usize|
            e < m0.edges@.len() && e != e0 && e != e1 && e != e2 ==> #[trigger] g1.ed(e) == m0.ed(
                e,
            )
        &&& Self::side_detach_rel(m0, g1, e0, h0)
        &&& Self::side_detach_rel(m0, g1, e1, h1)
        &&& Self::side_detach_rel(m0, g1, e2, h2)
    }

    /// One side's edge record after the detach: the removed half-edge's slot
    /// cleared, the edge dead when no slot is left.
    pub open spec fn side_detach_rel(m0: Mesh<T>, g1: Mesh<T>, e: usize, h: usize) -> bool {
        let before = m0.ed(e);
        let a2 = if before.half_edge_a == Some(h) {
            None
        } else {
            before.half_edge_a
        };
        let b2 = if before.half_edge_b == Some(h) {
            None
        } else {
            before.half_edge_b
        };
        g1.ed(e) == EdgeMesh {
            v1: before.v1,
            v2: before.v2,
            half_edge_a: a2,
            half_edge_b: b2,
            alive: before.alive && (a2 is Some || b2 is Some),
        }
    }

    /// What the final tombstoning pass does: the three half-edges and the
    /// triangle die; a corner vertex dies exactly when its list emptied.
    pub open spec fn remove_tombstone_rel(m0: Mesh<T>, g4: Mesh<T>, m1: Mesh<T>, t: usize) -> bool {
        let h0 = m0.tr(t).half_edge;
        let h1 = m0.he(h0).next;
        let h2 = m0.he(h1).next;
        let o0 = m0.he(h0).origin;
        let o1 = m0.he(h1).origin;
        let o2 = m0.he(h2).origin;
        &&& m1.edges@ == g4.edges@
        &&& m1.triangles@ == g4.triangles@.update(
            t as int,
            TriangleMesh { alive: false, ..g4.tr(t) },
        )
        &&& m1.half_edges@.len() == g4.half_edges@.len()
        &&& forall|k: usize|
            k < g4.half_edges@.len() && k != h0 && k != h1 && k != h2 ==> #[trigger] m1.he(k)
                == g4.he(k)
        &&& m1.he(h0) == MeshHalfEdge { alive: false, ..g4.he(h0) }
        &&& m1.he(h1) == MeshHalfEdge { alive: false, ..g4.he(h1) }
        &&& m1.he(h2) == MeshHalfEdge { alive: false, ..g4.he(h2) }
        &&& m1.vertices@.len() == g4.vertices@.len()
        &&& forall|v: usize|
            v < g4.vertices@.len() && v != o0 && v != o1 && v != o2 ==> #[trigger] m1.vx(v)
                == g4.vx(v)
        &&& m1.vx(o0) == MeshVertex {
            alive: g4.vx(o0).alive && g4.vx(o0).half_edge is Some,
            ..g4.vx(o0)
        }
        &&& m1.vx(o1) == MeshVertex {
            alive: g4.vx(o1).alive && g4.vx(o1).half_edge is Some,
            ..g4.vx(o1)
        }
        &&& m1.vx(o2) == MeshVertex {
            alive: g4.vx(o2).alive && g4.vx(o2).half_edge is Some,
            ..g4.vx(o2)
        }
    }

    /// Exact description of the state change made by the commit phase of
    /// `add_triangle`: what each arena holds afterwards, record by record.
    pub open spec fn add_commit_rel(
        m0: Mesh<T>,
        m1: Mesh<T>,
        a: usize,
        b: usize,
        c: usize,
        rev_ab: Option<usize>,
        rev_bc: Option<usize>,
        rev_ca: Option<usize>,
        e_ab: usize,
        e_bc: usize,
        e_ca: usize,
    ) -> bool {
        let n = m0.half_edges@.len() as usize;
        let n1 = (n + 1) as usize;
        let n2 = (n + 2) as usize;
        let t = m0.triangles@.len() as usize;
        &&& m1.half_edges@.len() == n + 3
        &&& m1.he(n) == MeshHalfEdge {
            origin: a,
            next: n1,
            prev: n2,
            opposite: rev_ab,
            sibling: m0.vx(a).half_edge,
            edge: e_ab,
            triangle: t,
            alive: true,
        }
        &&& m1.he(n1) == MeshHalfEdge {
            origin: b,
            next: n2,
            prev: n,
            opposite: rev_bc,
            sibling: m0.vx(b).half_edge,
            edge: e_bc,
            triangle: t,
            alive: true,
        }
        &&& m1.he(n2) == MeshHalfEdge {
            origin: c,
            next: n,
            prev: n1,
            opposite: rev_ca,
            sibling: m0.vx(c).half_edge,
            edge: e_ca,
            triangle: t,
            alive: true,
        }
        &&& forall|k: usize|
            k < n ==> #[trigger] m1.he(k) == MeshHalfEdge {
                opposite: if rev_ab == Some(k) {
                    Some(n)
                } else if rev_bc == Some(k) {
                    Some(n1)
                } else if rev_ca == Some(k) {
                    Some(n2)
                } else {
                    m0.he(k).opposite
                },
                ..m0.he(k)
            }
        &&& m1.vertices@.len() == m0.vertices@.len()
        &&& m1.vx(a) == MeshVertex { half_edge: Some(n), ..m0.vx(a) }
        &&& m1.vx(b) == MeshVertex { half_edge: Some(n1), ..m0.vx(b) }
        &&& m1.vx(c) == MeshVertex { half_edge: Some(n2), ..m0.vx(c) }
        &&& forall|v: usize|
            v < m0.vertices@.len() && v != a && v != b && v != c ==> #[trigger] m1.vx(v) == m0.vx(
                v,
            )
        &&& m1.triangles@ == m0.triangles@.push(
            TriangleMesh { vertices: (a, b, c), half_edge: n, alive: true },
        )
        &&& m1.edges@.len() == m0.edges@.len() + (if rev_ab is None {
            1int
        } else {
            0
        }) + (if rev_bc is None {
            1int
        } else {
            0
        }) + (if rev_ca is None {
            1int
        } else {
            0
        })
        &&& Self::side_edge_rel(m0, m1, a, b, rev_ab, e_ab, n)
        &&& Self::side_edge_rel(m0, m1, b, c, rev_bc, e_bc, n1)
        &&& Self::side_edge_rel(m0, m1, c, a, rev_ca, e_ca, n2)
        &&& e_ab != e_bc && e_bc != e_ca && e_ab != e_ca
        &&& forall|e: usize|
            e < m0.edges@.len() && e != e_ab && e != e_bc && e != e_ca ==> #[trigger] m1.ed(e)
                == m0.ed(e)
    }

    /// What the commit phase did to the edge registry for one side.
    pub open spec fn side_edge_rel(
        m0: Mesh<T>,
        m1: Mesh<T>,
        sa: usize,
        sb: usize,
        rev: Option<usize>,
        e: usize,
        ni: usize,
    ) -> bool {
        match rev {
            Some(rv) => {
                &&& e == m0.he(rv).edge
                &&& e < m0.edges@.len()
                &&& m1.ed(e).v1 == m0.ed(e).v1
                &&& m1.ed(e).v2 == m0.ed(e).v2
                &&& m1.ed(e).alive == m0.ed(e).alive
                &&& ((m1.ed(e).half_edge_a == Some(rv) && m1.ed(e).half_edge_b == Some(ni)) || (
                m1.ed(e).half_edge_a == Some(ni) && m1.ed(e).half_edge_b == Some(rv)))
            },
            None => {
                &&& m0.edges@.len() <= e < m1.edges@.len()
                &&& m1.ed(e) == EdgeMesh {
                    v1: sa,
                    v2: sb,
                    half_edge_a: Some(ni),
                    half_edge_b: None,
                    alive: true,
                }
            },
        }
    }

    /// Inserts a triangle over the three live, distinct vertices `(a, b, c)`,
    /// in this winding order. When any of the three sides would break the
    /// two-manifold rule the whole insertion is rejected and the mesh is
    /// left exactly as it was; otherwise three half-edges are created, wired
    /// into a closed cycle, linked to the reverse half-edges that already
    /// existed, and the new triangle's identifier is returned.
    #[verifier::rlimit(100)]
    pub fn add_triangle(&mut self, a: usize, b: usize, c: usize) -> (r: Result<
        usize,
        NonManifoldError,
    >)
        requires
            old(self).wf(),
            old(self).valid_vertex(a),
            old(self).valid_vertex(b),
            old(self).valid_vertex(c),
            a != b && b != c && a != c,
            old(self).half_edges@.len() + 3 <= usize::MAX,
            old(self).edges@.len() + 3 <= usize::MAX,
            old(self).triangles@.len() + 1 <= usize::MAX,
        ensures
            final(self).wf(),
            match r {
                Err(_) => {
                    &&& old(self).spec_triangle_blocked(a, b, c)
                    &&& final(self).vertices@ == old(self).vertices@
                    &&& final(self).half_edges@ == old(self).half_edges@
                    &&& final(self).edges@ == old(self).edges@
                    &&& final(self).triangles@ == old(self).triangles@
                },
                Ok(t) => {
                    &&& !old(self).spec_triangle_blocked(a, b, c)
                    &&& Self::spec_added_triangle(*old(self), *final(self), a, b, c, t)
                },
            },
    {
        // validation: read-only checks for all three sides, so that a
        // rejected insertion observes nothing half-done
        if self.get_half_edge_to(a, b).is_some() {
            return Err(NonManifoldError);
        }
        if self.get_half_edge_to(b, c).is_some() {
            return Err(NonManifoldError);
        }
        if self.get_half_edge_to(c, a).is_some() {
            return Err(NonManifoldError);
        }
        let rev_ab = self.get_half_edge_to(b, a);
        if let Some(x) = rev_ab {
            if self.half_edges[x].opposite.is_some() {
                return Err(NonManifoldError);
            }
        }
        let rev_bc = self.get_half_edge_to(c, b);
        if let Some(x) = rev_bc {
            if self.half_edges[x].opposite.is_some() {
                return Err(NonManifoldError);
            }
        }
        let rev_ca = self.get_half_edge_to(a, c);
        if let Some(x) = rev_ca {
            if self.half_edges[x].opposite.is_some() {
                return Err(NonManifoldError);
            }
        }
        proof {
            lemma_unblocked_side(*self, a, b, rev_ab);
            lemma_unblocked_side(*self, b, c, rev_bc);
            lemma_unblocked_side(*self, c, a, rev_ca);
        }
        // commit
        let n = self.half_edges.len();
        let t = self.triangles.len();
        proof {
            if let Some(rv) = rev_ab {
                lemma_unpaired_side_slot(*self, rv);
            }
        }
        let ghost m_pre = *self;
        let e_ab = self.attach_side_edge(rev_ab, a, b, n);
        proof {
            if let Some(rv) = rev_bc {
                lemma_unpaired_side_slot(m_pre, rv);
                assert(rev_ab matches Some(x) ==> x != rv);
                if let Some(x) = rev_ab {
                    // distinct reverse half-edges share no edge record: each
                    // unpaired edge lists exactly its own half-edge
                    assert(m_pre.wf_half_edge(rv));
                    assert(m_pre.wf_half_edge(x));
                    if m_pre.he(rv).edge == m_pre.he(x).edge {
                        lemma_unpaired_side_slot(m_pre, x);
                    }
                }
            }
        }
        let ghost m_mid1 = *self;
        let e_bc = self.attach_side_edge(rev_bc, b, c, n + 1);
        let ghost m_mid2 = *self;
        proof {
            if let Some(rv) = rev_ca {
                lemma_unpaired_side_slot(m_pre, rv);
                if let Some(x) = rev_ab {
                    assert(x != rv);
                    assert(m_pre.wf_half_edge(rv));
                    assert(m_pre.wf_half_edge(x));
                    if m_pre.he(rv).edge == m_pre.he(x).edge {
                        lemma_unpaired_side_slot(m_pre, x);
                    }
                }
                if let Some(x) = rev_bc {
                    assert(x != rv);
                    assert(m_pre.wf_half_edge(rv));
                    assert(m_pre.wf_half_edge(x));
                    if m_pre.he(rv).edge == m_pre.he(x).edge {
                        lemma_unpaired_side_slot(m_pre, x);
                    }
                }
            }
        }
        let e_ca = self.attach_side_edge(rev_ca, c, a, n + 2);
        let ghost m_mid3 = *self;
        let head_a = self.vertices[a].half_edge;
        let head_b = self.vertices[b].half_edge;
        let head_c = self.vertices[c].half_edge;
        self.vertices[a].half_edge = Some(n);
        self.vertices[b].half_edge = Some(n + 1);
        self.vertices[c].half_edge = Some(n + 2);
        self.half_edges.push(
            MeshHalfEdge {
                origin: a,
                next: n + 1,
                prev: n + 2,
                opposite: rev_ab,
                sibling: head_a,
                edge: e_ab,
                triangle: t,
                alive: true,
            },
        );
        self.half_edges.push(
            MeshHalfEdge {
                origin: b,
                next: n + 2,
                prev: n,
                opposite: rev_bc,
                sibling: head_b,
                edge: e_bc,
                triangle: t,
                alive: true,
            },
        );
        self.half_edges.push(
            MeshHalfEdge {
                origin: c,
                next: n,
                prev: n + 1,
                opposite: rev_ca,
                sibling: head_c,
                edge: e_ca,
                triangle: t,
                alive: true,
            },
        );
        self.triangles.push(TriangleMesh { vertices: (a, b, c), half_edge: n, alive: true });
        proof {
            let m0 = *old(self);
            let m1 = *self;
            let n1 = (n + 1) as usize;
            let n2 = (n + 2) as usize;
            // the three sides use three distinct edge records
            if let Some(x) = rev_ab {
                if let Some(y) = rev_bc {
                    if e_ab == e_bc {
                        lemma_unpaired_side_slot(m0, x);
                        lemma_unpaired_side_slot(m0, y);
                    }
                }
                if let Some(y) = rev_ca {
                    if e_ab == e_ca {
                        lemma_unpaired_side_slot(m0, x);
                        lemma_unpaired_side_slot(m0, y);
                    }
                }
            }
            if let Some(x) = rev_bc {
                if let Some(y) = rev_ca {
                    if e_bc == e_ca {
                        lemma_unpaired_side_slot(m0, x);
                        lemma_unpaired_side_slot(m0, y);
                    }
                }
            }
            assert(e_ab != e_bc && e_bc != e_ca && e_ab != e_ca);
            assert forall|k: usize| k < n implies #[trigger] m1.he(k) == MeshHalfEdge {
                opposite: if rev_ab == Some(k) {
                    Some(n)
                } else if rev_bc == Some(k) {
                    Some(n1)
                } else if rev_ca == Some(k) {
                    Some(n2)
                } else {
                    m0.he(k).opposite
                },
                ..m0.he(k)
            } by {
                assert(m_mid1.he(k) == if rev_ab == Some(k) {
                    MeshHalfEdge { opposite: Some(n), ..m0.he(k) }
                } else {
                    m0.he(k)
                });
                assert(m_mid2.he(k) == if rev_bc == Some(k) {
                    MeshHalfEdge { opposite: Some(n1), ..m_mid1.he(k) }
                } else {
                    m_mid1.he(k)
                });
                assert(m_mid3.he(k) == if rev_ca == Some(k) {
                    MeshHalfEdge { opposite: Some(n2), ..m_mid2.he(k) }
                } else {
                    m_mid2.he(k)
                });
            }
            assert forall|e: usize|
                e < m0.edges@.len() && e != e_ab && e != e_bc && e != e_ca implies #[trigger] m1.ed(
                e,
            ) == m0.ed(e) by {
                assert(m_mid1.ed(e) == m0.ed(e));
                assert(m_mid2.ed(e) == m_mid1.ed(e));
                assert(m_mid3.ed(e) == m_mid2.ed(e));
            }
            assert(Self::side_edge_rel(m0, m1, a, b, rev_ab, e_ab, n)) by {
                if rev_ab is None {
                    assert(m_mid2.ed(e_ab) == m_mid1.ed(e_ab));
                    assert(m_mid3.ed(e_ab) == m_mid2.ed(e_ab));
                }
            }
            assert(Self::side_edge_rel(m0, m1, b, c, rev_bc, e_bc, n1)) by {
                if rev_bc is None {
                    assert(m_mid3.ed(e_bc) == m_mid2.ed(e_bc));
                }
            }
            assert(Self::side_edge_rel(m0, m1, c, a, rev_ca, e_ca, n2));
            assert(Self::add_commit_rel(m0, m1, a, b, c, rev_ab, rev_bc, rev_ca, e_ab, e_bc, e_ca));
            lemma_add_finish(m0, m1, a, b, c, rev_ab, rev_bc, rev_ca, e_ab, e_bc, e_ca);
        }
        Ok(t)
    }

    /// Attaches one side `(sa, sb)` of a triangle under construction to the
    /// edge registry: reuses (and fills) the edge of the already-present
    /// reverse half-edge `rev`, linking its `opposite` to the new half-edge
    /// `ni`, or registers a fresh edge when the side is new.
    fn attach_side_edge(&mut self, rev: Option<usize>, sa: usize, sb: usize, ni: usize) -> (e:
        usize)
        requires
            old(self).edges@.len() < usize::MAX,
            rev matches Some(rv) ==> {
                &&& rv < old(self).half_edges@.len()
                &&& old(self).he(rv).edge < old(self).edges@.len()
                &&& {
                    let ed = old(self).ed(old(self).he(rv).edge);
                    (ed.half_edge_a == Some(rv) && ed.half_edge_b is None) || (ed.half_edge_a
                        is None && ed.half_edge_b == Some(rv))
                }
            },
        ensures
            final(self).vertices@ == old(self).vertices@,
            final(self).triangles@ == old(self).triangles@,
            match rev {
                None => {
                    &&& e == old(self).edges@.len()
                    &&& final(self).edges@ == old(self).edges@.push(
                        EdgeMesh {
                            v1: sa,
                            v2: sb,
                            half_edge_a: Some(ni),
                            half_edge_b: None,
                            alive: true,
                        },
                    )
                    &&& final(self).half_edges@ == old(self).half_edges@
                },
                Some(rv) => {
                    &&& e == old(self).he(rv).edge
                    &&& final(self).edges@.len() == old(self).edges@.len()
                    &&& forall|x: usize|
                        x < old(self).edges@.len() && x != e ==> #[trigger] final(self).ed(x)
                            == old(self).ed(x)
                    &&& final(self).ed(e).v1 == old(self).ed(e).v1
                    &&& final(self).ed(e).v2 == old(self).ed(e).v2
                    &&& final(self).ed(e).alive == old(self).ed(e).alive
                    &&& ((final(self).ed(e).half_edge_a == Some(rv) && final(self).ed(
                        e,
                    ).half_edge_b == Some(ni)) || (final(self).ed(e).half_edge_a == Some(ni)
                        && final(self).ed(e).half_edge_b == Some(rv)))
                    &&& final(self).half_edges@ == old(self).half_edges@.update(
                        rv as int,
                        MeshHalfEdge { opposite: Some(ni), ..old(self).he(rv) },
                    )
                },
            },
    {
        match rev {
            Some(rv) => {
                let e = self.half_edges[rv].edge;
                if self.edges[e].half_edge_a.is_none() {
                    self.edges[e].half_edge_a = Some(ni);
                } else {
                    self.edges[e].half_edge_b = Some(ni);
                }
                self.half_edges[rv].opposite = Some(ni);
                e
            },
            None => {
                let e = self.edges.len();
                self.edges.push(
                    EdgeMesh {
                        v1: sa,
                        v2: sb,
                        half_edge_a: Some(ni),
                        half_edge_b: None,
                        alive: true,
                    },
                );
                e
            },
        }
    }

    /// Removes half-edge `h` from vertex `v`'s sibling list, relinking the
    /// list around it. Nothing else changes: every other list keeps exactly
    /// its members, and no record changes outside the one relinked link.
    fn unlink_sibling(&mut self, v: usize, h: usize)
        requires
            v < old(self).vertices@.len(),
            h < old(self).half_edges@.len(),
            sibling_sound(old(self).half_edges@, v),
            old(self).vx(v).half_edge is Some ==> old(self).vx(v).half_edge->Some_0 < old(
                self,
            ).half_edges@.len() && old(self).he(old(self).vx(v).half_edge->Some_0).alive && old(
                self,
            ).he(old(self).vx(v).half_edge->Some_0).origin == v,
            in_chain(old(self).half_edges@, old(self).vx(v).half_edge, h),
        ensures
            final(self).edges@ == old(self).edges@,
            final(self).triangles@ == old(self).triangles@,
            final(self).vertices@.len() == old(self).vertices@.len(),
            forall|u: usize|
                u < old(self).vertices@.len() && u != v ==> #[trigger] final(self).vx(u) == old(
                    self,
                ).vx(u),
            final(self).vx(v).data == old(self).vx(v).data,
            final(self).vx(v).alive == old(self).vx(v).alive,
            final(self).vx(v).half_edge != old(self).vx(v).half_edge ==> old(self).vx(v).half_edge
                == Some(h) && final(self).vx(v).half_edge == old(self).he(h).sibling,
            final(self).half_edges@.len() == old(self).half_edges@.len(),
            forall|k: usize|
                k < old(self).half_edges@.len() ==> {
                    let before = old(self).he(k);
                    let after = #[trigger] final(self).he(k);
                    &&& after.origin == before.origin
                    &&& after.next == before.next
                    &&& after.prev == before.prev
                    &&& after.opposite == before.opposite
                    &&& after.edge == before.edge
                    &&& after.triangle == before.triangle
                    &&& after.alive == before.alive
                    &&& (after.sibling != before.sibling ==> in_chain(
                        old(self).half_edges@,
                        old(self).vx(v).half_edge,
                        k,
                    ) && after.sibling == old(self).he(h).sibling && before.sibling == Some(h))
                },
            !in_chain(final(self).half_edges@, final(self).vx(v).half_edge, h),
            forall|x: usize|
                x != h ==> (in_chain(final(self).half_edges@, final(self).vx(v).half_edge, x)
                    <==> in_chain(old(self).half_edges@, old(self).vx(v).half_edge, x)),
            Self::unlink_rel(*old(self), *final(self), v, h),
    {
        let head = self.vertices[v].half_edge;
        match head {
            None => {},
            Some(c0) => {
                if c0 == h {
                    let hsib = self.half_edges[h].sibling;
                    self.vertices[v].half_edge = hsib;
                    proof {
                        match hsib {
                            Some(s2) => {
                                if in_chain(self.half_edges@, Some(s2), h) {
                                    lemma_chain_sound(self.half_edges@, Some(s2), v, h);
                                }
                            },
                            None => {},
                        }
                    }
                } else {
                    let ghost hes0 = self.half_edges@;
                    let ghost head0 = self.vx(v).half_edge;
                    let mut p = c0;
                    loop
                        invariant
                            self.half_edges@ == hes0,
                            self.vertices@ == old(self).vertices@,
                            self.edges@ == old(self).edges@,
                            self.triangles@ == old(self).triangles@,
                            head0 == old(self).vx(v).half_edge,
                            hes0 == old(self).half_edges@,
                            v < self.vertices@.len(),
                            h < hes0.len(),
                            sibling_sound(hes0, v),
                            head0 is Some ==> head0->Some_0 < hes0.len() && hes0[head0->Some_0 as int].alive
                                && hes0[head0->Some_0 as int].origin == v,
                            p < hes0.len(),
                            hes0[p as int].alive,
                            hes0[p as int].origin == v,
                            p != h,
                            in_chain(hes0, Some(p), h),
                            in_chain(hes0, head0, p),
                        decreases p,
                    {
                        let s = self.half_edges[p].sibling;
                        match s {
                            Some(sv) => {
                                if sv == h {
                                    let hsib = self.half_edges[h].sibling;
                                    self.half_edges[p].sibling = hsib;
                                    proof {
                                        assert(self.half_edges@ == hes0.update(
                                            p as int,
                                            MeshHalfEdge {
                                                sibling: hes0[h as int].sibling,
                                                ..hes0[p as int]
                                            },
                                        ));
                                        lemma_chain_unlink(
                                            hes0,
                                            self.half_edges@,
                                            head0,
                                            v,
                                            p,
                                            h,
                                            h,
                                        );
                                        assert forall|x: usize| x != h implies (in_chain(
                                            self.half_edges@,
                                            self.vx(v).half_edge,
                                            x,
                                        ) <==> in_chain(hes0, head0, x)) by {
                                            lemma_chain_unlink(
                                                hes0,
                                                self.half_edges@,
                                                head0,
                                                v,
                                                p,
                                                h,
                                                x,
                                            );
                                        }
                                    }
                                    return ;
                                } else {
                                    proof {
                                        assert(in_chain(hes0, Some(sv), h));
                                        assert(in_chain(hes0, Some(sv), sv));
                                        assert(in_chain(hes0, Some(p), sv));
                                        lemma_chain_trans(hes0, head0, p, sv);
                                    }
                                    p = sv;
                                }
                            },
                            None => {
                                // cannot happen: `h` lies further down this
                                // list, so `p` must link on
                                return ;
                            },
                        }
                    }
                }
            },
        }
    }

    /// Exact description of what removing triangle `t` does to the mesh:
    /// the triangle and its three half-edges are tombstoned; every surviving
    /// half-edge keeps its record but for an `opposite` that pointed at a
    /// removed one, which is cleared; each touched edge loses the removed
    /// slot and dies when its last slot empties; a corner vertex dies
    /// exactly when its sibling list has emptied.
    pub open spec fn spec_removed_triangle(pre: Mesh<T>, post: Mesh<T>, t: usize) -> bool {
        let h0 = pre.tr(t).half_edge;
        let h1 = pre.he(h0).next;
        let h2 = pre.he(h1).next;
        let o0 = pre.he(h0).origin;
        let o1 = pre.he(h1).origin;
        let o2 = pre.he(h2).origin;
        &&& post.triangles@ == pre.triangles@.update(
            t as int,
            TriangleMesh { alive: false, ..pre.tr(t) },
        )
        &&& post.half_edges@.len() == pre.half_edges@.len()
        &&& !post.he(h0).alive && !post.he(h1).alive && !post.he(h2).alive
        &&& forall|k: usize|
            k < pre.half_edges@.len() && k != h0 && k != h1 && k != h2 && (#[trigger] pre.he(
                k,
            )).alive ==> {
                let before = pre.he(k);
                let after = post.he(k);
                &&& after.alive == before.alive
                &&& after.origin == before.origin
                &&& after.next == before.next
                &&& after.prev == before.prev
                &&& after.edge == before.edge
                &&& after.triangle == before.triangle
                &&& after.opposite == (if before.opposite == Some(h0) || before.opposite == Some(
                    h1,
                ) || before.opposite == Some(h2) {
                    None::<usize>
                } else {
                    before.opposite
                })
            }
        &&& forall|k: usize|
            k < pre.half_edges@.len() && k != h0 && k != h1 && k != h2 && !(#[trigger] pre.he(
                k,
            )).alive ==> post.he(k).alive == pre.he(k).alive
        &&& post.edges@.len() == pre.edges@.len()
        &&& forall|e: usize|
            e < pre.edges@.len() && !(#[trigger] pre.ed(e)).alive ==> post.ed(e) == pre.ed(e)
        &&& forall|e: usize|
            e < pre.edges@.len() && (#[trigger] pre.ed(e)).alive ==> {
                let before = pre.ed(e);
                let after = post.ed(e);
                &&& after.v1 == before.v1
                &&& after.v2 == before.v2
                &&& after.half_edge_a == (if before.half_edge_a == Some(h0)
                    || before.half_edge_a == Some(h1) || before.half_edge_a == Some(h2) {
                    None::<usize>
                } else {
                    before.half_edge_a
                })
                &&& after.half_edge_b == (if before.half_edge_b == Some(h0)
                    || before.half_edge_b == Some(h1) || before.half_edge_b == Some(h2) {
                    None::<usize>
                } else {
                    before.half_edge_b
                })
                &&& after.alive == (after.half_edge_a is Some || after.half_edge_b is Some)
            }
        &&& post.vertices@.len() == pre.vertices@.len()
        &&& forall|v: usize|
            v < pre.vertices@.len() && v != o0 && v != o1 && v != o2 ==> #[trigger] post.vx(v)
                == pre.vx(v)
        &&& post.vx(o0).data == pre.vx(o0).data
        &&& post.vx(o1).data == pre.vx(o1).data
        &&& post.vx(o2).data == pre.vx(o2).data
        &&& post.vx(o0).alive == (post.vx(o0).half_edge is Some)
        &&& post.vx(o1).alive == (post.vx(o1).half_edge is Some)
        &&& post.vx(o2).alive == (post.vx(o2).half_edge is Some)
    }

    /// How removal reshapes the sibling lists: each corner's list holds
    /// exactly what it held before, less the removed half-edge; every other
    /// vertex's list is untouched; and surviving links still step down to a
    /// half-edge of the same origin that was live before the removal.
    pub open spec fn remove_chain_facts(m0: Mesh<T>, m1: Mesh<T>, t: usize) -> bool {
        let h0 = m0.tr(t).half_edge;
        let h1 = m0.he(h0).next;
        let h2 = m0.he(h1).next;
        let o0 = m0.he(h0).origin;
        let o1 = m0.he(h1).origin;
        let o2 = m0.he(h2).origin;
        &&& forall|x: usize|
            x != h0 ==> (in_chain(m1.half_edges@, m1.vx(o0).half_edge, x) <==> in_chain(
                m0.half_edges@,
                m0.vx(o0).half_edge,
                x,
            ))
        &&& forall|x: usize|
            x != h1 ==> (in_chain(m1.half_edges@, m1.vx(o1).half_edge, x) <==> in_chain(
                m0.half_edges@,
                m0.vx(o1).half_edge,
                x,
            ))
        &&& forall|x: usize|
            x != h2 ==> (in_chain(m1.half_edges@, m1.vx(o2).half_edge, x) <==> in_chain(
                m0.half_edges@,
                m0.vx(o2).half_edge,
                x,
            ))
        &&& !in_chain(m1.half_edges@, m1.vx(o0).half_edge, h0)
        &&& !in_chain(m1.half_edges@, m1.vx(o1).half_edge, h1)
        &&& !in_chain(m1.half_edges@, m1.vx(o2).half_edge, h2)
        &&& forall|u: usize, x: usize|
            u < m0.vertices@.len() && m0.vx(u).alive && u != o0 && u != o1 && u != o2 ==> ((
            #[trigger] in_chain(m1.half_edges@, m1.vx(u).half_edge, x)) <==> in_chain(
                m0.half_edges@,
                m0.vx(u).half_edge,
                x,
            ))
        &&& forall|k: usize|
            k < m1.half_edges@.len() && (#[trigger] m1.he(k)).alive ==> (m1.he(k).sibling
                matches Some(s) ==> s < k && m1.he(s).origin == m1.he(k).origin && m0.he(s).alive)
    }

    /// Detach pass of a removal: clears the opposite back-references of the
    /// three half-edges of triangle `t` and takes them off their edges,
    /// tombstoning an edge whose last slot empties.
    #[verifier::rlimit(100)]
    fn remove_detach_phase(&mut self, t: usize)
        requires
            old(self).wf(),
            old(self).valid_triangle(t),
        ensures
            Self::remove_detach_rel(*old(self), *final(self), t),
    {
        proof {
            lemma_remove_prep(*old(self), t);
        }
        let h0 = self.triangles[t].half_edge;
        let h1 = self.half_edges[h0].next;
        let h2 = self.half_edges[h1].next;
        let e0 = self.half_edges[h0].edge;
        let e1 = self.half_edges[h1].edge;
        let e2 = self.half_edges[h2].edge;
        let opp0 = self.half_edges[h0].opposite;
        let opp1 = self.half_edges[h1].opposite;
        let opp2 = self.half_edges[h2].opposite;
        // clear the opposite back-references
        if let Some(o) = opp0 {
            self.half_edges[o].opposite = None;
        }
        if let Some(o) = opp1 {
            self.half_edges[o].opposite = None;
        }
        if let Some(o) = opp2 {
            self.half_edges[o].opposite = None;
        }
        // detach the three half-edges from their edges; an edge left with
        // no half-edge is removed
        let a0 = self.edges[e0].half_edge_a;
        if a0 == Some(h0) {
            self.edges[e0].half_edge_a = None;
        }
        let b0 = self.edges[e0].half_edge_b;
        if b0 == Some(h0) {
            self.edges[e0].half_edge_b = None;
        }
        if self.edges[e0].half_edge_a.is_none() && self.edges[e0].half_edge_b.is_none() {
            self.edges[e0].alive = false;
        }
        let a1 = self.edges[e1].half_edge_a;
        if a1 == Some(h1) {
            self.edges[e1].half_edge_a = None;
        }
        let b1 = self.edges[e1].half_edge_b;
        if b1 == Some(h1) {
            self.edges[e1].half_edge_b = None;
        }
        if self.edges[e1].half_edge_a.is_none() && self.edges[e1].half_edge_b.is_none() {
            self.edges[e1].alive = false;
        }
        let a2 = self.edges[e2].half_edge_a;
        if a2 == Some(h2) {
            self.edges[e2].half_edge_a = None;
        }
        let b2 = self.edges[e2].half_edge_b;
        if b2 == Some(h2) {
            self.edges[e2].half_edge_b = None;
        }
        if self.edges[e2].half_edge_a.is_none() && self.edges[e2].half_edge_b.is_none() {
            self.edges[e2].alive = false;
        }
    }

    /// Tombstone pass of a removal: marks the three half-edges dead, then
    /// each corner vertex whose sibling list emptied, then the triangle.
    fn remove_tombstone_phase(
        &mut self,
        t: usize,
        h0: usize,
        h1: usize,
        h2: usize,
        o0: usize,
        o1: usize,
        o2: usize,
    )
        requires
            t < old(self).triangles@.len(),
            h0 < old(self).half_edges@.len(),
            h1 < old(self).half_edges@.len(),
            h2 < old(self).half_edges@.len(),
            o0 < old(self).vertices@.len(),
            o1 < old(self).vertices@.len(),
            o2 < old(self).vertices@.len(),
            h0 != h1 && h1 != h2 && h0 != h2,
            o0 != o1 && o1 != o2 && o0 != o2,
        ensures
            final(self).edges@ == old(self).edges@,
            final(self).triangles@ == old(self).triangles@.update(
                t as int,
                TriangleMesh { alive: false, ..old(self).tr(t) },
            ),
            final(self).half_edges@.len() == old(self).half_edges@.len(),
            forall|k: usize|
                k < old(self).half_edges@.len() && k != h0 && k != h1 && k != h2
                    ==> #[trigger] final(self).he(k) == old(self).he(k),
            final(self).he(h0) == (MeshHalfEdge { alive: false, ..old(self).he(h0) }),
            final(self).he(h1) == (MeshHalfEdge { alive: false, ..old(self).he(h1) }),
            final(self).he(h2) == (MeshHalfEdge { alive: false, ..old(self).he(h2) }),
            final(self).vertices@.len() == old(self).vertices@.len(),
            forall|v: usize|
                v < old(self).vertices@.len() && v != o0 && v != o1 && v != o2
                    ==> #[trigger] final(self).vx(v) == old(self).vx(v),
            final(self).vx(o0) == (MeshVertex {
                alive: old(self).vx(o0).alive && old(self).vx(o0).half_edge is Some,
                ..old(self).vx(o0)
            }),
            final(self).vx(o1) == (MeshVertex {
                alive: old(self).vx(o1).alive && old(self).vx(o1).half_edge is Some,
                ..old(self).vx(o1)
            }),
            final(self).vx(o2) == (MeshVertex {
                alive: old(self).vx(o2).alive && old(self).vx(o2).half_edge is Some,
                ..old(self).vx(o2)
            }),
    {
        self.half_edges[h0].alive = false;
        self.half_edges[h1].alive = false;
        self.half_edges[h2].alive = false;
        if self.vertices[o0].half_edge.is_none() {
            self.vertices[o0].alive = false;
        }
        if self.vertices[o1].half_edge.is_none() {
            self.vertices[o1].alive = false;
        }
        if self.vertices[o2].half_edge.is_none() {
            self.vertices[o2].alive = false;
        }
        self.triangles[t].alive = false;
    }

    /// Removes a live triangle: detaches its three half-edges, clears the
    /// `opposite` back-reference each of them may have had, takes each out
    /// of its origin vertex's sibling list, removes each edge left with no
    /// half-edge and each corner vertex left with no outgoing half-edge.
    /// Identifiers held by the caller stay valid: records are tombstoned,
    /// never re-used.
    pub fn remove_triangle(&mut self, t: usize)
        requires
            old(self).wf(),
            old(self).valid_triangle(t),
        ensures
            final(self).wf(),
            Self::spec_removed_triangle(*old(self), *final(self), t),
    {
        proof {
            lemma_remove_prep(*old(self), t);
        }
        let h0 = self.triangles[t].half_edge;
        let h1 = self.half_edges[h0].next;
        let h2 = self.half_edges[h1].next;
        let o0 = self.half_edges[h0].origin;
        let o1 = self.half_edges[h1].origin;
        let o2 = self.half_edges[h2].origin;
        self.remove_detach_phase(t);
        let ghost g1 = *self;
        proof {
            lemma_remove_detach_ladder(*old(self), g1, t);
        }
        self.unlink_sibling(o0, h0);
        let ghost g2 = *self;
        proof {
            lemma_remove_unlink_ladder(g1, g2, o0, h0, o1, h1);
            lemma_remove_unlink_ladder(g1, g2, o0, h0, o2, h2);
        }
        self.unlink_sibling(o1, h1);
        let ghost g3 = *self;
        proof {
            lemma_remove_unlink_ladder(g2, g3, o1, h1, o2, h2);
        }
        self.unlink_sibling(o2, h2);
        let ghost g4 = *self;
        self.remove_tombstone_phase(t, h0, h1, h2, o0, o1, o2);
        proof {
            let m0 = *old(self);
            let m1 = *self;
            assert(Self::remove_tombstone_rel(m0, g4, m1, t));
            lemma_remove_compose(m0, g1, g2, g3, g4, m1, t);
        }
    }

    /// The three corner vertices of a live triangle, read by walking its
    /// half-edge cycle from the entry half-edge: they come back in creation
    /// order, matching the order the triangle was built with.
    pub fn triangle_vertices(&self, t: usize) -> (r: (usize, usize, usize))
        requires
            self.wf(),
            self.valid_triangle(t),
        ensures
            r == self.tr(t).vertices,
    {
        proof {
            assert(self.wf_triangle(t));
        }
        let h0 = self.triangles[t].half_edge;
        let h1 = self.half_edges[h0].next;
        let h2 = self.half_edges[h1].next;
        (self.half_edges[h0].origin, self.half_edges[h1].origin, self.half_edges[h2].origin)
    }

    /// Identifiers of all live triangles, in ascending order: the finite,
    /// restartable face traversal.
    pub fn faces(&self) -> (r: Vec<usize>)
        ensures
            forall|j: int| 0 <= j < r@.len() ==> self.valid_triangle(#[trigger] r@[j]),
            forall|u: usize| #[trigger] self.valid_triangle(u) ==> r@.contains(u),
            forall|j1: int, j2: int| 0 <= j1 < j2 < r@.len() ==> r@[j1] < r@[j2],
    {
        let mut r: Vec<usize> = Vec::new();
        let mut i: usize = 0;
        while i < self.triangles.len()
            invariant
                i <= self.triangles@.len(),
                forall|j: int| 0 <= j < r@.len() ==> self.valid_triangle(#[trigger] r@[j]) && r@[j]
                    < i,
                forall|u: usize| #[trigger] self.valid_triangle(u) && u < i ==> r@.contains(u),
                forall|j1: int, j2: int| 0 <= j1 < j2 < r@.len() ==> r@[j1] < r@[j2],
            decreases self.triangles@.len() - i,
        {
            let ghost prev = r@;
            if self.triangles[i].alive {
                r.push(i);
                proof {
                    assert(r@[r@.len() - 1] == i);
                }
            }
            proof {
                assert forall|u: usize| prev.contains(u) implies r@.contains(u) by {
                    let j = choose|j: int| 0 <= j < prev.len() && prev[j] == u;
                    assert(r@[j] == u);
                }
            }
            i = i + 1;
        }
        r
    }

    /// Identifiers of all live vertices, in ascending order: the finite,
    /// restartable vertex traversal.
    pub fn vertices_live(&self) -> (r: Vec<usize>)
        ensures
            forall|j: int| 0 <= j < r@.len() ==> self.valid_vertex(#[trigger] r@[j]),
            forall|u: usize| #[trigger] self.valid_vertex(u) ==> r@.contains(u),
            forall|j1: int, j2: int| 0 <= j1 < j2 < r@.len() ==> r@[j1] < r@[j2],
    {
        let mut r: Vec<usize> = Vec::new();
        let mut i: usize = 0;
        while i < self.vertices.len()
            invariant
                i <= self.vertices@.len(),
                forall|j: int| 0 <= j < r@.len() ==> self.valid_vertex(#[trigger] r@[j]) && r@[j]
                    < i,
                forall|u: usize| #[trigger] self.valid_vertex(u) && u < i ==> r@.contains(u),
                forall|j1: int, j2: int| 0 <= j1 < j2 < r@.len() ==> r@[j1] < r@[j2],
            decreases self.vertices@.len() - i,
        {
            let ghost prev = r@;
            if self.vertices[i].alive {
                r.push(i);
                proof {
                    assert(r@[r@.len() - 1] == i);
                }
            }
            proof {
                assert forall|u: usize| prev.contains(u) implies r@.contains(u) by {
                    let j = choose|j: int| 0 <= j < prev.len() && prev[j] == u;
                    assert(r@[j] == u);
                }
            }
            i = i + 1;
        }
        r
    }

    /// The attribute record of a live vertex.
    pub fn get_vertex(&self, v: usize) -> (r: &Vertex<T>)
        requires
            self.wf(),
            self.valid_vertex(v),
        ensures
            r == self.vx(v).data,
    {
        &self.vertices[v].data
    }
}

/// In a well-formed mesh the sibling lists around any vertex are sound.
pub proof fn lemma_mesh_sibling_sound<T>(m: Mesh<T>, v: usize)
    requires
        m.wf(),
    ensures
        sibling_sound(m.half_edges@, v),
{
    assert forall|k: usize|
        k < m.half_edges@.len() && (#[trigger] m.half_edges@[k as int]).alive && m.half_edges@[
        k as int].origin == v implies (m.half_edges@[k as int].sibling matches Some(s) ==> s < k
        && m.half_edges@[s as int].alive && m.half_edges@[s as int].origin == v) by {
        assert(m.valid_he(k));
        assert(m.wf_half_edge(k));
    }
}

/// The edge of a live, unpaired half-edge lists exactly that half-edge,
/// in one slot, with the other slot free.
proof fn lemma_unpaired_side_slot<T>(m: Mesh<T>, rv: usize)
    requires
        m.wf(),
        m.valid_he(rv),
        m.he(rv).opposite is None,
    ensures
        m.he(rv).edge < m.edges@.len(),
        (m.ed(m.he(rv).edge).half_edge_a == Some(rv) && m.ed(m.he(rv).edge).half_edge_b is None)
            || (m.ed(m.he(rv).edge).half_edge_a is None && m.ed(m.he(rv).edge).half_edge_b == Some(
            rv,
        )),
{
    assert(m.wf_half_edge(rv));
    let e = m.he(rv).edge;
    assert(m.valid_edge(e));
    assert(m.wf_edge(e));
}

/// Extending the half-edge arena (and relinking nothing but `opposite`
/// fields) leaves every existing sibling chain intact.
proof fn lemma_chain_preserved_extend<T>(m0: Mesh<T>, m1: Mesh<T>, u: usize, h: usize)
    requires
        m0.wf(),
        m0.valid_vertex(u),
        forall|k: usize|
            k < m0.half_edges@.len() ==> (#[trigger] m1.half_edges@[k as int]).sibling
                == m0.half_edges@[k as int].sibling,
        in_chain(m0.half_edges@, m0.vx(u).half_edge, h),
    ensures
        in_chain(m1.half_edges@, m0.vx(u).half_edge, h),
{
    lemma_mesh_sibling_sound(m0, u);
    assert(m0.wf_vertex(u));
    assert forall|k: usize| #[trigger]
        in_chain(m0.half_edges@, m0.vx(u).half_edge, k) implies m1.half_edges@[k as int].sibling
        == m0.half_edges@[k as int].sibling by {
        lemma_chain_sound(m0.half_edges@, m0.vx(u).half_edge, u, k);
    }
    lemma_chain_frame(m0.half_edges@, m1.half_edges@, m0.vx(u).half_edge, h);
}

/// A side whose same-direction traversal is absent, and whose reverse
/// traversal (if any) is still unpaired, is not blocked.
proof fn lemma_unblocked_side<T>(m: Mesh<T>, a: usize, b: usize, rev: Option<usize>)
    requires
        m.wf(),
        !m.spec_has_half_edge(a, b),
        match rev {
            Some(rv) => m.valid_he(rv) && m.he(rv).origin == b && m.he_target(rv) == a && m.he(
                rv,
            ).opposite is None,
            None => !m.spec_has_half_edge(b, a),
        },
    ensures
        !m.spec_side_blocked(a, b),
{
    assert(!(exists|h: usize|
        m.valid_he(h) && #[trigger] m.he(h).origin == b && m.he_target(h) == a && m.he(h).opposite
            is Some)) by {
        if exists|h: usize|
            m.valid_he(h) && #[trigger] m.he(h).origin == b && m.he_target(h) == a && m.he(
                h,
            ).opposite is Some {
            let h = choose|h: usize|
                m.valid_he(h) && #[trigger] m.he(h).origin == b && m.he_target(h) == a && m.he(
                    h,
                ).opposite is Some;
            match rev {
                None => {
                    assert(m.spec_has_half_edge(b, a));
                },
                Some(rv) => {
                    // the reverse traversal is unique, so `h` is `rv`,
                    // whose `opposite` is known to be absent
                    assert(m.valid_he(h) && m.valid_he(rv));
                },
            }
        }
    }
}

/// A committed triangle insertion preserves the whole-mesh invariant and
/// amounts exactly to `spec_added_triangle`.
#[verifier::rlimit(100)]
proof fn lemma_add_finish<T>(
    m0: Mesh<T>,
    m1: Mesh<T>,
    a: usize,
    b: usize,
    c: usize,
    rev_ab: Option<usize>,
    rev_bc: Option<usize>,
    rev_ca: Option<usize>,
    e_ab: usize,
    e_bc: usize,
    e_ca: usize,
)
    requires
        m0.wf(),
        m0.valid_vertex(a),
        m0.valid_vertex(b),
        m0.valid_vertex(c),
        a != b && b != c && a != c,
        m0.half_edges@.len() + 3 <= usize::MAX,
        m0.edges@.len() + 3 <= usize::MAX,
        m0.triangles@.len() + 1 <= usize::MAX,
        !m0.spec_has_half_edge(a, b),
        !m0.spec_has_half_edge(b, c),
        !m0.spec_has_half_edge(c, a),
        match rev_ab {
            Some(rv) => m0.valid_he(rv) && m0.he(rv).origin == b && m0.he_target(rv) == a
                && m0.he(rv).opposite is None,
            None => !m0.spec_has_half_edge(b, a),
        },
        match rev_bc {
            Some(rv) => m0.valid_he(rv) && m0.he(rv).origin == c && m0.he_target(rv) == b
                && m0.he(rv).opposite is None,
            None => !m0.spec_has_half_edge(c, b),
        },
        match rev_ca {
            Some(rv) => m0.valid_he(rv) && m0.he(rv).origin == a && m0.he_target(rv) == c
                && m0.he(rv).opposite is None,
            None => !m0.spec_has_half_edge(a, c),
        },
        Mesh::add_commit_rel(m0, m1, a, b, c, rev_ab, rev_bc, rev_ca, e_ab, e_bc, e_ca),
    ensures
        m1.wf(),
        Mesh::spec_added_triangle(m0, m1, a, b, c, m0.triangles@.len() as usize),
{
    let n = m0.half_edges@.len() as usize;
    let n1 = (n + 1) as usize;
    let n2 = (n + 2) as usize;
    let t = m0.triangles@.len() as usize;
    // liveness and targets of pre-existing half-edges are untouched
    assert forall|k: usize| m0.valid_he(k) implies m1.valid_he(k) && #[trigger] m1.he_target(k)
        == m0.he_target(k) by {
        assert(m0.wf_half_edge(k));
        assert(m1.he(k).next == m0.he(k).next);
    }
    assert forall|k: usize| k < n && #[trigger] m1.he(k).alive implies m0.valid_he(k) by {}
    assert(m1.he_target(n) == b && m1.he_target(n1) == c && m1.he_target(n2) == a);
    // per-half-edge consistency
    assert forall|h: usize| m1.valid_he(h) implies m1.wf_half_edge(h) by {
        if h < n {
            assert(m0.valid_he(h));
            assert(m0.wf_half_edge(h));
            let e = m0.he(h).edge;
            assert(m0.valid_edge(e));
            assert(m0.wf_edge(e));
            let tt = m0.he(h).triangle;
            assert(m0.valid_triangle(tt));
            assert(m0.wf_triangle(tt));
            // the edge still lists h, also when a slot was filled
            if rev_ab is Some && e == e_ab {
                lemma_unpaired_side_slot(m0, rev_ab->Some_0);
            }
            if rev_bc is Some && e == e_bc {
                lemma_unpaired_side_slot(m0, rev_bc->Some_0);
            }
            if rev_ca is Some && e == e_ca {
                lemma_unpaired_side_slot(m0, rev_ca->Some_0);
            }
            if m1.he(h).opposite == m0.he(h).opposite {
                match m0.he(h).opposite {
                    Some(o) => {
                        // the partner was paired already, so it is not one
                        // of the relinked reverses
                        assert(m0.valid_he(o));
                        assert(m0.wf_half_edge(o));
                        assert(m0.he(o).opposite == Some(h));
                        assert(m1.he(o).opposite == Some(h));
                    },
                    None => {},
                }
            }
        } else {
            assert(m0.wf_vertex(a) && m0.wf_vertex(b) && m0.wf_vertex(c));
            assert(m1.tr(t).half_edge == n);
            if h == n {
                if let Some(rv) = rev_ab {
                    assert(m0.valid_he(rv));
                    assert(m0.wf_half_edge(rv));
                }
            } else if h == n1 {
                if let Some(rv) = rev_bc {
                    assert(m0.valid_he(rv));
                    assert(m0.wf_half_edge(rv));
                }
            } else {
                if let Some(rv) = rev_ca {
                    assert(m0.valid_he(rv));
                    assert(m0.wf_half_edge(rv));
                }
            }
        }
    }
    // per-vertex consistency
    assert forall|v: usize| m1.valid_vertex(v) implies m1.wf_vertex(v) by {
        assert(m0.valid_vertex(v));
        if v != a && v != b && v != c {
            assert(m0.wf_vertex(v));
        }
    }
    // per-edge consistency
    assert forall|e: usize| m1.valid_edge(e) implies m1.wf_edge(e) by {
        let is_eab = rev_ab is Some && e == e_ab;
        let is_ebc = rev_bc is Some && e == e_bc;
        let is_eca = rev_ca is Some && e == e_ca;
        let is_new = e >= m0.edges@.len();
        if !is_eab && !is_ebc && !is_eca && !is_new {
            assert(m1.ed(e) == m0.ed(e));
            assert(m0.valid_edge(e));
            assert(m0.wf_edge(e));
            if m0.ed(e).half_edge_a is Some {
                let x = m0.ed(e).half_edge_a->Some_0;
                assert(m0.valid_he(x));
                assert(m0.wf_half_edge(x));
            }
            if m0.ed(e).half_edge_b is Some {
                let x = m0.ed(e).half_edge_b->Some_0;
                assert(m0.valid_he(x));
                assert(m0.wf_half_edge(x));
            }
        } else if is_eab {
            let rv = rev_ab->Some_0;
            assert(m0.valid_he(rv));
            assert(m0.wf_half_edge(rv));
            assert(m0.valid_edge(e));
            assert(m0.wf_edge(e));
            lemma_unpaired_side_slot(m0, rv);
        } else if is_ebc {
            let rv = rev_bc->Some_0;
            assert(m0.valid_he(rv));
            assert(m0.wf_half_edge(rv));
            assert(m0.valid_edge(e));
            assert(m0.wf_edge(e));
            lemma_unpaired_side_slot(m0, rv);
        } else if is_eca {
            let rv = rev_ca->Some_0;
            assert(m0.valid_he(rv));
            assert(m0.wf_half_edge(rv));
            assert(m0.valid_edge(e));
            assert(m0.wf_edge(e));
            lemma_unpaired_side_slot(m0, rv);
        } else {
            // a freshly pushed edge for a side with no reverse
            assert(e == e_ab || e == e_bc || e == e_ca);
        }
    }
    // per-triangle consistency
    assert forall|u: usize| m1.valid_triangle(u) implies m1.wf_triangle(u) by {
        if u < m0.triangles@.len() {
            assert(m0.valid_triangle(u));
            assert(m0.wf_triangle(u));
            let h0 = m0.tr(u).half_edge;
            assert(m0.valid_he(h0));
            assert(m0.valid_he(m0.he(h0).next));
        }
    }
    // every live half-edge is on its origin's sibling list
    assert forall|h: usize| m1.valid_he(h) implies in_chain(
        m1.half_edges@,
        m1.vx(m1.he(h).origin).half_edge,
        h,
    ) by {
        if h < n {
            assert(m0.valid_he(h));
            assert(m0.wf_half_edge(h));
            let u = m0.he(h).origin;
            assert(m0.valid_vertex(u));
            assert(in_chain(m0.half_edges@, m0.vx(u).half_edge, h));
            assert forall|k: usize|
                k < m0.half_edges@.len() implies (#[trigger] m1.half_edges@[k as int]).sibling
                    == m0.half_edges@[k as int].sibling by {
                assert(m1.he(k).sibling == m0.he(k).sibling);
            }
            lemma_chain_preserved_extend(m0, m1, u, h);
            assert(m0.wf_vertex(u));
            if u == a {
                assert(m1.he(n).sibling == m0.vx(a).half_edge);
                assert(in_chain(m1.half_edges@, Some(n), h));
            } else if u == b {
                assert(m1.he(n1).sibling == m0.vx(b).half_edge);
                assert(in_chain(m1.half_edges@, Some(n1), h));
            } else if u == c {
                assert(m1.he(n2).sibling == m0.vx(c).half_edge);
                assert(in_chain(m1.half_edges@, Some(n2), h));
            } else {
                assert(m1.vx(u).half_edge == m0.vx(u).half_edge);
            }
        } else {
            if h == n {
                assert(in_chain(m1.half_edges@, Some(n), n));
            } else if h == n1 {
                assert(in_chain(m1.half_edges@, Some(n1), n1));
            } else {
                assert(in_chain(m1.half_edges@, Some(n2), n2));
            }
        }
    }
    // at most one live half-edge per directed pair
    assert forall|h1: usize, h2: usize|
        #[trigger] m1.valid_he(h1) && #[trigger] m1.valid_he(h2) && h1 != h2 implies !(m1.he(
        h1,
    ).origin == m1.he(h2).origin && m1.he_target(h1) == m1.he_target(h2)) by {
        if h1 < n && h2 < n {
            assert(m0.valid_he(h1) && m0.valid_he(h2));
        } else if h1 < n {
            assert(m0.valid_he(h1));
            if m1.he(h1).origin == m1.he(h2).origin && m1.he_target(h1) == m1.he_target(h2) {
                assert(m0.spec_has_half_edge(m0.he(h1).origin, m0.he_target(h1)));
            }
        } else if h2 < n {
            assert(m0.valid_he(h2));
            if m1.he(h1).origin == m1.he(h2).origin && m1.he_target(h1) == m1.he_target(h2) {
                assert(m0.spec_has_half_edge(m0.he(h2).origin, m0.he_target(h2)));
            }
        }
    }
    // reverse traversals are always linked as opposites
    assert forall|h1: usize, h2: usize|
        #[trigger] m1.valid_he(h1) && #[trigger] m1.valid_he(h2) && m1.he(h1).origin
            == m1.he_target(h2) && m1.he_target(h1) == m1.he(h2).origin implies m1.he(h1).opposite
        == Some(h2) && m1.he(h2).opposite == Some(h1) by {
        if h1 < n && h2 < n {
            assert(m0.valid_he(h1) && m0.valid_he(h2));
            assert(m0.he(h1).opposite == Some(h2) && m0.he(h2).opposite == Some(h1));
        } else if h1 < n {
            assert(m0.valid_he(h1));
            assert(m0.spec_has_half_edge(m0.he(h1).origin, m0.he_target(h1)));
            if h2 == n {
                let rv = rev_ab->Some_0;
                assert(m0.valid_he(rv) && h1 == rv);
            } else if h2 == n1 {
                let rv = rev_bc->Some_0;
                assert(m0.valid_he(rv) && h1 == rv);
            } else {
                let rv = rev_ca->Some_0;
                assert(m0.valid_he(rv) && h1 == rv);
            }
        } else if h2 < n {
            assert(m0.valid_he(h2));
            assert(m0.spec_has_half_edge(m0.he(h2).origin, m0.he_target(h2)));
            if h1 == n {
                let rv = rev_ab->Some_0;
                assert(m0.valid_he(rv) && h2 == rv);
            } else if h1 == n1 {
                let rv = rev_bc->Some_0;
                assert(m0.valid_he(rv) && h2 == rv);
            } else {
                let rv = rev_ca->Some_0;
                assert(m0.valid_he(rv) && h2 == rv);
            }
        }
    }
    // the new half-edge of each side is linked exactly when the mesh
    // already had the reverse traversal
    if let Some(rv) = rev_ab {
        assert(m0.spec_has_half_edge(b, a));
    }
    if let Some(rv) = rev_bc {
        assert(m0.spec_has_half_edge(c, b));
    }
    if let Some(rv) = rev_ca {
        assert(m0.spec_has_half_edge(a, c));
    }
}

/// Everything a removal needs to know about the triangle being removed:
/// validity of its parts, distinctness of its side edges, and walkable
/// sibling lists at its corners.
proof fn lemma_remove_prep<T>(m0: Mesh<T>, t: usize)
    requires
        m0.wf(),
        m0.valid_triangle(t),
    ensures
        ({
            let h0 = m0.tr(t).half_edge;
            let h1 = m0.he(h0).next;
            let h2 = m0.he(h1).next;
            let o0 = m0.he(h0).origin;
            let o1 = m0.he(h1).origin;
            let o2 = m0.he(h2).origin;
            let e0 = m0.he(h0).edge;
            let e1 = m0.he(h1).edge;
            let e2 = m0.he(h2).edge;
            &&& m0.wf_triangle(t)
            &&& m0.valid_he(h0) && m0.valid_he(h1) && m0.valid_he(h2)
            &&& m0.wf_half_edge(h0) && m0.wf_half_edge(h1) && m0.wf_half_edge(h2)
            &&& m0.valid_vertex(o0) && m0.valid_vertex(o1) && m0.valid_vertex(o2)
            &&& o0 != o1 && o1 != o2 && o0 != o2
            &&& m0.valid_edge(e0) && m0.valid_edge(e1) && m0.valid_edge(e2)
            &&& m0.wf_edge(e0) && m0.wf_edge(e1) && m0.wf_edge(e2)
            &&& e0 != e1 && e1 != e2 && e0 != e2
            &&& (m0.he(h0).opposite matches Some(o) ==> m0.valid_he(o) && m0.he(o).opposite
                == Some(h0))
            &&& (m0.he(h1).opposite matches Some(o) ==> m0.valid_he(o) && m0.he(o).opposite
                == Some(h1))
            &&& (m0.he(h2).opposite matches Some(o) ==> m0.valid_he(o) && m0.he(o).opposite
                == Some(h2))
            &&& vertex_chain_ok(m0, o0) && vertex_chain_ok(m0, o1) && vertex_chain_ok(m0, o2)
            &&& in_chain(m0.half_edges@, m0.vx(o0).half_edge, h0)
            &&& in_chain(m0.half_edges@, m0.vx(o1).half_edge, h1)
            &&& in_chain(m0.half_edges@, m0.vx(o2).half_edge, h2)
        }),
{
    let h0 = m0.tr(t).half_edge;
    let h1 = m0.he(h0).next;
    let h2 = m0.he(h1).next;
    let o0 = m0.he(h0).origin;
    let o1 = m0.he(h1).origin;
    let o2 = m0.he(h2).origin;
    let e0 = m0.he(h0).edge;
    let e1 = m0.he(h1).edge;
    let e2 = m0.he(h2).edge;
    assert(m0.wf_triangle(t));
    assert(m0.valid_he(h0) && m0.valid_he(h1) && m0.valid_he(h2));
    assert(m0.wf_half_edge(h0) && m0.wf_half_edge(h1) && m0.wf_half_edge(h2));
    assert(m0.valid_vertex(o0) && m0.valid_vertex(o1) && m0.valid_vertex(o2));
    assert(m0.wf_vertex(o0) && m0.wf_vertex(o1) && m0.wf_vertex(o2));
    assert(m0.valid_edge(e0) && m0.valid_edge(e1) && m0.valid_edge(e2));
    assert(m0.wf_edge(e0) && m0.wf_edge(e1) && m0.wf_edge(e2));
    assert(m0.he_target(h0) == o1 && m0.he_target(h1) == o2 && m0.he_target(h2) == o0);
    // two sides on one edge would have to be mutual opposites, which their
    // origins rule out
    assert(e0 != e1) by {
        if e0 == e1 {
            assert(m0.ed(e0).half_edge_a == Some(h0) || m0.ed(e0).half_edge_b == Some(h0));
            assert(m0.ed(e0).half_edge_a == Some(h1) || m0.ed(e0).half_edge_b == Some(h1));
            assert(m0.he(h0).opposite == Some(h1) || m0.he(h1).opposite == Some(h0));
        }
    }
    assert(e1 != e2) by {
        if e1 == e2 {
            assert(m0.ed(e1).half_edge_a == Some(h1) || m0.ed(e1).half_edge_b == Some(h1));
            assert(m0.ed(e1).half_edge_a == Some(h2) || m0.ed(e1).half_edge_b == Some(h2));
            assert(m0.he(h1).opposite == Some(h2) || m0.he(h2).opposite == Some(h1));
        }
    }
    assert(e0 != e2) by {
        if e0 == e2 {
            assert(m0.ed(e0).half_edge_a == Some(h0) || m0.ed(e0).half_edge_b == Some(h0));
            assert(m0.ed(e0).half_edge_a == Some(h2) || m0.ed(e0).half_edge_b == Some(h2));
            assert(m0.he(h0).opposite == Some(h2) || m0.he(h2).opposite == Some(h0));
        }
    }
    if let Some(o) = m0.he(h0).opposite {
        assert(m0.valid_he(o));
        assert(m0.wf_half_edge(o));
    }
    if let Some(o) = m0.he(h1).opposite {
        assert(m0.valid_he(o));
        assert(m0.wf_half_edge(o));
    }
    if let Some(o) = m0.he(h2).opposite {
        assert(m0.valid_he(o));
        assert(m0.wf_half_edge(o));
    }
    lemma_mesh_sibling_sound(m0, o0);
    lemma_mesh_sibling_sound(m0, o1);
    lemma_mesh_sibling_sound(m0, o2);
}

/// After the detach pass the three corners' sibling lists are still intact
/// and still hold the half-edges about to be unlinked.
proof fn lemma_remove_detach_ladder<T>(m0: Mesh<T>, g1: Mesh<T>, t: usize)
    requires
        m0.wf(),
        m0.valid_triangle(t),
        Mesh::remove_detach_rel(m0, g1, t),
    ensures
        ({
            let h0 = m0.tr(t).half_edge;
            let h1 = m0.he(h0).next;
            let h2 = m0.he(h1).next;
            let o0 = m0.he(h0).origin;
            let o1 = m0.he(h1).origin;
            let o2 = m0.he(h2).origin;
            &&& vertex_chain_ok(g1, o0) && in_chain(g1.half_edges@, g1.vx(o0).half_edge, h0)
            &&& vertex_chain_ok(g1, o1) && in_chain(g1.half_edges@, g1.vx(o1).half_edge, h1)
            &&& vertex_chain_ok(g1, o2) && in_chain(g1.half_edges@, g1.vx(o2).half_edge, h2)
        }),
{
    let h0 = m0.tr(t).half_edge;
    let h1 = m0.he(h0).next;
    let h2 = m0.he(h1).next;
    let o0 = m0.he(h0).origin;
    let o1 = m0.he(h1).origin;
    let o2 = m0.he(h2).origin;
    lemma_remove_prep(m0, t);
    lemma_chain_ok_frame(m0, g1, o0, h0);
    lemma_chain_ok_frame(m0, g1, o1, h1);
    lemma_chain_ok_frame(m0, g1, o2, h2);
}

/// After the first unlink the remaining two corners' lists are untouched.
proof fn lemma_remove_unlink_ladder<T>(
    ma: Mesh<T>,
    mb: Mesh<T>,
    w: usize,
    hw: usize,
    v: usize,
    hv: usize,
)
    requires
        Mesh::unlink_rel(ma, mb, w, hw),
        vertex_chain_ok(ma, w),
        vertex_chain_ok(ma, v),
        v != w,
        in_chain(ma.half_edges@, ma.vx(v).half_edge, hv),
    ensures
        vertex_chain_ok(mb, v),
        in_chain(mb.half_edges@, mb.vx(v).half_edge, hv),
{
    lemma_unlink_effect_other(ma, mb, w, hw, v, hv);
}

/// Composes the four phases of a triangle removal — detach, three sibling
/// unlinks, tombstoning — into the removal's contract.
#[verifier::rlimit(100)]
proof fn lemma_remove_compose<T>(
    m0: Mesh<T>,
    g1: Mesh<T>,
    g2: Mesh<T>,
    g3: Mesh<T>,
    g4: Mesh<T>,
    m1: Mesh<T>,
    t: usize,
)
    requires
        m0.wf(),
        m0.valid_triangle(t),
        Mesh::remove_detach_rel(m0, g1, t),
        Mesh::unlink_rel(g1, g2, m0.he(m0.tr(t).half_edge).origin, m0.tr(t).half_edge),
        Mesh::unlink_rel(
            g2,
            g3,
            m0.he(m0.he(m0.tr(t).half_edge).next).origin,
            m0.he(m0.tr(t).half_edge).next,
        ),
        Mesh::unlink_rel(
            g3,
            g4,
            m0.he(m0.he(m0.he(m0.tr(t).half_edge).next).next).origin,
            m0.he(m0.he(m0.tr(t).half_edge).next).next,
        ),
        Mesh::remove_tombstone_rel(m0, g4, m1, t),
    ensures
        m1.wf(),
        Mesh::spec_removed_triangle(m0, m1, t),
{
    let h0 = m0.tr(t).half_edge;
    let h1 = m0.he(h0).next;
    let h2 = m0.he(h1).next;
    let o0 = m0.he(h0).origin;
    let o1 = m0.he(h1).origin;
    let o2 = m0.he(h2).origin;
    let e0 = m0.he(h0).edge;
    let e1 = m0.he(h1).edge;
    let e2 = m0.he(h2).edge;
    let opp0 = m0.he(h0).opposite;
    let opp1 = m0.he(h1).opposite;
    let opp2 = m0.he(h2).opposite;
    assert(m0.wf_triangle(t));
    assert(m0.valid_he(h0) && m0.valid_he(h1) && m0.valid_he(h2));
    assert(m0.wf_half_edge(h0) && m0.wf_half_edge(h1) && m0.wf_half_edge(h2));
    assert(m0.valid_vertex(o0) && m0.valid_vertex(o1) && m0.valid_vertex(o2));
    assert(m0.wf_vertex(o0) && m0.wf_vertex(o1) && m0.wf_vertex(o2));
    lemma_mesh_sibling_sound(m0, o0);
    lemma_mesh_sibling_sound(m0, o1);
    lemma_mesh_sibling_sound(m0, o2);
    if let Some(o) = opp0 {
        assert(m0.valid_he(o));
        assert(m0.wf_half_edge(o));
    }
    if let Some(o) = opp1 {
        assert(m0.valid_he(o));
        assert(m0.wf_half_edge(o));
    }
    if let Some(o) = opp2 {
        assert(m0.valid_he(o));
        assert(m0.wf_half_edge(o));
    }
    assert(vertex_chain_ok(m0, o0) && vertex_chain_ok(m0, o1) && vertex_chain_ok(m0, o2));
    assert(vertex_chain_ok(g1, o0) && in_chain(g1.half_edges@, g1.vx(o0).half_edge, h0)) by {
        lemma_chain_ok_frame(m0, g1, o0, h0);
    }
    assert(vertex_chain_ok(g1, o1) && in_chain(g1.half_edges@, g1.vx(o1).half_edge, h1)) by {
        lemma_chain_ok_frame(m0, g1, o1, h1);
    }
    assert(vertex_chain_ok(g1, o2) && in_chain(g1.half_edges@, g1.vx(o2).half_edge, h2)) by {
        lemma_chain_ok_frame(m0, g1, o2, h2);
    }
    assert(vertex_chain_ok(g2, o0)) by {
        lemma_unlink_effect_self(g1, g2, o0, h0);
    }
    assert(vertex_chain_ok(g2, o1) && in_chain(g2.half_edges@, g2.vx(o1).half_edge, h1)) by {
        lemma_unlink_effect_other(g1, g2, o0, h0, o1, h1);
    }
    assert(vertex_chain_ok(g2, o2) && in_chain(g2.half_edges@, g2.vx(o2).half_edge, h2)) by {
        lemma_unlink_effect_other(g1, g2, o0, h0, o2, h2);
    }
    assert(vertex_chain_ok(g3, o0)) by {
        lemma_unlink_effect_other(g2, g3, o1, h1, o0, h0);
    }
    assert(vertex_chain_ok(g3, o1)) by {
        lemma_unlink_effect_self(g2, g3, o1, h1);
    }
    assert(vertex_chain_ok(g3, o2) && in_chain(g3.half_edges@, g3.vx(o2).half_edge, h2)) by {
        lemma_unlink_effect_other(g2, g3, o1, h1, o2, h2);
    }
    assert(vertex_chain_ok(g4, o0)) by {
        lemma_unlink_effect_other(g3, g4, o2, h2, o0, h0);
    }
    assert(vertex_chain_ok(g4, o1)) by {
        lemma_unlink_effect_other(g3, g4, o2, h2, o1, h1);
    }
    assert(vertex_chain_ok(g4, o2)) by {
        lemma_unlink_effect_self(g3, g4, o2, h2);
    }
    // the last steps touch no sibling link and no list head
    assert forall|k: usize| k < g4.half_edges@.len() implies (#[trigger] m1.he(k)).sibling
        == g4.he(k).sibling && m1.he(k).origin == g4.he(k).origin by {}
    assert forall|k: usize| k < m0.half_edges@.len() implies (#[trigger] g4.he(k)).alive
        == m0.he(k).alive && g4.he(k).origin == m0.he(k).origin by {}
    assert(m1.vx(o0).half_edge == g4.vx(o0).half_edge);
    assert(m1.vx(o1).half_edge == g4.vx(o1).half_edge);
    assert(m1.vx(o2).half_edge == g4.vx(o2).half_edge);
    // surviving half-edges keep their record, with an `opposite`
    // that pointed into the removed cycle cleared
    assert forall|k: usize|
        k < m0.half_edges@.len() && k != h0 && k != h1 && k != h2 && (#[trigger] m0.he(
            k,
        )).alive implies {
        let before = m0.he(k);
        let after = m1.he(k);
        &&& after.alive == before.alive
        &&& after.origin == before.origin
        &&& after.next == before.next
        &&& after.prev == before.prev
        &&& after.edge == before.edge
        &&& after.triangle == before.triangle
        &&& after.opposite == (if before.opposite == Some(h0) || before.opposite == Some(
            h1,
        ) || before.opposite == Some(h2) {
            None::<usize>
        } else {
            before.opposite
        })
    } by {
        // exactly the partners of the removed three point at them
        if m0.he(k).opposite == Some(h0) || m0.he(k).opposite == Some(h1) || m0.he(
            k,
        ).opposite == Some(h2) {
            assert(m0.valid_he(k));
            assert(m0.wf_half_edge(k));
        }
        if opp0 == Some(k) || opp1 == Some(k) || opp2 == Some(k) {
            assert(m0.wf_half_edge(h0) && m0.wf_half_edge(h1) && m0.wf_half_edge(h2));
        }
    }
    // edge records: the removed slots are cleared, nothing else moves
    assert forall|e: usize|
        e < m0.edges@.len() && !(#[trigger] m0.ed(e)).alive implies m1.ed(e) == m0.ed(
        e,
    ) by {
        assert(m1.ed(e) == g4.ed(e) && g4.ed(e) == g3.ed(e) && g3.ed(e) == g2.ed(e) && g2.ed(e)
            == g1.ed(e));
        if e == e0 || e == e1 || e == e2 {
            assert(m0.valid_edge(e));
        }
    }
    assert forall|e: usize|
        e < m0.edges@.len() && (#[trigger] m0.ed(e)).alive implies {
        let before = m0.ed(e);
        let after = m1.ed(e);
        &&& after.v1 == before.v1
        &&& after.v2 == before.v2
        &&& after.half_edge_a == (if before.half_edge_a == Some(h0)
            || before.half_edge_a == Some(h1) || before.half_edge_a == Some(h2) {
            None::<usize>
        } else {
            before.half_edge_a
        })
        &&& after.half_edge_b == (if before.half_edge_b == Some(h0)
            || before.half_edge_b == Some(h1) || before.half_edge_b == Some(h2) {
            None::<usize>
        } else {
            before.half_edge_b
        })
        &&& after.alive == (after.half_edge_a is Some || after.half_edge_b is Some)
    } by {
        assert(m1.ed(e) == g4.ed(e) && g4.ed(e) == g3.ed(e) && g3.ed(e) == g2.ed(e) && g2.ed(e)
            == g1.ed(e));
        assert(m0.valid_edge(e));
        assert(m0.wf_edge(e));
        // a half-edge is listed only on its own edge
        match m0.ed(e).half_edge_a {
            Some(x) => {
                if x == h0 || x == h1 || x == h2 {
                    assert(m0.he(x).edge == e);
                }
            },
            None => {},
        }
        match m0.ed(e).half_edge_b {
            Some(x) => {
                if x == h0 || x == h1 || x == h2 {
                    assert(m0.he(x).edge == e);
                }
            },
            None => {},
        }
    }
    assert forall|v: usize|
        v < m0.vertices@.len() && v != o0 && v != o1 && v != o2 implies #[trigger] m1.vx(
        v,
    ) == m0.vx(v) by {
        assert(g1.vx(v) == m0.vx(v));
        assert(g2.vx(v) == g1.vx(v));
        assert(g3.vx(v) == g2.vx(v));
        assert(g4.vx(v) == g3.vx(v));
        assert(m1.vx(v) == g4.vx(v));
    }
    assert(Mesh::spec_removed_triangle(m0, m1, t));
    // each corner's list: exactly the old members, less the removed
    assert forall|x: usize| x != h0 implies (in_chain(
        m1.half_edges@,
        m1.vx(o0).half_edge,
        x,
    ) <==> in_chain(m0.half_edges@, m0.vx(o0).half_edge, x)) by {
        lemma_chain_ok_frame(m0, g1, o0, x);
        lemma_unlink_effect_other(g2, g3, o1, h1, o0, x);
        lemma_unlink_effect_other(g3, g4, o2, h2, o0, x);
        lemma_chain_same_links(g4, m1, o0, x);
    }
    assert(!in_chain(m1.half_edges@, m1.vx(o0).half_edge, h0)) by {
        lemma_unlink_effect_other(g2, g3, o1, h1, o0, h0);
        lemma_unlink_effect_other(g3, g4, o2, h2, o0, h0);
        lemma_chain_same_links(g4, m1, o0, h0);
    }
    assert forall|x: usize| x != h1 implies (in_chain(
        m1.half_edges@,
        m1.vx(o1).half_edge,
        x,
    ) <==> in_chain(m0.half_edges@, m0.vx(o1).half_edge, x)) by {
        lemma_chain_ok_frame(m0, g1, o1, x);
        lemma_unlink_effect_other(g1, g2, o0, h0, o1, x);
        lemma_unlink_effect_other(g3, g4, o2, h2, o1, x);
        lemma_chain_same_links(g4, m1, o1, x);
    }
    assert(!in_chain(m1.half_edges@, m1.vx(o1).half_edge, h1)) by {
        lemma_unlink_effect_other(g3, g4, o2, h2, o1, h1);
        lemma_chain_same_links(g4, m1, o1, h1);
    }
    assert forall|x: usize| x != h2 implies (in_chain(
        m1.half_edges@,
        m1.vx(o2).half_edge,
        x,
    ) <==> in_chain(m0.half_edges@, m0.vx(o2).half_edge, x)) by {
        lemma_chain_ok_frame(m0, g1, o2, x);
        lemma_unlink_effect_other(g1, g2, o0, h0, o2, x);
        lemma_unlink_effect_other(g2, g3, o1, h1, o2, x);
        lemma_chain_same_links(g4, m1, o2, x);
    }
    assert(!in_chain(m1.half_edges@, m1.vx(o2).half_edge, h2)) by {
        lemma_chain_same_links(g4, m1, o2, h2);
    }
    // every other vertex keeps its list as it was
    assert forall|u: usize, x: usize|
        u < m0.vertices@.len() && m0.vx(u).alive && u != o0 && u != o1 && u != o2 implies ((
    #[trigger] in_chain(m1.half_edges@, m1.vx(u).half_edge, x)) <==> in_chain(
        m0.half_edges@,
        m0.vx(u).half_edge,
        x,
    )) by {
        assert(m0.valid_vertex(u));
        assert(m0.wf_vertex(u));
        lemma_mesh_sibling_sound(m0, u);
        lemma_chain_ok_frame(m0, g1, u, x);
        lemma_unlink_effect_other(g1, g2, o0, h0, u, x);
        lemma_unlink_effect_other(g2, g3, o1, h1, u, x);
        lemma_unlink_effect_other(g3, g4, o2, h2, u, x);
        lemma_chain_same_links(g4, m1, u, x);
    }
    // surviving sibling links still step down to a live half-edge
    // of the same origin
    assert forall|k: usize|
        k < m1.half_edges@.len() && (#[trigger] m1.he(k)).alive implies (m1.he(k).sibling
        matches Some(s) ==> s < k && m1.he(s).origin == m1.he(k).origin && m0.he(
        s,
    ).alive) by {
        let u = m1.he(k).origin;
        assert(g4.he(k).alive && g4.he(k).origin == u);
        if u == o0 {
            assert(sibling_sound(g4.half_edges@, o0));
        } else if u == o1 {
            assert(sibling_sound(g4.half_edges@, o1));
        } else if u == o2 {
            assert(sibling_sound(g4.half_edges@, o2));
        } else {
            assert(m0.valid_he(k));
            assert(m0.valid_vertex(u));
            assert(m0.wf_vertex(u));
            lemma_mesh_sibling_sound(m0, u);
            assert(vertex_chain_ok(m0, u));
            lemma_chain_ok_frame(m0, g1, u, k);
            lemma_unlink_effect_other(g1, g2, o0, h0, u, k);
            lemma_unlink_effect_other(g2, g3, o1, h1, u, k);
            lemma_unlink_effect_other(g3, g4, o2, h2, u, k);
            assert(sibling_sound(g4.half_edges@, u));
        }
    }
    assert(Mesh::remove_chain_facts(m0, m1, t));
    lemma_remove_finish(m0, m1, t);
}

/// A committed triangle removal preserves the whole-mesh invariant.
#[verifier::rlimit(100)]
proof fn lemma_remove_finish<T>(m0: Mesh<T>, m1: Mesh<T>, t: usize)
    requires
        m0.wf(),
        m0.valid_triangle(t),
        Mesh::spec_removed_triangle(m0, m1, t),
        Mesh::remove_chain_facts(m0, m1, t),
    ensures
        m1.wf(),
{
    let h0 = m0.tr(t).half_edge;
    let h1 = m0.he(h0).next;
    let h2 = m0.he(h1).next;
    let o0 = m0.he(h0).origin;
    let o1 = m0.he(h1).origin;
    let o2 = m0.he(h2).origin;
    assert(m0.wf_triangle(t));
    assert(m0.valid_he(h0) && m0.valid_he(h1) && m0.valid_he(h2));
    assert(m0.wf_half_edge(h0) && m0.wf_half_edge(h1) && m0.wf_half_edge(h2));
    assert(m0.valid_vertex(o0) && m0.valid_vertex(o1) && m0.valid_vertex(o2));
    assert(m0.wf_vertex(o0) && m0.wf_vertex(o1) && m0.wf_vertex(o2));
    lemma_mesh_sibling_sound(m0, o0);
    lemma_mesh_sibling_sound(m0, o1);
    lemma_mesh_sibling_sound(m0, o2);
    // survivors are exactly the live half-edges outside the removed cycle
    assert forall|k: usize| m1.valid_he(k) implies m0.valid_he(k) && k != h0 && k != h1 && k
        != h2 by {}
    // a survivor's neighbours in its face loop also survive
    assert forall|k: usize| m1.valid_he(k) implies m0.he(k).next != h0 && m0.he(k).next != h1
        && m0.he(k).next != h2 && m0.he(k).prev != h0 && m0.he(k).prev != h1 && m0.he(k).prev
        != h2 by {
        assert(m0.valid_he(k));
        assert(m0.wf_half_edge(k));
        // the removed cycle's `prev` links close among themselves
        assert(m0.he(h0).prev == h2 && m0.he(h1).prev == h0 && m0.he(h2).prev == h1);
        if m0.he(k).next == h0 {
            assert(m0.he(h0).prev == k);
        }
        if m0.he(k).next == h1 {
            assert(m0.he(h1).prev == k);
        }
        if m0.he(k).next == h2 {
            assert(m0.he(h2).prev == k);
        }
        if m0.he(k).prev == h0 {
            assert(m0.he(h0).next == k);
        }
        if m0.he(k).prev == h1 {
            assert(m0.he(h1).next == k);
        }
        if m0.he(k).prev == h2 {
            assert(m0.he(h2).next == k);
        }
    }
    // targets of survivors are untouched
    assert forall|k: usize| m1.valid_he(k) implies #[trigger] m1.he_target(k) == m0.he_target(
        k,
    ) by {
        assert(m0.wf_half_edge(k));
    }
    // membership of each survivor in its origin's list
    assert forall|k: usize| m1.valid_he(k) implies in_chain(
        m1.half_edges@,
        m1.vx(m1.he(k).origin).half_edge,
        k,
    ) by {
        assert(m0.valid_he(k));
        assert(m0.wf_half_edge(k));
        let u = m0.he(k).origin;
        assert(in_chain(m0.half_edges@, m0.vx(u).half_edge, k));
        if u != o0 && u != o1 && u != o2 {
            assert(m0.valid_vertex(u));
        }
    }
    // per-half-edge consistency
    assert forall|k: usize| m1.valid_he(k) implies m1.wf_half_edge(k) by {
        assert(m0.valid_he(k));
        assert(m0.wf_half_edge(k));
        let u = m0.he(k).origin;
        // the origin vertex is still live: the survivor sits on its list
        assert(in_chain(m1.half_edges@, m1.vx(u).half_edge, k));
        if u != o0 && u != o1 && u != o2 {
            assert(m0.valid_vertex(u));
            assert(m1.vx(u) == m0.vx(u));
        }
        // the sibling link, if any, steps to another survivor of the list
        match m1.he(k).sibling {
            Some(s) => {
                assert(m1.he(k).alive);
                assert(s < k && m1.he(s).origin == m1.he(k).origin && m0.he(s).alive);
                assert(in_chain(m1.half_edges@, Some(s), s));
                assert(in_chain(m1.half_edges@, Some(k), s));
                lemma_chain_trans(m1.half_edges@, m1.vx(u).half_edge, k, s);
                // `s` is on the same list, which no longer holds a removed
                // half-edge of this origin, and never held the other two
                if u == o0 || u == o1 || u == o2 {
                    if s == h0 || s == h1 || s == h2 {
                        assert(in_chain(m0.half_edges@, m0.vx(u).half_edge, s));
                        lemma_mesh_sibling_sound(m0, u);
                        lemma_chain_sound(m0.half_edges@, m0.vx(u).half_edge, u, s);
                    }
                } else {
                    assert(m0.valid_vertex(u));
                    assert(m0.wf_vertex(u));
                    lemma_mesh_sibling_sound(m0, u);
                    assert(in_chain(m0.half_edges@, m0.vx(u).half_edge, s));
                    lemma_chain_sound(m0.half_edges@, m0.vx(u).half_edge, u, s);
                }
            },
            None => {},
        }
        // opposite, edge and triangle
        match m1.he(k).opposite {
            Some(o) => {
                assert(m0.he(k).opposite == Some(o));
                assert(m0.valid_he(o));
                assert(m0.wf_half_edge(o));
                assert(m0.he(o).opposite == Some(k));
            },
            None => {},
        }
        let e = m0.he(k).edge;
        assert(m0.valid_edge(e));
        assert(m0.wf_edge(e));
        let tri = m0.he(k).triangle;
        assert(m0.valid_triangle(tri));
        assert(m0.wf_triangle(tri));
        assert(tri != t);
        assert(m1.tr(tri) == m0.tr(tri));
    }
    // per-vertex consistency
    assert forall|v: usize| m1.valid_vertex(v) implies m1.wf_vertex(v) by {
        if v != o0 && v != o1 && v != o2 {
            assert(m0.valid_vertex(v));
            assert(m0.wf_vertex(v));
            match m0.vx(v).half_edge {
                Some(hd) => {
                    assert(m0.he(hd).alive && m0.he(hd).origin == v);
                    assert(hd != h0 && hd != h1 && hd != h2);
                    assert(m1.he(hd).alive && m1.he(hd).origin == v);
                },
                None => {},
            }
        } else {
            match m1.vx(v).half_edge {
                Some(hd) => {
                    assert(in_chain(m1.half_edges@, m1.vx(v).half_edge, hd));
                    if v == o0 {
                        assert(hd != h0);
                        assert(in_chain(m0.half_edges@, m0.vx(o0).half_edge, hd));
                        lemma_mesh_sibling_sound(m0, o0);
                        lemma_chain_sound(m0.half_edges@, m0.vx(o0).half_edge, o0, hd);
                        assert(m0.he(hd).alive && m0.he(hd).origin == o0);
                        assert(hd != h1 && hd != h2);
                        assert(m1.he(hd).alive && m1.he(hd).origin == v);
                    } else if v == o1 {
                        assert(hd != h1);
                        assert(in_chain(m0.half_edges@, m0.vx(o1).half_edge, hd));
                        lemma_mesh_sibling_sound(m0, o1);
                        lemma_chain_sound(m0.half_edges@, m0.vx(o1).half_edge, o1, hd);
                        assert(m0.he(hd).alive && m0.he(hd).origin == o1);
                        assert(hd != h0 && hd != h2);
                        assert(m1.he(hd).alive && m1.he(hd).origin == v);
                    } else {
                        assert(hd != h2);
                        assert(in_chain(m0.half_edges@, m0.vx(o2).half_edge, hd));
                        lemma_mesh_sibling_sound(m0, o2);
                        lemma_chain_sound(m0.half_edges@, m0.vx(o2).half_edge, o2, hd);
                        assert(m0.he(hd).alive && m0.he(hd).origin == o2);
                        assert(hd != h0 && hd != h1);
                        assert(m1.he(hd).alive && m1.he(hd).origin == v);
                    }
                },
                None => {},
            }
        }
    }
    // per-edge consistency
    assert forall|e: usize| m1.valid_edge(e) implies m1.wf_edge(e) by {
        assert(m0.valid_edge(e));
        assert(m0.wf_edge(e));
        match m0.ed(e).half_edge_a {
            Some(x) => {
                assert(m0.valid_he(x));
                assert(m0.wf_half_edge(x));
            },
            None => {},
        }
        match m0.ed(e).half_edge_b {
            Some(x) => {
                assert(m0.valid_he(x));
                assert(m0.wf_half_edge(x));
            },
            None => {},
        }
    }
    // per-triangle consistency
    assert forall|u: usize| m1.valid_triangle(u) implies m1.wf_triangle(u) by {
        assert(u != t);
        assert(m1.tr(u) == m0.tr(u));
        assert(m0.valid_triangle(u));
        assert(m0.wf_triangle(u));
        let k0 = m0.tr(u).half_edge;
        assert(m0.valid_he(k0));
        assert(m0.wf_half_edge(k0));
        let k1 = m0.he(k0).next;
        assert(m0.valid_he(k1));
        assert(m0.wf_half_edge(k1));
        let k2 = m0.he(k1).next;
        assert(m0.valid_he(k2));
        assert(m0.wf_half_edge(k2));
        assert(k0 != h0 && k0 != h1 && k0 != h2);
        assert(k1 != h0 && k1 != h1 && k1 != h2);
        assert(k2 != h0 && k2 != h1 && k2 != h2);
    }
    // at most one live half-edge per directed pair
    assert forall|k1: usize, k2: usize|
        #[trigger] m1.valid_he(k1) && #[trigger] m1.valid_he(k2) && k1 != k2 implies !(m1.he(
        k1,
    ).origin == m1.he(k2).origin && m1.he_target(k1) == m1.he_target(k2)) by {
        assert(m0.valid_he(k1) && m0.valid_he(k2));
    }
    // reverse traversals stay linked
    assert forall|k1: usize, k2: usize|
        #[trigger] m1.valid_he(k1) && #[trigger] m1.valid_he(k2) && m1.he(k1).origin
            == m1.he_target(k2) && m1.he_target(k1) == m1.he(k2).origin implies m1.he(k1).opposite
        == Some(k2) && m1.he(k2).opposite == Some(k1) by {
        assert(m0.valid_he(k1) && m0.valid_he(k2));
        assert(m0.he(k1).opposite == Some(k2) && m0.he(k2).opposite == Some(k1));
    }
}

/// Closed-cycle law: the three half-edges of any live triangle of a
/// well-formed mesh, taken in creation order from the triangle's entry
/// half-edge, are linked `h0 -> h1 -> h2 -> h0` by `next` and
/// `h0 <- h1 <- h2 <- h0` by `prev`.
pub proof fn lemma_triangle_cycle<T>(m: Mesh<T>, t: usize)
    requires
        m.wf(),
        m.valid_triangle(t),
    ensures
        ({
            let h0 = m.tr(t).half_edge;
            let h1 = m.he(h0).next;
            let h2 = m.he(h1).next;
            &&& m.he(h2).next == h0
            &&& m.he(h1).prev == h0
            &&& m.he(h2).prev == h1
            &&& m.he(h0).prev == h2
        }),
{
    let h0 = m.tr(t).half_edge;
    let h1 = m.he(h0).next;
    let h2 = m.he(h1).next;
    assert(m.wf_triangle(t));
    assert(m.valid_he(h0) && m.valid_he(h1) && m.valid_he(h2));
    assert(m.wf_half_edge(h0) && m.wf_half_edge(h1) && m.wf_half_edge(h2));
}

/// Opposite-symmetry law: whenever a live half-edge `a` of a well-formed
/// mesh has `opposite == Some(b)`, then `b` is live, `b.opposite == Some(a)`,
/// and the two run between the same two vertices in opposite directions.
pub proof fn lemma_opposite_symmetry<T>(m: Mesh<T>, a: usize, b: usize)
    requires
        m.wf(),
        m.valid_he(a),
        m.he(a).opposite == Some(b),
    ensures
        m.valid_he(b),
        m.he(b).opposite == Some(a),
        m.he(b).origin == m.he_target(a),
        m.he_target(b) == m.he(a).origin,
{
    assert(m.wf_half_edge(a));
}


/// Removal restores the vertex and edge accounting. After removing triangle
/// `t` from a well-formed mesh: a corner vertex referenced by no other live
/// half-edge is gone; and a side edge that was shared with a second,
/// surviving half-edge stays, holding exactly that half-edge, whose
/// `opposite` back-reference has been cleared.
pub proof fn lemma_removal_restores_accounting<T>(m0: Mesh<T>, m1: Mesh<T>, t: usize, v: usize)
    requires
        m0.wf(),
        m0.valid_triangle(t),
        m1.wf(),
        Mesh::spec_removed_triangle(m0, m1, t),
    ensures
        ({
            let h0 = m0.tr(t).half_edge;
            let h1 = m0.he(h0).next;
            let h2 = m0.he(h1).next;
            // vertex accounting
            &&& ((v == m0.he(h0).origin || v == m0.he(h1).origin || v == m0.he(h2).origin)
                && (forall|k: usize|
                m0.valid_he(k) && k != h0 && k != h1 && k != h2 ==> (#[trigger] m0.he(k)).origin
                    != v) ==> !m1.vx(v).alive)
            // edge accounting for the first side
            &&& (m0.he(h0).opposite matches Some(p) ==> {
                let e = m0.he(h0).edge;
                &&& m1.ed(e).alive
                &&& (m1.ed(e).half_edge_a == Some(p) || m1.ed(e).half_edge_b == Some(p))
                &&& m1.ed(e).half_edge_a != Some(h0) && m1.ed(e).half_edge_b != Some(h0)
                &&& m1.he(p).opposite is None
            })
        }),
{
    let h0 = m0.tr(t).half_edge;
    let h1 = m0.he(h0).next;
    let h2 = m0.he(h1).next;
    let o0 = m0.he(h0).origin;
    assert(m0.wf_triangle(t));
    assert(m0.valid_he(h0) && m0.valid_he(h1) && m0.valid_he(h2));
    assert(m0.wf_half_edge(h0) && m0.wf_half_edge(h1) && m0.wf_half_edge(h2));
    // vertex part: were the corner still live, its sibling list head would
    // be a surviving live half-edge leaving it
    if (v == m0.he(h0).origin || v == m0.he(h1).origin || v == m0.he(h2).origin) && (forall|
        k: usize,
    |
        m0.valid_he(k) && k != h0 && k != h1 && k != h2 ==> (#[trigger] m0.he(k)).origin != v) {
        if m1.vx(v).alive {
            assert(m1.valid_vertex(v));
            assert(m1.wf_vertex(v));
            let hd = m1.vx(v).half_edge->Some_0;
            assert(m1.valid_he(hd) && m1.he(hd).origin == v);
            assert(hd != h0 && hd != h1 && hd != h2);
            assert(m0.valid_he(hd));
            assert(m0.he(hd).origin == v);
        }
    }
    // edge part
    if let Some(p) = m0.he(h0).opposite {
        let e = m0.he(h0).edge;
        assert(m0.valid_he(p));
        assert(m0.wf_half_edge(p));
        assert(m0.valid_edge(e));
        assert(m0.wf_edge(e));
        assert(p != h0 && p != h1 && p != h2);
        assert(m0.ed(e).alive);
        assert(m1.he(p).alive);
    }
}

} // verus!
