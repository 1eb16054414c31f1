//! A standalone face: a closed ring of half-edges over an arena, plus the
//! face-loop iterator that walks a half-edge cycle once, yielding origin
//! vertices in order.
//!
//! Half-edges live in a `Vec` arena and refer to each other by index, so the
//! cyclic `next`/`prev` structure needs no shared mutable ownership.

use vstd::prelude::*;

use crate::polygon::Polygon;
use crate::vertex::Vertex;

verus! {

/// One directed traversal step: an origin vertex and indices of the next and
/// previous half-edges of the same face loop, and of the opposite half-edge
/// traversing the same edge in the other direction.
#[derive(Debug, Clone, Copy)]
pub struct HalfEdge<T> {
    pub origin: Vertex<T>,
    pub next: Option<usize>,
    pub prev: Option<usize>,
    pub opposite: Option<usize>,
}

impl<T> HalfEdge<T> {
    /// A fresh, fully disconnected half-edge.
    pub fn new(origin: Vertex<T>) -> (r: Self)
        ensures
            r.origin == origin,
            r.next is None,
            r.prev is None,
            r.opposite is None,
    {
        HalfEdge { origin, next: None, prev: None, opposite: None }
    }
}

/// Every `next` link of the arena stays inside the arena.
pub open spec fn links_in_bounds<T>(edges: Seq<HalfEdge<T>>) -> bool {
    forall|i: int|
        0 <= i < edges.len() ==> ((#[trigger] edges[i]).next matches Some(j) ==> j < edges.len())
}

/// Successor position on a ring of `n` slots.
pub open spec fn ring_next(i: int, n: int) -> int {
    if i + 1 < n {
        i + 1
    } else {
        0
    }
}

/// Predecessor position on a ring of `n` slots.
pub open spec fn ring_prev(i: int, n: int) -> int {
    if i == 0 {
        n - 1
    } else {
        i - 1
    }
}

#[derive(Debug, Clone, Copy, PartialEq)]
pub enum FromVertSliceError {
    /// A face needs at least 3 vertices.
    NotEnoughVertices,
}

/// A polygonal face: an arena of half-edges wired into one closed ring
/// `0 -> 1 -> ... -> len-1 -> 0`, entered at `origin`.
pub struct HalfEdgeFace<T> {
    pub edges: Vec<HalfEdge<T>>,
    pub origin: usize,
}

impl<T> HalfEdgeFace<T> {
    /// The face is a single closed ring in arena order.
    pub open spec fn wf(self) -> bool {
        &&& 3 <= self.edges@.len() <= usize::MAX
        &&& self.origin < self.edges@.len()
        &&& forall|i: int|
            0 <= i < self.edges@.len() ==> (#[trigger] self.edges@[i]).next == Some(
                ring_next(i, self.edges@.len() as int) as usize,
            )
        &&& forall|i: int|
            0 <= i < self.edges@.len() ==> (#[trigger] self.edges@[i]).prev == Some(
                ring_prev(i, self.edges@.len() as int) as usize,
            )
    }

    /// Builds a face from at least 3 vertices: one half-edge per vertex, in
    /// input order, wired into a closed `next`/`prev` ring.
    pub fn try_from_vertices(vertices: Vec<Vertex<T>>) -> (r: Result<Self, FromVertSliceError>) where
        T: Copy,

        ensures
            match r {
                Ok(face) => {
                    &&& vertices@.len() >= 3
                    &&& face.wf()
                    &&& face.origin == 0
                    &&& face.edges@.len() == vertices@.len()
                    &&& forall|i: int|
                        0 <= i < vertices@.len() ==> (#[trigger] face.edges@[i]).origin
                            == vertices@[i] && face.edges@[i].opposite is None
                },
                Err(e) => vertices@.len() < 3 && e == FromVertSliceError::NotEnoughVertices,
            },
    {
        let n = vertices.len();
        if n < 3 {
            return Err(FromVertSliceError::NotEnoughVertices);
        }
        let mut edges: Vec<HalfEdge<T>> = Vec::new();
        let mut i: usize = 0;
        while i < n
            invariant
                3 <= n == vertices@.len(),
                i <= n,
                edges@.len() == i,
                forall|k: int|
                    0 <= k < i ==> {
                        &&& (#[trigger] edges@[k]).origin == vertices@[k]
                        &&& edges@[k].next == Some(ring_next(k, n as int) as usize)
                        &&& edges@[k].prev == Some(ring_prev(k, n as int) as usize)
                        &&& edges@[k].opposite is None
                    },
            decreases n - i,
        {
            let next_i: usize = if i + 1 < n {
                i + 1
            } else {
                0
            };
            let prev_i: usize = if i == 0 {
                n - 1
            } else {
                i - 1
            };
            edges.push(
                HalfEdge {
                    origin: vertices[i],
                    next: Some(next_i),
                    prev: Some(prev_i),
                    opposite: None,
                },
            );
            i = i + 1;
        }
        Ok(HalfEdgeFace { edges, origin: 0 })
    }

    /// Builds the face of a polygon: one half-edge per corner, in the
    /// polygon's order. A polygon always has at least 3 corners, so this
    /// cannot fail.
    pub fn from_polygon<const N: usize>(polygon: Polygon<T, N>) -> (r: Self) where T: Copy
        requires
            N >= 3,
        ensures
            r.wf(),
            r.origin == 0,
            r.edges@.len() == N,
            forall|i: int|
                0 <= i < N ==> (#[trigger] r.edges@[i]).origin == polygon.vertices@[i]
                    && r.edges@[i].opposite is None,
    {
        let mut corners: Vec<Vertex<T>> = Vec::new();
        let mut i: usize = 0;
        while i < N
            invariant
                i <= N,
                corners@.len() == i,
                forall|k: int| 0 <= k < i ==> corners@[k] == polygon.vertices@[k],
            decreases N - i,
        {
            corners.push(polygon.vertices[i]);
            i = i + 1;
        }
        match Self::try_from_vertices(corners) {
            Ok(face) => face,
            Err(_) => {
                // a polygon's corner count is at least 3, so this arm is
                // unreachable
                HalfEdgeFace { edges: Vec::new(), origin: 0 }
            },
        }
    }

    /// A fresh iterator over this face's loop, starting at its entry point.
    pub fn iter(&self) -> (r: HalfEdgeFaceIterator)
        ensures
            r == iter_new(self.origin),
    {
        HalfEdgeFaceIterator::new(self.origin)
    }
}

/// Face-loop iterator state: where the walk began, where it stands, and
/// whether it has yielded anything yet. The `started` flag distinguishes
/// "have not moved yet" from "looped back to the start".
#[derive(Debug, Clone, Copy)]
pub struct HalfEdgeFaceIterator {
    pub start: usize,
    pub current: Option<usize>,
    pub started: bool,
}

/// State of a freshly constructed iterator.
pub open spec fn iter_new(start: usize) -> HalfEdgeFaceIterator {
    HalfEdgeFaceIterator { start, current: Some(start), started: false }
}

/// The iterator state may only point inside the arena.
pub open spec fn iter_valid<T>(it: HalfEdgeFaceIterator, edges: Seq<HalfEdge<T>>) -> bool {
    &&& it.start < edges.len()
    &&& (it.current matches Some(c) ==> c < edges.len())
}

/// Whether the walk is complete: it has yielded at least one vertex and has
/// come back to its starting half-edge, or it has run off an open end.
pub open spec fn iter_finished(it: HalfEdgeFaceIterator) -> bool {
    (it.started && it.current == Some(it.start)) || (it.started && it.current is None)
}

/// The state after one call to `next`.
pub open spec fn iter_step<T>(
    it: HalfEdgeFaceIterator,
    edges: Seq<HalfEdge<T>>,
) -> HalfEdgeFaceIterator {
    if it.started && it.current == Some(it.start) {
        it
    } else {
        match it.current {
            None => HalfEdgeFaceIterator { start: it.start, current: None, started: true },
            Some(c) => HalfEdgeFaceIterator {
                start: it.start,
                current: edges[c as int].next,
                started: true,
            },
        }
    }
}

/// What one call to `next` yields.
pub open spec fn iter_out<T>(it: HalfEdgeFaceIterator, edges: Seq<HalfEdge<T>>) -> Option<
    Vertex<T>,
> {
    if it.started && it.current == Some(it.start) {
        None
    } else {
        match it.current {
            None => None,
            Some(c) => Some(edges[c as int].origin),
        }
    }
}

/// The iterator state after `k` calls to `next`.
pub open spec fn iter_after<T>(
    it: HalfEdgeFaceIterator,
    edges: Seq<HalfEdge<T>>,
    k: nat,
) -> HalfEdgeFaceIterator
    decreases k,
{
    if k == 0 {
        it
    } else {
        iter_step(iter_after(it, edges, (k - 1) as nat), edges)
    }
}

/// What the `k`-th call to `next` (counting from 0) yields.
pub open spec fn iter_nth_out<T>(
    it: HalfEdgeFaceIterator,
    edges: Seq<HalfEdge<T>>,
    k: nat,
) -> Option<Vertex<T>> {
    iter_out(iter_after(it, edges, k), edges)
}

impl HalfEdgeFaceIterator {
    /// A fresh iterator that will begin its walk at `start`.
    pub fn new(start: usize) -> (r: Self)
        ensures
            r == iter_new(start),
    {
        HalfEdgeFaceIterator { start, current: Some(start), started: false }
    }

    /// One step of the face loop walk: yield the current half-edge's origin
    /// and advance along `next`; yield nothing once the walk has come back to
    /// its start or run off an open end.
    pub fn next<T: Copy>(&mut self, edges: &Vec<HalfEdge<T>>) -> (r: Option<Vertex<T>>)
        requires
            iter_valid(*old(self), edges@),
            links_in_bounds(edges@),
        ensures
            *final(self) == iter_step(*old(self), edges@),
            r == iter_out(*old(self), edges@),
            iter_valid(*final(self), edges@),
    {
        if self.started {
            if let Some(c) = self.current {
                if c == self.start {
                    return None;
                }
            }
        }
        self.started = true;
        let c = match self.current {
            Some(c) => c,
            None => {
                return None;
            },
        };
        let vert = edges[c].origin;
        self.current = edges[c].next;
        Some(vert)
    }
}

/// After its first step, a walk that began on a half-edge with no `next`
/// link stays finished forever.
proof fn lemma_iter_stuck<T>(it: HalfEdgeFaceIterator, edges: Seq<HalfEdge<T>>, k: nat)
    requires
        it.started,
        it.current is None,
        k >= 1,
    ensures
        iter_after(it, edges, k) == it,
    decreases k,
{
    assert(iter_step(it, edges) == it);
    if k > 1 {
        lemma_iter_stuck(it, edges, (k - 1) as nat);
        assert(iter_after(it, edges, k) == iter_step(iter_after(it, edges, (k - 1) as nat), edges));
    } else {
        assert(iter_after(it, edges, 0nat) == it);
        assert(iter_after(it, edges, 1nat) == iter_step(iter_after(it, edges, 0nat), edges));
    }
}

/// Face-loop termination on a disconnected half-edge: a walk started on a
/// half-edge with no links yields exactly its origin vertex, and nothing on
/// any later call.
pub proof fn lemma_face_loop_single<T>(edges: Seq<HalfEdge<T>>, start: usize)
    requires
        start < edges.len(),
        edges[start as int].next is None,
    ensures
        iter_nth_out(iter_new(start), edges, 0) == Some(edges[start as int].origin),
        forall|k: nat| k >= 1 ==> #[trigger] iter_nth_out(iter_new(start), edges, k) is None,
{
    let it0 = iter_new(start);
    let it1 = iter_step(it0, edges);
    assert(it1 == HalfEdgeFaceIterator { start, current: None, started: true });
    assert forall|k: nat| k >= 1 implies #[trigger] iter_nth_out(iter_new(start), edges, k)
        is None by {
        if k == 1 {
            assert(iter_after(it0, edges, 1) == it1);
        } else {
            assert(iter_after(it0, edges, k) == iter_after(it1, edges, (k - 1) as nat)) by {
                lemma_iter_prefix(it0, it1, edges, k);
            }
            lemma_iter_stuck(it1, edges, (k - 1) as nat);
        }
    }
}

/// Walking `k` steps is one step and then `k - 1` more.
proof fn lemma_iter_prefix<T>(
    it0: HalfEdgeFaceIterator,
    it1: HalfEdgeFaceIterator,
    edges: Seq<HalfEdge<T>>,
    k: nat,
)
    requires
        k >= 1,
        it1 == iter_step(it0, edges),
    ensures
        iter_after(it0, edges, k) == iter_after(it1, edges, (k - 1) as nat),
    decreases k,
{
    if k > 1 {
        lemma_iter_prefix(it0, it1, edges, (k - 1) as nat);
        assert(iter_after(it0, edges, k) == iter_step(
            iter_after(it0, edges, (k - 1) as nat),
            edges,
        ));
        assert(iter_after(it1, edges, (k - 1) as nat) == iter_step(
            iter_after(it1, edges, (k - 2) as nat),
            edges,
        ));
    } else {
        assert(iter_after(it0, edges, 1nat) == iter_step(iter_after(it0, edges, 0nat), edges));
        assert(iter_after(it0, edges, 0nat) == it0);
        assert(iter_after(it1, edges, 0nat) == it1);
    }
}

/// On a well-formed face of `n` half-edges, after `k <= n` steps from a
/// fresh iterator the walk stands `k` places past its start (mod `n`).
proof fn lemma_iter_after_on_ring<T>(face: HalfEdgeFace<T>, k: nat)
    requires
        face.wf(),
        k <= face.edges@.len(),
    ensures
        iter_after(iter_new(face.origin), face.edges@, k) == (HalfEdgeFaceIterator {
            start: face.origin,
            current: Some((((face.origin + k) as int % face.edges@.len() as int)) as usize),
            started: k > 0,
        }),
    decreases k,
{
    let n = face.edges@.len() as int;
    let start = face.origin as int;
    let it0 = iter_new(face.origin);
    if k == 0 {
        assert(start % n == start) by (nonlinear_arith)
            requires 0 <= start < n;
        assert(iter_after(it0, face.edges@, 0) == it0);
    } else {
        lemma_iter_after_on_ring(face, (k - 1) as nat);
        let prev = (start + k - 1) % n;
        let pos = (start + k) % n;
        assert(0 <= (start + k - 1) % n < n && 0 <= (start + k) % n < n) by (nonlinear_arith)
            requires n > 0;
        // the walk has not yet come back to its start
        if k - 1 > 0 && prev == start {
            lemma_mod_between(start, k - 1, n);
        }
        lemma_mod_step(start, k as int, n);
        let it_prev = iter_after(it0, face.edges@, (k - 1) as nat);
        assert(it_prev.current == Some(prev as usize));
        assert(face.edges@[prev].next == Some(ring_next(prev, n) as usize));
        assert(iter_after(it0, face.edges@, k) == iter_step(it_prev, face.edges@));
        assert(iter_step(it_prev, face.edges@).current == face.edges@[prev].next);
        assert(ring_next(prev, n) == pos);
    }
}

/// For `0 < k < n`, `(s + k) % n` differs from `s` when `0 <= s < n`.
proof fn lemma_mod_between(s: int, k: int, n: int)
    requires
        0 <= s < n,
        0 < k < n,
    ensures
        (s + k) % n != s,
{
    assert((s + k) % n == if s + k < n {
        s + k
    } else {
        s + k - n
    }) by (nonlinear_arith)
        requires 0 <= s < n && 0 < k < n;
}

/// Stepping the ring successor: `(s + k) % n` follows `(s + k - 1) % n`.
proof fn lemma_mod_step(s: int, k: int, n: int)
    requires
        0 <= s < n,
        1 <= k <= n,
    ensures
        ring_next((s + k - 1) % n, n) == (s + k) % n,
{
    assert(ring_next((s + k - 1) % n, n) == (s + k) % n) by (nonlinear_arith)
        requires 0 <= s < n && 1 <= k <= n;
}

/// Traversal order matches construction order: iterating a well-formed face
/// from its entry point yields each half-edge origin in arena order
/// (a rotation beginning at the entry point), then stops.
pub proof fn lemma_face_loop_order<T>(face: HalfEdgeFace<T>, k: nat)
    requires
        face.wf(),
        k <= face.edges@.len(),
    ensures
        k < face.edges@.len() ==> iter_nth_out(iter_new(face.origin), face.edges@, k) == Some(
            face.edges@[(face.origin + k) as int % face.edges@.len() as int].origin,
        ),
        k == face.edges@.len() ==> iter_nth_out(iter_new(face.origin), face.edges@, k) is None,
{
    let n = face.edges@.len() as int;
    let start = face.origin as int;
    lemma_iter_after_on_ring(face, k);
    assert(0 <= (start + k) % n < n) by (nonlinear_arith)
        requires n > 0;
    if k < face.edges@.len() {
        if k > 0 && (start + k) % n == start {
            lemma_mod_between(start, k as int, n);
        }
    } else {
        assert((start + k) % n == start) by (nonlinear_arith)
            requires 0 <= start < n && k == n;
    }
}

} // verus!
