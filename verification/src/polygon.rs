//! A flat polygon of `N` vertices, the lightweight sibling of the mesh:
//! only its triangulated output ever feeds the topology engine.

use vstd::prelude::*;

use crate::vertex::Vertex;

verus! {

#[derive(Debug, Clone, Copy, PartialEq, Eq)]
pub enum PolygonCreationError {
    NotEnoughVertices,
}

/// A polygon given by its corner vertices in order.
#[derive(Debug, Clone)]
pub struct Polygon<T, const N: usize> {
    pub vertices: [Vertex<T>; N],
}

impl<T, const N: usize> Polygon<T, N> {
    /// A polygon needs at least 3 corners; fewer are rejected.
    pub fn try_from_vertices(vertices: [Vertex<T>; N]) -> (r: Result<Self, PolygonCreationError>)
        ensures
            match r {
                Ok(p) => N >= 3 && p.vertices == vertices,
                Err(e) => N < 3 && e == PolygonCreationError::NotEnoughVertices,
            },
    {
        if N < 3 {
            Err(PolygonCreationError::NotEnoughVertices)
        } else {
            Ok(Polygon { vertices })
        }
    }

    /// The corner vertices, in order.
    pub fn points(&self) -> (r: &[Vertex<T>; N])
        ensures
            r == &self.vertices,
    {
        &self.vertices
    }

    /// The polygon's edges: each corner paired with its successor around
    /// the ring.
    pub fn edges(&self) -> (r: Vec<(Vertex<T>, Vertex<T>)>) where T: Copy
        ensures
            r@.len() == N,
            forall|i: int|
                0 <= i < N ==> #[trigger] r@[i] == (
                self.vertices@[i],
                self.vertices@[if i + 1 < N {
                    i + 1
                } else {
                    0
                }],
            ),
    {
        let mut r: Vec<(Vertex<T>, Vertex<T>)> = Vec::new();
        let mut i: usize = 0;
        while i < N
            invariant
                i <= N,
                r@.len() == i,
                forall|k: int|
                    0 <= k < i ==> #[trigger] r@[k] == (
                    self.vertices@[k],
                    self.vertices@[if k + 1 < N {
                        k + 1
                    } else {
                        0
                    }],
                ),
            decreases N - i,
        {
            let next_i: usize = if i + 1 < N {
                i + 1
            } else {
                0
            };
            r.push((self.vertices[i], self.vertices[next_i]));
            i = i + 1;
        }
        r
    }
}

} // verus!
