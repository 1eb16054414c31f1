use vstd::prelude::*;

verus! {

/// A vertex attribute record: homogeneous position, normal and texture
/// coordinate. The scalar type is generic; the topology code never inspects
/// coordinates, and vertex equality is by identity, never by position.
#[derive(Debug, Clone, Copy, PartialEq)]
pub struct Vertex<T> {
    pub position: [T; 4],
    pub normal: [T; 3],
    pub texture: [T; 3],
}

impl<T> Vertex<T> {
    pub fn new(position: [T; 4], normal: [T; 3], texture: [T; 3]) -> (r: Self)
        ensures
            r.position == position,
            r.normal == normal,
            r.texture == texture,
    {
        Vertex { position, normal, texture }
    }
}

} // verus!
