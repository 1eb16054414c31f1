use half_edge_mesh::half_edge::{HalfEdge, HalfEdgeFace, HalfEdgeFaceIterator};
use half_edge_mesh::polygon::Polygon;
use half_edge_mesh::topology::Mesh;
use half_edge_mesh::vertex::Vertex;

fn vert(x: f32, y: f32, z: f32) -> Vertex<f32> {
    Vertex::new([x, y, z, 1.0], [0.0; 3], [0.0; 3])
}

fn create_test_face() -> HalfEdgeFace<f32> {
    let v1 = vert(0.0, 0.0, 0.0);
    let v2 = vert(1.0, 0.0, 0.0);
    let v3 = vert(0.0, 1.0, 0.0);

    HalfEdgeFace::try_from_vertices(vec![v1, v2, v3]).unwrap()
}

#[test]
fn test_face_creation() {
    let face = create_test_face();

    let e1 = face.origin;
    let e2 = face.edges[e1].next.unwrap();
    let e3 = face.edges[e2].next.unwrap();

    // the cycle is correctly formed
    assert_eq!(face.edges[e3].next.unwrap(), e1);

    // the previous links are correctly formed
    assert_eq!(face.edges[e1].prev.unwrap(), e3);
    assert_eq!(face.edges[e2].prev.unwrap(), e1);
    assert_eq!(face.edges[e3].prev.unwrap(), e2);
}

#[test]
fn test_vertex_iteration() {
    let face = create_test_face();
    let mut iter = face.iter();
    let mut vertices: Vec<[f32; 4]> = Vec::new();
    while let Some(v) = iter.next(&face.edges) {
        vertices.push(v.position);
    }

    println!("{:?}", vertices);

    assert_eq!(vertices.len(), 3);
    assert_eq!(vertices[0], [0.0, 0.0, 0.0, 1.]);
    assert_eq!(vertices[1], [1.0, 0.0, 0.0, 1.]);
    assert_eq!(vertices[2], [0.0, 1.0, 0.0, 1.]);
}

#[test]
fn test_half_edge_origin() {
    let face = create_test_face();
    let edge = face.origin;

    let v1 = face.edges[edge].origin;
    let v2 = face.edges[face.edges[edge].next.unwrap()].origin;
    let v3 = face.edges[face.edges[face.edges[edge].next.unwrap()].next.unwrap()].origin;

    assert_eq!(v1.position, [0.0, 0.0, 0.0, 1.]);
    assert_eq!(v2.position, [1.0, 0.0, 0.0, 1.]);
    assert_eq!(v3.position, [0.0, 1.0, 0.0, 1.]);
}

#[test]
fn test_iteration_on_disconnected_edge() {
    let v1 = vert(0.0, 0.0, 0.0);

    let edges = vec![HalfEdge::new(v1)]; // only one half-edge, no links!

    let mut iter = HalfEdgeFaceIterator::new(0);

    let _first_vertex = iter.next(&edges);
    let second_vertex = iter.next(&edges);

    assert!(
        second_vertex.is_none(),
        "Iterator should stop after a single vertex!"
    );
}

fn mesh_with_vertices(n: usize) -> (Mesh<f32>, Vec<usize>) {
    let mut m: Mesh<f32> = Mesh::new();
    let mut ids = Vec::new();
    for i in 0..n {
        ids.push(m.add_vertex(vert(i as f32, 0.0, 0.0)));
    }
    (m, ids)
}

#[test]
fn triangle_half_edges_close_into_a_cycle() {
    let (mut m, v) = mesh_with_vertices(3);
    let t = m.add_triangle(v[0], v[1], v[2]).unwrap();

    let h0 = m.triangles[t].half_edge;
    let h1 = m.half_edges[h0].next;
    let h2 = m.half_edges[h1].next;
    assert_eq!(m.half_edges[h2].next, h0);
    assert_eq!(m.half_edges[h1].prev, h0);
    assert_eq!(m.half_edges[h2].prev, h1);
    assert_eq!(m.half_edges[h0].prev, h2);
}

#[test]
fn traversal_yields_vertices_in_construction_order() {
    let (mut m, v) = mesh_with_vertices(3);
    let t = m.add_triangle(v[0], v[1], v[2]).unwrap();
    assert_eq!(m.triangle_vertices(t), (v[0], v[1], v[2]));
}

#[test]
fn shared_edge_links_mutual_opposites() {
    let (mut m, v) = mesh_with_vertices(4);
    m.add_triangle(v[0], v[1], v[2]).unwrap();
    m.add_triangle(v[1], v[0], v[3]).unwrap();

    // the first half-edge of each triangle runs along the shared edge
    assert_eq!(m.half_edges[0].opposite, Some(3));
    assert_eq!(m.half_edges[3].opposite, Some(0));
}

#[test]
fn third_triangle_on_a_shared_edge_is_rejected() {
    let (mut m, v) = mesh_with_vertices(5);
    m.add_triangle(v[0], v[1], v[2]).unwrap();
    m.add_triangle(v[1], v[0], v[3]).unwrap();
    let before = m.faces().len();

    assert!(m.add_triangle(v[1], v[0], v[4]).is_err());
    assert!(m.add_triangle(v[0], v[1], v[4]).is_err());
    assert_eq!(m.faces().len(), before);
}

#[test]
fn removing_the_only_triangle_clears_its_parts() {
    let (mut m, v) = mesh_with_vertices(3);
    let t = m.add_triangle(v[0], v[1], v[2]).unwrap();
    assert_eq!(m.vertices_live().len(), 3);

    m.remove_triangle(t);

    assert!(m.faces().is_empty());
    assert!(m.vertices_live().is_empty());
    assert!(!m.edges[0].alive && !m.edges[1].alive && !m.edges[2].alive);
}

#[test]
fn removal_keeps_the_shared_edge_with_one_side() {
    let (mut m, v) = mesh_with_vertices(4);
    let _t1 = m.add_triangle(v[0], v[1], v[2]).unwrap();
    let t2 = m.add_triangle(v[1], v[0], v[3]).unwrap();

    m.remove_triangle(t2);

    // the vertex only the removed triangle used is gone; the others stay
    assert_eq!(m.vertices_live(), vec![v[0], v[1], v[2]]);
    // the shared edge survives with exactly the first triangle's half-edge,
    // whose opposite has been cleared
    let e = m.half_edges[0].edge;
    assert!(m.edges[e].alive);
    assert_eq!(m.edges[e].half_edge_a, Some(0));
    assert_eq!(m.edges[e].half_edge_b, None);
    assert_eq!(m.half_edges[0].opposite, None);
}

#[test]
fn a_removed_edge_can_be_rebuilt() {
    let (mut m, v) = mesh_with_vertices(4);
    m.add_triangle(v[0], v[1], v[2]).unwrap();
    let t2 = m.add_triangle(v[1], v[0], v[3]).unwrap();
    m.remove_triangle(t2);

    // with the second face gone the edge has a free side again
    let v3b = m.add_vertex(vert(9.0, 9.0, 0.0));
    assert!(m.add_triangle(v[1], v[0], v3b).is_ok());
    assert_eq!(m.faces().len(), 2);
}

#[test]
fn polygon_face_composition_keeps_corner_order() {
    let a = vert(0.0, 0.0, 0.0);
    let b = vert(1.0, 0.0, 0.0);
    let c = vert(0.0, 1.0, 0.0);
    let d = vert(1.0, 1.0, 0.0);
    let square = Polygon::try_from_vertices([a, b, c, d]).unwrap();
    let face = HalfEdgeFace::from_polygon(square);
    assert_eq!(face.edges.len(), 4);
    assert_eq!(face.origin, 0);
    assert_eq!(face.edges[0].origin.position, [0.0, 0.0, 0.0, 1.0]);
    assert_eq!(face.edges[3].origin.position, [1.0, 1.0, 0.0, 1.0]);
    assert_eq!(face.edges[3].next, Some(0));
}

#[test]
fn traversal_sequences_are_ascending() {
    let (mut m, v) = mesh_with_vertices(4);
    m.add_triangle(v[0], v[1], v[2]).unwrap();
    m.add_triangle(v[1], v[0], v[3]).unwrap();
    assert_eq!(m.faces(), vec![0, 1]);
    assert_eq!(m.vertices_live(), vec![0, 1, 2, 3]);
}
