use half_edge_mesh::obj_import::{
    line_type, load_wavefront_text, parse_face, parse_triple, FaceDataTripelet,
    WaveFrontLineType,
};
use half_edge_mesh::polygon::{Polygon, PolygonCreationError};
use half_edge_mesh::transform::{F32TryFromScaleError, Scale, Translation, SCALE_ONE};
use half_edge_mesh::triangulation::{triangle_area_x2, triangulate, IndexTriangle, Point2};
use half_edge_mesh::vertex::Vertex;

#[test]
fn square_triangulates_into_two_triangles_covering_it() {
    let points = vec![
        Point2 { x: 0, y: 0 },
        Point2 { x: 1, y: 0 },
        Point2 { x: 1, y: 1 },
        Point2 { x: 0, y: 1 },
    ];
    let tris = triangulate(&points);

    assert_eq!(tris.len(), 2);
    // every corner comes from the input set, never the super-triangle
    for t in &tris {
        assert!(t.a < 4 && t.b < 4 && t.c < 4);
        assert!(t.a != t.b && t.b != t.c && t.a != t.c);
    }
    // the two triangles together cover exactly the unit square
    let total: i64 = tris
        .iter()
        .map(|t| triangle_area_x2(&points, *t).abs())
        .sum();
    assert_eq!(total, 2);
}

#[test]
fn a_single_triangle_point_set_triangulates_to_itself() {
    let points = vec![
        Point2 { x: 0, y: 0 },
        Point2 { x: 2, y: 0 },
        Point2 { x: 0, y: 2 },
    ];
    let tris = triangulate(&points);
    assert_eq!(tris.len(), 1);
    assert_eq!(
        triangle_area_x2(&points, tris[0]).abs(),
        4
    );
}

#[test]
fn area_of_an_indexed_triangle_is_the_cross_product() {
    let points = vec![
        Point2 { x: 0, y: 0 },
        Point2 { x: 3, y: 0 },
        Point2 { x: 0, y: 4 },
    ];
    let t = IndexTriangle { a: 0, b: 1, c: 2 };
    assert_eq!(triangle_area_x2(&points, t), 12);
}

#[test]
fn polygon_needs_three_corners() {
    let v = Vertex::new([0.0f32, 0.0, 0.0, 1.0], [0.0; 3], [0.0; 3]);
    let two = Polygon::try_from_vertices([v, v]);
    assert_eq!(two.err(), Some(PolygonCreationError::NotEnoughVertices));

    let three = Polygon::try_from_vertices([v, v, v]).unwrap();
    assert_eq!(three.points().len(), 3);
    let edges = three.edges();
    assert_eq!(edges.len(), 3);
}

#[test]
fn translation_zero_and_inverse() {
    let z = Translation::zero();
    assert_eq!((z.x, z.y, z.z, z.w), (0, 0, 0, 0));
    let t = Translation { x: 3, y: -4, z: 5, w: 0 };
    let i = t.inverse();
    assert_eq!((i.x, i.y, i.z, i.w), (-3, 4, -5, 0));
}

#[test]
fn scale_uniform_reading() {
    let s = Scale::zero();
    assert_eq!(s.try_uniform(), Ok(SCALE_ONE));
    let lop = Scale { x: 1, y: 2, z: 2 };
    assert_eq!(
        lop.try_uniform(),
        Err(F32TryFromScaleError::NotAndUnidirectionalVector)
    );
}

#[test]
fn importer_line_type_classifies() {
    assert_eq!(line_type("v 1 2 3"), WaveFrontLineType::GeoVertex);
    assert_eq!(line_type("f 1//2"), WaveFrontLineType::Face);
    assert_eq!(line_type("o thing"), WaveFrontLineType::Name);
    assert_eq!(line_type("# hi"), WaveFrontLineType::Comment);
    assert_eq!(line_type(""), WaveFrontLineType::Empty);
    assert_eq!(line_type("zz 1"), WaveFrontLineType::Unknow);
}

#[test]
fn importer_parse_face_reads_triplets() {
    let fd = parse_face("f 1/2/3 4//6").unwrap();
    assert_eq!(
        fd,
        vec![
            FaceDataTripelet {
                geo_vert_index: 1,
                texture_vertex_index: Some(2),
                vertex_normal_index: 3,
            },
            FaceDataTripelet {
                geo_vert_index: 4,
                texture_vertex_index: None,
                vertex_normal_index: 6,
            },
        ]
    );
}

#[test]
fn importer_parse_face_rejects_bad_input() {
    assert!(parse_face("x 1/2/3").is_err());
    assert!(parse_face("f a/2/3").is_err());
    assert!(parse_face("f 1/2").is_err());
}

#[test]
fn importer_parse_triple_fills_defaults() {
    let t: (f32, f32, f32) = parse_triple("v 1.5 2.5", 0.0);
    assert_eq!(t, (1.5, 2.5, 0.0));
}

#[test]
fn obj_text_becomes_vertices_and_indices() {
    let text = "o thing\nv 0 0 0\nv 1 0 0\nv 0 1 0\nvn 0 0 1\nf 1//1 2//1 3//1\n";
    let model = load_wavefront_text::<f32>(text, 0.0, 1.0).unwrap();
    assert_eq!(model.name.as_deref(), Some("thing"));
    assert_eq!(model.vertices.len(), 3);
    assert_eq!(model.vertices[0].position, [0.0, 0.0, 0.0, 1.0]);
    assert_eq!(model.vertices[0].normal, [0.0, 0.0, 1.0]);
    assert_eq!(model.indices, vec![0, 1, 2]);
}

#[test]
fn obj_face_index_zero_is_rejected() {
    let text = "v 0 0 0\nf 0//1\n";
    assert!(load_wavefront_text::<f32>(text, 0.0, 1.0).is_err());
}
