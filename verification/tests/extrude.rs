use mesh_geometry_utils::mesh_builder::{generate_extruded_mesh, MeshBuilder, Point3};
use mesh_geometry_utils::mesh_polygon::MeshPolygon;
use mesh_geometry_utils::vertices::Vertex;

fn square() -> Vec<Vertex> {
    vec![
        Vertex { x: 0, y: 0 },
        Vertex { x: 0, y: 1 },
        Vertex { x: 1, y: 1 },
        Vertex { x: 1, y: 0 },
    ]
}

#[test]
fn test_extrude_square_counts() {
    let mut polygon = MeshPolygon::from_vec(square());
    let mesh = polygon.extrude(1).expect("a simple square extrudes");
    let n = 4;
    // Floor ring, ceiling ring, and four corners per wall quad.
    assert_eq!(mesh.positions.len(), 6 * n);
    assert_eq!(mesh.normals.len(), 6 * n);
    // n - 2 triangles for floor and for ceiling, 2 per wall quad.
    assert_eq!(mesh.indices.len(), 3 * (2 * (n - 2) + 2 * n));
    // Every emitted index addresses an emitted position.
    for idx in mesh.indices.iter() {
        assert!((*idx as usize) < mesh.positions.len());
    }
}

#[test]
fn test_extrude_square_layout() {
    let mut polygon = MeshPolygon::from_vec(square());
    let mesh = polygon.extrude(2).expect("a simple square extrudes");
    // Floor ring at height 0, in push order; the plane maps (x, y) to
    // (x, height, y).
    assert_eq!(mesh.positions[0], Point3 { x: 0, y: 0, z: 0 });
    assert_eq!(mesh.positions[1], Point3 { x: 0, y: 0, z: 1 });
    assert_eq!(mesh.positions[2], Point3 { x: 1, y: 0, z: 1 });
    assert_eq!(mesh.positions[3], Point3 { x: 1, y: 0, z: 0 });
    // Ceiling ring at the extrusion height.
    assert_eq!(mesh.positions[4], Point3 { x: 0, y: 2, z: 0 });
    assert_eq!(mesh.positions[7], Point3 { x: 1, y: 2, z: 0 });
    // Floor normals point down, ceiling normals up.
    for i in 0..4 {
        assert_eq!(mesh.normals[i], Point3 { x: 0, y: -1, z: 0 });
        assert_eq!(mesh.normals[4 + i], Point3 { x: 0, y: 1, z: 0 });
    }
    // First wall spans the edge (0,0) -> (0,1); its outward normal is the
    // cross product of the bottom edge with the rise: (-1, 0, 0).
    assert_eq!(mesh.positions[8], Point3 { x: 0, y: 0, z: 0 });
    assert_eq!(mesh.positions[9], Point3 { x: 0, y: 0, z: 1 });
    assert_eq!(mesh.positions[10], Point3 { x: 0, y: 2, z: 1 });
    assert_eq!(mesh.positions[11], Point3 { x: 0, y: 2, z: 0 });
    for k in 0..4 {
        assert_eq!(mesh.normals[8 + k], Point3 { x: -1, y: 0, z: 0 });
    }
    // The wall quad is split into the triangles (0, 1, 2) and (2, 3, 0).
    assert_eq!(&mesh.indices[12..18], &[8, 9, 10, 10, 11, 8]);
}

#[test]
fn test_extrude_triangle_counts() {
    let mut polygon = MeshPolygon::from_vec(vec![
        Vertex { x: 0, y: 0 },
        Vertex { x: 0, y: 2 },
        Vertex { x: 2, y: 0 },
    ]);
    let mesh = polygon.extrude(5).expect("a triangle extrudes");
    assert_eq!(mesh.positions.len(), 18);
    assert_eq!(mesh.indices.len(), 24);
    for idx in mesh.indices.iter() {
        assert!((*idx as usize) < 18);
    }
}

#[test]
fn test_extrude_too_few_vertices() {
    let mut polygon = MeshPolygon::new();
    polygon.push_vertex(Vertex { x: 0, y: 0 });
    polygon.push_vertex(Vertex { x: 1, y: 0 });
    // The implicit close fails, so nothing is generated and the polygon is
    // untouched.
    assert!(polygon.extrude(1).is_none());
    assert_eq!(polygon.vertices.len(), 2);
    assert_eq!(polygon.edges.len(), 1);
}

#[test]
fn test_extrude_degenerate_ring() {
    // Three collinear points close, but the zero-area ring is rejected by
    // triangulation; the failure only skips the mesh, it never corrupts
    // the polygon.
    let mut polygon = MeshPolygon::from_vec(vec![
        Vertex { x: 0, y: 0 },
        Vertex { x: 1, y: 0 },
        Vertex { x: 2, y: 0 },
    ]);
    assert!(polygon.extrude(1).is_none());
    assert_eq!(polygon.vertices.len(), 3);
    assert_eq!(polygon.edges.len(), 3);
}

#[test]
fn test_extrude_does_not_mutate_vertices() {
    let mut polygon = MeshPolygon::from_vec(square());
    let ids_before = polygon.vertices.ids();
    let edges_before = polygon.edges.len();
    polygon.extrude(3).expect("a simple square extrudes");
    assert_eq!(polygon.vertices.ids(), ids_before);
    // The wrap edge already existed, so the implicit close dedupes.
    assert_eq!(polygon.edges.len(), edges_before);
}

#[test]
fn test_mesh_builder_quad() {
    let mut builder = MeshBuilder::new();
    let normal = Point3 { x: 0, y: 1, z: 0 };
    builder.add_quad(
        [
            Point3 { x: 0, y: 0, z: 0 },
            Point3 { x: 1, y: 0, z: 0 },
            Point3 { x: 1, y: 0, z: 1 },
            Point3 { x: 0, y: 0, z: 1 },
        ],
        normal,
    );
    let mesh = builder.build();
    assert_eq!(mesh.positions.len(), 4);
    assert_eq!(mesh.normals, vec![normal, normal, normal, normal]);
    assert_eq!(mesh.indices, vec![0, 1, 2, 2, 3, 0]);
}

#[test]
fn test_mesh_builder_triangulate_concave_ring() {
    // A concave (but simple) ring triangulates: ear clipping emits
    // n - 2 = 4 triangles for this 6-point L-shape.
    let ring = vec![
        Vertex { x: 0, y: 0 },
        Vertex { x: 0, y: 2 },
        Vertex { x: 1, y: 2 },
        Vertex { x: 1, y: 1 },
        Vertex { x: 2, y: 1 },
        Vertex { x: 2, y: 0 },
    ];
    let mut builder = MeshBuilder::new();
    assert!(builder.triangulate_polygon(&ring, 0, Point3 { x: 0, y: -1, z: 0 }));
    let mesh = builder.build();
    assert_eq!(mesh.positions.len(), 6);
    assert_eq!(mesh.indices.len(), 12);
    for idx in mesh.indices.iter() {
        assert!((*idx as usize) < 6);
    }
}

#[test]
fn test_generate_mesh_rejects_short_path() {
    let path = vec![Vertex { x: 0, y: 0 }, Vertex { x: 1, y: 0 }];
    assert!(generate_extruded_mesh(&path, 1).is_none());
}
