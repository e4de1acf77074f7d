use std::collections::HashSet;

use mesh_geometry_utils::edges::Edge;
use mesh_geometry_utils::mesh_polygon::MeshPolygon;
use mesh_geometry_utils::vertices::{Vertex, Vertices};

fn square() -> Vec<Vertex> {
    vec![
        Vertex { x: 0, y: 0 },
        Vertex { x: 0, y: 1 },
        Vertex { x: 1, y: 1 },
        Vertex { x: 1, y: 0 },
    ]
}

fn edge_set(polygon: &MeshPolygon) -> HashSet<Edge> {
    polygon.edges.get_all_owned().into_iter().collect()
}

#[test]
fn test_push_then_close_edge_counts() {
    // k pushes on an empty polygon, then close: k vertices and k edges.
    let points = vec![
        Vertex { x: 0, y: 0 },
        Vertex { x: 4, y: 0 },
        Vertex { x: 5, y: 3 },
        Vertex { x: 2, y: 5 },
        Vertex { x: -1, y: 3 },
    ];
    let mut polygon = MeshPolygon::new();
    for (i, p) in points.iter().enumerate() {
        polygon.push_vertex(*p);
        assert_eq!(polygon.vertices.len(), i + 1);
        // An open chain of i + 1 vertices holds i edges.
        assert_eq!(polygon.edges.len(), i);
    }
    assert!(polygon.close());
    assert_eq!(polygon.vertices.len(), points.len());
    assert_eq!(polygon.edges.len(), points.len());
}

#[test]
fn test_close_too_few_vertices() {
    let mut polygon = MeshPolygon::new();
    polygon.push_vertex(Vertex { x: 0, y: 0 });
    polygon.push_vertex(Vertex { x: 1, y: 0 });
    let before = polygon.edges.len();
    assert!(!polygon.close());
    // A failed close adds no edge.
    assert_eq!(polygon.edges.len(), before);
    assert_eq!(polygon.edges.len(), 1);
}

#[test]
fn test_reverse_twice_restores() {
    let mut polygon = MeshPolygon::from_vec(square());
    let ids_before = polygon.vertices.ids();
    let edges_before = edge_set(&polygon);
    polygon.reverse();
    polygon.reverse();
    assert_eq!(polygon.vertices.ids(), ids_before);
    assert_eq!(edge_set(&polygon), edges_before);
}

#[test]
fn test_square_winding_round_trip() {
    // The square pushed in this order is clockwise; reversing flips it.
    let mut polygon = MeshPolygon::from_vec(square());
    assert!(polygon.vertices.is_order_cw());
    polygon.reverse();
    assert!(polygon.vertices.is_order_ccw());
    assert!(!polygon.vertices.is_order_cw());
}

#[test]
fn test_insert_vertex_on_wrap_edge() {
    // Inserting on the wrap-around edge must land at the tail of the
    // order, not elsewhere.
    let mut polygon = MeshPolygon::new();
    let pts = square();
    let a = polygon.push_vertex(pts[0]);
    let b = polygon.push_vertex(pts[1]);
    let c = polygon.push_vertex(pts[2]);
    let d = polygon.push_vertex(pts[3]);
    assert!(polygon.close());
    let mid = Vertex { x: 0, y: -1 };
    let new_id = polygon
        .insert_vertex_on_edge(mid, Edge::new(d, a))
        .expect("both endpoints are live");
    assert_eq!(polygon.vertices.ids(), vec![a, b, c, d, new_id]);
    // The wrap edge is replaced by the two edges through the new vertex.
    assert!(!polygon.edges.contains(&Edge::new(d, a)));
    assert!(polygon.edges.contains(&Edge::new(d, new_id)));
    assert!(polygon.edges.contains(&Edge::new(new_id, a)));
    assert_eq!(polygon.edges.len(), 5);
}

#[test]
fn test_insert_vertex_on_wrap_edge_reversed_endpoints() {
    // The wrap case must hold with the endpoints given in either order.
    let mut polygon = MeshPolygon::new();
    let pts = square();
    let a = polygon.push_vertex(pts[0]);
    let b = polygon.push_vertex(pts[1]);
    let c = polygon.push_vertex(pts[2]);
    let d = polygon.push_vertex(pts[3]);
    assert!(polygon.close());
    let mid = Vertex { x: 0, y: -1 };
    let new_id = polygon
        .insert_vertex_on_edge(mid, Edge::new(a, d))
        .expect("both endpoints are live");
    assert_eq!(polygon.vertices.ids(), vec![a, b, c, d, new_id]);
}

#[test]
fn test_insert_vertex_on_middle_edge() {
    let mut polygon = MeshPolygon::new();
    let pts = square();
    let a = polygon.push_vertex(pts[0]);
    let b = polygon.push_vertex(pts[1]);
    let c = polygon.push_vertex(pts[2]);
    let d = polygon.push_vertex(pts[3]);
    assert!(polygon.close());
    let mid = Vertex { x: 0, y: 2 };
    let new_id = polygon
        .insert_vertex_on_edge(mid, Edge::new(a, b))
        .expect("both endpoints are live");
    // Right after the earlier-indexed endpoint.
    assert_eq!(polygon.vertices.ids(), vec![a, new_id, b, c, d]);
    assert!(!polygon.edges.contains(&Edge::new(a, b)));
    assert!(polygon.edges.contains(&Edge::new(a, new_id)));
    assert!(polygon.edges.contains(&Edge::new(new_id, b)));
}

#[test]
fn test_insert_vertex_on_stale_edge() {
    let mut polygon = MeshPolygon::new();
    let pts = square();
    let a = polygon.push_vertex(pts[0]);
    let b = polygon.push_vertex(pts[1]);
    polygon.push_vertex(pts[2]);
    polygon.push_vertex(pts[3]);
    assert!(polygon.close());
    polygon.remove_vertex(b);
    let ids_before = polygon.vertices.ids();
    let edges_before = edge_set(&polygon);
    // One endpoint is gone: the stale edge is rejected and nothing changes.
    assert_eq!(
        polygon.insert_vertex_on_edge(Vertex { x: 9, y: 9 }, Edge::new(a, b)),
        None
    );
    assert_eq!(polygon.vertices.ids(), ids_before);
    assert_eq!(edge_set(&polygon), edges_before);
}

#[test]
fn test_remove_vertex_stale_id() {
    let mut polygon = MeshPolygon::new();
    for p in square() {
        polygon.push_vertex(p);
    }
    assert!(polygon.close());
    let b = polygon.vertices.ids()[1];
    let (removed, added) = polygon.remove_vertex(b);
    assert_eq!(removed, Some(Vertex { x: 0, y: 1 }));
    assert_eq!(added.len(), 1);
    let ids_before = polygon.vertices.ids();
    let edges_before = edge_set(&polygon);
    // A second removal with the stale id is an ordinary miss.
    let (removed2, added2) = polygon.remove_vertex(b);
    assert_eq!(removed2, None);
    assert!(added2.is_empty());
    assert_eq!(polygon.vertices.ids(), ids_before);
    assert_eq!(edge_set(&polygon), edges_before);
}

#[test]
fn test_clear_then_repopulate_new_ids() {
    // Re-populating after a soft clear yields entirely fresh ids but the
    // identical structural shape.
    let mut vertices = Vertices::from_vec(square());
    let old_ids: HashSet<_> = vertices.ids().into_iter().collect();
    let was_cw = vertices.is_order_cw();
    vertices.clear();
    vertices.push_many(square());
    let new_ids: HashSet<_> = vertices.ids().into_iter().collect();
    assert!(old_ids.is_disjoint(&new_ids));
    assert_eq!(vertices.is_order_cw(), was_cw);
}

#[test]
fn test_clear_with_reset_permits_id_reuse() {
    let mut vertices = Vertices::from_vec(square());
    let old_ids = vertices.ids();
    vertices.clear_with_reset();
    vertices.push_many(square());
    // After a full reset the same ids come back, without collisions,
    // because every holder of the old ids was discarded with the clear.
    assert_eq!(vertices.ids(), old_ids);
}
