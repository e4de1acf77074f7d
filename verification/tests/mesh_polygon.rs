use std::collections::HashSet;

use mesh_geometry_utils::edges::Edge;
use mesh_geometry_utils::mesh_polygon::MeshPolygon;
use mesh_geometry_utils::vertices::Vertex;

fn square() -> Vec<Vertex> {
    vec![
        Vertex { x: 0, y: 0 },
        Vertex { x: 0, y: 1 },
        Vertex { x: 1, y: 1 },
        Vertex { x: 1, y: 0 },
    ]
}

fn edge_set(polygon: &MeshPolygon) -> HashSet<Edge> {
    polygon.edges.get_all_owned().into_iter().collect()
}

#[test]
fn test_basic_mesh_polygon() {
    let vec_of_vec2 = square();
    let mut polygon = MeshPolygon::new();
    for vertex in vec_of_vec2.iter() {
        polygon.push_vertex(*vertex);
    }
    assert_eq!(polygon.vertices.len(), vec_of_vec2.len());
    assert_eq!(polygon.edges.len(), vec_of_vec2.len() - 1);
    polygon.close();
    assert_eq!(polygon.edges.len(), vec_of_vec2.len());
}

#[test]
fn test_mesh_polygon_from_vec_vertices() {
    let vec_of_vec2 = square();
    let polygon = MeshPolygon::from_vec(vec_of_vec2.clone());

    assert_eq!(polygon.vertices.len(), vec_of_vec2.len());
    assert_eq!(polygon.edges.len(), vec_of_vec2.len());
}

#[test]
fn test_basic_edges() {
    let vec_of_vec2 = square();
    let mut polygon = MeshPolygon::new();
    // Push vertices of polygon
    let a = polygon.push_vertex(vec_of_vec2[0]);
    let b = polygon.push_vertex(vec_of_vec2[1]);
    let c = polygon.push_vertex(vec_of_vec2[2]);
    let d = polygon.push_vertex(vec_of_vec2[3]);
    // close polygon
    assert!(polygon.close());
    // assert correct vertices.
    assert_eq!(polygon.vertices.get_all_owned(), vec_of_vec2);
    let mut expected_edges = HashSet::new();
    expected_edges.insert(Edge::new(a, b));
    expected_edges.insert(Edge::new(b, c));
    expected_edges.insert(Edge::new(c, d));
    expected_edges.insert(Edge::new(d, a));
    // assert correct edges
    assert_eq!(edge_set(&polygon), expected_edges);
}

#[test]
fn test_basic_edges_with_vertices_reversed() {
    let mut vec_of_vec2 = square();
    let mut polygon = MeshPolygon::new();
    // Push vertices of polygon
    let a = polygon.push_vertex(vec_of_vec2[0]);
    let b = polygon.push_vertex(vec_of_vec2[1]);
    let c = polygon.push_vertex(vec_of_vec2[2]);
    let d = polygon.push_vertex(vec_of_vec2[3]);
    // close polygon
    assert!(polygon.close());
    // reverse order of vertices
    polygon.reverse();
    // assert correct vertices...
    vec_of_vec2.reverse();
    assert_eq!(polygon.vertices.get_all_owned(), vec_of_vec2);
    // calc expected edges...
    let mut expected_edges = HashSet::new();
    expected_edges.insert(Edge::new(a, d));
    expected_edges.insert(Edge::new(d, c));
    expected_edges.insert(Edge::new(c, b));
    expected_edges.insert(Edge::new(b, a));
    // assert correct edges
    assert_eq!(edge_set(&polygon), expected_edges);
}

#[test]
fn test_vertex_remove_b() {
    let vec_of_vec2 = square();
    let mut polygon = MeshPolygon::new();
    // Push verts of polygon
    let a = polygon.push_vertex(vec_of_vec2[0]);
    let b = polygon.push_vertex(vec_of_vec2[1]);
    let c = polygon.push_vertex(vec_of_vec2[2]);
    let d = polygon.push_vertex(vec_of_vec2[3]);
    // close polygon
    assert!(polygon.close());
    // assert correct vertices...
    assert_eq!(polygon.vertices.get_all_owned(), vec_of_vec2);
    // remove
    polygon.remove_vertex(b);
    // assert correct vertex ids
    assert_eq!(polygon.vertices.ids(), vec![a, c, d]);
    // calc expected edges...
    let mut expected_edges = HashSet::new();
    expected_edges.insert(Edge::new(a, c));
    expected_edges.insert(Edge::new(c, d));
    expected_edges.insert(Edge::new(d, a));
    // assert correct edges
    assert_eq!(edge_set(&polygon), expected_edges);
}

#[test]
fn test_vertex_remove_b_reversed_vertices() {
    let mut vec_of_vec2 = square();
    let mut polygon = MeshPolygon::new();
    // Push verts of polygon
    let a = polygon.push_vertex(vec_of_vec2[0]);
    let b = polygon.push_vertex(vec_of_vec2[1]);
    let c = polygon.push_vertex(vec_of_vec2[2]);
    let d = polygon.push_vertex(vec_of_vec2[3]);
    // close polygon
    assert!(polygon.close());
    // reverse
    polygon.reverse();
    vec_of_vec2.reverse();
    // assert correct vertices...
    assert_eq!(polygon.vertices.get_all_owned(), vec_of_vec2);
    // remove
    polygon.remove_vertex(b);
    // assert correct vertex ids
    assert_eq!(polygon.vertices.ids(), vec![d, c, a]);
    // calc expected edges...
    let mut expected_edges = HashSet::new();
    expected_edges.insert(Edge::new(a, d));
    expected_edges.insert(Edge::new(d, c));
    expected_edges.insert(Edge::new(c, a));
    // assert correct edges
    assert_eq!(edge_set(&polygon), expected_edges);
}

#[test]
fn test_vertex_remove_d() {
    let vec_of_vec2 = square();
    let mut polygon = MeshPolygon::new();
    // Push verts of polygon
    let a = polygon.push_vertex(vec_of_vec2[0]);
    let b = polygon.push_vertex(vec_of_vec2[1]);
    let c = polygon.push_vertex(vec_of_vec2[2]);
    let d = polygon.push_vertex(vec_of_vec2[3]);
    // close polygon
    assert!(polygon.close());
    // assert correct vertices...
    assert_eq!(polygon.vertices.get_all_owned(), vec_of_vec2);
    // remove
    polygon.remove_vertex(d);
    // assert correct vertex ids
    assert_eq!(polygon.vertices.ids(), vec![a, b, c]);
    // calc expected edges...
    let mut expected_edges = HashSet::new();
    expected_edges.insert(Edge::new(a, b));
    expected_edges.insert(Edge::new(b, c));
    expected_edges.insert(Edge::new(c, a));
    // assert correct edges
    assert_eq!(edge_set(&polygon), expected_edges);
}

#[test]
fn test_vertex_remove_d_reversed_vertices() {
    let mut vec_of_vec2 = square();
    let mut polygon = MeshPolygon::new();
    // Push verts of polygon
    let a = polygon.push_vertex(vec_of_vec2[0]);
    let b = polygon.push_vertex(vec_of_vec2[1]);
    let c = polygon.push_vertex(vec_of_vec2[2]);
    let d = polygon.push_vertex(vec_of_vec2[3]);
    // close polygon
    assert!(polygon.close());
    // reverse
    polygon.reverse();
    vec_of_vec2.reverse();
    // assert correct vertices...
    assert_eq!(polygon.vertices.get_all_owned(), vec_of_vec2);
    // remove
    polygon.remove_vertex(d);
    // assert correct vertex ids
    assert_eq!(polygon.vertices.ids(), vec![c, b, a]);
    // calc expected edges...
    let mut expected_edges = HashSet::new();
    expected_edges.insert(Edge::new(a, c));
    expected_edges.insert(Edge::new(c, b));
    expected_edges.insert(Edge::new(b, a));
    // assert correct edges
    assert_eq!(edge_set(&polygon), expected_edges);
}

#[test]
fn test_vertex_remove_a() {
    let vec_of_vec2 = square();
    let mut polygon = MeshPolygon::new();
    // Push verts of polygon
    let a = polygon.push_vertex(vec_of_vec2[0]);
    let b = polygon.push_vertex(vec_of_vec2[1]);
    let c = polygon.push_vertex(vec_of_vec2[2]);
    let d = polygon.push_vertex(vec_of_vec2[3]);
    // close polygon
    assert!(polygon.close());
    // assert correct vertices...
    assert_eq!(polygon.vertices.get_all_owned(), vec_of_vec2);
    // remove
    polygon.remove_vertex(a);
    // assert correct vertex ids
    assert_eq!(polygon.vertices.ids(), vec![b, c, d]);
    // calc expected edges...
    let mut expected_edges = HashSet::new();
    expected_edges.insert(Edge::new(b, c));
    expected_edges.insert(Edge::new(c, d));
    expected_edges.insert(Edge::new(d, b));
    // assert correct edges
    assert_eq!(edge_set(&polygon), expected_edges);
}

#[test]
fn test_vertex_remove_a_reversed_vertices() {
    let mut vec_of_vec2 = square();
    let mut polygon = MeshPolygon::new();
    // Push verts of polygon
    let a = polygon.push_vertex(vec_of_vec2[0]);
    let b = polygon.push_vertex(vec_of_vec2[1]);
    let c = polygon.push_vertex(vec_of_vec2[2]);
    let d = polygon.push_vertex(vec_of_vec2[3]);
    // close polygon
    assert!(polygon.close());
    // reverse
    polygon.reverse();
    vec_of_vec2.reverse();
    // assert correct vertices...
    assert_eq!(polygon.vertices.get_all_owned(), vec_of_vec2);
    // remove
    polygon.remove_vertex(a);
    // assert correct vertex ids
    assert_eq!(polygon.vertices.ids(), vec![d, c, b]);
    // calc expected edges...
    let mut expected_edges = HashSet::new();
    expected_edges.insert(Edge::new(b, d));
    expected_edges.insert(Edge::new(d, c));
    expected_edges.insert(Edge::new(c, b));
    // assert correct edges
    assert_eq!(edge_set(&polygon), expected_edges);
}

#[test]
fn test_vertex_remove_c() {
    let vec_of_vec2 = square();
    let mut polygon = MeshPolygon::new();
    let a = polygon.push_vertex(vec_of_vec2[0]);
    let b = polygon.push_vertex(vec_of_vec2[1]);
    let c = polygon.push_vertex(vec_of_vec2[2]);
    let d = polygon.push_vertex(vec_of_vec2[3]);
    assert!(polygon.close());
    polygon.remove_vertex(c);
    assert_eq!(polygon.vertices.ids(), vec![a, b, d]);
    let mut expected_edges = HashSet::new();
    expected_edges.insert(Edge::new(a, b));
    expected_edges.insert(Edge::new(b, d));
    expected_edges.insert(Edge::new(d, a));
    assert_eq!(edge_set(&polygon), expected_edges);
}

#[test]
fn test_vertex_remove_c_reversed_vertices() {
    let mut vec_of_vec2 = square();
    let mut polygon = MeshPolygon::new();
    let a = polygon.push_vertex(vec_of_vec2[0]);
    let b = polygon.push_vertex(vec_of_vec2[1]);
    let c = polygon.push_vertex(vec_of_vec2[2]);
    let d = polygon.push_vertex(vec_of_vec2[3]);
    assert!(polygon.close());
    polygon.reverse();
    vec_of_vec2.reverse();
    assert_eq!(polygon.vertices.get_all_owned(), vec_of_vec2);
    polygon.remove_vertex(c);
    assert_eq!(polygon.vertices.ids(), vec![d, b, a]);
    let mut expected_edges = HashSet::new();
    expected_edges.insert(Edge::new(d, b));
    expected_edges.insert(Edge::new(b, a));
    expected_edges.insert(Edge::new(a, d));
    assert_eq!(edge_set(&polygon), expected_edges);
}
