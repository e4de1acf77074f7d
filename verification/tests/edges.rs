use mesh_geometry_utils::edges::{Edge, Edges};
use mesh_geometry_utils::vertices::{Vertex, Vertices};

#[test]
fn test_edges_basic() {
    let vertices = Vertices::from_vec(vec![
        Vertex { x: 0, y: 0 },
        Vertex { x: 0, y: 1 },
        Vertex { x: 1, y: 1 },
        Vertex { x: 1, y: 0 },
    ]);
    let ids = vertices.ids();
    let mut edges_vec = vec![];
    for (v1, v2) in ids.iter().zip(ids.iter().skip(1)) {
        edges_vec.push(Edge::new(*v1, *v2));
    }
    let edges_vec_iter = edges_vec.iter();
    let mut edges = Edges::from_vec(edges_vec_iter.clone().take(2).cloned().collect::<Vec<_>>());

    for edge in edges_vec_iter.skip(2) {
        edges.insert(edge.clone());
    }

    for edge in edges_vec.iter() {
        assert!(edges.contains(edge));
    }
}

#[test]
fn test_edges_insert_dedupes() {
    let vertices = Vertices::from_vec(vec![Vertex { x: 0, y: 0 }, Vertex { x: 1, y: 0 }]);
    let ids = vertices.ids();
    let e = Edge::new(ids[0], ids[1]);
    let mut edges = Edges::new();
    assert!(edges.insert(e.clone()));
    assert!(!edges.insert(e.clone()));
    assert_eq!(edges.len(), 1);
    // The reversed edge is a distinct entry.
    let r = Edge::new(ids[1], ids[0]);
    assert!(edges.insert(r.clone()));
    assert_eq!(edges.len(), 2);
}

#[test]
fn test_edges_remove_and_take() {
    let vertices = Vertices::from_vec(vec![
        Vertex { x: 0, y: 0 },
        Vertex { x: 1, y: 0 },
        Vertex { x: 1, y: 1 },
    ]);
    let ids = vertices.ids();
    let ab = Edge::new(ids[0], ids[1]);
    let bc = Edge::new(ids[1], ids[2]);
    let mut edges = Edges::from_vec(vec![ab.clone(), bc.clone()]);
    assert!(edges.remove(&ab));
    assert!(!edges.remove(&ab));
    assert!(!edges.contains(&ab));
    assert_eq!(edges.take(&bc), Some(bc.clone()));
    assert_eq!(edges.take(&bc), None);
    assert!(edges.is_empty());
}

#[test]
fn test_edges_filter_by_vertex() {
    let vertices = Vertices::from_vec(vec![
        Vertex { x: 0, y: 0 },
        Vertex { x: 1, y: 0 },
        Vertex { x: 1, y: 1 },
    ]);
    let ids = vertices.ids();
    let ab = Edge::new(ids[0], ids[1]);
    let bc = Edge::new(ids[1], ids[2]);
    let ca = Edge::new(ids[2], ids[0]);
    let edges = Edges::from_vec(vec![ab.clone(), bc.clone(), ca.clone()]);
    let touching_b = edges.filter_by_vertex(ids[1]);
    assert_eq!(touching_b, vec![ab.clone(), bc.clone()]);
    let touching_a = edges.filter_by_vertex(ids[0]);
    assert_eq!(touching_a, vec![ab, ca]);
}
