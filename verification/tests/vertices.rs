use mesh_geometry_utils::vertices::{Vertex, Vertices};

fn square() -> Vec<Vertex> {
    vec![
        Vertex { x: 0, y: 0 },
        Vertex { x: 0, y: 1 },
        Vertex { x: 1, y: 1 },
        Vertex { x: 1, y: 0 },
    ]
}

#[test]
fn test_vertices_cw() {
    let vec_of_vec2 = square();
    let vertices = Vertices::from_vec(vec_of_vec2.clone());

    assert!(vertices.is_order_cw());
}

#[test]
fn test_vertices_ccw() {
    let mut vec_of_vec2 = square();
    vec_of_vec2.reverse();
    let vertices = Vertices::from_vec(vec_of_vec2.clone());

    assert!(vertices.is_order_ccw());
}

#[test]
fn test_vertices_push() {
    let vec_of_vec2 = square();
    let mut vertices = Vertices::new();
    vertices.push_many(vec_of_vec2.clone());

    assert_eq!(vertices.get_all_owned(), vec_of_vec2);
}

#[test]
fn test_vertices_winding_sum_exact() {
    // Edge terms (x2 - x1) * (y2 + y1) of the square, wrap included:
    // 0 + 2 - 1 + 0 = 1 > 0, so the push order is clockwise.
    let vertices = Vertices::from_vec(square());
    assert!(vertices.is_order_cw());
    assert!(!vertices.is_order_ccw());
}

#[test]
fn test_vertices_degenerate_is_ccw() {
    // A collinear ring sums to exactly zero, which deliberately counts as
    // counter-clockwise.
    let vertices = Vertices::from_vec(vec![
        Vertex { x: 0, y: 0 },
        Vertex { x: 1, y: 0 },
        Vertex { x: 2, y: 0 },
    ]);
    assert!(!vertices.is_order_cw());
    assert!(vertices.is_order_ccw());
}

#[test]
fn test_vertices_get_and_stale() {
    let mut vertices = Vertices::new();
    let a = vertices.push(Vertex { x: 3, y: 4 });
    assert_eq!(vertices.get(a).copied(), Some(Vertex { x: 3, y: 4 }));
    assert_eq!(vertices.get_owned(a), Some(Vertex { x: 3, y: 4 }));
    vertices.remove(a);
    assert_eq!(vertices.get(a), None);
    assert_eq!(vertices.get_owned(a), None);
}
