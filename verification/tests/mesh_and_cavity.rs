use delauney_triangulation::cavity::polygonal_hole_boundary;
use delauney_triangulation::math::{Edge, Point, Triangle};
use delauney_triangulation::mesh::Mesh;

fn p(x: i64, y: i64) -> Point {
    Point::new(x, y)
}

fn t(a: (i64, i64), b: (i64, i64), c: (i64, i64)) -> Triangle {
    [p(a.0, a.1), p(b.0, b.1), p(c.0, c.1)]
}

#[test]
fn new_mesh_is_empty() {
    let mesh = Mesh::default();
    assert!(mesh.iter_triangles_in_mesh().is_empty());
}

#[test]
fn mesh_keeps_insertion_order() {
    let mut mesh = Mesh::default();
    let first = t((0, 0), (1, 0), (0, 1));
    let second = t((1, 0), (1, 1), (0, 1));
    mesh.add_triangle_to_mesh(first);
    mesh.add_triangle_to_mesh(second);
    mesh.add_triangle_to_mesh(first);
    assert_eq!(mesh.iter_triangles_in_mesh(), &vec![first, second, first]);
    // Reading twice gives the same.
    assert_eq!(mesh.iter_triangles_in_mesh(), &vec![first, second, first]);
}

#[test]
fn mesh_removes_exact_match_only() {
    let mut mesh = Mesh::default();
    let first = t((0, 0), (1, 0), (0, 1));
    let second = t((1, 0), (1, 1), (0, 1));
    mesh.add_triangle_to_mesh(first);
    mesh.add_triangle_to_mesh(second);
    // The same vertices in another order are another triangle.
    assert!(!mesh.remove_triangle_from_mesh(t((1, 0), (0, 1), (0, 0))));
    assert_eq!(mesh.iter_triangles_in_mesh(), &vec![first, second]);
    assert!(mesh.remove_triangle_from_mesh(first));
    assert_eq!(mesh.iter_triangles_in_mesh(), &vec![second]);
    assert!(!mesh.remove_triangle_from_mesh(first));
    assert_eq!(mesh.iter_triangles_in_mesh(), &vec![second]);
}

#[test]
fn mesh_removes_the_first_of_equal_triangles() {
    let mut mesh = Mesh::default();
    let first = t((0, 0), (1, 0), (0, 1));
    let second = t((1, 0), (1, 1), (0, 1));
    mesh.add_triangle_to_mesh(first);
    mesh.add_triangle_to_mesh(second);
    mesh.add_triangle_to_mesh(first);
    assert!(mesh.remove_triangle_from_mesh(first));
    assert_eq!(mesh.iter_triangles_in_mesh(), &vec![second, first]);
}

#[test]
fn mesh_remove_from_empty() {
    let mut mesh = Mesh::default();
    assert!(!mesh.remove_triangle_from_mesh(t((0, 0), (1, 0), (0, 1))));
    assert!(mesh.iter_triangles_in_mesh().is_empty());
}

#[test]
fn mesh_remove_each_reports_missing() {
    let first = t((0, 0), (1, 0), (0, 1));
    let second = t((1, 0), (1, 1), (0, 1));
    let third = t((5, 5), (6, 5), (5, 6));
    let mut mesh = Mesh::default();
    mesh.add_triangle_to_mesh(first);
    mesh.add_triangle_to_mesh(second);
    mesh.add_triangle_to_mesh(third);
    assert!(mesh.remove_each(&[third, first]));
    assert_eq!(mesh.iter_triangles_in_mesh(), &vec![second]);
    assert!(!mesh.remove_each(&[second, first]));
    assert!(mesh.iter_triangles_in_mesh().is_empty());
    assert!(mesh.remove_each(&[]));
}

#[test]
fn mesh_remove_each_counts_repeats() {
    let first = t((0, 0), (1, 0), (0, 1));
    let mut mesh = Mesh::default();
    mesh.add_triangle_to_mesh(first);
    mesh.add_triangle_to_mesh(first);
    assert!(mesh.remove_each(&[first, first]));
    assert!(mesh.iter_triangles_in_mesh().is_empty());
    mesh.add_triangle_to_mesh(first);
    assert!(!mesh.remove_each(&[first, first]));
    assert!(mesh.iter_triangles_in_mesh().is_empty());
}

#[test]
fn boundary_of_nothing_is_empty() {
    assert!(polygonal_hole_boundary(&[]).is_empty());
}

#[test]
fn boundary_of_one_triangle_is_its_sides() {
    let polygon = polygonal_hole_boundary(&[t((0, 0), (4, 0), (0, 4))]);
    let expected: Vec<Edge> =
        vec![(p(0, 0), p(4, 0)), (p(4, 0), p(0, 4)), (p(0, 4), p(0, 0))];
    assert_eq!(polygon, expected);
}

#[test]
fn boundary_of_two_adjacent_triangles_has_four_edges() {
    let polygon =
        polygonal_hole_boundary(&[t((0, 0), (4, 0), (0, 4)), t((4, 0), (4, 4), (0, 4))]);
    let expected: Vec<Edge> = vec![
        (p(0, 0), p(4, 0)),
        (p(0, 4), p(0, 0)),
        (p(4, 0), p(4, 4)),
        (p(4, 4), p(0, 4)),
    ];
    assert_eq!(polygon, expected);
}

#[test]
fn boundary_drops_edge_shared_in_the_same_direction() {
    // Both triangles walk the shared edge from (4,0) to (0,4).
    let polygon =
        polygonal_hole_boundary(&[t((0, 0), (4, 0), (0, 4)), t((4, 0), (0, 4), (4, 4))]);
    let expected: Vec<Edge> = vec![
        (p(0, 0), p(4, 0)),
        (p(0, 4), p(0, 0)),
        (p(0, 4), p(4, 4)),
        (p(4, 4), p(4, 0)),
    ];
    assert_eq!(polygon, expected);
}

#[test]
fn boundary_of_a_fan_is_its_rim() {
    // Four triangles around (0,0): only the outer sides stay.
    let polygon = polygonal_hole_boundary(&[
        t((0, 0), (2, 0), (0, 2)),
        t((0, 0), (0, 2), (-2, 0)),
        t((0, 0), (-2, 0), (0, -2)),
        t((0, 0), (0, -2), (2, 0)),
    ]);
    let expected: Vec<Edge> = vec![
        (p(2, 0), p(0, 2)),
        (p(0, 2), p(-2, 0)),
        (p(-2, 0), p(0, -2)),
        (p(0, -2), p(2, 0)),
    ];
    assert_eq!(polygon, expected);
}

#[test]
fn boundary_of_the_same_triangle_twice_is_empty() {
    let triangle = t((0, 0), (4, 0), (0, 4));
    assert!(polygonal_hole_boundary(&[triangle, triangle]).is_empty());
    // Also when the second names the vertices in another order.
    assert!(polygonal_hole_boundary(&[triangle, t((4, 0), (0, 4), (0, 0))]).is_empty());
}

#[test]
fn boundary_keeps_sides_repeated_within_one_triangle() {
    // A side is compared with the sides of the other triangles only.
    let polygon = polygonal_hole_boundary(&[t((0, 0), (4, 0), (0, 0))]);
    let expected: Vec<Edge> =
        vec![(p(0, 0), p(4, 0)), (p(4, 0), p(0, 0)), (p(0, 0), p(0, 0))];
    assert_eq!(polygon, expected);
}
