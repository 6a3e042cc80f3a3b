use delauney_triangulation::cavity::polygonal_hole_boundary;
use delauney_triangulation::circle::Circle;
use delauney_triangulation::delauney_triangulation::DelauneyTriangulationInformation;
use delauney_triangulation::internal_state::InternalState;
use delauney_triangulation::math::{
    edges_are_equal, get_edges_from_triangle, Point, Triangle, INPUT_LIMIT,
};

fn p(x: i64, y: i64) -> Point {
    Point::new(x, y)
}

fn points(coordinates: &[(i64, i64)]) -> Vec<Point> {
    coordinates.iter().map(|c| p(c.0, c.1)).collect()
}

fn engine_for(coordinates: &[(i64, i64)]) -> DelauneyTriangulationInformation {
    let mut information = DelauneyTriangulationInformation::default();
    let list = points(coordinates);
    assert!(list.iter().all(|point| point.check_input()));
    information.set_point_list(list);
    information
}

fn run_to_completion(coordinates: &[(i64, i64)]) -> DelauneyTriangulationInformation {
    let mut information = engine_for(coordinates);
    let mut calls = 0;
    while !information.is_complete() {
        information.update_triangulation();
        calls += 1;
        assert!(calls < 1_000_000);
    }
    information
}

fn sorted_vertices(triangle: &Triangle) -> Vec<(i64, i64)> {
    let mut vertices: Vec<(i64, i64)> = triangle.iter().map(|v| (v.x, v.y)).collect();
    vertices.sort();
    vertices
}

fn has_vertex(triangle: &Triangle, vertex: (i64, i64)) -> bool {
    triangle.iter().any(|v| (v.x, v.y) == vertex)
}

fn assert_delaunay(information: &DelauneyTriangulationInformation) {
    for triangle in information.iter_triangles_in_mesh() {
        let circle = Circle::from(*triangle);
        for point in information.point_list() {
            assert!(!circle.is_point_inside_circle(*point));
        }
    }
}

fn assert_no_repeats(information: &DelauneyTriangulationInformation) {
    let triangles = information.iter_triangles_in_mesh();
    for i in 0..triangles.len() {
        for j in 0..i {
            assert_ne!(triangles[i], triangles[j]);
        }
    }
}

#[test]
fn fresh_engine_holds_nothing() {
    let information = DelauneyTriangulationInformation::default();
    assert_eq!(information.state(), InternalState::Initial);
    assert!(information.iter_triangles_in_mesh().is_empty());
    assert!(information.point_list().is_empty());
    assert_eq!(information.current_point(), None);
    assert_eq!(information.super_triangle(), None);
    assert!(information.bad_triangles_to_plot().is_empty());
    assert!(information.good_checked_triangles_to_plot().is_empty());
    assert!(information.circumcircles_to_plot().is_empty());
    assert!(!information.is_complete());
}

#[test]
fn empty_point_set_completes_with_empty_mesh() {
    let mut information = engine_for(&[]);
    information.update_triangulation();
    assert_eq!(information.state(), InternalState::GetBadTrianglesInMesh(0));
    assert_eq!(information.super_triangle(), Some([p(-1, -1), p(3, -1), p(-1, 3)]));
    assert_eq!(information.iter_triangles_in_mesh(), &vec![[p(-1, -1), p(3, -1), p(-1, 3)]]);
    assert!(!information.is_complete());
    information.update_triangulation();
    assert!(information.iter_triangles_in_mesh().is_empty());
    assert!(information.is_complete());
}

#[test]
fn single_triangle_scenario() {
    let information = run_to_completion(&[(0, 0), (10, 0), (5, 10)]);
    let triangles = information.iter_triangles_in_mesh();
    assert_eq!(triangles.len(), 1);
    assert_eq!(sorted_vertices(&triangles[0]), vec![(0, 0), (5, 10), (10, 0)]);
    for vertex in [(-1, -1), (23, -1), (-1, 23)] {
        assert!(!has_vertex(&triangles[0], vertex));
    }
    assert_eq!(information.super_triangle(), Some([p(-1, -1), p(23, -1), p(-1, 23)]));
    assert_delaunay(&information);
}

#[test]
fn square_scenario() {
    let information = run_to_completion(&[(0, 0), (10, 0), (10, 10), (0, 10)]);
    let triangles = information.iter_triangles_in_mesh();
    assert_eq!(triangles.len(), 2);
    let first = sorted_vertices(&triangles[0]);
    let second = sorted_vertices(&triangles[1]);
    let corners = [(0, 0), (10, 0), (10, 10), (0, 10)];
    for triangle in [&first, &second] {
        for vertex in triangle {
            assert!(corners.contains(vertex));
        }
    }
    // Both hold the two ends of one diagonal.
    let shared: Vec<(i64, i64)> =
        first.iter().filter(|v| second.contains(v)).cloned().collect();
    assert!(shared == vec![(0, 0), (10, 10)] || shared == vec![(0, 10), (10, 0)]);
    // Together they hold all four corners.
    for corner in corners {
        assert!(first.contains(&corner) || second.contains(&corner));
    }
    assert_delaunay(&information);
    assert_no_repeats(&information);
}

#[test]
fn steps_after_completion_change_nothing() {
    let mut information = run_to_completion(&[(0, 0), (10, 0), (5, 10), (12, 9), (3, 4)]);
    let triangles = information.iter_triangles_in_mesh().clone();
    assert!(!triangles.is_empty());
    let state = information.state();
    for _ in 0..10 {
        information.update_triangulation();
        assert_eq!(information.iter_triangles_in_mesh(), &triangles);
        assert_eq!(information.state(), state);
        assert!(information.is_complete());
        assert!(information.bad_triangles_to_plot().is_empty());
        assert!(information.circumcircles_to_plot().is_empty());
    }
}

#[test]
fn steps_after_completion_of_empty_run_change_nothing() {
    let mut information = run_to_completion(&[]);
    for _ in 0..5 {
        information.update_triangulation();
        assert!(information.iter_triangles_in_mesh().is_empty());
        assert!(information.is_complete());
    }
}

#[test]
fn one_point_step_by_step() {
    let mut information = engine_for(&[(0, 0)]);
    let seed = [p(-1, -1), p(3, -1), p(-1, 3)];

    information.update_triangulation();
    assert_eq!(information.state(), InternalState::GetBadTrianglesInMesh(0));
    assert_eq!(information.iter_triangles_in_mesh(), &vec![seed]);
    assert_eq!(information.current_point(), Some(p(0, 0)));

    // The only triangle is the last one: it is tested and taken out.
    information.update_triangulation();
    assert_eq!(information.state(), InternalState::RemoveBadTrianglesFromMesh(true));
    assert!(information.iter_triangles_in_mesh().is_empty());
    assert!(information.circumcircles_to_plot().is_empty());
    assert_eq!(information.current_point(), Some(p(0, 0)));

    // Nothing visible happens: the hole stays open for one more call.
    information.update_triangulation();
    assert_eq!(information.state(), InternalState::AddTrianglesFromPolygonEdges);
    assert!(information.iter_triangles_in_mesh().is_empty());

    information.update_triangulation();
    assert_eq!(information.state(), InternalState::GetBadTrianglesInMesh(0));
    assert_eq!(
        information.iter_triangles_in_mesh(),
        &vec![
            [p(0, 0), p(-1, -1), p(3, -1)],
            [p(0, 0), p(3, -1), p(-1, 3)],
            [p(0, 0), p(-1, 3), p(-1, -1)],
        ]
    );
    assert_eq!(information.current_point(), None);
    assert!(!information.is_complete());

    information.update_triangulation();
    assert!(information.iter_triangles_in_mesh().is_empty());
    assert!(information.is_complete());
}

#[test]
fn search_shows_the_tested_triangle() {
    let mut information = engine_for(&[(0, 0), (2, 1)]);
    for _ in 0..4 {
        information.update_triangulation();
    }
    assert_eq!(information.super_triangle(), Some([p(-1, -1), p(7, -1), p(-1, 5)]));
    assert_eq!(information.state(), InternalState::GetBadTrianglesInMesh(0));
    assert_eq!(information.current_point(), Some(p(2, 1)));
    let first = [p(0, 0), p(-1, -1), p(7, -1)];
    let second = [p(0, 0), p(7, -1), p(-1, 5)];
    let third = [p(0, 0), p(-1, 5), p(-1, -1)];
    assert_eq!(information.iter_triangles_in_mesh(), &vec![first, second, third]);

    // (2,1) is at squared distance 26 from the center (3,-4) of the first
    // circumcircle, whose squared radius is 25.
    information.update_triangulation();
    assert_eq!(information.state(), InternalState::GetBadTrianglesInMesh(1));
    assert_eq!(information.good_checked_triangles_to_plot(), &vec![first]);
    assert!(information.bad_triangles_to_plot().is_empty());
    assert_eq!(
        information.circumcircles_to_plot(),
        &vec![Circle { through: p(0, 0), offset_x: 48, offset_y: -64, scale: 16 }]
    );
    assert_eq!(information.iter_triangles_in_mesh(), &vec![first, second, third]);

    // The second circumcircle has the hypotenuse of the seed as a chord and
    // holds (2,1).
    information.update_triangulation();
    assert_eq!(information.state(), InternalState::GetBadTrianglesInMesh(2));
    assert_eq!(information.bad_triangles_to_plot(), &vec![second]);
    assert!(information.good_checked_triangles_to_plot().is_empty());
    assert_eq!(information.circumcircles_to_plot(), &vec![Circle::from(second)]);
    assert_eq!(information.iter_triangles_in_mesh(), &vec![first, second, third]);

    // The third is the last: it is tested, and what was found leaves.
    information.update_triangulation();
    assert_eq!(information.state(), InternalState::RemoveBadTrianglesFromMesh(true));
    assert!(information.bad_triangles_to_plot().is_empty());
    assert!(information.good_checked_triangles_to_plot().is_empty());
    assert!(information.circumcircles_to_plot().is_empty());
    assert_eq!(information.iter_triangles_in_mesh(), &vec![first, third]);

    information.update_triangulation();
    assert_eq!(information.state(), InternalState::AddTrianglesFromPolygonEdges);
    assert_eq!(information.iter_triangles_in_mesh(), &vec![first, third]);

    information.update_triangulation();
    assert_eq!(information.state(), InternalState::GetBadTrianglesInMesh(0));
    assert_eq!(
        information.iter_triangles_in_mesh(),
        &vec![
            first,
            third,
            [p(2, 1), p(0, 0), p(7, -1)],
            [p(2, 1), p(7, -1), p(-1, 5)],
            [p(2, 1), p(-1, 5), p(0, 0)],
        ]
    );
    assert_eq!(information.current_point(), None);

    information.update_triangulation();
    assert!(information.is_complete());
    assert!(information.iter_triangles_in_mesh().is_empty());
}

#[test]
fn point_list_is_kept_once_seeded() {
    let mut information = engine_for(&[(0, 0), (10, 0), (5, 10)]);
    information.update_triangulation();
    information.set_point_list(points(&[(1, 1)]));
    assert_eq!(information.point_list(), &points(&[(0, 0), (10, 0), (5, 10)]));
    while !information.is_complete() {
        information.update_triangulation();
    }
    assert_eq!(information.iter_triangles_in_mesh().len(), 1);
    information.set_point_list(points(&[(1, 1)]));
    assert_eq!(information.point_list(), &points(&[(0, 0), (10, 0), (5, 10)]));
}

#[test]
fn point_list_is_replaced_before_seeding() {
    let mut information = engine_for(&[(0, 0), (10, 0), (5, 10)]);
    information.set_point_list(points(&[(1, 1), (2, 2)]));
    assert_eq!(information.point_list(), &points(&[(1, 1), (2, 2)]));
    assert_eq!(information.state(), InternalState::Initial);
}

#[test]
fn reset_returns_to_the_start() {
    let mut information = engine_for(&[(0, 0), (10, 0), (5, 10)]);
    for _ in 0..7 {
        information.update_triangulation();
    }
    assert!(!information.iter_triangles_in_mesh().is_empty());
    information.reset_delauney_mesh();
    assert_eq!(information.state(), InternalState::Initial);
    assert!(information.iter_triangles_in_mesh().is_empty());
    assert!(information.point_list().is_empty());
    assert_eq!(information.super_triangle(), None);
    assert_eq!(information.current_point(), None);
    assert!(information.circumcircles_to_plot().is_empty());
    // A new run can begin.
    information.set_point_list(points(&[(0, 0), (4, 0), (0, 4)]));
    while !information.is_complete() {
        information.update_triangulation();
    }
    assert_eq!(information.iter_triangles_in_mesh().len(), 1);
}

#[test]
fn super_triangle_ignores_negative_coordinates() {
    let mut information = engine_for(&[(-5, -9), (-2, 4)]);
    information.update_triangulation();
    assert_eq!(information.super_triangle(), Some([p(-1, -1), p(3, -1), p(-1, 11)]));
}

#[test]
fn super_triangle_at_the_input_limit() {
    let mut information = engine_for(&[(INPUT_LIMIT, 0), (0, INPUT_LIMIT), (5, 5)]);
    information.update_triangulation();
    assert_eq!(
        information.super_triangle(),
        Some([
            p(-1, -1),
            p(2 * INPUT_LIMIT + 3, -1),
            p(-1, 2 * INPUT_LIMIT + 3),
        ])
    );
}

#[test]
fn run_at_the_input_limit() {
    let far = INPUT_LIMIT;
    let information =
        run_to_completion(&[(0, 0), (far, 0), (far, far), (0, far), (far / 2, far / 3), (-far, -far)]);
    assert_delaunay(&information);
    assert_no_repeats(&information);
    assert!(!information.iter_triangles_in_mesh().is_empty());
}

#[test]
fn delaunay_property_after_a_full_run() {
    let coordinates = [
        (0, 0),
        (100, 7),
        (53, 98),
        (120, 93),
        (31, 44),
        (82, 21),
        (151, 33),
        (67, 59),
        (12, 81),
        (140, 140),
        (95, 120),
        (20, 130),
    ];
    let information = run_to_completion(&coordinates);
    let triangles = information.iter_triangles_in_mesh();
    assert!(!triangles.is_empty());
    assert_delaunay(&information);
    assert_no_repeats(&information);
    let seed = information.super_triangle().unwrap();
    for triangle in triangles {
        for vertex in triangle {
            assert!(!seed.contains(vertex));
            assert!(coordinates.contains(&(vertex.x, vertex.y)));
        }
    }
    // Every point away from the border of the set is a vertex of the mesh.
    for inner in [(31, 44), (82, 21), (67, 59), (95, 120)] {
        assert!(triangles.iter().any(|triangle| has_vertex(triangle, inner)));
    }
}

#[test]
fn no_circumcircle_holds_the_point_just_worked_in() {
    let coordinates = [(0, 0), (40, 3), (21, 35), (25, 12), (9, 20), (33, 27)];
    let mut information = engine_for(&coordinates);
    information.update_triangulation();
    let mut worked_in = 0;
    while worked_in < coordinates.len() {
        let point = information.current_point().unwrap();
        while information.current_point() == Some(point) {
            information.update_triangulation();
        }
        worked_in += 1;
        for triangle in information.iter_triangles_in_mesh() {
            assert!(!Circle::from(*triangle).is_point_inside_circle(point));
        }
        assert_no_repeats(&information);
    }
    assert_eq!(information.current_point(), None);
}

#[test]
fn repeated_point_adds_no_triangle() {
    let once = run_to_completion(&[(0, 0), (10, 0), (5, 10)]);
    let twice = run_to_completion(&[(0, 0), (10, 0), (5, 10), (10, 0)]);
    assert_eq!(once.iter_triangles_in_mesh(), twice.iter_triangles_in_mesh());
}

#[test]
fn removal_request_takes_out_named_triangles() {
    let mut information = engine_for(&[(0, 0)]);
    for _ in 0..4 {
        information.update_triangulation();
    }
    let first = [p(0, 0), p(-1, -1), p(3, -1)];
    let second = [p(0, 0), p(3, -1), p(-1, 3)];
    let third = [p(0, 0), p(-1, 3), p(-1, -1)];
    assert_eq!(information.iter_triangles_in_mesh(), &vec![first, second, third]);

    assert!(information.remove_all_bad_triangles_from_mesh(&[second]));
    assert_eq!(information.state(), InternalState::RemoveBadTrianglesFromMesh(true));
    assert_eq!(information.iter_triangles_in_mesh(), &vec![first, third]);

    // Asked again, the engine only moves on.
    assert!(information.remove_all_bad_triangles_from_mesh(&[first]));
    assert_eq!(information.state(), InternalState::AddTrianglesFromPolygonEdges);
    assert_eq!(information.iter_triangles_in_mesh(), &vec![first, third]);

    // A triangle that the mesh does not hold is reported.
    assert!(!information.remove_all_bad_triangles_from_mesh(&[third, second]));
    assert_eq!(information.state(), InternalState::RemoveBadTrianglesFromMesh(true));
    assert_eq!(information.iter_triangles_in_mesh(), &vec![first]);
}

#[test]
fn triangles_are_added_from_polygon_edges() {
    let mut information = DelauneyTriangulationInformation::default();
    information.add_triangles_from_polygon_edges(
        &[(p(0, 0), p(4, 0)), (p(4, 0), p(0, 4))],
        p(1, 1),
    );
    assert_eq!(
        information.iter_triangles_in_mesh(),
        &vec![[p(1, 1), p(0, 0), p(4, 0)], [p(1, 1), p(4, 0), p(0, 4)]]
    );
    assert_eq!(information.state(), InternalState::Initial);
    information.add_triangles_from_polygon_edges(&[], p(1, 1));
    assert_eq!(information.iter_triangles_in_mesh().len(), 2);
}

#[test]
fn super_triangle_encloses_points_without_negative_coordinates() {
    let coordinates = [(0, 0), (10, 0), (0, 10), (10, 10), (7, 3), (INPUT_LIMIT, INPUT_LIMIT)];
    let mut information = engine_for(&coordinates);
    information.update_triangulation();
    let seed = information.super_triangle().unwrap();
    assert_eq!(seed[0], p(-1, -1));
    assert_eq!(seed[1].y, -1);
    assert_eq!(seed[2].x, -1);
    let width = i128::from(seed[1].x) + 1;
    let height = i128::from(seed[2].y) + 1;
    for (x, y) in coordinates {
        let (x, y) = (i128::from(x), i128::from(y));
        assert!(x > -1 && y > -1);
        assert!((x + 1) * height + (y + 1) * width < width * height);
    }
}

#[test]
fn boundary_edges_are_the_sides_of_exactly_one_triangle() {
    let triangles = [
        [p(0, 0), p(2, 0), p(0, 2)],
        [p(0, 2), p(0, 0), p(-2, 0)],
        [p(-2, 0), p(0, -2), p(0, 0)],
        [p(5, 5), p(6, 5), p(5, 6)],
    ];
    let polygon = polygonal_hole_boundary(&triangles);
    let mut expected = vec![];
    for (i, triangle) in triangles.iter().enumerate() {
        for side in get_edges_from_triangle(*triangle) {
            let shared = triangles.iter().enumerate().any(|(j, other)| {
                j != i
                    && get_edges_from_triangle(*other)
                        .iter()
                        .any(|other_side| edges_are_equal(side, *other_side))
            });
            if !shared {
                expected.push(side);
            }
        }
    }
    assert_eq!(polygon, expected);
    assert_eq!(polygon.len(), 8);
}
