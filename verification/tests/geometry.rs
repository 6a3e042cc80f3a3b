use delauney_triangulation::circle::Circle;
use delauney_triangulation::internal_state::InternalState;
use delauney_triangulation::math::{
    edges_are_equal, get_edges_from_triangle, triangles_are_equal, triangles_share_vertex, Point,
    COORDINATE_LIMIT, INPUT_LIMIT,
};

fn p(x: i64, y: i64) -> Point {
    Point::new(x, y)
}

#[test]
fn point_new_keeps_coordinates() {
    let point = Point::new(3, -7);
    assert_eq!(point.x, 3);
    assert_eq!(point.y, -7);
    assert_eq!(point, Point { x: 3, y: -7 });
}

#[test]
fn point_input_limits() {
    assert!(p(0, 0).check_input());
    assert!(p(INPUT_LIMIT, -INPUT_LIMIT).check_input());
    assert!(!p(INPUT_LIMIT + 1, 0).check_input());
    assert!(!p(0, -INPUT_LIMIT - 1).check_input());
    assert_eq!(2 * INPUT_LIMIT + 3, COORDINATE_LIMIT - 1);
}

#[test]
fn edges_of_triangle_in_vertex_order() {
    let edges = get_edges_from_triangle([p(0, 0), p(4, 0), p(0, 3)]);
    assert_eq!(edges[0], (p(0, 0), p(4, 0)));
    assert_eq!(edges[1], (p(4, 0), p(0, 3)));
    assert_eq!(edges[2], (p(0, 3), p(0, 0)));
}

#[test]
fn edge_equals_itself_and_its_reverse() {
    let a = p(1, 2);
    let b = p(-3, 5);
    assert!(edges_are_equal((a, b), (a, b)));
    assert!(edges_are_equal((a, b), (b, a)));
    assert!(edges_are_equal((b, a), (a, b)));
    assert!(edges_are_equal((a, a), (a, a)));
}

#[test]
fn edge_equality_is_symmetric_on_a_grid() {
    let points = [p(0, 0), p(1, 0), p(0, 1), p(-2, 3)];
    for a in points {
        for b in points {
            assert!(edges_are_equal((a, b), (b, a)));
            for c in points {
                for d in points {
                    assert_eq!(edges_are_equal((a, b), (c, d)), edges_are_equal((c, d), (a, b)));
                }
            }
        }
    }
}

#[test]
fn different_edges_are_not_equal() {
    assert!(!edges_are_equal((p(0, 0), p(1, 0)), (p(0, 0), p(0, 1))));
    assert!(!edges_are_equal((p(0, 0), p(1, 0)), (p(1, 0), p(1, 0))));
    assert!(!edges_are_equal((p(0, 0), p(1, 0)), (p(0, 0), p(0, 0))));
}

#[test]
fn triangle_equality_is_by_order() {
    let a = p(0, 0);
    let b = p(4, 0);
    let c = p(0, 3);
    assert!(triangles_are_equal([a, b, c], [a, b, c]));
    assert!(!triangles_are_equal([a, b, c], [b, c, a]));
    assert!(!triangles_are_equal([a, b, c], [a, c, b]));
    assert!(!triangles_are_equal([a, b, c], [a, b, p(0, 4)]));
}

#[test]
fn triangles_sharing_a_vertex() {
    let first = [p(0, 0), p(4, 0), p(0, 3)];
    assert!(triangles_share_vertex(first, [p(9, 9), p(8, 8), p(0, 3)]));
    assert!(triangles_share_vertex(first, [p(4, 0), p(8, 8), p(7, 7)]));
    assert!(triangles_share_vertex(first, first));
    assert!(!triangles_share_vertex(first, [p(9, 9), p(8, 8), p(7, 7)]));
}

#[test]
fn circumcircle_of_right_triangle() {
    let circle = Circle::from([p(-1, -1), p(3, -1), p(-1, 3)]);
    assert_eq!(circle.through, p(-1, -1));
    assert_eq!(circle.offset_x, 64);
    assert_eq!(circle.offset_y, 64);
    assert_eq!(circle.scale, 32);
}

#[test]
fn circumcircle_of_clockwise_triangle() {
    let circle = Circle::from([p(0, 0), p(-1, -1), p(7, -1)]);
    assert_eq!(circle.through, p(0, 0));
    assert_eq!(circle.offset_x, 48);
    assert_eq!(circle.offset_y, -64);
    assert_eq!(circle.scale, 16);
    let other_way = Circle::from([p(0, 0), p(7, -1), p(-1, -1)]);
    assert_eq!(other_way.offset_x, -48);
    assert_eq!(other_way.offset_y, 64);
    assert_eq!(other_way.scale, -16);
}

#[test]
fn vertices_are_on_the_circle_not_inside() {
    let triangles = [
        [p(0, 0), p(10, 0), p(5, 10)],
        [p(0, 0), p(5, 10), p(10, 0)],
        [p(-1, -1), p(3, -1), p(-1, 3)],
        [p(7, 2), p(-4, 9), p(1, -6)],
    ];
    for triangle in triangles {
        let circle = Circle::from(triangle);
        for vertex in triangle {
            assert!(!circle.is_point_inside_circle(vertex));
        }
    }
}

#[test]
fn center_is_inside_the_circle() {
    // Circle through (0,0), (2,0) and (0,2): center (1,1), squared radius 2.
    let circle = Circle::from([p(0, 0), p(2, 0), p(0, 2)]);
    assert!(circle.is_point_inside_circle(p(1, 1)));
}

#[test]
fn point_inside_circle_is_strict() {
    // Center (3,-4), radius 5.
    for circle in [
        Circle::from([p(0, 0), p(-1, -1), p(7, -1)]),
        Circle::from([p(0, 0), p(7, -1), p(-1, -1)]),
    ] {
        assert!(circle.is_point_inside_circle(p(3, -4)));
        assert!(circle.is_point_inside_circle(p(3, 0)));
        assert!(circle.is_point_inside_circle(p(7, -4)));
        assert!(!circle.is_point_inside_circle(p(8, -4)));
        assert!(!circle.is_point_inside_circle(p(3, 1)));
        assert!(!circle.is_point_inside_circle(p(6, 0)));
        assert!(!circle.is_point_inside_circle(p(2, 1)));
        assert!(!circle.is_point_inside_circle(p(9, -4)));
        assert!(!circle.is_point_inside_circle(p(100, 100)));
    }
}

#[test]
fn fourth_corner_of_square_is_not_inside() {
    let circle = Circle::from([p(0, 0), p(10, 0), p(10, 10)]);
    assert!(!circle.is_point_inside_circle(p(0, 10)));
    assert!(circle.is_point_inside_circle(p(1, 9)));
    assert!(!circle.is_point_inside_circle(p(-1, 11)));
}

#[test]
fn flat_triangle_holds_no_point() {
    let circle = Circle::from([p(0, 0), p(1, 0), p(2, 0)]);
    assert_eq!(circle.scale, 0);
    for point in [p(0, 0), p(1, 0), p(1, 1), p(1, -1), p(50, 50)] {
        assert!(!circle.is_point_inside_circle(point));
    }
    let repeated = Circle::from([p(3, 3), p(3, 3), p(3, 3)]);
    assert!(!repeated.is_point_inside_circle(p(3, 3)));
    assert!(!repeated.is_point_inside_circle(p(0, 0)));
}

#[test]
fn default_circle_holds_no_point() {
    let circle = Circle::default();
    assert_eq!(circle.scale, 0);
    assert!(!circle.is_point_inside_circle(p(0, 0)));
    assert!(!circle.is_point_inside_circle(p(5, -5)));
}

#[test]
fn circle_at_the_coordinate_limit() {
    let far = COORDINATE_LIMIT;
    let circle = Circle::from([p(-far, -far), p(far, -far), p(-far, far)]);
    // Center (0,0).
    assert!(circle.is_point_inside_circle(p(0, 0)));
    assert!(circle.is_point_inside_circle(p(far, 0)));
    assert!(circle.is_point_inside_circle(p(far - 1, far - 1)));
    assert!(!circle.is_point_inside_circle(p(far, far)));
    assert!(!circle.is_point_inside_circle(p(-far, far)));
    let turned = Circle::from([p(-far, -far), p(-far, far), p(far, -far)]);
    assert!(turned.is_point_inside_circle(p(far - 1, far - 1)));
    assert!(!turned.is_point_inside_circle(p(far, far)));
}

#[test]
fn state_positions() {
    assert_eq!(InternalState::Initial.to_usize(), 0);
    assert_eq!(InternalState::GetBadTrianglesInMesh(0).to_usize(), 1);
    assert_eq!(InternalState::GetBadTrianglesInMesh(17).to_usize(), 1);
    assert_eq!(InternalState::PolygonalHole.to_usize(), 2);
    assert_eq!(InternalState::RemoveBadTrianglesFromMesh(false).to_usize(), 3);
    assert_eq!(InternalState::RemoveBadTrianglesFromMesh(true).to_usize(), 3);
    assert_eq!(InternalState::AddTrianglesFromPolygonEdges.to_usize(), 4);
}

#[test]
fn states_are_ordered_by_position() {
    assert!(InternalState::Initial < InternalState::GetBadTrianglesInMesh(0));
    assert!(InternalState::GetBadTrianglesInMesh(9) < InternalState::PolygonalHole);
    assert!(InternalState::PolygonalHole < InternalState::RemoveBadTrianglesFromMesh(false));
    assert!(
        InternalState::RemoveBadTrianglesFromMesh(true)
            < InternalState::AddTrianglesFromPolygonEdges
    );
    assert!(
        InternalState::RemoveBadTrianglesFromMesh(false)
            <= InternalState::RemoveBadTrianglesFromMesh(true)
    );
    assert!(
        !(InternalState::RemoveBadTrianglesFromMesh(false)
            < InternalState::RemoveBadTrianglesFromMesh(true))
    );
    assert!(!(InternalState::AddTrianglesFromPolygonEdges < InternalState::Initial));
    assert_eq!(InternalState::default(), InternalState::Initial);
}
