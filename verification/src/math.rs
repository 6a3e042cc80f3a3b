//! Points, triangles and edges, and the comparisons between them.

use vstd::prelude::*;

verus! {

/// The largest absolute value that a coordinate of a mesh vertex may have.
/// Within it every quantity of the circumcircle test fits in 128 bits.
pub const COORDINATE_LIMIT: i64 = 0x2000_0000;

/// The largest absolute value that a coordinate of a point handed in for
/// triangulation may have. A bounding triangle built around such points
/// stays within `COORDINATE_LIMIT`.
pub const INPUT_LIMIT: i64 = 0x0fff_fffe;

/// A point of the plane. Two points are equal exactly when both coordinates
/// are.
#[derive(Clone, Copy, Debug, PartialEq, Eq, Structural)]
pub struct Point {
    pub x: i64,
    pub y: i64,
}

/// Three vertices in a fixed order. Triangles are compared vertex by vertex:
/// the same three points in another order are another value.
pub type Triangle = [Point; 3];

/// One side of a triangle, from its first end to its second.
pub type Edge = (Point, Point);

impl Point {
    /// Both coordinates are small enough for a mesh vertex.
    pub open spec fn in_range(self) -> bool {
        &&& -COORDINATE_LIMIT <= self.x <= COORDINATE_LIMIT
        &&& -COORDINATE_LIMIT <= self.y <= COORDINATE_LIMIT
    }

    /// Both coordinates are small enough for a point to triangulate.
    pub open spec fn is_input(self) -> bool {
        &&& -INPUT_LIMIT <= self.x <= INPUT_LIMIT
        &&& -INPUT_LIMIT <= self.y <= INPUT_LIMIT
    }

    pub fn new(x: i64, y: i64) -> (p: Point)
        ensures
            p == (Point { x, y }),
    {
        Point { x, y }
    }

    /// Tells whether the point may be handed in for triangulation.
    pub fn check_input(&self) -> (ok: bool)
        ensures
            ok == self.is_input(),
    {
        -INPUT_LIMIT <= self.x && self.x <= INPUT_LIMIT && -INPUT_LIMIT <= self.y && self.y
            <= INPUT_LIMIT
    }
}

/// All three vertices are in range.
pub open spec fn triangle_in_range(t: Triangle) -> bool {
    t[0].in_range() && t[1].in_range() && t[2].in_range()
}

/// Both ends are in range.
pub open spec fn edge_in_range(e: Edge) -> bool {
    e.0.in_range() && e.1.in_range()
}

/// The sides of a triangle in vertex order: first to second, second to
/// third, third back to first.
pub open spec fn edges_of(t: Triangle) -> Seq<Edge> {
    seq![(t[0], t[1]), (t[1], t[2]), (t[2], t[0])]
}

/// The same edge walked the other way.
pub open spec fn reversed(e: Edge) -> Edge {
    (e.1, e.0)
}

/// Two edges match when they join the same two points, in either direction.
pub open spec fn edges_match(e1: Edge, e2: Edge) -> bool {
    e1 == e2 || reversed(e1) == e2
}

/// `p` is one of the vertices of `t`.
pub open spec fn has_vertex(t: Triangle, p: Point) -> bool {
    t[0] == p || t[1] == p || t[2] == p
}

/// The two triangles have a vertex in common.
pub open spec fn share_vertex(t: Triangle, u: Triangle) -> bool {
    has_vertex(t, u[0]) || has_vertex(t, u[1]) || has_vertex(t, u[2])
}

#[must_use]
pub fn get_edges_from_triangle(triangle: Triangle) -> (edges: [Edge; 3])
    ensures
        edges@ == edges_of(triangle),
{
    let edges = [
        (triangle[0], triangle[1]),
        (triangle[1], triangle[2]),
        (triangle[2], triangle[0]),
    ];
    assert(edges@ =~= edges_of(triangle));
    edges
}

#[must_use]
pub fn edges_are_equal(edge1: Edge, edge2: Edge) -> (equal: bool)
    ensures
        equal == edges_match(edge1, edge2),
{
    let flipped_edge1 = (edge1.1, edge1.0);
    (edge1.0 == edge2.0 && edge1.1 == edge2.1) || (flipped_edge1.0 == edge2.0 && flipped_edge1.1
        == edge2.1)
}

/// Compares two triangles vertex by vertex, in order.
#[must_use]
pub fn triangles_are_equal(triangle1: Triangle, triangle2: Triangle) -> (equal: bool)
    ensures
        equal == (triangle1 == triangle2),
{
    let equal = triangle1[0] == triangle2[0] && triangle1[1] == triangle2[1] && triangle1[2]
        == triangle2[2];
    proof {
        if equal {
            assert(triangle1 =~= triangle2);
        }
    }
    equal
}

/// Tells whether the two triangles have a vertex in common.
#[must_use]
pub fn triangles_share_vertex(triangle1: Triangle, triangle2: Triangle) -> (shared: bool)
    ensures
        shared == share_vertex(triangle1, triangle2),
{
    let mut shared = false;
    for i in 0..3usize
        invariant
            shared == exists|k: int| 0 <= k < i && has_vertex(triangle1, #[trigger] triangle2[k]),
    {
        let vertex = triangle2[i];
        if triangle1[0] == vertex || triangle1[1] == vertex || triangle1[2] == vertex {
            shared = true;
        }
    }
    shared
}

/// An edge matches itself walked the other way.
pub proof fn lemma_edge_matches_its_reverse(p: Point, q: Point)
    ensures
        edges_match((p, q), (q, p)),
{
}

/// Matching does not depend on which edge is named first.
pub proof fn lemma_edges_match_symmetric(e1: Edge, e2: Edge)
    ensures
        edges_match(e1, e2) == edges_match(e2, e1),
{
}

} // verus!
