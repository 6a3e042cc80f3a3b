//! The boundary of the hole that a set of triangles leaves when it is taken
//! out of a mesh.

use crate::math::{edges_are_equal, edges_match, edges_of, get_edges_from_triangle, Edge, Triangle};
use vstd::prelude::*;

verus! {

/// `e` matches one of the three sides of `t`.
pub open spec fn is_side_of(e: Edge, t: Triangle) -> bool {
    edges_match(e, edges_of(t)[0]) || edges_match(e, edges_of(t)[1]) || edges_match(
        e,
        edges_of(t)[2],
    )
}

/// Side `k` of triangle `i` is also a side of one of the first `count`
/// triangles of the list, triangle `i` itself left aside.
pub open spec fn shared_among(triangles: Seq<Triangle>, i: int, k: int, count: int) -> bool {
    exists|j: int|
        0 <= j < count && j != i && is_side_of(edges_of(triangles[i])[k], #[trigger] triangles[j])
}

/// Side `k` of triangle `i` is also a side of another triangle of the list.
pub open spec fn is_shared(triangles: Seq<Triangle>, i: int, k: int) -> bool {
    shared_among(triangles, i, k, triangles.len() as int)
}

/// The sides of triangle `i` that no other triangle of the list has, in
/// vertex order.
pub open spec fn own_sides(triangles: Seq<Triangle>, i: int) -> Seq<Edge> {
    let sides = edges_of(triangles[i]);
    let first = if is_shared(triangles, i, 0) {
        Seq::<Edge>::empty()
    } else {
        seq![sides[0]]
    };
    let second = if is_shared(triangles, i, 1) {
        Seq::<Edge>::empty()
    } else {
        seq![sides[1]]
    };
    let third = if is_shared(triangles, i, 2) {
        Seq::<Edge>::empty()
    } else {
        seq![sides[2]]
    };
    first + second + third
}

/// The own sides of the first `count` triangles, triangle after triangle.
pub open spec fn own_sides_of_first(triangles: Seq<Triangle>, count: nat) -> Seq<Edge>
    decreases count,
{
    if count == 0 {
        Seq::<Edge>::empty()
    } else {
        own_sides_of_first(triangles, (count - 1) as nat) + own_sides(triangles, count - 1)
    }
}

/// The boundary of the hole: every side of every triangle of the list that
/// no other triangle of the list has, in the order of the list.
pub open spec fn hole_boundary(triangles: Seq<Triangle>) -> Seq<Edge> {
    own_sides_of_first(triangles, triangles.len())
}

/// `e` is side `k` of triangle `i` of the list, and no other triangle of
/// the list has that side.
pub open spec fn is_own_side(triangles: Seq<Triangle>, i: int, k: int, e: Edge) -> bool {
    &&& 0 <= i < triangles.len()
    &&& 0 <= k < 3
    &&& !is_shared(triangles, i, k)
    &&& e == edges_of(triangles[i])[k]
}

/// Computes the boundary of the hole that `bad_triangles` leave: the sides
/// that belong to exactly one of them.
pub fn polygonal_hole_boundary(bad_triangles: &[Triangle]) -> (polygon: Vec<Edge>)
    ensures
        polygon@ == hole_boundary(bad_triangles@),
{
    let mut polygon: Vec<Edge> = Vec::new();
    let count = bad_triangles.len();
    for idx in 0..count
        invariant
            count == bad_triangles@.len(),
            polygon@ == own_sides_of_first(bad_triangles@, idx as nat),
    {
        let triangle_edges = get_edges_from_triangle(bad_triangles[idx]);
        let mut triangle_edge_that_has_match = (false, false, false);

        for idx_c in 0..count
            invariant
                count == bad_triangles@.len(),
                idx < count,
                triangle_edges@ == edges_of(bad_triangles@[idx as int]),
                triangle_edge_that_has_match.0 == shared_among(
                    bad_triangles@,
                    idx as int,
                    0,
                    idx_c as int,
                ),
                triangle_edge_that_has_match.1 == shared_among(
                    bad_triangles@,
                    idx as int,
                    1,
                    idx_c as int,
                ),
                triangle_edge_that_has_match.2 == shared_among(
                    bad_triangles@,
                    idx as int,
                    2,
                    idx_c as int,
                ),
        {
            if idx != idx_c {
                let triangle_edges_c = get_edges_from_triangle(bad_triangles[idx_c]);
                let ghost other = bad_triangles@[idx_c as int];

                for side in 0..3usize
                    invariant
                        triangle_edges_c@ == edges_of(other),
                        triangle_edge_that_has_match.0 == (shared_among(
                            bad_triangles@,
                            idx as int,
                            0,
                            idx_c as int,
                        ) || exists|m: int|
                            0 <= m < side && edges_match(
                                triangle_edges@[0],
                                #[trigger] edges_of(other)[m],
                            )),
                        triangle_edge_that_has_match.1 == (shared_among(
                            bad_triangles@,
                            idx as int,
                            1,
                            idx_c as int,
                        ) || exists|m: int|
                            0 <= m < side && edges_match(
                                triangle_edges@[1],
                                #[trigger] edges_of(other)[m],
                            )),
                        triangle_edge_that_has_match.2 == (shared_among(
                            bad_triangles@,
                            idx as int,
                            2,
                            idx_c as int,
                        ) || exists|m: int|
                            0 <= m < side && edges_match(
                                triangle_edges@[2],
                                #[trigger] edges_of(other)[m],
                            )),
                {
                    let edge = triangle_edges_c[side];
                    if edges_are_equal(triangle_edges[0], edge) {
                        triangle_edge_that_has_match.0 = true;
                    }
                    if edges_are_equal(triangle_edges[1], edge) {
                        triangle_edge_that_has_match.1 = true;
                    }
                    if edges_are_equal(triangle_edges[2], edge) {
                        triangle_edge_that_has_match.2 = true;
                    }
                }
            }
        }

        if !triangle_edge_that_has_match.0 {
            polygon.push(triangle_edges[0]);
        }
        if !triangle_edge_that_has_match.1 {
            polygon.push(triangle_edges[1]);
        }
        if !triangle_edge_that_has_match.2 {
            polygon.push(triangle_edges[2]);
        }
    }

    polygon
}

proof fn lemma_own_sides_contains(triangles: Seq<Triangle>, i: int, e: Edge)
    requires
        0 <= i < triangles.len(),
    ensures
        own_sides(triangles, i).contains(e) <==> exists|k: int|
            #[trigger] is_own_side(triangles, i, k, e),
{
    let sides = own_sides(triangles, i);
    if sides.contains(e) {
        let at = choose|at: int| 0 <= at < sides.len() && sides[at] == e;
        let k = if e == edges_of(triangles[i])[0] && !is_shared(triangles, i, 0) {
            0int
        } else if e == edges_of(triangles[i])[1] && !is_shared(triangles, i, 1) {
            1int
        } else {
            2int
        };
        assert(is_own_side(triangles, i, k, e));
    }
    if exists|k: int| #[trigger] is_own_side(triangles, i, k, e) {
        let k = choose|k: int| #[trigger] is_own_side(triangles, i, k, e);
        let before = (if !is_shared(triangles, i, 0) && k > 0 {
            1int
        } else {
            0int
        }) + (if !is_shared(triangles, i, 1) && k > 1 {
            1int
        } else {
            0int
        });
        assert(sides[before] == e);
    }
}

/// An edge is on the boundary of the hole exactly when it is a side of one
/// triangle of the list and of no other.
pub proof fn lemma_hole_boundary_contains(triangles: Seq<Triangle>, e: Edge)
    ensures
        hole_boundary(triangles).contains(e) <==> exists|i: int, k: int|
            #[trigger] is_own_side(triangles, i, k, e),
{
    lemma_own_sides_of_first_contains(triangles, triangles.len(), e);
    if hole_boundary(triangles).contains(e) {
        let (i, k) = choose|i: int, k: int|
            i < triangles.len() && #[trigger] is_own_side(triangles, i, k, e);
        assert(is_own_side(triangles, i, k, e));
    }
}

/// Where the first two vertices of every triangle of the list differ, no
/// edge stands twice on the boundary of the hole.
pub proof fn lemma_hole_boundary_has_no_repeats(triangles: Seq<Triangle>)
    requires
        forall|i: int| 0 <= i < triangles.len() ==> (#[trigger] triangles[i])[0] != triangles[i][1],
    ensures
        hole_boundary(triangles).no_duplicates(),
{
    lemma_own_sides_of_first_have_no_repeats(triangles, triangles.len());
}

proof fn lemma_own_sides_of_first_have_no_repeats(triangles: Seq<Triangle>, count: nat)
    requires
        count <= triangles.len(),
        forall|i: int| 0 <= i < triangles.len() ==> (#[trigger] triangles[i])[0] != triangles[i][1],
    ensures
        own_sides_of_first(triangles, count).no_duplicates(),
    decreases count,
{
    if count > 0 {
        let earlier = own_sides_of_first(triangles, (count - 1) as nat);
        let latest = own_sides(triangles, count - 1);
        lemma_own_sides_of_first_have_no_repeats(triangles, (count - 1) as nat);
        let last = triangles[count - 1];
        assert(last[0] != last[1]);
        assert(latest.no_duplicates());
        assert forall|i: int, j: int|
            0 <= i < earlier.len() && 0 <= j < latest.len() implies earlier[i] != latest[j] by {
            let e = latest[j];
            if earlier[i] == e {
                assert(earlier.contains(e));
                assert(latest.contains(e));
                lemma_own_sides_of_first_contains(triangles, (count - 1) as nat, e);
                lemma_own_sides_contains(triangles, count - 1, e);
                let (at, side) = choose|at: int, side: int|
                    at < count - 1 && #[trigger] is_own_side(triangles, at, side, e);
                let own = choose|own: int| #[trigger] is_own_side(triangles, count - 1, own, e);
                assert(is_side_of(edges_of(last)[own], triangles[at]));
                assert(shared_among(triangles, count - 1, own, triangles.len() as int));
            }
        }
        vstd::seq_lib::lemma_no_dup_in_concat(earlier, latest);
    }
}

proof fn lemma_own_sides_of_first_contains(triangles: Seq<Triangle>, count: nat, e: Edge)
    requires
        count <= triangles.len(),
    ensures
        own_sides_of_first(triangles, count).contains(e) <==> exists|i: int, k: int|
            i < count && #[trigger] is_own_side(triangles, i, k, e),
    decreases count,
{
    if count > 0 {
        let earlier = own_sides_of_first(triangles, (count - 1) as nat);
        let latest = own_sides(triangles, count - 1);
        lemma_own_sides_of_first_contains(triangles, (count - 1) as nat, e);
        lemma_own_sides_contains(triangles, count - 1, e);
        if (earlier + latest).contains(e) {
            let at = choose|at: int| 0 <= at < (earlier + latest).len() && (earlier + latest)[at] == e;
            if at < earlier.len() {
                assert(earlier[at] == e);
                let (i, k) = choose|i: int, k: int|
                    i < count - 1 && #[trigger] is_own_side(triangles, i, k, e);
                assert(i < count && is_own_side(triangles, i, k, e));
            } else {
                assert(latest[at - earlier.len()] == e);
                let k = choose|k: int| #[trigger] is_own_side(triangles, count - 1, k, e);
                assert(count - 1 < count && is_own_side(triangles, count - 1, k, e));
            }
        }
        if exists|i: int, k: int| i < count && #[trigger] is_own_side(triangles, i, k, e) {
            let (i, k) = choose|i: int, k: int|
                i < count && #[trigger] is_own_side(triangles, i, k, e);
            if i < count - 1 {
                assert(earlier.contains(e));
                let at = choose|at: int| 0 <= at < earlier.len() && earlier[at] == e;
                assert((earlier + latest)[at] == e);
            } else {
                assert(is_own_side(triangles, count - 1, k, e));
                assert(latest.contains(e));
                let at = choose|at: int| 0 <= at < latest.len() && latest[at] == e;
                assert((earlier + latest)[earlier.len() + at] == e);
            }
        }
    }
}

} // verus!
