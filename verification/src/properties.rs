//! What holds of every run of the engine, proved of its units of work.

use crate::cavity::{
    hole_boundary, is_own_side, lemma_hole_boundary_contains, lemma_hole_boundary_has_no_repeats,
};
use crate::circle::{in_circumcircle, lemma_vertex_not_in_circumcircle};
use crate::delauney_triangulation::{
    bad_for, detached_from, fan, good_for, greatest_x, greatest_y, super_triangle_for, triangle_on,
    TriangulationView,
};
use crate::internal_state::InternalState;
use crate::math::{has_vertex, share_vertex, Point, Triangle};
use crate::mesh::{each_is_found, lemma_without_each_chosen};
use vstd::prelude::*;

verus! {

/// Keeping the triangles that meet a condition which all of them meet
/// keeps the whole list.
proof fn lemma_filter_keeps_all(triangles: Seq<Triangle>, kept: spec_fn(Triangle) -> bool)
    requires
        forall|i: int| 0 <= i < triangles.len() ==> kept(#[trigger] triangles[i]),
    ensures
        triangles.filter(kept) == triangles,
    decreases triangles.len(),
{
    if triangles.len() == 0 {
        reveal(Seq::filter);
    } else {
        let front = triangles.drop_last();
        assert(front.push(triangles.last()) == triangles);
        assert forall|i: int| 0 <= i < front.len() implies kept(#[trigger] front[i]) by {
            assert(front[i] == triangles[i]);
        }
        lemma_filter_keeps_all(front, kept);
        front.lemma_filter_push(triangles.last(), kept);
    }
}

/// Once no point is left, one more unit of work ends the run: afterwards no
/// triangle of the mesh has a vertex in common with the bounding triangle.
pub proof fn lemma_last_unit_completes(v: TriangulationView)
    requires
        !(v.state is Initial),
        v.out_of_points(),
    ensures
        v.step().is_complete(),
{
    match v.super_triangle {
        Some(seed) => {
            let left = v.mesh.filter(detached_from(seed));
            assert(v.step().mesh == left);
            assert forall|i: int| 0 <= i < left.len() implies !share_vertex(
                seed,
                #[trigger] left[i],
            ) by {
                v.mesh.lemma_filter_pred(detached_from(seed), i);
            }
        },
        None => {},
    }
}

/// How many points are still to be worked in.
pub open spec fn points_left(v: TriangulationView) -> nat {
    if v.out_of_points() {
        0
    } else {
        (v.point_list.len() - v.current_point_idx) as nat
    }
}

/// How many phases lie between the state and the next point, counted from
/// the phase alone.
pub open spec fn phases_left(v: TriangulationView) -> nat {
    match v.state {
        InternalState::Initial => 6,
        InternalState::GetBadTrianglesInMesh(_) => 5,
        InternalState::PolygonalHole => 4,
        InternalState::RemoveBadTrianglesFromMesh(false) => 3,
        InternalState::RemoveBadTrianglesFromMesh(true) => 2,
        InternalState::AddTrianglesFromPolygonEdges => 1,
    }
}

/// How many triangles the search has not reached yet.
pub open spec fn triangles_left(v: TriangulationView) -> nat {
    match v.state {
        InternalState::GetBadTrianglesInMesh(position) => if position < v.mesh.len() {
            (v.mesh.len() - position) as nat
        } else {
            0
        },
        _ => 0,
    }
}

/// Every run comes to an end: from any state, some number of units of work
/// leads to a run that is over, as long as the mesh never holds more
/// triangles than a machine can count. The number is handed back.
pub proof fn lemma_run_ends(v: TriangulationView) -> (units: nat)
    requires
        forall|n: nat| (#[trigger] v.after(n)).mesh.len() <= usize::MAX,
    ensures
        v.after(units).is_complete(),
    decreases points_left(v), phases_left(v), triangles_left(v),
{
    if !(v.state is Initial) && v.out_of_points() {
        lemma_last_unit_completes(v);
        assert(v.after(1) == v.step()) by {
            reveal_with_fuel(TriangulationView::after, 2);
        }
        1
    } else {
        assert(v.after(0) == v);
        assert forall|n: nat| (#[trigger] v.step().after(n)).mesh.len() <= usize::MAX by {
            assert(v.after(n + 1) == v.step().after(n));
        }
        lemma_run_ends(v.step()) + 1
    }
}

/// A run that is over stays as it is: further units of work change neither
/// the mesh nor anything else that the engine holds, beyond clearing what
/// was left for display.
pub proof fn lemma_complete_run_stays(v: TriangulationView)
    requires
        v.is_complete(),
    ensures
        v.step() == v.without_hints(),
        v.step().mesh == v.mesh,
        v.step().is_complete(),
        v.step().step() == v.step(),
{
    match v.super_triangle {
        Some(seed) => {
            lemma_filter_keeps_all(v.mesh, detached_from(seed));
        },
        None => {},
    }
    let after = v.step();
    assert(after == v.without_hints());
    match after.super_triangle {
        Some(seed) => {
            lemma_filter_keeps_all(after.mesh, detached_from(seed));
        },
        None => {},
    }
    assert(after.without_hints() == after);
}

/// The unit of work that tests the last triangle of the mesh finds every
/// triangle whose circumcircle holds the current point strictly inside,
/// keeps the boundary of the hole that they leave, and takes them out: each
/// of them is found in the mesh, and the triangles that stay are exactly
/// those whose circumcircle does not hold the point, in their old order.
pub proof fn lemma_search_end_empties_hole(v: TriangulationView)
    requires
        v.wf(),
        !v.out_of_points(),
        v.state matches InternalState::GetBadTrianglesInMesh(position) && position + 1
            >= v.mesh.len(),
    ensures
        v.step().state == InternalState::RemoveBadTrianglesFromMesh(true),
        v.step().bad_triangles == v.mesh.filter(bad_for(v.current_point())),
        v.step().polygon_for_new_triangles == hole_boundary(v.step().bad_triangles),
        each_is_found(v.mesh, v.step().bad_triangles),
        v.step().mesh == v.mesh.filter(good_for(v.current_point())),
{
    let position = v.state->GetBadTrianglesInMesh_0 as int;
    let point = v.current_point();
    let start = v.without_hints();
    let tested = start.classified(position);
    assert(tested.bad_triangles == v.mesh.filter(bad_for(point))) by {
        if position < v.mesh.len() {
            assert(v.mesh.take(position).push(v.mesh[position]) == v.mesh);
            v.mesh.take(position).lemma_filter_push(v.mesh[position], bad_for(point));
        } else {
            assert(v.mesh.take(position) == v.mesh);
        }
    }
    lemma_without_each_chosen(v.mesh, bad_for(point), good_for(point));
}

/// When the hole has been filled, no triangle of the mesh holds the point
/// just worked in strictly inside its circumcircle: not the triangles that
/// stayed, and not the new ones, which have the point for a vertex. Stated
/// of the three units of work from the end of the search to the filling of
/// the hole.
pub proof fn lemma_new_point_in_no_circumcircle(v: TriangulationView)
    requires
        v.wf(),
        !v.out_of_points(),
        v.state matches InternalState::GetBadTrianglesInMesh(position) && position + 1
            >= v.mesh.len(),
    ensures
        v.step().step().step().state == InternalState::GetBadTrianglesInMesh(0),
        v.step().step().step().current_point_idx == v.current_point_idx + 1,
        v.step().step().step().mesh == v.mesh.filter(good_for(v.current_point())) + fan(
            v.current_point(),
            hole_boundary(v.mesh.filter(bad_for(v.current_point()))),
        ),
        forall|i: int|
            0 <= i < v.step().step().step().mesh.len() ==> !in_circumcircle(
                #[trigger] v.step().step().step().mesh[i],
                v.current_point(),
            ),
{
    lemma_search_end_empties_hole(v);
    let point = v.current_point();
    let emptied = v.step();
    let ready = emptied.step();
    let filled = ready.step();
    let stayed = v.mesh.filter(good_for(point));
    let polygon = hole_boundary(v.mesh.filter(bad_for(point)));
    assert(ready == (TriangulationView {
        state: InternalState::AddTrianglesFromPolygonEdges,
        ..emptied
    }));
    assert(filled.mesh == stayed + fan(point, polygon));
    assert forall|i: int| 0 <= i < filled.mesh.len() implies !in_circumcircle(
        #[trigger] filled.mesh[i],
        point,
    ) by {
        if i < stayed.len() {
            v.mesh.lemma_filter_pred(good_for(point), i);
        } else {
            let edge = polygon[i - stayed.len()];
            assert(filled.mesh[i] == triangle_on(point, edge));
            lemma_vertex_not_in_circumcircle(filled.mesh[i], point);
        }
    }
}

/// Keeping some triangles of a list in which none stands twice gives a
/// list in which none stands twice.
proof fn lemma_filter_keeps_apart(triangles: Seq<Triangle>, kept: spec_fn(Triangle) -> bool)
    requires
        triangles.no_duplicates(),
    ensures
        triangles.filter(kept).no_duplicates(),
    decreases triangles.len(),
{
    if triangles.len() == 0 {
        reveal(Seq::filter);
    } else {
        let front = triangles.drop_last();
        let last = triangles.last();
        assert(front.push(last) == triangles);
        lemma_filter_keeps_apart(front, kept);
        front.lemma_filter_push(last, kept);
        if kept(last) {
            let chosen = front.filter(kept);
            assert forall|i: int| 0 <= i < chosen.len() implies chosen[i] != last by {
                assert(chosen.contains(chosen[i]));
                front.lemma_filter_contains_rev(kept, chosen[i]);
                let at = choose|at: int| 0 <= at < front.len() && front[at] == chosen[i];
                assert(triangles[at] == chosen[i]);
            }
        }
    }
}

/// `p` is a corner of the bounding triangle or one of the points that have
/// been worked into the mesh.
pub open spec fn is_known_vertex(v: TriangulationView, p: Point) -> bool {
    ||| v.super_triangle matches Some(seed) && has_vertex(seed, p)
    ||| exists|i: int|
        0 <= i < v.current_point_idx && i < v.point_list.len() && #[trigger] v.point_list[i] == p
}

/// The first two vertices of `t` differ, and all three are known.
pub open spec fn is_sound_triangle(v: TriangulationView, t: Triangle) -> bool {
    &&& t[0] != t[1]
    &&& is_known_vertex(v, t[0])
    &&& is_known_vertex(v, t[1])
    &&& is_known_vertex(v, t[2])
}

/// What holds between the units of work of a run on points of which no two
/// are equal and none is `(-1, -1)`, the one point that could be taken for
/// a corner of the bounding triangle. Above all: no triangle stands twice
/// in the mesh.
pub open spec fn is_tidy(v: TriangulationView) -> bool {
    &&& v.point_list.no_duplicates()
    &&& forall|i: int|
        0 <= i < v.point_list.len() ==> #[trigger] v.point_list[i] != (Point { x: -1i64, y: -1i64 })
    &&& v.state != InternalState::PolygonalHole
    &&& v.state != InternalState::RemoveBadTrianglesFromMesh(false)
    &&& v.state is Initial ==> v.super_triangle is None && v.mesh.len() == 0
    &&& !(v.state is Initial) ==> v.super_triangle == Some(super_triangle_for(v.point_list))
    &&& v.mesh.no_duplicates()
    &&& forall|i: int| 0 <= i < v.mesh.len() ==> is_sound_triangle(v, #[trigger] v.mesh[i])
    &&& forall|i: int|
        0 <= i < v.bad_triangles.len() ==> is_sound_triangle(v, #[trigger] v.bad_triangles[i])
    &&& v.polygon_for_new_triangles.no_duplicates()
    &&& forall|i: int|
        0 <= i < v.polygon_for_new_triangles.len() ==> is_known_vertex(
            v,
            (#[trigger] v.polygon_for_new_triangles[i]).0,
        ) && is_known_vertex(v, v.polygon_for_new_triangles[i].1)
}

/// An engine that has done nothing yet is tidy, whatever points it holds,
/// if no two of them are equal and none is `(-1, -1)`.
pub proof fn lemma_fresh_run_is_tidy(points: Seq<Point>)
    requires
        points.no_duplicates(),
        forall|i: int| 0 <= i < points.len() ==> #[trigger] points[i] != (Point {
            x: -1i64,
            y: -1i64,
        }),
    ensures
        is_tidy(TriangulationView { point_list: points, ..TriangulationView::fresh() }),
{
}

/// What is known stays known when the run goes on.
proof fn lemma_known_stays_known(v: TriangulationView, w: TriangulationView, p: Point)
    requires
        is_known_vertex(v, p),
        w.point_list == v.point_list,
        w.current_point_idx >= v.current_point_idx,
        v.super_triangle is Some ==> w.super_triangle == v.super_triangle,
    ensures
        is_known_vertex(w, p),
{
    if !(v.super_triangle matches Some(seed) && has_vertex(seed, p)) {
        let i = choose|i: int|
            0 <= i < v.current_point_idx && i < v.point_list.len() && #[trigger] v.point_list[i]
                == p;
        assert(w.point_list[i] == p);
    }
}

/// A sound triangle stays sound when the run goes on.
proof fn lemma_sound_stays_sound(v: TriangulationView, w: TriangulationView, t: Triangle)
    requires
        is_sound_triangle(v, t),
        w.point_list == v.point_list,
        w.current_point_idx >= v.current_point_idx,
        v.super_triangle is Some ==> w.super_triangle == v.super_triangle,
    ensures
        is_sound_triangle(w, t),
{
    lemma_known_stays_known(v, w, t[0]);
    lemma_known_stays_known(v, w, t[1]);
    lemma_known_stays_known(v, w, t[2]);
}

/// The point that is being worked in is new: it is neither a corner of the
/// bounding triangle nor one of the points worked in before.
proof fn lemma_current_point_is_new(v: TriangulationView)
    requires
        v.wf(),
        is_tidy(v),
        !(v.state is Initial),
        !v.out_of_points(),
    ensures
        !is_known_vertex(v, v.current_point()),
{
    let p = v.current_point();
    lemma_greatest_bounds(v.point_list, v.current_point_idx as int);
    lemma_greatest_is_input(v.point_list);
    let seed = super_triangle_for(v.point_list);
    assert(seed[0] == (Point { x: -1i64, y: -1i64 }));
    assert(seed[1].x == 2 * greatest_x(v.point_list) + 3);
    assert(seed[2].y == 2 * greatest_y(v.point_list) + 3);
    assert(!has_vertex(seed, p));
}

/// Every unit of work leaves a tidy run tidy. So from a fresh engine on,
/// with points of which no two are equal and none is `(-1, -1)`, no
/// triangle ever stands twice in the mesh.
pub proof fn lemma_step_keeps_tidy(v: TriangulationView)
    requires
        v.wf(),
        is_tidy(v),
    ensures
        is_tidy(v.step()),
        v.step().mesh.no_duplicates(),
{
    let start = v.without_hints();
    let after = v.step();
    if start.state is Initial {
        lemma_greatest_is_input(v.point_list);
        let seed = super_triangle_for(v.point_list);
        assert(after.mesh == seq![seed]);
        assert(seed[1].x == 2 * greatest_x(v.point_list) + 3);
        assert(is_sound_triangle(after, seed));
        assert forall|i: int| 0 <= i < after.polygon_for_new_triangles.len() implies is_known_vertex(
            after,
            (#[trigger] after.polygon_for_new_triangles[i]).0,
        ) && is_known_vertex(after, after.polygon_for_new_triangles[i].1) by {
            lemma_known_stays_known(v, after, v.polygon_for_new_triangles[i].0);
            lemma_known_stays_known(v, after, v.polygon_for_new_triangles[i].1);
        }
    } else if start.out_of_points() {
        let seed = super_triangle_for(v.point_list);
        lemma_filter_keeps_apart(v.mesh, detached_from(seed));
        assert forall|i: int| 0 <= i < after.mesh.len() implies is_sound_triangle(
            after,
            #[trigger] after.mesh[i],
        ) by {
            lemma_kept_triangle_is_sound(v, detached_from(seed), after, i);
        }
        assert forall|i: int| 0 <= i < after.bad_triangles.len() implies is_sound_triangle(
            after,
            #[trigger] after.bad_triangles[i],
        ) by {
            lemma_sound_stays_sound(v, after, v.bad_triangles[i]);
        }
        assert forall|i: int| 0 <= i < after.polygon_for_new_triangles.len() implies is_known_vertex(
            after,
            (#[trigger] after.polygon_for_new_triangles[i]).0,
        ) && is_known_vertex(after, after.polygon_for_new_triangles[i].1) by {
            lemma_known_stays_known(v, after, v.polygon_for_new_triangles[i].0);
            lemma_known_stays_known(v, after, v.polygon_for_new_triangles[i].1);
        }
    } else {
        match start.state {
            InternalState::GetBadTrianglesInMesh(position) => {
                if position + 1 < start.mesh.len() {
                    lemma_scan_keeps_tidy(v, position);
                } else {
                    lemma_search_end_keeps_tidy(v);
                }
            },
            InternalState::RemoveBadTrianglesFromMesh(true) => {
                lemma_pause_keeps_tidy(v);
            },
            InternalState::AddTrianglesFromPolygonEdges => {
                lemma_refill_keeps_tidy(v);
            },
            _ => {},
        }
    }
}

/// A triangle that was kept from the mesh of a tidy run is sound in any
/// later state of the run.
proof fn lemma_kept_triangle_is_sound(
    v: TriangulationView,
    kept: spec_fn(Triangle) -> bool,
    w: TriangulationView,
    i: int,
)
    requires
        is_tidy(v),
        0 <= i < v.mesh.filter(kept).len(),
        w.point_list == v.point_list,
        w.current_point_idx >= v.current_point_idx,
        v.super_triangle is Some ==> w.super_triangle == v.super_triangle,
    ensures
        is_sound_triangle(w, v.mesh.filter(kept)[i]),
{
    let chosen = v.mesh.filter(kept);
    assert(chosen.contains(chosen[i]));
    v.mesh.lemma_filter_contains_rev(kept, chosen[i]);
    let at = choose|at: int| 0 <= at < v.mesh.len() && v.mesh[at] == chosen[i];
    assert(is_sound_triangle(v, v.mesh[at]));
    lemma_sound_stays_sound(v, w, chosen[i]);
}

proof fn lemma_scan_keeps_tidy(v: TriangulationView, position: usize)
    requires
        v.wf(),
        is_tidy(v),
        !v.out_of_points(),
        v.state == InternalState::GetBadTrianglesInMesh(position),
        position + 1 < v.mesh.len(),
    ensures
        is_tidy(v.step()),
{
    let after = v.step();
    let tested = v.mesh[position as int];
    assert(after.mesh == v.mesh);
    assert(after.polygon_for_new_triangles == v.polygon_for_new_triangles);
    assert(after.bad_triangles == if in_circumcircle(tested, v.current_point()) {
        v.bad_triangles.push(tested)
    } else {
        v.bad_triangles
    });
    assert forall|i: int| 0 <= i < after.mesh.len() implies is_sound_triangle(
        after,
        #[trigger] after.mesh[i],
    ) by {
        lemma_sound_stays_sound(v, after, v.mesh[i]);
    }
    assert forall|i: int| 0 <= i < after.bad_triangles.len() implies is_sound_triangle(
        after,
        #[trigger] after.bad_triangles[i],
    ) by {
        if i < v.bad_triangles.len() {
            lemma_sound_stays_sound(v, after, v.bad_triangles[i]);
        } else {
            assert(after.bad_triangles[i] == tested);
            lemma_sound_stays_sound(v, after, tested);
        }
    }
    assert forall|i: int| 0 <= i < after.polygon_for_new_triangles.len() implies is_known_vertex(
        after,
        (#[trigger] after.polygon_for_new_triangles[i]).0,
    ) && is_known_vertex(after, after.polygon_for_new_triangles[i].1) by {
        lemma_known_stays_known(v, after, v.polygon_for_new_triangles[i].0);
        lemma_known_stays_known(v, after, v.polygon_for_new_triangles[i].1);
    }
}

proof fn lemma_search_end_keeps_tidy(v: TriangulationView)
    requires
        v.wf(),
        is_tidy(v),
        !v.out_of_points(),
        v.state matches InternalState::GetBadTrianglesInMesh(position) && position + 1
            >= v.mesh.len(),
    ensures
        is_tidy(v.step()),
{
    lemma_search_end_empties_hole(v);
    let after = v.step();
    let point = v.current_point();
    lemma_filter_keeps_apart(v.mesh, good_for(point));
    assert forall|i: int| 0 <= i < after.mesh.len() implies is_sound_triangle(
        after,
        #[trigger] after.mesh[i],
    ) by {
        lemma_kept_triangle_is_sound(v, good_for(point), after, i);
    }
    assert forall|i: int| 0 <= i < after.bad_triangles.len() implies is_sound_triangle(
        after,
        #[trigger] after.bad_triangles[i],
    ) by {
        lemma_kept_triangle_is_sound(v, bad_for(point), after, i);
    }
    lemma_hole_boundary_has_no_repeats(after.bad_triangles);
    let polygon = after.polygon_for_new_triangles;
    assert forall|i: int| 0 <= i < polygon.len() implies is_known_vertex(
        after,
        (#[trigger] polygon[i]).0,
    ) && is_known_vertex(after, polygon[i].1) by {
        assert(polygon.contains(polygon[i]));
        lemma_hole_boundary_contains(after.bad_triangles, polygon[i]);
        let (at, side) = choose|at: int, side: int|
            #[trigger] is_own_side(after.bad_triangles, at, side, polygon[i]);
        assert(is_sound_triangle(after, after.bad_triangles[at]));
    }
}

proof fn lemma_pause_keeps_tidy(v: TriangulationView)
    requires
        v.wf(),
        is_tidy(v),
        !v.out_of_points(),
        v.state == InternalState::RemoveBadTrianglesFromMesh(true),
    ensures
        is_tidy(v.step()),
{
    let after = v.step();
    assert(after.mesh == v.mesh);
    assert forall|i: int| 0 <= i < after.mesh.len() implies is_sound_triangle(
        after,
        #[trigger] after.mesh[i],
    ) by {
        lemma_sound_stays_sound(v, after, v.mesh[i]);
    }
    assert forall|i: int| 0 <= i < after.bad_triangles.len() implies is_sound_triangle(
        after,
        #[trigger] after.bad_triangles[i],
    ) by {
        lemma_sound_stays_sound(v, after, v.bad_triangles[i]);
    }
    assert forall|i: int| 0 <= i < after.polygon_for_new_triangles.len() implies is_known_vertex(
        after,
        (#[trigger] after.polygon_for_new_triangles[i]).0,
    ) && is_known_vertex(after, after.polygon_for_new_triangles[i].1) by {
        lemma_known_stays_known(v, after, v.polygon_for_new_triangles[i].0);
        lemma_known_stays_known(v, after, v.polygon_for_new_triangles[i].1);
    }
}

proof fn lemma_refill_keeps_tidy(v: TriangulationView)
    requires
        v.wf(),
        is_tidy(v),
        !v.out_of_points(),
        v.state == InternalState::AddTrianglesFromPolygonEdges,
    ensures
        is_tidy(v.step()),
{
    let after = v.step();
    let point = v.current_point();
    let polygon = v.polygon_for_new_triangles;
    let added = fan(point, polygon);
    lemma_current_point_is_new(v);
    assert(after.mesh == v.mesh + added);
    assert(is_known_vertex(after, point)) by {
        assert(after.point_list[v.current_point_idx as int] == point);
    }
    assert forall|i: int| 0 <= i < added.len() implies is_sound_triangle(
        after,
        #[trigger] added[i],
    ) by {
        assert(added[i] == triangle_on(point, polygon[i]));
        lemma_known_stays_known(v, after, polygon[i].0);
        lemma_known_stays_known(v, after, polygon[i].1);
    }
    assert(added.no_duplicates()) by {
        assert forall|i: int, j: int|
            0 <= i < added.len() && 0 <= j < added.len() && i != j implies added[i]
            != added[j] by {
            assert(added[i] == triangle_on(point, polygon[i]));
            assert(added[j] == triangle_on(point, polygon[j]));
            assert(polygon[i] != polygon[j]);
            if added[i] == added[j] {
                assert(added[i][1] == added[j][1]);
                assert(added[i][2] == added[j][2]);
            }
        }
    }
    assert forall|i: int, j: int|
        0 <= i < v.mesh.len() && 0 <= j < added.len() implies v.mesh[i] != added[j] by {
        assert(is_sound_triangle(v, v.mesh[i]));
        assert(added[j] == triangle_on(point, polygon[j]));
        assert(added[j][0] == point);
    }
    vstd::seq_lib::lemma_no_dup_in_concat(v.mesh, added);
    assert forall|i: int| 0 <= i < after.mesh.len() implies is_sound_triangle(
        after,
        #[trigger] after.mesh[i],
    ) by {
        if i < v.mesh.len() {
            lemma_sound_stays_sound(v, after, v.mesh[i]);
        } else {
            assert(after.mesh[i] == added[i - v.mesh.len()]);
        }
    }
}

/// The largest coordinates are at least zero and at least those of every
/// point.
pub proof fn lemma_greatest_bounds(points: Seq<Point>, i: int)
    requires
        0 <= i < points.len(),
    ensures
        0 <= greatest_x(points),
        0 <= greatest_y(points),
        points[i].x <= greatest_x(points),
        points[i].y <= greatest_y(points),
    decreases points.len(),
{
    lemma_greatest_not_negative(points);
    if i < points.len() - 1 {
        lemma_greatest_bounds(points.drop_last(), i);
    }
}

proof fn lemma_greatest_not_negative(points: Seq<Point>)
    ensures
        0 <= greatest_x(points),
        0 <= greatest_y(points),
    decreases points.len(),
{
    if points.len() > 0 {
        lemma_greatest_not_negative(points.drop_last());
    }
}

/// `p` lies strictly inside the triangle with the corners `(-1, -1)`,
/// `(width - 1, -1)` and `(-1, height - 1)`.
pub open spec fn strictly_inside_corner(p: Point, width: int, height: int) -> bool {
    &&& -1 < p.x
    &&& -1 < p.y
    &&& (p.x + 1) * height + (p.y + 1) * width < width * height
}

/// Every point to triangulate that has no negative coordinate lies strictly
/// inside the bounding triangle of the points.
pub proof fn lemma_super_triangle_encloses(points: Seq<Point>, i: int)
    requires
        0 <= i < points.len(),
        forall|j: int| 0 <= j < points.len() ==> (#[trigger] points[j]).is_input(),
        0 <= points[i].x,
        0 <= points[i].y,
    ensures
        super_triangle_for(points)[0] == (Point { x: -1i64, y: -1i64 }),
        super_triangle_for(points)[1].y == -1,
        super_triangle_for(points)[2].x == -1,
        strictly_inside_corner(
            points[i],
            super_triangle_for(points)[1].x + 1,
            super_triangle_for(points)[2].y + 1,
        ),
{
    lemma_greatest_bounds(points, i);
    lemma_greatest_is_input(points);
    let width = 2 * greatest_x(points) + 4;
    let height = 2 * greatest_y(points) + 4;
    let x = points[i].x + 1;
    let y = points[i].y + 1;
    assert(x * height + y * width < width * height) by (nonlinear_arith)
        requires
            0 < x,
            0 < y,
            2 * x < width,
            2 * y < height,
    ;
}

/// The largest coordinates are within the bound on the points.
pub proof fn lemma_greatest_is_input(points: Seq<Point>)
    requires
        forall|j: int| 0 <= j < points.len() ==> (#[trigger] points[j]).is_input(),
    ensures
        0 <= greatest_x(points) <= crate::math::INPUT_LIMIT,
        0 <= greatest_y(points) <= crate::math::INPUT_LIMIT,
    decreases points.len(),
{
    if points.len() > 0 {
        assert(points.last().is_input());
        assert forall|j: int| 0 <= j < points.drop_last().len() implies (
        #[trigger] points.drop_last()[j]).is_input() by {
            assert(points.drop_last()[j] == points[j]);
        }
        lemma_greatest_is_input(points.drop_last());
    }
}

} // verus!
