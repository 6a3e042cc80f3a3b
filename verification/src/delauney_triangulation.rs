//! The engine: a Delaunay triangulation built point by point, one unit of
//! work for each call of `update_triangulation`.

use crate::cavity::{
    hole_boundary, is_own_side, lemma_hole_boundary_contains, polygonal_hole_boundary,
};
use crate::circle::{circumcircle, in_circumcircle, Circle, CircleView};
use crate::internal_state::InternalState;
use crate::math::{
    edge_in_range, share_vertex, triangle_in_range, triangles_share_vertex, Edge, Point, Triangle,
};
use crate::mesh::{
    each_is_found, lemma_without_each_adds_nothing, lemma_without_each_chosen, without_each, Mesh,
};
use vstd::prelude::*;

verus! {

/// The largest first coordinate among the points, and at least zero.
pub open spec fn greatest_x(points: Seq<Point>) -> i64
    decreases points.len(),
{
    if points.len() == 0 {
        0
    } else if points.last().x > greatest_x(points.drop_last()) {
        points.last().x
    } else {
        greatest_x(points.drop_last())
    }
}

/// The largest second coordinate among the points, and at least zero.
pub open spec fn greatest_y(points: Seq<Point>) -> i64
    decreases points.len(),
{
    if points.len() == 0 {
        0
    } else if points.last().y > greatest_y(points.drop_last()) {
        points.last().y
    } else {
        greatest_y(points.drop_last())
    }
}

/// The triangle that the mesh is seeded with. Its corner with the right
/// angle is `(-1, -1)`; the two others lie on the lines `y == -1` and
/// `x == -1`, three beyond twice the largest coordinate.
pub open spec fn super_triangle_for(points: Seq<Point>) -> Triangle {
    [
        Point { x: -1i64, y: -1i64 },
        Point { x: (2 * greatest_x(points) + 3) as i64, y: -1i64 },
        Point { x: -1i64, y: (2 * greatest_y(points) + 3) as i64 },
    ]
}

/// The condition that a triangle's circumcircle holds `p` strictly inside.
pub open spec fn bad_for(p: Point) -> spec_fn(Triangle) -> bool {
    |t: Triangle| in_circumcircle(t, p)
}

/// The condition that a triangle's circumcircle does not hold `p` strictly
/// inside.
pub open spec fn good_for(p: Point) -> spec_fn(Triangle) -> bool {
    |t: Triangle| !in_circumcircle(t, p)
}

/// The condition that a triangle has a vertex in common with `s`.
pub open spec fn attached_to(s: Triangle) -> spec_fn(Triangle) -> bool {
    |t: Triangle| share_vertex(s, t)
}

/// The condition that a triangle has no vertex in common with `s`.
pub open spec fn detached_from(s: Triangle) -> spec_fn(Triangle) -> bool {
    |t: Triangle| !share_vertex(s, t)
}

/// The triangle from `p` to the two ends of `e`.
pub open spec fn triangle_on(p: Point, e: Edge) -> Triangle {
    [p, e.0, e.1]
}

/// One triangle from `p` to each edge of the polygon, in its order.
pub open spec fn fan(p: Point, polygon: Seq<Edge>) -> Seq<Triangle> {
    polygon.map_values(|e: Edge| triangle_on(p, e))
}

/// What an engine holds, as mathematical values.
pub struct TriangulationView {
    /// The phase that the next call starts in.
    pub state: InternalState,
    /// How many points of the list have been worked into the mesh.
    pub current_point_idx: nat,
    /// The points to triangulate.
    pub point_list: Seq<Point>,
    /// The triangles of the mesh, in the order of insertion.
    pub mesh: Seq<Triangle>,
    /// The triangle that the mesh was seeded with, once it has been.
    pub super_triangle: Option<Triangle>,
    /// The triangles found so far whose circumcircle holds the current
    /// point.
    pub bad_triangles: Seq<Triangle>,
    /// The boundary of the hole that those triangles leave.
    pub polygon_for_new_triangles: Seq<Edge>,
    /// For display: the triangle that the last call tested, if its
    /// circumcircle holds the current point.
    pub bad_triangles_to_plot: Seq<Triangle>,
    /// For display: the triangle that the last call tested, if its
    /// circumcircle does not hold the current point.
    pub good_checked_triangles_to_plot: Seq<Triangle>,
    /// For display: the circumcircle of the triangle that the last call
    /// tested.
    pub circumcircles_to_plot: Seq<CircleView>,
}

impl TriangulationView {
    /// The state before anything was done: nothing held, first phase.
    pub open spec fn fresh() -> TriangulationView {
        TriangulationView {
            state: InternalState::Initial,
            current_point_idx: 0,
            point_list: Seq::empty(),
            mesh: Seq::empty(),
            super_triangle: None,
            bad_triangles: Seq::empty(),
            polygon_for_new_triangles: Seq::empty(),
            bad_triangles_to_plot: Seq::empty(),
            good_checked_triangles_to_plot: Seq::empty(),
            circumcircles_to_plot: Seq::empty(),
        }
    }

    /// The point that is being worked into the mesh.
    pub open spec fn current_point(self) -> Point {
        self.point_list[self.current_point_idx as int]
    }

    /// Every point of the list has been worked into the mesh.
    pub open spec fn out_of_points(self) -> bool {
        self.current_point_idx >= self.point_list.len()
    }

    /// What the engine's operations keep true.
    pub open spec fn wf(self) -> bool {
        &&& forall|i: int| 0 <= i < self.point_list.len() ==> (#[trigger] self.point_list[i]).is_input()
        &&& forall|i: int| 0 <= i < self.mesh.len() ==> triangle_in_range(#[trigger] self.mesh[i])
        &&& forall|i: int|
            0 <= i < self.bad_triangles.len() ==> triangle_in_range(#[trigger] self.bad_triangles[i])
        &&& forall|i: int|
            0 <= i < self.polygon_for_new_triangles.len() ==> edge_in_range(
                #[trigger] self.polygon_for_new_triangles[i],
            )
        &&& self.state is Initial ==> self.bad_triangles.len() == 0
        &&& match self.state {
            InternalState::GetBadTrianglesInMesh(position) => !self.out_of_points() ==> {
                &&& position <= self.mesh.len()
                &&& self.bad_triangles == self.mesh.take(position as int).filter(
                    bad_for(self.current_point()),
                )
            },
            _ => true,
        }
    }

    /// The same state with nothing left for display.
    pub open spec fn without_hints(self) -> TriangulationView {
        TriangulationView {
            bad_triangles_to_plot: Seq::empty(),
            good_checked_triangles_to_plot: Seq::empty(),
            circumcircles_to_plot: Seq::empty(),
            ..self
        }
    }

    /// The first unit of work: the bounding triangle of the points is
    /// remembered and added to the mesh.
    pub open spec fn seeded(self) -> TriangulationView {
        let seed = super_triangle_for(self.point_list);
        TriangulationView {
            state: InternalState::GetBadTrianglesInMesh(0),
            mesh: self.mesh.push(seed),
            super_triangle: Some(seed),
            ..self
        }
    }

    /// The last unit of work: every triangle that has a vertex in common
    /// with the bounding triangle leaves the mesh.
    pub open spec fn stripped(self) -> TriangulationView {
        match self.super_triangle {
            Some(seed) => TriangulationView { mesh: self.mesh.filter(detached_from(seed)), ..self },
            None => self,
        }
    }

    /// The triangle at `position` has been tested against the current
    /// point, and has joined the triangles found if its circumcircle holds
    /// the point. Beyond the end of the mesh there is nothing to test.
    pub open spec fn classified(self, position: int) -> TriangulationView {
        if 0 <= position < self.mesh.len() && in_circumcircle(
            self.mesh[position],
            self.current_point(),
        ) {
            TriangulationView {
                bad_triangles: self.bad_triangles.push(self.mesh[position]),
                ..self
            }
        } else {
            self
        }
    }

    /// One unit of the search, where the triangle at `position` is not the
    /// last of the mesh: the triangle is tested, shown with its circumcircle
    /// as found or as passed, and the search moves to the next position.
    pub open spec fn scanned(self, position: int) -> TriangulationView {
        let tested = self.mesh[position];
        let found = in_circumcircle(tested, self.current_point());
        TriangulationView {
            state: InternalState::GetBadTrianglesInMesh((position + 1) as usize),
            bad_triangles_to_plot: if found {
                seq![tested]
            } else {
                Seq::empty()
            },
            good_checked_triangles_to_plot: if found {
                Seq::empty()
            } else {
                seq![tested]
            },
            circumcircles_to_plot: seq![circumcircle(tested)],
            ..self.classified(position)
        }
    }

    /// The boundary of the hole is computed from the triangles found and
    /// kept for later.
    pub open spec fn outlined(self) -> TriangulationView {
        TriangulationView {
            state: InternalState::RemoveBadTrianglesFromMesh(false),
            polygon_for_new_triangles: hole_boundary(self.bad_triangles),
            ..self
        }
    }

    /// The triangles of `gone` leave the mesh, one after the other, each
    /// time the first that is equal.
    pub open spec fn emptied(self, gone: Seq<Triangle>) -> TriangulationView {
        TriangulationView {
            state: InternalState::RemoveBadTrianglesFromMesh(true),
            mesh: without_each(self.mesh, gone),
            ..self
        }
    }

    /// What a request to take the triangles of `gone` out of the mesh leads
    /// to. Where that has been done already the request only moves the
    /// engine on to the phase in which the hole is filled.
    pub open spec fn after_removal(self, gone: Seq<Triangle>) -> TriangulationView {
        if self.state == InternalState::RemoveBadTrianglesFromMesh(true) {
            TriangulationView { state: InternalState::AddTrianglesFromPolygonEdges, ..self }
        } else {
            self.emptied(gone)
        }
    }

    /// One triangle from `point` to each edge of `polygon` joins the mesh.
    pub open spec fn widened(self, polygon: Seq<Edge>, point: Point) -> TriangulationView {
        TriangulationView { mesh: self.mesh + fan(point, polygon), ..self }
    }

    /// The hole is filled from the current point, and the engine turns to
    /// the next point with nothing found and no boundary kept.
    pub open spec fn refilled(self) -> TriangulationView {
        TriangulationView {
            state: InternalState::GetBadTrianglesInMesh(0),
            current_point_idx: self.current_point_idx + 1,
            bad_triangles: Seq::empty(),
            polygon_for_new_triangles: Seq::empty(),
            ..self.widened(self.polygon_for_new_triangles, self.current_point())
        }
    }

    /// One unit of work.
    ///
    /// - In the first phase the mesh is seeded.
    /// - With no point left, the triangles at the bounding triangle leave
    ///   the mesh; this is where a run ends, and where it stays.
    /// - While triangles are tested, one triangle is tested. If it is not
    ///   the last of the mesh, that is all. After the last one the boundary
    ///   of the hole is computed and the triangles found leave the mesh.
    /// - The call after that only moves on to the filling of the hole.
    /// - The call after that fills the hole and turns to the next point.
    pub open spec fn step(self) -> TriangulationView {
        let start = self.without_hints();
        if start.state is Initial {
            start.seeded()
        } else if start.out_of_points() {
            start.stripped()
        } else {
            match start.state {
                InternalState::Initial => start,
                InternalState::GetBadTrianglesInMesh(position) => {
                    if position + 1 < start.mesh.len() {
                        start.scanned(position as int)
                    } else {
                        let done = start.classified(position as int).outlined();
                        done.emptied(done.bad_triangles)
                    }
                },
                InternalState::PolygonalHole => {
                    let done = start.outlined();
                    done.emptied(done.bad_triangles)
                },
                InternalState::RemoveBadTrianglesFromMesh(false) => start.emptied(
                    start.bad_triangles,
                ),
                InternalState::RemoveBadTrianglesFromMesh(true) => start.after_removal(
                    start.bad_triangles,
                ),
                InternalState::AddTrianglesFromPolygonEdges => start.refilled(),
            }
        }
    }

    /// The state after `units` units of work.
    pub open spec fn after(self, units: nat) -> TriangulationView
        decreases units,
    {
        if units == 0 {
            self
        } else {
            self.step().after((units - 1) as nat)
        }
    }

    /// The run is over: the mesh is seeded, no point is left, and no
    /// triangle of the mesh has a vertex in common with the bounding
    /// triangle.
    pub open spec fn is_complete(self) -> bool {
        &&& !(self.state is Initial)
        &&& self.out_of_points()
        &&& self.super_triangle matches Some(seed) ==> forall|i: int|
            0 <= i < self.mesh.len() ==> !share_vertex(seed, #[trigger] self.mesh[i])
    }
}

/// The engine. It holds the points, the mesh, the phase and what the work
/// on the current point has gathered so far, so that a run can be left and
/// taken up again between any two calls.
#[derive(Debug, Clone)]
pub struct DelauneyTriangulationInformation {
    state: InternalState,
    current_point_idx: usize,
    point_list: Vec<Point>,
    triangulation_mesh: Mesh,
    bad_triangles: Vec<Triangle>,
    bad_triangles_to_plot: Vec<Triangle>,
    good_checked_triangles_to_plot: Vec<Triangle>,
    super_triangle: Option<Triangle>,
    circumcircles_to_plot: Vec<Circle>,
    polygon_for_new_triangles: Vec<Edge>,
}

impl View for DelauneyTriangulationInformation {
    type V = TriangulationView;

    closed spec fn view(&self) -> TriangulationView {
        TriangulationView {
            state: self.state,
            current_point_idx: self.current_point_idx as nat,
            point_list: self.point_list@,
            mesh: self.triangulation_mesh@,
            super_triangle: self.super_triangle,
            bad_triangles: self.bad_triangles@,
            polygon_for_new_triangles: self.polygon_for_new_triangles@,
            bad_triangles_to_plot: self.bad_triangles_to_plot@,
            good_checked_triangles_to_plot: self.good_checked_triangles_to_plot@,
            circumcircles_to_plot: self.circumcircles_to_plot@.map_values(|c: Circle| c@),
        }
    }
}

impl Default for DelauneyTriangulationInformation {
    fn default() -> (information: DelauneyTriangulationInformation)
        ensures
            information@ == TriangulationView::fresh(),
            information.wf(),
    {
        let information = DelauneyTriangulationInformation {
            state: InternalState::Initial,
            current_point_idx: 0,
            point_list: Vec::new(),
            triangulation_mesh: Mesh::default(),
            bad_triangles: Vec::new(),
            bad_triangles_to_plot: Vec::new(),
            good_checked_triangles_to_plot: Vec::new(),
            super_triangle: None,
            circumcircles_to_plot: Vec::new(),
            polygon_for_new_triangles: Vec::new(),
        };
        assert(information@.circumcircles_to_plot == Seq::<CircleView>::empty());
        information
    }
}

impl DelauneyTriangulationInformation {
    /// What every operation needs of the engine and leaves true of it.
    pub open spec fn wf(&self) -> bool {
        self@.wf()
    }

    /// Puts the engine back to where it was before anything was done: no
    /// points, no mesh, first phase.
    pub fn reset_delauney_mesh(&mut self)
        ensures
            final(self)@ == TriangulationView::fresh(),
            final(self).wf(),
    {
        self.state = InternalState::Initial;
        self.current_point_idx = 0;
        self.point_list = Vec::new();
        self.triangulation_mesh = Mesh::default();
        self.bad_triangles = Vec::new();
        self.bad_triangles_to_plot = Vec::new();
        self.good_checked_triangles_to_plot = Vec::new();
        self.super_triangle = None;
        self.circumcircles_to_plot = Vec::new();
        self.polygon_for_new_triangles = Vec::new();
        assert(self@.circumcircles_to_plot == Seq::<CircleView>::empty());
    }

    /// Clears what the last unit of work left for display.
    fn clear_crap_to_plot(&mut self)
        ensures
            final(self)@ == old(self)@.without_hints(),
            old(self).wf() ==> final(self).wf(),
    {
        self.bad_triangles_to_plot = Vec::new();
        self.circumcircles_to_plot = Vec::new();
        self.good_checked_triangles_to_plot = Vec::new();
        assert(self@.circumcircles_to_plot == Seq::<CircleView>::empty());
    }

    /// Hands the engine the points to triangulate. A run that has begun
    /// keeps the points it began with: only an engine in its first phase
    /// takes the list.
    pub fn set_point_list(&mut self, point_list: Vec<Point>)
        requires
            old(self).wf(),
            forall|i: int| 0 <= i < point_list@.len() ==> (#[trigger] point_list@[i]).is_input(),
        ensures
            final(self).wf(),
            old(self)@.state is Initial ==> final(self)@ == (TriangulationView {
                point_list: point_list@,
                ..old(self)@
            }),
            !(old(self)@.state is Initial) ==> final(self)@ == old(self)@,
    {
        if self.state == InternalState::Initial {
            self.point_list = point_list;
        }
    }

    /// Seeds the mesh with the bounding triangle of the points and
    /// remembers that triangle.
    fn add_super_triangle(&mut self)
        requires
            old(self).wf(),
            old(self)@.state is Initial,
        ensures
            final(self).wf(),
            final(self)@ == (TriangulationView {
                mesh: old(self)@.mesh.push(super_triangle_for(old(self)@.point_list)),
                super_triangle: Some(super_triangle_for(old(self)@.point_list)),
                ..old(self)@
            }),
    {
        let mut max = Point { x: 0, y: 0 };
        let count = self.point_list.len();
        for idx in 0..count
            invariant
                count == self.point_list@.len(),
                self.point_list@ == old(self)@.point_list,
                old(self)@.wf(),
                max.x == greatest_x(self.point_list@.take(idx as int)),
                max.y == greatest_y(self.point_list@.take(idx as int)),
                0 <= max.x <= crate::math::INPUT_LIMIT,
                0 <= max.y <= crate::math::INPUT_LIMIT,
        {
            proof {
                assert(self.point_list@.take(idx + 1).drop_last() == self.point_list@.take(
                    idx as int,
                ));
                assert(self.point_list@[idx as int].is_input());
            }
            let point = self.point_list[idx];
            if point.x > max.x {
                max.x = point.x;
            }
            if point.y > max.y {
                max.y = point.y;
            }
        }
        assert(self.point_list@.take(count as int) == self.point_list@);
        max.x = max.x * 2;
        max.y = max.y * 2;

        let super_triangle = [
            Point { x: -1, y: -1 },
            Point { x: max.x + 3, y: -1 },
            Point { x: -1, y: max.y + 3 },
        ];
        assert(super_triangle == super_triangle_for(self.point_list@));
        self.super_triangle = Some(super_triangle);
        self.triangulation_mesh.add_triangle_to_mesh(super_triangle);
        assert forall|i: int| 0 <= i < self@.mesh.len() implies triangle_in_range(
            #[trigger] self@.mesh[i],
        ) by {
            if i < old(self)@.mesh.len() {
                assert(self@.mesh[i] == old(self)@.mesh[i]);
            }
        }
    }
}

impl DelauneyTriangulationInformation {
    /// Takes out of the mesh every triangle that has a vertex in common
    /// with the bounding triangle: first they are gathered, then each is
    /// taken out by its exact value.
    fn remove_triangles_attached_to_super_triangle(&mut self)
        requires
            old(self).wf(),
            old(self)@.out_of_points(),
        ensures
            final(self)@ == old(self)@.stripped(),
            final(self).wf(),
    {
        let super_triangle = match self.super_triangle {
            Some(super_triangle) => super_triangle,
            None => {
                return ;
            },
        };

        let mut triangles_to_remove: Vec<Triangle> = Vec::new();
        let triangles = self.triangulation_mesh.iter_triangles_in_mesh();
        let count = triangles.len();
        assert(triangles@.take(0).filter(attached_to(super_triangle)) == Seq::<Triangle>::empty())
            by {
            reveal(Seq::filter);
        }
        for idx in 0..count
            invariant
                count == triangles@.len(),
                triangles_to_remove@ == triangles@.take(idx as int).filter(
                    attached_to(super_triangle),
                ),
        {
            proof {
                assert(triangles@.take(idx + 1) == triangles@.take(idx as int).push(
                    triangles@[idx as int],
                ));
                triangles@.take(idx as int).lemma_filter_push(
                    triangles@[idx as int],
                    attached_to(super_triangle),
                );
            }
            if triangles_share_vertex(super_triangle, triangles[idx]) {
                triangles_to_remove.push(triangles[idx]);
            }
        }
        proof {
            assert(triangles@.take(count as int) == triangles@);
            lemma_without_each_chosen(
                triangles@,
                attached_to(super_triangle),
                detached_from(super_triangle),
            );
            lemma_without_each_keeps_range(old(self)@.mesh, triangles_to_remove@);
        }
        self.triangulation_mesh.remove_each(triangles_to_remove.as_slice());
    }

    /// Takes the triangles of `bad_triangles` out of the mesh, each by its
    /// exact value, and tells whether every one of them was there to take.
    /// Where the engine has done so already for the current point, nothing
    /// leaves the mesh: the engine only moves on to the phase in which the
    /// hole is filled.
    pub fn remove_all_bad_triangles_from_mesh(&mut self, bad_triangles: &[Triangle]) -> (all_found:
        bool)
        requires
            old(self).wf(),
        ensures
            final(self).wf(),
            final(self)@ == old(self)@.after_removal(bad_triangles@),
            all_found == (old(self)@.state == InternalState::RemoveBadTrianglesFromMesh(true)
                || each_is_found(old(self)@.mesh, bad_triangles@)),
    {
        if let InternalState::RemoveBadTrianglesFromMesh(ran_through_removal_once) = self.state {
            if !ran_through_removal_once {
                self.state = InternalState::RemoveBadTrianglesFromMesh(true);
            } else {
                self.state = InternalState::AddTrianglesFromPolygonEdges;
                return true;
            }
        }
        proof {
            lemma_without_each_keeps_range(old(self)@.mesh, bad_triangles@);
        }
        let all_found = self.triangulation_mesh.remove_each(bad_triangles);

        self.state = InternalState::RemoveBadTrianglesFromMesh(true);
        all_found
    }

    /// Adds to the mesh one triangle from `point` to each edge of
    /// `polygon`, in the order of the edges.
    pub fn add_triangles_from_polygon_edges(&mut self, polygon: &[Edge], point: Point)
        requires
            old(self).wf(),
            point.in_range(),
            forall|i: int| 0 <= i < polygon@.len() ==> edge_in_range(#[trigger] polygon@[i]),
        ensures
            final(self).wf(),
            final(self)@ == old(self)@.widened(polygon@, point),
    {
        let count = polygon.len();
        for idx in 0..count
            invariant
                count == polygon@.len(),
                point.in_range(),
                forall|i: int| 0 <= i < polygon@.len() ==> edge_in_range(#[trigger] polygon@[i]),
                self@ == old(self)@.widened(polygon@.take(idx as int), point),
                forall|i: int|
                    0 <= i < self@.mesh.len() ==> triangle_in_range(#[trigger] self@.mesh[i]),
        {
            let edge = polygon[idx];
            let new_triangle = [point, edge.0, edge.1];
            proof {
                assert(new_triangle == triangle_on(point, edge));
                assert(fan(point, polygon@.take(idx + 1)) == fan(
                    point,
                    polygon@.take(idx as int),
                ).push(new_triangle));
                assert(edge_in_range(polygon@[idx as int]));
                assert(triangle_in_range(new_triangle));
            }
            let ghost before = self@.mesh;
            self.triangulation_mesh.add_triangle_to_mesh(new_triangle);
            assert forall|i: int| 0 <= i < self@.mesh.len() implies triangle_in_range(
                #[trigger] self@.mesh[i],
            ) by {
                if i < before.len() {
                    assert(self@.mesh[i] == before[i]);
                }
            }
        }
        proof {
            assert(polygon@.take(count as int) == polygon@);
            let before = old(self)@;
            let after = self@;
            match before.state {
                InternalState::GetBadTrianglesInMesh(position) => {
                    if !before.out_of_points() {
                        assert(after.mesh.take(position as int) == before.mesh.take(
                            position as int,
                        ));
                    }
                },
                _ => {},
            }
        }
    }
}

impl DelauneyTriangulationInformation {
    /// One unit of the search for the triangles whose circumcircle holds
    /// `point`: the triangle at the position that the phase names is tested.
    /// Where more triangles follow, the tested one is left for display and
    /// the phase names the next position; after the last one the phase
    /// moves on. In any other phase nothing is done.
    fn get_all_bad_triangles_in_mesh_and_circumcircles_checked(&mut self, point: Point)
        requires
            old(self).wf(),
            !old(self)@.out_of_points(),
            point == old(self)@.current_point(),
            old(self)@ == old(self)@.without_hints(),
        ensures
            final(self).wf(),
            match old(self)@.state {
                InternalState::GetBadTrianglesInMesh(position) => if position + 1 < old(
                    self,
                )@.mesh.len() {
                    final(self)@ == old(self)@.scanned(position as int)
                } else {
                    &&& final(self)@ == (TriangulationView {
                        state: InternalState::PolygonalHole,
                        ..old(self)@.classified(position as int)
                    })
                    &&& final(self)@.bad_triangles == final(self)@.mesh.filter(bad_for(point))
                },
                _ => final(self)@ == old(self)@,
            },
    {
        let position = match self.state {
            InternalState::GetBadTrianglesInMesh(position) => position,
            _ => {
                return ;
            },
        };
        let count = self.triangulation_mesh.iter_triangles_in_mesh().len();
        if position < count {
            let triangle = self.triangulation_mesh.iter_triangles_in_mesh()[position];
            proof {
                assert(triangle_in_range(self@.mesh[position as int]));
                assert(point.is_input());
                assert(self@.mesh.take(position + 1) == self@.mesh.take(position as int).push(
                    triangle,
                ));
                self@.mesh.take(position as int).lemma_filter_push(triangle, bad_for(point));
            }
            let circumcircle = Circle::from(triangle);
            let is_bad_triangle = circumcircle.is_point_inside_circle(point);
            if is_bad_triangle {
                self.bad_triangles.push(triangle);
            }
            if position + 1 < count {
                self.circumcircles_to_plot.push(circumcircle);
                if is_bad_triangle {
                    self.bad_triangles_to_plot.push(triangle);
                } else {
                    self.good_checked_triangles_to_plot.push(triangle);
                }
                self.state = InternalState::GetBadTrianglesInMesh(position + 1);
                proof {
                    assert(self@.circumcircles_to_plot == old(self)@.circumcircles_to_plot.push(
                        circumcircle@,
                    ));
                }
                return ;
            }
        }
        proof {
            assert(self@.mesh.take(count as int) == self@.mesh);
        }
        self.state = InternalState::PolygonalHole;
    }

    /// Advances the triangulation by one unit of work, as
    /// `TriangulationView::step` describes it. Whether a triangle to take
    /// out was found in the mesh is not handed back: at the end of a search
    /// every one of them is there, as
    /// `properties::lemma_search_end_empties_hole` shows.
    pub fn update_triangulation(&mut self)
        requires
            old(self).wf(),
        ensures
            final(self).wf(),
            final(self)@ == old(self)@.step(),
    {
        self.clear_crap_to_plot();

        if self.state == InternalState::Initial {
            self.add_super_triangle();
            let ghost seeded = self@;
            self.state = InternalState::GetBadTrianglesInMesh(0);
            proof {
                assert(self@.mesh == seeded.mesh);
                assert(self@.bad_triangles == self@.mesh.take(0).filter(
                    bad_for(self@.current_point()),
                )) by {
                    reveal(Seq::filter);
                }
            }
            return ;
        }
        if self.current_point_idx >= self.point_list.len() {
            self.remove_triangles_attached_to_super_triangle();
            return ;
        }
        let point = self.point_list[self.current_point_idx];
        self.get_all_bad_triangles_in_mesh_and_circumcircles_checked(point);
        if self.state.to_usize() < InternalState::PolygonalHole.to_usize() {
            return ;
        }
        if self.state == InternalState::PolygonalHole {
            self.polygon_for_new_triangles = polygonal_hole_boundary(self.bad_triangles.as_slice());
            proof {
                lemma_hole_boundary_keeps_range(self@.bad_triangles);
            }
        }
        if self.state.to_usize() <= InternalState::RemoveBadTrianglesFromMesh(true).to_usize() {
            let mut bad_triangles: Vec<Triangle> = Vec::new();
            std::mem::swap(&mut bad_triangles, &mut self.bad_triangles);
            self.remove_all_bad_triangles_from_mesh(bad_triangles.as_slice());
            let ghost emptied = self@;
            self.bad_triangles = bad_triangles;
            assert(self@.mesh == emptied.mesh);
            return ;
        }
        let mut polygon: Vec<Edge> = Vec::new();
        std::mem::swap(&mut polygon, &mut self.polygon_for_new_triangles);
        self.add_triangles_from_polygon_edges(polygon.as_slice(), point);
        self.current_point_idx += 1;
        self.bad_triangles = Vec::new();

        self.state = InternalState::GetBadTrianglesInMesh(0);
        proof {
            assert(self@.bad_triangles == self@.mesh.take(0).filter(
                bad_for(self@.current_point()),
            )) by {
                reveal(Seq::filter);
            }
        }
    }
}

impl DelauneyTriangulationInformation {
    /// The triangles of the mesh, in the order in which they are stored.
    pub fn iter_triangles_in_mesh(&self) -> (triangles: &Vec<Triangle>)
        ensures
            triangles@ == self@.mesh,
    {
        self.triangulation_mesh.iter_triangles_in_mesh()
    }

    /// The phase that the next unit of work starts in.
    pub fn state(&self) -> (state: InternalState)
        ensures
            state == self@.state,
    {
        self.state
    }

    /// The points to triangulate.
    pub fn point_list(&self) -> (points: &Vec<Point>)
        ensures
            points@ == self@.point_list,
    {
        &self.point_list
    }

    /// The point that is being worked into the mesh, while there is one.
    pub fn current_point(&self) -> (point: Option<Point>)
        ensures
            point == if self@.out_of_points() {
                None
            } else {
                Some(self@.current_point())
            },
    {
        if self.current_point_idx < self.point_list.len() {
            Some(self.point_list[self.current_point_idx])
        } else {
            None
        }
    }

    /// The triangle that the mesh was seeded with, once it has been.
    pub fn super_triangle(&self) -> (seed: Option<Triangle>)
        ensures
            seed == self@.super_triangle,
    {
        self.super_triangle
    }

    /// For display: the triangle that the last unit of work tested, where
    /// its circumcircle holds the current point.
    pub fn bad_triangles_to_plot(&self) -> (triangles: &Vec<Triangle>)
        ensures
            triangles@ == self@.bad_triangles_to_plot,
    {
        &self.bad_triangles_to_plot
    }

    /// For display: the triangle that the last unit of work tested, where
    /// its circumcircle does not hold the current point.
    pub fn good_checked_triangles_to_plot(&self) -> (triangles: &Vec<Triangle>)
        ensures
            triangles@ == self@.good_checked_triangles_to_plot,
    {
        &self.good_checked_triangles_to_plot
    }

    /// For display: the circumcircle of the triangle that the last unit of
    /// work tested.
    pub fn circumcircles_to_plot(&self) -> (circles: &Vec<Circle>)
        ensures
            circles@.map_values(|c: Circle| c@) == self@.circumcircles_to_plot,
    {
        &self.circumcircles_to_plot
    }

    /// Tells whether the run is over: the mesh has been seeded, every point
    /// has been worked in, and the triangles at the bounding triangle have
    /// left the mesh.
    pub fn is_complete(&self) -> (complete: bool)
        ensures
            complete == self@.is_complete(),
    {
        if self.state == InternalState::Initial {
            return false;
        }
        if self.current_point_idx < self.point_list.len() {
            return false;
        }
        let super_triangle = match self.super_triangle {
            Some(super_triangle) => super_triangle,
            None => {
                return true;
            },
        };
        let triangles = self.triangulation_mesh.iter_triangles_in_mesh();
        let count = triangles.len();
        for idx in 0..count
            invariant
                count == triangles@.len(),
                triangles@ == self@.mesh,
                self@.super_triangle == Some(super_triangle),
                forall|i: int|
                    0 <= i < idx ==> !share_vertex(super_triangle, #[trigger] triangles@[i]),
        {
            if triangles_share_vertex(super_triangle, triangles[idx]) {
                assert(share_vertex(super_triangle, self@.mesh[idx as int]));
                return false;
            }
        }
        true
    }
}

/// The boundary of the hole that triangles in range leave is in range.
proof fn lemma_hole_boundary_keeps_range(triangles: Seq<Triangle>)
    requires
        forall|i: int| 0 <= i < triangles.len() ==> triangle_in_range(#[trigger] triangles[i]),
    ensures
        forall|i: int|
            0 <= i < hole_boundary(triangles).len() ==> edge_in_range(
                #[trigger] hole_boundary(triangles)[i],
            ),
{
    let boundary = hole_boundary(triangles);
    assert forall|i: int| 0 <= i < boundary.len() implies edge_in_range(#[trigger] boundary[i]) by {
        assert(boundary.contains(boundary[i]));
        lemma_hole_boundary_contains(triangles, boundary[i]);
        let (at, side) = choose|at: int, side: int|
            #[trigger] is_own_side(triangles, at, side, boundary[i]);
        assert(triangle_in_range(triangles[at]));
    }
}

/// Triangles in range stay in range when some of them are taken out.
proof fn lemma_without_each_keeps_range(triangles: Seq<Triangle>, gone: Seq<Triangle>)
    requires
        forall|i: int| 0 <= i < triangles.len() ==> triangle_in_range(#[trigger] triangles[i]),
    ensures
        forall|i: int|
            0 <= i < without_each(triangles, gone).len() ==> triangle_in_range(
                #[trigger] without_each(triangles, gone)[i],
            ),
{
    let left = without_each(triangles, gone);
    assert forall|i: int| 0 <= i < left.len() implies triangle_in_range(#[trigger] left[i]) by {
        assert(left.contains(left[i]));
        lemma_without_each_adds_nothing(triangles, gone, left[i]);
    }
}

} // verus!
