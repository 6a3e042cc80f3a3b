//! Circles through the three vertices of a triangle, held exactly.
//!
//! The centre of such a circle is rarely a point with integer coordinates.
//! A circle is therefore kept as one point on it together with the centre's
//! offset from that point as a fraction: two numerators and one denominator.

use crate::math::{triangle_in_range, Point, Triangle};
use vstd::prelude::*;

verus! {

/// `x * x + y * y`.
pub open spec fn squared_norm(x: int, y: int) -> int {
    x * x + y * y
}

/// A circle as a mathematical value. It passes through `through`, and its
/// centre is `through + (offset_x, offset_y) / scale`. Where `scale` is zero
/// there is no centre, and no point counts as inside.
pub struct CircleView {
    pub through: Point,
    pub offset_x: int,
    pub offset_y: int,
    pub scale: int,
}

impl CircleView {
    /// The centre, both coordinates multiplied by `scale`.
    pub open spec fn scaled_center(self) -> (int, int) {
        (self.scale * self.through.x + self.offset_x, self.scale * self.through.y + self.offset_y)
    }

    /// The square of the radius, multiplied by the square of `scale`.
    pub open spec fn scaled_squared_radius(self) -> int {
        squared_norm(self.offset_x, self.offset_y)
    }

    /// The square of the distance from the centre to `p`, multiplied by the
    /// square of `scale`.
    pub open spec fn scaled_squared_distance(self, p: Point) -> int {
        squared_norm(
            self.scale * p.x - self.scaled_center().0,
            self.scale * p.y - self.scaled_center().1,
        )
    }

    /// `p` is nearer to the centre than the radius: strictly inside. A point
    /// on the circle itself is not inside.
    pub open spec fn contains(self, p: Point) -> bool {
        self.scaled_squared_distance(p) < self.scaled_squared_radius()
    }

    /// `p` is at exactly the radius from the centre.
    pub open spec fn passes_through(self, p: Point) -> bool {
        self.scaled_squared_distance(p) == self.scaled_squared_radius()
    }
}

/// The circle through the three vertices of `t`. With `b` and `c` the second
/// and third vertex taken relative to the first, the centre relative to the
/// first vertex is
/// `(c.y * |b|^2 - b.y * |c|^2, b.x * |c|^2 - c.x * |b|^2) / (2 * (b.x * c.y - b.y * c.x))`.
/// The denominator is zero exactly when the vertices lie on one line.
pub open spec fn circumcircle(t: Triangle) -> CircleView {
    let bx = t[1].x - t[0].x;
    let by = t[1].y - t[0].y;
    let cx = t[2].x - t[0].x;
    let cy = t[2].y - t[0].y;
    let b2 = squared_norm(bx, by);
    let c2 = squared_norm(cx, cy);
    CircleView {
        through: t[0],
        offset_x: cy * b2 - by * c2,
        offset_y: bx * c2 - cx * b2,
        scale: 2 * (bx * cy - by * cx),
    }
}

/// `p` lies strictly inside the circle through the vertices of `t`.
pub open spec fn in_circumcircle(t: Triangle, p: Point) -> bool {
    circumcircle(t).contains(p)
}

/// A circle, as `CircleView` describes it.
#[derive(Debug, Clone, Copy, PartialEq, Eq, Structural)]
pub struct Circle {
    pub through: Point,
    pub offset_x: i128,
    pub offset_y: i128,
    pub scale: i128,
}

impl View for Circle {
    type V = CircleView;

    open spec fn view(&self) -> CircleView {
        CircleView {
            through: self.through,
            offset_x: self.offset_x as int,
            offset_y: self.offset_y as int,
            scale: self.scale as int,
        }
    }
}

impl Default for Circle {
    /// The circle that holds no point.
    fn default() -> (circle: Circle)
        ensures
            circle == (Circle { through: Point { x: 0, y: 0 }, offset_x: 0, offset_y: 0, scale: 0 }),
    {
        Circle { through: Point { x: 0, y: 0 }, offset_x: 0, offset_y: 0, scale: 0 }
    }
}

impl Circle {
    /// The parts are no larger than those of the circle through a triangle
    /// whose vertices are in range.
    pub open spec fn wf(self) -> bool {
        &&& self.through.in_range()
        &&& -0x1000_0000_0000_0000_0000_0000 <= self.offset_x <= 0x1000_0000_0000_0000_0000_0000
        &&& -0x1000_0000_0000_0000_0000_0000 <= self.offset_y <= 0x1000_0000_0000_0000_0000_0000
        &&& -0x4000_0000_0000_0000 <= self.scale <= 0x4000_0000_0000_0000
    }

    /// The circle through the three vertices of `triangle`.
    pub fn from(triangle: Triangle) -> (circle: Circle)
        requires
            triangle_in_range(triangle),
        ensures
            circle@ == circumcircle(triangle),
            circle.wf(),
    {
        let bx: i128 = triangle[1].x as i128 - triangle[0].x as i128;
        let by: i128 = triangle[1].y as i128 - triangle[0].y as i128;
        let cx: i128 = triangle[2].x as i128 - triangle[0].x as i128;
        let cy: i128 = triangle[2].y as i128 - triangle[0].y as i128;
        proof {
            lemma_product_bound(bx as int, bx as int, 0x4000_0000, 0x4000_0000);
            lemma_product_bound(by as int, by as int, 0x4000_0000, 0x4000_0000);
            lemma_product_bound(cx as int, cx as int, 0x4000_0000, 0x4000_0000);
            lemma_product_bound(cy as int, cy as int, 0x4000_0000, 0x4000_0000);
            lemma_product_bound(bx as int, cy as int, 0x4000_0000, 0x4000_0000);
            lemma_product_bound(by as int, cx as int, 0x4000_0000, 0x4000_0000);
        }
        let b2: i128 = bx * bx + by * by;
        let c2: i128 = cx * cx + cy * cy;
        proof {
            lemma_product_bound(cy as int, b2 as int, 0x4000_0000, 0x2000_0000_0000_0000);
            lemma_product_bound(by as int, c2 as int, 0x4000_0000, 0x2000_0000_0000_0000);
            lemma_product_bound(bx as int, c2 as int, 0x4000_0000, 0x2000_0000_0000_0000);
            lemma_product_bound(cx as int, b2 as int, 0x4000_0000, 0x2000_0000_0000_0000);
        }
        Circle {
            through: triangle[0],
            offset_x: cy * b2 - by * c2,
            offset_y: bx * c2 - cx * b2,
            scale: 2 * (bx * cy - by * cx),
        }
    }

    /// Tells whether `point` lies strictly inside the circle.
    pub fn is_point_inside_circle(&self, point: Point) -> (inside: bool)
        requires
            self.wf(),
            point.in_range(),
        ensures
            inside == self@.contains(point),
    {
        let qx: i128 = point.x as i128 - self.through.x as i128;
        let qy: i128 = point.y as i128 - self.through.y as i128;
        proof {
            lemma_product_bound(qx as int, qx as int, 0x4000_0000, 0x4000_0000);
            lemma_product_bound(qy as int, qy as int, 0x4000_0000, 0x4000_0000);
        }
        let q2: i128 = qx * qx + qy * qy;
        proof {
            lemma_product_bound(
                self.scale as int,
                q2 as int,
                0x4000_0000_0000_0000,
                0x2000_0000_0000_0000,
            );
            lemma_product_bound(
                qx as int,
                self.offset_x as int,
                0x4000_0000,
                0x1000_0000_0000_0000_0000_0000,
            );
            lemma_product_bound(
                qy as int,
                self.offset_y as int,
                0x4000_0000,
                0x1000_0000_0000_0000_0000_0000,
            );
        }
        let along: i128 = qx * self.offset_x + qy * self.offset_y;
        let excess: i128 = self.scale * q2 - 2 * along;
        proof {
            lemma_excess_decides(self@, point);
            lemma_product_sign(self.scale as int, excess as int);
        }
        (self.scale > 0 && excess < 0) || (self.scale < 0 && excess > 0)
    }
}

/// A product is no larger in absolute value than the product of the bounds
/// of its factors.
proof fn lemma_product_bound(x: int, y: int, x_bound: int, y_bound: int)
    by (nonlinear_arith)
    requires
        -x_bound <= x <= x_bound,
        -y_bound <= y <= y_bound,
    ensures
        -(x_bound * y_bound) <= x * y <= x_bound * y_bound,
{
}

/// A product is negative exactly when its factors have opposite signs.
proof fn lemma_product_sign(x: int, y: int)
    by (nonlinear_arith)
    ensures
        x * y < 0 <==> (x > 0 && y < 0) || (x < 0 && y > 0),
        x * y == 0 <==> x == 0 || y == 0,
{
}

/// With `q` the point taken relative to the point that the circle is known
/// to pass through, the scaled squared distance exceeds the scaled squared
/// radius by `scale * (scale * |q|^2 - 2 * (q . offset))`.
proof fn lemma_excess_decides(c: CircleView, p: Point)
    ensures
        c.scaled_squared_distance(p) - c.scaled_squared_radius() == c.scale * (c.scale
            * squared_norm(p.x - c.through.x, p.y - c.through.y) - 2 * ((p.x - c.through.x)
            * c.offset_x + (p.y - c.through.y) * c.offset_y)),
{
    let s = c.scale;
    let qx = p.x - c.through.x;
    let qy = p.y - c.through.y;
    let ox = c.offset_x;
    let oy = c.offset_y;
    assert(s * p.x - (s * c.through.x + ox) == s * qx - ox) by (nonlinear_arith)
        requires
            qx == p.x - c.through.x,
    ;
    assert(s * p.y - (s * c.through.y + oy) == s * qy - oy) by (nonlinear_arith)
        requires
            qy == p.y - c.through.y,
    ;
    lemma_square_of_scaled_difference(s, qx, ox);
    lemma_square_of_scaled_difference(s, qy, oy);
    let along_x = s * (qx * qx) - 2 * (qx * ox);
    let along_y = s * (qy * qy) - 2 * (qy * oy);
    assert(s * along_x + s * along_y == s * (along_x + along_y)) by (nonlinear_arith);
    assert(s * (qx * qx) + s * (qy * qy) == s * (qx * qx + qy * qy)) by (nonlinear_arith);
}

/// With `cross == bx * cy - by * cx`, the vector `(bx, by)` meets the
/// centre's offset in `|b|^2 * cross`, and `(cx, cy)` meets it in
/// `|c|^2 * cross`.
proof fn lemma_offset_along_sides(bx: int, by: int, cx: int, cy: int, b2: int, c2: int)
    ensures
        bx * (cy * b2 - by * c2) + by * (bx * c2 - cx * b2) == (bx * cy - by * cx) * b2,
        cx * (cy * b2 - by * c2) + cy * (bx * c2 - cx * b2) == (bx * cy - by * cx) * c2,
{
    assert(bx * (cy * b2 - by * c2) == (bx * cy) * b2 - (bx * by) * c2) by (nonlinear_arith);
    assert(by * (bx * c2 - cx * b2) == (bx * by) * c2 - (by * cx) * b2) by (nonlinear_arith);
    assert((bx * cy) * b2 - (by * cx) * b2 == (bx * cy - by * cx) * b2) by (nonlinear_arith);
    assert(cx * (cy * b2 - by * c2) == (cx * cy) * b2 - (by * cx) * c2) by (nonlinear_arith);
    assert(cy * (bx * c2 - cx * b2) == (bx * cy) * c2 - (cx * cy) * b2) by (nonlinear_arith);
    assert((bx * cy) * c2 - (by * cx) * c2 == (bx * cy - by * cx) * c2) by (nonlinear_arith);
}

/// The circle through the vertices of a triangle does pass through each of
/// them, so that its centre is at one distance from all three. This holds
/// of every triangle, also of one whose vertices lie on one line.
pub proof fn lemma_circumcircle_passes_through_vertices(t: Triangle)
    ensures
        circumcircle(t).passes_through(t[0]),
        circumcircle(t).passes_through(t[1]),
        circumcircle(t).passes_through(t[2]),
{
    let c = circumcircle(t);
    let bx = t[1].x - t[0].x;
    let by = t[1].y - t[0].y;
    let cx = t[2].x - t[0].x;
    let cy = t[2].y - t[0].y;
    let b2 = squared_norm(bx, by);
    let c2 = squared_norm(cx, cy);
    let cross = bx * cy - by * cx;
    lemma_excess_decides(c, t[0]);
    lemma_excess_decides(c, t[1]);
    lemma_excess_decides(c, t[2]);
    lemma_offset_along_sides(bx, by, cx, cy, b2, c2);
    assert(c.scale * squared_norm(0, 0) - 2 * (0 * c.offset_x + 0 * c.offset_y) == 0)
        by (nonlinear_arith);
    assert(c.scale * 0 == 0) by (nonlinear_arith);
    assert(c.scale * b2 == 2 * (cross * b2)) by (nonlinear_arith)
        requires
            c.scale == 2 * cross,
    ;
    assert(c.scale * c2 == 2 * (cross * c2)) by (nonlinear_arith)
        requires
            c.scale == 2 * cross,
    ;
}

/// No vertex of a triangle lies strictly inside the circle through its
/// vertices.
pub proof fn lemma_vertex_not_in_circumcircle(t: Triangle, p: Point)
    requires
        crate::math::has_vertex(t, p),
    ensures
        !in_circumcircle(t, p),
{
    lemma_circumcircle_passes_through_vertices(t);
}

/// Where the vertices of a triangle lie on one line, no point at all lies
/// inside the circle through them.
pub proof fn lemma_flat_triangle_holds_no_point(t: Triangle, p: Point)
    requires
        circumcircle(t).scale == 0,
    ensures
        !in_circumcircle(t, p),
{
    lemma_excess_decides(circumcircle(t), p);
    lemma_product_sign(
        circumcircle(t).scale,
        circumcircle(t).scale * squared_norm(p.x - t[0].x, p.y - t[0].y) - 2 * ((p.x - t[0].x)
            * circumcircle(t).offset_x + (p.y - t[0].y) * circumcircle(t).offset_y),
    );
}

/// `(s * q - o)^2 == s * (s * q^2 - 2 * q * o) + o^2`.
proof fn lemma_square_of_scaled_difference(s: int, q: int, o: int)
    ensures
        (s * q - o) * (s * q - o) == s * (s * (q * q) - 2 * (q * o)) + o * o,
{
    let sq = s * q;
    assert((sq - o) * (sq - o) == sq * sq - 2 * (sq * o) + o * o) by (nonlinear_arith);
    assert(sq * sq == s * (s * (q * q))) by (nonlinear_arith)
        requires
            sq == s * q,
    ;
    assert(sq * o == s * (q * o)) by (nonlinear_arith)
        requires
            sq == s * q,
    ;
    assert(s * (s * (q * q)) - 2 * (s * (q * o)) == s * (s * (q * q) - 2 * (q * o)))
        by (nonlinear_arith);
}

} // verus!
