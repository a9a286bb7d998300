//! Points on an integer grid and the exact geometric predicates of the
//! triangulation: triangle orientation and the strict in-circumcircle test,
//! computed as the sign of the determinant of the four lifted points.

use vstd::prelude::*;

verus! {

/// Largest coordinate magnitude the predicates accept.  With coordinates in
/// `[-MAX_COORD, MAX_COORD]` every intermediate value of the lifted 4x4
/// determinant fits comfortably in an `i128`.
pub const MAX_COORD: i64 = 16384;

/// A point of the plane on the integer grid.  Callers that work in real
/// coordinates scale them to this grid (one spatial unit = `MAX_COORD` steps).
#[derive(Clone, Copy, PartialEq, Eq, Structural, Debug)]
pub struct Point {
    pub x: i64,
    pub y: i64,
}

/// The point lies on the part of the grid the predicates accept.
pub open spec fn pt_ok(p: Point) -> bool {
    &&& -(MAX_COORD as int) <= p.x as int <= MAX_COORD as int
    &&& -(MAX_COORD as int) <= p.y as int <= MAX_COORD as int
}

/// Determinant of the 3x3 matrix `[[a, b, c], [d, e, f], [g, h, i]]`.
pub open spec fn det3(
    a: int,
    b: int,
    c: int,
    d: int,
    e: int,
    f: int,
    g: int,
    h: int,
    i: int,
) -> int {
    a * (e * i - h * f) - b * (d * i - g * f) + c * (d * h - g * e)
}

/// Squared distance of `(x, y)` from the origin: the third coordinate of the
/// paraboloid lifting `(x, y) |-> (x, y, x^2 + y^2, 1)`.
pub open spec fn sq(x: int, y: int) -> int {
    x * x + y * y
}

/// Determinant of the 4x4 matrix whose rows are the lifted points
/// `a`, `b`, `c`, `p`, expanded along the first row.
pub open spec fn circum_det(p: Point, a: Point, b: Point, c: Point) -> int {
    let qa = sq(a.x as int, a.y as int);
    let qb = sq(b.x as int, b.y as int);
    let qc = sq(c.x as int, c.y as int);
    let qp = sq(p.x as int, p.y as int);
    a.x * det3(b.y as int, qb, 1, c.y as int, qc, 1, p.y as int, qp, 1)
        - a.y * det3(b.x as int, qb, 1, c.x as int, qc, 1, p.x as int, qp, 1)
        + qa * det3(b.x as int, b.y as int, 1, c.x as int, c.y as int, 1, p.x as int, p.y as int, 1)
        - det3(b.x as int, b.y as int, qb, c.x as int, c.y as int, qc, p.x as int, p.y as int, qp)
}

/// `p` lies strictly inside the circle through `a`, `b`, `c`, provided the
/// triangle `a`, `b`, `c` is in counterclockwise orientation.  A clockwise
/// triangle flips the sign; a degenerate (collinear) triangle or an on-circle
/// `p` gives determinant zero, hence `false`.
pub open spec fn in_circumcircle_spec(p: Point, a: Point, b: Point, c: Point) -> bool {
    circum_det(p, a, b, c) > 0
}

/// Twice the signed area of the triangle `a`, `b`, `c`: positive when the
/// three points run counterclockwise, negative when clockwise, zero when
/// collinear.
pub open spec fn orient_spec(a: Point, b: Point, c: Point) -> int {
    (b.x - a.x) * (c.y - a.y) - (b.y - a.y) * (c.x - a.x)
}

/// Determinant of a 3x3 matrix with entries bounded by `bnd`, with the bound
/// threaded through so each intermediate product is provably in range.
fn det3_exec(
    a: i128,
    b: i128,
    c: i128,
    d: i128,
    e: i128,
    f: i128,
    g: i128,
    h: i128,
    i: i128,
    Ghost(bnd): Ghost<int>,
) -> (r: i128)
    requires
        1 <= bnd,
        6 * bnd * bnd * bnd <= i128::MAX,
        -bnd <= a as int <= bnd,
        -bnd <= b as int <= bnd,
        -bnd <= c as int <= bnd,
        -bnd <= d as int <= bnd,
        -bnd <= e as int <= bnd,
        -bnd <= f as int <= bnd,
        -bnd <= g as int <= bnd,
        -bnd <= h as int <= bnd,
        -bnd <= i as int <= bnd,
    ensures
        r as int == det3(
            a as int,
            b as int,
            c as int,
            d as int,
            e as int,
            f as int,
            g as int,
            h as int,
            i as int,
        ),
        -(6 * bnd * bnd * bnd) <= r as int <= 6 * bnd * bnd * bnd,
{
    proof {
        assert((-(bnd * bnd) <= e * i <= bnd * bnd) && (-(bnd * bnd) <= h * f <= bnd * bnd) && (-(
        bnd * bnd) <= d * i <= bnd * bnd) && (-(bnd * bnd) <= g * f <= bnd * bnd) && (-(bnd * bnd)
            <= d * h <= bnd * bnd) && (-(bnd * bnd) <= g * e <= bnd * bnd) && (bnd * bnd + bnd * bnd
            <= 6 * bnd * bnd * bnd)) by (nonlinear_arith)
            requires
                1 <= bnd,
                -bnd <= d as int <= bnd,
                -bnd <= e as int <= bnd,
                -bnd <= f as int <= bnd,
                -bnd <= g as int <= bnd,
                -bnd <= h as int <= bnd,
                -bnd <= i as int <= bnd,
        ;
    }
    let m1: i128 = e * i - h * f;
    let m2: i128 = d * i - g * f;
    let m3: i128 = d * h - g * e;
    proof {
        assert((-(2 * bnd * bnd * bnd) <= a * m1 <= 2 * bnd * bnd * bnd) && (-(2 * bnd * bnd * bnd)
            <= b * m2 <= 2 * bnd * bnd * bnd) && (-(2 * bnd * bnd * bnd) <= c * m3 <= 2 * bnd * bnd
            * bnd) && (2 * bnd * bnd * bnd + 2 * bnd * bnd * bnd + 2 * bnd * bnd * bnd <= 6 * bnd
            * bnd * bnd)) by (nonlinear_arith)
            requires
                1 <= bnd,
                -bnd <= a as int <= bnd,
                -bnd <= b as int <= bnd,
                -bnd <= c as int <= bnd,
                -(bnd * bnd + bnd * bnd) <= m1 as int <= bnd * bnd + bnd * bnd,
                -(bnd * bnd + bnd * bnd) <= m2 as int <= bnd * bnd + bnd * bnd,
                -(bnd * bnd + bnd * bnd) <= m3 as int <= bnd * bnd + bnd * bnd,
        ;
    }
    let t1: i128 = a * m1;
    let t2: i128 = b * m2;
    let t3: i128 = c * m3;
    t1 - t2 + t3
}

/// The strict in-circumcircle predicate: the sign of the determinant of the
/// four points lifted to the paraboloid, rows `a`, `b`, `c`, `p`.
pub fn point_in_circumcircle(p: Point, a: Point, b: Point, c: Point) -> (r: bool)
    requires
        pt_ok(p),
        pt_ok(a),
        pt_ok(b),
        pt_ok(c),
    ensures
        r == in_circumcircle_spec(p, a, b, c),
{
    let ghost bnd: int = 536870912;
    let ax: i128 = a.x as i128;
    let ay: i128 = a.y as i128;
    let bx: i128 = b.x as i128;
    let by: i128 = b.y as i128;
    let cx: i128 = c.x as i128;
    let cy: i128 = c.y as i128;
    let px: i128 = p.x as i128;
    let py: i128 = p.y as i128;
    proof {
        assert((0 <= ax * ax <= 268435456) && (0 <= ay * ay <= 268435456) && (0 <= bx * bx
            <= 268435456) && (0 <= by * by <= 268435456) && (0 <= cx * cx <= 268435456) && (0 <= cy
            * cy <= 268435456) && (0 <= px * px <= 268435456) && (0 <= py * py <= 268435456))
            by (nonlinear_arith)
            requires
                -16384 <= ax as int <= 16384,
                -16384 <= ay as int <= 16384,
                -16384 <= bx as int <= 16384,
                -16384 <= by as int <= 16384,
                -16384 <= cx as int <= 16384,
                -16384 <= cy as int <= 16384,
                -16384 <= px as int <= 16384,
                -16384 <= py as int <= 16384,
        ;
        assert(6 * bnd * bnd * bnd <= i128::MAX) by (nonlinear_arith)
            requires
                bnd == 536870912,
        ;
    }
    let qa: i128 = ax * ax + ay * ay;
    let qb: i128 = bx * bx + by * by;
    let qc: i128 = cx * cx + cy * cy;
    let qp: i128 = px * px + py * py;
    let d1: i128 = det3_exec(by, qb, 1, cy, qc, 1, py, qp, 1, Ghost(bnd));
    let d2: i128 = det3_exec(bx, qb, 1, cx, qc, 1, px, qp, 1, Ghost(bnd));
    let d3: i128 = det3_exec(bx, by, 1, cx, cy, 1, px, py, 1, Ghost(bnd));
    let d4: i128 = det3_exec(bx, by, qb, cx, cy, qc, px, py, qp, Ghost(bnd));
    proof {
        assert((-(6 * bnd * bnd * bnd * bnd) <= ax * d1 <= 6 * bnd * bnd * bnd * bnd) && (-(6 * bnd
            * bnd * bnd * bnd) <= ay * d2 <= 6 * bnd * bnd * bnd * bnd) && (-(6 * bnd * bnd * bnd
            * bnd) <= qa * d3 <= 6 * bnd * bnd * bnd * bnd) && (6 * bnd * bnd * bnd * bnd + 6 * bnd
            * bnd * bnd * bnd + 6 * bnd * bnd * bnd * bnd + 6 * bnd * bnd * bnd <= i128::MAX))
            by (nonlinear_arith)
            requires
                bnd == 536870912,
                -16384 <= ax as int <= 16384,
                -16384 <= ay as int <= 16384,
                0 <= qa as int <= 536870912,
                -(6 * bnd * bnd * bnd) <= d1 as int <= 6 * bnd * bnd * bnd,
                -(6 * bnd * bnd * bnd) <= d2 as int <= 6 * bnd * bnd * bnd,
                -(6 * bnd * bnd * bnd) <= d3 as int <= 6 * bnd * bnd * bnd,
        ;
    }
    let s1: i128 = ax * d1;
    let s2: i128 = ay * d2;
    let s3: i128 = qa * d3;
    let det: i128 = s1 - s2 + s3 - d4;
    det > 0
}

/// Twice the signed area of `a`, `b`, `c`; positive exactly for
/// counterclockwise order.
pub fn orient2d(a: Point, b: Point, c: Point) -> (r: i64)
    requires
        pt_ok(a),
        pt_ok(b),
        pt_ok(c),
    ensures
        r as int == orient_spec(a, b, c),
{
    let ux: i64 = b.x - a.x;
    let uy: i64 = b.y - a.y;
    let vx: i64 = c.x - a.x;
    let vy: i64 = c.y - a.y;
    proof {
        assert((-1073741824 <= ux * vy <= 1073741824) && (-1073741824 <= uy * vx <= 1073741824))
            by (nonlinear_arith)
            requires
                -32768 <= ux as int <= 32768,
                -32768 <= uy as int <= 32768,
                -32768 <= vx as int <= 32768,
                -32768 <= vy as int <= 32768,
        ;
    }
    ux * vy - uy * vx
}

} // verus!
