//! Exact comparison of the directions of integer vectors.
//!
//! The direction of a vector `v` is measured by the angle between `v` and
//! the positive y axis, `acos(v.y / |v|)`, which lies in `[0, pi]`. Two such
//! angles are compared without leaving the integers: the angle of `a` is at
//! most that of `b` exactly when `a.y / |a| >= b.y / |b|`, and squaring both
//! sides with their signs kept turns that into a comparison of products.

use vstd::prelude::*;
use crate::geometry::{norm_squared, Point};
use crate::stable_sort::total_preorder;

verus! {

/// `v * |v|`: the square of `v` with the sign of `v`.
pub open spec fn signed_square(v: int) -> int {
    if v >= 0 {
        v * v
    } else {
        -(v * v)
    }
}

/// Whether the angle of `(ax, ay)` is at most the angle of `(bx, by)`.
///
/// The zero vector has no direction: it is put before every other vector.
pub open spec fn angle_le(ax: int, ay: int, bx: int, by: int) -> bool {
    if ax == 0 && ay == 0 {
        true
    } else if bx == 0 && by == 0 {
        false
    } else {
        signed_square(ay) * norm_squared(bx, by) >= signed_square(by) * norm_squared(ax, ay)
    }
}

/// The order of points by their angle as seen from `center`.
pub open spec fn angle_order(center: Point) -> spec_fn(Point, Point) -> bool {
    |p: Point, q: Point|
        angle_le(p.x - center.x, p.y - center.y, q.x - center.x, q.y - center.y)
}

proof fn lemma_norm_positive(x: int, y: int)
    requires
        x != 0 || y != 0,
    ensures
        norm_squared(x, y) > 0,
{
    assert(x * x >= 0 && y * y >= 0 && (x != 0 ==> x * x > 0) && (y != 0 ==> y * y > 0))
        by (nonlinear_arith);
}

proof fn lemma_ratio_transitive(p: int, m: int, q: int, n: int, r: int, k: int)
    requires
        m > 0,
        n > 0,
        k > 0,
        p * n >= q * m,
        q * k >= r * n,
    ensures
        p * k >= r * m,
{
    assert(p * n * k >= q * m * k) by (nonlinear_arith)
        requires
            p * n >= q * m,
            k > 0,
    ;
    assert(q * k * m >= r * n * m) by (nonlinear_arith)
        requires
            q * k >= r * n,
            m > 0,
    ;
    assert(q * m * k == q * k * m) by (nonlinear_arith);
    assert(p * n * k == (p * k) * n) by (nonlinear_arith);
    assert(r * n * m == (r * m) * n) by (nonlinear_arith);
    assert(p * k >= r * m) by (nonlinear_arith)
        requires
            (p * k) * n >= (r * m) * n,
            n > 0,
    ;
}

/// Of two vectors, one has an angle that is at most the angle of the other.
pub proof fn lemma_angle_le_total(ax: int, ay: int, bx: int, by: int)
    ensures
        angle_le(ax, ay, bx, by) || angle_le(bx, by, ax, ay),
{
}

/// Comparing angles is transitive.
pub proof fn lemma_angle_le_transitive(ax: int, ay: int, bx: int, by: int, cx: int, cy: int)
    requires
        angle_le(ax, ay, bx, by),
        angle_le(bx, by, cx, cy),
    ensures
        angle_le(ax, ay, cx, cy),
{
    if ax == 0 && ay == 0 {
    } else {
        lemma_norm_positive(ax, ay);
        lemma_norm_positive(bx, by);
        lemma_norm_positive(cx, cy);
        lemma_ratio_transitive(
            signed_square(ay),
            norm_squared(ax, ay),
            signed_square(by),
            norm_squared(bx, by),
            signed_square(cy),
            norm_squared(cx, cy),
        );
    }
}

/// Seen from any centre, the order by angle is a total preorder on points.
pub proof fn lemma_angle_order_total_preorder(center: Point)
    ensures
        total_preorder(angle_order(center)),
{
    let le = angle_order(center);
    assert forall|a: Point, b: Point, c: Point| #[trigger] le(a, b) && #[trigger] le(b, c) implies le(
        a,
        c,
    ) by {
        lemma_angle_le_transitive(
            a.x - center.x,
            a.y - center.y,
            b.x - center.x,
            b.y - center.y,
            c.x - center.x,
            c.y - center.y,
        );
    }
}

/// Decides `angle_le`.
pub fn angle_at_most(ax: i64, ay: i64, bx: i64, by: i64) -> (r: bool)
    ensures
        r == angle_le(ax as int, ay as int, bx as int, by as int),
{
    if ax == 0 && ay == 0 {
        return true;
    }
    if bx == 0 && by == 0 {
        return false;
    }
    if ay >= 0 && by < 0 {
        proof {
            lemma_norm_positive(ax as int, ay as int);
            lemma_norm_positive(bx as int, by as int);
            lemma_signs_decide(
                ay as int,
                norm_squared(bx as int, by as int),
                by as int,
                norm_squared(ax as int, ay as int),
            );
        }
        return true;
    }
    if ay < 0 && by >= 0 {
        proof {
            lemma_norm_positive(ax as int, ay as int);
            lemma_norm_positive(bx as int, by as int);
            lemma_signs_decide(
                by as int,
                norm_squared(ax as int, ay as int),
                ay as int,
                norm_squared(bx as int, by as int),
            );
        }
        return false;
    }
    let ax_abs: u128 = magnitude(ax);
    let ay_abs: u128 = magnitude(ay);
    let bx_abs: u128 = magnitude(bx);
    let by_abs: u128 = magnitude(by);
    assert(ay_abs * bx_abs <= 0x8000_0000_0000_0000 * 0x8000_0000_0000_0000) by (nonlinear_arith)
        requires
            0 <= ay_abs <= 0x8000_0000_0000_0000,
            0 <= bx_abs <= 0x8000_0000_0000_0000,
    ;
    assert(by_abs * ax_abs <= 0x8000_0000_0000_0000 * 0x8000_0000_0000_0000) by (nonlinear_arith)
        requires
            0 <= by_abs <= 0x8000_0000_0000_0000,
            0 <= ax_abs <= 0x8000_0000_0000_0000,
    ;
    let left: u128 = ay_abs * bx_abs;
    let right: u128 = by_abs * ax_abs;
    proof {
        lemma_cross_products(ax as int, ay as int, bx as int, by as int);
        let na = norm_squared(ax as int, ay as int);
        let nb = norm_squared(bx as int, by as int);
        assert((-(ay * ay)) * nb == -((ay * ay) * nb)) by (nonlinear_arith);
        assert((-(by * by)) * na == -((by * by) * na)) by (nonlinear_arith);
    }
    if ay >= 0 {
        left >= right
    } else {
        left <= right
    }
}

/// The absolute value of `v`.
fn magnitude(v: i64) -> (r: u128)
    ensures
        r == abs(v as int),
{
    if v >= 0 {
        v as u128
    } else {
        (-(v as i128)) as u128
    }
}

/// A product with a non-negative square is at least one with a negative
/// square, and strictly so where the two other factors are positive.
proof fn lemma_signs_decide(up: int, m: int, down: int, n: int)
    requires
        up >= 0,
        down < 0,
        m > 0,
        n > 0,
    ensures
        signed_square(up) * m >= 0,
        signed_square(down) * n < 0,
{
    assert(up * up >= 0) by (nonlinear_arith);
    assert(down * down > 0) by (nonlinear_arith)
        requires
            down < 0,
    ;
    assert(signed_square(up) * m >= 0) by (nonlinear_arith)
        requires
            signed_square(up) >= 0,
            m > 0,
    ;
    assert(signed_square(down) * n < 0) by (nonlinear_arith)
        requires
            signed_square(down) < 0,
            n > 0,
    ;
}

/// For two vectors whose y components have the same sign, the comparison of
/// `|ay| * |bx|` with `|by| * |ax|` is that of `ay^2 * |b|^2` with
/// `by^2 * |a|^2`.
proof fn lemma_cross_products(ax: int, ay: int, bx: int, by: int)
    ensures
        ({
            let left = abs(ay) * abs(bx);
            let right = abs(by) * abs(ax);
            let full_left = (ay * ay) * norm_squared(bx, by);
            let full_right = (by * by) * norm_squared(ax, ay);
            &&& left >= right <==> full_left >= full_right
            &&& left <= right <==> full_left <= full_right
        }),
{
    let left = abs(ay) * abs(bx);
    let right = abs(by) * abs(ax);
    assert(left >= 0 && right >= 0) by (nonlinear_arith)
        requires
            left == abs(ay) * abs(bx),
            right == abs(by) * abs(ax),
            abs(ay) >= 0,
            abs(bx) >= 0,
            abs(by) >= 0,
            abs(ax) >= 0,
    ;
    assert(left * left == (ay * ay) * (bx * bx)) by (nonlinear_arith)
        requires
            left == abs(ay) * abs(bx),
            abs(ay) == ay || abs(ay) == -ay,
            abs(bx) == bx || abs(bx) == -bx,
    ;
    assert(right * right == (by * by) * (ax * ax)) by (nonlinear_arith)
        requires
            right == abs(by) * abs(ax),
            abs(by) == by || abs(by) == -by,
            abs(ax) == ax || abs(ax) == -ax,
    ;
    assert((ay * ay) * norm_squared(bx, by) == left * left + (ay * ay) * (by * by))
        by (nonlinear_arith)
        requires
            left * left == (ay * ay) * (bx * bx),
            norm_squared(bx, by) == bx * bx + by * by,
    ;
    assert((by * by) * norm_squared(ax, ay) == right * right + (ay * ay) * (by * by))
        by (nonlinear_arith)
        requires
            right * right == (by * by) * (ax * ax),
            norm_squared(ax, ay) == ax * ax + ay * ay,
    ;
    assert(left >= right <==> left * left >= right * right) by (nonlinear_arith)
        requires
            left >= 0,
            right >= 0,
    ;
    assert(left <= right <==> left * left <= right * right) by (nonlinear_arith)
        requires
            left >= 0,
            right >= 0,
    ;
}

/// The absolute value of an integer.
pub open spec fn abs(v: int) -> int {
    if v >= 0 {
        v
    } else {
        -v
    }
}

} // verus!
