//! Planning the perspective correction of a quadrilateral.
//!
//! The flattened page is as wide as the longer of the top and bottom edges
//! of the quadrilateral and as high as the longer of its left and right
//! edges. Edge lengths are square roots of integers; the plan carries the
//! exact squares and the nearest whole numbers of pixels.

use vstd::prelude::*;
use crate::geometry::{collinear, norm_squared, on_one_line, Geometry, Line, Point, Rect};

verus! {

/// Why a quadrilateral cannot be flattened.
#[derive(Clone, Copy, Debug, PartialEq, Eq, Structural)]
pub enum RectifyError {
    /// Three of the corners lie on one line, so that no perspective map
    /// takes the corners to those of a rectangle.
    SingularTransform,
}

/// What is needed to flatten a quadrilateral.
#[derive(Debug)]
pub struct RectifyPlan {
    /// The corners to map from: top right, top left, bottom left, bottom
    /// right. They go, in this order, to `(0, 0)`, `(w - 1, 0)`,
    /// `(w - 1, h - 1)` and `(0, h - 1)`, where `w` and `h` are the roots
    /// of `width_squared` and `height_squared`.
    pub source: Vec<Point>,
    /// The square of the width of the flattened page.
    pub width_squared: u128,
    /// The square of the height of the flattened page.
    pub height_squared: u128,
    /// The width of the output image: the width, rounded.
    pub width: u64,
    /// The height of the output image: the height, rounded.
    pub height: u64,
}

/// The corners of `quad` in the order in which they are mapped: top right,
/// top left, bottom left, bottom right.
pub open spec fn corners(quad: Rect) -> Seq<Point> {
    seq![quad.top_right, quad.top_left, quad.bottom_left, quad.bottom_right]
}

/// Whether some three corners of `quad` lie on one line.
pub open spec fn degenerate(quad: Rect) -> bool {
    ||| collinear(quad.top_left, quad.top_right, quad.bottom_right)
    ||| collinear(quad.top_right, quad.bottom_right, quad.bottom_left)
    ||| collinear(quad.bottom_right, quad.bottom_left, quad.top_left)
    ||| collinear(quad.bottom_left, quad.top_left, quad.top_right)
}

/// The larger of two integers.
pub open spec fn larger(a: int, b: int) -> int {
    if a >= b {
        a
    } else {
        b
    }
}

/// The square of the width of the page that `quad` flattens to.
pub open spec fn page_width_squared(quad: Rect) -> int {
    larger(
        (Line { p1: quad.top_left, p2: quad.top_right }).spec_length_squared(),
        (Line { p1: quad.bottom_right, p2: quad.bottom_left }).spec_length_squared(),
    )
}

/// The square of the height of the page that `quad` flattens to.
pub open spec fn page_height_squared(quad: Rect) -> int {
    larger(
        (Line { p1: quad.bottom_left, p2: quad.top_left }).spec_length_squared(),
        (Line { p1: quad.top_right, p2: quad.bottom_right }).spec_length_squared(),
    )
}

/// Whether `r` is the whole number nearest to the square root of `n`:
/// `r - 1/2 < sqrt(n) < r + 1/2`, with both sides doubled and squared.
/// The root of a whole number never lies half way between two others.
pub open spec fn nearest_root(n: int, r: int) -> bool {
    &&& r >= 0
    &&& 4 * n < (2 * r + 1) * (2 * r + 1)
    &&& r == 0 || (2 * r - 1) * (2 * r - 1) < 4 * n
}

/// Whether `plan` is the plan for flattening `quad`.
pub open spec fn plans(plan: RectifyPlan, quad: Rect) -> bool {
    &&& plan.source@ == corners(quad)
    &&& plan.width_squared == page_width_squared(quad)
    &&& plan.height_squared == page_height_squared(quad)
    &&& nearest_root(plan.width_squared as int, plan.width as int)
    &&& nearest_root(plan.height_squared as int, plan.height as int)
}

/// The whole number nearest to the square root of `n`.
pub fn rounded_root(n: u128) -> (r: u128)
    ensures
        nearest_root(n as int, r as int),
        r <= 0x1_0000_0000_0000_0000,
{
    let mut low: u128 = 0;
    let mut high: u128 = 0x1_0000_0000_0000_0000;
    assert(high * high > n) by (nonlinear_arith)
        requires
            high == 0x1_0000_0000_0000_0000,
            n <= 0xffff_ffff_ffff_ffff_ffff_ffff_ffff_ffff,
    ;
    while high - low > 1
        invariant
            low < high <= 0x1_0000_0000_0000_0000,
            low * low <= n,
            high * high > n,
        decreases high - low,
    {
        let mid: u128 = low + (high - low) / 2;
        assert(mid * mid <= 0xffff_ffff_ffff_ffff * 0xffff_ffff_ffff_ffff) by (nonlinear_arith)
            requires
                0 <= mid <= 0xffff_ffff_ffff_ffff,
        ;
        if mid * mid <= n {
            low = mid;
        } else {
            high = mid;
        }
    }
    assert(high == low + 1);
    assert(low * low <= 0xffff_ffff_ffff_ffff * 0xffff_ffff_ffff_ffff) by (nonlinear_arith)
        requires
            0 <= low <= 0xffff_ffff_ffff_ffff,
    ;
    let excess: u128 = n - low * low;
    proof {
        let l = low as int;
        assert((l + 1) * (l + 1) == l * l + 2 * l + 1) by (nonlinear_arith);
        assert((2 * l + 1) * (2 * l + 1) == 4 * (l * l) + 4 * l + 1) by (nonlinear_arith);
        assert((2 * l - 1) * (2 * l - 1) == 4 * (l * l) - 4 * l + 1) by (nonlinear_arith);
        assert((2 * (l + 1) + 1) * (2 * (l + 1) + 1) == 4 * (l * l) + 12 * l + 9)
            by (nonlinear_arith);
        assert((2 * (l + 1) - 1) * (2 * (l + 1) - 1) == 4 * (l * l) + 4 * l + 1)
            by (nonlinear_arith);
    }
    if excess > low {
        low + 1
    } else {
        low
    }
}

/// At most one whole number is nearest to a square root.
pub proof fn lemma_nearest_root_unique(n: int, r1: int, r2: int)
    requires
        nearest_root(n, r1),
        nearest_root(n, r2),
    ensures
        r1 == r2,
{
    if r1 < r2 {
        assert((2 * r1 + 1) * (2 * r1 + 1) <= (2 * r2 - 1) * (2 * r2 - 1)) by (nonlinear_arith)
            requires
                0 <= r1,
                r1 + 1 <= r2,
        ;
    } else if r2 < r1 {
        assert((2 * r2 + 1) * (2 * r2 + 1) <= (2 * r1 - 1) * (2 * r1 - 1)) by (nonlinear_arith)
            requires
                0 <= r2,
                r2 + 1 <= r1,
        ;
    }
}

/// The whole number nearest to the root of a square is the number squared.
pub proof fn lemma_nearest_root_of_square(w: int, r: int)
    requires
        w >= 0,
        nearest_root(w * w, r),
    ensures
        r == w,
{
    assert(nearest_root(w * w, w)) by {
        assert((2 * w + 1) * (2 * w + 1) == 4 * (w * w) + 4 * w + 1) by (nonlinear_arith);
        assert((2 * w - 1) * (2 * w - 1) == 4 * (w * w) - 4 * w + 1) by (nonlinear_arith);
    }
    lemma_nearest_root_unique(w * w, r, w);
}

/// The root of the square of a length between points is below `2^33`.
proof fn lemma_root_of_length_fits(n: int, r: int)
    requires
        0 <= n <= 2 * 0xffff_ffff * 0xffff_ffff,
        nearest_root(n, r),
    ensures
        r <= 0x2_0000_0000,
{
    if r > 0x2_0000_0000 {
        assert((2 * r - 1) * (2 * r - 1) >= 0x4_0000_0001 * 0x4_0000_0001) by (nonlinear_arith)
            requires
                r >= 0x2_0000_0001,
        ;
    }
}

impl Rect {
    /// The corners in the order in which they are mapped: top right, top
    /// left, bottom left, bottom right.
    pub fn corners(&self) -> (r: Vec<Point>)
        ensures
            r@ == corners(*self),
    {
        let mut r: Vec<Point> = Vec::new();
        r.push(self.top_right);
        r.push(self.top_left);
        r.push(self.bottom_left);
        r.push(self.bottom_right);
        assert(r@ =~= corners(*self));
        r
    }

    /// Whether some three corners lie on one line.
    pub fn is_degenerate(&self) -> (r: bool)
        ensures
            r == degenerate(*self),
    {
        on_one_line(self.top_left, self.top_right, self.bottom_right) || on_one_line(
            self.top_right,
            self.bottom_right,
            self.bottom_left,
        ) || on_one_line(self.bottom_right, self.bottom_left, self.top_left) || on_one_line(
            self.bottom_left,
            self.top_left,
            self.top_right,
        )
    }
}

/// The larger of the squared lengths of two edges.
fn longer_squared(a: &Line, b: &Line) -> (r: u128)
    ensures
        r == larger(a.spec_length_squared(), b.spec_length_squared()),
        r <= 2 * 0xffff_ffff * 0xffff_ffff,
{
    let la: u128 = a.length_squared();
    let lb: u128 = b.length_squared();
    proof {
        lemma_length_bound(*a);
        lemma_length_bound(*b);
    }
    if la >= lb {
        la
    } else {
        lb
    }
}

/// The squared length of a segment between points with `i32` coordinates.
proof fn lemma_length_bound(l: Line)
    ensures
        0 <= l.spec_length_squared() <= 2 * 0xffff_ffff * 0xffff_ffff,
{
    let dx = l.p2.x - l.p1.x;
    let dy = l.p2.y - l.p1.y;
    assert(0 <= dx * dx <= 0xffff_ffff * 0xffff_ffff) by (nonlinear_arith)
        requires
            -0xffff_ffff <= dx <= 0xffff_ffff,
    ;
    assert(0 <= dy * dy <= 0xffff_ffff * 0xffff_ffff) by (nonlinear_arith)
        requires
            -0xffff_ffff <= dy <= 0xffff_ffff,
    ;
}

/// Plans the flattening of `quad`.
///
/// Fails exactly when some three corners of `quad` lie on one line.
pub fn plan_rectification(quad: &Rect) -> (r: Result<RectifyPlan, RectifyError>)
    ensures
        r is Err <==> degenerate(*quad),
        r matches Err(e) ==> e == RectifyError::SingularTransform,
        r matches Ok(plan) ==> plans(plan, *quad),
{
    if quad.is_degenerate() {
        return Err(RectifyError::SingularTransform);
    }
    let width_squared: u128 = longer_squared(&quad.top(), &quad.bottom());
    let height_squared: u128 = longer_squared(&quad.left(), &quad.right());
    let width: u128 = rounded_root(width_squared);
    let height: u128 = rounded_root(height_squared);
    proof {
        lemma_root_of_length_fits(width_squared as int, width as int);
        lemma_root_of_length_fits(height_squared as int, height as int);
    }
    Ok(
        RectifyPlan {
            source: quad.corners(),
            width_squared,
            height_squared,
            width: width as u64,
            height: height as u64,
        },
    )
}

/// A rectangle with sides along the axes, `w` wide and `h` high, is
/// flattened to an image of `w` by `h` pixels.
pub proof fn lemma_upright_rectangle_keeps_size(quad: Rect, w: int, h: int, plan: RectifyPlan)
    requires
        w > 0,
        h > 0,
        quad.top_right.x == quad.top_left.x + w,
        quad.top_right.y == quad.top_left.y,
        quad.bottom_left.x == quad.top_left.x,
        quad.bottom_left.y == quad.top_left.y + h,
        quad.bottom_right.x == quad.top_left.x + w,
        quad.bottom_right.y == quad.top_left.y + h,
        plans(plan, quad),
    ensures
        !degenerate(quad),
        plan.width == w,
        plan.height == h,
{
    assert(w * h != 0 && (-w) * h != 0 && w * (-h) != 0 && (-w) * (-h) != 0 && 0 * h == 0 && w * 0
        == 0 && 0 * (-h) == 0 && (-w) * 0 == 0) by (nonlinear_arith)
        requires
            w > 0,
            h > 0,
    ;
    assert((-w) * (-w) == w * w && (-h) * (-h) == h * h) by (nonlinear_arith);
    let top = Line { p1: quad.top_left, p2: quad.top_right };
    let bottom = Line { p1: quad.bottom_right, p2: quad.bottom_left };
    let left = Line { p1: quad.bottom_left, p2: quad.top_left };
    let right = Line { p1: quad.top_right, p2: quad.bottom_right };
    assert(top.p2.x - top.p1.x == w && top.p2.y - top.p1.y == 0);
    assert(bottom.p2.x - bottom.p1.x == -w && bottom.p2.y - bottom.p1.y == 0);
    assert(left.p2.x - left.p1.x == 0 && left.p2.y - left.p1.y == -h);
    assert(right.p2.x - right.p1.x == 0 && right.p2.y - right.p1.y == h);
    assert(forall|a: int, b: int| b == 0 ==> #[trigger] norm_squared(a, b) == a * a)
        by (nonlinear_arith);
    assert(forall|a: int, b: int| a == 0 ==> #[trigger] norm_squared(a, b) == b * b)
        by (nonlinear_arith);
    assert(forall|a: int, b: int| a == -b ==> #[trigger] (a * a) == #[trigger] (b * b))
        by (nonlinear_arith);
    assert(top.spec_length_squared() == w * w);
    assert(bottom.spec_length_squared() == w * w);
    assert(left.spec_length_squared() == h * h);
    assert(right.spec_length_squared() == h * h);
    assert(page_width_squared(quad) == w * w);
    assert(page_height_squared(quad) == h * h);
    lemma_nearest_root_of_square(w, plan.width as int);
    lemma_nearest_root_of_square(h, plan.height as int);
}

} // verus!
