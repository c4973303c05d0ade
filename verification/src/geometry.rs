//! Points, segments and quadrilaterals with integer coordinates.

use vstd::prelude::*;

verus! {

/// A pixel position, or a displacement between two of them.
#[derive(Clone, Copy, Debug, PartialEq, Eq, Structural)]
pub struct Point {
    pub x: i32,
    pub y: i32,
}

/// The segment from `p1` to `p2`.
#[derive(Clone, Copy, Debug, PartialEq, Eq, Structural)]
pub struct Line {
    pub p1: Point,
    pub p2: Point,
}

/// A quadrilateral whose four corners have been given their roles.
///
/// A quadrilateral that bounds a document is `well_formed`: its corners do
/// not all lie on one line.
#[derive(Clone, Copy, Debug, PartialEq, Eq, Structural)]
pub struct Rect {
    pub top_left: Point,
    pub top_right: Point,
    pub bottom_left: Point,
    pub bottom_right: Point,
}

/// Whether `a`, `b` and `c` lie on one line. Two of them being the same
/// point is a case of this.
pub open spec fn collinear(a: Point, b: Point, c: Point) -> bool {
    (b.x - a.x) * (c.y - a.y) == (c.x - a.x) * (b.y - a.y)
}

/// The square of the Euclidean norm of the vector `(dx, dy)`.
pub open spec fn norm_squared(dx: int, dy: int) -> int {
    dx * dx + dy * dy
}

/// Things that have a Euclidean length.
///
/// Lengths of integer geometry are square roots of integers. The trait
/// gives the integer under the root, which is exact and is all that is
/// needed to compare two lengths.
pub trait Geometry {
    /// The square of the Euclidean length.
    spec fn spec_length_squared(&self) -> int;

    /// Computes the square of the Euclidean length.
    fn length_squared(&self) -> (r: u128)
        ensures
            r == self.spec_length_squared(),
    ;
}

/// `a * a + b * b` for two differences of `i32` values.
fn sum_of_squares(a: i64, b: i64) -> (r: u128)
    requires
        -0xffff_ffff <= a <= 0xffff_ffff,
        -0xffff_ffff <= b <= 0xffff_ffff,
    ensures
        r == norm_squared(a as int, b as int),
        r <= 2 * 0xffff_ffff * 0xffff_ffff,
{
    let a_wide: i128 = a as i128;
    let b_wide: i128 = b as i128;
    assert(0 <= a_wide * a_wide <= 0xffff_ffff * 0xffff_ffff) by (nonlinear_arith)
        requires
            -0xffff_ffff <= a_wide <= 0xffff_ffff,
    ;
    assert(0 <= b_wide * b_wide <= 0xffff_ffff * 0xffff_ffff) by (nonlinear_arith)
        requires
            -0xffff_ffff <= b_wide <= 0xffff_ffff,
    ;
    (a_wide * a_wide + b_wide * b_wide) as u128
}

impl Geometry for Point {
    /// The squared distance of the point from the origin.
    open spec fn spec_length_squared(&self) -> int {
        norm_squared(self.x as int, self.y as int)
    }

    fn length_squared(&self) -> (r: u128) {
        sum_of_squares(self.x as i64, self.y as i64)
    }
}

impl Geometry for Line {
    /// The squared distance between the two end points.
    open spec fn spec_length_squared(&self) -> int {
        norm_squared(self.p2.x - self.p1.x, self.p2.y - self.p1.y)
    }

    fn length_squared(&self) -> (r: u128) {
        let dx: i64 = self.p2.x as i64 - self.p1.x as i64;
        let dy: i64 = self.p2.y as i64 - self.p1.y as i64;
        sum_of_squares(dx, dy)
    }
}

/// Decides whether three points lie on one line.
pub fn on_one_line(a: Point, b: Point, c: Point) -> (r: bool)
    ensures
        r == collinear(a, b, c),
{
    let abx: i128 = b.x as i128 - a.x as i128;
    let aby: i128 = b.y as i128 - a.y as i128;
    let acx: i128 = c.x as i128 - a.x as i128;
    let acy: i128 = c.y as i128 - a.y as i128;
    assert(-0xffff_ffff * 0xffff_ffff <= abx * acy <= 0xffff_ffff * 0xffff_ffff)
        by (nonlinear_arith)
        requires
            -0xffff_ffff <= abx <= 0xffff_ffff,
            -0xffff_ffff <= acy <= 0xffff_ffff,
    ;
    assert(-0xffff_ffff * 0xffff_ffff <= acx * aby <= 0xffff_ffff * 0xffff_ffff)
        by (nonlinear_arith)
        requires
            -0xffff_ffff <= acx <= 0xffff_ffff,
            -0xffff_ffff <= aby <= 0xffff_ffff,
    ;
    abx * acy == acx * aby
}

impl Rect {
    /// Whether the corners span an area: going round, some three corners
    /// in a row do not lie on one line.
    pub open spec fn well_formed(&self) -> bool {
        ||| !collinear(self.top_left, self.top_right, self.bottom_right)
        ||| !collinear(self.top_right, self.bottom_right, self.bottom_left)
        ||| !collinear(self.bottom_right, self.bottom_left, self.top_left)
        ||| !collinear(self.bottom_left, self.top_left, self.top_right)
    }

    /// Decides whether the corners span an area.
    pub fn is_well_formed(&self) -> (r: bool)
        ensures
            r == self.well_formed(),
    {
        !on_one_line(self.top_left, self.top_right, self.bottom_right) || !on_one_line(
            self.top_right,
            self.bottom_right,
            self.bottom_left,
        ) || !on_one_line(self.bottom_right, self.bottom_left, self.top_left) || !on_one_line(
            self.bottom_left,
            self.top_left,
            self.top_right,
        )
    }

    /// The edge from the top-left corner to the top-right corner.
    pub fn top(&self) -> (l: Line)
        ensures
            l == (Line { p1: self.top_left, p2: self.top_right }),
    {
        Line { p1: self.top_left, p2: self.top_right }
    }

    /// The edge from the top-right corner to the bottom-right corner.
    pub fn right(&self) -> (l: Line)
        ensures
            l == (Line { p1: self.top_right, p2: self.bottom_right }),
    {
        Line { p1: self.top_right, p2: self.bottom_right }
    }

    /// The edge from the bottom-right corner to the bottom-left corner.
    pub fn bottom(&self) -> (l: Line)
        ensures
            l == (Line { p1: self.bottom_right, p2: self.bottom_left }),
    {
        Line { p1: self.bottom_right, p2: self.bottom_left }
    }

    /// The edge from the bottom-left corner to the top-left corner.
    pub fn left(&self) -> (l: Line)
        ensures
            l == (Line { p1: self.bottom_left, p2: self.top_left }),
    {
        Line { p1: self.bottom_left, p2: self.top_left }
    }
}

} // verus!
