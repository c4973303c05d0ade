//! Polygons: centroid, enclosed area and the ordering of vertices by angle.

use vstd::prelude::*;
use crate::angle::{angle_at_most, angle_order};
use crate::geometry::Point;
use crate::stable_sort::{lemma_insert_sorted_at, lemma_stable_sort_items, stable_sort};

verus! {

/// A closed polygon: its vertices in order, the last joined to the first.
#[derive(Clone, Debug)]
pub struct Poly(pub Vec<Point>);

impl View for Poly {
    type V = Seq<Point>;

    open spec fn view(&self) -> Seq<Point> {
        self.0@
    }
}

/// Why a geometric operation has no result.
#[derive(Clone, Copy, Debug, PartialEq, Eq, Structural)]
pub enum GeometryError {
    /// No vertex is left that has a direction as seen from the centroid.
    DegeneratePolygon,
}

/// The sum of the x coordinates.
pub open spec fn sum_x(s: Seq<Point>) -> int
    decreases s.len(),
{
    if s.len() == 0 {
        0
    } else {
        sum_x(s.drop_last()) + s.last().x
    }
}

/// The sum of the y coordinates.
pub open spec fn sum_y(s: Seq<Point>) -> int
    decreases s.len(),
{
    if s.len() == 0 {
        0
    } else {
        sum_y(s.drop_last()) + s.last().y
    }
}

/// The quotient of `a` by a positive `b`, rounded towards zero.
pub open spec fn div_towards_zero(a: int, b: int) -> int {
    if a >= 0 {
        a / b
    } else {
        -((-a) / b)
    }
}

/// The mean of the vertices, each coordinate rounded towards zero.
pub open spec fn centroid(s: Seq<Point>) -> Point
    recommends
        s.len() > 0,
{
    Point {
        x: div_towards_zero(sum_x(s), s.len() as int) as i32,
        y: div_towards_zero(sum_y(s), s.len() as int) as i32,
    }
}

/// The test that a point does not lie on `center`.
pub open spec fn away_from(center: Point) -> spec_fn(Point) -> bool {
    |p: Point| p != center
}

/// The vertices of `s` that do not lie on `center`.
pub open spec fn off_center(s: Seq<Point>, center: Point) -> Seq<Point> {
    s.filter(away_from(center))
}

/// The vertices of `s` arranged by their angle around the centroid of `s`.
///
/// A vertex on the centroid has no angle and is left out. Vertices are
/// arranged by ascending angle between the positive y axis and the line
/// from the centroid to the vertex; vertices at the same angle keep their
/// order. Where no vertex is left, the polygon is degenerate.
pub open spec fn ordered_vertices(s: Seq<Point>) -> Result<Seq<Point>, GeometryError> {
    if off_center(s, centroid(s)).len() == 0 {
        Err(GeometryError::DegeneratePolygon)
    } else {
        Ok(stable_sort(off_center(s, centroid(s)), angle_order(centroid(s))))
    }
}

/// The cross product of the position vectors of `p` and `q`: twice the
/// signed area of the triangle that they span with the origin.
pub open spec fn cross(p: Point, q: Point) -> int {
    p.x * q.y - q.x * p.y
}

/// The vertex that follows vertex `i` on the way round the polygon.
pub open spec fn next_vertex(s: Seq<Point>, i: int) -> Point {
    if i + 1 == s.len() {
        s[0]
    } else {
        s[i + 1]
    }
}

/// The sum of the cross products of the first `k` edges.
pub open spec fn edge_sum(s: Seq<Point>, k: int) -> int
    decreases k,
{
    if k <= 0 {
        0
    } else {
        edge_sum(s, k - 1) + cross(s[k - 1], next_vertex(s, k - 1))
    }
}

/// Twice the area that the polygon encloses.
///
/// The sum over all edges is twice the signed area, positive for one
/// sense of rotation and negative for the other.
pub open spec fn doubled_area(s: Seq<Point>) -> int {
    if edge_sum(s, s.len() as int) >= 0 {
        edge_sum(s, s.len() as int)
    } else {
        -edge_sum(s, s.len() as int)
    }
}

/// The cross product of two points with `i32` coordinates.
fn cross_of(p: Point, q: Point) -> (r: i128)
    ensures
        r == cross(p, q),
        -0x8000_0000_0000_0000 <= r <= 0x8000_0000_0000_0000,
{
    let px: i128 = p.x as i128;
    let py: i128 = p.y as i128;
    let qx: i128 = q.x as i128;
    let qy: i128 = q.y as i128;
    assert(-0x4000_0000_0000_0000 <= px * qy <= 0x4000_0000_0000_0000) by (nonlinear_arith)
        requires
            -0x8000_0000 <= px <= 0x7fff_ffff,
            -0x8000_0000 <= qy <= 0x7fff_ffff,
    ;
    assert(-0x4000_0000_0000_0000 <= qx * py <= 0x4000_0000_0000_0000) by (nonlinear_arith)
        requires
            -0x8000_0000 <= qx <= 0x7fff_ffff,
            -0x8000_0000 <= py <= 0x7fff_ffff,
    ;
    px * qy - qx * py
}

/// The coordinate sums of `n` points lie within `n` times the `i32` range.
pub proof fn lemma_sum_bounds(s: Seq<Point>)
    ensures
        -0x8000_0000 * s.len() <= sum_x(s) <= 0x7fff_ffff * s.len(),
        -0x8000_0000 * s.len() <= sum_y(s) <= 0x7fff_ffff * s.len(),
    decreases s.len(),
{
    if s.len() > 0 {
        lemma_sum_bounds(s.drop_last());
    }
}

/// A mean of `i32` values, rounded towards zero, is an `i32` value.
pub proof fn lemma_mean_in_range(total: int, n: int)
    requires
        n > 0,
        -0x8000_0000 * n <= total <= 0x7fff_ffff * n,
    ensures
        -0x8000_0000 <= div_towards_zero(total, n) <= 0x7fff_ffff,
{
    if total >= 0 {
        assert(0 <= total / n <= 0x7fff_ffff) by (nonlinear_arith)
            requires
                n > 0,
                0 <= total <= 0x7fff_ffff * n,
        ;
    } else {
        assert(0 <= (-total) / n <= 0x8000_0000) by (nonlinear_arith)
            requires
                n > 0,
                0 <= -total <= 0x8000_0000 * n,
        ;
    }
}

/// `total / count` rounded towards zero, for a sum of `count` `i32` values.
fn mean_of(total: i128, count: usize) -> (r: i32)
    requires
        count > 0,
        -0x8000_0000 * count <= total <= 0x7fff_ffff * count,
    ensures
        r == div_towards_zero(total as int, count as int),
{
    proof {
        lemma_mean_in_range(total as int, count as int);
    }
    let n: i128 = count as i128;
    if total >= 0 {
        let q: i128 = total / n;
        q as i32
    } else {
        let q: i128 = (-total) / n;
        (-q) as i32
    }
}

impl Poly {
    /// The centroid of the vertices, or `None` for a polygon without any.
    pub fn centroid(&self) -> (r: Option<Point>)
        ensures
            self@.len() == 0 <==> r is None,
            r matches Some(c) ==> c == centroid(self@),
    {
        let n: usize = self.0.len();
        if n == 0 {
            return None;
        }
        let mut total_x: i128 = 0;
        let mut total_y: i128 = 0;
        let mut i: usize = 0;
        while i < n
            invariant
                n == self.0.len(),
                i <= n,
                total_x == sum_x(self@.take(i as int)),
                total_y == sum_y(self@.take(i as int)),
            decreases n - i,
        {
            proof {
                lemma_sum_bounds(self@.take(i as int));
                assert(self@.take(i + 1).drop_last() =~= self@.take(i as int));
            }
            total_x = total_x + self.0[i].x as i128;
            total_y = total_y + self.0[i].y as i128;
            i = i + 1;
        }
        proof {
            assert(self@.take(n as int) =~= self@);
            lemma_sum_bounds(self@);
        }
        Some(Point { x: mean_of(total_x, n), y: mean_of(total_y, n) })
    }

    /// Twice the area that the polygon encloses.
    pub fn doubled_area(&self) -> (r: u128)
        ensures
            r == doubled_area(self@),
    {
        let n: usize = self.0.len();
        let mut total: i128 = 0;
        let mut i: usize = 0;
        while i < n
            invariant
                n == self.0.len(),
                i <= n,
                total == edge_sum(self@, i as int),
                -0x8000_0000_0000_0000 * i <= total <= 0x8000_0000_0000_0000 * i,
            decreases n - i,
        {
            let p = self.0[i];
            let q = if i + 1 == n {
                self.0[0]
            } else {
                self.0[i + 1]
            };
            let term: i128 = cross_of(p, q);
            assert(0x8000_0000_0000_0000 * (i + 1) <= 0x8000_0000_0000_0000
                * 0x1_0000_0000_0000_0000) by (nonlinear_arith)
                requires
                    i + 1 <= 0x1_0000_0000_0000_0000,
            ;
            total = total + term;
            i = i + 1;
        }
        assert(0x8000_0000_0000_0000 * n <= 0x8000_0000_0000_0000 * 0xffff_ffff_ffff_ffff)
            by (nonlinear_arith)
            requires
                n <= 0xffff_ffff_ffff_ffff,
        ;
        if total >= 0 {
            total as u128
        } else {
            (-total) as u128
        }
    }

    /// Arranges the vertices by their angle around the centroid.
    ///
    /// Fails exactly when every vertex lies on the centroid, which includes
    /// the polygon without vertices.
    pub fn order(&self) -> (r: Result<Poly, GeometryError>)
        ensures
            r is Ok <==> ordered_vertices(self@) is Ok,
            r matches Ok(p) ==> Ok::<Seq<Point>, GeometryError>(p@) == ordered_vertices(self@),
            r matches Err(e) ==> Err::<Seq<Point>, GeometryError>(e) == ordered_vertices(self@),
    {
        let center = match self.centroid() {
            Some(c) => c,
            None => {
                proof {
                    reveal(Seq::filter);
                }
                return Err(GeometryError::DegeneratePolygon);
            },
        };
        let n: usize = self.0.len();
        let ghost keep = away_from(center);
        let ghost le = angle_order(center);
        let mut out: Vec<Point> = Vec::new();
        let mut i: usize = 0;
        while i < n
            invariant
                n == self.0.len(),
                i <= n,
                keep == away_from(center),
                le == angle_order(center),
                out@ == stable_sort(self@.take(i as int).filter(keep), le),
                out@.len() == self@.take(i as int).filter(keep).len(),
            decreases n - i,
        {
            let p = self.0[i];
            proof {
                assert(self@.take(i + 1) =~= self@.take(i as int).push(p));
                self@.take(i as int).lemma_filter_push(p, keep);
            }
            if p.x != center.x || p.y != center.y {
                let pos = insertion_place(&out, p, center);
                proof {
                    lemma_insert_sorted_at(out@, p, le, pos as int);
                    assert(self@.take(i as int).filter(keep).push(p).drop_last()
                        =~= self@.take(i as int).filter(keep));
                }
                out.insert(pos, p);
            }
            proof {
                lemma_stable_sort_items(self@.take(i + 1).filter(keep), le);
            }
            i = i + 1;
        }
        proof {
            assert(self@.take(n as int) =~= self@);
        }
        if out.len() == 0 {
            Err(GeometryError::DegeneratePolygon)
        } else {
            Ok(Poly(out))
        }
    }
}

/// The place behind the last point of `sorted` whose angle around `center`
/// is at most that of `p`.
fn insertion_place(sorted: &Vec<Point>, p: Point, center: Point) -> (pos: usize)
    ensures
        pos <= sorted@.len(),
        pos > 0 ==> angle_order(center)(sorted@[pos - 1], p),
        forall|j: int| pos <= j < sorted@.len() ==> !angle_order(center)(#[trigger] sorted@[j], p),
{
    let px: i64 = p.x as i64 - center.x as i64;
    let py: i64 = p.y as i64 - center.y as i64;
    let mut pos: usize = sorted.len();
    while pos > 0
        invariant
            pos <= sorted@.len(),
            px == p.x - center.x,
            py == p.y - center.y,
            forall|j: int|
                pos <= j < sorted@.len() ==> !angle_order(center)(#[trigger] sorted@[j], p),
        decreases pos,
    {
        let q = sorted[pos - 1];
        let qx: i64 = q.x as i64 - center.x as i64;
        let qy: i64 = q.y as i64 - center.y as i64;
        if angle_at_most(qx, qy, px, py) {
            return pos;
        }
        pos = pos - 1;
    }
    pos
}

} // verus!
