//! Choosing the quadrilateral that bounds the document.

use vstd::prelude::*;
use crate::geometry::{Point, Rect};
use crate::polygon::{doubled_area, ordered_vertices, Poly};

verus! {

/// Why no document boundary was found.
#[derive(Clone, Copy, Debug, PartialEq, Eq, Structural)]
pub enum DetectionError {
    /// No candidate is a quadrilateral that spans an area and whose four
    /// corners can be ordered.
    NoQuadrilateralFound,
}

/// The quadrilateral whose corners are four ordered vertices: the third is
/// the top left corner, the fourth the top right, the first the bottom
/// right and the second the bottom left.
pub open spec fn quadrilateral_of(ordered: Seq<Point>) -> Rect {
    Rect {
        top_left: ordered[2],
        top_right: ordered[3],
        bottom_right: ordered[0],
        bottom_left: ordered[1],
    }
}

/// Whether a candidate can bound the document: it is there, it has four
/// vertices, ordering them keeps all four, and they do not all lie on one
/// line.
pub open spec fn eligible(candidate: Option<Poly>) -> bool {
    &&& candidate matches Some(p)
    &&& p@.len() == 4
    &&& ordered_vertices(p@) matches Ok(q)
    &&& q.len() == 4
    &&& quadrilateral_of(q).well_formed()
}

/// Twice the area of a candidate.
pub open spec fn candidate_area(candidate: Option<Poly>) -> int {
    doubled_area(candidate.unwrap()@)
}

/// Whether candidate `i` is the one to take of the first `upto`: it is
/// eligible, none of them is larger, and every eligible one behind it is
/// smaller.
pub open spec fn leads(candidates: Seq<Option<Poly>>, i: int, upto: int) -> bool {
    &&& 0 <= i < upto <= candidates.len()
    &&& eligible(candidates[i])
    &&& forall|j: int|
        0 <= j < upto && eligible(#[trigger] candidates[j]) ==> candidate_area(candidates[j])
            <= candidate_area(candidates[i])
    &&& forall|j: int|
        i < j < upto && eligible(#[trigger] candidates[j]) ==> candidate_area(candidates[j])
            < candidate_area(candidates[i])
}

/// Whether candidate `i` is the one to take of all: the largest eligible
/// one, and of several largest ones the last.
pub open spec fn is_largest(candidates: Seq<Option<Poly>>, i: int) -> bool {
    leads(candidates, i, candidates.len() as int)
}

/// The quadrilateral that candidate `i` gives.
pub open spec fn quadrilateral_at(candidates: Seq<Option<Poly>>, i: int) -> Rect {
    quadrilateral_of(ordered_vertices(candidates[i].unwrap()@).unwrap())
}

/// Gives four ordered vertices their roles as corners.
///
/// Fails exactly when there are not four vertices.
pub fn assign_roles(ordered: &Poly) -> (r: Option<Rect>)
    ensures
        r is Some <==> ordered@.len() == 4,
        r matches Some(quad) ==> quad == quadrilateral_of(ordered@),
{
    if ordered.0.len() != 4 {
        return None;
    }
    Some(
        Rect {
            top_left: ordered.0[2],
            top_right: ordered.0[3],
            bottom_right: ordered.0[0],
            bottom_left: ordered.0[1],
        },
    )
}

/// The quadrilateral of a candidate, where it is eligible.
pub fn quadrilateral_from(candidate: &Option<Poly>) -> (r: Option<Rect>)
    ensures
        r is Some <==> eligible(*candidate),
        r matches Some(quad) ==> quad == quadrilateral_of(
            ordered_vertices(candidate.unwrap()@).unwrap(),
        ),
{
    match candidate {
        None => None,
        Some(p) => {
            if p.0.len() != 4 {
                return None;
            }
            match p.order() {
                Err(_) => None,
                Ok(q) => match assign_roles(&q) {
                    Some(quad) if quad.is_well_formed() => Some(quad),
                    _ => None,
                },
            }
        },
    }
}

/// Picks the candidate that bounds the document: the largest eligible one,
/// and of several largest ones the last. Gives its place and its
/// quadrilateral.
///
/// Fails exactly when no candidate is eligible.
pub fn select_largest(candidates: &Vec<Option<Poly>>) -> (r: Option<(usize, Rect)>)
    ensures
        r is None <==> forall|i: int|
            0 <= i < candidates@.len() ==> !eligible(#[trigger] candidates@[i]),
        r matches Some((i, quad)) ==> is_largest(candidates@, i as int) && quad
            == quadrilateral_at(candidates@, i as int) && quad.well_formed(),
{
    let n: usize = candidates.len();
    let mut best: Option<(usize, Rect)> = None;
    let mut best_area: u128 = 0;
    let mut i: usize = 0;
    while i < n
        invariant
            n == candidates@.len(),
            i <= n,
            best is None <==> forall|j: int| 0 <= j < i ==> !eligible(#[trigger] candidates@[j]),
            best matches Some((k, quad)) ==> {
                &&& leads(candidates@, k as int, i as int)
                &&& best_area == candidate_area(candidates@[k as int])
                &&& quad == quadrilateral_at(candidates@, k as int)
                &&& quad.well_formed()
            },
        decreases n - i,
    {
        match quadrilateral_from(&candidates[i]) {
            None => {},
            Some(quad) => {
                let area: u128 = match &candidates[i] {
                    Some(p) => p.doubled_area(),
                    None => 0,
                };
                let take: bool = match best {
                    None => true,
                    Some(_) => area >= best_area,
                };
                if take {
                    best = Some((i, quad));
                    best_area = area;
                }
            },
        }
        i = i + 1;
    }
    best
}

/// Finds the quadrilateral that bounds the document among the simplified
/// contours of an image. A contour whose simplification failed is `None`.
///
/// Fails exactly when no candidate is eligible, and so whenever there is
/// no contour at all.
pub fn detect_quadrilateral(candidates: &Vec<Option<Poly>>) -> (r: Result<Rect, DetectionError>)
    ensures
        r is Err <==> forall|i: int|
            0 <= i < candidates@.len() ==> !eligible(#[trigger] candidates@[i]),
        candidates@.len() == 0 ==> r is Err,
        r matches Err(e) ==> e == DetectionError::NoQuadrilateralFound,
        r matches Ok(quad) ==> quad.well_formed() && exists|i: int| #[trigger]
            is_largest(candidates@, i) && quad == quadrilateral_at(candidates@, i),
{
    match select_largest(candidates) {
        None => Err(DetectionError::NoQuadrilateralFound),
        Some((i, quad)) => {
            Ok(quad)
        },
    }
}

} // verus!
