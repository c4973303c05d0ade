//! What holds of every ordering of vertices.

use vstd::prelude::*;
use vstd::relations::sorted_by;
use crate::angle::{angle_order, lemma_angle_order_total_preorder};
use crate::geometry::Point;
use crate::polygon::{away_from, centroid, off_center, ordered_vertices, sum_x, sum_y, GeometryError};
use crate::stable_sort::{
    insert_sorted,
    lemma_stable_sort_fixes_ordered,
    lemma_stable_sort_items,
    lemma_stable_sort_ordered,
    lemma_stable_sort_rearranges,
    stable_sort,
};

verus! {

/// A sequence whose items all pass a test is left whole by the filter.
pub proof fn lemma_filter_keeps_all<T>(s: Seq<T>, pred: spec_fn(T) -> bool)
    requires
        forall|i: int| 0 <= i < s.len() ==> pred(#[trigger] s[i]),
    ensures
        s.filter(pred) == s,
    decreases s.len(),
{
    reveal(Seq::filter);
    if s.len() > 0 {
        lemma_filter_keeps_all(s.drop_last(), pred);
    }
}

/// Inserting a point adds its coordinates to the sums.
proof fn lemma_sums_after_insert(s: Seq<Point>, x: Point, le: spec_fn(Point, Point) -> bool)
    ensures
        sum_x(insert_sorted(s, x, le)) == sum_x(s) + x.x,
        sum_y(insert_sorted(s, x, le)) == sum_y(s) + x.y,
    decreases s.len(),
{
    if s.len() == 0 {
        assert(seq![x].drop_last() =~= s);
    } else if le(s.last(), x) {
        assert(s.push(x).drop_last() =~= s);
    } else {
        let inner = insert_sorted(s.drop_last(), x, le);
        lemma_sums_after_insert(s.drop_last(), x, le);
        assert(inner.push(s.last()).drop_last() =~= inner);
    }
}

/// Sorting leaves the sums of the coordinates as they are.
pub proof fn lemma_sums_after_sort(s: Seq<Point>, le: spec_fn(Point, Point) -> bool)
    ensures
        sum_x(stable_sort(s, le)) == sum_x(s),
        sum_y(stable_sort(s, le)) == sum_y(s),
    decreases s.len(),
{
    if s.len() > 0 {
        lemma_sums_after_sort(s.drop_last(), le);
        lemma_sums_after_insert(stable_sort(s.drop_last(), le), s.last(), le);
    }
}

/// The ordered vertices are the vertices off the centroid, each as often
/// as the polygon has it, in ascending order of their angle.
pub proof fn lemma_order_arranges(s: Seq<Point>)
    requires
        ordered_vertices(s) is Ok,
    ensures
        ordered_vertices(s).unwrap().len() == off_center(s, centroid(s)).len(),
        ordered_vertices(s).unwrap().to_multiset() == off_center(s, centroid(s)).to_multiset(),
        sorted_by(ordered_vertices(s).unwrap(), angle_order(centroid(s))),
        forall|i: int|
            0 <= i < ordered_vertices(s).unwrap().len() ==> #[trigger] ordered_vertices(
                s,
            ).unwrap()[i] != centroid(s),
{
    let c = centroid(s);
    let kept = off_center(s, c);
    let q = ordered_vertices(s).unwrap();
    lemma_angle_order_total_preorder(c);
    lemma_stable_sort_items(kept, angle_order(c));
    lemma_stable_sort_ordered(kept, angle_order(c));
    let from = lemma_stable_sort_rearranges(kept, angle_order(c));
    assert forall|i: int| 0 <= i < q.len() implies #[trigger] q[i] != c by {
        // The vertex comes from a place of the vertices that were kept.
        assert(q[i] == kept[from[i]]);
        s.lemma_filter_pred(away_from(c), from[i]);
    }
}

/// Ordering the ordered vertices again changes nothing, where they have
/// the centroid that the polygon has.
pub proof fn lemma_order_fixed_by_centroid(s: Seq<Point>)
    requires
        ordered_vertices(s) is Ok,
        centroid(ordered_vertices(s).unwrap()) == centroid(s),
    ensures
        ordered_vertices(ordered_vertices(s).unwrap()) == ordered_vertices(s),
{
    let c = centroid(s);
    let q = ordered_vertices(s).unwrap();
    lemma_order_arranges(s);
    // No vertex is left out a second time, and the vertices are in order.
    lemma_filter_keeps_all(q, away_from(c));
    lemma_stable_sort_fixes_ordered(q, angle_order(c));
}

/// Ordering is idempotent on a polygon none of whose vertices lies on its
/// centroid: the vertices can be ordered, and ordering the result again
/// gives the same result.
pub proof fn lemma_order_idempotent(s: Seq<Point>)
    requires
        s.len() > 0,
        forall|i: int| 0 <= i < s.len() ==> #[trigger] s[i] != centroid(s),
    ensures
        ordered_vertices(s) is Ok,
        ordered_vertices(ordered_vertices(s).unwrap()) == ordered_vertices(s),
{
    let c = centroid(s);
    lemma_filter_keeps_all(s, away_from(c));
    lemma_stable_sort_items(s, angle_order(c));
    lemma_sums_after_sort(s, angle_order(c));
    lemma_order_fixed_by_centroid(s);
}

} // verus!
