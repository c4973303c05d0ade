//! What holds of the rows of every table.

use vstd::prelude::*;
use vstd::relations::sorted_by;
use crate::angle::abs;
use crate::keyed_sort::{key_order, sorted_by_key};
use crate::stable_sort::{
    lemma_stable_sort_fixes_ordered,
    lemma_stable_sort_items,
    lemma_stable_sort_ordered,
    lemma_stable_sort_rearranges,
    stable_sort,
    total_preorder,
};
use crate::table::{
    clustered_rows,
    left_of,
    lemma_run_of_bound,
    on_row_of,
    row_end,
    rows_from,
    run_of,
    top_of,
    total_height,
    BBox,
};

verus! {

/// Comparing integer keys is a total preorder.
pub proof fn lemma_key_order_total_preorder<T>(key: spec_fn(T) -> int)
    ensures
        total_preorder(key_order(key)),
{
}

/// Boxes of one height `h` have the total height `h` times their number.
pub proof fn lemma_total_of_equal_heights(s: Seq<BBox>, h: int)
    requires
        forall|i: int| 0 <= i < s.len() ==> (#[trigger] s[i]).height == h,
    ensures
        total_height(s) == s.len() * h,
    decreases s.len(),
{
    if s.len() > 0 {
        lemma_total_of_equal_heights(s.drop_last(), h);
        assert((s.len() - 1) * h + h == s.len() * h) by (nonlinear_arith);
    }
}

/// Where no box lies on the row of a box before it, every row from `start`
/// on is a single box.
proof fn lemma_rows_of_one(s: Seq<BBox>, start: int, total: int, count: int)
    requires
        0 <= start <= s.len(),
        forall|i: int, j: int|
            0 <= i < j < s.len() ==> !on_row_of(#[trigger] s[i], #[trigger] s[j], total, count),
    ensures
        rows_from(s, start, total, count).len() == s.len() - start,
        forall|k: int|
            0 <= k < s.len() - start ==> #[trigger] rows_from(s, start, total, count)[k]
                == seq![s[start + k]],
    decreases s.len() - start,
{
    if start < s.len() {
        lemma_rows_of_one(s, start + 1, total, count);
        // The row that begins at `start` ends at once, and a single box is
        // arranged already.
        let single = s.subrange(start, start + 1);
        assert(sorted_by_key(single, left_of()) =~= seq![s[start]]) by {
            reveal_with_fuel(stable_sort, 2);
        }
    }
}

/// Boxes of one height `h`, any two of them more than `h` apart in `y`,
/// fall into rows of one box each: the boxes from top to bottom.
pub proof fn lemma_spaced_boxes_one_per_row(boxes: Seq<BBox>, h: int)
    requires
        boxes.len() > 0,
        forall|i: int| 0 <= i < boxes.len() ==> (#[trigger] boxes[i]).height == h,
        forall|i: int, j: int|
            0 <= i < boxes.len() && 0 <= j < boxes.len() && i != j ==> abs(
                (#[trigger] boxes[i]).y - (#[trigger] boxes[j]).y,
            ) > h,
    ensures
        clustered_rows(boxes).len() == boxes.len(),
        forall|k: int|
            0 <= k < boxes.len() ==> #[trigger] clustered_rows(boxes)[k] == seq![
                sorted_by_key(boxes, top_of())[k],
            ],
{
    let n = boxes.len() as int;
    let le = key_order(top_of());
    let s = sorted_by_key(boxes, top_of());
    let total = total_height(boxes);
    lemma_key_order_total_preorder(top_of());
    lemma_stable_sort_ordered(boxes, le);
    lemma_stable_sort_items(boxes, le);
    let from = lemma_stable_sort_rearranges(boxes, le);
    lemma_total_of_equal_heights(boxes, h);
    assert forall|i: int, j: int| 0 <= i < j < s.len() implies !on_row_of(
        #[trigger] s[i],
        #[trigger] s[j],
        total,
        n,
    ) by {
        // The two boxes come from different places, so they are more than
        // `h` apart, and the later one is the lower one.
        assert(le(s[i], s[j]));
        let d = s[j].y - s[i].y;
        assert(2 * n * d > n * h) by (nonlinear_arith)
            requires
                n > 0,
                d >= 0,
                d > h,
        ;
    }
    lemma_rows_of_one(s, 0, total, n);
}

/// Where every box from `from` on lies on the row of `anchor`, the run
/// reaches the end.
proof fn lemma_run_to_end(s: Seq<BBox>, anchor: BBox, from: int, total: int, count: int)
    requires
        0 <= from <= s.len(),
        forall|i: int| from <= i < s.len() ==> on_row_of(anchor, #[trigger] s[i], total, count),
    ensures
        from + run_of(s, anchor, from, total, count) == s.len(),
    decreases s.len() - from,
{
    if from < s.len() {
        lemma_run_to_end(s, anchor, from + 1, total, count);
    }
}

/// A run ends only at the end of the boxes or at a box that is not on the
/// row of `anchor`.
proof fn lemma_run_stops(s: Seq<BBox>, anchor: BBox, from: int, total: int, count: int)
    requires
        0 <= from <= s.len(),
    ensures
        from + run_of(s, anchor, from, total, count) < s.len() ==> !on_row_of(
            anchor,
            s[from + run_of(s, anchor, from, total, count)],
            total,
            count,
        ),
    decreases s.len() - from,
{
    if from < s.len() && on_row_of(anchor, s[from], total, count) {
        lemma_run_stops(s, anchor, from + 1, total, count);
    }
}

/// A row takes every box that is on the row of its anchor: among boxes
/// that run from top to bottom, no box behind the row is on it.
pub proof fn lemma_row_takes_all_in_reach(
    s: Seq<BBox>,
    start: int,
    total: int,
    count: int,
    behind: int,
)
    requires
        0 <= start < s.len(),
        count >= 0,
        sorted_by(s, key_order(top_of())),
        row_end(s, start, total, count) <= behind < s.len(),
    ensures
        !on_row_of(s[start], s[behind], total, count),
{
    let end = row_end(s, start, total, count);
    lemma_run_stops(s, s[start], start + 1, total, count);
    if end < behind {
        assert(key_order(top_of())(s[end], s[behind]));
    }
    let near = s[end].y - s[start].y;
    let far = s[behind].y - s[start].y;
    assert(2 * count * far >= 2 * count * near) by (nonlinear_arith)
        requires
            count >= 0,
            far >= near,
    ;
}

/// Boxes at one `y` and of one height that is not negative form a single
/// row: all of them, from left to right. So does a single box of any
/// height.
pub proof fn lemma_level_boxes_one_row(boxes: Seq<BBox>)
    requires
        boxes.len() > 0,
        forall|i: int|
            0 <= i < boxes.len() ==> (#[trigger] boxes[i]).y == boxes[0].y && boxes[i].height
                == boxes[0].height,
        boxes[0].height >= 0 || boxes.len() == 1,
    ensures
        clustered_rows(boxes) == seq![sorted_by_key(boxes, left_of())],
{
    let n = boxes.len() as int;
    let h = boxes[0].height as int;
    let le = key_order(top_of());
    let total = total_height(boxes);
    lemma_stable_sort_fixes_ordered(boxes, le);
    lemma_total_of_equal_heights(boxes, h);
    assert forall|i: int| 1 <= i < boxes.len() implies on_row_of(
        boxes[0],
        #[trigger] boxes[i],
        total,
        n,
    ) by {
        // The box is level with the first one, and the total height is not
        // negative.
        assert(boxes[i].y == boxes[0].y);
    }
    lemma_run_to_end(boxes, boxes[0], 1, total, n);
    assert(boxes.subrange(0, n) =~= boxes);
    assert(rows_from(boxes, n, total, n) =~= Seq::<Seq<BBox>>::empty());
}

/// No row is empty, every row runs from left to right, and there are at
/// most as many rows as boxes.
pub proof fn lemma_rows_are_arranged(s: Seq<BBox>, start: int, total: int, count: int)
    requires
        0 <= start <= s.len(),
    ensures
        forall|k: int|
            0 <= k < rows_from(s, start, total, count).len() ==> {
                &&& (#[trigger] rows_from(s, start, total, count)[k]).len() > 0
                &&& sorted_by(rows_from(s, start, total, count)[k], key_order(left_of()))
            },
        rows_from(s, start, total, count).len() <= s.len() - start,
    decreases s.len() - start,
{
    if start < s.len() {
        let end = row_end(s, start, total, count);
        lemma_run_of_bound(s, s[start], start + 1, total, count);
        lemma_rows_are_arranged(s, end, total, count);
        let group = s.subrange(start, end);
        lemma_key_order_total_preorder(left_of());
        lemma_stable_sort_ordered(group, key_order(left_of()));
        lemma_stable_sort_items(group, key_order(left_of()));
    }
}

/// The rows hold the boxes that went in, each as often.
pub proof fn lemma_rows_hold_all(s: Seq<BBox>, start: int, total: int, count: int)
    requires
        0 <= start <= s.len(),
    ensures
        rows_from(s, start, total, count).flatten().to_multiset() == s.skip(start).to_multiset(),
    decreases s.len() - start,
{
    let all = rows_from(s, start, total, count);
    if start < s.len() {
        let end = row_end(s, start, total, count);
        lemma_run_of_bound(s, s[start], start + 1, total, count);
        lemma_rows_hold_all(s, end, total, count);
        let group = s.subrange(start, end);
        let row = sorted_by_key(group, left_of());
        let rest = rows_from(s, end, total, count);
        lemma_stable_sort_items(group, key_order(left_of()));
        assert(all.drop_first() =~= rest);
        assert(s.skip(start) =~= group + s.skip(end));
        vstd::seq_lib::lemma_multiset_commutative(row, rest.flatten());
        vstd::seq_lib::lemma_multiset_commutative(group, s.skip(end));
    } else {
        assert(s.skip(start) =~= Seq::<BBox>::empty());
    }
}

/// A table holds the boxes that it was made of, each as often.
pub proof fn lemma_table_holds_all(boxes: Seq<BBox>)
    ensures
        clustered_rows(boxes).flatten().to_multiset() == boxes.to_multiset(),
{
    let s = sorted_by_key(boxes, top_of());
    lemma_stable_sort_items(boxes, key_order(top_of()));
    lemma_rows_hold_all(s, 0, total_height(boxes), boxes.len() as int);
    assert(s.skip(0) =~= s);
}

/// No box of `upper` lies below a box of `lower`.
pub open spec fn row_above(upper: Seq<BBox>, lower: Seq<BBox>) -> bool {
    forall|a: int, b: int|
        0 <= a < upper.len() && 0 <= b < lower.len() ==> (#[trigger] upper[a]).y <= (
        #[trigger] lower[b]).y
}

/// Rows cut from boxes that run from top to bottom run from top to bottom:
/// no box of a row lies below a box of a later row, and none lies above the
/// box at `start`.
pub proof fn lemma_rows_top_to_bottom(s: Seq<BBox>, start: int, total: int, count: int)
    requires
        0 <= start <= s.len(),
        sorted_by(s, key_order(top_of())),
    ensures
        forall|i: int, j: int|
            0 <= i < j < rows_from(s, start, total, count).len() ==> row_above(
                #[trigger] rows_from(s, start, total, count)[i],
                #[trigger] rows_from(s, start, total, count)[j],
            ),
        forall|k: int, a: int|
            0 <= k < rows_from(s, start, total, count).len() && 0 <= a < rows_from(
                s,
                start,
                total,
                count,
            )[k].len() ==> s[start].y <= (#[trigger] rows_from(s, start, total, count)[k][a]).y,
    decreases s.len() - start,
{
    if start < s.len() {
        let le = key_order(top_of());
        let end = row_end(s, start, total, count);
        lemma_run_of_bound(s, s[start], start + 1, total, count);
        lemma_rows_top_to_bottom(s, end, total, count);
        let group = s.subrange(start, end);
        let row = sorted_by_key(group, left_of());
        let rest = rows_from(s, end, total, count);
        let all = rows_from(s, start, total, count);
        let from = lemma_stable_sort_rearranges(group, key_order(left_of()));
        // A box of the first row stands between `start` and `end`.
        assert forall|a: int| 0 <= a < row.len() implies s[start].y <= (#[trigger] row[a]).y
            && row[a].y <= s[end - 1].y by {
            if start + from[a] > start {
                assert(le(s[start], s[start + from[a]]));
            }
            if start + from[a] < end - 1 {
                assert(le(s[start + from[a]], s[end - 1]));
            }
        }
        assert forall|k: int, a: int|
            0 <= k < all.len() && 0 <= a < all[k].len() implies s[start].y <= (
        #[trigger] all[k][a]).y by {
            if k > 0 {
                assert(le(s[start], s[end]));
            }
        }
        assert forall|i: int, j: int| 0 <= i < j < all.len() implies row_above(
            #[trigger] all[i],
            #[trigger] all[j],
        ) by {
            if i == 0 {
                assert forall|a: int, b: int|
                    0 <= a < all[i].len() && 0 <= b < all[j].len() implies (
                #[trigger] all[i][a]).y <= (#[trigger] all[j][b]).y by {
                    assert(le(s[end - 1], s[end]));
                }
            }
        }
    }
}

/// The rows of a table run from top to bottom: no box of a row lies below
/// a box of a later row.
pub proof fn lemma_table_top_to_bottom(boxes: Seq<BBox>)
    ensures
        forall|i: int, j: int|
            0 <= i < j < clustered_rows(boxes).len() ==> row_above(
                #[trigger] clustered_rows(boxes)[i],
                #[trigger] clustered_rows(boxes)[j],
            ),
{
    lemma_key_order_total_preorder(top_of());
    lemma_stable_sort_ordered(boxes, key_order(top_of()));
    lemma_rows_top_to_bottom(
        sorted_by_key(boxes, top_of()),
        0,
        total_height(boxes),
        boxes.len() as int,
    );
}

/// In a table, no row is empty and every row runs from left to right.
pub proof fn lemma_table_rows_arranged(boxes: Seq<BBox>)
    ensures
        forall|k: int|
            0 <= k < clustered_rows(boxes).len() ==> {
                &&& (#[trigger] clustered_rows(boxes)[k]).len() > 0
                &&& sorted_by(clustered_rows(boxes)[k], key_order(left_of()))
            },
        boxes.len() > 0 ==> clustered_rows(boxes).len() > 0,
{
    let s = sorted_by_key(boxes, top_of());
    lemma_stable_sort_items(boxes, key_order(top_of()));
    lemma_rows_are_arranged(s, 0, total_height(boxes), boxes.len() as int);
}

} // verus!
