//! Recovering the rows and columns of a ruled table from its cell boxes.

use vstd::prelude::*;
use crate::keyed_sort::{sort_with_keys, sorted_by_key};

verus! {

/// An axis-aligned box: the top-left corner and the extent.
#[derive(Clone, Copy, Debug, PartialEq, Eq, Structural)]
pub struct BBox {
    pub x: i32,
    pub y: i32,
    pub width: i32,
    pub height: i32,
}

/// Why no table was recovered.
#[derive(Clone, Copy, Debug, PartialEq, Eq, Structural)]
pub enum TableError {
    /// There is no box to build a table from.
    NoCellsFound,
}

/// The grid of a table: rows from top to bottom, each from left to right.
/// Rows need not have the same number of boxes.
#[derive(Debug)]
pub struct Table {
    pub rows: Vec<Vec<BBox>>,
}

/// The key by which boxes are arranged from top to bottom.
pub open spec fn top_of() -> spec_fn(BBox) -> int {
    |b: BBox| b.y as int
}

/// The key by which boxes are arranged from left to right.
pub open spec fn left_of() -> spec_fn(BBox) -> int {
    |b: BBox| b.x as int
}

/// The sum of the heights of the boxes.
pub open spec fn total_height(s: Seq<BBox>) -> int
    decreases s.len(),
{
    if s.len() == 0 {
        0
    } else {
        total_height(s.drop_last()) + s.last().height
    }
}

/// Whether `b` is low enough to count as on the row of `anchor`: `b.y` is
/// at most `anchor.y` plus half the mean height, the mean being
/// `total / count`.
pub open spec fn on_row_of(anchor: BBox, b: BBox, total: int, count: int) -> bool {
    2 * count * (b.y - anchor.y) <= total
}

/// How many boxes of `s`, from position `from` on and without a gap, are
/// on the row of `anchor`.
pub open spec fn run_of(s: Seq<BBox>, anchor: BBox, from: int, total: int, count: int) -> nat
    decreases s.len() - from,
{
    if 0 <= from < s.len() && on_row_of(anchor, s[from], total, count) {
        1 + run_of(s, anchor, from + 1, total, count)
    } else {
        0
    }
}

/// The position behind the row that begins at `start`: the anchor
/// `s[start]` and the run of boxes behind it that are on its row.
pub open spec fn row_end(s: Seq<BBox>, start: int, total: int, count: int) -> int {
    start + 1 + run_of(s, s[start], start + 1, total, count)
}

/// The rows into which `s` falls from position `start` on, each arranged
/// from left to right.
pub open spec fn rows_from(s: Seq<BBox>, start: int, total: int, count: int) -> Seq<Seq<BBox>>
    decreases s.len() - start,
{
    if 0 <= start < s.len() {
        proof {
            lemma_run_of_bound(s, s[start], start + 1, total, count);
        }
        seq![sorted_by_key(s.subrange(start, row_end(s, start, total, count)), left_of())]
            + rows_from(s, row_end(s, start, total, count), total, count)
    } else {
        Seq::empty()
    }
}

/// The rows of the table with cell boxes `boxes`.
///
/// The boxes are arranged from top to bottom. The topmost box that is in
/// no row yet anchors the next row, which takes with it the boxes behind it
/// that lie at most half the mean height of all boxes below the anchor.
/// Each row is then arranged from left to right.
pub open spec fn clustered_rows(boxes: Seq<BBox>) -> Seq<Seq<BBox>> {
    rows_from(
        sorted_by_key(boxes, top_of()),
        0,
        total_height(boxes),
        boxes.len() as int,
    )
}

/// The rows of a table as sequences.
pub open spec fn rows_view(rows: Seq<Vec<BBox>>) -> Seq<Seq<BBox>> {
    Seq::new(rows.len(), |i: int| rows[i]@)
}

/// A run ends within the sequence.
pub proof fn lemma_run_of_bound(s: Seq<BBox>, anchor: BBox, from: int, total: int, count: int)
    requires
        0 <= from <= s.len(),
    ensures
        from + run_of(s, anchor, from, total, count) <= s.len(),
    decreases s.len() - from,
{
    if from < s.len() && on_row_of(anchor, s[from], total, count) {
        lemma_run_of_bound(s, anchor, from + 1, total, count);
    }
}

/// The heights of `n` boxes sum to within `n` times the `i32` range.
pub proof fn lemma_total_height_bounds(s: Seq<BBox>)
    ensures
        -0x8000_0000 * s.len() <= total_height(s) <= 0x7fff_ffff * s.len(),
    decreases s.len(),
{
    if s.len() > 0 {
        lemma_total_height_bounds(s.drop_last());
    }
}

/// Decides `on_row_of`.
fn is_on_row(anchor: &BBox, b: &BBox, total: i128, count: usize) -> (r: bool)
    ensures
        r == on_row_of(*anchor, *b, total as int, count as int),
{
    let drop: i128 = b.y as i128 - anchor.y as i128;
    let doubled: i128 = 2 * (count as i128);
    assert(-0x2_0000_0000_0000_0000 * 0xffff_ffff <= doubled * drop <= 0x2_0000_0000_0000_0000
        * 0xffff_ffff) by (nonlinear_arith)
        requires
            0 <= doubled <= 0x2_0000_0000_0000_0000,
            -0xffff_ffff <= drop <= 0xffff_ffff,
    ;
    assert(2 * count * (b.y - anchor.y) == doubled * drop) by (nonlinear_arith)
        requires
            doubled == 2 * count,
            drop == b.y - anchor.y,
    ;
    doubled * drop <= total
}

/// The sum of the heights of the boxes.
fn sum_heights(boxes: &Vec<BBox>) -> (total: i128)
    ensures
        total == total_height(boxes@),
        -0x8000_0000 * boxes@.len() <= total <= 0x7fff_ffff * boxes@.len(),
{
    let n: usize = boxes.len();
    let mut total: i128 = 0;
    let mut i: usize = 0;
    while i < n
        invariant
            n == boxes@.len(),
            i <= n,
            total == total_height(boxes@.take(i as int)),
        decreases n - i,
    {
        proof {
            lemma_total_height_bounds(boxes@.take(i as int));
            assert(boxes@.take(i + 1).drop_last() =~= boxes@.take(i as int));
        }
        total = total + boxes[i].height as i128;
        i = i + 1;
    }
    proof {
        assert(boxes@.take(n as int) =~= boxes@);
        lemma_total_height_bounds(boxes@);
    }
    total
}

/// Arranges boxes from top to bottom; boxes at the same height keep their
/// order.
pub fn sort_top_to_bottom(boxes: &Vec<BBox>) -> (out: Vec<BBox>)
    ensures
        out@ == sorted_by_key(boxes@, top_of()),
{
    let n: usize = boxes.len();
    let mut keys: Vec<i32> = Vec::new();
    let mut i: usize = 0;
    while i < n
        invariant
            n == boxes@.len(),
            i <= n,
            keys@.len() == i,
            forall|j: int| 0 <= j < i ==> #[trigger] keys@[j] == boxes@[j].y,
        decreases n - i,
    {
        keys.push(boxes[i].y);
        i = i + 1;
    }
    sort_with_keys(boxes, &keys, Ghost(top_of()))
}

/// Arranges boxes from left to right; boxes at the same position keep
/// their order.
pub fn sort_left_to_right(boxes: &Vec<BBox>) -> (out: Vec<BBox>)
    ensures
        out@ == sorted_by_key(boxes@, left_of()),
{
    let n: usize = boxes.len();
    let mut keys: Vec<i32> = Vec::new();
    let mut i: usize = 0;
    while i < n
        invariant
            n == boxes@.len(),
            i <= n,
            keys@.len() == i,
            forall|j: int| 0 <= j < i ==> #[trigger] keys@[j] == boxes@[j].x,
        decreases n - i,
    {
        keys.push(boxes[i].x);
        i = i + 1;
    }
    sort_with_keys(boxes, &keys, Ghost(left_of()))
}

/// Cuts boxes that are arranged from top to bottom into rows.
///
/// `total` and `count` give the mean height, `total / count`, half of
/// which is how far below its anchor a box may lie.
pub fn split_rows(sorted: &Vec<BBox>, total: i128, count: usize) -> (rows: Vec<Vec<BBox>>)
    ensures
        rows_view(rows@) == rows_from(sorted@, 0, total as int, count as int),
{
    let n: usize = sorted.len();
    let mut rows: Vec<Vec<BBox>> = Vec::new();
    let mut start: usize = 0;
    while start < n
        invariant
            n == sorted@.len(),
            start <= n,
            rows_view(rows@) + rows_from(sorted@, start as int, total as int, count as int)
                == rows_from(sorted@, 0, total as int, count as int),
        decreases n - start,
    {
        let anchor = sorted[start];
        let mut row: Vec<BBox> = Vec::new();
        row.push(anchor);
        let mut end: usize = start + 1;
        while end < n && is_on_row(&anchor, &sorted[end], total, count)
            invariant
                n == sorted@.len(),
                start < end <= n,
                anchor == sorted@[start as int],
                row@ == sorted@.subrange(start as int, end as int),
                end + run_of(sorted@, anchor, end as int, total as int, count as int) == row_end(
                    sorted@,
                    start as int,
                    total as int,
                    count as int,
                ),
            decreases n - end,
        {
            row.push(sorted[end]);
            proof {
                assert(sorted@.subrange(start as int, end as int).push(sorted@[end as int])
                    =~= sorted@.subrange(start as int, end + 1));
            }
            end = end + 1;
        }
        proof {
            assert(sorted@.subrange(start as int, start + 1) =~= seq![anchor]);
        }
        let arranged = sort_left_to_right(&row);
        let ghost before = rows_view(rows@);
        rows.push(arranged);
        proof {
            assert(rows_view(rows@) =~= before + seq![arranged@]);
            let rest = rows_from(sorted@, end as int, total as int, count as int);
            assert(before + (seq![arranged@] + rest) =~= (before + seq![arranged@]) + rest);
        }
        start = end;
    }
    proof {
        assert(rows_view(rows@) + Seq::<Seq<BBox>>::empty() =~= rows_view(rows@));
    }
    rows
}

impl Table {
    /// Builds the table whose cells have the given boxes.
    ///
    /// Fails exactly when there is no box.
    pub fn from_boxes(boxes: &Vec<BBox>) -> (r: Result<Table, TableError>)
        ensures
            r is Err <==> boxes@.len() == 0,
            r matches Err(e) ==> e == TableError::NoCellsFound,
            r matches Ok(t) ==> rows_view(t.rows@) == clustered_rows(boxes@),
    {
        if boxes.len() == 0 {
            return Err(TableError::NoCellsFound);
        }
        let sorted = sort_top_to_bottom(boxes);
        let total = sum_heights(boxes);
        let rows = split_rows(&sorted, total, boxes.len());
        Ok(Table { rows })
    }
}

} // verus!
