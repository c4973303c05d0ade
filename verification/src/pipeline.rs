//! The decisions of the pipeline, one step at a time.
//!
//! The caller does the work on pixels and reports what came of it as an
//! `Event`. `imgproc_pipeline` answers each event with the next `Action`
//! for the caller and the stage at which the next event is awaited.
//!
//! 1. The caller traces the outer contours of the edge map, takes the
//!    convex hull of each and simplifies it, and reports `Contours`.
//! 2. It is told to `Rectify`: to warp the image as the plan says. It
//!    then cleans the result and reports `Rectified` with its size.
//! 3. It is told to `FindBoxes`: to isolate the ruling lines as the plan
//!    says, trace the contours of what is left and bound each by a box. It
//!    reports `Boxes`.
//! 4. It is told to `Extract`: it is given the table and the cells to read.

use vstd::prelude::*;
use crate::cells::{cell_plans, select_cells, CellPlan};
use crate::config::{plan_ruling, ruling_plan, Config, RulingPlan};
use crate::detect::{detect_quadrilateral, eligible, is_largest, quadrilateral_at, DetectionError};
use crate::polygon::Poly;
use crate::rectify::{degenerate, plan_rectification, plans, RectifyError, RectifyPlan};
use crate::table::{clustered_rows, rows_view, BBox, Table, TableError};

verus! {

/// What the pipeline waits for.
#[derive(Clone, Copy, Debug, PartialEq, Eq, Structural)]
pub enum Stage {
    /// The contours of the edge map.
    Detecting,
    /// The flattened image.
    Rectifying,
    /// The boxes of the cells.
    Structuring,
    /// Nothing: the run has ended.
    Finished,
}

/// What the caller reports.
#[derive(Debug)]
pub enum Event {
    /// The simplified hulls of the contours; `None` for a contour whose
    /// hull or simplification failed.
    Contours(Vec<Option<Poly>>),
    /// The size of the flattened and cleaned image.
    Rectified { width: u32, height: u32 },
    /// The bounding boxes of the contours of the table image; `None` for a
    /// contour that could not be bounded.
    Boxes(Vec<Option<BBox>>),
}

/// Why a run ended without a table.
#[derive(Clone, Copy, Debug, PartialEq, Eq, Structural)]
pub enum PipelineError {
    Detection(DetectionError),
    Rectify(RectifyError),
    Table(TableError),
    /// The event is not the one that the stage waits for.
    OutOfTurn,
}

/// What the caller is to do next.
#[derive(Debug)]
pub enum Action {
    /// Warp the image.
    Rectify(RectifyPlan),
    /// Find the boxes of the cells.
    FindBoxes(RulingPlan),
    /// Read the cells of the table.
    Extract(Table, Vec<CellPlan>),
    /// Give up on this image.
    Fail(PipelineError),
}

/// The items that are there, in their order.
pub open spec fn present<T>(s: Seq<Option<T>>) -> Seq<T>
    decreases s.len(),
{
    if s.len() == 0 {
        Seq::empty()
    } else if s.last() is Some {
        present(s.drop_last()).push(s.last().unwrap())
    } else {
        present(s.drop_last())
    }
}

/// Whether `action` answers the contours `candidates`.
pub open spec fn answers_contours(candidates: Seq<Option<Poly>>, next: Stage, action: Action) -> bool {
    if forall|i: int| 0 <= i < candidates.len() ==> !eligible(#[trigger] candidates[i]) {
        &&& next == Stage::Finished
        &&& action == Action::Fail(
            PipelineError::Detection(DetectionError::NoQuadrilateralFound),
        )
    } else {
        exists|i: int| #[trigger]
            is_largest(candidates, i) && if degenerate(quadrilateral_at(candidates, i)) {
                &&& next == Stage::Finished
                &&& action == Action::Fail(
                    PipelineError::Rectify(RectifyError::SingularTransform),
                )
            } else {
                &&& next == Stage::Rectifying
                &&& action matches Action::Rectify(plan)
                &&& plans(plan, quadrilateral_at(candidates, i))
            }
    }
}

/// Whether `action` answers the boxes `boxes`.
pub open spec fn answers_boxes(
    boxes: Seq<Option<BBox>>,
    config: Config,
    next: Stage,
    action: Action,
) -> bool {
    &&& next == Stage::Finished
    &&& if present(boxes).len() == 0 {
        action == Action::Fail(PipelineError::Table(TableError::NoCellsFound))
    } else {
        &&& action matches Action::Extract(table, cells)
        &&& rows_view(table.rows@) == clustered_rows(present(boxes))
        &&& cells@ == cell_plans(clustered_rows(present(boxes)), config)
    }
}

/// Whether `next` and `action` answer `event` at `stage`.
pub open spec fn answers(
    stage: Stage,
    event: Event,
    config: Config,
    next: Stage,
    action: Action,
) -> bool {
    match (stage, event) {
        (Stage::Detecting, Event::Contours(candidates)) => answers_contours(
            candidates@,
            next,
            action,
        ),
        (Stage::Rectifying, Event::Rectified { width, height }) => {
            &&& next == Stage::Structuring
            &&& action == Action::FindBoxes(ruling_plan(width, height, config))
        },
        (Stage::Structuring, Event::Boxes(boxes)) => answers_boxes(boxes@, config, next, action),
        _ => {
            &&& next == Stage::Finished
            &&& action == Action::Fail(PipelineError::OutOfTurn)
        },
    }
}

/// Drops the items that are not there.
pub fn keep_present<T: Copy>(items: &Vec<Option<T>>) -> (out: Vec<T>)
    ensures
        out@ == present(items@),
{
    let n: usize = items.len();
    let mut out: Vec<T> = Vec::new();
    let mut i: usize = 0;
    while i < n
        invariant
            n == items@.len(),
            i <= n,
            out@ == present(items@.take(i as int)),
        decreases n - i,
    {
        proof {
            assert(items@.take(i + 1).drop_last() =~= items@.take(i as int));
        }
        match items[i] {
            Some(item) => {
                out.push(item);
            },
            None => {},
        }
        i = i + 1;
    }
    proof {
        assert(items@.take(n as int) =~= items@);
    }
    out
}

/// Answers the contours of the edge map.
fn on_contours(candidates: &Vec<Option<Poly>>) -> (r: (Stage, Action))
    ensures
        answers_contours(candidates@, r.0, r.1),
{
    match detect_quadrilateral(candidates) {
        Err(e) => (Stage::Finished, Action::Fail(PipelineError::Detection(e))),
        Ok(quad) => match plan_rectification(&quad) {
            Err(e) => (Stage::Finished, Action::Fail(PipelineError::Rectify(e))),
            Ok(plan) => (Stage::Rectifying, Action::Rectify(plan)),
        },
    }
}

/// Answers the boxes of the table image.
fn on_boxes(boxes: &Vec<Option<BBox>>, config: &Config) -> (r: (Stage, Action))
    ensures
        answers_boxes(boxes@, *config, r.0, r.1),
{
    let found = keep_present(boxes);
    match Table::from_boxes(&found) {
        Err(e) => (Stage::Finished, Action::Fail(PipelineError::Table(e))),
        Ok(table) => {
            let cells = select_cells(&table, config);
            (Stage::Finished, Action::Extract(table, cells))
        },
    }
}

/// Answers `event` at `stage`: says what the caller is to do next, and at
/// which stage the pipeline then is.
pub fn imgproc_pipeline(stage: Stage, event: Event, config: &Config) -> (r: (Stage, Action))
    requires
        config.well_formed(),
    ensures
        answers(stage, event, *config, r.0, r.1),
{
    match (stage, event) {
        (Stage::Detecting, Event::Contours(candidates)) => on_contours(&candidates),
        (Stage::Rectifying, Event::Rectified { width, height }) => (
            Stage::Structuring,
            Action::FindBoxes(plan_ruling(width, height, config)),
        ),
        (Stage::Structuring, Event::Boxes(boxes)) => on_boxes(&boxes, config),
        _ => (Stage::Finished, Action::Fail(PipelineError::OutOfTurn)),
    }
}

} // verus!
