//! Choosing the cells to read, and the part of each that is read.

use vstd::prelude::*;
use crate::config::Config;
use crate::table::{rows_view, BBox, Table};

verus! {

/// A rectangle in an image.
#[derive(Clone, Copy, Debug, PartialEq, Eq, Structural)]
pub struct Region {
    pub x: i64,
    pub y: i64,
    pub width: i64,
    pub height: i64,
}

/// How the image of one cell is prepared for reading.
#[derive(Clone, Copy, Debug, PartialEq, Eq, Structural)]
pub struct CellPlan {
    /// The box of the cell in the table.
    pub cell: BBox,
    /// The part of the table image that is cut out.
    pub crop: Region,
    /// The size to which the cut is enlarged.
    pub scaled_width: i64,
    pub scaled_height: i64,
    /// The part of the enlarged cut that is kept.
    pub trim: Region,
}

/// A cell and the text read in it.
#[derive(Debug)]
pub struct RecognizedCell {
    pub cell: BBox,
    pub text: String,
}

/// The x position left of which a cell is taken to touch the ruling to its
/// left: that of the read column in the first row, less the slack. There is
/// none where the first row does not reach the column.
pub open spec fn reference_left(rows: Seq<Seq<BBox>>, config: Config) -> Option<int> {
    if rows.len() > 0 && rows[0].len() > config.column {
        Some(rows[0][config.column as int].x - config.left_slack)
    } else {
        None
    }
}

/// The part of the table image that is cut out for `cell`: the box of the
/// cell, or, where the cell begins left of `reference`, the box moved up
/// and left by the margin and made smaller by the margin.
pub open spec fn crop_of(cell: BBox, reference: Option<int>, config: Config) -> Region {
    if reference is Some && cell.x < reference.unwrap() {
        Region {
            x: (cell.x - config.delta) as i64,
            y: (cell.y - config.delta) as i64,
            width: (cell.width - config.delta) as i64,
            height: (cell.height - config.delta) as i64,
        }
    } else {
        Region {
            x: cell.x as i64,
            y: cell.y as i64,
            width: cell.width as i64,
            height: cell.height as i64,
        }
    }
}

/// The plan for `cell`, whatever is left of it.
pub open spec fn plan_of(cell: BBox, reference: Option<int>, config: Config) -> CellPlan {
    let crop = crop_of(cell, reference, config);
    let margin = config.delta * config.scale;
    CellPlan {
        cell,
        crop,
        scaled_width: (crop.width * config.scale) as i64,
        scaled_height: (crop.height * config.scale) as i64,
        trim: Region {
            x: margin as i64,
            y: margin as i64,
            width: (crop.width * config.scale - 2 * margin) as i64,
            height: (crop.height * config.scale - 2 * margin) as i64,
        },
    }
}

/// Whether anything is left of the cell once the margin is cut off.
pub open spec fn leaves_something(plan: CellPlan) -> bool {
    plan.trim.width > 0 && plan.trim.height > 0
}

/// Whether the cell of `row` in the read column is read: the row has
/// enough boxes and reaches the column, and the cell is large enough.
pub open spec fn is_read(row: Seq<BBox>, config: Config) -> bool {
    &&& row.len() >= config.min_columns
    &&& row.len() > config.column
    &&& row[config.column as int].width > config.min_cell_size
    &&& row[config.column as int].height > config.min_cell_size
}

/// The plans for the first `upto` rows: one for each row whose cell is
/// read and leaves something, in the order of the rows.
pub open spec fn plans_upto(rows: Seq<Seq<BBox>>, upto: int, config: Config) -> Seq<CellPlan>
    decreases upto,
{
    if upto <= 0 {
        Seq::empty()
    } else {
        let row = rows[upto - 1];
        let plan = plan_of(row[config.column as int], reference_left(rows, config), config);
        if is_read(row, config) && leaves_something(plan) {
            plans_upto(rows, upto - 1, config).push(plan)
        } else {
            plans_upto(rows, upto - 1, config)
        }
    }
}

/// The plans for all rows.
pub open spec fn cell_plans(rows: Seq<Seq<BBox>>, config: Config) -> Seq<CellPlan> {
    plans_upto(rows, rows.len() as int, config)
}

/// Plans the preparation of one cell.
fn plan_cell(cell: BBox, reference: Option<i64>, config: &Config) -> (r: CellPlan)
    ensures
        r == plan_of(
            cell,
            match reference {
                Some(v) => Some(v as int),
                None => None,
            },
            *config,
        ),
{
    let delta: i64 = config.delta as i64;
    let scale: i64 = config.scale as i64;
    let shrink: bool = match reference {
        Some(v) => (cell.x as i64) < v,
        None => false,
    };
    let crop = if shrink {
        Region {
            x: cell.x as i64 - delta,
            y: cell.y as i64 - delta,
            width: cell.width as i64 - delta,
            height: cell.height as i64 - delta,
        }
    } else {
        Region {
            x: cell.x as i64,
            y: cell.y as i64,
            width: cell.width as i64,
            height: cell.height as i64,
        }
    };
    assert(-0x8000_ffff * 0xffff <= crop.width * scale <= 0x7fff_ffff * 0xffff)
        by (nonlinear_arith)
        requires
            -0x8000_ffff <= crop.width <= 0x7fff_ffff,
            0 <= scale <= 0xffff,
    ;
    assert(-0x8000_ffff * 0xffff <= crop.height * scale <= 0x7fff_ffff * 0xffff)
        by (nonlinear_arith)
        requires
            -0x8000_ffff <= crop.height <= 0x7fff_ffff,
            0 <= scale <= 0xffff,
    ;
    assert(0 <= delta * scale <= 0xffff * 0xffff) by (nonlinear_arith)
        requires
            0 <= delta <= 0xffff,
            0 <= scale <= 0xffff,
    ;
    let margin: i64 = delta * scale;
    let scaled_width: i64 = crop.width * scale;
    let scaled_height: i64 = crop.height * scale;
    CellPlan {
        cell,
        crop,
        scaled_width,
        scaled_height,
        trim: Region {
            x: margin,
            y: margin,
            width: scaled_width - 2 * margin,
            height: scaled_height - 2 * margin,
        },
    }
}

/// Plans the reading of a table: one plan for each row whose cell in the
/// read column is read and is not used up by the margins.
pub fn select_cells(table: &Table, config: &Config) -> (plans: Vec<CellPlan>)
    ensures
        plans@ == cell_plans(rows_view(table.rows@), *config),
{
    let n: usize = table.rows.len();
    let column: usize = config.column;
    let reference: Option<i64> = if n > 0 && table.rows[0].len() > column {
        Some(table.rows[0][column].x as i64 - config.left_slack as i64)
    } else {
        None
    };
    let ghost rows = rows_view(table.rows@);
    let ghost reference_spec: Option<int> = match reference {
        Some(v) => Some(v as int),
        None => None,
    };
    let mut plans: Vec<CellPlan> = Vec::new();
    let mut i: usize = 0;
    while i < n
        invariant
            n == table.rows@.len(),
            i <= n,
            column == config.column,
            rows == rows_view(table.rows@),
            reference_spec == reference_left(rows, *config),
            reference_spec == match reference {
                Some(v) => Some(v as int),
                None => None,
            },
            plans@ == plans_upto(rows, i as int, *config),
        decreases n - i,
    {
        let row = &table.rows[i];
        if row.len() >= config.min_columns && row.len() > column {
            let cell = row[column];
            if cell.width > config.min_cell_size && cell.height > config.min_cell_size {
                let plan = plan_cell(cell, reference, config);
                if plan.trim.width > 0 && plan.trim.height > 0 {
                    plans.push(plan);
                }
            }
        }
        i = i + 1;
    }
    plans
}

/// Records what was read in a cell: the text, or no text where reading
/// failed.
pub fn recognized(cell: BBox, outcome: Option<String>) -> (r: RecognizedCell)
    ensures
        r.cell == cell,
        outcome matches Some(text) ==> r.text@ == text@,
        outcome is None ==> r.text@ == Seq::<char>::empty(),
{
    match outcome {
        Some(text) => RecognizedCell { cell, text },
        None => RecognizedCell { cell, text: String::new() },
    }
}

} // verus!
