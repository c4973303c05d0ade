use table_scan::cells::{recognized, select_cells, Region};
use table_scan::config::{plan_ruling, Config, KernelSize};
use table_scan::keyed_sort::sort_pairs;
use table_scan::pipeline::{imgproc_pipeline, keep_present, Action, Event, PipelineError, Stage};
use table_scan::detect::DetectionError;
use table_scan::geometry::Point;
use table_scan::polygon::Poly;
use table_scan::rectify::RectifyError;
use table_scan::table::{
    sort_left_to_right, sort_top_to_bottom, split_rows, BBox, Table, TableError,
};

fn bx(x: i32, y: i32, width: i32, height: i32) -> BBox {
    BBox { x, y, width, height }
}

#[test]
fn no_box_gives_no_table() {
    assert_eq!(Table::from_boxes(&Vec::new()).err(), Some(TableError::NoCellsFound));
}

#[test]
fn pairs_come_out_in_order() {
    let out = sort_pairs(vec![(5, 0), (-3, 1), (5, 2), (0, 3), (-3, 4)]);
    assert_eq!(out, vec![(-3, 1), (-3, 4), (0, 3), (5, 0), (5, 2)]);
}

#[test]
fn boxes_are_sorted_from_top_to_bottom() {
    let boxes = vec![bx(0, 30, 1, 1), bx(1, 10, 1, 1), bx(2, 20, 1, 1), bx(3, 10, 1, 1)];
    let out = sort_top_to_bottom(&boxes);
    assert_eq!(out, vec![bx(1, 10, 1, 1), bx(3, 10, 1, 1), bx(2, 20, 1, 1), bx(0, 30, 1, 1)]);
}

#[test]
fn boxes_are_sorted_from_left_to_right() {
    let boxes = vec![bx(9, 0, 1, 1), bx(-4, 1, 1, 1), bx(9, 2, 1, 1), bx(0, 3, 1, 1)];
    let out = sort_left_to_right(&boxes);
    assert_eq!(out, vec![bx(-4, 1, 1, 1), bx(0, 3, 1, 1), bx(9, 0, 1, 1), bx(9, 2, 1, 1)]);
}

#[test]
fn three_rows_of_two_cells() {
    // Cells of 100 by 40, ruled 4 apart, found in no particular order.
    let boxes = vec![
        bx(110, 92, 100, 40),
        bx(6, 4, 100, 40),
        bx(110, 4, 100, 40),
        bx(6, 48, 100, 40),
        bx(6, 93, 100, 40),
        bx(110, 49, 100, 40),
    ];
    let table = Table::from_boxes(&boxes).unwrap();
    assert_eq!(
        table.rows,
        vec![
            vec![bx(6, 4, 100, 40), bx(110, 4, 100, 40)],
            vec![bx(6, 48, 100, 40), bx(110, 49, 100, 40)],
            vec![bx(6, 93, 100, 40), bx(110, 92, 100, 40)],
        ]
    );
    for row in &table.rows {
        assert_eq!(row.len(), 2);
        assert!(row[0].x < row[1].x);
    }
}

#[test]
fn spaced_boxes_get_a_row_each() {
    let boxes = vec![bx(0, 63, 5, 20), bx(0, 0, 5, 20), bx(0, 42, 5, 20), bx(0, 21, 5, 20)];
    let table = Table::from_boxes(&boxes).unwrap();
    assert_eq!(
        table.rows,
        vec![
            vec![bx(0, 0, 5, 20)],
            vec![bx(0, 21, 5, 20)],
            vec![bx(0, 42, 5, 20)],
            vec![bx(0, 63, 5, 20)],
        ]
    );
}

#[test]
fn level_boxes_make_one_row() {
    let boxes = vec![bx(40, 7, 5, 20), bx(0, 7, 5, 20), bx(60, 7, 5, 20), bx(20, 7, 5, 20)];
    let table = Table::from_boxes(&boxes).unwrap();
    assert_eq!(
        table.rows,
        vec![vec![bx(0, 7, 5, 20), bx(20, 7, 5, 20), bx(40, 7, 5, 20), bx(60, 7, 5, 20)]]
    );
}

#[test]
fn a_row_reaches_half_the_mean_height_down() {
    // Mean height 10: a box up to 5 below the anchor is on its row.
    let boxes = vec![bx(0, 100, 8, 10), bx(20, 105, 8, 10), bx(40, 106, 8, 10)];
    let table = Table::from_boxes(&boxes).unwrap();
    assert_eq!(
        table.rows,
        vec![vec![bx(0, 100, 8, 10), bx(20, 105, 8, 10)], vec![bx(40, 106, 8, 10)]]
    );
}

#[test]
fn half_of_an_odd_mean_is_not_rounded() {
    // Heights 3 and 4: the mean is 3.5 and a row reaches 1.75 down.
    let boxes = vec![bx(0, 0, 8, 3), bx(20, 1, 8, 4)];
    assert_eq!(Table::from_boxes(&boxes).unwrap().rows.len(), 1);
    let lower = vec![bx(0, 0, 8, 3), bx(20, 2, 8, 4)];
    assert_eq!(Table::from_boxes(&lower).unwrap().rows.len(), 2);
}

#[test]
fn the_row_is_measured_from_its_anchor() {
    // Each box is 4 below the one before; the mean height is 10.
    let boxes = vec![bx(0, 0, 8, 10), bx(10, 4, 8, 10), bx(20, 8, 8, 10), bx(30, 12, 8, 10)];
    let table = Table::from_boxes(&boxes).unwrap();
    assert_eq!(
        table.rows,
        vec![
            vec![bx(0, 0, 8, 10), bx(10, 4, 8, 10)],
            vec![bx(20, 8, 8, 10), bx(30, 12, 8, 10)],
        ]
    );
}

#[test]
fn rows_may_differ_in_length() {
    let boxes = vec![bx(0, 0, 8, 10), bx(10, 0, 8, 10), bx(20, 0, 8, 10), bx(0, 50, 8, 10)];
    let table = Table::from_boxes(&boxes).unwrap();
    assert_eq!(table.rows.len(), 2);
    assert_eq!(table.rows[0].len(), 3);
    assert_eq!(table.rows[1].len(), 1);
}

#[test]
fn boxes_of_negative_height_stand_alone() {
    let boxes = vec![bx(0, 0, 8, -1), bx(10, 0, 8, -1)];
    let table = Table::from_boxes(&boxes).unwrap();
    assert_eq!(table.rows, vec![vec![bx(0, 0, 8, -1)], vec![bx(10, 0, 8, -1)]]);
}

#[test]
fn rows_at_the_limits() {
    let boxes = vec![bx(0, i32::MAX, 1, i32::MAX), bx(0, i32::MIN, 1, i32::MAX)];
    let table = Table::from_boxes(&boxes).unwrap();
    assert_eq!(table.rows.len(), 2);
    assert_eq!(table.rows[0][0].y, i32::MIN);
}

#[test]
fn split_rows_cuts_where_it_is_told() {
    let sorted = vec![bx(5, 0, 1, 1), bx(3, 1, 1, 1), bx(1, 9, 1, 1)];
    // A total of 4 over 2 boxes is a mean of 2: a row reaches 1 down.
    let rows = split_rows(&sorted, 4, 2);
    assert_eq!(rows, vec![vec![bx(3, 1, 1, 1), bx(5, 0, 1, 1)], vec![bx(1, 9, 1, 1)]]);
}

#[test]
fn missing_items_are_dropped() {
    let items = vec![Some(bx(1, 1, 1, 1)), None, Some(bx(2, 2, 2, 2)), None];
    assert_eq!(keep_present(&items), vec![bx(1, 1, 1, 1), bx(2, 2, 2, 2)]);
    let none: Vec<Option<BBox>> = vec![None, None];
    assert!(keep_present(&none).is_empty());
}

#[test]
fn the_standard_configuration() {
    let c = Config::default();
    assert_eq!(c.horizontal_divisor, 50);
    assert_eq!(c.vertical_divisor, 35);
    assert_eq!(c.opening_iterations, 8);
    assert_eq!(c.erosion_iterations, 2);
    assert_eq!((c.tolerance_numerator, c.tolerance_denominator), (1, 1000));
    assert_eq!(c.column, 1);
    assert_eq!(c.min_columns, 3);
    assert_eq!(c.min_cell_size, 10);
    assert_eq!(c.delta, 1);
    assert_eq!(c.scale, 2);
    assert_eq!(c.left_slack, 10);
    assert!(c.is_well_formed());
}

#[test]
fn a_zero_divisor_is_not_well_formed() {
    let mut c = Config::default();
    c.vertical_divisor = 0;
    assert!(!c.is_well_formed());
}

#[test]
fn kernels_follow_the_image_size() {
    let plan = plan_ruling(1000, 700, &Config::default());
    assert_eq!(plan.horizontal, KernelSize { width: 20, height: 1 });
    assert_eq!(plan.vertical, KernelSize { width: 1, height: 20 });
    assert_eq!(plan.opening_iterations, 8);
    assert_eq!(plan.erosion_iterations, 2);
    let small = plan_ruling(49, 69, &Config::default());
    assert_eq!(small.horizontal, KernelSize { width: 0, height: 1 });
    assert_eq!(small.vertical, KernelSize { width: 1, height: 1 });
}

fn name_table() -> Table {
    Table {
        rows: vec![
            vec![bx(0, 0, 30, 40), bx(100, 0, 200, 40), bx(310, 0, 50, 40)],
            vec![bx(0, 44, 30, 40), bx(85, 44, 215, 40), bx(310, 44, 50, 40)],
            vec![bx(0, 88, 30, 40), bx(100, 88, 200, 40)],
            vec![bx(0, 132, 30, 40), bx(100, 132, 200, 10), bx(310, 132, 50, 40)],
            vec![bx(0, 176, 30, 40), bx(100, 176, 11, 11), bx(310, 176, 50, 40)],
        ],
    }
}

#[test]
fn cells_of_the_name_column_are_planned() {
    let plans = select_cells(&name_table(), &Config::default());
    assert_eq!(plans.len(), 3);

    // The first row sets the reference: 100 - 10 = 90. Its cell is not left of it.
    assert_eq!(plans[0].cell, bx(100, 0, 200, 40));
    assert_eq!(plans[0].crop, Region { x: 100, y: 0, width: 200, height: 40 });
    assert_eq!((plans[0].scaled_width, plans[0].scaled_height), (400, 80));
    assert_eq!(plans[0].trim, Region { x: 2, y: 2, width: 396, height: 76 });

    // The second begins at 85, left of 90: it is moved and made smaller by 1.
    assert_eq!(plans[1].cell, bx(85, 44, 215, 40));
    assert_eq!(plans[1].crop, Region { x: 84, y: 43, width: 214, height: 39 });
    assert_eq!((plans[1].scaled_width, plans[1].scaled_height), (428, 78));
    assert_eq!(plans[1].trim, Region { x: 2, y: 2, width: 424, height: 74 });

    // The third row is too short, the fourth cell too low; the fifth is read.
    assert_eq!(plans[2].cell, bx(100, 176, 11, 11));
    assert_eq!(plans[2].trim, Region { x: 2, y: 2, width: 18, height: 18 });
}

#[test]
fn margins_may_use_a_cell_up() {
    let mut config = Config::default();
    config.delta = 6;
    config.scale = 1;
    // 11 wide, 12 taken off: nothing is left.
    let plans = select_cells(&name_table(), &config);
    assert_eq!(plans.len(), 2);
    assert_eq!(plans[0].trim, Region { x: 6, y: 6, width: 188, height: 28 });
}

#[test]
fn another_column_can_be_read() {
    let mut config = Config::default();
    config.column = 2;
    config.min_columns = 1;
    let plans = select_cells(&name_table(), &config);
    assert_eq!(plans.len(), 4);
    assert_eq!(plans[0].cell, bx(310, 0, 50, 40));
}

#[test]
fn a_table_without_the_column_has_no_cells_to_read() {
    let table = Table { rows: vec![vec![bx(0, 0, 30, 40)]] };
    assert!(select_cells(&table, &Config::default()).is_empty());
    let empty = Table { rows: vec![] };
    assert!(select_cells(&empty, &Config::default()).is_empty());
}

#[test]
fn a_short_first_row_sets_no_reference() {
    let mut config = Config::default();
    config.min_columns = 2;
    let table = Table {
        rows: vec![vec![bx(0, 0, 30, 40)], vec![bx(0, 44, 30, 40), bx(2, 44, 215, 40)]],
    };
    let plans = select_cells(&table, &config);
    assert_eq!(plans.len(), 1);
    assert_eq!(plans[0].crop, Region { x: 2, y: 44, width: 215, height: 40 });
}

#[test]
fn text_that_was_not_read_is_empty() {
    let cell = bx(1, 2, 3, 4);
    let read = recognized(cell, Some("Ada".to_string()));
    assert_eq!(read.cell, cell);
    assert_eq!(read.text, "Ada");
    let failed = recognized(cell, None);
    assert_eq!(failed.cell, cell);
    assert_eq!(failed.text, "");
}

fn upright(x: i32, y: i32, w: i32, h: i32) -> Poly {
    Poly(vec![
        Point { x, y },
        Point { x: x + w, y },
        Point { x: x + w, y: y + h },
        Point { x, y: y + h },
    ])
}

#[test]
fn a_run_from_contours_to_cells() {
    let config = Config::default();
    let (stage, action) = imgproc_pipeline(
        Stage::Detecting,
        Event::Contours(vec![None, Some(upright(10, 10, 300, 200))]),
        &config,
    );
    assert_eq!(stage, Stage::Rectifying);
    match action {
        Action::Rectify(plan) => assert_eq!((plan.width, plan.height), (300, 200)),
        other => panic!("{:?}", other),
    }

    let (stage, action) =
        imgproc_pipeline(stage, Event::Rectified { width: 300, height: 200 }, &config);
    assert_eq!(stage, Stage::Structuring);
    match action {
        Action::FindBoxes(plan) => {
            assert_eq!(plan.horizontal, KernelSize { width: 6, height: 1 });
            assert_eq!(plan.vertical, KernelSize { width: 1, height: 5 });
        }
        other => panic!("{:?}", other),
    }

    let boxes = vec![
        Some(bx(200, 50, 90, 40)),
        Some(bx(50, 4, 140, 40)),
        None,
        Some(bx(4, 50, 40, 40)),
        Some(bx(4, 4, 40, 40)),
        Some(bx(50, 50, 140, 40)),
        Some(bx(200, 4, 90, 40)),
    ];
    let (stage, action) = imgproc_pipeline(stage, Event::Boxes(boxes), &config);
    assert_eq!(stage, Stage::Finished);
    match action {
        Action::Extract(table, cells) => {
            assert_eq!(
                table.rows,
                vec![
                    vec![bx(4, 4, 40, 40), bx(50, 4, 140, 40), bx(200, 4, 90, 40)],
                    vec![bx(4, 50, 40, 40), bx(50, 50, 140, 40), bx(200, 50, 90, 40)],
                ]
            );
            assert_eq!(cells.len(), 2);
            assert_eq!(cells[0].cell, bx(50, 4, 140, 40));
            assert_eq!(cells[1].cell, bx(50, 50, 140, 40));
        }
        other => panic!("{:?}", other),
    }
}

#[test]
fn a_run_without_a_quadrilateral_fails() {
    let (stage, action) =
        imgproc_pipeline(Stage::Detecting, Event::Contours(vec![]), &Config::default());
    assert_eq!(stage, Stage::Finished);
    assert!(matches!(
        action,
        Action::Fail(PipelineError::Detection(DetectionError::NoQuadrilateralFound))
    ));
}

#[test]
fn a_run_with_a_flat_quadrilateral_fails() {
    // Ordered, the four vertices are all there, but three lie on a line.
    let flat = Poly(vec![
        Point { x: 0, y: 0 },
        Point { x: 100, y: 0 },
        Point { x: 200, y: 0 },
        Point { x: 100, y: 90 },
    ]);
    let (stage, action) =
        imgproc_pipeline(Stage::Detecting, Event::Contours(vec![Some(flat)]), &Config::default());
    assert_eq!(stage, Stage::Finished);
    assert!(matches!(
        action,
        Action::Fail(PipelineError::Rectify(RectifyError::SingularTransform))
    ));
}

#[test]
fn a_run_without_boxes_fails() {
    let (stage, action) = imgproc_pipeline(
        Stage::Structuring,
        Event::Boxes(vec![None, None]),
        &Config::default(),
    );
    assert_eq!(stage, Stage::Finished);
    assert!(matches!(action, Action::Fail(PipelineError::Table(TableError::NoCellsFound))));
}

#[test]
fn an_event_out_of_turn_ends_the_run() {
    let config = Config::default();
    let (stage, action) =
        imgproc_pipeline(Stage::Detecting, Event::Rectified { width: 1, height: 1 }, &config);
    assert_eq!(stage, Stage::Finished);
    assert!(matches!(action, Action::Fail(PipelineError::OutOfTurn)));
    let (stage, action) = imgproc_pipeline(Stage::Finished, Event::Boxes(vec![]), &config);
    assert_eq!(stage, Stage::Finished);
    assert!(matches!(action, Action::Fail(PipelineError::OutOfTurn)));
    let (_, action) = imgproc_pipeline(Stage::Rectifying, Event::Contours(vec![]), &config);
    assert!(matches!(action, Action::Fail(PipelineError::OutOfTurn)));
}
