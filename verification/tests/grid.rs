use rosace_widgets::tree::grid::{bento_cells, BentoCell};

/// Lattice cell → (x, y, width, height) for 100px columns and 50px rows
/// with no gaps (a 2-column grid 200px wide).
fn rect(c: &BentoCell) -> (f32, f32, f32, f32) {
    let cw = 100.0_f32;
    let rh = 50.0_f32;
    (
        c.col as f32 * cw,
        c.row as f32 * rh,
        c.col_span as f32 * cw,
        c.row_span as f32 * rh,
    )
}

#[test]
fn bento_honors_column_and_row_spans() {
    // item0 spans 2×1 (full first row), item1/item2 fill row 1,
    // item3 spans 1×2 (rows 2-3, col 0).
    let (cells, rows) = bento_cells(2, &vec![(2, 1), (1, 1), (1, 1), (1, 2)]);
    let rects: Vec<_> = cells.iter().map(rect).collect();
    assert_eq!((rects[0].0, rects[0].1), (0.0, 0.0));
    assert_eq!((rects[0].2, rects[0].3), (200.0, 50.0));
    assert_eq!((rects[1].0, rects[1].1), (0.0, 50.0));
    assert_eq!((rects[2].0, rects[2].1), (100.0, 50.0));
    assert_eq!((rects[3].0, rects[3].1), (0.0, 100.0));
    assert_eq!((rects[3].2, rects[3].3), (100.0, 100.0));
    // 4 lattice rows × 50px.
    assert_eq!(rows as f32 * 50.0, 200.0);
}

#[test]
fn bento_first_fit_backfills_gaps_beside_tall_items() {
    // item0 is 1×2 (col 0, rows 0-1); item1 (1×1) must land beside it at
    // (row 0, col 1), not below it.
    let (cells, rows) = bento_cells(2, &vec![(1, 2), (1, 1)]);
    assert_eq!((rect(&cells[1]).0, rect(&cells[1]).1), (100.0, 0.0));
    assert_eq!(rows as f32 * 50.0, 100.0);
}

#[test]
fn bento_clamps_spans_and_counts_no_rows_when_empty() {
    let (cells, rows) = bento_cells(3, &vec![(9, 0), (0, 1)]);
    assert_eq!(cells[0], BentoCell { row: 0, col: 0, col_span: 3, row_span: 1 });
    assert_eq!(cells[1], BentoCell { row: 1, col: 0, col_span: 1, row_span: 1 });
    assert_eq!(rows, 2);
    let (none, rows) = bento_cells(3, &Vec::new());
    assert!(none.is_empty());
    assert_eq!(rows, 0);
}

#[test]
fn bento_never_overlaps_items() {
    let spans = vec![(2, 2), (1, 1), (3, 1), (1, 3), (2, 1), (1, 1), (1, 1)];
    let (cells, rows) = bento_cells(3, &spans);
    let mut seen = vec![vec![false; 3]; rows];
    for c in &cells {
        assert!(c.col + c.col_span <= 3);
        for r in c.row..c.row + c.row_span {
            for k in c.col..c.col + c.col_span {
                assert!(!seen[r][k], "cell ({r}, {k}) covered twice");
                seen[r][k] = true;
            }
        }
    }
    assert_eq!(cells[0], BentoCell { row: 0, col: 0, col_span: 2, row_span: 2 });
    assert_eq!(cells[1], BentoCell { row: 0, col: 2, col_span: 1, row_span: 1 });
    assert_eq!(cells[2], BentoCell { row: 2, col: 0, col_span: 3, row_span: 1 });
    assert_eq!(cells[3], BentoCell { row: 3, col: 0, col_span: 1, row_span: 3 });
    assert_eq!(cells[4], BentoCell { row: 3, col: 1, col_span: 2, row_span: 1 });
    assert_eq!(cells[5], BentoCell { row: 1, col: 2, col_span: 1, row_span: 1 });
    assert_eq!(cells[6], BentoCell { row: 4, col: 1, col_span: 1, row_span: 1 });
    assert_eq!(rows, 6);
}
