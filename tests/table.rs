use regular_table::model::{CellRef, CellValue};
use regular_table::table::{normalize_row_headers, DrawState, LastCell, Measured, RegularTableViewModel};
use regular_table::tbody::{ColumnState, ViewState};

fn header_cell(t: &mut RegularTableViewModel, key: u64) {
    t.header.draw(CellValue::Undefined, &Some(vec![1]), false, None, &vec![key], None, None, &t.column_sizes);
}

fn measured(width: usize, height: usize) -> Vec<Measured> {
    let at = CellRef { row: 0, col: 0 };
    vec![Measured { last: LastCell { in_header: true, cell: at, metadata: at }, width, height }]
}

#[test]
fn autosize_records_width_and_pins_zero_min_width() {
    let mut t = RegularTableViewModel::new();
    header_cell(&mut t, 3);
    assert_eq!(t.header.fetch_cell(0, 0).unwrap().min_width, Some(0));
    let mut cells = measured(80, 19);
    t.autosize_cells(&mut cells);
    assert!(cells.is_empty());
    assert_eq!(t.column_sizes.get_index(3), Some(80));
    assert_eq!(t.column_sizes.get_auto(3), Some(80));
    assert_eq!(t.column_sizes.row_height(), Some(19));
    assert_eq!(t.header.fetch_cell(0, 0).unwrap().min_width, Some(80));
    let mut cells = measured(90, 25);
    t.autosize_cells(&mut cells);
    assert_eq!(t.column_sizes.row_height(), Some(19));
    assert_eq!(t.header.fetch_cell(0, 0).unwrap().min_width, Some(80));
    assert_eq!(t.column_sizes.get_auto(3), Some(90));
}

#[test]
fn override_precedes_auto() {
    let mut t = RegularTableViewModel::new();
    t.column_sizes.set_override(3, 50);
    header_cell(&mut t, 3);
    let mut cells = measured(80, 19);
    t.autosize_cells(&mut cells);
    let c = t.header.fetch_cell(0, 0).unwrap();
    assert_eq!((c.min_width, c.max_width), (Some(50), Some(50)));
    assert_eq!(t.column_sizes.get_auto(3), None);
    assert_eq!(t.column_sizes.get_index(3), Some(80));
}

#[test]
fn zero_width_does_not_set_auto() {
    let mut t = RegularTableViewModel::new();
    header_cell(&mut t, 3);
    let mut cells = measured(0, 19);
    t.autosize_cells(&mut cells);
    assert_eq!(t.column_sizes.get_auto(3), None);
    assert_eq!(t.column_sizes.get_index(3), Some(0));
}

#[test]
fn row_headers_draw_body_and_label_headers() {
    let mut t = RegularTableViewModel::new();
    let a = CellValue::Text(1);
    let b = CellValue::Text(2);
    let state = DrawState { cont_body: None, first_col: true, virtual_x: 0 };
    let view = ViewState { row_height: Some(20), row_headers_length: 1, ridx_offset: 0, x1: 3, y1: 3 };
    let mut last = Vec::new();
    let res = t.draw_row_headers(state, &mut last, vec![vec![a], vec![a], vec![b]], CellValue::Text(50), 1, 0, 0, &view, 0, 1000, false);
    assert!(!res.state.first_col);
    assert_eq!(res.state.virtual_x, 1);
    assert_eq!(res.state.cont_body.as_ref().unwrap().ridx, 3);
    assert_eq!(res.heads.len(), 1);
    assert_eq!(last.len(), 1);
    assert_eq!(last[0].cell, CellRef { row: 0, col: 0 });
    assert_eq!(t.body.fetch_cell(0, 0).unwrap().rowspan, Some(2));
    assert_eq!(t.header.fetch_cell(0, 0).unwrap().meta.column_header, CellValue::Text(50));
    assert_eq!(t.num_columns(), 1);
    assert_eq!(t.viewport_width(&vec![30]), 30);
    let mut cells: Vec<Measured> = last.iter().map(|l| Measured { last: *l, width: 44, height: 20 }).collect();
    t.autosize_cells(&mut cells);
    assert_eq!(t.viewport_width(&vec![30]), 44);
}

#[test]
fn no_row_headers_draw_nothing() {
    let mut t = RegularTableViewModel::new();
    let state = DrawState { cont_body: None, first_col: true, virtual_x: 4 };
    let view = ViewState { row_height: Some(20), row_headers_length: 0, ridx_offset: 0, x1: 3, y1: 3 };
    let mut last = Vec::new();
    let res = t.draw_row_headers(state, &mut last, vec![], CellValue::Text(50), 1, 0, 0, &view, 0, 1000, true);
    assert!(res.state.first_col);
    assert_eq!(res.state.virtual_x, 4);
    assert!(last.is_empty());
    assert_eq!(t.header.num_rows(), 0);
}

#[test]
fn preserve_width_queues_nothing() {
    let mut t = RegularTableViewModel::new();
    let state = DrawState { cont_body: None, first_col: true, virtual_x: 0 };
    let view = ViewState { row_height: Some(20), row_headers_length: 1, ridx_offset: 0, x1: 3, y1: 3 };
    let mut last = Vec::new();
    let res = t.draw_row_headers(state, &mut last, vec![vec![CellValue::Text(1)]], CellValue::Text(50), 2, 1, 0, &view, 0, 1000, true);
    assert!(last.is_empty());
    assert_eq!(res.heads.len(), 2);
    assert_eq!(t.header.num_rows(), 2);
}

#[test]
fn normalize_pads_to_longest() {
    let u = CellValue::Undefined;
    let mut rh = vec![vec![CellValue::Text(1)], vec![CellValue::Text(1), CellValue::Text(2)], vec![]];
    assert_eq!(normalize_row_headers(&mut rh), 2);
    assert_eq!(rh, vec![vec![CellValue::Text(1), u], vec![CellValue::Text(1), CellValue::Text(2)], vec![u, u]]);
    let mut empty: Vec<Vec<CellValue>> = vec![];
    assert_eq!(normalize_row_headers(&mut empty), 0);
}

#[test]
fn redraw_of_row_headers_reuses_every_element() {
    let mut t = RegularTableViewModel::new();
    let (a, b) = (CellValue::Text(1), CellValue::Text(2));
    let rows = vec![vec![a, CellValue::Text(7)], vec![a, CellValue::Text(8)], vec![b, CellValue::Undefined]];
    let view = ViewState { row_height: Some(20), row_headers_length: 2, ridx_offset: 0, x1: 3, y1: 3 };
    let state = || DrawState { cont_body: None, first_col: true, virtual_x: 0 };
    let mut last = Vec::new();
    t.draw_row_headers(state(), &mut last, rows.clone(), CellValue::Text(50), 2, 1, 0, &view, 0, 1000, false);
    assert!(!t.body.take_ops().is_empty());
    assert!(!t.header.take_ops().is_empty());
    t.header.clean();
    t.header.take_ops();
    t.draw_row_headers(state(), &mut last, rows, CellValue::Text(50), 2, 1, 0, &view, 0, 1000, false);
    assert!(t.body.take_ops().is_empty());
    assert!(t.header.take_ops().is_empty());
}

#[test]
fn autosize_body_cell_uses_its_size_key() {
    let mut t = RegularTableViewModel::new();
    let col = ColumnState { cidx: 0, column_name: CellValue::Text(3), column_data: vec![CellValue::Text(4)], row_headers: None };
    let view = ViewState { row_height: Some(20), row_headers_length: 0, ridx_offset: 0, x1: 3, y1: 3 };
    t.body.draw(1000, &col, &view, false, Some(0), Some(0), 9, 0, &t.column_sizes);
    let at = CellRef { row: 0, col: 0 };
    let mut cells = vec![Measured { last: LastCell { in_header: false, cell: at, metadata: at }, width: 61, height: 18 }];
    t.autosize_cells(&mut cells);
    assert_eq!(t.column_sizes.get_auto(9), Some(61));
    assert_eq!(t.column_sizes.get_index(9), Some(61));
    assert_eq!(t.column_sizes.row_height(), Some(18));
    assert_eq!(t.body.fetch_cell(0, 0).unwrap().min_width, None);
}
