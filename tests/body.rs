use regular_table::model::{CellValue, Content, DomOp, Tag};
use regular_table::sizes::ColumnSizes;
use regular_table::tbody::{ColumnState, RegularBodyViewModel, ViewState};

const A: CellValue = CellValue::Text(1);
const B: CellValue = CellValue::Text(2);

fn created_count(ops: &[DomOp]) -> usize {
    ops.iter()
        .filter(|op| matches!(op, DomOp::AppendCell { .. } | DomOp::InsertCell { .. } | DomOp::ReplaceCell { .. }))
        .count()
}

fn view(row_height: Option<usize>, depth: usize) -> ViewState {
    ViewState { row_height, row_headers_length: depth, ridx_offset: 100, x1: 9, y1: 140 }
}

fn data_column(n: u64) -> ColumnState {
    ColumnState {
        cidx: 0,
        column_name: CellValue::Text(77),
        column_data: (0..n).map(CellValue::Text).collect(),
        row_headers: None,
    }
}

fn header_column(paths: Vec<Vec<CellValue>>) -> ColumnState {
    ColumnState { cidx: 0, column_name: CellValue::Text(77), column_data: vec![], row_headers: Some(paths) }
}

#[test]
fn virtualization_cutoff_after_three_rows() {
    let sizes = ColumnSizes::new();
    let mut body = RegularBodyViewModel::new();
    let res = body.draw(45, &data_column(10), &view(Some(20), 0), false, Some(5), Some(2), 5, 3, &sizes);
    assert_eq!(res.ridx, 3);
    assert_eq!(body.view_model().num_rows(), 3);
    assert!(body.fetch_cell(2, 0).is_some());
    assert!(body.fetch_cell(3, 0).is_none());
    assert_eq!(created_count(&body.take_ops()), 3);
}

#[test]
fn cutoff_checked_after_each_row() {
    let sizes = ColumnSizes::new();
    let mut body = RegularBodyViewModel::new();
    let res = body.draw(40, &data_column(10), &view(Some(20), 0), false, Some(5), Some(2), 5, 3, &sizes);
    assert_eq!(res.ridx, 3);
    let res = body.draw(39, &data_column(10), &view(Some(20), 0), false, Some(5), Some(2), 5, 3, &sizes);
    assert_eq!(res.ridx, 2);
    assert_eq!(body.view_model().num_rows(), 2);
    let res = body.draw(1000, &data_column(4), &view(Some(20), 0), false, Some(5), Some(2), 5, 3, &sizes);
    assert_eq!(res.ridx, 4);
}

#[test]
fn unknown_row_height_draws_one_row() {
    let sizes = ColumnSizes::new();
    let mut body = RegularBodyViewModel::new();
    let res = body.draw(1000, &data_column(10), &view(None, 0), false, Some(5), Some(2), 5, 3, &sizes);
    assert_eq!(res.ridx, 1);
    assert_eq!(res.row_height, None);
    assert_eq!(res.metadata.unwrap().row, 0);
}

#[test]
fn data_cell_metadata_and_content() {
    let sizes = ColumnSizes::new();
    let mut body = RegularBodyViewModel::new();
    let column = ColumnState {
        cidx: 2,
        column_name: CellValue::Text(77),
        column_data: vec![CellValue::Text(40), CellValue::Null, CellValue::Element(9)],
        row_headers: Some(vec![vec![A], vec![B]]),
    };
    let res = body.draw(1000, &column, &view(Some(20), 1), false, Some(7), Some(2), 5, 3, &sizes);
    assert_eq!(res.ridx, 3);
    let c1 = body.fetch_cell(1, 2).unwrap();
    assert_eq!(c1.tag, Tag::Td);
    assert_eq!(c1.content, Content::Empty);
    assert_eq!(c1.meta.value, CellValue::Null);
    assert_eq!(c1.meta.y, Some(101));
    assert_eq!(c1.meta.dy, Some(1));
    assert_eq!(c1.meta.dx, Some(5));
    assert_eq!(c1.meta.row_header, Some(1));
    assert_eq!(c1.meta.column_header, CellValue::Text(77));
    assert_eq!(c1.meta.size_key, Some(5));
    assert_eq!(c1.meta.virtual_x, Some(3));
    assert_eq!(body.fetch_cell(0, 2).unwrap().content, Content::Text(40));
    assert_eq!(body.fetch_cell(2, 2).unwrap().content, Content::Child(9));
    assert_eq!(body.fetch_cell(2, 2).unwrap().meta.row_header, None);
    assert_eq!(res.tds.len(), 1);
    assert_eq!(res.tds[0].row, 2);
}

#[test]
fn span_merge_of_equal_row_headers() {
    let sizes = ColumnSizes::new();
    let mut body = RegularBodyViewModel::new();
    let column = header_column(vec![vec![A], vec![A], vec![B]]);
    let res = body.draw(1000, &column, &view(Some(20), 1), true, None, None, 0, 0, &sizes);
    assert_eq!(res.ridx, 3);
    let a = body.fetch_cell(0, 0).unwrap();
    assert_eq!(a.tag, Tag::Th);
    assert_eq!(a.rowspan, Some(2));
    assert_eq!(a.meta.value, A);
    assert!(body.fetch_cell(1, 0).is_none());
    let b = body.fetch_cell(2, 0).unwrap();
    assert_eq!(b.meta.value, B);
    assert_eq!(b.rowspan, None);
    assert_eq!(created_count(&body.take_ops()), 2);
}

#[test]
fn missing_deeper_header_extends_colspan() {
    let sizes = ColumnSizes::new();
    let mut body = RegularBodyViewModel::new();
    let column = header_column(vec![vec![A, CellValue::Text(5)], vec![B, CellValue::Undefined]]);
    body.draw(1000, &column, &view(Some(20), 2), true, None, None, 0, 0, &sizes);
    let b = body.fetch_cell(1, 0).unwrap();
    assert_eq!(b.colspan, Some(2));
    assert!(body.fetch_cell(1, 1).is_none());
    let deep = body.fetch_cell(0, 1).unwrap();
    assert_eq!(deep.meta.value, CellValue::Text(5));
    assert_eq!(deep.meta.row_header_x, Some(1));
}

#[test]
fn redraw_of_data_column_creates_nothing() {
    let sizes = ColumnSizes::new();
    let mut body = RegularBodyViewModel::new();
    body.draw(45, &data_column(10), &view(Some(20), 0), false, Some(5), Some(2), 5, 3, &sizes);
    assert!(!body.take_ops().is_empty());
    body.draw(45, &data_column(10), &view(Some(20), 0), false, Some(5), Some(2), 5, 3, &sizes);
    assert!(body.take_ops().is_empty());
}

#[test]
fn redraw_of_row_headers_creates_nothing() {
    let sizes = ColumnSizes::new();
    let mut body = RegularBodyViewModel::new();
    let column = header_column(vec![vec![A], vec![A], vec![B]]);
    body.draw(1000, &column, &view(Some(20), 1), true, None, None, 0, 0, &sizes);
    body.take_ops();
    body.draw(1000, &column, &view(Some(20), 1), true, None, None, 0, 0, &sizes);
    assert_eq!(created_count(&body.take_ops()), 0);
}

#[test]
fn data_cell_replaces_header_cell() {
    let sizes = ColumnSizes::new();
    let mut body = RegularBodyViewModel::new();
    body.draw(1000, &header_column(vec![vec![A]]), &view(Some(20), 1), true, None, None, 0, 0, &sizes);
    body.take_ops();
    body.draw(1000, &data_column(1), &view(Some(20), 0), false, Some(0), Some(0), 0, 0, &sizes);
    assert_eq!(body.take_ops(), vec![DomOp::ReplaceCell { row: 0, col: 0, tag: Tag::Td }]);
}

#[test]
fn override_width_sizes_cell() {
    let mut sizes = ColumnSizes::new();
    sizes.set_override(5, 50);
    sizes.set_auto(5, 80);
    let mut body = RegularBodyViewModel::new();
    body.draw(1000, &data_column(1), &view(Some(20), 0), false, Some(5), Some(2), 5, 3, &sizes);
    let c = body.fetch_cell(0, 0).unwrap();
    assert_eq!(c.min_width, Some(50));
    assert_eq!(c.max_width, Some(50));
    assert!(c.clip);
}

#[test]
fn auto_width_sizes_cell() {
    let mut sizes = ColumnSizes::new();
    sizes.set_auto(5, 80);
    let mut body = RegularBodyViewModel::new();
    body.draw(1000, &data_column(1), &view(Some(20), 0), false, Some(5), Some(2), 5, 3, &sizes);
    let c = body.fetch_cell(0, 0).unwrap();
    assert_eq!(c.min_width, Some(80));
    assert_eq!(c.max_width, None);
    assert!(!c.clip);
}

#[test]
fn clean_trims_rows_and_columns() {
    let sizes = ColumnSizes::new();
    let mut body = RegularBodyViewModel::new();
    let mut col = data_column(4);
    body.draw(1000, &col, &view(Some(20), 0), false, Some(5), Some(2), 5, 3, &sizes);
    col.cidx = 1;
    body.draw(1000, &col, &view(Some(20), 0), false, Some(5), Some(2), 5, 3, &sizes);
    body.clean(2, 1);
    assert_eq!(body.view_model().num_rows(), 2);
    assert_eq!(body.view_model().num_columns(), 1);
}
