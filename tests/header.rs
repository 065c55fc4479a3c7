use regular_table::model::{CellValue, Content, DomOp, Tag};
use regular_table::sizes::ColumnSizes;
use regular_table::thead::RegularHeaderViewModel;

const G: u64 = 10;
const H: u64 = 11;

fn draw(h: &mut RegularHeaderViewModel, parts: Vec<u64>, key: u64, sizes: &ColumnSizes) {
    h.draw(CellValue::Text(99), &Some(parts), false, Some(key as u32), &vec![key], Some(0), Some(key as usize), sizes);
}

#[test]
fn equal_group_labels_merge_into_colspan() {
    let sizes = ColumnSizes::new();
    let mut h = RegularHeaderViewModel::new();
    draw(&mut h, vec![G, 1], 0, &sizes);
    draw(&mut h, vec![G, 2], 1, &sizes);
    let g = h.fetch_cell(0, 0).unwrap();
    assert_eq!(g.colspan, Some(2));
    assert_eq!(g.content, Content::Label(G));
    assert_eq!(g.meta.size_key, Some(1));
    assert_eq!(h.num_rows(), 2);
    assert_eq!(h.num_columns(), 1);
    assert_eq!(h.fetch_cell(1, 1).unwrap().content, Content::Label(2));
    assert_eq!(h.fetch_cell(1, 1).unwrap().colspan, None);
    draw(&mut h, vec![H, 3], 2, &sizes);
    assert_eq!(h.num_columns(), 2);
    assert_eq!(h.fetch_cell(0, 1).unwrap().content, Content::Label(H));
    assert_eq!(h.fetch_cell(0, 1).unwrap().colspan, None);
}

#[test]
fn draw_reports_cells() {
    let sizes = ColumnSizes::new();
    let mut h = RegularHeaderViewModel::new();
    let r = h.draw(CellValue::Text(99), &Some(vec![G, 1]), true, None, &vec![4], Some(3), Some(0), &sizes);
    assert_eq!(r.th.unwrap().row, 1);
    assert_eq!(r.metadata.unwrap().row, 1);
    let leaf = h.fetch_cell(1, 0).unwrap();
    assert_eq!(leaf.meta.column_header_y, Some(1));
    assert_eq!(leaf.meta.row_header_x, Some(4));
    assert_eq!(leaf.meta.value, CellValue::Text(1));
    assert_eq!(leaf.meta.x0, Some(3));
    assert_eq!(leaf.min_width, Some(0));
    let r2 = h.draw(CellValue::Text(99), &Some(vec![G, 2]), true, None, &vec![5], Some(3), Some(1), &sizes);
    assert_eq!(r2.th.unwrap().col, 1);
    assert_eq!(h.fetch_cell(0, 0).unwrap().meta.row_header_x, Some(5));
}

#[test]
fn missing_parts_draw_nothing() {
    let sizes = ColumnSizes::new();
    let mut h = RegularHeaderViewModel::new();
    let r = h.draw(CellValue::Undefined, &None, false, None, &vec![], None, None, &sizes);
    assert_eq!(r.th, None);
    assert_eq!(r.metadata, None);
    assert_eq!(h.num_rows(), 0);
}

#[test]
fn shallower_path_trims_header_rows() {
    let sizes = ColumnSizes::new();
    let mut h = RegularHeaderViewModel::new();
    draw(&mut h, vec![G, H, 1], 0, &sizes);
    assert_eq!(h.num_rows(), 3);
    h.clean();
    draw(&mut h, vec![1], 0, &sizes);
    assert_eq!(h.num_rows(), 1);
}

#[test]
fn clean_then_redraw_reuses_cells() {
    let sizes = ColumnSizes::new();
    let mut h = RegularHeaderViewModel::new();
    draw(&mut h, vec![G, 1], 0, &sizes);
    draw(&mut h, vec![G, 2], 1, &sizes);
    h.clean();
    h.take_ops();
    draw(&mut h, vec![G, 1], 0, &sizes);
    draw(&mut h, vec![G, 2], 1, &sizes);
    let ops = h.take_ops();
    assert!(ops.iter().all(|op| !matches!(op, DomOp::AppendCell { .. } | DomOp::InsertCell { .. } | DomOp::ReplaceCell { .. })));
    assert_eq!(h.fetch_cell(0, 0).unwrap().colspan, Some(2));
}

#[test]
fn override_and_auto_size_header() {
    let mut sizes = ColumnSizes::new();
    sizes.set_override(0, 50);
    sizes.set_auto(1, 70);
    let mut h = RegularHeaderViewModel::new();
    draw(&mut h, vec![1], 0, &sizes);
    draw(&mut h, vec![2], 1, &sizes);
    draw(&mut h, vec![3], 2, &sizes);
    let a = h.fetch_cell(0, 0).unwrap();
    assert_eq!((a.min_width, a.max_width), (Some(50), Some(50)));
    let b = h.fetch_cell(0, 1).unwrap();
    assert_eq!((b.min_width, b.max_width), (Some(70), None));
    let c = h.fetch_cell(0, 2).unwrap();
    assert_eq!((c.min_width, c.max_width), (Some(0), None));
    assert_eq!(c.tag, Tag::Th);
}

#[test]
fn column_header_of_last_row() {
    let sizes = ColumnSizes::new();
    let mut h = RegularHeaderViewModel::new();
    draw(&mut h, vec![G, 1], 0, &sizes);
    let at = h.get_column_header(0);
    assert_eq!((at.row, at.col), (1, 0));
    let at = h.get_column_header(3);
    assert!(h.fetch_cell(1, 3).is_some());
    assert_eq!(at.col, 3);
}

#[test]
fn draw_group_labels_cell() {
    let sizes = ColumnSizes::new();
    let mut h = RegularHeaderViewModel::new();
    draw(&mut h, vec![G, 1], 0, &sizes);
    let at = regular_table::model::CellRef { row: 0, col: 0 };
    h.draw_group(CellValue::Text(5), H, at);
    let c = h.fetch_cell(0, 0).unwrap();
    assert_eq!(c.meta.value, CellValue::Text(H));
    assert_eq!(c.meta.column_header, CellValue::Text(5));
    assert!(!c.clip);
    h.draw_group(CellValue::Text(5), H, regular_table::model::CellRef { row: 4, col: 4 });
    assert_eq!(h.num_rows(), 2);
}
