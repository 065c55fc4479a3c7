use regular_table::model::{Cell, DomOp, Tag};
use regular_table::view_model::ViewModel;

fn created(ops: &[DomOp]) -> usize {
    ops.iter()
        .filter(|op| matches!(op, DomOp::AppendCell { .. } | DomOp::InsertCell { .. } | DomOp::ReplaceCell { .. }))
        .count()
}

#[test]
fn get_cell_creates_row_and_pads_with_holes() {
    let mut vm = ViewModel::new();
    vm.get_cell(Tag::Td, 1, 2);
    assert_eq!(vm.num_rows(), 2);
    assert_eq!(vm.fetch_cell(1, 0), None);
    assert_eq!(vm.fetch_cell(1, 1), None);
    assert_eq!(vm.fetch_cell(1, 2), Some(Cell::fresh(Tag::Td)));
    let ops = vm.take_ops();
    assert_eq!(
        ops,
        vec![DomOp::AppendRow, DomOp::AppendRow, DomOp::AppendCell { row: 1, col: 2, tag: Tag::Td }]
    );
}

#[test]
fn hole_is_filled_before_next_element() {
    let mut vm = ViewModel::new();
    vm.get_cell(Tag::Td, 0, 3);
    vm.get_cell(Tag::Td, 0, 1);
    let ops = vm.take_ops();
    assert_eq!(ops[2], DomOp::InsertCell { row: 0, col: 1, tag: Tag::Td, before: Some(3) });
    vm.get_cell(Tag::Td, 0, 2);
    assert_eq!(vm.take_ops(), vec![DomOp::InsertCell { row: 0, col: 2, tag: Tag::Td, before: Some(3) }]);
    assert_eq!(vm.num_columns(), 4);
}

#[test]
fn tag_replacement_keeps_position() {
    let mut vm = ViewModel::new();
    vm.get_cell(Tag::Td, 0, 0);
    vm.get_cell(Tag::Td, 0, 1);
    vm.get_cell(Tag::Td, 0, 2);
    vm.take_ops();
    vm.get_cell(Tag::Th, 0, 1);
    assert_eq!(vm.take_ops(), vec![DomOp::ReplaceCell { row: 0, col: 1, tag: Tag::Th }]);
    assert_eq!(vm.fetch_cell(0, 1).unwrap().tag, Tag::Th);
    assert_eq!(vm.fetch_cell(0, 0).unwrap().tag, Tag::Td);
    assert_eq!(vm.fetch_cell(0, 2).unwrap().tag, Tag::Td);
    assert_eq!(vm.num_columns(), 3);
}

#[test]
fn same_tag_request_creates_nothing() {
    let mut vm = ViewModel::new();
    vm.get_cell(Tag::Th, 2, 2);
    vm.take_ops();
    vm.get_cell(Tag::Th, 2, 2);
    assert!(vm.take_ops().is_empty());
}

#[test]
fn trim_rows_detaches_exactly_the_surplus() {
    let mut vm = ViewModel::new();
    for r in 0..5 {
        vm.get_cell(Tag::Td, r, 0);
    }
    vm.take_ops();
    vm.clean_rows(2);
    assert_eq!(vm.num_rows(), 2);
    let ops = vm.take_ops();
    assert_eq!(ops, vec![DomOp::RemoveRow { row: 2 }; 3]);
    vm.clean_rows(4);
    assert_eq!(vm.num_rows(), 2);
    assert!(vm.take_ops().is_empty());
}

#[test]
fn clear_slot_leaves_hole() {
    let mut vm = ViewModel::new();
    vm.get_cell(Tag::Td, 0, 0);
    vm.take_ops();
    vm.replace_cell(0, 0);
    assert_eq!(vm.fetch_cell(0, 0), None);
    assert_eq!(vm.num_columns(), 1);
    assert_eq!(vm.take_ops(), vec![DomOp::RemoveCell { row: 0, col: 0 }]);
    vm.replace_cell(0, 0);
    assert!(vm.take_ops().is_empty());
}

#[test]
fn trim_columns_cuts_every_row() {
    let mut vm = ViewModel::new();
    vm.get_cell(Tag::Td, 0, 3);
    vm.get_cell(Tag::Td, 1, 1);
    vm.take_ops();
    vm.clean_columns(2);
    assert_eq!(vm.num_columns(), 2);
    assert!(vm.fetch_cell(1, 1).is_some());
    assert_eq!(
        vm.take_ops(),
        vec![DomOp::TruncateRow { row: 0, len: 2 }, DomOp::TruncateRow { row: 1, len: 2 }]
    );
}

#[test]
fn trim_columns_per_row() {
    let mut vm = ViewModel::new();
    vm.get_cell(Tag::Th, 0, 3);
    vm.get_cell(Tag::Th, 1, 3);
    vm.get_cell(Tag::Th, 2, 3);
    vm.clean_columns_cache(&vec![1, 3]);
    assert_eq!(vm.fetch_cell(0, 0), None);
    assert_eq!(vm.num_columns(), 1);
    assert!(vm.fetch_cell(2, 2).is_none());
    assert!(vm.fetch_cell(1, 3).is_none());
    assert!(created(&vm.take_ops()) == 3);
}

#[test]
fn fetch_beyond_extent_is_none() {
    let vm = ViewModel::new();
    assert_eq!(vm.fetch_cell(0, 0), None);
    assert_eq!(vm.num_columns(), 0);
    let mut vm = ViewModel::new();
    assert_eq!(vm.num_hol_columns(), 0);
    assert_eq!(vm.num_rows(), 1);
}

#[test]
fn hole_after_last_element_is_appended() {
    let mut vm = ViewModel::new();
    vm.get_cell(Tag::Td, 0, 0);
    vm.get_cell(Tag::Td, 0, 2);
    vm.replace_cell(0, 2);
    vm.take_ops();
    vm.get_cell(Tag::Th, 0, 1);
    assert_eq!(vm.take_ops(), vec![DomOp::InsertCell { row: 0, col: 1, tag: Tag::Th, before: None }]);
}
