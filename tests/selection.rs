use egui_tabular::{ColumnUid, SelectedRange, TableView, VariantBackend};
use rvariant::{Variant, VariantTy};

fn table(cols: usize, rows: usize) -> VariantBackend {
    let mut columns = vec![];
    for c in 0..cols {
        columns.push((format!("c{c}"), VariantTy::Str, None));
    }
    let mut t = VariantBackend::new(columns);
    for _ in 0..rows {
        t.create_row(vec![]).unwrap();
    }
    t
}

fn view_over(t: &VariantBackend) -> TableView {
    let mut v = TableView::new();
    v.check_col_set_updated(t);
    v
}

#[test]
fn single_cell_bounds() {
    let r = SelectedRange::single_cell(2, 3);
    assert_eq!((r.row_start(), r.row_end(), r.col_start(), r.col_end()), (2, 2, 3, 3));
    assert!(r.is_single_cell());
    assert!(!r.is_editing());
    assert_eq!((r.width(), r.height()), (1, 1));
}

#[test]
fn rect_and_single_row() {
    let r = SelectedRange::rect(3, 2);
    assert_eq!((r.row_start(), r.row_end(), r.col_start(), r.col_end()), (0, 1, 0, 2));
    assert_eq!((r.width(), r.height()), (3, 2));
    let e = SelectedRange::rect(0, 0);
    assert_eq!((e.width(), e.height()), (1, 1));
    let row = SelectedRange::single_row(4, 5);
    assert_eq!((row.row_start(), row.row_end(), row.col_start(), row.col_end()), (4, 4, 0, 4));
    assert_eq!(row.width(), 5);
    let none = SelectedRange::single_row(1, 0);
    assert_eq!((none.col_start(), none.col_end()), (0, 0));
}

#[test]
fn editing_only_on_single_cell() {
    let mut r = SelectedRange::single_cell(1, 1);
    r.set_editing(true);
    assert!(r.is_editing());
    r.stretch_to(3, 2);
    assert!(!r.is_editing());
    assert_eq!((r.row_start(), r.row_end(), r.col_start(), r.col_end()), (1, 3, 1, 2));
    r.set_editing(true);
    assert!(!r.is_editing());
    let mut s = SelectedRange::single_cell(0, 0);
    s.set_editing(true);
    s.set_editing(false);
    assert!(!s.is_editing());
}

#[test]
fn stretch_to_expands_each_axis() {
    let mut r = SelectedRange::single_cell(5, 5);
    r.stretch_to(2, 7);
    assert_eq!((r.row_start(), r.row_end(), r.col_start(), r.col_end()), (2, 5, 5, 7));
    r.stretch_to(4, 6);
    assert_eq!((r.row_start(), r.row_end(), r.col_start(), r.col_end()), (2, 5, 5, 7));
}

#[test]
fn stretch_multi_row_covers_rows() {
    let mut r = SelectedRange::single_row(3, 4);
    r.stretch_multi_row(1, 4);
    assert_eq!((r.row_start(), r.row_end(), r.col_start(), r.col_end()), (1, 3, 0, 3));
    r.stretch_multi_row(6, 4);
    assert_eq!((r.row_start(), r.row_end()), (1, 6));
}

#[test]
fn contains_checks() {
    let mut r = SelectedRange::single_cell(1, 1);
    r.stretch_to(2, 3);
    assert!(r.contains(2, 3));
    assert!(!r.contains(0, 1));
    assert!(r.contains_col(2));
    assert!(!r.contains_col(4));
    assert!(r.contains_row(1));
    assert!(!r.contains_row(3));
}

#[test]
fn moves_are_clamped_at_origin() {
    let mut r = SelectedRange::single_cell(0, 0);
    r.move_up(false);
    r.move_left(false);
    assert_eq!((r.row_start(), r.row_end(), r.col_start(), r.col_end()), (0, 0, 0, 0));
    r.move_up(true);
    r.move_left(true);
    assert_eq!((r.row_start(), r.row_end(), r.col_start(), r.col_end()), (0, 0, 0, 0));
}

#[test]
fn moves_are_clamped_at_far_edges() {
    let mut r = SelectedRange::single_cell(2, 3);
    r.move_down(false, 3);
    r.move_right(false, 4);
    assert_eq!((r.row_start(), r.col_start()), (2, 3));
    r.move_down(false, 0);
    r.move_right(false, 0);
    assert_eq!((r.row_start(), r.col_start()), (2, 3));
}

#[test]
fn moves_shift_or_expand() {
    let mut r = SelectedRange::single_cell(1, 1);
    r.move_right(false, 5);
    assert_eq!((r.col_start(), r.col_end()), (2, 2));
    r.move_right(true, 5);
    assert_eq!((r.col_start(), r.col_end()), (2, 3));
    r.move_left(false);
    assert_eq!((r.col_start(), r.col_end()), (1, 2));
    r.move_down(true, 5);
    assert_eq!((r.row_start(), r.row_end()), (1, 2));
    r.move_up(false);
    assert_eq!((r.row_start(), r.row_end()), (0, 1));
}

#[test]
fn equality_ignores_edit_mode() {
    let mut a = SelectedRange::single_cell(1, 2);
    let b = SelectedRange::single_cell(1, 2);
    a.set_editing(true);
    assert!(a == b);
    assert!(a != SelectedRange::single_cell(2, 1));
}

#[test]
fn swap_col_follows_single_cell() {
    let mut r = SelectedRange::single_cell(4, 1);
    r.swap_col(1, 3);
    assert_eq!((r.row_start(), r.col_start(), r.col_end()), (4, 3, 3));
    r.swap_col(1, 3);
    assert_eq!(r.col_start(), 1);
    let mut m = SelectedRange::single_cell(0, 0);
    m.stretch_to(1, 1);
    m.swap_col(0, 1);
    assert_eq!((m.col_start(), m.col_end()), (0, 1));
}

#[test]
fn click_selects_then_edits() {
    let t = table(3, 3);
    let mut v = view_over(&t);
    assert_eq!(v.click_cell(1, 2, false, true), None);
    let s = v.selected_range().unwrap();
    assert_eq!((s.row_start(), s.col_start()), (1, 2));
    assert!(!s.is_editing());
    assert_eq!(v.click_cell(1, 2, false, true), None);
    assert!(v.selected_range().unwrap().is_editing());
    // clicking another cell ends the edit, which is to be committed
    assert_eq!(v.click_cell(0, 0, false, true), Some((1, 2)));
    let s = v.selected_range().unwrap();
    assert_eq!((s.row_start(), s.col_start()), (0, 0));
    assert!(!s.is_editing());
}

#[test]
fn click_on_read_only_cell_never_edits() {
    let t = table(2, 2);
    let mut v = view_over(&t);
    v.click_cell(0, 1, false, false);
    v.click_cell(0, 1, false, false);
    assert!(!v.selected_range().unwrap().is_editing());
}

#[test]
fn shift_click_stretches() {
    let t = table(4, 4);
    let mut v = view_over(&t);
    v.click_cell(1, 1, false, true);
    v.click_cell(1, 1, false, true);
    assert_eq!(v.click_cell(3, 2, true, true), Some((1, 1)));
    let s = v.selected_range().unwrap();
    assert_eq!((s.row_start(), s.row_end(), s.col_start(), s.col_end()), (1, 3, 1, 2));
    assert!(!s.is_editing());
}

#[test]
fn row_header_click_selects_rows() {
    let t = table(3, 5);
    let mut v = view_over(&t);
    v.click_row_header(2, false);
    let s = v.selected_range().unwrap();
    assert_eq!((s.row_start(), s.row_end(), s.col_start(), s.col_end()), (2, 2, 0, 2));
    v.click_row_header(4, true);
    let s = v.selected_range().unwrap();
    assert_eq!((s.row_start(), s.row_end()), (2, 4));
}

#[test]
fn enter_commits_edit_and_deselects() {
    let t = table(2, 2);
    let mut v = view_over(&t);
    v.click_cell(1, 0, false, true);
    v.click_cell(1, 0, false, true);
    assert_eq!(v.press_enter(), Some((1, 0)));
    assert!(v.selected_range().is_none());
    v.click_cell(0, 0, false, true);
    assert_eq!(v.press_enter(), None);
    assert!(v.selected_range().is_none());
}

#[test]
fn escape_discards_edit_then_clears() {
    let t = table(2, 2);
    let mut v = view_over(&t);
    v.click_cell(1, 1, false, true);
    v.click_cell(1, 1, false, true);
    assert!(v.press_escape());
    let s = v.selected_range().unwrap();
    assert!(!s.is_editing());
    assert_eq!((s.row_start(), s.col_start()), (1, 1));
    assert!(!v.press_escape());
    assert!(v.selected_range().is_none());
}

#[test]
fn arrow_up_and_left_at_origin_are_no_ops() {
    let t = table(3, 3);
    let mut v = view_over(&t);
    v.click_cell(0, 0, false, true);
    v.handle_selection_moves(true, false, true, false, false, 3);
    let s = v.selected_range().unwrap();
    assert_eq!((s.row_start(), s.row_end(), s.col_start(), s.col_end()), (0, 0, 0, 0));
}

#[test]
fn arrows_move_within_table() {
    let t = table(3, 3);
    let mut v = view_over(&t);
    v.click_cell(1, 1, false, true);
    v.handle_selection_moves(false, true, false, true, false, 3);
    let s = v.selected_range().unwrap();
    assert_eq!((s.row_start(), s.col_start()), (2, 2));
    v.handle_selection_moves(false, true, false, true, false, 3);
    let s = v.selected_range().unwrap();
    assert_eq!((s.row_start(), s.col_start()), (2, 2));
    v.handle_selection_moves(true, false, true, false, true, 3);
    let s = v.selected_range().unwrap();
    assert_eq!((s.row_start(), s.row_end(), s.col_start(), s.col_end()), (1, 2, 1, 2));
}

#[test]
fn swap_keeps_single_cell_focus() {
    let t = table(4, 2);
    let mut v = view_over(&t);
    v.click_cell(1, 0, false, true);
    v.swap_columns(ColumnUid(0), ColumnUid(2));
    assert_eq!(v.columns(), &vec![ColumnUid(2), ColumnUid(1), ColumnUid(0), ColumnUid(3)]);
    let s = v.selected_range().unwrap();
    assert_eq!((s.row_start(), s.col_start(), s.col_end()), (1, 2, 2));
}

#[test]
fn swap_clears_partial_multi_selection() {
    let t = table(4, 2);
    let mut v = view_over(&t);
    v.click_cell(0, 1, false, true);
    v.click_cell(1, 3, true, true);
    v.swap_columns(ColumnUid(0), ColumnUid(2));
    assert!(v.selected_range().is_none());
}

#[test]
fn swap_keeps_selection_holding_both_columns() {
    let t = table(4, 2);
    let mut v = view_over(&t);
    v.click_cell(0, 1, false, true);
    v.click_cell(1, 3, true, true);
    v.swap_columns(ColumnUid(1), ColumnUid(3));
    let s = v.selected_range().unwrap();
    assert_eq!((s.col_start(), s.col_end()), (1, 3));
}

#[test]
fn swap_of_unknown_column_changes_nothing() {
    let t = table(2, 2);
    let mut v = view_over(&t);
    v.click_cell(0, 0, false, true);
    v.swap_columns(ColumnUid(0), ColumnUid(9));
    assert_eq!(v.columns(), &vec![ColumnUid(0), ColumnUid(1)]);
    assert_eq!(v.selected_range().unwrap().col_start(), 0);
}

#[test]
fn column_set_is_taken_on_reset() {
    let mut t = table(2, 0);
    let mut v = TableView::new();
    assert!(!v.check_col_set_updated(&t));
    assert_eq!(v.columns().len(), 2);
    t.end_frame();
    t.create_column();
    t.end_frame();
    assert!(!v.check_col_set_updated(&t));
    assert_eq!(v.columns().len(), 2);
    let _ = Variant::Empty;
}

#[test]
fn row_header_click_without_columns_selects_nothing() {
    let t = table(0, 2);
    let mut v = view_over(&t);
    v.click_row_header(1, false);
    assert!(v.selected_range().is_none());
}
