use egui_tabular::{CellCoord, ColumnUid, CustomUiResponse, Lint, RowUid, Settings, SortBy, FilterOperation, TableView, VariantBackend};
use rvariant::Variant;
use rvariant::VariantTy;

#[test]
fn responses_are_taken_once() {
    let mut v = TableView::new();
    assert!(v.take_custom_ui_response().is_none());
    let c = CellCoord { row_uid: RowUid(1), col_uid: ColumnUid(2) };
    v.set_custom_ui_response(c, CustomUiResponse::UserEventU32(1, 5));
    let r = v.take_custom_ui_response().unwrap();
    assert_eq!(r.0, c);
    assert!(matches!(r.1, CustomUiResponse::UserEventU32(1, 5)));
    assert!(v.take_custom_ui_response().is_none());
    v.set_tool_ui_response(3, CustomUiResponse::UserEventString(3, "x".into()));
    assert_eq!(v.take_tool_ui_response().unwrap().0, 3);
    assert!(v.take_tool_ui_response().is_none());
}

#[test]
fn tooltips_accumulate_and_clear() {
    let mut v = TableView::new();
    let c = CellCoord { row_uid: RowUid(0), col_uid: ColumnUid(0) };
    v.add_cell_tooltip(c, "one".into());
    v.add_cell_tooltip(c, "two".into());
    assert_eq!(v.cell_tooltips(c), Some(&vec!["one".to_string(), "two".to_string()]));
    v.clear_cell_lints(c);
    assert_eq!(v.cell_tooltips(c), Some(&vec![]));
    let other = CellCoord { row_uid: RowUid(5), col_uid: ColumnUid(0) };
    v.clear_cell_lints(other);
    assert!(v.cell_tooltips(other).is_none());
}

#[test]
fn row_skip_and_events() {
    let mut v = TableView::new();
    assert!(!v.is_row_skipped(4));
    v.skip_row(4, true);
    assert!(v.is_row_skipped(4));
    assert_eq!(v.row_disabled(), Some(4));
    v.skip_row(4, false);
    assert!(!v.is_row_skipped(4));
    assert_eq!(v.row_enabled(), Some(4));
    v.skip_col(2, true);
    assert_eq!(v.col_disabled(), Some(2));
    assert_eq!(v.col_enabled(), None);
}

#[test]
fn settings_scroll_and_recognition() {
    let t = VariantBackend::new(vec![("a".to_string(), VariantTy::Str, None)]);
    let mut v = TableView::new();
    v.check_col_set_updated(&t);
    v.set_settings(Settings { editable_cells: true, ..Settings::default() });
    assert!(v.settings().editable_cells);
    v.scroll_to_row(7);
    assert_eq!(v.take_scroll_to_row(), Some(7));
    assert_eq!(v.take_scroll_to_row(), None);
    v.set_recognized(0, true);
    assert!(v.is_recognized(0));
    v.set_recognized(9, true);
    assert!(!v.is_recognized(9));
}

#[test]
fn plain_option_types() {
    let s = SortBy { col_uid: 1, ascending: true };
    assert_eq!(s, SortBy { col_uid: 1, ascending: true });
    assert_ne!(FilterOperation::Contains, FilterOperation::Equals);
}

#[test]
fn custom_ui_state_per_cell_and_column() {

    let mut v = TableView::new();
    let a = CellCoord { row_uid: RowUid(0), col_uid: ColumnUid(1) };
    let b = CellCoord { row_uid: RowUid(1), col_uid: ColumnUid(1) };
    let c = CellCoord { row_uid: RowUid(0), col_uid: ColumnUid(2) };
    v.set_custom_ui_state(a, Variant::Str("x".into()));
    v.set_custom_ui_state(b, Variant::Str(String::new()));
    v.set_custom_ui_state(c, Variant::Bool(true));
    v.set_custom_ui_state(a, Variant::Str("y".into()));
    assert_eq!(v.custom_ui_state(a), Some(&Variant::Str("y".into())));
    assert_eq!(v.custom_ui_state(CellCoord { row_uid: RowUid(9), col_uid: ColumnUid(1) }), None);
    assert_eq!(v.custom_ui_state_for(1, false), vec![(a, Variant::Str("y".into()))]);
    assert_eq!(v.custom_ui_state_for(1, true).len(), 2);
    v.clear_custom_ui_state_for(1);
    assert_eq!(v.custom_ui_state(a), Some(&Variant::Empty));
    assert!(v.custom_ui_state_for(1, false).is_empty());
    assert_eq!(v.custom_ui_state(c), Some(&Variant::Bool(true)));
}

#[test]
fn lints_are_added_once_and_cleared() {
    let mut v = TableView::new();
    let c = CellCoord { row_uid: RowUid(0), col_uid: ColumnUid(0) };
    v.add_cell_lint(c, Lint::AddButton);
    v.add_cell_lint(c, Lint::HighlightIndex { idx: 2 });
    v.add_cell_lint(c, Lint::AddButton);
    assert_eq!(v.cell_lints(c), Some(&vec![Lint::AddButton, Lint::HighlightIndex { idx: 2 }]));
    v.clear_cell_lints(c);
    assert_eq!(v.cell_lints(c), Some(&vec![]));
}
