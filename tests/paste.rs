use egui_tabular::{parse_block, CellCoord, ColumnUid, PasteStatus, RowUid, TableView, VariantBackend, VisualRowIdx};
use rvariant::{Variant, VariantTy};

fn str_table(cols: usize, rows: usize) -> VariantBackend {
    let mut columns = vec![];
    for c in 0..cols {
        columns.push((format!("c{c}"), VariantTy::Str, None));
    }
    let mut t = VariantBackend::new(columns);
    for _ in 0..rows {
        t.create_row(vec![]).unwrap();
    }
    t
}

fn view_over(t: &VariantBackend) -> TableView {
    let mut v = TableView::new();
    v.check_col_set_updated(t);
    v
}

fn cell(t: &VariantBackend, row: usize, col: u32) -> Option<Variant> {
    let r = t.row_uid(VisualRowIdx(row))?;
    t.get(CellCoord { row_uid: r, col_uid: ColumnUid(col) }).cloned()
}

fn s(x: &str) -> Variant {
    Variant::Str(x.to_string())
}

#[test]
fn parse_splits_rows_and_cells_and_trims() {
    let rows = parse_block(" a \tb\n c\t d \t e");
    assert_eq!(rows, vec![vec!["a".to_string(), "b".to_string()], vec!["c".to_string(), "d".to_string(), "e".to_string()]]);
    assert_eq!(parse_block(""), vec![vec![String::new()]]);
    assert_eq!(parse_block("x\n"), vec![vec!["x".to_string()], vec![String::new()]]);
}

#[test]
fn empty_paste_is_a_no_op() {
    let mut t = str_table(2, 2);
    let mut v = view_over(&t);
    v.click_cell(0, 0, false, true);
    assert_eq!(v.handle_paste("", &mut t), PasteStatus::Empty);
    assert_eq!(cell(&t, 0, 0), None);
    assert_eq!(t.row_count(), 2);
    let sel = v.selected_range().unwrap();
    assert_eq!((sel.row_start(), sel.col_start()), (0, 0));
    assert!(v.pending_paste_rows().is_empty());
}

#[test]
fn paste_without_selection_is_refused() {
    let mut t = str_table(2, 2);
    let mut v = view_over(&t);
    assert_eq!(v.handle_paste("a\tb", &mut t), PasteStatus::NoSelection);
    assert_eq!(cell(&t, 0, 0), None);
    assert!(v.pending_paste_rows().is_empty());
}

#[test]
fn exact_fit_applies_immediately() {
    let mut t = str_table(3, 3);
    let mut v = view_over(&t);
    v.click_cell(1, 1, false, true);
    v.click_cell(2, 2, true, true);
    assert_eq!(v.handle_paste("a\tb\nc\td", &mut t), PasteStatus::Applied);
    assert_eq!(cell(&t, 1, 1), Some(s("a")));
    assert_eq!(cell(&t, 1, 2), Some(s("b")));
    assert_eq!(cell(&t, 2, 1), Some(s("c")));
    assert_eq!(cell(&t, 2, 2), Some(s("d")));
    assert_eq!(cell(&t, 0, 0), None);
    assert_eq!(v.updated_cells().len(), 4);
    assert!(v.pending_paste_rows().is_empty());
}

#[test]
fn exact_fit_converts_to_column_type() {
    let mut t = VariantBackend::new(vec![
        ("n".to_string(), VariantTy::u32(), None),
        ("flag".to_string(), VariantTy::Bool, None),
    ]);
    t.create_row(vec![]).unwrap();
    let mut v = view_over(&t);
    v.click_cell(0, 0, false, true);
    v.click_cell(0, 1, true, true);
    assert_eq!(v.handle_paste("42\ttrue", &mut t), PasteStatus::Applied);
    assert_eq!(cell(&t, 0, 0), Some(Variant::from_str("42", &VariantTy::u32())));
    assert_ne!(cell(&t, 0, 0), Some(s("42")));
    assert_eq!(cell(&t, 0, 1), Some(Variant::Bool(true)));
}

#[test]
fn unconvertible_text_is_kept_as_string() {
    let mut t = VariantBackend::new(vec![("n".to_string(), VariantTy::u32(), None)]);
    t.create_row(vec![]).unwrap();
    let mut v = view_over(&t);
    v.click_cell(0, 0, false, true);
    assert_eq!(v.handle_paste("abc", &mut t), PasteStatus::Applied);
    assert_eq!(cell(&t, 0, 0), Some(s("abc")));
}

#[test]
fn mismatched_block_waits_for_choice() {
    let mut t = str_table(3, 3);
    let mut v = view_over(&t);
    v.click_cell(0, 0, false, true);
    assert_eq!(v.handle_paste("a\tb\nc", &mut t), PasteStatus::AwaitingChoice);
    assert_eq!(v.pasting_block_width(), 2);
    assert!(v.pasting_block_with_holes());
    assert_eq!(v.pending_paste_rows().len(), 2);
    assert_eq!(cell(&t, 0, 0), None);
    v.decline_paste();
    assert!(v.pending_paste_rows().is_empty());
    assert_eq!(cell(&t, 0, 0), None);
}

#[test]
fn cycle_fill_single_value_into_two_by_three() {
    let mut t = str_table(3, 2);
    let mut v = view_over(&t);
    v.click_cell(0, 0, false, true);
    v.click_cell(1, 2, true, true);
    assert_eq!(v.handle_paste("X", &mut t), PasteStatus::AwaitingChoice);
    v.set_paste_choices(false, true, false);
    v.paste_block(&mut t);
    for row in 0..2 {
        for col in 0..3 {
            assert_eq!(cell(&t, row, col), Some(s("X")));
        }
    }
    assert_eq!(v.updated_cells().len(), 6);
}

#[test]
fn without_fill_only_the_block_is_written() {
    let mut t = str_table(3, 2);
    let mut v = view_over(&t);
    v.click_cell(0, 0, false, true);
    v.click_cell(1, 2, true, true);
    v.handle_paste("X", &mut t);
    v.paste_block(&mut t);
    assert_eq!(cell(&t, 0, 0), Some(s("X")));
    assert_eq!(cell(&t, 0, 1), None);
    assert_eq!(cell(&t, 1, 0), None);
}

#[test]
fn over_height_paste_creates_rows() {
    let mut t = str_table(1, 2);
    let mut v = view_over(&t);
    v.click_cell(0, 0, false, true);
    v.click_cell(1, 0, true, true);
    assert_eq!(v.handle_paste("1\n2\n3\n4\n5", &mut t), PasteStatus::AwaitingChoice);
    v.set_paste_choices(true, false, false);
    v.paste_block(&mut t);
    assert_eq!(t.row_count(), 5);
    for (row, text) in ["1", "2", "3", "4", "5"].iter().enumerate() {
        assert_eq!(cell(&t, row, 0), Some(s(text)));
    }
    assert_eq!(t.row_uid(VisualRowIdx(4)), Some(RowUid(4)));
}

#[test]
fn over_height_paste_without_creation_writes_selection_only() {
    let mut t = str_table(1, 2);
    let mut v = view_over(&t);
    v.click_cell(0, 0, false, true);
    v.click_cell(1, 0, true, true);
    v.handle_paste("1\n2\n3", &mut t);
    v.paste_block(&mut t);
    assert_eq!(t.row_count(), 2);
    assert_eq!(cell(&t, 1, 0), Some(s("2")));
}

#[test]
fn wide_paste_creates_columns() {
    let mut t = str_table(1, 1);
    let mut v = view_over(&t);
    v.click_cell(0, 0, false, true);
    assert_eq!(v.handle_paste("a\tb\tc", &mut t), PasteStatus::AwaitingChoice);
    v.set_paste_choices(false, false, true);
    v.paste_block(&mut t);
    assert_eq!(t.used_columns(), vec![ColumnUid(0), ColumnUid(1), ColumnUid(2)]);
    assert_eq!(cell(&t, 0, 0), Some(s("a")));
    assert_eq!(cell(&t, 0, 1), Some(s("b")));
    assert_eq!(cell(&t, 0, 2), Some(s("c")));
    assert_eq!(t.column_info(ColumnUid(2)).unwrap().name, "C");
}

#[test]
fn copy_then_paste_round_trips_strings() {
    let mut t = str_table(3, 3);
    let r0 = t.row_uid(VisualRowIdx(0)).unwrap();
    let r1 = t.row_uid(VisualRowIdx(1)).unwrap();
    t.set(CellCoord { row_uid: r0, col_uid: ColumnUid(0) }, s("alpha"));
    t.set(CellCoord { row_uid: r0, col_uid: ColumnUid(1) }, s("beta"));
    t.set(CellCoord { row_uid: r1, col_uid: ColumnUid(0) }, s("gamma"));
    t.set(CellCoord { row_uid: r1, col_uid: ColumnUid(1) }, s("delta"));
    let mut v = view_over(&t);
    v.click_cell(0, 0, false, true);
    v.click_cell(1, 1, true, true);
    let text = v.copy_selection(&t);
    assert_eq!(text, "alpha\tbeta\ngamma\tdelta");
    v.click_cell(1, 1, false, true);
    v.click_cell(2, 2, true, true);
    assert_eq!(v.handle_paste(&text, &mut t), PasteStatus::Applied);
    assert_eq!(cell(&t, 1, 1), Some(s("alpha")));
    assert_eq!(cell(&t, 1, 2), Some(s("beta")));
    assert_eq!(cell(&t, 2, 1), Some(s("gamma")));
    assert_eq!(cell(&t, 2, 2), Some(s("delta")));
}

#[test]
fn copy_writes_empty_text_for_missing_cells() {
    let mut t = str_table(2, 1);
    let r0 = t.row_uid(VisualRowIdx(0)).unwrap();
    t.set(CellCoord { row_uid: r0, col_uid: ColumnUid(1) }, Variant::Bool(true));
    let mut v = view_over(&t);
    v.click_cell(0, 0, false, true);
    v.click_cell(0, 1, true, true);
    assert_eq!(v.copy_selection(&t), "\ttrue");
    v.press_escape();
    assert_eq!(v.copy_selection(&t), "");
}

#[test]
fn over_height_paste_into_read_only_table_creates_nothing() {
    let mut t = str_table(1, 2);
    t.set_read_only(true);
    let mut v = view_over(&t);
    v.click_cell(0, 0, false, true);
    v.click_cell(1, 0, true, true);
    v.handle_paste("1\n2\n3", &mut t);
    v.set_paste_choices(true, false, false);
    v.paste_block(&mut t);
    assert_eq!(t.row_count(), 2);
    assert_eq!(cell(&t, 0, 0), Some(s("1")));
    assert_eq!(cell(&t, 1, 0), Some(s("2")));
}

#[test]
fn copied_row_has_no_trailing_field_and_pastes_back_exactly() {
    let mut t = str_table(2, 2);
    let r0 = t.row_uid(VisualRowIdx(0)).unwrap();
    t.set(CellCoord { row_uid: r0, col_uid: ColumnUid(0) }, s("a"));
    t.set(CellCoord { row_uid: r0, col_uid: ColumnUid(1) }, s("b"));
    let mut v = view_over(&t);
    v.click_row_header(0, false);
    let text = v.copy_selection(&t);
    assert_eq!(text, "a\tb");
    v.click_row_header(1, false);
    assert_eq!(v.handle_paste(&text, &mut t), PasteStatus::Applied);
    assert_eq!(cell(&t, 1, 0), Some(s("a")));
    assert_eq!(cell(&t, 1, 1), Some(s("b")));
}

#[test]
fn copy_leaves_out_money_that_cannot_be_displayed() {
    let mut t = str_table(3, 1);
    let r0 = t.row_uid(VisualRowIdx(0)).unwrap();
    let big = Variant::Money { currency: std::sync::Arc::new("EUR".to_string()), precision: 10, value: 7 };
    let nested = Variant::List(vec![Variant::Money { currency: std::sync::Arc::new("EUR".to_string()), precision: 11, value: 7 }]);
    t.set(CellCoord { row_uid: r0, col_uid: ColumnUid(0) }, big);
    t.set(CellCoord { row_uid: r0, col_uid: ColumnUid(1) }, nested);
    t.set(CellCoord { row_uid: r0, col_uid: ColumnUid(2) }, s("ok"));
    let mut v = view_over(&t);
    v.click_row_header(0, false);
    assert_eq!(v.copy_selection(&t), "\t\tok");
    let recs = egui_tabular::export_records(&t);
    assert_eq!(recs[1], vec![String::new(), String::new(), "ok".to_string()]);
}

#[test]
fn negative_text_pasted_into_unsigned_column_stays_text() {
    let mut t = VariantBackend::new(vec![
        ("u".to_string(), VariantTy::u32(), None),
        ("i".to_string(), VariantTy::i32(), None),
        ("s".to_string(), VariantTy::Number(rvariant::NumberTy::I8), None),
    ]);
    t.create_row(vec![]).unwrap();
    let mut v = view_over(&t);
    v.click_cell(0, 0, false, true);
    v.click_cell(0, 2, true, true);
    assert_eq!(v.handle_paste("-5\t-5\t--128", &mut t), PasteStatus::Applied);
    assert_eq!(cell(&t, 0, 0), Some(s("-5")));
    assert_eq!(cell(&t, 0, 1), Some(Variant::i32(-5)));
    assert_eq!(cell(&t, 0, 2), Some(s("--128")));
}

#[test]
fn resistance_with_exponent_stays_text() {
    let ohm = VariantTy::SI {
        number_ty: rvariant::NumberTy::F32,
        unit: rvariant::si_dynamic::Unit::base(rvariant::si_dynamic::BaseUnit::Ohm),
    };
    let mut t = VariantBackend::new(vec![("r".to_string(), ohm, None)]);
    t.create_row(vec![]).unwrap();
    let mut v = view_over(&t);
    v.click_cell(0, 0, false, true);
    assert_eq!(v.handle_paste("1e20", &mut t), PasteStatus::Applied);
    assert_eq!(cell(&t, 0, 0), Some(s("1e20")));
}
