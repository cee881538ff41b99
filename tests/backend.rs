use egui_tabular::{base_26, CellCoord, ColumnUid, OneShotFlags, RowUid, VariantBackend, VisualRowIdx};
use rvariant::{Variant, VariantTy};

fn s(x: &str) -> Variant {
    Variant::Str(x.to_string())
}

#[test]
fn base_26_names() {
    assert_eq!(base_26(0), "");
    assert_eq!(base_26(1), "A");
    assert_eq!(base_26(26), "Z");
    assert_eq!(base_26(27), "AA");
    assert_eq!(base_26(52), "AZ");
    assert_eq!(base_26(703), "AAA");
}

#[test]
fn new_table_has_columns_and_flags() {
    let t = VariantBackend::new(vec![("Name".to_string(), VariantTy::Str, None), ("Count".to_string(), VariantTy::u32(), None)]);
    assert_eq!(t.used_columns(), vec![ColumnUid(0), ColumnUid(1)]);
    assert_eq!(t.column_info(ColumnUid(1)).unwrap().name, "Count");
    assert_eq!(t.column_info(ColumnUid(0)).unwrap().ty, VariantTy::Str.to_string());
    assert!(t.one_shot_flags_internal().columns_reset);
    assert!(t.one_shot_flags_internal().row_set_updated);
    assert_eq!(t.row_count(), 0);
    assert!(t.column_info(ColumnUid(2)).is_none());
}

#[test]
fn rows_get_given_values_then_defaults() {
    let mut t = VariantBackend::new(vec![
        ("a".to_string(), VariantTy::Str, Some(s("da"))),
        ("b".to_string(), VariantTy::Str, Some(s("db"))),
        ("c".to_string(), VariantTy::Str, None),
    ]);
    let r = t.create_row(vec![(ColumnUid(1), s("given"))]).unwrap();
    assert_eq!(r, RowUid(0));
    assert_eq!(t.get(CellCoord { row_uid: r, col_uid: ColumnUid(0) }), Some(&s("da")));
    assert_eq!(t.get(CellCoord { row_uid: r, col_uid: ColumnUid(1) }), Some(&s("given")));
    assert_eq!(t.get(CellCoord { row_uid: r, col_uid: ColumnUid(2) }), None);
    let r2 = t.insert_row(vec![]);
    assert_eq!(r2, RowUid(1));
    assert_eq!(t.row_uid(VisualRowIdx(1)), Some(RowUid(1)));
    assert_eq!(t.row_uid(VisualRowIdx(2)), None);
}

#[test]
fn clear_keeps_columns_and_never_reuses_rows() {
    let mut t = VariantBackend::new(vec![("a".to_string(), VariantTy::Str, None)]);
    let r = t.create_row(vec![(ColumnUid(0), s("x"))]).unwrap();
    t.clear();
    assert_eq!(t.row_count(), 0);
    assert_eq!(t.get(CellCoord { row_uid: r, col_uid: ColumnUid(0) }), None);
    assert!(t.one_shot_flags_internal().cleared);
    assert_eq!(t.used_columns(), vec![ColumnUid(0)]);
    let r2 = t.create_row(vec![]).unwrap();
    assert_ne!(r, r2);
}

#[test]
fn insert_column_keeps_identities_sorted() {
    let mut t = VariantBackend::new(vec![]);
    t.insert_column(Some(ColumnUid(5)), "five".to_string(), vec![], VariantTy::Str, None, false, true);
    t.insert_column(Some(ColumnUid(2)), "two".to_string(), vec![], VariantTy::Str, None, true, true);
    let next = t.insert_column(None, "next".to_string(), vec![], VariantTy::Str, None, false, true);
    assert_eq!(next, ColumnUid(6));
    assert_eq!(t.available_columns(), vec![ColumnUid(2), ColumnUid(5), ColumnUid(6)]);
    t.insert_column(Some(ColumnUid(5)), "FIVE".to_string(), vec![], VariantTy::Bool, None, false, true);
    assert_eq!(t.available_columns().len(), 3);
    assert_eq!(t.column_info(ColumnUid(5)).unwrap().name, "FIVE");
    assert_eq!(t.column_ty(ColumnUid(5)), Some(VariantTy::Bool));
}

#[test]
fn create_column_is_named_by_position() {
    let mut t = VariantBackend::new(vec![("a".to_string(), VariantTy::Str, None)]);
    let c = t.create_column().unwrap();
    assert_eq!(c, ColumnUid(1));
    let info = t.column_info(c).unwrap();
    assert_eq!(info.name, "B");
    assert!(!info.is_required);
    assert_eq!(t.column_ty(c), Some(VariantTy::Str));
}

#[test]
fn remove_all_columns_empties_table() {
    let mut t = VariantBackend::new(vec![("a".to_string(), VariantTy::Str, None)]);
    t.create_row(vec![]);
    t.remove_all_columns();
    assert!(t.used_columns().is_empty());
    assert_eq!(t.row_count(), 0);
    assert!(t.one_shot_flags_internal().columns_reset);
}

#[test]
fn edit_commits_only_to_its_cell() {
    let mut t = VariantBackend::new(vec![("a".to_string(), VariantTy::Str, None)]);
    let r = t.create_row(vec![]).unwrap();
    let c = CellCoord { row_uid: r, col_uid: ColumnUid(0) };
    t.set_cell_edit(c, s("edited"));
    t.commit_cell_edit(CellCoord { row_uid: RowUid(9), col_uid: ColumnUid(0) });
    assert_eq!(t.get(c), None);
    t.set_cell_edit(c, s("edited"));
    t.commit_cell_edit(c);
    assert_eq!(t.get(c), Some(&s("edited")));
}

#[test]
fn flags_are_delivered_one_frame_late_once() {
    let mut t = VariantBackend::new(vec![]);
    assert!(!t.one_shot_flags().columns_reset);
    t.end_frame();
    assert!(t.one_shot_flags().columns_reset);
    assert_eq!(*t.one_shot_flags_internal(), OneShotFlags::default());
    t.end_frame();
    assert_eq!(*t.one_shot_flags(), OneShotFlags::default());
    t.set_column_mapping_changed(ColumnUid(3));
    t.one_shot_flags_archive();
    assert_eq!(t.one_shot_flags().column_mapping_changed, Some(ColumnUid(3)));
}

#[test]
fn skipping_rows_and_columns() {
    let mut t = VariantBackend::new(vec![("a".to_string(), VariantTy::Str, None)]);
    let r = t.create_row(vec![]).unwrap();
    assert!(t.are_rows_skippable() && t.are_cols_skippable());
    t.skip_row(r, true);
    assert!(t.is_row_skipped(r));
    t.skip_row(r, false);
    assert!(!t.is_row_skipped(r));
    t.skip_col(ColumnUid(0), true);
    assert!(t.is_col_skipped(ColumnUid(0)));
    assert!(!t.is_col_skipped(ColumnUid(7)));
}

#[test]
fn mapping_choices() {
    let mut t = VariantBackend::new(vec![]);
    t.set_mapping_choices(vec!["x".to_string()]);
    t.push_mapping_choices(vec!["y".to_string()]);
    assert_eq!(t.column_mapping_choices(), &vec!["x".to_string(), "y".to_string()]);
    t.clear_mapping_choices();
    assert!(t.column_mapping_choices().is_empty());
}

#[test]
fn turning_a_column_converts_values() {
    let mut t = VariantBackend::new(vec![("n".to_string(), VariantTy::Str, None)]);
    let r0 = t.create_row(vec![(ColumnUid(0), s("7"))]).unwrap();
    let r1 = t.create_row(vec![(ColumnUid(0), s("seven"))]).unwrap();
    t.turn_column_into(ColumnUid(0), VariantTy::u32());
    assert_eq!(t.column_ty(ColumnUid(0)), Some(VariantTy::u32()));
    assert_eq!(t.get(CellCoord { row_uid: r0, col_uid: ColumnUid(0) }), Some(&Variant::from_str("7", &VariantTy::u32())));
    assert_ne!(t.get(CellCoord { row_uid: r0, col_uid: ColumnUid(0) }), Some(&s("7")));
    assert_eq!(t.get(CellCoord { row_uid: r1, col_uid: ColumnUid(0) }), Some(&s("seven")));
    assert!(t.conversion_error(CellCoord { row_uid: r1, col_uid: ColumnUid(0) }).is_some());
    assert!(t.conversion_error(CellCoord { row_uid: r0, col_uid: ColumnUid(0) }).is_none());
    assert!(t.one_shot_flags_internal().columns_changed);
    t.clear_metadata();
    assert!(t.conversion_error(CellCoord { row_uid: r1, col_uid: ColumnUid(0) }).is_none());
}

#[test]
fn discarded_edit_is_not_committed() {
    let mut t = VariantBackend::new(vec![("a".to_string(), VariantTy::Str, None)]);
    let r = t.create_row(vec![]).unwrap();
    let c = CellCoord { row_uid: r, col_uid: ColumnUid(0) };
    t.set_cell_edit(c, s("draft"));
    t.discard_cell_edit();
    t.commit_cell_edit(c);
    assert_eq!(t.get(c), None);
    assert_eq!(t.next_row_uid(), RowUid(1));
}

#[test]
fn turning_a_column_into_its_own_type_changes_nothing() {
    let mut t = VariantBackend::new(vec![("n".to_string(), VariantTy::Str, None)]);
    let r = t.create_row(vec![(ColumnUid(0), s("7"))]).unwrap();
    t.end_frame();
    t.turn_column_into(ColumnUid(0), VariantTy::Str);
    assert_eq!(t.get(CellCoord { row_uid: r, col_uid: ColumnUid(0) }), Some(&s("7")));
    assert!(!t.one_shot_flags_internal().columns_changed);
    t.turn_column_into(ColumnUid(4), VariantTy::Bool);
    assert!(!t.one_shot_flags_internal().columns_changed);
}

#[test]
fn read_only_table_makes_no_rows_or_columns() {
    let mut t = VariantBackend::new(vec![("a".to_string(), VariantTy::Str, None)]);
    t.set_read_only(true);
    assert!(t.persistent_flags().is_read_only);
    assert_eq!(t.create_row(vec![]), None);
    assert_eq!(t.create_column(), None);
    assert_eq!(t.row_count(), 0);
    t.set_read_only(false);
    assert_eq!(t.create_row(vec![]), Some(RowUid(0)));
}

fn money(precision: u8) -> Variant {
    Variant::Money { currency: std::sync::Arc::new("EUR".to_string()), precision, value: 1234 }
}

#[test]
fn money_that_cannot_be_displayed_is_not_turned_into_text() {
    let mut t = VariantBackend::new(vec![("m".to_string(), VariantTy::Bool, None)]);
    let r0 = t.create_row(vec![(ColumnUid(0), money(12))]).unwrap();
    let r1 = t.create_row(vec![(ColumnUid(0), money(2))]).unwrap();
    t.turn_column_into(ColumnUid(0), VariantTy::Str);
    assert_eq!(t.get(CellCoord { row_uid: r0, col_uid: ColumnUid(0) }), Some(&money(12)));
    assert_eq!(t.get(CellCoord { row_uid: r1, col_uid: ColumnUid(0) }), Some(&Variant::Str(money(2).to_string())));
}

fn first_cell_text<B: egui_tabular::TableBackend>(b: &mut B) -> Option<Variant> {
    let r = b.row_uid(VisualRowIdx(0))?;
    let c = CellCoord { row_uid: r, col_uid: b.used_columns()[0] };
    b.set(c, s("through the interface"));
    b.one_shot_flags_archive();
    b.get(c).cloned()
}

#[test]
fn backend_is_usable_through_its_interface() {
    let mut t = VariantBackend::new(vec![("a".to_string(), VariantTy::Str, None)]);
    t.create_row(vec![]);
    assert_eq!(first_cell_text(&mut t), Some(s("through the interface")));
    assert_eq!(egui_tabular::TableBackend::row_count(&t), 1);
    assert!(t.one_shot_flags().row_set_updated);
}

#[test]
fn conversions_that_would_overflow_are_skipped() {
    let mut t = VariantBackend::new(vec![("n".to_string(), VariantTy::Str, None)]);
    let a = t.create_row(vec![(ColumnUid(0), s("-5"))]).unwrap();
    let b = t.create_row(vec![(ColumnUid(0), Variant::i32(-5))]).unwrap();
    let c = t.create_row(vec![(ColumnUid(0), Variant::i32(5))]).unwrap();
    t.turn_column_into(ColumnUid(0), VariantTy::u32());
    assert_eq!(t.get(CellCoord { row_uid: a, col_uid: ColumnUid(0) }), Some(&s("-5")));
    assert_eq!(t.get(CellCoord { row_uid: b, col_uid: ColumnUid(0) }), Some(&Variant::i32(-5)));
    assert_eq!(t.get(CellCoord { row_uid: c, col_uid: ColumnUid(0) }), Some(&Variant::from_str("5", &VariantTy::u32())));
}
