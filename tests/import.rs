use egui_tabular::{
    determine_separator, CellCoord, ColumnUid, CsvBackendUi, CsvImporter, CsvImporterConfig, IoStatus, RequiredColumn,
    RequiredColumns, Separator, VariantBackend, VisualRowIdx,
};
use rvariant::{Variant, VariantTy};

fn names(v: &[&str]) -> Vec<String> {
    v.iter().map(|s| s.to_string()).collect()
}

fn required() -> RequiredColumns {
    RequiredColumns::new(vec![RequiredColumn::str("Name"), RequiredColumn::u32("Count")])
}

#[test]
fn matching_is_case_insensitive_and_orders_adhoc_last() {
    let req = required();
    let a = req.assign_columns(&names(&["count", "NAME", "Extra"]));
    assert_eq!(a.required, vec![(ColumnUid(0), Some(1)), (ColumnUid(1), Some(0))]);
    assert_eq!(a.header_uids, vec![ColumnUid(1), ColumnUid(0), ColumnUid(2)]);
    assert!(a.double_matched.is_empty());
    let b = req.assign_columns(&names(&["count", "NAME", "Extra"]));
    assert_eq!(a.header_uids, b.header_uids);
    assert_eq!(a.required, b.required);
}

#[test]
fn matching_by_synonym() {
    let req = RequiredColumns::new(vec![RequiredColumn::str("Quantity").synonyms(vec!["Qty", "AMOUNT"])]);
    assert_eq!(req.get(ColumnUid(0)).unwrap().synonyms, names(&["qty", "amount"]));
    let m = req.map_columns(&names(&["id", "Amount"]));
    assert_eq!(m, vec![(ColumnUid(0), Some(1))]);
    let none = req.map_columns(&names(&["id", "Quantities"]));
    assert_eq!(none, vec![(ColumnUid(0), None)]);
}

#[test]
fn first_match_wins_and_double_match_is_reported() {
    let req = RequiredColumns::new(vec![
        RequiredColumn::str("Name"),
        RequiredColumn::str("Label").synonyms(vec!["name"]),
    ]);
    let a = req.assign_columns(&names(&["x", "name", "NAME"]));
    assert_eq!(a.required, vec![(ColumnUid(0), Some(1)), (ColumnUid(1), Some(1))]);
    assert_eq!(a.double_matched, vec![ColumnUid(1)]);
    assert_eq!(a.header_uids, vec![ColumnUid(2), ColumnUid(0), ColumnUid(3)]);
}

#[test]
fn required_column_builders() {
    let c = RequiredColumn::new("Flag", VariantTy::Bool).default(Variant::Bool(true));
    assert_eq!(c.name, "Flag");
    assert_eq!(c.ty, VariantTy::Bool);
    assert_eq!(c.default, Some(Variant::Bool(true)));
    assert_eq!(RequiredColumn::u32("n").ty, VariantTy::u32());
    assert_eq!(RequiredColumn::str("s").ty, VariantTy::Str);
    assert!(required().get(ColumnUid(2)).is_none());
}

#[test]
fn separator_detection() {
    let auto = CsvImporterConfig::default();
    assert_eq!(determine_separator(&auto, b"a;b;c\n1;2,3"), b';');
    assert_eq!(determine_separator(&auto, b"a\tb\tc,d"), b'\t');
    assert_eq!(determine_separator(&auto, b"a,b,c;d"), b',');
    assert_eq!(determine_separator(&auto, b"a,b\tc"), b'\t');
    assert_eq!(determine_separator(&auto, b"plain"), b';');
    let comma = CsvImporterConfig { separator: Separator::Comma, ..CsvImporterConfig::default() };
    assert_eq!(determine_separator(&comma, b";;;"), b',');
    let mut c = CsvImporterConfig { separator: Separator::Tab, ..CsvImporterConfig::default() };
    c.detect_separator(b",,,");
    assert_eq!(c.separator(), b'\t');
}

#[test]
fn detection_looks_at_first_mebibyte_only() {
    let mut sample = vec![b','; 1048576];
    sample.extend(vec![b';'; 2_000_000]);
    assert_eq!(determine_separator(&CsvImporterConfig::default(), &sample), b',');
}

#[test]
fn config_defaults_and_getters() {
    let c = CsvImporterConfig::default();
    assert_eq!(c.separator(), b',');
    assert_eq!(c.skip_first_rows(), 0);
    assert!(c.has_headers());
    assert!(c.separator == Separator::Auto);
}

#[test]
fn io_status_errors() {
    assert!(!IoStatus::Empty.is_error());
    assert!(IoStatus::IoError("x".into()).is_error());
    assert!(IoStatus::ReaderError("x".into()).is_error());
    assert!(IoStatus::ReaderErrorAtLine(3, "x".into()).is_error());
    assert!(!IoStatus::Loaded.is_error());
    assert!(!IoStatus::Edited.is_error());
    assert!(IoStatus::UnknownSeparator.is_error());
}

fn rec(v: &[&str]) -> Result<Vec<String>, String> {
    Ok(names(v))
}

#[test]
fn load_maps_headers_and_converts_values() {
    let mut imp = CsvImporter::new(required());
    let mut t = VariantBackend::new(vec![]);
    let records = vec![rec(&["count", "NAME", "Extra"]), rec(&["3", "bolt", "x"]), rec(&["5", "nut", "y"])];
    imp.load_records(&CsvImporterConfig::default(), &records, &mut t, None);
    assert_eq!(*imp.status(), IoStatus::Loaded);
    assert_eq!(t.used_columns(), vec![ColumnUid(0), ColumnUid(1), ColumnUid(2)]);
    assert_eq!(t.column_info(ColumnUid(0)).unwrap().name, "Name");
    assert!(t.column_info(ColumnUid(0)).unwrap().is_required);
    assert_eq!(t.column_ty(ColumnUid(0)), Some(VariantTy::Str));
    assert_eq!(t.column_info(ColumnUid(1)).unwrap().name, "Count");
    assert!(t.column_info(ColumnUid(1)).unwrap().is_required);
    assert_eq!(t.column_ty(ColumnUid(1)), Some(VariantTy::u32()));
    assert_eq!(t.column_info(ColumnUid(2)).unwrap().name, "Extra");
    assert!(!t.column_info(ColumnUid(2)).unwrap().is_required);
    assert_eq!(t.column_ty(ColumnUid(2)), Some(VariantTy::Str));
    assert_eq!(t.row_count(), 2);
    let r0 = t.row_uid(VisualRowIdx(0)).unwrap();
    assert_eq!(t.get(CellCoord { row_uid: r0, col_uid: ColumnUid(0) }), Some(&Variant::Str("bolt".into())));
    assert_eq!(t.get(CellCoord { row_uid: r0, col_uid: ColumnUid(1) }), Some(&Variant::from_str("3", &VariantTy::u32())));
    assert_eq!(t.get(CellCoord { row_uid: r0, col_uid: ColumnUid(2) }), Some(&Variant::Str("x".into())));
    assert!(t.one_shot_flags_internal().reloaded);
}

#[test]
fn load_reports_failing_line_and_keeps_earlier_rows() {
    let mut imp = CsvImporter::new(required());
    let mut t = VariantBackend::new(vec![]);
    let records = vec![rec(&["junk"]), rec(&["Name", "Count"]), rec(&["a", "1"]), Err("bad quote".to_string()), rec(&["b", "2"])];
    let config = CsvImporterConfig { skip_first_rows: 1, ..CsvImporterConfig::default() };
    imp.load_records(&config, &records, &mut t, None);
    assert_eq!(*imp.status(), IoStatus::ReaderErrorAtLine(3, "bad quote".to_string()));
    assert_eq!(t.row_count(), 1);
}

#[test]
fn load_respects_row_cap_and_empty_input() {
    let mut imp = CsvImporter::new(required());
    let mut t = VariantBackend::new(vec![]);
    let records = vec![rec(&["Name"]), rec(&["a"]), rec(&["b"]), rec(&["c"])];
    imp.load_records(&CsvImporterConfig::default(), &records, &mut t, Some(2));
    assert_eq!(*imp.status(), IoStatus::Loaded);
    assert_eq!(t.row_count(), 2);
    imp.load_records(&CsvImporterConfig::default(), &vec![], &mut t, None);
    assert_eq!(*imp.status(), IoStatus::Empty);
    imp.load_records(&CsvImporterConfig::default(), &vec![Err("io".to_string())], &mut t, None);
    assert_eq!(*imp.status(), IoStatus::ReaderError("io".to_string()));
}

#[test]
fn load_without_headers_names_columns_by_position() {
    let mut imp = CsvImporter::new(RequiredColumns::new(vec![]));
    let mut t = VariantBackend::new(vec![]);
    let records = vec![rec(&["1", "2"]), rec(&["3", "4", "5"])];
    let config = CsvImporterConfig { has_headers: false, ..CsvImporterConfig::default() };
    imp.load_records(&config, &records, &mut t, None);
    assert_eq!(*imp.status(), IoStatus::Loaded);
    assert_eq!(t.row_count(), 2);
    assert_eq!(t.used_columns(), vec![ColumnUid(0), ColumnUid(1), ColumnUid(2)]);
    assert_eq!(t.column_info(ColumnUid(2)).unwrap().name, "C");
    assert!(!t.column_info(ColumnUid(0)).unwrap().is_required);
    assert_eq!(t.column_ty(ColumnUid(1)), Some(VariantTy::Str));
}

#[test]
fn a_second_header_matching_a_taken_requirement_becomes_additional() {
    let mut imp = CsvImporter::new(required());
    let mut t = VariantBackend::new(vec![]);
    let records = vec![rec(&["name", "Name", "count"]), rec(&["a", "b", "1"])];
    imp.load_records(&CsvImporterConfig::default(), &records, &mut t, None);
    assert_eq!(t.used_columns(), vec![ColumnUid(0), ColumnUid(1), ColumnUid(2)]);
    assert_eq!(t.column_info(ColumnUid(2)).unwrap().name, "Name");
    assert!(!t.column_info(ColumnUid(2)).unwrap().is_required);
    let r0 = t.row_uid(VisualRowIdx(0)).unwrap();
    assert_eq!(t.get(CellCoord { row_uid: r0, col_uid: ColumnUid(0) }), Some(&Variant::Str("a".into())));
    assert_eq!(t.get(CellCoord { row_uid: r0, col_uid: ColumnUid(2) }), Some(&Variant::Str("b".into())));
}

#[test]
fn csv_panel_state() {
    let mut ui = CsvBackendUi::new();
    assert!(!ui.has_warnings());
    assert!(ui.picked_file().is_none());
    ui.set_picked_file("data.csv".to_string());
    assert_eq!(ui.picked_file(), Some(&"data.csv".to_string()));
    assert!(ui.has_headers);
}

#[test]
fn export_skips_skipped_rows_and_fills_missing_cells() {
    let mut t = VariantBackend::new(vec![("a".to_string(), VariantTy::Str, None), ("b".to_string(), VariantTy::Bool, None)]);
    let r0 = t.create_row(vec![(ColumnUid(0), Variant::Str("x".into())), (ColumnUid(1), Variant::Bool(false))]).unwrap();
    let r1 = t.create_row(vec![(ColumnUid(0), Variant::Str("skip me".into()))]).unwrap();
    let _r2 = t.create_row(vec![(ColumnUid(1), Variant::Bool(true))]).unwrap();
    t.skip_row(r1, true);
    let recs = egui_tabular::export_records(&t);
    assert_eq!(
        recs,
        vec![names(&["a", "b"]), names(&["x", "false"]), names(&["", "true"])]
    );
    let _ = r0;
}

#[test]
fn negative_text_in_unsigned_column_is_kept_as_text() {
    let mut imp = CsvImporter::new(required());
    let mut t = VariantBackend::new(vec![]);
    let records = vec![rec(&["Name", "Count"]), rec(&["a", "-3"]), rec(&["b", "4"])];
    imp.load_records(&CsvImporterConfig::default(), &records, &mut t, None);
    let r0 = t.row_uid(VisualRowIdx(0)).unwrap();
    let r1 = t.row_uid(VisualRowIdx(1)).unwrap();
    assert_eq!(t.get(CellCoord { row_uid: r0, col_uid: ColumnUid(1) }), Some(&Variant::Str("-3".into())));
    assert_eq!(t.get(CellCoord { row_uid: r1, col_uid: ColumnUid(1) }), Some(&Variant::from_str("4", &VariantTy::u32())));
}

#[test]
fn failure_right_after_header_is_line_one() {
    let mut imp = CsvImporter::new(required());
    let mut t = VariantBackend::new(vec![]);
    let records = vec![rec(&["Name"]), Err("bad".to_string())];
    imp.load_records(&CsvImporterConfig::default(), &records, &mut t, None);
    assert_eq!(*imp.status(), IoStatus::ReaderErrorAtLine(1, "bad".to_string()));
    assert_eq!(t.row_count(), 0);
}

#[test]
fn empty_or_unreadable_header_leaves_an_empty_table() {
    let mut imp = CsvImporter::new(required());
    let mut t = VariantBackend::new(vec![("x".to_string(), VariantTy::Str, None)]);
    t.create_row(vec![]);
    imp.load_records(&CsvImporterConfig::default(), &vec![Err("io".to_string())], &mut t, None);
    assert_eq!(t.row_count(), 0);
    assert!(t.used_columns().is_empty());
}
