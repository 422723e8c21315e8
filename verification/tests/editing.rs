use cellar::cell_input::{is_guid_type, pending_cell_value, valid_decimal, validate_value};
use cellar::changes::RowChange;
use cellar::clipboard::{clipboard_json_rows, clipboard_rows, without_matching_header};
use cellar::editing::EditableGrid;
use cellar::query::{NoticeCapture, QueryResult};
use cellar::schema::{Column, Table};
use cellar::value::{
    cell_edit_text, cell_text, diff_value, lookup_value_text, CellValue, ColumnMeta, FloatCell,
};
use cellar::workspace_model::TableTarget;

fn column(name: &str, data_type: &str, primary: bool, ordinal: u32) -> Column {
    Column {
        name: name.to_string(),
        data_type: data_type.to_string(),
        nullable: !primary,
        default: None,
        is_primary_key: primary,
        ordinal,
        comment: None,
    }
}

fn meta(name: &str, data_type: &str, nullable: bool) -> ColumnMeta {
    ColumnMeta { name: name.to_string(), data_type: data_type.to_string(), nullable }
}

fn fixture() -> (TableTarget, Table, QueryResult) {
    let target = TableTarget {
        connection_id: "one".to_string(),
        database: "cellar".to_string(),
        schema: "public".to_string(),
        table: "users".to_string(),
    };
    let table = Table {
        name: "users".to_string(),
        schema: "public".to_string(),
        row_count: Some(1),
        columns: vec![column("id", "int8", true, 1), column("name", "text", false, 2)],
        primary_key: vec!["id".to_string()],
        foreign_keys: Vec::new(),
        indexes: Vec::new(),
    };
    let result = QueryResult {
        columns: vec![meta("id", "int8", false), meta("name", "text", true)],
        rows: vec![vec![CellValue::Int(7), CellValue::Text("old".to_string())]],
        notices: Vec::new(),
        notice_capture: NoticeCapture::Unsupported("test".to_string()),
        rows_affected: None,
        duration_ms: 0,
        truncated: false,
        total_rows: Some(1),
    };
    (target, table, result)
}

#[test]
fn guid_types_match_the_classic_grid() {
    assert!(is_guid_type("uuid"));
    assert!(is_guid_type("GUID"));
    assert!(is_guid_type("uniqueidentifier"));
    assert!(!is_guid_type("text"));
}

#[test]
fn pending_edit_builds_safe_request_and_reverting_drops_it() {
    let (target, table, result) = fixture();
    let mut edits = EditableGrid::new(target, table, &result);
    edits
        .set_value(0, 1, Some("new".to_string()), &result)
        .expect("valid text edit");
    let request = edits.request(&result);
    assert_eq!(edits.pending_count(), 1);
    assert_eq!(request.changes.len(), 1);
    let debug = format!("{:?}", request.changes[0]);
    assert!(debug.contains("id") && debug.contains("new"));

    assert!(edits.revert_cell(0, 1));
    assert_eq!(edits.pending_count(), 0);
    edits
        .set_value(0, 1, Some("new".to_string()), &result)
        .expect("valid text edit");

    edits
        .set_value(0, 1, Some("old".to_string()), &result)
        .expect("valid text edit");
    assert_eq!(edits.pending_count(), 0);
}

#[test]
fn pending_delete_builds_safe_request_and_reverting_drops_it() {
    let (target, table, result) = fixture();
    let mut edits = EditableGrid::new(target, table, &result);
    edits.toggle_delete(0);

    assert_eq!(edits.pending_count(), 1);
    assert_eq!(edits.deleted_rows(), vec![0]);
    assert!(matches!(
        &edits.request(&result).changes[0],
        RowChange::Delete { row_id, keys }
            if row_id.contains("id") && keys[0].column == "id"
    ));

    edits.clear();
    assert_eq!(edits.pending_count(), 0);
}

#[test]
fn delete_toggle_unmarks_an_existing_pending_delete() {
    let (target, table, result) = fixture();
    let mut edits = EditableGrid::new(target, table, &result);
    assert!(!edits.toggle_delete(0));
    assert_eq!(edits.deleted_rows(), vec![0]);
    assert!(!edits.toggle_delete(0));
    assert!(edits.deleted_rows().is_empty());
}

#[test]
fn pending_insert_builds_values_and_can_be_removed() {
    let (target, table, mut result) = fixture();
    let mut edits = EditableGrid::new(target, table, &result);
    let row = result.rows.len();
    result
        .rows
        .push(vec![CellValue::Null; result.columns.len()]);
    edits.insert_row(row);
    edits
        .set_value(row, 0, Some("8".to_string()), &result)
        .expect("valid integer edit");

    assert_eq!(edits.pending_count(), 1);
    assert_eq!(edits.inserted_rows(), vec![1]);
    assert!(matches!(
        &edits.request(&result).changes[0],
        RowChange::Insert { row_id, values }
            if row_id.starts_with("insert:")
                && values[0].column == "id"
                && values[0].value.value.as_deref() == Some("8")
    ));

    assert!(edits.remove_insert(row));
    assert_eq!(edits.pending_count(), 0);
}

#[test]
fn typed_edits_reject_values_the_database_cannot_cast_safely() {
    assert!(validate_value("int8", "42").is_ok());
    assert!(validate_value("int8", "4.2").is_err());
    assert!(validate_value("boolean", "true").is_ok());
    assert!(validate_value("numeric", "999999999999999999999999.25").is_ok());
    assert!(validate_value("numeric", "--1").is_err());
    assert!(validate_value("date", "2026-08-14").is_ok());
    assert!(validate_value("date", "14/08/2026").is_err());
}

#[test]
fn clipboard_tsv_preserves_empty_cells() {
    assert_eq!(
        clipboard_rows("a\tb\n\tc\n"),
        vec![
            vec!["a".to_string(), "b".to_string()],
            vec!["".to_string(), "c".to_string()],
        ]
    );
}

#[test]
fn clipboard_json_objects_align_to_target_columns() {
    let json = "[\n  {\n    \"id\": 2,\n    \"name\": null\n  },\n  {\n    \"name\": \"a\",\n    \"id\": 1\n  }\n]\n";
    let columns = vec![(1, "name".to_string()), (0, "id".to_string())];
    assert_eq!(
        clipboard_json_rows(json, &columns),
        Some(vec![
            vec![(1, String::new()), (0, "2".to_string())],
            vec![(1, "a".to_string()), (0, "1".to_string())],
        ])
    );
    assert_eq!(clipboard_json_rows(json, &[(0, "id_2".to_string())]), None);
    assert_eq!(
        clipboard_json_rows("[{\"id\":1}, \"not-a-row\"]", &columns),
        None
    );
    assert_eq!(clipboard_json_rows("[{\"foo\":1}]", &columns), None);
    assert_eq!(
        clipboard_json_rows(json, &[(2, "id".to_string())]),
        Some(vec![vec![(2, "2".to_string())], vec![(2, "1".to_string())]])
    );
}

#[test]
fn matching_header_is_skipped_only_when_data_follows() {
    let headers = vec!["id".to_string(), "name".to_string()];
    assert_eq!(
        without_matching_header(
            vec![
                vec!["id".to_string(), "name".to_string()],
                vec!["1".to_string(), "a".to_string()],
            ],
            &headers,
        ),
        vec![vec!["1".to_string(), "a".to_string()]]
    );
    let header_only = vec![vec!["id".to_string(), "name".to_string()]];
    assert_eq!(
        without_matching_header(header_only.clone(), &headers),
        header_only
    );
    let mismatched = vec![
        vec!["id".to_string(), "title".to_string()],
        vec!["1".to_string(), "a".to_string()],
    ];
    assert_eq!(
        without_matching_header(mismatched.clone(), &headers),
        mismatched
    );
}

#[test]
fn an_update_carries_the_key_and_the_edit() {
    let (target, table, result) = fixture();
    let mut edits = EditableGrid::new(target, table, &result);
    edits.set_value(0, 1, None, &result).unwrap();
    let request = edits.request(&result);
    assert_eq!(request.database.as_deref(), Some("cellar"));
    assert_eq!(request.schema, "public");
    assert_eq!(request.table, "users");
    assert_eq!(request.columns.len(), 2);
    match &request.changes[0] {
        RowChange::Update { row_id, keys, edits } => {
            assert_eq!(row_id, "id=Some(\"7\")");
            assert_eq!(keys[0].value.value.as_deref(), Some("7"));
            assert_eq!(edits[0].column, "name");
            assert_eq!(edits[0].value.value, None);
        }
        other => panic!("{:?}", other),
    }
}

#[test]
fn an_edit_is_shown_and_stays_in_its_row() {
    let (target, table, mut result) = fixture();
    result.rows.push(vec![CellValue::Int(8), CellValue::Null]);
    let mut edits = EditableGrid::new(target, table, &result);
    edits.set_value(1, 1, Some("x".to_string()), &result).unwrap();
    assert_eq!(edits.display_value(1, 1), Some(Some("x".to_string())));
    assert_eq!(edits.display_value(0, 1), None);
    let shown = edits.display_values();
    assert_eq!(shown.len(), 1);
    assert_eq!(shown.get(&(1, 1)), Some(&Some("x".to_string())));
}

#[test]
fn deleted_rows_take_no_edits() {
    let (target, table, result) = fixture();
    let mut edits = EditableGrid::new(target, table, &result);
    edits.toggle_delete(0);
    edits.set_value(0, 1, Some("x".to_string()), &result).unwrap();
    assert_eq!(edits.display_value(0, 1), None);
    assert!(edits.row_deleted(0));
}

#[test]
fn a_refused_value_changes_nothing() {
    let (target, table, result) = fixture();
    let mut edits = EditableGrid::new(target, table, &result);
    assert!(edits.set_value(0, 0, Some("seven".to_string()), &result).is_err());
    assert_eq!(edits.pending_count(), 0);
}

#[test]
fn inserts_have_their_own_ids_and_cancelling_drops_one() {
    let (target, table, mut result) = fixture();
    let mut edits = EditableGrid::new(target, table, &result);
    for _ in 0..2 {
        let row = result.rows.len();
        result.rows.push(vec![CellValue::Null; 2]);
        edits.insert_row(row);
    }
    assert_eq!(edits.pending_count(), 2);
    let request = edits.request(&result);
    assert!(matches!(&request.changes[0], RowChange::Insert { row_id, .. } if row_id == "insert:1"));
    assert!(matches!(&request.changes[1], RowChange::Insert { row_id, .. } if row_id == "insert:2"));
    assert!(edits.toggle_delete(1));
    assert_eq!(edits.inserted_rows(), vec![1]);
    assert_eq!(edits.clear(), vec![1]);
    assert_eq!(edits.row_count(), 1);
}

#[test]
fn edits_follow_their_columns_and_back() {
    let (target, table, result) = fixture();
    let mut edits = EditableGrid::new(target, table, &result);
    edits.set_value(0, 1, Some("x".to_string()), &result).unwrap();
    edits.move_column(1, 0);
    assert_eq!(edits.display_value(0, 0), Some(Some("x".to_string())));
    assert_eq!(edits.display_value(0, 1), None);
    edits.move_column(0, 1);
    assert_eq!(edits.display_value(0, 1), Some(Some("x".to_string())));
}

#[test]
fn a_table_without_a_key_cannot_be_edited() {
    let (target, mut table, result) = fixture();
    table.primary_key.clear();
    let mut edits = EditableGrid::new(target, table, &result);
    assert!(!edits.can_edit());
    edits.set_value(0, 1, Some("x".to_string()), &result).unwrap();
    assert_eq!(edits.pending_count(), 0);
}

#[test]
fn texts_of_values() {
    assert_eq!(cell_text(&CellValue::Bytes(vec![1, 255]), "NULL"), "<2 bytes>");
    assert_eq!(cell_edit_text(&CellValue::Bytes(vec![1, 255])), "\\x01ff");
    assert_eq!(cell_edit_text(&CellValue::Null), "");
    assert_eq!(diff_value(&CellValue::Null), None);
    assert_eq!(diff_value(&CellValue::Bool(true)), Some("true".to_string()));
    assert_eq!(diff_value(&CellValue::Int(-12)), Some("-12".to_string()));
    assert_eq!(
        diff_value(&CellValue::Uuid(0x1234)),
        Some("00000000-0000-0000-0000-000000001234".to_string())
    );
    let endless = FloatCell { text: "inf".to_string(), finite: false };
    assert_eq!(lookup_value_text(&CellValue::Float(endless)), None);
}

#[test]
fn pending_values_keep_the_type_of_the_cell() {
    let text = |s: &str| Some(s.to_string());
    assert_eq!(
        pending_cell_value("int8", &CellValue::Int(1), text("2"), None),
        CellValue::Int(2)
    );
    assert_eq!(
        pending_cell_value("int8", &CellValue::Int(1), text("two"), None),
        CellValue::Text("two".to_string())
    );
    assert_eq!(
        pending_cell_value("interval", &CellValue::Null, text("1"), None),
        CellValue::Text("1".to_string())
    );
    assert_eq!(
        pending_cell_value("bigint", &CellValue::Null, text("5"), None),
        CellValue::Int(5)
    );
    assert_eq!(
        pending_cell_value("text", &CellValue::Text("a".to_string()), None, None),
        CellValue::Null
    );
    assert_eq!(
        pending_cell_value(
            "uuid",
            &CellValue::Null,
            text("00000000-0000-0000-0000-00000000000A"),
            None
        ),
        CellValue::Uuid(10)
    );
    assert_eq!(
        pending_cell_value("jsonb", &CellValue::Json("1".to_string()), text("{ \"a\" : 1 }"), None),
        CellValue::Json("{\"a\":1}".to_string())
    );
    let float = FloatCell { text: "2.5".to_string(), finite: true };
    assert_eq!(
        pending_cell_value("float8", &CellValue::Null, text("2.50"), Some(float)),
        CellValue::Float(FloatCell { text: "2.5".to_string(), finite: true })
    );
}

#[test]
fn decimals_have_digits() {
    assert!(valid_decimal("-12.5"));
    assert!(!valid_decimal("."));
    assert!(!valid_decimal(""));
}

#[test]
fn dates_are_days_of_the_calendar() {
    assert!(validate_value("date", "2024-02-29").is_ok());
    assert!(validate_value("date", "2023-02-29").is_err());
}

#[test]
fn typing_the_old_value_drops_one_edit() {
    let (target, table, result) = fixture();
    let mut edits = EditableGrid::new(target, table, &result);
    edits.set_value(0, 0, Some("9".to_string()), &result).unwrap();
    edits.set_value(0, 1, Some("new".to_string()), &result).unwrap();
    assert_eq!(edits.pending_count(), 2);
    edits.set_value(0, 1, Some("old".to_string()), &result).unwrap();
    assert_eq!(edits.pending_count(), 1);
    assert_eq!(edits.display_value(0, 1), None);
    assert_eq!(edits.display_value(0, 0), Some(Some("9".to_string())));
    edits.set_value(0, 1, Some("old".to_string()), &result).unwrap();
    assert_eq!(edits.pending_count(), 1);
    edits.set_value(0, 0, Some("7".to_string()), &result).unwrap();
    assert!(edits.request(&result).changes.is_empty());
}

#[test]
fn a_cancelled_insert_leaves_nothing_of_what_was_typed() {
    let (target, table, mut result) = fixture();
    let mut edits = EditableGrid::new(target, table, &result);
    edits.set_value(0, 1, Some("new".to_string()), &result).unwrap();
    result.rows.push(vec![CellValue::Null; 2]);
    edits.insert_row(1);
    edits.set_value(1, 0, Some("8".to_string()), &result).unwrap();
    edits.set_value(1, 1, Some("typed".to_string()), &result).unwrap();
    edits.set_value(1, 1, None, &result).unwrap();
    assert_eq!(edits.pending_count(), 2);
    assert!(edits.remove_insert(1));
    assert_eq!(edits.pending_count(), 1);
    assert!(edits.inserted_rows().is_empty());
    assert_eq!(edits.display_value(0, 1), Some(Some("new".to_string())));
    assert!(!edits.remove_insert(0));
    assert_eq!(edits.pending_count(), 1);
}

#[test]
fn copied_rows_are_pasted_with_either_line_end() {
    let rows = vec![
        vec!["a".to_string(), "".to_string()],
        vec!["".to_string()],
        vec!["b".to_string(), "c".to_string()],
    ];
    assert_eq!(clipboard_rows("a\t\n\nb\tc"), rows);
    assert_eq!(clipboard_rows("a\t\r\n\r\nb\tc\r\n\r\n"), rows);
    assert_eq!(clipboard_rows("a\t\n\nb\tc\n\n\n"), rows);
    assert_eq!(clipboard_rows("\r\n"), vec![vec!["".to_string()]]);
}
