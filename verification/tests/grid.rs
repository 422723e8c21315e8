use cellar::browse::SortDirection;
use cellar::context_menu::{finish_copy, ExportFormat, MenuAction, MenuItem};
use cellar::data_grid::{CalendarDate, DataGrid, DataGridEvent, DateEditor};
use cellar::engine::Engine;
use cellar::foreign_key_editing::foreign_key_label;
use cellar::grid::{CellPosition, CellRange};
use cellar::grid_view::{unavailable_note, LinkLook, Tint};
use cellar::ordered_map::OrderedMap;
use cellar::query::{NoticeCapture, QueryResult, QueryResultPage, QueryResultSummary};
use cellar::schema::{Column, ForeignKey, Table};
use cellar::value::{CellValue, ColumnMeta, FloatCell, Row};
use cellar::workspace_model::TableTarget;

fn at(row: usize, column: usize) -> CellPosition {
    CellPosition { row, column }
}

fn text(s: &str) -> CellValue {
    CellValue::Text(s.to_string())
}

fn meta(name: &str, data_type: &str) -> ColumnMeta {
    ColumnMeta { name: name.to_string(), data_type: data_type.to_string(), nullable: true }
}

fn result(columns: Vec<ColumnMeta>, rows: Vec<Row>) -> QueryResult {
    QueryResult {
        columns,
        rows,
        notices: Vec::new(),
        notice_capture: NoticeCapture::Supported,
        rows_affected: None,
        duration_ms: 3,
        truncated: false,
        total_rows: None,
    }
}

fn target() -> TableTarget {
    TableTarget {
        connection_id: "c1".to_string(),
        database: "app".to_string(),
        schema: "public".to_string(),
        table: "orders".to_string(),
    }
}

fn key(name: &str, columns: &[&str], schema: &str, table: &str, to: &[&str]) -> ForeignKey {
    ForeignKey {
        name: name.to_string(),
        columns: columns.iter().map(|c| c.to_string()).collect(),
        referenced_schema: schema.to_string(),
        referenced_table: table.to_string(),
        referenced_columns: to.iter().map(|c| c.to_string()).collect(),
    }
}

fn column(name: &str, data_type: &str) -> Column {
    Column {
        name: name.to_string(),
        data_type: data_type.to_string(),
        nullable: true,
        default: None,
        is_primary_key: name == "id",
        ordinal: 1,
        comment: None,
    }
}

fn table(foreign_keys: Vec<ForeignKey>) -> Table {
    Table {
        name: "orders".to_string(),
        schema: "public".to_string(),
        row_count: None,
        columns: vec![
            column("id", "int8"),
            column("paid", "boolean"),
            column("user_id", "int8"),
            column("ref", "uuid"),
        ],
        primary_key: vec!["id".to_string()],
        foreign_keys,
        indexes: Vec::new(),
    }
}

fn order_rows() -> QueryResult {
    result(
        vec![meta("id", "int8"), meta("paid", "boolean"), meta("user_id", "int8"), meta("ref", "UUID")],
        vec![
            vec![CellValue::Int(1), CellValue::Bool(true), CellValue::Int(10), CellValue::Null],
            vec![CellValue::Int(2), CellValue::Null, CellValue::Null, CellValue::Uuid(7)],
        ],
    )
}

fn orders(keys: Vec<ForeignKey>, engine: Engine) -> DataGrid {
    DataGrid::new_table(order_rows(), target(), table(keys), None, engine)
}

fn none() -> String {
    String::new()
}

#[test]
fn pages_continue_the_rows() {
    let columns = || vec![meta("a", "int4")];
    let mut grid = DataGrid::from_page(QueryResultPage {
        columns: columns(),
        rows: vec![vec![CellValue::Int(1)]],
        offset: 0,
    });
    assert_eq!(
        grid.append_page(QueryResultPage { columns: columns(), rows: vec![], offset: 5 }),
        Err("query page arrived out of order: expected 1, got 5".to_string())
    );
    assert_eq!(
        grid.append_page(QueryResultPage { columns: vec![meta("b", "int4")], rows: vec![], offset: 1 }),
        Err("query columns changed between result pages".to_string())
    );
    grid.append_page(QueryResultPage {
        columns: columns(),
        rows: vec![vec![CellValue::Int(2)], vec![CellValue::Int(3)]],
        offset: 1,
    })
    .unwrap();
    assert_eq!(grid.result().rows.len(), 3);
    assert!(matches!(
        &grid.result().notice_capture,
        NoticeCapture::Unsupported(why) if why == "query is still running"
    ));
    grid.complete(&QueryResultSummary {
        notices: vec!["done".to_string()],
        notice_capture: NoticeCapture::Supported,
        rows_affected: Some(4),
        duration_ms: 9,
        truncated: true,
        total_rows: Some(30),
        row_count: 3,
    });
    assert_eq!(grid.result().duration_ms, 9);
    assert_eq!(grid.result().notices, vec!["done".to_string()]);
    assert!(grid.result().truncated);
}

#[test]
fn editing_a_cell_starts_from_its_text_and_commits_what_was_typed() {
    let mut grid = orders(vec![], Engine::Postgres);
    assert_eq!(grid.begin_edit(at(0, 2), none()), Some("10".to_string()));
    grid.commit_editor("12".to_string());
    assert_eq!(grid.pending_count(), 1);
    assert_eq!(grid.edit_error(), None);
    assert_eq!(grid.begin_edit(at(0, 2), none()), Some("12".to_string()));
    grid.commit_editor("many".to_string());
    assert!(grid.edit_error().is_some());
    assert_eq!(grid.pending_count(), 1);
    grid.begin_edit(at(0, 2), none());
    grid.cancel_editor();
    assert_eq!(grid.active_editor(), None);
}

#[test]
fn a_reload_waits_for_pending_edits() {
    let mut grid = orders(vec![], Engine::Postgres);
    grid.begin_edit(at(0, 2), none());
    assert!(!grid.prepare_for_reload("12".to_string()));
    assert_eq!(
        grid.edit_error(),
        Some("Commit or revert pending edits before reloading data")
    );
    grid.clear_pending();
    assert_eq!(grid.pending_count(), 0);
    assert!(grid.prepare_for_reload(none()));
    assert_eq!(grid.begin_edit(at(0, 2), none()), None);
    grid.set_cell_value(0, 2, Some("3".to_string()));
    assert_eq!(grid.pending_count(), 0);
    assert!(grid.request_review(none()).is_none());
    assert!(grid.request_csv_import().is_none());
}

#[test]
fn reverting_takes_added_rows_out() {
    let mut grid = orders(vec![], Engine::Postgres);
    grid.scroll_to_cell(1, 1);
    assert_eq!(grid.add_row(none()), Some(String::new()));
    assert_eq!(grid.result().rows.len(), 3);
    assert_eq!(grid.selection(), Some(at(2, 0)));
    grid.add_row("5".to_string());
    assert_eq!(grid.result().rows.len(), 4);
    assert_eq!(grid.pending_count(), 2);
    grid.clear_pending();
    assert_eq!(grid.result().rows.len(), 2);
    assert_eq!(grid.selection(), None);
    assert_eq!(grid.result().rows[1][0], CellValue::Int(2));
}

#[test]
fn selected_cells_become_null_and_truth_values_flip() {
    let mut grid = orders(vec![], Engine::Postgres);
    grid.scroll_to_cell(0, 1);
    grid.toggle_selected_bool(none());
    let editable = grid.editable().unwrap();
    assert_eq!(editable.display_value(0, 1), Some(Some("false".to_string())));
    grid.toggle_selected_bool(none());
    assert_eq!(grid.pending_count(), 0);
    grid.scroll_to_cell(0, 2);
    grid.toggle_selected_bool(none());
    assert_eq!(grid.edit_error(), Some("Select a boolean column first"));
    grid.set_selected_null(none());
    assert_eq!(grid.editable().unwrap().display_value(0, 2), Some(None));
}

#[test]
fn the_calendar_sets_its_day() {
    let mut grid = orders(vec![], Engine::Postgres);
    let day = CalendarDate { year: 2024, month: 5, day: 17 };
    grid.begin_edit(at(0, 3), none());
    grid.select_editor_date(day);
    assert_eq!(grid.active_editor().unwrap().date, None);
    grid.show_calendar(DateEditor { selected: None, month: CalendarDate { day: 1, ..day } });
    let june = CalendarDate { year: 2024, month: 6, day: 1 };
    grid.shift_editor_month(june);
    assert_eq!(
        grid.active_editor().unwrap().date,
        Some(DateEditor { selected: None, month: june })
    );
    grid.select_editor_date(day);
    let date = grid.active_editor().unwrap().date.unwrap();
    assert_eq!(date.selected, Some(day));
    assert_eq!(date.month.day, 1);
    grid.apply_date_editor(none(), Some("2024-05-17".to_string()));
    assert_eq!(
        grid.editable().unwrap().display_value(0, 3),
        Some(Some("2024-05-17".to_string()))
    );
}

#[test]
fn a_review_carries_the_changes() {
    let mut grid = orders(vec![], Engine::Postgres);
    assert!(grid.request_review(none()).is_none());
    grid.begin_edit(at(0, 2), none());
    match grid.request_review("11".to_string()) {
        Some(DataGridEvent::ReviewChanges { connection_id, request }) => {
            assert_eq!(connection_id, "c1");
            assert_eq!(request.changes.len(), 1);
        }
        _ => panic!("no review"),
    }
    assert!(matches!(grid.request_csv_import(), Some(DataGridEvent::ImportCsv)));
}

#[test]
fn clicks_on_a_header_sort_and_a_moved_column_does_not() {
    let mut grid = orders(vec![], Engine::Postgres);
    match grid.toggle_sort(2, none()) {
        Some(DataGridEvent::SortColumn { column, direction }) => {
            assert_eq!(column, "user_id");
            assert_eq!(direction, Some(SortDirection::Asc));
        }
        _ => panic!("not sorted"),
    }
    assert_eq!(grid.sort(), Some((2, SortDirection::Asc)));
    grid.move_column(2, 0, none());
    assert_eq!(grid.sort(), Some((0, SortDirection::Asc)));
    assert!(grid.toggle_sort(0, none()).is_none());
    let plain = &mut DataGrid::new(order_rows());
    assert!(plain.toggle_sort(0, none()).is_none());
}

#[test]
fn cells_and_edits_follow_a_moved_column_and_back() {
    let mut grid = orders(vec![], Engine::Postgres);
    grid.scroll_to_cell(0, 3);
    grid.begin_edit(at(0, 2), none());
    grid.move_column(2, 0, "99".to_string());
    assert_eq!(grid.result().columns[0].name, "user_id");
    assert_eq!(grid.result().rows[0][0], CellValue::Int(10));
    assert_eq!(grid.editable().unwrap().display_value(0, 0), Some(Some("99".to_string())));
    assert_eq!(grid.selection(), Some(at(0, 0)));
    grid.move_column(0, 2, none());
    assert_eq!(grid.result().columns[2].name, "user_id");
    assert_eq!(grid.result().rows[1][3], CellValue::Uuid(7));
    assert_eq!(grid.editable().unwrap().display_value(0, 2), Some(Some("99".to_string())));
    grid.move_column(0, 9, none());
    assert_eq!(grid.result().columns[0].name, "id");
}

#[test]
fn a_new_guid_is_a_random_one() {
    let mut grid = orders(vec![], Engine::Postgres);
    grid.generate_guid(0, 3);
    let first = grid.editable().unwrap().display_value(0, 3).unwrap().unwrap();
    assert_eq!(first.len(), 36);
    assert_eq!(first.as_bytes()[14], b'4');
    assert!(matches!(first.as_bytes()[19], b'8' | b'9' | b'a' | b'b'));
    grid.generate_guid(0, 3);
    let second = grid.editable().unwrap().display_value(0, 3).unwrap().unwrap();
    assert_ne!(first, second);
}

#[test]
fn a_single_foreign_key_is_followed_at_once() {
    let mut grid = orders(
        vec![key("orders_user", &["user_id"], "public", "users", &["id"])],
        Engine::Postgres,
    );
    match grid.open_foreign_key_cell(0, 2) {
        Some(DataGridEvent::NavigateForeignKey { source, lookup, focus_column }) => {
            assert_eq!(source, target());
            assert_eq!(lookup.table, "users");
            assert_eq!(lookup.columns, vec!["id".to_string()]);
            assert_eq!(lookup.values, vec![CellValue::Int(10)]);
            assert_eq!(focus_column, "id");
        }
        _ => panic!("not followed"),
    }
    assert!(grid.open_foreign_key_cell(1, 2).is_none());
    assert_eq!(
        grid.edit_error(),
        Some("NULL foreign-key values do not identify a referenced row")
    );
    assert!(grid.open_foreign_key_cell(0, 0).is_none());
    assert_eq!(grid.edit_error(), Some("This column is not a foreign key"));
    assert!(grid.open_foreign_key_cell(0, 9).is_none());
    assert_eq!(
        grid.edit_error(),
        Some("The selected cell is outside the result columns")
    );
}

#[test]
fn several_foreign_keys_are_offered() {
    let mut grid = orders(
        vec![
            key("", &["user_id"], "", "users", &["id"]),
            key("pair", &["user_id", "missing"], "public", "pairs", &["a", "b"]),
        ],
        Engine::Postgres,
    );
    assert!(grid.open_foreign_key_cell(0, 2).is_none());
    let picker = grid.picker().unwrap();
    assert_eq!(picker.options.len(), 2);
    assert_eq!(picker.options[0].label, "Open users");
    assert_eq!(picker.options[1].label, "pair → public.pairs");
    assert_eq!(unavailable_note(&picker.options[0]), None);
    assert_eq!(
        unavailable_note(&picker.options[1]),
        Some("Unavailable: Foreign-key column missing is not present in this result".to_string())
    );
    grid.close_picker();
    assert!(grid.picker().is_none());
}

#[test]
fn foreign_keys_that_cannot_be_followed_say_why() {
    let wrong = |keys: Vec<ForeignKey>, engine: Engine| {
        let mut grid = orders(keys, engine);
        assert!(grid.open_foreign_key_cell(0, 2).is_none());
        grid.edit_error().unwrap().to_string()
    };
    assert_eq!(
        wrong(vec![key("k", &["user_id"], "other", "users", &["id"])], Engine::MySql),
        "Cross-catalog MySQL navigation is unavailable; referenced catalog other is not loaded"
    );
    assert_eq!(
        wrong(vec![key("k", &["user_id"], "public", "users", &[])], Engine::Postgres),
        "Foreign-key metadata is incomplete for this relationship"
    );
    assert_eq!(
        wrong(vec![key("k", &["user_id"], "public", "users", &[" "])], Engine::Postgres),
        "Referenced-column metadata is unavailable for this foreign key"
    );
    let keys = || vec![key("k", &["user_id"], "public", "users", &["id"])];
    let mut grid = orders(keys(), Engine::Postgres);
    grid.set_cell_value(0, 2, Some("5".to_string()));
    grid.open_foreign_key_cell(0, 2);
    assert_eq!(
        grid.edit_error(),
        Some("Commit or revert pending edits to the foreign-key columns before navigating")
    );
    let mut grid = orders(keys(), Engine::Postgres);
    grid.add_row(none());
    grid.open_foreign_key_cell(2, 2);
    assert_eq!(
        grid.edit_error(),
        Some("Commit the inserted row before navigating a foreign key")
    );
    let mut grid = orders(keys(), Engine::Postgres);
    assert!(grid.prepare_for_reload(none()));
    grid.open_foreign_key_cell(0, 2);
    assert_eq!(
        grid.edit_error(),
        Some("Wait for the table reload to finish before navigating")
    );
    let mut plain = DataGrid::new(order_rows());
    plain.open_foreign_key_cell(0, 2);
    assert_eq!(
        plain.edit_error(),
        Some("Foreign-key navigation is available for table rows only")
    );
}

#[test]
fn values_that_identify_no_row_are_refused() {
    let of = |value: CellValue| {
        let rows = result(vec![meta("id", "int8"), meta("user_id", "x")], vec![vec![CellValue::Int(1), value]]);
        let keys = vec![key("k", &["user_id"], "public", "users", &["id"])];
        let mut grid = DataGrid::new_table(rows, target(), table(keys), None, Engine::Postgres);
        assert!(grid.open_foreign_key_cell(0, 1).is_none());
        grid.edit_error().unwrap().to_string()
    };
    assert_eq!(
        of(CellValue::Bytes(vec![1])),
        "This foreign-key value type cannot be carried into a bounded table filter"
    );
    assert_eq!(
        of(CellValue::Float(FloatCell { text: "NaN".to_string(), finite: false })),
        "Non-finite foreign-key values cannot identify a referenced row"
    );
}

#[test]
fn labels_of_foreign_keys() {
    assert_eq!(foreign_key_label(&key("k", &[], "s", "t", &[])), "k → s.t");
    assert_eq!(foreign_key_label(&key(" ", &[], "", "t", &[])), "Open t");
}

fn labels(items: &[MenuItem]) -> Vec<&str> {
    items.iter().map(|item| item.label.as_str()).collect()
}

#[test]
fn menus_of_headers_and_cells() {
    let grid = orders(
        vec![key("fk", &["user_id"], "public", "users", &["id"])],
        Engine::Postgres,
    );
    assert_eq!(
        labels(&grid.header_context_menu(2)),
        vec!["Find Usages of user_id", "Find Usages of orders", "Copy column name"]
    );
    assert!(grid.header_context_menu(9).is_empty());
    let cell = grid.cell_context_menu(0, 2);
    assert_eq!(labels(&cell), vec!["Copy cell", "Open fk → public.users"]);
    assert!(matches!(&cell[0].action, MenuAction::Copy(text) if text == "10"));
    assert!(matches!(&cell[1].action, MenuAction::FollowKey { focus_column, .. } if focus_column == "id"));
    assert_eq!(
        labels(&grid.cell_context_menu(1, 2)),
        vec![
            "Copy cell",
            "Open fk → public.users (NULL foreign-key values do not identify a referenced row)"
        ]
    );
    assert_eq!(labels(&grid.cell_context_menu(0, 3)), vec!["Copy cell", "Generate new GUID"]);
}

#[test]
fn the_menu_of_a_row_names_the_selected_rows() {
    let mut grid = orders(vec![], Engine::Postgres);
    assert_eq!(
        labels(&grid.row_context_menu(0)),
        vec![
            "Copy row as CSV",
            "Copy row as TSV",
            "Copy row as JSON",
            "Copy row as SQL INSERT",
            "",
            "Delete row"
        ]
    );
    grid.set_selected_rows(&[1, 0, 1], Some(0));
    assert_eq!(grid.selected_rows(), vec![0, 1]);
    let menu = grid.row_context_menu(1);
    assert_eq!(menu[1].label, "Copy 2 rows as TSV");
    assert_eq!(menu[5].label, "Delete 2 rows");
    assert!(matches!(&menu[0].action, MenuAction::CopyRows { rows, format: ExportFormat::Csv, header: false } if rows == &vec![0, 1]));
    grid.add_row(none());
    assert_eq!(grid.row_context_menu(2)[5].label, "Cancel insert");
    let plain = DataGrid::new(order_rows());
    assert_eq!(
        labels(&plain.row_context_menu(0))[4..],
        ["", "Copy all rows as CSV", "Copy all rows as JSON", "Copy all rows as SQL INSERT"]
    );
}

#[test]
fn what_is_copied_has_the_pending_values() {
    let mut grid = orders(vec![], Engine::Postgres);
    grid.set_cell_value(0, 2, Some("77".to_string()));
    let floats: OrderedMap<(usize, usize), FloatCell> = OrderedMap::new();
    let region = grid.region(&[0, 9], 1, 3, false, &floats);
    assert_eq!(region.columns.len(), 2);
    assert_eq!(region.rows, vec![vec![CellValue::Bool(true), CellValue::Int(77)]]);
    let cells = grid.selected_region(CellRange::between(at(1, 3), at(0, 2)), &floats);
    assert_eq!(
        cells.rows,
        vec![
            vec![CellValue::Int(77), text("NULL")],
            vec![text("NULL"), CellValue::Uuid(7)]
        ]
    );
    let whole = orders(vec![], Engine::Postgres).region(&[0, 1], 0, 4, false, &floats);
    assert_eq!(whole.rows, order_rows().rows);
}

#[test]
fn copied_text_has_a_header_only_where_wanted() {
    let csv = "a,b\r\n1,2\r\n";
    assert_eq!(finish_copy(csv, ExportFormat::Csv, true), "a,b\r\n1,2");
    assert_eq!(finish_copy(csv, ExportFormat::Csv, false), "1,2");
    assert_eq!(finish_copy("a,b", ExportFormat::Tsv, false), "");
    assert_eq!(finish_copy("[1]\n", ExportFormat::Json, false), "[1]");
}

#[test]
fn looks_of_headers_rows_and_cells() {
    let mut grid = orders(
        vec![key("fk", &["user_id"], "public", "users", &["id"])],
        Engine::Postgres,
    );
    grid.set_display_preferences("∅".to_string(), true);
    let header = grid.header_look(0);
    assert_eq!(header.type_icon, "icons/type-key.svg");
    assert_eq!(header.type_tint, Tint::Warn);
    assert_eq!(header.type_label, "int8");
    assert!(!header.sorted);
    assert_eq!(header.sort_icon, "icons/sort-asc.svg");
    assert_eq!(grid.header_look(3).type_label, "uuid");
    assert_eq!(grid.frozen_columns(), 1);
    assert_eq!(grid.row_look(1).tint, Tint::PanelMuted);
    assert_eq!(grid.row_look(1).number, "2");
    let null = grid.cell_look(1, 2, None);
    assert_eq!(null.text, "∅");
    assert!(null.is_null);
    assert_eq!(null.link, LinkLook::Muted);
    assert_eq!(grid.cell_look(0, 2, None).link, LinkLook::Active);
    assert_eq!(grid.cell_look(0, 0, None).link, LinkLook::Absent);
    grid.set_cell_value(0, 2, Some("5".to_string()));
    let edited = grid.cell_look(0, 2, Some(CellRange::between(at(0, 2), at(0, 2))));
    assert!(edited.pending);
    assert_eq!(edited.background, Tint::UpdateSoft);
    grid.add_row(none());
    assert_eq!(grid.row_look(2).tint, Tint::InsertSoft);
}

#[test]
fn export_messages_are_kept() {
    let mut grid = DataGrid::new(order_rows());
    assert!(grid.export_message().is_none());
    grid.set_export_message(Some(Err("disk full".to_string())));
    assert_eq!(grid.export_message(), Some(&Err("disk full".to_string())));
}

#[test]
fn following_a_key_keeps_what_is_pending() {
    let mut grid = orders(
        vec![key("orders_user", &["user_id"], "public", "users", &["id"])],
        Engine::Postgres,
    );
    grid.set_cell_value(1, 1, Some("true".to_string()));
    assert_eq!(grid.pending_count(), 1);
    assert!(grid.open_foreign_key_cell(0, 2).is_some());
    assert!(grid.open_foreign_key_cell(1, 2).is_none());
    assert_eq!(grid.pending_count(), 1);
    assert_eq!(
        grid.editable().unwrap().display_value(1, 1),
        Some(Some("true".to_string()))
    );
}

#[test]
fn links_into_other_catalogs_are_known_to_be_dead() {
    let keys = || {
        vec![
            key("here", &["user_id"], "public", "users", &["id"]),
            key("there", &["ref"], "other", "refs", &["id"]),
        ]
    };
    let grid = orders(keys(), Engine::MySql);
    let editable = grid.editable().unwrap();
    assert_eq!(editable.foreign_key_columns(grid.result()), vec![2, 3]);
    assert_eq!(editable.foreign_key_unavailable_columns(grid.result()), vec![3]);
    assert_eq!(editable.table_name(), "orders");
    let options = grid.foreign_key_navigation_options(1, 3).unwrap();
    assert!(options.iter().all(|option| option.lookup.is_err()));
    let grid = orders(keys(), Engine::Postgres);
    assert!(grid
        .editable()
        .unwrap()
        .foreign_key_unavailable_columns(grid.result())
        .is_empty());
}

#[test]
fn a_composite_key_is_followed_with_all_its_columns() {
    let mut grid = orders(
        vec![key("pair", &["user_id", "id"], "public", "pairs", &["a", "b"])],
        Engine::Postgres,
    );
    match grid.open_foreign_key_cell(0, 2) {
        Some(DataGridEvent::NavigateForeignKey { lookup, .. }) => {
            assert_eq!(lookup.columns, vec!["a".to_string(), "b".to_string()]);
            assert_eq!(lookup.values, vec![CellValue::Int(10), CellValue::Int(1)]);
        }
        _ => panic!("not followed"),
    }
    assert!(grid.open_foreign_key_cell(1, 0).is_none());
    assert_eq!(
        grid.edit_error(),
        Some("NULL foreign-key values do not identify a referenced row")
    );
}

#[test]
fn set_widths_follow_their_column() {
    let mut grid = orders(vec![], Engine::Postgres);
    assert!(!grid.width_kept(1));
    grid.keep_width(1);
    assert!(grid.width_kept(1));
    grid.move_column(1, 3, none());
    assert!(grid.width_kept(3));
    assert!(!grid.width_kept(1));
}

#[test]
fn a_gesture_leaves_cells_selected() {
    let mut grid = orders(vec![], Engine::Postgres);
    grid.set_selection(Some(at(1, 2)), Some(at(0, 1)), true);
    assert_eq!(grid.selection(), Some(at(1, 2)));
}
