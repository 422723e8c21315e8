use cellar::binding::{mysql_binding, sql_server_binding, BoundValue};
use cellar::engine::CellarError;
use cellar::ordered_map::OrderedMap;
use cellar::paging::{described_columns, Pager, RowAction};
use cellar::query::{NoticeCapture, QueryResult, QueryResultPage};
use cellar::sql_server::{
    database_switch, parse_numeric, session_outcome, ScaledNumber, SessionOutcome,
};
use cellar::sqlite_schema::{
    assemble_columns, assemble_foreign_keys, assemble_indexes, assemble_tree, parent_tables,
    ForeignKeyRow, IndexRow, MasterObject, TableInfoRow,
};
use cellar::value::{CellValue, ColumnMeta};

fn meta(name: &str) -> ColumnMeta {
    ColumnMeta { name: name.to_string(), data_type: "int".to_string(), nullable: true }
}

/// Reads `total` rows, numbered from 0, and returns what a driver would report.
fn read(pager: &mut Pager, total: i64) -> Vec<QueryResultPage> {
    let mut pages = Vec::new();
    for n in 0..total {
        if pager.needs_columns() {
            pager.set_columns(vec![meta("n")]);
        }
        match pager.next_row() {
            RowAction::Skip => {}
            RowAction::Stop => break,
            RowAction::Take => {
                if let Some(page) = pager.take_row(vec![CellValue::Int(n)]) {
                    pages.push(page);
                }
            }
        }
    }
    pages
}

fn numbers(pages: &[QueryResultPage]) -> Vec<i64> {
    let mut out = Vec::new();
    for page in pages {
        for row in &page.rows {
            if let CellValue::Int(n) = row[0] {
                out.push(n);
            }
        }
    }
    out
}

#[test]
fn the_window_is_taken_page_by_page() {
    let mut pager = Pager::new(5, 2, 2);
    let mut pages = read(&mut pager, 20);
    let (last, columns, summary) = pager.finish_mysql(4);
    pages.extend(last);
    assert_eq!(numbers(&pages), vec![2, 3, 4, 5, 6]);
    assert_eq!(pages.iter().map(|p| p.offset).collect::<Vec<_>>(), vec![0, 2, 4]);
    assert_eq!(columns, vec![meta("n")]);
    assert!(summary.truncated);
    assert_eq!(summary.row_count, 5);
    assert_eq!(summary.duration_ms, 4);
    let result = QueryResult::of_pages(columns, pages, summary);
    assert_eq!(result.rows.len(), 5);
}

#[test]
fn a_window_that_ends_with_the_rows_is_not_truncated() {
    let mut pager = Pager::new(3, 0, 10);
    assert!(read(&mut pager, 3).is_empty());
    let (last, _, summary) = pager.finish_sql_server(1);
    assert_eq!(numbers(&[last.unwrap()]), vec![0, 1, 2]);
    assert!(!summary.truncated);
    assert!(matches!(
        summary.notice_capture,
        NoticeCapture::Unsupported(why) if why.starts_with("SQL Server informational")
    ));
}

#[test]
fn a_result_without_rows_has_one_empty_page() {
    let mut pager = Pager::new(3, 0, 10);
    assert!(pager.needs_description(true));
    pager.set_description(vec![meta("n")]);
    assert!(!pager.needs_description(true));
    let (last, columns, summary) = pager.finish_mysql(0);
    let page = last.unwrap();
    assert!(page.rows.is_empty());
    assert_eq!(page.offset, 0);
    assert_eq!(columns.len(), 1);
    assert_eq!(summary.rows_affected, None);
}

#[test]
fn affected_rows_are_reported_without_a_result_set_only() {
    let mut pager = Pager::new(3, 0, 10);
    pager.command_done(2);
    pager.command_done(5);
    let (page, columns, summary) = pager.finish_mysql(0);
    assert!(page.is_none());
    assert!(columns.is_empty());
    assert_eq!(summary.rows_affected, Some(7));
    let mut pager = Pager::new(3, 0, 10);
    read(&mut pager, 1);
    pager.command_done(1);
    assert_eq!(pager.finish_mysql(0).2.rows_affected, None);
}

#[test]
fn a_page_holds_at_least_one_row() {
    let mut pager = Pager::new(2, 0, 0);
    let pages = read(&mut pager, 2);
    assert_eq!(pages.len(), 2);
    assert!(pager.finish_mysql(0).0.is_none());
}

#[test]
fn described_types_are_lower_case() {
    let columns = described_columns(&[("Id".to_string(), "BIGINT Ä".to_string())]);
    assert_eq!(columns[0].name, "Id");
    assert_eq!(columns[0].data_type, "bigint ä");
    assert!(columns[0].nullable);
}

#[test]
fn decimals_are_bound_with_their_scale() {
    assert_eq!(parse_numeric(" -12.50 ").unwrap(), ScaledNumber { value: -1250, scale: 2 });
    assert_eq!(parse_numeric("+7").unwrap(), ScaledNumber { value: 7, scale: 0 });
    assert_eq!(parse_numeric(".5").unwrap(), ScaledNumber { value: 5, scale: 1 });
    assert_eq!(
        parse_numeric("-1e3").unwrap_err(),
        CellarError::Query(
            "numeric foreign-key value `1e3` is not supported by SQL Server binding".to_string()
        )
    );
    assert_eq!(
        parse_numeric("1000000000000000000000000000000000000000").unwrap_err(),
        CellarError::Query(
            "numeric foreign-key value `1000000000000000000000000000000000000000` is out of range"
                .to_string()
        )
    );
}

#[test]
fn values_are_bound_as_the_engine_takes_them() {
    let number = CellValue::Numeric("1.5".to_string());
    assert!(matches!(mysql_binding(&number), BoundValue::Text(text) if text == "1.5"));
    assert!(matches!(
        sql_server_binding(&number),
        Ok(BoundValue::Decimal(ScaledNumber { value: 15, scale: 1 }))
    ));
    let json = CellValue::Json("{}".to_string());
    assert!(matches!(mysql_binding(&json), BoundValue::Json(_)));
    assert!(matches!(sql_server_binding(&json), Ok(BoundValue::Text(text)) if text == "{}"));
    assert!(sql_server_binding(&CellValue::Numeric("x".to_string())).is_err());
}

#[test]
fn a_query_in_another_database_switches_and_returns() {
    let switch = database_switch(Some("a]b"), "home").unwrap();
    assert_eq!(switch.enter, "USE [a]]b]");
    assert_eq!(switch.restore, "USE [home]");
    assert!(database_switch(Some("home"), "home").is_none());
    assert!(database_switch(Some(""), "home").is_none());
    assert!(database_switch(None, "home").is_none());
    assert!(matches!(session_outcome(Ok(3), None, "home"), SessionOutcome::Finished(Ok(3))));
    assert!(matches!(
        session_outcome(Ok(3), Some(Err("gone".to_string())), "home"),
        SessionOutcome::Invalidated(message)
            if message == "could not restore database [home] after parameterized query: gone"
    ));
}

fn info(cid: i64, name: &str, pk: i64) -> TableInfoRow {
    TableInfoRow {
        cid,
        name: name.to_string(),
        data_type: "TEXT".to_string(),
        notnull: pk.min(1),
        default: None,
        pk,
    }
}

#[test]
fn sqlite_keys_are_in_key_order() {
    let (columns, key) = assemble_columns(vec![info(0, "a", 2), info(1, "b", 0), info(2, "c", 1)]);
    assert_eq!(key, vec!["c".to_string(), "a".to_string()]);
    assert_eq!(columns[0].data_type, "text");
    assert_eq!(columns[2].ordinal, 3);
    assert!(!columns[0].nullable);
    assert!(columns[1].nullable);
}

fn reference(id: i64, seq: i64, table: &str, from: &str, to: Option<&str>) -> ForeignKeyRow {
    ForeignKeyRow {
        id,
        seq,
        table: table.to_string(),
        from: from.to_string(),
        to: to.map(|t| t.to_string()),
    }
}

#[test]
fn sqlite_foreign_keys_find_the_key_of_the_parent() {
    let rows = vec![
        reference(0, 0, "pairs", "x", None),
        reference(0, 1, "pairs", "y", Some("")),
        reference(1, 0, "users", "u", Some("id")),
        reference(2, 0, "gone", "g", None),
    ];
    assert_eq!(parent_tables(&rows), vec!["pairs".to_string(), "gone".to_string()]);
    let mut parents: OrderedMap<String, Vec<String>> = OrderedMap::new();
    parents.insert("pairs".to_string(), vec!["k1".to_string(), "k2".to_string()]);
    parents.insert("gone".to_string(), vec![]);
    let keys = assemble_foreign_keys("t", &rows, &parents);
    assert_eq!(keys.len(), 3);
    assert_eq!(keys[0].name, "t_fk_0");
    assert_eq!(keys[0].columns, vec!["x".to_string(), "y".to_string()]);
    assert_eq!(keys[0].referenced_columns, vec!["k1".to_string(), "k2".to_string()]);
    assert_eq!(keys[1].referenced_columns, vec!["id".to_string()]);
    assert!(keys[2].referenced_columns.is_empty());
}

#[test]
fn sqlite_rowid_keys_have_an_index_too() {
    let key = vec!["id".to_string()];
    let rows = vec![IndexRow {
        name: "i".to_string(),
        unique: 1,
        origin: "c".to_string(),
        columns: vec![Some("a".to_string()), None],
    }];
    let indexes = assemble_indexes("t", &rows, &key);
    assert_eq!(indexes[0].columns, vec!["a".to_string()]);
    assert!(indexes[0].unique && !indexes[0].primary);
    assert_eq!(indexes[1].name, "t_pk");
    assert!(indexes[1].primary);
    assert!(assemble_indexes("t", &[], &[]).is_empty());
}

#[test]
fn the_sqlite_tree_has_tables_and_views() {
    let object = |name: &str, kind: &str| {
        let (columns, primary_key) = assemble_columns(vec![info(0, "id", 1)]);
        MasterObject {
            name: name.to_string(),
            kind: kind.to_string(),
            sql: Some("sql".to_string()),
            columns,
            primary_key,
            foreign_keys: vec![],
            indexes: vec![],
        }
    };
    let tree = assemble_tree(vec![object("t", "table"), object("v", "view")]);
    assert_eq!(tree.len(), 1);
    assert_eq!(tree[0].name, "main");
    assert!(tree[0].is_default);
    let schema = &tree[0].schemas[0];
    assert_eq!(schema.tables[0].name, "t");
    assert!(schema.tables[0].columns[0].is_primary_key);
    assert_eq!(schema.views[0].definition.as_deref(), Some("sql"));
    assert!(!schema.views[0].columns[0].is_primary_key);
}
