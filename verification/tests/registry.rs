use cellar::browse::TableBrowseRequest;
use cellar::connection::ConnectionConfig;
use cellar::engine::{CellarError, Engine};
use cellar::foreign_key::{
    check_lookup_request, navigation_outcome, plan_lookup, plan_navigation,
    ForeignKeyLookupRequest,
};
use cellar::model::AppModel;
use cellar::query::{NoticeCapture, QueryResult};
use cellar::registry::{
    browse_can_break, database_in, list_to_write, next_save_step, schema_in, secret_error,
    ConnectionRegistry, IntrospectStep, SaveStep,
};
use cellar::schema::{Column, Database, Schema, Table};
use cellar::value::{CellValue, FloatCell};
use cellar::workspace_model::TableTarget;

fn config(id: &str, name: &str, engine: Engine) -> ConnectionConfig {
    ConnectionConfig {
        id: id.to_string(),
        name: name.to_string(),
        engine,
        database: "home".to_string(),
        env_tag: None,
        details: String::new(),
    }
}

fn registry() -> ConnectionRegistry<String> {
    ConnectionRegistry::new(vec![
        config("p", "zebra", Engine::Neon),
        config("m", "apple", Engine::MySql),
        config("s", "mango", Engine::Mssql),
    ])
}

fn column(name: &str) -> Column {
    Column {
        name: name.to_string(),
        data_type: "int8".to_string(),
        nullable: true,
        default: None,
        is_primary_key: false,
        ordinal: 1,
        comment: None,
    }
}

fn tree() -> Vec<Database> {
    vec![Database {
        name: "app".to_string(),
        is_default: true,
        schemas: vec![Schema {
            name: "public".to_string(),
            tables: vec![Table {
                name: "users".to_string(),
                schema: "public".to_string(),
                row_count: None,
                columns: vec![column("id"), column("org")],
                primary_key: vec!["id".to_string()],
                foreign_keys: vec![],
                indexes: vec![],
            }],
            views: vec![],
        }],
    }]
}

#[test]
fn saved_connections_are_listed_by_name() {
    let registry = registry();
    let names: Vec<String> = registry.list().into_iter().map(|c| c.name).collect();
    assert_eq!(names, vec!["apple".to_string(), "mango".to_string(), "zebra".to_string()]);
}

#[test]
fn a_connection_without_an_id_is_not_saved() {
    let mut registry = registry();
    assert_eq!(
        registry.plan_save(&config("", "x", Engine::Sqlite)).err(),
        Some(CellarError::InvalidConfig("connection id is empty".to_string()))
    );
    let new = config("q", "new", Engine::Sqlite);
    assert_eq!(registry.plan_save(&new).unwrap().len(), 4);
    assert_eq!(registry.list().len(), 3);
    registry.commit_save(new);
    assert_eq!(registry.list().len(), 4);
    assert_eq!(registry.engine_for("q"), Some(Engine::Sqlite));
    assert_eq!(registry.config_for("q").unwrap().name, "new");
    assert_eq!(
        registry.config_for("none").err(),
        Some(CellarError::InvalidConfig("unknown connection none".to_string()))
    );
}

#[test]
fn deleting_closes_and_forgets() {
    let mut registry = registry();
    registry.install("p", config("p", "zebra", Engine::Neon), 7);
    registry.finish_introspect("p", tree());
    registry.store_usages("p", "home", vec!["v".to_string()]);
    assert_eq!(registry.plan_delete("p").len(), 2);
    let open = registry.commit_delete("p").unwrap();
    assert_eq!(open.connection, 7);
    assert!(registry.cached_schemas("p").is_none());
    assert!(registry.cached_usages("p", "home").is_none());
    assert_eq!(registry.engine_for("p"), None);
}

#[test]
fn the_first_connection_that_is_open_stays() {
    let mut registry = registry();
    assert_eq!(registry.install("p", config("p", "zebra", Engine::Neon), 1), None);
    assert_eq!(registry.install("p", config("p", "zebra", Engine::Neon), 2), Some(1));
    assert_eq!(registry.existing("p"), Some(1));
    assert!(registry.remove_open_if_same("p", 2).is_none());
    assert_eq!(registry.remove_open_if_same("p", 1).unwrap().connection, 1);
    assert_eq!(registry.existing("p"), None);
}

#[test]
fn introspection_is_cached_until_it_is_refreshed() {
    let mut registry = registry();
    assert_eq!(
        registry.begin_introspect("p", false).err(),
        Some(CellarError::NotConnected("no open connection for p".to_string()))
    );
    registry.install("p", config("p", "zebra", Engine::Neon), 1);
    assert!(matches!(
        registry.begin_introspect("p", false),
        Ok(IntrospectStep::Run { engine: Engine::Neon, connection: 1 })
    ));
    registry.finish_introspect("p", tree());
    registry.store_usages("p", "home", vec![]);
    assert!(matches!(registry.begin_introspect("p", false), Ok(IntrospectStep::Cached)));
    assert!(registry.cached_usages("p", "home").is_some());
    assert!(matches!(registry.begin_introspect("p", true), Ok(IntrospectStep::Run { .. })));
    assert!(registry.cached_usages("p", "home").is_none());
}

#[test]
fn a_broken_connection_is_closed_with_its_caches() {
    let mut registry = registry();
    registry.install("m", config("m", "apple", Engine::MySql), 3);
    registry.finish_introspect("m", tree());
    assert!(registry.operation_failed("m", false).is_none());
    assert!(registry.cached_schemas("m").is_some());
    assert_eq!(registry.operation_failed("m", true).unwrap().connection, 3);
    assert!(registry.cached_schemas("m").is_none());
    assert!(registry.open_target("m").is_err());
}

#[test]
fn operations_are_offered_by_engine() {
    let mut registry = registry();
    registry.install("p", config("p", "zebra", Engine::Neon), 1);
    registry.install("m", config("m", "apple", Engine::MySql), 2);
    registry.install("s", config("s", "mango", Engine::Mssql), 3);
    assert!(registry.query_target("p", true).is_ok());
    assert!(registry.query_target("m", false).is_ok());
    assert_eq!(
        registry.query_target("m", true).err(),
        Some(CellarError::Query(
            "read-only AI query execution is not available for mysql yet".to_string()
        ))
    );
    assert_eq!(registry.commit_target("p").unwrap(), (Engine::Postgres, 1));
    assert_eq!(registry.commit_target("s").unwrap(), (Engine::Mssql, 3));
    assert_eq!(
        registry.commit_target("m").err(),
        Some(CellarError::InvalidConfig(
            "engine mysql does not support grid commits yet".to_string()
        ))
    );
    assert_eq!(
        registry.migration_target("s").err(),
        Some(CellarError::InvalidConfig(
            "engine mssql does not support schema migrations yet".to_string()
        ))
    );
    assert_eq!(
        registry.explain_target("s").err(),
        Some(CellarError::InvalidConfig(
            "execution plans are not available for mssql yet".to_string()
        ))
    );
    assert_eq!(
        registry.begin_find_usages("s", None).err(),
        Some(CellarError::InvalidConfig(
            "find usages is not available for mssql yet".to_string()
        ))
    );
    let step = registry.begin_find_usages("p", Some("  ")).unwrap();
    assert_eq!(step.database, "home");
    assert_eq!(step.fetch_from, Some(1));
    registry.store_usages("p", "home", vec![]);
    assert_eq!(registry.begin_find_usages("p", None).unwrap().fetch_from, None);
    assert!(browse_can_break(Engine::PlanetScale));
    assert!(!browse_can_break(Engine::Convex));
}

fn browse(database: Option<&str>) -> TableBrowseRequest {
    TableBrowseRequest {
        connection_id: "p".to_string(),
        database: database.map(|d| d.to_string()),
        schema: "public".to_string(),
        table: "users".to_string(),
        limit: None,
        offset: None,
        sorts: vec![],
        filters: vec![],
        primary_key_fallback_ordering: true,
        include_total: false,
    }
}

#[test]
fn a_browse_names_its_database_or_takes_the_connections() {
    let mut registry = registry();
    assert_eq!(registry.target_database_for(&browse(Some("x"))).unwrap(), "x");
    assert_eq!(
        registry.target_database_for(&browse(Some(" "))).err(),
        Some(CellarError::InvalidConfig("database name is empty".to_string()))
    );
    assert!(registry.target_database_for(&browse(None)).is_err());
    registry.install("p", config("p", "zebra", Engine::Neon), 1);
    assert_eq!(registry.target_database_for(&browse(None)).unwrap(), "home");
    let context = registry.history_context("p");
    assert_eq!(context.name.as_deref(), Some("zebra"));
    assert_eq!(context.database.as_deref(), Some("home"));
    assert_eq!(registry.history_context("none").name, None);
}

#[test]
fn schemas_and_databases_are_found_by_name() {
    let tree = tree();
    assert_eq!(schema_in(&tree, "p", "app", "public").unwrap().tables.len(), 1);
    assert_eq!(
        schema_in(&tree, "p", "app", "other").err(),
        Some(CellarError::InvalidConfig(
            "schema app.other was not found on connection p".to_string()
        ))
    );
    assert_eq!(database_in(&tree, "p", "app").unwrap().name, "app");
    assert_eq!(
        database_in(&tree, "p", "x").err(),
        Some(CellarError::InvalidConfig("database x was not found on connection p".to_string()))
    );
}

#[test]
fn a_failed_rollback_is_reported_with_its_cause() {
    let error = CellarError::Internal("locked".to_string());
    assert_eq!(
        secret_error(error.clone(), "locked", Err("disk full".to_string())),
        CellarError::Internal(
            "keychain update failed and connection metadata rollback failed: locked; disk full"
                .to_string()
        )
    );
    assert_eq!(secret_error(error.clone(), "locked", Ok(())), error);
}

/// The steps of a change whose steps have these outcomes.
fn steps(with_secret: bool, outcomes: &[bool]) -> Vec<SaveStep> {
    let mut all = vec![SaveStep::Write];
    for done in outcomes {
        all.push(next_save_step(*all.last().unwrap(), with_secret, *done));
    }
    all
}

#[test]
fn a_connection_is_saved_on_disk_before_its_secret_and_memory() {
    assert_eq!(
        steps(true, &[true, true]),
        vec![SaveStep::Write, SaveStep::StoreSecret, SaveStep::Commit]
    );
    assert_eq!(steps(false, &[true]), vec![SaveStep::Write, SaveStep::Commit]);
    assert_eq!(steps(true, &[false]), vec![SaveStep::Write, SaveStep::NotWritten]);
    assert_eq!(steps(false, &[false, true]).pop(), Some(SaveStep::NotWritten));
}

#[test]
fn a_secret_that_is_not_stored_rolls_the_list_back() {
    assert_eq!(
        steps(true, &[true, false, true]),
        vec![SaveStep::Write, SaveStep::StoreSecret, SaveStep::RollBack, SaveStep::RolledBack]
    );
    assert_eq!(steps(true, &[true, false, false]).pop(), Some(SaveStep::NotRolledBack));
    let registry = registry();
    let changed = registry.plan_save(&config("q", "new", Engine::Sqlite)).unwrap();
    let before = registry.list();
    assert_eq!(list_to_write(SaveStep::Write, &changed, &before), Some(changed.as_slice()));
    assert_eq!(list_to_write(SaveStep::RollBack, &changed, &before), Some(before.as_slice()));
    assert_eq!(list_to_write(SaveStep::StoreSecret, &changed, &before), None);
    assert_eq!(list_to_write(SaveStep::Commit, &changed, &before), None);
}

fn lookup(columns: &[&str], values: Vec<CellValue>) -> ForeignKeyLookupRequest {
    ForeignKeyLookupRequest {
        connection_id: "p".to_string(),
        database: "app".to_string(),
        schema: "public".to_string(),
        table: "users".to_string(),
        columns: columns.iter().map(|c| c.to_string()).collect(),
        values,
    }
}

#[test]
fn a_lookup_is_checked_before_it_runs() {
    let blank = ForeignKeyLookupRequest {
        table: " ".to_string(),
        ..lookup(&["id"], vec![CellValue::Int(1)])
    };
    assert_eq!(
        check_lookup_request(&blank).err(),
        Some(CellarError::InvalidConfig(
            "foreign-key lookup has an incomplete table identity".to_string()
        ))
    );
    assert_eq!(
        check_lookup_request(&lookup(&["id", "org"], vec![CellValue::Int(1)])).err(),
        Some(CellarError::InvalidConfig(
            "foreign-key lookup columns and values do not match".to_string()
        ))
    );
    assert_eq!(
        check_lookup_request(&lookup(&["id"], vec![CellValue::Null])).err(),
        Some(CellarError::Query("foreign-key lookup cannot use NULL values".to_string()))
    );
    assert!(check_lookup_request(&lookup(&["id"], vec![CellValue::Int(1)])).is_ok());
}

#[test]
fn a_lookup_is_a_bounded_query_with_bound_values() {
    let request = lookup(&["id", "org"], vec![CellValue::Int(1), CellValue::Int(2)]);
    let query = plan_lookup(&request, &tree(), Some(Engine::Neon)).unwrap();
    assert_eq!(
        query.sql,
        "SELECT * FROM \"public\".\"users\" WHERE \"id\" = :fk_0 AND \"org\" = :fk_1 LIMIT 2"
    );
    assert_eq!(query.params[1].name, "fk_1");
    assert_eq!(query.params[1].value, CellValue::Int(2));
    assert_eq!(query.max_rows, Some(2));
    assert_eq!(query.database.as_deref(), Some("app"));
    let mssql = plan_lookup(&request, &tree(), Some(Engine::Azure)).unwrap();
    assert_eq!(
        mssql.sql,
        "SELECT TOP (2) * FROM [public].[users] WHERE [id] = :fk_0 AND [org] = :fk_1"
    );
    assert_eq!(
        plan_lookup(&request, &[], Some(Engine::Neon)).err(),
        Some(CellarError::InvalidConfig(
            "referenced table app.public.users is not available in schema metadata".to_string()
        ))
    );
    assert_eq!(
        plan_lookup(&lookup(&["x"], vec![CellValue::Int(1)]), &tree(), Some(Engine::Neon)).err(),
        Some(CellarError::InvalidConfig(
            "referenced column users.x is not available in schema metadata".to_string()
        ))
    );
    assert_eq!(
        plan_lookup(&request, &tree(), None).err(),
        Some(CellarError::NotConnected(
            "no engine is known for connection p".to_string()
        ))
    );
    assert_eq!(
        plan_lookup(&request, &tree(), Some(Engine::Cosmos)).err(),
        Some(CellarError::Query(
            "foreign-key row navigation is unavailable for cosmos".to_string()
        ))
    );
}

fn model(engine: Engine) -> AppModel {
    let mut model = AppModel::new(vec![config("p", "zebra", engine)]);
    assert!(model.begin_connect("p"));
    model.finish_connect("p", Ok(tree()));
    model
}

fn source() -> TableTarget {
    TableTarget {
        connection_id: "p".to_string(),
        database: "app".to_string(),
        schema: "public".to_string(),
        table: "orders".to_string(),
    }
}

fn rows(n: usize, truncated: bool) -> QueryResult {
    QueryResult {
        columns: vec![],
        rows: (0..n).map(|_| vec![]).collect(),
        notices: vec![],
        notice_capture: NoticeCapture::Supported,
        rows_affected: None,
        duration_ms: 0,
        truncated,
        total_rows: None,
    }
}

#[test]
fn navigation_opens_the_referenced_row() {
    let request = lookup(&["id"], vec![CellValue::Uuid(1)]);
    let plan = plan_navigation(&model(Engine::Neon), &source(), &request).unwrap();
    assert_eq!(plan.destination.table, "users");
    assert_eq!(
        plan.filters[0].value.as_deref(),
        Some("00000000-0000-0000-0000-000000000001")
    );
    let (target, context) = navigation_outcome(plan, "id".to_string(), Ok(rows(1, false))).unwrap();
    assert_eq!(target.table, "users");
    assert_eq!(context.focus_column, "id");
    let again = || plan_navigation(&model(Engine::Neon), &source(), &request).unwrap();
    assert_eq!(
        navigation_outcome(again(), "id".to_string(), Ok(rows(0, false))).err().unwrap(),
        "No referenced row matches this foreign-key value"
    );
    assert_eq!(
        navigation_outcome(again(), "id".to_string(), Ok(rows(1, true))).err().unwrap(),
        "Multiple referenced rows match this foreign-key value; navigation is ambiguous"
    );
    assert_eq!(
        navigation_outcome(again(), "id".to_string(), Err("lost".to_string())).err().unwrap(),
        "lost"
    );
}

#[test]
fn navigation_stays_where_it_can_be_shown() {
    let request = lookup(&["id"], vec![CellValue::Int(1)]);
    let refusal = |model: AppModel, source: TableTarget, request: &ForeignKeyLookupRequest| {
        plan_navigation(&model, &source, request).err().unwrap()
    };
    let elsewhere = TableTarget { database: "other".to_string(), ..source() };
    assert_eq!(
        refusal(model(Engine::Neon), elsewhere, &request),
        "Foreign-key navigation must stay on the source connection and database"
    );
    let sibling = TableTarget { schema: "sales".to_string(), ..source() };
    assert_eq!(
        refusal(model(Engine::PlanetScale), sibling, &request),
        "Cross-catalog MySQL foreign-key navigation is unavailable; referenced catalog public is not loaded"
    );
    let unknown = ForeignKeyLookupRequest {
        table: "ghosts".to_string(),
        ..lookup(&["id"], vec![CellValue::Int(1)])
    };
    assert_eq!(
        refusal(model(Engine::Neon), source(), &unknown),
        "Referenced table metadata is unavailable; refresh the connection schema first"
    );
    let endless = FloatCell { text: "inf".to_string(), finite: false };
    assert_eq!(
        refusal(
            model(Engine::Neon),
            source(),
            &lookup(&["id"], vec![CellValue::Float(endless)])
        ),
        "This foreign-key value cannot be represented by the table filter"
    );
}
