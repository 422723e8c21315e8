use cellar::browse::{SortDirection, TableFilterClause, TableFilterOperator};
use cellar::connection::{ConnectionConfig, EnvTag};
use cellar::engine::Engine;
use cellar::model::{AppModel, ConnectionState, SplitOrientation, TABLE_METADATA_UNAVAILABLE};
use cellar::query::{NoticeCapture, QueryResult};
use cellar::schema::{Column, Database, Schema, Table};
use cellar::schema_node::SchemaNode;
use cellar::sidebar::{
    click_connection, connection_count, connection_row, initial_panels, sidebar_notice,
    sidebar_query, PanelFlags, SidebarNotice, StateTint,
};
use cellar::table_workspace::{
    table_content, table_layout_key, TableContent, TableLoad, TableWorkspace,
};
use cellar::value::{CellValue, ColumnMeta};
use cellar::workspace_model::{
    ErDiagramState, ErDiagramTarget, QueryState, QueryTarget, SchemaCompareConfig,
    SchemaCompareSource, SchemaCompareState, TabKind, TableLoadState, TableLookupContext,
    TableTarget,
};

fn config(id: &str, name: &str) -> ConnectionConfig {
    ConnectionConfig {
        id: id.to_string(),
        name: name.to_string(),
        engine: Engine::Neon,
        database: "app".to_string(),
        env_tag: None,
        details: String::new(),
    }
}

fn column(name: &str, data_type: &str) -> Column {
    Column {
        name: name.to_string(),
        data_type: data_type.to_string(),
        nullable: true,
        default: None,
        is_primary_key: name == "id",
        ordinal: 1,
        comment: None,
    }
}

fn tree() -> Vec<Database> {
    let table = |name: &str| Table {
        name: name.to_string(),
        schema: "public".to_string(),
        row_count: None,
        columns: vec![column("id", "int8"), column("name", "text")],
        primary_key: vec!["id".to_string()],
        foreign_keys: vec![],
        indexes: vec![],
    };
    vec![Database {
        name: "app".to_string(),
        is_default: true,
        schemas: vec![Schema {
            name: "public".to_string(),
            tables: vec![table("users"), table("orders")],
            views: vec![],
        }],
    }]
}

fn target(table: &str) -> TableTarget {
    TableTarget {
        connection_id: "c".to_string(),
        database: "app".to_string(),
        schema: "public".to_string(),
        table: table.to_string(),
    }
}

fn connected() -> AppModel {
    let mut model = AppModel::new(vec![config("c", "main"), config("d", "other")]);
    assert!(model.begin_connect("c"));
    model.finish_connect("c", Ok(tree()));
    model
}

fn result(n: i64, total: Option<u64>) -> QueryResult {
    QueryResult {
        columns: vec![
            ColumnMeta { name: "id".to_string(), data_type: "int8".to_string(), nullable: false },
            ColumnMeta { name: "name".to_string(), data_type: "text".to_string(), nullable: true },
        ],
        rows: (0..n).map(|i| vec![CellValue::Int(i), CellValue::Text("x".to_string())]).collect(),
        notices: vec![],
        notice_capture: NoticeCapture::Supported,
        rows_affected: None,
        duration_ms: 5,
        truncated: false,
        total_rows: total,
    }
}

fn lookup(value: &str) -> TableLookupContext {
    TableLookupContext {
        filters: vec![TableFilterClause {
            column: "id".to_string(),
            operator: TableFilterOperator::Equals,
            value: Some(value.to_string()),
        }],
        focus_column: "name".to_string(),
    }
}

fn none() -> String {
    String::new()
}

// -- The model ---------------------------------------------------------

#[test]
fn connections_stay_sorted_by_name() {
    let mut model = AppModel::new(vec![config("b", "beta")]);
    model.upsert_connection(config("a", "alpha"));
    let names: Vec<&str> = model.connections().iter().map(|c| c.name.as_str()).collect();
    assert_eq!(names, vec!["alpha", "beta"]);
    assert_eq!(model.active_connection().unwrap().id, "a");
    model.remove_connection("a");
    assert_eq!(model.active_connection().unwrap().id, "b");
}

#[test]
fn a_connection_goes_up_and_down() {
    let mut model = AppModel::new(vec![config("c", "main")]);
    assert_eq!(*model.connection_state("c"), ConnectionState::Disconnected);
    assert!(model.begin_connect("c"));
    assert!(!model.begin_connect("c"));
    model.finish_connect("c", Err("refused".to_string()));
    assert_eq!(*model.connection_state("c"), ConnectionState::Error("refused".to_string()));
    assert!(model.begin_connect("c"));
    model.finish_connect("c", Ok(tree()));
    assert!(model.connection_state("c").is_ready());
    assert!(model.table_browse_ready(&target("users")));
    assert!(!model.table_browse_ready(&target("ghosts")));
    assert!(model.begin_disconnect("c"));
    model.finish_disconnect("c");
    assert_eq!(*model.connection_state("c"), ConnectionState::Disconnected);
}

#[test]
fn opening_a_table_again_finds_its_tab() {
    let mut model = connected();
    let (first, load) = model.open_table(target("users"));
    assert!(load);
    let (second, load) = model.open_table(target("orders"));
    assert!(load);
    assert_ne!(first, second);
    assert_eq!(model.open_table(target("users")), (first, false));
    assert_eq!(model.active_tab().unwrap().id, first);
    let (third, _) = model.open_table_with_lookup(target("users"), Some(lookup("1")));
    let (fourth, _) = model.open_table_with_lookup(target("users"), Some(lookup("2")));
    assert!(third != first && fourth != third);
    assert_eq!(model.open_table_with_lookup(target("users"), Some(lookup("1"))), (third, false));
    assert_eq!(model.tabs().len(), 4);
}

#[test]
fn an_overtaken_load_does_not_count() {
    let mut model = connected();
    let (tab, _) = model.open_table(target("users"));
    let early = model.next_table_load(tab);
    let late = model.next_table_load(tab);
    assert!(!model.finish_table_load(tab, early, Ok((3, None))));
    assert!(model.finish_table_load(tab, late, Ok((4, Some(9)))));
    assert_eq!(model.table_page(tab).unwrap().rows, 4);
    let next = model.next_table_load(tab);
    assert!(model.finish_table_load(tab, next, Ok((5, None))));
    assert_eq!(model.table_page(tab).unwrap().total_rows, Some(9));
}

#[test]
fn a_load_counts_until_a_later_one_of_its_tab_begins() {
    let mut model = connected();
    let (users, _) = model.open_table(target("users"));
    let (orders, _) = model.open_table(target("orders"));
    let first = model.next_table_load(users);
    for _ in 0..3 {
        let other = model.next_table_load(orders);
        assert!(model.finish_table_load(orders, other, Ok((1, None))));
    }
    assert!(model.finish_table_load(users, first, Err("lost".to_string())));
    for _ in 0..3 {
        model.next_table_load(users);
    }
    assert!(!model.finish_table_load(users, first, Ok((1, None))));
    let last = model.next_table_load(users);
    model.close_tab(users);
    assert!(!model.finish_table_load(users, last, Ok((1, None))));
}

#[test]
fn closing_a_tab_forgets_it() {
    let mut model = connected();
    let (a, _) = model.open_table(target("users"));
    let (b, _) = model.open_table_with_lookup(target("orders"), Some(lookup("1")));
    model.close_tab(b);
    assert_eq!(model.active_tab().unwrap().id, a);
    assert!(model.table_lookup_context(b).is_none());
    model.close_tab(a);
    assert!(model.active_tab().is_none());
}

#[test]
fn removing_a_connection_closes_its_tabs() {
    let mut model = connected();
    model.open_table(target("users"));
    let other = model.new_query(QueryTarget {
        connection_id: "d".to_string(),
        database: "x".to_string(),
    });
    model.remove_connection("c");
    assert_eq!(model.tabs().len(), 1);
    assert_eq!(model.tabs()[0].id, other);
    assert!(model.databases("c").is_empty());
}

#[test]
fn queries_run_and_report() {
    let mut model = connected();
    let tab = model.new_query(QueryTarget {
        connection_id: "c".to_string(),
        database: "app".to_string(),
    });
    assert!(model.begin_query(tab));
    assert!(!model.begin_query(tab));
    model.receive_query_page(tab, 20);
    assert!(matches!(
        &model.tabs()[0].kind,
        TabKind::Query { state: QueryState::Running { rows_received: 20 }, .. }
    ));
    model.finish_query(tab, Ok((25, 7)));
    assert!(matches!(
        &model.tabs()[0].kind,
        TabKind::Query { state: QueryState::Complete { rows_received: 25, duration_ms: 7 }, .. }
    ));
}

#[test]
fn a_query_moves_to_another_database() {
    let mut model = connected();
    let tab = model.new_query(QueryTarget {
        connection_id: "c".to_string(),
        database: "app".to_string(),
    });
    assert!(model.begin_query(tab));
    assert!(!model.set_query_database(tab, "app".to_string()));
    assert!(model.set_query_database(tab, "logs".to_string()));
    assert!(matches!(
        &model.tabs()[0].kind,
        TabKind::Query { target, state: QueryState::Editing } if target.database == "logs"
    ));
    assert!(!model.set_query_database(tab + 1, "logs".to_string()));
}

#[test]
fn a_connection_that_is_up_can_be_made_anew() {
    let mut model = connected();
    assert!(!model.begin_connect("c"));
    assert!(model.begin_reconnect("c"));
    assert!(!model.begin_reconnect("c"));
    assert_eq!(*model.connection_state("c"), ConnectionState::Connecting);
    assert!(!model.begin_reconnect("ghost"));
}

#[test]
fn diagrams_and_comparisons_have_one_tab_each() {
    let mut model = connected();
    let diagram = || ErDiagramTarget {
        connection_id: "c".to_string(),
        database: "app".to_string(),
        schemas: None,
    };
    let (tab, new) = model.open_er_diagram(diagram());
    assert!(new);
    assert_eq!(model.open_er_diagram(diagram()), (tab, false));
    model.finish_er_diagram(tab, Ok(3));
    assert!(matches!(
        &model.tabs()[0].kind,
        TabKind::ErDiagram { state: ErDiagramState::Ready(3), .. }
    ));
    model.start_er_diagram(tab);
    assert!(matches!(
        &model.tabs()[0].kind,
        TabKind::ErDiagram { state: ErDiagramState::Loading, .. }
    ));
    let live = |schema: &str| SchemaCompareSource::Live {
        connection_id: "c".to_string(),
        database: "app".to_string(),
        schema: schema.to_string(),
        label: None,
    };
    let compare = || SchemaCompareConfig { source: live("a"), target: live("b") };
    let (tab, new) = model.open_schema_compare(compare());
    assert!(new);
    assert!(!model.open_schema_compare(compare()).1);
    model.finish_schema_compare(tab, Err("lost".to_string()));
    assert!(matches!(
        &model.tabs()[1].kind,
        TabKind::SchemaCompare { state: SchemaCompareState::Error(why), .. } if why == "lost"
    ));
    model.start_schema_compare(tab);
    assert!(matches!(
        &model.tabs()[1].kind,
        TabKind::SchemaCompare { state: SchemaCompareState::Loading, .. }
    ));
    assert!(live("a").references_connection("c"));
    assert_eq!(live("a").live_connection_id(), Some("c"));
    assert_eq!(live("a").schema(), "a");
    assert_eq!(live("a").database(), Some("app"));
}

#[test]
fn folders_of_a_table_are_open_until_they_are_closed() {
    let mut model = connected();
    let folder = || SchemaNode::relation_group(&target("users"), "columns");
    let table = || SchemaNode::relation(&target("users"));
    assert!(model.node_expanded(&folder()));
    assert!(!model.node_expanded(&table()));
    model.toggle_node(folder());
    model.toggle_node(table());
    assert!(!model.node_expanded(&folder()));
    assert!(model.node_expanded(&table()));
    model.toggle_node(folder());
    assert!(model.node_expanded(&folder()));
}

#[test]
fn the_split_is_kept() {
    let mut model = connected();
    assert_eq!(model.split(), None);
    model.set_split(Some(SplitOrientation::Vertical));
    assert_eq!(model.split(), Some(SplitOrientation::Vertical));
}

// -- The tables that are open ------------------------------------------

fn workspace() -> TableWorkspace {
    TableWorkspace::new(connected())
}

fn open(workspace: &mut TableWorkspace, context: Option<TableLookupContext>) -> (u64, TableLoad) {
    let (tab, load) = workspace.open_table_with_lookup(
        target("users"),
        context,
        &[false, true],
        TableFilterOperator::GreaterThan,
    );
    (tab, load.unwrap())
}

#[test]
fn a_table_is_opened_and_its_first_page_shown() {
    let mut workspace = workspace();
    workspace.set_display_preferences("∅".to_string(), true);
    let (tab, load) = open(&mut workspace, None);
    let request = load.request(None);
    assert_eq!(request.database.as_deref(), Some("app"));
    assert_eq!((request.limit, request.offset), (Some(500), Some(0)));
    assert!(request.include_total && request.primary_key_fallback_ordering);
    assert!(request.filters.is_empty() && request.sorts.is_empty());
    assert!(workspace.grid(tab).is_none());
    assert_eq!(workspace.finish_load(load, Ok(result(2, Some(2)))), Some(true));
    let grid = workspace.grid(tab).unwrap();
    assert_eq!(grid.null_display(), "∅");
    assert_eq!(grid.result().rows.len(), 2);
    assert_eq!(workspace.model().table_page(tab).unwrap().total_rows, Some(2));
    let load = workspace.reload_table(tab, none()).unwrap();
    assert!(!load.include_total);
    assert_eq!(workspace.finish_load(load, Ok(result(1, None))), Some(false));
}

#[test]
fn overtaken_and_failed_loads() {
    let mut workspace = workspace();
    let (tab, early) = open(&mut workspace, None);
    let late = workspace.restart_table(tab).unwrap();
    assert_eq!(workspace.finish_load(early, Ok(result(9, None))), None);
    assert!(workspace.grid(tab).is_none());
    assert_eq!(workspace.finish_load(late, Err("gone".to_string())), None);
    assert!(matches!(
        &workspace.model().tabs()[0].kind,
        TabKind::Table { state: TableLoadState::Error(why), .. } if why == "gone"
    ));
}

#[test]
fn pages_are_turned_while_there_are_any() {
    let mut workspace = workspace();
    let (tab, load) = open(&mut workspace, None);
    workspace.finish_load(load, Ok(result(500, Some(620))));
    assert!(workspace.change_table_page(tab, false, none()).is_none());
    workspace.put_back(tab);
    let load = workspace.change_table_page(tab, true, none()).unwrap();
    assert_eq!(load.page.offset, 500);
    workspace.finish_load(load, Ok(result(120, None)));
    assert!(workspace.change_table_page(tab, true, none()).is_none());
    workspace.put_back(tab);
    let load = workspace.change_table_page(tab, false, none()).unwrap();
    assert_eq!(load.page.offset, 0);
}

#[test]
fn pending_edits_hold_a_reload_back() {
    let mut workspace = workspace();
    let (tab, load) = open(&mut workspace, None);
    workspace.finish_load(load, Ok(result(2, None)));
    let mut grid = workspace.take_grid(tab).unwrap();
    grid.set_cell_value(0, 1, Some("new".to_string()));
    workspace.put_grid(tab, grid);
    assert!(workspace.reload_table(tab, none()).is_none());
    assert!(workspace.change_table_sort(tab, "name".to_string(), None, none()).is_none());
    assert_eq!(workspace.grid(tab).unwrap().pending_count(), 1);
}

#[test]
fn sorting_starts_at_the_first_row() {
    let mut workspace = workspace();
    let (tab, load) = open(&mut workspace, None);
    workspace.finish_load(load, Ok(result(2, None)));
    let load = workspace
        .change_table_sort(tab, "name".to_string(), Some(SortDirection::Asc), none())
        .unwrap();
    assert_eq!(load.request(None).sorts[0].column, "name");
    workspace.finish_load(load, Ok(result(2, None)));
    assert_eq!(workspace.grid(tab).unwrap().sort(), Some((1, SortDirection::Asc)));
    let load = workspace.toggle_toolbar_sort_direction(tab, none()).unwrap();
    assert_eq!(load.sort.as_ref().unwrap().direction, SortDirection::Desc);
    workspace.finish_load(load, Ok(result(2, None)));
    let load = workspace.change_table_sort(tab, "name".to_string(), None, none()).unwrap();
    assert!(load.sort.is_none());
    assert!(workspace.toggle_toolbar_sort_direction(tab, none()).is_none());
}

#[test]
fn a_lookup_keeps_its_predicates_whatever_is_filtered() {
    let mut workspace = workspace();
    let (tab, load) = open(&mut workspace, Some(lookup("7")));
    assert!(!load.include_total);
    assert_eq!(workspace.finish_load(load, Ok(result(1, None))), Some(true));
    assert_eq!(
        workspace.grid(tab).unwrap().selection().map(|p| (p.row, p.column)),
        Some((0, 1))
    );
    let load = workspace
        .apply_table_filter(tab, Some(" 5 ".to_string()), TableFilterOperator::Equals, none())
        .unwrap();
    assert_eq!(load.filters.len(), 2);
    assert_eq!(load.filters[0].value.as_deref(), Some("7"));
    assert_eq!(load.filters[1].operator, TableFilterOperator::GreaterThan);
    assert_eq!(load.filters[1].value.as_deref(), Some("5"));
    let quick = TableFilterClause {
        column: "name".to_string(),
        operator: TableFilterOperator::Contains,
        value: Some("a".to_string()),
    };
    let request = load.request(Some(quick));
    assert_eq!(request.filters.len(), 3);
    assert_eq!(request.filters[0].value.as_deref(), Some("7"));
    workspace.finish_load(load, Ok(result(1, None)));
    let load = workspace.clear_table_filter(tab, none()).unwrap();
    assert_eq!(load.filters.len(), 1);
    assert_eq!(load.filters[0].value.as_deref(), Some("7"));
}

#[test]
fn a_filter_replaces_the_one_on_its_column() {
    let mut workspace = workspace();
    let (tab, load) = open(&mut workspace, None);
    workspace.finish_load(load, Ok(result(1, None)));
    let apply = |workspace: &mut TableWorkspace, value: &str| {
        workspace.apply_table_filter(tab, Some(value.to_string()), TableFilterOperator::Equals, none())
    };
    let load = apply(&mut workspace, "1").unwrap();
    workspace.finish_load(load, Ok(result(1, None)));
    let load = apply(&mut workspace, "2").unwrap();
    assert_eq!(load.filters.len(), 1);
    assert_eq!(load.filters[0].value.as_deref(), Some("2"));
    workspace.finish_load(load, Ok(result(1, None)));
    assert!(apply(&mut workspace, "  ").is_none());
    workspace.put_back(tab);
    workspace.cycle_filter_operator(tab);
    let load = apply(&mut workspace, "3").unwrap();
    assert_eq!(load.filters.len(), 2);
    assert_eq!(load.filters[1].operator, TableFilterOperator::GreaterThanOrEqual);
    workspace.finish_load(load, Ok(result(1, None)));
    assert_eq!(workspace.edit_table_filter(tab, 0), Some("2".to_string()));
    assert_eq!(workspace.edit_table_filter(tab, 9), None);
    let load = workspace.remove_table_filter(tab, 0, none()).unwrap();
    assert!(load.filters.is_empty());
    workspace.finish_load(load, Ok(result(1, None)));
    assert!(workspace.remove_table_filter(tab, 0, none()).is_none());
}

#[test]
fn null_checks_need_no_value() {
    let mut workspace = workspace();
    let (tab, load) = open(&mut workspace, None);
    workspace.finish_load(load, Ok(result(1, None)));
    for _ in 0..4 {
        workspace.cycle_filter_operator(tab);
    }
    let load = workspace
        .apply_table_filter(tab, Some(none()), TableFilterOperator::Equals, none())
        .unwrap();
    assert_eq!(load.filters[0].operator, TableFilterOperator::IsNull);
    assert_eq!(load.filters[0].value, None);
}

#[test]
fn quick_filters_come_with_their_column() {
    let mut workspace = workspace();
    let (tab, load) = open(&mut workspace, None);
    assert!(load.quick_filter.is_none());
    workspace.finish_load(load, Ok(result(1, None)));
    workspace.set_quick_filter(tab, Some("ann".to_string()), 1);
    let load = workspace.restart_table(tab).unwrap();
    assert_eq!(load.quick_filter, Some(("ann".to_string(), 1)));
    workspace.set_quick_filter(tab, None, 1);
    assert!(workspace.restart_table(tab).unwrap().quick_filter.is_none());
    workspace.open_table_filter(tab);
}

#[test]
fn tables_that_were_opened_too_early_wait_for_the_connection() {
    let mut workspace = TableWorkspace::new(AppModel::new(vec![config("c", "main")]));
    let (tab, load) = workspace.open_table_with_lookup(
        target("users"),
        None,
        &[],
        TableFilterOperator::Equals,
    );
    assert!(load.is_none());
    assert_eq!(workspace.resume_table_loads("c").len(), 1);
    assert!(workspace.restart_table(tab).is_none());
    assert!(matches!(
        &workspace.model().tabs()[0].kind,
        TabKind::Table { state: TableLoadState::Error(why), .. } if why == TABLE_METADATA_UNAVAILABLE
    ));
    let waiting = workspace.resume_table_loads("c");
    assert_eq!(waiting.len(), 1);
    assert_eq!(waiting[0].0, tab);
    assert!(workspace.resume_table_loads("d").is_empty());
    workspace.set_model(connected());
    assert!(workspace.resume_table_loads("c").is_empty());
}

#[test]
fn what_a_tab_shows() {
    let users = target("users");
    assert!(matches!(
        table_content(&users, &TableLoadState::Loading, false),
        TableContent::Loading(text) if text == "Loading public.users…"
    ));
    assert!(matches!(
        table_content(&users, &TableLoadState::Loading, true),
        TableContent::Grid { reloading: true }
    ));
    assert!(matches!(
        table_content(&users, &TableLoadState::Loaded, true),
        TableContent::Grid { reloading: false }
    ));
    assert!(matches!(
        table_content(&users, &TableLoadState::Loaded, false),
        TableContent::Unavailable("Grid state is unavailable")
    ));
    assert!(matches!(
        table_content(&users, &TableLoadState::Error(none()), true),
        TableContent::Failed("Table load failed. See Messages for details.")
    ));
    assert_eq!(table_layout_key(&users), "c::app.public.users");
}

trait PutBack {
    fn put_back(&mut self, tab: u64);
}

impl PutBack for TableWorkspace {
    /// Swaps in a fresh grid, as a finished load does.
    fn put_back(&mut self, tab: u64) {
        let page = self.model().table_page(tab).unwrap();
        let load = self.start_table_load(tab, target("users"), page).unwrap();
        let rows = i64::from(page.rows);
        self.finish_load(load, Ok(result(rows, None)));
    }
}

// -- The sidebar -------------------------------------------------------

#[test]
fn rows_of_connections() {
    let mut model = connected();
    let mut production = config("c", "main");
    production.env_tag = Some(EnvTag::Prod);
    let row = connection_row(&model, &production, true);
    assert_eq!(row.state, StateTint::Insert);
    assert!(row.production);
    assert_eq!(row.icon, "icons/chevron-down.svg");
    let other = connection_row(&model, &config("d", "other"), false);
    assert_eq!(other.state, StateTint::Disabled);
    assert_eq!(other.icon, "icons/chevron-right.svg");
    assert_eq!(connection_count(&model), "2");
    let was = model.connection_expanded("d");
    assert_eq!(click_connection(&mut model, "d"), !was);
    assert_eq!(model.active_connection().unwrap().id, "d");
    click_connection(&mut model, "d");
    assert_eq!(model.connection_expanded("d"), was);
    assert!(!click_connection(&mut model, "ghost"));
}

#[test]
fn notices_of_the_sidebar() {
    assert_eq!(sidebar_query("  MäIN "), "mäin");
    assert_eq!(sidebar_notice("x", &[]), SidebarNotice::NoConnections);
    assert_eq!(sidebar_notice("x", &[false, false]), SidebarNotice::NoMatches);
    assert_eq!(sidebar_notice("x", &[false, true]), SidebarNotice::Nothing);
    assert_eq!(sidebar_notice("", &[false]), SidebarNotice::Nothing);
    let shown = PanelFlags { left: false, right: true, bottom: true };
    assert_eq!(initial_panels(Some(shown)), shown);
    assert_eq!(
        initial_panels(None),
        PanelFlags { left: true, right: false, bottom: false }
    );
}
