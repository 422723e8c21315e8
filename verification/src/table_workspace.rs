//! The tables that are open: what is loaded of each, how it is filtered and
//! sorted, and its grid. Loads run outside; the workspace says what to load and
//! takes the result.
use vstd::prelude::*;

use crate::browse::{
    copy_filters, next_filter_operator, operator_after, operators_for, SortDirection,
    TableBrowseRequest, TableFilterClause, TableFilterOperator, TableSortClause,
};
use crate::connection::{find_connection, first_with_id, ConnectionConfig};
use crate::data_grid::{
    copy_capture, fresh, report_of, report_of_summary, DataGrid, DataGridView, ReportView,
};
use crate::editing::{column_from, locate_column, starts};
use crate::engine::Engine;
use crate::grid::CellPosition;
use crate::model::{
    find_tab, first_page, opens_table, tab_at, AppModel, ModelView, TABLE_METADATA_UNAVAILABLE,
};
use crate::ordered_map::OrderedMap;
use crate::query::{QueryResult, QueryResultSummary};
use crate::schema::{column_position, copy_texts, has_column, same_table, Column, Table};
use crate::text::{same_text, text_of, trim, trim_of};
use crate::value::{opt_text, row_values, ColumnMeta};
use crate::workspace_model::{
    TabKind, TableLoadState, TableLookupContext, TablePage, TableTarget, WorkspaceTab,
};

verus! {

/// The tables that are open.
pub struct TableWorkspace {
    model: AppModel,
    grids: OrderedMap<u64, DataGrid>,
    sorts: OrderedMap<u64, TableSortClause>,
    filters: OrderedMap<u64, Vec<TableFilterClause>>,
    filter_operators: OrderedMap<u64, TableFilterOperator>,
    filter_columns: OrderedMap<u64, usize>,
    filter_composers: OrderedMap<u64, ()>,
    quick_filters: OrderedMap<u64, String>,
    quick_filter_columns: OrderedMap<u64, usize>,
    summaries: OrderedMap<u64, QueryResultSummary>,
    last_metrics: Option<(u64, bool, u64)>,
    null_display: String,
    stripe_rows: bool,
}

/// What a load reported.
#[verifier::ext_equal]
pub struct SummaryView {
    pub report: ReportView,
    pub row_count: u64,
}

/// The model of [`TableWorkspace`].
#[verifier::ext_equal]
pub struct WorkspaceView {
    pub model: ModelView,
    pub grids: Map<u64, DataGridView>,
    pub sorts: Map<u64, TableSortClause>,
    pub filters: Map<u64, Seq<TableFilterClause>>,
    pub filter_operators: Map<u64, TableFilterOperator>,
    pub filter_columns: Map<u64, usize>,
    pub filter_composers: Set<u64>,
    pub quick_filters: Map<u64, Seq<char>>,
    pub quick_filter_columns: Map<u64, usize>,
    pub summaries: Map<u64, SummaryView>,
    pub last_metrics: Option<(u64, bool, u64)>,
    pub null_display: Seq<char>,
    pub stripe_rows: bool,
}

impl View for TableWorkspace {
    type V = WorkspaceView;

    closed spec fn view(&self) -> WorkspaceView {
        WorkspaceView {
            model: self.model@,
            grids: self.grids.map().map_values(|g: DataGrid| g@),
            sorts: self.sorts.map(),
            filters: self.filters.map().map_values(|f: Vec<TableFilterClause>| f@),
            filter_operators: self.filter_operators.map(),
            filter_columns: self.filter_columns.map(),
            filter_composers: self.filter_composers.map().dom(),
            quick_filters: self.quick_filters.map().map_values(|s: String| s@),
            quick_filter_columns: self.quick_filter_columns.map(),
            summaries: self.summaries.map().map_values(
                |s: QueryResultSummary|
                    SummaryView { report: report_of_summary(s), row_count: s.row_count },
            ),
            last_metrics: self.last_metrics,
            null_display: self.null_display@,
            stripe_rows: self.stripe_rows,
        }
    }
}

/// The workspace of a model that nothing is loaded in.
pub open spec fn empty_workspace(model: ModelView) -> WorkspaceView {
    WorkspaceView {
        model,
        grids: Map::empty(),
        sorts: Map::empty(),
        filters: Map::empty(),
        filter_operators: Map::empty(),
        filter_columns: Map::empty(),
        filter_composers: Set::empty(),
        quick_filters: Map::empty(),
        quick_filter_columns: Map::empty(),
        summaries: Map::empty(),
        last_metrics: None,
        null_display: "NULL"@,
        stripe_rows: false,
    }
}

// ---------------------------------------------------------------------
// Loads
// ---------------------------------------------------------------------
/// What to load for a tab.
pub struct TableLoad {
    pub tab_id: u64,
    pub generation: u64,
    pub target: TableTarget,
    pub table: Table,
    pub page: TablePage,
    pub sort: Option<TableSortClause>,
    /// The filters of the lookup context, then those of the user.
    pub filters: Vec<TableFilterClause>,
    /// The text of the quick filter and the column it is for.
    pub quick_filter: Option<(String, usize)>,
    pub include_total: bool,
}

pub open spec fn get<V>(map: Map<u64, V>, id: u64) -> Option<V> {
    if map.contains_key(id) {
        Some(map[id])
    } else {
        None
    }
}

impl WorkspaceView {
    /// The filters that the user set for a tab.
    pub open spec fn user_filters(self, id: u64) -> Seq<TableFilterClause> {
        if self.filters.contains_key(id) {
            self.filters[id]
        } else {
            Seq::empty()
        }
    }

    /// The filters of a load: those of the lookup context come first and are
    /// always there.
    pub open spec fn load_filters(self, id: u64) -> Seq<TableFilterClause> {
        if self.model.lookups.contains_key(id) {
            self.model.lookups[id].filters@ + self.user_filters(id)
        } else {
            self.user_filters(id)
        }
    }

    /// The text of the quick filter of a tab and the column it is for.
    pub open spec fn quick_filter(self, id: u64) -> Option<(Seq<char>, usize)> {
        if self.quick_filters.contains_key(id) {
            Some(
                (
                    self.quick_filters[id],
                    if self.quick_filter_columns.contains_key(id) {
                        self.quick_filter_columns[id]
                    } else {
                        0
                    },
                ),
            )
        } else {
            None
        }
    }

    /// Whether `load` is what to load for a tab.
    pub open spec fn is_load(
        self,
        load: TableLoad,
        id: u64,
        generation: u64,
        target: TableTarget,
        table: Table,
        page: TablePage,
    ) -> bool {
        &&& load.tab_id == id
        &&& load.generation == generation
        &&& load.target == target
        &&& same_table(load.table, table)
        &&& load.page == page
        &&& load.sort == get(self.sorts, id)
        &&& load.filters@ == self.load_filters(id)
        &&& quick_view(load.quick_filter) == self.quick_filter(id)
        &&& load.include_total == (page.total_rows is None && !self.model.lookups.contains_key(id))
    }

    /// The workspace in which one more load of a tab has begun.
    pub open spec fn loading(self, id: u64) -> WorkspaceView {
        WorkspaceView {
            summaries: self.summaries.remove(id),
            model: ModelView {
                generations: self.model.generations.insert(
                    id,
                    (self.model.generation_of(id) + 1) as u64,
                ),
                ..self.model
            },
            ..self
        }
    }
}

pub open spec fn quick_view(quick: Option<(String, usize)>) -> Option<(Seq<char>, usize)> {
    match quick {
        Some((text, column)) => Some((text@, column)),
        None => None,
    }
}

/// Whether a load ended with the error that says that the table is not known:
/// where its tab still shows a table, the tab shows the error.
pub open spec fn fails_unknown(was: WorkspaceView, now: WorkspaceView, id: u64) -> bool {
    match tab_at(was.model.tabs, id) {
        Some(at) => if was.model.tabs[at].kind is Table {
            exists|error: String| error@ == TABLE_METADATA_UNAVAILABLE@ && now == (WorkspaceView {
                model: #[trigger] was.model.with_loaded(at, Err(error)),
                ..was
            })
        } else {
            now == was
        },
        None => now == was,
    }
}

/// Whether a load of a tab was begun: what to load is returned, or the tab shows
/// that the table is not known.
pub open spec fn begins_load(
    was: WorkspaceView,
    now: WorkspaceView,
    id: u64,
    target: TableTarget,
    page: TablePage,
    r: Option<TableLoad>,
) -> bool {
    let generation = (was.model.generation_of(id) + 1) as u64;
    let next = was.loading(id);
    match was.model.table_of(target@) {
        Some(table) => r matches Some(load) && now == next && next.is_load(
            load,
            id,
            generation,
            target,
            table,
            page,
        ),
        None => r is None && fails_unknown(next, now, id),
    }
}

impl TableWorkspace {
    pub closed spec fn wf(self) -> bool {
        &&& self.model.wf()
        &&& self.grids.wf()
        &&& forall|id: u64| #[trigger]
            self.grids.map().contains_key(id) ==> self.grids.map()[id].wf()
        &&& self.sorts.wf()
        &&& self.filters.wf()
        &&& self.filter_operators.wf()
        &&& self.filter_columns.wf()
        &&& self.filter_composers.wf()
        &&& self.quick_filters.wf()
        &&& self.quick_filter_columns.wf()
        &&& self.summaries.wf()
    }

    /// The workspace of a model that nothing is loaded in.
    pub fn new(model: AppModel) -> (r: Self)
        requires
            model.wf(),
        ensures
            r.wf(),
            r@ == empty_workspace(model@),
    {
        let r = TableWorkspace {
            model,
            grids: OrderedMap::new(),
            sorts: OrderedMap::new(),
            filters: OrderedMap::new(),
            filter_operators: OrderedMap::new(),
            filter_columns: OrderedMap::new(),
            filter_composers: OrderedMap::new(),
            quick_filters: OrderedMap::new(),
            quick_filter_columns: OrderedMap::new(),
            summaries: OrderedMap::new(),
            last_metrics: None,
            null_display: "NULL".to_owned(),
            stripe_rows: false,
        };
        assert(r@ =~= empty_workspace(model@));
        r
    }

    pub fn model(&self) -> (r: &AppModel)
        requires
            self.wf(),
        ensures
            r@ == self@.model,
            r.wf(),
    {
        &self.model
    }

    /// Whether the rows of a tab may be read anew; its grid has the last word.
    pub fn table_reload_allowed(&mut self, tab_id: u64, text: String) -> (r: bool)
        requires
            old(self).wf(),
            old(self)@.can_ask(tab_id),
        ensures
            final(self).wf(),
            final(self)@ == old(self)@.asked(tab_id, text@),
            r == old(self)@.allows(tab_id, text@),
    {
        let ghost was = self@;
        let ghost typed = text@;
        match self.grids.remove(&tab_id) {
            Some(mut grid) => {
                assert(was.grids[tab_id] == grid@);
                let allowed = grid.prepare_for_reload(text);
                self.grids.insert(tab_id, grid);
                assert(self@.grids =~= was.grids.insert(tab_id, was.grids[tab_id].prepared(typed)));
                assert(self@ =~= was.asked(tab_id, typed));
                allowed
            },
            None => {
                assert(self@.grids =~= was.grids);
                assert(self@ =~= was);
                true
            },
        }
    }
}

impl WorkspaceView {
    /// Whether the grid of a tab can be asked: the cell that is being edited has
    /// a column.
    pub open spec fn can_ask(self, id: u64) -> bool {
        self.grids.contains_key(id) ==> self.grids[id].can_commit()
    }

    /// Whether the rows of a tab may be read anew.
    pub open spec fn allows(self, id: u64, text: Seq<char>) -> bool {
        self.grids.contains_key(id) ==> self.grids[id].prepared(text).reloading
    }

    /// The workspace after the grid of a tab was asked.
    pub open spec fn asked(self, id: u64, text: Seq<char>) -> WorkspaceView {
        if self.grids.contains_key(id) {
            WorkspaceView {
                grids: self.grids.insert(id, self.grids[id].prepared(text)),
                ..self
            }
        } else {
            self
        }
    }
}

/// The request of a load, with the clause that its quick filter stands for.
pub open spec fn is_request(
    r: TableBrowseRequest,
    load: TableLoad,
    quick: Option<TableFilterClause>,
) -> bool {
    &&& r.connection_id@ == load.target.connection_id@
    &&& opt_text(r.database) == Some(load.target.database@)
    &&& r.schema@ == load.target.schema@
    &&& r.table@ == load.target.table@
    &&& r.limit == Some(load.page.limit)
    &&& r.offset == Some(load.page.offset)
    &&& r.sorts@ == (match load.sort {
        Some(sort) => seq![sort],
        None => Seq::empty(),
    })
    &&& r.filters@ == (match quick {
        Some(clause) => load.filters@.push(clause),
        None => load.filters@,
    })
    &&& r.primary_key_fallback_ordering
    &&& r.include_total == load.include_total
}

impl TableLoad {
    /// The request of the load. `quick` is the clause that the quick filter
    /// stands for.
    pub fn request(&self, quick: Option<TableFilterClause>) -> (r: TableBrowseRequest)
        ensures
            is_request(r, *self, quick),
    {
        let mut filters = copy_filters(self.filters.as_slice());
        if let Some(clause) = quick {
            filters.push(clause);
        }
        let mut sorts: Vec<TableSortClause> = Vec::new();
        if let Some(sort) = &self.sort {
            sorts.push(sort.clone());
        }
        let r = TableBrowseRequest {
            connection_id: self.target.connection_id.clone(),
            database: Some(self.target.database.clone()),
            schema: self.target.schema.clone(),
            table: self.target.table.clone(),
            limit: Some(self.page.limit),
            offset: Some(self.page.offset),
            sorts,
            filters,
            primary_key_fallback_ordering: true,
            include_total: self.include_total,
        };
        assert(r.sorts@ =~= (match self.sort {
            Some(sort) => seq![sort],
            None => Seq::empty(),
        }));
        r
    }
}

impl TableWorkspace {
    /// Begins a load of a tab.
    pub fn start_table_load(&mut self, tab_id: u64, target: TableTarget, page: TablePage) -> (r:
        Option<TableLoad>)
        requires
            old(self).wf(),
            old(self)@.model.generation_of(tab_id) < u64::MAX,
        ensures
            final(self).wf(),
            begins_load(old(self)@, final(self)@, tab_id, target, page, r),
    {
        let ghost was = self@;
        let _ = self.summaries.remove(&tab_id);
        let generation: u64 = self.model.next_table_load(tab_id);
        proof {
            assert(self@.summaries =~= was.summaries.remove(tab_id));
            assert(self@ =~= was.loading(tab_id));
        }
        let table = match self.model.table(&target) {
            Some(table) => Some(table.clone()),
            None => None,
        };
        match table {
            Some(table) => Some(self.load_table(tab_id, generation, target, table, page)),
            None => {
                let error = TABLE_METADATA_UNAVAILABLE.to_owned();
                let ghost next = self@;
                let counted = self.model.finish_table_load(tab_id, generation, Err(error));
                proof {
                    if counted {
                        let at = tab_at(next.model.tabs, tab_id)->0;
                        assert(self@ =~= (WorkspaceView {
                            model: next.model.with_loaded(at, Err(error)),
                            ..next
                        }));
                    } else {
                        assert(self@ =~= next);
                    }
                }
                None
            },
        }
    }

    /// What to load for a tab.
    fn load_table(
        &self,
        tab_id: u64,
        generation: u64,
        target: TableTarget,
        table: Table,
        page: TablePage,
    ) -> (r: TableLoad)
        requires
            self.wf(),
        ensures
            self@.is_load(r, tab_id, generation, target, table, page),
            r.table == table,
    {
        let mut filters: Vec<TableFilterClause> = Vec::new();
        let lookup_browse = match self.model.table_lookup_context(tab_id) {
            Some(lookup) => {
                filters = copy_filters(lookup.filters.as_slice());
                true
            },
            None => false,
        };
        if let Some(list) = self.filters.get(&tab_id) {
            let mut own = copy_filters(list.as_slice());
            filters.append(&mut own);
        }
        assert(filters@ =~= self@.load_filters(tab_id));
        let quick_filter = match self.quick_filters.get(&tab_id) {
            Some(text) => {
                let column: usize = match self.quick_filter_columns.get(&tab_id) {
                    Some(column) => *column,
                    None => 0,
                };
                Some((text.clone(), column))
            },
            None => None,
        };
        let sort = match self.sorts.get(&tab_id) {
            Some(sort) => Some(sort.clone()),
            None => None,
        };
        TableLoad {
            tab_id,
            generation,
            target,
            table,
            page,
            sort,
            filters,
            quick_filter,
            include_total: page.total_rows.is_none() && !lookup_browse,
        }
    }
}

// ---------------------------------------------------------------------
// Reloading, paging and sorting
// ---------------------------------------------------------------------
/// Whether the rows of a tab are read anew, with `change` of its page. Where
/// `guarded`, a tab whose connection is not up is left loading.
pub open spec fn restarts(
    was: WorkspaceView,
    now: WorkspaceView,
    id: u64,
    change: spec_fn(TablePage) -> TablePage,
    guarded: bool,
    r: Option<TableLoad>,
) -> bool {
    match tab_at(was.model.tabs, id) {
        Some(at) => match was.model.tabs[at].kind {
            TabKind::Table { target, page, .. } => {
                let mid = WorkspaceView {
                    model: was.model.with_tab_kind(
                        at,
                        TabKind::Table {
                            target,
                            state: TableLoadState::Loading,
                            page: change(page),
                        },
                    ),
                    ..was
                };
                if guarded && !mid.model.browse_ready(target@) {
                    r is None && now == mid
                } else {
                    begins_load(mid, now, id, target, change(page), r)
                }
            },
            _ => r is None && now == was,
        },
        None => r is None && now == was,
    }
}

/// The page of a tab that shows a table.
pub open spec fn page_of(v: ModelView, id: u64) -> Option<TablePage> {
    match tab_at(v.tabs, id) {
        Some(at) => match v.tabs[at].kind {
            TabKind::Table { page, .. } => Some(page),
            _ => None,
        },
        None => None,
    }
}

/// Where the next or the previous page starts.
pub open spec fn turned(page: TablePage, next: bool) -> u32 {
    if next {
        if page.offset + page.limit > u32::MAX {
            u32::MAX
        } else {
            (page.offset + page.limit) as u32
        }
    } else if page.offset < page.limit {
        0
    } else {
        (page.offset - page.limit) as u32
    }
}

/// Whether there is a page to turn to.
pub open spec fn can_turn(page: TablePage, next: bool) -> bool {
    if next {
        page.next_exists()
    } else {
        page.previous_exists()
    }
}

impl WorkspaceView {
    /// The workspace with another order of a tab.
    pub open spec fn sorted(
        self,
        id: u64,
        column: String,
        direction: Option<SortDirection>,
    ) -> WorkspaceView {
        WorkspaceView {
            sorts: match direction {
                Some(direction) => self.sorts.insert(id, TableSortClause { column, direction }),
                None => self.sorts.remove(id),
            },
            ..self
        }
    }
}

/// Whether the order of a tab was changed and its rows are read anew from the
/// first on, if they may be.
pub open spec fn changes_sort(
    was: WorkspaceView,
    now: WorkspaceView,
    id: u64,
    column: String,
    direction: Option<SortDirection>,
    text: Seq<char>,
    r: Option<TableLoad>,
) -> bool {
    let asked = was.asked(id, text);
    if !was.allows(id, text) {
        r is None && now == asked
    } else {
        restarts(
            asked.sorted(id, column, direction),
            now,
            id,
            |page: TablePage| TablePage { offset: 0, ..page },
            false,
            r,
        )
    }
}

impl TableWorkspace {
    /// Reads the rows of a tab anew. A tab whose connection is not up yet is
    /// left loading; its rows are read once the connection is up.
    pub fn reload_table(&mut self, tab_id: u64, text: String) -> (r: Option<TableLoad>)
        requires
            old(self).wf(),
            old(self)@.can_ask(tab_id),
            old(self)@.model.generation_of(tab_id) < u64::MAX,
        ensures
            final(self).wf(),
            if !old(self)@.allows(tab_id, text@) {
                r is None && final(self)@ == old(self)@.asked(tab_id, text@)
            } else {
                restarts(
                    old(self)@.asked(tab_id, text@),
                    final(self)@,
                    tab_id,
                    |page: TablePage| page,
                    true,
                    r,
                )
            },
    {
        if !self.table_reload_allowed(tab_id, text) {
            return None;
        }
        let ghost asked = self@;
        match self.model.begin_table_load(tab_id, None) {
            Some((target, page)) => {
                let ghost mid = WorkspaceView { model: self.model@, ..asked };
                assert(self@ =~= mid);
                if !self.model.table_browse_ready(&target) {
                    return None;
                }
                self.start_table_load(tab_id, target, page)
            },
            None => {
                assert(self@ =~= asked);
                None
            },
        }
    }

    /// Turns to the next or the previous page of a tab.
    pub fn change_table_page(&mut self, tab_id: u64, next: bool, text: String) -> (r: Option<
        TableLoad,
    >)
        requires
            old(self).wf(),
            old(self)@.can_ask(tab_id),
            old(self)@.model.generation_of(tab_id) < u64::MAX,
        ensures
            final(self).wf(),
            ({
                let asked = old(self)@.asked(tab_id, text@);
                let shown = page_of(old(self)@.model, tab_id);
                if !old(self)@.allows(tab_id, text@) || shown is None || !can_turn(shown->0, next) {
                    r is None && final(self)@ == asked
                } else {
                    restarts(
                        asked,
                        final(self)@,
                        tab_id,
                        |page: TablePage| TablePage { offset: turned(shown->0, next), ..page },
                        false,
                        r,
                    )
                }
            }),
    {
        if !self.table_reload_allowed(tab_id, text) {
            return None;
        }
        let ghost asked = self@;
        let page = match self.model.table_page(tab_id) {
            Some(page) => page,
            None => return None,
        };
        if (next && !page.has_next()) || (!next && !page.has_previous()) {
            return None;
        }
        let offset: u32 = if next {
            page.offset.saturating_add(page.limit)
        } else {
            page.offset.saturating_sub(page.limit)
        };
        assert(offset == turned(page, next));
        match self.model.begin_table_load(tab_id, Some(offset)) {
            Some((target, page)) => {
                assert(self@ =~= (WorkspaceView { model: self.model@, ..asked }));
                self.start_table_load(tab_id, target, page)
            },
            None => {
                assert(self@ =~= asked);
                None
            },
        }
    }

    /// Sorts a tab by a column, or by none, and shows its first page.
    pub fn change_table_sort(
        &mut self,
        tab_id: u64,
        column: String,
        direction: Option<SortDirection>,
        text: String,
    ) -> (r: Option<TableLoad>)
        requires
            old(self).wf(),
            old(self)@.can_ask(tab_id),
            old(self)@.model.generation_of(tab_id) < u64::MAX,
        ensures
            final(self).wf(),
            changes_sort(old(self)@, final(self)@, tab_id, column, direction, text@, r),
    {
        if !self.table_reload_allowed(tab_id, text) {
            return None;
        }
        let ghost asked = self@;
        match direction {
            Some(direction) => {
                self.sorts.insert(tab_id, TableSortClause { column, direction });
            },
            None => {
                let _ = self.sorts.remove(&tab_id);
            },
        }
        let ghost sorted = asked.sorted(tab_id, column, direction);
        assert(self@ =~= sorted);
        match self.model.begin_table_load(tab_id, Some(0)) {
            Some((target, page)) => {
                assert(self@ =~= (WorkspaceView { model: self.model@, ..sorted }));
                self.start_table_load(tab_id, target, page)
            },
            None => {
                assert(self@ =~= sorted);
                None
            },
        }
    }

    /// Turns the order of a tab around.
    pub fn toggle_toolbar_sort_direction(&mut self, tab_id: u64, text: String) -> (r: Option<
        TableLoad,
    >)
        requires
            old(self).wf(),
            old(self)@.can_ask(tab_id),
            old(self)@.model.generation_of(tab_id) < u64::MAX,
        ensures
            final(self).wf(),
            match get(old(self)@.sorts, tab_id) {
                None => r is None && final(self)@ == old(self)@,
                Some(sort) => changes_sort(
                    old(self)@,
                    final(self)@,
                    tab_id,
                    sort.column,
                    Some(sort.direction.opposite_of()),
                    text@,
                    r,
                ),
            },
    {
        let sort = match self.sorts.get(&tab_id) {
            Some(sort) => sort.clone(),
            None => return None,
        };
        self.change_table_sort(tab_id, sort.column, Some(sort.direction.opposite()), text)
    }

    /// Shows the first page of a tab, with the total unknown.
    pub fn restart_table(&mut self, tab_id: u64) -> (r: Option<TableLoad>)
        requires
            old(self).wf(),
            old(self)@.model.generation_of(tab_id) < u64::MAX,
        ensures
            final(self).wf(),
            restarts(
                old(self)@,
                final(self)@,
                tab_id,
                |page: TablePage| TablePage { offset: 0, total_rows: None, ..page },
                false,
                r,
            ),
    {
        let ghost was = self@;
        match self.model.reset_table_page(tab_id) {
            Some((target, page)) => {
                assert(self@ =~= (WorkspaceView { model: self.model@, ..was }));
                self.start_table_load(tab_id, target, page)
            },
            None => {
                assert(self@ =~= was);
                None
            },
        }
    }
}

// ---------------------------------------------------------------------
// Opening tables
// ---------------------------------------------------------------------
/// The first column that holds texts; the first column where none does.
pub open spec fn first_text_column(text_columns: Seq<bool>, from: int) -> int
    decreases text_columns.len() - from,
{
    if from < 0 || from >= text_columns.len() {
        0
    } else if text_columns[from] {
        from
    } else {
        first_text_column(text_columns, from + 1)
    }
}

fn text_column(text_columns: &[bool]) -> (r: usize)
    ensures
        r == first_text_column(text_columns@, 0),
{
    let mut i: usize = 0;
    while i < text_columns.len()
        invariant
            i <= text_columns@.len(),
            first_text_column(text_columns@, i as int) == first_text_column(text_columns@, 0),
        decreases text_columns@.len() - i,
    {
        if text_columns[i] {
            return i;
        }
        i += 1;
    }
    0
}

/// `map` with a value under `id` where it has none.
pub open spec fn or_insert<V>(map: Map<u64, V>, id: u64, value: V) -> Map<u64, V> {
    if map.contains_key(id) {
        map
    } else {
        map.insert(id, value)
    }
}

impl WorkspaceView {
    /// The workspace with what the filters of a tab start from.
    pub open spec fn with_defaults(
        self,
        id: u64,
        quick_column: usize,
        operator: TableFilterOperator,
    ) -> WorkspaceView {
        WorkspaceView {
            quick_filter_columns: or_insert(self.quick_filter_columns, id, quick_column),
            filter_columns: or_insert(self.filter_columns, id, 0),
            filter_operators: or_insert(self.filter_operators, id, operator),
            ..self
        }
    }
}

/// The operator that filters start from: that of the first column, where the
/// table is known and has one.
pub open spec fn first_operator(table: Option<Table>, operator: TableFilterOperator) -> TableFilterOperator {
    if table matches Some(t) && t.columns@.len() > 0 {
        operator
    } else {
        TableFilterOperator::Equals
    }
}

/// The column that the quick filter starts from.
pub open spec fn quick_column_of(table: Option<Table>, text_columns: Seq<bool>) -> usize {
    if table is Some {
        first_text_column(text_columns, 0) as usize
    } else {
        0
    }
}

/// Whether a table was opened in the model, with what its filters start from,
/// and its first page is loaded where `load` says so.
pub open spec fn opens_as(
    was: WorkspaceView,
    now: WorkspaceView,
    what: (TableTarget, Option<TableLookupContext>),
    start: (Seq<bool>, TableFilterOperator),
    r: (u64, Option<TableLoad>),
    opened: ModelView,
    load: bool,
) -> bool {
    let table = opened.table_of(what.0@);
    let shown = (WorkspaceView { model: opened, ..was }).with_defaults(
        r.0,
        quick_column_of(table, start.0),
        first_operator(table, start.1),
    );
    &&& opens_table(was.model, opened, what.0, what.1, (r.0, load))
    &&& if load {
        begins_load(shown, now, r.0, what.0, first_page(), r.1)
    } else {
        r.1 is None && now == shown
    }
}

impl TableWorkspace {
    /// Opens a table, with the predicates of a lookup where it was reached by a
    /// foreign key. `text_columns` says of each column of the table whether it
    /// holds texts, `operator` is what a filter on the first column starts from.
    pub fn open_table_with_lookup(
        &mut self,
        target: TableTarget,
        lookup: Option<TableLookupContext>,
        text_columns: &[bool],
        operator: TableFilterOperator,
    ) -> (r: (u64, Option<TableLoad>))
        requires
            old(self).wf(),
            old(self)@.model.next_tab_id < u64::MAX,
            old(self)@.model.generation_of(old(self)@.model.next_tab_id) < u64::MAX,
        ensures
            final(self).wf(),
            exists|opened: ModelView, load: bool| #[trigger]
                opens_as(
                    old(self)@,
                    final(self)@,
                    (target, lookup),
                    (text_columns@, operator),
                    r,
                    opened,
                    load,
                ),
    {
        let ghost was = self@;
        let copy = target.clone();
        let (tab_id, should_load) = self.model.open_table_with_lookup(copy, lookup);
        let ghost opened = self.model@;
        let (known, first) = match self.model.table(&target) {
            Some(table) => (true, table.columns.len() > 0),
            None => (false, false),
        };
        let quick_column: usize = if known {
            text_column(text_columns)
        } else {
            0
        };
        let start = if first {
            operator
        } else {
            TableFilterOperator::Equals
        };
        if !self.quick_filter_columns.contains(&tab_id) {
            self.quick_filter_columns.insert(tab_id, quick_column);
        }
        if !self.filter_columns.contains(&tab_id) {
            self.filter_columns.insert(tab_id, 0);
        }
        if !self.filter_operators.contains(&tab_id) {
            self.filter_operators.insert(tab_id, start);
        }
        proof {
            assert(opens_table(was.model, opened, target, lookup, (tab_id, should_load)));
            assert(self@ =~= (WorkspaceView { model: opened, ..was }).with_defaults(
                tab_id,
                quick_column,
                start,
            ));
        }
        let load = if should_load {
            self.start_table_load(
                tab_id,
                target,
                TablePage { offset: 0, limit: 500, rows: 0, total_rows: None },
            )
        } else {
            None
        };
        assert(opens_as(
            was,
            self@,
            (target, lookup),
            (text_columns@, operator),
            (tab_id, load),
            opened,
            should_load,
        ));
        (tab_id, load)
    }

    /// The loads of a connection that were waiting for it: the tabs that are
    /// loading, and those that were loaded before the connection was up, where
    /// nothing is shown yet.
    pub fn resume_table_loads(&self, connection_id: &str) -> (r: Vec<(u64, TableTarget, TablePage)>)
        requires
            self.wf(),
        ensures
            r@ == waiting(self@, connection_id@, self@.model.tabs.len()),
    {
        let tabs = self.model.tabs();
        let mut out: Vec<(u64, TableTarget, TablePage)> = Vec::new();
        let mut i: usize = 0;
        assert(out@ =~= waiting(self@, connection_id@, 0));
        while i < tabs.len()
            invariant
                i <= tabs@.len(),
                tabs@ == self@.model.tabs,
                self.wf(),
                out@ == waiting(self@, connection_id@, i as nat),
            decreases tabs@.len() - i,
        {
            let tab = &tabs[i];
            if let TabKind::Table { target, state, page } = &tab.kind {
                let open = match state {
                    TableLoadState::Loading => true,
                    TableLoadState::Error(error) => same_text(
                        error.as_str(),
                        TABLE_METADATA_UNAVAILABLE,
                    ),
                    TableLoadState::Loaded => false,
                };
                if open && same_text(target.connection_id.as_str(), connection_id)
                    && !self.grids.contains(&tab.id) {
                    out.push((tab.id, target.clone(), *page));
                }
            }
            i += 1;
        }
        out
    }
}

/// Whether a tab waits for a connection.
pub open spec fn waits(v: WorkspaceView, tab: WorkspaceTab, connection_id: Seq<char>) -> bool {
    &&& tab.kind matches TabKind::Table { target, state, .. }
    &&& target.connection_id@ == connection_id
    &&& !v.grids.contains_key(tab.id)
    &&& match state {
        TableLoadState::Loading => true,
        TableLoadState::Error(error) => error@ == TABLE_METADATA_UNAVAILABLE@,
        TableLoadState::Loaded => false,
    }
}

/// What the tabs among the first `n` wait for.
pub open spec fn waiting(v: WorkspaceView, connection_id: Seq<char>, n: nat) -> Seq<
    (u64, TableTarget, TablePage),
>
    decreases n,
{
    if n == 0 {
        Seq::empty()
    } else {
        let tab = v.model.tabs[n - 1];
        let before = waiting(v, connection_id, (n - 1) as nat);
        match tab.kind {
            TabKind::Table { target, page, .. } => if waits(v, tab, connection_id) {
                before.push((tab.id, target, page))
            } else {
                before
            },
            _ => before,
        }
    }
}

// ---------------------------------------------------------------------
// Filters
// ---------------------------------------------------------------------
/// The table that a tab shows.
pub open spec fn target_of(v: ModelView, id: u64) -> Option<TableTarget> {
    match tab_at(v.tabs, id) {
        Some(at) => match v.tabs[at].kind {
            TabKind::Table { target, .. } => Some(target),
            _ => None,
        },
        None => None,
    }
}

impl WorkspaceView {
    /// The column that the filter of a tab is composed for.
    pub open spec fn filter_column(self, id: u64) -> Option<Column> {
        let at = if self.filter_columns.contains_key(id) {
            self.filter_columns[id] as int
        } else {
            0
        };
        match target_of(self.model, id) {
            Some(target) => match self.model.table_of(target@) {
                Some(table) => if at < table.columns@.len() {
                    Some(table.columns@[at])
                } else {
                    None
                },
                None => None,
            },
            None => None,
        }
    }

    /// The operator that a filter on a column is composed with.
    pub open spec fn filter_operator(self, id: u64, operator: TableFilterOperator) -> TableFilterOperator {
        if self.filter_operators.contains_key(id) {
            self.filter_operators[id]
        } else {
            operator
        }
    }
}

/// Whether an operator only asks whether a value is NULL.
pub open spec fn checks_null(operator: TableFilterOperator) -> bool {
    operator == TableFilterOperator::IsNull || operator == TableFilterOperator::IsNotNull
}

fn is_null_check(operator: TableFilterOperator) -> (r: bool)
    ensures
        r == checks_null(operator),
{
    match operator {
        TableFilterOperator::IsNull | TableFilterOperator::IsNotNull => true,
        _ => false,
    }
}

/// The filters but those on a column with an operator.
pub open spec fn without_filter(
    list: Seq<TableFilterClause>,
    column: Seq<char>,
    operator: TableFilterOperator,
) -> Seq<TableFilterClause>
    decreases list.len(),
{
    if list.len() == 0 {
        Seq::empty()
    } else {
        let before = without_filter(list.drop_last(), column, operator);
        if list.last().column@ == column && list.last().operator == operator {
            before
        } else {
            before.push(list.last())
        }
    }
}

/// The filters with one more: it replaces the one on the same column with the
/// same operator, and stands at the end.
pub open spec fn with_filter(list: Seq<TableFilterClause>, clause: TableFilterClause) -> Seq<
    TableFilterClause,
> {
    without_filter(list, clause.column@, clause.operator).push(clause)
}

fn drop_filter(list: &[TableFilterClause], column: &str, operator: TableFilterOperator) -> (r: Vec<
    TableFilterClause,
>)
    ensures
        r@ == without_filter(list@, column@, operator),
{
    let mut out: Vec<TableFilterClause> = Vec::new();
    let mut i: usize = 0;
    assert(list@.take(0) =~= Seq::<TableFilterClause>::empty());
    while i < list.len()
        invariant
            i <= list@.len(),
            out@ == without_filter(list@.take(i as int), column@, operator),
        decreases list@.len() - i,
    {
        assert(list@.take(i + 1).drop_last() =~= list@.take(i as int));
        if !(same_text(list[i].column.as_str(), column) && list[i].operator == operator) {
            out.push(list[i].clone());
        }
        i += 1;
    }
    assert(list@.take(i as int) =~= list@);
    out
}

/// Whether a filter is complete: it has a value, or needs none.
pub open spec fn complete_filter(operator: TableFilterOperator, value: Seq<char>) -> bool {
    checks_null(operator) || trim_of(value).len() > 0
}

/// Whether `clause` is a filter on a column with an operator and a value; a null
/// check has no value.
pub open spec fn is_filter(
    clause: TableFilterClause,
    column: Seq<char>,
    operator: TableFilterOperator,
    value: Seq<char>,
) -> bool {
    &&& clause.column@ == column
    &&& clause.operator == operator
    &&& opt_text(clause.value) == (if checks_null(operator) {
        None
    } else {
        Some(trim_of(value))
    })
}

impl WorkspaceView {
    /// The workspace with other filters of a tab, none of which is being
    /// composed.
    pub open spec fn filtered(self, id: u64, list: Seq<TableFilterClause>) -> WorkspaceView {
        WorkspaceView {
            filters: self.filters.insert(id, list),
            filter_composers: self.filter_composers.remove(id),
            ..self
        }
    }
}

/// Whether a filter was applied to a tab, and its rows are read anew from the
/// first on: where they may be, and the filter is complete.
pub open spec fn applies_filter(
    was: WorkspaceView,
    now: WorkspaceView,
    id: u64,
    value: Option<Seq<char>>,
    operator: TableFilterOperator,
    text: Seq<char>,
    r: Option<TableLoad>,
) -> bool {
    let asked = was.asked(id, text);
    let column = was.filter_column(id);
    let used = was.filter_operator(id, operator);
    if !was.allows(id, text) || value is None || column is None || !complete_filter(used, value->0) {
        r is None && now == asked
    } else {
        exists|clause: TableFilterClause|
            is_filter(clause, column->0.name@, used, value->0) && restarts(
                asked.filtered(id, #[trigger] with_filter(was.user_filters(id), clause)),
                now,
                id,
                |page: TablePage| TablePage { offset: 0, total_rows: None, ..page },
                false,
                r,
            )
    }
}

impl TableWorkspace {
    fn tab_target(&self, tab_id: u64) -> (r: Option<TableTarget>)
        requires
            self.wf(),
        ensures
            r == target_of(self@.model, tab_id),
    {
        match find_tab(self.model.tabs(), tab_id) {
            Some(at) => match &self.model.tabs()[at].kind {
                TabKind::Table { target, .. } => Some(target.clone()),
                _ => None,
            },
            None => None,
        }
    }

    /// The column that the filter of a tab is composed for.
    fn composed_column(&self, tab_id: u64) -> (r: Option<Column>)
        requires
            self.wf(),
        ensures
            r == self@.filter_column(tab_id),
    {
        let target = match self.tab_target(tab_id) {
            Some(target) => target,
            None => return None,
        };
        let at: usize = match self.filter_columns.get(&tab_id) {
            Some(at) => *at,
            None => 0,
        };
        match self.model.table(&target) {
            Some(table) => if at < table.columns.len() {
                Some(table.columns[at].clone())
            } else {
                None
            },
            None => None,
        }
    }

    /// Composes the filter of a tab with the next operator for its column.
    pub fn cycle_filter_operator(&mut self, tab_id: u64)
        requires
            old(self).wf(),
        ensures
            final(self).wf(),
            final(self)@ == (match old(self)@.filter_column(tab_id) {
                None => old(self)@,
                Some(column) => WorkspaceView {
                    filter_operators: old(self)@.filter_operators.insert(
                        tab_id,
                        operator_after(
                            operators_for(column.data_type@),
                            old(self)@.filter_operator(tab_id, TableFilterOperator::Equals),
                        ),
                    ),
                    ..old(self)@
                },
            }),
    {
        let ghost was = self@;
        let column = match self.composed_column(tab_id) {
            Some(column) => column,
            None => return,
        };
        let operator = match self.filter_operators.get(&tab_id) {
            Some(operator) => *operator,
            None => TableFilterOperator::Equals,
        };
        self.filter_operators.insert(
            tab_id,
            next_filter_operator(operator, column.data_type.as_str()),
        );
        assert(self@ =~= (WorkspaceView { filter_operators: self@.filter_operators, ..was }));
    }

    /// Applies the filter that is composed for a tab. `value` is the text of the
    /// input, where the tab has one, and `operator` is what a filter on the
    /// column starts from. The input is then emptied.
    pub fn apply_table_filter(
        &mut self,
        tab_id: u64,
        value: Option<String>,
        operator: TableFilterOperator,
        text: String,
    ) -> (r: Option<TableLoad>)
        requires
            old(self).wf(),
            old(self)@.can_ask(tab_id),
            old(self)@.model.generation_of(tab_id) < u64::MAX,
        ensures
            final(self).wf(),
            applies_filter(
                old(self)@,
                final(self)@,
                tab_id,
                opt_text(value),
                operator,
                text@,
                r,
            ),
    {
        let ghost was = self@;
        if !self.table_reload_allowed(tab_id, text) {
            return None;
        }
        let ghost asked = self@;
        let value = match value {
            Some(value) => value,
            None => return None,
        };
        let ghost typed = value@;
        let column = match self.composed_column(tab_id) {
            Some(column) => column,
            None => return None,
        };
        let operator = match self.filter_operators.get(&tab_id) {
            Some(operator) => *operator,
            None => operator,
        };
        let null_check = is_null_check(operator);
        let trimmed = trim(value.as_str());
        if trimmed.len() == 0 && !null_check {
            return None;
        }
        let clause = TableFilterClause {
            column: column.name.clone(),
            operator,
            value: if null_check {
                None
            } else {
                Some(text_of(trimmed.as_slice()))
            },
        };
        let ghost made = clause;
        let mut list = match self.filters.get(&tab_id) {
            Some(list) => drop_filter(list.as_slice(), clause.column.as_str(), operator),
            None => Vec::new(),
        };
        proof {
            assert(without_filter(Seq::empty(), clause.column@, operator) =~= Seq::<
                TableFilterClause,
            >::empty());
        }
        list.push(clause);
        assert(list@ =~= with_filter(was.user_filters(tab_id), made));
        let ghost all = list@;
        self.filters.insert(tab_id, list);
        let _ = self.filter_composers.remove(&tab_id);
        proof {
            assert(self@.filters =~= asked.filters.insert(tab_id, all));
            assert(self@ =~= asked.filtered(tab_id, with_filter(was.user_filters(tab_id), made)));
            assert(is_filter(made, column.name@, operator, typed));
        }
        self.restart_table(tab_id)
    }

    /// Lets the user compose a filter for a tab.
    pub fn open_table_filter(&mut self, tab_id: u64)
        requires
            old(self).wf(),
        ensures
            final(self).wf(),
            final(self)@ == (WorkspaceView {
                filter_composers: old(self)@.filter_composers.insert(tab_id),
                ..old(self)@
            }),
    {
        let ghost was = self@;
        self.filter_composers.insert(tab_id, ());
        assert(self@.filter_composers =~= was.filter_composers.insert(tab_id));
        assert(self@ =~= (WorkspaceView {
            filter_composers: was.filter_composers.insert(tab_id),
            ..was
        }));
    }

    /// Takes a filter of a tab out to be composed anew. The result is the text
    /// that its input shows.
    pub fn edit_table_filter(&mut self, tab_id: u64, index: usize) -> (r: Option<String>)
        requires
            old(self).wf(),
        ensures
            final(self).wf(),
            edits_filter(old(self)@, final(self)@, tab_id, index as int, r),
    {
        let ghost was = self@;
        let filter = match self.filters.get(&tab_id) {
            Some(list) => if index < list.len() {
                list[index].clone()
            } else {
                return None;
            },
            None => return None,
        };
        let target = match self.tab_target(tab_id) {
            Some(target) => target,
            None => return None,
        };
        let position = match self.model.table(&target) {
            Some(table) => column_position(table.columns.as_slice(), filter.column.as_str()),
            None => None,
        };
        let ghost columns = columns_of(was.model, target);
        assert(position is Some == has_column(columns, filter.column@));
        if let Some(column) = position {
            assert(first_named(columns, filter.column@, column));
            self.filter_columns.insert(tab_id, column);
        }
        self.filter_operators.insert(tab_id, filter.operator);
        if let Some(mut list) = self.filters.remove(&tab_id) {
            let _ = list.remove(index);
            self.filters.insert(tab_id, list);
        }
        self.filter_composers.insert(tab_id, ());
        proof {
            let list = was.filters[tab_id];
            assert(self@.filters =~= was.filters.insert(tab_id, list.remove(index as int)));
            assert(self@.filter_composers =~= was.filter_composers.insert(tab_id));
            assert(self@ =~= (WorkspaceView {
                filters: self@.filters,
                filter_operators: self@.filter_operators,
                filter_columns: self@.filter_columns,
                filter_composers: self@.filter_composers,
                ..was
            }));
        }
        match filter.value {
            Some(value) => Some(value),
            None => Some(String::new()),
        }
    }

    /// Takes a filter of a tab away and shows the first page of what is left.
    pub fn remove_table_filter(&mut self, tab_id: u64, index: usize, text: String) -> (r: Option<
        TableLoad,
    >)
        requires
            old(self).wf(),
            old(self)@.can_ask(tab_id),
            old(self)@.model.generation_of(tab_id) < u64::MAX,
        ensures
            final(self).wf(),
            ({
                let asked = old(self)@.asked(tab_id, text@);
                if !old(self)@.allows(tab_id, text@) || index >= old(self)@.user_filters(
                    tab_id,
                ).len() {
                    r is None && final(self)@ == asked
                } else {
                    restarts(
                        asked.without_user_filter(tab_id, index as int),
                        final(self)@,
                        tab_id,
                        |page: TablePage| TablePage { offset: 0, total_rows: None, ..page },
                        false,
                        r,
                    )
                }
            }),
    {
        if !self.table_reload_allowed(tab_id, text) {
            return None;
        }
        let ghost asked = self@;
        match self.filters.get(&tab_id) {
            Some(list) => {
                if index >= list.len() {
                    return None;
                }
            },
            None => return None,
        }
        if let Some(mut list) = self.filters.remove(&tab_id) {
            let _ = list.remove(index);
            if list.len() > 0 {
                self.filters.insert(tab_id, list);
            }
        }
        proof {
            let list = asked.filters[tab_id].remove(index as int);
            if list.len() > 0 {
                assert(self@.filters =~= asked.filters.insert(tab_id, list));
            } else {
                assert(self@.filters =~= asked.filters.remove(tab_id));
            }
            assert(self@ =~= asked.without_user_filter(tab_id, index as int));
        }
        self.restart_table(tab_id)
    }

    /// Takes all filters of a tab away and shows its first page. The input is
    /// emptied.
    pub fn clear_table_filter(&mut self, tab_id: u64, text: String) -> (r: Option<TableLoad>)
        requires
            old(self).wf(),
            old(self)@.can_ask(tab_id),
            old(self)@.model.generation_of(tab_id) < u64::MAX,
        ensures
            final(self).wf(),
            if !old(self)@.allows(tab_id, text@) {
                r is None && final(self)@ == old(self)@.asked(tab_id, text@)
            } else {
                restarts(
                    old(self)@.asked(tab_id, text@).unfiltered(tab_id),
                    final(self)@,
                    tab_id,
                    |page: TablePage| TablePage { offset: 0, total_rows: None, ..page },
                    false,
                    r,
                )
            },
    {
        if !self.table_reload_allowed(tab_id, text) {
            return None;
        }
        let ghost asked = self@;
        let _ = self.filters.remove(&tab_id);
        let _ = self.filter_composers.remove(&tab_id);
        assert(self@.filters =~= asked.filters.remove(tab_id));
        assert(self@ =~= asked.unfiltered(tab_id));
        self.restart_table(tab_id)
    }

    /// Sets the quick filter of a tab; an empty one is none.
    pub fn set_quick_filter(&mut self, tab_id: u64, value: Option<String>, column: usize)
        requires
            old(self).wf(),
        ensures
            final(self).wf(),
            final(self)@ == (WorkspaceView {
                quick_filters: match opt_text(value) {
                    Some(text) => old(self)@.quick_filters.insert(tab_id, text),
                    None => old(self)@.quick_filters.remove(tab_id),
                },
                quick_filter_columns: old(self)@.quick_filter_columns.insert(tab_id, column),
                ..old(self)@
            }),
    {
        let ghost was = self@;
        let ghost want = match opt_text(value) {
            Some(text) => was.quick_filters.insert(tab_id, text),
            None => was.quick_filters.remove(tab_id),
        };
        match value {
            Some(text) => {
                self.quick_filters.insert(tab_id, text);
            },
            None => {
                let _ = self.quick_filters.remove(&tab_id);
            },
        }
        self.quick_filter_columns.insert(tab_id, column);
        assert(self@.quick_filters =~= want);
        assert(self@ =~= (WorkspaceView {
            quick_filters: want,
            quick_filter_columns: was.quick_filter_columns.insert(tab_id, column),
            ..was
        }));
    }
}

impl WorkspaceView {
    /// The workspace without one filter of a tab.
    pub open spec fn without_user_filter(self, id: u64, index: int) -> WorkspaceView {
        let list = self.filters[id].remove(index);
        WorkspaceView {
            filters: if list.len() > 0 {
                self.filters.insert(id, list)
            } else {
                self.filters.remove(id)
            },
            ..self
        }
    }

    /// The workspace without the filters of a tab.
    pub open spec fn unfiltered(self, id: u64) -> WorkspaceView {
        WorkspaceView {
            filters: self.filters.remove(id),
            filter_composers: self.filter_composers.remove(id),
            ..self
        }
    }
}

/// The columns of a table; none where it is not known.
pub open spec fn columns_of(v: ModelView, target: TableTarget) -> Seq<Column> {
    match v.table_of(target@) {
        Some(table) => table.columns@,
        None => Seq::empty(),
    }
}

/// Whether the column at `at` is the first with this name.
pub open spec fn first_named(columns: Seq<Column>, name: Seq<char>, at: usize) -> bool {
    &&& at < columns.len()
    &&& columns[at as int].name@ == name
    &&& forall|i: int| 0 <= i < at ==> (#[trigger] columns[i]).name@ != name
}

/// Whether a filter of a tab was taken out to be composed anew, with its own
/// column, operator and value. The column stays where the table has none of its
/// name.
pub open spec fn edits_filter(
    was: WorkspaceView,
    now: WorkspaceView,
    id: u64,
    index: int,
    r: Option<String>,
) -> bool {
    let target = target_of(was.model, id);
    if index >= was.user_filters(id).len() || target is None {
        r is None && now == was
    } else {
        let filter = was.user_filters(id)[index];
        let columns = columns_of(was.model, target->0);
        &&& opt_text(r) == Some(
            match filter.value {
                Some(value) => value@,
                None => Seq::empty(),
            },
        )
        &&& now == (WorkspaceView {
            filters: was.filters.insert(id, was.filters[id].remove(index)),
            filter_operators: was.filter_operators.insert(id, filter.operator),
            filter_composers: was.filter_composers.insert(id),
            filter_columns: now.filter_columns,
            ..was
        })
        &&& if has_column(columns, filter.column@) {
            exists|at: usize| #[trigger]
                first_named(columns, filter.column@, at) && now.filter_columns
                    == was.filter_columns.insert(id, at)
        } else {
            now.filter_columns == was.filter_columns
        }
    }
}

// ---------------------------------------------------------------------
// Results
// ---------------------------------------------------------------------
/// The engine family of a connection; Postgres where it is not known.
pub open spec fn engine_of(connections: Seq<ConnectionConfig>, id: Seq<char>) -> Engine {
    if exists|at: int| #[trigger] first_with_id(connections, id, at) {
        connections[choose|at: int| #[trigger]
            first_with_id(connections, id, at)].engine.family_of()
    } else {
        Engine::Postgres
    }
}

fn find_engine(connections: &[ConnectionConfig], id: &str) -> (r: Engine)
    ensures
        r == engine_of(connections@, id@),
{
    match find_connection(connections, id) {
        Some(at) => {
            proof {
                let other = choose|k: int| #[trigger] first_with_id(connections@, id@, k);
                assert(first_with_id(connections@, id@, at as int));
                if other < at {
                    assert(connections@[other].id@ != id@);
                } else if at < other {
                    assert(connections@[at as int].id@ != id@);
                }
            }
            connections[at].engine.family()
        },
        None => {
            proof {
                if exists|at: int| #[trigger] first_with_id(connections@, id@, at) {
                    let at = choose|at: int| #[trigger] first_with_id(connections@, id@, at);
                    assert(connections@[at].id@ == id@);
                }
            }
            Engine::Postgres
        },
    }
}

/// The position of the first column with this name.
pub open spec fn position_of(columns: Seq<ColumnMeta>, name: Seq<char>) -> Option<usize> {
    match column_from(columns, name, 0) {
        Some(at) => Some(at as usize),
        None => None,
    }
}

fn find_position(columns: &[ColumnMeta], name: &str) -> (r: Option<usize>)
    ensures
        r == position_of(columns@, name@),
{
    locate_column(columns, name)
}

/// The number of rows of a page.
pub open spec fn page_rows(n: nat) -> u32 {
    if n > u32::MAX {
        u32::MAX
    } else {
        n as u32
    }
}

/// Whether `grid` is the grid of what was loaded: sorted as the load was, with
/// the preferences, and at the column that a foreign key led to.
pub open spec fn shows_result(
    grid: DataGridView,
    was: WorkspaceView,
    load: TableLoad,
    result: QueryResult,
) -> bool {
    let engine = engine_of(was.model.connections, load.target.connection_id@);
    let sort = match load.sort {
        Some(sort) => match position_of(result.columns@, sort.column@) {
            Some(at) => Some((at, sort.direction)),
            None => None,
        },
        None => None,
    };
    let plain = DataGridView {
        editable: grid.editable,
        sort,
        null_display: was.null_display,
        stripe_rows: was.stripe_rows,
        ..fresh(result.columns@, row_values(result.rows@), report_of(result))
    };
    let focus = if was.model.lookups.contains_key(load.tab_id) {
        position_of(result.columns@, was.model.lookups[load.tab_id].focus_column@)
    } else {
        None
    };
    &&& grid.editable is Some
    &&& starts(grid.editable->0, load.target, load.table, result, engine)
    &&& grid == (match focus {
        Some(column) => plain.at_cell(CellPosition { row: 0, column }),
        None => plain,
    })
}

/// Whether the result of a load was taken over. Of a load that a later one has
/// overtaken, or whose tab was closed, nothing is.
pub open spec fn takes_result(
    was: WorkspaceView,
    now: WorkspaceView,
    load: TableLoad,
    result: Result<QueryResult, String>,
    r: Option<bool>,
) -> bool {
    let id = load.tab_id;
    if !was.model.load_counts(id, load.generation) {
        r is None && now == was
    } else {
        let at = tab_at(was.model.tabs, id)->0;
        match result {
            Err(error) => r is None && now == (WorkspaceView {
                model: was.model.with_loaded(at, Err(error)),
                ..was
            }),
            Ok(result) => {
                let rows = page_rows(result.rows@.len());
                &&& r == Some(!was.grids.contains_key(id))
                &&& now.grids.contains_key(id)
                &&& shows_result(now.grids[id], was, load, result)
                &&& now == (WorkspaceView {
                    model: was.model.with_loaded(at, Ok((rows, result.total_rows))),
                    summaries: was.summaries.insert(
                        id,
                        SummaryView {
                            report: report_of(result),
                            row_count: result.rows@.len() as u64,
                        },
                    ),
                    last_metrics: Some((rows as u64, result.truncated, result.duration_ms)),
                    grids: was.grids.insert(id, now.grids[id]),
                    ..was
                })
            },
        }
    }
}

impl TableWorkspace {
    /// Takes over the result of a load. The result says, where a grid is shown
    /// now, whether it is the first of its tab, which then gets the keyboard.
    pub fn finish_load(&mut self, load: TableLoad, result: Result<QueryResult, String>) -> (r: Option<
        bool,
    >)
        requires
            old(self).wf(),
        ensures
            final(self).wf(),
            takes_result(old(self)@, final(self)@, load, result, r),
    {
        let ghost was = self@;
        let ghost done = load;
        let tab_id: u64 = load.tab_id;
        match result {
            Err(error) => {
                let ghost why = error;
                let counted = self.model.finish_table_load(tab_id, load.generation, Err(error));
                proof {
                    if counted {
                        let at = tab_at(was.model.tabs, tab_id)->0;
                        assert(self@ =~= (WorkspaceView {
                            model: was.model.with_loaded(at, Err(why)),
                            ..was
                        }));
                    } else {
                        assert(self@ =~= was);
                    }
                }
                None
            },
            Ok(result) => {
                let ghost loaded = result;
                let count: usize = result.rows.len();
                let rows: u32 = if count as u64 > u32::MAX as u64 {
                    u32::MAX
                } else {
                    count as u32
                };
                assert(rows == page_rows(result.rows@.len()));
                if !self.model.finish_table_load(
                    tab_id,
                    load.generation,
                    Ok((rows, result.total_rows)),
                ) {
                    assert(self@ =~= was);
                    return None;
                }
                let summary = QueryResultSummary {
                    notices: copy_texts(result.notices.as_slice()),
                    notice_capture: copy_capture(&result.notice_capture),
                    rows_affected: result.rows_affected,
                    duration_ms: result.duration_ms,
                    truncated: result.truncated,
                    total_rows: result.total_rows,
                    row_count: count as u64,
                };
                assert(report_of_summary(summary) =~= report_of(result));
                let ghost reported = SummaryView {
                    report: report_of(result),
                    row_count: summary.row_count,
                };
                self.summaries.insert(tab_id, summary);
                self.last_metrics = Some((rows as u64, result.truncated, result.duration_ms));
                let sort = match &load.sort {
                    Some(sort) => match find_position(
                        result.columns.as_slice(),
                        sort.column.as_str(),
                    ) {
                        Some(at) => Some((at, sort.direction)),
                        None => None,
                    },
                    None => None,
                };
                let focus = match self.model.table_lookup_context(tab_id) {
                    Some(lookup) => find_position(
                        result.columns.as_slice(),
                        lookup.focus_column.as_str(),
                    ),
                    None => None,
                };
                let engine = find_engine(
                    self.model.connections(),
                    load.target.connection_id.as_str(),
                );
                let first = !self.grids.contains(&tab_id);
                let mut grid = DataGrid::new_table(result, load.target, load.table, sort, engine);
                grid.set_display_preferences(self.null_display.clone(), self.stripe_rows);
                if let Some(column) = focus {
                    grid.scroll_to_cell(0, column);
                }
                let ghost shown = grid@;
                self.grids.insert(tab_id, grid);
                proof {
                    assert(shows_result(shown, was, done, loaded));
                    assert(self@.grids =~= was.grids.insert(tab_id, shown));
                    assert(self@.summaries =~= was.summaries.insert(tab_id, reported));
                    let at = tab_at(was.model.tabs, tab_id)->0;
                    assert(self@ =~= (WorkspaceView {
                        model: was.model.with_loaded(at, Ok((rows, loaded.total_rows))),
                        summaries: was.summaries.insert(tab_id, reported),
                        last_metrics: self@.last_metrics,
                        grids: was.grids.insert(tab_id, shown),
                        ..was
                    }));
                }
                Some(first)
            },
        }
    }

    pub fn grid(&self, tab_id: u64) -> (r: Option<&DataGrid>)
        requires
            self.wf(),
        ensures
            r is Some == self@.grids.contains_key(tab_id),
            r matches Some(grid) ==> grid.wf() && grid@ == self@.grids[tab_id],
    {
        self.grids.get(&tab_id)
    }

    /// Takes the grid of a tab out, to be put back after it was changed.
    pub fn take_grid(&mut self, tab_id: u64) -> (r: Option<DataGrid>)
        requires
            old(self).wf(),
        ensures
            final(self).wf(),
            r is Some == old(self)@.grids.contains_key(tab_id),
            r matches Some(grid) ==> grid.wf() && grid@ == old(self)@.grids[tab_id],
            final(self)@ == (WorkspaceView {
                grids: old(self)@.grids.remove(tab_id),
                ..old(self)@
            }),
    {
        let ghost was = self@;
        let r = self.grids.remove(&tab_id);
        assert(self@.grids =~= was.grids.remove(tab_id));
        assert(self@ =~= (WorkspaceView { grids: was.grids.remove(tab_id), ..was }));
        r
    }

    pub fn put_grid(&mut self, tab_id: u64, grid: DataGrid)
        requires
            old(self).wf(),
            grid.wf(),
        ensures
            final(self).wf(),
            final(self)@ == (WorkspaceView {
                grids: old(self)@.grids.insert(tab_id, grid@),
                ..old(self)@
            }),
    {
        let ghost was = self@;
        self.grids.insert(tab_id, grid);
        assert(self@.grids =~= was.grids.insert(tab_id, grid@));
        assert(self@ =~= (WorkspaceView { grids: was.grids.insert(tab_id, grid@), ..was }));
    }

    pub fn set_display_preferences(&mut self, null_display: String, stripe_rows: bool)
        requires
            old(self).wf(),
        ensures
            final(self).wf(),
            final(self)@ == (WorkspaceView {
                null_display: null_display@,
                stripe_rows,
                ..old(self)@
            }),
    {
        let ghost was = self@;
        self.null_display = null_display;
        self.stripe_rows = stripe_rows;
        assert(self@ =~= (WorkspaceView { null_display: null_display@, stripe_rows, ..was }));
    }

    /// Changes the model. What is kept for the tabs stays.
    pub fn set_model(&mut self, model: AppModel) -> (r: AppModel)
        requires
            old(self).wf(),
            model.wf(),
        ensures
            final(self).wf(),
            r.wf(),
            r@ == old(self)@.model,
            final(self)@ == (WorkspaceView { model: model@, ..old(self)@ }),
    {
        let ghost was = self@;
        let mut other = model;
        std::mem::swap(&mut self.model, &mut other);
        assert(self@ =~= (WorkspaceView { model: model@, ..was }));
        other
    }
}

// ---------------------------------------------------------------------
// What a tab shows
// ---------------------------------------------------------------------
/// What a tab of a table shows.
pub enum TableContent {
    /// A text while the first rows are read.
    Loading(String),
    /// The grid, while its rows may be read anew.
    Grid { reloading: bool },
    Failed(&'static str),
    Unavailable(&'static str),
}

/// What a tab shows of a table in this state.
pub open spec fn shows_content(
    content: TableContent,
    target: TableTarget,
    state: TableLoadState,
    has_grid: bool,
) -> bool {
    match state {
        TableLoadState::Loading => if has_grid {
            content == (TableContent::Grid { reloading: true })
        } else {
            content matches TableContent::Loading(text) && text@ == "Loading "@ + target.schema@
                + "."@ + target.table@ + "…"@
        },
        TableLoadState::Error(_) => content matches TableContent::Failed(text) && text@
            == "Table load failed. See Messages for details."@,
        TableLoadState::Loaded => if has_grid {
            content == (TableContent::Grid { reloading: false })
        } else {
            content matches TableContent::Unavailable(text) && text@ == "Grid state is unavailable"@
        },
    }
}

/// What a tab shows of a table.
pub fn table_content(target: &TableTarget, state: &TableLoadState, has_grid: bool) -> (r:
    TableContent)
    ensures
        shows_content(r, *target, *state, has_grid),
{
    match state {
        TableLoadState::Loading => if has_grid {
            TableContent::Grid { reloading: true }
        } else {
            let mut text = "Loading ".to_owned();
            text.append(target.schema.as_str());
            text.append(".");
            text.append(target.table.as_str());
            text.append("…");
            TableContent::Loading(text)
        },
        TableLoadState::Error(_) => TableContent::Failed(
            "Table load failed. See Messages for details.",
        ),
        TableLoadState::Loaded => if has_grid {
            TableContent::Grid { reloading: false }
        } else {
            TableContent::Unavailable("Grid state is unavailable")
        },
    }
}

/// The name that the layout of a table is kept under.
pub open spec fn layout_key(target: TableTarget) -> Seq<char> {
    target.connection_id@ + "::"@ + target.database@ + "."@ + target.schema@ + "."@ + target.table@
}

pub fn table_layout_key(target: &TableTarget) -> (r: String)
    ensures
        r@ == layout_key(*target),
{
    let mut key = target.connection_id.clone();
    key.append("::");
    key.append(target.database.as_str());
    key.append(".");
    key.append(target.schema.as_str());
    key.append(".");
    key.append(target.table.as_str());
    key
}

// ---------------------------------------------------------------------
// Laws
// ---------------------------------------------------------------------
/// A tab that a foreign key was followed to never widens to the whole table:
/// whatever the user filters by, every load keeps the predicates of the lookup,
/// before all others.
pub proof fn law_lookup_predicates_stay(
    v: WorkspaceView,
    id: u64,
    load: TableLoad,
    generation: u64,
    target: TableTarget,
    table: Table,
    page: TablePage,
    quick: Option<TableFilterClause>,
    r: TableBrowseRequest,
)
    requires
        v.model.lookups.contains_key(id),
        v.is_load(load, id, generation, target, table, page),
        is_request(r, load, quick),
    ensures
        v.model.lookups[id].filters@.is_prefix_of(r.filters@),
        !r.include_total,
{
    let lookup = v.model.lookups[id].filters@;
    assert(r.filters@.take(lookup.len() as int) =~= lookup);
}

/// Taking filters away, one or all, leaves the predicates of the lookup.
pub proof fn law_clearing_filters_keeps_the_lookup(v: WorkspaceView, id: u64, index: int)
    requires
        v.model.lookups.contains_key(id),
        v.filters.contains_key(id),
        0 <= index < v.filters[id].len(),
    ensures
        v.unfiltered(id).load_filters(id) == v.model.lookups[id].filters@,
        v.without_user_filter(id, index).load_filters(id) == v.model.lookups[id].filters@
            + v.filters[id].remove(index),
{
    assert(v.unfiltered(id).load_filters(id) =~= v.model.lookups[id].filters@);
    assert(v.without_user_filter(id, index).load_filters(id) =~= v.model.lookups[id].filters@
        + v.filters[id].remove(index));
}

/// Whether no two filters are on one column with one operator.
pub open spec fn one_each(list: Seq<TableFilterClause>) -> bool {
    forall|i: int, j: int|
        0 <= i < j < list.len() ==> (#[trigger] list[i]).column@ != (#[trigger] list[j]).column@
            || list[i].operator != list[j].operator
}

proof fn lemma_without_filter(
    list: Seq<TableFilterClause>,
    column: Seq<char>,
    operator: TableFilterOperator,
)
    ensures
        ({
            let rest = without_filter(list, column, operator);
            &&& forall|i: int|
                0 <= i < rest.len() ==> list.contains(#[trigger] rest[i]) && (rest[i].column@
                    != column || rest[i].operator != operator)
            &&& one_each(list) ==> one_each(rest)
        }),
    decreases list.len(),
{
    if list.len() > 0 {
        let shorter = list.drop_last();
        lemma_without_filter(shorter, column, operator);
        let before = without_filter(shorter, column, operator);
        let rest = without_filter(list, column, operator);
        assert forall|i: int| 0 <= i < rest.len() implies list.contains(#[trigger] rest[i]) && (
        rest[i].column@ != column || rest[i].operator != operator) by {
            if i < before.len() {
                assert(rest[i] == before[i]);
                let k = shorter.index_of(before[i]);
                assert(list[k] == rest[i]);
            } else {
                assert(list[list.len() - 1] == rest[i]);
            }
        }
        if one_each(list) {
            assert forall|i: int, j: int| 0 <= i < j < shorter.len() implies (
            #[trigger] shorter[i]).column@ != (#[trigger] shorter[j]).column@ || shorter[i].operator
                != shorter[j].operator by {
                assert(list[i] == shorter[i] && list[j] == shorter[j]);
            }
            assert(one_each(shorter));
            assert forall|i: int, j: int| 0 <= i < j < rest.len() implies (
            #[trigger] rest[i]).column@ != (#[trigger] rest[j]).column@ || rest[i].operator
                != rest[j].operator by {
                if j < before.len() {
                    assert(rest[i] == before[i] && rest[j] == before[j]);
                } else {
                    assert(rest[i] == before[i]);
                    let k = shorter.index_of(before[i]);
                    assert(list[k] == rest[i]);
                    assert(list[list.len() - 1] == rest[j]);
                }
            }
        }
    }
}

/// A column has at most one filter with each operator: a new one replaces it.
pub proof fn law_one_filter_per_column_and_operator(
    list: Seq<TableFilterClause>,
    clause: TableFilterClause,
)
    requires
        one_each(list),
    ensures
        one_each(with_filter(list, clause)),
        with_filter(list, clause).last() == clause,
{
    lemma_without_filter(list, clause.column@, clause.operator);
    let rest = without_filter(list, clause.column@, clause.operator);
    let all = with_filter(list, clause);
    assert forall|i: int, j: int| 0 <= i < j < all.len() implies (#[trigger] all[i]).column@ != (
    #[trigger] all[j]).column@ || all[i].operator != all[j].operator by {
        assert(all[i] == rest[i]);
        if j < rest.len() {
            assert(all[j] == rest[j]);
        }
    }
}

/// Turning a page and turning back shows the page again.
pub proof fn law_turning_back(page: TablePage)
    requires
        page.offset + page.limit <= u32::MAX,
    ensures
        turned(TablePage { offset: turned(page, true), ..page }, false) == page.offset,
{
}

/// The rows that were shown stay until those of the last load are there: a load
/// that was overtaken changes nothing.
pub proof fn law_overtaken_results_change_nothing(
    was: WorkspaceView,
    now: WorkspaceView,
    load: TableLoad,
    result: Result<QueryResult, String>,
    r: Option<bool>,
)
    requires
        takes_result(was, now, load, result, r),
        load.generation != was.model.generation_of(load.tab_id),
    ensures
        now == was,
{
}

/// A load that was begun counts until the next one of its tab is begun.
pub proof fn law_the_last_load_counts(v: WorkspaceView, id: u64, other: u64)
    requires
        v.model.generation_of(id) < u64::MAX,
        tab_at(v.model.tabs, id) matches Some(at) && v.model.tabs[at].kind is Table,
    ensures
        v.loading(id).model.load_counts(id, (v.model.generation_of(id) + 1) as u64),
        !v.loading(id).model.load_counts(id, v.model.generation_of(id)),
        other != id ==> v.loading(id).model.generation_of(other) == v.model.generation_of(other),
{
}

/// A request asks for the rows of the page of a load, in the table, sorted and
/// filtered as the load says, with the quick filter last.
pub proof fn law_requests_ask_for_the_load(
    load: &TableLoad,
    quick: Option<TableFilterClause>,
    r: TableBrowseRequest,
)
    requires
        call_ensures(TableLoad::request, (load, quick), r),
    ensures
        r.connection_id@ == load.target.connection_id@,
        r.database matches Some(database) && database@ == load.target.database@,
        r.schema@ == load.target.schema@,
        r.table@ == load.target.table@,
        r.offset == Some(load.page.offset),
        r.limit == Some(load.page.limit),
        load.sort matches Some(sort) ==> r.sorts@ == seq![sort],
        load.sort is None ==> r.sorts@.len() == 0,
        quick matches Some(clause) ==> r.filters@ == load.filters@.push(clause),
        quick is None ==> r.filters@ == load.filters@,
        r.primary_key_fallback_ordering,
        r.include_total == load.include_total,
{
}

/// A load is of the tab, the table and the page that it is begun for, sorted and
/// filtered as the tab is: by the lookup first, then by the user. The total is
/// counted where it is not known, but for a lookup.
pub proof fn law_loads_are_of_their_tab(
    was: WorkspaceView,
    now: WorkspaceView,
    id: u64,
    target: TableTarget,
    page: TablePage,
    load: TableLoad,
)
    requires
        begins_load(was, now, id, target, page, Some(load)),
        was.model.generation_of(id) < u64::MAX,
    ensures
        load.tab_id == id,
        load.generation == was.model.generation_of(id) + 1,
        now.model.generation_of(id) == load.generation,
        load.target == target,
        load.page == page,
        was.model.table_of(target@) matches Some(table) && load.table.name@ == table.name@
            && load.table.columns@ == table.columns@ && load.table.primary_key@ == table.primary_key@,
        was.sorts.contains_key(id) ==> load.sort == Some(was.sorts[id]),
        !was.sorts.contains_key(id) ==> load.sort is None,
        !was.model.lookups.contains_key(id) && was.filters.contains_key(id) ==> load.filters@
            == was.filters[id],
        !was.model.lookups.contains_key(id) && !was.filters.contains_key(id)
            ==> load.filters@.len() == 0,
        was.model.lookups.contains_key(id) && was.filters.contains_key(id) ==> load.filters@
            == was.model.lookups[id].filters@ + was.filters[id],
        was.model.lookups.contains_key(id) && !was.filters.contains_key(id) ==> load.filters@
            == was.model.lookups[id].filters@,
        was.quick_filters.contains_key(id) ==> (load.quick_filter matches Some((text, column))
            && text@ == was.quick_filters[id] && (was.quick_filter_columns.contains_key(id) ==> column
            == was.quick_filter_columns[id]) && (!was.quick_filter_columns.contains_key(id) ==> column
            == 0)),
        !was.quick_filters.contains_key(id) ==> load.quick_filter is None,
        load.include_total <==> page.total_rows is None && !was.model.lookups.contains_key(id),
        !now.summaries.contains_key(id),
        now.grids == was.grids,
        now.filters == was.filters,
        now.sorts == was.sorts,
{
    if was.model.lookups.contains_key(id) && !was.filters.contains_key(id) {
        assert(was.model.lookups[id].filters@ + Seq::<TableFilterClause>::empty()
            =~= was.model.lookups[id].filters@);
    }
}

/// The next page starts behind this one, and the previous one where the rows
/// before this one start, or at the first.
pub proof fn law_pages_follow_each_other(page: TablePage)
    ensures
        page.offset + page.limit <= u32::MAX ==> turned(page, true) == page.offset + page.limit,
        page.offset + page.limit > u32::MAX ==> turned(page, true) == u32::MAX,
        page.offset >= page.limit ==> turned(page, false) == page.offset - page.limit,
        page.offset < page.limit ==> turned(page, false) == 0,
        can_turn(page, false) <==> page.offset > 0,
        page.total_rows matches Some(total) ==> (can_turn(page, true) <==> page.offset + page.rows
            < total),
        page.total_rows is None ==> (can_turn(page, true) <==> page.rows == page.limit),
{
}

/// Sorting a tab sets its one sort, or takes it away, and leaves the other tabs
/// alone.
pub proof fn law_a_tab_is_sorted_by_one_column(
    v: WorkspaceView,
    id: u64,
    column: String,
    direction: Option<SortDirection>,
    other: u64,
)
    ensures
        direction matches Some(d) ==> v.sorted(id, column, direction).sorts.contains_key(id)
            && v.sorted(id, column, direction).sorts[id].column == column && v.sorted(
            id,
            column,
            direction,
        ).sorts[id].direction == d,
        direction is None ==> !v.sorted(id, column, direction).sorts.contains_key(id),
        other != id ==> get(v.sorted(id, column, direction).sorts, other) == get(v.sorts, other),
        v.sorted(id, column, direction).filters == v.filters,
        v.sorted(id, column, direction).grids == v.grids,
{
}

/// Reading the rows anew sets the tab loading, with its table and the changed page,
/// and begins a load of just that; a tab whose connection is not up waits.
pub proof fn law_reading_anew_keeps_the_table(
    was: WorkspaceView,
    now: WorkspaceView,
    id: u64,
    change: spec_fn(TablePage) -> TablePage,
    guarded: bool,
    r: Option<TableLoad>,
    at: int,
    target: TableTarget,
    page: TablePage,
)
    requires
        restarts(was, now, id, change, guarded, r),
        tab_at(was.model.tabs, id) == Some(at),
        was.model.tabs[at].kind matches TabKind::Table { target: t, page: p, .. } && t == target && p
            == page,
    ensures
        r matches Some(load) ==> load.tab_id == id && load.target == target && load.page == change(
            page,
        ),
        now.filters == was.filters,
        now.sorts == was.sorts,
        now.grids == was.grids,
{
}

proof fn lemma_without_parts(
    before: Seq<TableFilterClause>,
    clause: TableFilterClause,
    after: Seq<TableFilterClause>,
    column: Seq<char>,
    operator: TableFilterOperator,
)
    ensures
        without_filter(before + seq![clause] + after, column, operator) == without_filter(
            before,
            column,
            operator,
        ) + (if clause.column@ == column && clause.operator == operator {
            Seq::empty()
        } else {
            seq![clause]
        }) + without_filter(after, column, operator),
    decreases after.len(),
{
    let all = before + seq![clause] + after;
    let mid = if clause.column@ == column && clause.operator == operator {
        Seq::empty()
    } else {
        seq![clause]
    };
    if after.len() > 0 {
        lemma_without_parts(before, clause, after.drop_last(), column, operator);
        assert(all.drop_last() =~= before + seq![clause] + after.drop_last());
        assert(all.last() == after.last());
    } else {
        assert(all.drop_last() =~= before);
        assert(all.last() == clause);
    }
    assert(without_filter(all, column, operator) =~= without_filter(before, column, operator) + mid
        + without_filter(after, column, operator));
}

/// A new filter stands last and takes the place of the one on its column with its
/// operator; every other filter stays in its order.
pub proof fn law_other_filters_stay(
    before: Seq<TableFilterClause>,
    other: TableFilterClause,
    after: Seq<TableFilterClause>,
    clause: TableFilterClause,
)
    ensures
        with_filter(Seq::empty(), clause) == seq![clause],
        other.column@ != clause.column@ || other.operator != clause.operator ==> with_filter(
            before + seq![other] + after,
            clause,
        ) == with_filter(before, clause).drop_last() + seq![other] + with_filter(after, clause),
        other.column@ == clause.column@ && other.operator == clause.operator ==> with_filter(
            before + seq![other] + after,
            clause,
        ) == with_filter(before, clause).drop_last() + with_filter(after, clause),
{
    lemma_without_parts(before, other, after, clause.column@, clause.operator);
    let a = without_filter(before, clause.column@, clause.operator);
    let b = without_filter(after, clause.column@, clause.operator);
    assert(with_filter(before, clause).drop_last() =~= a);
    assert(with_filter(Seq::empty(), clause) =~= seq![clause]);
    assert((a + seq![other] + b).push(clause) =~= a + seq![other] + b.push(clause));
    assert((a + Seq::<TableFilterClause>::empty() + b).push(clause) =~= a + b.push(clause));
}

/// A filter holds its column, its operator and the trimmed value; a null check has
/// no value, and any other without one is not applied.
pub proof fn law_filters_hold_what_was_typed(
    clause: TableFilterClause,
    column: Seq<char>,
    operator: TableFilterOperator,
    value: Seq<char>,
)
    requires
        is_filter(clause, column, operator, value),
    ensures
        clause.column@ == column,
        clause.operator == operator,
        operator == TableFilterOperator::IsNull || operator == TableFilterOperator::IsNotNull
            ==> clause.value is None && complete_filter(operator, value),
        operator != TableFilterOperator::IsNull && operator != TableFilterOperator::IsNotNull ==> {
            &&& clause.value matches Some(text)
            &&& text@ == trim_of(value)
            &&& complete_filter(operator, value) <==> trim_of(value).len() > 0
        },
{
}

/// Filters of a tab are those that were set, and taking one away leaves the others
/// in their order. Other tabs keep theirs.
pub proof fn law_filters_are_of_their_tab(
    v: WorkspaceView,
    id: u64,
    list: Seq<TableFilterClause>,
    index: int,
    other: u64,
)
    requires
        v.filters.contains_key(id),
        0 <= index < v.filters[id].len(),
    ensures
        v.filtered(id, list).user_filters(id) == list,
        !v.filtered(id, list).filter_composers.contains(id),
        v.unfiltered(id).user_filters(id).len() == 0,
        !v.unfiltered(id).filter_composers.contains(id),
        v.without_user_filter(id, index).user_filters(id) == v.filters[id].take(index)
            + v.filters[id].skip(index + 1),
        other != id ==> {
            &&& v.filtered(id, list).user_filters(other) == v.user_filters(other)
            &&& v.unfiltered(id).user_filters(other) == v.user_filters(other)
            &&& v.without_user_filter(id, index).user_filters(other) == v.user_filters(other)
        },
{
    assert(v.filters[id].remove(index) =~= v.filters[id].take(index) + v.filters[id].skip(index + 1));
}

proof fn lemma_first_text_column(text_columns: Seq<bool>, from: int, at: int)
    requires
        0 <= from <= at <= text_columns.len(),
        forall|i: int| from <= i < at ==> !(#[trigger] text_columns[i]),
        at < text_columns.len() ==> text_columns[at],
    ensures
        first_text_column(text_columns, from) == if at < text_columns.len() {
            at
        } else {
            0
        },
    decreases text_columns.len() - from,
{
    if from < at {
        assert(!text_columns[from]);
        lemma_first_text_column(text_columns, from + 1, at);
    }
}

/// The quick filter starts from the first column that holds texts, or from the
/// first where none does. What a tab had set already stays.
pub proof fn law_filters_start_from_the_first_text(
    v: WorkspaceView,
    id: u64,
    table: Option<Table>,
    text_columns: Seq<bool>,
    at: int,
    operator: TableFilterOperator,
)
    requires
        0 <= at <= text_columns.len() <= usize::MAX,
        forall|i: int| 0 <= i < at ==> !(#[trigger] text_columns[i]),
        at < text_columns.len() ==> text_columns[at],
    ensures
        table is Some && at < text_columns.len() ==> quick_column_of(table, text_columns) == at,
        table is None || at == text_columns.len() ==> quick_column_of(table, text_columns) == 0,
        table matches Some(t) && t.columns@.len() > 0 ==> first_operator(table, operator) == operator,
        table is None ==> first_operator(table, operator) == TableFilterOperator::Equals,
        ({
            let column = quick_column_of(table, text_columns);
            let now = v.with_defaults(id, column, operator);
            &&& !v.quick_filter_columns.contains_key(id) ==> now.quick_filter_columns[id] == column
            &&& v.quick_filter_columns.contains_key(id) ==> now.quick_filter_columns[id]
                == v.quick_filter_columns[id]
            &&& !v.filter_columns.contains_key(id) ==> now.filter_columns[id] == 0
            &&& v.filter_columns.contains_key(id) ==> now.filter_columns[id] == v.filter_columns[id]
            &&& !v.filter_operators.contains_key(id) ==> now.filter_operators[id] == operator
            &&& v.filter_operators.contains_key(id) ==> now.filter_operators[id]
                == v.filter_operators[id]
            &&& now.filters == v.filters
        }),
{
    lemma_first_text_column(text_columns, 0, at);
}

/// A tab shows that its rows are loaded, its grid, or what went wrong.
pub proof fn law_tabs_show_the_state_of_their_table(
    target: &TableTarget,
    state: &TableLoadState,
    has_grid: bool,
    r: TableContent,
)
    requires
        call_ensures(table_content, (target, state, has_grid), r),
    ensures
        *state is Error ==> (r matches TableContent::Failed(text) && text@
            == "Table load failed. See Messages for details."@),
        !(*state is Error) && has_grid ==> (r matches TableContent::Grid { reloading } && (reloading
            <==> *state is Loading)),
        *state is Loading && !has_grid ==> (r matches TableContent::Loading(text) && text@
            == "Loading "@ + target.schema@ + "."@ + target.table@ + "…"@),
        *state is Loaded && !has_grid ==> (r matches TableContent::Unavailable(text) && text@
            == "Grid state is unavailable"@),
{
}

/// The layout of a table is kept under its connection, its database, its schema
/// and its name.
pub proof fn law_layouts_are_kept_by_table(target: &TableTarget, key: String)
    requires
        call_ensures(table_layout_key, (target,), key),
    ensures
        key@ == target.connection_id@ + "::"@ + target.database@ + "."@ + target.schema@ + "."@
            + target.table@,
{
}

/// A result that counts is shown: its rows, its columns and its report, sorted as
/// the load was, and its metrics are kept. One that failed leaves the grid.
pub proof fn law_results_are_shown(
    was: WorkspaceView,
    now: WorkspaceView,
    load: TableLoad,
    result: QueryResult,
    r: Option<bool>,
)
    requires
        takes_result(was, now, load, Ok(result), r),
        was.model.load_counts(load.tab_id, load.generation),
    ensures
        now.grids.contains_key(load.tab_id),
        now.grids[load.tab_id].rows == row_values(result.rows@),
        now.grids[load.tab_id].columns == result.columns@,
        now.grids[load.tab_id].null_display == was.null_display,
        now.grids[load.tab_id].stripe_rows == was.stripe_rows,
        now.grids[load.tab_id].editable matches Some(e) && e.target == load.target && e.table
            == load.table,
        !now.grids[load.tab_id].has_pending(),
        !now.grids[load.tab_id].reloading,
        load.sort is None ==> now.grids[load.tab_id].sort is None,
        r == Some(!was.grids.contains_key(load.tab_id)),
        now.summaries.contains_key(load.tab_id),
        now.summaries[load.tab_id].row_count == result.rows@.len() as u64,
        result.rows@.len() <= u32::MAX ==> now.last_metrics == Some(
            (result.rows@.len() as u64, result.truncated, result.duration_ms),
        ),
        now.filters == was.filters,
        now.sorts == was.sorts,
        forall|other: u64| #![trigger now.grids.contains_key(other)]
            other != load.tab_id ==> (now.grids.contains_key(other) <==> was.grids.contains_key(
                other,
            )),
{
}

/// The sort of a load is shown at the first column of its name, in its direction;
/// and a tab that a foreign key led to is at the first row of its focus column.
pub proof fn law_grids_show_the_sort_and_the_focus(
    was: WorkspaceView,
    now: WorkspaceView,
    load: TableLoad,
    result: QueryResult,
    r: Option<bool>,
    at: int,
    name: Seq<char>,
)
    requires
        takes_result(was, now, load, Ok(result), r),
        was.model.load_counts(load.tab_id, load.generation),
        0 <= at < result.columns@.len() <= usize::MAX,
        result.columns@[at].name@ == name,
        forall|j: int| 0 <= j < at ==> (#[trigger] result.columns@[j]).name@ != name,
    ensures
        load.sort matches Some(sort) && sort.column@ == name ==> now.grids[load.tab_id].sort == Some(
            (at as usize, load.sort->0.direction),
        ),
        was.model.lookups.contains_key(load.tab_id)
            && was.model.lookups[load.tab_id].focus_column@ == name ==> now.grids[load.tab_id].selection
            == Some(CellPosition { row: 0, column: at as usize }),
        !was.model.lookups.contains_key(load.tab_id) ==> now.grids[load.tab_id].selection is None,
{
    crate::editing::lemma_column_from(result.columns@, name, 0);
    let found = column_from(result.columns@, name, 0)->0;
    if found < at {
        assert(result.columns@[found].name@ != name);
    } else if at < found {
        assert(result.columns@[at].name@ != name);
    }
}

proof fn lemma_waiting(v: WorkspaceView, connection_id: Seq<char>, n: nat, k: int)
    requires
        n <= v.model.tabs.len(),
        0 <= k < n,
    ensures
        v.model.tabs[k].kind matches TabKind::Table { target, page, .. } ==> (waits(
            v,
            v.model.tabs[k],
            connection_id,
        ) ==> waiting(v, connection_id, n).contains((v.model.tabs[k].id, target, page))),
    decreases n,
{
    let before = waiting(v, connection_id, (n - 1) as nat);
    let all = waiting(v, connection_id, n);
    if let TabKind::Table { target, page, .. } = v.model.tabs[k].kind {
        let wanted = (v.model.tabs[k].id, target, page);
        if waits(v, v.model.tabs[k], connection_id) {
            if k < n - 1 {
                lemma_waiting(v, connection_id, (n - 1) as nat, k);
                let i = choose|i: int| 0 <= i < before.len() && before[i] == wanted;
                assert(all[i] == wanted);
            } else {
                assert(all[all.len() - 1] == wanted);
            }
        }
    }
}

proof fn lemma_only_waiting(v: WorkspaceView, connection_id: Seq<char>, n: nat, i: int)
    requires
        n <= v.model.tabs.len(),
        0 <= i < waiting(v, connection_id, n).len(),
    ensures
        exists|k: int|
            0 <= k < n && waits(v, #[trigger] v.model.tabs[k], connection_id) && v.model.tabs[k].id
                == waiting(v, connection_id, n)[i].0,
    decreases n,
{
    let before = waiting(v, connection_id, (n - 1) as nat);
    if i < before.len() {
        lemma_only_waiting(v, connection_id, (n - 1) as nat, i);
        let k = choose|k: int|
            0 <= k < n - 1 && waits(v, #[trigger] v.model.tabs[k], connection_id)
                && v.model.tabs[k].id == before[i].0;
        assert(waits(v, v.model.tabs[k], connection_id));
    } else {
        assert(waits(v, v.model.tabs[n - 1], connection_id));
    }
}

/// The loads that wait for a connection are those of its tables that show nothing
/// yet and are loading, or were loaded before the connection was up. No other tab
/// waits.
pub proof fn law_waiting_tabs_are_resumed(
    workspace: &TableWorkspace,
    connection_id: &str,
    r: Vec<(u64, TableTarget, TablePage)>,
    k: int,
    i: int,
)
    requires
        workspace.wf(),
        call_ensures(TableWorkspace::resume_table_loads, (workspace, connection_id), r),
        0 <= k < workspace@.model.tabs.len(),
        0 <= i < r@.len(),
    ensures
        workspace@.model.tabs[k].kind matches TabKind::Table { target, state, page } ==> ((
        target.connection_id@ == connection_id@ && !workspace@.grids.contains_key(
            workspace@.model.tabs[k].id,
        ) && (state is Loading || (state matches TableLoadState::Error(error) && error@
            == TABLE_METADATA_UNAVAILABLE@))) ==> r@.contains(
            (workspace@.model.tabs[k].id, target, page),
        )),
        exists|t: int|
            {
                &&& 0 <= t < workspace@.model.tabs.len()
                &&& (#[trigger] workspace@.model.tabs[t]).id == r@[i].0
                &&& workspace@.model.tabs[t].kind matches TabKind::Table { target, .. }
                &&& target.connection_id@ == connection_id@
                &&& !workspace@.grids.contains_key(r@[i].0)
            },
{
    lemma_waiting(workspace@, connection_id@, workspace@.model.tabs.len(), k);
    lemma_only_waiting(workspace@, connection_id@, workspace@.model.tabs.len(), i);
}

/// A tab with a grid is asked whether its rows may be read anew, and one without
/// lets them. No other grid is touched.
pub proof fn law_grids_have_the_last_word(
    v: WorkspaceView,
    id: u64,
    text: Seq<char>,
    other: u64,
)
    requires
        other != id,
    ensures
        !v.grids.contains_key(id) ==> v.allows(id, text) && v.asked(id, text) == v,
        v.grids.contains_key(id) ==> {
            &&& v.allows(id, text) <==> v.grids[id].prepared(text).reloading
            &&& v.asked(id, text).grids.contains_key(id)
            &&& v.asked(id, text).grids[id] == v.grids[id].prepared(text)
        },
        v.asked(id, text).grids.contains_key(other) <==> v.grids.contains_key(other),
        v.grids.contains_key(other) ==> v.asked(id, text).grids[other] == v.grids[other],
        v.asked(id, text).filters == v.filters,
        v.asked(id, text).model == v.model,
{
}

/// Where the rows may not be read anew, neither the sort nor the filters of a tab
/// change and nothing is loaded.
pub proof fn law_refused_changes_change_nothing(
    was: WorkspaceView,
    sorted: WorkspaceView,
    filtered: WorkspaceView,
    id: u64,
    column: String,
    direction: Option<SortDirection>,
    value: Option<Seq<char>>,
    operator: TableFilterOperator,
    text: Seq<char>,
    sort_load: Option<TableLoad>,
    filter_load: Option<TableLoad>,
)
    requires
        changes_sort(was, sorted, id, column, direction, text, sort_load),
        applies_filter(was, filtered, id, value, operator, text, filter_load),
        was.grids.contains_key(id),
        !was.grids[id].prepared(text).reloading,
    ensures
        sort_load is None,
        filter_load is None,
        sorted.sorts == was.sorts,
        filtered.filters == was.filters,
        sorted.model == was.model,
        filtered.model == was.model,
{
}

/// A sort that is set reads the rows anew from the first on, sorted so.
pub proof fn law_sorts_start_from_the_first_row(
    was: WorkspaceView,
    now: WorkspaceView,
    id: u64,
    column: String,
    direction: SortDirection,
    text: Seq<char>,
    load: TableLoad,
)
    requires
        changes_sort(was, now, id, column, Some(direction), text, Some(load)),
    ensures
        load.tab_id == id,
        load.page.offset == 0,
        load.sort matches Some(sort) && sort.column == column && sort.direction == direction,
        now.sorts.contains_key(id),
        now.sorts[id].column == column,
        now.sorts[id].direction == direction,
{
}

/// A filter is composed for the column that was chosen, or the first, of the table
/// that the tab shows, with the operator that was chosen.
pub proof fn law_filters_are_composed_for_the_chosen_column(
    v: WorkspaceView,
    id: u64,
    operator: TableFilterOperator,
    at: int,
    target: TableTarget,
    table: Table,
)
    requires
        tab_at(v.model.tabs, id) == Some(at),
        v.model.tabs[at].kind matches TabKind::Table { target: t, .. } && t == target,
        v.model.table_of(target@) == Some(table),
    ensures
        v.filter_columns.contains_key(id) && v.filter_columns[id] < table.columns@.len()
            ==> v.filter_column(id) == Some(table.columns@[v.filter_columns[id] as int]),
        !v.filter_columns.contains_key(id) && table.columns@.len() > 0 ==> v.filter_column(id) == Some(
            table.columns@[0],
        ),
        v.filter_columns.contains_key(id) && v.filter_columns[id] >= table.columns@.len()
            ==> v.filter_column(id) is None,
        v.filter_operators.contains_key(id) ==> v.filter_operator(id, operator)
            == v.filter_operators[id],
        !v.filter_operators.contains_key(id) ==> v.filter_operator(id, operator) == operator,
{
}

/// A filter that is applied is the last of the tab's, on the column it was composed
/// for, and the rows are read anew from the first on with their total unknown.
pub proof fn law_applied_filters_are_loaded(
    was: WorkspaceView,
    now: WorkspaceView,
    id: u64,
    value: Seq<char>,
    operator: TableFilterOperator,
    text: Seq<char>,
    load: TableLoad,
    column: Column,
)
    requires
        applies_filter(was, now, id, Some(value), operator, text, Some(load)),
        was.filter_column(id) == Some(column),
    ensures
        load.tab_id == id,
        load.page.offset == 0,
        load.page.total_rows is None,
        load.filters@.len() > 0,
        load.filters@.last().column@ == column.name@,
        load.filters@.last().operator == was.filter_operator(id, operator),
        load.filters@.last().operator != TableFilterOperator::IsNull && load.filters@.last().operator
            != TableFilterOperator::IsNotNull ==> (load.filters@.last().value matches Some(typed)
            && typed@ == trim_of(value) && typed@.len() > 0),
        !now.filter_composers.contains(id),
{
    let asked = was.asked(id, text);
    let used = was.filter_operator(id, operator);
    let clause = choose|clause: TableFilterClause|
        is_filter(clause, column.name@, used, value) && restarts(
            asked.filtered(id, #[trigger] with_filter(was.user_filters(id), clause)),
            now,
            id,
            |page: TablePage| TablePage { offset: 0, total_rows: None, ..page },
            false,
            Some(load),
        );
    let list = with_filter(was.user_filters(id), clause);
    let set = asked.filtered(id, list);
    assert(list.last() == clause);
    assert(set.user_filters(id) == list);
    assert(set.load_filters(id).last() == clause);
    assert(load.filters@ == set.load_filters(id));
}

/// A filter that is taken out to be composed anew leaves the others, and its
/// operator, its column and its value are what is composed.
pub proof fn law_edited_filters_are_composed_anew(
    was: WorkspaceView,
    now: WorkspaceView,
    id: u64,
    index: int,
    r: Option<String>,
    at: int,
)
    requires
        edits_filter(was, now, id, index, r),
        was.filters.contains_key(id),
        0 <= index < was.filters[id].len(),
        target_of(was.model, id) is Some,
        0 <= at < columns_of(was.model, target_of(was.model, id)->0).len() <= usize::MAX,
        columns_of(was.model, target_of(was.model, id)->0)[at].name@ == was.filters[id][index].column@,
        forall|j: int|
            0 <= j < at ==> (#[trigger] columns_of(
                was.model,
                target_of(was.model, id)->0,
            )[j]).name@ != was.filters[id][index].column@,
    ensures
        now.filters[id] == was.filters[id].take(index) + was.filters[id].skip(index + 1),
        now.filter_operators[id] == was.filters[id][index].operator,
        now.filter_composers.contains(id),
        now.filter_columns[id] == at,
        was.filters[id][index].value matches Some(value) ==> (r matches Some(text) && text@ == value@),
        was.filters[id][index].value is None ==> (r matches Some(text) && text@.len() == 0),
{
    let columns = columns_of(was.model, target_of(was.model, id)->0);
    let name = was.filters[id][index].column@;
    assert(was.filters[id].remove(index) =~= was.filters[id].take(index) + was.filters[id].skip(
        index + 1,
    ));
    assert(columns[at].name@ == name);
    assert(has_column(columns, name));
    let found = choose|found: usize| #[trigger]
        first_named(columns, name, found) && now.filter_columns == was.filter_columns.insert(
            id,
            found,
        );
    if found < at {
        assert(columns[found as int].name@ != name);
    } else if at < found {
        assert(columns[at].name@ != name);
    }
}

/// The grid of a table is that of the engine of its connection: the first one of
/// its id, by its family, or Postgres where it is not known.
pub proof fn law_grids_are_of_the_engine_of_their_connection(
    connections: Seq<ConnectionConfig>,
    id: Seq<char>,
    at: int,
)
    requires
        0 <= at <= connections.len(),
        forall|i: int| 0 <= i < at ==> (#[trigger] connections[i]).id@ != id,
        at < connections.len() ==> connections[at].id@ == id,
    ensures
        at < connections.len() ==> engine_of(connections, id) == connections[at].engine.family_of(),
        at == connections.len() ==> engine_of(connections, id) == Engine::Postgres,
{
    if at < connections.len() {
        assert(first_with_id(connections, id, at));
        let found = choose|found: int| #[trigger] first_with_id(connections, id, found);
        if found < at {
            assert(connections[found].id@ != id);
        } else if at < found {
            assert(connections[at].id@ != id);
        }
    } else if exists|found: int| #[trigger] first_with_id(connections, id, found) {
        let found = choose|found: int| #[trigger] first_with_id(connections, id, found);
        assert(connections[found].id@ != id);
    }
}

/// A new workspace has nothing but its model.
pub proof fn law_new_workspaces_are_empty(model: AppModel, r: TableWorkspace, id: u64)
    requires
        model.wf(),
        call_ensures(TableWorkspace::new, (model,), r),
    ensures
        r@.model == model@,
        !r@.grids.contains_key(id),
        !r@.sorts.contains_key(id),
        !r@.filters.contains_key(id),
        !r@.quick_filters.contains_key(id),
        !r@.summaries.contains_key(id),
        r@.last_metrics is None,
        r@.null_display == "NULL"@,
        !r@.stripe_rows,
{
}

} // verus!
