//! The tabs of the workspace: what each of them shows, and in what state.
use vstd::prelude::*;

use crate::browse::{TableFilterClause, TableFilterOperator};
use crate::schema::{copy_opt, copy_texts};
use crate::text::{nat_text, push_u64, same_text, texts};
use crate::value::opt_text;

verus! {

// ---------------------------------------------------------------------
// Comparing
// ---------------------------------------------------------------------
pub fn same_opt_text(a: &Option<String>, b: &Option<String>) -> (r: bool)
    ensures
        r == (opt_text(*a) == opt_text(*b)),
{
    match (a, b) {
        (Some(x), Some(y)) => same_text(x.as_str(), y.as_str()),
        (None, None) => true,
        _ => false,
    }
}

pub fn same_texts(a: &[String], b: &[String]) -> (r: bool)
    ensures
        r == (texts(a@) == texts(b@)),
{
    if a.len() != b.len() {
        assert(texts(a@).len() != texts(b@).len());
        return false;
    }
    let mut i: usize = 0;
    while i < a.len()
        invariant
            i <= a@.len(),
            a@.len() == b@.len(),
            forall|j: int| 0 <= j < i ==> (#[trigger] a@[j])@ == b@[j]@,
        decreases a@.len() - i,
    {
        if !same_text(a[i].as_str(), b[i].as_str()) {
            assert(texts(a@)[i as int] != texts(b@)[i as int]);
            return false;
        }
        i += 1;
    }
    assert(texts(a@) =~= texts(b@));
    true
}

// ---------------------------------------------------------------------
// Targets
// ---------------------------------------------------------------------
/// A table of a connection.
#[derive(PartialEq, Eq, Hash, Debug)]
pub struct TableTarget {
    pub connection_id: String,
    pub database: String,
    pub schema: String,
    pub table: String,
}

/// The model of [`TableTarget`].
pub struct TableTargetView {
    pub connection_id: Seq<char>,
    pub database: Seq<char>,
    pub schema: Seq<char>,
    pub table: Seq<char>,
}

impl View for TableTarget {
    type V = TableTargetView;

    open spec fn view(&self) -> TableTargetView {
        TableTargetView {
            connection_id: self.connection_id@,
            database: self.database@,
            schema: self.schema@,
            table: self.table@,
        }
    }
}

impl Clone for TableTarget {
    fn clone(&self) -> (r: Self)
        ensures
            r == *self,
    {
        TableTarget {
            connection_id: self.connection_id.clone(),
            database: self.database.clone(),
            schema: self.schema.clone(),
            table: self.table.clone(),
        }
    }
}

impl TableTarget {
    pub fn same(&self, other: &Self) -> (r: bool)
        ensures
            r == (self@ == other@),
    {
        same_text(self.connection_id.as_str(), other.connection_id.as_str()) && same_text(
            self.database.as_str(),
            other.database.as_str(),
        ) && same_text(self.schema.as_str(), other.schema.as_str()) && same_text(
            self.table.as_str(),
            other.table.as_str(),
        )
    }
}

/// The predicates of a tab that a foreign key was followed to. The user's own
/// filters come on top of them, so the tab never widens to the whole table.
#[derive(PartialEq, Eq, Debug)]
pub struct TableLookupContext {
    pub filters: Vec<TableFilterClause>,
    pub focus_column: String,
}

/// The model of a [`TableFilterClause`].
pub struct FilterView {
    pub column: Seq<char>,
    pub operator: TableFilterOperator,
    pub value: Option<Seq<char>>,
}

/// The model of [`TableLookupContext`].
pub struct LookupView {
    pub filters: Seq<FilterView>,
    pub focus_column: Seq<char>,
}

pub open spec fn filter_view(filter: TableFilterClause) -> FilterView {
    FilterView {
        column: filter.column@,
        operator: filter.operator,
        value: opt_text(filter.value),
    }
}

pub open spec fn filter_views(filters: Seq<TableFilterClause>) -> Seq<FilterView> {
    filters.map_values(|f: TableFilterClause| filter_view(f))
}

impl View for TableLookupContext {
    type V = LookupView;

    open spec fn view(&self) -> LookupView {
        LookupView { filters: filter_views(self.filters@), focus_column: self.focus_column@ }
    }
}

pub fn same_filters(a: &[TableFilterClause], b: &[TableFilterClause]) -> (r: bool)
    ensures
        r == (filter_views(a@) == filter_views(b@)),
{
    if a.len() != b.len() {
        assert(filter_views(a@).len() != filter_views(b@).len());
        return false;
    }
    let mut i: usize = 0;
    while i < a.len()
        invariant
            i <= a@.len(),
            a@.len() == b@.len(),
            forall|j: int| 0 <= j < i ==> filter_view(#[trigger] a@[j]) == filter_view(b@[j]),
        decreases a@.len() - i,
    {
        if !same_text(a[i].column.as_str(), b[i].column.as_str()) || a[i].operator
            != b[i].operator || !same_opt_text(&a[i].value, &b[i].value) {
            assert(filter_views(a@)[i as int] != filter_views(b@)[i as int]);
            return false;
        }
        i += 1;
    }
    assert(filter_views(a@) =~= filter_views(b@));
    true
}

impl TableLookupContext {
    pub fn same(&self, other: &Self) -> (r: bool)
        ensures
            r == (self@ == other@),
    {
        same_filters(self.filters.as_slice(), other.filters.as_slice()) && same_text(
            self.focus_column.as_str(),
            other.focus_column.as_str(),
        )
    }
}

/// The database that a query tab runs in.
#[derive(PartialEq, Eq, Debug)]
pub struct QueryTarget {
    pub connection_id: String,
    pub database: String,
}

impl Clone for QueryTarget {
    fn clone(&self) -> (r: Self)
        ensures
            r == *self,
    {
        QueryTarget { connection_id: self.connection_id.clone(), database: self.database.clone() }
    }
}

/// What an ER diagram shows: a database, or some of its schemas.
#[derive(PartialEq, Eq, Debug)]
pub struct ErDiagramTarget {
    pub connection_id: String,
    pub database: String,
    pub schemas: Option<Vec<String>>,
}

/// The model of [`ErDiagramTarget`].
pub struct ErDiagramTargetView {
    pub connection_id: Seq<char>,
    pub database: Seq<char>,
    pub schemas: Option<Seq<Seq<char>>>,
}

impl View for ErDiagramTarget {
    type V = ErDiagramTargetView;

    open spec fn view(&self) -> ErDiagramTargetView {
        ErDiagramTargetView {
            connection_id: self.connection_id@,
            database: self.database@,
            schemas: match self.schemas {
                Some(list) => Some(texts(list@)),
                None => None,
            },
        }
    }
}

impl Clone for ErDiagramTarget {
    fn clone(&self) -> (r: Self)
        ensures
            r@ == self@,
    {
        ErDiagramTarget {
            connection_id: self.connection_id.clone(),
            database: self.database.clone(),
            schemas: match &self.schemas {
                Some(list) => Some(copy_texts(list.as_slice())),
                None => None,
            },
        }
    }
}

impl ErDiagramTarget {
    pub fn same(&self, other: &Self) -> (r: bool)
        ensures
            r == (self@ == other@),
    {
        let schemas = match (&self.schemas, &other.schemas) {
            (Some(a), Some(b)) => same_texts(a.as_slice(), b.as_slice()),
            (None, None) => true,
            _ => false,
        };
        schemas && same_text(self.connection_id.as_str(), other.connection_id.as_str())
            && same_text(self.database.as_str(), other.database.as_str())
    }
}

// ---------------------------------------------------------------------
// Schema comparison
// ---------------------------------------------------------------------
/// One side of a schema comparison.
#[derive(PartialEq, Eq, Hash, Debug)]
pub enum SchemaCompareSource {
    Live { connection_id: String, database: String, schema: String, label: Option<String> },
    Snapshot { id: String, schema: String, label: Option<String> },
}

/// The model of [`SchemaCompareSource`].
pub enum SourceView {
    Live {
        connection_id: Seq<char>,
        database: Seq<char>,
        schema: Seq<char>,
        label: Option<Seq<char>>,
    },
    Snapshot { id: Seq<char>, schema: Seq<char>, label: Option<Seq<char>> },
}

impl View for SchemaCompareSource {
    type V = SourceView;

    open spec fn view(&self) -> SourceView {
        match self {
            SchemaCompareSource::Live {
                connection_id,
                database,
                schema,
                label,
            } => SourceView::Live {
                connection_id: connection_id@,
                database: database@,
                schema: schema@,
                label: opt_text(*label),
            },
            SchemaCompareSource::Snapshot { id, schema, label } => SourceView::Snapshot {
                id: id@,
                schema: schema@,
                label: opt_text(*label),
            },
        }
    }
}

impl Clone for SchemaCompareSource {
    fn clone(&self) -> (r: Self)
        ensures
            r == *self,
    {
        match self {
            SchemaCompareSource::Live {
                connection_id,
                database,
                schema,
                label,
            } => SchemaCompareSource::Live {
                connection_id: connection_id.clone(),
                database: database.clone(),
                schema: schema.clone(),
                label: copy_opt(label),
            },
            SchemaCompareSource::Snapshot { id, schema, label } => SchemaCompareSource::Snapshot {
                id: id.clone(),
                schema: schema.clone(),
                label: copy_opt(label),
            },
        }
    }
}

/// `a / b`.
pub open spec fn slashed(a: Seq<char>, b: Seq<char>) -> Seq<char> {
    a + " / "@ + b
}

fn slash(a: &str, b: &str) -> (r: String)
    ensures
        r@ == slashed(a@, b@),
{
    let mut out = a.to_owned();
    out.append(" / ");
    out.append(b);
    assert(out@ =~= slashed(a@, b@));
    out
}

/// The text of an optional reference.
pub open spec fn opt_str(r: Option<&str>) -> Option<Seq<char>> {
    match r {
        Some(t) => Some(t@),
        None => None,
    }
}

impl SourceView {
    pub open spec fn schema_name(self) -> Seq<char> {
        match self {
            SourceView::Live { schema, .. } => schema,
            SourceView::Snapshot { schema, .. } => schema,
        }
    }

    /// The connection of a live side.
    pub open spec fn connection(self) -> Option<Seq<char>> {
        match self {
            SourceView::Live { connection_id, .. } => Some(connection_id),
            SourceView::Snapshot { .. } => None,
        }
    }

    pub open spec fn database_name(self) -> Option<Seq<char>> {
        match self {
            SourceView::Live { database, .. } => Some(database),
            SourceView::Snapshot { .. } => None,
        }
    }

    /// The label, or one made of where the schema is from and its name.
    pub open spec fn label_text(self) -> Seq<char> {
        match self {
            SourceView::Live { database, schema, label, .. } => match label {
                Some(l) => l,
                None => slashed(database, schema),
            },
            SourceView::Snapshot { id, schema, label } => match label {
                Some(l) => l,
                None => slashed(id, schema),
            },
        }
    }
}

impl SchemaCompareSource {
    pub fn schema(&self) -> (r: &str)
        ensures
            r@ == self@.schema_name(),
    {
        match self {
            SchemaCompareSource::Live { schema, .. } => schema.as_str(),
            SchemaCompareSource::Snapshot { schema, .. } => schema.as_str(),
        }
    }

    pub fn label(&self) -> (r: String)
        ensures
            r@ == self@.label_text(),
    {
        match self {
            SchemaCompareSource::Live { database, schema, label, .. } => match label {
                Some(l) => l.clone(),
                None => slash(database.as_str(), schema.as_str()),
            },
            SchemaCompareSource::Snapshot { id, schema, label } => match label {
                Some(l) => l.clone(),
                None => slash(id.as_str(), schema.as_str()),
            },
        }
    }

    pub fn live_connection_id(&self) -> (r: Option<&str>)
        ensures
            opt_str(r) == self@.connection(),
    {
        match self {
            SchemaCompareSource::Live { connection_id, .. } => Some(connection_id.as_str()),
            SchemaCompareSource::Snapshot { .. } => None,
        }
    }

    pub fn references_connection(&self, id: &str) -> (r: bool)
        ensures
            r == (self@.connection() == Some(id@)),
    {
        match self.live_connection_id() {
            Some(connection_id) => same_text(connection_id, id),
            None => false,
        }
    }

    pub fn database(&self) -> (r: Option<&str>)
        ensures
            opt_str(r) == self@.database_name(),
    {
        match self {
            SchemaCompareSource::Live { database, .. } => Some(database.as_str()),
            SchemaCompareSource::Snapshot { .. } => None,
        }
    }

    pub fn same(&self, other: &Self) -> (r: bool)
        ensures
            r == (self@ == other@),
    {
        match (self, other) {
            (
                SchemaCompareSource::Live { connection_id, database, schema, label },
                SchemaCompareSource::Live {
                    connection_id: other_id,
                    database: other_database,
                    schema: other_schema,
                    label: other_label,
                },
            ) => same_text(connection_id.as_str(), other_id.as_str()) && same_text(
                database.as_str(),
                other_database.as_str(),
            ) && same_text(schema.as_str(), other_schema.as_str()) && same_opt_text(
                label,
                other_label,
            ),
            (
                SchemaCompareSource::Snapshot { id, schema, label },
                SchemaCompareSource::Snapshot {
                    id: other_id,
                    schema: other_schema,
                    label: other_label,
                },
            ) => same_text(id.as_str(), other_id.as_str()) && same_text(
                schema.as_str(),
                other_schema.as_str(),
            ) && same_opt_text(label, other_label),
            _ => false,
        }
    }
}

/// The two sides of a schema comparison.
#[derive(PartialEq, Eq, Hash, Debug)]
pub struct SchemaCompareConfig {
    pub source: SchemaCompareSource,
    pub target: SchemaCompareSource,
}

impl Clone for SchemaCompareConfig {
    fn clone(&self) -> (r: Self)
        ensures
            r == *self,
    {
        SchemaCompareConfig { source: self.source.clone(), target: self.target.clone() }
    }
}

impl View for SchemaCompareConfig {
    type V = (SourceView, SourceView);

    open spec fn view(&self) -> (SourceView, SourceView) {
        (self.source@, self.target@)
    }
}

impl SchemaCompareConfig {
    pub fn same(&self, other: &Self) -> (r: bool)
        ensures
            r == (self@ == other@),
    {
        self.source.same(&other.source) && self.target.same(&other.target)
    }
}

// ---------------------------------------------------------------------
// States
// ---------------------------------------------------------------------
#[derive(Clone, PartialEq, Eq, Debug)]
pub enum SchemaCompareState {
    Loading,
    Ready,
    Error(String),
}

/// The state of an ER diagram. A diagram that is ready is known by the number of
/// its graph.
#[derive(Clone, PartialEq, Eq, Debug)]
pub enum ErDiagramState {
    Loading,
    Ready(u64),
    Error(String),
}

#[derive(Clone, PartialEq, Eq, Debug)]
pub enum TableLoadState {
    Loading,
    Loaded,
    Error(String),
}

/// The page of a table that a tab shows.
#[derive(Clone, Copy, PartialEq, Eq, Structural, Debug)]
pub struct TablePage {
    pub offset: u32,
    pub limit: u32,
    pub rows: u32,
    pub total_rows: Option<u64>,
}

impl Default for TablePage {
    fn default() -> (r: Self)
        ensures
            r.offset == 0,
            r.limit == 500,
            r.rows == 0,
            r.total_rows is None,
    {
        TablePage { offset: 0, limit: 500, rows: 0, total_rows: None }
    }
}

impl TablePage {
    pub open spec fn previous_exists(self) -> bool {
        self.offset > 0
    }

    /// Whether rows follow: by the total where it is known, else whenever the
    /// page is full.
    pub open spec fn next_exists(self) -> bool {
        match self.total_rows {
            Some(total) => self.offset + self.rows < total,
            None => self.rows == self.limit,
        }
    }

    pub fn has_previous(self) -> (r: bool)
        ensures
            r == self.previous_exists(),
    {
        self.offset > 0
    }

    pub fn has_next(self) -> (r: bool)
        ensures
            r == self.next_exists(),
    {
        match self.total_rows {
            Some(total) => self.offset as u64 + (self.rows as u64) < total,
            None => self.rows == self.limit,
        }
    }
}

/// The rows of a page by their numbers from 1, and the total where it is known.
pub open spec fn page_text(page: TablePage) -> Seq<char> {
    let span = nat_text((page.offset + 1) as nat) + "–"@ + nat_text(
        (page.offset + page.rows) as nat,
    );
    match page.total_rows {
        Some(total) => span + " of "@ + nat_text(total as nat),
        None => span,
    }
}

/// The label of a page: `501–620 of 620`.
pub fn page_label(page: TablePage) -> (r: String)
    ensures
        r@ == page_text(page),
{
    let mut out = String::new();
    push_u64(&mut out, page.offset as u64 + 1);
    out.append("–");
    push_u64(&mut out, page.offset as u64 + page.rows as u64);
    if let Some(total) = page.total_rows {
        out.append(" of ");
        push_u64(&mut out, total);
    }
    assert(out@ =~= page_text(page));
    out
}

#[derive(Clone, PartialEq, Eq, Debug)]
pub enum QueryState {
    Editing,
    Running { rows_received: u64 },
    Complete { rows_received: u64, duration_ms: u64 },
    Error(String),
}

/// What a tab shows.
#[allow(inconsistent_fields)]
pub enum TabKind {
    Table { target: TableTarget, state: TableLoadState, page: TablePage },
    Query { target: QueryTarget, state: QueryState },
    ErDiagram { target: ErDiagramTarget, state: ErDiagramState },
    SchemaCompare { config: SchemaCompareConfig, state: SchemaCompareState },
}

/// A tab.
pub struct WorkspaceTab {
    pub id: u64,
    pub title: String,
    pub pinned: bool,
    pub kind: TabKind,
}

impl TabKind {
    /// Whether the tab shows something of this connection.
    pub open spec fn references(self, id: Seq<char>) -> bool {
        match self {
            TabKind::Table { target, .. } => target.connection_id@ == id,
            TabKind::Query { target, .. } => target.connection_id@ == id,
            TabKind::ErDiagram { target, .. } => target.connection_id@ == id,
            TabKind::SchemaCompare { config, .. } => config.source@.connection() == Some(id)
                || config.target@.connection() == Some(id),
        }
    }

    pub fn references_connection(&self, id: &str) -> (r: bool)
        ensures
            r == self.references(id@),
    {
        match self {
            TabKind::Table { target, .. } => same_text(target.connection_id.as_str(), id),
            TabKind::Query { target, .. } => same_text(target.connection_id.as_str(), id),
            TabKind::ErDiagram { target, .. } => same_text(target.connection_id.as_str(), id),
            TabKind::SchemaCompare { config, .. } => config.source.references_connection(id)
                || config.target.references_connection(id),
        }
    }
}

// ---------------------------------------------------------------------
// Laws
// ---------------------------------------------------------------------
/// Two targets are the same exactly where all four names are.
pub proof fn law_targets_are_told_by_their_names(a: &TableTarget, b: &TableTarget, r: bool)
    requires
        call_ensures(TableTarget::same, (a, b), r),
    ensures
        r <==> a.connection_id@ == b.connection_id@ && a.database@ == b.database@ && a.schema@
            == b.schema@ && a.table@ == b.table@,
{
}

/// Two diagrams are the same exactly where they show the same schemas of the same
/// database.
pub proof fn law_diagrams_are_told_by_their_schemas(
    a: &ErDiagramTarget,
    b: &ErDiagramTarget,
    r: bool,
)
    requires
        call_ensures(ErDiagramTarget::same, (a, b), r),
    ensures
        r ==> a.connection_id@ == b.connection_id@ && a.database@ == b.database@ && (a.schemas is Some
            <==> b.schemas is Some),
        r && a.schemas is Some ==> texts(a.schemas->0@) == texts(b.schemas->0@),
        a.connection_id@ == b.connection_id@ && a.database@ == b.database@ && a.schemas is None
            && b.schemas is None ==> r,
        a.connection_id@ == b.connection_id@ && a.database@ == b.database@ && a.schemas is Some
            && b.schemas is Some && texts(a.schemas->0@) == texts(b.schemas->0@) ==> r,
{
}

/// Two lookups are the same exactly where they show the same column and every
/// filter is the same.
pub proof fn law_lookups_are_told_by_their_filters(
    a: &TableLookupContext,
    b: &TableLookupContext,
    r: bool,
)
    requires
        call_ensures(TableLookupContext::same, (a, b), r),
    ensures
        r <==> {
            &&& a.focus_column@ == b.focus_column@
            &&& a.filters@.len() == b.filters@.len()
            &&& forall|i: int|
                0 <= i < a.filters@.len() ==> (#[trigger] a.filters@[i]).column@
                    == b.filters@[i].column@ && a.filters@[i].operator == b.filters@[i].operator
                    && opt_text(a.filters@[i].value) == opt_text(b.filters@[i].value)
        },
{
    let x = filter_views(a.filters@);
    let y = filter_views(b.filters@);
    assert(x.len() == a.filters@.len() && y.len() == b.filters@.len());
    if x == y {
        assert forall|i: int| 0 <= i < a.filters@.len() implies (
        #[trigger] a.filters@[i]).column@ == b.filters@[i].column@ && a.filters@[i].operator
            == b.filters@[i].operator && opt_text(a.filters@[i].value) == opt_text(
            b.filters@[i].value,
        ) by {
            assert(x[i] == filter_view(a.filters@[i]));
            assert(y[i] == filter_view(b.filters@[i]));
        }
    }
    if a.filters@.len() == b.filters@.len() && forall|i: int|
        0 <= i < a.filters@.len() ==> (#[trigger] a.filters@[i]).column@ == b.filters@[i].column@
            && a.filters@[i].operator == b.filters@[i].operator && opt_text(a.filters@[i].value)
            == opt_text(b.filters@[i].value) {
        assert forall|i: int| 0 <= i < x.len() implies x[i] == y[i] by {
            assert(a.filters@[i].column@ == b.filters@[i].column@);
        }
        assert(x =~= y);
    }
}

/// A side of a comparison tells its schema, its database and its connection; a
/// snapshot has neither of the latter. Without a label it is called by where it is
/// from and its schema.
pub proof fn law_sides_tell_where_they_are_from(
    side: &SchemaCompareSource,
    schema: &str,
    label: String,
    connection: Option<&str>,
    database: Option<&str>,
    id: &str,
    referred: bool,
)
    requires
        call_ensures(SchemaCompareSource::schema, (side,), schema),
        call_ensures(SchemaCompareSource::label, (side,), label),
        call_ensures(SchemaCompareSource::live_connection_id, (side,), connection),
        call_ensures(SchemaCompareSource::database, (side,), database),
        call_ensures(SchemaCompareSource::references_connection, (side, id), referred),
    ensures
        match *side {
            SchemaCompareSource::Live { connection_id, database: name, schema: own, label: given } => {
                &&& schema@ == own@
                &&& connection matches Some(c)
                &&& c@ == connection_id@
                &&& database matches Some(d)
                &&& d@ == name@
                &&& referred <==> connection_id@ == id@
                &&& given matches Some(text) ==> label@ == text@
                &&& given is None ==> label@ == name@ + " / "@ + own@
            },
            SchemaCompareSource::Snapshot { id: from, schema: own, label: given } => {
                &&& schema@ == own@
                &&& connection is None
                &&& database is None
                &&& !referred
                &&& given matches Some(text) ==> label@ == text@
                &&& given is None ==> label@ == from@ + " / "@ + own@
            },
        },
{
}

/// Two sides are the same exactly where they are of one kind and all their parts
/// are the same.
pub proof fn law_sides_are_told_by_all_their_parts(
    a: &SchemaCompareSource,
    b: &SchemaCompareSource,
    r: bool,
)
    requires
        call_ensures(SchemaCompareSource::same, (a, b), r),
    ensures
        r <==> match (*a, *b) {
            (
                SchemaCompareSource::Live { connection_id, database, schema, label },
                SchemaCompareSource::Live {
                    connection_id: other_connection,
                    database: other_database,
                    schema: other_schema,
                    label: other_label,
                },
            ) => connection_id@ == other_connection@ && database@ == other_database@ && schema@
                == other_schema@ && opt_text(label) == opt_text(other_label),
            (
                SchemaCompareSource::Snapshot { id, schema, label },
                SchemaCompareSource::Snapshot {
                    id: other_id,
                    schema: other_schema,
                    label: other_label,
                },
            ) => id@ == other_id@ && schema@ == other_schema@ && opt_text(label) == opt_text(
                other_label,
            ),
            _ => false,
        },
{
}

/// Comparisons are the same exactly where both sides are, each with its own.
pub proof fn law_comparisons_are_told_by_their_sides(
    a: &SchemaCompareConfig,
    b: &SchemaCompareConfig,
    r: bool,
)
    requires
        call_ensures(SchemaCompareConfig::same, (a, b), r),
    ensures
        r <==> a.source@ == b.source@ && a.target@ == b.target@,
{
}

/// A page has one before it unless it is the first, and one behind it where rows
/// follow: as the total says, or where the page is full.
pub proof fn law_pages_know_their_neighbours(page: TablePage, previous: bool, next: bool)
    requires
        call_ensures(TablePage::has_previous, (page,), previous),
        call_ensures(TablePage::has_next, (page,), next),
    ensures
        previous <==> page.offset != 0,
        page.total_rows matches Some(total) ==> (next <==> total > page.offset + page.rows),
        page.total_rows is None ==> (next <==> page.rows == page.limit),
{
}

/// The label of a page is the numbers of its first and last row, counted from 1,
/// and the total where it is known.
pub proof fn law_page_labels_count_from_one(page: TablePage, label: String)
    requires
        call_ensures(page_label, (page,), label),
    ensures
        page.total_rows is None ==> label@ == nat_text((page.offset + 1) as nat) + "–"@ + nat_text(
            (page.offset + page.rows) as nat,
        ),
        page.total_rows matches Some(total) ==> label@ == nat_text((page.offset + 1) as nat) + "–"@
            + nat_text((page.offset + page.rows) as nat) + " of "@ + nat_text(total as nat),
{
}

/// A tab shows something of a connection exactly where what it shows is of it; of
/// a comparison either side counts.
pub proof fn law_tabs_refer_to_what_they_show(kind: &TabKind, id: &str, r: bool)
    requires
        call_ensures(TabKind::references_connection, (kind, id), r),
    ensures
        match *kind {
            TabKind::Table { target, .. } => r <==> target.connection_id@ == id@,
            TabKind::Query { target, .. } => r <==> target.connection_id@ == id@,
            TabKind::ErDiagram { target, .. } => r <==> target.connection_id@ == id@,
            TabKind::SchemaCompare { config, .. } => r <==> ((config.source matches SchemaCompareSource::Live {
                connection_id,
                ..
            } && connection_id@ == id@) || (config.target matches SchemaCompareSource::Live {
                connection_id,
                ..
            } && connection_id@ == id@)),
        },
{
}

} // verus!
