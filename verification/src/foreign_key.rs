//! Following a foreign key from a cell to the row it refers to.
use vstd::prelude::*;

use crate::browse::{TableFilterClause, TableFilterOperator};
use crate::connection::{find_connection, first_with_id, ConnectionConfig};
use crate::dialect::Dialect;
use crate::engine::{CellarError, Engine, ErrorView};
use crate::model::AppModel;
use crate::query::{values_by_name, Query, QueryParameter, QueryResult};
use crate::schema::{column_position, find_table, has_column, table_at, Database};
use crate::text::{
    is_blank, join, joined, lemma_nat_text_injective, nat_text, push_u64, same_text, texts, trim_of,
};
use crate::value::{filter_text, lookup_value_text, values, CellValue, ValueView};
use crate::workspace_model::{
    filter_view, filter_views, FilterView, TableLookupContext, TableTarget, TableTargetView,
};

verus! {

/// The rows of a table that these columns of a foreign key refer to by these
/// values.
pub struct ForeignKeyLookupRequest {
    pub connection_id: String,
    pub database: String,
    pub schema: String,
    pub table: String,
    pub columns: Vec<String>,
    pub values: Vec<CellValue>,
}

/// The model of [`ForeignKeyLookupRequest`].
pub struct LookupRequestView {
    pub connection_id: Seq<char>,
    pub database: Seq<char>,
    pub schema: Seq<char>,
    pub table: Seq<char>,
    pub columns: Seq<Seq<char>>,
    pub values: Seq<ValueView>,
}

impl View for ForeignKeyLookupRequest {
    type V = LookupRequestView;

    open spec fn view(&self) -> LookupRequestView {
        LookupRequestView {
            connection_id: self.connection_id@,
            database: self.database@,
            schema: self.schema@,
            table: self.table@,
            columns: texts(self.columns@),
            values: values(self.values@),
        }
    }
}

// ---------------------------------------------------------------------
// The lookup
// ---------------------------------------------------------------------
/// Whether a value of the list is NULL.
pub open spec fn has_null(list: Seq<ValueView>) -> bool {
    exists|i: int| 0 <= i < list.len() && (#[trigger] list[i]) is Null
}

/// What is wrong with a request in itself.
pub open spec fn lookup_refusal(request: LookupRequestView) -> Option<ErrorView> {
    if trim_of(request.database).len() == 0 || trim_of(request.schema).len() == 0 || trim_of(
        request.table,
    ).len() == 0 {
        Some(ErrorView::InvalidConfig("foreign-key lookup has an incomplete table identity"@))
    } else if request.columns.len() == 0 || request.columns.len() != request.values.len() {
        Some(ErrorView::InvalidConfig("foreign-key lookup columns and values do not match"@))
    } else if has_null(request.values) {
        Some(ErrorView::Query("foreign-key lookup cannot use NULL values"@))
    } else {
        None
    }
}

/// Refuses a request that names no table, whose columns and values do not match,
/// or that looks for NULL.
pub fn check_lookup_request(request: &ForeignKeyLookupRequest) -> (r: Result<(), CellarError>)
    ensures
        match lookup_refusal(request@) {
            Some(why) => r matches Err(e) && e@ == why,
            None => r is Ok,
        },
{
    if is_blank(request.database.as_str()) || is_blank(request.schema.as_str()) || is_blank(
        request.table.as_str(),
    ) {
        return Err(
            CellarError::InvalidConfig(
                "foreign-key lookup has an incomplete table identity".to_owned(),
            ),
        );
    }
    if request.columns.len() == 0 || request.columns.len() != request.values.len() {
        return Err(
            CellarError::InvalidConfig(
                "foreign-key lookup columns and values do not match".to_owned(),
            ),
        );
    }
    if any_null(request.values.as_slice()) {
        return Err(CellarError::Query("foreign-key lookup cannot use NULL values".to_owned()));
    }
    Ok(())
}

fn any_null(list: &[CellValue]) -> (r: bool)
    ensures
        r == has_null(values(list@)),
{
    let mut i: usize = 0;
    while i < list.len()
        invariant
            i <= list@.len(),
            forall|j: int| 0 <= j < i ==> !((#[trigger] values(list@)[j]) is Null),
        decreases list@.len() - i,
    {
        assert(values(list@)[i as int] == list@[i as int]@);
        if list[i].is_null() {
            return true;
        }
        i += 1;
    }
    false
}

/// The name of the parameter for the column at `i`.
pub open spec fn key_parameter(i: nat) -> Seq<char> {
    "fk_"@ + nat_text(i)
}

/// The predicate for the column at `i`.
pub open spec fn key_predicate(dialect: Dialect, column: Seq<char>, i: nat) -> Seq<char> {
    dialect.quoted(column) + " = :"@ + key_parameter(i)
}

/// The predicates for the columns.
pub open spec fn key_predicates(dialect: Dialect, columns: Seq<Seq<char>>) -> Seq<Seq<char>> {
    Seq::new(columns.len(), |i: int| key_predicate(dialect, columns[i], i as nat))
}

/// The statement that looks for the rows. Two rows are enough to tell one from
/// several.
pub open spec fn lookup_sql(
    dialect: Dialect,
    schema: Seq<char>,
    table: Seq<char>,
    columns: Seq<Seq<char>>,
) -> Seq<char> {
    let rest = dialect.qualified(schema, table) + " WHERE "@ + joined(
        key_predicates(dialect, columns),
        " AND "@,
    );
    if dialect == Dialect::Mssql {
        "SELECT TOP (2) * FROM "@ + rest
    } else {
        "SELECT * FROM "@ + rest + " LIMIT 2"@
    }
}

/// The first column that the table does not have.
pub open spec fn unknown_column(
    columns: Seq<Seq<char>>,
    known: Seq<crate::schema::Column>,
    from: int,
) -> Option<int>
    decreases columns.len() - from,
{
    if from < 0 || from >= columns.len() {
        None
    } else if !has_column(known, columns[from]) {
        Some(from)
    } else {
        unknown_column(columns, known, from + 1)
    }
}

/// Why no lookup can be made: the table or a column is not among the schema
/// metadata, or the engine has no rows to look for.
pub open spec fn plan_refusal(
    request: LookupRequestView,
    databases: Seq<Database>,
    engine: Option<Engine>,
) -> Option<ErrorView> {
    match table_at(databases, request.database, request.schema, request.table) {
        None => Some(
            ErrorView::InvalidConfig(
                "referenced table "@ + request.database + "."@ + request.schema + "."@
                    + request.table + " is not available in schema metadata"@,
            ),
        ),
        Some(table) => match unknown_column(request.columns, table.columns@, 0) {
            Some(at) => Some(
                ErrorView::InvalidConfig(
                    "referenced column "@ + request.table + "."@ + request.columns[at]
                        + " is not available in schema metadata"@,
                ),
            ),
            None => match engine {
                None => Some(
                    ErrorView::NotConnected(
                        "no engine is known for connection "@ + request.connection_id,
                    ),
                ),
                Some(engine) => match engine.dialect_of() {
                    None => Some(
                        ErrorView::Query(
                            "foreign-key row navigation is unavailable for "@
                                + engine.family_of().name(),
                        ),
                    ),
                    Some(_) => None,
                },
            },
        },
    }
}

fn lookup_statement(dialect: Dialect, schema: &str, table: &str, columns: &[String]) -> (r: String)
    ensures
        r@ == lookup_sql(dialect, schema@, table@, texts(columns@)),
{
    let ghost names = texts(columns@);
    let mut predicates: Vec<String> = Vec::new();
    let mut i: usize = 0;
    while i < columns.len()
        invariant
            i <= columns@.len(),
            names == texts(columns@),
            predicates@.len() == i,
            forall|j: int|
                0 <= j < i ==> (#[trigger] predicates@[j])@ == key_predicate(
                    dialect,
                    names[j],
                    j as nat,
                ),
        decreases columns@.len() - i,
    {
        let mut predicate = dialect.quote_ident(columns[i].as_str());
        predicate.append(" = :");
        predicate.append("fk_");
        push_u64(&mut predicate, i as u64);
        assert(predicate@ =~= key_predicate(dialect, names[i as int], i as nat));
        predicates.push(predicate);
        i += 1;
    }
    assert(texts(predicates@) =~= key_predicates(dialect, names));
    let together = join(predicates.as_slice(), " AND ");
    let qualified = dialect.quote_qualified(schema, table);
    let mut sql = String::new();
    let server = match dialect {
        Dialect::Mssql => true,
        _ => false,
    };
    if server {
        sql.append("SELECT TOP (2) * FROM ");
    } else {
        sql.append("SELECT * FROM ");
    }
    sql.append(qualified.as_str());
    sql.append(" WHERE ");
    sql.append(together.as_str());
    if !server {
        sql.append(" LIMIT 2");
    }
    assert(sql@ =~= lookup_sql(dialect, schema@, table@, names));
    sql
}

/// Whether `params` are the values under their parameter names.
pub open spec fn binds_values(params: Seq<QueryParameter>, list: Seq<ValueView>) -> bool {
    &&& params.len() == list.len()
    &&& forall|i: int|
        0 <= i < params.len() ==> (#[trigger] params[i]).name@ == key_parameter(i as nat)
            && params[i].value@ == list[i]
}

fn lookup_parameters(list: &[CellValue]) -> (r: Vec<QueryParameter>)
    ensures
        binds_values(r@, values(list@)),
{
    let mut out: Vec<QueryParameter> = Vec::new();
    let mut i: usize = 0;
    while i < list.len()
        invariant
            i <= list@.len(),
            out@.len() == i,
            forall|j: int|
                0 <= j < i ==> (#[trigger] out@[j]).name@ == key_parameter(j as nat)
                    && out@[j].value@ == list@[j]@,
        decreases list@.len() - i,
    {
        let mut name = "fk_".to_owned();
        push_u64(&mut name, i as u64);
        out.push(QueryParameter { name, value: list[i].clone() });
        i += 1;
    }
    out
}

/// The query behind a lookup, by the schema metadata and the engine of the
/// connection. The names in it are quoted, and the values are bound.
pub fn plan_lookup(
    request: &ForeignKeyLookupRequest,
    databases: &[Database],
    engine: Option<Engine>,
) -> (r: Result<Query, CellarError>)
    ensures
        match plan_refusal(request@, databases@, engine) {
            Some(why) => r matches Err(e) && e@ == why,
            None => {
                &&& r matches Ok(query)
                &&& query.sql@ == lookup_sql(
                    engine->0.dialect_of()->0,
                    request@.schema,
                    request@.table,
                    request@.columns,
                )
                &&& binds_values(query.params@, request@.values)
                &&& query.database matches Some(database)
                &&& database@ == request@.database
                &&& query.max_rows == Some(2u32)
                &&& query.offset is None
                &&& !query.read_only
            },
        },
{
    let table = match find_table(
        databases,
        request.database.as_str(),
        request.schema.as_str(),
        request.table.as_str(),
    ) {
        Some(table) => table,
        None => {
            let mut message = "referenced table ".to_owned();
            message.append(request.database.as_str());
            message.append(".");
            message.append(request.schema.as_str());
            message.append(".");
            message.append(request.table.as_str());
            message.append(" is not available in schema metadata");
            return Err(CellarError::InvalidConfig(message));
        },
    };
    let mut i: usize = 0;
    while i < request.columns.len()
        invariant
            i <= request.columns@.len(),
            table_at(
                databases@,
                request@.database,
                request@.schema,
                request@.table,
            ) == Some(*table),
            unknown_column(request@.columns, table.columns@, i as int) == unknown_column(
                request@.columns,
                table.columns@,
                0,
            ),
        decreases request.columns@.len() - i,
    {
        assert(request@.columns[i as int] == request.columns@[i as int]@);
        if column_position(table.columns.as_slice(), request.columns[i].as_str()).is_none() {
            let mut message = "referenced column ".to_owned();
            message.append(request.table.as_str());
            message.append(".");
            message.append(request.columns[i].as_str());
            message.append(" is not available in schema metadata");
            return Err(CellarError::InvalidConfig(message));
        }
        i += 1;
    }
    let engine = match engine {
        Some(engine) => engine,
        None => {
            let mut message = "no engine is known for connection ".to_owned();
            message.append(request.connection_id.as_str());
            return Err(CellarError::NotConnected(message));
        },
    };
    let dialect = match engine.dialect() {
        Some(dialect) => dialect,
        None => {
            let mut message = "foreign-key row navigation is unavailable for ".to_owned();
            message.append(engine.family().as_str());
            return Err(CellarError::Query(message));
        },
    };
    let mut query = Query::new(
        lookup_statement(
            dialect,
            request.schema.as_str(),
            request.table.as_str(),
            request.columns.as_slice(),
        ),
    );
    query.database = Some(request.database.clone());
    query.max_rows = Some(2);
    query.params = lookup_parameters(request.values.as_slice());
    Ok(query)
}

proof fn lemma_key_parameter_injective(a: nat, b: nat)
    requires
        key_parameter(a) == key_parameter(b),
    ensures
        a == b,
{
    let n = "fk_"@.len() as int;
    assert(nat_text(a) =~= key_parameter(a).skip(n));
    assert(nat_text(b) =~= key_parameter(b).skip(n));
    lemma_nat_text_injective(a, b);
}

proof fn lemma_bound_values(params: Seq<QueryParameter>, list: Seq<ValueView>, n: int, i: int)
    requires
        binds_values(params, list),
        0 <= n <= params.len(),
        0 <= i < n,
    ensures
        values_by_name(params.take(n)).contains_key(key_parameter(i as nat)),
        values_by_name(params.take(n))[key_parameter(i as nat)] == list[i],
    decreases n,
{
    assert(params.take(n).drop_last() =~= params.take(n - 1));
    assert(params.take(n).last() == params[n - 1]);
    if i < n - 1 {
        lemma_bound_values(params, list, n - 1, i);
        if key_parameter(i as nat) == key_parameter((n - 1) as nat) {
            lemma_key_parameter_injective(i as nat, (n - 1) as nat);
        }
    }
}

/// Each column of a lookup is compared with its own value: the parameter in the
/// predicate of the column at `i` is bound to the value at `i`.
pub proof fn law_each_column_gets_its_value(
    params: Seq<QueryParameter>,
    list: Seq<ValueView>,
    i: int,
)
    requires
        binds_values(params, list),
        0 <= i < list.len(),
    ensures
        values_by_name(params).contains_key(key_parameter(i as nat)),
        values_by_name(params)[key_parameter(i as nat)] == list[i],
{
    lemma_bound_values(params, list, params.len() as int, i);
    assert(params.take(params.len() as int) =~= params);
}

// ---------------------------------------------------------------------
// Navigation
// ---------------------------------------------------------------------
/// Where a foreign key leads to: the table, and the filters that select the row.
pub struct NavigationPlan {
    pub destination: TableTarget,
    pub filters: Vec<TableFilterClause>,
}

/// The number of columns that have a value.
pub open spec fn pair_count(request: LookupRequestView) -> nat {
    if request.columns.len() <= request.values.len() {
        request.columns.len()
    } else {
        request.values.len()
    }
}

/// Whether every value can be written in a table filter.
pub open spec fn all_filterable(request: LookupRequestView) -> bool {
    forall|i: int|
        0 <= i < pair_count(request) ==> filter_text(#[trigger] request.values[i]) is Some
}

/// The filters of a lookup: each column equal to its value.
pub open spec fn key_filters(request: LookupRequestView) -> Seq<FilterView> {
    Seq::new(
        pair_count(request),
        |i: int|
            FilterView {
                column: request.columns[i],
                operator: TableFilterOperator::Equals,
                value: filter_text(request.values[i]),
            },
    )
}

/// The table of a lookup.
pub open spec fn lookup_target(request: LookupRequestView) -> TableTargetView {
    TableTargetView {
        connection_id: request.connection_id,
        database: request.database,
        schema: request.schema,
        table: request.table,
    }
}

/// Whether the first connection with this id is a MySQL one.
pub open spec fn is_mysql(connections: Seq<ConnectionConfig>, id: Seq<char>) -> bool {
    exists|at: int|
        #[trigger] first_with_id(connections, id, at) && connections[at].engine.family_of()
            == Engine::MySql
}

/// Why a foreign key cannot be followed.
pub open spec fn navigation_refusal(
    model: crate::model::ModelView,
    source: TableTargetView,
    request: LookupRequestView,
) -> Option<Seq<char>> {
    if request.connection_id != source.connection_id || request.database != source.database {
        Some("Foreign-key navigation must stay on the source connection and database"@)
    } else if is_mysql(model.connections, source.connection_id) && request.schema
        != source.schema {
        Some(
            "Cross-catalog MySQL foreign-key navigation is unavailable; referenced catalog "@
                + request.schema + " is not loaded"@,
        )
    } else if model.table_of(lookup_target(request)) is None {
        Some("Referenced table metadata is unavailable; refresh the connection schema first"@)
    } else if !all_filterable(request) {
        Some("This foreign-key value cannot be represented by the table filter"@)
    } else {
        None
    }
}

fn key_filter_list(request: &ForeignKeyLookupRequest) -> (r: Option<Vec<TableFilterClause>>)
    ensures
        r is Some == all_filterable(request@),
        r matches Some(filters) ==> filter_views(filters@) == key_filters(request@),
{
    let mut out: Vec<TableFilterClause> = Vec::new();
    let mut i: usize = 0;
    while i < request.columns.len() && i < request.values.len()
        invariant
            i <= request.columns@.len(),
            i <= request.values@.len(),
            out@.len() == i,
            forall|j: int|
                0 <= j < i ==> filter_text(#[trigger] request@.values[j]) is Some,
            forall|j: int|
                0 <= j < i ==> filter_view(#[trigger] out@[j]) == (FilterView {
                    column: request@.columns[j],
                    operator: TableFilterOperator::Equals,
                    value: filter_text(request@.values[j]),
                }),
        decreases request.columns@.len() - i,
    {
        assert(request@.values[i as int] == request.values@[i as int]@);
        match lookup_value_text(&request.values[i]) {
            Some(text) => {
                out.push(
                    TableFilterClause {
                        column: request.columns[i].clone(),
                        operator: TableFilterOperator::Equals,
                        value: Some(text),
                    },
                );
            },
            None => {
                assert(filter_text(request@.values[i as int]) is None);
                return None;
            },
        }
        i += 1;
    }
    assert(filter_views(out@) =~= key_filters(request@));
    Some(out)
}

/// Plans to follow a foreign key from the table `source`: to a known table of
/// the same connection and database, by values that a filter can hold.
pub fn plan_navigation(
    model: &AppModel,
    source: &TableTarget,
    request: &ForeignKeyLookupRequest,
) -> (r: Result<NavigationPlan, String>)
    requires
        model.wf(),
    ensures
        match navigation_refusal(model@, source@, request@) {
            Some(why) => r matches Err(message) && message@ == why,
            None => {
                &&& r matches Ok(plan)
                &&& plan.destination@ == lookup_target(request@)
                &&& plan.destination@.connection_id == source@.connection_id
                &&& plan.destination@.database == source@.database
                &&& filter_views(plan.filters@) == key_filters(request@)
            },
        },
{
    if !same_text(request.connection_id.as_str(), source.connection_id.as_str()) || !same_text(
        request.database.as_str(),
        source.database.as_str(),
    ) {
        return Err(
            "Foreign-key navigation must stay on the source connection and database".to_owned(),
        );
    }
    let mysql = match find_connection(model.connections(), source.connection_id.as_str()) {
        Some(at) => match model.connections()[at].engine.family() {
            Engine::MySql => true,
            _ => false,
        },
        None => false,
    };
    assert(mysql == is_mysql(model@.connections, source@.connection_id));
    if mysql && !same_text(request.schema.as_str(), source.schema.as_str()) {
        let mut message =
            "Cross-catalog MySQL foreign-key navigation is unavailable; referenced catalog ".to_owned();
        message.append(request.schema.as_str());
        message.append(" is not loaded");
        return Err(message);
    }
    let destination = TableTarget {
        connection_id: request.connection_id.clone(),
        database: request.database.clone(),
        schema: request.schema.clone(),
        table: request.table.clone(),
    };
    if model.table(&destination).is_none() {
        return Err(
            "Referenced table metadata is unavailable; refresh the connection schema first".to_owned(),
        );
    }
    match key_filter_list(request) {
        Some(filters) => Ok(NavigationPlan { destination, filters }),
        None => Err(
            "This foreign-key value cannot be represented by the table filter".to_owned(),
        ),
    }
}

/// What the answer to a lookup leads to: the tab to open where exactly one row
/// was found, else what to tell.
pub fn navigation_outcome(
    plan: NavigationPlan,
    focus_column: String,
    answer: Result<QueryResult, String>,
) -> (r: Result<(TableTarget, TableLookupContext), String>)
    ensures
        match answer {
            Err(message) => r == Err::<(TableTarget, TableLookupContext), String>(message),
            Ok(result) => if result.rows@.len() == 0 {
                r matches Err(m) && m@ == "No referenced row matches this foreign-key value"@
            } else if result.truncated || result.rows@.len() > 1 {
                r matches Err(m) && m@
                    == "Multiple referenced rows match this foreign-key value; navigation is ambiguous"@
            } else {
                &&& r matches Ok(opened)
                &&& opened.0 == plan.destination
                &&& opened.1 == (TableLookupContext { filters: plan.filters, focus_column })
            },
        },
{
    let result = match answer {
        Ok(result) => result,
        Err(message) => return Err(message),
    };
    if result.rows.len() == 0 {
        return Err("No referenced row matches this foreign-key value".to_owned());
    }
    if result.truncated || result.rows.len() > 1 {
        return Err(
            "Multiple referenced rows match this foreign-key value; navigation is ambiguous".to_owned(),
        );
    }
    Ok((plan.destination, TableLookupContext { filters: plan.filters, focus_column }))
}

// ---------------------------------------------------------------------
// What a lookup says
// ---------------------------------------------------------------------
/// A lookup asks for the rows of the table where every column equals its value.
/// Its text is the same in every dialect but for the quotes and for how two rows
/// are asked for.
pub proof fn law_lookups_ask_for_equal_keys(
    request: &ForeignKeyLookupRequest,
    databases: &[Database],
    engine: Engine,
    query: Query,
)
    requires
        call_ensures(plan_lookup, (request, databases, Some(engine)), Ok(query)),
        request.columns@.len() == request.values@.len(),
    ensures
        query.params@.len() == request.columns@.len(),
        engine == Engine::Postgres || engine == Engine::Supabase || engine == Engine::Neon
            ==> query.sql@ == "SELECT * FROM "@ + Dialect::Postgres.quoted(request.schema@) + "."@
            + Dialect::Postgres.quoted(request.table@) + " WHERE "@ + joined(
            Seq::new(
                request.columns@.len(),
                |i: int|
                    Dialect::Postgres.quoted(request.columns@[i]@) + " = :"@ + query.params@[i].name@,
            ),
            " AND "@,
        ) + " LIMIT 2"@,
        engine == Engine::MySql || engine == Engine::PlanetScale ==> query.sql@ == "SELECT * FROM "@
            + Dialect::MySql.quoted(request.schema@) + "."@ + Dialect::MySql.quoted(request.table@)
            + " WHERE "@ + joined(
            Seq::new(
                request.columns@.len(),
                |i: int|
                    Dialect::MySql.quoted(request.columns@[i]@) + " = :"@ + query.params@[i].name@,
            ),
            " AND "@,
        ) + " LIMIT 2"@,
        engine == Engine::Sqlite ==> query.sql@ == "SELECT * FROM "@ + Dialect::Sqlite.quoted(
            request.schema@,
        ) + "."@ + Dialect::Sqlite.quoted(request.table@) + " WHERE "@ + joined(
            Seq::new(
                request.columns@.len(),
                |i: int|
                    Dialect::Sqlite.quoted(request.columns@[i]@) + " = :"@ + query.params@[i].name@,
            ),
            " AND "@,
        ) + " LIMIT 2"@,
        engine == Engine::Mssql || engine == Engine::Azure ==> query.sql@
            == "SELECT TOP (2) * FROM "@ + Dialect::Mssql.quoted(request.schema@) + "."@
            + Dialect::Mssql.quoted(request.table@) + " WHERE "@ + joined(
            Seq::new(
                request.columns@.len(),
                |i: int|
                    Dialect::Mssql.quoted(request.columns@[i]@) + " = :"@ + query.params@[i].name@,
            ),
            " AND "@,
        ),
{
    let dialect = engine.dialect_of()->0;
    let columns = request@.columns;
    assert(columns.len() == request.columns@.len());
    assert(request@.values.len() == request.values@.len());
    let predicates = Seq::new(
        request.columns@.len(),
        |i: int| dialect.quoted(request.columns@[i]@) + " = :"@ + query.params@[i].name@,
    );
    assert(predicates =~= key_predicates(dialect, columns));
    assert(dialect == Dialect::Postgres ==> predicates =~= Seq::new(
        request.columns@.len(),
        |i: int| Dialect::Postgres.quoted(request.columns@[i]@) + " = :"@ + query.params@[i].name@,
    ));
    assert(dialect == Dialect::MySql ==> predicates =~= Seq::new(
        request.columns@.len(),
        |i: int| Dialect::MySql.quoted(request.columns@[i]@) + " = :"@ + query.params@[i].name@,
    ));
    assert(dialect == Dialect::Sqlite ==> predicates =~= Seq::new(
        request.columns@.len(),
        |i: int| Dialect::Sqlite.quoted(request.columns@[i]@) + " = :"@ + query.params@[i].name@,
    ));
    assert(dialect == Dialect::Mssql ==> predicates =~= Seq::new(
        request.columns@.len(),
        |i: int| Dialect::Mssql.quoted(request.columns@[i]@) + " = :"@ + query.params@[i].name@,
    ));
    let table = dialect.qualified(request.schema@, request.table@);
    let quoted = dialect.quoted(request.schema@) + "."@ + dialect.quoted(request.table@);
    reveal_strlit(".");
    assert(table =~= quoted);
    let all = joined(predicates, " AND "@);
    assert("SELECT * FROM "@ + dialect.quoted(request.schema@) + "."@ + dialect.quoted(request.table@)
        + " WHERE "@ + all + " LIMIT 2"@ =~= "SELECT * FROM "@ + (quoted + " WHERE "@ + all)
        + " LIMIT 2"@);
    assert("SELECT TOP (2) * FROM "@ + dialect.quoted(request.schema@) + "."@ + dialect.quoted(
        request.table@,
    ) + " WHERE "@ + all =~= "SELECT TOP (2) * FROM "@ + (quoted + " WHERE "@ + all));
}

/// Each parameter of a lookup holds the value of its column under a name of its
/// own, and the lookup asks for two rows, in the database of the request.
pub proof fn law_lookups_bind_every_value_once(
    request: &ForeignKeyLookupRequest,
    databases: &[Database],
    engine: Option<Engine>,
    query: Query,
    i: int,
    j: int,
)
    requires
        call_ensures(plan_lookup, (request, databases, engine), Ok(query)),
        0 <= i < request.values@.len(),
        0 <= j < request.values@.len(),
    ensures
        query.params@.len() == request.values@.len(),
        query.params@[i].name@ == "fk_"@ + nat_text(i as nat),
        query.params@[i].value@ == request.values@[i]@,
        query.params@[i].name@ == query.params@[j].name@ ==> i == j,
        query.max_rows == Some(2u32),
        query.offset is None,
        !query.read_only,
        query.database matches Some(database) && database@ == request.database@,
{
    assert(request@.values[i] == request.values@[i]@);
    if query.params@[i].name@ == query.params@[j].name@ {
        lemma_key_parameter_injective(i as nat, j as nat);
    }
}

proof fn lemma_unknown_column(
    columns: Seq<Seq<char>>,
    known: Seq<crate::schema::Column>,
    from: int,
    i: int,
)
    requires
        0 <= from <= i < columns.len(),
        unknown_column(columns, known, from) is None,
    ensures
        has_column(known, columns[i]),
    decreases columns.len() - from,
{
    if from < i {
        lemma_unknown_column(columns, known, from + 1, i);
    }
}

proof fn lemma_known_columns(
    columns: Seq<Seq<char>>,
    known: Seq<crate::schema::Column>,
    from: int,
)
    requires
        0 <= from <= columns.len(),
        forall|i: int| from <= i < columns.len() ==> has_column(known, #[trigger] columns[i]),
    ensures
        unknown_column(columns, known, from) is None,
    decreases columns.len() - from,
{
    if from < columns.len() {
        assert(has_column(known, columns[from]));
        lemma_known_columns(columns, known, from + 1);
    }
}

/// A lookup is made exactly where the table is known with every column of the
/// key, and the engine is one that has rows to look for.
pub proof fn law_lookups_are_made_of_known_columns(
    request: &ForeignKeyLookupRequest,
    databases: &[Database],
    engine: Option<Engine>,
    database: &str,
    schema: &str,
    table: &str,
    found: Option<&crate::schema::Table>,
    dialect: Option<Dialect>,
    r: Result<Query, CellarError>,
)
    requires
        call_ensures(plan_lookup, (request, databases, engine), r),
        database@ == request.database@,
        schema@ == request.schema@,
        table@ == request.table@,
        call_ensures(find_table, (databases, database, schema, table), found),
        engine matches Some(engine) ==> call_ensures(Engine::dialect, (engine,), dialect),
    ensures
        r is Ok <==> {
            &&& engine is Some
            &&& dialect is Some
            &&& found is Some
            &&& forall|i: int|
                0 <= i < request.columns@.len() ==> exists|c: int|
                    0 <= c < found->0.columns@.len() && (#[trigger] found->0.columns@[c]).name@ == (
                    #[trigger] request.columns@[i])@
        },
{
    let columns = request@.columns;
    assert(columns.len() == request.columns@.len());
    if let Some(table) = found {
        let known = table.columns@;
        if unknown_column(columns, known, 0) is None {
            assert forall|i: int| 0 <= i < request.columns@.len() implies exists|c: int|
                0 <= c < known.len() && (#[trigger] known[c]).name@ == (
                #[trigger] request.columns@[i])@ by {
                lemma_unknown_column(columns, known, 0, i);
                assert(columns[i] == request.columns@[i]@);
            }
        }
        if forall|i: int|
            0 <= i < request.columns@.len() ==> exists|c: int|
                0 <= c < known.len() && (#[trigger] known[c]).name@ == (
                #[trigger] request.columns@[i])@ {
            assert forall|i: int| 0 <= i < columns.len() implies has_column(
                known,
                #[trigger] columns[i],
            ) by {
                assert(columns[i] == request.columns@[i]@);
            }
            lemma_known_columns(columns, known, 0);
        }
    }
}

/// A request is refused exactly where it names no database, schema or table,
/// where it has no columns or not as many values, or where a value is NULL.
pub proof fn law_lookups_need_a_table_and_values(
    request: &ForeignKeyLookupRequest,
    r: Result<(), CellarError>,
)
    requires
        call_ensures(check_lookup_request, (request,), r),
    ensures
        r is Ok <==> {
            &&& trim_of(request.database@).len() > 0
            &&& trim_of(request.schema@).len() > 0
            &&& trim_of(request.table@).len() > 0
            &&& request.columns@.len() > 0
            &&& request.columns@.len() == request.values@.len()
            &&& forall|i: int|
                0 <= i < request.values@.len() ==> !((#[trigger] request.values@[i]) is Null)
        },
        (trim_of(request.database@).len() == 0 || trim_of(request.schema@).len() == 0 || trim_of(
            request.table@,
        ).len() == 0) ==> (r matches Err(CellarError::InvalidConfig(text)) && text@
            == "foreign-key lookup has an incomplete table identity"@),
        r matches Err(CellarError::Query(text)) ==> text@
            == "foreign-key lookup cannot use NULL values"@ && exists|i: int|
            0 <= i < request.values@.len() && (#[trigger] request.values@[i]) is Null,
{
    let list = values(request.values@);
    assert(list.len() == request.values@.len());
    assert(request@.columns.len() == request.columns@.len());
    assert forall|i: int| 0 <= i < list.len() implies (list[i] is Null) == (
    #[trigger] request.values@[i] is Null) by {
        assert(list[i] == request.values@[i]@);
    }
    if has_null(list) {
        let i = choose|i: int| 0 <= i < list.len() && (#[trigger] list[i]) is Null;
        assert(request.values@[i] is Null);
    } else {
        assert forall|i: int| 0 <= i < request.values@.len() implies !((
        #[trigger] request.values@[i]) is Null) by {
            assert(!(list[i] is Null));
        }
    }
}

/// Following a foreign key leads to the table that the request names, filtered by
/// each column being equal to its value.
pub proof fn law_navigation_selects_by_equal_keys(
    model: &AppModel,
    source: &TableTarget,
    request: &ForeignKeyLookupRequest,
    plan: NavigationPlan,
    i: int,
)
    requires
        model.wf(),
        call_ensures(plan_navigation, (model, source, request), Ok(plan)),
        0 <= i < request.columns@.len(),
        i < request.values@.len(),
    ensures
        plan.destination.connection_id@ == request.connection_id@,
        plan.destination.database@ == request.database@,
        plan.destination.schema@ == request.schema@,
        plan.destination.table@ == request.table@,
        request.connection_id@ == source.connection_id@,
        request.database@ == source.database@,
        i < plan.filters@.len(),
        plan.filters@.len() <= request.columns@.len(),
        plan.filters@.len() <= request.values@.len(),
        plan.filters@[i].column@ == request.columns@[i]@,
        plan.filters@[i].operator == TableFilterOperator::Equals,
        plan.filters@[i].value matches Some(text) && filter_text(request.values@[i]@) == Some(text@),
{
    let filters = filter_views(plan.filters@);
    assert(request@.columns.len() == request.columns@.len());
    assert(request@.values.len() == request.values@.len());
    assert(filters.len() == plan.filters@.len());
    assert(filters[i] == filter_view(plan.filters@[i]));
    assert(request@.columns[i] == request.columns@[i]@);
    assert(request@.values[i] == request.values@[i]@);
    assert(filter_text(request@.values[i]) is Some);
}

/// A foreign key leads to a tab exactly where the lookup found one row and no
/// more, and the tab is the planned one.
pub proof fn law_navigation_needs_exactly_one_row(
    plan: NavigationPlan,
    focus_column: String,
    answer: Result<QueryResult, String>,
    r: Result<(TableTarget, TableLookupContext), String>,
)
    requires
        call_ensures(navigation_outcome, (plan, focus_column, answer), r),
    ensures
        r is Ok <==> (match answer {
            Ok(result) => result.rows@.len() == 1 && !result.truncated,
            Err(_) => false,
        }),
        r matches Ok(opened) ==> opened.0 == plan.destination && opened.1.filters == plan.filters
            && opened.1.focus_column == focus_column,
        answer matches Err(text) ==> r == Err::<(TableTarget, TableLookupContext), String>(text),
        answer matches Ok(result) && result.rows@.len() == 0 ==> (r matches Err(text) && text@
            == "No referenced row matches this foreign-key value"@),
        answer matches Ok(result) && result.rows@.len() > 1 ==> (r matches Err(text) && text@
            == "Multiple referenced rows match this foreign-key value; navigation is ambiguous"@),
{
}

/// A lookup that is not made says why: the table, the first column that the table
/// does not have, the engine, or that the engine has no rows to look for.
pub proof fn law_lookups_say_what_is_missing(
    request: &ForeignKeyLookupRequest,
    databases: &[Database],
    engine: Option<Engine>,
    database: &str,
    schema: &str,
    table: &str,
    found: Option<&crate::schema::Table>,
    r: Result<Query, CellarError>,
    at: int,
)
    requires
        call_ensures(plan_lookup, (request, databases, engine), r),
        database@ == request.database@,
        schema@ == request.schema@,
        table@ == request.table@,
        call_ensures(find_table, (databases, database, schema, table), found),
        0 <= at <= request.columns@.len(),
        found is Some ==> forall|i: int|
            0 <= i < at ==> has_column(found->0.columns@, (#[trigger] request.columns@[i])@),
        found is Some && at < request.columns@.len() ==> !has_column(
            found->0.columns@,
            request.columns@[at]@,
        ),
    ensures
        found is None ==> (r matches Err(CellarError::InvalidConfig(text)) && text@
            == "referenced table "@ + request.database@ + "."@ + request.schema@ + "."@
            + request.table@ + " is not available in schema metadata"@),
        found is Some && at < request.columns@.len() ==> (
        r matches Err(CellarError::InvalidConfig(text)) && text@ == "referenced column "@
            + request.table@ + "."@ + request.columns@[at]@ + " is not available in schema metadata"@),
        found is Some && at == request.columns@.len() && engine is None ==> (
        r matches Err(CellarError::NotConnected(text)) && text@
            == "no engine is known for connection "@ + request.connection_id@),
        found is Some && at == request.columns@.len() && (engine == Some(Engine::Firestore) || engine
            == Some(Engine::Convex) || engine == Some(Engine::Cosmos)) ==> (
        r matches Err(CellarError::Query(text)) && text@
            == "foreign-key row navigation is unavailable for "@ + engine->0.name()),
{
    let columns = request@.columns;
    assert(columns.len() == request.columns@.len());
    if let Some(t) = found {
        assert forall|i: int| 0 <= i < at implies has_column(t.columns@, #[trigger] columns[i]) by {
            assert(columns[i] == request.columns@[i]@);
        }
        if at < columns.len() {
            assert(columns[at] == request.columns@[at]@);
        }
        lemma_first_unknown(columns, t.columns@, 0, at);
    }
}

proof fn lemma_first_unknown(
    columns: Seq<Seq<char>>,
    known: Seq<crate::schema::Column>,
    from: int,
    at: int,
)
    requires
        0 <= from <= at <= columns.len(),
        forall|i: int| from <= i < at ==> has_column(known, #[trigger] columns[i]),
        at < columns.len() ==> !has_column(known, columns[at]),
    ensures
        unknown_column(columns, known, from) == if at < columns.len() {
            Some(at)
        } else {
            None
        },
    decreases at - from,
{
    if from < at {
        assert(has_column(known, columns[from]));
        lemma_first_unknown(columns, known, from + 1, at);
    }
}

/// A foreign key is followed within its connection and database, in MySQL within
/// its catalog, to a known table, by values that a filter can hold; else it is
/// said what is in the way.
pub proof fn law_navigation_says_what_is_in_the_way(
    model: &AppModel,
    source: &TableTarget,
    request: &ForeignKeyLookupRequest,
    r: Result<NavigationPlan, String>,
    at: int,
)
    requires
        model.wf(),
        call_ensures(plan_navigation, (model, source, request), r),
        first_with_id(model@.connections, source.connection_id@, at),
    ensures
        ({
            let home = request.connection_id@ == source.connection_id@ && request.database@
                == source.database@;
            let engine = model@.connections[at].engine;
            let mysql = engine == Engine::MySql || engine == Engine::PlanetScale;
            let near = !mysql || request.schema@ == source.schema@;
            let known = model@.table_of(
                TableTargetView {
                    connection_id: request.connection_id@,
                    database: request.database@,
                    schema: request.schema@,
                    table: request.table@,
                },
            ) is Some;
            &&& !home ==> (r matches Err(text) && text@
                == "Foreign-key navigation must stay on the source connection and database"@)
            &&& home && !near ==> (r matches Err(text) && text@
                == "Cross-catalog MySQL foreign-key navigation is unavailable; referenced catalog "@
                + request.schema@ + " is not loaded"@)
            &&& home && near && !known ==> (r matches Err(text) && text@
                == "Referenced table metadata is unavailable; refresh the connection schema first"@)
            &&& home && near && known && r is Err ==> (r matches Err(text) && text@
                == "This foreign-key value cannot be represented by the table filter"@)
            &&& home && near && known && (forall|i: int|
                0 <= i < request.values@.len() ==> filter_text((#[trigger] request.values@[i])@)
                    is Some) ==> r is Ok
        }),
{
    let v = model@;
    assert(is_mysql(v.connections, source@.connection_id) == (v.connections[at].engine.family_of()
        == Engine::MySql)) by {
        if is_mysql(v.connections, source@.connection_id) {
            let other = choose|other: int|
                #[trigger] first_with_id(v.connections, source@.connection_id, other)
                    && v.connections[other].engine.family_of() == Engine::MySql;
            if other < at {
                assert(v.connections[other].id@ != source@.connection_id);
            } else if at < other {
                assert(v.connections[at].id@ != source@.connection_id);
            }
        }
    }
    if forall|i: int|
        0 <= i < request.values@.len() ==> filter_text((#[trigger] request.values@[i])@) is Some {
        assert forall|i: int| 0 <= i < pair_count(request@) implies filter_text(
            #[trigger] request@.values[i],
        ) is Some by {
            assert(request@.values.len() == request.values@.len());
            assert(request@.values[i] == request.values@[i]@);
        }
    }
}

} // verus!
