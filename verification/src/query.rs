//! Queries, their results, and how their parameters become bound values.
use vstd::prelude::*;

use crate::engine::{CellarError, Engine, ErrorView};
use crate::ordered_map::OrderedMap;
use crate::params::{
    law_parameters_are_coherent, native_style, order_values, parameter_views, prepare_native,
    prepared, tokenized, tokenizer_dialect, DetectedParameter, ParameterView, PlaceholderStyle,
    PreparedStatement, TokenView,
};
use crate::value::{CellValue, ColumnMeta, Row, ValueView};

verus! {

/// The number of rows that a query returns where it sets no limit of its own.
pub const DEFAULT_MAX_ROWS: u32 = 500;

/// A named value of a query.
pub struct QueryParameter {
    pub name: String,
    pub value: CellValue,
}

/// A query: its SQL, the values of its parameters, the database to run it in,
/// and the window of its rows to return.
pub struct Query {
    pub sql: String,
    pub params: Vec<QueryParameter>,
    pub database: Option<String>,
    pub max_rows: Option<u32>,
    pub offset: Option<u32>,
    /// Whether the query may only read. Set for queries that were generated.
    pub read_only: bool,
}

impl Query {
    /// A query without parameters, in the connection's own database.
    pub fn new(sql: String) -> (r: Query)
        ensures
            r.sql == sql,
            r.params@.len() == 0,
            r.database is None,
            r.max_rows is None,
            r.offset is None,
            !r.read_only,
    {
        Query {
            sql,
            params: Vec::new(),
            database: None,
            max_rows: None,
            offset: None,
            read_only: false,
        }
    }

    /// The number of rows that are returned at most.
    pub open spec fn limit(self) -> int {
        match self.max_rows {
            Some(n) => n as int,
            None => DEFAULT_MAX_ROWS as int,
        }
    }

    /// The number of rows that are passed over first.
    pub open spec fn skipped(self) -> int {
        match self.offset {
            Some(n) => n as int,
            None => 0,
        }
    }

    pub fn row_limit(&self) -> (r: usize)
        ensures
            r == self.limit(),
    {
        match self.max_rows {
            Some(n) => n as usize,
            None => DEFAULT_MAX_ROWS as usize,
        }
    }

    pub fn row_offset(&self) -> (r: usize)
        ensures
            r == self.skipped(),
    {
        match self.offset {
            Some(n) => n as usize,
            None => 0,
        }
    }
}

/// Whether server notices are captured, and why not.
#[derive(Clone, PartialEq, Eq, Debug)]
pub enum NoticeCapture {
    Supported,
    Unsupported(String),
}

/// Rows of a result, from the row at `offset` on.
pub struct QueryResultPage {
    pub columns: Vec<ColumnMeta>,
    pub rows: Vec<Row>,
    pub offset: u64,
}

/// What a query reports besides its rows.
pub struct QueryResultSummary {
    pub notices: Vec<String>,
    pub notice_capture: NoticeCapture,
    pub rows_affected: Option<u64>,
    pub duration_ms: u64,
    pub truncated: bool,
    pub total_rows: Option<u64>,
    pub row_count: u64,
}

/// A query result as a whole.
pub struct QueryResult {
    pub columns: Vec<ColumnMeta>,
    pub rows: Vec<Row>,
    pub notices: Vec<String>,
    pub notice_capture: NoticeCapture,
    pub rows_affected: Option<u64>,
    pub duration_ms: u64,
    pub truncated: bool,
    pub total_rows: Option<u64>,
}

/// The rows of pages, one page after the other.
pub open spec fn all_rows(pages: Seq<QueryResultPage>) -> Seq<Row>
    decreases pages.len(),
{
    if pages.len() == 0 {
        Seq::empty()
    } else {
        all_rows(pages.drop_last()) + pages.last().rows@
    }
}

impl QueryResult {
    /// The result whose rows came in pages.
    pub fn of_pages(
        columns: Vec<ColumnMeta>,
        pages: Vec<QueryResultPage>,
        summary: QueryResultSummary,
    ) -> (r: QueryResult)
        ensures
            r.columns == columns,
            r.rows@ == all_rows(pages@),
            r.notices == summary.notices,
            r.notice_capture == summary.notice_capture,
            r.rows_affected == summary.rows_affected,
            r.duration_ms == summary.duration_ms,
            r.truncated == summary.truncated,
            r.total_rows == summary.total_rows,
    {
        let mut rows: Vec<Row> = Vec::new();
        let ghost all = pages@;
        let mut rest = pages;
        // The pages are taken from the end, so the rows are put in front.
        assert(all.take(all.len() as int) =~= all);
        assert(all_rows(all) + rows@ =~= all_rows(all));
        while rest.len() > 0
            invariant
                rest@ == all.take(rest@.len() as int),
                rest@.len() <= all.len(),
                all_rows(rest@) + rows@ == all_rows(all),
            decreases rest@.len(),
        {
            if let Some(page) = rest.pop() {
                let ghost before = rows@;
                let ghost n = rest@.len() as int;
                let mut front = page.rows;
                front.append(&mut rows);
                rows = front;
                proof {
                    assert(all.take(n + 1).drop_last() =~= all.take(n));
                    assert(all_rows(rest@) + rows@ =~= all_rows(all.take(n + 1)) + before);
                }
            }
        }
        assert(all_rows(rest@) =~= Seq::<Row>::empty());
        assert(rows@ =~= all_rows(all));
        QueryResult {
            columns,
            rows,
            notices: summary.notices,
            notice_capture: summary.notice_capture,
            rows_affected: summary.rows_affected,
            duration_ms: summary.duration_ms,
            truncated: summary.truncated,
            total_rows: summary.total_rows,
        }
    }
}

// ---------------------------------------------------------------------
// Bound values
// ---------------------------------------------------------------------
/// The value of each name; the last one where a name is given twice.
pub open spec fn values_by_name(params: Seq<QueryParameter>) -> Map<Seq<char>, ValueView>
    decreases params.len(),
{
    if params.len() == 0 {
        Map::empty()
    } else {
        values_by_name(params.drop_last()).insert(params.last().name@, params.last().value@)
    }
}

/// Whether `at` is the first parameter without a value.
pub open spec fn first_missing(
    parameters: Seq<ParameterView>,
    values: Map<Seq<char>, ValueView>,
    at: int,
) -> bool {
    &&& 0 <= at < parameters.len()
    &&& !values.contains_key(parameters[at].name)
    &&& forall|i: int| 0 <= i < at ==> values.contains_key((#[trigger] parameters[i]).name)
}

/// Whether `r` is the values of the parameters in their order, or the error for
/// the first parameter without a value.
pub open spec fn orders(
    r: Result<Vec<CellValue>, CellarError>,
    parameters: Seq<ParameterView>,
    values: Map<Seq<char>, ValueView>,
) -> bool {
    match r {
        Ok(list) => list@.len() == parameters.len() && forall|i: int|
            0 <= i < parameters.len() ==> values.contains_key((#[trigger] parameters[i]).name)
                && list@[i]@ == values[parameters[i].name],
        Err(e) => exists|at: int|
            #[trigger] first_missing(parameters, values, at) && e@ == ErrorView::Query(
                "no value supplied for parameter `"@ + parameters[at].name + "`"@,
            ),
    }
}

fn collect_values(params: &[QueryParameter]) -> (r: OrderedMap<String, CellValue>)
    ensures
        r.wf(),
        r.map().dom() == values_by_name(params@).dom(),
        forall|name: Seq<char>| #[trigger]
            r.map().contains_key(name) ==> r.map()[name]@ == values_by_name(params@)[name],
{
    let mut out: OrderedMap<String, CellValue> = OrderedMap::new();
    let mut i: usize = 0;
    while i < params.len()
        invariant
            i <= params@.len(),
            out.wf(),
            forall|name: Seq<char>| #[trigger]
                out.map().contains_key(name) == values_by_name(params@.take(i as int)).contains_key(
                    name,
                ),
            forall|name: Seq<char>| #[trigger]
                out.map().contains_key(name) ==> out.map()[name]@ == values_by_name(
                    params@.take(i as int),
                )[name],
        decreases params@.len() - i,
    {
        assert(params@.take(i + 1).drop_last() =~= params@.take(i as int));
        out.insert(params[i].name.clone(), params[i].value.clone());
        i += 1;
    }
    assert(params@.take(params@.len() as int) =~= params@);
    assert(out.map().dom() =~= values_by_name(params@).dom());
    out
}

/// The values of `parameters`, taken by name from `params`.
fn bound_values(parameters: &[DetectedParameter], params: &[QueryParameter]) -> (r: Result<
    Vec<CellValue>,
    CellarError,
>)
    ensures
        orders(r, parameter_views(parameters@), values_by_name(params@)),
{
    let ghost views = parameter_views(parameters@);
    let ghost values = values_by_name(params@);
    let by_name = collect_values(params);
    match order_values(parameters, &by_name) {
        Ok(list) => {
            let mut out: Vec<CellValue> = Vec::new();
            let mut i: usize = 0;
            while i < list.len()
                invariant
                    i <= list@.len(),
                    out@.len() == i,
                    forall|j: int| 0 <= j < i ==> (#[trigger] out@[j])@ == list@[j]@,
                decreases list@.len() - i,
            {
                out.push((*list[i]).clone());
                i += 1;
            }
            assert forall|j: int| 0 <= j < views.len() implies values.contains_key(
                (#[trigger] views[j]).name,
            ) && out@[j]@ == values[views[j].name] by {
                assert(views[j].name == parameters@[j].name@);
                assert(by_name.map().contains_key(parameters@[j].name@));
            }
            Ok(out)
        },
        Err(e) => {
            let message = e.message();
            proof {
                let at = choose|i: int|
                    {
                        &&& 0 <= i < parameters@.len()
                        &&& e->MissingValue_0@ == (#[trigger] parameters@[i]).name@
                        &&& !by_name.map().contains_key(parameters@[i].name@)
                        &&& forall|j: int|
                            0 <= j < i ==> by_name.map().contains_key(
                                (#[trigger] parameters@[j]).name@,
                            )
                    };
                assert(views[at].name == parameters@[at].name@);
                assert forall|i: int| 0 <= i < at implies values.contains_key(
                    (#[trigger] views[i]).name,
                ) by {
                    assert(views[i].name == parameters@[i].name@);
                    assert(by_name.map().contains_key(parameters@[i].name@));
                }
                assert(first_missing(views, values, at));
            }
            Err(CellarError::Query(message))
        },
    }
}

/// The SQL and the bound values of a statement that was prepared for a `?`
/// protocol: one value for every placeholder.
pub fn mysql_statement(statement: PreparedStatement, params: &[QueryParameter]) -> (r: Result<
    (String, Vec<CellValue>),
    CellarError,
>)
    ensures
        r matches Ok(q) ==> q.0@ == statement@.sql && orders(
            Ok(q.1),
            statement@.bind_parameters,
            values_by_name(params@),
        ),
        r matches Err(e) ==> orders(
            Err(e),
            statement@.bind_parameters,
            values_by_name(params@),
        ),
{
    match bound_values(statement.bind_parameters.as_slice(), params) {
        Ok(values) => Ok((statement.sql, values)),
        Err(e) => Err(e),
    }
}

/// The SQL and the bound values of a statement that was prepared for SQL Server:
/// one value for every distinct parameter.
pub fn sql_server_statement(statement: PreparedStatement, params: &[QueryParameter]) -> (r: Result<
    (String, Vec<CellValue>),
    CellarError,
>)
    ensures
        r matches Ok(q) ==> q.0@ == statement@.sql && orders(
            Ok(q.1),
            statement@.parameters,
            values_by_name(params@),
        ),
        r matches Err(e) ==> orders(Err(e), statement@.parameters, values_by_name(params@)),
{
    match bound_values(statement.parameters.as_slice(), params) {
        Ok(values) => Ok((statement.sql, values)),
        Err(e) => Err(e),
    }
}

/// What a driver sends for a MySQL query. A query without values is sent as it
/// is. Any other has its placeholders rewritten to `?`, and each of them bound.
pub fn prepare_mysql_query(query: &Query) -> (r: Result<(String, Vec<CellValue>), CellarError>)
    ensures
        query.params@.len() == 0 ==> (r matches Ok(q) && q.0@ == query.sql@ && q.1@.len() == 0),
        query.params@.len() > 0 ==> match tokenized(
            query.sql@,
            tokenizer_dialect(Engine::MySql),
        ) {
            Err(message) => r matches Err(e) && e@ == ErrorView::Query(
                "could not tokenize SQL: "@ + message,
            ),
            Ok(tokens) => {
                let p = prepared(tokens, native_style(Engine::MySql));
                match r {
                    Ok(q) => q.0@ == p.sql && orders(
                        Ok(q.1),
                        p.bind_parameters,
                        values_by_name(query.params@),
                    ),
                    Err(e) => orders(Err(e), p.bind_parameters, values_by_name(query.params@)),
                }
            },
        },
{
    if query.params.len() == 0 {
        return Ok((query.sql.clone(), Vec::new()));
    }
    match prepare_native(query.sql.as_str(), Engine::MySql) {
        Ok(statement) => mysql_statement(statement, query.params.as_slice()),
        Err(e) => Err(CellarError::Query(e.message())),
    }
}

/// What a driver sends for a parameterized SQL Server query: the SQL with its
/// placeholders rewritten to `@P1`, `@P2`, ..., and the values of these.
pub fn prepare_sql_server_query(query: &Query) -> (r: Result<(String, Vec<CellValue>), CellarError>)
    ensures
        match tokenized(query.sql@, tokenizer_dialect(Engine::Mssql)) {
            Err(message) => r matches Err(e) && e@ == ErrorView::Query(
                "could not tokenize SQL: "@ + message,
            ),
            Ok(tokens) => {
                let p = prepared(tokens, native_style(Engine::Mssql));
                match r {
                    Ok(q) => q.0@ == p.sql && orders(
                        Ok(q.1),
                        p.parameters,
                        values_by_name(query.params@),
                    ),
                    Err(e) => orders(Err(e), p.parameters, values_by_name(query.params@)),
                }
            },
        },
{
    match prepare_native(query.sql.as_str(), Engine::Mssql) {
        Ok(statement) => sql_server_statement(statement, query.params.as_slice()),
        Err(e) => Err(CellarError::Query(e.message())),
    }
}

/// Every placeholder of a `?` protocol gets the value of the distinct parameter
/// whose number it has, so a repeated name is bound to one value.
pub proof fn law_every_placeholder_gets_its_parameters_value(
    tokens: Seq<TokenView>,
    style: PlaceholderStyle,
    values: Map<Seq<char>, ValueView>,
    i: int,
)
    requires
        0 <= i < prepared(tokens, style).bind_parameters.len(),
    ensures
        ({
            let p = prepared(tokens, style);
            let bound = p.bind_parameters[i];
            &&& 1 <= bound.ordinal <= p.parameters.len()
            &&& values.contains_key(bound.name) == values.contains_key(
                p.parameters[bound.ordinal - 1].name,
            )
            &&& values[bound.name] == values[p.parameters[bound.ordinal - 1].name]
        }),
{
    law_parameters_are_coherent(tokens, style);
}

/// Finds the last parameter of a name.
proof fn lemma_last_of_name(params: Seq<QueryParameter>, name: Seq<char>) -> (k: int)
    ensures
        values_by_name(params).contains_key(name) ==> 0 <= k < params.len(),
        values_by_name(params).contains_key(name) ==> params[k].name@ == name
            && values_by_name(params)[name] == params[k].value@,
        values_by_name(params).contains_key(name) ==> forall|j: int|
            k < j < params.len() ==> (#[trigger] params[j]).name@ != name,
        !values_by_name(params).contains_key(name) ==> forall|j: int|
            0 <= j < params.len() ==> (#[trigger] params[j]).name@ != name,
    decreases params.len(),
{
    if params.len() == 0 {
        0
    } else if params.last().name@ == name {
        params.len() - 1
    } else {
        let front = params.drop_last();
        let k = lemma_last_of_name(front, name);
        assert forall|j: int| 0 <= j < params.len() implies (#[trigger] params[j]).name@ == if j
            < front.len() {
            front[j].name@
        } else {
            params.last().name@
        } by {}
        k
    }
}

/// What a `?` protocol is sent: the statement as it was prepared, and for each of
/// its placeholders the value that was given under the name of its parameter, the
/// last one where there are several. It is refused exactly where a name has no
/// value.
pub proof fn law_every_placeholder_gets_the_value_of_its_name(
    statement: PreparedStatement,
    params: &[QueryParameter],
    r: Result<(String, Vec<CellValue>), CellarError>,
    i: int,
)
    requires
        call_ensures(mysql_statement, (statement, params), r),
        0 <= i < statement.bind_parameters@.len(),
    ensures
        r matches Ok(q) ==> {
            &&& q.0@ == statement.sql@
            &&& q.1@.len() == statement.bind_parameters@.len()
            &&& exists|k: int|
                {
                    &&& 0 <= k < params@.len()
                    &&& (#[trigger] params@[k]).name@ == statement.bind_parameters@[i].name@
                    &&& params@[k].value@ == q.1@[i]@
                    &&& forall|j: int|
                        k < j < params@.len() ==> (#[trigger] params@[j]).name@
                            != statement.bind_parameters@[i].name@
                }
        },
        (forall|j: int|
            0 <= j < params@.len() ==> (#[trigger] params@[j]).name@
                != statement.bind_parameters@[i].name@) ==> r is Err,
{
    let views = parameter_views(statement.bind_parameters@);
    let name = statement.bind_parameters@[i].name@;
    assert(views[i].name == name);
    let k = lemma_last_of_name(params@, name);
    if let Ok(q) = r {
        assert(values_by_name(params@).contains_key(views[i].name));
        assert(params@[k].name@ == name);
    }
}

/// What SQL Server is sent: the statement as it was prepared, and for each of its
/// distinct parameters the value that was given under its name, the last one
/// where there are several. It is refused exactly where a name has no value.
pub proof fn law_every_parameter_gets_the_value_of_its_name(
    statement: PreparedStatement,
    params: &[QueryParameter],
    r: Result<(String, Vec<CellValue>), CellarError>,
    i: int,
)
    requires
        call_ensures(sql_server_statement, (statement, params), r),
        0 <= i < statement.parameters@.len(),
    ensures
        r matches Ok(q) ==> {
            &&& q.0@ == statement.sql@
            &&& q.1@.len() == statement.parameters@.len()
            &&& exists|k: int|
                {
                    &&& 0 <= k < params@.len()
                    &&& (#[trigger] params@[k]).name@ == statement.parameters@[i].name@
                    &&& params@[k].value@ == q.1@[i]@
                    &&& forall|j: int|
                        k < j < params@.len() ==> (#[trigger] params@[j]).name@
                            != statement.parameters@[i].name@
                }
        },
        (forall|j: int|
            0 <= j < params@.len() ==> (#[trigger] params@[j]).name@
                != statement.parameters@[i].name@) ==> r is Err,
{
    let views = parameter_views(statement.parameters@);
    let name = statement.parameters@[i].name@;
    assert(views[i].name == name);
    let k = lemma_last_of_name(params@, name);
    if let Ok(q) = r {
        assert(values_by_name(params@).contains_key(views[i].name));
        assert(params@[k].name@ == name);
    }
}

/// A query is refused only for want of a value: where every name has one, it is
/// sent.
pub proof fn law_complete_queries_are_sent(
    statement: PreparedStatement,
    params: &[QueryParameter],
    bare: Result<(String, Vec<CellValue>), CellarError>,
    numbered: Result<(String, Vec<CellValue>), CellarError>,
)
    requires
        call_ensures(mysql_statement, (statement, params), bare),
        call_ensures(sql_server_statement, (statement, params), numbered),
    ensures
        (forall|i: int|
            0 <= i < statement.bind_parameters@.len() ==> exists|k: int|
                0 <= k < params@.len() && (#[trigger] params@[k]).name@ == (
                #[trigger] statement.bind_parameters@[i]).name@) ==> bare is Ok,
        (forall|i: int|
            0 <= i < statement.parameters@.len() ==> exists|k: int|
                0 <= k < params@.len() && (#[trigger] params@[k]).name@ == (
                #[trigger] statement.parameters@[i]).name@) ==> numbered is Ok,
{
    let values = values_by_name(params@);
    if bare is Err {
        let views = parameter_views(statement.bind_parameters@);
        let at = choose|at: int|
            #[trigger] first_missing(views, values, at) && (bare->Err_0)@ == ErrorView::Query(
                "no value supplied for parameter `"@ + views[at].name + "`"@,
            );
        assert(views[at].name == statement.bind_parameters@[at].name@);
        lemma_last_of_name(params@, views[at].name);
    }
    if numbered is Err {
        let views = parameter_views(statement.parameters@);
        let at = choose|at: int|
            #[trigger] first_missing(views, values, at) && (numbered->Err_0)@ == ErrorView::Query(
                "no value supplied for parameter `"@ + views[at].name + "`"@,
            );
        assert(views[at].name == statement.parameters@[at].name@);
        lemma_last_of_name(params@, views[at].name);
    }
}

/// A query returns as many rows as it asks for from where it asks, and the first
/// 500 where it asks for nothing.
pub proof fn law_queries_return_what_they_ask_for(query: Query, limit: usize, offset: usize)
    requires
        call_ensures(Query::row_limit, (&query,), limit),
        call_ensures(Query::row_offset, (&query,), offset),
    ensures
        query.max_rows matches Some(n) ==> limit == n,
        query.max_rows is None ==> limit == 500,
        query.offset matches Some(n) ==> offset == n,
        query.offset is None ==> offset == 0,
{
}

/// The rows of a result are those of its pages, one page behind the other.
pub proof fn law_results_are_their_pages(pages: Seq<QueryResultPage>, next: QueryResultPage)
    ensures
        all_rows(Seq::empty()) == Seq::<Row>::empty(),
        all_rows(pages.push(next)) == all_rows(pages) + next.rows@,
{
    assert(pages.push(next).drop_last() =~= pages);
}

/// A query for MySQL without parameters is sent as it is. Any other is read in the
/// dialect of MySQL and sent with bare placeholders.
pub proof fn law_mysql_queries_are_sent_with_their_values(
    query: &Query,
    r: Result<(String, Vec<CellValue>), CellarError>,
)
    requires
        call_ensures(prepare_mysql_query, (query,), r),
    ensures
        query.params@.len() == 0 ==> (r matches Ok(q) && q.0@ == query.sql@ && q.1@.len() == 0),
        query.params@.len() > 0 ==> match tokenized(query.sql@, "mysql"@) {
            Err(message) => r matches Err(CellarError::Query(text)) && text@
                == "could not tokenize SQL: "@ + message,
            Ok(tokens) => r matches Ok(q) ==> {
                let p = prepared(tokens, PlaceholderStyle::Question);
                &&& q.0@ == p.sql
                &&& q.1@.len() == p.bind_parameters.len()
                &&& forall|i: int|
                    #![trigger q.1@[i]]
                    0 <= i < q.1@.len() ==> exists|k: int|
                        0 <= k < query.params@.len() && (#[trigger] query.params@[k]).name@
                            == p.bind_parameters[i].name && query.params@[k].value@ == q.1@[i]@
            },
        },
{
    if query.params@.len() > 0 {
        if let Ok(tokens) = tokenized(query.sql@, "mysql"@) {
            if let Ok(q) = r {
                let p = prepared(tokens, PlaceholderStyle::Question);
                assert forall|i: int|
                    #![trigger q.1@[i]]
                    0 <= i < q.1@.len() implies exists|k: int|
                    0 <= k < query.params@.len() && (#[trigger] query.params@[k]).name@
                        == p.bind_parameters[i].name && query.params@[k].value@ == q.1@[i]@ by {
                    assert(values_by_name(query.params@).contains_key(p.bind_parameters[i].name));
                    let k = lemma_last_of_name(query.params@, p.bind_parameters[i].name);
                    assert(query.params@[k].name@ == p.bind_parameters[i].name);
                }
            }
        }
    }
}

/// A query for SQL Server is read in its dialect and sent with numbered
/// placeholders and a value for each distinct parameter.
pub proof fn law_sql_server_queries_are_sent_with_their_values(
    query: &Query,
    r: Result<(String, Vec<CellValue>), CellarError>,
)
    requires
        call_ensures(prepare_sql_server_query, (query,), r),
    ensures
        match tokenized(query.sql@, "mssql"@) {
            Err(message) => r matches Err(CellarError::Query(text)) && text@
                == "could not tokenize SQL: "@ + message,
            Ok(tokens) => r matches Ok(q) ==> {
                let p = prepared(tokens, PlaceholderStyle::SqlServer);
                &&& q.0@ == p.sql
                &&& q.1@.len() == p.parameters.len()
                &&& forall|i: int|
                    #![trigger q.1@[i]]
                    0 <= i < q.1@.len() ==> exists|k: int|
                        0 <= k < query.params@.len() && (#[trigger] query.params@[k]).name@
                            == p.parameters[i].name && query.params@[k].value@ == q.1@[i]@
            },
        },
{
    if let Ok(tokens) = tokenized(query.sql@, "mssql"@) {
        if let Ok(q) = r {
            let p = prepared(tokens, PlaceholderStyle::SqlServer);
            assert forall|i: int|
                #![trigger q.1@[i]]
                0 <= i < q.1@.len() implies exists|k: int|
                0 <= k < query.params@.len() && (#[trigger] query.params@[k]).name@
                    == p.parameters[i].name && query.params@[k].value@ == q.1@[i]@ by {
                assert(values_by_name(query.params@).contains_key(p.parameters[i].name));
                let k = lemma_last_of_name(query.params@, p.parameters[i].name);
                assert(query.params@[k].name@ == p.parameters[i].name);
            }
        }
    }
}

/// A result is made of its columns, the rows of its pages and what its summary
/// reports.
pub proof fn law_results_report_their_summary(
    columns: Vec<ColumnMeta>,
    pages: Vec<QueryResultPage>,
    summary: QueryResultSummary,
    r: QueryResult,
)
    requires
        call_ensures(QueryResult::of_pages, (columns, pages, summary), r),
    ensures
        r.columns@ == columns@,
        r.rows@ == all_rows(pages@),
        r.notices@ == summary.notices@,
        r.notice_capture == summary.notice_capture,
        r.rows_affected == summary.rows_affected,
        r.duration_ms == summary.duration_ms,
        r.truncated == summary.truncated,
        r.total_rows == summary.total_rows,
{
}

} // verus!
