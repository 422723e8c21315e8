//! The window of a query's rows that is returned, and the pages it comes in.
//!
//! A driver reads a stream of rows. For each of them it asks [`Pager::next_row`]
//! what to do with it, and hands over the cells of those that are taken.
use vstd::prelude::*;

use crate::query::{NoticeCapture, QueryResultPage, QueryResultSummary};
use crate::text::{lowercased, to_lowercase};
use crate::value::{copy_columns, ColumnMeta, Row};

verus! {

/// What to do with the next row of the stream.
#[derive(Clone, Copy, PartialEq, Eq, Structural, Debug)]
pub enum RowAction {
    /// The row lies before the window.
    Skip,
    /// The row is returned.
    Take,
    /// The window is full: the stream is read no further.
    Stop,
}

/// Reads the window of `max_rows` rows after the first `offset` rows, in pages of
/// `page_size` rows.
pub struct Pager {
    max_rows: usize,
    offset: usize,
    page_size: usize,
    columns: Option<Vec<ColumnMeta>>,
    page_rows: Vec<Row>,
    truncated: bool,
    rows_seen: usize,
    rows_output: usize,
    rows_affected: Option<u64>,
    taken: Ghost<Seq<Row>>,
}

/// The model of [`Pager`].
#[verifier::ext_equal]
pub struct PagerView {
    pub max_rows: nat,
    pub offset: nat,
    pub page_size: nat,
    /// The columns, once they are known.
    pub columns: Option<Seq<ColumnMeta>>,
    /// The number of rows that were skipped.
    pub skipped: nat,
    /// The rows that were taken.
    pub taken: Seq<Row>,
    /// Whether a row came after the window.
    pub truncated: bool,
    /// The number of rows that completed commands affected.
    pub affected: Option<u64>,
}

impl PagerView {
    /// The number of rows of the stream that were read, without the one that
    /// stopped it.
    pub open spec fn position(self) -> nat {
        self.skipped + self.taken.len()
    }

    /// The columns; none where they never became known.
    pub open spec fn known_columns(self) -> Seq<ColumnMeta> {
        match self.columns {
            Some(c) => c,
            None => Seq::empty(),
        }
    }

    /// The number of rows that went out in full pages.
    pub open spec fn paged(self) -> int {
        self.taken.len() - self.taken.len() % self.page_size
    }

    /// What happens to the next row of the stream.
    pub open spec fn next_action(self) -> RowAction {
        action_at(self.position(), self.offset, self.max_rows)
    }

    /// The pager once it has decided on the next row.
    pub open spec fn decided(self) -> PagerView {
        match self.next_action() {
            RowAction::Skip => PagerView { skipped: self.skipped + 1, ..self },
            RowAction::Take => self,
            RowAction::Stop => PagerView { truncated: true, ..self },
        }
    }

    /// The pager with one more row taken.
    pub open spec fn with_row(self, row: Row) -> PagerView {
        PagerView { taken: self.taken.push(row), ..self }
    }

    /// The page that the last row filled: where it begins, and its rows.
    pub open spec fn full_page(self) -> Option<(int, Seq<Row>)> {
        if self.taken.len() > 0 && self.taken.len() % self.page_size == 0 {
            let start = self.taken.len() - self.page_size;
            Some((start, self.taken.skip(start)))
        } else {
            None
        }
    }
}

/// What happens to the row at `position` of the stream.
pub open spec fn action_at(position: nat, offset: nat, max_rows: nat) -> RowAction {
    if position < offset {
        RowAction::Skip
    } else if position < offset + max_rows {
        RowAction::Take
    } else {
        RowAction::Stop
    }
}

impl View for Pager {
    type V = PagerView;

    closed spec fn view(&self) -> PagerView {
        PagerView {
            max_rows: self.max_rows as nat,
            offset: self.offset as nat,
            page_size: self.page_size as nat,
            columns: match self.columns {
                Some(c) => Some(c@),
                None => None,
            },
            skipped: self.rows_seen as nat,
            taken: self.taken@,
            truncated: self.truncated,
            affected: self.rows_affected,
        }
    }
}

impl Pager {
    /// Rows are taken only after all of the offset was skipped, and never more
    /// than the window holds. The rows that are kept are those of the page that
    /// is not yet full.
    pub closed spec fn wf(self) -> bool {
        let v = self@;
        &&& v.page_size >= 1
        &&& v.skipped <= v.offset
        &&& v.taken.len() > 0 ==> v.skipped == v.offset
        &&& v.taken.len() <= v.max_rows
        &&& self.rows_output == v.taken.len()
        &&& 0 <= v.paged() <= v.taken.len()
        &&& self.page_rows@ == v.taken.skip(v.paged())
    }

    /// Starts before the first row. A page holds at least one row.
    pub fn new(max_rows: usize, offset: usize, page_size: usize) -> (r: Self)
        ensures
            r.wf(),
            r@.max_rows == max_rows,
            r@.offset == offset,
            r@.page_size == (if page_size == 0 {
                1
            } else {
                page_size as int
            }),
            r@.columns is None,
            r@.skipped == 0,
            r@.taken.len() == 0,
            !r@.truncated,
            r@.affected is None,
    {
        let r = Pager {
            max_rows,
            offset,
            page_size: if page_size == 0 {
                1
            } else {
                page_size
            },
            columns: None,
            page_rows: Vec::new(),
            truncated: false,
            rows_seen: 0,
            rows_output: 0,
            rows_affected: None,
            taken: Ghost(Seq::empty()),
        };
        proof {
            assert(0int % (r.page_size as int) == 0) by (nonlinear_arith)
                requires
                    r.page_size >= 1,
            ;
            assert(r.page_rows@ =~= r@.taken.skip(r@.paged()));
        }
        r
    }

    /// Whether the columns are still unknown.
    pub fn needs_columns(&self) -> (r: bool)
        ensures
            r == self@.columns is None,
    {
        self.columns.is_none()
    }

    /// Sets the columns, the first time only.
    pub fn set_columns(&mut self, columns: Vec<ColumnMeta>)
        requires
            old(self).wf(),
        ensures
            final(self).wf(),
            old(self)@.columns is Some ==> final(self)@ == old(self)@,
            old(self)@.columns is None ==> final(self)@ == (PagerView {
                columns: Some(columns@),
                ..old(self)@
            }),
    {
        if self.columns.is_none() {
            self.columns = Some(columns);
        }
    }

    /// Adds the rows that a completed command affected.
    pub fn command_done(&mut self, rows: u64)
        requires
            old(self).wf(),
            old(self)@.affected matches Some(n) ==> n + rows <= u64::MAX,
        ensures
            final(self).wf(),
            final(self)@ == (PagerView {
                affected: Some(
                    match old(self)@.affected {
                        Some(n) => (n + rows) as u64,
                        None => rows,
                    },
                ),
                ..old(self)@
            }),
    {
        self.rows_affected = Some(
            match self.rows_affected {
                Some(n) => n + rows,
                None => rows,
            },
        );
    }

    /// Decides on the next row of the stream. A row that is taken is handed over
    /// with [`Pager::take_row`] next.
    pub fn next_row(&mut self) -> (r: RowAction)
        requires
            old(self).wf(),
        ensures
            final(self).wf(),
            r == old(self)@.next_action(),
            final(self)@ == old(self)@.decided(),
    {
        if self.rows_seen < self.offset {
            self.rows_seen += 1;
            RowAction::Skip
        } else if self.rows_output >= self.max_rows {
            self.truncated = true;
            RowAction::Stop
        } else {
            RowAction::Take
        }
    }

    /// Takes a row. The page that it fills is handed out.
    pub fn take_row(&mut self, cells: Row) -> (r: Option<QueryResultPage>)
        requires
            old(self).wf(),
            old(self)@.next_action() == RowAction::Take,
        ensures
            final(self).wf(),
            final(self)@ == old(self)@.with_row(cells),
            page_view(r) == final(self)@.full_page(),
            r matches Some(page) ==> page.columns@ == final(self)@.known_columns(),
            r matches Some(page) ==> page.rows@.len() == final(self)@.page_size,
    {
        let ghost before = self@;
        proof {
            lemma_next_remainder(before.taken.len(), before.page_size);
        }
        self.page_rows.push(cells);
        self.rows_output += 1;
        self.taken = Ghost(self.taken@.push(cells));
        if self.page_rows.len() >= self.page_size {
            let mut rows: Vec<Row> = Vec::new();
            std::mem::swap(&mut rows, &mut self.page_rows);
            let columns = self.column_list();
            let offset = (self.rows_output - self.page_size) as u64;
            proof {
                assert(rows@ =~= self@.taken.skip(before.paged()));
                assert(self.page_rows@ =~= self@.taken.skip(self@.paged()));
            }
            Some(QueryResultPage { columns, rows, offset })
        } else {
            proof {
                assert(self.page_rows@ =~= self@.taken.skip(self@.paged()));
            }
            None
        }
    }

    /// A copy of the columns.
    pub fn column_list(&self) -> (r: Vec<ColumnMeta>)
        ensures
            r@ == self@.known_columns(),
    {
        match &self.columns {
            Some(columns) => copy_columns(columns.as_slice()),
            None => Vec::new(),
        }
    }

    /// Whether a statement that returned no row is to be described for its
    /// columns.
    pub fn needs_description(&self, may_return_rows: bool) -> (r: bool)
        requires
            self.wf(),
        ensures
            r == (self@.taken.len() == 0 && self@.columns is None && may_return_rows),
    {
        self.rows_output == 0 && self.columns.is_none() && may_return_rows
    }

    /// Sets the columns of a described statement, where it has any.
    pub fn set_description(&mut self, columns: Vec<ColumnMeta>)
        requires
            old(self).wf(),
        ensures
            final(self).wf(),
            columns@.len() == 0 || old(self)@.columns is Some ==> final(self)@ == old(self)@,
            columns@.len() > 0 && old(self)@.columns is None ==> final(self)@ == (PagerView {
                columns: Some(columns@),
                ..old(self)@
            }),
    {
        if columns.len() > 0 {
            self.set_columns(columns);
        }
    }

    /// Ends a MySQL query. What is left of the rows is the last page; a query
    /// with columns and no rows has one empty page. The number of affected rows
    /// is reported only for a statement without a result set.
    pub fn finish_mysql(self, duration_ms: u64) -> (r: (
        Option<QueryResultPage>,
        Vec<ColumnMeta>,
        QueryResultSummary,
    ))
        requires
            self.wf(),
        ensures
            ends_with(
                r.0,
                self@,
                self@.taken.len() % self@.page_size != 0 || (self@.taken.len() == 0
                    && self@.columns is Some),
            ),
            r.1@ == self@.known_columns(),
            summarizes(r.2, self@, duration_ms),
            r.2.notice_capture matches NoticeCapture::Unsupported(why) && why@
                == "MySQL does not expose server notices through the sqlx query path."@,
            r.2.rows_affected == (if self@.columns is None {
                self@.affected
            } else {
                None
            }),
    {
        let columns = self.column_list();
        let known = self.columns.is_some();
        let summary = QueryResultSummary {
            notices: Vec::new(),
            notice_capture: NoticeCapture::Unsupported(
                "MySQL does not expose server notices through the sqlx query path.".to_owned(),
            ),
            rows_affected: if known {
                None
            } else {
                self.rows_affected
            },
            duration_ms,
            truncated: self.truncated,
            total_rows: None,
            row_count: self.rows_output as u64,
        };
        proof {
            lemma_remainder(self@.taken.len(), self@.page_size);
        }
        let page = if self.page_rows.len() > 0 || (self.rows_output == 0 && known) {
            let offset = (self.rows_output - self.page_rows.len()) as u64;
            Some(
                QueryResultPage {
                    columns: copy_columns(columns.as_slice()),
                    rows: self.page_rows,
                    offset,
                },
            )
        } else {
            None
        };
        (page, columns, summary)
    }

    /// Ends a SQL Server query. What is left of the rows is the last page, by
    /// [`emit_page`]. The stream reports no affected rows.
    pub fn finish_sql_server(self, duration_ms: u64) -> (r: (
        Option<QueryResultPage>,
        Vec<ColumnMeta>,
        QueryResultSummary,
    ))
        requires
            self.wf(),
        ensures
            ends_with(
                r.0,
                self@,
                self@.taken.len() % self@.page_size != 0 || (self@.taken.len() == 0
                    && self@.known_columns().len() > 0),
            ),
            r.1@ == self@.known_columns(),
            summarizes(r.2, self@, duration_ms),
            r.2.notice_capture matches NoticeCapture::Unsupported(why) && why@
                == "SQL Server informational messages are not exposed through the current tiberius query path."@,
            r.2.rows_affected is None,
    {
        let columns = self.column_list();
        let summary = QueryResultSummary {
            notices: Vec::new(),
            notice_capture: NoticeCapture::Unsupported(
                "SQL Server informational messages are not exposed through the current tiberius query path.".to_owned(),
            ),
            rows_affected: None,
            duration_ms,
            truncated: self.truncated,
            total_rows: None,
            row_count: self.rows_output as u64,
        };
        proof {
            lemma_remainder(self@.taken.len(), self@.page_size);
        }
        let page = emit_page(columns.as_slice(), self.page_rows, self.rows_output);
        (page, columns, summary)
    }
}

/// Where a page begins, and its rows.
pub open spec fn page_view(page: Option<QueryResultPage>) -> Option<(int, Seq<Row>)> {
    match page {
        Some(page) => Some((page.offset as int, page.rows@)),
        None => None,
    }
}

/// Whether `page` is the last page of the rows that `v` has taken, where there
/// is one: the rows that went out in no full page.
pub open spec fn ends_with(page: Option<QueryResultPage>, v: PagerView, exists_one: bool) -> bool {
    match page {
        Some(page) => {
            &&& exists_one
            &&& page.columns@ == v.known_columns()
            &&& page.offset == v.paged()
            &&& page.rows@ == v.taken.skip(v.paged())
        },
        None => !exists_one,
    }
}

/// What both engines report.
pub open spec fn summarizes(summary: QueryResultSummary, v: PagerView, duration_ms: u64) -> bool {
    &&& summary.notices@.len() == 0
    &&& summary.duration_ms == duration_ms
    &&& summary.truncated == v.truncated
    &&& summary.total_rows is None
    &&& summary.row_count == v.taken.len()
}

/// The page of these rows, the last of `rows_output` rows. Without rows there is
/// a page only for a result that has columns and had no rows at all.
pub fn emit_page(columns: &[ColumnMeta], rows: Vec<Row>, rows_output: usize) -> (r: Option<
    QueryResultPage,
>)
    ensures
        r is None == (rows@.len() == 0 && (columns@.len() == 0 || rows_output > 0)),
        r matches Some(page) ==> {
            &&& page.columns@ == columns@
            &&& page.rows == rows
            &&& page.offset == (if rows_output >= rows@.len() {
                rows_output - rows@.len()
            } else {
                0
            })
        },
{
    if rows.len() == 0 && (columns.len() == 0 || rows_output > 0) {
        return None;
    }
    let offset: usize = rows_output.saturating_sub(rows.len());
    Some(QueryResultPage { columns: copy_columns(columns), rows, offset: offset as u64 })
}

proof fn lemma_remainder(n: nat, d: nat)
    requires
        d >= 1,
    ensures
        0 <= n % d < d,
        n % d <= n,
{
    assert(0 <= n % d < d && n % d <= n) by (nonlinear_arith)
        requires
            d >= 1,
    ;
}

/// Counting one on either adds one to the remainder or completes a page.
proof fn lemma_next_remainder(n: nat, d: nat)
    requires
        d >= 1,
    ensures
        0 <= n % d < d,
        n % d <= n,
        n % d + 1 == d ==> (n + 1) % d == 0,
        n % d + 1 < d ==> (n + 1) % d == n % d + 1,
{
    lemma_remainder(n, d);
    let q = n / d;
    assert(n == d * q + n % d) by (nonlinear_arith)
        requires
            d >= 1,
            q == n / d,
    ;
    assert(d * q == q * d && d * (q + 1) == d * q + d && d * (q + 1) == (q + 1) * d)
        by (nonlinear_arith);
    if n % d + 1 == d {
        vstd::arithmetic::div_mod::lemma_mod_multiples_basic((q + 1) as int, d as int);
    } else {
        vstd::arithmetic::div_mod::lemma_fundamental_div_mod_converse(
            (n + 1) as int,
            d as int,
            q as int,
            (n % d + 1) as int,
        );
    }
}

// ---------------------------------------------------------------------
// Laws
// ---------------------------------------------------------------------
/// The page with the number `k` of rows in pages of `size`.
pub open spec fn page_of<R>(rows: Seq<R>, size: nat, k: nat) -> Seq<R> {
    rows.subrange(
        (k * size) as int,
        if (k + 1) * size <= rows.len() {
            ((k + 1) * size) as int
        } else {
            rows.len() as int
        },
    )
}

/// The first `n` pages, one after the other.
pub open spec fn first_pages<R>(rows: Seq<R>, size: nat, n: nat) -> Seq<R>
    decreases n,
{
    if n == 0 {
        Seq::empty()
    } else {
        first_pages(rows, size, (n - 1) as nat) + page_of(rows, size, (n - 1) as nat)
    }
}

/// Pages lose nothing, repeat nothing and keep the order: the first `n` full
/// pages are the first `n * size` rows, and with the rows left over they are all
/// rows.
pub proof fn law_pages_are_the_rows<R>(rows: Seq<R>, size: nat, n: nat)
    requires
        size >= 1,
        n * size <= rows.len(),
    ensures
        first_pages(rows, size, n) == rows.take((n * size) as int),
        first_pages(rows, size, n) + rows.skip((n * size) as int) == rows,
    decreases n,
{
    if n == 0 {
        assert(0 * size == 0) by (nonlinear_arith);
        assert(rows.take(0) =~= Seq::empty());
        assert(Seq::empty() + rows.skip(0) =~= rows);
    } else {
        let m = (n - 1) as nat;
        assert(n * size == m * size + size) by (nonlinear_arith)
            requires
                n == m + 1,
        ;
        law_pages_are_the_rows(rows, size, m);
        assert(first_pages(rows, size, n) =~= rows.take((n * size) as int));
        assert(rows.take((n * size) as int) + rows.skip((n * size) as int) =~= rows);
    }
}

/// What was taken of a stream, once `count` of its rows were read.
pub open spec fn window<R>(stream: Seq<R>, offset: nat, max_rows: nat, count: nat) -> Seq<R>
    decreases count,
{
    if count == 0 {
        Seq::empty()
    } else {
        let before = window(stream, offset, max_rows, (count - 1) as nat);
        match action_at((count - 1) as nat, offset, max_rows) {
            RowAction::Take => before.push(stream[count - 1]),
            _ => before,
        }
    }
}

/// The rows that are taken are those from `offset` on, at most `max_rows` of
/// them; the stream is stopped exactly when it has more rows than that.
pub proof fn law_the_window_is_taken<R>(stream: Seq<R>, offset: nat, max_rows: nat, count: nat)
    requires
        count <= stream.len(),
    ensures
        count <= offset ==> window(stream, offset, max_rows, count).len() == 0,
        offset <= count <= offset + max_rows ==> window(stream, offset, max_rows, count)
            == stream.subrange(offset as int, count as int),
        offset + max_rows <= count ==> window(stream, offset, max_rows, count) == stream.subrange(
            offset as int,
            (offset + max_rows) as int,
        ),
        (exists|i: nat| i < count && #[trigger] action_at(i, offset, max_rows) == RowAction::Stop)
            == (count > offset + max_rows),
    decreases count,
{
    if count > 0 {
        law_the_window_is_taken(stream, offset, max_rows, (count - 1) as nat);
        if offset < count <= offset + max_rows {
            assert(stream.subrange(offset as int, count as int) =~= stream.subrange(
                offset as int,
                count - 1,
            ).push(stream[count - 1]));
        }
    }
    if count > offset + max_rows {
        assert(action_at((offset + max_rows) as nat, offset, max_rows) == RowAction::Stop);
    }
}

/// Whether a row of the stream was read: the pager decided on it and took it
/// where it lies in the window. The columns and the number of affected rows may
/// have become known meanwhile.
pub open spec fn reads(was: PagerView, now: PagerView, row: Row) -> bool {
    let read = if was.next_action() == RowAction::Take {
        was.decided().with_row(row)
    } else {
        was.decided()
    };
    now == (PagerView { columns: now.columns, affected: now.affected, ..read })
}

/// Whether `run` are the states of a pager that reads a stream from its
/// beginning, row by row. A pager that has stopped stays as it is.
pub open spec fn is_run(run: Seq<PagerView>, stream: Seq<Row>) -> bool {
    &&& run.len() == stream.len() + 1
    &&& run[0].page_size >= 1
    &&& run[0].skipped == 0
    &&& run[0].taken.len() == 0
    &&& !run[0].truncated
    &&& forall|i: int|
        #![trigger stream[i]]
        0 <= i < stream.len() ==> reads(run[i], run[i + 1], stream[i])
}

/// The page that went out with the row at `i` of the stream.
pub open spec fn page_out(run: Seq<PagerView>, i: int) -> Option<(int, Seq<Row>)> {
    if run[i].next_action() == RowAction::Take {
        run[i + 1].full_page()
    } else {
        None
    }
}

/// The rows of the pages that went out with the first `n` rows of the stream.
pub open spec fn rows_out(run: Seq<PagerView>, n: nat) -> Seq<Row>
    decreases n,
{
    if n == 0 {
        Seq::empty()
    } else {
        match page_out(run, n - 1) {
            Some((_, rows)) => rows_out(run, (n - 1) as nat) + rows,
            None => rows_out(run, (n - 1) as nat),
        }
    }
}

/// The rows of the last page.
pub open spec fn last_rows(page: Option<QueryResultPage>) -> Seq<Row> {
    match page {
        Some(page) => page.rows@,
        None => Seq::empty(),
    }
}

/// What a pager has done with the first `n` rows of a stream.
proof fn lemma_run(run: Seq<PagerView>, stream: Seq<Row>, n: nat)
    requires
        is_run(run, stream),
        n <= stream.len(),
    ensures
        ({
            let v = run[n as int];
            &&& v.offset == run[0].offset
            &&& v.max_rows == run[0].max_rows
            &&& v.page_size == run[0].page_size
            &&& v.taken == window(stream, v.offset, v.max_rows, n)
            &&& v.position() == (if n <= v.offset + v.max_rows {
                n
            } else {
                v.offset + v.max_rows
            })
            &&& v.skipped <= v.offset
            &&& v.taken.len() > 0 ==> v.skipped == v.offset
            &&& v.truncated == (n > v.offset + v.max_rows)
            &&& 0 <= v.paged() <= v.taken.len()
            &&& rows_out(run, n) == v.taken.take(v.paged())
        }),
    decreases n,
{
    let v = run[n as int];
    if n == 0 {
        lemma_remainder(0, v.page_size);
        assert(v.taken =~= Seq::<Row>::empty());
        assert(rows_out(run, n) =~= v.taken.take(v.paged()));
    } else {
        let before = run[n - 1];
        let row = stream[n - 1];
        lemma_run(run, stream, (n - 1) as nat);
        assert(reads(run[n - 1], run[n - 1 + 1], stream[n - 1]));
        lemma_next_remainder(before.taken.len(), before.page_size);
        if before.next_action() == RowAction::Take {
            assert(v.taken == before.taken.push(row));
            lemma_remainder(v.taken.len(), v.page_size);
            assert(rows_out(run, n) =~= v.taken.take(v.paged()));
        } else {
            assert(v.taken == before.taken);
            assert(rows_out(run, n) == v.taken.take(v.paged()));
        }
    }
}

/// A whole run, from the first row of a stream to the end of the query: the pages
/// that went out and the last one are, one behind the other, the rows of the
/// window; each page begins where those before it end; and the summary tells how
/// many rows there are and whether the stream had more.
pub proof fn law_a_run_returns_the_window(
    run: Seq<PagerView>,
    stream: Seq<Row>,
    last: Option<QueryResultPage>,
    has_last: bool,
    summary: QueryResultSummary,
    duration_ms: u64,
)
    requires
        is_run(run, stream),
        ends_with(last, run.last(), has_last),
        run.last().taken.len() % run.last().page_size != 0 ==> has_last,
        run.last().taken.len() > 0 && run.last().taken.len() % run.last().page_size == 0
            ==> !has_last,
        summarizes(summary, run.last(), duration_ms),
    ensures
        ({
            let all = window(stream, run[0].offset, run[0].max_rows, stream.len());
            &&& rows_out(run, stream.len()) + last_rows(last) == all
            &&& forall|i: int|
                0 <= i < stream.len() ==> ((#[trigger] page_out(run, i)) matches Some((start, rows))
                    ==> start == rows_out(run, i as nat).len() && rows.len() == run[0].page_size)
            &&& last matches Some(page) ==> page.offset == rows_out(run, stream.len()).len()
            &&& summary.row_count == all.len()
            &&& summary.truncated == (stream.len() > run[0].offset + run[0].max_rows)
        }),
{
    let v = run.last();
    lemma_run(run, stream, stream.len());
    lemma_remainder(v.taken.len(), v.page_size);
    assert(rows_out(run, stream.len()) + last_rows(last) =~= v.taken);
    assert forall|i: int| 0 <= i < stream.len() implies ((#[trigger] page_out(run, i)) matches Some(
        (start, rows),
    ) ==> start == rows_out(run, i as nat).len() && rows.len() == run[0].page_size) by {
        lemma_run(run, stream, i as nat);
        lemma_run(run, stream, (i + 1) as nat);
        assert(reads(run[i], run[i + 1], stream[i]));
        let before = run[i].taken.len();
        lemma_next_remainder(before, run[i].page_size);
    }
}

// ---------------------------------------------------------------------
// Columns
// ---------------------------------------------------------------------
/// Whether `columns` are the columns that a driver describes by name and type:
/// the type in lower case, and NULLs to be expected in each.
pub open spec fn describes_columns(columns: Seq<ColumnMeta>, described: Seq<(String, String)>) -> bool {
    &&& columns.len() == described.len()
    &&& forall|i: int|
        0 <= i < columns.len() ==> (#[trigger] columns[i]).name@ == described[i].0@
            && columns[i].data_type@ == lowercased(described[i].1@) && columns[i].nullable
}

/// The columns that a driver describes by name and type.
pub fn described_columns(described: &[(String, String)]) -> (r: Vec<ColumnMeta>)
    ensures
        describes_columns(r@, described@),
{
    let mut out: Vec<ColumnMeta> = Vec::new();
    let mut i: usize = 0;
    while i < described.len()
        invariant
            i <= described@.len(),
            out@.len() == i,
            forall|k: int|
                0 <= k < i ==> (#[trigger] out@[k]).name@ == described@[k].0@
                    && out@[k].data_type@ == lowercased(described@[k].1@) && out@[k].nullable,
        decreases described@.len() - i,
    {
        out.push(
            ColumnMeta {
                name: described[i].0.clone(),
                data_type: to_lowercase(described[i].1.as_str()),
                nullable: true,
            },
        );
        i += 1;
    }
    out
}

/// The last page of a MySQL query is the rows that went out in no full page. It is
/// there where rows are left, or where a result has columns and no rows at all.
/// The affected rows are told of a statement without a result set alone.
pub proof fn law_mysql_queries_end_with_what_is_left(
    pager: Pager,
    duration_ms: u64,
    r: (Option<QueryResultPage>, Vec<ColumnMeta>, QueryResultSummary),
    full: nat,
    left: nat,
)
    requires
        pager.wf(),
        call_ensures(Pager::finish_mysql, (pager, duration_ms), r),
        pager@.taken.len() == full * pager@.page_size + left,
        left < pager@.page_size,
    ensures
        r.0 is Some <==> left > 0 || (pager@.taken.len() == 0 && pager@.columns is Some),
        r.0 matches Some(page) ==> {
            &&& page.rows@.len() == left
            &&& page.rows@ == pager@.taken.skip(pager@.taken.len() - left)
            &&& page.offset == pager@.taken.len() - left
            &&& page.columns@ == r.1@
        },
        pager@.columns matches Some(columns) ==> r.1@ == columns,
        pager@.columns is None ==> r.1@.len() == 0 && r.2.rows_affected == pager@.affected,
        pager@.columns is Some ==> r.2.rows_affected is None,
        r.2.row_count == pager@.taken.len(),
        r.2.truncated == pager@.truncated,
        r.2.duration_ms == duration_ms,
        r.2.total_rows is None,
        r.2.notices@.len() == 0,
{
    lemma_left_over(pager@.taken.len(), pager@.page_size, full, left);
}

/// The last page of a SQL Server query is the rows that went out in no full page.
/// It is there where rows are left, or where a result has columns and no rows at
/// all. The stream tells of no affected rows.
pub proof fn law_sql_server_queries_end_with_what_is_left(
    pager: Pager,
    duration_ms: u64,
    r: (Option<QueryResultPage>, Vec<ColumnMeta>, QueryResultSummary),
    full: nat,
    left: nat,
)
    requires
        pager.wf(),
        call_ensures(Pager::finish_sql_server, (pager, duration_ms), r),
        pager@.taken.len() == full * pager@.page_size + left,
        left < pager@.page_size,
    ensures
        r.0 is Some <==> left > 0 || (pager@.taken.len() == 0 && r.1@.len() > 0),
        r.0 matches Some(page) ==> {
            &&& page.rows@.len() == left
            &&& page.rows@ == pager@.taken.skip(pager@.taken.len() - left)
            &&& page.offset == pager@.taken.len() - left
            &&& page.columns@ == r.1@
        },
        pager@.columns matches Some(columns) ==> r.1@ == columns,
        pager@.columns is None ==> r.1@.len() == 0,
        r.2.rows_affected is None,
        r.2.row_count == pager@.taken.len(),
        r.2.truncated == pager@.truncated,
        r.2.duration_ms == duration_ms,
        r.2.total_rows is None,
        r.2.notices@.len() == 0,
{
    lemma_left_over(pager@.taken.len(), pager@.page_size, full, left);
}

proof fn lemma_left_over(n: nat, d: nat, full: nat, left: nat)
    requires
        n == full * d + left,
        left < d,
    ensures
        n % d == left,
{
    vstd::arithmetic::div_mod::lemma_fundamental_div_mod_converse(
        n as int,
        d as int,
        full as int,
        left as int,
    );
}

/// A page holds the rows and columns it is made of and begins where the rows
/// before it end. Without rows there is one only for columns that had no rows at
/// all.
pub proof fn law_pages_hold_their_rows(
    columns: &[ColumnMeta],
    rows: Vec<Row>,
    rows_output: usize,
    r: Option<QueryResultPage>,
)
    requires
        call_ensures(emit_page, (columns, rows, rows_output), r),
        rows@.len() <= rows_output,
    ensures
        r is Some <==> rows@.len() > 0 || (columns@.len() > 0 && rows_output == 0),
        r matches Some(page) ==> page.rows@ == rows@ && page.columns@ == columns@ && page.offset
            + rows@.len() == rows_output,
{
}

/// Described columns have the names and the types, in lower case, that were
/// described, in their order.
pub proof fn law_columns_are_as_described(
    described: &[(String, String)],
    r: Vec<ColumnMeta>,
    i: int,
)
    requires
        call_ensures(described_columns, (described,), r),
        0 <= i < described@.len(),
    ensures
        r@.len() == described@.len(),
        r@[i].name@ == described@[i].0@,
        r@[i].data_type@ == lowercased(described@[i].1@),
        r@[i].nullable,
{
}

/// A row is skipped before the window, taken in it, and behind it the stream is
/// stopped and known to be cut short.
pub proof fn law_every_row_has_its_turn(v: PagerView, row: Row)
    requires
        v.page_size >= 1,
    ensures
        v.skipped + v.taken.len() < v.offset ==> v.next_action() == RowAction::Skip && v.decided()
            == (PagerView { skipped: v.skipped + 1, ..v }),
        v.offset <= v.skipped + v.taken.len() < v.offset + v.max_rows ==> v.next_action()
            == RowAction::Take && v.decided() == v,
        v.skipped + v.taken.len() >= v.offset + v.max_rows ==> v.next_action() == RowAction::Stop
            && v.decided() == (PagerView { truncated: true, ..v }),
        v.with_row(row) == (PagerView { taken: v.taken.push(row), ..v }),
        v.full_page() matches Some((start, rows)) ==> rows.len() == v.page_size && start
            + rows.len() == v.taken.len() && v.taken.take(start) + rows == v.taken,
{
    if let Some((start, rows)) = v.full_page() {
        assert(v.taken.len() >= v.page_size) by (nonlinear_arith)
            requires
                v.taken.len() > 0,
                v.page_size >= 1,
                v.taken.len() % v.page_size == 0,
        ;
        assert(v.taken.take(start) + rows =~= v.taken);
    }
}

} // verus!
