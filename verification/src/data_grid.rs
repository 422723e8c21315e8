//! The grid of a result: what is selected, edited and sorted in it. The text of
//! the running editor is held by the input field; the operations that commit it
//! take it as an argument.
use vstd::prelude::*;

use crate::browse::SortDirection;
use crate::cell_input::{bool_of, is_iso_date, parse_bool, refusal};
use crate::changes::TableChangeRequest;
use crate::editing::{
    inserted_among, kept_keys, law_an_insert_has_its_own_id, law_cancelling_an_insert,
    law_edits_follow_their_columns, requests, starts, EditableGrid, GridView, PendingView,
};
use crate::engine::Engine;
use crate::foreign_key::{ForeignKeyLookupRequest, LookupRequestView};
use crate::foreign_key_editing::{
    lookup_view, offer_view, offered, option_views, ForeignKeyNavigationOption, OptionView,
};
use crate::grid::{
    direction_after, law_items_follow_their_index, lemma_moved_back, move_item, move_set, moved,
    moved_index, moved_item, moved_set, next_sort_direction, sort_after, CellPosition,
};
use crate::ordered_map::OrderedMap;
use crate::query::{NoticeCapture, QueryResult, QueryResultPage, QueryResultSummary};
use crate::schema::{copy_texts, deref, Table};
use crate::text::{chars_are, lower, nat_text, push_u64, text_before, to_lower};
use crate::value::{
    bool_text, bool_to_text, cell_edit_text, columns_equal, format_uuid, opt_text, plain_text,
    random_uuid, row_values, same_columns, uuid_text, values, CellValue, ColumnMeta, Row, ValueView,
};
use crate::workspace_model::{opt_str, TableTarget};

verus! {

/// A day.
#[derive(Clone, Copy, Debug, PartialEq, Eq, Structural)]
pub struct CalendarDate {
    pub year: i32,
    pub month: u32,
    pub day: u32,
}

/// The calendar of an editor: the day that is chosen, and the first day of the
/// month that is shown.
#[derive(Clone, Copy, Debug, PartialEq, Eq, Structural)]
pub struct DateEditor {
    pub selected: Option<CalendarDate>,
    pub month: CalendarDate,
}

/// The running editor of a cell.
#[derive(Clone, Copy, Debug, PartialEq, Eq, Structural)]
pub struct ActiveEditor {
    pub position: CellPosition,
    pub date: Option<DateEditor>,
}

/// The foreign keys of a cell to choose from.
pub struct ForeignKeyPicker {
    pub row: usize,
    pub column: usize,
    pub options: Vec<ForeignKeyNavigationOption>,
}

/// The model of [`ForeignKeyPicker`].
#[verifier::ext_equal]
pub struct PickerView {
    pub row: usize,
    pub column: usize,
    pub options: Seq<OptionView>,
}

pub open spec fn picker_view(picker: Option<ForeignKeyPicker>) -> Option<PickerView> {
    match picker {
        Some(p) => Some(
            PickerView { row: p.row, column: p.column, options: option_views(p.options@) },
        ),
        None => None,
    }
}

/// What the grid asks of its host.
#[allow(inconsistent_fields)]
pub enum DataGridEvent {
    ImportCsv,
    ReviewChanges { connection_id: String, request: TableChangeRequest },
    SortColumn { column: String, direction: Option<SortDirection> },
    FindUsages { target: TableTarget, column: Option<String> },
    /// Column widths or order changed. Hosts persist the layout so a resized
    /// column survives paging, sorting, and tab switches.
    LayoutChanged,
    NavigateForeignKey {
        source: TableTarget,
        lookup: ForeignKeyLookupRequest,
        focus_column: String,
    },
}

/// What a result reports besides its rows.
#[verifier::ext_equal]
pub struct ReportView {
    pub notices: Seq<String>,
    pub notice_capture: NoticeCapture,
    pub rows_affected: Option<u64>,
    pub duration_ms: u64,
    pub truncated: bool,
    pub total_rows: Option<u64>,
}

/// What a result reports.
pub open spec fn report_of(result: QueryResult) -> ReportView {
    ReportView {
        notices: result.notices@,
        notice_capture: result.notice_capture,
        rows_affected: result.rows_affected,
        duration_ms: result.duration_ms,
        truncated: result.truncated,
        total_rows: result.total_rows,
    }
}

/// What a summary reports.
pub open spec fn report_of_summary(summary: QueryResultSummary) -> ReportView {
    ReportView {
        notices: summary.notices@,
        notice_capture: summary.notice_capture,
        rows_affected: summary.rows_affected,
        duration_ms: summary.duration_ms,
        truncated: summary.truncated,
        total_rows: summary.total_rows,
    }
}

pub fn copy_capture(capture: &NoticeCapture) -> (r: NoticeCapture)
    ensures
        r == *capture,
{
    match capture {
        NoticeCapture::Supported => NoticeCapture::Supported,
        NoticeCapture::Unsupported(why) => NoticeCapture::Unsupported(why.clone()),
    }
}

/// The grid of a result.
pub struct DataGrid {
    result: QueryResult,
    selection: Option<CellPosition>,
    selection_anchor: Option<CellPosition>,
    selecting_cells: bool,
    selected_rows: OrderedMap<usize, ()>,
    row_anchor: Option<usize>,
    editable: Option<EditableGrid>,
    active_editor: Option<ActiveEditor>,
    sort: Option<(usize, SortDirection)>,
    /// Columns whose width the user dragged or auto-fitted. They stop tracking
    /// content so a later page cannot undo a deliberate resize.
    widths_user_set: OrderedMap<usize, ()>,
    suppress_sort: bool,
    reloading: bool,
    edit_error: Option<String>,
    foreign_key_picker: Option<ForeignKeyPicker>,
    export_message: Option<Result<String, String>>,
    null_display: String,
    stripe_rows: bool,
}

/// The model of [`DataGrid`].
#[verifier::ext_equal]
pub struct DataGridView {
    pub columns: Seq<ColumnMeta>,
    pub rows: Seq<Seq<ValueView>>,
    pub report: ReportView,
    pub selection: Option<CellPosition>,
    pub selection_anchor: Option<CellPosition>,
    pub selecting_cells: bool,
    /// The selected rows, from the first down.
    pub selected_rows: Seq<usize>,
    pub row_anchor: Option<usize>,
    pub editable: Option<GridView>,
    pub editor: Option<ActiveEditor>,
    pub sort: Option<(usize, SortDirection)>,
    pub widths_user_set: Set<usize>,
    pub suppress_sort: bool,
    pub reloading: bool,
    pub edit_error: Option<Seq<char>>,
    pub picker: Option<PickerView>,
    pub export_message: Option<Result<Seq<char>, Seq<char>>>,
    pub null_display: Seq<char>,
    pub stripe_rows: bool,
}

pub open spec fn editable_view(editable: Option<EditableGrid>) -> Option<GridView> {
    match editable {
        Some(e) => Some(e@),
        None => None,
    }
}

pub open spec fn message_view(message: Option<Result<String, String>>) -> Option<
    Result<Seq<char>, Seq<char>>,
> {
    match message {
        Some(Ok(text)) => Some(Ok(text@)),
        Some(Err(text)) => Some(Err(text@)),
        None => None,
    }
}

impl View for DataGrid {
    type V = DataGridView;

    closed spec fn view(&self) -> DataGridView {
        DataGridView {
            columns: self.result.columns@,
            rows: row_values(self.result.rows@),
            report: report_of(self.result),
            selection: self.selection,
            selection_anchor: self.selection_anchor,
            selecting_cells: self.selecting_cells,
            selected_rows: self.selected_rows.keys(),
            row_anchor: self.row_anchor,
            editable: editable_view(self.editable),
            editor: self.active_editor,
            sort: self.sort,
            widths_user_set: self.widths_user_set.map().dom(),
            suppress_sort: self.suppress_sort,
            reloading: self.reloading,
            edit_error: opt_text(self.edit_error),
            picker: picker_view(self.foreign_key_picker),
            export_message: message_view(self.export_message),
            null_display: self.null_display@,
            stripe_rows: self.stripe_rows,
        }
    }
}

/// The grid of a result that nothing was done to.
pub open spec fn fresh(columns: Seq<ColumnMeta>, rows: Seq<Seq<ValueView>>, report: ReportView) -> DataGridView {
    DataGridView {
        columns,
        rows,
        report,
        selection: None,
        selection_anchor: None,
        selecting_cells: false,
        selected_rows: Seq::empty(),
        row_anchor: None,
        editable: None,
        editor: None,
        sort: None,
        widths_user_set: Set::empty(),
        suppress_sort: false,
        reloading: false,
        edit_error: None,
        picker: None,
        export_message: None,
        null_display: "NULL"@,
        stripe_rows: false,
    }
}

impl DataGridView {
    /// Every row that is known by a key is there.
    pub open spec fn coherent(self) -> bool {
        self.editable matches Some(e) ==> e.coherent() && e.row_keys.len() <= self.rows.len()
    }

    pub open spec fn has_cell(self, position: CellPosition) -> bool {
        position.row < self.rows.len() && position.column < self.rows[position.row as int].len()
    }

    /// Whether a cell that can be edited has a column.
    pub open spec fn has_column(self, position: CellPosition) -> bool {
        self.editable matches Some(e) && e.key_of(position.row as int) is Some && self.has_cell(
            position,
        ) ==> position.column < self.columns.len()
    }

    /// Whether the cell of the running editor, where it can be edited, has a
    /// column.
    pub open spec fn can_commit(self) -> bool {
        self.editor matches Some(editor) ==> self.has_column(editor.position)
    }

    /// The grid after a cell was given a value: edited, or with the error that
    /// says why not. Nothing is edited in a row that is not known by a key.
    pub open spec fn with_value(self, position: CellPosition, value: Option<Seq<char>>) -> DataGridView {
        match self.editable {
            None => self,
            Some(e) => if e.key_of(position.row as int) is None || !self.has_cell(position) {
                DataGridView { edit_error: None, ..self }
            } else {
                let data_type = self.columns[position.column as int].data_type@;
                let before = self.rows[position.row as int][position.column as int];
                let why = match value {
                    Some(text) => refusal(data_type, text, is_iso_date(text)),
                    None => None,
                };
                if why is Some {
                    DataGridView { edit_error: why, ..self }
                } else {
                    DataGridView {
                        editable: Some(e.edited(position.row as int, position.column, value, before)),
                        edit_error: None,
                        ..self
                    }
                }
            },
        }
    }

    /// The grid after the running editor was committed with this text.
    pub open spec fn committed(self, text: Seq<char>) -> DataGridView {
        match self.editor {
            None => self,
            Some(editor) => (DataGridView { editor: None, ..self }).with_value(
                editor.position,
                Some(text),
            ),
        }
    }

    /// Whether changes are pending.
    pub open spec fn has_pending(self) -> bool {
        self.editable matches Some(e) && exists|id: Seq<char>| #[trigger] e.pending.contains_key(id)
    }

    /// How many changes are pending.
    pub open spec fn change_count(self) -> nat {
        match self.editable {
            Some(e) => e.change_count(),
            None => 0,
        }
    }

    /// The grid without selected rows.
    pub open spec fn no_rows_selected(self) -> DataGridView {
        DataGridView { selected_rows: Seq::empty(), row_anchor: None, ..self }
    }

    /// The grid with one cell selected.
    pub open spec fn at_cell(self, position: CellPosition) -> DataGridView {
        DataGridView {
            selection: Some(position),
            selection_anchor: Some(position),
            selecting_cells: false,
            ..self
        }.no_rows_selected()
    }

    /// The grid without any selection.
    pub open spec fn nothing_selected(self) -> DataGridView {
        DataGridView {
            selection: None,
            selection_anchor: None,
            selecting_cells: false,
            ..self
        }.no_rows_selected()
    }

    pub open spec fn can_be_edited(self) -> bool {
        self.editable matches Some(e) && e.table.primary_key@.len() > 0
    }
}

impl DataGrid {
    pub closed spec fn wf(self) -> bool {
        &&& self.selected_rows.wf()
        &&& self.widths_user_set.wf()
        &&& self.editable matches Some(e) ==> e.wf()
        &&& self@.coherent()
    }

    /// The grid of a result.
    pub fn new(result: QueryResult) -> (r: Self)
        ensures
            r.wf(),
            r@ == fresh(result.columns@, row_values(result.rows@), report_of(result)),
    {
        let r = DataGrid {
            result,
            selection: None,
            selection_anchor: None,
            selecting_cells: false,
            selected_rows: OrderedMap::new(),
            row_anchor: None,
            editable: None,
            active_editor: None,
            sort: None,
            widths_user_set: OrderedMap::new(),
            suppress_sort: false,
            reloading: false,
            edit_error: None,
            foreign_key_picker: None,
            export_message: None,
            null_display: "NULL".to_owned(),
            stripe_rows: false,
        };
        assert(r@ =~= fresh(result.columns@, row_values(result.rows@), report_of(result)));
        r
    }

    /// The grid of the rows of a table.
    pub fn new_table(
        result: QueryResult,
        target: TableTarget,
        table: Table,
        sort: Option<(usize, SortDirection)>,
        source_engine: Engine,
    ) -> (r: Self)
        ensures
            r.wf(),
            r@.editable is Some,
            starts(r@.editable->0, target, table, result, source_engine),
            r@ == (DataGridView {
                editable: r@.editable,
                sort,
                ..fresh(result.columns@, row_values(result.rows@), report_of(result))
            }),
    {
        let editable = EditableGrid::new_with_source_engine(target, table, &result, source_engine);
        let mut r = DataGrid::new(result);
        proof {
            editable.lemma_pending_list();
        }
        r.editable = Some(editable);
        r.sort = sort;
        assert(r@ =~= (DataGridView {
            editable: r@.editable,
            sort,
            ..fresh(result.columns@, row_values(result.rows@), report_of(result))
        }));
        r
    }

    /// The grid of the first page of a query that is still running.
    pub fn from_page(page: QueryResultPage) -> (r: Self)
        ensures
            r.wf(),
            r@.report.notice_capture matches NoticeCapture::Unsupported(why) && why@
                == "query is still running"@,
            r@ == fresh(
                page.columns@,
                row_values(page.rows@),
                ReportView {
                    notices: Seq::empty(),
                    notice_capture: r@.report.notice_capture,
                    rows_affected: None,
                    duration_ms: 0,
                    truncated: false,
                    total_rows: None,
                },
            ),
    {
        let r = DataGrid::new(
            QueryResult {
                columns: page.columns,
                rows: page.rows,
                notices: Vec::new(),
                notice_capture: NoticeCapture::Unsupported("query is still running".to_owned()),
                rows_affected: None,
                duration_ms: 0,
                truncated: false,
                total_rows: None,
            },
        );
        assert(r@.report.notices =~= Seq::<String>::empty());
        r
    }
}

// ---------------------------------------------------------------------
// Pages
// ---------------------------------------------------------------------
/// Why a page does not continue the rows, where it does not.
pub open spec fn page_refusal(v: DataGridView, page: QueryResultPage) -> Option<Seq<char>> {
    if page.offset != v.rows.len() {
        Some(
            "query page arrived out of order: expected "@ + nat_text(v.rows.len()) + ", got "@
                + nat_text(page.offset as nat),
        )
    } else if v.columns.len() > 0 && !same_columns(v.columns, page.columns@) {
        Some("query columns changed between result pages"@)
    } else {
        None
    }
}

impl DataGridView {
    /// The grid with the rows of one more page.
    pub open spec fn with_page(self, page: QueryResultPage) -> DataGridView {
        DataGridView {
            columns: if self.columns.len() == 0 {
                page.columns@
            } else {
                self.columns
            },
            rows: self.rows + row_values(page.rows@),
            ..self
        }
    }
}

impl DataGrid {
    /// Adds the rows of the next page. A page that does not continue the rows is
    /// refused and changes nothing.
    pub fn append_page(&mut self, page: QueryResultPage) -> (r: Result<(), String>)
        requires
            old(self).wf(),
        ensures
            final(self).wf(),
            r matches Err(why) ==> page_refusal(old(self)@, page) == Some(why@),
            r is Ok ==> page_refusal(old(self)@, page) is None,
            final(self)@ == (if r is Ok {
                old(self)@.with_page(page)
            } else {
                old(self)@
            }),
    {
        if page.offset != self.result.rows.len() as u64 {
            let mut message = "query page arrived out of order: expected ".to_owned();
            push_u64(&mut message, self.result.rows.len() as u64);
            message.append(", got ");
            push_u64(&mut message, page.offset);
            return Err(message);
        }
        let ghost was = self@;
        let ghost added = page.rows@;
        if self.result.columns.len() == 0 {
            self.result.columns = page.columns;
        } else if !columns_equal(self.result.columns.as_slice(), page.columns.as_slice()) {
            return Err("query columns changed between result pages".to_owned());
        }
        let mut rows = page.rows;
        self.result.rows.append(&mut rows);
        proof {
            assert(self@.rows =~= was.rows + row_values(added));
            assert(self@ =~= was.with_page(page));
        }
        Ok(())
    }

    /// Takes over what the query reported when it was done.
    pub fn complete(&mut self, summary: &QueryResultSummary)
        requires
            old(self).wf(),
        ensures
            final(self).wf(),
            final(self)@ == (DataGridView {
                report: report_of_summary(*summary),
                ..old(self)@
            }),
    {
        let ghost was = self@;
        self.result.notices = copy_texts(summary.notices.as_slice());
        self.result.notice_capture = copy_capture(&summary.notice_capture);
        self.result.rows_affected = summary.rows_affected;
        self.result.duration_ms = summary.duration_ms;
        self.result.truncated = summary.truncated;
        self.result.total_rows = summary.total_rows;
        assert(self@ =~= (DataGridView { report: report_of_summary(*summary), ..was }));
    }

    pub fn set_display_preferences(&mut self, null_display: String, stripe_rows: bool)
        requires
            old(self).wf(),
        ensures
            final(self).wf(),
            final(self)@ == (DataGridView {
                null_display: null_display@,
                stripe_rows,
                ..old(self)@
            }),
    {
        let ghost was = self@;
        self.null_display = null_display;
        self.stripe_rows = stripe_rows;
        assert(self@ =~= (DataGridView { null_display: null_display@, stripe_rows, ..was }));
    }
}

// ---------------------------------------------------------------------
// The editor
// ---------------------------------------------------------------------
impl DataGrid {
    fn clear_row_selection(&mut self)
        requires
            old(self).wf(),
        ensures
            final(self).wf(),
            final(self)@ == old(self)@.no_rows_selected(),
            final(self).result == old(self).result,
            final(self).editable == old(self).editable,
    {
        let ghost was = self@;
        self.selected_rows = OrderedMap::new();
        self.row_anchor = None;
        assert(self@ =~= was.no_rows_selected());
    }

    /// Gives a cell a value, or notes why it cannot have it.
    fn put_value(&mut self, position: CellPosition, value: Option<String>)
        requires
            old(self).wf(),
            value is Some ==> old(self)@.has_column(position),
        ensures
            final(self).wf(),
            final(self)@ == old(self)@.with_value(position, opt_text(value)),
            final(self).result == old(self).result,
    {
        let ghost was = self@;
        let ghost text = opt_text(value);
        if let Some(editable) = &mut self.editable {
            let outcome = editable.set_value(position.row, position.column, value, &self.result);
            self.edit_error = match outcome {
                Ok(()) => None,
                Err(why) => Some(why),
            };
        }
        proof {
            if self.editable is Some {
                self.editable->0.lemma_pending_list();
            }
            assert(self@ =~= was.with_value(position, text));
        }
    }

    /// Ends the running editor and gives its cell the text.
    pub fn commit_editor(&mut self, text: String)
        requires
            old(self).wf(),
            old(self)@.can_commit(),
        ensures
            final(self).wf(),
            final(self)@ == old(self)@.committed(text@),
    {
        let ghost was = self@;
        if let Some(editor) = self.active_editor {
            self.active_editor = None;
            assert(self@ =~= (DataGridView { editor: None, ..was }));
            self.put_value(editor.position, Some(text));
        }
    }

    /// Ends the running editor without a change.
    pub fn cancel_editor(&mut self)
        requires
            old(self).wf(),
        ensures
            final(self).wf(),
            final(self)@ == (DataGridView { editor: None, ..old(self)@ }),
    {
        let ghost was = self@;
        self.active_editor = None;
        assert(self@ =~= (DataGridView { editor: None, ..was }));
    }
}

// ---------------------------------------------------------------------
// Reverting and reloading
// ---------------------------------------------------------------------
/// The rows among the first `n` that are not inserted.
pub open spec fn kept_rows<T>(e: GridView, rows: Seq<T>, n: nat) -> Seq<T>
    decreases n,
{
    if n == 0 {
        Seq::empty()
    } else if e.is_inserted(n - 1) {
        kept_rows(e, rows, (n - 1) as nat)
    } else {
        kept_rows(e, rows, (n - 1) as nat).push(rows[n - 1])
    }
}

proof fn lemma_kept_values(e: GridView, rows: Seq<Row>, n: nat)
    requires
        n <= rows.len(),
    ensures
        row_values(kept_rows(e, rows, n)) == kept_rows(e, row_values(rows), n),
    decreases n,
{
    if n > 0 {
        lemma_kept_values(e, rows, (n - 1) as nat);
    }
    assert(row_values(kept_rows(e, rows, n)) =~= kept_rows(e, row_values(rows), n));
}

/// As many rows stay as keys, and the rows without a key stay too.
proof fn lemma_kept_count<T>(e: GridView, rows: Seq<T>, n: nat)
    ensures
        kept_rows(e, rows, n).len() >= kept_keys(
            e,
            if n <= e.row_keys.len() {
                n
            } else {
                e.row_keys.len()
            },
        ).len(),
    decreases n,
{
    if n > 0 {
        lemma_kept_count(e, rows, (n - 1) as nat);
    }
}

/// A row without a key is not inserted.
proof fn lemma_inserted_have_keys(e: GridView, n: nat)
    requires
        n >= e.row_keys.len(),
    ensures
        inserted_among(e, n) == inserted_among(e, e.row_keys.len()),
    decreases n,
{
    if n > e.row_keys.len() {
        lemma_inserted_have_keys(e, (n - 1) as nat);
    }
}

/// Takes the inserted rows out, the last one first.
fn drop_inserted(rows: &mut Vec<Row>, inserted: &[usize], Ghost(e): Ghost<GridView>)
    requires
        e.row_keys.len() <= old(rows)@.len(),
        inserted@ == inserted_among(e, e.row_keys.len()),
    ensures
        final(rows)@ == kept_rows(e, old(rows)@, old(rows)@.len()),
{
    let ghost all = rows@;
    let ghost mut tail: Seq<Row> = Seq::empty();
    let mut i: usize = rows.len();
    let mut k: usize = inserted.len();
    proof {
        lemma_inserted_have_keys(e, all.len());
        assert(rows@ =~= all.take(i as int) + tail);
        assert(inserted@.take(k as int) =~= inserted@);
        assert(kept_rows(e, all, all.len()) =~= kept_rows(e, all, i as nat) + tail);
    }
    while i > 0
        invariant
            i <= all.len(),
            k <= inserted@.len(),
            inserted@.take(k as int) == inserted_among(e, i as nat),
            rows@ == all.take(i as int) + tail,
            kept_rows(e, all, all.len()) == kept_rows(e, all, i as nat) + tail,
        decreases i,
    {
        i -= 1;
        let ghost upto = inserted_among(e, (i + 1) as nat);
        proof {
            assert(upto == inserted@.take(k as int));
            lemma_inserted_below(e, i as nat);
        }
        if k > 0 && inserted[k - 1] == i {
            proof {
                assert(upto.last() == i);
                if !e.is_inserted(i as int) {
                    assert(inserted_among(e, i as nat).last() == i);
                }
            }
            k -= 1;
            rows.remove(i);
            proof {
                assert(inserted@.take(k as int) =~= upto.drop_last());
                assert(rows@ =~= all.take(i as int) + tail);
            }
        } else {
            proof {
                if e.is_inserted(i as int) {
                    assert(upto.last() == i);
                    assert(inserted@.take(k as int).last() == inserted@[k - 1]);
                }
                let longer = seq![all[i as int]] + tail;
                assert(rows@ =~= all.take(i as int) + longer);
                assert(kept_rows(e, all, (i + 1) as nat) + tail =~= kept_rows(e, all, i as nat)
                    + longer);
                tail = longer;
            }
        }
    }
    assert(rows@ =~= tail);
    assert(kept_rows(e, all, 0) + tail =~= tail);
}

proof fn lemma_inserted_below(e: GridView, n: nat)
    requires
        n <= usize::MAX,
    ensures
        forall|i: int| 0 <= i < inserted_among(e, n).len() ==> #[trigger] inserted_among(e, n)[i] < n,
    decreases n,
{
    if n > 0 {
        lemma_inserted_below(e, (n - 1) as nat);
        let list = inserted_among(e, n);
        let shorter = inserted_among(e, (n - 1) as nat);
        assert forall|i: int| 0 <= i < list.len() implies #[trigger] list[i] < n by {
            if i < shorter.len() {
                assert(list[i] == shorter[i]);
            }
        }
    }
}

impl DataGridView {
    /// The grid without its pending changes.
    pub open spec fn reverted(self) -> DataGridView {
        let plain = DataGridView { editor: None, edit_error: None, ..self };
        match self.editable {
            None => plain,
            Some(e) => {
                let cleared = DataGridView {
                    editable: Some(e.cleared()),
                    rows: kept_rows(e, self.rows, self.rows.len()),
                    ..plain
                };
                if inserted_among(e, e.row_keys.len()).len() > 0 {
                    cleared.nothing_selected()
                } else {
                    cleared
                }
            },
        }
    }

    /// The grid after it was asked whether its rows may be read anew.
    pub open spec fn prepared(self, text: Seq<char>) -> DataGridView {
        let after = self.committed(text);
        let refused = after.edit_error is Some || after.has_pending();
        DataGridView {
            edit_error: if after.has_pending() && after.edit_error is None {
                Some("Commit or revert pending edits before reloading data"@)
            } else {
                after.edit_error
            },
            reloading: !refused,
            ..after
        }
    }
}

impl DataGrid {
    /// Drops the pending changes and the rows that were inserted. Does nothing
    /// while the rows are read anew.
    pub fn clear_pending(&mut self)
        requires
            old(self).wf(),
        ensures
            final(self).wf(),
            final(self)@ == (if old(self)@.reloading {
                old(self)@
            } else {
                old(self)@.reverted()
            }),
    {
        if self.reloading {
            return;
        }
        let ghost was = self@;
        self.active_editor = None;
        self.edit_error = None;
        if let Some(editable) = &mut self.editable {
            let ghost e = editable@;
            let inserted = editable.clear();
            proof {
                editable.lemma_pending_list();
                lemma_kept_values(e, self.result.rows@, self.result.rows@.len());
                lemma_kept_count(e, was.rows, was.rows.len());
            }
            drop_inserted(&mut self.result.rows, inserted.as_slice(), Ghost(e));
            if inserted.len() > 0 {
                self.selection = None;
                self.selection_anchor = None;
                self.selecting_cells = false;
                self.clear_row_selection();
            }
        }
        assert(self@ =~= was.reverted());
    }

    /// Whether the rows may be read anew: with changes pending or an edit that
    /// was refused, they may not. From then on the grid takes no changes, so
    /// none is lost when the new rows come.
    pub fn prepare_for_reload(&mut self, text: String) -> (r: bool)
        requires
            old(self).wf(),
            old(self)@.can_commit(),
        ensures
            final(self).wf(),
            final(self)@ == old(self)@.prepared(text@),
            r == final(self)@.reloading,
    {
        let ghost was = self@;
        let ghost typed = text@;
        self.commit_editor(text);
        let pending = self.pending_count() > 0;
        if pending && self.edit_error.is_none() {
            self.edit_error = Some(
                "Commit or revert pending edits before reloading data".to_owned(),
            );
        }
        let allowed = !pending && self.edit_error.is_none();
        self.reloading = allowed;
        assert(self@ =~= was.prepared(typed));
        allowed
    }

    /// The number of pending changes.
    pub fn pending_count(&self) -> (r: usize)
        requires
            self.wf(),
        ensures
            r == (if self@.change_count() <= usize::MAX {
                self@.change_count() as int
            } else {
                usize::MAX as int
            }),
            (r > 0) == self@.has_pending(),
    {
        proof {
            self.lemma_pending_list();
            let list = self.pending_list();
            if list.len() > 0 {
                assert(self@.editable->0.pending.contains_key(list[0].0));
            }
        }
        match &self.editable {
            Some(editable) => editable.pending_count(),
            None => 0,
        }
    }

    /// The pending changes in the order of their row ids.
    pub closed spec fn pending_list(self) -> Seq<(Seq<char>, PendingView)> {
        match self.editable {
            Some(e) => e.pending_list(),
            None => Seq::empty(),
        }
    }

    /// [`DataGrid::pending_list`] goes up by id and holds what is pending.
    pub proof fn lemma_pending_list(self)
        requires
            self.wf(),
        ensures
            self@.coherent(),
            self@.editable is None ==> self.pending_list().len() == 0,
            forall|i: int, j: int|
                0 <= i < j < self.pending_list().len() ==> text_before(
                    (#[trigger] self.pending_list()[i]).0,
                    (#[trigger] self.pending_list()[j]).0,
                ),
            forall|i: int|
                0 <= i < self.pending_list().len() ==> {
                    let entry = #[trigger] self.pending_list()[i];
                    let pending = self@.editable->0.pending;
                    pending.contains_key(entry.0) && pending[entry.0] == entry.1
                },
            self@.editable matches Some(e) ==> forall|id: Seq<char>| #[trigger]
                e.pending.contains_key(id) ==> exists|i: int|
                    0 <= i < self.pending_list().len() && (#[trigger] self.pending_list()[i]).0
                        == id,
    {
        if self.editable is Some {
            self.editable->0.lemma_pending_list();
        }
    }
}

// ---------------------------------------------------------------------
// Editing cells
// ---------------------------------------------------------------------
/// The text that editing a cell starts from: its pending text, or else that of
/// its value; empty where the grid has no such cell.
pub open spec fn start_text(v: DataGridView, position: CellPosition) -> Seq<char> {
    let pending = match v.editable {
        Some(e) => e.displayed(position.row as int, position.column),
        None => None,
    };
    match pending {
        Some(Some(text)) => text,
        _ => if v.has_cell(position) {
            plain_text(v.rows[position.row as int][position.column as int])
        } else {
            Seq::empty()
        },
    }
}

/// Whether a type is that of truth values.
pub open spec fn is_bool_type(data_type: Seq<char>) -> bool {
    lower(data_type) == "bool"@ || lower(data_type) == "boolean"@
}

/// The pending truth value of a cell.
pub open spec fn pending_bool(v: DataGridView, position: CellPosition) -> Option<bool> {
    match v.editable {
        Some(e) => match e.displayed(position.row as int, position.column) {
            Some(Some(text)) => bool_of(text),
            _ => None,
        },
        None => None,
    }
}

/// The truth value of a cell: false where it is none.
pub open spec fn current_bool(v: DataGridView, position: CellPosition) -> bool {
    match pending_bool(v, position) {
        Some(b) => b,
        None => match v.rows[position.row as int][position.column as int] {
            ValueView::Bool(b) => b,
            _ => false,
        },
    }
}

/// A row of NULLs.
pub open spec fn null_row(n: nat) -> Seq<ValueView> {
    Seq::new(n, |i: int| ValueView::Null)
}

fn nulls(n: usize) -> (r: Row)
    ensures
        values(r@) == null_row(n as nat),
{
    let mut row: Vec<CellValue> = Vec::new();
    while row.len() < n
        invariant
            row@.len() <= n,
            forall|i: int| 0 <= i < row@.len() ==> (#[trigger] row@[i])@ == ValueView::Null,
        decreases n - row@.len(),
    {
        row.push(CellValue::Null);
    }
    assert(values(row@) =~= null_row(n as nat));
    row
}

impl DataGridView {
    /// The grid in which a cell is edited, once the running editor is done.
    pub open spec fn editing(self, position: CellPosition, text: Seq<char>) -> DataGridView {
        if self.reloading || !self.can_be_edited() {
            self
        } else {
            DataGridView {
                editor: Some(ActiveEditor { position, date: None }),
                ..self.committed(text).at_cell(position)
            }
        }
    }

    /// The grid with a row of NULLs at the end.
    pub open spec fn with_new_row(self) -> DataGridView {
        DataGridView {
            rows: self.rows.push(null_row(self.columns.len())),
            editable: match self.editable {
                Some(e) => Some(
                    if e.row_keys.len() == self.rows.len() {
                        e.with_new_row()
                    } else {
                        e
                    },
                ),
                None => None,
            },
            ..self
        }
    }

    /// The grid after the selected cell was set to NULL.
    pub open spec fn with_selected_null(self, text: Seq<char>) -> DataGridView {
        let after = self.committed(text);
        match after.selection {
            None => after,
            Some(position) => after.no_rows_selected().with_value(position, None),
        }
    }

    /// Whether the truth value of the selected cell can be told: the grid has
    /// its column, and the cell too, unless a truth value is pending for it.
    pub open spec fn can_toggle(self, text: Seq<char>) -> bool {
        self.selection matches Some(position) ==> {
            &&& position.column < self.columns.len()
            &&& is_bool_type(self.columns[position.column as int].data_type@) && pending_bool(
                self.committed(text),
                position,
            ) is None ==> self.has_cell(position)
        }
    }

    /// The grid after the truth value of the selected cell was inverted.
    pub open spec fn with_selected_toggled(self, text: Seq<char>) -> DataGridView {
        let after = self.committed(text);
        match after.selection {
            None => after,
            Some(position) => if !is_bool_type(after.columns[position.column as int].data_type@) {
                DataGridView {
                    edit_error: Some("Select a boolean column first"@),
                    ..after.no_rows_selected()
                }
            } else {
                after.no_rows_selected().with_value(
                    position,
                    Some(bool_text(!current_bool(after, position))),
                )
            },
        }
    }
}

impl DataGrid {
    fn is_bool_column(&self, column: usize) -> (r: bool)
        requires
            column < self@.columns.len(),
        ensures
            r == is_bool_type(self@.columns[column as int].data_type@),
    {
        let kind = to_lower(self.result.columns[column].data_type.as_str());
        chars_are(kind.as_slice(), "bool") || chars_are(kind.as_slice(), "boolean")
    }

    fn displayed_text(&self, position: CellPosition) -> (r: Option<String>)
        requires
            self.wf(),
        ensures
            match self@.editable {
                Some(e) => match e.displayed(position.row as int, position.column) {
                    Some(Some(text)) => opt_text(r) == Some(text),
                    _ => r is None,
                },
                None => r is None,
            },
    {
        match &self.editable {
            Some(editable) => match editable.display_value(position.row, position.column) {
                Some(text) => text,
                None => None,
            },
            None => None,
        }
    }

    fn value_at(&self, position: CellPosition) -> (r: Option<&CellValue>)
        ensures
            r is Some == self@.has_cell(position),
            r matches Some(value) ==> value@
                == self@.rows[position.row as int][position.column as int],
    {
        if position.row < self.result.rows.len() && position.column
            < self.result.rows[position.row].len() {
            Some(&self.result.rows[position.row][position.column])
        } else {
            None
        }
    }

    /// Shows a cell and selects it.
    pub fn scroll_to_cell(&mut self, row: usize, column: usize)
        requires
            old(self).wf(),
        ensures
            final(self).wf(),
            final(self)@ == old(self)@.at_cell(CellPosition { row, column }),
    {
        self.select_cell(CellPosition { row, column });
    }

    fn select_cell(&mut self, position: CellPosition)
        requires
            old(self).wf(),
        ensures
            final(self).wf(),
            final(self)@ == old(self)@.at_cell(position),
            final(self).result == old(self).result,
            final(self).editable == old(self).editable,
    {
        let ghost was = self@;
        self.selection = Some(position);
        self.selection_anchor = Some(position);
        self.selecting_cells = false;
        self.clear_row_selection();
        assert(self@ =~= was.at_cell(position));
    }

    /// Starts to edit a cell and returns the text that the editor shows. The
    /// running editor is committed with `text` first. Nothing is edited while
    /// the rows are read anew, nor in a table without a primary key.
    pub fn begin_edit(&mut self, position: CellPosition, text: String) -> (r: Option<String>)
        requires
            old(self).wf(),
            old(self)@.can_commit(),
        ensures
            final(self).wf(),
            r is Some == (!old(self)@.reloading && old(self)@.can_be_edited()),
            r matches Some(start) ==> start@ == start_text(old(self)@.committed(text@), position),
            final(self)@ == old(self)@.editing(position, text@),
    {
        if self.reloading || !self.can_edit() {
            return None;
        }
        let ghost was = self@;
        let ghost typed = text@;
        self.commit_editor(text);
        let start = match self.displayed_text(position) {
            Some(text) => text,
            None => match self.value_at(position) {
                Some(value) => cell_edit_text(value),
                None => String::new(),
            },
        };
        assert(start@ =~= start_text(was.committed(typed), position));
        self.select_cell(position);
        self.active_editor = Some(ActiveEditor { position, date: None });
        assert(self@ =~= was.editing(position, typed));
        Some(start)
    }

    /// Gives the running editor a calendar.
    pub fn show_calendar(&mut self, date: DateEditor)
        requires
            old(self).wf(),
        ensures
            final(self).wf(),
            final(self)@ == (DataGridView {
                editor: match old(self)@.editor {
                    Some(editor) => Some(ActiveEditor { date: Some(date), ..editor }),
                    None => None,
                },
                ..old(self)@
            }),
    {
        let ghost was = self@;
        if let Some(editor) = self.active_editor {
            self.active_editor = Some(
                ActiveEditor { position: editor.position, date: Some(date) },
            );
        }
        assert(self@ =~= (DataGridView { editor: self@.editor, ..was }));
    }

    /// Turns the calendar of the running editor to another month, given by its
    /// first day.
    pub fn shift_editor_month(&mut self, month: CalendarDate)
        requires
            old(self).wf(),
        ensures
            final(self).wf(),
            final(self)@ == (DataGridView {
                editor: match old(self)@.editor {
                    Some(editor) => match editor.date {
                        Some(date) => Some(
                            ActiveEditor { date: Some(DateEditor { month, ..date }), ..editor },
                        ),
                        None => Some(editor),
                    },
                    None => None,
                },
                ..old(self)@
            }),
    {
        let ghost was = self@;
        if let Some(editor) = self.active_editor {
            if let Some(date) = editor.date {
                self.active_editor = Some(
                    ActiveEditor {
                        position: editor.position,
                        date: Some(DateEditor { selected: date.selected, month }),
                    },
                );
            }
        }
        assert(self@ =~= (DataGridView { editor: self@.editor, ..was }));
    }

    /// Chooses a day in the calendar, which then shows its month.
    pub fn select_editor_date(&mut self, date: CalendarDate)
        requires
            old(self).wf(),
        ensures
            final(self).wf(),
            final(self)@ == (DataGridView {
                editor: match old(self)@.editor {
                    Some(editor) => match editor.date {
                        Some(_) => Some(
                            ActiveEditor {
                                date: Some(
                                    DateEditor {
                                        selected: Some(date),
                                        month: CalendarDate { day: 1, ..date },
                                    },
                                ),
                                ..editor
                            },
                        ),
                        None => Some(editor),
                    },
                    None => None,
                },
                ..old(self)@
            }),
    {
        let ghost was = self@;
        if let Some(editor) = self.active_editor {
            if editor.date.is_some() {
                self.active_editor = Some(
                    ActiveEditor {
                        position: editor.position,
                        date: Some(
                            DateEditor {
                                selected: Some(date),
                                month: CalendarDate {
                                    year: date.year,
                                    month: date.month,
                                    day: 1,
                                },
                            },
                        ),
                    },
                );
            }
        }
        assert(self@ =~= (DataGridView { editor: self@.editor, ..was }));
    }

    /// Ends the calendar with the text of what was chosen. An editor without a
    /// calendar is committed with `text`.
    pub fn apply_date_editor(&mut self, text: String, value: Option<String>)
        requires
            old(self).wf(),
            old(self)@.can_commit(),
        ensures
            final(self).wf(),
            final(self)@ == (match old(self)@.editor {
                None => old(self)@,
                Some(editor) => match editor.date {
                    None => old(self)@.committed(text@),
                    Some(_) => (DataGridView { editor: None, ..old(self)@ }).with_value(
                        editor.position,
                        opt_text(value),
                    ),
                },
            }),
    {
        let ghost was = self@;
        match self.active_editor {
            None => {},
            Some(editor) => {
                if editor.date.is_none() {
                    self.commit_editor(text);
                } else {
                    self.cancel_editor();
                    self.put_value(editor.position, value);
                }
            },
        }
    }

    /// Sets the selected cell to NULL.
    pub fn set_selected_null(&mut self, text: String)
        requires
            old(self).wf(),
            old(self)@.can_commit(),
        ensures
            final(self).wf(),
            final(self)@ == (if old(self)@.reloading {
                old(self)@
            } else {
                old(self)@.with_selected_null(text@)
            }),
    {
        if self.reloading {
            return;
        }
        self.commit_editor(text);
        if let Some(position) = self.selection {
            self.clear_row_selection();
            self.put_value(position, None);
        }
    }

    /// Inverts the truth value of the selected cell.
    pub fn toggle_selected_bool(&mut self, text: String)
        requires
            old(self).wf(),
            old(self)@.can_commit(),
            !old(self)@.reloading ==> old(self)@.can_toggle(text@),
        ensures
            final(self).wf(),
            final(self)@ == (if old(self)@.reloading {
                old(self)@
            } else {
                old(self)@.with_selected_toggled(text@)
            }),
    {
        if self.reloading {
            return;
        }
        let ghost was = self@;
        let ghost typed = text@;
        self.commit_editor(text);
        let ghost after = self@;
        let position = match self.selection {
            Some(position) => position,
            None => return,
        };
        self.clear_row_selection();
        if !self.is_bool_column(position.column) {
            self.edit_error = Some("Select a boolean column first".to_owned());
            assert(self@ =~= was.with_selected_toggled(typed));
            return;
        }
        let pending = match self.displayed_text(position) {
            Some(text) => parse_bool(text.as_str()),
            None => None,
        };
        assert(pending == pending_bool(after, position));
        let current = match pending {
            Some(value) => value,
            None => match self.value_at(position) {
                Some(CellValue::Bool(value)) => *value,
                _ => false,
            },
        };
        assert(current == current_bool(after, position));
        self.put_value(position, Some(bool_to_text(!current)));
        assert(self@ =~= was.with_selected_toggled(typed));
    }

    /// Adds a row of NULLs and starts to edit it.
    pub fn add_row(&mut self, text: String) -> (r: Option<String>)
        requires
            old(self).wf(),
            old(self)@.can_commit(),
            old(self)@.editable matches Some(e) ==> e.next_insert < u64::MAX,
        ensures
            final(self).wf(),
            final(self)@ == (if old(self)@.reloading || old(self)@.editable is None {
                old(self)@
            } else {
                old(self)@.with_new_row().editing(
                    CellPosition { row: old(self)@.rows.len() as usize, column: 0 },
                    text@,
                )
            }),
            r is Some == (!old(self)@.reloading && old(self)@.can_be_edited()),
            r matches Some(start) ==> start@ == start_text(
                old(self)@.with_new_row().committed(text@),
                CellPosition { row: old(self)@.rows.len() as usize, column: 0 },
            ),
    {
        if self.reloading {
            return None;
        }
        let ghost was = self@;
        let row: usize = self.result.rows.len();
        let columns: usize = self.result.columns.len();
        if let Some(editable) = &mut self.editable {
            editable.insert_row(row);
        } else {
            return None;
        }
        self.result.rows.push(nulls(columns));
        proof {
            self.editable->0.lemma_pending_list();
            assert(self@.rows =~= was.rows.push(null_row(columns as nat)));
            assert(self@ =~= was.with_new_row());
        }
        self.begin_edit(CellPosition { row, column: 0 }, text)
    }

    pub fn can_edit(&self) -> (r: bool)
        ensures
            r == self@.can_be_edited(),
    {
        match &self.editable {
            Some(editable) => editable.can_edit(),
            None => false,
        }
    }

    /// Gives a cell a value. Does nothing while the rows are read anew.
    pub fn set_cell_value(&mut self, row: usize, column: usize, value: Option<String>)
        requires
            old(self).wf(),
            value is Some && !old(self)@.reloading ==> old(self)@.has_column(
                CellPosition { row, column },
            ),
        ensures
            final(self).wf(),
            final(self)@ == (if old(self)@.reloading {
                old(self)@
            } else {
                old(self)@.with_value(CellPosition { row, column }, opt_text(value))
            }),
    {
        if !self.reloading {
            self.put_value(CellPosition { row, column }, value);
        }
    }

    /// Gives a cell a new random UUID.
    pub fn generate_guid(&mut self, row: usize, column: usize)
        requires
            old(self).wf(),
            !old(self)@.reloading ==> old(self)@.has_column(CellPosition { row, column }),
        ensures
            final(self).wf(),
            old(self)@.reloading ==> final(self)@ == old(self)@,
            !old(self)@.reloading ==> exists|id: u128| is_version_4(id) && final(self)@ == old(
                self,
            )@.with_value(CellPosition { row, column }, Some(#[trigger] uuid_text(id))),
    {
        let id: u128 = random_uuid();
        self.set_cell_value(row, column, Some(format_uuid(id)));
    }
}

/// Whether the bits of a UUID say that it is random.
pub open spec fn is_version_4(id: u128) -> bool {
    &&& (id / 0x1000_0000_0000_0000_0000u128) % 16 == 4
    &&& (id / 0x4000_0000_0000_0000u128) % 4 == 2
}

// ---------------------------------------------------------------------
// What the host is asked for
// ---------------------------------------------------------------------
/// Whether the host is asked to review the pending changes of a grid.
pub open spec fn asks_for_review(
    event: DataGridEvent,
    v: DataGridView,
    list: Seq<(Seq<char>, PendingView)>,
) -> bool {
    event matches DataGridEvent::ReviewChanges { connection_id, request } && connection_id@
        == v.editable->0.target.connection_id@ && requests(
        request,
        v.editable->0,
        list,
        v.columns,
    )
}

/// Whether the host is asked to sort by a column.
pub open spec fn asks_for_sort(
    event: DataGridEvent,
    name: Seq<char>,
    wanted: Option<SortDirection>,
) -> bool {
    event matches DataGridEvent::SortColumn { column, direction } && column@ == name && direction
        == wanted
}

/// Whether the host is asked to follow a foreign key.
pub open spec fn asks_for_navigation(
    event: DataGridEvent,
    from: TableTarget,
    to: (LookupRequestView, Seq<char>),
) -> bool {
    event matches DataGridEvent::NavigateForeignKey { source, lookup, focus_column } && source
        == from && lookup@ == to.0 && focus_column@ == to.1
}

impl DataGridView {
    /// The grid after a click on the header of a column.
    pub open spec fn with_sort_clicked(self, column: usize, text: Seq<char>) -> DataGridView {
        if self.suppress_sort {
            DataGridView { suppress_sort: false, ..self }
        } else if self.editable is None {
            self
        } else {
            let ready = self.prepared(text);
            if ready.reloading {
                DataGridView { sort: sort_after(self.sort, column), ..ready }
            } else {
                ready
            }
        }
    }

    /// Whether a click on the header of a column sorts.
    pub open spec fn sorts(self, text: Seq<char>) -> bool {
        !self.suppress_sort && self.editable is Some && self.prepared(text).reloading
    }

    /// Whether a column can be moved: the grid has both places, and so has every
    /// row.
    pub open spec fn can_move(self, source: usize, target: usize) -> bool {
        source != target && source < self.columns.len() && target < self.columns.len()
            ==> forall|i: int|
            0 <= i < self.rows.len() ==> source < (#[trigger] self.rows[i]).len() && target
                < self.rows[i].len()
    }

    /// The grid after the column at `source` was moved to `target`: the rows,
    /// the edits, the selection and the sort follow.
    pub open spec fn with_column_moved(self, source: usize, target: usize) -> DataGridView {
        DataGridView {
            columns: moved_item(self.columns, source as int, target as int),
            rows: self.rows.map_values(
                |row: Seq<ValueView>| moved_item(row, source as int, target as int),
            ),
            widths_user_set: moved_set(self.widths_user_set, source as int, target as int),
            editable: match self.editable {
                Some(e) => Some(e.with_moved_column(source, target)),
                None => None,
            },
            selection: moved_position(self.selection, source, target),
            selection_anchor: moved_position(self.selection_anchor, source, target),
            sort: match self.sort {
                Some((column, direction)) => Some(
                    (moved(column as int, source as int, target as int) as usize, direction),
                ),
                None => None,
            },
            suppress_sort: true,
            ..self
        }
    }
}

/// A position after a column was moved.
pub open spec fn moved_position(
    position: Option<CellPosition>,
    source: usize,
    target: usize,
) -> Option<CellPosition> {
    match position {
        Some(p) => Some(
            CellPosition {
                row: p.row,
                column: moved(p.column as int, source as int, target as int) as usize,
            },
        ),
        None => None,
    }
}

fn move_position(position: Option<CellPosition>, source: usize, target: usize) -> (r: Option<
    CellPosition,
>)
    ensures
        r == moved_position(position, source, target),
{
    match position {
        Some(p) => Some(
            CellPosition { row: p.row, column: moved_index(p.column, source, target) },
        ),
        None => None,
    }
}

fn move_cells(rows: &mut Vec<Row>, source: usize, target: usize)
    requires
        forall|i: int|
            0 <= i < old(rows)@.len() ==> source < (#[trigger] old(rows)@[i])@.len() && target
                < old(rows)@[i]@.len(),
    ensures
        row_values(final(rows)@) == row_values(old(rows)@).map_values(
            |row: Seq<ValueView>| moved_item(row, source as int, target as int),
        ),
{
    let ghost all = rows@;
    let mut i: usize = 0;
    while i < rows.len()
        invariant
            i <= rows@.len(),
            rows@.len() == all.len(),
            forall|k: int|
                0 <= k < all.len() ==> source < (#[trigger] all[k])@.len() && target
                    < all[k]@.len(),
            forall|k: int| i <= k < rows@.len() ==> #[trigger] rows@[k] == all[k],
            forall|k: int|
                0 <= k < i ==> (#[trigger] rows@[k])@ == moved_item(
                    all[k]@,
                    source as int,
                    target as int,
                ),
        decreases rows@.len() - i,
    {
        let mut row: Row = Vec::new();
        std::mem::swap(&mut row, &mut rows[i]);
        move_item(&mut row, source, target);
        std::mem::swap(&mut row, &mut rows[i]);
        i += 1;
    }
    proof {
        let want = row_values(all).map_values(
            |row: Seq<ValueView>| moved_item(row, source as int, target as int),
        );
        assert forall|k: int| 0 <= k < all.len() implies #[trigger] row_values(rows@)[k]
            == want[k] by {
            assert(values(rows@[k]@) =~= moved_item(
                values(all[k]@),
                source as int,
                target as int,
            ));
        }
        assert(row_values(rows@) =~= want);
    }
}

impl DataGrid {
    /// Asks for a review of the pending changes, where there are any.
    pub fn review_changes(&mut self, text: String) -> (r: Option<DataGridEvent>)
        requires
            old(self).wf(),
            old(self)@.can_commit(),
        ensures
            final(self).wf(),
            final(self)@ == old(self)@.committed(text@),
            r is Some == final(self)@.has_pending(),
            r matches Some(event) ==> asks_for_review(
                event,
                final(self)@,
                final(self).pending_list(),
            ),
    {
        self.commit_editor(text);
        if self.pending_count() == 0 {
            return None;
        }
        match &self.editable {
            Some(editable) => Some(
                DataGridEvent::ReviewChanges {
                    connection_id: editable.connection_id().to_owned(),
                    request: editable.request(&self.result),
                },
            ),
            None => None,
        }
    }

    /// Asks for a review of the pending changes, unless the rows are read anew.
    pub fn request_review(&mut self, text: String) -> (r: Option<DataGridEvent>)
        requires
            old(self).wf(),
            old(self)@.can_commit(),
        ensures
            final(self).wf(),
            old(self)@.reloading ==> r is None && final(self)@ == old(self)@,
            !old(self)@.reloading ==> final(self)@ == old(self)@.committed(text@),
            !old(self)@.reloading ==> r is Some == final(self)@.has_pending(),
            r matches Some(event) ==> asks_for_review(
                event,
                final(self)@,
                final(self).pending_list(),
            ),
    {
        if self.reloading {
            return None;
        }
        self.review_changes(text)
    }

    /// Asks for the import of a CSV file, where the grid is that of a table.
    pub fn request_csv_import(&self) -> (r: Option<DataGridEvent>)
        ensures
            r is Some == (!self@.reloading && self@.editable is Some),
            r matches Some(event) ==> event is ImportCsv,
    {
        if !self.reloading && self.editable.is_some() {
            Some(DataGridEvent::ImportCsv)
        } else {
            None
        }
    }

    /// Sorts by a column, or in the next direction, or not at all. The click
    /// that ends the move of a column does not sort.
    pub fn toggle_sort(&mut self, column: usize, text: String) -> (r: Option<DataGridEvent>)
        requires
            old(self).wf(),
            !old(self)@.suppress_sort && old(self)@.editable is Some ==> old(self)@.can_commit(),
            old(self)@.sorts(text@) ==> column < old(self)@.columns.len(),
        ensures
            final(self).wf(),
            final(self)@ == old(self)@.with_sort_clicked(column, text@),
            r is Some == old(self)@.sorts(text@),
            r matches Some(event) ==> asks_for_sort(
                event,
                old(self)@.columns[column as int].name@,
                direction_after(old(self)@.sort, column),
            ),
    {
        let ghost was = self@;
        let ghost typed = text@;
        if self.suppress_sort {
            self.suppress_sort = false;
            assert(self@ =~= was.with_sort_clicked(column, typed));
            return None;
        }
        if self.editable.is_none() {
            return None;
        }
        if !self.prepare_for_reload(text) {
            return None;
        }
        let direction = next_sort_direction(self.sort, column);
        self.sort = match direction {
            Some(direction) => Some((column, direction)),
            None => None,
        };
        assert(self@ =~= was.with_sort_clicked(column, typed));
        Some(
            DataGridEvent::SortColumn {
                column: self.result.columns[column].name.clone(),
                direction,
            },
        )
    }

    /// Moves a column. Nothing happens where the grid does not have one of the
    /// two places.
    pub fn move_column(&mut self, source: usize, target: usize, text: String)
        requires
            old(self).wf(),
            old(self)@.can_commit(),
            old(self)@.can_move(source, target),
        ensures
            final(self).wf(),
            final(self)@ == (if source == target || source >= old(self)@.columns.len() || target
                >= old(self)@.columns.len() {
                old(self)@
            } else {
                old(self)@.committed(text@).with_column_moved(source, target)
            }),
    {
        if source == target || source >= self.result.columns.len() || target
            >= self.result.columns.len() {
            return;
        }
        self.commit_editor(text);
        let ghost was = self@;
        proof {
            assert forall|i: int| 0 <= i < self.result.rows@.len() implies source < (
            #[trigger] self.result.rows@[i])@.len() && target < self.result.rows@[i]@.len() by {
                assert(was.rows[i].len() == self.result.rows@[i]@.len());
            }
        }
        move_item(&mut self.result.columns, source, target);
        move_cells(&mut self.result.rows, source, target);
        self.widths_user_set = move_set(&self.widths_user_set, source, target);
        if let Some(editable) = &mut self.editable {
            editable.move_column(source, target);
        }
        self.selection = move_position(self.selection, source, target);
        self.selection_anchor = move_position(self.selection_anchor, source, target);
        self.sort = match self.sort {
            Some((column, direction)) => Some((moved_index(column, source, target), direction)),
            None => None,
        };
        self.suppress_sort = true;
        proof {
            if self.editable is Some {
                self.editable->0.lemma_pending_list();
            }
            assert(self@ =~= was.with_column_moved(source, target));
        }
    }
}

// ---------------------------------------------------------------------
// Following foreign keys
// ---------------------------------------------------------------------
impl DataGridView {
    /// The grid with an error that is shown.
    pub open spec fn with_error(self, error: Seq<char>) -> DataGridView {
        DataGridView { edit_error: Some(error), ..self }
    }

    /// What a cell offers to follow.
    pub open spec fn offer(self, row: int, column: int) -> Result<Seq<OptionView>, Seq<char>> {
        match self.editable {
            Some(e) => offered(e, self.columns, self.rows, row, column),
            None => Err("Foreign-key navigation is available for table rows only"@),
        }
    }

    /// The grid after a foreign key was chosen.
    pub open spec fn with_option_chosen(
        self,
        option: Result<(LookupRequestView, Seq<char>), Seq<char>>,
    ) -> DataGridView {
        let closed_picker = DataGridView { picker: None, ..self };
        match option {
            Ok(_) => if self.editable is Some {
                closed_picker
            } else {
                closed_picker.with_error(
                    "Foreign-key navigation is available for table rows only"@,
                )
            },
            Err(why) => closed_picker.with_error(why),
        }
    }

    /// The grid after the foreign key of a cell was to be followed.
    pub open spec fn with_cell_followed(self, row: usize, column: usize) -> DataGridView {
        if self.reloading {
            self.with_error("Wait for the table reload to finish before navigating"@)
        } else {
            match self.offer(row as int, column as int) {
                Err(why) => self.with_error(why),
                Ok(options) => if options.len() == 1 {
                    self.with_option_chosen(options[0].lookup)
                } else {
                    DataGridView {
                        picker: Some(PickerView { row, column, options }),
                        edit_error: None,
                        ..self
                    }
                },
            }
        }
    }

    /// Where the foreign key of a cell leads at once: it is the only one, and it
    /// can be followed.
    pub open spec fn leads_to(self, row: usize, column: usize) -> Option<
        (LookupRequestView, Seq<char>),
    > {
        match self.offer(row as int, column as int) {
            Ok(options) => if !self.reloading && options.len() == 1 {
                match options[0].lookup {
                    Ok(to) => Some(to),
                    Err(_) => None,
                }
            } else {
                None
            },
            Err(_) => None,
        }
    }
}

impl DataGrid {
    pub fn set_navigation_error(&mut self, error: String)
        requires
            old(self).wf(),
        ensures
            final(self).wf(),
            final(self)@ == old(self)@.with_error(error@),
    {
        let ghost was = self@;
        self.edit_error = Some(error);
        assert(self@ =~= was.with_error(error@));
    }

    /// What a cell offers to follow, or why nothing.
    pub fn foreign_key_navigation_options(&self, row: usize, column: usize) -> (r: Result<
        Vec<ForeignKeyNavigationOption>,
        String,
    >)
        requires
            self.wf(),
        ensures
            offer_view(r) == self@.offer(row as int, column as int),
    {
        match &self.editable {
            Some(editable) => editable.foreign_key_navigation_options(&self.result, row, column),
            None => Err("Foreign-key navigation is available for table rows only".to_owned()),
        }
    }

    /// Follows a foreign key that was chosen.
    pub fn select_foreign_key_option(
        &mut self,
        option: Result<(ForeignKeyLookupRequest, String), String>,
    ) -> (r: Option<DataGridEvent>)
        requires
            old(self).wf(),
        ensures
            final(self).wf(),
            final(self)@ == old(self)@.with_option_chosen(lookup_view(option)),
            r is Some == (option is Ok && old(self)@.editable is Some),
            r matches Some(event) ==> asks_for_navigation(
                event,
                old(self)@.editable->0.target,
                lookup_view(option)->Ok_0,
            ),
    {
        let ghost was = self@;
        self.close_picker();
        match option {
            Ok((lookup, focus_column)) => match &self.editable {
                Some(editable) => Some(
                    DataGridEvent::NavigateForeignKey {
                        source: editable.target().clone(),
                        lookup,
                        focus_column,
                    },
                ),
                None => {
                    self.set_navigation_error(
                        "Foreign-key navigation is available for table rows only".to_owned(),
                    );
                    None
                },
            },
            Err(error) => {
                self.set_navigation_error(error);
                None
            },
        }
    }

    /// Closes the list of foreign keys to choose from.
    pub fn close_picker(&mut self)
        requires
            old(self).wf(),
        ensures
            final(self).wf(),
            final(self)@ == (DataGridView { picker: None, ..old(self)@ }),
    {
        let ghost was = self@;
        self.foreign_key_picker = None;
        assert(self@ =~= (DataGridView { picker: None, ..was }));
    }

    /// Follows the foreign key of a cell, or lets the user choose where there
    /// are several.
    pub fn open_foreign_key_cell(&mut self, row: usize, column: usize) -> (r: Option<DataGridEvent>)
        requires
            old(self).wf(),
        ensures
            final(self).wf(),
            final(self)@ == old(self)@.with_cell_followed(row, column),
            r is Some == old(self)@.leads_to(row, column) is Some,
            r matches Some(event) ==> asks_for_navigation(
                event,
                old(self)@.editable->0.target,
                old(self)@.leads_to(row, column)->0,
            ),
    {
        if self.reloading {
            self.set_navigation_error(
                "Wait for the table reload to finish before navigating".to_owned(),
            );
            return None;
        }
        let ghost was = self@;
        match self.foreign_key_navigation_options(row, column) {
            Ok(mut options) => {
                let ghost views = option_views(options@);
                if options.len() == 1 {
                    let option = options.remove(0);
                    assert(option@ == views[0]);
                    self.select_foreign_key_option(option.lookup)
                } else {
                    self.foreign_key_picker = Some(ForeignKeyPicker { row, column, options });
                    self.edit_error = None;
                    assert(self@ =~= was.with_cell_followed(row, column));
                    None
                }
            },
            Err(error) => {
                self.set_navigation_error(error);
                None
            },
        }
    }
}

// ---------------------------------------------------------------------
// What the grid shows
// ---------------------------------------------------------------------
/// The rows of `list` from the first down, each once.
pub open spec fn ascending(rows: Seq<usize>, list: Seq<usize>) -> bool {
    &&& forall|i: int, j: int| 0 <= i < j < rows.len() ==> #[trigger] rows[i] < #[trigger] rows[j]
    &&& forall|row: usize| #[trigger] rows.contains(row) == list.contains(row)
}

impl DataGrid {
    /// What the gestures of the mouse and the keyboard leave selected.
    pub fn set_selection(
        &mut self,
        selection: Option<CellPosition>,
        anchor: Option<CellPosition>,
        selecting_cells: bool,
    )
        requires
            old(self).wf(),
        ensures
            final(self).wf(),
            final(self)@ == (DataGridView {
                selection,
                selection_anchor: anchor,
                selecting_cells,
                ..old(self)@
            }),
    {
        let ghost was = self@;
        self.selection = selection;
        self.selection_anchor = anchor;
        self.selecting_cells = selecting_cells;
        assert(self@ =~= (DataGridView {
            selection,
            selection_anchor: anchor,
            selecting_cells,
            ..was
        }));
    }

    /// Selects whole rows.
    pub fn set_selected_rows(&mut self, rows: &[usize], anchor: Option<usize>)
        requires
            old(self).wf(),
        ensures
            final(self).wf(),
            ascending(final(self)@.selected_rows, rows@),
            final(self)@ == (DataGridView {
                selected_rows: final(self)@.selected_rows,
                row_anchor: anchor,
                ..old(self)@
            }),
    {
        let ghost was = self@;
        let mut set: OrderedMap<usize, ()> = OrderedMap::new();
        let mut i: usize = 0;
        while i < rows.len()
            invariant
                i <= rows@.len(),
                set.wf(),
                forall|row: usize| #[trigger]
                    set.map().contains_key(row) == rows@.take(i as int).contains(row),
            decreases rows@.len() - i,
        {
            let ghost before = set.map();
            set.insert(rows[i], ());
            proof {
                let longer = rows@.take(i + 1);
                assert forall|row: usize| #[trigger] set.map().contains_key(row)
                    == longer.contains(row) by {
                    assert(longer =~= rows@.take(i as int).push(rows@[i as int]));
                    if rows@.take(i as int).contains(row) {
                        let k = rows@.take(i as int).index_of(row);
                        assert(longer[k] == row);
                    }
                    assert(longer[i as int] == rows@[i as int]);
                    if longer.contains(row) && row != rows@[i as int] {
                        let k = longer.index_of(row);
                        assert(rows@.take(i as int)[k] == row);
                    }
                }
            }
            i += 1;
        }
        proof {
            assert(rows@.take(i as int) =~= rows@);
            let keys = set.keys();
            assert forall|row: usize| #[trigger] keys.contains(row) == rows@.contains(row) by {
                if keys.contains(row) {
                    let at = keys.index_of(row);
                    assert(set.key_at(row, at));
                    assert(set.map().contains_key(row));
                }
                if rows@.contains(row) {
                    assert(set.map().contains_key(row));
                    let at = choose|at: int| #[trigger] set.key_at(row, at);
                    assert(keys[at] == row);
                }
            }
            assert forall|i: int, j: int| 0 <= i < j < keys.len() implies #[trigger] keys[i]
                < #[trigger] keys[j] by {
                assert(keys[i] == set.entries()[i].0);
                assert(keys[j] == set.entries()[j].0);
            }
        }
        self.selected_rows = set;
        self.row_anchor = anchor;
        assert(self@ =~= (DataGridView {
            selected_rows: self@.selected_rows,
            row_anchor: anchor,
            ..was
        }));
    }

    pub fn row_selected(&self, row: usize) -> (r: bool)
        requires
            self.wf(),
        ensures
            r == self@.selected_rows.contains(row),
    {
        proof {
            let keys = self.selected_rows.keys();
            if keys.contains(row) {
                let at = keys.index_of(row);
                assert(self.selected_rows.key_at(row, at));
            }
            if self.selected_rows.has(row) {
                let at = choose|at: int| #[trigger] self.selected_rows.key_at(row, at);
                assert(keys[at] == row);
            }
        }
        self.selected_rows.contains(&row)
    }

    /// The selected rows, from the first down.
    pub fn selected_rows(&self) -> (r: Vec<usize>)
        ensures
            r@ == self@.selected_rows,
    {
        let mut out: Vec<usize> = Vec::new();
        let mut i: usize = 0;
        while i < self.selected_rows.len()
            invariant
                i <= self.selected_rows.entries().len(),
                out@ == self.selected_rows.keys().take(i as int),
            decreases self.selected_rows.entries().len() - i,
        {
            out.push(*self.selected_rows.key(i));
            assert(self.selected_rows.keys().take(i + 1) =~= self.selected_rows.keys().take(
                i as int,
            ).push(self.selected_rows.keys()[i as int]));
            i += 1;
        }
        assert(self.selected_rows.keys().take(i as int) =~= self.selected_rows.keys());
        out
    }

    /// Notes that the user set the width of a column: it no longer follows what
    /// the column holds.
    pub fn keep_width(&mut self, column: usize)
        requires
            old(self).wf(),
        ensures
            final(self).wf(),
            final(self)@ == (DataGridView {
                widths_user_set: old(self)@.widths_user_set.insert(column),
                ..old(self)@
            }),
    {
        let ghost was = self@;
        self.widths_user_set.insert(column, ());
        assert(self@ =~= (DataGridView {
            widths_user_set: was.widths_user_set.insert(column),
            ..was
        }));
    }

    /// Whether the user set the width of a column.
    pub fn width_kept(&self, column: usize) -> (r: bool)
        requires
            self.wf(),
        ensures
            r == self@.widths_user_set.contains(column),
    {
        self.widths_user_set.contains(&column)
    }

    /// Notes how an export ended.
    pub fn set_export_message(&mut self, message: Option<Result<String, String>>)
        requires
            old(self).wf(),
        ensures
            final(self).wf(),
            final(self)@ == (DataGridView { export_message: message_view(message), ..old(self)@ }),
    {
        let ghost was = self@;
        self.export_message = message;
        assert(self@ =~= (DataGridView { export_message: message_view(message), ..was }));
    }

    pub fn export_message(&self) -> (r: Option<&Result<String, String>>)
        ensures
            message_view(deref(r)) == self@.export_message,
    {
        self.export_message.as_ref()
    }

    pub fn edit_error(&self) -> (r: Option<&str>)
        ensures
            opt_str(r) == self@.edit_error,
    {
        match &self.edit_error {
            Some(text) => Some(text.as_str()),
            None => None,
        }
    }

    pub fn result(&self) -> (r: &QueryResult)
        ensures
            r.columns@ == self@.columns,
            row_values(r.rows@) == self@.rows,
            report_of(*r) == self@.report,
    {
        &self.result
    }

    pub fn editable(&self) -> (r: Option<&EditableGrid>)
        requires
            self.wf(),
        ensures
            editable_view(deref(r)) == self@.editable,
            r matches Some(e) ==> e.wf(),
    {
        self.editable.as_ref()
    }

    pub fn selection(&self) -> (r: Option<CellPosition>)
        ensures
            r == self@.selection,
    {
        self.selection
    }

    pub fn active_editor(&self) -> (r: Option<ActiveEditor>)
        ensures
            r == self@.editor,
    {
        self.active_editor
    }

    pub fn picker(&self) -> (r: Option<&ForeignKeyPicker>)
        ensures
            picker_view(deref(r)) == self@.picker,
    {
        self.foreign_key_picker.as_ref()
    }

    pub fn sort(&self) -> (r: Option<(usize, SortDirection)>)
        ensures
            r == self@.sort,
    {
        self.sort
    }

    pub fn null_display(&self) -> (r: &str)
        ensures
            r@ == self@.null_display,
    {
        self.null_display.as_str()
    }

    pub fn stripe_rows(&self) -> (r: bool)
        ensures
            r == self@.stripe_rows,
    {
        self.stripe_rows
    }
}

// ---------------------------------------------------------------------
// Laws
// ---------------------------------------------------------------------
/// A reload loses no edit: it is only begun with nothing pending, no edit
/// refused and no editor running, and from then on the grid takes no edits.
pub proof fn law_a_reload_loses_no_edit(
    v: DataGridView,
    text: Seq<char>,
    typed: Seq<char>,
    position: CellPosition,
)
    requires
        v.prepared(text).reloading,
    ensures
        !v.prepared(text).has_pending(),
        v.prepared(text).edit_error is None,
        v.prepared(text).editor is None,
        v.prepared(text).committed(typed) == v.prepared(text),
        v.prepared(text).editing(position, typed) == v.prepared(text),
{
}

proof fn lemma_kept_alike<T>(a: GridView, b: GridView, rows: Seq<T>, more: Seq<T>, n: nat)
    requires
        n <= rows.len(),
        n <= more.len(),
        forall|i: int| 0 <= i < n ==> #[trigger] a.is_inserted(i) == b.is_inserted(i),
        forall|i: int| 0 <= i < n ==> rows[i] == #[trigger] more[i],
    ensures
        kept_rows(a, rows, n) == kept_rows(b, more, n),
    decreases n,
{
    if n > 0 {
        lemma_kept_alike(a, b, rows, more, (n - 1) as nat);
        assert(a.is_inserted(n - 1) == b.is_inserted(n - 1));
        assert(rows[n - 1] == more[n - 1]);
    }
}

proof fn lemma_kept_keys_alike(a: GridView, b: GridView, n: nat)
    requires
        n <= a.row_keys.len(),
        n <= b.row_keys.len(),
        forall|i: int| 0 <= i < n ==> #[trigger] a.is_inserted(i) == b.is_inserted(i),
        forall|i: int| 0 <= i < n ==> a.row_keys[i] == #[trigger] b.row_keys[i],
    ensures
        kept_keys(a, n) == kept_keys(b, n),
    decreases n,
{
    if n > 0 {
        lemma_kept_keys_alike(a, b, (n - 1) as nat);
        assert(a.is_inserted(n - 1) == b.is_inserted(n - 1));
        assert(a.row_keys[n - 1] == b.row_keys[n - 1]);
    }
}

/// Following a foreign key commits nothing and discards nothing: the rows, what
/// is pending and what is being typed stay as they are.
pub proof fn law_following_a_key_keeps_the_edits(
    v: DataGridView,
    row: usize,
    column: usize,
    option: Result<(LookupRequestView, Seq<char>), Seq<char>>,
)
    ensures
        v.with_cell_followed(row, column) == (DataGridView {
            picker: v.with_cell_followed(row, column).picker,
            edit_error: v.with_cell_followed(row, column).edit_error,
            ..v
        }),
        v.with_option_chosen(option) == (DataGridView {
            picker: None,
            edit_error: v.with_option_chosen(option).edit_error,
            ..v
        }),
{
}

/// Reverting leaves nothing of a row that was added: the rows, and what they are
/// known by, are those that reverting without it leaves.
pub proof fn law_reverting_drops_an_added_row(v: DataGridView)
    requires
        v.coherent(),
        v.editable matches Some(e) && e.next_insert < u64::MAX && e.row_keys.len() == v.rows.len(),
    ensures
        v.with_new_row().rows.len() == v.rows.len() + 1,
        v.with_new_row().reverted().rows == v.reverted().rows,
        v.with_new_row().reverted().editable->0.row_keys == v.reverted().editable->0.row_keys,
        !v.with_new_row().reverted().has_pending(),
{
    let e = v.editable->0;
    let n = v.rows.len();
    let w = e.with_new_row();
    law_cancelling_an_insert(e, Seq::empty());
    assert forall|i: int| 0 <= i < n implies #[trigger] w.is_inserted(i) == e.is_inserted(i) by {
        if e.row_keys[i] is Some {
            law_an_insert_has_its_own_id(e, i);
        }
    }
    lemma_kept_alike(w, e, v.with_new_row().rows, v.rows, n);
    lemma_kept_keys_alike(w, e, n);
    assert(w.is_inserted(n as int));
}

/// Moving a column back brings back the columns, the rows, the edits, the
/// selection and the sort.
pub proof fn law_moving_a_column_back(v: DataGridView, source: usize, target: usize)
    requires
        source < v.columns.len(),
        target < v.columns.len(),
        forall|i: int|
            0 <= i < v.rows.len() ==> source < (#[trigger] v.rows[i]).len() && target
                < v.rows[i].len(),
    ensures
        v.with_column_moved(source, target).with_column_moved(target, source) == (DataGridView {
            suppress_sort: true,
            ..v
        }),
{
    let there = v.with_column_moved(source, target);
    let back = there.with_column_moved(target, source);
    law_items_follow_their_index(v.columns, source as int, target as int, source as int);
    assert forall|i: int| 0 <= i < v.rows.len() implies back.rows[i] == #[trigger] v.rows[i] by {
        law_items_follow_their_index(v.rows[i], source as int, target as int, source as int);
    }
    assert(back.rows =~= v.rows);
    assert forall|c: usize| #[trigger]
        back.widths_user_set.contains(c) == v.widths_user_set.contains(c) by {
        lemma_moved_back(c as int, source as int, target as int);
    }
    assert(back.widths_user_set =~= v.widths_user_set);
    if v.editable is Some {
        law_edits_follow_their_columns(v.editable->0, 0, 0, source, target);
    }
    if v.selection is Some {
        lemma_moved_back(v.selection->0.column as int, source as int, target as int);
    }
    if v.selection_anchor is Some {
        lemma_moved_back(v.selection_anchor->0.column as int, source as int, target as int);
    }
    if v.sort is Some {
        lemma_moved_back((v.sort->0).0 as int, source as int, target as int);
    }
    assert(back =~= (DataGridView { suppress_sort: true, ..v }));
}

/// What a cell holds and shows goes along when a column is moved, and the sort
/// stays with its column.
pub proof fn law_cells_follow_their_column(
    v: DataGridView,
    source: usize,
    target: usize,
    row: usize,
    column: usize,
)
    requires
        source < v.columns.len(),
        target < v.columns.len(),
        column < v.columns.len(),
        row < v.rows.len(),
        v.rows[row as int].len() == v.columns.len(),
    ensures
        ({
            let there = v.with_column_moved(source, target);
            let to = moved(column as int, source as int, target as int);
            &&& there.columns[to] == v.columns[column as int]
            &&& there.rows[row as int][to] == v.rows[row as int][column as int]
            &&& start_text(there, CellPosition { row, column: to as usize }) == start_text(
                v,
                CellPosition { row, column },
            )
            &&& (v.sort matches Some((sorted, direction)) && sorted == column) ==> there.sort
                == Some((to as usize, (v.sort->0).1))
        }),
{
    law_items_follow_their_index(v.columns, source as int, target as int, column as int);
    law_items_follow_their_index(v.rows[row as int], source as int, target as int, column as int);
    if v.editable is Some {
        law_edits_follow_their_columns(v.editable->0, row as int, column, source, target);
    }
}

/// Pages that are appended one after the other make up the rows, in the order in
/// which they came.
pub proof fn law_pages_add_up(v: DataGridView, first: QueryResultPage, second: QueryResultPage)
    requires
        page_refusal(v, first) is None,
        page_refusal(v.with_page(first), second) is None,
    ensures
        v.with_page(first).with_page(second).rows == v.rows + row_values(first.rows@) + row_values(
            second.rows@,
        ),
        second.offset == first.offset + first.rows@.len(),
        v.columns.len() > 0 ==> v.with_page(first).with_page(second).columns == v.columns,
{
}

/// A cell that can be edited takes a value of its column's type and shows it, and
/// a value that it refuses changes nothing but the error.
pub proof fn law_values_go_into_their_cell(
    v: DataGridView,
    position: CellPosition,
    value: Option<Seq<char>>,
)
    requires
        v.editable is Some,
        v.editable->0.key_of(position.row as int) is Some,
        v.has_cell(position),
    ensures
        ({
            let now = v.with_value(position, value);
            let data_type = v.columns[position.column as int].data_type@;
            let before = v.rows[position.row as int][position.column as int];
            let refused = match value {
                Some(text) => refusal(data_type, text, is_iso_date(text)),
                None => None,
            };
            &&& refused is Some ==> now == (DataGridView { edit_error: refused, ..v })
            &&& refused is None ==> now.edit_error is None
            &&& refused is None && v.editable->0.is_deleted(position.row as int) ==> now.editable
                == v.editable
            &&& refused is None && !v.editable->0.is_deleted(position.row as int)
                && v.editable->0.is_inserted(position.row as int)
                ==> now.editable->0.displayed(position.row as int, position.column) == Some(value)
            &&& refused is None && !v.editable->0.is_deleted(position.row as int)
                && !v.editable->0.is_inserted(position.row as int) && value is Some && !(before is Null)
                && value->0 != plain_text(before) ==> now.editable->0.displayed(
                position.row as int,
                position.column,
            ) == Some(value)
            &&& refused is None && !v.editable->0.is_deleted(position.row as int)
                && !v.editable->0.is_inserted(position.row as int) && value is None && !(before is Null)
                ==> now.editable->0.displayed(position.row as int, position.column) == Some(value)
            &&& now.rows == v.rows && now.columns == v.columns && now.selection == v.selection
        }),
{
}

/// A grid that is not that of a table takes no value, and neither does a row that
/// has no key or a place where there is no cell.
pub proof fn law_other_places_take_no_value(
    v: DataGridView,
    position: CellPosition,
    value: Option<Seq<char>>,
)
    requires
        v.editable is None || v.editable->0.key_of(position.row as int) is None || !v.has_cell(
            position,
        ),
    ensures
        v.with_value(position, value).editable == v.editable,
        v.with_value(position, value).rows == v.rows,
        v.editable is None ==> v.with_value(position, value) == v,
{
}

/// Committing ends the editor and gives its cell the text; without an editor it
/// does nothing.
pub proof fn law_a_commit_ends_the_editor(v: DataGridView, text: Seq<char>)
    ensures
        v.editor is None ==> v.committed(text) == v,
        v.committed(text).editor is None,
        v.editor matches Some(editor) ==> v.committed(text).editable == v.with_value(
            editor.position,
            Some(text),
        ).editable,
        v.committed(text).rows == v.rows,
        v.committed(text).columns == v.columns,
        v.committed(text).selection == v.selection,
        v.committed(text).sort == v.sort,
{
}

/// A grid is edited where it is that of a table with a primary key and its rows are
/// not read anew: the cell is selected alone, and has the editor.
pub proof fn law_editing_starts_in_the_cell(
    v: DataGridView,
    position: CellPosition,
    text: Seq<char>,
)
    ensures
        v.reloading || v.editable is None || v.editable->0.table.primary_key@.len() == 0
            ==> v.editing(position, text) == v,
        !v.reloading && v.editable is Some && v.editable->0.table.primary_key@.len() > 0 ==> {
            let now = v.editing(position, text);
            &&& now.editor matches Some(editor)
            &&& editor.position == position
            &&& editor.date is None
            &&& now.selection == Some(position)
            &&& now.selection_anchor == Some(position)
            &&& !now.selecting_cells
            &&& now.selected_rows.len() == 0
            &&& now.row_anchor is None
            &&& now.editable == v.committed(text).editable
            &&& now.rows == v.rows
        },
{
}

/// An editor starts with the pending text of its cell, or else with that of its
/// value.
pub proof fn law_editors_start_with_what_is_shown(v: DataGridView, position: CellPosition)
    requires
        v.has_cell(position),
    ensures
        ({
            let pending = match v.editable {
                Some(e) => e.displayed(position.row as int, position.column),
                None => None,
            };
            &&& pending matches Some(Some(text)) ==> start_text(v, position) == text
            &&& !(pending is Some && pending->0 is Some) ==> start_text(v, position) == plain_text(
                v.rows[position.row as int][position.column as int],
            )
        }),
{
}

/// A new row is one of NULLs behind the others, as wide as the grid, and inserted.
pub proof fn law_new_rows_are_null(v: DataGridView, i: int)
    requires
        0 <= i < v.columns.len(),
    ensures
        v.with_new_row().rows.len() == v.rows.len() + 1,
        v.with_new_row().rows.drop_last() == v.rows,
        v.with_new_row().rows.last().len() == v.columns.len(),
        v.with_new_row().rows.last()[i] is Null,
        v.editable matches Some(e) && e.row_keys.len() == v.rows.len() ==> (
        v.with_new_row().editable matches Some(now) && now.is_inserted(v.rows.len() as int)),
        v.with_new_row().columns == v.columns,
        v.with_new_row().selection == v.selection,
{
    assert(v.with_new_row().rows.drop_last() =~= v.rows);
}

/// Setting the selected cell to NULL is giving it no text.
pub proof fn law_null_goes_into_the_selected_cell(v: DataGridView, text: Seq<char>)
    requires
        v.editor is None,
    ensures
        v.selection is None ==> v.with_selected_null(text) == v,
        v.selection matches Some(position) ==> {
            let now = v.with_selected_null(text);
            &&& now.editable == v.with_value(position, None).editable
            &&& now.edit_error == v.with_value(position, None).edit_error
            &&& now.selected_rows.len() == 0
            &&& now.rows == v.rows
        },
{
}

/// Inverting the selected truth value gives its cell the other one: that of the
/// pending text where there is one, else that of the value, which is false where
/// it is none.
pub proof fn law_truth_values_are_inverted(v: DataGridView, text: Seq<char>, position: CellPosition)
    requires
        v.editor is None,
        v.selection == Some(position),
    ensures
        ({
            let kind = lower(v.columns[position.column as int].data_type@);
            let now = v.with_selected_toggled(text);
            let pending = match v.editable {
                Some(e) => e.displayed(position.row as int, position.column),
                None => None,
            };
            let value = v.rows[position.row as int][position.column as int];
            &&& kind != "bool"@ && kind != "boolean"@ ==> now.edit_error == Some(
                "Select a boolean column first"@,
            ) && now.editable == v.editable
            &&& kind == "bool"@ || kind == "boolean"@ ==> {
                &&& pending == Some(Some("true"@)) ==> now.editable == v.with_value(
                    position,
                    Some("false"@),
                ).editable
                &&& pending == Some(Some("false"@)) ==> now.editable == v.with_value(
                    position,
                    Some("true"@),
                ).editable
                &&& !(pending is Some && pending->0 is Some) && value == ValueView::Bool(true)
                    ==> now.editable == v.with_value(position, Some("false"@)).editable
                &&& !(pending is Some && pending->0 is Some) && value != ValueView::Bool(true)
                    ==> now.editable == v.with_value(position, Some("true"@)).editable
            }
        }),
{
    reveal_strlit("true");
    reveal_strlit("false");
    assert("true"@.len() != "false"@.len());
}

/// Reverting drops every change, the editor and the error, and keeps the rows that
/// were not inserted in their order.
pub proof fn law_reverting_keeps_the_loaded_rows(v: DataGridView)
    ensures
        v.reverted().editor is None,
        v.reverted().edit_error is None,
        !v.reverted().has_pending(),
        v.reverted().columns == v.columns,
        v.reverted().sort == v.sort,
        v.editable is None || (forall|row: int| !(#[trigger] v.editable->0.is_inserted(row)))
            ==> v.reverted().rows == v.rows && v.reverted().selection == v.selection,
{
    if let Some(e) = v.editable {
        if forall|row: int| !(#[trigger] e.is_inserted(row)) {
            lemma_all_rows_stay(e, v.rows, v.rows.len());
            assert(v.rows.take(v.rows.len() as int) =~= v.rows);
            lemma_none_inserted(e, e.row_keys.len());
        }
    }
}

proof fn lemma_all_rows_stay<T>(e: GridView, rows: Seq<T>, n: nat)
    requires
        n <= rows.len(),
        forall|row: int| !(#[trigger] e.is_inserted(row)),
    ensures
        kept_rows(e, rows, n) == rows.take(n as int),
    decreases n,
{
    if n > 0 {
        lemma_all_rows_stay(e, rows, (n - 1) as nat);
        assert(!e.is_inserted(n - 1));
    }
    assert(kept_rows(e, rows, n) =~= rows.take(n as int));
}

proof fn lemma_none_inserted(e: GridView, n: nat)
    requires
        forall|row: int| !(#[trigger] e.is_inserted(row)),
    ensures
        inserted_among(e, n).len() == 0,
    decreases n,
{
    if n > 0 {
        lemma_none_inserted(e, (n - 1) as nat);
        assert(!e.is_inserted(n - 1));
    }
}

/// The rows may be read anew exactly where nothing is pending and no edit was
/// refused.
pub proof fn law_reloads_wait_for_the_edits(v: DataGridView, text: Seq<char>)
    ensures
        v.prepared(text).reloading <==> !v.committed(text).has_pending() && v.committed(
            text,
        ).edit_error is None,
        v.committed(text).has_pending() && v.committed(text).edit_error is None ==> v.prepared(
            text,
        ).edit_error == Some("Commit or revert pending edits before reloading data"@),
        v.committed(text).edit_error is Some ==> v.prepared(text).edit_error == v.committed(
            text,
        ).edit_error,
        v.prepared(text).editable == v.committed(text).editable,
        v.prepared(text).rows == v.rows,
{
}

/// A click on a header sorts by its column, in the next direction, where the rows
/// may be read anew. The click behind a move of a column does not sort.
pub proof fn law_header_clicks_sort(v: DataGridView, column: usize, text: Seq<char>)
    ensures
        v.suppress_sort ==> v.with_sort_clicked(column, text) == (DataGridView {
            suppress_sort: false,
            ..v
        }),
        !v.suppress_sort && v.editable is None ==> v.with_sort_clicked(column, text) == v,
        !v.suppress_sort && v.editable is Some && !v.prepared(text).reloading
            ==> v.with_sort_clicked(column, text).sort == v.sort,
        !v.suppress_sort && v.editable is Some && v.prepared(text).reloading ==> {
            let now = v.with_sort_clicked(column, text).sort;
            &&& v.sort == Some((column, SortDirection::Asc)) ==> now == Some(
                (column, SortDirection::Desc),
            )
            &&& v.sort == Some((column, SortDirection::Desc)) ==> now is None
            &&& v.sort is None || (v.sort->0).0 != column ==> now == Some(
                (column, SortDirection::Asc),
            )
        },
        v.sorts(text) <==> !v.suppress_sort && v.editable is Some && v.prepared(text).reloading,
{
}

/// A page continues the rows where it begins behind them and has their columns; it
/// is told why it does not.
pub proof fn law_pages_continue_the_rows(v: DataGridView, page: QueryResultPage)
    ensures
        page_refusal(v, page) is None <==> page.offset == v.rows.len() && (v.columns.len() == 0
            || same_columns(v.columns, page.columns@)),
        page.offset != v.rows.len() ==> page_refusal(v, page) == Some(
            "query page arrived out of order: expected "@ + nat_text(v.rows.len()) + ", got "@
                + nat_text(page.offset as nat),
        ),
        page.offset == v.rows.len() && page_refusal(v, page) is Some ==> page_refusal(v, page)
            == Some("query columns changed between result pages"@),
        v.with_page(page).rows == v.rows + row_values(page.rows@),
        v.columns.len() > 0 ==> v.with_page(page).columns == v.columns,
        v.columns.len() == 0 ==> v.with_page(page).columns == page.columns@,
        v.with_page(page).editable == v.editable,
        v.with_page(page).selection == v.selection,
{
}

/// A cell with one foreign key is followed at once where the key can be, and one
/// with several shows them all.
pub proof fn law_several_keys_are_chosen_from(v: DataGridView, row: usize, column: usize)
    ensures
        v.reloading ==> v.leads_to(row, column) is None && v.with_cell_followed(row, column)
            .edit_error == Some("Wait for the table reload to finish before navigating"@),
        v.editable is None ==> v.offer(row as int, column as int) == Err::<Seq<OptionView>, Seq<char>>(
            "Foreign-key navigation is available for table rows only"@,
        ),
        !v.reloading ==> match v.offer(row as int, column as int) {
            Err(why) => {
                &&& v.with_cell_followed(row, column).edit_error == Some(why)
                &&& v.leads_to(row, column) is None
            },
            Ok(options) => {
                &&& options.len() != 1 ==> {
                    &&& v.leads_to(row, column) is None
                    &&& v.with_cell_followed(row, column).picker matches Some(picker)
                    &&& picker.row == row
                    &&& picker.column == column
                    &&& picker.options == options
                    &&& v.with_cell_followed(row, column).edit_error is None
                }
                &&& options.len() == 1 ==> {
                    &&& v.with_cell_followed(row, column).picker is None
                    &&& options[0].lookup matches Ok(to) ==> v.leads_to(row, column) == Some(to)
                        && v.with_cell_followed(row, column).edit_error == v.edit_error
                    &&& options[0].lookup matches Err(why) ==> v.leads_to(row, column) is None
                        && v.with_cell_followed(row, column).edit_error == Some(why)
                }
            },
        },
        v.with_cell_followed(row, column).editable == v.editable,
        v.with_cell_followed(row, column).rows == v.rows,
{
}

/// A selected cell is selected alone.
pub proof fn law_a_cell_is_selected_alone(v: DataGridView, position: CellPosition)
    ensures
        v.at_cell(position).selection == Some(position),
        v.at_cell(position).selection_anchor == Some(position),
        !v.at_cell(position).selecting_cells,
        v.at_cell(position).selected_rows.len() == 0,
        v.at_cell(position).row_anchor is None,
        v.at_cell(position).editable == v.editable,
        v.at_cell(position).rows == v.rows,
        v.at_cell(position).editor == v.editor,
        v.nothing_selected().selection is None,
        v.nothing_selected().selection_anchor is None,
        v.nothing_selected().selected_rows.len() == 0,
        v.nothing_selected().editable == v.editable,
        v.nothing_selected().rows == v.rows,
{
}

/// A moved column takes its header, its cells, the selection and the sort along.
pub proof fn law_a_moved_column_takes_all_along(
    v: DataGridView,
    source: usize,
    target: usize,
    row: int,
)
    requires
        source < v.columns.len(),
        target < v.columns.len(),
        0 <= row < v.rows.len(),
        source < v.rows[row].len(),
        target < v.rows[row].len(),
    ensures
        ({
            let now = v.with_column_moved(source, target);
            &&& now.columns.len() == v.columns.len()
            &&& now.columns[target as int] == v.columns[source as int]
            &&& now.rows.len() == v.rows.len()
            &&& now.rows[row].len() == v.rows[row].len()
            &&& now.rows[row][target as int] == v.rows[row][source as int]
            &&& v.sort is Some && (v.sort->0).0 == source ==> now.sort == Some(
                (target, (v.sort->0).1),
            )
            &&& v.sort is None ==> now.sort is None
            &&& v.selection is Some && (v.selection->0).column == source ==> now.selection == Some(
                CellPosition { row: (v.selection->0).row, column: target },
            )
            &&& v.widths_user_set.contains(source) <==> now.widths_user_set.contains(target)
            &&& now.suppress_sort
            &&& now.report == v.report
        }),
{
    lemma_moved_back(source as int, source as int, target as int);
}

/// A new grid shows the result and nothing else.
pub proof fn law_new_grids_show_the_result(result: QueryResult, grid: DataGrid)
    requires
        call_ensures(DataGrid::new, (result,), grid),
    ensures
        grid@.columns == result.columns@,
        grid@.rows == row_values(result.rows@),
        grid@.report.duration_ms == result.duration_ms,
        grid@.report.rows_affected == result.rows_affected,
        grid@.report.truncated == result.truncated,
        grid@.report.total_rows == result.total_rows,
        grid@.report.notices == result.notices@,
        grid@.editable is None,
        grid@.sort is None,
        grid@.selection is None,
        grid@.selected_rows.len() == 0,
        grid@.editor is None,
        grid@.edit_error is None,
        grid@.null_display == "NULL"@,
        !grid@.reloading,
        !grid@.stripe_rows,
{
}

/// The grid of a table knows its table and how it is sorted, and has no changes.
pub proof fn law_table_grids_know_their_table(
    result: QueryResult,
    target: TableTarget,
    table: Table,
    sort: Option<(usize, SortDirection)>,
    engine: Engine,
    grid: DataGrid,
)
    requires
        call_ensures(DataGrid::new_table, (result, target, table, sort, engine), grid),
    ensures
        grid@.columns == result.columns@,
        grid@.rows == row_values(result.rows@),
        grid@.sort == sort,
        !grid@.has_pending(),
        grid@.selection is None,
        grid@.editable matches Some(e) && e.target == target && e.table == table && e.source_engine
            == engine && e.row_keys.len() == result.rows@.len(),
{
}

/// A review is asked for the changes of the grid, on the connection and in the
/// table of the grid.
pub proof fn law_reviews_are_of_the_grid(
    event: DataGridEvent,
    v: DataGridView,
    list: Seq<(Seq<char>, PendingView)>,
)
    requires
        asks_for_review(event, v, list),
        v.editable is Some,
    ensures
        event matches DataGridEvent::ReviewChanges { connection_id, request } && {
            let e = v.editable->0;
            &&& connection_id@ == e.target.connection_id@
            &&& request.database matches Some(database)
            &&& database@ == e.target.database@
            &&& request.schema@ == e.target.schema@
            &&& request.table@ == e.target.table@
            &&& request.primary_key@ == e.table.primary_key@
            &&& request.changes@.len() == list.len()
        },
{
}

/// A sort is asked for by the name of its column, and a foreign key is followed
/// from the table of the grid with its lookup.
pub proof fn law_events_carry_what_was_asked(
    sort: DataGridEvent,
    name: Seq<char>,
    wanted: Option<SortDirection>,
    navigation: DataGridEvent,
    from: TableTarget,
    to: (LookupRequestView, Seq<char>),
)
    requires
        asks_for_sort(sort, name, wanted),
        asks_for_navigation(navigation, from, to),
    ensures
        sort matches DataGridEvent::SortColumn { column, direction } && column@ == name && direction
            == wanted,
        navigation matches DataGridEvent::NavigateForeignKey { source, lookup, focus_column } && source
            == from && lookup@ == to.0 && focus_column@ == to.1,
{
}

/// The first page of a running query is shown as a result that reports nothing yet.
pub proof fn law_running_queries_show_their_first_page(page: QueryResultPage, grid: DataGrid)
    requires
        call_ensures(DataGrid::from_page, (page,), grid),
    ensures
        grid@.columns == page.columns@,
        grid@.rows == row_values(page.rows@),
        grid@.editable is None,
        grid@.report.rows_affected is None,
        grid@.report.duration_ms == 0,
        !grid@.report.truncated,
        grid@.report.total_rows is None,
        grid@.report.notices.len() == 0,
        grid@.report.notice_capture matches NoticeCapture::Unsupported(why) && why@
            == "query is still running"@,
        grid@.selection is None,
{
}

/// A result and a summary report the same: the notices, the rows affected, the
/// time and whether there are more.
pub proof fn law_reports_are_those_of_the_query(summary: QueryResultSummary)
    ensures
        report_of_summary(summary).notices == summary.notices@,
        report_of_summary(summary).notice_capture == summary.notice_capture,
        report_of_summary(summary).rows_affected == summary.rows_affected,
        report_of_summary(summary).duration_ms == summary.duration_ms,
        report_of_summary(summary).truncated == summary.truncated,
        report_of_summary(summary).total_rows == summary.total_rows,
{
}

/// A grid can be edited exactly where it is that of a table with a primary key, and
/// a file can be imported exactly where it is that of a table and not read anew.
pub proof fn law_tables_with_a_key_can_be_edited(
    grid: &DataGrid,
    can_edit: bool,
    import: Option<DataGridEvent>,
    count: usize,
)
    requires
        grid.wf(),
        call_ensures(DataGrid::can_edit, (grid,), can_edit),
        call_ensures(DataGrid::request_csv_import, (grid,), import),
        call_ensures(DataGrid::pending_count, (grid,), count),
    ensures
        can_edit <==> (grid@.editable is Some && grid@.editable->0.table.primary_key@.len() > 0),
        import is Some <==> grid@.editable is Some && !grid@.reloading,
        import matches Some(event) ==> event is ImportCsv,
        count > 0 <==> grid@.has_pending(),
        grid@.editable is None ==> count == 0,
{
}

/// Rows that are selected go up, each once, and are those that were named.
pub proof fn law_selected_rows_go_up(rows: Seq<usize>, list: Seq<usize>, row: usize)
    requires
        ascending(rows, list),
    ensures
        rows.contains(row) <==> list.contains(row),
        forall|i: int, j: int| 0 <= i < j < rows.len() ==> #[trigger] rows[i] < #[trigger] rows[j],
{
}

} // verus!
