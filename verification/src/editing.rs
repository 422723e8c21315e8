//! The pending changes of a table grid: edited cells, inserted rows and rows
//! that are marked for deletion, until they are committed or reverted.
use vstd::prelude::*;

use crate::cell_input::{is_iso_date, judges, refusal, validate_value};
use crate::changes::{
    assignment_views, copy_assignments, describes, diff_columns, AssignmentView, CellAssignment,
    DiffValue, RowChange, RowChangeView, TableChangeRequest,
};
use crate::engine::Engine;
use crate::grid::{lemma_moved_back, moved, moved_index};
use crate::ordered_map::OrderedMap;
use crate::query::QueryResult;
use crate::schema::{among, copy_opt, copy_texts, is_among, ForeignKey, Table};
use crate::text::{
    is_digit, join, joined, lemma_digits_of_nat, lemma_nat_text_injective, nat_text, push_u64,
    same_text, text_before, texts,
};
use crate::value::{diff_text, diff_value, opt_text, plain_text, CellValue, ColumnMeta, ValueView};
use crate::workspace_model::{same_opt_text, TableTarget};

verus! {

// ---------------------------------------------------------------------
// Row keys
// ---------------------------------------------------------------------
/// What `{:?}` writes of an optional string.
pub uninterp spec fn debug_text(value: Option<Seq<char>>) -> Seq<char>;

/// `{:?}` of an optional string. That different values are written differently
/// is not claimed.
#[verifier::external_body]
fn debug_opt(value: &Option<String>) -> (r: String)
    ensures
        r@ == debug_text(opt_text(*value)),
{
    format!("{:?}", value)
}

/// The position of the first column with this name, from `from` on.
pub open spec fn column_from(columns: Seq<ColumnMeta>, name: Seq<char>, from: int) -> Option<int>
    decreases columns.len() - from,
{
    if from < 0 || from >= columns.len() {
        None
    } else if columns[from].name@ == name {
        Some(from)
    } else {
        column_from(columns, name, from + 1)
    }
}

/// The position of the first column with this name.
pub fn locate_column(columns: &[ColumnMeta], name: &str) -> (r: Option<usize>)
    ensures
        r is Some == column_from(columns@, name@, 0) is Some,
        r matches Some(at) ==> column_from(columns@, name@, 0) == Some(at as int) && at
            < columns@.len() && columns@[at as int].name@ == name@,
{
    let mut i: usize = 0;
    while i < columns.len()
        invariant
            i <= columns@.len(),
            column_from(columns@, name@, i as int) == column_from(columns@, name@, 0),
        decreases columns@.len() - i,
    {
        if same_text(columns[i].name.as_str(), name) {
            return Some(i);
        }
        i += 1;
    }
    None
}

/// The value of a key column in a row.
pub open spec fn key_assignment(
    columns: Seq<ColumnMeta>,
    row: Seq<CellValue>,
    name: Seq<char>,
) -> Option<AssignmentView> {
    match column_from(columns, name, 0) {
        Some(at) => if at < row.len() {
            Some(AssignmentView { column: name, value: diff_text(row[at]@) })
        } else {
            None
        },
        None => None,
    }
}

/// Whether the row has a value for every key column.
pub open spec fn has_all_keys(
    primary_key: Seq<String>,
    columns: Seq<ColumnMeta>,
    row: Seq<CellValue>,
) -> bool {
    forall|i: int|
        0 <= i < primary_key.len() ==> key_assignment(columns, row, (#[trigger] primary_key[i])@)
            is Some
}

/// The values of the key columns in a row.
pub open spec fn key_assignments(
    primary_key: Seq<String>,
    columns: Seq<ColumnMeta>,
    row: Seq<CellValue>,
) -> Seq<AssignmentView> {
    Seq::new(
        primary_key.len(),
        |i: int| key_assignment(columns, row, primary_key[i]@)->0,
    )
}

/// One key column in the id of a row.
pub open spec fn id_part(assignment: AssignmentView) -> Seq<char> {
    assignment.column + "="@ + debug_text(assignment.value)
}

/// The id of a row with these key values.
pub open spec fn id_of_keys(keys: Seq<AssignmentView>) -> Seq<char> {
    joined(keys.map_values(|k: AssignmentView| id_part(k)), "\u{1f}"@)
}

/// The id of an inserted row.
pub open spec fn insert_id(n: nat) -> Seq<char> {
    "insert:"@ + nat_text(n)
}

/// The id of a row with a primary key holds an equals sign.
proof fn lemma_id_of_keys(keys: Seq<AssignmentView>)
    requires
        keys.len() > 0,
    ensures
        id_of_keys(keys).contains('='),
{
    reveal_strlit("=");
    let parts = keys.map_values(|k: AssignmentView| id_part(k));
    let last = parts[parts.len() - 1];
    let column = keys[keys.len() - 1].column;
    assert(last[column.len() as int] == '=');
    let all = joined(parts, "\u{1f}"@);
    let skipped = all.len() - last.len();
    assert(all[skipped + column.len()] == last[column.len() as int]);
}

/// The id of an inserted row holds none, and no other insert has it.
proof fn lemma_insert_id(n: nat)
    ensures
        !insert_id(n).contains('='),
        forall|m: nat| #[trigger] insert_id(m) == insert_id(n) ==> m == n,
{
    reveal_strlit("insert:");
    lemma_digits_of_nat(n);
    let id = insert_id(n);
    assert forall|i: int| 0 <= i < id.len() implies id[i] != '=' by {
        if i >= 7 {
            assert(is_digit(nat_text(n)[i - 7]));
        }
    }
    assert forall|m: nat| #[trigger] insert_id(m) == id implies m == n by {
        assert(nat_text(m) =~= insert_id(m).skip(7));
        assert(nat_text(n) =~= id.skip(7));
        lemma_nat_text_injective(m, n);
    }
}

/// What a row is known by: an id, and the values of its key columns.
#[verifier::ext_equal]
pub struct RowKeyView {
    pub id: Seq<char>,
    pub keys: Seq<AssignmentView>,
}

/// What a row is known by; nothing without a primary key, or where the row does
/// not have it.
pub open spec fn row_key_of(
    primary_key: Seq<String>,
    columns: Seq<ColumnMeta>,
    row: Seq<CellValue>,
) -> Option<RowKeyView> {
    if primary_key.len() == 0 || !has_all_keys(primary_key, columns, row) {
        None
    } else {
        let keys = key_assignments(primary_key, columns, row);
        Some(RowKeyView { id: id_of_keys(keys), keys })
    }
}

/// The model of a row key.
pub open spec fn row_key_view(key: Option<(String, Vec<CellAssignment>)>) -> Option<RowKeyView> {
    match key {
        Some((id, keys)) => Some(RowKeyView { id: id@, keys: assignment_views(keys@) }),
        None => None,
    }
}

fn row_key(primary_key: &[String], columns: &[ColumnMeta], row: &[CellValue]) -> (r: Option<
    (String, Vec<CellAssignment>),
>)
    ensures
        row_key_view(r) == row_key_of(primary_key@, columns@, row@),
{
    if primary_key.len() == 0 {
        return None;
    }
    let mut keys: Vec<CellAssignment> = Vec::new();
    let mut parts: Vec<String> = Vec::new();
    let mut i: usize = 0;
    while i < primary_key.len()
        invariant
            i <= primary_key@.len(),
            primary_key@.len() > 0,
            keys@.len() == i,
            parts@.len() == i,
            forall|j: int|
                0 <= j < i ==> key_assignment(columns@, row@, (#[trigger] primary_key@[j])@)
                    is Some,
            forall|j: int|
                0 <= j < i ==> (#[trigger] keys@[j])@ == key_assignment(
                    columns@,
                    row@,
                    primary_key@[j]@,
                )->0,
            forall|j: int| 0 <= j < i ==> (#[trigger] parts@[j])@ == id_part(keys@[j]@),
        decreases primary_key@.len() - i,
    {
        let name = &primary_key[i];
        let at = match locate_column(columns, name.as_str()) {
            Some(at) => at,
            None => {
                assert(key_assignment(columns@, row@, primary_key@[i as int]@) is None);
                return None;
            },
        };
        if at >= row.len() {
            assert(key_assignment(columns@, row@, primary_key@[i as int]@) is None);
            return None;
        }
        let value = DiffValue { value: diff_value(&row[at]) };
        let mut part = name.clone();
        part.append("=");
        part.append(debug_opt(&value.value).as_str());
        let key = CellAssignment { column: name.clone(), value };
        assert(part@ =~= id_part(key@));
        parts.push(part);
        keys.push(key);
        i += 1;
    }
    let id = join(parts.as_slice(), "\u{1f}");
    proof {
        let all = key_assignments(primary_key@, columns@, row@);
        assert(assignment_views(keys@) =~= all);
        assert(texts(parts@) =~= all.map_values(|k: AssignmentView| id_part(k)));
    }
    Some((id, keys))
}

// ---------------------------------------------------------------------
// Pending changes
// ---------------------------------------------------------------------
/// The pending changes of one row.
pub struct PendingRow {
    keys: Vec<CellAssignment>,
    edits: OrderedMap<usize, Option<String>>,
    inserted: bool,
    deleted: bool,
}

/// The model of [`PendingRow`].
#[verifier::ext_equal]
pub struct PendingView {
    pub keys: Seq<AssignmentView>,
    pub edits: Map<usize, Option<Seq<char>>>,
    pub inserted: bool,
    pub deleted: bool,
}

impl View for PendingRow {
    type V = PendingView;

    closed spec fn view(&self) -> PendingView {
        PendingView {
            keys: assignment_views(self.keys@),
            edits: Map::new(
                |c: usize| self.edits.map().contains_key(c),
                |c: usize| opt_text(self.edits.map()[c]),
            ),
            inserted: self.inserted,
            deleted: self.deleted,
        }
    }
}

/// Whether no column is edited.
pub open spec fn no_edits(edits: Map<usize, Option<Seq<char>>>) -> bool {
    forall|c: usize| !(#[trigger] edits.contains_key(c))
}

impl PendingView {
    /// A row is not both inserted and deleted, a deleted row has no edits, any
    /// other row that is not inserted has one, and the edits are finitely many.
    pub open spec fn meaningful(self) -> bool {
        &&& self.edits.dom().finite()
        &&& !(self.inserted && self.deleted)
        &&& self.deleted ==> no_edits(self.edits)
        &&& !self.inserted && !self.deleted ==> !no_edits(self.edits)
    }

    /// How many changes the row counts as.
    pub open spec fn weight(self) -> nat {
        if self.deleted || self.inserted {
            1
        } else {
            self.edits.dom().len()
        }
    }
}

impl PendingRow {
    closed spec fn wf(self) -> bool {
        self.edits.wf()
    }

    /// The edits are finitely many.
    proof fn lemma_edits(self)
        requires
            self.wf(),
        ensures
            self@.edits.dom().finite(),
            self@.edits.dom().len() == self.edits.entries().len(),
    {
        self.edits.lemma_len();
        assert(self@.edits.dom() =~= self.edits.map().dom());
    }

    fn has_no_edits(&self) -> (r: bool)
        requires
            self.wf(),
        ensures
            r == no_edits(self@.edits),
    {
        proof {
            if self.edits.entries().len() > 0 {
                self.edits.lemma_entry(0);
                assert(self@.edits.contains_key(self.edits.entries()[0].0));
            } else {
                assert forall|c: usize| !(#[trigger] self@.edits.contains_key(c)) by {
                    if self.edits.has(c) {
                        let at = choose|at: int| #[trigger] self.edits.key_at(c, at);
                    }
                }
            }
        }
        self.edits.len() == 0
    }
}

/// The grid of a table that can be edited.
pub struct EditableGrid {
    target: TableTarget,
    table: Table,
    source_engine: Engine,
    row_keys: Vec<Option<(String, Vec<CellAssignment>)>>,
    pending: OrderedMap<String, PendingRow>,
    next_insert: u64,
}

/// The model of [`EditableGrid`].
#[verifier::ext_equal]
pub struct GridView {
    pub target: TableTarget,
    pub table: Table,
    pub source_engine: Engine,
    /// What each row is known by.
    pub row_keys: Seq<Option<RowKeyView>>,
    /// The pending changes by the id of the row.
    pub pending: Map<Seq<char>, PendingView>,
    pub next_insert: u64,
}

pub open spec fn row_key_views(keys: Seq<Option<(String, Vec<CellAssignment>)>>) -> Seq<
    Option<RowKeyView>,
> {
    keys.map_values(|k: Option<(String, Vec<CellAssignment>)>| row_key_view(k))
}

impl View for EditableGrid {
    type V = GridView;

    closed spec fn view(&self) -> GridView {
        GridView {
            target: self.target,
            table: self.table,
            source_engine: self.source_engine,
            row_keys: row_key_views(self.row_keys@),
            pending: Map::new(
                |id: Seq<char>| self.pending.map().contains_key(id),
                |id: Seq<char>| self.pending.map()[id]@,
            ),
            next_insert: self.next_insert,
        }
    }
}

impl GridView {
    /// What the row at `row` is known by.
    pub open spec fn key_of(self, row: int) -> Option<RowKeyView> {
        if 0 <= row < self.row_keys.len() {
            self.row_keys[row]
        } else {
            None
        }
    }

    /// The pending changes of the row at `row`.
    pub open spec fn pending_of(self, row: int) -> Option<PendingView> {
        match self.key_of(row) {
            Some(key) => if self.pending.contains_key(key.id) {
                Some(self.pending[key.id])
            } else {
                None
            },
            None => None,
        }
    }

    pub open spec fn is_inserted(self, row: int) -> bool {
        self.pending_of(row) matches Some(p) && p.inserted
    }

    pub open spec fn is_deleted(self, row: int) -> bool {
        self.pending_of(row) matches Some(p) && p.deleted
    }

    /// The pending text of a cell, where it has one; inside, nothing for NULL.
    pub open spec fn displayed(self, row: int, column: usize) -> Option<Option<Seq<char>>> {
        match self.pending_of(row) {
            Some(p) => if p.edits.contains_key(column) {
                Some(p.edits[column])
            } else {
                None
            },
            None => None,
        }
    }

    /// Every pending change means something and belongs to a row of the grid,
    /// whose key values it carries; the changes are finitely many; and every id
    /// is that of a row with a primary key or of an insert that was made.
    pub open spec fn coherent(self) -> bool {
        &&& self.pending.dom().finite()
        &&& forall|id: Seq<char>| #[trigger]
            self.pending.contains_key(id) ==> self.pending[id].meaningful() && self.issued(id)
                && self.belongs(id, self.pending[id])
        &&& forall|row: int|
            0 <= row < self.row_keys.len() && (#[trigger] self.row_keys[row]) is Some
                ==> self.issued(self.row_keys[row]->0.id)
    }

    /// Whether no two rows are known by one id.
    pub open spec fn rows_are_distinct(self) -> bool {
        forall|i: int, j: int|
            0 <= i < j < self.row_keys.len() && (#[trigger] self.row_keys[i]) is Some && (
            #[trigger] self.row_keys[j]) is Some ==> self.row_keys[i]->0.id
                != self.row_keys[j]->0.id
    }

    /// Whether a change belongs to a row of this id: the row is known by the key
    /// values of the change, and an inserted row has none.
    pub open spec fn belongs(self, id: Seq<char>, change: PendingView) -> bool {
        &&& change.inserted ==> change.keys.len() == 0
        &&& self.has_row(RowKeyView { id, keys: change.keys })
    }

    /// Whether a row of the grid is known by `key`.
    pub open spec fn has_row(self, key: RowKeyView) -> bool {
        exists|row: int| 0 <= row < self.row_keys.len() && #[trigger] self.row_keys[row] == Some(key)
    }

    /// Whether an id is that of a row with a primary key or of an insert that was
    /// made. The former hold an equals sign, the latter do not.
    pub open spec fn issued(self, id: Seq<char>) -> bool {
        id.contains('=') || exists|n: nat| n < self.next_insert && id == #[trigger] insert_id(n)
    }
}

impl EditableGrid {
    pub closed spec fn wf(self) -> bool {
        &&& self.pending.wf()
        &&& forall|id: Seq<char>| #[trigger]
            self.pending.map().contains_key(id) ==> self.pending.map()[id].wf()
        &&& self@.coherent()
    }

    /// The pending changes in the order of their row ids.
    pub closed spec fn pending_list(self) -> Seq<(Seq<char>, PendingView)> {
        self.pending.entries().map_values(|e: (String, PendingRow)| (e.0@, e.1@))
    }

    /// [`EditableGrid::pending_list`] goes up by id and holds what is pending.
    pub proof fn lemma_pending_list(self)
        requires
            self.wf(),
        ensures
            self@.coherent(),
            forall|i: int, j: int|
                0 <= i < j < self.pending_list().len() ==> text_before(
                    (#[trigger] self.pending_list()[i]).0,
                    (#[trigger] self.pending_list()[j]).0,
                ),
            forall|i: int|
                0 <= i < self.pending_list().len() ==> {
                    let entry = #[trigger] self.pending_list()[i];
                    self@.pending.contains_key(entry.0) && self@.pending[entry.0] == entry.1
                },
            forall|id: Seq<char>| #[trigger]
                self@.pending.contains_key(id) ==> exists|i: int|
                    0 <= i < self.pending_list().len() && (#[trigger] self.pending_list()[i]).0
                        == id,
    {
        let list = self.pending_list();
        assert forall|i: int, j: int| 0 <= i < j < list.len() implies text_before(
            (#[trigger] list[i]).0,
            (#[trigger] list[j]).0,
        ) by {
            assert(list[i].0 == self.pending.entries()[i].0@);
            assert(list[j].0 == self.pending.entries()[j].0@);
        }
        assert forall|i: int| 0 <= i < list.len() implies {
            let entry = #[trigger] list[i];
            self@.pending.contains_key(entry.0) && self@.pending[entry.0] == entry.1
        } by {
            self.pending.lemma_entry(i);
        }
        assert forall|id: Seq<char>| #[trigger]
            self@.pending.contains_key(id) implies exists|i: int|
            0 <= i < list.len() && (#[trigger] list[i]).0 == id by {
            let at = choose|at: int| #[trigger] self.pending.key_at(id, at);
            assert(list[at].0 == id);
        }
    }

    /// The grid of a table and the rows that were read of it, without changes.
    pub fn new_with_source_engine(
        target: TableTarget,
        table: Table,
        result: &QueryResult,
        source_engine: Engine,
    ) -> (r: Self)
        ensures
            r.wf(),
            starts(r@, target, table, *result, source_engine),
    {
        let columns = result.columns.as_slice();
        let rows = result.rows.as_slice();
        let mut row_keys: Vec<Option<(String, Vec<CellAssignment>)>> = Vec::new();
        let mut i: usize = 0;
        while i < rows.len()
            invariant
                i <= rows@.len(),
                row_keys@.len() == i,
                forall|j: int|
                    0 <= j < i ==> row_key_view(#[trigger] row_keys@[j]) == row_key_of(
                        table.primary_key@,
                        columns@,
                        rows@[j]@,
                    ),
            decreases rows@.len() - i,
        {
            row_keys.push(row_key(table.primary_key.as_slice(), columns, rows[i].as_slice()));
            i += 1;
        }
        let r = EditableGrid {
            target,
            table,
            source_engine,
            row_keys,
            pending: OrderedMap::new(),
            next_insert: 1,
        };
        proof {
            assert(r@.pending =~= Map::<Seq<char>, PendingView>::empty());
            assert forall|i: int| 0 <= i < r@.row_keys.len() && (#[trigger] r@.row_keys[i]) is Some
                implies r@.issued(r@.row_keys[i]->0.id) by {
                assert(r@.row_keys[i] == row_key_view(r.row_keys@[i]));
                lemma_id_of_keys(
                    key_assignments(table.primary_key@, columns@, rows@[i]@),
                );
            }
        }
        r
    }

    /// The grid of a Postgres table.
    pub fn new(target: TableTarget, table: Table, result: &QueryResult) -> (r: Self)
        ensures
            r.wf(),
            starts(r@, target, table, *result, Engine::Postgres),
    {
        Self::new_with_source_engine(target, table, result, Engine::Postgres)
    }

    /// Whether cells can be edited: rows are found by a primary key.
    pub fn can_edit(&self) -> (r: bool)
        ensures
            r == (self@.table.primary_key@.len() > 0),
    {
        self.table.primary_key.len() > 0
    }

    pub fn source_engine(&self) -> (r: Engine)
        ensures
            r == self@.source_engine,
    {
        self.source_engine
    }

    pub fn target(&self) -> (r: &TableTarget)
        ensures
            *r == self@.target,
    {
        &self.target
    }

    pub fn table(&self) -> (r: &Table)
        ensures
            *r == self@.table,
    {
        &self.table
    }

    pub fn connection_id(&self) -> (r: &str)
        ensures
            r@ == self@.target.connection_id@,
    {
        self.target.connection_id.as_str()
    }

    pub fn table_name(&self) -> (r: &str)
        ensures
            r@ == self@.target.table@,
    {
        self.target.table.as_str()
    }

    pub fn schema_name(&self) -> (r: &str)
        ensures
            r@ == self@.target.schema@,
    {
        self.target.schema.as_str()
    }

    /// The number of rows, inserted ones included.
    pub fn row_count(&self) -> (r: usize)
        ensures
            r == self@.row_keys.len(),
    {
        self.row_keys.len()
    }

    /// Whether a column belongs to the primary key, and whether to a foreign
    /// key.
    pub fn column_flags(&self, name: &str) -> (r: (bool, bool))
        ensures
            r.0 == among(self@.table.primary_key@, name@),
            r.1 == in_foreign_key(self@.table.foreign_keys@, name@),
    {
        (
            is_among(self.table.primary_key.as_slice(), name),
            has_foreign_key(self.table.foreign_keys.as_slice(), name),
        )
    }

    /// The id of a row.
    fn id_at(&self, row: usize) -> (r: Option<String>)
        ensures
            r is Some == self@.key_of(row as int) is Some,
            r matches Some(id) ==> id@ == self@.key_of(row as int)->0.id,
    {
        if row < self.row_keys.len() {
            assert(self@.row_keys[row as int] == row_key_view(self.row_keys@[row as int]));
            match &self.row_keys[row] {
                Some((id, _)) => Some(id.clone()),
                None => None,
            }
        } else {
            None
        }
    }

    /// The pending text of a cell, where it has one.
    pub fn display_value(&self, row: usize, column: usize) -> (r: Option<Option<String>>)
        requires
            self.wf(),
        ensures
            shown(r) == self@.displayed(row as int, column),
    {
        let id = match self.id_at(row) {
            Some(id) => id,
            None => return None,
        };
        match self.pending.get(&id) {
            Some(change) => match change.edits.get(&column) {
                Some(text) => Some(copy_opt(text)),
                None => None,
            },
            None => None,
        }
    }

    pub fn row_inserted(&self, row: usize) -> (r: bool)
        requires
            self.wf(),
        ensures
            r == self@.is_inserted(row as int),
    {
        match self.id_at(row) {
            Some(id) => match self.pending.get(&id) {
                Some(change) => change.inserted,
                None => false,
            },
            None => false,
        }
    }

    pub fn row_deleted(&self, row: usize) -> (r: bool)
        requires
            self.wf(),
        ensures
            r == self@.is_deleted(row as int),
    {
        match self.id_at(row) {
            Some(id) => match self.pending.get(&id) {
                Some(change) => change.deleted,
                None => false,
            },
            None => false,
        }
    }

    /// The rows that are inserted, in their order.
    pub fn inserted_rows(&self) -> (r: Vec<usize>)
        requires
            self.wf(),
        ensures
            r@ == inserted_among(self@, self@.row_keys.len()),
    {
        let mut out: Vec<usize> = Vec::new();
        let mut row: usize = 0;
        assert(out@ =~= inserted_among(self@, 0));
        while row < self.row_keys.len()
            invariant
                row <= self.row_keys@.len(),
                self.wf(),
                out@ == inserted_among(self@, row as nat),
            decreases self.row_keys@.len() - row,
        {
            if self.row_inserted(row) {
                out.push(row);
            }
            row += 1;
        }
        out
    }

    /// The rows that are marked for deletion, in their order.
    pub fn deleted_rows(&self) -> (r: Vec<usize>)
        requires
            self.wf(),
        ensures
            r@ == deleted_among(self@, self@.row_keys.len()),
    {
        let mut out: Vec<usize> = Vec::new();
        let mut row: usize = 0;
        assert(out@ =~= deleted_among(self@, 0));
        while row < self.row_keys.len()
            invariant
                row <= self.row_keys@.len(),
                self.wf(),
                out@ == deleted_among(self@, row as nat),
            decreases self.row_keys@.len() - row,
        {
            if self.row_deleted(row) {
                out.push(row);
            }
            row += 1;
        }
        out
    }
}

/// Whether `v` is the grid of a table and the rows that were read of it, without
/// changes.
pub open spec fn starts(
    v: GridView,
    target: TableTarget,
    table: Table,
    result: QueryResult,
    source_engine: Engine,
) -> bool {
    &&& v.target == target
    &&& v.table == table
    &&& v.source_engine == source_engine
    &&& v.row_keys.len() == result.rows@.len()
    &&& forall|i: int|
        0 <= i < v.row_keys.len() ==> (#[trigger] v.row_keys[i]) == row_key_of(
            table.primary_key@,
            result.columns@,
            result.rows@[i]@,
        )
    &&& v.pending == Map::<Seq<char>, PendingView>::empty()
    &&& v.next_insert == 1
}

/// The model of a pending text.
pub open spec fn shown(value: Option<Option<String>>) -> Option<Option<Seq<char>>> {
    match value {
        Some(text) => Some(opt_text(text)),
        None => None,
    }
}

/// Whether a foreign key has this column.
pub open spec fn in_foreign_key(keys: Seq<ForeignKey>, name: Seq<char>) -> bool {
    exists|k: int| 0 <= k < keys.len() && among((#[trigger] keys[k]).columns@, name)
}

pub fn has_foreign_key(keys: &[ForeignKey], name: &str) -> (r: bool)
    ensures
        r == in_foreign_key(keys@, name@),
{
    let mut i: usize = 0;
    while i < keys.len()
        invariant
            i <= keys@.len(),
            forall|k: int| 0 <= k < i ==> !among((#[trigger] keys@[k]).columns@, name@),
        decreases keys@.len() - i,
    {
        if is_among(keys[i].columns.as_slice(), name) {
            return true;
        }
        i += 1;
    }
    false
}

/// The inserted rows among the first `n`.
pub open spec fn inserted_among(v: GridView, n: nat) -> Seq<usize>
    decreases n,
{
    if n == 0 {
        Seq::empty()
    } else if v.is_inserted(n - 1) {
        inserted_among(v, (n - 1) as nat).push((n - 1) as usize)
    } else {
        inserted_among(v, (n - 1) as nat)
    }
}

/// The rows marked for deletion among the first `n`.
pub open spec fn deleted_among(v: GridView, n: nat) -> Seq<usize>
    decreases n,
{
    if n == 0 {
        Seq::empty()
    } else if v.is_deleted(n - 1) {
        deleted_among(v, (n - 1) as nat).push((n - 1) as usize)
    } else {
        deleted_among(v, (n - 1) as nat)
    }
}

// ---------------------------------------------------------------------
// Changing
// ---------------------------------------------------------------------
/// No column edited.
pub open spec fn nothing_edited() -> Map<usize, Option<Seq<char>>> {
    Map::empty()
}

impl GridView {
    pub open spec fn with_pending(self, id: Seq<char>, change: PendingView) -> GridView {
        GridView { pending: self.pending.insert(id, change), ..self }
    }

    pub open spec fn without_pending(self, id: Seq<char>) -> GridView {
        GridView { pending: self.pending.remove(id), ..self }
    }

    /// The grid without the edit of one cell. A row of which nothing is left to
    /// change is no longer pending.
    pub open spec fn reverted(self, row: int, column: usize) -> GridView {
        match self.pending_of(row) {
            None => self,
            Some(change) => {
                let left = PendingView { edits: change.edits.remove(column), ..change };
                if no_edits(left.edits) && !left.inserted && !left.deleted {
                    self.without_pending(self.key_of(row)->0.id)
                } else {
                    self.with_pending(self.key_of(row)->0.id, left)
                }
            },
        }
    }

    /// The grid with a cell edited. Cells of deleted rows keep their values. Of a
    /// row that is not inserted, editing a cell to the value that it had reverts
    /// it.
    pub open spec fn edited(
        self,
        row: int,
        column: usize,
        value: Option<Seq<char>>,
        before: ValueView,
    ) -> GridView {
        match self.key_of(row) {
            None => self,
            Some(key) => if self.is_deleted(row) {
                self
            } else if !self.is_inserted(row) && value == diff_text(before) {
                self.reverted(row, column)
            } else {
                let change = match self.pending_of(row) {
                    Some(change) => change,
                    None => PendingView {
                        keys: key.keys,
                        edits: nothing_edited(),
                        inserted: false,
                        deleted: false,
                    },
                };
                self.with_pending(
                    key.id,
                    PendingView { edits: change.edits.insert(column, value), ..change },
                )
            },
        }
    }

    /// The grid with cells of one row edited one after the other: each with its
    /// column, the value that is typed and the value that it was loaded with.
    pub open spec fn edited_by(
        self,
        row: int,
        edits: Seq<(usize, Option<Seq<char>>, ValueView)>,
    ) -> GridView
        decreases edits.len(),
    {
        if edits.len() == 0 {
            self
        } else {
            let (column, value, before) = edits.last();
            self.edited_by(row, edits.drop_last()).edited(row, column, value, before)
        }
    }

    /// The id of the next row that is inserted.
    pub open spec fn next_id(self) -> Seq<char> {
        insert_id(self.next_insert as nat)
    }

    /// The grid with a new row at its end.
    pub open spec fn with_new_row(self) -> GridView {
        GridView {
            row_keys: self.row_keys.push(
                Some(RowKeyView { id: self.next_id(), keys: Seq::empty() }),
            ),
            pending: self.pending.insert(
                self.next_id(),
                PendingView {
                    keys: Seq::empty(),
                    edits: nothing_edited(),
                    inserted: true,
                    deleted: false,
                },
            ),
            next_insert: (self.next_insert + 1) as u64,
            ..self
        }
    }

    /// The grid without an inserted row.
    pub open spec fn without_insert(self, row: int) -> GridView {
        GridView { row_keys: self.row_keys.remove(row), ..self }.without_pending(
            self.key_of(row)->0.id,
        )
    }

    /// The grid with the deletion of a row toggled: an insert is cancelled, a
    /// deletion is unmarked, and any other row is marked, which drops its edits.
    pub open spec fn toggled_delete(self, row: int) -> GridView {
        if self.is_inserted(row) {
            self.without_insert(row)
        } else {
            match self.key_of(row) {
                None => self,
                Some(key) => if self.is_deleted(row) {
                    self.without_pending(key.id)
                } else {
                    self.with_pending(
                        key.id,
                        PendingView {
                            keys: key.keys,
                            edits: nothing_edited(),
                            inserted: false,
                            deleted: true,
                        },
                    )
                },
            }
        }
    }
}

impl EditableGrid {
    /// Takes out the pending changes of a row.
    fn take_pending(&mut self, id: &String) -> (r: Option<PendingRow>)
        requires
            old(self).wf(),
        ensures
            final(self).wf(),
            final(self)@ == old(self)@.without_pending(id@),
            final(self).row_keys == old(self).row_keys,
            final(self).target == old(self).target,
            final(self).table == old(self).table,
            r is Some == old(self)@.pending.contains_key(id@),
            r matches Some(change) ==> change.wf() && change@ == old(self)@.pending[id@],
    {
        let ghost was = self@;
        let r = self.pending.remove(id);
        assert(self@ =~= was.without_pending(id@));
        r
    }

    /// Keeps the pending changes of a row.
    fn put_pending(&mut self, id: String, change: PendingRow)
        requires
            old(self).wf(),
            change.wf(),
            change@.meaningful(),
            old(self)@.issued(id@),
            old(self)@.belongs(id@, change@),
        ensures
            final(self).wf(),
            final(self)@ == old(self)@.with_pending(id@, change@),
            final(self).row_keys == old(self).row_keys,
            final(self).target == old(self).target,
            final(self).table == old(self).table,
    {
        let ghost was = self@;
        self.pending.insert(id, change);
        proof {
            assert(self@ =~= was.with_pending(id@, change@));
            assert forall|other: Seq<char>| was.issued(other) implies #[trigger] self@.issued(
                other,
            ) by {}
            assert forall|other: RowKeyView| was.has_row(other) implies #[trigger] self@.has_row(
                other,
            ) by {}
        }
    }

    fn keys_at(&self, row: usize) -> (r: Vec<CellAssignment>)
        requires
            self@.key_of(row as int) is Some,
        ensures
            assignment_views(r@) == self@.key_of(row as int)->0.keys,
    {
        assert(self@.row_keys[row as int] == row_key_view(self.row_keys@[row as int]));
        match &self.row_keys[row] {
            Some((_, keys)) => copy_assignments(keys.as_slice()),
            None => Vec::new(),
        }
    }

    /// Reverts one cell. The result says whether it was edited.
    pub fn revert_cell(&mut self, row: usize, column: usize) -> (r: bool)
        requires
            old(self).wf(),
        ensures
            final(self).wf(),
            r == (old(self)@.displayed(row as int, column) is Some),
            final(self)@ == old(self)@.reverted(row as int, column),
    {
        let ghost was = self@;
        let id = match self.id_at(row) {
            Some(id) => id,
            None => return false,
        };
        let change = match self.take_pending(&id) {
            Some(change) => change,
            None => {
                assert(self@ =~= was);
                return false;
            },
        };
        let mut change = change;
        let ghost before = change@;
        let found = change.edits.remove(&column).is_some();
        assert(change@ =~= (PendingView { edits: before.edits.remove(column), ..before }));
        if change.has_no_edits() && !change.inserted && !change.deleted {
            assert(self@ =~= was.reverted(row as int, column));
            found
        } else {
            proof {
                assert(before.meaningful());
                if before.deleted {
                    assert(no_edits(change@.edits));
                }
            }
            self.put_pending(id, change);
            assert(self@ =~= was.reverted(row as int, column));
            found
        }
    }

    /// Edits a cell. A text that the column does not take is refused and changes
    /// nothing, and so does an edit outside the grid.
    pub fn set_value(
        &mut self,
        row: usize,
        column: usize,
        value: Option<String>,
        result: &QueryResult,
    ) -> (r: Result<(), String>)
        requires
            old(self).wf(),
            value is Some && old(self)@.key_of(row as int) is Some && row < result.rows@.len()
                && column < result.rows@[row as int]@.len() ==> column < result.columns@.len(),
        ensures
            final(self).wf(),
            if old(self)@.key_of(row as int) is None || row >= result.rows@.len() || column
                >= result.rows@[row as int]@.len() {
                r is Ok && final(self)@ == old(self)@
            } else if value is Some && refusal(
                result.columns@[column as int].data_type@,
                value->0@,
                is_iso_date(value->0@),
            ) is Some {
                &&& judges(
                    r,
                    refusal(
                        result.columns@[column as int].data_type@,
                        value->0@,
                        is_iso_date(value->0@),
                    ),
                )
                &&& final(self)@ == old(self)@
            } else {
                &&& r is Ok
                &&& final(self)@ == old(self)@.edited(
                    row as int,
                    column,
                    opt_text(value),
                    result.rows@[row as int]@[column as int]@,
                )
            },
    {
        let ghost was = self@;
        let id = match self.id_at(row) {
            Some(id) => id,
            None => return Ok(()),
        };
        if row >= result.rows.len() {
            return Ok(());
        }
        let cells = &result.rows[row];
        if column >= cells.len() {
            return Ok(());
        }
        if let Some(text) = &value {
            if let Err(message) = validate_value(
                result.columns[column].data_type.as_str(),
                text.as_str(),
            ) {
                return Err(message);
            }
        }
        if self.row_deleted(row) {
            return Ok(());
        }
        let inserted = self.row_inserted(row);
        if !inserted && same_opt_text(&value, &diff_value(&cells[column])) {
            self.revert_cell(row, column);
            return Ok(());
        }
        let ghost wanted = opt_text(value);
        let keys = self.keys_at(row);
        let mut change = match self.take_pending(&id) {
            Some(change) => change,
            None => {
                let change = PendingRow {
                    keys,
                    edits: OrderedMap::new(),
                    inserted: false,
                    deleted: false,
                };
                assert(change@.edits =~= nothing_edited());
                change
            },
        };
        let ghost before = change@;
        change.edits.insert(column, value);
        proof {
            assert(change@ =~= (PendingView {
                edits: before.edits.insert(column, wanted),
                ..before
            }));
            assert(change@.edits.contains_key(column));
        }
        self.put_pending(id, change);
        assert(self@ =~= was.edited(
            row as int,
            column,
            wanted,
            result.rows@[row as int]@[column as int]@,
        ));
        Ok(())
    }

    /// Inserts a row behind the others.
    pub fn insert_row(&mut self, row: usize)
        requires
            old(self).wf(),
            old(self)@.next_insert < u64::MAX,
        ensures
            final(self).wf(),
            final(self)@ == (if row == old(self)@.row_keys.len() {
                old(self)@.with_new_row()
            } else {
                old(self)@
            }),
    {
        let ghost was = self@;
        if row != self.row_keys.len() {
            return;
        }
        let mut id = "insert:".to_owned();
        push_u64(&mut id, self.next_insert);
        assert(id@ =~= was.next_id());
        self.next_insert = self.next_insert + 1;
        let ghost keys_before = self.row_keys@;
        let no_keys: Vec<CellAssignment> = Vec::new();
        self.row_keys.push(Some((id.clone(), no_keys)));
        let change = PendingRow {
            keys: Vec::new(),
            edits: OrderedMap::new(),
            inserted: true,
            deleted: false,
        };
        proof {
            assert(change@.edits =~= nothing_edited());
            assert(change@.keys =~= Seq::empty());
            assert(assignment_views(no_keys@) =~= Seq::empty());
            assert(row_key_views(self.row_keys@) =~= row_key_views(keys_before).push(
                Some(RowKeyView { id: was.next_id(), keys: Seq::empty() }),
            ));
            let now = self@;
            assert forall|key: RowKeyView| was.has_row(key) implies #[trigger] now.has_row(key) by {
                let at = choose|at: int|
                    0 <= at < was.row_keys.len() && #[trigger] was.row_keys[at] == Some(key);
                assert(now.row_keys[at] == Some(key));
            }
            assert(now.row_keys[was.row_keys.len() as int] == Some(
                RowKeyView { id: was.next_id(), keys: change@.keys },
            ));
            assert forall|id: Seq<char>| was.issued(id) implies #[trigger] now.issued(id) by {}
        }
        self.put_pending(id, change);
        assert(self@ =~= was.with_new_row());
    }

    /// Takes back an inserted row. The result says whether the row was one.
    pub fn remove_insert(&mut self, row: usize) -> (r: bool)
        requires
            old(self).wf(),
        ensures
            final(self).wf(),
            r == old(self)@.is_inserted(row as int),
            final(self)@ == (if r {
                old(self)@.without_insert(row as int)
            } else {
                old(self)@
            }),
    {
        let ghost was = self@;
        if !self.row_inserted(row) {
            return false;
        }
        let id = match self.id_at(row) {
            Some(id) => id,
            None => return false,
        };
        self.take_pending(&id);
        let ghost keys_before = self.row_keys@;
        let ghost mid = self@;
        self.row_keys.remove(row);
        proof {
            assert(row_key_views(self.row_keys@) =~= row_key_views(keys_before).remove(row as int));
            lemma_rows_left(mid, self@, row as int, id@);
        }
        assert(self@ =~= was.without_insert(row as int));
        true
    }

    /// Toggles the deletion of a row. The result says whether a row was taken
    /// out of the grid: inserts are cancelled, deletions are unmarked, and all
    /// other rows are marked for deletion.
    pub fn toggle_delete(&mut self, row: usize) -> (r: bool)
        requires
            old(self).wf(),
        ensures
            final(self).wf(),
            r == old(self)@.is_inserted(row as int),
            final(self)@ == old(self)@.toggled_delete(row as int),
    {
        let ghost was = self@;
        if self.remove_insert(row) {
            return true;
        }
        let id = match self.id_at(row) {
            Some(id) => id,
            None => return false,
        };
        if self.row_deleted(row) {
            self.take_pending(&id);
        } else {
            let change = PendingRow {
                keys: self.keys_at(row),
                edits: OrderedMap::new(),
                inserted: false,
                deleted: true,
            };
            assert(change@.edits =~= nothing_edited());
            self.put_pending(id, change);
        }
        assert(self@ =~= was.toggled_delete(row as int));
        false
    }
}

// ---------------------------------------------------------------------
// All changes
// ---------------------------------------------------------------------
/// How many changes the rows of `pending` count as together.
pub open spec fn total_weight(pending: Map<Seq<char>, PendingView>) -> nat
    decreases pending.dom().len(),
    when pending.dom().finite()
{
    if pending.dom().len() == 0 {
        0
    } else {
        let id = pending.dom().choose();
        pending[id].weight() + total_weight(pending.remove(id))
    }
}

/// Every row counts once, in whatever order they are counted.
proof fn lemma_total_weight(pending: Map<Seq<char>, PendingView>, id: Seq<char>)
    requires
        pending.dom().finite(),
        pending.contains_key(id),
    ensures
        total_weight(pending) == pending[id].weight() + total_weight(pending.remove(id)),
    decreases pending.dom().len(),
{
    assert(pending.dom().contains(id));
    let first = pending.dom().choose();
    if first != id {
        lemma_total_weight(pending.remove(first), id);
        lemma_total_weight(pending.remove(id), first);
        assert(pending.remove(first).remove(id) =~= pending.remove(id).remove(first));
    }
}

impl GridView {
    /// How many changes are pending: one for every inserted or deleted row, and
    /// one for every edited cell of the others.
    pub open spec fn change_count(self) -> nat {
        total_weight(self.pending)
    }
}

/// Counting along a list counts the rows that it holds.
proof fn lemma_count(
    list: Seq<(Seq<char>, PendingView)>,
    pending: Map<Seq<char>, PendingView>,
    n: nat,
)
    requires
        n <= list.len(),
        pending.dom().finite(),
        forall|i: int, j: int|
            0 <= i < j < list.len() ==> (#[trigger] list[i]).0 != (#[trigger] list[j]).0,
        forall|i: int|
            0 <= i < n ==> pending.contains_key((#[trigger] list[i]).0) && pending[list[i].0]
                == list[i].1,
        forall|id: Seq<char>| #[trigger]
            pending.contains_key(id) ==> exists|i: int| 0 <= i < n && (#[trigger] list[i]).0 == id,
    ensures
        total_weight(pending) == count_of(list, n),
    decreases n,
{
    if n == 0 {
        assert(pending.dom() =~= Set::empty());
    } else {
        let id = list[n - 1].0;
        let rest = pending.remove(id);
        lemma_total_weight(pending, id);
        assert forall|other: Seq<char>| #[trigger] rest.contains_key(other) implies exists|i: int|
            0 <= i < n - 1 && (#[trigger] list[i]).0 == other by {
            assert(pending.contains_key(other));
            let i = choose|i: int| 0 <= i < n && (#[trigger] list[i]).0 == other;
            assert(i < n - 1);
        }
        lemma_count(list, rest, (n - 1) as nat);
    }
}

/// How many changes there are in the first `n` pending rows.
spec fn count_of(list: Seq<(Seq<char>, PendingView)>, n: nat) -> nat
    decreases n,
{
    if n == 0 {
        0
    } else {
        count_of(list, (n - 1) as nat) + list[n - 1].1.weight()
    }
}

/// The edits of a row as assignments to the first `n` columns, in their order.
pub open spec fn edits_to(
    edits: Map<usize, Option<Seq<char>>>,
    columns: Seq<ColumnMeta>,
    n: nat,
) -> Seq<AssignmentView>
    decreases n,
{
    if n == 0 {
        Seq::empty()
    } else {
        let before = edits_to(edits, columns, (n - 1) as nat);
        if edits.contains_key((n - 1) as usize) {
            before.push(
                AssignmentView {
                    column: columns[n - 1].name@,
                    value: edits[(n - 1) as usize],
                },
            )
        } else {
            before
        }
    }
}

/// The change that a commit carries for a pending row.
pub open spec fn change_of(
    entry: (Seq<char>, PendingView),
    columns: Seq<ColumnMeta>,
) -> RowChangeView {
    let edits = edits_to(entry.1.edits, columns, columns.len());
    if entry.1.inserted {
        RowChangeView::Insert { row_id: entry.0, values: edits }
    } else if entry.1.deleted {
        RowChangeView::Delete { row_id: entry.0, keys: entry.1.keys }
    } else {
        RowChangeView::Update { row_id: entry.0, keys: entry.1.keys, edits }
    }
}

/// The id of the row that a change is about.
pub open spec fn change_id(change: RowChangeView) -> Seq<char> {
    match change {
        RowChangeView::Insert { row_id, .. } => row_id,
        RowChangeView::Update { row_id, .. } => row_id,
        RowChangeView::Delete { row_id, .. } => row_id,
    }
}

/// Whether a commit is asked to make the changes of `list` in the table of a
/// grid, in that order.
pub open spec fn requests(
    r: TableChangeRequest,
    v: GridView,
    list: Seq<(Seq<char>, PendingView)>,
    columns: Seq<ColumnMeta>,
) -> bool {
    &&& opt_text(r.database) == Some(v.target.database@)
    &&& r.schema@ == v.target.schema@
    &&& r.table@ == v.target.table@
    &&& r.primary_key@ == v.table.primary_key@
    &&& describes(r.columns@, v.table.columns@)
    &&& r.changes@.len() == list.len()
    &&& forall|i: int|
        0 <= i < r.changes@.len() ==> (#[trigger] r.changes@[i])@ == change_of(list[i], columns)
}

/// Edits with every column where it stands after a move.
pub open spec fn moved_edits(
    edits: Map<usize, Option<Seq<char>>>,
    source: usize,
    target: usize,
) -> Map<usize, Option<Seq<char>>> {
    Map::new(
        |c: usize| edits.contains_key(moved(c as int, target as int, source as int) as usize),
        |c: usize| edits[moved(c as int, target as int, source as int) as usize],
    )
}

/// The keys of the rows that are not inserted, among the first `n`.
pub open spec fn kept_keys(v: GridView, n: nat) -> Seq<Option<RowKeyView>>
    decreases n,
{
    if n == 0 {
        Seq::empty()
    } else if v.is_inserted(n - 1) {
        kept_keys(v, (n - 1) as nat)
    } else {
        kept_keys(v, (n - 1) as nat).push(v.row_keys[n - 1])
    }
}

/// The kept keys are keys of the grid.
proof fn lemma_kept_keys(v: GridView, n: nat)
    requires
        n <= v.row_keys.len(),
    ensures
        kept_keys(v, n).len() <= n,
        forall|i: int|
            0 <= i < kept_keys(v, n).len() ==> v.row_keys.contains(#[trigger] kept_keys(v, n)[i]),
    decreases n,
{
    if n > 0 {
        lemma_kept_keys(v, (n - 1) as nat);
        assert(v.row_keys.contains(v.row_keys[n - 1]));
    }
}

impl GridView {
    /// The grid after a column was moved: the edits follow their columns.
    pub open spec fn with_moved_column(self, source: usize, target: usize) -> GridView {
        GridView {
            pending: self.pending.map_values(
                |p: PendingView|
                    PendingView { edits: moved_edits(p.edits, source, target), ..p },
            ),
            ..self
        }
    }

    /// The grid without any change: also without the inserted rows.
    pub open spec fn cleared(self) -> GridView {
        GridView {
            row_keys: kept_keys(self, self.row_keys.len()),
            pending: Map::empty(),
            ..self
        }
    }
}

fn take_key(keys: &mut Vec<Option<(String, Vec<CellAssignment>)>>) -> (r: Option<
    (String, Vec<CellAssignment>),
>)
    requires
        old(keys)@.len() > 0,
    ensures
        r == old(keys)@[0],
        final(keys)@ == old(keys)@.skip(1),
{
    let r = keys.remove(0);
    assert(keys@ =~= old(keys)@.skip(1));
    r
}

/// The edits of a row as assignments.
fn edit_list(change: &PendingRow, columns: &[ColumnMeta]) -> (r: Vec<CellAssignment>)
    requires
        change.wf(),
    ensures
        assignment_views(r@) == edits_to(change@.edits, columns@, columns@.len()),
{
    let mut out: Vec<CellAssignment> = Vec::new();
    let mut column: usize = 0;
    assert(assignment_views(out@) =~= edits_to(change@.edits, columns@, 0));
    while column < columns.len()
        invariant
            column <= columns@.len(),
            change.wf(),
            assignment_views(out@) == edits_to(change@.edits, columns@, column as nat),
        decreases columns@.len() - column,
    {
        let ghost before = out@;
        if let Some(text) = change.edits.get(&column) {
            let assignment = CellAssignment {
                column: columns[column].name.clone(),
                value: DiffValue { value: copy_opt(text) },
            };
            let ghost new = assignment@;
            out.push(assignment);
            assert(assignment_views(out@) =~= assignment_views(before).push(new));
        }
        column += 1;
    }
    out
}

impl PendingRow {
    /// Moves the edits of a row with their columns.
    fn with_moved_column(self, source: usize, target: usize) -> (r: PendingRow)
        requires
            self.wf(),
        ensures
            r.wf(),
            r@ == (PendingView { edits: moved_edits(self@.edits, source, target), ..self@ }),
    {
        let mut edits: OrderedMap<usize, Option<String>> = OrderedMap::new();
        let mut i: usize = 0;
        while i < self.edits.len()
            invariant
                i <= self.edits.entries().len(),
                self.wf(),
                edits.wf(),
                forall|c: usize| #[trigger]
                    edits.map().contains_key(c) == exists|k: int|
                        0 <= k < i && moved(
                            (#[trigger] self.edits.entries()[k]).0 as int,
                            source as int,
                            target as int,
                        ) == c,
                forall|k: int|
                    0 <= k < i ==> {
                        let c = moved(
                            (#[trigger] self.edits.entries()[k]).0 as int,
                            source as int,
                            target as int,
                        ) as usize;
                        edits.map().contains_key(c) && edits.map()[c]
                            == self.edits.entries()[k].1
                    },
            decreases self.edits.entries().len() - i,
        {
            let ghost before = edits.map();
            let ghost all = self.edits.entries();
            let at: usize = moved_index(*self.edits.key(i), source, target);
            edits.insert(at, copy_opt(self.edits.at(i)));
            proof {
                assert forall|c: usize| #[trigger]
                    edits.map().contains_key(c) == exists|k: int|
                        0 <= k < i + 1 && moved(
                            (#[trigger] all[k]).0 as int,
                            source as int,
                            target as int,
                        ) == c by {
                    if before.contains_key(c) {
                        let k = choose|k: int|
                            0 <= k < i && moved(
                                (#[trigger] all[k]).0 as int,
                                source as int,
                                target as int,
                            ) == c;
                        assert(0 <= k < i + 1 && moved(
                            all[k].0 as int,
                            source as int,
                            target as int,
                        ) == c);
                    }
                    assert(moved(all[i as int].0 as int, source as int, target as int) == at);
                    if exists|k: int|
                        0 <= k < i + 1 && moved(
                            (#[trigger] all[k]).0 as int,
                            source as int,
                            target as int,
                        ) == c {
                        let k = choose|k: int|
                            0 <= k < i + 1 && moved(
                                (#[trigger] all[k]).0 as int,
                                source as int,
                                target as int,
                            ) == c;
                        if k < i {
                            assert(before.contains_key(c));
                        }
                    }
                }
                assert forall|k: int| 0 <= k < i + 1 implies {
                    let c = moved(
                        (#[trigger] all[k]).0 as int,
                        source as int,
                        target as int,
                    ) as usize;
                    edits.map().contains_key(c) && edits.map()[c] == all[k].1
                } by {
                    if k < i {
                        lemma_moved_back(all[k].0 as int, source as int, target as int);
                        lemma_moved_back(all[i as int].0 as int, source as int, target as int);
                        if moved(all[k].0 as int, source as int, target as int) == at {
                            self.edits.lemma_unique(k, i as int);
                        }
                    }
                }
            }
            i += 1;
        }
        let ghost was = self@;
        let ghost entries = self.edits.entries();
        let ghost old_edits = self.edits;
        let r = PendingRow {
            keys: self.keys,
            edits,
            inserted: self.inserted,
            deleted: self.deleted,
        };
        proof {
            let wanted = moved_edits(was.edits, source, target);
            assert forall|c: usize| #[trigger]
                r@.edits.contains_key(c) == wanted.contains_key(c) by {
                let o = moved(c as int, target as int, source as int);
                lemma_moved_back(c as int, source as int, target as int);
                if r@.edits.contains_key(c) {
                    let k = choose|k: int|
                        0 <= k < entries.len() && moved(
                            (#[trigger] entries[k]).0 as int,
                            source as int,
                            target as int,
                        ) == c;
                    lemma_moved_back(entries[k].0 as int, source as int, target as int);
                    old_edits.lemma_entry(k);
                }
                if wanted.contains_key(c) {
                    assert(old_edits.has(o as usize));
                    let k = choose|k: int| #[trigger] old_edits.key_at(o as usize, k);
                    assert(moved(entries[k].0 as int, source as int, target as int) == c);
                }
            }
            assert forall|c: usize| #[trigger]
                r@.edits.contains_key(c) implies r@.edits[c] == wanted[c] by {
                let k = choose|k: int|
                    0 <= k < entries.len() && moved(
                        (#[trigger] entries[k]).0 as int,
                        source as int,
                        target as int,
                    ) == c;
                lemma_moved_back(entries[k].0 as int, source as int, target as int);
                lemma_moved_back(c as int, source as int, target as int);
                old_edits.lemma_entry(k);
            }
            assert(r@.edits =~= wanted);
            assert(r@ =~= (PendingView { edits: wanted, ..was }));
        }
        r
    }
}

impl EditableGrid {
    /// How many changes are pending: one for every inserted or deleted row, and
    /// one for every edited cell of the others. A count that does not fit is the
    /// greatest that does.
    pub fn pending_count(&self) -> (r: usize)
        requires
            self.wf(),
        ensures
            r == (if self@.change_count() <= usize::MAX {
                self@.change_count() as int
            } else {
                usize::MAX as int
            }),
            (r == 0) == (self.pending_list().len() == 0),
    {
        let mut total: usize = 0;
        let mut i: usize = 0;
        let ghost list = self.pending_list();
        while i < self.pending.len()
            invariant
                i <= self.pending.entries().len(),
                self.wf(),
                list == self.pending_list(),
                list.len() == self.pending.entries().len(),
                total == (if count_of(list, i as nat) <= usize::MAX {
                    count_of(list, i as nat) as int
                } else {
                    usize::MAX as int
                }),
                i > 0 ==> total > 0,
            decreases self.pending.entries().len() - i,
        {
            let change = self.pending.at(i);
            proof {
                self.pending.lemma_entry(i as int);
                assert(list[i as int].1 == change@);
                assert(self@.pending.contains_key(list[i as int].0));
                change.lemma_edits();
                assert(change@.meaningful());
                if !change.deleted && !change.inserted {
                    let c = choose|c: usize| #[trigger] change@.edits.contains_key(c);
                    assert(change@.edits.dom().contains(c));
                }
            }
            let weight: usize = if change.deleted || change.inserted {
                1
            } else {
                change.edits.len()
            };
            total = total.saturating_add(weight);
            i += 1;
        }
        proof {
            self.lemma_pending_list();
            assert forall|i: int, j: int| 0 <= i < j < list.len() implies (#[trigger] list[i]).0
                != (#[trigger] list[j]).0 by {
                crate::text::lemma_text_before_irreflexive(list[i].0);
            }
            lemma_count(list, self@.pending, list.len());
        }
        total
    }

    /// The pending texts of all cells.
    pub fn display_values(&self) -> (r: OrderedMap<(usize, usize), Option<String>>)
        requires
            self.wf(),
        ensures
            r.wf(),
            forall|row: usize, column: usize| #[trigger]
                r.map().contains_key((row, column)) == (self@.displayed(row as int, column)
                    is Some),
            forall|row: usize, column: usize| #[trigger]
                r.map().contains_key((row, column)) ==> Some(opt_text(r.map()[(row, column)]))
                    == self@.displayed(row as int, column),
    {
        let mut out: OrderedMap<(usize, usize), Option<String>> = OrderedMap::new();
        let mut row: usize = 0;
        while row < self.row_keys.len()
            invariant
                row <= self.row_keys@.len(),
                self.wf(),
                out.wf(),
                forall|r: usize, c: usize| #[trigger]
                    out.map().contains_key((r, c)) == (r < row && self@.displayed(r as int, c)
                        is Some),
                forall|r: usize, c: usize| #[trigger]
                    out.map().contains_key((r, c)) ==> Some(opt_text(out.map()[(r, c)]))
                        == self@.displayed(r as int, c),
            decreases self.row_keys@.len() - row,
        {
            let ghost before = out.map();
            if let Some(id) = self.id_at(row) {
                if let Some(change) = self.pending.get(&id) {
                    let mut i: usize = 0;
                    while i < change.edits.len()
                        invariant
                            i <= change.edits.entries().len(),
                            change.edits.wf(),
                            out.wf(),
                            row < self.row_keys@.len(),
                            self@.pending_of(row as int) == Some(change@),
                            forall|r: usize, c: usize| #[trigger]
                                out.map().contains_key((r, c)) == (before.contains_key((r, c)) || (
                                r == row && exists|k: int|
                                    0 <= k < i && (#[trigger] change.edits.entries()[k]).0 == c)),
                            forall|r: usize, c: usize| #[trigger]
                                before.contains_key((r, c)) ==> r < row && Some(
                                    opt_text(before[(r, c)]),
                                ) == self@.displayed(r as int, c),
                            forall|r: usize, c: usize| #[trigger]
                                out.map().contains_key((r, c)) ==> Some(
                                    opt_text(out.map()[(r, c)]),
                                ) == self@.displayed(r as int, c),
                        decreases change.edits.entries().len() - i,
                    {
                        let ghost mid = out.map();
                        let ghost all = change.edits.entries();
                        let column: usize = *change.edits.key(i);
                        proof {
                            change.edits.lemma_entry(i as int);
                        }
                        out.insert((row, column), copy_opt(change.edits.at(i)));
                        proof {
                            assert forall|r: usize, c: usize| #[trigger]
                                out.map().contains_key((r, c)) == (before.contains_key((r, c)) || (
                                r == row && exists|k: int|
                                    0 <= k < i + 1 && (#[trigger] all[k]).0 == c)) by {
                                if mid.contains_key((r, c)) && !before.contains_key((r, c)) {
                                    let k = choose|k: int|
                                        0 <= k < i && (#[trigger] all[k]).0 == c;
                                    assert(0 <= k < i + 1 && all[k].0 == c);
                                }
                                assert(all[i as int].0 == column);
                                if r == row && exists|k: int|
                                    0 <= k < i + 1 && (#[trigger] all[k]).0 == c {
                                    let k = choose|k: int|
                                        0 <= k < i + 1 && (#[trigger] all[k]).0 == c;
                                    if k < i {
                                        assert(mid.contains_key((r, c)));
                                    }
                                }
                            }
                        }
                        i += 1;
                    }
                    proof {
                        assert forall|r: usize, c: usize| #[trigger]
                            out.map().contains_key((r, c)) == (r < row + 1 && self@.displayed(
                                r as int,
                                c,
                            ) is Some) by {
                            if r == row {
                                assert(!before.contains_key((r, c)));
                                if self@.displayed(r as int, c) is Some {
                                    assert(change.edits.has(c));
                                    let k = choose|k: int| #[trigger] change.edits.key_at(c, k);
                                    assert(change.edits.entries()[k].0 == c);
                                }
                                if out.map().contains_key((r, c)) {
                                    let k = choose|k: int|
                                        0 <= k < change.edits.entries().len() && (
                                        #[trigger] change.edits.entries()[k]).0 == c;
                                    change.edits.lemma_entry(k);
                                }
                            }
                        }
                    }
                }
            }
            row += 1;
        }
        out
    }

    /// Moves the edits with a column that is moved.
    pub fn move_column(&mut self, source: usize, target: usize)
        requires
            old(self).wf(),
        ensures
            final(self).wf(),
            final(self)@ == old(self)@.with_moved_column(source, target),
    {
        let ghost was = self@;
        let ghost all = self.pending.map();
        let mut ids: Vec<String> = Vec::new();
        let mut i: usize = 0;
        while i < self.pending.len()
            invariant
                i <= self.pending.entries().len(),
                ids@.len() == i,
                forall|k: int|
                    0 <= k < i ==> (#[trigger] ids@[k])@ == self.pending.entries()[k].0@,
            decreases self.pending.entries().len() - i,
        {
            ids.push(self.pending.key(i).clone());
            i += 1;
        }
        proof {
            assert forall|id: Seq<char>| #[trigger]
                all.contains_key(id) implies exists|k: int|
                0 <= k < ids@.len() && (#[trigger] ids@[k])@ == id by {
                let k = choose|k: int| #[trigger] self.pending.key_at(id, k);
                assert(ids@[k]@ == id);
            }
            assert forall|a: int, b: int| 0 <= a < b < ids@.len() implies (#[trigger] ids@[a])@
                != (#[trigger] ids@[b])@ by {
                if ids@[a]@ == ids@[b]@ {
                    self.pending.lemma_unique(a, b);
                }
            }
            assert forall|k: int| 0 <= k < ids@.len() implies all.contains_key(
                (#[trigger] ids@[k])@,
            ) by {
                self.pending.lemma_entry(k);
            }
        }
        let mut j: usize = 0;
        while j < ids.len()
            invariant
                j <= ids@.len(),
                self.pending.wf(),
                self.row_keys == old(self).row_keys,
                self.target == old(self).target,
                self.table == old(self).table,
                self.source_engine == old(self).source_engine,
                self.next_insert == old(self).next_insert,
                forall|id: Seq<char>| #[trigger] all.contains_key(id) ==> all[id].wf(),
                forall|k: int| 0 <= k < ids@.len() ==> all.contains_key((#[trigger] ids@[k])@),
                forall|a: int, b: int|
                    0 <= a < b < ids@.len() ==> (#[trigger] ids@[a])@ != (#[trigger] ids@[b])@,
                self.pending.map().dom() == all.dom(),
                forall|k: int|
                    j <= k < ids@.len() ==> self.pending.map()[(#[trigger] ids@[k])@]
                        == all[ids@[k]@],
                forall|k: int|
                    0 <= k < j ==> {
                        let now = self.pending.map()[(#[trigger] ids@[k])@];
                        let before = all[ids@[k]@]@;
                        now.wf() && now@ == (PendingView {
                            edits: moved_edits(before.edits, source, target),
                            ..before
                        })
                    },
            decreases ids@.len() - j,
        {
            let ghost before = self.pending.map();
            assert(before.contains_key(ids@[j as int]@));
            if let Some(change) = self.pending.remove(&ids[j]) {
                let moved_change = change.with_moved_column(source, target);
                self.pending.insert(ids[j].clone(), moved_change);
            }
            assert(self.pending.map().dom() =~= all.dom());
            j += 1;
        }
        proof {
            assert forall|id: Seq<char>| #[trigger]
                self.pending.map().contains_key(id) implies self.pending.map()[id].wf()
                && self.pending.map()[id]@ == was.with_moved_column(source, target).pending[id]
                && self.pending.map()[id]@.meaningful() by {
                assert(all.contains_key(id));
                let k = choose|k: int| 0 <= k < ids@.len() && (#[trigger] ids@[k])@ == id;
                let before = all[id]@;
                assert(was.pending.contains_key(id) && was.pending[id] == before);
                lemma_moved_edits(before.edits, source, target);
                self.pending.map()[id].lemma_edits();
            }
            assert(self@.pending =~= was.with_moved_column(source, target).pending);
            assert(self@ =~= was.with_moved_column(source, target));
        }
    }

    /// Drops all changes. The result is the rows that were inserted, which are
    /// gone.
    pub fn clear(&mut self) -> (r: Vec<usize>)
        requires
            old(self).wf(),
        ensures
            final(self).wf(),
            r@ == inserted_among(old(self)@, old(self)@.row_keys.len()),
            final(self)@ == old(self)@.cleared(),
    {
        let ghost was = self@;
        let inserted = self.inserted_rows();
        let mut flags: Vec<bool> = Vec::new();
        let mut row: usize = 0;
        while row < self.row_keys.len()
            invariant
                row <= self.row_keys@.len(),
                self.wf(),
                self@ == was,
                flags@.len() == row,
                forall|k: int| 0 <= k < row ==> (#[trigger] flags@[k]) == was.is_inserted(k),
            decreases self.row_keys@.len() - row,
        {
            flags.push(self.row_inserted(row));
            row += 1;
        }
        let mut rest: Vec<Option<(String, Vec<CellAssignment>)>> = Vec::new();
        std::mem::swap(&mut rest, &mut self.row_keys);
        let ghost all = rest@;
        let mut kept: Vec<Option<(String, Vec<CellAssignment>)>> = Vec::new();
        let mut i: usize = 0;
        assert(all.skip(0) =~= all);
        assert(row_key_views(kept@) =~= kept_keys(was, 0));
        while i < flags.len()
            invariant
                i <= flags@.len(),
                flags@.len() == all.len(),
                rest@ == all.skip(i as int),
                was.row_keys == row_key_views(all),
                forall|k: int|
                    0 <= k < flags@.len() ==> (#[trigger] flags@[k]) == was.is_inserted(k),
                row_key_views(kept@) == kept_keys(was, i as nat),
            decreases flags@.len() - i,
        {
            let key = take_key(&mut rest);
            let ghost before = kept@;
            proof {
                assert(all.skip(i as int).skip(1) =~= all.skip(i as int + 1));
                assert(was.row_keys[i as int] == row_key_view(key));
            }
            if !flags[i] {
                kept.push(key);
                assert(row_key_views(kept@) =~= row_key_views(before).push(
                    was.row_keys[i as int],
                ));
            }
            i += 1;
        }
        self.row_keys = kept;
        self.pending = OrderedMap::new();
        proof {
            assert(self@ =~= was.cleared());
            lemma_kept_keys(was, was.row_keys.len());
            assert forall|row: int|
                0 <= row < self@.row_keys.len() && (#[trigger] self@.row_keys[row]) is Some implies
                self@.issued(self@.row_keys[row]->0.id) by {
                assert(was.row_keys.contains(self@.row_keys[row]));
                let k = choose|k: int|
                    0 <= k < was.row_keys.len() && was.row_keys[k] == self@.row_keys[row];
                assert(was.issued(was.row_keys[k]->0.id));
            }
        }
        inserted
    }

    /// The changes for a commit, in the order of the row ids.
    pub fn request(&self, result: &QueryResult) -> (r: TableChangeRequest)
        requires
            self.wf(),
        ensures
            requests(r, self@, self.pending_list(), result.columns@),
    {
        let ghost list = self.pending_list();
        let mut changes: Vec<RowChange> = Vec::new();
        let mut i: usize = 0;
        while i < self.pending.len()
            invariant
                i <= self.pending.entries().len(),
                self.wf(),
                list == self.pending_list(),
                list.len() == self.pending.entries().len(),
                changes@.len() == i,
                forall|k: int|
                    0 <= k < i ==> (#[trigger] changes@[k])@ == change_of(
                        list[k],
                        result.columns@,
                    ),
            decreases self.pending.entries().len() - i,
        {
            let change = self.pending.at(i);
            let row_id = self.pending.key(i).clone();
            proof {
                self.pending.lemma_entry(i as int);
                assert(list[i as int] == (row_id@, change@));
            }
            let item = if change.inserted {
                RowChange::Insert {
                    row_id,
                    values: edit_list(change, result.columns.as_slice()),
                }
            } else if change.deleted {
                RowChange::Delete { row_id, keys: copy_assignments(change.keys.as_slice()) }
            } else {
                RowChange::Update {
                    row_id,
                    keys: copy_assignments(change.keys.as_slice()),
                    edits: edit_list(change, result.columns.as_slice()),
                }
            };
            changes.push(item);
            i += 1;
        }
        TableChangeRequest {
            database: Some(self.target.database.clone()),
            schema: self.target.schema.clone(),
            table: self.target.table.clone(),
            primary_key: copy_texts(self.table.primary_key.as_slice()),
            columns: diff_columns(self.table.columns.as_slice()),
            changes,
        }
    }
}

/// What is pending on other rows still belongs to them once a row is gone.
proof fn lemma_rows_left(mid: GridView, now: GridView, row: int, id: Seq<char>)
    requires
        mid.coherent(),
        0 <= row < mid.row_keys.len(),
        mid.row_keys[row] matches Some(key) && key.id == id,
        !mid.pending.contains_key(id),
        now == (GridView { row_keys: mid.row_keys.remove(row), ..mid }),
    ensures
        now.coherent(),
{
    assert forall|other: Seq<char>| mid.issued(other) implies #[trigger] now.issued(other) by {}
    assert forall|other: Seq<char>| #[trigger] now.pending.contains_key(other) implies now.belongs(
        other,
        now.pending[other],
    ) by {
        let key = RowKeyView { id: other, keys: mid.pending[other].keys };
        assert(mid.belongs(other, mid.pending[other]));
        let at = choose|at: int|
            0 <= at < mid.row_keys.len() && #[trigger] mid.row_keys[at] == Some(key);
        assert(at != row);
        let left = if at < row {
            at
        } else {
            at - 1
        };
        assert(now.row_keys[left] == Some(key));
    }
    assert forall|at: int|
        0 <= at < now.row_keys.len() && (#[trigger] now.row_keys[at]) is Some implies now.issued(
        now.row_keys[at]->0.id,
    ) by {
        let before = if at < row {
            at
        } else {
            at + 1
        };
        assert(now.row_keys[at] == mid.row_keys[before]);
    }
}

/// A move keeps every edit.
proof fn lemma_moved_edits(edits: Map<usize, Option<Seq<char>>>, source: usize, target: usize)
    ensures
        no_edits(moved_edits(edits, source, target)) == no_edits(edits),
{
    let now = moved_edits(edits, source, target);
    if !no_edits(edits) {
        let c = choose|c: usize| #[trigger] edits.contains_key(c);
        lemma_moved_back(c as int, source as int, target as int);
        let m = moved(c as int, source as int, target as int) as usize;
        assert(now.contains_key(m));
    }
    if !no_edits(now) {
        let c = choose|c: usize| #[trigger] now.contains_key(c);
        assert(edits.contains_key(moved(c as int, target as int, source as int) as usize));
    }
}

// ---------------------------------------------------------------------
// Laws
// ---------------------------------------------------------------------
/// Reverting an edit brings back the grid as it was before the edit.
pub proof fn law_reverting_undoes_an_edit(
    v: GridView,
    row: int,
    column: usize,
    value: Option<Seq<char>>,
    before: ValueView,
)
    requires
        v.coherent(),
        v.displayed(row, column) is None,
    ensures
        v.edited(row, column, value, before).reverted(row, column) == v,
{
    let now = v.edited(row, column, value, before);
    match v.key_of(row) {
        None => {},
        Some(key) => {
            if let Some(change) = v.pending_of(row) {
                assert(change.edits.remove(column) =~= change.edits);
                assert(change.edits.insert(column, value).remove(column) =~= change.edits);
                assert(v.pending.insert(key.id, change) =~= v.pending);
                assert(now.reverted(row, column) =~= v);
            } else {
                assert(nothing_edited().insert(column, value).remove(column) =~= nothing_edited());
                assert(now.reverted(row, column) =~= v);
            }
        },
    }
}

/// Editing a cell back to the value that it had drops the edit.
pub proof fn law_editing_back_drops_the_edit(
    v: GridView,
    row: int,
    column: usize,
    value: Option<Seq<char>>,
    before: ValueView,
)
    requires
        v.coherent(),
        v.displayed(row, column) is None,
        !v.is_inserted(row),
    ensures
        v.edited(row, column, value, before).edited(row, column, diff_text(before), before) == v,
{
    law_reverting_undoes_an_edit(v, row, column, value, before);
    let now = v.edited(row, column, value, before);
    if v.key_of(row) is Some && !v.is_deleted(row) {
        if value == diff_text(before) {
            law_reverting_undoes_an_edit(v, row, column, diff_text(before), before);
            if let Some(change) = v.pending_of(row) {
                assert(change.edits.remove(column) =~= change.edits);
                assert(now =~= v);
            }
        }
        assert(!now.is_deleted(row) && !now.is_inserted(row));
    }
}

/// Typing the value that a cell was loaded with drops the edit of that cell and
/// no other: one change fewer is pending where the cell had an edit, as many as
/// before where it had none, and a row that has no other edit is no longer
/// pending.
pub proof fn law_typing_the_old_value_drops_one_edit(
    v: GridView,
    row: int,
    column: usize,
    before: ValueView,
)
    requires
        v.coherent(),
        v.rows_are_distinct(),
        v.key_of(row) is Some,
        !v.is_inserted(row),
        !v.is_deleted(row),
    ensures
        ({
            let now = v.edited(row, column, diff_text(before), before);
            &&& now.displayed(row, column) is None
            &&& forall|r: int, c: usize|
                (r, c) != (row, column) ==> #[trigger] now.displayed(r, c) == v.displayed(r, c)
            &&& now.change_count() == v.change_count() - (if v.displayed(row, column) is Some {
                1int
            } else {
                0int
            })
            &&& (forall|c: usize| c != column ==> #[trigger] v.displayed(row, c) is None)
                ==> now.pending_of(row) is None
            &&& now.row_keys == v.row_keys
        }),
{
    let now = v.edited(row, column, diff_text(before), before);
    let id = v.key_of(row)->0.id;
    assert(now == v.reverted(row, column));
    if let Some(change) = v.pending_of(row) {
        let edits = change.edits;
        let left = PendingView { edits: edits.remove(column), ..change };
        assert(change.meaningful());
        assert(edits.remove(column).dom() =~= edits.dom().remove(column));
        lemma_total_weight(v.pending, id);
        if no_edits(left.edits) {
            let c = choose|c: usize| #[trigger] edits.contains_key(c);
            assert(left.edits.contains_key(c) || c == column);
            assert(edits.dom() =~= set![column]) by {
                assert forall|c: usize| edits.dom().contains(c) implies c == column by {
                    assert(left.edits.contains_key(c) || c == column);
                }
            }
        } else {
            lemma_total_weight(now.pending, id);
            assert(now.pending.remove(id) =~= v.pending.remove(id));
            assert(now.pending.dom() =~= v.pending.dom());
        }
        if forall|c: usize| c != column ==> #[trigger] v.displayed(row, c) is None {
            assert forall|c: usize| !(#[trigger] left.edits.contains_key(c)) by {
                if left.edits.contains_key(c) {
                    assert(v.displayed(row, c) is None);
                }
            }
        }
    }
}

/// A commit finds the row of an update or a deletion by the key values of that
/// very row.
pub proof fn law_changes_carry_the_key_of_their_row(
    v: GridView,
    row: int,
    columns: Seq<ColumnMeta>,
)
    requires
        v.coherent(),
        v.rows_are_distinct(),
        v.pending_of(row) is Some,
    ensures
        ({
            let key = v.key_of(row)->0;
            match change_of((key.id, v.pending_of(row)->0), columns) {
                RowChangeView::Insert { row_id, .. } => row_id == key.id && key.keys.len() == 0,
                RowChangeView::Update { row_id, keys, .. } => row_id == key.id && keys == key.keys,
                RowChangeView::Delete { row_id, keys } => row_id == key.id && keys == key.keys,
            }
        }),
{
    let key = v.key_of(row)->0;
    let change = v.pending_of(row)->0;
    assert(v.belongs(key.id, change));
    let at = choose|at: int|
        0 <= at < v.row_keys.len() && #[trigger] v.row_keys[at] == Some(
            RowKeyView { id: key.id, keys: change.keys },
        );
    assert(v.row_keys[row] == Some(key));
    assert(at == row);
}

/// Editing one row leaves every row of another key alone.
pub proof fn law_an_edit_stays_in_its_row(
    v: GridView,
    row: int,
    column: usize,
    value: Option<Seq<char>>,
    before: ValueView,
    other: int,
)
    requires
        v.key_of(row) is Some,
        v.key_of(other) is Some,
        v.key_of(row)->0.id != v.key_of(other)->0.id,
    ensures
        v.edited(row, column, value, before).pending_of(other) == v.pending_of(other),
        v.edited(row, column, value, before).row_keys == v.row_keys,
{
}

/// What was typed is what the cell shows, unless the row is marked for deletion
/// or the text is what the cell had anyway.
pub proof fn law_an_edit_is_shown(
    v: GridView,
    row: int,
    column: usize,
    value: Option<Seq<char>>,
    before: ValueView,
)
    requires
        v.key_of(row) is Some,
        !v.is_deleted(row),
        v.is_inserted(row) || value != diff_text(before),
    ensures
        v.edited(row, column, value, before).displayed(row, column) == Some(value),
{
}

/// A row that is marked for deletion takes no edits.
pub proof fn law_deleted_rows_take_no_edits(
    v: GridView,
    row: int,
    column: usize,
    value: Option<Seq<char>>,
    before: ValueView,
)
    requires
        v.is_deleted(row),
    ensures
        v.edited(row, column, value, before) == v,
{
}

/// Marking a row for deletion twice brings back the grid as it was, unless the
/// row had edits: these are gone.
pub proof fn law_unmarking_a_deletion(v: GridView, row: int)
    requires
        v.key_of(row) is Some,
        !v.is_inserted(row),
        !v.is_deleted(row),
    ensures
        v.toggled_delete(row).is_deleted(row),
        v.toggled_delete(row).toggled_delete(row) == v.without_pending(v.key_of(row)->0.id),
        v.pending_of(row) is None ==> v.toggled_delete(row).toggled_delete(row) == v,
{
    let id = v.key_of(row)->0.id;
    assert(v.toggled_delete(row).toggled_delete(row) =~= v.without_pending(id));
    if v.pending_of(row) is None {
        assert(v.without_pending(id) =~= v);
    }
}

/// The edits of a new row touch nothing but its own changes.
proof fn lemma_editing_an_insert(
    v: GridView,
    edits: Seq<(usize, Option<Seq<char>>, ValueView)>,
)
    requires
        v.coherent(),
        v.next_insert < u64::MAX,
    ensures
        ({
            let row = v.row_keys.len() as int;
            let now = v.with_new_row().edited_by(row, edits);
            &&& now == (GridView { pending: now.pending, ..v.with_new_row() })
            &&& now.is_inserted(row)
            &&& !now.is_deleted(row)
            &&& now.pending.remove(v.next_id()) == v.pending
        }),
    decreases edits.len(),
{
    let row = v.row_keys.len() as int;
    let id = v.next_id();
    let now = v.with_new_row().edited_by(row, edits);
    if edits.len() == 0 {
        lemma_insert_id(v.next_insert as nat);
        if v.pending.contains_key(id) {
            assert(v.issued(id));
        }
        assert(now.pending.remove(id) =~= v.pending);
    } else {
        let before = v.with_new_row().edited_by(row, edits.drop_last());
        lemma_editing_an_insert(v, edits.drop_last());
        assert(before.key_of(row)->0.id == id);
        assert(now.pending.remove(id) =~= before.pending.remove(id));
    }
}

/// The rows that are inserted or marked for deletion are a matter of the rows and
/// of what is pending on them.
proof fn lemma_marked_alike(a: GridView, b: GridView, n: nat)
    requires
        a.row_keys == b.row_keys,
        a.pending == b.pending,
    ensures
        inserted_among(a, n) == inserted_among(b, n),
        deleted_among(a, n) == deleted_among(b, n),
    decreases n,
{
    if n > 0 {
        lemma_marked_alike(a, b, (n - 1) as nat);
        assert(a.pending_of(n - 1) == b.pending_of(n - 1));
    }
}

/// Cancelling an insert brings back the grid as it was before it, whatever was
/// typed into the new row meanwhile; only the number of the insert is not given
/// out again. So what is shown, counted and marked is what it was.
pub proof fn law_cancelling_an_insert(
    v: GridView,
    edits: Seq<(usize, Option<Seq<char>>, ValueView)>,
)
    requires
        v.coherent(),
        v.next_insert < u64::MAX,
    ensures
        ({
            let row = v.row_keys.len() as int;
            let typed = v.with_new_row().edited_by(row, edits);
            let back = typed.without_insert(row);
            &&& typed.is_inserted(row)
            &&& typed.toggled_delete(row) == back
            &&& back == (GridView { next_insert: (v.next_insert + 1) as u64, ..v })
            &&& back.change_count() == v.change_count()
            &&& inserted_among(back, back.row_keys.len()) == inserted_among(v, v.row_keys.len())
            &&& deleted_among(back, back.row_keys.len()) == deleted_among(v, v.row_keys.len())
            &&& forall|r: int, c: usize| #[trigger] back.displayed(r, c) == v.displayed(r, c)
        }),
{
    let row = v.row_keys.len() as int;
    let typed = v.with_new_row().edited_by(row, edits);
    let back = typed.without_insert(row);
    lemma_editing_an_insert(v, edits);
    assert(typed.row_keys.remove(row) =~= v.row_keys);
    assert(back =~= (GridView { next_insert: (v.next_insert + 1) as u64, ..v }));
    lemma_marked_alike(back, v, v.row_keys.len());
}

/// An insert is a row of its own: it shares its id with no other row.
pub proof fn law_an_insert_has_its_own_id(v: GridView, row: int)
    requires
        v.coherent(),
        v.next_insert < u64::MAX,
        0 <= row < v.row_keys.len(),
        v.row_keys[row] is Some,
    ensures
        v.row_keys[row]->0.id != v.next_id(),
        v.with_new_row().pending_of(row) == v.pending_of(row),
{
    lemma_insert_id(v.next_insert as nat);
    assert(v.issued(v.row_keys[row]->0.id));
}

/// Edits follow their columns: what a column showed before a move, it shows where
/// it stands now, and moving it back brings back the grid as it was.
pub proof fn law_edits_follow_their_columns(
    v: GridView,
    row: int,
    column: usize,
    source: usize,
    target: usize,
)
    ensures
        v.with_moved_column(source, target).displayed(
            row,
            moved(column as int, source as int, target as int) as usize,
        ) == v.displayed(row, column),
        v.with_moved_column(source, target).with_moved_column(target, source) == v,
{
    lemma_moved_back(column as int, source as int, target as int);
    let back = v.with_moved_column(source, target).with_moved_column(target, source);
    assert forall|id: Seq<char>| #[trigger] v.pending.contains_key(id) implies back.pending[id]
        == v.pending[id] by {
        let edits = v.pending[id].edits;
        let twice = moved_edits(moved_edits(edits, source, target), target, source);
        assert forall|c: usize| #[trigger] twice.contains_key(c) == edits.contains_key(c) by {
            lemma_moved_back(c as int, source as int, target as int);
        }
        assert forall|c: usize| #[trigger] twice.contains_key(c) implies twice[c] == edits[c] by {
            lemma_moved_back(c as int, source as int, target as int);
        }
        assert(twice =~= edits);
        assert(back.pending[id] =~= v.pending[id]);
    }
    assert(back.pending =~= v.pending);
    assert(back =~= v);
}

/// After a clear nothing is pending, and the rows are those that were not
/// inserted.
pub proof fn law_clearing_leaves_no_change(v: GridView, row: int, column: usize)
    ensures
        v.cleared().displayed(row, column) is None,
        !v.cleared().is_inserted(row),
        !v.cleared().is_deleted(row),
        v.cleared().cleared() == v.cleared(),
{
    lemma_nothing_inserted(v.cleared(), v.cleared().row_keys.len());
    assert(v.cleared().cleared() =~= v.cleared());
}

proof fn lemma_nothing_inserted(v: GridView, n: nat)
    requires
        n <= v.row_keys.len(),
        v.pending == Map::<Seq<char>, PendingView>::empty(),
    ensures
        kept_keys(v, n) == v.row_keys.take(n as int),
        n == v.row_keys.len() ==> kept_keys(v, n) == v.row_keys,
    decreases n,
{
    if n > 0 {
        lemma_nothing_inserted(v, (n - 1) as nat);
        assert(v.row_keys.take(n as int) =~= v.row_keys.take(n - 1).push(v.row_keys[n - 1]));
    }
    assert(v.row_keys.take(v.row_keys.len() as int) =~= v.row_keys);
    assert(kept_keys(v, n) =~= v.row_keys.take(n as int));
}

/// Whether an assignment is the edit of one of the first `n` columns.
pub open spec fn is_edit(
    edits: Map<usize, Option<Seq<char>>>,
    columns: Seq<ColumnMeta>,
    n: nat,
    assignment: AssignmentView,
) -> bool {
    exists|column: usize|
        column < n && #[trigger] edits.contains_key(column) && assignment == (AssignmentView {
            column: columns[column as int].name@,
            value: edits[column],
        })
}

/// The assignments of a changed row are its edits, and no others.
pub proof fn law_a_change_carries_every_edit(
    edits: Map<usize, Option<Seq<char>>>,
    columns: Seq<ColumnMeta>,
    n: nat,
)
    requires
        n <= columns.len() <= usize::MAX,
    ensures
        forall|column: usize|
            column < n && #[trigger] edits.contains_key(column) ==> edits_to(
                edits,
                columns,
                n,
            ).contains(
                AssignmentView { column: columns[column as int].name@, value: edits[column] },
            ),
        forall|i: int|
            0 <= i < edits_to(edits, columns, n).len() ==> is_edit(
                edits,
                columns,
                n,
                #[trigger] edits_to(edits, columns, n)[i],
            ),
    decreases n,
{
    if n > 0 {
        law_a_change_carries_every_edit(edits, columns, (n - 1) as nat);
        let before = edits_to(edits, columns, (n - 1) as nat);
        let all = edits_to(edits, columns, n);
        assert forall|column: usize|
            column < n && #[trigger] edits.contains_key(column) implies all.contains(
            AssignmentView { column: columns[column as int].name@, value: edits[column] },
        ) by {
            let wanted = AssignmentView {
                column: columns[column as int].name@,
                value: edits[column],
            };
            if column < n - 1 {
                let at = choose|at: int| 0 <= at < before.len() && before[at] == wanted;
                assert(all[at] == wanted);
            } else {
                assert(all[all.len() - 1] == wanted);
            }
        }
        assert forall|i: int| 0 <= i < all.len() implies is_edit(
            edits,
            columns,
            n,
            #[trigger] all[i],
        ) by {
            if i < before.len() {
                assert(all[i] == before[i]);
                assert(is_edit(edits, columns, (n - 1) as nat, before[i]));
            } else {
                assert(edits.contains_key((n - 1) as usize));
            }
        }
    }
}

/// A commit changes the rows with pending changes, each once, and no others.
pub proof fn law_a_commit_carries_every_change(
    grid: EditableGrid,
    request: TableChangeRequest,
    columns: Seq<ColumnMeta>,
    id: Seq<char>,
)
    requires
        grid.wf(),
        requests(request, grid@, grid.pending_list(), columns),
    ensures
        grid@.pending.contains_key(id) == exists|i: int|
            0 <= i < request.changes@.len() && change_id((#[trigger] request.changes@[i])@) == id,
        forall|i: int|
            0 <= i < request.changes@.len() && change_id((#[trigger] request.changes@[i])@) == id
                ==> request.changes@[i]@ == change_of((id, grid@.pending[id]), columns),
        forall|i: int, j: int|
            0 <= i < j < request.changes@.len() ==> change_id((#[trigger] request.changes@[i])@)
                != change_id((#[trigger] request.changes@[j])@),
{
    let list = grid.pending_list();
    grid.lemma_pending_list();
    if grid@.pending.contains_key(id) {
        let i = choose|i: int| 0 <= i < list.len() && (#[trigger] list[i]).0 == id;
        assert(change_id(request.changes@[i]@) == id);
    }
    assert forall|i: int|
        0 <= i < request.changes@.len() && change_id((#[trigger] request.changes@[i])@)
            == id implies grid@.pending.contains_key(id) && request.changes@[i]@ == change_of(
        (id, grid@.pending[id]),
        columns,
    ) by {
        assert(list[i] == (id, grid@.pending[id]));
    }
    assert forall|i: int, j: int| 0 <= i < j < request.changes@.len() implies change_id(
        (#[trigger] request.changes@[i])@,
    ) != change_id((#[trigger] request.changes@[j])@) by {
        assert(text_before(list[i].0, list[j].0));
        crate::text::lemma_text_before_irreflexive(list[i].0);
    }
}

// ---------------------------------------------------------------------
// What a grid says of its rows
// ---------------------------------------------------------------------
/// What [`column_from`] is.
pub proof fn lemma_column_from(columns: Seq<ColumnMeta>, name: Seq<char>, from: int)
    requires
        0 <= from <= columns.len(),
    ensures
        match column_from(columns, name, from) {
            Some(at) => from <= at < columns.len() && columns[at].name@ == name && forall|j: int|
                from <= j < at ==> (#[trigger] columns[j]).name@ != name,
            None => forall|j: int| from <= j < columns.len() ==> (#[trigger] columns[j]).name@ != name,
        },
    decreases columns.len() - from,
{
    if from < columns.len() && columns[from].name@ != name {
        lemma_column_from(columns, name, from + 1);
    }
}

/// A column is found at the first place where its name stands, and nowhere else.
pub proof fn law_columns_are_found_where_they_first_stand(
    columns: &[ColumnMeta],
    name: &str,
    r: Option<usize>,
)
    requires
        call_ensures(locate_column, (columns, name), r),
    ensures
        r matches Some(at) ==> at < columns@.len() && columns@[at as int].name@ == name@ && forall|
            j: int,
        |
            0 <= j < at ==> (#[trigger] columns@[j]).name@ != name@,
        r is None ==> forall|j: int| 0 <= j < columns@.len() ==> (#[trigger] columns@[j]).name@ != name@,
{
    lemma_column_from(columns@, name@, 0);
}

/// A loaded row is known by the cells of its primary key: for each key column its
/// name, and the text of the row's cell under the first result column of that
/// name. The id is made of the same names and texts.
pub proof fn law_rows_are_known_by_their_key_cells(
    target: TableTarget,
    table: Table,
    result: &QueryResult,
    engine: Engine,
    grid: EditableGrid,
    row: int,
    i: int,
    at: int,
)
    requires
        call_ensures(EditableGrid::new_with_source_engine, (target, table, result, engine), grid),
        0 <= row < result.rows@.len(),
        grid@.key_of(row) is Some,
        0 <= i < table.primary_key@.len(),
        0 <= at < result.columns@.len(),
        result.columns@[at].name@ == table.primary_key@[i]@,
        forall|j: int|
            0 <= j < at ==> (#[trigger] result.columns@[j]).name@ != table.primary_key@[i]@,
    ensures
        ({
            let key = grid@.key_of(row)->0;
            &&& key.keys.len() == table.primary_key@.len()
            &&& key.keys[i].column == table.primary_key@[i]@
            &&& at < result.rows@[row]@.len()
            &&& result.rows@[row]@[at] is Null ==> key.keys[i].value is None
            &&& !(result.rows@[row]@[at] is Null) ==> key.keys[i].value == Some(
                plain_text(result.rows@[row]@[at]@),
            )
            &&& key.id == joined(
                Seq::new(
                    table.primary_key@.len(),
                    |k: int| table.primary_key@[k]@ + "="@ + debug_text(key.keys[k].value),
                ),
                "\u{1f}"@,
            )
        }),
{
    let name = table.primary_key@[i]@;
    let cells = result.rows@[row]@;
    lemma_column_from(result.columns@, name, 0);
    let found = column_from(result.columns@, name, 0)->0;
    if found < at {
        assert(result.columns@[found].name@ != name);
    } else if at < found {
        assert(result.columns@[at].name@ != name);
    }
    assert(grid@.row_keys[row] == row_key_of(table.primary_key@, result.columns@, cells));
    assert(key_assignment(result.columns@, cells, (table.primary_key@[i])@) is Some);
    let key = grid@.key_of(row)->0;
    assert forall|k: int| 0 <= k < table.primary_key@.len() implies (#[trigger] key.keys[k]).column
        == table.primary_key@[k]@ by {
        assert(key_assignment(result.columns@, cells, (table.primary_key@[k])@) is Some);
    }
    assert(key.keys.map_values(|k: AssignmentView| id_part(k)) =~= Seq::new(
        table.primary_key@.len(),
        |k: int| table.primary_key@[k]@ + "="@ + debug_text(key.keys[k].value),
    ));
}

/// A loaded row is known by a key exactly where the table has a primary key and
/// the row has a cell for each of its columns.
pub proof fn law_rows_with_all_key_cells_are_known(
    target: TableTarget,
    table: Table,
    result: &QueryResult,
    engine: Engine,
    grid: EditableGrid,
    row: int,
)
    requires
        call_ensures(EditableGrid::new_with_source_engine, (target, table, result, engine), grid),
        0 <= row < result.rows@.len(),
    ensures
        grid@.row_keys.len() == result.rows@.len(),
        grid@.pending_of(row) is None,
        grid@.target == target,
        grid@.table == table,
        grid@.source_engine == engine,
        grid@.key_of(row) is Some <==> {
            &&& table.primary_key@.len() > 0
            &&& forall|i: int|
                0 <= i < table.primary_key@.len() ==> exists|at: int|
                    {
                        &&& 0 <= at < result.columns@.len()
                        &&& at < result.rows@[row]@.len()
                        &&& (#[trigger] result.columns@[at]).name@ == (
                        #[trigger] table.primary_key@[i])@
                    }
        },
{
    let pk = table.primary_key@;
    let columns = result.columns@;
    let cells = result.rows@[row]@;
    assert(grid@.row_keys[row] == row_key_of(pk, columns, cells));
    assert forall|i: int| 0 <= i < pk.len() implies (key_assignment(columns, cells, (
    #[trigger] pk[i])@) is Some) == (exists|at: int|
        0 <= at < columns.len() && at < cells.len() && (#[trigger] columns[at]).name@ == pk[i]@) by {
        lemma_column_from(columns, pk[i]@, 0);
        if exists|at: int|
            0 <= at < columns.len() && at < cells.len() && (#[trigger] columns[at]).name@ == pk[i]@ {
            let at = choose|at: int|
                0 <= at < columns.len() && at < cells.len() && (#[trigger] columns[at]).name@
                    == pk[i]@;
            assert(columns[at].name@ == pk[i]@);
        }
    }
}

/// Rows that differ in the text of a key cell are known by different keys.
pub proof fn law_different_key_cells_make_different_keys(
    target: TableTarget,
    table: Table,
    result: &QueryResult,
    engine: Engine,
    grid: EditableGrid,
    a: int,
    b: int,
    i: int,
    at: int,
)
    requires
        call_ensures(EditableGrid::new_with_source_engine, (target, table, result, engine), grid),
        0 <= a < result.rows@.len(),
        0 <= b < result.rows@.len(),
        grid@.key_of(a) is Some,
        grid@.key_of(b) is Some,
        0 <= i < table.primary_key@.len(),
        0 <= at < result.columns@.len(),
        result.columns@[at].name@ == table.primary_key@[i]@,
        forall|j: int|
            0 <= j < at ==> (#[trigger] result.columns@[j]).name@ != table.primary_key@[i]@,
        !(result.rows@[a]@[at] is Null),
        result.rows@[b]@[at] is Null || plain_text(result.rows@[a]@[at]@) != plain_text(
            result.rows@[b]@[at]@,
        ),
    ensures
        grid@.key_of(a)->0.keys != grid@.key_of(b)->0.keys,
{
    law_rows_are_known_by_their_key_cells(target, table, result, engine, grid, a, i, at);
    law_rows_are_known_by_their_key_cells(target, table, result, engine, grid, b, i, at);
}

/// The only change of a grid is the only one in its list.
proof fn lemma_one_pending(grid: EditableGrid, id: Seq<char>)
    requires
        grid.wf(),
        forall|other: Seq<char>| #[trigger] grid@.pending.contains_key(other) <==> other == id,
    ensures
        grid.pending_list() == seq![(id, grid@.pending[id])],
{
    let list = grid.pending_list();
    grid.lemma_pending_list();
    assert(grid@.pending.contains_key(id));
    let at = choose|at: int| 0 <= at < list.len() && (#[trigger] list[at]).0 == id;
    assert forall|i: int| 0 <= i < list.len() && (#[trigger] list[i]).0 == id implies i == at by {
        if i < at {
            assert(text_before(list[i].0, list[at].0));
            crate::text::lemma_text_before_irreflexive(id);
        } else if at < i {
            assert(text_before(list[at].0, list[i].0));
            crate::text::lemma_text_before_irreflexive(id);
        }
    }
    assert(list.len() == 1) by {
        if list.len() > 1 {
            let other = if at == 0 {
                1int
            } else {
                0int
            };
            assert(grid@.pending.contains_key(list[other].0));
        }
    }
    assert(list =~= seq![(id, grid@.pending[id])]);
}

proof fn lemma_one_edit(
    column: usize,
    value: Option<Seq<char>>,
    edits: Map<usize, Option<Seq<char>>>,
    columns: Seq<ColumnMeta>,
    n: nat,
)
    requires
        n <= columns.len() <= usize::MAX,
        forall|c: usize| #[trigger] edits.contains_key(c) <==> c == column,
        edits[column] == value,
    ensures
        edits_to(edits, columns, n) == if column < n {
            seq![AssignmentView { column: columns[column as int].name@, value }]
        } else {
            Seq::empty()
        },
    decreases n,
{
    if n > 0 {
        lemma_one_edit(column, value, edits, columns, (n - 1) as nat);
        if column == n - 1 {
            assert(edits_to(edits, columns, n) =~= seq![
                AssignmentView { column: columns[column as int].name@, value },
            ]);
        }
    }
}

/// An edited cell of a loaded row becomes the one change of a commit: an update
/// of the named column to the value, in the row whose key cells are those of the
/// loaded row.
pub proof fn law_an_edit_updates_the_row_it_was_made_in(
    target: TableTarget,
    table: Table,
    result: &QueryResult,
    engine: Engine,
    grid: EditableGrid,
    edited: EditableGrid,
    row: int,
    column: usize,
    value: Option<Seq<char>>,
    request: TableChangeRequest,
    i: int,
    at: int,
)
    requires
        call_ensures(EditableGrid::new_with_source_engine, (target, table, result, engine), grid),
        0 <= row < result.rows@.len(),
        grid@.key_of(row) is Some,
        column < result.columns@.len() <= usize::MAX,
        column < result.rows@[row]@.len(),
        result.rows@[row]@[column as int] is Null ==> value is Some,
        !(result.rows@[row]@[column as int] is Null) ==> value != Some(
            plain_text(result.rows@[row]@[column as int]@),
        ),
        edited.wf(),
        edited@ == grid@.edited(row, column, value, result.rows@[row]@[column as int]@),
        call_ensures(EditableGrid::request, (&edited, result), request),
        0 <= i < table.primary_key@.len(),
        0 <= at < result.columns@.len(),
        result.columns@[at].name@ == table.primary_key@[i]@,
        forall|j: int|
            0 <= j < at ==> (#[trigger] result.columns@[j]).name@ != table.primary_key@[i]@,
    ensures
        request.changes@.len() == 1,
        request.changes@[0] matches RowChange::Update { keys, edits, .. } && {
            &&& edits@.len() == 1
            &&& edits@[0].column@ == result.columns@[column as int].name@
            &&& opt_text(edits@[0].value.value) == value
            &&& keys@.len() == table.primary_key@.len()
            &&& keys@[i].column@ == table.primary_key@[i]@
            &&& result.rows@[row]@[at] is Null ==> keys@[i].value.value is None
            &&& !(result.rows@[row]@[at] is Null) ==> (keys@[i].value.value matches Some(text)
                && text@ == plain_text(result.rows@[row]@[at]@))
        },
        request.database matches Some(name) && name@ == target.database@,
        request.schema@ == target.schema@,
        request.table@ == target.table@,
{
    law_rows_are_known_by_their_key_cells(target, table, result, engine, grid, row, i, at);
    let key = grid@.key_of(row)->0;
    let change = edited@.pending[key.id];
    lemma_one_pending(edited, key.id);
    lemma_one_edit(column, value, change.edits, result.columns@, result.columns@.len());
    assert(request.changes@[0]@ == change_of(edited.pending_list()[0], result.columns@));
    if let RowChange::Update { row_id, keys, edits } = request.changes@[0] {
        assert(assignment_views(keys@) == key.keys);
        assert(assignment_views(edits@).len() == edits@.len());
        assert(assignment_views(edits@)[0] == edits@[0]@);
        assert(assignment_views(keys@).len() == keys@.len());
        assert(assignment_views(keys@)[i] == keys@[i]@);
    }
}

/// A loaded row that is marked for deletion becomes the one change of a commit: a
/// deletion of the row whose key cells are those of the loaded row.
pub proof fn law_a_mark_deletes_the_row_it_was_made_on(
    target: TableTarget,
    table: Table,
    result: &QueryResult,
    engine: Engine,
    grid: EditableGrid,
    marked: EditableGrid,
    row: int,
    request: TableChangeRequest,
    i: int,
    at: int,
)
    requires
        call_ensures(EditableGrid::new_with_source_engine, (target, table, result, engine), grid),
        0 <= row < result.rows@.len(),
        grid@.key_of(row) is Some,
        marked.wf(),
        marked@ == grid@.toggled_delete(row),
        call_ensures(EditableGrid::request, (&marked, result), request),
        0 <= i < table.primary_key@.len(),
        0 <= at < result.columns@.len(),
        result.columns@[at].name@ == table.primary_key@[i]@,
        forall|j: int|
            0 <= j < at ==> (#[trigger] result.columns@[j]).name@ != table.primary_key@[i]@,
    ensures
        request.changes@.len() == 1,
        request.changes@[0] matches RowChange::Delete { keys, .. } && {
            &&& keys@.len() == table.primary_key@.len()
            &&& keys@[i].column@ == table.primary_key@[i]@
            &&& result.rows@[row]@[at] is Null ==> keys@[i].value.value is None
            &&& !(result.rows@[row]@[at] is Null) ==> (keys@[i].value.value matches Some(text)
                && text@ == plain_text(result.rows@[row]@[at]@))
        },
{
    law_rows_are_known_by_their_key_cells(target, table, result, engine, grid, row, i, at);
    let key = grid@.key_of(row)->0;
    lemma_one_pending(marked, key.id);
    assert(request.changes@[0]@ == change_of(marked.pending_list()[0], result.columns@));
    if let RowChange::Delete { row_id, keys } = request.changes@[0] {
        assert(assignment_views(keys@) == key.keys);
        assert(assignment_views(keys@).len() == keys@.len());
        assert(assignment_views(keys@)[i] == keys@[i]@);
    }
}

/// A new row stands last, under a number of its own, and is inserted and empty:
/// no cell of it has a text, and it has no key.
pub proof fn law_a_new_row_is_last_and_empty(v: GridView, column: usize)
    requires
        v.next_insert < u64::MAX,
    ensures
        ({
            let now = v.with_new_row();
            let row = v.row_keys.len() as int;
            &&& now.row_keys.len() == v.row_keys.len() + 1
            &&& now.row_keys.drop_last() == v.row_keys
            &&& now.key_of(row) matches Some(key)
            &&& key.id == "insert:"@ + nat_text(v.next_insert as nat)
            &&& key.keys.len() == 0
            &&& now.is_inserted(row)
            &&& !now.is_deleted(row)
            &&& now.displayed(row, column) is None
            &&& now.next_insert == v.next_insert + 1
            &&& now.target == v.target
            &&& now.table == v.table
            &&& now.source_engine == v.source_engine
        }),
{
    assert(v.with_new_row().row_keys.drop_last() =~= v.row_keys);
}

/// A mark for deletion drops what was typed into the row, keeps the rows and
/// their keys, and leaves the rows of other keys alone.
pub proof fn law_a_mark_is_on_its_row_alone(v: GridView, row: int, other: int, column: usize)
    requires
        v.key_of(row) is Some,
        !v.is_inserted(row),
        !v.is_deleted(row),
        v.key_of(other) is Some ==> v.key_of(other)->0.id != v.key_of(row)->0.id,
    ensures
        v.toggled_delete(row).is_deleted(row),
        !v.toggled_delete(row).is_inserted(row),
        v.toggled_delete(row).displayed(row, column) is None,
        v.toggled_delete(row).pending_of(row)->0.keys == v.key_of(row)->0.keys,
        v.toggled_delete(row).row_keys == v.row_keys,
        v.toggled_delete(row).pending_of(other) == v.pending_of(other),
        v.toggled_delete(row).next_insert == v.next_insert,
{
}

/// An edit changes the one cell: every other cell of the row shows what it
/// showed, and the row is inserted or deleted where it was.
pub proof fn law_an_edit_is_of_one_cell(
    v: GridView,
    row: int,
    column: usize,
    value: Option<Seq<char>>,
    before: ValueView,
    other: usize,
)
    requires
        other != column,
    ensures
        v.edited(row, column, value, before).displayed(row, other) == v.displayed(row, other),
        v.edited(row, column, value, before).is_inserted(row) == v.is_inserted(row),
        v.edited(row, column, value, before).is_deleted(row) == v.is_deleted(row),
        v.edited(row, column, value, before).next_insert == v.next_insert,
        v.reverted(row, column).displayed(row, column) is None,
        v.reverted(row, column).displayed(row, other) == v.displayed(row, other),
        v.reverted(row, column).is_inserted(row) == v.is_inserted(row),
        v.reverted(row, column).is_deleted(row) == v.is_deleted(row),
{
    if let Some(change) = v.pending_of(row) {
        let left = change.edits.remove(column);
        assert(left.contains_key(other) == change.edits.contains_key(other));
    }
}

proof fn lemma_marked_rows(v: GridView, n: nat)
    requires
        n <= usize::MAX,
    ensures
        forall|row: usize| #[trigger]
            inserted_among(v, n).contains(row) <==> row < n && v.is_inserted(row as int),
        forall|row: usize| #[trigger]
            deleted_among(v, n).contains(row) <==> row < n && v.is_deleted(row as int),
        forall|i: int, j: int|
            0 <= i < j < inserted_among(v, n).len() ==> #[trigger] inserted_among(v, n)[i]
                < #[trigger] inserted_among(v, n)[j],
        forall|i: int, j: int|
            0 <= i < j < deleted_among(v, n).len() ==> #[trigger] deleted_among(v, n)[i]
                < #[trigger] deleted_among(v, n)[j],
    decreases n,
{
    if n > 0 {
        let m = (n - 1) as nat;
        lemma_marked_rows(v, m);
        let a = inserted_among(v, m);
        let b = deleted_among(v, m);
        let na = inserted_among(v, n);
        let nb = deleted_among(v, n);
        assert forall|row: usize| #[trigger] na.contains(row) <==> row < n && v.is_inserted(
            row as int,
        ) by {
            if a.contains(row) {
                let k = choose|k: int| 0 <= k < a.len() && a[k] == row;
                assert(na[k] == row);
            } else if row == m && v.is_inserted(m as int) {
                assert(na[na.len() - 1] == row);
            } else if na.contains(row) {
                let k = choose|k: int| 0 <= k < na.len() && na[k] == row;
                assert(k < a.len());
                assert(a[k] == row);
            }
        }
        assert forall|row: usize| #[trigger] nb.contains(row) <==> row < n && v.is_deleted(
            row as int,
        ) by {
            if b.contains(row) {
                let k = choose|k: int| 0 <= k < b.len() && b[k] == row;
                assert(nb[k] == row);
            } else if row == m && v.is_deleted(m as int) {
                assert(nb[nb.len() - 1] == row);
            } else if nb.contains(row) {
                let k = choose|k: int| 0 <= k < nb.len() && nb[k] == row;
                assert(k < b.len());
                assert(b[k] == row);
            }
        }
        assert forall|i: int| 0 <= i < a.len() implies #[trigger] a[i] < m by {
            assert(a.contains(a[i]));
        }
        assert forall|i: int| 0 <= i < b.len() implies #[trigger] b[i] < m by {
            assert(b.contains(b[i]));
        }
    }
}

/// The inserted rows and the deleted rows of a grid are the rows that are so
/// marked, each once and in their order.
pub proof fn law_marked_rows_are_listed(
    grid: &EditableGrid,
    inserted: Vec<usize>,
    deleted: Vec<usize>,
    row: usize,
    is_inserted: bool,
    is_deleted: bool,
)
    requires
        grid.wf(),
        grid@.row_keys.len() <= usize::MAX,
        call_ensures(EditableGrid::inserted_rows, (grid,), inserted),
        call_ensures(EditableGrid::deleted_rows, (grid,), deleted),
        row < grid@.row_keys.len(),
        call_ensures(EditableGrid::row_inserted, (grid, row), is_inserted),
        call_ensures(EditableGrid::row_deleted, (grid, row), is_deleted),
    ensures
        inserted@.contains(row) <==> is_inserted,
        deleted@.contains(row) <==> is_deleted,
        forall|i: int, j: int|
            0 <= i < j < inserted@.len() ==> #[trigger] inserted@[i] < #[trigger] inserted@[j],
        forall|i: int, j: int|
            0 <= i < j < deleted@.len() ==> #[trigger] deleted@[i] < #[trigger] deleted@[j],
{
    lemma_marked_rows(grid@, grid@.row_keys.len());
}

/// A row counts once where it is inserted or deleted, else once for each edited
/// cell. Counting goes row by row.
pub proof fn law_changes_count_row_by_row(
    v: GridView,
    id: Seq<char>,
    change: PendingView,
)
    requires
        v.pending.dom().finite(),
        !v.pending.contains_key(id),
    ensures
        v.pending.dom().len() == 0 ==> v.change_count() == 0,
        v.with_pending(id, change).change_count() == v.change_count() + if change.inserted
            || change.deleted {
            1
        } else {
            change.edits.dom().len()
        },
{
    let more = v.pending.insert(id, change);
    lemma_total_weight(more, id);
    assert(more.remove(id) =~= v.pending);
}

/// After a clear the loaded rows are left in their order.
pub proof fn law_clearing_keeps_the_loaded_rows(v: GridView)
    ensures
        (forall|row: int| 0 <= row < v.row_keys.len() ==> !v.is_inserted(row))
            ==> v.cleared().row_keys == v.row_keys,
        v.cleared().target == v.target,
        v.cleared().table == v.table,
        v.cleared().source_engine == v.source_engine,
        v.cleared().next_insert == v.next_insert,
        v.row_keys.len() > 0 && v.is_inserted(v.row_keys.len() - 1) ==> v.cleared().row_keys
            == kept_keys(v, (v.row_keys.len() - 1) as nat),
        forall|i: int|
            0 <= i < v.cleared().row_keys.len() ==> exists|row: int|
                0 <= row < v.row_keys.len() && !v.is_inserted(row) && (#[trigger] v.row_keys[row]) == (
                #[trigger] v.cleared().row_keys[i]),
        forall|row: int|
            0 <= row < v.row_keys.len() && !v.is_inserted(row) ==> v.cleared().row_keys.contains(
                #[trigger] v.row_keys[row],
            ),
{
    lemma_kept_rows(v, v.row_keys.len());
    if forall|row: int| 0 <= row < v.row_keys.len() ==> !v.is_inserted(row) {
        lemma_all_rows_kept(v, v.row_keys.len());
        assert(v.row_keys.take(v.row_keys.len() as int) =~= v.row_keys);
    }
}

proof fn lemma_all_rows_kept(v: GridView, n: nat)
    requires
        n <= v.row_keys.len(),
        forall|row: int| 0 <= row < v.row_keys.len() ==> !v.is_inserted(row),
    ensures
        kept_keys(v, n) == v.row_keys.take(n as int),
    decreases n,
{
    if n > 0 {
        lemma_all_rows_kept(v, (n - 1) as nat);
        assert(!v.is_inserted(n - 1));
    }
    assert(kept_keys(v, n) =~= v.row_keys.take(n as int));
}

proof fn lemma_kept_rows(v: GridView, n: nat)
    requires
        n <= v.row_keys.len(),
    ensures
        forall|i: int|
            0 <= i < kept_keys(v, n).len() ==> exists|row: int|
                0 <= row < n && !v.is_inserted(row) && (#[trigger] v.row_keys[row]) == (
                #[trigger] kept_keys(v, n)[i]),
        forall|row: int|
            0 <= row < n && !v.is_inserted(row) ==> kept_keys(v, n).contains(
                #[trigger] v.row_keys[row],
            ),
    decreases n,
{
    if n > 0 {
        let m = (n - 1) as nat;
        lemma_kept_rows(v, m);
        let before = kept_keys(v, m);
        let all = kept_keys(v, n);
        assert forall|i: int| 0 <= i < all.len() implies exists|row: int|
            0 <= row < n && !v.is_inserted(row) && (#[trigger] v.row_keys[row]) == (
            #[trigger] all[i]) by {
            if i < before.len() {
                assert(all[i] == before[i]);
            } else {
                assert(all[i] == v.row_keys[n - 1]);
            }
        }
        assert forall|row: int| 0 <= row < n && !v.is_inserted(row) implies all.contains(
            #[trigger] v.row_keys[row],
        ) by {
            if row < m {
                let k = choose|k: int| 0 <= k < before.len() && before[k] == v.row_keys[row];
                assert(all[k] == v.row_keys[row]);
            } else {
                assert(all[all.len() - 1] == v.row_keys[row]);
            }
        }
    }
}

/// A commit is asked of the table of the grid, and describes its columns as they
/// are.
pub proof fn law_commits_name_the_table_of_the_grid(
    grid: &EditableGrid,
    result: &QueryResult,
    request: TableChangeRequest,
    i: int,
)
    requires
        grid.wf(),
        call_ensures(EditableGrid::request, (grid, result), request),
        0 <= i < grid@.table.columns@.len(),
    ensures
        request.database matches Some(name) && name@ == grid@.target.database@,
        request.schema@ == grid@.target.schema@,
        request.table@ == grid@.target.table@,
        request.primary_key@ == grid@.table.primary_key@,
        request.columns@.len() == grid@.table.columns@.len(),
        request.columns@[i].name == grid@.table.columns@[i].name,
        request.columns@[i].data_type == grid@.table.columns@[i].data_type,
        request.columns@[i].nullable == grid@.table.columns@[i].nullable,
{
    assert(request.columns@[i].name == grid@.table.columns@[i].name);
}

/// The flags of a column tell whether it is in the primary key, and whether in a
/// foreign key.
pub proof fn law_flags_tell_the_keys_of_a_column(grid: &EditableGrid, name: &str, r: (bool, bool))
    requires
        call_ensures(EditableGrid::column_flags, (grid, name), r),
    ensures
        r.0 <==> exists|i: int|
            0 <= i < grid@.table.primary_key@.len() && (#[trigger] grid@.table.primary_key@[i])@
                == name@,
        r.1 <==> exists|k: int, c: int|
            {
                &&& 0 <= k < grid@.table.foreign_keys@.len()
                &&& 0 <= c < grid@.table.foreign_keys@[k].columns@.len()
                &&& (#[trigger] grid@.table.foreign_keys@[k].columns@[c])@ == name@
            },
{
    let keys = grid@.table.foreign_keys@;
    if in_foreign_key(keys, name@) {
        let k = choose|k: int| 0 <= k < keys.len() && among((#[trigger] keys[k]).columns@, name@);
        let c = choose|c: int|
            0 <= c < keys[k].columns@.len() && (#[trigger] keys[k].columns@[c])@ == name@;
        assert(keys[k].columns@[c]@ == name@);
    }
    if exists|k: int, c: int|
        0 <= k < keys.len() && 0 <= c < keys[k].columns@.len() && (
        #[trigger] keys[k].columns@[c])@ == name@ {
        let (k, c) = choose|k: int, c: int|
            0 <= k < keys.len() && 0 <= c < keys[k].columns@.len() && (
            #[trigger] keys[k].columns@[c])@ == name@;
        assert(among(keys[k].columns@, name@));
    }
}

/// The texts that all cells show are those that each shows.
pub proof fn law_all_shown_texts_are_those_of_the_cells(
    grid: &EditableGrid,
    all: OrderedMap<(usize, usize), Option<String>>,
    row: usize,
    column: usize,
    one: Option<Option<String>>,
    can_edit: bool,
)
    requires
        grid.wf(),
        call_ensures(EditableGrid::display_values, (grid,), all),
        call_ensures(EditableGrid::display_value, (grid, row, column), one),
        call_ensures(EditableGrid::can_edit, (grid,), can_edit),
    ensures
        all.map().contains_key((row, column)) <==> one is Some,
        one matches Some(text) ==> opt_text(all.map()[(row, column)]) == opt_text(text),
        can_edit <==> grid@.table.primary_key@.len() > 0,
{
    if let Some(text) = one {
        assert(shown(one) == Some(opt_text(text)));
        assert(all.map().contains_key((row, column)));
        assert(Some(opt_text(all.map()[(row, column)])) == grid@.displayed(row as int, column));
    }
}

} // verus!
