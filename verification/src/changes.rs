//! The changes of a table that a commit carries.
use vstd::prelude::*;

use crate::schema::{copy_opt, Column};
use crate::value::opt_text;

verus! {

/// The text of a value in a change; nothing for NULL.
#[derive(PartialEq, Eq, Debug)]
pub struct DiffValue {
    pub value: Option<String>,
}

/// A column and the value that it has or gets.
#[derive(PartialEq, Eq, Debug)]
pub struct CellAssignment {
    pub column: String,
    pub value: DiffValue,
}

/// The model of [`CellAssignment`].
pub struct AssignmentView {
    pub column: Seq<char>,
    pub value: Option<Seq<char>>,
}

impl Clone for DiffValue {
    fn clone(&self) -> (r: Self)
        ensures
            r == *self,
    {
        DiffValue { value: copy_opt(&self.value) }
    }
}

impl Clone for CellAssignment {
    fn clone(&self) -> (r: Self)
        ensures
            r == *self,
    {
        CellAssignment { column: self.column.clone(), value: self.value.clone() }
    }
}

impl View for CellAssignment {
    type V = AssignmentView;

    open spec fn view(&self) -> AssignmentView {
        AssignmentView { column: self.column@, value: opt_text(self.value.value) }
    }
}

pub open spec fn assignment_views(list: Seq<CellAssignment>) -> Seq<AssignmentView> {
    list.map_values(|a: CellAssignment| a@)
}

/// A copy of a list of assignments.
pub fn copy_assignments(list: &[CellAssignment]) -> (r: Vec<CellAssignment>)
    ensures
        r@ == list@,
{
    let mut out: Vec<CellAssignment> = Vec::new();
    let mut i: usize = 0;
    while i < list.len()
        invariant
            i <= list@.len(),
            out@ == list@.take(i as int),
        decreases list@.len() - i,
    {
        out.push(list[i].clone());
        assert(out@ =~= list@.take(i as int + 1));
        i += 1;
    }
    assert(list@.take(list@.len() as int) =~= list@);
    out
}

/// A change of one row. Rows are found by the values of their primary key.
#[derive(PartialEq, Eq, Debug)]
pub enum RowChange {
    Insert { row_id: String, values: Vec<CellAssignment> },
    Update { row_id: String, keys: Vec<CellAssignment>, edits: Vec<CellAssignment> },
    Delete { row_id: String, keys: Vec<CellAssignment> },
}

/// The model of [`RowChange`].
pub enum RowChangeView {
    Insert { row_id: Seq<char>, values: Seq<AssignmentView> },
    Update { row_id: Seq<char>, keys: Seq<AssignmentView>, edits: Seq<AssignmentView> },
    Delete { row_id: Seq<char>, keys: Seq<AssignmentView> },
}

impl View for RowChange {
    type V = RowChangeView;

    open spec fn view(&self) -> RowChangeView {
        match self {
            RowChange::Insert { row_id, values } => RowChangeView::Insert {
                row_id: row_id@,
                values: assignment_views(values@),
            },
            RowChange::Update { row_id, keys, edits } => RowChangeView::Update {
                row_id: row_id@,
                keys: assignment_views(keys@),
                edits: assignment_views(edits@),
            },
            RowChange::Delete { row_id, keys } => RowChangeView::Delete {
                row_id: row_id@,
                keys: assignment_views(keys@),
            },
        }
    }
}

/// A column as a commit needs it.
#[derive(PartialEq, Eq, Debug)]
pub struct DiffColumn {
    pub name: String,
    pub data_type: String,
    pub nullable: bool,
}

/// The changes of a table.
#[derive(PartialEq, Eq, Debug)]
pub struct TableChangeRequest {
    pub database: Option<String>,
    pub schema: String,
    pub table: String,
    pub primary_key: Vec<String>,
    pub columns: Vec<DiffColumn>,
    pub changes: Vec<RowChange>,
}

/// Whether `list` are the columns as a commit needs them.
pub open spec fn describes(list: Seq<DiffColumn>, columns: Seq<Column>) -> bool {
    &&& list.len() == columns.len()
    &&& forall|i: int|
        0 <= i < list.len() ==> (#[trigger] list[i]).name == columns[i].name && list[i].data_type
            == columns[i].data_type && list[i].nullable == columns[i].nullable
}

pub fn diff_columns(columns: &[Column]) -> (r: Vec<DiffColumn>)
    ensures
        describes(r@, columns@),
{
    let mut out: Vec<DiffColumn> = Vec::new();
    let mut i: usize = 0;
    while i < columns.len()
        invariant
            i <= columns@.len(),
            out@.len() == i,
            forall|j: int|
                0 <= j < i ==> (#[trigger] out@[j]).name == columns@[j].name && out@[j].data_type
                    == columns@[j].data_type && out@[j].nullable == columns@[j].nullable,
        decreases columns@.len() - i,
    {
        out.push(
            DiffColumn {
                name: columns[i].name.clone(),
                data_type: columns[i].data_type.clone(),
                nullable: columns[i].nullable,
            },
        );
        i += 1;
    }
    out
}

} // verus!
