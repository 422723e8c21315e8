//! The tree of databases, schemas, tables and views that a connection shows.
use vstd::prelude::*;

use crate::text::same_text;

verus! {

/// A column of a table or view.
#[derive(PartialEq, Eq, Debug)]
pub struct Column {
    pub name: String,
    pub data_type: String,
    pub nullable: bool,
    pub default: Option<String>,
    pub is_primary_key: bool,
    pub ordinal: u32,
    pub comment: Option<String>,
}

/// A foreign key: its columns, and the columns of the table they refer to.
#[derive(PartialEq, Eq, Debug)]
pub struct ForeignKey {
    pub name: String,
    pub columns: Vec<String>,
    pub referenced_schema: String,
    pub referenced_table: String,
    pub referenced_columns: Vec<String>,
}

/// An index.
#[derive(PartialEq, Eq, Debug)]
pub struct Index {
    pub name: String,
    pub columns: Vec<String>,
    pub unique: bool,
    pub primary: bool,
}

/// A table.
#[derive(PartialEq, Eq, Debug)]
pub struct Table {
    pub name: String,
    pub schema: String,
    pub row_count: Option<u64>,
    pub columns: Vec<Column>,
    pub primary_key: Vec<String>,
    pub foreign_keys: Vec<ForeignKey>,
    pub indexes: Vec<Index>,
}

/// A view.
#[derive(PartialEq, Eq, Debug)]
pub struct ViewDefinition {
    pub name: String,
    pub schema: String,
    pub columns: Vec<Column>,
    pub definition: Option<String>,
}

/// A schema: its tables and views.
#[derive(PartialEq, Eq, Debug)]
pub struct Schema {
    pub name: String,
    pub tables: Vec<Table>,
    pub views: Vec<ViewDefinition>,
}

/// A database: its schemas.
#[derive(PartialEq, Eq, Debug)]
pub struct Database {
    pub name: String,
    pub is_default: bool,
    pub schemas: Vec<Schema>,
}

/// A copy of an optional text.
pub fn copy_opt(text: &Option<String>) -> (r: Option<String>)
    ensures
        r == *text,
{
    match text {
        Some(t) => Some(t.clone()),
        None => None,
    }
}

impl Clone for Column {
    fn clone(&self) -> (r: Self)
        ensures
            r == *self,
    {
        Column {
            name: self.name.clone(),
            data_type: self.data_type.clone(),
            nullable: self.nullable,
            default: copy_opt(&self.default),
            is_primary_key: self.is_primary_key,
            ordinal: self.ordinal,
            comment: copy_opt(&self.comment),
        }
    }
}

/// A copy of a list of texts.
pub fn copy_texts(list: &[String]) -> (r: Vec<String>)
    ensures
        r@ == list@,
{
    let mut out: Vec<String> = Vec::new();
    let mut i: usize = 0;
    while i < list.len()
        invariant
            i <= list@.len(),
            out@ == list@.take(i as int),
        decreases list@.len() - i,
    {
        out.push(list[i].clone());
        assert(out@ =~= list@.take(i as int + 1));
        i += 1;
    }
    assert(list@.take(list@.len() as int) =~= list@);
    out
}

/// Whether a text is among a list of texts.
pub open spec fn among(list: Seq<String>, text: Seq<char>) -> bool {
    exists|i: int| 0 <= i < list.len() && (#[trigger] list[i])@ == text
}

pub fn is_among(list: &[String], text: &str) -> (r: bool)
    ensures
        r == among(list@, text@),
{
    let mut i: usize = 0;
    while i < list.len()
        invariant
            i <= list@.len(),
            forall|j: int| 0 <= j < i ==> (#[trigger] list@[j])@ != text@,
        decreases list@.len() - i,
    {
        if same_text(list[i].as_str(), text) {
            return true;
        }
        i += 1;
    }
    false
}

/// The columns, those of the primary key marked.
pub fn mark_primary_keys(columns: Vec<Column>, primary_key: &[String]) -> (r: Vec<Column>)
    ensures
        r@.len() == columns@.len(),
        forall|i: int|
            0 <= i < r@.len() ==> (#[trigger] r@[i]) == (Column {
                is_primary_key: among(primary_key@, columns@[i].name@),
                ..columns@[i]
            }),
{
    let mut out: Vec<Column> = Vec::new();
    let mut i: usize = 0;
    while i < columns.len()
        invariant
            i <= columns@.len(),
            out@.len() == i,
            forall|j: int|
                0 <= j < i ==> (#[trigger] out@[j]) == (Column {
                    is_primary_key: among(primary_key@, columns@[j].name@),
                    ..columns@[j]
                }),
        decreases columns@.len() - i,
    {
        let mut column = columns[i].clone();
        column.is_primary_key = is_among(primary_key, column.name.as_str());
        out.push(column);
        i += 1;
    }
    out
}

// ---------------------------------------------------------------------
// Finding
// ---------------------------------------------------------------------
/// The first database with this name.
pub open spec fn database_named(list: Seq<Database>, name: Seq<char>) -> Option<Database>
    decreases list.len(),
{
    if list.len() == 0 {
        None
    } else if list[0].name@ == name {
        Some(list[0])
    } else {
        database_named(list.skip(1), name)
    }
}

/// The first schema with this name.
pub open spec fn schema_named(list: Seq<Schema>, name: Seq<char>) -> Option<Schema>
    decreases list.len(),
{
    if list.len() == 0 {
        None
    } else if list[0].name@ == name {
        Some(list[0])
    } else {
        schema_named(list.skip(1), name)
    }
}

/// The first table with this name.
pub open spec fn table_named(list: Seq<Table>, name: Seq<char>) -> Option<Table>
    decreases list.len(),
{
    if list.len() == 0 {
        None
    } else if list[0].name@ == name {
        Some(list[0])
    } else {
        table_named(list.skip(1), name)
    }
}

/// The table that a database, schema and table name lead to.
pub open spec fn table_at(
    list: Seq<Database>,
    database: Seq<char>,
    schema: Seq<char>,
    table: Seq<char>,
) -> Option<Table> {
    match database_named(list, database) {
        None => None,
        Some(d) => match schema_named(d.schemas@, schema) {
            None => None,
            Some(s) => table_named(s.tables@, table),
        },
    }
}

/// The value behind an optional reference.
pub open spec fn deref<T>(r: Option<&T>) -> Option<T> {
    match r {
        Some(t) => Some(*t),
        None => None,
    }
}

pub fn find_database<'a>(list: &'a [Database], name: &str) -> (r: Option<&'a Database>)
    ensures
        deref(r) == database_named(list@, name@),
{
    let mut i: usize = 0;
    assert(list@.skip(0) =~= list@);
    while i < list.len()
        invariant
            i <= list@.len(),
            database_named(list@.skip(i as int), name@) == database_named(list@, name@),
        decreases list@.len() - i,
    {
        if same_text(list[i].name.as_str(), name) {
            return Some(&list[i]);
        }
        assert(list@.skip(i as int).skip(1) =~= list@.skip(i as int + 1));
        i += 1;
    }
    None
}

pub fn find_schema<'a>(list: &'a [Schema], name: &str) -> (r: Option<&'a Schema>)
    ensures
        deref(r) == schema_named(list@, name@),
{
    let mut i: usize = 0;
    assert(list@.skip(0) =~= list@);
    while i < list.len()
        invariant
            i <= list@.len(),
            schema_named(list@.skip(i as int), name@) == schema_named(list@, name@),
        decreases list@.len() - i,
    {
        if same_text(list[i].name.as_str(), name) {
            return Some(&list[i]);
        }
        assert(list@.skip(i as int).skip(1) =~= list@.skip(i as int + 1));
        i += 1;
    }
    None
}

fn find_table_named<'a>(list: &'a [Table], name: &str) -> (r: Option<&'a Table>)
    ensures
        deref(r) == table_named(list@, name@),
{
    let mut i: usize = 0;
    assert(list@.skip(0) =~= list@);
    while i < list.len()
        invariant
            i <= list@.len(),
            table_named(list@.skip(i as int), name@) == table_named(list@, name@),
        decreases list@.len() - i,
    {
        if same_text(list[i].name.as_str(), name) {
            return Some(&list[i]);
        }
        assert(list@.skip(i as int).skip(1) =~= list@.skip(i as int + 1));
        i += 1;
    }
    None
}

/// The table that a database, schema and table name lead to.
pub fn find_table<'a>(list: &'a [Database], database: &str, schema: &str, table: &str) -> (r: Option<
    &'a Table,
>)
    ensures
        deref(r) == table_at(list@, database@, schema@, table@),
{
    match find_database(list, database) {
        None => None,
        Some(d) => match find_schema(d.schemas.as_slice(), schema) {
            None => None,
            Some(s) => find_table_named(s.tables.as_slice(), table),
        },
    }
}

/// Whether some column has this name.
pub open spec fn has_column(columns: Seq<Column>, name: Seq<char>) -> bool {
    exists|i: int| 0 <= i < columns.len() && (#[trigger] columns[i]).name@ == name
}

/// The position of the first column with this name.
pub fn column_position(columns: &[Column], name: &str) -> (r: Option<usize>)
    ensures
        r is Some == has_column(columns@, name@),
        r matches Some(at) ==> {
            &&& at < columns@.len()
            &&& columns@[at as int].name@ == name@
            &&& forall|i: int| 0 <= i < at ==> (#[trigger] columns@[i]).name@ != name@
        },
{
    let mut i: usize = 0;
    while i < columns.len()
        invariant
            i <= columns@.len(),
            forall|j: int| 0 <= j < i ==> (#[trigger] columns@[j]).name@ != name@,
        decreases columns@.len() - i,
    {
        if same_text(columns[i].name.as_str(), name) {
            return Some(i);
        }
        i += 1;
    }
    None
}

// ---------------------------------------------------------------------
// Copies
// ---------------------------------------------------------------------
/// Whether two foreign keys are the same.
pub open spec fn same_key(a: ForeignKey, b: ForeignKey) -> bool {
    &&& a.name == b.name
    &&& a.columns@ == b.columns@
    &&& a.referenced_schema == b.referenced_schema
    &&& a.referenced_table == b.referenced_table
    &&& a.referenced_columns@ == b.referenced_columns@
}

/// Whether two indexes are the same.
pub open spec fn same_index(a: Index, b: Index) -> bool {
    &&& a.name == b.name
    &&& a.columns@ == b.columns@
    &&& a.unique == b.unique
    &&& a.primary == b.primary
}

/// Whether two tables are the same.
pub open spec fn same_table(a: Table, b: Table) -> bool {
    &&& a.name == b.name
    &&& a.schema == b.schema
    &&& a.row_count == b.row_count
    &&& a.columns@ == b.columns@
    &&& a.primary_key@ == b.primary_key@
    &&& a.foreign_keys@.len() == b.foreign_keys@.len()
    &&& forall|i: int|
        0 <= i < a.foreign_keys@.len() ==> same_key(#[trigger] a.foreign_keys@[i], b.foreign_keys@[i])
    &&& a.indexes@.len() == b.indexes@.len()
    &&& forall|i: int|
        0 <= i < a.indexes@.len() ==> same_index(#[trigger] a.indexes@[i], b.indexes@[i])
}

fn copy_columns(columns: &[Column]) -> (r: Vec<Column>)
    ensures
        r@ == columns@,
{
    let mut out: Vec<Column> = Vec::new();
    let mut i: usize = 0;
    while i < columns.len()
        invariant
            i <= columns@.len(),
            out@ == columns@.take(i as int),
        decreases columns@.len() - i,
    {
        out.push(columns[i].clone());
        assert(out@ =~= columns@.take(i as int + 1));
        i += 1;
    }
    assert(columns@.take(columns@.len() as int) =~= columns@);
    out
}

fn copy_keys(keys: &[ForeignKey]) -> (r: Vec<ForeignKey>)
    ensures
        r@.len() == keys@.len(),
        forall|i: int| 0 <= i < r@.len() ==> same_key(#[trigger] r@[i], keys@[i]),
{
    let mut out: Vec<ForeignKey> = Vec::new();
    let mut i: usize = 0;
    while i < keys.len()
        invariant
            i <= keys@.len(),
            out@.len() == i,
            forall|k: int| 0 <= k < i ==> same_key(#[trigger] out@[k], keys@[k]),
        decreases keys@.len() - i,
    {
        out.push(
            ForeignKey {
                name: keys[i].name.clone(),
                columns: copy_texts(keys[i].columns.as_slice()),
                referenced_schema: keys[i].referenced_schema.clone(),
                referenced_table: keys[i].referenced_table.clone(),
                referenced_columns: copy_texts(keys[i].referenced_columns.as_slice()),
            },
        );
        i += 1;
    }
    out
}

fn copy_indexes(indexes: &[Index]) -> (r: Vec<Index>)
    ensures
        r@.len() == indexes@.len(),
        forall|i: int| 0 <= i < r@.len() ==> same_index(#[trigger] r@[i], indexes@[i]),
{
    let mut out: Vec<Index> = Vec::new();
    let mut i: usize = 0;
    while i < indexes.len()
        invariant
            i <= indexes@.len(),
            out@.len() == i,
            forall|k: int| 0 <= k < i ==> same_index(#[trigger] out@[k], indexes@[k]),
        decreases indexes@.len() - i,
    {
        out.push(
            Index {
                name: indexes[i].name.clone(),
                columns: copy_texts(indexes[i].columns.as_slice()),
                unique: indexes[i].unique,
                primary: indexes[i].primary,
            },
        );
        i += 1;
    }
    out
}

impl Clone for Table {
    fn clone(&self) -> (r: Self)
        ensures
            same_table(r, *self),
    {
        Table {
            name: self.name.clone(),
            schema: self.schema.clone(),
            row_count: self.row_count,
            columns: copy_columns(self.columns.as_slice()),
            primary_key: copy_texts(self.primary_key.as_slice()),
            foreign_keys: copy_keys(self.foreign_keys.as_slice()),
            indexes: copy_indexes(self.indexes.as_slice()),
        }
    }
}

proof fn lemma_database_named(list: Seq<Database>, name: Seq<char>, at: int)
    requires
        0 <= at <= list.len(),
        forall|i: int| 0 <= i < at ==> (#[trigger] list[i]).name@ != name,
        at < list.len() ==> list[at].name@ == name,
    ensures
        database_named(list, name) == if at < list.len() {
            Some(list[at])
        } else {
            None
        },
    decreases list.len(),
{
    if at > 0 {
        assert(list[0].name@ != name);
        assert forall|i: int| 0 <= i < at - 1 implies (#[trigger] list.skip(1)[i]).name@ != name by {
            assert(list.skip(1)[i] == list[i + 1]);
        }
        lemma_database_named(list.skip(1), name, at - 1);
    }
}

proof fn lemma_schema_named(list: Seq<Schema>, name: Seq<char>, at: int)
    requires
        0 <= at <= list.len(),
        forall|i: int| 0 <= i < at ==> (#[trigger] list[i]).name@ != name,
        at < list.len() ==> list[at].name@ == name,
    ensures
        schema_named(list, name) == if at < list.len() {
            Some(list[at])
        } else {
            None
        },
    decreases list.len(),
{
    if at > 0 {
        assert(list[0].name@ != name);
        assert forall|i: int| 0 <= i < at - 1 implies (#[trigger] list.skip(1)[i]).name@ != name by {
            assert(list.skip(1)[i] == list[i + 1]);
        }
        lemma_schema_named(list.skip(1), name, at - 1);
    }
}

proof fn lemma_table_named(list: Seq<Table>, name: Seq<char>, at: int)
    requires
        0 <= at <= list.len(),
        forall|i: int| 0 <= i < at ==> (#[trigger] list[i]).name@ != name,
        at < list.len() ==> list[at].name@ == name,
    ensures
        table_named(list, name) == if at < list.len() {
            Some(list[at])
        } else {
            None
        },
    decreases list.len(),
{
    if at > 0 {
        assert(list[0].name@ != name);
        assert forall|i: int| 0 <= i < at - 1 implies (#[trigger] list.skip(1)[i]).name@ != name by {
            assert(list.skip(1)[i] == list[i + 1]);
        }
        lemma_table_named(list.skip(1), name, at - 1);
    }
}

/// A table is found by its name in the first schema of the name in the first
/// database of the name: the first such table, and none where there is none.
pub proof fn law_tables_are_found_by_their_names(
    list: &[Database],
    database: &str,
    schema: &str,
    table: &str,
    r: Option<&Table>,
    d: int,
    s: int,
    t: int,
)
    requires
        call_ensures(find_table, (list, database, schema, table), r),
        0 <= d <= list@.len(),
        forall|i: int| 0 <= i < d ==> (#[trigger] list@[i]).name@ != database@,
        d < list@.len() ==> {
            let schemas = list@[d].schemas@;
            &&& list@[d].name@ == database@
            &&& 0 <= s <= schemas.len()
            &&& forall|i: int| 0 <= i < s ==> (#[trigger] schemas[i]).name@ != schema@
            &&& s < schemas.len() ==> {
                let tables = schemas[s].tables@;
                &&& schemas[s].name@ == schema@
                &&& 0 <= t <= tables.len()
                &&& forall|i: int| 0 <= i < t ==> (#[trigger] tables[i]).name@ != table@
                &&& t < tables.len() ==> tables[t].name@ == table@
            }
        },
    ensures
        r is Some <==> d < list@.len() && s < list@[d].schemas@.len() && t
            < list@[d].schemas@[s].tables@.len(),
        r matches Some(found) ==> *found == list@[d].schemas@[s].tables@[t],
{
    lemma_database_named(list@, database@, d);
    if d < list@.len() {
        let schemas = list@[d].schemas@;
        lemma_schema_named(schemas, schema@, s);
        if s < schemas.len() {
            lemma_table_named(schemas[s].tables@, table@, t);
        }
    }
}

/// Marking the primary key changes the marks alone: a column has one exactly where
/// its name is in the key.
pub proof fn law_marks_are_those_of_the_primary_key(
    columns: Vec<Column>,
    primary_key: &[String],
    r: Vec<Column>,
    i: int,
)
    requires
        call_ensures(mark_primary_keys, (columns, primary_key), r),
        0 <= i < columns@.len(),
    ensures
        r@.len() == columns@.len(),
        r@[i].name == columns@[i].name,
        r@[i].data_type == columns@[i].data_type,
        r@[i].nullable == columns@[i].nullable,
        r@[i].default == columns@[i].default,
        r@[i].ordinal == columns@[i].ordinal,
        r@[i].comment == columns@[i].comment,
        r@[i].is_primary_key <==> exists|p: int|
            0 <= p < primary_key@.len() && (#[trigger] primary_key@[p])@ == columns@[i].name@,
{
}

/// Tables that are the same have the same foreign keys and indexes, each with its
/// columns and where it leads.
pub proof fn law_copied_tables_keep_their_keys_and_indexes(a: Table, b: Table, k: int, i: int)
    requires
        same_table(a, b),
        0 <= k < b.foreign_keys@.len(),
        0 <= i < b.indexes@.len(),
    ensures
        a.name@ == b.name@,
        a.schema@ == b.schema@,
        a.row_count == b.row_count,
        a.columns@ == b.columns@,
        a.primary_key@ == b.primary_key@,
        a.foreign_keys@.len() == b.foreign_keys@.len(),
        a.foreign_keys@[k].name@ == b.foreign_keys@[k].name@,
        a.foreign_keys@[k].columns@ == b.foreign_keys@[k].columns@,
        a.foreign_keys@[k].referenced_schema@ == b.foreign_keys@[k].referenced_schema@,
        a.foreign_keys@[k].referenced_table@ == b.foreign_keys@[k].referenced_table@,
        a.foreign_keys@[k].referenced_columns@ == b.foreign_keys@[k].referenced_columns@,
        a.indexes@.len() == b.indexes@.len(),
        a.indexes@[i].name@ == b.indexes@[i].name@,
        a.indexes@[i].columns@ == b.indexes@[i].columns@,
        a.indexes@[i].unique == b.indexes@[i].unique,
        a.indexes@[i].primary == b.indexes@[i].primary,
{
    assert(same_key(a.foreign_keys@[k], b.foreign_keys@[k]));
    assert(same_index(a.indexes@[i], b.indexes@[i]));
}

} // verus!
