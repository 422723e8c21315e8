//! The schema tree of a SQLite file, put together from what its pragmas report.
//! One file is one database with the one schema `main`.
use vstd::prelude::*;

use crate::ordered_map::OrderedMap;
use crate::schema::{
    among, copy_opt, copy_texts, is_among, mark_primary_keys, Column, Database, ForeignKey, Index,
    Schema, Table, ViewDefinition,
};
use crate::text::{
    i64_text, int_text, lemma_text_before_irreflexive, lemma_text_before_total,
    lemma_text_before_transitive, lowercased, text_before, text_position, texts, to_lowercase,
    Position,
};
use crate::value::opt_text;

verus! {

// ---------------------------------------------------------------------
// Columns
// ---------------------------------------------------------------------
/// A row of `pragma_table_info`. `pk` is the position in the primary key from 1,
/// or 0 for a column outside it.
pub struct TableInfoRow {
    pub cid: i64,
    pub name: String,
    pub data_type: String,
    pub notnull: i64,
    pub default: Option<String>,
    pub pk: i64,
}

/// Whether `column` is the column that a row reports.
pub open spec fn reports(row: TableInfoRow, column: Column) -> bool {
    &&& column.name@ == row.name@
    &&& column.data_type@ == lowercased(row.data_type@)
    &&& column.nullable == (row.notnull == 0)
    &&& opt_text(column.default) == opt_text(row.default)
    &&& !column.is_primary_key
    &&& column.ordinal == (row.cid + 1) as u32
    &&& column.comment is None
}

/// The primary key columns, each with its position in the key, in the order of
/// the rows.
pub open spec fn key_parts(rows: Seq<TableInfoRow>) -> Seq<(i64, Seq<char>)>
    decreases rows.len(),
{
    if rows.len() == 0 {
        Seq::empty()
    } else if rows.last().pk > 0 {
        key_parts(rows.drop_last()).push((rows.last().pk, rows.last().name@))
    } else {
        key_parts(rows.drop_last())
    }
}

/// The order of primary key columns: by position, then by name.
pub open spec fn part_before(a: (i64, Seq<char>), b: (i64, Seq<char>)) -> bool {
    a.0 < b.0 || (a.0 == b.0 && text_before(a.1, b.1))
}

pub open spec fn in_key_order(parts: Seq<(i64, Seq<char>)>) -> bool {
    forall|i: int, j: int|
        0 <= i < j < parts.len() ==> !part_before(#[trigger] parts[j], #[trigger] parts[i])
}

/// The names of key parts.
pub open spec fn names_of(parts: Seq<(i64, Seq<char>)>) -> Seq<Seq<char>> {
    parts.map_values(|p: (i64, Seq<char>)| p.1)
}

/// Whether `names` are the primary key columns in key order.
pub open spec fn key_names(rows: Seq<TableInfoRow>, names: Seq<Seq<char>>) -> bool {
    exists|parts: Seq<(i64, Seq<char>)>|
        {
            &&& #[trigger] in_key_order(parts)
            &&& parts.to_multiset() == key_parts(rows).to_multiset()
            &&& names == names_of(parts)
        }
}

/// The model of a list of key parts.
pub open spec fn part_views(parts: Seq<(i64, String)>) -> Seq<(i64, Seq<char>)> {
    parts.map_values(|p: (i64, String)| (p.0, p.1@))
}

proof fn lemma_part_order(a: (i64, Seq<char>), b: (i64, Seq<char>), c: (i64, Seq<char>))
    ensures
        !part_before(a, a),
        !part_before(b, a) && !part_before(c, b) ==> !part_before(c, a),
        part_before(a, b) ==> !part_before(b, a),
{
    lemma_text_before_irreflexive(a.1);
    lemma_text_before_total(a.1, b.1);
    lemma_text_before_total(b.1, c.1);
    lemma_text_before_total(a.1, c.1);
    if text_before(a.1, b.1) && text_before(b.1, a.1) {
        lemma_text_before_transitive(a.1, b.1, a.1);
    }
    if text_before(a.1, b.1) && text_before(b.1, c.1) {
        lemma_text_before_transitive(a.1, b.1, c.1);
        if text_before(c.1, a.1) {
            lemma_text_before_transitive(c.1, a.1, c.1);
            lemma_text_before_irreflexive(c.1);
        }
    }
    if a.0 == b.0 && b.0 == c.0 && text_before(c.1, a.1) {
        if text_before(a.1, b.1) {
            lemma_text_before_transitive(c.1, a.1, b.1);
        }
    }
}

fn part_stands_before(pk: i64, name: &str, other: &(i64, String)) -> (r: bool)
    ensures
        r == part_before((pk, name@), (other.0, other.1@)),
{
    proof {
        lemma_text_before_irreflexive(name@);
    }
    pk < other.0 || (pk == other.0 && match text_position(name, other.1.as_str()) {
        Position::Before => true,
        _ => false,
    })
}

/// Puts a key part behind those that do not stand after it.
fn insert_part(parts: &mut Vec<(i64, String)>, pk: i64, name: String)
    requires
        in_key_order(part_views(old(parts)@)),
    ensures
        in_key_order(part_views(final(parts)@)),
        part_views(final(parts)@).to_multiset() == part_views(old(parts)@).to_multiset().insert(
            (pk, name@),
        ),
{
    let ghost was = part_views(parts@);
    let ghost new = (pk, name@);
    let mut at: usize = parts.len();
    while at > 0 && part_stands_before(pk, name.as_str(), &parts[at - 1])
        invariant
            at <= parts@.len(),
            was == part_views(parts@),
            new == (pk, name@),
            forall|j: int| at <= j < was.len() ==> part_before(new, #[trigger] was[j]),
        decreases at,
    {
        assert(was[at - 1] == (parts@[at - 1].0, parts@[at - 1].1@));
        at -= 1;
    }
    parts.insert(at, (pk, name));
    proof {
        let now = part_views(parts@);
        assert(now =~= was.insert(at as int, new));
        if at > 0 {
            assert(!part_before(new, was[at - 1]));
        }
        assert forall|i: int, j: int| 0 <= i < j < now.len() implies !part_before(
            #[trigger] now[j],
            #[trigger] now[i],
        ) by {
            if i == at {
                assert(now[j] == was[j - 1]);
                lemma_part_order(new, was[j - 1], new);
            } else if j == at {
                assert(now[i] == was[i]);
                if i < at - 1 {
                    assert(!part_before(was[at - 1], was[i]));
                    lemma_part_order(was[i], was[at - 1], new);
                }
            } else {
                let oi = if i < at { i } else { i - 1 };
                let oj = if j < at { j } else { j - 1 };
                assert(now[i] == was[oi] && now[j] == was[oj]);
            }
        }
        now.to_multiset_ensures();
        assert(now.remove(at as int) =~= was);
        assert(now.to_multiset().remove(new).insert(new) =~= now.to_multiset()) by {
            assert(now[at as int] == new);
            assert(now.contains(new));
        }
    }
}

/// The columns of a table and the names of its primary key columns in key order.
pub fn assemble_columns(rows: Vec<TableInfoRow>) -> (r: (Vec<Column>, Vec<String>))
    requires
        forall|i: int| 0 <= i < rows@.len() ==> (#[trigger] rows@[i]).cid < i64::MAX,
    ensures
        r.0@.len() == rows@.len(),
        forall|i: int| 0 <= i < rows@.len() ==> reports(rows@[i], #[trigger] r.0@[i]),
        key_names(rows@, texts(r.1@)),
{
    let mut columns: Vec<Column> = Vec::new();
    let mut parts: Vec<(i64, String)> = Vec::new();
    let mut i: usize = 0;
    proof {
        assert(part_views(parts@) =~= key_parts(rows@.take(0)));
    }
    while i < rows.len()
        invariant
            i <= rows@.len(),
            columns@.len() == i,
            forall|j: int| 0 <= j < rows@.len() ==> (#[trigger] rows@[j]).cid < i64::MAX,
            forall|j: int| 0 <= j < i ==> reports(rows@[j], #[trigger] columns@[j]),
            in_key_order(part_views(parts@)),
            part_views(parts@).to_multiset() == key_parts(rows@.take(i as int)).to_multiset(),
        decreases rows@.len() - i,
    {
        let row = &rows[i];
        proof {
            let now = rows@.take(i + 1);
            assert(now.drop_last() =~= rows@.take(i as int));
            assert(now.last() == rows@[i as int]);
            key_parts(rows@.take(i as int)).to_multiset_ensures();
        }
        if row.pk > 0 {
            insert_part(&mut parts, row.pk, row.name.clone());
        }
        columns.push(
            Column {
                name: row.name.clone(),
                data_type: to_lowercase(row.data_type.as_str()),
                nullable: row.notnull == 0,
                default: copy_opt(&row.default),
                is_primary_key: false,
                ordinal: (row.cid + 1) as u32,
                comment: None,
            },
        );
        i += 1;
    }
    assert(rows@.take(rows@.len() as int) =~= rows@);
    let mut names: Vec<String> = Vec::new();
    let mut k: usize = 0;
    while k < parts.len()
        invariant
            k <= parts@.len(),
            names@.len() == k,
            forall|j: int| 0 <= j < k ==> (#[trigger] names@[j])@ == parts@[j].1@,
        decreases parts@.len() - k,
    {
        names.push(parts[k].1.clone());
        k += 1;
    }
    proof {
        let views = part_views(parts@);
        assert(texts(names@) =~= names_of(views));
        assert(in_key_order(views));
    }
    (columns, names)
}

// ---------------------------------------------------------------------
// Foreign keys
// ---------------------------------------------------------------------
/// A row of `pragma_foreign_key_list`: one column of the foreign key `id`. `to`
/// is absent or empty where the key refers to the parent's primary key.
pub struct ForeignKeyRow {
    pub id: i64,
    pub seq: i64,
    pub table: String,
    pub from: String,
    pub to: Option<String>,
}

/// Whether a row leaves out the column that it refers to.
pub open spec fn implicit(row: ForeignKeyRow) -> bool {
    match row.to {
        Some(column) => column@.len() == 0,
        None => true,
    }
}

/// The column that a row refers to: the one it names, else the parent's primary
/// key column at the position `seq`, where there is one.
pub open spec fn referenced(row: ForeignKeyRow, parents: Map<Seq<char>, Vec<String>>) -> Option<
    Seq<char>,
> {
    if !implicit(row) {
        Some(row.to->0@)
    } else if parents.contains_key(row.table@) && 0 <= row.seq < parents[row.table@]@.len() {
        Some(parents[row.table@]@[row.seq as int]@)
    } else {
        None
    }
}

/// The model of [`ForeignKey`].
pub struct ForeignKeyView {
    pub name: Seq<char>,
    pub columns: Seq<Seq<char>>,
    pub referenced_schema: Seq<char>,
    pub referenced_table: Seq<char>,
    pub referenced_columns: Seq<Seq<char>>,
}

impl View for ForeignKey {
    type V = ForeignKeyView;

    open spec fn view(&self) -> ForeignKeyView {
        ForeignKeyView {
            name: self.name@,
            columns: texts(self.columns@),
            referenced_schema: self.referenced_schema@,
            referenced_table: self.referenced_table@,
            referenced_columns: texts(self.referenced_columns@),
        }
    }
}

pub open spec fn key_views(keys: Seq<ForeignKey>) -> Seq<ForeignKeyView> {
    keys.map_values(|k: ForeignKey| k@)
}

/// The name of the foreign key `id`: SQLite's own have none.
pub open spec fn foreign_key_name(table: Seq<char>, id: i64) -> Seq<char> {
    table + "_fk_"@ + int_text(id as int)
}

/// A foreign key extended by the column of a row.
pub open spec fn with_column(
    key: ForeignKeyView,
    row: ForeignKeyRow,
    parents: Map<Seq<char>, Vec<String>>,
) -> ForeignKeyView {
    ForeignKeyView {
        columns: key.columns.push(row.from@),
        referenced_columns: match referenced(row, parents) {
            Some(column) => key.referenced_columns.push(column),
            None => key.referenced_columns,
        },
        ..key
    }
}

/// A foreign key that has no columns yet.
pub open spec fn new_key(table: Seq<char>, row: ForeignKeyRow) -> ForeignKeyView {
    ForeignKeyView {
        name: foreign_key_name(table, row.id),
        columns: Seq::empty(),
        referenced_schema: "main"@,
        referenced_table: row.table@,
        referenced_columns: Seq::empty(),
    }
}

/// The foreign keys of a table: each run of rows with one `id` is one of them.
pub open spec fn foreign_keys(
    table: Seq<char>,
    rows: Seq<ForeignKeyRow>,
    parents: Map<Seq<char>, Vec<String>>,
) -> Seq<ForeignKeyView>
    decreases rows.len(),
{
    if rows.len() == 0 {
        Seq::empty()
    } else {
        let row = rows.last();
        let before = foreign_keys(table, rows.drop_last(), parents);
        if rows.len() == 1 || rows[rows.len() - 2].id != row.id {
            before.push(with_column(new_key(table, row), row, parents))
        } else {
            before.update(before.len() - 1, with_column(before.last(), row, parents))
        }
    }
}

/// The tables whose primary keys are needed: those of the implicit rows, each
/// once, in the order of the rows.
pub open spec fn needed_parents(rows: Seq<ForeignKeyRow>) -> Seq<Seq<char>>
    decreases rows.len(),
{
    if rows.len() == 0 {
        Seq::empty()
    } else {
        let before = needed_parents(rows.drop_last());
        if implicit(rows.last()) && !before.contains(rows.last().table@) {
            before.push(rows.last().table@)
        } else {
            before
        }
    }
}

fn is_implicit(row: &ForeignKeyRow) -> (r: bool)
    ensures
        r == implicit(*row),
{
    match &row.to {
        Some(column) => column.as_str().is_empty(),
        None => true,
    }
}

/// The tables whose primary keys [`assemble_foreign_keys`] needs.
pub fn parent_tables(rows: &[ForeignKeyRow]) -> (r: Vec<String>)
    ensures
        texts(r@) == needed_parents(rows@),
{
    let mut out: Vec<String> = Vec::new();
    let mut i: usize = 0;
    assert(texts(out@) =~= needed_parents(rows@.take(0)));
    while i < rows.len()
        invariant
            i <= rows@.len(),
            texts(out@) == needed_parents(rows@.take(i as int)),
        decreases rows@.len() - i,
    {
        proof {
            assert(rows@.take(i + 1).drop_last() =~= rows@.take(i as int));
            let name = rows@[i as int].table@;
            if among(out@, name) {
                let j = choose|j: int| 0 <= j < out@.len() && (#[trigger] out@[j])@ == name;
                assert(texts(out@)[j] == name);
            }
            if texts(out@).contains(name) {
                let j = choose|j: int| 0 <= j < out@.len() && texts(out@)[j] == name;
                assert(out@[j]@ == name);
            }
        }
        let ghost before = out@;
        if is_implicit(&rows[i]) && !is_among(out.as_slice(), rows[i].table.as_str()) {
            out.push(rows[i].table.clone());
            assert(texts(out@) =~= texts(before).push(rows@[i as int].table@));
        }
        i += 1;
    }
    assert(rows@.take(rows@.len() as int) =~= rows@);
    out
}

fn referenced_column(row: &ForeignKeyRow, parents: &OrderedMap<String, Vec<String>>) -> (r: Option<
    String,
>)
    requires
        parents.wf(),
    ensures
        opt_text(r) == referenced(*row, parents.map()),
{
    if let Some(column) = &row.to {
        if !column.as_str().is_empty() {
            return Some(column.clone());
        }
    }
    match parents.get(&row.table) {
        Some(columns) => if 0 <= row.seq && (row.seq as u64) < columns.len() as u64 {
            Some(columns[row.seq as usize].clone())
        } else {
            None
        },
        None => None,
    }
}

/// The foreign keys of a table from its rows, ordered by `id` and `seq`, and the
/// primary keys of the tables that [`parent_tables`] names.
pub fn assemble_foreign_keys(
    table: &str,
    rows: &[ForeignKeyRow],
    parents: &OrderedMap<String, Vec<String>>,
) -> (r: Vec<ForeignKey>)
    requires
        parents.wf(),
    ensures
        key_views(r@) == foreign_keys(table@, rows@, parents.map()),
{
    let mut out: Vec<ForeignKey> = Vec::new();
    let mut i: usize = 0;
    assert(key_views(out@) =~= foreign_keys(table@, rows@.take(0), parents.map()));
    while i < rows.len()
        invariant
            i <= rows@.len(),
            parents.wf(),
            i > 0 ==> out@.len() > 0,
            key_views(out@) == foreign_keys(table@, rows@.take(i as int), parents.map()),
        decreases rows@.len() - i,
    {
        let row = &rows[i];
        let ghost now = rows@.take(i + 1);
        let ghost before = key_views(out@);
        proof {
            assert(now.drop_last() =~= rows@.take(i as int));
            if i > 0 {
                assert(now[now.len() - 2] == rows@[i - 1]);
            }
        }
        let fresh = i == 0 || rows[i - 1].id != row.id;
        let mut key = if fresh {
            let mut name = table.to_owned();
            name.append("_fk_");
            name.append(i64_text(row.id).as_str());
            let key = ForeignKey {
                name,
                columns: Vec::new(),
                referenced_schema: "main".to_owned(),
                referenced_table: row.table.clone(),
                referenced_columns: Vec::new(),
            };
            proof {
                assert(key@.name =~= foreign_key_name(table@, row.id));
                assert(key@.columns =~= Seq::empty());
                assert(key@.referenced_columns =~= Seq::empty());
            }
            key
        } else {
            match out.pop() {
                Some(key) => key,
                None => return out,
            }
        };
        let ghost base = key@;
        let ghost names = key.columns@;
        key.columns.push(row.from.clone());
        proof {
            assert(texts(key.columns@) =~= texts(names).push(row.from@));
        }
        if let Some(column) = referenced_column(row, parents) {
            let ghost refs = key.referenced_columns@;
            key.referenced_columns.push(column);
            assert(texts(key.referenced_columns@) =~= texts(refs).push(column@));
        }
        out.push(key);
        proof {
            assert(key@ == with_column(base, *row, parents.map()));
            if fresh {
                assert(key_views(out@) =~= before.push(key@));
            } else {
                assert(key_views(out@) =~= before.update(before.len() - 1, key@));
            }
        }
        i += 1;
    }
    assert(rows@.take(rows@.len() as int) =~= rows@);
    out
}

/// The columns of foreign keys, one key after the other.
pub open spec fn all_columns(keys: Seq<ForeignKeyView>) -> Seq<Seq<char>>
    decreases keys.len(),
{
    if keys.len() == 0 {
        Seq::empty()
    } else {
        all_columns(keys.drop_last()) + keys.last().columns
    }
}

/// Every row becomes a column of exactly one foreign key, in the order of the
/// rows, and no foreign key is without columns.
pub proof fn law_foreign_keys_keep_every_column(
    table: Seq<char>,
    rows: Seq<ForeignKeyRow>,
    parents: Map<Seq<char>, Vec<String>>,
)
    ensures
        all_columns(foreign_keys(table, rows, parents)) == rows.map_values(
            |r: ForeignKeyRow| r.from@,
        ),
        forall|i: int|
            0 <= i < foreign_keys(table, rows, parents).len() ==> (#[trigger] foreign_keys(
                table,
                rows,
                parents,
            )[i]).columns.len() > 0,
        rows.len() > 0 ==> foreign_keys(table, rows, parents).len() > 0,
    decreases rows.len(),
{
    let keys = foreign_keys(table, rows, parents);
    let from = rows.map_values(|r: ForeignKeyRow| r.from@);
    if rows.len() == 0 {
        assert(all_columns(keys) =~= from);
    } else {
        let front = rows.drop_last();
        let before = foreign_keys(table, front, parents);
        law_foreign_keys_keep_every_column(table, front, parents);
        assert(from =~= front.map_values(|r: ForeignKeyRow| r.from@).push(rows.last().from@));
        if rows.len() == 1 || rows[rows.len() - 2].id != rows.last().id {
            assert(keys.drop_last() =~= before);
        } else {
            assert(keys.drop_last() =~= before.drop_last());
        }
        assert(all_columns(keys) =~= all_columns(before).push(rows.last().from@));
    }
}

/// Where every row's column resolves, a foreign key refers to as many columns as
/// it has.
pub proof fn law_resolved_foreign_keys_match_up(
    table: Seq<char>,
    rows: Seq<ForeignKeyRow>,
    parents: Map<Seq<char>, Vec<String>>,
)
    requires
        forall|i: int| 0 <= i < rows.len() ==> referenced(#[trigger] rows[i], parents) is Some,
    ensures
        forall|i: int|
            0 <= i < foreign_keys(table, rows, parents).len() ==> (#[trigger] foreign_keys(
                table,
                rows,
                parents,
            )[i]).columns.len() == foreign_keys(table, rows, parents)[i].referenced_columns.len(),
    decreases rows.len(),
{
    if rows.len() > 0 {
        let front = rows.drop_last();
        assert forall|i: int| 0 <= i < front.len() implies referenced(
            #[trigger] front[i],
            parents,
        ) is Some by {
            assert(front[i] == rows[i]);
        }
        law_resolved_foreign_keys_match_up(table, front, parents);
        law_foreign_keys_keep_every_column(table, front, parents);
        assert(referenced(rows[rows.len() - 1], parents) is Some);
    }
}

// ---------------------------------------------------------------------
// Indexes
// ---------------------------------------------------------------------
/// A row of `pragma_index_list` with the columns of `pragma_index_info`. A part
/// that is the row id or an expression has no column name.
pub struct IndexRow {
    pub name: String,
    pub unique: i64,
    pub origin: String,
    pub columns: Vec<Option<String>>,
}

/// The column names among the parts of an index.
pub open spec fn named_parts(parts: Seq<Option<String>>) -> Seq<String>
    decreases parts.len(),
{
    if parts.len() == 0 {
        Seq::empty()
    } else {
        match parts.last() {
            Some(name) => named_parts(parts.drop_last()).push(name),
            None => named_parts(parts.drop_last()),
        }
    }
}

/// Whether `index` is what a row reports.
pub open spec fn index_of(row: IndexRow, index: Index) -> bool {
    &&& index.name == row.name
    &&& index.columns@ == named_parts(row.columns@)
    &&& index.unique == (row.unique != 0)
    &&& index.primary == (row.origin@ == "pk"@)
}

/// Whether an index of the rows belongs to the primary key.
pub open spec fn has_key_index(rows: Seq<IndexRow>) -> bool {
    exists|i: int| 0 <= i < rows.len() && (#[trigger] rows[i]).origin@ == "pk"@
}

fn part_names(parts: &[Option<String>]) -> (r: Vec<String>)
    ensures
        r@ == named_parts(parts@),
{
    let mut out: Vec<String> = Vec::new();
    let mut i: usize = 0;
    assert(out@ =~= named_parts(parts@.take(0)));
    while i < parts.len()
        invariant
            i <= parts@.len(),
            out@ == named_parts(parts@.take(i as int)),
        decreases parts@.len() - i,
    {
        assert(parts@.take(i + 1).drop_last() =~= parts@.take(i as int));
        if let Some(name) = &parts[i] {
            out.push(name.clone());
        }
        i += 1;
    }
    assert(parts@.take(parts@.len() as int) =~= parts@);
    out
}

/// The indexes of a table. A table whose primary key is the row id has no index
/// for it: one is added, so that every primary key shows as an index.
pub fn assemble_indexes(table: &str, rows: &[IndexRow], primary_key: &[String]) -> (r: Vec<Index>)
    ensures
        ({
            let added = primary_key@.len() > 0 && !has_key_index(rows@);
            &&& r@.len() == rows@.len() + (if added {
                1int
            } else {
                0
            })
            &&& forall|i: int| 0 <= i < rows@.len() ==> index_of(rows@[i], #[trigger] r@[i])
            &&& added ==> {
                &&& r@.last().name@ == table@ + "_pk"@
                &&& r@.last().columns@ == primary_key@
                &&& r@.last().unique
                &&& r@.last().primary
            }
        }),
        primary_key@.len() > 0 ==> exists|i: int| 0 <= i < r@.len() && (#[trigger] r@[i]).primary,
{
    let mut out: Vec<Index> = Vec::new();
    let mut any = false;
    let mut i: usize = 0;
    while i < rows.len()
        invariant
            i <= rows@.len(),
            out@.len() == i,
            any == (exists|j: int| 0 <= j < i && (#[trigger] rows@[j]).origin@ == "pk"@),
            forall|j: int| 0 <= j < i ==> index_of(rows@[j], #[trigger] out@[j]),
        decreases rows@.len() - i,
    {
        let row = &rows[i];
        let primary = crate::text::same_text(row.origin.as_str(), "pk");
        any = any || primary;
        out.push(
            Index {
                name: row.name.clone(),
                columns: part_names(row.columns.as_slice()),
                unique: row.unique != 0,
                primary,
            },
        );
        i += 1;
    }
    if primary_key.len() > 0 && !any {
        let mut name = table.to_owned();
        name.append("_pk");
        out.push(
            Index { name, columns: copy_texts(primary_key), unique: true, primary: true },
        );
    }
    proof {
        if primary_key@.len() > 0 {
            if has_key_index(rows@) {
                let k = choose|k: int| 0 <= k < rows@.len() && (#[trigger] rows@[k]).origin@
                    == "pk"@;
                assert(index_of(rows@[k], out@[k]));
            } else {
                assert(out@[out@.len() - 1].primary);
            }
        }
    }
    out
}

// ---------------------------------------------------------------------
// The tree
// ---------------------------------------------------------------------
/// A table or view of `sqlite_master`, with what its pragmas report.
pub struct MasterObject {
    pub name: String,
    pub kind: String,
    pub sql: Option<String>,
    pub columns: Vec<Column>,
    pub primary_key: Vec<String>,
    pub foreign_keys: Vec<ForeignKey>,
    pub indexes: Vec<Index>,
}

pub open spec fn is_view(object: MasterObject) -> bool {
    object.kind@ == "view"@
}

/// The objects of one kind, in their order.
pub open spec fn only(objects: Seq<MasterObject>, views: bool) -> Seq<MasterObject>
    decreases objects.len(),
{
    if objects.len() == 0 {
        Seq::empty()
    } else if is_view(objects.last()) == views {
        only(objects.drop_last(), views).push(objects.last())
    } else {
        only(objects.drop_last(), views)
    }
}

/// Whether `view` is made of `object`.
pub open spec fn view_of(object: MasterObject, view: ViewDefinition) -> bool {
    &&& view.name == object.name
    &&& view.schema@ == "main"@
    &&& view.columns == object.columns
    &&& view.definition == object.sql
}

/// Whether `table` is made of `object`.
pub open spec fn table_of(object: MasterObject, table: Table) -> bool {
    &&& table.name == object.name
    &&& table.schema@ == "main"@
    &&& table.row_count is None
    &&& table.columns@.len() == object.columns@.len()
    &&& forall|i: int|
        0 <= i < table.columns@.len() ==> (#[trigger] table.columns@[i]) == (Column {
            is_primary_key: among(object.primary_key@, object.columns@[i].name@),
            ..object.columns@[i]
        })
    &&& table.primary_key == object.primary_key
    &&& table.foreign_keys == object.foreign_keys
    &&& table.indexes == object.indexes
}

fn take_object(objects: &mut Vec<MasterObject>) -> (r: MasterObject)
    requires
        old(objects)@.len() > 0,
    ensures
        r == old(objects)@[0],
        final(objects)@ == old(objects)@.skip(1),
{
    let r = objects.remove(0);
    assert(objects@ =~= old(objects)@.skip(1));
    r
}

/// The tree of a SQLite file: the database `main` with the schema `main`, its
/// tables and its views in the order of the objects.
pub fn assemble_tree(objects: Vec<MasterObject>) -> (r: Vec<Database>)
    ensures
        r@.len() == 1,
        r@[0].name@ == "main"@,
        r@[0].is_default,
        r@[0].schemas@.len() == 1,
        ({
            let schema = r@[0].schemas@[0];
            let tables = only(objects@, false);
            let views = only(objects@, true);
            &&& schema.name@ == "main"@
            &&& schema.tables@.len() == tables.len()
            &&& forall|i: int|
                0 <= i < tables.len() ==> table_of(tables[i], #[trigger] schema.tables@[i])
            &&& schema.views@.len() == views.len()
            &&& forall|i: int|
                0 <= i < views.len() ==> view_of(views[i], #[trigger] schema.views@[i])
        }),
{
    let ghost all = objects@;
    let mut rest = objects;
    let mut tables: Vec<Table> = Vec::new();
    let mut views: Vec<ViewDefinition> = Vec::new();
    let ghost mut done: int = 0;
    assert(all.skip(0) =~= all);
    assert(only(all.take(0), true) =~= Seq::empty());
    assert(only(all.take(0), false) =~= Seq::empty());
    while rest.len() > 0
        invariant
            0 <= done <= all.len(),
            rest@ == all.skip(done),
            tables@.len() == only(all.take(done), false).len(),
            forall|i: int|
                0 <= i < tables@.len() ==> table_of(
                    only(all.take(done), false)[i],
                    #[trigger] tables@[i],
                ),
            views@.len() == only(all.take(done), true).len(),
            forall|i: int|
                0 <= i < views@.len() ==> view_of(
                    only(all.take(done), true)[i],
                    #[trigger] views@[i],
                ),
        decreases rest@.len(),
    {
        let object = take_object(&mut rest);
        proof {
            assert(all.take(done + 1).drop_last() =~= all.take(done));
            assert(all.take(done + 1).last() == object);
            assert(all.skip(done).skip(1) =~= all.skip(done + 1));
        }
        if crate::text::same_text(object.kind.as_str(), "view") {
            views.push(
                ViewDefinition {
                    name: object.name,
                    schema: "main".to_owned(),
                    columns: object.columns,
                    definition: object.sql,
                },
            );
        } else {
            let columns = mark_primary_keys(object.columns, object.primary_key.as_slice());
            tables.push(
                Table {
                    name: object.name,
                    schema: "main".to_owned(),
                    row_count: None,
                    columns,
                    primary_key: object.primary_key,
                    foreign_keys: object.foreign_keys,
                    indexes: object.indexes,
                },
            );
        }
        proof {
            done = done + 1;
        }
    }
    assert(all.take(done) =~= all);
    let mut schemas: Vec<Schema> = Vec::new();
    schemas.push(Schema { name: "main".to_owned(), tables, views });
    let mut out: Vec<Database> = Vec::new();
    out.push(Database { name: "main".to_owned(), is_default: true, schemas });
    out
}

// ---------------------------------------------------------------------
// What the tree says of the rows
// ---------------------------------------------------------------------
/// The key of the run of rows that starts at `start`, as far as `end`.
proof fn lemma_run(
    table: Seq<char>,
    rows: Seq<ForeignKeyRow>,
    parents: Map<Seq<char>, Vec<String>>,
    start: int,
    end: int,
)
    requires
        0 <= start < end <= rows.len(),
        start > 0 ==> rows[start - 1].id != rows[start].id,
        forall|i: int| start <= i < end ==> (#[trigger] rows[i]).id == rows[start].id,
    ensures
        ({
            let before = foreign_keys(table, rows.take(start), parents);
            let keys = foreign_keys(table, rows.take(end), parents);
            &&& keys.len() == before.len() + 1
            &&& keys.last().name == table + "_fk_"@ + int_text(rows[start].id as int)
            &&& keys.last().referenced_schema == "main"@
            &&& keys.last().referenced_table == rows[start].table@
            &&& keys.last().columns == Seq::new((end - start) as nat, |i: int| rows[start + i].from@)
            &&& (forall|i: int| start <= i < end ==> referenced(#[trigger] rows[i], parents) is Some)
                ==> keys.last().referenced_columns == Seq::new(
                (end - start) as nat,
                |i: int| referenced(rows[start + i], parents)->0,
            )
        }),
    decreases end - start,
{
    let now = rows.take(end);
    let keys = foreign_keys(table, now, parents);
    assert(now.drop_last() =~= rows.take(end - 1));
    assert(now.last() == rows[end - 1]);
    if end - 1 > start {
        lemma_run(table, rows, parents, start, end - 1);
        assert(now[now.len() - 2] == rows[end - 2]);
        assert(keys.last().columns =~= Seq::new(
            (end - start) as nat,
            |i: int| rows[start + i].from@,
        ));
        if forall|i: int| start <= i < end ==> referenced(#[trigger] rows[i], parents) is Some {
            assert(keys.last().referenced_columns =~= Seq::new(
                (end - start) as nat,
                |i: int| referenced(rows[start + i], parents)->0,
            ));
        }
    } else {
        if start > 0 {
            assert(now[now.len() - 2] == rows[start - 1]);
        }
        assert(keys.last().columns =~= Seq::new(1, |i: int| rows[start + i].from@));
        if referenced(rows[start], parents) is Some {
            assert(keys.last().referenced_columns =~= Seq::new(
                1,
                |i: int| referenced(rows[start + i], parents)->0,
            ));
        }
    }
}

/// Rows behind a run leave its key alone.
proof fn lemma_run_is_kept(
    table: Seq<char>,
    rows: Seq<ForeignKeyRow>,
    parents: Map<Seq<char>, Vec<String>>,
    end: int,
    to: int,
)
    requires
        0 < end <= to <= rows.len(),
        end < rows.len() ==> rows[end].id != rows[end - 1].id,
    ensures
        ({
            let keys = foreign_keys(table, rows.take(end), parents);
            let more = foreign_keys(table, rows.take(to), parents);
            &&& keys.len() > 0
            &&& more.len() >= keys.len()
            &&& to > end ==> more.len() > keys.len()
            &&& more[keys.len() - 1] == keys.last()
        }),
    decreases to - end,
{
    law_foreign_keys_keep_every_column(table, rows.take(end), parents);
    if to > end {
        lemma_run_is_kept(table, rows, parents, end, to - 1);
        let now = rows.take(to);
        assert(now.drop_last() =~= rows.take(to - 1));
        assert(now[now.len() - 2] == rows[to - 2]);
        assert(now.last() == rows[to - 1]);
    }
}

/// Every run of rows with one `id` is a foreign key. It is named after its table
/// and the `id`, its columns are those the rows come from, it leads to the table
/// that the rows name, in the schema `main`, and its columns refer, in order, to
/// what each row names: a column, or the place in the parent's primary key.
pub proof fn law_foreign_keys_lead_where_their_rows_say(
    table: &str,
    rows: &[ForeignKeyRow],
    parents: &OrderedMap<String, Vec<String>>,
    keys: Vec<ForeignKey>,
    start: int,
    end: int,
) -> (k: int)
    requires
        parents.wf(),
        call_ensures(assemble_foreign_keys, (table, rows, parents), keys),
        0 <= start < end <= rows@.len(),
        start > 0 ==> rows@[start - 1].id != rows@[start].id,
        end < rows@.len() ==> rows@[end].id != rows@[start].id,
        forall|i: int| start <= i < end ==> (#[trigger] rows@[i]).id == rows@[start].id,
    ensures
        0 <= k < keys@.len(),
        start == 0 ==> k == 0,
        end == rows@.len() ==> k == keys@.len() - 1,
        keys@[k].name@ == table@ + "_fk_"@ + int_text(rows@[start].id as int),
        keys@[k].referenced_schema@ == "main"@,
        keys@[k].referenced_table@ == rows@[start].table@,
        keys@[k].columns@.len() == end - start,
        forall|i: int|
            0 <= i < end - start ==> (#[trigger] keys@[k].columns@[i])@ == rows@[start + i].from@,
        (forall|i: int|
            start <= i < end ==> (((#[trigger] rows@[i]).to matches Some(to) && to@.len() > 0) || (
            parents.map().contains_key(rows@[i].table@) && 0 <= rows@[i].seq
                < parents.map()[rows@[i].table@]@.len()))) ==> {
            &&& keys@[k].referenced_columns@.len() == end - start
            &&& forall|i: int|
                0 <= i < end - start ==> (#[trigger] keys@[k].referenced_columns@[i])@ == match rows@[
                    start + i
                ].to {
                    Some(to) if to@.len() > 0 => to@,
                    _ => parents.map()[rows@[start + i].table@]@[rows@[start + i].seq as int]@,
                }
        },
{
    let p = parents.map();
    lemma_run(table@, rows@, p, start, end);
    assert(rows@[end - 1].id == rows@[start].id);
    lemma_run_is_kept(table@, rows@, p, end, rows@.len() as int);
    assert(rows@.take(rows@.len() as int) =~= rows@);
    let all = key_views(keys@);
    assert(all == foreign_keys(table@, rows@, p));
    let k = foreign_keys(table@, rows@.take(end), p).len() - 1;
    assert(all[k] == keys@[k]@);
    assert(keys@[k]@.columns.len() == keys@[k].columns@.len());
    assert(keys@[k]@.referenced_columns.len() == keys@[k].referenced_columns@.len());
    if start == 0 {
        assert(rows@.take(0).len() == 0);
    }
    assert forall|i: int| 0 <= i < end - start implies (#[trigger] keys@[k].columns@[i])@
        == rows@[start + i].from@ by {
        assert(texts(keys@[k].columns@)[i] == keys@[k].columns@[i]@);
    }
    if forall|i: int|
        start <= i < end ==> (((#[trigger] rows@[i]).to matches Some(to) && to@.len() > 0) || (
        p.contains_key(rows@[i].table@) && 0 <= rows@[i].seq < p[rows@[i].table@]@.len())) {
        assert(forall|i: int| start <= i < end ==> referenced(#[trigger] rows@[i], p) is Some);
        assert forall|i: int| 0 <= i < end - start implies (
        #[trigger] keys@[k].referenced_columns@[i])@ == match rows@[start + i].to {
            Some(to) if to@.len() > 0 => to@,
            _ => p[rows@[start + i].table@]@[rows@[start + i].seq as int]@,
        } by {
            assert(texts(keys@[k].referenced_columns@)[i] == keys@[k].referenced_columns@[i]@);
            assert(referenced(rows@[start + i], p) is Some);
        }
    }
    k
}

/// One more row adds its column to the key of its `id` where the row before has
/// the same `id`, and makes a key of its own where it has not. A row that refers
/// to nothing adds no referenced column.
pub proof fn law_one_more_row(
    table: &str,
    rows: &[ForeignKeyRow],
    longer: &[ForeignKeyRow],
    parents: &OrderedMap<String, Vec<String>>,
    row: ForeignKeyRow,
    keys: Vec<ForeignKey>,
    more: Vec<ForeignKey>,
)
    requires
        parents.wf(),
        call_ensures(assemble_foreign_keys, (table, rows, parents), keys),
        call_ensures(assemble_foreign_keys, (table, longer, parents), more),
        longer@ == rows@.push(row),
        rows@.len() > 0,
    ensures
        rows@.last().id == row.id ==> {
            &&& more@.len() == keys@.len()
            &&& more@.last().name@ == keys@.last().name@
            &&& more@.last().referenced_table@ == keys@.last().referenced_table@
            &&& texts(more@.last().columns@) == texts(keys@.last().columns@).push(row.from@)
            &&& row.to is None && !parents.map().contains_key(row.table@) ==> texts(
                more@.last().referenced_columns@,
            ) == texts(keys@.last().referenced_columns@)
        },
        rows@.last().id != row.id ==> {
            &&& more@.len() == keys@.len() + 1
            &&& more@.last().referenced_table@ == row.table@
            &&& texts(more@.last().columns@) == seq![row.from@]
            &&& row.to is None && !parents.map().contains_key(row.table@)
                ==> more@.last().referenced_columns@.len() == 0
        },
        forall|k: int|
            0 <= k < keys@.len() && (k < keys@.len() - 1 || rows@.last().id != row.id) ==> (
            #[trigger] more@[k])@ == keys@[k]@,
{
    let p = parents.map();
    let now = longer@;
    assert(now.drop_last() =~= rows@);
    assert(now[now.len() - 2] == rows@.last());
    law_foreign_keys_keep_every_column(table@, rows@, p);
    let a = key_views(keys@);
    let b = key_views(more@);
    assert(a == foreign_keys(table@, rows@, p));
    assert(b == foreign_keys(table@, now, p));
    assert(b.len() == more@.len());
    assert(b[more@.len() - 1] == more@.last()@);
    assert(a[keys@.len() - 1] == keys@.last()@);
    assert forall|k: int|
        0 <= k < keys@.len() && (k < keys@.len() - 1 || rows@.last().id != row.id) implies (
    #[trigger] more@[k])@ == keys@[k]@ by {
        assert(b[k] == more@[k]@);
        assert(a[k] == keys@[k]@);
    }
    if rows@.last().id != row.id {
        assert(texts(more@.last().columns@) =~= seq![row.from@]);
        assert(more@.last()@.referenced_columns.len() == more@.last().referenced_columns@.len());
    }
}

/// The parents whose keys are needed are the tables of the rows that name no
/// column, each once.
pub proof fn law_parents_are_those_of_implicit_rows(
    rows: &[ForeignKeyRow],
    names: Vec<String>,
    name: Seq<char>,
)
    requires
        call_ensures(parent_tables, (rows,), names),
    ensures
        (exists|k: int| 0 <= k < names@.len() && (#[trigger] names@[k])@ == name) <==> (exists|i: int|
            {
                &&& 0 <= i < rows@.len()
                &&& (#[trigger] rows@[i]).table@ == name
                &&& (rows@[i].to is None || rows@[i].to->0@.len() == 0)
            }),
        forall|i: int, j: int|
            0 <= i < j < names@.len() ==> (#[trigger] names@[i])@ != (#[trigger] names@[j])@,
{
    lemma_needed_parents(rows@, name);
    let list = needed_parents(rows@);
    assert(texts(names@) == list);
    assert forall|k: int| 0 <= k < names@.len() implies (#[trigger] names@[k])@ == list[k] by {
        assert(texts(names@)[k] == names@[k]@);
    }
    if list.contains(name) {
        let k = choose|k: int| 0 <= k < list.len() && list[k] == name;
        assert(names@[k]@ == name);
    }
    if exists|k: int| 0 <= k < names@.len() && (#[trigger] names@[k])@ == name {
        let k = choose|k: int| 0 <= k < names@.len() && (#[trigger] names@[k])@ == name;
        assert(list[k] == name);
        assert(list.contains(name));
    }
}

proof fn lemma_needed_parents(rows: Seq<ForeignKeyRow>, name: Seq<char>)
    ensures
        needed_parents(rows).contains(name) <==> (exists|i: int|
            0 <= i < rows.len() && (#[trigger] rows[i]).table@ == name && (rows[i].to is None
                || rows[i].to->0@.len() == 0)),
        forall|i: int, j: int|
            0 <= i < j < needed_parents(rows).len() ==> #[trigger] needed_parents(rows)[i]
                != #[trigger] needed_parents(rows)[j],
    decreases rows.len(),
{
    if rows.len() > 0 {
        let front = rows.drop_last();
        let before = needed_parents(front);
        let list = needed_parents(rows);
        lemma_needed_parents(front, name);
        assert forall|i: int| 0 <= i < front.len() implies rows[i] == #[trigger] front[i] by {}
        let n = rows.len() - 1;
        if before.contains(name) {
            let k = choose|k: int| 0 <= k < before.len() && before[k] == name;
            assert(list[k] == name);
            let i = choose|i: int|
                0 <= i < front.len() && (#[trigger] front[i]).table@ == name && (front[i].to is None
                    || front[i].to->0@.len() == 0);
            assert(rows[i].table@ == name);
        } else if rows[n].table@ == name && implicit(rows[n]) {
            assert(list.last() == name);
            assert(list.contains(name));
        } else {
            if list.contains(name) {
                let k = choose|k: int| 0 <= k < list.len() && list[k] == name;
                assert(before[k] == name);
            }
            assert forall|i: int| 0 <= i < rows.len() implies !((#[trigger] rows[i]).table@ == name && (
            rows[i].to is None || rows[i].to->0@.len() == 0)) by {
                if i < n {
                    assert(front[i] == rows[i]);
                }
            }
        }
    }
}

/// A column is what its row reports: its name, its type in lower case, whether it
/// may be NULL, its default and its place from 1.
pub proof fn law_columns_are_as_reported(
    rows: Vec<TableInfoRow>,
    r: (Vec<Column>, Vec<String>),
    i: int,
)
    requires
        call_requires(assemble_columns, (rows,)),
        call_ensures(assemble_columns, (rows,), r),
        0 <= i < rows@.len(),
        rows@[i].cid < u32::MAX,
        rows@[i].cid >= 0,
    ensures
        r.0@.len() == rows@.len(),
        r.0@[i].name@ == rows@[i].name@,
        r.0@[i].data_type@ == lowercased(rows@[i].data_type@),
        r.0@[i].nullable <==> rows@[i].notnull == 0,
        r.0@[i].ordinal == rows@[i].cid + 1,
        r.0@[i].comment is None,
        rows@[i].default matches Some(text) ==> (r.0@[i].default matches Some(kept) && kept@
            == text@),
        rows@[i].default is None ==> r.0@[i].default is None,
{
    assert(reports(rows@[i], r.0@[i]));
}

/// The columns with a place in the primary key.
pub open spec fn placed(rows: Seq<TableInfoRow>) -> Seq<TableInfoRow> {
    rows.filter(|row: TableInfoRow| row.pk > 0)
}

proof fn lemma_key_parts(rows: Seq<TableInfoRow>)
    ensures
        key_parts(rows).len() == placed(rows).len(),
        forall|p: (i64, Seq<char>)|
            #![trigger key_parts(rows).contains(p)]
            key_parts(rows).contains(p) <==> (exists|i: int|
                0 <= i < rows.len() && (#[trigger] rows[i]).pk > 0 && (rows[i].pk, rows[i].name@)
                    == p),
    decreases rows.len(),
{
    reveal(Seq::filter);
    if rows.len() > 0 {
        let front = rows.drop_last();
        let parts = key_parts(front);
        let all = key_parts(rows);
        let n = rows.len() - 1;
        lemma_key_parts(front);
        assert forall|p: (i64, Seq<char>)| #![trigger all.contains(p)]
            all.contains(p) <==> (exists|i: int|
                0 <= i < rows.len() && (#[trigger] rows[i]).pk > 0 && (rows[i].pk, rows[i].name@)
                    == p) by {
            if parts.contains(p) {
                let k = choose|k: int| 0 <= k < parts.len() && parts[k] == p;
                assert(all[k] == p);
                let i = choose|i: int|
                    0 <= i < front.len() && (#[trigger] front[i]).pk > 0 && (
                        front[i].pk,
                        front[i].name@,
                    ) == p;
                assert(rows[i] == front[i]);
            } else if rows[n].pk > 0 && (rows[n].pk, rows[n].name@) == p {
                assert(all[all.len() - 1] == p);
            } else {
                if all.contains(p) {
                    let k = choose|k: int| 0 <= k < all.len() && all[k] == p;
                    assert(parts[k] == p);
                }
                assert forall|i: int| 0 <= i < rows.len() implies !((#[trigger] rows[i]).pk > 0 && (
                    rows[i].pk,
                    rows[i].name@,
                ) == p) by {
                    if i < n {
                        assert(front[i] == rows[i]);
                    }
                }
            }
        }
    }
}

/// The primary key is the columns with a place in it, in the order of their
/// places: one name for each of them, and the lower place first.
pub proof fn law_primary_keys_are_in_the_order_of_their_places(
    rows: Vec<TableInfoRow>,
    r: (Vec<Column>, Vec<String>),
    a: int,
    b: int,
)
    requires
        call_requires(assemble_columns, (rows,)),
        call_ensures(assemble_columns, (rows,), r),
        0 <= a < rows@.len(),
        0 <= b < rows@.len(),
        0 < rows@[a].pk < rows@[b].pk,
    ensures
        r.1@.len() == placed(rows@).len(),
        exists|i: int, j: int|
            0 <= i < j < r.1@.len() && (#[trigger] r.1@[i])@ == rows@[a].name@ && (
            #[trigger] r.1@[j])@ == rows@[b].name@,
{
    law_primary_keys_have_the_columns_with_a_place(rows, r);
    let names = texts(r.1@);
    let parts = choose|parts: Seq<(i64, Seq<char>)>|
        {
            &&& #[trigger] in_key_order(parts)
            &&& parts.to_multiset() == key_parts(rows@).to_multiset()
            &&& names == names_of(parts)
        };
    let x = (rows@[a].pk, rows@[a].name@);
    let y = (rows@[b].pk, rows@[b].name@);
    lemma_key_parts(rows@);
    parts.to_multiset_ensures();
    key_parts(rows@).to_multiset_ensures();
    assert(key_parts(rows@).contains(x));
    assert(key_parts(rows@).contains(y));
    assert(key_parts(rows@).to_multiset().count(x) > 0);
    assert(key_parts(rows@).to_multiset().count(y) > 0);
    assert(parts.contains(x));
    assert(parts.contains(y));
    let i = choose|i: int| 0 <= i < parts.len() && parts[i] == x;
    let j = choose|j: int| 0 <= j < parts.len() && parts[j] == y;
    if j < i {
        assert(!part_before(parts[i], parts[j]));
    }
    assert(names[i] == r.1@[i]@ && names[j] == r.1@[j]@);
}

/// The primary key has one name for each column with a place in it, and no other.
pub proof fn law_primary_keys_have_the_columns_with_a_place(
    rows: Vec<TableInfoRow>,
    r: (Vec<Column>, Vec<String>),
)
    requires
        call_requires(assemble_columns, (rows,)),
        call_ensures(assemble_columns, (rows,), r),
    ensures
        r.1@.len() == placed(rows@).len(),
        forall|k: int|
            0 <= k < r.1@.len() ==> exists|i: int|
                0 <= i < rows@.len() && (#[trigger] rows@[i]).pk > 0 && rows@[i].name@ == (
                #[trigger] r.1@[k])@,
{
    let names = texts(r.1@);
    assert(key_names(rows@, names));
    let parts = choose|parts: Seq<(i64, Seq<char>)>|
        {
            &&& #[trigger] in_key_order(parts)
            &&& parts.to_multiset() == key_parts(rows@).to_multiset()
            &&& names == names_of(parts)
        };
    lemma_key_parts(rows@);
    parts.to_multiset_ensures();
    key_parts(rows@).to_multiset_ensures();
    assert(parts.len() == key_parts(rows@).len());
    assert(names.len() == r.1@.len());
    assert(names.len() == parts.len());
    assert forall|k: int| 0 <= k < r.1@.len() implies exists|i: int|
        0 <= i < rows@.len() && (#[trigger] rows@[i]).pk > 0 && rows@[i].name@ == (
        #[trigger] r.1@[k])@ by {
        assert(names[k] == r.1@[k]@);
        assert(parts.contains(parts[k]));
        assert(parts.to_multiset().count(parts[k]) > 0);
        assert(key_parts(rows@).contains(parts[k]));
    }
}

/// An index is what its row reports: its name, its columns, whether it is unique,
/// and whether it belongs to the primary key. A table whose primary key has no
/// index shows one more, named after the table.
pub proof fn law_indexes_are_as_reported(
    table: &str,
    rows: &[IndexRow],
    primary_key: &[String],
    r: Vec<Index>,
    i: int,
)
    requires
        call_ensures(assemble_indexes, (table, rows, primary_key), r),
        0 <= i < rows@.len(),
    ensures
        r@[i].name@ == rows@[i].name@,
        r@[i].unique <==> rows@[i].unique != 0,
        r@[i].primary <==> rows@[i].origin@ == "pk"@,
        (forall|k: int| 0 <= k < rows@[i].columns@.len() ==> (#[trigger] rows@[i].columns@[k]) is Some)
            ==> {
            &&& r@[i].columns@.len() == rows@[i].columns@.len()
            &&& forall|k: int|
                0 <= k < rows@[i].columns@.len() ==> Some(#[trigger] r@[i].columns@[k])
                    == rows@[i].columns@[k]
        },
        rows@[i].origin@ == "pk"@ || primary_key@.len() == 0 ==> r@.len() == rows@.len(),
{
    assert(index_of(rows@[i], r@[i]));
    let parts = rows@[i].columns@;
    if forall|k: int| 0 <= k < parts.len() ==> (#[trigger] parts[k]) is Some {
        lemma_all_named(parts);
    }
}

/// A table without an index for its primary key shows one that the key's columns
/// make up.
pub proof fn law_every_primary_key_has_an_index(
    table: &str,
    rows: &[IndexRow],
    primary_key: &[String],
    r: Vec<Index>,
)
    requires
        call_ensures(assemble_indexes, (table, rows, primary_key), r),
        forall|i: int| 0 <= i < rows@.len() ==> (#[trigger] rows@[i]).origin@ != "pk"@,
        primary_key@.len() > 0,
    ensures
        r@.len() == rows@.len() + 1,
        r@.last().name@ == table@ + "_pk"@,
        r@.last().columns@ == primary_key@,
        r@.last().unique,
        r@.last().primary,
{
}

proof fn lemma_all_named(parts: Seq<Option<String>>)
    requires
        forall|k: int| 0 <= k < parts.len() ==> (#[trigger] parts[k]) is Some,
    ensures
        named_parts(parts).len() == parts.len(),
        forall|k: int|
            0 <= k < parts.len() ==> Some(#[trigger] named_parts(parts)[k]) == parts[k],
    decreases parts.len(),
{
    if parts.len() > 0 {
        assert(parts[parts.len() - 1] is Some);
        lemma_all_named(parts.drop_last());
    }
}

/// The columns of an index are the parts that have a name, each in its place.
pub proof fn law_parts_without_a_name_are_left_out(
    before: Seq<Option<String>>,
    name: String,
    after: Seq<Option<String>>,
)
    ensures
        named_parts(Seq::empty()) == Seq::<String>::empty(),
        named_parts(before + seq![Some(name)] + after) == named_parts(before) + seq![name]
            + named_parts(after),
        named_parts(before + seq![None::<String>] + after) == named_parts(before) + named_parts(after),
    decreases after.len(),
{
    let a = before + seq![Some(name)] + after;
    let b = before + seq![None::<String>] + after;
    if after.len() > 0 {
        let front = after.drop_last();
        law_parts_without_a_name_are_left_out(before, name, front);
        assert(a.drop_last() =~= before + seq![Some(name)] + front);
        assert(b.drop_last() =~= before + seq![None::<String>] + front);
        assert(a.last() == after.last() && b.last() == after.last());
    } else {
        assert(a.drop_last() =~= before);
        assert(b.drop_last() =~= before);
        assert(a.last() == Some(name) && b.last() is None);
    }
    assert(named_parts(a) =~= named_parts(before) + seq![name] + named_parts(after));
    assert(named_parts(b) =~= named_parts(before) + named_parts(after));
}

proof fn lemma_only_parts(
    before: Seq<MasterObject>,
    object: MasterObject,
    after: Seq<MasterObject>,
    views: bool,
)
    ensures
        only(before + seq![object] + after, views) == only(before, views) + (if (object.kind@
            == "view"@) == views {
            seq![object]
        } else {
            Seq::empty()
        }) + only(after, views),
    decreases after.len(),
{
    let all = before + seq![object] + after;
    let mid = if (object.kind@ == "view"@) == views {
        seq![object]
    } else {
        Seq::empty()
    };
    if after.len() > 0 {
        let front = after.drop_last();
        lemma_only_parts(before, object, front, views);
        assert(all.drop_last() =~= before + seq![object] + front);
        assert(all.last() == after.last());
    } else {
        assert(all.drop_last() =~= before);
        assert(all.last() == object);
    }
    assert(only(all, views) =~= only(before, views) + mid + only(after, views));
}

/// Every object of a file is in its tree, a view among the views and a table
/// among the tables, behind those that stand before it. It has the name, the
/// columns, the keys and the indexes that were read for it.
pub proof fn law_every_object_is_in_the_tree(
    objects: Vec<MasterObject>,
    tree: Vec<Database>,
    n: int,
) -> (k: int)
    requires
        call_ensures(assemble_tree, (objects,), tree),
        0 <= n < objects@.len(),
    ensures
        tree@.len() == 1,
        tree@[0].name@ == "main"@,
        tree@[0].is_default,
        tree@[0].schemas@.len() == 1,
        tree@[0].schemas@[0].name@ == "main"@,
        objects@[n].kind@ == "view"@ ==> {
            let views = tree@[0].schemas@[0].views@;
            &&& 0 <= k < views.len()
            &&& k == only(objects@.take(n), true).len()
            &&& views[k].name@ == objects@[n].name@
            &&& views[k].schema@ == "main"@
            &&& views[k].columns@ == objects@[n].columns@
            &&& views[k].definition == objects@[n].sql
        },
        objects@[n].kind@ != "view"@ ==> {
            let tables = tree@[0].schemas@[0].tables@;
            &&& 0 <= k < tables.len()
            &&& k == only(objects@.take(n), false).len()
            &&& tables[k].name@ == objects@[n].name@
            &&& tables[k].schema@ == "main"@
            &&& tables[k].row_count is None
            &&& tables[k].primary_key@ == objects@[n].primary_key@
            &&& tables[k].foreign_keys@ == objects@[n].foreign_keys@
            &&& tables[k].indexes@ == objects@[n].indexes@
            &&& tables[k].columns@.len() == objects@[n].columns@.len()
            &&& forall|i: int|
                #![trigger tables[k].columns@[i]]
                0 <= i < tables[k].columns@.len() ==> {
                    let column = tables[k].columns@[i];
                    let read = objects@[n].columns@[i];
                    &&& column.name == read.name
                    &&& column.data_type == read.data_type
                    &&& column.nullable == read.nullable
                    &&& column.default == read.default
                    &&& column.ordinal == read.ordinal
                    &&& column.comment == read.comment
                    &&& column.is_primary_key <==> (exists|p: int|
                        0 <= p < objects@[n].primary_key@.len() && (
                        #[trigger] objects@[n].primary_key@[p])@ == read.name@)
                }
        },
{
    let before = objects@.take(n);
    let after = objects@.skip(n + 1);
    let object = objects@[n];
    assert(objects@ =~= before + seq![object] + after);
    let views = object.kind@ == "view"@;
    lemma_only_parts(before, object, after, views);
    let k = only(before, views).len() as int;
    assert(only(objects@, views)[k] == object);
    if views {
        assert(view_of(object, tree@[0].schemas@[0].views@[k]));
    } else {
        assert(table_of(object, tree@[0].schemas@[0].tables@[k]));
    }
    k
}

/// Tables and views together are the objects, and the objects of a kind keep
/// their order.
pub proof fn law_objects_keep_their_order(
    before: Seq<MasterObject>,
    object: MasterObject,
    after: Seq<MasterObject>,
)
    ensures
        object.kind@ == "view"@ ==> {
            &&& only(before + seq![object] + after, true) == only(before, true) + seq![object] + only(
                after,
                true,
            )
            &&& only(before + seq![object] + after, false) == only(before, false) + only(
                after,
                false,
            )
        },
        object.kind@ != "view"@ ==> {
            &&& only(before + seq![object] + after, false) == only(before, false) + seq![object]
                + only(after, false)
            &&& only(before + seq![object] + after, true) == only(before, true) + only(after, true)
        },
{
    lemma_only_parts(before, object, after, true);
    lemma_only_parts(before, object, after, false);
    assert(only(before, true) + Seq::<MasterObject>::empty() =~= only(before, true));
    assert(only(before, false) + Seq::<MasterObject>::empty() =~= only(before, false));
}

} // verus!
