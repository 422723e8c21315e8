//! Which foreign keys of a cell can be followed, and to where.
use vstd::prelude::*;

use crate::editing::{
    column_from, has_foreign_key, in_foreign_key, lemma_column_from, locate_column, EditableGrid,
    GridView,
};
use crate::engine::Engine;
use crate::foreign_key::{
    all_filterable, has_null, lookup_refusal, pair_count, ForeignKeyLookupRequest,
    LookupRequestView,
};
use crate::query::QueryResult;
use crate::schema::{among, copy_texts, is_among, ForeignKey};
use crate::text::{is_blank, same_text, texts, trim_of};
use crate::value::{filter_text, row_values, values, CellValue, ColumnMeta, ValueView};

verus! {

/// A foreign key of a cell: how it is called, and the lookup that follows it
/// with the column to show, or why it cannot be followed.
pub struct ForeignKeyNavigationOption {
    pub label: String,
    pub lookup: Result<(ForeignKeyLookupRequest, String), String>,
}

/// The model of [`ForeignKeyNavigationOption`].
pub struct OptionView {
    pub label: Seq<char>,
    pub lookup: Result<(LookupRequestView, Seq<char>), Seq<char>>,
}

impl View for ForeignKeyNavigationOption {
    type V = OptionView;

    open spec fn view(&self) -> OptionView {
        OptionView { label: self.label@, lookup: lookup_view(self.lookup) }
    }
}

pub open spec fn option_views(options: Seq<ForeignKeyNavigationOption>) -> Seq<OptionView> {
    options.map_values(|o: ForeignKeyNavigationOption| o@)
}

/// The model of a lookup.
pub open spec fn lookup_view(r: Result<(ForeignKeyLookupRequest, String), String>) -> Result<
    (LookupRequestView, Seq<char>),
    Seq<char>,
> {
    match r {
        Ok((request, focus)) => Ok((request@, focus@)),
        Err(message) => Err(message@),
    }
}

/// The name of the table that a foreign key refers to.
pub open spec fn referenced_name(key: ForeignKey) -> Seq<char> {
    if trim_of(key.referenced_schema@).len() == 0 {
        key.referenced_table@
    } else {
        key.referenced_schema@ + "."@ + key.referenced_table@
    }
}

/// How a foreign key is called.
pub open spec fn key_label(key: ForeignKey) -> Seq<char> {
    if trim_of(key.name@).len() == 0 {
        "Open "@ + referenced_name(key)
    } else {
        key.name@ + " → "@ + referenced_name(key)
    }
}

pub fn foreign_key_label(key: &ForeignKey) -> (r: String)
    ensures
        r@ == key_label(*key),
{
    let mut target = String::new();
    if !is_blank(key.referenced_schema.as_str()) {
        target.append(key.referenced_schema.as_str());
        target.append(".");
    }
    target.append(key.referenced_table.as_str());
    assert(target@ =~= referenced_name(*key));
    let mut out = String::new();
    if is_blank(key.name.as_str()) {
        out.append("Open ");
    } else {
        out.append(key.name.as_str());
        out.append(" → ");
    }
    out.append(target.as_str());
    assert(out@ =~= key_label(*key));
    out
}

/// Why a foreign key of this table cannot be followed at all: a MySQL key into
/// another catalog.
pub open spec fn unavailable(v: GridView, key: ForeignKey) -> Option<Seq<char>> {
    if v.source_engine == Engine::MySql && key.referenced_schema@ != v.target.schema@ {
        Some(
            "Cross-catalog MySQL navigation is unavailable; referenced catalog "@
                + key.referenced_schema@ + " is not loaded"@,
        )
    } else {
        None
    }
}

/// The value of the key column at `i`, or why it does not identify a row.
pub open spec fn key_value(
    v: GridView,
    columns: Seq<ColumnMeta>,
    rows: Seq<Seq<ValueView>>,
    row: int,
    key: ForeignKey,
    i: int,
) -> Result<ValueView, Seq<char>> {
    if trim_of(key.referenced_columns@[i]@).len() == 0 {
        Err("Referenced-column metadata is unavailable for this foreign key"@)
    } else {
        match column_from(columns, key.columns@[i]@, 0) {
            None => Err(
                "Foreign-key column "@ + key.columns@[i]@ + " is not present in this result"@,
            ),
            Some(at) => if v.displayed(row, at as usize) is Some {
                Err(
                    "Commit or revert pending edits to the foreign-key columns before navigating"@,
                )
            } else if row >= rows.len() || at >= rows[row].len() {
                Err("The selected row is no longer available"@)
            } else {
                match rows[row][at] {
                    ValueView::Null => Err(
                        "NULL foreign-key values do not identify a referenced row"@,
                    ),
                    ValueView::Bytes(_) | ValueView::Json(_) => Err(
                        "This foreign-key value type cannot be carried into a bounded table filter"@,
                    ),
                    ValueView::Float { text, finite } => if finite {
                        Ok(ValueView::Float { text, finite })
                    } else {
                        Err("Non-finite foreign-key values cannot identify a referenced row"@)
                    },
                    value => Ok(value),
                }
            },
        }
    }
}

/// The values of the first `n` key columns, or why the first of them that does
/// not identify a row does not.
pub open spec fn key_values(
    v: GridView,
    columns: Seq<ColumnMeta>,
    rows: Seq<Seq<ValueView>>,
    row: int,
    key: ForeignKey,
    n: nat,
) -> Result<Seq<ValueView>, Seq<char>>
    decreases n,
{
    if n == 0 {
        Ok(Seq::empty())
    } else {
        match key_values(v, columns, rows, row, key, (n - 1) as nat) {
            Err(why) => Err(why),
            Ok(list) => match key_value(v, columns, rows, row, key, n - 1) {
                Err(why) => Err(why),
                Ok(value) => Ok(list.push(value)),
            },
        }
    }
}

/// The lookup that follows a foreign key from a row and the column to show, or
/// why it cannot be followed.
pub open spec fn key_lookup(
    v: GridView,
    columns: Seq<ColumnMeta>,
    rows: Seq<Seq<ValueView>>,
    row: int,
    key: ForeignKey,
) -> Result<(LookupRequestView, Seq<char>), Seq<char>> {
    if unavailable(v, key) is Some {
        Err(unavailable(v, key)->0)
    } else if key.columns@.len() == 0 || key.columns@.len() != key.referenced_columns@.len() {
        Err("Foreign-key metadata is incomplete for this relationship"@)
    } else if v.is_inserted(row) {
        Err("Commit the inserted row before navigating a foreign key"@)
    } else if v.is_deleted(row) {
        Err("Revert the pending row delete before navigating a foreign key"@)
    } else {
        match key_values(v, columns, rows, row, key, key.columns@.len()) {
            Err(why) => Err(why),
            Ok(list) => Ok(
                (
                    LookupRequestView {
                        connection_id: v.target.connection_id@,
                        database: v.target.database@,
                        schema: key.referenced_schema@,
                        table: key.referenced_table@,
                        columns: texts(key.referenced_columns@),
                        values: list,
                    },
                    key.referenced_columns@[0]@,
                ),
            ),
        }
    }
}

/// The foreign keys that have this column, in their order.
pub open spec fn keys_with(keys: Seq<ForeignKey>, name: Seq<char>) -> Seq<ForeignKey>
    decreases keys.len(),
{
    if keys.len() == 0 {
        Seq::empty()
    } else if among(keys.last().columns@, name) {
        keys_with(keys.drop_last(), name).push(keys.last())
    } else {
        keys_with(keys.drop_last(), name)
    }
}

/// Whether a column has a foreign key and none of them can be followed.
pub open spec fn all_unavailable(v: GridView, name: Seq<char>) -> bool {
    &&& in_foreign_key(v.table.foreign_keys@, name)
    &&& forall|k: int|
        0 <= k < v.table.foreign_keys@.len() && among(
            (#[trigger] v.table.foreign_keys@[k]).columns@,
            name,
        ) ==> unavailable(v, v.table.foreign_keys@[k]) is Some
}

/// The columns among the first `n` that belong to a foreign key.
pub open spec fn linked_columns(v: GridView, columns: Seq<ColumnMeta>, n: nat) -> Seq<usize>
    decreases n,
{
    if n == 0 {
        Seq::empty()
    } else if in_foreign_key(v.table.foreign_keys@, columns[n - 1].name@) {
        linked_columns(v, columns, (n - 1) as nat).push((n - 1) as usize)
    } else {
        linked_columns(v, columns, (n - 1) as nat)
    }
}

/// The columns among the first `n` whose foreign keys can all not be followed.
pub open spec fn dead_columns(v: GridView, columns: Seq<ColumnMeta>, n: nat) -> Seq<usize>
    decreases n,
{
    if n == 0 {
        Seq::empty()
    } else if all_unavailable(v, columns[n - 1].name@) {
        dead_columns(v, columns, (n - 1) as nat).push((n - 1) as usize)
    } else {
        dead_columns(v, columns, (n - 1) as nat)
    }
}

impl EditableGrid {
    /// The columns that belong to a foreign key.
    pub fn foreign_key_columns(&self, result: &QueryResult) -> (r: Vec<usize>)
        ensures
            r@ == linked_columns(self@, result.columns@, result.columns@.len()),
    {
        let mut out: Vec<usize> = Vec::new();
        let mut column: usize = 0;
        assert(out@ =~= linked_columns(self@, result.columns@, 0));
        while column < result.columns.len()
            invariant
                column <= result.columns@.len(),
                out@ == linked_columns(self@, result.columns@, column as nat),
            decreases result.columns@.len() - column,
        {
            if has_foreign_key(
                self.table().foreign_keys.as_slice(),
                result.columns[column].name.as_str(),
            ) {
                out.push(column);
            }
            column += 1;
        }
        out
    }

    /// The columns whose foreign keys can all not be followed.
    pub fn foreign_key_unavailable_columns(&self, result: &QueryResult) -> (r: Vec<usize>)
        ensures
            r@ == dead_columns(self@, result.columns@, result.columns@.len()),
    {
        let mut out: Vec<usize> = Vec::new();
        let mut column: usize = 0;
        assert(out@ =~= dead_columns(self@, result.columns@, 0));
        while column < result.columns.len()
            invariant
                column <= result.columns@.len(),
                out@ == dead_columns(self@, result.columns@, column as nat),
            decreases result.columns@.len() - column,
        {
            if self.column_unavailable(result.columns[column].name.as_str()) {
                out.push(column);
            }
            column += 1;
        }
        out
    }

    /// Whether a column has a foreign key and none of them can be followed.
    pub fn column_unavailable(&self, name: &str) -> (r: bool)
        ensures
            r == all_unavailable(self@, name@),
    {
        let keys = &self.table().foreign_keys;
        let mut any = false;
        let mut i: usize = 0;
        while i < keys.len()
            invariant
                i <= keys@.len(),
                keys == self@.table.foreign_keys,
                any == exists|k: int| 0 <= k < i && among((#[trigger] keys@[k]).columns@, name@),
                forall|k: int|
                    0 <= k < i && among((#[trigger] keys@[k]).columns@, name@) ==> unavailable(
                        self@,
                        keys@[k],
                    ) is Some,
            decreases keys@.len() - i,
        {
            if is_among(keys[i].columns.as_slice(), name) {
                any = true;
                if self.navigation_unavailable_reason(&keys[i]).is_none() {
                    assert(unavailable(self@, keys@[i as int]) is None);
                    return false;
                }
            }
            i += 1;
        }
        any
    }

    /// Why a foreign key cannot be followed at all.
    pub fn navigation_unavailable_reason(&self, key: &ForeignKey) -> (r: Option<String>)
        ensures
            crate::value::opt_text(r) == unavailable(self@, *key),
    {
        let mysql = match self.source_engine() {
            Engine::MySql => true,
            _ => false,
        };
        if mysql && !same_text(key.referenced_schema.as_str(), self.schema_name()) {
            let mut message =
                "Cross-catalog MySQL navigation is unavailable; referenced catalog ".to_owned();
            message.append(key.referenced_schema.as_str());
            message.append(" is not loaded");
            Some(message)
        } else {
            None
        }
    }

    fn key_column_value(
        &self,
        result: &QueryResult,
        row: usize,
        key: &ForeignKey,
        i: usize,
    ) -> (r: Result<CellValue, String>)
        requires
            self.wf(),
            i < key.columns@.len(),
            key.columns@.len() == key.referenced_columns@.len(),
        ensures
            match r {
                Ok(value) => key_value(
                    self@,
                    result.columns@,
                    row_values(result.rows@),
                    row as int,
                    *key,
                    i as int,
                ) == Ok::<ValueView, Seq<char>>(value@),
                Err(why) => key_value(
                    self@,
                    result.columns@,
                    row_values(result.rows@),
                    row as int,
                    *key,
                    i as int,
                ) == Err::<ValueView, Seq<char>>(why@),
            },
    {
        if is_blank(key.referenced_columns[i].as_str()) {
            return Err(
                "Referenced-column metadata is unavailable for this foreign key".to_owned(),
            );
        }
        let at = match locate_column(result.columns.as_slice(), key.columns[i].as_str()) {
            Some(at) => at,
            None => {
                let mut message = "Foreign-key column ".to_owned();
                message.append(key.columns[i].as_str());
                message.append(" is not present in this result");
                return Err(message);
            },
        };
        if self.display_value(row, at).is_some() {
            return Err(
                "Commit or revert pending edits to the foreign-key columns before navigating".to_owned(),
            );
        }
        if row >= result.rows.len() || at >= result.rows[row].len() {
            return Err("The selected row is no longer available".to_owned());
        }
        let value = &result.rows[row][at];
        match value {
            CellValue::Null => {
                return Err("NULL foreign-key values do not identify a referenced row".to_owned());
            },
            CellValue::Bytes(_) | CellValue::Json(_) => {
                return Err(
                    "This foreign-key value type cannot be carried into a bounded table filter".to_owned(),
                );
            },
            CellValue::Float(cell) => {
                if !cell.finite {
                    return Err(
                        "Non-finite foreign-key values cannot identify a referenced row".to_owned(),
                    );
                }
            },
            _ => {},
        }
        Ok(value.clone())
    }

    fn key_column_values(&self, result: &QueryResult, row: usize, key: &ForeignKey) -> (r: Result<
        Vec<CellValue>,
        String,
    >)
        requires
            self.wf(),
            key.columns@.len() == key.referenced_columns@.len(),
        ensures
            match r {
                Ok(list) => key_values(
                    self@,
                    result.columns@,
                    row_values(result.rows@),
                    row as int,
                    *key,
                    key.columns@.len(),
                ) == Ok::<Seq<ValueView>, Seq<char>>(values(list@)),
                Err(why) => key_values(
                    self@,
                    result.columns@,
                    row_values(result.rows@),
                    row as int,
                    *key,
                    key.columns@.len(),
                ) == Err::<Seq<ValueView>, Seq<char>>(why@),
            },
    {
        let mut out: Vec<CellValue> = Vec::new();
        let mut i: usize = 0;
        assert(values(out@) =~= Seq::empty());
        while i < key.columns.len()
            invariant
                i <= key.columns@.len(),
                self.wf(),
                key.columns@.len() == key.referenced_columns@.len(),
                key_values(
                    self@,
                    result.columns@,
                    row_values(result.rows@),
                    row as int,
                    *key,
                    i as nat,
                ) == Ok::<Seq<ValueView>, Seq<char>>(values(out@)),
            decreases key.columns@.len() - i,
        {
            match self.key_column_value(result, row, key, i) {
                Ok(value) => {
                    let ghost before = out@;
                    let ghost new = value@;
                    out.push(value);
                    assert(values(out@) =~= values(before).push(new));
                },
                Err(why) => {
                    proof {
                        lemma_key_values_fail(
                            self@,
                            result.columns@,
                            row_values(result.rows@),
                            row as int,
                            *key,
                            i as nat + 1,
                            key.columns@.len(),
                        );
                    }
                    return Err(why);
                },
            }
            i += 1;
        }
        Ok(out)
    }

    /// The lookup that follows a foreign key from a row and the column to show,
    /// or why it cannot be followed.
    pub fn foreign_key_lookup_for_key(
        &self,
        result: &QueryResult,
        row: usize,
        key: &ForeignKey,
    ) -> (r: Result<(ForeignKeyLookupRequest, String), String>)
        requires
            self.wf(),
        ensures
            lookup_view(r) == key_lookup(
                self@,
                result.columns@,
                row_values(result.rows@),
                row as int,
                *key,
            ),
    {
        if let Some(reason) = self.navigation_unavailable_reason(key) {
            return Err(reason);
        }
        if key.columns.len() == 0 || key.columns.len() != key.referenced_columns.len() {
            return Err("Foreign-key metadata is incomplete for this relationship".to_owned());
        }
        if self.row_inserted(row) {
            return Err("Commit the inserted row before navigating a foreign key".to_owned());
        }
        if self.row_deleted(row) {
            return Err("Revert the pending row delete before navigating a foreign key".to_owned());
        }
        match self.key_column_values(result, row, key) {
            Err(why) => Err(why),
            Ok(list) => Ok(
                (
                    ForeignKeyLookupRequest {
                        connection_id: self.target().connection_id.clone(),
                        database: self.target().database.clone(),
                        schema: key.referenced_schema.clone(),
                        table: key.referenced_table.clone(),
                        columns: copy_texts(key.referenced_columns.as_slice()),
                        values: list,
                    },
                    key.referenced_columns[0].clone(),
                ),
            ),
        }
    }

    /// The foreign keys of a cell, each with its lookup or the reason why there
    /// is none.
    pub fn foreign_key_navigation_options(&self, result: &QueryResult, row: usize, column: usize) -> (r:
        Result<Vec<ForeignKeyNavigationOption>, String>)
        requires
            self.wf(),
        ensures
            offer_view(r) == offered(
                self@,
                result.columns@,
                row_values(result.rows@),
                row as int,
                column as int,
            ),
    {
        if column >= result.columns.len() {
            return Err("The selected cell is outside the result columns".to_owned());
        }
        let name = &result.columns[column].name;
        let keys = &self.table().foreign_keys;
        let mut out: Vec<ForeignKeyNavigationOption> = Vec::new();
        let mut i: usize = 0;
        assert(keys_with(keys@.take(0), name@) =~= Seq::empty());
        while i < keys.len()
            invariant
                i <= keys@.len(),
                self.wf(),
                keys == self@.table.foreign_keys,
                out@.len() == keys_with(keys@.take(i as int), name@).len(),
                forall|k: int|
                    0 <= k < out@.len() ==> (#[trigger] out@[k])@ == option_of(
                        self@,
                        result.columns@,
                        row_values(result.rows@),
                        row as int,
                        keys_with(keys@.take(i as int), name@)[k],
                    ),
            decreases keys@.len() - i,
        {
            assert(keys@.take(i + 1).drop_last() =~= keys@.take(i as int));
            assert(keys@.take(i + 1).last() == keys@[i as int]);
            if is_among(keys[i].columns.as_slice(), name.as_str()) {
                out.push(
                    ForeignKeyNavigationOption {
                        label: foreign_key_label(&keys[i]),
                        lookup: self.foreign_key_lookup_for_key(result, row, &keys[i]),
                    },
                );
            }
            i += 1;
        }
        assert(keys@.take(keys@.len() as int) =~= keys@);
        if out.len() == 0 {
            return Err("This column is not a foreign key".to_owned());
        }
        proof {
            let rows = row_values(result.rows@);
            assert(option_views(out@) =~= keys_with(keys@, name@).map_values(
                |key: ForeignKey| option_of(self@, result.columns@, rows, row as int, key),
            ));
        }
        Ok(out)
    }
}

/// What a foreign key offers for a row.
pub open spec fn option_of(
    v: GridView,
    columns: Seq<ColumnMeta>,
    rows: Seq<Seq<ValueView>>,
    row: int,
    key: ForeignKey,
) -> OptionView {
    OptionView { label: key_label(key), lookup: key_lookup(v, columns, rows, row, key) }
}

/// What a cell offers: an option for every foreign key of its column, or why
/// there is none.
pub open spec fn offered(
    v: GridView,
    columns: Seq<ColumnMeta>,
    rows: Seq<Seq<ValueView>>,
    row: int,
    column: int,
) -> Result<Seq<OptionView>, Seq<char>> {
    if column >= columns.len() {
        Err("The selected cell is outside the result columns"@)
    } else {
        let keys = keys_with(v.table.foreign_keys@, columns[column].name@);
        if keys.len() == 0 {
            Err("This column is not a foreign key"@)
        } else {
            Ok(keys.map_values(|key: ForeignKey| option_of(v, columns, rows, row, key)))
        }
    }
}

/// The model of what a cell offers.
pub open spec fn offer_view(r: Result<Vec<ForeignKeyNavigationOption>, String>) -> Result<
    Seq<OptionView>,
    Seq<char>,
> {
    match r {
        Ok(options) => Ok(option_views(options@)),
        Err(why) => Err(why@),
    }
}

/// The first reason stays the reason.
proof fn lemma_key_values_fail(
    v: GridView,
    columns: Seq<ColumnMeta>,
    rows: Seq<Seq<ValueView>>,
    row: int,
    key: ForeignKey,
    n: nat,
    m: nat,
)
    requires
        n <= m,
        key_values(v, columns, rows, row, key, n) is Err,
    ensures
        key_values(v, columns, rows, row, key, m) == key_values(v, columns, rows, row, key, n),
    decreases m - n,
{
    if n < m {
        lemma_key_values_fail(v, columns, rows, row, key, n, (m - 1) as nat);
    }
}

proof fn lemma_key_values(
    v: GridView,
    columns: Seq<ColumnMeta>,
    rows: Seq<Seq<ValueView>>,
    row: int,
    key: ForeignKey,
    n: nat,
)
    ensures
        key_values(v, columns, rows, row, key, n) matches Ok(list) ==> list.len() == n && forall|
            i: int,
        |
            0 <= i < n ==> key_value(v, columns, rows, row, key, i) == Ok::<ValueView, Seq<char>>(
                #[trigger] list[i],
            ),
    decreases n,
{
    if n > 0 {
        lemma_key_values(v, columns, rows, row, key, (n - 1) as nat);
    }
}

/// The foreign keys of a column are keys of the table that have it.
proof fn lemma_keys_with(keys: Seq<ForeignKey>, name: Seq<char>, k: int)
    requires
        0 <= k < keys_with(keys, name).len(),
    ensures
        exists|j: int|
            0 <= j < keys.len() && keys_with(keys, name)[k] == #[trigger] keys[j] && among(
                keys[j].columns@,
                name,
            ),
    decreases keys.len(),
{
    let rest = keys_with(keys.drop_last(), name);
    if k < rest.len() {
        lemma_keys_with(keys.drop_last(), name, k);
        let j = choose|j: int|
            0 <= j < keys.drop_last().len() && rest[k] == #[trigger] keys.drop_last()[j] && among(
                keys.drop_last()[j].columns@,
                name,
            );
        assert(keys[j] == keys.drop_last()[j]);
    } else {
        assert(keys_with(keys, name)[k] == keys[keys.len() - 1]);
    }
}

/// A lookup that the grid offers is a proper one: where its table is named, it
/// is not refused, and each of its values can be written in a table filter.
pub proof fn law_offered_lookups_are_accepted(
    v: GridView,
    columns: Seq<ColumnMeta>,
    rows: Seq<Seq<ValueView>>,
    row: int,
    key: ForeignKey,
)
    requires
        key_lookup(v, columns, rows, row, key) is Ok,
        trim_of(v.target.database@).len() > 0,
        trim_of(key.referenced_schema@).len() > 0,
        trim_of(key.referenced_table@).len() > 0,
    ensures
        ({
            let request = (key_lookup(v, columns, rows, row, key)->Ok_0).0;
            &&& lookup_refusal(request) is None
            &&& all_filterable(request)
            &&& pair_count(request) == request.columns.len()
        }),
{
    lemma_key_values(v, columns, rows, row, key, key.columns@.len());
    let request = (key_lookup(v, columns, rows, row, key)->Ok_0).0;
    assert forall|i: int| 0 <= i < request.values.len() implies !((
    #[trigger] request.values[i]) is Null) && filter_text(request.values[i]) is Some by {
        assert(key_value(v, columns, rows, row, key, i) is Ok);
    }
    assert(!has_null(request.values));
}

/// A lookup that the grid offers has every column of the foreign key, each with
/// the value that the row was loaded with, and that value has no edit pending.
pub proof fn law_offered_lookups_carry_the_whole_key(
    v: GridView,
    columns: Seq<ColumnMeta>,
    rows: Seq<Seq<ValueView>>,
    row: int,
    key: ForeignKey,
    i: int,
)
    requires
        key_lookup(v, columns, rows, row, key) is Ok,
        0 <= i < key.columns@.len(),
    ensures
        ({
            let request = (key_lookup(v, columns, rows, row, key)->Ok_0).0;
            let at = column_from(columns, key.columns@[i]@, 0);
            &&& request.columns.len() == request.values.len() == key.columns@.len()
            &&& request.columns[i] == key.referenced_columns@[i]@
            &&& at is Some
            &&& request.values[i] == rows[row][at->0 as int]
            &&& v.displayed(row, at->0 as usize) is None
        }),
{
    lemma_key_values(v, columns, rows, row, key, key.columns@.len());
    let list = (key_lookup(v, columns, rows, row, key)->Ok_0).0.values;
    assert(key_value(v, columns, rows, row, key, i) == Ok::<ValueView, Seq<char>>(list[i]));
}

/// Whether a key column keeps its foreign key from being followed: it is not
/// there, has an edit pending, or its value identifies no row.
pub open spec fn unfit(
    v: GridView,
    columns: Seq<ColumnMeta>,
    rows: Seq<Seq<ValueView>>,
    row: int,
    name: Seq<char>,
) -> bool {
    match column_from(columns, name, 0) {
        None => true,
        Some(at) => {
            ||| v.displayed(row, at as usize) is Some
            ||| row >= rows.len()
            ||| at >= rows[row].len()
            ||| rows[row][at] is Null
            ||| filter_text(rows[row][at]) is None
            ||| rows[row][at] is Bytes
            ||| rows[row][at] is Json
        },
    }
}

/// No lookup is offered for a key into a catalog that is not loaded, for
/// incomplete metadata, from an inserted or deleted row, or where any of the key
/// columns is null, edited or of a value that no filter can carry.
pub proof fn law_unfit_keys_are_not_followed(
    v: GridView,
    columns: Seq<ColumnMeta>,
    rows: Seq<Seq<ValueView>>,
    row: int,
    key: ForeignKey,
)
    requires
        unavailable(v, key) is Some || key.columns@.len() == 0 || key.columns@.len()
            != key.referenced_columns@.len() || v.is_inserted(row) || v.is_deleted(row) || exists|
            i: int,
        |
            0 <= i < key.columns@.len() && unfit(
                v,
                columns,
                rows,
                row,
                (#[trigger] key.columns@[i])@,
            ),
    ensures
        key_lookup(v, columns, rows, row, key) is Err,
{
    if key_lookup(v, columns, rows, row, key) is Ok {
        lemma_key_values(v, columns, rows, row, key, key.columns@.len());
        let list = (key_lookup(v, columns, rows, row, key)->Ok_0).0.values;
        let i = choose|i: int|
            0 <= i < key.columns@.len() && unfit(
                v,
                columns,
                rows,
                row,
                (#[trigger] key.columns@[i])@,
            );
        assert(key_value(v, columns, rows, row, key, i) == Ok::<ValueView, Seq<char>>(list[i]));
    }
}

/// Where the foreign keys of a column can all not be followed, its cells offer
/// no lookup.
pub proof fn law_unavailable_columns_offer_no_lookup(
    v: GridView,
    columns: Seq<ColumnMeta>,
    rows: Seq<Seq<ValueView>>,
    row: int,
    column: int,
    k: int,
)
    requires
        0 <= column < columns.len(),
        all_unavailable(v, columns[column].name@),
        offered(v, columns, rows, row, column) is Ok,
        0 <= k < (offered(v, columns, rows, row, column)->Ok_0).len(),
    ensures
        (offered(v, columns, rows, row, column)->Ok_0)[k].lookup is Err,
{
    lemma_keys_with(v.table.foreign_keys@, columns[column].name@, k);
}

/// A lookup that the grid offers stays on the connection and in the database of
/// the grid.
pub proof fn law_offered_lookups_stay_in_the_database(
    v: GridView,
    columns: Seq<ColumnMeta>,
    rows: Seq<Seq<ValueView>>,
    row: int,
    key: ForeignKey,
)
    requires
        key_lookup(v, columns, rows, row, key) is Ok,
    ensures
        ({
            let request = (key_lookup(v, columns, rows, row, key)->Ok_0).0;
            &&& request.connection_id == v.target.connection_id@
            &&& request.database == v.target.database@
            &&& v.source_engine == Engine::MySql ==> request.schema == v.target.schema@
        }),
{
}

/// A foreign key is called by its name and the table that it refers to, or by the
/// table alone where it has no name. The table has its schema before it where
/// there is one.
pub proof fn law_foreign_keys_are_called_by_their_tables(key: &ForeignKey, label: String)
    requires
        call_ensures(foreign_key_label, (key,), label),
    ensures
        ({
            let table = if trim_of(key.referenced_schema@).len() > 0 {
                key.referenced_schema@ + "."@ + key.referenced_table@
            } else {
                key.referenced_table@
            };
            &&& trim_of(key.name@).len() > 0 ==> label@ == key.name@ + " → "@ + table
            &&& trim_of(key.name@).len() == 0 ==> label@ == "Open "@ + table
        }),
{
}

/// A foreign key can be followed unless it leads from a MySQL table into another
/// catalog.
pub proof fn law_only_other_mysql_catalogs_are_unavailable(
    grid: &EditableGrid,
    key: &ForeignKey,
    r: Option<String>,
)
    requires
        call_ensures(EditableGrid::navigation_unavailable_reason, (grid, key), r),
    ensures
        r is Some <==> grid@.source_engine == Engine::MySql && key.referenced_schema@
            != grid@.target.schema@,
        r matches Some(why) ==> why@
            == "Cross-catalog MySQL navigation is unavailable; referenced catalog "@
            + key.referenced_schema@ + " is not loaded"@,
{
}

/// A lookup goes to the table that the foreign key refers to. It asks there for
/// the columns that the key refers to, each with the value that the row was loaded
/// with in the key's own column, and shows the first of them.
pub proof fn law_lookups_follow_the_foreign_key(
    grid: &EditableGrid,
    result: &QueryResult,
    row: usize,
    key: &ForeignKey,
    request: ForeignKeyLookupRequest,
    focus: String,
    i: int,
    at: int,
)
    requires
        grid.wf(),
        call_ensures(
            EditableGrid::foreign_key_lookup_for_key,
            (grid, result, row, key),
            Ok((request, focus)),
        ),
        0 <= i < key.columns@.len(),
        0 <= at < result.columns@.len(),
        result.columns@[at].name@ == key.columns@[i]@,
        forall|j: int| 0 <= j < at ==> (#[trigger] result.columns@[j]).name@ != key.columns@[i]@,
    ensures
        request.connection_id@ == grid@.target.connection_id@,
        request.database@ == grid@.target.database@,
        request.schema@ == key.referenced_schema@,
        request.table@ == key.referenced_table@,
        request.columns@.len() == key.referenced_columns@.len(),
        request.values@.len() == key.columns@.len(),
        request.columns@[i]@ == key.referenced_columns@[i]@,
        request.values@[i]@ == result.rows@[row as int]@[at]@,
        focus@ == key.referenced_columns@[0]@,
{
    let columns = result.columns@;
    let rows = row_values(result.rows@);
    law_offered_lookups_carry_the_whole_key(grid@, columns, rows, row as int, *key, i);
    lemma_key_values(grid@, columns, rows, row as int, *key, key.columns@.len());
    lemma_column_from(columns, key.columns@[i]@, 0);
    let found = column_from(columns, key.columns@[i]@, 0)->0;
    if found < at {
        assert(columns[found].name@ != key.columns@[i]@);
    } else if at < found {
        assert(columns[at].name@ != key.columns@[i]@);
    }
    assert(request@.columns.len() == request.columns@.len());
    assert(request@.values.len() == request.values@.len());
    assert(request@.columns[i] == request.columns@[i]@);
    assert(request@.values[i] == request.values@[i]@);
    assert(key_value(grid@, columns, rows, row as int, *key, i) is Ok);
    assert(rows[row as int] == values(result.rows@[row as int]@));
    assert(rows[row as int][at] == result.rows@[row as int]@[at]@);
}

proof fn lemma_key_values_hold(
    v: GridView,
    columns: Seq<ColumnMeta>,
    rows: Seq<Seq<ValueView>>,
    row: int,
    key: ForeignKey,
    n: nat,
)
    requires
        n <= key.columns@.len(),
        forall|i: int|
            0 <= i < n ==> key_value(v, columns, rows, row, key, i) is Ok && (
            #[trigger] key.columns@[i])@ == key.columns@[i]@,
    ensures
        key_values(v, columns, rows, row, key, n) is Ok,
    decreases n,
{
    if n > 0 {
        lemma_key_values_hold(v, columns, rows, row, key, (n - 1) as nat);
        assert(key.columns@[n - 1]@ == key.columns@[n - 1]@);
    }
}

/// A foreign key is followed wherever nothing is in the way: its table is loaded,
/// its metadata is complete, its row is neither inserted nor deleted, and each of
/// its columns has a loaded value without an edit that a filter can carry.
pub proof fn law_fit_keys_are_followed(
    grid: &EditableGrid,
    result: &QueryResult,
    row: usize,
    key: &ForeignKey,
    r: Result<(ForeignKeyLookupRequest, String), String>,
)
    requires
        grid.wf(),
        call_ensures(EditableGrid::foreign_key_lookup_for_key, (grid, result, row, key), r),
        grid@.source_engine != Engine::MySql || key.referenced_schema@ == grid@.target.schema@,
        key.columns@.len() > 0,
        key.columns@.len() == key.referenced_columns@.len(),
        !grid@.is_inserted(row as int),
        !grid@.is_deleted(row as int),
        row < result.rows@.len(),
        forall|i: int|
            0 <= i < key.columns@.len() ==> !unfit(
                grid@,
                result.columns@,
                row_values(result.rows@),
                row as int,
                (#[trigger] key.columns@[i])@,
            ) && trim_of(key.referenced_columns@[i]@).len() > 0,
    ensures
        r is Ok,
{
    let rows = row_values(result.rows@);
    assert forall|i: int| 0 <= i < key.columns@.len() implies key_value(
        grid@,
        result.columns@,
        rows,
        row as int,
        *key,
        i,
    ) is Ok && (#[trigger] key.columns@[i])@ == key.columns@[i]@ by {
        assert(!unfit(grid@, result.columns@, rows, row as int, key.columns@[i]@));
    }
    lemma_key_values_hold(grid@, result.columns@, rows, row as int, *key, key.columns@.len());
}

/// The reason why a foreign key is not followed is the first thing in its way.
pub proof fn law_lookups_say_what_is_in_the_way(
    grid: &EditableGrid,
    result: &QueryResult,
    row: usize,
    key: &ForeignKey,
    r: Result<(ForeignKeyLookupRequest, String), String>,
)
    requires
        grid.wf(),
        call_ensures(EditableGrid::foreign_key_lookup_for_key, (grid, result, row, key), r),
        grid@.source_engine != Engine::MySql || key.referenced_schema@ == grid@.target.schema@,
    ensures
        ({
            let complete = key.columns@.len() > 0 && key.columns@.len()
                == key.referenced_columns@.len();
            let inserted = grid@.is_inserted(row as int);
            let deleted = grid@.is_deleted(row as int);
            &&& !complete ==> (r matches Err(why) && why@
                == "Foreign-key metadata is incomplete for this relationship"@)
            &&& complete && inserted ==> (r matches Err(why) && why@
                == "Commit the inserted row before navigating a foreign key"@)
            &&& complete && !inserted && deleted ==> (r matches Err(why) && why@
                == "Revert the pending row delete before navigating a foreign key"@)
        }),
{
}

/// The reason why a key of one column is not followed is what is in the way of
/// the column: no referenced column, no such result column, an edit, no such
/// cell, or a value that identifies no row.
pub proof fn law_lookups_say_what_is_wrong_with_a_value(
    grid: &EditableGrid,
    result: &QueryResult,
    row: usize,
    key: &ForeignKey,
    r: Result<(ForeignKeyLookupRequest, String), String>,
    at: int,
)
    requires
        grid.wf(),
        call_ensures(EditableGrid::foreign_key_lookup_for_key, (grid, result, row, key), r),
        grid@.source_engine != Engine::MySql || key.referenced_schema@ == grid@.target.schema@,
        key.columns@.len() == 1,
        key.referenced_columns@.len() == 1,
        !grid@.is_inserted(row as int),
        !grid@.is_deleted(row as int),
        0 <= at <= result.columns@.len(),
        forall|j: int| 0 <= j < at ==> (#[trigger] result.columns@[j]).name@ != key.columns@[0]@,
        at < result.columns@.len() ==> result.columns@[at].name@ == key.columns@[0]@,
    ensures
        ({
            let named = trim_of(key.referenced_columns@[0]@).len() > 0;
            let there = at < result.columns@.len();
            let edited = grid@.displayed(row as int, at as usize) is Some;
            let loaded = row < result.rows@.len() && at < result.rows@[row as int]@.len();
            let value = result.rows@[row as int]@[at];
            &&& !named ==> (r matches Err(why) && why@
                == "Referenced-column metadata is unavailable for this foreign key"@)
            &&& named && !there ==> (r matches Err(why) && why@ == "Foreign-key column "@
                + key.columns@[0]@ + " is not present in this result"@)
            &&& named && there && edited ==> (r matches Err(why) && why@
                == "Commit or revert pending edits to the foreign-key columns before navigating"@)
            &&& named && there && !edited && !loaded ==> (r matches Err(why) && why@
                == "The selected row is no longer available"@)
            &&& named && there && !edited && loaded ==> {
                &&& value is Null ==> (r matches Err(why) && why@
                    == "NULL foreign-key values do not identify a referenced row"@)
                &&& value is Bytes || value is Json ==> (r matches Err(why) && why@
                    == "This foreign-key value type cannot be carried into a bounded table filter"@)
                &&& (value matches CellValue::Float(cell) && !cell.finite) ==> (r matches Err(why)
                    && why@ == "Non-finite foreign-key values cannot identify a referenced row"@)
            }
        }),
{
    let columns = result.columns@;
    let rows = row_values(result.rows@);
    let name = key.columns@[0]@;
    lemma_column_from(columns, name, 0);
    if let Some(found) = column_from(columns, name, 0) {
        if found < at {
            assert(columns[found].name@ != name);
        } else if at < found {
            assert(columns[at].name@ != name);
        }
    } else if at < columns.len() {
        assert(columns[at].name@ != name);
    }
    let none = key_values(grid@, columns, rows, row as int, *key, 0);
    assert(none is Ok);
    let one = key_value(grid@, columns, rows, row as int, *key, 0);
    assert(key_values(grid@, columns, rows, row as int, *key, 1) is Err == one is Err);
    if row < result.rows@.len() {
        assert(rows[row as int] == values(result.rows@[row as int]@));
        assert(rows[row as int].len() == result.rows@[row as int]@.len());
        if 0 <= at < result.rows@[row as int]@.len() {
            assert(rows[row as int][at] == result.rows@[row as int]@[at]@);
        }
    }
}

/// The foreign keys that have a column are found in their order, and no others.
pub proof fn law_keys_of_a_column_are_those_that_have_it(
    before: Seq<ForeignKey>,
    key: ForeignKey,
    after: Seq<ForeignKey>,
    name: Seq<char>,
)
    ensures
        keys_with(Seq::empty(), name).len() == 0,
        (exists|c: int| 0 <= c < key.columns@.len() && (#[trigger] key.columns@[c])@ == name)
            ==> keys_with(before + seq![key] + after, name) == keys_with(before, name) + seq![key]
            + keys_with(after, name),
        (forall|c: int| 0 <= c < key.columns@.len() ==> (#[trigger] key.columns@[c])@ != name)
            ==> keys_with(before + seq![key] + after, name) == keys_with(before, name) + keys_with(
            after,
            name,
        ),
    decreases after.len(),
{
    let all = before + seq![key] + after;
    if after.len() > 0 {
        law_keys_of_a_column_are_those_that_have_it(before, key, after.drop_last(), name);
        assert(all.drop_last() =~= before + seq![key] + after.drop_last());
        assert(all.last() == after.last());
    } else {
        assert(all.drop_last() =~= before);
        assert(all.last() == key);
    }
    if among(key.columns@, name) {
        assert(keys_with(all, name) =~= keys_with(before, name) + seq![key] + keys_with(after, name));
    } else {
        assert(keys_with(all, name) =~= keys_with(before, name) + keys_with(after, name));
    }
}

/// A cell offers an option for each foreign key of its column, called like the key
/// and with its lookup.
pub proof fn law_cells_offer_the_keys_of_their_column(
    grid: &EditableGrid,
    result: &QueryResult,
    row: usize,
    column: usize,
    r: Result<Vec<ForeignKeyNavigationOption>, String>,
    k: int,
    key: &ForeignKey,
    label: String,
    lookup: Result<(ForeignKeyLookupRequest, String), String>,
)
    requires
        grid.wf(),
        call_ensures(
            EditableGrid::foreign_key_navigation_options,
            (grid, result, row, column),
            r,
        ),
        column < result.columns@.len(),
        0 <= k < keys_with(
            grid@.table.foreign_keys@,
            result.columns@[column as int].name@,
        ).len(),
        *key == keys_with(grid@.table.foreign_keys@, result.columns@[column as int].name@)[k],
        call_ensures(foreign_key_label, (key,), label),
        call_ensures(EditableGrid::foreign_key_lookup_for_key, (grid, result, row, key), lookup),
    ensures
        r matches Ok(options) && {
            &&& options@.len() == keys_with(
                grid@.table.foreign_keys@,
                result.columns@[column as int].name@,
            ).len()
            &&& options@[k].label@ == label@
            &&& lookup_view(options@[k].lookup) == lookup_view(lookup)
        },
{
    if let Ok(options) = r {
        assert(option_views(options@).len() == options@.len());
        assert(option_views(options@)[k] == options@[k]@);
    }
}

/// A cell outside the columns, or of a column without a foreign key, says so.
pub proof fn law_other_cells_offer_nothing(
    grid: &EditableGrid,
    result: &QueryResult,
    row: usize,
    column: usize,
    r: Result<Vec<ForeignKeyNavigationOption>, String>,
)
    requires
        grid.wf(),
        call_ensures(
            EditableGrid::foreign_key_navigation_options,
            (grid, result, row, column),
            r,
        ),
    ensures
        column >= result.columns@.len() ==> (r matches Err(why) && why@
            == "The selected cell is outside the result columns"@),
        column < result.columns@.len() && keys_with(
            grid@.table.foreign_keys@,
            result.columns@[column as int].name@,
        ).len() == 0 ==> (r matches Err(why) && why@ == "This column is not a foreign key"@),
{
}

proof fn lemma_link_columns(v: GridView, columns: Seq<ColumnMeta>, n: nat, column: usize)
    requires
        n <= columns.len() <= usize::MAX,
    ensures
        linked_columns(v, columns, n).contains(column) <==> column < n && in_foreign_key(
            v.table.foreign_keys@,
            columns[column as int].name@,
        ),
        dead_columns(v, columns, n).contains(column) <==> column < n && all_unavailable(
            v,
            columns[column as int].name@,
        ),
    decreases n,
{
    if n > 0 {
        let m = (n - 1) as nat;
        lemma_link_columns(v, columns, m, column);
        let a = linked_columns(v, columns, m);
        let b = dead_columns(v, columns, m);
        let na = linked_columns(v, columns, n);
        let nb = dead_columns(v, columns, n);
        if a.contains(column) {
            let k = choose|k: int| 0 <= k < a.len() && a[k] == column;
            assert(na[k] == column);
        } else if na.contains(column) {
            let k = choose|k: int| 0 <= k < na.len() && na[k] == column;
            assert(k >= a.len() || a[k] == column);
        }
        if in_foreign_key(v.table.foreign_keys@, columns[m as int].name@) {
            assert(na[na.len() - 1] == m);
        }
        if b.contains(column) {
            let k = choose|k: int| 0 <= k < b.len() && b[k] == column;
            assert(nb[k] == column);
        } else if nb.contains(column) {
            let k = choose|k: int| 0 <= k < nb.len() && nb[k] == column;
            assert(k >= b.len() || b[k] == column);
        }
        if all_unavailable(v, columns[m as int].name@) {
            assert(nb[nb.len() - 1] == m);
        }
    }
}

/// The linked columns are those with a foreign key. Those that cannot be followed
/// are the ones where every foreign key leads from a MySQL table into another
/// catalog.
pub proof fn law_linked_columns_have_a_foreign_key(
    grid: &EditableGrid,
    result: &QueryResult,
    linked: Vec<usize>,
    dead: Vec<usize>,
    column: usize,
)
    requires
        call_ensures(EditableGrid::foreign_key_columns, (grid, result), linked),
        call_ensures(EditableGrid::foreign_key_unavailable_columns, (grid, result), dead),
        column < result.columns@.len() <= usize::MAX,
    ensures
        ({
            let name = result.columns@[column as int].name@;
            let keys = grid@.table.foreign_keys@;
            &&& linked@.contains(column) <==> (exists|k: int, c: int|
                0 <= k < keys.len() && 0 <= c < keys[k].columns@.len() && (
                #[trigger] keys[k].columns@[c])@ == name)
            &&& dead@.contains(column) ==> linked@.contains(column) && grid@.source_engine
                == Engine::MySql
            &&& grid@.source_engine == Engine::MySql && linked@.contains(column) && (forall|k: int|
                0 <= k < keys.len() ==> (#[trigger] keys[k]).referenced_schema@
                    != grid@.target.schema@) ==> dead@.contains(column)
            &&& forall|k: int, c: int|
                0 <= k < keys.len() && 0 <= c < keys[k].columns@.len() && (
                #[trigger] keys[k].columns@[c])@ == name && keys[k].referenced_schema@
                    == grid@.target.schema@ ==> !dead@.contains(column)
        }),
{
    let name = result.columns@[column as int].name@;
    let keys = grid@.table.foreign_keys@;
    lemma_link_columns(grid@, result.columns@, result.columns@.len(), column);
    if in_foreign_key(keys, name) {
        let k = choose|k: int| 0 <= k < keys.len() && among((#[trigger] keys[k]).columns@, name);
        let c = choose|c: int|
            0 <= c < keys[k].columns@.len() && (#[trigger] keys[k].columns@[c])@ == name;
        assert(keys[k].columns@[c]@ == name);
        if all_unavailable(grid@, name) {
            assert(unavailable(grid@, keys[k]) is Some);
        }
    }
    assert forall|k: int, c: int|
        0 <= k < keys.len() && 0 <= c < keys[k].columns@.len() && (
        #[trigger] keys[k].columns@[c])@ == name implies among(keys[k].columns@, name)
        && in_foreign_key(keys, name) by {}
}

} // verus!
