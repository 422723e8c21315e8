//! Cell values, the texts they are shown and edited as, and the values that
//! edited texts stand for.
use vstd::prelude::*;

use crate::text::{i64_text, int_text, nat_text, push_u64, same_text};

verus! {

// ---------------------------------------------------------------------
// Outside calls
// ---------------------------------------------------------------------
/// The lower-case hexadecimal digit of `d`.
pub open spec fn hex_char(d: nat) -> char {
    if d < 10 {
        (d + '0' as u32) as char
    } else {
        (d - 10 + 'a' as u32) as char
    }
}

/// The last `n` hexadecimal digits of `value`, most significant first.
pub open spec fn hex_text(value: nat, n: nat) -> Seq<char>
    decreases n,
{
    if n == 0 {
        Seq::empty()
    } else {
        hex_text(value / 16, (n - 1) as nat).push(hex_char(value % 16))
    }
}

/// The hyphenated text of a UUID: 32 hexadecimal digits in groups of 8, 4, 4, 4
/// and 12.
pub open spec fn uuid_text(value: u128) -> Seq<char> {
    let d = hex_text(value as nat, 32);
    d.subrange(0, 8) + seq!['-'] + d.subrange(8, 12) + seq!['-'] + d.subrange(12, 16) + seq!['-']
        + d.subrange(16, 20) + seq!['-'] + d.subrange(20, 32)
}

/// What `uuid::Uuid::parse_str` reads from a text: the UUID as an integer, or
/// nothing where the text is in none of the forms that it knows.
pub uninterp spec fn parsed_uuid(text: Seq<char>) -> Option<u128>;

/// `uuid::Uuid`'s `Display`, which writes the hyphenated form, and which
/// `uuid::Uuid::parse_str` reads back.
#[verifier::external_body]
pub(crate) fn format_uuid(value: u128) -> (r: String)
    ensures
        r@ == uuid_text(value),
        parsed_uuid(r@) == Some(value),
{
    uuid::Uuid::from_u128(value).to_string()
}

/// `uuid::Uuid::parse_str`.
#[verifier::external_body]
pub(crate) fn parse_uuid(text: &str) -> (r: Option<u128>)
    ensures
        r == parsed_uuid(text@),
{
    uuid::Uuid::parse_str(text).ok().map(|value| value.as_u128())
}

/// `uuid::Uuid::new_v4`: a random UUID, of which the version and variant bits
/// are fixed.
#[verifier::external_body]
pub(crate) fn random_uuid() -> (r: u128)
    ensures
        (r / 0x1000_0000_0000_0000_0000u128) % 16 == 4,
        (r / 0x4000_0000_0000_0000u128) % 4 == 2,
{
    uuid::Uuid::new_v4().as_u128()
}

/// Whether `chrono::NaiveDate::parse_from_str` reads a date from `text` in the
/// given `format`.
pub uninterp spec fn parses_as_date(text: Seq<char>, format: Seq<char>) -> bool;

/// `chrono::NaiveDate::parse_from_str`, of which only the success counts.
#[verifier::external_body]
pub(crate) fn date_parses(text: &str, format: &str) -> (r: bool)
    ensures
        r == parses_as_date(text@, format@),
{
    chrono::NaiveDate::parse_from_str(text, format).is_ok()
}

/// A JSON value inside a row, as far as pasting reads it: NULL, a string, or the
/// compact text of anything else.
#[derive(Clone, Debug)]
pub enum JsonCell {
    Null,
    Text(String),
    Other(String),
}

pub enum JsonCellView {
    Null,
    Text(Seq<char>),
    Other(Seq<char>),
}

impl View for JsonCell {
    type V = JsonCellView;

    open spec fn view(&self) -> JsonCellView {
        match self {
            JsonCell::Null => JsonCellView::Null,
            JsonCell::Text(t) => JsonCellView::Text(t@),
            JsonCell::Other(t) => JsonCellView::Other(t@),
        }
    }
}

/// An element of a JSON array: the entries of an object, or something else.
#[derive(Clone, Debug)]
pub enum JsonItem {
    Object(Vec<(String, JsonCell)>),
    Other,
}

pub enum JsonItemView {
    Object(Seq<(Seq<char>, JsonCellView)>),
    Other,
}

impl View for JsonItem {
    type V = JsonItemView;

    open spec fn view(&self) -> JsonItemView {
        match self {
            JsonItem::Object(entries) => JsonItemView::Object(
                entries@.map_values(|e: (String, JsonCell)| (e.0@, e.1@)),
            ),
            JsonItem::Other => JsonItemView::Other,
        }
    }
}

/// A JSON document: its compact text, and its elements where it is an array.
#[derive(Clone, Debug)]
pub struct JsonDocument {
    pub text: String,
    pub items: Option<Vec<JsonItem>>,
}

pub struct JsonDocumentView {
    pub text: Seq<char>,
    pub items: Option<Seq<JsonItemView>>,
}

impl View for JsonDocument {
    type V = JsonDocumentView;

    open spec fn view(&self) -> JsonDocumentView {
        JsonDocumentView {
            text: self.text@,
            items: match self.items {
                Some(items) => Some(items@.map_values(|i: JsonItem| i@)),
                None => None,
            },
        }
    }
}

/// The document that `serde_json::from_str` reads from a text, with the compact
/// texts that `serde_json` writes of it and of the values in its rows, or nothing
/// where the text is no JSON document.
pub uninterp spec fn parsed_json(text: Seq<char>) -> Option<JsonDocumentView>;

/// `serde_json::from_str`, with the value that it reads turned into a
/// [`JsonDocument`]: the `Display` text of the whole, and the elements of an array.
#[verifier::external_body]
pub(crate) fn parse_json(text: &str) -> (r: Option<JsonDocument>)
    ensures
        r is Some == parsed_json(text@) is Some,
        r matches Some(d) ==> d@ == parsed_json(text@)->0,
{
    let value = serde_json::from_str::<serde_json::Value>(text).ok()?;
    let cell = |value| match value {
        serde_json::Value::Null => JsonCell::Null,
        serde_json::Value::String(text) => JsonCell::Text(text),
        other => JsonCell::Other(other.to_string()),
    };
    let item = |item| match item {
        serde_json::Value::Object(m) => JsonItem::Object(m.into_iter().map(|(k, v)| (k, cell(v))).collect()),
        _ => JsonItem::Other,
    };
    let text = value.to_string();
    let items = if let serde_json::Value::Array(list) = value { Some(list) } else { None };
    Some(JsonDocument { text, items: items.map(|list| list.into_iter().map(item).collect()) })
}

// ---------------------------------------------------------------------
// Cell values
// ---------------------------------------------------------------------
/// A floating-point cell: its shortest decimal text, and whether it is finite.
#[derive(Clone, PartialEq, Eq, Debug)]
pub struct FloatCell {
    pub text: String,
    pub finite: bool,
}

/// A typed cell value. Dates and times are held as the text they are written
/// as, JSON as its compact text, a UUID as an integer.
#[derive(PartialEq, Eq, Debug)]
pub enum CellValue {
    Null,
    Bool(bool),
    Int(i64),
    Float(FloatCell),
    Numeric(String),
    Text(String),
    Bytes(Vec<u8>),
    Json(String),
    Uuid(u128),
    Date(String),
    Time(String),
    Timestamp(String),
    TimestampTz(String),
}

/// The model of [`CellValue`].
pub enum ValueView {
    Null,
    Bool(bool),
    Int(int),
    Float { text: Seq<char>, finite: bool },
    Numeric(Seq<char>),
    Text(Seq<char>),
    Bytes(Seq<u8>),
    Json(Seq<char>),
    Uuid(u128),
    Date(Seq<char>),
    Time(Seq<char>),
    Timestamp(Seq<char>),
    TimestampTz(Seq<char>),
}

impl View for CellValue {
    type V = ValueView;

    open spec fn view(&self) -> ValueView {
        match self {
            CellValue::Null => ValueView::Null,
            CellValue::Bool(v) => ValueView::Bool(*v),
            CellValue::Int(v) => ValueView::Int(*v as int),
            CellValue::Float(v) => ValueView::Float { text: v.text@, finite: v.finite },
            CellValue::Numeric(v) => ValueView::Numeric(v@),
            CellValue::Text(v) => ValueView::Text(v@),
            CellValue::Bytes(v) => ValueView::Bytes(v@),
            CellValue::Json(v) => ValueView::Json(v@),
            CellValue::Uuid(v) => ValueView::Uuid(*v),
            CellValue::Date(v) => ValueView::Date(v@),
            CellValue::Time(v) => ValueView::Time(v@),
            CellValue::Timestamp(v) => ValueView::Timestamp(v@),
            CellValue::TimestampTz(v) => ValueView::TimestampTz(v@),
        }
    }
}

impl Clone for CellValue {
    fn clone(&self) -> (r: Self)
        ensures
            r@ == self@,
    {
        match self {
            CellValue::Null => CellValue::Null,
            CellValue::Bool(v) => CellValue::Bool(*v),
            CellValue::Int(v) => CellValue::Int(*v),
            CellValue::Float(v) => CellValue::Float(
                FloatCell { text: v.text.clone(), finite: v.finite },
            ),
            CellValue::Numeric(v) => CellValue::Numeric(v.clone()),
            CellValue::Text(v) => CellValue::Text(v.clone()),
            CellValue::Bytes(v) => {
                let copy = v.clone();
                assert(copy@ =~= v@);
                CellValue::Bytes(copy)
            },
            CellValue::Json(v) => CellValue::Json(v.clone()),
            CellValue::Uuid(v) => CellValue::Uuid(*v),
            CellValue::Date(v) => CellValue::Date(v.clone()),
            CellValue::Time(v) => CellValue::Time(v.clone()),
            CellValue::Timestamp(v) => CellValue::Timestamp(v.clone()),
            CellValue::TimestampTz(v) => CellValue::TimestampTz(v.clone()),
        }
    }
}

impl CellValue {
    pub fn is_null(&self) -> (r: bool)
        ensures
            r == (self@ is Null),
    {
        match self {
            CellValue::Null => true,
            _ => false,
        }
    }
}

/// A row of cells.
pub type Row = Vec<CellValue>;

/// The values of a sequence of cells.
pub open spec fn values(cells: Seq<CellValue>) -> Seq<ValueView> {
    cells.map_values(|c: CellValue| c@)
}

/// The values of a sequence of rows.
pub open spec fn row_values(rows: Seq<Row>) -> Seq<Seq<ValueView>> {
    rows.map_values(|r: Row| values(r@))
}

/// The name and type of a result column.
#[derive(PartialEq, Eq, Debug)]
pub struct ColumnMeta {
    pub name: String,
    pub data_type: String,
    pub nullable: bool,
}

impl Clone for ColumnMeta {
    fn clone(&self) -> (r: Self)
        ensures
            r == *self,
    {
        ColumnMeta {
            name: self.name.clone(),
            data_type: self.data_type.clone(),
            nullable: self.nullable,
        }
    }
}

impl ColumnMeta {
    /// Whether two columns have one name, type and nullability.
    pub open spec fn same_as(self, other: Self) -> bool {
        self.name@ == other.name@ && self.data_type@ == other.data_type@ && self.nullable
            == other.nullable
    }
}

/// Whether two column lists are the same, column by column.
pub open spec fn same_columns(a: Seq<ColumnMeta>, b: Seq<ColumnMeta>) -> bool {
    a.len() == b.len() && forall|i: int| 0 <= i < a.len() ==> (#[trigger] a[i]).same_as(b[i])
}

pub fn columns_equal(a: &[ColumnMeta], b: &[ColumnMeta]) -> (r: bool)
    ensures
        r == same_columns(a@, b@),
{
    if a.len() != b.len() {
        return false;
    }
    let mut i: usize = 0;
    while i < a.len()
        invariant
            i <= a@.len(),
            a@.len() == b@.len(),
            forall|j: int| 0 <= j < i ==> (#[trigger] a@[j]).same_as(b@[j]),
        decreases a@.len() - i,
    {
        if a[i].name != b[i].name || a[i].data_type != b[i].data_type || a[i].nullable
            != b[i].nullable {
            assert(!a@[i as int].same_as(b@[i as int]));
            return false;
        }
        i += 1;
    }
    true
}

/// A copy of a column list.
pub fn copy_columns(columns: &[ColumnMeta]) -> (r: Vec<ColumnMeta>)
    ensures
        r@ == columns@,
{
    let mut out: Vec<ColumnMeta> = Vec::new();
    let mut i: usize = 0;
    while i < columns.len()
        invariant
            i <= columns@.len(),
            out@ == columns@.take(i as int),
        decreases columns@.len() - i,
    {
        out.push(columns[i].clone());
        assert(out@ =~= columns@.take(i as int + 1));
        i += 1;
    }
    assert(columns@.take(columns@.len() as int) =~= columns@);
    out
}

// ---------------------------------------------------------------------
// Texts of values
// ---------------------------------------------------------------------
pub open spec fn bool_text(value: bool) -> Seq<char> {
    if value {
        "true"@
    } else {
        "false"@
    }
}

/// Two hexadecimal digits per byte.
pub open spec fn bytes_hex(bytes: Seq<u8>) -> Seq<char>
    decreases bytes.len(),
{
    if bytes.len() == 0 {
        Seq::empty()
    } else {
        bytes_hex(bytes.drop_last()) + hex_text(bytes.last() as nat, 2)
    }
}

/// The text of a value that is not NULL, as edits and commits carry it. Bytes
/// are written as `\\x` and their hexadecimal digits.
pub open spec fn plain_text(value: ValueView) -> Seq<char> {
    match value {
        ValueView::Null => Seq::empty(),
        ValueView::Bool(v) => bool_text(v),
        ValueView::Int(v) => int_text(v),
        ValueView::Float { text, .. } => text,
        ValueView::Numeric(v) => v,
        ValueView::Text(v) => v,
        ValueView::Bytes(v) => "\\x"@ + bytes_hex(v),
        ValueView::Json(v) => v,
        ValueView::Uuid(v) => uuid_text(v),
        ValueView::Date(v) => v,
        ValueView::Time(v) => v,
        ValueView::Timestamp(v) => v,
        ValueView::TimestampTz(v) => v,
    }
}

/// The text that a commit carries for a value: none for NULL.
pub open spec fn diff_text(value: ValueView) -> Option<Seq<char>> {
    if value is Null {
        None
    } else {
        Some(plain_text(value))
    }
}

/// The text that a cell shows.
pub open spec fn shown_text(value: ValueView, null_display: Seq<char>) -> Seq<char> {
    match value {
        ValueView::Null => null_display,
        ValueView::Bytes(v) => "<"@ + nat_text(v.len()) + " bytes>"@,
        other => plain_text(other),
    }
}

/// The text of a value in a table filter: none for NULL and for a number that
/// is not finite.
pub open spec fn filter_text(value: ValueView) -> Option<Seq<char>> {
    match value {
        ValueView::Null => None,
        ValueView::Float { text, finite } => if finite {
            Some(text)
        } else {
            None
        },
        other => Some(plain_text(other)),
    }
}

/// The characters of an optional string.
pub open spec fn opt_text(value: Option<String>) -> Option<Seq<char>> {
    match value {
        Some(t) => Some(t@),
        None => None,
    }
}

fn hex_digit(d: u8) -> (r: char)
    requires
        d < 16,
    ensures
        r == hex_char(d as nat),
{
    if d < 10 {
        (48 + d) as char
    } else {
        (87 + d) as char
    }
}

fn push_bytes_hex(out: &mut String, bytes: &[u8])
    ensures
        final(out)@ == old(out)@ + bytes_hex(bytes@),
{
    let ghost start = out@;
    let mut i: usize = 0;
    assert(start + bytes_hex(bytes@.take(0)) =~= start);
    while i < bytes.len()
        invariant
            i <= bytes@.len(),
            out@ == start + bytes_hex(bytes@.take(i as int)),
        decreases bytes@.len() - i,
    {
        let b: u8 = bytes[i];
        out.push(hex_digit(b / 16));
        out.push(hex_digit(b % 16));
        proof {
            assert(bytes@.take(i as int + 1).drop_last() =~= bytes@.take(i as int));
            reveal_with_fuel(hex_text, 3);
            assert(hex_text(b as nat, 2) =~= seq![
                hex_char((b / 16) as nat),
                hex_char((b % 16) as nat),
            ]);
            assert(out@ =~= start + bytes_hex(bytes@.take(i as int + 1)));
        }
        i += 1;
    }
    assert(bytes@.take(bytes@.len() as int) =~= bytes@);
}

/// The edit text of a byte string.
fn bytes_text(bytes: &[u8]) -> (r: String)
    ensures
        r@ == "\\x"@ + bytes_hex(bytes@),
{
    let mut out = String::new();
    out.append("\\x");
    push_bytes_hex(&mut out, bytes);
    assert(out@ =~= "\\x"@ + bytes_hex(bytes@));
    out
}

/// The text of a boolean.
pub fn bool_to_text(value: bool) -> (r: String)
    ensures
        r@ == bool_text(value),
{
    if value {
        "true".to_owned()
    } else {
        "false".to_owned()
    }
}

/// The text that a commit carries for a value.
pub fn diff_value(value: &CellValue) -> (r: Option<String>)
    ensures
        opt_text(r) == diff_text(value@),
{
    match value {
        CellValue::Null => None,
        CellValue::Bool(v) => Some(bool_to_text(*v)),
        CellValue::Int(v) => Some(i64_text(*v)),
        CellValue::Float(v) => Some(v.text.clone()),
        CellValue::Numeric(v) | CellValue::Text(v) => Some(v.clone()),
        CellValue::Bytes(v) => Some(bytes_text(v.as_slice())),
        CellValue::Json(v) => Some(v.clone()),
        CellValue::Uuid(v) => Some(format_uuid(*v)),
        CellValue::Date(v) | CellValue::Time(v) | CellValue::Timestamp(v) | CellValue::TimestampTz(
            v,
        ) => Some(v.clone()),
    }
}

/// The text that a cell shows; NULL is shown as `null_display`, bytes by their
/// number.
pub fn cell_text(value: &CellValue, null_display: &str) -> (r: String)
    ensures
        r@ == shown_text(value@, null_display@),
{
    match value {
        CellValue::Null => null_display.to_owned(),
        CellValue::Bytes(v) => {
            let mut out = String::new();
            out.append("<");
            push_u64(&mut out, v.len() as u64);
            out.append(" bytes>");
            assert(out@ =~= "<"@ + nat_text(v@.len()) + " bytes>"@);
            out
        },
        other => match diff_value(other) {
            Some(text) => text,
            None => String::new(),
        },
    }
}

/// The text that editing a cell starts from: empty for NULL.
pub fn cell_edit_text(value: &CellValue) -> (r: String)
    ensures
        r@ == plain_text(value@),
{
    match diff_value(value) {
        Some(text) => text,
        None => String::new(),
    }
}

/// The text of a value in a table filter.
pub fn lookup_value_text(value: &CellValue) -> (r: Option<String>)
    ensures
        opt_text(r) == filter_text(value@),
{
    match value {
        CellValue::Float(v) => if v.finite {
            Some(v.text.clone())
        } else {
            None
        },
        other => diff_value(other),
    }
}

// ---------------------------------------------------------------------
// Laws
// ---------------------------------------------------------------------
/// The text that edits and commits carry says what the value is: nothing for
/// NULL and for nothing else; an integer in digits that read back to it; texts,
/// numbers, documents and times as they are.
pub proof fn law_texts_say_the_value(value: CellValue, r: Option<String>)
    requires
        call_ensures(diff_value, (&value,), r),
    ensures
        r is None <==> value is Null,
        value matches CellValue::Bool(v) ==> r->0@ == (if v {
            "true"@
        } else {
            "false"@
        }),
        value matches CellValue::Int(n) ==> crate::text::int_of(r->0@) == Some(n as int),
        value matches CellValue::Float(v) ==> r->0@ == v.text@,
        value matches CellValue::Numeric(v) ==> r->0@ == v@,
        value matches CellValue::Text(v) ==> r->0@ == v@,
        value matches CellValue::Json(v) ==> r->0@ == v@,
        value matches CellValue::Date(v) ==> r->0@ == v@,
        value matches CellValue::Time(v) ==> r->0@ == v@,
        value matches CellValue::Timestamp(v) ==> r->0@ == v@,
        value matches CellValue::TimestampTz(v) ==> r->0@ == v@,
        value matches CellValue::Uuid(v) ==> r->0@ == uuid_text(v),
{
    if let CellValue::Int(n) = value {
        crate::text::law_numbers_read_back(n as int);
    }
}

/// The text of a byte string is `\\x` and two hexadecimal digits for each byte,
/// the higher one first.
pub proof fn law_bytes_are_written_in_hexadecimal(bytes: Vec<u8>, r: Option<String>, i: int)
    requires
        call_ensures(diff_value, (&CellValue::Bytes(bytes),), r),
        0 <= i < bytes@.len(),
    ensures
        r is Some,
        r->0@.len() == 2 + 2 * bytes@.len(),
        r->0@[0] == '\\',
        r->0@[1] == 'x',
        ({
            let high = r->0@[2 + 2 * i];
            let low = r->0@[3 + 2 * i];
            let digit = |c: char|
                if '0' <= c <= '9' {
                    c as int - '0' as int
                } else if 'a' <= c <= 'f' {
                    c as int - 'a' as int + 10
                } else {
                    16int
                };
            digit(high) < 16 && digit(low) < 16 && digit(high) * 16 + digit(low) == bytes@[i]
        }),
{
    reveal_strlit("\\x");
    lemma_bytes_hex(bytes@, i);
}

proof fn lemma_bytes_hex(bytes: Seq<u8>, i: int)
    ensures
        bytes_hex(bytes).len() == 2 * bytes.len(),
        0 <= i < bytes.len() ==> bytes_hex(bytes)[2 * i] == hex_char((bytes[i] / 16) as nat)
            && bytes_hex(bytes)[2 * i + 1] == hex_char((bytes[i] % 16) as nat),
    decreases bytes.len(),
{
    if bytes.len() > 0 {
        lemma_bytes_hex(bytes.drop_last(), i);
        let b = bytes.last();
        reveal_with_fuel(hex_text, 3);
        assert(hex_text(b as nat, 2) =~= seq![
            hex_char((b / 16) as nat),
            hex_char((b % 16) as nat),
        ]);
    }
}

/// Different integers, booleans, texts and byte strings are never written alike.
pub proof fn law_texts_tell_values_apart(
    a: CellValue,
    b: CellValue,
    x: Option<String>,
    y: Option<String>,
)
    requires
        call_ensures(diff_value, (&a,), x),
        call_ensures(diff_value, (&b,), y),
        opt_text(x) == opt_text(y),
    ensures
        a matches CellValue::Int(n) ==> (b matches CellValue::Int(m) ==> n == m),
        a matches CellValue::Bool(n) ==> (b matches CellValue::Bool(m) ==> n == m),
        a matches CellValue::Text(n) ==> (b matches CellValue::Text(m) ==> n@ == m@),
        a matches CellValue::Numeric(n) ==> (b matches CellValue::Numeric(m) ==> n@ == m@),
        a matches CellValue::Bytes(n) ==> (b matches CellValue::Bytes(m) ==> n@ == m@),
{
    reveal_strlit("true");
    reveal_strlit("false");
    if let (CellValue::Int(n), CellValue::Int(m)) = (a, b) {
        crate::text::law_numbers_read_back(n as int);
        crate::text::law_numbers_read_back(m as int);
    }
    if let (CellValue::Bool(n), CellValue::Bool(m)) = (a, b) {
        assert("true"@.len() != "false"@.len());
    }
    if let (CellValue::Bytes(n), CellValue::Bytes(m)) = (a, b) {
        reveal_strlit("\\x");
        let s = bytes_hex(n@);
        let t = bytes_hex(m@);
        assert(s =~= ("\\x"@ + s).skip(2));
        assert(t =~= ("\\x"@ + t).skip(2));
        lemma_bytes_hex(n@, 0);
        lemma_bytes_hex(m@, 0);
        assert forall|i: int| 0 <= i < n@.len() implies n@[i] == m@[i] by {
            lemma_bytes_hex(n@, i);
            lemma_bytes_hex(m@, i);
            let p = n@[i];
            let q = m@[i];
            assert(hex_char((p / 16) as nat) == hex_char((q / 16) as nat));
            assert(p / 16 == q / 16 && p % 16 == q % 16);
        }
        assert(n@ =~= m@);
    }
}

/// A cell shows its value: NULL as the user wants it, a byte string by its
/// length, everything else as its text. Editing starts from that text, and from
/// nothing for NULL.
pub proof fn law_cells_show_their_value(
    value: CellValue,
    null_display: &str,
    text: Option<String>,
    shown: String,
    edited: String,
)
    requires
        call_ensures(diff_value, (&value,), text),
        call_ensures(cell_text, (&value, null_display), shown),
        call_ensures(cell_edit_text, (&value,), edited),
    ensures
        value is Null ==> shown@ == null_display@ && edited@.len() == 0,
        !(value is Null) ==> edited@ == text->0@,
        !(value is Null) && !(value is Bytes) ==> shown@ == text->0@,
        value matches CellValue::Bytes(b) ==> shown@ == "<"@ + nat_text(b@.len()) + " bytes>"@,
{
}

/// A filter carries the text of a value, for all values but NULL and numbers that
/// are not finite.
pub proof fn law_filters_carry_the_value(
    value: CellValue,
    text: Option<String>,
    filter: Option<String>,
)
    requires
        call_ensures(diff_value, (&value,), text),
        call_ensures(lookup_value_text, (&value,), filter),
    ensures
        filter is None <==> value is Null || (value matches CellValue::Float(v) && !v.finite),
        filter is Some ==> text is Some && filter->0@ == text->0@,
{
}

/// Two lists of columns are the same exactly where each column has the name, the
/// type and the nullability of the one in its place.
pub proof fn law_columns_are_told_by_name_type_and_nullability(
    a: &[ColumnMeta],
    b: &[ColumnMeta],
    r: bool,
)
    requires
        call_ensures(columns_equal, (a, b), r),
    ensures
        r <==> a@.len() == b@.len() && forall|i: int|
            0 <= i < a@.len() ==> (#[trigger] a@[i]).name@ == b@[i].name@ && a@[i].data_type@
                == b@[i].data_type@ && a@[i].nullable == b@[i].nullable,
{
    if a@.len() == b@.len() && forall|i: int|
        0 <= i < a@.len() ==> (#[trigger] a@[i]).name@ == b@[i].name@ && a@[i].data_type@
            == b@[i].data_type@ && a@[i].nullable == b@[i].nullable {
        assert forall|i: int| 0 <= i < a@.len() implies (#[trigger] a@[i]).same_as(b@[i]) by {}
    }
    if r {
        assert forall|i: int| 0 <= i < a@.len() implies (#[trigger] a@[i]).name@ == b@[i].name@
            && a@[i].data_type@ == b@[i].data_type@ && a@[i].nullable == b@[i].nullable by {
            assert(a@[i].same_as(b@[i]));
        }
    }
}

} // verus!
