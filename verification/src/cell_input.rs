//! What a user types into a cell: whether the column can take it, and which
//! value it stands for.
use vstd::prelude::*;

use crate::text::{
    all_digits, char_seqs, chars_are, contains, digit, digits_only, has, int_of, int_text, is_digit,
    lemma_digits_of_nat, lower, nat_text, parse_i64, parse_int, pieces, same_text, split, to_lower,
    trim, trim_of, unsigned_part, without_sign,
};
use crate::value::{
    date_parses, parse_json, parse_uuid, parsed_json, parsed_uuid, parses_as_date, plain_text,
    CellValue, FloatCell, ValueView,
};

verus! {

// ---------------------------------------------------------------------
// Numbers
// ---------------------------------------------------------------------
/// Whether `s` is digits, at least one of them, with at most one point.
pub open spec fn is_mantissa(s: Seq<char>) -> bool {
    &&& forall|i: int| 0 <= i < s.len() ==> (#[trigger] s[i] == '.' || is_digit(s[i]))
    &&& forall|i: int, j: int|
        0 <= i < j < s.len() ==> !(#[trigger] s[i] == '.' && #[trigger] s[j] == '.')
    &&& exists|i: int| 0 <= i < s.len() && is_digit(#[trigger] s[i])
}

fn mantissa(chars: &[char]) -> (r: bool)
    ensures
        r == is_mantissa(chars@),
{
    let mut point = false;
    let mut any = false;
    let mut i: usize = 0;
    let ghost mut at: int = 0;
    while i < chars.len()
        invariant
            i <= chars@.len(),
            forall|j: int| 0 <= j < i ==> (#[trigger] chars@[j] == '.' || is_digit(chars@[j])),
            any == exists|j: int| 0 <= j < i && is_digit(#[trigger] chars@[j]),
            point ==> 0 <= at < i && chars@[at] == '.' && forall|j: int|
                0 <= j < i && #[trigger] chars@[j] == '.' ==> j == at,
            !point ==> forall|j: int| 0 <= j < i ==> #[trigger] chars@[j] != '.',
        decreases chars@.len() - i,
    {
        let c: char = chars[i];
        if c == '.' && !point {
            point = true;
            proof {
                at = i as int;
            }
        } else if digit(c) {
            any = true;
            assert(is_digit(chars@[i as int]));
        } else {
            proof {
                if c == '.' {
                    assert(chars@[at] == '.' && chars@[i as int] == '.');
                } else {
                    assert(!(chars@[i as int] == '.' || is_digit(chars@[i as int])));
                }
            }
            return false;
        }
        i += 1;
    }
    any
}

/// Whether `s` is a decimal number: a sign, digits with at most one point, and
/// an exponent that fits in an `i32`.
pub open spec fn is_decimal_number(s: Seq<char>) -> bool {
    let parts = pieces(unsigned_part(trim_of(s)), 'e', 'E');
    &&& parts.len() <= 2
    &&& parts.len() == 2 ==> match int_of(parts[1]) {
        Some(e) => i32::MIN <= e <= i32::MAX,
        None => false,
    }
    &&& is_mantissa(parts[0])
}

/// Whether a text is a decimal number of any size.
pub fn valid_decimal(value: &str) -> (r: bool)
    ensures
        r == is_decimal_number(value@),
{
    let trimmed = trim(value);
    let body = without_sign(trimmed.as_slice());
    let parts = split(body.as_slice(), 'e', 'E');
    let ghost all = char_seqs(parts@);
    assert(all[0] == parts@[0]@);
    if parts.len() > 2 {
        return false;
    }
    if parts.len() == 2 {
        assert(all[1] == parts@[1]@);
        if parse_int(parts[1].as_slice(), -2147483648, 2147483647).is_none() {
            return false;
        }
    }
    mantissa(parts[0].as_slice())
}

/// Whether `s`, in lower case and without its sign, is a number with an optional
/// exponent.
pub open spec fn is_plain_number(s: Seq<char>) -> bool {
    let parts = pieces(s, 'e', 'e');
    &&& parts.len() <= 2
    &&& parts.len() == 2 ==> unsigned_part(parts[1]).len() > 0 && all_digits(
        unsigned_part(parts[1]),
    )
    &&& is_mantissa(parts[0])
}

/// Whether `s` is a floating-point number as Rust reads one: a sign, then a
/// number, an infinity or a NaN, in any case.
pub open spec fn is_float_number(s: Seq<char>) -> bool {
    let body = unsigned_part(lower(s));
    body == "inf"@ || body == "infinity"@ || body == "nan"@ || is_plain_number(body)
}

/// Whether a text is a floating-point number.
pub fn valid_float(value: &str) -> (r: bool)
    ensures
        r == is_float_number(value@),
{
    let chars = to_lower(value);
    let body = without_sign(chars.as_slice());
    if chars_are(body.as_slice(), "inf") || chars_are(body.as_slice(), "infinity") || chars_are(
        body.as_slice(),
        "nan",
    ) {
        return true;
    }
    let parts = split(body.as_slice(), 'e', 'e');
    let ghost all = char_seqs(parts@);
    assert(all[0] == parts@[0]@);
    if parts.len() > 2 {
        return false;
    }
    if parts.len() == 2 {
        assert(all[1] == parts@[1]@);
        let exponent = without_sign(parts[1].as_slice());
        if exponent.len() == 0 || !digits_only(exponent.as_slice()) {
            return false;
        }
    }
    mantissa(parts[0].as_slice())
}

// ---------------------------------------------------------------------
// Kinds of columns
// ---------------------------------------------------------------------
/// Whether a data type, in lower case, holds whole numbers.
pub open spec fn is_integer_kind(kind: Seq<char>) -> bool {
    (has(kind, "int"@) || has(kind, "serial"@) || has(kind, "oid"@)) && !(has(kind, "interval"@))
}

pub open spec fn is_decimal_kind(kind: Seq<char>) -> bool {
    has(kind, "numeric"@) || has(kind, "decimal"@)
}

pub open spec fn is_float_kind(kind: Seq<char>) -> bool {
    has(kind, "float"@) || has(kind, "double"@) || has(kind, "real"@)
}

fn integer_kind(kind: &[char]) -> (r: bool)
    ensures
        r == is_integer_kind(kind@),
{
    (contains(kind, "int") || contains(kind, "serial") || contains(kind, "oid")) && !contains(
        kind,
        "interval",
    )
}

fn decimal_kind(kind: &[char]) -> (r: bool)
    ensures
        r == is_decimal_kind(kind@),
{
    contains(kind, "numeric") || contains(kind, "decimal")
}

fn float_kind(kind: &[char]) -> (r: bool)
    ensures
        r == is_float_kind(kind@),
{
    contains(kind, "float") || contains(kind, "double") || contains(kind, "real")
}

/// Whether a data type is that of GUIDs, whatever stands in brackets behind it.
pub open spec fn is_guid(data_type: Seq<char>) -> bool {
    let name = lower(trim_of(pieces(data_type, '(', '[')[0]));
    name == "uuid"@ || name == "guid"@ || name == "uniqueidentifier"@
}

/// Whether a column of this type holds GUIDs.
pub fn is_guid_type(data_type: &str) -> (r: bool)
    ensures
        r == is_guid(data_type@),
{
    let chars = crate::text::chars_of(data_type);
    let parts = split(chars.as_slice(), '(', '[');
    assert(char_seqs(parts@)[0] == parts@[0]@);
    let head = crate::text::text_of(parts[0].as_slice());
    let trimmed = crate::text::text_of(trim(head.as_str()).as_slice());
    let name = to_lower(trimmed.as_str());
    chars_are(name.as_slice(), "uuid") || chars_are(name.as_slice(), "guid") || chars_are(
        name.as_slice(),
        "uniqueidentifier",
    )
}

// ---------------------------------------------------------------------
// Checking
// ---------------------------------------------------------------------
/// The integer that a text writes, where it fits in an `i64`.
pub open spec fn i64_of(text: Seq<char>) -> Option<int> {
    match int_of(text) {
        Some(n) => if i64::MIN <= n <= i64::MAX {
            Some(n)
        } else {
            None
        },
        None => None,
    }
}

/// The boolean that a text writes.
pub open spec fn bool_of(text: Seq<char>) -> Option<bool> {
    if text == "true"@ {
        Some(true)
    } else if text == "false"@ {
        Some(false)
    } else {
        None
    }
}

/// Why a column of this type does not take a text. `is_date` says whether the
/// text is a date as year, month and day.
pub open spec fn refusal(data_type: Seq<char>, value: Seq<char>, is_date: bool) -> Option<Seq<char>> {
    let kind = lower(data_type);
    if kind == "bool"@ || kind == "boolean"@ {
        if bool_of(value) is Some {
            None
        } else {
            Some("Boolean values must be true or false"@)
        }
    } else if kind == "date"@ {
        if is_date {
            None
        } else {
            Some("Date values must use YYYY-MM-DD"@)
        }
    } else if is_integer_kind(kind) {
        if i64_of(value) is Some {
            None
        } else {
            Some("Integer columns need a whole number"@)
        }
    } else if is_decimal_kind(kind) {
        if is_decimal_number(value) {
            None
        } else {
            Some("Numeric columns need a valid number"@)
        }
    } else if is_float_kind(kind) {
        if is_float_number(value) {
            None
        } else {
            Some("Floating-point columns need a valid finite or exponential number"@)
        }
    } else {
        None
    }
}

/// Whether `r` accepts or gives that reason.
pub open spec fn judges(r: Result<(), String>, why: Option<Seq<char>>) -> bool {
    match why {
        Some(text) => r matches Err(message) && message@ == text,
        None => r is Ok,
    }
}

/// The boolean that a text writes.
pub fn parse_bool(text: &str) -> (r: Option<bool>)
    ensures
        r == bool_of(text@),
{
    if same_text(text, "true") {
        Some(true)
    } else if same_text(text, "false") {
        Some(false)
    } else {
        None
    }
}

fn parse_whole(text: &str) -> (r: Option<i64>)
    ensures
        r is Some == i64_of(text@) is Some,
        r matches Some(n) ==> n == i64_of(text@)->0,
{
    parse_i64(crate::text::chars_of(text).as_slice())
}

/// Checks a text for a column of this type, where it is known whether the text
/// is a date.
pub fn check_value(data_type: &str, value: &str, is_date: bool) -> (r: Result<(), String>)
    ensures
        judges(r, refusal(data_type@, value@, is_date)),
{
    let kind = to_lower(data_type);
    if chars_are(kind.as_slice(), "bool") || chars_are(kind.as_slice(), "boolean") {
        if parse_bool(value).is_some() {
            Ok(())
        } else {
            Err("Boolean values must be true or false".to_owned())
        }
    } else if chars_are(kind.as_slice(), "date") {
        if is_date {
            Ok(())
        } else {
            Err("Date values must use YYYY-MM-DD".to_owned())
        }
    } else if integer_kind(kind.as_slice()) {
        if parse_whole(value).is_some() {
            Ok(())
        } else {
            Err("Integer columns need a whole number".to_owned())
        }
    } else if decimal_kind(kind.as_slice()) {
        if valid_decimal(value) {
            Ok(())
        } else {
            Err("Numeric columns need a valid number".to_owned())
        }
    } else if float_kind(kind.as_slice()) {
        if valid_float(value) {
            Ok(())
        } else {
            Err("Floating-point columns need a valid finite or exponential number".to_owned())
        }
    } else {
        Ok(())
    }
}

/// Whether a text is a date as year, month and day.
pub open spec fn is_iso_date(value: Seq<char>) -> bool {
    parses_as_date(value, "%Y-%m-%d"@)
}

/// Checks a text for a column of this type.
pub fn validate_value(data_type: &str, value: &str) -> (r: Result<(), String>)
    ensures
        judges(r, refusal(data_type@, value@, is_iso_date(value@))),
{
    let kind = to_lower(data_type);
    let is_date = if chars_are(kind.as_slice(), "date") {
        date_parses(value, "%Y-%m-%d")
    } else {
        false
    };
    check_value(data_type, value, is_date)
}

// ---------------------------------------------------------------------
// Values of edited cells
// ---------------------------------------------------------------------
/// What the outside readers make of a text.
pub struct Readings {
    /// The floating-point number that it writes.
    pub float: Option<FloatCell>,
    /// The UUID that it writes.
    pub uuid: Option<u128>,
    /// The compact text of the JSON document that it writes.
    pub json: Option<String>,
}

/// The model of [`Readings`].
pub struct ReadingsView {
    pub float: Option<(Seq<char>, bool)>,
    pub uuid: Option<u128>,
    pub json: Option<Seq<char>>,
}

/// The text and finiteness of an optional floating-point cell.
pub open spec fn float_view(float: Option<FloatCell>) -> Option<(Seq<char>, bool)> {
    match float {
        Some(cell) => Some((cell.text@, cell.finite)),
        None => None,
    }
}

impl View for Readings {
    type V = ReadingsView;

    open spec fn view(&self) -> ReadingsView {
        ReadingsView {
            float: float_view(self.float),
            uuid: self.uuid,
            json: crate::value::opt_text(self.json),
        }
    }
}

pub open spec fn bool_value(text: Seq<char>) -> Option<ValueView> {
    match bool_of(text) {
        Some(b) => Some(ValueView::Bool(b)),
        None => None,
    }
}

pub open spec fn int_value(text: Seq<char>) -> Option<ValueView> {
    match i64_of(text) {
        Some(n) => Some(ValueView::Int(n)),
        None => None,
    }
}

pub open spec fn float_value(readings: ReadingsView) -> Option<ValueView> {
    match readings.float {
        Some((text, finite)) => Some(ValueView::Float { text, finite }),
        None => None,
    }
}

pub open spec fn uuid_value(readings: ReadingsView) -> Option<ValueView> {
    match readings.uuid {
        Some(u) => Some(ValueView::Uuid(u)),
        None => None,
    }
}

pub open spec fn json_value(readings: ReadingsView) -> Option<ValueView> {
    match readings.json {
        Some(text) => Some(ValueView::Json(text)),
        None => None,
    }
}

/// The value that a text stands for in a column of this type.
pub open spec fn value_by_type(
    data_type: Seq<char>,
    text: Seq<char>,
    readings: ReadingsView,
) -> Option<ValueView> {
    let kind = lower(data_type);
    if has(kind, "bool"@) {
        bool_value(text)
    } else if is_integer_kind(kind) {
        int_value(text)
    } else if is_float_kind(kind) {
        float_value(readings)
    } else if is_decimal_kind(kind) {
        Some(ValueView::Numeric(text))
    } else if has(kind, "uuid"@) {
        uuid_value(readings)
    } else if has(kind, "json"@) {
        json_value(readings)
    } else {
        None
    }
}

/// The value of a cell that holds a pending text: of the type that the cell had,
/// by the type of its column where it was NULL, and plain text where the text
/// does not fit.
pub open spec fn pending_value(
    data_type: Seq<char>,
    before: ValueView,
    pending: Option<Seq<char>>,
    readings: ReadingsView,
) -> ValueView {
    match pending {
        None => ValueView::Null,
        Some(text) => {
            let parsed = match before {
                ValueView::Bool(_) => bool_value(text),
                ValueView::Int(_) => int_value(text),
                ValueView::Float { .. } => float_value(readings),
                ValueView::Numeric(_) => Some(ValueView::Numeric(text)),
                ValueView::Uuid(_) => uuid_value(readings),
                ValueView::Json(_) => json_value(readings),
                ValueView::Null => value_by_type(data_type, text, readings),
                _ => None,
            };
            match parsed {
                Some(value) => value,
                None => ValueView::Text(text),
            }
        },
    }
}

/// The model of an optional value.
pub open spec fn opt_value(value: Option<CellValue>) -> Option<ValueView> {
    match value {
        Some(v) => Some(v@),
        None => None,
    }
}

fn read_bool(text: &str) -> (r: Option<CellValue>)
    ensures
        opt_value(r) == bool_value(text@),
{
    match parse_bool(text) {
        Some(b) => Some(CellValue::Bool(b)),
        None => None,
    }
}

fn read_int(text: &str) -> (r: Option<CellValue>)
    ensures
        opt_value(r) == int_value(text@),
{
    match parse_whole(text) {
        Some(n) => Some(CellValue::Int(n)),
        None => None,
    }
}

fn read_float(readings: &Readings) -> (r: Option<CellValue>)
    ensures
        opt_value(r) == float_value(readings@),
{
    match &readings.float {
        Some(cell) => Some(
            CellValue::Float(FloatCell { text: cell.text.clone(), finite: cell.finite }),
        ),
        None => None,
    }
}

fn read_uuid(readings: &Readings) -> (r: Option<CellValue>)
    ensures
        opt_value(r) == uuid_value(readings@),
{
    match readings.uuid {
        Some(u) => Some(CellValue::Uuid(u)),
        None => None,
    }
}

fn read_json(readings: &Readings) -> (r: Option<CellValue>)
    ensures
        opt_value(r) == json_value(readings@),
{
    match &readings.json {
        Some(text) => Some(CellValue::Json(text.clone())),
        None => None,
    }
}

/// The value that a text stands for in a column of this type.
pub fn typed_from_data_type(data_type: &str, text: &str, readings: &Readings) -> (r: Option<
    CellValue,
>)
    ensures
        opt_value(r) == value_by_type(data_type@, text@, readings@),
{
    let kind = to_lower(data_type);
    if contains(kind.as_slice(), "bool") {
        read_bool(text)
    } else if integer_kind(kind.as_slice()) {
        read_int(text)
    } else if float_kind(kind.as_slice()) {
        read_float(readings)
    } else if decimal_kind(kind.as_slice()) {
        Some(CellValue::Numeric(text.to_owned()))
    } else if contains(kind.as_slice(), "uuid") {
        read_uuid(readings)
    } else if contains(kind.as_slice(), "json") {
        read_json(readings)
    } else {
        None
    }
}

/// The value of a cell that held `before` and holds a pending text now, where it
/// is known what the outside readers make of the text.
pub fn value_from_readings(
    data_type: &str,
    before: &CellValue,
    pending: Option<String>,
    readings: &Readings,
) -> (r: CellValue)
    ensures
        r@ == pending_value(data_type@, before@, crate::value::opt_text(pending), readings@),
{
    let text = match pending {
        Some(text) => text,
        None => return CellValue::Null,
    };
    let parsed = match before {
        CellValue::Bool(_) => read_bool(text.as_str()),
        CellValue::Int(_) => read_int(text.as_str()),
        CellValue::Float(_) => read_float(readings),
        CellValue::Numeric(_) => Some(CellValue::Numeric(text.clone())),
        CellValue::Uuid(_) => read_uuid(readings),
        CellValue::Json(_) => read_json(readings),
        CellValue::Null => typed_from_data_type(data_type, text.as_str(), readings),
        _ => None,
    };
    match parsed {
        Some(value) => value,
        None => CellValue::Text(text),
    }
}

/// What the readers of `uuid` and `serde_json` make of a text, beside the
/// floating-point number that it writes.
pub open spec fn readings_of(text: Seq<char>, float: Option<(Seq<char>, bool)>) -> ReadingsView {
    ReadingsView {
        float,
        uuid: parsed_uuid(text),
        json: match parsed_json(text) {
            Some(document) => Some(document.text),
            None => None,
        },
    }
}

/// The value of a cell that held `before` and holds a pending text now, so that
/// exports keep its type instead of quoting every edit as text. `float` is the
/// floating-point number that the text writes.
pub fn pending_cell_value(
    data_type: &str,
    before: &CellValue,
    pending: Option<String>,
    float: Option<FloatCell>,
) -> (r: CellValue)
    ensures
        r@ == (match pending {
            None => ValueView::Null,
            Some(text) => pending_value(
                data_type@,
                before@,
                Some(text@),
                readings_of(text@, float_view(float)),
            ),
        }),
{
    match pending {
        None => CellValue::Null,
        Some(text) => {
            let readings = Readings {
                float,
                uuid: parse_uuid(text.as_str()),
                json: match parse_json(text.as_str()) {
                    Some(document) => Some(document.text),
                    None => None,
                },
            };
            value_from_readings(data_type, before, Some(text), &readings)
        },
    }
}

// ---------------------------------------------------------------------
// Laws
// ---------------------------------------------------------------------
/// A pending text never changes the type of a boolean, whole or decimal number
/// but to plain text, and only where it is none.
pub proof fn law_pending_values_keep_their_type(
    data_type: Seq<char>,
    before: ValueView,
    text: Seq<char>,
    readings: ReadingsView,
)
    ensures
        before is Bool ==> (pending_value(data_type, before, Some(text), readings) is Bool) == (
        bool_of(text) is Some),
        before is Int ==> (pending_value(data_type, before, Some(text), readings) is Int) == (
        i64_of(text) is Some),
        before is Numeric ==> pending_value(data_type, before, Some(text), readings)
            == ValueView::Numeric(text),
        before is Text ==> pending_value(data_type, before, Some(text), readings)
            == ValueView::Text(text),
        pending_value(data_type, before, None, readings) is Null,
{
}

proof fn lemma_int_text_reads_back(n: int)
    ensures
        int_of(int_text(n)) == Some(n),
{
    if n < 0 {
        lemma_digits_of_nat((-n) as nat);
        assert(int_text(n).skip(1) =~= nat_text((-n) as nat));
    } else {
        lemma_digits_of_nat(n as nat);
        assert(is_digit(nat_text(n as nat)[0]));
    }
}

/// Typing the text that a cell is edited as leaves its value as it is.
pub proof fn law_own_text_keeps_the_value(
    data_type: Seq<char>,
    before: ValueView,
    readings: ReadingsView,
)
    requires
        before is Bool || before is Int || before is Numeric || before is Text,
        before is Int ==> i64::MIN <= before->Int_0 <= i64::MAX,
    ensures
        pending_value(data_type, before, Some(plain_text(before)), readings) == before,
{
    match before {
        ValueView::Bool(b) => {
            reveal_strlit("true");
            reveal_strlit("false");
            assert("true"@.len() != "false"@.len());
        },
        ValueView::Int(n) => {
            lemma_int_text_reads_back(n);
        },
        _ => {},
    }
}

/// The text of a whole number passes the check of an integer column.
pub proof fn law_whole_numbers_pass_their_own_check(data_type: Seq<char>, n: int, is_date: bool)
    requires
        i64::MIN <= n <= i64::MAX,
        is_integer_kind(lower(data_type)),
        lower(data_type) != "bool"@,
        lower(data_type) != "boolean"@,
        lower(data_type) != "date"@,
    ensures
        refusal(data_type, int_text(n), is_date) is None,
{
    lemma_int_text_reads_back(n);
}

/// A decimal without an exponent is digits, at least one of them, with at most one
/// point among them, behind an optional sign.
pub proof fn law_decimals_are_digits_and_a_point(text: &str, r: bool, body: Seq<char>)
    requires
        call_ensures(valid_decimal, (text,), r),
        body == unsigned_part(trim_of(text@)),
        forall|i: int| 0 <= i < body.len() ==> #[trigger] body[i] != 'e' && body[i] != 'E',
    ensures
        r <==> {
            &&& forall|i: int|
                0 <= i < body.len() ==> (#[trigger] body[i] == '.' || '0' <= body[i] <= '9')
            &&& forall|i: int, j: int|
                0 <= i < j < body.len() ==> !(#[trigger] body[i] == '.' && #[trigger] body[j] == '.')
            &&& exists|i: int| 0 <= i < body.len() && #[trigger] body[i] != '.'
        },
{
    crate::text::law_splitting_cuts_at_every_separator(body, 'e', Seq::empty(), 'e', 'E');
    lemma_mantissa(body);
}

proof fn lemma_mantissa(s: Seq<char>)
    ensures
        is_mantissa(s) <==> {
            &&& forall|i: int| 0 <= i < s.len() ==> (#[trigger] s[i] == '.' || '0' <= s[i] <= '9')
            &&& forall|i: int, j: int|
                0 <= i < j < s.len() ==> !(#[trigger] s[i] == '.' && #[trigger] s[j] == '.')
            &&& exists|i: int| 0 <= i < s.len() && #[trigger] s[i] != '.'
        },
{
    if exists|i: int| 0 <= i < s.len() && #[trigger] s[i] != '.' {
        let i = choose|i: int| 0 <= i < s.len() && #[trigger] s[i] != '.';
        assert(s[i] == '.' || is_digit(s[i]) || !is_mantissa(s));
        if forall|i: int| 0 <= i < s.len() ==> (#[trigger] s[i] == '.' || '0' <= s[i] <= '9') {
            assert(is_digit(s[i]));
        }
    }
    if is_mantissa(s) {
        let i = choose|i: int| 0 <= i < s.len() && is_digit(#[trigger] s[i]);
        assert(s[i] != '.');
    }
}

/// A decimal has an exponent where one `e` stands in it: then what stands before
/// is a decimal without one, and what stands behind is a whole number that fits
/// in 32 bits. It has no second one.
pub proof fn law_decimals_have_one_exponent(
    text: &str,
    r: bool,
    front: Seq<char>,
    e: char,
    back: Seq<char>,
)
    requires
        call_ensures(valid_decimal, (text,), r),
        unsigned_part(trim_of(text@)) == front + seq![e] + back,
        e == 'e' || e == 'E',
        forall|i: int| 0 <= i < front.len() ==> #[trigger] front[i] != 'e' && front[i] != 'E',
    ensures
        r <==> {
            &&& forall|i: int|
                0 <= i < front.len() ==> (#[trigger] front[i] == '.' || '0' <= front[i] <= '9')
            &&& forall|i: int, j: int|
                0 <= i < j < front.len() ==> !(#[trigger] front[i] == '.' && #[trigger] front[j]
                    == '.')
            &&& exists|i: int| 0 <= i < front.len() && #[trigger] front[i] != '.'
            &&& int_of(back) matches Some(n)
            &&& -0x8000_0000 <= n <= 0x7fff_ffff
        },
{
    crate::text::law_splitting_cuts_at_every_separator(front, e, back, 'e', 'E');
    lemma_mantissa(front);
    let parts = pieces(back, 'e', 'E');
    lemma_back_piece(back, 'e', 'E');
}

/// A whole number is one piece, and one piece is the text itself.
proof fn lemma_back_piece(back: Seq<char>, a: char, b: char)
    requires
        a == 'e',
        b == 'e' || b == 'E',
    ensures
        pieces(back, a, b).len() >= 1,
        pieces(back, a, b).len() == 1 ==> pieces(back, a, b)[0] == back,
        int_of(back) is Some ==> pieces(back, a, b).len() == 1,
    decreases back.len(),
{
    lemma_one_piece(back, a, b);
    if int_of(back) is Some {
        assert forall|i: int| 0 <= i < back.len() implies #[trigger] back[i] != a && back[i] != b by {
            crate::text::law_integers_are_digits(back, i);
        }
        crate::text::law_splitting_cuts_at_every_separator(back, a, Seq::empty(), a, b);
    }
}

proof fn lemma_one_piece(s: Seq<char>, a: char, b: char)
    ensures
        pieces(s, a, b).len() >= 1,
        pieces(s, a, b).len() == 1 ==> pieces(s, a, b)[0] == s,
    decreases s.len(),
{
    if s.len() > 0 {
        lemma_one_piece(s.drop_last(), a, b);
        assert(s.drop_last().push(s.last()) =~= s);
    } else {
        assert(s =~= Seq::<char>::empty());
    }
}

/// A floating-point number is an infinity, a NaN, or digits with at most one
/// point, in any case and behind an optional sign.
pub proof fn law_floats_are_numbers_or_names(text: &str, r: bool, body: Seq<char>)
    requires
        call_ensures(valid_float, (text,), r),
        body == unsigned_part(lower(text@)),
    ensures
        body == "inf"@ || body == "infinity"@ || body == "nan"@ ==> r,
        body != "inf"@ && body != "infinity"@ && body != "nan"@ && (forall|i: int|
            0 <= i < body.len() ==> #[trigger] body[i] != 'e') ==> (r <==> {
            &&& forall|i: int|
                0 <= i < body.len() ==> (#[trigger] body[i] == '.' || '0' <= body[i] <= '9')
            &&& forall|i: int, j: int|
                0 <= i < j < body.len() ==> !(#[trigger] body[i] == '.' && #[trigger] body[j] == '.')
            &&& exists|i: int| 0 <= i < body.len() && #[trigger] body[i] != '.'
        }),
{
    if forall|i: int| 0 <= i < body.len() ==> #[trigger] body[i] != 'e' {
        crate::text::law_splitting_cuts_at_every_separator(body, 'e', Seq::empty(), 'e', 'e');
        lemma_mantissa(body);
    }
}

/// A floating-point number has an exponent where one `e` stands in it: then what
/// stands before is a number without one, and what stands behind is a whole
/// number of any size.
pub proof fn law_floats_have_one_exponent(text: &str, r: bool, front: Seq<char>, back: Seq<char>)
    requires
        call_ensures(valid_float, (text,), r),
        unsigned_part(lower(text@)) == front + seq!['e'] + back,
        forall|i: int| 0 <= i < front.len() ==> #[trigger] front[i] != 'e',
    ensures
        r <==> {
            &&& forall|i: int|
                0 <= i < front.len() ==> (#[trigger] front[i] == '.' || '0' <= front[i] <= '9')
            &&& forall|i: int, j: int|
                0 <= i < j < front.len() ==> !(#[trigger] front[i] == '.' && #[trigger] front[j]
                    == '.')
            &&& exists|i: int| 0 <= i < front.len() && #[trigger] front[i] != '.'
            &&& int_of(back) is Some
        },
{
    crate::text::law_splitting_cuts_at_every_separator(front, 'e', back, 'e', 'e');
    lemma_mantissa(front);
    lemma_back_piece(back, 'e', 'e');
    let body = front + seq!['e'] + back;
    assert(body[front.len() as int] == 'e');
    reveal_strlit("inf");
    reveal_strlit("infinity");
    reveal_strlit("nan");
    assert(body != "inf"@);
    assert(body != "infinity"@);
    assert(body != "nan"@);
}

/// A boolean column takes `true` and `false`, a date column takes dates, and a
/// number column takes the numbers of its kind. Any other column takes any text.
pub proof fn law_columns_take_values_of_their_kind(
    data_type: &str,
    value: &str,
    is_date: bool,
    r: Result<(), String>,
    whole: Option<int>,
    decimal: bool,
    float: bool,
)
    requires
        call_ensures(check_value, (data_type, value, is_date), r),
        whole == int_of(value@),
        call_ensures(valid_decimal, (value,), decimal),
        call_ensures(valid_float, (value,), float),
    ensures
        ({
            let kind = lower(data_type@);
            let boolean = kind == "bool"@ || kind == "boolean"@;
            let date = !boolean && kind == "date"@;
            let integer = !boolean && !date && (has(kind, "int"@) || has(kind, "serial"@) || has(
                kind,
                "oid"@,
            )) && has(kind, "interval"@) == false;
            let numeric = !boolean && !date && !integer && (has(kind, "numeric"@) || has(
                kind,
                "decimal"@,
            ));
            let inexact = !boolean && !date && !integer && !numeric && (has(kind, "float"@) || has(
                kind,
                "double"@,
            ) || has(kind, "real"@));
            &&& boolean ==> (r is Ok <==> value@ == "true"@ || value@ == "false"@)
            &&& date ==> (r is Ok <==> is_date)
            &&& integer ==> (r is Ok <==> (whole is Some && -0x8000_0000_0000_0000 <= whole->0
                <= 0x7fff_ffff_ffff_ffff))
            &&& numeric ==> (r is Ok <==> decimal)
            &&& inexact ==> (r is Ok <==> float)
            &&& !boolean && !date && !integer && !numeric && !inexact ==> r is Ok
            &&& r matches Err(why) ==> {
                &&& boolean ==> why@ == "Boolean values must be true or false"@
                &&& date ==> why@ == "Date values must use YYYY-MM-DD"@
                &&& integer ==> why@ == "Integer columns need a whole number"@
                &&& numeric ==> why@ == "Numeric columns need a valid number"@
                &&& inexact ==> why@
                    == "Floating-point columns need a valid finite or exponential number"@
            }
        }),
{
}

/// A text that is typed into a cell is read as a value of the kind that the cell
/// holds, and stays text where it is none. No text is NULL.
pub proof fn law_typed_texts_become_values_of_the_cell(
    data_type: &str,
    before: &CellValue,
    pending: Option<String>,
    readings: &Readings,
    r: CellValue,
)
    requires
        call_ensures(value_from_readings, (data_type, before, pending, readings), r),
    ensures
        pending is None ==> r is Null,
        pending matches Some(text) ==> {
            &&& before is Bool && text@ == "true"@ ==> r@ == ValueView::Bool(true)
            &&& before is Bool && text@ == "false"@ ==> r@ == ValueView::Bool(false)
            &&& before is Bool && text@ != "true"@ && text@ != "false"@ ==> r@ == ValueView::Text(
                text@,
            )
            &&& before is Int ==> match int_of(text@) {
                Some(n) if -0x8000_0000_0000_0000 <= n <= 0x7fff_ffff_ffff_ffff => r@
                    == ValueView::Int(n),
                _ => r@ == ValueView::Text(text@),
            }
            &&& before is Numeric ==> r@ == ValueView::Numeric(text@)
            &&& before is Float ==> match readings.float {
                Some(cell) => r@ == (ValueView::Float { text: cell.text@, finite: cell.finite }),
                None => r@ == ValueView::Text(text@),
            }
            &&& before is Uuid ==> match readings.uuid {
                Some(u) => r@ == ValueView::Uuid(u),
                None => r@ == ValueView::Text(text@),
            }
            &&& before is Json ==> match readings.json {
                Some(json) => r@ == ValueView::Json(json@),
                None => r@ == ValueView::Text(text@),
            }
            &&& !(before is Bool || before is Int || before is Numeric || before is Float
                || before is Uuid || before is Json || before is Null) ==> r@ == ValueView::Text(
                text@,
            )
        },
{
    reveal_strlit("true");
    reveal_strlit("false");
    assert("true"@.len() != "false"@.len());
}

/// A text that is typed into a NULL is read as a value of the kind of its column.
pub proof fn law_typed_texts_become_values_of_the_column(
    data_type: &str,
    text: &str,
    readings: &Readings,
    r: Option<CellValue>,
)
    requires
        call_ensures(typed_from_data_type, (data_type, text, readings), r),
    ensures
        ({
            let kind = lower(data_type@);
            let boolean = has(kind, "bool"@);
            let integer = !boolean && (has(kind, "int"@) || has(kind, "serial"@) || has(
                kind,
                "oid"@,
            )) && has(kind, "interval"@) == false;
            let inexact = !boolean && !integer && (has(kind, "float"@) || has(kind, "double"@) || has(
                kind,
                "real"@,
            ));
            let numeric = !boolean && !integer && !inexact && (has(kind, "numeric"@) || has(
                kind,
                "decimal"@,
            ));
            let uuid = !boolean && !integer && !inexact && !numeric && has(kind, "uuid"@);
            let json = !boolean && !integer && !inexact && !numeric && !uuid && has(kind, "json"@);
            &&& boolean ==> (r is Some <==> text@ == "true"@ || text@ == "false"@)
            &&& boolean && r is Some ==> r->0@ == ValueView::Bool(text@ == "true"@)
            &&& integer && r is Some ==> int_of(text@) is Some && r->0@ == ValueView::Int(
                int_of(text@)->0,
            )
            &&& integer && r is None ==> !(int_of(text@) matches Some(n) && i64::MIN <= n
                <= i64::MAX)
            &&& inexact ==> match readings.float {
                Some(cell) => r matches Some(v) && v@ == (ValueView::Float {
                    text: cell.text@,
                    finite: cell.finite,
                }),
                None => r is None,
            }
            &&& numeric ==> (r matches Some(v) && v@ == ValueView::Numeric(text@))
            &&& uuid ==> match readings.uuid {
                Some(u) => r matches Some(v) && v@ == ValueView::Uuid(u),
                None => r is None,
            }
            &&& json ==> match readings.json {
                Some(document) => r matches Some(v) && v@ == ValueView::Json(document@),
                None => r is None,
            }
            &&& !boolean && !integer && !inexact && !numeric && !uuid && !json ==> r is None
        }),
{
    reveal_strlit("true");
    reveal_strlit("false");
    assert("true"@.len() != "false"@.len());
}

/// A NULL takes a text as its column reads it, and as text where it does not.
pub proof fn law_texts_typed_into_a_null(
    data_type: &str,
    text: String,
    slice: &str,
    readings: &Readings,
    typed: Option<CellValue>,
    r: CellValue,
)
    requires
        slice@ == text@,
        call_ensures(typed_from_data_type, (data_type, slice, readings), typed),
        call_ensures(
            value_from_readings,
            (data_type, &CellValue::Null, Some(text), readings),
            r,
        ),
    ensures
        typed matches Some(value) ==> r@ == value@,
        typed is None ==> r@ == ValueView::Text(text@),
{
}

/// A column holds GUIDs where its type is called so, in any case, whatever stands
/// in brackets behind the name.
pub proof fn law_guid_types_are_told_by_their_name(
    data_type: &str,
    r: bool,
    name: Seq<char>,
    open: char,
    rest: Seq<char>,
)
    requires
        call_ensures(is_guid_type, (data_type,), r),
        forall|i: int| 0 <= i < name.len() ==> #[trigger] name[i] != '(' && name[i] != '[',
        open == '(' || open == '[',
        data_type@ == name || data_type@ == name + seq![open] + rest,
    ensures
        r <==> lower(trim_of(name)) == "uuid"@ || lower(trim_of(name)) == "guid"@ || lower(
            trim_of(name),
        ) == "uniqueidentifier"@,
{
    crate::text::law_splitting_cuts_at_every_separator(name, open, rest, '(', '[');
}

/// A text that is typed into a cell is read by the readers of UUIDs and of JSON
/// and as the number that it writes.
pub proof fn law_typed_texts_are_read_by_the_readers(
    data_type: &str,
    before: &CellValue,
    text: String,
    float: Option<FloatCell>,
    readings: &Readings,
    r: CellValue,
    same: CellValue,
    none: CellValue,
)
    requires
        readings.float == float,
        readings.uuid == parsed_uuid(text@),
        readings.json is Some <==> parsed_json(text@) is Some,
        readings.json is Some ==> readings.json->0@ == (parsed_json(text@)->0).text,
        call_ensures(pending_cell_value, (data_type, before, Some(text), float), r),
        call_ensures(value_from_readings, (data_type, before, Some(text), readings), same),
        call_ensures(pending_cell_value, (data_type, before, None, float), none),
    ensures
        r@ == same@,
        none is Null,
{
}

/// A column takes a text as [`check_value`] says, once it is known whether the text
/// is a date written as year, month and day.
pub proof fn law_dates_are_written_by_year_month_and_day(
    data_type: &str,
    value: &str,
    r: Result<(), String>,
    same: Result<(), String>,
)
    requires
        call_ensures(validate_value, (data_type, value), r),
        call_ensures(
            check_value,
            (data_type, value, parses_as_date(value@, "%Y-%m-%d"@)),
            same,
        ),
    ensures
        r is Ok <==> same is Ok,
        r matches Err(why) ==> (same matches Err(reason) && why@ == reason@),
{
}

} // verus!
