//! The values that are bound to the placeholders of a statement.
use vstd::prelude::*;

use crate::engine::{CellarError, ErrorView};
use crate::sql_server::{decimal_of, parse_numeric, ScaledNumber};
use crate::value::{CellValue, FloatCell, ValueView};

verus! {

/// A value as a driver binds it.
pub enum BoundValue {
    Null,
    Bool(bool),
    Int(i64),
    Float(FloatCell),
    Decimal(ScaledNumber),
    Text(String),
    Bytes(Vec<u8>),
    Json(String),
    Uuid(u128),
    Date(String),
    Time(String),
    Timestamp(String),
    TimestampTz(String),
}

/// The model of [`BoundValue`].
pub enum BoundView {
    Null,
    Bool(bool),
    Int(int),
    Float { text: Seq<char>, finite: bool },
    Decimal(ScaledNumber),
    Text(Seq<char>),
    Bytes(Seq<u8>),
    Json(Seq<char>),
    Uuid(u128),
    Date(Seq<char>),
    Time(Seq<char>),
    Timestamp(Seq<char>),
    TimestampTz(Seq<char>),
}

impl View for BoundValue {
    type V = BoundView;

    open spec fn view(&self) -> BoundView {
        match self {
            BoundValue::Null => BoundView::Null,
            BoundValue::Bool(v) => BoundView::Bool(*v),
            BoundValue::Int(v) => BoundView::Int(*v as int),
            BoundValue::Float(v) => BoundView::Float { text: v.text@, finite: v.finite },
            BoundValue::Decimal(v) => BoundView::Decimal(*v),
            BoundValue::Text(v) => BoundView::Text(v@),
            BoundValue::Bytes(v) => BoundView::Bytes(v@),
            BoundValue::Json(v) => BoundView::Json(v@),
            BoundValue::Uuid(v) => BoundView::Uuid(*v),
            BoundValue::Date(v) => BoundView::Date(v@),
            BoundValue::Time(v) => BoundView::Time(v@),
            BoundValue::Timestamp(v) => BoundView::Timestamp(v@),
            BoundValue::TimestampTz(v) => BoundView::TimestampTz(v@),
        }
    }
}

/// What MySQL gets for a value. A decimal is bound as its text, never written
/// into the statement, and MySQL reads the number from it.
pub open spec fn mysql_bound(value: ValueView) -> BoundView {
    match value {
        ValueView::Null => BoundView::Null,
        ValueView::Bool(v) => BoundView::Bool(v),
        ValueView::Int(v) => BoundView::Int(v),
        ValueView::Float { text, finite } => BoundView::Float { text, finite },
        ValueView::Numeric(v) => BoundView::Text(v),
        ValueView::Text(v) => BoundView::Text(v),
        ValueView::Bytes(v) => BoundView::Bytes(v),
        ValueView::Json(v) => BoundView::Json(v),
        ValueView::Uuid(v) => BoundView::Uuid(v),
        ValueView::Date(v) => BoundView::Date(v),
        ValueView::Time(v) => BoundView::Time(v),
        ValueView::Timestamp(v) => BoundView::Timestamp(v),
        ValueView::TimestampTz(v) => BoundView::TimestampTz(v),
    }
}

/// What SQL Server gets for a value: a decimal as a number with a scale, JSON as
/// text.
pub open spec fn sql_server_bound(value: ValueView) -> Result<BoundView, ErrorView> {
    match value {
        ValueView::Numeric(v) => match decimal_of(v) {
            Ok(n) => Ok(BoundView::Decimal(n)),
            Err(e) => Err(e),
        },
        ValueView::Json(v) => Ok(BoundView::Text(v)),
        other => Ok(mysql_bound(other)),
    }
}

/// What MySQL gets for a value.
pub fn mysql_binding(value: &CellValue) -> (r: BoundValue)
    ensures
        r@ == mysql_bound(value@),
{
    match value {
        CellValue::Null => BoundValue::Null,
        CellValue::Bool(v) => BoundValue::Bool(*v),
        CellValue::Int(v) => BoundValue::Int(*v),
        CellValue::Float(v) => BoundValue::Float(
            FloatCell { text: v.text.clone(), finite: v.finite },
        ),
        CellValue::Numeric(v) => BoundValue::Text(v.clone()),
        CellValue::Text(v) => BoundValue::Text(v.clone()),
        CellValue::Bytes(v) => {
            let copy = v.clone();
            assert(copy@ =~= v@);
            BoundValue::Bytes(copy)
        },
        CellValue::Json(v) => BoundValue::Json(v.clone()),
        CellValue::Uuid(v) => BoundValue::Uuid(*v),
        CellValue::Date(v) => BoundValue::Date(v.clone()),
        CellValue::Time(v) => BoundValue::Time(v.clone()),
        CellValue::Timestamp(v) => BoundValue::Timestamp(v.clone()),
        CellValue::TimestampTz(v) => BoundValue::TimestampTz(v.clone()),
    }
}

/// What SQL Server gets for a value, or why a decimal cannot be bound.
pub fn sql_server_binding(value: &CellValue) -> (r: Result<BoundValue, CellarError>)
    ensures
        match r {
            Ok(bound) => sql_server_bound(value@) == Ok::<BoundView, ErrorView>(bound@),
            Err(e) => sql_server_bound(value@) == Err::<BoundView, ErrorView>(e@),
        },
{
    match value {
        CellValue::Numeric(v) => match parse_numeric(v.as_str()) {
            Ok(n) => Ok(BoundValue::Decimal(n)),
            Err(e) => Err(e),
        },
        CellValue::Json(v) => Ok(BoundValue::Text(v.clone())),
        other => Ok(mysql_binding(other)),
    }
}

// ---------------------------------------------------------------------
// Laws
// ---------------------------------------------------------------------
/// MySQL gets every value as it is: of its own kind, with its content. A decimal
/// goes as its digits.
pub proof fn law_mysql_gets_the_value(value: CellValue, bound: BoundValue)
    requires
        call_ensures(mysql_binding, (&value,), bound),
    ensures
        match value {
            CellValue::Null => bound is Null,
            CellValue::Bool(v) => bound == BoundValue::Bool(v),
            CellValue::Int(v) => bound == BoundValue::Int(v),
            CellValue::Float(v) => bound matches BoundValue::Float(b) && b.text@ == v.text@
                && b.finite == v.finite,
            CellValue::Numeric(v) => bound matches BoundValue::Text(b) && b@ == v@,
            CellValue::Text(v) => bound matches BoundValue::Text(b) && b@ == v@,
            CellValue::Bytes(v) => bound matches BoundValue::Bytes(b) && b@ == v@,
            CellValue::Json(v) => bound matches BoundValue::Json(b) && b@ == v@,
            CellValue::Uuid(v) => bound == BoundValue::Uuid(v),
            CellValue::Date(v) => bound matches BoundValue::Date(b) && b@ == v@,
            CellValue::Time(v) => bound matches BoundValue::Time(b) && b@ == v@,
            CellValue::Timestamp(v) => bound matches BoundValue::Timestamp(b) && b@ == v@,
            CellValue::TimestampTz(v) => bound matches BoundValue::TimestampTz(b) && b@ == v@,
        },
{
}

/// SQL Server gets what MySQL gets, but for two kinds: a document goes as its
/// text, and a decimal as the number that [`parse_numeric`] reads, or not at all.
/// No other value is refused.
pub proof fn law_sql_server_gets_the_value(
    value: CellValue,
    bound: Result<BoundValue, CellarError>,
    other: BoundValue,
)
    requires
        call_ensures(sql_server_binding, (&value,), bound),
        call_ensures(mysql_binding, (&value,), other),
    ensures
        !(value is Numeric) && !(value is Json) ==> bound is Ok && bound->Ok_0@ == other@,
        value matches CellValue::Json(v) ==> (bound matches Ok(BoundValue::Text(b)) && b@ == v@),
        value matches CellValue::Numeric(v) ==> match decimal_of(v@) {
            Ok(n) => bound == Ok::<BoundValue, CellarError>(BoundValue::Decimal(n)),
            Err(why) => bound matches Err(e) && e@ == why,
        },
{
}

/// Different values of one kind are bound to different values.
pub proof fn law_bindings_tell_values_apart(
    a: CellValue,
    b: CellValue,
    x: BoundValue,
    y: BoundValue,
)
    requires
        call_ensures(mysql_binding, (&a,), x),
        call_ensures(mysql_binding, (&b,), y),
        x@ == y@,
        (a is Numeric) == (b is Numeric),
    ensures
        a@ == b@,
{
}

} // verus!
