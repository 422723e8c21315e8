//! Filters, sorting and requests of a table browse.
use vstd::prelude::*;

use crate::schema::copy_opt;
use crate::text::{contains, has, lower, to_lower};

verus! {

/// How a filter compares a column.
#[derive(Clone, Copy, PartialEq, Eq, Structural, Hash, Debug)]
pub enum TableFilterOperator {
    Equals,
    NotEquals,
    GreaterThan,
    GreaterThanOrEqual,
    LessThan,
    LessThanOrEqual,
    Contains,
    NotContains,
    StartsWith,
    EndsWith,
    Like,
    IsNull,
    IsNotNull,
}

/// A filter on one column. A null check has no value.
#[derive(PartialEq, Eq, Debug)]
pub struct TableFilterClause {
    pub column: String,
    pub operator: TableFilterOperator,
    pub value: Option<String>,
}

impl Clone for TableFilterClause {
    fn clone(&self) -> (r: Self)
        ensures
            r == *self,
    {
        TableFilterClause {
            column: self.column.clone(),
            operator: self.operator,
            value: copy_opt(&self.value),
        }
    }
}

/// The order of a sorted column.
#[derive(Clone, Copy, PartialEq, Eq, Structural, Hash, Debug)]
pub enum SortDirection {
    Asc,
    Desc,
}

impl SortDirection {
    pub open spec fn opposite_of(self) -> SortDirection {
        match self {
            SortDirection::Asc => SortDirection::Desc,
            SortDirection::Desc => SortDirection::Asc,
        }
    }

    pub fn opposite(self) -> (r: SortDirection)
        ensures
            r == self.opposite_of(),
    {
        match self {
            SortDirection::Asc => SortDirection::Desc,
            SortDirection::Desc => SortDirection::Asc,
        }
    }
}

/// A sorted column.
#[derive(PartialEq, Eq, Debug)]
pub struct TableSortClause {
    pub column: String,
    pub direction: SortDirection,
}

impl Clone for TableSortClause {
    fn clone(&self) -> (r: Self)
        ensures
            r == *self,
    {
        TableSortClause { column: self.column.clone(), direction: self.direction }
    }
}

/// A page of a table, filtered and sorted.
pub struct TableBrowseRequest {
    pub connection_id: String,
    pub database: Option<String>,
    pub schema: String,
    pub table: String,
    pub limit: Option<u32>,
    pub offset: Option<u32>,
    pub sorts: Vec<TableSortClause>,
    pub filters: Vec<TableFilterClause>,
    pub primary_key_fallback_ordering: bool,
    pub include_total: bool,
}

/// A copy of a list of filters.
pub fn copy_filters(filters: &[TableFilterClause]) -> (r: Vec<TableFilterClause>)
    ensures
        r@ == filters@,
{
    let mut out: Vec<TableFilterClause> = Vec::new();
    let mut i: usize = 0;
    while i < filters.len()
        invariant
            i <= filters@.len(),
            out@ == filters@.take(i as int),
        decreases filters@.len() - i,
    {
        out.push(filters[i].clone());
        assert(out@ =~= filters@.take(i as int + 1));
        i += 1;
    }
    assert(filters@.take(filters@.len() as int) =~= filters@);
    out
}

// ---------------------------------------------------------------------
// Operators of a column
// ---------------------------------------------------------------------
/// Whether a data type, in lower case, is a text type.
pub open spec fn textual(kind: Seq<char>) -> bool {
    has(kind, "char"@) || has(kind, "text"@) || has(kind, "string"@) || has(kind, "uuid"@)
}

/// Whether a data type, in lower case, has an order.
pub open spec fn ordered(kind: Seq<char>) -> bool {
    has(kind, "int"@) || has(kind, "serial"@) || has(kind, "oid"@) || has(kind, "float"@) || has(
        kind,
        "double"@,
    ) || has(kind, "real"@) || has(kind, "numeric"@) || has(kind, "decimal"@) || has(kind, "date"@)
        || has(kind, "time"@)
}

/// The operators that a column of this type goes through.
pub open spec fn operators_for(data_type: Seq<char>) -> Seq<TableFilterOperator> {
    let kind = lower(data_type);
    if textual(kind) {
        seq![
            TableFilterOperator::Equals,
            TableFilterOperator::NotEquals,
            TableFilterOperator::Contains,
            TableFilterOperator::NotContains,
            TableFilterOperator::StartsWith,
            TableFilterOperator::EndsWith,
            TableFilterOperator::Like,
            TableFilterOperator::IsNull,
            TableFilterOperator::IsNotNull,
        ]
    } else if ordered(kind) {
        seq![
            TableFilterOperator::Equals,
            TableFilterOperator::NotEquals,
            TableFilterOperator::GreaterThan,
            TableFilterOperator::GreaterThanOrEqual,
            TableFilterOperator::LessThan,
            TableFilterOperator::LessThanOrEqual,
            TableFilterOperator::IsNull,
            TableFilterOperator::IsNotNull,
        ]
    } else {
        seq![
            TableFilterOperator::Equals,
            TableFilterOperator::NotEquals,
            TableFilterOperator::IsNull,
            TableFilterOperator::IsNotNull,
        ]
    }
}

/// The operator behind `operator`, the first one behind the last. One that is
/// not in the list counts as the first.
pub open spec fn operator_after(
    operators: Seq<TableFilterOperator>,
    operator: TableFilterOperator,
) -> TableFilterOperator {
    let at = if operators.contains(operator) {
        operators.index_of(operator)
    } else {
        0
    };
    operators[(at + 1) % (operators.len() as int)]
}

fn is_textual(kind: &[char]) -> (r: bool)
    ensures
        r == textual(kind@),
{
    contains(kind, "char") || contains(kind, "text") || contains(kind, "string") || contains(
        kind,
        "uuid",
    )
}

fn is_ordered(kind: &[char]) -> (r: bool)
    ensures
        r == ordered(kind@),
{
    contains(kind, "int") || contains(kind, "serial") || contains(kind, "oid") || contains(
        kind,
        "float",
    ) || contains(kind, "double") || contains(kind, "real") || contains(kind, "numeric")
        || contains(kind, "decimal") || contains(kind, "date") || contains(kind, "time")
}

fn operator_list(data_type: &str) -> (r: Vec<TableFilterOperator>)
    ensures
        r@ == operators_for(data_type@),
{
    let kind = to_lower(data_type);
    if is_textual(kind.as_slice()) {
        vec![
            TableFilterOperator::Equals,
            TableFilterOperator::NotEquals,
            TableFilterOperator::Contains,
            TableFilterOperator::NotContains,
            TableFilterOperator::StartsWith,
            TableFilterOperator::EndsWith,
            TableFilterOperator::Like,
            TableFilterOperator::IsNull,
            TableFilterOperator::IsNotNull,
        ]
    } else if is_ordered(kind.as_slice()) {
        vec![
            TableFilterOperator::Equals,
            TableFilterOperator::NotEquals,
            TableFilterOperator::GreaterThan,
            TableFilterOperator::GreaterThanOrEqual,
            TableFilterOperator::LessThan,
            TableFilterOperator::LessThanOrEqual,
            TableFilterOperator::IsNull,
            TableFilterOperator::IsNotNull,
        ]
    } else {
        vec![
            TableFilterOperator::Equals,
            TableFilterOperator::NotEquals,
            TableFilterOperator::IsNull,
            TableFilterOperator::IsNotNull,
        ]
    }
}

/// The operators of a type are all different.
proof fn lemma_operators_differ(data_type: Seq<char>)
    ensures
        operators_for(data_type).no_duplicates(),
        operators_for(data_type).len() >= 4,
{
}

/// The operator that the filter composer offers after `operator`.
pub fn next_filter_operator(operator: TableFilterOperator, data_type: &str) -> (r:
    TableFilterOperator)
    ensures
        r == operator_after(operators_for(data_type@), operator),
{
    let operators = operator_list(data_type);
    let total: usize = operators.len();
    proof {
        lemma_operators_differ(data_type@);
    }
    let mut i: usize = 0;
    while i < total
        invariant
            i <= total,
            total == operators@.len(),
            total >= 4,
            operators@.no_duplicates(),
            operators@ == operators_for(data_type@),
            forall|j: int| 0 <= j < i ==> operators@[j] != operator,
        decreases total - i,
    {
        if operators[i] == operator {
            proof {
                assert(operators@.contains(operator));
                assert(operators@[operators@.index_of(operator)] == operator);
            }
            return operators[(i + 1) % total];
        }
        i += 1;
    }
    proof {
        assert(!operators@.contains(operator));
        vstd::arithmetic::div_mod::lemma_small_mod(1, total as nat);
    }
    operators[1]
}

/// The operator after `n` steps.
pub open spec fn operator_after_steps(
    operators: Seq<TableFilterOperator>,
    operator: TableFilterOperator,
    n: nat,
) -> TableFilterOperator
    decreases n,
{
    if n == 0 {
        operator
    } else {
        operator_after(operators, operator_after_steps(operators, operator, (n - 1) as nat))
    }
}

proof fn lemma_steps(data_type: Seq<char>, at: int, n: nat)
    requires
        0 <= at < operators_for(data_type).len(),
        at + n <= operators_for(data_type).len(),
    ensures
        operator_after_steps(operators_for(data_type), operators_for(data_type)[at], n)
            == operators_for(data_type)[if at + n < operators_for(data_type).len() {
            at + n
        } else {
            0
        }],
    decreases n,
{
    let operators = operators_for(data_type);
    lemma_operators_differ(data_type);
    if n > 0 {
        lemma_steps(data_type, at, (n - 1) as nat);
        let k = at + n - 1;
        assert(operators.contains(operators[k]));
        assert(operators[operators.index_of(operators[k])] == operators[k]);
        assert(operators.index_of(operators[k]) == k);
        let total = operators.len() as int;
        if k + 1 < total {
            assert((k + 1) % total == k + 1) by (nonlinear_arith)
                requires
                    0 <= k,
                    k + 1 < total,
            ;
        } else {
            assert(total % total == 0) by (nonlinear_arith)
                requires
                    total > 0,
            ;
        }
    }
}

proof fn lemma_steps_add(
    operators: Seq<TableFilterOperator>,
    operator: TableFilterOperator,
    a: nat,
    b: nat,
)
    ensures
        operator_after_steps(operators, operator, a + b) == operator_after_steps(
            operators,
            operator_after_steps(operators, operator, a),
            b,
        ),
    decreases b,
{
    if b > 0 {
        lemma_steps_add(operators, operator, a, (b - 1) as nat);
    }
}

/// The operators of a column go round: as many steps as there are operators lead
/// back to the one that was started from.
pub proof fn law_operators_cycle(data_type: Seq<char>, operator: TableFilterOperator)
    requires
        operators_for(data_type).contains(operator),
    ensures
        operator_after_steps(
            operators_for(data_type),
            operator,
            operators_for(data_type).len(),
        ) == operator,
{
    let operators = operators_for(data_type);
    lemma_operators_differ(data_type);
    let at = operators.index_of(operator);
    assert(operators[at] == operator);
    let up = (operators.len() - at) as nat;
    lemma_steps(data_type, at, up);
    lemma_steps(data_type, 0, at as nat);
    lemma_steps_add(operators, operator, up, at as nat);
}

/// The composer steps through the comparisons of texts for a column of a text
/// type, whatever else its type is called. An operator that texts do not have
/// steps to the second.
pub proof fn law_text_columns_step_through_the_text_operators(
    operator: TableFilterOperator,
    data_type: &str,
    r: TableFilterOperator,
)
    requires
        call_ensures(next_filter_operator, (operator, data_type), r),
        has(lower(data_type@), "char"@) || has(lower(data_type@), "text"@) || has(
            lower(data_type@),
            "string"@,
        ) || has(lower(data_type@), "uuid"@),
    ensures
        r == match operator {
            TableFilterOperator::Equals => TableFilterOperator::NotEquals,
            TableFilterOperator::NotEquals => TableFilterOperator::Contains,
            TableFilterOperator::Contains => TableFilterOperator::NotContains,
            TableFilterOperator::NotContains => TableFilterOperator::StartsWith,
            TableFilterOperator::StartsWith => TableFilterOperator::EndsWith,
            TableFilterOperator::EndsWith => TableFilterOperator::Like,
            TableFilterOperator::Like => TableFilterOperator::IsNull,
            TableFilterOperator::IsNull => TableFilterOperator::IsNotNull,
            TableFilterOperator::IsNotNull => TableFilterOperator::Equals,
            _ => TableFilterOperator::NotEquals,
        },
{
    let operators = operators_for(data_type@);
    lemma_operators_differ(data_type@);
    match operator {
        TableFilterOperator::Equals => lemma_next_operator(operators, 0),
        TableFilterOperator::NotEquals => lemma_next_operator(operators, 1),
        TableFilterOperator::Contains => lemma_next_operator(operators, 2),
        TableFilterOperator::NotContains => lemma_next_operator(operators, 3),
        TableFilterOperator::StartsWith => lemma_next_operator(operators, 4),
        TableFilterOperator::EndsWith => lemma_next_operator(operators, 5),
        TableFilterOperator::Like => lemma_next_operator(operators, 6),
        TableFilterOperator::IsNull => lemma_next_operator(operators, 7),
        TableFilterOperator::IsNotNull => lemma_next_operator(operators, 8),
        _ => lemma_next_of_another(operators, operator),
    }
}

/// The composer steps through the comparisons of order for a column of a number
/// or a time.
pub proof fn law_ordered_columns_step_through_the_comparisons(
    operator: TableFilterOperator,
    data_type: &str,
    r: TableFilterOperator,
)
    requires
        call_ensures(next_filter_operator, (operator, data_type), r),
        has(lower(data_type@), "char"@) == false,
        has(lower(data_type@), "text"@) == false,
        has(lower(data_type@), "string"@) == false,
        has(lower(data_type@), "uuid"@) == false,
        has(lower(data_type@), "int"@) || has(lower(data_type@), "serial"@) || has(
            lower(data_type@),
            "oid"@,
        ) || has(lower(data_type@), "float"@) || has(lower(data_type@), "double"@) || has(
            lower(data_type@),
            "real"@,
        ) || has(lower(data_type@), "numeric"@) || has(lower(data_type@), "decimal"@) || has(
            lower(data_type@),
            "date"@,
        ) || has(lower(data_type@), "time"@),
    ensures
        r == match operator {
            TableFilterOperator::Equals => TableFilterOperator::NotEquals,
            TableFilterOperator::NotEquals => TableFilterOperator::GreaterThan,
            TableFilterOperator::GreaterThan => TableFilterOperator::GreaterThanOrEqual,
            TableFilterOperator::GreaterThanOrEqual => TableFilterOperator::LessThan,
            TableFilterOperator::LessThan => TableFilterOperator::LessThanOrEqual,
            TableFilterOperator::LessThanOrEqual => TableFilterOperator::IsNull,
            TableFilterOperator::IsNull => TableFilterOperator::IsNotNull,
            TableFilterOperator::IsNotNull => TableFilterOperator::Equals,
            _ => TableFilterOperator::NotEquals,
        },
{
    let operators = operators_for(data_type@);
    lemma_operators_differ(data_type@);
    match operator {
        TableFilterOperator::Equals => lemma_next_operator(operators, 0),
        TableFilterOperator::NotEquals => lemma_next_operator(operators, 1),
        TableFilterOperator::GreaterThan => lemma_next_operator(operators, 2),
        TableFilterOperator::GreaterThanOrEqual => lemma_next_operator(operators, 3),
        TableFilterOperator::LessThan => lemma_next_operator(operators, 4),
        TableFilterOperator::LessThanOrEqual => lemma_next_operator(operators, 5),
        TableFilterOperator::IsNull => lemma_next_operator(operators, 6),
        TableFilterOperator::IsNotNull => lemma_next_operator(operators, 7),
        _ => lemma_next_of_another(operators, operator),
    }
}

/// A column of any other type is compared for equality and for NULL.
pub proof fn law_other_columns_step_through_equality(
    operator: TableFilterOperator,
    data_type: &str,
    r: TableFilterOperator,
)
    requires
        call_ensures(next_filter_operator, (operator, data_type), r),
        has(lower(data_type@), "char"@) == false,
        has(lower(data_type@), "text"@) == false,
        has(lower(data_type@), "string"@) == false,
        has(lower(data_type@), "uuid"@) == false,
        has(lower(data_type@), "int"@) == false,
        has(lower(data_type@), "serial"@) == false,
        has(lower(data_type@), "oid"@) == false,
        has(lower(data_type@), "float"@) == false,
        has(lower(data_type@), "double"@) == false,
        has(lower(data_type@), "real"@) == false,
        has(lower(data_type@), "numeric"@) == false,
        has(lower(data_type@), "decimal"@) == false,
        has(lower(data_type@), "date"@) == false,
        has(lower(data_type@), "time"@) == false,
    ensures
        r == match operator {
            TableFilterOperator::Equals => TableFilterOperator::NotEquals,
            TableFilterOperator::NotEquals => TableFilterOperator::IsNull,
            TableFilterOperator::IsNull => TableFilterOperator::IsNotNull,
            TableFilterOperator::IsNotNull => TableFilterOperator::Equals,
            _ => TableFilterOperator::NotEquals,
        },
{
    let operators = operators_for(data_type@);
    lemma_operators_differ(data_type@);
    match operator {
        TableFilterOperator::Equals => lemma_next_operator(operators, 0),
        TableFilterOperator::NotEquals => lemma_next_operator(operators, 1),
        TableFilterOperator::IsNull => lemma_next_operator(operators, 2),
        TableFilterOperator::IsNotNull => lemma_next_operator(operators, 3),
        _ => lemma_next_of_another(operators, operator),
    }
}

/// The operator behind that at a place of the list.
proof fn lemma_next_operator(operators: Seq<TableFilterOperator>, at: int)
    requires
        operators.no_duplicates(),
        0 <= at < operators.len(),
    ensures
        operator_after(operators, operators[at]) == if at + 1 < operators.len() {
            operators[at + 1]
        } else {
            operators[0]
        },
{
    let total = operators.len() as int;
    let operator = operators[at];
    assert(operators.contains(operator));
    assert(operators[operators.index_of(operator)] == operator);
    assert(operators.index_of(operator) == at);
    if at + 1 < total {
        assert((at + 1) % total == at + 1) by (nonlinear_arith)
            requires
                0 <= at,
                at + 1 < total,
        ;
    } else {
        assert(total % total == 0) by (nonlinear_arith)
            requires
                total > 0,
        ;
    }
}

/// The operator behind one that is not in the list.
proof fn lemma_next_of_another(operators: Seq<TableFilterOperator>, operator: TableFilterOperator)
    requires
        operators.len() > 1,
        !operators.contains(operator),
    ensures
        operator_after(operators, operator) == operators[1],
{
    let total = operators.len() as int;
    assert(1int % total == 1) by (nonlinear_arith)
        requires
            total > 1,
    ;
}

/// The opposite of a direction is the other one.
pub proof fn law_opposite_directions(direction: SortDirection, r: SortDirection)
    requires
        call_ensures(SortDirection::opposite, (direction,), r),
    ensures
        r != direction,
{
}

} // verus!
