//! SQL Server: decimal values as bound numbers, and queries in another database
//! than the connection's own.
use vstd::prelude::*;

use crate::dialect::Dialect;
use crate::engine::{CellarError, ErrorView};
use crate::text::{
    all_digits, digits_only, digits_value, parse_digits, same_text, text_of, trim, trim_of,
    unsigned_part,
};

verus! {

/// A decimal number: `value` divided by ten to the power of `scale`.
#[derive(Clone, Copy, PartialEq, Eq, Structural, Debug)]
pub struct ScaledNumber {
    pub value: i128,
    pub scale: u8,
}

/// The position of the first point; the length where there is none.
pub open spec fn point_at(s: Seq<char>) -> nat
    decreases s.len(),
{
    if s.len() == 0 || s[0] == '.' {
        0
    } else {
        1 + point_at(s.skip(1))
    }
}

/// What stands before the first point.
pub open spec fn whole_part(s: Seq<char>) -> Seq<char> {
    s.take(point_at(s) as int)
}

/// What stands after the first point; nothing where there is no point.
pub open spec fn fraction_part(s: Seq<char>) -> Seq<char> {
    if point_at(s) < s.len() {
        s.skip((point_at(s) + 1) as int)
    } else {
        Seq::empty()
    }
}

/// Whether the text without its sign is decimal digits with at most one point,
/// and fewer than 38 of the digits behind it.
pub open spec fn is_decimal(s: Seq<char>) -> bool {
    &&& whole_part(s).len() > 0 || fraction_part(s).len() > 0
    &&& all_digits(whole_part(s))
    &&& all_digits(fraction_part(s))
    &&& fraction_part(s).len() < 38
}

/// The number that all digits write, without the point.
pub open spec fn digits_number(s: Seq<char>) -> nat {
    digits_value(whole_part(s) + fraction_part(s))
}

/// A text in a message about a value.
pub open spec fn about_value(value: Seq<char>, what: Seq<char>) -> Seq<char> {
    "numeric foreign-key value `"@ + value + what
}

proof fn lemma_point_at(s: Seq<char>, at: int)
    requires
        0 <= at <= s.len(),
        at < s.len() ==> s[at] == '.',
        forall|i: int| 0 <= i < at ==> s[i] != '.',
    ensures
        point_at(s) == at,
    decreases s.len(),
{
    if at > 0 {
        let rest = s.skip(1);
        assert(s[0] != '.');
        assert forall|i: int| 0 <= i < at - 1 implies rest[i] != '.' by {
            assert(rest[i] == s[i + 1]);
        }
        lemma_point_at(rest, at - 1);
    }
}

fn part(chars: &[char], from: usize, to: usize) -> (r: Vec<char>)
    requires
        from <= to <= chars@.len(),
    ensures
        r@ == chars@.subrange(from as int, to as int),
{
    let mut out: Vec<char> = Vec::new();
    let mut i: usize = from;
    while i < to
        invariant
            from <= i <= to <= chars@.len(),
            out@ == chars@.subrange(from as int, i as int),
        decreases to - i,
    {
        out.push(chars[i]);
        i += 1;
        assert(out@ =~= chars@.subrange(from as int, i as int));
    }
    out
}

fn value_message(value: &[char], what: &str) -> (r: String)
    ensures
        r@ == about_value(value@, what@),
{
    let mut out = String::new();
    out.append("numeric foreign-key value `");
    out.append(text_of(value).as_str());
    out.append(what);
    assert(out@ =~= about_value(value@, what@));
    out
}

/// The decimal number that a text writes, or why it cannot be bound.
pub open spec fn decimal_of(value: Seq<char>) -> Result<ScaledNumber, ErrorView> {
    let trimmed = trim_of(value);
    let s = unsigned_part(trimmed);
    if !is_decimal(s) {
        Err(ErrorView::Query(about_value(s, "` is not supported by SQL Server binding"@)))
    } else if digits_number(s) > i128::MAX {
        Err(ErrorView::Query(about_value(s, "` is out of range"@)))
    } else {
        Ok(
            ScaledNumber {
                value: if trimmed.len() > 0 && trimmed[0] == '-' {
                    (-digits_number(s)) as i128
                } else {
                    digits_number(s) as i128
                },
                scale: fraction_part(s).len() as u8,
            },
        )
    }
}

/// Reads a decimal number for binding: a sign, digits, and a point among them.
/// The digits have to make an `i128`, with fewer than 38 of them behind the
/// point.
pub fn parse_numeric(value: &str) -> (r: Result<ScaledNumber, CellarError>)
    ensures
        match r {
            Ok(n) => decimal_of(value@) == Ok::<ScaledNumber, ErrorView>(n),
            Err(e) => decimal_of(value@) == Err::<ScaledNumber, ErrorView>(e@),
        },
{
    let trimmed = trim(value);
    let total: usize = trimmed.len();
    let negative = total > 0 && trimmed[0] == '-';
    let start: usize = if negative || (total > 0 && trimmed[0] == '+') {
        1
    } else {
        0
    };
    let body = part(trimmed.as_slice(), start, total);
    assert(body@ =~= unsigned_part(trimmed@));
    let mut point: usize = 0;
    while point < body.len() && body[point] != '.'
        invariant
            point <= body@.len(),
            forall|i: int| 0 <= i < point ==> body@[i] != '.',
        decreases body@.len() - point,
    {
        point += 1;
    }
    proof {
        lemma_point_at(body@, point as int);
    }
    let whole = part(body.as_slice(), 0, point);
    let fraction = if point < body.len() {
        part(body.as_slice(), point + 1, body.len())
    } else {
        Vec::new()
    };
    assert(whole@ =~= whole_part(body@));
    assert(fraction@ =~= fraction_part(body@));
    if (whole.len() == 0 && fraction.len() == 0) || !digits_only(whole.as_slice())
        || !digits_only(fraction.as_slice()) || fraction.len() >= 38 {
        return Err(
            CellarError::Query(
                value_message(body.as_slice(), "` is not supported by SQL Server binding"),
            ),
        );
    }
    let scale: u8 = fraction.len() as u8;
    let mut digits = whole;
    let mut behind = fraction;
    digits.append(&mut behind);
    assert(digits@ =~= whole_part(body@) + fraction_part(body@));
    assert(all_digits(digits@)) by {
        assert forall|i: int| 0 <= i < digits@.len() implies crate::text::is_digit(
            #[trigger] digits@[i],
        ) by {
            if i < whole_part(body@).len() {
                assert(crate::text::is_digit(whole_part(body@)[i]));
            } else {
                assert(crate::text::is_digit(fraction_part(body@)[i - whole_part(body@).len()]));
            }
        }
    }
    match parse_digits(digits.as_slice()) {
        None => Err(
            CellarError::Query(value_message(body.as_slice(), "` is out of range")),
        ),
        Some(n) => Ok(
            ScaledNumber {
                value: if negative {
                    -n
                } else {
                    n
                },
                scale,
            },
        ),
    }
}

/// A decimal that can be bound has fewer than 38 digits behind the point.
pub proof fn law_bound_decimals_keep_the_scale_limit(value: Seq<char>)
    ensures
        decimal_of(value) matches Ok(n) ==> n.scale < 38,
{
}

// ---------------------------------------------------------------------
// The database of a query
// ---------------------------------------------------------------------
/// The database that a query runs in: the one it names, or the connection's own
/// where it names none.
pub open spec fn target_database(named: Option<Seq<char>>, home: Seq<char>) -> Seq<char> {
    match named {
        Some(name) => if name.len() > 0 {
            name
        } else {
            home
        },
        None => home,
    }
}

/// The statement that enters a database.
pub open spec fn use_database(name: Seq<char>) -> Seq<char> {
    "USE "@ + Dialect::Mssql.quoted(name)
}

/// The statements to run before and after a query in another database.
pub struct DatabaseSwitch {
    pub enter: String,
    pub restore: String,
}

fn use_statement(name: &str) -> (r: String)
    ensures
        r@ == use_database(name@),
{
    let mut out = String::new();
    out.append("USE ");
    out.append(Dialect::Mssql.quote_ident(name).as_str());
    assert(out@ =~= use_database(name@));
    out
}

/// The switch that a query needs: none in the connection's own database.
pub fn database_switch(named: Option<&str>, home: &str) -> (r: Option<DatabaseSwitch>)
    ensures
        ({
            let target = target_database(
                match named {
                    Some(name) => Some(name@),
                    None => None,
                },
                home@,
            );
            &&& r is None == (target == home@)
            &&& r matches Some(switch) ==> switch.enter@ == use_database(target)
                && switch.restore@ == use_database(home@)
        }),
{
    let target = match named {
        Some(name) => if name.is_empty() {
            home
        } else {
            name
        },
        None => home,
    };
    if same_text(target, home) {
        None
    } else {
        Some(DatabaseSwitch { enter: use_statement(target), restore: use_statement(home) })
    }
}

/// The message of a session that did not return to its own database.
pub open spec fn not_restored(home: Seq<char>, error: Seq<char>) -> Seq<char> {
    "could not restore database ["@ + home + "] after parameterized query: "@ + error
}

/// The message for a session whose database could not be restored. Such a
/// session is in the wrong database and is not used again.
pub fn restore_message(home: &str, error: &str) -> (r: String)
    ensures
        r@ == not_restored(home@, error@),
{
    let mut out = String::new();
    out.append("could not restore database [");
    out.append(home);
    out.append("] after parameterized query: ");
    out.append(error);
    assert(out@ =~= not_restored(home@, error@));
    out
}

/// How a query in another database ends: with its own result once the session
/// is back in its own database, otherwise with the session given up, whatever
/// the query itself returned.
pub enum SessionOutcome<T> {
    Finished(Result<T, CellarError>),
    Invalidated(String),
}

/// The outcome of a query, given that of the statement that left the other
/// database where there was one.
pub fn session_outcome<T>(
    result: Result<T, CellarError>,
    restored: Option<Result<(), String>>,
    home: &str,
) -> (r: SessionOutcome<T>)
    ensures
        match restored {
            Some(Err(error)) => r matches SessionOutcome::Invalidated(m) && m@ == not_restored(
                home@,
                error@,
            ),
            _ => r == SessionOutcome::Finished(result),
        },
{
    match restored {
        Some(Err(error)) => SessionOutcome::Invalidated(restore_message(home, error.as_str())),
        _ => SessionOutcome::Finished(result),
    }
}

// ---------------------------------------------------------------------
// Laws
// ---------------------------------------------------------------------
proof fn lemma_trimmed(s: Seq<char>)
    requires
        s.len() > 0,
        !crate::text::is_space(s[0]),
        !crate::text::is_space(s.last()),
    ensures
        trim_of(s) == s,
{
}

/// A decimal is bound as the number that it writes: the digits on both sides of
/// the point as one number, scaled by how many of them stand behind the point,
/// and negative behind a minus sign.
pub proof fn law_decimals_are_the_number_written(
    sign: Seq<char>,
    whole: Seq<char>,
    fraction: Seq<char>,
    pointed: bool,
)
    requires
        sign == Seq::<char>::empty() || sign == seq!['-'] || sign == seq!['+'],
        all_digits(whole),
        all_digits(fraction),
        whole.len() + fraction.len() > 0,
        fraction.len() < 38,
        !pointed ==> fraction.len() == 0,
        digits_value(whole + fraction) <= i128::MAX,
    ensures
        ({
            let text = sign + whole + (if pointed {
                seq!['.']
            } else {
                Seq::empty()
            }) + fraction;
            &&& decimal_of(text) is Ok
            &&& decimal_of(text)->Ok_0.scale == fraction.len()
            &&& decimal_of(text)->Ok_0.value == (if sign == seq!['-'] {
                -digits_value(whole + fraction)
            } else {
                digits_value(whole + fraction) as int
            })
        }),
{
    let point = if pointed {
        seq!['.']
    } else {
        Seq::<char>::empty()
    };
    let text = sign + whole + point + fraction;
    let body = whole + point + fraction;
    assert(text =~= sign + body);
    assert(body.len() > 0);
    assert forall|i: int| 0 <= i < body.len() implies crate::text::is_digit(#[trigger] body[i])
        || body[i] == '.' by {
        if i < whole.len() {
            assert(crate::text::is_digit(whole[i]));
        } else if i >= whole.len() + point.len() {
            assert(crate::text::is_digit(fraction[i - whole.len() - point.len()]));
        }
    }
    assert(text.last() == body.last());
    assert(crate::text::is_digit(body[body.len() - 1]) || body[body.len() - 1] == '.');
    assert(crate::text::is_digit(body[0]) || body[0] == '.');
    if sign.len() > 0 {
        assert(text[0] == sign[0]);
        assert(text.skip(1) =~= body);
    } else {
        assert(text =~= body);
    }
    lemma_trimmed(text);
    assert(unsigned_part(text) == body);
    assert forall|i: int| 0 <= i < whole.len() implies body[i] != '.' by {
        assert(crate::text::is_digit(whole[i]));
    }
    lemma_point_at(body, whole.len() as int);
    assert(whole_part(body) =~= whole);
    assert(fraction_part(body) =~= fraction);
    assert((sign == seq!['-']) == (text[0] == '-')) by {
        if sign == seq!['+'] {
            assert(text[0] == '+');
            assert(seq!['+'][0] != seq!['-'][0]);
        }
    }
}

/// Whitespace around a decimal does not matter, and a text that holds anything
/// but digits, a point and a sign in front is refused.
pub proof fn law_only_decimals_are_bound(value: Seq<char>, i: int)
    ensures
        decimal_of(value) == decimal_of(trim_of(value)),
        1 <= i < trim_of(value).len() && trim_of(value)[i] != '.' && !('0' <= trim_of(value)[i]
            <= '9') ==> decimal_of(value) is Err,
        trim_of(value).len() == 0 ==> decimal_of(value) is Err,
{
    let t = trim_of(value);
    crate::text::law_trimming_cuts_whitespace_only(value);
    if t.len() > 0 {
        lemma_trimmed(t);
    }
    if 1 <= i < t.len() && t[i] != '.' && !('0' <= t[i] <= '9') {
        let s = unsigned_part(t);
        let k = if s.len() < t.len() {
            i - 1
        } else {
            i
        };
        assert(s[k] == t[i]);
        lemma_point(s);
        let p = point_at(s) as int;
        if k < p {
            assert(whole_part(s)[k] == s[k]);
        } else {
            assert(k != p);
            assert(fraction_part(s)[k - p - 1] == s[k]);
        }
    }
}

proof fn lemma_point(s: Seq<char>)
    ensures
        point_at(s) <= s.len(),
        point_at(s) < s.len() ==> s[point_at(s) as int] == '.',
    decreases s.len(),
{
    if s.len() > 0 && s[0] != '.' {
        lemma_point(s.skip(1));
    }
}

/// A query runs in the database that it names: the session enters it, by its
/// quoted name, and goes back to its own. It stays where it is where the query
/// names none or its own.
pub proof fn law_a_query_runs_where_it_says(
    named: Option<&str>,
    home: &str,
    r: Option<DatabaseSwitch>,
)
    requires
        call_ensures(database_switch, (named, home), r),
    ensures
        named is None ==> r is None,
        named matches Some(name) ==> (r is None <==> name@.len() == 0 || name@ == home@),
        named matches Some(name) ==> (r matches Some(switch) ==> {
            &&& switch.enter@ == "USE "@ + Dialect::Mssql.quoted(name@)
            &&& switch.restore@ == "USE "@ + Dialect::Mssql.quoted(home@)
        }),
{
}

/// A session that could not go back to its own database is never used on, not
/// even where the query itself succeeded; any other hands on what the query
/// returned.
pub proof fn law_lost_sessions_are_given_up<T>(
    result: Result<T, CellarError>,
    restored: Option<Result<(), String>>,
    home: &str,
    r: SessionOutcome<T>,
)
    requires
        call_ensures(session_outcome::<T>, (result, restored, home), r),
    ensures
        restored matches Some(Err(_)) ==> r is Invalidated,
        restored matches Some(Err(why)) ==> r->Invalidated_0@
            == "could not restore database ["@ + home@ + "] after parameterized query: "@ + why@,
        !(restored matches Some(Err(_))) ==> r == SessionOutcome::Finished(result),
{
}

/// A session that is lost tells the database that it should be in, and why it is
/// not.
pub proof fn law_lost_sessions_tell_their_database(home: &str, error: &str, r: String)
    requires
        call_ensures(restore_message, (home, error), r),
    ensures
        r@ == "could not restore database ["@ + home@ + "] after parameterized query: "@ + error@,
{
}

} // verus!
