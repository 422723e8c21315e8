//! Quoting of identifiers and string literals per SQL dialect.
//!
//! Everything that writes a name or a literal into a statement goes through
//! here, so the escaping rules live in one place. The laws at the end say that
//! a quoted name ends exactly at its last character, and that it can be read
//! back.
use vstd::prelude::*;

use crate::text::{doubled, push_doubled};

verus! {

/// The SQL dialect that a statement is written for.
#[derive(Clone, Copy, PartialEq, Eq, Structural, Hash, Debug)]
pub enum Dialect {
    Postgres,
    MySql,
    Sqlite,
    Mssql,
}

impl Dialect {
    /// The character that opens a quoted identifier.
    pub open spec fn opening(self) -> char {
        match self {
            Dialect::Postgres | Dialect::Sqlite => '"',
            Dialect::MySql => '`',
            Dialect::Mssql => '[',
        }
    }

    /// The character that closes a quoted identifier; inside, it is doubled.
    pub open spec fn closing(self) -> char {
        match self {
            Dialect::Postgres | Dialect::Sqlite => '"',
            Dialect::MySql => '`',
            Dialect::Mssql => ']',
        }
    }

    /// The quoted form of an identifier.
    pub open spec fn quoted(self, ident: Seq<char>) -> Seq<char> {
        seq![self.opening()] + doubled(ident, self.closing()) + seq![self.closing()]
    }

    /// The quoted form of `schema.object`.
    pub open spec fn qualified(self, schema: Seq<char>, object: Seq<char>) -> Seq<char> {
        self.quoted(schema) + seq!['.'] + self.quoted(object)
    }

    /// Quotes a single identifier (table, column, schema, constraint name) and
    /// doubles every closing quote character in it.
    ///
    /// - Postgres and SQLite use double quotes: `"name"`.
    /// - MySQL uses backticks: `` `name` ``.
    /// - SQL Server uses brackets: `[name]`.
    pub fn quote_ident(self, ident: &str) -> (r: String)
        ensures
            r@ == self.quoted(ident@),
    {
        let (open, close) = match self {
            Dialect::Postgres | Dialect::Sqlite => ('"', '"'),
            Dialect::MySql => ('`', '`'),
            Dialect::Mssql => ('[', ']'),
        };
        let mut out = String::new();
        out.push(open);
        push_doubled(&mut out, ident, close);
        out.push(close);
        assert(out@ =~= self.quoted(ident@));
        out
    }

    /// Quotes a `schema.object` pair into a fully qualified name.
    pub fn quote_qualified(self, schema: &str, object: &str) -> (r: String)
        ensures
            r@ == self.qualified(schema@, object@),
    {
        let mut out = self.quote_ident(schema);
        out.push('.');
        out.append(self.quote_ident(object).as_str());
        assert(out@ =~= self.qualified(schema@, object@));
        out
    }
}

/// The quoted form of a string literal.
pub open spec fn string_literal(value: Seq<char>) -> Seq<char> {
    seq!['\''] + doubled(value, '\'') + seq!['\'']
}

/// Quotes a SQL string literal and doubles every single quote in it. The result
/// is always a non-NULL literal.
pub fn quote_string_literal(value: &str) -> (r: String)
    ensures
        r@ == string_literal(value@),
{
    let mut out = String::new();
    out.push('\'');
    push_doubled(&mut out, value, '\'');
    out.push('\'');
    assert(out@ =~= string_literal(value@));
    out
}

// ---------------------------------------------------------------------
// Laws
// ---------------------------------------------------------------------
/// Where a reader that starts at `from` inside quotes finds the closing quote
/// `c`: the first one that does not stand in a doubled pair. The length of `s`
/// where there is none.
pub open spec fn closing_quote(s: Seq<char>, c: char, from: int) -> int
    decreases s.len() - from,
{
    if from < 0 || from >= s.len() {
        s.len() as int
    } else if s[from] == c {
        if from + 1 < s.len() && s[from + 1] == c {
            closing_quote(s, c, from + 2)
        } else {
            from
        }
    } else {
        closing_quote(s, c, from + 1)
    }
}

proof fn lemma_doubled_front(t: Seq<char>, c: char)
    requires
        t.len() > 0,
    ensures
        doubled(t, c) == (if t[0] == c {
            seq![c, c]
        } else {
            seq![t[0]]
        }) + doubled(t.skip(1), c),
    decreases t.len(),
{
    if t.len() == 1 {
        assert(t.drop_last() =~= Seq::<char>::empty());
        assert(t.skip(1) =~= Seq::<char>::empty());
        assert(doubled(t.drop_last(), c) =~= Seq::<char>::empty());
        assert(doubled(t, c) =~= (if t[0] == c {
            seq![c, c]
        } else {
            seq![t[0]]
        }) + doubled(t.skip(1), c));
    } else {
        lemma_doubled_front(t.drop_last(), c);
        assert(t.drop_last().skip(1) =~= t.skip(1).drop_last());
        assert(doubled(t, c) =~= (if t[0] == c {
            seq![c, c]
        } else {
            seq![t[0]]
        }) + doubled(t.skip(1), c));
    }
}

proof fn lemma_closing_quote(pre: Seq<char>, t: Seq<char>, c: char, rest: Seq<char>)
    requires
        rest.len() == 0 || rest[0] != c,
    ensures
        closing_quote(pre + doubled(t, c) + seq![c] + rest, c, pre.len() as int) == pre.len()
            + doubled(t, c).len(),
    decreases t.len(),
{
    let s = pre + doubled(t, c) + seq![c] + rest;
    if t.len() == 0 {
        assert(s[pre.len() as int] == c);
        if rest.len() > 0 {
            assert(s[pre.len() as int + 1] == rest[0]);
        }
    } else {
        lemma_doubled_front(t, c);
        let head = if t[0] == c {
            seq![c, c]
        } else {
            seq![t[0]]
        };
        let next = pre + head;
        assert(s =~= next + doubled(t.skip(1), c) + seq![c] + rest);
        lemma_closing_quote(next, t.skip(1), c, rest);
        assert(s[pre.len() as int] == t[0]);
        if t[0] == c {
            assert(s[pre.len() as int + 1] == c);
        }
    }
}

proof fn lemma_doubled_injective(a: Seq<char>, b: Seq<char>, c: char)
    requires
        doubled(a, c) == doubled(b, c),
    ensures
        a == b,
    decreases a.len(),
{
    if a.len() == 0 {
        if b.len() > 0 {
            assert(doubled(b, c).len() > 0);
        }
        assert(a =~= b);
    } else {
        let d = doubled(a, c);
        assert(d.last() == a.last());
        if b.len() == 0 {
            assert(false);
        }
        assert(d.last() == b.last());
        if a.last() == c {
            assert(d.drop_last().drop_last() =~= doubled(a.drop_last(), c));
            assert(d.drop_last().drop_last() =~= doubled(b.drop_last(), c));
        } else {
            assert(d.drop_last() =~= doubled(a.drop_last(), c));
            assert(d.drop_last() =~= doubled(b.drop_last(), c));
        }
        lemma_doubled_injective(a.drop_last(), b.drop_last(), c);
        assert(a =~= a.drop_last().push(a.last()));
        assert(b =~= b.drop_last().push(b.last()));
    }
}

/// A quoted identifier ends at its last character and no earlier, whatever
/// characters the identifier holds: nothing in it can close the quotes.
pub proof fn law_quoted_ident_closes_at_its_end(dialect: Dialect, ident: Seq<char>)
    ensures
        closing_quote(dialect.quoted(ident), dialect.closing(), 1) == dialect.quoted(ident).len()
            - 1,
{
    let c = dialect.closing();
    let rest = Seq::<char>::empty();
    lemma_closing_quote(seq![dialect.opening()], ident, c, rest);
    assert(seq![dialect.opening()] + doubled(ident, c) + seq![c] + rest =~= dialect.quoted(ident));
}

/// A quoted string literal ends at its last character and no earlier.
pub proof fn law_string_literal_closes_at_its_end(value: Seq<char>)
    ensures
        closing_quote(string_literal(value), '\'', 1) == string_literal(value).len() - 1,
{
    let rest = Seq::<char>::empty();
    lemma_closing_quote(seq!['\''], value, '\'', rest);
    assert(seq!['\''] + doubled(value, '\'') + seq!['\''] + rest =~= string_literal(value));
}

/// Two identifiers with one quoted form are the same identifier.
pub proof fn law_quoted_ident_is_unambiguous(dialect: Dialect, a: Seq<char>, b: Seq<char>)
    requires
        dialect.quoted(a) == dialect.quoted(b),
    ensures
        a == b,
{
    let c = dialect.closing();
    let q = dialect.quoted(a);
    assert(q.subrange(1, q.len() - 1) =~= doubled(a, c));
    assert(q.subrange(1, q.len() - 1) =~= doubled(b, c));
    lemma_doubled_injective(a, b, c);
}

/// Two values with one literal are the same value.
pub proof fn law_string_literal_is_unambiguous(a: Seq<char>, b: Seq<char>)
    requires
        string_literal(a) == string_literal(b),
    ensures
        a == b,
{
    let q = string_literal(a);
    assert(q.subrange(1, q.len() - 1) =~= doubled(a, '\''));
    assert(q.subrange(1, q.len() - 1) =~= doubled(b, '\''));
    lemma_doubled_injective(a, b, '\'');
}

/// Two `schema.object` pairs with one qualified form are the same pair.
pub proof fn law_qualified_name_is_unambiguous(
    dialect: Dialect,
    schema1: Seq<char>,
    object1: Seq<char>,
    schema2: Seq<char>,
    object2: Seq<char>,
)
    requires
        dialect.qualified(schema1, object1) == dialect.qualified(schema2, object2),
    ensures
        schema1 == schema2,
        object1 == object2,
{
    let c = dialect.closing();
    let o = seq![dialect.opening()];
    let q = dialect.qualified(schema1, object1);
    let rest1 = seq!['.'] + dialect.quoted(object1);
    let rest2 = seq!['.'] + dialect.quoted(object2);
    lemma_closing_quote(o, schema1, c, rest1);
    lemma_closing_quote(o, schema2, c, rest2);
    assert(q =~= o + doubled(schema1, c) + seq![c] + rest1);
    assert(q =~= o + doubled(schema2, c) + seq![c] + rest2);
    let n = closing_quote(q, c, 1);
    assert(q.take(n + 1) =~= dialect.quoted(schema1));
    assert(q.take(n + 1) =~= dialect.quoted(schema2));
    assert(q.skip(n + 2) =~= dialect.quoted(object1));
    assert(q.skip(n + 2) =~= dialect.quoted(object2));
    law_quoted_ident_is_unambiguous(dialect, schema1, schema2);
    law_quoted_ident_is_unambiguous(dialect, object1, object2);
}

/// The quotes are those of the dialect: double quotes for Postgres and SQLite,
/// backticks for MySQL, brackets for SQL Server.
pub proof fn law_quotes_are_those_of_the_dialect(dialect: Dialect, ident: &str, r: String)
    requires
        call_ensures(Dialect::quote_ident, (dialect, ident), r),
    ensures
        r@.len() >= 2,
        dialect == Dialect::Postgres || dialect == Dialect::Sqlite ==> r@[0] == '"' && r@.last()
            == '"',
        dialect == Dialect::MySql ==> r@[0] == '`' && r@.last() == '`',
        dialect == Dialect::Mssql ==> r@[0] == '[' && r@.last() == ']',
{
}

/// Between the quotes stands the name itself: each of its characters once and in
/// its place, but for the closing quote, which is written twice.
pub proof fn law_quoting_keeps_the_name(dialect: Dialect, before: Seq<char>, c: char, after: Seq<char>)
    ensures
        ({
            let inner = |s: Seq<char>| dialect.quoted(s).subrange(1, dialect.quoted(s).len() - 1);
            let closing = if dialect == Dialect::MySql {
                '`'
            } else if dialect == Dialect::Mssql {
                ']'
            } else {
                '"'
            };
            &&& inner(Seq::empty()) == Seq::<char>::empty()
            &&& c != closing ==> inner(before + seq![c] + after) == inner(before) + seq![c] + inner(
                after,
            )
            &&& c == closing ==> inner(before + seq![c] + after) == inner(before) + seq![c, c]
                + inner(after)
        }),
{
    let k = dialect.closing();
    assert forall|s: Seq<char>|
        #![trigger dialect.quoted(s)]
        dialect.quoted(s).subrange(1, dialect.quoted(s).len() - 1) == doubled(s, k) by {
        assert(dialect.quoted(s).subrange(1, dialect.quoted(s).len() - 1) =~= doubled(s, k));
    }
    lemma_doubled_parts(before, c, after, k);
}

proof fn lemma_doubled_parts(before: Seq<char>, c: char, after: Seq<char>, k: char)
    ensures
        doubled(before + seq![c] + after, k) == doubled(before, k) + (if c == k {
            seq![c, c]
        } else {
            seq![c]
        }) + doubled(after, k),
    decreases after.len(),
{
    let all = before + seq![c] + after;
    let mid = if c == k {
        seq![c, c]
    } else {
        seq![c]
    };
    if after.len() == 0 {
        assert(all.drop_last() =~= before);
        assert(doubled(all, k) =~= doubled(before, k) + mid + doubled(after, k));
    } else {
        assert(all.drop_last() =~= before + seq![c] + after.drop_last());
        lemma_doubled_parts(before, c, after.drop_last(), k);
        assert(doubled(all, k) =~= doubled(before, k) + mid + doubled(after, k));
    }
}

/// A string literal holds the value between single quotes: each of its
/// characters once and in its place, but for the single quote, which is written
/// twice.
pub proof fn law_string_literals_keep_the_value(before: Seq<char>, c: char, after: Seq<char>)
    ensures
        ({
            let inner = |s: Seq<char>| string_literal(s).subrange(1, string_literal(s).len() - 1);
            &&& string_literal(after)[0] == '\''
            &&& string_literal(after).last() == '\''
            &&& inner(Seq::empty()) == Seq::<char>::empty()
            &&& c != '\'' ==> inner(before + seq![c] + after) == inner(before) + seq![c] + inner(
                after,
            )
            &&& c == '\'' ==> inner(before + seq![c] + after) == inner(before) + seq![c, c] + inner(
                after,
            )
        }),
{
    assert forall|s: Seq<char>|
        #![trigger string_literal(s)]
        string_literal(s).subrange(1, string_literal(s).len() - 1) == doubled(s, '\'') by {
        assert(string_literal(s).subrange(1, string_literal(s).len() - 1) =~= doubled(s, '\''));
    }
    lemma_doubled_parts(before, c, after, '\'');
}

/// A qualified name is the schema's quoted name, a point, and the object's.
pub proof fn law_qualified_names_have_both_parts(
    dialect: Dialect,
    schema: &str,
    object: &str,
    r: String,
    first: String,
    second: String,
)
    requires
        call_ensures(Dialect::quote_qualified, (dialect, schema, object), r),
        call_ensures(Dialect::quote_ident, (dialect, schema), first),
        call_ensures(Dialect::quote_ident, (dialect, object), second),
    ensures
        r@ == first@ + seq!['.'] + second@,
{
}

} // verus!
