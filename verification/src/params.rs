//! Named (`:name`) and positional (`$N`) parameters of SQL statements.
//!
//! Detection works on tokens rather than on a parsed statement, so it also
//! works while a statement is incomplete, and a placeholder inside a string
//! literal, a comment or a dollar-quoted body is never taken for a parameter.
//! [`prepare`] rewrites the placeholders for binding and reports the parameters
//! in bind order, so that values are never written into the SQL text.
use sqlparser::dialect::dialect_from_str;
use sqlparser::tokenizer::{Token, Tokenizer};
use vstd::prelude::*;

use crate::engine::Engine;
use crate::params::TokenKind::{
    Colon, Gt, GtEq, Lt, LtEq, Neq, Other, Period, Placeholder, Whitespace, Word,
};
use crate::ordered_map::OrderedMap;
use crate::text::{all_digits, chars_of, digits_only, nat_text, push_u64, same_text, text_of};
use crate::value::opt_text;

verus! {

// ---------------------------------------------------------------------
// Tokens
// ---------------------------------------------------------------------
/// What a token is, as far as parameters depend on it.
#[derive(PartialEq, Eq, Debug)]
pub enum TokenKind {
    Whitespace,
    Colon,
    Period,
    Eq,
    Neq,
    Lt,
    Gt,
    LtEq,
    GtEq,
    /// A keyword or identifier. `keyword` is the upper-case name of the keyword
    /// that an unquoted word matches, `NoKeyword` where it matches none.
    Word { value: String, quoted: bool, keyword: String },
    Placeholder(String),
    Other,
}

/// A token: what it is written as, and what it is.
#[derive(PartialEq, Eq, Debug)]
pub struct SqlToken {
    pub text: String,
    pub kind: TokenKind,
}

/// The model of [`TokenKind`].
pub enum KindView {
    Whitespace,
    Colon,
    Period,
    Eq,
    Neq,
    Lt,
    Gt,
    LtEq,
    GtEq,
    Word { value: Seq<char>, quoted: bool, keyword: Seq<char> },
    Placeholder(Seq<char>),
    Other,
}

/// The model of [`SqlToken`].
pub struct TokenView {
    pub text: Seq<char>,
    pub kind: KindView,
}

impl View for TokenKind {
    type V = KindView;

    open spec fn view(&self) -> KindView {
        match self {
            TokenKind::Whitespace => KindView::Whitespace,
            TokenKind::Colon => KindView::Colon,
            TokenKind::Period => KindView::Period,
            TokenKind::Eq => KindView::Eq,
            TokenKind::Neq => KindView::Neq,
            TokenKind::Lt => KindView::Lt,
            TokenKind::Gt => KindView::Gt,
            TokenKind::LtEq => KindView::LtEq,
            TokenKind::GtEq => KindView::GtEq,
            TokenKind::Word { value, quoted, keyword } => KindView::Word {
                value: value@,
                quoted: *quoted,
                keyword: keyword@,
            },
            TokenKind::Placeholder(raw) => KindView::Placeholder(raw@),
            TokenKind::Other => KindView::Other,
        }
    }
}

impl View for SqlToken {
    type V = TokenView;

    open spec fn view(&self) -> TokenView {
        TokenView { text: self.text@, kind: self.kind@ }
    }
}

impl Clone for TokenKind {
    fn clone(&self) -> (r: Self)
        ensures
            r == *self,
    {
        match self {
            TokenKind::Whitespace => TokenKind::Whitespace,
            TokenKind::Colon => TokenKind::Colon,
            TokenKind::Period => TokenKind::Period,
            TokenKind::Eq => TokenKind::Eq,
            TokenKind::Neq => TokenKind::Neq,
            TokenKind::Lt => TokenKind::Lt,
            TokenKind::Gt => TokenKind::Gt,
            TokenKind::LtEq => TokenKind::LtEq,
            TokenKind::GtEq => TokenKind::GtEq,
            TokenKind::Word { value, quoted, keyword } => TokenKind::Word {
                value: value.clone(),
                quoted: *quoted,
                keyword: keyword.clone(),
            },
            TokenKind::Placeholder(raw) => TokenKind::Placeholder(raw.clone()),
            TokenKind::Other => TokenKind::Other,
        }
    }
}

impl Clone for SqlToken {
    fn clone(&self) -> (r: Self)
        ensures
            r == *self,
    {
        SqlToken { text: self.text.clone(), kind: self.kind.clone() }
    }
}

pub open spec fn token_views(tokens: Seq<SqlToken>) -> Seq<TokenView> {
    tokens.map_values(|t: SqlToken| t@)
}

/// The tokens that `sqlparser`'s tokenizer reads from `sql` in the dialect of
/// that name, each with the text that `sqlparser` writes it as and the name of
/// its keyword, or the tokenizer's error message.
pub uninterp spec fn tokenized(sql: Seq<char>, dialect: Seq<char>) -> Result<
    Seq<TokenView>,
    Seq<char>,
>;

/// Whether `sqlparser` has the dialect of this name.
pub open spec fn known_dialect(name: Seq<char>) -> bool {
    name == "postgresql"@ || name == "mysql"@ || name == "sqlite"@ || name == "mssql"@ || name
        == "generic"@
}

/// The outcome of [`tokenize`] over the models of its parts.
pub open spec fn token_outcome(r: Result<Vec<SqlToken>, String>) -> Result<
    Seq<TokenView>,
    Seq<char>,
> {
    match r {
        Ok(tokens) => Ok(token_views(tokens@)),
        Err(message) => Err(message@),
    }
}

/// `sqlparser::tokenizer::Tokenizer::tokenize` in a dialect that
/// `sqlparser::dialect::dialect_from_str` knows, with each token turned into a
/// [`SqlToken`]: its `Display` text, and its variant as far as [`TokenKind`] tells
/// variants apart. The keyword of a word is what `{:?}` writes of it.
#[verifier::external_body]
fn tokenize(sql: &str, dialect: &str) -> (r: Result<Vec<SqlToken>, String>)
    requires
        known_dialect(dialect@),
    ensures
        token_outcome(r) == tokenized(sql@, dialect@),
{
    let tokens = Tokenizer::new(dialect_from_str(dialect).unwrap().as_ref(), sql).tokenize();
    let turn = |t: Token| SqlToken { text: t.to_string(), kind: match t {
        Token::Whitespace(_) => Whitespace,
        Token::Colon => Colon,
        Token::Period => Period,
        Token::Eq => TokenKind::Eq,
        Token::Neq => Neq,
        Token::Lt => Lt, Token::Gt => Gt,
        Token::LtEq => LtEq, Token::GtEq => GtEq,
        Token::Word(w) => Word { quoted: w.quote_style.is_some(), keyword: format!("{:?}", w.keyword), value: w.value },
        Token::Placeholder(raw) => Placeholder(raw),
        _ => Other,
    } };
    Ok(tokens.map_err(|e| e.to_string())?.into_iter().map(turn).collect())
}

// ---------------------------------------------------------------------
// Parameters
// ---------------------------------------------------------------------
/// How a parameter is written.
#[derive(Clone, Copy, PartialEq, Eq, Structural, Debug)]
pub enum ParameterStyle {
    Named,
    Positional,
}

/// The native form of placeholders.
#[derive(Clone, Copy, PartialEq, Eq, Structural, Debug)]
pub enum PlaceholderStyle {
    /// `$1`, `$2`, ...
    Postgres,
    /// `?`
    Question,
    /// `@P1`, `@P2`, ...
    SqlServer,
}

/// A parameter of a statement.
#[derive(PartialEq, Eq, Debug)]
pub struct DetectedParameter {
    pub name: String,
    /// What the first occurrence is written as.
    pub placeholder: String,
    pub style: ParameterStyle,
    /// The position among the distinct parameters, from 1.
    pub ordinal: usize,
    /// The column that the first occurrence is compared with.
    pub column_hint: Option<String>,
}

/// The model of [`DetectedParameter`].
pub struct ParameterView {
    pub name: Seq<char>,
    pub placeholder: Seq<char>,
    pub style: ParameterStyle,
    pub ordinal: int,
    pub column_hint: Option<Seq<char>>,
}

impl View for DetectedParameter {
    type V = ParameterView;

    open spec fn view(&self) -> ParameterView {
        ParameterView {
            name: self.name@,
            placeholder: self.placeholder@,
            style: self.style,
            ordinal: self.ordinal as int,
            column_hint: opt_text(self.column_hint),
        }
    }
}

impl Clone for DetectedParameter {
    fn clone(&self) -> (r: Self)
        ensures
            r == *self,
    {
        DetectedParameter {
            name: self.name.clone(),
            placeholder: self.placeholder.clone(),
            style: self.style,
            ordinal: self.ordinal,
            column_hint: match &self.column_hint {
                Some(column) => Some(column.clone()),
                None => None,
            },
        }
    }
}

pub open spec fn parameter_views(parameters: Seq<DetectedParameter>) -> Seq<ParameterView> {
    parameters.map_values(|p: DetectedParameter| p@)
}

/// A statement rewritten for binding.
#[derive(Clone, PartialEq, Eq, Debug)]
pub struct PreparedStatement {
    /// The SQL with every placeholder in its native form.
    pub sql: String,
    /// The distinct parameters in the order of their first appearance.
    pub parameters: Vec<DetectedParameter>,
    /// The parameter of every placeholder, in SQL order. A `?` protocol needs
    /// one value for each of them, also where a name is repeated.
    pub bind_parameters: Vec<DetectedParameter>,
}

/// The model of [`PreparedStatement`].
pub struct PreparedView {
    pub sql: Seq<char>,
    pub parameters: Seq<ParameterView>,
    pub bind_parameters: Seq<ParameterView>,
}

impl View for PreparedStatement {
    type V = PreparedView;

    open spec fn view(&self) -> PreparedView {
        PreparedView {
            sql: self.sql@,
            parameters: parameter_views(self.parameters@),
            bind_parameters: parameter_views(self.bind_parameters@),
        }
    }
}

/// What goes wrong while a statement is prepared or its values are put in order.
#[derive(Clone, PartialEq, Eq, Debug)]
pub enum ParamError {
    Tokenize(String),
    MissingValue(String),
}

impl ParamError {
    /// The text of the error.
    pub open spec fn text(self) -> Seq<char> {
        match self {
            ParamError::Tokenize(message) => "could not tokenize SQL: "@ + message@,
            ParamError::MissingValue(name) => "no value supplied for parameter `"@ + name@ + "`"@,
        }
    }

    pub fn message(&self) -> (r: String)
        ensures
            r@ == self.text(),
    {
        let mut out = String::new();
        match self {
            ParamError::Tokenize(message) => {
                out.append("could not tokenize SQL: ");
                out.append(message.as_str());
            },
            ParamError::MissingValue(name) => {
                out.append("no value supplied for parameter `");
                out.append(name.as_str());
                out.append("`");
            },
        }
        assert(out@ =~= self.text());
        out
    }
}

// ---------------------------------------------------------------------
// Folding `:name`
// ---------------------------------------------------------------------
/// The placeholder `:name` as one token.
pub open spec fn named_placeholder(name: Seq<char>) -> TokenView {
    TokenView { text: ":"@ + name, kind: KindView::Placeholder(":"@ + name) }
}

/// Whether the tokens start with a colon and an unquoted word.
pub open spec fn starts_with_name(tokens: Seq<TokenView>) -> bool {
    &&& tokens.len() >= 2
    &&& tokens[0].kind is Colon
    &&& tokens[1].kind is Word
    &&& !tokens[1].kind->quoted
}

/// The tokens with each colon and the unquoted word right after it made into
/// one placeholder.
pub open spec fn folded(tokens: Seq<TokenView>) -> Seq<TokenView>
    decreases tokens.len(),
{
    if tokens.len() == 0 {
        Seq::empty()
    } else if starts_with_name(tokens) {
        seq![named_placeholder(tokens[1].kind->value)] + folded(tokens.skip(2))
    } else {
        seq![tokens[0]] + folded(tokens.skip(1))
    }
}

fn fold_names(tokens: &[SqlToken]) -> (r: Vec<SqlToken>)
    ensures
        token_views(r@) == folded(token_views(tokens@)),
{
    let ghost all = token_views(tokens@);
    let mut out: Vec<SqlToken> = Vec::new();
    let mut i: usize = 0;
    assert(all.skip(0) =~= all);
    while i < tokens.len()
        invariant
            i <= tokens@.len(),
            all == token_views(tokens@),
            token_views(out@) + folded(all.skip(i as int)) == folded(all),
        decreases tokens@.len() - i,
    {
        let ghost rest = all.skip(i as int);
        let ghost before = out@;
        assert(rest[0] == tokens@[i as int]@);
        let colon = match tokens[i].kind {
            TokenKind::Colon => true,
            _ => false,
        };
        if colon && i + 1 < tokens.len() {
            assert(rest[1] == tokens@[i + 1]@);
            if let TokenKind::Word { value, quoted: false, .. } = &tokens[i + 1].kind {
                let mut raw = String::new();
                raw.append(":");
                raw.append(value.as_str());
                let text = raw.clone();
                out.push(SqlToken { text, kind: TokenKind::Placeholder(raw) });
                i += 2;
                proof {
                    assert(raw@ =~= ":"@ + value@);
                    assert(rest.skip(2) =~= all.skip(i as int));
                    assert(token_views(out@) =~= token_views(before).push(named_placeholder(value@)));
                    assert(token_views(out@) + folded(all.skip(i as int)) =~= token_views(before)
                        + folded(rest));
                }
                continue;
            }
        }
        out.push(tokens[i].clone());
        i += 1;
        proof {
            assert(!starts_with_name(rest));
            assert(rest.skip(1) =~= all.skip(i as int));
            assert(token_views(out@) =~= token_views(before).push(rest[0]));
            assert(token_views(out@) + folded(all.skip(i as int)) =~= token_views(before) + folded(
                rest,
            ));
        }
    }
    proof {
        assert(all.skip(i as int) =~= Seq::empty());
        assert(token_views(out@) + Seq::<TokenView>::empty() =~= token_views(out@));
    }
    out
}

// ---------------------------------------------------------------------
// Placeholders
// ---------------------------------------------------------------------
/// The name and style of a placeholder, or nothing where it has no name (a bare
/// `?`, `:`, `$` or `@`).
pub open spec fn classified(raw: Seq<char>) -> Option<(Seq<char>, ParameterStyle)> {
    if raw.len() < 2 {
        None
    } else if raw[0] == ':' || raw[0] == '@' {
        Some((raw.skip(1), ParameterStyle::Named))
    } else if raw[0] == '$' {
        if all_digits(raw.skip(1)) {
            Some((raw.skip(1), ParameterStyle::Positional))
        } else {
            Some((raw.skip(1), ParameterStyle::Named))
        }
    } else {
        None
    }
}

fn classify(raw: &str) -> (r: Option<(String, ParameterStyle)>)
    ensures
        r is Some == classified(raw@) is Some,
        r matches Some(c) ==> c.0@ == (classified(raw@)->0).0 && c.1 == (classified(raw@)->0).1,
{
    let chars = chars_of(raw);
    if chars.len() < 2 {
        return None;
    }
    let mut name: Vec<char> = Vec::new();
    let mut i: usize = 1;
    while i < chars.len()
        invariant
            1 <= i <= chars@.len(),
            name@ == chars@.subrange(1, i as int),
        decreases chars@.len() - i,
    {
        name.push(chars[i]);
        i += 1;
        assert(name@ =~= chars@.subrange(1, i as int));
    }
    assert(name@ =~= raw@.skip(1));
    if chars[0] == ':' || chars[0] == '@' {
        Some((text_of(name.as_slice()), ParameterStyle::Named))
    } else if chars[0] == '$' {
        if digits_only(name.as_slice()) {
            Some((text_of(name.as_slice()), ParameterStyle::Positional))
        } else {
            Some((text_of(name.as_slice()), ParameterStyle::Named))
        }
    } else {
        None
    }
}

/// The parameter that a token stands for.
pub open spec fn bound(token: TokenView) -> Option<(Seq<char>, ParameterStyle)> {
    match token.kind {
        KindView::Placeholder(raw) => classified(raw),
        _ => None,
    }
}

// ---------------------------------------------------------------------
// Column hints
// ---------------------------------------------------------------------
/// The tokens that are not whitespace.
pub open spec fn significant(tokens: Seq<TokenView>) -> Seq<TokenView>
    decreases tokens.len(),
{
    if tokens.len() == 0 {
        Seq::empty()
    } else if tokens.last().kind is Whitespace {
        significant(tokens.drop_last())
    } else {
        significant(tokens.drop_last()).push(tokens.last())
    }
}

/// Whether a token compares two values.
pub open spec fn compares(token: TokenView) -> bool {
    match token.kind {
        KindView::Eq | KindView::Neq | KindView::Lt | KindView::Gt | KindView::LtEq
        | KindView::GtEq => true,
        KindView::Word { keyword, .. } => keyword == "LIKE"@ || keyword == "ILIKE"@,
        _ => false,
    }
}

/// The keywords that no column is named by. Many other keywords (`ID`, `NAME`)
/// are ordinary column names.
pub open spec fn never_a_column(keyword: Seq<char>) -> bool {
    keyword == "AND"@ || keyword == "OR"@ || keyword == "NOT"@ || keyword == "NULL"@ || keyword
        == "TRUE"@ || keyword == "FALSE"@ || keyword == "IS"@ || keyword == "IN"@ || keyword
        == "LIKE"@ || keyword == "ILIKE"@ || keyword == "BETWEEN"@ || keyword == "EXISTS"@
        || keyword == "ANY"@ || keyword == "ALL"@
}

/// The column name that a token can be.
pub open spec fn column_name(token: TokenView) -> Option<Seq<char>> {
    match token.kind {
        KindView::Word { value, keyword, .. } => if never_a_column(keyword) {
            None
        } else {
            Some(value)
        },
        _ => None,
    }
}

/// The last component of the name whose component `name` stands at `at`, with
/// `.name` components after it.
pub open spec fn last_component(tokens: Seq<TokenView>, at: int, name: Seq<char>) -> Seq<char>
    decreases tokens.len() - at,
{
    if 0 <= at && at + 2 < tokens.len() && tokens[at + 1].kind is Period && column_name(
        tokens[at + 2],
    ) is Some {
        last_component(tokens, at + 2, column_name(tokens[at + 2])->0)
    } else {
        name
    }
}

/// The column that the placeholder at `at` is compared with: the word before
/// the comparison before it, else the name after the comparison after it.
pub open spec fn hint(tokens: Seq<TokenView>, at: int) -> Option<Seq<char>> {
    if at >= 2 && compares(tokens[at - 1]) && column_name(tokens[at - 2]) is Some {
        column_name(tokens[at - 2])
    } else if at + 2 < tokens.len() && compares(tokens[at + 1]) && column_name(tokens[at + 2])
        is Some {
        Some(last_component(tokens, at + 2, column_name(tokens[at + 2])->0))
    } else {
        None
    }
}

/// Whether the text is one of the keywords that no column is named by.
fn is_non_column_keyword(keyword: &str) -> (r: bool)
    ensures
        r == never_a_column(keyword@),
{
    same_text(keyword, "AND") || same_text(keyword, "OR") || same_text(keyword, "NOT")
        || same_text(keyword, "NULL") || same_text(keyword, "TRUE") || same_text(keyword, "FALSE")
        || same_text(keyword, "IS") || same_text(keyword, "IN") || same_text(keyword, "LIKE")
        || same_text(keyword, "ILIKE") || same_text(keyword, "BETWEEN") || same_text(
        keyword,
        "EXISTS",
    ) || same_text(keyword, "ANY") || same_text(keyword, "ALL")
}

fn is_comparison(token: &SqlToken) -> (r: bool)
    ensures
        r == compares(token@),
{
    match &token.kind {
        TokenKind::Eq | TokenKind::Neq | TokenKind::Lt | TokenKind::Gt | TokenKind::LtEq
        | TokenKind::GtEq => true,
        TokenKind::Word { keyword, .. } => same_text(keyword.as_str(), "LIKE") || same_text(
            keyword.as_str(),
            "ILIKE",
        ),
        _ => false,
    }
}

fn ident_value(token: &SqlToken) -> (r: Option<String>)
    ensures
        opt_text(r) == column_name(token@),
{
    match &token.kind {
        TokenKind::Word { value, keyword, .. } => if is_non_column_keyword(keyword.as_str()) {
            None
        } else {
            Some(value.clone())
        },
        _ => None,
    }
}

fn qualified_column_tail(tokens: &[SqlToken], start: usize) -> (r: Option<String>)
    requires
        start < tokens@.len(),
    ensures
        r is Some == column_name(tokens@[start as int]@) is Some,
        r matches Some(name) ==> name@ == last_component(
            token_views(tokens@),
            start as int,
            column_name(tokens@[start as int]@)->0,
        ),
{
    let ghost all = token_views(tokens@);
    let mut name = match ident_value(&tokens[start]) {
        Some(name) => name,
        None => return None,
    };
    let total: usize = tokens.len();
    let mut at: usize = start;
    while total - at > 2
        invariant
            at < total,
            total == tokens@.len(),
            all == token_views(tokens@),
            last_component(all, at as int, name@) == last_component(
                all,
                start as int,
                column_name(all[start as int])->0,
            ),
        ensures
            name@ == last_component(all, start as int, column_name(all[start as int])->0),
        decreases total - at,
    {
        let period = match tokens[at + 1].kind {
            TokenKind::Period => true,
            _ => false,
        };
        assert(all[at + 1] == tokens@[at + 1]@ && all[at + 2] == tokens@[at + 2]@);
        if !period {
            break;
        }
        match ident_value(&tokens[at + 2]) {
            Some(next) => {
                name = next;
                at += 2;
            },
            None => {
                break;
            },
        }
    }
    Some(name)
}

fn column_hint(tokens: &[SqlToken], at: usize) -> (r: Option<String>)
    requires
        at < tokens@.len(),
    ensures
        opt_text(r) == hint(token_views(tokens@), at as int),
{
    let ghost all = token_views(tokens@);
    let total: usize = tokens.len();
    if at >= 2 && is_comparison(&tokens[at - 1]) {
        assert(all[at - 1] == tokens@[at - 1]@ && all[at - 2] == tokens@[at - 2]@);
        if let Some(name) = ident_value(&tokens[at - 2]) {
            return Some(name);
        }
    }
    if total - at > 2 && is_comparison(&tokens[at + 1]) {
        assert(all[at + 1] == tokens@[at + 1]@ && all[at + 2] == tokens@[at + 2]@);
        return qualified_column_tail(tokens, at + 2);
    }
    None
}

fn significant_tokens(tokens: &[SqlToken]) -> (r: Vec<SqlToken>)
    ensures
        token_views(r@) == significant(token_views(tokens@)),
{
    let ghost all = token_views(tokens@);
    let mut out: Vec<SqlToken> = Vec::new();
    let mut i: usize = 0;
    assert(token_views(out@) =~= significant(all.take(0)));
    while i < tokens.len()
        invariant
            i <= tokens@.len(),
            all == token_views(tokens@),
            token_views(out@) == significant(all.take(i as int)),
        decreases tokens@.len() - i,
    {
        let ghost before = out@;
        let blank = match tokens[i].kind {
            TokenKind::Whitespace => true,
            _ => false,
        };
        if !blank {
            out.push(tokens[i].clone());
        }
        proof {
            assert(all.take(i + 1).drop_last() =~= all.take(i as int));
            assert(all.take(i + 1).last() == tokens@[i as int]@);
            if !blank {
                assert(token_views(out@) =~= token_views(before).push(tokens@[i as int]@));
            }
        }
        i += 1;
    }
    assert(all.take(all.len() as int) =~= all);
    out
}

// ---------------------------------------------------------------------
// Preparing
// ---------------------------------------------------------------------
/// A placeholder in its native form.
pub open spec fn rendered(style: PlaceholderStyle, ordinal: nat) -> Seq<char> {
    match style {
        PlaceholderStyle::Postgres => "$"@ + nat_text(ordinal),
        PlaceholderStyle::Question => "?"@,
        PlaceholderStyle::SqlServer => "@P"@ + nat_text(ordinal),
    }
}

/// The position of the first parameter with this name; the number of parameters
/// where none has it.
pub open spec fn position_of(parameters: Seq<ParameterView>, name: Seq<char>) -> nat
    decreases parameters.len(),
{
    if parameters.len() == 0 || parameters[0].name == name {
        0
    } else {
        1 + position_of(parameters.skip(1), name)
    }
}

/// The column hint of the placeholder at `at`.
pub open spec fn hint_at(tokens: Seq<TokenView>, at: int) -> Option<Seq<char>> {
    hint(significant(tokens), significant(tokens.take(at)).len() as int)
}

/// The statement prepared from the tokens before `at`, extended by the token at
/// `at`. A token that is no parameter is kept as it is written. A parameter is
/// added where its name is new, bound, and written in its native form.
pub open spec fn with_token(
    tokens: Seq<TokenView>,
    style: PlaceholderStyle,
    at: int,
    p: PreparedView,
) -> PreparedView {
    match bound(tokens[at]) {
        None => PreparedView { sql: p.sql + tokens[at].text, ..p },
        Some((name, written)) => {
            let k = position_of(p.parameters, name);
            let parameters = if k < p.parameters.len() {
                p.parameters
            } else {
                p.parameters.push(
                    ParameterView {
                        name,
                        placeholder: tokens[at].kind->Placeholder_0,
                        style: written,
                        ordinal: (k + 1) as int,
                        column_hint: hint_at(tokens, at),
                    },
                )
            };
            PreparedView {
                sql: p.sql + rendered(style, k + 1),
                parameters,
                bind_parameters: p.bind_parameters.push(parameters[k as int]),
            }
        },
    }
}

/// The statement prepared from the first `n` tokens.
pub open spec fn prepared_to(tokens: Seq<TokenView>, style: PlaceholderStyle, n: nat) -> PreparedView
    decreases n,
{
    if n == 0 {
        PreparedView { sql: seq![], parameters: seq![], bind_parameters: seq![] }
    } else {
        with_token(tokens, style, n - 1, prepared_to(tokens, style, (n - 1) as nat))
    }
}

/// The statement prepared from tokens as the tokenizer gives them.
pub open spec fn prepared(tokens: Seq<TokenView>, style: PlaceholderStyle) -> PreparedView {
    prepared_to(folded(tokens), style, folded(tokens).len())
}

/// What [`position_of`] is.
pub proof fn lemma_position_of(parameters: Seq<ParameterView>, name: Seq<char>)
    ensures
        position_of(parameters, name) <= parameters.len(),
        position_of(parameters, name) < parameters.len() ==> parameters[position_of(
            parameters,
            name,
        ) as int].name == name,
        forall|i: int|
            0 <= i < position_of(parameters, name) ==> (#[trigger] parameters[i]).name != name,
    decreases parameters.len(),
{
    if parameters.len() != 0 && parameters[0].name != name {
        let rest = parameters.skip(1);
        lemma_position_of(rest, name);
        assert forall|i: int| 0 <= i < position_of(parameters, name) implies (
        #[trigger] parameters[i]).name != name by {
            if i > 0 {
                assert(parameters[i] == rest[i - 1]);
            }
        }
    }
}

proof fn lemma_position_is(parameters: Seq<ParameterView>, name: Seq<char>, at: int)
    requires
        0 <= at <= parameters.len(),
        at < parameters.len() ==> parameters[at].name == name,
        forall|i: int| 0 <= i < at ==> (#[trigger] parameters[i]).name != name,
    ensures
        position_of(parameters, name) == at,
{
    lemma_position_of(parameters, name);
    let k = position_of(parameters, name) as int;
    if k < at {
        assert(parameters[k].name != name);
    }
    if at < k {
        assert(parameters[at].name != name);
    }
}

fn find_parameter(parameters: &[DetectedParameter], name: &str) -> (r: usize)
    ensures
        r == position_of(parameter_views(parameters@), name@),
{
    let ghost all = parameter_views(parameters@);
    let mut i: usize = 0;
    while i < parameters.len()
        invariant
            i <= parameters@.len(),
            all == parameter_views(parameters@),
            forall|j: int| 0 <= j < i ==> (#[trigger] all[j]).name != name@,
        decreases parameters@.len() - i,
    {
        assert(all[i as int] == parameters@[i as int]@);
        if same_text(parameters[i].name.as_str(), name) {
            proof {
                lemma_position_is(all, name@, i as int);
            }
            return i;
        }
        i += 1;
    }
    proof {
        lemma_position_is(all, name@, i as int);
    }
    i
}

fn push_rendered(out: &mut String, style: PlaceholderStyle, ordinal: usize)
    ensures
        final(out)@ == old(out)@ + rendered(style, ordinal as nat),
{
    match style {
        PlaceholderStyle::Postgres => {
            out.append("$");
            push_u64(out, ordinal as u64);
        },
        PlaceholderStyle::Question => {
            out.append("?");
        },
        PlaceholderStyle::SqlServer => {
            out.append("@P");
            push_u64(out, ordinal as u64);
        },
    }
    assert(out@ =~= old(out)@ + rendered(style, ordinal as nat));
}

/// Prepares a statement from its tokens: the part of [`prepare`] that follows
/// the tokenizer.
pub fn prepare_tokens(raw: &[SqlToken], style: PlaceholderStyle) -> (r: PreparedStatement)
    ensures
        r@ == prepared(token_views(raw@), style),
{
    let tokens = fold_names(raw);
    let sig = significant_tokens(tokens.as_slice());
    let ghost all = token_views(tokens@);
    let mut out = PreparedStatement {
        sql: String::new(),
        parameters: Vec::new(),
        bind_parameters: Vec::new(),
    };
    let mut before: usize = 0;
    let mut i: usize = 0;
    proof {
        assert(parameter_views(out.parameters@) =~= seq![]);
        assert(significant(all.take(0)) =~= seq![]);
        assert(out@ == prepared_to(all, style, 0));
    }
    while i < tokens.len()
        invariant
            i <= tokens@.len(),
            all == token_views(tokens@),
            token_views(sig@) == significant(all),
            before == significant(all.take(i as int)).len(),
            out@ == prepared_to(all, style, i as nat),
            out.parameters@.len() <= i,
            before <= i,
        decreases tokens@.len() - i,
    {
        let ghost start = out@;
        let ghost here = all[i as int];
        assert(here == tokens@[i as int]@);
        proof {
            assert(all.take(i + 1).drop_last() =~= all.take(i as int));
            assert(all.take(i + 1).last() == here);
            lemma_significant_grows(all, i + 1);
        }
        let placeholder = match &tokens[i].kind {
            TokenKind::Placeholder(raw) => match classify(raw.as_str()) {
                Some((name, written)) => Some((raw.clone(), name, written)),
                None => None,
            },
            _ => None,
        };
        match placeholder {
            None => {
                out.sql.append(tokens[i].text.as_str());
                proof {
                    assert(out@.sql =~= start.sql + here.text);
                }
            },
            Some((raw, name, written)) => {
                let k: usize = find_parameter(out.parameters.as_slice(), name.as_str());
                proof {
                    lemma_position_of(start.parameters, name@);
                }
                if k == out.parameters.len() {
                    let column = column_hint(sig.as_slice(), before);
                    let ghost old_list = out.parameters@;
                    out.parameters.push(
                        DetectedParameter {
                            name,
                            placeholder: raw,
                            style: written,
                            ordinal: k + 1,
                            column_hint: column,
                        },
                    );
                    assert(parameter_views(out.parameters@) =~= parameter_views(old_list).push(
                        out.parameters@[k as int]@,
                    ));
                }
                let ghost binds = out.bind_parameters@;
                out.bind_parameters.push(out.parameters[k].clone());
                proof {
                    assert(parameter_views(out.bind_parameters@) =~= parameter_views(binds).push(
                        parameter_views(out.parameters@)[k as int],
                    ));
                }
                push_rendered(&mut out.sql, style, k + 1);
            },
        }
        let blank = match tokens[i].kind {
            TokenKind::Whitespace => true,
            _ => false,
        };
        if !blank {
            before += 1;
        }
        i += 1;
        assert(out@ == prepared_to(all, style, i as nat));
    }
    out
}

/// The significant tokens before a position come first among all of them.
proof fn lemma_significant_grows(tokens: Seq<TokenView>, n: int)
    requires
        0 <= n <= tokens.len(),
    ensures
        significant(tokens.take(n)).len() <= significant(tokens).len(),
    decreases tokens.len() - n,
{
    if n < tokens.len() {
        assert(tokens.take(n + 1).drop_last() =~= tokens.take(n));
        lemma_significant_grows(tokens, n + 1);
    } else {
        assert(tokens.take(n) =~= tokens);
    }
}

/// The name of the tokenizer dialect for an engine.
pub open spec fn tokenizer_dialect(engine: Engine) -> Seq<char> {
    match engine.family_of() {
        Engine::Postgres => "postgresql"@,
        Engine::MySql => "mysql"@,
        Engine::Sqlite => "sqlite"@,
        Engine::Mssql => "mssql"@,
        _ => "generic"@,
    }
}

fn dialect_for(engine: Engine) -> (r: &'static str)
    ensures
        r@ == tokenizer_dialect(engine),
        known_dialect(r@),
{
    match engine.family() {
        Engine::Postgres => "postgresql",
        Engine::MySql => "mysql",
        Engine::Sqlite => "sqlite",
        Engine::Mssql => "mssql",
        _ => "generic",
    }
}

/// The outcome of preparing `sql` for `engine`: the tokenizer's error, or the
/// statement prepared from its tokens.
pub open spec fn prepares_to(
    r: Result<PreparedStatement, ParamError>,
    sql: Seq<char>,
    engine: Engine,
    style: PlaceholderStyle,
) -> bool {
    match tokenized(sql, tokenizer_dialect(engine)) {
        Ok(tokens) => r matches Ok(statement) && statement@ == prepared(tokens, style),
        Err(message) => r matches Err(ParamError::Tokenize(m)) && m@ == message,
    }
}

fn prepare_with_placeholders(sql: &str, engine: Engine, style: PlaceholderStyle) -> (r: Result<
    PreparedStatement,
    ParamError,
>)
    ensures
        prepares_to(r, sql@, engine, style),
{
    match tokenize(sql, dialect_for(engine)) {
        Ok(tokens) => Ok(prepare_tokens(tokens.as_slice(), style)),
        Err(message) => Err(ParamError::Tokenize(message)),
    }
}

/// Rewrites the placeholders of `sql` to `$1`, `$2`, ... and reports its
/// parameters.
pub fn prepare(sql: &str, engine: Engine) -> (r: Result<PreparedStatement, ParamError>)
    ensures
        prepares_to(r, sql@, engine, PlaceholderStyle::Postgres),
{
    prepare_with_placeholders(sql, engine, PlaceholderStyle::Postgres)
}

/// The placeholders that an engine's own protocol accepts.
pub open spec fn native_style(engine: Engine) -> PlaceholderStyle {
    match engine.family_of() {
        Engine::MySql | Engine::Sqlite => PlaceholderStyle::Question,
        Engine::Mssql => PlaceholderStyle::SqlServer,
        _ => PlaceholderStyle::Postgres,
    }
}

/// Rewrites the placeholders of `sql` to the form that the engine's own protocol
/// accepts: `$N` for Postgres, `?` for MySQL and SQLite, `@PN` for SQL Server.
pub fn prepare_native(sql: &str, engine: Engine) -> (r: Result<PreparedStatement, ParamError>)
    ensures
        prepares_to(r, sql@, engine, native_style(engine)),
{
    let style = match engine.family() {
        Engine::MySql | Engine::Sqlite => PlaceholderStyle::Question,
        Engine::Mssql => PlaceholderStyle::SqlServer,
        _ => PlaceholderStyle::Postgres,
    };
    prepare_with_placeholders(sql, engine, style)
}

/// The values of the parameters in bind order, or the name of the first
/// parameter that has none.
pub fn order_values<'a, T>(
    parameters: &[DetectedParameter],
    by_name: &'a OrderedMap<String, T>,
) -> (r: Result<Vec<&'a T>, ParamError>)
    requires
        by_name.wf(),
    ensures
        r is Ok == (forall|i: int|
            0 <= i < parameters@.len() ==> by_name.map().contains_key(
                (#[trigger] parameters@[i]).name@,
            )),
        r matches Ok(list) ==> list@.len() == parameters@.len() && forall|i: int|
            0 <= i < list@.len() ==> *(#[trigger] list@[i])
                == by_name.map()[parameters@[i].name@],
        r matches Err(e) ==> e is MissingValue && exists|i: int|
            {
                &&& 0 <= i < parameters@.len()
                &&& e->MissingValue_0@ == (#[trigger] parameters@[i]).name@
                &&& !by_name.map().contains_key(parameters@[i].name@)
                &&& forall|j: int|
                    0 <= j < i ==> by_name.map().contains_key((#[trigger] parameters@[j]).name@)
            },
{
    let mut out: Vec<&'a T> = Vec::new();
    let mut i: usize = 0;
    while i < parameters.len()
        invariant
            i <= parameters@.len(),
            by_name.wf(),
            out@.len() == i,
            forall|j: int|
                0 <= j < i ==> by_name.map().contains_key((#[trigger] parameters@[j]).name@),
            forall|j: int|
                0 <= j < i ==> *(#[trigger] out@[j]) == by_name.map()[parameters@[j].name@],
        decreases parameters@.len() - i,
    {
        match by_name.get(&parameters[i].name) {
            Some(value) => out.push(value),
            None => {
                return Err(ParamError::MissingValue(parameters[i].name.clone()));
            },
        }
        i += 1;
    }
    Ok(out)
}

// ---------------------------------------------------------------------
// Laws
// ---------------------------------------------------------------------
/// What holds of the parameters of every prepared statement.
pub open spec fn coherent(p: PreparedView) -> bool {
    &&& forall|i: int|
        0 <= i < p.parameters.len() ==> (#[trigger] p.parameters[i]).ordinal == i + 1
    &&& forall|i: int, j: int|
        0 <= i < j < p.parameters.len() ==> (#[trigger] p.parameters[i]).name != (
        #[trigger] p.parameters[j]).name
    &&& forall|i: int|
        0 <= i < p.bind_parameters.len() ==> {
            &&& 1 <= (#[trigger] p.bind_parameters[i]).ordinal <= p.parameters.len()
            &&& p.bind_parameters[i] == p.parameters[p.bind_parameters[i].ordinal - 1]
        }
    &&& forall|i: int|
        0 <= i < p.parameters.len() ==> p.bind_parameters.contains(#[trigger] p.parameters[i])
}

/// The number of tokens that stand for a parameter.
pub open spec fn bound_count(tokens: Seq<TokenView>) -> nat
    decreases tokens.len(),
{
    if tokens.len() == 0 {
        0
    } else if bound(tokens.last()) is Some {
        bound_count(tokens.drop_last()) + 1
    } else {
        bound_count(tokens.drop_last())
    }
}

proof fn lemma_coherent_step(tokens: Seq<TokenView>, style: PlaceholderStyle, at: int, p: PreparedView)
    requires
        coherent(p),
    ensures
        coherent(with_token(tokens, style, at, p)),
{
    let q = with_token(tokens, style, at, p);
    if let Some((name, written)) = bound(tokens[at]) {
        lemma_position_of(p.parameters, name);
        let k = position_of(p.parameters, name) as int;
        assert(q.bind_parameters.last() == q.parameters[k]);
        assert forall|i: int| 0 <= i < q.parameters.len() implies q.bind_parameters.contains(
            #[trigger] q.parameters[i],
        ) by {
            if i < p.parameters.len() {
                assert(p.bind_parameters.contains(p.parameters[i]));
                let j = choose|j: int|
                    0 <= j < p.bind_parameters.len() && p.bind_parameters[j] == p.parameters[i];
                assert(q.bind_parameters[j] == q.parameters[i]);
            } else {
                assert(q.bind_parameters[q.bind_parameters.len() - 1] == q.parameters[i]);
            }
        }
    }
}

proof fn lemma_coherent(tokens: Seq<TokenView>, style: PlaceholderStyle, n: nat)
    requires
        n <= tokens.len(),
    ensures
        coherent(prepared_to(tokens, style, n)),
        prepared_to(tokens, style, n).bind_parameters.len() == bound_count(tokens.take(n as int)),
    decreases n,
{
    if n > 0 {
        lemma_coherent(tokens, style, (n - 1) as nat);
        lemma_coherent_step(tokens, style, n - 1, prepared_to(tokens, style, (n - 1) as nat));
        assert(tokens.take(n as int).drop_last() =~= tokens.take(n - 1));
    }
}

/// The parameters of a prepared statement have distinct names and count up from
/// one. Every placeholder binds one of them, every one of them is bound, and
/// there is one bound parameter for each placeholder that stands for one.
pub proof fn law_parameters_are_coherent(tokens: Seq<TokenView>, style: PlaceholderStyle)
    ensures
        coherent(prepared(tokens, style)),
        prepared(tokens, style).bind_parameters.len() == bound_count(folded(tokens)),
{
    let all = folded(tokens);
    lemma_coherent(all, style, all.len());
    assert(all.take(all.len() as int) =~= all);
}

proof fn lemma_style_free(tokens: Seq<TokenView>, a: PlaceholderStyle, b: PlaceholderStyle, n: nat)
    ensures
        prepared_to(tokens, a, n).parameters == prepared_to(tokens, b, n).parameters,
        prepared_to(tokens, a, n).bind_parameters == prepared_to(tokens, b, n).bind_parameters,
    decreases n,
{
    if n > 0 {
        lemma_style_free(tokens, a, b, (n - 1) as nat);
    }
}

/// The native form changes the SQL only, never the parameters.
pub proof fn law_parameters_do_not_depend_on_style(
    tokens: Seq<TokenView>,
    a: PlaceholderStyle,
    b: PlaceholderStyle,
)
    ensures
        prepared(tokens, a).parameters == prepared(tokens, b).parameters,
        prepared(tokens, a).bind_parameters == prepared(tokens, b).bind_parameters,
{
    lemma_style_free(folded(tokens), a, b, folded(tokens).len());
}

/// The native text of one token: a placeholder by the number of its parameter
/// among `parameters`, any other token as it is written.
pub open spec fn token_sql(
    token: TokenView,
    parameters: Seq<ParameterView>,
    style: PlaceholderStyle,
) -> Seq<char> {
    match bound(token) {
        Some((name, written)) => rendered(style, position_of(parameters, name) + 1),
        None => token.text,
    }
}

/// The native texts of the tokens, one after the other.
pub open spec fn tokens_sql(
    tokens: Seq<TokenView>,
    parameters: Seq<ParameterView>,
    style: PlaceholderStyle,
) -> Seq<char>
    decreases tokens.len(),
{
    if tokens.len() == 0 {
        Seq::empty()
    } else {
        tokens_sql(tokens.drop_last(), parameters, style) + token_sql(
            tokens.last(),
            parameters,
            style,
        )
    }
}

/// A parameter keeps its number when more are added behind it.
proof fn lemma_position_stays(parameters: Seq<ParameterView>, more: ParameterView, name: Seq<char>)
    requires
        position_of(parameters, name) < parameters.len(),
    ensures
        position_of(parameters.push(more), name) == position_of(parameters, name),
{
    lemma_position_of(parameters, name);
    let k = position_of(parameters, name) as int;
    let list = parameters.push(more);
    assert forall|i: int| 0 <= i < k implies (#[trigger] list[i]).name != name by {
        assert(list[i] == parameters[i]);
    }
    lemma_position_is(list, name, k);
}

/// Every parameter that the tokens before `n` stand for is among those found.
proof fn lemma_names_found(tokens: Seq<TokenView>, style: PlaceholderStyle, n: nat, i: int)
    requires
        0 <= i < n <= tokens.len(),
        bound(tokens[i]) is Some,
    ensures
        position_of(prepared_to(tokens, style, n).parameters, (bound(tokens[i])->0).0)
            < prepared_to(tokens, style, n).parameters.len(),
    decreases n,
{
    let name = (bound(tokens[i])->0).0;
    let p = prepared_to(tokens, style, (n - 1) as nat);
    let q = prepared_to(tokens, style, n);
    if i == n - 1 {
        lemma_position_of(p.parameters, name);
        let k = position_of(p.parameters, name) as int;
        assert forall|j: int| 0 <= j < k implies (#[trigger] q.parameters[j]).name != name by {
            assert(q.parameters[j] == p.parameters[j]);
        }
        lemma_position_is(q.parameters, name, k);
    } else {
        lemma_names_found(tokens, style, (n - 1) as nat, i);
        if q.parameters != p.parameters {
            lemma_position_stays(p.parameters, q.parameters.last(), name);
        }
    }
}

/// The text of tokens whose parameters are all known does not change when
/// parameters are added.
proof fn lemma_tokens_sql_stays(
    tokens: Seq<TokenView>,
    parameters: Seq<ParameterView>,
    more: ParameterView,
    style: PlaceholderStyle,
)
    requires
        forall|i: int|
            0 <= i < tokens.len() && bound(#[trigger] tokens[i]) is Some ==> position_of(
                parameters,
                (bound(tokens[i])->0).0,
            ) < parameters.len(),
    ensures
        tokens_sql(tokens, parameters.push(more), style) == tokens_sql(tokens, parameters, style),
    decreases tokens.len(),
{
    if tokens.len() > 0 {
        assert forall|i: int|
            0 <= i < tokens.drop_last().len() && bound(#[trigger] tokens.drop_last()[i]) is Some
            implies position_of(parameters, (bound(tokens.drop_last()[i])->0).0)
            < parameters.len() by {
            assert(tokens.drop_last()[i] == tokens[i]);
        }
        lemma_tokens_sql_stays(tokens.drop_last(), parameters, more, style);
        let last = tokens[tokens.len() - 1];
        if bound(last) is Some {
            lemma_position_stays(parameters, more, (bound(last)->0).0);
        }
    }
}

proof fn lemma_sql(tokens: Seq<TokenView>, style: PlaceholderStyle, n: nat)
    requires
        n <= tokens.len(),
    ensures
        prepared_to(tokens, style, n).sql == tokens_sql(
            tokens.take(n as int),
            prepared_to(tokens, style, n).parameters,
            style,
        ),
    decreases n,
{
    if n > 0 {
        let m = (n - 1) as nat;
        let p = prepared_to(tokens, style, m);
        let q = prepared_to(tokens, style, n);
        let front = tokens.take(m as int);
        lemma_sql(tokens, style, m);
        assert(tokens.take(n as int).drop_last() =~= front);
        assert forall|i: int| 0 <= i < front.len() && bound(#[trigger] front[i]) is Some implies
            position_of(p.parameters, (bound(front[i])->0).0) < p.parameters.len() by {
            lemma_names_found(tokens, style, m, i);
        }
        if q.parameters != p.parameters {
            lemma_tokens_sql_stays(front, p.parameters, q.parameters.last(), style);
        }
        if let Some((name, written)) = bound(tokens[m as int]) {
            lemma_position_of(p.parameters, name);
            let k = position_of(p.parameters, name) as int;
            assert forall|j: int| 0 <= j < k implies (#[trigger] q.parameters[j]).name != name by {
                assert(q.parameters[j] == p.parameters[j]);
            }
            lemma_position_is(q.parameters, name, k);
        }
    }
}

/// The SQL of a prepared statement is its tokens one after the other: each
/// placeholder that stands for a parameter in its native form, by the number of
/// that parameter, and every other token, string literals and comments among
/// them, as it is written.
pub proof fn law_only_placeholders_are_rewritten(tokens: Seq<TokenView>, style: PlaceholderStyle)
    ensures
        prepared(tokens, style).sql == tokens_sql(
            folded(tokens),
            prepared(tokens, style).parameters,
            style,
        ),
{
    let all = folded(tokens);
    lemma_sql(all, style, all.len());
    assert(all.take(all.len() as int) =~= all);
}

/// The texts of the tokens, one after the other.
pub open spec fn written(tokens: Seq<TokenView>) -> Seq<char>
    decreases tokens.len(),
{
    if tokens.len() == 0 {
        Seq::empty()
    } else {
        written(tokens.drop_last()) + tokens.last().text
    }
}

proof fn lemma_no_parameters(tokens: Seq<TokenView>, style: PlaceholderStyle, n: nat)
    requires
        n <= tokens.len(),
        forall|i: int| 0 <= i < tokens.len() ==> bound(#[trigger] tokens[i]) is None,
    ensures
        prepared_to(tokens, style, n).parameters.len() == 0,
        prepared_to(tokens, style, n).bind_parameters.len() == 0,
        prepared_to(tokens, style, n).sql == written(tokens.take(n as int)),
    decreases n,
{
    if n > 0 {
        lemma_no_parameters(tokens, style, (n - 1) as nat);
        assert(tokens.take(n as int).drop_last() =~= tokens.take(n - 1));
        assert(bound(tokens[n - 1]) is None);
    }
}

proof fn lemma_nothing_to_fold(tokens: Seq<TokenView>)
    requires
        forall|i: int|
            0 <= i && i + 1 < tokens.len() && (#[trigger] tokens[i]).kind is Colon ==> !(
            tokens[i + 1].kind is Word && !tokens[i + 1].kind->quoted),
    ensures
        folded(tokens) == tokens,
    decreases tokens.len(),
{
    if tokens.len() > 0 {
        let rest = tokens.skip(1);
        assert forall|i: int|
            0 <= i && i + 1 < rest.len() && (#[trigger] rest[i]).kind is Colon implies !(rest[i
            + 1].kind is Word && !rest[i + 1].kind->quoted) by {
            assert(rest[i] == tokens[i + 1]);
        }
        lemma_nothing_to_fold(rest);
        assert(tokens =~= seq![tokens[0]] + rest);
    }
}

/// A statement without parameters is kept: its SQL is what its tokens are
/// written as, and it has no parameters.
pub proof fn law_no_parameters_keeps_the_text(tokens: Seq<TokenView>, style: PlaceholderStyle)
    requires
        forall|i: int| 0 <= i < tokens.len() ==> bound(#[trigger] tokens[i]) is None,
        forall|i: int|
            0 <= i && i + 1 < tokens.len() && (#[trigger] tokens[i]).kind is Colon ==> !(
            tokens[i + 1].kind is Word && !tokens[i + 1].kind->quoted),
    ensures
        prepared(tokens, style).sql == written(tokens),
        prepared(tokens, style).parameters.len() == 0,
        prepared(tokens, style).bind_parameters.len() == 0,
{
    lemma_nothing_to_fold(tokens);
    lemma_no_parameters(tokens, style, tokens.len());
    assert(tokens.take(tokens.len() as int) =~= tokens);
}

/// A native placeholder names its parameter by its number: `$` or `@P` and the
/// digits of the number, which read back to it. So two placeholders are written
/// alike exactly where they stand for one parameter. A `?` has no number.
pub proof fn law_placeholders_carry_their_number(style: PlaceholderStyle, a: nat, b: nat)
    ensures
        style == PlaceholderStyle::Postgres ==> rendered(style, a)[0] == '$'
            && crate::text::int_of(rendered(style, a).skip(1)) == Some(a as int) && all_digits(
            rendered(style, a).skip(1),
        ),
        style == PlaceholderStyle::SqlServer ==> rendered(style, a).take(2) == seq!['@', 'P']
            && crate::text::int_of(rendered(style, a).skip(2)) == Some(a as int) && all_digits(
            rendered(style, a).skip(2),
        ),
        style == PlaceholderStyle::Question ==> rendered(style, a) == seq!['?'],
        style != PlaceholderStyle::Question ==> (rendered(style, a) == rendered(style, b) <==> a
            == b),
{
    reveal_strlit("$");
    reveal_strlit("@P");
    reveal_strlit("?");
    crate::text::law_numbers_read_back(a as int);
    crate::text::law_numbers_read_back(b as int);
    match style {
        PlaceholderStyle::Postgres => {
            assert(rendered(style, a).skip(1) =~= nat_text(a));
            assert(rendered(style, b).skip(1) =~= nat_text(b));
        },
        PlaceholderStyle::SqlServer => {
            assert(rendered(style, a).skip(2) =~= nat_text(a));
            assert(rendered(style, b).skip(2) =~= nat_text(b));
            assert(rendered(style, a).take(2) =~= seq!['@', 'P']);
        },
        PlaceholderStyle::Question => {
            assert(rendered(style, a) =~= seq!['?']);
        },
    }
}

/// The name of a placeholder is what stands behind its sign: `:name` and `@name`
/// are named, `$name` too, and `$` with digits is positional. Anything else, and
/// a sign alone, names nothing.
pub proof fn law_names_stand_behind_the_sign(sign: char, name: Seq<char>)
    ensures
        ({
            let raw = seq![sign] + name;
            &&& classified(Seq::empty()) is None
            &&& name.len() == 0 ==> classified(raw) is None
            &&& name.len() > 0 && (sign == ':' || sign == '@') ==> classified(raw) == Some(
                (name, ParameterStyle::Named),
            )
            &&& name.len() > 0 && sign == '$' ==> classified(raw) == Some(
                (
                    name,
                    if forall|i: int| 0 <= i < name.len() ==> '0' <= #[trigger] name[i] <= '9' {
                        ParameterStyle::Positional
                    } else {
                        ParameterStyle::Named
                    },
                ),
            )
            &&& sign != ':' && sign != '@' && sign != '$' ==> classified(raw) is None
        }),
{
    let raw = seq![sign] + name;
    assert(raw.skip(1) =~= name);
    if all_digits(name) {
        assert forall|i: int| 0 <= i < name.len() implies '0' <= #[trigger] name[i] <= '9' by {
            assert(crate::text::is_digit(name[i]));
        }
    } else {
        let i = choose|i: int| 0 <= i < name.len() && !crate::text::is_digit(#[trigger] name[i]);
        assert(!('0' <= name[i] <= '9'));
    }
}

/// A colon and the unquoted word right behind it become one placeholder with the
/// colon and the word as its text; every other token stays, in its place. So the
/// written text stays the same where a colon is written as one and such a word
/// as its value.
pub proof fn law_folding_keeps_the_text(tokens: Seq<TokenView>)
    requires
        forall|i: int|
            0 <= i < tokens.len() ==> ((#[trigger] tokens[i]).kind is Colon ==> tokens[i].text
                == ":"@) && (tokens[i].kind is Word && !tokens[i].kind->quoted ==> tokens[i].text
                == tokens[i].kind->value),
    ensures
        written(folded(tokens)) == written(tokens),
        forall|i: int|
            0 <= i < folded(tokens).len() ==> tokens.contains(#[trigger] folded(tokens)[i])
                || folded(tokens)[i].kind == KindView::Placeholder(folded(tokens)[i].text),
    decreases tokens.len(),
{
    let now = folded(tokens);
    if tokens.len() > 0 {
        let n = if starts_with_name(tokens) {
            2int
        } else {
            1int
        };
        let rest = tokens.skip(n);
        assert forall|i: int| 0 <= i < rest.len() implies ((#[trigger] rest[i]).kind is Colon
            ==> rest[i].text == ":"@) && (rest[i].kind is Word && !rest[i].kind->quoted
            ==> rest[i].text == rest[i].kind->value) by {
            assert(rest[i] == tokens[i + n]);
        }
        law_folding_keeps_the_text(rest);
        assert(tokens =~= tokens.take(n) + rest);
        lemma_written_parts(tokens.take(n), rest);
        reveal_with_fuel(written, 3);
        let first = now[0];
        let head = seq![first];
        assert(now =~= head + folded(rest));
        lemma_written_parts(head, folded(rest));
        assert(head.drop_last() =~= Seq::<TokenView>::empty());
        assert(written(head) =~= first.text);
        if n == 2 {
            let two = tokens.take(2);
            assert(two.drop_last() =~= seq![tokens[0]]);
            assert(seq![tokens[0]].drop_last() =~= Seq::<TokenView>::empty());
            assert(tokens[0].kind is Colon && tokens[1].kind is Word);
            assert(written(two) =~= tokens[0].text + tokens[1].text);
        } else {
            assert(tokens.take(1).drop_last() =~= Seq::<TokenView>::empty());
            assert(written(tokens.take(1)) =~= tokens[0].text);
            assert(tokens.contains(tokens[0]));
        }
        assert forall|i: int| 0 <= i < now.len() implies tokens.contains(#[trigger] now[i])
            || now[i].kind == KindView::Placeholder(now[i].text) by {
            if i > 0 {
                let t = folded(rest)[i - 1];
                if rest.contains(t) {
                    let k = choose|k: int| 0 <= k < rest.len() && rest[k] == t;
                    assert(tokens[k + n] == t);
                }
            }
        }
    }
}

proof fn lemma_written_parts(a: Seq<TokenView>, b: Seq<TokenView>)
    ensures
        written(a + b) == written(a) + written(b),
    decreases b.len(),
{
    if b.len() == 0 {
        assert(a + b =~= a);
        assert(written(a) + written(b) =~= written(a));
    } else {
        assert((a + b).drop_last() =~= a + b.drop_last());
        lemma_written_parts(a, b.drop_last());
        assert(written(a + b) =~= written(a) + written(b));
    }
}

/// Every colon with an unquoted word right behind it is made a placeholder, and
/// nothing else is: what was a placeholder before or is none stays what it was.
pub proof fn law_names_are_folded(before: Seq<TokenView>, after: Seq<TokenView>, i: int)
    requires
        0 <= i && i + 1 < before.len(),
        before[i].kind is Colon,
        before[i + 1].kind is Word,
        !before[i + 1].kind->quoted,
        after == folded(before),
    ensures
        exists|k: int|
            0 <= k < after.len() && (#[trigger] after[k]).text == ":"@ + before[i + 1].kind->value
                && after[k].kind == KindView::Placeholder(":"@ + before[i + 1].kind->value),
    decreases before.len(),
{
    if starts_with_name(before) {
        if i == 0 {
            assert(after[0] == named_placeholder(before[1].kind->value));
        } else {
            assert(i >= 2);
            let rest = before.skip(2);
            assert(rest[i - 2] == before[i] && rest[i - 1] == before[i + 1]);
            law_names_are_folded(rest, folded(rest), i - 2);
            let k = choose|k: int|
                0 <= k < folded(rest).len() && (#[trigger] folded(rest)[k]).text == ":"@ + before[i
                    + 1].kind->value && folded(rest)[k].kind == KindView::Placeholder(
                    ":"@ + before[i + 1].kind->value,
                );
            assert(after[k + 1] == folded(rest)[k]);
        }
    } else {
        assert(i >= 1);
        let rest = before.skip(1);
        assert(rest[i - 1] == before[i] && rest[i] == before[i + 1]);
        law_names_are_folded(rest, folded(rest), i - 1);
        let k = choose|k: int|
            0 <= k < folded(rest).len() && (#[trigger] folded(rest)[k]).text == ":"@ + before[i
                + 1].kind->value && folded(rest)[k].kind == KindView::Placeholder(
                ":"@ + before[i + 1].kind->value,
            );
        assert(after[k + 1] == folded(rest)[k]);
    }
}

/// The names of the placeholders among the tokens, in their order.
pub open spec fn bound_names(tokens: Seq<TokenView>) -> Seq<Seq<char>>
    decreases tokens.len(),
{
    if tokens.len() == 0 {
        Seq::empty()
    } else {
        match tokens.last().kind {
            KindView::Placeholder(raw) => match classified(raw) {
                Some((name, _)) => bound_names(tokens.drop_last()).push(name),
                None => bound_names(tokens.drop_last()),
            },
            _ => bound_names(tokens.drop_last()),
        }
    }
}

proof fn lemma_bound_names(tokens: Seq<TokenView>, style: PlaceholderStyle, n: nat)
    requires
        n <= tokens.len(),
    ensures
        prepared_to(tokens, style, n).bind_parameters.len() == bound_names(
            tokens.take(n as int),
        ).len(),
        forall|j: int|
            0 <= j < prepared_to(tokens, style, n).bind_parameters.len() ==> (
            #[trigger] prepared_to(tokens, style, n).bind_parameters[j]).name == bound_names(
                tokens.take(n as int),
            )[j],
        forall|j: int, o: int|
            #![trigger prepared_to(tokens, style, n).bind_parameters[j], prepared_to(tokens, style, n).parameters[o]]
            0 <= j < prepared_to(tokens, style, n).bind_parameters.len() && 0 <= o < prepared_to(
                tokens,
                style,
                n,
            ).bind_parameters[j].ordinal - 1 ==> prepared_to(tokens, style, n).bind_parameters.take(
                j,
            ).contains(prepared_to(tokens, style, n).parameters[o]),
    decreases n,
{
    if n > 0 {
        let m = (n - 1) as nat;
        let p = prepared_to(tokens, style, m);
        let q = prepared_to(tokens, style, n);
        lemma_bound_names(tokens, style, m);
        lemma_coherent(tokens, style, m);
        lemma_coherent(tokens, style, n);
        assert(tokens.take(n as int).drop_last() =~= tokens.take(m as int));
        assert(tokens.take(n as int).last() == tokens[m as int]);
        if let Some((name, written)) = bound(tokens[m as int]) {
            lemma_position_of(p.parameters, name);
            let k = position_of(p.parameters, name) as int;
            let last = q.bind_parameters.len() - 1;
            assert(q.bind_parameters[last] == q.parameters[k]);
            assert(q.parameters[k].name == name);
            assert forall|j: int, o: int|
                #![trigger q.bind_parameters[j], q.parameters[o]]
                0 <= j < q.bind_parameters.len() && 0 <= o < q.bind_parameters[j].ordinal
                    - 1 implies q.bind_parameters.take(j).contains(q.parameters[o]) by {
                if j < last {
                    assert(q.bind_parameters[j] == p.bind_parameters[j]);
                    assert(p.bind_parameters[j].ordinal <= p.parameters.len());
                    assert(q.parameters[o] == p.parameters[o]);
                    assert(p.bind_parameters.take(j).contains(p.parameters[o]));
                    assert(q.bind_parameters.take(j) =~= p.bind_parameters.take(j));
                } else {
                    assert(o < k);
                    assert(q.parameters[o] == p.parameters[o]);
                    assert(p.bind_parameters.contains(p.parameters[o]));
                    assert(q.bind_parameters.take(j) =~= p.bind_parameters);
                }
            }
        } else {
            assert(q.bind_parameters =~= p.bind_parameters);
            assert(q.parameters =~= p.parameters);
        }
    } else {
        assert(tokens.take(0) =~= Seq::<TokenView>::empty());
    }
}

/// The placeholders of a statement bind the parameters that they name, one after
/// the other, and the parameters are numbered in the order in which their names
/// first appear.
pub proof fn law_placeholders_bind_the_parameters_they_name(
    tokens: Seq<TokenView>,
    style: PlaceholderStyle,
)
    ensures
        prepared(tokens, style).bind_parameters.len() == bound_names(folded(tokens)).len(),
        forall|j: int|
            0 <= j < bound_names(folded(tokens)).len() ==> (#[trigger] prepared(
                tokens,
                style,
            ).bind_parameters[j]).name == bound_names(folded(tokens))[j],
        forall|j: int, o: int|
            #![trigger prepared(tokens, style).bind_parameters[j], prepared(tokens, style).parameters[o]]
            0 <= j < prepared(tokens, style).bind_parameters.len() && 0 <= o < prepared(
                tokens,
                style,
            ).bind_parameters[j].ordinal - 1 ==> prepared(tokens, style).bind_parameters.take(
                j,
            ).contains(prepared(tokens, style).parameters[o]),
{
    let all = folded(tokens);
    lemma_bound_names(all, style, all.len());
    assert(all.take(all.len() as int) =~= all);
    assert(prepared(tokens, style) == prepared_to(all, style, all.len()));
}

/// Two placeholders of a statement are written alike exactly where they have one
/// name, wherever placeholders are numbered.
pub proof fn law_one_name_one_number(
    tokens: Seq<TokenView>,
    style: PlaceholderStyle,
    i: int,
    j: int,
)
    requires
        style != PlaceholderStyle::Question,
        0 <= i < folded(tokens).len(),
        0 <= j < folded(tokens).len(),
        bound(folded(tokens)[i]) is Some,
        bound(folded(tokens)[j]) is Some,
    ensures
        ({
            let parameters = prepared(tokens, style).parameters;
            let all = folded(tokens);
            token_sql(all[i], parameters, style) == token_sql(all[j], parameters, style) <==> (
            bound(all[i])->0).0 == (bound(all[j])->0).0
        }),
{
    let all = folded(tokens);
    let parameters = prepared(tokens, style).parameters;
    let a = (bound(all[i])->0).0;
    let b = (bound(all[j])->0).0;
    lemma_names_found(all, style, all.len(), i);
    lemma_names_found(all, style, all.len(), j);
    lemma_position_of(parameters, a);
    lemma_position_of(parameters, b);
    law_placeholders_carry_their_number(
        style,
        position_of(parameters, a) + 1,
        position_of(parameters, b) + 1,
    );
}

/// A placeholder that is compared with a column has that column as its hint:
/// `column = :name`, and `:name = column` too, with any comparison in between. A
/// placeholder without a comparison beside it has none.
pub proof fn law_hints_are_the_compared_column(
    before: Seq<TokenView>,
    column: TokenView,
    comparison: TokenView,
    placeholder: TokenView,
    after: Seq<TokenView>,
)
    requires
        column.kind is Word,
        column.kind->keyword == "NoKeyword"@,
        comparison.kind is Eq || comparison.kind is Neq || comparison.kind is Lt
            || comparison.kind is Gt || comparison.kind is LtEq || comparison.kind is GtEq,
        placeholder.kind is Placeholder,
        after.len() == 0 || !(after[0].kind is Period),
    ensures
        hint(before + seq![column, comparison, placeholder] + after, (before.len() + 2) as int)
            == Some(column.kind->value),
        before.len() == 0 || !(before.last().kind is Eq || before.last().kind is Neq
            || before.last().kind is Lt || before.last().kind is Gt || before.last().kind is LtEq
            || before.last().kind is GtEq || before.last().kind is Word) ==> hint(
            before + seq![placeholder, comparison, column] + after,
            before.len() as int,
        ) == Some(column.kind->value),
        before.len() == 0 ==> hint(seq![placeholder], 0) is None,
{
    reveal_strlit("NoKeyword");
    reveal_strlit("AND");
    reveal_strlit("OR");
    reveal_strlit("NOT");
    reveal_strlit("NULL");
    reveal_strlit("TRUE");
    reveal_strlit("FALSE");
    reveal_strlit("IS");
    reveal_strlit("IN");
    reveal_strlit("LIKE");
    reveal_strlit("ILIKE");
    reveal_strlit("BETWEEN");
    reveal_strlit("EXISTS");
    reveal_strlit("ANY");
    reveal_strlit("ALL");
    let n = before.len() as int;
    assert("NoKeyword"@.len() == 9);
    assert(!never_a_column("NoKeyword"@));
    let first = before + seq![column, comparison, placeholder] + after;
    assert(first[n] == column && first[n + 1] == comparison && first[n + 2] == placeholder);
    let second = before + seq![placeholder, comparison, column] + after;
    assert(second[n] == placeholder && second[n + 1] == comparison && second[n + 2] == column);
    if n > 0 {
        assert(second[n - 1] == before.last());
    }
    if after.len() > 0 {
        assert(second[n + 3] == after[0]);
    }
}

/// Keywords that join or test conditions are never taken for columns, and a word
/// that is no keyword always is one.
pub proof fn law_conditions_are_no_columns(token: TokenView)
    requires
        token.kind is Word,
    ensures
        ({
            let k = token.kind->keyword;
            &&& (k == "AND"@ || k == "OR"@ || k == "NOT"@ || k == "NULL"@ || k == "TRUE"@ || k
                == "FALSE"@ || k == "IS"@ || k == "IN"@ || k == "LIKE"@ || k == "ILIKE"@ || k
                == "BETWEEN"@ || k == "EXISTS"@ || k == "ANY"@ || k == "ALL"@) <==> column_name(
                token,
            ) is None
            &&& column_name(token) matches Some(name) ==> name == token.kind->value
        }),
{
}

/// Whitespace between tokens does not change a hint, and nothing but whitespace
/// is left out.
pub proof fn law_only_whitespace_is_left_out(a: Seq<TokenView>, t: TokenView, b: Seq<TokenView>)
    ensures
        significant(a + b) == significant(a) + significant(b),
        significant(seq![t]) == (if t.kind is Whitespace {
            Seq::empty()
        } else {
            seq![t]
        }),
    decreases b.len(),
{
    reveal_with_fuel(significant, 2);
    assert(seq![t].drop_last() =~= Seq::<TokenView>::empty());
    assert(significant(seq![t]) =~= (if t.kind is Whitespace {
        Seq::empty()
    } else {
        seq![t]
    }));
    if b.len() == 0 {
        assert(a + b =~= a);
        assert(significant(a) + significant(b) =~= significant(a));
    } else {
        assert((a + b).drop_last() =~= a + b.drop_last());
        law_only_whitespace_is_left_out(a, t, b.drop_last());
        assert(significant(a + b) =~= significant(a) + significant(b));
    }
}

proof fn lemma_first_placeholder(tokens: Seq<TokenView>, style: PlaceholderStyle, n: nat, k: int) -> (
    i: int)
    requires
        n <= tokens.len(),
        0 <= k < prepared_to(tokens, style, n).parameters.len(),
    ensures
        0 <= i < n,
        ({
            let parameter = prepared_to(tokens, style, n).parameters[k];
            &&& tokens[i].kind == KindView::Placeholder(parameter.placeholder)
            &&& classified(parameter.placeholder) == Some((parameter.name, parameter.style))
            &&& parameter.column_hint == hint_at(tokens, i)
            &&& forall|j: int|
                0 <= j < i ==> ((#[trigger] tokens[j]).kind matches KindView::Placeholder(raw)
                    ==> (classified(raw) matches Some((name, _)) ==> name != parameter.name))
        }),
    decreases n,
{
    let m = (n - 1) as nat;
    let p = prepared_to(tokens, style, m);
    let q = prepared_to(tokens, style, n);
    if k < p.parameters.len() {
        lemma_first_placeholder(tokens, style, m, k)
    } else {
        let parameter = q.parameters[k];
        lemma_position_of(p.parameters, parameter.name);
        assert forall|j: int| 0 <= j < m implies ((#[trigger] tokens[j]).kind matches KindView::Placeholder(
            raw,
        ) ==> (classified(raw) matches Some((name, _)) ==> name != parameter.name)) by {
            if bound(tokens[j]) is Some {
                lemma_names_found(tokens, style, m, j);
                lemma_position_of(p.parameters, (bound(tokens[j])->0).0);
            }
        }
        m as int
    }
}

/// A parameter is told by its first placeholder: what that is written as, whether
/// it is named or positional, and the column that it is compared with.
pub proof fn law_parameters_are_told_by_their_first_placeholder(
    tokens: Seq<TokenView>,
    style: PlaceholderStyle,
    k: int,
)
    requires
        0 <= k < prepared(tokens, style).parameters.len(),
    ensures
        ({
            let parameter = prepared(tokens, style).parameters[k];
            let all = folded(tokens);
            exists|i: int|
                {
                    &&& 0 <= i < all.len()
                    &&& (#[trigger] all[i]).kind == KindView::Placeholder(parameter.placeholder)
                    &&& classified(parameter.placeholder) == Some(
                        (parameter.name, parameter.style),
                    )
                    &&& parameter.column_hint == hint(
                        significant(all),
                        significant(all.take(i)).len() as int,
                    )
                    &&& forall|j: int|
                        0 <= j < i ==> ((#[trigger] all[j]).kind matches KindView::Placeholder(raw)
                            ==> (classified(raw) matches Some((name, _)) ==> name
                            != parameter.name))
                }
        }),
{
    let all = folded(tokens);
    let i = lemma_first_placeholder(all, style, all.len(), k);
    assert(all[i].kind == KindView::Placeholder(prepared(tokens, style).parameters[k].placeholder));
}

/// A statement is read in the dialect of the engine and gets the placeholders
/// that the engine's protocol takes: numbered ones for Postgres and SQL Server,
/// bare ones for MySQL and SQLite.
pub proof fn law_engines_get_their_own_placeholders(
    sql: &str,
    engine: Engine,
    r: Result<PreparedStatement, ParamError>,
)
    requires
        call_ensures(prepare_native, (sql, engine), r),
        r is Ok,
    ensures
        engine == Engine::Postgres || engine == Engine::Supabase || engine == Engine::Neon ==> (
        tokenized(sql@, "postgresql"@) matches Ok(tokens) && r->Ok_0@ == prepared(
            tokens,
            PlaceholderStyle::Postgres,
        )),
        engine == Engine::MySql || engine == Engine::PlanetScale ==> (tokenized(sql@, "mysql"@)
            matches Ok(tokens) && r->Ok_0@ == prepared(tokens, PlaceholderStyle::Question)),
        engine == Engine::Sqlite ==> (tokenized(sql@, "sqlite"@) matches Ok(tokens) && r->Ok_0@
            == prepared(tokens, PlaceholderStyle::Question)),
        engine == Engine::Mssql || engine == Engine::Azure ==> (tokenized(sql@, "mssql"@)
            matches Ok(tokens) && r->Ok_0@ == prepared(tokens, PlaceholderStyle::SqlServer)),
{
}

/// Preparing for the user always numbers with `$`, in the dialect of the engine.
pub proof fn law_prepared_statements_are_numbered(
    sql: &str,
    engine: Engine,
    r: Result<PreparedStatement, ParamError>,
)
    requires
        call_ensures(prepare, (sql, engine), r),
        r is Ok,
    ensures
        engine == Engine::Postgres || engine == Engine::Supabase || engine == Engine::Neon ==> (
        tokenized(sql@, "postgresql"@) matches Ok(tokens) && r->Ok_0@ == prepared(
            tokens,
            PlaceholderStyle::Postgres,
        )),
        engine == Engine::MySql || engine == Engine::PlanetScale ==> (tokenized(sql@, "mysql"@)
            matches Ok(tokens) && r->Ok_0@ == prepared(tokens, PlaceholderStyle::Postgres)),
        engine == Engine::Sqlite ==> (tokenized(sql@, "sqlite"@) matches Ok(tokens) && r->Ok_0@
            == prepared(tokens, PlaceholderStyle::Postgres)),
        engine == Engine::Mssql || engine == Engine::Azure ==> (tokenized(sql@, "mssql"@)
            matches Ok(tokens) && r->Ok_0@ == prepared(tokens, PlaceholderStyle::Postgres)),
{
}

/// An error tells that the text is no SQL, or the name that has no value.
pub proof fn law_errors_tell_the_name(error: &ParamError, r: String)
    requires
        call_ensures(ParamError::message, (error,), r),
    ensures
        *error matches ParamError::Tokenize(text) ==> r@ == "could not tokenize SQL: "@ + text@,
        *error matches ParamError::MissingValue(name) ==> r@ == "no value supplied for parameter `"@
            + name@ + "`"@,
{
}

/// Values come in the order of the parameters, each under the name of its own; the
/// first name without one is told.
pub proof fn law_values_come_in_the_order_of_the_parameters<T>(
    parameters: &[DetectedParameter],
    by_name: &OrderedMap<String, T>,
    r: Result<Vec<&T>, ParamError>,
    i: int,
)
    requires
        by_name.wf(),
        call_ensures(order_values::<T>, (parameters, by_name), r),
        0 <= i < parameters@.len(),
        forall|j: int| 0 <= j < i ==> by_name.map().contains_key((#[trigger] parameters@[j]).name@),
    ensures
        r matches Ok(list) ==> list@.len() == parameters@.len() && by_name.map().contains_key(
            parameters@[i].name@,
        ) && *list@[i] == by_name.map()[parameters@[i].name@],
        !by_name.map().contains_key(parameters@[i].name@) ==> (
        r matches Err(ParamError::MissingValue(name)) && name@ == parameters@[i].name@),
{
}

/// A placeholder is compared by an operator of equality or of order, or by `LIKE`
/// in either form, and by nothing else.
pub proof fn law_comparisons(token: TokenView)
    ensures
        compares(token) <==> match token.kind {
            KindView::Eq => true,
            KindView::Neq => true,
            KindView::Lt => true,
            KindView::Gt => true,
            KindView::LtEq => true,
            KindView::GtEq => true,
            KindView::Word { keyword, .. } => keyword == "LIKE"@ || keyword == "ILIKE"@,
            _ => false,
        },
{
}

proof fn lemma_last_component(tokens: Seq<TokenView>, at: int, k: nat)
    requires
        0 <= at,
        at + 2 * k < tokens.len(),
        column_name(tokens[at]) is Some,
        forall|i: int|
            0 <= i < k ==> (#[trigger] tokens[at + 2 * i + 1]).kind is Period && column_name(
                tokens[at + 2 * i + 2],
            ) is Some,
        !(at + 2 * k + 2 < tokens.len() && tokens[at + 2 * k + 1].kind is Period && column_name(
            tokens[at + 2 * k + 2],
        ) is Some),
    ensures
        last_component(tokens, at, column_name(tokens[at])->0) == column_name(
            tokens[at + 2 * k],
        )->0,
    decreases k,
{
    if k > 0 {
        assert(tokens[at + 2 * 0 + 1].kind is Period);
        assert forall|i: int| 0 <= i < k - 1 implies (#[trigger] tokens[at + 2 + 2 * i + 1]).kind is Period
            && column_name(tokens[at + 2 + 2 * i + 2]) is Some by {
            assert(tokens[at + 2 * (i + 1) + 1].kind is Period);
            assert(at + 2 * (i + 1) + 1 == at + 2 + 2 * i + 1);
        }
        assert(at + 2 + 2 * (k - 1) == at + 2 * k);
        lemma_last_component(tokens, at + 2, (k - 1) as nat);
    }
}

/// A placeholder that stands before a dotted name is for the last part of the name,
/// however many there are, where nothing before it says otherwise.
pub proof fn law_dotted_names_give_their_last_part(tokens: Seq<TokenView>, at: int, k: nat)
    requires
        0 <= at,
        at + 2 + 2 * k < tokens.len(),
        at < 2 || !compares(tokens[at - 1]),
        compares(tokens[at + 1]),
        column_name(tokens[at + 2]) is Some,
        forall|i: int|
            0 <= i < k ==> (#[trigger] tokens[at + 2 + 2 * i + 1]).kind is Period && column_name(
                tokens[at + 2 + 2 * i + 2],
            ) is Some,
        !(at + 2 + 2 * k + 2 < tokens.len() && tokens[at + 2 + 2 * k + 1].kind is Period
            && column_name(tokens[at + 2 + 2 * k + 2]) is Some),
    ensures
        hint(tokens, at) == column_name(tokens[at + 2 + 2 * k]),
{
    lemma_last_component(tokens, at + 2, k);
    if k > 0 {
        assert(tokens[at + 2 + 2 * (k - 1) + 1].kind is Period);
        assert(at + 2 + 2 * (k - 1) + 2 == at + 2 + 2 * k);
    }
}

} // verus!
