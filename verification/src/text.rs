//! Verified operations on text.
//!
//! A text is modelled as the sequence of its characters. Every function here
//! states its result over those sequences.
use vstd::prelude::*;

verus! {

/// `String::push` appends one character to the end of the string.
pub assume_specification[ String::push ](text: &mut String, c: char)
    ensures
        final(text)@ == old(text)@.push(c),
;

/// The character sequences of a sequence of strings.
pub open spec fn texts(list: Seq<String>) -> Seq<Seq<char>> {
    list.map_values(|s: String| s@)
}

/// The characters of `text`, in order.
pub fn chars_of(text: &str) -> (r: Vec<char>)
    ensures
        r@ == text@,
{
    let mut out: Vec<char> = Vec::new();
    for c in it: text.chars()
        invariant
            out@ == it.seq().take(it.index() as int),
            it.seq() == text@,
    {
        proof {
            assert(it.seq().take(it.index() as int + 1) =~= it.seq().take(it.index() as int).push(
                c,
            ));
        }
        out.push(c);
    }
    assert(text@.take(text@.len() as int) =~= text@);
    out
}

/// The string made of the given characters.
pub fn text_of(chars: &[char]) -> (r: String)
    ensures
        r@ == chars@,
{
    let mut out = String::new();
    let mut i: usize = 0;
    while i < chars.len()
        invariant
            i <= chars@.len(),
            out@ == chars@.take(i as int),
        decreases chars@.len() - i,
    {
        proof {
            assert(chars@.take(i as int + 1) =~= chars@.take(i as int).push(chars@[i as int]));
        }
        out.push(chars[i]);
        i += 1;
    }
    assert(chars@.take(chars@.len() as int) =~= chars@);
    out
}

/// Whether two texts have the same characters.
pub fn same_text(a: &str, b: &str) -> (r: bool)
    ensures
        r == (a@ == b@),
{
    let x = chars_of(a);
    let y = chars_of(b);
    if x.len() != y.len() {
        return false;
    }
    let mut i: usize = 0;
    while i < x.len()
        invariant
            i <= x@.len(),
            x@.len() == y@.len(),
            x@ == a@,
            y@ == b@,
            forall|j: int| 0 <= j < i ==> x@[j] == y@[j],
        decreases x@.len() - i,
    {
        if x[i] != y[i] {
            return false;
        }
        i += 1;
    }
    assert(a@ =~= b@);
    true
}

// ---------------------------------------------------------------------
// Whitespace and letter case
// ---------------------------------------------------------------------
/// The characters with Unicode's `White_Space` property.
pub open spec fn is_space(c: char) -> bool {
    ||| '\u{9}' <= c <= '\u{d}'
    ||| c == ' '
    ||| c == '\u{85}'
    ||| c == '\u{a0}'
    ||| c == '\u{1680}'
    ||| '\u{2000}' <= c <= '\u{200a}'
    ||| c == '\u{2028}'
    ||| c == '\u{2029}'
    ||| c == '\u{202f}'
    ||| c == '\u{205f}'
    ||| c == '\u{3000}'
}

pub fn space(c: char) -> (r: bool)
    ensures
        r == is_space(c),
{
    ('\u{9}' <= c && c <= '\u{d}') || c == ' ' || c == '\u{85}' || c == '\u{a0}' || c == '\u{1680}'
        || ('\u{2000}' <= c && c <= '\u{200a}') || c == '\u{2028}' || c == '\u{2029}' || c
        == '\u{202f}' || c == '\u{205f}' || c == '\u{3000}'
}

/// `s` without its leading whitespace.
pub open spec fn trim_start(s: Seq<char>) -> Seq<char>
    decreases s.len(),
{
    if s.len() > 0 && is_space(s[0]) {
        trim_start(s.skip(1))
    } else {
        s
    }
}

/// `s` without its trailing whitespace.
pub open spec fn trim_end(s: Seq<char>) -> Seq<char>
    decreases s.len(),
{
    if s.len() > 0 && is_space(s.last()) {
        trim_end(s.drop_last())
    } else {
        s
    }
}

/// `s` without its leading and trailing whitespace.
pub open spec fn trim_of(s: Seq<char>) -> Seq<char> {
    trim_end(trim_start(s))
}

/// Removes leading and trailing whitespace.
pub fn trim(text: &str) -> (r: Vec<char>)
    ensures
        r@ == trim_of(text@),
{
    let chars = chars_of(text);
    let mut start: usize = 0;
    assert(chars@.skip(0) =~= chars@);
    while start < chars.len() && space(chars[start])
        invariant
            start <= chars@.len(),
            trim_start(chars@) == trim_start(chars@.skip(start as int)),
        decreases chars@.len() - start,
    {
        assert(chars@.skip(start as int).skip(1) =~= chars@.skip(start as int + 1));
        start += 1;
    }
    let ghost body = chars@.skip(start as int);
    assert(trim_start(chars@) == body);
    let mut end: usize = chars.len();
    assert(chars@.subrange(start as int, end as int) =~= body);
    while start < end && space(chars[end - 1])
        invariant
            start <= end <= chars@.len(),
            trim_end(body) == trim_end(chars@.subrange(start as int, end as int)),
        decreases end,
    {
        assert(chars@.subrange(start as int, end as int).drop_last() =~= chars@.subrange(
            start as int,
            end as int - 1,
        ));
        end -= 1;
    }
    let mut out: Vec<char> = Vec::new();
    let mut i: usize = start;
    while i < end
        invariant
            start <= i <= end <= chars@.len(),
            out@ == chars@.subrange(start as int, i as int),
        decreases end - i,
    {
        out.push(chars[i]);
        i += 1;
    }
    out
}

/// Whether `text` is empty or whitespace only.
pub fn is_blank(text: &str) -> (r: bool)
    ensures
        r == (trim_of(text@).len() == 0),
{
    trim(text).len() == 0
}

/// `c` with the letters `A` to `Z` in lower case.
pub open spec fn lower_char(c: char) -> char {
    if 'A' <= c <= 'Z' {
        (c as u32 + 32) as char
    } else {
        c
    }
}

/// `s` with the letters `A` to `Z` in lower case.
pub open spec fn lower(s: Seq<char>) -> Seq<char> {
    s.map_values(|c: char| lower_char(c))
}

pub fn ascii_lower(c: char) -> (r: char)
    ensures
        r == lower_char(c),
{
    if 'A' <= c && c <= 'Z' {
        ((c as u8) + 32) as char
    } else {
        c
    }
}

/// Turns the letters `A` to `Z` into lower case.
pub fn to_lower(text: &str) -> (r: Vec<char>)
    ensures
        r@ == lower(text@),
{
    let chars = chars_of(text);
    let mut out: Vec<char> = Vec::new();
    let mut i: usize = 0;
    while i < chars.len()
        invariant
            i <= chars@.len(),
            out@ == lower(chars@.take(i as int)),
        decreases chars@.len() - i,
    {
        out.push(ascii_lower(chars[i]));
        assert(out@ =~= lower(chars@.take(i as int + 1)));
        i += 1;
    }
    assert(chars@.take(chars@.len() as int) =~= chars@);
    out
}

/// What `str::to_lowercase` makes of a text: its lower case by the Unicode rules.
pub uninterp spec fn lowercased(text: Seq<char>) -> Seq<char>;

/// Whether every character is an ASCII character.
pub open spec fn ascii_only(s: Seq<char>) -> bool {
    forall|i: int| 0 <= i < s.len() ==> (#[trigger] s[i] as u32) < 128
}

/// `str::to_lowercase`. Of an ASCII text it is the text with the letters `A` to
/// `Z` in lower case.
#[verifier::external_body]
pub(crate) fn to_lowercase(text: &str) -> (r: String)
    ensures
        r@ == lowercased(text@),
        ascii_only(text@) ==> r@ == lower(text@),
{
    text.to_lowercase()
}

// ---------------------------------------------------------------------
// Searching
// ---------------------------------------------------------------------
/// Whether `part` stands in `s` at position `at`.
pub open spec fn occurs_at(s: Seq<char>, part: Seq<char>, at: int) -> bool {
    0 <= at && at + part.len() <= s.len() && s.subrange(at, at + part.len()) == part
}

/// Whether `part` stands in `s` at some position.
pub open spec fn has(s: Seq<char>, part: Seq<char>) -> bool {
    exists|at: int| #[trigger] occurs_at(s, part, at)
}

fn stands_at(chars: &[char], part: &[char], at: usize) -> (r: bool)
    requires
        at + part@.len() <= chars@.len(),
    ensures
        r == occurs_at(chars@, part@, at as int),
{
    let total: usize = chars.len();
    let mut i: usize = 0;
    while i < part.len()
        invariant
            i <= part@.len(),
            total == chars@.len(),
            at + part@.len() <= chars@.len(),
            forall|j: int| 0 <= j < i ==> chars@[at + j] == part@[j],
        decreases part@.len() - i,
    {
        if chars[at + i] != part[i] {
            proof {
                let sub = chars@.subrange(at as int, at + part@.len());
                assert(sub[i as int] == chars@[at + i]);
            }
            return false;
        }
        i += 1;
    }
    assert(chars@.subrange(at as int, at + part@.len()) =~= part@);
    true
}

/// Whether the characters contain `part`.
pub fn contains(chars: &[char], part: &str) -> (r: bool)
    ensures
        r == has(chars@, part@),
{
    let needle = chars_of(part);
    if needle.len() > chars.len() {
        return false;
    }
    let last: usize = chars.len() - needle.len();
    let mut at: usize = 0;
    while at <= last
        invariant
            needle@ == part@,
            last == chars@.len() - needle@.len(),
            at <= last + 1,
            forall|k: int| 0 <= k < at ==> !#[trigger] occurs_at(chars@, part@, k),
        decreases last + 1 - at,
    {
        if stands_at(chars, needle.as_slice(), at) {
            return true;
        }
        if at == last {
            return false;
        }
        at += 1;
    }
    false
}

/// Whether the characters are those of `text`.
pub fn chars_are(chars: &[char], text: &str) -> (r: bool)
    ensures
        r == (chars@ == text@),
{
    let other = chars_of(text);
    if chars.len() != other.len() {
        return false;
    }
    let r = stands_at(chars, other.as_slice(), 0);
    assert(chars@.subrange(0, chars@.len() as int) =~= chars@);
    r
}

// ---------------------------------------------------------------------
// Decimal numbers
// ---------------------------------------------------------------------
pub open spec fn is_digit(c: char) -> bool {
    '0' <= c <= '9'
}

pub open spec fn all_digits(s: Seq<char>) -> bool {
    forall|i: int| 0 <= i < s.len() ==> is_digit(#[trigger] s[i])
}

pub open spec fn digit_value(c: char) -> nat {
    (c as u32 - '0' as u32) as nat
}

pub open spec fn digit_char(d: nat) -> char {
    (d + '0' as u32) as char
}

/// The decimal text of a natural number.
pub open spec fn nat_text(n: nat) -> Seq<char>
    decreases n,
{
    if n < 10 {
        seq![digit_char(n)]
    } else {
        nat_text(n / 10).push(digit_char(n % 10))
    }
}

/// The decimal text of an integer, with a sign when it is negative.
pub open spec fn int_text(n: int) -> Seq<char> {
    if n < 0 {
        seq!['-'] + nat_text((-n) as nat)
    } else {
        nat_text(n as nat)
    }
}

/// The number that a sequence of decimal digits writes.
pub open spec fn digits_value(s: Seq<char>) -> nat
    decreases s.len(),
{
    if s.len() == 0 {
        0
    } else {
        digits_value(s.drop_last()) * 10 + digit_value(s.last())
    }
}

pub open spec fn is_sign(c: char) -> bool {
    c == '+' || c == '-'
}

/// `s` without one leading sign.
pub open spec fn unsigned_part(s: Seq<char>) -> Seq<char> {
    if s.len() > 0 && is_sign(s[0]) {
        s.skip(1)
    } else {
        s
    }
}

/// The integer that `s` writes: an optional sign, then at least one digit.
pub open spec fn int_of(s: Seq<char>) -> Option<int> {
    let body = unsigned_part(s);
    if body.len() == 0 || !all_digits(body) {
        None
    } else if s[0] == '-' {
        Some(-(digits_value(body) as int))
    } else {
        Some(digits_value(body) as int)
    }
}

pub fn digit(c: char) -> (r: bool)
    ensures
        r == is_digit(c),
{
    '0' <= c && c <= '9'
}

pub fn digits_only(chars: &[char]) -> (r: bool)
    ensures
        r == all_digits(chars@),
{
    let mut i: usize = 0;
    while i < chars.len()
        invariant
            i <= chars@.len(),
            all_digits(chars@.take(i as int)),
        decreases chars@.len() - i,
    {
        if !digit(chars[i]) {
            return false;
        }
        assert forall|j: int| 0 <= j < i + 1 implies is_digit(
            #[trigger] chars@.take(i as int + 1)[j],
        ) by {
            if j < i {
                assert(chars@.take(i as int)[j] == chars@[j]);
            }
        }
        i += 1;
    }
    assert(chars@.take(chars@.len() as int) =~= chars@);
    true
}

/// Appends the decimal text of `n`.
pub fn push_u64(out: &mut String, n: u64)
    ensures
        final(out)@ == old(out)@ + nat_text(n as nat),
    decreases n,
{
    if n >= 10 {
        push_u64(out, n / 10);
    }
    let c: char = (48 + (n % 10) as u8) as char;
    out.push(c);
    assert(c == digit_char((n % 10) as nat));
    assert(out@ =~= old(out)@ + nat_text(n as nat));
}

/// The decimal text of `n`.
pub fn u64_text(n: u64) -> (r: String)
    ensures
        r@ == nat_text(n as nat),
{
    let mut out = String::new();
    push_u64(&mut out, n);
    assert(out@ =~= nat_text(n as nat));
    out
}

/// The decimal text of `n`, with a sign when it is negative.
pub fn i64_text(n: i64) -> (r: String)
    ensures
        r@ == int_text(n as int),
{
    let mut out = String::new();
    if n < 0 {
        out.push('-');
        let magnitude: u64 = (-(n as i128)) as u64;
        push_u64(&mut out, magnitude);
    } else {
        push_u64(&mut out, n as u64);
    }
    assert(out@ =~= int_text(n as int));
    out
}

proof fn lemma_digits_value_take(s: Seq<char>, i: int)
    requires
        0 <= i < s.len(),
    ensures
        digits_value(s.take(i + 1)) == digits_value(s.take(i)) * 10 + digit_value(s[i]),
{
    assert(s.take(i + 1).drop_last() =~= s.take(i));
}

proof fn lemma_digits_value_grows(s: Seq<char>, i: int)
    requires
        0 <= i <= s.len(),
    ensures
        digits_value(s.take(i)) <= digits_value(s),
    decreases s.len() - i,
{
    if i < s.len() {
        lemma_digits_value_take(s, i);
        lemma_digits_value_grows(s, i + 1);
    } else {
        assert(s.take(i) =~= s);
    }
}

/// The digits of a number write that number.
pub proof fn lemma_digits_of_nat(n: nat)
    ensures
        nat_text(n).len() > 0,
        all_digits(nat_text(n)),
        digits_value(nat_text(n)) == n,
    decreases n,
{
    let last = digit_char(n % 10);
    assert(is_digit(last) && digit_value(last) == n % 10);
    if n < 10 {
        reveal_with_fuel(digits_value, 2);
        assert(nat_text(n) =~= seq![last]);
        assert(seq![last].drop_last() =~= Seq::<char>::empty());
    } else {
        lemma_digits_of_nat(n / 10);
        assert(nat_text(n).drop_last() =~= nat_text(n / 10));
    }
}

/// Different numbers are written differently.
pub proof fn lemma_nat_text_injective(a: nat, b: nat)
    requires
        nat_text(a) == nat_text(b),
    ensures
        a == b,
{
    lemma_digits_of_nat(a);
    lemma_digits_of_nat(b);
}

/// The number that the digits write, where it fits in an `i128`.
pub fn parse_digits(chars: &[char]) -> (r: Option<i128>)
    ensures
        r matches Some(v) ==> chars@.len() > 0 && all_digits(chars@) && v == digits_value(chars@),
        r is None ==> chars@.len() == 0 || !all_digits(chars@) || digits_value(chars@) > i128::MAX,
{
    if chars.len() == 0 || !digits_only(chars) {
        return None;
    }
    let mut value: i128 = 0;
    let mut i: usize = 0;
    assert(chars@.take(0) =~= Seq::<char>::empty());
    while i < chars.len()
        invariant
            i <= chars@.len(),
            all_digits(chars@),
            0 <= value,
            value == digits_value(chars@.take(i as int)),
        decreases chars@.len() - i,
    {
        let c: char = chars[i];
        assert(is_digit(chars@[i as int]));
        let d: i128 = (c as u32 - 48) as i128;
        assert(d == digit_value(c));
        proof {
            lemma_digits_value_take(chars@, i as int);
            lemma_digits_value_grows(chars@, i as int + 1);
        }
        if value > (i128::MAX - d) / 10 {
            return None;
        }
        value = value * 10 + d;
        i += 1;
    }
    assert(chars@.take(chars@.len() as int) =~= chars@);
    Some(value)
}

/// `chars` without one leading sign.
pub fn without_sign(chars: &[char]) -> (r: Vec<char>)
    ensures
        r@ == unsigned_part(chars@),
{
    let mut out: Vec<char> = Vec::new();
    let start: usize = if chars.len() > 0 && (chars[0] == '+' || chars[0] == '-') { 1 } else { 0 };
    let mut i: usize = start;
    while i < chars.len()
        invariant
            start <= i <= chars@.len(),
            out@ == chars@.subrange(start as int, i as int),
        decreases chars@.len() - i,
    {
        out.push(chars[i]);
        i += 1;
    }
    assert(out@ =~= unsigned_part(chars@));
    out
}

/// The integer that the characters write, where it lies in `min..=max`.
pub fn parse_int(chars: &[char], min: i64, max: i64) -> (r: Option<i64>)
    ensures
        r matches Some(v) ==> int_of(chars@) == Some(v as int) && min <= v <= max,
        r is None ==> match int_of(chars@) {
            Some(v) => v < min || v > max,
            None => true,
        },
{
    let body = without_sign(chars);
    match parse_digits(body.as_slice()) {
        None => None,
        Some(magnitude) => {
            let value: i128 = if chars[0] == '-' { -magnitude } else { magnitude };
            if value < min as i128 || value > max as i128 {
                None
            } else {
                Some(value as i64)
            }
        },
    }
}

/// The integer that the characters write, where it fits in an `i64`.
pub fn parse_i64(chars: &[char]) -> (r: Option<i64>)
    ensures
        r matches Some(v) ==> int_of(chars@) == Some(v as int),
        r is None ==> match int_of(chars@) {
            Some(v) => v < i64::MIN || v > i64::MAX,
            None => true,
        },
{
    parse_int(chars, i64::MIN, i64::MAX)
}

// ---------------------------------------------------------------------
// Splitting and joining
// ---------------------------------------------------------------------
/// The pieces of `s` between the characters `a` and `b`: one more piece than
/// `s` has such characters.
pub open spec fn pieces(s: Seq<char>, a: char, b: char) -> Seq<Seq<char>>
    decreases s.len(),
{
    if s.len() == 0 {
        seq![Seq::<char>::empty()]
    } else {
        let before = pieces(s.drop_last(), a, b);
        if s.last() == a || s.last() == b {
            before.push(Seq::<char>::empty())
        } else {
            before.update(before.len() - 1, before.last().push(s.last()))
        }
    }
}

/// The character sequences of a sequence of character vectors.
pub open spec fn char_seqs(list: Seq<Vec<char>>) -> Seq<Seq<char>> {
    list.map_values(|v: Vec<char>| v@)
}

/// Splits the characters at every `a` and every `b`.
pub fn split(chars: &[char], a: char, b: char) -> (r: Vec<Vec<char>>)
    ensures
        char_seqs(r@) == pieces(chars@, a, b),
        r@.len() >= 1,
{
    let mut out: Vec<Vec<char>> = Vec::new();
    let mut current: Vec<char> = Vec::new();
    let mut i: usize = 0;
    assert(chars@.take(0) =~= Seq::<char>::empty());
    assert(char_seqs(out@).push(current@) =~= pieces(chars@.take(0), a, b));
    while i < chars.len()
        invariant
            i <= chars@.len(),
            char_seqs(out@).push(current@) == pieces(chars@.take(i as int), a, b),
        decreases chars@.len() - i,
    {
        let c: char = chars[i];
        assert(chars@.take(i as int + 1).drop_last() =~= chars@.take(i as int));
        let ghost done = char_seqs(out@);
        let ghost part = current@;
        if c == a || c == b {
            out.push(current);
            current = Vec::new();
            assert(char_seqs(out@) =~= done.push(part));
        } else {
            current.push(c);
        }
        assert(char_seqs(out@).push(current@) =~= pieces(chars@.take(i as int + 1), a, b));
        i += 1;
    }
    assert(chars@.take(chars@.len() as int) =~= chars@);
    let ghost done = char_seqs(out@);
    let ghost part = current@;
    out.push(current);
    assert(char_seqs(out@) =~= done.push(part));
    out
}

/// The texts in order, with `between` between each two of them.
pub open spec fn joined(list: Seq<Seq<char>>, between: Seq<char>) -> Seq<char>
    decreases list.len(),
{
    if list.len() == 0 {
        Seq::empty()
    } else if list.len() == 1 {
        list[0]
    } else {
        joined(list.drop_last(), between) + between + list.last()
    }
}

/// The pieces of a text, with the character that it was split at between them,
/// are the text.
pub proof fn law_splitting_loses_nothing(s: Seq<char>, c: char)
    ensures
        pieces(s, c, c).len() >= 1,
        joined(pieces(s, c, c), seq![c]) == s,
    decreases s.len(),
{
    let now = pieces(s, c, c);
    if s.len() == 0 {
        assert(joined(now, seq![c]) =~= s);
    } else {
        let front = s.drop_last();
        let before = pieces(front, c, c);
        law_splitting_loses_nothing(front, c);
        if s.last() == c {
            assert(now.drop_last() =~= before);
            assert(joined(now, seq![c]) =~= front.push(c));
        } else {
            assert(now.drop_last() =~= before.drop_last());
            assert(joined(now, seq![c]) =~= front.push(s.last()));
        }
        assert(s =~= front.push(s.last()));
    }
}

/// What follows the last piece without a `c` goes on with that piece.
proof fn lemma_last_piece(s: Seq<char>, t: Seq<char>, c: char)
    requires
        !t.contains(c),
    ensures
        pieces(s, c, c).len() >= 1,
        pieces(s + t, c, c) == pieces(s, c, c).drop_last().push(pieces(s, c, c).last() + t),
    decreases t.len(),
{
    law_splitting_loses_nothing(s, c);
    let before = pieces(s, c, c);
    if t.len() == 0 {
        assert(s + t =~= s);
        assert(before.last() + t =~= before.last());
        assert(before.drop_last().push(before.last()) =~= before);
    } else {
        let front = t.drop_last();
        assert forall|i: int| 0 <= i < front.len() implies front[i] != c by {
            assert(t.contains(t[i]));
        }
        lemma_last_piece(s, front, c);
        assert(t.contains(t.last()));
        assert((s + t).drop_last() =~= s + front);
        assert((before.last() + front).push(t.last()) =~= before.last() + t);
        assert(pieces(s + t, c, c) =~= before.drop_last().push(before.last() + t));
    }
}

/// Texts that were joined are what splitting finds again, where none of them
/// holds the character between them.
pub proof fn law_splitting_undoes_joining(list: Seq<Seq<char>>, c: char)
    requires
        list.len() > 0,
        forall|i: int| 0 <= i < list.len() ==> !(#[trigger] list[i]).contains(c),
    ensures
        pieces(joined(list, seq![c]), c, c) == list,
    decreases list.len(),
{
    let all = joined(list, seq![c]);
    if list.len() == 1 {
        let nothing = Seq::<char>::empty();
        lemma_last_piece(nothing, list[0], c);
        assert(nothing + list[0] =~= list[0]);
        assert(pieces(all, c, c) =~= list);
    } else {
        let front = list.drop_last();
        law_splitting_undoes_joining(front, c);
        let before = joined(front, seq![c]).push(c);
        assert(before.drop_last() =~= joined(front, seq![c]));
        assert(pieces(before, c, c) == front.push(Seq::<char>::empty()));
        lemma_last_piece(before, list.last(), c);
        assert(all =~= before + list.last());
        assert(Seq::<char>::empty() + list.last() =~= list.last());
        assert(pieces(all, c, c) =~= list);
    }
}

/// Joins the texts with `between` between each two of them.
pub fn join(list: &[String], between: &str) -> (r: String)
    ensures
        r@ == joined(texts(list@), between@),
{
    let mut out = String::new();
    let mut i: usize = 0;
    while i < list.len()
        invariant
            i <= list@.len(),
            out@ == joined(texts(list@).take(i as int), between@),
        decreases list@.len() - i,
    {
        let ghost before = out@;
        if i > 0 {
            out.append(between);
        }
        out.append(list[i].as_str());
        proof {
            let all = texts(list@);
            assert(all.take(i as int + 1).drop_last() =~= all.take(i as int));
            assert(all.take(i as int + 1).last() == list@[i as int]@);
            if i == 0 {
                assert(out@ =~= list@[0]@);
            }
        }
        i += 1;
    }
    assert(texts(list@).take(list@.len() as int) =~= texts(list@));
    out
}

/// `s` with every `c` written twice.
pub open spec fn doubled(s: Seq<char>, c: char) -> Seq<char>
    decreases s.len(),
{
    if s.len() == 0 {
        Seq::empty()
    } else if s.last() == c {
        doubled(s.drop_last(), c).push(c).push(c)
    } else {
        doubled(s.drop_last(), c).push(s.last())
    }
}

/// Appends `text` with every `c` written twice.
pub fn push_doubled(out: &mut String, text: &str, c: char)
    ensures
        final(out)@ == old(out)@ + doubled(text@, c),
{
    let chars = chars_of(text);
    let ghost start = out@;
    let mut i: usize = 0;
    assert(start + doubled(chars@.take(0), c) =~= start);
    while i < chars.len()
        invariant
            i <= chars@.len(),
            out@ == start + doubled(chars@.take(i as int), c),
        decreases chars@.len() - i,
    {
        assert(chars@.take(i as int + 1).drop_last() =~= chars@.take(i as int));
        out.push(chars[i]);
        if chars[i] == c {
            out.push(c);
        }
        assert(out@ =~= start + doubled(chars@.take(i as int + 1), c));
        i += 1;
    }
    assert(chars@.take(chars@.len() as int) =~= chars@);
}

// ---------------------------------------------------------------------
// Order
// ---------------------------------------------------------------------
/// The lexicographic order of texts by character.
pub open spec fn text_before(a: Seq<char>, b: Seq<char>) -> bool
    decreases a.len(),
{
    if b.len() == 0 {
        false
    } else if a.len() == 0 {
        true
    } else if a[0] != b[0] {
        a[0] < b[0]
    } else {
        text_before(a.skip(1), b.skip(1))
    }
}

pub proof fn lemma_text_before_irreflexive(a: Seq<char>)
    ensures
        !text_before(a, a),
    decreases a.len(),
{
    if a.len() > 0 {
        lemma_text_before_irreflexive(a.skip(1));
    }
}

pub proof fn lemma_text_before_transitive(a: Seq<char>, b: Seq<char>, c: Seq<char>)
    requires
        text_before(a, b),
        text_before(b, c),
    ensures
        text_before(a, c),
    decreases a.len(),
{
    if a.len() > 0 && a[0] == b[0] && b[0] == c[0] {
        lemma_text_before_transitive(a.skip(1), b.skip(1), c.skip(1));
    }
}

pub proof fn lemma_text_before_total(a: Seq<char>, b: Seq<char>)
    ensures
        a == b || text_before(a, b) || text_before(b, a),
    decreases a.len(),
{
    if a.len() == 0 && b.len() == 0 {
        assert(a =~= b);
    } else if a.len() > 0 && b.len() > 0 && a[0] == b[0] {
        lemma_text_before_total(a.skip(1), b.skip(1));
        if a.skip(1) == b.skip(1) {
            assert(a =~= seq![a[0]] + a.skip(1));
            assert(b =~= seq![b[0]] + b.skip(1));
        }
    }
}

/// How one key stands to another in a total order.
#[derive(Clone, Copy, PartialEq, Eq, Structural, Debug)]
pub enum Position {
    Before,
    Same,
    After,
}

/// Where `a` stands in respect of `b`.
pub fn text_position(a: &str, b: &str) -> (r: Position)
    ensures
        r == (if a@ == b@ {
            Position::Same
        } else if text_before(a@, b@) {
            Position::Before
        } else {
            Position::After
        }),
{
    let x = chars_of(a);
    let y = chars_of(b);
    let mut i: usize = 0;
    assert(x@.skip(0) =~= x@);
    assert(y@.skip(0) =~= y@);
    while i < x.len() && i < y.len() && x[i] == y[i]
        invariant
            i <= x@.len(),
            i <= y@.len(),
            x@ == a@,
            y@ == b@,
            forall|j: int| 0 <= j < i ==> x@[j] == y@[j],
            text_before(a@, b@) == text_before(x@.skip(i as int), y@.skip(i as int)),
        decreases x@.len() - i,
    {
        assert(x@.skip(i as int).skip(1) =~= x@.skip(i as int + 1));
        assert(y@.skip(i as int).skip(1) =~= y@.skip(i as int + 1));
        i += 1;
    }
    if i == x.len() && i == y.len() {
        assert(a@ =~= b@);
        Position::Same
    } else if i == y.len() {
        Position::After
    } else if i == x.len() {
        Position::Before
    } else if x[i] < y[i] {
        assert(a@[i as int] != b@[i as int]);
        Position::Before
    } else {
        assert(a@[i as int] != b@[i as int]);
        Position::After
    }
}

// ---------------------------------------------------------------------
// Laws
// ---------------------------------------------------------------------
/// A digit counts what it shows, and digits in front of others count by the
/// power of ten of how many follow.
pub proof fn law_digits_have_their_place(s: Seq<char>, t: Seq<char>, c: char)
    ensures
        '0' <= c <= '9' ==> digits_value(seq![c]) == c as int - '0' as int,
        digits_value(s + t) == digits_value(s) * vstd::arithmetic::power::pow(10, t.len())
            + digits_value(t),
    decreases t.len(),
{
    broadcast use vstd::arithmetic::power::lemma_pow0;

    assert(seq![c].drop_last() =~= Seq::<char>::empty());
    reveal_with_fuel(digits_value, 2);
    if t.len() == 0 {
        assert(s + t =~= s);
    } else {
        let front = t.drop_last();
        law_digits_have_their_place(s, front, c);
        assert((s + t).drop_last() =~= s + front);
        vstd::arithmetic::power::lemma_pow1(10);
        vstd::arithmetic::power::lemma_pow_adds(10, front.len(), 1);
        let high = digits_value(s) as int;
        let p = vstd::arithmetic::power::pow(10, front.len());
        let q = vstd::arithmetic::power::pow(10, t.len());
        assert(q == p * 10);
        assert((high * p) * 10 == high * q) by (nonlinear_arith)
            requires
                q == p * 10,
        ;
    }
}

/// The decimal text of an integer reads back to it, has no superfluous zero in
/// front, and a minus sign only where the integer is negative.
pub proof fn law_numbers_read_back(n: int)
    ensures
        int_of(int_text(n)) == Some(n),
        n >= 0 ==> all_digits(int_text(n)),
        n < 0 ==> int_text(n)[0] == '-' && all_digits(int_text(n).skip(1)),
        n >= 10 ==> int_text(n)[0] != '0',
{
    if n < 0 {
        lemma_digits_of_nat((-n) as nat);
        assert(int_text(n).skip(1) =~= nat_text((-n) as nat));
    } else {
        lemma_digits_of_nat(n as nat);
        let s = int_text(n);
        assert(is_digit(s[0]));
        if n >= 10 {
            lemma_no_leading_zero(n as nat);
        }
    }
}

proof fn lemma_no_leading_zero(n: nat)
    requires
        n >= 1,
    ensures
        nat_text(n).len() > 0,
        nat_text(n)[0] != '0',
    decreases n,
{
    if n >= 10 {
        lemma_no_leading_zero(n / 10);
    } else {
        assert(digit_char(n) as int == n + 48);
    }
}

/// A trimmed text is the text without whitespace on either side: what is cut off
/// is whitespace, and what is left neither begins nor ends with it.
pub proof fn law_trimming_cuts_whitespace_only(s: Seq<char>)
    ensures
        exists|a: Seq<char>, b: Seq<char>|
            s == #[trigger] (a + trim_of(s) + b) && all_space(a) && all_space(b),
        trim_of(s).len() > 0 ==> !is_space(trim_of(s)[0]) && !is_space(trim_of(s).last()),
{
    let a = lemma_trim_start(s);
    let b = lemma_trim_end(trim_start(s));
    let t = trim_of(s);
    assert(s =~= a + t + b);
    if t.len() > 0 {
        assert(t[0] == trim_start(s)[0]);
    }
}

/// Whether a text is whitespace only.
pub open spec fn all_space(s: Seq<char>) -> bool {
    forall|i: int| 0 <= i < s.len() ==> is_space(#[trigger] s[i])
}

proof fn lemma_trim_start(s: Seq<char>) -> (a: Seq<char>)
    ensures
        s == a + trim_start(s),
        all_space(a),
        trim_start(s).len() > 0 ==> !is_space(trim_start(s)[0]),
    decreases s.len(),
{
    if s.len() > 0 && is_space(s[0]) {
        let rest = lemma_trim_start(s.skip(1));
        let a = seq![s[0]] + rest;
        assert(s =~= seq![s[0]] + s.skip(1));
        assert(a + trim_start(s) =~= seq![s[0]] + (rest + trim_start(s)));
        a
    } else {
        assert(s =~= Seq::empty() + s);
        Seq::empty()
    }
}

proof fn lemma_trim_end(s: Seq<char>) -> (b: Seq<char>)
    ensures
        s == trim_end(s) + b,
        all_space(b),
        trim_end(s).len() > 0 ==> !is_space(trim_end(s).last()),
    decreases s.len(),
{
    if s.len() > 0 && is_space(s.last()) {
        let rest = lemma_trim_end(s.drop_last());
        let b = rest.push(s.last());
        assert(s =~= s.drop_last().push(s.last()));
        assert(trim_end(s) + b =~= (trim_end(s) + rest).push(s.last()));
        b
    } else {
        assert(s =~= s + Seq::empty());
        Seq::empty()
    }
}

/// Blanks, tabs and line ends are whitespace; letters, digits and all other
/// printable ASCII characters are not.
pub proof fn law_whitespace(c: char)
    ensures
        c == ' ' || c == '\t' || c == '\n' || c == '\r' ==> is_space(c),
        '!' <= c <= '~' ==> !is_space(c),
{
}

/// Lower case changes the capital letters of ASCII and nothing else, and knows
/// each of them apart from the others.
pub proof fn law_lower_case(s: Seq<char>, i: int)
    requires
        0 <= i < s.len(),
    ensures
        lower(s).len() == s.len(),
        s[i] < 'A' || s[i] > 'Z' ==> lower(s)[i] == s[i],
        'A' <= s[i] <= 'Z' ==> 'a' <= lower(s)[i] <= 'z' && lower(s)[i] as int - 'a' as int
            == s[i] as int - 'A' as int,
        lower(lower(s)) == lower(s),
{
    assert(lower(lower(s)) =~= lower(s));
}

/// A text is found exactly where it stands between two others.
pub proof fn law_a_part_is_found(s: Seq<char>, a: Seq<char>, part: Seq<char>, b: Seq<char>)
    ensures
        has(a + part + b, part),
        has(s, part) ==> exists|x: Seq<char>, y: Seq<char>| s == #[trigger] (x + part + y),
{
    let whole = a + part + b;
    assert(whole.subrange(a.len() as int, (a.len() + part.len()) as int) =~= part);
    assert(occurs_at(whole, part, a.len() as int));
    if has(s, part) {
        let at = choose|at: int| #[trigger] occurs_at(s, part, at);
        assert(s =~= s.take(at) + part + s.skip(at + part.len()));
    }
}

/// Joining puts the text between every two neighbours and nowhere else.
pub proof fn law_joining(list: Seq<Seq<char>>, next: Seq<char>, between: Seq<char>)
    ensures
        joined(Seq::empty(), between) == Seq::<char>::empty(),
        joined(seq![next], between) == next,
        list.len() > 0 ==> joined(list.push(next), between) == joined(list, between) + between
            + next,
{
    if list.len() > 0 {
        assert(list.push(next).drop_last() =~= list);
    }
}

/// Texts are in the order of their first difference, and a text stands before
/// those that go on behind it.
pub proof fn law_the_first_difference_decides(
    common: Seq<char>,
    a: char,
    x: Seq<char>,
    b: char,
    y: Seq<char>,
)
    ensures
        a < b ==> text_before(common + seq![a] + x, common + seq![b] + y),
        a < b ==> !text_before(common + seq![b] + y, common + seq![a] + x),
        text_before(common, common + seq![a] + x),
        !text_before(common + seq![a] + x, common),
        !text_before(common, common),
    decreases common.len(),
{
    let p = common + seq![a] + x;
    let q = common + seq![b] + y;
    if common.len() > 0 {
        let rest = common.skip(1);
        law_the_first_difference_decides(rest, a, x, b, y);
        assert(p.skip(1) =~= rest + seq![a] + x);
        assert(q.skip(1) =~= rest + seq![b] + y);
    }
}

/// Splitting cuts at the first separator and goes on behind it; a text without
/// one is one piece.
pub proof fn law_splitting_cuts_at_every_separator(
    s: Seq<char>,
    c: char,
    rest: Seq<char>,
    a: char,
    b: char,
)
    requires
        forall|i: int| 0 <= i < s.len() ==> #[trigger] s[i] != a && s[i] != b,
        c == a || c == b,
    ensures
        pieces(s, a, b) == seq![s],
        pieces(s + seq![c] + rest, a, b) == seq![s] + pieces(rest, a, b),
    decreases s.len() + rest.len(),
{
    let all = s + seq![c] + rest;
    if rest.len() > 0 {
        let front = rest.drop_last();
        law_splitting_cuts_at_every_separator(s, c, front, a, b);
        assert(all.drop_last() =~= s + seq![c] + front);
        assert(all.last() == rest.last());
        lemma_some_piece(front, a, b);
        assert(pieces(all, a, b) =~= seq![s] + pieces(rest, a, b));
    } else {
        if s.len() > 0 {
            let front = s.drop_last();
            assert forall|i: int| 0 <= i < front.len() implies #[trigger] front[i] != a && front[i]
                != b by {
                assert(front[i] == s[i]);
            }
            law_splitting_cuts_at_every_separator(front, c, rest, a, b);
            assert(s[s.len() - 1] != a);
            assert(front.push(s.last()) =~= s);
            assert(pieces(s, a, b) =~= seq![s]);
        } else {
            assert(s =~= Seq::<char>::empty());
            assert(pieces(s, a, b) =~= seq![s]);
        }
        assert(all.drop_last() =~= s);
        assert(all.last() == c);
        assert(pieces(all, a, b) =~= seq![s] + pieces(rest, a, b));
    }
}

proof fn lemma_some_piece(s: Seq<char>, a: char, b: char)
    ensures
        pieces(s, a, b).len() > 0,
    decreases s.len(),
{
    if s.len() > 0 {
        lemma_some_piece(s.drop_last(), a, b);
    }
}

/// A sign stands before the digits, and a minus makes the number negative.
pub proof fn law_signs(digits: Seq<char>)
    requires
        digits.len() > 0,
        all_digits(digits),
    ensures
        unsigned_part(seq!['-'] + digits) == digits,
        unsigned_part(seq!['+'] + digits) == digits,
        unsigned_part(digits) == digits,
        int_of(digits) == Some(digits_value(digits) as int),
        int_of(seq!['+'] + digits) == Some(digits_value(digits) as int),
        int_of(seq!['-'] + digits) == Some(-(digits_value(digits) as int)),
        int_of(Seq::empty()) is None,
{
    assert((seq!['-'] + digits).skip(1) =~= digits);
    assert((seq!['+'] + digits).skip(1) =~= digits);
    assert(is_digit(digits[0]));
}

/// A number is written with digits, and with nothing else behind its sign.
pub proof fn law_integers_are_digits(s: Seq<char>, i: int)
    requires
        int_of(s) is Some,
        0 <= i < s.len(),
    ensures
        '0' <= s[i] <= '9' || (i == 0 && s.len() > 1 && (s[0] == '-' || s[0] == '+')),
{
    let body = unsigned_part(s);
    if body.len() < s.len() {
        if i > 0 {
            assert(is_digit(body[i - 1]));
        }
    } else {
        assert(is_digit(body[i]));
    }
}

} // verus!
