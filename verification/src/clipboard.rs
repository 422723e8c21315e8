//! What is pasted into a grid: rows of tab-separated cells, or rows of JSON.
use vstd::prelude::*;

use crate::text::{
    char_seqs, chars_of, joined, law_splitting_loses_nothing, law_splitting_undoes_joining, pieces,
    same_text, split, text_of, texts, trim, trim_of,
};
use crate::value::{
    parse_json, parsed_json, JsonCell, JsonCellView, JsonDocument, JsonDocumentView, JsonItem,
    JsonItemView,
};

verus! {

// ---------------------------------------------------------------------
// Tab-separated rows
// ---------------------------------------------------------------------
/// `s` without the characters `a` and `b` at its end.
pub open spec fn without_end(s: Seq<char>, a: char, b: char) -> Seq<char>
    decreases s.len(),
{
    if s.len() > 0 && (s.last() == a || s.last() == b) {
        without_end(s.drop_last(), a, b)
    } else {
        s
    }
}

fn cut_end(chars: &mut Vec<char>, a: char, b: char)
    ensures
        final(chars)@ == without_end(old(chars)@, a, b),
{
    while chars.len() > 0 && (chars[chars.len() - 1] == a || chars[chars.len() - 1] == b)
        invariant
            without_end(chars@, a, b) == without_end(old(chars)@, a, b),
        decreases chars@.len(),
    {
        assert(chars@.drop_last() =~= chars@.take(chars@.len() - 1));
        chars.pop();
    }
}

/// The cells of a line: what stands between its tabs, without a carriage return
/// at its end.
pub open spec fn cells_of(line: Seq<char>) -> Seq<Seq<char>> {
    pieces(without_end(line, '\r', '\r'), '\t', '\t')
}

/// The rows of a text: its lines, without the line ends at its end.
pub open spec fn rows_of(text: Seq<char>) -> Seq<Seq<Seq<char>>> {
    pieces(without_end(text, '\r', '\n'), '\n', '\n').map_values(|line: Seq<char>| cells_of(line))
}

/// The texts of rows of cells.
pub open spec fn row_texts(rows: Seq<Vec<String>>) -> Seq<Seq<Seq<char>>> {
    rows.map_values(|row: Vec<String>| texts(row@))
}

fn split_cells(line: Vec<char>) -> (r: Vec<String>)
    ensures
        texts(r@) == cells_of(line@),
{
    let mut line = line;
    cut_end(&mut line, '\r', '\r');
    let parts = split(line.as_slice(), '\t', '\t');
    let mut out: Vec<String> = Vec::new();
    let mut i: usize = 0;
    while i < parts.len()
        invariant
            i <= parts@.len(),
            out@.len() == i,
            forall|j: int| 0 <= j < i ==> (#[trigger] out@[j])@ == parts@[j]@,
        decreases parts@.len() - i,
    {
        out.push(text_of(parts[i].as_slice()));
        i += 1;
    }
    assert(texts(out@) =~= char_seqs(parts@));
    out
}

/// Reads tab-separated rows. Empty cells are kept.
pub fn clipboard_rows(text: &str) -> (r: Vec<Vec<String>>)
    ensures
        row_texts(r@) == rows_of(text@),
{
    let mut chars = chars_of(text);
    cut_end(&mut chars, '\r', '\n');
    let mut lines = split(chars.as_slice(), '\n', '\n');
    let ghost all = char_seqs(lines@);
    let mut out: Vec<Vec<String>> = Vec::new();
    let mut i: usize = 0;
    while i < lines.len()
        invariant
            i <= lines@.len(),
            all == char_seqs(lines@),
            out@.len() == i,
            forall|j: int| 0 <= j < i ==> texts((#[trigger] out@[j])@) == cells_of(all[j]),
        decreases lines@.len() - i,
    {
        let line = lines[i].clone();
        assert(line@ =~= lines@[i as int]@);
        assert(all[i as int] == lines@[i as int]@);
        out.push(split_cells(line));
        i += 1;
    }
    assert(row_texts(out@) =~= rows_of(text@));
    out
}

/// Whether the first row repeats the headers and other rows follow.
pub open spec fn starts_with_header(rows: Seq<Vec<String>>, headers: Seq<String>) -> bool {
    rows.len() > 1 && texts(rows[0]@) == texts(headers)
}

/// Drops a copied header row where it matches the columns that are pasted into.
/// A row that is all there is stays, even where it equals them.
pub fn without_matching_header(rows: Vec<Vec<String>>, headers: &[String]) -> (r: Vec<Vec<String>>)
    ensures
        r@ == (if starts_with_header(rows@, headers@) {
            rows@.skip(1)
        } else {
            rows@
        }),
{
    if rows.len() <= 1 {
        return rows;
    }
    if !crate::workspace_model::same_texts(rows[0].as_slice(), headers) {
        return rows;
    }
    let mut rest = rows;
    rest.remove(0);
    assert(rest@ =~= rows@.skip(1));
    rest
}

/// Nothing but a header is dropped: the rows that are left are all rows, or all
/// rows behind one that repeats the headers, and there is always one left.
pub proof fn law_only_a_header_is_dropped(rows: Seq<Vec<String>>, headers: Seq<String>)
    ensures
        ({
            let left = if starts_with_header(rows, headers) {
                rows.skip(1)
            } else {
                rows
            };
            &&& rows.len() > 0 ==> left.len() > 0
            &&& left.len() < rows.len() ==> texts(rows[0]@) == texts(headers)
            &&& forall|i: int|
                0 <= i < left.len() ==> (#[trigger] left[i]) == rows[i + rows.len() - left.len()]
        }),
{
}

/// The cells of a line, with tabs between them, are the line.
pub proof fn law_cells_are_the_line(line: Seq<char>)
    ensures
        joined(cells_of(line), seq!['\t']) == without_end(line, '\r', '\r'),
{
    law_splitting_loses_nothing(without_end(line, '\r', '\r'), '\t');
}

/// What ends a line.
pub open spec fn line_end(carriage_return: bool) -> Seq<char> {
    if carriage_return {
        seq!['\r', '\n']
    } else {
        seq!['\n']
    }
}

/// `s`, `n` times.
pub open spec fn repeated(s: Seq<char>, n: nat) -> Seq<char>
    decreases n,
{
    if n == 0 {
        Seq::empty()
    } else {
        repeated(s, (n - 1) as nat) + s
    }
}

/// The lines of rows of cells: tabs between the cells.
pub open spec fn lines_of(rows: Seq<Seq<Seq<char>>>) -> Seq<Seq<char>> {
    rows.map_values(|cells: Seq<Seq<char>>| joined(cells, seq!['\t']))
}

/// Rows as they are copied: line ends between the lines, and `trailing` more of
/// them behind the last.
pub open spec fn copied(rows: Seq<Seq<Seq<char>>>, carriage_return: bool, trailing: nat) -> Seq<
    char,
> {
    joined(lines_of(rows), line_end(carriage_return)) + repeated(
        line_end(carriage_return),
        trailing,
    )
}

/// Whether a text has no tab and no part of a line end.
pub open spec fn is_plain_cell(cell: Seq<char>) -> bool {
    !cell.contains('\t') && !cell.contains('\n') && !cell.contains('\r')
}

/// Whether every row has a cell, and every cell is plain.
pub open spec fn has_plain_cells(rows: Seq<Seq<Seq<char>>>) -> bool {
    forall|i: int|
        0 <= i < rows.len() ==> (#[trigger] rows[i]).len() > 0 && forall|j: int|
            0 <= j < rows[i].len() ==> is_plain_cell(#[trigger] rows[i][j])
}

/// A text keeps what it holds before the characters that are cut off.
proof fn lemma_without_end(s: Seq<char>, tail: Seq<char>, a: char, b: char)
    requires
        s.len() > 0 ==> s.last() != a && s.last() != b,
        forall|i: int| 0 <= i < tail.len() ==> (#[trigger] tail[i]) == a || tail[i] == b,
    ensures
        without_end(s + tail, a, b) == s,
    decreases tail.len(),
{
    if tail.len() == 0 {
        assert(s + tail =~= s);
    } else {
        let all = s + tail;
        assert(all.last() == tail[tail.len() - 1]);
        assert(all.drop_last() =~= s + tail.drop_last());
        lemma_without_end(s, tail.drop_last(), a, b);
    }
}

proof fn lemma_repeated(carriage_return: bool, n: nat)
    ensures
        forall|i: int|
            0 <= i < repeated(line_end(carriage_return), n).len() ==> (#[trigger] repeated(
                line_end(carriage_return),
                n,
            )[i]) == '\r' || repeated(line_end(carriage_return), n)[i] == '\n',
    decreases n,
{
    if n > 0 {
        let end = line_end(carriage_return);
        let front = repeated(end, (n - 1) as nat);
        let all = repeated(end, n);
        lemma_repeated(carriage_return, (n - 1) as nat);
        assert forall|i: int| 0 <= i < all.len() implies (#[trigger] all[i]) == '\r' || all[i]
            == '\n' by {
            if i < front.len() {
                assert(all[i] == front[i]);
            } else {
                assert(all[i] == end[i - front.len()]);
            }
        }
    }
}

/// A line holds no part of a line end.
proof fn lemma_line(cells: Seq<Seq<char>>)
    requires
        cells.len() > 0,
        forall|j: int| 0 <= j < cells.len() ==> is_plain_cell(#[trigger] cells[j]),
    ensures
        !joined(cells, seq!['\t']).contains('\n'),
        !joined(cells, seq!['\t']).contains('\r'),
        joined(cells, seq!['\t']).len() == 0 ==> cells == seq![Seq::<char>::empty()],
    decreases cells.len(),
{
    let line = joined(cells, seq!['\t']);
    if cells.len() > 1 {
        let front = joined(cells.drop_last(), seq!['\t']);
        lemma_line(cells.drop_last());
        assert forall|i: int| 0 <= i < line.len() implies line[i] != '\n' && line[i] != '\r' by {
            if i < front.len() {
                assert(front.contains(front[i]));
            } else if i > front.len() {
                let last = cells.last();
                assert(is_plain_cell(cells[cells.len() - 1]));
                assert(last.contains(last[i - front.len() - 1]));
            }
        }
    } else if line.len() == 0 {
        assert(cells[0] =~= Seq::<char>::empty());
        assert(cells =~= seq![Seq::<char>::empty()]);
    } else {
        assert(is_plain_cell(cells[0]));
    }
}

/// What stands before the line feed of a line end.
spec fn before_feed(carriage_return: bool) -> Seq<char> {
    if carriage_return {
        seq!['\r']
    } else {
        Seq::empty()
    }
}

/// Every line with `end` behind it.
spec fn ended(lines: Seq<Seq<char>>, end: Seq<char>) -> Seq<Seq<char>> {
    lines.map_values(|line: Seq<char>| line + end)
}

/// What stands before the last character of a line end belongs to the lines.
proof fn lemma_ended(lines: Seq<Seq<char>>, end: Seq<char>, c: char)
    requires
        lines.len() > 0,
    ensures
        joined(ended(lines, end), seq![c]) == joined(lines, end.push(c)) + end,
    decreases lines.len(),
{
    let all = ended(lines, end);
    if lines.len() == 1 {
        assert(joined(all, seq![c]) =~= joined(lines, end.push(c)) + end);
    } else {
        lemma_ended(lines.drop_last(), end, c);
        assert(all.drop_last() =~= ended(lines.drop_last(), end));
        assert(joined(all, seq![c]) =~= joined(lines, end.push(c)) + end);
    }
}

/// The lines between line ends, the last character of which is a line feed: all
/// but the last keep the rest of their line end.
spec fn cut_lines(lines: Seq<Seq<char>>, end: Seq<char>) -> Seq<Seq<char>> {
    ended(lines.drop_last(), end).push(lines.last())
}

proof fn lemma_cut_lines(lines: Seq<Seq<char>>, end: Seq<char>)
    requires
        lines.len() > 0,
        !end.contains('\n'),
        forall|i: int| 0 <= i < lines.len() ==> !(#[trigger] lines[i]).contains('\n'),
    ensures
        pieces(joined(lines, end.push('\n')), '\n', '\n') == cut_lines(lines, end),
{
    let cut = cut_lines(lines, end);
    assert forall|i: int| 0 <= i < cut.len() implies !(#[trigger] cut[i]).contains('\n') by {
        if i < lines.len() - 1 {
            let line = lines[i];
            assert forall|j: int| 0 <= j < cut[i].len() implies cut[i][j] != '\n' by {
                if j < line.len() {
                    assert(line.contains(line[j]));
                } else {
                    assert(end.contains(end[j - line.len()]));
                }
            }
        } else {
            assert(cut[i] == lines[i]);
        }
    }
    law_splitting_undoes_joining(cut, '\n');
    assert(cut.drop_last() =~= ended(lines.drop_last(), end));
    if lines.len() == 1 {
        assert(joined(cut, seq!['\n']) =~= joined(lines, end.push('\n')));
    } else {
        lemma_ended(lines.drop_last(), end, '\n');
        assert(joined(cut, seq!['\n']) =~= joined(lines, end.push('\n')));
    }
}

/// Rows that were copied are the rows that are pasted: with either line end and
/// any number of them at the end, and with empty cells and empty lines inside.
/// An empty line at the end, behind other rows, is the only one that is lost.
pub proof fn law_copied_rows_are_pasted(
    rows: Seq<Seq<Seq<char>>>,
    carriage_return: bool,
    trailing: nat,
)
    requires
        rows.len() > 0,
        has_plain_cells(rows),
        rows.len() == 1 || rows.last() != seq![Seq::<char>::empty()],
    ensures
        rows_of(copied(rows, carriage_return, trailing)) == rows,
{
    let lines = lines_of(rows);
    let end = before_feed(carriage_return);
    let ends = line_end(carriage_return);
    assert(ends =~= end.push('\n'));
    assert forall|i: int| 0 <= i < lines.len() implies !(#[trigger] lines[i]).contains('\n')
        && !lines[i].contains('\r') && (lines[i].len() == 0 ==> rows[i] == seq![
        Seq::<char>::empty(),
    ]) by {
        lemma_line(rows[i]);
    }
    let text = joined(lines, ends);
    let last = lines.last();
    assert(last == lines[lines.len() - 1]);
    if text.len() > 0 {
        if lines.len() == 1 {
            assert(text == last);
        }
        assert(last.len() > 0);
        assert(text.last() == last.last());
        assert(last.contains(last.last()));
    }
    lemma_repeated(carriage_return, trailing);
    lemma_without_end(text, repeated(ends, trailing), '\r', '\n');
    lemma_cut_lines(lines, end);
    let cut = cut_lines(lines, end);
    assert forall|i: int| 0 <= i < cut.len() implies cells_of(#[trigger] cut[i]) == rows[i] by {
        let line = lines[i];
        if line.len() > 0 {
            assert(line.contains(line.last()));
        }
        if i < lines.len() - 1 {
            lemma_without_end(line, end, '\r', '\r');
        } else {
            lemma_without_end(line, Seq::empty(), '\r', '\r');
            assert(line + Seq::<char>::empty() =~= line);
        }
        let cells = rows[i];
        assert forall|j: int| 0 <= j < cells.len() implies !(#[trigger] cells[j]).contains(
            '\t',
        ) by {
            assert(is_plain_cell(rows[i][j]));
        }
        law_splitting_undoes_joining(cells, '\t');
    }
    assert(rows_of(copied(rows, carriage_return, trailing)) =~= rows);
}

// ---------------------------------------------------------------------
// Rows of JSON
// ---------------------------------------------------------------------
/// The text of a pasted JSON value: nothing for NULL, a string without quotes.
pub open spec fn json_text(value: JsonCellView) -> Seq<char> {
    match value {
        JsonCellView::Null => Seq::empty(),
        JsonCellView::Text(t) => t,
        JsonCellView::Other(t) => t,
    }
}

/// The position of the first entry with this key, from `from` on.
pub open spec fn entry_from(
    entries: Seq<(Seq<char>, JsonCellView)>,
    key: Seq<char>,
    from: int,
) -> Option<int>
    decreases entries.len() - from,
{
    if from < 0 || from >= entries.len() {
        None
    } else if entries[from].0 == key {
        Some(from)
    } else {
        entry_from(entries, key, from + 1)
    }
}

/// The text under a key of an object.
pub open spec fn text_under(entries: Seq<(Seq<char>, JsonCellView)>, key: Seq<char>) -> Option<
    Seq<char>,
> {
    match entry_from(entries, key, 0) {
        Some(at) => Some(json_text(entries[at].1)),
        None => None,
    }
}

/// The cells of an object: for each column whose name it has, the offset of the
/// column and the text.
pub open spec fn object_cells(
    entries: Seq<(Seq<char>, JsonCellView)>,
    columns: Seq<(usize, String)>,
) -> Seq<(usize, Seq<char>)>
    decreases columns.len(),
{
    if columns.len() == 0 {
        Seq::empty()
    } else {
        let before = object_cells(entries, columns.drop_last());
        match text_under(entries, columns.last().1@) {
            Some(text) => before.push((columns.last().0, text)),
            None => before,
        }
    }
}

/// Whether every item is an object.
pub open spec fn all_objects(items: Seq<JsonItemView>) -> bool {
    forall|i: int| 0 <= i < items.len() ==> (#[trigger] items[i]) is Object
}

/// Whether some object has a key that is the name of a column.
pub open spec fn matches_some_column(
    items: Seq<JsonItemView>,
    columns: Seq<(usize, String)>,
) -> bool {
    exists|i: int|
        0 <= i < items.len() && object_cells((#[trigger] items[i])->Object_0, columns).len() > 0
}

/// The rows of a JSON document, where it is an array of objects of which one has
/// a column's name as a key.
pub open spec fn document_rows(
    document: Option<JsonDocumentView>,
    columns: Seq<(usize, String)>,
) -> Option<Seq<Seq<(usize, Seq<char>)>>> {
    match document {
        None => None,
        Some(document) => match document.items {
            None => None,
            Some(items) => item_rows(items, columns),
        },
    }
}

/// The rows of the items of an array.
pub open spec fn item_rows(items: Seq<JsonItemView>, columns: Seq<(usize, String)>) -> Option<
    Seq<Seq<(usize, Seq<char>)>>,
> {
    if items.len() == 0 || !all_objects(items) || !matches_some_column(items, columns) {
        None
    } else {
        Some(items.map_values(|item: JsonItemView| object_cells(item->Object_0, columns)))
    }
}

/// The model of an optional document.
pub open spec fn document_view(document: Option<JsonDocument>) -> Option<JsonDocumentView> {
    match document {
        Some(d) => Some(d@),
        None => None,
    }
}

pub open spec fn cell_texts(cells: Seq<(usize, String)>) -> Seq<(usize, Seq<char>)> {
    cells.map_values(|c: (usize, String)| (c.0, c.1@))
}

/// The model of the rows.
pub open spec fn rows_view(rows: Option<Vec<Vec<(usize, String)>>>) -> Option<
    Seq<Seq<(usize, Seq<char>)>>,
> {
    match rows {
        Some(list) => Some(list@.map_values(|row: Vec<(usize, String)>| cell_texts(row@))),
        None => None,
    }
}

/// The model of the entries of an object.
pub open spec fn entry_views(entries: Seq<(String, JsonCell)>) -> Seq<(Seq<char>, JsonCellView)> {
    entries.map_values(|e: (String, JsonCell)| (e.0@, e.1@))
}

fn json_paste_text(value: &JsonCell) -> (r: String)
    ensures
        r@ == json_text(value@),
{
    match value {
        JsonCell::Null => String::new(),
        JsonCell::Text(text) => text.clone(),
        JsonCell::Other(text) => text.clone(),
    }
}

fn find_text(entries: &[(String, JsonCell)], key: &str) -> (r: Option<String>)
    ensures
        crate::value::opt_text(r) == text_under(entry_views(entries@), key@),
{
    let ghost all = entry_views(entries@);
    let mut i: usize = 0;
    while i < entries.len()
        invariant
            i <= entries@.len(),
            all == entry_views(entries@),
            entry_from(all, key@, i as int) == entry_from(all, key@, 0),
        decreases entries@.len() - i,
    {
        assert(all[i as int] == (entries@[i as int].0@, entries@[i as int].1@));
        if same_text(entries[i].0.as_str(), key) {
            return Some(json_paste_text(&entries[i].1));
        }
        i += 1;
    }
    None
}

fn read_object(entries: &[(String, JsonCell)], columns: &[(usize, String)]) -> (r: Vec<
    (usize, String),
>)
    ensures
        cell_texts(r@) == object_cells(entry_views(entries@), columns@),
{
    let ghost all = entry_views(entries@);
    let mut out: Vec<(usize, String)> = Vec::new();
    let mut i: usize = 0;
    assert(cell_texts(out@) =~= object_cells(all, columns@.take(0)));
    while i < columns.len()
        invariant
            i <= columns@.len(),
            all == entry_views(entries@),
            cell_texts(out@) == object_cells(all, columns@.take(i as int)),
        decreases columns@.len() - i,
    {
        assert(columns@.take(i + 1).drop_last() =~= columns@.take(i as int));
        let ghost before = out@;
        if let Some(text) = find_text(entries, columns[i].1.as_str()) {
            out.push((columns[i].0, text));
            assert(cell_texts(out@) =~= cell_texts(before).push((columns@[i as int].0, text@)));
        }
        i += 1;
    }
    assert(columns@.take(columns@.len() as int) =~= columns@);
    out
}

fn read_items(items: &[JsonItem], columns: &[(usize, String)]) -> (r: Option<
    Vec<Vec<(usize, String)>>,
>)
    ensures
        rows_view(r) == item_rows(items@.map_values(|i: JsonItem| i@), columns@),
{
    let ghost views = items@.map_values(|i: JsonItem| i@);
    if items.len() == 0 {
        return None;
    }
    let mut out: Vec<Vec<(usize, String)>> = Vec::new();
    let mut any = false;
    let mut i: usize = 0;
    while i < items.len()
        invariant
            i <= items@.len(),
            views == items@.map_values(|i: JsonItem| i@),
            out@.len() == i,
            forall|j: int| 0 <= j < i ==> (#[trigger] views[j]) is Object,
            forall|j: int|
                0 <= j < i ==> cell_texts((#[trigger] out@[j])@) == object_cells(
                    views[j]->Object_0,
                    columns@,
                ),
            any == exists|j: int|
                0 <= j < i && object_cells((#[trigger] views[j])->Object_0, columns@).len() > 0,
        decreases items@.len() - i,
    {
        assert(views[i as int] == items@[i as int]@);
        match &items[i] {
            JsonItem::Object(entries) => {
                let row = read_object(entries.as_slice(), columns);
                assert(views[i as int]->Object_0 =~= entry_views(entries@));
                if row.len() > 0 {
                    any = true;
                }
                assert(cell_texts(row@).len() == row@.len());
                out.push(row);
            },
            JsonItem::Other => {
                assert(!(views[i as int] is Object));
                return None;
            },
        }
        i += 1;
    }
    if !any {
        return None;
    }
    let ghost done = out@.map_values(|row: Vec<(usize, String)>| cell_texts(row@));
    assert(done =~= views.map_values(|item: JsonItemView| object_cells(item->Object_0, columns@)));
    Some(out)
}

/// Reads the rows of a JSON document: the part of [`clipboard_json_rows`] that
/// follows the reader.
pub fn json_rows(document: Option<JsonDocument>, columns: &[(usize, String)]) -> (r: Option<
    Vec<Vec<(usize, String)>>,
>)
    ensures
        rows_view(r) == document_rows(document_view(document), columns@),
{
    match document {
        Some(document) => match document.items {
            Some(items) => read_items(items.as_slice(), columns),
            None => None,
        },
        None => None,
    }
}

/// Reads selected rows of JSON as offsets and texts, for the keys that are
/// there. `columns` are the offsets and names from the cell that is pasted at. A
/// key that is missing is left out, so that a paste does not blank its column.
/// Nothing comes back for a text that is no such array: it is pasted as
/// tab-separated rows.
pub fn clipboard_json_rows(text: &str, columns: &[(usize, String)]) -> (r: Option<
    Vec<Vec<(usize, String)>>,
>)
    ensures
        rows_view(r) == document_rows(parsed_json(trim_of(text@)), columns@),
{
    let trimmed = text_of(trim(text).as_slice());
    json_rows(parse_json(trimmed.as_str()), columns)
}

proof fn lemma_entry_from(entries: Seq<(Seq<char>, JsonCellView)>, key: Seq<char>, from: int)
    requires
        0 <= from <= entries.len(),
    ensures
        match entry_from(entries, key, from) {
            Some(at) => from <= at < entries.len() && entries[at].0 == key && forall|j: int|
                from <= j < at ==> (#[trigger] entries[j]).0 != key,
            None => forall|j: int| from <= j < entries.len() ==> (#[trigger] entries[j]).0 != key,
        },
    decreases entries.len() - from,
{
    if from < entries.len() && entries[from].0 != key {
        lemma_entry_from(entries, key, from + 1);
    }
}

proof fn lemma_object_cells(
    entries: Seq<(Seq<char>, JsonCellView)>,
    before: Seq<(usize, String)>,
    column: (usize, String),
    after: Seq<(usize, String)>,
)
    ensures
        object_cells(entries, before + seq![column] + after) == object_cells(entries, before) + (
        match text_under(entries, column.1@) {
            Some(text) => seq![(column.0, text)],
            None => Seq::empty(),
        }) + object_cells(entries, after),
    decreases after.len(),
{
    let all = before + seq![column] + after;
    let mid = match text_under(entries, column.1@) {
        Some(text) => seq![(column.0, text)],
        None => Seq::empty(),
    };
    if after.len() > 0 {
        let front = after.drop_last();
        lemma_object_cells(entries, before, column, front);
        assert(all.drop_last() =~= before + seq![column] + front);
        assert(all.last() == after.last());
    } else {
        assert(all.drop_last() =~= before);
        assert(all.last() == column);
    }
    assert(object_cells(entries, all) =~= object_cells(entries, before) + mid + object_cells(
        entries,
        after,
    ));
}

/// An object gives each column whose name it has as a key the text of the first
/// value under it, at the offset of the column: nothing for NULL, a string without
/// its quotes, and any other value as it is written. It leaves the other columns
/// out.
pub proof fn law_pasted_objects_fill_the_columns_they_name(
    entries: Seq<(Seq<char>, JsonCellView)>,
    before: Seq<(usize, String)>,
    column: (usize, String),
    after: Seq<(usize, String)>,
    at: int,
)
    requires
        0 <= at <= entries.len(),
        forall|j: int| 0 <= j < at ==> (#[trigger] entries[j]).0 != column.1@,
        at < entries.len() ==> entries[at].0 == column.1@,
    ensures
        object_cells(entries, Seq::empty()).len() == 0,
        at == entries.len() ==> object_cells(entries, before + seq![column] + after)
            == object_cells(entries, before) + object_cells(entries, after),
        at < entries.len() ==> object_cells(entries, before + seq![column] + after) == object_cells(
            entries,
            before,
        ) + seq![
            (
                column.0,
                match entries[at].1 {
                    JsonCellView::Null => ""@,
                    JsonCellView::Text(text) => text,
                    JsonCellView::Other(text) => text,
                },
            ),
        ] + object_cells(entries, after),
{
    reveal_strlit("");
    assert(""@ =~= Seq::<char>::empty());
    lemma_entry_from(entries, column.1@, 0);
    lemma_object_cells(entries, before, column, after);
    assert(object_cells(entries, before) + Seq::<(usize, Seq<char>)>::empty() =~= object_cells(
        entries,
        before,
    ));
    if let Some(found) = entry_from(entries, column.1@, 0) {
        if at < found {
            assert(entries[at].0 != column.1@);
        } else if found < at {
            assert(entries[found].0 != column.1@);
        }
    } else if at < entries.len() {
        assert(entries[at].0 != column.1@);
    }
}

proof fn lemma_some_cells(entries: Seq<(Seq<char>, JsonCellView)>, columns: Seq<(usize, String)>)
    ensures
        object_cells(entries, columns).len() > 0 <==> exists|c: int, e: int|
            0 <= c < columns.len() && 0 <= e < entries.len() && (#[trigger] columns[c]).1@ == (
            #[trigger] entries[e]).0,
    decreases columns.len(),
{
    if columns.len() > 0 {
        let front = columns.drop_last();
        let name = columns.last().1@;
        lemma_some_cells(entries, front);
        lemma_entry_from(entries, name, 0);
        let n = columns.len() - 1;
        if object_cells(entries, front).len() > 0 {
            let (c, e) = choose|c: int, e: int|
                0 <= c < front.len() && 0 <= e < entries.len() && (#[trigger] front[c]).1@ == (
                #[trigger] entries[e]).0;
            assert(columns[c].1@ == entries[e].0);
        } else if let Some(at) = entry_from(entries, name, 0) {
            assert(columns[n].1@ == entries[at].0);
        } else {
            assert forall|c: int, e: int|
                0 <= c < columns.len() && 0 <= e < entries.len() implies (
            #[trigger] columns[c]).1@ != (#[trigger] entries[e]).0 by {
                if c < n {
                    assert(front[c] == columns[c]);
                    assert(front[c].1@ != entries[e].0);
                } else {
                    assert(entries[e].0 != name);
                }
            }
        }
    }
}

/// A document is rows exactly where it is an array of objects, not an empty one,
/// and a key of one of them is the name of a column. Then there is a row for each
/// object.
pub proof fn law_arrays_of_objects_are_rows(
    document: Option<JsonDocument>,
    columns: &[(usize, String)],
    r: Option<Vec<Vec<(usize, String)>>>,
    items: Seq<JsonItemView>,
)
    requires
        call_ensures(json_rows, (document, columns), r),
        document is Some ==> (document->0@.items matches Some(list) ==> list == items),
    ensures
        r is Some <==> {
            &&& document is Some
            &&& document->0@.items is Some
            &&& items.len() > 0
            &&& forall|i: int| 0 <= i < items.len() ==> (#[trigger] items[i]) is Object
            &&& exists|i: int, c: int, e: int|
                {
                    &&& 0 <= i < items.len()
                    &&& 0 <= c < columns@.len()
                    &&& 0 <= e < items[i]->Object_0.len()
                    &&& (#[trigger] columns@[c]).1@ == (#[trigger] items[i]->Object_0[e]).0
                }
        },
        r matches Some(rows) ==> {
            &&& rows@.len() == items.len()
            &&& forall|i: int|
                0 <= i < items.len() ==> cell_texts((#[trigger] rows@[i])@) == object_cells(
                    items[i]->Object_0,
                    columns@,
                )
        },
{
    assert forall|i: int| 0 <= i < items.len() implies (object_cells(
        (#[trigger] items[i])->Object_0,
        columns@,
    ).len() > 0) == (exists|c: int, e: int|
        0 <= c < columns@.len() && 0 <= e < items[i]->Object_0.len() && (
        #[trigger] columns@[c]).1@ == (#[trigger] items[i]->Object_0[e]).0) by {
        lemma_some_cells(items[i]->Object_0, columns@);
    }
    if matches_some_column(items, columns@) {
        let i = choose|i: int|
            0 <= i < items.len() && object_cells((#[trigger] items[i])->Object_0, columns@).len()
                > 0;
        let (c, e) = choose|c: int, e: int|
            0 <= c < columns@.len() && 0 <= e < items[i]->Object_0.len() && (
            #[trigger] columns@[c]).1@ == (#[trigger] items[i]->Object_0[e]).0;
        assert(columns@[c].1@ == items[i]->Object_0[e].0);
    }
    if exists|i: int, c: int, e: int|
        {
            &&& 0 <= i < items.len()
            &&& 0 <= c < columns@.len()
            &&& 0 <= e < items[i]->Object_0.len()
            &&& (#[trigger] columns@[c]).1@ == (#[trigger] items[i]->Object_0[e]).0
        } {
        let (i, c, e) = choose|i: int, c: int, e: int|
            {
                &&& 0 <= i < items.len()
                &&& 0 <= c < columns@.len()
                &&& 0 <= e < items[i]->Object_0.len()
                &&& (#[trigger] columns@[c]).1@ == (#[trigger] items[i]->Object_0[e]).0
            };
        assert(object_cells(items[i]->Object_0, columns@).len() > 0);
    }
    if let Some(rows) = r {
        let views = rows_view(r)->0;
        assert(views.len() == rows@.len());
        assert forall|i: int| 0 <= i < items.len() implies cell_texts((#[trigger] rows@[i])@)
            == object_cells(items[i]->Object_0, columns@) by {
            assert(views[i] == cell_texts(rows@[i]@));
        }
    }
}

/// A header is dropped exactly where it repeats the columns and rows follow it.
pub proof fn law_headers_are_dropped_before_rows(
    rows: Vec<Vec<String>>,
    headers: &[String],
    r: Vec<Vec<String>>,
)
    requires
        call_ensures(without_matching_header, (rows, headers), r),
        rows@.len() > 0,
    ensures
        rows@.len() > 1 && rows@[0]@.len() == headers@.len() && (forall|i: int|
            0 <= i < headers@.len() ==> (#[trigger] rows@[0]@[i])@ == headers@[i]@) ==> r@
            == rows@.skip(1),
        rows@.len() == 1 ==> r@ == rows@,
        rows@[0]@.len() != headers@.len() ==> r@ == rows@,
        forall|i: int|
            0 <= i < headers@.len() && i < rows@[0]@.len() && (#[trigger] rows@[0]@[i])@
                != headers@[i]@ ==> r@ == rows@,
{
    let first = texts(rows@[0]@);
    let names = texts(headers@);
    assert(first.len() == rows@[0]@.len());
    assert(names.len() == headers@.len());
    assert forall|i: int|
        0 <= i < headers@.len() && i < rows@[0]@.len() && (#[trigger] rows@[0]@[i])@
            != headers@[i]@ implies r@ == rows@ by {
        assert(first[i] == rows@[0]@[i]@ && names[i] == headers@[i]@);
    }
    if rows@[0]@.len() == headers@.len() && (forall|i: int|
        0 <= i < headers@.len() ==> (#[trigger] rows@[0]@[i])@ == headers@[i]@) {
        assert(first =~= names) by {
            assert forall|i: int| 0 <= i < first.len() implies first[i] == names[i] by {
                assert(first[i] == rows@[0]@[i]@);
            }
        }
    }
}

/// Rows that were copied as text are the rows that are read, cell by cell.
pub proof fn law_pasted_text_is_the_copied_rows(
    text: &str,
    r: Vec<Vec<String>>,
    rows: Seq<Seq<Seq<char>>>,
    carriage_return: bool,
    trailing: nat,
    i: int,
    j: int,
)
    requires
        call_ensures(clipboard_rows, (text,), r),
        text@ == copied(rows, carriage_return, trailing),
        has_plain_cells(rows),
        rows.len() == 1 || rows.last() != seq![Seq::<char>::empty()],
        0 <= i < rows.len(),
        0 <= j < rows[i].len(),
    ensures
        r@.len() == rows.len(),
        r@[i]@.len() == rows[i].len(),
        r@[i]@[j]@ == rows[i][j],
{
    law_copied_rows_are_pasted(rows, carriage_return, trailing);
    let views = row_texts(r@);
    assert(views.len() == r@.len());
    assert(views[i] == texts(r@[i]@));
    assert(views[i].len() == r@[i]@.len());
    assert(views[i][j] == r@[i]@[j]@);
}

/// Pasted JSON is read as the document that its trimmed text is.
pub proof fn law_pasted_json_is_its_document(
    text: &str,
    columns: &[(usize, String)],
    document: Option<JsonDocument>,
    r: Option<Vec<Vec<(usize, String)>>>,
    same: Option<Vec<Vec<(usize, String)>>>,
)
    requires
        call_ensures(clipboard_json_rows, (text, columns), r),
        document is Some <==> parsed_json(trim_of(text@)) is Some,
        document is Some ==> document->0@ == parsed_json(trim_of(text@))->0,
        call_ensures(json_rows, (document, columns), same),
    ensures
        rows_view(r) == rows_view(same),
{
}

} // verus!
