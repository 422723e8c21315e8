//! How the grid shows its header, its rows and its cells.
use vstd::prelude::*;

use crate::browse::SortDirection;
use crate::data_grid::{DataGrid, DataGridView};
use crate::editing::in_foreign_key;
use crate::foreign_key_editing::{all_unavailable, ForeignKeyNavigationOption};
use crate::grid::{CellPosition, CellRange};
use crate::schema::among;
use crate::text::{
    chars_of, contains, has, lower, lowercased, nat_text, text_of, to_lower, to_lowercase, u64_text,
};
use crate::value::{cell_text, shown_text};

verus! {

/// The number of columns that stay in place when the grid is scrolled.
pub const FROZEN_COLUMNS: usize = 1;

/// The colours that the grid uses.
#[derive(Clone, Copy, Debug, PartialEq, Eq, Structural)]
pub enum Tint {
    Panel,
    PanelMuted,
    Accent,
    AccentSoft,
    AccentForeground,
    InsertSoft,
    UpdateSoft,
    DeleteSoft,
    Warn,
    Prod,
    Muted,
    Secondary,
}

// ---------------------------------------------------------------------
// Types
// ---------------------------------------------------------------------
/// Whether a type is that of numbers or ids.
pub open spec fn is_number_like(kind: Seq<char>) -> bool {
    ||| has(kind, "int"@)
    ||| has(kind, "serial"@)
    ||| has(kind, "numeric"@)
    ||| has(kind, "decimal"@)
    ||| has(kind, "real"@)
    ||| has(kind, "double"@)
    ||| has(kind, "float"@)
    ||| has(kind, "uuid"@)
}

/// Whether a type is that of documents.
pub open spec fn is_document_like(kind: Seq<char>) -> bool {
    ||| has(kind, "json"@)
    ||| has(kind, "object"@)
    ||| has(kind, "array"@)
    ||| has(kind, "map"@)
}

/// The icon of a column: its role in a key, or else its type.
pub open spec fn type_icon(data_type: Seq<char>, primary_key: bool, foreign_key: bool) -> Seq<
    char,
> {
    let kind = lower(data_type);
    if primary_key {
        "icons/type-key.svg"@
    } else if foreign_key {
        "icons/type-link.svg"@
    } else if is_number_like(kind) {
        "icons/type-hash.svg"@
    } else if has(kind, "date"@) || has(kind, "time"@) {
        "icons/type-calendar.svg"@
    } else if has(kind, "bool"@) {
        "icons/type-bool.svg"@
    } else if is_document_like(kind) {
        "icons/type-json.svg"@
    } else {
        "icons/type-text.svg"@
    }
}

/// The tint of the icon of a column.
pub open spec fn type_tint(primary_key: bool, foreign_key: bool) -> Tint {
    if primary_key {
        Tint::Warn
    } else if foreign_key {
        Tint::Accent
    } else {
        Tint::Muted
    }
}

/// The glyph and tint a column header uses for its engine-native type. Shared
/// with the schema tree, which lists columns under a table.
pub fn column_type_icon(data_type: &str, primary_key: bool, foreign_key: bool) -> (r: (
    &'static str,
    Tint,
))
    ensures
        r.0@ == type_icon(data_type@, primary_key, foreign_key),
        r.1 == type_tint(primary_key, foreign_key),
{
    if primary_key {
        return ("icons/type-key.svg", Tint::Warn);
    }
    if foreign_key {
        return ("icons/type-link.svg", Tint::Accent);
    }
    let lowered = to_lower(data_type);
    let kind = lowered.as_slice();
    if contains(kind, "int") || contains(kind, "serial") || contains(kind, "numeric") || contains(
        kind,
        "decimal",
    ) || contains(kind, "real") || contains(kind, "double") || contains(kind, "float") || contains(
        kind,
        "uuid",
    ) {
        ("icons/type-hash.svg", Tint::Muted)
    } else if contains(kind, "date") || contains(kind, "time") {
        ("icons/type-calendar.svg", Tint::Muted)
    } else if contains(kind, "bool") {
        ("icons/type-bool.svg", Tint::Muted)
    } else if contains(kind, "json") || contains(kind, "object") || contains(kind, "array")
        || contains(kind, "map") {
        ("icons/type-json.svg", Tint::Muted)
    } else {
        ("icons/type-text.svg", Tint::Muted)
    }
}

// ---------------------------------------------------------------------
// Texts on one line
// ---------------------------------------------------------------------
/// A text with a mark in place of every line break.
pub open spec fn on_one_line(s: Seq<char>) -> Seq<char>
    decreases s.len(),
{
    if s.len() == 0 {
        s
    } else if s.len() >= 2 && s[0] == '\r' && s[1] == '\n' {
        seq!['⏎'] + on_one_line(s.skip(2))
    } else if s[0] == '\r' || s[0] == '\n' {
        seq!['⏎'] + on_one_line(s.skip(1))
    } else {
        seq![s[0]] + on_one_line(s.skip(1))
    }
}

pub fn inline_text(text: &str) -> (r: String)
    ensures
        r@ == on_one_line(text@),
{
    let chars = chars_of(text);
    let mut out: Vec<char> = Vec::new();
    let mut i: usize = 0;
    assert(chars@.skip(0) =~= chars@);
    assert(out@ + on_one_line(chars@) =~= on_one_line(text@));
    while i < chars.len()
        invariant
            i <= chars@.len(),
            out@ + on_one_line(chars@.skip(i as int)) == on_one_line(text@),
        decreases chars@.len() - i,
    {
        let ghost rest = chars@.skip(i as int);
        let ghost before = out@;
        assert(rest.skip(1) =~= chars@.skip(i + 1));
        assert(rest[0] == chars@[i as int]);
        if chars[i] == '\r' && chars.len() - i >= 2 && chars[i + 1] == '\n' {
            assert(rest.skip(2) =~= chars@.skip(i + 2));
            assert(rest[1] == chars@[i + 1]);
            out.push('⏎');
            assert(out@ + on_one_line(rest.skip(2)) =~= before + on_one_line(rest));
            i += 2;
        } else if chars[i] == '\r' || chars[i] == '\n' {
            out.push('⏎');
            assert(out@ + on_one_line(rest.skip(1)) =~= before + on_one_line(rest));
            i += 1;
        } else {
            out.push(chars[i]);
            assert(out@ + on_one_line(rest.skip(1)) =~= before + on_one_line(rest));
            i += 1;
        }
    }
    assert(out@ =~= on_one_line(text@));
    text_of(out.as_slice())
}

/// A cell is shown on one line.
pub proof fn law_cells_are_on_one_line(s: Seq<char>)
    ensures
        !on_one_line(s).contains('\n'),
        !on_one_line(s).contains('\r'),
        !s.contains('\n') && !s.contains('\r') ==> on_one_line(s) == s,
    decreases s.len(),
{
    if s.len() > 0 {
        let rest = if s.len() >= 2 && s[0] == '\r' && s[1] == '\n' {
            s.skip(2)
        } else {
            s.skip(1)
        };
        law_cells_are_on_one_line(rest);
        let line = on_one_line(s);
        let tail = on_one_line(rest);
        assert forall|i: int| 0 <= i < line.len() implies line[i] != '\n' && line[i] != '\r' by {
            if i > 0 {
                assert(line[i] == tail[i - 1]);
                assert(tail.contains(tail[i - 1]));
            }
        }
        if !s.contains('\n') && !s.contains('\r') {
            assert(s[0] != '\n' && s[0] != '\r');
            assert forall|c: char| rest.contains(c) implies s.contains(c) by {
                let i = rest.index_of(c);
                assert(s[i + 1] == c);
            }
            assert(line =~= s);
        }
    }
}

// ---------------------------------------------------------------------
// Headers
// ---------------------------------------------------------------------
/// How the header of a column is shown.
pub struct HeaderLook {
    pub type_icon: &'static str,
    pub type_tint: Tint,
    pub type_label: String,
    pub sorted: bool,
    pub sort_icon: &'static str,
    pub sort_tint: Tint,
}

/// Whether the grid is sorted by a column.
pub open spec fn sorted_by(v: DataGridView, column: usize) -> bool {
    v.sort matches Some((sorted, _)) && sorted == column
}

/// The icon of the direction that a column is sorted in: up where it is not.
pub open spec fn sort_icon(v: DataGridView, column: usize) -> Seq<char> {
    if v.sort == Some((column, SortDirection::Desc)) {
        "icons/sort-desc.svg"@
    } else {
        "icons/sort-asc.svg"@
    }
}

/// Whether a column belongs to the primary key of the table, and whether to a
/// foreign key; neither where the grid is not that of a table.
pub open spec fn key_flags(v: DataGridView, column: int) -> (bool, bool) {
    match v.editable {
        Some(e) => (
            among(e.table.primary_key@, v.columns[column].name@),
            in_foreign_key(e.table.foreign_keys@, v.columns[column].name@),
        ),
        None => (false, false),
    }
}

impl DataGrid {
    /// How the header of a column is shown.
    pub fn header_look(&self, column: usize) -> (r: HeaderLook)
        requires
            self.wf(),
            column < self@.columns.len(),
        ensures
            ({
                let (primary_key, foreign_key) = key_flags(self@, column as int);
                let data_type = self@.columns[column as int].data_type@;
                &&& r.type_icon@ == type_icon(data_type, primary_key, foreign_key)
                &&& r.type_tint == type_tint(primary_key, foreign_key)
                &&& r.type_label@ == lowercased(data_type)
            }),
            r.sorted == sorted_by(self@, column),
            r.sort_icon@ == sort_icon(self@, column),
            r.sort_tint == (if r.sorted {
                Tint::Accent
            } else {
                Tint::Muted
            }),
    {
        let meta = &self.result().columns[column];
        let (primary_key, foreign_key) = match self.editable() {
            Some(editable) => editable.column_flags(meta.name.as_str()),
            None => (false, false),
        };
        let (icon, tint) = column_type_icon(meta.data_type.as_str(), primary_key, foreign_key);
        let (sorted, down) = match self.sort() {
            Some((by, direction)) => (
                by == column,
                by == column && match direction {
                    SortDirection::Desc => true,
                    SortDirection::Asc => false,
                },
            ),
            None => (false, false),
        };
        HeaderLook {
            type_icon: icon,
            type_tint: tint,
            type_label: to_lowercase(meta.data_type.as_str()),
            sorted,
            sort_icon: if down {
                "icons/sort-desc.svg"
            } else {
                "icons/sort-asc.svg"
            },
            sort_tint: if sorted {
                Tint::Accent
            } else {
                Tint::Muted
            },
        }
    }

    /// The number of columns that stay in place.
    pub fn frozen_columns(&self) -> (r: usize)
        ensures
            r == (if self@.columns.len() < FROZEN_COLUMNS {
                self@.columns.len() as int
            } else {
                FROZEN_COLUMNS as int
            }),
    {
        let total: usize = self.result().columns.len();
        if total < FROZEN_COLUMNS {
            total
        } else {
            FROZEN_COLUMNS
        }
    }
}

// ---------------------------------------------------------------------
// Rows
// ---------------------------------------------------------------------
/// The background of a row that nothing was done to: every other row is darker
/// where rows are striped.
pub open spec fn plain_background(stripe_rows: bool, row: int) -> Tint {
    if !stripe_rows || row % 2 == 0 {
        Tint::Panel
    } else {
        Tint::PanelMuted
    }
}

pub fn row_background(stripe_rows: bool, row: usize) -> (r: Tint)
    ensures
        r == plain_background(stripe_rows, row as int),
{
    if !stripe_rows || row % 2 == 0 {
        Tint::Panel
    } else {
        Tint::PanelMuted
    }
}

/// The background of a row that is neither inserted nor deleted.
pub open spec fn selected_background(v: DataGridView, row: usize) -> Tint {
    if v.selected_rows.contains(row) {
        Tint::AccentSoft
    } else {
        plain_background(v.stripe_rows, row as int)
    }
}

pub open spec fn row_deleted(v: DataGridView, row: int) -> bool {
    v.editable matches Some(e) && e.is_deleted(row)
}

pub open spec fn row_inserted(v: DataGridView, row: int) -> bool {
    v.editable matches Some(e) && e.is_inserted(row)
}

/// The tint of a row: what happens to it comes before whether it is selected.
pub open spec fn row_tint(v: DataGridView, row: usize) -> Tint {
    if row_deleted(v, row as int) {
        Tint::DeleteSoft
    } else if row_inserted(v, row as int) {
        Tint::InsertSoft
    } else {
        selected_background(v, row)
    }
}

/// How a row is shown.
pub struct RowLook {
    pub tint: Tint,
    /// The number of the row, from 1 on.
    pub number: String,
    /// The background and the colour of the number; no background of its own
    /// where the row is neither selected nor holds the selected cell.
    pub number_background: Option<Tint>,
    pub number_tint: Tint,
}

/// The background of the number of a row.
pub open spec fn number_background(v: DataGridView, row: usize) -> Option<Tint> {
    if v.selected_rows.contains(row) {
        Some(Tint::Accent)
    } else if v.selection matches Some(position) && position.row == row {
        Some(Tint::AccentSoft)
    } else {
        None
    }
}

impl DataGrid {
    fn base_tint(&self, row: usize) -> (r: Tint)
        requires
            self.wf(),
        ensures
            r == selected_background(self@, row),
    {
        if self.row_selected(row) {
            Tint::AccentSoft
        } else {
            row_background(self.stripe_rows(), row)
        }
    }

    fn fate(&self, row: usize) -> (r: (bool, bool))
        requires
            self.wf(),
        ensures
            r.0 == row_deleted(self@, row as int),
            r.1 == row_inserted(self@, row as int),
    {
        match self.editable() {
            Some(editable) => (editable.row_deleted(row), editable.row_inserted(row)),
            None => (false, false),
        }
    }

    /// How a row is shown.
    pub fn row_look(&self, row: usize) -> (r: RowLook)
        requires
            self.wf(),
            row < self@.rows.len(),
        ensures
            r.tint == row_tint(self@, row),
            r.number@ == nat_text((row + 1) as nat),
            r.number_background == number_background(self@, row),
            r.number_tint == (if self@.selected_rows.contains(row) {
                Tint::AccentForeground
            } else {
                Tint::Muted
            }),
    {
        let (deleted, inserted) = self.fate(row);
        let selected = self.row_selected(row);
        let current = match self.selection() {
            Some(position) => position.row == row,
            None => false,
        };
        let rows: usize = self.result().rows.len();
        assert(row < rows);
        RowLook {
            tint: if deleted {
                Tint::DeleteSoft
            } else if inserted {
                Tint::InsertSoft
            } else {
                self.base_tint(row)
            },
            number: u64_text(row as u64 + 1),
            number_background: if selected {
                Some(Tint::Accent)
            } else if current {
                Some(Tint::AccentSoft)
            } else {
                None
            },
            number_tint: if selected {
                Tint::AccentForeground
            } else {
                Tint::Muted
            },
        }
    }
}

// ---------------------------------------------------------------------
// Cells
// ---------------------------------------------------------------------
/// How the link of a foreign key in a cell is shown.
#[derive(Clone, Copy, Debug, PartialEq, Eq, Structural)]
pub enum LinkLook {
    /// The cell has none.
    Absent,
    /// The link can be followed.
    Active,
    /// The link can be followed, and leads nowhere: the cell is NULL.
    Muted,
    /// The link cannot be followed.
    Unavailable,
}

/// How a cell is shown.
pub struct CellLook {
    pub text: String,
    pub is_null: bool,
    pub pending: bool,
    pub link: LinkLook,
    pub background: Tint,
    pub text_tint: Tint,
}

/// The pending text of a cell.
pub open spec fn pending_text(v: DataGridView, row: int, column: usize) -> Option<
    Option<Seq<char>>,
> {
    match v.editable {
        Some(e) => e.displayed(row, column),
        None => None,
    }
}

/// The text that a cell shows, and whether that is NULL.
pub open spec fn cell_content(v: DataGridView, row: int, column: usize) -> (Seq<char>, bool) {
    match pending_text(v, row, column) {
        Some(Some(text)) => (text, false),
        Some(None) => (v.null_display, true),
        None => if row < v.rows.len() && column < v.rows[row].len() {
            let value = v.rows[row][column as int];
            (shown_text(value, v.null_display), value is Null)
        } else {
            (v.null_display, true)
        },
    }
}

/// How the link of a cell is shown.
pub open spec fn cell_link(v: DataGridView, row: int, column: usize) -> LinkLook {
    match v.editable {
        None => LinkLook::Absent,
        Some(e) => if column >= v.columns.len() || !in_foreign_key(
            e.table.foreign_keys@,
            v.columns[column as int].name@,
        ) {
            LinkLook::Absent
        } else if all_unavailable(e, v.columns[column as int].name@) {
            LinkLook::Unavailable
        } else if cell_content(v, row, column).1 {
            LinkLook::Muted
        } else {
            LinkLook::Active
        },
    }
}

/// The background of a cell: what happens to its row comes first, then its own
/// edit, then whether it is selected.
pub open spec fn cell_background(v: DataGridView, row: usize, column: usize, selected: bool) -> Tint {
    if row_deleted(v, row as int) {
        Tint::DeleteSoft
    } else if row_inserted(v, row as int) {
        Tint::InsertSoft
    } else if pending_text(v, row as int, column) is Some {
        Tint::UpdateSoft
    } else if selected {
        Tint::AccentSoft
    } else {
        selected_background(v, row)
    }
}

impl DataGrid {
    /// How a cell is shown. `cells` are the selected ones.
    pub fn cell_look(&self, row: usize, column: usize, cells: Option<CellRange>) -> (r: CellLook)
        requires
            self.wf(),
        ensures
            r.text@ == on_one_line(cell_content(self@, row as int, column).0),
            r.is_null == cell_content(self@, row as int, column).1,
            r.pending == pending_text(self@, row as int, column) is Some,
            r.link == cell_link(self@, row as int, column),
            r.background == cell_background(
                self@,
                row,
                column,
                cells matches Some(range) && range.holds(CellPosition { row, column }),
            ),
            r.text_tint == (if row_deleted(self@, row as int) {
                Tint::Prod
            } else if r.is_null {
                Tint::Muted
            } else {
                Tint::Secondary
            }),
    {
        let shown = match self.editable() {
            Some(editable) => editable.display_value(row, column),
            None => None,
        };
        let pending = shown.is_some();
        let (text, is_null) = match shown {
            Some(Some(text)) => (text, false),
            Some(None) => (self.null_display().to_owned(), true),
            None => {
                let rows = &self.result().rows;
                if row < rows.len() && column < rows[row].len() {
                    assert(self@.rows[row as int][column as int]
                        == rows@[row as int]@[column as int]@);
                    (cell_text(&rows[row][column], self.null_display()), rows[row][column].is_null())
                } else {
                    (self.null_display().to_owned(), true)
                }
            },
        };
        let link = match self.editable() {
            None => LinkLook::Absent,
            Some(editable) => if column >= self.result().columns.len() {
                LinkLook::Absent
            } else {
                let name = &self.result().columns[column].name;
                if !editable.column_flags(name.as_str()).1 {
                    LinkLook::Absent
                } else if editable.column_unavailable(name.as_str()) {
                    LinkLook::Unavailable
                } else if is_null {
                    LinkLook::Muted
                } else {
                    LinkLook::Active
                }
            },
        };
        let (deleted, inserted) = self.fate(row);
        let selected = match cells {
            Some(range) => range.contains(CellPosition { row, column }),
            None => false,
        };
        CellLook {
            text: inline_text(text.as_str()),
            is_null,
            pending,
            link,
            background: if deleted {
                Tint::DeleteSoft
            } else if inserted {
                Tint::InsertSoft
            } else if pending {
                Tint::UpdateSoft
            } else if selected {
                Tint::AccentSoft
            } else {
                self.base_tint(row)
            },
            text_tint: if deleted {
                Tint::Prod
            } else if is_null {
                Tint::Muted
            } else {
                Tint::Secondary
            },
        }
    }
}

// ---------------------------------------------------------------------
// The list of foreign keys
// ---------------------------------------------------------------------
/// The second line of an option: why it cannot be chosen.
pub open spec fn option_note(option: ForeignKeyNavigationOption) -> Option<Seq<char>> {
    match option.lookup {
        Ok(_) => None,
        Err(why) => Some("Unavailable: "@ + why@),
    }
}

pub fn unavailable_note(option: &ForeignKeyNavigationOption) -> (r: Option<String>)
    ensures
        crate::value::opt_text(r) == option_note(*option),
{
    match &option.lookup {
        Ok(_) => None,
        Err(why) => {
            let mut note = "Unavailable: ".to_owned();
            note.append(why.as_str());
            Some(note)
        },
    }
}

// ---------------------------------------------------------------------
// Laws
// ---------------------------------------------------------------------
/// A cell whose value is edited shows the edit, and shows it as one unless its
/// row is inserted or deleted.
pub proof fn law_edits_are_marked(v: DataGridView, row: usize, column: usize, selected: bool)
    requires
        pending_text(v, row as int, column) is Some,
    ensures
        cell_content(v, row as int, column).1 == (pending_text(v, row as int, column)->0 is None),
        cell_background(v, row, column, selected) != selected_background(v, row),
{
}

/// The icon of a column shows its part in a key, else the kind of its type.
pub proof fn law_icons_show_keys_before_types(
    data_type: &str,
    primary_key: bool,
    foreign_key: bool,
    r: (&'static str, Tint),
)
    requires
        call_ensures(column_type_icon, (data_type, primary_key, foreign_key), r),
    ensures
        ({
            let kind = lower(data_type@);
            let number = has(kind, "int"@) || has(kind, "serial"@) || has(kind, "numeric"@) || has(
                kind,
                "decimal"@,
            ) || has(kind, "real"@) || has(kind, "double"@) || has(kind, "float"@) || has(
                kind,
                "uuid"@,
            );
            let moment = has(kind, "date"@) || has(kind, "time"@);
            let document = has(kind, "json"@) || has(kind, "object"@) || has(kind, "array"@) || has(
                kind,
                "map"@,
            );
            &&& primary_key ==> r.0@ == "icons/type-key.svg"@ && r.1 == Tint::Warn
            &&& !primary_key && foreign_key ==> r.0@ == "icons/type-link.svg"@ && r.1
                == Tint::Accent
            &&& !primary_key && !foreign_key ==> {
                &&& r.1 == Tint::Muted
                &&& number ==> r.0@ == "icons/type-hash.svg"@
                &&& !number && moment ==> r.0@ == "icons/type-calendar.svg"@
                &&& !number && !moment && has(kind, "bool"@) ==> r.0@ == "icons/type-bool.svg"@
                &&& !number && !moment && has(kind, "bool"@) == false && document ==> r.0@
                    == "icons/type-json.svg"@
                &&& !number && !moment && has(kind, "bool"@) == false && !document ==> r.0@
                    == "icons/type-text.svg"@
            }
        }),
{
}

/// A text on one line has the characters that the text has, in their order, but
/// for its line breaks, each of which is one mark; a carriage return with a line
/// feed behind it is one line break.
pub proof fn law_line_breaks_are_marked(before: char, after: Seq<char>)
    ensures
        on_one_line(Seq::empty()) == Seq::<char>::empty(),
        before != '\r' && before != '\n' ==> on_one_line(seq![before] + after) == seq![before]
            + on_one_line(after),
        on_one_line(seq!['\n'] + after) == seq!['⏎'] + on_one_line(after),
        on_one_line(seq!['\r', '\n'] + after) == seq!['⏎'] + on_one_line(after),
        after.len() == 0 || after[0] != '\n' ==> on_one_line(seq!['\r'] + after) == seq!['⏎']
            + on_one_line(after),
{
    assert((seq![before] + after).skip(1) =~= after);
    assert((seq!['\n'] + after).skip(1) =~= after);
    assert((seq!['\r'] + after).skip(1) =~= after);
    assert((seq!['\r', '\n'] + after).skip(2) =~= after);
}

/// The header of a column tells how the grid is sorted by it, and its type in
/// lower case.
pub proof fn law_headers_show_the_sort(grid: &DataGrid, column: usize, r: HeaderLook)
    requires
        grid.wf(),
        column < grid@.columns.len(),
        call_ensures(DataGrid::header_look, (grid, column), r),
    ensures
        r.sorted <==> (grid@.sort is Some && (grid@.sort->0).0 == column),
        r.sort_tint == Tint::Accent <==> r.sorted,
        r.sorted && (grid@.sort->0).1 == SortDirection::Desc ==> r.sort_icon@
            == "icons/sort-desc.svg"@,
        !r.sorted || (grid@.sort->0).1 == SortDirection::Asc ==> r.sort_icon@
            == "icons/sort-asc.svg"@,
        r.type_label@ == lowercased(grid@.columns[column as int].data_type@),
        grid@.editable is None ==> r.type_tint == Tint::Muted,
        grid@.editable matches Some(e) && among(
            e.table.primary_key@,
            grid@.columns[column as int].name@,
        ) ==> r.type_tint == Tint::Warn && r.type_icon@ == "icons/type-key.svg"@,
{
}

/// The first column stays in place, where there is one.
pub proof fn law_the_first_column_stays(grid: &DataGrid, r: usize)
    requires
        call_ensures(DataGrid::frozen_columns, (grid,), r),
    ensures
        grid@.columns.len() == 0 ==> r == 0,
        grid@.columns.len() > 0 ==> r == 1,
{
}

/// Stripes fall on every other row, from the second on, and on none where they
/// are off.
pub proof fn law_every_other_row_is_striped(stripe_rows: bool, row: usize, k: int, r: Tint)
    requires
        call_ensures(row_background, (stripe_rows, row), r),
    ensures
        row == 2 * k ==> r == Tint::Panel,
        row == 2 * k + 1 && stripe_rows ==> r == Tint::PanelMuted,
        !stripe_rows ==> r == Tint::Panel,
{
}

/// A row is shown as deleted, else as inserted, else as selected. Its number
/// counts from 1.
pub proof fn law_rows_show_what_happens_to_them(grid: &DataGrid, row: usize, r: RowLook)
    requires
        grid.wf(),
        row < grid@.rows.len(),
        call_ensures(DataGrid::row_look, (grid, row), r),
    ensures
        ({
            let deleted = grid@.editable matches Some(e) && e.is_deleted(row as int);
            let inserted = grid@.editable matches Some(e) && e.is_inserted(row as int);
            let selected = grid@.selected_rows.contains(row);
            &&& deleted ==> r.tint == Tint::DeleteSoft
            &&& !deleted && inserted ==> r.tint == Tint::InsertSoft
            &&& !deleted && !inserted && selected ==> r.tint == Tint::AccentSoft
            &&& !deleted && !inserted && !selected && !(grid@.stripe_rows && row % 2 == 1) ==> r.tint
                == Tint::Panel
            &&& !deleted && !inserted && !selected && grid@.stripe_rows && row % 2 == 1 ==> r.tint
                == Tint::PanelMuted
            &&& r.number@ == nat_text((row + 1) as nat)
            &&& selected ==> r.number_background == Some(Tint::Accent) && r.number_tint
                == Tint::AccentForeground
            &&& !selected ==> r.number_tint == Tint::Muted
            &&& !selected && (grid@.selection is Some && (grid@.selection->0).row == row)
                ==> r.number_background == Some(Tint::AccentSoft)
            &&& !selected && !(grid@.selection is Some && (grid@.selection->0).row == row)
                ==> r.number_background is None
        }),
{
}

/// A cell shows its pending text, or else its value. It is tinted by what happens
/// to its row, then by its edit, then by the selection.
pub proof fn law_cells_show_their_edits_before_their_values(
    grid: &DataGrid,
    row: usize,
    column: usize,
    cells: Option<CellRange>,
    r: CellLook,
)
    requires
        grid.wf(),
        call_ensures(DataGrid::cell_look, (grid, row, column, cells), r),
    ensures
        ({
            let pending = match grid@.editable {
                Some(e) => e.displayed(row as int, column),
                None => None,
            };
            let deleted = grid@.editable matches Some(e) && e.is_deleted(row as int);
            let inserted = grid@.editable matches Some(e) && e.is_inserted(row as int);
            &&& r.pending <==> pending is Some
            &&& pending matches Some(Some(text)) ==> r.text@ == on_one_line(text) && !r.is_null
            &&& pending == Some(None::<Seq<char>>) ==> r.is_null && r.text@ == on_one_line(
                grid@.null_display,
            )
            &&& pending is None && row < grid@.rows.len() && column < grid@.rows[row as int].len() ==> {
                let value = grid@.rows[row as int][column as int];
                r.text@ == on_one_line(shown_text(value, grid@.null_display)) && (r.is_null <==> value
                    is Null)
            }
            &&& deleted ==> r.background == Tint::DeleteSoft && r.text_tint == Tint::Prod
            &&& !deleted && r.is_null ==> r.text_tint == Tint::Muted
            &&& !deleted && !r.is_null ==> r.text_tint == Tint::Secondary
            &&& !deleted && inserted ==> r.background == Tint::InsertSoft
            &&& !deleted && !inserted && r.pending ==> r.background == Tint::UpdateSoft
            &&& !deleted && !inserted && !r.pending && grid@.selected_rows.contains(row)
                ==> r.background == Tint::AccentSoft
            &&& !deleted && !inserted && !r.pending && (cells matches Some(range) && range.holds(
                CellPosition { row, column },
            )) ==> r.background == Tint::AccentSoft
        }),
{
}

/// A cell has a link exactly where its column belongs to a foreign key. The link
/// is muted in a NULL.
pub proof fn law_foreign_key_cells_have_links(
    grid: &DataGrid,
    row: usize,
    column: usize,
    cells: Option<CellRange>,
    r: CellLook,
)
    requires
        grid.wf(),
        call_ensures(DataGrid::cell_look, (grid, row, column, cells), r),
        column < grid@.columns.len(),
    ensures
        r.link == LinkLook::Absent <==> !(grid@.editable matches Some(e) && in_foreign_key(
            e.table.foreign_keys@,
            grid@.columns[column as int].name@,
        )),
        r.link == LinkLook::Muted ==> r.is_null,
        r.link == LinkLook::Active ==> !r.is_null,
        r.link == LinkLook::Unavailable ==> all_unavailable(
            grid@.editable->0,
            grid@.columns[column as int].name@,
        ),
        r.link == LinkLook::Muted || r.link == LinkLook::Active ==> !all_unavailable(
            grid@.editable->0,
            grid@.columns[column as int].name@,
        ),
{
}

/// An option that cannot be chosen says why; one that can says nothing.
pub proof fn law_unavailable_options_say_why(option: &ForeignKeyNavigationOption, r: Option<String>)
    requires
        call_ensures(unavailable_note, (option,), r),
    ensures
        option.lookup is Ok ==> r is None,
        option.lookup matches Err(why) ==> (r matches Some(note) && note@ == "Unavailable: "@ + why@),
{
}

} // verus!
