//! The menus of the grid and the texts that they copy.
use vstd::prelude::*;

use crate::cell_input::{is_guid, is_guid_type, pending_cell_value, pending_value, readings_of};
use crate::data_grid::{copy_capture, report_of, DataGrid, DataGridView};
use crate::editing::{in_foreign_key, EditableGrid, GridView};
use crate::foreign_key::{ForeignKeyLookupRequest, LookupRequestView};
use crate::foreign_key_editing::OptionView;
use crate::grid::CellRange;
use crate::ordered_map::OrderedMap;
use crate::query::QueryResult;
use crate::schema::copy_texts;
use crate::text::{chars_of, nat_text, push_u64, space, text_of, trim_end};
use crate::value::{
    cell_edit_text, opt_text, plain_text, row_values, values, CellValue, ColumnMeta, FloatCell, Row,
    ValueView,
};
use crate::workspace_model::TableTarget;

verus! {

/// The format that rows are copied in.
#[derive(Clone, Copy, Debug, PartialEq, Eq, Structural)]
pub enum ExportFormat {
    Csv,
    Tsv,
    Json,
    Sql,
}

/// What choosing an item does.
#[allow(inconsistent_fields)]
pub enum MenuAction {
    /// The item separates the ones before it from the ones after it.
    Separator,
    /// The item is shown, and cannot be chosen.
    Unavailable,
    Copy(String),
    CopyRows { rows: Vec<usize>, format: ExportFormat, header: bool },
    FindUsages { target: TableTarget, column: Option<String> },
    FollowKey { lookup: ForeignKeyLookupRequest, focus_column: String },
    GenerateGuid { row: usize, column: usize },
    DeleteSelectedRows,
}

/// An item of a menu.
pub struct MenuItem {
    pub label: String,
    pub action: MenuAction,
}

/// The model of [`MenuAction`].
#[allow(inconsistent_fields)]
pub enum ActionView {
    Separator,
    Unavailable,
    Copy(Seq<char>),
    CopyRows { rows: Seq<usize>, format: ExportFormat, header: bool },
    FindUsages { target: TableTarget, column: Option<Seq<char>> },
    FollowKey { lookup: LookupRequestView, focus_column: Seq<char> },
    GenerateGuid { row: usize, column: usize },
    DeleteSelectedRows,
}

/// The model of [`MenuItem`].
pub struct ItemView {
    pub label: Seq<char>,
    pub action: ActionView,
}

impl View for MenuItem {
    type V = ItemView;

    open spec fn view(&self) -> ItemView {
        ItemView {
            label: self.label@,
            action: match self.action {
                MenuAction::Separator => ActionView::Separator,
                MenuAction::Unavailable => ActionView::Unavailable,
                MenuAction::Copy(text) => ActionView::Copy(text@),
                MenuAction::CopyRows { rows, format, header } => ActionView::CopyRows {
                    rows: rows@,
                    format,
                    header,
                },
                MenuAction::FindUsages { target, column } => ActionView::FindUsages {
                    target,
                    column: opt_text(column),
                },
                MenuAction::FollowKey { lookup, focus_column } => ActionView::FollowKey {
                    lookup: lookup@,
                    focus_column: focus_column@,
                },
                MenuAction::GenerateGuid { row, column } => ActionView::GenerateGuid {
                    row,
                    column,
                },
                MenuAction::DeleteSelectedRows => ActionView::DeleteSelectedRows,
            },
        }
    }
}

pub open spec fn item_views(items: Seq<MenuItem>) -> Seq<ItemView> {
    items.map_values(|item: MenuItem| item@)
}

fn concat(a: &str, b: &str, c: &str) -> (r: String)
    ensures
        r@ == a@ + b@ + c@,
{
    let mut out = a.to_owned();
    out.append(b);
    out.append(c);
    out
}

fn add_item(items: &mut Vec<MenuItem>, label: String, action: MenuAction)
    ensures
        final(items)@ == old(items)@.push(MenuItem { label, action }),
        item_views(final(items)@) == item_views(old(items)@).push((MenuItem { label, action })@),
{
    let ghost before = items@;
    items.push(MenuItem { label, action });
    assert(item_views(items@) =~= item_views(before).push((MenuItem { label, action })@));
}

// ---------------------------------------------------------------------
// The menu of a header
// ---------------------------------------------------------------------
/// The item that looks for the usages of something.
pub open spec fn usages_item(
    name: Seq<char>,
    target: TableTarget,
    column: Option<Seq<char>>,
) -> ItemView {
    ItemView {
        label: "Find Usages of "@ + name,
        action: ActionView::FindUsages { target, column },
    }
}

/// The menu of the header of a column; empty where there is no such column.
pub open spec fn header_menu(v: DataGridView, column: int) -> Seq<ItemView> {
    if column >= v.columns.len() {
        Seq::empty()
    } else {
        let name = v.columns[column].name@;
        let usages = match v.editable {
            Some(e) => seq![
                usages_item(name, e.target, Some(name)),
                usages_item(e.target.table@, e.target, None),
            ],
            None => Seq::empty(),
        };
        usages.push(ItemView { label: "Copy column name"@, action: ActionView::Copy(name) })
    }
}

// ---------------------------------------------------------------------
// The menu of a cell
// ---------------------------------------------------------------------
/// The text of a cell, its pending one where it has one; empty for NULL.
pub open spec fn displayed_text(v: DataGridView, row: int, column: usize) -> Seq<char> {
    let pending = match v.editable {
        Some(e) => e.displayed(row, column),
        None => None,
    };
    match pending {
        Some(Some(text)) => text,
        Some(None) => Seq::empty(),
        None => if row < v.rows.len() && column < v.rows[row].len() {
            plain_text(v.rows[row][column as int])
        } else {
            Seq::empty()
        },
    }
}

/// The item of a foreign key.
pub open spec fn key_item(option: OptionView) -> ItemView {
    match option.lookup {
        Ok((lookup, focus_column)) => ItemView {
            label: "Open "@ + option.label,
            action: ActionView::FollowKey { lookup, focus_column },
        },
        Err(why) => ItemView {
            label: "Open "@ + option.label + " ("@ + why + ")"@,
            action: ActionView::Unavailable,
        },
    }
}

/// The items of the foreign keys of a cell.
pub open spec fn key_items(v: DataGridView, row: int, column: int) -> Seq<ItemView> {
    if v.editable is None || column >= v.columns.len() || !in_foreign_key(
        v.editable->0.table.foreign_keys@,
        v.columns[column].name@,
    ) {
        Seq::empty()
    } else {
        match v.offer(row, column) {
            Ok(options) => options.map_values(|option: OptionView| key_item(option)),
            Err(why) => seq![
                ItemView {
                    label: "Open referenced row ("@ + why + ")"@,
                    action: ActionView::Unavailable,
                },
            ],
        }
    }
}

/// Whether a cell can be given a new UUID.
pub open spec fn takes_guid(v: DataGridView, row: int, column: int) -> bool {
    &&& column < v.columns.len()
    &&& is_guid(v.columns[column].data_type@)
    &&& v.editable matches Some(e) && !e.is_deleted(row)
}

/// The menu of a cell.
pub open spec fn cell_menu(v: DataGridView, row: usize, column: usize) -> Seq<ItemView> {
    let copy = ItemView {
        label: "Copy cell"@,
        action: ActionView::Copy(displayed_text(v, row as int, column)),
    };
    let items = seq![copy] + key_items(v, row as int, column as int);
    if takes_guid(v, row as int, column as int) {
        items.push(
            ItemView {
                label: "Generate new GUID"@,
                action: ActionView::GenerateGuid { row, column },
            },
        )
    } else {
        items
    }
}

// ---------------------------------------------------------------------
// The menu of a row
// ---------------------------------------------------------------------
/// The rows that the menu of a row is for: the selected ones where the row is
/// among them.
pub open spec fn menu_rows(v: DataGridView, row: usize) -> Seq<usize> {
    if v.selected_rows.contains(row) {
        v.selected_rows
    } else {
        seq![row]
    }
}

/// How the rows are called.
pub open spec fn rows_label(n: nat) -> Seq<char> {
    if n > 1 {
        nat_text(n) + " rows"@
    } else {
        "row"@
    }
}

/// Whether all of these rows are marked for deletion.
pub open spec fn all_deleted(e: GridView, rows: Seq<usize>) -> bool {
    forall|i: int| 0 <= i < rows.len() ==> e.is_deleted(#[trigger] rows[i] as int)
}

/// What deleting these rows is called.
pub open spec fn delete_label(e: GridView, rows: Seq<usize>, row: int) -> Seq<char> {
    if rows.len() > 1 {
        if all_deleted(e, rows) {
            "Unmark "@ + nat_text(rows.len()) + " rows for delete"@
        } else {
            "Delete "@ + nat_text(rows.len()) + " rows"@
        }
    } else if e.is_deleted(row) {
        "Unmark row for delete"@
    } else if e.is_inserted(row) {
        "Cancel insert"@
    } else {
        "Delete row"@
    }
}

/// The item that copies rows.
pub open spec fn copy_item(
    label: Seq<char>,
    rows: Seq<usize>,
    format: ExportFormat,
    header: bool,
) -> ItemView {
    ItemView { label, action: ActionView::CopyRows { rows, format, header } }
}

/// The numbers below `n`.
pub open spec fn up_to(n: nat) -> Seq<usize> {
    Seq::new(n, |i: int| i as usize)
}

/// The items that copy the rows.
pub open spec fn copy_items(rows: Seq<usize>) -> Seq<ItemView> {
    let what = "Copy "@ + rows_label(rows.len());
    seq![
        copy_item(what + " as CSV"@, rows, ExportFormat::Csv, false),
        copy_item(what + " as TSV"@, rows, ExportFormat::Tsv, false),
        copy_item(what + " as JSON"@, rows, ExportFormat::Json, false),
        copy_item(what + " as SQL INSERT"@, rows, ExportFormat::Sql, false),
    ]
}

/// The item that separates.
pub open spec fn separator() -> ItemView {
    ItemView { label: Seq::empty(), action: ActionView::Separator }
}

/// The menu of a row: what copies the rows, and what deletes them, or copies all
/// rows where the grid is not that of a table.
pub open spec fn row_menu(v: DataGridView, row: usize) -> Seq<ItemView> {
    let rows = menu_rows(v, row);
    let all = up_to(v.rows.len());
    copy_items(rows) + match v.editable {
        Some(e) => seq![
            separator(),
            ItemView {
                label: delete_label(e, rows, row as int),
                action: ActionView::DeleteSelectedRows,
            },
        ],
        None => seq![
            separator(),
            copy_item("Copy all rows as CSV"@, all, ExportFormat::Csv, true),
            copy_item("Copy all rows as JSON"@, all, ExportFormat::Json, true),
            copy_item("Copy all rows as SQL INSERT"@, all, ExportFormat::Sql, true),
        ],
    }
}

fn copy_rows(rows: &[usize]) -> (r: Vec<usize>)
    ensures
        r@ == rows@,
{
    let mut out: Vec<usize> = Vec::new();
    let mut i: usize = 0;
    while i < rows.len()
        invariant
            i <= rows@.len(),
            out@ == rows@.take(i as int),
        decreases rows@.len() - i,
    {
        out.push(rows[i]);
        assert(rows@.take(i + 1) =~= rows@.take(i as int).push(rows@[i as int]));
        i += 1;
    }
    assert(rows@.take(i as int) =~= rows@);
    out
}

fn below(n: usize) -> (r: Vec<usize>)
    ensures
        r@ == up_to(n as nat),
{
    let mut out: Vec<usize> = Vec::new();
    let mut i: usize = 0;
    while i < n
        invariant
            i <= n,
            out@ == up_to(i as nat),
        decreases n - i,
    {
        out.push(i);
        assert(up_to((i + 1) as nat) =~= up_to(i as nat).push(i));
        i += 1;
    }
    out
}

fn rows_text(n: usize) -> (r: String)
    ensures
        r@ == rows_label(n as nat),
{
    if n > 1 {
        let mut out = String::new();
        push_u64(&mut out, n as u64);
        out.append(" rows");
        assert(out@ =~= rows_label(n as nat));
        out
    } else {
        "row".to_owned()
    }
}

fn every_deleted(editable: &EditableGrid, rows: &[usize]) -> (r: bool)
    requires
        editable.wf(),
    ensures
        r == all_deleted(editable@, rows@),
{
    let mut i: usize = 0;
    while i < rows.len()
        invariant
            i <= rows@.len(),
            editable.wf(),
            forall|k: int| 0 <= k < i ==> editable@.is_deleted(#[trigger] rows@[k] as int),
        decreases rows@.len() - i,
    {
        if !editable.row_deleted(rows[i]) {
            assert(!editable@.is_deleted(rows@[i as int] as int));
            return false;
        }
        i += 1;
    }
    true
}

fn delete_text(editable: &EditableGrid, rows: &[usize], row: usize) -> (r: String)
    requires
        editable.wf(),
    ensures
        r@ == delete_label(editable@, rows@, row as int),
{
    if rows.len() > 1 {
        let mut count = String::new();
        push_u64(&mut count, rows.len() as u64);
        assert(count@ =~= nat_text(rows@.len()));
        if every_deleted(editable, rows) {
            concat("Unmark ", count.as_str(), " rows for delete")
        } else {
            concat("Delete ", count.as_str(), " rows")
        }
    } else if editable.row_deleted(row) {
        "Unmark row for delete".to_owned()
    } else if editable.row_inserted(row) {
        "Cancel insert".to_owned()
    } else {
        "Delete row".to_owned()
    }
}

impl DataGrid {
    /// The menu of the header of a column.
    pub fn header_context_menu(&self, column: usize) -> (r: Vec<MenuItem>)
        requires
            self.wf(),
        ensures
            item_views(r@) == header_menu(self@, column as int),
    {
        let mut menu: Vec<MenuItem> = Vec::new();
        assert(item_views(menu@) =~= Seq::<ItemView>::empty());
        if column >= self.result().columns.len() {
            return menu;
        }
        let name = &self.result().columns[column].name;
        if let Some(editable) = self.editable() {
            let target = editable.target();
            add_item(
                &mut menu,
                concat("Find Usages of ", name.as_str(), ""),
                MenuAction::FindUsages { target: target.clone(), column: Some(name.clone()) },
            );
            add_item(
                &mut menu,
                concat("Find Usages of ", target.table.as_str(), ""),
                MenuAction::FindUsages { target: target.clone(), column: None },
            );
            proof {
                reveal_strlit("");
                assert("Find Usages of "@ + name@ + ""@ =~= "Find Usages of "@ + name@);
                assert("Find Usages of "@ + target.table@ + ""@ =~= "Find Usages of "@
                    + target.table@);
            }
        }
        add_item(&mut menu, "Copy column name".to_owned(), MenuAction::Copy(name.clone()));
        assert(item_views(menu@) =~= header_menu(self@, column as int));
        menu
    }

    /// The text of a cell.
    pub fn displayed_cell(&self, row: usize, column: usize) -> (r: String)
        requires
            self.wf(),
        ensures
            r@ == displayed_text(self@, row as int, column),
    {
        let pending = match self.editable() {
            Some(editable) => editable.display_value(row, column),
            None => None,
        };
        match pending {
            Some(Some(text)) => text,
            Some(None) => String::new(),
            None => {
                let rows = &self.result().rows;
                if row < rows.len() && column < rows[row].len() {
                    assert(self@.rows[row as int][column as int] == rows@[row as int]@[column as int]@);
                    cell_edit_text(&rows[row][column])
                } else {
                    String::new()
                }
            },
        }
    }

    fn add_key_items(&self, menu: &mut Vec<MenuItem>, row: usize, column: usize)
        requires
            self.wf(),
        ensures
            item_views(final(menu)@) == item_views(old(menu)@) + key_items(
                self@,
                row as int,
                column as int,
            ),
    {
        let ghost before = item_views(menu@);
        let foreign_key = match self.editable() {
            Some(editable) => if column < self.result().columns.len() {
                editable.column_flags(self.result().columns[column].name.as_str()).1
            } else {
                false
            },
            None => false,
        };
        if !foreign_key {
            assert(before + key_items(self@, row as int, column as int) =~= before);
            return;
        }
        match self.foreign_key_navigation_options(row, column) {
            Err(why) => {
                add_item(
                    menu,
                    concat("Open referenced row (", why.as_str(), ")"),
                    MenuAction::Unavailable,
                );
                assert(item_views(menu@) =~= before + key_items(self@, row as int, column as int));
            },
            Ok(list) => {
                let ghost all = list@;
                let mut options = list;
                while options.len() > 0
                    invariant
                        options@.len() <= all.len(),
                        options@ == all.skip(all.len() - options@.len()),
                        item_views(menu@) == before + Seq::new(
                            (all.len() - options@.len()) as nat,
                            |i: int| key_item(all[i]@),
                        ),
                    decreases options@.len(),
                {
                    let ghost done = (all.len() - options@.len()) as int;
                    let option = options.remove(0);
                    assert(option == all[done]);
                    let ghost was = item_views(menu@);
                    let label = concat("Open ", option.label.as_str(), "");
                    proof {
                        reveal_strlit("");
                        assert("Open "@ + option.label@ + ""@ =~= "Open "@ + option.label@);
                    }
                    match option.lookup {
                        Ok((lookup, focus_column)) => {
                            add_item(menu, label, MenuAction::FollowKey { lookup, focus_column });
                        },
                        Err(why) => {
                            let mut longer = label;
                            longer.append(" (");
                            longer.append(why.as_str());
                            longer.append(")");
                            add_item(menu, longer, MenuAction::Unavailable);
                        },
                    }
                    assert(item_views(menu@) =~= was.push(key_item(all[done]@)));
                    assert(item_views(menu@) =~= before + Seq::new(
                        (done + 1) as nat,
                        |i: int| key_item(all[i]@),
                    ));
                }
                assert(item_views(menu@) =~= before + key_items(self@, row as int, column as int));
            },
        }
    }

    /// The menu of a cell.
    pub fn cell_context_menu(&self, row: usize, column: usize) -> (r: Vec<MenuItem>)
        requires
            self.wf(),
        ensures
            item_views(r@) == cell_menu(self@, row, column),
    {
        let mut menu: Vec<MenuItem> = Vec::new();
        assert(item_views(menu@) =~= Seq::<ItemView>::empty());
        add_item(
            &mut menu,
            "Copy cell".to_owned(),
            MenuAction::Copy(self.displayed_cell(row, column)),
        );
        self.add_key_items(&mut menu, row, column);
        let guid = column < self.result().columns.len() && is_guid_type(
            self.result().columns[column].data_type.as_str(),
        );
        let can_change = match self.editable() {
            Some(editable) => !editable.row_deleted(row),
            None => false,
        };
        if guid && can_change {
            add_item(
                &mut menu,
                "Generate new GUID".to_owned(),
                MenuAction::GenerateGuid { row, column },
            );
        }
        assert(item_views(menu@) =~= cell_menu(self@, row, column));
        menu
    }

    /// The menu of a row.
    pub fn row_context_menu(&self, row: usize) -> (r: Vec<MenuItem>)
        requires
            self.wf(),
        ensures
            item_views(r@) == row_menu(self@, row),
    {
        let mut menu: Vec<MenuItem> = Vec::new();
        assert(item_views(menu@) =~= Seq::<ItemView>::empty());
        let rows = if self.row_selected(row) {
            self.selected_rows()
        } else {
            vec![row]
        };
        assert(rows@ =~= menu_rows(self@, row));
        let what = concat("Copy ", rows_text(rows.len()).as_str(), "");
        proof {
            reveal_strlit("");
            assert(what@ =~= "Copy "@ + rows_label(rows@.len()));
        }
        add_item(
            &mut menu,
            concat(what.as_str(), " as CSV", ""),
            MenuAction::CopyRows {
                rows: copy_rows(rows.as_slice()),
                format: ExportFormat::Csv,
                header: false,
            },
        );
        add_item(
            &mut menu,
            concat(what.as_str(), " as TSV", ""),
            MenuAction::CopyRows {
                rows: copy_rows(rows.as_slice()),
                format: ExportFormat::Tsv,
                header: false,
            },
        );
        add_item(
            &mut menu,
            concat(what.as_str(), " as JSON", ""),
            MenuAction::CopyRows {
                rows: copy_rows(rows.as_slice()),
                format: ExportFormat::Json,
                header: false,
            },
        );
        add_item(
            &mut menu,
            concat(what.as_str(), " as SQL INSERT", ""),
            MenuAction::CopyRows {
                rows: copy_rows(rows.as_slice()),
                format: ExportFormat::Sql,
                header: false,
            },
        );
        proof {
            assert(what@ + " as CSV"@ + ""@ =~= what@ + " as CSV"@);
            assert(what@ + " as TSV"@ + ""@ =~= what@ + " as TSV"@);
            assert(what@ + " as JSON"@ + ""@ =~= what@ + " as JSON"@);
            assert(what@ + " as SQL INSERT"@ + ""@ =~= what@ + " as SQL INSERT"@);
            assert(item_views(menu@) =~= copy_items(rows@));
        }
        let nothing = String::new();
        assert(nothing@ =~= Seq::<char>::empty());
        add_item(&mut menu, nothing, MenuAction::Separator);
        match self.editable() {
            Some(editable) => {
                add_item(
                    &mut menu,
                    delete_text(editable, rows.as_slice(), row),
                    MenuAction::DeleteSelectedRows,
                );
            },
            None => {
                let n: usize = self.result().rows.len();
                add_item(
                    &mut menu,
                    "Copy all rows as CSV".to_owned(),
                    MenuAction::CopyRows { rows: below(n), format: ExportFormat::Csv, header: true },
                );
                add_item(
                    &mut menu,
                    "Copy all rows as JSON".to_owned(),
                    MenuAction::CopyRows {
                        rows: below(n),
                        format: ExportFormat::Json,
                        header: true,
                    },
                );
                add_item(
                    &mut menu,
                    "Copy all rows as SQL INSERT".to_owned(),
                    MenuAction::CopyRows { rows: below(n), format: ExportFormat::Sql, header: true },
                );
            },
        }
        assert(item_views(menu@) =~= row_menu(self@, row));
        menu
    }
}

// ---------------------------------------------------------------------
// Copying rows
// ---------------------------------------------------------------------
/// The floating-point numbers that pending texts write, by row and column.
pub open spec fn float_at(
    floats: OrderedMap<(usize, usize), FloatCell>,
    row: usize,
    column: usize,
) -> Option<(Seq<char>, bool)> {
    if floats.map().contains_key((row, column)) {
        let cell = floats.map()[(row, column)];
        Some((cell.text@, cell.finite))
    } else {
        None
    }
}

/// The value that is copied of a cell: its pending one in the type of the cell,
/// and where NULLs are to be seen, the word for them.
pub open spec fn copied_value(
    v: DataGridView,
    row: usize,
    column: usize,
    nulls_shown: bool,
    floats: OrderedMap<(usize, usize), FloatCell>,
) -> ValueView {
    let before = v.rows[row as int][column as int];
    let pending = match v.editable {
        Some(e) => e.displayed(row as int, column),
        None => None,
    };
    let value = match pending {
        Some(Some(text)) => pending_value(
            v.columns[column as int].data_type@,
            before,
            Some(text),
            readings_of(text, float_at(floats, row, column)),
        ),
        Some(None) => ValueView::Null,
        None => before,
    };
    if nulls_shown && value is Null {
        ValueView::Text("NULL"@)
    } else {
        value
    }
}

/// Where the cells of a row end that lie before `end`.
pub open spec fn row_end(v: DataGridView, row: int, end: int) -> int {
    if v.rows[row].len() < end {
        v.rows[row].len() as int
    } else {
        end
    }
}

/// The values that are copied of a row.
pub open spec fn copied_row(
    v: DataGridView,
    row: usize,
    start: int,
    end: int,
    nulls_shown: bool,
    floats: OrderedMap<(usize, usize), FloatCell>,
) -> Seq<ValueView> {
    let last = row_end(v, row as int, end);
    Seq::new(
        if start < last {
            (last - start) as nat
        } else {
            0
        },
        |i: int| copied_value(v, row, (start + i) as usize, nulls_shown, floats),
    )
}

/// The rows that are copied: those of `rows` that the grid has.
pub open spec fn copied_rows(
    v: DataGridView,
    rows: Seq<usize>,
    start: int,
    end: int,
    nulls_shown: bool,
    floats: OrderedMap<(usize, usize), FloatCell>,
) -> Seq<Seq<ValueView>>
    decreases rows.len(),
{
    if rows.len() == 0 {
        Seq::empty()
    } else {
        let before = copied_rows(v, rows.drop_last(), start, end, nulls_shown, floats);
        if rows.last() < v.rows.len() {
            before.push(copied_row(v, rows.last(), start, end, nulls_shown, floats))
        } else {
            before
        }
    }
}

/// What follows the first line break of CSV; nothing where there is none.
pub open spec fn after_line(s: Seq<char>) -> Seq<char>
    decreases s.len(),
{
    if s.len() < 2 {
        Seq::empty()
    } else if s[0] == '\r' && s[1] == '\n' {
        s.skip(2)
    } else {
        after_line(s.skip(1))
    }
}

/// The text that is copied, from the text of the export, which starts with a
/// header in CSV and TSV.
pub open spec fn copied_text(text: Seq<char>, format: ExportFormat, header: bool) -> Seq<char> {
    if !header && (format == ExportFormat::Csv || format == ExportFormat::Tsv) {
        trim_end(after_line(text))
    } else {
        trim_end(text)
    }
}

fn line_end(chars: &[char]) -> (r: usize)
    ensures
        r <= chars@.len(),
        after_line(chars@) == chars@.skip(r as int),
{
    let mut i: usize = 0;
    assert(chars@.skip(0) =~= chars@);
    while i < chars.len()
        invariant
            i <= chars@.len(),
            after_line(chars@) == after_line(chars@.skip(i as int)),
        decreases chars@.len() - i,
    {
        if chars.len() - i >= 2 && chars[i] == '\r' && chars[i + 1] == '\n' {
            assert(chars@.skip(i as int).skip(2) =~= chars@.skip(i + 2));
            return i + 2;
        }
        assert(chars@.skip(i as int).skip(1) =~= chars@.skip(i + 1));
        i += 1;
    }
    i
}

/// Finishes the text of an export: without the header where none is wanted, and
/// without the space at the end.
pub fn finish_copy(text: &str, format: ExportFormat, header: bool) -> (r: String)
    ensures
        r@ == copied_text(text@, format, header),
{
    let chars = chars_of(text);
    let lines = match format {
        ExportFormat::Csv | ExportFormat::Tsv => true,
        _ => false,
    };
    let start: usize = if !header && lines {
        line_end(chars.as_slice())
    } else {
        0
    };
    let ghost body = chars@.skip(start as int);
    assert(chars@.skip(0) =~= chars@);
    let mut end: usize = chars.len();
    assert(chars@.subrange(start as int, end as int) =~= body);
    while start < end && space(chars[end - 1])
        invariant
            start <= end <= chars@.len(),
            trim_end(body) == trim_end(chars@.subrange(start as int, end as int)),
        decreases end,
    {
        assert(chars@.subrange(start as int, end as int).drop_last() =~= chars@.subrange(
            start as int,
            end as int - 1,
        ));
        end -= 1;
    }
    let mut out: Vec<char> = Vec::new();
    let mut i: usize = start;
    while i < end
        invariant
            start <= i <= end <= chars@.len(),
            out@ == chars@.subrange(start as int, i as int),
        decreases end - i,
    {
        out.push(chars[i]);
        i += 1;
    }
    text_of(out.as_slice())
}

fn copy_range(columns: &[ColumnMeta], start: usize, end: usize) -> (r: Vec<ColumnMeta>)
    requires
        start <= end <= columns@.len(),
    ensures
        r@ == columns@.subrange(start as int, end as int),
{
    let mut out: Vec<ColumnMeta> = Vec::new();
    let mut i: usize = start;
    while i < end
        invariant
            start <= i <= end <= columns@.len(),
            out@ == columns@.subrange(start as int, i as int),
        decreases end - i,
    {
        out.push(columns[i].clone());
        i += 1;
    }
    out
}

impl DataGrid {
    fn copy_value(
        &self,
        row: usize,
        column: usize,
        nulls_shown: bool,
        floats: &OrderedMap<(usize, usize), FloatCell>,
    ) -> (r: CellValue)
        requires
            self.wf(),
            floats.wf(),
            row < self@.rows.len(),
            column < self@.rows[row as int].len(),
            column < self@.columns.len(),
        ensures
            r@ == copied_value(self@, row, column, nulls_shown, *floats),
    {
        let before = &self.result().rows[row][column];
        assert(before@ == self@.rows[row as int][column as int]);
        let pending = match self.editable() {
            Some(editable) => editable.display_value(row, column),
            None => None,
        };
        let value = match pending {
            Some(text) => {
                let float = match floats.get(&(row, column)) {
                    Some(cell) => Some(FloatCell { text: cell.text.clone(), finite: cell.finite }),
                    None => None,
                };
                pending_cell_value(
                    self.result().columns[column].data_type.as_str(),
                    before,
                    text,
                    float,
                )
            },
            None => before.clone(),
        };
        if nulls_shown && value.is_null() {
            CellValue::Text("NULL".to_owned())
        } else {
            value
        }
    }

    fn copy_row(
        &self,
        row: usize,
        start: usize,
        end: usize,
        nulls_shown: bool,
        floats: &OrderedMap<(usize, usize), FloatCell>,
    ) -> (r: Row)
        requires
            self.wf(),
            floats.wf(),
            row < self@.rows.len(),
            start <= end <= self@.columns.len(),
        ensures
            values(r@) == copied_row(
                self@,
                row,
                start as int,
                end as int,
                nulls_shown,
                *floats,
            ),
    {
        let len: usize = self.result().rows[row].len();
        let last: usize = if len < end {
            len
        } else {
            end
        };
        assert(self@.rows[row as int].len() == len);
        let mut out: Row = Vec::new();
        let mut column: usize = start;
        while column < last
            invariant
                start <= column,
                column <= last || column == start,
                last == row_end(self@, row as int, end as int),
                self.wf(),
                floats.wf(),
                row < self@.rows.len(),
                end <= self@.columns.len(),
                out@.len() == column - start,
                forall|i: int|
                    0 <= i < out@.len() ==> (#[trigger] out@[i])@ == copied_value(
                        self@,
                        row,
                        (start + i) as usize,
                        nulls_shown,
                        *floats,
                    ),
            decreases last - column,
        {
            out.push(self.copy_value(row, column, nulls_shown, floats));
            column += 1;
        }
        assert(values(out@) =~= copied_row(
            self@,
            row,
            start as int,
            end as int,
            nulls_shown,
            *floats,
        ));
        out
    }

    /// The part of the result that is copied, with the pending values. `floats`
    /// holds the floating-point numbers that pending texts write.
    pub fn region(
        &self,
        rows: &[usize],
        start: usize,
        end: usize,
        nulls_shown: bool,
        floats: &OrderedMap<(usize, usize), FloatCell>,
    ) -> (r: QueryResult)
        requires
            self.wf(),
            floats.wf(),
            start <= end <= self@.columns.len(),
        ensures
            r.columns@ == self@.columns.subrange(start as int, end as int),
            row_values(r.rows@) == copied_rows(
                self@,
                rows@,
                start as int,
                end as int,
                nulls_shown,
                *floats,
            ),
            report_of(r) == self@.report,
    {
        let result = self.result();
        let mut out: Vec<Row> = Vec::new();
        let mut i: usize = 0;
        assert(row_values(out@) =~= Seq::<Seq<ValueView>>::empty());
        assert(rows@.take(0) =~= Seq::<usize>::empty());
        while i < rows.len()
            invariant
                i <= rows@.len(),
                self.wf(),
                floats.wf(),
                start <= end <= self@.columns.len(),
                row_values(result.rows@) == self@.rows,
                row_values(out@) == copied_rows(
                    self@,
                    rows@.take(i as int),
                    start as int,
                    end as int,
                    nulls_shown,
                    *floats,
                ),
            decreases rows@.len() - i,
        {
            let ghost longer = rows@.take(i + 1);
            assert(longer.drop_last() =~= rows@.take(i as int));
            assert(longer.last() == rows@[i as int]);
            assert(result.rows@.len() == self@.rows.len());
            if rows[i] < result.rows.len() {
                let ghost before = out@;
                let row = self.copy_row(rows[i], start, end, nulls_shown, floats);
                let ghost new = values(row@);
                out.push(row);
                assert(row_values(out@) =~= row_values(before).push(new));
            }
            i += 1;
        }
        assert(rows@.take(i as int) =~= rows@);
        let r = QueryResult {
            columns: copy_range(result.columns.as_slice(), start, end),
            rows: out,
            notices: copy_texts(result.notices.as_slice()),
            notice_capture: copy_capture(&result.notice_capture),
            rows_affected: result.rows_affected,
            duration_ms: result.duration_ms,
            truncated: result.truncated,
            total_rows: result.total_rows,
        };
        assert(report_of(r) =~= self@.report);
        r
    }

    /// The part of the result that the selected cells are.
    pub fn selected_region(
        &self,
        selection: CellRange,
        floats: &OrderedMap<(usize, usize), FloatCell>,
    ) -> (r: QueryResult)
        requires
            self.wf(),
            floats.wf(),
            selection.start.column <= selection.end.column + 1,
            selection.end.column < self@.columns.len(),
        ensures
            r.columns@ == self@.columns.subrange(
                selection.start.column as int,
                selection.end.column + 1,
            ),
            row_values(r.rows@) == copied_rows(
                self@,
                rows_between(selection.start.row as int, selection.end.row as int),
                selection.start.column as int,
                selection.end.column + 1,
                true,
                *floats,
            ),
            report_of(r) == self@.report,
    {
        let mut rows: Vec<usize> = Vec::new();
        if selection.start.row <= selection.end.row {
            let mut row: usize = selection.start.row;
            rows.push(row);
            assert(rows@ =~= rows_between(selection.start.row as int, row as int));
            while row < selection.end.row
                invariant
                    selection.start.row <= row <= selection.end.row,
                    rows@ == rows_between(selection.start.row as int, row as int),
                decreases selection.end.row - row,
            {
                row += 1;
                rows.push(row);
                assert(rows@ =~= rows_between(selection.start.row as int, row as int));
            }
        }
        assert(rows@ =~= rows_between(selection.start.row as int, selection.end.row as int));
        let columns: usize = self.result().columns.len();
        assert(selection.end.column < columns);
        self.region(
            rows.as_slice(),
            selection.start.column,
            selection.end.column + 1,
            true,
            floats,
        )
    }
}

/// The rows from `first` to `last`, both included.
pub open spec fn rows_between(first: int, last: int) -> Seq<usize> {
    Seq::new(
        if first <= last {
            (last - first + 1) as nat
        } else {
            0
        },
        |i: int| (first + i) as usize,
    )
}

// ---------------------------------------------------------------------
// Laws
// ---------------------------------------------------------------------
/// Where NULLs are to be seen, no copied value is NULL.
pub proof fn law_copied_cells_show_nulls(
    v: DataGridView,
    row: usize,
    column: usize,
    floats: OrderedMap<(usize, usize), FloatCell>,
)
    ensures
        !(copied_value(v, row, column, true, floats) is Null),
{
}

/// A grid without changes copies the values that it holds.
pub proof fn law_an_unchanged_row_is_copied(
    v: DataGridView,
    row: usize,
    floats: OrderedMap<(usize, usize), FloatCell>,
)
    requires
        !v.has_pending(),
        row < v.rows.len(),
        v.rows[row as int].len() <= v.columns.len(),
        v.rows[row as int].len() <= usize::MAX,
    ensures
        copied_row(v, row, 0, v.columns.len() as int, false, floats) == v.rows[row as int],
{
    let copy = copied_row(v, row, 0, v.columns.len() as int, false, floats);
    assert forall|i: int| 0 <= i < copy.len() implies #[trigger] copy[i] == v.rows[row as int][i] by {
        if v.editable is Some {
            assert(v.editable->0.displayed(row as int, i as usize) is None);
        }
    }
    assert(copy =~= v.rows[row as int]);
}

/// The menu of a header copies the name of its column, and in the grid of a table
/// looks for the usages of the column and of the table.
pub proof fn law_headers_offer_their_column(grid: &DataGrid, column: usize, menu: Vec<MenuItem>)
    requires
        grid.wf(),
        call_ensures(DataGrid::header_context_menu, (grid, column), menu),
        column < grid@.columns.len(),
    ensures
        menu@.len() == (if grid@.editable is Some {
            3int
        } else {
            1
        }),
        menu@.last().label@ == "Copy column name"@,
        menu@.last().action matches MenuAction::Copy(text) && text@
            == grid@.columns[column as int].name@,
        grid@.editable matches Some(e) ==> {
            &&& menu@[0].label@ == "Find Usages of "@ + grid@.columns[column as int].name@
            &&& menu@[0].action matches MenuAction::FindUsages { target, column: of }
            &&& target == e.target
            &&& opt_text(of) == Some(grid@.columns[column as int].name@)
            &&& menu@[1].label@ == "Find Usages of "@ + e.target.table@
            &&& menu@[1].action matches MenuAction::FindUsages { target: all, column: none }
            &&& all == e.target
            &&& none is None
        },
{
    let views = item_views(menu@);
    assert(views.len() == menu@.len());
    assert(views[menu@.len() - 1] == menu@.last()@);
    if grid@.editable is Some {
        assert(views[0] == menu@[0]@);
        assert(views[1] == menu@[1]@);
    }
}

/// A cell is copied as its pending text, or else as its value is written. NULL is
/// empty.
pub proof fn law_cells_are_copied_as_they_are_edited(
    grid: &DataGrid,
    row: usize,
    column: usize,
    text: String,
)
    requires
        grid.wf(),
        call_ensures(DataGrid::displayed_cell, (grid, row, column), text),
    ensures
        ({
            let pending = match grid@.editable {
                Some(e) => e.displayed(row as int, column),
                None => None,
            };
            &&& pending matches Some(Some(typed)) ==> text@ == typed
            &&& pending == Some(None::<Seq<char>>) ==> text@.len() == 0
            &&& pending is None && row < grid@.rows.len() && column < grid@.rows[row as int].len()
                ==> text@ == plain_text(grid@.rows[row as int][column as int])
            &&& pending is None && !(row < grid@.rows.len() && column
                < grid@.rows[row as int].len()) ==> text@.len() == 0
        }),
{
}

/// The menu of a cell starts with what copies its text, and ends with what gives
/// it a new UUID exactly where its column holds them and its row stays.
pub proof fn law_cells_offer_their_text_first(
    grid: &DataGrid,
    row: usize,
    column: usize,
    text: String,
    menu: Vec<MenuItem>,
    guid: bool,
)
    requires
        grid.wf(),
        call_ensures(DataGrid::displayed_cell, (grid, row, column), text),
        call_ensures(DataGrid::cell_context_menu, (grid, row, column), menu),
        column < grid@.columns.len(),
        guid == is_guid(grid@.columns[column as int].data_type@),
    ensures
        menu@.len() > 0,
        menu@[0].label@ == "Copy cell"@,
        menu@[0].action matches MenuAction::Copy(copied) && copied@ == text@,
        guid && (grid@.editable matches Some(e) && !e.is_deleted(row as int)) ==> {
            &&& menu@.last().label@ == "Generate new GUID"@
            &&& menu@.last().action == (MenuAction::GenerateGuid { row, column })
        },
        !(guid && (grid@.editable matches Some(e) && !e.is_deleted(row as int))) ==> forall|i: int|
            0 <= i < menu@.len() ==> !((#[trigger] menu@[i]).action is GenerateGuid),
{
    let views = item_views(menu@);
    assert(views.len() == menu@.len());
    assert(views[0] == menu@[0]@);
    assert(views[menu@.len() - 1] == menu@.last()@);
    let keys = key_items(grid@, row as int, column as int);
    if !takes_guid(grid@, row as int, column as int) {
        assert forall|i: int| 0 <= i < menu@.len() implies !((
        #[trigger] menu@[i]).action is GenerateGuid) by {
            assert(views[i] == menu@[i]@);
            if i > 0 {
                assert(views[i] == keys[i - 1]);
            }
        }
    }
}

/// The menu of a cell has an item for each option that its foreign keys offer: one
/// that follows the key, or one that says why it cannot be followed.
pub proof fn law_cells_offer_their_foreign_keys(
    grid: &DataGrid,
    row: usize,
    column: usize,
    menu: Vec<MenuItem>,
    options: Seq<OptionView>,
    k: int,
)
    requires
        grid.wf(),
        call_ensures(DataGrid::cell_context_menu, (grid, row, column), menu),
        column < grid@.columns.len(),
        grid@.editable matches Some(e) && in_foreign_key(
            e.table.foreign_keys@,
            grid@.columns[column as int].name@,
        ),
        grid@.offer(row as int, column as int) == Ok::<Seq<OptionView>, Seq<char>>(options),
        0 <= k < options.len(),
    ensures
        k + 1 < menu@.len(),
        options[k].lookup matches Ok((lookup, focus)) ==> {
            &&& menu@[k + 1].label@ == "Open "@ + options[k].label
            &&& menu@[k + 1].action matches MenuAction::FollowKey { lookup: to, focus_column }
            &&& to@ == lookup
            &&& focus_column@ == focus
        },
        options[k].lookup matches Err(why) ==> {
            &&& menu@[k + 1].label@ == "Open "@ + options[k].label + " ("@ + why + ")"@
            &&& menu@[k + 1].action is Unavailable
        },
{
    let views = item_views(menu@);
    assert(views.len() == menu@.len());
    let keys = key_items(grid@, row as int, column as int);
    assert(keys.len() == options.len());
    assert(keys[k] == key_item(options[k]));
    assert(views[k + 1] == keys[k]);
    assert(views[k + 1] == menu@[k + 1]@);
}

/// The menu of a row copies the selected rows where the row is among them, and the
/// row alone where it is not: in each format, without a header.
pub proof fn law_rows_are_copied_in_every_format(
    grid: &DataGrid,
    row: usize,
    menu: Vec<MenuItem>,
    k: int,
)
    requires
        grid.wf(),
        call_ensures(DataGrid::row_context_menu, (grid, row), menu),
        0 <= k < 4,
    ensures
        menu@.len() > 4,
        ({
            let rows = if grid@.selected_rows.contains(row) {
                grid@.selected_rows
            } else {
                seq![row]
            };
            let what = if rows.len() > 1 {
                "Copy "@ + (nat_text(rows.len()) + " rows"@)
            } else {
                "Copy "@ + "row"@
            };
            &&& menu@[k].action matches MenuAction::CopyRows { rows: copied, format, header }
            &&& copied@ == rows
            &&& !header
            &&& format == (if k == 0 {
                ExportFormat::Csv
            } else if k == 1 {
                ExportFormat::Tsv
            } else if k == 2 {
                ExportFormat::Json
            } else {
                ExportFormat::Sql
            })
            &&& menu@[k].label@ == (if k == 0 {
                what + " as CSV"@
            } else if k == 1 {
                what + " as TSV"@
            } else if k == 2 {
                what + " as JSON"@
            } else {
                what + " as SQL INSERT"@
            })
        }),
{
    let views = item_views(menu@);
    assert(views.len() == menu@.len());
    assert(views[k] == menu@[k]@);
    assert(views[k] == copy_items(menu_rows(grid@, row))[k]);
}

/// Behind a separator, the menu of a row of a table deletes the rows or takes the
/// mark back, and is called so; that of any other row copies all rows with a
/// header.
pub proof fn law_row_menus_end_with_what_concerns_the_table(
    grid: &DataGrid,
    row: usize,
    menu: Vec<MenuItem>,
    j: int,
)
    requires
        grid.wf(),
        call_ensures(DataGrid::row_context_menu, (grid, row), menu),
        grid@.rows.len() <= usize::MAX,
        0 <= j < grid@.rows.len(),
    ensures
        menu@[4].action is Separator,
        grid@.editable matches Some(e) ==> {
            let rows = if grid@.selected_rows.contains(row) {
                grid@.selected_rows
            } else {
                seq![row]
            };
            let marked = all_deleted(e, rows);
            let label = menu@[5].label@;
            &&& menu@.len() == 6
            &&& menu@[5].action is DeleteSelectedRows
            &&& rows.len() > 1 && marked ==> label == "Unmark "@ + nat_text(rows.len())
                + " rows for delete"@
            &&& rows.len() > 1 && !marked ==> label == "Delete "@ + nat_text(rows.len()) + " rows"@
            &&& rows.len() <= 1 && e.is_deleted(row as int) ==> label == "Unmark row for delete"@
            &&& rows.len() <= 1 && !e.is_deleted(row as int) && e.is_inserted(row as int) ==> label
                == "Cancel insert"@
            &&& rows.len() <= 1 && !e.is_deleted(row as int) && !e.is_inserted(row as int) ==> label
                == "Delete row"@
        },
        grid@.editable is None ==> {
            &&& menu@.len() == 8
            &&& menu@[5].label@ == "Copy all rows as CSV"@
            &&& menu@[6].label@ == "Copy all rows as JSON"@
            &&& menu@[7].label@ == "Copy all rows as SQL INSERT"@
            &&& menu@[5].action matches MenuAction::CopyRows { rows: a, format: x, header: h }
            &&& menu@[6].action matches MenuAction::CopyRows { rows: b, format: y, header: i }
            &&& menu@[7].action matches MenuAction::CopyRows { rows: c, format: z, header: k }
            &&& h && i && k
            &&& x == ExportFormat::Csv && y == ExportFormat::Json && z == ExportFormat::Sql
            &&& a@.len() == b@.len() == c@.len() == grid@.rows.len()
            &&& a@[j] == j && b@[j] == j && c@[j] == j
        },
{
    let views = item_views(menu@);
    assert(views.len() == menu@.len());
    assert(views[4] == menu@[4]@);
    assert(views[5] == menu@[5]@);
    if grid@.editable is None {
        assert(views[6] == menu@[6]@);
        assert(views[7] == menu@[7]@);
        assert(up_to(grid@.rows.len())[j] == j as usize);
    }
}

/// A copied value is the pending one where there is one, read in the type of the
/// cell, and else the value itself. NULL is a word where it is to be seen.
pub proof fn law_copied_values_are_the_edited_ones(
    v: DataGridView,
    row: usize,
    column: usize,
    nulls_shown: bool,
    floats: OrderedMap<(usize, usize), FloatCell>,
)
    ensures
        ({
            let pending = match v.editable {
                Some(e) => e.displayed(row as int, column),
                None => None,
            };
            let before = v.rows[row as int][column as int];
            let copied = copied_value(v, row, column, nulls_shown, floats);
            &&& pending is None && !(before is Null) ==> copied == before
            &&& pending is None && before is Null && !nulls_shown ==> copied is Null
            &&& pending is None && before is Null && nulls_shown ==> copied == ValueView::Text(
                "NULL"@,
            )
            &&& pending == Some(None::<Seq<char>>) && nulls_shown ==> copied == ValueView::Text(
                "NULL"@,
            )
            &&& pending == Some(None::<Seq<char>>) && !nulls_shown ==> copied is Null
            &&& pending matches Some(Some(text)) ==> {
                &&& before is Text || before is Bytes ==> copied == ValueView::Text(text)
                &&& before is Numeric ==> copied == ValueView::Numeric(text)
            }
        }),
{
}

proof fn lemma_copied_rows(
    v: DataGridView,
    before: Seq<usize>,
    row: usize,
    after: Seq<usize>,
    start: int,
    end: int,
    nulls_shown: bool,
    floats: OrderedMap<(usize, usize), FloatCell>,
)
    ensures
        copied_rows(v, before + seq![row] + after, start, end, nulls_shown, floats) == copied_rows(
            v,
            before,
            start,
            end,
            nulls_shown,
            floats,
        ) + (if row < v.rows.len() {
            seq![copied_row(v, row, start, end, nulls_shown, floats)]
        } else {
            Seq::empty()
        }) + copied_rows(v, after, start, end, nulls_shown, floats),
    decreases after.len(),
{
    let all = before + seq![row] + after;
    let mid = if row < v.rows.len() {
        seq![copied_row(v, row, start, end, nulls_shown, floats)]
    } else {
        Seq::empty()
    };
    if after.len() > 0 {
        lemma_copied_rows(v, before, row, after.drop_last(), start, end, nulls_shown, floats);
        assert(all.drop_last() =~= before + seq![row] + after.drop_last());
        assert(all.last() == after.last());
    } else {
        assert(all.drop_last() =~= before);
        assert(all.last() == row);
    }
    assert(copied_rows(v, all, start, end, nulls_shown, floats) =~= copied_rows(
        v,
        before,
        start,
        end,
        nulls_shown,
        floats,
    ) + mid + copied_rows(v, after, start, end, nulls_shown, floats));
}

/// A region has the columns from its start to before its end, and of each row that
/// is asked for and there, in the order asked for, the cells under them.
pub proof fn law_regions_are_the_cells_asked_for(
    grid: &DataGrid,
    rows: &[usize],
    start: usize,
    end: usize,
    nulls_shown: bool,
    floats: &OrderedMap<(usize, usize), FloatCell>,
    r: QueryResult,
    before: Seq<usize>,
    row: usize,
    after: Seq<usize>,
    column: int,
) -> (k: int)
    requires
        grid.wf(),
        floats.wf(),
        start <= end <= grid@.columns.len(),
        call_ensures(DataGrid::region, (grid, rows, start, end, nulls_shown, floats), r),
        rows@ == before + seq![row] + after,
        row < grid@.rows.len(),
        start <= column < end,
        column < grid@.rows[row as int].len(),
    ensures
        r.columns@.len() == end - start,
        r.columns@[column - start] == grid@.columns[column],
        0 <= k < r.rows@.len() <= rows@.len(),
        k <= before.len(),
        (forall|i: int| 0 <= i < rows@.len() ==> #[trigger] rows@[i] < grid@.rows.len()) ==> k
            == before.len() && r.rows@.len() == rows@.len(),
        column - start < r.rows@[k]@.len() <= end - start,
        r.rows@[k]@[column - start]@ == copied_value(
            grid@,
            row,
            column as usize,
            nulls_shown,
            *floats,
        ),
{
    let v = grid@;
    let a = copied_rows(v, before, start as int, end as int, nulls_shown, *floats);
    let one = copied_row(v, row, start as int, end as int, nulls_shown, *floats);
    lemma_copied_rows(v, before, row, after, start as int, end as int, nulls_shown, *floats);
    lemma_copied_count(v, before, start as int, end as int, nulls_shown, *floats);
    lemma_copied_count(v, rows@, start as int, end as int, nulls_shown, *floats);
    let k = a.len() as int;
    let views = row_values(r.rows@);
    assert(views.len() == r.rows@.len());
    assert(views[k] == one);
    assert(views[k] == values(r.rows@[k]@));
    assert(views[k].len() == r.rows@[k]@.len());
    assert(views[k][column - start] == r.rows@[k]@[column - start]@);
    if forall|i: int| 0 <= i < rows@.len() ==> #[trigger] rows@[i] < v.rows.len() {
        assert forall|i: int| 0 <= i < before.len() implies #[trigger] before[i] < v.rows.len() by {
            assert(rows@[i] == before[i]);
        }
    }
    k
}

proof fn lemma_copied_count(
    v: DataGridView,
    rows: Seq<usize>,
    start: int,
    end: int,
    nulls_shown: bool,
    floats: OrderedMap<(usize, usize), FloatCell>,
)
    ensures
        copied_rows(v, rows, start, end, nulls_shown, floats).len() <= rows.len(),
        (forall|i: int| 0 <= i < rows.len() ==> #[trigger] rows[i] < v.rows.len()) ==> copied_rows(
            v,
            rows,
            start,
            end,
            nulls_shown,
            floats,
        ).len() == rows.len(),
    decreases rows.len(),
{
    if rows.len() > 0 {
        let front = rows.drop_last();
        lemma_copied_count(v, front, start, end, nulls_shown, floats);
        if forall|i: int| 0 <= i < rows.len() ==> #[trigger] rows[i] < v.rows.len() {
            assert forall|i: int| 0 <= i < front.len() implies #[trigger] front[i] < v.rows.len() by {
                assert(rows[i] == front[i]);
            }
            assert(rows[rows.len() - 1] < v.rows.len());
        }
    }
}

/// The selected cells are the rows from the first to the last and the columns from
/// the first to the last, with the edits, and NULL as a word.
pub proof fn law_selected_cells_are_copied(
    grid: &DataGrid,
    selection: CellRange,
    floats: &OrderedMap<(usize, usize), FloatCell>,
    r: QueryResult,
    row: int,
    column: int,
)
    requires
        grid.wf(),
        floats.wf(),
        selection.start.column <= selection.end.column + 1,
        selection.end.column < grid@.columns.len(),
        selection.end.row < grid@.rows.len(),
        call_ensures(DataGrid::selected_region, (grid, selection, floats), r),
        selection.start.row <= row <= selection.end.row,
        selection.start.column <= column <= selection.end.column,
        column < grid@.rows[row].len(),
    ensures
        r.columns@.len() == selection.end.column - selection.start.column + 1,
        r.columns@[column - selection.start.column] == grid@.columns[column],
        r.rows@.len() == selection.end.row - selection.start.row + 1,
        column - selection.start.column < r.rows@[row - selection.start.row]@.len(),
        r.rows@[row - selection.start.row]@[column - selection.start.column]@ == copied_value(
            grid@,
            row as usize,
            column as usize,
            true,
            *floats,
        ),
{
    let v = grid@;
    let first = selection.start.row as int;
    let start = selection.start.column as int;
    let end = selection.end.column + 1;
    let rows = rows_between(first, selection.end.row as int);
    let k = row - first;
    let before = rows.take(k);
    let after = rows.skip(k + 1);
    assert(rows[k] == row as usize);
    assert(rows =~= before + seq![row as usize] + after);
    lemma_copied_rows(v, before, row as usize, after, start, end, true, *floats);
    assert forall|i: int| 0 <= i < rows.len() implies #[trigger] rows[i] < v.rows.len() by {}
    assert forall|i: int| 0 <= i < before.len() implies #[trigger] before[i] < v.rows.len() by {
        assert(before[i] == rows[i]);
    }
    lemma_copied_count(v, rows, start, end, true, *floats);
    lemma_copied_count(v, before, start, end, true, *floats);
    let views = row_values(r.rows@);
    assert(views.len() == r.rows@.len());
    assert(views[k] == copied_row(v, row as usize, start, end, true, *floats));
    assert(views[k] == values(r.rows@[k]@));
    assert(views[k].len() == r.rows@[k]@.len());
    assert(views[k][column - start] == r.rows@[k]@[column - start]@);
}

proof fn lemma_after_line(line: Seq<char>, rest: Seq<char>)
    requires
        forall|i: int|
            0 <= i < line.len() - 1 ==> !(#[trigger] line[i] == '\r' && line[i + 1] == '\n'),
        line.len() > 0 ==> line.last() != '\r',
    ensures
        after_line(line + seq!['\r', '\n'] + rest) == rest,
    decreases line.len(),
{
    let all = line + seq!['\r', '\n'] + rest;
    if line.len() == 0 {
        assert(all.skip(2) =~= rest);
    } else {
        let tail = line.skip(1);
        assert(all.skip(1) =~= tail + seq!['\r', '\n'] + rest);
        assert(all[0] == line[0]);
        if line.len() > 1 {
            assert(all[1] == line[1]);
            assert(tail.last() == line.last());
        } else {
            assert(line.last() == line[0]);
        }
        assert forall|i: int| 0 <= i < tail.len() - 1 implies !(#[trigger] tail[i] == '\r' && tail[i
            + 1] == '\n') by {
            assert(tail[i] == line[i + 1] && tail[i + 1] == line[i + 2]);
            assert(!(line[i + 1] == '\r' && line[i + 2] == '\n'));
        }
        lemma_after_line(tail, rest);
    }
}

/// A copy without a header leaves out the first line of CSV and TSV, and nothing
/// of the other formats. With a header, all of the text is copied. The space at
/// the end goes.
pub proof fn law_headers_are_the_first_line(
    line: Seq<char>,
    rest: Seq<char>,
    text: &str,
    format: ExportFormat,
    header: bool,
    r: String,
)
    requires
        call_ensures(finish_copy, (text, format, header), r),
        text@ == line + seq!['\r', '\n'] + rest,
        forall|i: int|
            0 <= i < line.len() - 1 ==> !(#[trigger] line[i] == '\r' && line[i + 1] == '\n'),
        line.len() > 0 ==> line.last() != '\r',
    ensures
        !header && (format == ExportFormat::Csv || format == ExportFormat::Tsv) ==> r@ == trim_end(
            rest,
        ),
        header || format == ExportFormat::Json || format == ExportFormat::Sql ==> r@ == trim_end(
            text@,
        ),
{
    lemma_after_line(line, rest);
}

/// Rows are all marked exactly where none of them is not.
pub proof fn law_all_marked_rows_are_marked(
    e: GridView,
    rows: Seq<usize>,
    row: usize,
)
    ensures
        all_deleted(e, Seq::empty()),
        all_deleted(e, rows.push(row)) <==> all_deleted(e, rows) && e.is_deleted(row as int),
{
    let more = rows.push(row);
    if all_deleted(e, more) {
        assert(more[rows.len() as int] == row);
        assert forall|i: int| 0 <= i < rows.len() implies e.is_deleted(#[trigger] rows[i] as int) by {
            assert(more[i] == rows[i]);
        }
    }
    if all_deleted(e, rows) && e.is_deleted(row as int) {
        assert forall|i: int| 0 <= i < more.len() implies e.is_deleted(#[trigger] more[i] as int) by {
            if i < rows.len() {
                assert(more[i] == rows[i]);
            }
        }
    }
}

} // verus!
