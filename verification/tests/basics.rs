use cellar::grid::{moved_index, next_sort_direction, CellPosition, CellRange};
use cellar::browse::{next_filter_operator, SortDirection, TableFilterOperator};
use cellar::grid_view::{column_type_icon, inline_text, row_background, Tint};
use cellar::value::{cell_text, CellValue};
use cellar::workspace_model::{page_label, TablePage};

#[test]
fn page_bounds_and_labels_are_stable() {
    let page = TablePage {
        offset: 500,
        limit: 500,
        rows: 120,
        total_rows: Some(620),
    };
    assert!(page.has_previous());
    assert!(!page.has_next());
    assert_eq!(page_label(page), "501–620 of 620");
}

#[test]
fn advanced_filter_operators_cycle_back_to_equals() {
    let mut operator = TableFilterOperator::Equals;
    for _ in 0..9 {
        operator = next_filter_operator(operator, "text");
    }
    assert_eq!(operator, TableFilterOperator::Equals);
    assert_eq!(
        next_filter_operator(TableFilterOperator::NotEquals, "int8"),
        TableFilterOperator::GreaterThan
    );
}

#[test]
fn table_sort_cycles_ascending_descending_off() {
    assert_eq!(next_sort_direction(None, 2), Some(SortDirection::Asc));
    assert_eq!(
        next_sort_direction(Some((2, SortDirection::Asc)), 2),
        Some(SortDirection::Desc)
    );
    assert_eq!(next_sort_direction(Some((2, SortDirection::Desc)), 2), None);
}

#[test]
fn moving_a_column_remaps_every_affected_index() {
    assert_eq!(
        (0..5).map(|i| moved_index(i, 1, 3)).collect::<Vec<_>>(),
        vec![0, 3, 1, 2, 4]
    );
    assert_eq!(
        (0..5).map(|i| moved_index(i, 3, 1)).collect::<Vec<_>>(),
        vec![0, 2, 3, 1, 4]
    );
}

#[test]
fn grid_display_preferences_control_nulls_and_stripes() {
    assert_eq!(cell_text(&CellValue::Null, "∅"), "∅");
    assert_eq!(row_background(false, 1), Tint::Panel);
    assert_eq!(row_background(true, 1), Tint::PanelMuted);
}

#[test]
fn inline_text_keeps_cells_on_one_line() {
    assert_eq!(inline_text("plain"), "plain");
    assert_eq!(inline_text("a\nb\nc"), "a⏎b⏎c");
    assert_eq!(inline_text("a\r\nb\rc"), "a⏎b⏎c");
}

#[test]
fn grid_header_uses_canonical_type_icons() {
    assert_eq!(
        column_type_icon("text", true, false).0,
        "icons/type-key.svg"
    );
    assert_eq!(
        column_type_icon("text", false, true).0,
        "icons/type-link.svg"
    );
    assert_eq!(
        column_type_icon("bigint", false, false).0,
        "icons/type-hash.svg"
    );
    assert_eq!(
        column_type_icon("timestamp", false, false).0,
        "icons/type-calendar.svg"
    );
    assert_eq!(
        column_type_icon("jsonb", false, false).0,
        "icons/type-json.svg"
    );
}

#[test]
fn a_range_holds_its_corners_and_what_is_between() {
    let at = |row, column| CellPosition { row, column };
    let range = CellRange::between(at(3, 1), at(1, 4));
    assert_eq!(range.start, at(1, 1));
    assert_eq!(range.end, at(3, 4));
    assert!(range.contains(at(3, 1)));
    assert!(range.contains(at(2, 2)));
    assert!(!range.contains(at(0, 2)));
    assert!(!range.contains(at(2, 5)));
}

#[test]
fn moving_a_column_back_undoes_the_move() {
    for i in 0..6 {
        assert_eq!(moved_index(moved_index(i, 4, 1), 1, 4), i);
    }
}

#[test]
fn a_page_without_a_total_has_a_next_one_when_it_is_full() {
    let page = TablePage { offset: 0, limit: 500, rows: 500, total_rows: None };
    assert!(page.has_next());
    assert!(!page.has_previous());
    assert_eq!(page_label(page), "1–500");
    let part = TablePage { rows: 20, ..page };
    assert!(!part.has_next());
}

#[test]
fn operators_of_a_type_come_round() {
    for (data_type, n) in [("varchar", 9), ("timestamp", 8), ("bytea", 4)] {
        let mut operator = TableFilterOperator::IsNull;
        for _ in 0..n {
            operator = next_filter_operator(operator, data_type);
        }
        assert_eq!(operator, TableFilterOperator::IsNull);
    }
    assert_eq!(
        next_filter_operator(TableFilterOperator::Like, "bytea"),
        TableFilterOperator::NotEquals
    );
}
