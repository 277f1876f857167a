use ox_editor::splice::{
    adjust_text_cursor, cursor_visible_topline, is_nofileread, one_based_index, splice_position,
    splice_topline, wrapped_line_rows, ToplineSplice, ToplineSpliceKind,
};
use ox_editor::types::{ExtmarkPosition, Position, TextExtent, TextSplice};

fn spliced(lnum: usize, start: usize, old_count: usize, new_count: usize, lines: usize) -> usize {
    let mut position = Position { lnum, col: 3 };
    splice_position(&mut position, start, old_count, new_count, lines);
    assert_eq!(position.col, 3);
    position.lnum
}

#[test]
fn lines_above_a_replacement_keep_their_numbers() {
    assert_eq!(spliced(2, 3, 1, 4, 10), 2);
    assert_eq!(spliced(5, 3, 1, 4, 10), 8);
    assert_eq!(spliced(5, 3, 2, 0, 4), 3);
}

#[test]
fn a_replacement_and_its_reverse_bring_a_line_back() {
    let there = spliced(9, 3, 2, 5, 12);
    assert_eq!(there, 12);
    assert_eq!(spliced(there, 3, 5, 2, 9), 9);
}

#[test]
fn a_position_on_a_removed_line_stays_within_the_text() {
    assert_eq!(spliced(7, 5, 4, 1, 5), 5);
    assert_eq!(spliced(1, 1, 3, 0, 1), 1);
}

#[test]
fn the_view_scrolls_as_little_as_shows_the_cursor() {
    assert_eq!(cursor_visible_topline(5, 7, 4), 5);
    assert_eq!(cursor_visible_topline(5, 2, 4), 2);
    assert_eq!(cursor_visible_topline(5, 9, 4), 6);
    assert_eq!(cursor_visible_topline(0, 0, 4), 1);
}

#[test]
fn the_cursor_shows_after_a_splice() {
    let splice = ToplineSplice {
        topline: 4,
        cursor: 20,
        height: 5,
        line_count: 30,
        start: 2,
        old_count: 0,
        new_count: 10,
        kind: ToplineSpliceKind::Lines,
    };
    let topline = splice_topline(splice);
    assert!(topline <= 20 && 20 < topline + 5, "{topline}");
}

fn edit(row: usize, column: usize, old: (usize, usize), new: (usize, usize)) -> TextSplice {
    TextSplice {
        start: ExtmarkPosition { row, column },
        old_extent: TextExtent { rows: old.0, columns: old.1 },
        new_extent: TextExtent { rows: new.0, columns: new.1 },
    }
}

#[test]
fn a_cursor_in_front_of_an_edit_stays() {
    let cursor = ExtmarkPosition { row: 1, column: 2 };
    let (moved, coladd) = adjust_text_cursor(cursor, 0, edit(1, 4, (0, 2), (0, 7)), 20, false);
    assert_eq!((moved, coladd), (cursor, 0));
}

#[test]
fn a_cursor_behind_an_edit_keeps_its_distance() {
    let cursor = ExtmarkPosition { row: 1, column: 9 };
    let (moved, _) = adjust_text_cursor(cursor, 0, edit(1, 4, (0, 2), (0, 7)), 20, false);
    assert_eq!(moved, ExtmarkPosition { row: 1, column: 14 });
    let (moved, _) = adjust_text_cursor(cursor, 0, edit(0, 4, (1, 3), (0, 1)), 20, false);
    assert_eq!(moved, ExtmarkPosition { row: 0, column: 11 });
}

#[test]
fn wrapped_lines_take_whole_rows() {
    assert_eq!(wrapped_line_rows(0, 10), 1);
    assert_eq!(wrapped_line_rows(10, 10), 1);
    assert_eq!(wrapped_line_rows(11, 10), 2);
}

#[test]
fn indices_are_one_below_their_numbers() {
    assert_eq!(one_based_index(1), Some(0));
    assert_eq!(one_based_index(0), None);
    assert_eq!(one_based_index(-4), None);
}

#[test]
fn some_buffer_types_are_never_read_from_files() {
    assert!(is_nofileread("nofile"));
    assert!(is_nofileread("terminal"));
    assert!(is_nofileread("quickfix"));
    assert!(is_nofileread("prompt"));
    assert!(!is_nofileread("nowrite"));
    assert!(!is_nofileread(""));
}
