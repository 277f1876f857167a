use ox_editor::buffer::{
    BufferOptions, BufferStateError, BufferTextEditRequest, ReplayedEdit, UndoState,
};
use ox_editor::editor::batches::{LineInsertion, PutPlan, RegisterKind};
use ox_editor::editor::contexts::ignores;
use ox_editor::editor::directories::{
    expand_buffer_name, DirectoryEntered, DirectoryError, DirectoryScope,
};
use ox_editor::editor::edits::LineReplaceRequest;
use ox_editor::editor::screen::{count_cells, CursorScreenPosition, Glyph, RelativeTo};
use ox_editor::editor::tabs::{CloseAnswer, Placement, SplitAnswer};
use ox_editor::editor::terminal::{
    pen_marks, PenMark, PenSpan, TerminalDamage, TerminalSnapshot,
};
use ox_editor::editor::undo::{ReplayedBlock, ReplayedWalk};
use ox_editor::editor::windows::{split_lines, FileRead, TextSource};
use ox_editor::editor::{BufferEditMode, BufferRelease, ChannelIds, Editor, GlobalOptions};
use ox_editor::errors::{EditorError, HandleKind};
use ox_editor::messages::{Message, MessageDestination, MessageIdentity, MessageKind, Object};
use ox_editor::types::{
    BufHandle, ExtmarkPosition, OxStr, Position, TabHandle, Typval, WinHandle,
};
use ox_editor::window::{Area, Geometry, LayoutError, MatchItem, WindowOptions};

fn empty() -> Editor {
    Editor::new(
        OxStr::from_text("/usr/bin/editor"),
        GlobalOptions {
            diffopt: String::new(),
            scrollopt: "ver,jump".to_owned(),
            verbose: 0,
            autochdir: false,
            eventignore: String::new(),
        },
        WindowOptions {
            diff: false,
            scrollbind: false,
            cursorbind: false,
            wrap: true,
            foldmethod: "manual".to_owned(),
            foldcolumn: "0".to_owned(),
            foldenable: true,
            foldlevel: 0,
            winfixbuf: false,
            eventignorewin: String::new(),
        },
        BufferOptions { buftype: String::new(), tabstop: 8, scrollback: -1 },
    )
}

fn area(width: usize, height: usize) -> Area {
    Area { geometry: Geometry { row: 0, col: 0, width, height }, text_height: height }
}

fn answer(height: usize) -> Result<SplitAnswer, LayoutError> {
    Ok(SplitAnswer { area: area(20, height), areas: Vec::new() })
}

fn rows(lines: &[&str]) -> Vec<Vec<u8>> {
    lines.iter().map(|line| line.as_bytes().to_vec()).collect()
}

fn at(lnum: usize, col: usize) -> Position {
    Position { lnum, col }
}

/// An editor with one buffer in one window of one tabpage.
fn shown(lines: &[&str]) -> (Editor, BufHandle, TabHandle, WinHandle) {
    let mut editor = empty();
    let buffer = editor.create_buffer_with(rows(lines), true).unwrap();
    let tab = editor.create_tabpage(buffer, Ok(area(20, 10)), None).unwrap();
    let window = editor.current_window().unwrap();
    (editor, buffer, tab, window)
}

fn text(editor: &Editor, buffer: BufHandle) -> Vec<Vec<u8>> {
    let state = editor.buffer(buffer).unwrap();
    let count = state.line_count().unwrap();
    state.lines_between(1, count).unwrap()
}

fn echo(text: &str) -> Message {
    Message {
        kind: MessageKind::Echo,
        content: Object::String(OxStr::from_text(text)),
        history: true,
        leading_newline: true,
    }
}

#[test]
fn armed_echo_identity_replaces_matching_id_before_reentry() {
    let mut editor = empty();
    editor.arm_echo_identity(OxStr::from_text("echo"), Object::Integer(9));
    editor.push_message(echo("earlier"));
    editor.arm_echo_identity(OxStr::from_text("progress"), Object::Integer(9));
    editor.push_message(echo("fresh"));
    assert_eq!(editor.messages().len(), 1, "the duplicate push is dropped");
    assert_eq!(editor.messages()[0].content, Object::String(OxStr::from_text("fresh")));
    assert_eq!(
        editor.message_identities()[0],
        MessageIdentity { kind: OxStr::from_text("progress"), id: Object::Integer(9) }
    );
}

#[test]
fn nested_echo_identity_stays_separate_from_outer_id() {
    let mut editor = empty();
    editor.arm_echo_identity(OxStr::from_text("progress"), Object::Integer(9));
    editor.push_message(echo("outer"));
    editor.arm_echo_identity(OxStr::from_text("progress"), Object::Integer(10));
    editor.push_message(echo("nested"));
    assert_eq!(editor.messages().len(), 2);
    assert_eq!(editor.message_identities()[0].id, Object::Integer(9));
    assert_eq!(editor.message_identities()[1].id, Object::Integer(10));
}

#[test]
fn stamp_echo_identity_only_updates_the_appended_slot() {
    let mut editor = empty();
    editor.push_message(echo("first"));
    editor.push_message(echo("second"));
    editor.stamp_echo_identity(1, OxStr::from_text("echo"), Object::Integer(7));
    assert_eq!(editor.messages().len(), 2);
    assert_eq!(editor.message_identities().len(), 2);
    assert_eq!(
        editor.message_identities()[1].id,
        Object::Integer(7),
        "the pushed message carries the stamped id"
    );
    editor.truncate_messages(1);
    assert_eq!(
        editor.message_identities().len(),
        1,
        "the identity vector stays index-aligned under truncation"
    );
}

/// The characters of `text` as they are drawn.
fn glyphs(text: &str) -> Vec<Glyph> {
    text.chars()
        .map(|c| match c {
            '\t' => Glyph::Tab,
            '\u{301}' => Glyph::Cells(0),
            '\u{754c}' => Glyph::Cells(2),
            _ => Glyph::Cells(1),
        })
        .collect()
}

/// The cell that a cursor-relative float starts from.
fn cursor_float_position(
    text: &str,
    cursor_col: usize,
    width: usize,
    tabstop: Option<i64>,
) -> (usize, usize) {
    let mut editor = empty();
    let buffer = editor.create_buffer_with(rows(&[text]), true).unwrap();
    if let Some(tabstop) = tabstop {
        editor.buffer_mut(buffer).unwrap().options.tabstop = tabstop;
    }
    editor.create_tabpage(buffer, Ok(area(width, 8)), None).unwrap();
    let anchor = editor.current_window().unwrap();
    editor.set_window_cursor(anchor, at(1, cursor_col)).unwrap();
    let tabstop = editor.window_tabstop(anchor).unwrap();
    let cells = count_cells(&glyphs(&text[..cursor_col]), tabstop);
    let position = editor
        .cursor_position_for_float(RelativeTo::Cursor, Some(anchor), cells, &Vec::new())
        .unwrap();
    (position.row, position.col)
}

#[test]
fn cursor_float_uses_rendered_ascii_column() {
    assert_eq!(cursor_float_position("abc", 2, 20, None), (0, 2));
}

#[test]
fn cursor_float_uses_effective_tabstop_cells() {
    assert_eq!(cursor_float_position("a\tb", 2, 20, Some(4)), (0, 4));
    assert_eq!(cursor_float_position("a\tb", 2, 20, None), (0, 8));
    assert_eq!(cursor_float_position("a\tb", 2, 20, Some(0)), (0, 8));
}

#[test]
fn cursor_float_uses_wide_character_cells() {
    assert_eq!(cursor_float_position("\u{754c}x", 3, 20, None), (0, 2));
}

#[test]
fn cursor_float_uses_combining_character_cells() {
    assert_eq!(cursor_float_position("e\u{301}x", 3, 20, None), (0, 1));
}

#[test]
fn cursor_float_uses_wrapped_screen_row_and_column() {
    assert_eq!(cursor_float_position("abcdef", 5, 4, None), (1, 1));
}

#[test]
fn set_cursor_float_uses_rendered_cursor_position() {
    let (mut editor, buffer, tab, anchor) = shown(&["a\tb"]);
    editor.buffer_mut(buffer).unwrap().options.tabstop = 4;
    editor.set_window_cursor(anchor, at(1, 2)).unwrap();
    let float = editor.open_float(tab, buffer, Ok(area(1, 1))).unwrap();
    let cells = count_cells(&glyphs("a\t"), editor.window_tabstop(anchor).unwrap());
    let position = editor
        .cursor_position_for_float(RelativeTo::Cursor, Some(anchor), cells, &Vec::new())
        .unwrap();
    let mut placed = area(1, 1);
    placed.geometry.row = position.row;
    placed.geometry.col = position.col;
    editor.set_window_config(float, Ok(vec![Placement { window: float, area: placed }])).unwrap();
    let geometry = editor.window_geometry(float).unwrap();
    assert_eq!((geometry.row, geometry.col), (0, 4));
    assert_eq!(
        editor.set_window_config(float, Err(LayoutError::NoRoom)),
        Err(EditorError::Layout(LayoutError::NoRoom))
    );
}

#[test]
fn a_cursor_behind_the_text_has_no_cell() {
    let (mut editor, _, _, window) = shown(&["abc"]);
    editor.windows[0].state.cursor = at(2, 0);
    assert_eq!(
        editor.cursor_screen_position(window, 0, &vec![3]),
        Err(EditorError::Buffer(BufferStateError::InvalidRange))
    );
    assert_eq!(
        editor.cursor_position_for_float(RelativeTo::Cursor, Some(window), 0, &vec![3]),
        Err(EditorError::Buffer(BufferStateError::InvalidRange))
    );
    editor.windows[0].state.cursor = at(0, 0);
    assert!(editor.cursor_screen_position(window, 0, &Vec::new()).is_err());
}

#[test]
fn cells_reach_to_tab_stops() {
    let line = [Glyph::Cells(3), Glyph::Tab, Glyph::Cells(1), Glyph::Tab, Glyph::Tab];
    let columns = [0, 3, 4, 5, 8, 12];
    for (count, column) in columns.into_iter().enumerate() {
        assert_eq!(count_cells(&line[..count].to_vec(), 4), column);
    }
    assert_eq!(count_cells(&vec![Glyph::Cells(usize::MAX), Glyph::Tab], 8), usize::MAX);
}

#[test]
fn sign_groups_stand_in_name_order() {
    let mut editor = empty();
    assert_eq!(editor.sign_group("b", 100), 100);
    assert_eq!(editor.sign_group("a", 100), 101);
    assert_eq!(editor.sign_group("ab", 100), 102);
    assert_eq!(editor.sign_group("b", 100), 100);
    assert_eq!(editor.sign_group("c", u32::MAX), u32::MAX);
    let expected = [("a", 101), ("ab", 102), ("b", 100), ("c", u32::MAX)];
    let expected = expected.map(|(name, namespace)| (name.to_owned(), namespace));
    assert_eq!(*editor.sign_groups(), expected);
    assert_eq!(editor.sign_group_if_placed("ab"), Some(102));
    assert_eq!(editor.sign_group_if_placed("d"), None);
}

#[test]
fn a_renamed_buffer_leaves_a_fresh_one_under_its_old_name() {
    let (mut editor, buffer, _, window) = shown(&["text"]);
    editor.rename_buffer(buffer, OxStr::from_text("/a")).unwrap();
    let alternate = editor.rename_buffer(buffer, OxStr::from_text("/b")).unwrap().unwrap();
    let state = editor.buffer(alternate).unwrap();
    assert_eq!(state.name, OxStr::from_text("/a"));
    assert!(!state.listed && !state.modified && !state.notedited && !state.undo_open);
    assert_eq!((state.changedtick, state.undo_seq, state.undo_at), (0, 0, 0));
    assert_eq!(state.options.tabstop, 8);
    assert_eq!(text(&editor, alternate), rows(&[""]));
    assert_eq!(editor.window(window).unwrap().alternate_buffer, Some(alternate));
}

#[test]
fn other_floats_start_from_the_first_cell() {
    let (editor, _, _, window) = shown(&["abc"]);
    let origin = CursorScreenPosition { row: 0, col: 0 };
    assert_eq!(
        editor.cursor_position_for_float(RelativeTo::Editor, Some(window), 2, &Vec::new()),
        Ok(origin)
    );
    assert_eq!(
        editor.cursor_position_for_float(RelativeTo::Cursor, None, 2, &Vec::new()),
        Ok(origin)
    );
    assert_eq!(
        editor.cursor_position_for_float(RelativeTo::Cursor, Some(WinHandle(9)), 2, &Vec::new()),
        Err(EditorError::UnknownWindow(WinHandle(9)))
    );
}

#[test]
fn wrapped_lines_above_the_cursor_count_their_rows() {
    let (mut editor, _, _, window) = shown(&["a", "b", "c", "d"]);
    editor.set_window_cursor(window, at(3, 0)).unwrap();
    assert_eq!(editor.lines_above_cursor(window), Ok((1, 3)));
    let position = editor.cursor_screen_position(window, 25, &vec![20, 41]).unwrap();
    assert_eq!(position, CursorScreenPosition { row: 5, col: 5 });
    editor.windows[0].options.wrap = false;
    let position = editor.cursor_screen_position(window, 25, &vec![20, 41]).unwrap();
    assert_eq!(position, CursorScreenPosition { row: 2, col: 25 });
}

#[test]
fn splitting_a_float_with_another_float_open_splits_the_last_tiled_window() {
    let (mut editor, buffer, tab, _) = shown(&[""]);
    let first_float = editor.open_float(tab, buffer, Ok(area(3, 2))).unwrap();
    let second_float = editor.open_float(tab, buffer, Ok(area(3, 2))).unwrap();

    let split = editor.split_vertical(tab, second_float, buffer, true, answer(10)).unwrap();

    let tabpage = editor.tabpage(tab).unwrap();
    assert!(tabpage.tiled.contains(&split));
    assert!(tabpage.floats.contains(&first_float));
    assert!(tabpage.floats.contains(&second_float));
    assert_eq!(tabpage.tiled.len(), 2);
}

fn unloaded_named_buffer(editor: &mut Editor, name: &str) -> BufHandle {
    let buffer = editor.create_buffer(true).unwrap();
    editor.rename_buffer(buffer, OxStr::from_text(name)).unwrap();
    editor.unload_buffer(buffer).unwrap();
    buffer
}

#[test]
fn displaying_an_unloaded_named_buffer_reloads_its_file_content() {
    let mut editor = empty();
    let buffer = unloaded_named_buffer(&mut editor, "/tmp/Xreload.txt");
    let scratch = editor.create_buffer(true).unwrap();
    editor.create_tabpage(scratch, Ok(area(20, 10)), None).unwrap();
    let window = editor.current_window().unwrap();
    assert_eq!(
        editor.unloaded_buffer_text(buffer),
        TextSource::File("/tmp/Xreload.txt".to_owned())
    );

    editor
        .set_window_buffer(
            window,
            buffer,
            BufferRelease::KeepLoaded,
            FileRead::Content(b"original\ncontent\n".to_vec()),
        )
        .unwrap();

    let state = editor.buffer(buffer).unwrap();
    assert_eq!(state.line_count().unwrap(), 2);
    assert_eq!(text(&editor, buffer), rows(&["original", "content"]));
    assert!(!editor.buffer(buffer).unwrap().modified);
}

#[test]
fn displaying_an_unloaded_named_buffer_with_unreadable_file_stays_unloaded() {
    let mut editor = empty();
    let buffer = unloaded_named_buffer(&mut editor, "/tmp/Xunreadable");
    let scratch = editor.create_buffer(true).unwrap();
    editor.create_tabpage(scratch, Ok(area(20, 10)), None).unwrap();
    let window = editor.current_window().unwrap();

    let error = editor
        .set_window_buffer(window, buffer, BufferRelease::KeepLoaded, FileRead::Failed)
        .unwrap_err();
    assert!(matches!(error, EditorError::Buffer(BufferStateError::Unloaded)));
    assert!(editor.buffer(buffer).unwrap().line_count().is_err());
    assert_eq!(editor.window(window).unwrap().buffer, scratch);
}

#[test]
fn displaying_an_unloaded_named_buffer_with_missing_file_opens_it_empty() {
    let mut editor = empty();
    let buffer = unloaded_named_buffer(&mut editor, "/tmp/Xmissing.txt");
    let scratch = editor.create_buffer(true).unwrap();
    editor.create_tabpage(scratch, Ok(area(20, 10)), None).unwrap();
    let window = editor.current_window().unwrap();

    editor
        .set_window_buffer(window, buffer, BufferRelease::KeepLoaded, FileRead::Missing)
        .unwrap();

    assert_eq!(text(&editor, buffer), rows(&[""]));
    assert!(!editor.buffer(buffer).unwrap().modified);
}

#[test]
fn numeric_and_version_vvars_are_seeded() {
    let editor = empty();
    let value = |name: &str| {
        editor
            .vvars()
            .iter()
            .find(|entry| entry.0 == OxStr::from_text(name))
            .map(|entry| match &entry.1 {
                Object::Integer(value) => *value,
                other => panic!("expected a number for {name}, got {other:?}"),
            })
            .unwrap()
    };
    assert_eq!(value("numbersize"), 64);
    assert!(value("numbermax") > 9_999_999);
    assert!(value("numbermin") < -9_999_999);
    assert_eq!(value("version"), 801);
    assert_eq!(value("versionlong") / 10_000, 801);
    assert!(value("versionlong") > 8_011_525);
}

#[test]
fn channel_ids_start_behind_the_reserved_ones_and_grow() {
    let mut ids = ChannelIds::new();
    let first = ids.allocate();
    let second = ids.allocate();
    assert_eq!(first, 3);
    assert_eq!(second, 4);
    let mut editor = empty();
    let one = editor.allocate_channel_id();
    assert!(editor.allocate_channel_id() > one);
}

#[test]
fn buffers_are_numbered_and_named_once() {
    let mut editor = empty();
    let first = editor.create_buffer(true).unwrap();
    let second = editor.create_buffer(false).unwrap();
    assert_eq!((first, second), (BufHandle(1), BufHandle(2)));
    assert_eq!(editor.last_buffer_nr(), 2);
    editor.rename_buffer(first, OxStr::from_text("/a")).unwrap();
    assert_eq!(
        editor.rename_buffer(second, OxStr::from_text("/a")),
        Err(EditorError::NameInUse("/a".to_owned()))
    );
    editor.wipe_buffer(second).unwrap();
    assert_eq!(editor.create_buffer(true).unwrap(), BufHandle(3));
    assert_eq!(
        editor.wipe_buffer(second),
        Err(EditorError::UnknownBuffer(BufHandle(2)))
    );
}

#[test]
fn a_displayed_buffer_cannot_be_wiped() {
    let (mut editor, buffer, ..) = shown(&["a"]);
    assert_eq!(
        editor.wipe_buffer(buffer),
        Err(EditorError::BufferInUse { buffer, windows: 1 })
    );
    assert_eq!(
        EditorError::BufferInUse { buffer, windows: 1 }.message(),
        "cannot wipe buffer BufHandle(1) attached to 1 window(s)"
    );
}

#[test]
fn failures_have_words() {
    assert_eq!(EditorError::UnknownBuffer(BufHandle(7)).message(), "Buffer 7 does not exist");
    assert_eq!(EditorError::NoCurrentTabpage.message(), "no current tabpage");
    assert_eq!(
        EditorError::HandleExhausted(HandleKind::Window).message(),
        "window handle space exhausted"
    );
}

#[test]
fn handles_run_out() {
    let mut editor = empty();
    editor.next_buffer = i64::from(i32::MAX) + 1;
    assert_eq!(
        editor.create_buffer(true),
        Err(EditorError::HandleExhausted(HandleKind::Buffer))
    );
    assert_eq!(
        editor.allocate_terminal_buffer(5),
        Err(EditorError::HandleExhausted(HandleKind::Buffer))
    );
}

#[test]
fn windows_are_entered_and_remembered() {
    let (mut editor, buffer, tab, first) = shown(&["a"]);
    let second = editor.split_horizontal(tab, first, buffer, false, answer(5)).unwrap();
    assert_eq!(editor.current_window(), Some(first));
    editor.set_current_window(second).unwrap();
    assert_eq!(editor.current_window(), Some(second));
    assert_eq!(editor.previous_window(), Some(first));
    assert_eq!(
        editor.set_current_window(WinHandle(5)),
        Err(EditorError::UnknownWindow(WinHandle(5)))
    );
    assert_eq!(editor.find_window_by_id(i64::from(second.0)), Some(second));
    assert_eq!(editor.find_window_by_id(3), None);
}

#[test]
fn a_split_opens_on_its_side_and_shows_the_same_place() {
    let (mut editor, buffer, tab, first) = shown(&["1", "2", "3", "4", "5"]);
    editor.set_window_cursor(first, at(4, 0)).unwrap();
    editor.set_window_topline(first, 2).unwrap();
    let right = editor.split_vertical(tab, first, buffer, true, answer(10)).unwrap();
    let left = editor.split_left(tab, first, buffer, true, answer(10)).unwrap();
    assert_eq!(editor.tabpage(tab).unwrap().tiled, vec![left, first, right]);
    let state = editor.window(left).unwrap();
    assert_eq!((state.cursor, state.topline), (at(4, 0), 2));
    assert_eq!(
        editor.split_above(tab, first, buffer, true, Err(LayoutError::NoRoom)),
        Err(EditorError::Layout(LayoutError::NoRoom))
    );
}

#[test]
fn closing_hands_the_focus_on() {
    let (mut editor, buffer, tab, first) = shown(&["a"]);
    let second = editor.split_vertical(tab, first, buffer, true, answer(10)).unwrap();
    let close = |current| CloseAnswer { current, areas: Vec::new() };
    editor.close_window(tab, second, true, close(first)).unwrap();
    assert_eq!(editor.current_window(), Some(first));
    assert_eq!(
        editor.close_window(tab, first, true, close(first)).unwrap_err(),
        EditorError::Layout(LayoutError::LastWindow)
    );
    assert_eq!(editor.close_tabpage(tab), Err(EditorError::LastTabpage));
}

#[test]
fn a_float_opened_and_closed_leaves_the_tabpage_as_it_was() {
    let (mut editor, buffer, tab, first) = shown(&["a"]);
    let float = editor.open_float(tab, buffer, Ok(area(3, 2))).unwrap();
    assert_eq!(editor.tabpage_windows(tab).unwrap(), vec![first, float]);
    let answer = CloseAnswer { current: first, areas: Vec::new() };
    editor.close_window(tab, float, true, answer).unwrap();
    assert_eq!(editor.tabpage_windows(tab).unwrap(), vec![first]);
    assert_eq!(editor.current_window(), Some(first));
}

#[test]
fn tabpages_open_and_close() {
    let (mut editor, buffer, first, _) = shown(&["a"]);
    let second = editor.create_tabpage(buffer, Ok(area(20, 10)), None).unwrap();
    let between = editor.create_tabpage_at(buffer, Ok(area(20, 10)), 2, None).unwrap();
    assert_eq!(editor.tabpages(), vec![first, between, second]);
    assert_eq!(editor.tabpage_index(second), Some(3));
    assert_eq!(editor.current_tabpage(), Some(between));
    editor.set_current_tabpage(first).unwrap();
    editor.close_tabpage(second).unwrap();
    assert_eq!(editor.tabpages(), vec![first, between]);
    editor
        .set_tabpage_variable(first, OxStr::from_text("x"), Typval::Number(4))
        .unwrap();
    assert_eq!(editor.tabpage_variables(first).unwrap().len(), 1);
    assert_eq!(editor.tabpage_variables_version(first), Ok(1));
    assert_eq!(
        editor.tabpage_variables_version(second),
        Err(EditorError::UnknownTabpage(second))
    );
}

#[test]
fn the_layout_places_windows() {
    let (mut editor, _, tab, window) = shown(&["a"]);
    let placed = area(7, 3);
    editor
        .resize_tabpage(tab, Ok(vec![Placement { window, area: placed }]))
        .unwrap();
    assert_eq!(editor.window_geometry(window), Ok(placed.geometry));
    assert_eq!(editor.window_text_height(window), Ok(3));
    let lower = area(7, 1);
    editor
        .set_window_height(window, Ok(vec![Placement { window, area: lower }]))
        .unwrap();
    assert_eq!(editor.window_text_height(window), Ok(1));
    assert_eq!(
        editor.set_window_width(window, Err(LayoutError::NoRoom)),
        Err(EditorError::Layout(LayoutError::NoRoom))
    );
    assert_eq!(
        editor.equalize_tabpage(TabHandle(8), Ok(Vec::new())),
        Err(EditorError::UnknownTabpage(TabHandle(8)))
    );
    assert_eq!(
        editor.set_window_width(WinHandle(8), Ok(Vec::new())),
        Err(EditorError::UnknownWindow(WinHandle(8)))
    );
}

#[test]
fn line_edits_move_cursors_behind_them() {
    let (mut editor, buffer, _, window) = shown(&["1", "2", "3", "4"]);
    editor.set_window_cursor(window, at(4, 0)).unwrap();
    let seq = editor
        .replace_buffer_lines(LineReplaceRequest {
            buffer,
            start: 1,
            end: 2,
            lines: rows(&["x"]),
            cursor_after: at(1, 0),
        })
        .unwrap();
    assert_eq!(seq, 1);
    assert_eq!(text(&editor, buffer), rows(&["x", "3", "4"]));
    assert_eq!(editor.window(window).unwrap().cursor.lnum, 3);
    editor.append_buffer_lines(buffer, 0, &rows(&["top"]), at(1, 0)).unwrap();
    assert_eq!(text(&editor, buffer), rows(&["top", "x", "3", "4"]));
    assert_eq!(editor.window(window).unwrap().cursor.lnum, 4);
    assert_eq!(
        editor.append_buffer_lines(buffer, 9, &rows(&["y"]), at(1, 0)),
        Err(EditorError::Buffer(BufferStateError::InvalidRange))
    );
}

#[test]
fn text_edits_join_one_undo_block_until_it_is_closed() {
    let (mut editor, buffer, ..) = shown(&["hello world"]);
    let edit = |start: usize, end: usize, word: &str| BufferTextEditRequest {
        start: ExtmarkPosition::new(0, start),
        end: ExtmarkPosition::new(0, end),
        replacement: rows(&[word]),
    };
    assert_eq!(editor.replace_buffer_text(buffer, &edit(0, 5, "bye"), at(1, 0)), Ok(1));
    assert_eq!(editor.replace_buffer_text(buffer, &edit(3, 4, ","), at(1, 0)), Ok(1));
    assert_eq!(text(&editor, buffer), rows(&["bye,world"]));
    editor.sync_current_undo();
    assert_eq!(editor.replace_buffer_text(buffer, &edit(0, 4, ""), at(1, 0)), Ok(2));
    assert_eq!(text(&editor, buffer), rows(&["world"]));
    assert_eq!(editor.buffer_undo_seq(buffer), Ok(2));
    assert!(editor.replace_buffer_text(buffer, &edit(3, 99, ""), at(1, 0)).is_err());
    assert_eq!(text(&editor, buffer), rows(&["world"]));
}

#[test]
fn an_edit_and_its_reverse_leave_the_text() {
    let (mut editor, buffer, ..) = shown(&["one two", "three", "four"]);
    let there = BufferTextEditRequest {
        start: ExtmarkPosition::new(0, 4),
        end: ExtmarkPosition::new(1, 3),
        replacement: rows(&["A", "BC", "D"]),
    };
    let back = BufferTextEditRequest {
        start: ExtmarkPosition::new(0, 4),
        end: ExtmarkPosition::new(2, 1),
        replacement: rows(&["two", "thr"]),
    };
    editor.replace_buffer_text(buffer, &there, at(1, 0)).unwrap();
    assert_eq!(text(&editor, buffer), rows(&["one A", "BC", "Dee", "four"]));
    editor.replace_buffer_text(buffer, &back, at(1, 0)).unwrap();
    assert_eq!(text(&editor, buffer), rows(&["one two", "three", "four"]));
}

#[test]
fn a_batch_keeps_the_rows_between_its_edits() {
    let (mut editor, buffer, _, window) = shown(&["a", "b", "c", "d"]);
    let edit = |row: usize| BufferTextEditRequest {
        start: ExtmarkPosition::new(row, 0),
        end: ExtmarkPosition::new(row, 1),
        replacement: rows(&["xy"]),
    };
    let batch = vec![edit(0), edit(2)];
    editor.replace_buffer_texts(buffer, window, &batch, at(1, 0)).unwrap();
    assert_eq!(text(&editor, buffer), rows(&["xy", "b", "xy", "d"]));
}

#[test]
fn closing_a_split_window_leaves_the_order() {
    let (mut editor, buffer, tab, first) = shown(&["a"]);
    let second = editor.split_vertical(tab, first, buffer, false, answer(10)).unwrap();
    let third = editor.split_left(tab, second, buffer, false, answer(10)).unwrap();
    assert_eq!(editor.tabpage(tab).unwrap().tiled, vec![first, third, second]);
    let close = CloseAnswer { current: first, areas: Vec::new() };
    editor.close_window(tab, third, true, close).unwrap();
    assert_eq!(editor.tabpage(tab).unwrap().tiled, vec![first, second]);
    assert_eq!(editor.current_window(), Some(first));
}

#[test]
fn a_batch_is_made_whole_or_not_at_all() {
    let (mut editor, buffer, _, window) = shown(&["ab", "cd"]);
    let edit = |row: usize, start: usize, end: usize, word: &str| BufferTextEditRequest {
        start: ExtmarkPosition::new(row, start),
        end: ExtmarkPosition::new(row, end),
        replacement: rows(&[word]),
    };
    let batch = vec![edit(0, 0, 1, "X"), edit(1, 1, 2, "YZ")];
    editor.replace_buffer_texts(buffer, window, &batch, at(2, 1)).unwrap();
    assert_eq!(text(&editor, buffer), rows(&["Xb", "cYZ"]));
    assert_eq!(editor.window(window).unwrap().cursor, at(2, 1));
    let bad = vec![edit(0, 0, 1, "Q"), edit(1, 9, 10, "Q")];
    assert_eq!(
        editor.replace_buffer_texts(buffer, window, &bad, at(1, 0)),
        Err(EditorError::Buffer(BufferStateError::InvalidRange))
    );
    assert_eq!(text(&editor, buffer), rows(&["Xb", "cYZ"]));
}

#[test]
fn a_put_edits_rows_and_inserts_lines() {
    let (mut editor, buffer, _, window) = shown(&["ab"]);
    let plan = PutPlan {
        splices: vec![BufferTextEditRequest {
            start: ExtmarkPosition::new(0, 1),
            end: ExtmarkPosition::new(0, 1),
            replacement: rows(&["-"]),
        }],
        insertion: Some(LineInsertion { after_lnum: 1, lines: rows(&["new"]) }),
        cursor_after: at(2, 0),
    };
    assert_eq!(editor.commit_put_plan(buffer, Some(window), &plan), Ok(true));
    assert_eq!(text(&editor, buffer), rows(&["a-b", "new"]));
    assert_eq!(editor.window(window).unwrap().cursor, at(2, 0));
    let nothing = PutPlan { splices: Vec::new(), insertion: None, cursor_after: at(1, 0) };
    assert_eq!(editor.commit_put_plan(buffer, Some(window), &nothing), Ok(false));
}

#[test]
fn a_put_reads_the_rows_it_needs() {
    let (mut editor, buffer, _, window) = shown(&["a", "b", "c"]);
    editor.set_window_cursor(window, at(9, 1)).unwrap();
    let target = editor.put_register_target(window, RegisterKind::CharacterWise, 1).unwrap();
    assert_eq!((target.buffer, target.line_count, target.cursor), (buffer, 3, at(3, 1)));
    assert_eq!(target.lines, rows(&["c"]));
    editor.set_window_cursor(window, at(2, 0)).unwrap();
    let read = |kind, len| editor.put_register_target(window, kind, len).unwrap().lines;
    assert_eq!(read(RegisterKind::LineWise, 4), Vec::<Vec<u8>>::new());
    assert_eq!(read(RegisterKind::BlockWise, 1), rows(&["b"]));
    assert_eq!(read(RegisterKind::BlockWise, 7), rows(&["b", "c"]));
    let content = |lnum, kind| editor.put_content_target(buffer, at(lnum, 0), kind, 2).unwrap().lines;
    assert_eq!(content(1, RegisterKind::BlockWise), rows(&["a", "b"]));
    assert_eq!(content(1, RegisterKind::CharacterWise), Vec::<Vec<u8>>::new());
    assert_eq!(content(8, RegisterKind::BlockWise), Vec::<Vec<u8>>::new());
}

#[test]
fn registers_and_content_are_put() {
    let (mut editor, buffer, _, window) = shown(&["ab"]);
    let line = |text: &str| PutPlan {
        splices: Vec::new(),
        insertion: Some(LineInsertion { after_lnum: 1, lines: rows(&[text]) }),
        cursor_after: at(2, 0),
    };
    let nothing = PutPlan { splices: Vec::new(), insertion: None, cursor_after: at(1, 0) };
    assert_eq!(editor.put_register(window, None), Ok(false));
    assert_eq!(editor.put_register(window, Some(&nothing)), Ok(true));
    assert_eq!(editor.put_register(window, Some(&line("x"))), Ok(true));
    assert_eq!(editor.window(window).unwrap().cursor, at(2, 0));
    assert_eq!(editor.put_content(buffer, &line("y")), Ok(()));
    assert_eq!(text(&editor, buffer), rows(&["ab", "y", "x"]));
    assert_eq!(
        editor.put_register(WinHandle(3), None),
        Err(EditorError::UnknownWindow(WinHandle(3)))
    );
    let hidden = editor.create_buffer(true).unwrap();
    editor.unload_buffer(hidden).unwrap();
    assert_eq!(
        editor.put_content(hidden, &nothing),
        Err(EditorError::Buffer(BufferStateError::Unloaded))
    );
}

#[test]
fn edits_of_a_put_that_add_lines_are_made_in_turn() {
    let (mut editor, buffer, ..) = shown(&["ab", "cd"]);
    let insert = |row: usize, column: usize, replacement: &[&str]| BufferTextEditRequest {
        start: ExtmarkPosition::new(row, column),
        end: ExtmarkPosition::new(row, column),
        replacement: rows(replacement),
    };
    let plan = PutPlan {
        splices: vec![insert(0, 1, &["x", "y"]), insert(1, 1, &["-"])],
        insertion: None,
        cursor_after: at(1, 0),
    };
    let tick = editor.buffer(buffer).unwrap().changedtick;
    assert_eq!(editor.commit_put_plan(buffer, None, &plan), Ok(true));
    assert_eq!(text(&editor, buffer), rows(&["ax", "y-b", "cd"]));
    assert_eq!(editor.buffer(buffer).unwrap().changedtick, tick + 2);
    let plan = PutPlan {
        splices: vec![insert(0, 0, &["", ""]), insert(1, 3, &["!"])],
        insertion: Some(LineInsertion { after_lnum: 1, lines: rows(&["new"]) }),
        cursor_after: at(1, 0),
    };
    assert_eq!(
        editor.commit_put_plan(buffer, None, &plan),
        Err(EditorError::Buffer(BufferStateError::InvalidRange))
    );
    assert_eq!(text(&editor, buffer), rows(&["", "ax", "y-b", "cd"]));
    let outside = PutPlan {
        splices: vec![insert(0, 0, &["", ""]), insert(9, 0, &["!"])],
        insertion: None,
        cursor_after: at(1, 0),
    };
    assert!(editor.commit_put_plan(buffer, None, &outside).is_err());
    assert_eq!(text(&editor, buffer), rows(&["", "ax", "y-b", "cd"]));
}

fn replayed(seq: u64, start: usize, old_count: usize, lines: &[&str]) -> ReplayedEdit {
    ReplayedEdit { seq, start, old_count, lines: rows(lines), cursor: at(start, 0) }
}

#[test]
fn a_replayed_block_changes_the_text_and_moves_cursors() {
    let (mut editor, buffer, _, window) = shown(&["1", "2", "3"]);
    editor.set_window_cursor(window, at(3, 0)).unwrap();
    let reached = UndoState { seq: 3, modified: true };
    let block = ReplayedBlock { edits: vec![replayed(4, 1, 2, &["x"])], reached };
    assert_eq!(editor.buffer_undo(buffer, Ok(Some(block))), Ok(Some(4)));
    assert_eq!(text(&editor, buffer), rows(&["x", "3"]));
    assert_eq!(editor.window(window).unwrap().cursor, at(2, 0));
    assert_eq!(editor.buffer_undo_seq(buffer), Ok(3));
    assert_eq!(editor.buffer_redo(buffer, Ok(None)), Ok(None));
    let tick = editor.buffer(buffer).unwrap().changedtick;
    let walk = ReplayedWalk {
        blocks: vec![
            vec![replayed(4, 1, 1, &["1", "2"]), replayed(4, 3, 1, &[])],
            Vec::new(),
            vec![replayed(5, 1, 0, &["0"])],
        ],
        reached: UndoState { seq: 5, modified: false },
    };
    assert_eq!(editor.buffer_undo_to_seq(buffer, Ok(walk)), Ok(3));
    assert_eq!(text(&editor, buffer), rows(&["0", "1", "2"]));
    assert_eq!(editor.buffer(buffer).unwrap().changedtick, tick + 3);
    assert!(!editor.buffer(buffer).unwrap().modified);
    assert_eq!(editor.buffer_undo_seq(buffer), Ok(5));
}

#[test]
fn a_failed_replay_changes_nothing() {
    let (mut editor, buffer, ..) = shown(&["1", "2", "3"]);
    let reached = UndoState { seq: 0, modified: false };
    let block = ReplayedBlock {
        edits: vec![replayed(4, 1, 2, &[]), replayed(4, 2, 1, &["x"])],
        reached,
    };
    assert_eq!(
        editor.buffer_undo(buffer, Ok(Some(block))),
        Err(EditorError::Buffer(BufferStateError::InvalidRange))
    );
    assert_eq!(text(&editor, buffer), rows(&["1", "2", "3"]));
    assert_eq!(
        editor.buffer_undo(buffer, Err(BufferStateError::Unloaded)),
        Err(EditorError::Buffer(BufferStateError::Unloaded))
    );
    let hidden = editor.create_buffer(true).unwrap();
    editor.unload_buffer(hidden).unwrap();
    assert_eq!(
        editor.buffer_redo(hidden, Ok(Some(ReplayedBlock { edits: Vec::new(), reached }))),
        Err(EditorError::Buffer(BufferStateError::Unloaded))
    );
    assert_eq!(
        editor.buffer_undo_to_seq(
            BufHandle(9),
            Ok(ReplayedWalk { blocks: Vec::new(), reached })
        ),
        Err(EditorError::UnknownBuffer(BufHandle(9)))
    );
}

#[test]
fn undoing_and_redoing_restore_the_text() {
    let (mut editor, buffer, ..) = shown(&["a", "b", "c"]);
    let edit = BufferTextEditRequest {
        start: ExtmarkPosition::new(1, 0),
        end: ExtmarkPosition::new(1, 1),
        replacement: rows(&["x", "y"]),
    };
    assert_eq!(editor.replace_buffer_text(buffer, &edit, at(2, 0)), Ok(1));
    let changed = rows(&["a", "x", "y", "c"]);
    assert_eq!(text(&editor, buffer), changed);
    let back = ReplayedBlock {
        edits: vec![replayed(1, 2, 2, &["b"])],
        reached: UndoState { seq: 0, modified: false },
    };
    assert_eq!(editor.buffer_undo(buffer, Ok(Some(back))), Ok(Some(1)));
    assert_eq!(text(&editor, buffer), rows(&["a", "b", "c"]));
    assert_eq!(editor.buffer_undo_seq(buffer), Ok(0));
    let forth = ReplayedBlock {
        edits: vec![replayed(1, 2, 1, &["x", "y"])],
        reached: UndoState { seq: 1, modified: true },
    };
    assert_eq!(editor.buffer_redo(buffer, Ok(Some(forth))), Ok(Some(1)));
    assert_eq!(text(&editor, buffer), changed);
    assert_eq!(editor.replace_buffer_text(buffer, &edit, at(2, 0)), Ok(2));
}

#[test]
fn a_session_directory_change_is_followed() {
    let (mut editor, ..) = shown(&["a"]);
    let entered = |path: &str| DirectoryEntered::Entered(Some(path.to_owned()));
    editor
        .change_directory("/w", DirectoryScope::Window, Some("/".to_owned()), entered("/w"))
        .unwrap();
    assert_eq!(editor.effective_directory(), Some("/w".to_owned()));
    editor
        .change_directory("/g", DirectoryScope::Global, Some("/w".to_owned()), entered("/g"))
        .unwrap();
    assert_eq!(editor.effective_directory(), Some("/g".to_owned()));
    assert_eq!(editor.previous_directory(DirectoryScope::Global), Some("/w".to_owned()));
    assert_eq!(
        editor.change_directory(
            "/no",
            DirectoryScope::Global,
            None,
            DirectoryEntered::Refused("gone".to_owned())
        ),
        Err(DirectoryError::ChangeFailed { target: "/no".to_owned(), error: "gone".to_owned() })
    );
    assert_eq!(
        empty().prepare_directory_change(DirectoryScope::Window),
        Err(DirectoryError::NoCurrentWindow)
    );
}

#[test]
fn buffer_names_are_made_absolute() {
    let name = OxStr::from_text("x");
    assert_eq!(expand_buffer_name(&name, false, Some("/d/x"), false), OxStr::from_text("/d/x"));
    assert_eq!(expand_buffer_name(&name, false, Some("/d/x/"), true), OxStr::from_text("/d/x/"));
    assert_eq!(expand_buffer_name(&name, false, None, false), name);
}

#[test]
fn a_visit_brings_the_caller_back() {
    let (mut editor, buffer, tab, first) = shown(&["a"]);
    let other = editor.create_buffer(true).unwrap();
    let second = editor.split_vertical(tab, first, other, false, answer(10)).unwrap();
    let context = editor.enter_buffer_call(other, FileRead::Missing).unwrap();
    assert_eq!(editor.current_window(), Some(second));
    editor.leave_buffer_call(&context, FileRead::Missing);
    assert_eq!(editor.current_window(), Some(first));
    assert_eq!(editor.previous_window(), None);

    let hidden = editor.create_buffer(true).unwrap();
    let context = editor.enter_buffer_call(hidden, FileRead::Missing).unwrap();
    assert_eq!(editor.current_buffer(), Some(hidden));
    editor.leave_buffer_call(&context, FileRead::Missing);
    assert_eq!(editor.current_buffer(), Some(buffer));

    let context = editor.enter_window_call(second).unwrap();
    assert_eq!(editor.current_window(), Some(second));
    editor.leave_window_call(&context);
    assert_eq!(editor.current_window(), Some(first));
    assert_eq!(
        editor.enter_window_call(WinHandle(4)).unwrap_err(),
        EditorError::UnknownWindow(WinHandle(4))
    );
}

#[test]
fn an_ignored_event_is_not_visited() {
    let (mut editor, buffer, ..) = shown(&["a"]);
    let spellings = vec!["BufEnter".to_owned(), "bufenter".to_owned()];
    assert_eq!(
        editor.enter_buffer_event(buffer, true, &spellings, FileRead::Missing),
        Ok(None)
    );
    editor.windows[0].options.eventignorewin = "BufLeave,BufEnter".to_owned();
    assert_eq!(
        editor.enter_buffer_event(buffer, false, &spellings, FileRead::Missing),
        Ok(None)
    );
    assert!(ignores("all", &spellings));
    assert!(!ignores("BufLeave", &spellings));
}

#[test]
fn messages_go_where_the_routing_says() {
    let mut editor = empty();
    editor.push_message(echo("x"));
    assert_eq!(editor.message_destinations().len(), 1);
    assert_eq!(editor.message_destinations()[0], editor.message_destination());
    assert_ne!(editor.message_destination(), MessageDestination::Suppressed);
}

#[test]
fn queues_are_taken_once() {
    let mut editor = empty();
    assert!(!editor.ui_sends_pending());
    editor.queue_ui_send(OxStr::from_text("a"));
    editor.queue_ui_send(OxStr::from_text("b"));
    assert!(editor.ui_sends_pending());
    assert_eq!(editor.take_ui_sends(), vec![OxStr::from_text("a"), OxStr::from_text("b")]);
    assert_eq!(editor.take_ui_sends(), vec![]);
    editor.beep();
    assert!(editor.take_beeped());
    assert!(!editor.take_beeped());
}

#[test]
fn matches_get_ids_of_their_own() {
    let (mut editor, _, _, window) = shown(&["a"]);
    let item = |id: i64| MatchItem {
        id,
        group: OxStr::from_text("Error"),
        pattern: OxStr::from_text("x"),
        priority: 10,
    };
    assert_eq!(editor.add_match(window, item(-1)), 1000);
    assert_eq!(editor.add_match(window, item(-1)), 1001);
    assert_eq!(editor.add_match(window, item(5)), 5);
    assert!(editor.delete_match(window, 1000));
    assert!(!editor.delete_match(window, 1000));
    assert_eq!(editor.get_matches(window).len(), 2);
    editor.clear_matches(window);
    assert_eq!(editor.get_matches(window), vec![]);
}

#[test]
fn the_register_variable_follows() {
    let mut editor = empty();
    editor.set_v_register('a');
    let value = editor.vvars().iter().find(|entry| entry.0 == OxStr::from_text("register"));
    assert_eq!(value.unwrap().1, Object::String(OxStr::from_text("a")));
}

fn snapshot(damage: Option<TerminalDamage>) -> TerminalSnapshot {
    TerminalSnapshot {
        replies: b"ok".to_vec(),
        cursor_line: 2,
        cursor_column: 3,
        scrollback_len: 0,
        line_count: 3,
        damage,
    }
}

fn damage(first_line: usize, lines: &[&str]) -> TerminalDamage {
    TerminalDamage {
        resync: false,
        scrollback_deleted: 0,
        scrollback_pushed: 0,
        first_line,
        rows: rows(lines),
        all_rows: rows(&["all", "rows"]),
    }
}

/// A screen of three rows, of which the `rows` from line `first` on changed.
fn screen(first_line: usize, lines: &[&str], cursor_line: usize) -> TerminalSnapshot {
    TerminalSnapshot {
        replies: Vec::new(),
        cursor_line,
        cursor_column: 0,
        scrollback_len: 0,
        line_count: 3,
        damage: Some(damage(first_line, lines)),
    }
}

fn terminal_lines(editor: &Editor, channel: u64) -> Vec<Vec<u8>> {
    let info = editor.terminal_channel(channel).unwrap();
    text(editor, info.buffer)
}

#[test]
fn terminal_buffer_merges_partial_line_chunks() {
    let mut editor = empty();
    let channel = editor.allocate_channel_id();
    editor.allocate_terminal_buffer_rows(channel, None, 3).unwrap();

    editor.append_terminal_buffer(channel, &screen(1, &["hel"], 1)).unwrap();
    editor.append_terminal_buffer(channel, &screen(1, &["hello"], 2)).unwrap();
    editor.append_terminal_buffer(channel, &screen(2, &["     wor"], 2)).unwrap();
    editor.append_terminal_buffer(channel, &screen(2, &["     world"], 3)).unwrap();

    let lines = terminal_lines(&editor, channel);
    assert_eq!(lines, vec![b"hello".to_vec(), b"     world".to_vec(), Vec::new()]);
}

#[test]
fn terminal_buffer_appends_trailing_newline_without_blank_line() {
    let mut editor = empty();
    let channel = editor.allocate_channel_id();
    editor.allocate_terminal_buffer_rows(channel, None, 3).unwrap();

    editor.append_terminal_buffer(channel, &screen(1, &["first"], 2)).unwrap();
    editor.append_terminal_buffer(channel, &screen(2, &["     second"], 3)).unwrap();

    let lines = terminal_lines(&editor, channel);
    assert_eq!(lines, vec![b"first".to_vec(), b"     second".to_vec(), Vec::new()]);
}

#[test]
fn terminal_buffer_strips_carriage_returns_from_complete_lines() {
    let mut editor = empty();
    let channel = editor.allocate_channel_id();
    editor.allocate_terminal_buffer_rows(channel, None, 3).unwrap();

    editor.append_terminal_buffer(channel, &screen(1, &["one", "two"], 3)).unwrap();

    let lines = terminal_lines(&editor, channel);
    assert_eq!(lines, vec![b"one".to_vec(), b"two".to_vec(), Vec::new()]);
}

#[test]
fn terminal_buffer_keeps_partial_line_visible_without_newline() {
    let mut editor = empty();
    let channel = editor.allocate_channel_id();
    editor.allocate_terminal_buffer(channel).unwrap();

    editor.append_terminal_buffer(channel, &screen(1, &["partial"], 1)).unwrap();

    let lines = terminal_lines(&editor, channel);
    assert_eq!(lines, vec![b"partial".to_vec()]);
}

#[test]
fn terminal_rows_are_shown_and_grow_the_buffer() {
    let mut editor = empty();
    let channel = editor.allocate_channel_id();
    let buffer = editor.allocate_terminal_buffer_rows(channel, None, 2).unwrap();
    assert_eq!(text(&editor, buffer), rows(&["", ""]));
    editor
        .append_terminal_buffer(channel, &snapshot(Some(damage(2, &["b", "c"]))))
        .unwrap();
    assert_eq!(text(&editor, buffer), rows(&["", "b", "c"]));
    let mut rebuilt = damage(2, &["x"]);
    rebuilt.scrollback_pushed = 1;
    editor.append_terminal_buffer(channel, &snapshot(Some(rebuilt))).unwrap();
    assert_eq!(text(&editor, buffer), rows(&["all", "rows", "c"]));
    assert_eq!(editor.take_terminal_replies(channel), b"okok".to_vec());
    assert_eq!(editor.take_terminal_replies(channel), Vec::<u8>::new());
}

#[test]
fn styled_runs_of_terminal_rows_get_marks() {
    let plain = PenSpan { start: 0, end: 2, pen: None };
    let bold = PenSpan { start: 2, end: 5, pen: Some(7) };
    let repaint = pen_marks(4, &vec![vec![plain, bold], vec![], vec![bold]]);
    assert_eq!((repaint.first_row, repaint.last_row), (3, 6));
    assert_eq!(
        repaint.marks,
        vec![
            PenMark { row: 3, start: 2, end: 5, pen: 7 },
            PenMark { row: 5, start: 2, end: 5, pen: 7 },
        ]
    );
}

#[test]
fn terminal_windows_follow_outside_normal_mode() {
    let (mut editor, buffer, _, window) = shown(&["", ""]);
    let channel = editor.allocate_channel_id();
    assert_eq!(editor.allocate_terminal_buffer_rows(channel, Some(buffer), 3), Ok(buffer));
    editor.append_terminal_buffer(channel, &snapshot(None)).unwrap();
    assert_eq!(editor.window(window).unwrap().cursor, at(1, 0));
    editor.set_edit_mode(BufferEditMode::Insert);
    editor.append_terminal_buffer(channel, &snapshot(None)).unwrap();
    assert_eq!(editor.window(window).unwrap().cursor, at(2, 3));
    assert!(editor.is_terminal_buffer(buffer));
}

#[test]
fn a_terminal_keeps_the_handle_it_is_attached_to() {
    let (mut editor, buffer, ..) = shown(&["x"]);
    let current = BufHandle(0);
    assert_eq!(editor.allocate_terminal_buffer_rows(7, Some(current), 2), Ok(current));
    assert_eq!(text(&editor, buffer), rows(&["", ""]));
    assert_eq!(editor.terminal_channel(7).unwrap().buffer, current);
    assert!(!editor.is_terminal_buffer(buffer));
    editor.append_terminal_buffer(7, &screen(1, &["out"], 1)).unwrap();
    assert_eq!(text(&editor, buffer), rows(&["out", ""]));
    assert_eq!(
        empty().allocate_terminal_buffer_rows(7, Some(current), 2),
        Err(EditorError::NoCurrentTabpage)
    );
}

#[test]
fn terminal_channels_are_listed_in_order() {
    let mut editor = empty();
    let _ = editor.allocate_terminal_buffer(9).unwrap();
    let buffer = editor.allocate_terminal_buffer(4).unwrap();
    assert_eq!(editor.terminal_channel_ids(), vec![4, 9]);
    editor.set_terminal_channel_pty(4, Some("/dev/pts/1".to_owned()));
    assert_eq!(editor.terminal_channel(4).unwrap().pty, Some("/dev/pts/1".to_owned()));
    assert_eq!(editor.terminal_scrollback_limit(4), None);
    editor.buffer_mut(buffer).unwrap().options.scrollback = 50;
    assert_eq!(editor.terminal_scrollback_limit(4), Some(50));
    editor.close_terminal_channel(4);
    assert_eq!(editor.terminal_channel_ids(), vec![9]);
    assert_eq!(editor.append_terminal_buffer(4, &snapshot(None)), Ok(()));
    editor.buffer_mut(buffer).unwrap().options.scrollback = -1;
}

#[test]
fn a_terminal_without_its_buffer_cannot_show_rows() {
    let mut editor = empty();
    let buffer = editor.allocate_terminal_buffer(7).unwrap();
    editor.unload_buffer(buffer).unwrap();
    assert_eq!(
        editor.append_terminal_buffer(7, &snapshot(Some(damage(1, &["x"])))),
        Err(EditorError::Buffer(BufferStateError::Unloaded))
    );
    editor.wipe_buffer(buffer).unwrap();
    assert_eq!(
        editor.append_terminal_buffer(7, &snapshot(Some(damage(1, &["x"])))),
        Err(EditorError::UnknownBuffer(buffer))
    );
    assert_eq!(
        editor.allocate_terminal_buffer_rows(8, Some(buffer), 1),
        Err(EditorError::UnknownBuffer(buffer))
    );
}

#[test]
fn files_are_cut_at_line_feeds() {
    assert_eq!(split_lines(b"a\nb\n"), rows(&["a", "b"]));
    assert_eq!(split_lines(b"a\nb"), rows(&["a", "b"]));
    assert_eq!(split_lines(b""), rows(&[""]));
}
