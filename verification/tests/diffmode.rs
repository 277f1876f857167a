use ox_editor::buffer::BufferOptions;
use ox_editor::builtins::view::{call_getwinvar, call_setwinvar};
use ox_editor::diffmode::blocks::{add_comparison, add_operations, LineOperation};
use ox_editor::diffmode::flags::{
    add_scrollopt_hor, compare_key, remove_scrollopt_hor, DiffOpts,
};
use ox_editor::diffmode::folds::{fold_ranges_around, FoldRange};
use ox_editor::diffmode::{diff_fold_ranges, diffoff, diffthis, diffupdate, DiffBlock};
use ox_editor::editor::edits::LineReplaceRequest;
use ox_editor::editor::tabs::SplitAnswer;
use ox_editor::editor::{Editor, GlobalOptions};
use ox_editor::types::{BufHandle, OxStr, Position, Typval};
use ox_editor::window::{Area, Geometry, WindowOptions};

fn area(height: usize) -> Area {
    Area { geometry: Geometry { row: 0, col: 0, width: 80, height }, text_height: height }
}

fn editor_with(diffopt: &str, lines: Vec<Vec<u8>>) -> Editor {
    let mut editor = Editor::new(
        OxStr::from_text("editor"),
        GlobalOptions {
            diffopt: diffopt.to_owned(),
            scrollopt: "ver,jump".to_owned(),
            verbose: 0,
            autochdir: false,
            eventignore: String::new(),
        },
        WindowOptions {
            diff: false,
            scrollbind: false,
            cursorbind: false,
            wrap: true,
            foldmethod: "manual".to_owned(),
            foldcolumn: "0".to_owned(),
            foldenable: true,
            foldlevel: 0,
            winfixbuf: false,
            eventignorewin: String::new(),
        },
        BufferOptions { buftype: String::new(), tabstop: 8, scrollback: -1 },
    );
    let buffer = editor.create_buffer_with(lines, true).unwrap();
    editor.create_tabpage(buffer, Ok(area(24)), None).unwrap();
    editor
}

fn editor() -> Editor {
    editor_with("internal,filler,closeoff", vec![Vec::new()])
}

fn numbered(count: usize) -> Vec<Vec<u8>> {
    (0..count).map(|n| n.to_string().into_bytes()).collect()
}

fn changed(count: usize, at: usize) -> Vec<Vec<u8>> {
    let mut lines = numbered(count);
    lines[at] = b"diff".to_vec();
    lines
}

fn words(lines: &[&str]) -> Vec<Vec<u8>> {
    lines.iter().map(|line| line.as_bytes().to_vec()).collect()
}

/// Opens a window on a new buffer with `lines` and enters it.
fn open(editor: &mut Editor, lines: Vec<Vec<u8>>) -> BufHandle {
    let buffer = editor.create_buffer_with(lines, true).unwrap();
    let tab = editor.current_tabpage().unwrap();
    let window = editor.current_window().unwrap();
    let answer = SplitAnswer { area: area(12), areas: Vec::new() };
    editor.split_above(tab, window, buffer, true, Ok(answer)).unwrap();
    buffer
}

fn set(editor: &mut Editor, option: &str, value: Typval) {
    call_setwinvar(editor, &[Typval::Number(0), Typval::text(option), value], &mut Vec::new()).unwrap();
}

fn number(editor: &Editor, option: &str) -> i64 {
    match call_getwinvar(editor, &[Typval::Number(0), Typval::text(option)], &Vec::new()).unwrap() {
        Typval::Number(value) => value,
        other => panic!("expected a number for {option}, got {other:?}"),
    }
}

fn text(editor: &Editor, option: &str) -> String {
    match call_getwinvar(editor, &[Typval::Number(0), Typval::text(option)], &Vec::new()).unwrap() {
        Typval::String(value) => String::from_utf8(value.0).unwrap(),
        other => panic!("expected a string for {option}, got {other:?}"),
    }
}

fn foldclosed(ranges: &[FoldRange], lnum: usize) -> i64 {
    ranges
        .iter()
        .find(|range| range.start < lnum && lnum <= range.end)
        .map_or(-1, |range| range.start as i64 + 1)
}

fn foldclosedend(ranges: &[FoldRange], lnum: usize) -> i64 {
    ranges
        .iter()
        .find(|range| range.start < lnum && lnum <= range.end)
        .map_or(-1, |range| range.end as i64)
}

#[test]
fn diffthis_sets_the_diff_window_options() {
    let mut editor = editor();
    set(&mut editor, "&foldmethod", Typval::text("marker"));
    set(&mut editor, "&foldcolumn", Typval::text("4"));
    diffthis(&mut editor).unwrap();
    assert_eq!(number(&editor, "&diff"), 1);
    assert_eq!(text(&editor, "&foldmethod"), "diff");
    assert_eq!(text(&editor, "&foldcolumn"), "2");
    assert_eq!(number(&editor, "&scrollbind"), 1);
    assert_eq!(number(&editor, "&cursorbind"), 1);
    assert_eq!(number(&editor, "&wrap"), 0);
    assert_eq!(editor.globals.scrollopt, "ver,jump,hor");
}

#[test]
fn diffoff_restores_the_saved_options() {
    let mut editor = editor();
    set(&mut editor, "&foldmethod", Typval::text("marker"));
    set(&mut editor, "&foldcolumn", Typval::text("4"));
    diffthis(&mut editor).unwrap();
    diffoff(&mut editor, false).unwrap();
    assert_eq!(number(&editor, "&diff"), 0);
    assert_eq!(text(&editor, "&foldmethod"), "marker");
    assert_eq!(text(&editor, "&foldcolumn"), "4");
    assert_eq!(number(&editor, "&scrollbind"), 0);
    assert_eq!(number(&editor, "&cursorbind"), 0);
    assert_eq!(number(&editor, "&wrap"), 1);
    assert_eq!(editor.globals.scrollopt, "ver,jump");
}

#[test]
fn diffoff_bang_clears_every_diff_window() {
    let mut editor = editor_with("", numbered(50));
    diffthis(&mut editor).unwrap();
    open(&mut editor, numbered(50));
    diffthis(&mut editor).unwrap();
    diffoff(&mut editor, true).unwrap();
    let tab = editor.current_tabpage().unwrap();
    for window in editor.tabpage_windows(tab).unwrap() {
        editor.set_current_window(window).unwrap();
        assert_eq!(number(&editor, "&diff"), 0, "window {window:?} still in diff mode");
    }
    assert!(!editor.diff.blocks.iter().any(|entry| entry.0 == tab));
}

#[test]
fn diff_folds_fold_away_from_changes() {
    let mut editor = editor_with("", numbered(50));
    diffthis(&mut editor).unwrap();
    open(&mut editor, changed(50, 25));
    diffthis(&mut editor).unwrap();
    let ranges = diff_fold_ranges(&mut editor, 50);
    assert_eq!(foldclosedend(&ranges, 10), 19);
    assert_eq!(foldclosed(&ranges, 49), 33);
    assert_eq!(foldclosedend(&ranges, 49), 50);
    assert_eq!(foldclosed(&ranges, 26), -1);
    assert_ne!(foldclosed(&ranges, 10), -1);
}

#[test]
fn identical_diff_buffers_fold_every_line() {
    let mut editor = editor_with("", numbered(50));
    diffthis(&mut editor).unwrap();
    open(&mut editor, numbered(50));
    diffthis(&mut editor).unwrap();
    let ranges = diff_fold_ranges(&mut editor, 50);
    assert_eq!(foldclosed(&ranges, 1), 1);
    assert_eq!(foldclosedend(&ranges, 1), 50);
    assert_eq!(foldclosed(&ranges, 25), 1);
    assert_eq!(ranges, vec![FoldRange { start: 0, end: 50 }]);
}

#[test]
fn a_diff_window_without_a_partner_folds_nothing() {
    let mut editor = editor_with("", numbered(50));
    diffthis(&mut editor).unwrap();
    let ranges = diff_fold_ranges(&mut editor, 50);
    assert_eq!(foldclosed(&ranges, 10), -1);
}

#[test]
fn diffopt_context_shrinks_the_visible_window() {
    let mut editor = editor_with("filler,context:2", numbered(50));
    diffthis(&mut editor).unwrap();
    open(&mut editor, changed(50, 25));
    diffthis(&mut editor).unwrap();
    let ranges = diff_fold_ranges(&mut editor, 50);
    assert_eq!(foldclosedend(&ranges, 10), 23);
    assert_eq!(foldclosed(&ranges, 49), 29);
    assert_eq!(foldclosedend(&ranges, 49), 50);
    assert_eq!(foldclosed(&ranges, 26), -1);
}

#[test]
fn diffopt_foldcolumn_overrides_the_default() {
    let mut editor = editor_with("foldcolumn:4", vec![Vec::new()]);
    diffthis(&mut editor).unwrap();
    assert_eq!(text(&editor, "&foldcolumn"), "4");
}

#[test]
fn diffopt_followwrap_keeps_wrap_on() {
    let mut editor = editor_with("followwrap", vec![Vec::new()]);
    diffthis(&mut editor).unwrap();
    assert_eq!(number(&editor, "&wrap"), 1);
}

#[test]
fn diffopt_icase_treats_case_variants_as_equal() {
    let mut editor = editor_with("icase", words(&["Foo", "bar", "Baz"]));
    diffthis(&mut editor).unwrap();
    open(&mut editor, words(&["foo", "bar", "baz"]));
    diffthis(&mut editor).unwrap();
    let ranges = diff_fold_ranges(&mut editor, 3);
    assert_eq!(foldclosed(&ranges, 1), 1);
    assert_eq!(foldclosedend(&ranges, 1), 3);
}

#[test]
fn diffopt_iwhite_ignores_whitespace() {
    let mut editor = editor_with("iwhite", words(&["a  b", "c"]));
    diffthis(&mut editor).unwrap();
    open(&mut editor, words(&["a b", "c"]));
    diffthis(&mut editor).unwrap();
    let ranges = diff_fold_ranges(&mut editor, 2);
    assert_eq!(foldclosed(&ranges, 1), 1);
    assert_eq!(foldclosedend(&ranges, 1), 2);
}

#[test]
fn diffupdate_recomputes_after_an_edit() {
    let mut editor = editor_with("", numbered(50));
    diffthis(&mut editor).unwrap();
    let buffer = open(&mut editor, numbered(50));
    diffthis(&mut editor).unwrap();
    assert_eq!(foldclosed(&diff_fold_ranges(&mut editor, 50), 10), 1);
    editor
        .replace_buffer_lines(LineReplaceRequest {
            buffer,
            start: 26,
            end: 26,
            lines: vec![b"diff".to_vec()],
            cursor_after: Position { lnum: 1, col: 0 },
        })
        .unwrap();
    diffupdate(&mut editor);
    let ranges = diff_fold_ranges(&mut editor, 50);
    assert_eq!(foldclosed(&ranges, 26), -1);
    assert_eq!(foldclosedend(&ranges, 10), 19);
}

#[test]
fn entering_diff_mode_twice_keeps_the_first_options() {
    let mut editor = editor();
    set(&mut editor, "&foldmethod", Typval::text("marker"));
    diffthis(&mut editor).unwrap();
    diffthis(&mut editor).unwrap();
    diffoff(&mut editor, false).unwrap();
    assert_eq!(text(&editor, "&foldmethod"), "marker");
    assert_eq!(number(&editor, "&wrap"), 1);
}

#[test]
fn a_manual_fold_method_switches_folding_off() {
    let mut editor = editor();
    diffthis(&mut editor).unwrap();
    diffoff(&mut editor, false).unwrap();
    assert_eq!(text(&editor, "&foldmethod"), "manual");
    assert_eq!(number(&editor, "&foldenable"), 0);
}

#[test]
fn diff_commands_need_a_window() {
    let mut editor = Editor::new(
        OxStr::from_text("editor"),
        GlobalOptions {
            diffopt: String::new(),
            scrollopt: String::new(),
            verbose: 0,
            autochdir: false,
            eventignore: String::new(),
        },
        WindowOptions {
            diff: false,
            scrollbind: false,
            cursorbind: false,
            wrap: true,
            foldmethod: String::new(),
            foldcolumn: String::new(),
            foldenable: true,
            foldlevel: 0,
            winfixbuf: false,
            eventignorewin: String::new(),
        },
        BufferOptions { buftype: String::new(), tabstop: 8, scrollback: -1 },
    );
    assert_eq!(diffthis(&mut editor), Err("E444: No current window".to_owned()));
    assert_eq!(diffoff(&mut editor, false), Err("E444: No current tabpage".to_owned()));
    assert_eq!(diff_fold_ranges(&mut editor, 9), vec![]);
}

#[test]
fn flags_are_read_with_their_defaults() {
    let opts = DiffOpts::read("");
    assert_eq!((opts.context, opts.foldcolumn), (6, 2));
    let opts = DiffOpts::read("context:0, foldcolumn:12 ,icase,iwhiteall,iwhiteeol,unknown");
    assert_eq!((opts.context, opts.foldcolumn), (1, 9));
    assert!(opts.icase && opts.iwhite && opts.iwhiteeol && !opts.followwrap);
    let opts = DiffOpts::read("context:x,context:3,foldcolumn:-1");
    assert_eq!((opts.context, opts.foldcolumn), (3, 2));
}

#[test]
fn keys_follow_the_flags() {
    let line = b"A \tb  ";
    assert_eq!(compare_key(line, DiffOpts::read("")), line.to_vec());
    assert_eq!(compare_key(line, DiffOpts::read("iwhiteeol")), b"A \tb".to_vec());
    assert_eq!(compare_key(line, DiffOpts::read("iwhite")), b"Ab".to_vec());
    assert_eq!(compare_key(line, DiffOpts::read("icase,iwhite")), b"ab".to_vec());
}

#[test]
fn horizontal_scrolling_comes_and_goes() {
    assert_eq!(add_scrollopt_hor(""), "hor");
    assert_eq!(add_scrollopt_hor("ver"), "ver,hor");
    assert_eq!(add_scrollopt_hor("hor,ver"), "hor,ver");
    assert_eq!(remove_scrollopt_hor("ver,hor"), "ver");
    assert_eq!(remove_scrollopt_hor("hor"), "");
    assert_eq!(remove_scrollopt_hor("ver,jump"), "ver,jump");
}

#[test]
fn folds_are_the_complement_of_unordered_changes() {
    let ranges = fold_ranges_around(&vec![(30, 1), (5, 1)], 2, 40);
    assert_eq!(
        ranges,
        vec![
            FoldRange { start: 0, end: 2 },
            FoldRange { start: 7, end: 27 },
            FoldRange { start: 32, end: 40 },
        ]
    );
    assert_eq!(fold_ranges_around(&vec![], 6, 0), vec![]);
    assert_eq!(fold_ranges_around(&vec![(1, 40)], 6, 40), vec![]);
}

fn step(equal: bool, old: (usize, usize), new: (usize, usize)) -> LineOperation {
    LineOperation {
        equal,
        old_start: old.0,
        old_len: old.1,
        new_start: new.0,
        new_len: new.1,
    }
}

#[test]
fn touching_changes_are_one_block() {
    let other = BufHandle(2);
    let mut blocks = Vec::new();
    add_operations(
        &mut blocks,
        &vec![
            step(true, (0, 3), (0, 3)),
            step(false, (3, 2), (3, 0)),
            step(false, (5, 1), (3, 4)),
            step(true, (6, 1), (7, 1)),
            step(false, (7, 0), (8, 1)),
        ],
        other,
    );
    assert_eq!(
        blocks,
        vec![
            DiffBlock { base: (4, 3), other_buffer: other, other: (4, 4) },
            DiffBlock { base: (8, 0), other_buffer: other, other: (9, 1) },
        ]
    );
}

#[test]
fn texts_are_compared_line_by_line() {
    let other = BufHandle(2);
    let mut blocks = Vec::new();
    add_comparison(&mut blocks, "a\nb\nc\n", other, "a\nx\nc\n");
    assert_eq!(blocks, vec![DiffBlock { base: (2, 1), other_buffer: other, other: (2, 1) }]);
    add_comparison(&mut blocks, "same\n", BufHandle(3), "same\n");
    assert_eq!(blocks.len(), 1);
}
