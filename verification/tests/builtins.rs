use ox_editor::buffer::BufferOptions;
use ox_editor::builtins::server::{
    server_list, server_start, server_start_address, server_stop, server_stop_address,
    ServerAddress, StartOutcome, StopOutcome,
};
use ox_editor::builtins::tag::{
    gettagstack, parse_stack_items, settagstack, significant_length, stack_to_typval, tag_lookup,
    taglist, taglist_request, OptionLayers, TagMatch, TagStack, TagStackChange, TagStackEdit,
    TagStackItem,
};
use ox_editor::builtins::view::{
    call_getwinvar, call_screen_builtin, call_screencol, call_screenrow, call_setwinvar,
    call_window_builtin, call_wincol, call_winlayout, call_winline, call_winrestview,
    call_winsaveview, ScreenBuiltin, WindowBuiltin,
};
use ox_editor::builtins::window::{
    call_getwininfo, call_tabpagenr_builtin, call_tabpagewinnr_builtin, call_win_gotoid_builtin,
    call_winbufnr_builtin, call_winnr_builtin, window_builtin, Frame, TabLayout, WindowFunction,
    WindowSteps,
};
use ox_editor::editor::tabs::SplitAnswer;
use ox_editor::editor::{Editor, GlobalOptions};
use ox_editor::options::{OptionType, OptionValue, OtherOption, OtherOptions};
use ox_editor::types::{BufHandle, EvalError, OxStr, Position, TabHandle, Typval, WinHandle};
use ox_editor::window::{Area, Geometry, WindowOptions};

fn empty() -> Editor {
    Editor::new(
        OxStr::from_text("editor"),
        GlobalOptions {
            diffopt: String::new(),
            scrollopt: String::new(),
            verbose: 3,
            autochdir: false,
            eventignore: String::new(),
        },
        WindowOptions {
            diff: false,
            scrollbind: false,
            cursorbind: false,
            wrap: true,
            foldmethod: "manual".to_owned(),
            foldcolumn: "0".to_owned(),
            foldenable: true,
            foldlevel: 0,
            winfixbuf: false,
            eventignorewin: String::new(),
        },
        BufferOptions { buftype: String::new(), tabstop: 8, scrollback: -1 },
    )
}

fn area(row: usize, col: usize, width: usize, height: usize) -> Area {
    Area { geometry: Geometry { row, col, width, height }, text_height: height }
}

/// One listed buffer shown in an 80x24 tabpage.
fn editor_with_window() -> Editor {
    let mut editor = empty();
    let buffer = editor
        .create_buffer_with(vec![b"alpha".to_vec(), b"bravo".to_vec()], true)
        .unwrap();
    editor.create_tabpage(buffer, Ok(area(0, 0, 80, 24)), None).unwrap();
    editor
}

fn split(editor: &mut Editor, placed: Area) -> WinHandle {
    let tab = editor.current_tabpage().unwrap();
    let window = editor.current_window().unwrap();
    let buffer = editor.current_buffer().unwrap();
    let answer = SplitAnswer { area: placed, areas: Vec::new() };
    editor.split_vertical(tab, window, buffer, true, Ok(answer)).unwrap()
}

fn tab(editor: &mut Editor) -> TabHandle {
    let buffer = editor.current_buffer().unwrap();
    editor.create_tabpage(buffer, Ok(area(0, 0, 80, 24)), None).unwrap()
}

fn list(value: Typval) -> Vec<Typval> {
    match value {
        Typval::List(items) => items,
        other => panic!("expected a list, got {other:?}"),
    }
}

fn field(value: &Typval, key: &str) -> Option<Typval> {
    match value {
        Typval::Dict(entries) => entries
            .iter()
            .find(|entry| entry.0 == OxStr::from_text(key))
            .map(|entry| entry.1.clone()),
        other => panic!("expected a dictionary, got {other:?}"),
    }
}

fn failure<T: std::fmt::Debug>(result: Result<T, EvalError>) -> String {
    let error = result.unwrap_err();
    format!("{}: {}", error.code, error.message)
}

#[test]
fn getwininfo_lists_windows() {
    let editor = editor_with_window();
    let current = editor.current_window().unwrap();
    let winid = i64::from(current.0);

    let all = list(call_getwininfo(&editor, &[]).unwrap());
    assert!(!all.is_empty());

    let items = list(call_getwininfo(&editor, &[Typval::Number(winid)]).unwrap());
    assert_eq!(items.len(), 1);
    let expected_buffer = i64::from(editor.window(current).unwrap().buffer.0);
    assert_eq!(field(&items[0], "bufnr"), Some(Typval::Number(expected_buffer)));
    assert_eq!(field(&items[0], "winid"), Some(Typval::Number(winid)));

    let keys: Vec<OxStr> = match &items[0] {
        Typval::Dict(entries) => {
            entries.iter().map(|(key, _)| OxStr(key.as_bytes().to_vec())).collect()
        }
        other => panic!("expected a dictionary, got {other:?}"),
    };
    let expected = [
        "tabnr", "winnr", "winid", "height", "width", "bufnr", "terminal", "quickfix", "loclist",
    ];
    assert_eq!(keys, expected.map(OxStr::from_text));

    let unknown = list(call_getwininfo(&editor, &[Typval::Number(9_999_999)]).unwrap());
    assert!(unknown.is_empty());
}

#[test]
fn winnr_counts_windows_in_the_current_tabpage_only() {
    let mut editor = editor_with_window();
    tab(&mut editor);
    tab(&mut editor);
    assert_eq!(editor.windows().len(), 3);
    assert_eq!(call_winnr_builtin(&editor, &[Typval::text("$")]), Ok(Typval::Number(1)));
    split(&mut editor, area(0, 40, 40, 24));
    assert_eq!(call_winnr_builtin(&editor, &[Typval::text("$")]), Ok(Typval::Number(2)));
    assert_eq!(editor.windows().len(), 4);
}

#[test]
fn winnr_numbers_the_current_window_within_its_tabpage() {
    let mut editor = editor_with_window();
    tab(&mut editor);
    tab(&mut editor);
    assert_eq!(call_winnr_builtin(&editor, &[]), Ok(Typval::Number(1)));
    assert_eq!(call_tabpagenr_builtin(&editor, &[]), Ok(Typval::Number(3)));
    assert_eq!(call_tabpagenr_builtin(&editor, &[Typval::text("$")]), Ok(Typval::Number(3)));
}

#[test]
fn wrong_argument_counts_are_refused() {
    let mut editor = editor_with_window();
    let one = [Typval::Number(1)];
    let two = [Typval::Number(1), Typval::Number(2)];
    let four = [Typval::Number(1), Typval::Number(2), Typval::Number(3), Typval::Number(4)];
    assert_eq!(
        failure(call_winnr_builtin(&editor, &two)),
        "E118: Too many arguments for function: winnr"
    );
    assert_eq!(
        failure(call_tabpagenr_builtin(&editor, &two)),
        "E118: Too many arguments for function: tabpagenr"
    );
    assert_eq!(
        failure(call_tabpagewinnr_builtin(&editor, &[], &Vec::new())),
        "E119: Not enough arguments for function: tabpagewinnr"
    );
    assert_eq!(
        failure(call_winbufnr_builtin(&editor, &[])),
        "E119: Not enough arguments for function: winbufnr"
    );
    assert_eq!(
        failure(call_getwininfo(&editor, &two)),
        "E118: Too many arguments for function: getwininfo"
    );
    assert_eq!(
        failure(call_screencol(&editor, &one, 0)),
        "E118: Too many arguments for function: screencol"
    );
    assert_eq!(
        failure(call_screenrow(&editor, &one)),
        "E118: Too many arguments for function: screenrow"
    );
    assert_eq!(
        failure(call_wincol(&editor, &one, 0)),
        "E118: Too many arguments for function: wincol"
    );
    assert_eq!(
        failure(call_getwinvar(&editor, &one, &Vec::new())),
        "E119: Not enough arguments for function: getwinvar"
    );
    assert_eq!(
        failure(call_getwinvar(&editor, &four, &Vec::new())),
        "E118: Too many arguments for function: getwinvar"
    );
    assert_eq!(
        failure(call_setwinvar(&mut editor, &two, &mut Vec::new())),
        "E119: Not enough arguments for function: setwinvar"
    );
    assert_eq!(
        failure(call_setwinvar(&mut editor, &four, &mut Vec::new())),
        "E118: Too many arguments for function: setwinvar"
    );
    assert_eq!(
        failure(call_win_gotoid_builtin(&mut editor, &[])),
        "E119: Not enough arguments for function: win_gotoid"
    );
    assert_eq!(
        failure(gettagstack(&editor, &two, &Vec::new())),
        "E118: Too many arguments for function: gettagstack"
    );
    assert_eq!(
        failure(settagstack(&editor, &one)),
        "E119: Not enough arguments for function: settagstack"
    );
    assert_eq!(
        failure(settagstack(&editor, &four)),
        "E118: Too many arguments for function: settagstack"
    );
    assert_eq!(
        failure(taglist_request(&[])),
        "E119: Not enough arguments for function: taglist"
    );
    assert_eq!(
        failure(taglist(&four, Ok(Vec::new()))),
        "E118: Too many arguments for function: taglist"
    );
}

#[test]
fn numbers_are_needed_where_windows_are_named() {
    let editor = editor_with_window();
    assert_eq!(
        failure(call_winbufnr_builtin(&editor, &[Typval::text("x")])),
        "E1030: Using a String as a Number"
    );
    assert_eq!(
        failure(call_winbufnr_builtin(&editor, &[Typval::list(Vec::new())])),
        "E745: Using a List as a Number"
    );
    assert_eq!(
        failure(call_getwininfo(&editor, &[Typval::dict(Vec::new())])),
        "E728: Using a Dictionary as a Number"
    );
}

#[test]
fn windows_are_found_by_number_and_id() {
    let mut editor = editor_with_window();
    let first = editor.current_window().unwrap();
    let second = split(&mut editor, area(0, 40, 40, 24));
    let id = |window: WinHandle| Typval::Number(i64::from(window.0));
    assert_eq!(call_winbufnr_builtin(&editor, &[Typval::Number(0)]), Ok(Typval::Number(1)));
    assert_eq!(call_winbufnr_builtin(&editor, &[Typval::Number(2)]), Ok(Typval::Number(1)));
    assert_eq!(call_winbufnr_builtin(&editor, &[Typval::Number(3)]), Ok(Typval::Number(-1)));
    assert_eq!(call_winbufnr_builtin(&editor, &[id(first)]), Ok(Typval::Number(1)));
    assert_eq!(call_winbufnr_builtin(&editor, &[Typval::Number(-1)]), Ok(Typval::Number(-1)));
    assert_eq!(call_win_gotoid_builtin(&mut editor, &[id(first)]), Ok(Typval::Number(1)));
    assert_eq!(editor.current_window(), Some(first));
    assert_eq!(call_win_gotoid_builtin(&mut editor, &[Typval::Number(7)]), Ok(Typval::Number(0)));
    assert_eq!(editor.current_window(), Some(first));
    let args = [Typval::Number(2), Typval::Number(1)];
    assert_eq!(call_window_builtin(&editor, WindowBuiltin::WinGetid, &args), id(second));
    assert_eq!(call_window_builtin(&editor, WindowBuiltin::WinGetid, &[]), id(first));
    assert_eq!(
        call_window_builtin(&editor, WindowBuiltin::Winwidth, &[Typval::Number(2)]),
        Typval::Number(40)
    );
    assert_eq!(
        call_window_builtin(&editor, WindowBuiltin::Winheight, &[Typval::Number(0)]),
        Typval::Number(24)
    );
    assert_eq!(
        call_window_builtin(&editor, WindowBuiltin::Winheight, &[]),
        Typval::Number(-1)
    );
}

#[test]
fn tabpagewinnr_walks_the_layout() {
    let mut editor = editor_with_window();
    let first = editor.current_window().unwrap();
    let second = split(&mut editor, area(0, 40, 40, 24));
    let steps = |window, left, right| WindowSteps { window, left, down: None, up: None, right };
    let layouts = vec![TabLayout {
        tab: editor.current_tabpage().unwrap(),
        root: Frame::Row(vec![Frame::Leaf(first), Frame::Leaf(second)]),
        previous: Some(first),
        steps: vec![steps(first, None, Some(second)), steps(second, Some(first), None)],
    }];
    let ask = |selector: &str| {
        call_tabpagewinnr_builtin(&editor, &[Typval::Number(1), Typval::text(selector)], &layouts)
    };
    assert_eq!(
        call_tabpagewinnr_builtin(&editor, &[Typval::Number(1)], &layouts),
        Ok(Typval::Number(2))
    );
    assert_eq!(ask("$"), Ok(Typval::Number(2)));
    assert_eq!(ask("#"), Ok(Typval::Number(1)));
    assert_eq!(ask("h"), Ok(Typval::Number(1)));
    assert_eq!(ask("9h"), Ok(Typval::Number(1)));
    assert_eq!(ask("l"), Ok(Typval::Number(2)));
    assert_eq!(failure(ask("2x")), "E15: Invalid expression: \"2x\"");
    assert_eq!(
        call_tabpagewinnr_builtin(&editor, &[Typval::Number(5)], &layouts),
        Ok(Typval::Number(0))
    );
    let leaf = |window: WinHandle| {
        Typval::list(vec![Typval::text("leaf"), Typval::Number(i64::from(window.0))])
    };
    assert_eq!(
        call_winlayout(&editor, &[], &layouts),
        Typval::list(vec![
            Typval::text("row"),
            Typval::list(vec![leaf(first), leaf(second)]),
        ])
    );
    assert_eq!(call_winlayout(&editor, &[Typval::Number(-1)], &layouts), Typval::list(vec![]));
}

#[test]
fn cells_show_the_covering_windows_text() {
    let editor = editor_with_window();
    let at = |row: i64, column: i64| [Typval::Number(row), Typval::Number(column)];
    let ask = |builtin, args: &[Typval]| call_screen_builtin(&editor, builtin, args);
    assert_eq!(ask(ScreenBuiltin::Screenstring, &at(2, 1)), Typval::text("b"));
    assert_eq!(ask(ScreenBuiltin::Screenstring, &at(1, 9)), Typval::text(" "));
    assert_eq!(ask(ScreenBuiltin::Screenstring, &at(3, 1)), Typval::text(""));
    assert_eq!(ask(ScreenBuiltin::Screenchar, &at(1, 2)), Typval::Number(108));
    assert_eq!(ask(ScreenBuiltin::Screenchar, &at(0, 1)), Typval::Number(-1));
    assert_eq!(
        ask(ScreenBuiltin::Screenchars, &at(1, 1)),
        Typval::list(vec![Typval::Number(97)])
    );
    assert_eq!(ask(ScreenBuiltin::Screenattr, &at(1, 1)), Typval::Number(0));
    assert_eq!(ask(ScreenBuiltin::Screenattr, &at(99, 1)), Typval::Number(-1));
}

#[test]
fn malformed_text_is_shown_with_replacements() {
    let mut editor = empty();
    let buffer = editor.create_buffer_with(vec![vec![0x61, 0xff, 0x62]], true).unwrap();
    editor.create_tabpage(buffer, Ok(area(0, 0, 80, 24)), None).unwrap();
    let args = [Typval::Number(1), Typval::Number(2)];
    assert_eq!(
        call_screen_builtin(&editor, ScreenBuiltin::Screenchar, &args),
        Typval::Number(0xfffd)
    );
}

#[test]
fn cursor_cells_are_reported() {
    let mut editor = editor_with_window();
    let window = editor.current_window().unwrap();
    editor.set_window_cursor(window, Position { lnum: 2, col: 3 }).unwrap();
    assert_eq!(call_screencol(&editor, &[], 3), Ok(Typval::Number(4)));
    assert_eq!(call_wincol(&editor, &[], 3), Ok(Typval::Number(4)));
    assert_eq!(call_screenrow(&editor, &[]), Ok(Typval::Number(2)));
    assert_eq!(call_winline(&editor), Ok(Typval::Number(2)));
    let none = empty();
    assert_eq!(failure(call_screenrow(&none, &[])), "E957: Invalid window");
    assert_eq!(failure(call_winline(&none)), "E957: Invalid window");
    editor.set_window_cursor(window, Position { lnum: 9, col: 0 }).unwrap();
    assert_eq!(failure(call_screencol(&editor, &[], 0)), "E16: invalid buffer range");
}

#[test]
fn a_saved_view_is_restored() {
    let mut editor = editor_with_window();
    let window = editor.current_window().unwrap();
    editor.set_window_cursor(window, Position { lnum: 2, col: 3 }).unwrap();
    let saved = call_winsaveview(&editor, 3).unwrap();
    assert_eq!(field(&saved, "lnum"), Some(Typval::Number(2)));
    assert_eq!(field(&saved, "curswant"), Some(Typval::Number(3)));
    editor.set_window_cursor(window, Position { lnum: 1, col: 0 }).unwrap();
    assert_eq!(call_winrestview(&mut editor, &[saved]), Ok(Typval::Number(0)));
    let state = editor.window(window).unwrap();
    assert_eq!(state.cursor, Position { lnum: 2, col: 3 });
    assert_eq!((state.topline, state.curswant, state.set_curswant), (1, 3, false));
    assert_eq!(
        failure(call_winrestview(&mut editor, &[Typval::Number(1)])),
        "E1297: Dictionary required"
    );
}

#[test]
fn window_variables_and_options_are_read_and_set() {
    let mut editor = editor_with_window();
    let window = editor.current_window().unwrap();
    let name = |name: &str| Typval::text(name);
    let set = |editor: &mut Editor, key: &str, value: Typval| {
        call_setwinvar(editor, &[Typval::Number(1), name(key), value], &mut Vec::new())
    };
    assert_eq!(set(&mut editor, "x", Typval::Number(5)), Ok(Typval::Number(0)));
    assert_eq!(editor.window_variables_version(window), Ok(1));
    let get = |editor: &Editor, key: &str| {
        let args = [Typval::Number(1), name(key), Typval::text("none")];
        call_getwinvar(editor, &args, &Vec::new()).unwrap()
    };
    assert_eq!(get(&editor, "x"), Typval::Number(5));
    assert_eq!(get(&editor, "y"), Typval::text("none"));
    assert_eq!(
        get(&editor, ""),
        Typval::dict(vec![(OxStr::from_text("x"), Typval::Number(5))])
    );
    assert_eq!(get(&editor, "&wrap"), Typval::Number(1));
    assert_eq!(get(&editor, "&verbose"), Typval::Number(3));
    assert_eq!(get(&editor, "&nosuch"), Typval::text("none"));
    assert_eq!(set(&mut editor, "&wrap", Typval::Number(0)), Ok(Typval::Number(0)));
    assert_eq!(get(&editor, "&wrap"), Typval::Number(0));
    assert_eq!(set(&mut editor, "&foldlevel", Typval::Number(4)), Ok(Typval::Number(0)));
    assert_eq!(get(&editor, "&foldlevel"), Typval::Number(4));
    assert_eq!(set(&mut editor, "&verbose", Typval::Number(9)), Ok(Typval::Number(0)));
    assert_eq!(get(&editor, "&verbose"), Typval::Number(3));
    assert_eq!(
        failure(set(&mut editor, "&wrap", Typval::text("x"))),
        "E355: The value has the wrong type for the option"
    );
    assert_eq!(
        failure(set(&mut editor, "&wrap", Typval::Nil)),
        "E728: Use a Number or a String for a window option"
    );
    assert_eq!(
        failure(call_setwinvar(
            &mut editor,
            &[Typval::Number(9), name("x"), Typval::Nil],
            &mut Vec::new()
        )),
        "E957: Invalid window number"
    );
    let version = editor.window_variables_version(window);
    for number in [-1, i64::MIN] {
        assert_eq!(
            failure(call_setwinvar(
                &mut editor,
                &[Typval::Number(number), name("x"), Typval::Number(7)],
                &mut Vec::new()
            )),
            "E957: Invalid window number"
        );
    }
    assert_eq!(get(&editor, "x"), Typval::Number(5));
    assert_eq!(editor.window_variables_version(window), version);
    assert_eq!(
        call_getwinvar(&editor, &[Typval::Number(9), name("x")], &Vec::new()),
        Ok(Typval::text(""))
    );
}

#[test]
fn options_that_the_editor_does_not_read_are_handed_in() {
    let mut editor = editor_with_window();
    let other = |local: bool, kind: OptionType, value: OptionValue| OtherOption {
        local,
        kind,
        value,
    };
    let row = |window: WinHandle, number: bool| OtherOptions {
        window,
        options: vec![
            (
                OxStr::from_text("number"),
                other(true, OptionType::Boolean, OptionValue::Boolean(number)),
            ),
            (
                OxStr::from_text("shell"),
                other(false, OptionType::String, OptionValue::String("sh".to_owned())),
            ),
        ],
    };
    let first = editor.current_window().unwrap();
    let second = split(&mut editor, area(0, 40, 40, 24));
    let mut others = vec![row(second, false), row(first, true)];
    let get = |editor: &Editor, others: &Vec<OtherOptions>, number: i64, name: &str| {
        call_getwinvar(editor, &[Typval::Number(number), Typval::text(name)], others).unwrap()
    };
    assert_eq!(get(&editor, &others, 1, "&number"), Typval::Number(1));
    assert_eq!(get(&editor, &others, 2, "&number"), Typval::Number(0));
    assert_eq!(get(&editor, &others, 1, "&shell"), Typval::text("sh"));
    assert_eq!(get(&editor, &others, 1, "&nosuch"), Typval::text(""));
    let mut set = |others: &mut Vec<OtherOptions>, name: &str, value: Typval| {
        call_setwinvar(&mut editor, &[Typval::Number(2), Typval::text(name), value], others)
    };
    assert_eq!(set(&mut others, "&number", Typval::Number(5)), Ok(Typval::Number(0)));
    assert_eq!(set(&mut others, "&shell", Typval::text("zsh")), Ok(Typval::Number(0)));
    assert_eq!(
        failure(set(&mut others, "&number", Typval::text("on"))),
        "E355: The value has the wrong type for the option"
    );
    assert_eq!(
        failure(set(&mut others, "&number", Typval::list(Vec::new()))),
        "E728: Use a Number or a String for a window option"
    );
    assert_eq!(get(&editor, &others, 2, "&number"), Typval::Number(1));
    assert_eq!(get(&editor, &others, 1, "&number"), Typval::Number(1));
    assert_eq!(get(&editor, &others, 2, "&shell"), Typval::text("sh"));
}

fn entry(name: &str, value: Typval) -> (OxStr, Typval) {
    (OxStr::from_text(name), value)
}

fn stack_item() -> Typval {
    Typval::dict(vec![
        entry("tagname", Typval::text("main")),
        entry(
            "from",
            Typval::list(vec![
                Typval::Number(2),
                Typval::Number(10),
                Typval::Number(-4),
                Typval::Number(1),
            ]),
        ),
        entry("matchnr", Typval::Number(3)),
        entry("user_data", Typval::text("mine")),
    ])
}

fn parsed_item() -> TagStackItem {
    TagStackItem {
        tagname: "main".to_owned(),
        from_bufnr: BufHandle(2),
        from_lnum: 10,
        from_col: 0,
        from_off: 1,
        bufnr: None,
        matchnr: 3,
        user_data: Some(Typval::text("mine")),
    }
}

#[test]
fn stack_items_are_parsed_and_shown() {
    let bad = Typval::dict(vec![entry("tagname", Typval::text("lost"))]);
    let items = parse_stack_items(&vec![Typval::Nil, bad, stack_item()]);
    assert_eq!(items, vec![parsed_item()]);
    let shown = stack_to_typval(&TagStack { items, curidx: 2 });
    assert_eq!(field(&shown, "length"), Some(Typval::Number(1)));
    assert_eq!(field(&shown, "curidx"), Some(Typval::Number(2)));
    let first = list(field(&shown, "items").unwrap());
    assert_eq!(field(&first[0], "bufnr"), Some(Typval::Number(2)));
    assert_eq!(field(&first[0], "tagname"), Some(Typval::text("main")));
    assert_eq!(field(&first[0], "user_data"), Some(Typval::text("mine")));
}

#[test]
fn gettagstack_reads_a_windows_stack() {
    let editor = editor_with_window();
    let window = editor.current_window().unwrap();
    let stacks = vec![(window, TagStack { items: vec![parsed_item()], curidx: 2 })];
    let shown = gettagstack(&editor, &[], &stacks).unwrap();
    assert_eq!(field(&shown, "length"), Some(Typval::Number(1)));
    let by_id = gettagstack(&editor, &[Typval::Number(i64::from(window.0))], &stacks).unwrap();
    assert_eq!(by_id, shown);
    let by_place = gettagstack(&editor, &[Typval::Number(1)], &stacks).unwrap();
    assert_eq!(by_place, shown);
    assert_eq!(
        gettagstack(&editor, &[Typval::Number(-3)], &stacks),
        Ok(Typval::dict(Vec::new()))
    );
    assert_eq!(gettagstack(&editor, &[], &Vec::new()), Ok(Typval::dict(Vec::new())));
}

#[test]
fn settagstack_decides_what_happens() {
    let editor = editor_with_window();
    let window = editor.current_window().unwrap();
    let dict = |entries| Typval::dict(entries);
    let items = || entry("items", Typval::list(vec![stack_item()]));
    assert_eq!(
        settagstack(&editor, &[Typval::Number(0), dict(vec![items(), entry("curidx", Typval::Number(2))])]),
        Ok(TagStackChange::Update {
            window,
            curidx: Some(2),
            edit: TagStackEdit::Replace(vec![parsed_item()]),
        })
    );
    let with = |entries, action: &str| {
        settagstack(&editor, &[Typval::Number(0), dict(entries), Typval::text(action)])
    };
    assert_eq!(
        with(vec![items()], "a"),
        Ok(TagStackChange::Update {
            window,
            curidx: None,
            edit: TagStackEdit::Append(vec![parsed_item()]),
        })
    );
    assert_eq!(
        with(vec![], "t"),
        Ok(TagStackChange::Update {
            window,
            curidx: None,
            edit: TagStackEdit::TruncateAndPush(vec![]),
        })
    );
    assert_eq!(
        with(vec![], "r"),
        Ok(TagStackChange::Update { window, curidx: None, edit: TagStackEdit::Keep })
    );
    assert_eq!(failure(with(vec![], "x")), "E962: Invalid action: 'x'");
    assert_eq!(
        failure(with(vec![entry("items", Typval::Number(1))], "r")),
        "E714: List required"
    );
    assert_eq!(
        failure(settagstack(&editor, &[Typval::Number(0), Typval::list(vec![])])),
        "E1206: Dictionary required for argument 2"
    );
    assert_eq!(
        failure(settagstack(&editor, &[Typval::Number(0), dict(vec![]), Typval::Number(1)])),
        "E1174: String required for argument 3"
    );
    assert_eq!(
        settagstack(&editor, &[Typval::Number(0), Typval::Number(1)]),
        Ok(TagStackChange::Refused)
    );
    assert_eq!(
        settagstack(&editor, &[Typval::Number(44), dict(vec![])]),
        Ok(TagStackChange::Refused)
    );
}

#[test]
fn taglist_shows_what_the_lookup_found() {
    let args = [Typval::text("ma"), Typval::text("a.c")];
    let request = taglist_request(&args).unwrap().unwrap();
    assert_eq!(request.pattern, "ma");
    assert_eq!(request.preferred, Some("a.c".to_owned()));
    assert_eq!(taglist_request(&[Typval::text("")]), Ok(None));
    let found = TagMatch {
        name: "main".to_owned(),
        filename: "a.c".to_owned(),
        cmd: "/main".to_owned(),
        fields: vec![
            ("kind".to_owned(), "f".to_owned()),
            ("file".to_owned(), String::new()),
        ],
    };
    let shown = list(taglist(&args, Ok(vec![found])).unwrap());
    assert_eq!(
        shown[0],
        Typval::dict(vec![
            entry("name", Typval::text("main")),
            entry("filename", Typval::text("a.c")),
            entry("cmd", Typval::text("/main")),
            entry("kind", Typval::text("f")),
            entry("static", Typval::Number(1)),
        ])
    );
    let malformed = EvalError::new("E431", "Format error in tags file");
    assert_eq!(
        failure(taglist(&args, Err(malformed))),
        "E431: Format error in tags file"
    );
    let missing = EvalError::new("E433", "No tags file");
    assert_eq!(taglist(&args, Err(missing)), Ok(Typval::list(vec![])));
    assert_eq!(significant_length(-2), 0);
    let names = |text: &str| Some(OptionValue::String(text.to_owned()));
    let lookup = tag_lookup(
        OptionLayers { effective: None, global: names("./tags") },
        OptionLayers {
            effective: Some(OptionValue::Number(8)),
            global: Some(OptionValue::Number(3)),
        },
        Some(OptionValue::Boolean(true)),
    );
    assert_eq!((lookup.tags.as_str(), lookup.taglength, lookup.ignorecase), ("./tags", 8, true));
    let lookup = tag_lookup(
        OptionLayers { effective: names("TAGS"), global: names("./tags") },
        OptionLayers { effective: Some(OptionValue::Number(-1)), global: None },
        None,
    );
    assert_eq!((lookup.tags.as_str(), lookup.taglength, lookup.ignorecase), ("TAGS", 0, false));
    let lookup = tag_lookup(
        OptionLayers { effective: Some(OptionValue::Number(1)), global: names("./tags") },
        OptionLayers { effective: None, global: names("x") },
        Some(OptionValue::Number(1)),
    );
    assert_eq!((lookup.tags.as_str(), lookup.taglength, lookup.ignorecase), ("", 0, false));
    assert_eq!(significant_length(8), 8);
}

/// A host that listens in memory.
struct Host {
    addresses: Vec<String>,
    servername: Typval,
}

impl Host {
    fn new() -> Self {
        Host { addresses: Vec::new(), servername: Typval::text("") }
    }

    fn start(&mut self, args: &[Typval]) -> Result<Typval, EvalError> {
        let address = match server_start_address(args)? {
            ServerAddress::Generated => "/run/generated.0".to_owned(),
            ServerAddress::Named(name) => format!("/run/{name}.7.{}", self.addresses.len()),
            ServerAddress::Given(address) => address,
        };
        let outcome = if self.addresses.contains(&address) {
            StartOutcome::Failed("Unknown system error".to_owned())
        } else {
            self.addresses.push(address.clone());
            StartOutcome::Bound(address)
        };
        let answer = server_start(args, outcome, Some(&self.servername))?;
        if let Some(name) = answer.servername {
            self.servername = Typval::text(&name);
        }
        Ok(answer.value)
    }

    fn stop(&mut self, args: &[Typval]) -> Result<Typval, EvalError> {
        let outcome = match server_stop_address(args)? {
            None => StopOutcome::Unknown,
            Some(address) => match self.addresses.iter().position(|known| *known == address) {
                Some(at) => {
                    self.addresses.remove(at);
                    StopOutcome::Stopped(self.addresses.clone())
                }
                None => StopOutcome::Unknown,
            },
        };
        let answer = server_stop(args, outcome, Some(&self.servername))?;
        if let Some(name) = answer.servername {
            self.servername = Typval::text(&name);
        }
        Ok(answer.value)
    }
}

#[test]
fn serverstart_returns_the_bound_address_and_sets_v_servername() {
    let mut host = Host::new();
    let address = host.start(&[Typval::text("/tmp/Xtest-sock")]).unwrap();
    assert_eq!(address, Typval::text("/tmp/Xtest-sock"));
    assert_eq!(host.servername, Typval::text("/tmp/Xtest-sock"));
}

#[test]
fn serverstart_rejects_non_string_argument() {
    let mut host = Host::new();
    assert_eq!(failure(host.start(&[Typval::Number(1)])), "E474: Invalid argument");
}

#[test]
fn serverstart_duplicate_returns_error() {
    let mut host = Host::new();
    host.start(&[Typval::text("/tmp/Xtest-dup")]).unwrap();
    assert_eq!(
        failure(host.start(&[Typval::text("/tmp/Xtest-dup")])),
        "E900: Failed to start server: Unknown system error"
    );
}

#[test]
fn serverstart_without_host_fails() {
    let error = server_start(&[], StartOutcome::NoHost, None).unwrap_err();
    assert_eq!(error.code, "E900");
}

#[test]
fn serverstop_removes_and_rebumps_v_servername() {
    let mut host = Host::new();
    host.start(&[Typval::text("/tmp/Xtest-a")]).unwrap();
    host.start(&[Typval::text("/tmp/Xtest-b")]).unwrap();
    assert_eq!(host.servername, Typval::text("/tmp/Xtest-a"));
    host.stop(&[Typval::text("/tmp/Xtest-a")]).unwrap();
    assert_eq!(host.servername, Typval::text("/tmp/Xtest-b"));
    host.stop(&[Typval::text("/tmp/Xtest-b")]).unwrap();
    assert_eq!(host.servername, Typval::text(""));
}

#[test]
fn serverstop_returns_zero_for_unknown_and_empty() {
    let mut host = Host::new();
    assert_eq!(host.stop(&[Typval::text("")]), Ok(Typval::Number(0)));
    assert_eq!(host.stop(&[Typval::text("bogus")]), Ok(Typval::Number(0)));
}

#[test]
fn serverstop_rejects_non_string_argument() {
    let mut host = Host::new();
    assert_eq!(failure(host.stop(&[Typval::Number(1)])), "E474: Invalid argument");
}

#[test]
fn serverlist_empty_when_nothing_listens() {
    assert_eq!(server_list(&Vec::new()), Typval::list(vec![]));
}

#[test]
fn serverstart_bare_name_expands_to_generated_path() {
    let mut host = Host::new();
    host.start(&[Typval::text("xtest1.2.3.4")]).unwrap();
    let addr = host.addresses[0].clone();
    assert!(addr.contains("/xtest1.2.3.4."), "{addr}");
}

#[test]
fn serverlist_returns_live_addresses() {
    let mut host = Host::new();
    host.start(&[Typval::text("Xtest-a")]).unwrap();
    host.start(&[Typval::text("Xtest-b")]).unwrap();
    let shown = list(server_list(&host.addresses));
    assert_eq!(shown.len(), 2, "both listeners listed");
    for (index, name) in ["Xtest-a", "Xtest-b"].into_iter().enumerate() {
        match &shown[index] {
            Typval::String(text) => {
                let address = String::from_utf8(text.as_bytes().to_vec()).unwrap();
                assert!(address.contains(name), "{address} must carry the requested name");
            }
            other => panic!("expected string address, got {other:?}"),
        }
    }
}

#[test]
fn a_path_or_port_is_taken_as_it_is() {
    let given = |text: &str| server_start_address(&[Typval::text(text)]).unwrap();
    assert_eq!(given("./x"), ServerAddress::Given("./x".to_owned()));
    assert_eq!(given("localhost:0"), ServerAddress::Given("localhost:0".to_owned()));
    assert_eq!(given("x"), ServerAddress::Named("x".to_owned()));
}

#[test]
fn serverlist_shows_addresses_in_order() {
    assert_eq!(
        server_list(&vec!["/a".to_owned(), "/b".to_owned()]),
        Typval::list(vec![Typval::text("/a"), Typval::text("/b")])
    );
}

#[test]
fn an_empty_address_is_never_generated() {
    let mut host = Host::new();
    assert_eq!(
        failure(host.start(&[Typval::text("")])),
        "E900: Failed to start server: Unknown system error"
    );
    assert_eq!(host.start(&[]), Ok(Typval::text("/run/generated.0")));
}

#[test]
fn window_functions_are_found_by_name() {
    assert_eq!(window_builtin("winnr"), Some(WindowFunction::Winnr));
    assert_eq!(window_builtin("win_gotoid"), Some(WindowFunction::WinGotoid));
    assert_eq!(
        window_builtin("winheight"),
        Some(WindowFunction::Window(WindowBuiltin::Winheight))
    );
    assert_eq!(
        window_builtin("screenchars"),
        Some(WindowFunction::Screen(ScreenBuiltin::Screenchars))
    );
    assert_eq!(window_builtin("winlayout"), Some(WindowFunction::Winlayout));
    assert_eq!(window_builtin("taglist"), None);
    assert_eq!(window_builtin(""), None);
}
