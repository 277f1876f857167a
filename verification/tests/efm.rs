use ox_editor::efm::{parse_line, BufferNames, EfmState, LineMatch, LineOutcome, ParsedEntry};
use ox_editor::efm_format::ErrorFormat;
use ox_editor::efm_lookup::names_to_look_up;
use ox_editor::efm_names::{
    atoi, expand_env, is_abs_name, join_fnames, pop_dir, push_dir, PathFacts, Surroundings,
};

fn nowhere() -> Surroundings {
    Surroundings {
        paths: PathFacts { existing: Vec::new(), directories: Vec::new() },
        environment: Vec::new(),
    }
}

/// A match whose groups are the given pieces of `line`, in order.
fn hit(line: &str, groups: &[&str]) -> Option<LineMatch> {
    let mut captures = Vec::new();
    let mut from = 0;
    for group in groups {
        let start = from + line[from..].find(group).unwrap();
        captures.push(Some((start, start + group.len())));
        from = start + group.len();
    }
    Some(LineMatch { captures })
}

/// Parses lines, each with where the alternatives match it. A line whose rest
/// has to be matched again is followed by that rest.
fn parse_all(
    spec: &str,
    lines: Vec<(&str, Vec<Option<LineMatch>>)>,
    world: &Surroundings,
) -> (Vec<ParsedEntry>, EfmState, BufferNames) {
    let fmt = ErrorFormat::compile(spec).unwrap();
    let mut state = EfmState::default();
    let mut entries = Vec::new();
    let mut names = BufferNames { names: Vec::new(), existing: Vec::new(), asked: Vec::new() };
    let mut rest = None;
    for (line, found) in lines {
        if let Some(rest) = rest.take() {
            assert_eq!(line, rest);
        }
        match parse_line(line, &fmt, &found, &mut state, &mut entries, &mut names, world).unwrap() {
            LineOutcome::Entry(entry) => entries.push(entry),
            LineOutcome::Folded | LineOutcome::Ignored => {}
            LineOutcome::Rescan(again) => rest = Some(again),
            LineOutcome::FoldOutside(_) => panic!("fold without target"),
        }
    }
    assert_eq!(rest, None);
    (entries, state, names)
}

#[test]
fn default_efm_parses_file_line_message() {
    let line = "Xfile1:10:Line 10";
    let (entries, _, ctx) = parse_all(
        "%*[^\"]\"%f\"%*\\D%l: %m,%f:%l:%c:%m,%f:%l:%m",
        vec![(line, vec![None, None, hit(line, &["Xfile1", "10", "Line 10"])])],
        &nowhere(),
    );
    assert_eq!(entries.len(), 1);
    assert_eq!(entries[0].lnum, 10);
    assert_eq!(entries[0].text, "Line 10");
    assert!(entries[0].valid);
    assert_eq!(ctx.names, ["Xfile1"]);
    assert_eq!(ctx.asked, ["Xfile1"]);
}

#[test]
fn column_format() {
    let line = "x.c:3:7:bad";
    let (entries, ..) = parse_all(
        "%f:%l:%c:%m",
        vec![(line, vec![hit(line, &["x.c", "3", "7", "bad"])])],
        &nowhere(),
    );
    assert_eq!(entries[0].lnum, 3);
    assert_eq!(entries[0].col, 7);
    assert_eq!(entries[0].text, "bad");
}

#[test]
fn minus_g_ignores_line() {
    let second = "x.c:1:m";
    let (entries, ..) = parse_all(
        "%-Gignore%.%#,%f:%l:%m",
        vec![
            ("ignore me", vec![hit("ignore me", &[]), None]),
            (second, vec![None, hit(second, &["x.c", "1", "m"])]),
        ],
        &nowhere(),
    );
    assert_eq!(entries.len(), 1);
    assert_eq!(entries[0].text, "m");
}

#[test]
fn multiline_folds_into_one_entry() {
    let first = "x.c:5:first";
    let (entries, ..) = parse_all(
        "%A%f:%l:%m,%ZEND,%C%m",
        vec![
            (first, vec![hit(first, &["x.c", "5", "first"]), None, hit(first, &[first])]),
            ("second line", vec![None, None, hit("second line", &["second line"])]),
            ("third", vec![None, None, hit("third", &["third"])]),
            ("END", vec![None, hit("END", &[]), hit("END", &["END"])]),
        ],
        &nowhere(),
    );
    assert_eq!(entries.len(), 1);
    assert_eq!(entries[0].lnum, 5);
    assert_eq!(entries[0].text, "first\nsecond line\nthird");
}

#[test]
fn directory_stack_resolves_relative_file() {
    let sub = "/tmp/work/sub";
    let world = Surroundings {
        paths: PathFacts {
            existing: vec![sub.to_owned(), "/tmp/work/sub/x.c".to_owned()],
            directories: vec![sub.to_owned()],
        },
        environment: Vec::new(),
    };
    let entering = "Entering directory '/tmp/work/sub'";
    let oops = "x.c:9:oops";
    let (entries, state, ctx) = parse_all(
        "%DEntering directory '%f',%f:%l:%m,%XLeaving directory",
        vec![
            (entering, vec![hit(entering, &[sub]), None, None]),
            (oops, vec![None, hit(oops, &["x.c", "9", "oops"]), None]),
            ("Leaving directory", vec![None, None, hit("Leaving directory", &[])]),
        ],
        &world,
    );
    assert_eq!(entries.len(), 3);
    assert!(!entries[0].valid);
    assert!(entries[1].valid);
    assert_eq!(ctx.names[0], "/tmp/work/sub/x.c");
    assert!(state.directory.is_none());
}

#[test]
fn pointer_line_sets_visual_column() {
    let (entries, ..) = parse_all("%p^", vec![("   ^", vec![hit("   ^", &["   "])])], &nowhere());
    assert_eq!(entries[0].col, 4);
    assert!(entries[0].vcol);
}

#[test]
fn invalid_format_char_is_e377() {
    let err = ErrorFormat::compile("%f:%z:%m").unwrap_err();
    assert_eq!(err.code, "E377");
}

#[test]
fn duplicate_format_char_is_e372() {
    let err = ErrorFormat::compile("%f:%f:%m").unwrap_err();
    assert_eq!(err.code, "E372");
}

#[test]
fn empty_spec_is_e378() {
    let err = ErrorFormat::compile("").unwrap_err();
    assert_eq!(err.code, "E378");
}

#[test]
fn nonmatching_line_is_invalid_entry() {
    let (entries, ..) = parse_all("%f:%l:%m", vec![("garbage", vec![None])], &nowhere());
    assert_eq!(entries.len(), 1);
    assert!(!entries[0].valid);
    assert_eq!(entries[0].text, "garbage");
    assert_eq!(entries[0].bufnr, 0);
}

#[test]
fn file_stack_supplies_filename() {
    let file = "/tmp/work/real.c";
    let world = Surroundings {
        paths: PathFacts { existing: vec![file.to_owned()], directories: Vec::new() },
        environment: Vec::new(),
    };
    let push = "[/tmp/work/real.c]";
    let (entries, state, ctx) = parse_all(
        "%P[%f],%Q[pop],%f:%l:%m,%l:%m",
        vec![
            (push, vec![hit(push, &[file]), None, None, None]),
            ("5:msg", vec![None, None, None, hit("5:msg", &["5", "msg"])]),
            ("[pop]", vec![None, hit("[pop]", &[]), None, None]),
            ("7:gone", vec![None, None, None, hit("7:gone", &["7", "gone"])]),
        ],
        &world,
    );
    assert_eq!(entries.len(), 4);
    assert!(!entries[0].valid);
    assert_eq!(entries[1].lnum, 5);
    assert_eq!(ctx.names, [file.to_owned()]);
    assert_eq!(entries[3].bufnr, 0);
    assert!(state.currfile.is_none());
}

#[test]
fn ignored_multiscan_return_does_not_leak_into_next_line() {
    let second = "f:1:msg";
    let (entries, _state, _ctx) = parse_all(
        "%O%rx,%f:%l:%m",
        vec![
            ("ax", vec![hit("ax", &["a"]), None]),
            (second, vec![None, hit(second, &["f", "1", "msg"])]),
        ],
        &nowhere(),
    );
    assert_eq!(entries.len(), 1);
    assert_eq!(entries[0].lnum, 1);
    assert_eq!(entries[0].text, "msg");
}

#[test]
fn each_format_error_has_its_code() {
    for (spec, code) in [
        ("%f%r", "E373"),
        ("%*[abc", "E374"),
        ("%*[", "E374"),
        ("%*[^", "E374"),
        ("%*[^abc", "E374"),
        ("%*", "E375"),
        ("%*z", "E375"),
        ("%+f", "E376"),
    ] {
        let err = ErrorFormat::compile(spec).unwrap_err();
        assert_eq!(err.code, code, "for {spec:?}");
        assert!(err.to_text().starts_with(code), "for {spec:?}");
    }
}

#[test]
fn the_rest_of_a_line_is_scanned_again() {
    let file = "/tmp/work/real.c";
    let world = Surroundings {
        paths: PathFacts { existing: vec![file.to_owned()], directories: Vec::new() },
        environment: Vec::new(),
    };
    let line = "</tmp/work/real.c> [pop]";
    let (entries, state, _) = parse_all(
        "%P<%f>%r,%Q[pop],%l:%m",
        vec![
            (line, vec![hit(line, &[file, " [pop]"]), None, None]),
            ("[pop]", vec![None, hit("[pop]", &[]), None]),
            ("5:msg", vec![None, None, hit("5:msg", &["5", "msg"])]),
        ],
        &world,
    );
    assert_eq!(entries.len(), 2);
    assert!(!entries[0].valid);
    assert_eq!(entries[1].lnum, 5);
    assert_eq!(state.currfile, None);
    assert!(!state.multiscan);
}

#[test]
fn one_file_has_one_number() {
    let first = "x.c:1:a";
    let second = "y.c:2:b";
    let third = "x.c:3:c";
    let found = |line: &str, file: &str, lnum: &str, text: &str| vec![hit(line, &[file, lnum, text])];
    let (entries, _, names) = parse_all(
        "%f:%l:%m",
        vec![
            (first, found(first, "x.c", "1", "a")),
            (second, found(second, "y.c", "2", "b")),
            ("garbage", vec![None]),
            (third, found(third, "x.c", "3", "c")),
        ],
        &nowhere(),
    );
    assert_eq!(names.asked, ["x.c", "y.c", "x.c"]);
    assert_eq!(names.names, ["x.c", "y.c"]);
    assert_eq!(entries[0].bufnr, entries[3].bufnr);
    assert_ne!(entries[0].bufnr, entries[1].bufnr);
}

#[test]
fn an_empty_directory_name_is_e379() {
    let fmt = ErrorFormat::compile("%DEnter %f").unwrap();
    let mut state = EfmState::default();
    let mut entries = Vec::new();
    let mut names = BufferNames { names: Vec::new(), existing: Vec::new(), asked: Vec::new() };
    let found = vec![Some(LineMatch { captures: vec![Some((6, 6))] })];
    let err = parse_line("Enter ", &fmt, &found, &mut state, &mut entries, &mut names, &nowhere())
        .unwrap_err();
    assert_eq!(err.code, "E379");
    assert!(entries.is_empty());
}

#[test]
fn a_continuation_without_an_entry_is_handed_out() {
    let fmt = ErrorFormat::compile("%C%m").unwrap();
    let mut state = EfmState::default();
    state.multiline = true;
    let mut entries = Vec::new();
    let mut names = BufferNames { names: Vec::new(), existing: Vec::new(), asked: Vec::new() };
    let found = vec![hit("more", &["more"])];
    let outcome =
        parse_line("more", &fmt, &found, &mut state, &mut entries, &mut names, &nowhere()).unwrap();
    match outcome {
        LineOutcome::FoldOutside(data) => assert_eq!(data.text, "more"),
        other => panic!("expected a fold, got {other:?}"),
    }
}

#[test]
fn names_are_joined_and_read() {
    assert_eq!(join_fnames("/a", "b"), "/a/b");
    assert_eq!(join_fnames("/a/", "b"), "/a/b");
    assert!(is_abs_name("/a"));
    assert!(!is_abs_name("a"));
    assert_eq!(atoi("12x"), 12);
    assert_eq!(atoi("x"), 0);
    assert_eq!(atoi("99999999999999999999"), i64::MAX);
}

#[test]
fn a_pushed_directory_is_popped_again() {
    let facts = PathFacts { existing: Vec::new(), directories: Vec::new() };
    let mut stack = Vec::new();
    assert_eq!(push_dir(&mut stack, "/a", false, &facts), "/a");
    let _ = push_dir(&mut stack, "/b", false, &facts);
    assert_eq!(pop_dir(&mut stack), Some("/a".to_owned()));
    assert_eq!(pop_dir(&mut stack), None);
}

#[test]
fn variables_in_names_are_expanded() {
    let world = Surroundings {
        paths: PathFacts { existing: Vec::new(), directories: Vec::new() },
        environment: vec![("HOME".to_owned(), "/home/me".to_owned())],
    };
    assert_eq!(expand_env("$HOME/x", &world), "/home/me/x");
    assert_eq!(expand_env("$NONE/x", &world), "$NONE/x");
}

#[test]
fn the_names_that_a_line_can_be_about_are_listed() {
    let fmt = ErrorFormat::compile("%DEnter %f,%f:%l").unwrap();
    let mut state = EfmState::default();
    state.dir_stack = vec!["/a".to_owned()];
    state.directory = Some("/a".to_owned());
    state.currfile = Some("c".to_owned());
    let world = Surroundings {
        paths: PathFacts { existing: Vec::new(), directories: Vec::new() },
        environment: vec![("X".to_owned(), "y".to_owned())],
    };
    let line = "$X:3";
    let found = vec![None, hit(line, &["$X", "3"])];
    let names = names_to_look_up(line, &fmt, &found, &state, &world);
    for name in ["y", "c", "/a/y", "/a/c", "y/y", "/a/y/c"] {
        assert!(names.contains(&name.to_owned()), "for {name:?}");
    }
    assert!(!names.contains(&"$X".to_owned()));
    let nothing = names_to_look_up("x", &fmt, &vec![None, None], &EfmState::default(), &world);
    assert!(nothing.is_empty());
}
