use ox_editor::excmd::{check_line, skipwhite, split_command_arguments};

/// Asserts that one line raises `code`, and hands back the message.
fn line_error(line: &str, code: &str) -> String {
    let exception = check_line(line).unwrap_err();
    assert_eq!(exception.code, code, "for {line:?}");
    exception.message()
}

#[test]
fn trailing_carriage_return_after_a_let_expression_is_e488() {
    assert_eq!(line_error("let g:v = 4\r", "E488"), "Vim(let):E488: Trailing characters: \r");
}

#[test]
fn vertical_tab_and_form_feed_are_not_white_space_to_skipwhite() {
    assert_eq!(line_error("let g:v = 4\x0b", "E488"), "Vim(let):E488: Trailing characters: \x0b");
    assert_eq!(line_error("let g:v = 4\x0c", "E488"), "Vim(let):E488: Trailing characters: \x0c");
}

#[test]
fn an_unterminated_string_after_a_complete_expression_is_remainder() {
    assert_eq!(line_error("let g:v = 4 'ab", "E488"), "Vim(let):E488: Trailing characters: 'ab");
}

#[test]
fn every_expression_command_rejects_a_trailing_carriage_return() {
    assert_eq!(line_error("const g:c = 4\r", "E488"), "Vim(const):E488: Trailing characters: \r");
    assert_eq!(line_error("eval 4\r", "E488"), "Vim(eval):E488: Trailing characters: \r");
    assert_eq!(line_error("throw 'a'\r", "E488"), "Vim(throw):E488: Trailing characters: \r");
    assert_eq!(line_error("call len('a')\r", "E488"), "Vim(call):E488: Trailing characters: \r");
    assert_eq!(line_error("unlet g:z\r", "E488"), "Vim(unlet):E488: Trailing characters: \r");
}

#[test]
fn echo_family_reports_e15_not_e488_for_a_trailing_carriage_return() {
    line_error("echo 'z'\r", "E15");
    line_error("echomsg 'q'\r", "E15");
    line_error("execute 'let g:v = 5'\r", "E15");
}

#[test]
fn f_args_escapes_embedded_double_quote() {
    assert_eq!(split_command_arguments(r#"he"llo"#), r#""he\"llo""#);
    assert_eq!(split_command_arguments("a b"), r#""a", "b""#);
    assert_eq!(split_command_arguments(""), "");
}

#[test]
fn the_emptiness_test_and_the_comment_cut_see_the_carriage_return_too() {
    line_error("return \r", "E15");
    assert!(check_line("return ").is_ok());
    assert_eq!(line_error("let g:v = 4\r \"c\"", "E488"), "Vim(let):E488: Trailing characters: \r");
    assert!(check_line("let g:v = 4 \"c\"").is_ok());
}

#[test]
fn block_openers_reject_a_trailing_carriage_return_in_the_condition() {
    line_error("if 1\r", "E488");
    line_error("while 0\r", "E488");
    line_error("for i in [1]\r", "E488");
    line_error("return 4\r", "E488");
}

#[test]
fn operators_and_trailing_tabs_pass() {
    assert!(check_line("let g:v ..= 'x'").is_ok());
    assert!(check_line("let g:v = 4\t").is_ok());
}

#[test]
fn arguments_collapse_runs_of_white_space() {
    assert_eq!(split_command_arguments("one   two\tthree"), r#""one", "two", "three""#);
    assert_eq!(split_command_arguments("  one  "), r#""one""#);
}

#[test]
fn arguments_honour_backslash_escapes() {
    assert_eq!(split_command_arguments(r"a\ b c"), r#""a b", "c""#);
    assert_eq!(split_command_arguments(r"a\\b"), r#""a\\b""#);
    assert_eq!(split_command_arguments(r"a\b"), r#""a\\b""#);
    assert_eq!(split_command_arguments(r"\"), r#""\\""#);
}

#[test]
fn expressions_end_where_their_operands_do() {
    assert!(check_line("let x = 1 + 2 * (3 - f('a', [1, 2]))").is_ok());
    assert!(check_line("call f(')')").is_ok());
    assert!(check_line("call f(\"a\\\")\")").is_ok());
    assert!(check_line("eval 'it''s' .. \"x\"").is_ok());
    assert!(check_line("eval -1.5").is_ok());
    assert!(check_line("echo 1 2 'three'").is_ok());
    assert_eq!(
        line_error("let x = 1 2", "E488"),
        "Vim(let):E488: Trailing characters: 2"
    );
    assert_eq!(
        line_error("eval 1 +", "E15"),
        "Vim(eval):E15: Invalid expression: \"1 +\""
    );
    assert_eq!(
        line_error("echo 'ab", "E15"),
        "Vim(echo):E15: Invalid expression: \"'ab\""
    );
}

#[test]
fn missing_arguments_are_e471() {
    assert_eq!(line_error("eval", "E471"), "Vim(eval):E471: Argument required");
    assert_eq!(line_error("unlet!", "E471"), "Vim(unlet):E471: Argument required");
    assert_eq!(line_error("for", "E471"), "Vim(for):E471: Argument required");
    assert!(check_line("let").is_ok());
    assert!(check_line("echo").is_ok());
}

#[test]
fn a_loop_head_needs_its_in() {
    assert_eq!(line_error("for x of [1]", "E690"), "Vim(for):E690: Missing \"in\" after :for");
    assert!(check_line("for [a, b] in items(d)").is_ok());
}

#[test]
fn other_commands_are_not_checked() {
    assert!(check_line("normal! x\r").is_ok());
    assert!(check_line("").is_ok());
}

#[test]
fn names_are_separated_by_white_space() {
    assert!(check_line("unlet g:a g:b[1] $HOME").is_ok());
    assert!(check_line("unlet g:{'a}b'} | let g:x = 1").is_ok());
    assert!(check_line("unlet! g:a g:b[1]").is_ok());
    assert_eq!(
        line_error("unlet g:a+1", "E488"),
        "Vim(unlet):E488: Trailing characters: +1"
    );
}

#[test]
fn only_space_and_tab_are_skipped() {
    let chars: Vec<char> = " \t\r x".chars().collect();
    assert_eq!(skipwhite(&chars, 0), 2);
    assert_eq!(skipwhite(&chars, 2), 2);
    assert_eq!(skipwhite(&chars, 5), 5);
}

/// The list that a command body sees, written as a list of strings.
fn invoke_with_f_args(arguments: &str) -> String {
    let text = split_command_arguments(arguments);
    let mut chars = text.chars();
    let mut items = Vec::new();
    while let Some(c) = chars.next() {
        if c != '"' {
            assert!(c == ',' || c == ' ', "between strings in {text:?}");
            continue;
        }
        let mut item = String::new();
        loop {
            match chars.next().unwrap() {
                '"' => break,
                '\\' => item.push(chars.next().unwrap()),
                c => item.push(c),
            }
        }
        items.push(format!("'{}'", item.replace('\'', "''")));
    }
    format!("[{}]", items.join(", "))
}

#[test]
fn f_args_splits_arguments_on_whitespace() {
    assert_eq!(invoke_with_f_args("one"), "['one']");
    assert_eq!(invoke_with_f_args("one two"), "['one', 'two']");
    assert_eq!(invoke_with_f_args("one   two  three"), "['one', 'two', 'three']");
}

#[test]
fn f_args_with_no_arguments_expands_to_nothing() {
    assert_eq!(invoke_with_f_args(""), "[]");
}

#[test]
fn f_args_honours_backslash_escapes() {
    assert_eq!(invoke_with_f_args(r"a\ b c"), "['a b', 'c']");
    assert_eq!(invoke_with_f_args(r"a\\b"), r"['a\b']");
}

#[test]
fn space_and_tab_around_an_assignment_are_still_white_space() {
    assert!(check_line("let g:v\t=  4 \t").is_ok());
    assert!(check_line("let g:v  +=\t3").is_ok());
}

#[test]
fn options_registers_and_variables_are_operands() {
    for line in [
        "let g:ts = &tabstop",
        "let &l:ts = &g:ts + 1",
        "let @a = @\" .. &t_Co",
        "call f(@))",
        "let $X = $HOME .. '/x'",
        "echo $'{x}' $\"a\"",
        "let g:{'a}b'} = 1",
        "let { 'g:' . gname } = { 'g:' . gname }",
        "let d = #{a: 1}",
        "let x = [1, 2]->map({i, v -> v})->len()",
        "if a ==# b && c !~? d",
        "if a is b || c isnot# d",
        "let lines =<< trim END",
        "return | endif",
        "echo 1 | echo 2",
        "let g:v = 4 | let g:w = 5",
    ] {
        assert!(check_line(line).is_ok(), "for {line:?}");
    }
    assert_eq!(line_error("let x = &", "E15"), "Vim(let):E15: Invalid expression: \"&\"");
    assert_eq!(line_error("let x = $", "E15"), "Vim(let):E15: Invalid expression: \"$\"");
    assert_eq!(line_error("let x = y->", "E15"), "Vim(let):E15: Invalid expression: \"y->\"");
    line_error("let f = .5", "E15");
    line_error("let x = a issue", "E488");
}

#[test]
fn deep_recursion_reports_e1169() {
    let source = format!("if {}", "(".repeat(1002));
    assert_eq!(line_error(&source, "E1169"), "Vim(if):E1169: Expression too recursive: ((");
    let source = format!("let g:x = {{{}", "(".repeat(1002));
    assert_eq!(line_error(&source, "E1169"), "Vim(let):E1169: Expression too recursive: (((");
    let closed = |depth: usize| format!("eval {}1{}", "(".repeat(depth), ")".repeat(depth));
    assert!(check_line(&closed(999)).is_ok());
    line_error(&closed(1000), "E1169");
    let empty = format!("eval {}{}", "[".repeat(1000), "]".repeat(1000));
    assert!(check_line(&empty).is_ok());
    line_error(&format!("unlet x{}1", "[".repeat(1000)), "E1169");
}
