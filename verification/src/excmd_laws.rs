//! What the expression arguments of commands may be made of.
use vstd::prelude::*;

use crate::excmd::{
    argument_start, callee_end, case_end, closes, command_kind, command_name, expression_end,
    expression_fault, group_end, identifier_end, is_comparison, is_letter, is_name_char,
    is_number_char, is_white, line_fault, literal_end, name_end, number_end, opens, operand_end,
    operator_end, option_end, primary_end, skip_white, string_end, suffix_end, word_end,
    CommandKind, Fault, Scan,
};

verus! {

/// A place in a text that stands behind `by` other characters.
spec fn moved(scan: Scan, by: int) -> Scan {
    match scan {
        Scan::End(end) => Scan::End(end + by),
        Scan::Broken => Scan::Broken,
        Scan::TooDeep(place) => Scan::TooDeep(place + by),
    }
}

spec fn moved_place(place: Option<int>, by: int) -> Option<int> {
    match place {
        Some(place) => Some(place + by),
        None => None,
    }
}

proof fn lemma_skip_white_moves(h: Seq<char>, s: Seq<char>, at: int)
    requires
        0 <= at,
    ensures
        skip_white(h + s, h.len() + at) == h.len() + skip_white(s, at),
        skip_white(s, at) >= at,
        at <= s.len() ==> skip_white(s, at) <= s.len(),
    decreases s.len() - at,
{
    if at < s.len() && is_white(s[at]) {
        lemma_skip_white_moves(h, s, at + 1);
    }
}

proof fn lemma_word_moves(h: Seq<char>, s: Seq<char>, at: int)
    requires
        0 <= at,
    ensures
        word_end(h + s, h.len() + at) == h.len() + word_end(s, at),
        word_end(s, at) >= at,
    decreases s.len() - at,
{
    if at < s.len() && is_letter(s[at]) {
        lemma_word_moves(h, s, at + 1);
    }
}

proof fn lemma_identifier_moves(h: Seq<char>, s: Seq<char>, at: int)
    requires
        0 <= at,
    ensures
        identifier_end(h + s, h.len() + at) == h.len() + identifier_end(s, at),
        identifier_end(s, at) >= at,
    decreases s.len() - at,
{
    if at < s.len() && (is_number_char(s[at]) || s[at] == '_') {
        lemma_identifier_moves(h, s, at + 1);
    }
}

proof fn lemma_number_moves(h: Seq<char>, s: Seq<char>, at: int)
    requires
        0 <= at,
    ensures
        number_end(h + s, h.len() + at) == h.len() + number_end(s, at),
        number_end(s, at) >= at,
    decreases s.len() - at,
{
    if at < s.len() {
        lemma_number_moves(h, s, at + 1);
    }
}

proof fn lemma_literal_moves(h: Seq<char>, s: Seq<char>, at: int)
    requires
        0 <= at,
    ensures
        literal_end(h + s, h.len() + at) == moved_place(literal_end(s, at), h.len() as int),
        literal_end(s, at) is Some ==> at < literal_end(s, at)->0 <= s.len(),
    decreases s.len() - at,
{
    if at < s.len() {
        lemma_literal_moves(h, s, at + 1);
        if at + 1 < s.len() {
            lemma_literal_moves(h, s, at + 2);
        }
    }
}

proof fn lemma_string_moves(h: Seq<char>, s: Seq<char>, at: int)
    requires
        0 <= at,
    ensures
        string_end(h + s, h.len() + at) == moved_place(string_end(s, at), h.len() as int),
        string_end(s, at) is Some ==> at < string_end(s, at)->0 <= s.len(),
    decreases s.len() - at,
{
    if at < s.len() {
        lemma_string_moves(h, s, at + 1);
        if at + 1 < s.len() {
            lemma_string_moves(h, s, at + 2);
        }
    }
}

proof fn lemma_group_moves(h: Seq<char>, s: Seq<char>, at: int, depth: nat)
    requires
        0 <= at,
    ensures
        group_end(h + s, h.len() + at, depth) == moved(group_end(s, at, depth), h.len() as int),
        group_end(s, at, depth) is End ==> at < group_end(s, at, depth)->End_0 <= s.len(),
    decreases s.len() - at,
{
    if at < s.len() && depth > 0 {
        lemma_literal_moves(h, s, at + 1);
        lemma_string_moves(h, s, at + 1);
        lemma_skip_white_moves(h, s, at + 1);
        if s[at] == '\'' {
            match literal_end(s, at + 1) {
                Some(end) => {
                    lemma_group_moves(h, s, end, depth);
                },
                None => {},
            }
        } else if s[at] == '"' {
            match string_end(s, at + 1) {
                Some(end) => {
                    lemma_group_moves(h, s, end, depth);
                },
                None => {},
            }
        } else if s[at] == '@' {
            if at + 1 < s.len() {
                lemma_group_moves(h, s, at + 2, depth);
            }
        } else if opens(s[at]) {
            lemma_group_moves(h, s, at + 1, depth + 1);
        } else if closes(s[at]) {
            lemma_group_moves(h, s, at + 1, (depth - 1) as nat);
        } else {
            lemma_group_moves(h, s, at + 1, depth);
        }
    }
}

proof fn lemma_name_moves(h: Seq<char>, s: Seq<char>, at: int)
    requires
        0 <= at,
    ensures
        name_end(h + s, h.len() + at) == moved(name_end(s, at), h.len() as int),
        name_end(s, at) is End ==> at <= name_end(s, at)->End_0,
        name_end(s, at) is End && at <= s.len() ==> name_end(s, at)->End_0 <= s.len(),
        name_end(s, at) is End && at < s.len() && (is_name_char(s[at]) || s[at] == '{')
            ==> name_end(s, at)->End_0 > at,
    decreases s.len() - at,
{
    if at < s.len() {
        if is_name_char(s[at]) {
            lemma_name_moves(h, s, at + 1);
        } else if s[at] == '{' {
            lemma_group_moves(h, s, at + 1, 1);
            match group_end(s, at + 1, 1) {
                Scan::End(end) => {
                    lemma_name_moves(h, s, end);
                },
                _ => {},
            }
        }
    }
}

proof fn lemma_suffix_moves(h: Seq<char>, s: Seq<char>, at: int)
    requires
        0 <= at,
    ensures
        suffix_end(h + s, h.len() + at) == moved(suffix_end(s, at), h.len() as int),
        suffix_end(s, at) is End ==> at <= suffix_end(s, at)->End_0,
        suffix_end(s, at) is End && at <= s.len() ==> suffix_end(s, at)->End_0 <= s.len(),
    decreases s.len() - at,
{
    let arrow = skip_white(s, at);
    lemma_skip_white_moves(h, s, at);
    if at < s.len() && (s[at] == '(' || s[at] == '[') {
        lemma_group_moves(h, s, at + 1, 1);
        match group_end(s, at + 1, 1) {
            Scan::End(end) => {
                lemma_suffix_moves(h, s, end);
            },
            _ => {},
        }
    } else if arrow + 1 < s.len() && s[arrow] == '-' && s[arrow + 1] == '>' {
        lemma_name_moves(h, s, arrow + 2);
        match callee_end(s, arrow + 2) {
            Scan::End(end) => {
                lemma_suffix_moves(h, s, end);
            },
            _ => {},
        }
    }
}

proof fn lemma_primary_moves(h: Seq<char>, s: Seq<char>, at: int)
    requires
        0 <= at,
    ensures
        primary_end(h + s, h.len() + at) == moved(primary_end(s, at), h.len() as int),
        primary_end(s, at) is End ==> at < primary_end(s, at)->End_0 <= s.len(),
{
    if at < s.len() {
        lemma_number_moves(h, s, at);
        lemma_number_moves(h, s, at + 1);
        lemma_number_within(s, at);
        lemma_literal_moves(h, s, at + 1);
        lemma_string_moves(h, s, at + 1);
        lemma_group_moves(h, s, at + 1, 1);
        lemma_group_moves(h, s, at + 2, 1);
        lemma_name_moves(h, s, at);
        lemma_word_moves(h, s, at + 1);
        lemma_word_moves(h, s, at + 2);
        lemma_word_moves(h, s, at + 3);
        lemma_word_moves(h, s, at + 4);
        lemma_word_within(s, at + 1);
        lemma_word_within(s, at + 3);
        lemma_literal_moves(h, s, at + 2);
        lemma_string_moves(h, s, at + 2);
        lemma_identifier_moves(h, s, at + 1);
        lemma_identifier_within(s, at + 1);
    }
}

proof fn lemma_number_within(s: Seq<char>, at: int)
    requires
        0 <= at,
    ensures
        at <= s.len() ==> number_end(s, at) <= s.len(),
    decreases s.len() - at,
{
    if at < s.len() {
        lemma_number_within(s, at + 1);
    }
}

proof fn lemma_word_within(s: Seq<char>, at: int)
    requires
        0 <= at,
    ensures
        at <= s.len() ==> word_end(s, at) <= s.len(),
    decreases s.len() - at,
{
    if at < s.len() {
        lemma_word_within(s, at + 1);
    }
}

proof fn lemma_identifier_within(s: Seq<char>, at: int)
    requires
        0 <= at,
    ensures
        at <= s.len() ==> identifier_end(s, at) <= s.len(),
    decreases s.len() - at,
{
    if at < s.len() {
        lemma_identifier_within(s, at + 1);
    }
}

proof fn lemma_operand_moves(h: Seq<char>, s: Seq<char>, at: int)
    requires
        0 <= at,
    ensures
        operand_end(h + s, h.len() + at) == moved(operand_end(s, at), h.len() as int),
        operand_end(s, at) is End ==> at < operand_end(s, at)->End_0 <= s.len(),
    decreases s.len() - at,
{
    if at < s.len() && (s[at] == '!' || s[at] == '-' || s[at] == '+') {
        lemma_operand_moves(h, s, at + 1);
    } else {
        lemma_primary_moves(h, s, at);
        match primary_end(s, at) {
            Scan::End(end) => {
                lemma_suffix_moves(h, s, end);
            },
            _ => {},
        }
    }
}

proof fn lemma_operator_moves(h: Seq<char>, s: Seq<char>, at: int)
    requires
        0 <= at,
    ensures
        operator_end(h + s, h.len() + at) == moved_place(operator_end(s, at), h.len() as int),
        operator_end(s, at) is Some ==> at < operator_end(s, at)->0 <= s.len(),
{
    lemma_identifier_moves(h, s, at + 2);
    lemma_identifier_moves(h, s, at + 5);
}

proof fn lemma_expression_moves(h: Seq<char>, s: Seq<char>, at: int)
    requires
        0 <= at,
    ensures
        expression_end(h + s, h.len() + at) == moved(expression_end(s, at), h.len() as int),
        expression_end(s, at) is End ==> at < expression_end(s, at)->End_0 <= s.len(),
    decreases s.len() - at,
{
    if at < s.len() {
        lemma_operand_moves(h, s, at);
        match operand_end(s, at) {
            Scan::End(end) => {
                lemma_skip_white_moves(h, s, end);
                lemma_operator_moves(h, s, skip_white(s, end));
                match operator_end(s, skip_white(s, end)) {
                    Some(behind) => {
                        lemma_skip_white_moves(h, s, behind);
                        lemma_expression_moves(h, s, skip_white(s, behind));
                    },
                    None => {},
                }
            },
            _ => {},
        }
    }
}

/// Two texts that are the same up to `m`, where the second goes on with a space
/// and the first ends, or goes on with a space and ends.
spec fn same_upto(s: Seq<char>, t: Seq<char>, m: int) -> bool {
    &&& 0 <= m <= s.len()
    &&& m < t.len()
    &&& t[m] == ' '
    &&& s.len() == m || (s.len() == m + 1 && s[m] == ' ')
    &&& forall|i: int| 0 <= i < m ==> #[trigger] s[i] == t[i]
}

proof fn lemma_skip_white_extends(s: Seq<char>, t: Seq<char>, m: int, at: int)
    requires
        same_upto(s, t, m),
        0 <= at <= m,
    ensures
        skip_white(s, at) < m ==> skip_white(t, at) == skip_white(s, at),
        skip_white(s, at) >= m ==> skip_white(t, at) == skip_white(t, m),
        at <= skip_white(s, at) <= s.len(),
        skip_white(t, m) > m,
    decreases m - at,
{
    if at < m && is_white(s[at]) {
        lemma_skip_white_extends(s, t, m, at + 1);
    } else {
        lemma_skip_white_moves(Seq::empty(), t, m + 1);
        lemma_skip_white_moves(Seq::empty(), s, at);
        if at < m {
            assert(s[at] == t[at]);
        }
    }
}

proof fn lemma_word_extends(s: Seq<char>, t: Seq<char>, m: int, at: int)
    requires
        same_upto(s, t, m),
        0 <= at <= m,
    ensures
        word_end(t, at) == word_end(s, at),
        at <= word_end(s, at) <= m,
    decreases m - at,
{
    if at < m && is_letter(s[at]) {
        lemma_word_extends(s, t, m, at + 1);
    }
}

proof fn lemma_identifier_extends(s: Seq<char>, t: Seq<char>, m: int, at: int)
    requires
        same_upto(s, t, m),
        0 <= at <= m,
    ensures
        identifier_end(t, at) == identifier_end(s, at),
        at <= identifier_end(s, at) <= m,
    decreases m - at,
{
    if at < m && (is_number_char(s[at]) || s[at] == '_') {
        lemma_identifier_extends(s, t, m, at + 1);
    }
}

proof fn lemma_number_extends(s: Seq<char>, t: Seq<char>, m: int, at: int)
    requires
        same_upto(s, t, m),
        0 <= at <= m,
    ensures
        number_end(t, at) == number_end(s, at),
        at <= number_end(s, at) <= m,
    decreases m - at,
{
    if at < m {
        lemma_number_extends(s, t, m, at + 1);
    }
}

proof fn lemma_literal_extends(s: Seq<char>, t: Seq<char>, m: int, at: int)
    requires
        same_upto(s, t, m),
        0 <= at,
        literal_end(s, at) is Some,
        literal_end(s, at)->0 <= m,
    ensures
        literal_end(t, at) == literal_end(s, at),
        at < literal_end(s, at)->0,
    decreases s.len() - at,
{
    lemma_literal_moves(Seq::empty(), s, at);
    if s[at] == '\'' {
        if at + 1 < s.len() && s[at + 1] == '\'' {
            lemma_literal_moves(Seq::empty(), s, at + 2);
            lemma_literal_extends(s, t, m, at + 2);
        }
    } else {
        lemma_literal_moves(Seq::empty(), s, at + 1);
        lemma_literal_extends(s, t, m, at + 1);
    }
}

proof fn lemma_string_extends(s: Seq<char>, t: Seq<char>, m: int, at: int)
    requires
        same_upto(s, t, m),
        0 <= at,
        string_end(s, at) is Some,
        string_end(s, at)->0 <= m,
    ensures
        string_end(t, at) == string_end(s, at),
        at < string_end(s, at)->0,
    decreases s.len() - at,
{
    lemma_string_moves(Seq::empty(), s, at);
    if s[at] == '"' {
    } else if s[at] == '\\' {
        lemma_string_moves(Seq::empty(), s, at + 2);
        lemma_string_extends(s, t, m, at + 2);
    } else {
        lemma_string_moves(Seq::empty(), s, at + 1);
        lemma_string_extends(s, t, m, at + 1);
    }
}

/// A group does not end in white space.
proof fn lemma_group_not_white(s: Seq<char>, at: int, depth: nat)
    requires
        0 <= at,
        group_end(s, at, depth) is End,
    ensures
        skip_white(s, at) < s.len(),
        skip_white(s, at) < group_end(s, at, depth)->End_0,
    decreases s.len() - at,
{
    lemma_group_moves(Seq::empty(), s, at, depth);
    if is_white(s[at]) {
        lemma_group_not_white(s, at + 1, depth);
    }
}

proof fn lemma_group_extends(s: Seq<char>, t: Seq<char>, m: int, at: int, depth: nat)
    requires
        same_upto(s, t, m),
        0 <= at,
        group_end(s, at, depth) is End,
        group_end(s, at, depth)->End_0 <= m,
    ensures
        group_end(t, at, depth) == group_end(s, at, depth),
        at < group_end(s, at, depth)->End_0,
    decreases s.len() - at,
{
    lemma_group_moves(Seq::empty(), s, at, depth);
    assert(s[at] == t[at]);
    if s[at] == '\'' {
        let end = literal_end(s, at + 1)->0;
        lemma_group_moves(Seq::empty(), s, end, depth);
        lemma_literal_extends(s, t, m, at + 1);
        lemma_group_extends(s, t, m, end, depth);
    } else if s[at] == '"' {
        let end = string_end(s, at + 1)->0;
        lemma_group_moves(Seq::empty(), s, end, depth);
        lemma_string_extends(s, t, m, at + 1);
        lemma_group_extends(s, t, m, end, depth);
    } else if s[at] == '@' {
        lemma_group_moves(Seq::empty(), s, at + 2, depth);
        lemma_group_extends(s, t, m, at + 2, depth);
    } else if opens(s[at]) {
        lemma_group_moves(Seq::empty(), s, at + 1, depth + 1);
        lemma_group_not_white(s, at + 1, depth + 1);
        lemma_skip_white_extends(s, t, m, at + 1);
        lemma_group_extends(s, t, m, at + 1, depth + 1);
    } else if closes(s[at]) {
        if depth > 1 {
            lemma_group_moves(Seq::empty(), s, at + 1, (depth - 1) as nat);
            lemma_group_extends(s, t, m, at + 1, (depth - 1) as nat);
        }
    } else {
        lemma_group_moves(Seq::empty(), s, at + 1, depth);
        lemma_group_extends(s, t, m, at + 1, depth);
    }
}

proof fn lemma_name_extends(s: Seq<char>, t: Seq<char>, m: int, at: int)
    requires
        same_upto(s, t, m),
        0 <= at <= m,
        name_end(s, at) is End,
        name_end(s, at)->End_0 <= m,
    ensures
        name_end(t, at) == name_end(s, at),
    decreases s.len() - at,
{
    if at < m {
        if is_name_char(s[at]) {
            lemma_name_extends(s, t, m, at + 1);
        } else if s[at] == '{' {
            let end = group_end(s, at + 1, 1)->End_0;
            lemma_name_moves(Seq::empty(), s, end);
            lemma_group_extends(s, t, m, at + 1, 1);
            lemma_name_extends(s, t, m, end);
        }
    }
}

/// Whether no method call follows the white space at `m`.
spec fn no_arrow(t: Seq<char>, m: int) -> bool {
    let arrow = skip_white(t, m);
    !(arrow + 1 < t.len() && t[arrow] == '-' && t[arrow + 1] == '>')
}

#[verifier::rlimit(50)]
proof fn lemma_suffix_extends(s: Seq<char>, t: Seq<char>, m: int, at: int)
    requires
        same_upto(s, t, m),
        no_arrow(t, m),
        0 <= at <= m,
        suffix_end(s, at) is End,
        suffix_end(s, at)->End_0 <= m,
    ensures
        suffix_end(t, at) == suffix_end(s, at),
    decreases s.len() - at,
{
    let arrow = skip_white(s, at);
    lemma_skip_white_extends(s, t, m, at);
    if at < m && (s[at] == '(' || s[at] == '[') {
        let end = group_end(s, at + 1, 1)->End_0;
        lemma_suffix_moves(Seq::empty(), s, end);
        lemma_group_extends(s, t, m, at + 1, 1);
        lemma_suffix_extends(s, t, m, end);
    } else if arrow + 1 < s.len() && s[arrow] == '-' && s[arrow + 1] == '>' {
        let end = callee_end(s, arrow + 2)->End_0;
        lemma_suffix_moves(Seq::empty(), s, end);
        lemma_name_extends(s, t, m, arrow + 2);
        assert(s[end] == '(');
        assert(end < m);
        lemma_suffix_extends(s, t, m, end);
    }
}

/// An operand ends at the same place when a space follows it, unless it breaks
/// off at a `_` or ends in a `@` without a register.
#[verifier::rlimit(50)]
proof fn lemma_primary_extends(s: Seq<char>, t: Seq<char>, m: int, at: int)
    requires
        same_upto(s, t, m),
        0 <= at <= m,
        primary_end(s, at) is End,
        primary_end(s, at)->End_0 <= m,
        s.len() == m && m > 0 ==> s[m - 1] != '@',
    ensures
        primary_end(t, at) == primary_end(s, at) || (primary_end(s, at)->End_0 < m
            && s[primary_end(s, at)->End_0] == '_'),
{
    lemma_primary_moves(Seq::empty(), s, at);
    assert(s[at] == t[at]);
    if crate::text::is_digit(s[at]) {
        lemma_number_extends(s, t, m, at);
    } else if s[at] == '\'' {
        lemma_literal_extends(s, t, m, at + 1);
    } else if s[at] == '"' {
        lemma_string_extends(s, t, m, at + 1);
    } else if s[at] == '(' || s[at] == '[' {
        lemma_group_extends(s, t, m, at + 1, 1);
    } else if s[at] == '{' || is_letter(s[at]) || s[at] == '_' {
        lemma_name_extends(s, t, m, at);
    } else if s[at] == '#' && at + 1 < s.len() && s[at + 1] == '{' {
        assert(at + 1 < m);
        lemma_group_extends(s, t, m, at + 2, 1);
    } else if s[at] == '&' {
        let end = option_end(s, at)->0;
        let name = if at + 2 < s.len() && (s[at + 1] == 'g' || s[at + 1] == 'l') && s[at + 2]
            == ':' {
            at + 3
        } else {
            at + 1
        };
        assert(name <= m);
        lemma_word_extends(s, t, m, name);
        if name + 1 <= m {
            lemma_word_extends(s, t, m, name + 1);
        }
        if name + 3 < s.len() && s[name] == 't' && s[name + 1] == '_' {
            assert(end == name + 4);
        } else if name + 3 < t.len() && t[name] == 't' && t[name + 1] == '_' {
            assert(word_end(s, name + 1) == name + 1);
            assert(end == name + 1);
        }
    } else if s[at] == '@' {
        assert(at + 1 < s.len() || at + 1 == m);
    } else if s[at] == '$' {
        lemma_identifier_extends(s, t, m, at + 1);
        if at + 1 < s.len() && s[at + 1] == '\'' {
            lemma_literal_extends(s, t, m, at + 2);
        } else if at + 1 < s.len() && s[at + 1] == '"' {
            lemma_string_extends(s, t, m, at + 2);
        }
    }
}

proof fn lemma_operand_extends(s: Seq<char>, t: Seq<char>, m: int, at: int)
    requires
        same_upto(s, t, m),
        no_arrow(t, m),
        0 <= at <= m,
        operand_end(s, at) is End,
        operand_end(s, at)->End_0 <= m,
        s.len() == m && m > 0 ==> s[m - 1] != '@',
    ensures
        operand_end(t, at) == operand_end(s, at) || (operand_end(s, at)->End_0 < m
            && s[operand_end(s, at)->End_0] == '_'),
    decreases s.len() - at,
{
    lemma_operand_moves(Seq::empty(), s, at);
    if s[at] == '!' || s[at] == '-' || s[at] == '+' {
        lemma_operand_extends(s, t, m, at + 1);
    } else {
        let end = primary_end(s, at)->End_0;
        lemma_primary_moves(Seq::empty(), s, at);
        lemma_suffix_moves(Seq::empty(), s, end);
        lemma_primary_extends(s, t, m, at);
        lemma_suffix_extends(s, t, m, end);
    }
}

proof fn lemma_operator_extends(s: Seq<char>, t: Seq<char>, m: int, at: int)
    requires
        same_upto(s, t, m),
        0 <= at,
        operator_end(s, at) is Some,
        operator_end(s, at)->0 < m,
    ensures
        operator_end(t, at) == operator_end(s, at),
        at < operator_end(s, at)->0,
{
    lemma_operator_moves(Seq::empty(), s, at);
    if at + 2 <= m {
        lemma_identifier_extends(s, t, m, at + 2);
    }
    if at + 5 <= m {
        lemma_identifier_extends(s, t, m, at + 5);
    }
}

/// An expression that ends at `m` goes on with the operator that follows it.
#[verifier::rlimit(50)]
proof fn lemma_expression_extends(s: Seq<char>, t: Seq<char>, m: int, at: int)
    requires
        same_upto(s, t, m),
        no_arrow(t, m),
        0 <= at <= m,
        expression_end(s, at) == Scan::End(m),
        s.len() == m && m > 0 ==> s[m - 1] != '@',
    ensures
        operator_end(t, skip_white(t, m)) is None ==> expression_end(t, at) == Scan::End(m),
        operator_end(t, skip_white(t, m)) is Some ==> expression_end(t, at) == expression_end(
            t,
            skip_white(t, operator_end(t, skip_white(t, m))->0),
        ) || skip_white(t, operator_end(t, skip_white(t, m))->0) > t.len(),
    decreases s.len() - at,
{
    lemma_expression_moves(Seq::empty(), s, at);
    lemma_operand_moves(Seq::empty(), s, at);
    let end = operand_end(s, at)->End_0;
    let place = skip_white(s, end);
    lemma_skip_white_moves(Seq::empty(), s, end);
    assert(Seq::<char>::empty() + s =~= s);
    match operator_end(s, place) {
        None => {
            lemma_operand_extends(s, t, m, at);
            lemma_skip_white_extends(s, t, m, m);
            lemma_operator_moves(Seq::empty(), t, skip_white(t, m));
            if operator_end(t, skip_white(t, m)) is Some {
                lemma_skip_white_moves(
                    Seq::empty(),
                    t,
                    operator_end(t, skip_white(t, m))->0,
                );
            }
        },
        Some(behind) => {
            let next = skip_white(s, behind);
            lemma_operator_moves(Seq::empty(), s, place);
            lemma_skip_white_moves(Seq::empty(), s, behind);
            lemma_expression_moves(Seq::empty(), s, next);
            assert(next < m);
            assert(end <= place < behind <= next);
            lemma_operand_extends(s, t, m, at);
            assert(s[end] != '_') by {
                if s[end] == '_' {
                    assert(place == end);
                }
            }
            lemma_skip_white_extends(s, t, m, end);
            lemma_operator_extends(s, t, m, place);
            lemma_skip_white_extends(s, t, m, behind);
            lemma_expression_extends(s, t, m, next);
        },
    }
}

/// Whether a text is one expression, from its start to its end.
pub open spec fn is_expression(text: Seq<char>) -> bool {
    text.len() > 0 && expression_end(text, 0) == Scan::End(text.len() as int)
}

/// Whether an expression is the same in front of a space. All are but those
/// that end in a `@` without a register: it takes the space for one.
pub open spec fn ends_anywhere(text: Seq<char>) -> bool {
    text.last() != '@' || expression_end(text.push(' '), 0) == Scan::End(text.len() as int)
}

/// A comparison with or without a mark for the case.
pub open spec fn with_case(comparison: Seq<char>, op: Seq<char>) -> bool {
    op == comparison || op == comparison + "#"@ || op == comparison + "?"@
}

/// The binary operators.
pub open spec fn is_operator(op: Seq<char>) -> bool {
    ||| with_case("=="@, op)
    ||| with_case("!="@, op)
    ||| with_case("<"@, op)
    ||| with_case("<="@, op)
    ||| with_case(">"@, op)
    ||| with_case(">="@, op)
    ||| with_case("=~"@, op)
    ||| with_case("!~"@, op)
    ||| with_case("is"@, op)
    ||| with_case("isnot"@, op)
    ||| op == "+"@
    ||| op == "-"@
    ||| op == "*"@
    ||| op == "/"@
    ||| op == "%"@
    ||| op == "."@
    ||| op == ".."@
    ||| op == "&&"@
    ||| op == "||"@
    ||| op == "??"@
}

/// The two signs of a choice.
pub open spec fn is_choice(op: Seq<char>) -> bool {
    op == "?"@ || op == ":"@
}

proof fn lemma_operator(t: Seq<char>, at: int, op: Seq<char>)
    requires
        0 <= at,
        at + op.len() < t.len(),
        forall|i: int| 0 <= i < op.len() ==> #[trigger] op[i] == t[at + i],
        t[(at + op.len()) as int] == ' ',
        is_operator(op) || is_choice(op),
    ensures
        op.len() > 0,
        operator_end(t, at) == Some((at + op.len()) as int),
        !is_white(t[at]),
        !(t[at] == '-' && t[at + 1] == '>'),
{
    reveal_strlit("#");
    reveal_strlit("?");
    if with_case("=="@, op) {
        reveal_strlit("==");
        lemma_comparison(t, at, "=="@, op);
    }
    if with_case("!="@, op) {
        reveal_strlit("!=");
        lemma_comparison(t, at, "!="@, op);
    }
    if with_case("<"@, op) {
        reveal_strlit("<");
        lemma_comparison(t, at, "<"@, op);
    }
    if with_case("<="@, op) {
        reveal_strlit("<=");
        lemma_comparison(t, at, "<="@, op);
    }
    if with_case(">"@, op) {
        reveal_strlit(">");
        lemma_comparison(t, at, ">"@, op);
    }
    if with_case(">="@, op) {
        reveal_strlit(">=");
        lemma_comparison(t, at, ">="@, op);
    }
    if with_case("=~"@, op) {
        reveal_strlit("=~");
        lemma_comparison(t, at, "=~"@, op);
    }
    if with_case("!~"@, op) {
        reveal_strlit("!~");
        lemma_comparison(t, at, "!~"@, op);
    }
    if with_case("is"@, op) {
        reveal_strlit("is");
        lemma_comparison(t, at, "is"@, op);
    }
    if with_case("isnot"@, op) {
        reveal_strlit("isnot");
        lemma_comparison(t, at, "isnot"@, op);
    }
    if op == "+"@ {
        reveal_strlit("+");
        assert(op[0] == t[at + 0]);
    }
    if op == "-"@ {
        reveal_strlit("-");
        assert(op[0] == t[at + 0]);
    }
    if op == "*"@ {
        reveal_strlit("*");
        assert(op[0] == t[at + 0]);
    }
    if op == "/"@ {
        reveal_strlit("/");
        assert(op[0] == t[at + 0]);
    }
    if op == "%"@ {
        reveal_strlit("%");
        assert(op[0] == t[at + 0]);
    }
    if op == "."@ {
        reveal_strlit(".");
        assert(op[0] == t[at + 0]);
    }
    if op == ".."@ {
        reveal_strlit("..");
        assert(op[0] == t[at + 0]);
        assert(op[1] == t[at + 1]);
    }
    if op == "&&"@ {
        reveal_strlit("&&");
        assert(op[0] == t[at + 0]);
        assert(op[1] == t[at + 1]);
    }
    if op == "||"@ {
        reveal_strlit("||");
        assert(op[0] == t[at + 0]);
        assert(op[1] == t[at + 1]);
    }
    if op == "??"@ {
        reveal_strlit("??");
        assert(op[0] == t[at + 0]);
        assert(op[1] == t[at + 1]);
    }
    if op == "?"@ {
        reveal_strlit("?");
        assert(op[0] == t[at + 0]);
    }
    if op == ":"@ {
        reveal_strlit(":");
        assert(op[0] == t[at + 0]);
    }
}

proof fn lemma_comparison(t: Seq<char>, at: int, comparison: Seq<char>, op: Seq<char>)
    requires
        0 <= at,
        at + op.len() < t.len(),
        forall|i: int| 0 <= i < op.len() ==> #[trigger] op[i] == t[at + i],
        t[(at + op.len()) as int] == ' ',
        with_case(comparison, op),
        comparison.len() > 0,
        ({
            let n = comparison.len();
            let c = comparison;
            ||| n == 1 && (c[0] == '<' || c[0] == '>')
            ||| n == 2 && is_comparison(c[0], c[1])
            ||| n == 2 && c[0] == 'i' && c[1] == 's'
            ||| n == 5 && c[0] == 'i' && c[1] == 's' && c[2] == 'n' && c[3] == 'o' && c[4] == 't'
        }),
    ensures
        op.len() > 0,
        operator_end(t, at) == Some((at + op.len()) as int),
        !is_white(t[at]),
        !(t[at] == '-' && t[at + 1] == '>'),
{
    reveal_strlit("#");
    reveal_strlit("?");
    let n = comparison.len() as int;
    assert forall|i: int| 0 <= i < n implies #[trigger] comparison[i] == t[at + i] by {
        assert(op[i] == comparison[i]);
    }
    assert(comparison[0] == t[at + 0]);
    if n > 1 {
        assert(comparison[1] == t[at + 1]);
    }
    if n > 2 {
        assert(comparison[2] == t[at + 2]);
        assert(comparison[3] == t[at + 3]);
        assert(comparison[4] == t[at + 4]);
    }
    if op.len() > n {
        assert(op[n] == t[at + n]);
        assert(op.len() == n + 1);
        assert(op[n] == '#' || op[n] == '?');
    } else {
        assert(op.len() == n);
    }
    assert(case_end(t, at + n) == at + op.len());
    if n >= 2 && comparison[0] == 'i' {
        assert(identifier_end(t, at + n) == at + n);
    }
}

/// The text of two operands with an operator between them.
pub open spec fn joined(one: Seq<char>, op: Seq<char>, other: Seq<char>) -> Seq<char> {
    one + " "@ + op + " "@ + other
}

proof fn lemma_in_front_of_a_space(text: Seq<char>)
    requires
        is_expression(text),
        ends_anywhere(text),
    ensures
        expression_end(text.push(' '), 0) == Scan::End(text.len() as int),
{
    if text.last() != '@' {
        let t = text.push(' ');
        let m = text.len() as int;
        lemma_skip_white_extends(text, t, m, m);
        lemma_skip_white_moves(Seq::empty(), t, m);
        assert(Seq::<char>::empty() + t =~= t);
        lemma_expression_extends(text, t, m, 0);
        lemma_operator_moves(Seq::empty(), t, skip_white(t, m));
    }
}

#[verifier::rlimit(50)]
proof fn lemma_joined(one: Seq<char>, op: Seq<char>, other: Seq<char>)
    requires
        is_expression(one),
        ends_anywhere(one),
        is_operator(op) || is_choice(op),
        is_expression(other),
    ensures
        is_expression(joined(one, op, other)),
        joined(one, op, other).last() == other.last(),
{
    reveal_strlit(" ");
    let t = joined(one, op, other);
    let s = one.push(' ');
    let m = one.len() as int;
    let head = one + " "@ + op + " "@;
    let at = m + 1;
    let behind = at + op.len();
    assert(t == head + other);
    assert forall|i: int| 0 <= i < op.len() implies #[trigger] op[i] == t[at + i] by {
        assert(head[at + i] == op[i]);
    }
    assert(t[behind as int] == ' ') by {
        assert(head[behind as int] == ' ');
    }
    assert forall|i: int| 0 <= i < m implies #[trigger] s[i] == t[i] by {
        assert(head[i] == one[i]);
    }
    assert(t[m] == ' ') by {
        assert(head[m] == ' ');
    }
    assert(other.len() > 0);
    lemma_operator(t, at, op);
    assert(skip_white(t, at) == at);
    assert(skip_white(t, m) == at);
    assert(no_arrow(t, m));
    lemma_in_front_of_a_space(one);
    lemma_expression_extends(s, t, m, 0);
    assert(t[behind + 1] == other[0]);
    assert(!is_white(other[0])) by {
        assert(operand_end(other, 0) is End);
    }
    assert(skip_white(t, behind + 1) == behind + 1);
    assert(skip_white(t, behind as int) == behind + 1);
    lemma_expression_moves(head, other, 0);
    assert(head.len() == behind + 1);
}

/// Two expressions with a binary operator between them, and spaces around it,
/// are one expression, whichever operator it is.
pub proof fn law_operators_join_expressions(one: Seq<char>, op: Seq<char>, other: Seq<char>)
    requires
        is_expression(one),
        ends_anywhere(one),
        is_operator(op),
        is_expression(other),
    ensures
        is_expression(joined(one, op, other)),
{
    lemma_joined(one, op, other);
}

/// A condition and two expressions make a choice, which is one expression.
pub proof fn law_choices_are_expressions(
    condition: Seq<char>,
    one: Seq<char>,
    other: Seq<char>,
)
    requires
        is_expression(condition),
        ends_anywhere(condition),
        is_expression(one),
        ends_anywhere(one),
        is_expression(other),
    ensures
        is_expression(joined(condition, "?"@, joined(one, ":"@, other))),
{
    lemma_joined(one, ":"@, other);
    lemma_joined(condition, "?"@, joined(one, ":"@, other));
}

/// A text that is no expression but its first operand and what may follow it.
proof fn lemma_only_operand(text: Seq<char>)
    requires
        text.len() > 0,
        operand_end(text, 0) == Scan::End(text.len() as int),
    ensures
        is_expression(text),
{
    let n = text.len() as int;
    assert(skip_white(text, n) == n);
    assert(operator_end(text, n) is None);
}

/// A digit with digits and letters behind it, such as a decimal or a
/// hexadecimal number, is an expression.
pub proof fn law_numbers_are_expressions(text: Seq<char>)
    requires
        text.len() > 0,
        '0' <= text[0] <= '9',
        forall|i: int|
            0 <= i < text.len() ==> '0' <= #[trigger] text[i] <= '9' || 'a' <= text[i] <= 'z' || 'A'
                <= text[i] <= 'Z',
    ensures
        is_expression(text),
{
    lemma_digits(text, 0);
    lemma_only_operand(text);
}

proof fn lemma_digits(text: Seq<char>, at: int)
    requires
        0 <= at <= text.len(),
        forall|i: int|
            0 <= i < text.len() ==> '0' <= #[trigger] text[i] <= '9' || 'a' <= text[i] <= 'z' || 'A'
                <= text[i] <= 'Z',
    ensures
        number_end(text, at) == text.len(),
    decreases text.len() - at,
{
    if at < text.len() {
        lemma_digits(text, at + 1);
    }
}

/// Whether a character can stand in a name.
pub open spec fn in_name(c: char) -> bool {
    'a' <= c <= 'z' || 'A' <= c <= 'Z' || '0' <= c <= '9' || c == '_' || c == ':' || c == '#'
}

/// Whether a text is a name: it starts with a letter or `_`.
pub open spec fn is_name(text: Seq<char>) -> bool {
    &&& text.len() > 0
    &&& 'a' <= text[0] <= 'z' || 'A' <= text[0] <= 'Z' || text[0] == '_'
    &&& forall|i: int| 0 <= i < text.len() ==> in_name(#[trigger] text[i])
}

proof fn lemma_name(text: Seq<char>, m: int, at: int)
    requires
        0 <= at <= m <= text.len(),
        forall|i: int| at <= i < m ==> in_name(#[trigger] text[i]),
        m < text.len() ==> !in_name(text[m]) && text[m] != '{',
    ensures
        name_end(text, at) == Scan::End(m),
    decreases m - at,
{
    if at < m {
        lemma_name(text, m, at + 1);
    }
}

/// A name, with or without the letter of a scope, is an expression.
pub proof fn law_names_are_expressions(text: Seq<char>)
    requires
        is_name(text),
    ensures
        is_expression(text),
{
    lemma_name(text, text.len() as int, 0);
    lemma_only_operand(text);
}

proof fn lemma_literal(text: Seq<char>, at: int, end: int)
    requires
        0 <= at <= end <= text.len(),
        forall|i: int| at <= i < end ==> #[trigger] text[i] != '\'',
    ensures
        literal_end(text, at) == literal_end(text, end),
    decreases end - at,
{
    if at < end {
        lemma_literal(text, at + 1, end);
    }
}

/// Text in single quotes is an expression, whatever it holds but a quote; a
/// quote in it is written twice.
pub proof fn law_literal_strings_are_expressions(body: Seq<char>, more: Seq<char>)
    requires
        forall|i: int| 0 <= i < body.len() ==> #[trigger] body[i] != '\'',
        forall|i: int| 0 <= i < more.len() ==> #[trigger] more[i] != '\'',
    ensures
        is_expression(seq!['\''] + body + seq!['\'']),
        is_expression(seq!['\''] + body + seq!['\'', '\''] + more + seq!['\'']),
{
    let t = seq!['\''] + body + seq!['\''];
    let n = body.len() as int;
    assert forall|i: int| 1 <= i < n + 1 implies #[trigger] t[i] != '\'' by {
        assert(t[i] == body[i - 1]);
    }
    assert(t[n + 1] == '\'');
    lemma_literal(t, 1, n + 1);
    lemma_only_operand(t);
    let u = seq!['\''] + body + seq!['\'', '\''] + more + seq!['\''];
    let k = more.len() as int;
    assert forall|i: int| 1 <= i < n + 1 implies #[trigger] u[i] != '\'' by {
        assert(u[i] == body[i - 1]);
    }
    assert(u[n + 1] == '\'' && u[n + 2] == '\'');
    assert forall|i: int| n + 3 <= i < n + 3 + k implies #[trigger] u[i] != '\'' by {
        assert(u[i] == more[i - n - 3]);
    }
    assert(u[n + 3 + k] == '\'');
    lemma_literal(u, 1, n + 1);
    lemma_literal(u, n + 3, n + 3 + k);
    assert(literal_end(u, n + 1) == literal_end(u, n + 3));
    lemma_only_operand(u);
}

/// Text in double quotes, its quotes and backslashes behind a backslash, is an
/// expression.
pub proof fn law_strings_are_expressions(word: Seq<char>)
    ensures
        is_expression(seq!['"'] + crate::excmd::escaped(word) + seq!['"']),
{
    let t = seq!['"'] + crate::excmd::escaped(word) + seq!['"'];
    crate::excmd::law_quoted_argument_ends_at_its_quote(seq!['"'], word, Seq::empty());
    assert(seq!['"'] + crate::excmd::escaped(word).push('"') + Seq::<char>::empty() =~= t);
    lemma_only_operand(t);
}

proof fn lemma_word(text: Seq<char>, at: int)
    requires
        0 <= at <= text.len(),
        forall|i: int|
            at <= i < text.len() ==> 'a' <= #[trigger] text[i] <= 'z' || 'A' <= text[i] <= 'Z',
    ensures
        word_end(text, at) == text.len(),
    decreases text.len() - at,
{
    if at < text.len() {
        lemma_word(text, at + 1);
    }
}

/// The value of an option, behind `&`, `&g:` or `&l:`, that of a register,
/// behind `@`, and that of a variable of the environment, behind `$`, are
/// expressions.
pub proof fn law_settings_are_expressions(name: Seq<char>, scope: char, register: char)
    requires
        name.len() > 0,
        forall|i: int|
            0 <= i < name.len() ==> 'a' <= #[trigger] name[i] <= 'z' || 'A' <= name[i] <= 'Z',
        scope == 'g' || scope == 'l',
    ensures
        is_expression(seq!['&'] + name),
        is_expression(seq!['&', scope, ':'] + name),
        is_expression(seq!['@', register]),
        is_expression(seq!['$'] + name),
{
    let n = name.len() as int;
    let t = seq!['&'] + name;
    assert forall|i: int| 1 <= i < t.len() implies 'a' <= #[trigger] t[i] <= 'z' || 'A' <= t[i]
        <= 'Z' by {
        assert(t[i] == name[i - 1]);
    }
    lemma_word(t, 1);
    assert(option_end(t, 0) == Some(t.len() as int));
    lemma_only_operand(t);
    let u = seq!['&', scope, ':'] + name;
    assert forall|i: int| 3 <= i < u.len() implies 'a' <= #[trigger] u[i] <= 'z' || 'A' <= u[i]
        <= 'Z' by {
        assert(u[i] == name[i - 3]);
    }
    lemma_word(u, 3);
    assert(u[3] == name[0]);
    assert(option_end(u, 0) == Some(u.len() as int));
    lemma_only_operand(u);
    let r = seq!['@', register];
    assert(skip_white(r, 2) == 2);
    lemma_only_operand(r);
    let v = seq!['$'] + name;
    assert forall|i: int| 1 <= i < v.len() implies 'a' <= #[trigger] v[i] <= 'z' || 'A' <= v[i]
        <= 'Z' by {
        assert(v[i] == name[i - 1]);
    }
    lemma_letters(v, 1);
    assert(v[1] == name[0]);
    lemma_only_operand(v);
}

proof fn lemma_letters(text: Seq<char>, at: int)
    requires
        0 <= at <= text.len(),
        forall|i: int|
            at <= i < text.len() ==> 'a' <= #[trigger] text[i] <= 'z' || 'A' <= text[i] <= 'Z',
    ensures
        identifier_end(text, at) == text.len(),
    decreases text.len() - at,
{
    if at < text.len() {
        lemma_letters(text, at + 1);
    }
}

/// The value of a terminal code, whatever its two characters are, and that of a
/// variable of the environment are expressions, and so are strings with a `$`
/// in front.
pub proof fn law_more_settings_are_expressions(
    one: char,
    other: char,
    name: Seq<char>,
    body: Seq<char>,
    word: Seq<char>,
)
    requires
        name.len() > 0,
        forall|i: int|
            0 <= i < name.len() ==> 'a' <= #[trigger] name[i] <= 'z' || 'A' <= name[i] <= 'Z' || '0'
                <= name[i] <= '9' || name[i] == '_',
        forall|i: int| 0 <= i < body.len() ==> #[trigger] body[i] != '\'',
    ensures
        is_expression(seq!['&', 't', '_', one, other]),
        is_expression(seq!['$'] + name),
        is_expression(seq!['$', '\''] + body + seq!['\'']),
        is_expression(seq!['$', '"'] + crate::excmd::escaped(word) + seq!['"']),
{
    let t = seq!['&', 't', '_', one, other];
    assert(option_end(t, 0) == Some(5int));
    assert(skip_white(t, 5) == 5);
    lemma_only_operand(t);
    let v = seq!['$'] + name;
    assert forall|i: int| 1 <= i < v.len() implies is_number_char(#[trigger] v[i]) || v[i]
        == '_' by {
        assert(v[i] == name[i - 1]);
    }
    lemma_environment(v, 1);
    assert(v[1] == name[0]);
    lemma_only_operand(v);
    let u = seq!['$', '\''] + body + seq!['\''];
    let n = body.len() as int;
    assert forall|i: int| 2 <= i < n + 2 implies #[trigger] u[i] != '\'' by {
        assert(u[i] == body[i - 2]);
    }
    assert(u[n + 2] == '\'');
    lemma_literal(u, 2, n + 2);
    lemma_only_operand(u);
    let w = seq!['$', '"'] + crate::excmd::escaped(word) + seq!['"'];
    crate::excmd::law_quoted_argument_ends_at_its_quote(seq!['$', '"'], word, Seq::empty());
    assert(seq!['$', '"'] + crate::excmd::escaped(word).push('"') + Seq::<char>::empty() =~= w);
    lemma_only_operand(w);
}

proof fn lemma_environment(text: Seq<char>, at: int)
    requires
        0 <= at <= text.len(),
        forall|i: int|
            at <= i < text.len() ==> is_number_char(#[trigger] text[i]) || text[i] == '_',
    ensures
        identifier_end(text, at) == text.len(),
    decreases text.len() - at,
{
    if at < text.len() {
        lemma_environment(text, at + 1);
    }
}

/// A sign in front of an expression makes an expression.
pub proof fn law_signs_go_in_front(sign: char, text: Seq<char>)
    requires
        sign == '!' || sign == '-' || sign == '+',
        is_expression(text),
    ensures
        is_expression(seq![sign] + text),
{
    let t = seq![sign] + text;
    lemma_expression_moves(seq![sign], text, 0);
    lemma_operand_moves(seq![sign], text, 0);
    assert(operand_end(t, 0) == operand_end(t, 1));
}

// Groups.

/// Whether a character means nothing to the search for the end of a group.
spec fn is_inert(c: char) -> bool {
    c != '\'' && c != '"' && c != '@' && !opens(c) && !closes(c)
}

proof fn lemma_walk_inert(s: Seq<char>, at: int, end: int, depth: nat)
    requires
        0 <= at <= end <= s.len(),
        depth > 0,
        forall|i: int| at <= i < end ==> is_inert(#[trigger] s[i]),
    ensures
        group_end(s, at, depth) == group_end(s, end, depth),
    decreases end - at,
{
    if at < end {
        lemma_walk_inert(s, at + 1, end, depth);
    }
}

/// A group inside others is passed over.
proof fn lemma_walk_group(s: Seq<char>, at: int, inner: nat, depth: nat)
    requires
        0 <= at,
        group_end(s, at, inner) is End,
        depth > 0,
        inner + depth + s.len() - at < 1000,
    ensures
        group_end(s, at, inner + depth) == group_end(
            s,
            group_end(s, at, inner)->End_0,
            depth,
        ),
    decreases s.len() - at,
{
    lemma_group_moves(Seq::empty(), s, at, inner);
    if s[at] == '\'' {
        lemma_walk_group(s, literal_end(s, at + 1)->0, inner, depth);
    } else if s[at] == '"' {
        lemma_walk_group(s, string_end(s, at + 1)->0, inner, depth);
    } else if s[at] == '@' {
        lemma_walk_group(s, at + 2, inner, depth);
    } else if opens(s[at]) {
        lemma_walk_group(s, at + 1, inner + 1, depth);
    } else if closes(s[at]) {
        if inner > 1 {
            lemma_walk_group(s, at + 1, (inner - 1) as nat, depth);
        }
    } else {
        lemma_walk_group(s, at + 1, inner, depth);
    }
}

proof fn lemma_walk_name(s: Seq<char>, at: int, depth: nat)
    requires
        0 <= at <= s.len(),
        name_end(s, at) is End,
        depth > 0,
        1 + depth + s.len() - at < 1000,
    ensures
        group_end(s, at, depth) == group_end(s, name_end(s, at)->End_0, depth),
    decreases s.len() - at,
{
    if at < s.len() {
        if is_name_char(s[at]) {
            lemma_walk_name(s, at + 1, depth);
        } else if s[at] == '{' {
            let end = group_end(s, at + 1, 1)->End_0;
            lemma_walk_group(s, at + 1, 1, depth);
            lemma_walk_name(s, end, depth);
        }
    }
}

proof fn lemma_white_between(s: Seq<char>, at: int)
    requires
        0 <= at,
    ensures
        forall|i: int| at <= i < skip_white(s, at) ==> is_inert(#[trigger] s[i]),
    decreases s.len() - at,
{
    if at < s.len() && is_white(s[at]) {
        lemma_white_between(s, at + 1);
    }
}

#[verifier::rlimit(50)]
proof fn lemma_walk_suffix(s: Seq<char>, at: int, depth: nat)
    requires
        0 <= at <= s.len(),
        suffix_end(s, at) is End,
        depth > 0,
        1 + depth + s.len() - at < 1000,
    ensures
        group_end(s, at, depth) == group_end(s, suffix_end(s, at)->End_0, depth),
    decreases s.len() - at,
{
    let arrow = skip_white(s, at);
    lemma_skip_white_moves(Seq::empty(), s, at);
    if at < s.len() && (s[at] == '(' || s[at] == '[') {
        let end = group_end(s, at + 1, 1)->End_0;
        lemma_walk_group(s, at + 1, 1, depth);
        lemma_walk_suffix(s, end, depth);
    } else if arrow + 1 < s.len() && s[arrow] == '-' && s[arrow + 1] == '>' {
        let end = callee_end(s, arrow + 2)->End_0;
        lemma_white_between(s, at);
        lemma_walk_inert(s, at, arrow + 2, depth);
        lemma_walk_name(s, arrow + 2, depth);
        lemma_walk_suffix(s, end, depth);
    }
}

/// Whether the name of a terminal code stands behind the `&` at `at`: its last
/// two characters may be any.
pub open spec fn is_code(s: Seq<char>, at: int) -> bool {
    &&& 0 <= at < s.len()
    &&& s[at] == '&'
    &&& {
        ||| at + 2 < s.len() && s[at + 1] == 't' && s[at + 2] == '_'
        ||| at + 4 < s.len() && s[at + 2] == ':' && s[at + 3] == 't' && s[at + 4] == '_'
    }
}

proof fn lemma_walk_word(s: Seq<char>, at: int)
    requires
        0 <= at,
    ensures
        forall|i: int| at <= i < word_end(s, at) ==> is_inert(#[trigger] s[i]),
    decreases s.len() - at,
{
    if at < s.len() && is_letter(s[at]) {
        lemma_walk_word(s, at + 1);
    }
}

proof fn lemma_walk_number(s: Seq<char>, at: int)
    requires
        0 <= at,
    ensures
        forall|i: int| at <= i < number_end(s, at) ==> is_inert(#[trigger] s[i]),
    decreases s.len() - at,
{
    if at < s.len() {
        lemma_walk_number(s, at + 1);
    }
}

proof fn lemma_walk_identifier(s: Seq<char>, at: int)
    requires
        0 <= at,
    ensures
        forall|i: int| at <= i < identifier_end(s, at) ==> is_inert(#[trigger] s[i]),
    decreases s.len() - at,
{
    if at < s.len() && (is_number_char(s[at]) || s[at] == '_') {
        lemma_walk_identifier(s, at + 1);
    }
}

#[verifier::rlimit(50)]
proof fn lemma_walk_primary(s: Seq<char>, at: int, depth: nat)
    requires
        0 <= at,
        primary_end(s, at) is End,
        primary_end(s, at)->End_0 < s.len(),
        depth > 0,
        1 + depth + s.len() - at < 1000,
        !is_code(s, at),
    ensures
        group_end(s, at, depth) == group_end(s, primary_end(s, at)->End_0, depth),
{
    lemma_primary_moves(Seq::empty(), s, at);
    let end = primary_end(s, at)->End_0;
    if crate::text::is_digit(s[at]) {
        lemma_walk_number(s, at);
        lemma_walk_inert(s, at, end, depth);
    } else if s[at] == '\'' || s[at] == '"' {
    } else if s[at] == '(' || s[at] == '[' {
        lemma_walk_group(s, at + 1, 1, depth);
    } else if s[at] == '{' || is_letter(s[at]) || s[at] == '_' {
        lemma_walk_name(s, at, depth);
    } else if s[at] == '#' && at + 1 < s.len() && s[at + 1] == '{' {
        lemma_walk_group(s, at + 2, 1, depth);
        assert(group_end(s, at, depth) == group_end(s, at + 1, depth));
    } else if s[at] == '&' {
        lemma_walk_word(s, at + 1);
        lemma_walk_word(s, at + 3);
        lemma_walk_inert(s, at, end, depth);
    } else if s[at] == '@' {
    } else if s[at] == '$' {
        assert(group_end(s, at, depth) == group_end(s, at + 1, depth));
        if s[at + 1] != '\'' && s[at + 1] != '"' {
            lemma_walk_identifier(s, at + 1);
            lemma_walk_inert(s, at + 1, end, depth);
        }
    }
}

proof fn lemma_walk_operand(s: Seq<char>, at: int, depth: nat)
    requires
        0 <= at,
        operand_end(s, at) is End,
        operand_end(s, at)->End_0 < s.len(),
        depth > 0,
        1 + depth + s.len() - at < 1000,
        forall|i: int| !#[trigger] is_code(s, i),
    ensures
        group_end(s, at, depth) == group_end(s, operand_end(s, at)->End_0, depth),
    decreases s.len() - at,
{
    lemma_operand_moves(Seq::empty(), s, at);
    if s[at] == '!' || s[at] == '-' || s[at] == '+' {
        lemma_walk_operand(s, at + 1, depth);
    } else {
        lemma_primary_moves(Seq::empty(), s, at);
        lemma_suffix_moves(Seq::empty(), s, primary_end(s, at)->End_0);
        assert(!is_code(s, at));
        lemma_walk_primary(s, at, depth);
        lemma_walk_suffix(s, primary_end(s, at)->End_0, depth);
    }
}

proof fn lemma_walk_operator(s: Seq<char>, at: int)
    requires
        0 <= at,
        operator_end(s, at) is Some,
    ensures
        forall|i: int| at <= i < operator_end(s, at)->0 ==> is_inert(#[trigger] s[i]),
{
}

/// An expression inside a group is passed over.
proof fn lemma_walk_expression(s: Seq<char>, at: int, depth: nat)
    requires
        0 <= at,
        expression_end(s, at) is End,
        expression_end(s, at)->End_0 < s.len(),
        depth > 0,
        1 + depth + s.len() - at < 1000,
        forall|i: int| !#[trigger] is_code(s, i),
    ensures
        group_end(s, at, depth) == group_end(s, expression_end(s, at)->End_0, depth),
    decreases s.len() - at,
{
    lemma_expression_moves(Seq::empty(), s, at);
    lemma_operand_moves(Seq::empty(), s, at);
    let end = operand_end(s, at)->End_0;
    match operator_end(s, skip_white(s, end)) {
        None => {
            lemma_walk_operand(s, at, depth);
        },
        Some(behind) => {
            let next = skip_white(s, behind);
            lemma_skip_white_moves(Seq::empty(), s, end);
            lemma_operator_moves(Seq::empty(), s, skip_white(s, end));
            lemma_skip_white_moves(Seq::empty(), s, behind);
            lemma_expression_moves(Seq::empty(), s, next);
            lemma_walk_operand(s, at, depth);
            lemma_white_between(s, end);
            lemma_walk_operator(s, skip_white(s, end));
            lemma_white_between(s, behind);
            lemma_walk_inert(s, end, next, depth);
            lemma_walk_expression(s, next, depth);
        },
    }
}

/// Expressions with a comma behind each but the last, and a space behind all.
pub open spec fn listed(items: Seq<Seq<char>>) -> Seq<char>
    decreases items.len(),
{
    if items.len() == 0 {
        Seq::empty()
    } else if items.len() == 1 {
        items[0] + " "@
    } else {
        items[0] + " , "@ + listed(items.drop_first())
    }
}

/// Whether each of some texts is an expression that a space may follow.
pub open spec fn are_expressions(items: Seq<Seq<char>>) -> bool {
    forall|i: int|
        0 <= i < items.len() ==> is_expression(#[trigger] items[i]) && ends_anywhere(items[i])
}

/// An item of a list inside a group, and the space behind it, are passed over.
proof fn lemma_walk_item(u: Seq<char>, at: int, item: Seq<char>, depth: nat)
    requires
        is_expression(item),
        ends_anywhere(item),
        0 <= at,
        at + item.len() + 1 < u.len(),
        forall|i: int| 0 <= i < item.len() ==> #[trigger] item[i] == u[at + i],
        u[(at + item.len()) as int] == ' ',
        u[at + item.len() + 1] == ',' || closes(u[at + item.len() + 1]),
        depth > 0,
        1 + depth + u.len() < 1000,
        forall|i: int| !#[trigger] is_code(u, i),
    ensures
        group_end(u, at, depth) == group_end(u, at + item.len() + 1, depth),
{
    let head = u.take(at);
    let m = (at + item.len()) as int;
    let s = head + item.push(' ');
    lemma_in_front_of_a_space(item);
    lemma_expression_moves(head, item.push(' '), 0);
    assert(expression_end(s, at) == Scan::End(m));
    assert forall|i: int| 0 <= i < m implies #[trigger] s[i] == u[i] by {
        if i >= at {
            assert(s[i] == item[i - at]);
        }
    }
    assert(s[m] == ' ');
    assert(skip_white(u, m + 1) == m + 1);
    assert(skip_white(u, m) == m + 1);
    lemma_expression_extends(s, u, m, at);
    assert(operator_end(u, m + 1) is None);
    lemma_walk_expression(u, at, depth);
    lemma_walk_inert(u, m, m + 1, depth);
}

/// A list inside a group is passed over.
proof fn lemma_walk_items(
    u: Seq<char>,
    at: int,
    items: Seq<Seq<char>>,
    depth: nat,
)
    requires
        are_expressions(items),
        0 <= at,
        at + listed(items).len() < u.len(),
        forall|i: int| 0 <= i < listed(items).len() ==> #[trigger] listed(items)[i] == u[at + i],
        closes(u[(at + listed(items).len()) as int]),
        depth > 0,
        1 + depth + u.len() < 1000,
        forall|i: int| !#[trigger] is_code(u, i),
    ensures
        group_end(u, at, depth) == group_end(u, (at + listed(items).len()) as int, depth),
    decreases items.len(),
{
    reveal_strlit(" ");
    reveal_strlit(" , ");
    let list = listed(items);
    if items.len() > 0 {
        let item = items[0];
        let n = item.len() as int;
        assert(is_expression(item) && ends_anywhere(item));
        assert forall|i: int| 0 <= i < n implies #[trigger] item[i] == u[at + i] by {
            assert(list[i] == item[i]);
        }
        assert(list[n] == ' ' && list[n] == u[at + n]);
        if items.len() == 1 {
            assert(list.len() == n + 1);
            lemma_walk_item(u, at, item, depth);
        } else {
            let fewer = items.drop_first();
            let rest = listed(fewer);
            assert forall|i: int| 0 <= i < fewer.len() implies is_expression(#[trigger] fewer[i])
                && ends_anywhere(fewer[i]) by {
                assert(fewer[i] == items[i + 1]);
            }
            assert(list.len() == n + 3 + rest.len());
            assert(list[n + 1] == ',' && list[n + 1] == u[at + (n + 1)]);
            assert(list[n + 2] == ' ' && list[n + 2] == u[at + (n + 2)]);
            lemma_walk_item(u, at, item, depth);
            lemma_walk_inert(u, at + n + 1, at + n + 3, depth);
            assert forall|i: int| 0 <= i < rest.len() implies #[trigger] rest[i] == u[at + n + 3
                + i] by {
                assert(list[n + 3 + i] == rest[i]);
                assert(list[n + 3 + i] == u[at + (n + 3 + i)]);
            }
            lemma_walk_items(u, at + n + 3, fewer, depth);
        }
    }
}

proof fn lemma_walk_list_in(
    head: Seq<char>,
    items: Seq<Seq<char>>,
    close: char,
    behind: Seq<char>,
    depth: nat,
)
    requires
        are_expressions(items),
        closes(close),
        depth > 0,
        ({
            let u = head + listed(items) + seq![close] + behind;
            1 + depth + u.len() < 1000 && forall|i: int| !#[trigger] is_code(u, i)
        }),
    ensures
        ({
            let u = head + listed(items) + seq![close] + behind;
            group_end(u, head.len() as int, depth) == group_end(
                u,
                (head.len() + listed(items).len()) as int,
                depth,
            )
        }),
{
    let list = listed(items);
    let u = head + list + seq![close] + behind;
    let at = head.len() as int;
    assert forall|i: int| 0 <= i < list.len() implies #[trigger] list[i] == u[at + i] by {}
    assert(u[(at + list.len()) as int] == close);
    lemma_walk_items(u, at, items, depth);
}

proof fn lemma_walk_list(head: Seq<char>, items: Seq<Seq<char>>, close: char, depth: nat)
    requires
        are_expressions(items),
        closes(close),
        depth > 0,
        ({
            let u = head + listed(items) + seq![close];
            1 + depth + u.len() < 1000 && forall|i: int| !#[trigger] is_code(u, i)
        }),
    ensures
        ({
            let u = head + listed(items) + seq![close];
            group_end(u, head.len() as int, depth) == group_end(u, u.len() - 1, depth)
        }),
{
    let list = listed(items);
    let u = head + list + seq![close];
    let at = head.len() as int;
    assert forall|i: int| 0 <= i < list.len() implies #[trigger] list[i] == u[at + i] by {}
    assert(u[(at + list.len()) as int] == close);
    lemma_walk_items(u, at, items, depth);
}

/// Whether a text is short enough that its groups cannot be too deep, and
/// holds no terminal code, whose name may hold brackets.
pub open spec fn is_tame(text: Seq<char>) -> bool {
    text.len() < 998 && forall|i: int| !#[trigger] is_code(text, i)
}

/// An expression in parentheses is an expression, and so is a list of
/// expressions in brackets.
pub proof fn law_groups_are_expressions(text: Seq<char>, items: Seq<Seq<char>>)
    requires
        is_expression(text),
        ends_anywhere(text),
        are_expressions(items),
        is_tame(seq!['('] + (text + " "@) + seq![')']),
        is_tame(seq!['['] + listed(items) + seq![']']),
    ensures
        is_expression(seq!['('] + (text + " "@) + seq![')']),
        is_expression(seq!['['] + listed(items) + seq![']']),
{
    let one = seq![text];
    assert(listed(one) == text + " "@);
    lemma_walk_list(seq!['('], one, ')', 1);
    let t = seq!['('] + (text + " "@) + seq![')'];
    assert(t[t.len() - 1] == ')');
    assert(group_end(t, t.len() - 1, 1) == Scan::End(t.len() as int));
    lemma_only_operand(t);
    lemma_walk_list(seq!['['], items, ']', 1);
    let u = seq!['['] + listed(items) + seq![']'];
    assert(u[u.len() - 1] == ']');
    assert(group_end(u, u.len() - 1, 1) == Scan::End(u.len() as int));
    lemma_only_operand(u);
}

/// The call of a named function with a list of arguments, and the item of a
/// named list, are expressions.
pub proof fn law_calls_are_expressions(name: Seq<char>, items: Seq<Seq<char>>, text: Seq<char>)
    requires
        is_name(name),
        are_expressions(items),
        is_expression(text),
        ends_anywhere(text),
        is_tame(name + seq!['('] + listed(items) + seq![')']),
        is_tame(name + seq!['['] + (text + " "@) + seq![']']),
    ensures
        is_expression(name + seq!['('] + listed(items) + seq![')']),
        is_expression(name + seq!['['] + (text + " "@) + seq![']']),
{
    let n = name.len() as int;
    let t = name + seq!['('] + listed(items) + seq![')'];
    assert forall|i: int| 0 <= i < n implies in_name(#[trigger] t[i]) by {
        assert(t[i] == name[i]);
    }
    assert(t[n] == '(');
    assert(t[0] == name[0]);
    lemma_name(t, n, 0);
    lemma_walk_list(name + seq!['('], items, ')', 1);
    assert(t[t.len() - 1] == ')');
    assert(group_end(t, t.len() - 1, 1) == Scan::End(t.len() as int));
    assert(suffix_end(t, t.len() as int) == Scan::End(t.len() as int)) by {
        assert(skip_white(t, t.len() as int) == t.len());
    }
    assert(suffix_end(t, n) == Scan::End(t.len() as int));
    lemma_only_operand(t);
    let one = seq![text];
    assert(listed(one) == text + " "@);
    let u = name + seq!['['] + (text + " "@) + seq![']'];
    assert forall|i: int| 0 <= i < n implies in_name(#[trigger] u[i]) by {
        assert(u[i] == name[i]);
    }
    assert(u[n] == '[');
    assert(u[0] == name[0]);
    lemma_name(u, n, 0);
    lemma_walk_list(name + seq!['['], one, ']', 1);
    assert(u[u.len() - 1] == ']');
    assert(group_end(u, u.len() - 1, 1) == Scan::End(u.len() as int));
    assert(suffix_end(u, u.len() as int) == Scan::End(u.len() as int)) by {
        assert(skip_white(u, u.len() as int) == u.len());
    }
    assert(suffix_end(u, n) == Scan::End(u.len() as int));
    lemma_only_operand(u);
}

/// An item of what a call returns is an expression: what stands behind an
/// operand can have more behind it.
pub proof fn law_suffixes_follow_each_other(
    name: Seq<char>,
    items: Seq<Seq<char>>,
    text: Seq<char>,
)
    requires
        is_name(name),
        are_expressions(items),
        is_expression(text),
        ends_anywhere(text),
        is_tame(name + seq!['('] + listed(items) + seq![')', '['] + (text + " "@) + seq![']']),
    ensures
        is_expression(
            name + seq!['('] + listed(items) + seq![')', '['] + (text + " "@) + seq![']'],
        ),
{
    let n = name.len() as int;
    let call = name + seq!['('];
    let t = name + seq!['('] + listed(items) + seq![')', '['] + (text + " "@) + seq![']'];
    let end = t.len() as int;
    let behind = seq!['['] + (text + " "@) + seq![']'];
    assert(t =~= call + listed(items) + seq![')'] + behind);
    let m = n + 1 + listed(items).len();
    assert forall|i: int| 0 <= i < n implies in_name(#[trigger] t[i]) by {
        assert(call[i] == name[i]);
    }
    assert(call[n] == '(');
    assert(t[n] == '(' && t[m] == ')' && t[m + 1] == '[' && t[end - 1] == ']');
    assert(t[0] == name[0]);
    lemma_name(t, n, 0);
    lemma_walk_list_in(call, items, ')', behind, 1);
    assert(group_end(t, n + 1, 1) == Scan::End(m + 1));
    let one = seq![text];
    assert(listed(one) == text + " "@);
    let head = call + listed(items) + seq![')', '['];
    assert(t =~= head + listed(one) + seq![']']);
    lemma_walk_list(head, one, ']', 1);
    assert(head.len() == m + 2);
    assert(group_end(t, end - 1, 1) == Scan::End(end));
    assert(suffix_end(t, end) == Scan::End(end)) by {
        assert(skip_white(t, end) == end);
    }
    assert(suffix_end(t, m + 1) == Scan::End(end));
    assert(suffix_end(t, n) == Scan::End(end));
    lemma_only_operand(t);
}

/// Digits, a point and digits are an expression.
pub proof fn law_fractions_are_expressions(whole: Seq<char>, part: Seq<char>)
    requires
        whole.len() > 0,
        part.len() > 0,
        forall|i: int| 0 <= i < whole.len() ==> '0' <= #[trigger] whole[i] <= '9',
        forall|i: int| 0 <= i < part.len() ==> '0' <= #[trigger] part[i] <= '9',
    ensures
        is_expression(whole + seq!['.'] + part),
{
    let t = whole + seq!['.'] + part;
    let n = whole.len() as int;
    assert(t[n] == '.');
    assert(t[n + 1] == part[0]);
    assert forall|i: int| 0 <= i < t.len() && i != n implies '0' <= #[trigger] t[i] <= '9' by {
        if i < n {
            assert(t[i] == whole[i]);
        } else {
            assert(t[i] == part[i - n - 1]);
        }
    }
    lemma_fraction(t, n, 0);
    assert(t[0] == whole[0]);
    lemma_only_operand(t);
}

proof fn lemma_fraction(t: Seq<char>, point: int, at: int)
    requires
        0 <= at <= t.len(),
        0 <= point,
        point + 1 < t.len(),
        t[point] == '.',
        forall|i: int| 0 <= i < t.len() && i != point ==> '0' <= #[trigger] t[i] <= '9',
    ensures
        number_end(t, at) == t.len(),
    decreases t.len() - at,
{
    if at < t.len() {
        lemma_fraction(t, point, at + 1);
        assert('0' <= t[point + 1] <= '9');
    }
}

/// A dictionary, with or without `#` in front of its brace, is an expression;
/// its items are keys and values with a colon between them.
pub proof fn law_dictionaries_are_expressions(items: Seq<Seq<char>>)
    requires
        are_expressions(items),
        is_tame(seq!['{'] + listed(items) + seq!['}']),
        is_tame(seq!['#', '{'] + listed(items) + seq!['}']),
    ensures
        is_expression(seq!['{'] + listed(items) + seq!['}']),
        is_expression(seq!['#', '{'] + listed(items) + seq!['}']),
{
    lemma_walk_list(seq!['{'], items, '}', 1);
    let t = seq!['{'] + listed(items) + seq!['}'];
    let n = t.len() as int;
    assert(t[n - 1] == '}');
    assert(group_end(t, n - 1, 1) == Scan::End(n));
    assert(name_end(t, n) == Scan::End(n));
    assert(name_end(t, 0) == Scan::End(n));
    lemma_only_operand(t);
    lemma_walk_list(seq!['#', '{'], items, '}', 1);
    let u = seq!['#', '{'] + listed(items) + seq!['}'];
    assert(u[u.len() - 1] == '}');
    assert(group_end(u, u.len() - 1, 1) == Scan::End(u.len() as int));
    lemma_only_operand(u);
}

/// The call of a method of a named value is an expression.
pub proof fn law_methods_are_expressions(
    name: Seq<char>,
    method: Seq<char>,
    items: Seq<Seq<char>>,
)
    requires
        is_name(name),
        is_name(method),
        are_expressions(items),
        is_tame(name + seq!['-', '>'] + method + seq!['('] + listed(items) + seq![')']),
    ensures
        is_expression(name + seq!['-', '>'] + method + seq!['('] + listed(items) + seq![')']),
{
    let head = name + seq!['-', '>'] + method + seq!['('];
    let t = head + listed(items) + seq![')'];
    let n = name.len() as int;
    let m = n + 2 + method.len();
    let end = t.len() as int;
    assert forall|i: int| 0 <= i < n implies in_name(#[trigger] t[i]) by {
        assert(head[i] == name[i]);
    }
    assert(head[n] == '-' && head[n + 1] == '>' && head[m] == '(');
    assert(t[n] == '-' && t[n + 1] == '>' && t[m] == '(');
    assert(head[0] == name[0]);
    lemma_name(t, n, 0);
    assert forall|i: int| n + 2 <= i < m implies in_name(#[trigger] t[i]) by {
        assert(head[i] == method[i - n - 2]);
    }
    lemma_name(t, m, n + 2);
    assert(callee_end(t, n + 2) == Scan::End(m));
    lemma_walk_list(head, items, ')', 1);
    assert(t[end - 1] == ')');
    assert(group_end(t, end - 1, 1) == Scan::End(end));
    assert(suffix_end(t, end) == Scan::End(end)) by {
        assert(skip_white(t, end) == end);
    }
    assert(suffix_end(t, m) == Scan::End(end));
    assert(skip_white(t, n) == n);
    assert(suffix_end(t, n) == Scan::End(end));
    lemma_only_operand(t);
}

/// A thousand groups inside each other are too many for anything to stand in
/// the last one.
pub proof fn law_deep_groups_are_refused(text: Seq<char>, rest: Seq<char>)
    requires
        text.len() == 1000,
        forall|i: int| 0 <= i < text.len() ==> #[trigger] text[i] == '(',
        rest.len() > 0,
        rest[0] != ' ' && rest[0] != '\t' && rest[0] != ')' && rest[0] != ']' && rest[0] != '}',
    ensures
        expression_end(text + rest, 0) == Scan::TooDeep(1000),
{
    let t = text + rest;
    assert forall|i: int| 0 <= i < 1000 implies #[trigger] t[i] == '(' by {
        assert(t[i] == text[i]);
    }
    assert(t[1000] == rest[0]);
    lemma_deep(t, 1);
    assert(t[0] == '(');
}

proof fn lemma_deep(t: Seq<char>, at: int)
    requires
        1 <= at <= 999,
        t.len() > 1000,
        forall|i: int| 0 <= i < 1000 ==> #[trigger] t[i] == '(',
        !is_white(t[1000]),
        !closes(t[1000]),
    ensures
        group_end(t, at, at as nat) == Scan::TooDeep(1000),
    decreases 999 - at,
{
    assert(t[at] == '(');
    if at < 999 {
        lemma_deep(t, at + 1);
    } else {
        assert(skip_white(t, 1000) == 1000);
    }
}

// Commands.

proof fn lemma_command(name: Seq<char>, rest: Seq<char>)
    requires
        name.len() > 0,
        forall|i: int|
            0 <= i < name.len() ==> 'a' <= #[trigger] name[i] <= 'z' || 'A' <= name[i] <= 'Z',
        rest.len() > 0 ==> rest[0] == ' ',
    ensures
        command_name(name + rest) == name,
        argument_start(name + rest) == skip_white(name + rest, name.len() as int),
{
    let line = name + rest;
    let n = name.len() as int;
    assert forall|i: int| 0 <= i < n implies 'a' <= #[trigger] line[i] <= 'z' || 'A' <= line[i]
        <= 'Z' by {
        assert(line[i] == name[i]);
    }
    assert(line[0] == name[0]);
    assert(skip_white(line, 0) == 0);
    lemma_command_word(line, 0, n);
    assert(line.subrange(0, n) =~= name);
}

proof fn lemma_command_word(line: Seq<char>, at: int, n: int)
    requires
        0 <= at <= n <= line.len(),
        forall|i: int| at <= i < n ==> 'a' <= #[trigger] line[i] <= 'z' || 'A' <= line[i] <= 'Z',
        n < line.len() ==> line[n] == ' ',
    ensures
        word_end(line, at) == n,
    decreases n - at,
{
    if at < n {
        lemma_command_word(line, at + 1, n);
    }
}

/// The commands that take one expression.
pub open spec fn takes_expression(name: Seq<char>) -> bool {
    name == "eval"@ || name == "throw"@ || name == "call"@ || name == "if"@ || name == "elseif"@
        || name == "while"@ || name == "return"@
}

/// A fault is the same whatever stands in front of the expression.
proof fn lemma_fault_moves(head: Seq<char>, tail: Seq<char>)
    requires
        expression_end(tail, 0) !is TooDeep,
    ensures
        expression_fault(head + tail, head.len() as int) == expression_fault(tail, 0),
{
    let line = head + tail;
    let n = head.len() as int;
    lemma_expression_moves(head, tail, 0);
    match expression_end(tail, 0) {
        Scan::End(end) => {
            lemma_skip_white_moves(head, tail, end);
            let rest = skip_white(tail, end);
            assert(line.skip(n + rest) =~= tail.skip(rest));
            if rest < tail.len() {
                assert(line[n + rest] == tail[rest]);
            }
        },
        _ => {
            assert(line.skip(n) =~= tail.skip(0));
        },
    }
}

/// The commands that take expressions one after the other.
pub open spec fn takes_expressions(name: Seq<char>) -> bool {
    name == "echo"@ || name == "echon"@ || name == "echomsg"@ || name == "echoerr"@ || name
        == "execute"@
}

proof fn lemma_command_letters(name: Seq<char>)
    requires
        takes_expression(name) || takes_expressions(name) || name == "let"@ || name == "const"@
            || name == "for"@ || name == "unlet"@,
    ensures
        name.len() > 0,
        forall|i: int|
            0 <= i < name.len() ==> 'a' <= #[trigger] name[i] <= 'z' || 'A' <= name[i] <= 'Z',
        takes_expression(name) && name != "return"@ ==> command_kind(name)
            == CommandKind::Expression,
        name == "return"@ ==> command_kind(name) == CommandKind::OptionalExpression,
        takes_expressions(name) ==> command_kind(name) == CommandKind::Expressions,
        name == "let"@ || name == "const"@ ==> command_kind(name) == CommandKind::Assignment,
        name == "for"@ ==> command_kind(name) == CommandKind::Loop,
        name == "unlet"@ ==> command_kind(name) == CommandKind::Names,
{
    reveal_strlit("eval");
    reveal_strlit("throw");
    reveal_strlit("call");
    reveal_strlit("if");
    reveal_strlit("elseif");
    reveal_strlit("while");
    reveal_strlit("return");
    reveal_strlit("echo");
    reveal_strlit("echon");
    reveal_strlit("echomsg");
    reveal_strlit("echoerr");
    reveal_strlit("execute");
    reveal_strlit("let");
    reveal_strlit("const");
    reveal_strlit("for");
    reveal_strlit("unlet");
    assert("eval"@[0] != "call"@[0]);
    assert("eval"@[1] != "echo"@[1]);
    assert("throw"@[0] != "while"@[0]);
    assert("throw"@[0] != "echon"@[0]);
    assert("throw"@[0] != "const"@[0]);
    assert("throw"@[0] != "unlet"@[0]);
    assert("call"@[0] != "echo"@[0]);
    assert("elseif"@[0] != "return"@[0]);
    assert("while"@[0] != "echon"@[0]);
    assert("while"@[0] != "const"@[0]);
    assert("while"@[0] != "unlet"@[0]);
    assert("echon"@[0] != "const"@[0]);
    assert("echon"@[0] != "unlet"@[0]);
    assert("echomsg"@[4] != "echoerr"@[4]);
    assert("echomsg"@[1] != "execute"@[1]);
    assert("echoerr"@[1] != "execute"@[1]);
    assert("let"@[0] != "for"@[0]);
    assert("const"@[0] != "unlet"@[0]);
    assert("echo"@.len() != "let"@.len());
    assert("echo"@.len() != "const"@.len());
    assert("echo"@.len() != "throw"@.len());
    assert("echo"@.len() != "if"@.len());
    assert("echo"@.len() != "elseif"@.len());
    assert("echo"@.len() != "while"@.len());
    assert("echo"@.len() != "return"@.len());
    assert("echon"@.len() != "let"@.len());
    assert("echon"@.len() != "eval"@.len());
    assert("echon"@.len() != "call"@.len());
    assert("echon"@.len() != "if"@.len());
    assert("echon"@.len() != "elseif"@.len());
    assert("echon"@.len() != "return"@.len());
    assert("echomsg"@.len() != "let"@.len());
    assert("echomsg"@.len() != "const"@.len());
    assert("echomsg"@.len() != "eval"@.len());
    assert("echomsg"@.len() != "throw"@.len());
    assert("echomsg"@.len() != "call"@.len());
    assert("echomsg"@.len() != "if"@.len());
    assert("echomsg"@.len() != "elseif"@.len());
    assert("echomsg"@.len() != "while"@.len());
    assert("echomsg"@.len() != "return"@.len());
    assert("echoerr"@.len() != "let"@.len());
    assert("echoerr"@.len() != "const"@.len());
    assert("echoerr"@.len() != "eval"@.len());
    assert("echoerr"@.len() != "throw"@.len());
    assert("echoerr"@.len() != "call"@.len());
    assert("echoerr"@.len() != "if"@.len());
    assert("echoerr"@.len() != "elseif"@.len());
    assert("echoerr"@.len() != "while"@.len());
    assert("echoerr"@.len() != "return"@.len());
    assert("execute"@.len() != "let"@.len());
    assert("execute"@.len() != "const"@.len());
    assert("execute"@.len() != "eval"@.len());
    assert("execute"@.len() != "throw"@.len());
    assert("execute"@.len() != "call"@.len());
    assert("execute"@.len() != "if"@.len());
    assert("execute"@.len() != "elseif"@.len());
    assert("execute"@.len() != "while"@.len());
    assert("execute"@.len() != "return"@.len());
}

/// What a command that takes one expression finds in its argument.
proof fn lemma_argument(name: Seq<char>, tail: Seq<char>)
    requires
        takes_expression(name),
        tail.len() > 0,
        !is_white(tail[0]),
        tail[0] != '|',
        expression_end(tail, 0) !is TooDeep,
    ensures
        line_fault(name + " "@ + tail) == expression_fault(tail, 0),
{
    reveal_strlit(" ");
    let head = name + " "@;
    let line = head + tail;
    let n = name.len() as int;
    lemma_command_letters(name);
    assert(line =~= name + (" "@ + tail));
    lemma_command(name, " "@ + tail);
    assert(line[n] == ' ' && line[n + 1] == tail[0]);
    assert(skip_white(line, n + 1) == n + 1);
    assert(skip_white(line, n) == n + 1);
    lemma_fault_moves(head, tail);
}

/// A command that takes expressions accepts one.
pub proof fn law_commands_accept_expressions(name: Seq<char>, text: Seq<char>)
    requires
        takes_expression(name) || takes_expressions(name),
        is_expression(text),
    ensures
        line_fault(name + " "@ + text) == Fault::Nothing,
{
    reveal_strlit(" ");
    let rest = " "@ + text;
    let line = name + " "@ + text;
    let n = name.len() as int;
    assert(line =~= name + rest);
    assert(line =~= (name + " "@) + text);
    lemma_command_letters(name);
    lemma_command(name, rest);
    assert(!is_white(text[0])) by {
        assert(operand_end(text, 0) is End);
    }
    assert(text[0] != '|') by {
        assert(operand_end(text, 0) is End);
    }
    assert(line[n] == ' ' && line[n + 1] == text[0]);
    assert(skip_white(line, n + 1) == n + 1);
    assert(skip_white(line, n) == n + 1);
    lemma_expression_moves(name + " "@, text, 0);
    let end = line.len() as int;
    assert(expression_end(line, n + 1) == Scan::End(end));
    assert(skip_white(line, end) == end);
    assert(line.skip(end) =~= Seq::empty());
    assert(crate::excmd::remainder(line, end) =~= Seq::empty());
    assert(crate::excmd::expressions_fault(line, end) == Fault::Nothing);
}

/// In particular such a command accepts two operands with any operator between
/// them.
pub proof fn law_commands_accept_operators(
    name: Seq<char>,
    one: Seq<char>,
    op: Seq<char>,
    other: Seq<char>,
)
    requires
        takes_expression(name) || takes_expressions(name),
        is_expression(one),
        ends_anywhere(one),
        is_operator(op),
        is_expression(other),
    ensures
        line_fault(name + " "@ + joined(one, op, other)) == Fault::Nothing,
{
    lemma_joined(one, op, other);
    law_commands_accept_expressions(name, joined(one, op, other));
}

/// White space in front of a command and a `!` behind it change nothing of
/// that.
pub proof fn law_indents_and_bangs_are_accepted(
    indent: Seq<char>,
    name: Seq<char>,
    text: Seq<char>,
)
    requires
        forall|i: int| 0 <= i < indent.len() ==> #[trigger] indent[i] == ' ' || indent[i] == '\t',
        takes_expression(name) || takes_expressions(name),
        is_expression(text),
    ensures
        line_fault(indent + name + seq!['!', ' '] + text) == Fault::Nothing,
        line_fault(indent + name + seq![' '] + text) == Fault::Nothing,
{
    lemma_indented(indent, name, seq!['!', ' '], text);
    lemma_indented(indent, name, seq![' '], text);
}

#[verifier::rlimit(50)]
proof fn lemma_indented(
    indent: Seq<char>,
    name: Seq<char>,
    gap: Seq<char>,
    text: Seq<char>,
)
    requires
        forall|i: int| 0 <= i < indent.len() ==> #[trigger] indent[i] == ' ' || indent[i] == '\t',
        takes_expression(name) || takes_expressions(name),
        is_expression(text),
        gap == seq!['!', ' '] || gap == seq![' '],
    ensures
        line_fault(indent + name + gap + text) == Fault::Nothing,
{
    let head = indent + name + gap;
    let line = head + text;
    let start = indent.len() as int;
    let n = start + name.len();
    let at = head.len() as int;
    lemma_command_letters(name);
    assert forall|i: int| 0 <= i < start implies is_white(#[trigger] line[i]) by {
        assert(line[i] == indent[i]);
    }
    assert(line[start] == name[0]);
    lemma_indent(line, 0, start);
    assert forall|i: int| start <= i < n implies 'a' <= #[trigger] line[i] <= 'z' || 'A'
        <= line[i] <= 'Z' by {
        assert(line[i] == name[i - start]);
    }
    assert(line[n] == gap[0]);
    lemma_command_end(line, start, n);
    assert(line.subrange(start, n) =~= name);
    assert(command_name(line) == name);
    assert(!is_white(text[0]) && text[0] != '|') by {
        assert(operand_end(text, 0) is End);
    }
    assert(line[at] == text[0]);
    assert(line[at - 1] == ' ');
    assert(skip_white(line, at) == at);
    assert(skip_white(line, at - 1) == at);
    assert(argument_start(line) == at);
    lemma_expression_moves(head, text, 0);
    let end = line.len() as int;
    assert(expression_end(line, at) == Scan::End(end));
    assert(skip_white(line, end) == end);
    assert(line.skip(end) =~= Seq::empty());
    assert(crate::excmd::remainder(line, end) =~= Seq::empty());
    assert(crate::excmd::expressions_fault(line, end) == Fault::Nothing);
}

proof fn lemma_indent(line: Seq<char>, at: int, start: int)
    requires
        0 <= at <= start < line.len(),
        forall|i: int| at <= i < start ==> is_white(#[trigger] line[i]),
        !is_white(line[start]),
    ensures
        skip_white(line, at) == start,
    decreases start - at,
{
    if at < start {
        lemma_indent(line, at + 1, start);
    }
}

proof fn lemma_command_end(line: Seq<char>, at: int, n: int)
    requires
        0 <= at <= n < line.len(),
        forall|i: int| at <= i < n ==> 'a' <= #[trigger] line[i] <= 'z' || 'A' <= line[i] <= 'Z',
        line[n] == ' ' || line[n] == '!',
    ensures
        word_end(line, at) == n,
    decreases n - at,
{
    if at < n {
        lemma_command_end(line, at + 1, n);
    }
}

/// A command that takes one expression refuses a line without one, except that
/// `return` and the commands that take any number of them need none.
pub proof fn law_missing_expressions_are_refused(name: Seq<char>)
    requires
        takes_expression(name) || takes_expressions(name),
    ensures
        takes_expression(name) && name != "return"@ ==> line_fault(name) == Fault::Missing,
        name == "return"@ || takes_expressions(name) ==> line_fault(name) == Fault::Nothing,
{
    lemma_command_letters(name);
    lemma_command(name, Seq::empty());
    assert(name + Seq::<char>::empty() =~= name);
    assert(skip_white(name, name.len() as int) == name.len());
    reveal_strlit("return");
}

/// What closes a group, or parts the items of one, is no part of an expression
/// outside of a group: a command that takes one expression refuses it and
/// what follows it, up to a comment, and names both.
#[verifier::rlimit(50)]
pub proof fn law_trailing_text_is_refused(
    name: Seq<char>,
    text: Seq<char>,
    junk: Seq<char>,
)
    requires
        takes_expression(name),
        is_expression(text),
        ends_anywhere(text),
        junk.len() > 0,
        junk[0] == ',' || junk[0] == ')' || junk[0] == ']' || junk[0] == '}',
        !is_white(junk.last()),
        forall|i: int| 0 <= i < junk.len() ==> #[trigger] junk[i] != '"',
    ensures
        line_fault(name + " "@ + text + " "@ + junk) == Fault::Trailing(junk),
{
    reveal_strlit(" ");
    let tail = text + " "@ + junk;
    let m = text.len() as int;
    assert(name + " "@ + text + " "@ + junk =~= name + " "@ + tail);
    lemma_trailing(text, junk);
    assert(tail[0] == text[0]);
    lemma_argument(name, tail);
    assert(tail[m + 1] == junk[0]);
    assert(tail.skip(m + 1) =~= junk);
    lemma_no_comment(junk);
    assert(crate::excmd::without_trailing_white(junk) == junk);
}

proof fn lemma_trailing(text: Seq<char>, junk: Seq<char>)
    requires
        is_expression(text),
        ends_anywhere(text),
        junk.len() > 0,
        junk[0] == ',' || junk[0] == ')' || junk[0] == ']' || junk[0] == '}',
    ensures
        expression_end(text + " "@ + junk, 0) == Scan::End(text.len() as int),
        skip_white(text + " "@ + junk, text.len() as int) == text.len() + 1,
        !is_white(text[0]),
        text[0] != '|',
{
    reveal_strlit(" ");
    let tail = text + " "@ + junk;
    let s = text.push(' ');
    let m = text.len() as int;
    assert(!is_white(text[0]) && text[0] != '|') by {
        assert(operand_end(text, 0) is End);
    }
    lemma_in_front_of_a_space(text);
    assert(tail[m] == ' ' && tail[m + 1] == junk[0]);
    assert(skip_white(tail, m + 1) == m + 1);
    assert(skip_white(tail, m) == m + 1);
    assert(operator_end(tail, m + 1) is None);
    lemma_expression_extends(s, tail, m, 0);
}

proof fn lemma_no_comment(s: Seq<char>)
    requires
        forall|i: int| 0 <= i < s.len() ==> #[trigger] s[i] != '"',
    ensures
        crate::excmd::without_comment(s) == s,
    decreases s.len(),
{
    if s.len() > 0 {
        assert(s[0] != '"');
        let fewer = s.drop_first();
        assert forall|i: int| 0 <= i < fewer.len() implies #[trigger] fewer[i] != '"' by {
            assert(fewer[i] == s[i + 1]);
        }
        lemma_no_comment(fewer);
        assert(seq![s[0]] + fewer =~= s);
    } else {
        assert(s =~= Seq::empty());
    }
}

/// An operator without an operand behind it makes no expression: the command
/// names the whole of it.
#[verifier::rlimit(50)]
pub proof fn law_unfinished_expressions_are_refused(
    name: Seq<char>,
    text: Seq<char>,
    op: Seq<char>,
)
    requires
        takes_expression(name) || takes_expressions(name),
        is_expression(text),
        ends_anywhere(text),
        is_operator(op),
    ensures
        line_fault(name + " "@ + (text + " "@ + op + " "@)) == Fault::Invalid(
            text + " "@ + op + " "@,
        ),
{
    reveal_strlit(" ");
    let head = name + " "@;
    let tail = text + " "@ + op + " "@;
    let s = text.push(' ');
    let line = name + " "@ + tail;
    let n = name.len() as int;
    let m = text.len() as int;
    lemma_command_letters(name);
    assert(line =~= name + (" "@ + tail));
    lemma_command(name, " "@ + tail);
    assert(!is_white(text[0]) && text[0] != '|') by {
        assert(operand_end(text, 0) is End);
    }
    assert(tail[0] == text[0]);
    assert(line[n] == ' ' && line[n + 1] == text[0]);
    assert(skip_white(line, n + 1) == n + 1);
    assert(skip_white(line, n) == n + 1);
    lemma_in_front_of_a_space(text);
    assert forall|i: int| 0 <= i < op.len() implies #[trigger] op[i] == tail[m + 1 + i] by {}
    assert(tail[(m + 1 + op.len()) as int] == ' ');
    lemma_operator(tail, m + 1, op);
    assert(skip_white(tail, m + 1) == m + 1);
    assert(tail[m] == ' ');
    assert(skip_white(tail, m) == m + 1);
    lemma_expression_extends(s, tail, m, 0);
    let behind = m + 1 + op.len();
    assert(skip_white(tail, behind + 1) == behind + 1);
    assert(skip_white(tail, behind as int) == behind + 1);
    assert(expression_end(tail, behind + 1) == Scan::Broken);
    lemma_expression_moves(head, tail, 0);
    assert(line =~= head + tail);
    assert(line.skip(n + 1) =~= tail);
}

/// The signs of assignments.
pub open spec fn assigns(sign: Seq<char>) -> bool {
    sign == "="@ || sign == "+="@ || sign == "-="@ || sign == "*="@ || sign == "/="@ || sign
        == "%="@ || sign == ".="@ || sign == "..="@
}

proof fn lemma_sign(line: Seq<char>, place: int, sign: Seq<char>)
    requires
        0 <= place,
        place + sign.len() < line.len(),
        forall|i: int| 0 <= i < sign.len() ==> #[trigger] sign[i] == line[place + i],
        line[(place + sign.len()) as int] == ' ',
        assigns(sign) || sign == "in"@,
    ensures
        sign.len() > 0,
        !is_white(line[place]),
        !(line[place] == '-' && line[place + 1] == '>'),
        assigns(sign) ==> crate::excmd::assignment_end(line, place) == Some(
            (place + sign.len()) as int,
        ),
        sign == "in"@ ==> crate::excmd::in_end(line, place) == Some((place + 2) as int) && sign.len()
            == 2,
{
    if sign == "="@ {
        reveal_strlit("=");
        assert(sign[0] == line[place + 0]);
    }
    if sign == "+="@ {
        reveal_strlit("+=");
        assert(sign[0] == line[place + 0]);
        assert(sign[1] == line[place + 1]);
    }
    if sign == "-="@ {
        reveal_strlit("-=");
        assert(sign[0] == line[place + 0]);
        assert(sign[1] == line[place + 1]);
    }
    if sign == "*="@ {
        reveal_strlit("*=");
        assert(sign[0] == line[place + 0]);
        assert(sign[1] == line[place + 1]);
    }
    if sign == "/="@ {
        reveal_strlit("/=");
        assert(sign[0] == line[place + 0]);
        assert(sign[1] == line[place + 1]);
    }
    if sign == "%="@ {
        reveal_strlit("%=");
        assert(sign[0] == line[place + 0]);
        assert(sign[1] == line[place + 1]);
    }
    if sign == ".="@ {
        reveal_strlit(".=");
        assert(sign[0] == line[place + 0]);
        assert(sign[1] == line[place + 1]);
    }
    if sign == "..="@ {
        reveal_strlit("..=");
        assert(sign[0] == line[place + 0]);
        assert(sign[1] == line[place + 1]);
        assert(sign[2] == line[place + 2]);
    }
    if sign == "in"@ {
        reveal_strlit("in");
        assert(sign[0] == line[place + 0]);
        assert(sign[1] == line[place + 1]);
    }
}

/// A name, then a gap that starts and ends with a space, then an expression.
proof fn lemma_target(name: Seq<char>, gap: Seq<char>, text: Seq<char>)
    requires
        is_name(name),
        gap.len() >= 3,
        gap[0] == ' ',
        gap.last() == ' ',
        !is_white(gap[1]),
        !(gap[1] == '-' && gap[2] == '>'),
        is_expression(text),
    ensures
        ({
            let tail = name + gap + text;
            let n = name.len() as int;
            let k = (name.len() + gap.len()) as int;
            &&& operand_end(tail, 0) == Scan::End(n)
            &&& skip_white(tail, n) == n + 1
            &&& skip_white(tail, k - 1) == k
            &&& expression_end(tail, k) == Scan::End(tail.len() as int)
        }),
{
    let tail = name + gap + text;
    let n = name.len() as int;
    let k = (name.len() + gap.len()) as int;
    assert forall|i: int| 0 <= i < n implies in_name(#[trigger] tail[i]) by {
        assert(tail[i] == name[i]);
    }
    assert(tail[0] == name[0]);
    assert(tail[n] == gap[0] && tail[n + 1] == gap[1] && tail[n + 2] == gap[2]);
    lemma_name(tail, n, 0);
    assert(skip_white(tail, n + 1) == n + 1);
    assert(skip_white(tail, n) == n + 1);
    assert(suffix_end(tail, n) == Scan::End(n));
    assert(!is_white(text[0])) by {
        assert(operand_end(text, 0) is End);
    }
    assert(tail[k] == text[0]);
    assert(tail[k - 1] == gap[gap.len() - 1]);
    assert(skip_white(tail, k) == k);
    assert(skip_white(tail, k - 1) == k);
    lemma_expression_moves(name + gap, text, 0);
}

/// `let` and `const` accept a name, any sign of assignment and an expression,
/// and `for` accepts a name, `in` and an expression.
#[verifier::rlimit(50)]
pub proof fn law_assignments_are_accepted(
    command: Seq<char>,
    name: Seq<char>,
    sign: Seq<char>,
    text: Seq<char>,
)
    requires
        command == "let"@ || command == "const"@ || command == "for"@,
        is_name(name),
        command != "for"@ ==> assigns(sign),
        command == "for"@ ==> sign == "in"@,
        is_expression(text),
    ensures
        line_fault(command + " "@ + (name + (" "@ + sign + " "@) + text)) == Fault::Nothing,
{
    reveal_strlit(" ");
    reveal_strlit("for");
    reveal_strlit("let");
    reveal_strlit("const");
    let gap = " "@ + sign + " "@;
    let tail = name + gap + text;
    let head = command + " "@;
    let line = head + tail;
    let n = name.len() as int;
    let at = head.len() as int;
    let place = at + n + 1;
    let behind = (place + sign.len()) as int;
    lemma_command_letters(command);
    assert(line =~= command + (" "@ + tail));
    lemma_command(command, " "@ + tail);
    assert(tail[0] == name[0]);
    assert(line[at] == name[0] && line[at - 1] == ' ');
    assert(skip_white(line, at) == at);
    assert(skip_white(line, at - 1) == at);
    assert forall|i: int| 0 <= i < sign.len() implies #[trigger] sign[i] == line[place + i] by {
        assert(gap[1 + i] == sign[i]);
        assert(tail[n + 1 + i] == gap[1 + i]);
    }
    assert(gap[(1 + sign.len()) as int] == ' ');
    assert(tail[n + 1 + sign.len()] == ' ');
    assert(line[behind] == ' ');
    lemma_sign(line, place, sign);
    assert(gap[1] == line[place]) by {
        assert(sign[0] == line[place + 0]);
    }
    assert(gap[2] == line[place + 1]) by {
        if sign.len() > 1 {
            assert(sign[1] == line[place + 1]);
        }
    }
    lemma_target(name, gap, text);
    lemma_operand_moves(head, tail, 0);
    lemma_skip_white_moves(head, tail, n);
    lemma_skip_white_moves(head, tail, (n + gap.len() - 1) as int);
    lemma_expression_moves(head, tail, (n + gap.len()) as int);
    let end = line.len() as int;
    assert(expression_end(line, behind + 1) == Scan::End(end));
    assert(skip_white(line, behind) == behind + 1);
    assert(skip_white(line, end) == end);
    assert(line.skip(end) =~= Seq::empty());
    assert(crate::excmd::remainder(line, end) =~= Seq::empty());
    assert(expression_fault(line, behind + 1) == Fault::Nothing);
}

/// `let` with `=<<` takes lines that follow, whatever stands behind it.
pub proof fn law_lines_are_taken_as_they_are(name: Seq<char>, text: Seq<char>)
    requires
        is_name(name),
        is_expression(text),
    ensures
        line_fault("let"@ + " "@ + (name + " =<< "@ + text)) == Fault::Nothing,
{
    reveal_strlit(" ");
    reveal_strlit("let");
    reveal_strlit(" =<< ");
    let command = "let"@;
    let gap = " =<< "@;
    let tail = name + gap + text;
    let head = command + " "@;
    let line = head + tail;
    let n = name.len() as int;
    let at = head.len() as int;
    let place = at + n + 1;
    lemma_command_letters(command);
    assert(line =~= command + (" "@ + tail));
    lemma_command(command, " "@ + tail);
    assert(tail[0] == name[0]);
    assert(line[at] == name[0] && line[at - 1] == ' ');
    assert(skip_white(line, at) == at);
    assert(skip_white(line, at - 1) == at);
    lemma_target(name, gap, text);
    lemma_operand_moves(head, tail, 0);
    lemma_skip_white_moves(head, tail, n);
    assert(tail[n + 1] == '=' && tail[n + 2] == '<' && tail[n + 3] == '<');
    assert(line[place] == '=' && line[place + 1] == '<' && line[place + 2] == '<');
}

/// Behind an expression a comment, and a bar with another command behind it,
/// are no trailing text.
pub proof fn law_comments_and_bars_may_follow(
    name: Seq<char>,
    text: Seq<char>,
    rest: Seq<char>,
)
    requires
        takes_expression(name),
        is_expression(text),
        ends_anywhere(text),
    ensures
        line_fault(name + " "@ + (text + " "@ + (seq!['"'] + rest))) == Fault::Nothing,
        rest.len() > 0 && rest[0] != '|' ==> line_fault(
            name + " "@ + (text + " "@ + (seq!['|'] + rest)),
        ) == Fault::Nothing,
{
    lemma_may_follow(name, text, seq!['"'] + rest);
    if rest.len() > 0 && rest[0] != '|' {
        assert((seq!['|'] + rest)[1] == rest[0]);
        lemma_may_follow(name, text, seq!['|'] + rest);
    }
}

#[verifier::rlimit(50)]
proof fn lemma_may_follow(name: Seq<char>, text: Seq<char>, junk: Seq<char>)
    requires
        takes_expression(name),
        is_expression(text),
        ends_anywhere(text),
        junk.len() > 0,
        junk[0] == '"' || (junk[0] == '|' && junk.len() > 1 && junk[1] != '|'),
    ensures
        line_fault(name + " "@ + (text + " "@ + junk)) == Fault::Nothing,
{
    reveal_strlit(" ");
    let tail = text + " "@ + junk;
    let m = text.len() as int;
    assert(!is_white(text[0]) && text[0] != '|') by {
        assert(operand_end(text, 0) is End);
    }
    lemma_in_front_of_a_space(text);
    assert(tail[0] == text[0]);
    assert(tail[m] == ' ' && tail[m + 1] == junk[0]);
    assert(junk.len() > 1 ==> tail[m + 2] == junk[1]);
    assert(skip_white(tail, m + 1) == m + 1);
    assert(skip_white(tail, m) == m + 1);
    assert(operator_end(tail, m + 1) is None);
    lemma_expression_extends(text.push(' '), tail, m, 0);
    lemma_argument(name, tail);
    assert(tail.skip(m + 1) =~= junk);
    if junk[0] == '"' {
        assert(crate::excmd::without_comment(junk) =~= Seq::empty());
    }
}

/// Whether a text can follow another one without an operator between them: it
/// starts with a digit, a quote or a letter that starts no operator.
pub open spec fn starts_anew(text: Seq<char>) -> bool {
    text.len() > 0 && ('0' <= text[0] <= '9' || 'a' <= text[0] < 'i' || 'i' < text[0] <= 'z' || 'A'
        <= text[0] <= 'Z' || text[0] == '\'' || text[0] == '"')
}

/// A command that takes expressions one after the other accepts any number of
/// them with a space between each two.
pub proof fn law_commands_accept_several_expressions(name: Seq<char>, items: Seq<Seq<char>>)
    requires
        takes_expressions(name),
        items.len() > 0,
        are_expressions(items),
        forall|i: int| 0 < i < items.len() ==> starts_anew(#[trigger] items[i]),
    ensures
        line_fault(name + " "@ + spaced(items)) == Fault::Nothing,
{
    reveal_strlit(" ");
    let text = spaced(items);
    let line = name + " "@ + text;
    let n = name.len() as int;
    lemma_command_letters(name);
    assert(line =~= name + (" "@ + text));
    lemma_command(name, " "@ + text);
    assert(is_expression(items[0]));
    assert(!is_white(items[0][0])) by {
        assert(operand_end(items[0], 0) is End);
    }
    assert(text[0] == items[0][0]);
    assert(line[n] == ' ' && line[n + 1] == text[0]);
    assert(skip_white(line, n + 1) == n + 1);
    assert(skip_white(line, n) == n + 1);
    assert(line =~= (name + " "@) + text);
    lemma_several(name + " "@, items);
}

#[verifier::rlimit(50)]
proof fn lemma_several(head: Seq<char>, items: Seq<Seq<char>>)
    requires
        items.len() > 0,
        are_expressions(items),
        forall|i: int| 0 < i < items.len() ==> starts_anew(#[trigger] items[i]),
    ensures
        crate::excmd::expressions_fault(head + spaced(items), head.len() as int)
            == Fault::Nothing,
    decreases items.len(),
{
    reveal_strlit(" ");
    let s = head + spaced(items);
    let at = head.len() as int;
    let item = items[0];
    let end = at + item.len();
    assert(is_expression(item) && ends_anywhere(item));
    assert(item[0] != '|') by {
        assert(operand_end(item, 0) is End);
    }
    if items.len() == 1 {
        lemma_expression_moves(head, item, 0);
        assert(s[at] == item[0]);
        assert(skip_white(s, end) == end);
        assert(crate::excmd::expressions_fault(s, end) == Fault::Nothing);
    } else {
        let fewer = items.drop_first();
        assert forall|i: int| 0 <= i < fewer.len() implies is_expression(#[trigger] fewer[i])
            && ends_anywhere(fewer[i]) by {
            assert(fewer[i] == items[i + 1]);
        }
        assert forall|i: int| 0 < i < fewer.len() implies starts_anew(#[trigger] fewer[i]) by {
            assert(fewer[i] == items[i + 1]);
        }
        assert(fewer[0] == items[1]);
        assert(starts_anew(fewer[0]));
        let longer = head + item + " "@;
        assert(s =~= longer + spaced(fewer));
        assert(spaced(fewer)[0] == fewer[0][0]);
        assert(s[at] == item[0]);
        assert(s[end] == ' ' && s[end + 1] == fewer[0][0]);
        assert(skip_white(s, end + 1) == end + 1);
        assert(skip_white(s, end) == end + 1);
        assert(operator_end(s, end + 1) is None);
        let short = head + item.push(' ');
        lemma_in_front_of_a_space(item);
        lemma_expression_moves(head, item.push(' '), 0);
        assert forall|i: int| 0 <= i < end implies #[trigger] short[i] == s[i] by {
            if i >= at {
                assert(short[i] == item[i - at]);
            }
        }
        lemma_expression_extends(short, s, end, at);
        lemma_several(longer, fewer);
    }
}

/// Names with a space between each two.
pub open spec fn spaced(names: Seq<Seq<char>>) -> Seq<char>
    decreases names.len(),
{
    if names.len() == 0 {
        Seq::empty()
    } else if names.len() == 1 {
        names[0]
    } else {
        names[0] + " "@ + spaced(names.drop_first())
    }
}

/// `unlet` accepts any number of names, but not none.
pub proof fn law_unlet_accepts_names(names: Seq<Seq<char>>)
    requires
        names.len() > 0,
        forall|i: int| 0 <= i < names.len() ==> is_name(#[trigger] names[i]),
    ensures
        line_fault("unlet"@ + " "@ + spaced(names)) == Fault::Nothing,
        line_fault("unlet"@) == Fault::Missing,
{
    reveal_strlit(" ");
    let name = "unlet"@;
    let text = spaced(names);
    let line = name + " "@ + text;
    let n = name.len() as int;
    lemma_command_letters(name);
    assert(line =~= name + (" "@ + text));
    lemma_command(name, " "@ + text);
    lemma_command(name, Seq::empty());
    assert(name + Seq::<char>::empty() =~= name);
    assert(skip_white(name, n) == n);
    assert(is_name(names[0]));
    assert(text[0] == names[0][0]);
    assert(line[n] == ' ' && line[n + 1] == text[0]);
    assert(skip_white(line, n + 1) == n + 1);
    assert(skip_white(line, n) == n + 1);
    assert(line =~= (name + " "@) + text);
    lemma_names(name + " "@, names);
}

proof fn lemma_names(head: Seq<char>, names: Seq<Seq<char>>)
    requires
        forall|i: int| 0 <= i < names.len() ==> is_name(#[trigger] names[i]),
    ensures
        crate::excmd::names_fault(head + spaced(names), head.len() as int) == Fault::Nothing,
    decreases names.len(),
{
    reveal_strlit(" ");
    if names.len() > 0 {
        let s = head + spaced(names);
        let at = head.len() as int;
        let name = names[0];
        assert(is_name(name));
        let end = at + name.len();
        let fewer = names.drop_first();
        assert forall|i: int| 0 <= i < fewer.len() implies is_name(#[trigger] fewer[i]) by {
            assert(fewer[i] == names[i + 1]);
        }
        assert forall|i: int| at <= i < end implies in_name(#[trigger] s[i]) by {
            assert(s[i] == name[i - at]);
        }
        assert(s[at] == name[0]);
        if names.len() == 1 {
            lemma_name(s, end, at);
            assert(skip_white(s, end) == end);
            assert(suffix_end(s, end) == Scan::End(end));
            assert(crate::excmd::names_fault(s, end) == Fault::Nothing);
        } else {
            let longer = head + name + " "@;
            assert(s =~= longer + spaced(fewer));
            assert(s[end] == ' ');
            lemma_name(s, end, at);
            assert(is_name(fewer[0]));
            assert(spaced(fewer)[0] == fewer[0][0]);
            assert(s[end + 1] == fewer[0][0]);
            assert(skip_white(s, end + 1) == end + 1);
            assert(skip_white(s, end) == end + 1);
            assert(suffix_end(s, end) == Scan::End(end));
            lemma_names(longer, fewer);
        }
    }
}

// Arguments.

/// A word as it is written among the arguments of a user command: a backslash
/// in front of each backslash and each space or tab.
pub open spec fn spelled(word: Seq<char>) -> Seq<char>
    decreases word.len(),
{
    if word.len() == 0 {
        Seq::empty()
    } else {
        let c = word[0];
        (if c == '\\' || c == ' ' || c == '\t' {
            seq!['\\', c]
        } else {
            seq![c]
        }) + spelled(word.drop_first())
    }
}

/// Words with a space between each two.
pub open spec fn spelled_all(words: Seq<Seq<char>>) -> Seq<char>
    decreases words.len(),
{
    if words.len() == 0 {
        Seq::empty()
    } else if words.len() == 1 {
        spelled(words[0])
    } else {
        spelled(words[0]) + " "@ + spelled_all(words.drop_first())
    }
}

proof fn lemma_spelled(begun: Seq<char>, word: Seq<char>, rest: Seq<char>)
    requires
        word.len() > 0,
    ensures
        forall|word_before: Option<Seq<char>>|
            (word_before == Some(begun) || (word_before is None && begun.len() == 0))
                ==> #[trigger] crate::excmd::arguments_from(spelled(word) + rest, word_before)
                == crate::excmd::arguments_from(rest, Some(begun + word)),
    decreases word.len(),
{
    let c = word[0];
    let more = word.drop_first();
    let s = spelled(word) + rest;
    let begun_more = begun.push(c);
    assert(begun_more + more =~= begun + word);
    if c == '\\' || c == ' ' || c == '\t' {
        assert(s =~= seq!['\\', c] + (spelled(more) + rest));
        assert(s.skip(2) =~= spelled(more) + rest);
        assert(s[0] == '\\' && s[1] == c);
    } else {
        assert(s =~= seq![c] + (spelled(more) + rest));
        assert(s.skip(1) =~= spelled(more) + rest);
        assert(s[0] == c);
    }
    if more.len() > 0 {
        lemma_spelled(begun_more, more, rest);
    } else {
        assert(spelled(more) + rest =~= rest);
    }
    assert forall|word_before: Option<Seq<char>>|
        (word_before == Some(begun) || (word_before is None && begun.len() == 0)) implies
        #[trigger] crate::excmd::arguments_from(s, word_before) == crate::excmd::arguments_from(
        rest,
        Some(begun + word),
    ) by {
        if word_before is None {
            assert(begun =~= Seq::empty());
        }
        assert(crate::excmd::arguments_from(s, word_before) == crate::excmd::arguments_from(
            spelled(more) + rest,
            Some(begun_more),
        ));
    }
}

/// The arguments of a user command are the words that were written: a space
/// parts two of them unless a backslash stands in front of it, and one in
/// front of a backslash keeps that.
pub proof fn law_arguments_are_the_words(words: Seq<Seq<char>>)
    requires
        forall|i: int| 0 <= i < words.len() ==> (#[trigger] words[i]).len() > 0,
    ensures
        crate::excmd::arguments_from(spelled_all(words), None) == words,
    decreases words.len(),
{
    reveal_strlit(" ");
    if words.len() == 0 {
        assert(crate::excmd::arguments_from(spelled_all(words), None) =~= words);
    } else {
        let word = words[0];
        let fewer = words.drop_first();
        assert forall|i: int| 0 <= i < fewer.len() implies (#[trigger] fewer[i]).len() > 0 by {
            assert(fewer[i] == words[i + 1]);
        }
        assert(Seq::<char>::empty() + word =~= word);
        if words.len() == 1 {
            lemma_spelled(Seq::empty(), word, Seq::empty());
            assert(spelled(word) + Seq::<char>::empty() =~= spelled_all(words));
            assert(seq![word] =~= words);
        } else {
            let rest = " "@ + spelled_all(fewer);
            lemma_spelled(Seq::empty(), word, rest);
            assert(spelled(word) + rest =~= spelled_all(words));
            assert(rest[0] == ' ');
            assert(rest.skip(1) =~= spelled_all(fewer));
            law_arguments_are_the_words(fewer);
            assert(seq![word] + fewer =~= words);
        }
    }
}

/// Each argument is handed on in double quotes, a comma and a space between
/// each two; only quotes and backslashes of its text get a backslash in front.
pub proof fn law_arguments_are_quoted(words: Seq<Seq<char>>, word: Seq<char>, c: char)
    ensures
        crate::excmd::quoted_list(Seq::empty()) == Seq::<char>::empty(),
        crate::excmd::quoted_list(seq![word]) == seq!['"'] + crate::excmd::escaped(word) + seq!['"'],
        words.len() > 0 ==> crate::excmd::quoted_list(words.push(word))
            == crate::excmd::quoted_list(words) + ", "@ + seq!['"'] + crate::excmd::escaped(word)
            + seq!['"'],
        c != '"' && c != '\\' ==> crate::excmd::escaped(word.push(c)) == crate::excmd::escaped(
            word,
        ) + seq![c],
        c == '"' || c == '\\' ==> crate::excmd::escaped(word.push(c)) == crate::excmd::escaped(
            word,
        ) + seq!['\\', c],
        crate::excmd::escaped(Seq::empty()) == Seq::<char>::empty(),
{
    reveal_strlit(", ");
    let none = Seq::<Seq<char>>::empty();
    assert(crate::excmd::quoted_list(none) =~= Seq::<char>::empty());
    let one = seq![word];
    assert(one.drop_last() =~= none);
    assert(one.last() == word);
    assert(crate::excmd::quoted_list(one) =~= seq!['"'] + crate::excmd::escaped(word) + seq!['"']);
    let more = words.push(word);
    assert(more.drop_last() =~= words);
    if words.len() > 0 {
        assert(crate::excmd::quoted_list(more) =~= crate::excmd::quoted_list(words) + ", "@
            + seq!['"'] + crate::excmd::escaped(word) + seq!['"']);
    }
    let longer = word.push(c);
    assert(longer.drop_last() =~= word);
    if c == '"' || c == '\\' {
        assert(crate::excmd::escaped(longer) =~= crate::excmd::escaped(word) + seq!['\\', c]);
    } else {
        assert(crate::excmd::escaped(longer) =~= crate::excmd::escaped(word) + seq![c]);
    }
}

} // verus!
