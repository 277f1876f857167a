//! Command lines: where an expression argument ends, what may follow it, and the
//! splitting of user command arguments.

use vstd::prelude::*;

use crate::text::{chars_of, same_chars, string_of};

verus! {

/// White space between the parts of a command line: a space or a tab. Carriage
/// returns, vertical tabs and form feeds are text.
pub open spec fn is_white(c: char) -> bool {
    c == ' ' || c == '\t'
}

fn white(c: char) -> (is: bool)
    ensures
        is == is_white(c),
{
    c == ' ' || c == '\t'
}

/// The first place from `at` on that is no white space.
pub open spec fn skip_white(s: Seq<char>, at: int) -> int
    decreases s.len() - at,
{
    if 0 <= at < s.len() && is_white(s[at]) {
        skip_white(s, at + 1)
    } else {
        at
    }
}

/// The first place from `at` on that is no white space.
#[must_use]
pub fn skipwhite(s: &[char], at: usize) -> (end: usize)
    requires
        at <= s@.len(),
    ensures
        end == skip_white(s@, at as int),
        at <= end <= s@.len(),
{
    let mut end: usize = at;
    while end < s.len() && white(s[end])
        invariant
            at <= end <= s@.len(),
            skip_white(s@, at as int) == skip_white(s@, end as int),
        decreases s@.len() - end,
    {
        end = end + 1;
    }
    end
}

/// Whether `c` is an ASCII letter.
pub open spec fn is_letter(c: char) -> bool {
    'a' <= c <= 'z' || 'A' <= c <= 'Z'
}

/// Whether `c` can stand in a number: a digit, or a letter of its base.
pub open spec fn is_number_char(c: char) -> bool {
    is_letter(c) || crate::text::is_digit(c)
}

/// Whether `c` can stand in a variable's or function's name.
pub open spec fn is_name_char(c: char) -> bool {
    is_number_char(c) || c == '_' || c == ':' || c == '#'
}

fn letter(c: char) -> (is: bool)
    ensures
        is == is_letter(c),
{
    ('a' <= c && c <= 'z') || ('A' <= c && c <= 'Z')
}

fn digit(c: char) -> (is: bool)
    ensures
        is == crate::text::is_digit(c),
{
    '0' <= c && c <= '9'
}

fn name_char(c: char) -> (is: bool)
    ensures
        is == is_name_char(c),
{
    letter(c) || digit(c) || c == '_' || c == ':' || c == '#'
}

/// The place behind the letters from `at` on.
pub open spec fn word_end(s: Seq<char>, at: int) -> int
    decreases s.len() - at,
{
    if 0 <= at < s.len() && is_letter(s[at]) {
        word_end(s, at + 1)
    } else {
        at
    }
}

fn end_of_word(s: &[char], at: usize) -> (end: usize)
    requires
        at <= s@.len(),
    ensures
        end == word_end(s@, at as int),
        at <= end <= s@.len(),
{
    let mut end: usize = at;
    while end < s.len() && letter(s[end])
        invariant
            at <= end <= s@.len(),
            word_end(s@, at as int) == word_end(s@, end as int),
        decreases s@.len() - end,
    {
        end = end + 1;
    }
    end
}

/// The place behind the number at `at`: digits and letters, and a point between
/// digits.
pub open spec fn number_end(s: Seq<char>, at: int) -> int
    decreases s.len() - at,
{
    if 0 <= at < s.len() && (is_number_char(s[at]) || (s[at] == '.' && at + 1 < s.len()
        && crate::text::is_digit(s[at + 1]))) {
        number_end(s, at + 1)
    } else {
        at
    }
}

fn end_of_number(s: &[char], at: usize) -> (end: usize)
    requires
        at <= s@.len(),
    ensures
        end == number_end(s@, at as int),
        at <= end <= s@.len(),
{
    let mut end: usize = at;
    while end < s.len() && (letter(s[end]) || digit(s[end]) || (s[end] == '.' && end + 1 < s.len()
        && digit(s[end + 1])))
        invariant
            at <= end <= s@.len(),
            number_end(s@, at as int) == number_end(s@, end as int),
        decreases s@.len() - end,
    {
        end = end + 1;
    }
    end
}

/// The place behind a literal string whose opening quote is before `at`: two
/// quotes in a row are one quote of the string.
pub open spec fn literal_end(s: Seq<char>, at: int) -> Option<int>
    decreases s.len() - at,
{
    if !(0 <= at < s.len()) {
        None
    } else if s[at] == '\'' {
        if at + 1 < s.len() && s[at + 1] == '\'' {
            literal_end(s, at + 2)
        } else {
            Some(at + 1)
        }
    } else {
        literal_end(s, at + 1)
    }
}

fn end_of_literal(s: &[char], at: usize) -> (end: Option<usize>)
    requires
        at <= s@.len(),
    ensures
        match literal_end(s@, at as int) {
            Some(place) => end is Some && end->0 == place && at < place <= s@.len(),
            None => end is None,
        },
{
    let mut next: usize = at;
    while next < s.len()
        invariant
            at <= next <= s@.len(),
            literal_end(s@, at as int) == literal_end(s@, next as int),
        decreases s@.len() - next,
    {
        if s[next] == '\'' {
            if next + 1 < s.len() && s[next + 1] == '\'' {
                next = next + 2;
            } else {
                return Some(next + 1);
            }
        } else {
            next = next + 1;
        }
    }
    None
}

/// The place behind a string whose opening quote is before `at`: a backslash
/// takes the character behind it into the string.
pub open spec fn string_end(s: Seq<char>, at: int) -> Option<int>
    decreases s.len() - at,
{
    if !(0 <= at < s.len()) {
        None
    } else if s[at] == '"' {
        Some(at + 1)
    } else if s[at] == '\\' {
        if at + 2 <= s.len() {
            string_end(s, at + 2)
        } else {
            None
        }
    } else {
        string_end(s, at + 1)
    }
}

fn end_of_string(s: &[char], at: usize) -> (end: Option<usize>)
    requires
        at <= s@.len(),
    ensures
        match string_end(s@, at as int) {
            Some(place) => end is Some && end->0 == place && at < place <= s@.len(),
            None => end is None,
        },
{
    let mut next: usize = at;
    while next < s.len()
        invariant
            at <= next <= s@.len(),
            string_end(s@, at as int) == string_end(s@, next as int),
        decreases s@.len() - next,
    {
        if s[next] == '"' {
            return Some(next + 1);
        }
        if s[next] == '\\' {
            if next + 1 >= s.len() {
                return None;
            }
            next = next + 2;
        } else {
            next = next + 1;
        }
    }
    None
}

/// Whether `c` opens a group.
pub open spec fn opens(c: char) -> bool {
    c == '(' || c == '[' || c == '{'
}

/// Whether `c` closes a group.
pub open spec fn closes(c: char) -> bool {
    c == ')' || c == ']' || c == '}'
}

/// How many groups may lie around an operand, less one.
pub const DEEPEST: usize = 1000;

/// Where a scan ended.
pub enum Scan {
    /// Behind what was looked for.
    End(int),
    /// Nowhere: something else is there, or it breaks off.
    Broken,
    /// At an operand inside too many groups.
    TooDeep(int),
}

/// Where a scan ended, as [`Scan`] has it.
#[derive(Clone, Copy, Debug, PartialEq, Eq, Structural)]
pub enum Scanned {
    /// Behind what was looked for.
    End(usize),
    /// Nowhere.
    Broken,
    /// At an operand inside too many groups.
    TooDeep(usize),
}

impl Scanned {
    /// This is where `scan` ended: in a text of `len` characters, and not before
    /// `least`.
    pub open spec fn tells(self, scan: Scan, least: int, len: nat) -> bool {
        match scan {
            Scan::End(place) => self is End && self->End_0 == place && least <= place <= len,
            Scan::Broken => self is Broken,
            Scan::TooDeep(place) => self is TooDeep && self->TooDeep_0 == place && 0 <= place
                <= len,
        }
    }
}

/// A scan that cannot go too deep.
pub open spec fn found(place: Option<int>) -> Scan {
    match place {
        Some(place) => Scan::End(place),
        None => Scan::Broken,
    }
}

fn told(place: Option<usize>) -> (scanned: Scanned)
    ensures
        scanned == match place {
            Some(place) => Scanned::End(place),
            None => Scanned::Broken,
        },
{
    match place {
        Some(place) => Scanned::End(place),
        None => Scanned::Broken,
    }
}

/// Something stands at `at` inside too many groups.
pub open spec fn crowded(s: Seq<char>, at: int, depth: nat) -> bool {
    depth >= DEEPEST && skip_white(s, at) < s.len() && !closes(s[skip_white(s, at)])
}

/// The place behind the bracket that closes `depth` groups, from `at` on.
/// Brackets in strings do not count, nor the character that names a register.
pub open spec fn group_end(s: Seq<char>, at: int, depth: nat) -> Scan
    decreases s.len() - at,
{
    if !(0 <= at < s.len()) || depth == 0 {
        Scan::Broken
    } else if s[at] == '\'' {
        match literal_end(s, at + 1) {
            Some(end) => if at < end <= s.len() {
                group_end(s, end, depth)
            } else {
                Scan::Broken
            },
            None => Scan::Broken,
        }
    } else if s[at] == '"' {
        match string_end(s, at + 1) {
            Some(end) => if at < end <= s.len() {
                group_end(s, end, depth)
            } else {
                Scan::Broken
            },
            None => Scan::Broken,
        }
    } else if s[at] == '@' {
        if at + 1 < s.len() {
            group_end(s, at + 2, depth)
        } else {
            Scan::Broken
        }
    } else if opens(s[at]) {
        if crowded(s, at + 1, depth + 1) {
            Scan::TooDeep(skip_white(s, at + 1))
        } else {
            group_end(s, at + 1, depth + 1)
        }
    } else if closes(s[at]) {
        if depth == 1 {
            Scan::End(at + 1)
        } else {
            group_end(s, at + 1, (depth - 1) as nat)
        }
    } else {
        group_end(s, at + 1, depth)
    }
}

fn closing(c: char) -> (is: bool)
    ensures
        is == closes(c),
{
    c == ')' || c == ']' || c == '}'
}

fn end_of_group(s: &[char], at: usize) -> (end: Scanned)
    requires
        1 <= at <= s@.len(),
    ensures
        end.tells(group_end(s@, at as int, 1), at + 1, s@.len()),
{
    let mut next: usize = at;
    let mut depth: usize = 1;
    while next < s.len()
        invariant
            1 <= at <= next <= s@.len(),
            1 <= depth <= next - at + 1,
            group_end(s@, at as int, 1) == group_end(s@, next as int, depth as nat),
        decreases s@.len() - next,
    {
        let c: char = s[next];
        if c == '\'' {
            match end_of_literal(s, next + 1) {
                Some(end) => {
                    next = end;
                },
                None => {
                    return Scanned::Broken;
                },
            }
        } else if c == '"' {
            match end_of_string(s, next + 1) {
                Some(end) => {
                    next = end;
                },
                None => {
                    return Scanned::Broken;
                },
            }
        } else if c == '@' {
            if next + 1 >= s.len() {
                return Scanned::Broken;
            }
            next = next + 2;
        } else if c == '(' || c == '[' || c == '{' {
            depth = depth + 1;
            next = next + 1;
            if depth >= DEEPEST {
                let inner: usize = skipwhite(s, next);
                if inner < s.len() && !closing(s[inner]) {
                    return Scanned::TooDeep(inner);
                }
            }
        } else if closing(c) {
            if depth == 1 {
                return Scanned::End(next + 1);
            }
            depth = depth - 1;
            next = next + 1;
        } else {
            next = next + 1;
        }
    }
    Scanned::Broken
}

/// The place behind the name at `at`: name characters, and braces around what
/// makes up a part of it.
pub open spec fn name_end(s: Seq<char>, at: int) -> Scan
    decreases s.len() - at,
{
    if 0 <= at < s.len() && is_name_char(s[at]) {
        name_end(s, at + 1)
    } else if 0 <= at < s.len() && s[at] == '{' {
        match group_end(s, at + 1, 1) {
            Scan::End(end) => if at < end <= s.len() {
                name_end(s, end)
            } else {
                Scan::Broken
            },
            other => other,
        }
    } else {
        Scan::End(at)
    }
}

fn end_of_name(s: &[char], at: usize) -> (end: Scanned)
    requires
        at <= s@.len(),
    ensures
        end.tells(name_end(s@, at as int), at as int, s@.len()),
        at < s@.len() && (is_name_char(s@[at as int]) || s@[at as int] == '{') ==> end.tells(
            name_end(s@, at as int),
            at + 1,
            s@.len(),
        ),
{
    let mut next: usize = at;
    while next < s.len() && (name_char(s[next]) || s[next] == '{')
        invariant
            at <= next <= s@.len(),
            name_end(s@, at as int) == name_end(s@, next as int),
        decreases s@.len() - next,
    {
        if s[next] == '{' {
            match end_of_group(s, next + 1) {
                Scanned::End(end) => {
                    next = end;
                },
                other => {
                    return other;
                },
            }
        } else {
            next = next + 1;
        }
    }
    Scanned::End(next)
}

/// The place behind the name or function behind an arrow at `at`: an argument
/// list has to follow.
pub open spec fn callee_end(s: Seq<char>, at: int) -> Scan {
    match name_end(s, at) {
        Scan::End(end) => if at < end < s.len() && s[end] == '(' {
            Scan::End(end)
        } else {
            Scan::Broken
        },
        other => other,
    }
}

/// The place behind the argument lists, subscripts and method calls that follow.
pub open spec fn suffix_end(s: Seq<char>, at: int) -> Scan
    decreases s.len() - at,
{
    let arrow = skip_white(s, at);
    if 0 <= at < s.len() && (s[at] == '(' || s[at] == '[') {
        match group_end(s, at + 1, 1) {
            Scan::End(end) => if at < end <= s.len() {
                suffix_end(s, end)
            } else {
                Scan::Broken
            },
            other => other,
        }
    } else if 0 <= arrow && arrow + 1 < s.len() && s[arrow] == '-' && s[arrow + 1] == '>' {
        match callee_end(s, arrow + 2) {
            Scan::End(end) => if at < end <= s.len() {
                suffix_end(s, end)
            } else {
                Scan::Broken
            },
            other => other,
        }
    } else {
        Scan::End(at)
    }
}

fn end_of_suffix(s: &[char], at: usize) -> (end: Scanned)
    requires
        at <= s@.len(),
    ensures
        end.tells(suffix_end(s@, at as int), at as int, s@.len()),
{
    let mut next: usize = at;
    loop
        invariant
            at <= next <= s@.len(),
            suffix_end(s@, at as int) == suffix_end(s@, next as int),
        decreases s@.len() - next,
    {
        let arrow: usize = skipwhite(s, next);
        if next < s.len() && (s[next] == '(' || s[next] == '[') {
            match end_of_group(s, next + 1) {
                Scanned::End(end) => {
                    next = end;
                },
                other => {
                    return other;
                },
            }
        } else if s.len() - arrow > 1 && s[arrow] == '-' && s[arrow + 1] == '>' {
            match end_of_name(s, arrow + 2) {
                Scanned::End(end) => {
                    if arrow + 2 < end && end < s.len() && s[end] == '(' {
                        next = end;
                    } else {
                        return Scanned::Broken;
                    }
                },
                other => {
                    return other;
                },
            }
        } else {
            return Scanned::End(next);
        }
    }
}

/// The place behind the option whose `&` is at `at`: a scope, and letters or a
/// terminal code.
pub open spec fn option_end(s: Seq<char>, at: int) -> Option<int> {
    let name = if at + 2 < s.len() && (s[at + 1] == 'g' || s[at + 1] == 'l') && s[at + 2] == ':' {
        at + 3
    } else {
        at + 1
    };
    if name + 3 < s.len() && s[name] == 't' && s[name + 1] == '_' {
        Some(name + 4)
    } else if name < s.len() && is_letter(s[name]) {
        Some(word_end(s, name))
    } else {
        None
    }
}

fn end_of_option(s: &[char], at: usize) -> (end: Option<usize>)
    requires
        at < s@.len(),
    ensures
        match option_end(s@, at as int) {
            Some(place) => end is Some && end->0 == place && at < place <= s@.len(),
            None => end is None,
        },
{
    let left: usize = s.len() - at;
    let name: usize = if left > 2 && (s[at + 1] == 'g' || s[at + 1] == 'l') && s[at + 2] == ':' {
        at + 3
    } else {
        at + 1
    };
    let left: usize = s.len() - name;
    if left > 3 && s[name] == 't' && s[name + 1] == '_' {
        Some(name + 4)
    } else if left > 0 && letter(s[name]) {
        Some(end_of_word(s, name))
    } else {
        None
    }
}

/// The place behind the letters, digits and underscores from `at` on.
pub open spec fn identifier_end(s: Seq<char>, at: int) -> int
    decreases s.len() - at,
{
    if 0 <= at < s.len() && (is_number_char(s[at]) || s[at] == '_') {
        identifier_end(s, at + 1)
    } else {
        at
    }
}

fn end_of_identifier(s: &[char], at: usize) -> (end: usize)
    requires
        at <= s@.len(),
    ensures
        end == identifier_end(s@, at as int),
        at <= end <= s@.len(),
{
    let mut end: usize = at;
    while end < s.len() && (letter(s[end]) || digit(s[end]) || s[end] == '_')
        invariant
            at <= end <= s@.len(),
            identifier_end(s@, at as int) == identifier_end(s@, end as int),
        decreases s@.len() - end,
    {
        end = end + 1;
    }
    end
}

/// The place behind the environment variable whose `$` is at `at`, or behind the
/// string that follows the `$`.
pub open spec fn variable_end(s: Seq<char>, at: int) -> Option<int> {
    if at + 1 < s.len() && s[at + 1] == '\'' {
        literal_end(s, at + 2)
    } else if at + 1 < s.len() && s[at + 1] == '"' {
        string_end(s, at + 2)
    } else if identifier_end(s, at + 1) > at + 1 {
        Some(identifier_end(s, at + 1))
    } else {
        None
    }
}

fn end_of_variable(s: &[char], at: usize) -> (end: Option<usize>)
    requires
        at < s@.len(),
    ensures
        match variable_end(s@, at as int) {
            Some(place) => end is Some && end->0 == place && at < place <= s@.len(),
            None => end is None,
        },
{
    if s.len() - at > 1 && s[at + 1] == '\'' {
        return end_of_literal(s, at + 2);
    }
    if s.len() - at > 1 && s[at + 1] == '"' {
        return end_of_string(s, at + 2);
    }
    let end: usize = end_of_identifier(s, at + 1);
    if end > at + 1 {
        Some(end)
    } else {
        None
    }
}

/// The place behind the operand at `at`: a number, a string, a group, a name, an
/// option, a register or an environment variable.
pub open spec fn primary_end(s: Seq<char>, at: int) -> Scan {
    if !(0 <= at < s.len()) {
        Scan::Broken
    } else if crate::text::is_digit(s[at]) {
        Scan::End(number_end(s, at))
    } else if s[at] == '\'' {
        found(literal_end(s, at + 1))
    } else if s[at] == '"' {
        found(string_end(s, at + 1))
    } else if s[at] == '(' || s[at] == '[' {
        group_end(s, at + 1, 1)
    } else if s[at] == '{' || is_letter(s[at]) || s[at] == '_' {
        name_end(s, at)
    } else if s[at] == '#' && at + 1 < s.len() && s[at + 1] == '{' {
        group_end(s, at + 2, 1)
    } else if s[at] == '&' {
        found(option_end(s, at))
    } else if s[at] == '@' {
        Scan::End(if at + 1 < s.len() {
            at + 2
        } else {
            at + 1
        })
    } else if s[at] == '$' {
        found(variable_end(s, at))
    } else {
        Scan::Broken
    }
}

fn end_of_primary(s: &[char], at: usize) -> (end: Scanned)
    requires
        at <= s@.len(),
    ensures
        end.tells(primary_end(s@, at as int), at + 1, s@.len()),
{
    if at >= s.len() {
        return Scanned::Broken;
    }
    let c: char = s[at];
    if digit(c) {
        let end: usize = end_of_number(s, at + 1);
        proof {
            reveal_with_fuel(number_end, 2);
            assert(number_end(s@, at as int) == number_end(s@, at + 1));
        }
        Scanned::End(end)
    } else if c == '\'' {
        told(end_of_literal(s, at + 1))
    } else if c == '"' {
        told(end_of_string(s, at + 1))
    } else if c == '(' || c == '[' {
        end_of_group(s, at + 1)
    } else if c == '{' || letter(c) || c == '_' {
        end_of_name(s, at)
    } else if c == '#' && s.len() - at > 1 && s[at + 1] == '{' {
        end_of_group(s, at + 2)
    } else if c == '&' {
        told(end_of_option(s, at))
    } else if c == '@' {
        if s.len() - at > 1 {
            Scanned::End(at + 2)
        } else {
            Scanned::End(at + 1)
        }
    } else if c == '$' {
        told(end_of_variable(s, at))
    } else {
        Scanned::Broken
    }
}

/// The place behind one operand: signs, a primary and what follows it directly.
pub open spec fn operand_end(s: Seq<char>, at: int) -> Scan
    decreases s.len() - at,
{
    if 0 <= at < s.len() && (s[at] == '!' || s[at] == '-' || s[at] == '+') {
        operand_end(s, at + 1)
    } else {
        match primary_end(s, at) {
            Scan::End(end) => suffix_end(s, end),
            other => other,
        }
    }
}

fn end_of_operand(s: &[char], at: usize) -> (end: Scanned)
    requires
        at <= s@.len(),
    ensures
        end.tells(operand_end(s@, at as int), at + 1, s@.len()),
{
    let mut next: usize = at;
    while next < s.len() && (s[next] == '!' || s[next] == '-' || s[next] == '+')
        invariant
            at <= next <= s@.len(),
            operand_end(s@, at as int) == operand_end(s@, next as int),
        decreases s@.len() - next,
    {
        next = next + 1;
    }
    match end_of_primary(s, next) {
        Scanned::End(end) => end_of_suffix(s, end),
        other => other,
    }
}

/// Whether two characters compare.
pub open spec fn is_comparison(one: char, other: char) -> bool {
    ||| one == '=' && (other == '=' || other == '~')
    ||| one == '!' && (other == '=' || other == '~')
    ||| (one == '<' || one == '>') && other == '='
}

/// Whether two characters are an operator that does not compare.
pub open spec fn is_pair(one: char, other: char) -> bool {
    one == other && (one == '&' || one == '|' || one == '?' || one == '.')
}

/// Whether one character is an operator.
pub open spec fn is_single(c: char) -> bool {
    c == '+' || c == '-' || c == '*' || c == '/' || c == '%' || c == '.' || c == '?' || c == ':'
}

/// The place behind the sign that says whether a comparison heeds case.
pub open spec fn case_end(s: Seq<char>, at: int) -> int {
    if 0 <= at < s.len() && (s[at] == '#' || s[at] == '?') {
        at + 1
    } else {
        at
    }
}

fn end_of_case(s: &[char], at: usize) -> (end: usize)
    requires
        at <= s@.len(),
    ensures
        end == case_end(s@, at as int),
        at <= end <= s@.len(),
{
    if at < s.len() && (s[at] == '#' || s[at] == '?') {
        at + 1
    } else {
        at
    }
}

/// The place behind the word `is` or `isnot` at `at`.
pub open spec fn identity_end(s: Seq<char>, at: int) -> Option<int> {
    if 0 <= at && at + 1 < s.len() && s[at] == 'i' && s[at + 1] == 's' {
        let end = if at + 4 < s.len() && s[at + 2] == 'n' && s[at + 3] == 'o' && s[at + 4] == 't' {
            at + 5
        } else {
            at + 2
        };
        if identifier_end(s, end) > end {
            None
        } else {
            Some(end)
        }
    } else {
        None
    }
}

fn end_of_identity(s: &[char], at: usize) -> (end: Option<usize>)
    requires
        at <= s@.len(),
    ensures
        match identity_end(s@, at as int) {
            Some(place) => end is Some && end->0 == place && at < place <= s@.len(),
            None => end is None,
        },
{
    let left: usize = s.len() - at;
    if left > 1 && s[at] == 'i' && s[at + 1] == 's' {
        let end: usize = if left > 4 && s[at + 2] == 'n' && s[at + 3] == 'o' && s[at + 4] == 't' {
            at + 5
        } else {
            at + 2
        };
        if end_of_identifier(s, end) > end {
            None
        } else {
            Some(end)
        }
    } else {
        None
    }
}

/// The place behind the operator at `at`, if there is one.
pub open spec fn operator_end(s: Seq<char>, at: int) -> Option<int> {
    if 0 <= at && at + 1 < s.len() && is_comparison(s[at], s[at + 1]) {
        Some(case_end(s, at + 2))
    } else if 0 <= at && at + 1 < s.len() && is_pair(s[at], s[at + 1]) {
        Some(at + 2)
    } else if 0 <= at < s.len() && (s[at] == '<' || s[at] == '>') {
        Some(case_end(s, at + 1))
    } else if 0 <= at < s.len() && is_single(s[at]) {
        Some(at + 1)
    } else {
        match identity_end(s, at) {
            Some(end) => Some(case_end(s, end)),
            None => None,
        }
    }
}

fn end_of_operator(s: &[char], at: usize) -> (end: Option<usize>)
    requires
        at <= s@.len(),
    ensures
        match operator_end(s@, at as int) {
            Some(place) => end is Some && end->0 == place && at < place <= s@.len(),
            None => end is None,
        },
{
    if s.len() - at > 1 {
        let one: char = s[at];
        let other: char = s[at + 1];
        if (one == '=' && (other == '=' || other == '~')) || (one == '!' && (other == '=' || other
            == '~')) || ((one == '<' || one == '>') && other == '=') {
            return Some(end_of_case(s, at + 2));
        }
        if one == other && (one == '&' || one == '|' || one == '?' || one == '.') {
            return Some(at + 2);
        }
    }
    if at < s.len() {
        let c: char = s[at];
        if c == '<' || c == '>' {
            return Some(end_of_case(s, at + 1));
        }
        if c == '+' || c == '-' || c == '*' || c == '/' || c == '%' || c == '.' || c == '?' || c
            == ':' {
            return Some(at + 1);
        }
    }
    match end_of_identity(s, at) {
        Some(end) => Some(end_of_case(s, end)),
        None => None,
    }
}

/// The place behind the expression at `at`: operands with operators between
/// them. Text that starts with no operand, or where one is missing behind an
/// operator, is no expression.
pub open spec fn expression_end(s: Seq<char>, at: int) -> Scan
    decreases s.len() - at,
{
    if !(0 <= at < s.len()) {
        Scan::Broken
    } else {
        match operand_end(s, at) {
            Scan::End(end) => match operator_end(s, skip_white(s, end)) {
                None => Scan::End(end),
                Some(behind) => if at < skip_white(s, behind) <= s.len() {
                    expression_end(s, skip_white(s, behind))
                } else {
                    Scan::Broken
                },
            },
            other => other,
        }
    }
}

/// The place behind the expression at `at`. See [`expression_end`].
#[must_use]
pub fn end_of_expression(s: &[char], at: usize) -> (end: Scanned)
    requires
        at <= s@.len(),
    ensures
        end.tells(expression_end(s@, at as int), at + 1, s@.len()),
{
    let mut next: usize = at;
    while next < s.len()
        invariant
            at <= next <= s@.len(),
            expression_end(s@, at as int) == expression_end(s@, next as int),
        decreases s@.len() - next,
    {
        let end: usize = match end_of_operand(s, next) {
            Scanned::End(end) => end,
            other => {
                return other;
            },
        };
        match end_of_operator(s, skipwhite(s, end)) {
            None => {
                return Scanned::End(end);
            },
            Some(behind) => {
                next = skipwhite(s, behind);
            },
        }
    }
    Scanned::Broken
}

/// A text up to its first comment quote.
pub open spec fn without_comment(s: Seq<char>) -> Seq<char>
    decreases s.len(),
{
    if s.len() == 0 || s[0] == '"' {
        Seq::empty()
    } else {
        seq![s[0]] + without_comment(s.drop_first())
    }
}

/// A text without the white space at its end.
pub open spec fn without_trailing_white(s: Seq<char>) -> Seq<char>
    decreases s.len(),
{
    if s.len() > 0 && is_white(s.last()) {
        without_trailing_white(s.drop_last())
    } else {
        s
    }
}

/// What is left of a line behind `at` that is neither white space nor a comment.
pub open spec fn remainder(s: Seq<char>, at: int) -> Seq<char> {
    without_trailing_white(without_comment(s.skip(skip_white(s, at))))
}

fn find_remainder(s: &[char], at: usize) -> (rest: Vec<char>)
    requires
        at <= s@.len(),
    ensures
        rest@ == remainder(s@, at as int),
{
    let start: usize = skipwhite(s, at);
    let mut rest: Vec<char> = Vec::new();
    let mut next: usize = start;
    while next < s.len() && s[next] != '"'
        invariant
            start <= next <= s@.len(),
            without_comment(s@.skip(start as int)) == rest@ + without_comment(
                s@.skip(next as int),
            ),
        decreases s@.len() - next,
    {
        proof {
            let tail = s@.skip(next as int);
            assert(tail.drop_first() =~= s@.skip(next + 1));
            assert(rest@ + (seq![tail[0]] + without_comment(tail.drop_first())) =~= rest@.push(
                tail[0],
            ) + without_comment(s@.skip(next + 1)));
        }
        rest.push(s[next]);
        next = next + 1;
    }
    proof {
        assert(without_comment(s@.skip(next as int)) =~= Seq::empty());
        assert(rest@ =~= without_comment(s@.skip(start as int)));
    }
    let ghost whole = rest@;
    while rest.len() > 0 && white(rest[rest.len() - 1])
        invariant
            without_trailing_white(rest@) == without_trailing_white(whole),
        decreases rest@.len(),
    {
        let _ = rest.pop();
    }
    rest
}

/// How a command reads its argument.
#[derive(Clone, Copy, Debug, PartialEq, Eq, Structural)]
pub enum CommandKind {
    /// A target, an assignment operator and one expression.
    Assignment,
    /// One expression.
    Expression,
    /// One expression or none.
    OptionalExpression,
    /// Expressions up to the end of the line.
    Expressions,
    /// Names up to the end of the line.
    Names,
    /// A target, the word `in` and one expression.
    Loop,
    /// Some other way.
    Other,
}

/// How a command reads its argument.
pub open spec fn command_kind(name: Seq<char>) -> CommandKind {
    if name == "let"@ || name == "const"@ {
        CommandKind::Assignment
    } else if name == "eval"@ || name == "throw"@ || name == "call"@ || name == "if"@ || name
        == "elseif"@ || name == "while"@ {
        CommandKind::Expression
    } else if name == "return"@ {
        CommandKind::OptionalExpression
    } else if name == "echo"@ || name == "echon"@ || name == "echomsg"@ || name == "echoerr"@
        || name == "execute"@ {
        CommandKind::Expressions
    } else if name == "unlet"@ {
        CommandKind::Names
    } else if name == "for"@ {
        CommandKind::Loop
    } else {
        CommandKind::Other
    }
}

fn is_word(name: &[char], word: &str) -> (is: bool)
    ensures
        is == (name@ == word@),
{
    same_chars(name, chars_of(word).as_slice())
}

fn kind_of(name: &[char]) -> (kind: CommandKind)
    ensures
        kind == command_kind(name@),
{
    if is_word(name, "let") || is_word(name, "const") {
        CommandKind::Assignment
    } else if is_word(name, "eval") || is_word(name, "throw") || is_word(name, "call") || is_word(
        name,
        "if",
    ) || is_word(name, "elseif") || is_word(name, "while") {
        CommandKind::Expression
    } else if is_word(name, "return") {
        CommandKind::OptionalExpression
    } else if is_word(name, "echo") || is_word(name, "echon") || is_word(name, "echomsg")
        || is_word(name, "echoerr") || is_word(name, "execute") {
        CommandKind::Expressions
    } else if is_word(name, "unlet") {
        CommandKind::Names
    } else if is_word(name, "for") {
        CommandKind::Loop
    } else {
        CommandKind::Other
    }
}

/// What is wrong with a command's argument.
#[verifier::ext_equal]
pub enum Fault {
    /// Nothing.
    Nothing,
    /// It is missing.
    Missing,
    /// The text is no expression.
    Invalid(Seq<char>),
    /// The text stands inside too many groups.
    TooDeep(Seq<char>),
    /// The text behind it is too much.
    Trailing(Seq<char>),
    /// A loop head has no `in`.
    NoIn,
}

/// Whether the command ends at `at` because a bar begins another one there.
pub open spec fn barred(s: Seq<char>, at: int) -> bool {
    0 <= at < s.len() && s[at] == '|'
}

fn is_barred(s: &[char], at: usize) -> (barred: bool)
    ensures
        barred == self::barred(s@, at as int),
{
    at < s.len() && s[at] == '|'
}

/// What is wrong behind an expression or name that ends at `end`.
pub open spec fn trailing_fault(s: Seq<char>, end: int) -> Fault {
    let rest = remainder(s, end);
    if rest.len() == 0 || barred(s, skip_white(s, end)) {
        Fault::Nothing
    } else {
        Fault::Trailing(rest)
    }
}

/// What is wrong where a scan from `at` on did not end well.
pub open spec fn scan_fault(s: Seq<char>, scan: Scan, at: int) -> Fault {
    match scan {
        Scan::TooDeep(place) => Fault::TooDeep(s.skip(place)),
        _ => Fault::Invalid(s.skip(at)),
    }
}

/// What is wrong with one expression at `at`.
pub open spec fn expression_fault(s: Seq<char>, at: int) -> Fault {
    match expression_end(s, at) {
        Scan::End(end) => trailing_fault(s, end),
        other => scan_fault(s, other, at),
    }
}

/// What is wrong with expressions from `at` up to the end of the command.
pub open spec fn expressions_fault(s: Seq<char>, at: int) -> Fault
    decreases s.len() - at,
{
    if !(0 <= at < s.len()) || barred(s, at) {
        Fault::Nothing
    } else {
        match expression_end(s, at) {
            Scan::End(end) => if at < skip_white(s, end) <= s.len() {
                expressions_fault(s, skip_white(s, end))
            } else {
                Fault::Invalid(s.skip(at))
            },
            other => scan_fault(s, other, at),
        }
    }
}

/// The place behind a name with its subscripts, or an environment variable, that
/// a command is to forget.
pub open spec fn forgotten_end(s: Seq<char>, at: int) -> Scan {
    if 0 <= at < s.len() && s[at] == '$' {
        Scan::End(identifier_end(s, at + 1))
    } else {
        match name_end(s, at) {
            Scan::End(end) => suffix_end(s, end),
            other => other,
        }
    }
}

/// What is wrong with names from `at` up to the end of the command.
pub open spec fn names_fault(s: Seq<char>, at: int) -> Fault
    decreases s.len() - at,
{
    if !(0 <= at < s.len()) || barred(s, at) {
        Fault::Nothing
    } else {
        match forgotten_end(s, at) {
            Scan::End(end) => if at < end && (end >= s.len() || is_white(s[end]) || barred(s, end))
                && at < skip_white(s, end) <= s.len() {
                names_fault(s, skip_white(s, end))
            } else {
                Fault::Trailing(s.skip(end))
            },
            Scan::Broken => Fault::Trailing(s.skip(at)),
            Scan::TooDeep(place) => Fault::TooDeep(s.skip(place)),
        }
    }
}

/// The place behind the assignment operator at `at`: an equals sign, which one
/// arithmetic sign or one or two points may precede.
pub open spec fn assignment_end(s: Seq<char>, at: int) -> Option<int> {
    if 0 <= at < s.len() && s[at] == '=' {
        Some(at + 1)
    } else if 0 <= at && at + 1 < s.len() && s[at + 1] == '=' && (s[at] == '+' || s[at] == '-'
        || s[at] == '*' || s[at] == '/' || s[at] == '%' || s[at] == '.') {
        Some(at + 2)
    } else if 0 <= at && at + 2 < s.len() && s[at] == '.' && s[at + 1] == '.' && s[at + 2] == '=' {
        Some(at + 3)
    } else {
        None
    }
}

/// Whether the lines below are the value of an assignment whose operator ends at
/// `at`.
pub open spec fn takes_lines(s: Seq<char>, at: int) -> bool {
    0 <= at && at + 1 < s.len() && s[at] == '<' && s[at + 1] == '<'
}

/// What is wrong with an assignment at `at`. Without an operator the command
/// shows variables, and with lines below for a value there is no expression:
/// nothing is checked.
pub open spec fn assignment_fault(s: Seq<char>, at: int) -> Fault {
    match operand_end(s, at) {
        Scan::End(target) => match assignment_end(s, skip_white(s, target)) {
            None => Fault::Nothing,
            Some(behind) => if takes_lines(s, behind) {
                Fault::Nothing
            } else {
                expression_fault(s, skip_white(s, behind))
            },
        },
        other => scan_fault(s, other, at),
    }
}

/// The place behind the word `in` at `at`.
pub open spec fn in_end(s: Seq<char>, at: int) -> Option<int> {
    if 0 <= at && at + 2 < s.len() && s[at] == 'i' && s[at + 1] == 'n' && is_white(s[at + 2]) {
        Some(at + 2)
    } else {
        None
    }
}

/// What is wrong with a loop head at `at`.
pub open spec fn loop_fault(s: Seq<char>, at: int) -> Fault {
    match operand_end(s, at) {
        Scan::End(target) => match in_end(s, skip_white(s, target)) {
            None => Fault::NoIn,
            Some(behind) => expression_fault(s, skip_white(s, behind)),
        },
        other => scan_fault(s, other, at),
    }
}

/// What is wrong with a command's argument at `at`.
pub open spec fn argument_fault(s: Seq<char>, kind: CommandKind, at: int) -> Fault {
    match kind {
        CommandKind::Other => Fault::Nothing,
        CommandKind::OptionalExpression => if at >= s.len() || barred(s, at) {
            Fault::Nothing
        } else {
            expression_fault(s, at)
        },
        CommandKind::Expression => if at >= s.len() {
            Fault::Missing
        } else {
            expression_fault(s, at)
        },
        CommandKind::Names => if at >= s.len() {
            Fault::Missing
        } else {
            names_fault(s, at)
        },
        CommandKind::Loop => if at >= s.len() {
            Fault::Missing
        } else {
            loop_fault(s, at)
        },
        CommandKind::Expressions => expressions_fault(s, at),
        CommandKind::Assignment => if at >= s.len() || barred(s, at) {
            Fault::Nothing
        } else {
            assignment_fault(s, at)
        },
    }
}

/// The name of a line's command.
pub open spec fn command_name(s: Seq<char>) -> Seq<char> {
    let start = skip_white(s, 0);
    s.subrange(start, word_end(s, start))
}

/// Where a line's argument starts: behind the command, an exclamation mark and
/// white space.
pub open spec fn argument_start(s: Seq<char>) -> int {
    let end = word_end(s, skip_white(s, 0));
    if end < s.len() && s[end] == '!' {
        skip_white(s, end + 1)
    } else {
        skip_white(s, end)
    }
}

/// What is wrong with a line.
pub open spec fn line_fault(s: Seq<char>) -> Fault {
    argument_fault(s, command_kind(command_name(s)), argument_start(s))
}

/// An error that a command raised.
#[derive(Debug, PartialEq, Eq)]
pub struct VimException {
    /// The command.
    pub command: String,
    /// The error code.
    pub code: String,
    /// The words that follow the code.
    pub words: String,
}

impl VimException {
    /// The error as scripts see it.
    #[must_use]
    pub fn message(&self) -> (message: String)
        ensures
            message@ == "Vim("@ + self.command@ + "):"@ + self.code@ + ": "@ + self.words@,
    {
        let mut message = "Vim(".to_owned();
        message.append(self.command.as_str());
        message.append("):");
        message.append(self.code.as_str());
        message.append(": ");
        message.append(self.words.as_str());
        message
    }
}

/// Whether checking a line ended as its fault says.
pub open spec fn reports(
    result: Result<(), VimException>,
    command: Seq<char>,
    fault: Fault,
) -> bool {
    match fault {
        Fault::Nothing => result is Ok,
        Fault::Missing => {
            &&& result is Err
            &&& result->Err_0.command@ == command
            &&& result->Err_0.code@ == "E471"@
            &&& result->Err_0.words@ == "Argument required"@
        },
        Fault::NoIn => {
            &&& result is Err
            &&& result->Err_0.command@ == command
            &&& result->Err_0.code@ == "E690"@
            &&& result->Err_0.words@ == "Missing \"in\" after :for"@
        },
        Fault::Invalid(text) => {
            &&& result is Err
            &&& result->Err_0.command@ == command
            &&& result->Err_0.code@ == "E15"@
            &&& result->Err_0.words@ == "Invalid expression: \""@ + text + "\""@
        },
        Fault::TooDeep(text) => {
            &&& result is Err
            &&& result->Err_0.command@ == command
            &&& result->Err_0.code@ == "E1169"@
            &&& result->Err_0.words@ == "Expression too recursive: "@ + text
        },
        Fault::Trailing(text) => {
            &&& result is Err
            &&& result->Err_0.command@ == command
            &&& result->Err_0.code@ == "E488"@
            &&& result->Err_0.words@ == "Trailing characters: "@ + text
        },
    }
}

fn exception(command: &[char], code: &str, words: &str) -> (error: VimException)
    ensures
        error.command@ == command@,
        error.code@ == code@,
        error.words@ == words@,
{
    VimException {
        command: string_of(command),
        code: code.to_owned(),
        words: words.to_owned(),
    }
}

fn missing(command: &[char]) -> (result: Result<(), VimException>)
    ensures
        reports(result, command@, Fault::Missing),
{
    Err(exception(command, "E471", "Argument required"))
}

fn invalid(command: &[char], s: &[char], at: usize) -> (result: Result<(), VimException>)
    requires
        at <= s@.len(),
    ensures
        reports(result, command@, Fault::Invalid(s@.skip(at as int))),
{
    let rest = vstd::slice::slice_subrange(s, at, s.len());
    assert(rest@ =~= s@.skip(at as int));
    let mut words = "Invalid expression: \"".to_owned();
    words.append(string_of(rest).as_str());
    words.append("\"");
    Err(exception(command, "E15", words.as_str()))
}

fn too_deep(command: &[char], s: &[char], at: usize) -> (result: Result<(), VimException>)
    requires
        at <= s@.len(),
    ensures
        reports(result, command@, Fault::TooDeep(s@.skip(at as int))),
{
    let rest = vstd::slice::slice_subrange(s, at, s.len());
    assert(rest@ =~= s@.skip(at as int));
    let mut words = "Expression too recursive: ".to_owned();
    words.append(string_of(rest).as_str());
    Err(exception(command, "E1169", words.as_str()))
}

/// What a scan from `at` on that did not end well is reported as.
fn report(
    command: &[char],
    s: &[char],
    scanned: Scanned,
    at: usize,
    Ghost(scan): Ghost<Scan>,
) -> (result: Result<(), VimException>)
    requires
        at <= s@.len(),
        scanned.tells(scan, 0, s@.len()),
    ensures
        reports(result, command@, scan_fault(s@, scan, at as int)),
{
    match scanned {
        Scanned::TooDeep(place) => too_deep(command, s, place),
        _ => invalid(command, s, at),
    }
}

fn trailing(command: &[char], rest: &[char]) -> (result: Result<(), VimException>)
    ensures
        reports(result, command@, Fault::Trailing(rest@)),
{
    let mut words = "Trailing characters: ".to_owned();
    words.append(string_of(rest).as_str());
    Err(exception(command, "E488", words.as_str()))
}

fn trailing_from(command: &[char], s: &[char], at: usize) -> (result: Result<(), VimException>)
    requires
        at <= s@.len(),
    ensures
        reports(result, command@, Fault::Trailing(s@.skip(at as int))),
{
    let rest = vstd::slice::slice_subrange(s, at, s.len());
    assert(rest@ =~= s@.skip(at as int));
    trailing(command, rest)
}

fn check_expression(command: &[char], s: &[char], at: usize) -> (result: Result<(), VimException>)
    requires
        at <= s@.len(),
    ensures
        reports(result, command@, expression_fault(s@, at as int)),
{
    match end_of_expression(s, at) {
        Scanned::End(end) => {
            let rest = find_remainder(s, end);
            if rest.len() == 0 || is_barred(s, skipwhite(s, end)) {
                Ok(())
            } else {
                trailing(command, rest.as_slice())
            }
        },
        other => report(command, s, other, at, Ghost(expression_end(s@, at as int))),
    }
}

fn check_expressions(command: &[char], s: &[char], at: usize) -> (result: Result<
    (),
    VimException,
>)
    requires
        at <= s@.len(),
    ensures
        reports(result, command@, expressions_fault(s@, at as int)),
{
    let mut next: usize = at;
    while next < s.len() && !is_barred(s, next)
        invariant
            at <= next <= s@.len(),
            expressions_fault(s@, at as int) == expressions_fault(s@, next as int),
        decreases s@.len() - next,
    {
        match end_of_expression(s, next) {
            Scanned::End(end) => {
                next = skipwhite(s, end);
            },
            other => {
                return report(command, s, other, next, Ghost(expression_end(s@, next as int)));
            },
        }
    }
    Ok(())
}

fn end_of_forgotten(s: &[char], at: usize) -> (end: Scanned)
    requires
        at <= s@.len(),
    ensures
        end.tells(forgotten_end(s@, at as int), at as int, s@.len()),
{
    if at < s.len() && s[at] == '$' {
        return Scanned::End(end_of_identifier(s, at + 1));
    }
    match end_of_name(s, at) {
        Scanned::End(end) => end_of_suffix(s, end),
        other => other,
    }
}

fn check_names(command: &[char], s: &[char], at: usize) -> (result: Result<(), VimException>)
    requires
        at <= s@.len(),
    ensures
        reports(result, command@, names_fault(s@, at as int)),
{
    let mut next: usize = at;
    while next < s.len() && !is_barred(s, next)
        invariant
            at <= next <= s@.len(),
            names_fault(s@, at as int) == names_fault(s@, next as int),
        decreases s@.len() - next,
    {
        match end_of_forgotten(s, next) {
            Scanned::End(end) => {
                if next < end && (end >= s.len() || white(s[end]) || is_barred(s, end)) {
                    next = skipwhite(s, end);
                } else {
                    return trailing_from(command, s, end);
                }
            },
            Scanned::Broken => {
                return trailing_from(command, s, next);
            },
            Scanned::TooDeep(place) => {
                return too_deep(command, s, place);
            },
        }
    }
    Ok(())
}

fn end_of_assignment(s: &[char], at: usize) -> (end: Option<usize>)
    requires
        at <= s@.len(),
    ensures
        match assignment_end(s@, at as int) {
            Some(place) => end is Some && end->0 == place && at < place <= s@.len(),
            None => end is None,
        },
{
    let left: usize = s.len() - at;
    if left > 0 && s[at] == '=' {
        return Some(at + 1);
    }
    if left > 1 && s[at + 1] == '=' {
        let sign: char = s[at];
        if sign == '+' || sign == '-' || sign == '*' || sign == '/' || sign == '%' || sign == '.' {
            return Some(at + 2);
        }
    }
    if left > 2 && s[at] == '.' && s[at + 1] == '.' && s[at + 2] == '=' {
        return Some(at + 3);
    }
    None
}

fn check_assignment(command: &[char], s: &[char], at: usize) -> (result: Result<(), VimException>)
    requires
        at <= s@.len(),
    ensures
        reports(result, command@, assignment_fault(s@, at as int)),
{
    let target: usize = match end_of_operand(s, at) {
        Scanned::End(target) => target,
        other => {
            return report(command, s, other, at, Ghost(operand_end(s@, at as int)));
        },
    };
    match end_of_assignment(s, skipwhite(s, target)) {
        Some(behind) => if s.len() - behind > 1 && s[behind] == '<' && s[behind + 1] == '<' {
            Ok(())
        } else {
            check_expression(command, s, skipwhite(s, behind))
        },
        None => Ok(()),
    }
}

fn check_loop(command: &[char], s: &[char], at: usize) -> (result: Result<(), VimException>)
    requires
        at <= s@.len(),
    ensures
        reports(result, command@, loop_fault(s@, at as int)),
{
    let target: usize = match end_of_operand(s, at) {
        Scanned::End(target) => skipwhite(s, target),
        other => {
            return report(command, s, other, at, Ghost(operand_end(s@, at as int)));
        },
    };
    if s.len() - target > 2 && s[target] == 'i' && s[target + 1] == 'n' && white(s[target + 2]) {
        check_expression(command, s, skipwhite(s, target + 2))
    } else {
        Err(exception(command, "E690", "Missing \"in\" after :for"))
    }
}

/// Checks the argument of a command that reads expressions or names: it has to be
/// there, it has to be an expression, and nothing but white space, a comment and
/// another command behind a bar may follow it.
///
/// # Errors
///
/// `E471` for a missing argument, `E15` for text that is no expression, `E1169`
/// for an operand inside too many groups, `E690` for a loop head without `in`,
/// and `E488` for text behind the argument. Commands that read expressions up to
/// the end of the line take that text for an expression and raise `E15`.
pub fn check_line(line: &str) -> (result: Result<(), VimException>)
    ensures
        reports(result, command_name(line@), line_fault(line@)),
{
    let chars = chars_of(line);
    let s = chars.as_slice();
    let start: usize = skipwhite(s, 0);
    let end: usize = end_of_word(s, start);
    let command = vstd::slice::slice_subrange(s, start, end);
    let at: usize = if end < s.len() && s[end] == '!' {
        skipwhite(s, end + 1)
    } else {
        skipwhite(s, end)
    };
    match kind_of(command) {
        CommandKind::Other => Ok(()),
        CommandKind::OptionalExpression => if at >= s.len() || is_barred(s, at) {
            Ok(())
        } else {
            check_expression(command, s, at)
        },
        CommandKind::Expression => if at >= s.len() {
            missing(command)
        } else {
            check_expression(command, s, at)
        },
        CommandKind::Names => if at >= s.len() {
            missing(command)
        } else {
            check_names(command, s, at)
        },
        CommandKind::Loop => if at >= s.len() {
            missing(command)
        } else {
            check_loop(command, s, at)
        },
        CommandKind::Expressions => check_expressions(command, s, at),
        CommandKind::Assignment => if at >= s.len() || is_barred(s, at) {
            Ok(())
        } else {
            check_assignment(command, s, at)
        },
    }
}

/// The arguments in a text, behind those that `word` has begun: white space
/// separates them, and a backslash takes white space or another backslash into
/// an argument.
pub open spec fn arguments_from(s: Seq<char>, word: Option<Seq<char>>) -> Seq<Seq<char>>
    decreases s.len(),
{
    let begun = match word {
        Some(word) => word,
        None => Seq::empty(),
    };
    if s.len() == 0 {
        match word {
            Some(word) => seq![word],
            None => Seq::empty(),
        }
    } else if s[0] == '\\' && s.len() > 1 && (s[1] == '\\' || is_white(s[1])) {
        arguments_from(s.skip(2), Some(begun.push(s[1])))
    } else if is_white(s[0]) {
        match word {
            Some(word) => seq![word] + arguments_from(s.skip(1), None),
            None => arguments_from(s.skip(1), None),
        }
    } else {
        arguments_from(s.skip(1), Some(begun.push(s[0])))
    }
}

/// A text for use between double quotes: quotes and backslashes are escaped.
pub open spec fn escaped(word: Seq<char>) -> Seq<char>
    decreases word.len(),
{
    if word.len() == 0 {
        Seq::empty()
    } else {
        let before = escaped(word.drop_last());
        if word.last() == '"' || word.last() == '\\' {
            before.push('\\').push(word.last())
        } else {
            before.push(word.last())
        }
    }
}

/// Arguments as the text of string expressions with commas between them.
pub open spec fn quoted_list(words: Seq<Seq<char>>) -> Seq<char>
    decreases words.len(),
{
    if words.len() == 0 {
        Seq::empty()
    } else {
        let before = quoted_list(words.drop_last());
        let separated = if words.len() == 1 {
            before
        } else {
            before.push(',').push(' ')
        };
        separated.push('"') + escaped(words.last()).push('"')
    }
}

fn push_quoted(text: &mut Vec<char>, word: &Vec<char>, first: bool)
    ensures
        final(text)@ == (if first {
            old(text)@
        } else {
            old(text)@.push(',').push(' ')
        }).push('"') + escaped(word@).push('"'),
{
    if !first {
        text.push(',');
        text.push(' ');
    }
    text.push('"');
    let ghost head = text@;
    let mut next: usize = 0;
    assert(head + escaped(word@.take(0)) =~= head);
    while next < word.len()
        invariant
            next <= word@.len(),
            text@ == head + escaped(word@.take(next as int)),
        decreases word@.len() - next,
    {
        let c: char = word[next];
        let ghost so_far = escaped(word@.take(next as int));
        assert(word@.take(next + 1).drop_last() =~= word@.take(next as int));
        if c == '"' || c == '\\' {
            text.push('\\');
        }
        text.push(c);
        assert(text@ =~= head + escaped(word@.take(next + 1)));
        next = next + 1;
    }
    assert(word@.take(next as int) =~= word@);
    text.push('"');
    assert(text@ =~= head + escaped(word@).push('"'));
}

fn split_words(s: &[char]) -> (words: Vec<Vec<char>>)
    ensures
        crate::text::views(words@) == arguments_from(s@, None),
{
    let ghost all = arguments_from(s@, None);
    let mut words: Vec<Vec<char>> = Vec::new();
    let mut word: Vec<char> = Vec::new();
    let mut begun: bool = false;
    let mut next: usize = 0;
    proof {
        assert(s@.skip(0) =~= s@);
        assert(crate::text::views(words@) + all =~= all);
    }
    while next < s.len()
        invariant
            next <= s@.len(),
            !begun ==> word@.len() == 0,
            crate::text::views(words@) + arguments_from(
                s@.skip(next as int),
                if begun {
                    Some(word@)
                } else {
                    None
                },
            ) == all,
        decreases s@.len() - next,
    {
        let ghost tail = s@.skip(next as int);
        let ghost before = crate::text::views(words@);
        let c: char = s[next];
        proof {
            assert(tail[0] == c);
            assert(tail.skip(1) =~= s@.skip(next + 1));
            if tail.len() > 1 {
                assert(tail[1] == s@[next + 1]);
                assert(tail.skip(2) =~= s@.skip(next + 2));
            }
            if !begun {
                assert(word@ =~= Seq::empty());
            }
        }
        if c == '\\' && s.len() - next > 1 && (s[next + 1] == '\\' || white(s[next + 1])) {
            word.push(s[next + 1]);
            begun = true;
            next = next + 2;
        } else if white(c) {
            if begun {
                let mut done: Vec<char> = Vec::new();
                std::mem::swap(&mut done, &mut word);
                let ghost ended = done@;
                words.push(done);
                begun = false;
                proof {
                    let rest = arguments_from(s@.skip(next + 1), None);
                    assert(crate::text::views(words@) =~= before.push(ended));
                    assert(before + (seq![ended] + rest) =~= before.push(ended) + rest);
                }
            }
            next = next + 1;
        } else {
            word.push(c);
            begun = true;
            next = next + 1;
        }
    }
    let ghost before = crate::text::views(words@);
    if begun {
        let ghost ended = word@;
        words.push(word);
        proof {
            assert(crate::text::views(words@) =~= before.push(ended));
            assert(before + seq![ended] =~= before.push(ended));
        }
    } else {
        assert(before + Seq::empty() =~= before);
    }
    words
}

/// Splits a user command's arguments for use in its body: each becomes a string
/// expression, with commas between them, and no arguments become nothing.
#[must_use]
pub fn split_command_arguments(arguments: &str) -> (text: String)
    ensures
        text@ == quoted_list(arguments_from(arguments@, None)),
{
    let chars = chars_of(arguments);
    let words = split_words(chars.as_slice());
    let ghost all = arguments_from(arguments@, None);
    let mut text: Vec<char> = Vec::new();
    let mut next: usize = 0;
    assert(text@ =~= quoted_list(all.take(0)));
    while next < words.len()
        invariant
            next <= words@.len(),
            crate::text::views(words@) == all,
            text@ == quoted_list(all.take(next as int)),
        decreases words@.len() - next,
    {
        proof {
            let here = all.take(next + 1);
            assert(here.drop_last() =~= all.take(next as int));
            assert(here.last() == words@[next as int]@);
        }
        push_quoted(&mut text, &words[next], next == 0);
        next = next + 1;
    }
    assert(all.take(next as int) =~= all);
    string_of(text.as_slice())
}

/// A quote inside an argument does not end the string that is made of it: the
/// string's end is found behind the whole escaped text.
pub proof fn law_quoted_argument_ends_at_its_quote(
    before: Seq<char>,
    word: Seq<char>,
    rest: Seq<char>,
)
    ensures
        string_end(before + escaped(word).push('"') + rest, before.len() as int) == Some(
            (before.len() + escaped(word).len() + 1) as int,
        ),
{
    let s = before + escaped(word).push('"') + rest;
    lemma_escaped_scan(before, word, seq!['"'] + rest);
    assert(s =~= before + escaped(word) + (seq!['"'] + rest));
    let end = before.len() + escaped(word).len();
    assert(s[end as int] == '"');
}

proof fn lemma_escaped_scan(before: Seq<char>, word: Seq<char>, rest: Seq<char>)
    ensures
        string_end(before + escaped(word) + rest, before.len() as int) == string_end(
            before + escaped(word) + rest,
            (before.len() + escaped(word).len()) as int,
        ),
    decreases word.len(),
{
    let s = before + escaped(word) + rest;
    if word.len() > 0 {
        let head = escaped(word.drop_last());
        let c = word.last();
        let at = (before.len() + head.len()) as int;
        if c == '"' || c == '\\' {
            let tail = seq!['\\', c] + rest;
            lemma_escaped_scan(before, word.drop_last(), tail);
            assert(s =~= before + head + tail);
            assert(s[at] == '\\');
        } else {
            let tail = seq![c] + rest;
            lemma_escaped_scan(before, word.drop_last(), tail);
            assert(s =~= before + head + tail);
            assert(s[at] == c);
        }
    }
}

/// A carriage return, a vertical tab or a form feed behind an expression is
/// never taken for white space.
pub proof fn law_only_spaces_and_tabs_are_white(s: Seq<char>, at: int)
    requires
        0 <= at < s.len(),
        s[at] != ' ',
        s[at] != '\t',
    ensures
        skip_white(s, at) == at,
        s[at] != '"' ==> remainder(s, at).len() > 0 && remainder(s, at)[0] == s[at],
{
    if s[at] != '"' {
        let tail = s.skip(at);
        let cut = without_comment(tail);
        assert(cut.len() > 0 && cut[0] == s[at]);
        lemma_first_stays(cut);
    }
}

proof fn lemma_first_stays(s: Seq<char>)
    requires
        s.len() > 0,
        !is_white(s[0]),
    ensures
        without_trailing_white(s).len() > 0,
        without_trailing_white(s)[0] == s[0],
    decreases s.len(),
{
    if is_white(s.last()) {
        assert(s.len() > 1);
        assert(s.drop_last()[0] == s[0]);
        lemma_first_stays(s.drop_last());
    }
}

} // verus!
