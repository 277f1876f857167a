//! Names, numbers and directories in the lines that an `'errorformat'` matches.
//!
//! What lies on disk and what the environment holds come in as plain values.

use vstd::prelude::*;

use crate::text::{chars_of, same_text, string_of};

verus! {

/// The texts of some strings.
pub open spec fn texts(strings: Seq<String>) -> Seq<Seq<char>> {
    strings.map_values(|s: String| s@)
}

/// The text of an optional string.
pub open spec fn opt_text(s: Option<String>) -> Option<Seq<char>> {
    match s {
        Some(s) => Some(s@),
        None => None,
    }
}

/// What is known of the file system: the names that exist, and those among
/// them that are directories.
#[derive(Debug, PartialEq, Eq)]
pub struct PathFacts {
    /// Names that exist.
    pub existing: Vec<String>,
    /// Names of directories.
    pub directories: Vec<String>,
}

impl PathFacts {
    /// Whether `name` exists.
    pub open spec fn has_path(&self, name: Seq<char>) -> bool {
        texts(self.existing@).contains(name)
    }

    /// Whether `name` is a directory.
    pub open spec fn has_dir(&self, name: Seq<char>) -> bool {
        texts(self.directories@).contains(name)
    }

    /// Whether `name` exists.
    #[must_use]
    pub fn path_exists(&self, name: &str) -> (exists: bool)
        ensures
            exists == self.has_path(name@),
    {
        holds_text(&self.existing, name)
    }

    /// Whether `name` is a directory.
    #[must_use]
    pub fn is_dir(&self, name: &str) -> (is_dir: bool)
        ensures
            is_dir == self.has_dir(name@),
    {
        holds_text(&self.directories, name)
    }
}

/// Whether one of `strings` reads `text`.
fn holds_text(strings: &Vec<String>, text: &str) -> (holds: bool)
    ensures
        holds == texts(strings@).contains(text@),
{
    let mut next: usize = 0;
    while next < strings.len()
        invariant
            next <= strings@.len(),
            forall|i: int| 0 <= i < next ==> (#[trigger] texts(strings@)[i]) != text@,
        decreases strings@.len() - next,
    {
        if same_text(strings[next].as_str(), text) {
            assert(texts(strings@)[next as int] == text@);
            return true;
        }
        next = next + 1;
    }
    false
}

/// `dir` and `file` with one separator between them.
pub open spec fn joined_path(dir: Seq<char>, file: Seq<char>) -> Seq<char> {
    if dir.len() > 0 && (dir.last() == '/' || dir.last() == '\\') {
        dir + file
    } else {
        dir.push('/') + file
    }
}

/// Joins a directory and a file name with one path separator.
#[must_use]
pub fn join_fnames(dir: &str, file: &str) -> (path: String)
    ensures
        path@ == joined_path(dir@, file@),
{
    let chars = chars_of(dir);
    let mut path = dir.to_owned();
    if chars.len() > 0 && (chars[chars.len() - 1] == '/' || chars[chars.len() - 1] == '\\') {
        path.append(file);
    } else {
        path.push('/');
        path.append(file);
    }
    path
}

/// Whether `c` is an ASCII letter.
pub open spec fn is_letter(c: char) -> bool {
    'a' <= c <= 'z' || 'A' <= c <= 'Z'
}

/// Whether `c` may stand in an environment variable's name.
pub open spec fn is_name_char(c: char) -> bool {
    is_letter(c) || '0' <= c <= '9' || c == '_'
}

fn name_char(c: char) -> (yes: bool)
    ensures
        yes == is_name_char(c),
{
    ('a' <= c && c <= 'z') || ('A' <= c && c <= 'Z') || ('0' <= c && c <= '9') || c == '_'
}

/// A name that no directory goes in front of: `/…`, `~…`, a drive path or a
/// network path.
pub open spec fn is_absolute(name: Seq<char>) -> bool {
    ||| name.len() >= 1 && (name[0] == '/' || name[0] == '~')
    ||| name.len() >= 3 && is_letter(name[0]) && name[1] == ':' && (name[2] == '/' || name[2]
        == '\\')
    ||| name.len() >= 2 && name[0] == '\\' && name[1] == '\\'
}

/// Whether `name` is absolute. See [`is_absolute`].
#[must_use]
pub fn is_abs_name(name: &str) -> (absolute: bool)
    ensures
        absolute == is_absolute(name@),
{
    let c = chars_of(name);
    (c.len() >= 1 && (c[0] == '/' || c[0] == '~')) || (c.len() >= 3 && (('a' <= c[0] && c[0]
        <= 'z') || ('A' <= c[0] && c[0] <= 'Z')) && c[1] == ':' && (c[2] == '/' || c[2] == '\\'))
        || (c.len() >= 2 && c[0] == '\\' && c[1] == '\\')
}

/// The topmost of the lowest `n` stack entries in which `name` is a directory.
pub open spec fn topmost_dir(
    stack: Seq<Seq<char>>,
    name: Seq<char>,
    facts: PathFacts,
    n: int,
) -> Option<int>
    decreases n,
{
    if n <= 0 {
        None
    } else if facts.has_dir(joined_path(stack[n - 1], name)) {
        Some(n - 1)
    } else {
        topmost_dir(stack, name, facts, n - 1)
    }
}

/// The topmost of the lowest `n` stack entries in which `name` exists.
pub open spec fn topmost_path(
    stack: Seq<Seq<char>>,
    name: Seq<char>,
    facts: PathFacts,
    n: int,
) -> Option<int>
    decreases n,
{
    if n <= 0 {
        None
    } else if facts.has_path(joined_path(stack[n - 1], name)) {
        Some(n - 1)
    } else {
        topmost_path(stack, name, facts, n - 1)
    }
}

/// The stack after `name` was entered. A relative directory goes into the
/// topmost entry that has it, and what was above that entry is left; one that
/// no entry has starts a new stack.
pub open spec fn entered(
    stack: Seq<Seq<char>>,
    name: Seq<char>,
    is_file_stack: bool,
    facts: PathFacts,
) -> Seq<Seq<char>> {
    if is_absolute(name) || stack.len() == 0 || is_file_stack {
        stack.push(name)
    } else {
        match topmost_dir(stack, name, facts, stack.len() as int) {
            Some(i) => stack.take(i + 1).push(joined_path(stack[i], name)),
            None => seq![name],
        }
    }
}

/// Pushes `dirbuf`, resolving a relative name against the topmost stack entry
/// where it names a real directory. The top of the stack is its last entry,
/// and is returned.
pub fn push_dir(
    stack: &mut Vec<String>,
    dirbuf: &str,
    is_file_stack: bool,
    facts: &PathFacts,
) -> (top: String)
    ensures
        texts(final(stack)@) == entered(texts(old(stack)@), dirbuf@, is_file_stack, *facts),
        top@ == texts(final(stack)@).last(),
{
    let ghost before = texts(stack@);
    if is_abs_name(dirbuf) || stack.len() == 0 || is_file_stack {
        stack.push(dirbuf.to_owned());
        assert(texts(stack@) =~= before.push(dirbuf@));
        return dirbuf.to_owned();
    }
    let mut n: usize = stack.len();
    while n > 0
        invariant
            n <= stack@.len(),
            before == texts(stack@),
            topmost_dir(before, dirbuf@, *facts, before.len() as int) == topmost_dir(
                before,
                dirbuf@,
                *facts,
                n as int,
            ),
            stack@ == old(stack)@,
        ensures
            topmost_dir(before, dirbuf@, *facts, before.len() as int) == (if n > 0 {
                Some(n - 1)
            } else {
                None
            }),
        decreases n,
    {
        let joined = join_fnames(stack[n - 1].as_str(), dirbuf);
        assert(before[n - 1] == stack@[n - 1]@);
        if facts.is_dir(joined.as_str()) {
            break;
        }
        n = n - 1;
    }
    if n > 0 {
        let dirname = join_fnames(stack[n - 1].as_str(), dirbuf);
        stack.truncate(n);
        stack.push(dirname.clone());
        assert(texts(stack@) =~= before.take(n as int).push(dirname@));
        dirname
    } else {
        stack.clear();
        stack.push(dirbuf.to_owned());
        assert(texts(stack@) =~= seq![dirbuf@]);
        dirbuf.to_owned()
    }
}

/// The stack without its top.
pub open spec fn popped(stack: Seq<Seq<char>>) -> Seq<Seq<char>> {
    if stack.len() == 0 {
        stack
    } else {
        stack.drop_last()
    }
}

/// The top of the stack.
pub open spec fn top_of(stack: Seq<Seq<char>>) -> Option<Seq<char>> {
    if stack.len() == 0 {
        None
    } else {
        Some(stack.last())
    }
}

/// Pops the top entry and returns the new top, or `None` when the stack is
/// empty.
pub fn pop_dir(stack: &mut Vec<String>) -> (top: Option<String>)
    ensures
        texts(final(stack)@) == popped(texts(old(stack)@)),
        opt_text(top) == top_of(texts(final(stack)@)),
{
    let ghost before = texts(stack@);
    let _ = stack.pop();
    assert(texts(stack@) =~= popped(before));
    if stack.len() == 0 {
        None
    } else {
        Some(stack[stack.len() - 1].clone())
    }
}

/// The directory stack after a file was looked for below its top: the entries
/// between the one that has the file and the top are left.
pub open spec fn guessed_stack(
    stack: Seq<Seq<char>>,
    name: Seq<char>,
    facts: PathFacts,
) -> Seq<Seq<char>> {
    if stack.len() == 0 {
        stack
    } else {
        let kept = match topmost_path(stack, name, facts, stack.len() - 1) {
            Some(i) => i + 1,
            None => 0,
        };
        stack.take(kept).push(stack.last())
    }
}

/// The stack entry below the top that has the file.
pub open spec fn guessed_dir(
    stack: Seq<Seq<char>>,
    name: Seq<char>,
    facts: PathFacts,
) -> Option<Seq<char>> {
    if stack.len() == 0 {
        None
    } else {
        match topmost_path(stack, name, facts, stack.len() - 1) {
            Some(i) => Some(stack[i]),
            None => None,
        }
    }
}

/// The leading digits of `s`.
pub open spec fn leading_digits(s: Seq<char>) -> Seq<char>
    decreases s.len(),
{
    if s.len() > 0 && crate::text::is_digit(s[0]) {
        seq![s[0]] + leading_digits(s.drop_first())
    } else {
        Seq::empty()
    }
}

/// The number that the leading digits of `s` spell, held within the machine
/// range; zero if there is no digit.
pub open spec fn number_of(s: Seq<char>) -> i64 {
    let digits = leading_digits(s);
    if crate::text::decimal(digits) > i64::MAX {
        i64::MAX
    } else {
        crate::text::decimal(digits) as i64
    }
}

proof fn lemma_leading_digits(s: Seq<char>, k: int)
    requires
        0 <= k <= s.len(),
        forall|i: int| 0 <= i < k ==> crate::text::is_digit(#[trigger] s[i]),
    ensures
        leading_digits(s) == s.take(k) + leading_digits(s.skip(k)),
    decreases k,
{
    if k == 0 {
        assert(s.skip(0) =~= s);
        assert(s.take(0) + leading_digits(s) =~= leading_digits(s));
    } else {
        let rest = s.drop_first();
        assert forall|i: int| 0 <= i < k - 1 implies crate::text::is_digit(#[trigger] rest[i]) by {
            assert(rest[i] == s[i + 1]);
        }
        lemma_leading_digits(rest, k - 1);
        assert(rest.skip(k - 1) =~= s.skip(k));
        assert(seq![s[0]] + (rest.take(k - 1) + leading_digits(s.skip(k))) =~= s.take(k)
            + leading_digits(s.skip(k)));
    }
}

/// Reads the number at the start of a digit match, saturating.
#[must_use]
pub fn atoi(s: &str) -> (value: i64)
    ensures
        value == number_of(s@),
{
    let chars = chars_of(s);
    let mut value: i64 = 0;
    let mut over: bool = false;
    let mut next: usize = 0;
    while next < chars.len() && chars[next] >= '0' && chars[next] <= '9'
        invariant
            chars@ == s@,
            next <= chars@.len(),
            forall|i: int| 0 <= i < next ==> crate::text::is_digit(#[trigger] chars@[i]),
            0 <= value,
            over == (crate::text::decimal(chars@.take(next as int)) > i64::MAX),
            !over ==> value == crate::text::decimal(chars@.take(next as int)),
        decreases chars@.len() - next,
    {
        let digit: i64 = chars[next] as i64 - '0' as i64;
        proof {
            assert(chars@.take(next + 1).drop_last() =~= chars@.take(next as int));
        }
        if !over {
            if value > (i64::MAX - digit) / 10 {
                over = true;
            } else {
                value = value * 10 + digit;
            }
        }
        next = next + 1;
    }
    proof {
        lemma_leading_digits(s@, next as int);
        assert(leading_digits(s@.skip(next as int)) =~= Seq::empty());
        assert(leading_digits(s@) =~= s@.take(next as int));
    }
    if over {
        i64::MAX
    } else {
        value
    }
}

/// A byte that prints: printable ASCII or any non-ASCII byte.
pub open spec fn prints(c: u8) -> bool {
    0x20 <= c < 0x7f || c >= 0x80
}

/// Whether a byte prints. See [`prints`].
#[must_use]
pub fn is_printable(c: u8) -> (yes: bool)
    ensures
        yes == prints(c),
{
    (0x20 <= c && c < 0x7f) || c >= 0x80
}

/// `s` without the spaces and tabs at its start.
pub open spec fn behind_blanks(s: Seq<char>) -> Seq<char>
    decreases s.len(),
{
    if s.len() > 0 && (s[0] == ' ' || s[0] == '\t') {
        behind_blanks(s.drop_first())
    } else {
        s
    }
}

/// Skips spaces and tabs.
#[must_use]
pub fn skipwhite(s: &str) -> (rest: String)
    ensures
        rest@ == behind_blanks(s@),
{
    let chars = chars_of(s);
    let mut next: usize = 0;
    assert(s@.skip(0) =~= s@);
    while next < chars.len() && (chars[next] == ' ' || chars[next] == '\t')
        invariant
            chars@ == s@,
            next <= chars@.len(),
            behind_blanks(s@) == behind_blanks(s@.skip(next as int)),
        decreases chars@.len() - next,
    {
        assert(s@.skip(next as int).drop_first() =~= s@.skip(next + 1));
        next = next + 1;
    }
    let rest = vstd::slice::slice_subrange(chars.as_slice(), next, chars.len());
    assert(rest@ =~= s@.skip(next as int));
    string_of(rest)
}

/// What the parser knows of its surroundings.
#[derive(Debug, PartialEq, Eq)]
pub struct Surroundings {
    /// The file system.
    pub paths: PathFacts,
    /// The environment: names and values.
    pub environment: Vec<(String, String)>,
}

impl Surroundings {
    /// The value of an environment variable.
    pub open spec fn variable(&self, name: Seq<char>) -> Option<Seq<char>> {
        first_value(self.environment@, name)
    }

    /// Looks up an environment variable.
    fn find_variable(&self, name: &str) -> (value: Option<String>)
        ensures
            opt_text(value) == self.variable(name@),
    {
        let mut next: usize = 0;
        assert(self.environment@.skip(0) =~= self.environment@);
        while next < self.environment.len()
            invariant
                next <= self.environment@.len(),
                self.variable(name@) == first_value(self.environment@.skip(next as int), name@),
            decreases self.environment@.len() - next,
        {
            let ghost rest = self.environment@.skip(next as int);
            assert(rest[0] == self.environment@[next as int]);
            assert(rest.drop_first() =~= self.environment@.skip(next + 1));
            if same_text(self.environment[next].0.as_str(), name) {
                return Some(self.environment[next].1.clone());
            }
            next = next + 1;
        }
        None
    }
}

/// The first value listed under `name`.
pub open spec fn first_value(pairs: Seq<(String, String)>, name: Seq<char>) -> Option<Seq<char>>
    decreases pairs.len(),
{
    if pairs.len() == 0 {
        None
    } else if pairs[0].0@ == name {
        Some(pairs[0].1@)
    } else {
        first_value(pairs.drop_first(), name)
    }
}

/// The first `}` at or after `at`; the end if there is none.
pub open spec fn brace_end(src: Seq<char>, at: int) -> int
    decreases src.len() - at,
{
    if at >= src.len() || src[at] == '}' {
        at
    } else {
        brace_end(src, at + 1)
    }
}

/// Where the variable name at `at` ends.
pub open spec fn name_end(src: Seq<char>, at: int) -> int
    decreases src.len() - at,
{
    if at >= src.len() || !is_name_char(src[at]) {
        at
    } else {
        name_end(src, at + 1)
    }
}

/// `src` from `at` on with a leading `~` and each `$VAR` or `${VAR}` replaced;
/// unknown variables stay as they are written.
pub open spec fn expanded(src: Seq<char>, at: int, world: Surroundings) -> Seq<char>
    decreases src.len() - at,
{
    if at < 0 || at >= src.len() {
        Seq::empty()
    } else if src[at] == '~' && at == 0 {
        (match world.variable("HOME"@) {
            Some(home) => home,
            None => seq!['~'],
        }) + expanded(src, at + 1, world)
    } else if src[at] == '$' && at + 1 < src.len() && src[at + 1] == '{' {
        let close = brace_end(src, at + 2);
        if close < src.len() {
            proof {
                lemma_ends(src, at + 2);
            }
            (match world.variable(src.subrange(at + 2, close)) {
                Some(value) => value,
                None => src.subrange(at, close + 1),
            }) + expanded(src, close + 1, world)
        } else {
            seq!['$'] + expanded(src, at + 1, world)
        }
    } else if src[at] == '$' {
        let end = name_end(src, at + 1);
        if end > at + 1 {
            proof {
                lemma_ends(src, at + 1);
            }
            (match world.variable(src.subrange(at + 1, end)) {
                Some(value) => value,
                None => src.subrange(at, end),
            }) + expanded(src, end, world)
        } else {
            seq!['$'] + expanded(src, at + 1, world)
        }
    } else {
        seq![src[at]] + expanded(src, at + 1, world)
    }
}

pub proof fn lemma_ends(src: Seq<char>, at: int)
    ensures
        brace_end(src, at) >= at,
        name_end(src, at) >= at,
        at <= src.len() ==> name_end(src, at) <= src.len(),
    decreases src.len() - at,
{
    if at < src.len() {
        lemma_ends(src, at + 1);
    }
}

/// Appends the characters of `text`.
fn push_chars(chars: &mut Vec<char>, text: &[char])
    ensures
        final(chars)@ == old(chars)@ + text@,
{
    let mut next: usize = 0;
    while next < text.len()
        invariant
            next <= text@.len(),
            chars@ == old(chars)@ + text@.take(next as int),
        decreases text@.len() - next,
    {
        assert(text@.take(next + 1) =~= text@.take(next as int).push(text@[next as int]));
        chars.push(text[next]);
        next = next + 1;
    }
    assert(text@.take(next as int) =~= text@);
}

/// Expands a `%f` match: `~` at the start and environment variables.
#[must_use]
pub fn expand_env(src: &str, world: &Surroundings) -> (name: String)
    ensures
        name@ == expanded(src@, 0, *world),
{
    let chars = chars_of(src);
    let mut out: Vec<char> = Vec::new();
    let mut at: usize = 0;
    while at < chars.len()
        invariant
            chars@ == src@,
            at <= chars@.len(),
            out@ + expanded(src@, at as int, *world) == expanded(src@, 0, *world),
        decreases chars@.len() - at,
    {
        let c = chars[at];
        let ghost start = at as int;
        let ghost before = out@;
        if c == '~' && at == 0 {
            match world.find_variable("HOME") {
                Some(home) => {
                    push_chars(&mut out, chars_of(home.as_str()).as_slice());
                },
                None => {
                    out.push('~');
                    assert(out@ =~= before + seq!['~']);
                },
            }
            at = at + 1;
        } else if c == '$' && chars.len() - at > 1 && chars[at + 1] == '{' {
            let mut close: usize = at + 2;
            while close < chars.len() && chars[close] != '}'
                invariant
                    at + 2 <= close <= chars@.len(),
                    chars@ == src@,
                    brace_end(src@, at + 2) == brace_end(src@, close as int),
                decreases chars@.len() - close,
            {
                close = close + 1;
            }
            if close < chars.len() {
                let name = vstd::slice::slice_subrange(chars.as_slice(), at + 2, close);
                match world.find_variable(string_of(name).as_str()) {
                    Some(value) => {
                        push_chars(&mut out, chars_of(value.as_str()).as_slice());
                    },
                    None => {
                        let whole = vstd::slice::slice_subrange(chars.as_slice(), at, close + 1);
                        push_chars(&mut out, whole);
                    },
                }
                at = close + 1;
            } else {
                out.push('$');
                assert(out@ =~= before + seq!['$']);
                at = at + 1;
            }
        } else if c == '$' {
            let mut end: usize = at + 1;
            while end < chars.len() && name_char(chars[end])
                invariant
                    at + 1 <= end <= chars@.len(),
                    chars@ == src@,
                    name_end(src@, at + 1) == name_end(src@, end as int),
                decreases chars@.len() - end,
            {
                end = end + 1;
            }
            if end > at + 1 {
                let name = vstd::slice::slice_subrange(chars.as_slice(), at + 1, end);
                match world.find_variable(string_of(name).as_str()) {
                    Some(value) => {
                        push_chars(&mut out, chars_of(value.as_str()).as_slice());
                    },
                    None => {
                        let whole = vstd::slice::slice_subrange(chars.as_slice(), at, end);
                        push_chars(&mut out, whole);
                    },
                }
                at = end;
            } else {
                out.push('$');
                assert(out@ =~= before + seq!['$']);
                at = at + 1;
            }
        } else {
            out.push(c);
            assert(out@ =~= before + seq![c]);
            at = at + 1;
        }
        proof {
            let added = out@.skip(before.len() as int);
            assert(out@ =~= before + added);
            assert(expanded(src@, start, *world) == added + expanded(src@, at as int, *world));
            assert(out@ + expanded(src@, at as int, *world) =~= before + (added + expanded(
                src@,
                at as int,
                *world,
            )));
        }
    }
    assert(out@ + expanded(src@, at as int, *world) =~= out@);
    string_of(out.as_slice())
}

} // verus!
