//! `'errorformat'` compiler: turns each comma-separated alternative into an
//! anchored pattern and records which capture group holds which `%x` field.

use vstd::prelude::*;

use crate::text::push_bytes;

verus! {

/// Number of `%x` fields.
pub const FMT_PATTERNS: usize = 14;

/// Index of the `%m` field.
pub const FMT_PATTERN_M: usize = 8;

/// Index of the `%r` field.
pub const FMT_PATTERN_R: usize = 9;

pub const COMMA: u8 = 0x2c;

pub const SPACE: u8 = 0x20;

pub const BACKSLASH: u8 = 0x5c;

pub const PERCENT: u8 = 0x25;

pub const STAR: u8 = 0x2a;

pub const HASH: u8 = 0x23;

pub const GREATER: u8 = 0x3e;

pub const PLUS: u8 = 0x2b;

pub const MINUS: u8 = 0x2d;

pub const CARET: u8 = 0x5e;

pub const DOLLAR: u8 = 0x24;

pub const DOT: u8 = 0x2e;

pub const TILDE: u8 = 0x7e;

pub const BRACKET_OPEN: u8 = 0x5b;

pub const BRACKET_CLOSE: u8 = 0x5d;

/// The bytes of a text.
pub open spec fn bytes_of(text: &str) -> Seq<u8> {
    vstd::utf8::encode_utf8(text@)
}

/// Appends the bytes of `text`.
fn push_text(bytes: &mut Vec<u8>, text: &str)
    ensures
        final(bytes)@ == old(bytes)@ + bytes_of(text),
{
    push_bytes(bytes, text.as_bytes());
}

/// The Latin-1 character of a byte.
pub open spec fn byte_char(byte: u8) -> char {
    byte as char
}

/// An `'errorformat'` compile or parse failure carrying an error code.
#[derive(Debug, PartialEq, Eq)]
pub struct EfmError {
    /// `E…` error number.
    pub code: String,
    /// Human-readable message.
    pub message: String,
}

/// What an [`EfmError`] holds.
#[verifier::ext_equal]
pub struct EfmErrorView {
    pub code: Seq<char>,
    pub message: Seq<char>,
}

impl View for EfmError {
    type V = EfmErrorView;

    open spec fn view(&self) -> EfmErrorView {
        EfmErrorView { code: self.code@, message: self.message@ }
    }
}

impl EfmError {
    /// An error from its code and message.
    #[must_use]
    pub fn new(code: &str, message: &str) -> (error: Self)
        ensures
            error@ == efm_error(code@, message@),
    {
        Self { code: code.to_owned(), message: message.to_owned() }
    }

    /// An error whose message quotes one byte between two texts.
    fn quoting(code: &str, head: &str, byte: u8, rest: &str) -> (error: Self)
        ensures
            error@ == efm_error(code@, head@.push(byte_char(byte)) + rest@),
    {
        let mut message = head.to_owned();
        message.push(byte as char);
        message.append(rest);
        Self { code: code.to_owned(), message }
    }

    /// The code, a colon and the message.
    #[must_use]
    pub fn to_text(&self) -> (text: String)
        ensures
            text@ == self@.code + ": "@ + self@.message,
    {
        let mut text = self.code.clone();
        text.append(": ");
        text.append(self.message.as_str());
        text
    }
}

/// The error with that code and message.
pub open spec fn efm_error(code: Seq<char>, message: Seq<char>) -> EfmErrorView {
    EfmErrorView { code, message }
}

/// The field index of a `%x` conversion character.
pub open spec fn field_index(c: u8) -> Option<int> {
    if c == 0x66 {
        Some(0)
    } else if c == 0x62 {
        Some(1)
    } else if c == 0x6e {
        Some(2)
    } else if c == 0x6c {
        Some(3)
    } else if c == 0x65 {
        Some(4)
    } else if c == 0x63 {
        Some(5)
    } else if c == 0x6b {
        Some(6)
    } else if c == 0x74 {
        Some(7)
    } else if c == 0x6d {
        Some(8)
    } else if c == 0x72 {
        Some(9)
    } else if c == 0x70 {
        Some(10)
    } else if c == 0x76 {
        Some(11)
    } else if c == 0x73 {
        Some(12)
    } else if c == 0x6f {
        Some(13)
    } else {
        None
    }
}

/// Finds the field index of a conversion character: `f b n l e c k t m r p v s
/// o`, in that order.
fn find_field(c: u8) -> (index: Option<usize>)
    ensures
        index is Some == field_index(c) is Some,
        index is Some ==> index->0 == field_index(c)->0 && index->0 < FMT_PATTERNS,
{
    match c {
        0x66 => Some(0),
        0x62 => Some(1),
        0x6e => Some(2),
        0x6c => Some(3),
        0x65 => Some(4),
        0x63 => Some(5),
        0x6b => Some(6),
        0x74 => Some(7),
        0x6d => Some(8),
        0x72 => Some(9),
        0x70 => Some(10),
        0x76 => Some(11),
        0x73 => Some(12),
        0x6f => Some(13),
        _ => None,
    }
}

/// The pattern that a field's capture group holds: digits for the numbers, one
/// character for `%t`, a pointer line for `%p`, anything else otherwise.
pub open spec fn field_pattern(index: int) -> Seq<u8> {
    if index == 0 || index == 8 || index == 12 || index == 13 {
        bytes_of(".\\+")
    } else if index == 7 {
        bytes_of(".")
    } else if index == 9 {
        bytes_of(".*")
    } else if index == 10 {
        bytes_of("[-\t .]*")
    } else {
        bytes_of("\\d\\+")
    }
}

/// The pattern inside the capture group of field `index` whose conversion
/// character stands at `at`. A `%f` that something follows takes as little as
/// it can, or file-name characters only when a `\\` or a `%` follows.
pub open spec fn group_pattern(part: Seq<u8>, at: int, index: int) -> Seq<u8> {
    if index == 0 && at + 1 < part.len() {
        if part[at + 1] != BACKSLASH && part[at + 1] != PERCENT {
            bytes_of(".\\{-1,}")
        } else {
            bytes_of("\\f\\+")
        }
    } else {
        field_pattern(index)
    }
}

/// Appends the pattern of [`group_pattern`].
fn push_group_pattern(pattern: &mut Vec<u8>, part: &[u8], at: usize, index: usize)
    requires
        at < part@.len(),
        index < FMT_PATTERNS,
    ensures
        final(pattern)@ == old(pattern)@ + group_pattern(part@, at as int, index as int),
{
    if index == 0 && part.len() - at > 1 {
        if part[at + 1] != BACKSLASH && part[at + 1] != PERCENT {
            push_text(pattern, ".\\{-1,}");
        } else {
            push_text(pattern, "\\f\\+");
        }
    } else if index == 0 || index == 8 || index == 12 || index == 13 {
        push_text(pattern, ".\\+");
    } else if index == 7 {
        push_text(pattern, ".");
    } else if index == 9 {
        push_text(pattern, ".*");
    } else if index == 10 {
        push_text(pattern, "[-\t .]*");
    } else {
        push_text(pattern, "\\d\\+");
    }
}

/// What one piece of an alternative means.
#[verifier::ext_equal]
pub enum Token {
    /// A `%x` field: its conversion character, its index, the pattern of its
    /// capture group.
    Field { c: u8, index: int, body: Seq<u8> },
    /// Pattern text that is taken over as it stands.
    Raw(Seq<u8>),
    /// `%>`: later lines resume at this alternative.
    Resume,
    /// The line kind at the start of an alternative, with its `+` or `-` flag.
    Prefix { flag: u8, letter: u8 },
}

/// One piece of an alternative and where the next one starts, or what is wrong
/// with it.
#[verifier::ext_equal]
pub enum Scan {
    Piece { token: Token, next: int },
    Bad(EfmErrorView),
}

/// Characters that have a meaning in a pattern and are escaped when literal.
pub open spec fn is_atom(c: u8) -> bool {
    c == DOT || c == STAR || c == CARET || c == DOLLAR || c == TILDE || c == BRACKET_OPEN
}

/// Characters that `%` passes through to the pattern.
pub open spec fn is_magic(c: u8) -> bool {
    c == PERCENT || c == BACKSLASH || c == DOT || c == CARET || c == DOLLAR || c == TILDE || c
        == BRACKET_OPEN
}

/// The letters of the line kinds: `D X A E W I N C Z G O P Q`.
pub open spec fn is_prefix_letter(c: u8) -> bool {
    c == 0x44 || c == 0x58 || c == 0x41 || c == 0x45 || c == 0x57 || c == 0x49 || c == 0x4e || c
        == 0x43 || c == 0x5a || c == 0x47 || c == 0x4f || c == 0x50 || c == 0x51
}

/// The line kinds `O P Q`, which name a file or rescan a tail.
pub open spec fn is_file_kind(c: u8) -> bool {
    c == 0x4f || c == 0x50 || c == 0x51
}

/// The line kinds `D X`, which enter and leave a directory.
pub open spec fn is_dir_kind(c: u8) -> bool {
    c == 0x44 || c == 0x58
}

/// Whether a byte is an [`is_file_kind`] letter.
pub fn file_kind(c: u8) -> (yes: bool)
    ensures
        yes == is_file_kind(c),
{
    c == 0x4f || c == 0x50 || c == 0x51
}

/// Whether a byte is an [`is_dir_kind`] letter.
pub fn dir_kind(c: u8) -> (yes: bool)
    ensures
        yes == is_dir_kind(c),
{
    c == 0x44 || c == 0x58
}

fn prefix_letter(c: u8) -> (yes: bool)
    ensures
        yes == is_prefix_letter(c),
{
    c == 0x44 || c == 0x58 || c == 0x41 || c == 0x45 || c == 0x57 || c == 0x49 || c == 0x4e || c
        == 0x43 || c == 0x5a || c == 0x47 || c == 0x4f || c == 0x50 || c == 0x51
}

/// The first `]` at or after `at`; the end if there is none.
pub open spec fn class_end(part: Seq<u8>, at: int) -> int
    decreases part.len() - at,
{
    if at >= part.len() || part[at] == BRACKET_CLOSE {
        at
    } else {
        class_end(part, at + 1)
    }
}

/// The piece that a `%*` starts, `at` being the place behind the star: a
/// bracketed class or an escaped class, one or more of it.
pub open spec fn scan_class(part: Seq<u8>, at: int) -> Scan {
    if at >= part.len() {
        Scan::Bad(efm_error("E375"@, "Unsupported %* in format string"@))
    } else if part[at] == BRACKET_OPEN {
        let negated = at + 1 < part.len() && part[at + 1] == CARET;
        let first = if negated {
            at + 2
        } else {
            at + 1
        };
        let close = class_end(part, first + 1);
        if close >= part.len() {
            Scan::Bad(efm_error("E374"@, "Missing ] in format string"@))
        } else {
            Scan::Piece {
                token: Token::Raw(part.subrange(at, close + 1) + bytes_of("\\+")),
                next: close + 1,
            }
        }
    } else if part[at] == BACKSLASH {
        let next = if at + 1 < part.len() {
            at + 2
        } else {
            at + 1
        };
        Scan::Piece { token: Token::Raw(part.subrange(at, next) + bytes_of("\\+")), next }
    } else {
        Scan::Bad(
            efm_error(
                "E375"@,
                "Unsupported %*"@.push(byte_char(part[at])) + " in format string"@,
            ),
        )
    }
}

/// The line kind that an alternative starts with.
pub open spec fn scan_prefix(part: Seq<u8>) -> Scan {
    let flagged = part[1] == PLUS || part[1] == MINUS;
    let at: int = if flagged {
        2
    } else {
        1
    };
    if at >= part.len() {
        Scan::Bad(efm_error("E376"@, "Invalid % in format string prefix"@))
    } else if is_prefix_letter(part[at]) {
        Scan::Piece {
            token: Token::Prefix {
                flag: if flagged {
                    part[1]
                } else {
                    0
                },
                letter: part[at],
            },
            next: at + 1,
        }
    } else {
        Scan::Bad(
            efm_error(
                "E376"@,
                "Invalid %"@.push(byte_char(part[at])) + " in format string prefix"@,
            ),
        )
    }
}

/// The piece at `at`. A `\\` quotes the next character; pattern atoms are
/// escaped; `%` starts a field, a class, a magic character, a line kind (only
/// at the start) or `%>`.
pub open spec fn scan(part: Seq<u8>, at: int) -> Scan {
    if part[at] != PERCENT {
        if part[at] == BACKSLASH && at + 1 < part.len() {
            Scan::Piece { token: Token::Raw(seq![part[at + 1]]), next: at + 2 }
        } else if is_atom(part[at]) {
            Scan::Piece { token: Token::Raw(seq![BACKSLASH, part[at]]), next: at + 1 }
        } else {
            Scan::Piece { token: Token::Raw(seq![part[at]]), next: at + 1 }
        }
    } else if at + 1 >= part.len() {
        Scan::Bad(efm_error("E377"@, "Invalid % in format string"@))
    } else {
        let c = part[at + 1];
        if field_index(c) is Some {
            let index = field_index(c)->0;
            Scan::Piece {
                token: Token::Field { c, index, body: group_pattern(part, at + 1, index) },
                next: at + 2,
            }
        } else if c == STAR {
            scan_class(part, at + 2)
        } else if is_magic(c) {
            Scan::Piece { token: Token::Raw(seq![c]), next: at + 2 }
        } else if c == HASH {
            Scan::Piece { token: Token::Raw(seq![STAR]), next: at + 2 }
        } else if c == GREATER {
            Scan::Piece { token: Token::Resume, next: at + 2 }
        } else if at == 0 {
            scan_prefix(part)
        } else {
            Scan::Bad(
                efm_error("E377"@, "Invalid %"@.push(byte_char(c)) + " in format string"@),
            )
        }
    }
}

/// One compiled `'errorformat'` alternative.
#[derive(Debug, PartialEq, Eq)]
pub struct EfmPart {
    /// Anchored pattern of this alternative, to be matched ignoring case.
    pub pattern: Vec<u8>,
    /// Capture-group number per field index, zero where absent.
    pub addr: Vec<u8>,
    /// Line kind letter, or zero.
    pub prefix: u8,
    /// `+` or `-` flag, or zero.
    pub flags: u8,
    /// `%>` appeared in this alternative: resume matching from here.
    pub conthere: bool,
}

/// What an [`EfmPart`] holds.
#[verifier::ext_equal]
pub struct EfmPartView {
    pub pattern: Seq<u8>,
    pub addr: Seq<u8>,
    pub prefix: u8,
    pub flags: u8,
    pub conthere: bool,
}

impl View for EfmPart {
    type V = EfmPartView;

    open spec fn view(&self) -> EfmPartView {
        EfmPartView {
            pattern: self.pattern@,
            addr: self.addr@,
            prefix: self.prefix,
            flags: self.flags,
            conthere: self.conthere,
        }
    }
}

/// How many fields have a capture group.
pub open spec fn groups(addr: Seq<u8>) -> nat
    decreases addr.len(),
{
    if addr.len() == 0 {
        0
    } else {
        groups(addr.drop_last()) + if addr.last() != 0 {
            1nat
        } else {
            0nat
        }
    }
}

/// The alternative before any of its pieces was read: `^` anchors, `\\c`
/// ignores case.
pub open spec fn unread_part() -> EfmPartView {
    EfmPartView {
        pattern: bytes_of("^\\c"),
        addr: Seq::new(14, |i: int| 0u8),
        prefix: 0,
        flags: 0,
        conthere: false,
    }
}

/// Whether field `index` may not stand in a line of kind `prefix`: the
/// directory and file kinds take no position fields, and `%r` needs a file
/// kind.
pub open spec fn is_misplaced(index: int, prefix: u8) -> bool {
    ||| index != 0 && index < FMT_PATTERN_R && (is_dir_kind(prefix) || is_file_kind(prefix))
    ||| index == FMT_PATTERN_R && !is_file_kind(prefix)
}

/// The alternative with one more piece read.
pub open spec fn absorbed(part: EfmPartView, token: Token) -> Result<EfmPartView, EfmErrorView> {
    match token {
        Token::Raw(text) => Ok(EfmPartView { pattern: part.pattern + text, ..part }),
        Token::Resume => Ok(EfmPartView { conthere: true, ..part }),
        Token::Prefix { flag, letter } => Ok(EfmPartView { flags: flag, prefix: letter, ..part }),
        Token::Field { c, index, body } => if part.addr[index] != 0 {
            Err(
                efm_error("E372"@, "Too many %"@.push(byte_char(c)) + " in format string"@),
            )
        } else if is_misplaced(index, part.prefix) {
            Err(
                efm_error("E373"@, "Unexpected %"@.push(byte_char(c)) + " in format string"@),
            )
        } else {
            Ok(
                EfmPartView {
                    pattern: part.pattern + bytes_of("\\(") + body + bytes_of("\\)"),
                    addr: part.addr.update(index, (groups(part.addr) + 1) as u8),
                    ..part
                },
            )
        },
    }
}

/// Every piece ends behind its start.
pub proof fn lemma_scan_advances(part: Seq<u8>, at: int)
    requires
        0 <= at < part.len(),
    ensures
        scan(part, at) is Piece ==> at < scan(part, at)->next <= part.len(),
{
    if part[at] == PERCENT && at + 1 < part.len() && part[at + 1] == STAR && at + 2 < part.len()
        && part[at + 2] == BRACKET_OPEN {
        lemma_class_end(part, at + 4);
        lemma_class_end(part, at + 5);
    }
}

proof fn lemma_class_end(part: Seq<u8>, at: int)
    ensures
        class_end(part, at) >= at,
    decreases part.len() - at,
{
    if at < part.len() && part[at] != BRACKET_CLOSE {
        lemma_class_end(part, at + 1);
    }
}

/// The alternative compiled from `at` on, `done` being what its start gave; the
/// first faulty piece decides the error.
pub open spec fn compiled_from(part: Seq<u8>, at: int, done: EfmPartView) -> Result<
    EfmPartView,
    EfmErrorView,
>
    decreases part.len() - at,
{
    if at < 0 || at >= part.len() {
        Ok(EfmPartView { pattern: done.pattern.push(DOLLAR), ..done })
    } else {
        match scan(part, at) {
            Scan::Bad(error) => Err(error),
            Scan::Piece { token, next } => match absorbed(done, token) {
                Err(error) => Err(error),
                Ok(more) => {
                    proof {
                        lemma_scan_advances(part, at);
                    }
                    compiled_from(part, next, more)
                },
            },
        }
    }
}

/// One alternative compiled.
pub open spec fn compiled_part(part: Seq<u8>) -> Result<EfmPartView, EfmErrorView> {
    compiled_from(part, 0, unread_part())
}

/// Reads a `%*` class; `at` is the place behind the star. Appends its pattern
/// and returns the place behind it.
fn push_scanf_class(part: &[u8], at: usize, pattern: &mut Vec<u8>) -> (next: Result<
    usize,
    EfmError,
>)
    requires
        at <= part@.len(),
    ensures
        match scan_class(part@, at as int) {
            Scan::Bad(error) => next is Err && next->Err_0@ == error,
            Scan::Piece { token, next: behind } => next is Ok && next->Ok_0 == behind
                && final(pattern)@ == old(pattern)@ + token->Raw_0 && behind <= part@.len(),
        },
{
    if at >= part.len() {
        return Err(EfmError::new("E375", "Unsupported %* in format string"));
    }
    let ghost before = pattern@;
    if part[at] == BRACKET_OPEN {
        let negated: bool = part.len() - at > 1 && part[at + 1] == CARET;
        let first: usize = if negated {
            at + 2
        } else {
            at + 1
        };
        if first >= part.len() {
            return Err(EfmError::new("E374", "Missing ] in format string"));
        }
        let mut close: usize = first + 1;
        while close < part.len() && part[close] != BRACKET_CLOSE
            invariant
                first < close <= part@.len(),
                class_end(part@, first + 1) == class_end(part@, close as int),
            decreases part@.len() - close,
        {
            close = close + 1;
        }
        if close >= part.len() {
            return Err(EfmError::new("E374", "Missing ] in format string"));
        }
        push_bytes(pattern, vstd::slice::slice_subrange(part, at, close + 1));
        push_text(pattern, "\\+");
        assert(pattern@ =~= before + (part@.subrange(at as int, close + 1) + bytes_of("\\+")));
        Ok(close + 1)
    } else if part[at] == BACKSLASH {
        let next: usize = if part.len() - at > 1 {
            at + 2
        } else {
            at + 1
        };
        push_bytes(pattern, vstd::slice::slice_subrange(part, at, next));
        push_text(pattern, "\\+");
        assert(pattern@ =~= before + (part@.subrange(at as int, next as int) + bytes_of("\\+")));
        Ok(next)
    } else {
        Err(EfmError::quoting("E375", "Unsupported %*", part[at], " in format string"))
    }
}

/// Emits one `%x` field as a capture group and records its group number.
/// `at` is the place of the conversion character.
fn push_field_group(part: &[u8], at: usize, index: usize, compiled: &mut EfmPart) -> (result: Result<
    (),
    EfmError,
>)
    requires
        at < part@.len(),
        index < FMT_PATTERNS,
        old(compiled).addr@.len() == FMT_PATTERNS,
    ensures
        match absorbed(
            old(compiled)@,
            Token::Field {
                c: part@[at as int],
                index: index as int,
                body: group_pattern(part@, at as int, index as int),
            },
        ) {
            Err(error) => result is Err && result->Err_0@ == error,
            Ok(more) => result is Ok && final(compiled)@ == more,
        },
{
    let c: u8 = part[at];
    if compiled.addr[index] != 0 {
        return Err(EfmError::quoting("E372", "Too many %", c, " in format string"));
    }
    let prefix: u8 = compiled.prefix;
    if (index != 0 && index < FMT_PATTERN_R && (dir_kind(prefix) || file_kind(prefix))) || (index
        == FMT_PATTERN_R && !file_kind(prefix)) {
        return Err(EfmError::quoting("E373", "Unexpected %", c, " in format string"));
    }
    let ghost before = compiled@;
    let mut used: u8 = 0;
    let mut next: usize = 0;
    while next < compiled.addr.len()
        invariant
            next <= compiled.addr@.len(),
            compiled.addr@.len() == FMT_PATTERNS,
            used <= next,
            used == groups(compiled.addr@.take(next as int)),
        decreases compiled.addr@.len() - next,
    {
        assert(compiled.addr@.take(next + 1).drop_last() =~= compiled.addr@.take(next as int));
        if compiled.addr[next] != 0 {
            used = used + 1;
        }
        next = next + 1;
    }
    assert(compiled.addr@.take(next as int) =~= compiled.addr@);
    compiled.addr.set(index, used + 1);
    push_text(&mut compiled.pattern, "\\(");
    push_group_pattern(&mut compiled.pattern, part, at, index);
    push_text(&mut compiled.pattern, "\\)");
    Ok(())
}

/// Converts one `'errorformat'` alternative to a pattern and records the `%x`
/// capture-group assignments.
fn compile_part(part: &[u8]) -> (result: Result<EfmPart, EfmError>)
    ensures
        match compiled_part(part@) {
            Err(error) => result is Err && result->Err_0@ == error,
            Ok(compiled) => result is Ok && result->Ok_0@ == compiled,
        },
{
    let mut compiled = EfmPart {
        pattern: Vec::new(),
        addr: vec![0u8; FMT_PATTERNS],
        prefix: 0,
        flags: 0,
        conthere: false,
    };
    push_text(&mut compiled.pattern, "^\\c");
    assert(compiled@.addr =~= unread_part().addr);
    assert(compiled@.pattern =~= unread_part().pattern);
    let mut at: usize = 0;
    while at < part.len()
        invariant
            at <= part@.len(),
            compiled.addr@.len() == FMT_PATTERNS,
            compiled_part(part@) == compiled_from(part@, at as int, compiled@),
        decreases part@.len() - at,
    {
        let ghost before = compiled@;
        let c: u8 = part[at];
        proof {
            lemma_scan_advances(part@, at as int);
        }
        if c != PERCENT {
            if c == BACKSLASH && part.len() - at > 1 {
                compiled.pattern.push(part[at + 1]);
                assert(compiled@.pattern =~= before.pattern + seq![part@[at + 1]]);
                at = at + 2;
            } else if c == DOT || c == STAR || c == CARET || c == DOLLAR || c == TILDE || c
                == BRACKET_OPEN {
                compiled.pattern.push(BACKSLASH);
                compiled.pattern.push(c);
                assert(compiled@.pattern =~= before.pattern + seq![BACKSLASH, c]);
                at = at + 1;
            } else {
                compiled.pattern.push(c);
                assert(compiled@.pattern =~= before.pattern + seq![c]);
                at = at + 1;
            }
            continue;
        }
        if part.len() - at <= 1 {
            return Err(EfmError::new("E377", "Invalid % in format string"));
        }
        let c: u8 = part[at + 1];
        if let Some(index) = find_field(c) {
            match push_field_group(part, at + 1, index, &mut compiled) {
                Ok(()) => {},
                Err(error) => {
                    return Err(error);
                },
            }
            at = at + 2;
        } else if c == STAR {
            match push_scanf_class(part, at + 2, &mut compiled.pattern) {
                Ok(next) => {
                    at = next;
                },
                Err(error) => {
                    return Err(error);
                },
            }
        } else if c == PERCENT || c == BACKSLASH || c == DOT || c == CARET || c == DOLLAR || c
            == TILDE || c == BRACKET_OPEN {
            compiled.pattern.push(c);
            assert(compiled@.pattern =~= before.pattern + seq![c]);
            at = at + 2;
        } else if c == HASH {
            compiled.pattern.push(STAR);
            assert(compiled@.pattern =~= before.pattern + seq![STAR]);
            at = at + 2;
        } else if c == GREATER {
            compiled.conthere = true;
            at = at + 2;
        } else if at == 0 {
            let flagged: bool = c == PLUS || c == MINUS;
            let letter_at: usize = if flagged {
                2
            } else {
                1
            };
            if letter_at >= part.len() {
                return Err(EfmError::new("E376", "Invalid % in format string prefix"));
            }
            let letter: u8 = part[letter_at];
            if !prefix_letter(letter) {
                return Err(
                    EfmError::quoting("E376", "Invalid %", letter, " in format string prefix"),
                );
            }
            compiled.flags = if flagged {
                c
            } else {
                0
            };
            compiled.prefix = letter;
            at = letter_at + 1;
        } else {
            return Err(EfmError::quoting("E377", "Invalid %", c, " in format string"));
        }
    }
    compiled.pattern.push(DOLLAR);
    Ok(compiled)
}

/// Where the alternative that starts at `at` ends: at the first comma that no
/// backslash quotes, or at the end.
pub open spec fn part_end(spec: Seq<u8>, at: int) -> int
    decreases spec.len() - at,
{
    if at >= spec.len() {
        spec.len() as int
    } else if spec[at] == COMMA {
        at
    } else if spec[at] == BACKSLASH && at + 1 < spec.len() {
        part_end(spec, at + 2)
    } else {
        part_end(spec, at + 1)
    }
}

/// The place behind the spaces at `at`.
pub open spec fn behind_spaces(spec: Seq<u8>, at: int) -> int
    decreases spec.len() - at,
{
    if 0 <= at < spec.len() && spec[at] == SPACE {
        behind_spaces(spec, at + 1)
    } else {
        at
    }
}

/// Where the alternative after the one that ends at `end` starts: behind the
/// comma and the spaces that follow it.
pub open spec fn part_start_after(spec: Seq<u8>, end: int) -> int {
    if end < spec.len() {
        behind_spaces(spec, end + 1)
    } else {
        behind_spaces(spec, end)
    }
}

/// The alternatives of an option value from `at` on.
pub open spec fn spec_parts(spec: Seq<u8>, at: int) -> Seq<Seq<u8>>
    decreases spec.len() - at,
{
    if at < 0 || at >= spec.len() {
        Seq::empty()
    } else {
        let end = part_end(spec, at);
        let next = part_start_after(spec, end);
        proof {
            lemma_part_end(spec, at);
            lemma_behind_spaces(spec, end);
            lemma_behind_spaces(spec, end + 1);
        }
        seq![spec.subrange(at, end)] + spec_parts(spec, next)
    }
}

pub proof fn lemma_part_end(spec: Seq<u8>, at: int)
    requires
        0 <= at,
    ensures
        at <= spec.len() ==> at <= part_end(spec, at) <= spec.len(),
        at < spec.len() && part_end(spec, at) == at ==> spec[at] == COMMA,
    decreases spec.len() - at,
{
    if at < spec.len() && spec[at] != COMMA {
        if spec[at] == BACKSLASH && at + 1 < spec.len() {
            lemma_part_end(spec, at + 2);
        } else {
            lemma_part_end(spec, at + 1);
        }
    }
}

pub proof fn lemma_behind_spaces(spec: Seq<u8>, at: int)
    ensures
        behind_spaces(spec, at) >= at,
        at <= spec.len() ==> behind_spaces(spec, at) <= spec.len(),
    decreases spec.len() - at,
{
    if 0 <= at < spec.len() && spec[at] == SPACE {
        lemma_behind_spaces(spec, at + 1);
    }
}

/// The alternatives of a whole option value, compiled; the first faulty one
/// decides the error.
pub open spec fn compiled_parts(parts: Seq<Seq<u8>>) -> Result<Seq<EfmPartView>, EfmErrorView>
    decreases parts.len(),
{
    if parts.len() == 0 {
        Ok(Seq::empty())
    } else {
        match compiled_parts(parts.drop_last()) {
            Err(error) => Err(error),
            Ok(before) => match compiled_part(parts.last()) {
                Err(error) => Err(error),
                Ok(part) => Ok(before.push(part)),
            },
        }
    }
}

/// What compiling an option value gives.
pub open spec fn compiled_format(spec: Seq<u8>) -> Result<Seq<EfmPartView>, EfmErrorView> {
    let parts = spec_parts(spec, 0);
    if parts.len() == 0 {
        Err(efm_error("E378"@, "'errorformat' contains no pattern"@))
    } else {
        compiled_parts(parts)
    }
}

/// A failure among the first alternatives stays the failure of them all.
proof fn lemma_first_failure_decides(parts: Seq<Seq<u8>>, k: int)
    requires
        0 <= k <= parts.len(),
        compiled_parts(parts.take(k)) is Err,
    ensures
        compiled_parts(parts) == compiled_parts(parts.take(k)),
    decreases parts.len() - k,
{
    if k < parts.len() {
        assert(parts.take(k + 1).drop_last() =~= parts.take(k));
        lemma_first_failure_decides(parts, k + 1);
    } else {
        assert(parts.take(k) =~= parts);
    }
}

/// A compiled `'errorformat'` option value.
#[derive(Debug, PartialEq, Eq)]
pub struct ErrorFormat {
    /// The alternatives in the order in which they are tried.
    pub parts: Vec<EfmPart>,
}

impl View for ErrorFormat {
    type V = Seq<EfmPartView>;

    open spec fn view(&self) -> Seq<EfmPartView> {
        self.parts@.map_values(|part: EfmPart| part@)
    }
}

impl ErrorFormat {
    /// Every alternative has a group number for each field.
    pub open spec fn wf(&self) -> bool {
        forall|i: int| 0 <= i < self.parts@.len() ==> (#[trigger] self.parts@[i]).addr@.len()
            == FMT_PATTERNS
    }

    /// Compiles one comma-separated `'errorformat'` list. The alternatives hold
    /// pattern texts: whoever matches lines with them still has to compile these,
    /// and a pattern that cannot be compiled is found then.
    ///
    /// # Errors
    ///
    /// E372 (duplicate `%x`), E373 (`%x` unexpected for the line kind),
    /// E374 (missing `]` in `%*[…]`), E375 (unsupported `%*x`),
    /// E376 (invalid line kind), E377 (invalid `%x`) or E378 (no pattern).
    pub fn compile(spec: &str) -> (result: Result<Self, EfmError>)
        ensures
            match compiled_format(bytes_of(spec)) {
                Err(error) => result is Err && result->Err_0@ == error,
                Ok(parts) => result is Ok && result->Ok_0@ == parts && result->Ok_0.wf(),
            },
    {
        let bytes = spec.as_bytes();
        let ghost all = spec_parts(bytes@, 0);
        let mut parts: Vec<EfmPart> = Vec::new();
        let mut at: usize = 0;
        assert(all.take(0) + spec_parts(bytes@, 0) =~= all);
        assert(parts@.map_values(|part: EfmPart| part@) =~= Seq::empty());
        while at < bytes.len()
            invariant
                bytes@ == bytes_of(spec),
                at <= bytes@.len(),
                all == spec_parts(bytes@, 0),
                parts@.len() <= all.len(),
                all == all.take(parts@.len() as int) + spec_parts(bytes@, at as int),
                compiled_parts(all.take(parts@.len() as int)) == Ok::<_, EfmErrorView>(
                    parts@.map_values(|part: EfmPart| part@),
                ),
                forall|i: int| 0 <= i < parts@.len() ==> (#[trigger] parts@[i]).addr@.len()
                    == FMT_PATTERNS,
            decreases bytes@.len() - at,
        {
            let start: usize = at;
            proof {
                lemma_part_end(bytes@, start as int);
            }
            while at < bytes.len() && bytes[at] != COMMA
                invariant
                    start <= at <= bytes@.len(),
                    part_end(bytes@, start as int) == part_end(bytes@, at as int),
                decreases bytes@.len() - at,
            {
                if bytes[at] == BACKSLASH && bytes.len() - at > 1 {
                    at = at + 1;
                }
                at = at + 1;
            }
            let part = vstd::slice::slice_subrange(bytes, start, at);
            let ghost n = parts@.len() as int;
            let ghost end = at as int;
            let ghost rest = spec_parts(bytes@, start as int);
            proof {
                assert(part_end(bytes@, start as int) == end);
                assert(rest[0] == part@);
                assert(all[n] == part@) by {
                    assert(all == all.take(n) + rest);
                    assert((all.take(n) + rest)[n] == rest[0]);
                }
                assert(all.take(n + 1).drop_last() =~= all.take(n));
            }
            match compile_part(part) {
                Ok(compiled) => {
                    let ghost before = parts@.map_values(|part: EfmPart| part@);
                    proof {
                        lemma_compiled_width(part@);
                    }
                    parts.push(compiled);
                    assert(parts@.map_values(|part: EfmPart| part@) =~= before.push(compiled@));
                },
                Err(error) => {
                    proof {
                        lemma_first_failure_decides(all, n + 1);
                    }
                    return Err(error);
                },
            }
            if at < bytes.len() {
                at = at + 1;
            }
            let ghost from = at as int;
            while at < bytes.len() && bytes[at] == SPACE
                invariant
                    from <= at <= bytes@.len(),
                    behind_spaces(bytes@, from) == behind_spaces(bytes@, at as int),
                decreases bytes@.len() - at,
            {
                at = at + 1;
            }
            proof {
                assert(part_start_after(bytes@, end) == at);
                assert(rest == seq![part@] + spec_parts(bytes@, at as int));
                assert(all.take(n) + rest =~= all.take(n + 1) + spec_parts(bytes@, at as int));
                assert(start < at) by {
                    lemma_behind_spaces(bytes@, end);
                    lemma_behind_spaces(bytes@, end + 1);
                }
            }
        }
        assert(all.take(parts@.len() as int) =~= all);
        if parts.len() == 0 {
            return Err(EfmError::new("E378", "'errorformat' contains no pattern"));
        }
        Ok(Self { parts })
    }
}

/// A compiled alternative has a group number for each field.
proof fn lemma_compiled_width(part: Seq<u8>)
    ensures
        compiled_part(part) is Ok ==> compiled_part(part)->Ok_0.addr.len() == FMT_PATTERNS,
{
    lemma_compiled_from_width(part, 0, unread_part());
}

proof fn lemma_compiled_from_width(part: Seq<u8>, at: int, done: EfmPartView)
    requires
        done.addr.len() == FMT_PATTERNS,
    ensures
        compiled_from(part, at, done) is Ok ==> compiled_from(part, at, done)->Ok_0.addr.len()
            == FMT_PATTERNS,
    decreases part.len() - at,
{
    if 0 <= at < part.len() {
        if let Scan::Piece { token, next } = scan(part, at) {
            if let Ok(more) = absorbed(done, token) {
                lemma_scan_advances(part, at);
                lemma_compiled_from_width(part, next, more);
            }
        }
    }
}

/// Every compiled pattern is anchored at both ends and ignores case.
pub proof fn law_patterns_are_anchored(part: Seq<u8>)
    ensures
        compiled_part(part) is Ok ==> bytes_of("^\\c").is_prefix_of(
            compiled_part(part)->Ok_0.pattern,
        ) && compiled_part(part)->Ok_0.pattern.last() == DOLLAR,
{
    lemma_pattern_grows(part, 0, unread_part());
}

proof fn lemma_pattern_grows(part: Seq<u8>, at: int, done: EfmPartView)
    ensures
        compiled_from(part, at, done) is Ok ==> done.pattern.is_prefix_of(
            compiled_from(part, at, done)->Ok_0.pattern,
        ) && compiled_from(part, at, done)->Ok_0.pattern.len() > 0 && compiled_from(
            part,
            at,
            done,
        )->Ok_0.pattern.last() == DOLLAR,
    decreases part.len() - at,
{
    if 0 <= at < part.len() {
        if let Scan::Piece { token, next } = scan(part, at) {
            if let Ok(more) = absorbed(done, token) {
                lemma_scan_advances(part, at);
                lemma_pattern_grows(part, next, more);
            }
        }
    }
}

/// An alternative that no comma ends takes the rest of the option value.
pub proof fn law_only_commas_end_alternatives(spec: Seq<u8>)
    requires
        spec.len() > 0,
        forall|i: int| 0 <= i < spec.len() ==> (#[trigger] spec[i]) != COMMA,
    ensures
        spec_parts(spec, 0) == seq![spec],
{
    lemma_no_comma(spec, 0);
    assert(spec.subrange(0, spec.len() as int) =~= spec);
    assert(spec_parts(spec, spec.len() as int) =~= Seq::empty());
    assert(seq![spec] + Seq::<Seq<u8>>::empty() =~= seq![spec]);
}

proof fn lemma_no_comma(spec: Seq<u8>, at: int)
    requires
        0 <= at <= spec.len(),
        forall|i: int| 0 <= i < spec.len() ==> (#[trigger] spec[i]) != COMMA,
    ensures
        part_end(spec, at) == spec.len(),
    decreases spec.len() - at,
{
    if at < spec.len() {
        if spec[at] == BACKSLASH && at + 1 < spec.len() {
            lemma_no_comma(spec, at + 2);
        } else {
            lemma_no_comma(spec, at + 1);
        }
    }
}

} // verus!
