//! Text as sequences of characters and bytes: splitting, trimming, numbers.

use vstd::prelude::*;
use vstd::slice::slice_subrange;

verus! {

/// `String::push`: std documents that it appends the given character to the
/// end of the string.
pub assume_specification[ std::string::String::push ](text: &mut std::string::String, c: char)
    ensures
        final(text)@ == old(text)@.push(c),
;

/// The characters of `text`.
pub fn chars_of(text: &str) -> (chars: Vec<char>)
    ensures
        chars@ == text@,
{
    let mut chars: Vec<char> = Vec::new();
    for c in iter: text.chars()
        invariant
            chars@ == iter.seq().take(iter.index() as int),
            iter.seq() == text@,
    {
        chars.push(c);
    }
    chars
}

/// A string of `chars`.
pub fn string_of(chars: &[char]) -> (text: String)
    ensures
        text@ == chars@,
{
    let mut text = String::new();
    let mut next: usize = 0;
    while next < chars.len()
        invariant
            next <= chars@.len(),
            text@ == chars@.take(next as int),
        decreases chars@.len() - next,
    {
        text.push(chars[next]);
        next = next + 1;
    }
    text
}

/// Whether two slices of characters are equal.
pub fn same_chars(one: &[char], other: &[char]) -> (same: bool)
    ensures
        same == (one@ == other@),
{
    if one.len() != other.len() {
        return false;
    }
    let mut next: usize = 0;
    while next < one.len()
        invariant
            one@.len() == other@.len(),
            next <= one@.len(),
            one@.take(next as int) == other@.take(next as int),
        decreases one@.len() - next,
    {
        if one[next] != other[next] {
            return false;
        }
        proof {
            assert(one@.take(next + 1) =~= one@.take(next as int).push(one@[next as int]));
            assert(other@.take(next + 1) =~= other@.take(next as int).push(other@[next as int]));
        }
        next = next + 1;
    }
    assert(one@.take(next as int) =~= one@);
    assert(other@.take(next as int) =~= other@);
    true
}

/// Whether two byte slices are equal.
pub fn same_bytes(one: &[u8], other: &[u8]) -> (same: bool)
    ensures
        same == (one@ == other@),
{
    if one.len() != other.len() {
        return false;
    }
    let mut next: usize = 0;
    while next < one.len()
        invariant
            one@.len() == other@.len(),
            next <= one@.len(),
            one@.take(next as int) == other@.take(next as int),
        decreases one@.len() - next,
    {
        if one[next] != other[next] {
            return false;
        }
        proof {
            assert(one@.take(next + 1) =~= one@.take(next as int).push(one@[next as int]));
            assert(other@.take(next + 1) =~= other@.take(next as int).push(other@[next as int]));
        }
        next = next + 1;
    }
    assert(one@.take(next as int) =~= one@);
    assert(other@.take(next as int) =~= other@);
    true
}

/// Whether `one` stands before `other` in the order of strings: at the first
/// place where they differ the character with the smaller number comes first,
/// and a text comes before those that it starts.
pub open spec fn sorts_before(one: Seq<char>, other: Seq<char>) -> bool
    decreases one.len(),
{
    if other.len() == 0 {
        false
    } else if one.len() == 0 {
        true
    } else if one[0] == other[0] {
        sorts_before(one.drop_first(), other.drop_first())
    } else {
        one[0] < other[0]
    }
}

/// Of two different texts one comes first.
pub proof fn lemma_sorts_total(one: Seq<char>, other: Seq<char>)
    ensures
        sorts_before(one, other) || sorts_before(other, one) || one == other,
        !(sorts_before(one, other) && sorts_before(other, one)),
        sorts_before(one, other) ==> one != other,
    decreases one.len(),
{
    if one.len() > 0 && other.len() > 0 && one[0] == other[0] {
        lemma_sorts_total(one.drop_first(), other.drop_first());
        assert(one =~= seq![one[0]] + one.drop_first());
        assert(other =~= seq![other[0]] + other.drop_first());
    } else if one.len() == 0 && other.len() == 0 {
        assert(one =~= other);
    }
}

/// The order of texts is transitive.
pub proof fn lemma_sorts_transitive(one: Seq<char>, mid: Seq<char>, other: Seq<char>)
    requires
        sorts_before(one, mid),
        sorts_before(mid, other),
    ensures
        sorts_before(one, other),
    decreases one.len(),
{
    if one.len() > 0 && one[0] == mid[0] && mid[0] == other[0] {
        lemma_sorts_transitive(one.drop_first(), mid.drop_first(), other.drop_first());
    }
}

/// Whether one text comes before another. See [`sorts_before`].
#[must_use]
pub fn comes_before(one: &[char], other: &[char]) -> (before: bool)
    ensures
        before == sorts_before(one@, other@),
{
    let mut next: usize = 0;
    assert(one@.skip(0) =~= one@);
    assert(other@.skip(0) =~= other@);
    while next < one.len() && next < other.len() && one[next] == other[next]
        invariant
            next <= one@.len(),
            next <= other@.len(),
            sorts_before(one@, other@) == sorts_before(
                one@.skip(next as int),
                other@.skip(next as int),
            ),
        decreases one@.len() - next,
    {
        assert(one@.skip(next as int).drop_first() =~= one@.skip(next + 1));
        assert(other@.skip(next as int).drop_first() =~= other@.skip(next + 1));
        next = next + 1;
    }
    if next >= other.len() {
        false
    } else if next >= one.len() {
        true
    } else {
        one[next] < other[next]
    }
}

/// Whether two texts hold the same characters.
pub fn same_text(one: &str, other: &str) -> (same: bool)
    ensures
        same == (one@ == other@),
{
    same_chars(chars_of(one).as_slice(), chars_of(other).as_slice())
}

/// Appends `tail` to `bytes`.
pub fn push_bytes(bytes: &mut Vec<u8>, tail: &[u8])
    ensures
        final(bytes)@ == old(bytes)@ + tail@,
{
    let mut next: usize = 0;
    while next < tail.len()
        invariant
            next <= tail@.len(),
            bytes@ == old(bytes)@ + tail@.take(next as int),
        decreases tail@.len() - next,
    {
        proof {
            assert(tail@.take(next + 1) =~= tail@.take(next as int).push(tail@[next as int]));
        }
        bytes.push(tail[next]);
        next = next + 1;
    }
    assert(tail@.take(next as int) =~= tail@);
}

/// A copy of `bytes`.
pub fn copy_bytes(bytes: &[u8]) -> (copy: Vec<u8>)
    ensures
        copy@ == bytes@,
{
    let mut copy: Vec<u8> = Vec::new();
    push_bytes(&mut copy, bytes);
    assert(copy@ =~= bytes@);
    copy
}

/// A character with the Unicode property `White_Space`.
pub open spec fn is_white_space(c: char) -> bool {
    ||| '\u{9}' <= c <= '\u{d}'
    ||| c == '\u{20}' || c == '\u{85}' || c == '\u{a0}' || c == '\u{1680}'
    ||| '\u{2000}' <= c <= '\u{200a}'
    ||| c == '\u{2028}' || c == '\u{2029}' || c == '\u{202f}' || c == '\u{205f}' || c == '\u{3000}'
}

fn white_space(c: char) -> (white: bool)
    ensures
        white == is_white_space(c),
{
    ('\u{9}' <= c && c <= '\u{d}') || c == '\u{20}' || c == '\u{85}' || c == '\u{a0}' || c
        == '\u{1680}' || ('\u{2000}' <= c && c <= '\u{200a}') || c == '\u{2028}' || c == '\u{2029}'
        || c == '\u{202f}' || c == '\u{205f}' || c == '\u{3000}'
}

/// `s` without the white space at its start.
pub open spec fn trimmed_start(s: Seq<char>) -> Seq<char>
    decreases s.len(),
{
    if s.len() > 0 && is_white_space(s[0]) {
        trimmed_start(s.drop_first())
    } else {
        s
    }
}

/// `s` without the white space at its end.
pub open spec fn trimmed_end(s: Seq<char>) -> Seq<char>
    decreases s.len(),
{
    if s.len() > 0 && is_white_space(s.last()) {
        trimmed_end(s.drop_last())
    } else {
        s
    }
}

/// `s` without the white space at both ends.
pub open spec fn trimmed(s: Seq<char>) -> Seq<char> {
    trimmed_end(trimmed_start(s))
}

/// Removes the white space at both ends.
pub fn trim(chars: &[char]) -> (rest: &[char])
    ensures
        rest@ == trimmed(chars@),
{
    let mut start: usize = 0;
    assert(chars@.skip(0) =~= chars@);
    while start < chars.len() && white_space(chars[start])
        invariant
            start <= chars@.len(),
            trimmed_start(chars@) == trimmed_start(chars@.skip(start as int)),
        decreases chars@.len() - start,
    {
        assert(chars@.skip(start as int).drop_first() =~= chars@.skip(start + 1));
        start = start + 1;
    }
    let ghost body = chars@.skip(start as int);
    assert(trimmed_start(chars@) == body);
    let mut end: usize = chars.len();
    assert(chars@.subrange(start as int, end as int) =~= body);
    while end > start && white_space(chars[end - 1])
        invariant
            start <= end <= chars@.len(),
            body == chars@.skip(start as int),
            trimmed_end(body) == trimmed_end(chars@.subrange(start as int, end as int)),
        decreases end,
    {
        assert(chars@.subrange(start as int, end as int).drop_last() =~= chars@.subrange(
            start as int,
            end - 1,
        ));
        end = end - 1;
    }
    slice_subrange(chars, start, end)
}

/// `s` cut at every `separator`.
pub open spec fn pieces(s: Seq<char>, separator: char) -> Seq<Seq<char>>
    decreases s.len(),
{
    if s.len() == 0 {
        seq![Seq::empty()]
    } else {
        let before = pieces(s.drop_last(), separator);
        if s.last() == separator {
            before.push(Seq::empty())
        } else {
            before.update(before.len() - 1, before.last().push(s.last()))
        }
    }
}

/// The views of the inner vectors.
pub open spec fn views<T>(rows: Seq<Vec<T>>) -> Seq<Seq<T>> {
    rows.map_values(|row: Vec<T>| row@)
}

/// Cuts `chars` at every `separator`.
pub fn split(chars: &[char], separator: char) -> (parts: Vec<Vec<char>>)
    ensures
        views(parts@) == pieces(chars@, separator),
        parts@.len() > 0,
{
    let mut parts: Vec<Vec<char>> = Vec::new();
    let mut piece: Vec<char> = Vec::new();
    let mut next: usize = 0;
    assert(views(parts@).push(piece@) =~= pieces(chars@.take(0), separator));
    while next < chars.len()
        invariant
            next <= chars@.len(),
            views(parts@).push(piece@) == pieces(chars@.take(next as int), separator),
        decreases chars@.len() - next,
    {
        let c = chars[next];
        let ghost so_far = views(parts@);
        let ghost open = piece@;
        proof {
            assert(chars@.take(next + 1).drop_last() =~= chars@.take(next as int));
        }
        if c == separator {
            parts.push(piece);
            piece = Vec::new();
            assert(views(parts@).push(piece@) =~= so_far.push(open).push(Seq::empty()));
        } else {
            piece.push(c);
            assert(views(parts@).push(piece@) =~= so_far.push(open).update(
                so_far.len() as int,
                open.push(c),
            ));
        }
        next = next + 1;
    }
    assert(chars@.take(next as int) =~= chars@);
    let ghost so_far = views(parts@);
    let ghost open = piece@;
    parts.push(piece);
    assert(views(parts@) =~= so_far.push(open));
    parts
}

/// The rows of `parts` with `separator` between them.
pub open spec fn joined(parts: Seq<Seq<char>>, separator: char) -> Seq<char>
    decreases parts.len(),
{
    if parts.len() == 0 {
        Seq::empty()
    } else if parts.len() == 1 {
        parts[0]
    } else {
        joined(parts.drop_last(), separator).push(separator) + parts.last()
    }
}

/// Joins `parts` with `separator` between them.
pub fn join(parts: &Vec<Vec<char>>, separator: char) -> (text: Vec<char>)
    ensures
        text@ == joined(views(parts@), separator),
{
    let mut text: Vec<char> = Vec::new();
    let mut next: usize = 0;
    while next < parts.len()
        invariant
            next <= parts@.len(),
            text@ == joined(views(parts@).take(next as int), separator),
        decreases parts@.len() - next,
    {
        let ghost with_next = views(parts@).take(next + 1);
        let ghost before = text@;
        assert(with_next.drop_last() =~= views(parts@).take(next as int));
        if next > 0 {
            text.push(separator);
        }
        let ghost head = text@;
        let part = &parts[next];
        let mut at: usize = 0;
        while at < part.len()
            invariant
                at <= part@.len(),
                text@ == head + part@.take(at as int),
            decreases part@.len() - at,
        {
            assert(part@.take(at + 1) =~= part@.take(at as int).push(part@[at as int]));
            text.push(part[at]);
            at = at + 1;
        }
        assert(part@.take(at as int) =~= part@);
        assert(with_next.last() == part@);
        assert(next == 0 ==> text@ =~= part@);
        next = next + 1;
    }
    assert(views(parts@).take(next as int) =~= views(parts@));
    text
}

/// Whether `s` starts with `prefix`.
pub open spec fn has_prefix(s: Seq<char>, prefix: Seq<char>) -> bool {
    prefix.len() <= s.len() && s.take(prefix.len() as int) == prefix
}

/// The rest of `chars` behind `prefix`, if it starts with it.
pub fn strip_prefix<'a>(chars: &'a [char], prefix: &str) -> (rest: Option<&'a [char]>)
    ensures
        rest is Some == has_prefix(chars@, prefix@),
        rest is Some ==> rest->0@ == chars@.skip(prefix@.len() as int),
{
    let wanted = chars_of(prefix);
    if wanted.len() > chars.len() {
        return None;
    }
    let head = slice_subrange(chars, 0, wanted.len());
    assert(head@ =~= chars@.take(prefix@.len() as int));
    if same_chars(head, wanted.as_slice()) {
        let rest = slice_subrange(chars, wanted.len(), chars.len());
        assert(rest@ =~= chars@.skip(prefix@.len() as int));
        Some(rest)
    } else {
        None
    }
}

/// Whether `c` is a decimal digit.
pub open spec fn is_digit(c: char) -> bool {
    '0' <= c <= '9'
}

/// The value of the decimal digit `c`.
pub open spec fn digit_value(c: char) -> nat {
    (c as nat - '0' as nat) as nat
}

/// The number that the decimal digits `s` spell.
pub open spec fn decimal(s: Seq<char>) -> nat
    decreases s.len(),
{
    if s.len() == 0 {
        0
    } else {
        decimal(s.drop_last()) * 10 + digit_value(s.last())
    }
}

/// Whether `s` is one or more decimal digits.
pub open spec fn is_number(s: Seq<char>) -> bool {
    s.len() > 0 && forall|i: int| 0 <= i < s.len() ==> is_digit(#[trigger] s[i])
}

/// What is left of `s` behind an optional plus sign.
pub open spec fn unsigned_digits(s: Seq<char>) -> Seq<char> {
    if s.len() > 0 && s[0] == '+' {
        s.drop_first()
    } else {
        s
    }
}

/// The unsigned number that `s` spells: digits behind an optional plus sign,
/// within the machine range.
pub open spec fn parsed_usize(s: Seq<char>) -> Option<usize> {
    let digits = unsigned_digits(s);
    if is_number(digits) && decimal(digits) <= usize::MAX {
        Some(decimal(digits) as usize)
    } else {
        None
    }
}

/// A longer run of digits spells no smaller number.
proof fn lemma_decimal_grows(s: Seq<char>, k: int)
    requires
        0 <= k <= s.len(),
    ensures
        decimal(s.take(k)) <= decimal(s),
    decreases s.len() - k,
{
    if k < s.len() {
        lemma_decimal_grows(s, k + 1);
        assert(s.take(k + 1).drop_last() =~= s.take(k));
    } else {
        assert(s.take(k) =~= s);
    }
}

/// Reads an unsigned number.
pub fn parse_usize(chars: &[char]) -> (value: Option<usize>)
    ensures
        value == parsed_usize(chars@),
{
    let digits = if chars.len() > 0 && chars[0] == '+' {
        let digits = slice_subrange(chars, 1, chars.len());
        assert(digits@ =~= chars@.drop_first());
        digits
    } else {
        chars
    };
    if digits.len() == 0 {
        return None;
    }
    let mut value: usize = 0;
    let mut next: usize = 0;
    while next < digits.len()
        invariant
            next <= digits@.len(),
            digits@ == unsigned_digits(chars@),
            forall|i: int| 0 <= i < next ==> is_digit(#[trigger] digits@[i]),
            value == decimal(digits@.take(next as int)),
        decreases digits@.len() - next,
    {
        let c = digits[next];
        if !(c >= '0' && c <= '9') {
            assert(!is_digit(digits@[next as int]));
            return None;
        }
        let digit: usize = c as usize - '0' as usize;
        proof {
            assert(digits@.take(next + 1).drop_last() =~= digits@.take(next as int));
            assert(decimal(digits@.take(next + 1)) == value * 10 + digit);
            lemma_decimal_grows(digits@, next + 1);
        }
        value = match value.checked_mul(10) {
            Some(tens) => match tens.checked_add(digit) {
                Some(sum) => sum,
                None => {
                    return None;
                },
            },
            None => {
                return None;
            },
        };
        next = next + 1;
    }
    assert(digits@.take(next as int) =~= digits@);
    Some(value)
}

/// The decimal spelling of `n`.
pub open spec fn decimal_text(n: nat) -> Seq<char>
    decreases n,
{
    let last = ((n % 10) + '0' as nat) as char;
    if n < 10 {
        seq![last]
    } else {
        decimal_text(n / 10).push(last)
    }
}

/// Spells `n` in decimal.
pub fn number_chars(n: u64) -> (chars: Vec<char>)
    ensures
        chars@ == decimal_text(n as nat),
    decreases n,
{
    let last: char = ((n % 10) as u8 + 48) as char;
    if n < 10 {
        let mut chars: Vec<char> = Vec::new();
        chars.push(last);
        assert(chars@ =~= seq![last]);
        chars
    } else {
        let mut chars = number_chars(n / 10);
        chars.push(last);
        chars
    }
}

/// The decimal spelling of `n` with its sign.
pub open spec fn signed_text(n: int) -> Seq<char> {
    if n < 0 {
        seq!['-'] + decimal_text((-n) as nat)
    } else {
        decimal_text(n as nat)
    }
}

/// Spells `n` in decimal with its sign.
pub fn signed_string(n: i64) -> (text: String)
    ensures
        text@ == signed_text(n as int),
{
    if n < 0 {
        let size: u64 = (-(n + 1)) as u64 + 1;
        let digits = string_of(number_chars(size).as_slice());
        let mut text = String::new();
        text.push('-');
        text.append(digits.as_str());
        assert(text@ =~= seq!['-'] + digits@);
        text
    } else {
        string_of(number_chars(n as u64).as_slice())
    }
}

/// The text between two byte offsets of `line`; empty unless both are within it,
/// in order, and between characters.
pub open spec fn byte_slice(line: Seq<char>, start: int, end: int) -> Seq<char> {
    let bytes = vstd::utf8::encode_utf8(line);
    if 0 <= start <= end <= bytes.len() && vstd::utf8::is_char_boundary(bytes, start)
        && vstd::utf8::is_char_boundary(bytes, end) {
        vstd::utf8::decode_utf8(bytes.subrange(start, end))
    } else {
        Seq::empty()
    }
}

/// Cuts the text between two byte offsets out of `line`.
pub fn slice_text(line: &str, start: usize, end: usize) -> (part: String)
    ensures
        part@ == byte_slice(line@, start as int, end as int),
{
    let ghost bytes = vstd::utf8::encode_utf8(line@);
    let length: usize = line.as_bytes().len();
    if start > end || end > length || !line.is_char_boundary(start) || !line.is_char_boundary(end) {
        return String::new();
    }
    let (head, _) = line.split_at(end);
    proof {
        vstd::utf8::encode_utf8_valid_utf8(line@);
        lemma_boundary_in_head(bytes, start as int, end as int);
    }
    let (_, part) = head.split_at(start);
    proof {
        assert(vstd::utf8::encode_utf8(part@) =~= bytes.subrange(start as int, end as int));
        vstd::utf8::encode_utf8_decode_utf8(part@);
    }
    part.to_owned()
}

/// A place between characters is one in every longer or equal head of the text.
proof fn lemma_boundary_in_head(bytes: Seq<u8>, start: int, end: int)
    requires
        vstd::utf8::valid_utf8(bytes),
        0 <= start <= end <= bytes.len(),
        vstd::utf8::is_char_boundary(bytes, start),
        vstd::utf8::is_char_boundary(bytes, end),
    ensures
        vstd::utf8::is_char_boundary(bytes.subrange(0, end), start),
{
    let head = bytes.subrange(0, end);
    vstd::utf8::valid_utf8_split(bytes, end);
    vstd::utf8::is_char_boundary_start_end_of_seq(head);
    if start < end && start > 0 {
        vstd::utf8::is_char_boundary_iff_not_is_continuation_byte(bytes, start);
        vstd::utf8::is_char_boundary_iff_not_is_continuation_byte(head, start);
        assert(head[start] == bytes[start]);
    }
}

/// What `String::from_utf8_lossy` makes of some bytes.
pub uninterp spec fn lossy_text(bytes: Seq<u8>) -> Seq<char>;

/// `String::from_utf8_lossy`: std documents that valid UTF-8 is taken over as
/// it is and that anything else is replaced by U+FFFD. Which bytes one
/// replacement stands for is left to the name.
#[verifier::external_body]
pub(crate) fn lossy(bytes: &[u8]) -> (text: String)
    ensures
        text@ == lossy_text(bytes@),
        vstd::utf8::valid_utf8(bytes@) ==> text@ == vstd::utf8::decode_utf8(bytes@),
{
    String::from_utf8_lossy(bytes).into_owned()
}

} // verus!
