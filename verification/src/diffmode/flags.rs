//! The `'diffopt'` flags, what lines are compared by, and `'scrollopt'`.

use vstd::prelude::*;

use crate::text::{chars_of, copy_bytes, join, parse_usize, same_chars, split, string_of, strip_prefix, trim};

verus! {

/// Context lines shown around a change unless `'diffopt'` says otherwise.
pub const DEFAULT_CONTEXT: usize = 6;

/// Fold column of a diff window unless `'diffopt'` says otherwise.
pub const DEFAULT_FOLDCOLUMN: usize = 2;

/// The widest fold column.
pub const MAX_FOLDCOLUMN: usize = 9;

/// The `'diffopt'` flags that diff mode reads.
#[derive(Clone, Copy, Debug, PartialEq, Eq, Structural)]
pub struct DiffOpts {
    /// Lines shown around a change; at least one.
    pub context: usize,
    /// Fold column of a diff window.
    pub foldcolumn: usize,
    /// `'wrap'` is left alone.
    pub followwrap: bool,
    /// Case is ignored.
    pub icase: bool,
    /// White space is ignored.
    pub iwhite: bool,
    /// White space at the end of a line is ignored.
    pub iwhiteeol: bool,
}

/// The flags of an empty `'diffopt'`.
pub open spec fn no_flags() -> DiffOpts {
    DiffOpts {
        context: DEFAULT_CONTEXT,
        foldcolumn: DEFAULT_FOLDCOLUMN,
        followwrap: false,
        icase: false,
        iwhite: false,
        iwhiteeol: false,
    }
}

/// A number behind a flag's colon, or the default when it is none.
pub open spec fn flag_number(item: Seq<char>, name: Seq<char>, default: usize) -> usize {
    match crate::text::parsed_usize(crate::text::trimmed(item.skip(name.len() as int))) {
        Some(number) => number,
        None => default,
    }
}

/// The flags with one more item of `'diffopt'`, white space around it cut off.
/// An unknown item changes nothing.
pub open spec fn with_flag(opts: DiffOpts, item: Seq<char>) -> DiffOpts {
    if crate::text::has_prefix(item, "context:"@) {
        let number = flag_number(item, "context:"@, DEFAULT_CONTEXT);
        DiffOpts { context: crate::splice::larger(number as int, 1) as usize, ..opts }
    } else if crate::text::has_prefix(item, "foldcolumn:"@) {
        let number = flag_number(item, "foldcolumn:"@, DEFAULT_FOLDCOLUMN);
        DiffOpts {
            foldcolumn: crate::splice::smaller(number as int, MAX_FOLDCOLUMN as int) as usize,
            ..opts
        }
    } else if item == "followwrap"@ {
        DiffOpts { followwrap: true, ..opts }
    } else if item == "icase"@ {
        DiffOpts { icase: true, ..opts }
    } else if item == "iwhite"@ || item == "iwhiteall"@ {
        DiffOpts { iwhite: true, ..opts }
    } else if item == "iwhiteeol"@ {
        DiffOpts { iwhiteeol: true, ..opts }
    } else {
        opts
    }
}

/// The flags that the items set, later ones winning.
pub open spec fn flags_of(items: Seq<Seq<char>>) -> DiffOpts
    decreases items.len(),
{
    if items.len() == 0 {
        no_flags()
    } else {
        with_flag(flags_of(items.drop_last()), crate::text::trimmed(items.last()))
    }
}

/// The flags of a `'diffopt'` value: comma-separated items.
pub open spec fn diff_flags(diffopt: Seq<char>) -> DiffOpts {
    flags_of(crate::text::pieces(diffopt, ','))
}

fn is_flag(item: &[char], name: &str) -> (is: bool)
    ensures
        is == (item@ == name@),
{
    same_chars(item, chars_of(name).as_slice())
}

fn number_or(chars: &[char], default: usize) -> (number: usize)
    ensures
        number == match crate::text::parsed_usize(crate::text::trimmed(chars@)) {
            Some(number) => number,
            None => default,
        },
{
    match parse_usize(trim(chars)) {
        Some(number) => number,
        None => default,
    }
}

impl DiffOpts {
    /// Adds one item of `'diffopt'`.
    fn set_flag(&mut self, item: &[char])
        ensures
            *final(self) == with_flag(*old(self), item@),
    {
        if let Some(rest) = strip_prefix(item, "context:") {
            let number: usize = number_or(rest, DEFAULT_CONTEXT);
            self.context = if number >= 1 {
                number
            } else {
                1
            };
        } else if let Some(rest) = strip_prefix(item, "foldcolumn:") {
            let number: usize = number_or(rest, DEFAULT_FOLDCOLUMN);
            self.foldcolumn = if number <= MAX_FOLDCOLUMN {
                number
            } else {
                MAX_FOLDCOLUMN
            };
        } else if is_flag(item, "followwrap") {
            self.followwrap = true;
        } else if is_flag(item, "icase") {
            self.icase = true;
        } else if is_flag(item, "iwhite") || is_flag(item, "iwhiteall") {
            self.iwhite = true;
        } else if is_flag(item, "iwhiteeol") {
            self.iwhiteeol = true;
        }
    }

    /// Reads the flags of a `'diffopt'` value.
    #[must_use]
    pub fn read(diffopt: &str) -> (opts: DiffOpts)
        ensures
            opts == diff_flags(diffopt@),
    {
        let chars = chars_of(diffopt);
        let items = split(chars.as_slice(), ',');
        let ghost pieces = crate::text::pieces(diffopt@, ',');
        let mut opts = DiffOpts {
            context: DEFAULT_CONTEXT,
            foldcolumn: DEFAULT_FOLDCOLUMN,
            followwrap: false,
            icase: false,
            iwhite: false,
            iwhiteeol: false,
        };
        let mut next: usize = 0;
        while next < items.len()
            invariant
                next <= items@.len(),
                crate::text::views(items@) == pieces,
                opts == flags_of(pieces.take(next as int)),
            decreases items@.len() - next,
        {
            proof {
                let here = pieces.take(next + 1);
                assert(here.drop_last() =~= pieces.take(next as int));
                assert(here.last() == items@[next as int]@);
            }
            opts.set_flag(trim(items[next].as_slice()));
            next = next + 1;
        }
        assert(pieces.take(next as int) =~= pieces);
        opts
    }
}

/// Whether `byte` is ASCII white space: a space, a tab, a newline, a form feed
/// or a carriage return.
pub open spec fn is_ascii_white(byte: u8) -> bool {
    byte == 0x20 || byte == 0x09 || byte == 0x0a || byte == 0x0c || byte == 0x0d
}

fn ascii_white(byte: u8) -> (white: bool)
    ensures
        white == is_ascii_white(byte),
{
    byte == 0x20 || byte == 0x09 || byte == 0x0a || byte == 0x0c || byte == 0x0d
}

/// A line without the white space at its end.
pub open spec fn without_trailing_white(line: Seq<u8>) -> Seq<u8>
    decreases line.len(),
{
    if line.len() > 0 && is_ascii_white(line.last()) {
        without_trailing_white(line.drop_last())
    } else {
        line
    }
}

/// An ASCII capital as its small letter; any other byte as it is.
pub open spec fn lower(byte: u8) -> u8 {
    if 0x41 <= byte <= 0x5a {
        (byte + 0x20) as u8
    } else {
        byte
    }
}

/// What a line is compared by: white space and case are normalised as the
/// flags ask.
pub open spec fn comparison_key(line: Seq<u8>, opts: DiffOpts) -> Seq<u8> {
    let ended = if opts.iwhiteeol {
        without_trailing_white(line)
    } else {
        line
    };
    let packed = if opts.iwhite {
        ended.filter(|byte: u8| !is_ascii_white(byte))
    } else {
        ended
    };
    if opts.icase {
        packed.map_values(|byte: u8| lower(byte))
    } else {
        packed
    }
}

fn pop_trailing_white(key: &mut Vec<u8>)
    ensures
        final(key)@ == without_trailing_white(old(key)@),
{
    while key.len() > 0 && ascii_white(key[key.len() - 1])
        invariant
            without_trailing_white(key@) == without_trailing_white(old(key)@),
        decreases key@.len(),
    {
        let _ = key.pop();
    }
}

fn pack(key: &Vec<u8>) -> (packed: Vec<u8>)
    ensures
        packed@ == key@.filter(|byte: u8| !is_ascii_white(byte)),
{
    let ghost keep = |byte: u8| !is_ascii_white(byte);
    let mut packed: Vec<u8> = Vec::new();
    let mut next: usize = 0;
    proof {
        reveal(Seq::filter);
    }
    while next < key.len()
        invariant
            next <= key@.len(),
            keep == (|byte: u8| !is_ascii_white(byte)),
            packed@ == key@.take(next as int).filter(keep),
        decreases key@.len() - next,
    {
        proof {
            reveal(Seq::filter);
            assert(key@.take(next + 1).drop_last() =~= key@.take(next as int));
        }
        if !ascii_white(key[next]) {
            packed.push(key[next]);
        }
        next = next + 1;
    }
    assert(key@.take(next as int) =~= key@);
    packed
}

fn lower_all(key: &mut Vec<u8>)
    ensures
        final(key)@ == old(key)@.map_values(|byte: u8| lower(byte)),
{
    let mut next: usize = 0;
    while next < key.len()
        invariant
            next <= key@.len(),
            key@.len() == old(key)@.len(),
            forall|i: int| 0 <= i < next ==> #[trigger] key@[i] == lower(old(key)@[i]),
            forall|i: int| next <= i < key@.len() ==> #[trigger] key@[i] == old(key)@[i],
        decreases key@.len() - next,
    {
        let byte: u8 = key[next];
        if 0x41 <= byte && byte <= 0x5a {
            key.set(next, byte + 0x20);
        }
        next = next + 1;
    }
    assert(key@ =~= old(key)@.map_values(|byte: u8| lower(byte)));
}

/// What a line is compared by.
#[must_use]
pub fn compare_key(line: &[u8], opts: DiffOpts) -> (key: Vec<u8>)
    ensures
        key@ == comparison_key(line@, opts),
{
    let mut key = copy_bytes(line);
    if opts.iwhiteeol {
        pop_trailing_white(&mut key);
    }
    if opts.iwhite {
        key = pack(&key);
    }
    if opts.icase {
        lower_all(&mut key);
    }
    key
}

/// A `'scrollopt'` value with horizontal scrolling: "hor" is added unless an
/// `h` is there already.
pub open spec fn with_hor(scrollopt: Seq<char>) -> Seq<char> {
    if scrollopt.contains('h') {
        scrollopt
    } else if scrollopt.len() == 0 {
        "hor"@
    } else {
        scrollopt + ",hor"@
    }
}

/// A `'scrollopt'` value without the items that hold an `h`.
pub open spec fn without_hor(scrollopt: Seq<char>) -> Seq<char> {
    crate::text::joined(
        crate::text::pieces(scrollopt, ',').filter(|item: Seq<char>| !item.contains('h')),
        ',',
    )
}

fn holds_h(chars: &[char]) -> (holds: bool)
    ensures
        holds == chars@.contains('h'),
{
    let mut next: usize = 0;
    while next < chars.len()
        invariant
            next <= chars@.len(),
            forall|i: int| 0 <= i < next ==> #[trigger] chars@[i] != 'h',
        decreases chars@.len() - next,
    {
        if chars[next] == 'h' {
            assert(chars@[next as int] == 'h');
            return true;
        }
        next = next + 1;
    }
    false
}

/// Adds "hor" to a `'scrollopt'` value.
#[must_use]
pub fn add_scrollopt_hor(scrollopt: &str) -> (value: String)
    ensures
        value@ == with_hor(scrollopt@),
{
    let chars = chars_of(scrollopt);
    if holds_h(chars.as_slice()) {
        return string_of(chars.as_slice());
    }
    if chars.len() == 0 {
        return "hor".to_owned();
    }
    let mut value = string_of(chars.as_slice());
    value.append(",hor");
    value
}

/// Removes the items with an `h` from a `'scrollopt'` value.
#[must_use]
pub fn remove_scrollopt_hor(scrollopt: &str) -> (value: String)
    ensures
        value@ == without_hor(scrollopt@),
{
    let chars = chars_of(scrollopt);
    let items = split(chars.as_slice(), ',');
    let ghost pieces = crate::text::pieces(scrollopt@, ',');
    let ghost keep = |item: Seq<char>| !item.contains('h');
    let mut kept: Vec<Vec<char>> = Vec::new();
    let mut next: usize = 0;
    proof {
        reveal(Seq::filter);
        assert(crate::text::views(kept@) =~= pieces.take(0).filter(keep));
    }
    while next < items.len()
        invariant
            next <= items@.len(),
            keep == (|item: Seq<char>| !item.contains('h')),
            crate::text::views(items@) == pieces,
            crate::text::views(kept@) == pieces.take(next as int).filter(keep),
        decreases items@.len() - next,
    {
        proof {
            reveal(Seq::filter);
            assert(pieces.take(next + 1).drop_last() =~= pieces.take(next as int));
            assert(pieces.take(next + 1).last() == items@[next as int]@);
        }
        if !holds_h(items[next].as_slice()) {
            let item = chars_of(string_of(items[next].as_slice()).as_str());
            let ghost so_far = crate::text::views(kept@);
            let ghost added = item@;
            kept.push(item);
            assert(crate::text::views(kept@) =~= so_far.push(added));
        }
        next = next + 1;
    }
    assert(pieces.take(next as int) =~= pieces);
    string_of(join(&kept, ',').as_slice())
}

/// Cutting a text and joining the pieces again gives the text.
proof fn lemma_joined_pieces(s: Seq<char>, separator: char)
    ensures
        crate::text::joined(crate::text::pieces(s, separator), separator) == s,
        crate::text::pieces(s, separator).len() > 0,
    decreases s.len(),
{
    let parts = crate::text::pieces(s, separator);
    if s.len() > 0 {
        let head = s.drop_last();
        lemma_joined_pieces(head, separator);
        let before = crate::text::pieces(head, separator);
        if s.last() == separator {
            assert(parts.drop_last() =~= before);
            assert(crate::text::joined(parts, separator) =~= s);
        } else {
            assert(parts.drop_last() =~= before.drop_last());
            assert(parts.last() == before.last().push(s.last()));
            if before.len() == 1 {
                assert(crate::text::joined(parts, separator) =~= s);
            } else {
                assert(crate::text::joined(parts, separator) =~= crate::text::joined(
                    before,
                    separator,
                ).push(s.last()));
                assert(s =~= head.push(s.last()));
            }
        }
    } else {
        assert(crate::text::joined(parts, separator) =~= s);
    }
}

/// The pieces of a text without an `h` hold none.
proof fn lemma_pieces_hold_no_h(s: Seq<char>)
    requires
        !s.contains('h'),
    ensures
        forall|i: int|
            0 <= i < crate::text::pieces(s, ',').len() ==> !(#[trigger] crate::text::pieces(
                s,
                ',',
            )[i]).contains('h'),
    decreases s.len(),
{
    if s.len() > 0 {
        let head = s.drop_last();
        assert forall|i: int| 0 <= i < head.len() implies head[i] != 'h' by {
            assert(s[i] == head[i]);
        }
        lemma_pieces_hold_no_h(head);
        assert(s.last() == s[s.len() - 1]);
        lemma_joined_pieces(head, ',');
        let before = crate::text::pieces(head, ',');
        let grown = before.last().push(s.last());
        assert(!grown.contains('h')) by {
            if grown.contains('h') {
                let k = choose|k: int| 0 <= k < grown.len() && grown[k] == 'h';
                assert(before.last()[k] == 'h');
            }
        }
    }
}

/// All items are kept when none is dropped.
proof fn lemma_filter_all(items: Seq<Seq<char>>)
    requires
        forall|i: int| 0 <= i < items.len() ==> !(#[trigger] items[i]).contains('h'),
    ensures
        items.filter(|item: Seq<char>| !item.contains('h')) == items,
    decreases items.len(),
{
    reveal(Seq::filter);
    if items.len() > 0 {
        assert forall|i: int| 0 <= i < items.drop_last().len() implies !(
        #[trigger] items.drop_last()[i]).contains('h') by {
            assert(items[i] == items.drop_last()[i]);
        }
        lemma_filter_all(items.drop_last());
        assert(items.drop_last().push(items.last()) =~= items);
    }
}

/// A `'scrollopt'` value without horizontal scrolling is back when "hor" was
/// added and removed again, and removing it from such a value changes nothing.
pub proof fn law_hor_comes_and_goes(scrollopt: Seq<char>)
    requires
        !scrollopt.contains('h'),
    ensures
        with_hor(scrollopt).contains('h'),
        without_hor(with_hor(scrollopt)) == scrollopt,
        without_hor(scrollopt) == scrollopt,
{
    let keep = |item: Seq<char>| !item.contains('h');
    let own = crate::text::pieces(scrollopt, ',');
    reveal_strlit("hor");
    reveal_strlit(",hor");
    lemma_joined_pieces(scrollopt, ',');
    lemma_pieces_hold_no_h(scrollopt);
    lemma_filter_all(own);
    assert(with_hor(scrollopt).contains('h')) by {
        if scrollopt.len() == 0 {
            assert("hor"@[0] == 'h');
        } else {
            assert((scrollopt + ",hor"@)[scrollopt.len() as int + 1] == 'h');
        }
    }
    let s0 = if scrollopt.len() == 0 {
        Seq::<char>::empty()
    } else {
        scrollopt.push(',')
    };
    let s1 = s0.push('h');
    let s2 = s1.push('o');
    let s3 = s2.push('r');
    assert(with_hor(scrollopt) =~= s3);
    assert(s3.drop_last() =~= s2);
    assert(s2.drop_last() =~= s1);
    assert(s1.drop_last() =~= s0);
    reveal_with_fuel(crate::text::pieces, 2);
    if scrollopt.len() > 0 {
        assert(s0.drop_last() =~= scrollopt);
    } else {
        assert(own =~= seq![Seq::<char>::empty()]);
    }
    let kept = if scrollopt.len() == 0 {
        Seq::<Seq<char>>::empty()
    } else {
        own
    };
    assert(crate::text::pieces(s0, ',') =~= kept.push(Seq::empty()));
    assert(crate::text::pieces(s1, ',') =~= kept.push(Seq::<char>::empty().push('h')));
    assert(crate::text::pieces(s2, ',') =~= kept.push(Seq::<char>::empty().push('h').push('o')));
    let hor = Seq::<char>::empty().push('h').push('o').push('r');
    assert(crate::text::pieces(s3, ',') =~= kept.push(hor));
    assert(hor[0] == 'h');
    assert(hor.contains('h'));
    reveal(Seq::filter);
    assert(kept.push(hor).drop_last() =~= kept);
    assert(kept.push(hor).filter(keep) == kept.filter(keep));
    if scrollopt.len() == 0 {
        assert(kept.filter(keep) =~= kept);
        assert(scrollopt =~= Seq::empty());
    }
}

/// Lines that are equal but for case.
pub open spec fn same_but_case(one: Seq<u8>, other: Seq<u8>) -> bool {
    one.map_values(|byte: u8| lower(byte)) == other.map_values(|byte: u8| lower(byte))
}

proof fn lemma_same_but_case(one: Seq<u8>, other: Seq<u8>, i: int)
    requires
        same_but_case(one, other),
        0 <= i < one.len(),
    ensures
        one.len() == other.len(),
        lower(one[i]) == lower(other[i]),
        is_ascii_white(one[i]) == is_ascii_white(other[i]),
{
    let one_lower = one.map_values(|byte: u8| lower(byte));
    let other_lower = other.map_values(|byte: u8| lower(byte));
    assert(one_lower.len() == other_lower.len());
    assert(one_lower[i] == other_lower[i]);
}

proof fn lemma_heads_same_but_case(one: Seq<u8>, other: Seq<u8>)
    requires
        same_but_case(one, other),
        one.len() > 0,
    ensures
        other.len() == one.len(),
        same_but_case(one.drop_last(), other.drop_last()),
        lower(one.last()) == lower(other.last()),
        is_ascii_white(one.last()) == is_ascii_white(other.last()),
{
    lemma_same_but_case(one, other, one.len() - 1);
    assert forall|i: int| 0 <= i < one.len() - 1 implies lower(one[i]) == lower(other[i]) by {
        lemma_same_but_case(one, other, i);
    }
    assert(one.drop_last().map_values(|byte: u8| lower(byte)) =~= other.drop_last().map_values(
        |byte: u8| lower(byte),
    ));
}

proof fn lemma_ends_same_but_case(one: Seq<u8>, other: Seq<u8>)
    requires
        same_but_case(one, other),
    ensures
        same_but_case(without_trailing_white(one), without_trailing_white(other)),
    decreases one.len(),
{
    assert(one.map_values(|byte: u8| lower(byte)).len() == one.len());
    assert(other.map_values(|byte: u8| lower(byte)).len() == other.len());
    if one.len() > 0 {
        lemma_heads_same_but_case(one, other);
        lemma_ends_same_but_case(one.drop_last(), other.drop_last());
    }
}

proof fn lemma_packs_same_but_case(one: Seq<u8>, other: Seq<u8>)
    requires
        same_but_case(one, other),
    ensures
        same_but_case(
            one.filter(|byte: u8| !is_ascii_white(byte)),
            other.filter(|byte: u8| !is_ascii_white(byte)),
        ),
    decreases one.len(),
{
    let keep = |byte: u8| !is_ascii_white(byte);
    reveal(Seq::filter);
    assert(one.map_values(|byte: u8| lower(byte)).len() == one.len());
    assert(other.map_values(|byte: u8| lower(byte)).len() == other.len());
    if one.len() > 0 {
        lemma_heads_same_but_case(one, other);
        lemma_packs_same_but_case(one.drop_last(), other.drop_last());
        let a = one.drop_last().filter(keep);
        let b = other.drop_last().filter(keep);
        let f = |byte: u8| lower(byte);
        if keep(one.last()) {
            assert(a.push(one.last()).map_values(f) =~= a.map_values(f).push(f(one.last())));
            assert(b.push(other.last()).map_values(f) =~= b.map_values(f).push(f(other.last())));
        }
    }
}

/// Lines that differ in case alone are compared by the same key when case is
/// ignored.
pub proof fn law_icase_ignores_case(one: Seq<u8>, other: Seq<u8>, opts: DiffOpts)
    requires
        opts.icase,
        same_but_case(one, other),
    ensures
        comparison_key(one, opts) == comparison_key(other, opts),
{
    lemma_ends_same_but_case(one, other);
    let (a, b) = if opts.iwhiteeol {
        (without_trailing_white(one), without_trailing_white(other))
    } else {
        (one, other)
    };
    lemma_packs_same_but_case(a, b);
}

/// White space at the end of a line is no part of what is left without white
/// space.
proof fn lemma_pack_drops_the_end(line: Seq<u8>)
    ensures
        without_trailing_white(line).filter(|byte: u8| !is_ascii_white(byte)) == line.filter(
            |byte: u8| !is_ascii_white(byte),
        ),
    decreases line.len(),
{
    reveal(Seq::filter);
    if line.len() > 0 && is_ascii_white(line.last()) {
        lemma_pack_drops_the_end(line.drop_last());
    }
}

/// Lines that differ in white space alone are compared by the same key when
/// white space is ignored.
pub proof fn law_iwhite_ignores_white_space(one: Seq<u8>, other: Seq<u8>, opts: DiffOpts)
    requires
        opts.iwhite,
        one.filter(|byte: u8| !is_ascii_white(byte)) == other.filter(
            |byte: u8| !is_ascii_white(byte),
        ),
    ensures
        comparison_key(one, opts) == comparison_key(other, opts),
{
    lemma_pack_drops_the_end(one);
    lemma_pack_drops_the_end(other);
}

/// Each flag sets what it is named after, and nothing else.
pub proof fn law_flags_set_what_they_name(opts: DiffOpts)
    ensures
        with_flag(opts, "icase"@) == (DiffOpts { icase: true, ..opts }),
        with_flag(opts, "iwhite"@) == (DiffOpts { iwhite: true, ..opts }),
        with_flag(opts, "iwhiteall"@) == (DiffOpts { iwhite: true, ..opts }),
        with_flag(opts, "iwhiteeol"@) == (DiffOpts { iwhiteeol: true, ..opts }),
        with_flag(opts, "followwrap"@) == (DiffOpts { followwrap: true, ..opts }),
        with_flag(opts, "filler"@) == opts,
{
    reveal_strlit("icase");
    reveal_strlit("iwhite");
    reveal_strlit("iwhiteall");
    reveal_strlit("iwhiteeol");
    reveal_strlit("followwrap");
    reveal_strlit("filler");
    reveal_strlit("context:");
    reveal_strlit("foldcolumn:");
    assert("iwhiteall"@[6] != "iwhiteeol"@[6]);
    assert("iwhite"@[0] != "filler"@[0]);
    assert("context:"@[0] != "icase"@[0]);
    assert("context:"@[0] != "iwhite"@[0]);
    assert("context:"@[0] != "iwhiteall"@[0]);
    assert("context:"@[0] != "iwhiteeol"@[0]);
    assert("context:"@[0] != "followwrap"@[0]);
    assert("context:"@[0] != "filler"@[0]);
}

/// Without a flag lines are compared as they are, and with `iwhiteeol` alone
/// without the white space at their end.
pub proof fn law_lines_are_compared_as_they_are(line: Seq<u8>, white: u8, opts: DiffOpts)
    requires
        !opts.icase,
        !opts.iwhite,
    ensures
        !opts.iwhiteeol ==> comparison_key(line, opts) == line,
        opts.iwhiteeol && (white == ' ' as u8 || white == '\t' as u8) ==> comparison_key(
            line.push(white),
            opts,
        ) == comparison_key(line, opts),
        opts.iwhiteeol && line.len() > 0 && line.last() > 0x20 ==> comparison_key(line, opts)
            == line,
{
    assert(line.push(white).drop_last() =~= line);
}

/// `context:` and `foldcolumn:` set the number behind them: the context is at
/// least one line, the fold column at most the widest there is.
pub proof fn law_flags_take_numbers(opts: DiffOpts, digits: Seq<char>)
    requires
        digits.len() > 0,
        forall|i: int| 0 <= i < digits.len() ==> '0' <= #[trigger] digits[i] <= '9',
        crate::text::decimal(digits) <= usize::MAX,
    ensures
        ({
            let number = crate::text::decimal(digits);
            let context = with_flag(opts, "context:"@ + digits);
            let column = with_flag(opts, "foldcolumn:"@ + digits);
            &&& context == (DiffOpts { context: context.context, ..opts })
            &&& number == 0 ==> context.context == 1
            &&& number > 0 ==> context.context == number
            &&& column == (DiffOpts { foldcolumn: column.foldcolumn, ..opts })
            &&& number <= MAX_FOLDCOLUMN ==> column.foldcolumn == number
            &&& number > MAX_FOLDCOLUMN ==> column.foldcolumn == MAX_FOLDCOLUMN
        }),
{
    reveal_strlit("context:");
    reveal_strlit("foldcolumn:");
    let one = "context:"@ + digits;
    let other = "foldcolumn:"@ + digits;
    assert(one.take(8) =~= "context:"@);
    assert(one.skip(8) =~= digits);
    assert(other.take(11) =~= "foldcolumn:"@);
    assert(other.skip(11) =~= digits);
    assert(other.take(8)[0] == 'f');
    assert('0' <= digits[0] <= '9');
    assert('0' <= digits[digits.len() - 1] <= '9');
    assert(crate::text::trimmed(digits) == digits);
}

} // verus!
