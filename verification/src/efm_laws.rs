//! What the lines of compiler output make of the entries.
use vstd::prelude::*;

use crate::efm::{
    BufferBook, EfmStateView, FieldsView, LineMatch, LineOutcomeView, ParsedEntryView, Reading,
};
use crate::efm_format::EfmPartView;
use crate::efm_names::Surroundings;

verus! {

/// The text that the group of a `%` field caught, if the alternative has that
/// field and its group took part in the match.
#[verifier::opaque]
pub open spec fn caught(
    line: Seq<char>,
    part: EfmPartView,
    found: LineMatch,
    letter: char,
) -> Option<Seq<char>> {
    match crate::efm_format::field_index(letter as u8) {
        None => None,
        Some(index) => {
            let group = part.addr[index] as int;
            if 1 <= group <= found.captures@.len() && found.captures@[group - 1] is Some {
                let range = found.captures@[group - 1]->0;
                Some(crate::text::byte_slice(line, range.0 as int, range.1 as int))
            } else {
                None
            }
        },
    }
}

/// The number that a field caught, or else `default`.
pub open spec fn number_or(text: Option<Seq<char>>, default: i64) -> i64 {
    match text {
        Some(text) => crate::efm_names::number_of(text),
        None => default,
    }
}

/// The column that a line's fields give: `%v` before `%p` before `%c`.
pub open spec fn column_or(
    line: Seq<char>,
    part: EfmPartView,
    found: LineMatch,
    default: i64,
) -> i64 {
    match caught(line, part, found, 'v') {
        Some(text) => crate::efm_names::number_of(text),
        None => match caught(line, part, found, 'p') {
            Some(text) => crate::efm::pointer_column(text),
            None => number_or(caught(line, part, found, 'c'), default),
        },
    }
}

/// Whether a line gives its column in screen cells.
pub open spec fn counts_cells(line: Seq<char>, part: EfmPartView, found: LineMatch) -> bool {
    caught(line, part, found, 'v') is Some || caught(line, part, found, 'p') is Some
}

/// The type that a line gives: the first byte of its `%t`.
pub open spec fn type_or(
    line: Seq<char>,
    part: EfmPartView,
    found: LineMatch,
    default: u8,
) -> u8 {
    match caught(line, part, found, 't') {
        Some(text) => {
            let bytes = vstd::utf8::encode_utf8(text);
            if bytes.len() > 0 {
                bytes[0]
            } else {
                0
            }
        },
        None => default,
    }
}

/// The message that a line gives: all of it under `%+`, else its `%m`.
pub open spec fn message_or(
    line: Seq<char>,
    part: EfmPartView,
    found: LineMatch,
    default: Seq<char>,
) -> Seq<char> {
    if part.flags == '+' as u8 {
        line
    } else {
        match caught(line, part, found, 'm') {
            Some(text) => text,
            None => default,
        }
    }
}

/// The type that the kind of an alternative stands for.
pub open spec fn kind_type(letter: u8) -> u8 {
    if letter == 'E' as u8 || letter == 'W' as u8 || letter == 'I' as u8 || letter == 'N' as u8 {
        letter
    } else {
        0
    }
}

/// Whether a type can be shown: no control character.
pub open spec fn is_shown(kind: u8) -> bool {
    kind >= 0x20 && kind != 0x7f
}

/// Whether `fields` hold what the groups of a match caught, and `before`
/// otherwise.
pub open spec fn hold_captures(
    fields: FieldsView,
    before: FieldsView,
    line: Seq<char>,
    part: EfmPartView,
    found: LineMatch,
    world: Surroundings,
) -> bool {
    &&& fields.enr == number_or(caught(line, part, found, 'n'), before.enr)
    &&& fields.lnum == number_or(caught(line, part, found, 'l'), before.lnum)
    &&& fields.end_lnum == number_or(caught(line, part, found, 'e'), before.end_lnum)
    &&& fields.col == column_or(line, part, found, before.col)
    &&& fields.end_col == number_or(caught(line, part, found, 'k'), before.end_col)
    &&& fields.bnr == number_or(caught(line, part, found, 'b'), before.bnr)
    &&& fields.use_viscol == (before.use_viscol || counts_cells(line, part, found))
    &&& fields.item_type == type_or(line, part, found, before.item_type)
    &&& fields.errmsg == message_or(line, part, found, before.errmsg)
    &&& match caught(line, part, found, 's') {
        Some(text) => fields.pattern == "^\\V"@ + text + "\\$"@,
        None => fields.pattern == before.pattern,
    }
    &&& match caught(line, part, found, 'o') {
        Some(text) => fields.module == before.module + text,
        None => fields.module == before.module,
    }
    &&& match caught(line, part, found, 'f') {
        Some(text) => fields.namebuf == crate::efm_names::expanded(text, 0, world),
        None => fields.namebuf == before.namebuf,
    }
    &&& fields.valid == before.valid
}

/// The fields with what the group of one of them caught.
spec fn taken(
    fields: FieldsView,
    line: Seq<char>,
    part: EfmPartView,
    found: LineMatch,
    letter: char,
    world: Surroundings,
) -> FieldsView {
    let text = caught(line, part, found, letter);
    if letter == 'f' {
        FieldsView {
            namebuf: match text {
                Some(text) => crate::efm_names::expanded(text, 0, world),
                None => fields.namebuf,
            },
            ..fields
        }
    } else if letter == 'b' {
        FieldsView { bnr: number_or(text, fields.bnr), ..fields }
    } else if letter == 'n' {
        FieldsView { enr: number_or(text, fields.enr), ..fields }
    } else if letter == 'l' {
        FieldsView { lnum: number_or(text, fields.lnum), ..fields }
    } else if letter == 'e' {
        FieldsView { end_lnum: number_or(text, fields.end_lnum), ..fields }
    } else if letter == 'c' {
        FieldsView { col: number_or(text, fields.col), ..fields }
    } else if letter == 'k' {
        FieldsView { end_col: number_or(text, fields.end_col), ..fields }
    } else if letter == 't' {
        FieldsView { item_type: type_or(line, part, found, fields.item_type), ..fields }
    } else if letter == 'p' {
        FieldsView {
            col: match text {
                Some(text) => crate::efm::pointer_column(text),
                None => fields.col,
            },
            use_viscol: fields.use_viscol || text is Some,
            ..fields
        }
    } else if letter == 'v' {
        FieldsView {
            col: number_or(text, fields.col),
            use_viscol: fields.use_viscol || text is Some,
            ..fields
        }
    } else if letter == 's' {
        FieldsView {
            pattern: match text {
                Some(text) => "^\\V"@ + text + "\\$"@,
                None => fields.pattern,
            },
            ..fields
        }
    } else if letter == 'o' {
        FieldsView {
            module: match text {
                Some(text) => fields.module + text,
                None => fields.module,
            },
            ..fields
        }
    } else {
        fields
    }
}

/// Reading on from one field is reading that field and then the rest.
#[verifier::rlimit(50)]
proof fn lemma_field_by_field(
    line: Seq<char>,
    part: EfmPartView,
    found: LineMatch,
    letter: char,
    index: int,
    before: Reading,
    book: BufferBook,
    world: Surroundings,
) -> (after: Reading)
    requires
        0 <= index < 14,
        crate::efm_format::field_index(letter as u8) == Some(index),
        (letter as int) < 128,
        crate::efm::fields_read(line, part, found, index, before, false, book, world).ok,
    ensures
        crate::efm::fields_read(line, part, found, index, before, false, book, world)
            == crate::efm::fields_read(line, part, found, index + 1, after, false, book, world),
        after.ok,
        letter != 'm' ==> after.fields == taken(before.fields, line, part, found, letter, world),
        letter == 'm' ==> after.fields == (FieldsView {
            errmsg: message_or(line, part, found, before.fields.errmsg),
            ..before.fields
        }),
{
    reveal(caught);
    let after = crate::efm::field_read(line, part, found, index, before, false, book, world);
    assert(crate::efm::capture_of(part, found, index) is Some == caught(
        line,
        part,
        found,
        letter,
    ) is Some);
    after
}

/// The fields with the message of the line.
spec fn with_message(
    fields: FieldsView,
    line: Seq<char>,
    part: EfmPartView,
    found: LineMatch,
) -> FieldsView {
    FieldsView { errmsg: message_or(line, part, found, fields.errmsg), ..fields }
}

/// The letter of a field.
spec fn letter_of(index: int) -> char {
    "fbnlecktmrpvso"@[index]
}

/// The fields with what the groups of those from `index` on caught.
spec fn taken_from(
    fields: FieldsView,
    line: Seq<char>,
    part: EfmPartView,
    found: LineMatch,
    index: int,
    world: Surroundings,
) -> FieldsView
    decreases 14 - index,
{
    if index >= 14 {
        fields
    } else if index == 8 {
        taken_from(with_message(fields, line, part, found), line, part, found, 9, world)
    } else {
        taken_from(
            taken(fields, line, part, found, letter_of(index), world),
            line,
            part,
            found,
            index + 1,
            world,
        )
    }
}

proof fn lemma_taken_from(
    line: Seq<char>,
    part: EfmPartView,
    found: LineMatch,
    index: int,
    before: Reading,
    book: BufferBook,
    world: Surroundings,
)
    requires
        0 <= index <= 14,
        crate::efm::fields_read(line, part, found, index, before, false, book, world).ok,
    ensures
        crate::efm::fields_read(
            line,
            part,
            found,
            index,
            before,
            false,
            book,
            world,
        ).fields == taken_from(before.fields, line, part, found, index, world),
    decreases 14 - index,
{
    if index < 14 {
        reveal_strlit("fbnlecktmrpvso");
        let letter = letter_of(index);
        let after = lemma_field_by_field(line, part, found, letter, index, before, book, world);
        lemma_taken_from(line, part, found, index + 1, after, book, world);
    }
}

#[verifier::rlimit(50)]
proof fn lemma_all_taken(
    f0: FieldsView,
    line: Seq<char>,
    part: EfmPartView,
    found: LineMatch,
    world: Surroundings,
)
    ensures
        hold_captures(
            taken_from(f0, line, part, found, 0, world),
            f0,
            line,
            part,
            found,
            world,
        ),
{
    reveal_strlit("fbnlecktmrpvso");
    let f1 = taken(f0, line, part, found, 'f', world);
    assert(taken_from(f0, line, part, found, 0, world) == taken_from(
        f1,
        line,
        part,
        found,
        1,
        world,
    ));
    let f2 = taken(f1, line, part, found, 'b', world);
    assert(taken_from(f1, line, part, found, 1, world) == taken_from(
        f2,
        line,
        part,
        found,
        2,
        world,
    ));
    let f3 = taken(f2, line, part, found, 'n', world);
    assert(taken_from(f2, line, part, found, 2, world) == taken_from(
        f3,
        line,
        part,
        found,
        3,
        world,
    ));
    let f4 = taken(f3, line, part, found, 'l', world);
    assert(taken_from(f3, line, part, found, 3, world) == taken_from(
        f4,
        line,
        part,
        found,
        4,
        world,
    ));
    let f5 = taken(f4, line, part, found, 'e', world);
    assert(taken_from(f4, line, part, found, 4, world) == taken_from(
        f5,
        line,
        part,
        found,
        5,
        world,
    ));
    let f6 = taken(f5, line, part, found, 'c', world);
    assert(taken_from(f5, line, part, found, 5, world) == taken_from(
        f6,
        line,
        part,
        found,
        6,
        world,
    ));
    let f7 = taken(f6, line, part, found, 'k', world);
    assert(taken_from(f6, line, part, found, 6, world) == taken_from(
        f7,
        line,
        part,
        found,
        7,
        world,
    ));
    let f8 = taken(f7, line, part, found, 't', world);
    assert(taken_from(f7, line, part, found, 7, world) == taken_from(
        f8,
        line,
        part,
        found,
        8,
        world,
    ));
    let f9 = with_message(f8, line, part, found);
    assert(taken_from(f8, line, part, found, 8, world) == taken_from(
        f9,
        line,
        part,
        found,
        9,
        world,
    ));
    let f10 = taken(f9, line, part, found, 'r', world);
    assert(taken_from(f9, line, part, found, 9, world) == taken_from(
        f10,
        line,
        part,
        found,
        10,
        world,
    ));
    let f11 = taken(f10, line, part, found, 'p', world);
    assert(taken_from(f10, line, part, found, 10, world) == taken_from(
        f11,
        line,
        part,
        found,
        11,
        world,
    ));
    let f12 = taken(f11, line, part, found, 'v', world);
    assert(taken_from(f11, line, part, found, 11, world) == taken_from(
        f12,
        line,
        part,
        found,
        12,
        world,
    ));
    let f13 = taken(f12, line, part, found, 's', world);
    assert(taken_from(f12, line, part, found, 12, world) == taken_from(
        f13,
        line,
        part,
        found,
        13,
        world,
    ));
    let f14 = taken(f13, line, part, found, 'o', world);
    assert(taken_from(f13, line, part, found, 13, world) == taken_from(
        f14,
        line,
        part,
        found,
        14,
        world,
    ));
    assert(taken_from(f14, line, part, found, 14, world) == f14);
}

/// A line that an alternative reads to the end has, in each field of the
/// alternative, the text or number that the field's group caught, and in the
/// others what they held before.
pub proof fn law_fields_hold_what_their_groups_caught(
    line: Seq<char>,
    part: EfmPartView,
    found: LineMatch,
    before: FieldsView,
    book: BufferBook,
    world: Surroundings,
)
    requires
        crate::efm::fields_read(
            line,
            part,
            found,
            0,
            Reading { ok: true, fields: before, tail: None },
            false,
            book,
            world,
        ).ok,
    ensures
        hold_captures(
            crate::efm::fields_read(
                line,
                part,
                found,
                0,
                Reading { ok: true, fields: before, tail: None },
                false,
                book,
                world,
            ).fields,
            before,
            line,
            part,
            found,
            world,
        ),
{
    lemma_taken_from(
        line,
        part,
        found,
        0,
        Reading { ok: true, fields: before, tail: None },
        book,
        world,
    );
    lemma_all_taken(before, line, part, found, world);
}

/// Reading fields leaves the validity alone.
proof fn lemma_validity_kept(
    line: Seq<char>,
    part: EfmPartView,
    found: LineMatch,
    index: int,
    before: Reading,
    multiscan: bool,
    book: BufferBook,
    world: Surroundings,
)
    ensures
        crate::efm::fields_read(
            line,
            part,
            found,
            index,
            before,
            multiscan,
            book,
            world,
        ).fields.valid == before.fields.valid,
    decreases 14 - index,
{
    if before.ok && index < 14 {
        lemma_validity_kept(
            line,
            part,
            found,
            index + 1,
            crate::efm::field_read(line, part, found, index, before, multiscan, book, world),
            multiscan,
            book,
            world,
        );
    }
}

/// The fields with which an alternative of a kind starts to read a line.
pub open spec fn fresh_fields(letter: u8) -> FieldsView {
    FieldsView { item_type: kind_type(letter), ..FieldsView::unread() }
}

/// The alternative that reads a line has matched it, and its fields come from
/// the match alone.
proof fn lemma_search(
    line: Seq<char>,
    parts: Seq<EfmPartView>,
    found: Seq<Option<LineMatch>>,
    at: int,
    before: Reading,
    state: EfmStateView,
    book: BufferBook,
    world: Surroundings,
)
    requires
        !state.multiscan,
        before.fields.valid,
        0 <= at,
    ensures
        ({
            let (k, read) = crate::efm::line_read(
                line,
                parts,
                found,
                at,
                before,
                state,
                book,
                world,
            );
            k < parts.len() ==> {
                &&& at <= k
                &&& found[k] is Some
                &&& (parts[k].prefix == 'C' as u8 || parts[k].prefix == 'Z' as u8
                    ==> state.multiline)
                &&& hold_captures(
                    read.fields,
                    fresh_fields(parts[k].prefix),
                    line,
                    parts[k],
                    found[k]->0,
                    world,
                )
            }
        }),
    decreases parts.len() - at,
{
    if at < parts.len() {
        let read = crate::efm::alternative_read(
            line,
            parts[at],
            found[at],
            before,
            state,
            book,
            world,
        );
        let fresh = before.fields.reset(false);
        if found[at] is Some {
            let typed = FieldsView { item_type: kind_type(parts[at].prefix), ..fresh };
            assert(typed == fresh_fields(parts[at].prefix));
            lemma_validity_kept(
                line,
                parts[at],
                found[at]->0,
                0,
                Reading { ok: true, fields: typed, tail: None },
                false,
                book,
                world,
            );
            if read.ok {
                law_fields_hold_what_their_groups_caught(
                    line,
                    parts[at],
                    found[at]->0,
                    typed,
                    book,
                    world,
                );
            }
        }
        if !read.ok {
            lemma_search(line, parts, found, at + 1, read, state, book, world);
        }
    }
}

/// The alternative that reads a line gives it the fields that its groups
/// caught; a continuation reads a line only inside a block.
pub proof fn law_line_is_read_by_its_alternative(
    line: Seq<char>,
    parts: Seq<EfmPartView>,
    found: Seq<Option<LineMatch>>,
    state: EfmStateView,
    book: BufferBook,
    world: Surroundings,
)
    requires
        !state.multiscan,
        crate::efm::search_result(line, parts, found, state, book, world).0 < parts.len(),
    ensures
        ({
            let (at, read) = crate::efm::search_result(line, parts, found, state, book, world);
            &&& 0 <= at
            &&& found[at] is Some
            &&& (parts[at].prefix == 'C' as u8 || parts[at].prefix == 'Z' as u8
                ==> state.multiline)
            &&& hold_captures(
                read.fields,
                fresh_fields(parts[at].prefix),
                line,
                parts[at],
                found[at]->0,
                world,
            )
        }),
{
    lemma_search(
        line,
        parts,
        found,
        crate::efm::search_start(state),
        Reading { ok: false, fields: FieldsView::unread(), tail: None },
        state,
        book,
        world,
    );
}

/// A continuation fills the gaps of an entry: each of the numbers that the
/// entry has not got yet, and its type, are afterwards those of the
/// continuation, and those that it has stay.
pub proof fn law_folding_fills_the_gaps(entry: ParsedEntryView, fields: FieldsView)
    ensures
        ({
            let after = crate::efm::folded(entry, fields);
            &&& entry.lnum == 0 ==> after.lnum == fields.lnum
            &&& entry.lnum != 0 ==> after.lnum == entry.lnum
            &&& entry.end_lnum == 0 ==> after.end_lnum == fields.end_lnum
            &&& entry.end_lnum != 0 ==> after.end_lnum == entry.end_lnum
            &&& entry.col == 0 ==> after.col == fields.col && after.vcol == fields.use_viscol
            &&& entry.col != 0 ==> after.col == entry.col && after.vcol == entry.vcol
            &&& entry.end_col == 0 ==> after.end_col == fields.end_col
            &&& entry.end_col != 0 ==> after.end_col == entry.end_col
            &&& entry.nr == -1 ==> after.nr == fields.enr
            &&& entry.nr != -1 ==> after.nr == entry.nr
            &&& entry.item_type == 0 && is_shown(fields.item_type) ==> after.item_type
                == fields.item_type
            &&& entry.item_type == 0 && !is_shown(fields.item_type) ==> after.item_type
                == 0
            &&& entry.item_type != 0 ==> after.item_type == entry.item_type
            &&& fields.errmsg.len() > 0 ==> after.text == entry.text + seq!['\n']
                + fields.errmsg
            &&& fields.errmsg.len() == 0 ==> after.text == entry.text
            &&& after.bufnr == entry.bufnr
            &&& after.module == entry.module
            &&& after.pattern == entry.pattern
            &&& after.valid == entry.valid
        }),
{
    assert(entry.text + seq!['\n'] =~= entry.text.push('\n'));
}

/// The buffer of a line outside of any directory: that of the file that it
/// names, else that of the file that was entered last, else none.
pub open spec fn buffer_of(
    line: Seq<char>,
    part: EfmPartView,
    found: LineMatch,
    state: EfmStateView,
    book: BufferBook,
    world: Surroundings,
) -> i64 {
    let named = match caught(line, part, found, 'f') {
        Some(text) => crate::efm_names::expanded(text, 0, world),
        None => Seq::empty(),
    };
    let name = if named.len() > 0 {
        named
    } else {
        match state.currfile {
            Some(file) => file,
            None => Seq::empty(),
        }
    };
    if name.len() > 0 {
        (book.number_for)(name)
    } else {
        0
    }
}

/// A number is the entry's own if it has one, else what the line caught.
pub open spec fn filled(own: i64, unset: i64, text: Option<Seq<char>>) -> i64 {
    if own != unset {
        own
    } else {
        number_or(text, unset)
    }
}

/// A `%C` or `%Z` line of a block gives the last entry, where that has none
/// yet, the line number that the line's `%l` caught, the end line of its `%e`,
/// the column of its `%c`, `%p` or `%v`, the end column of its `%k`, the error
/// number of its `%n` and the type of its `%t`, and adds its message on a new
/// line. Nothing else of the entry changes but its buffer, if it had none.
#[verifier::rlimit(50)]
pub proof fn law_continuation_line_completes_the_entry(
    line: Seq<char>,
    parts: Seq<EfmPartView>,
    found: Seq<Option<LineMatch>>,
    state: EfmStateView,
    last: ParsedEntryView,
    book: BufferBook,
    world: Surroundings,
)
    requires
        !state.multiscan,
        !state.multiignore,
        ({
            let at = crate::efm::search_result(line, parts, found, state, book, world).0;
            at < parts.len() && (parts[at].prefix == 'C' as u8 || parts[at].prefix == 'Z' as u8)
        }),
    ensures
        ({
            let at = crate::efm::search_result(line, parts, found, state, book, world).0;
            let part = parts[at];
            let hit = found[at]->0;
            let result = crate::efm::line_result(
                line,
                parts,
                found,
                state,
                Some(last),
                book,
                world,
            );
            let after = result->Ok_0.last->0;
            let message = message_or(line, part, hit, Seq::empty());
            let kind = type_or(line, part, hit, 0);
            &&& result is Ok
            &&& result->Ok_0.outcome == LineOutcomeView::Folded
            &&& result->Ok_0.last is Some
            &&& after.lnum == filled(last.lnum, 0, caught(line, part, hit, 'l'))
            &&& after.end_lnum == filled(last.end_lnum, 0, caught(line, part, hit, 'e'))
            &&& after.end_col == filled(last.end_col, 0, caught(line, part, hit, 'k'))
            &&& after.nr == filled(last.nr, (-1) as i64, caught(line, part, hit, 'n'))
            &&& after.col == if last.col != 0 {
                last.col
            } else {
                column_or(line, part, hit, 0)
            }
            &&& after.vcol == if last.col != 0 {
                last.vcol
            } else {
                counts_cells(line, part, hit)
            }
            &&& after.item_type == if last.item_type == 0 && is_shown(kind) {
                kind
            } else {
                last.item_type
            }
            &&& after.text == if message.len() > 0 {
                last.text + seq!['\n'] + message
            } else {
                last.text
            }
            &&& last.bufnr != 0 ==> after.bufnr == last.bufnr
            &&& last.bufnr == 0 && state.directory is None ==> after.bufnr == buffer_of(
                line,
                part,
                hit,
                state,
                book,
                world,
            )
            &&& after.module == last.module
            &&& after.pattern == last.pattern
            &&& after.valid == last.valid
            &&& result->Ok_0.state.multiline == (part.prefix == 'C' as u8)
            &&& !result->Ok_0.state.multiignore
        }),
{
    law_line_is_read_by_its_alternative(line, parts, found, state, book, world);
    let (at, read) = crate::efm::search_result(line, parts, found, state, book, world);
    let bufnr = crate::efm::line_result(
        line,
        parts,
        found,
        state,
        Some(last),
        book,
        world,
    )->Ok_0.last->0.bufnr;
    law_folding_fills_the_gaps(ParsedEntryView { bufnr, ..last }, read.fields);
}

/// Without an entry to go to, what a `%C` or `%Z` line caught is handed to the
/// caller as it is.
#[verifier::rlimit(50)]
pub proof fn law_continuation_without_entry_is_handed_on(
    line: Seq<char>,
    parts: Seq<EfmPartView>,
    found: Seq<Option<LineMatch>>,
    state: EfmStateView,
    book: BufferBook,
    world: Surroundings,
)
    requires
        !state.multiscan,
        !state.multiignore,
        ({
            let at = crate::efm::search_result(line, parts, found, state, book, world).0;
            at < parts.len() && (parts[at].prefix == 'C' as u8 || parts[at].prefix == 'Z' as u8)
        }),
    ensures
        ({
            let at = crate::efm::search_result(line, parts, found, state, book, world).0;
            let part = parts[at];
            let hit = found[at]->0;
            let result = crate::efm::line_result(line, parts, found, state, None, book, world);
            let rest = result->Ok_0.outcome->FoldOutside_0;
            let kind = type_or(line, part, hit, 0);
            &&& result is Ok
            &&& result->Ok_0.outcome is FoldOutside
            &&& result->Ok_0.last is None
            &&& rest.lnum == number_or(caught(line, part, hit, 'l'), 0)
            &&& rest.end_lnum == number_or(caught(line, part, hit, 'e'), 0)
            &&& rest.col == column_or(line, part, hit, 0)
            &&& rest.vcol == counts_cells(line, part, hit)
            &&& rest.end_col == number_or(caught(line, part, hit, 'k'), 0)
            &&& rest.nr == number_or(caught(line, part, hit, 'n'), (-1) as i64)
            &&& rest.text == message_or(line, part, hit, Seq::empty())
            &&& is_shown(kind) ==> rest.item_type == kind
            &&& !is_shown(kind) ==> rest.item_type == 0
        }),
{
    law_line_is_read_by_its_alternative(line, parts, found, state, book, world);
}

/// A line that an alternative of an error kind, or of none, reads makes an
/// entry of what the line's groups caught: zero, or no number, stands in the
/// fields that the alternative has not got. The kinds `%A`, `%E`, `%W`, `%I`
/// and `%N` open a block.
#[verifier::rlimit(50)]
pub proof fn law_line_makes_an_entry_of_its_fields(
    line: Seq<char>,
    parts: Seq<EfmPartView>,
    found: Seq<Option<LineMatch>>,
    state: EfmStateView,
    last: Option<ParsedEntryView>,
    book: BufferBook,
    world: Surroundings,
)
    requires
        !state.multiscan,
        ({
            let at = crate::efm::search_result(line, parts, found, state, book, world).0;
            &&& at < parts.len()
            &&& parts[at].flags != '-' as u8
            &&& parts[at].prefix == 0 || parts[at].prefix == 'G' as u8 || parts[at].prefix
                == 'A' as u8 || kind_type(parts[at].prefix) != 0
        }),
    ensures
        ({
            let at = crate::efm::search_result(line, parts, found, state, book, world).0;
            let part = parts[at];
            let hit = found[at]->0;
            let result = crate::efm::line_result(line, parts, found, state, last, book, world);
            let entry = result->Ok_0.outcome->Entry_0;
            let kind = type_or(line, part, hit, kind_type(part.prefix));
            &&& result is Ok
            &&& result->Ok_0.outcome is Entry
            &&& result->Ok_0.last == last
            &&& entry.lnum == number_or(caught(line, part, hit, 'l'), 0)
            &&& entry.end_lnum == number_or(caught(line, part, hit, 'e'), 0)
            &&& entry.col == column_or(line, part, hit, 0)
            &&& entry.vcol == counts_cells(line, part, hit)
            &&& entry.end_col == number_or(caught(line, part, hit, 'k'), 0)
            &&& entry.nr == number_or(caught(line, part, hit, 'n'), (-1) as i64)
            &&& entry.text == message_or(line, part, hit, Seq::empty())
            &&& is_shown(kind) || kind == 1 ==> entry.item_type == kind
            &&& !is_shown(kind) && kind != 1 ==> entry.item_type == 0
            &&& caught(line, part, hit, 's') is Some ==> entry.pattern == "^\\V"@ + caught(
                line,
                part,
                hit,
                's',
            )->0 + "\\$"@
            &&& caught(line, part, hit, 's') is None ==> entry.pattern.len() == 0
            &&& caught(line, part, hit, 'o') is Some ==> entry.module == caught(
                line,
                part,
                hit,
                'o',
            )->0
            &&& caught(line, part, hit, 'o') is None ==> entry.module.len() == 0
            &&& number_or(caught(line, part, hit, 'b'), 0) != 0 ==> entry.bufnr == number_or(
                caught(line, part, hit, 'b'),
                0,
            )
            &&& number_or(caught(line, part, hit, 'b'), 0) == 0 && state.directory is None
                ==> entry.bufnr == buffer_of(line, part, hit, state, book, world)
            &&& entry.valid
            &&& part.prefix != 0 && part.prefix != 'G' as u8
                ==> result->Ok_0.state.multiline && !result->Ok_0.state.multiignore
        }),
{
    law_line_is_read_by_its_alternative(line, parts, found, state, book, world);
    let (at, read) = crate::efm::search_result(line, parts, found, state, book, world);
    let part = parts[at];
    if caught(line, part, found[at]->0, 'o') is Some {
        let module = caught(line, part, found[at]->0, 'o')->0;
        assert(Seq::<char>::empty() + module =~= module);
    }
}

/// A line that no alternative reads becomes an invalid entry that holds the
/// whole line, has no place, and ends any block.
pub proof fn law_unread_line_is_kept_whole(
    line: Seq<char>,
    parts: Seq<EfmPartView>,
    found: Seq<Option<LineMatch>>,
    state: EfmStateView,
    last: Option<ParsedEntryView>,
    book: BufferBook,
    world: Surroundings,
)
    requires
        crate::efm::search_result(line, parts, found, state, book, world).0 >= parts.len(),
    ensures
        ({
            let result = crate::efm::line_result(line, parts, found, state, last, book, world);
            let entry = result->Ok_0.outcome->Entry_0;
            &&& result is Ok
            &&& result->Ok_0.outcome is Entry
            &&& entry.text == line
            &&& entry.lnum == 0
            &&& !entry.valid
            &&& result->Ok_0.last == last
            &&& !result->Ok_0.state.multiline
            &&& !result->Ok_0.state.multiignore
        }),
{
}

/// The lines of a block whose first line `%-` drops leave no trace: the first
/// line makes no entry, and its continuations change none.
pub proof fn law_dropped_block_leaves_no_trace(
    line: Seq<char>,
    parts: Seq<EfmPartView>,
    found: Seq<Option<LineMatch>>,
    state: EfmStateView,
    last: Option<ParsedEntryView>,
    book: BufferBook,
    world: Surroundings,
)
    requires
        !state.multiscan,
        crate::efm::search_result(line, parts, found, state, book, world).0 < parts.len(),
    ensures
        ({
            let at = crate::efm::search_result(line, parts, found, state, book, world).0;
            let part = parts[at];
            let result = crate::efm::line_result(line, parts, found, state, last, book, world);
            &&& part.flags == '-' as u8 && (part.prefix == 'A' as u8 || kind_type(part.prefix)
                != 0) ==> {
                &&& result is Ok
                &&& result->Ok_0.outcome == LineOutcomeView::Ignored
                &&& result->Ok_0.last == last
                &&& result->Ok_0.state.multiignore
            }
            &&& state.multiignore && (part.prefix == 'C' as u8 || part.prefix == 'Z' as u8) ==> {
                &&& result is Ok
                &&& result->Ok_0.outcome == LineOutcomeView::Ignored
                &&& result->Ok_0.last == last
                &&& result->Ok_0.state.multiignore == (part.prefix == 'C' as u8)
            }
        }),
{
    law_line_is_read_by_its_alternative(line, parts, found, state, book, world);
}

/// A number is read digit by digit up to the first character that is none.
#[verifier::rlimit(50)]
pub proof fn law_number_is_read_digit_by_digit(digits: Seq<char>, digit: char, rest: Seq<char>)
    requires
        forall|i: int| 0 <= i < digits.len() ==> '0' <= #[trigger] digits[i] <= '9',
        '0' <= digit <= '9',
        rest.len() > 0 ==> !('0' <= rest[0] <= '9'),
    ensures
        crate::efm_names::number_of(rest) == 0,
        crate::efm_names::number_of(digits) * 10 + (digit as int - '0' as int) <= i64::MAX
            ==> crate::efm_names::number_of(digits.push(digit) + rest)
            == crate::efm_names::number_of(digits) * 10 + (digit as int - '0' as int),
        crate::efm_names::number_of(digits) * 10 + (digit as int - '0' as int) > i64::MAX
            ==> crate::efm_names::number_of(digits.push(digit) + rest) == i64::MAX,
{
    let longer = digits.push(digit);
    lemma_only_digits(digits, Seq::empty());
    assert(digits + Seq::<char>::empty() =~= digits);
    lemma_only_digits(longer, rest);
    assert(longer.drop_last() =~= digits);
    assert(crate::text::decimal(longer) == crate::text::decimal(digits) * 10 + (digit as int
        - '0' as int));
}

proof fn lemma_only_digits(digits: Seq<char>, rest: Seq<char>)
    requires
        forall|i: int| 0 <= i < digits.len() ==> '0' <= #[trigger] digits[i] <= '9',
        rest.len() > 0 ==> !('0' <= rest[0] <= '9'),
    ensures
        crate::efm_names::leading_digits(digits + rest) == digits,
    decreases digits.len(),
{
    let s = digits + rest;
    if digits.len() == 0 {
        assert(s =~= rest);
    } else {
        let fewer = digits.drop_first();
        assert forall|i: int| 0 <= i < fewer.len() implies '0' <= #[trigger] fewer[i] <= '9' by {
            assert(fewer[i] == digits[i + 1]);
        }
        lemma_only_digits(fewer, rest);
        assert(s.drop_first() =~= fewer + rest);
        assert(seq![s[0]] + fewer =~= digits);
    }
}

/// A pointer line points one cell behind what it holds: a byte takes one cell,
/// a tab as many as lead to a multiple of eight.
pub proof fn law_pointer_counts_cells(bytes: Seq<u8>, byte: u8)
    ensures
        crate::efm::pointer_cells(Seq::empty()) == 0,
        byte != '\t' as u8 ==> crate::efm::pointer_cells(bytes.push(byte))
            == crate::efm::pointer_cells(bytes) + 1,
        byte == '\t' as u8 ==> {
            let before = crate::efm::pointer_cells(bytes);
            let after = crate::efm::pointer_cells(bytes.push(byte));
            before < after <= before + 8 && after % 8 == 0
        },
{
    assert(bytes.push(byte).drop_last() =~= bytes);
}

/// A relative name goes into the open directory if it exists there, with one
/// slash between them; an absolute one, and one outside of any directory, stay
/// as they are.
pub proof fn law_names_go_into_the_open_directory(
    state: EfmStateView,
    dir: Seq<char>,
    name: Seq<char>,
    world: Surroundings,
)
    requires
        dir.len() > 0,
        name.len() > 0,
        dir.last() != '/' && dir.last() != '\\',
    ensures
        state.directory is None ==> crate::efm::resolved(state, name, world) == (name, state),
        name[0] == '/' || name[0] == '~' ==> crate::efm::resolved(state, name, world) == (
            name,
            state,
        ),
        state.directory == Some(dir) && (name.len() == 1 || name[1] != ':') && name[0] != '/'
            && name[0] != '~' && name[0] != '\\' && world.paths.has_path(
            dir + seq!['/'] + name,
        ) ==> crate::efm::resolved(state, name, world) == (dir + seq!['/'] + name, state),
        state.directory == Some(dir + seq!['/']) && (name.len() == 1 || name[1] != ':') && name[0]
            != '/' && name[0] != '~' && name[0] != '\\' && world.paths.has_path(
            dir + seq!['/'] + name,
        ) ==> crate::efm::resolved(state, name, world) == (dir + seq!['/'] + name, state),
{
    assert(dir.push('/') =~= dir + seq!['/']);
}

/// A file that a `%P` line entered is that of the entries without a name of
/// their own, until a `%Q` line leaves it for the one before it.
pub proof fn law_file_counts_until_it_is_left(
    state: EfmStateView,
    name: Seq<char>,
    fields: FieldsView,
    world: Surroundings,
)
    requires
        name.len() > 0,
        state.directory is None,
        fields.valid,
    ensures
        ({
            let inside = crate::efm::file_moved('P' as u8, name, state, world);
            let back = crate::efm::file_moved('Q' as u8, Seq::empty(), inside, world);
            &&& fields.namebuf.len() == 0 ==> crate::efm::chosen_name(fields, inside) == name
            &&& fields.namebuf.len() > 0 ==> crate::efm::chosen_name(fields, inside)
                == fields.namebuf
            &&& back.file_stack == state.file_stack
            &&& state.file_stack.len() > 0 ==> back.currfile == Some(state.file_stack.last())
            &&& state.file_stack.len() == 0 ==> back.currfile is None
            &&& inside.dir_stack == state.dir_stack && back.dir_stack == state.dir_stack
        }),
{
    assert(state.file_stack.push(name).drop_last() =~= state.file_stack);
}

} // verus!
