//! What an 'errorformat' alternative means, piece by piece.
use vstd::prelude::*;

use crate::efm_format::{EfmErrorView, EfmPartView};

verus! {

/// A piece of an 'errorformat' alternative.
pub enum Piece {
    /// A byte that stands for itself.
    Plain(u8),
    /// One of `.*^$~[`, which stands for itself.
    Atom(u8),
    /// A byte behind a backslash.
    Escaped(u8),
    /// One of `%\.^$~[` behind a `%`: the pattern item of that name.
    Item(u8),
    /// `%#`.
    Repeat,
    /// `%*[`, what a collection holds, `]`.
    Collection(Seq<u8>),
    /// `%*\` and the letter of a character class.
    Class(u8),
    /// `%>`.
    Resume,
    /// `%` and a conversion character.
    Field(char),
}

/// The characters that name a field behind a `%`.
pub open spec fn is_field(c: char) -> bool {
    c == 'f' || c == 'b' || c == 'n' || c == 'l' || c == 'e' || c == 'c' || c == 'k' || c == 't'
        || c == 'm' || c == 'r' || c == 'p' || c == 'v' || c == 's' || c == 'o'
}

/// What a collection may hold: something, and a `]` at most in front, or in
/// front behind the `^`.
pub open spec fn is_collection(body: Seq<u8>) -> bool {
    let first: int = if body.len() > 0 && body[0] == '^' as u8 {
        1
    } else {
        0
    };
    &&& body.len() > first
    &&& forall|i: int| first < i < body.len() ==> #[trigger] body[i] != ']' as u8
}

impl Piece {
    /// Whether the piece can be written.
    pub open spec fn valid(self) -> bool {
        match self {
            Piece::Plain(c) => c != '%' as u8 && c != '\\' as u8 && c != '.' as u8 && c
                != '*' as u8 && c != '^' as u8 && c != '$' as u8 && c != '~' as u8 && c
                != '[' as u8,
            Piece::Atom(c) => c == '.' as u8 || c == '*' as u8 || c == '^' as u8 || c == '$' as u8
                || c == '~' as u8 || c == '[' as u8,
            Piece::Escaped(_) => true,
            Piece::Item(c) => c == '%' as u8 || c == '\\' as u8 || c == '.' as u8 || c
                == '^' as u8 || c == '$' as u8 || c == '~' as u8 || c == '[' as u8,
            Piece::Repeat => true,
            Piece::Collection(body) => is_collection(body),
            Piece::Class(_) => true,
            Piece::Resume => true,
            Piece::Field(c) => is_field(c),
        }
    }

    /// How the piece is written.
    pub open spec fn written(self) -> Seq<u8> {
        match self {
            Piece::Plain(c) => seq![c],
            Piece::Atom(c) => seq![c],
            Piece::Escaped(c) => seq!['\\' as u8, c],
            Piece::Item(c) => seq!['%' as u8, c],
            Piece::Repeat => seq!['%' as u8, '#' as u8],
            Piece::Collection(body) => seq!['%' as u8, '*' as u8, '[' as u8] + body
                + seq![']' as u8],
            Piece::Class(c) => seq!['%' as u8, '*' as u8, '\\' as u8, c],
            Piece::Resume => seq!['%' as u8, '>' as u8],
            Piece::Field(c) => seq!['%' as u8, c as u8],
        }
    }

    /// The pattern that the piece stands for, in front of `behind`.
    pub open spec fn meaning(self, behind: Seq<u8>) -> Seq<u8> {
        match self {
            Piece::Plain(c) => seq![c],
            Piece::Atom(c) => seq!['\\' as u8, c],
            Piece::Escaped(c) => seq![c],
            Piece::Item(c) => seq![c],
            Piece::Repeat => seq!['*' as u8],
            Piece::Collection(body) => seq!['[' as u8] + body + seq![']' as u8]
                + crate::efm_format::bytes_of("\\+"),
            Piece::Class(c) => seq!['\\' as u8, c] + crate::efm_format::bytes_of("\\+"),
            Piece::Resume => Seq::empty(),
            Piece::Field(c) => crate::efm_format::bytes_of("\\(") + caught_by(c, behind)
                + crate::efm_format::bytes_of("\\)"),
        }
    }
}

/// What the group of a field matches: a name takes as little as it can up to a
/// plain byte behind it, and only bytes of file names up to anything else.
pub open spec fn caught_by(c: char, behind: Seq<u8>) -> Seq<u8> {
    if c == 'f' {
        if behind.len() == 0 {
            crate::efm_format::bytes_of(".\\+")
        } else if behind[0] == '%' as u8 || behind[0] == '\\' as u8 {
            crate::efm_format::bytes_of("\\f\\+")
        } else {
            crate::efm_format::bytes_of(".\\{-1,}")
        }
    } else if c == 'm' || c == 's' || c == 'o' {
        crate::efm_format::bytes_of(".\\+")
    } else if c == 't' {
        crate::efm_format::bytes_of(".")
    } else if c == 'r' {
        crate::efm_format::bytes_of(".*")
    } else if c == 'p' {
        crate::efm_format::bytes_of("[-\t .]*")
    } else {
        crate::efm_format::bytes_of("\\d\\+")
    }
}

/// How pieces are written one behind the other.
pub open spec fn written_all(pieces: Seq<Piece>) -> Seq<u8>
    decreases pieces.len(),
{
    if pieces.len() == 0 {
        Seq::empty()
    } else {
        pieces[0].written() + written_all(pieces.drop_first())
    }
}

/// The patterns of pieces in front of `behind`, one behind the other.
pub open spec fn meaning_all(pieces: Seq<Piece>, behind: Seq<u8>) -> Seq<u8>
    decreases pieces.len(),
{
    if pieces.len() == 0 {
        Seq::empty()
    } else {
        let rest = pieces.drop_first();
        pieces[0].meaning(written_all(rest) + behind) + meaning_all(rest, behind)
    }
}

/// The fields among pieces, in order.
pub open spec fn fields_of(pieces: Seq<Piece>) -> Seq<char>
    decreases pieces.len(),
{
    if pieces.len() == 0 {
        Seq::empty()
    } else {
        match pieces[0] {
            Piece::Field(c) => seq![c] + fields_of(pieces.drop_first()),
            _ => fields_of(pieces.drop_first()),
        }
    }
}

/// The kind with which an alternative starts, if it has one, and its flag.
pub enum Kind {
    /// None.
    Plain,
    /// `%` and a letter.
    Of(char),
    /// `%`, `+` or `-`, and a letter.
    Flagged(char, char),
}

/// The letters of kinds.
pub open spec fn is_kind(c: char) -> bool {
    c == 'D' || c == 'X' || c == 'A' || c == 'E' || c == 'W' || c == 'I' || c == 'N' || c == 'C'
        || c == 'Z' || c == 'G' || c == 'O' || c == 'P' || c == 'Q'
}

impl Kind {
    /// Whether there is such a kind.
    pub open spec fn valid(self) -> bool {
        match self {
            Kind::Plain => true,
            Kind::Of(c) => is_kind(c),
            Kind::Flagged(flag, c) => is_kind(c) && (flag == '+' || flag == '-'),
        }
    }

    /// How the kind is written.
    pub open spec fn written(self) -> Seq<u8> {
        match self {
            Kind::Plain => Seq::empty(),
            Kind::Of(c) => seq!['%' as u8, c as u8],
            Kind::Flagged(flag, c) => seq!['%' as u8, flag as u8, c as u8],
        }
    }

    /// Its letter, or zero.
    pub open spec fn letter(self) -> u8 {
        match self {
            Kind::Plain => 0,
            Kind::Of(c) => c as u8,
            Kind::Flagged(_, c) => c as u8,
        }
    }

    /// Its flag, or zero.
    pub open spec fn flag(self) -> u8 {
        match self {
            Kind::Flagged(flag, _) => flag as u8,
            _ => 0,
        }
    }

    /// Whether lines of this kind can have the field `c`: `%r` goes with the
    /// kinds of files, and the kinds of files and directories have no field
    /// that describes an error but `%f`, `%p`, `%v`, `%s` and `%o`.
    pub open spec fn takes(self, c: char) -> bool {
        let file = self.letter() == 'O' as u8 || self.letter() == 'P' as u8 || self.letter()
            == 'Q' as u8;
        let directory = self.letter() == 'D' as u8 || self.letter() == 'X' as u8;
        if c == 'r' {
            file
        } else {
            !file && !directory || c == 'f' || c == 'p' || c == 'v' || c == 's' || c == 'o'
        }
    }
}

/// Whether pieces can follow a kind: each can be written, no field comes twice,
/// and the kind takes each of them.
pub open spec fn fits(kind: Kind, pieces: Seq<Piece>) -> bool {
    &&& kind.valid()
    &&& forall|i: int| 0 <= i < pieces.len() ==> (#[trigger] pieces[i]).valid()
    &&& fields_of(pieces).no_duplicates()
    &&& forall|i: int|
        0 <= i < fields_of(pieces).len() ==> kind.takes(#[trigger] fields_of(pieces)[i])
}

/// The place of a field among the groups of a compiled alternative.
pub open spec fn place(c: char) -> int {
    crate::efm_format::field_index(c as u8)->0
}

proof fn lemma_groups(addr: Seq<u8>, at: int, group: u8)
    requires
        0 <= at < addr.len(),
        addr[at] == 0,
        group != 0,
    ensures
        crate::efm_format::groups(addr.update(at, group)) == crate::efm_format::groups(addr) + 1,
    decreases addr.len(),
{
    if at == addr.len() - 1 {
        assert(addr.update(at, group).drop_last() =~= addr.drop_last());
    } else {
        lemma_groups(addr.drop_last(), at, group);
        assert(addr.update(at, group).drop_last() =~= addr.drop_last().update(at, group));
    }
}

proof fn lemma_groups_bound(addr: Seq<u8>)
    ensures
        crate::efm_format::groups(addr) <= addr.len(),
    decreases addr.len(),
{
    if addr.len() > 0 {
        lemma_groups_bound(addr.drop_last());
    }
}

proof fn lemma_no_groups(addr: Seq<u8>)
    requires
        forall|i: int| 0 <= i < addr.len() ==> #[trigger] addr[i] == 0,
    ensures
        crate::efm_format::groups(addr) == 0,
    decreases addr.len(),
{
    if addr.len() > 0 {
        assert(addr.last() == addr[addr.len() - 1]);
        assert forall|i: int| 0 <= i < addr.drop_last().len() implies #[trigger] addr.drop_last()[i]
            == 0 by {
            assert(addr[i] == 0);
        }
        lemma_no_groups(addr.drop_last());
    }
}

proof fn lemma_collection_end(part: Seq<u8>, at: int, close: int)
    requires
        0 <= at <= close < part.len(),
        part[close] == ']' as u8,
        forall|i: int| at <= i < close ==> #[trigger] part[i] != ']' as u8,
    ensures
        crate::efm_format::class_end(part, at) == close,
    decreases close - at,
{
    if at < close {
        lemma_collection_end(part, at + 1, close);
    }
}

/// The compiled part behind one more piece.
pub open spec fn behind_piece(done: EfmPartView, piece: Piece, behind: Seq<u8>) -> EfmPartView {
    EfmPartView {
        pattern: done.pattern + piece.meaning(behind),
        addr: match piece {
            Piece::Field(c) => done.addr.update(
                place(c),
                (crate::efm_format::groups(done.addr) + 1) as u8,
            ),
            _ => done.addr,
        },
        conthere: done.conthere || piece is Resume,
        ..done
    }
}

/// One piece is read as what it means.
#[verifier::rlimit(50)]
proof fn lemma_piece(part: Seq<u8>, at: int, piece: Piece, behind: Seq<u8>, done: EfmPartView)
    requires
        piece.valid(),
        0 <= at <= part.len(),
        part.skip(at) == piece.written() + behind,
        done.addr.len() == 14,
        piece matches Piece::Field(c) ==> done.addr[place(c)] == 0
            && !crate::efm_format::is_misplaced(place(c), done.prefix),
    ensures
        crate::efm_format::compiled_from(part, at, done) == crate::efm_format::compiled_from(
            part,
            (at + piece.written().len()) as int,
            behind_piece(done, piece, behind),
        ),
{
    let written = piece.written();
    let rest = part.skip(at);
    assert(forall|i: int| 0 <= i < rest.len() ==> #[trigger] rest[i] == part[at + i]);
    assert(part.len() == at + written.len() + behind.len());
    assert(written.len() > 0);
    assert(forall|i: int| 0 <= i < written.len() ==> #[trigger] written[i] == rest[i]);
    assert(forall|i: int| 0 <= i < behind.len() ==> #[trigger] behind[i] == rest[written.len()
        + i]);
    assert(part[at] == written[0]);
    let after = behind_piece(done, piece, behind);
    match piece {
        Piece::Plain(c) => {},
        Piece::Atom(c) => {},
        Piece::Escaped(c) => {
            assert(part[at + 1] == written[1]);
        },
        Piece::Item(c) => {
            assert(part[at + 1] == written[1]);
        },
        Piece::Repeat => {
            assert(part[at + 1] == written[1]);
        },
        Piece::Collection(body) => {
            assert(part[at + 1] == written[1]);
            assert(part[at + 2] == written[2]);
            assert(forall|i: int| 0 <= i < body.len() ==> #[trigger] body[i] == written[3 + i]);
            let close = at + 3 + body.len();
            assert(part[close] == written[(3 + body.len()) as int]);
            assert(part[at + 3] == body[0]);
            let first: int = if body[0] == '^' as u8 {
                at + 4
            } else {
                at + 3
            };
            assert forall|i: int| first + 1 <= i < close implies #[trigger] part[i]
                != ']' as u8 by {
                assert(part[i] == body[i - at - 3]);
            }
            lemma_collection_end(part, first + 1, close);
            assert(part.subrange(at + 2, close + 1) =~= seq!['[' as u8] + body + seq![']' as u8]);
        },
        Piece::Class(c) => {
            assert(part[at + 1] == written[1]);
            assert(part[at + 2] == written[2]);
            assert(part[at + 3] == written[3]);
            assert(part.subrange(at + 2, at + 4) =~= seq!['\\' as u8, c]);
        },
        Piece::Resume => {
            assert(part[at + 1] == written[1]);
            assert(after.pattern =~= done.pattern);
        },
        Piece::Field(c) => {
            assert(part[at + 1] == written[1]);
            assert(behind.len() > 0 ==> part[at + 2] == behind[0]);
            let body = caught_by(c, behind);
            assert(crate::efm_format::group_pattern(part, at + 1, place(c)) == body);
            assert(done.pattern + crate::efm_format::bytes_of("\\(") + body
                + crate::efm_format::bytes_of("\\)") =~= after.pattern);
        },
    }
}

/// Whether compiled parts agree that the fields of `pieces` got the groups
/// behind those of `done`, one each, in order.
pub open spec fn groups_follow(before: Seq<u8>, after: Seq<u8>, fields: Seq<char>) -> bool {
    &&& after.len() == before.len()
    &&& forall|i: int|
        0 <= i < fields.len() ==> after[place(#[trigger] fields[i])]
            == crate::efm_format::groups(before) + i + 1
    &&& forall|c: char|
        is_field(c) && !fields.contains(c) ==> after[#[trigger] place(c)] == before[place(c)]
}

#[verifier::rlimit(50)]
proof fn lemma_pieces(
    part: Seq<u8>,
    at: int,
    kind: Kind,
    pieces: Seq<Piece>,
    behind: Seq<u8>,
    done: EfmPartView,
) -> (after: EfmPartView)
    requires
        fits(kind, pieces),
        0 <= at <= part.len(),
        part.skip(at) == written_all(pieces) + behind,
        done.addr.len() == 14,
        done.prefix == kind.letter(),
        forall|i: int|
            0 <= i < fields_of(pieces).len() ==> done.addr[place(
                #[trigger] fields_of(pieces)[i],
            )] == 0,
    ensures
        crate::efm_format::compiled_from(part, at, done) == crate::efm_format::compiled_from(
            part,
            (at + written_all(pieces).len()) as int,
            after,
        ),
        after.pattern == done.pattern + meaning_all(pieces, behind),
        after.prefix == done.prefix,
        after.flags == done.flags,
        after.conthere == (done.conthere || exists|i: int|
            0 <= i < pieces.len() && #[trigger] pieces[i] is Resume),
        groups_follow(done.addr, after.addr, fields_of(pieces)),
    decreases pieces.len(),
{
    if pieces.len() == 0 {
        assert(written_all(pieces).len() == 0);
        assert(done.pattern + meaning_all(pieces, behind) =~= done.pattern);
        done
    } else {
        let piece = pieces[0];
        let rest = pieces.drop_first();
        let next = (at + piece.written().len()) as int;
        assert(piece.written() + written_all(rest) + behind =~= piece.written() + (written_all(rest)
            + behind));
        let fields = fields_of(pieces);
        let later = fields_of(rest);
        if let Piece::Field(c) = piece {
            assert(fields == seq![c] + later);
            assert(fields[0] == c);
            assert(kind.takes(c));
            assert(forall|i: int| 0 <= i < later.len() ==> #[trigger] later[i] == fields[i + 1]);
            assert(later.no_duplicates()) by {
                assert forall|i: int, j: int|
                    0 <= i < later.len() && 0 <= j < later.len() && i != j implies later[i]
                    != later[j] by {
                    assert(fields[i + 1] != fields[j + 1]);
                }
            }
        }
        assert forall|i: int| 0 <= i < rest.len() implies (#[trigger] rest[i]).valid() by {
            assert(rest[i] == pieces[i + 1]);
        }
        lemma_piece(part, at, piece, written_all(rest) + behind, done);
        let step = behind_piece(done, piece, written_all(rest) + behind);
        assert(part.skip(next) =~= written_all(rest) + behind) by {
            assert(part.skip(next) =~= part.skip(at).skip(piece.written().len() as int));
        }
        if let Piece::Field(c) = piece {
            lemma_groups_bound(done.addr);
            lemma_groups(
                done.addr,
                place(c),
                (crate::efm_format::groups(done.addr) + 1) as u8,
            );
            assert forall|i: int| 0 <= i < later.len() implies step.addr[place(
                #[trigger] later[i],
            )] == 0 by {
                assert(later[i] == fields[i + 1]);
                assert(fields[0] != fields[i + 1]);
                lemma_fields_are_fields(pieces, i + 1);
                lemma_places_differ(c, later[i]);
            }
        }
        let after = lemma_pieces(part, next, kind, rest, behind, step);
        assert(after.pattern =~= done.pattern + meaning_all(pieces, behind));
        assert(after.conthere == (done.conthere || exists|i: int|
            0 <= i < pieces.len() && #[trigger] pieces[i] is Resume)) by {
            if exists|i: int| 0 <= i < rest.len() && #[trigger] rest[i] is Resume {
                let i = choose|i: int| 0 <= i < rest.len() && #[trigger] rest[i] is Resume;
                assert(pieces[i + 1] is Resume);
            }
            if exists|i: int| 0 <= i < pieces.len() && #[trigger] pieces[i] is Resume {
                let i = choose|i: int| 0 <= i < pieces.len() && #[trigger] pieces[i] is Resume;
                if i > 0 {
                    assert(rest[i - 1] is Resume);
                }
            }
        }
        if let Piece::Field(c) = piece {
            let n = crate::efm_format::groups(done.addr);
            assert(!later.contains(c)) by {
                if later.contains(c) {
                    let i = choose|i: int| 0 <= i < later.len() && later[i] == c;
                    assert(fields[0] == fields[i + 1]);
                }
            }
            assert(after.addr[place(c)] == n + 1);
            assert forall|i: int| 0 <= i < fields.len() implies after.addr[place(
                #[trigger] fields[i],
            )] == n + i + 1 by {
                if i > 0 {
                    assert(later[i - 1] == fields[i]);
                }
            }
            assert forall|d: char| is_field(d) && !fields.contains(d) implies after.addr[
            #[trigger] place(d)] == done.addr[place(d)] by {
                assert(fields[0] == c);
                assert(d != c);
                if later.contains(d) {
                    let i = choose|i: int| 0 <= i < later.len() && later[i] == d;
                    assert(fields[i + 1] == d);
                }
                lemma_places_differ(c, d);
            }
        }
        after
    }
}

proof fn lemma_places_differ(one: char, other: char)
    requires
        is_field(one),
        is_field(other),
        one != other,
    ensures
        place(one) != place(other),
        0 <= place(one) < 14,
        0 <= place(other) < 14,
{
}

proof fn lemma_fields_are_fields(pieces: Seq<Piece>, i: int)
    requires
        forall|i: int| 0 <= i < pieces.len() ==> (#[trigger] pieces[i]).valid(),
        0 <= i < fields_of(pieces).len(),
    ensures
        is_field(fields_of(pieces)[i]),
    decreases pieces.len(),
{
    if pieces.len() > 0 {
        let rest = pieces.drop_first();
        assert forall|i: int| 0 <= i < rest.len() implies (#[trigger] rest[i]).valid() by {
            assert(rest[i] == pieces[i + 1]);
        }
        if pieces[0] is Field {
            if i > 0 {
                lemma_fields_are_fields(rest, i - 1);
            }
        } else {
            lemma_fields_are_fields(rest, i);
        }
    }
}

/// Reading a kind and pieces behind it leaves what is written behind them.
proof fn lemma_kind_and_pieces(kind: Kind, pieces: Seq<Piece>, behind: Seq<u8>) -> (after:
    EfmPartView)
    requires
        fits(kind, pieces),
    ensures
        ({
            let part = kind.written() + written_all(pieces) + behind;
            &&& crate::efm_format::compiled_part(part) == crate::efm_format::compiled_from(
                part,
                (kind.written().len() + written_all(pieces).len()) as int,
                after,
            )
            &&& after.pattern == crate::efm_format::bytes_of("^\\c") + meaning_all(
                pieces,
                behind,
            )
            &&& after.prefix == kind.letter()
            &&& after.flags == kind.flag()
            &&& after.conthere == exists|i: int|
                0 <= i < pieces.len() && #[trigger] pieces[i] is Resume
            &&& after.addr.len() == 14
            &&& forall|i: int|
                0 <= i < fields_of(pieces).len() ==> after.addr[place(
                    #[trigger] fields_of(pieces)[i],
                )] == i + 1
            &&& forall|c: char|
                is_field(c) && !fields_of(pieces).contains(c) ==> after.addr[#[trigger] place(c)]
                    == 0
        }),
{
    let part = kind.written() + written_all(pieces) + behind;
    let start = crate::efm_format::unread_part();
    let at = kind.written().len() as int;
    let done = EfmPartView { prefix: kind.letter(), flags: kind.flag(), ..start };
    assert(part.skip(at) =~= written_all(pieces) + behind);
    assert(start.addr.len() == 14);
    lemma_no_groups(start.addr);
    if kind is Plain {
        assert(at == 0);
        assert(done == start);
    } else {
        assert(part[0] == kind.written()[0]);
        assert(part[1] == kind.written()[1]);
        if kind is Flagged {
            assert(part[2] == kind.written()[2]);
        }
        assert(crate::efm_format::compiled_part(part) == crate::efm_format::compiled_from(
            part,
            at,
            done,
        ));
    }
    assert forall|i: int| 0 <= i < fields_of(pieces).len() implies done.addr[place(
        #[trigger] fields_of(pieces)[i],
    )] == 0 by {
        lemma_fields_are_fields(pieces, i);
    }
    lemma_pieces(part, at, kind, pieces, behind, done)
}

/// An alternative means its pieces one after the other, between the anchors
/// `^\c` and `$`; its fields get the capture groups in order, and its kind and
/// flag are those that it starts with.
pub proof fn law_alternative_means_its_pieces(kind: Kind, pieces: Seq<Piece>)
    requires
        fits(kind, pieces),
    ensures
        ({
            let compiled = crate::efm_format::compiled_part(kind.written() + written_all(pieces));
            let part = compiled->Ok_0;
            &&& compiled is Ok
            &&& part.pattern == crate::efm_format::bytes_of("^\\c") + meaning_all(
                pieces,
                Seq::empty(),
            ) + seq!['$' as u8]
            &&& part.prefix == kind.letter()
            &&& part.flags == kind.flag()
            &&& part.conthere == exists|i: int|
                0 <= i < pieces.len() && #[trigger] pieces[i] is Resume
            &&& forall|i: int|
                0 <= i < fields_of(pieces).len() ==> part.addr[place(
                    #[trigger] fields_of(pieces)[i],
                )] == i + 1
            &&& forall|c: char|
                is_field(c) && !fields_of(pieces).contains(c) ==> part.addr[#[trigger] place(c)]
                    == 0
        }),
{
    let after = lemma_kind_and_pieces(kind, pieces, Seq::empty());
    let part = kind.written() + written_all(pieces);
    assert(part + Seq::<u8>::empty() =~= part);
    assert(after.pattern.push('$' as u8) =~= after.pattern + seq!['$' as u8]);
}

/// The alternative that is one field alone is that field's group between the
/// anchors: `.\+` for `%f`, `%m`, `%s` and `%o`, `\d\+` for `%b`, `%n`, `%l`,
/// `%e`, `%c`, `%k` and `%v`, `.` for `%t`, `[-\t .]*` for `%p`, and, in one of
/// the kinds of files, `.*` for `%r`.
pub proof fn law_each_field_has_its_pattern(c: char, kind: Kind)
    requires
        is_field(c),
        kind.valid(),
        kind.takes(c),
    ensures
        ({
            let compiled = crate::efm_format::compiled_part(
                kind.written() + seq!['%' as u8, c as u8],
            );
            let body = if c == 'f' || c == 'm' || c == 's' || c == 'o' {
                crate::efm_format::bytes_of(".\\+")
            } else if c == 't' {
                crate::efm_format::bytes_of(".")
            } else if c == 'r' {
                crate::efm_format::bytes_of(".*")
            } else if c == 'p' {
                crate::efm_format::bytes_of("[-\t .]*")
            } else {
                crate::efm_format::bytes_of("\\d\\+")
            };
            &&& compiled is Ok
            &&& compiled->Ok_0.pattern == crate::efm_format::bytes_of("^\\c")
                + crate::efm_format::bytes_of("\\(") + body + crate::efm_format::bytes_of("\\)")
                + seq!['$' as u8]
            &&& compiled->Ok_0.addr[place(c)] == 1
        }),
{
    let pieces = seq![Piece::Field(c)];
    assert(pieces.drop_first() =~= Seq::empty());
    reveal_with_fuel(fields_of, 2);
    reveal_with_fuel(written_all, 2);
    reveal_with_fuel(meaning_all, 2);
    assert(fields_of(pieces) =~= seq![c]);
    assert(fields_of(pieces)[0] == c);
    assert(written_all(pieces) =~= seq!['%' as u8, c as u8]);
    law_alternative_means_its_pieces(kind, pieces);
    let compiled = crate::efm_format::compiled_part(kind.written() + seq!['%' as u8, c as u8]);
    let body = caught_by(c, Seq::empty());
    assert(written_all(pieces.drop_first()) + Seq::<u8>::empty() =~= Seq::<u8>::empty());
    assert(compiled->Ok_0.pattern =~= crate::efm_format::bytes_of("^\\c")
        + crate::efm_format::bytes_of("\\(") + body + crate::efm_format::bytes_of("\\)")
        + seq!['$' as u8]);
}

/// A name, a line number and a message with colons between them.
spec fn name_line_message() -> Seq<Piece> {
    seq![
        Piece::Field('f'),
        Piece::Plain(':' as u8),
        Piece::Field('l'),
        Piece::Plain(':' as u8),
        Piece::Field('m'),
    ]
}

proof fn lemma_name_line_message_written()
    ensures
        fields_of(name_line_message()) == seq!['f', 'l', 'm'],
        written_all(name_line_message()) == seq![
            '%' as u8,
            'f' as u8,
            ':' as u8,
            '%' as u8,
            'l' as u8,
            ':' as u8,
            '%' as u8,
            'm' as u8,
        ],
{
    let p0 = name_line_message();
    let p1 = p0.drop_first();
    let p2 = p1.drop_first();
    let p3 = p2.drop_first();
    let p4 = p3.drop_first();
    let p5 = p4.drop_first();
    assert(fields_of(p5) =~= Seq::empty());
    assert(fields_of(p4) =~= seq!['m']);
    assert(fields_of(p3) =~= seq!['m']);
    assert(fields_of(p2) =~= seq!['l', 'm']);
    assert(fields_of(p1) =~= seq!['l', 'm']);
    assert(fields_of(p0) =~= seq!['f', 'l', 'm']);
    assert(written_all(p5) =~= Seq::empty());
    assert(written_all(p4) =~= seq!['%' as u8, 'm' as u8]);
    assert(written_all(p3) =~= seq![':' as u8] + written_all(p4));
    assert(written_all(p2) =~= seq!['%' as u8, 'l' as u8] + written_all(p3));
    assert(written_all(p1) =~= seq![':' as u8] + written_all(p2));
    assert(written_all(p0) =~= seq!['%' as u8, 'f' as u8] + written_all(p1));
}

proof fn lemma_name_line_message_meant()
    ensures
        ({
            let open = crate::efm_format::bytes_of("\\(");
            let close = crate::efm_format::bytes_of("\\)");
            meaning_all(name_line_message(), Seq::empty()) == open + crate::efm_format::bytes_of(
                ".\\{-1,}",
            ) + close + (seq![':' as u8] + (open + crate::efm_format::bytes_of("\\d\\+") + close + (
            seq![':' as u8] + (open + crate::efm_format::bytes_of(".\\+") + close))))
        }),
{
    let none = Seq::<u8>::empty();
    let open = crate::efm_format::bytes_of("\\(");
    let close = crate::efm_format::bytes_of("\\)");
    let p0 = name_line_message();
    let p1 = p0.drop_first();
    let p2 = p1.drop_first();
    let p3 = p2.drop_first();
    let p4 = p3.drop_first();
    let p5 = p4.drop_first();
    assert(written_all(p1)[0] == ':' as u8) by {
        assert(p1[0] == Piece::Plain(':' as u8));
    }
    assert(meaning_all(p5, none) =~= none);
    assert(meaning_all(p4, none) =~= open + crate::efm_format::bytes_of(".\\+") + close) by {
        assert(written_all(p5) + none =~= none);
    }
    assert(meaning_all(p3, none) == seq![':' as u8] + meaning_all(p4, none));
    assert(meaning_all(p2, none) == open + crate::efm_format::bytes_of("\\d\\+") + close
        + meaning_all(p3, none));
    assert(meaning_all(p1, none) == seq![':' as u8] + meaning_all(p2, none));
    assert(meaning_all(p0, none) == open + crate::efm_format::bytes_of(".\\{-1,}") + close
        + meaning_all(p1, none));
}

/// The format of most compilers, a name, a line number and a message with
/// colons between them, means `^\c\(.\{-1,}\):\(\d\+\):\(.\+\)$`.
pub proof fn law_name_line_message()
    ensures
        ({
            let spec = seq![
                '%' as u8,
                'f' as u8,
                ':' as u8,
                '%' as u8,
                'l' as u8,
                ':' as u8,
                '%' as u8,
                'm' as u8,
            ];
            let open = crate::efm_format::bytes_of("\\(");
            let close = crate::efm_format::bytes_of("\\)");
            let compiled = crate::efm_format::compiled_part(spec);
            &&& compiled is Ok
            &&& compiled->Ok_0.pattern == crate::efm_format::bytes_of("^\\c") + (open
                + crate::efm_format::bytes_of(".\\{-1,}") + close + (seq![':' as u8] + (open
                + crate::efm_format::bytes_of("\\d\\+") + close + (seq![':' as u8] + (open
                + crate::efm_format::bytes_of(".\\+") + close))))) + seq!['$' as u8]
            &&& compiled->Ok_0.addr[place('f')] == 1
            &&& compiled->Ok_0.addr[place('l')] == 2
            &&& compiled->Ok_0.addr[place('m')] == 3
        }),
{
    let pieces = name_line_message();
    lemma_name_line_message_written();
    lemma_name_line_message_meant();
    assert(Kind::Plain.written() + written_all(pieces) =~= written_all(pieces));
    let fields = fields_of(pieces);
    assert(fields[0] == 'f' && fields[1] == 'l' && fields[2] == 'm');
    law_alternative_means_its_pieces(Kind::Plain, pieces);
}

/// An error with the given number and words.
pub open spec fn refused(part: Seq<u8>, code: Seq<char>, words: Seq<char>) -> bool {
    crate::efm_format::compiled_part(part) == Err::<EfmPartView, _>(
        EfmErrorView { code, message: words },
    )
}

/// Behind any pieces, and whatever follows, a field that an alternative has
/// already is refused, and so is one that its kind does not take.
pub proof fn law_misused_fields_are_refused(
    kind: Kind,
    pieces: Seq<Piece>,
    c: char,
    more: Seq<u8>,
)
    requires
        fits(kind, pieces),
        is_field(c),
    ensures
        ({
            let part = kind.written() + written_all(pieces) + (seq!['%' as u8, c as u8] + more);
            &&& fields_of(pieces).contains(c) ==> refused(
                part,
                "E372"@,
                "Too many %"@ + seq![c] + " in format string"@,
            )
            &&& !fields_of(pieces).contains(c) && !kind.takes(c) ==> refused(
                part,
                "E373"@,
                "Unexpected %"@ + seq![c] + " in format string"@,
            )
        }),
{
    let before = kind.written() + written_all(pieces);
    let n = before.len() as int;
    let behind = seq!['%' as u8, c as u8] + more;
    let done = lemma_kind_and_pieces(kind, pieces, behind);
    let part = before + behind;
    assert(part[n] == behind[0] && part[n + 1] == behind[1]);
    assert("Too many %"@.push(c) =~= "Too many %"@ + seq![c]);
    assert("Unexpected %"@.push(c) =~= "Unexpected %"@ + seq![c]);
    if fields_of(pieces).contains(c) {
        let i = choose|i: int| 0 <= i < fields_of(pieces).len() && fields_of(pieces)[i] == c;
        assert(done.addr[place(fields_of(pieces)[i])] == i + 1);
    } else {
        assert(done.addr[place(c)] == 0);
    }
}

/// Behind any pieces, and whatever follows, a `%` in front of nothing known is
/// refused; at the start of an alternative as an unknown kind.
pub proof fn law_unknown_items_are_refused(
    kind: Kind,
    pieces: Seq<Piece>,
    c: char,
    more: Seq<u8>,
)
    requires
        fits(kind, pieces),
        (c as int) < 128,
        !is_field(c),
        c != '*' && c != '%' && c != '\\' && c != '.' && c != '^' && c != '$' && c != '~',
        c != '[' && c != '#' && c != '>',
    ensures
        ({
            let before = kind.written() + written_all(pieces);
            let part = before + (seq!['%' as u8, c as u8] + more);
            &&& before.len() > 0 ==> refused(
                part,
                "E377"@,
                "Invalid %"@ + seq![c] + " in format string"@,
            )
            &&& before.len() == 0 && !is_kind(c) && c != '+' && c != '-' ==> refused(
                part,
                "E376"@,
                "Invalid %"@ + seq![c] + " in format string prefix"@,
            )
            &&& refused(before + seq!['%' as u8], "E377"@, "Invalid % in format string"@)
        }),
{
    let before = kind.written() + written_all(pieces);
    let n = before.len() as int;
    assert((c as u8) as char == c);
    let behind = seq!['%' as u8, c as u8] + more;
    let done = lemma_kind_and_pieces(kind, pieces, behind);
    let part = before + behind;
    assert(part[n] == behind[0] && part[n + 1] == behind[1]);
    assert("Invalid %"@.push(c) =~= "Invalid %"@ + seq![c]);
    let bare = seq!['%' as u8];
    let bared = lemma_kind_and_pieces(kind, pieces, bare);
    assert((before + bare)[n] == bare[0]);
}

/// Behind any pieces `%*` is refused unless a collection that ends or a class
/// follows it.
pub proof fn law_unsupported_repeats_are_refused(
    kind: Kind,
    pieces: Seq<Piece>,
    c: char,
    more: Seq<u8>,
)
    requires
        fits(kind, pieces),
        (c as int) < 128,
        c != '[' && c != '\\',
        forall|i: int| 0 <= i < more.len() ==> #[trigger] more[i] != ']' as u8,
    ensures
        ({
            let before = kind.written() + written_all(pieces);
            &&& refused(
                before + seq!['%' as u8, '*' as u8],
                "E375"@,
                "Unsupported %* in format string"@,
            )
            &&& refused(
                before + (seq!['%' as u8, '*' as u8, c as u8] + more),
                "E375"@,
                "Unsupported %*"@ + seq![c] + " in format string"@,
            )
            &&& refused(
                before + (seq!['%' as u8, '*' as u8, '[' as u8] + more),
                "E374"@,
                "Missing ] in format string"@,
            )
        }),
{
    let before = kind.written() + written_all(pieces);
    let n = before.len() as int;
    assert((c as u8) as char == c);
    assert("Unsupported %*"@.push(c) =~= "Unsupported %*"@ + seq![c]);
    let t3 = seq!['%' as u8, '*' as u8];
    let a3 = lemma_kind_and_pieces(kind, pieces, t3);
    assert((before + t3)[n] == t3[0] && (before + t3)[n + 1] == t3[1]);
    let t4 = seq!['%' as u8, '*' as u8, c as u8] + more;
    let a4 = lemma_kind_and_pieces(kind, pieces, t4);
    let s4 = before + t4;
    assert(s4[n] == t4[0] && s4[n + 1] == t4[1] && s4[n + 2] == t4[2]);
    let t5 = seq!['%' as u8, '*' as u8, '[' as u8] + more;
    let a5 = lemma_kind_and_pieces(kind, pieces, t5);
    let s5 = before + t5;
    assert(s5[n] == t5[0] && s5[n + 1] == t5[1] && s5[n + 2] == t5[2]);
    assert forall|i: int| n + 3 <= i < s5.len() implies #[trigger] s5[i] != ']' as u8 by {
        assert(s5[i] == more[i - n - 3]);
    }
    lemma_no_collection_end(s5, n + 4);
    lemma_no_collection_end(s5, n + 5);
}

proof fn lemma_no_collection_end(part: Seq<u8>, at: int)
    requires
        0 <= at,
        forall|i: int| at <= i < part.len() ==> #[trigger] part[i] != ']' as u8,
    ensures
        crate::efm_format::class_end(part, at) >= part.len(),
    decreases part.len() - at,
{
    if at < part.len() {
        lemma_no_collection_end(part, at + 1);
    }
}

/// A comma ends an alternative, and the next one starts behind the spaces that
/// follow it; a backslash keeps a comma.
pub proof fn law_commas_part_alternatives(one: Seq<u8>, spaces: Seq<u8>, other: Seq<u8>)
    requires
        one.len() > 0,
        forall|i: int|
            0 <= i < one.len() ==> #[trigger] one[i] != ',' as u8 && one[i] != '\\' as u8,
        forall|i: int| 0 <= i < spaces.len() ==> #[trigger] spaces[i] == ' ' as u8,
        other.len() > 0 ==> other[0] != ' ' as u8,
    ensures
        crate::efm_format::spec_parts(one + seq![',' as u8] + spaces + other, 0) == seq![one]
            + crate::efm_format::spec_parts(other, 0),
        crate::efm_format::spec_parts(one + seq!['\\' as u8, ',' as u8] + one, 0) == seq![one
            + seq!['\\' as u8, ',' as u8] + one],
{
    let head = one + seq![',' as u8] + spaces;
    let s = head + other;
    assert(one + seq![',' as u8] + spaces + other == s);
    let n = one.len() as int;
    assert(forall|i: int| 0 <= i < n ==> #[trigger] s[i] == one[i]);
    assert(s[n] == ',' as u8);
    lemma_plain_stretch(s, 0, n);
    assert forall|i: int| n + 1 <= i < n + 1 + spaces.len() implies #[trigger] s[i]
        == ' ' as u8 by {
        assert(s[i] == spaces[i - n - 1]);
    }
    assert(other.len() > 0 ==> s[n + 1 + spaces.len()] == other[0]);
    lemma_spaces(s, n + 1, (n + 1 + spaces.len()) as int);
    lemma_parts_behind(head, other, 0);
    assert(s.subrange(0, n) =~= one);
    // A kept comma.
    let kept = one + seq!['\\' as u8, ',' as u8] + one;
    assert(forall|i: int| 0 <= i < n ==> #[trigger] kept[i] == one[i]);
    assert(kept[n] == '\\' as u8 && kept[n + 1] == ',' as u8);
    assert(forall|i: int| n + 2 <= i < kept.len() ==> #[trigger] kept[i] == one[i - n - 2]);
    lemma_plain_stretch(kept, 0, n);
    lemma_plain_stretch(kept, n + 2, kept.len() as int);
    assert(crate::efm_format::part_end(kept, 0) == kept.len());
    assert(kept.subrange(0, kept.len() as int) =~= kept);
    assert(crate::efm_format::part_start_after(kept, kept.len() as int) == kept.len());
    assert(crate::efm_format::spec_parts(kept, kept.len() as int) =~= Seq::empty());
    assert(crate::efm_format::spec_parts(kept, 0) =~= seq![kept]);
}

proof fn lemma_plain_stretch(s: Seq<u8>, at: int, end: int)
    requires
        0 <= at <= end <= s.len(),
        forall|i: int| at <= i < end ==> #[trigger] s[i] != ',' as u8 && s[i] != '\\' as u8,
    ensures
        crate::efm_format::part_end(s, at) == crate::efm_format::part_end(s, end),
    decreases end - at,
{
    if at < end {
        lemma_plain_stretch(s, at + 1, end);
    }
}

proof fn lemma_spaces(s: Seq<u8>, at: int, end: int)
    requires
        0 <= at <= end <= s.len(),
        forall|i: int| at <= i < end ==> #[trigger] s[i] == ' ' as u8,
        end < s.len() ==> s[end] != ' ' as u8,
    ensures
        crate::efm_format::behind_spaces(s, at) == end,
    decreases end - at,
{
    if at < end {
        lemma_spaces(s, at + 1, end);
    }
}

proof fn lemma_part_end_behind(head: Seq<u8>, s: Seq<u8>, at: int)
    requires
        0 <= at,
    ensures
        crate::efm_format::part_end(head + s, head.len() + at) == head.len()
            + crate::efm_format::part_end(s, at) || at > s.len(),
    decreases s.len() - at,
{
    if at < s.len() {
        assert((head + s)[head.len() + at] == s[at]);
        lemma_part_end_behind(head, s, at + 1);
        if at + 2 <= s.len() {
            lemma_part_end_behind(head, s, at + 2);
        }
    }
}

proof fn lemma_spaces_behind(head: Seq<u8>, s: Seq<u8>, at: int)
    requires
        0 <= at,
    ensures
        crate::efm_format::behind_spaces(head + s, head.len() + at) == head.len()
            + crate::efm_format::behind_spaces(s, at),
    decreases s.len() - at,
{
    if at < s.len() {
        assert((head + s)[head.len() + at] == s[at]);
        lemma_spaces_behind(head, s, at + 1);
    }
}

/// Where alternatives end does not depend on what stands in front of them.
proof fn lemma_parts_behind(head: Seq<u8>, s: Seq<u8>, at: int)
    requires
        0 <= at,
    ensures
        crate::efm_format::spec_parts(head + s, head.len() + at) == crate::efm_format::spec_parts(
            s,
            at,
        ),
    decreases s.len() - at,
{
    if at < s.len() {
        let end = crate::efm_format::part_end(s, at);
        crate::efm_format::lemma_part_end(s, at);
        lemma_part_end_behind(head, s, at);
        lemma_spaces_behind(head, s, end);
        lemma_spaces_behind(head, s, end + 1);
        crate::efm_format::lemma_behind_spaces(s, end);
        crate::efm_format::lemma_behind_spaces(s, end + 1);
        let next = crate::efm_format::part_start_after(s, end);
        lemma_parts_behind(head, s, next);
        assert((head + s).subrange(head.len() + at, head.len() + end) =~= s.subrange(at, end));
    }
}

/// The alternatives of a format are compiled one by one and stay in order; the
/// first that is refused decides what the format is refused for.
pub proof fn law_alternatives_are_compiled_in_order(parts: Seq<Seq<u8>>)
    ensures
        crate::efm_format::compiled_parts(parts) is Ok <==> forall|i: int|
            0 <= i < parts.len() ==> crate::efm_format::compiled_part(#[trigger] parts[i]) is Ok,
        crate::efm_format::compiled_parts(parts) is Ok ==> {
            let compiled = crate::efm_format::compiled_parts(parts)->Ok_0;
            &&& compiled.len() == parts.len()
            &&& forall|i: int|
                0 <= i < parts.len() ==> crate::efm_format::compiled_part(#[trigger] parts[i])
                    == Ok::<_, EfmErrorView>(compiled[i])
        },
        forall|k: int|
            0 <= k < parts.len() && crate::efm_format::compiled_part(#[trigger] parts[k]) is Err
                && (forall|i: int|
                0 <= i < k ==> crate::efm_format::compiled_part(#[trigger] parts[i]) is Ok)
                ==> crate::efm_format::compiled_parts(parts) is Err
                && crate::efm_format::compiled_parts(parts)->Err_0
                == crate::efm_format::compiled_part(parts[k])->Err_0,
    decreases parts.len(),
{
    if parts.len() > 0 {
        let fewer = parts.drop_last();
        law_alternatives_are_compiled_in_order(fewer);
        let last = parts.len() - 1;
        assert(parts.last() == parts[last]);
        assert(forall|i: int| 0 <= i < fewer.len() ==> #[trigger] fewer[i] == parts[i]);
        let before = crate::efm_format::compiled_parts(fewer);
        if before is Ok {
            assert forall|i: int| 0 <= i < last implies crate::efm_format::compiled_part(
                #[trigger] parts[i],
            ) == Ok::<_, EfmErrorView>(before->Ok_0[i]) by {
                assert(fewer[i] == parts[i]);
            }
        } else {
            assert(exists|i: int|
                0 <= i < fewer.len() && !(crate::efm_format::compiled_part(#[trigger] fewer[i])
                    is Ok));
            let i = choose|i: int|
                0 <= i < fewer.len() && !(crate::efm_format::compiled_part(#[trigger] fewer[i])
                    is Ok);
            assert(crate::efm_format::compiled_part(parts[i]) is Err);
        }
        assert forall|k: int|
            0 <= k < parts.len() && crate::efm_format::compiled_part(#[trigger] parts[k]) is Err
                && (forall|i: int|
                0 <= i < k ==> crate::efm_format::compiled_part(#[trigger] parts[i])
                    is Ok) implies crate::efm_format::compiled_parts(parts) is Err
            && crate::efm_format::compiled_parts(parts)->Err_0
            == crate::efm_format::compiled_part(parts[k])->Err_0 by {
            if k < last {
                assert(fewer[k] == parts[k]);
                assert forall|i: int| 0 <= i < k implies crate::efm_format::compiled_part(
                    #[trigger] fewer[i],
                ) is Ok by {
                    assert(fewer[i] == parts[i]);
                }
            } else {
                assert forall|i: int| 0 <= i < fewer.len() implies
                    crate::efm_format::compiled_part(#[trigger] fewer[i]) is Ok by {
                    assert(fewer[i] == parts[i]);
                }
            }
        }
    }
}

/// A format of nothing, or of one alternative without a comma, is refused for
/// want of a pattern, or compiled as that alternative.
pub proof fn law_format_of_one_alternative(part: Seq<u8>)
    requires
        forall|i: int| 0 <= i < part.len() ==> #[trigger] part[i] != ',' as u8,
    ensures
        part.len() == 0 ==> crate::efm_format::compiled_format(part) == Err::<Seq<EfmPartView>, _>(
            EfmErrorView { code: "E378"@, message: "'errorformat' contains no pattern"@ },
        ),
        part.len() > 0 && crate::efm_format::compiled_part(part) is Ok
            ==> crate::efm_format::compiled_format(part) == Ok::<_, EfmErrorView>(
            seq![crate::efm_format::compiled_part(part)->Ok_0],
        ),
        part.len() > 0 && crate::efm_format::compiled_part(part) is Err
            ==> crate::efm_format::compiled_format(part) == Err::<Seq<EfmPartView>, _>(
            crate::efm_format::compiled_part(part)->Err_0,
        ),
{
    if part.len() > 0 {
        crate::efm_format::law_only_commas_end_alternatives(part);
        let parts = seq![part];
        assert(parts.drop_last() =~= Seq::empty());
        reveal_with_fuel(crate::efm_format::compiled_parts, 2);
        assert(Seq::<EfmPartView>::empty().push(crate::efm_format::compiled_part(part)->Ok_0)
            =~= seq![crate::efm_format::compiled_part(part)->Ok_0]);
    }
}

} // verus!
