//! `'errorformat'` per-line parser: turns matched lines into error entries.
//!
//! Keeps the directory stack (`%D`/`%X`), the file stack (`%P`/`%Q`), the
//! multi-line state (`%A`/`%C`/`%Z`/`%E`/`%W`/`%I`/`%N`) and the `%>` resume
//! place across lines. Which alternatives match a line, and where, comes in as
//! capture groups.

use vstd::prelude::*;

use crate::efm_format::{dir_kind, file_kind, EfmError, EfmPart, ErrorFormat, FMT_PATTERNS,
    FMT_PATTERN_M, FMT_PATTERN_R, MINUS, PLUS};
use crate::efm_names::{
    atoi, expand_env, is_abs_name, is_printable, join_fnames, pop_dir, push_dir, skipwhite,
    Surroundings,
};
use crate::text::slice_text;

verus! {

/// The host's buffers as the parser asks for them.
pub struct BufferBook {
    /// Numbers of the buffers that exist.
    pub numbers: Set<i64>,
    /// The number that asking for a name gives; zero on failure.
    pub number_for: spec_fn(Seq<char>) -> i64,
    /// The numbers that names were given.
    pub known: Map<Seq<char>, i64>,
}

/// What asking for `name` does to the host's buffers: the name is given its
/// number, unless that failed; numbers given before stay, and no buffer goes.
pub open spec fn gives_number(before: BufferBook, after: BufferBook, name: Seq<char>) -> bool {
    let nr = (before.number_for)(name);
    &&& after.known == if nr == 0 {
        before.known
    } else {
        before.known.insert(name, nr)
    }
    &&& forall|n: Seq<char>| #[trigger]
        after.known.contains_key(n) ==> (after.number_for)(n) == after.known[n]
    &&& before.numbers.subset_of(after.numbers)
}

/// Host services the parser needs from the editor (buffer table).
pub trait EfmContext {
    /// The host's buffers.
    spec fn book(&self) -> BufferBook;

    /// The names that were asked for, in order.
    spec fn asked(&self) -> Seq<Seq<char>>;

    /// Whether buffer number `nr` exists.
    fn buffer_exists(&mut self, nr: i64) -> (exists: bool)
        ensures
            exists == old(self).book().numbers.contains(nr),
            final(self).book() == old(self).book(),
            final(self).asked() == old(self).asked(),
    ;

    /// Finds or creates a buffer for `name`, returning its number, zero on
    /// failure.
    fn buffer_for_name(&mut self, name: &str) -> (nr: i64)
        ensures
            nr == (old(self).book().number_for)(name@),
            gives_number(old(self).book(), final(self).book(), name@),
            final(self).asked() == old(self).asked().push(name@),
    ;
}

/// The host was asked for that name, or for none.
pub open spec fn asks<C: EfmContext>(before: C, after: C, name: Option<Seq<char>>) -> bool {
    match name {
        Some(name) => {
            &&& gives_number(before.book(), after.book(), name)
            &&& after.asked() == before.asked().push(name)
        },
        None => after.book() == before.book() && after.asked() == before.asked(),
    }
}

/// Buffers numbered in the order in which they are first asked for, beside
/// buffers that existed before.
#[derive(Debug, PartialEq, Eq)]
pub struct BufferNames {
    /// Names asked for so far; the first has number one.
    pub names: Vec<String>,
    /// Numbers of other buffers that exist.
    pub existing: Vec<i64>,
    /// Every name asked for, each time it was.
    pub asked: Vec<String>,
}

/// The number of `name` among `names`, one past the last if it is new; zero if
/// no number is left.
pub open spec fn listed_number(names: Seq<Seq<char>>, name: Seq<char>) -> i64 {
    if names.contains(name) && names.index_of_first(name)->0 < i64::MAX {
        (names.index_of_first(name)->0 + 1) as i64
    } else if !names.contains(name) && names.len() < i64::MAX {
        (names.len() + 1) as i64
    } else {
        0
    }
}

/// The numbers of the names that have one.
pub open spec fn listed_numbers(names: Seq<Seq<char>>) -> Map<Seq<char>, i64> {
    Map::new(
        |name: Seq<char>| names.contains(name) && listed_number(names, name) != 0,
        |name: Seq<char>| listed_number(names, name),
    )
}

/// A new name changes no other's number.
proof fn lemma_listed_push(names: Seq<Seq<char>>, name: Seq<char>)
    requires
        !names.contains(name),
        names.len() < i64::MAX,
    ensures
        listed_numbers(names.push(name)) == listed_numbers(names).insert(
            name,
            (names.len() + 1) as i64,
        ),
{
    let longer = names.push(name);
    assert(longer[names.len() as int] == name);
    assert forall|n: Seq<char>| #[trigger] longer.contains(n) <==> names.contains(n) || n
        == name by {
        if names.contains(n) {
            let at = choose|i: int| 0 <= i < names.len() && names[i] == n;
            assert(longer[at] == n);
        }
    }
    assert forall|n: Seq<char>| #[trigger] longer.contains(n) implies listed_number(longer, n)
        == if n == name {
        (names.len() + 1) as i64
    } else {
        listed_number(names, n)
    } by {
        longer.index_of_first_ensures(n);
        names.index_of_first_ensures(n);
        let first = longer.index_of_first(n)->0;
        if n == name {
            if first < names.len() {
                assert(names[first] == name);
            }
        } else {
            let was = names.index_of_first(n)->0;
            assert(longer[was] == n);
            assert(names[first] == n);
        }
    }
    assert(listed_numbers(longer) =~= listed_numbers(names).insert(
        name,
        (names.len() + 1) as i64,
    ));
}

impl EfmContext for BufferNames {
    open spec fn book(&self) -> BufferBook {
        BufferBook {
            numbers: self.existing@.to_set(),
            number_for: |name: Seq<char>|
                listed_number(crate::efm_names::texts(self.names@), name),
            known: listed_numbers(crate::efm_names::texts(self.names@)),
        }
    }

    open spec fn asked(&self) -> Seq<Seq<char>> {
        crate::efm_names::texts(self.asked@)
    }

    fn buffer_exists(&mut self, nr: i64) -> (exists: bool) {
        let mut next: usize = 0;
        while next < self.existing.len()
            invariant
                *self == *old(self),
                next <= self.existing@.len(),
                forall|i: int| 0 <= i < next ==> (#[trigger] self.existing@[i]) != nr,
            decreases self.existing@.len() - next,
        {
            if self.existing[next] == nr {
                assert(self.existing@.contains(nr));
                return true;
            }
            next = next + 1;
        }
        assert(!self.existing@.contains(nr));
        false
    }

    fn buffer_for_name(&mut self, name: &str) -> (nr: i64)
        ensures
            crate::efm_names::texts(final(self).names@) == (if crate::efm_names::texts(
                old(self).names@,
            ).contains(name@) || old(self).names@.len() >= i64::MAX {
                crate::efm_names::texts(old(self).names@)
            } else {
                crate::efm_names::texts(old(self).names@).push(name@)
            }),
            final(self).existing == old(self).existing,
    {
        let ghost names = crate::efm_names::texts(self.names@);
        self.asked.push(name.to_owned());
        assert(crate::efm_names::texts(self.asked@) =~= crate::efm_names::texts(
            old(self).asked@,
        ).push(name@));
        let mut next: usize = 0;
        while next < self.names.len()
            invariant
                *self == (BufferNames { asked: self.asked, ..*old(self) }),
                self.asked() == old(self).asked().push(name@),
                names == crate::efm_names::texts(self.names@),
                next <= self.names@.len(),
                forall|i: int| 0 <= i < next ==> (#[trigger] names[i]) != name@,
            decreases self.names@.len() - next,
        {
            if crate::text::same_text(self.names[next].as_str(), name) {
                proof {
                    assert(names[next as int] == name@);
                    assert(names.contains(name@));
                    names.index_of_first_ensures(name@);
                    let first = names.index_of_first(name@)->0;
                    if first < next {
                        assert(names[first] != name@);
                    }
                    if listed_number(names, name@) != 0 {
                        assert(listed_numbers(names).insert(name@, listed_number(names, name@))
                            =~= listed_numbers(names));
                    }
                    assert(self.book() == old(self).book());
                }
                return if (next as u64) < i64::MAX as u64 {
                    next as i64 + 1
                } else {
                    0
                };
            }
            next = next + 1;
        }
        assert(!names.contains(name@));
        if self.names.len() as u64 >= i64::MAX as u64 {
            assert(self.book() == old(self).book());
            return 0;
        }
        let nr: i64 = self.names.len() as i64 + 1;
        self.names.push(name.to_owned());
        assert(crate::efm_names::texts(self.names@) =~= names.push(name@));
        proof {
            lemma_listed_push(names, name@);
        }
        nr
    }
}

/// Per-list parse state carried across lines.
#[derive(Debug, PartialEq, Eq)]
pub struct EfmState {
    /// `%D`/`%X` directory stack, top of stack last.
    pub dir_stack: Vec<String>,
    /// `%P`/`%Q` file stack, top of stack last.
    pub file_stack: Vec<String>,
    /// Directory relative filenames resolve against.
    pub directory: Option<String>,
    /// File pushed by `%P` used when an entry has no `%f`.
    pub currfile: Option<String>,
    /// Inside a multi-line `%A`/`%E`/`%W`/`%I`/`%N` block.
    pub multiline: bool,
    /// Inside a `%-`-excluded multi-line block.
    pub multiignore: bool,
    /// Re-scanning a `%r` tail.
    pub multiscan: bool,
    /// `%>` resume position: index into the alternatives.
    pub fmt_start: Option<usize>,
}

/// What an [`EfmState`] holds.
#[verifier::ext_equal]
pub struct EfmStateView {
    pub dir_stack: Seq<Seq<char>>,
    pub file_stack: Seq<Seq<char>>,
    pub directory: Option<Seq<char>>,
    pub currfile: Option<Seq<char>>,
    pub multiline: bool,
    pub multiignore: bool,
    pub multiscan: bool,
    pub fmt_start: Option<usize>,
}

impl View for EfmState {
    type V = EfmStateView;

    open spec fn view(&self) -> EfmStateView {
        EfmStateView {
            dir_stack: crate::efm_names::texts(self.dir_stack@),
            file_stack: crate::efm_names::texts(self.file_stack@),
            directory: crate::efm_names::opt_text(self.directory),
            currfile: crate::efm_names::opt_text(self.currfile),
            multiline: self.multiline,
            multiignore: self.multiignore,
            multiscan: self.multiscan,
            fmt_start: self.fmt_start,
        }
    }
}

impl Default for EfmState {
    fn default() -> (state: Self)
        ensures
            state@ == (EfmStateView {
                dir_stack: Seq::empty(),
                file_stack: Seq::empty(),
                directory: None,
                currfile: None,
                multiline: false,
                multiignore: false,
                multiscan: false,
                fmt_start: None,
            }),
    {
        let state = EfmState {
            dir_stack: Vec::new(),
            file_stack: Vec::new(),
            directory: None,
            currfile: None,
            multiline: false,
            multiignore: false,
            multiscan: false,
            fmt_start: None,
        };
        assert(state@.dir_stack =~= Seq::empty());
        assert(state@.file_stack =~= Seq::empty());
        state
    }
}

/// A parsed error line after filename→buffer resolution.
#[derive(Debug, PartialEq, Eq)]
pub struct ParsedEntry {
    /// Resolved buffer number, or 0 when the entry has no file.
    pub bufnr: i64,
    /// `%o` module name.
    pub module: String,
    /// `%l` line number, or 0.
    pub lnum: i64,
    /// `%e` end line number, or 0.
    pub end_lnum: i64,
    /// `%c`/`%p`/`%v` column, or 0.
    pub col: i64,
    /// `%k` end column, or 0.
    pub end_col: i64,
    /// Column is a visual column (`%p`/`%v`).
    pub vcol: bool,
    /// `%n` error number, -1 when unset.
    pub nr: i64,
    /// `%s` search pattern (wrapped as `^\V…\$`).
    pub pattern: String,
    /// `%m` message text.
    pub text: String,
    /// `%t` type character, or 0.
    pub item_type: u8,
    /// Whether the entry has a usable position.
    pub valid: bool,
}

/// What a [`ParsedEntry`] holds.
#[verifier::ext_equal]
pub struct ParsedEntryView {
    pub bufnr: i64,
    pub module: Seq<char>,
    pub lnum: i64,
    pub end_lnum: i64,
    pub col: i64,
    pub end_col: i64,
    pub vcol: bool,
    pub nr: i64,
    pub pattern: Seq<char>,
    pub text: Seq<char>,
    pub item_type: u8,
    pub valid: bool,
}

impl View for ParsedEntry {
    type V = ParsedEntryView;

    open spec fn view(&self) -> ParsedEntryView {
        ParsedEntryView {
            bufnr: self.bufnr,
            module: self.module@,
            lnum: self.lnum,
            end_lnum: self.end_lnum,
            col: self.col,
            end_col: self.end_col,
            vcol: self.vcol,
            nr: self.nr,
            pattern: self.pattern@,
            text: self.text@,
            item_type: self.item_type,
            valid: self.valid,
        }
    }
}

/// Field values a `%C`/`%Z` continuation line contributes when the fold target
/// lives outside the current batch.
#[derive(Debug, PartialEq, Eq)]
pub struct Continuation {
    /// `%m` text to append after a newline, empty when absent.
    pub text: String,
    /// `%n` error number, applied when the target's `nr` is -1.
    pub nr: i64,
    /// `%t` type char, applied when printable and the target has none.
    pub item_type: u8,
    /// `%l` line number, applied when the target's is 0.
    pub lnum: i64,
    /// `%e` end line, applied when the target's is 0.
    pub end_lnum: i64,
    /// `%c`/`%p`/`%v` column, applied when the target's is 0.
    pub col: i64,
    /// `%k` end column, applied when the target's is 0.
    pub end_col: i64,
    /// Column is a visual column.
    pub vcol: bool,
    /// Resolved buffer number for a target with `bufnr == 0`.
    pub bufnr: i64,
}

/// What a [`Continuation`] holds.
#[verifier::ext_equal]
pub struct ContinuationView {
    pub text: Seq<char>,
    pub nr: i64,
    pub item_type: u8,
    pub lnum: i64,
    pub end_lnum: i64,
    pub col: i64,
    pub end_col: i64,
    pub vcol: bool,
    pub bufnr: i64,
}

impl View for Continuation {
    type V = ContinuationView;

    open spec fn view(&self) -> ContinuationView {
        ContinuationView {
            text: self.text@,
            nr: self.nr,
            item_type: self.item_type,
            lnum: self.lnum,
            end_lnum: self.end_lnum,
            col: self.col,
            end_col: self.end_col,
            vcol: self.vcol,
            bufnr: self.bufnr,
        }
    }
}

/// What one parsed input line produced.
#[derive(Debug, PartialEq, Eq)]
pub enum LineOutcome {
    /// The line produced an entry.
    Entry(ParsedEntry),
    /// The line was folded into the last entry (`%C`/`%Z`).
    Folded,
    /// The line was a `%C`/`%Z` continuation but there is no entry; the caller
    /// may fold the data into the target list's own last item.
    FoldOutside(Continuation),
    /// The line was consumed without producing an entry (`%-`-flagged formats,
    /// `%P`/`%Q` without tail, interior of an ignored multi-line block).
    Ignored,
    /// The rest of the line is to be matched and parsed again (`%r`).
    Rescan(String),
}

/// What a [`LineOutcome`] holds.
#[verifier::ext_equal]
pub enum LineOutcomeView {
    Entry(ParsedEntryView),
    Folded,
    FoldOutside(ContinuationView),
    Ignored,
    Rescan(Seq<char>),
}

impl View for LineOutcome {
    type V = LineOutcomeView;

    open spec fn view(&self) -> LineOutcomeView {
        match self {
            LineOutcome::Entry(entry) => LineOutcomeView::Entry(entry@),
            LineOutcome::Folded => LineOutcomeView::Folded,
            LineOutcome::FoldOutside(data) => LineOutcomeView::FoldOutside(data@),
            LineOutcome::Ignored => LineOutcomeView::Ignored,
            LineOutcome::Rescan(rest) => LineOutcomeView::Rescan(rest@),
        }
    }
}

/// Where an alternative's pattern matched: the byte range of each capture
/// group, first group first.
#[derive(Debug, PartialEq, Eq)]
pub struct LineMatch {
    /// Byte ranges of the capture groups that took part.
    pub captures: Vec<Option<(usize, usize)>>,
}

/// Scratch field values for one line.
struct Fields {
    namebuf: String,
    bnr: i64,
    module: String,
    errmsg: String,
    lnum: i64,
    end_lnum: i64,
    col: i64,
    end_col: i64,
    use_viscol: bool,
    pattern: String,
    enr: i64,
    item_type: u8,
    valid: bool,
}

/// The values of a line's fields.
#[verifier::ext_equal]
pub struct FieldsView {
    pub namebuf: Seq<char>,
    pub bnr: i64,
    pub module: Seq<char>,
    pub errmsg: Seq<char>,
    pub lnum: i64,
    pub end_lnum: i64,
    pub col: i64,
    pub end_col: i64,
    pub use_viscol: bool,
    pub pattern: Seq<char>,
    pub enr: i64,
    pub item_type: u8,
    pub valid: bool,
}

impl View for Fields {
    type V = FieldsView;

    closed spec fn view(&self) -> FieldsView {
        FieldsView {
            namebuf: self.namebuf@,
            bnr: self.bnr,
            module: self.module@,
            errmsg: self.errmsg@,
            lnum: self.lnum,
            end_lnum: self.end_lnum,
            col: self.col,
            end_col: self.end_col,
            use_viscol: self.use_viscol,
            pattern: self.pattern@,
            enr: self.enr,
            item_type: self.item_type,
            valid: self.valid,
        }
    }
}

impl FieldsView {
    /// The fields of a line that nothing was read from yet.
    pub open spec fn unread() -> FieldsView {
        FieldsView {
            namebuf: Seq::empty(),
            bnr: 0,
            module: Seq::empty(),
            errmsg: Seq::empty(),
            lnum: 0,
            end_lnum: 0,
            col: 0,
            end_col: 0,
            use_viscol: false,
            pattern: Seq::empty(),
            enr: (-1) as i64,
            item_type: 0,
            valid: true,
        }
    }

    /// The fields as the next alternative starts with them: unread, but for the
    /// validity and, in a rescan, the message.
    pub open spec fn reset(self, multiscan: bool) -> FieldsView {
        FieldsView {
            valid: self.valid,
            errmsg: if multiscan {
                self.errmsg
            } else {
                Seq::empty()
            },
            ..FieldsView::unread()
        }
    }

    /// The fields of a line that no alternative describes: the whole line as
    /// the message of an invalid entry without a place.
    pub open spec fn unmatched(self, line: Seq<char>) -> FieldsView {
        FieldsView { namebuf: Seq::empty(), lnum: 0, valid: false, errmsg: line, ..self }
    }
}

/// The byte range of field `index`'s capture group.
pub open spec fn capture_of(part: crate::efm_format::EfmPartView, found: LineMatch, index: int) -> Option<
    (usize, usize),
> {
    let group = part.addr[index] as int;
    if group == 0 || group > found.captures@.len() {
        None
    } else {
        found.captures@[group - 1]
    }
}

/// Screen cells of a pointer line: one per byte, a tab up to the next multiple
/// of eight.
pub open spec fn pointer_cells(bytes: Seq<u8>) -> int
    decreases bytes.len(),
{
    if bytes.len() == 0 {
        0
    } else {
        let cells = pointer_cells(bytes.drop_last()) + 1;
        if bytes.last() == 9 {
            (cells + 7) - (cells + 7) % 8
        } else {
            cells
        }
    }
}

/// The column that a pointer line points at.
pub open spec fn pointer_column(text: Seq<char>) -> i64 {
    let column = pointer_cells(vstd::utf8::encode_utf8(text)) + 1;
    if column > i64::MAX {
        i64::MAX
    } else {
        column as i64
    }
}

/// What reading fields gave: whether the line still matches, the fields so far,
/// and where the `%r` tail starts.
#[verifier::ext_equal]
pub struct Reading {
    pub ok: bool,
    pub fields: FieldsView,
    pub tail: Option<usize>,
}

/// The fields with `text` taken over for field `index`, other than `%f`, `%m`
/// and `%r`. A `%b` must name a buffer that exists.
pub open spec fn field_set(
    index: int,
    text: Seq<char>,
    fields: FieldsView,
    book: BufferBook,
) -> Option<FieldsView> {
    let number = crate::efm_names::number_of(text);
    let bytes = vstd::utf8::encode_utf8(text);
    if index == 1 {
        if book.numbers.contains(number) {
            Some(FieldsView { bnr: number, ..fields })
        } else {
            None
        }
    } else if index == 2 {
        Some(FieldsView { enr: number, ..fields })
    } else if index == 3 {
        Some(FieldsView { lnum: number, ..fields })
    } else if index == 4 {
        Some(FieldsView { end_lnum: number, ..fields })
    } else if index == 5 {
        Some(FieldsView { col: number, ..fields })
    } else if index == 6 {
        Some(FieldsView { end_col: number, ..fields })
    } else if index == 7 {
        Some(
            FieldsView {
                item_type: if bytes.len() > 0 {
                    bytes[0]
                } else {
                    0
                },
                ..fields
            },
        )
    } else if index == 10 {
        Some(FieldsView { col: pointer_column(text), use_viscol: true, ..fields })
    } else if index == 11 {
        Some(FieldsView { col: number, use_viscol: true, ..fields })
    } else if index == 12 {
        Some(FieldsView { pattern: "^\\V"@ + text + "\\$"@, ..fields })
    } else if index == 13 {
        Some(FieldsView { module: fields.module + text, ..fields })
    } else {
        Some(fields)
    }
}

/// Reads field `index` of a matched line. A `%f` is expanded, and for the file
/// kinds it must exist; `%+` takes the whole line as the message; an assigned
/// group that took no part in the match fails.
pub open spec fn field_read(
    line: Seq<char>,
    part: crate::efm_format::EfmPartView,
    found: LineMatch,
    index: int,
    before: Reading,
    multiscan: bool,
    book: BufferBook,
    world: Surroundings,
) -> Reading {
    let capture = capture_of(part, found, index);
    let text = crate::text::byte_slice(line, (capture->0).0 as int, (capture->0).1 as int);
    let failed = Reading { ok: false, ..before };
    if index == FMT_PATTERN_M && part.flags == PLUS && !multiscan {
        Reading { fields: FieldsView { errmsg: line, ..before.fields }, ..before }
    } else if part.addr[index] == 0 {
        before
    } else if capture is None {
        failed
    } else if index == 0 {
        let name = crate::efm_names::expanded(text, 0, world);
        Reading {
            ok: !(crate::efm_format::is_file_kind(part.prefix) && !world.paths.has_path(name)),
            fields: FieldsView { namebuf: name, ..before.fields },
            ..before
        }
    } else if index == FMT_PATTERN_M {
        Reading { fields: FieldsView { errmsg: text, ..before.fields }, ..before }
    } else if index == FMT_PATTERN_R {
        Reading { tail: Some((capture->0).0), ..before }
    } else {
        match field_set(index, text, before.fields, book) {
            Some(fields) => Reading { fields, ..before },
            None => failed,
        }
    }
}

/// Reads the fields from `index` on, until one fails.
pub open spec fn fields_read(
    line: Seq<char>,
    part: crate::efm_format::EfmPartView,
    found: LineMatch,
    index: int,
    before: Reading,
    multiscan: bool,
    book: BufferBook,
    world: Surroundings,
) -> Reading
    decreases FMT_PATTERNS - index,
{
    if !before.ok || index >= FMT_PATTERNS {
        before
    } else {
        fields_read(
            line,
            part,
            found,
            index + 1,
            field_read(line, part, found, index, before, multiscan, book, world),
            multiscan,
            book,
            world,
        )
    }
}

/// What one alternative makes of a line. In a rescan only the file kinds are
/// tried; a continuation needs an open block; the error kinds set the type.
pub open spec fn alternative_read(
    line: Seq<char>,
    part: crate::efm_format::EfmPartView,
    found: Option<LineMatch>,
    before: Reading,
    state: EfmStateView,
    book: BufferBook,
    world: Surroundings,
) -> Reading {
    let fresh = Reading { ok: false, fields: before.fields.reset(state.multiscan), tail: None };
    if state.multiscan && !crate::efm_format::is_file_kind(part.prefix) {
        Reading { ok: false, ..before }
    } else if found is None {
        fresh
    } else if (part.prefix == 0x43 || part.prefix == 0x5a) && !state.multiline {
        fresh
    } else {
        let typed = FieldsView {
            item_type: if part.prefix == 0x45 || part.prefix == 0x57 || part.prefix == 0x49
                || part.prefix == 0x4e {
                part.prefix
            } else {
                0
            },
            ..fresh.fields
        };
        fields_read(
            line,
            part,
            found->0,
            0,
            Reading { ok: true, fields: typed, tail: None },
            state.multiscan,
            book,
            world,
        )
    }
}

/// The first alternative from `at` on that matches the line, and what it read;
/// the number of alternatives if none does.
pub open spec fn line_read(
    line: Seq<char>,
    parts: Seq<crate::efm_format::EfmPartView>,
    found: Seq<Option<LineMatch>>,
    at: int,
    before: Reading,
    state: EfmStateView,
    book: BufferBook,
    world: Surroundings,
) -> (int, Reading)
    decreases parts.len() - at,
{
    if at >= parts.len() {
        (parts.len() as int, before)
    } else {
        let read = alternative_read(line, parts[at], found[at], before, state, book, world);
        if read.ok {
            (at, read)
        } else {
            line_read(line, parts, found, at + 1, read, state, book, world)
        }
    }
}

/// Cells of a pointer line. See [`pointer_cells`].
fn pointer_col(text: &str) -> (column: i64)
    ensures
        column == pointer_column(text@),
{
    let bytes = text.as_bytes();
    let mut cells: u128 = 0;
    let mut next: usize = 0;
    while next < bytes.len()
        invariant
            bytes@ == vstd::utf8::encode_utf8(text@),
            next <= bytes@.len(),
            cells == pointer_cells(bytes@.take(next as int)),
            cells <= 8 * next,
        decreases bytes@.len() - next,
    {
        proof {
            assert(bytes@.take(next + 1).drop_last() =~= bytes@.take(next as int));
        }
        cells = cells + 1;
        if bytes[next] == 9 {
            cells = cells + 7;
            cells = cells - cells % 8;
        }
        next = next + 1;
    }
    assert(bytes@.take(next as int) =~= bytes@);
    if cells >= i64::MAX as u128 {
        i64::MAX
    } else {
        cells as i64 + 1
    }
}

/// Takes over the text of a field other than `%f`, `%m` and `%r`.
fn fmt_field<C: EfmContext>(
    index: usize,
    text: &str,
    fields: &mut Fields,
    ctx: &mut C,
) -> (ok: bool)
    ensures
        final(ctx).book() == old(ctx).book(),
        final(ctx).asked() == old(ctx).asked(),
        match field_set(index as int, text@, old(fields)@, old(ctx).book()) {
            Some(set) => ok && final(fields)@ == set,
            None => !ok && final(fields)@ == old(fields)@,
        },
{
    match index {
        1 => {
            let nr: i64 = atoi(text);
            if !ctx.buffer_exists(nr) {
                return false;
            }
            fields.bnr = nr;
        },
        2 => {
            fields.enr = atoi(text);
        },
        3 => {
            fields.lnum = atoi(text);
        },
        4 => {
            fields.end_lnum = atoi(text);
        },
        5 => {
            fields.col = atoi(text);
        },
        6 => {
            fields.end_col = atoi(text);
        },
        7 => {
            let bytes = text.as_bytes();
            fields.item_type = if bytes.len() > 0 {
                bytes[0]
            } else {
                0
            };
        },
        10 => {
            fields.col = pointer_col(text);
            fields.use_viscol = true;
        },
        11 => {
            fields.col = atoi(text);
            fields.use_viscol = true;
        },
        12 => {
            let mut pattern = "^\\V".to_owned();
            pattern.append(text);
            pattern.append("\\$");
            fields.pattern = pattern;
        },
        13 => {
            fields.module.append(text);
        },
        _ => {},
    }
    true
}

/// The byte range of field `index`'s capture group.
pub(crate) fn find_capture(part: &EfmPart, found: &LineMatch, index: usize) -> (capture: Option<
    (usize, usize),
>)
    requires
        part.addr@.len() == FMT_PATTERNS,
        index < FMT_PATTERNS,
    ensures
        capture == capture_of(part@, *found, index as int),
{
    let group: usize = part.addr[index] as usize;
    if group == 0 || group > found.captures.len() {
        None
    } else {
        found.captures[group - 1]
    }
}

/// Extracts every `%x` field from a matched line.
fn parse_match<C: EfmContext>(
    line: &str,
    part: &EfmPart,
    found: &LineMatch,
    multiscan: bool,
    fields: &mut Fields,
    tail: &mut Option<usize>,
    ctx: &mut C,
    world: &Surroundings,
) -> (ok: bool)
    requires
        part.addr@.len() == FMT_PATTERNS,
    ensures
        final(ctx).book() == old(ctx).book(),
        final(ctx).asked() == old(ctx).asked(),
        (Reading { ok, fields: final(fields)@, tail: *final(tail) }) == fields_read(
            line@,
            part@,
            *found,
            0,
            Reading { ok: true, fields: old(fields)@, tail: *old(tail) },
            multiscan,
            old(ctx).book(),
            *world,
        ),
{
    let ghost start = Reading { ok: true, fields: fields@, tail: *tail };
    let ghost book = ctx.book();
    let mut index: usize = 0;
    while index < FMT_PATTERNS
        invariant
            part.addr@.len() == FMT_PATTERNS,
            index <= FMT_PATTERNS,
            book == old(ctx).book(),
            ctx.book() == book,
            ctx.asked() == old(ctx).asked(),
            start == (Reading { ok: true, fields: old(fields)@, tail: *old(tail) }),
            fields_read(line@, part@, *found, 0, start, multiscan, book, *world) == fields_read(
                line@,
                part@,
                *found,
                index as int,
                Reading { ok: true, fields: fields@, tail: *tail },
                multiscan,
                book,
                *world,
            ),
        decreases FMT_PATTERNS - index,
    {
        let ghost before = Reading { ok: true, fields: fields@, tail: *tail };
        let ghost step = field_read(
            line@,
            part@,
            *found,
            index as int,
            before,
            multiscan,
            book,
            *world,
        );
        let capture = find_capture(part, found, index);
        let mut ok: bool = true;
        if index == FMT_PATTERN_M && part.flags == PLUS && !multiscan {
            fields.errmsg = line.to_owned();
        } else if part.addr[index] != 0 {
            match capture {
                None => {
                    ok = false;
                },
                Some((from, to)) => {
                    let text = slice_text(line, from, to);
                    if index == 0 {
                        let name = expand_env(text.as_str(), world);
                        if file_kind(part.prefix) && !world.paths.path_exists(name.as_str()) {
                            ok = false;
                        }
                        fields.namebuf = name;
                    } else if index == FMT_PATTERN_M {
                        fields.errmsg = text;
                    } else if index == FMT_PATTERN_R {
                        *tail = Some(from);
                    } else {
                        ok = fmt_field(index, text.as_str(), fields, ctx);
                    }
                },
            }
        }
        assert(step == (Reading { ok, fields: fields@, tail: *tail }));
        if !ok {
            proof {
                reveal_with_fuel(fields_read, 2);
            }
            return false;
        }
        index = index + 1;
    }
    true
}

/// Resets the per-line fields and reads one alternative's match.
fn get_fields<C: EfmContext>(
    line: &str,
    part: &EfmPart,
    found: &Option<LineMatch>,
    multiline: bool,
    multiscan: bool,
    fields: &mut Fields,
    tail: &mut Option<usize>,
    ctx: &mut C,
    world: &Surroundings,
    Ghost(state): Ghost<EfmStateView>,
) -> (ok: bool)
    requires
        part.addr@.len() == FMT_PATTERNS,
        state.multiline == multiline,
        state.multiscan == multiscan,
    ensures
        final(ctx).book() == old(ctx).book(),
        final(ctx).asked() == old(ctx).asked(),
        forall|was_ok: bool|
            #![trigger alternative_read(
            line@,
            part@,
            *found,
            Reading { ok: was_ok, fields: old(fields)@, tail: *old(tail) },
            state,
            old(ctx).book(),
            *world,
        )]
            (Reading { ok, fields: final(fields)@, tail: *final(tail) }) == alternative_read(
                line@,
                part@,
                *found,
                Reading { ok: was_ok, fields: old(fields)@, tail: *old(tail) },
                state,
                old(ctx).book(),
                *world,
            ),
{
    if multiscan && !file_kind(part.prefix) {
        return false;
    }
    fields.namebuf = String::new();
    fields.bnr = 0;
    fields.module = String::new();
    fields.pattern = String::new();
    if !multiscan {
        fields.errmsg = String::new();
    }
    fields.lnum = 0;
    fields.end_lnum = 0;
    fields.col = 0;
    fields.end_col = 0;
    fields.use_viscol = false;
    fields.enr = -1;
    fields.item_type = 0;
    *tail = None;
    assert(fields@ =~= old(fields)@.reset(multiscan));
    match found {
        None => false,
        Some(found) => {
            let prefix: u8 = part.prefix;
            if (prefix == 0x43 || prefix == 0x5a) && !multiline {
                return false;
            }
            if prefix == 0x45 || prefix == 0x57 || prefix == 0x49 || prefix == 0x4e {
                fields.item_type = prefix;
            }
            parse_match(line, part, found, multiscan, fields, tail, ctx, world)
        },
    }
}

/// The full name of `fname` and the state after resolving it: a relative name
/// goes into the current directory if it exists there, else into the topmost
/// stack directory that has it.
pub open spec fn resolved(state: EfmStateView, fname: Seq<char>, world: Surroundings) -> (
    Seq<char>,
    EfmStateView,
) {
    if fname.len() == 0 || state.directory is None || crate::efm_names::is_absolute(fname) {
        (fname, state)
    } else {
        let joined = crate::efm_names::joined_path(state.directory->0, fname);
        if world.paths.has_path(joined) {
            (joined, state)
        } else {
            let after = EfmStateView {
                dir_stack: crate::efm_names::guessed_stack(state.dir_stack, fname, world.paths),
                ..state
            };
            match crate::efm_names::guessed_dir(state.dir_stack, fname, world.paths) {
                Some(dir) => (crate::efm_names::joined_path(dir, fname), after),
                None => (fname, after),
            }
        }
    }
}

/// Finds the stack directory below the top that contains `filename`, cleaning
/// up the entries in between.
fn guess_filepath(state: &mut EfmState, filename: &str, world: &Surroundings) -> (dir: Option<
    String,
>)
    ensures
        final(state)@ == (EfmStateView {
            dir_stack: crate::efm_names::guessed_stack(
                old(state)@.dir_stack,
                filename@,
                world.paths,
            ),
            ..old(state)@
        }),
        crate::efm_names::opt_text(dir) == crate::efm_names::guessed_dir(
            old(state)@.dir_stack,
            filename@,
            world.paths,
        ),
{
    let ghost before = state@;
    let ghost stack = state@.dir_stack;
    if state.dir_stack.len() == 0 {
        return None;
    }
    let top: usize = state.dir_stack.len() - 1;
    let mut n: usize = top;
    while n > 0
        invariant
            n <= top,
            top == stack.len() - 1,
            stack == crate::efm_names::texts(state.dir_stack@),
            crate::efm_names::topmost_path(stack, filename@, world.paths, top as int)
                == crate::efm_names::topmost_path(stack, filename@, world.paths, n as int),
            *state == *old(state),
        ensures
            crate::efm_names::topmost_path(stack, filename@, world.paths, top as int) == (if n > 0 {
                Some(n - 1)
            } else {
                None
            }),
        decreases n,
    {
        let joined = join_fnames(state.dir_stack[n - 1].as_str(), filename);
        assert(stack[n - 1] == state.dir_stack@[n - 1]@);
        if world.paths.path_exists(joined.as_str()) {
            break;
        }
        n = n - 1;
    }
    let last = state.dir_stack[top].clone();
    state.dir_stack.truncate(n);
    let dir = if n > 0 {
        Some(state.dir_stack[n - 1].clone())
    } else {
        None
    };
    state.dir_stack.push(last);
    assert(state@.dir_stack =~= stack.take(n as int).push(stack.last()));
    dir
}

/// Resolves `fname` against the current directory and the directory stack.
fn resolve_name(state: &mut EfmState, fname: &str, world: &Surroundings) -> (name: String)
    ensures
        (name@, final(state)@) == resolved(old(state)@, fname@, *world),
{
    if fname.is_empty() {
        return fname.to_owned();
    }
    let dir = match &state.directory {
        Some(dir) => dir.clone(),
        None => {
            return fname.to_owned();
        },
    };
    if is_abs_name(fname) {
        return fname.to_owned();
    }
    let joined = join_fnames(dir.as_str(), fname);
    if world.paths.path_exists(joined.as_str()) {
        return joined;
    }
    match guess_filepath(state, fname, world) {
        Some(guess) => join_fnames(guess.as_str(), fname),
        None => fname.to_owned(),
    }
}

/// The buffer number for a file name, zero without one, and the state after
/// resolving it.
pub open spec fn numbered(
    state: EfmStateView,
    fname: Seq<char>,
    book: BufferBook,
    world: Surroundings,
) -> (i64, EfmStateView) {
    if fname.len() == 0 {
        (0, state)
    } else {
        let (name, after) = resolved(state, fname, world);
        ((book.number_for)(name), after)
    }
}

/// The name that the host is asked for to number a file name: the resolved one.
pub open spec fn name_asked(state: EfmStateView, fname: Seq<char>, world: Surroundings) -> Option<
    Seq<char>,
> {
    if fname.len() == 0 {
        None
    } else {
        Some(resolved(state, fname, world).0)
    }
}

/// Resolves `fname` and finds or creates its buffer.
fn get_fnum<C: EfmContext>(
    state: &mut EfmState,
    fname: &str,
    ctx: &mut C,
    world: &Surroundings,
) -> (nr: i64)
    ensures
        (nr, final(state)@) == numbered(old(state)@, fname@, old(ctx).book(), *world),
        asks(*old(ctx), *final(ctx), name_asked(old(state)@, fname@, *world)),
{
    if fname.is_empty() {
        return 0;
    }
    let name = resolve_name(state, fname, world);
    ctx.buffer_for_name(name.as_str())
}

/// The file name of an entry: its own, or the current file when it has none
/// and no directory is open.
pub open spec fn chosen_name(fields: FieldsView, state: EfmStateView) -> Seq<char> {
    if fields.namebuf.len() > 0 || state.directory is Some {
        fields.namebuf
    } else if fields.valid && state.currfile is Some {
        state.currfile->0
    } else {
        Seq::empty()
    }
}

/// The filename selection shared by entry creation and continuation folding.
fn continuation_fname(fields: &Fields, state: &EfmState) -> (name: String)
    ensures
        name@ == chosen_name(fields@, state@),
{
    if !fields.namebuf.as_str().is_empty() || state.directory.is_some() {
        fields.namebuf.clone()
    } else if fields.valid {
        match &state.currfile {
            Some(name) => name.clone(),
            None => String::new(),
        }
    } else {
        String::new()
    }
}

/// A previous entry with a continuation line's fields folded in: the message
/// goes on a new line, the rest fills what is still unset.
pub open spec fn folded(entry: ParsedEntryView, fields: FieldsView) -> ParsedEntryView {
    ParsedEntryView {
        text: if fields.errmsg.len() > 0 {
            entry.text.push('\n') + fields.errmsg
        } else {
            entry.text
        },
        nr: if entry.nr == -1 {
            fields.enr
        } else {
            entry.nr
        },
        item_type: if crate::efm_names::prints(fields.item_type) && entry.item_type == 0 {
            fields.item_type
        } else {
            entry.item_type
        },
        lnum: if entry.lnum == 0 {
            fields.lnum
        } else {
            entry.lnum
        },
        end_lnum: if entry.end_lnum == 0 {
            fields.end_lnum
        } else {
            entry.end_lnum
        },
        col: if entry.col == 0 {
            fields.col
        } else {
            entry.col
        },
        vcol: if entry.col == 0 {
            fields.use_viscol
        } else {
            entry.vcol
        },
        end_col: if entry.end_col == 0 {
            fields.end_col
        } else {
            entry.end_col
        },
        ..entry
    }
}

/// Applies continuation fields to a previous entry.
fn apply_fold(prev: &mut ParsedEntry, fields: &Fields)
    ensures
        final(prev)@ == folded(old(prev)@, fields@),
{
    if !fields.errmsg.as_str().is_empty() {
        prev.text.push('\n');
        prev.text.append(fields.errmsg.as_str());
    }
    if prev.nr == -1 {
        prev.nr = fields.enr;
    }
    if is_printable(fields.item_type) && prev.item_type == 0 {
        prev.item_type = fields.item_type;
    }
    if prev.lnum == 0 {
        prev.lnum = fields.lnum;
    }
    if prev.end_lnum == 0 {
        prev.end_lnum = fields.end_lnum;
    }
    if prev.col == 0 {
        prev.col = fields.col;
        prev.vcol = fields.use_viscol;
    }
    if prev.end_col == 0 {
        prev.end_col = fields.end_col;
    }
}

/// The entry that a line's fields make, and the state after its name was
/// resolved. An explicit buffer number goes before the name; only printable
/// types are kept.
pub open spec fn entry_made(
    fields: FieldsView,
    state: EfmStateView,
    book: BufferBook,
    world: Surroundings,
) -> (ParsedEntryView, EfmStateView) {
    let (bufnr, after) = if fields.bnr != 0 {
        (fields.bnr, state)
    } else {
        numbered(state, chosen_name(fields, state), book, world)
    };
    (
        ParsedEntryView {
            bufnr,
            module: fields.module,
            lnum: fields.lnum,
            end_lnum: fields.end_lnum,
            col: fields.col,
            end_col: fields.end_col,
            vcol: fields.use_viscol,
            nr: fields.enr,
            pattern: fields.pattern,
            text: fields.errmsg,
            item_type: if fields.item_type == 1 || crate::efm_names::prints(fields.item_type) {
                fields.item_type
            } else {
                0
            },
            valid: fields.valid,
        },
        after,
    )
}

/// The name that the host is asked for to make an entry.
pub open spec fn entry_asked(fields: FieldsView, state: EfmStateView, world: Surroundings) -> Option<
    Seq<char>,
> {
    if fields.bnr != 0 {
        None
    } else {
        name_asked(state, chosen_name(fields, state), world)
    }
}

/// Makes an entry of a line's fields.
fn make_entry<C: EfmContext>(
    fields: Fields,
    state: &mut EfmState,
    ctx: &mut C,
    world: &Surroundings,
) -> (entry: ParsedEntry)
    ensures
        (entry@, final(state)@) == entry_made(fields@, old(state)@, old(ctx).book(), *world),
        asks(*old(ctx), *final(ctx), entry_asked(fields@, old(state)@, *world)),
{
    let bufnr: i64 = if fields.bnr != 0 {
        fields.bnr
    } else {
        let fname = continuation_fname(&fields, state);
        get_fnum(state, fname.as_str(), ctx, world)
    };
    let item_type: u8 = if fields.item_type != 1 && !is_printable(fields.item_type) {
        0
    } else {
        fields.item_type
    };
    ParsedEntry {
        bufnr,
        module: fields.module,
        lnum: fields.lnum,
        end_lnum: fields.end_lnum,
        col: fields.col,
        end_col: fields.end_col,
        vcol: fields.use_viscol,
        nr: fields.enr,
        pattern: fields.pattern,
        text: fields.errmsg,
        item_type,
        valid: fields.valid,
    }
}

/// The state after a `%D` line entered a directory or a `%X` line left one.
pub open spec fn directory_moved(
    letter: u8,
    name: Seq<char>,
    state: EfmStateView,
    world: Surroundings,
) -> EfmStateView {
    let dir_stack = if letter == 0x44 {
        crate::efm_names::entered(state.dir_stack, name, false, world.paths)
    } else {
        crate::efm_names::popped(state.dir_stack)
    };
    EfmStateView { dir_stack, directory: crate::efm_names::top_of(dir_stack), ..state }
}

/// `%D` pushes, `%X` pops the directory stack.
fn dir_pfx(letter: u8, fields: &Fields, state: &mut EfmState, world: &Surroundings) -> (result: Result<
    (),
    EfmError,
>)
    requires
        crate::efm_format::is_dir_kind(letter),
    ensures
        if letter == 0x44 && fields@.namebuf.len() == 0 {
            result is Err && result->Err_0@ == crate::efm_format::efm_error(
                "E379"@,
                "Missing or empty directory name"@,
            ) && final(state)@ == old(state)@
        } else {
            result is Ok && final(state)@ == directory_moved(
                letter,
                fields@.namebuf,
                old(state)@,
                *world,
            )
        },
{
    if letter == 0x44 {
        if fields.namebuf.as_str().is_empty() {
            return Err(EfmError::new("E379", "Missing or empty directory name"));
        }
        let top = push_dir(&mut state.dir_stack, fields.namebuf.as_str(), false, &world.paths);
        state.directory = Some(top);
    } else {
        let top = pop_dir(&mut state.dir_stack);
        state.directory = top;
    }
    Ok(())
}

/// An unmatched line becomes an invalid entry holding the whole line.
fn nomatch(fields: &mut Fields, line: &str)
    ensures
        final(fields)@ == old(fields)@.unmatched(line@),
{
    fields.namebuf = String::new();
    fields.lnum = 0;
    fields.valid = false;
    fields.errmsg = line.to_owned();
    assert(fields@ =~= old(fields)@.unmatched(line@));
}

/// What parsing a line leaves: the outcome, the state, the last entry, which a
/// continuation may have changed, and the name that the host was asked for.
#[verifier::ext_equal]
pub struct LineResult {
    pub outcome: LineOutcomeView,
    pub state: EfmStateView,
    pub last: Option<ParsedEntryView>,
    pub asked: Option<Seq<char>>,
}

/// The state behind the end of a multi-line block, if `letter` ends one.
pub open spec fn block_ended(letter: u8, state: EfmStateView) -> EfmStateView {
    if letter == 0x5a {
        EfmStateView { multiline: false, multiignore: false, ..state }
    } else {
        state
    }
}

/// What a `%C` or `%Z` line does: in an ignored block nothing, else it folds
/// into the last entry, or hands its fields to the caller when there is none.
pub open spec fn continuation_result(
    letter: u8,
    fields: FieldsView,
    state: EfmStateView,
    last: Option<ParsedEntryView>,
    book: BufferBook,
    world: Surroundings,
) -> LineResult {
    let fname = chosen_name(fields, state);
    if state.multiignore {
        LineResult {
            outcome: LineOutcomeView::Ignored,
            state: block_ended(letter, state),
            last,
            asked: None,
        }
    } else if last is Some {
        let (bufnr, after) = if last->0.bufnr == 0 {
            numbered(state, fname, book, world)
        } else {
            (last->0.bufnr, state)
        };
        LineResult {
            outcome: LineOutcomeView::Folded,
            state: block_ended(letter, after),
            last: Some(folded(ParsedEntryView { bufnr, ..last->0 }, fields)),
            asked: if last->0.bufnr == 0 {
                name_asked(state, fname, world)
            } else {
                None
            },
        }
    } else {
        let (bufnr, after) = numbered(block_ended(letter, state), fname, book, world);
        LineResult {
            outcome: LineOutcomeView::FoldOutside(
                ContinuationView {
                    text: fields.errmsg,
                    nr: fields.enr,
                    item_type: if crate::efm_names::prints(fields.item_type) {
                        fields.item_type
                    } else {
                        0
                    },
                    lnum: fields.lnum,
                    end_lnum: fields.end_lnum,
                    col: fields.col,
                    end_col: fields.end_col,
                    vcol: fields.use_viscol,
                    bufnr,
                },
            ),
            state: after,
            last: None,
            asked: name_asked(block_ended(letter, state), fname, world),
        }
    }
}

/// The last of some entries.
pub open spec fn last_entry(entries: Seq<ParsedEntry>) -> Option<ParsedEntryView> {
    if entries.len() == 0 {
        None
    } else {
        Some(entries.last()@)
    }
}

/// Only the last entry may differ, and it reads `last`.
pub open spec fn only_last_changed(
    before: Seq<ParsedEntry>,
    after: Seq<ParsedEntry>,
    last: Option<ParsedEntryView>,
) -> bool {
    &&& after.len() == before.len()
    &&& after.len() > 0 ==> after.drop_last() == before.drop_last()
    &&& last_entry(after) == last
}

/// Folds a `%C`/`%Z` line into the previous entry.
fn fold_continuation<C: EfmContext>(
    letter: u8,
    fields: Fields,
    state: &mut EfmState,
    entries: &mut Vec<ParsedEntry>,
    ctx: &mut C,
    world: &Surroundings,
) -> (outcome: LineOutcome)
    ensures
        ({
            let result = continuation_result(
                letter,
                fields@,
                old(state)@,
                last_entry(old(entries)@),
                old(ctx).book(),
                *world,
            );
            &&& outcome@ == result.outcome
            &&& final(state)@ == result.state
            &&& only_last_changed(old(entries)@, final(entries)@, result.last)
            &&& asks(*old(ctx), *final(ctx), result.asked)
        }),
{
    let ends: bool = letter == 0x5a;
    if state.multiignore {
        if ends {
            state.multiline = false;
            state.multiignore = false;
        }
        return LineOutcome::Ignored;
    }
    let fname = continuation_fname(&fields, state);
    if entries.len() > 0 {
        let at: usize = entries.len() - 1;
        if entries[at].bufnr == 0 {
            let bufnr: i64 = get_fnum(state, fname.as_str(), ctx, world);
            entries[at].bufnr = bufnr;
        }
        apply_fold(&mut entries[at], &fields);
        if ends {
            state.multiline = false;
            state.multiignore = false;
        }
        assert(entries@.drop_last() =~= old(entries)@.drop_last());
        LineOutcome::Folded
    } else {
        if ends {
            state.multiline = false;
            state.multiignore = false;
        }
        let bufnr: i64 = get_fnum(state, fname.as_str(), ctx, world);
        LineOutcome::FoldOutside(
            Continuation {
                text: fields.errmsg,
                nr: fields.enr,
                item_type: if is_printable(fields.item_type) {
                    fields.item_type
                } else {
                    0
                },
                lnum: fields.lnum,
                end_lnum: fields.end_lnum,
                col: fields.col,
                end_col: fields.end_col,
                vcol: fields.use_viscol,
                bufnr,
            },
        )
    }
}

/// The text of a line behind byte offset `at`.
pub open spec fn text_behind(line: Seq<char>, at: int) -> Seq<char> {
    crate::text::byte_slice(line, at, vstd::utf8::encode_utf8(line).len() as int)
}

/// What is left to rescan of a line: its `%r` tail without leading blanks.
pub open spec fn rescan_text(line: Seq<char>, tail: Option<usize>) -> Option<Seq<char>> {
    if tail is Some && text_behind(line, tail->0 as int).len() > 0 {
        Some(crate::efm_names::behind_blanks(text_behind(line, tail->0 as int)))
    } else {
        None
    }
}

/// The state after a `%O`, `%P` or `%Q` line: `%P` pushes its file, `%Q` pops
/// one.
pub open spec fn file_moved(
    letter: u8,
    name: Seq<char>,
    state: EfmStateView,
    world: Surroundings,
) -> EfmStateView {
    if name.len() > 0 && letter == 0x50 {
        let file_stack = crate::efm_names::entered(state.file_stack, name, true, world.paths);
        EfmStateView { file_stack, currfile: crate::efm_names::top_of(file_stack), ..state }
    } else if letter == 0x51 {
        let file_stack = crate::efm_names::popped(state.file_stack);
        EfmStateView { file_stack, currfile: crate::efm_names::top_of(file_stack), ..state }
    } else {
        state
    }
}

/// What a line that makes an entry leaves.
pub open spec fn entry_result(
    fields: FieldsView,
    state: EfmStateView,
    last: Option<ParsedEntryView>,
    book: BufferBook,
    world: Surroundings,
) -> LineResult {
    let (entry, after) = entry_made(fields, state, book, world);
    LineResult {
        outcome: LineOutcomeView::Entry(entry),
        state: after,
        last,
        asked: entry_asked(fields, state, world),
    }
}

/// How a line ends that opened no continuation: `%-` drops it, and the block it
/// is in; otherwise it makes an entry.
pub open spec fn plain_result(
    part: crate::efm_format::EfmPartView,
    fields: FieldsView,
    state: EfmStateView,
    last: Option<ParsedEntryView>,
    book: BufferBook,
    world: Surroundings,
) -> LineResult {
    if part.flags == MINUS {
        LineResult {
            outcome: LineOutcomeView::Ignored,
            state: EfmStateView { multiignore: state.multiline || state.multiignore, ..state },
            last,
            asked: None,
        }
    } else {
        entry_result(fields, state, last, book, world)
    }
}

/// What a matched line does, `at` being the alternative that matched.
pub open spec fn matched_result(
    line: Seq<char>,
    part: crate::efm_format::EfmPartView,
    at: int,
    read: Reading,
    state: EfmStateView,
    last: Option<ParsedEntryView>,
    book: BufferBook,
    world: Surroundings,
) -> Result<LineResult, crate::efm_format::EfmErrorView> {
    let letter = part.prefix;
    let fields = read.fields;
    let here = EfmStateView {
        fmt_start: if part.conthere {
            Some(at as usize)
        } else {
            state.fmt_start
        },
        ..state
    };
    if crate::efm_format::is_dir_kind(letter) {
        if letter == 0x44 && fields.namebuf.len() == 0 {
            Err(crate::efm_format::efm_error("E379"@, "Missing or empty directory name"@))
        } else {
            Ok(
                entry_result(
                    fields.unmatched(line),
                    directory_moved(letter, fields.namebuf, state, world),
                    last,
                    book,
                    world,
                ),
            )
        }
    } else if letter == 0x41 || letter == 0x45 || letter == 0x57 || letter == 0x49 || letter
        == 0x4e {
        Ok(
            plain_result(
                part,
                fields,
                EfmStateView { multiline: true, multiignore: false, ..here },
                last,
                book,
                world,
            ),
        )
    } else if letter == 0x43 || letter == 0x5a {
        Ok(continuation_result(letter, fields, here, last, book, world))
    } else if crate::efm_format::is_file_kind(letter) {
        let invalid = FieldsView { valid: false, ..fields };
        if fields.namebuf.len() == 0 || world.paths.has_path(fields.namebuf) {
            let moved = file_moved(letter, fields.namebuf, here, world);
            let nameless = FieldsView { namebuf: Seq::empty(), ..invalid };
            match rescan_text(line, read.tail) {
                Some(rest) => if vstd::utf8::encode_utf8(rest).len() >= vstd::utf8::encode_utf8(
                    line,
                ).len() {
                    Ok(
                        LineResult {
                            outcome: LineOutcomeView::Ignored,
                            state: moved,
                            last,
                            asked: None,
                        },
                    )
                } else {
                    Ok(
                        LineResult {
                            outcome: LineOutcomeView::Rescan(rest),
                            state: EfmStateView { multiscan: true, ..moved },
                            last,
                            asked: None,
                        },
                    )
                },
                None => Ok(plain_result(part, nameless, moved, last, book, world)),
            }
        } else {
            Ok(plain_result(part, invalid, here, last, book, world))
        }
    } else {
        Ok(plain_result(part, fields, here, last, book, world))
    }
}

/// The state with which a matched line goes on: the resume place is used up
/// and a rescan is over.
pub open spec fn after_search(state: EfmStateView) -> EfmStateView {
    EfmStateView { fmt_start: None, multiscan: false, ..state }
}

/// The alternative at which the search for a line starts.
pub open spec fn search_start(state: EfmStateView) -> int {
    match state.fmt_start {
        Some(at) => at as int,
        None => 0,
    }
}

/// The first alternative that matches the line, and what it read.
pub open spec fn search_result(
    line: Seq<char>,
    parts: Seq<crate::efm_format::EfmPartView>,
    found: Seq<Option<LineMatch>>,
    state: EfmStateView,
    book: BufferBook,
    world: Surroundings,
) -> (int, Reading) {
    line_read(
        line,
        parts,
        found,
        search_start(state),
        Reading { ok: false, fields: FieldsView::unread(), tail: None },
        state,
        book,
        world,
    )
}

/// What parsing a line gives. A line that no alternative matches makes an
/// invalid entry and ends any block.
pub open spec fn line_result(
    line: Seq<char>,
    parts: Seq<crate::efm_format::EfmPartView>,
    found: Seq<Option<LineMatch>>,
    state: EfmStateView,
    last: Option<ParsedEntryView>,
    book: BufferBook,
    world: Surroundings,
) -> Result<LineResult, crate::efm_format::EfmErrorView> {
    let (at, read) = search_result(line, parts, found, state, book, world);
    if at >= parts.len() {
        Ok(
            entry_result(
                read.fields.unmatched(line),
                EfmStateView { multiline: false, multiignore: false, ..after_search(state) },
                last,
                book,
                world,
            ),
        )
    } else {
        matched_result(line, parts[at], at, read, after_search(state), last, book, world)
    }
}

/// Finishes a line that opened no continuation.
fn finish_line<C: EfmContext>(
    part: &EfmPart,
    fields: Fields,
    state: &mut EfmState,
    ctx: &mut C,
    world: &Surroundings,
    Ghost(last): Ghost<Option<ParsedEntryView>>,
) -> (outcome: LineOutcome)
    ensures
        ({
            let result = plain_result(
                part@,
                fields@,
                old(state)@,
                last,
                old(ctx).book(),
                *world,
            );
            &&& outcome@ == result.outcome
            &&& final(state)@ == result.state
            &&& asks(*old(ctx), *final(ctx), result.asked)
        }),
{
    if part.flags == MINUS {
        if state.multiline {
            state.multiignore = true;
        }
        return LineOutcome::Ignored;
    }
    LineOutcome::Entry(make_entry(fields, state, ctx, world))
}

/// Parses one input line against the compiled formats.
///
/// `found` holds, for each alternative, where its pattern matches the line.
/// `entries` accumulates produced entries and is the fold target for `%C`/`%Z`
/// continuation lines. `state` carries the directory/file stacks and multi-line
/// flags across calls. `ctx` is asked for the name behind the entry's buffer
/// number and for no other. On [`LineOutcome::Rescan`] the caller matches the rest of
/// the line and parses that.
///
/// # Errors
///
/// E379 when a `%D` line has no directory name.
#[verifier::spinoff_prover]
#[verifier::rlimit(60)]
pub fn parse_line<C: EfmContext>(
    line: &str,
    fmt: &ErrorFormat,
    found: &Vec<Option<LineMatch>>,
    state: &mut EfmState,
    entries: &mut Vec<ParsedEntry>,
    ctx: &mut C,
    world: &Surroundings,
) -> (outcome: Result<LineOutcome, EfmError>)
    requires
        fmt.wf(),
        found@.len() == fmt.parts@.len(),
    ensures
        match line_result(
            line@,
            fmt@,
            found@,
            old(state)@,
            last_entry(old(entries)@),
            old(ctx).book(),
            *world,
        ) {
            Ok(result) => {
                &&& outcome is Ok
                &&& outcome->Ok_0@ == result.outcome
                &&& final(state)@ == result.state
                &&& only_last_changed(old(entries)@, final(entries)@, result.last)
                &&& asks(*old(ctx), *final(ctx), result.asked)
            },
            Err(error) => {
                &&& outcome is Err
                &&& outcome->Err_0@ == error
                &&& final(state)@ == after_search(old(state)@)
                &&& final(entries)@ == old(entries)@
                &&& asks(*old(ctx), *final(ctx), None)
            },
        },
{
    let ghost before = state@;
    let ghost book = ctx.book();
    let ghost last = last_entry(entries@);
    let mut fields = Fields {
        namebuf: String::new(),
        bnr: 0,
        module: String::new(),
        errmsg: String::new(),
        lnum: 0,
        end_lnum: 0,
        col: 0,
        end_col: 0,
        use_viscol: false,
        pattern: String::new(),
        enr: -1,
        item_type: 0,
        valid: true,
    };
    assert(fields@ =~= FieldsView::unread());
    let mut tail: Option<usize> = None;
    let mut at: usize = match state.fmt_start {
        Some(at) => at,
        None => 0,
    };
    let mut matched: bool = false;
    let ghost mut read = Reading { ok: false, fields: FieldsView::unread(), tail: None };
    while at < fmt.parts.len()
        invariant_except_break
            !matched,
            search_result(line@, fmt@, found@, before, book, *world) == line_read(
                line@,
                fmt@,
                found@,
                at as int,
                read,
                before,
                book,
                *world,
            ),
        invariant
            fmt.wf(),
            found@.len() == fmt.parts@.len(),
            *state == *old(state),
            before == old(state)@,
            book == old(ctx).book(),
            ctx.book() == book,
            ctx.asked() == old(ctx).asked(),
            *entries == *old(entries),
            read == (Reading { ok: matched, fields: fields@, tail }),
        ensures
            matched ==> at < fmt.parts@.len() && search_result(
                line@,
                fmt@,
                found@,
                before,
                book,
                *world,
            ) == (at as int, read),
            !matched ==> search_result(line@, fmt@, found@, before, book, *world) == (
                fmt@.len() as int,
                read,
            ),
        decreases fmt.parts@.len() - at,
    {
        let part = &fmt.parts[at];
        assert(fmt@[at as int] == part@);
        let ok = get_fields(
            line,
            part,
            &found[at],
            state.multiline,
            state.multiscan,
            &mut fields,
            &mut tail,
            ctx,
            world,
            Ghost(before),
        );
        proof {
            read = Reading { ok, fields: fields@, tail };
        }
        if ok {
            matched = true;
            break;
        }
        at = at + 1;
    }
    state.fmt_start = None;
    state.multiscan = false;
    assert(state@ =~= after_search(before));
    if !matched {
        nomatch(&mut fields, line);
        state.multiline = false;
        state.multiignore = false;
        return Ok(LineOutcome::Entry(make_entry(fields, state, ctx, world)));
    }
    let part = &fmt.parts[at];
    assert(fmt@[at as int] == part@);
    let letter: u8 = part.prefix;
    if dir_kind(letter) {
        match dir_pfx(letter, &fields, state, world) {
            Ok(()) => {},
            Err(error) => {
                return Err(error);
            },
        }
        nomatch(&mut fields, line);
        return Ok(LineOutcome::Entry(make_entry(fields, state, ctx, world)));
    }
    if part.conthere {
        state.fmt_start = Some(at);
    }
    if letter == 0x41 || letter == 0x45 || letter == 0x57 || letter == 0x49 || letter == 0x4e {
        state.multiline = true;
        state.multiignore = false;
        return Ok(finish_line(part, fields, state, ctx, world, Ghost(last)));
    }
    if letter == 0x43 || letter == 0x5a {
        return Ok(fold_continuation(letter, fields, state, entries, ctx, world));
    }
    if file_kind(letter) {
        fields.valid = false;
        if fields.namebuf.as_str().is_empty() || world.paths.path_exists(fields.namebuf.as_str()) {
            if !fields.namebuf.as_str().is_empty() && letter == 0x50 {
                let top = push_dir(
                    &mut state.file_stack,
                    fields.namebuf.as_str(),
                    true,
                    &world.paths,
                );
                state.currfile = Some(top);
            } else if letter == 0x51 {
                let top = pop_dir(&mut state.file_stack);
                state.currfile = top;
            }
            fields.namebuf = String::new();
            if let Some(from) = tail {
                let rest = slice_text(line, from, line.as_bytes().len());
                if !rest.as_str().is_empty() {
                    let again = skipwhite(rest.as_str());
                    if again.as_str().as_bytes().len() >= line.as_bytes().len() {
                        return Ok(LineOutcome::Ignored);
                    }
                    state.multiscan = true;
                    return Ok(LineOutcome::Rescan(again));
                }
            }
        }
    }
    Ok(finish_line(part, fields, state, ctx, world, Ghost(last)))
}

/// Without a match nothing is read.
proof fn lemma_nothing_read(
    line: Seq<char>,
    parts: Seq<crate::efm_format::EfmPartView>,
    found: Seq<Option<LineMatch>>,
    at: int,
    state: EfmStateView,
    book: BufferBook,
    world: Surroundings,
)
    requires
        0 <= at,
        found.len() == parts.len(),
        forall|i: int| 0 <= i < found.len() ==> (#[trigger] found[i]) is None,
    ensures
        line_read(
            line,
            parts,
            found,
            at,
            Reading { ok: false, fields: FieldsView::unread(), tail: None },
            state,
            book,
            world,
        ) == (
            parts.len() as int,
            Reading { ok: false, fields: FieldsView::unread(), tail: None::<usize> },
        ),
    decreases parts.len() - at,
{
    if at < parts.len() {
        let before = Reading { ok: false, fields: FieldsView::unread(), tail: None };
        let read = alternative_read(line, parts[at], found[at], before, state, book, world);
        assert(read.fields =~= FieldsView::unread());
        assert(read =~= before);
        lemma_nothing_read(line, parts, found, at + 1, state, book, world);
    }
}

/// A line that no alternative matches becomes an invalid entry that holds the
/// whole line, names no buffer, and ends any multi-line block.
pub proof fn law_unmatched_line_is_kept_as_text(
    line: Seq<char>,
    parts: Seq<crate::efm_format::EfmPartView>,
    found: Seq<Option<LineMatch>>,
    state: EfmStateView,
    last: Option<ParsedEntryView>,
    book: BufferBook,
    world: Surroundings,
)
    requires
        found.len() == parts.len(),
        forall|i: int| 0 <= i < found.len() ==> (#[trigger] found[i]) is None,
    ensures
        ({
            let result = line_result(line, parts, found, state, last, book, world);
            &&& result is Ok
            &&& result->Ok_0.outcome is Entry
            &&& result->Ok_0.outcome->Entry_0.text == line
            &&& !result->Ok_0.outcome->Entry_0.valid
            &&& result->Ok_0.outcome->Entry_0.bufnr == 0
            &&& result->Ok_0.outcome->Entry_0.lnum == 0
            &&& !result->Ok_0.state.multiline
            &&& !result->Ok_0.state.multiignore
            &&& result->Ok_0.last == last
        }),
{
    lemma_nothing_read(line, parts, found, search_start(state), state, book, world);
}

/// A name that was given a number, and still has it.
pub open spec fn holds_number(book: BufferBook, name: Seq<char>, nr: i64) -> bool {
    book.known.contains_key(name) && book.known[name] == nr && (book.number_for)(name) == nr
}

/// Lines that name one file get one number: a name that was given a number
/// keeps it, whatever is asked for next.
pub proof fn law_one_name_keeps_one_number<C: EfmContext>(
    before: C,
    after: C,
    asked: Option<Seq<char>>,
    name: Seq<char>,
    nr: i64,
)
    requires
        asks(before, after, asked),
        holds_number(before.book(), name, nr) || (asked == Some(name) && nr == (
        before.book().number_for)(name) && nr != 0),
    ensures
        holds_number(after.book(), name, nr),
{
    assert(asked is Some ==> after.book().known.contains_key(name));
}

/// An entry's buffer number is that of the name that was asked for; without one
/// it is the line's own, or zero.
pub proof fn law_entry_is_numbered_by_the_asked_name(
    fields: FieldsView,
    state: EfmStateView,
    book: BufferBook,
    world: Surroundings,
)
    ensures
        entry_made(fields, state, book, world).0.bufnr == match entry_asked(
            fields,
            state,
            world,
        ) {
            Some(name) => (book.number_for)(name),
            None => fields.bnr,
        },
{
}

/// A `%-` alternative never makes an entry.
pub proof fn law_minus_makes_no_entry(
    line: Seq<char>,
    part: crate::efm_format::EfmPartView,
    at: int,
    read: Reading,
    state: EfmStateView,
    last: Option<ParsedEntryView>,
    book: BufferBook,
    world: Surroundings,
)
    requires
        part.flags == MINUS,
        !crate::efm_format::is_dir_kind(part.prefix),
    ensures
        ({
            let result = matched_result(line, part, at, read, state, last, book, world);
            result is Ok && result->Ok_0.outcome !is Entry
        }),
{
}

/// A rescan always has less of the line left, so rescanning ends.
pub proof fn law_rescan_shrinks(
    line: Seq<char>,
    parts: Seq<crate::efm_format::EfmPartView>,
    found: Seq<Option<LineMatch>>,
    state: EfmStateView,
    last: Option<ParsedEntryView>,
    book: BufferBook,
    world: Surroundings,
)
    ensures
        ({
            let result = line_result(line, parts, found, state, last, book, world);
            result is Ok && result->Ok_0.outcome is Rescan ==> vstd::utf8::encode_utf8(
                result->Ok_0.outcome->Rescan_0,
            ).len() < vstd::utf8::encode_utf8(line).len()
        }),
{
}

/// Only a rescan leaves the parser in a rescan: no other outcome reaches the
/// next line with the flag set.
pub proof fn law_rescan_does_not_leak(
    line: Seq<char>,
    parts: Seq<crate::efm_format::EfmPartView>,
    found: Seq<Option<LineMatch>>,
    state: EfmStateView,
    last: Option<ParsedEntryView>,
    book: BufferBook,
    world: Surroundings,
)
    ensures
        ({
            let result = line_result(line, parts, found, state, last, book, world);
            result is Ok ==> (result->Ok_0.state.multiscan <==> result->Ok_0.outcome is Rescan)
        }),
{
}

/// Leaving a directory goes back to the one before it.
pub proof fn law_leaving_undoes_entering(
    name: Seq<char>,
    state: EfmStateView,
    world: Surroundings,
)
    requires
        crate::efm_names::is_absolute(name),
    ensures
        ({
            let inside = directory_moved(0x44, name, state, world);
            let back = directory_moved(0x58, Seq::empty(), inside, world);
            &&& inside.directory == Some(name)
            &&& back.dir_stack == state.dir_stack
            &&& back.directory == crate::efm_names::top_of(state.dir_stack)
        }),
{
    assert(state.dir_stack.push(name).drop_last() =~= state.dir_stack);
}

/// A continuation adds its message on a new line and changes nothing that was
/// already set.
pub proof fn law_folding_only_fills_gaps(entry: ParsedEntryView, fields: FieldsView)
    ensures
        fields.errmsg.len() > 0 ==> folded(entry, fields).text == entry.text.push('\n')
            + fields.errmsg,
        fields.errmsg.len() == 0 ==> folded(entry, fields).text == entry.text,
        entry.nr != -1 ==> folded(entry, fields).nr == entry.nr,
        entry.lnum != 0 ==> folded(entry, fields).lnum == entry.lnum,
        entry.col != 0 ==> folded(entry, fields).col == entry.col && folded(entry, fields).vcol
            == entry.vcol,
        entry.item_type != 0 ==> folded(entry, fields).item_type == entry.item_type,
        folded(entry, fields).valid == entry.valid,
        folded(entry, fields).bufnr == entry.bufnr,
{
}

/// `%Z` ends a multi-line block, whatever the block was.
pub proof fn law_end_line_closes_the_block(
    fields: FieldsView,
    state: EfmStateView,
    last: Option<ParsedEntryView>,
    book: BufferBook,
    world: Surroundings,
)
    ensures
        ({
            let after = continuation_result(0x5a, fields, state, last, book, world).state;
            !after.multiline && !after.multiignore
        }),
{
}

} // verus!
