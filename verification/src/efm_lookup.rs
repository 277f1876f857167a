//! Which names a line of error output makes worth looking up on disk.

use vstd::prelude::*;

use crate::efm::{find_capture, EfmState, EfmStateView, LineMatch, ParsedEntryView};
use crate::efm_format::{EfmPartView, ErrorFormat};
use crate::efm_names::{expand_env, join_fnames, Surroundings};
use crate::text::slice_text;

verus! {

/// The name in the `%f` group of an alternative that matches a line.
pub open spec fn named_by(
    line: Seq<char>,
    part: EfmPartView,
    found: Option<LineMatch>,
    world: Surroundings,
) -> Option<Seq<char>> {
    match found {
        Some(found) => match crate::efm::capture_of(part, found, 0) {
            Some((from, to)) => Some(
                crate::efm_names::expanded(
                    crate::text::byte_slice(line, from as int, to as int),
                    0,
                    world,
                ),
            ),
            None => None,
        },
        None => None,
    }
}

/// The names in the `%f` groups of the first `n` alternatives.
pub open spec fn names_in(
    line: Seq<char>,
    parts: Seq<EfmPartView>,
    found: Seq<Option<LineMatch>>,
    world: Surroundings,
    n: int,
) -> Seq<Seq<char>>
    decreases n,
{
    if n <= 0 {
        Seq::empty()
    } else {
        let before = names_in(line, parts, found, world, n - 1);
        match named_by(line, parts[n - 1], found[n - 1], world) {
            Some(name) => before.push(name),
            None => before,
        }
    }
}

/// A name, if there is one.
pub open spec fn one_name(name: Option<Seq<char>>) -> Seq<Seq<char>> {
    match name {
        Some(name) => seq![name],
        None => Seq::empty(),
    }
}

/// Every name below every directory.
pub open spec fn below(dirs: Seq<Seq<char>>, names: Seq<Seq<char>>) -> Seq<Seq<char>>
    decreases dirs.len(),
{
    if dirs.len() == 0 {
        Seq::empty()
    } else {
        below(dirs.drop_last(), names) + names.map_values(
            |name: Seq<char>| crate::efm_names::joined_path(dirs.last(), name),
        )
    }
}

/// The files that a line with these names can be about: those names, and the
/// files that earlier lines named.
pub open spec fn files_of(names: Seq<Seq<char>>, state: EfmStateView) -> Seq<Seq<char>> {
    names + one_name(state.currfile) + state.file_stack
}

/// The directories that such files can lie in: those of earlier lines, and those
/// that the line can enter.
pub open spec fn dirs_of(names: Seq<Seq<char>>, state: EfmStateView) -> Seq<Seq<char>> {
    one_name(state.directory) + state.dir_stack + names + below(state.dir_stack, names)
}

/// The names worth looking up for a line: the files, alone and in every
/// directory.
pub open spec fn looked_up(names: Seq<Seq<char>>, state: EfmStateView) -> Seq<Seq<char>> {
    files_of(names, state) + below(dirs_of(names, state), files_of(names, state))
}

fn push_copy(names: &mut Vec<String>, name: &String)
    ensures
        crate::efm_names::texts(final(names)@) == crate::efm_names::texts(old(names)@).push(name@),
{
    let ghost before = crate::efm_names::texts(names@);
    names.push(name.as_str().to_owned());
    assert(crate::efm_names::texts(names@) =~= before.push(name@));
}

fn push_all(names: &mut Vec<String>, more: &Vec<String>)
    ensures
        crate::efm_names::texts(final(names)@) == crate::efm_names::texts(old(names)@)
            + crate::efm_names::texts(more@),
{
    let ghost before = crate::efm_names::texts(names@);
    let ghost all = crate::efm_names::texts(more@);
    let mut next: usize = 0;
    assert(before + all.take(0) =~= before);
    while next < more.len()
        invariant
            next <= more@.len(),
            all == crate::efm_names::texts(more@),
            crate::efm_names::texts(names@) == before + all.take(next as int),
        decreases more@.len() - next,
    {
        push_copy(names, &more[next]);
        assert(before + all.take(next + 1) =~= (before + all.take(next as int)).push(
            all[next as int],
        ));
        next = next + 1;
    }
    assert(all.take(next as int) =~= all);
}

fn push_optional(names: &mut Vec<String>, name: &Option<String>)
    ensures
        crate::efm_names::texts(final(names)@) == crate::efm_names::texts(old(names)@) + one_name(
            crate::efm_names::opt_text(*name),
        ),
{
    let ghost before = crate::efm_names::texts(names@);
    match name {
        Some(name) => {
            push_copy(names, name);
            assert(before.push(name@) =~= before + seq![name@]);
        },
        None => {
            assert(before + Seq::empty() =~= before);
        },
    }
}

fn push_below(names: &mut Vec<String>, dirs: &Vec<String>, files: &Vec<String>)
    ensures
        crate::efm_names::texts(final(names)@) == crate::efm_names::texts(old(names)@) + below(
            crate::efm_names::texts(dirs@),
            crate::efm_names::texts(files@),
        ),
{
    let ghost before = crate::efm_names::texts(names@);
    let ghost all = crate::efm_names::texts(dirs@);
    let ghost each = crate::efm_names::texts(files@);
    let mut next: usize = 0;
    assert(before + below(all.take(0), each) =~= before);
    while next < dirs.len()
        invariant
            next <= dirs@.len(),
            all == crate::efm_names::texts(dirs@),
            each == crate::efm_names::texts(files@),
            crate::efm_names::texts(names@) == before + below(all.take(next as int), each),
        decreases dirs@.len() - next,
    {
        let ghost dir = all[next as int];
        let ghost inside = each.map_values(
            |name: Seq<char>| crate::efm_names::joined_path(dir, name),
        );
        let ghost so_far = crate::efm_names::texts(names@);
        let mut file: usize = 0;
        assert(so_far + inside.take(0) =~= so_far);
        while file < files.len()
            invariant
                next < dirs@.len(),
                file <= files@.len(),
                all == crate::efm_names::texts(dirs@),
                each == crate::efm_names::texts(files@),
                dir == all[next as int],
                inside == each.map_values(
                    |name: Seq<char>| crate::efm_names::joined_path(dir, name),
                ),
                crate::efm_names::texts(names@) == so_far + inside.take(file as int),
            decreases files@.len() - file,
        {
            let joined = join_fnames(dirs[next].as_str(), files[file].as_str());
            push_copy(names, &joined);
            assert(so_far + inside.take(file + 1) =~= (so_far + inside.take(file as int)).push(
                inside[file as int],
            ));
            file = file + 1;
        }
        proof {
            assert(inside.take(file as int) =~= inside);
            let here = all.take(next + 1);
            assert(here.drop_last() =~= all.take(next as int));
            assert(here.last() == dir);
            assert(before + below(here, each) =~= before + below(all.take(next as int), each)
                + inside);
        }
        next = next + 1;
    }
    assert(all.take(next as int) =~= all);
}

/// The names worth looking up before a line is parsed: `found` holds, for each
/// alternative, where its pattern matches the line, and of `world` only the
/// environment is read. What lies at any other name makes no difference to the
/// line: see [`law_only_listed_names_matter`].
#[must_use]
pub fn names_to_look_up(
    line: &str,
    fmt: &ErrorFormat,
    found: &Vec<Option<LineMatch>>,
    state: &EfmState,
    world: &Surroundings,
) -> (names: Vec<String>)
    requires
        fmt.wf(),
        found@.len() == fmt.parts@.len(),
    ensures
        crate::efm_names::texts(names@) == looked_up(
            names_in(line@, fmt@, found@, *world, fmt@.len() as int),
            state@,
        ),
{
    let mut files: Vec<String> = Vec::new();
    let mut next: usize = 0;
    assert(crate::efm_names::texts(files@) =~= Seq::empty());
    while next < fmt.parts.len()
        invariant
            fmt.wf(),
            next <= fmt.parts@.len(),
            found@.len() == fmt.parts@.len(),
            crate::efm_names::texts(files@) == names_in(
                line@,
                fmt@,
                found@,
                *world,
                next as int,
            ),
        decreases fmt.parts@.len() - next,
    {
        assert(fmt@[next as int] == fmt.parts@[next as int]@);
        if let Some(hit) = &found[next] {
            if let Some((from, to)) = find_capture(&fmt.parts[next], hit, 0) {
                let text = slice_text(line, from, to);
                let name = expand_env(text.as_str(), world);
                push_copy(&mut files, &name);
            }
        }
        next = next + 1;
    }
    let ghost base = crate::efm_names::texts(files@);
    let ghost view = state@;
    let mut dirs: Vec<String> = Vec::new();
    assert(crate::efm_names::texts(dirs@) =~= Seq::empty());
    push_optional(&mut dirs, &state.directory);
    push_all(&mut dirs, &state.dir_stack);
    push_all(&mut dirs, &files);
    push_below(&mut dirs, &state.dir_stack, &files);
    assert(crate::efm_names::texts(dirs@) =~= dirs_of(base, view));
    push_optional(&mut files, &state.currfile);
    push_all(&mut files, &state.file_stack);
    assert(crate::efm_names::texts(files@) =~= files_of(base, view));
    let mut names: Vec<String> = Vec::new();
    assert(crate::efm_names::texts(names@) =~= Seq::empty());
    push_all(&mut names, &files);
    push_below(&mut names, &dirs, &files);
    assert(crate::efm_names::texts(names@) =~= looked_up(base, view));
    names
}

/// Two surroundings have the same environment and know the same of `names`.
pub open spec fn agree(one: Surroundings, other: Surroundings, names: Seq<Seq<char>>) -> bool {
    &&& one.environment@ == other.environment@
    &&& forall|name: Seq<char>| #[trigger]
        names.contains(name) ==> {
            &&& one.paths.has_path(name) == other.paths.has_path(name)
            &&& one.paths.has_dir(name) == other.paths.has_dir(name)
        }
}

/// Two surroundings know the same of `files`, alone and in each of `dirs`.
spec fn same_on(
    one: Surroundings,
    other: Surroundings,
    dirs: Seq<Seq<char>>,
    files: Seq<Seq<char>>,
) -> bool {
    &&& one.environment@ == other.environment@
    &&& forall|file: Seq<char>| #[trigger]
        files.contains(file) ==> one.paths.has_path(file) == other.paths.has_path(file)
    &&& forall|dir: Seq<char>, file: Seq<char>| #[trigger]
        dirs.contains(dir) && #[trigger] files.contains(file) ==> {
            let path = crate::efm_names::joined_path(dir, file);
            &&& one.paths.has_path(path) == other.paths.has_path(path)
            &&& one.paths.has_dir(path) == other.paths.has_dir(path)
        }
}

proof fn lemma_contains_add(one: Seq<Seq<char>>, other: Seq<Seq<char>>, name: Seq<char>)
    ensures
        (one + other).contains(name) == (one.contains(name) || other.contains(name)),
{
    let all = one + other;
    if one.contains(name) {
        assert(all[one.index_of(name)] == name);
    }
    if other.contains(name) {
        assert(all[one.len() + other.index_of(name)] == name);
    }
    if all.contains(name) {
        let at = all.index_of(name);
        if at < one.len() {
            assert(one[at] == name);
        } else {
            assert(other[at - one.len()] == name);
        }
    }
}

proof fn lemma_below(
    dirs: Seq<Seq<char>>,
    names: Seq<Seq<char>>,
    dir: Seq<char>,
    name: Seq<char>,
)
    requires
        dirs.contains(dir),
        names.contains(name),
    ensures
        below(dirs, names).contains(crate::efm_names::joined_path(dir, name)),
    decreases dirs.len(),
{
    let path = crate::efm_names::joined_path(dir, name);
    let before = below(dirs.drop_last(), names);
    let inside = names.map_values(
        |name: Seq<char>| crate::efm_names::joined_path(dirs.last(), name),
    );
    lemma_contains_add(before, inside, path);
    let at = dirs.index_of(dir);
    assert(dirs[at] == dir);
    if at == dirs.len() - 1 {
        assert(inside[names.index_of(name)] == path);
    } else {
        assert(dirs.drop_last()[at] == dir);
        lemma_below(dirs.drop_last(), names, dir, name);
    }
}

proof fn lemma_same_on(
    one: Surroundings,
    other: Surroundings,
    names: Seq<Seq<char>>,
    state: EfmStateView,
)
    requires
        agree(one, other, looked_up(names, state)),
    ensures
        same_on(one, other, dirs_of(names, state), files_of(names, state)),
{
    let dirs = dirs_of(names, state);
    let files = files_of(names, state);
    assert forall|file: Seq<char>| #[trigger] files.contains(file) implies one.paths.has_path(file)
        == other.paths.has_path(file) by {
        lemma_contains_add(files, below(dirs, files), file);
    }
    assert forall|dir: Seq<char>, file: Seq<char>| #[trigger]
        dirs.contains(dir) && #[trigger] files.contains(file) implies ({
        let path = crate::efm_names::joined_path(dir, file);
        &&& one.paths.has_path(path) == other.paths.has_path(path)
        &&& one.paths.has_dir(path) == other.paths.has_dir(path)
    }) by {
        let path = crate::efm_names::joined_path(dir, file);
        lemma_below(dirs, files, dir, file);
        lemma_contains_add(files, below(dirs, files), path);
    }
}

proof fn lemma_expanded_same(src: Seq<char>, at: int, one: Surroundings, other: Surroundings)
    requires
        one.environment@ == other.environment@,
    ensures
        crate::efm_names::expanded(src, at, one) == crate::efm_names::expanded(src, at, other),
    decreases src.len() - at,
{
    if 0 <= at < src.len() {
        lemma_expanded_same(src, at + 1, one, other);
        if src[at] == '$' {
            crate::efm_names::lemma_ends(src, at + 2);
            crate::efm_names::lemma_ends(src, at + 1);
            let close = crate::efm_names::brace_end(src, at + 2);
            let end = crate::efm_names::name_end(src, at + 1);
            if close < src.len() {
                lemma_expanded_same(src, close + 1, one, other);
            }
            if end > at + 1 {
                lemma_expanded_same(src, end, one, other);
            }
        }
    }
}

proof fn lemma_named(
    line: Seq<char>,
    parts: Seq<EfmPartView>,
    found: Seq<Option<LineMatch>>,
    world: Surroundings,
    n: int,
    i: int,
)
    requires
        0 <= i < n,
        named_by(line, parts[i], found[i], world) is Some,
    ensures
        names_in(line, parts, found, world, n).contains(
            named_by(line, parts[i], found[i], world)->0,
        ),
    decreases n,
{
    let name = named_by(line, parts[i], found[i], world)->0;
    let before = names_in(line, parts, found, world, n - 1);
    let all = names_in(line, parts, found, world, n);
    if i == n - 1 {
        assert(all[before.len() as int] == name);
    } else {
        lemma_named(line, parts, found, world, n - 1, i);
        let at = before.index_of(name);
        assert(all[at] == name);
    }
}

/// Where a state's directories are.
spec fn placed(state: EfmStateView, dirs: Seq<Seq<char>>, files: Seq<Seq<char>>) -> bool {
    &&& state.directory is Some ==> dirs.contains(state.directory->0)
    &&& forall|i: int|
        0 <= i < state.dir_stack.len() ==> dirs.contains(#[trigger] state.dir_stack[i])
    &&& state.currfile is Some ==> files.contains(state.currfile->0)
}

proof fn lemma_topmost_same(
    stack: Seq<Seq<char>>,
    name: Seq<char>,
    one: Surroundings,
    other: Surroundings,
    dirs: Seq<Seq<char>>,
    files: Seq<Seq<char>>,
    n: int,
)
    requires
        same_on(one, other, dirs, files),
        n <= stack.len(),
        forall|i: int| 0 <= i < stack.len() ==> dirs.contains(#[trigger] stack[i]),
        files.contains(name),
    ensures
        crate::efm_names::topmost_dir(stack, name, one.paths, n) == crate::efm_names::topmost_dir(
            stack,
            name,
            other.paths,
            n,
        ),
        crate::efm_names::topmost_path(stack, name, one.paths, n)
            == crate::efm_names::topmost_path(stack, name, other.paths, n),
        crate::efm_names::topmost_dir(stack, name, one.paths, n) is Some ==> 0
            <= crate::efm_names::topmost_dir(stack, name, one.paths, n)->0 < n,
    decreases n,
{
    if n > 0 {
        assert(dirs.contains(stack[n - 1]));
        lemma_topmost_same(stack, name, one, other, dirs, files, n - 1);
    }
}

proof fn lemma_resolved_same(
    state: EfmStateView,
    fname: Seq<char>,
    one: Surroundings,
    other: Surroundings,
    dirs: Seq<Seq<char>>,
    files: Seq<Seq<char>>,
)
    requires
        same_on(one, other, dirs, files),
        placed(state, dirs, files),
        fname.len() == 0 || files.contains(fname),
    ensures
        crate::efm::resolved(state, fname, one) == crate::efm::resolved(state, fname, other),
{
    if fname.len() > 0 {
        lemma_topmost_same(
            state.dir_stack,
            fname,
            one,
            other,
            dirs,
            files,
            state.dir_stack.len() - 1,
        );
    }
}

/// What a line reads of an alternative does not depend on other names, and a
/// name that it reads is among those of the line.
proof fn lemma_fields_same(
    line: Seq<char>,
    part: EfmPartView,
    found: LineMatch,
    index: int,
    before: crate::efm::Reading,
    multiscan: bool,
    book: crate::efm::BufferBook,
    one: Surroundings,
    other: Surroundings,
    names: Seq<Seq<char>>,
)
    requires
        0 <= index,
        one.environment@ == other.environment@,
        forall|name: Seq<char>| #[trigger]
            names.contains(name) ==> one.paths.has_path(name) == other.paths.has_path(name),
        named_by(line, part, Some(found), one) is Some ==> names.contains(
            named_by(line, part, Some(found), one)->0,
        ),
        before.fields.namebuf.len() == 0 || names.contains(before.fields.namebuf),
    ensures
        crate::efm::fields_read(line, part, found, index, before, multiscan, book, one)
            == crate::efm::fields_read(line, part, found, index, before, multiscan, book, other),
        ({
            let read = crate::efm::fields_read(
                line,
                part,
                found,
                index,
                before,
                multiscan,
                book,
                one,
            );
            read.fields.namebuf.len() == 0 || names.contains(read.fields.namebuf)
        }),
    decreases crate::efm_format::FMT_PATTERNS - index,
{
    if before.ok && index < crate::efm_format::FMT_PATTERNS {
        let step = crate::efm::field_read(line, part, found, index, before, multiscan, book, one);
        if let Some((from, to)) = crate::efm::capture_of(part, found, 0) {
            let text = crate::text::byte_slice(line, from as int, to as int);
            lemma_expanded_same(text, 0, one, other);
        }
        assert(step == crate::efm::field_read(
            line,
            part,
            found,
            index,
            before,
            multiscan,
            book,
            other,
        ));
        assert(step.fields.namebuf.len() == 0 || names.contains(step.fields.namebuf));
        lemma_fields_same(
            line,
            part,
            found,
            index + 1,
            step,
            multiscan,
            book,
            one,
            other,
            names,
        );
    }
}

proof fn lemma_search_same(
    line: Seq<char>,
    parts: Seq<EfmPartView>,
    found: Seq<Option<LineMatch>>,
    at: int,
    before: crate::efm::Reading,
    state: EfmStateView,
    book: crate::efm::BufferBook,
    one: Surroundings,
    other: Surroundings,
    names: Seq<Seq<char>>,
)
    requires
        0 <= at,
        names == names_in(line, parts, found, one, parts.len() as int),
        one.environment@ == other.environment@,
        forall|name: Seq<char>| #[trigger]
            names.contains(name) ==> one.paths.has_path(name) == other.paths.has_path(name),
        before.fields.namebuf.len() == 0 || names.contains(before.fields.namebuf),
    ensures
        crate::efm::line_read(line, parts, found, at, before, state, book, one)
            == crate::efm::line_read(line, parts, found, at, before, state, book, other),
        ({
            let read = crate::efm::line_read(line, parts, found, at, before, state, book, one).1;
            read.fields.namebuf.len() == 0 || names.contains(read.fields.namebuf)
        }),
    decreases parts.len() - at,
{
    if at < parts.len() {
        let part = parts[at];
        let read = crate::efm::alternative_read(line, part, found[at], before, state, book, one);
        if found[at] is Some {
            if named_by(line, part, found[at], one) is Some {
                lemma_named(line, parts, found, one, parts.len() as int, at);
            }
            let typed = crate::efm::FieldsView {
                item_type: if part.prefix == 0x45 || part.prefix == 0x57 || part.prefix == 0x49
                    || part.prefix == 0x4e {
                    part.prefix
                } else {
                    0
                },
                ..before.fields.reset(state.multiscan)
            };
            lemma_fields_same(
                line,
                part,
                found[at]->0,
                0,
                crate::efm::Reading { ok: true, fields: typed, tail: None },
                state.multiscan,
                book,
                one,
                other,
                names,
            );
        }
        lemma_search_same(
            line,
            parts,
            found,
            at + 1,
            read,
            state,
            book,
            one,
            other,
            names,
        );
    }
}

proof fn lemma_entry_same(
    fields: crate::efm::FieldsView,
    state: EfmStateView,
    last: Option<ParsedEntryView>,
    book: crate::efm::BufferBook,
    one: Surroundings,
    other: Surroundings,
    dirs: Seq<Seq<char>>,
    files: Seq<Seq<char>>,
)
    requires
        same_on(one, other, dirs, files),
        placed(state, dirs, files),
        fields.namebuf.len() == 0 || files.contains(fields.namebuf),
    ensures
        crate::efm::entry_result(fields, state, last, book, one) == crate::efm::entry_result(
            fields,
            state,
            last,
            book,
            other,
        ),
{
    lemma_resolved_same(
        state,
        crate::efm::chosen_name(fields, state),
        one,
        other,
        dirs,
        files,
    );
}

/// The directories after a line entered or left one are among those that it can
/// be about.
proof fn lemma_moved_placed(
    letter: u8,
    name: Seq<char>,
    names: Seq<Seq<char>>,
    state: EfmStateView,
    one: Surroundings,
    other: Surroundings,
)
    requires
        same_on(one, other, dirs_of(names, state), files_of(names, state)),
        placed(state, dirs_of(names, state), files_of(names, state)),
        letter == 0x44 ==> names.contains(name),
    ensures
        crate::efm::directory_moved(letter, name, state, one) == crate::efm::directory_moved(
            letter,
            name,
            state,
            other,
        ),
        placed(
            crate::efm::directory_moved(letter, name, state, one),
            dirs_of(names, state),
            files_of(names, state),
        ),
{
    let dirs = dirs_of(names, state);
    let files = files_of(names, state);
    let stack = state.dir_stack;
    let moved = crate::efm::directory_moved(letter, name, state, one);
    if letter == 0x44 {
        lemma_contains_add(names, one_name(state.currfile), name);
        lemma_contains_add(names + one_name(state.currfile), state.file_stack, name);
        lemma_topmost_same(stack, name, one, other, dirs, files, stack.len() as int);
        lemma_contains_add(one_name(state.directory) + stack, names, name);
        lemma_contains_add(
            one_name(state.directory) + stack + names,
            below(stack, names),
            name,
        );
        assert(dirs.contains(name));
        if let Some(i) = crate::efm_names::topmost_dir(stack, name, one.paths, stack.len() as int) {
            let path = crate::efm_names::joined_path(stack[i], name);
            assert(stack.contains(stack[i]));
            lemma_below(stack, names, stack[i], name);
            lemma_contains_add(
                one_name(state.directory) + stack + names,
                below(stack, names),
                path,
            );
            assert(dirs.contains(path));
        }
    }
    assert forall|i: int| 0 <= i < moved.dir_stack.len() implies dirs.contains(
        #[trigger] moved.dir_stack[i],
    ) by {
        if i < stack.len() && moved.dir_stack[i] == stack[i] {
            assert(dirs.contains(stack[i]));
        }
    }
    if moved.dir_stack.len() > 0 {
        assert(dirs.contains(moved.dir_stack[moved.dir_stack.len() - 1]));
    }
}

/// What a state holds is among what a line can be about.
proof fn lemma_state_placed(names: Seq<Seq<char>>, state: EfmStateView)
    ensures
        placed(state, dirs_of(names, state), files_of(names, state)),
        forall|i: int|
            0 <= i < state.file_stack.len() ==> files_of(names, state).contains(
                #[trigger] state.file_stack[i],
            ),
        forall|name: Seq<char>| #[trigger]
            names.contains(name) ==> files_of(names, state).contains(name),
{
    let dirs = dirs_of(names, state);
    let files = files_of(names, state);
    let first = one_name(state.directory);
    if state.directory is Some {
        let dir = state.directory->0;
        assert(first[0] == dir);
        lemma_contains_add(first, state.dir_stack, dir);
        lemma_contains_add(first + state.dir_stack, names, dir);
        lemma_contains_add(first + state.dir_stack + names, below(state.dir_stack, names), dir);
    }
    assert forall|i: int| 0 <= i < state.dir_stack.len() implies dirs.contains(
        #[trigger] state.dir_stack[i],
    ) by {
        let dir = state.dir_stack[i];
        assert(state.dir_stack.contains(dir));
        lemma_contains_add(first, state.dir_stack, dir);
        lemma_contains_add(first + state.dir_stack, names, dir);
        lemma_contains_add(first + state.dir_stack + names, below(state.dir_stack, names), dir);
    }
    let file = one_name(state.currfile);
    if state.currfile is Some {
        assert(file[0] == state.currfile->0);
        lemma_contains_add(names, file, state.currfile->0);
        lemma_contains_add(names + file, state.file_stack, state.currfile->0);
    }
    assert forall|i: int| 0 <= i < state.file_stack.len() implies files.contains(
        #[trigger] state.file_stack[i],
    ) by {
        assert(state.file_stack.contains(state.file_stack[i]));
        lemma_contains_add(names + file, state.file_stack, state.file_stack[i]);
    }
    assert forall|name: Seq<char>| #[trigger] names.contains(name) implies files.contains(name) by {
        lemma_contains_add(names, file, name);
        lemma_contains_add(names + file, state.file_stack, name);
    }
}

proof fn lemma_matched_same(
    line: Seq<char>,
    part: EfmPartView,
    at: int,
    read: crate::efm::Reading,
    state: EfmStateView,
    last: Option<ParsedEntryView>,
    book: crate::efm::BufferBook,
    one: Surroundings,
    other: Surroundings,
    names: Seq<Seq<char>>,
)
    requires
        same_on(one, other, dirs_of(names, state), files_of(names, state)),
        read.fields.namebuf.len() == 0 || names.contains(read.fields.namebuf),
    ensures
        crate::efm::matched_result(line, part, at, read, state, last, book, one)
            == crate::efm::matched_result(line, part, at, read, state, last, book, other),
{
    let dirs = dirs_of(names, state);
    let files = files_of(names, state);
    let letter = part.prefix;
    let fields = read.fields;
    let here = EfmStateView {
        fmt_start: if part.conthere {
            Some(at as usize)
        } else {
            state.fmt_start
        },
        ..state
    };
    lemma_state_placed(names, state);
    if crate::efm_format::is_dir_kind(letter) {
        if !(letter == 0x44 && fields.namebuf.len() == 0) {
            lemma_moved_placed(letter, fields.namebuf, names, state, one, other);
            lemma_entry_same(
                fields.unmatched(line),
                crate::efm::directory_moved(letter, fields.namebuf, state, one),
                last,
                book,
                one,
                other,
                dirs,
                files,
            );
        }
    } else if letter == 0x41 || letter == 0x45 || letter == 0x57 || letter == 0x49 || letter
        == 0x4e {
        let open = EfmStateView { multiline: true, multiignore: false, ..here };
        lemma_entry_same(fields, open, last, book, one, other, dirs, files);
    } else if letter == 0x43 || letter == 0x5a {
        let fname = crate::efm::chosen_name(fields, here);
        lemma_resolved_same(here, fname, one, other, dirs, files);
        lemma_resolved_same(
            crate::efm::block_ended(letter, here),
            fname,
            one,
            other,
            dirs,
            files,
        );
    } else if crate::efm_format::is_file_kind(letter) {
        let invalid = crate::efm::FieldsView { valid: false, ..fields };
        lemma_entry_same(invalid, here, last, book, one, other, dirs, files);
        let moved = crate::efm::file_moved(letter, fields.namebuf, here, one);
        let nameless = crate::efm::FieldsView { namebuf: Seq::empty(), ..invalid };
        if fields.namebuf.len() > 0 && letter == 0x50 {
            assert(moved.currfile == Some(fields.namebuf));
        } else if letter == 0x51 && moved.file_stack.len() > 0 {
            assert(moved.file_stack.last() == state.file_stack[state.file_stack.len() - 2]);
        }
        lemma_entry_same(nameless, moved, last, book, one, other, dirs, files);
    } else {
        lemma_entry_same(fields, here, last, book, one, other, dirs, files);
    }
}

/// A line is parsed the same wherever the environment and the listed names are
/// the same: what lies at other names on disk makes no difference.
pub proof fn law_only_listed_names_matter(
    line: Seq<char>,
    parts: Seq<EfmPartView>,
    found: Seq<Option<LineMatch>>,
    state: EfmStateView,
    last: Option<ParsedEntryView>,
    book: crate::efm::BufferBook,
    one: Surroundings,
    other: Surroundings,
)
    requires
        agree(
            one,
            other,
            looked_up(names_in(line, parts, found, one, parts.len() as int), state),
        ),
    ensures
        crate::efm::line_result(line, parts, found, state, last, book, one)
            == crate::efm::line_result(line, parts, found, state, last, book, other),
{
    let names = names_in(line, parts, found, one, parts.len() as int);
    lemma_same_on(one, other, names, state);
    lemma_state_placed(names, state);
    let start = crate::efm::search_start(state);
    lemma_search_same(
        line,
        parts,
        found,
        start,
        crate::efm::Reading { ok: false, fields: crate::efm::FieldsView::unread(), tail: None },
        state,
        book,
        one,
        other,
        names,
    );
    let (at, read) = crate::efm::search_result(line, parts, found, state, book, one);
    let after = crate::efm::after_search(state);
    if at >= parts.len() {
        lemma_entry_same(
            read.fields.unmatched(line),
            EfmStateView { multiline: false, multiignore: false, ..after },
            last,
            book,
            one,
            other,
            dirs_of(names, state),
            files_of(names, state),
        );
    } else {
        lemma_matched_same(line, parts[at], at, read, after, last, book, one, other, names);
    }
}

} // verus!
