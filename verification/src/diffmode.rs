//! Diff mode.

use vstd::prelude::*;

pub mod blocks;
pub mod flags;
pub mod folds;

use crate::buffer::BufferState;
use crate::diffmode::blocks::{add_comparison, lines_to_text};
use crate::diffmode::flags::{add_scrollopt_hor, remove_scrollopt_hor, DiffOpts};
use crate::diffmode::folds::{fold_ranges_around, FoldRange};
use crate::editor::{Editor, GlobalOptions};
use crate::text::{number_chars, same_text, string_of};
use crate::types::{BufHandle, TabHandle, WinHandle};
use crate::window::{WindowEntry, WindowOptions};

verus! {

/// The option values saved on entry into diff mode and restored on leaving it.
#[derive(Debug, PartialEq, Eq)]
pub struct SavedWindowOptions {
    /// `'scrollbind'`.
    pub scrollbind: bool,
    /// `'cursorbind'`.
    pub cursorbind: bool,
    /// `'wrap'`.
    pub wrap: bool,
    /// `'foldmethod'`.
    pub foldmethod: String,
    /// `'foldcolumn'`.
    pub foldcolumn: String,
    /// `'foldenable'`.
    pub foldenable: bool,
    /// `'foldlevel'`.
    pub foldlevel: i64,
}

/// One changed region shared between the reference buffer and one compared
/// buffer. Start lines are one-based; a count of zero marks the line before
/// which lines were inserted on the other side.
#[derive(Clone, Copy, Debug, Eq, PartialEq)]
pub struct DiffBlock {
    /// One-based start line and line count in the reference buffer.
    pub base: (usize, usize),
    /// The compared buffer.
    pub other_buffer: BufHandle,
    /// One-based start line and line count in the compared buffer.
    pub other: (usize, usize),
}

/// A tabpage's computed blocks plus the tick that each participating buffer
/// carried when they were computed.
#[derive(Debug, PartialEq, Eq)]
pub struct TabBlocks {
    /// The blocks.
    pub blocks: Vec<DiffBlock>,
    /// The participating buffers and their ticks.
    pub ticks: Vec<(BufHandle, u64)>,
}

/// Diff-mode editor state: saved window options and the blocks of each tabpage.
#[derive(Debug, PartialEq, Eq)]
pub struct DiffState {
    /// Options saved for windows in diff mode.
    pub saved: Vec<(WinHandle, SavedWindowOptions)>,
    /// Blocks of tabpages.
    pub blocks: Vec<(TabHandle, TabBlocks)>,
}

impl Default for DiffState {
    fn default() -> (state: Self)
        ensures
            state.saved@ == Seq::<(WinHandle, SavedWindowOptions)>::empty(),
            state.blocks@ == Seq::<(TabHandle, TabBlocks)>::empty(),
    {
        DiffState { saved: Vec::new(), blocks: Vec::new() }
    }
}

/// At most this many buffers take part in one tabpage's diff.
pub const MAX_DIFF_BUFFERS: usize = 8;

/// What is stored under `key`: the last entry with it.
pub open spec fn found<K, V>(entries: Seq<(K, V)>, key: K) -> Option<V>
    decreases entries.len(),
{
    if entries.len() == 0 {
        None
    } else if entries.last().0 == key {
        Some(entries.last().1)
    } else {
        found(entries.drop_last(), key)
    }
}

/// The entries without those under `key`.
pub open spec fn without<K, V>(entries: Seq<(K, V)>, key: K) -> Seq<(K, V)> {
    entries.filter(under_another(key))
}

/// Whether an entry is not under `key`.
pub open spec fn under_another<K, V>(key: K) -> spec_fn((K, V)) -> bool {
    |entry: (K, V)| entry.0 != key
}

/// What is dropped is not found, what is stored is, and entries under other
/// keys stay.
pub proof fn law_stored_is_found<K, V>(entries: Seq<(K, V)>, key: K, value: V, other: K)
    ensures
        found(without(entries, key), key) is None,
        found(without(entries, key).push((key, value)), key) == Some(value),
        other != key ==> found(without(entries, key), other) == found(entries, other) && found(
            without(entries, key).push((key, value)),
            other,
        ) == found(entries, other),
    decreases entries.len(),
{
    reveal(Seq::filter);
    let kept = without(entries, key);
    if entries.len() > 0 {
        let head = entries.drop_last();
        law_stored_is_found(head, key, value, other);
        if entries.last().0 != key {
            assert(kept == without(head, key).push(entries.last()));
            assert(kept.drop_last() =~= without(head, key));
        }
    }
    assert(kept.push((key, value)).drop_last() =~= kept);
}

/// The options that are saved when a window enters diff mode. With
/// `followwrap` nothing is saved for `'wrap'`.
pub open spec fn saved_of(options: WindowOptions, opts: DiffOpts) -> SavedWindowOptions {
    SavedWindowOptions {
        scrollbind: options.scrollbind,
        cursorbind: options.cursorbind,
        wrap: !opts.followwrap && options.wrap,
        foldmethod: options.foldmethod,
        foldcolumn: options.foldcolumn,
        foldenable: options.foldenable,
        foldlevel: options.foldlevel,
    }
}

/// The options of a window in diff mode.
pub open spec fn entered(before: WindowOptions, after: WindowOptions, opts: DiffOpts) -> bool {
    &&& after == (WindowOptions {
        diff: true,
        scrollbind: true,
        cursorbind: true,
        wrap: opts.followwrap && before.wrap,
        foldmethod: after.foldmethod,
        foldcolumn: after.foldcolumn,
        foldenable: true,
        foldlevel: 0,
        ..before
    })
    &&& after.foldmethod@ == "diff"@
    &&& after.foldcolumn@ == crate::text::decimal_text(opts.foldcolumn as nat)
}

/// The options of a window that left diff mode: settings that are still those
/// of diff mode are restored. With a manual fold method `'foldenable'` is not,
/// since the diff folds would keep showing.
pub open spec fn left(
    before: WindowOptions,
    after: WindowOptions,
    saved: Option<SavedWindowOptions>,
    followwrap: bool,
) -> bool {
    match saved {
        None => after == (WindowOptions { diff: false, ..before }),
        Some(saved) => {
            &&& after == (WindowOptions {
                diff: false,
                scrollbind: before.scrollbind && saved.scrollbind,
                cursorbind: before.cursorbind && saved.cursorbind,
                wrap: before.wrap || (!followwrap && saved.wrap),
                foldmethod: after.foldmethod,
                foldcolumn: after.foldcolumn,
                foldenable: before.foldenable && saved.foldenable && after.foldmethod@
                    != "manual"@,
                foldlevel: if before.foldlevel == 0 {
                    saved.foldlevel
                } else {
                    before.foldlevel
                },
                ..before
            })
            &&& after.foldmethod@ == if saved.foldmethod@.len() == 0 {
                "manual"@
            } else {
                saved.foldmethod@
            }
            &&& after.foldcolumn@ == if saved.foldcolumn@.len() == 0 {
                "0"@
            } else {
                saved.foldcolumn@
            }
        },
    }
}

fn save_options(options: &WindowOptions, opts: DiffOpts) -> (saved: SavedWindowOptions)
    ensures
        saved == saved_of(*options, opts),
{
    SavedWindowOptions {
        scrollbind: options.scrollbind,
        cursorbind: options.cursorbind,
        wrap: !opts.followwrap && options.wrap,
        foldmethod: options.foldmethod.clone(),
        foldcolumn: options.foldcolumn.clone(),
        foldenable: options.foldenable,
        foldlevel: options.foldlevel,
    }
}

fn enter_options(options: &WindowOptions, opts: DiffOpts) -> (entered: WindowOptions)
    ensures
        self::entered(*options, entered, opts),
{
    WindowOptions {
        diff: true,
        scrollbind: true,
        cursorbind: true,
        wrap: opts.followwrap && options.wrap,
        foldmethod: "diff".to_owned(),
        foldcolumn: string_of(number_chars(opts.foldcolumn as u64).as_slice()),
        foldenable: true,
        foldlevel: 0,
        winfixbuf: options.winfixbuf,
        eventignorewin: options.eventignorewin.clone(),
    }
}

fn text_or(text: &String, default: &str) -> (value: String)
    ensures
        value@ == if text@.len() == 0 {
            default@
        } else {
            text@
        },
{
    if text.as_str().unicode_len() == 0 {
        default.to_owned()
    } else {
        text.clone()
    }
}

fn leave_options(
    options: &WindowOptions,
    saved: &Option<SavedWindowOptions>,
    followwrap: bool,
) -> (after: WindowOptions)
    ensures
        left(*options, after, *saved, followwrap),
{
    match saved {
        None => {
            let mut after = options.clone();
            after.diff = false;
            after
        },
        Some(saved) => {
            let foldmethod = text_or(&saved.foldmethod, "manual");
            let manual: bool = same_text(foldmethod.as_str(), "manual");
            WindowOptions {
                diff: false,
                scrollbind: options.scrollbind && saved.scrollbind,
                cursorbind: options.cursorbind && saved.cursorbind,
                wrap: options.wrap || (!followwrap && saved.wrap),
                foldmethod,
                foldcolumn: text_or(&saved.foldcolumn, "0"),
                foldenable: options.foldenable && saved.foldenable && !manual,
                foldlevel: if options.foldlevel == 0 {
                    saved.foldlevel
                } else {
                    options.foldlevel
                },
                winfixbuf: options.winfixbuf,
                eventignorewin: options.eventignorewin.clone(),
            }
        },
    }
}

/// Leaving diff mode gives a window the options back that it had on entering
/// it. The fold method and column are kept where they were not empty, and
/// `'foldenable'` where the fold method was not manual.
pub proof fn law_leaving_restores(
    before: WindowOptions,
    inside: WindowOptions,
    after: WindowOptions,
    opts: DiffOpts,
)
    requires
        entered(before, inside, opts),
        left(inside, after, Some(saved_of(before, opts)), opts.followwrap),
    ensures
        !after.diff,
        after.scrollbind == before.scrollbind,
        after.cursorbind == before.cursorbind,
        after.wrap == before.wrap,
        after.foldlevel == before.foldlevel,
        before.foldmethod@.len() > 0 ==> after.foldmethod@ == before.foldmethod@,
        before.foldcolumn@.len() > 0 ==> after.foldcolumn@ == before.foldcolumn@,
        before.foldmethod@.len() > 0 && before.foldmethod@ != "manual"@ ==> after.foldenable
            == before.foldenable,
        after.winfixbuf == before.winfixbuf,
        after.eventignorewin == before.eventignorewin,
{
}

impl DiffState {
    fn saved_for(&self, window: WinHandle) -> (saved: Option<SavedWindowOptions>)
        ensures
            saved == found(self.saved@, window),
    {
        let mut next: usize = self.saved.len();
        assert(self.saved@.take(next as int) =~= self.saved@);
        while next > 0
            invariant
                next <= self.saved@.len(),
                found(self.saved@, window) == found(self.saved@.take(next as int), window),
            decreases next,
        {
            next = next - 1;
            let ghost head = self.saved@.take(next + 1);
            assert(head.drop_last() =~= self.saved@.take(next as int));
            assert(head.last() == self.saved@[next as int]);
            if self.saved[next].0 == window {
                let saved = &self.saved[next].1;
                return Some(
                    SavedWindowOptions {
                        scrollbind: saved.scrollbind,
                        cursorbind: saved.cursorbind,
                        wrap: saved.wrap,
                        foldmethod: saved.foldmethod.clone(),
                        foldcolumn: saved.foldcolumn.clone(),
                        foldenable: saved.foldenable,
                        foldlevel: saved.foldlevel,
                    },
                );
            }
        }
        None
    }

    fn blocks_for(&self, tab: TabHandle) -> (at: Option<usize>)
        ensures
            match at {
                Some(at) => at < self.blocks@.len() && found(self.blocks@, tab) == Some(
                    self.blocks@[at as int].1,
                ),
                None => found(self.blocks@, tab) is None,
            },
    {
        let mut next: usize = self.blocks.len();
        assert(self.blocks@.take(next as int) =~= self.blocks@);
        while next > 0
            invariant
                next <= self.blocks@.len(),
                found(self.blocks@, tab) == found(self.blocks@.take(next as int), tab),
            decreases next,
        {
            next = next - 1;
            let ghost head = self.blocks@.take(next + 1);
            assert(head.drop_last() =~= self.blocks@.take(next as int));
            assert(head.last() == self.blocks@[next as int]);
            if self.blocks[next].0 == tab {
                return Some(next);
            }
        }
        None
    }

    fn drop_saved(&mut self, window: WinHandle)
        ensures
            final(self).saved@ == without(old(self).saved@, window),
            final(self).blocks == old(self).blocks,
    {
        let ghost all = self.saved@;
        let ghost keep = under_another::<WinHandle, SavedWindowOptions>(window);
        let mut next: usize = 0;
        let ghost mut seen: int = 0;
        proof {
            reveal(Seq::filter);
            assert(all.take(0).filter(keep) + all.skip(0) =~= self.saved@);
        }
        while next < self.saved.len()
            invariant
                0 <= seen <= all.len(),
                keep == under_another::<WinHandle, SavedWindowOptions>(window),
                next == all.take(seen).filter(keep).len(),
                self.saved@ == all.take(seen).filter(keep) + all.skip(seen),
                self.blocks == old(self).blocks,
            decreases all.len() - seen,
        {
            let ghost before = self.saved@;
            proof {
                reveal(Seq::filter);
                assert(all.skip(seen).len() > 0);
                assert(all.take(seen + 1).drop_last() =~= all.take(seen));
                assert(before[next as int] == all[seen]);
            }
            if self.saved[next].0 == window {
                let _ = self.saved.remove(next);
                assert(self.saved@ =~= all.take(seen + 1).filter(keep) + all.skip(seen + 1));
            } else {
                next = next + 1;
                assert(self.saved@ =~= all.take(seen + 1).filter(keep) + all.skip(seen + 1));
            }
            proof {
                seen = seen + 1;
            }
        }
        proof {
            assert(all.skip(seen).len() == 0);
            assert(all.take(seen) =~= all);
            assert(self.saved@ =~= all.filter(keep));
        }
    }

    fn drop_blocks(&mut self, tab: TabHandle)
        ensures
            final(self).blocks@ == without(old(self).blocks@, tab),
            final(self).saved == old(self).saved,
    {
        let ghost all = self.blocks@;
        let ghost keep = under_another::<TabHandle, TabBlocks>(tab);
        let mut next: usize = 0;
        let ghost mut seen: int = 0;
        proof {
            reveal(Seq::filter);
            assert(all.take(0).filter(keep) + all.skip(0) =~= self.blocks@);
        }
        while next < self.blocks.len()
            invariant
                0 <= seen <= all.len(),
                keep == under_another::<TabHandle, TabBlocks>(tab),
                next == all.take(seen).filter(keep).len(),
                self.blocks@ == all.take(seen).filter(keep) + all.skip(seen),
                self.saved == old(self).saved,
            decreases all.len() - seen,
        {
            let ghost before = self.blocks@;
            proof {
                reveal(Seq::filter);
                assert(all.skip(seen).len() > 0);
                assert(all.take(seen + 1).drop_last() =~= all.take(seen));
                assert(before[next as int] == all[seen]);
            }
            if self.blocks[next].0 == tab {
                let _ = self.blocks.remove(next);
                assert(self.blocks@ =~= all.take(seen + 1).filter(keep) + all.skip(seen + 1));
            } else {
                next = next + 1;
                assert(self.blocks@ =~= all.take(seen + 1).filter(keep) + all.skip(seen + 1));
            }
            proof {
                seen = seen + 1;
            }
        }
        proof {
            assert(all.skip(seen).len() == 0);
            assert(all.take(seen) =~= all);
            assert(self.blocks@ =~= all.filter(keep));
        }
    }
}

/// The buffers that the windows compare: those of windows in diff mode, each
/// once, in window order, up to [`MAX_DIFF_BUFFERS`].
pub open spec fn diff_buffers(editor: Editor, windows: Seq<WinHandle>) -> Seq<BufHandle>
    decreases windows.len(),
{
    if windows.len() == 0 {
        Seq::empty()
    } else {
        let before = diff_buffers(editor, windows.drop_last());
        let entry = editor.window_entry(windows.last());
        if entry.options.diff && !before.contains(entry.state.buffer) && before.len()
            < MAX_DIFF_BUFFERS {
            before.push(entry.state.buffer)
        } else {
            before
        }
    }
}

/// The buffers that take part in a tabpage's diff.
pub open spec fn participants(editor: Editor, tab: TabHandle) -> Seq<BufHandle> {
    diff_buffers(editor, editor.links().tabs[editor.links().tab_at(tab)].windows())
}

/// The buffers with their ticks.
pub open spec fn ticks_of(editor: Editor, buffers: Seq<BufHandle>) -> Seq<(BufHandle, u64)> {
    buffers.map_values(|buffer: BufHandle| (buffer, editor.buffer_state(buffer).changedtick))
}

/// The text that stands for a loaded buffer in a comparison.
pub open spec fn compared_text(state: BufferState, opts: DiffOpts) -> Option<Seq<char>> {
    if state.lines is Some {
        Some(crate::diffmode::blocks::key_text(state.rows(), opts))
    } else {
        None
    }
}

/// The changes between the reference text and each buffer, in turn. Buffers
/// that are not loaded are passed over.
pub open spec fn changes_from(
    editor: Editor,
    base: Seq<char>,
    buffers: Seq<BufHandle>,
    opts: DiffOpts,
) -> Seq<DiffBlock>
    decreases buffers.len(),
{
    if buffers.len() == 0 {
        Seq::empty()
    } else {
        let before = changes_from(editor, base, buffers.drop_last(), opts);
        match compared_text(editor.buffer_state(buffers.last()), opts) {
            Some(text) => crate::diffmode::blocks::with_comparison(
                before,
                base,
                buffers.last(),
                text,
            ),
            None => before,
        }
    }
}

/// The changes between the first buffer and each other one.
pub open spec fn changes_between(
    editor: Editor,
    buffers: Seq<BufHandle>,
    opts: DiffOpts,
) -> Seq<DiffBlock> {
    if buffers.len() == 0 {
        Seq::empty()
    } else {
        match compared_text(editor.buffer_state(buffers[0]), opts) {
            Some(base) => changes_from(editor, base, buffers.skip(1), opts),
            None => Seq::empty(),
        }
    }
}

/// Whether all loaded buffers are compared by the same text.
pub open spec fn agree(editor: Editor, buffers: Seq<BufHandle>, opts: DiffOpts) -> bool {
    forall|i: int, j: int|
        0 <= i < buffers.len() && 0 <= j < buffers.len() ==> {
            let one = compared_text(editor.buffer_state(#[trigger] buffers[i]), opts);
            let other = compared_text(editor.buffer_state(#[trigger] buffers[j]), opts);
            one is Some && other is Some ==> one == other
        }
}

/// The current tabpage's blocks are those of its buffers' text: they are kept
/// while every participating buffer has the tick it had, and computed anew
/// otherwise.
pub open spec fn refreshed(before: Editor, after: Editor) -> bool {
    match before.current_tab {
        None => after == before,
        Some(tab) => {
            let buffers = participants(before, tab);
            let ticks = ticks_of(before, buffers);
            let kept = found(before.diff.blocks@, tab);
            if kept is Some && kept->0.ticks@ == ticks {
                after == before
            } else {
                let stored = after.diff.blocks@.last();
                &&& after.diff.blocks@ == without(before.diff.blocks@, tab).push(stored)
                &&& stored.0 == tab
                &&& stored.1.blocks@ == changes_between(
                    before,
                    buffers,
                    crate::diffmode::flags::diff_flags(before.globals.diffopt@),
                )
                &&& stored.1.ticks@ == ticks
                &&& after == (Editor {
                    diff: DiffState { saved: before.diff.saved, blocks: after.diff.blocks },
                    ..before
                })
            }
        },
    }
}

/// The windows of the tabpage at `at` that take part in its diff, by buffer.
fn diff_participants(editor: &Editor, at: usize) -> (buffers: Vec<BufHandle>)
    requires
        editor.wf(),
        at < editor.tabs@.len(),
    ensures
        buffers@ == diff_buffers(*editor, editor.links().tabs[at as int].windows()),
        buffers@.no_duplicates(),
        buffers@.len() <= MAX_DIFF_BUFFERS,
        forall|i: int| 0 <= i < buffers@.len() ==> editor.has_buffer(#[trigger] buffers@[i]),
{
    let windows = editor.windows_of(at);
    let mut buffers: Vec<BufHandle> = Vec::new();
    let mut next: usize = 0;
    proof {
        crate::editor::tabs::lemma_tab_windows(*editor, at as int);
        assert(editor.links().tabs[at as int] == crate::editor::tab_key(editor.tabs@[at as int]));
        let tab = editor.tabs@[at as int];
        assert(windows@ =~= tab.tiled@ + tab.floats@);
        assert forall|i: int| 0 <= i < windows@.len() implies editor.has_window(
            #[trigger] windows@[i],
        ) by {
            if i < tab.tiled@.len() {
                assert(windows@[i] == tab.tiled@[i]);
                assert(tab.tiled@.contains(windows@[i]));
            } else {
                assert(windows@[i] == tab.floats@[i - tab.tiled@.len()]);
                assert(tab.floats@.contains(windows@[i]));
            }
        }
    }
    while next < windows.len()
        invariant
            editor.wf(),
            next <= windows@.len(),
            forall|i: int| 0 <= i < windows@.len() ==> editor.has_window(#[trigger] windows@[i]),
            buffers@ == diff_buffers(*editor, windows@.take(next as int)),
            buffers@.no_duplicates(),
            buffers@.len() <= MAX_DIFF_BUFFERS,
            forall|i: int| 0 <= i < buffers@.len() ==> editor.has_buffer(#[trigger] buffers@[i]),
        decreases windows@.len() - next,
    {
        proof {
            assert(windows@.take(next + 1).drop_last() =~= windows@.take(next as int));
            assert(editor.has_window(windows@[next as int]));
        }
        if let Some(w) = editor.find_window(windows[next]) {
            proof {
                crate::editor::windows::lemma_window_tab(*editor, w as int);
            }
            let buffer = editor.windows[w].state.buffer;
            if editor.windows[w].options.diff && !holds_buffer(&buffers, buffer) && buffers.len()
                < MAX_DIFF_BUFFERS {
                buffers.push(buffer);
            }
        }
        next = next + 1;
    }
    assert(windows@.take(next as int) =~= windows@);
    buffers
}

fn holds_buffer(buffers: &Vec<BufHandle>, buffer: BufHandle) -> (holds: bool)
    ensures
        holds == buffers@.contains(buffer),
{
    let mut next: usize = 0;
    while next < buffers.len()
        invariant
            next <= buffers@.len(),
            forall|i: int| 0 <= i < next ==> #[trigger] buffers@[i] != buffer,
        decreases buffers@.len() - next,
    {
        if buffers[next] == buffer {
            return true;
        }
        next = next + 1;
    }
    false
}

fn text_of(editor: &Editor, buffer: BufHandle, opts: DiffOpts) -> (text: Option<String>)
    requires
        editor.wf(),
        editor.has_buffer(buffer),
    ensures
        match compared_text(editor.buffer_state(buffer), opts) {
            Some(compared) => text is Some && text->0@ == compared,
            None => text is None,
        },
{
    match editor.find_buffer(buffer) {
        Some(b) => match &editor.buffers[b].state.lines {
            Some(lines) => Some(lines_to_text(lines, opts)),
            None => None,
        },
        None => None,
    }
}

/// Compares every buffer with the first.
fn compute_blocks(editor: &Editor, buffers: &Vec<BufHandle>, opts: DiffOpts) -> (blocks: Vec<
    DiffBlock,
>)
    requires
        editor.wf(),
        forall|i: int| 0 <= i < buffers@.len() ==> editor.has_buffer(#[trigger] buffers@[i]),
    ensures
        blocks@ == changes_between(*editor, buffers@, opts),
        agree(*editor, buffers@, opts) ==> blocks@.len() == 0,
{
    let mut blocks: Vec<DiffBlock> = Vec::new();
    if buffers.len() == 0 {
        return blocks;
    }
    let base = match text_of(editor, buffers[0], opts) {
        Some(base) => base,
        None => {
            return blocks;
        },
    };
    let ghost rest = buffers@.skip(1);
    let mut next: usize = 1;
    while next < buffers.len()
        invariant
            1 <= next <= buffers@.len(),
            editor.wf(),
            forall|i: int| 0 <= i < buffers@.len() ==> editor.has_buffer(#[trigger] buffers@[i]),
            rest == buffers@.skip(1),
            compared_text(editor.buffer_state(buffers@[0]), opts) == Some(base@),
            blocks@ == changes_from(*editor, base@, rest.take(next - 1), opts),
            agree(*editor, buffers@, opts) ==> blocks@.len() == 0,
        decreases buffers@.len() - next,
    {
        proof {
            assert(rest.take(next as int).drop_last() =~= rest.take(next - 1));
            assert(rest.take(next as int).last() == buffers@[next as int]);
            assert(editor.has_buffer(buffers@[next as int]));
        }
        if let Some(text) = text_of(editor, buffers[next], opts) {
            proof {
                if agree(*editor, buffers@, opts) {
                    let one = compared_text(editor.buffer_state(buffers@[0]), opts);
                    let other = compared_text(editor.buffer_state(buffers@[next as int]), opts);
                    assert(one == other);
                }
            }
            add_comparison(&mut blocks, base.as_str(), buffers[next], text.as_str());
        }
        next = next + 1;
    }
    assert(rest.take(next - 1) =~= rest);
    blocks
}

fn buffer_ticks(editor: &Editor, buffers: &Vec<BufHandle>) -> (ticks: Vec<(BufHandle, u64)>)
    requires
        editor.wf(),
        forall|i: int| 0 <= i < buffers@.len() ==> editor.has_buffer(#[trigger] buffers@[i]),
    ensures
        ticks@ == ticks_of(*editor, buffers@),
{
    let mut ticks: Vec<(BufHandle, u64)> = Vec::new();
    let mut next: usize = 0;
    while next < buffers.len()
        invariant
            next <= buffers@.len(),
            editor.wf(),
            forall|i: int| 0 <= i < buffers@.len() ==> editor.has_buffer(#[trigger] buffers@[i]),
            ticks@ == ticks_of(*editor, buffers@.take(next as int)),
        decreases buffers@.len() - next,
    {
        proof {
            assert(editor.has_buffer(buffers@[next as int]));
            assert(ticks_of(*editor, buffers@.take(next + 1)) =~= ticks_of(
                *editor,
                buffers@.take(next as int),
            ).push(
                (
                    buffers@[next as int],
                    editor.buffer_state(buffers@[next as int]).changedtick,
                ),
            ));
        }
        if let Some(b) = editor.find_buffer(buffers[next]) {
            ticks.push((buffers[next], editor.buffers[b].state.changedtick));
        }
        next = next + 1;
    }
    assert(buffers@.take(next as int) =~= buffers@);
    ticks
}

fn same_ticks(one: &Vec<(BufHandle, u64)>, other: &Vec<(BufHandle, u64)>) -> (same: bool)
    ensures
        same == (one@ == other@),
{
    if one.len() != other.len() {
        return false;
    }
    let mut next: usize = 0;
    while next < one.len()
        invariant
            next <= one@.len(),
            one@.len() == other@.len(),
            forall|i: int| 0 <= i < next ==> #[trigger] one@[i] == other@[i],
        decreases one@.len() - next,
    {
        if one[next].0 != other[next].0 || one[next].1 != other[next].1 {
            assert(one@[next as int] != other@[next as int]);
            return false;
        }
        next = next + 1;
    }
    assert(one@ =~= other@);
    true
}

/// Computes the current tabpage's blocks unless every participating buffer
/// still has the tick that the last computation saw. Buffers that are compared
/// by the same text have no blocks.
pub fn ensure_blocks(editor: &mut Editor)
    requires
        old(editor).wf(),
    ensures
        final(editor).wf(),
        final(editor).links() == old(editor).links(),
        refreshed(*old(editor), *final(editor)),
        *final(editor) != *old(editor) ==> {
            let tab = old(editor).current_tab->0;
            let opts = crate::diffmode::flags::diff_flags(old(editor).globals.diffopt@);
            agree(*old(editor), participants(*old(editor), tab), opts)
                ==> final(editor).diff.blocks@.last().1.blocks@.len() == 0
        },
{
    let tab = match editor.current_tab {
        Some(tab) => tab,
        None => {
            return;
        },
    };
    proof {
        editor.links().lemma_parts();
    }
    let at: usize = match editor.find_tab(tab) {
        Some(at) => at,
        None => {
            return;
        },
    };
    let buffers = diff_participants(editor, at);
    let ticks = buffer_ticks(editor, &buffers);
    if let Some(stored) = editor.diff.blocks_for(tab) {
        if same_ticks(&editor.diff.blocks[stored].1.ticks, &ticks) {
            return;
        }
    }
    let opts = DiffOpts::read(editor.globals.diffopt.as_str());
    let blocks = compute_blocks(editor, &buffers, opts);
    editor.diff.drop_blocks(tab);
    let ghost kept = editor.diff.blocks@;
    editor.diff.blocks.push((tab, TabBlocks { blocks, ticks }));
    proof {
        assert(editor.diff.blocks@ =~= kept.push(editor.diff.blocks@.last()));
    }
}

/// The options of the window at `at` are those of diff mode, those it had are
/// saved unless it was in diff mode already, and scrolling is horizontal too.
pub open spec fn enters_diff(before: Editor, after: Editor, at: int) -> bool {
    let opts = crate::diffmode::flags::diff_flags(before.globals.diffopt@);
    let old_entry = before.windows@[at];
    let entry = after.windows@[at];
    &&& after.windows@ == before.windows@.update(at, entry)
    &&& entry == (WindowEntry { options: entry.options, ..old_entry })
    &&& entered(old_entry.options, entry.options, opts)
    &&& after.diff.saved@ == if old_entry.options.diff {
        before.diff.saved@
    } else {
        without(before.diff.saved@, old_entry.handle).push(
            (old_entry.handle, saved_of(old_entry.options, opts)),
        )
    }
    &&& after.diff.blocks == before.diff.blocks
    &&& after.globals == (GlobalOptions { scrollopt: after.globals.scrollopt, ..before.globals })
    &&& after.globals.scrollopt@ == crate::diffmode::flags::with_hor(before.globals.scrollopt@)
    &&& after == (Editor {
        windows: after.windows,
        diff: after.diff,
        globals: after.globals,
        ..before
    })
}

/// Saves a window's options on first entry and gives it those of diff mode.
fn diff_win_options(editor: &mut Editor, at: usize)
    requires
        old(editor).wf(),
        at < old(editor).windows@.len(),
    ensures
        final(editor).wf(),
        final(editor).links() == old(editor).links(),
        enters_diff(*old(editor), *final(editor), at as int),
{
    let opts = DiffOpts::read(editor.globals.diffopt.as_str());
    let window = editor.windows[at].handle;
    if !editor.windows[at].options.diff {
        let saved = save_options(&editor.windows[at].options, opts);
        editor.diff.drop_saved(window);
        editor.diff.saved.push((window, saved));
    }
    let options = enter_options(&editor.windows[at].options, opts);
    editor.windows[at].options = options;
    let scrollopt = add_scrollopt_hor(editor.globals.scrollopt.as_str());
    editor.globals.scrollopt = scrollopt;
    proof {
        assert(old(editor).windows@[at as int].area.text_height >= 1);
        crate::editor::lemma_tables_kept(*old(editor), *editor);
        assert(editor.windows@ =~= old(editor).windows@.update(
            at as int,
            editor.windows@[at as int],
        ));
    }
}

/// Puts the current window into diff mode.
///
/// # Errors
///
/// A message when there is no current window.
pub fn diffthis(editor: &mut Editor) -> (result: Result<(), String>)
    requires
        old(editor).wf(),
    ensures
        final(editor).wf(),
        match old(editor).links().current_window() {
            None => {
                &&& result is Err
                &&& result->Err_0@ == "E444: No current window"@
                &&& *final(editor) == *old(editor)
            },
            Some(window) => {
                &&& result is Ok
                &&& exists|inside: Editor| #[trigger]
                    refreshed(inside, *final(editor)) && enters_diff(
                        *old(editor),
                        inside,
                        old(editor).links().window_at(window),
                    )
            },
        },
{
    let window = match editor.current_window() {
        Some(window) => window,
        None => {
            return Err("E444: No current window".to_owned());
        },
    };
    proof {
        editor.links().lemma_current_window();
    }
    if let Some(at) = editor.find_window(window) {
        diff_win_options(editor, at);
        let ghost inside = *editor;
        ensure_blocks(editor);
        assert(refreshed(inside, *editor));
    }
    Ok(())
}

/// Whether `:diffoff` works on a window: with a bang, on every window of the
/// tabpage that is in diff mode, otherwise on the current one.
pub open spec fn is_target(
    entry: WindowEntry,
    bang: bool,
    tab: TabHandle,
    current: Option<WinHandle>,
) -> bool {
    if bang {
        entry.tab == tab && entry.options.diff
    } else {
        Some(entry.handle) == current
    }
}

/// Target windows left diff mode and no other window changed.
pub open spec fn leaves_diff(before: Editor, after: Editor, bang: bool, tab: TabHandle) -> bool {
    let current = before.links().current_window();
    let followwrap = crate::diffmode::flags::diff_flags(before.globals.diffopt@).followwrap;
    &&& after.windows@.len() == before.windows@.len()
    &&& forall|i: int|
        0 <= i < before.windows@.len() ==> {
            let old_entry = before.windows@[i];
            let entry = #[trigger] after.windows@[i];
            if is_target(old_entry, bang, tab, current) {
                &&& entry == (WindowEntry { options: entry.options, ..old_entry })
                &&& left(
                    old_entry.options,
                    entry.options,
                    found(before.diff.saved@, old_entry.handle),
                    followwrap,
                )
            } else {
                entry == old_entry
            }
        }
    &&& after == (Editor { windows: after.windows, ..before })
}

/// Whether a window of the tabpage is in diff mode.
pub open spec fn any_diff(editor: Editor, tab: TabHandle) -> bool {
    exists|i: int|
        0 <= i < editor.windows@.len() && (#[trigger] editor.windows@[i]).tab == tab
            && editor.windows@[i].options.diff
}

/// The tabpage's blocks are gone and scrolling is no longer horizontal.
pub open spec fn ends_diff(before: Editor, after: Editor, tab: TabHandle) -> bool {
    &&& after.diff.blocks@ == without(before.diff.blocks@, tab)
    &&& after.diff.saved == before.diff.saved
    &&& after.globals == (GlobalOptions { scrollopt: after.globals.scrollopt, ..before.globals })
    &&& after.globals.scrollopt@ == crate::diffmode::flags::without_hor(before.globals.scrollopt@)
    &&& after == (Editor { diff: after.diff, globals: after.globals, ..before })
}

fn leave_windows(editor: &mut Editor, bang: bool, tab: TabHandle)
    requires
        old(editor).wf(),
    ensures
        final(editor).wf(),
        final(editor).links() == old(editor).links(),
        leaves_diff(*old(editor), *final(editor), bang, tab),
{
    let followwrap: bool = DiffOpts::read(editor.globals.diffopt.as_str()).followwrap;
    let current = editor.current_window();
    let mut next: usize = 0;
    while next < editor.windows.len()
        invariant
            editor.wf(),
            editor.links() == old(editor).links(),
            *editor == (Editor { windows: editor.windows, ..*old(editor) }),
            editor.windows@.len() == old(editor).windows@.len(),
            next <= editor.windows@.len(),
            current == old(editor).links().current_window(),
            followwrap == crate::diffmode::flags::diff_flags(
                old(editor).globals.diffopt@,
            ).followwrap,
            forall|i: int|
                0 <= i < next ==> {
                    let old_entry = old(editor).windows@[i];
                    let entry = #[trigger] editor.windows@[i];
                    if is_target(old_entry, bang, tab, current) {
                        &&& entry == (WindowEntry { options: entry.options, ..old_entry })
                        &&& left(
                            old_entry.options,
                            entry.options,
                            found(old(editor).diff.saved@, old_entry.handle),
                            followwrap,
                        )
                    } else {
                        entry == old_entry
                    }
                },
            forall|i: int|
                next <= i < editor.windows@.len() ==> #[trigger] editor.windows@[i] == old(
                    editor,
                ).windows@[i],
        decreases editor.windows@.len() - next,
    {
        let ghost before = *editor;
        let handle = editor.windows[next].handle;
        let target: bool = if bang {
            editor.windows[next].tab == tab && editor.windows[next].options.diff
        } else {
            match current {
                Some(window) => window == handle,
                None => false,
            }
        };
        if target {
            let saved = editor.diff.saved_for(handle);
            let options = leave_options(&editor.windows[next].options, &saved, followwrap);
            editor.windows[next].options = options;
            proof {
                assert(before.windows@[next as int].area.text_height >= 1);
                crate::editor::lemma_tables_kept(before, *editor);
            }
        }
        next = next + 1;
    }
}

fn in_diff(editor: &Editor, tab: TabHandle) -> (any: bool)
    ensures
        any == any_diff(*editor, tab),
{
    let mut next: usize = 0;
    while next < editor.windows.len()
        invariant
            next <= editor.windows@.len(),
            forall|i: int|
                0 <= i < next ==> !((#[trigger] editor.windows@[i]).tab == tab
                    && editor.windows@[i].options.diff),
        decreases editor.windows@.len() - next,
    {
        if editor.windows[next].tab == tab && editor.windows[next].options.diff {
            return true;
        }
        next = next + 1;
    }
    false
}

/// Takes the current window, or with a bang every window of the current
/// tabpage, out of diff mode. Without a window left in diff mode the blocks are
/// dropped.
///
/// # Errors
///
/// A message when there is no current tabpage.
pub fn diffoff(editor: &mut Editor, bang: bool) -> (result: Result<(), String>)
    requires
        old(editor).wf(),
    ensures
        final(editor).wf(),
        match old(editor).current_tab {
            None => {
                &&& result is Err
                &&& result->Err_0@ == "E444: No current tabpage"@
                &&& *final(editor) == *old(editor)
            },
            Some(tab) => {
                &&& result is Ok
                &&& exists|outside: Editor| #[trigger]
                    leaves_diff(*old(editor), outside, bang, tab) && if any_diff(outside, tab) {
                        refreshed(outside, *final(editor))
                    } else {
                        ends_diff(outside, *final(editor), tab)
                    }
            },
        },
{
    let tab = match editor.current_tab {
        Some(tab) => tab,
        None => {
            return Err("E444: No current tabpage".to_owned());
        },
    };
    leave_windows(editor, bang, tab);
    let ghost outside = *editor;
    if in_diff(editor, tab) {
        ensure_blocks(editor);
    } else {
        editor.diff.drop_blocks(tab);
        let scrollopt = remove_scrollopt_hor(editor.globals.scrollopt.as_str());
        editor.globals.scrollopt = scrollopt;
    }
    proof {
        assert(leaves_diff(*old(editor), outside, bang, tab));
    }
    Ok(())
}

/// The editor without the current tabpage's blocks.
pub open spec fn unblocked(before: Editor, after: Editor) -> bool {
    match before.current_tab {
        None => after == before,
        Some(tab) => {
            &&& after.diff.blocks@ == without(before.diff.blocks@, tab)
            &&& after == (Editor {
                diff: DiffState { saved: before.diff.saved, blocks: after.diff.blocks },
                ..before
            })
        },
    }
}

/// Computes the current tabpage's blocks anew from the text as it is.
pub fn diffupdate(editor: &mut Editor)
    requires
        old(editor).wf(),
    ensures
        final(editor).wf(),
        exists|bare: Editor| #[trigger]
            unblocked(*old(editor), bare) && refreshed(bare, *final(editor)),
{
    if let Some(tab) = editor.current_tab {
        editor.diff.drop_blocks(tab);
    }
    let ghost bare = *editor;
    ensure_blocks(editor);
    assert(unblocked(*old(editor), bare));
}

/// What a window that shows `buffer` sees of the changes: the reference
/// buffer's window all of them, another its own.
pub open spec fn spans_for(blocks: Seq<DiffBlock>, base: BufHandle, buffer: BufHandle) -> Seq<
    (usize, usize),
> {
    if buffer == base {
        blocks.map_values(|block: DiffBlock| block.base)
    } else {
        blocks.filter(|block: DiffBlock| block.other_buffer == buffer).map_values(
            |block: DiffBlock| block.other,
        )
    }
}

fn collect_spans(blocks: &Vec<DiffBlock>, base: BufHandle, buffer: BufHandle) -> (spans: Vec<
    (usize, usize),
>)
    ensures
        spans@ == spans_for(blocks@, base, buffer),
{
    let ghost own = |block: DiffBlock| block.other_buffer == buffer;
    let ghost other = |block: DiffBlock| block.other;
    let mut spans: Vec<(usize, usize)> = Vec::new();
    let mut next: usize = 0;
    proof {
        reveal(Seq::filter);
        assert(spans@ =~= spans_for(blocks@.take(0), base, buffer));
    }
    while next < blocks.len()
        invariant
            next <= blocks@.len(),
            own == (|block: DiffBlock| block.other_buffer == buffer),
            other == (|block: DiffBlock| block.other),
            spans@ == spans_for(blocks@.take(next as int), base, buffer),
        decreases blocks@.len() - next,
    {
        let block = blocks[next];
        proof {
            reveal(Seq::filter);
            let head = blocks@.take(next as int);
            assert(blocks@.take(next + 1) =~= head.push(block));
            assert(head.push(block).drop_last() =~= head);
            if buffer == base {
                assert(spans_for(head.push(block), base, buffer) =~= spans@.push(block.base));
            } else if block.other_buffer == buffer {
                assert(head.push(block).filter(own) == head.filter(own).push(block));
                assert(head.filter(own).push(block).map_values(other) =~= head.filter(
                    own,
                ).map_values(other).push(block.other));
            } else {
                assert(head.push(block).filter(own) == head.filter(own));
            }
        }
        if buffer == base {
            spans.push(block.base);
        } else if block.other_buffer == buffer {
            spans.push(block.other);
        }
        next = next + 1;
    }
    assert(blocks@.take(next as int) =~= blocks@);
    spans
}

/// Whether the current window folds by a diff: it is in diff mode and its
/// buffer has a partner.
pub open spec fn folds_by_diff(editor: Editor) -> bool {
    match editor.links().current_window() {
        Some(window) => {
            let buffers = participants(editor, editor.current_tab->0);
            let entry = editor.window_entry(window);
            entry.options.diff && buffers.len() >= 2 && buffers.contains(entry.state.buffer)
        },
        None => false,
    }
}

/// The closed folds of the current window over a buffer of `line_count` lines:
/// lines away from every change fold shut, each change and the context around
/// it stays visible. Without a change every line folds; a window that is not in
/// diff mode, or whose buffer has no partner, folds nothing.
pub fn diff_fold_ranges(editor: &mut Editor, line_count: usize) -> (ranges: Vec<FoldRange>)
    requires
        old(editor).wf(),
    ensures
        final(editor).wf(),
        if folds_by_diff(*old(editor)) {
            let tab = old(editor).current_tab->0;
            let buffers = participants(*old(editor), tab);
            let window = old(editor).links().current_window()->0;
            &&& refreshed(*old(editor), *final(editor))
            &&& found(final(editor).diff.blocks@, tab) is Some
            &&& crate::diffmode::folds::folds_around(
                ranges@,
                spans_for(
                    found(final(editor).diff.blocks@, tab)->0.blocks@,
                    buffers[0],
                    old(editor).window_entry(window).state.buffer,
                ),
                crate::diffmode::flags::diff_flags(old(editor).globals.diffopt@).context,
                line_count,
            )
            &&& forall|row: int|
                0 <= row < line_count ==> #[trigger] crate::diffmode::folds::is_folded(
                    ranges@,
                    row,
                ) == !near_change(
                    found(final(editor).diff.blocks@, tab)->0.blocks@,
                    buffers[0],
                    old(editor).window_entry(window).state.buffer,
                    crate::diffmode::flags::diff_flags(
                        old(editor).globals.diffopt@,
                    ).context as int,
                    row + 1,
                )
        } else {
            ranges@.len() == 0 && *final(editor) == *old(editor)
        },
{
    let window = match editor.current_window() {
        Some(window) => window,
        None => {
            return Vec::new();
        },
    };
    proof {
        editor.links().lemma_current_window();
        editor.links().lemma_parts();
    }
    let tab = match editor.current_tab {
        Some(tab) => tab,
        None => {
            return Vec::new();
        },
    };
    let (at, w): (usize, usize) = match (editor.find_tab(tab), editor.find_window(window)) {
        (Some(at), Some(w)) => (at, w),
        _ => {
            return Vec::new();
        },
    };
    let buffer = editor.windows[w].state.buffer;
    if !editor.windows[w].options.diff {
        return Vec::new();
    }
    let buffers = diff_participants(editor, at);
    if buffers.len() < 2 || !holds_buffer(&buffers, buffer) {
        return Vec::new();
    }
    ensure_blocks(editor);
    let context: usize = DiffOpts::read(editor.globals.diffopt.as_str()).context;
    match editor.diff.blocks_for(tab) {
        Some(stored) => {
            let spans = collect_spans(&editor.diff.blocks[stored].1.blocks, buffers[0], buffer);
            let ranges = fold_ranges_around(&spans, context, line_count);
            proof {
                let blocks = editor.diff.blocks@[stored as int].1.blocks@;
                assert forall|row: int|
                    0 <= row < line_count implies #[trigger] crate::diffmode::folds::is_folded(
                    ranges@,
                    row,
                ) == !near_change(blocks, buffers@[0], buffer, context as int, row + 1) by {
                    law_windows_fold_by_their_own_lines(
                        ranges@,
                        blocks,
                        buffers@[0],
                        buffer,
                        context,
                        line_count,
                        row + 1,
                    );
                }
            }
            ranges
        },
        None => Vec::new(),
    }
}

/// Whether a line, counted from one, lies within `context` lines of one of the
/// `count` lines from `first` on, or, without any, of the gap before `first`.
pub open spec fn is_near(first: int, count: int, context: int, line: int) -> bool {
    first - context <= line < first + count + context
}

/// Whether a line of a window is near a change in that window's own numbering:
/// in the reference buffer's window the lines that the changes with all other
/// buffers replace count, in another one the lines of the changes with its own
/// buffer.
pub open spec fn near_change(
    blocks: Seq<DiffBlock>,
    base: BufHandle,
    buffer: BufHandle,
    context: int,
    line: int,
) -> bool {
    exists|k: int|
        0 <= k < blocks.len() && {
            ||| buffer == base && is_near(
                (#[trigger] blocks[k]).base.0 as int,
                blocks[k].base.1 as int,
                context,
                line,
            )
            ||| buffer != base && blocks[k].other_buffer == buffer && is_near(
                blocks[k].other.0 as int,
                blocks[k].other.1 as int,
                context,
                line,
            )
        }
}

/// A line of a window that shows a buffer in diff mode is folded exactly when
/// it is further than the context from every change, each change taken where
/// it is in that buffer.
pub proof fn law_windows_fold_by_their_own_lines(
    ranges: Seq<FoldRange>,
    blocks: Seq<DiffBlock>,
    base: BufHandle,
    buffer: BufHandle,
    context: usize,
    line_count: usize,
    line: int,
)
    requires
        crate::diffmode::folds::folds_around(
            ranges,
            spans_for(blocks, base, buffer),
            context,
            line_count,
        ),
        1 <= line <= line_count,
    ensures
        crate::diffmode::folds::is_folded(ranges, line - 1) == !near_change(
            blocks,
            base,
            buffer,
            context as int,
            line,
        ),
{
    let spans = spans_for(blocks, base, buffer);
    let row = line - 1;
    assert(crate::diffmode::folds::is_folded(ranges, row) == !crate::diffmode::folds::is_visible(
        spans,
        context,
        line_count,
        row,
    ));
    if buffer == base {
        if near_change(blocks, base, buffer, context as int, line) {
            let k = choose|k: int|
                0 <= k < blocks.len() && is_near(
                    (#[trigger] blocks[k]).base.0 as int,
                    blocks[k].base.1 as int,
                    context as int,
                    line,
                );
            assert(spans[k] == blocks[k].base);
            assert(crate::diffmode::folds::shows(spans[k], context, line_count, row));
        }
        if crate::diffmode::folds::is_visible(spans, context, line_count, row) {
            let k = choose|k: int|
                0 <= k < spans.len() && crate::diffmode::folds::shows(
                    #[trigger] spans[k],
                    context,
                    line_count,
                    row,
                );
            assert(spans[k] == blocks[k].base);
        }
    } else {
        let own = |block: DiffBlock| block.other_buffer == buffer;
        let kept = blocks.filter(own);
        if near_change(blocks, base, buffer, context as int, line) {
            let k = choose|k: int|
                0 <= k < blocks.len() && (#[trigger] blocks[k]).other_buffer == buffer && is_near(
                    blocks[k].other.0 as int,
                    blocks[k].other.1 as int,
                    context as int,
                    line,
                );
            assert(own(blocks[k]));
            blocks.lemma_filter_contains(own, k);
            let i = choose|i: int| 0 <= i < kept.len() && kept[i] == blocks[k];
            assert(spans[i] == blocks[k].other);
            assert(crate::diffmode::folds::shows(spans[i], context, line_count, row));
        }
        if crate::diffmode::folds::is_visible(spans, context, line_count, row) {
            let i = choose|i: int|
                0 <= i < spans.len() && crate::diffmode::folds::shows(
                    #[trigger] spans[i],
                    context,
                    line_count,
                    row,
                );
            assert(spans[i] == kept[i].other);
            blocks.lemma_filter_pred(own, i);
            assert(kept.contains(kept[i]));
            blocks.lemma_filter_contains_rev(own, kept[i]);
            let k = choose|k: int| 0 <= k < blocks.len() && blocks[k] == kept[i];
            assert(own(kept[i]));
            assert(blocks[k].other_buffer == buffer);
        }
    }
}

/// A window that entered diff mode and leaves it right away has its options
/// back, as [`law_leaving_restores`] says.
pub proof fn law_diffoff_undoes_diffthis(
    before: Editor,
    inside: Editor,
    shown: Editor,
    outside: Editor,
    at: int,
    tab: TabHandle,
)
    requires
        0 <= at < before.windows@.len(),
        before.links().current_window() == Some(before.windows@[at].handle),
        inside.links() == before.links(),
        !before.windows@[at].options.diff,
        enters_diff(before, inside, at),
        refreshed(inside, shown),
        leaves_diff(shown, outside, false, tab),
    ensures
        ({
            let first = before.windows@[at].options;
            let last = outside.windows@[at].options;
            &&& !last.diff
            &&& last.scrollbind == first.scrollbind
            &&& last.cursorbind == first.cursorbind
            &&& last.wrap == first.wrap
            &&& last.foldlevel == first.foldlevel
            &&& first.foldmethod@.len() > 0 ==> last.foldmethod@ == first.foldmethod@
            &&& first.foldcolumn@.len() > 0 ==> last.foldcolumn@ == first.foldcolumn@
            &&& first.foldmethod@.len() > 0 && first.foldmethod@ != "manual"@ ==> last.foldenable
                == first.foldenable
        }),
{
    let opts = crate::diffmode::flags::diff_flags(before.globals.diffopt@);
    let entry = before.windows@[at];
    law_stored_is_found(
        before.diff.saved@,
        entry.handle,
        saved_of(entry.options, opts),
        entry.handle,
    );
    assert(shown.windows@[at] == inside.windows@[at]);
    assert(shown.links() == inside.links());
    assert(outside.windows@[at].options.diff == false);
    law_leaving_restores(
        entry.options,
        inside.windows@[at].options,
        outside.windows@[at].options,
        opts,
    );
}

/// Whether the lines of all steps between the reference text and the buffers
/// can be counted.
pub open spec fn all_countable(
    editor: Editor,
    base: Seq<char>,
    buffers: Seq<BufHandle>,
    opts: DiffOpts,
) -> bool {
    forall|i: int|
        0 <= i < buffers.len() && compared_text(
            editor.buffer_state(#[trigger] buffers[i]),
            opts,
        ) is Some ==> crate::diffmode::blocks::all_countable(
            crate::diffmode::blocks::myers_operations(
                base,
                compared_text(editor.buffer_state(buffers[i]), opts)->0,
            ),
        )
}

proof fn lemma_changes_cover(
    editor: Editor,
    base: Seq<char>,
    buffers: Seq<BufHandle>,
    opts: DiffOpts,
    i: int,
    j: int,
)
    requires
        all_countable(editor, base, buffers, opts),
        0 <= i < buffers.len(),
        compared_text(editor.buffer_state(buffers[i]), opts) is Some,
        ({
            let text = compared_text(editor.buffer_state(buffers[i]), opts)->0;
            let steps = crate::diffmode::blocks::myers_operations(base, text);
            &&& crate::diffmode::blocks::comparable(base, text)
            &&& 0 <= j < steps.len()
            &&& !steps[j].equal
        }),
    ensures
        crate::diffmode::blocks::covered(
            changes_from(editor, base, buffers, opts),
            crate::diffmode::blocks::myers_operations(
                base,
                compared_text(editor.buffer_state(buffers[i]), opts)->0,
            )[j],
            buffers[i],
        ),
    decreases buffers.len(),
{
    let fewer = buffers.drop_last();
    let last = buffers.len() - 1;
    let before = changes_from(editor, base, fewer, opts);
    assert(buffers.last() == buffers[last]);
    let own = compared_text(editor.buffer_state(buffers[i]), opts)->0;
    let steps = crate::diffmode::blocks::myers_operations(base, own);
    if i == last {
        assert(crate::diffmode::blocks::all_countable(steps));
        crate::diffmode::blocks::law_blocks_hold_every_changed_line(
            before,
            steps,
            buffers[i],
            j,
        );
    } else {
        assert(fewer[i] == buffers[i]);
        assert(all_countable(editor, base, fewer, opts)) by {
            assert forall|k: int|
                0 <= k < fewer.len() && compared_text(
                    editor.buffer_state(#[trigger] fewer[k]),
                    opts,
                ) is Some implies crate::diffmode::blocks::all_countable(
                crate::diffmode::blocks::myers_operations(
                    base,
                    compared_text(editor.buffer_state(fewer[k]), opts)->0,
                ),
            ) by {
                assert(fewer[k] == buffers[k]);
            }
        }
        lemma_changes_cover(editor, base, fewer, opts, i, j);
        match compared_text(editor.buffer_state(buffers[last]), opts) {
            Some(text) => {
                let more = crate::diffmode::blocks::myers_operations(base, text);
                assert(crate::diffmode::blocks::all_countable(more));
                crate::diffmode::blocks::lemma_operations_keep(
                    before,
                    more,
                    buffers[last],
                    steps[j],
                    buffers[i],
                );
            },
            None => {},
        }
    }
}

/// Each difference between the first buffer and another one that takes part is
/// held by a block of that other buffer: the lines that it replaces where the
/// block is in the first buffer, and the lines that replace them where the
/// block is in the other.
pub proof fn law_blocks_hold_every_difference(
    editor: Editor,
    buffers: Seq<BufHandle>,
    opts: DiffOpts,
    i: int,
    j: int,
)
    requires
        1 <= i < buffers.len(),
        compared_text(editor.buffer_state(buffers[0]), opts) is Some,
        compared_text(editor.buffer_state(buffers[i]), opts) is Some,
        ({
            let base = compared_text(editor.buffer_state(buffers[0]), opts)->0;
            let text = compared_text(editor.buffer_state(buffers[i]), opts)->0;
            let steps = crate::diffmode::blocks::myers_operations(base, text);
            &&& all_countable(editor, base, buffers, opts)
            &&& crate::diffmode::blocks::comparable(base, text)
            &&& 0 <= j < steps.len()
            &&& !steps[j].equal
        }),
    ensures
        crate::diffmode::blocks::covered(
            changes_between(editor, buffers, opts),
            crate::diffmode::blocks::myers_operations(
                compared_text(editor.buffer_state(buffers[0]), opts)->0,
                compared_text(editor.buffer_state(buffers[i]), opts)->0,
            )[j],
            buffers[i],
        ),
{
    let base = compared_text(editor.buffer_state(buffers[0]), opts)->0;
    let others = buffers.skip(1);
    assert(others[i - 1] == buffers[i]);
    assert(all_countable(editor, base, others, opts)) by {
        assert forall|k: int|
            0 <= k < others.len() && compared_text(
                editor.buffer_state(#[trigger] others[k]),
                opts,
            ) is Some implies crate::diffmode::blocks::all_countable(
            crate::diffmode::blocks::myers_operations(
                base,
                compared_text(editor.buffer_state(others[k]), opts)->0,
            ),
        ) by {
            assert(others[k] == buffers[k + 1]);
        }
    }
    lemma_changes_cover(editor, base, others, opts, i - 1, j);
}

/// Whether a window is in diff mode and shows `buffer`.
pub open spec fn compares(editor: Editor, window: WinHandle, buffer: BufHandle) -> bool {
    editor.window_entry(window).options.diff && editor.window_entry(window).state.buffer == buffer
}

/// Whether one of some windows is in diff mode and shows `buffer`.
pub open spec fn compared_in(
    editor: Editor,
    windows: Seq<WinHandle>,
    buffer: BufHandle,
) -> bool {
    exists|w: int| 0 <= w < windows.len() && compares(editor, #[trigger] windows[w], buffer)
}

/// The buffers that take part are buffers of windows in diff mode, each once.
pub proof fn law_only_diff_windows_take_part(editor: Editor, windows: Seq<WinHandle>)
    ensures
        diff_buffers(editor, windows).no_duplicates(),
        diff_buffers(editor, windows).len() <= MAX_DIFF_BUFFERS,
        forall|i: int|
            0 <= i < diff_buffers(editor, windows).len() ==> compared_in(
                editor,
                windows,
                #[trigger] diff_buffers(editor, windows)[i],
            ),
    decreases windows.len(),
{
    if windows.len() > 0 {
        let fewer = windows.drop_last();
        let last = windows.len() - 1;
        law_only_diff_windows_take_part(editor, fewer);
        let before = diff_buffers(editor, fewer);
        let buffers = diff_buffers(editor, windows);
        assert(windows.last() == windows[last]);
        assert forall|i: int| 0 <= i < buffers.len() implies compared_in(
            editor,
            windows,
            #[trigger] buffers[i],
        ) by {
            if i < before.len() {
                assert(buffers[i] == before[i]);
                assert(compared_in(editor, fewer, before[i]));
                let w = choose|w: int|
                    0 <= w < fewer.len() && compares(editor, #[trigger] fewer[w], before[i]);
                assert(compares(editor, windows[w], buffers[i]));
            } else {
                assert(compares(editor, windows[last], buffers[i]));
            }
        }
    }
}

/// A buffer of a window in diff mode takes part, unless as many as can already
/// do.
pub proof fn law_every_diff_window_takes_part(
    editor: Editor,
    windows: Seq<WinHandle>,
    w: int,
)
    requires
        0 <= w < windows.len(),
        editor.window_entry(windows[w]).options.diff,
    ensures
        diff_buffers(editor, windows).contains(editor.window_entry(windows[w]).state.buffer)
            || diff_buffers(editor, windows).len() == MAX_DIFF_BUFFERS,
    decreases windows.len(),
{
    let fewer = windows.drop_last();
    let last = windows.len() - 1;
    let before = diff_buffers(editor, fewer);
    let buffers = diff_buffers(editor, windows);
    let buffer = editor.window_entry(windows[w]).state.buffer;
    law_only_diff_windows_take_part(editor, fewer);
    law_only_diff_windows_take_part(editor, windows);
    if w < last {
        law_every_diff_window_takes_part(editor, fewer, w);
        if before.contains(buffer) {
            let i = choose|i: int| 0 <= i < before.len() && before[i] == buffer;
            assert(buffers[i] == buffer);
        }
    } else if before.contains(buffer) {
        assert(buffers == before);
    } else if before.len() < MAX_DIFF_BUFFERS {
        assert(buffers[before.len() as int] == buffer);
    }
}

/// The first window in diff mode shows the reference buffer.
pub proof fn law_first_diff_window_shows_the_reference(
    editor: Editor,
    windows: Seq<WinHandle>,
    w: int,
)
    requires
        0 <= w < windows.len(),
        editor.window_entry(windows[w]).options.diff,
        forall|v: int| 0 <= v < w ==> !editor.window_entry(#[trigger] windows[v]).options.diff,
    ensures
        diff_buffers(editor, windows).len() > 0,
        diff_buffers(editor, windows)[0] == editor.window_entry(windows[w]).state.buffer,
    decreases windows.len(),
{
    let fewer = windows.drop_last();
    let last = windows.len() - 1;
    if w < last {
        law_first_diff_window_shows_the_reference(editor, fewer, w);
    } else {
        let before = diff_buffers(editor, fewer);
        law_only_diff_windows_take_part(editor, fewer);
        if before.len() > 0 {
            assert(compared_in(editor, fewer, before[0]));
            let v = choose|v: int|
                0 <= v < fewer.len() && compares(editor, #[trigger] fewer[v], before[0]);
            assert(editor.window_entry(windows[v]).options.diff);
        }
    }
}

/// Entering diff mode binds the window's scrolling and cursor, folds it by the
/// changes with all folds closed, and unwraps its lines unless `followwrap` is
/// set; neither what the window shows nor any other window changes.
pub proof fn law_diffthis_sets_the_window(before: Editor, after: Editor, at: int, i: int)
    requires
        enters_diff(before, after, at),
        0 <= at < before.windows@.len(),
        0 <= i < before.windows@.len(),
    ensures
        ({
            let options = after.windows@[at].options;
            &&& options.diff && options.scrollbind && options.cursorbind && options.foldenable
            &&& options.foldmethod@ == "diff"@
            &&& options.foldlevel == 0
            &&& !crate::diffmode::flags::diff_flags(before.globals.diffopt@).followwrap
                ==> !options.wrap
            &&& crate::diffmode::flags::diff_flags(before.globals.diffopt@).followwrap
                ==> options.wrap == before.windows@[at].options.wrap
            &&& after.windows@[i].state == before.windows@[i].state
            &&& after.windows@[i].handle == before.windows@[i].handle
            &&& i != at ==> after.windows@[i] == before.windows@[i]
            &&& after.buffers == before.buffers
        }),
{
}

/// Leaving diff mode with a bang takes every window of the tabpage out of it
/// and none of another; without one it takes out the current window alone. What
/// the windows show stays.
pub proof fn law_diffoff_leaves_what_it_should(
    before: Editor,
    after: Editor,
    bang: bool,
    tab: TabHandle,
    i: int,
)
    requires
        leaves_diff(before, after, bang, tab),
        0 <= i < before.windows@.len(),
    ensures
        ({
            let entry = before.windows@[i];
            let left = after.windows@[i];
            let current = before.links().current_window() == Some(entry.handle);
            &&& left.state == entry.state
            &&& left.handle == entry.handle
            &&& bang && entry.tab == tab ==> !left.options.diff
            &&& bang && entry.tab != tab ==> left == entry
            &&& bang && !entry.options.diff ==> left == entry
            &&& !bang && current ==> !left.options.diff
            &&& !bang && !current ==> left == entry
        }),
{
    assert(after.windows@[i] == after.windows@[i]);
}

} // verus!
