//! Terminal channels: buffers that show what an emulator rendered.

use vstd::prelude::*;

use crate::buffer::{BufferState, BufferStateError};
use crate::editor::{BufferEditMode, BufferEntry, Editor, TerminalChannelInfo};
use crate::errors::EditorError;
use crate::splice::{max_of, min_of};
use crate::text::{copy_bytes, push_bytes};
use crate::types::{BufHandle, Position};
use crate::window::{WindowEntry, WindowState};

verus! {

/// Which rows an emulator changed since it was last asked.
#[derive(Debug, PartialEq, Eq)]
pub struct TerminalDamage {
    /// Everything has to be shown anew.
    pub resync: bool,
    /// Rows dropped from the scrollback.
    pub scrollback_deleted: usize,
    /// Rows pushed to the scrollback.
    pub scrollback_pushed: usize,
    /// Buffer line of the first damaged screen row, one-based.
    pub first_line: usize,
    /// The damaged screen rows.
    pub rows: Vec<Vec<u8>>,
    /// All rows: the scrollback's, then the screen's.
    pub all_rows: Vec<Vec<u8>>,
}

/// What an emulator gives after it was fed.
#[derive(Debug, PartialEq, Eq)]
pub struct TerminalSnapshot {
    /// Bytes owed to the child.
    pub replies: Vec<u8>,
    /// Buffer line of the cursor, one-based.
    pub cursor_line: usize,
    /// Byte column of the cursor.
    pub cursor_column: usize,
    /// Rows of scrollback.
    pub scrollback_len: usize,
    /// Rows of scrollback and screen.
    pub line_count: usize,
    /// What changed, if anything did.
    pub damage: Option<TerminalDamage>,
}

impl TerminalSnapshot {
    /// The damaged rows start at a line and their lines can be counted.
    pub open spec fn wf(&self) -> bool {
        match self.damage {
            Some(damage) => damage.first() >= 1 && damage.first() + damage.shown().len()
                <= usize::MAX,
            None => true,
        }
    }

    /// Whether rows have to be shown.
    pub open spec fn shows(&self) -> bool {
        match self.damage {
            Some(damage) => damage.shown().len() > 0,
            None => false,
        }
    }

    /// Where the cursor goes in windows that follow the emulator.
    pub open spec fn cursor(&self) -> Position {
        Position {
            lnum: if self.cursor_line <= self.line_count {
                self.cursor_line
            } else {
                self.line_count
            },
            col: self.cursor_column,
        }
    }

    /// The first line of windows that follow the emulator: that of the screen's
    /// first row.
    pub open spec fn topline(&self) -> usize {
        crate::splice::sat(self.scrollback_len + 1)
    }
}

impl TerminalDamage {
    /// Whether all rows are shown anew: rows that moved to or from the
    /// scrollback shift every other.
    pub open spec fn rebuilds(&self) -> bool {
        self.resync || self.scrollback_deleted != 0 || self.scrollback_pushed != 0
    }

    /// The first buffer line that is shown anew, one-based.
    pub open spec fn first(&self) -> int {
        if self.rebuilds() {
            1
        } else {
            self.first_line as int
        }
    }

    /// The rows that are shown anew.
    pub open spec fn shown(&self) -> Seq<Seq<u8>> {
        if self.rebuilds() {
            crate::text::views(self.all_rows@)
        } else {
            crate::text::views(self.rows@)
        }
    }
}

/// How many of the rows from line `first` on have a line.
pub open spec fn covered(line_count: int, first: int, count: int) -> int {
    crate::splice::larger(crate::splice::smaller(first + count - 1, line_count) + 1 - first, 0)
}

/// The text with `rows` from line `first` on: each replaces its line, and those
/// without one are appended.
pub open spec fn projected(old: Seq<Seq<u8>>, first: int, rows: Seq<Seq<u8>>) -> Seq<Seq<u8>> {
    let count = covered(old.len() as int, first, rows.len() as int);
    let above = crate::splice::smaller(first - 1, old.len() as int);
    old.take(above) + rows.take(count) + old.skip(above + count) + rows.skip(count)
}

/// Copies of the rows from `from` to `to`.
fn rows_between(rows: &Vec<Vec<u8>>, from: usize, to: usize) -> (part: Vec<Vec<u8>>)
    requires
        from <= to <= rows@.len(),
    ensures
        crate::text::views(part@) == crate::text::views(rows@).subrange(from as int, to as int),
{
    let ghost all = crate::text::views(rows@);
    let mut part: Vec<Vec<u8>> = Vec::new();
    let mut next: usize = from;
    assert(crate::text::views(part@) =~= all.subrange(from as int, from as int));
    while next < to
        invariant
            from <= next <= to <= rows@.len(),
            all == crate::text::views(rows@),
            crate::text::views(part@) == all.subrange(from as int, next as int),
        decreases to - next,
    {
        let ghost so_far = crate::text::views(part@);
        part.push(copy_bytes(rows[next].as_slice()));
        assert(crate::text::views(part@) =~= so_far.push(all[next as int]));
        assert(all.subrange(from as int, next + 1) =~= all.subrange(from as int, next as int).push(
            all[next as int],
        ));
        next = next + 1;
    }
    part
}

/// How many edits show the rows: one for those that have lines, and one for
/// those that do not.
pub open spec fn projection_edits(line_count: int, first: int, count: int) -> nat {
    if 0 < covered(line_count, first, count) < count {
        2
    } else {
        1
    }
}

/// Rows were shown from line `first` on, in one undo block.
pub open spec fn projects(
    before: BufferState,
    after: BufferState,
    first: int,
    rows: Seq<Seq<u8>>,
) -> bool {
    let edits = projection_edits(before.rows().len() as int, first, rows.len() as int);
    &&& after.same_but_text(before)
    &&& after.lines is Some
    &&& after.rows() == projected(before.rows(), first, rows)
    &&& after.modified
    &&& after.changedtick == crate::buffer::bumped_by(before.changedtick, edits)
    &&& after.undo_seq == before.edit_seq()
    &&& after.undo_at == before.edit_seq()
    &&& after.undo_open
}

/// Shows rendered rows in a terminal buffer, growing it when there are more
/// rows than lines.
///
/// # Errors
///
/// [`BufferStateError::Unloaded`] when the text is not resident.
pub fn project_terminal_rows(state: &mut BufferState, first_line: usize, rows: &Vec<Vec<u8>>) -> (result:
    Result<(), BufferStateError>)
    requires
        old(state).wf(),
        first_line >= 1,
        rows@.len() > 0,
        first_line + rows@.len() <= usize::MAX,
    ensures
        final(state).wf(),
        old(state).lines is None ==> result == Err::<(), _>(BufferStateError::Unloaded)
            && *final(state) == *old(state),
        old(state).lines is Some ==> result == Ok::<(), BufferStateError>(()) && projects(
            *old(state),
            *final(state),
            first_line as int,
            crate::text::views(rows@),
        ),
{
    let line_count: usize = match state.line_count() {
        Ok(count) => count,
        Err(error) => {
            return Err(error);
        },
    };
    let ghost before = *state;
    let ghost shown = crate::text::views(rows@);
    let total: usize = rows.len();
    let end: usize = min_of(first_line + total - 1, line_count);
    let count: usize = if end >= first_line {
        end - first_line + 1
    } else {
        0
    };
    proof {
        assert(count == covered(before.rows().len() as int, first_line as int, total as int));
        reveal_with_fuel(crate::buffer::bumped_by, 3);
    }
    if count > 0 {
        let part = rows_between(rows, 0, count);
        assert(crate::text::views(part@) =~= shown.take(count as int));
        let _ = state.replace_lines(first_line, first_line + count - 1, &part);
    }
    let ghost middle = *state;
    proof {
        if count > 0 {
            assert(middle.rows() =~= before.rows().take(first_line - 1) + shown.take(count as int)
                + before.rows().skip(first_line - 1 + count));
        }
    }
    if count < total {
        let part = rows_between(rows, count, total);
        assert(crate::text::views(part@) =~= shown.skip(count as int));
        let _ = state.insert_lines(line_count, &part);
        assert(state.rows() =~= middle.rows() + shown.skip(count as int));
    }
    assert(state.rows() =~= projected(before.rows(), first_line as int, shown));
    Ok(())
}

/// A window that follows the emulator's cursor.
pub open spec fn following(
    entry: WindowEntry,
    buffer: BufHandle,
    cursor: Position,
    topline: usize,
) -> WindowEntry {
    if entry.state.buffer == buffer {
        WindowEntry { state: WindowState { cursor, topline, ..entry.state }, ..entry }
    } else {
        entry
    }
}

/// A channel as it is registered.
pub open spec fn idle(info: TerminalChannelInfo, channel: u64, buffer: BufHandle) -> bool {
    &&& info.channel == channel
    &&& info.pty is None
    &&& info.buffer == buffer
    &&& info.replies@.len() == 0
}

impl Editor {
    /// The place of a terminal channel.
    pub open spec fn channel_at(&self, channel: u64, at: int) -> bool {
        &&& 0 <= at < self.terminals@.len()
        &&& self.terminals@[at].channel == channel
        &&& forall|i: int| 0 <= i < at ==> (#[trigger] self.terminals@[i]).channel != channel
    }

    /// There is no such channel.
    pub open spec fn no_channel(&self, channel: u64) -> bool {
        forall|i: int|
            0 <= i < self.terminals@.len() ==> (#[trigger] self.terminals@[i]).channel != channel
    }

    fn find_channel(&self, channel: u64) -> (at: Option<usize>)
        ensures
            match at {
                Some(at) => self.channel_at(channel, at as int),
                None => self.no_channel(channel),
            },
    {
        let mut next: usize = 0;
        while next < self.terminals.len()
            invariant
                next <= self.terminals@.len(),
                forall|i: int|
                    0 <= i < next ==> (#[trigger] self.terminals@[i]).channel != channel,
            decreases self.terminals@.len() - next,
        {
            if self.terminals[next].channel == channel {
                return Some(next);
            }
            next = next + 1;
        }
        None
    }

    /// Looks up a terminal channel.
    #[must_use]
    pub fn terminal_channel(&self, channel: u64) -> (info: Option<&TerminalChannelInfo>)
        ensures
            match info {
                Some(info) => exists|at: int| #[trigger]
                    self.channel_at(channel, at) && *info == self.terminals@[at],
                None => self.no_channel(channel),
            },
    {
        match self.find_channel(channel) {
            Some(at) => {
                assert(self.channel_at(channel, at as int));
                Some(&self.terminals[at])
            },
            None => None,
        }
    }

    /// The ids of all terminal channels, in ascending order.
    #[must_use]
    pub fn terminal_channel_ids(&self) -> (ids: Vec<u64>)
        requires
            self.wf(),
        ensures
            ids@ == self.terminals@.map_values(|info: TerminalChannelInfo| info.channel),
            forall|i: int, j: int| 0 <= i < j < ids@.len() ==> ids@[i] < ids@[j],
    {
        let mut ids: Vec<u64> = Vec::new();
        let mut next: usize = 0;
        while next < self.terminals.len()
            invariant
                next <= self.terminals@.len(),
                ids@.len() == next,
                forall|i: int| 0 <= i < next ==> #[trigger] ids@[i] == self.terminals@[i].channel,
            decreases self.terminals@.len() - next,
        {
            ids.push(self.terminals[next].channel);
            next = next + 1;
        }
        assert(ids@ =~= self.terminals@.map_values(|info: TerminalChannelInfo| info.channel));
        ids
    }

    /// Whether a terminal channel is shown in `buffer`.
    #[must_use]
    pub fn is_terminal_buffer(&self, buffer: BufHandle) -> (owned: bool)
        ensures
            owned == (exists|i: int|
                0 <= i < self.terminals@.len() && (#[trigger] self.terminals@[i]).buffer
                    == buffer),
    {
        let mut next: usize = 0;
        while next < self.terminals.len()
            invariant
                next <= self.terminals@.len(),
                forall|i: int|
                    0 <= i < next ==> (#[trigger] self.terminals@[i]).buffer != buffer,
            decreases self.terminals@.len() - next,
        {
            if self.terminals[next].buffer == buffer {
                return true;
            }
            next = next + 1;
        }
        false
    }

    /// Drops a completed terminal channel, so that its buffer accepts another.
    pub fn close_terminal_channel(&mut self, channel: u64)
        requires
            old(self).wf(),
        ensures
            final(self).wf(),
            *final(self) == (Editor { terminals: final(self).terminals, ..*old(self) }),
            old(self).no_channel(channel) ==> *final(self) == *old(self),
            !old(self).no_channel(channel) ==> exists|at: int| #[trigger]
                old(self).channel_at(channel, at) && final(self).terminals@
                    == old(self).terminals@.remove(at),
    {
        if let Some(at) = self.find_channel(channel) {
            assert(old(self).channel_at(channel, at as int));
            let _ = self.terminals.remove(at);
        }
    }

    /// Records the pseudoterminal of an existing channel.
    pub fn set_terminal_channel_pty(&mut self, channel: u64, pty: Option<String>)
        requires
            old(self).wf(),
        ensures
            final(self).wf(),
            *final(self) == (Editor { terminals: final(self).terminals, ..*old(self) }),
            old(self).no_channel(channel) ==> *final(self) == *old(self),
            !old(self).no_channel(channel) ==> exists|at: int| #[trigger]
                old(self).channel_at(channel, at) && final(self).terminals@
                    == old(self).terminals@.update(
                    at,
                    TerminalChannelInfo { pty, ..old(self).terminals@[at] },
                ),
    {
        if let Some(at) = self.find_channel(channel) {
            assert(old(self).channel_at(channel, at as int));
            self.terminals[at].pty = pty;
        }
    }

    /// Takes the bytes owed to a channel's child.
    pub fn take_terminal_replies(&mut self, channel: u64) -> (replies: Vec<u8>)
        requires
            old(self).wf(),
        ensures
            final(self).wf(),
            *final(self) == (Editor { terminals: final(self).terminals, ..*old(self) }),
            old(self).no_channel(channel) ==> replies@.len() == 0 && *final(self) == *old(self),
            !old(self).no_channel(channel) ==> exists|at: int| #[trigger]
                old(self).channel_at(channel, at) && replies == old(self).terminals@[at].replies
                    && final(self).terminals@[at].replies@.len() == 0 && final(self).terminals@
                    == old(self).terminals@.update(
                    at,
                    TerminalChannelInfo {
                        replies: final(self).terminals@[at].replies,
                        ..old(self).terminals@[at]
                    },
                ),
    {
        let mut replies: Vec<u8> = Vec::new();
        if let Some(at) = self.find_channel(channel) {
            assert(old(self).channel_at(channel, at as int));
            std::mem::swap(&mut replies, &mut self.terminals[at].replies);
        }
        replies
    }

    /// How many rows of scrollback a channel may keep: what its buffer's
    /// `'scrollback'` says, unless that is negative.
    #[must_use]
    pub fn terminal_scrollback_limit(&self, channel: u64) -> (limit: Option<usize>)
        requires
            self.wf(),
        ensures
            match limit {
                Some(limit) => exists|at: int| #[trigger]
                    self.channel_at(channel, at) && self.has_buffer(self.terminals@[at].buffer)
                        && limit == self.buffer_state(
                        self.terminals@[at].buffer,
                    ).options.scrollback,
                None => self.no_channel(channel) || exists|at: int| #[trigger]
                    self.channel_at(channel, at) && (!self.has_buffer(self.terminals@[at].buffer)
                        || !(0 <= self.buffer_state(
                        self.terminals@[at].buffer,
                    ).options.scrollback <= usize::MAX)),
            },
    {
        match self.find_channel(channel) {
            Some(at) => {
                assert(self.channel_at(channel, at as int));
                match self.find_buffer(self.terminals[at].buffer) {
                    Some(b) => {
                        let limit: i64 = self.buffers[b].state.options.scrollback;
                        if limit >= 0 && limit as u64 <= usize::MAX as u64 {
                            Some(limit as usize)
                        } else {
                            None
                        }
                    },
                    None => None,
                }
            },
            None => None,
        }
    }

    /// Registers a channel, in place of one with the same id.
    fn insert_channel(&mut self, channel: u64, buffer: BufHandle)
        requires
            old(self).wf(),
        ensures
            final(self).wf(),
            old(self).registers(final(self), channel, buffer),
    {
        let info = TerminalChannelInfo { channel, pty: None, buffer, replies: Vec::new() };
        match self.find_channel(channel) {
            Some(at) => {
                assert(old(self).channel_at(channel, at as int));
                self.terminals.set(at, info);
            },
            None => {
                let mut at: usize = 0;
                while at < self.terminals.len() && self.terminals[at].channel < channel
                    invariant
                        at <= self.terminals@.len(),
                        forall|i: int|
                            0 <= i < at ==> (#[trigger] self.terminals@[i]).channel < channel,
                    ensures
                        at <= self.terminals@.len(),
                        forall|i: int|
                            0 <= i < at ==> (#[trigger] self.terminals@[i]).channel < channel,
                        at < self.terminals@.len() ==> self.terminals@[at as int].channel
                            >= channel,
                    decreases self.terminals@.len() - at,
                {
                    at = at + 1;
                }
                let ghost before = self.terminals@;
                self.terminals.insert(at, info);
                proof {
                    assert(old(self).takes_place(channel, at as int));
                    assert forall|i: int, j: int|
                        0 <= i < j < self.terminals@.len() implies (
                    #[trigger] self.terminals@[i]).channel < (
                    #[trigger] self.terminals@[j]).channel by {
                        let p = at as int;
                        if j < p {
                            assert(before[j] == self.terminals@[j]);
                        } else if j == p {
                            assert(before[i] == self.terminals@[i]);
                        } else {
                            assert(before[j - 1] == self.terminals@[j]);
                            assert(before[p].channel > channel);
                            assert(before[p].channel <= before[j - 1].channel);
                            if i < p {
                                assert(before[i] == self.terminals@[i]);
                            } else if i > p {
                                assert(before[i - 1] == self.terminals@[i]);
                            }
                        }
                    }
                }
            },
        }
    }

    /// A new channel belongs at `at`: behind those with smaller ids, and before
    /// the first that has none.
    pub open spec fn takes_place(&self, channel: u64, at: int) -> bool {
        &&& 0 <= at <= self.terminals@.len()
        &&& forall|i: int| 0 <= i < at ==> (#[trigger] self.terminals@[i]).channel < channel
        &&& at < self.terminals@.len() ==> self.terminals@[at].channel >= channel
    }

    /// A channel without replies was registered for `buffer`.
    pub open spec fn registers(&self, after: &Editor, channel: u64, buffer: BufHandle) -> bool {
        &&& *after == (Editor { terminals: after.terminals, ..*self })
        &&& if self.no_channel(channel) {
            exists|at: int| #[trigger]
                self.takes_place(channel, at) && after.terminals@ == self.terminals@.insert(
                    at,
                    after.terminals@[at],
                ) && idle(after.terminals@[at], channel, buffer)
        } else {
            exists|at: int| #[trigger]
                self.channel_at(channel, at) && after.terminals@ == self.terminals@.update(
                    at,
                    after.terminals@[at],
                ) && idle(after.terminals@[at], channel, buffer)
        }
    }

    /// Binds a terminal channel of `rows` rows to a buffer: to `attach`, whose
    /// text is replaced, or to a new hidden one. A handle for the current buffer
    /// stays one: the channel is bound to it as it was given.
    ///
    /// # Errors
    ///
    /// Those of [`Editor::locate_buffer`] for `attach`, [`EditorError::Buffer`]
    /// when it is not loaded, or [`EditorError::HandleExhausted`] when the
    /// buffer handles are used up.
    pub fn allocate_terminal_buffer_rows(
        &mut self,
        channel: u64,
        attach: Option<BufHandle>,
        rows: usize,
    ) -> (result: Result<BufHandle, EditorError>)
        requires
            old(self).wf(),
        ensures
            final(self).wf(),
            ({
                let blank = Seq::new(
                    crate::splice::larger(rows as int, 1) as nat,
                    |i: int| Seq::<u8>::empty(),
                );
                match attach {
                    Some(buffer) => match old(self).buffer_request(buffer) {
                        Err(error) => result == Err::<BufHandle, _>(error) && *final(self)
                            == *old(self),
                        Ok(b) => {
                            let entry = old(self).buffers@[b];
                            if entry.state.lines is None {
                                &&& result == Err::<BufHandle, _>(
                                    EditorError::Buffer(BufferStateError::Unloaded),
                                )
                                &&& *final(self) == *old(self)
                            } else {
                                &&& result == Ok::<_, EditorError>(buffer)
                                &&& exists|mid: Editor| #[trigger]
                                    mid.registers(final(self), channel, buffer) && mid.wf()
                                        && old(self).blanks(&mid, b, blank)
                            }
                        },
                    },
                    None => if old(self).next_buffer > i32::MAX {
                        &&& result == Err::<BufHandle, _>(
                            EditorError::HandleExhausted(crate::errors::HandleKind::Buffer),
                        )
                        &&& *final(self) == *old(self)
                    } else {
                        &&& result == Ok::<_, EditorError>(
                            BufHandle(old(self).next_buffer as i32),
                        )
                        &&& exists|mid: Editor| #[trigger]
                            mid.registers(final(self), channel, result->Ok_0) && mid.wf()
                                && old(self).makes_buffer(&mid, result, blank, false)
                    },
                }
            }),
    {
        let count: usize = max_of(rows, 1);
        let lines = blank_lines(count);
        let ghost blank = crate::text::views(lines@);
        match attach {
            Some(buffer) => {
                let b: usize = match self.locate_buffer(buffer) {
                    Ok(b) => b,
                    Err(error) => {
                        return Err(error);
                    },
                };
                let line_count: usize = match self.buffers[b].state.line_count() {
                    Ok(line_count) => line_count,
                    Err(error) => {
                        return Err(EditorError::Buffer(error));
                    },
                };
                assert(self.buffers@[b as int].state.wf());
                let _ = self.buffers[b].state.replace_lines(1, line_count, &lines);
                self.buffers[b].state.modified = false;
                let ghost mid = *self;
                proof {
                    crate::editor::lemma_tables_kept(*old(self), *self);
                    let before = old(self).buffers@[b as int].state;
                    assert(crate::buffer::lines_replaced(
                        before.rows(),
                        1,
                        line_count as int,
                        blank,
                    ) =~= blank);
                    assert(self.buffers@ =~= old(self).buffers@.update(
                        b as int,
                        self.buffers@[b as int],
                    ));
                    assert(old(self).blanks(&mid, b as int, blank));
                }
                self.insert_channel(channel, buffer);
                assert(mid.registers(self, channel, buffer));
                Ok(buffer)
            },
            None => {
                let handle = match self.create_buffer_with(lines, false) {
                    Ok(handle) => handle,
                    Err(error) => {
                        return Err(error);
                    },
                };
                let ghost mid = *self;
                self.insert_channel(channel, handle);
                assert(mid.registers(self, channel, handle));
                Ok(handle)
            },
        }
    }

    /// The text of the buffer at `b` was replaced by `rows` and counts as saved.
    pub open spec fn blanks(&self, after: &Editor, b: int, rows: Seq<Seq<u8>>) -> bool {
        let before = self.buffers@[b].state;
        let state = after.buffers@[b].state;
        &&& after.buffers@ == self.buffers@.update(b, after.buffers@[b])
        &&& after.buffers@[b].handle == self.buffers@[b].handle
        &&& (BufferState { modified: true, ..state }).edited_from(before, rows)
        &&& !state.modified
        &&& *after == (Editor { buffers: after.buffers, ..*self })
    }

    /// Makes the windows that show `buffer` follow the emulator.
    fn follow_terminal(&mut self, buffer: BufHandle, cursor: Position, topline: usize)
        requires
            old(self).wf(),
        ensures
            final(self).wf(),
            final(self).links() == old(self).links(),
            final(self).windows@ == old(self).windows@.map_values(
                |entry: WindowEntry| following(entry, buffer, cursor, topline),
            ),
            *final(self) == (Editor { windows: final(self).windows, ..*old(self) }),
    {
        let mut next: usize = 0;
        while next < self.windows.len()
            invariant
                self.wf(),
                self.links() == old(self).links(),
                next <= self.windows@.len(),
                self.windows@.len() == old(self).windows@.len(),
                *self == (Editor { windows: self.windows, ..*old(self) }),
                forall|i: int|
                    0 <= i < next ==> #[trigger] self.windows@[i] == following(
                        old(self).windows@[i],
                        buffer,
                        cursor,
                        topline,
                    ),
                forall|i: int|
                    next <= i < self.windows@.len() ==> #[trigger] self.windows@[i]
                        == old(self).windows@[i],
            decreases self.windows@.len() - next,
        {
            let ghost before = *self;
            if self.windows[next].state.buffer == buffer {
                self.windows[next].state.cursor = cursor;
                self.windows[next].state.topline = topline;
                proof {
                    assert(before.windows@[next as int].area.text_height >= 1);
                    crate::editor::lemma_tables_kept(before, *self);
                }
            }
            next = next + 1;
        }
        assert(self.windows@ =~= old(self).windows@.map_values(
            |entry: WindowEntry| following(entry, buffer, cursor, topline),
        ));
    }

    /// Binds a terminal channel to a new hidden buffer with one empty line.
    ///
    /// # Errors
    ///
    /// [`EditorError::HandleExhausted`] when the buffer handles are used up.
    pub fn allocate_terminal_buffer(&mut self, channel: u64) -> (result: Result<
        BufHandle,
        EditorError,
    >)
        requires
            old(self).wf(),
        ensures
            final(self).wf(),
            if old(self).next_buffer > i32::MAX {
                &&& result == Err::<BufHandle, _>(
                    EditorError::HandleExhausted(crate::errors::HandleKind::Buffer),
                )
                &&& *final(self) == *old(self)
            } else {
                &&& result == Ok::<_, EditorError>(BufHandle(old(self).next_buffer as i32))
                &&& exists|mid: Editor| #[trigger]
                    mid.registers(final(self), channel, result->Ok_0) && mid.wf()
                        && old(self).makes_buffer(
                        &mid,
                        result,
                        seq![Seq::<u8>::empty()],
                        false,
                    )
            },
    {
        proof {
            assert(Seq::new(1, |i: int| Seq::<u8>::empty()) =~= seq![Seq::<u8>::empty()]);
        }
        self.allocate_terminal_buffer_rows(channel, None, 1)
    }

    /// Bytes owed to the child of the channel at `at` were queued.
    pub open spec fn queues_replies(&self, after: &Editor, at: int, replies: Seq<u8>) -> bool {
        let info = after.terminals@[at];
        &&& after.terminals@ == self.terminals@.update(at, info)
        &&& info == (TerminalChannelInfo { replies: info.replies, ..self.terminals@[at] })
        &&& info.replies@ == self.terminals@[at].replies@ + replies
        &&& *after == (Editor { terminals: after.terminals, ..*self })
    }

    /// Damaged rows were shown in the loaded buffer at `b`.
    pub open spec fn shows_rows(&self, after: &Editor, b: int, damage: TerminalDamage) -> bool {
        let before = self.buffers@[b];
        let entry = after.buffers@[b];
        &&& after.buffers@ == self.buffers@.update(b, entry)
        &&& entry == (BufferEntry { state: entry.state, ..before })
        &&& projects(before.state, entry.state, damage.first(), damage.shown())
        &&& *after == (Editor { buffers: after.buffers, ..*self })
    }

    /// Windows that show `buffer` follow the emulator, except in normal mode,
    /// which keeps the user's place in the scrollback.
    pub open spec fn follows(
        &self,
        after: &Editor,
        buffer: BufHandle,
        snapshot: TerminalSnapshot,
    ) -> bool {
        &&& after.windows@ == if self.edit_mode == BufferEditMode::Normal {
            self.windows@
        } else {
            self.windows@.map_values(
                |entry: WindowEntry|
                    following(entry, buffer, snapshot.cursor(), snapshot.topline()),
            )
        }
        &&& *after == (Editor { windows: after.windows, ..*self })
    }

    /// What [`Editor::append_terminal_buffer`] does for the channel at `at`.
    pub open spec fn renders(
        &self,
        after: &Editor,
        at: int,
        snapshot: TerminalSnapshot,
        result: Result<(), EditorError>,
    ) -> bool {
        let buffer = self.terminals@[at].buffer;
        if !snapshot.shows() {
            &&& result is Ok
            &&& exists|queued: Editor|
                #![trigger self.queues_replies(&queued, at, snapshot.replies@)]
                self.queues_replies(&queued, at, snapshot.replies@) && queued.follows(
                    after,
                    buffer,
                    snapshot,
                )
        } else {
            match self.buffer_request(buffer) {
                Err(error) => {
                    &&& result == Err::<(), _>(error)
                    &&& self.queues_replies(after, at, snapshot.replies@)
                },
                Ok(b) => if self.buffers@[b].state.lines is None {
                    &&& result == Err::<(), _>(EditorError::Buffer(BufferStateError::Unloaded))
                    &&& self.queues_replies(after, at, snapshot.replies@)
                } else {
                    &&& result is Ok
                    &&& exists|queued: Editor, shown: Editor|
                        #![trigger self.queues_replies(&queued, at, snapshot.replies@), shown.follows(after, buffer, snapshot)]
                        {
                            &&& self.queues_replies(&queued, at, snapshot.replies@)
                            &&& queued.shows_rows(&shown, b, snapshot.damage->0)
                            &&& shown.follows(after, buffer, snapshot)
                        }
                },
            }
        }
    }

    /// Shows damaged rows in a terminal's buffer.
    fn show_damage(&mut self, buffer: BufHandle, damage: &TerminalDamage) -> (result: Result<
        (),
        EditorError,
    >)
        requires
            old(self).wf(),
            damage.shown().len() > 0,
            damage.first() >= 1,
            damage.first() + damage.shown().len() <= usize::MAX,
        ensures
            final(self).wf(),
            final(self).links() == old(self).links(),
            match old(self).buffer_request(buffer) {
                Err(error) => result == Err::<(), _>(error) && *final(self) == *old(self),
                Ok(b) => if old(self).buffers@[b].state.lines is None {
                    &&& result == Err::<(), _>(EditorError::Buffer(BufferStateError::Unloaded))
                    &&& *final(self) == *old(self)
                } else {
                    result is Ok && old(self).shows_rows(final(self), b, *damage)
                },
            },
    {
        let b: usize = match self.locate_buffer(buffer) {
            Ok(b) => b,
            Err(error) => {
                return Err(error);
            },
        };
        if self.buffers[b].state.lines.is_none() {
            return Err(EditorError::Buffer(BufferStateError::Unloaded));
        }
        let rebuild: bool = damage.resync || damage.scrollback_deleted != 0
            || damage.scrollback_pushed != 0;
        assert(self.buffers@[b as int].state.wf());
        if rebuild {
            let _ = project_terminal_rows(&mut self.buffers[b].state, 1, &damage.all_rows);
        } else {
            let _ = project_terminal_rows(
                &mut self.buffers[b].state,
                damage.first_line,
                &damage.rows,
            );
        }
        proof {
            crate::editor::lemma_tables_kept(*old(self), *self);
            assert(self.buffers@ =~= old(self).buffers@.update(b as int, self.buffers@[b as int]));
        }
        Ok(())
    }

    /// Takes in what an emulator gave after it was fed: queues its replies,
    /// shows the rows it damaged, and moves the windows that follow it. An
    /// unknown channel is ignored.
    ///
    /// # Errors
    ///
    /// When rows have to be shown, those of [`Editor::locate_buffer`] for the
    /// channel's buffer, or [`EditorError::Buffer`] when it is not loaded.
    pub fn append_terminal_buffer(&mut self, channel: u64, snapshot: &TerminalSnapshot) -> (result:
        Result<(), EditorError>)
        requires
            old(self).wf(),
            snapshot.wf(),
        ensures
            final(self).wf(),
            old(self).no_channel(channel) ==> result is Ok && *final(self) == *old(self),
            !old(self).no_channel(channel) ==> exists|at: int| #[trigger]
                old(self).channel_at(channel, at) && old(self).renders(
                    final(self),
                    at,
                    *snapshot,
                    result,
                ),
    {
        let at: usize = match self.find_channel(channel) {
            Some(at) => at,
            None => {
                return Ok(());
            },
        };
        let buffer = self.terminals[at].buffer;
        push_bytes(&mut self.terminals[at].replies, snapshot.replies.as_slice());
        let ghost queued = *self;
        proof {
            assert(old(self).channel_at(channel, at as int));
            assert(self.terminals@ =~= old(self).terminals@.update(
                at as int,
                self.terminals@[at as int],
            ));
            assert(old(self).queues_replies(&queued, at as int, snapshot.replies@));
        }
        if let Some(damage) = &snapshot.damage {
            let rebuild: bool = damage.resync || damage.scrollback_deleted != 0
                || damage.scrollback_pushed != 0;
            let count: usize = if rebuild {
                damage.all_rows.len()
            } else {
                damage.rows.len()
            };
            if count > 0 {
                if let Err(error) = self.show_damage(buffer, damage) {
                    assert(old(self).renders(self, at as int, *snapshot, Err(error)));
                    return Err(error);
                }
            }
        }
        let ghost shown = *self;
        if self.edit_mode != BufferEditMode::Normal {
            let cursor = Position {
                lnum: min_of(snapshot.cursor_line, snapshot.line_count),
                col: snapshot.cursor_column,
            };
            self.follow_terminal(buffer, cursor, snapshot.scrollback_len.saturating_add(1));
        }
        proof {
            assert(shown.follows(self, buffer, *snapshot));
            assert(old(self).renders(self, at as int, *snapshot, Ok(())));
        }
        Ok(())
    }
}

/// `count` empty lines.
fn blank_lines(count: usize) -> (lines: Vec<Vec<u8>>)
    requires
        count >= 1,
    ensures
        lines@.len() == count,
        crate::text::views(lines@) == Seq::new(count as nat, |i: int| Seq::<u8>::empty()),
{
    let mut lines: Vec<Vec<u8>> = Vec::new();
    while lines.len() < count
        invariant
            lines@.len() <= count,
            forall|i: int| 0 <= i < lines@.len() ==> (#[trigger] lines@[i])@ == Seq::<u8>::empty(),
        decreases count - lines@.len(),
    {
        lines.push(Vec::new());
    }
    assert(crate::text::views(lines@) =~= Seq::new(count as nat, |i: int| Seq::<u8>::empty()));
    lines
}

/// A run of a rendered row that was written with one pen.
#[derive(Clone, Copy, Debug, PartialEq, Eq, Structural)]
pub struct PenSpan {
    /// First byte of the run.
    pub start: usize,
    /// End of the run, exclusive.
    pub end: usize,
    /// Number of the pen; `None` for the default one.
    pub pen: Option<u64>,
}

/// A mark that carries a pen.
#[derive(Clone, Copy, Debug, PartialEq, Eq, Structural)]
pub struct PenMark {
    /// Zero-based row.
    pub row: usize,
    /// First byte of the run.
    pub start: usize,
    /// End of the run, exclusive.
    pub end: usize,
    /// Number of the pen.
    pub pen: u64,
}

/// What a repaint does to the marks of a terminal buffer: those on the rewritten
/// rows go, so that repaints do not pile them up, and new ones are set.
#[derive(Debug, PartialEq, Eq)]
pub struct PenMarks {
    /// First rewritten row, zero-based.
    pub first_row: usize,
    /// The row up to whose end marks go.
    pub last_row: usize,
    /// Marks to set, in order.
    pub marks: Vec<PenMark>,
}

/// The mark of a run on a row, unless it was written with the default pen.
pub open spec fn pen_mark(row: int, span: PenSpan) -> Seq<PenMark> {
    match span.pen {
        Some(pen) => seq![PenMark { row: row as usize, start: span.start, end: span.end, pen }],
        None => Seq::empty(),
    }
}

/// The marks of the runs of one row.
pub open spec fn row_marks(row: int, spans: Seq<PenSpan>) -> Seq<PenMark>
    decreases spans.len(),
{
    if spans.len() == 0 {
        Seq::empty()
    } else {
        row_marks(row, spans.drop_last()) + pen_mark(row, spans.last())
    }
}

/// The marks of rows that are shown from row `first` on.
pub open spec fn all_marks(first: int, rows: Seq<Vec<PenSpan>>) -> Seq<PenMark>
    decreases rows.len(),
{
    if rows.len() == 0 {
        Seq::empty()
    } else {
        all_marks(first, rows.drop_last()) + row_marks(first + rows.len() - 1, rows.last()@)
    }
}

/// Adds the marks of the runs of one row.
fn add_row_marks(marks: &mut Vec<PenMark>, row: usize, spans: &Vec<PenSpan>)
    ensures
        final(marks)@ == old(marks)@ + row_marks(row as int, spans@),
{
    let mut next: usize = 0;
    assert(spans@.take(0) =~= Seq::empty());
    assert(marks@ =~= old(marks)@ + row_marks(row as int, spans@.take(0)));
    while next < spans.len()
        invariant
            next <= spans@.len(),
            marks@ == old(marks)@ + row_marks(row as int, spans@.take(next as int)),
        decreases spans@.len() - next,
    {
        let span = spans[next];
        proof {
            let so_far = spans@.take(next + 1);
            assert(so_far.drop_last() =~= spans@.take(next as int));
            assert(so_far.last() == span);
        }
        if let Some(pen) = span.pen {
            marks.push(PenMark { row, start: span.start, end: span.end, pen });
        }
        assert(marks@ =~= old(marks)@ + row_marks(row as int, spans@.take(next + 1)));
        next = next + 1;
    }
    assert(spans@.take(next as int) =~= spans@);
}

/// The marks of rendered rows that are shown from buffer line `first_line` on:
/// every run that was not written with the default pen gets one.
#[must_use]
pub fn pen_marks(first_line: usize, rows: &Vec<Vec<PenSpan>>) -> (marks: PenMarks)
    requires
        first_line >= 1,
        rows@.len() > 0,
        first_line + rows@.len() <= usize::MAX,
    ensures
        marks.first_row == first_line - 1,
        marks.last_row == first_line + rows@.len() - 1,
        marks.marks@ == all_marks(first_line - 1, rows@),
{
    let mut marks: Vec<PenMark> = Vec::new();
    let mut next: usize = 0;
    assert(rows@.take(0) =~= Seq::empty());
    while next < rows.len()
        invariant
            first_line >= 1,
            first_line + rows@.len() <= usize::MAX,
            next <= rows@.len(),
            marks@ == all_marks(first_line - 1, rows@.take(next as int)),
        decreases rows@.len() - next,
    {
        proof {
            let so_far = rows@.take(next + 1);
            assert(so_far.drop_last() =~= rows@.take(next as int));
            assert(so_far.last() == rows@[next as int]);
        }
        add_row_marks(&mut marks, first_line - 1 + next, &rows[next]);
        next = next + 1;
    }
    assert(rows@.take(next as int) =~= rows@);
    PenMarks { first_row: first_line - 1, last_row: first_line + rows.len() - 1, marks }
}

/// Every mark of a repaint lies on a repainted row, so the next repaint of these
/// rows removes it.
pub proof fn law_marks_are_removed_by_the_next_repaint(
    first_line: int,
    rows: Seq<Vec<PenSpan>>,
    at: int,
)
    requires
        first_line >= 1,
        first_line + rows.len() <= usize::MAX,
        0 <= at < all_marks(first_line - 1, rows).len(),
    ensures
        first_line - 1 <= all_marks(first_line - 1, rows)[at].row < first_line - 1 + rows.len(),
    decreases rows.len(),
{
    let rest = rows.drop_last();
    let above = all_marks(first_line - 1, rest);
    if at < above.len() {
        law_marks_are_removed_by_the_next_repaint(first_line, rest, at);
    } else {
        let row = first_line - 1 + rows.len() - 1;
        lemma_row_marks_are_on_the_row(row, rows.last()@, at - above.len());
    }
}

/// The marks of one row are on it.
proof fn lemma_row_marks_are_on_the_row(row: int, spans: Seq<PenSpan>, at: int)
    requires
        0 <= row <= usize::MAX,
        0 <= at < row_marks(row, spans).len(),
    ensures
        row_marks(row, spans)[at].row == row,
    decreases spans.len(),
{
    let rest = row_marks(row, spans.drop_last());
    if at < rest.len() {
        lemma_row_marks_are_on_the_row(row, spans.drop_last(), at);
    }
}

/// Rows that are shown from a line of the text, or right behind it, are then
/// there; lines above stay.
pub proof fn law_projected_rows_are_shown(text: Seq<Seq<u8>>, first: int, rows: Seq<Seq<u8>>)
    requires
        1 <= first <= text.len() + 1,
    ensures
        projected(text, first, rows).len() >= text.len(),
        projected(text, first, rows).len() >= first - 1 + rows.len(),
        forall|i: int|
            0 <= i < rows.len() ==> #[trigger] projected(text, first, rows)[first - 1 + i]
                == rows[i],
        forall|i: int| 0 <= i < first - 1 ==> #[trigger] projected(text, first, rows)[i] == text[i],
{
    let count = covered(text.len() as int, first, rows.len() as int);
    let after = projected(text, first, rows);
    assert forall|i: int| 0 <= i < rows.len() implies #[trigger] after[first - 1 + i]
        == rows[i] by {
        if i < count {
            assert(after[first - 1 + i] == rows.take(count)[i]);
        } else {
            assert(first - 1 + count == text.len());
        }
    }
}

} // verus!
