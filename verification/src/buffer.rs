//! Buffer state: text as lines of bytes, byte-range edits, residency, and the
//! windows that show it.

use vstd::prelude::*;

use crate::text::{copy_bytes, push_bytes};
use crate::types::{ExtmarkPosition, OxStr, Position, TextExtent, TextSplice};

verus! {

/// Failures of buffer operations.
#[derive(Clone, Copy, Debug, PartialEq, Eq, Structural)]
pub enum BufferStateError {
    /// The buffer's text is not resident.
    Unloaded,
    /// Windows still display the buffer.
    Attached,
    /// A line or byte range lies outside the text or runs backwards.
    InvalidRange,
}

/// Option values local to a buffer.
#[derive(Debug, PartialEq, Eq)]
pub struct BufferOptions {
    /// `'buftype'`.
    pub buftype: String,
    /// `'tabstop'`.
    pub tabstop: i64,
    /// `'scrollback'`.
    pub scrollback: i64,
}

impl Clone for BufferOptions {
    fn clone(&self) -> (copy: Self)
        ensures
            copy == *self,
    {
        BufferOptions {
            buftype: self.buftype.clone(),
            tabstop: self.tabstop,
            scrollback: self.scrollback,
        }
    }
}

/// One request to replace a byte range.
#[derive(Debug, PartialEq, Eq)]
pub struct BufferTextEditRequest {
    /// Where the range starts.
    pub start: ExtmarkPosition,
    /// Where the range ends, exclusive.
    pub end: ExtmarkPosition,
    /// Replacement rows; none is the same as one empty row.
    pub replacement: Vec<Vec<u8>>,
}

/// The rows that a request puts in.
pub open spec fn replacement_rows(request: BufferTextEditRequest) -> Seq<Seq<u8>> {
    if request.replacement@.len() == 0 {
        seq![Seq::empty()]
    } else {
        crate::text::views(request.replacement@)
    }
}

impl BufferTextEditRequest {
    /// Whether the range lies within `lines` and runs forward.
    pub open spec fn within(&self, lines: Seq<Seq<u8>>) -> bool {
        &&& self.start.at_or_before(self.end)
        &&& self.end.row < lines.len()
        &&& self.start.column <= lines[self.start.row as int].len()
        &&& self.end.column <= lines[self.end.row as int].len()
    }

    /// The size of the change.
    pub open spec fn splice(&self) -> TextSplice {
        let rows = replacement_rows(*self);
        TextSplice {
            start: self.start,
            old_extent: TextExtent {
                rows: (self.end.row - self.start.row) as usize,
                columns: if self.end.row == self.start.row {
                    (self.end.column - self.start.column) as usize
                } else {
                    self.end.column
                },
            },
            new_extent: TextExtent {
                rows: (rows.len() - 1) as usize,
                columns: rows.last().len() as usize,
            },
        }
    }

    /// The text with the range replaced.
    pub open spec fn applied(&self, lines: Seq<Seq<u8>>) -> Seq<Seq<u8>> {
        let rows = replacement_rows(*self);
        let head = lines[self.start.row as int].take(self.start.column as int);
        let tail = lines[self.end.row as int].skip(self.end.column as int);
        let middle = if rows.len() == 1 {
            seq![head + rows[0] + tail]
        } else {
            seq![head + rows[0]] + rows.subrange(1, rows.len() - 1) + seq![rows.last() + tail]
        };
        lines.take(self.start.row as int) + middle + lines.skip(self.end.row + 1)
    }

    /// Whether the change keeps the number of lines.
    pub open spec fn keeps_line_count(&self) -> bool {
        self.splice().old_extent.rows == self.splice().new_extent.rows
    }

    /// The size of the change, for a range that runs forward.
    #[must_use]
    pub fn text_splice(&self) -> (splice: TextSplice)
        requires
            self.start.at_or_before(self.end),
        ensures
            splice == self.splice(),
    {
        let new_extent = if self.replacement.len() == 0 {
            TextExtent { rows: 0, columns: 0 }
        } else {
            TextExtent {
                rows: self.replacement.len() - 1,
                columns: self.replacement[self.replacement.len() - 1].len(),
            }
        };
        TextSplice {
            start: self.start,
            old_extent: TextExtent {
                rows: self.end.row - self.start.row,
                columns: if self.end.row == self.start.row {
                    self.end.column - self.start.column
                } else {
                    self.end.column
                },
            },
            new_extent,
        }
    }
}

/// Everything the editor keeps of one buffer.
#[derive(Debug, PartialEq, Eq)]
pub struct BufferState {
    /// File name, empty when there is none.
    pub name: OxStr,
    /// Whether the buffer is in the buffer list.
    pub listed: bool,
    /// Resident text; `None` when unloaded.
    pub lines: Option<Vec<Vec<u8>>>,
    /// Number of windows that display the buffer.
    pub attachments: usize,
    /// Whether the text differs from what was last saved.
    pub modified: bool,
    /// Whether the name was given by hand and the file not read for it.
    pub notedited: bool,
    /// Bumped by every change of the text.
    pub changedtick: u64,
    /// Sequence number of the newest undo block.
    pub undo_seq: u64,
    /// Sequence number of the block whose change the text shows last: the
    /// newest one, unless blocks were undone.
    pub undo_at: u64,
    /// Whether the next edit joins the newest undo block.
    pub undo_open: bool,
    /// Options local to the buffer.
    pub options: BufferOptions,
}

/// The rows of a loaded buffer.
pub open spec fn text_of(lines: Option<Vec<Vec<u8>>>) -> Seq<Seq<u8>> {
    match lines {
        Some(lines) => crate::text::views(lines@),
        None => Seq::empty(),
    }
}

/// A counter's next value; the last one stays.
pub open spec fn bumped(counter: u64) -> u64 {
    if counter == u64::MAX {
        counter
    } else {
        (counter + 1) as u64
    }
}

fn bump(counter: u64) -> (next: u64)
    ensures
        next == bumped(counter),
{
    if counter == u64::MAX {
        counter
    } else {
        counter + 1
    }
}

impl BufferState {
    /// Loaded text has at least one line.
    pub open spec fn wf(&self) -> bool {
        self.lines is Some ==> self.lines->0@.len() > 0
    }

    /// The rows of the text; none when unloaded.
    pub open spec fn rows(&self) -> Seq<Seq<u8>> {
        text_of(self.lines)
    }

    /// Everything but the text and what records its changes is the same.
    pub open spec fn same_but_text(&self, other: BufferState) -> bool {
        &&& self.name == other.name
        &&& self.listed == other.listed
        &&& self.attachments == other.attachments
        &&& self.notedited == other.notedited
        &&& self.options == other.options
    }

    /// The sequence number that an edit made now is recorded under.
    pub open spec fn edit_seq(&self) -> u64 {
        if self.undo_open {
            self.undo_seq
        } else {
            bumped(self.undo_seq)
        }
    }

    /// An edit made `self` of `before`: one tick, one undo block, modified.
    pub open spec fn edited_from(&self, before: BufferState, rows: Seq<Seq<u8>>) -> bool {
        &&& self.same_but_text(before)
        &&& self.lines is Some
        &&& self.rows() == rows
        &&& self.modified
        &&& self.changedtick == bumped(before.changedtick)
        &&& self.undo_seq == before.edit_seq()
        &&& self.undo_at == before.edit_seq()
        &&& self.undo_open
    }

    /// The replay of `blocks` made `self` of `before`: every edit ticked, the
    /// undo tree stands at `reached`, and the next edit starts a new block.
    pub open spec fn replayed_from(
        &self,
        before: BufferState,
        blocks: Seq<Vec<ReplayedEdit>>,
        reached: UndoState,
    ) -> bool {
        &&& self.lines is Some
        &&& self.rows() == blocks_replayed(blocks, before.rows())
        &&& *self == (BufferState {
            lines: self.lines,
            modified: reached.modified,
            changedtick: bumped_by(before.changedtick, edits_in(blocks)),
            undo_at: reached.seq,
            undo_open: false,
            ..before
        })
    }

    /// A buffer as it is made: around `lines`, unnamed, unshown and unchanged.
    pub open spec fn fresh(
        &self,
        lines: Seq<Seq<u8>>,
        listed: bool,
        options: BufferOptions,
    ) -> bool {
        self.fresh_named(Seq::empty(), lines, listed, options)
    }

    /// A buffer as it is made, but for its name.
    pub open spec fn fresh_named(
        &self,
        name: Seq<u8>,
        lines: Seq<Seq<u8>>,
        listed: bool,
        options: BufferOptions,
    ) -> bool {
        &&& self.name@ == name
        &&& self.listed == listed
        &&& self.lines is Some
        &&& self.rows() == lines
        &&& self.attachments == 0
        &&& !self.modified
        &&& !self.notedited
        &&& self.changedtick == 0
        &&& self.undo_seq == 0
        &&& self.undo_at == 0
        &&& !self.undo_open
        &&& self.options == options
    }

    /// A buffer around `lines`.
    #[must_use]
    pub fn new(lines: Vec<Vec<u8>>, listed: bool, options: BufferOptions) -> (state: Self)
        requires
            lines@.len() > 0,
        ensures
            state.wf(),
            state.fresh(crate::text::views(lines@), listed, options),
    {
        BufferState {
            name: OxStr(Vec::new()),
            listed,
            lines: Some(lines),
            attachments: 0,
            modified: false,
            notedited: false,
            changedtick: 0,
            undo_seq: 0,
            undo_at: 0,
            undo_open: false,
            options,
        }
    }

    /// Number of lines of the text.
    ///
    /// # Errors
    ///
    /// [`BufferStateError::Unloaded`] when the text is not resident.
    pub fn line_count(&self) -> (count: Result<usize, BufferStateError>)
        ensures
            match self.lines {
                Some(_) => count is Ok && count->Ok_0 == self.rows().len(),
                None => count == Err::<usize, _>(BufferStateError::Unloaded),
            },
    {
        match &self.lines {
            Some(lines) => Ok(lines.len()),
            None => Err(BufferStateError::Unloaded),
        }
    }

    /// Length of line `lnum`, one-based, if there is such a line.
    #[must_use]
    pub fn line_length(&self, lnum: usize) -> (length: Option<usize>)
        ensures
            length == (if 1 <= lnum <= self.rows().len() {
                Some(self.rows()[lnum - 1].len() as usize)
            } else {
                None
            }),
    {
        match &self.lines {
            Some(lines) => if lnum >= 1 && lnum <= lines.len() {
                Some(lines[lnum - 1].len())
            } else {
                None
            },
            None => None,
        }
    }

    /// Records an edit that was just made.
    fn record_edit(&mut self)
        ensures
            *final(self) == (BufferState {
                modified: true,
                changedtick: bumped(old(self).changedtick),
                undo_seq: old(self).edit_seq(),
                undo_at: old(self).edit_seq(),
                undo_open: true,
                ..*old(self)
            }),
    {
        self.modified = true;
        self.changedtick = bump(self.changedtick);
        if !self.undo_open {
            self.undo_seq = bump(self.undo_seq);
            self.undo_open = true;
        }
        self.undo_at = self.undo_seq;
    }

    /// Closes the open undo block, so the next edit starts a new one.
    pub fn sync_undo(&mut self)
        ensures
            *final(self) == (BufferState { undo_open: false, ..*old(self) }),
    {
        self.undo_open = false;
    }

    /// Replaces the lines from `start` to `end`, one-based and inclusive. Text
    /// that would be left without a line keeps one empty line.
    ///
    /// # Errors
    ///
    /// [`BufferStateError::Unloaded`] when the text is not resident,
    /// [`BufferStateError::InvalidRange`] unless `start` and `end` are lines in
    /// order.
    pub fn replace_lines(&mut self, start: usize, end: usize, lines: &Vec<Vec<u8>>) -> (seq: Result<
        u64,
        BufferStateError,
    >)
        requires
            old(self).wf(),
        ensures
            final(self).wf(),
            old(self).lines is None ==> seq == Err::<u64, _>(BufferStateError::Unloaded)
                && *final(self) == *old(self),
            old(self).lines is Some && !(1 <= start <= end <= old(self).rows().len()) ==> seq
                == Err::<u64, _>(BufferStateError::InvalidRange) && *final(self) == *old(self),
            old(self).lines is Some && 1 <= start <= end <= old(self).rows().len() ==> {
                &&& seq == Ok::<_, BufferStateError>(old(self).edit_seq())
                &&& final(self).edited_from(
                    *old(self),
                    lines_replaced(
                        old(self).rows(),
                        start as int,
                        end as int,
                        crate::text::views(lines@),
                    ),
                )
            },
    {
        let count: usize = match &self.lines {
            Some(text) => text.len(),
            None => {
                return Err(BufferStateError::Unloaded);
            },
        };
        if start < 1 || start > end || end > count {
            return Err(BufferStateError::InvalidRange);
        }
        if let Some(text) = self.lines.take() {
            self.lines = Some(with_rows(text, start, end, lines));
        }
        self.record_edit();
        Ok(self.undo_seq)
    }

    /// Inserts lines behind line `after`, zero for the top.
    ///
    /// # Errors
    ///
    /// [`BufferStateError::Unloaded`] when the text is not resident,
    /// [`BufferStateError::InvalidRange`] when there is no line `after`.
    pub fn insert_lines(&mut self, after: usize, lines: &Vec<Vec<u8>>) -> (seq: Result<
        u64,
        BufferStateError,
    >)
        requires
            old(self).wf(),
        ensures
            final(self).wf(),
            old(self).lines is None ==> seq == Err::<u64, _>(BufferStateError::Unloaded)
                && *final(self) == *old(self),
            old(self).lines is Some && after > old(self).rows().len() ==> seq == Err::<u64, _>(
                BufferStateError::InvalidRange,
            ) && *final(self) == *old(self),
            old(self).lines is Some && after <= old(self).rows().len() ==> {
                &&& seq == Ok::<_, BufferStateError>(old(self).edit_seq())
                &&& final(self).edited_from(
                    *old(self),
                    lines_inserted(old(self).rows(), after as int, crate::text::views(lines@)),
                )
            },
    {
        let count: usize = match &self.lines {
            Some(text) => text.len(),
            None => {
                return Err(BufferStateError::Unloaded);
            },
        };
        if after > count {
            return Err(BufferStateError::InvalidRange);
        }
        let ghost before = self.rows();
        if let Some(mut text) = self.lines.take() {
            let mut tail = text.split_off(after);
            let ghost head = crate::text::views(text@);
            assert(head =~= before.take(after as int));
            assert(crate::text::views(tail@) =~= before.skip(after as int));
            push_rows(&mut text, lines);
            let ghost joined = crate::text::views(text@);
            let ghost rest = crate::text::views(tail@);
            text.append(&mut tail);
            assert(crate::text::views(text@) =~= joined + rest);
            self.lines = Some(text);
        }
        self.record_edit();
        Ok(self.undo_seq)
    }

    /// Whether a byte-range edit fits the text.
    ///
    /// # Errors
    ///
    /// [`BufferStateError::Unloaded`] when the text is not resident,
    /// [`BufferStateError::InvalidRange`] unless the range lies within it.
    pub fn prepare_buffer_text_edit(&self, request: &BufferTextEditRequest) -> (result: Result<
        TextSplice,
        BufferStateError,
    >)
        ensures
            result == (if self.lines is None {
                Err(BufferStateError::Unloaded)
            } else if !request.within(self.rows()) {
                Err(BufferStateError::InvalidRange)
            } else {
                Ok(request.splice())
            }),
    {
        let lines = match &self.lines {
            Some(lines) => lines,
            None => {
                return Err(BufferStateError::Unloaded);
            },
        };
        let forward: bool = request.start.row < request.end.row || (request.start.row
            == request.end.row && request.start.column <= request.end.column);
        if !forward || request.end.row >= lines.len() || request.start.column
            > lines[request.start.row].len() || request.end.column > lines[request.end.row].len() {
            return Err(BufferStateError::InvalidRange);
        }
        Ok(request.text_splice())
    }

    /// Makes a byte-range edit.
    ///
    /// # Errors
    ///
    /// Those of [`BufferState::prepare_buffer_text_edit`].
    pub fn commit_buffer_text_edit(&mut self, request: &BufferTextEditRequest) -> (result: Result<
        u64,
        BufferStateError,
    >)
        requires
            old(self).wf(),
        ensures
            final(self).wf(),
            old(self).lines is None ==> result == Err::<u64, _>(BufferStateError::Unloaded)
                && *final(self) == *old(self),
            old(self).lines is Some && !request.within(old(self).rows()) ==> result == Err::<
                u64,
                _,
            >(BufferStateError::InvalidRange) && *final(self) == *old(self),
            old(self).lines is Some && request.within(old(self).rows()) ==> {
                &&& result == Ok::<_, BufferStateError>(old(self).edit_seq())
                &&& final(self).edited_from(*old(self), request.applied(old(self).rows()))
            },
    {
        match self.prepare_buffer_text_edit(request) {
            Ok(_) => {},
            Err(error) => {
                return Err(error);
            },
        }
        self.apply_request(request);
        self.record_edit();
        Ok(self.undo_seq)
    }

    /// Puts a prepared edit into the text.
    fn apply_request(&mut self, request: &BufferTextEditRequest)
        requires
            old(self).wf(),
            old(self).lines is Some,
            request.within(old(self).rows()),
        ensures
            final(self).lines is Some,
            final(self).lines->0@.len() > 0,
            *final(self) == (BufferState { lines: final(self).lines, ..*old(self) }),
            final(self).rows() == request.applied(old(self).rows()),
    {
        let ghost before = self.rows();
        let ghost rows = replacement_rows(*request);
        if let Some(mut text) = self.lines.take() {
            let start = request.start;
            let end = request.end;
            let tail_row = copy_bytes(
                vstd::slice::slice_subrange(
                    text[end.row].as_slice(),
                    end.column,
                    text[end.row].len(),
                ),
            );
            let ghost tail_bytes = before[end.row as int].skip(end.column as int);
            assert(tail_row@ =~= tail_bytes);
            let mut row = copy_bytes(
                vstd::slice::slice_subrange(text[start.row].as_slice(), 0, start.column),
            );
            let ghost head_bytes = before[start.row as int].take(start.column as int);
            assert(row@ =~= head_bytes);
            assert(end.row < text.len());
            let mut below = text.split_off(end.row + 1);
            assert(crate::text::views(below@) =~= before.skip(end.row + 1));
            text.truncate(start.row);
            let ghost above = before.take(start.row as int);
            assert(crate::text::views(text@) =~= above);
            let count: usize = request.replacement.len();
            if count > 0 {
                push_bytes(&mut row, request.replacement[0].as_slice());
            }
            assert(row@ =~= head_bytes + rows[0]);
            if count > 1 {
                let ghost first = row@;
                text.push(row);
                assert(crate::text::views(text@) =~= above + seq![first]);
                let mut next: usize = 1;
                while next < count - 1
                    invariant
                        count == request.replacement@.len(),
                        1 <= next <= count - 1,
                        rows == crate::text::views(request.replacement@),
                        crate::text::views(text@) == above + seq![first] + rows.subrange(
                            1,
                            next as int,
                        ),
                    decreases count - next,
                {
                    let ghost so_far = crate::text::views(text@);
                    let copy = copy_bytes(request.replacement[next].as_slice());
                    text.push(copy);
                    assert(crate::text::views(text@) =~= so_far.push(rows[next as int]));
                    assert(rows.subrange(1, next + 1) =~= rows.subrange(1, next as int).push(
                        rows[next as int],
                    ));
                    next = next + 1;
                }
                row = copy_bytes(request.replacement[count - 1].as_slice());
            }
            let ghost so_far = crate::text::views(text@);
            push_bytes(&mut row, tail_row.as_slice());
            let ghost last = row@;
            text.push(row);
            assert(crate::text::views(text@) =~= so_far.push(last));
            let ghost joined = crate::text::views(text@);
            let ghost rest = crate::text::views(below@);
            text.append(&mut below);
            assert(crate::text::views(text@) =~= joined + rest);
            proof {
                let middle = if rows.len() == 1 {
                    seq![head_bytes + rows[0] + tail_bytes]
                } else {
                    seq![head_bytes + rows[0]] + rows.subrange(1, rows.len() - 1) + seq![
                        rows.last() + tail_bytes,
                    ]
                };
                if rows.len() == 1 {
                    assert(last =~= head_bytes + rows[0] + tail_bytes);
                    assert(joined =~= above + middle);
                } else {
                    assert(last =~= rows.last() + tail_bytes);
                    assert(joined =~= above + middle);
                }
            }
            self.lines = Some(text);
        }
    }

    /// Makes text resident.
    pub fn load(&mut self, lines: Vec<Vec<u8>>)
        requires
            lines@.len() > 0,
        ensures
            final(self).wf(),
            *final(self) == (BufferState { lines: Some(lines), ..*old(self) }),
    {
        self.lines = Some(lines);
    }

    /// Counts one more window.
    ///
    /// # Errors
    ///
    /// [`BufferStateError::Unloaded`] when the text is not resident.
    pub fn attach(&mut self) -> (result: Result<(), BufferStateError>)
        requires
            old(self).attachments < usize::MAX,
        ensures
            old(self).lines is None ==> result == Err::<(), _>(BufferStateError::Unloaded)
                && *final(self) == *old(self),
            old(self).lines is Some ==> result == Ok::<(), BufferStateError>(()) && *final(self)
                == (BufferState { attachments: (old(self).attachments + 1) as usize, ..*old(self) }),
    {
        if self.lines.is_none() {
            return Err(BufferStateError::Unloaded);
        }
        self.attachments = self.attachments + 1;
        Ok(())
    }

    /// Counts one window less; the last one may release the text.
    pub fn detach(&mut self, keep_loaded: bool)
        requires
            old(self).attachments > 0,
        ensures
            old(self).wf() ==> final(self).wf(),
            *final(self) == (if old(self).attachments == 1 && !keep_loaded {
                BufferState { attachments: 0, lines: None, ..*old(self) }
            } else {
                BufferState { attachments: (old(self).attachments - 1) as usize, ..*old(self) }
            }),
    {
        self.attachments = self.attachments - 1;
        if self.attachments == 0 && !keep_loaded {
            self.lines = None;
        }
    }

    /// Releases the text.
    ///
    /// # Errors
    ///
    /// [`BufferStateError::Attached`] while windows display the buffer.
    pub fn unload(&mut self) -> (result: Result<(), BufferStateError>)
        ensures
            old(self).attachments > 0 ==> result == Err::<(), _>(BufferStateError::Attached)
                && *final(self) == *old(self),
            old(self).attachments == 0 ==> result == Ok::<(), BufferStateError>(())
                && *final(self) == (BufferState { lines: None, ..*old(self) }),
    {
        if self.attachments > 0 {
            return Err(BufferStateError::Attached);
        }
        self.lines = None;
        Ok(())
    }
}

/// The text with the lines from `start` to `end`, one-based and inclusive,
/// replaced.
pub open spec fn lines_replaced(
    rows: Seq<Seq<u8>>,
    start: int,
    end: int,
    lines: Seq<Seq<u8>>,
) -> Seq<Seq<u8>> {
    let text = rows.take(start - 1) + lines + rows.skip(end);
    if text.len() == 0 {
        seq![Seq::empty()]
    } else {
        text
    }
}

/// The text with lines inserted behind line `after`.
pub open spec fn lines_inserted(
    rows: Seq<Seq<u8>>,
    after: int,
    lines: Seq<Seq<u8>>,
) -> Seq<Seq<u8>> {
    rows.take(after) + lines + rows.skip(after)
}

/// Text with the lines from `start` to `end` replaced; none of them when `end`
/// lies before `start`.
fn with_rows(text: Vec<Vec<u8>>, start: usize, end: usize, lines: &Vec<Vec<u8>>) -> (after: Vec<
    Vec<u8>,
>)
    requires
        1 <= start <= end + 1,
        end <= text@.len(),
    ensures
        after@.len() > 0,
        crate::text::views(after@) == lines_replaced(
            crate::text::views(text@),
            start as int,
            end as int,
            crate::text::views(lines@),
        ),
{
    let ghost before = crate::text::views(text@);
    let mut text = text;
    let mut tail = text.split_off(end);
    text.truncate(start - 1);
    let ghost head = crate::text::views(text@);
    assert(head =~= before.take(start - 1));
    assert(crate::text::views(tail@) =~= before.skip(end as int));
    push_rows(&mut text, lines);
    let ghost joined = crate::text::views(text@);
    let ghost rest = crate::text::views(tail@);
    text.append(&mut tail);
    assert(crate::text::views(text@) =~= joined + rest);
    if text.len() == 0 {
        text.push(Vec::new());
        assert(crate::text::views(text@) =~= seq![Seq::empty()]);
    }
    text
}

/// Text after one undo block was replayed on it, and the ticks then; nothing
/// when an edit replaces lines that are not there.
fn replay_block(text: Vec<Vec<u8>>, edits: &Vec<ReplayedEdit>, ticks: u64) -> (replayed: Option<
    (Vec<Vec<u8>>, u64),
>)
    requires
        text@.len() > 0,
    ensures
        replayed is Some == block_fits(edits@, crate::text::views(text@)),
        replayed is Some ==> {
            &&& (replayed->0).0@.len() > 0
            &&& crate::text::views((replayed->0).0@) == block_replayed(
                edits@,
                crate::text::views(text@),
            )
            &&& (replayed->0).1 == bumped_by(ticks, edits@.len())
        },
{
    let ghost rows = crate::text::views(text@);
    let mut after = text;
    let mut ticked: u64 = ticks;
    let mut next: usize = 0;
    while next < edits.len()
        invariant
            next <= edits@.len(),
            rows == crate::text::views(text@),
            after@.len() > 0,
            crate::text::views(after@) == block_replayed(edits@.take(next as int), rows),
            block_fits(edits@.take(next as int), rows),
            ticked == bumped_by(ticks, next as nat),
        decreases edits@.len() - next,
    {
        let ghost so_far = edits@.take(next + 1);
        assert(so_far.drop_last() =~= edits@.take(next as int));
        assert(so_far.last() == edits@[next as int]);
        let start: usize = edits[next].start;
        let count: usize = edits[next].old_count;
        if start < 1 || start - 1 > after.len() || count > after.len() - (start - 1) {
            proof {
                if block_fits(edits@, rows) {
                    lemma_block_prefix_fits(edits@, rows, next + 1);
                }
            }
            return None;
        }
        let end: usize = start - 1 + count;
        after = with_rows(after, start, end, &edits[next].lines);
        ticked = bump(ticked);
        next = next + 1;
    }
    assert(edits@.take(next as int) =~= edits@);
    Some((after, ticked))
}

/// Appends copies of `lines`.
fn push_rows(text: &mut Vec<Vec<u8>>, lines: &Vec<Vec<u8>>)
    ensures
        crate::text::views(final(text)@) == crate::text::views(old(text)@) + crate::text::views(
            lines@,
        ),
{
    let ghost before = crate::text::views(text@);
    let ghost rows = crate::text::views(lines@);
    let mut next: usize = 0;
    assert(before + rows.take(0) =~= before);
    while next < lines.len()
        invariant
            next <= lines@.len(),
            rows == crate::text::views(lines@),
            crate::text::views(text@) == before + rows.take(next as int),
        decreases lines@.len() - next,
    {
        let ghost so_far = crate::text::views(text@);
        let copy = copy_bytes(lines[next].as_slice());
        text.push(copy);
        assert(crate::text::views(text@) =~= so_far.push(rows[next as int]));
        assert(rows.take(next + 1) =~= rows.take(next as int).push(rows[next as int]));
        next = next + 1;
    }
    assert(rows.take(next as int) =~= rows);
}

/// Requests that each stay on one row, in the order of their rows.
pub open spec fn ascending(requests: Seq<BufferTextEditRequest>) -> bool {
    &&& forall|i: int|
        0 <= i < requests.len() ==> (#[trigger] requests[i]).start.row == requests[i].end.row
    &&& forall|i: int, j: int|
        0 <= i < j < requests.len() ==> (#[trigger] requests[i]).start.row < (
        #[trigger] requests[j]).start.row
}

/// Every request fits the text.
pub open spec fn all_within(requests: Seq<BufferTextEditRequest>, rows: Seq<Seq<u8>>) -> bool {
    forall|i: int| 0 <= i < requests.len() ==> (#[trigger] requests[i]).within(rows)
}

/// The text after all requests, each made where it was asked for: from the last
/// to the first, so that none moves another.
pub open spec fn all_applied(
    requests: Seq<BufferTextEditRequest>,
    rows: Seq<Seq<u8>>,
) -> Seq<Seq<u8>>
    decreases requests.len(),
{
    if requests.len() == 0 {
        rows
    } else {
        all_applied(requests.drop_last(), requests.last().applied(rows))
    }
}

/// The text after edits made first to last, each against the text that the one
/// before it left.
pub open spec fn each_applied(
    requests: Seq<BufferTextEditRequest>,
    rows: Seq<Seq<u8>>,
) -> Seq<Seq<u8>>
    decreases requests.len(),
{
    if requests.len() == 0 {
        rows
    } else {
        requests.last().applied(each_applied(requests.drop_last(), rows))
    }
}

/// How many edits can be made first to last before one does not lie within the
/// text that those before it left.
pub open spec fn fitting(requests: Seq<BufferTextEditRequest>, rows: Seq<Seq<u8>>) -> nat
    decreases requests.len(),
{
    if requests.len() == 0 {
        0
    } else {
        let before = requests.drop_last();
        if fitting(before, rows) == before.len() && requests.last().within(
            each_applied(before, rows),
        ) {
            requests.len()
        } else {
            fitting(before, rows)
        }
    }
}

/// The edits stop at the first that does not lie within the text.
proof fn lemma_fitting_stops(
    requests: Seq<BufferTextEditRequest>,
    rows: Seq<Seq<u8>>,
    count: int,
)
    requires
        0 <= count < requests.len(),
        fitting(requests.take(count + 1), rows) == count,
    ensures
        fitting(requests, rows) == count,
    decreases requests.len(),
{
    if count + 1 == requests.len() {
        assert(requests.take(count + 1) =~= requests);
    } else {
        let before = requests.drop_last();
        assert(before.take(count + 1) =~= requests.take(count + 1));
        lemma_fitting_stops(before, rows, count);
    }
}

/// No request changes how many lines there are.
pub open spec fn line_preserving(requests: Seq<BufferTextEditRequest>) -> bool {
    forall|i: int| 0 <= i < requests.len() ==> (#[trigger] requests[i]).keeps_line_count()
}

/// A counter bumped `times` times.
pub open spec fn bumped_by(counter: u64, times: nat) -> u64
    decreases times,
{
    if times == 0 {
        counter
    } else {
        bumped(bumped_by(counter, (times - 1) as nat))
    }
}

/// One edit of a replayed undo block.
#[derive(Debug, PartialEq, Eq)]
pub struct ReplayedEdit {
    /// Sequence number of the block that the edit belongs to.
    pub seq: u64,
    /// First replaced line, one-based.
    pub start: usize,
    /// How many lines are replaced.
    pub old_count: usize,
    /// The lines that replace them.
    pub lines: Vec<Vec<u8>>,
    /// Where the edit leaves the cursor.
    pub cursor: Position,
}

impl ReplayedEdit {
    /// The replaced lines are lines of `rows`.
    pub open spec fn within(&self, rows: Seq<Seq<u8>>) -> bool {
        1 <= self.start && self.start - 1 + self.old_count <= rows.len()
    }

    /// The text after the edit.
    pub open spec fn applied(&self, rows: Seq<Seq<u8>>) -> Seq<Seq<u8>> {
        lines_replaced(
            rows,
            self.start as int,
            self.start - 1 + self.old_count,
            crate::text::views(self.lines@),
        )
    }
}

/// Where a buffer's undo tree stands.
#[derive(Clone, Copy, Debug, PartialEq, Eq, Structural)]
pub struct UndoState {
    /// Sequence number of the block whose change the text shows last.
    pub seq: u64,
    /// Whether the text then differs from what was last saved.
    pub modified: bool,
}

/// Replaying the replaced lines in place of the lines that an edit put in takes
/// the edit back, unless the edit left no line at all.
pub proof fn law_inverse_edit_restores_text(
    edit: ReplayedEdit,
    inverse: ReplayedEdit,
    rows: Seq<Seq<u8>>,
)
    requires
        edit.within(rows),
        edit.lines@.len() > 0 || edit.old_count < rows.len(),
        rows.len() > 0,
        inverse.start == edit.start,
        inverse.old_count == edit.lines@.len(),
        crate::text::views(inverse.lines@) == rows.subrange(
            edit.start - 1,
            edit.start - 1 + edit.old_count,
        ),
    ensures
        inverse.within(edit.applied(rows)),
        inverse.applied(edit.applied(rows)) == rows,
{
    let end = edit.start - 1 + edit.old_count;
    let lines = crate::text::views(edit.lines@);
    let after = rows.take(edit.start - 1) + lines + rows.skip(end);
    assert(after.len() > 0);
    assert(after.take(edit.start - 1) =~= rows.take(edit.start - 1));
    assert(after.skip(edit.start - 1 + edit.lines@.len()) =~= rows.skip(end));
    assert(rows.take(edit.start - 1) + rows.subrange(edit.start - 1, end) + rows.skip(end)
        =~= rows);
}

/// The text after the edits of a block are replayed, first to last.
pub open spec fn block_replayed(edits: Seq<ReplayedEdit>, rows: Seq<Seq<u8>>) -> Seq<Seq<u8>>
    decreases edits.len(),
{
    if edits.len() == 0 {
        rows
    } else {
        edits.last().applied(block_replayed(edits.drop_last(), rows))
    }
}

/// Every edit of a block replaces lines that are there at its turn.
pub open spec fn block_fits(edits: Seq<ReplayedEdit>, rows: Seq<Seq<u8>>) -> bool
    decreases edits.len(),
{
    edits.len() > 0 ==> block_fits(edits.drop_last(), rows) && edits.last().within(
        block_replayed(edits.drop_last(), rows),
    )
}

/// The text after blocks are replayed, first to last.
pub open spec fn blocks_replayed(
    blocks: Seq<Vec<ReplayedEdit>>,
    rows: Seq<Seq<u8>>,
) -> Seq<Seq<u8>>
    decreases blocks.len(),
{
    if blocks.len() == 0 {
        rows
    } else {
        block_replayed(blocks.last()@, blocks_replayed(blocks.drop_last(), rows))
    }
}

/// Every edit of every block replaces lines that are there at its turn.
pub open spec fn blocks_fit(blocks: Seq<Vec<ReplayedEdit>>, rows: Seq<Seq<u8>>) -> bool
    decreases blocks.len(),
{
    blocks.len() > 0 ==> blocks_fit(blocks.drop_last(), rows) && block_fits(
        blocks.last()@,
        blocks_replayed(blocks.drop_last(), rows),
    )
}

/// A block does not fit when its first edits do not.
proof fn lemma_block_prefix_fits(edits: Seq<ReplayedEdit>, rows: Seq<Seq<u8>>, count: int)
    requires
        0 <= count <= edits.len(),
        block_fits(edits, rows),
    ensures
        block_fits(edits.take(count), rows),
    decreases edits.len(),
{
    if count == edits.len() {
        assert(edits.take(count) =~= edits);
    } else {
        lemma_block_prefix_fits(edits.drop_last(), rows, count);
        assert(edits.drop_last().take(count) =~= edits.take(count));
    }
}

/// Blocks do not fit when the first of them do not.
proof fn lemma_blocks_prefix_fit(blocks: Seq<Vec<ReplayedEdit>>, rows: Seq<Seq<u8>>, count: int)
    requires
        0 <= count <= blocks.len(),
        blocks_fit(blocks, rows),
    ensures
        blocks_fit(blocks.take(count), rows),
    decreases blocks.len(),
{
    if count == blocks.len() {
        assert(blocks.take(count) =~= blocks);
    } else {
        lemma_blocks_prefix_fit(blocks.drop_last(), rows, count);
        assert(blocks.drop_last().take(count) =~= blocks.take(count));
    }
}

/// How many edits the blocks hold.
pub open spec fn edits_in(blocks: Seq<Vec<ReplayedEdit>>) -> nat
    decreases blocks.len(),
{
    if blocks.len() == 0 {
        0
    } else {
        edits_in(blocks.drop_last()) + blocks.last()@.len()
    }
}

/// Ticks add up.
proof fn lemma_bumped_again(counter: u64, times: nat, more: nat)
    ensures
        bumped_by(bumped_by(counter, times), more) == bumped_by(counter, times + more),
    decreases more,
{
    if more > 0 {
        lemma_bumped_again(counter, times, (more - 1) as nat);
    }
}

/// An edit leaves the rows above it, and more than they.
pub proof fn lemma_rows_above(request: BufferTextEditRequest, rows: Seq<Seq<u8>>)
    requires
        request.within(rows),
    ensures
        request.applied(rows).len() == rows.len() - (request.end.row - request.start.row)
            + replacement_rows(request).len() - 1,
        request.applied(rows).len() > request.start.row,
        forall|i: int|
            0 <= i < request.start.row ==> #[trigger] request.applied(rows)[i] == rows[i],
{
}

/// Requests above an edit still fit afterwards.
pub proof fn lemma_still_within(requests: Seq<BufferTextEditRequest>, rows: Seq<Seq<u8>>)
    requires
        requests.len() > 0,
        ascending(requests),
        all_within(requests, rows),
    ensures
        ascending(requests.drop_last()),
        all_within(requests.drop_last(), requests.last().applied(rows)),
{
    let rest = requests.drop_last();
    let last = requests.last();
    lemma_rows_above(last, rows);
    assert forall|i: int| 0 <= i < rest.len() implies (#[trigger] rest[i]).within(
        last.applied(rows),
    ) by {
        assert(rest[i] == requests[i]);
        assert(requests[i].within(rows));
        assert(requests[i].start.row < requests[requests.len() - 1].start.row);
    }
}

/// The size of an edit that was made can be written down.
pub proof fn lemma_edit_fits(
    request: BufferTextEditRequest,
    before: BufferState,
    after: BufferState,
)
    requires
        before.lines is Some,
        after.lines is Some,
        request.within(before.rows()),
        after.rows() == request.applied(before.rows()),
    ensures
        request.splice().fits(),
{
    let rows = replacement_rows(request);
    let old_rows = before.rows();
    let new_rows = after.rows();
    lemma_rows_above(request, old_rows);
    let lines = after.lines->0;
    assert(new_rows.len() == lines@.len());
    assert(lines.len() <= usize::MAX);
    let old_lines = before.lines->0;
    assert(old_rows.len() == old_lines@.len());
    assert(old_lines.len() <= usize::MAX);
    let end_line = old_lines@[request.end.row as int];
    assert(end_line@ == old_rows[request.end.row as int]);
    assert(end_line.len() <= usize::MAX);
    let r = request.start.row as int;
    let merged = lines@[r];
    assert(merged@ == new_rows[r]);
    assert(merged.len() <= usize::MAX);
    let head = old_rows[r].take(request.start.column as int);
    let tail = old_rows[request.end.row as int].skip(request.end.column as int);
    if rows.len() == 1 {
        assert(new_rows[r] =~= head + rows[0] + tail);
    }
    if request.replacement@.len() > 0 {
        let count = request.replacement@.len() as int;
        let last = request.replacement@[count - 1];
        assert(rows.last() == last@);
        assert(last.len() <= usize::MAX);
        assert(request.replacement.len() <= usize::MAX);
    }
}

impl BufferState {
    /// Checks every request against the text.
    ///
    /// # Errors
    ///
    /// Those of [`BufferState::prepare_buffer_text_edit`] for the first request
    /// that does not fit.
    pub fn prepare_all(&self, requests: &Vec<BufferTextEditRequest>) -> (result: Result<
        Vec<TextSplice>,
        BufferStateError,
    >)
        ensures
            if requests@.len() > 0 && self.lines is None {
                result == Err::<Vec<TextSplice>, _>(BufferStateError::Unloaded)
            } else if !all_within(requests@, self.rows()) {
                result == Err::<Vec<TextSplice>, _>(BufferStateError::InvalidRange)
            } else {
                &&& result is Ok
                &&& result->Ok_0@ == splices_of(requests@)
            },
    {
        let mut splices: Vec<TextSplice> = Vec::new();
        let mut next: usize = 0;
        assert(splices@ =~= splices_of(requests@.take(0)));
        while next < requests.len()
            invariant
                next <= requests@.len(),
                next > 0 ==> self.lines is Some,
                splices@ == splices_of(requests@.take(next as int)),
                forall|i: int|
                    0 <= i < next ==> (#[trigger] requests@[i]).within(self.rows()),
            decreases requests@.len() - next,
        {
            match self.prepare_buffer_text_edit(&requests[next]) {
                Ok(splice) => {
                    splices.push(splice);
                },
                Err(error) => {
                    return Err(error);
                },
            }
            assert(requests@.take(next + 1) =~= requests@.take(next as int).push(
                requests@[next as int],
            ));
            next = next + 1;
            assert(splices@ =~= splices_of(requests@.take(next as int)));
        }
        assert(requests@.take(next as int) =~= requests@);
        Ok(splices)
    }

    /// Makes several edits as one: one tick and one undo entry. No edit changes
    /// how many lines there are, so none moves another.
    pub fn commit_line_preserving_batch(&mut self, requests: &Vec<BufferTextEditRequest>) -> (seq:
        u64)
        requires
            old(self).wf(),
            old(self).lines is Some,
            requests@.len() > 0,
            ascending(requests@),
            all_within(requests@, old(self).rows()),
        ensures
            final(self).wf(),
            seq == old(self).edit_seq(),
            final(self).edited_from(*old(self), all_applied(requests@, old(self).rows())),
            forall|i: int|
                0 <= i < requests@.len() ==> (#[trigger] requests@[i]).splice().fits(),
    {
        let mut count: usize = requests.len();
        assert(requests@.take(count as int) =~= requests@);
        while count > 0
            invariant
                self.wf(),
                self.lines is Some,
                count <= requests@.len(),
                ascending(requests@.take(count as int)),
                all_within(requests@.take(count as int), self.rows()),
                all_applied(requests@.take(count as int), self.rows()) == all_applied(
                    requests@,
                    old(self).rows(),
                ),
                *self == (BufferState { lines: self.lines, ..*old(self) }),
                forall|i: int|
                    count <= i < requests@.len() ==> (#[trigger] requests@[i]).splice().fits(),
            decreases count,
        {
            let ghost rest = requests@.take(count as int);
            let ghost before = *self;
            assert(rest.last() == requests@[count - 1]);
            assert(rest[count - 1].within(self.rows()));
            proof {
                lemma_still_within(rest, self.rows());
                assert(rest.drop_last() =~= requests@.take(count - 1));
            }
            self.apply_request(&requests[count - 1]);
            proof {
                lemma_edit_fits(requests@[count - 1], before, *self);
            }
            count = count - 1;
        }
        self.record_edit();
        self.undo_seq
    }

    /// Makes several edits bottom-up, each with a tick of its own; they join one
    /// undo block.
    pub fn commit_structural_batch(&mut self, requests: &Vec<BufferTextEditRequest>) -> (seq: u64)
        requires
            old(self).wf(),
            old(self).lines is Some,
            requests@.len() > 0,
            ascending(requests@),
            all_within(requests@, old(self).rows()),
        ensures
            final(self).wf(),
            seq == old(self).edit_seq(),
            final(self).same_but_text(*old(self)),
            final(self).lines is Some,
            final(self).rows() == all_applied(requests@, old(self).rows()),
            final(self).modified,
            final(self).changedtick == bumped_by(old(self).changedtick, requests@.len()),
            final(self).undo_seq == old(self).edit_seq(),
            final(self).undo_at == old(self).edit_seq(),
            final(self).undo_open,
            forall|i: int|
                0 <= i < requests@.len() ==> (#[trigger] requests@[i]).splice().fits(),
    {
        let mut count: usize = requests.len();
        assert(requests@.take(count as int) =~= requests@);
        while count > 0
            invariant
                self.wf(),
                self.lines is Some,
                count <= requests@.len(),
                ascending(requests@.take(count as int)),
                all_within(requests@.take(count as int), self.rows()),
                all_applied(requests@.take(count as int), self.rows()) == all_applied(
                    requests@,
                    old(self).rows(),
                ),
                self.same_but_text(*old(self)),
                self.changedtick == bumped_by(
                    old(self).changedtick,
                    (requests@.len() - count) as nat,
                ),
                if count == requests@.len() {
                    *self == *old(self)
                } else {
                    self.modified && self.undo_open && self.undo_seq == old(self).edit_seq()
                        && self.undo_at == old(self).edit_seq()
                },
                forall|i: int|
                    count <= i < requests@.len() ==> (#[trigger] requests@[i]).splice().fits(),
            decreases count,
        {
            let ghost rest = requests@.take(count as int);
            let ghost before = *self;
            assert(rest.last() == requests@[count - 1]);
            assert(rest[count - 1].within(self.rows()));
            proof {
                lemma_still_within(rest, self.rows());
                assert(rest.drop_last() =~= requests@.take(count - 1));
            }
            let _ = self.commit_buffer_text_edit(&requests[count - 1]);
            proof {
                lemma_edit_fits(requests@[count - 1], before, *self);
            }
            count = count - 1;
        }
        self.undo_seq
    }

    /// Makes edits one after the other, each against the text that the one
    /// before it left, up to the first that does not lie within that text. Each
    /// has a tick of its own; they join one undo block.
    ///
    /// # Errors
    ///
    /// [`BufferStateError::InvalidRange`] when an edit does not lie within the
    /// text at its turn; the edits before it were made.
    pub fn commit_in_turn(&mut self, requests: &Vec<BufferTextEditRequest>) -> (result: Result<
        (),
        BufferStateError,
    >)
        requires
            old(self).wf(),
            old(self).lines is Some,
            requests@.len() > 0,
            requests@[0].within(old(self).rows()),
        ensures
            final(self).wf(),
            ({
                let made = fitting(requests@, old(self).rows());
                &&& made >= 1
                &&& result == if made == requests@.len() {
                    Ok::<(), BufferStateError>(())
                } else {
                    Err(BufferStateError::InvalidRange)
                }
                &&& final(self).same_but_text(*old(self))
                &&& final(self).lines is Some
                &&& final(self).rows() == each_applied(
                    requests@.take(made as int),
                    old(self).rows(),
                )
                &&& final(self).modified
                &&& final(self).changedtick == bumped_by(old(self).changedtick, made)
                &&& final(self).undo_seq == old(self).edit_seq()
                &&& final(self).undo_at == old(self).edit_seq()
                &&& final(self).undo_open
                &&& forall|i: int|
                    0 <= i < made ==> (#[trigger] requests@[i]).splice().fits()
            }),
    {
        let mut next: usize = 0;
        assert(requests@.take(1).drop_last() =~= requests@.take(0));
        while next < requests.len()
            invariant
                self.wf(),
                self.lines is Some,
                next <= requests@.len(),
                requests@.len() > 0,
                requests@[0].within(old(self).rows()),
                fitting(requests@.take(next as int), old(self).rows()) == next,
                self.rows() == each_applied(requests@.take(next as int), old(self).rows()),
                self.same_but_text(*old(self)),
                self.changedtick == bumped_by(old(self).changedtick, next as nat),
                if next == 0 {
                    *self == *old(self)
                } else {
                    self.modified && self.undo_open && self.undo_seq == old(self).edit_seq()
                        && self.undo_at == old(self).edit_seq()
                },
                forall|i: int|
                    0 <= i < next ==> (#[trigger] requests@[i]).splice().fits(),
            decreases requests@.len() - next,
        {
            let ghost before = *self;
            let ghost reached = requests@.take(next + 1);
            assert(reached.drop_last() =~= requests@.take(next as int));
            assert(reached.last() == requests@[next as int]);
            match self.commit_buffer_text_edit(&requests[next]) {
                Ok(_) => {},
                Err(error) => {
                    proof {
                        lemma_fitting_stops(requests@, old(self).rows(), next as int);
                    }
                    return Err(error);
                },
            }
            proof {
                lemma_edit_fits(requests@[next as int], before, *self);
            }
            next = next + 1;
        }
        assert(requests@.take(next as int) =~= requests@);
        Ok(())
    }

    /// Replays undo blocks on the text, first to last, which leaves the undo
    /// tree at `reached`. Every edit ticks once, and the next edit starts a
    /// new undo block. When the blocks do not fit the text, nothing changes.
    ///
    /// # Errors
    ///
    /// [`BufferStateError::Unloaded`] when the text is not resident,
    /// [`BufferStateError::InvalidRange`] when an edit replaces lines that are
    /// not there.
    pub fn replay(&mut self, blocks: &Vec<Vec<ReplayedEdit>>, reached: UndoState) -> (result:
        Result<(), BufferStateError>)
        requires
            old(self).wf(),
        ensures
            final(self).wf(),
            if old(self).lines is None {
                result == Err::<(), _>(BufferStateError::Unloaded) && *final(self) == *old(self)
            } else if !blocks_fit(blocks@, old(self).rows()) {
                result == Err::<(), _>(BufferStateError::InvalidRange) && *final(self)
                    == *old(self)
            } else {
                &&& result == Ok::<(), BufferStateError>(())
                &&& final(self).replayed_from(*old(self), blocks@, reached)
            },
    {
        let mut text: Vec<Vec<u8>> = Vec::new();
        match &self.lines {
            Some(lines) => {
                push_rows(&mut text, lines);
            },
            None => {
                return Err(BufferStateError::Unloaded);
            },
        }
        let ghost rows = self.rows();
        assert(crate::text::views(text@) =~= rows);
        let mut ticks: u64 = self.changedtick;
        let mut next: usize = 0;
        assert(blocks@.take(0) =~= Seq::empty());
        while next < blocks.len()
            invariant
                next <= blocks@.len(),
                *self == *old(self),
                self.wf(),
                self.lines is Some,
                rows == self.rows(),
                text@.len() > 0,
                crate::text::views(text@) == blocks_replayed(blocks@.take(next as int), rows),
                blocks_fit(blocks@.take(next as int), rows),
                ticks == bumped_by(old(self).changedtick, edits_in(blocks@.take(next as int))),
            decreases blocks@.len() - next,
        {
            let ghost so_far = blocks@.take(next + 1);
            assert(so_far.drop_last() =~= blocks@.take(next as int));
            assert(so_far.last() == blocks@[next as int]);
            let ghost before = crate::text::views(text@);
            match replay_block(text, &blocks[next], ticks) {
                Some((after, ticked)) => {
                    text = after;
                    proof {
                        lemma_bumped_again(
                            old(self).changedtick,
                            edits_in(blocks@.take(next as int)),
                            blocks@[next as int]@.len(),
                        );
                    }
                    ticks = ticked;
                },
                None => {
                    proof {
                        if blocks_fit(blocks@, rows) {
                            lemma_blocks_prefix_fit(blocks@, rows, next + 1);
                        }
                    }
                    return Err(BufferStateError::InvalidRange);
                },
            }
            next = next + 1;
        }
        assert(blocks@.take(next as int) =~= blocks@);
        self.lines = Some(text);
        self.modified = reached.modified;
        self.changedtick = ticks;
        self.undo_at = reached.seq;
        self.undo_open = false;
        Ok(())
    }

    /// Replaces one line without recording it for undo.
    ///
    /// # Errors
    ///
    /// [`BufferStateError::Unloaded`] when the text is not resident,
    /// [`BufferStateError::InvalidRange`] when there is no such line.
    pub fn replace_prompt_line(&mut self, lnum: usize, line: Vec<u8>) -> (result: Result<
        (),
        BufferStateError,
    >)
        requires
            old(self).wf(),
        ensures
            final(self).wf(),
            old(self).lines is None ==> result == Err::<(), _>(BufferStateError::Unloaded)
                && *final(self) == *old(self),
            old(self).lines is Some && !(1 <= lnum <= old(self).rows().len()) ==> result == Err::<
                (),
                _,
            >(BufferStateError::InvalidRange) && *final(self) == *old(self),
            old(self).lines is Some && 1 <= lnum <= old(self).rows().len() ==> {
                &&& result == Ok::<(), BufferStateError>(())
                &&& final(self).lines is Some
                &&& final(self).rows() == old(self).rows().update(lnum - 1, line@)
                &&& *final(self) == (BufferState {
                    lines: final(self).lines,
                    changedtick: bumped(old(self).changedtick),
                    ..*old(self)
                })
            },
    {
        let count: usize = match &self.lines {
            Some(text) => text.len(),
            None => {
                return Err(BufferStateError::Unloaded);
            },
        };
        if lnum < 1 || lnum > count {
            return Err(BufferStateError::InvalidRange);
        }
        let ghost before = self.rows();
        if let Some(mut text) = self.lines.take() {
            let ghost bytes = line@;
            text.set(lnum - 1, line);
            assert(crate::text::views(text@) =~= before.update(lnum - 1, bytes));
            self.lines = Some(text);
        }
        self.changedtick = bump(self.changedtick);
        Ok(())
    }

    /// Copies the lines from `first` to `last`, one-based and inclusive.
    ///
    /// # Errors
    ///
    /// [`BufferStateError::Unloaded`] when the text is not resident,
    /// [`BufferStateError::InvalidRange`] when one of them does not exist.
    pub fn lines_between(&self, first: usize, last: usize) -> (lines: Result<
        Vec<Vec<u8>>,
        BufferStateError,
    >)
        ensures
            if self.lines is None {
                lines == Err::<Vec<Vec<u8>>, _>(BufferStateError::Unloaded)
            } else if first <= last && !(1 <= first && last <= self.rows().len()) {
                lines == Err::<Vec<Vec<u8>>, _>(BufferStateError::InvalidRange)
            } else {
                &&& lines is Ok
                &&& crate::text::views(lines->Ok_0@) == (if first <= last {
                    self.rows().subrange(first - 1, last as int)
                } else {
                    Seq::empty()
                })
            },
    {
        let text = match &self.lines {
            Some(text) => text,
            None => {
                return Err(BufferStateError::Unloaded);
            },
        };
        let mut lines: Vec<Vec<u8>> = Vec::new();
        if first > last {
            assert(crate::text::views(lines@) =~= Seq::empty());
            return Ok(lines);
        }
        if first < 1 || last > text.len() {
            return Err(BufferStateError::InvalidRange);
        }
        let mut next: usize = first - 1;
        assert(crate::text::views(lines@) =~= self.rows().subrange(first - 1, first - 1));
        while next < last
            invariant
                1 <= first <= last <= text@.len(),
                first - 1 <= next <= last,
                self.rows() == crate::text::views(text@),
                crate::text::views(lines@) == self.rows().subrange(first - 1, next as int),
            decreases last - next,
        {
            let ghost so_far = crate::text::views(lines@);
            lines.push(copy_bytes(text[next].as_slice()));
            assert(crate::text::views(lines@) =~= so_far.push(self.rows()[next as int]));
            assert(self.rows().subrange(first - 1, next + 1) =~= self.rows().subrange(
                first - 1,
                next as int,
            ).push(self.rows()[next as int]));
            next = next + 1;
        }
        Ok(lines)
    }
}

/// The sizes of requested changes.
pub open spec fn splices_of(requests: Seq<BufferTextEditRequest>) -> Seq<TextSplice> {
    requests.map_values(|request: BufferTextEditRequest| request.splice())
}

/// Whether no request changes how many lines there are.
pub fn preserves_line_count(splices: &Vec<TextSplice>) -> (preserves: bool)
    ensures
        preserves == (forall|i: int|
            0 <= i < splices@.len() ==> (#[trigger] splices@[i]).old_extent.rows
                == splices@[i].new_extent.rows),
{
    let mut next: usize = 0;
    while next < splices.len()
        invariant
            next <= splices@.len(),
            forall|i: int|
                0 <= i < next ==> (#[trigger] splices@[i]).old_extent.rows
                    == splices@[i].new_extent.rows,
        decreases splices@.len() - next,
    {
        if splices[next].old_extent.rows != splices[next].new_extent.rows {
            return false;
        }
        next = next + 1;
    }
    true
}

/// The text between the ends of a range.
pub open spec fn text_between(
    rows: Seq<Seq<u8>>,
    start: ExtmarkPosition,
    end: ExtmarkPosition,
) -> Seq<Seq<u8>> {
    if start.row == end.row {
        seq![rows[start.row as int].subrange(start.column as int, end.column as int)]
    } else {
        seq![rows[start.row as int].skip(start.column as int)] + rows.subrange(
            start.row + 1,
            end.row as int,
        ) + seq![rows[end.row as int].take(end.column as int)]
    }
}

/// A request that undoes `request` on the text `rows`: it takes out what was put
/// in, and puts back what was taken out.
pub open spec fn reverses(
    back: BufferTextEditRequest,
    request: BufferTextEditRequest,
    rows: Seq<Seq<u8>>,
) -> bool {
    let put_in = replacement_rows(request);
    &&& back.start == request.start
    &&& back.end.row == request.start.row + put_in.len() - 1
    &&& back.end.column == if put_in.len() == 1 {
        request.start.column + put_in[0].len()
    } else {
        put_in.last().len() as int
    }
    &&& replacement_rows(back) == text_between(rows, request.start, request.end)
}

/// The replacement lines of an edit are read back at its place, and the lines
/// around it stay.
pub proof fn law_replaced_lines_are_read_back(
    rows: Seq<Seq<u8>>,
    start: int,
    end: int,
    lines: Seq<Seq<u8>>,
)
    requires
        1 <= start <= end + 1,
        end <= rows.len(),
        lines.len() > 0,
    ensures
        ({
            let text = lines_replaced(rows, start, end, lines);
            &&& text.len() == rows.len() - (end - start + 1) + lines.len()
            &&& text.take(start - 1) == rows.take(start - 1)
            &&& text.subrange(start - 1, start - 1 + lines.len()) == lines
            &&& text.skip(start - 1 + lines.len()) == rows.skip(end)
        }),
{
}

/// An edit of a byte range leaves the rows above and below it, and on its own
/// rows the bytes in front of and behind it.
pub proof fn law_edit_keeps_the_text_around_it(
    request: BufferTextEditRequest,
    rows: Seq<Seq<u8>>,
)
    requires
        request.within(rows),
    ensures
        ({
            let text = request.applied(rows);
            let last = request.start.row + replacement_rows(request).len() - 1;
            let tail = rows[request.end.row as int].skip(request.end.column as int);
            &&& text.take(request.start.row as int) == rows.take(request.start.row as int)
            &&& text.skip(last + 1) == rows.skip(request.end.row + 1)
            &&& text[request.start.row as int].take(request.start.column as int)
                == rows[request.start.row as int].take(request.start.column as int)
            &&& text[last].skip(text[last].len() - tail.len()) == tail
        }),
{
    let text = request.applied(rows);
    let put_in = replacement_rows(request);
    let last = request.start.row + put_in.len() - 1;
    let tail = rows[request.end.row as int].skip(request.end.column as int);
    let head = rows[request.start.row as int].take(request.start.column as int);
    assert(text.take(request.start.row as int) =~= rows.take(request.start.row as int));
    assert(text.skip(last + 1) =~= rows.skip(request.end.row + 1));
    if put_in.len() == 1 {
        assert(text[last] == head + put_in[0] + tail);
    } else {
        assert(text[request.start.row as int] == head + put_in[0]);
        assert(text[last] == put_in.last() + tail);
    }
    assert(text[request.start.row as int].take(request.start.column as int) =~= head);
    assert(text[last].skip(text[last].len() - tail.len()) =~= tail);
}

/// An edit of a byte range and the edit that takes out what it put in and puts
/// back what it took out leave the text as it was.
pub proof fn law_edit_and_back(
    request: BufferTextEditRequest,
    back: BufferTextEditRequest,
    rows: Seq<Seq<u8>>,
)
    requires
        request.within(rows),
        reverses(back, request, rows),
    ensures
        back.within(request.applied(rows)),
        back.applied(request.applied(rows)) == rows,
{
    let text = request.applied(rows);
    let put_in = replacement_rows(request);
    let taken = replacement_rows(back);
    let first = request.start.row as int;
    let last = first + put_in.len() - 1;
    let end = request.end.row as int;
    let head = rows[first].take(request.start.column as int);
    let tail = rows[end].skip(request.end.column as int);
    lemma_rows_above(request, rows);
    law_edit_keeps_the_text_around_it(request, rows);
    if put_in.len() == 1 {
        assert(text[last] == head + put_in[0] + tail);
        assert(text[last].skip(back.end.column as int) =~= tail);
    } else {
        assert(text[first] == head + put_in[0]);
        assert(text[last] == put_in.last() + tail);
        assert(text[last].skip(back.end.column as int) =~= tail);
    }
    assert(text[first].take(back.start.column as int) =~= head);
    assert(text.skip(last + 1) =~= rows.skip(end + 1));
    let restored = back.applied(text);
    if first == end {
        assert(taken.len() == 1);
        assert(head + taken[0] + tail =~= rows[first]);
    } else {
        assert(taken.len() == end - first + 1);
        assert(head + taken[0] =~= rows[first]);
        assert(taken.last() + tail =~= rows[end]);
        assert(taken.subrange(1, taken.len() - 1) =~= rows.subrange(first + 1, end));
    }
    assert(restored =~= rows);
}

/// A batch that keeps the number of lines leaves every row that none of its
/// edits is on.
pub proof fn law_batch_keeps_other_rows(
    requests: Seq<BufferTextEditRequest>,
    rows: Seq<Seq<u8>>,
    row: int,
)
    requires
        ascending(requests),
        all_within(requests, rows),
        line_preserving(requests),
        0 <= row < rows.len(),
        forall|i: int| 0 <= i < requests.len() ==> (#[trigger] requests[i]).start.row != row,
    ensures
        all_applied(requests, rows).len() == rows.len(),
        all_applied(requests, rows)[row] == rows[row],
    decreases requests.len(),
{
    if requests.len() > 0 {
        let last = requests.last();
        let rest = requests.drop_last();
        let after = last.applied(rows);
        assert(last == requests[requests.len() - 1]);
        assert(last.within(rows));
        assert(last.keeps_line_count());
        assert(last.replacement.len() <= usize::MAX);
        lemma_rows_above(last, rows);
        lemma_still_within(requests, rows);
        assert(after.len() == rows.len());
        assert(after[row] == rows[row]);
        assert forall|i: int| 0 <= i < rest.len() implies (
        #[trigger] rest[i]).keeps_line_count() && rest[i].start.row != row by {
            assert(rest[i] == requests[i]);
        }
        law_batch_keeps_other_rows(rest, after, row);
    }
}

} // verus!
