//! Several edits as one: batches of byte-range edits, and what a put inserts.

use vstd::prelude::*;

use crate::buffer::{
    preserves_line_count, BufferState, BufferStateError, BufferTextEditRequest,
};
use crate::editor::{BufferEditMode, Editor, HistoryEvent};
use crate::errors::EditorError;
use crate::splice::{max_of, min_of};
use crate::types::{BufHandle, Position, TextSplice, WinHandle};
use crate::window::{WindowEntry, WindowState};

verus! {

/// Splices in the order in which a batch moves positions: as asked for when no
/// edit changes how many lines there are, and otherwise bottom-up, so that each
/// only shifts what is below an edit that was already followed.
pub open spec fn follow_order(splices: Seq<TextSplice>) -> Seq<TextSplice> {
    if row_preserving(splices) {
        splices
    } else {
        splices.reverse()
    }
}

/// No splice changes how many rows there are.
pub open spec fn row_preserving(splices: Seq<TextSplice>) -> bool {
    forall|i: int|
        0 <= i < splices.len() ==> (#[trigger] splices[i]).old_extent.rows
            == splices[i].new_extent.rows
}

/// A buffer after a batch of edits: one undo block, and one tick in all when no
/// edit changes how many lines there are, else one for each.
pub open spec fn batch_edited(
    before: BufferState,
    after: BufferState,
    requests: Seq<BufferTextEditRequest>,
) -> bool {
    &&& after.same_but_text(before)
    &&& after.lines is Some
    &&& after.rows() == crate::buffer::all_applied(requests, before.rows())
    &&& after.modified
    &&& after.undo_seq == before.edit_seq()
    &&& after.undo_at == before.edit_seq()
    &&& after.undo_open
    &&& after.changedtick == (if row_preserving(crate::buffer::splices_of(requests)) {
        crate::buffer::bumped(before.changedtick)
    } else {
        crate::buffer::bumped_by(before.changedtick, requests.len())
    })
}

/// The splices last to first.
fn reversed(splices: &Vec<TextSplice>) -> (result: Vec<TextSplice>)
    ensures
        result@ == splices@.reverse(),
{
    let mut result: Vec<TextSplice> = Vec::new();
    let mut count: usize = splices.len();
    while count > 0
        invariant
            count <= splices@.len(),
            result@.len() == splices@.len() - count,
            forall|i: int|
                0 <= i < result@.len() ==> #[trigger] result@[i] == splices@[splices@.len() - 1
                    - i],
        decreases count,
    {
        count = count - 1;
        result.push(splices[count]);
    }
    assert(result@ =~= splices@.reverse());
    result
}

/// A window with its cursor set.
pub open spec fn with_cursor(
    windows: Seq<WindowEntry>,
    at: int,
    cursor: Position,
) -> Seq<WindowEntry> {
    windows.update(
        at,
        WindowEntry { state: WindowState { cursor, ..windows[at].state }, ..windows[at] },
    )
}

impl Editor {
    /// Which buffer and window a batch means, or why it fails.
    pub open spec fn batch_request(&self, buffer: BufHandle, window: WinHandle) -> Result<
        (int, int),
        EditorError,
    > {
        match (self.resolved_buffer(buffer), self.resolved_window(window)) {
            (Some(buffer), Some(window)) => if !self.has_window(window) {
                Err(EditorError::UnknownWindow(window))
            } else if !self.has_buffer(buffer) {
                Err(EditorError::UnknownBuffer(buffer))
            } else {
                Ok((self.links().buffer_at(buffer), self.links().window_at(window)))
            },
            _ => Err(EditorError::NoCurrentTabpage),
        }
    }

    fn locate_batch(&self, buffer: BufHandle, window: WinHandle) -> (places: Result<
        (usize, usize),
        EditorError,
    >)
        requires
            self.wf(),
        ensures
            match self.batch_request(buffer, window) {
                Ok((b, at)) => places is Ok && (places->Ok_0).0 == b && (places->Ok_0).1 == at
                    && b < self.buffers@.len() && at < self.windows@.len(),
                Err(error) => places is Err && places->Err_0 == error,
            },
    {
        let buffer = match self.resolve_buffer_handle(buffer) {
            Ok(buffer) => buffer,
            Err(error) => {
                return Err(error);
            },
        };
        let window = match self.resolve_window_handle(window) {
            Ok(window) => window,
            Err(error) => {
                return Err(error);
            },
        };
        match self.find_window(window) {
            Some(at) => match self.find_buffer(buffer) {
                Some(b) => Ok((b, at)),
                None => Err(EditorError::UnknownBuffer(buffer)),
            },
            None => Err(EditorError::UnknownWindow(window)),
        }
    }

    /// A batch was made in the buffer at `b`, every position followed, and the
    /// cursor of the window at `at` was set.
    pub open spec fn edits_batch(
        &self,
        after: &Editor,
        b: int,
        at: int,
        requests: Seq<BufferTextEditRequest>,
        cursor_after: Position,
    ) -> bool {
        let buffer = self.buffers@[b].handle;
        let splices = follow_order(crate::buffer::splices_of(requests));
        let rows = crate::buffer::all_applied(requests, self.buffers@[b].state.rows());
        &&& after.buffers@ == self.buffers@.update(b, after.buffers@[b])
        &&& after.buffers@[b].handle == buffer
        &&& batch_edited(self.buffers@[b].state, after.buffers@[b].state, requests)
        &&& after.windows@ == with_cursor(
            crate::editor::edits::all_text_spliced(
                self.windows@,
                buffer,
                splices,
                rows,
                self.inserting_into(buffer),
            ),
            at,
            cursor_after,
        )
        &&& after.history@ == self.history@ + crate::editor::edits::text_events(buffer, splices)
            + seq![HistoryEvent::Change { buffer, position: cursor_after }]
        &&& *after == (Editor {
            buffers: after.buffers,
            windows: after.windows,
            history: after.history,
            active_text_edit: self.text_edit_after(buffer),
            ..*self
        })
    }

    /// Sets the cursor of the window at `at`.
    fn put_cursor(&mut self, at: usize, cursor: Position)
        requires
            old(self).wf(),
            at < old(self).windows@.len(),
        ensures
            final(self).wf(),
            final(self).links() == old(self).links(),
            final(self).windows@ == with_cursor(old(self).windows@, at as int, cursor),
            *final(self) == (Editor { windows: final(self).windows, ..*old(self) }),
    {
        self.windows[at].state.cursor = cursor;
        proof {
            assert(old(self).windows@[at as int].area.text_height >= 1);
            crate::editor::lemma_tables_kept(*old(self), *self);
        }
    }

    /// Makes prepared edits in the buffer at `b`.
    fn commit_batch(
        &mut self,
        b: usize,
        requests: &Vec<BufferTextEditRequest>,
        splices: &Vec<TextSplice>,
    ) -> (seq: u64)
        requires
            old(self).wf(),
            b < old(self).buffers@.len(),
            old(self).buffers@[b as int].state.lines is Some,
            requests@.len() > 0,
            crate::buffer::ascending(requests@),
            crate::buffer::all_within(requests@, old(self).buffers@[b as int].state.rows()),
            splices@ == crate::buffer::splices_of(requests@),
        ensures
            final(self).wf(),
            final(self).links() == old(self).links(),
            seq == old(self).buffers@[b as int].state.edit_seq(),
            final(self).buffers@ == old(self).buffers@.update(b as int, final(self).buffers@[b as int]),
            final(self).buffers@[b as int].handle == old(self).buffers@[b as int].handle,
            batch_edited(
                old(self).buffers@[b as int].state,
                final(self).buffers@[b as int].state,
                requests@,
            ),
            *final(self) == (Editor { buffers: final(self).buffers, ..*old(self) }),
            forall|i: int| 0 <= i < splices@.len() ==> (#[trigger] splices@[i]).fits(),
    {
        let preserving: bool = preserves_line_count(splices);
        let seq: u64 = if preserving {
            self.buffers[b].state.commit_line_preserving_batch(requests)
        } else {
            self.buffers[b].state.commit_structural_batch(requests)
        };
        proof {
            crate::editor::lemma_tables_kept(*old(self), *self);
            assert forall|i: int| 0 <= i < splices@.len() implies (#[trigger] splices@[i]).fits() by {
                assert(splices@[i] == requests@[i].splice());
            }
        }
        seq
    }

    /// Replaces several byte ranges as one batch: every request is checked
    /// against the text before the first is made, so a failure leaves
    /// everything as it was. Requests stay on one row each, in the order of
    /// their rows. Their commits join one undo block, the change list gains one
    /// entry, and the window's cursor is set.
    ///
    /// # Errors
    ///
    /// [`EditorError::NoCurrentTabpage`] when a current handle is meant and
    /// there is none, [`EditorError::UnknownWindow`] or
    /// [`EditorError::UnknownBuffer`] when a handle is not live, or
    /// [`EditorError::Buffer`] when the buffer is not loaded or a request does
    /// not lie within it.
    pub fn replace_buffer_texts(
        &mut self,
        buffer: BufHandle,
        window: WinHandle,
        requests: &Vec<BufferTextEditRequest>,
        cursor_after: Position,
    ) -> (result: Result<u64, EditorError>)
        requires
            old(self).wf(),
            crate::buffer::ascending(requests@),
        ensures
            final(self).wf(),
            match old(self).batch_request(buffer, window) {
                Err(error) => result == Err::<u64, _>(error) && *final(self) == *old(self),
                Ok((b, at)) => {
                    let state = old(self).buffers@[b].state;
                    if requests@.len() == 0 {
                        &&& result == Ok::<_, EditorError>(state.undo_at)
                        &&& final(self).windows@ == with_cursor(
                            old(self).windows@,
                            at,
                            cursor_after,
                        )
                        &&& *final(self) == (Editor { windows: final(self).windows, ..*old(self) })
                    } else if state.lines is None {
                        &&& result == Err::<u64, _>(
                            EditorError::Buffer(BufferStateError::Unloaded),
                        )
                        &&& *final(self) == *old(self)
                    } else if !crate::buffer::all_within(requests@, state.rows()) {
                        &&& result == Err::<u64, _>(
                            EditorError::Buffer(BufferStateError::InvalidRange),
                        )
                        &&& *final(self) == *old(self)
                    } else {
                        &&& result == Ok::<_, EditorError>(state.edit_seq())
                        &&& old(self).edits_batch(final(self), b, at, requests@, cursor_after)
                    }
                },
            },
    {
        let (b, at): (usize, usize) = match self.locate_batch(buffer, window) {
            Ok(places) => places,
            Err(error) => {
                return Err(error);
            },
        };
        let handle = self.buffers[b].handle;
        let splices = match self.buffers[b].state.prepare_all(requests) {
            Ok(splices) => splices,
            Err(error) => {
                return Err(EditorError::Buffer(error));
            },
        };
        if requests.len() == 0 {
            let seq: u64 = self.buffers[b].state.undo_at;
            self.put_cursor(at, cursor_after);
            return Ok(seq);
        }
        let seq: u64 = self.commit_batch(b, requests, &splices);
        proof {
            crate::editor::edits::lemma_buffer_place(*self, b as int);
        }
        let ghost asked = splices@;
        let order = if preserves_line_count(&splices) {
            splices
        } else {
            reversed(&splices)
        };
        assert(order@ == follow_order(asked));
        assert forall|i: int| 0 <= i < order@.len() implies (#[trigger] order@[i]).fits() by {
            if !row_preserving(asked) {
                assert(order@[i] == asked[asked.len() - 1 - i]);
            }
        }
        let ghost edited = *self;
        self.follow_text_edits(handle, &order, cursor_after);
        self.put_cursor(at, cursor_after);
        Ok(seq)
    }
}

/// Lines to insert behind a line.
#[derive(Debug, PartialEq, Eq)]
pub struct LineInsertion {
    /// The line behind which they go; zero for the top.
    pub after_lnum: usize,
    /// The lines.
    pub lines: Vec<Vec<u8>>,
}

/// What a put does to a buffer: edits of existing rows, and lines inserted
/// behind them.
#[derive(Debug, PartialEq, Eq)]
pub struct PutPlan {
    /// Edits of existing rows, one row each, in the order of their rows.
    pub splices: Vec<BufferTextEditRequest>,
    /// Lines inserted after those edits.
    pub insertion: Option<LineInsertion>,
    /// Where the put leaves the cursor.
    pub cursor_after: Position,
}

/// How the register that is put was filled.
#[derive(Clone, Copy, Debug, PartialEq, Eq, Structural)]
pub enum RegisterKind {
    /// Characters.
    CharacterWise,
    /// Whole lines.
    LineWise,
    /// A block of columns.
    BlockWise,
}

impl PutPlan {
    /// Edits stay on one row each, in the order of their rows.
    pub open spec fn wf(&self) -> bool {
        crate::buffer::ascending(self.splices@)
    }

    /// No edit changes how many lines there are.
    pub open spec fn line_preserving(&self) -> bool {
        row_preserving(crate::buffer::splices_of(self.splices@))
    }

    /// How many edits of existing rows are made: all of them when none changes
    /// how many lines there are, else those before the first that does not lie
    /// within the text at its turn.
    pub open spec fn made(&self, rows: Seq<Seq<u8>>) -> nat {
        if self.line_preserving() {
            self.splices@.len()
        } else {
            crate::buffer::fitting(self.splices@, rows)
        }
    }

    /// The text after the edits of existing rows: one batch when none changes
    /// how many lines there are, else made one after the other.
    pub open spec fn spliced(&self, rows: Seq<Seq<u8>>) -> Seq<Seq<u8>> {
        if self.line_preserving() {
            crate::buffer::all_applied(self.splices@, rows)
        } else {
            crate::buffer::each_applied(self.splices@.take(self.made(rows) as int), rows)
        }
    }

    /// The text after the put.
    pub open spec fn result(&self, rows: Seq<Seq<u8>>) -> Seq<Seq<u8>> {
        match self.insertion {
            Some(insertion) => crate::buffer::lines_inserted(
                self.spliced(rows),
                insertion.after_lnum as int,
                crate::text::views(insertion.lines@),
            ),
            None => self.spliced(rows),
        }
    }

    /// Whether every edit can be made and the inserted lines have a place.
    pub open spec fn carries(&self, rows: Seq<Seq<u8>>) -> bool {
        &&& self.made(rows) == self.splices@.len()
        &&& self.insertion is Some ==> self.insertion->0.after_lnum <= self.spliced(rows).len()
    }

    /// How often the edits of existing rows tick: once for a batch, else once
    /// for each that is made.
    pub open spec fn splice_ticks(&self, rows: Seq<Seq<u8>>) -> nat {
        if self.splices@.len() == 0 {
            0
        } else if self.line_preserving() {
            1
        } else {
            self.made(rows)
        }
    }

    /// How often the put ticks.
    pub open spec fn ticks(&self, rows: Seq<Seq<u8>>) -> nat {
        self.splice_ticks(rows) + (if self.insertion is Some {
            1nat
        } else {
            0nat
        })
    }
}

/// The rows that a register put at `lnum` reads, one-based and inclusive; the
/// first is past the last when it reads none. Every put but a linewise one reads
/// the cursor row, and a blockwise one a row for each of the register's.
pub open spec fn register_rows(
    kind: RegisterKind,
    lnum: int,
    line_count: int,
    register_len: int,
) -> (int, int) {
    let first = crate::splice::larger(
        crate::splice::smaller(lnum, crate::splice::larger(line_count, 1)),
        1,
    );
    match kind {
        RegisterKind::LineWise => (1, 0),
        RegisterKind::CharacterWise => (first, first),
        RegisterKind::BlockWise => (
            first,
            crate::splice::smaller(
                line_count,
                first + crate::splice::larger(register_len - 1, 0),
            ),
        ),
    }
}

/// The rows that a register put reads; see [`register_rows`].
#[must_use]
pub fn register_put_rows(
    kind: RegisterKind,
    lnum: usize,
    line_count: usize,
    register_len: usize,
) -> (rows: (usize, usize))
    ensures
        (rows.0 as int, rows.1 as int) == register_rows(
            kind,
            lnum as int,
            line_count as int,
            register_len as int,
        ),
{
    let first: usize = max_of(min_of(lnum, max_of(line_count, 1)), 1);
    match kind {
        RegisterKind::LineWise => (1, 0),
        RegisterKind::CharacterWise => (first, first),
        RegisterKind::BlockWise => {
            let last: usize = first.saturating_add(register_len.saturating_sub(1));
            (first, min_of(line_count, last))
        },
    }
}

/// The rows that putting explicit content at `lnum` reads: only a blockwise put
/// reads any, one for each row of the content, and none behind the text.
#[must_use]
pub fn content_put_rows(
    kind: RegisterKind,
    lnum: usize,
    line_count: usize,
    content_len: usize,
) -> (rows: (usize, usize))
    ensures
        (rows.0 as int, rows.1 as int) == (if kind == RegisterKind::BlockWise && 1 <= lnum
            && lnum <= line_count {
            (
                lnum as int,
                crate::splice::smaller(
                    line_count as int,
                    lnum + crate::splice::larger(content_len - 1, 0),
                ),
            )
        } else {
            (1, 0)
        }),
{
    if kind == RegisterKind::BlockWise && lnum >= 1 && lnum <= line_count {
        let last: usize = lnum.saturating_add(content_len.saturating_sub(1));
        (lnum, min_of(line_count, last))
    } else {
        (1, 0)
    }
}

impl Editor {
    /// A buffer after the text part of a put.
    pub open spec fn put_text(
        before: BufferState,
        after: BufferState,
        rows: Seq<Seq<u8>>,
        ticks: nat,
    ) -> bool {
        &&& after.same_but_text(before)
        &&& after.lines is Some
        &&& after.rows() == rows
        &&& after.modified
        &&& after.undo_seq == before.edit_seq()
    &&& after.undo_at == before.edit_seq()
        &&& after.undo_open
        &&& after.changedtick == crate::buffer::bumped_by(before.changedtick, ticks)
    }

    /// Puts a plan's text into the buffer at `b`. When an edit does not lie
    /// within the text at its turn, or the inserted lines have no place, the
    /// edits before were made all the same.
    fn commit_put_text(&mut self, b: usize, plan: &PutPlan, splices: &Vec<TextSplice>) -> (result:
        Result<(), BufferStateError>)
        requires
            old(self).wf(),
            b < old(self).buffers@.len(),
            plan.wf(),
            plan.splices@.len() > 0 || plan.insertion is Some,
            old(self).buffers@[b as int].state.lines is Some,
            crate::buffer::all_within(
                plan.splices@,
                old(self).buffers@[b as int].state.rows(),
            ),
            splices@ == crate::buffer::splices_of(plan.splices@),
        ensures
            final(self).wf(),
            final(self).links() == old(self).links(),
            final(self).buffers@ == old(self).buffers@.update(b as int, final(self).buffers@[b as int]),
            final(self).buffers@[b as int].handle == old(self).buffers@[b as int].handle,
            *final(self) == (Editor { buffers: final(self).buffers, ..*old(self) }),
            result is Ok ==> forall|i: int|
                0 <= i < splices@.len() ==> (#[trigger] splices@[i]).fits(),
            ({
                let before = old(self).buffers@[b as int].state;
                let after = final(self).buffers@[b as int].state;
                if plan.carries(before.rows()) {
                    &&& result == Ok::<(), BufferStateError>(())
                    &&& Editor::put_text(
                        before,
                        after,
                        plan.result(before.rows()),
                        plan.ticks(before.rows()),
                    )
                } else {
                    &&& result == Err::<(), _>(BufferStateError::InvalidRange)
                    &&& if plan.splices@.len() > 0 {
                        Editor::put_text(
                            before,
                            after,
                            plan.spliced(before.rows()),
                            plan.splice_ticks(before.rows()),
                        )
                    } else {
                        after == before
                    }
                }
            }),
    {
        let ghost before = self.buffers@[b as int].state;
        reveal_with_fuel(crate::buffer::bumped_by, 3);
        if plan.splices.len() > 0 {
            if preserves_line_count(splices) {
                let _ = self.buffers[b].state.commit_line_preserving_batch(&plan.splices);
                proof {
                    crate::editor::lemma_tables_kept(*old(self), *self);
                }
            } else {
                let made = self.buffers[b].state.commit_in_turn(&plan.splices);
                proof {
                    crate::editor::lemma_tables_kept(*old(self), *self);
                    assert(self.buffers@ =~= old(self).buffers@.update(
                        b as int,
                        self.buffers@[b as int],
                    ));
                }
                match made {
                    Ok(()) => {},
                    Err(error) => {
                        return Err(error);
                    },
                }
            }
            proof {
                assert forall|i: int| 0 <= i < splices@.len() implies (
                #[trigger] splices@[i]).fits() by {
                    assert(splices@[i] == plan.splices@[i].splice());
                }
            }
        }
        let ghost mid = *self;
        assert(mid.buffers@ =~= old(self).buffers@.update(b as int, mid.buffers@[b as int]));
        match &plan.insertion {
            Some(insertion) => {
                let result = self.buffers[b].state.insert_lines(
                    insertion.after_lnum,
                    &insertion.lines,
                );
                proof {
                    crate::editor::lemma_tables_kept(mid, *self);
                    assert(self.buffers@ =~= old(self).buffers@.update(
                        b as int,
                        self.buffers@[b as int],
                    ));
                }
                match result {
                    Ok(_) => Ok(()),
                    Err(error) => Err(error),
                }
            },
            None => Ok(()),
        }
    }

    /// The windows after a put's text was followed.
    pub open spec fn put_windows(&self, buffer: BufHandle, plan: PutPlan, rows: Seq<Seq<u8>>) -> Seq<
        WindowEntry,
    > {
        let spliced = crate::editor::edits::all_text_spliced(
            self.windows@,
            buffer,
            crate::buffer::splices_of(plan.splices@),
            rows,
            self.inserting_into(buffer),
        );
        match plan.insertion {
            Some(insertion) => crate::editor::edits::line_spliced_windows(
                spliced,
                buffer,
                crate::splice::sat(insertion.after_lnum + 1),
                0,
                insertion.lines@.len() as usize,
                rows,
            ),
            None => spliced,
        }
    }

    /// What a put tells the position tables.
    pub open spec fn put_events(buffer: BufHandle, plan: PutPlan) -> Seq<HistoryEvent> {
        crate::editor::edits::text_events(buffer, crate::buffer::splices_of(plan.splices@)) + (
        match plan.insertion {
            Some(insertion) => seq![
                HistoryEvent::Splice {
                    buffer,
                    start: crate::splice::sat(insertion.after_lnum + 1),
                    old_count: 0,
                    new_count: insertion.lines@.len() as usize,
                },
            ],
            None => Seq::empty(),
        }) + seq![HistoryEvent::Change { buffer, position: plan.cursor_after }]
    }

    /// A put was made in the buffer at `b`, every position followed, and the
    /// cursor of the window it was made in, if any, was set.
    pub open spec fn puts(&self, after: &Editor, b: int, at: Option<int>, plan: PutPlan) -> bool {
        let entry = self.buffers@[b];
        let rows = plan.result(entry.state.rows());
        let followed = self.put_windows(entry.handle, plan, rows);
        &&& after.buffers@ == self.buffers@.update(b, after.buffers@[b])
        &&& after.buffers@[b].handle == entry.handle
        &&& Editor::put_text(
            entry.state,
            after.buffers@[b].state,
            rows,
            plan.ticks(entry.state.rows()),
        )
        &&& after.windows@ == match at {
            Some(at) => with_cursor(followed, at, plan.cursor_after),
            None => followed,
        }
        &&& after.history@ == self.history@ + Editor::put_events(entry.handle, plan)
        &&& *after == (Editor {
            buffers: after.buffers,
            windows: after.windows,
            history: after.history,
            active_text_edit: self.text_edit_after(entry.handle),
            ..*self
        })
    }

    /// Which window a put is made in, if in any, or why there is none.
    pub open spec fn put_window_request(&self, window: Option<WinHandle>) -> Result<
        Option<int>,
        EditorError,
    > {
        match window {
            Some(window) => match self.window_request(window) {
                Ok(at) => Ok(Some(at)),
                Err(error) => Err(error),
            },
            None => Ok(None),
        }
    }

    /// Follows a put's text.
    fn follow_put(&mut self, buffer: BufHandle, plan: &PutPlan, splices: &Vec<TextSplice>)
        requires
            old(self).wf(),
            splices@ == crate::buffer::splices_of(plan.splices@),
            forall|i: int| 0 <= i < splices@.len() ==> (#[trigger] splices@[i]).fits(),
        ensures
            final(self).wf(),
            final(self).links() == old(self).links(),
            final(self).windows@ == old(self).put_windows(
                buffer,
                *plan,
                old(self).rows_of(buffer),
            ),
            final(self).history@ == old(self).history@ + Editor::put_events(buffer, *plan),
            *final(self) == (Editor {
                windows: final(self).windows,
                history: final(self).history,
                active_text_edit: old(self).text_edit_after(buffer),
                ..*old(self)
            }),
    {
        self.follow_splices(buffer, splices);
        if let Some(insertion) = &plan.insertion {
            assert(self.rows_of(buffer) == old(self).rows_of(buffer));
            self.splice_positions(
                buffer,
                insertion.after_lnum.saturating_add(1),
                0,
                insertion.lines.len(),
            );
        }
        self.history.push(HistoryEvent::Change { buffer, position: plan.cursor_after });
        assert(self.history@ =~= old(self).history@ + Editor::put_events(buffer, *plan));
        if self.edit_mode == BufferEditMode::Insert && self.current_buffer() == Some(buffer) {
            self.active_text_edit = Some(buffer);
        }
    }

    /// The outcome of carrying a planned put out.
    pub open spec fn put_outcome(
        &self,
        after: &Editor,
        result: Result<bool, EditorError>,
        buffer: BufHandle,
        window: Option<WinHandle>,
        plan: PutPlan,
    ) -> bool {
        if plan.splices@.len() == 0 && plan.insertion is None {
            result == Ok::<_, EditorError>(false) && *after == *self
        } else {
            match self.buffer_request(buffer) {
                Err(error) => result == Err::<bool, _>(error) && *after == *self,
                Ok(b) => {
                    let state = self.buffers@[b].state;
                    if state.lines is None {
                        &&& result == Err::<bool, _>(
                            EditorError::Buffer(BufferStateError::Unloaded),
                        )
                        &&& *after == *self
                    } else {
                        match self.put_window_request(window) {
                            Err(error) => result == Err::<bool, _>(error) && *after
                                == *self,
                            Ok(at) => if !crate::buffer::all_within(
                                plan.splices@,
                                state.rows(),
                            ) {
                                &&& result == Err::<bool, _>(
                                    EditorError::Buffer(BufferStateError::InvalidRange),
                                )
                                &&& *after == *self
                            } else if !plan.carries(state.rows()) {
                                &&& result == Err::<bool, _>(
                                    EditorError::Buffer(BufferStateError::InvalidRange),
                                )
                                &&& after.buffers@ == self.buffers@.update(
                                    b,
                                    after.buffers@[b],
                                )
                                &&& after.buffers@[b].handle
                                    == self.buffers@[b].handle
                                &&& if plan.splices@.len() > 0 {
                                    Editor::put_text(
                                        state,
                                        after.buffers@[b].state,
                                        plan.spliced(state.rows()),
                                        plan.splice_ticks(state.rows()),
                                    )
                                } else {
                                    after.buffers@[b].state == state
                                }
                                &&& *after == (Editor {
                                    buffers: after.buffers,
                                    ..*self
                                })
                            } else {
                                &&& result == Ok::<_, EditorError>(true)
                                &&& self.puts(after, b, at, plan)
                            },
                        }
                    }
                },
            }
        }
    }

    /// Carries a planned put out. Returns whether the plan holds anything.
    ///
    /// # Errors
    ///
    /// Those of [`Editor::locate_buffer`], [`EditorError::Buffer`] when the
    /// buffer is not loaded, those of [`Editor::locate_window`] for the window,
    /// and [`EditorError::Buffer`] when an edit does not lie within the text.
    /// [`EditorError::Buffer`] also when an edit no longer lies within the text
    /// that the edits before it left, or the inserted lines have no place: only
    /// these come after edits of existing rows were made.
    pub fn commit_put_plan(
        &mut self,
        buffer: BufHandle,
        window: Option<WinHandle>,
        plan: &PutPlan,
    ) -> (result: Result<bool, EditorError>)
        requires
            old(self).wf(),
            plan.wf(),
        ensures
            final(self).wf(),
            old(self).put_outcome(final(self), result, buffer, window, *plan),
    {
        if plan.splices.len() == 0 && plan.insertion.is_none() {
            return Ok(false);
        }
        let b: usize = match self.locate_buffer(buffer) {
            Ok(b) => b,
            Err(error) => {
                return Err(error);
            },
        };
        if self.buffers[b].state.lines.is_none() {
            return Err(EditorError::Buffer(BufferStateError::Unloaded));
        }
        let at: Option<usize> = match window {
            Some(window) => match self.locate_window(window) {
                Ok(at) => Some(at),
                Err(error) => {
                    return Err(error);
                },
            },
            None => None,
        };
        let splices = match self.buffers[b].state.prepare_all(&plan.splices) {
            Ok(splices) => splices,
            Err(error) => {
                return Err(EditorError::Buffer(error));
            },
        };
        match self.commit_put_text(b, plan, &splices) {
            Ok(()) => {},
            Err(error) => {
                return Err(EditorError::Buffer(error));
            },
        }
        let handle = self.buffers[b].handle;
        proof {
            crate::editor::edits::lemma_buffer_place(*self, b as int);
        }
        self.follow_put(handle, plan, &splices);
        if let Some(at) = at {
            self.put_cursor(at, plan.cursor_after);
        }
        Ok(true)
    }
}

} // verus!
