//! Puts: what a put reads of the text, and what carries it out.

use vstd::prelude::*;

use crate::buffer::BufferStateError;
use crate::editor::batches::{content_put_rows, register_put_rows, PutPlan, RegisterKind};
use crate::editor::Editor;
use crate::errors::EditorError;
use crate::splice::{max_of, min_of};
use crate::types::{BufHandle, Position, WinHandle};

verus! {

/// What a put is planned from.
#[derive(Debug, PartialEq, Eq)]
pub struct PutTarget {
    /// The buffer.
    pub buffer: BufHandle,
    /// How many lines it has.
    pub line_count: usize,
    /// Where the put is made.
    pub cursor: Position,
    /// The rows that the put reads, from the cursor's on.
    pub lines: Vec<Vec<u8>>,
}

/// The rows from `first` to `last`, one-based and inclusive; none when the first
/// is past the last.
pub open spec fn rows_between(text: Seq<Seq<u8>>, first: int, last: int) -> Seq<Seq<u8>> {
    if first <= last {
        text.subrange(first - 1, last)
    } else {
        Seq::empty()
    }
}

impl PutPlan {
    /// Whether the plan holds anything.
    pub open spec fn holds_edits(&self) -> bool {
        self.splices@.len() > 0 || self.insertion is Some
    }
}

impl Editor {
    /// What a put of a register with `register_len` rows reads at a window's
    /// cursor: the cursor's line is taken into the text.
    ///
    /// # Errors
    ///
    /// Those of [`Editor::locate_window`].
    pub fn put_register_target(
        &self,
        window: WinHandle,
        kind: RegisterKind,
        register_len: usize,
    ) -> (target: Result<PutTarget, EditorError>)
        requires
            self.wf(),
        ensures
            match self.window_request(window) {
                Err(error) => target is Err && target->Err_0 == error,
                Ok(at) => {
                    let state = self.windows@[at].state;
                    let text = self.buffer_state(state.buffer).rows();
                    let lnum = crate::splice::larger(
                        crate::splice::smaller(state.cursor.lnum as int, text.len() as int),
                        1,
                    );
                    let (first, last) = crate::editor::batches::register_rows(
                        kind,
                        lnum,
                        text.len() as int,
                        register_len as int,
                    );
                    &&& target is Ok
                    &&& target->Ok_0.buffer == state.buffer
                    &&& target->Ok_0.line_count == text.len()
                    &&& target->Ok_0.cursor == (Position { lnum: lnum as usize, ..state.cursor })
                    &&& crate::text::views(target->Ok_0.lines@) == rows_between(text, first, last)
                },
            },
    {
        let at: usize = match self.locate_window(window) {
            Ok(at) => at,
            Err(error) => {
                return Err(error);
            },
        };
        proof {
            crate::editor::windows::lemma_window_tab(*self, at as int);
        }
        let buffer = self.windows[at].state.buffer;
        let b: usize = match self.find_buffer(buffer) {
            Some(b) => b,
            None => {
                return Err(EditorError::UnknownBuffer(buffer));
            },
        };
        proof {
            crate::editor::windows::lemma_shown_counts(*self, at as int, b as int);
            assert(self.buffers@[b as int].state.wf());
        }
        let state = &self.buffers[b].state;
        let line_count: usize = match state.line_count() {
            Ok(count) => count,
            Err(error) => {
                return Err(EditorError::Buffer(error));
            },
        };
        let cursor = self.windows[at].state.cursor;
        let lnum: usize = max_of(min_of(cursor.lnum, line_count), 1);
        let (first, last): (usize, usize) = register_put_rows(kind, lnum, line_count, register_len);
        match state.lines_between(first, last) {
            Ok(lines) => Ok(
                PutTarget { buffer, line_count, cursor: Position { lnum, col: cursor.col }, lines },
            ),
            Err(error) => Err(EditorError::Buffer(error)),
        }
    }

    /// What a put of content with `content_len` rows reads at a position: rows
    /// for a blockwise put within the text only.
    ///
    /// # Errors
    ///
    /// Those of [`Editor::locate_buffer`], or [`EditorError::Buffer`] when the
    /// buffer is not loaded.
    pub fn put_content_target(
        &self,
        buffer: BufHandle,
        position: Position,
        kind: RegisterKind,
        content_len: usize,
    ) -> (target: Result<PutTarget, EditorError>)
        requires
            self.wf(),
        ensures
            match self.buffer_request(buffer) {
                Err(error) => target is Err && target->Err_0 == error,
                Ok(b) => {
                    let state = self.buffers@[b].state;
                    let text = state.rows();
                    let last = crate::splice::smaller(
                        text.len() as int,
                        position.lnum + crate::splice::larger(content_len - 1, 0),
                    );
                    if state.lines is None {
                        target is Err && target->Err_0 == EditorError::Buffer(
                            BufferStateError::Unloaded,
                        )
                    } else {
                        &&& target is Ok
                        &&& target->Ok_0.buffer == self.buffers@[b].handle
                        &&& target->Ok_0.line_count == text.len()
                        &&& target->Ok_0.cursor == position
                        &&& crate::text::views(target->Ok_0.lines@) == if kind
                            == RegisterKind::BlockWise && 1 <= position.lnum && position.lnum
                            <= text.len() {
                            rows_between(text, position.lnum as int, last)
                        } else {
                            Seq::empty()
                        }
                    }
                },
            },
    {
        let b: usize = match self.locate_buffer(buffer) {
            Ok(b) => b,
            Err(error) => {
                return Err(error);
            },
        };
        let state = &self.buffers[b].state;
        let line_count: usize = match state.line_count() {
            Ok(count) => count,
            Err(error) => {
                return Err(EditorError::Buffer(error));
            },
        };
        let (first, last): (usize, usize) = content_put_rows(
            kind,
            position.lnum,
            line_count,
            content_len,
        );
        match state.lines_between(first, last) {
            Ok(lines) => Ok(
                PutTarget {
                    buffer: self.buffers[b].handle,
                    line_count,
                    cursor: position,
                    lines,
                },
            ),
            Err(error) => Err(EditorError::Buffer(error)),
        }
    }

    /// Puts a register at a window's cursor: `plan` is what was planned from
    /// [`Editor::put_register_target`], and nothing when the register is empty.
    /// Returns whether the register holds anything.
    ///
    /// # Errors
    ///
    /// Those of [`Editor::locate_window`] and [`Editor::commit_put_plan`].
    pub fn put_register(&mut self, window: WinHandle, plan: Option<&PutPlan>) -> (result: Result<
        bool,
        EditorError,
    >)
        requires
            old(self).wf(),
            plan is Some ==> plan->0.wf(),
        ensures
            final(self).wf(),
            match old(self).window_request(window) {
                Err(error) => result == Err::<bool, _>(error) && *final(self) == *old(self),
                Ok(at) => match plan {
                    None => result == Ok::<bool, EditorError>(false) && *final(self) == *old(self),
                    Some(plan) => {
                        &&& result is Ok ==> result->Ok_0
                        &&& old(self).put_outcome(
                            final(self),
                            match result {
                                Ok(_) => Ok(plan.holds_edits()),
                                Err(error) => Err(error),
                            },
                            old(self).windows@[at].state.buffer,
                            Some(window),
                            *plan,
                        )
                    },
                },
            },
    {
        let at: usize = match self.locate_window(window) {
            Ok(at) => at,
            Err(error) => {
                return Err(error);
            },
        };
        let buffer = self.windows[at].state.buffer;
        match plan {
            None => Ok(false),
            Some(plan) => match self.commit_put_plan(buffer, Some(window), plan) {
                Ok(_) => Ok(true),
                Err(error) => Err(error),
            },
        }
    }

    /// Puts explicit content into a buffer: `plan` is what was planned from
    /// [`Editor::put_content_target`].
    ///
    /// # Errors
    ///
    /// Those of [`Editor::locate_buffer`], [`EditorError::Buffer`] when the
    /// buffer is not loaded, and those of [`Editor::commit_put_plan`].
    pub fn put_content(&mut self, buffer: BufHandle, plan: &PutPlan) -> (result: Result<
        (),
        EditorError,
    >)
        requires
            old(self).wf(),
            plan.wf(),
        ensures
            final(self).wf(),
            match old(self).buffer_request(buffer) {
                Err(error) => result == Err::<(), _>(error) && *final(self) == *old(self),
                Ok(b) => if old(self).buffers@[b].state.lines is None {
                    &&& result == Err::<(), _>(EditorError::Buffer(BufferStateError::Unloaded))
                    &&& *final(self) == *old(self)
                } else {
                    old(self).put_outcome(
                        final(self),
                        match result {
                            Ok(_) => Ok(plan.holds_edits()),
                            Err(error) => Err(error),
                        },
                        buffer,
                        None,
                        *plan,
                    )
                },
            },
    {
        let b: usize = match self.locate_buffer(buffer) {
            Ok(b) => b,
            Err(error) => {
                return Err(error);
            },
        };
        if self.buffers[b].state.lines.is_none() {
            return Err(EditorError::Buffer(BufferStateError::Unloaded));
        }
        match self.commit_put_plan(buffer, None, plan) {
            Ok(_) => Ok(()),
            Err(error) => Err(error),
        }
    }
}

} // verus!
