//! Edits of buffer text that move every position along: cursors and viewports
//! here, and marks, jumps and change lists through the editor's history.

use vstd::prelude::*;

use crate::buffer::{BufferState, BufferStateError, BufferTextEditRequest, ReplayedEdit};
use crate::editor::{BufferEditMode, Editor, HistoryEvent};
use crate::errors::EditorError;
use crate::splice::{
    adjust_text_cursor, max_of, min_of, splice_position, splice_topline, ToplineSplice,
    ToplineSpliceKind,
};
use crate::types::{
    BufHandle, ExtmarkPosition, Position, TextExtent, TextSplice, WinHandle,
};
use crate::window::{WindowEntry, WindowState};

verus! {

/// A window's state after lines of the buffer it shows were replaced. `rows` is
/// the buffer's text then.
pub open spec fn line_spliced(
    state: WindowState,
    height: usize,
    start: usize,
    old_count: usize,
    new_count: usize,
    rows: Seq<Seq<u8>>,
) -> WindowState {
    let line_count = crate::splice::larger(rows.len() as int, 1) as usize;
    let replaced = start <= state.cursor.lnum && state.cursor.lnum < crate::splice::sat(
        start + old_count,
    );
    let lnum = crate::splice::sat(
        crate::splice::spliced_line(
            state.cursor.lnum as int,
            start as int,
            old_count as int,
            new_count as int,
            line_count as int,
        ),
    );
    let col = if replaced && 1 <= lnum <= rows.len() {
        crate::splice::smaller(
            state.cursor.col as int,
            rows[lnum - 1].len() as int,
        ) as usize
    } else {
        state.cursor.col
    };
    let scrolled = ToplineSplice {
        topline: state.topline,
        cursor: lnum,
        height,
        line_count,
        start,
        old_count,
        new_count,
        kind: ToplineSpliceKind::Lines,
    };
    WindowState {
        cursor: Position { lnum, col },
        topline: crate::splice::smaller(scrolled.result(), usize::MAX as int) as usize,
        ..state
    }
}

/// A number as virtual cells; none when it does not fit.
pub open spec fn cells(number: int) -> i64 {
    if 0 <= number <= i64::MAX {
        number as i64
    } else {
        0
    }
}

/// Virtual cells as a number; none when negative or too many.
pub open spec fn cell_count(coladd: i64) -> int {
    if 0 <= coladd && coladd <= usize::MAX {
        coladd as int
    } else {
        0
    }
}

fn cells_of(number: usize) -> (coladd: i64)
    ensures
        coladd == cells(number as int),
{
    if number as u64 <= i64::MAX as u64 {
        number as i64
    } else {
        0
    }
}

fn count_cells(coladd: i64) -> (number: usize)
    ensures
        number == cell_count(coladd),
{
    if coladd >= 0 && coladd as u64 <= usize::MAX as u64 {
        coladd as usize
    } else {
        0
    }
}

/// A window's state after a stretch of text of the buffer it shows was
/// replaced. The cursor moves as [`crate::splice::text_cursor_move`] says and is
/// then held within its line: one byte short of the end, or at the end for an
/// inserting cursor and for one that was past the end already; what is left
/// over of the latter's column stays as virtual cells.
pub open spec fn text_spliced(
    state: WindowState,
    height: usize,
    splice: TextSplice,
    rows: Seq<Seq<u8>>,
    inserting: bool,
) -> WindowState {
    let line_count = crate::splice::larger(rows.len() as int, 1) as usize;
    let end_row = crate::types::end_row(splice.start, splice.new_extent);
    let end_len = if end_row < rows.len() {
        rows[end_row].len() as int
    } else {
        0
    };
    let coladd = cell_count(state.coladd);
    let moved = crate::splice::text_cursor_move(
        ExtmarkPosition {
            row: crate::splice::sat(state.cursor.lnum - 1),
            column: state.cursor.col,
        },
        coladd,
        splice,
        end_len,
        inserting,
    );
    let lnum = crate::splice::sat(crate::splice::sat(moved.row) + 1);
    let column = crate::splice::sat(moved.column) as int;
    let shown = 1 <= lnum <= rows.len();
    let len = rows[lnum - 1].len() as int;
    let col = if !shown {
        column
    } else if len == 0 {
        0
    } else if column >= len {
        if inserting || coladd > 0 {
            len
        } else {
            len - 1
        }
    } else {
        column
    };
    let scrolled = ToplineSplice {
        topline: state.topline,
        cursor: lnum,
        height,
        line_count,
        start: (splice.start.row + 1) as usize,
        old_count: (splice.old_extent.rows + 1) as usize,
        new_count: (splice.new_extent.rows + 1) as usize,
        kind: ToplineSpliceKind::Text,
    };
    WindowState {
        cursor: Position { lnum, col: col as usize },
        coladd: if shown && coladd > 0 {
            cells(crate::splice::larger(crate::splice::sat(column + moved.coladd) - col, 0))
        } else {
            cells(moved.coladd)
        },
        topline: crate::splice::smaller(scrolled.result(), usize::MAX as int) as usize,
        ..state
    }
}

/// One window after a replacement of lines in `buffer`.
pub open spec fn line_spliced_window(
    entry: WindowEntry,
    buffer: BufHandle,
    start: usize,
    old_count: usize,
    new_count: usize,
    rows: Seq<Seq<u8>>,
) -> WindowEntry {
    if entry.state.buffer == buffer {
        WindowEntry {
            state: line_spliced(
                entry.state,
                entry.area.text_height,
                start,
                old_count,
                new_count,
                rows,
            ),
            ..entry
        }
    } else {
        entry
    }
}

/// All windows after a replacement of lines in `buffer`.
pub open spec fn line_spliced_windows(
    windows: Seq<WindowEntry>,
    buffer: BufHandle,
    start: usize,
    old_count: usize,
    new_count: usize,
    rows: Seq<Seq<u8>>,
) -> Seq<WindowEntry> {
    windows.map_values(
        |entry: WindowEntry|
            line_spliced_window(entry, buffer, start, old_count, new_count, rows),
    )
}

/// One window after a replacement of text in `buffer`; `inserting` is the
/// window that is being typed into.
pub open spec fn text_spliced_window(
    entry: WindowEntry,
    buffer: BufHandle,
    splice: TextSplice,
    rows: Seq<Seq<u8>>,
    inserting: Option<WinHandle>,
) -> WindowEntry {
    if entry.state.buffer == buffer {
        WindowEntry {
            state: text_spliced(
                entry.state,
                entry.area.text_height,
                splice,
                rows,
                inserting == Some(entry.handle),
            ),
            ..entry
        }
    } else {
        entry
    }
}

/// All windows after a replacement of text in `buffer`.
pub open spec fn text_spliced_windows(
    windows: Seq<WindowEntry>,
    buffer: BufHandle,
    splice: TextSplice,
    rows: Seq<Seq<u8>>,
    inserting: Option<WinHandle>,
) -> Seq<WindowEntry> {
    windows.map_values(
        |entry: WindowEntry| text_spliced_window(entry, buffer, splice, rows, inserting),
    )
}

/// What a replacement of text tells the position tables.
pub open spec fn text_event(buffer: BufHandle, splice: TextSplice) -> HistoryEvent {
    HistoryEvent::Splice {
        buffer,
        start: (splice.start.row + 1) as usize,
        old_count: (splice.old_extent.rows + 1) as usize,
        new_count: (splice.new_extent.rows + 1) as usize,
    }
}

impl Editor {
    /// The rows of a live, loaded buffer; none otherwise.
    pub open spec fn rows_of(&self, buffer: BufHandle) -> Seq<Seq<u8>> {
        if self.has_buffer(buffer) {
            self.buffer_state(buffer).rows()
        } else {
            Seq::empty()
        }
    }

    /// The window that is being typed into while it shows `buffer`.
    pub open spec fn inserting_into(&self, buffer: BufHandle) -> Option<WinHandle> {
        if self.edit_mode == BufferEditMode::Insert && self.links().current_buffer() == Some(
            buffer,
        ) {
            self.links().current_window()
        } else {
            None
        }
    }

    /// Number of lines of a live, loaded buffer, and at least one.
    fn shown_line_count(&self, buffer: BufHandle) -> (count: usize)
        requires
            self.wf(),
        ensures
            count == crate::splice::larger(self.rows_of(buffer).len() as int, 1),
    {
        match self.find_buffer(buffer) {
            Some(at) => match self.buffers[at].state.line_count() {
                Ok(count) => max_of(count, 1),
                Err(_) => {
                    assert(self.rows_of(buffer) =~= Seq::empty());
                    1
                },
            },
            None => 1,
        }
    }

    /// Length of a line of a live, loaded buffer.
    fn shown_line_length(&self, buffer: BufHandle, lnum: usize) -> (length: Option<usize>)
        requires
            self.wf(),
        ensures
            length == (if 1 <= lnum <= self.rows_of(buffer).len() {
                Some(self.rows_of(buffer)[lnum - 1].len() as usize)
            } else {
                None
            }),
            length is Some ==> length->0 == self.rows_of(buffer)[lnum - 1].len(),
    {
        match self.find_buffer(buffer) {
            Some(at) => {
                let state = &self.buffers[at].state;
                let length = state.line_length(lnum);
                proof {
                    if state.lines is Some && 1 <= lnum <= state.rows().len() {
                        let line = state.lines->0@[lnum - 1];
                        assert(line@ == state.rows()[lnum - 1]);
                        assert(line.len() <= usize::MAX);
                    }
                }
                length
            },
            None => None,
        }
    }

    /// Moves every position along after lines were replaced: cursors and
    /// viewports of windows that show the buffer, and the position tables
    /// through the history.
    pub fn splice_positions(
        &mut self,
        buffer: BufHandle,
        start: usize,
        old_count: usize,
        new_count: usize,
    )
        requires
            old(self).wf(),
        ensures
            final(self).wf(),
            final(self).links() == old(self).links(),
            final(self).history@ == old(self).history@.push(
                HistoryEvent::Splice { buffer, start, old_count, new_count },
            ),
            final(self).windows@ == line_spliced_windows(
                old(self).windows@,
                buffer,
                start,
                old_count,
                new_count,
                old(self).rows_of(buffer),
            ),
            *final(self) == (Editor {
                windows: final(self).windows,
                history: final(self).history,
                ..*old(self)
            }),
    {
        self.history.push(HistoryEvent::Splice { buffer, start, old_count, new_count });
        let ghost rows = old(self).rows_of(buffer);
        let line_count: usize = self.shown_line_count(buffer);
        let old_end: usize = start.saturating_add(old_count);
        let mut next: usize = 0;
        while next < self.windows.len()
            invariant
                old(self).wf(),
                self.wf(),
                self.links() == old(self).links(),
                rows == old(self).rows_of(buffer),
                self.rows_of(buffer) == rows,
                line_count == crate::splice::larger(rows.len() as int, 1),
                old_end == crate::splice::sat(start + old_count),
                next <= self.windows@.len(),
                self.windows@.len() == old(self).windows@.len(),
                *self == (Editor {
                    windows: self.windows,
                    history: self.history,
                    ..*old(self)
                }),
                self.history@ == old(self).history@.push(
                    HistoryEvent::Splice { buffer, start, old_count, new_count },
                ),
                forall|i: int|
                    0 <= i < next ==> #[trigger] self.windows@[i] == line_spliced_window(
                        old(self).windows@[i],
                        buffer,
                        start,
                        old_count,
                        new_count,
                        rows,
                    ),
                forall|i: int|
                    next <= i < self.windows@.len() ==> #[trigger] self.windows@[i]
                        == old(self).windows@[i],
            decreases self.windows@.len() - next,
        {
            let ghost before = *self;
            if self.windows[next].state.buffer == buffer {
                let state = &self.windows[next].state;
                let height: usize = self.windows[next].area.text_height;
                let topline: usize = state.topline;
                let mut cursor = state.cursor;
                let replaced: bool = start <= cursor.lnum && cursor.lnum < old_end;
                splice_position(&mut cursor, start, old_count, new_count, line_count);
                if replaced {
                    if let Some(length) = self.shown_line_length(buffer, cursor.lnum) {
                        cursor.col = min_of(cursor.col, length);
                    }
                }
                self.windows[next].state.topline = splice_topline(
                    ToplineSplice {
                        topline,
                        cursor: cursor.lnum,
                        height,
                        line_count,
                        start,
                        old_count,
                        new_count,
                        kind: ToplineSpliceKind::Lines,
                    },
                );
                self.windows[next].state.cursor = cursor;
                proof {
                    assert(before.windows@[next as int].area.text_height >= 1);
                    crate::editor::lemma_tables_kept(before, *self);
                }
            }
            next = next + 1;
        }
        assert(self.windows@ =~= line_spliced_windows(
            old(self).windows@,
            buffer,
            start,
            old_count,
            new_count,
            rows,
        ));
    }

    /// Moves every position along after a stretch of text was replaced, column
    /// by column on the rows that the change ends on.
    pub fn splice_text_positions(&mut self, buffer: BufHandle, splice: TextSplice)
        requires
            old(self).wf(),
            splice.fits(),
        ensures
            final(self).wf(),
            final(self).links() == old(self).links(),
            final(self).history@ == old(self).history@.push(text_event(buffer, splice)),
            final(self).windows@ == text_spliced_windows(
                old(self).windows@,
                buffer,
                splice,
                old(self).rows_of(buffer),
                old(self).inserting_into(buffer),
            ),
            *final(self) == (Editor {
                windows: final(self).windows,
                history: final(self).history,
                ..*old(self)
            }),
    {
        let start: usize = splice.start.row + 1;
        let old_count: usize = splice.old_extent.rows + 1;
        let new_count: usize = splice.new_extent.rows + 1;
        let inserting = self.typing_window(buffer);
        self.history.push(HistoryEvent::Splice { buffer, start, old_count, new_count });
        let ghost rows = old(self).rows_of(buffer);
        let line_count: usize = self.shown_line_count(buffer);
        let end_len: usize = match self.shown_line_length(buffer, splice.new_end().row + 1) {
            Some(length) => length,
            None => 0,
        };
        let mut next: usize = 0;
        while next < self.windows.len()
            invariant
                old(self).wf(),
                self.wf(),
                splice.fits(),
                self.links() == old(self).links(),
                rows == old(self).rows_of(buffer),
                self.rows_of(buffer) == rows,
                inserting == old(self).inserting_into(buffer),
                line_count == crate::splice::larger(rows.len() as int, 1),
                start == splice.start.row + 1,
                old_count == splice.old_extent.rows + 1,
                new_count == splice.new_extent.rows + 1,
                ({
                    let end_row = crate::types::end_row(splice.start, splice.new_extent);
                    end_len == if end_row < rows.len() {
                        rows[end_row].len() as int
                    } else {
                        0
                    }
                }),
                next <= self.windows@.len(),
                self.windows@.len() == old(self).windows@.len(),
                *self == (Editor {
                    windows: self.windows,
                    history: self.history,
                    ..*old(self)
                }),
                self.history@ == old(self).history@.push(text_event(buffer, splice)),
                forall|i: int|
                    0 <= i < next ==> #[trigger] self.windows@[i] == text_spliced_window(
                        old(self).windows@[i],
                        buffer,
                        splice,
                        rows,
                        inserting,
                    ),
                forall|i: int|
                    next <= i < self.windows@.len() ==> #[trigger] self.windows@[i]
                        == old(self).windows@[i],
            decreases self.windows@.len() - next,
        {
            let ghost before = *self;
            if self.windows[next].state.buffer == buffer {
                let typing: bool = inserting == Some(self.windows[next].handle);
                let (cursor, coladd, topline) = self.text_moved(
                    next,
                    splice,
                    line_count,
                    end_len,
                    typing,
                );
                self.windows[next].state.cursor = cursor;
                self.windows[next].state.coladd = coladd;
                self.windows[next].state.topline = topline;
                proof {
                    assert(before.windows@[next as int].area.text_height >= 1);
                    crate::editor::lemma_tables_kept(before, *self);
                }
            }
            next = next + 1;
        }
        assert(self.windows@ =~= text_spliced_windows(
            old(self).windows@,
            buffer,
            splice,
            rows,
            inserting,
        ));
    }

    /// Where the window at `at` looks after a stretch of text of its buffer was
    /// replaced.
    fn text_moved(
        &self,
        at: usize,
        splice: TextSplice,
        line_count: usize,
        end_len: usize,
        typing: bool,
    ) -> (view: (Position, i64, usize))
        requires
            self.wf(),
            at < self.windows@.len(),
            splice.fits(),
            ({
                let rows = self.rows_of(self.windows@[at as int].state.buffer);
                let end_row = crate::types::end_row(splice.start, splice.new_extent);
                &&& line_count == crate::splice::larger(rows.len() as int, 1)
                &&& end_len == if end_row < rows.len() {
                    rows[end_row].len() as int
                } else {
                    0
                }
            }),
        ensures
            ({
                let entry = self.windows@[at as int];
                let state = text_spliced(
                    entry.state,
                    entry.area.text_height,
                    splice,
                    self.rows_of(entry.state.buffer),
                    typing,
                );
                &&& view.0 == state.cursor
                &&& view.1 == state.coladd
                &&& view.2 == state.topline
            }),
    {
        let state = &self.windows[at].state;
        let coladd: usize = count_cells(state.coladd);
        let from = ExtmarkPosition::new(state.cursor.lnum.saturating_sub(1), state.cursor.col);
        let (moved, residue) = adjust_text_cursor(from, coladd, splice, end_len, typing);
        let lnum: usize = moved.row.saturating_add(1);
        let (col, left): (usize, i64) = self.held_column(
            state.buffer,
            lnum,
            moved.column,
            residue,
            coladd > 0,
            typing,
        );
        let topline: usize = splice_topline(
            ToplineSplice {
                topline: state.topline,
                cursor: lnum,
                height: self.windows[at].area.text_height,
                line_count,
                start: splice.start.row + 1,
                old_count: splice.old_extent.rows + 1,
                new_count: splice.new_extent.rows + 1,
                kind: ToplineSpliceKind::Text,
            },
        );
        (Position { lnum, col }, left, topline)
    }

    /// Holds a cursor column within its line.
    fn held_column(
        &self,
        buffer: BufHandle,
        lnum: usize,
        column: usize,
        residue: usize,
        virtual_edit: bool,
        typing: bool,
    ) -> (held: (usize, i64))
        requires
            self.wf(),
        ensures
            ({
                let rows = self.rows_of(buffer);
                let shown = 1 <= lnum <= rows.len();
                let len = rows[lnum - 1].len() as int;
                &&& held.0 == if !shown {
                    column as int
                } else if len == 0 {
                    0
                } else if column >= len {
                    if typing || virtual_edit {
                        len
                    } else {
                        len - 1
                    }
                } else {
                    column as int
                }
                &&& held.1 == if shown && virtual_edit {
                    cells(
                        crate::splice::larger(
                            crate::splice::sat(column + residue) - held.0,
                            0,
                        ),
                    )
                } else {
                    cells(residue as int)
                }
            }),
    {
        match self.shown_line_length(buffer, lnum) {
            Some(length) => {
                let col: usize = if length == 0 {
                    0
                } else if column >= length {
                    if typing || virtual_edit {
                        length
                    } else {
                        length - 1
                    }
                } else {
                    column
                };
                if virtual_edit {
                    (col, cells_of(column.saturating_add(residue).saturating_sub(col)))
                } else {
                    (col, cells_of(residue))
                }
            },
            None => (column, cells_of(residue)),
        }
    }

    /// The window that is being typed into while it shows `buffer`.
    fn typing_window(&self, buffer: BufHandle) -> (window: Option<WinHandle>)
        requires
            self.wf(),
        ensures
            window == self.inserting_into(buffer),
    {
        if self.edit_mode == BufferEditMode::Insert && self.current_buffer() == Some(buffer) {
            self.current_window()
        } else {
            None
        }
    }
}

/// All windows after several replacements of text, one after the other.
pub open spec fn all_text_spliced(
    windows: Seq<WindowEntry>,
    buffer: BufHandle,
    splices: Seq<TextSplice>,
    rows: Seq<Seq<u8>>,
    inserting: Option<WinHandle>,
) -> Seq<WindowEntry>
    decreases splices.len(),
{
    if splices.len() == 0 {
        windows
    } else {
        text_spliced_windows(
            all_text_spliced(windows, buffer, splices.drop_last(), rows, inserting),
            buffer,
            splices.last(),
            rows,
            inserting,
        )
    }
}

/// What several replacements of text tell the position tables.
pub open spec fn text_events(buffer: BufHandle, splices: Seq<TextSplice>) -> Seq<HistoryEvent> {
    splices.map_values(|splice: TextSplice| text_event(buffer, splice))
}

/// One replacement is one replacement.
proof fn lemma_one_splice(
    windows: Seq<WindowEntry>,
    buffer: BufHandle,
    splice: TextSplice,
    rows: Seq<Seq<u8>>,
    inserting: Option<WinHandle>,
)
    ensures
        all_text_spliced(windows, buffer, seq![splice], rows, inserting) == text_spliced_windows(
            windows,
            buffer,
            splice,
            rows,
            inserting,
        ),
        text_events(buffer, seq![splice]) == seq![text_event(buffer, splice)],
{
    reveal_with_fuel(all_text_spliced, 2);
    assert(seq![splice].drop_last() =~= Seq::empty());
    assert(text_events(buffer, seq![splice]) =~= seq![text_event(buffer, splice)]);
}

/// A buffer is found where it stands.
pub proof fn lemma_buffer_place(editor: Editor, at: int)
    requires
        editor.wf(),
        0 <= at < editor.buffers@.len(),
    ensures
        editor.has_buffer(editor.buffers@[at].handle),
        editor.links().buffer_at(editor.buffers@[at].handle) == at,
        editor.rows_of(editor.buffers@[at].handle) == editor.buffers@[at].state.rows(),
{
    let links = editor.links();
    links.lemma_parts();
    assert(links.buffers[at] == crate::editor::buffer_key(editor.buffers@[at]));
    links.lemma_buffer_at(at);
}

/// One request to replace an inclusive line range.
#[derive(Debug, PartialEq, Eq)]
pub struct LineReplaceRequest {
    /// Buffer whose lines are replaced.
    pub buffer: BufHandle,
    /// Inclusive one-based first replaced line.
    pub start: usize,
    /// Inclusive one-based last replaced line.
    pub end: usize,
    /// Replacement lines; none deletes the range.
    pub lines: Vec<Vec<u8>>,
    /// Cursor the edit leaves behind.
    pub cursor_after: Position,
}

/// Windows after the edits of a replayed block.
pub open spec fn replayed_windows(
    windows: Seq<WindowEntry>,
    buffer: BufHandle,
    edits: Seq<ReplayedEdit>,
    rows: Seq<Seq<u8>>,
) -> Seq<WindowEntry>
    decreases edits.len(),
{
    if edits.len() == 0 {
        windows
    } else {
        let last = edits.last();
        line_spliced_windows(
            replayed_windows(windows, buffer, edits.drop_last(), rows),
            buffer,
            last.start,
            last.old_count,
            last.lines@.len() as usize,
            rows,
        )
    }
}

/// What the edits of a replayed block tell the position tables.
pub open spec fn replayed_events(buffer: BufHandle, edits: Seq<ReplayedEdit>) -> Seq<HistoryEvent> {
    edits.map_values(
        |edit: ReplayedEdit|
            HistoryEvent::Splice {
                buffer,
                start: edit.start,
                old_count: edit.old_count,
                new_count: edit.lines@.len() as usize,
            },
    )
}

impl Editor {
    /// Nothing changed.
    pub open spec fn unchanged(&self, after: &Editor) -> bool {
        &&& after.buffers@ == self.buffers@
        &&& *after == (Editor { buffers: after.buffers, ..*self })
    }

    /// Lines of the buffer at `at` were replaced, so that its text is `rows`,
    /// and every position followed.
    pub open spec fn edits_lines(
        &self,
        after: &Editor,
        at: int,
        rows: Seq<Seq<u8>>,
        splice: (usize, usize, usize),
        position: Position,
    ) -> bool {
        let buffer = self.buffers@[at].handle;
        let (start, old_count, new_count) = splice;
        &&& after.buffers@ == self.buffers@.update(at, after.buffers@[at])
        &&& after.buffers@[at].handle == buffer
        &&& after.buffers@[at].state.edited_from(self.buffers@[at].state, rows)
        &&& after.windows@ == line_spliced_windows(
            self.windows@,
            buffer,
            start,
            old_count,
            new_count,
            rows,
        )
        &&& after.history@ == self.history@.push(
            HistoryEvent::Splice { buffer, start, old_count, new_count },
        ).push(HistoryEvent::Change { buffer, position })
        &&& *after == (Editor {
            buffers: after.buffers,
            windows: after.windows,
            history: after.history,
            ..*self
        })
        &&& after.links() == self.links()
    }

    /// Replaces buffer lines and moves every position along.
    ///
    /// # Errors
    ///
    /// [`EditorError::UnknownBuffer`] when the buffer is not live, or
    /// [`EditorError::Buffer`] when it is not loaded or the range is not one of
    /// its lines.
    pub fn replace_buffer_lines(&mut self, request: LineReplaceRequest) -> (result: Result<
        u64,
        EditorError,
    >)
        requires
            old(self).wf(),
        ensures
            final(self).wf(),
            if !old(self).has_buffer(request.buffer) {
                &&& result == Err::<u64, _>(EditorError::UnknownBuffer(request.buffer))
                &&& old(self).unchanged(final(self))
            } else {
                let at = old(self).links().buffer_at(request.buffer);
                let state = old(self).buffers@[at].state;
                let new_lines = crate::text::views(request.lines@);
                if state.lines is None {
                    &&& result == Err::<u64, _>(EditorError::Buffer(BufferStateError::Unloaded))
                    &&& old(self).unchanged(final(self))
                } else if !(1 <= request.start <= request.end <= state.rows().len()) {
                    &&& result == Err::<u64, _>(
                        EditorError::Buffer(BufferStateError::InvalidRange),
                    )
                    &&& old(self).unchanged(final(self))
                } else {
                    &&& result == Ok::<_, EditorError>(state.edit_seq())
                    &&& old(self).edits_lines(
                        final(self),
                        at,
                        crate::buffer::lines_replaced(
                            state.rows(),
                            request.start as int,
                            request.end as int,
                            new_lines,
                        ),
                        (
                            request.start,
                            (request.end - request.start + 1) as usize,
                            request.lines@.len() as usize,
                        ),
                        request.cursor_after,
                    )
                }
            },
    {
        let buffer = request.buffer;
        let at: usize = match self.find_buffer(buffer) {
            Some(at) => at,
            None => {
                return Err(EditorError::UnknownBuffer(buffer));
            },
        };
        let seq: u64 = match self.buffers[at].state.replace_lines(
            request.start,
            request.end,
            &request.lines,
        ) {
            Ok(seq) => seq,
            Err(error) => {
                assert(self.buffers@ =~= old(self).buffers@);
                proof {
                    crate::editor::lemma_tables_kept(*old(self), *self);
                }
                return Err(EditorError::Buffer(error));
            },
        };
        let ghost edited = *self;
        proof {
            crate::editor::lemma_tables_kept(*old(self), *self);
            let lines = old(self).buffers@[at as int].state.lines->0;
            assert(lines.len() <= usize::MAX);
            assert(old(self).buffers@[at as int].state.rows().len() == lines@.len());
        }
        let old_count: usize = request.end.saturating_sub(request.start).saturating_add(1);
        self.splice_positions(buffer, request.start, old_count, request.lines.len());
        self.history.push(HistoryEvent::Change { buffer, position: request.cursor_after });
        Ok(seq)
    }

    /// Inserts buffer lines behind line `after` and moves every position along.
    ///
    /// # Errors
    ///
    /// [`EditorError::UnknownBuffer`] when the buffer is not live, or
    /// [`EditorError::Buffer`] when it is not loaded or has no line `after`.
    pub fn append_buffer_lines(
        &mut self,
        buffer: BufHandle,
        after: usize,
        lines: &Vec<Vec<u8>>,
        cursor: Position,
    ) -> (result: Result<u64, EditorError>)
        requires
            old(self).wf(),
        ensures
            final(self).wf(),
            if !old(self).has_buffer(buffer) {
                &&& result == Err::<u64, _>(EditorError::UnknownBuffer(buffer))
                &&& old(self).unchanged(final(self))
            } else {
                let at = old(self).links().buffer_at(buffer);
                let state = old(self).buffers@[at].state;
                if state.lines is None {
                    &&& result == Err::<u64, _>(EditorError::Buffer(BufferStateError::Unloaded))
                    &&& old(self).unchanged(final(self))
                } else if after > state.rows().len() {
                    &&& result == Err::<u64, _>(
                        EditorError::Buffer(BufferStateError::InvalidRange),
                    )
                    &&& old(self).unchanged(final(self))
                } else {
                    &&& result == Ok::<_, EditorError>(state.edit_seq())
                    &&& old(self).edits_lines(
                        final(self),
                        at,
                        crate::buffer::lines_inserted(
                            state.rows(),
                            after as int,
                            crate::text::views(lines@),
                        ),
                        (crate::splice::sat(after + 1), 0, lines@.len() as usize),
                        Position {
                            lnum: crate::splice::sat(cursor.lnum + lines@.len()),
                            col: cursor.col,
                        },
                    )
                }
            },
    {
        let at: usize = match self.find_buffer(buffer) {
            Some(at) => at,
            None => {
                return Err(EditorError::UnknownBuffer(buffer));
            },
        };
        let seq: u64 = match self.buffers[at].state.insert_lines(after, lines) {
            Ok(seq) => seq,
            Err(error) => {
                assert(self.buffers@ =~= old(self).buffers@);
                proof {
                    crate::editor::lemma_tables_kept(*old(self), *self);
                }
                return Err(EditorError::Buffer(error));
            },
        };
        proof {
            crate::editor::lemma_tables_kept(*old(self), *self);
        }
        let start: usize = after.saturating_add(1);
        self.splice_positions(buffer, start, 0, lines.len());
        let position = Position {
            lnum: cursor.lnum.saturating_add(lines.len()),
            col: cursor.col,
        };
        self.history.push(HistoryEvent::Change { buffer, position });
        Ok(seq)
    }

    /// The buffer that text was typed into, after an edit of `buffer`.
    pub open spec fn text_edit_after(&self, buffer: BufHandle) -> Option<BufHandle> {
        if self.edit_mode == BufferEditMode::Insert && self.links().current_buffer() == Some(
            buffer,
        ) {
            Some(buffer)
        } else {
            self.active_text_edit
        }
    }

    /// Replaces one byte range and moves every position along, column by column
    /// where the change ends.
    ///
    /// # Errors
    ///
    /// Those of [`Editor::locate_buffer`], or [`EditorError::Buffer`] when the
    /// buffer is not loaded or the range does not lie within it.
    pub fn replace_buffer_text(
        &mut self,
        buffer: BufHandle,
        request: &BufferTextEditRequest,
        cursor_after: Position,
    ) -> (result: Result<u64, EditorError>)
        requires
            old(self).wf(),
        ensures
            final(self).wf(),
            match old(self).buffer_request(buffer) {
                Err(error) => result == Err::<u64, _>(error) && old(self).unchanged(final(self)),
                Ok(at) => {
                    let entry = old(self).buffers@[at];
                    if entry.state.lines is None {
                        &&& result == Err::<u64, _>(
                            EditorError::Buffer(BufferStateError::Unloaded),
                        )
                        &&& old(self).unchanged(final(self))
                    } else if !request.within(entry.state.rows()) {
                        &&& result == Err::<u64, _>(
                            EditorError::Buffer(BufferStateError::InvalidRange),
                        )
                        &&& old(self).unchanged(final(self))
                    } else {
                        let rows = request.applied(entry.state.rows());
                        &&& result == Ok::<_, EditorError>(entry.state.edit_seq())
                        &&& final(self).buffers@ == old(self).buffers@.update(
                            at,
                            final(self).buffers@[at],
                        )
                        &&& final(self).buffers@[at].handle == entry.handle
                        &&& final(self).buffers@[at].state.edited_from(entry.state, rows)
                        &&& final(self).windows@ == text_spliced_windows(
                            old(self).windows@,
                            entry.handle,
                            request.splice(),
                            rows,
                            old(self).inserting_into(entry.handle),
                        )
                        &&& crate::editor::edit_laws::cursors_follow(
                            old(self).windows@,
                            final(self).windows@,
                            entry.handle,
                            *request,
                            entry.state.rows(),
                            old(self).inserting_into(entry.handle),
                        )
                        &&& final(self).history@ == old(self).history@.push(
                            text_event(entry.handle, request.splice()),
                        ).push(
                            HistoryEvent::Change { buffer: entry.handle, position: cursor_after },
                        )
                        &&& *final(self) == (Editor {
                            buffers: final(self).buffers,
                            windows: final(self).windows,
                            history: final(self).history,
                            active_text_edit: old(self).text_edit_after(entry.handle),
                            ..*old(self)
                        })
                        &&& final(self).links() == old(self).links()
                    }
                },
            },
    {
        let at: usize = match self.locate_buffer(buffer) {
            Ok(at) => at,
            Err(error) => {
                return Err(error);
            },
        };
        let handle = self.buffers[at].handle;
        let splice = match self.buffers[at].state.prepare_buffer_text_edit(request) {
            Ok(splice) => splice,
            Err(error) => {
                return Err(EditorError::Buffer(error));
            },
        };
        let seq: u64 = match self.buffers[at].state.commit_buffer_text_edit(request) {
            Ok(seq) => seq,
            Err(error) => {
                return Err(EditorError::Buffer(error));
            },
        };
        proof {
            crate::editor::lemma_tables_kept(*old(self), *self);
            crate::buffer::lemma_edit_fits(
                *request,
                old(self).buffers@[at as int].state,
                self.buffers@[at as int].state,
            );
            lemma_buffer_place(*self, at as int);
        }
        let mut splices: Vec<TextSplice> = Vec::new();
        splices.push(splice);
        proof {
            lemma_one_splice(
                self.windows@,
                handle,
                splice,
                self.rows_of(handle),
                self.inserting_into(handle),
            );
            assert(splices@ =~= seq![splice]);
        }
        self.follow_text_edits(handle, &splices, cursor_after);
        proof {
            crate::editor::edit_laws::law_cursors_follow_the_text(
                old(self).windows@,
                handle,
                *request,
                old(self).buffers@[at as int].state.rows(),
                old(self).inserting_into(handle),
            );
        }
        Ok(seq)
    }

    /// Moves every position along after text edits of `buffer`, and records the
    /// change and the typed text.
    pub(crate) fn follow_text_edits(
        &mut self,
        buffer: BufHandle,
        splices: &Vec<TextSplice>,
        cursor_after: Position,
    )
        requires
            old(self).wf(),
            forall|i: int| 0 <= i < splices@.len() ==> (#[trigger] splices@[i]).fits(),
        ensures
            final(self).wf(),
            final(self).links() == old(self).links(),
            final(self).windows@ == all_text_spliced(
                old(self).windows@,
                buffer,
                splices@,
                old(self).rows_of(buffer),
                old(self).inserting_into(buffer),
            ),
            final(self).history@ == old(self).history@ + text_events(buffer, splices@) + seq![
                HistoryEvent::Change { buffer, position: cursor_after },
            ],
            *final(self) == (Editor {
                windows: final(self).windows,
                history: final(self).history,
                active_text_edit: old(self).text_edit_after(buffer),
                ..*old(self)
            }),
    {
        self.follow_splices(buffer, splices);
        let ghost spliced = self.history@;
        self.history.push(HistoryEvent::Change { buffer, position: cursor_after });
        assert(self.history@ =~= spliced + seq![
            HistoryEvent::Change { buffer, position: cursor_after },
        ]);
        if self.edit_mode == BufferEditMode::Insert && self.current_buffer() == Some(buffer) {
            self.active_text_edit = Some(buffer);
        }
    }

    /// Moves every position along after text edits of `buffer`.
    pub(crate) fn follow_splices(&mut self, buffer: BufHandle, splices: &Vec<TextSplice>)
        requires
            old(self).wf(),
            forall|i: int| 0 <= i < splices@.len() ==> (#[trigger] splices@[i]).fits(),
        ensures
            final(self).wf(),
            final(self).links() == old(self).links(),
            final(self).windows@ == all_text_spliced(
                old(self).windows@,
                buffer,
                splices@,
                old(self).rows_of(buffer),
                old(self).inserting_into(buffer),
            ),
            final(self).history@ == old(self).history@ + text_events(buffer, splices@),
            *final(self) == (Editor {
                windows: final(self).windows,
                history: final(self).history,
                ..*old(self)
            }),
    {
        let ghost rows = old(self).rows_of(buffer);
        let ghost inserting = old(self).inserting_into(buffer);
        let mut next: usize = 0;
        assert(self.history@ =~= old(self).history@ + text_events(buffer, splices@.take(0)));
        while next < splices.len()
            invariant
                self.wf(),
                self.links() == old(self).links(),
                next <= splices@.len(),
                rows == old(self).rows_of(buffer),
                self.rows_of(buffer) == rows,
                inserting == old(self).inserting_into(buffer),
                self.inserting_into(buffer) == inserting,
                forall|i: int| 0 <= i < splices@.len() ==> (#[trigger] splices@[i]).fits(),
                self.windows@ == all_text_spliced(
                    old(self).windows@,
                    buffer,
                    splices@.take(next as int),
                    rows,
                    inserting,
                ),
                self.history@ == old(self).history@ + text_events(
                    buffer,
                    splices@.take(next as int),
                ),
                *self == (Editor {
                    windows: self.windows,
                    history: self.history,
                    ..*old(self)
                }),
            decreases splices@.len() - next,
        {
            let splice = splices[next];
            self.splice_text_positions(buffer, splice);
            proof {
                let so_far = splices@.take(next + 1);
                assert(so_far.drop_last() =~= splices@.take(next as int));
                assert(so_far.last() == splice);
                assert(so_far =~= splices@.take(next as int).push(splice));
                assert(self.history@ =~= old(self).history@ + text_events(buffer, so_far));
            }
            next = next + 1;
        }
        assert(splices@.take(next as int) =~= splices@);
    }

    /// Adjusts the position tables and windows for one replayed undo block:
    /// every edit splices, and the block leaves one change at the last edit's
    /// cursor.
    pub fn finish_replay(&mut self, buffer: BufHandle, replayed: &Vec<ReplayedEdit>)
        requires
            old(self).wf(),
        ensures
            final(self).wf(),
            final(self).links() == old(self).links(),
            final(self).windows@ == replayed_windows(
                old(self).windows@,
                buffer,
                replayed@,
                old(self).rows_of(buffer),
            ),
            final(self).history@ == old(self).history@ + replayed_events(buffer, replayed@) + (
            if replayed@.len() > 0 {
                seq![HistoryEvent::Change { buffer, position: replayed@.last().cursor }]
            } else {
                Seq::empty()
            }),
            *final(self) == (Editor {
                windows: final(self).windows,
                history: final(self).history,
                ..*old(self)
            }),
    {
        let ghost rows = old(self).rows_of(buffer);
        let mut next: usize = 0;
        assert(replayed@.take(0) =~= Seq::empty());
        assert(self.history@ =~= old(self).history@ + replayed_events(buffer, replayed@.take(0)));
        while next < replayed.len()
            invariant
                self.wf(),
                self.links() == old(self).links(),
                next <= replayed@.len(),
                rows == old(self).rows_of(buffer),
                self.rows_of(buffer) == rows,
                self.windows@ == replayed_windows(
                    old(self).windows@,
                    buffer,
                    replayed@.take(next as int),
                    rows,
                ),
                self.history@ == old(self).history@ + replayed_events(
                    buffer,
                    replayed@.take(next as int),
                ),
                *self == (Editor {
                    windows: self.windows,
                    history: self.history,
                    ..*old(self)
                }),
            decreases replayed@.len() - next,
        {
            let edit = &replayed[next];
            self.splice_positions(buffer, edit.start, edit.old_count, edit.lines.len());
            proof {
                let so_far = replayed@.take(next + 1);
                assert(so_far.drop_last() =~= replayed@.take(next as int));
                assert(so_far.last() == *edit);
                assert(so_far =~= replayed@.take(next as int).push(*edit));
                assert(self.history@ =~= old(self).history@ + replayed_events(buffer, so_far));
            }
            next = next + 1;
        }
        assert(replayed@.take(next as int) =~= replayed@);
        if replayed.len() > 0 {
            let position = replayed[replayed.len() - 1].cursor;
            self.history.push(HistoryEvent::Change { buffer, position });
        }
        assert(self.history@ =~= old(self).history@ + replayed_events(buffer, replayed@) + (
        if replayed@.len() > 0 {
            seq![HistoryEvent::Change { buffer, position: replayed@.last().cursor }]
        } else {
            Seq::empty()
        }));
    }

    /// Adjusts a buffer position for a byte-level text edit that was made, the
    /// way the cursor of a window is adjusted. A position in a buffer that is
    /// not live or not loaded stays.
    #[must_use]
    pub fn adjust_position_for_text_edit(
        &self,
        buffer: BufHandle,
        position: Position,
        request: &BufferTextEditRequest,
        block: bool,
    ) -> (adjusted: Position)
        requires
            self.wf(),
            request.start.at_or_before(request.end),
            request.splice().fits(),
        ensures
            ({
                let rows = self.rows_of(buffer);
                let splice = request.splice();
                let end_row = crate::types::end_row(splice.start, splice.new_extent);
                let moved = crate::splice::text_cursor_move(
                    ExtmarkPosition {
                        row: crate::splice::sat(position.lnum - 1),
                        column: position.col,
                    },
                    0,
                    splice,
                    if end_row < rows.len() {
                        rows[end_row].len() as int
                    } else {
                        0
                    },
                    block,
                );
                adjusted == if self.has_buffer(buffer) && self.buffer_state(buffer).lines is Some {
                    Position {
                        lnum: crate::splice::sat(crate::splice::sat(moved.row) + 1),
                        col: crate::splice::sat(moved.column),
                    }
                } else {
                    position
                }
            }),
    {
        let at: usize = match self.find_buffer(buffer) {
            Some(at) => at,
            None => {
                return position;
            },
        };
        if self.buffers[at].state.lines.is_none() {
            return position;
        }
        let splice = request.text_splice();
        let end_len: usize = match self.shown_line_length(buffer, splice.new_end().row + 1) {
            Some(length) => length,
            None => 0,
        };
        let cursor = ExtmarkPosition::new(position.lnum.saturating_sub(1), position.col);
        let (moved, _) = adjust_text_cursor(cursor, 0, splice, end_len, block);
        Position { lnum: moved.row.saturating_add(1), col: moved.column }
    }

    /// Adjusts a buffer position for a line-level edit that was made.
    #[must_use]
    pub fn adjust_position_for_line_edit(
        &self,
        buffer: BufHandle,
        position: Position,
        start: usize,
        old_count: usize,
        new_count: usize,
    ) -> (adjusted: Position)
        requires
            self.wf(),
        ensures
            adjusted.col == position.col,
            adjusted.lnum == crate::splice::sat(
                crate::splice::spliced_line(
                    position.lnum as int,
                    start as int,
                    old_count as int,
                    new_count as int,
                    match self.buffer_request(buffer) {
                        Ok(at) => self.buffers@[at].state.rows().len() as int,
                        Err(_) => 0,
                    },
                ),
            ),
    {
        let line_count: usize = match self.locate_buffer(buffer) {
            Ok(at) => match self.buffers[at].state.line_count() {
                Ok(count) => count,
                Err(_) => 0,
            },
            Err(_) => 0,
        };
        let mut adjusted = position;
        splice_position(&mut adjusted, start, old_count, new_count, line_count);
        adjusted
    }

    /// Replaces the live prompt line without adding the replacement to undo
    /// history, and moves every position along. `old_len` and `new_len` are the
    /// lengths of the prompt before and after.
    ///
    /// # Errors
    ///
    /// [`EditorError::UnknownBuffer`] when the buffer is not live, or
    /// [`EditorError::Buffer`] when it is not loaded or has no such line.
    pub fn replace_prompt_line(
        &mut self,
        buffer: BufHandle,
        lnum: usize,
        line: Vec<u8>,
        old_len: usize,
        new_len: usize,
    ) -> (result: Result<(), EditorError>)
        requires
            old(self).wf(),
        ensures
            final(self).wf(),
            if !old(self).has_buffer(buffer) {
                &&& result == Err::<(), _>(EditorError::UnknownBuffer(buffer))
                &&& old(self).unchanged(final(self))
            } else {
                let at = old(self).links().buffer_at(buffer);
                let state = old(self).buffers@[at].state;
                let shown = final(self).buffers@[at].state;
                let splice = TextSplice {
                    start: ExtmarkPosition { row: crate::splice::sat(lnum - 1), column: 0 },
                    old_extent: TextExtent { rows: 0, columns: old_len },
                    new_extent: TextExtent { rows: 0, columns: new_len },
                };
                if state.lines is None {
                    &&& result == Err::<(), _>(EditorError::Buffer(BufferStateError::Unloaded))
                    &&& old(self).unchanged(final(self))
                } else if !(1 <= lnum <= state.rows().len()) {
                    &&& result == Err::<(), _>(EditorError::Buffer(BufferStateError::InvalidRange))
                    &&& old(self).unchanged(final(self))
                } else {
                    &&& result == Ok::<(), EditorError>(())
                    &&& final(self).buffers@ == old(self).buffers@.update(
                        at,
                        final(self).buffers@[at],
                    )
                    &&& final(self).buffers@[at].handle == buffer
                    &&& shown.lines is Some
                    &&& shown.rows() == state.rows().update(lnum - 1, line@)
                    &&& shown == (BufferState {
                        lines: shown.lines,
                        changedtick: crate::buffer::bumped(state.changedtick),
                        ..state
                    })
                    &&& final(self).windows@ == text_spliced_windows(
                        old(self).windows@,
                        buffer,
                        splice,
                        shown.rows(),
                        old(self).inserting_into(buffer),
                    )
                    &&& final(self).history@ == old(self).history@.push(
                        text_event(buffer, splice),
                    )
                    &&& *final(self) == (Editor {
                        buffers: final(self).buffers,
                        windows: final(self).windows,
                        history: final(self).history,
                        ..*old(self)
                    })
                }
            },
    {
        let at: usize = match self.find_buffer(buffer) {
            Some(at) => at,
            None => {
                return Err(EditorError::UnknownBuffer(buffer));
            },
        };
        let splice = TextSplice {
            start: ExtmarkPosition::new(lnum.saturating_sub(1), 0),
            old_extent: TextExtent::new(0, old_len),
            new_extent: TextExtent::new(0, new_len),
        };
        match self.buffers[at].state.replace_prompt_line(lnum, line) {
            Ok(()) => {},
            Err(error) => {
                assert(self.buffers@ =~= old(self).buffers@);
                proof {
                    crate::editor::lemma_tables_kept(*old(self), *self);
                }
                return Err(EditorError::Buffer(error));
            },
        }
        proof {
            crate::editor::lemma_tables_kept(*old(self), *self);
        }
        self.splice_text_positions(buffer, splice);
        Ok(())
    }

    /// Sets the edit mode; another mode ends the session of typed text.
    pub fn set_edit_mode(&mut self, mode: BufferEditMode)
        requires
            old(self).wf(),
        ensures
            final(self).wf(),
            *final(self) == (Editor {
                edit_mode: mode,
                active_text_edit: if old(self).edit_mode != mode {
                    None
                } else {
                    old(self).active_text_edit
                },
                ..*old(self)
            }),
    {
        if self.edit_mode != mode {
            self.active_text_edit = None;
        }
        self.edit_mode = mode;
    }

    /// Whether this buffer has recorded text in the current insert session.
    #[must_use]
    pub fn has_active_text_edit(&self, buffer: BufHandle) -> (active: bool)
        requires
            self.wf(),
        ensures
            active == (self.edit_mode == BufferEditMode::Insert && self.links().current_buffer()
                == Some(buffer) && self.active_text_edit == Some(buffer)),
    {
        self.edit_mode == BufferEditMode::Insert && self.current_buffer() == Some(buffer)
            && self.active_text_edit == Some(buffer)
    }
}

} // verus!
