//! Where the cursor is on the screen.

use vstd::prelude::*;

use crate::buffer::BufferStateError;
use crate::editor::Editor;
use crate::errors::EditorError;
use crate::splice::{max_of, min_of, wrapped_line_rows};
use crate::types::WinHandle;

verus! {

/// A cell within a window.
#[derive(Clone, Copy, Debug, PartialEq, Eq, Structural)]
pub struct CursorScreenPosition {
    /// Rows below the window's first.
    pub row: usize,
    /// Columns right of the window's first.
    pub col: usize,
}

/// What a float's position is relative to.
#[derive(Clone, Copy, Debug, PartialEq, Eq, Structural)]
pub enum RelativeTo {
    /// The whole screen.
    Editor,
    /// A window.
    Window,
    /// The cursor of a window.
    Cursor,
}

impl Default for CursorScreenPosition {
    fn default() -> (position: Self)
        ensures
            position == (CursorScreenPosition { row: 0, col: 0 }),
    {
        CursorScreenPosition { row: 0, col: 0 }
    }
}

/// Rows that a line of `cells` cells takes in a window `width` wide.
pub open spec fn rows_for(cells: int, width: int) -> int {
    if cells <= width {
        1
    } else {
        (cells + width - 1) / width
    }
}

/// Rows that lines take together.
pub open spec fn rows_above(cells: Seq<usize>, width: int) -> int
    decreases cells.len(),
{
    if cells.len() == 0 {
        0
    } else {
        rows_above(cells.drop_last(), width) + rows_for(cells.last() as int, width)
    }
}

/// [`wrapped_line_rows`] counts as [`rows_for`].
proof fn lemma_rows_for(cells: int, width: int, rows: int)
    requires
        cells >= 0,
        width > 0,
        rows >= 1,
        cells <= rows * width,
        rows > 1 ==> (rows - 1) * width < cells,
    ensures
        rows == rows_for(cells, width),
{
    if rows == 1 {
        assert(rows * width == width) by (nonlinear_arith)
            requires
                rows == 1,
        ;
    } else {
        assert((rows - 1) * width == rows * width - width) by (nonlinear_arith);
        assert(cells > width) by (nonlinear_arith)
            requires
                rows > 1,
                width > 0,
                (rows - 1) * width < cells,
        ;
        let extra = cells + width - 1 - rows * width;
        assert(0 <= extra < width);
        assert(cells + width - 1 == width * rows + extra) by (nonlinear_arith)
            requires
                extra == cells + width - 1 - rows * width,
        ;
        vstd::arithmetic::div_mod::lemma_fundamental_div_mod_converse(
            cells + width - 1,
            width,
            rows,
            extra,
        );
    }
}

/// The first line whose rows count for the cursor's: the topline, but not below
/// the cursor.
pub open spec fn first_counted_line(topline: int, cursor: int) -> int {
    crate::splice::larger(crate::splice::smaller(topline, cursor), 1)
}

/// The cursor's cell within its window. `column` is the cursor's virtual column
/// and `above` holds the cells of the lines between the first counted one and
/// the cursor's. Without wrapping every line takes one row.
pub open spec fn screen_position(
    topline: int,
    cursor: int,
    column: int,
    above: Seq<usize>,
    width: int,
    wrap: bool,
) -> (int, int) {
    if !wrap || width == 0 {
        (crate::splice::larger(cursor - topline, 0), column)
    } else {
        (rows_above(above, width) + column / width, column % width)
    }
}

/// What a character takes on the screen.
#[derive(Clone, Copy, Debug, PartialEq, Eq, Structural)]
pub enum Glyph {
    /// A tab, which reaches to the next tab stop.
    Tab,
    /// A number of cells.
    Cells(usize),
}

/// The column behind characters that start at the first column, with a tab stop
/// every `tabstop` columns.
pub open spec fn cells_taken(glyphs: Seq<Glyph>, tabstop: int) -> int
    decreases glyphs.len(),
{
    if glyphs.len() == 0 {
        0
    } else {
        let before = cells_taken(glyphs.drop_last(), tabstop);
        match glyphs.last() {
            Glyph::Tab => before + tabstop - before % tabstop,
            Glyph::Cells(cells) => before + cells,
        }
    }
}

/// The column behind characters that start at the first column; the largest
/// number when it is beyond. See [`cells_taken`].
#[must_use]
pub fn count_cells(glyphs: &Vec<Glyph>, tabstop: usize) -> (cells: usize)
    requires
        tabstop > 0,
    ensures
        cells == crate::splice::sat(cells_taken(glyphs@, tabstop as int)),
{
    let mut cells: usize = 0;
    let mut next: usize = 0;
    assert(glyphs@.take(0) =~= Seq::empty());
    while next < glyphs.len()
        invariant
            tabstop > 0,
            next <= glyphs@.len(),
            cells_taken(glyphs@.take(next as int), tabstop as int) >= 0,
            cells == crate::splice::sat(cells_taken(glyphs@.take(next as int), tabstop as int)),
        decreases glyphs@.len() - next,
    {
        proof {
            let here = glyphs@.take(next + 1);
            let before = cells_taken(glyphs@.take(next as int), tabstop as int);
            assert(here.drop_last() =~= glyphs@.take(next as int));
            assert(here.last() == glyphs@[next as int]);
            let stop = tabstop as int;
            assert(0 <= before % stop && before % stop < stop) by (nonlinear_arith)
                requires
                    stop > 0,
            ;
        }
        match glyphs[next] {
            Glyph::Tab => {
                if cells < usize::MAX {
                    cells = cells.saturating_add(tabstop - cells % tabstop);
                }
            },
            Glyph::Cells(more) => {
                cells = cells.saturating_add(more);
            },
        }
        next = next + 1;
    }
    assert(glyphs@.take(next as int) =~= glyphs@);
    cells
}

/// The distance of tab stops for a buffer: its own `'tabstop'` when that is
/// positive, else the global one. Eight stands for a number that is no distance.
pub open spec fn tab_distance(own: int, global: int) -> int {
    let chosen = if own > 0 {
        own
    } else {
        global
    };
    if 0 < chosen <= usize::MAX {
        chosen
    } else {
        8
    }
}

fn distance_of(own: i64, global: i64) -> (distance: usize)
    ensures
        distance == tab_distance(own as int, global as int),
        distance > 0,
{
    let chosen: i64 = if own > 0 {
        own
    } else {
        global
    };
    if chosen > 0 && chosen as u64 <= usize::MAX as u64 {
        chosen as usize
    } else {
        8
    }
}

impl Editor {
    /// The distance of tab stops in a window.
    ///
    /// # Errors
    ///
    /// Those of [`Editor::locate_window`].
    pub fn window_tabstop(&self, window: WinHandle) -> (tabstop: Result<usize, EditorError>)
        requires
            self.wf(),
        ensures
            match self.window_request(window) {
                Ok(at) => {
                    &&& tabstop is Ok
                    &&& tabstop->Ok_0 == tab_distance(
                        self.buffer_state(self.windows@[at].state.buffer).options.tabstop as int,
                        self.buffer_defaults.tabstop as int,
                    )
                    &&& tabstop->Ok_0 > 0
                },
                Err(error) => tabstop == Err::<usize, _>(error),
            },
    {
        let at: usize = match self.locate_window(window) {
            Ok(at) => at,
            Err(error) => {
                return Err(error);
            },
        };
        proof {
            crate::editor::windows::lemma_window_tab(*self, at as int);
        }
        let own: i64 = match self.find_buffer(self.windows[at].state.buffer) {
            Some(b) => self.buffers[b].state.options.tabstop,
            None => 0,
        };
        Ok(distance_of(own, self.buffer_defaults.tabstop))
    }

    /// The cursor's cell within its window, as row and column, or why there is
    /// none: the cursor's line has to be in the text.
    pub open spec fn cursor_place(
        &self,
        window: WinHandle,
        cells: usize,
        above: Seq<usize>,
    ) -> Result<(int, int), EditorError> {
        match self.window_request(window) {
            Ok(at) => {
                let entry = self.windows@[at];
                let lnum = entry.state.cursor.lnum;
                if !(1 <= lnum <= self.buffer_state(entry.state.buffer).rows().len()) {
                    Err(EditorError::Buffer(BufferStateError::InvalidRange))
                } else {
                    Ok(
                        screen_position(
                            entry.state.topline as int,
                            lnum as int,
                            crate::splice::sat(
                                cells + crate::splice::larger(entry.state.coladd as int, 0),
                            ) as int,
                            above,
                            entry.area.geometry.width as int,
                            entry.options.wrap,
                        ),
                    )
                }
            },
            Err(error) => Err(error),
        }
    }

    /// Lines whose cells [`Editor::cursor_screen_position`] needs: from the
    /// first counted line up to the cursor's, exclusive.
    ///
    /// # Errors
    ///
    /// Those of [`Editor::locate_window`].
    pub fn lines_above_cursor(&self, window: WinHandle) -> (lines: Result<
        (usize, usize),
        EditorError,
    >)
        requires
            self.wf(),
        ensures
            match self.window_request(window) {
                Ok(at) => {
                    let state = self.windows@[at].state;
                    &&& lines is Ok
                    &&& (lines->Ok_0).0 == first_counted_line(
                        state.topline as int,
                        state.cursor.lnum as int,
                    )
                    &&& (lines->Ok_0).1 == state.cursor.lnum
                },
                Err(error) => lines is Err && lines->Err_0 == error,
            },
    {
        match self.locate_window(window) {
            Ok(at) => {
                let state = &self.windows[at].state;
                let first: usize = max_of(min_of(state.topline, state.cursor.lnum), 1);
                Ok((first, state.cursor.lnum))
            },
            Err(error) => Err(error),
        }
    }

    /// The cursor's rendered cell within its window. `cells` is the cursor's
    /// column in cells without its virtual ones, and `above` the cells of each
    /// of the lines that [`Editor::lines_above_cursor`] names.
    ///
    /// # Errors
    ///
    /// Those of [`Editor::locate_window`], or [`EditorError::Buffer`] when the
    /// cursor's line is not in the text.
    pub fn cursor_screen_position(
        &self,
        window: WinHandle,
        cells: usize,
        above: &Vec<usize>,
    ) -> (position: Result<CursorScreenPosition, EditorError>)
        requires
            self.wf(),
        ensures
            match self.cursor_place(window, cells, above@) {
                Ok(place) => {
                    &&& position is Ok
                    &&& position->Ok_0.row == crate::splice::sat(place.0)
                    &&& position->Ok_0.col == place.1
                },
                Err(error) => position is Err && position->Err_0 == error,
            },
    {
        let at: usize = match self.locate_window(window) {
            Ok(at) => at,
            Err(error) => {
                return Err(error);
            },
        };
        proof {
            crate::editor::windows::lemma_window_tab(*self, at as int);
        }
        let count: usize = match self.find_buffer(self.windows[at].state.buffer) {
            Some(b) => {
                proof {
                    crate::editor::windows::lemma_shown_counts(*self, at as int, b as int);
                }
                match &self.buffers[b].state.lines {
                    Some(lines) => lines.len(),
                    None => 0,
                }
            },
            None => 0,
        };
        let lnum: usize = self.windows[at].state.cursor.lnum;
        if lnum < 1 || lnum > count {
            return Err(EditorError::Buffer(BufferStateError::InvalidRange));
        }
        let state = &self.windows[at].state;
        let coladd: usize = if state.coladd <= 0 {
            0
        } else if state.coladd as u64 <= usize::MAX as u64 {
            state.coladd as usize
        } else {
            usize::MAX
        };
        let column: usize = cells.saturating_add(coladd);
        let width: usize = self.windows[at].area.geometry.width;
        if !self.windows[at].options.wrap || width == 0 {
            return Ok(
                CursorScreenPosition {
                    row: state.cursor.lnum.saturating_sub(state.topline),
                    col: column,
                },
            );
        }
        let mut row: usize = 0;
        let mut next: usize = 0;
        assert(above@.take(0) =~= Seq::empty());
        while next < above.len()
            invariant
                width > 0,
                next <= above@.len(),
                row == crate::splice::sat(rows_above(above@.take(next as int), width as int)),
                rows_above(above@.take(next as int), width as int) >= 0,
            decreases above@.len() - next,
        {
            let count: usize = wrapped_line_rows(above[next], width);
            proof {
                let here = above@.take(next + 1);
                assert(here.drop_last() =~= above@.take(next as int));
                assert(here.last() == above@[next as int]);
                lemma_rows_for(above@[next as int] as int, width as int, count as int);
            }
            row = row.saturating_add(count);
            next = next + 1;
        }
        assert(above@.take(next as int) =~= above@);
        assert(column as int / width as int >= 0) by (nonlinear_arith)
            requires
                column >= 0,
                width > 0,
        ;
        row = row.saturating_add(column / width);
        Ok(CursorScreenPosition { row, col: column % width })
    }

    /// The position that a float keeps when it is configured: that of the
    /// anchor's cursor for a cursor-relative one with an anchor, and otherwise
    /// the window's first cell. `cells` and `above` are as in
    /// [`Editor::cursor_screen_position`].
    ///
    /// # Errors
    ///
    /// Those of [`Editor::cursor_screen_position`] for the anchor.
    pub fn cursor_position_for_float(
        &self,
        relative: RelativeTo,
        anchor: Option<WinHandle>,
        cells: usize,
        above: &Vec<usize>,
    ) -> (position: Result<CursorScreenPosition, EditorError>)
        requires
            self.wf(),
        ensures
            match anchor {
                Some(window) if relative == RelativeTo::Cursor => match self.cursor_place(
                    window,
                    cells,
                    above@,
                ) {
                    Ok(place) => {
                        &&& position is Ok
                        &&& position->Ok_0.row == crate::splice::sat(place.0)
                        &&& position->Ok_0.col == place.1
                    },
                    Err(error) => position is Err && position->Err_0 == error,
                },
                _ => position == Ok::<_, EditorError>(CursorScreenPosition { row: 0, col: 0 }),
            },
    {
        match anchor {
            Some(window) => if relative == RelativeTo::Cursor {
                self.cursor_screen_position(window, cells, above)
            } else {
                Ok(CursorScreenPosition::default())
            },
            None => Ok(CursorScreenPosition::default()),
        }
    }
}

/// A cursor's cell is within the window's width when lines wrap.
pub proof fn law_wrapped_cursor_is_inside(
    topline: int,
    cursor: int,
    column: int,
    above: Seq<usize>,
    width: int,
)
    requires
        width > 0,
        column >= 0,
    ensures
        0 <= screen_position(topline, cursor, column, above, width, true).1 < width,
{
    vstd::arithmetic::div_mod::lemma_fundamental_div_mod(column, width);
    assert(0 <= column % width < width) by (nonlinear_arith)
        requires
            width > 0,
    ;
}

} // verus!
