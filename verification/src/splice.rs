//! How cursors, viewports and one-based lines move when text is replaced.

use vstd::prelude::*;

use crate::types::{ExtmarkPosition, Position, TextSplice};

verus! {

/// `value` held within the machine range.
pub open spec fn sat(value: int) -> usize {
    if value < 0 {
        0
    } else if value > usize::MAX {
        usize::MAX
    } else {
        value as usize
    }
}

/// The larger of two numbers.
pub open spec fn larger(a: int, b: int) -> int {
    if a >= b {
        a
    } else {
        b
    }
}

/// The smaller of two numbers.
pub open spec fn smaller(a: int, b: int) -> int {
    if a <= b {
        a
    } else {
        b
    }
}

/// The larger of two machine numbers.
pub fn max_of(a: usize, b: usize) -> (max: usize)
    ensures
        max == larger(a as int, b as int),
{
    if a >= b {
        a
    } else {
        b
    }
}

/// The smaller of two machine numbers.
pub fn min_of(a: usize, b: usize) -> (min: usize)
    ensures
        min == smaller(a as int, b as int),
{
    if a <= b {
        a
    } else {
        b
    }
}

/// Zero-based index of a one-based script number: none below one.
#[must_use]
pub fn one_based_index(number: i64) -> (index: Option<usize>)
    ensures
        index == (if 1 <= number && number <= usize::MAX {
            Some((number - 1) as usize)
        } else {
            None
        }),
{
    if number >= 1 && number as u64 <= usize::MAX as u64 {
        Some((number as u64 - 1) as usize)
    } else {
        None
    }
}

/// Screen rows that a line of `cells` cells takes in a window of `width`
/// columns: enough rows to hold the cells, and at least one.
#[must_use]
pub fn wrapped_line_rows(cells: usize, width: usize) -> (rows: usize)
    requires
        width > 0,
    ensures
        rows >= 1,
        cells <= rows * width,
        rows > 1 ==> (rows - 1) * width < cells,
{
    let full: usize = cells / width;
    proof {
        vstd::arithmetic::div_mod::lemma_fundamental_div_mod(cells as int, width as int);
        assert(full * width == width * full) by (nonlinear_arith);
        assert((full + 1) * width == full * width + width) by (nonlinear_arith);
        assert(full <= cells) by (nonlinear_arith)
            requires
                width > 0,
                width * full <= cells,
                full >= 0,
        ;
    }
    if cells % width != 0 {
        assert(full < cells) by (nonlinear_arith)
            requires
                width > 0,
                width * full < cells,
                full >= 0,
        ;
        full + 1
    } else if full == 0 {
        1
    } else {
        assert((full - 1) * width == full * width - width) by (nonlinear_arith);
        full
    }
}

/// The first line to display so that `cursor` shows in `height` rows: the
/// present `topline` if the cursor already shows, else the nearest that works.
pub open spec fn visible_topline(topline: int, cursor: int, height: int) -> int {
    let first = larger(topline, 1);
    if cursor < first {
        larger(cursor, 1)
    } else if cursor >= first + height {
        larger(cursor - larger(height - 1, 0), 1)
    } else {
        first
    }
}

/// Moves `topline` as little as shows the cursor.
#[must_use]
pub fn cursor_visible_topline(topline: usize, cursor: usize, height: usize) -> (first: usize)
    ensures
        first == visible_topline(topline as int, cursor as int, height as int),
{
    let topline: usize = max_of(topline, 1);
    if cursor < topline {
        max_of(cursor, 1)
    } else if cursor >= topline && cursor - topline >= height {
        let above: usize = if height > 0 {
            height - 1
        } else {
            0
        };
        max_of(cursor.saturating_sub(above), 1)
    } else {
        topline
    }
}

/// The line that line `lnum` becomes when `old_count` lines from `start` are
/// replaced by `new_count` lines and the buffer then has `line_count` lines:
/// earlier lines stay, later ones shift, replaced ones stay within the buffer.
pub open spec fn spliced_line(
    lnum: int,
    start: int,
    old_count: int,
    new_count: int,
    line_count: int,
) -> int {
    if lnum < start {
        lnum
    } else if lnum >= sat(start + old_count) {
        if new_count >= old_count {
            lnum + (new_count - old_count)
        } else {
            larger(lnum - (old_count - new_count), 1)
        }
    } else if old_count > new_count {
        larger(smaller(lnum, line_count), 1)
    } else {
        lnum
    }
}

/// Moves a position for a replacement of whole lines.
pub fn splice_position(
    position: &mut Position,
    start: usize,
    old_count: usize,
    new_count: usize,
    line_count: usize,
)
    ensures
        final(position).col == old(position).col,
        final(position).lnum == sat(
            spliced_line(
                old(position).lnum as int,
                start as int,
                old_count as int,
                new_count as int,
                line_count as int,
            ),
        ),
{
    let old_end: usize = start.saturating_add(old_count);
    if position.lnum < start {
        return;
    }
    if position.lnum >= old_end {
        position.lnum = if new_count >= old_count {
            position.lnum.saturating_add(new_count - old_count)
        } else {
            max_of(position.lnum.saturating_sub(old_count - new_count), 1)
        };
        return;
    }
    if old_count > new_count {
        position.lnum = max_of(min_of(position.lnum, line_count), 1);
    }
}

/// Whether a topline splice came from exclusive-end line edits or
/// inclusive-end text edits. The two count the replaced rows differently.
#[derive(Clone, Copy, Debug, PartialEq, Eq, Structural)]
pub enum ToplineSpliceKind {
    /// Line edits: the last replaced line is `start + old_count - 1`.
    Lines,
    /// Text edits: the row that the edit ends on survives, so the last
    /// replaced line is `start + old_count - 2`.
    Text,
}

/// Viewport and splice geometry for [`splice_topline`].
#[derive(Clone, Copy, Debug, PartialEq, Eq, Structural)]
pub struct ToplineSplice {
    /// First displayed line before the splice.
    pub topline: usize,
    /// Cursor line after the splice.
    pub cursor: usize,
    /// Text rows of the window.
    pub height: usize,
    /// Lines of the buffer after the splice.
    pub line_count: usize,
    /// First replaced line, one-based.
    pub start: usize,
    /// How many lines were replaced.
    pub old_count: usize,
    /// How many lines replace them.
    pub new_count: usize,
    /// What kind of edit it was.
    pub kind: ToplineSpliceKind,
}

impl ToplineSplice {
    /// How far the last replaced line is below `start + old_count`.
    pub open spec fn end_offset(self) -> int {
        match self.kind {
            ToplineSpliceKind::Lines => 1,
            ToplineSpliceKind::Text => 2,
        }
    }

    /// The last replaced line; below `start` for a pure insertion.
    pub open spec fn last_replaced(self) -> int {
        larger(sat(self.start + self.old_count) - self.end_offset(), 0)
    }

    /// Where the topline goes as if it were a mark. Inside the replaced lines
    /// it stays when enough lines replace them and otherwise falls back to the
    /// line above; behind them it shifts with the text; a topline exactly at an
    /// insertion stays, so that the new line shows.
    pub open spec fn mark_adjusted(self) -> int {
        let last = self.last_replaced();
        let correction: int = if last < self.start {
            1
        } else {
            0
        };
        if self.start <= self.topline <= last && self.old_count > 0 {
            if self.new_count > self.end_offset() - 1 {
                self.topline as int
            } else {
                larger(self.start - 1, 1)
            }
        } else if !(self.start <= self.topline <= last) && self.topline > last + correction {
            if self.new_count >= self.old_count {
                self.topline + (self.new_count - self.old_count)
            } else {
                larger(self.topline - (self.old_count - self.new_count), 1)
            }
        } else {
            self.topline as int
        }
    }

    /// The topline after the splice: adjusted as a mark, held within the
    /// buffer, and then scrolled to show the cursor unless the cursor is above
    /// the splice.
    pub open spec fn result(self) -> int {
        let mapped = larger(smaller(self.mark_adjusted(), self.line_count as int), 1);
        if self.cursor < self.start {
            mapped
        } else {
            visible_topline(mapped, self.cursor as int, self.height as int)
        }
    }
}

/// The first line to display after a splice. See [`ToplineSplice::result`].
#[must_use]
pub fn splice_topline(splice: ToplineSplice) -> (topline: usize)
    ensures
        topline == smaller(splice.result(), usize::MAX as int),
        topline >= 1,
{
    let ToplineSplice {
        topline,
        cursor,
        height,
        line_count,
        start,
        old_count,
        new_count,
        kind,
    } = splice;
    let old_end: usize = start.saturating_add(old_count);
    let line2_offset: usize = match kind {
        ToplineSpliceKind::Lines => 1,
        ToplineSpliceKind::Text => 2,
    };
    let line2: usize = old_end.saturating_sub(line2_offset);
    let replacement_threshold: usize = line2_offset - 1;
    let mapped: usize = if topline >= start && topline <= line2 {
        if old_count > 0 {
            if new_count > replacement_threshold {
                topline
            } else {
                max_of(start.saturating_sub(1), 1)
            }
        } else {
            topline
        }
    } else {
        let past_insertion: bool = if line2 < start {
            topline > line2 && topline - line2 > 1
        } else {
            topline > line2
        };
        if past_insertion {
            if new_count >= old_count {
                topline.saturating_add(new_count - old_count)
            } else {
                max_of(topline.saturating_sub(old_count - new_count), 1)
            }
        } else {
            topline
        }
    };
    let mapped: usize = max_of(min_of(mapped, line_count), 1);
    if cursor < start {
        mapped
    } else {
        cursor_visible_topline(mapped, cursor, height)
    }
}

/// How a splice moves a cursor, in numbers that need not fit the machine.
pub struct TextCursorMove {
    pub row: int,
    pub column: int,
    pub coladd: int,
}

/// Rows that a splice adds (or, negative, takes away).
pub open spec fn row_delta(splice: TextSplice) -> int {
    splice.new_extent.rows - splice.old_extent.rows
}

/// A row behind the edit shifts with the text, not above the first.
pub open spec fn shifted_row(row: int, splice: TextSplice) -> int {
    larger(row + row_delta(splice), 0)
}

/// The column that the replacement ends before.
pub open spec fn change_end(splice: TextSplice) -> int {
    crate::types::end_column(splice.start, splice.new_extent)
}

/// Where a cursor goes when `splice` is applied, `new_end_row_len` being the
/// length of the row that the replacement ends on.
///
/// A cursor above the edit stays. One below it shifts rows. One behind it on
/// its last row also keeps its distance to the end of the edit; in insert mode
/// a cursor at the very end already counts as inside. One inside moves up to
/// the replacement's last row if its own is gone, and there no further than the
/// replacement's end; a normal-mode cursor ends up on the last replaced
/// character.
pub open spec fn text_cursor_move(
    cursor: ExtmarkPosition,
    coladd: int,
    splice: TextSplice,
    new_end_row_len: int,
    insert_current: bool,
) -> TextCursorMove {
    let last_row = crate::types::end_row(splice.start, splice.old_extent);
    let last_col = crate::types::end_column(splice.start, splice.old_extent);
    let beside: int = if insert_current {
        0
    } else {
        1
    };
    if cursor.row < splice.start.row {
        TextCursorMove { row: cursor.row as int, column: cursor.column as int, coladd }
    } else if cursor.row > last_row {
        TextCursorMove {
            row: shifted_row(cursor.row as int, splice),
            column: cursor.column as int,
            coladd,
        }
    } else if cursor.row == last_row && cursor.column + beside > last_col {
        TextCursorMove {
            row: shifted_row(cursor.row as int, splice),
            column: larger(cursor.column + (change_end(splice) - last_col), 0),
            coladd,
        }
    } else {
        let new_row = crate::types::end_row(splice.start, splice.new_extent);
        let row = smaller(cursor.row as int, new_row);
        let reached = if cursor.row > new_row {
            larger(sat(cursor.column + coladd) as int, new_end_row_len)
        } else {
            sat(cursor.column + coladd) as int
        };
        let change_start: int = if splice.new_extent.rows == 0 {
            splice.start.column as int
        } else {
            0
        };
        let column = if row == new_row && reached > change_end(splice) && coladd == 0 {
            if change_end(splice) >= change_start + beside {
                change_end(splice) - beside
            } else {
                change_end(splice)
            }
        } else {
            reached
        };
        TextCursorMove { row, column, coladd: 0 }
    }
}

/// Adjusts a zero-based cursor plus its virtual cells `coladd` for a byte-level
/// text replacement. See [`text_cursor_move`]. Returns the mapped position and
/// its residual virtual cells; the caller clamps the column against the new
/// line.
#[must_use]
pub fn adjust_text_cursor(
    cursor: ExtmarkPosition,
    coladd: usize,
    splice: TextSplice,
    new_end_row_len: usize,
    insert_current: bool,
) -> (moved: (ExtmarkPosition, usize))
    requires
        splice.fits(),
    ensures
        ({
            let target = text_cursor_move(
                cursor,
                coladd as int,
                splice,
                new_end_row_len as int,
                insert_current,
            );
            &&& moved.0.row == sat(target.row)
            &&& moved.0.column == sat(target.column)
            &&& moved.1 == target.coladd
        }),
{
    let row: usize = cursor.row;
    let col: usize = cursor.column;
    let start_row: usize = splice.start.row;
    let old_end = splice.old_end();
    let new_end = splice.new_end();
    if row < start_row {
        return (cursor, coladd);
    }
    let new_rows: usize = splice.new_extent.rows;
    let old_rows: usize = splice.old_extent.rows;
    if row > old_end.row {
        let new_row: usize = if new_rows >= old_rows {
            row.saturating_add(new_rows - old_rows)
        } else {
            row.saturating_sub(old_rows - new_rows)
        };
        return (ExtmarkPosition::new(new_row, col), coladd);
    }
    let change_start: usize = if new_rows == 0 {
        splice.start.column
    } else {
        0
    };
    let change_end: usize = new_end.column;
    let behind: bool = if insert_current {
        col > old_end.column
    } else {
        col >= old_end.column
    };
    if row == old_end.row && behind {
        let column: usize = if change_end >= old_end.column {
            col.saturating_add(change_end - old_end.column)
        } else {
            col.saturating_sub(old_end.column - change_end)
        };
        let new_row: usize = if new_rows >= old_rows {
            row.saturating_add(new_rows - old_rows)
        } else {
            row.saturating_sub(old_rows - new_rows)
        };
        return (ExtmarkPosition::new(new_row, column), coladd);
    }
    let mut target_row: usize = row;
    let mut column: usize = col.saturating_add(coladd);
    if target_row > new_end.row {
        target_row = new_end.row;
        column = max_of(column, new_end_row_len);
    }
    if target_row == new_end.row && column > change_end && coladd == 0 {
        column = change_end;
        if insert_current {
            // Between characters: the end itself.
        } else if column > change_start {
            column = column - 1;
        }
    }
    (ExtmarkPosition::new(target_row, column), 0)
}

/// Whether a buffer whose `buftype` is these bytes is never read from its
/// name: `nofile`, `terminal`, `quickfix` and `prompt` buffers start with empty
/// text.
pub open spec fn nofileread(buftype: Seq<u8>) -> bool {
    ||| buftype.len() >= 3 && buftype[0] == 0x6e && buftype[2] == 0x66
    ||| buftype.len() >= 1 && (buftype[0] == 0x74 || buftype[0] == 0x71 || buftype[0] == 0x70)
}

/// Whether this `buftype` means a buffer is never read from its name. See
/// [`nofileread`].
#[must_use]
pub fn is_nofileread(buftype: &str) -> (never: bool)
    ensures
        never == nofileread(vstd::utf8::encode_utf8(buftype@)),
{
    let bytes = buftype.as_bytes();
    (bytes.len() >= 3 && bytes[0] == 0x6e && bytes[2] == 0x66) || (bytes.len() >= 1 && (bytes[0]
        == 0x74 || bytes[0] == 0x71 || bytes[0] == 0x70))
}

/// Lines above a replacement keep their numbers.
pub proof fn law_lines_above_a_splice_stay(
    lnum: int,
    start: int,
    old_count: int,
    new_count: int,
    line_count: int,
)
    requires
        lnum < start,
    ensures
        spliced_line(lnum, start, old_count, new_count, line_count) == lnum,
{
}

/// Undoing a replacement of lines brings back the number of every line that was
/// not replaced.
pub proof fn law_splice_and_back(
    lnum: int,
    start: int,
    old_count: int,
    new_count: int,
    old_lines: int,
    new_lines: int,
)
    requires
        1 <= start,
        1 <= lnum,
        0 <= old_count,
        0 <= new_count,
        start + old_count <= usize::MAX,
        start + new_count <= usize::MAX,
        lnum < start || lnum >= start + old_count,
    ensures
        spliced_line(
            spliced_line(lnum, start, old_count, new_count, new_lines),
            start,
            new_count,
            old_count,
            old_lines,
        ) == lnum,
{
}

/// A replacement keeps the lines around it in order.
pub proof fn law_splice_keeps_order(
    first: int,
    second: int,
    start: int,
    old_count: int,
    new_count: int,
    line_count: int,
)
    requires
        1 <= first <= second,
        1 <= start,
        0 <= old_count,
        0 <= new_count,
        start + old_count <= usize::MAX,
        first < start || first >= start + old_count,
        second < start || second >= start + old_count,
    ensures
        spliced_line(first, start, old_count, new_count, line_count) <= spliced_line(
            second,
            start,
            old_count,
            new_count,
            line_count,
        ),
{
}

/// A cursor that has a line is always shown.
pub proof fn law_cursor_shows(topline: int, cursor: int, height: int)
    requires
        cursor >= 1,
        height >= 1,
    ensures
        1 <= visible_topline(topline, cursor, height) <= cursor,
        cursor < visible_topline(topline, cursor, height) + height,
{
}

/// A window does not scroll while its cursor shows.
pub proof fn law_no_needless_scroll(topline: int, cursor: int, height: int)
    requires
        topline >= 1,
        topline <= cursor < topline + height,
    ensures
        visible_topline(topline, cursor, height) == topline,
{
}

/// After any splice at or above it the cursor shows.
pub proof fn law_cursor_shows_after_splice(splice: ToplineSplice)
    requires
        splice.cursor >= 1,
        splice.cursor >= splice.start,
        splice.height >= 1,
    ensures
        splice.result() <= splice.cursor < splice.result() + splice.height,
{
}

/// A cursor in front of a text edit keeps its row and its screen column.
pub proof fn law_text_before_an_edit_stays(
    cursor: ExtmarkPosition,
    coladd: int,
    splice: TextSplice,
    new_end_row_len: int,
    insert_current: bool,
)
    requires
        coladd >= 0,
        cursor.column + coladd <= usize::MAX,
        cursor.row < splice.start.row || (cursor.row == splice.start.row && cursor.column
            < splice.start.column),
    ensures
        ({
            let moved = text_cursor_move(cursor, coladd, splice, new_end_row_len, insert_current);
            &&& moved.row == cursor.row
            &&& moved.column + moved.coladd == cursor.column + coladd
        }),
{
}

/// A cursor behind a text edit on its last row keeps its distance to the end of
/// the edit.
pub proof fn law_text_behind_an_edit_keeps_its_distance(
    cursor: ExtmarkPosition,
    coladd: int,
    splice: TextSplice,
    new_end_row_len: int,
    insert_current: bool,
)
    requires
        cursor.row == crate::types::end_row(splice.start, splice.old_extent),
        cursor.column > crate::types::end_column(splice.start, splice.old_extent),
    ensures
        ({
            let moved = text_cursor_move(cursor, coladd, splice, new_end_row_len, insert_current);
            &&& moved.row == crate::types::end_row(splice.start, splice.new_extent)
            &&& moved.column - change_end(splice) == cursor.column - crate::types::end_column(
                splice.start,
                splice.old_extent,
            )
            &&& moved.coladd == coladd
        }),
{
}

} // verus!
