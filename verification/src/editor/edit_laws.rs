//! What the windows of a buffer keep through an edit of its text.
use vstd::prelude::*;

use crate::buffer::BufferTextEditRequest;
use crate::window::WindowState;

verus! {

/// Whether a text of so many rows, each of so many bytes, can be held.
pub open spec fn storable(text: Seq<Seq<u8>>) -> bool {
    &&& text.len() < usize::MAX
    &&& forall|i: int| 0 <= i < text.len() ==> (#[trigger] text[i]).len() <= usize::MAX
}

/// Whether the byte at a row and column is none of those that `request`
/// replaces. While typing, a cursor just behind them belongs to the change.
pub open spec fn is_left(
    request: BufferTextEditRequest,
    row: int,
    column: int,
    inserting: bool,
) -> bool {
    ||| row < request.start.row
    ||| row == request.start.row && column < request.start.column
    ||| row > request.end.row
    ||| row == request.end.row && column > request.end.column
    ||| row == request.end.row && column == request.end.column && !inserting
}

/// The rows that an edit leaves are found again, counted from the top above it
/// and from the bottom below it, and so are the bytes on both sides of it in
/// the rows where it starts and ends.
#[verifier::rlimit(50)]
proof fn lemma_text_around(request: BufferTextEditRequest, rows: Seq<Seq<u8>>)
    requires
        request.within(rows),
        storable(rows),
        storable(request.applied(rows)),
    ensures
        ({
            let text = request.applied(rows);
            let put_in = crate::buffer::replacement_rows(request);
            let splice = request.splice();
            let shift = text.len() - rows.len();
            let last = request.start.row + put_in.len() - 1;
            let new_end = crate::types::end_column(splice.start, splice.new_extent);
            &&& splice.start == request.start
            &&& crate::types::end_row(splice.start, splice.old_extent) == request.end.row
            &&& crate::types::end_column(splice.start, splice.old_extent) == request.end.column
            &&& crate::types::end_row(splice.start, splice.new_extent) == last
            &&& last == request.end.row + shift
            &&& request.start.row <= last < text.len()
            &&& new_end <= text[last].len()
            &&& new_end - request.end.column == text[last].len()
                - rows[request.end.row as int].len()
            &&& (put_in.len() == 1 ==> request.start.column <= new_end)
            &&& request.start.column <= text[request.start.row as int].len()
            &&& forall|r: int| 0 <= r < request.start.row ==> #[trigger] rows[r] == text[r]
            &&& forall|r: int|
                request.end.row < r < rows.len() ==> #[trigger] rows[r] == text[r + shift]
            &&& forall|c: int|
                0 <= c < request.start.column ==> #[trigger] rows[request.start.row as int][c]
                    == text[request.start.row as int][c]
            &&& forall|c: int|
                request.end.column <= c < rows[request.end.row as int].len()
                    ==> #[trigger] rows[request.end.row as int][c] == text[last][c + new_end
                    - request.end.column]
        }),
{
    let text = request.applied(rows);
    let put_in = crate::buffer::replacement_rows(request);
    let last = request.start.row + put_in.len() - 1;
    let tail = rows[request.end.row as int].skip(request.end.column as int);
    let head = rows[request.start.row as int].take(request.start.column as int);
    assert(request.replacement.len() <= usize::MAX);
    assert(request.replacement@.len() > 0 ==> request.replacement@.last().len() <= usize::MAX);
    assert(put_in.last().len() <= usize::MAX);
    assert(put_in.len() <= usize::MAX);
    crate::buffer::lemma_rows_above(request, rows);
    if put_in.len() == 1 {
        assert(text[last] == head + put_in[0] + tail);
    } else {
        assert(text[request.start.row as int] == head + put_in[0]);
        assert(text[last] == put_in.last() + tail);
    }
}

/// An edit puts its rows in where the range was: what stood in front of the
/// range on its first row goes in front of the first of them, what stood behind
/// the range on its last row behind the last, and nothing else comes between.
pub proof fn law_edit_puts_its_rows_in(request: BufferTextEditRequest, rows: Seq<Seq<u8>>)
    requires
        request.within(rows),
    ensures
        ({
            let text = request.applied(rows);
            let first = request.start.row as int;
            let count = request.replacement@.len() as int;
            let before = rows[first].take(request.start.column as int);
            let behind = rows[request.end.row as int].skip(request.end.column as int);
            &&& count == 0 ==> text[first] == before + behind
            &&& count == 1 ==> text[first] == before + request.replacement@[0]@ + behind
            &&& count > 1 ==> {
                &&& text[first] == before + request.replacement@[0]@
                &&& text[first + count - 1] == request.replacement@[count - 1]@ + behind
            }
            &&& forall|i: int|
                0 < i < count - 1 ==> text[first + i] == (#[trigger] request.replacement@[i])@
            &&& text.len() == first + (if count == 0 {
                1
            } else {
                count
            }) + (rows.len() - 1 - request.end.row)
            &&& forall|r: int| 0 <= r < first ==> text[r] == #[trigger] rows[r]
            &&& forall|r: int|
                request.end.row < r < rows.len() ==> text[r + text.len() - rows.len()]
                    == #[trigger] rows[r]
        }),
{
    let text = request.applied(rows);
    let put_in = crate::buffer::replacement_rows(request);
    let first = request.start.row as int;
    let count = request.replacement@.len() as int;
    let before = rows[first].take(request.start.column as int);
    let behind = rows[request.end.row as int].skip(request.end.column as int);
    if count == 0 {
        assert(put_in[0] =~= Seq::empty());
        assert(before + put_in[0] + behind =~= before + behind);
    } else {
        assert(forall|i: int|
            0 <= i < count ==> #[trigger] put_in[i] == request.replacement@[i]@);
        if count > 1 {
            let middle = seq![before + put_in[0]] + put_in.subrange(1, put_in.len() - 1) + seq![
                put_in.last() + behind,
            ];
            assert(text == rows.take(first) + middle + rows.skip(request.end.row + 1));
            assert forall|i: int| 0 < i < count - 1 implies text[first + i] == (
            #[trigger] request.replacement@[i])@ by {
                assert(middle[i] == put_in[i]);
            }
        }
    }
}

/// A cursor on a row below the last replaced row stays on its row: it moves by
/// as many rows as the edit adds or takes away, so that it is as far from the
/// end of the buffer as before, on the same text and in the same column. A
/// cursor above the first replaced row does not move.
#[verifier::rlimit(50)]
pub proof fn law_cursor_outside_an_edit_keeps_its_row(
    state: WindowState,
    height: usize,
    request: BufferTextEditRequest,
    rows: Seq<Seq<u8>>,
    inserting: bool,
)
    requires
        request.within(rows),
        storable(rows),
        storable(request.applied(rows)),
        1 <= state.cursor.lnum <= rows.len(),
        state.cursor.lnum - 1 < request.start.row || state.cursor.lnum - 1 > request.end.row,
    ensures
        ({
            let text = request.applied(rows);
            let after = crate::editor::edits::text_spliced(
                state,
                height,
                request.splice(),
                text,
                inserting,
            );
            let row = rows[state.cursor.lnum - 1];
            &&& state.cursor.lnum - 1 < request.start.row ==> after.cursor.lnum
                == state.cursor.lnum
            &&& state.cursor.lnum - 1 > request.end.row ==> text.len() - after.cursor.lnum
                == rows.len() - state.cursor.lnum
            &&& 1 <= after.cursor.lnum <= text.len()
            &&& text[after.cursor.lnum - 1] == row
            &&& state.cursor.col < row.len() || (state.cursor.col == row.len() && inserting)
                || (state.cursor.col == 0 && row.len() == 0) ==> after.cursor.col
                == state.cursor.col
        }),
{
    lemma_text_around(request, rows);
}

/// A cursor on a byte that an edit leaves stays on that byte, whichever row and
/// column it has afterwards.
#[verifier::rlimit(50)]
pub proof fn law_cursor_stays_on_its_byte(
    state: WindowState,
    height: usize,
    request: BufferTextEditRequest,
    rows: Seq<Seq<u8>>,
    inserting: bool,
)
    requires
        request.within(rows),
        storable(rows),
        storable(request.applied(rows)),
        1 <= state.cursor.lnum <= rows.len(),
        state.cursor.col < rows[state.cursor.lnum - 1].len(),
        state.coladd <= 0,
        is_left(request, state.cursor.lnum - 1, state.cursor.col as int, inserting),
    ensures
        ({
            let text = request.applied(rows);
            let after = crate::editor::edits::text_spliced(
                state,
                height,
                request.splice(),
                text,
                inserting,
            );
            &&& 1 <= after.cursor.lnum <= text.len()
            &&& after.cursor.col < text[after.cursor.lnum - 1].len()
            &&& text[after.cursor.lnum - 1][after.cursor.col as int]
                == rows[state.cursor.lnum - 1][state.cursor.col as int]
            &&& after.coladd <= 0
            &&& state.cursor.lnum - 1 < request.end.row || (state.cursor.lnum - 1
                == request.end.row && state.cursor.col < request.end.column)
                ==> after.cursor == state.cursor
            &&& state.cursor.lnum - 1 == request.end.row && state.cursor.col
                >= request.end.column ==> {
                &&& text.len() - after.cursor.lnum == rows.len() - state.cursor.lnum
                &&& text[after.cursor.lnum - 1].len() - after.cursor.col
                    == rows[state.cursor.lnum - 1].len() - state.cursor.col
            }
        }),
{
    lemma_text_around(request, rows);
    let row = state.cursor.lnum - 1;
    let column = state.cursor.col as int;
    if row < request.start.row || row > request.end.row {
        law_cursor_outside_an_edit_keeps_its_row(state, height, request, rows, inserting);
    } else if row == request.end.row && column >= request.end.column {
        assert(rows[row][column] == rows[request.end.row as int][column]);
    } else {
        assert(row == request.start.row && column < request.start.column);
        assert(rows[row][column] == rows[request.start.row as int][column]);
    }
}

/// A cursor on a byte that an edit takes away ends up within what took its
/// place: on its own row if the replacement has that many, else on the last of
/// the replacement's rows, and there no further than the replacement's end:
/// while typing just behind it, otherwise on its last byte.
#[verifier::rlimit(50)]
pub proof fn law_cursor_on_replaced_text_stays_in_the_edit(
    state: WindowState,
    height: usize,
    request: BufferTextEditRequest,
    rows: Seq<Seq<u8>>,
    inserting: bool,
)
    requires
        request.within(rows),
        storable(rows),
        storable(request.applied(rows)),
        1 <= state.cursor.lnum <= rows.len(),
        state.cursor.col < rows[state.cursor.lnum - 1].len(),
        state.coladd <= 0,
        !is_left(request, state.cursor.lnum - 1, state.cursor.col as int, inserting),
    ensures
        ({
            let text = request.applied(rows);
            let after = crate::editor::edits::text_spliced(
                state,
                height,
                request.splice(),
                text,
                inserting,
            );
            let put_in = crate::buffer::replacement_rows(request);
            let last = request.start.row + put_in.len() - 1;
            let tail = rows[request.end.row as int].len() - request.end.column;
            let row = after.cursor.lnum - 1;
            &&& request.start.row <= row <= last
            &&& row == state.cursor.lnum - 1 || (row == last && last < state.cursor.lnum - 1)
            &&& row == last ==> after.cursor.col <= text[last].len() - tail
            &&& row == request.start.row ==> after.cursor.col >= request.start.column
                || after.cursor.col + 1 == text[row].len() || text[row].len() == 0
                || after.cursor.col == state.cursor.col
            &&& row < last && state.cursor.col < text[row].len() ==> after.cursor.col
                == state.cursor.col
            &&& row == last && row == state.cursor.lnum - 1 && state.cursor.col
                < text[last].len() - tail ==> after.cursor.col == state.cursor.col
            &&& row == last && (state.cursor.col > text[last].len() - tail || (last
                < state.cursor.lnum - 1 && tail > 0)) ==> {
                let end = text[last].len() - tail;
                let first = if last == request.start.row {
                    request.start.column as int
                } else {
                    0
                };
                &&& inserting ==> after.cursor.col == end
                &&& !inserting && end > first ==> after.cursor.col == end - 1
                &&& !inserting && end == first && tail > 0 ==> after.cursor.col == end
            }
            &&& after.coladd <= 0
        }),
{
    lemma_text_around(request, rows);
}

/// A window whose first line and cursor are both below an edit, or both above
/// it, shows the same first line after it, as long as the cursor was in view.
#[verifier::rlimit(50)]
pub proof fn law_view_follows_the_text(
    state: WindowState,
    height: usize,
    request: BufferTextEditRequest,
    rows: Seq<Seq<u8>>,
    inserting: bool,
)
    requires
        request.within(rows),
        storable(rows),
        storable(request.applied(rows)),
        1 <= state.topline <= state.cursor.lnum <= rows.len(),
        state.cursor.lnum < state.topline + height,
        state.topline - 1 > request.end.row || state.cursor.lnum - 1 < request.start.row,
    ensures
        ({
            let text = request.applied(rows);
            let after = crate::editor::edits::text_spliced(
                state,
                height,
                request.splice(),
                text,
                inserting,
            );
            &&& 1 <= after.topline <= after.cursor.lnum
            &&& after.cursor.lnum < after.topline + height
            &&& text[after.topline - 1] == rows[state.topline - 1]
            &&& after.cursor.lnum - after.topline == state.cursor.lnum - state.topline
        }),
{
    lemma_text_around(request, rows);
}

/// After an edit the line of a cursor at or below its start is in view, and a
/// first line above the edit stays where it is if the cursor's line is in view
/// from there.
#[verifier::rlimit(50)]
pub proof fn law_edit_keeps_the_cursor_in_view(
    state: WindowState,
    height: usize,
    request: BufferTextEditRequest,
    rows: Seq<Seq<u8>>,
    inserting: bool,
)
    requires
        request.within(rows),
        storable(rows),
        storable(request.applied(rows)),
        1 <= state.cursor.lnum <= rows.len(),
        state.cursor.lnum - 1 >= request.start.row,
        1 <= state.topline <= rows.len(),
        height > 0,
    ensures
        ({
            let text = request.applied(rows);
            let after = crate::editor::edits::text_spliced(
                state,
                height,
                request.splice(),
                text,
                inserting,
            );
            &&& 1 <= after.topline <= after.cursor.lnum < after.topline + height
            &&& state.topline - 1 < request.start.row && after.cursor.lnum < state.topline
                + height ==> after.topline == state.topline
        }),
{
    lemma_text_around(request, rows);
}

/// Whether a window's cursor went with the text through an edit: on a row that
/// the edit leaves it stays on that row, and on a byte that the edit leaves it
/// stays on that byte.
pub open spec fn follows_text(
    before: WindowState,
    after: WindowState,
    request: BufferTextEditRequest,
    rows: Seq<Seq<u8>>,
    inserting: bool,
) -> bool {
    let text = request.applied(rows);
    let row = before.cursor.lnum - 1;
    storable(rows) && storable(text) && 0 <= row < rows.len() ==> {
        &&& row < request.start.row ==> after.cursor.lnum == before.cursor.lnum
        &&& row > request.end.row ==> text.len() - after.cursor.lnum == rows.len()
            - before.cursor.lnum
        &&& row < request.start.row || row > request.end.row ==> 1 <= after.cursor.lnum
            <= text.len() && text[after.cursor.lnum - 1] == rows[row]
        &&& before.cursor.col < rows[row].len() && before.coladd <= 0 && is_left(
            request,
            row,
            before.cursor.col as int,
            inserting,
        ) ==> {
            &&& 1 <= after.cursor.lnum <= text.len()
            &&& after.cursor.col < text[after.cursor.lnum - 1].len()
            &&& text[after.cursor.lnum - 1][after.cursor.col as int]
                == rows[row][before.cursor.col as int]
        }
    }
}

/// Whether the cursors of all windows of `buffer` went with its text, and the
/// other windows stayed as they were.
pub open spec fn cursors_follow(
    before: Seq<crate::window::WindowEntry>,
    after: Seq<crate::window::WindowEntry>,
    buffer: crate::types::BufHandle,
    request: BufferTextEditRequest,
    rows: Seq<Seq<u8>>,
    inserting: Option<crate::types::WinHandle>,
) -> bool {
    &&& after.len() == before.len()
    &&& forall|i: int|
        0 <= i < before.len() ==> {
            &&& before[i].state.buffer != buffer ==> #[trigger] after[i] == before[i]
            &&& before[i].state.buffer == buffer ==> follows_text(
                before[i].state,
                after[i].state,
                request,
                rows,
                inserting == Some(before[i].handle),
            )
        }
}

/// The cursors of all windows of an edited buffer go with its text.
pub proof fn law_cursors_follow_the_text(
    windows: Seq<crate::window::WindowEntry>,
    buffer: crate::types::BufHandle,
    request: BufferTextEditRequest,
    rows: Seq<Seq<u8>>,
    inserting: Option<crate::types::WinHandle>,
)
    requires
        request.within(rows),
    ensures
        cursors_follow(
            windows,
            crate::editor::edits::text_spliced_windows(
                windows,
                buffer,
                request.splice(),
                request.applied(rows),
                inserting,
            ),
            buffer,
            request,
            rows,
            inserting,
        ),
{
    let text = request.applied(rows);
    let after = crate::editor::edits::text_spliced_windows(
        windows,
        buffer,
        request.splice(),
        text,
        inserting,
    );
    assert forall|i: int| 0 <= i < windows.len() implies {
        &&& windows[i].state.buffer != buffer ==> #[trigger] after[i] == windows[i]
        &&& windows[i].state.buffer == buffer ==> follows_text(
            windows[i].state,
            after[i].state,
            request,
            rows,
            inserting == Some(windows[i].handle),
        )
    } by {
        let state = windows[i].state;
        let height = windows[i].area.text_height;
        let typing = inserting == Some(windows[i].handle);
        let row = state.cursor.lnum - 1;
        if state.buffer == buffer && storable(rows) && storable(text) && 0 <= row < rows.len() {
            if row < request.start.row || row > request.end.row {
                law_cursor_outside_an_edit_keeps_its_row(state, height, request, rows, typing);
            }
            if state.cursor.col < rows[row].len() && state.coladd <= 0 && is_left(
                request,
                row,
                state.cursor.col as int,
                typing,
            ) {
                law_cursor_stays_on_its_byte(state, height, request, rows, typing);
            }
        }
    }
}

/// An edit changes nothing of a window but its cursor and its first line, and
/// nothing at all of a window on another buffer.
pub proof fn law_edit_moves_only_cursor_and_view(
    windows: Seq<crate::window::WindowEntry>,
    buffer: crate::types::BufHandle,
    request: BufferTextEditRequest,
    rows: Seq<Seq<u8>>,
    inserting: Option<crate::types::WinHandle>,
    i: int,
)
    requires
        0 <= i < windows.len(),
    ensures
        ({
            let after = crate::editor::edits::text_spliced_windows(
                windows,
                buffer,
                request.splice(),
                request.applied(rows),
                inserting,
            );
            let old = windows[i];
            let new = after[i];
            &&& after.len() == windows.len()
            &&& old.state.buffer != buffer ==> new == old
            &&& new == (crate::window::WindowEntry {
                state: WindowState {
                    cursor: new.state.cursor,
                    coladd: new.state.coladd,
                    topline: new.state.topline,
                    ..old.state
                },
                ..old
            })
        }),
{
}

/// A cursor on a line that a replacement of whole lines leaves stays on that
/// line, in its column.
pub proof fn law_cursor_keeps_its_line(
    state: WindowState,
    height: usize,
    start: usize,
    old_count: usize,
    rows: Seq<Seq<u8>>,
    lines: Seq<Seq<u8>>,
)
    requires
        1 <= start,
        start - 1 + old_count <= rows.len(),
        rows.len() - old_count + lines.len() < usize::MAX,
        rows.len() < usize::MAX,
        lines.len() < usize::MAX,
        1 <= state.cursor.lnum <= rows.len(),
        state.cursor.lnum < start || state.cursor.lnum >= start + old_count,
    ensures
        ({
            let text = rows.take(start - 1) + lines + rows.skip(start - 1 + old_count);
            let after = crate::editor::edits::line_spliced(
                state,
                height,
                start,
                old_count,
                lines.len() as usize,
                text,
            );
            &&& 1 <= after.cursor.lnum <= text.len()
            &&& text[after.cursor.lnum - 1] == rows[state.cursor.lnum - 1]
            &&& after.cursor.col == state.cursor.col
            &&& state.cursor.lnum < start ==> after.cursor.lnum == state.cursor.lnum
            &&& state.cursor.lnum >= start + old_count ==> text.len() - after.cursor.lnum
                == rows.len() - state.cursor.lnum
        }),
{
}

/// A cursor past the end of a row that an edit leaves, or on a byte of it,
/// keeps its column and its virtual cells.
#[verifier::rlimit(50)]
pub proof fn law_virtual_cells_stay(
    state: WindowState,
    height: usize,
    request: BufferTextEditRequest,
    rows: Seq<Seq<u8>>,
    inserting: bool,
)
    requires
        request.within(rows),
        storable(rows),
        storable(request.applied(rows)),
        1 <= state.cursor.lnum <= rows.len(),
        state.cursor.lnum - 1 < request.start.row || state.cursor.lnum - 1 > request.end.row,
        state.coladd >= 0,
        state.cursor.col + state.coladd <= usize::MAX,
        state.cursor.col < rows[state.cursor.lnum - 1].len() || (state.cursor.col
            == rows[state.cursor.lnum - 1].len() && state.coladd > 0),
    ensures
        ({
            let after = crate::editor::edits::text_spliced(
                state,
                height,
                request.splice(),
                request.applied(rows),
                inserting,
            );
            after.cursor.col == state.cursor.col && after.coladd == state.coladd
        }),
{
    lemma_text_around(request, rows);
}

/// A window whose first line and cursor are both below replaced lines, or both
/// above them, shows the same first line afterwards, as long as the cursor was
/// in view. Lines that are put in just above the first line show there, if the
/// cursor's line does not leave the view by that.
#[verifier::rlimit(50)]
pub proof fn law_view_follows_the_lines(
    state: WindowState,
    height: usize,
    start: usize,
    old_count: usize,
    rows: Seq<Seq<u8>>,
    lines: Seq<Seq<u8>>,
)
    requires
        1 <= start,
        start - 1 + old_count <= rows.len(),
        rows.len() - old_count + lines.len() < usize::MAX,
        rows.len() < usize::MAX,
        lines.len() < usize::MAX,
        1 <= state.topline <= state.cursor.lnum <= rows.len(),
        state.cursor.lnum < state.topline + height,
    ensures
        ({
            let text = rows.take(start - 1) + lines + rows.skip(start - 1 + old_count);
            let after = crate::editor::edits::line_spliced(
                state,
                height,
                start,
                old_count,
                lines.len() as usize,
                text,
            );
            let below = state.topline >= start + old_count && state.topline > start;
            &&& below || state.cursor.lnum < start ==> {
                &&& text[after.topline - 1] == rows[state.topline - 1]
                &&& after.cursor.lnum - after.topline == state.cursor.lnum - state.topline
            }
            &&& old_count == 0 && state.topline == start && state.cursor.lnum + lines.len()
                < state.topline + height ==> after.topline == state.topline
            &&& state.topline < start && start <= after.cursor.lnum < state.topline + height
                ==> after.topline == state.topline
            &&& start <= after.cursor.lnum && height > 0 ==> after.topline <= after.cursor.lnum
                < after.topline + height
        }),
{
}

/// Outside of typing, a cursor without virtual cells is on a byte of its row
/// after an edit, or at the start of an empty one; while typing it is no
/// further than just behind the row.
pub proof fn law_cursor_is_on_a_byte(
    state: WindowState,
    height: usize,
    splice: crate::types::TextSplice,
    text: Seq<Seq<u8>>,
    inserting: bool,
)
    requires
        state.coladd <= 0,
    ensures
        ({
            let after = crate::editor::edits::text_spliced(state, height, splice, text, inserting);
            let len = text[after.cursor.lnum - 1].len();
            1 <= after.cursor.lnum <= text.len() ==> {
                &&& len == 0 ==> after.cursor.col == 0
                &&& len > 0 && !inserting ==> after.cursor.col < len
                &&& inserting ==> after.cursor.col <= len
            }
        }),
{
}

/// A first line among replaced rows stays where it is if the replacement has
/// more than one row, and else goes to the line above the edit, as far as the
/// cursor's line is in view from there.
#[verifier::rlimit(50)]
pub proof fn law_first_line_inside_an_edit(
    state: WindowState,
    height: usize,
    request: BufferTextEditRequest,
    rows: Seq<Seq<u8>>,
    inserting: bool,
)
    requires
        request.within(rows),
        storable(rows),
        storable(request.applied(rows)),
        request.start.row < state.topline <= request.end.row,
    ensures
        ({
            let text = request.applied(rows);
            let after = crate::editor::edits::text_spliced(
                state,
                height,
                request.splice(),
                text,
                inserting,
            );
            let above = if request.start.row == 0 {
                1
            } else {
                request.start.row as int
            };
            let shown = after.cursor.lnum;
            &&& request.replacement@.len() > 1 && state.topline <= text.len() && state.topline
                <= shown < state.topline + height ==> after.topline == state.topline
            &&& request.replacement@.len() <= 1 && above <= shown < above + height
                ==> after.topline == above
        }),
{
    lemma_text_around(request, rows);
}

} // verus!
