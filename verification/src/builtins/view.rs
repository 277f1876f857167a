//! Screen cells, window views, window variables and the layout.

use vstd::prelude::*;

use crate::builtins::window::{Frame, TabLayout};
use crate::builtins::{
    count_number, current_windows, is_key, number_count, numbered_window, typval_number,
    typval_to_text,
};
use crate::editor::Editor;
use crate::options::{
    find_other, get_global, get_window, option_metadata, option_to_typval, set_other, set_window,
    type_of_window, OptionName, OptionType, OptionValue, OtherOptions, WindowOption,
};
use crate::splice::cursor_visible_topline;
use crate::text::{chars_of, lossy, string_of};
use crate::types::{EvalError, OxStr, Position, Typval, TypvalView, WinHandle};
use crate::window::{Geometry, WindowEntry, WindowState};

verus! {

/// The number of the argument at `at`, or a default.
pub open spec fn argument_number(args: Seq<Typval>, at: int, default: i64) -> i64 {
    if at < args.len() {
        match crate::builtins::number_of(args[at]@) {
            Some(number) => number,
            None => default,
        }
    } else {
        default
    }
}

fn number_at(args: &[Typval], at: usize, default: i64) -> (number: i64)
    ensures
        number == argument_number(args@, at as int, default),
{
    if at < args.len() {
        match typval_number(&args[at]) {
            Some(number) => number,
            None => default,
        }
    } else {
        default
    }
}

/// A window function of the geometry family.
#[derive(Clone, Copy, Debug, PartialEq, Eq, Structural)]
pub enum WindowBuiltin {
    /// `win_getid()`.
    WinGetid,
    /// `winheight()`.
    Winheight,
    /// `winwidth()`.
    Winwidth,
}

/// The window that `win_getid()` names: a place in the current or a numbered
/// tabpage; no number is the current window, where the tabpage lists it.
pub open spec fn getid_window(editor: Editor, window: i64, tab: i64) -> Option<WinHandle> {
    let windows = if tab <= 0 {
        match editor.current_tab {
            Some(_) => Some(crate::builtins::tab_windows(editor)),
            None => None,
        }
    } else if tab <= editor.tabs@.len() {
        Some(editor.links().tabs[tab - 1].windows())
    } else {
        None
    };
    match windows {
        None => None,
        Some(windows) => if window <= 0 {
            match editor.links().current_window() {
                Some(current) => if windows.contains(current) {
                    Some(current)
                } else {
                    None
                },
                None => None,
            }
        } else {
            crate::builtins::numbered(windows, window as int)
        },
    }
}

/// The window that `winheight()` and `winwidth()` measure: zero is the current
/// one, another number a place in the current tabpage.
pub open spec fn measured_window(editor: Editor, number: i64) -> Option<WinHandle> {
    if editor.current_tab is None {
        None
    } else if number == 0 {
        editor.links().current_window()
    } else {
        crate::builtins::numbered(crate::builtins::tab_windows(editor), number as int)
    }
}

/// What the functions of the geometry family answer.
pub open spec fn geometry_answer(
    editor: Editor,
    builtin: WindowBuiltin,
    args: Seq<Typval>,
) -> TypvalView {
    match builtin {
        WindowBuiltin::WinGetid => TypvalView::Number(
            match getid_window(
                editor,
                argument_number(args, 0, 0),
                argument_number(args, 1, 0),
            ) {
                Some(window) => window.0 as i64,
                None => 0i64,
            },
        ),
        _ => match measured_window(editor, argument_number(args, 0, (-1) as i64)) {
            Some(window) => {
                let geometry = editor.window_entry(window).area.geometry;
                crate::builtins::window::number(
                    if builtin == WindowBuiltin::Winwidth {
                        geometry.width as int
                    } else {
                        geometry.height as int
                    },
                )
            },
            None => TypvalView::Number((-1) as i64),
        },
    }
}

fn holds_window(windows: &Vec<WinHandle>, window: WinHandle) -> (holds: bool)
    ensures
        holds == windows@.contains(window),
{
    let mut next: usize = 0;
    while next < windows.len()
        invariant
            next <= windows@.len(),
            forall|i: int| 0 <= i < next ==> #[trigger] windows@[i] != window,
        decreases windows@.len() - next,
    {
        if windows[next] == window {
            return true;
        }
        next = next + 1;
    }
    false
}

fn find_getid_window(editor: &Editor, window: i64, tab: i64) -> (found: Option<WinHandle>)
    requires
        editor.wf(),
    ensures
        found == getid_window(*editor, window, tab),
{
    let windows = if tab <= 0 {
        if editor.current_tab.is_none() {
            return None;
        }
        current_windows(editor)
    } else if tab as u64 <= editor.tabs.len() as u64 {
        editor.windows_of((tab - 1) as usize)
    } else {
        return None;
    };
    if window <= 0 {
        match editor.current_window() {
            Some(current) => if holds_window(&windows, current) {
                Some(current)
            } else {
                None
            },
            None => None,
        }
    } else {
        numbered_window(&windows, window)
    }
}

/// `win_getid([{win} [, {tab}]])`, `winheight({nr})` and `winwidth({nr})`: a
/// window's id, or 0; and its height and width, or -1.
#[must_use]
pub fn call_window_builtin(editor: &Editor, builtin: WindowBuiltin, args: &[Typval]) -> (value:
    Typval)
    requires
        editor.wf(),
    ensures
        value@ == geometry_answer(*editor, builtin, args@),
{
    if builtin == WindowBuiltin::WinGetid {
        return match find_getid_window(editor, number_at(args, 0, 0), number_at(args, 1, 0)) {
            Some(window) => Typval::Number(window.0 as i64),
            None => Typval::Number(0),
        };
    }
    let number: i64 = number_at(args, 0, -1);
    if editor.current_tab.is_none() {
        return Typval::Number(-1);
    }
    proof {
        crate::builtins::window::lemma_tab_windows_live(*editor);
    }
    let window = if number == 0 {
        editor.current_window()
    } else {
        let windows = current_windows(editor);
        numbered_window(&windows, number)
    };
    if let Some(window) = window {
        if let Some(at) = editor.find_window(window) {
            let geometry = editor.windows[at].area.geometry;
            return Typval::Number(
                count_number(
                    if builtin == WindowBuiltin::Winwidth {
                        geometry.width
                    } else {
                        geometry.height
                    },
                ),
            );
        }
    }
    Typval::Number(-1)
}

/// Whether a rectangle holds a cell.
pub open spec fn covers(geometry: Geometry, row: int, column: int) -> bool {
    &&& geometry.row <= row < geometry.row + geometry.height
    &&& geometry.col <= column < geometry.col + geometry.width
}

/// The first of some windows that covers a cell.
pub open spec fn covering(
    editor: Editor,
    windows: Seq<WinHandle>,
    row: int,
    column: int,
) -> Option<WinHandle>
    decreases windows.len(),
{
    if windows.len() == 0 {
        None
    } else if covers(editor.window_entry(windows[0]).area.geometry, row, column) {
        Some(windows[0])
    } else {
        covering(editor, windows.drop_first(), row, column)
    }
}

/// The character that a window shows in a cell that it covers: a space behind
/// the end of a line, and none behind the end of the text.
pub open spec fn shown_cell(editor: Editor, window: WinHandle, row: int, column: int) -> Option<
    char,
> {
    let entry = editor.window_entry(window);
    let state = editor.buffer_state(entry.state.buffer);
    let line = entry.state.topline + row - entry.area.geometry.row;
    if state.lines is Some && 1 <= line <= state.rows().len() {
        let text = crate::text::lossy_text(state.rows()[line - 1]);
        let place = column - entry.area.geometry.col;
        Some(
            if place < text.len() {
                text[place]
            } else {
                ' '
            },
        )
    } else {
        None
    }
}

/// The character in a screen cell with one-based row and column. Only the
/// current tabpage is on screen.
pub open spec fn cell_at(editor: Editor, row: i64, column: i64) -> Option<char> {
    if 1 <= row <= usize::MAX && 1 <= column <= usize::MAX {
        match covering(
            editor,
            crate::builtins::tab_windows(editor),
            row - 1,
            column - 1,
        ) {
            Some(window) => shown_cell(editor, window, row - 1, column - 1),
            None => None,
        }
    } else {
        None
    }
}

fn find_covering(editor: &Editor, row: usize, column: usize) -> (at: Option<usize>)
    requires
        editor.wf(),
    ensures
        match covering(
            *editor,
            crate::builtins::tab_windows(*editor),
            row as int,
            column as int,
        ) {
            Some(window) => at is Some && at->0 < editor.windows@.len() && editor.has_window(
                window,
            ) && at->0 == editor.links().window_at(window) && covers(
                editor.windows@[at->0 as int].area.geometry,
                row as int,
                column as int,
            ),
            None => at is None,
        },
{
    proof {
        crate::builtins::window::lemma_tab_windows_live(*editor);
    }
    let windows = current_windows(editor);
    let ghost all = crate::builtins::tab_windows(*editor);
    let mut next: usize = 0;
    assert(all.skip(0) =~= all);
    while next < windows.len()
        invariant
            editor.wf(),
            next <= windows@.len(),
            windows@ == all,
            all == crate::builtins::tab_windows(*editor),
            forall|i: int| 0 <= i < all.len() ==> editor.has_window(#[trigger] all[i]),
            covering(*editor, all, row as int, column as int) == covering(
                *editor,
                all.skip(next as int),
                row as int,
                column as int,
            ),
        decreases windows@.len() - next,
    {
        assert(all.skip(next as int).drop_first() =~= all.skip(next + 1));
        assert(all.skip(next as int)[0] == all[next as int]);
        assert(editor.has_window(all[next as int]));
        if let Some(at) = editor.find_window(windows[next]) {
            let geometry = editor.windows[at].area.geometry;
            if geometry.row <= row && row - geometry.row < geometry.height && geometry.col
                <= column && column - geometry.col < geometry.width {
                return Some(at);
            }
        }
        next = next + 1;
    }
    None
}

/// The character in a screen cell.
#[must_use]
pub fn screen_cell(editor: &Editor, row: i64, column: i64) -> (cell: Option<char>)
    requires
        editor.wf(),
    ensures
        cell == cell_at(*editor, row, column),
{
    if row < 1 || column < 1 || row as u64 > usize::MAX as u64 || column as u64 > usize::MAX as u64 {
        return None;
    }
    let row: usize = (row - 1) as usize;
    let column: usize = (column - 1) as usize;
    let at: usize = match find_covering(editor, row, column) {
        Some(at) => at,
        None => {
            return None;
        },
    };
    proof {
        crate::editor::windows::lemma_window_tab(*editor, at as int);
    }
    let geometry = editor.windows[at].area.geometry;
    let line: usize = match editor.windows[at].state.topline.checked_add(row - geometry.row) {
        Some(line) => line,
        None => {
            assert(editor.buffer_state(editor.windows@[at as int].state.buffer).rows().len()
                <= usize::MAX) by {
                let state = editor.buffer_state(editor.windows@[at as int].state.buffer);
                if state.lines is Some {
                    assert(state.lines->0.len() <= usize::MAX);
                }
            }
            return None;
        },
    };
    let b: usize = match editor.find_buffer(editor.windows[at].state.buffer) {
        Some(b) => b,
        None => {
            return None;
        },
    };
    match &editor.buffers[b].state.lines {
        Some(lines) => if 1 <= line && line <= lines.len() {
            assert(editor.buffers@[b as int].state.rows()[line - 1] == lines@[line - 1]@);
            let text = chars_of(lossy(lines[line - 1].as_slice()).as_str());
            let place: usize = column - geometry.col;
            if place < text.len() {
                Some(text[place])
            } else {
                Some(' ')
            }
        } else {
            None
        },
        None => None,
    }
}

/// A function that reads one screen cell.
#[derive(Clone, Copy, Debug, PartialEq, Eq, Structural)]
pub enum ScreenBuiltin {
    /// `screenattr()`.
    Screenattr,
    /// `screenchar()`.
    Screenchar,
    /// `screenchars()`.
    Screenchars,
    /// `screenstring()`.
    Screenstring,
}

/// What the functions that read a cell answer.
pub open spec fn cell_answer(cell: Option<char>, builtin: ScreenBuiltin) -> TypvalView {
    match builtin {
        ScreenBuiltin::Screenattr => TypvalView::Number(
            match cell {
                Some(_) => 0i64,
                None => (-1) as i64,
            },
        ),
        ScreenBuiltin::Screenchar => TypvalView::Number(
            match cell {
                Some(c) => c as i64,
                None => (-1) as i64,
            },
        ),
        ScreenBuiltin::Screenchars => TypvalView::List(
            match cell {
                Some(c) => seq![TypvalView::Number(c as i64)],
                None => Seq::empty(),
            },
        ),
        ScreenBuiltin::Screenstring => TypvalView::String(
            vstd::utf8::encode_utf8(
                match cell {
                    Some(c) => seq![c],
                    None => Seq::empty(),
                },
            ),
        ),
    }
}

/// `screenattr()`, `screenchar()`, `screenchars()` and `screenstring()`: what a
/// screen cell shows.
#[must_use]
pub fn call_screen_builtin(editor: &Editor, builtin: ScreenBuiltin, args: &[Typval]) -> (value:
    Typval)
    requires
        editor.wf(),
    ensures
        value@ == cell_answer(
            cell_at(*editor, argument_number(args@, 0, 0), argument_number(args@, 1, 0)),
            builtin,
        ),
{
    let cell = screen_cell(editor, number_at(args, 0, 0), number_at(args, 1, 0));
    match builtin {
        ScreenBuiltin::Screenattr => Typval::Number(
            if cell.is_some() {
                0
            } else {
                -1
            },
        ),
        ScreenBuiltin::Screenchar => Typval::Number(
            match cell {
                Some(c) => c as i64,
                None => -1,
            },
        ),
        ScreenBuiltin::Screenchars => {
            let mut items: Vec<Typval> = Vec::new();
            if let Some(c) = cell {
                items.push(Typval::Number(c as i64));
            }
            let value = Typval::list(items);
            assert(value@->List_0 =~= cell_answer(cell, builtin)->List_0);
            value
        },
        ScreenBuiltin::Screenstring => {
            let mut chars: Vec<char> = Vec::new();
            if let Some(c) = cell {
                chars.push(c);
            }
            proof {
                assert(chars@ =~= match cell {
                    Some(c) => seq![c],
                    None => Seq::empty(),
                });
            }
            Typval::text(string_of(chars.as_slice()).as_str())
        },
    }
}

/// The current window's entry.
pub open spec fn current_entry(editor: Editor) -> Option<WindowEntry> {
    match editor.links().current_window() {
        Some(window) => Some(editor.window_entry(window)),
        None => None,
    }
}

fn find_current(editor: &Editor) -> (at: Option<usize>)
    requires
        editor.wf(),
    ensures
        match editor.links().current_window() {
            Some(window) => at is Some && at->0 == editor.links().window_at(window) && at->0
                < editor.windows@.len() && editor.windows@[at->0 as int].handle == window
                && editor.has_window(window),
            None => at is None,
        },
{
    match editor.current_window() {
        Some(window) => {
            proof {
                editor.links().lemma_parts();
                editor.links().lemma_current_window();
            }
            editor.find_window(window)
        },
        None => None,
    }
}

/// The virtual cells behind a cursor's column.
pub open spec fn added_cells(coladd: i64) -> int {
    crate::splice::sat(coladd as int) as int
}

/// Whether a window's cursor line is there; otherwise why not.
pub open spec fn cursor_line(editor: Editor, entry: WindowEntry) -> Result<(), Seq<char>> {
    let state = editor.buffer_state(entry.state.buffer);
    if state.lines is None {
        Err("buffer is not loaded"@)
    } else if 1 <= entry.state.cursor.lnum <= state.rows().len() {
        Ok(())
    } else {
        Err("invalid buffer range"@)
    }
}

fn check_cursor_line(editor: &Editor, at: usize) -> (result: Result<(), EvalError>)
    requires
        editor.wf(),
        at < editor.windows@.len(),
    ensures
        match cursor_line(*editor, editor.windows@[at as int]) {
            Ok(_) => result is Ok,
            Err(message) => crate::types::fails_with(result, "E16"@, message),
        },
{
    proof {
        crate::editor::windows::lemma_window_tab(*editor, at as int);
    }
    let lnum: usize = editor.windows[at].state.cursor.lnum;
    match editor.find_buffer(editor.windows[at].state.buffer) {
        Some(b) => match &editor.buffers[b].state.lines {
            Some(lines) => if 1 <= lnum && lnum <= lines.len() {
                Ok(())
            } else {
                Err(EvalError::new("E16", "invalid buffer range"))
            },
            None => Err(EvalError::new("E16", "buffer is not loaded")),
        },
        None => Err(EvalError::new("E16", "buffer is not loaded")),
    }
}

/// `screencol()`: the cursor's one-based screen column. `cells` is the cursor's
/// column in cells without its virtual ones.
///
/// # Errors
///
/// `E118` for an argument, `E957` without a current window, and `E16` when the
/// cursor's line is not there.
pub fn call_screencol(editor: &Editor, args: &[Typval], cells: usize) -> (value: Result<
    Typval,
    EvalError,
>)
    requires
        editor.wf(),
    ensures
        if args@.len() > 0 {
            crate::types::fails_with(value, "E118"@, "Too many arguments for function: screencol"@)
        } else {
            match current_entry(*editor) {
                None => crate::types::fails_with(value, "E957"@, "Invalid window"@),
                Some(entry) => match cursor_line(*editor, entry) {
                    Err(message) => crate::types::fails_with(value, "E16"@, message),
                    Ok(_) => {
                        &&& value is Ok
                        &&& value->Ok_0@ == crate::builtins::window::number(
                            crate::splice::sat(
                                entry.area.geometry.col + cells + added_cells(entry.state.coladd)
                                    + 1,
                            ) as int,
                        )
                    },
                },
            }
        },
{
    if args.len() > 0 {
        return Err(EvalError::new("E118", "Too many arguments for function: screencol"));
    }
    let at: usize = match find_current(editor) {
        Some(at) => at,
        None => {
            return Err(EvalError::new("E957", "Invalid window"));
        },
    };
    if let Err(error) = check_cursor_line(editor, at) {
        return Err(error);
    }
    let column: usize = editor.windows[at].area.geometry.col.saturating_add(cells).saturating_add(
        number_count(editor.windows[at].state.coladd),
    ).saturating_add(1);
    Ok(Typval::Number(count_number(column)))
}

/// `screenrow()`: the cursor's one-based screen row.
///
/// # Errors
///
/// `E118` for an argument, and `E957` without a current window.
pub fn call_screenrow(editor: &Editor, args: &[Typval]) -> (value: Result<Typval, EvalError>)
    requires
        editor.wf(),
    ensures
        if args@.len() > 0 {
            crate::types::fails_with(value, "E118"@, "Too many arguments for function: screenrow"@)
        } else {
            match current_entry(*editor) {
                None => crate::types::fails_with(value, "E957"@, "Invalid window"@),
                Some(entry) => {
                    &&& value is Ok
                    &&& value->Ok_0@ == crate::builtins::window::number(
                        crate::splice::sat(
                            entry.area.geometry.row + crate::splice::sat(
                                entry.state.cursor.lnum - entry.state.topline,
                            ) + 1,
                        ) as int,
                    )
                },
            }
        },
{
    if args.len() > 0 {
        return Err(EvalError::new("E118", "Too many arguments for function: screenrow"));
    }
    let at: usize = match find_current(editor) {
        Some(at) => at,
        None => {
            return Err(EvalError::new("E957", "Invalid window"));
        },
    };
    let state = &editor.windows[at].state;
    let inside: usize = state.cursor.lnum.saturating_sub(state.topline);
    let row: usize = editor.windows[at].area.geometry.row.saturating_add(inside).saturating_add(1);
    Ok(Typval::Number(count_number(row)))
}

/// `wincol()`: the cursor's one-based window column. `cells` is the cursor's
/// column in cells without its virtual ones.
///
/// # Errors
///
/// `E118` for an argument, `E957` without a current window, and `E16` when the
/// cursor's line is not there.
pub fn call_wincol(editor: &Editor, args: &[Typval], cells: usize) -> (value: Result<
    Typval,
    EvalError,
>)
    requires
        editor.wf(),
    ensures
        if args@.len() > 0 {
            crate::types::fails_with(value, "E118"@, "Too many arguments for function: wincol"@)
        } else {
            match current_entry(*editor) {
                None => crate::types::fails_with(value, "E957"@, "Invalid window"@),
                Some(entry) => match cursor_line(*editor, entry) {
                    Err(message) => crate::types::fails_with(value, "E16"@, message),
                    Ok(_) => {
                        &&& value is Ok
                        &&& value->Ok_0@ == crate::builtins::window::number(
                            crate::splice::sat(cells + added_cells(entry.state.coladd) + 1) as int,
                        )
                    },
                },
            }
        },
{
    if args.len() > 0 {
        return Err(EvalError::new("E118", "Too many arguments for function: wincol"));
    }
    let at: usize = match find_current(editor) {
        Some(at) => at,
        None => {
            return Err(EvalError::new("E957", "Invalid window"));
        },
    };
    if let Err(error) = check_cursor_line(editor, at) {
        return Err(error);
    }
    let column: usize = cells.saturating_add(
        number_count(editor.windows[at].state.coladd),
    ).saturating_add(1);
    Ok(Typval::Number(count_number(column)))
}

/// `winline()`: the cursor's one-based window row.
///
/// # Errors
///
/// `E957` without a current window.
pub fn call_winline(editor: &Editor) -> (value: Result<Typval, EvalError>)
    requires
        editor.wf(),
    ensures
        match current_entry(*editor) {
            None => crate::types::fails_with(value, "E957"@, "Invalid window"@),
            Some(entry) => {
                &&& value is Ok
                &&& value->Ok_0@ == crate::builtins::window::number(
                    crate::splice::sat(
                        crate::splice::sat(entry.state.cursor.lnum - entry.state.topline) + 1,
                    ) as int,
                )
            },
        },
{
    let at: usize = match find_current(editor) {
        Some(at) => at,
        None => {
            return Err(EvalError::new("E957", "Invalid window"));
        },
    };
    let state = &editor.windows[at].state;
    let row: usize = state.cursor.lnum.saturating_sub(state.topline).saturating_add(1);
    Ok(Typval::Number(count_number(row)))
}

/// The column that `winsaveview()` saves as the wanted one: the cursor's own
/// where the wanted column follows it.
pub open spec fn wanted_column(state: WindowState, cells: usize) -> i64 {
    if state.set_curswant {
        crate::builtins::script_number(cells as int)
    } else {
        state.curswant
    }
}

/// A window's view as a script value.
pub open spec fn view_value(state: WindowState, cells: usize) -> TypvalView {
    TypvalView::Dict(
        seq![
            crate::builtins::window::number_entry("lnum"@, state.cursor.lnum as int),
            crate::builtins::window::number_entry("col"@, state.cursor.col as int),
            (crate::builtins::key("coladd"@), TypvalView::Number(state.coladd)),
            (crate::builtins::key("curswant"@), TypvalView::Number(wanted_column(state, cells))),
            crate::builtins::window::number_entry("topline"@, state.topline as int),
            crate::builtins::window::number_entry("topfill"@, 0),
            crate::builtins::window::number_entry("leftcol"@, 0),
            crate::builtins::window::number_entry("skipcol"@, 0),
        ],
    )
}

/// `winsaveview()`: the current window's view. `cells` is the cursor's column in
/// cells without its virtual ones.
///
/// # Errors
///
/// `E957` without a current window, and `E16` when the wanted column follows the
/// cursor and the text is not loaded.
pub fn call_winsaveview(editor: &Editor, cells: usize) -> (value: Result<Typval, EvalError>)
    requires
        editor.wf(),
    ensures
        match current_entry(*editor) {
            None => crate::types::fails_with(value, "E957"@, "Invalid window"@),
            Some(entry) => if entry.state.set_curswant && editor.buffer_state(
                entry.state.buffer,
            ).lines is None {
                crate::types::fails_with(value, "E16"@, "buffer is not loaded"@)
            } else {
                value is Ok && value->Ok_0@ == view_value(entry.state, cells)
            },
        },
{
    let at: usize = match find_current(editor) {
        Some(at) => at,
        None => {
            return Err(EvalError::new("E957", "Invalid window"));
        },
    };
    proof {
        crate::editor::windows::lemma_window_tab(*editor, at as int);
    }
    let state = &editor.windows[at].state;
    let curswant: i64 = if state.set_curswant {
        let loaded: bool = match editor.find_buffer(state.buffer) {
            Some(b) => editor.buffers[b].state.lines.is_some(),
            None => false,
        };
        if !loaded {
            return Err(EvalError::new("E16", "buffer is not loaded"));
        }
        count_number(cells)
    } else {
        state.curswant
    };
    let value = Typval::dict(
        vec![
            (OxStr::from_text("lnum"), Typval::Number(count_number(state.cursor.lnum))),
            (OxStr::from_text("col"), Typval::Number(count_number(state.cursor.col))),
            (OxStr::from_text("coladd"), Typval::Number(state.coladd)),
            (OxStr::from_text("curswant"), Typval::Number(curswant)),
            (OxStr::from_text("topline"), Typval::Number(count_number(state.topline))),
            (OxStr::from_text("topfill"), Typval::Number(0)),
            (OxStr::from_text("leftcol"), Typval::Number(0)),
            (OxStr::from_text("skipcol"), Typval::Number(0)),
        ],
    );
    proof {
        assert(value@->Dict_0 =~= view_value(*state, cells)->Dict_0);
    }
    Ok(value)
}

/// The numbers of a view that can be restored.
#[derive(Clone, Copy, Debug, PartialEq, Eq, Structural)]
pub struct ViewFields {
    /// The cursor's line.
    pub lnum: Option<i64>,
    /// The cursor's column.
    pub col: Option<i64>,
    /// The cursor's virtual cells.
    pub coladd: Option<i64>,
    /// The wanted column.
    pub curswant: Option<i64>,
    /// The first displayed line.
    pub topline: Option<i64>,
}

/// The numbers with one more dictionary entry.
pub open spec fn with_view_field(
    fields: ViewFields,
    name: Seq<u8>,
    value: TypvalView,
) -> ViewFields {
    let number = crate::builtins::number_of(value);
    if name == crate::builtins::key("lnum"@) {
        ViewFields { lnum: number, ..fields }
    } else if name == crate::builtins::key("col"@) {
        ViewFields { col: number, ..fields }
    } else if name == crate::builtins::key("coladd"@) {
        ViewFields { coladd: number, ..fields }
    } else if name == crate::builtins::key("curswant"@) {
        ViewFields { curswant: number, ..fields }
    } else if name == crate::builtins::key("topline"@) {
        ViewFields { topline: number, ..fields }
    } else {
        fields
    }
}

/// The numbers that a dictionary holds, later entries winning.
pub open spec fn view_fields(entries: Seq<(Seq<u8>, TypvalView)>) -> ViewFields
    decreases entries.len(),
{
    if entries.len() == 0 {
        ViewFields { lnum: None, col: None, coladd: None, curswant: None, topline: None }
    } else {
        with_view_field(
            view_fields(entries.drop_last()),
            entries.last().0,
            entries.last().1,
        )
    }
}

fn read_view(entries: &Vec<(OxStr, Typval)>) -> (fields: ViewFields)
    ensures
        fields == view_fields(crate::types::entries_view(entries@)),
{
    let mut fields = ViewFields {
        lnum: None,
        col: None,
        coladd: None,
        curswant: None,
        topline: None,
    };
    let ghost views = crate::types::entries_view(entries@);
    let mut next: usize = 0;
    while next < entries.len()
        invariant
            next <= entries@.len(),
            views == crate::types::entries_view(entries@),
            fields == view_fields(views.take(next as int)),
        decreases entries@.len() - next,
    {
        let name = &entries[next].0;
        let number = typval_number(&entries[next].1);
        proof {
            assert(views.take(next + 1).drop_last() =~= views.take(next as int));
            assert(views.take(next + 1).last() == (name@, entries@[next as int].1@));
        }
        if is_key(name, "lnum") {
            fields.lnum = number;
        } else if is_key(name, "col") {
            fields.col = number;
        } else if is_key(name, "coladd") {
            fields.coladd = number;
        } else if is_key(name, "curswant") {
            fields.curswant = number;
        } else if is_key(name, "topline") {
            fields.topline = number;
        }
        next = next + 1;
    }
    assert(views.take(next as int) =~= views);
    fields
}

/// A window's state with a view's first line restored.
pub open spec fn with_topline(state: WindowState, topline: Option<i64>) -> WindowState {
    match topline {
        Some(topline) => WindowState {
            topline: crate::splice::sat(crate::splice::larger(topline as int, 1)),
            ..state
        },
        None => state,
    }
}

/// A window's state with a view's cursor restored, scrolled as little as shows
/// it.
pub open spec fn with_view_cursor(
    state: WindowState,
    lnum: i64,
    col: Option<i64>,
    text_height: int,
) -> WindowState {
    let line = crate::splice::sat(crate::splice::larger(lnum as int, 1));
    WindowState {
        cursor: Position {
            lnum: line,
            col: match col {
                Some(col) => crate::splice::sat(col as int),
                None => state.cursor.col,
            },
        },
        topline: crate::splice::visible_topline(
            state.topline as int,
            line as int,
            text_height,
        ) as usize,
        set_curswant: true,
        ..state
    }
}

/// A window's state with a view's columns restored.
pub open spec fn with_columns(
    state: WindowState,
    coladd: Option<i64>,
    curswant: Option<i64>,
) -> WindowState {
    WindowState {
        coladd: match coladd {
            Some(coladd) => coladd,
            None => state.coladd,
        },
        curswant: match curswant {
            Some(curswant) => curswant,
            None => state.curswant,
        },
        set_curswant: state.set_curswant && curswant is None,
        ..state
    }
}

/// A window's state with a view restored.
pub open spec fn restored(state: WindowState, fields: ViewFields, text_height: int) -> WindowState {
    let scrolled = with_topline(state, fields.topline);
    let placed = match fields.lnum {
        Some(lnum) => with_view_cursor(scrolled, lnum, fields.col, text_height),
        None => scrolled,
    };
    with_columns(placed, fields.coladd, fields.curswant)
}

fn at_least_one(number: i64) -> (count: usize)
    ensures
        count == crate::splice::sat(crate::splice::larger(number as int, 1)),
{
    if number < 1 {
        1
    } else {
        number_count(number)
    }
}

/// `winrestview({dict})`: restores the current window's view from what the
/// dictionary holds of it.
///
/// # Errors
///
/// `E1297` for a value that is no dictionary, and `E957` without a current
/// window.
pub fn call_winrestview(editor: &mut Editor, args: &[Typval]) -> (value: Result<Typval, EvalError>)
    requires
        old(editor).wf(),
        args@.len() > 0,
    ensures
        final(editor).wf(),
        final(editor).links() == old(editor).links(),
        match args@[0]@ {
            TypvalView::Dict(entries) => match old(editor).links().current_window() {
                Some(window) => {
                    let at = old(editor).links().window_at(window);
                    let entry = old(editor).windows@[at];
                    &&& value is Ok
                    &&& value->Ok_0@ == TypvalView::Number(0)
                    &&& final(editor).windows@ == old(editor).windows@.update(
                        at,
                        WindowEntry {
                            state: restored(
                                entry.state,
                                view_fields(entries),
                                entry.area.text_height as int,
                            ),
                            ..entry
                        },
                    )
                    &&& *final(editor) == (Editor {
                        windows: final(editor).windows,
                        ..*old(editor)
                    })
                },
                None => {
                    &&& crate::types::fails_with(value, "E957"@, "Invalid window"@)
                    &&& *final(editor) == *old(editor)
                },
            },
            _ => {
                &&& crate::types::fails_with(value, "E1297"@, "Dictionary required"@)
                &&& *final(editor) == *old(editor)
            },
        },
{
    let entries = match &args[0] {
        Typval::Dict(entries) => entries,
        _ => {
            return Err(EvalError::new("E1297", "Dictionary required"));
        },
    };
    proof {
        crate::types::lemma_dict_view(*entries);
    }
    let at: usize = match find_current(editor) {
        Some(at) => at,
        None => {
            return Err(EvalError::new("E957", "Invalid window"));
        },
    };
    let fields = read_view(entries);
    let height: usize = editor.windows[at].area.text_height;
    assert(height >= 1);
    restore_view(&mut editor.windows[at].state, fields, height);
    proof {
        crate::editor::lemma_tables_kept(*old(editor), *editor);
        assert(editor.windows@ =~= old(editor).windows@.update(
            at as int,
            editor.windows@[at as int],
        ));
    }
    Ok(Typval::Number(0))
}

fn restore_view(state: &mut WindowState, fields: ViewFields, text_height: usize)
    requires
        text_height >= 1,
    ensures
        *final(state) == restored(*old(state), fields, text_height as int),
{
    if let Some(topline) = fields.topline {
        state.topline = at_least_one(topline);
    }
    if let Some(lnum) = fields.lnum {
        let line: usize = at_least_one(lnum);
        if let Some(col) = fields.col {
            state.cursor.col = number_count(col);
        }
        state.cursor.lnum = line;
        state.topline = cursor_visible_topline(state.topline, line, text_height);
        state.set_curswant = true;
    }
    if let Some(coladd) = fields.coladd {
        state.coladd = coladd;
    }
    if let Some(curswant) = fields.curswant {
        state.curswant = curswant;
        state.set_curswant = false;
    }
}

proof fn lemma_keys_differ(one: Seq<char>, other: Seq<char>)
    requires
        one != other,
    ensures
        crate::builtins::key(one) != crate::builtins::key(other),
{
    vstd::utf8::encode_utf8_decode_utf8(one);
    vstd::utf8::encode_utf8_decode_utf8(other);
}

proof fn lemma_saved_fields(state: WindowState, cells: usize)
    requires
        state.cursor.lnum <= i64::MAX,
        state.cursor.col <= i64::MAX,
        state.topline <= i64::MAX,
    ensures
        view_fields(view_value(state, cells)->Dict_0) == (ViewFields {
            lnum: Some(state.cursor.lnum as i64),
            col: Some(state.cursor.col as i64),
            coladd: Some(state.coladd),
            curswant: Some(wanted_column(state, cells)),
            topline: Some(state.topline as i64),
        }),
{
    reveal_strlit("lnum");
    reveal_strlit("col");
    reveal_strlit("coladd");
    reveal_strlit("curswant");
    reveal_strlit("topline");
    reveal_strlit("topfill");
    reveal_strlit("leftcol");
    reveal_strlit("skipcol");
    assert("topline"@[3] == 'l');
    assert("topfill"@[3] == 'f');
    assert("leftcol"@[0] == 'l');
    assert("skipcol"@[0] == 's');
    lemma_keys_differ("col"@, "lnum"@);
    lemma_keys_differ("coladd"@, "lnum"@);
    lemma_keys_differ("coladd"@, "col"@);
    lemma_keys_differ("curswant"@, "lnum"@);
    lemma_keys_differ("curswant"@, "col"@);
    lemma_keys_differ("curswant"@, "coladd"@);
    lemma_keys_differ("topline"@, "lnum"@);
    lemma_keys_differ("topline"@, "col"@);
    lemma_keys_differ("topline"@, "coladd"@);
    lemma_keys_differ("topline"@, "curswant"@);
    lemma_keys_differ("topfill"@, "lnum"@);
    lemma_keys_differ("topfill"@, "col"@);
    lemma_keys_differ("topfill"@, "coladd"@);
    lemma_keys_differ("topfill"@, "curswant"@);
    lemma_keys_differ("topfill"@, "topline"@);
    lemma_keys_differ("leftcol"@, "lnum"@);
    lemma_keys_differ("leftcol"@, "col"@);
    lemma_keys_differ("leftcol"@, "coladd"@);
    lemma_keys_differ("leftcol"@, "curswant"@);
    lemma_keys_differ("leftcol"@, "topline"@);
    lemma_keys_differ("skipcol"@, "lnum"@);
    lemma_keys_differ("skipcol"@, "col"@);
    lemma_keys_differ("skipcol"@, "coladd"@);
    lemma_keys_differ("skipcol"@, "curswant"@);
    lemma_keys_differ("skipcol"@, "topline"@);
    let entries = view_value(state, cells)->Dict_0;
    let e1 = entries.take(1);
    let e2 = entries.take(2);
    let e3 = entries.take(3);
    let e4 = entries.take(4);
    let e5 = entries.take(5);
    let e6 = entries.take(6);
    let e7 = entries.take(7);
    assert(e1.drop_last() =~= Seq::empty());
    assert(e2.drop_last() =~= e1);
    assert(e3.drop_last() =~= e2);
    assert(e4.drop_last() =~= e3);
    assert(e5.drop_last() =~= e4);
    assert(e6.drop_last() =~= e5);
    assert(e7.drop_last() =~= e6);
    assert(entries.drop_last() =~= e7);
    reveal_with_fuel(view_fields, 2);
    let f1 = view_fields(e1);
    let f2 = view_fields(e2);
    let f3 = view_fields(e3);
    let f4 = view_fields(e4);
    let f5 = view_fields(e5);
    assert(f1.lnum == Some(state.cursor.lnum as i64));
    assert(f2 == (ViewFields { col: Some(state.cursor.col as i64), ..f1 }));
    assert(f3 == (ViewFields { coladd: Some(state.coladd), ..f2 }));
    assert(f4 == (ViewFields { curswant: Some(wanted_column(state, cells)), ..f3 }));
    assert(f5 == (ViewFields { topline: Some(state.topline as i64), ..f4 }));
    assert(view_fields(e6) == f5);
    assert(view_fields(e7) == f5);
    assert(view_fields(entries) == f5);
}

/// Restoring a saved view brings any later state of the window back to it: the
/// first line, the cursor and the wanted column. A window shows its cursor, so
/// restoring does not scroll.
pub proof fn law_saved_view_is_restored(
    saved: WindowState,
    later: WindowState,
    cells: usize,
    text_height: int,
)
    requires
        1 <= saved.topline <= saved.cursor.lnum < saved.topline + text_height,
        saved.cursor.lnum <= i64::MAX,
        saved.cursor.col <= i64::MAX,
    ensures
        ({
            let after = restored(
                later,
                view_fields(view_value(saved, cells)->Dict_0),
                text_height,
            );
            &&& after.cursor == saved.cursor
            &&& after.topline == saved.topline
            &&& after.coladd == saved.coladd
            &&& after.curswant == wanted_column(saved, cells)
            &&& !after.set_curswant
            &&& after.buffer == later.buffer
        }),
{
    lemma_saved_fields(saved, cells);
}

/// The window that `getwinvar()` reads: a number that is not positive is the
/// current one, another a place in the current tabpage.
pub open spec fn variable_window(editor: Editor, number: i64) -> Option<WinHandle> {
    if editor.current_tab is None {
        None
    } else if number <= 0 {
        editor.links().current_window()
    } else {
        crate::builtins::numbered(crate::builtins::tab_windows(editor), number as int)
    }
}

/// The window that `setwinvar()` changes: zero is the current one, a positive
/// number a place in the current tabpage, and a negative number is none.
pub open spec fn settable_window(editor: Editor, number: i64) -> Option<WinHandle> {
    if number < 0 {
        None
    } else {
        variable_window(editor, number)
    }
}

fn find_variable_window(editor: &Editor, number: i64) -> (at: Option<usize>)
    requires
        editor.wf(),
    ensures
        match variable_window(*editor, number) {
            Some(window) => at is Some && at->0 == editor.links().window_at(window) && at->0
                < editor.windows@.len() && editor.windows@[at->0 as int].handle == window
                && editor.has_window(window),
            None => at is None,
        },
{
    if editor.current_tab.is_none() {
        return None;
    }
    proof {
        crate::builtins::window::lemma_tab_windows_live(*editor);
    }
    let window = if number <= 0 {
        editor.current_window()
    } else {
        let windows = current_windows(editor);
        numbered_window(&windows, number)
    };
    match window {
        Some(window) => editor.find_window(window),
        None => None,
    }
}

/// Whether a name asks for an option.
pub open spec fn names_option(name: Seq<char>) -> bool {
    name.len() > 0 && name[0] == '&'
}

/// What a window variable or option is for scripts; `others` holds the options
/// that the editor itself does not read.
pub open spec fn variable_value(
    editor: Editor,
    entry: WindowEntry,
    name: Seq<char>,
    others: Seq<OtherOptions>,
) -> Option<TypvalView> {
    if names_option(name) {
        match crate::options::option_named(name.drop_first()) {
            Some(OptionName::Window(option)) => Some(
                crate::options::option_value_view(
                    crate::options::window_value(entry.options, option),
                ),
            ),
            Some(OptionName::Global(option)) => Some(
                crate::options::option_value_view(crate::options::global_value(editor, option)),
            ),
            None => match crate::options::other_option(others, entry.handle, name.drop_first()) {
                Some(option) => Some(crate::options::option_value_view(option.value)),
                None => None,
            },
        }
    } else if name.len() == 0 {
        Some(TypvalView::Dict(crate::types::entries_view(entry.variables@)))
    } else {
        crate::dict::entry_of(
            crate::types::entries_view(entry.variables@),
            vstd::utf8::encode_utf8(name),
        )
    }
}

fn option_name(chars: &Vec<char>) -> (name: String)
    requires
        chars@.len() > 0,
    ensures
        name@ == chars@.drop_first(),
{
    let rest = vstd::slice::slice_subrange(chars.as_slice(), 1, chars.len());
    assert(rest@ =~= chars@.drop_first());
    string_of(rest)
}

fn find_variable(editor: &Editor, at: usize, name: &str, others: &Vec<OtherOptions>) -> (value:
    Option<Typval>)
    requires
        editor.wf(),
        at < editor.windows@.len(),
    ensures
        match variable_value(*editor, editor.windows@[at as int], name@, others@) {
            Some(view) => value is Some && value->0@ == view,
            None => value is None,
        },
{
    let chars = chars_of(name);
    let entry = &editor.windows[at];
    if chars.len() > 0 && chars[0] == '&' {
        let option = option_name(&chars);
        return match option_metadata(option.as_str()) {
            Some(OptionName::Window(option)) => Some(
                option_to_typval(&get_window(&entry.options, option)),
            ),
            Some(OptionName::Global(option)) => Some(
                option_to_typval(&get_global(editor, option)),
            ),
            None => match find_other(others, entry.handle, option.as_str()) {
                Some((row, place)) => Some(
                    option_to_typval(&others[row].options[place].1.value),
                ),
                None => None,
            },
        };
    }
    if chars.len() == 0 {
        return Some(Typval::dict(crate::builtins::window::copy_entries(&entry.variables)));
    }
    let wanted = OxStr::from_text(name);
    proof {
        let views = crate::types::entries_view(entry.variables@);
        assert(crate::dict::keys(entry.variables@) =~= Seq::new(
            views.len(),
            |i: int| views[i].0,
        ));
    }
    match crate::dict::position_of(&entry.variables, wanted.as_bytes()) {
        Some(place) => Some(entry.variables[place].1.clone()),
        None => None,
    }
}

/// What `getwinvar()` answers when there is nothing to read.
pub open spec fn fallback(args: Seq<Typval>) -> TypvalView {
    if args.len() > 2 {
        args[2]@
    } else {
        TypvalView::String(Seq::empty())
    }
}

/// `getwinvar({winnr}, {varname} [, {def}])`: a variable or, behind an `&`, an
/// option of a window; with an empty name all its variables. Without such a
/// window or value it is the default. `others` holds the options that the editor
/// itself does not read.
///
/// # Errors
///
/// `E119` and `E118` for too few and too many arguments.
pub fn call_getwinvar(editor: &Editor, args: &[Typval], others: &Vec<OtherOptions>) -> (value:
    Result<Typval, EvalError>)
    requires
        editor.wf(),
    ensures
        if args@.len() < 2 {
            crate::types::fails_with(
                value,
                "E119"@,
                "Not enough arguments for function: getwinvar"@,
            )
        } else if args@.len() > 3 {
            crate::types::fails_with(value, "E118"@, "Too many arguments for function: getwinvar"@)
        } else {
            let found = match variable_window(*editor, argument_number(args@, 0, 0)) {
                Some(window) => variable_value(
                    *editor,
                    editor.window_entry(window),
                    crate::builtins::text_of(args@[1]@),
                    others@,
                ),
                None => None,
            };
            &&& value is Ok
            &&& value->Ok_0@ == match found {
                Some(found) => found,
                None => fallback(args@),
            }
        },
{
    if args.len() < 2 {
        return Err(EvalError::new("E119", "Not enough arguments for function: getwinvar"));
    }
    if args.len() > 3 {
        return Err(EvalError::new("E118", "Too many arguments for function: getwinvar"));
    }
    let name = typval_to_text(&args[1]);
    if let Some(at) = find_variable_window(editor, number_at(args, 0, 0)) {
        if let Some(found) = find_variable(editor, at, name.as_str(), others) {
            return Ok(found);
        }
    }
    if args.len() > 2 {
        return Ok(args[2].clone());
    }
    let none: Vec<u8> = Vec::new();
    let value = Typval::String(OxStr(none));
    assert(none@ =~= Seq::empty());
    Ok(value)
}

/// The option value that a script value stands for, if it can: a number is on or
/// off for a boolean option.
pub open spec fn option_from(value: TypvalView, wanted: OptionType) -> Option<
    crate::options::OptionView,
> {
    match value {
        TypvalView::Number(number) => Some(
            if wanted == OptionType::Boolean {
                crate::options::OptionView::Boolean(number != 0)
            } else {
                crate::options::OptionView::Number(number)
            },
        ),
        TypvalView::String(bytes) => Some(
            crate::options::OptionView::String(crate::text::lossy_text(bytes)),
        ),
        _ => None,
    }
}

fn to_option(value: &Typval, wanted: OptionType) -> (option: Option<OptionValue>)
    ensures
        match option_from(value@, wanted) {
            Some(view) => option is Some && option->0@ == view,
            None => option is None,
        },
{
    match value {
        Typval::Number(number) => Some(
            if wanted == OptionType::Boolean {
                OptionValue::Boolean(*number != 0)
            } else {
                OptionValue::Number(*number)
            },
        ),
        Typval::String(bytes) => Some(OptionValue::String(lossy(bytes.as_bytes()))),
        _ => None,
    }
}

/// One option of the window at `at` was set.
pub open spec fn sets_option(
    before: Editor,
    after: Editor,
    at: int,
    option: crate::options::WindowOption,
    value: crate::options::OptionView,
) -> bool {
    let old_entry = before.windows@[at];
    let entry = after.windows@[at];
    &&& after.windows@ == before.windows@.update(at, entry)
    &&& entry == (WindowEntry { options: entry.options, ..old_entry })
    &&& crate::options::window_value(entry.options, option) == value
    &&& forall|other: crate::options::WindowOption|
        other != option ==> #[trigger] crate::options::window_value(entry.options, other)
            == crate::options::window_value(old_entry.options, other)
    &&& after == (Editor { windows: after.windows, ..before })
}

/// Whether a script value can be an option's: `E728` when it is neither a number
/// nor a string, `E355` when it has another type.
pub open spec fn bad_option<T>(
    result: Result<T, EvalError>,
    value: TypvalView,
    wanted: OptionType,
) -> bool {
    match option_from(value, wanted) {
        None => crate::types::fails_with(
            result,
            "E728"@,
            "Use a Number or a String for a window option"@,
        ),
        Some(_) => crate::types::fails_with(
            result,
            "E355"@,
            "The value has the wrong type for the option"@,
        ),
    }
}

/// Whether a script value can be the value of an option of that type.
pub open spec fn suits_option(value: TypvalView, wanted: OptionType) -> bool {
    match option_from(value, wanted) {
        Some(view) => crate::options::has_type(view, wanted),
        None => false,
    }
}

/// The option value that a script value stands for.
fn suited_option(value: &Typval, wanted: OptionType) -> (option: Result<OptionValue, EvalError>)
    ensures
        if suits_option(value@, wanted) {
            option is Ok && Some(option->Ok_0@) == option_from(value@, wanted)
        } else {
            bad_option(option, value@, wanted)
        },
{
    let given = match to_option(value, wanted) {
        Some(given) => given,
        None => {
            return Err(EvalError::new("E728", "Use a Number or a String for a window option"));
        },
    };
    let fits: bool = match &given {
        OptionValue::Boolean(_) => wanted == OptionType::Boolean,
        OptionValue::Number(_) => wanted == OptionType::Number,
        OptionValue::String(_) => wanted == OptionType::String,
    };
    if fits {
        Ok(given)
    } else {
        Err(EvalError::new("E355", "The value has the wrong type for the option"))
    }
}

/// The outcome of `setwinvar()` on the option `name` of the window at `at`.
/// Options that are not local to windows stay as they are.
pub open spec fn option_outcome(
    result: Result<Typval, EvalError>,
    before: (Editor, Seq<OtherOptions>),
    after: (Editor, Seq<OtherOptions>),
    at: int,
    name: Seq<char>,
    value: TypvalView,
) -> bool {
    let window = before.0.windows@[at].handle;
    match crate::options::option_named(name) {
        Some(OptionName::Window(option)) => {
            let wanted = crate::options::window_type(option);
            &&& after.1 == before.1
            &&& if suits_option(value, wanted) {
                result is Ok && sets_option(
                    before.0,
                    after.0,
                    at,
                    option,
                    option_from(value, wanted)->0,
                )
            } else {
                bad_option(result, value, wanted) && after.0 == before.0
            }
        },
        Some(OptionName::Global(_)) => result is Ok && after == before,
        None => match crate::options::other_option(before.1, window, name) {
            Some(option) => if !option.local {
                result is Ok && after == before
            } else if suits_option(value, option.kind) {
                &&& result is Ok
                &&& after.0 == before.0
                &&& crate::options::sets_other(
                    before.1,
                    after.1,
                    window,
                    name,
                    option_from(value, option.kind)->0,
                )
            } else {
                bad_option(result, value, option.kind) && after == before
            },
            None => result is Ok && after == before,
        },
    }
}

/// Sets an option that the editor reads in the window at `at`.
fn set_known_option(
    editor: &mut Editor,
    at: usize,
    option: WindowOption,
    value: &Typval,
) -> (result: Result<Typval, EvalError>)
    requires
        old(editor).wf(),
        at < old(editor).windows@.len(),
    ensures
        final(editor).wf(),
        ({
            let wanted = crate::options::window_type(option);
            if suits_option(value@, wanted) {
                &&& result is Ok
                &&& result->Ok_0@ == TypvalView::Number(0)
                &&& sets_option(
                    *old(editor),
                    *final(editor),
                    at as int,
                    option,
                    option_from(value@, wanted)->0,
                )
            } else {
                bad_option(result, value@, wanted) && *final(editor) == *old(editor)
            }
        }),
{
    let given = match suited_option(value, type_of_window(option)) {
        Ok(given) => given,
        Err(error) => {
            return Err(error);
        },
    };
    let mut options = editor.windows[at].options.clone();
    let _ = set_window(&mut options, option, given);
    editor.windows[at].options = options;
    proof {
        assert(old(editor).windows@[at as int].area.text_height >= 1);
        crate::editor::lemma_tables_kept(*old(editor), *editor);
        assert(editor.windows@ =~= old(editor).windows@.update(
            at as int,
            editor.windows@[at as int],
        ));
    }
    Ok(Typval::Number(0))
}

/// `setwinvar({winnr}, {varname}, {val})`: sets a variable or, behind an `&`, an
/// option of a window, of the current one when the number is zero. `others`
/// holds the options that the editor itself does not read.
///
/// # Errors
///
/// `E119` and `E118` for too few and too many arguments, `E957` without such a
/// window, `E728` for an option value that is neither a number nor a string, and
/// `E355` for one of the wrong type. The messages do not print the value.
pub fn call_setwinvar(
    editor: &mut Editor,
    args: &[Typval],
    others: &mut Vec<OtherOptions>,
) -> (value: Result<Typval, EvalError>)
    requires
        old(editor).wf(),
    ensures
        final(editor).wf(),
        value is Ok ==> value->Ok_0@ == TypvalView::Number(0),
        value is Err ==> *final(editor) == *old(editor) && final(others)@ == old(others)@,
        if args@.len() < 3 {
            crate::types::fails_with(
                value,
                "E119"@,
                "Not enough arguments for function: setwinvar"@,
            )
        } else if args@.len() > 3 {
            crate::types::fails_with(value, "E118"@, "Too many arguments for function: setwinvar"@)
        } else {
            let name = crate::builtins::text_of(args@[1]@);
            match settable_window(*old(editor), argument_number(args@, 0, 0)) {
                None => crate::types::fails_with(value, "E957"@, "Invalid window number"@),
                Some(window) => {
                    let at = old(editor).links().window_at(window);
                    if names_option(name) {
                        option_outcome(
                            value,
                            (*old(editor), old(others)@),
                            (*final(editor), final(others)@),
                            at,
                            name.drop_first(),
                            args@[2]@,
                        )
                    } else {
                        &&& value is Ok
                        &&& final(others)@ == old(others)@
                        &&& old(editor).sets_variable(
                            final(editor),
                            at,
                            vstd::utf8::encode_utf8(name),
                            args@[2]@,
                        )
                    }
                },
            }
        },
{
    if args.len() < 3 {
        return Err(EvalError::new("E119", "Not enough arguments for function: setwinvar"));
    }
    if args.len() > 3 {
        return Err(EvalError::new("E118", "Too many arguments for function: setwinvar"));
    }
    let number: i64 = number_at(args, 0, 0);
    if number < 0 {
        return Err(EvalError::new("E957", "Invalid window number"));
    }
    let at: usize = match find_variable_window(editor, number) {
        Some(at) => at,
        None => {
            return Err(EvalError::new("E957", "Invalid window number"));
        },
    };
    let name = typval_to_text(&args[1]);
    let chars = chars_of(name.as_str());
    let window = editor.windows[at].handle;
    if chars.len() > 0 && chars[0] == '&' {
        let option = option_name(&chars);
        match option_metadata(option.as_str()) {
            Some(OptionName::Window(known)) => {
                return set_known_option(editor, at, known, &args[2]);
            },
            Some(OptionName::Global(_)) => {},
            None => if let Some((row, place)) = find_other(others, window, option.as_str()) {
                if others[row].options[place].1.local {
                    match suited_option(&args[2], others[row].options[place].1.kind) {
                        Ok(given) => set_other(others, window, option.as_str(), given),
                        Err(error) => {
                            return Err(error);
                        },
                    }
                }
            },
        }
        return Ok(Typval::Number(0));
    }
    proof {
        assert(editor.numbered());
        assert(editor.windows@[at as int].handle.0 >= 1);
    }
    let _ = editor.set_window_variable(window, OxStr::from_text(name.as_str()), args[2].clone());
    Ok(Typval::Number(0))
}

/// A frame as a script value: a window's leaf, or the frames of a row or a
/// column.
pub open spec fn frame_value(frame: Frame) -> TypvalView
    decreases frame,
{
    match frame {
        Frame::Leaf(window) => TypvalView::List(
            seq![
                TypvalView::String(vstd::utf8::encode_utf8("leaf"@)),
                TypvalView::Number(window.0 as i64),
            ],
        ),
        Frame::Row(children) => TypvalView::List(
            seq![
                TypvalView::String(vstd::utf8::encode_utf8("row"@)),
                TypvalView::List(
                    Seq::new(
                        children@.len(),
                        |i: int|
                            if 0 <= i < children@.len() {
                                frame_value(children@[i])
                            } else {
                                TypvalView::Nil
                            },
                    ),
                ),
            ],
        ),
        Frame::Column(children) => TypvalView::List(
            seq![
                TypvalView::String(vstd::utf8::encode_utf8("col"@)),
                TypvalView::List(
                    Seq::new(
                        children@.len(),
                        |i: int|
                            if 0 <= i < children@.len() {
                                frame_value(children@[i])
                            } else {
                                TypvalView::Nil
                            },
                    ),
                ),
            ],
        ),
    }
}

fn child_layouts(children: &Vec<Frame>) -> (values: Vec<Typval>)
    ensures
        values@.len() == children@.len(),
        forall|i: int|
            0 <= i < children@.len() ==> (#[trigger] values@[i])@ == frame_value(children@[i]),
    decreases children@,
{
    let mut values: Vec<Typval> = Vec::new();
    let mut next: usize = 0;
    while next < children.len()
        invariant
            next <= children@.len(),
            values@.len() == next,
            forall|i: int|
                0 <= i < next ==> (#[trigger] values@[i])@ == frame_value(children@[i]),
        decreases children@.len() - next,
    {
        values.push(frame_layout(&children[next]));
        next = next + 1;
    }
    values
}

/// A frame as a script value.
#[must_use]
pub fn frame_layout(frame: &Frame) -> (value: Typval)
    ensures
        value@ == frame_value(*frame),
    decreases frame,
{
    match frame {
        Frame::Leaf(window) => {
            let value = Typval::list(vec![Typval::text("leaf"), Typval::Number(window.0 as i64)]);
            assert(value@->List_0 =~= frame_value(*frame)->List_0);
            value
        },
        Frame::Row(children) => {
            let values = Typval::list(child_layouts(children));
            let ghost inner = values@;
            assert(inner->List_0 =~= frame_value(*frame)->List_0[1]->List_0);
            let value = Typval::list(vec![Typval::text("row"), values]);
            assert(value@->List_0 =~= frame_value(*frame)->List_0);
            value
        },
        Frame::Column(children) => {
            let values = Typval::list(child_layouts(children));
            let ghost inner = values@;
            assert(inner->List_0 =~= frame_value(*frame)->List_0[1]->List_0);
            let value = Typval::list(vec![Typval::text("col"), values]);
            assert(value@->List_0 =~= frame_value(*frame)->List_0);
            value
        },
    }
}

/// The tabpage that `winlayout()` shows: none or zero is the current one.
pub open spec fn layout_tab(editor: Editor, args: Seq<Typval>) -> Option<crate::types::TabHandle> {
    let number = argument_number(args, 0, 0);
    if number == 0 {
        editor.current_tab
    } else if 1 <= number <= editor.tabs@.len() {
        Some(editor.tabs@[number - 1].handle)
    } else {
        None
    }
}

/// `winlayout([{tabnr}])`: the tiled window layout of a tabpage as a nested
/// list, and an empty one for an unknown tabpage.
#[must_use]
pub fn call_winlayout(editor: &Editor, args: &[Typval], layouts: &Vec<TabLayout>) -> (value: Typval)
    ensures
        value@ == match layout_tab(*editor, args@) {
            Some(tab) => match crate::builtins::window::layout_of(layouts@, tab) {
                Some(layout) => frame_value(layout.root),
                None => TypvalView::List(Seq::empty()),
            },
            None => TypvalView::List(Seq::empty()),
        },
{
    let number: i64 = number_at(args, 0, 0);
    let tab = if number == 0 {
        editor.current_tab
    } else if number >= 1 && number as u64 <= editor.tabs.len() as u64 {
        Some(editor.tabs[(number - 1) as usize].handle)
    } else {
        None
    };
    if let Some(tab) = tab {
        if let Some(at) = crate::builtins::window::find_layout(layouts, tab) {
            return frame_layout(&layouts[at].root);
        }
    }
    let value = Typval::list(Vec::new());
    assert(value@->List_0 =~= Seq::empty());
    value
}

} // verus!
