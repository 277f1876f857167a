//! Window and tabpage state.

use vstd::prelude::*;

use crate::types::{BufHandle, OxStr, Position, TabHandle, Typval, WinHandle};

verus! {

/// Option values local to a window.
#[derive(Debug, PartialEq, Eq)]
pub struct WindowOptions {
    /// `'diff'`.
    pub diff: bool,
    /// `'scrollbind'`.
    pub scrollbind: bool,
    /// `'cursorbind'`.
    pub cursorbind: bool,
    /// `'wrap'`.
    pub wrap: bool,
    /// `'foldmethod'`.
    pub foldmethod: String,
    /// `'foldcolumn'`.
    pub foldcolumn: String,
    /// `'foldenable'`.
    pub foldenable: bool,
    /// `'foldlevel'`.
    pub foldlevel: i64,
    /// `'winfixbuf'`.
    pub winfixbuf: bool,
    /// `'eventignorewin'`.
    pub eventignorewin: String,
}

impl Clone for WindowOptions {
    fn clone(&self) -> (copy: Self)
        ensures
            copy == *self,
    {
        WindowOptions {
            diff: self.diff,
            scrollbind: self.scrollbind,
            cursorbind: self.cursorbind,
            wrap: self.wrap,
            foldmethod: self.foldmethod.clone(),
            foldcolumn: self.foldcolumn.clone(),
            foldenable: self.foldenable,
            foldlevel: self.foldlevel,
            winfixbuf: self.winfixbuf,
            eventignorewin: self.eventignorewin.clone(),
        }
    }
}

/// Rectangle of screen cells.
#[derive(Clone, Copy, Debug, PartialEq, Eq, Structural)]
pub struct Geometry {
    /// Zero-based top row.
    pub row: usize,
    /// Zero-based left column.
    pub col: usize,
    /// Columns.
    pub width: usize,
    /// Rows.
    pub height: usize,
}

/// Where the layout put a window.
#[derive(Clone, Copy, Debug, PartialEq, Eq, Structural)]
pub struct Area {
    /// The window's rectangle.
    pub geometry: Geometry,
    /// Rows that show text, without status and message rows; at least one.
    pub text_height: usize,
}

/// Failures of the layout.
#[derive(Clone, Copy, Debug, PartialEq, Eq, Structural)]
pub enum LayoutError {
    /// A new window does not fit.
    NoRoom,
    /// The last tiled window of a tabpage cannot be closed.
    LastWindow,
    /// The window is not part of the layout.
    UnknownWindow,
}

/// Viewport state of one window.
#[derive(Debug, PartialEq, Eq)]
pub struct WindowState {
    /// The displayed buffer.
    pub buffer: BufHandle,
    /// The cursor.
    pub cursor: Position,
    /// Virtual cells of the cursor behind the end of its line.
    pub coladd: i64,
    /// First displayed line, one-based.
    pub topline: usize,
    /// The column that vertical motions want.
    pub curswant: i64,
    /// Whether the wanted column follows the cursor.
    pub set_curswant: bool,
    /// The buffer displayed before this one.
    pub alternate_buffer: Option<BufHandle>,
    /// Window whose location list this window displays.
    pub loclist_ref: Option<WinHandle>,
    /// Directory set for this window alone.
    pub local_directory: Option<String>,
    /// Directory left by the last change for this window alone.
    pub previous_directory: Option<String>,
}

impl WindowState {
    /// A window that shows `buffer` from its first line.
    pub open spec fn showing(buffer: BufHandle, cursor: Position) -> WindowState {
        WindowState {
            buffer,
            cursor,
            coladd: 0,
            topline: 1,
            curswant: 0,
            set_curswant: true,
            alternate_buffer: None,
            loclist_ref: None,
            local_directory: None,
            previous_directory: None,
        }
    }

    /// A window that shows `buffer` from its first line.
    #[must_use]
    pub fn new(buffer: BufHandle, cursor: Position) -> (state: Self)
        ensures
            state == WindowState::showing(buffer, cursor),
    {
        WindowState {
            buffer,
            cursor,
            coladd: 0,
            topline: 1,
            curswant: 0,
            set_curswant: true,
            alternate_buffer: None,
            loclist_ref: None,
            local_directory: None,
            previous_directory: None,
        }
    }
}

/// One highlighted match of a window.
#[derive(Debug, PartialEq, Eq)]
pub struct MatchItem {
    /// The match's id; negative to have one assigned.
    pub id: i64,
    /// Highlight group.
    pub group: OxStr,
    /// Pattern text.
    pub pattern: OxStr,
    /// Priority.
    pub priority: i64,
}

/// What a [`MatchItem`] holds.
#[verifier::ext_equal]
pub struct MatchItemView {
    pub id: i64,
    pub group: Seq<u8>,
    pub pattern: Seq<u8>,
    pub priority: i64,
}

impl View for MatchItem {
    type V = MatchItemView;

    open spec fn view(&self) -> MatchItemView {
        MatchItemView {
            id: self.id,
            group: self.group@,
            pattern: self.pattern@,
            priority: self.priority,
        }
    }
}

impl Clone for MatchItem {
    fn clone(&self) -> (copy: Self)
        ensures
            copy@ == self@,
    {
        MatchItem {
            id: self.id,
            group: self.group.clone(),
            pattern: self.pattern.clone(),
            priority: self.priority,
        }
    }
}

/// Everything the editor keeps of one window.
#[derive(Debug, PartialEq, Eq)]
pub struct WindowEntry {
    /// The window's handle.
    pub handle: WinHandle,
    /// The tabpage that owns the window.
    pub tab: TabHandle,
    /// Whether the window floats above the tiled ones.
    pub floating: bool,
    /// Where the layout put it.
    pub area: Area,
    /// Viewport state.
    pub state: WindowState,
    /// Options local to the window.
    pub options: WindowOptions,
    /// Window-local variables in insertion order.
    pub variables: Vec<(OxStr, Typval)>,
    /// Bumped by every writer of the variables.
    pub variables_version: u64,
    /// Highlight namespace selected for the window.
    pub highlight_namespace: i64,
    /// Highlighted matches.
    pub matches: Vec<MatchItem>,
    /// The id that the next match without one gets.
    pub next_match_id: i64,
}

/// The id that the first match without one gets.
pub const FIRST_MATCH_ID: i64 = 1_000;

impl WindowEntry {
    /// A window as it is made: without variables and matches.
    pub open spec fn fresh(
        &self,
        handle: WinHandle,
        tab: TabHandle,
        floating: bool,
        area: Area,
        state: WindowState,
        options: WindowOptions,
    ) -> bool {
        &&& self.handle == handle
        &&& self.tab == tab
        &&& self.floating == floating
        &&& self.area == area
        &&& self.state == state
        &&& self.options == options
        &&& self.variables@.len() == 0
        &&& self.variables_version == 0
        &&& self.highlight_namespace == 0
        &&& self.matches@.len() == 0
        &&& self.next_match_id == FIRST_MATCH_ID
    }

    /// A window without variables and matches.
    #[must_use]
    pub fn new(
        handle: WinHandle,
        tab: TabHandle,
        floating: bool,
        area: Area,
        state: WindowState,
        options: WindowOptions,
    ) -> (entry: Self)
        ensures
            entry.fresh(handle, tab, floating, area, state, options),
    {
        WindowEntry {
            handle,
            tab,
            floating,
            area,
            state,
            options,
            variables: Vec::new(),
            variables_version: 0,
            highlight_namespace: 0,
            matches: Vec::new(),
            next_match_id: FIRST_MATCH_ID,
        }
    }
}

/// Everything the editor keeps of one tabpage.
#[derive(Debug, PartialEq, Eq)]
pub struct TabEntry {
    /// The tabpage's handle.
    pub handle: TabHandle,
    /// Tiled windows in layout order.
    pub tiled: Vec<WinHandle>,
    /// Floating windows, topmost last.
    pub floats: Vec<WinHandle>,
    /// The window that is current while the tabpage is.
    pub current: WinHandle,
    /// Tabpage-local variables in insertion order.
    pub variables: Vec<(OxStr, Typval)>,
    /// Bumped by every writer of the variables.
    pub variables_version: u64,
}

impl TabEntry {
    /// The variables are those of another entry.
    pub open spec fn same_variables(&self, other: TabEntry) -> bool {
        self.variables == other.variables && self.variables_version == other.variables_version
    }
}

} // verus!
