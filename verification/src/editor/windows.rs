//! Live windows: which is current, where it looks, and which buffer it shows.

use vstd::prelude::*;

use crate::buffer::{BufferState, BufferStateError};
use crate::editor::{BufferEntry, BufferRelease, Editor};
use crate::errors::EditorError;
use crate::splice::{cursor_visible_topline, is_nofileread, max_of};
use crate::text::lossy;
use crate::types::{BufHandle, Position, TabHandle, WinHandle};
use crate::window::{Geometry, TabEntry, WindowEntry, WindowState};

verus! {

/// The handles of windows.
pub open spec fn window_handles(windows: Seq<WindowEntry>) -> Seq<WinHandle> {
    windows.map_values(|entry: WindowEntry| entry.handle)
}

/// The handles of tabpages.
pub open spec fn tab_handles(tabs: Seq<TabEntry>) -> Seq<TabHandle> {
    tabs.map_values(|entry: TabEntry| entry.handle)
}

/// What reading a buffer's file gave.
#[derive(Debug, PartialEq, Eq)]
pub enum FileRead {
    /// The file's bytes.
    Content(Vec<u8>),
    /// There is no such file.
    Missing,
    /// The file exists and cannot be read.
    Failed,
}

/// Where an entered buffer gets its text from.
#[derive(Debug, PartialEq, Eq)]
pub enum TextSource {
    /// The text is resident.
    Resident,
    /// The buffer opens empty.
    Empty,
    /// The text is read from the file of that name.
    File(String),
}

/// The stretches of `bytes` between line feeds.
pub open spec fn line_pieces(bytes: Seq<u8>) -> Seq<Seq<u8>>
    decreases bytes.len(),
{
    if bytes.len() == 0 {
        seq![Seq::empty()]
    } else if bytes.last() == 10 {
        line_pieces(bytes.drop_last()).push(Seq::empty())
    } else {
        let rest = line_pieces(bytes.drop_last());
        rest.update(rest.len() - 1, rest.last().push(bytes.last()))
    }
}

/// There is always a stretch.
pub proof fn lemma_line_pieces(bytes: Seq<u8>)
    ensures
        line_pieces(bytes).len() > 0,
    decreases bytes.len(),
{
    if bytes.len() > 0 {
        lemma_line_pieces(bytes.drop_last());
    }
}

/// The lines of a file: a line feed ends a line, so one at the very end starts
/// no further line.
pub open spec fn file_lines(bytes: Seq<u8>) -> Seq<Seq<u8>> {
    if bytes.len() > 0 && bytes.last() == 10 {
        line_pieces(bytes.drop_last())
    } else {
        line_pieces(bytes)
    }
}

/// Splits a file's bytes into lines.
#[must_use]
pub fn split_lines(bytes: &[u8]) -> (lines: Vec<Vec<u8>>)
    ensures
        crate::text::views(lines@) == file_lines(bytes@),
        lines@.len() > 0,
{
    let count: usize = if bytes.len() > 0 && bytes[bytes.len() - 1] == 10 {
        bytes.len() - 1
    } else {
        bytes.len()
    };
    let mut lines: Vec<Vec<u8>> = Vec::new();
    let mut line: Vec<u8> = Vec::new();
    let mut next: usize = 0;
    assert(crate::text::views(lines@).push(line@) =~= line_pieces(bytes@.take(0)));
    while next < count
        invariant
            next <= count <= bytes@.len(),
            crate::text::views(lines@).push(line@) == line_pieces(bytes@.take(next as int)),
        decreases count - next,
    {
        let ghost so_far = crate::text::views(lines@).push(line@);
        let ghost here = bytes@.take(next + 1);
        assert(here.drop_last() =~= bytes@.take(next as int));
        let byte: u8 = bytes[next];
        if byte == 10 {
            let mut fresh: Vec<u8> = Vec::new();
            std::mem::swap(&mut line, &mut fresh);
            lines.push(fresh);
            assert(crate::text::views(lines@) =~= so_far);
            assert(crate::text::views(lines@).push(line@) =~= so_far.push(Seq::empty()));
        } else {
            let ghost before = line@;
            line.push(byte);
            assert(so_far.last() == before);
            assert(crate::text::views(lines@).push(line@) =~= so_far.update(
                so_far.len() - 1,
                before.push(byte),
            ));
        }
        next = next + 1;
    }
    let ghost so_far = crate::text::views(lines@).push(line@);
    lines.push(line);
    assert(crate::text::views(lines@) =~= so_far);
    proof {
        if count == bytes@.len() {
            assert(bytes@.take(count as int) =~= bytes@);
        } else {
            assert(bytes@.take(count as int) =~= bytes@.drop_last());
        }
    }
    lines
}

impl Editor {
    /// Returns live window handles in allocation order.
    #[must_use]
    pub fn windows(&self) -> (handles: Vec<WinHandle>)
        ensures
            handles@ == window_handles(self.windows@),
    {
        let mut handles: Vec<WinHandle> = Vec::new();
        let mut next: usize = 0;
        while next < self.windows.len()
            invariant
                next <= self.windows@.len(),
                handles@ == window_handles(self.windows@.take(next as int)),
            decreases self.windows@.len() - next,
        {
            handles.push(self.windows[next].handle);
            assert(self.windows@.take(next + 1) =~= self.windows@.take(next as int).push(
                self.windows@[next as int],
            ));
            next = next + 1;
            assert(handles@ =~= window_handles(self.windows@.take(next as int)));
        }
        assert(self.windows@.take(next as int) =~= self.windows@);
        handles
    }

    /// Returns live tabpage handles in tab order.
    #[must_use]
    pub fn tabpages(&self) -> (handles: Vec<TabHandle>)
        ensures
            handles@ == tab_handles(self.tabs@),
    {
        let mut handles: Vec<TabHandle> = Vec::new();
        let mut next: usize = 0;
        while next < self.tabs.len()
            invariant
                next <= self.tabs@.len(),
                handles@ == tab_handles(self.tabs@.take(next as int)),
            decreases self.tabs@.len() - next,
        {
            handles.push(self.tabs[next].handle);
            assert(self.tabs@.take(next + 1) =~= self.tabs@.take(next as int).push(
                self.tabs@[next as int],
            ));
            next = next + 1;
            assert(handles@ =~= tab_handles(self.tabs@.take(next as int)));
        }
        assert(self.tabs@.take(next as int) =~= self.tabs@);
        handles
    }

    /// Returns a live tabpage's one-based position.
    #[must_use]
    pub fn tabpage_index(&self, tab: TabHandle) -> (index: Option<usize>)
        requires
            self.wf(),
        ensures
            index == (if self.has_tab(tab) {
                Some((self.links().tab_at(tab) + 1) as usize)
            } else {
                None
            }),
    {
        match self.find_tab(tab) {
            Some(at) => {
                assert(at < self.tabs.len());
                Some(at + 1)
            },
            None => None,
        }
    }

    /// Returns the tabpage that owns a live window.
    ///
    /// # Errors
    ///
    /// Those of [`Editor::locate_window`].
    pub fn window_tabpage(&self, window: WinHandle) -> (tab: Result<TabHandle, EditorError>)
        requires
            self.wf(),
        ensures
            match self.window_request(window) {
                Ok(at) => tab == Ok::<_, EditorError>(self.windows@[at].tab),
                Err(error) => tab == Err::<TabHandle, _>(error),
            },
    {
        match self.locate_window(window) {
            Ok(at) => Ok(self.windows[at].tab),
            Err(error) => Err(error),
        }
    }

    /// Returns a live tabpage.
    ///
    /// # Errors
    ///
    /// Those of [`Editor::locate_tab`].
    pub fn tabpage(&self, tab: TabHandle) -> (entry: Result<&TabEntry, EditorError>)
        requires
            self.wf(),
        ensures
            match self.tab_request(tab) {
                Ok(at) => entry == Ok::<_, EditorError>(&self.tabs@[at]),
                Err(error) => entry == Err::<&TabEntry, _>(error),
            },
    {
        match self.locate_tab(tab) {
            Ok(at) => Ok(&self.tabs[at]),
            Err(error) => Err(error),
        }
    }

    /// Returns viewport state for a live window.
    ///
    /// # Errors
    ///
    /// Those of [`Editor::locate_window`].
    pub fn window(&self, window: WinHandle) -> (state: Result<&WindowState, EditorError>)
        requires
            self.wf(),
        ensures
            match self.window_request(window) {
                Ok(at) => state == Ok::<_, EditorError>(&self.windows@[at].state),
                Err(error) => state == Err::<&WindowState, _>(error),
            },
    {
        match self.locate_window(window) {
            Ok(at) => Ok(&self.windows[at].state),
            Err(error) => Err(error),
        }
    }

    /// Returns viewport state for changing it. The tables stay sound if the
    /// caller leaves the shown buffer alone.
    ///
    /// # Errors
    ///
    /// Those of [`Editor::locate_window`].
    pub fn window_mut(&mut self, window: WinHandle) -> (state: Result<
        &mut WindowState,
        EditorError,
    >)
        requires
            old(self).wf(),
        ensures
            match old(self).window_request(window) {
                Ok(at) => {
                    &&& state is Ok
                    &&& *state->Ok_0 == old(self).windows@[at].state
                    &&& final(self).windows@ == old(self).windows@.update(
                        at,
                        WindowEntry { state: *final(state->Ok_0), ..old(self).windows@[at] },
                    )
                    &&& *final(self) == (Editor { windows: final(self).windows, ..*old(self) })
                },
                Err(error) => state is Err && state->Err_0 == error && *final(self) == *old(self),
            },
    {
        match self.locate_window(window) {
            Ok(at) => Ok(&mut self.windows[at].state),
            Err(error) => Err(error),
        }
    }

    /// Returns one tabpage's tiled and floating windows in display order.
    ///
    /// # Errors
    ///
    /// Those of [`Editor::locate_tab`].
    pub fn tabpage_windows(&self, tab: TabHandle) -> (windows: Result<Vec<WinHandle>, EditorError>)
        requires
            self.wf(),
        ensures
            match self.tab_request(tab) {
                Ok(at) => windows is Ok && windows->Ok_0@ == self.links().tabs[at].windows(),
                Err(error) => windows is Err && windows->Err_0 == error,
            },
    {
        match self.locate_tab(tab) {
            Ok(at) => Ok(self.windows_of(at)),
            Err(error) => Err(error),
        }
    }

    /// The windows of the tabpage at `at` in display order.
    pub fn windows_of(&self, at: usize) -> (windows: Vec<WinHandle>)
        requires
            at < self.tabs@.len(),
        ensures
            windows@ == self.links().tabs[at as int].windows(),
    {
        let mut windows: Vec<WinHandle> = Vec::new();
        push_handles(&mut windows, &self.tabs[at].tiled);
        push_handles(&mut windows, &self.tabs[at].floats);
        assert(self.links().tabs[at as int] == crate::editor::tab_key(self.tabs@[at as int]));
        assert(windows@ =~= self.tabs@[at as int].tiled@ + self.tabs@[at as int].floats@);
        windows
    }

    /// Returns a window's assigned screen geometry.
    ///
    /// # Errors
    ///
    /// Those of [`Editor::locate_window`].
    pub fn window_geometry(&self, window: WinHandle) -> (geometry: Result<Geometry, EditorError>)
        requires
            self.wf(),
        ensures
            match self.window_request(window) {
                Ok(at) => geometry == Ok::<_, EditorError>(self.windows@[at].area.geometry),
                Err(error) => geometry == Err::<Geometry, _>(error),
            },
    {
        match self.locate_window(window) {
            Ok(at) => Ok(self.windows[at].area.geometry),
            Err(error) => Err(error),
        }
    }

    /// Returns the renderable text-row count of a window; at least one.
    ///
    /// # Errors
    ///
    /// Those of [`Editor::locate_window`].
    pub fn window_text_height(&self, window: WinHandle) -> (height: Result<usize, EditorError>)
        requires
            self.wf(),
        ensures
            match self.window_request(window) {
                Ok(at) => height == Ok::<_, EditorError>(self.windows@[at].area.text_height)
                    && height->Ok_0 >= 1,
                Err(error) => height == Err::<usize, _>(error),
            },
    {
        match self.locate_window(window) {
            Ok(at) => {
                assert(self.windows@[at as int].area.text_height >= 1);
                Ok(self.windows[at].area.text_height)
            },
            Err(error) => Err(error),
        }
    }

    /// Whether the current window is pinned to its buffer by `'winfixbuf'`.
    #[must_use]
    pub fn current_window_fixed_to_buffer(&self) -> (fixed: bool)
        requires
            self.wf(),
        ensures
            fixed == match self.links().current_window() {
                Some(window) => self.window_entry(window).options.winfixbuf,
                None => false,
            },
    {
        match self.current_window() {
            Some(window) => {
                proof {
                    self.links().lemma_current_window();
                }
                match self.find_window(window) {
                    Some(at) => self.windows[at].options.winfixbuf,
                    None => false,
                }
            },
            None => false,
        }
    }

    /// Finds a window by its numeric id across all tabpages; numbers that are
    /// not positive mean the current window.
    #[must_use]
    pub fn find_window_by_id(&self, id: i64) -> (window: Option<WinHandle>)
        requires
            self.wf(),
        ensures
            window == (if id <= 0 {
                self.links().current_window()
            } else if id <= i32::MAX && self.has_window(WinHandle(id as i32)) {
                Some(WinHandle(id as i32))
            } else {
                None
            }),
    {
        if id <= 0 {
            return self.current_window();
        }
        match WinHandle::try_from_number(id) {
            Some(window) => match self.find_window(window) {
                Some(_) => Some(window),
                None => None,
            },
            None => None,
        }
    }

    /// The window that was current before `window` is entered.
    pub open spec fn left_window(&self, window: WinHandle) -> Option<WinHandle> {
        match self.links().current_window() {
            Some(current) if current != window => Some(current),
            _ => self.previous_window,
        }
    }

    /// Entering the window at `at` makes `after` of this editor.
    pub open spec fn enters(&self, after: &Editor, at: int) -> bool {
        let entry = self.windows@[at];
        let t = self.links().tab_at(entry.tab);
        &&& after.tabs@ == self.tabs@.update(
            t,
            TabEntry { current: entry.handle, ..self.tabs@[t] },
        )
        &&& *after == (Editor {
            tabs: after.tabs,
            current_tab: Some(entry.tab),
            previous_window: self.left_window(entry.handle),
            ..*self
        })
        &&& after.links().current_window() == Some(entry.handle)
        &&& after.links().windows == self.links().windows
        &&& after.links().buffers == self.links().buffers
    }

    /// Makes `window` the current window, recording the one left behind.
    ///
    /// # Errors
    ///
    /// Those of [`Editor::locate_window`].
    pub fn set_current_window(&mut self, window: WinHandle) -> (result: Result<(), EditorError>)
        requires
            old(self).wf(),
        ensures
            final(self).wf(),
            match old(self).window_request(window) {
                Ok(at) => result == Ok::<(), EditorError>(()) && old(self).enters(final(self), at),
                Err(error) => result == Err::<(), _>(error) && *final(self) == *old(self),
            },
    {
        let at: usize = match self.locate_window(window) {
            Ok(at) => at,
            Err(error) => {
                return Err(error);
            },
        };
        let handle = self.windows[at].handle;
        let tab = self.windows[at].tab;
        if let Some(current) = self.current_window() {
            if current != handle {
                self.previous_window = Some(current);
            }
        }
        proof {
            lemma_window_tab(*old(self), at as int);
            assert(self.links() == old(self).links());
        }
        if let Some(t) = self.find_tab(tab) {
            self.tabs[t].current = handle;
            self.current_tab = Some(tab);
            proof {
                lemma_entered(*old(self), *self, at as int, t as int);
            }
        }
        Ok(())
    }

    /// Makes a live tabpage current.
    ///
    /// # Errors
    ///
    /// Those of [`Editor::locate_tab`].
    pub fn set_current_tabpage(&mut self, tab: TabHandle) -> (result: Result<(), EditorError>)
        requires
            old(self).wf(),
        ensures
            final(self).wf(),
            match old(self).tab_request(tab) {
                Ok(at) => result == Ok::<(), EditorError>(()) && *final(self) == (Editor {
                    current_tab: Some(old(self).tabs@[at].handle),
                    ..*old(self)
                }) && final(self).links().current_window() == Some(old(self).tabs@[at].current),
                Err(error) => result == Err::<(), _>(error) && *final(self) == *old(self),
            },
    {
        let at: usize = match self.locate_tab(tab) {
            Ok(at) => at,
            Err(error) => {
                return Err(error);
            },
        };
        self.current_tab = Some(self.tabs[at].handle);
        proof {
            lemma_tab_entered(*old(self), *self, at as int);
        }
        Ok(())
    }

    /// Changes a live window's cursor position and scrolls as little as shows
    /// it.
    ///
    /// # Errors
    ///
    /// Those of [`Editor::locate_window`].
    pub fn set_window_cursor(&mut self, window: WinHandle, position: Position) -> (result: Result<
        (),
        EditorError,
    >)
        requires
            old(self).wf(),
        ensures
            final(self).wf(),
            final(self).links() == old(self).links(),
            match old(self).window_request(window) {
                Ok(at) => {
                    let entry = old(self).windows@[at];
                    &&& result == Ok::<(), EditorError>(())
                    &&& final(self).windows@ == old(self).windows@.update(
                        at,
                        WindowEntry {
                            state: WindowState {
                                cursor: position,
                                topline: crate::splice::visible_topline(
                                    entry.state.topline as int,
                                    position.lnum as int,
                                    entry.area.text_height as int,
                                ) as usize,
                                set_curswant: true,
                                ..entry.state
                            },
                            ..entry
                        },
                    )
                    &&& *final(self) == (Editor { windows: final(self).windows, ..*old(self) })
                },
                Err(error) => result == Err::<(), _>(error) && *final(self) == *old(self),
            },
    {
        let at: usize = match self.locate_window(window) {
            Ok(at) => at,
            Err(error) => {
                return Err(error);
            },
        };
        let height: usize = self.windows[at].area.text_height;
        let topline: usize = cursor_visible_topline(
            self.windows[at].state.topline,
            position.lnum,
            height,
        );
        self.windows[at].state.cursor = position;
        self.windows[at].state.topline = topline;
        self.windows[at].state.set_curswant = true;
        proof {
            crate::editor::lemma_tables_kept(*old(self), *self);
        }
        Ok(())
    }

    /// Changes the first displayed line of a live window.
    ///
    /// # Errors
    ///
    /// Those of [`Editor::locate_window`].
    pub fn set_window_topline(&mut self, window: WinHandle, topline: usize) -> (result: Result<
        (),
        EditorError,
    >)
        requires
            old(self).wf(),
        ensures
            final(self).wf(),
            final(self).links() == old(self).links(),
            match old(self).window_request(window) {
                Ok(at) => {
                    let entry = old(self).windows@[at];
                    &&& result == Ok::<(), EditorError>(())
                    &&& final(self).windows@ == old(self).windows@.update(
                        at,
                        WindowEntry {
                            state: WindowState {
                                topline: crate::splice::larger(topline as int, 1) as usize,
                                ..entry.state
                            },
                            ..entry
                        },
                    )
                    &&& *final(self) == (Editor { windows: final(self).windows, ..*old(self) })
                },
                Err(error) => result == Err::<(), _>(error) && *final(self) == *old(self),
            },
    {
        let at: usize = match self.locate_window(window) {
            Ok(at) => at,
            Err(error) => {
                return Err(error);
            },
        };
        self.windows[at].state.topline = max_of(topline, 1);
        proof {
            crate::editor::lemma_tables_kept(*old(self), *self);
        }
        Ok(())
    }
}

/// The text that an entered buffer gets, when it is not resident.
pub open spec fn entered_text(source: TextSource, file: FileRead) -> Option<Seq<Seq<u8>>> {
    match source {
        TextSource::Resident => None,
        TextSource::Empty => Some(seq![Seq::empty()]),
        TextSource::File(_) => match file {
            FileRead::Content(bytes) => Some(file_lines(bytes@)),
            FileRead::Missing => Some(seq![Seq::empty()]),
            FileRead::Failed => None,
        },
    }
}

impl Editor {
    /// Where the buffer at `at` gets its text from when it is entered. A named
    /// ordinary buffer re-reads its file; an unnamed buffer, or one whose
    /// `'buftype'` is never read, opens empty.
    pub open spec fn takes_text_from(&self, at: int, source: TextSource) -> bool {
        let state = self.buffers@[at].state;
        if state.lines is Some {
            source is Resident
        } else if state.name@.len() == 0 || crate::splice::nofileread(
            vstd::utf8::encode_utf8(state.options.buftype@),
        ) {
            source is Empty
        } else {
            source is File && source->File_0@ == crate::text::lossy_text(state.name@)
        }
    }

    /// Where the buffer at `at` gets its text from when it is entered.
    fn text_source(&self, at: usize) -> (source: TextSource)
        requires
            at < self.buffers@.len(),
        ensures
            self.takes_text_from(at as int, source),
    {
        let state = &self.buffers[at].state;
        if state.lines.is_some() {
            TextSource::Resident
        } else if state.name.as_bytes().len() == 0 || is_nofileread(
            state.options.buftype.as_str(),
        ) {
            TextSource::Empty
        } else {
            TextSource::File(lossy(state.name.as_bytes()))
        }
    }

    /// Where a buffer gets its text from when it is entered, so that the file
    /// can be read before the switch. A buffer that is not live needs none.
    #[must_use]
    pub fn unloaded_buffer_text(&self, buffer: BufHandle) -> (source: TextSource)
        requires
            self.wf(),
        ensures
            if self.has_buffer(buffer) {
                self.takes_text_from(self.links().buffer_at(buffer), source)
            } else {
                source is Resident
            },
    {
        match self.find_buffer(buffer) {
            Some(at) => self.text_source(at),
            None => TextSource::Resident,
        }
    }

    /// Which window and buffer a switch means, or why it fails.
    pub open spec fn switch_request(&self, window: WinHandle, buffer: BufHandle) -> Result<
        (int, int),
        EditorError,
    > {
        match (self.resolved_window(window), self.resolved_buffer(buffer)) {
            (None, _) => Err(EditorError::NoCurrentTabpage),
            (_, None) => Err(EditorError::NoCurrentTabpage),
            (Some(window), Some(buffer)) => if !self.has_buffer(buffer) {
                Err(EditorError::UnknownBuffer(buffer))
            } else if !self.has_window(window) {
                Err(EditorError::UnknownWindow(window))
            } else {
                Ok((self.links().window_at(window), self.links().buffer_at(buffer)))
            },
        }
    }

    /// Finds the window and the buffer of a switch.
    fn locate_switch(&self, window: WinHandle, buffer: BufHandle) -> (places: Result<
        (usize, usize),
        EditorError,
    >)
        requires
            self.wf(),
        ensures
            match self.switch_request(window, buffer) {
                Ok((at, to)) => places is Ok && (places->Ok_0).0 == at && (places->Ok_0).1 == to
                    && at < self.windows@.len() && to < self.buffers@.len(),
                Err(error) => places is Err && places->Err_0 == error,
            },
    {
        let window = match self.resolve_window_handle(window) {
            Ok(window) => window,
            Err(error) => {
                return Err(error);
            },
        };
        let buffer = match self.resolve_buffer_handle(buffer) {
            Ok(buffer) => buffer,
            Err(error) => {
                return Err(error);
            },
        };
        match self.find_buffer(buffer) {
            Some(to) => match self.find_window(window) {
                Some(at) => Ok((at, to)),
                None => Err(EditorError::UnknownWindow(window)),
            },
            None => Err(EditorError::UnknownBuffer(buffer)),
        }
    }

    /// The undo block of the buffer at `from` is closed, and nothing else
    /// happened.
    pub open spec fn only_syncs(&self, after: &Editor, from: int) -> bool {
        let entry = self.buffers@[from];
        &&& after.buffers@ == self.buffers@.update(
            from,
            BufferEntry { state: BufferState { undo_open: false, ..entry.state }, ..entry },
        )
        &&& *after == (Editor { buffers: after.buffers, ..*self })
    }

    /// The window at `at` switches from the buffer at `from` to the one at
    /// `to`: the new buffer gets `text` if it was not resident and counts one
    /// window more; the old one ends its undo block and counts one less, and
    /// loses its text with the last window unless it is kept.
    pub open spec fn switches(
        &self,
        after: &Editor,
        at: int,
        from: int,
        to: int,
        release: BufferRelease,
        text: Option<Seq<Seq<u8>>>,
    ) -> bool {
        let old_entry = self.buffers@[from];
        let new_entry = self.buffers@[to];
        let shown = after.buffers@[to].state;
        let window = self.windows@[at];
        &&& after.buffers@ == self.buffers@.update(to, after.buffers@[to]).update(
            from,
            BufferEntry {
                state: BufferState {
                    undo_open: false,
                    attachments: (old_entry.state.attachments - 1) as usize,
                    lines: if old_entry.state.attachments == 1 && release
                        == BufferRelease::Unload {
                        None
                    } else {
                        old_entry.state.lines
                    },
                    ..old_entry.state
                },
                ..old_entry
            },
        )
        &&& after.buffers@[to].handle == new_entry.handle
        &&& match text {
            Some(rows) => {
                &&& shown.lines is Some
                &&& shown.rows() == rows
                &&& shown == (BufferState {
                    lines: shown.lines,
                    modified: false,
                    notedited: false,
                    attachments: (new_entry.state.attachments + 1) as usize,
                    ..new_entry.state
                })
            },
            None => shown == (BufferState {
                attachments: (new_entry.state.attachments + 1) as usize,
                ..new_entry.state
            }),
        }
        &&& after.windows@ == self.windows@.update(
            at,
            WindowEntry {
                state: WindowState {
                    alternate_buffer: Some(old_entry.handle),
                    loclist_ref: None,
                    buffer: new_entry.handle,
                    ..window.state
                },
                ..window
            },
        )
        &&& *after == (Editor { buffers: after.buffers, windows: after.windows, ..*self })
    }

    /// The outcome of switching a window to a buffer.
    pub open spec fn switch_outcome(
        &self,
        after: &Editor,
        result: Result<(), EditorError>,
        window: WinHandle,
        buffer: BufHandle,
        release: BufferRelease,
        file: FileRead,
    ) -> bool {
        match self.switch_request(window, buffer) {
            Err(error) => result == Err::<(), _>(error) && *after == *self,
            Ok((at, to)) => {
                let from = self.links().buffer_at(self.windows@[at].state.buffer);
                if from == to {
                    result == Ok::<(), EditorError>(()) && *after == *self
                } else {
                    exists|source: TextSource| #[trigger]
                        self.takes_text_from(to, source) && if source is File && file is Failed {
                            &&& result == Err::<(), _>(
                                EditorError::Buffer(BufferStateError::Unloaded),
                            )
                            &&& self.only_syncs(after, from)
                        } else {
                            &&& result == Ok::<(), EditorError>(())
                            &&& self.switches(
                                after,
                                at,
                                from,
                                to,
                                release,
                                entered_text(source, file),
                            )
                        }
                }
            },
        }
    }

    /// Switches the buffer displayed by a window and updates both attachment
    /// counts. Entering an unloaded buffer loads it: `file` is what reading the
    /// file gave that [`Editor::unloaded_buffer_text`] names, and is not looked
    /// at when that names none.
    ///
    /// # Errors
    ///
    /// [`EditorError::NoCurrentTabpage`] when a current window or buffer is
    /// meant and there is none, [`EditorError::UnknownBuffer`] or
    /// [`EditorError::UnknownWindow`] when a handle is not live, or
    /// [`EditorError::Buffer`] when the file cannot be read. The window then
    /// shows what it showed.
    pub fn set_window_buffer(
        &mut self,
        window: WinHandle,
        buffer: BufHandle,
        release: BufferRelease,
        file: FileRead,
    ) -> (result: Result<(), EditorError>)
        requires
            old(self).wf(),
        ensures
            final(self).wf(),
            old(self).switch_outcome(final(self), result, window, buffer, release, file),
    {
        let (at, to): (usize, usize) = match self.locate_switch(window, buffer) {
            Ok(places) => places,
            Err(error) => {
                return Err(error);
            },
        };
        proof {
            lemma_window_tab(*self, at as int);
        }
        let shown = self.windows[at].state.buffer;
        let from: usize = match self.find_buffer(shown) {
            Some(from) => from,
            None => {
                return Ok(());
            },
        };
        if from == to {
            return Ok(());
        }
        let source = self.text_source(to);
        let ghost origin = source;
        assert(old(self).takes_text_from(to as int, origin));
        let text: Option<Vec<Vec<u8>>> = match source {
            TextSource::Resident => None,
            TextSource::Empty => Some(one_empty_line()),
            TextSource::File(_) => match &file {
                FileRead::Content(bytes) => Some(split_lines(bytes.as_slice())),
                FileRead::Missing => Some(one_empty_line()),
                FileRead::Failed => {
                    self.buffers[from].state.sync_undo();
                    proof {
                        crate::editor::lemma_tables_kept(*old(self), *self);
                        assert(old(self).only_syncs(self, from as int));
                    }
                    return Err(EditorError::Buffer(BufferStateError::Unloaded));
                },
            },
        };
        self.show(at, from, to, release, text);
        Ok(())
    }

    /// Switches the window at `at` from the buffer at `from` to the one at `to`.
    fn show(
        &mut self,
        at: usize,
        from: usize,
        to: usize,
        release: BufferRelease,
        text: Option<Vec<Vec<u8>>>,
    )
        requires
            old(self).wf(),
            at < old(self).windows@.len(),
            from < old(self).buffers@.len(),
            to < old(self).buffers@.len(),
            from != to,
            old(self).buffers@[from as int].handle == old(self).windows@[at as int].state.buffer,
            text is Some ==> text->0@.len() > 0,
            text is None ==> old(self).buffers@[to as int].state.lines is Some,
        ensures
            final(self).wf(),
            old(self).switches(
                final(self),
                at as int,
                from as int,
                to as int,
                release,
                loaded_rows(text),
            ),
    {
        proof {
            crate::editor::lemma_window_count(*self);
            lemma_shown_counts(*self, at as int, from as int);
        }
        let shown = self.buffers[from].handle;
        let handle = self.buffers[to].handle;
        let ghost rows = loaded_rows(text);
        if let Some(lines) = text {
            self.buffers[to].state.load(lines);
            self.buffers[to].state.modified = false;
            self.buffers[to].state.notedited = false;
        }
        let _ = self.buffers[to].state.attach();
        let keep: bool = match release {
            BufferRelease::KeepLoaded => true,
            BufferRelease::Unload => false,
        };
        self.buffers[from].state.sync_undo();
        self.buffers[from].state.detach(keep);
        self.windows[at].state.alternate_buffer = Some(shown);
        self.windows[at].state.loclist_ref = None;
        self.windows[at].state.buffer = handle;
        proof {
            let old_from = old(self).buffers@[from as int];
            assert(rows is Some ==> self.buffers@[to as int].state.rows() == rows->0);
            assert(self.buffers@ =~= old(self).buffers@.update(
                to as int,
                self.buffers@[to as int],
            ).update(from as int, self.buffers@[from as int]));
            assert(self.windows@ =~= old(self).windows@.update(
                at as int,
                self.windows@[at as int],
            ));
            lemma_switched(
                *old(self),
                *self,
                at as int,
                from as int,
                to as int,
                keep || old_from.state.attachments > 1,
            );
        }
    }

    /// Displays a live buffer in the current window.
    ///
    /// # Errors
    ///
    /// [`EditorError::NoCurrentTabpage`] when there is no current window, and
    /// otherwise those of [`Editor::set_window_buffer`].
    pub fn set_current_buffer(
        &mut self,
        buffer: BufHandle,
        release: BufferRelease,
        file: FileRead,
    ) -> (result: Result<(), EditorError>)
        requires
            old(self).wf(),
        ensures
            final(self).wf(),
            old(self).switch_outcome(final(self), result, WinHandle(0), buffer, release, file),
    {
        self.set_window_buffer(WinHandle::current(), buffer, release, file)
    }
}

/// The rows of a text, if there is one.
pub open spec fn loaded_rows(text: Option<Vec<Vec<u8>>>) -> Option<Seq<Seq<u8>>> {
    match text {
        Some(lines) => Some(crate::text::views(lines@)),
        None => None,
    }
}

/// The text of an empty buffer.
fn one_empty_line() -> (lines: Vec<Vec<u8>>)
    ensures
        crate::text::views(lines@) == seq![Seq::<u8>::empty()],
        lines@.len() == 1,
{
    let mut lines: Vec<Vec<u8>> = Vec::new();
    lines.push(Vec::new());
    assert(crate::text::views(lines@) =~= seq![Seq::<u8>::empty()]);
    lines
}

/// The buffer that a window shows counts it.
pub proof fn lemma_shown_counts(editor: Editor, at: int, b: int)
    requires
        editor.wf(),
        0 <= at < editor.windows@.len(),
        0 <= b < editor.buffers@.len(),
        editor.buffers@[b].handle == editor.windows@[at].state.buffer,
    ensures
        editor.buffers@[b].state.attachments > 0,
        editor.buffers@[b].state.lines is Some,
{
    let links = editor.links();
    links.lemma_parts();
    assert(links.windows[at] == crate::editor::window_key(editor.windows@[at]));
    assert(links.buffers[b] == crate::editor::buffer_key(editor.buffers@[b]));
    crate::links::lemma_showing_bounds(links.windows, links.buffers[b].handle);
}

/// Switching a window's buffer keeps the tables sound.
proof fn lemma_switched(before: Editor, after: Editor, at: int, from: int, to: int, keep: bool)
    requires
        before.wf(),
        0 <= at < before.windows@.len(),
        0 <= from < before.buffers@.len(),
        0 <= to < before.buffers@.len(),
        from != to,
        before.windows@[at].state.buffer == before.buffers@[from].handle,
        keep || before.buffers@[from].state.attachments == 1,
        before.buffers@[to].state.attachments < usize::MAX,
        after == (Editor { buffers: after.buffers, windows: after.windows, ..before }),
        after.buffers@.len() == before.buffers@.len(),
        forall|i: int|
            0 <= i < after.buffers@.len() && i != from && i != to ==> #[trigger] after.buffers@[i]
                == before.buffers@[i],
        after.buffers@[to].handle == before.buffers@[to].handle,
        after.buffers@[to].state.wf(),
        after.buffers@[to].state.lines is Some,
        after.buffers@[to].state.attachments == before.buffers@[to].state.attachments + 1,
        after.buffers@[from].handle == before.buffers@[from].handle,
        after.buffers@[from].state.wf(),
        after.buffers@[from].state.attachments == before.buffers@[from].state.attachments - 1,
        after.buffers@[from].state.lines is Some == keep,
        after.windows@.len() == before.windows@.len(),
        forall|i: int|
            0 <= i < after.windows@.len() && i != at ==> #[trigger] after.windows@[i]
                == before.windows@[i],
        after.windows@[at].area == before.windows@[at].area,
        crate::editor::window_key(after.windows@[at]) == (crate::links::WindowKey {
            buffer: before.buffers@[to].handle,
            ..crate::editor::window_key(before.windows@[at])
        }),
    ensures
        after.wf(),
{
    let old_links = before.links();
    let new_links = after.links();
    assert(old_links.windows[at] == crate::editor::window_key(before.windows@[at]));
    assert(old_links.buffers[from] == crate::editor::buffer_key(before.buffers@[from]));
    assert(old_links.buffers[to] == crate::editor::buffer_key(before.buffers@[to]));
    assert(new_links.buffers =~= old_links.buffers.update(
        to,
        crate::links::recounted(
            old_links.buffers[to],
            old_links.buffers[to].attachments + 1,
            true,
        ),
    ).update(
        from,
        crate::links::recounted(
            old_links.buffers[from],
            old_links.buffers[from].attachments - 1,
            keep,
        ),
    )) by {
        assert forall|i: int| 0 <= i < after.buffers@.len() && i != from && i
            != to implies new_links.buffers[i] == old_links.buffers[i] by {
            assert(after.buffers@[i] == before.buffers@[i]);
        }
    }
    assert(new_links.windows =~= old_links.windows.update(
        at,
        crate::links::WindowKey {
            buffer: old_links.buffers[to].handle,
            ..old_links.windows[at]
        },
    )) by {
        assert forall|i: int| 0 <= i < after.windows@.len() && i
            != at implies new_links.windows[i] == old_links.windows[i] by {
            assert(after.windows@[i] == before.windows@[i]);
        }
    }
    old_links.lemma_show(new_links, at, from, to, keep);
    assert(after.numbered()) by {
        assert forall|i: int| 0 <= i < after.buffers@.len() implies 1 <= (
        #[trigger] after.buffers@[i]).handle.0 < after.next_buffer by {
            assert(after.buffers@[i].handle == before.buffers@[i].handle);
        }
        assert forall|i: int| 0 <= i < after.windows@.len() implies crate::editor::LOWEST_WINDOW_ID
            <= (#[trigger] after.windows@[i]).handle.0 < after.next_window by {
            assert(after.windows@[i].handle == before.windows@[i].handle);
        }
    }
    assert forall|i: int| 0 <= i < after.buffers@.len() implies (
    #[trigger] after.buffers@[i]).state.wf() by {
        if i != from && i != to {
            assert(after.buffers@[i] == before.buffers@[i]);
        }
    }
    assert forall|i: int| 0 <= i < after.windows@.len() implies (
    #[trigger] after.windows@[i]).area.text_height >= 1 by {
        assert(after.windows@[i].area == before.windows@[i].area);
    }
}

/// A window's tabpage is live.
pub proof fn lemma_window_tab(editor: Editor, at: int)
    requires
        editor.wf(),
        0 <= at < editor.windows@.len(),
    ensures
        editor.has_tab(editor.windows@[at].tab),
        editor.has_buffer(editor.windows@[at].state.buffer),
        editor.has_window(editor.windows@[at].handle),
        editor.links().window_at(editor.windows@[at].handle) == at,
{
    let links = editor.links();
    links.lemma_parts();
    assert(links.windows[at] == crate::editor::window_key(editor.windows@[at]));
    links.lemma_window_at(at);
}

/// Entering a window keeps the tables sound.
proof fn lemma_entered(before: Editor, after: Editor, at: int, t: int)
    requires
        before.wf(),
        0 <= at < before.windows@.len(),
        0 <= t < before.tabs@.len(),
        before.windows@[at].tab == before.tabs@[t].handle,
        after.tabs@ == before.tabs@.update(
            t,
            TabEntry { current: before.windows@[at].handle, ..before.tabs@[t] },
        ),
        after == (Editor {
            tabs: after.tabs,
            current_tab: Some(before.windows@[at].tab),
            previous_window: after.previous_window,
            ..before
        }),
    ensures
        after.wf(),
        after.links().current_window() == Some(before.windows@[at].handle),
{
    let old_links = before.links();
    let new_links = after.links();
    let window = before.windows@[at].handle;
    old_links.lemma_parts();
    assert(old_links.windows[at] == crate::editor::window_key(before.windows@[at]));
    assert(old_links.tabs[t] == crate::editor::tab_key(before.tabs@[t]));
    old_links.lemma_own_window(at, t);
    assert(new_links.tabs =~= old_links.tabs.update(
        t,
        crate::links::TabKey { current: window, ..old_links.tabs[t] },
    ));
    old_links.lemma_enter(new_links, t, window);
    assert forall|i: int| 0 <= i < after.tabs@.len() implies 1 <= (
    #[trigger] after.tabs@[i]).handle.0 < after.next_tabpage by {
        assert(after.tabs@[i].handle == before.tabs@[i].handle);
    }
}

/// Entering a tabpage keeps the tables sound.
proof fn lemma_tab_entered(before: Editor, after: Editor, at: int)
    requires
        before.wf(),
        0 <= at < before.tabs@.len(),
        after == (Editor { current_tab: Some(before.tabs@[at].handle), ..before }),
    ensures
        after.wf(),
        after.links().current_window() == Some(before.tabs@[at].current),
{
    let old_links = before.links();
    let key = old_links.tabs[at];
    old_links.lemma_parts();
    assert(key == crate::editor::tab_key(before.tabs@[at]));
    assert(old_links.stocked_at(key));
    assert(after.links().tabs =~= old_links.tabs.update(
        at,
        crate::links::TabKey { current: key.current, ..key },
    ));
    old_links.lemma_enter(after.links(), at, key.current);
}

/// Appends handles.
fn push_handles(list: &mut Vec<WinHandle>, tail: &Vec<WinHandle>)
    ensures
        final(list)@ == old(list)@ + tail@,
{
    let ghost before = list@;
    let mut next: usize = 0;
    assert(before + tail@.take(0) =~= before);
    while next < tail.len()
        invariant
            next <= tail@.len(),
            list@ == before + tail@.take(next as int),
        decreases tail@.len() - next,
    {
        list.push(tail[next]);
        assert(tail@.take(next + 1) =~= tail@.take(next as int).push(tail@[next as int]));
        next = next + 1;
        assert(list@ =~= before + tail@.take(next as int));
    }
    assert(tail@.take(next as int) =~= tail@);
}

} // verus!
