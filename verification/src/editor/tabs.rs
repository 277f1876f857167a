//! Tabpages and their windows: opening, splitting and closing them.
//!
//! The frame layout answers where windows go; its answers are arguments here.

use vstd::prelude::*;

use crate::buffer::BufferStateError;
use crate::editor::{allocate_tab_handle, allocate_window_handle, BufferEntry, Editor};
use crate::errors::EditorError;
use crate::splice::{cursor_visible_topline, max_of, min_of};
use crate::types::{BufHandle, Position, TabHandle, WinHandle};
use crate::window::{Area, LayoutError, TabEntry, WindowEntry, WindowState};

verus! {

/// Where the layout put one window.
#[derive(Clone, Copy, Debug, PartialEq, Eq, Structural)]
pub struct Placement {
    /// The window.
    pub window: WinHandle,
    /// Its area.
    pub area: Area,
}

/// The layout's answer to a split: where the new window goes, and where the
/// others of the tabpage go.
#[derive(Debug, PartialEq, Eq)]
pub struct SplitAnswer {
    /// Area of the new window.
    pub area: Area,
    /// Areas of other windows.
    pub areas: Vec<Placement>,
}

/// The layout's answer to a close: which window is current then if the closed
/// one was, and where the others go.
#[derive(Debug, PartialEq, Eq)]
pub struct CloseAnswer {
    /// The window that takes over.
    pub current: WinHandle,
    /// Areas of the remaining windows.
    pub areas: Vec<Placement>,
}

/// Which side of its target a split opens on.
#[derive(Clone, Copy, Debug, PartialEq, Eq, Structural)]
pub enum SplitDirection {
    /// Left of the target.
    Left,
    /// Right of the target.
    Right,
    /// Above the target.
    Above,
    /// Below the target.
    Below,
}

/// An area with at least one row of text.
pub open spec fn usable(area: Area) -> Area {
    Area {
        geometry: area.geometry,
        text_height: crate::splice::larger(area.text_height as int, 1) as usize,
    }
}

fn usable_area(area: Area) -> (result: Area)
    ensures
        result == usable(area),
        result.text_height >= 1,
{
    Area { geometry: area.geometry, text_height: max_of(area.text_height, 1) }
}

/// The area that `areas` gives `window`: that of its last entry, and its
/// present one if it has none.
pub open spec fn placed(areas: Seq<Placement>, window: WinHandle, area: Area) -> Area
    decreases areas.len(),
{
    if areas.len() == 0 {
        area
    } else if areas.last().window == window {
        usable(areas.last().area)
    } else {
        placed(areas.drop_last(), window, area)
    }
}

fn place(areas: &Vec<Placement>, window: WinHandle, area: Area) -> (result: Area)
    ensures
        result == placed(areas@, window, area),
        area.text_height >= 1 ==> result.text_height >= 1,
{
    let mut count: usize = areas.len();
    assert(areas@.take(count as int) =~= areas@);
    while count > 0
        invariant
            count <= areas@.len(),
            placed(areas@, window, area) == placed(areas@.take(count as int), window, area),
        decreases count,
    {
        assert(areas@.take(count as int).last() == areas@[count - 1]);
        assert(areas@.take(count as int).drop_last() =~= areas@.take(count - 1));
        if areas[count - 1].window == window {
            return usable_area(areas[count - 1].area);
        }
        count = count - 1;
    }
    area
}

/// A window of `tab` where `areas` puts it; other windows stay.
pub open spec fn moved(entry: WindowEntry, tab: TabHandle, areas: Seq<Placement>) -> WindowEntry {
    if entry.tab == tab {
        WindowEntry { area: placed(areas, entry.handle, entry.area), ..entry }
    } else {
        entry
    }
}

/// All windows where `areas` puts those of `tab`.
pub open spec fn relaid(
    windows: Seq<WindowEntry>,
    tab: TabHandle,
    areas: Seq<Placement>,
) -> Seq<WindowEntry> {
    windows.map_values(|entry: WindowEntry| moved(entry, tab, areas))
}

impl Editor {
    /// Puts the windows of `tab` where the layout wants them.
    fn relay(&mut self, tab: TabHandle, areas: &Vec<Placement>)
        requires
            old(self).wf(),
        ensures
            final(self).wf(),
            final(self).links() == old(self).links(),
            final(self).windows@ == relaid(old(self).windows@, tab, areas@),
            *final(self) == (Editor { windows: final(self).windows, ..*old(self) }),
    {
        let mut next: usize = 0;
        while next < self.windows.len()
            invariant
                old(self).wf(),
                next <= self.windows@.len(),
                self.windows@.len() == old(self).windows@.len(),
                *self == (Editor { windows: self.windows, ..*old(self) }),
                forall|i: int|
                    0 <= i < next ==> #[trigger] self.windows@[i] == moved(
                        old(self).windows@[i],
                        tab,
                        areas@,
                    ) && self.windows@[i].area.text_height >= 1,
                forall|i: int|
                    next <= i < self.windows@.len() ==> #[trigger] self.windows@[i]
                        == old(self).windows@[i],
            decreases self.windows@.len() - next,
        {
            assert(old(self).windows@[next as int].area.text_height >= 1);
            if self.windows[next].tab == tab {
                let area = place(areas, self.windows[next].handle, self.windows[next].area);
                self.windows[next].area = area;
            }
            next = next + 1;
        }
        assert(self.windows@ =~= relaid(old(self).windows@, tab, areas@));
        proof {
            crate::editor::lemma_tables_kept(*old(self), *self);
        }
    }

    /// The windows of `tab` went where `layout` wants them, or it
    /// refused.
    pub open spec fn laid_out(
        &self,
        after: &Editor,
        result: Result<(), EditorError>,
        tab: TabHandle,
        layout: Result<Vec<Placement>, LayoutError>,
    ) -> bool {
        match layout {
            Err(error) => result == Err::<(), _>(EditorError::Layout(error)) && *after == *self,
            Ok(areas) => {
                &&& result == Ok::<(), EditorError>(())
                &&& after.windows@ == relaid(self.windows@, tab, areas@)
                &&& after.links() == self.links()
                &&& *after == (Editor { windows: after.windows, ..*self })
            },
        }
    }

    /// The tabpage that a request means was laid out anew.
    pub open spec fn lays_out_tab(
        &self,
        after: &Editor,
        result: Result<(), EditorError>,
        tab: TabHandle,
        layout: Result<Vec<Placement>, LayoutError>,
    ) -> bool {
        match self.tab_request(tab) {
            Err(error) => result == Err::<(), _>(error) && *after == *self,
            Ok(at) => self.laid_out(after, result, self.tabs@[at].handle, layout),
        }
    }

    /// The tabpage of the window that a request means was laid out anew.
    pub open spec fn lays_out_window(
        &self,
        after: &Editor,
        result: Result<(), EditorError>,
        window: WinHandle,
        layout: Result<Vec<Placement>, LayoutError>,
    ) -> bool {
        match self.window_request(window) {
            Err(error) => result == Err::<(), _>(error) && *after == *self,
            Ok(at) => self.laid_out(after, result, self.windows@[at].tab, layout),
        }
    }

    /// Puts the windows of the tabpage that a request means where its layout
    /// wants them.
    fn relay_tab(
        &mut self,
        tab: TabHandle,
        layout: Result<Vec<Placement>, LayoutError>,
    ) -> (result: Result<(), EditorError>)
        requires
            old(self).wf(),
        ensures
            final(self).wf(),
            old(self).lays_out_tab(final(self), result, tab, layout),
    {
        let at: usize = match self.locate_tab(tab) {
            Ok(at) => at,
            Err(error) => {
                return Err(error);
            },
        };
        match layout {
            Ok(areas) => {
                let handle = self.tabs[at].handle;
                self.relay(handle, &areas);
                Ok(())
            },
            Err(error) => Err(EditorError::Layout(error)),
        }
    }

    /// Puts the windows of the tabpage that owns a window where the layout
    /// wants them.
    fn relay_window(
        &mut self,
        window: WinHandle,
        layout: Result<Vec<Placement>, LayoutError>,
    ) -> (result: Result<(), EditorError>)
        requires
            old(self).wf(),
        ensures
            final(self).wf(),
            old(self).lays_out_window(final(self), result, window, layout),
    {
        let tab = match self.window_tabpage(window) {
            Ok(tab) => tab,
            Err(error) => {
                return Err(error);
            },
        };
        match layout {
            Ok(areas) => {
                self.relay(tab, &areas);
                Ok(())
            },
            Err(error) => Err(EditorError::Layout(error)),
        }
    }

    /// Resizes a tabpage; `layout` is what its layout answers for the new size.
    ///
    /// # Errors
    ///
    /// Those of [`Editor::locate_tab`], or [`EditorError::Layout`] with the
    /// layout's refusal.
    pub fn resize_tabpage(
        &mut self,
        tab: TabHandle,
        layout: Result<Vec<Placement>, LayoutError>,
    ) -> (result: Result<(), EditorError>)
        requires
            old(self).wf(),
        ensures
            final(self).wf(),
            old(self).lays_out_tab(final(self), result, tab, layout),
    {
        self.relay_tab(tab, layout)
    }

    /// Makes the windows of a tabpage equally large; `layout` is what its layout
    /// answers.
    ///
    /// # Errors
    ///
    /// Those of [`Editor::resize_tabpage`].
    pub fn equalize_tabpage(
        &mut self,
        tab: TabHandle,
        layout: Result<Vec<Placement>, LayoutError>,
    ) -> (result: Result<(), EditorError>)
        requires
            old(self).wf(),
        ensures
            final(self).wf(),
            old(self).lays_out_tab(final(self), result, tab, layout),
    {
        self.relay_tab(tab, layout)
    }

    /// Changes a window's width; `layout` is what the layout of its tabpage
    /// answers for the wanted width.
    ///
    /// # Errors
    ///
    /// Those of [`Editor::locate_window`], or [`EditorError::Layout`] with the
    /// layout's refusal.
    pub fn set_window_width(
        &mut self,
        window: WinHandle,
        layout: Result<Vec<Placement>, LayoutError>,
    ) -> (result: Result<(), EditorError>)
        requires
            old(self).wf(),
        ensures
            final(self).wf(),
            old(self).lays_out_window(final(self), result, window, layout),
    {
        self.relay_window(window, layout)
    }

    /// Changes a window's height; `layout` is what the layout of its tabpage
    /// answers for the wanted height.
    ///
    /// # Errors
    ///
    /// Those of [`Editor::set_window_width`].
    pub fn set_window_height(
        &mut self,
        window: WinHandle,
        layout: Result<Vec<Placement>, LayoutError>,
    ) -> (result: Result<(), EditorError>)
        requires
            old(self).wf(),
        ensures
            final(self).wf(),
            old(self).lays_out_window(final(self), result, window, layout),
    {
        self.relay_window(window, layout)
    }

    /// Configures a floating window anew; `layout` is what the layout of its
    /// tabpage answers for the configuration and for the position that
    /// [`Editor::cursor_position_for_float`] gives.
    ///
    /// # Errors
    ///
    /// Those of [`Editor::set_window_width`].
    pub fn set_window_config(
        &mut self,
        window: WinHandle,
        layout: Result<Vec<Placement>, LayoutError>,
    ) -> (result: Result<(), EditorError>)
        requires
            old(self).wf(),
        ensures
            final(self).wf(),
            old(self).lays_out_window(final(self), result, window, layout),
    {
        self.relay_window(window, layout)
    }

    /// The directories that a new window takes over from the current one.
    fn inherited_directories(&self) -> (directories: (Option<String>, Option<String>))
        requires
            self.wf(),
        ensures
            directories.0 == self.current_directories().0,
            directories.1 == self.current_directories().1,
    {
        match self.current_window() {
            Some(window) => {
                proof {
                    self.links().lemma_current_window();
                }
                match self.find_window(window) {
                    Some(at) => (
                        self.windows[at].state.local_directory.clone(),
                        self.windows[at].state.previous_directory.clone(),
                    ),
                    None => (None, None),
                }
            },
            None => (None, None),
        }
    }

    /// The current window's directory and the one it left; none in an editor
    /// without a window.
    pub open spec fn current_directories(&self) -> (Option<String>, Option<String>) {
        match self.links().current_window() {
            Some(window) => (
                self.window_entry(window).state.local_directory,
                self.window_entry(window).state.previous_directory,
            ),
            None => (None, None),
        }
    }
}

/// One window more on the buffer at `b`.
pub open spec fn attached(buffers: Seq<BufferEntry>, b: int) -> Seq<BufferEntry> {
    let entry = buffers[b];
    buffers.update(
        b,
        BufferEntry {
            state: crate::buffer::BufferState {
                attachments: (entry.state.attachments + 1) as usize,
                ..entry.state
            },
            ..entry
        },
    )
}

/// Opening a tabpage keeps the tables sound.
proof fn lemma_tab_opened(before: Editor, after: Editor, b: int, index: int, window: WindowEntry)
    requires
        before.wf(),
        0 <= b < before.buffers@.len(),
        0 <= index <= before.tabs@.len(),
        before.buffers@[b].state.lines is Some,
        before.buffers@[b].state.attachments < usize::MAX,
        before.next_window <= i32::MAX,
        before.next_tabpage <= i32::MAX,
        window.handle == WinHandle(before.next_window as i32),
        window.tab == TabHandle(before.next_tabpage as i32),
        !window.floating,
        window.area.text_height >= 1,
        window.state.buffer == before.buffers@[b].handle,
        after.buffers@ == attached(before.buffers@, b),
        after.windows@ == before.windows@.push(window),
        after.tabs@.len() == before.tabs@.len() + 1,
        after.tabs@ == before.tabs@.insert(index, after.tabs@[index]),
        after.tabs@[index].handle == window.tab,
        after.tabs@[index].tiled@ == seq![window.handle],
        after.tabs@[index].floats@ == Seq::<WinHandle>::empty(),
        after.tabs@[index].current == window.handle,
        after.next_buffer == before.next_buffer,
        after.next_window == before.next_window + 1,
        after.next_tabpage == before.next_tabpage + 1,
        after.current_tab == Some(window.tab),
        after.sink.wf(),
        after.decorations.wf(),
        crate::editor::channels_sound(after.terminals@),
        crate::editor::groups_sound(after.sign_groups@),
    ensures
        after.wf(),
        after.links().current_window() == Some(window.handle),
{
    let old_links = before.links();
    let new_links = after.links();
    let key = crate::editor::window_key(window);
    assert(old_links.buffers[b] == crate::editor::buffer_key(before.buffers@[b]));
    assert(new_links.buffers =~= old_links.buffers.update(
        b,
        crate::links::recounted(old_links.buffers[b], old_links.buffers[b].attachments + 1, true),
    ));
    assert(new_links.windows =~= old_links.windows.push(key));
    let added = crate::links::TabKey {
        handle: window.tab,
        tiled: seq![window.handle],
        floats: Seq::empty(),
        current: window.handle,
    };
    assert(crate::editor::tab_key(after.tabs@[index]) == added);
    assert(new_links.tabs =~= old_links.tabs.insert(index, added));
    assert forall|i: int| 0 <= i < old_links.windows.len() implies (
    #[trigger] old_links.windows[i]).handle.0 < key.handle.0 by {
        assert(old_links.windows[i].handle == before.windows@[i].handle);
    }
    assert(!old_links.has_tab(window.tab)) by {
        if old_links.has_tab(window.tab) {
            let t = old_links.tab_at(window.tab);
            assert(old_links.tabs[t].handle == before.tabs@[t].handle);
        }
    }
    old_links.lemma_new_tab(new_links, index, key, b);
    lemma_numbered(before, after, window, index);
}

/// A new window and tabpage keep the numbering.
proof fn lemma_numbered(before: Editor, after: Editor, window: WindowEntry, index: int)
    requires
        before.wf(),
        0 <= index <= before.tabs@.len(),
        before.next_window <= i32::MAX,
        before.next_tabpage <= i32::MAX,
        window.handle == WinHandle(before.next_window as i32),
        window.area.text_height >= 1,
        after.buffers@.len() == before.buffers@.len(),
        forall|i: int|
            0 <= i < after.buffers@.len() ==> (#[trigger] after.buffers@[i]).handle
                == before.buffers@[i].handle && after.buffers@[i].state.wf(),
        after.windows@ == before.windows@.push(window),
        after.tabs@.len() == before.tabs@.len() + 1,
        after.tabs@ == before.tabs@.insert(index, after.tabs@[index]),
        after.tabs@[index].handle == TabHandle(before.next_tabpage as i32),
        after.next_buffer == before.next_buffer,
        after.next_window == before.next_window + 1,
        after.next_tabpage == before.next_tabpage + 1,
    ensures
        after.numbered(),
        crate::editor::texts_sound(after.buffers@),
        crate::editor::areas_sound(after.windows@),
{
    assert forall|i: int| 0 <= i < after.buffers@.len() implies 1 <= (
    #[trigger] after.buffers@[i]).handle.0 < after.next_buffer by {
        assert(1 <= before.buffers@[i].handle.0 < before.next_buffer);
    }
    assert forall|i: int| 0 <= i < after.windows@.len() implies crate::editor::LOWEST_WINDOW_ID
        <= (#[trigger] after.windows@[i]).handle.0 < after.next_window
        && after.windows@[i].area.text_height >= 1 by {
        if i < before.windows@.len() {
            assert(after.windows@[i] == before.windows@[i]);
        }
    }
    assert forall|i: int| 0 <= i < after.tabs@.len() implies 1 <= (
    #[trigger] after.tabs@[i]).handle.0 < after.next_tabpage by {
        if i < index {
            assert(after.tabs@[i] == before.tabs@[i]);
        } else if i > index {
            assert(after.tabs@[i] == before.tabs@[i - 1]);
        }
    }
}

impl Editor {
    /// Opening a tabpage at `index` with one window on the buffer at `b`.
    pub open spec fn opens_tab(
        &self,
        after: &Editor,
        b: int,
        area: Area,
        index: int,
        cwd: Option<String>,
    ) -> bool {
        let window = WinHandle(self.next_window as i32);
        let tab = TabHandle(self.next_tabpage as i32);
        let added = after.tabs@[index];
        &&& after.buffers@ == attached(self.buffers@, b)
        &&& after.windows@.len() == self.windows@.len() + 1
        &&& after.windows@ == self.windows@.push(after.windows@.last())
        &&& after.windows@.last().fresh(
            window,
            tab,
            false,
            usable(area),
            WindowState {
                local_directory: self.current_directories().0,
                previous_directory: self.current_directories().1,
                ..WindowState::showing(self.buffers@[b].handle, Position { lnum: 1, col: 0 })
            },
            self.window_defaults,
        )
        &&& after.tabs@.len() == self.tabs@.len() + 1
        &&& after.tabs@ == self.tabs@.insert(index, added)
        &&& added.handle == tab
        &&& added.tiled@ == seq![window]
        &&& added.floats@ == Seq::<WinHandle>::empty()
        &&& added.current == window
        &&& added.variables@.len() == 0
        &&& added.variables_version == 0
        &&& *after == (Editor {
            buffers: after.buffers,
            windows: after.windows,
            tabs: after.tabs,
            current_tab: Some(tab),
            next_window: (self.next_window + 1) as i64,
            next_tabpage: (self.next_tabpage + 1) as i64,
            global_directory: if self.global_directory is None {
                cwd
            } else {
                self.global_directory
            },
            ..*self
        })
        &&& after.links().current_window() == Some(window)
    }

    /// The outcome of opening a tabpage: the current window's directories are
    /// taken over, and the global directory starts as the working directory. A
    /// refusal uses the handles up that were given out before it.
    pub open spec fn inserts_tab(
        &self,
        after: &Editor,
        result: Result<TabHandle, EditorError>,
        buffer: BufHandle,
        area: Result<Area, LayoutError>,
        index: int,
        cwd: Option<String>,
    ) -> bool {
        let used = Editor {
            next_window: (self.next_window + 1) as i64,
            next_tabpage: (self.next_tabpage + 1) as i64,
            ..*self
        };
        match self.buffer_request(buffer) {
            Err(error) => result == Err::<TabHandle, _>(error) && *after == *self,
            Ok(b) => if self.next_window > i32::MAX {
                &&& result == Err::<TabHandle, _>(
                    EditorError::HandleExhausted(crate::errors::HandleKind::Window),
                )
                &&& *after == *self
            } else if self.next_tabpage > i32::MAX {
                &&& result == Err::<TabHandle, _>(
                    EditorError::HandleExhausted(crate::errors::HandleKind::Tabpage),
                )
                &&& *after == (Editor { next_window: (self.next_window + 1) as i64, ..*self })
            } else {
                match area {
                    Err(error) => result == Err::<TabHandle, _>(EditorError::Layout(error))
                        && *after == used,
                    Ok(area) => if self.buffers@[b].state.lines is None {
                        &&& result == Err::<TabHandle, _>(
                            EditorError::Buffer(BufferStateError::Unloaded),
                        )
                        &&& *after == used
                    } else {
                        &&& result == Ok::<_, EditorError>(TabHandle(self.next_tabpage as i32))
                        &&& self.opens_tab(after, b, area, index, cwd)
                    },
                }
            },
        }
    }

    /// Opens a tabpage at `index`.
    fn insert_tabpage(
        &mut self,
        buffer: BufHandle,
        area: Result<Area, LayoutError>,
        index: usize,
        cwd: Option<String>,
    ) -> (result: Result<TabHandle, EditorError>)
        requires
            old(self).wf(),
            index <= old(self).tabs@.len(),
        ensures
            final(self).wf(),
            old(self).inserts_tab(final(self), result, buffer, area, index as int, cwd),
    {
        let b: usize = match self.locate_buffer(buffer) {
            Ok(b) => b,
            Err(error) => {
                return Err(error);
            },
        };
        let (local_directory, previous_directory) = self.inherited_directories();
        let window = match allocate_window_handle(&mut self.next_window) {
            Ok(window) => window,
            Err(error) => {
                return Err(error);
            },
        };
        let tab = match allocate_tab_handle(&mut self.next_tabpage) {
            Ok(tab) => tab,
            Err(error) => {
                proof {
                    lemma_counters_kept(*old(self), *self);
                }
                return Err(error);
            },
        };
        proof {
            lemma_counters_kept(*old(self), *self);
        }
        let area = match area {
            Ok(area) => usable_area(area),
            Err(error) => {
                return Err(EditorError::Layout(error));
            },
        };
        if self.buffers[b].state.lines.is_none() {
            return Err(EditorError::Buffer(BufferStateError::Unloaded));
        }
        proof {
            crate::editor::lemma_window_count(*old(self));
        }
        let handle = self.buffers[b].handle;
        let mut state = WindowState::new(handle, Position { lnum: 1, col: 0 });
        state.local_directory = local_directory;
        state.previous_directory = previous_directory;
        let _ = self.buffers[b].state.attach();
        let entry = WindowEntry::new(
            window,
            tab,
            false,
            area,
            state,
            self.window_defaults.clone(),
        );
        let ghost added = entry;
        self.windows.push(entry);
        let mut tiled: Vec<WinHandle> = Vec::new();
        tiled.push(window);
        self.tabs.insert(
            index,
            TabEntry {
                handle: tab,
                tiled,
                floats: Vec::new(),
                current: window,
                variables: Vec::new(),
                variables_version: 0,
            },
        );
        if self.global_directory.is_none() {
            self.global_directory = cwd;
        }
        self.current_tab = Some(tab);
        proof {
            assert(self.tabs@[index as int].tiled@ =~= seq![window]);
            assert(self.buffers@ =~= attached(old(self).buffers@, b as int));
            lemma_tab_opened(*old(self), *self, b as int, index as int, added);
        }
        Ok(tab)
    }

    /// Creates a tabpage with one tiled window displaying `buffer`, appended
    /// after every existing tabpage. `area` is where the layout puts the
    /// window, and `cwd` the process's working directory if it can be read.
    ///
    /// # Errors
    ///
    /// Those of [`Editor::locate_buffer`], [`EditorError::HandleExhausted`] when
    /// the window or tabpage handles are used up, [`EditorError::Layout`] with
    /// the layout's refusal, or [`EditorError::Buffer`] when the buffer is not
    /// loaded.
    pub fn create_tabpage(
        &mut self,
        buffer: BufHandle,
        area: Result<Area, LayoutError>,
        cwd: Option<String>,
    ) -> (result: Result<TabHandle, EditorError>)
        requires
            old(self).wf(),
        ensures
            final(self).wf(),
            old(self).inserts_tab(
                final(self),
                result,
                buffer,
                area,
                old(self).tabs@.len() as int,
                cwd,
            ),
    {
        let index: usize = self.tabs.len();
        self.insert_tabpage(buffer, area, index, cwd)
    }

    /// Where a tabpage goes that is asked for at `after`: one is the first
    /// place, a larger value stands before tabpage `after`, one past the end is
    /// the last place, and zero stands behind the current tabpage.
    pub open spec fn new_tab_index(&self, after: usize) -> int {
        if after == 0 {
            match self.current_tab {
                Some(tab) => self.links().tab_at(tab) + 1,
                None => self.tabs@.len() as int,
            }
        } else {
            crate::splice::smaller(after - 1, self.tabs@.len() as int)
        }
    }

    /// Creates a tabpage at the place that `after` asks for; see
    /// [`Editor::new_tab_index`].
    ///
    /// # Errors
    ///
    /// Those of [`Editor::create_tabpage`].
    pub fn create_tabpage_at(
        &mut self,
        buffer: BufHandle,
        area: Result<Area, LayoutError>,
        after: usize,
        cwd: Option<String>,
    ) -> (result: Result<TabHandle, EditorError>)
        requires
            old(self).wf(),
        ensures
            final(self).wf(),
            old(self).inserts_tab(
                final(self),
                result,
                buffer,
                area,
                old(self).new_tab_index(after),
                cwd,
            ),
    {
        let count: usize = self.tabs.len();
        let index: usize = if after == 0 {
            match self.current_tab {
                Some(tab) => {
                    proof {
                        self.links().lemma_parts();
                    }
                    match self.tabpage_index(tab) {
                        Some(index) => index,
                        None => count,
                    }
                },
                None => count,
            }
        } else {
            min_of(after - 1, count)
        };
        self.insert_tabpage(buffer, area, index, cwd)
    }
}

/// Counters may run ahead.
proof fn lemma_counters_kept(before: Editor, after: Editor)
    requires
        before.wf(),
        after == (Editor {
            next_window: after.next_window,
            next_tabpage: after.next_tabpage,
            ..before
        }),
        before.next_window <= after.next_window <= i32::MAX + 1,
        before.next_tabpage <= after.next_tabpage <= i32::MAX + 1,
    ensures
        after.wf(),
        after.links() == before.links(),
{
}

/// The first line that a split window shows: its cursor stays at the same
/// fraction of the height.
pub open spec fn split_topline(cursor: int, topline: int, old_height: int, new_height: int) -> int {
    let old_row = crate::splice::smaller(
        crate::splice::larger(cursor - topline, 0),
        old_height - 1,
    );
    let new_row = crate::splice::sat(old_row * new_height) as int / old_height;
    crate::splice::visible_topline(
        crate::splice::larger(cursor - new_row, 1),
        cursor,
        new_height,
    )
}

fn topline_after_split(cursor: usize, topline: usize, old_height: usize, new_height: usize) -> (first:
    usize)
    requires
        old_height >= 1,
    ensures
        first == split_topline(
            cursor as int,
            topline as int,
            old_height as int,
            new_height as int,
        ),
{
    let old_row: usize = min_of(cursor.saturating_sub(topline), old_height - 1);
    assert(old_row * new_height >= 0) by (nonlinear_arith);
    let scaled: usize = match old_row.checked_mul(new_height) {
        Some(scaled) => scaled,
        None => usize::MAX,
    };
    let new_row: usize = scaled / old_height;
    cursor_visible_topline(max_of(cursor.saturating_sub(new_row), 1), cursor, new_height)
}

/// The list with `window` next to `target`: before it, or behind it.
pub open spec fn beside(
    list: Seq<WinHandle>,
    target: WinHandle,
    window: WinHandle,
    behind: bool,
) -> Seq<WinHandle> {
    let at = list.index_of(target);
    list.insert(
        if behind {
            at + 1
        } else {
            at
        },
        window,
    )
}

/// Whether a split in that direction lists the new window behind its target.
pub open spec fn opens_behind(direction: SplitDirection) -> bool {
    direction == SplitDirection::Right || direction == SplitDirection::Below
}

/// A list with one more window holds the others and that one.
proof fn lemma_beside(list: Seq<WinHandle>, at: int, window: WinHandle)
    requires
        list.no_duplicates(),
        0 <= at <= list.len(),
        !list.contains(window),
    ensures
        list.insert(at, window).no_duplicates(),
        forall|w: WinHandle| #[trigger]
            list.insert(at, window).contains(w) <==> list.contains(w) || w == window,
{
    let after = list.insert(at, window);
    assert forall|i: int, j: int| 0 <= i < after.len() && 0 <= j < after.len() && i
        != j implies after[i] != after[j] by {
        let from_i = if i < at {
            i
        } else {
            i - 1
        };
        let from_j = if j < at {
            j
        } else {
            j - 1
        };
        if i == at {
            assert(list.contains(list[from_j]));
        } else if j == at {
            assert(list.contains(list[from_i]));
        }
    }
    assert forall|w: WinHandle| #[trigger] after.contains(w) <==> list.contains(w) || w
        == window by {
        if after.contains(w) {
            let i = after.index_of(w);
            assert(after[i] == w);
            if i < at {
                assert(list[i] == w);
            } else if i > at {
                assert(list[i - 1] == w);
            }
        }
        if list.contains(w) {
            let i = list.index_of(w);
            assert(list[i] == w);
            if i < at {
                assert(after[i] == w);
            } else {
                assert(after[i + 1] == w);
            }
        }
        if w == window {
            assert(after[at] == w);
        }
    }
}

/// Two lists without common or repeated windows have none together.
proof fn lemma_joined(one: Seq<WinHandle>, two: Seq<WinHandle>)
    requires
        one.no_duplicates(),
        two.no_duplicates(),
        forall|w: WinHandle| #[trigger] one.contains(w) ==> !two.contains(w),
    ensures
        (one + two).no_duplicates(),
{
    let both = one + two;
    assert forall|i: int, j: int| 0 <= i < both.len() && 0 <= j < both.len() && i
        != j implies both[i] != both[j] by {
        if i < one.len() {
            assert(one.contains(both[i]));
            if j >= one.len() {
                assert(two.contains(both[j]));
            }
        } else {
            assert(two.contains(both[i]));
            if j < one.len() {
                assert(one.contains(both[j]));
            }
        }
    }
}

/// The parts of a list without repeated windows.
proof fn lemma_parted(one: Seq<WinHandle>, two: Seq<WinHandle>)
    requires
        (one + two).no_duplicates(),
    ensures
        one.no_duplicates(),
        two.no_duplicates(),
        forall|w: WinHandle| #[trigger] one.contains(w) ==> !two.contains(w),
{
    let both = one + two;
    assert forall|i: int, j: int| 0 <= i < one.len() && 0 <= j < one.len() && i
        != j implies one[i] != one[j] by {
        assert(both[i] == one[i] && both[j] == one[j]);
    }
    assert forall|i: int, j: int| 0 <= i < two.len() && 0 <= j < two.len() && i
        != j implies two[i] != two[j] by {
        assert(both[one.len() + i] == two[i] && both[one.len() + j] == two[j]);
    }
    assert forall|w: WinHandle| #[trigger] one.contains(w) implies !two.contains(w) by {
        if two.contains(w) {
            let i = one.index_of(w);
            let j = two.index_of(w);
            assert(both[i] == w && both[one.len() + j] == w);
        }
    }
}

/// A new window beside the others of a tabpage keeps the tables sound.
#[verifier::spinoff_prover]
proof fn lemma_window_opened(
    before: Editor,
    after: Editor,
    b: int,
    t: int,
    window: WindowEntry,
    place: int,
)
    requires
        before.wf(),
        0 <= b < before.buffers@.len(),
        0 <= t < before.tabs@.len(),
        before.buffers@[b].state.lines is Some,
        before.buffers@[b].state.attachments < usize::MAX,
        before.next_window <= i32::MAX,
        window.handle == WinHandle(before.next_window as i32),
        window.tab == before.tabs@[t].handle,
        window.area.text_height >= 1,
        window.state.buffer == before.buffers@[b].handle,
        after.buffers@ == attached(before.buffers@, b),
        after.windows@ == before.windows@.push(window),
        after.tabs@.len() == before.tabs@.len(),
        after.tabs@ == before.tabs@.update(t, after.tabs@[t]),
        after.tabs@[t].handle == before.tabs@[t].handle,
        if window.floating {
            &&& 0 <= place <= before.tabs@[t].floats@.len()
            &&& after.tabs@[t].tiled@ == before.tabs@[t].tiled@
            &&& after.tabs@[t].floats@ == before.tabs@[t].floats@.insert(place, window.handle)
        } else {
            &&& 0 <= place <= before.tabs@[t].tiled@.len()
            &&& after.tabs@[t].tiled@ == before.tabs@[t].tiled@.insert(place, window.handle)
            &&& after.tabs@[t].floats@ == before.tabs@[t].floats@
        },
        after.tabs@[t].current == window.handle || after.tabs@[t].current
            == before.tabs@[t].current,
        after.next_buffer == before.next_buffer,
        after.next_window == before.next_window + 1,
        after.next_tabpage == before.next_tabpage,
        after.current_tab == before.current_tab,
        after.sink.wf(),
        after.decorations.wf(),
        crate::editor::channels_sound(after.terminals@),
        crate::editor::groups_sound(after.sign_groups@),
    ensures
        after.wf(),
{
    let old_links = before.links();
    let new_links = after.links();
    let key = crate::editor::window_key(window);
    let old_tab = old_links.tabs[t];
    let new_tab = new_links.tabs[t];
    old_links.lemma_parts();
    assert(old_links.buffers[b] == crate::editor::buffer_key(before.buffers@[b]));
    assert(old_tab == crate::editor::tab_key(before.tabs@[t]));
    assert(new_tab == crate::editor::tab_key(after.tabs@[t]));
    assert(new_links.buffers =~= old_links.buffers.update(
        b,
        crate::links::recounted(old_links.buffers[b], old_links.buffers[b].attachments + 1, true),
    ));
    assert(new_links.windows =~= old_links.windows.push(key));
    assert(new_links.tabs =~= old_links.tabs.update(t, new_tab));
    assert forall|i: int| 0 <= i < old_links.windows.len() implies (
    #[trigger] old_links.windows[i]).handle.0 < key.handle.0 by {
        assert(old_links.windows[i].handle == before.windows@[i].handle);
    }
    assert(old_links.stocked_at(old_tab));
    assert forall|w: WinHandle| #[trigger] old_tab.windows().contains(w) implies w
        != window.handle by {
        old_links.lemma_listed_window(t, w);
        let at = old_links.window_at(w);
        assert(old_links.windows[at].handle == w);
    }
    assert(!old_tab.tiled.contains(window.handle) && !old_tab.floats.contains(window.handle)) by {
        if old_tab.tiled.contains(window.handle) || old_tab.floats.contains(window.handle) {
            crate::links::lemma_lists_window(old_tab, window.handle);
        }
    }
    lemma_parted(old_tab.tiled, old_tab.floats);
    if window.floating {
        lemma_beside(old_tab.floats, place, window.handle);
        assert(new_tab.floats[place] == window.handle);
    } else {
        lemma_beside(old_tab.tiled, place, window.handle);
        assert(new_tab.tiled[place] == window.handle);
    }
    lemma_joined(new_tab.tiled, new_tab.floats);
    old_links.lemma_new_window(new_links, t, new_tab, key, b);
    assert forall|i: int| 0 <= i < after.buffers@.len() implies 1 <= (
    #[trigger] after.buffers@[i]).handle.0 < after.next_buffer && after.buffers@[i].state.wf() by {
        assert(1 <= before.buffers@[i].handle.0 < before.next_buffer);
        assert(before.buffers@[i].state.wf());
    }
    assert forall|i: int| 0 <= i < after.windows@.len() implies crate::editor::LOWEST_WINDOW_ID
        <= (#[trigger] after.windows@[i]).handle.0 < after.next_window
        && after.windows@[i].area.text_height >= 1 by {
        if i < before.windows@.len() {
            assert(after.windows@[i] == before.windows@[i]);
        }
    }
    assert forall|i: int| 0 <= i < after.tabs@.len() implies 1 <= (
    #[trigger] after.tabs@[i]).handle.0 < after.next_tabpage by {
        assert(after.tabs@[i].handle == before.tabs@[i].handle);
    }
}

impl Editor {
    /// Which tabpage, window and buffer a split means, or why it fails. A
    /// floating target stands for the last tiled window of its tabpage.
    pub open spec fn split_request(
        &self,
        tab: TabHandle,
        target: WinHandle,
        buffer: BufHandle,
    ) -> Result<(int, int, int), EditorError> {
        match (
            self.resolved_tab(tab),
            self.resolved_window(target),
            self.resolved_buffer(buffer),
        ) {
            (Some(tab), Some(target), Some(buffer)) => if !self.has_buffer(buffer) {
                Err(EditorError::UnknownBuffer(buffer))
            } else if !self.has_tab(tab) {
                Err(EditorError::UnknownTabpage(tab))
            } else if !self.has_window(target) {
                Err(EditorError::UnknownWindow(target))
            } else if self.window_entry(target).tab != tab {
                Err(EditorError::Layout(LayoutError::UnknownWindow))
            } else {
                let t = self.links().tab_at(tab);
                let split = if self.window_entry(target).floating {
                    self.tabs@[t].tiled@.last()
                } else {
                    target
                };
                Ok((t, self.links().window_at(split), self.links().buffer_at(buffer)))
            },
            _ => Err(EditorError::NoCurrentTabpage),
        }
    }

    /// Finds what a split means.
    fn locate_split(&self, tab: TabHandle, target: WinHandle, buffer: BufHandle) -> (places: Result<
        (usize, usize, usize),
        EditorError,
    >)
        requires
            self.wf(),
        ensures
            match self.split_request(tab, target, buffer) {
                Ok((t, at, b)) => {
                    &&& places is Ok
                    &&& (places->Ok_0).0 == t
                    &&& (places->Ok_0).1 == at
                    &&& (places->Ok_0).2 == b
                    &&& t < self.tabs@.len()
                    &&& at < self.windows@.len()
                    &&& b < self.buffers@.len()
                    &&& self.windows@[at].tab == self.tabs@[t].handle
                    &&& !self.windows@[at].floating
                    &&& self.tabs@[t].tiled@.contains(self.windows@[at].handle)
                },
                Err(error) => places is Err && places->Err_0 == error,
            },
    {
        let tab = match self.resolve_tabpage_handle(tab) {
            Ok(tab) => tab,
            Err(error) => {
                return Err(error);
            },
        };
        let target = match self.resolve_window_handle(target) {
            Ok(target) => target,
            Err(error) => {
                return Err(error);
            },
        };
        let buffer = match self.resolve_buffer_handle(buffer) {
            Ok(buffer) => buffer,
            Err(error) => {
                return Err(error);
            },
        };
        let b: usize = match self.find_buffer(buffer) {
            Some(b) => b,
            None => {
                return Err(EditorError::UnknownBuffer(buffer));
            },
        };
        let t: usize = match self.find_tab(tab) {
            Some(t) => t,
            None => {
                return Err(EditorError::UnknownTabpage(tab));
            },
        };
        let at: usize = match self.find_window(target) {
            Some(at) => at,
            None => {
                return Err(EditorError::UnknownWindow(target));
            },
        };
        if self.windows[at].tab != tab {
            return Err(EditorError::Layout(LayoutError::UnknownWindow));
        }
        proof {
            lemma_tab_windows(*self, t as int);
            let links = self.links();
            links.lemma_parts();
            assert(links.windows[at as int] == crate::editor::window_key(
                self.windows@[at as int],
            ));
            assert(links.tabs[t as int] == crate::editor::tab_key(self.tabs@[t as int]));
            links.lemma_own_window(at as int, t as int);
        }
        if self.windows[at].floating {
            let count: usize = self.tabs[t].tiled.len();
            let last = self.tabs[t].tiled[count - 1];
            assert(self.tabs@[t as int].tiled@.contains(last));
            match self.find_window(last) {
                Some(at) => Ok((t, at, b)),
                None => Err(EditorError::Layout(LayoutError::UnknownWindow)),
            }
        } else {
            Ok((t, at, b))
        }
    }

    /// Splitting the window at `at` of the tabpage at `t` for the buffer at
    /// `b`. The new window stands beside its target, takes its directories over
    /// and, on the same buffer, its view; the target keeps its cursor at the
    /// same fraction of its height.
    pub open spec fn splits(
        &self,
        after: &Editor,
        places: (int, int, int),
        direction: SplitDirection,
        enter: bool,
        answer: SplitAnswer,
    ) -> bool {
        let (t, at, b) = places;
        let window = WinHandle(self.next_window as i32);
        let tab = self.tabs@[t];
        let target = self.windows@[at];
        let laid = relaid(self.windows@, tab.handle, answer.areas@);
        let same = self.buffers@[b].handle == target.state.buffer;
        let added = after.windows@.last();
        let split = after.tabs@[t];
        &&& after.buffers@ == attached(self.buffers@, b)
        &&& after.windows@.len() == self.windows@.len() + 1
        &&& after.windows@ == laid.update(
            at,
            WindowEntry {
                state: WindowState {
                    topline: split_topline(
                        target.state.cursor.lnum as int,
                        target.state.topline as int,
                        target.area.text_height as int,
                        laid[at].area.text_height as int,
                    ) as usize,
                    ..target.state
                },
                ..laid[at]
            },
        ).push(added)
        &&& added.fresh(
            window,
            tab.handle,
            false,
            usable(answer.area),
            WindowState {
                topline: if same {
                    target.state.topline
                } else {
                    1
                },
                local_directory: target.state.local_directory,
                previous_directory: target.state.previous_directory,
                ..WindowState::showing(
                    self.buffers@[b].handle,
                    if same {
                        target.state.cursor
                    } else {
                        Position { lnum: 1, col: 0 }
                    },
                )
            },
            self.window_defaults,
        )
        &&& after.tabs@ == self.tabs@.update(t, split)
        &&& split.handle == tab.handle
        &&& split.tiled@ == beside(tab.tiled@, target.handle, window, opens_behind(direction))
        &&& split.floats@ == tab.floats@
        &&& split.same_variables(tab)
        &&& split.current == (if enter {
            window
        } else {
            tab.current
        })
        &&& *after == (Editor {
            buffers: after.buffers,
            windows: after.windows,
            tabs: after.tabs,
            previous_window: if enter {
                self.links().current_window()
            } else {
                self.previous_window
            },
            next_window: (self.next_window + 1) as i64,
            ..*self
        })
    }

    /// The outcome of a split. A refusal by the buffer or the layout uses the
    /// window handle up.
    pub open spec fn split_outcome(
        &self,
        after: &Editor,
        result: Result<WinHandle, EditorError>,
        tab: TabHandle,
        target: WinHandle,
        buffer: BufHandle,
        direction: SplitDirection,
        enter: bool,
        layout: Result<SplitAnswer, LayoutError>,
    ) -> bool {
        let used = Editor { next_window: (self.next_window + 1) as i64, ..*self };
        match self.split_request(tab, target, buffer) {
            Err(error) => result == Err::<WinHandle, _>(error) && *after == *self,
            Ok(places) => if self.next_window > i32::MAX {
                &&& result == Err::<WinHandle, _>(
                    EditorError::HandleExhausted(crate::errors::HandleKind::Window),
                )
                &&& *after == *self
            } else if self.buffers@[places.2].state.lines is None {
                &&& result == Err::<WinHandle, _>(EditorError::Buffer(BufferStateError::Unloaded))
                &&& *after == used
            } else {
                match layout {
                    Err(error) => result == Err::<WinHandle, _>(EditorError::Layout(error))
                        && *after == used,
                    Ok(answer) => result == Ok::<_, EditorError>(
                        WinHandle(self.next_window as i32),
                    ) && self.splits(after, places, direction, enter, answer),
                }
            },
        }
    }
}

/// The windows that a tabpage lists are live.
pub proof fn lemma_tab_windows(editor: Editor, t: int)
    requires
        editor.wf(),
        0 <= t < editor.tabs@.len(),
    ensures
        editor.tabs@[t].tiled@.len() > 0,
        forall|w: WinHandle| #[trigger]
            editor.tabs@[t].tiled@.contains(w) ==> editor.has_window(w) && editor.window_entry(
                w,
            ).tab == editor.tabs@[t].handle && !editor.window_entry(w).floating,
        forall|w: WinHandle| #[trigger]
            editor.tabs@[t].floats@.contains(w) ==> editor.has_window(w) && editor.window_entry(
                w,
            ).tab == editor.tabs@[t].handle && editor.window_entry(w).floating,
        editor.has_window(editor.tabs@[t].current),
        editor.window_entry(editor.tabs@[t].current).tab == editor.tabs@[t].handle,
        (editor.tabs@[t].tiled@ + editor.tabs@[t].floats@).no_duplicates(),
        (editor.tabs@[t].tiled@ + editor.tabs@[t].floats@).contains(editor.tabs@[t].current),
{
    let links = editor.links();
    let key = links.tabs[t];
    links.lemma_parts();
    assert(key == crate::editor::tab_key(editor.tabs@[t]));
    assert(links.stocked_at(key));
    assert forall|w: WinHandle| #[trigger] key.tiled.contains(w) implies editor.has_window(w)
        && editor.window_entry(w).tab == key.handle && !editor.window_entry(w).floating by {
        let i = key.tiled.index_of(w);
        assert(key.tiled[i] == w);
        assert(links.is_window_of(key.tiled[i], key.handle, false));
        let at = links.window_at(w);
        assert(links.windows[at] == crate::editor::window_key(editor.windows@[at]));
    }
    assert forall|w: WinHandle| #[trigger] key.floats.contains(w) implies editor.has_window(w)
        && editor.window_entry(w).tab == key.handle && editor.window_entry(w).floating by {
        let i = key.floats.index_of(w);
        assert(key.floats[i] == w);
        assert(links.is_window_of(key.floats[i], key.handle, true));
        let at = links.window_at(w);
        assert(links.windows[at] == crate::editor::window_key(editor.windows@[at]));
    }
    crate::links::lemma_listed(key, key.current);
}

/// The place of a listed window.
fn place_in(list: &Vec<WinHandle>, window: WinHandle) -> (at: Option<usize>)
    ensures
        at is Some == list@.contains(window),
        at is Some ==> at->0 < list@.len() && list@[at->0 as int] == window,
        at is Some && list@.no_duplicates() ==> at->0 == list@.index_of(window),
{
    let mut next: usize = 0;
    while next < list.len()
        invariant
            next <= list@.len(),
            forall|i: int| 0 <= i < next ==> #[trigger] list@[i] != window,
        decreases list@.len() - next,
    {
        if list[next] == window {
            assert(list@.contains(window));
            assert(list@[list@.index_of(window)] == window);
            return Some(next);
        }
        next = next + 1;
    }
    None
}

impl Editor {
    /// Splits a tiled window; see [`Editor::splits`]. `layout` is the layout's
    /// answer for the window that [`Editor::split_request`] finds.
    fn split_window(
        &mut self,
        tab: TabHandle,
        target: WinHandle,
        buffer: BufHandle,
        direction: SplitDirection,
        enter: bool,
        layout: Result<SplitAnswer, LayoutError>,
    ) -> (result: Result<WinHandle, EditorError>)
        requires
            old(self).wf(),
        ensures
            final(self).wf(),
            old(self).split_outcome(
                final(self),
                result,
                tab,
                target,
                buffer,
                direction,
                enter,
                layout,
            ),
    {
        let (t, at, b): (usize, usize, usize) = match self.locate_split(tab, target, buffer) {
            Ok(places) => places,
            Err(error) => {
                return Err(error);
            },
        };
        let previous = self.current_window();
        let window = match allocate_window_handle(&mut self.next_window) {
            Ok(window) => window,
            Err(error) => {
                return Err(error);
            },
        };
        proof {
            lemma_counters_kept(*old(self), *self);
        }
        if self.buffers[b].state.lines.is_none() {
            return Err(EditorError::Buffer(BufferStateError::Unloaded));
        }
        match layout {
            Ok(answer) => {
                self.open_beside(t, at, b, window, direction, enter, previous, answer);
                Ok(window)
            },
            Err(error) => Err(EditorError::Layout(error)),
        }
    }

    /// Opens `window`, whose handle was just given out, beside the one at `at`.
    fn open_beside(
        &mut self,
        t: usize,
        at: usize,
        b: usize,
        window: WinHandle,
        direction: SplitDirection,
        enter: bool,
        previous: Option<WinHandle>,
        answer: SplitAnswer,
    )
        requires
            old(self).wf(),
            (Editor { next_window: window.0 as i64, ..*old(self) }).wf(),
            window.0 + 1 == old(self).next_window,
            t < old(self).tabs@.len(),
            at < old(self).windows@.len(),
            b < old(self).buffers@.len(),
            old(self).windows@[at as int].tab == old(self).tabs@[t as int].handle,
            old(self).tabs@[t as int].tiled@.contains(old(self).windows@[at as int].handle),
            old(self).buffers@[b as int].state.lines is Some,
            previous == old(self).links().current_window(),
        ensures
            final(self).wf(),
            (Editor { next_window: window.0 as i64, ..*old(self) }).splits(
                final(self),
                (t as int, at as int, b as int),
                direction,
                enter,
                answer,
            ),
    {
        let ghost base = Editor { next_window: window.0 as i64, ..*old(self) };
        let tab = self.tabs[t].handle;
        let target = self.windows[at].handle;
        let cursor = self.windows[at].state.cursor;
        let topline: usize = self.windows[at].state.topline;
        let handle = self.buffers[b].handle;
        let same: bool = handle == self.windows[at].state.buffer;
        let mut state = WindowState::new(
            handle,
            if same {
                cursor
            } else {
                Position { lnum: 1, col: 0 }
            },
        );
        if same {
            state.topline = topline;
        }
        state.local_directory = self.windows[at].state.local_directory.clone();
        state.previous_directory = self.windows[at].state.previous_directory.clone();
        let options = self.window_defaults.clone();
        let entry = WindowEntry::new(
            window,
            tab,
            false,
            usable_area(answer.area),
            state,
            options,
        );
        let ghost added = entry;
        proof {
            lemma_tab_windows(*old(self), t as int);
            lemma_parted(old(self).tabs@[t as int].tiled@, old(self).tabs@[t as int].floats@);
        }
        let place: usize = match place_in(&self.tabs[t].tiled, target) {
            Some(place) => place,
            None => 0,
        };
        assert(place < self.tabs@[t as int].tiled.len());
        let place: usize = match direction {
            SplitDirection::Right => place + 1,
            SplitDirection::Below => place + 1,
            SplitDirection::Left => place,
            SplitDirection::Above => place,
        };
        self.shrink(at, tab, &answer.areas);
        let ghost mid = *self;
        proof {
            crate::editor::lemma_tables_kept(
                base,
                Editor { next_window: base.next_window, ..mid },
            );
        }
        self.take_in(t, b, entry, place, enter);
        if enter {
            self.previous_window = previous;
        }
        proof {
            assert(self.windows@.last() == added);
        }
    }

    /// Puts the windows of `tab` where the layout wants them, and scrolls the
    /// one at `at` so that its cursor keeps its place.
    fn shrink(&mut self, at: usize, tab: TabHandle, areas: &Vec<Placement>)
        requires
            old(self).wf(),
            at < old(self).windows@.len(),
        ensures
            final(self).wf(),
            final(self).links() == old(self).links(),
            *final(self) == (Editor { windows: final(self).windows, ..*old(self) }),
            final(self).windows@.len() == old(self).windows@.len(),
            forall|i: int|
                0 <= i < final(self).windows@.len() ==> crate::editor::window_key(
                    #[trigger] final(self).windows@[i],
                ) == crate::editor::window_key(old(self).windows@[i])
                    && final(self).windows@[i].area.text_height >= 1,
            ({
                let laid = relaid(old(self).windows@, tab, areas@);
                let target = old(self).windows@[at as int];
                final(self).windows@ == laid.update(
                    at as int,
                    WindowEntry {
                        state: WindowState {
                            topline: split_topline(
                                target.state.cursor.lnum as int,
                                target.state.topline as int,
                                target.area.text_height as int,
                                laid[at as int].area.text_height as int,
                            ) as usize,
                            ..target.state
                        },
                        ..laid[at as int]
                    },
                )
            }),
    {
        let cursor: usize = self.windows[at].state.cursor.lnum;
        let topline: usize = self.windows[at].state.topline;
        let height: usize = self.windows[at].area.text_height;
        assert(old(self).windows@[at as int].area.text_height >= 1);
        self.relay(tab, areas);
        let ghost laid = *self;
        let new_height: usize = self.windows[at].area.text_height;
        self.windows[at].state.topline = topline_after_split(cursor, topline, height, new_height);
        proof {
            crate::editor::lemma_tables_kept(laid, *self);
            assert forall|i: int| 0 <= i < self.windows@.len() implies crate::editor::window_key(
                #[trigger] self.windows@[i],
            ) == crate::editor::window_key(old(self).windows@[i])
                && self.windows@[i].area.text_height >= 1 by {
                assert(laid.windows@[i].area.text_height >= 1);
            }
        }
    }

    /// Adds a window whose handle was just given out to the tabpage at `t`: its
    /// buffer counts it, and the tabpage lists it at `place`.
    fn take_in(&mut self, t: usize, b: usize, entry: WindowEntry, place: usize, enter: bool)
        requires
            (Editor { next_window: entry.handle.0 as i64, ..*old(self) }).wf(),
            entry.handle.0 + 1 == old(self).next_window,
            t < old(self).tabs@.len(),
            b < old(self).buffers@.len(),
            old(self).buffers@[b as int].state.lines is Some,
            entry.tab == old(self).tabs@[t as int].handle,
            entry.area.text_height >= 1,
            entry.state.buffer == old(self).buffers@[b as int].handle,
            if entry.floating {
                place <= old(self).tabs@[t as int].floats@.len()
            } else {
                place <= old(self).tabs@[t as int].tiled@.len()
            },
        ensures
            final(self).wf(),
            final(self).buffers@ == attached(old(self).buffers@, b as int),
            final(self).windows@ == old(self).windows@.push(entry),
            final(self).tabs@.len() == old(self).tabs@.len(),
            final(self).tabs@ == old(self).tabs@.update(t as int, final(self).tabs@[t as int]),
            final(self).tabs@[t as int].handle == old(self).tabs@[t as int].handle,
            final(self).tabs@[t as int].tiled@ == (if entry.floating {
                old(self).tabs@[t as int].tiled@
            } else {
                old(self).tabs@[t as int].tiled@.insert(place as int, entry.handle)
            }),
            final(self).tabs@[t as int].floats@ == (if entry.floating {
                old(self).tabs@[t as int].floats@.insert(place as int, entry.handle)
            } else {
                old(self).tabs@[t as int].floats@
            }),
            final(self).tabs@[t as int].same_variables(old(self).tabs@[t as int]),
            final(self).tabs@[t as int].current == (if enter {
                entry.handle
            } else {
                old(self).tabs@[t as int].current
            }),
            *final(self) == (Editor {
                buffers: final(self).buffers,
                windows: final(self).windows,
                tabs: final(self).tabs,
                ..*old(self)
            }),
    {
        let ghost base = Editor { next_window: entry.handle.0 as i64, ..*old(self) };
        proof {
            crate::editor::lemma_window_count(base);
        }
        let window = entry.handle;
        let floating: bool = entry.floating;
        let ghost added = entry;
        let _ = self.buffers[b].state.attach();
        self.windows.push(entry);
        if floating {
            self.tabs[t].floats.insert(place, window);
        } else {
            self.tabs[t].tiled.insert(place, window);
        }
        if enter {
            self.tabs[t].current = window;
        }
        proof {
            assert(self.tabs@ =~= base.tabs@.update(t as int, self.tabs@[t as int]));
            assert(self.buffers@ =~= attached(base.buffers@, b as int));
            lemma_window_opened(base, *self, b as int, t as int, added, place as int);
        }
    }

    /// Splits a tiled window vertically and displays `buffer` on the right.
    ///
    /// # Errors
    ///
    /// [`EditorError::NoCurrentTabpage`] when a current handle is meant and
    /// there is none; [`EditorError::UnknownBuffer`],
    /// [`EditorError::UnknownTabpage`] or [`EditorError::UnknownWindow`] when a
    /// handle is not live; [`EditorError::HandleExhausted`] when the window
    /// handles are used up; [`EditorError::Buffer`] when the buffer is not
    /// loaded; [`EditorError::Layout`] when the target is another tabpage's or
    /// the split does not fit.
    pub fn split_vertical(
        &mut self,
        tab: TabHandle,
        target: WinHandle,
        buffer: BufHandle,
        enter: bool,
        layout: Result<SplitAnswer, LayoutError>,
    ) -> (result: Result<WinHandle, EditorError>)
        requires
            old(self).wf(),
        ensures
            final(self).wf(),
            old(self).split_outcome(
                final(self),
                result,
                tab,
                target,
                buffer,
                SplitDirection::Right,
                enter,
                layout,
            ),
    {
        self.split_window(tab, target, buffer, SplitDirection::Right, enter, layout)
    }

    /// Splits a tiled window horizontally and displays `buffer` below.
    ///
    /// # Errors
    ///
    /// Those of [`Editor::split_vertical`].
    pub fn split_horizontal(
        &mut self,
        tab: TabHandle,
        target: WinHandle,
        buffer: BufHandle,
        enter: bool,
        layout: Result<SplitAnswer, LayoutError>,
    ) -> (result: Result<WinHandle, EditorError>)
        requires
            old(self).wf(),
        ensures
            final(self).wf(),
            old(self).split_outcome(
                final(self),
                result,
                tab,
                target,
                buffer,
                SplitDirection::Below,
                enter,
                layout,
            ),
    {
        self.split_window(tab, target, buffer, SplitDirection::Below, enter, layout)
    }

    /// Splits a tiled window vertically and displays `buffer` to the left.
    ///
    /// # Errors
    ///
    /// Those of [`Editor::split_vertical`].
    pub fn split_left(
        &mut self,
        tab: TabHandle,
        target: WinHandle,
        buffer: BufHandle,
        enter: bool,
        layout: Result<SplitAnswer, LayoutError>,
    ) -> (result: Result<WinHandle, EditorError>)
        requires
            old(self).wf(),
        ensures
            final(self).wf(),
            old(self).split_outcome(
                final(self),
                result,
                tab,
                target,
                buffer,
                SplitDirection::Left,
                enter,
                layout,
            ),
    {
        self.split_window(tab, target, buffer, SplitDirection::Left, enter, layout)
    }

    /// Splits a tiled window horizontally and displays `buffer` above.
    ///
    /// # Errors
    ///
    /// Those of [`Editor::split_vertical`].
    pub fn split_above(
        &mut self,
        tab: TabHandle,
        target: WinHandle,
        buffer: BufHandle,
        enter: bool,
        layout: Result<SplitAnswer, LayoutError>,
    ) -> (result: Result<WinHandle, EditorError>)
        requires
            old(self).wf(),
        ensures
            final(self).wf(),
            old(self).split_outcome(
                final(self),
                result,
                tab,
                target,
                buffer,
                SplitDirection::Above,
                enter,
                layout,
            ),
    {
        self.split_window(tab, target, buffer, SplitDirection::Above, enter, layout)
    }

    /// Which tabpage and buffer a float means, or why it fails.
    pub open spec fn float_request(&self, tab: TabHandle, buffer: BufHandle) -> Result<
        (int, int),
        EditorError,
    > {
        match (self.resolved_tab(tab), self.resolved_buffer(buffer)) {
            (Some(tab), Some(buffer)) => if !self.has_buffer(buffer) {
                Err(EditorError::UnknownBuffer(buffer))
            } else if !self.has_tab(tab) {
                Err(EditorError::UnknownTabpage(tab))
            } else {
                Ok((self.links().tab_at(tab), self.links().buffer_at(buffer)))
            },
            _ => Err(EditorError::NoCurrentTabpage),
        }
    }

    /// Opening a floating window on the buffer at `b` in the tabpage at `t`: it
    /// is listed on top and not entered.
    pub open spec fn floats_on(&self, after: &Editor, t: int, b: int, area: Area) -> bool {
        let window = WinHandle(self.next_window as i32);
        let tab = self.tabs@[t];
        let opened = after.tabs@[t];
        &&& after.buffers@ == attached(self.buffers@, b)
        &&& after.windows@.len() == self.windows@.len() + 1
        &&& after.windows@ == self.windows@.push(after.windows@.last())
        &&& after.windows@.last().fresh(
            window,
            tab.handle,
            true,
            usable(area),
            WindowState::showing(self.buffers@[b].handle, Position { lnum: 1, col: 0 }),
            self.window_defaults,
        )
        &&& after.tabs@ == self.tabs@.update(t, opened)
        &&& opened.handle == tab.handle
        &&& opened.tiled@ == tab.tiled@
        &&& opened.floats@ == tab.floats@.push(window)
        &&& opened.current == tab.current
        &&& opened.same_variables(tab)
        &&& *after == (Editor {
            buffers: after.buffers,
            windows: after.windows,
            tabs: after.tabs,
            next_window: (self.next_window + 1) as i64,
            ..*self
        })
    }

    /// Opens a floating window in `tab`. `area` is where the layout puts it.
    ///
    /// # Errors
    ///
    /// [`EditorError::NoCurrentTabpage`] when a current handle is meant and
    /// there is none; [`EditorError::UnknownBuffer`] or
    /// [`EditorError::UnknownTabpage`] when a handle is not live;
    /// [`EditorError::HandleExhausted`] when the window handles are used up;
    /// [`EditorError::Buffer`] when the buffer is not loaded;
    /// [`EditorError::Layout`] with the layout's refusal. The last two use the
    /// window handle up.
    pub fn open_float(
        &mut self,
        tab: TabHandle,
        buffer: BufHandle,
        area: Result<Area, LayoutError>,
    ) -> (result: Result<WinHandle, EditorError>)
        requires
            old(self).wf(),
        ensures
            final(self).wf(),
            match old(self).float_request(tab, buffer) {
                Err(error) => result == Err::<WinHandle, _>(error) && *final(self) == *old(self),
                Ok((t, b)) => if old(self).next_window > i32::MAX {
                    &&& result == Err::<WinHandle, _>(
                        EditorError::HandleExhausted(crate::errors::HandleKind::Window),
                    )
                    &&& *final(self) == *old(self)
                } else if old(self).buffers@[b].state.lines is None {
                    &&& result == Err::<WinHandle, _>(
                        EditorError::Buffer(BufferStateError::Unloaded),
                    )
                    &&& *final(self) == (Editor {
                        next_window: (old(self).next_window + 1) as i64,
                        ..*old(self)
                    })
                } else {
                    match area {
                        Err(error) => result == Err::<WinHandle, _>(EditorError::Layout(error))
                            && *final(self) == (Editor {
                            next_window: (old(self).next_window + 1) as i64,
                            ..*old(self)
                        }),
                        Ok(area) => result == Ok::<_, EditorError>(
                            WinHandle(old(self).next_window as i32),
                        ) && old(self).floats_on(final(self), t, b, area),
                    }
                },
            },
    {
        let tab = match self.resolve_tabpage_handle(tab) {
            Ok(tab) => tab,
            Err(error) => {
                return Err(error);
            },
        };
        let buffer = match self.resolve_buffer_handle(buffer) {
            Ok(buffer) => buffer,
            Err(error) => {
                return Err(error);
            },
        };
        let b: usize = match self.find_buffer(buffer) {
            Some(b) => b,
            None => {
                return Err(EditorError::UnknownBuffer(buffer));
            },
        };
        let t: usize = match self.find_tab(tab) {
            Some(t) => t,
            None => {
                return Err(EditorError::UnknownTabpage(tab));
            },
        };
        let window = match allocate_window_handle(&mut self.next_window) {
            Ok(window) => window,
            Err(error) => {
                return Err(error);
            },
        };
        proof {
            lemma_counters_kept(*old(self), *self);
        }
        if self.buffers[b].state.lines.is_none() {
            return Err(EditorError::Buffer(BufferStateError::Unloaded));
        }
        let area = match area {
            Ok(area) => usable_area(area),
            Err(error) => {
                return Err(EditorError::Layout(error));
            },
        };
        let handle = self.buffers[b].handle;
        let state = WindowState::new(handle, Position { lnum: 1, col: 0 });
        let entry = WindowEntry::new(window, tab, true, area, state, self.window_defaults.clone());
        let place: usize = self.tabs[t].floats.len();
        self.take_in(t, b, entry, place, false);
        assert(self.tabs@[t as int].floats@ =~= old(self).tabs@[t as int].floats@.push(window));
        Ok(window)
    }
}

/// The list without `window`.
pub open spec fn without(list: Seq<WinHandle>, window: WinHandle) -> Seq<WinHandle> {
    if list.contains(window) {
        list.remove(list.index_of(window))
    } else {
        list
    }
}

/// A list without a window holds the others.
proof fn lemma_without(list: Seq<WinHandle>, window: WinHandle)
    requires
        list.no_duplicates(),
    ensures
        without(list, window).no_duplicates(),
        without(list, window).len() == list.len() - (if list.contains(window) {
            1int
        } else {
            0int
        }),
        forall|w: WinHandle| #[trigger]
            without(list, window).contains(w) <==> list.contains(w) && w != window,
{
    if list.contains(window) {
        let at = list.index_of(window);
        let after = list.remove(at);
        assert(list[at] == window);
        assert forall|i: int, j: int| 0 <= i < after.len() && 0 <= j < after.len() && i
            != j implies after[i] != after[j] by {
            let from_i = if i < at {
                i
            } else {
                i + 1
            };
            let from_j = if j < at {
                j
            } else {
                j + 1
            };
            assert(after[i] == list[from_i] && after[j] == list[from_j]);
        }
        assert forall|w: WinHandle| #[trigger] after.contains(w) <==> list.contains(w) && w
            != window by {
            if after.contains(w) {
                let i = after.index_of(w);
                let from = if i < at {
                    i
                } else {
                    i + 1
                };
                assert(list[from] == w);
            }
            if list.contains(w) && w != window {
                let i = list.index_of(w);
                assert(list[i] == w);
                let moved = if i < at {
                    i
                } else {
                    i - 1
                };
                assert(after[moved] == w);
            }
        }
    }
}

fn drop_from(list: &mut Vec<WinHandle>, window: WinHandle)
    requires
        old(list)@.no_duplicates(),
    ensures
        final(list)@ == without(old(list)@, window),
{
    if let Some(at) = place_in(list, window) {
        let _ = list.remove(at);
    }
}

/// One window less on the buffer at `b`; the last one may release its text.
pub open spec fn detached(buffers: Seq<BufferEntry>, b: int, keep: bool) -> Seq<BufferEntry> {
    let entry = buffers[b];
    buffers.update(
        b,
        BufferEntry {
            state: crate::buffer::BufferState {
                attachments: (entry.state.attachments - 1) as usize,
                lines: if entry.state.attachments == 1 && !keep {
                    None
                } else {
                    entry.state.lines
                },
                ..entry.state
            },
            ..entry
        },
    )
}

/// The window that a tabpage makes current when it loses `window`.
pub open spec fn heir(tab: TabEntry, window: WinHandle, successor: WinHandle) -> WinHandle {
    let tiled = without(tab.tiled@, window);
    let rest = tiled + without(tab.floats@, window);
    if tab.current != window {
        tab.current
    } else if rest.contains(successor) {
        successor
    } else {
        tiled[0]
    }
}

/// Closing a window keeps the tables sound.
#[verifier::spinoff_prover]
proof fn lemma_window_closed(before: Editor, after: Editor, t: int, at: int, b: int, keep: bool)
    requires
        before.wf(),
        0 <= t < before.tabs@.len(),
        0 <= at < before.windows@.len(),
        0 <= b < before.buffers@.len(),
        before.windows@[at].tab == before.tabs@[t].handle,
        before.buffers@[b].handle == before.windows@[at].state.buffer,
        before.windows@[at].floating || before.tabs@[t].tiled@.len() > 1,
        after.buffers@ == detached(before.buffers@, b, keep),
        after.windows@ == before.windows@.remove(at),
        after.tabs@.len() == before.tabs@.len(),
        after.tabs@ == before.tabs@.update(t, after.tabs@[t]),
        after.tabs@[t].handle == before.tabs@[t].handle,
        after.tabs@[t].tiled@ == without(before.tabs@[t].tiled@, before.windows@[at].handle),
        after.tabs@[t].floats@ == without(before.tabs@[t].floats@, before.windows@[at].handle),
        (after.tabs@[t].tiled@ + after.tabs@[t].floats@).contains(after.tabs@[t].current),
        after == (Editor {
            buffers: after.buffers,
            windows: after.windows,
            tabs: after.tabs,
            ..before
        }),
    ensures
        after.wf(),
{
    let old_links = before.links();
    let new_links = after.links();
    let window = before.windows@[at].handle;
    let old_tab = old_links.tabs[t];
    let new_tab = new_links.tabs[t];
    let loaded = keep || before.buffers@[b].state.attachments > 1;
    crate::editor::windows::lemma_shown_counts(before, at, b);
    lemma_tab_windows(before, t);
    lemma_parted(before.tabs@[t].tiled@, before.tabs@[t].floats@);
    lemma_without(before.tabs@[t].tiled@, window);
    lemma_without(before.tabs@[t].floats@, window);
    lemma_joined(after.tabs@[t].tiled@, after.tabs@[t].floats@);
    assert(old_links.buffers[b] == crate::editor::buffer_key(before.buffers@[b]));
    assert(old_links.windows[at] == crate::editor::window_key(before.windows@[at]));
    assert(old_tab == crate::editor::tab_key(before.tabs@[t]));
    assert(new_tab == crate::editor::tab_key(after.tabs@[t]));
    assert(new_links.buffers =~= old_links.buffers.update(
        b,
        crate::links::recounted(
            old_links.buffers[b],
            old_links.buffers[b].attachments - 1,
            loaded,
        ),
    ));
    assert(new_links.windows =~= old_links.windows.remove(at));
    assert(new_links.tabs =~= old_links.tabs.update(t, new_tab));
    assert(new_tab.tiled.len() > 0) by {
        if before.windows@[at].floating {
            crate::editor::windows::lemma_window_tab(before, at);
            assert(!before.tabs@[t].tiled@.contains(window));
        }
    }
    old_links.lemma_drop_window(new_links, at, t, new_tab, b, loaded);
    lemma_fewer_windows(before, after, at);
}

/// Fewer windows keep the numbering.
proof fn lemma_fewer_windows(before: Editor, after: Editor, at: int)
    requires
        before.wf(),
        0 <= at < before.windows@.len(),
        after.windows@ == before.windows@.remove(at),
        after.buffers@.len() == before.buffers@.len(),
        forall|i: int|
            0 <= i < after.buffers@.len() ==> (#[trigger] after.buffers@[i]).handle
                == before.buffers@[i].handle && (after.buffers@[i].state.lines is None
                || after.buffers@[i].state.lines == before.buffers@[i].state.lines),
        forall|t: int|
            0 <= t < after.tabs@.len() ==> exists|k: int|
                0 <= k < before.tabs@.len() && (#[trigger] before.tabs@[k]).handle == (
                #[trigger] after.tabs@[t]).handle,
        after.next_buffer == before.next_buffer,
        after.next_window == before.next_window,
        after.next_tabpage == before.next_tabpage,
    ensures
        after.numbered(),
        crate::editor::texts_sound(after.buffers@),
        crate::editor::areas_sound(after.windows@),
{
    assert forall|i: int| 0 <= i < after.buffers@.len() implies 1 <= (
    #[trigger] after.buffers@[i]).handle.0 < after.next_buffer && after.buffers@[i].state.wf() by {
        assert(1 <= before.buffers@[i].handle.0 < before.next_buffer);
        assert(before.buffers@[i].state.wf());
    }
    assert forall|i: int| 0 <= i < after.windows@.len() implies crate::editor::LOWEST_WINDOW_ID
        <= (#[trigger] after.windows@[i]).handle.0 < after.next_window
        && after.windows@[i].area.text_height >= 1 by {
        let from = if i < at {
            i
        } else {
            i + 1
        };
        assert(after.windows@[i] == before.windows@[from]);
    }
    assert forall|i: int| 0 <= i < after.tabs@.len() implies 1 <= (
    #[trigger] after.tabs@[i]).handle.0 < after.next_tabpage by {
        let k = choose|k: int|
            0 <= k < before.tabs@.len() && (#[trigger] before.tabs@[k]).handle
                == after.tabs@[i].handle;
        assert(1 <= before.tabs@[k].handle.0 < before.next_tabpage);
    }
}

impl Editor {
    /// Which tabpage and window a close means, or why it fails.
    pub open spec fn close_request(&self, tab: TabHandle, window: WinHandle) -> Result<
        (int, int),
        EditorError,
    > {
        match (self.resolved_tab(tab), self.resolved_window(window)) {
            (Some(tab), Some(window)) => if !self.has_tab(tab) {
                Err(EditorError::UnknownTabpage(tab))
            } else if !self.has_window(window) {
                Err(EditorError::UnknownWindow(window))
            } else if self.window_entry(window).tab != tab {
                Err(EditorError::UnknownTabpage(tab))
            } else if !self.window_entry(window).floating && self.tab_entry(tab).tiled@.len() == 1 {
                Err(EditorError::Layout(LayoutError::LastWindow))
            } else {
                Ok((self.links().tab_at(tab), self.links().window_at(window)))
            },
            _ => Err(EditorError::NoCurrentTabpage),
        }
    }

    /// Removing the window at `at` from the tabpage at `t`.
    pub open spec fn drops(
        &self,
        after: &Editor,
        t: int,
        at: int,
        keep: bool,
        successor: WinHandle,
    ) -> bool {
        let window = self.windows@[at];
        let tab = self.tabs@[t];
        let closed = after.tabs@[t];
        &&& after.buffers@ == detached(
            self.buffers@,
            self.links().buffer_at(window.state.buffer),
            keep,
        )
        &&& after.windows@ == self.windows@.remove(at)
        &&& after.tabs@ == self.tabs@.update(t, closed)
        &&& closed.handle == tab.handle
        &&& closed.tiled@ == without(tab.tiled@, window.handle)
        &&& closed.floats@ == without(tab.floats@, window.handle)
        &&& closed.current == heir(tab, window.handle, successor)
        &&& closed.same_variables(tab)
        &&& *after == (Editor {
            buffers: after.buffers,
            windows: after.windows,
            tabs: after.tabs,
            ..*self
        })
    }

    /// Removes the window at `at` from the tabpage at `t`.
    fn drop_window(&mut self, t: usize, at: usize, keep: bool, successor: WinHandle) -> (state:
        WindowState)
        requires
            old(self).wf(),
            t < old(self).tabs@.len(),
            at < old(self).windows@.len(),
            old(self).windows@[at as int].tab == old(self).tabs@[t as int].handle,
            old(self).windows@[at as int].floating || old(self).tabs@[t as int].tiled@.len() > 1,
        ensures
            final(self).wf(),
            state == old(self).windows@[at as int].state,
            old(self).drops(final(self), t as int, at as int, keep, successor),
    {
        let window = self.windows[at].handle;
        let buffer = self.windows[at].state.buffer;
        proof {
            crate::editor::windows::lemma_window_tab(*old(self), at as int);
            lemma_tab_windows(*old(self), t as int);
            lemma_parted(old(self).tabs@[t as int].tiled@, old(self).tabs@[t as int].floats@);
            lemma_without(old(self).tabs@[t as int].tiled@, window);
            lemma_without(old(self).tabs@[t as int].floats@, window);
            if old(self).windows@[at as int].floating {
                assert(!old(self).tabs@[t as int].tiled@.contains(window));
            }
        }
        if let Some(b) = self.find_buffer(buffer) {
            proof {
                crate::editor::windows::lemma_shown_counts(*old(self), at as int, b as int);
            }
            self.buffers[b].state.detach(keep);
            assert(self.buffers@ =~= detached(old(self).buffers@, b as int, keep));
        }
        drop_from(&mut self.tabs[t].tiled, window);
        drop_from(&mut self.tabs[t].floats, window);
        if self.tabs[t].current == window {
            let listed: bool = place_in(&self.tabs[t].tiled, successor).is_some() || place_in(
                &self.tabs[t].floats,
                successor,
            ).is_some();
            self.tabs[t].current = if listed {
                successor
            } else {
                self.tabs[t].tiled[0]
            };
        }
        let entry = self.windows.remove(at);
        proof {
            let tab = old(self).tabs@[t as int];
            let closed = self.tabs@[t as int];
            assert(self.tabs@ =~= old(self).tabs@.update(t as int, closed));
            lemma_rest_contains(closed.tiled@, closed.floats@);
            lemma_rest_contains(tab.tiled@, tab.floats@);
            assert(closed.tiled@.contains(closed.tiled@[0]));
            assert(closed.current == heir(tab, window, successor));
            assert((closed.tiled@ + closed.floats@).contains(closed.current));
            lemma_window_closed(
                *old(self),
                *self,
                t as int,
                at as int,
                old(self).links().buffer_at(buffer),
                keep,
            );
        }
        entry.state
    }

    /// Closes a tiled or floating window, applying the effective hidden policy.
    /// `answer` is what the layout makes of the remaining windows.
    ///
    /// # Errors
    ///
    /// [`EditorError::NoCurrentTabpage`] when a current handle is meant and
    /// there is none; [`EditorError::UnknownTabpage`] when the tabpage is not
    /// live or does not own `window`; [`EditorError::UnknownWindow`] when the
    /// window is not live; [`EditorError::Layout`] for the last tiled window.
    pub fn close_window(
        &mut self,
        tab: TabHandle,
        window: WinHandle,
        keep_buffer_loaded: bool,
        answer: CloseAnswer,
    ) -> (result: Result<WindowState, EditorError>)
        requires
            old(self).wf(),
        ensures
            final(self).wf(),
            match old(self).close_request(tab, window) {
                Err(error) => result == Err::<WindowState, _>(error) && *final(self) == *old(self),
                Ok((t, at)) => {
                    &&& result == Ok::<_, EditorError>(old(self).windows@[at].state)
                    &&& old(self).closes(final(self), t, at, keep_buffer_loaded, answer)
                },
            },
    {
        let tab = match self.resolve_tabpage_handle(tab) {
            Ok(tab) => tab,
            Err(error) => {
                return Err(error);
            },
        };
        let window = match self.resolve_window_handle(window) {
            Ok(window) => window,
            Err(error) => {
                return Err(error);
            },
        };
        let t: usize = match self.find_tab(tab) {
            Some(t) => t,
            None => {
                return Err(EditorError::UnknownTabpage(tab));
            },
        };
        let at: usize = match self.find_window(window) {
            Some(at) => at,
            None => {
                return Err(EditorError::UnknownWindow(window));
            },
        };
        if self.windows[at].tab != tab {
            return Err(EditorError::UnknownTabpage(tab));
        }
        if !self.windows[at].floating && self.tabs[t].tiled.len() == 1 {
            return Err(EditorError::Layout(LayoutError::LastWindow));
        }
        proof {
            lemma_tab_windows(*self, t as int);
        }
        let state = self.drop_window(t, at, keep_buffer_loaded, answer.current);
        let ghost mid = *self;
        self.relay(tab, &answer.areas);
        assert(old(self).drops(&mid, t as int, at as int, keep_buffer_loaded, answer.current));
        Ok(state)
    }

    /// Closing the window at `at` of the tabpage at `t`.
    pub open spec fn closes(
        &self,
        after: &Editor,
        t: int,
        at: int,
        keep: bool,
        answer: CloseAnswer,
    ) -> bool {
        exists|mid: Editor| #[trigger]
            self.drops(&mid, t, at, keep, answer.current) && after.windows@ == relaid(
                mid.windows@,
                self.tabs@[t].handle,
                answer.areas@,
            ) && *after == (Editor { windows: after.windows, ..mid })
    }
}

/// What one list of two holds, both together hold.
proof fn lemma_rest_contains(one: Seq<WinHandle>, two: Seq<WinHandle>)
    ensures
        forall|w: WinHandle| #[trigger]
            (one + two).contains(w) <==> one.contains(w) || two.contains(w),
{
    assert forall|w: WinHandle| #[trigger] (one + two).contains(w) <==> one.contains(w)
        || two.contains(w) by {
        let both = one + two;
        if both.contains(w) {
            let i = both.index_of(w);
            assert(both[i] == w);
            if i < one.len() {
                assert(one[i] == w);
            } else {
                assert(two[i - one.len()] == w);
            }
        }
        if one.contains(w) {
            let i = one.index_of(w);
            assert(both[i] == w);
        }
        if two.contains(w) {
            let i = two.index_of(w);
            assert(both[one.len() + i] == w);
        }
    }
}

/// Whether a window is another tabpage's.
pub open spec fn elsewhere(tab: TabHandle) -> spec_fn(WindowEntry) -> bool {
    |entry: WindowEntry| entry.tab != tab
}

/// Buffers that differ at most in how many windows show them.
pub open spec fn recounted(before: Seq<BufferEntry>, after: Seq<BufferEntry>) -> bool {
    &&& after.len() == before.len()
    &&& forall|i: int|
        0 <= i < after.len() ==> #[trigger] after[i] == (BufferEntry {
            state: crate::buffer::BufferState {
                attachments: after[i].state.attachments,
                ..before[i].state
            },
            ..before[i]
        })
}

/// A window of `tab` does not matter to the windows elsewhere.
proof fn lemma_filter_remove(windows: Seq<WindowEntry>, at: int, tab: TabHandle)
    requires
        0 <= at < windows.len(),
        windows[at].tab == tab,
    ensures
        windows.remove(at).filter(elsewhere(tab)) == windows.filter(elsewhere(tab)),
    decreases windows.len(),
{
    reveal(Seq::filter);
    let rest = windows.remove(at);
    if at == windows.len() - 1 {
        assert(rest =~= windows.drop_last());
    } else {
        lemma_filter_remove(windows.drop_last(), at, tab);
        assert(rest.drop_last() =~= windows.drop_last().remove(at));
        assert(rest.last() == windows.last());
    }
}

/// Windows that are all elsewhere stay.
proof fn lemma_filter_all(windows: Seq<WindowEntry>, tab: TabHandle)
    requires
        forall|i: int| 0 <= i < windows.len() ==> (#[trigger] windows[i]).tab != tab,
    ensures
        windows.filter(elsewhere(tab)) == windows,
    decreases windows.len(),
{
    reveal(Seq::filter);
    if windows.len() > 0 {
        assert forall|i: int| 0 <= i < windows.drop_last().len() implies (
        #[trigger] windows.drop_last()[i]).tab != tab by {
            assert(windows.drop_last()[i] == windows[i]);
        }
        lemma_filter_all(windows.drop_last(), tab);
        assert(windows =~= windows.drop_last().push(windows.last()));
    }
}

/// Closing a tabpage with its last window keeps the tables sound.
#[verifier::spinoff_prover]
proof fn lemma_tab_closed(before: Editor, after: Editor, t: int, at: int, b: int)
    requires
        before.wf(),
        before.tabs@.len() > 1,
        0 <= t < before.tabs@.len(),
        0 <= at < before.windows@.len(),
        0 <= b < before.buffers@.len(),
        before.tabs@[t].tiled@ == seq![before.windows@[at].handle],
        before.tabs@[t].floats@.len() == 0,
        before.windows@[at].tab == before.tabs@[t].handle,
        before.buffers@[b].handle == before.windows@[at].state.buffer,
        after.buffers@ == detached(before.buffers@, b, true),
        after.windows@ == before.windows@.remove(at),
        after.tabs@ == before.tabs@.remove(t),
        after == (Editor {
            buffers: after.buffers,
            windows: after.windows,
            tabs: after.tabs,
            current_tab: if before.current_tab == Some(before.tabs@[t].handle) {
                Some(before.tabs@.remove(t)[0].handle)
            } else {
                before.current_tab
            },
            ..before
        }),
    ensures
        after.wf(),
        forall|i: int|
            0 <= i < after.windows@.len() ==> (#[trigger] after.windows@[i]).tab
                != before.tabs@[t].handle,
{
    let old_links = before.links();
    let new_links = after.links();
    crate::editor::windows::lemma_shown_counts(before, at, b);
    assert(old_links.buffers[b] == crate::editor::buffer_key(before.buffers@[b]));
    assert(old_links.windows[at] == crate::editor::window_key(before.windows@[at]));
    assert(old_links.tabs[t] == crate::editor::tab_key(before.tabs@[t]));
    assert(old_links.tabs[t].windows() =~= seq![old_links.windows[at].handle]);
    assert(new_links.buffers =~= old_links.buffers.update(
        b,
        crate::links::recounted(old_links.buffers[b], old_links.buffers[b].attachments - 1, true),
    ));
    assert(new_links.windows =~= old_links.windows.remove(at));
    assert(new_links.tabs =~= old_links.tabs.remove(t));
    old_links.lemma_drop_tab(new_links, at, t, b);
    assert forall|i: int| 0 <= i < after.windows@.len() implies (
    #[trigger] after.windows@[i]).tab != before.tabs@[t].handle by {
        assert(new_links.windows[i] == crate::editor::window_key(after.windows@[i]));
    }
    assert forall|k: int| 0 <= k < after.tabs@.len() implies exists|j: int|
        0 <= j < before.tabs@.len() && (#[trigger] before.tabs@[j]).handle == (
        #[trigger] after.tabs@[k]).handle by {
        let from = if k < t {
            k
        } else {
            k + 1
        };
        assert(before.tabs@[from].handle == after.tabs@[k].handle);
    }
    lemma_fewer_windows(before, after, at);
}

impl Editor {
    /// Closing the tabpage at `t` with all its windows: their buffers stay
    /// loaded and count them no longer, and the first remaining tabpage is
    /// current if the closed one was.
    pub open spec fn closes_tab(&self, after: &Editor, t: int) -> bool {
        let tab = self.tabs@[t].handle;
        &&& after.windows@ == self.windows@.filter(elsewhere(tab))
        &&& recounted(self.buffers@, after.buffers@)
        &&& forall|i: int|
            0 <= i < after.buffers@.len() ==> (#[trigger] after.buffers@[i]).state.attachments
                == crate::links::showing(
                crate::editor::window_keys(after.windows@),
                after.buffers@[i].handle,
            )
        &&& after.tabs@ == self.tabs@.remove(t)
        &&& *after == (Editor {
            buffers: after.buffers,
            windows: after.windows,
            tabs: after.tabs,
            current_tab: if self.current_tab == Some(tab) {
                Some(self.tabs@.remove(t)[0].handle)
            } else {
                self.current_tab
            },
            ..*self
        })
    }

    /// Closes a tabpage and every window it owns.
    ///
    /// # Errors
    ///
    /// Those of [`Editor::locate_tab`], or [`EditorError::LastTabpage`] when it
    /// is the only tabpage.
    #[verifier::spinoff_prover]
    #[verifier::rlimit(40)]
    pub fn close_tabpage(&mut self, tab: TabHandle) -> (result: Result<(), EditorError>)
        requires
            old(self).wf(),
        ensures
            final(self).wf(),
            match old(self).tab_request(tab) {
                Err(error) => result == Err::<(), _>(error) && *final(self) == *old(self),
                Ok(t) => if old(self).tabs@.len() <= 1 {
                    result == Err::<(), _>(EditorError::LastTabpage) && *final(self) == *old(self)
                } else {
                    result == Ok::<(), EditorError>(()) && old(self).closes_tab(final(self), t)
                },
            },
    {
        let t: usize = match self.locate_tab(tab) {
            Ok(t) => t,
            Err(error) => {
                return Err(error);
            },
        };
        if self.tabs.len() <= 1 {
            return Err(EditorError::LastTabpage);
        }
        self.close_all_but_first(t);
        let ghost mid = *self;
        proof {
            lemma_tab_windows(mid, t as int);
        }
        let handle = self.tabs[t].handle;
        let window = self.tabs[t].tiled[0];
        assert(self.tabs@[t as int].tiled@.contains(window));
        if let Some(at) = self.find_window(window) {
            proof {
                crate::editor::windows::lemma_window_tab(mid, at as int);
            }
            let buffer = self.windows[at].state.buffer;
            if let Some(b) = self.find_buffer(buffer) {
                proof {
                    crate::editor::windows::lemma_shown_counts(mid, at as int, b as int);
                }
                self.buffers[b].state.detach(true);
                let _ = self.windows.remove(at);
                let _ = self.tabs.remove(t);
                if self.current_tab == Some(handle) {
                    self.current_tab = Some(self.tabs[0].handle);
                }
                proof {
                    assert(self.buffers@ =~= detached(mid.buffers@, b as int, true));
                    assert(mid.tabs@[t as int].tiled@ =~= seq![window]);
                    assert(self.tabs@ =~= old(self).tabs@.remove(t as int));
                    lemma_tab_closed(mid, *self, t as int, at as int, b as int);
                    lemma_filter_remove(mid.windows@, at as int, handle);
                    lemma_filter_all(self.windows@, handle);
                    let links = self.links();
                    links.lemma_parts();
                    assert forall|i: int| 0 <= i < self.buffers@.len() implies (
                    #[trigger] self.buffers@[i]).state.attachments == crate::links::showing(
                        crate::editor::window_keys(self.windows@),
                        self.buffers@[i].handle,
                    ) by {
                        assert(links.buffers[i] == crate::editor::buffer_key(self.buffers@[i]));
                    }
                }
            }
        }
        Ok(())
    }

    /// Closes every window of the tabpage at `t` but its first tiled one.
    fn close_all_but_first(&mut self, t: usize)
        requires
            old(self).wf(),
            t < old(self).tabs@.len(),
        ensures
            final(self).wf(),
            final(self).tabs@.len() == old(self).tabs@.len(),
            final(self).tabs@ == old(self).tabs@.update(t as int, final(self).tabs@[t as int]),
            final(self).tabs@[t as int].handle == old(self).tabs@[t as int].handle,
            final(self).tabs@[t as int].tiled@.len() == 1,
            final(self).tabs@[t as int].floats@.len() == 0,
            recounted(old(self).buffers@, final(self).buffers@),
            final(self).windows@.filter(elsewhere(old(self).tabs@[t as int].handle))
                == old(self).windows@.filter(elsewhere(old(self).tabs@[t as int].handle)),
            *final(self) == (Editor {
                buffers: final(self).buffers,
                windows: final(self).windows,
                tabs: final(self).tabs,
                ..*old(self)
            }),
    {
        let handle = self.tabs[t].handle;
        proof {
            lemma_tab_windows(*self, t as int);
        }
        while self.tabs[t].floats.len() > 0 || self.tabs[t].tiled.len() > 1
            invariant
                self.wf(),
                t < self.tabs@.len(),
                handle == old(self).tabs@[t as int].handle,
                self.tabs@.len() == old(self).tabs@.len(),
                self.tabs@ == old(self).tabs@.update(t as int, self.tabs@[t as int]),
                self.tabs@[t as int].handle == handle,
                self.tabs@[t as int].tiled@.len() > 0,
                recounted(old(self).buffers@, self.buffers@),
                self.windows@.filter(elsewhere(handle)) == old(self).windows@.filter(
                    elsewhere(handle),
                ),
                *self == (Editor {
                    buffers: self.buffers,
                    windows: self.windows,
                    tabs: self.tabs,
                    ..*old(self)
                }),
            decreases self.windows@.len(),
        {
            proof {
                lemma_tab_windows(*self, t as int);
            }
            let ghost before = *self;
            let floats: usize = self.tabs[t].floats.len();
            let tiled: usize = self.tabs[t].tiled.len();
            let window = if floats > 0 {
                self.tabs[t].floats[floats - 1]
            } else {
                self.tabs[t].tiled[tiled - 1]
            };
            let first = self.tabs[t].tiled[0];
            assert(floats > 0 ==> self.tabs@[t as int].floats@.contains(window));
            assert(floats == 0 ==> self.tabs@[t as int].tiled@.contains(window));
            match self.find_window(window) {
                Some(at) => {
                    let _ = self.drop_window(t, at, true, first);
                    proof {
                        crate::editor::windows::lemma_window_tab(before, at as int);
                        lemma_filter_remove(before.windows@, at as int, handle);
                        lemma_tab_windows(*self, t as int);
                        assert(self.tabs@ =~= old(self).tabs@.update(
                            t as int,
                            self.tabs@[t as int],
                        ));
                        assert(recounted(old(self).buffers@, self.buffers@)) by {
                            assert forall|i: int| 0 <= i < self.buffers@.len() implies #[trigger]
                            self.buffers@[i] == (BufferEntry {
                                state: crate::buffer::BufferState {
                                    attachments: self.buffers@[i].state.attachments,
                                    ..old(self).buffers@[i].state
                                },
                                ..old(self).buffers@[i]
                            }) by {
                                assert(before.buffers@[i] == before.buffers@[i]);
                            }
                        }
                    }
                },
                None => {},
            }
        }
    }
}

/// No tabpage lists the window that is made next.
proof fn lemma_next_window_is_new(editor: Editor, t: int)
    requires
        editor.wf(),
        0 <= t < editor.tabs@.len(),
        editor.next_window <= i32::MAX,
    ensures
        !editor.tabs@[t].tiled@.contains(WinHandle(editor.next_window as i32)),
        !editor.tabs@[t].floats@.contains(WinHandle(editor.next_window as i32)),
        editor.tabs@[t].current != WinHandle(editor.next_window as i32),
{
    let window = WinHandle(editor.next_window as i32);
    lemma_tab_windows(editor, t);
    if editor.has_window(window) {
        editor.links().lemma_parts();
        let at = editor.links().window_at(window);
        assert(editor.links().windows[at].handle == editor.windows@[at].handle);
        assert(editor.windows@[at].handle.0 < editor.next_window);
    }
}

/// A buffer that got one more window, and then lost it and stayed loaded, is as
/// it was.
proof fn lemma_attached_and_detached(before: Editor, open: Editor, b: int)
    requires
        before.wf(),
        open.wf(),
        0 <= b < before.buffers@.len(),
        open.buffers@ == attached(before.buffers@, b),
        open.windows@.len() == before.windows@.len() + 1,
    ensures
        open.links().buffer_at(before.buffers@[b].handle) == b,
        detached(open.buffers@, b, true) == before.buffers@,
{
    let links = before.links();
    links.lemma_parts();
    open.links().lemma_parts();
    let key = links.buffers[b];
    assert(key == crate::editor::buffer_key(before.buffers@[b]));
    crate::links::lemma_showing_bounds(links.windows, key.handle);
    assert(open.windows.len() <= usize::MAX);
    assert(before.buffers@[b].state.attachments < usize::MAX);
    assert(open.links().buffers[b].handle == open.buffers@[b].handle);
    open.links().lemma_buffer_at(b);
    assert(detached(open.buffers@, b, true) =~= before.buffers@);
}

/// A floating window that is opened and closed again, with no other window
/// moved, leaves buffers, windows and the tabpage as they were.
pub proof fn law_closing_a_float_undoes_opening_it(
    before: Editor,
    open: Editor,
    after: Editor,
    t: int,
    b: int,
    area: Area,
    answer: CloseAnswer,
)
    requires
        before.wf(),
        open.wf(),
        0 <= t < before.tabs@.len(),
        0 <= b < before.buffers@.len(),
        before.next_window <= i32::MAX,
        before.floats_on(&open, t, b, area),
        answer.areas@.len() == 0,
        open.closes(&after, t, open.windows@.len() - 1, true, answer),
    ensures
        after.buffers@ == before.buffers@,
        after.windows@ == before.windows@,
        after.tabs@.len() == before.tabs@.len(),
        after.tabs@[t].tiled@ == before.tabs@[t].tiled@,
        after.tabs@[t].floats@ == before.tabs@[t].floats@,
        after.tabs@[t].current == before.tabs@[t].current,
        after.tabs@[t].same_variables(before.tabs@[t]),
        forall|i: int|
            0 <= i < before.tabs@.len() && i != t ==> #[trigger] after.tabs@[i] == before.tabs@[i],
{
    let window = WinHandle(before.next_window as i32);
    let last = open.windows@.len() - 1;
    lemma_next_window_is_new(before, t);
    lemma_attached_and_detached(before, open, b);
    let mid = choose|mid: Editor| #[trigger]
        open.drops(&mid, t, last, true, answer.current) && after.windows@ == relaid(
            mid.windows@,
            open.tabs@[t].handle,
            answer.areas@,
        ) && after == (Editor { windows: after.windows, ..mid });
    assert(open.windows@[last].handle == window);
    let floats = before.tabs@[t].floats@;
    let pushed = floats.push(window);
    assert(pushed[floats.len() as int] == window);
    assert(pushed.index_of(window) == floats.len()) by {
        let at = pushed.index_of(window);
        assert(pushed[at] == window);
        if at < floats.len() {
            assert(floats[at] == window);
        }
    }
    assert(without(pushed, window) =~= floats);
    assert(mid.windows@ =~= before.windows@);
    assert(after.windows@ =~= before.windows@);
}

/// A window that a split opened and that is closed again leaves the buffers,
/// and the tabpage with the windows it had, in their order.
pub proof fn law_closing_a_split_undoes_it(
    before: Editor,
    split: Editor,
    after: Editor,
    places: (int, int, int),
    direction: SplitDirection,
    enter: bool,
    opened: SplitAnswer,
    closed: CloseAnswer,
)
    requires
        before.wf(),
        split.wf(),
        0 <= places.0 < before.tabs@.len(),
        0 <= places.1 < before.windows@.len(),
        0 <= places.2 < before.buffers@.len(),
        before.next_window <= i32::MAX,
        before.tabs@[places.0].tiled@.contains(before.windows@[places.1].handle),
        before.splits(&split, places, direction, enter, opened),
        split.closes(&after, places.0, split.windows@.len() - 1, true, closed),
    ensures
        after.buffers@ == before.buffers@,
        crate::editor::window_keys(after.windows@) == crate::editor::window_keys(before.windows@),
        after.tabs@.len() == before.tabs@.len(),
        after.tabs@[places.0].tiled@ == before.tabs@[places.0].tiled@,
        after.tabs@[places.0].floats@ == before.tabs@[places.0].floats@,
        !enter ==> after.tabs@[places.0].current == before.tabs@[places.0].current,
{
    let (t, at, b) = places;
    let window = WinHandle(before.next_window as i32);
    let target = before.windows@[at].handle;
    let last = split.windows@.len() - 1;
    lemma_next_window_is_new(before, t);
    lemma_attached_and_detached(before, split, b);
    let mid = choose|mid: Editor| #[trigger]
        split.drops(&mid, t, last, true, closed.current) && after.windows@ == relaid(
            mid.windows@,
            split.tabs@[t].handle,
            closed.areas@,
        ) && after == (Editor { windows: after.windows, ..mid });
    assert(split.windows@[last].handle == window);
    let tiled = before.tabs@[t].tiled@;
    let place = if opens_behind(direction) {
        tiled.index_of(target) + 1
    } else {
        tiled.index_of(target)
    };
    assert(tiled[tiled.index_of(target)] == target);
    let wider = tiled.insert(place, window);
    assert(wider == beside(tiled, target, window, opens_behind(direction)));
    assert(wider[place] == window);
    assert(wider.index_of(window) == place) by {
        let found = wider.index_of(window);
        assert(wider[found] == window);
        if found < place {
            assert(tiled[found] == window);
        } else if found > place {
            assert(tiled[found - 1] == window);
        }
    }
    assert(without(wider, window) =~= tiled);
    assert(without(before.tabs@[t].floats@, window) == before.tabs@[t].floats@);
    assert(crate::editor::window_keys(after.windows@) =~= crate::editor::window_keys(
        before.windows@,
    ));
}

} // verus!
