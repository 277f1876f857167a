//! The single-writer root for all editor state: its tables, their invariant,
//! and how handles are resolved.

use vstd::prelude::*;

use crate::buffer::{BufferOptions, BufferState};
use crate::decoration::Decorations;
use crate::diffmode::DiffState;
use crate::errors::{EditorError, HandleKind};
use crate::messages::{MessageRouting, MessageSink, Object, RedrawRequest};
use crate::types::{BufHandle, OxStr, Position, TabHandle, WinHandle};
use crate::window::{TabEntry, WindowEntry, WindowOptions};

pub mod access;
pub mod batches;
pub mod buffers;
pub mod contexts;
pub mod directories;
pub mod edit_laws;
pub mod edits;
pub mod output;
pub mod puts;
pub mod screen;
pub mod tabs;
pub mod terminal;
pub mod undo;
pub mod windows;

verus! {

/// The lowest window handle; smaller numbers are window numbers in scripts.
pub const LOWEST_WINDOW_ID: i64 = 1_000;

/// Allocator of the process-wide dynamic channel key space.
#[derive(Debug, PartialEq, Eq)]
pub struct ChannelIds {
    next: u64,
}

impl Default for ChannelIds {
    fn default() -> (ids: Self)
        ensures
            ids.upcoming() == 3,
    {
        Self::new()
    }
}

impl ChannelIds {
    /// The id that the next allocation returns.
    pub closed spec fn upcoming(&self) -> u64 {
        self.next
    }

    /// Start after the reserved stdio and stderr channel ids.
    #[must_use]
    pub fn new() -> (ids: Self)
        ensures
            ids.upcoming() == 3,
    {
        ChannelIds { next: 3 }
    }

    /// Allocate one monotonically increasing dynamic channel id.
    ///
    /// Ids are never reused or saturated: the last one is never given out, so
    /// that a wrapped id cannot collide with a live channel.
    #[must_use]
    pub fn allocate(&mut self) -> (id: u64)
        requires
            old(self).upcoming() < u64::MAX,
        ensures
            id == old(self).upcoming(),
            final(self).upcoming() == old(self).upcoming() + 1,
    {
        let id: u64 = self.next;
        self.next = id + 1;
        id
    }
}

/// An id that was given out is smaller than every later one: ids are not reused.
pub proof fn law_channel_ids_are_not_reused(
    before: ChannelIds,
    after: ChannelIds,
    later: ChannelIds,
    id: u64,
)
    requires
        id == before.upcoming(),
        after.upcoming() == before.upcoming() + 1,
        after.upcoming() <= later.upcoming(),
    ensures
        id < later.upcoming(),
{
}

/// What to do with an old buffer after its last window switches away.
#[derive(Clone, Copy, Debug, Eq, PartialEq, Structural)]
pub enum BufferRelease {
    /// Retain resident text as a hidden buffer.
    KeepLoaded,
    /// Release resident text and undo history.
    Unload,
}

/// Editor input mode visible to buffer edits for cursor-adjustment policy.
#[derive(Clone, Copy, Debug, Eq, PartialEq, Structural)]
pub enum BufferEditMode {
    /// Normal command mode (the default).
    Normal,
    /// Insert or replace mode.
    Insert,
}

impl Default for BufferEditMode {
    fn default() -> (mode: Self)
        ensures
            mode == BufferEditMode::Normal,
    {
        BufferEditMode::Normal
    }
}

/// Editor-wide option values.
#[derive(Debug, PartialEq, Eq)]
pub struct GlobalOptions {
    /// `'diffopt'`.
    pub diffopt: String,
    /// `'scrollopt'`.
    pub scrollopt: String,
    /// `'verbose'`.
    pub verbose: i64,
    /// `'autochdir'`.
    pub autochdir: bool,
    /// `'eventignore'`.
    pub eventignore: String,
}

/// A change that the mark, jump and change tables take over, in the order in
/// which the changes happened.
#[derive(Clone, Copy, Debug, Eq, PartialEq, Structural)]
pub enum HistoryEvent {
    /// Lines were replaced: positions of the buffer move.
    Splice {
        /// The edited buffer.
        buffer: BufHandle,
        /// First replaced line, one-based.
        start: usize,
        /// How many lines were replaced.
        old_count: usize,
        /// How many lines replace them.
        new_count: usize,
    },
    /// A change ended at a position: the buffer's change list gets an entry.
    Change {
        /// The edited buffer.
        buffer: BufHandle,
        /// Where the change ended.
        position: Position,
    },
    /// A buffer is gone: its entries are dropped.
    Forget {
        /// The wiped buffer.
        buffer: BufHandle,
    },
}

/// One editor-owned terminal channel.
#[derive(Debug, PartialEq, Eq)]
pub struct TerminalChannelInfo {
    /// The channel's id.
    pub channel: u64,
    /// Pseudoterminal slave name.
    pub pty: Option<String>,
    /// Buffer that displays the channel's output.
    pub buffer: BufHandle,
    /// Bytes owed to the child in answer to its queries.
    pub replies: Vec<u8>,
}

/// One live buffer.
#[derive(Debug, PartialEq, Eq)]
pub struct BufferEntry {
    /// The buffer's handle.
    pub handle: BufHandle,
    /// Everything else.
    pub state: BufferState,
}

/// All mutable editor state under a single `&mut self` discipline.
///
/// No state is process-global. Event-loop and remote layers can serialize their
/// requests into calls on this root without introducing locks into the model.
#[derive(Debug, PartialEq, Eq)]
pub struct Editor {
    /// Live buffers in the order of their handles.
    pub buffers: Vec<BufferEntry>,
    /// Live windows in the order of their handles.
    pub windows: Vec<WindowEntry>,
    /// Live tabpages in tab order.
    pub tabs: Vec<TabEntry>,
    /// The current tabpage.
    pub current_tab: Option<TabHandle>,
    /// Last current window.
    pub previous_window: Option<WinHandle>,
    /// Number of the next buffer.
    pub next_buffer: i64,
    /// Number of the next window.
    pub next_window: i64,
    /// Number of the next tabpage.
    pub next_tabpage: i64,
    /// Editor-wide options.
    pub globals: GlobalOptions,
    /// Options that new windows start with.
    pub window_defaults: WindowOptions,
    /// Options that new buffers start with.
    pub buffer_defaults: BufferOptions,
    /// Session-global previous directory.
    pub previous_directory: Option<String>,
    /// Session-global directory.
    pub global_directory: Option<String>,
    /// Current edit mode for cursor adjustment policy.
    pub edit_mode: BufferEditMode,
    /// Buffer whose current insert/replace session has recorded text.
    pub active_text_edit: Option<BufHandle>,
    /// Messages waiting for a consumer.
    pub sink: MessageSink,
    /// Process modes deciding where message output goes.
    pub message_routing: MessageRouting,
    /// Editor-wide `g:` variables.
    pub gvars: Vec<(OxStr, Object)>,
    /// Bumped by every writer of the `g:` variables.
    pub gvars_version: u64,
    /// Editor-wide `v:` variables.
    pub vvars: Vec<(OxStr, Object)>,
    /// Bumped by every writer of the `v:` variables.
    pub vvars_version: u64,
    /// Raw UI payloads staged for the redraw pass.
    pub ui_sends: Vec<OxStr>,
    /// Redraw requests staged for the redraw pass.
    pub redraws: Vec<RedrawRequest>,
    /// Changes that the position tables have yet to take over.
    pub history: Vec<HistoryEvent>,
    /// Buffers whose subscriptions were released by wiping them.
    pub released: Vec<BufHandle>,
    /// Diff-mode state.
    pub diff: DiffState,
    /// Decoration providers and redraw-scoped output.
    pub decorations: Decorations,
    /// Allocator of dynamic channel ids.
    pub channel_ids: ChannelIds,
    /// Terminal channels in the order of their ids.
    pub terminals: Vec<TerminalChannelInfo>,
    /// Whether a beep was recorded since the last take.
    pub beeped: bool,
    /// Namespaces of the named sign groups, in the order of the names.
    pub sign_groups: Vec<(String, u32)>,
}

/// What ties a buffer to its windows.
pub open spec fn buffer_key(entry: BufferEntry) -> crate::links::BufferKey {
    crate::links::BufferKey {
        handle: entry.handle,
        attachments: entry.state.attachments as int,
        loaded: entry.state.lines is Some,
    }
}

/// What ties a window to its buffer and tabpage.
pub open spec fn window_key(entry: WindowEntry) -> crate::links::WindowKey {
    crate::links::WindowKey {
        handle: entry.handle,
        tab: entry.tab,
        floating: entry.floating,
        buffer: entry.state.buffer,
    }
}

/// What ties a tabpage to its windows.
pub open spec fn tab_key(entry: TabEntry) -> crate::links::TabKey {
    crate::links::TabKey {
        handle: entry.handle,
        tiled: entry.tiled@,
        floats: entry.floats@,
        current: entry.current,
    }
}

/// The keys of all buffers.
pub open spec fn buffer_keys(entries: Seq<BufferEntry>) -> Seq<crate::links::BufferKey> {
    entries.map_values(|entry: BufferEntry| buffer_key(entry))
}

/// The keys of all windows.
pub open spec fn window_keys(entries: Seq<WindowEntry>) -> Seq<crate::links::WindowKey> {
    entries.map_values(|entry: WindowEntry| window_key(entry))
}

/// The keys of all tabpages.
pub open spec fn tab_keys(entries: Seq<TabEntry>) -> Seq<crate::links::TabKey> {
    entries.map_values(|entry: TabEntry| tab_key(entry))
}

/// Every buffer's text is sound.
pub open spec fn texts_sound(buffers: Seq<BufferEntry>) -> bool {
    forall|i: int| 0 <= i < buffers.len() ==> (#[trigger] buffers[i]).state.wf()
}

/// Every window shows at least one row of text.
pub open spec fn areas_sound(windows: Seq<WindowEntry>) -> bool {
    forall|i: int| 0 <= i < windows.len() ==> (#[trigger] windows[i]).area.text_height >= 1
}

/// Channels stand in the order of their ids, each id once.
pub open spec fn channels_sound(terminals: Seq<TerminalChannelInfo>) -> bool {
    forall|i: int, j: int|
        0 <= i < j < terminals.len() ==> (#[trigger] terminals[i]).channel < (
        #[trigger] terminals[j]).channel
}

/// Sign groups stand in the order of their names, each name once.
pub open spec fn groups_sound(groups: Seq<(String, u32)>) -> bool {
    forall|i: int, j: int|
        0 <= i < j < groups.len() ==> crate::text::sorts_before(
            (#[trigger] groups[i]).0@,
            (#[trigger] groups[j]).0@,
        )
}

impl Editor {
    /// The references between the tables.
    pub open spec fn links(&self) -> crate::links::Links {
        crate::links::Links {
            buffers: buffer_keys(self.buffers@),
            windows: window_keys(self.windows@),
            tabs: tab_keys(self.tabs@),
            current_tab: self.current_tab,
        }
    }

    /// Handles are positive, windows' in their own range, and none is ahead of
    /// its counter.
    pub open spec fn numbered(&self) -> bool {
        &&& 1 <= self.next_buffer <= i32::MAX + 1
        &&& LOWEST_WINDOW_ID <= self.next_window <= i32::MAX + 1
        &&& 1 <= self.next_tabpage <= i32::MAX + 1
        &&& forall|i: int|
            0 <= i < self.buffers@.len() ==> 1 <= (#[trigger] self.buffers@[i]).handle.0
                < self.next_buffer
        &&& forall|i: int|
            0 <= i < self.windows@.len() ==> LOWEST_WINDOW_ID <= (
            #[trigger] self.windows@[i]).handle.0 < self.next_window
        &&& forall|i: int|
            0 <= i < self.tabs@.len() ==> 1 <= (#[trigger] self.tabs@[i]).handle.0
                < self.next_tabpage
    }

    /// The editor's invariant.
    pub open spec fn wf(&self) -> bool {
        &&& self.links().wf()
        &&& self.numbered()
        &&& texts_sound(self.buffers@)
        &&& areas_sound(self.windows@)
        &&& self.sink.wf()
        &&& self.decorations.wf()
        &&& channels_sound(self.terminals@)
        &&& groups_sound(self.sign_groups@)
    }

    /// Whether `buffer` is live.
    pub open spec fn has_buffer(&self, buffer: BufHandle) -> bool {
        self.links().has_buffer(buffer)
    }

    /// Whether `window` is live.
    pub open spec fn has_window(&self, window: WinHandle) -> bool {
        self.links().has_window(window)
    }

    /// Whether `tab` is live.
    pub open spec fn has_tab(&self, tab: TabHandle) -> bool {
        self.links().has_tab(tab)
    }

    /// The live buffer's state.
    pub open spec fn buffer_state(&self, buffer: BufHandle) -> BufferState {
        self.buffers@[self.links().buffer_at(buffer)].state
    }

    /// The live window's entry.
    pub open spec fn window_entry(&self, window: WinHandle) -> WindowEntry {
        self.windows@[self.links().window_at(window)]
    }

    /// The live tabpage's entry.
    pub open spec fn tab_entry(&self, tab: TabHandle) -> TabEntry {
        self.tabs@[self.links().tab_at(tab)]
    }

    /// The window that a request for `window` means: zero is the current one.
    pub open spec fn resolved_window(&self, window: WinHandle) -> Option<WinHandle> {
        if window.0 == 0 {
            self.links().current_window()
        } else {
            Some(window)
        }
    }

    /// The buffer that a request for `buffer` means: zero is the current one.
    pub open spec fn resolved_buffer(&self, buffer: BufHandle) -> Option<BufHandle> {
        if buffer.0 == 0 {
            self.links().current_buffer()
        } else {
            Some(buffer)
        }
    }

    /// The tabpage that a request for `tab` means: zero is the current one.
    pub open spec fn resolved_tab(&self, tab: TabHandle) -> Option<TabHandle> {
        if tab.0 == 0 {
            self.current_tab
        } else {
            Some(tab)
        }
    }

    /// Where the buffer that a request means is, or why there is none.
    pub open spec fn buffer_request(&self, buffer: BufHandle) -> Result<int, EditorError> {
        match self.resolved_buffer(buffer) {
            Some(handle) => if self.has_buffer(handle) {
                Ok(self.links().buffer_at(handle))
            } else {
                Err(EditorError::UnknownBuffer(handle))
            },
            None => Err(EditorError::NoCurrentTabpage),
        }
    }

    /// Where the window that a request means is, or why there is none.
    pub open spec fn window_request(&self, window: WinHandle) -> Result<int, EditorError> {
        match self.resolved_window(window) {
            Some(handle) => if self.has_window(handle) {
                Ok(self.links().window_at(handle))
            } else {
                Err(EditorError::UnknownWindow(handle))
            },
            None => Err(EditorError::NoCurrentTabpage),
        }
    }

    /// Where the tabpage that a request means is, or why there is none.
    pub open spec fn tab_request(&self, tab: TabHandle) -> Result<int, EditorError> {
        match self.resolved_tab(tab) {
            Some(handle) => if self.has_tab(handle) {
                Ok(self.links().tab_at(handle))
            } else {
                Err(EditorError::UnknownTabpage(handle))
            },
            None => Err(EditorError::NoCurrentTabpage),
        }
    }

    /// Finds a live buffer.
    pub fn find_buffer(&self, buffer: BufHandle) -> (at: Option<usize>)
        requires
            self.links().wf(),
        ensures
            at is Some == self.has_buffer(buffer),
            at is Some ==> at->0 == self.links().buffer_at(buffer) && at->0 < self.buffers@.len()
                && self.buffers@[at->0 as int].handle == buffer,
    {
        proof {
            self.links().lemma_parts();
        }
        let mut next: usize = 0;
        while next < self.buffers.len()
            invariant
                self.links().ordered(),
                next <= self.buffers@.len(),
                forall|i: int|
                    0 <= i < next ==> (#[trigger] self.links().buffers[i]).handle != buffer,
            decreases self.buffers@.len() - next,
        {
            assert(self.links().buffers[next as int].handle == self.buffers@[next as int].handle);
            if self.buffers[next].handle == buffer {
                proof {
                    self.links().lemma_buffer_at(next as int);
                }
                return Some(next);
            }
            next = next + 1;
        }
        None
    }

    /// Finds a live window.
    pub fn find_window(&self, window: WinHandle) -> (at: Option<usize>)
        requires
            self.links().wf(),
        ensures
            at is Some == self.has_window(window),
            at is Some ==> at->0 == self.links().window_at(window) && at->0 < self.windows@.len()
                && self.windows@[at->0 as int].handle == window,
    {
        proof {
            self.links().lemma_parts();
        }
        let mut next: usize = 0;
        while next < self.windows.len()
            invariant
                self.links().ordered(),
                next <= self.windows@.len(),
                forall|i: int|
                    0 <= i < next ==> (#[trigger] self.links().windows[i]).handle != window,
            decreases self.windows@.len() - next,
        {
            assert(self.links().windows[next as int].handle == self.windows@[next as int].handle);
            if self.windows[next].handle == window {
                proof {
                    self.links().lemma_window_at(next as int);
                }
                return Some(next);
            }
            next = next + 1;
        }
        None
    }

    /// Finds a live tabpage.
    pub fn find_tab(&self, tab: TabHandle) -> (at: Option<usize>)
        requires
            self.links().wf(),
        ensures
            at is Some == self.has_tab(tab),
            at is Some ==> at->0 == self.links().tab_at(tab) && at->0 < self.tabs@.len()
                && self.tabs@[at->0 as int].handle == tab,
    {
        proof {
            self.links().lemma_parts();
        }
        let mut next: usize = 0;
        while next < self.tabs.len()
            invariant
                self.links().ordered(),
                next <= self.tabs@.len(),
                forall|i: int| 0 <= i < next ==> (#[trigger] self.links().tabs[i]).handle != tab,
            decreases self.tabs@.len() - next,
        {
            assert(self.links().tabs[next as int].handle == self.tabs@[next as int].handle);
            if self.tabs[next].handle == tab {
                proof {
                    self.links().lemma_tab_at(next as int);
                }
                return Some(next);
            }
            next = next + 1;
        }
        None
    }

    /// Returns the current tabpage, if one has been created.
    #[must_use]
    pub fn current_tabpage(&self) -> (tab: Option<TabHandle>)
        ensures
            tab == self.current_tab,
    {
        self.current_tab
    }

    /// Returns the current window, if a tabpage has been created.
    #[must_use]
    pub fn current_window(&self) -> (window: Option<WinHandle>)
        requires
            self.wf(),
        ensures
            window == self.links().current_window(),
    {
        proof {
            self.links().lemma_parts();
        }
        match self.current_tab {
            Some(tab) => match self.find_tab(tab) {
                Some(at) => {
                    assert(self.links().tabs[at as int] == tab_key(self.tabs@[at as int]));
                    Some(self.tabs[at].current)
                },
                None => None,
            },
            None => None,
        }
    }

    /// Returns the buffer displayed by the current window.
    #[must_use]
    pub fn current_buffer(&self) -> (buffer: Option<BufHandle>)
        requires
            self.wf(),
        ensures
            buffer == self.links().current_buffer(),
    {
        match self.current_window() {
            Some(window) => {
                proof {
                    self.links().lemma_current_window();
                }
                match self.find_window(window) {
                    Some(at) => {
                        assert(self.links().windows[at as int] == window_key(
                            self.windows@[at as int],
                        ));
                        Some(self.windows[at].state.buffer)
                    },
                    None => None,
                }
            },
            None => None,
        }
    }

    /// The window that a request means.
    ///
    /// # Errors
    ///
    /// [`EditorError::NoCurrentTabpage`] when the current window is meant and
    /// there is none.
    pub fn resolve_window_handle(&self, window: WinHandle) -> (resolved: Result<
        WinHandle,
        EditorError,
    >)
        requires
            self.wf(),
        ensures
            match self.resolved_window(window) {
                Some(handle) => resolved == Ok::<_, EditorError>(handle),
                None => resolved == Err::<WinHandle, _>(EditorError::NoCurrentTabpage),
            },
    {
        if window.is_current() {
            match self.current_window() {
                Some(window) => Ok(window),
                None => Err(EditorError::NoCurrentTabpage),
            }
        } else {
            Ok(window)
        }
    }

    /// The buffer that a request means.
    ///
    /// # Errors
    ///
    /// [`EditorError::NoCurrentTabpage`] when the current buffer is meant and
    /// there is none.
    pub fn resolve_buffer_handle(&self, buffer: BufHandle) -> (resolved: Result<
        BufHandle,
        EditorError,
    >)
        requires
            self.wf(),
        ensures
            match self.resolved_buffer(buffer) {
                Some(handle) => resolved == Ok::<_, EditorError>(handle),
                None => resolved == Err::<BufHandle, _>(EditorError::NoCurrentTabpage),
            },
    {
        if buffer.is_current() {
            match self.current_buffer() {
                Some(buffer) => Ok(buffer),
                None => Err(EditorError::NoCurrentTabpage),
            }
        } else {
            Ok(buffer)
        }
    }

    /// The tabpage that a request means.
    ///
    /// # Errors
    ///
    /// [`EditorError::NoCurrentTabpage`] when the current tabpage is meant and
    /// there is none.
    pub fn resolve_tabpage_handle(&self, tab: TabHandle) -> (resolved: Result<
        TabHandle,
        EditorError,
    >)
        ensures
            match self.resolved_tab(tab) {
                Some(handle) => resolved == Ok::<_, EditorError>(handle),
                None => resolved == Err::<TabHandle, _>(EditorError::NoCurrentTabpage),
            },
    {
        if tab.is_current() {
            match self.current_tab {
                Some(tab) => Ok(tab),
                None => Err(EditorError::NoCurrentTabpage),
            }
        } else {
            Ok(tab)
        }
    }
}

impl Editor {
    /// Finds the buffer that a request means.
    ///
    /// # Errors
    ///
    /// [`EditorError::NoCurrentTabpage`] when the current buffer is meant and
    /// there is none, [`EditorError::UnknownBuffer`] when it is not live.
    pub fn locate_buffer(&self, buffer: BufHandle) -> (at: Result<usize, EditorError>)
        requires
            self.wf(),
        ensures
            match self.buffer_request(buffer) {
                Ok(place) => at is Ok && at->Ok_0 == place && place < self.buffers@.len(),
                Err(error) => at is Err && at->Err_0 == error,
            },
    {
        let handle = match self.resolve_buffer_handle(buffer) {
            Ok(handle) => handle,
            Err(error) => {
                return Err(error);
            },
        };
        match self.find_buffer(handle) {
            Some(at) => Ok(at),
            None => Err(EditorError::UnknownBuffer(handle)),
        }
    }

    /// Finds the window that a request means.
    ///
    /// # Errors
    ///
    /// [`EditorError::NoCurrentTabpage`] when the current window is meant and
    /// there is none, [`EditorError::UnknownWindow`] when it is not live.
    pub fn locate_window(&self, window: WinHandle) -> (at: Result<usize, EditorError>)
        requires
            self.wf(),
        ensures
            match self.window_request(window) {
                Ok(place) => at is Ok && at->Ok_0 == place && place < self.windows@.len(),
                Err(error) => at is Err && at->Err_0 == error,
            },
    {
        let handle = match self.resolve_window_handle(window) {
            Ok(handle) => handle,
            Err(error) => {
                return Err(error);
            },
        };
        match self.find_window(handle) {
            Some(at) => Ok(at),
            None => Err(EditorError::UnknownWindow(handle)),
        }
    }

    /// Finds the tabpage that a request means.
    ///
    /// # Errors
    ///
    /// [`EditorError::NoCurrentTabpage`] when the current tabpage is meant and
    /// there is none, [`EditorError::UnknownTabpage`] when it is not live.
    pub fn locate_tab(&self, tab: TabHandle) -> (at: Result<usize, EditorError>)
        requires
            self.wf(),
        ensures
            match self.tab_request(tab) {
                Ok(place) => at is Ok && at->Ok_0 == place && place < self.tabs@.len(),
                Err(error) => at is Err && at->Err_0 == error,
            },
    {
        let handle = match self.resolve_tabpage_handle(tab) {
            Ok(handle) => handle,
            Err(error) => {
                return Err(error);
            },
        };
        match self.find_tab(handle) {
            Some(at) => Ok(at),
            None => Err(EditorError::UnknownTabpage(handle)),
        }
    }
}

/// Tables whose references stay the same stay sound.
pub proof fn lemma_tables_kept(before: Editor, after: Editor)
    requires
        before.wf(),
        after.tabs == before.tabs,
        after.current_tab == before.current_tab,
        after.next_buffer == before.next_buffer,
        after.next_window == before.next_window,
        after.next_tabpage == before.next_tabpage,
        after.windows@.len() == before.windows@.len(),
        forall|i: int|
            0 <= i < after.windows@.len() ==> window_key(#[trigger] after.windows@[i])
                == window_key(before.windows@[i]) && after.windows@[i].area.text_height >= 1,
        after.buffers@.len() == before.buffers@.len(),
        forall|i: int|
            0 <= i < after.buffers@.len() ==> buffer_key(#[trigger] after.buffers@[i])
                == buffer_key(before.buffers@[i]) && after.buffers@[i].state.wf(),
        after.sink.wf(),
        after.decorations.wf(),
        channels_sound(after.terminals@),
        groups_sound(after.sign_groups@),
    ensures
        after.wf(),
        after.links() == before.links(),
{
    assert(window_keys(after.windows@) =~= window_keys(before.windows@)) by {
        assert forall|i: int| 0 <= i < after.windows@.len() implies window_key(
            after.windows@[i],
        ) == window_key(before.windows@[i]) by {
            let entry = after.windows@[i];
        }
    }
    assert(buffer_keys(after.buffers@) =~= buffer_keys(before.buffers@)) by {
        assert forall|i: int| 0 <= i < after.buffers@.len() implies buffer_key(
            after.buffers@[i],
        ) == buffer_key(before.buffers@[i]) by {
            let entry = after.buffers@[i];
        }
    }
    assert(after.numbered()) by {
        assert forall|i: int| 0 <= i < after.buffers@.len() implies 1 <= (
        #[trigger] after.buffers@[i]).handle.0 < after.next_buffer by {
            assert(buffer_key(after.buffers@[i]) == buffer_key(before.buffers@[i]));
            assert(1 <= before.buffers@[i].handle.0 < before.next_buffer);
        }
        assert forall|i: int| 0 <= i < after.windows@.len() implies LOWEST_WINDOW_ID <= (
        #[trigger] after.windows@[i]).handle.0 < after.next_window by {
            assert(window_key(after.windows@[i]) == window_key(before.windows@[i]));
            assert(LOWEST_WINDOW_ID <= before.windows@[i].handle.0 < before.next_window);
        }
    }
}

/// Handles are numbers in order, so there are fewer windows than numbers.
pub proof fn lemma_window_count(editor: Editor)
    requires
        editor.wf(),
    ensures
        editor.windows@.len() <= i32::MAX,
        forall|i: int|
            0 <= i < editor.buffers@.len() ==> (#[trigger] editor.buffers@[i]).state.attachments
                <= i32::MAX,
{
    lemma_spaced_windows(editor, editor.windows@.len() as int);
    let links = editor.links();
    links.lemma_parts();
    assert forall|i: int| 0 <= i < editor.buffers@.len() implies (
    #[trigger] editor.buffers@[i]).state.attachments <= i32::MAX by {
        assert(links.buffers[i] == buffer_key(editor.buffers@[i]));
        crate::links::lemma_showing_bounds(links.windows, links.buffers[i].handle);
    }
}

proof fn lemma_spaced_windows(editor: Editor, count: int)
    requires
        editor.wf(),
        0 <= count <= editor.windows@.len(),
    ensures
        count > 0 ==> LOWEST_WINDOW_ID + count - 1 <= editor.windows@[count - 1].handle.0,
        count <= i32::MAX,
    decreases count,
{
    if count > 0 {
        lemma_spaced_windows(editor, count - 1);
        let links = editor.links();
        links.lemma_parts();
        assert(links.windows[count - 1] == window_key(editor.windows@[count - 1]));
        assert(LOWEST_WINDOW_ID <= editor.windows@[count - 1].handle.0);
        if count > 1 {
            assert(links.windows[count - 2] == window_key(editor.windows@[count - 2]));
            assert(links.windows[count - 2].handle.0 < links.windows[count - 1].handle.0);
        }
    }
}

/// Gives out the next buffer handle.
pub fn allocate_buffer_handle(next: &mut i64) -> (handle: Result<BufHandle, EditorError>)
    ensures
        crate::types::is_handle_number(*old(next)) ==> handle == Ok::<_, EditorError>(
            BufHandle(*old(next) as i32),
        ) && *final(next) == *old(next) + 1,
        !crate::types::is_handle_number(*old(next)) ==> handle == Err::<BufHandle, _>(
            EditorError::HandleExhausted(HandleKind::Buffer),
        ) && *final(next) == *old(next),
{
    match BufHandle::try_from_number(*next) {
        Some(handle) => {
            *next = *next + 1;
            Ok(handle)
        },
        None => Err(EditorError::HandleExhausted(HandleKind::Buffer)),
    }
}

/// Gives out the next window handle.
pub fn allocate_window_handle(next: &mut i64) -> (handle: Result<WinHandle, EditorError>)
    ensures
        crate::types::is_handle_number(*old(next)) ==> handle == Ok::<_, EditorError>(
            WinHandle(*old(next) as i32),
        ) && *final(next) == *old(next) + 1,
        !crate::types::is_handle_number(*old(next)) ==> handle == Err::<WinHandle, _>(
            EditorError::HandleExhausted(HandleKind::Window),
        ) && *final(next) == *old(next),
{
    match WinHandle::try_from_number(*next) {
        Some(handle) => {
            *next = *next + 1;
            Ok(handle)
        },
        None => Err(EditorError::HandleExhausted(HandleKind::Window)),
    }
}

/// Gives out the next tabpage handle.
pub fn allocate_tab_handle(next: &mut i64) -> (handle: Result<TabHandle, EditorError>)
    ensures
        crate::types::is_handle_number(*old(next)) ==> handle == Ok::<_, EditorError>(
            TabHandle(*old(next) as i32),
        ) && *final(next) == *old(next) + 1,
        !crate::types::is_handle_number(*old(next)) ==> handle == Err::<TabHandle, _>(
            EditorError::HandleExhausted(HandleKind::Tabpage),
        ) && *final(next) == *old(next),
{
    match TabHandle::try_from_number(*next) {
        Some(handle) => {
            *next = *next + 1;
            Ok(handle)
        },
        None => Err(EditorError::HandleExhausted(HandleKind::Tabpage)),
    }
}

/// The bytes of a text.
pub open spec fn bytes_of(text: &str) -> Seq<u8> {
    vstd::utf8::encode_utf8(text@)
}

/// The `v:` variables that an editor starts with.
pub open spec fn initial_vvars(progpath: Seq<u8>) -> Seq<
    (Seq<u8>, crate::messages::ObjectView),
> {
    let none = crate::messages::ObjectView::String(bytes_of(""));
    let list = crate::messages::ObjectView::Array(Seq::empty());
    seq![
        (bytes_of("oldfiles"), list),
        (bytes_of("numbersize"), crate::messages::ObjectView::Integer(64)),
        (bytes_of("numbermax"), crate::messages::ObjectView::Integer(i64::MAX)),
        (bytes_of("numbermin"), crate::messages::ObjectView::Integer(i64::MIN)),
        (bytes_of("maxcol"), crate::messages::ObjectView::Integer(0x7FFF_FFFF)),
        (bytes_of("version"), crate::messages::ObjectView::Integer(801)),
        (bytes_of("versionlong"), crate::messages::ObjectView::Integer(8_012_424)),
        (bytes_of("errors"), list),
        (bytes_of("errmsg"), none),
        (bytes_of("exception"), none),
        (bytes_of("throwpoint"), none),
        (bytes_of("progpath"), crate::messages::ObjectView::String(progpath)),
        (bytes_of("_null_string"), none),
        (bytes_of("_null_list"), list),
        (bytes_of("_null_dict"), crate::messages::ObjectView::Dict(Seq::empty())),
        (bytes_of("register"), crate::messages::ObjectView::String(bytes_of("\""))),
    ]
}

/// An empty array.
fn empty_array() -> (value: Object)
    ensures
        value@ == crate::messages::ObjectView::Array(Seq::empty()),
{
    let value = Object::Array(Vec::new());
    assert(value@->Array_0 =~= Seq::empty());
    value
}

/// An empty dictionary.
fn empty_dict() -> (value: Object)
    ensures
        value@ == crate::messages::ObjectView::Dict(Seq::empty()),
{
    let value = Object::Dict(Vec::new());
    assert(value@->Dict_0 =~= Seq::empty());
    value
}

/// A string.
fn text_object(text: &str) -> (value: Object)
    ensures
        value@ == crate::messages::ObjectView::String(bytes_of(text)),
{
    Object::String(OxStr::from_text(text))
}

/// The `v:` variables that an editor starts with.
fn first_vvars(progpath: OxStr) -> (vvars: Vec<(OxStr, Object)>)
    ensures
        crate::dict::viewed(vvars@) == initial_vvars(progpath@),
{
    let ghost path = progpath@;
    let vvars = vec![
        (OxStr::from_text("oldfiles"), empty_array()),
        (OxStr::from_text("numbersize"), Object::Integer(64)),
        (OxStr::from_text("numbermax"), Object::Integer(i64::MAX)),
        (OxStr::from_text("numbermin"), Object::Integer(i64::MIN)),
        (OxStr::from_text("maxcol"), Object::Integer(0x7FFF_FFFF)),
        (OxStr::from_text("version"), Object::Integer(801)),
        (OxStr::from_text("versionlong"), Object::Integer(8_012_424)),
        (OxStr::from_text("errors"), empty_array()),
        (OxStr::from_text("errmsg"), text_object("")),
        (OxStr::from_text("exception"), text_object("")),
        (OxStr::from_text("throwpoint"), text_object("")),
        (OxStr::from_text("progpath"), Object::String(progpath)),
        (OxStr::from_text("_null_string"), text_object("")),
        (OxStr::from_text("_null_list"), empty_array()),
        (OxStr::from_text("_null_dict"), empty_dict()),
        (OxStr::from_text("register"), text_object("\"")),
    ];
    assert(crate::dict::viewed(vvars@) =~= initial_vvars(path));
    vvars
}

impl Editor {
    /// Creates an empty editor. Buffer and tabpage handles start at one; window
    /// handles start at the reserved window-id floor. `progpath` is the path of
    /// the running program, empty when it is unknown; the rest are the option
    /// values in effect at startup.
    #[must_use]
    pub fn new(
        progpath: OxStr,
        globals: GlobalOptions,
        window_defaults: WindowOptions,
        buffer_defaults: BufferOptions,
    ) -> (editor: Self)
        ensures
            editor.wf(),
            editor.buffers@ == Seq::<BufferEntry>::empty(),
            editor.windows@ == Seq::<WindowEntry>::empty(),
            editor.tabs@ == Seq::<TabEntry>::empty(),
            editor.current_tab is None,
            editor.previous_window is None,
            editor.next_buffer == 1,
            editor.next_window == LOWEST_WINDOW_ID,
            editor.next_tabpage == 1,
            editor.globals == globals,
            editor.window_defaults == window_defaults,
            editor.buffer_defaults == buffer_defaults,
            editor.previous_directory is None,
            editor.global_directory is None,
            editor.edit_mode == BufferEditMode::Normal,
            editor.active_text_edit is None,
            editor.sink@.entries.len() == 0,
            editor.sink@.pending is None,
            editor.sink@.replacements.len() == 0,
            !editor.message_routing.embedded,
            !editor.message_routing.silent,
            !editor.message_routing.ui_attached,
            crate::dict::viewed(editor.gvars@).len() == 0,
            editor.gvars_version == 1,
            crate::dict::viewed(editor.vvars@) == initial_vvars(progpath@),
            editor.vvars_version == 1,
            editor.ui_sends@.len() == 0,
            editor.redraws@.len() == 0,
            editor.history@.len() == 0,
            editor.released@.len() == 0,
            editor.diff.saved@.len() == 0,
            editor.diff.blocks@.len() == 0,
            editor.decorations@ == (crate::decoration::DecorationsView {
                providers: Seq::empty(),
                next_redraw: 0,
                redraw: None,
            }),
            editor.channel_ids.upcoming() == 3,
            editor.terminals@.len() == 0,
            !editor.beeped,
            editor.sign_groups@.len() == 0,
    {
        let editor = Editor {
            buffers: Vec::new(),
            windows: Vec::new(),
            tabs: Vec::new(),
            current_tab: None,
            previous_window: None,
            next_buffer: 1,
            next_window: LOWEST_WINDOW_ID,
            next_tabpage: 1,
            globals,
            window_defaults,
            buffer_defaults,
            previous_directory: None,
            global_directory: None,
            edit_mode: BufferEditMode::Normal,
            active_text_edit: None,
            sink: MessageSink::new(),
            message_routing: MessageRouting::default(),
            gvars: Vec::new(),
            gvars_version: 1,
            vvars: first_vvars(progpath),
            vvars_version: 1,
            ui_sends: Vec::new(),
            redraws: Vec::new(),
            history: Vec::new(),
            released: Vec::new(),
            diff: DiffState::default(),
            decorations: Decorations::new(),
            channel_ids: ChannelIds::new(),
            terminals: Vec::new(),
            beeped: false,
            sign_groups: Vec::new(),
        };
        proof {
            let links = editor.links();
            assert(links.windows.len() == 0 && links.buffers.len() == 0 && links.tabs.len() == 0);
            links.lemma_parts();
        }
        editor
    }
}

} // verus!
