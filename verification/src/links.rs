//! How buffers, windows and tabpages refer to each other.

use vstd::prelude::*;

use crate::types::{BufHandle, TabHandle, WinHandle};

verus! {

/// What ties a buffer to the windows that show it.
#[verifier::ext_equal]
pub struct BufferKey {
    pub handle: BufHandle,
    pub attachments: int,
    pub loaded: bool,
}

/// What ties a window to its buffer and its tabpage.
#[verifier::ext_equal]
pub struct WindowKey {
    pub handle: WinHandle,
    pub tab: TabHandle,
    pub floating: bool,
    pub buffer: BufHandle,
}

/// What ties a tabpage to its windows.
#[verifier::ext_equal]
pub struct TabKey {
    pub handle: TabHandle,
    pub tiled: Seq<WinHandle>,
    pub floats: Seq<WinHandle>,
    pub current: WinHandle,
}

impl TabKey {
    /// The tabpage's windows in display order: tiled ones, then floats.
    pub open spec fn windows(self) -> Seq<WinHandle> {
        self.tiled + self.floats
    }

    /// Whether the tabpage lists a window as what it is.
    pub open spec fn lists(self, window: WindowKey) -> bool {
        if window.floating {
            self.floats.contains(window.handle)
        } else {
            self.tiled.contains(window.handle)
        }
    }
}

/// The references between all tables.
#[verifier::ext_equal]
pub struct Links {
    pub buffers: Seq<BufferKey>,
    pub windows: Seq<WindowKey>,
    pub tabs: Seq<TabKey>,
    pub current_tab: Option<TabHandle>,
}

/// How many of `windows` show `buffer`.
pub open spec fn showing(windows: Seq<WindowKey>, buffer: BufHandle) -> int
    decreases windows.len(),
{
    if windows.len() == 0 {
        0
    } else {
        showing(windows.drop_last(), buffer) + if windows.last().buffer == buffer {
            1int
        } else {
            0int
        }
    }
}

impl Links {
    /// Whether `buffer` is live.
    pub open spec fn has_buffer(self, buffer: BufHandle) -> bool {
        exists|i: int| 0 <= i < self.buffers.len() && (#[trigger] self.buffers[i]).handle == buffer
    }

    /// Where the live `buffer` is.
    pub open spec fn buffer_at(self, buffer: BufHandle) -> int {
        choose|i: int| 0 <= i < self.buffers.len() && (#[trigger] self.buffers[i]).handle == buffer
    }

    /// Whether `window` is live.
    pub open spec fn has_window(self, window: WinHandle) -> bool {
        exists|i: int| 0 <= i < self.windows.len() && (#[trigger] self.windows[i]).handle == window
    }

    /// Where the live `window` is.
    pub open spec fn window_at(self, window: WinHandle) -> int {
        choose|i: int| 0 <= i < self.windows.len() && (#[trigger] self.windows[i]).handle == window
    }

    /// Whether `tab` is live.
    pub open spec fn has_tab(self, tab: TabHandle) -> bool {
        exists|i: int| 0 <= i < self.tabs.len() && (#[trigger] self.tabs[i]).handle == tab
    }

    /// Where the live `tab` is: its place in tab order.
    pub open spec fn tab_at(self, tab: TabHandle) -> int {
        choose|i: int| 0 <= i < self.tabs.len() && (#[trigger] self.tabs[i]).handle == tab
    }

    /// The current window: that of the current tabpage.
    pub open spec fn current_window(self) -> Option<WinHandle> {
        match self.current_tab {
            Some(tab) => Some(self.tabs[self.tab_at(tab)].current),
            None => None,
        }
    }

    /// The buffer that the current window shows.
    pub open spec fn current_buffer(self) -> Option<BufHandle> {
        match self.current_window() {
            Some(window) => Some(self.windows[self.window_at(window)].buffer),
            None => None,
        }
    }

    /// No two buffers, windows or tabpages share a handle; buffers and windows
    /// stand in the order of their handles.
    pub open spec fn ordered(self) -> bool {
        &&& forall|i: int, j: int|
            0 <= i < j < self.buffers.len() ==> (#[trigger] self.buffers[i]).handle.0 < (
            #[trigger] self.buffers[j]).handle.0
        &&& forall|i: int, j: int|
            0 <= i < j < self.windows.len() ==> (#[trigger] self.windows[i]).handle.0 < (
            #[trigger] self.windows[j]).handle.0
        &&& forall|i: int, j: int|
            0 <= i < j < self.tabs.len() ==> (#[trigger] self.tabs[i]).handle != (
            #[trigger] self.tabs[j]).handle
    }

    /// Every window shows a live buffer, and every buffer counts the windows
    /// that show it; a shown buffer is loaded.
    pub open spec fn counted(self) -> bool {
        &&& forall|i: int|
            0 <= i < self.windows.len() ==> self.has_buffer((#[trigger] self.windows[i]).buffer)
        &&& forall|i: int|
            0 <= i < self.buffers.len() ==> (#[trigger] self.buffers[i]).attachments == showing(
                self.windows,
                self.buffers[i].handle,
            )
        &&& forall|i: int|
            0 <= i < self.buffers.len() && (#[trigger] self.buffers[i]).attachments > 0
                ==> self.buffers[i].loaded
    }

    /// Every window is listed by its live tabpage.
    pub open spec fn owned(self) -> bool {
        forall|i: int|
            0 <= i < self.windows.len() ==> self.has_tab((#[trigger] self.windows[i]).tab)
                && self.tabs[self.tab_at(self.windows[i].tab)].lists(self.windows[i])
    }

    /// `window` is live, in `tab`, and floats or not as told.
    pub open spec fn is_window_of(self, window: WinHandle, tab: TabHandle, floating: bool) -> bool {
        &&& self.has_window(window)
        &&& self.windows[self.window_at(window)].tab == tab
        &&& self.windows[self.window_at(window)].floating == floating
    }

    /// Every tabpage lists live windows of its own, each once, at least one of
    /// them tiled, and its current window is among them.
    pub open spec fn stocked(self) -> bool {
        forall|t: int| 0 <= t < self.tabs.len() ==> self.stocked_at(#[trigger] self.tabs[t])
    }

    /// [`Links::stocked`] for one tabpage.
    pub open spec fn stocked_at(self, tab: TabKey) -> bool {
        &&& tab.tiled.len() > 0
        &&& tab.windows().no_duplicates()
        &&& tab.windows().contains(tab.current)
        &&& forall|i: int|
            0 <= i < tab.tiled.len() ==> self.is_window_of(
                #[trigger] tab.tiled[i],
                tab.handle,
                false,
            )
        &&& forall|i: int|
            0 <= i < tab.floats.len() ==> self.is_window_of(
                #[trigger] tab.floats[i],
                tab.handle,
                true,
            )
    }

    /// There is a current tabpage whenever there is a tabpage, and it is live.
    pub open spec fn focused(self) -> bool {
        match self.current_tab {
            Some(tab) => self.has_tab(tab),
            None => self.tabs.len() == 0,
        }
    }

    /// All references are sound: [`Links::ordered`], [`Links::counted`],
    /// [`Links::owned`], [`Links::stocked`] and [`Links::focused`].
    pub closed spec fn wf(self) -> bool {
        self.ordered() && self.counted() && self.owned() && self.stocked() && self.focused()
    }

    /// What soundness means.
    pub proof fn lemma_parts(self)
        ensures
            self.wf() == (self.ordered() && self.counted() && self.owned() && self.stocked()
                && self.focused()),
    {
    }
}

/// Counting windows is counting: none is negative or more than there are.
pub proof fn lemma_showing_bounds(windows: Seq<WindowKey>, buffer: BufHandle)
    ensures
        0 <= showing(windows, buffer) <= windows.len(),
        forall|i: int|
            0 <= i < windows.len() && (#[trigger] windows[i]).buffer == buffer ==> showing(
                windows,
                buffer,
            ) > 0,
    decreases windows.len(),
{
    if windows.len() > 0 {
        lemma_showing_bounds(windows.drop_last(), buffer);
        assert forall|i: int|
            0 <= i < windows.len() && (#[trigger] windows[i]).buffer == buffer implies showing(
            windows,
            buffer,
        ) > 0 by {
            if i < windows.len() - 1 {
                assert(windows.drop_last()[i].buffer == buffer);
            }
        }
    }
}

/// A count above zero is somebody's.
pub proof fn lemma_showing_witness(windows: Seq<WindowKey>, buffer: BufHandle)
    requires
        showing(windows, buffer) > 0,
    ensures
        exists|i: int| 0 <= i < windows.len() && (#[trigger] windows[i]).buffer == buffer,
    decreases windows.len(),
{
    if windows.last().buffer == buffer {
        assert(windows[windows.len() - 1].buffer == buffer);
    } else {
        lemma_showing_witness(windows.drop_last(), buffer);
        let i = choose|i: int|
            0 <= i < windows.drop_last().len() && (#[trigger] windows.drop_last()[i]).buffer
                == buffer;
        assert(windows[i].buffer == buffer);
    }
}

/// One more window counts for the buffer it shows.
pub proof fn lemma_showing_push(windows: Seq<WindowKey>, window: WindowKey, buffer: BufHandle)
    ensures
        showing(windows.push(window), buffer) == showing(windows, buffer) + (if window.buffer
            == buffer {
            1int
        } else {
            0int
        }),
{
    assert(windows.push(window).drop_last() =~= windows);
}

/// A window that changes its buffer moves one count.
pub proof fn lemma_showing_update(
    windows: Seq<WindowKey>,
    at: int,
    window: WindowKey,
    buffer: BufHandle,
)
    requires
        0 <= at < windows.len(),
    ensures
        showing(windows.update(at, window), buffer) == showing(windows, buffer) - (if windows[at].buffer
            == buffer {
            1int
        } else {
            0int
        }) + (if window.buffer == buffer {
            1int
        } else {
            0int
        }),
    decreases windows.len(),
{
    let after = windows.update(at, window);
    if at < windows.len() - 1 {
        lemma_showing_update(windows.drop_last(), at, window, buffer);
        assert(after.drop_last() =~= windows.drop_last().update(at, window));
    } else {
        assert(after.drop_last() =~= windows.drop_last());
    }
}

/// One window less counts less for the buffer it showed.
pub proof fn lemma_showing_remove(windows: Seq<WindowKey>, at: int, buffer: BufHandle)
    requires
        0 <= at < windows.len(),
    ensures
        showing(windows.remove(at), buffer) == showing(windows, buffer) - (if windows[at].buffer
            == buffer {
            1int
        } else {
            0int
        }),
    decreases windows.len(),
{
    let after = windows.remove(at);
    if at < windows.len() - 1 {
        lemma_showing_remove(windows.drop_last(), at, buffer);
        assert(after.drop_last() =~= windows.drop_last().remove(at));
        assert(after.last() == windows.last());
    } else {
        assert(after =~= windows.drop_last());
    }
}

impl Links {
    /// A handle is found where it stands.
    pub proof fn lemma_window_at(self, at: int)
        requires
            self.ordered(),
            0 <= at < self.windows.len(),
        ensures
            self.has_window(self.windows[at].handle),
            self.window_at(self.windows[at].handle) == at,
    {
        let found = self.window_at(self.windows[at].handle);
        assert(self.windows[found].handle == self.windows[at].handle);
        if found < at {
            assert(self.windows[found].handle.0 < self.windows[at].handle.0);
        } else if at < found {
            assert(self.windows[at].handle.0 < self.windows[found].handle.0);
        }
    }

    /// A handle is found where it stands.
    pub proof fn lemma_buffer_at(self, at: int)
        requires
            self.ordered(),
            0 <= at < self.buffers.len(),
        ensures
            self.has_buffer(self.buffers[at].handle),
            self.buffer_at(self.buffers[at].handle) == at,
    {
        let found = self.buffer_at(self.buffers[at].handle);
        assert(self.buffers[found].handle == self.buffers[at].handle);
        if found < at {
            assert(self.buffers[found].handle.0 < self.buffers[at].handle.0);
        } else if at < found {
            assert(self.buffers[at].handle.0 < self.buffers[found].handle.0);
        }
    }

    /// A handle is found where it stands.
    pub proof fn lemma_tab_at(self, at: int)
        requires
            self.ordered(),
            0 <= at < self.tabs.len(),
        ensures
            self.has_tab(self.tabs[at].handle),
            self.tab_at(self.tabs[at].handle) == at,
    {
        let found = self.tab_at(self.tabs[at].handle);
        assert(self.tabs[found].handle == self.tabs[at].handle);
        if found < at {
            assert(self.tabs[found].handle != self.tabs[at].handle);
        } else if at < found {
            assert(self.tabs[at].handle != self.tabs[found].handle);
        }
    }

    /// The current window is live and in the current tabpage.
    pub proof fn lemma_current_window(self)
        requires
            self.wf(),
            self.current_tab is Some,
        ensures
            self.current_window() is Some,
            self.has_window(self.current_window()->0),
            self.windows[self.window_at(self.current_window()->0)].tab == self.current_tab->0,
    {
        let tab = self.tabs[self.tab_at(self.current_tab->0)];
        assert(self.stocked_at(tab));
        self.lemma_listed_window(self.tab_at(self.current_tab->0), tab.current);
    }

    /// Every window that a tabpage lists is live and its own.
    pub proof fn lemma_listed_window(self, t: int, window: WinHandle)
        requires
            self.stocked(),
            0 <= t < self.tabs.len(),
            self.tabs[t].windows().contains(window),
        ensures
            self.has_window(window),
            self.windows[self.window_at(window)].tab == self.tabs[t].handle,
            self.windows[self.window_at(window)].floating == self.tabs[t].floats.contains(window),
            self.windows[self.window_at(window)].floating == !self.tabs[t].tiled.contains(window),
    {
        let tab = self.tabs[t];
        assert(self.stocked_at(tab));
        let i = tab.windows().index_of(window);
        assert(tab.windows()[i] == window);
        if i < tab.tiled.len() {
            assert(tab.tiled[i] == window);
            assert(self.is_window_of(tab.tiled[i], tab.handle, false));
            if tab.floats.contains(window) {
                let j = tab.floats.index_of(window);
                assert(tab.windows()[tab.tiled.len() + j] == window);
                assert(false);
            }
        } else {
            let j = i - tab.tiled.len();
            assert(tab.floats[j] == window);
            assert(self.is_window_of(tab.floats[j], tab.handle, true));
            if tab.tiled.contains(window) {
                let k = tab.tiled.index_of(window);
                assert(tab.windows()[k] == window);
                assert(false);
            }
        }
    }
}

/// One count more or less.
pub open spec fn recounted(key: BufferKey, attachments: int, loaded: bool) -> BufferKey {
    BufferKey { handle: key.handle, attachments, loaded }
}

impl Links {
    /// Some tabpage lists the window as its own.
    pub open spec fn has_owner(self, window: WindowKey) -> bool {
        exists|t: int|
            0 <= t < self.tabs.len() && (#[trigger] self.tabs[t]).handle == window.tab
                && self.tabs[t].lists(window)
    }

    /// Every window is owned by the tabpage that lists it.
    pub proof fn lemma_owned_intro(self)
        requires
            self.ordered(),
            forall|i: int|
                0 <= i < self.windows.len() ==> self.has_owner(#[trigger] self.windows[i]),
        ensures
            self.owned(),
    {
        assert forall|i: int| 0 <= i < self.windows.len() implies self.has_tab(
            (#[trigger] self.windows[i]).tab,
        ) && self.tabs[self.tab_at(self.windows[i].tab)].lists(self.windows[i]) by {
            assert(self.has_owner(self.windows[i]));
            let t = choose|t: int|
                0 <= t < self.tabs.len() && (#[trigger] self.tabs[t]).handle == self.windows[i].tab
                    && self.tabs[t].lists(self.windows[i]);
            self.lemma_tab_at(t);
        }
    }

    /// A tabpage stays stocked while its windows stay.
    pub proof fn lemma_stays_stocked(self, after: Links, tab: TabKey)
        requires
            self.stocked_at(tab),
            after.ordered(),
            forall|i: int|
                0 <= i < self.windows.len() && (#[trigger] self.windows[i]).tab == tab.handle
                    ==> exists|j: int|
                    0 <= j < after.windows.len() && (#[trigger] after.windows[j]).handle
                        == self.windows[i].handle && after.windows[j].tab == tab.handle
                        && after.windows[j].floating == self.windows[i].floating,
        ensures
            after.stocked_at(tab),
    {
        assert forall|i: int| 0 <= i < tab.tiled.len() implies after.is_window_of(
            #[trigger] tab.tiled[i],
            tab.handle,
            false,
        ) by {
            assert(self.is_window_of(tab.tiled[i], tab.handle, false));
            let at = self.window_at(tab.tiled[i]);
            assert(self.windows[at].tab == tab.handle);
            let j = choose|j: int|
                0 <= j < after.windows.len() && (#[trigger] after.windows[j]).handle
                    == self.windows[at].handle && after.windows[j].tab == tab.handle
                    && after.windows[j].floating == self.windows[at].floating;
            after.lemma_window_at(j);
        }
        assert forall|i: int| 0 <= i < tab.floats.len() implies after.is_window_of(
            #[trigger] tab.floats[i],
            tab.handle,
            true,
        ) by {
            assert(self.is_window_of(tab.floats[i], tab.handle, true));
            let at = self.window_at(tab.floats[i]);
            assert(self.windows[at].tab == tab.handle);
            let j = choose|j: int|
                0 <= j < after.windows.len() && (#[trigger] after.windows[j]).handle
                    == self.windows[at].handle && after.windows[j].tab == tab.handle
                    && after.windows[j].floating == self.windows[at].floating;
            after.lemma_window_at(j);
        }
    }

    /// A window of a tabpage is listed by it.
    pub proof fn lemma_own_window(self, at: int, t: int)
        requires
            self.ordered(),
            self.owned(),
            0 <= at < self.windows.len(),
            0 <= t < self.tabs.len(),
            self.windows[at].tab == self.tabs[t].handle,
        ensures
            self.tabs[t].lists(self.windows[at]),
            self.tabs[t].windows().contains(self.windows[at].handle),
    {
        self.lemma_tab_at(t);
        assert(self.tabs[t].lists(self.windows[at]));
        let tab = self.tabs[t];
        let window = self.windows[at].handle;
        if self.windows[at].floating {
            let i = tab.floats.index_of(window);
            assert(tab.windows()[tab.tiled.len() + i] == window);
        } else {
            let i = tab.tiled.index_of(window);
            assert(tab.windows()[i] == window);
        }
    }

    /// A new buffer that no window shows keeps the references sound.
    pub proof fn lemma_new_buffer(self, key: BufferKey)
        requires
            self.wf(),
            key.attachments == 0,
            forall|i: int|
                0 <= i < self.buffers.len() ==> (#[trigger] self.buffers[i]).handle.0
                    < key.handle.0,
        ensures
            (Links { buffers: self.buffers.push(key), ..self }).wf(),
    {
        let after = Links { buffers: self.buffers.push(key), ..self };
        assert forall|i: int| 0 <= i < after.windows.len() implies after.has_buffer(
            (#[trigger] after.windows[i]).buffer,
        ) by {
            assert(self.has_buffer(self.windows[i].buffer));
            let b = self.buffer_at(self.windows[i].buffer);
            assert(after.buffers[b].handle == self.windows[i].buffer);
        }
        if showing(self.windows, key.handle) > 0 {
            lemma_showing_witness(self.windows, key.handle);
            let i = choose|i: int|
                0 <= i < self.windows.len() && (#[trigger] self.windows[i]).buffer == key.handle;
            assert(self.has_buffer(self.windows[i].buffer));
            let b = self.buffer_at(key.handle);
            assert(self.buffers[b].handle.0 < key.handle.0);
            assert(false);
        }
        lemma_showing_bounds(self.windows, key.handle);
        assert(after.counted());
        self.lemma_same_tabs(after);
    }

    /// Ownership looks at windows and tabpages alone.
    pub proof fn lemma_same_owner(self, before: Links)
        requires
            before.owned(),
            self.windows == before.windows,
            self.tabs == before.tabs,
            self.ordered(),
        ensures
            self.owned(),
    {
        assert forall|i: int| 0 <= i < self.windows.len() implies self.has_owner(
            #[trigger] self.windows[i],
        ) by {
            let t = before.tab_at(before.windows[i].tab);
            assert(before.has_tab(before.windows[i].tab));
            assert(self.tabs[t].handle == self.windows[i].tab);
        }
        self.lemma_owned_intro();
    }

    /// What tabpages list looks at windows and tabpages alone.
    pub proof fn lemma_same_tabs(self, after: Links)
        requires
            self.wf(),
            after.windows == self.windows,
            after.tabs == self.tabs,
            after.current_tab == self.current_tab,
            after.ordered(),
        ensures
            after.owned(),
            after.stocked(),
            after.focused(),
    {
        assert forall|t: int| 0 <= t < after.tabs.len() implies after.stocked_at(
            #[trigger] after.tabs[t],
        ) by {
            assert(self.stocked_at(self.tabs[t]));
            self.lemma_windows_stay(after, self.tabs[t].handle);
            self.lemma_stays_stocked(after, self.tabs[t]);
        }
        after.lemma_same_owner(self);
        self.lemma_same_focus(after);
    }

    /// Removing a buffer that no window shows keeps the references sound.
    pub proof fn lemma_drop_buffer(self, at: int)
        requires
            self.wf(),
            0 <= at < self.buffers.len(),
            self.buffers[at].attachments == 0,
        ensures
            (Links { buffers: self.buffers.remove(at), ..self }).wf(),
    {
        let after = Links { buffers: self.buffers.remove(at), ..self };
        let gone = self.buffers[at].handle;
        lemma_showing_bounds(self.windows, gone);
        assert forall|i: int| 0 <= i < after.windows.len() implies after.has_buffer(
            (#[trigger] after.windows[i]).buffer,
        ) by {
            assert(self.has_buffer(self.windows[i].buffer));
            let b = self.buffer_at(self.windows[i].buffer);
            assert(b != at);
            let moved = if b < at {
                b
            } else {
                b - 1
            };
            assert(after.buffers[moved].handle == self.windows[i].buffer);
        }
        assert(after.counted());
        self.lemma_same_tabs(after);
    }

    /// Loading a buffer, or unloading one that no window shows, keeps the
    /// references sound.
    pub proof fn lemma_reload_buffer(self, at: int, loaded: bool)
        requires
            self.wf(),
            0 <= at < self.buffers.len(),
            loaded || self.buffers[at].attachments == 0,
        ensures
            (Links {
                buffers: self.buffers.update(
                    at,
                    recounted(self.buffers[at], self.buffers[at].attachments, loaded),
                ),
                ..self
            }).wf(),
    {
        let after = Links {
            buffers: self.buffers.update(
                at,
                recounted(self.buffers[at], self.buffers[at].attachments, loaded),
            ),
            ..self
        };
        after.lemma_same_buffers(self);
        assert(after.counted());
        self.lemma_same_tabs(after);
    }

    /// Liveness of buffers looks at their handles alone.
    pub proof fn lemma_same_buffers(self, before: Links)
        requires
            self.buffers.len() == before.buffers.len(),
            forall|i: int|
                0 <= i < self.buffers.len() ==> (#[trigger] self.buffers[i]).handle
                    == before.buffers[i].handle,
        ensures
            forall|buffer: BufHandle| #[trigger]
                before.has_buffer(buffer) ==> self.has_buffer(buffer),
    {
        assert forall|buffer: BufHandle| #[trigger] before.has_buffer(buffer) implies self.has_buffer(
            buffer,
        ) by {
            let b = before.buffer_at(buffer);
            assert(self.buffers[b].handle == buffer);
        }
    }

    /// A new window is counted by the loaded buffer it shows.
    pub proof fn lemma_counted_push(self, window: WindowKey, b: int)
        requires
            self.ordered(),
            self.counted(),
            0 <= b < self.buffers.len(),
            window.buffer == self.buffers[b].handle,
            self.buffers[b].loaded,
        ensures
            (Links {
                buffers: self.buffers.update(
                    b,
                    recounted(self.buffers[b], self.buffers[b].attachments + 1, true),
                ),
                windows: self.windows.push(window),
                ..self
            }).counted(),
    {
        let after = Links {
            buffers: self.buffers.update(
                b,
                recounted(self.buffers[b], self.buffers[b].attachments + 1, true),
            ),
            windows: self.windows.push(window),
            ..self
        };
        after.lemma_same_buffers(self);
        self.lemma_buffer_at(b);
        assert forall|i: int| 0 <= i < after.windows.len() implies after.has_buffer(
            (#[trigger] after.windows[i]).buffer,
        ) by {
            if i < self.windows.len() {
                assert(self.has_buffer(self.windows[i].buffer));
            } else {
                assert(self.has_buffer(window.buffer));
            }
        }
        assert forall|i: int| 0 <= i < after.buffers.len() implies (
        #[trigger] after.buffers[i]).attachments == showing(after.windows, after.buffers[i].handle) by {
            lemma_showing_push(self.windows, window, self.buffers[i].handle);
            assert(self.buffers[i].attachments == showing(self.windows, self.buffers[i].handle));
        }
    }

    /// A window that goes is no longer counted.
    pub proof fn lemma_counted_remove(self, at: int, b: int, loaded: bool)
        requires
            self.ordered(),
            self.counted(),
            0 <= at < self.windows.len(),
            0 <= b < self.buffers.len(),
            self.windows[at].buffer == self.buffers[b].handle,
            loaded || self.buffers[b].attachments == 1,
        ensures
            self.buffers[b].attachments > 0,
            (Links {
                buffers: self.buffers.update(
                    b,
                    recounted(self.buffers[b], self.buffers[b].attachments - 1, loaded),
                ),
                windows: self.windows.remove(at),
                ..self
            }).counted(),
    {
        let after = Links {
            buffers: self.buffers.update(
                b,
                recounted(self.buffers[b], self.buffers[b].attachments - 1, loaded),
            ),
            windows: self.windows.remove(at),
            ..self
        };
        lemma_showing_bounds(self.windows, self.buffers[b].handle);
        after.lemma_same_buffers(self);
        assert forall|i: int| 0 <= i < after.windows.len() implies after.has_buffer(
            (#[trigger] after.windows[i]).buffer,
        ) by {
            let from = if i < at {
                i
            } else {
                i + 1
            };
            assert(after.windows[i] == self.windows[from]);
            assert(self.has_buffer(self.windows[from].buffer));
        }
        assert forall|i: int| 0 <= i < after.buffers.len() implies (
        #[trigger] after.buffers[i]).attachments == showing(after.windows, after.buffers[i].handle) by {
            lemma_showing_remove(self.windows, at, self.buffers[i].handle);
            assert(self.buffers[i].attachments == showing(self.windows, self.buffers[i].handle));
            if i != b {
                self.lemma_buffer_at(i);
                self.lemma_buffer_at(b);
            }
        }
    }

    /// A window that shows another, loaded buffer moves one count.
    pub proof fn lemma_counted_move(self, at: int, from: int, to: int, keep: bool)
        requires
            self.ordered(),
            self.counted(),
            0 <= at < self.windows.len(),
            0 <= from < self.buffers.len(),
            0 <= to < self.buffers.len(),
            from != to,
            self.windows[at].buffer == self.buffers[from].handle,
            keep || self.buffers[from].attachments == 1,
        ensures
            self.buffers[from].attachments > 0,
            (Links {
                buffers: self.buffers.update(
                    to,
                    recounted(self.buffers[to], self.buffers[to].attachments + 1, true),
                ).update(
                    from,
                    recounted(self.buffers[from], self.buffers[from].attachments - 1, keep),
                ),
                windows: self.windows.update(
                    at,
                    WindowKey { buffer: self.buffers[to].handle, ..self.windows[at] },
                ),
                ..self
            }).counted(),
    {
        let shown = WindowKey { buffer: self.buffers[to].handle, ..self.windows[at] };
        let after = Links {
            buffers: self.buffers.update(
                to,
                recounted(self.buffers[to], self.buffers[to].attachments + 1, true),
            ).update(
                from,
                recounted(self.buffers[from], self.buffers[from].attachments - 1, keep),
            ),
            windows: self.windows.update(at, shown),
            ..self
        };
        lemma_showing_bounds(self.windows, self.buffers[from].handle);
        after.lemma_same_buffers(self);
        self.lemma_buffer_at(to);
        assert forall|i: int| 0 <= i < after.windows.len() implies after.has_buffer(
            (#[trigger] after.windows[i]).buffer,
        ) by {
            if i != at {
                assert(after.windows[i] == self.windows[i]);
            }
            assert(self.has_buffer(self.windows[i].buffer));
            assert(self.has_buffer(shown.buffer));
        }
        assert forall|i: int| 0 <= i < after.buffers.len() implies (
        #[trigger] after.buffers[i]).attachments == showing(after.windows, after.buffers[i].handle) by {
            lemma_showing_update(self.windows, at, shown, self.buffers[i].handle);
            assert(self.buffers[i].attachments == showing(self.windows, self.buffers[i].handle));
            self.lemma_buffer_at(i);
            self.lemma_buffer_at(from);
            self.lemma_buffer_at(to);
        }
    }
}

impl Links {
    /// A tabpage with a handle of its own may be put in anywhere.
    proof fn lemma_ordered_insert(self, index: int, added: TabKey)
        requires
            self.ordered(),
            0 <= index <= self.tabs.len(),
            !self.has_tab(added.handle),
        ensures
            forall|i: int, j: int|
                0 <= i < j < self.tabs.len() + 1 ==> (#[trigger] self.tabs.insert(
                    index,
                    added,
                )[i]).handle != (#[trigger] self.tabs.insert(index, added)[j]).handle,
    {
        let tabs = self.tabs.insert(index, added);
        assert forall|i: int, j: int| 0 <= i < j < self.tabs.len() + 1 implies (
        #[trigger] tabs[i]).handle != (#[trigger] tabs[j]).handle by {
            let from_i = if i < index {
                i
            } else {
                i - 1
            };
            let from_j = if j < index {
                j
            } else {
                j - 1
            };
            if i == index {
                assert(self.tabs[from_j].handle != added.handle);
            } else if j == index {
                assert(self.tabs[from_i].handle != added.handle);
            } else {
                assert(tabs[i] == self.tabs[from_i]);
                assert(tabs[j] == self.tabs[from_j]);
            }
        }
    }

    /// A tabpage with one window, entered right away, keeps the references
    /// sound.
    #[verifier::spinoff_prover]
    #[verifier::rlimit(40)]
    pub proof fn lemma_new_tab(self, after: Links, index: int, window: WindowKey, b: int)
        requires
            self.wf(),
            0 <= index <= self.tabs.len(),
            0 <= b < self.buffers.len(),
            self.buffers[b].loaded,
            window.buffer == self.buffers[b].handle,
            !window.floating,
            forall|i: int|
                0 <= i < self.windows.len() ==> (#[trigger] self.windows[i]).handle.0
                    < window.handle.0,
            !self.has_tab(window.tab),
            after == (Links {
                buffers: self.buffers.update(
                    b,
                    recounted(self.buffers[b], self.buffers[b].attachments + 1, true),
                ),
                windows: self.windows.push(window),
                tabs: self.tabs.insert(
                    index,
                    TabKey {
                        handle: window.tab,
                        tiled: seq![window.handle],
                        floats: Seq::empty(),
                        current: window.handle,
                    },
                ),
                current_tab: Some(window.tab),
            }),
        ensures
            after.wf(),
            after.current_window() == Some(window.handle),
    {
        let added = after.tabs[index];
        assert(after.ordered()) by {
            self.lemma_ordered_insert(index, added);
            assert forall|i: int, j: int| 0 <= i < j < after.tabs.len() implies (
            #[trigger] after.tabs[i]).handle != (#[trigger] after.tabs[j]).handle by {}
        }
        assert(after.counted()) by {
            self.lemma_counted_push(window, b);
            after.lemma_same_count(
                Links { buffers: after.buffers, windows: after.windows, ..self },
            );
        }
        after.lemma_window_at(self.windows.len() as int);
        after.lemma_tab_at(index);
        assert(added.windows() =~= seq![window.handle]);
        assert(added.windows()[0] == window.handle);
        assert(after.stocked_at(added));
        assert forall|t: int| 0 <= t < after.tabs.len() implies after.stocked_at(
            #[trigger] after.tabs[t],
        ) by {
            if t != index {
                let from = if t < index {
                    t
                } else {
                    t - 1
                };
                assert(after.tabs[t] == self.tabs[from]);
                assert(self.stocked_at(self.tabs[from]));
                self.lemma_windows_stay(after, self.tabs[from].handle);
                self.lemma_stays_stocked(after, self.tabs[from]);
            }
        }
        assert forall|i: int| 0 <= i < after.windows.len() implies after.has_owner(
            #[trigger] after.windows[i],
        ) by {
            if i < self.windows.len() {
                assert(after.windows[i] == self.windows[i]);
                let t = self.tab_at(self.windows[i].tab);
                assert(self.has_tab(self.windows[i].tab));
                let moved = if t < index {
                    t
                } else {
                    t + 1
                };
                assert(after.tabs[moved] == self.tabs[t]);
            } else {
                assert(added.tiled[0] == window.handle);
                assert(after.tabs[index].lists(window));
            }
        }
        after.lemma_owned_intro();
    }

    /// Counting looks at buffers and windows alone.
    pub proof fn lemma_same_count(self, before: Links)
        requires
            before.counted(),
            self.buffers == before.buffers,
            self.windows == before.windows,
        ensures
            self.counted(),
    {
        self.lemma_same_buffers(before);
        assert forall|i: int| 0 <= i < self.windows.len() implies self.has_buffer(
            (#[trigger] self.windows[i]).buffer,
        ) by {
            assert(before.has_buffer(before.windows[i].buffer));
        }
    }

    /// Windows of a tabpage that stand in front of a new one stay.
    pub proof fn lemma_windows_stay(self, after: Links, tab: TabHandle)
        requires
            self.windows.len() <= after.windows.len(),
            forall|i: int|
                0 <= i < self.windows.len() ==> (#[trigger] after.windows[i]).handle
                    == self.windows[i].handle && after.windows[i].tab == self.windows[i].tab
                    && after.windows[i].floating == self.windows[i].floating,
        ensures
            forall|i: int|
                0 <= i < self.windows.len() && (#[trigger] self.windows[i]).tab == tab
                    ==> exists|j: int|
                    0 <= j < after.windows.len() && (#[trigger] after.windows[j]).handle
                        == self.windows[i].handle && after.windows[j].tab == tab
                        && after.windows[j].floating == self.windows[i].floating,
    {
        assert forall|i: int|
            0 <= i < self.windows.len() && (#[trigger] self.windows[i]).tab == tab implies exists|
            j: int,
        |
            0 <= j < after.windows.len() && (#[trigger] after.windows[j]).handle
                == self.windows[i].handle && after.windows[j].tab == tab
                && after.windows[j].floating == self.windows[i].floating by {
            assert(after.windows[i].handle == self.windows[i].handle);
        }
    }

    /// A window that its tabpage newly lists keeps the references sound.
    pub proof fn lemma_new_window(
        self,
        after: Links,
        t: int,
        tab: TabKey,
        window: WindowKey,
        b: int,
    )
        requires
            self.wf(),
            0 <= t < self.tabs.len(),
            0 <= b < self.buffers.len(),
            self.buffers[b].loaded,
            window.buffer == self.buffers[b].handle,
            window.tab == self.tabs[t].handle,
            forall|i: int|
                0 <= i < self.windows.len() ==> (#[trigger] self.windows[i]).handle.0
                    < window.handle.0,
            tab.handle == self.tabs[t].handle,
            tab.lists(window),
            tab.windows().no_duplicates(),
            tab.current == window.handle || tab.current == self.tabs[t].current,
            forall|w: WinHandle| #[trigger]
                tab.tiled.contains(w) <==> self.tabs[t].tiled.contains(w) || (w == window.handle
                    && !window.floating),
            forall|w: WinHandle| #[trigger]
                tab.floats.contains(w) <==> self.tabs[t].floats.contains(w) || (w == window.handle
                    && window.floating),
            after == (Links {
                buffers: self.buffers.update(
                    b,
                    recounted(self.buffers[b], self.buffers[b].attachments + 1, true),
                ),
                windows: self.windows.push(window),
                tabs: self.tabs.update(t, tab),
                ..self
            }),
        ensures
            after.wf(),
    {
        let last = self.windows.len() as int;
        let before = self.tabs[t];
        assert(self.stocked_at(before));
        assert(after.ordered());
        assert(after.counted()) by {
            self.lemma_counted_push(window, b);
            after.lemma_same_count(
                Links { buffers: after.buffers, windows: after.windows, ..self },
            );
        }
        after.lemma_window_at(last);
        assert(before.tiled.contains(before.tiled[0]));
        assert(tab.tiled.contains(before.tiled[0]));
        assert forall|w: WinHandle| tab.tiled.contains(w) implies after.is_window_of(
            w,
            tab.handle,
            false,
        ) by {
            if w == window.handle && !window.floating {
                assert(after.windows[last].handle == w);
            } else {
                let i = before.tiled.index_of(w);
                assert(before.tiled[i] == w);
                assert(self.is_window_of(before.tiled[i], before.handle, false));
                let at = self.window_at(w);
                assert(after.windows[at] == self.windows[at]);
                after.lemma_window_at(at);
            }
        }
        assert forall|w: WinHandle| tab.floats.contains(w) implies after.is_window_of(
            w,
            tab.handle,
            true,
        ) by {
            if w == window.handle && window.floating {
                assert(after.windows[last].handle == w);
            } else {
                let i = before.floats.index_of(w);
                assert(before.floats[i] == w);
                assert(self.is_window_of(before.floats[i], before.handle, true));
                let at = self.window_at(w);
                assert(after.windows[at] == self.windows[at]);
                after.lemma_window_at(at);
            }
        }
        assert(tab.windows().contains(tab.current)) by {
            if tab.current == window.handle {
                lemma_lists_window(tab, window.handle);
            } else {
                lemma_listed(before, tab.current);
                lemma_lists_window(tab, tab.current);
            }
        }
        assert forall|i: int| 0 <= i < tab.tiled.len() implies after.is_window_of(
            #[trigger] tab.tiled[i],
            tab.handle,
            false,
        ) by {
            assert(tab.tiled.contains(tab.tiled[i]));
        }
        assert forall|i: int| 0 <= i < tab.floats.len() implies after.is_window_of(
            #[trigger] tab.floats[i],
            tab.handle,
            true,
        ) by {
            assert(tab.floats.contains(tab.floats[i]));
        }
        assert(after.stocked_at(tab));
        assert forall|k: int| 0 <= k < after.tabs.len() implies after.stocked_at(
            #[trigger] after.tabs[k],
        ) by {
            if k != t {
                assert(after.tabs[k] == self.tabs[k]);
                assert(self.stocked_at(self.tabs[k]));
                self.lemma_windows_stay(after, self.tabs[k].handle);
                self.lemma_stays_stocked(after, self.tabs[k]);
            }
        }
        assert forall|i: int| 0 <= i < after.windows.len() implies after.has_owner(
            #[trigger] after.windows[i],
        ) by {
            assert(after.tabs[t] == tab);
            if i < self.windows.len() {
                assert(after.windows[i] == self.windows[i]);
                let k = self.tab_at(self.windows[i].tab);
                assert(self.has_tab(self.windows[i].tab));
                assert(self.tabs[k].lists(self.windows[i]));
                if k != t {
                    assert(after.tabs[k] == self.tabs[k]);
                } else {
                    assert(after.tabs[t].lists(after.windows[i]));
                }
            } else {
                assert(after.tabs[t].lists(window));
            }
        }
        after.lemma_owned_intro();
        self.lemma_same_focus(after);
    }

    /// The current tabpage stays live while tabpages keep their places.
    pub proof fn lemma_same_focus(self, after: Links)
        requires
            self.focused(),
            after.current_tab == self.current_tab,
            after.tabs.len() == self.tabs.len(),
            forall|t: int|
                0 <= t < self.tabs.len() ==> (#[trigger] after.tabs[t]).handle
                    == self.tabs[t].handle,
        ensures
            after.focused(),
    {
        if let Some(tab) = self.current_tab {
            let t = self.tab_at(tab);
            assert(after.tabs[t].handle == tab);
        }
    }
}

/// Every listed window is among the tabpage's windows.
pub proof fn lemma_lists_window(tab: TabKey, window: WinHandle)
    requires
        tab.tiled.contains(window) || tab.floats.contains(window),
    ensures
        tab.windows().contains(window),
{
    if tab.tiled.contains(window) {
        let i = tab.tiled.index_of(window);
        assert(tab.windows()[i] == window);
    } else {
        let i = tab.floats.index_of(window);
        assert(tab.windows()[tab.tiled.len() + i] == window);
    }
}

/// Every window of the tabpage is listed.
pub proof fn lemma_listed(tab: TabKey, window: WinHandle)
    requires
        tab.windows().contains(window),
    ensures
        tab.tiled.contains(window) || tab.floats.contains(window),
{
    let i = tab.windows().index_of(window);
    assert(tab.windows()[i] == window);
    if i < tab.tiled.len() {
        assert(tab.tiled[i] == window);
    } else {
        assert(tab.floats[i - tab.tiled.len()] == window);
    }
}

impl Links {
    /// A window that its tabpage no longer lists may go.
    #[verifier::spinoff_prover]
    #[verifier::rlimit(40)]
    pub proof fn lemma_drop_window(
        self,
        after: Links,
        at: int,
        t: int,
        tab: TabKey,
        b: int,
        loaded: bool,
    )
        requires
            self.wf(),
            0 <= at < self.windows.len(),
            0 <= t < self.tabs.len(),
            0 <= b < self.buffers.len(),
            self.windows[at].tab == self.tabs[t].handle,
            self.windows[at].buffer == self.buffers[b].handle,
            loaded || self.buffers[b].attachments == 1,
            tab.handle == self.tabs[t].handle,
            tab.tiled.len() > 0,
            tab.windows().no_duplicates(),
            tab.windows().contains(tab.current),
            forall|w: WinHandle| #[trigger]
                tab.tiled.contains(w) <==> self.tabs[t].tiled.contains(w) && w
                    != self.windows[at].handle,
            forall|w: WinHandle| #[trigger]
                tab.floats.contains(w) <==> self.tabs[t].floats.contains(w) && w
                    != self.windows[at].handle,
            after == (Links {
                buffers: self.buffers.update(
                    b,
                    recounted(self.buffers[b], self.buffers[b].attachments - 1, loaded),
                ),
                windows: self.windows.remove(at),
                tabs: self.tabs.update(t, tab),
                ..self
            }),
        ensures
            after.wf(),
    {
        let before = self.tabs[t];
        let gone = self.windows[at].handle;
        assert(self.stocked_at(before));
        assert(after.ordered());
        assert(after.counted()) by {
            self.lemma_counted_remove(at, b, loaded);
            after.lemma_same_count(
                Links { buffers: after.buffers, windows: after.windows, ..self },
            );
        }
        assert forall|i: int| 0 <= i < tab.tiled.len() implies after.is_window_of(
            #[trigger] tab.tiled[i],
            tab.handle,
            false,
        ) by {
            let w = tab.tiled[i];
            assert(tab.tiled.contains(w));
            let k = before.tiled.index_of(w);
            assert(before.tiled[k] == w);
            assert(self.is_window_of(before.tiled[k], before.handle, false));
            self.lemma_survivor(after, at, w);
        }
        assert forall|i: int| 0 <= i < tab.floats.len() implies after.is_window_of(
            #[trigger] tab.floats[i],
            tab.handle,
            true,
        ) by {
            let w = tab.floats[i];
            assert(tab.floats.contains(w));
            let k = before.floats.index_of(w);
            assert(before.floats[k] == w);
            assert(self.is_window_of(before.floats[k], before.handle, true));
            self.lemma_survivor(after, at, w);
        }
        assert(after.stocked_at(tab));
        assert forall|k: int| 0 <= k < after.tabs.len() implies after.stocked_at(
            #[trigger] after.tabs[k],
        ) by {
            if k != t {
                assert(after.tabs[k] == self.tabs[k]);
                assert(self.stocked_at(self.tabs[k]));
                self.lemma_other_windows_stay(after, at, self.tabs[k].handle);
                self.lemma_stays_stocked(after, self.tabs[k]);
            }
        }
        assert forall|i: int| 0 <= i < after.windows.len() implies after.has_owner(
            #[trigger] after.windows[i],
        ) by {
            let from = if i < at {
                i
            } else {
                i + 1
            };
            assert(after.windows[i] == self.windows[from]);
            let k = self.tab_at(self.windows[from].tab);
            assert(self.has_tab(self.windows[from].tab));
            assert(self.tabs[k].lists(self.windows[from]));
            assert(self.windows[from].handle != gone);
            if k != t {
                assert(after.tabs[k] == self.tabs[k]);
            } else {
                assert(after.tabs[t] == tab);
                assert(after.tabs[t].lists(after.windows[i]));
            }
        }
        after.lemma_owned_intro();
        self.lemma_same_focus(after);
    }

    /// Every other window survives the removal of one.
    proof fn lemma_survivor(self, after: Links, at: int, window: WinHandle)
        requires
            self.ordered(),
            after.ordered(),
            0 <= at < self.windows.len(),
            after.windows == self.windows.remove(at),
            self.has_window(window),
            window != self.windows[at].handle,
        ensures
            after.has_window(window),
            after.windows[after.window_at(window)] == self.windows[self.window_at(window)],
    {
        let i = self.window_at(window);
        let moved = if i < at {
            i
        } else {
            i - 1
        };
        assert(after.windows[moved] == self.windows[i]);
        after.lemma_window_at(moved);
    }

    /// Windows of the other tabpages survive the removal of one.
    proof fn lemma_other_windows_stay(self, after: Links, at: int, tab: TabHandle)
        requires
            self.ordered(),
            after.ordered(),
            0 <= at < self.windows.len(),
            after.windows == self.windows.remove(at),
            tab != self.windows[at].tab,
        ensures
            forall|i: int|
                0 <= i < self.windows.len() && (#[trigger] self.windows[i]).tab == tab
                    ==> exists|j: int|
                    0 <= j < after.windows.len() && (#[trigger] after.windows[j]).handle
                        == self.windows[i].handle && after.windows[j].tab == tab
                        && after.windows[j].floating == self.windows[i].floating,
    {
        assert forall|i: int|
            0 <= i < self.windows.len() && (#[trigger] self.windows[i]).tab == tab implies exists|
            j: int,
        |
            0 <= j < after.windows.len() && (#[trigger] after.windows[j]).handle
                == self.windows[i].handle && after.windows[j].tab == tab
                && after.windows[j].floating == self.windows[i].floating by {
            let moved = if i < at {
                i
            } else {
                i - 1
            };
            assert(after.windows[moved] == self.windows[i]);
        }
    }

    /// A tabpage goes with its only window; another one is current then.
    #[verifier::spinoff_prover]
    #[verifier::rlimit(40)]
    pub proof fn lemma_drop_tab(self, after: Links, at: int, t: int, b: int)
        requires
            self.wf(),
            self.tabs.len() > 1,
            0 <= at < self.windows.len(),
            0 <= t < self.tabs.len(),
            0 <= b < self.buffers.len(),
            self.tabs[t].windows() == seq![self.windows[at].handle],
            self.windows[at].tab == self.tabs[t].handle,
            self.windows[at].buffer == self.buffers[b].handle,
            after == (Links {
                buffers: self.buffers.update(
                    b,
                    recounted(self.buffers[b], self.buffers[b].attachments - 1, true),
                ),
                windows: self.windows.remove(at),
                tabs: self.tabs.remove(t),
                current_tab: if self.current_tab == Some(self.tabs[t].handle) {
                    Some(self.tabs.remove(t)[0].handle)
                } else {
                    self.current_tab
                },
            }),
        ensures
            after.wf(),
            forall|i: int|
                0 <= i < after.windows.len() ==> (#[trigger] after.windows[i]).tab
                    != self.tabs[t].handle,
    {
        let gone = self.tabs[t].handle;
        assert(after.ordered()) by {
            assert forall|i: int, j: int| 0 <= i < j < after.tabs.len() implies (
            #[trigger] after.tabs[i]).handle != (#[trigger] after.tabs[j]).handle by {
                let from_i = if i < t {
                    i
                } else {
                    i + 1
                };
                let from_j = if j < t {
                    j
                } else {
                    j + 1
                };
                assert(after.tabs[i] == self.tabs[from_i]);
                assert(after.tabs[j] == self.tabs[from_j]);
            }
        }
        assert(after.counted()) by {
            self.lemma_counted_remove(at, b, true);
            after.lemma_same_count(
                Links { buffers: after.buffers, windows: after.windows, ..self },
            );
        }
        assert forall|i: int| 0 <= i < after.windows.len() implies (
        #[trigger] after.windows[i]).tab != gone && after.has_owner(after.windows[i]) by {
            let from = if i < at {
                i
            } else {
                i + 1
            };
            assert(after.windows[i] == self.windows[from]);
            if self.windows[from].tab == gone {
                self.lemma_own_window(from, t);
                assert(seq![self.windows[at].handle].contains(self.windows[from].handle));
                self.lemma_window_at(from);
                self.lemma_window_at(at);
                assert(false);
            }
            let k = self.tab_at(self.windows[from].tab);
            assert(self.has_tab(self.windows[from].tab));
            assert(self.tabs[k].lists(self.windows[from]));
            let moved = if k < t {
                k
            } else {
                k - 1
            };
            assert(after.tabs[moved] == self.tabs[k]);
        }
        after.lemma_owned_intro();
        assert forall|k: int| 0 <= k < after.tabs.len() implies after.stocked_at(
            #[trigger] after.tabs[k],
        ) by {
            let from = if k < t {
                k
            } else {
                k + 1
            };
            assert(after.tabs[k] == self.tabs[from]);
            assert(self.stocked_at(self.tabs[from]));
            assert(self.tabs[from].handle != gone);
            self.lemma_other_windows_stay(after, at, self.tabs[from].handle);
            self.lemma_stays_stocked(after, self.tabs[from]);
        }
        assert(after.focused()) by {
            if self.current_tab == Some(gone) {
                assert(after.tabs[0].handle == after.current_tab->0);
            } else if let Some(tab) = self.current_tab {
                let k = self.tab_at(tab);
                let moved = if k < t {
                    k
                } else {
                    k - 1
                };
                assert(after.tabs[moved] == self.tabs[k]);
            }
        }
    }

    /// Entering a window keeps the references sound.
    pub proof fn lemma_enter(self, after: Links, t: int, window: WinHandle)
        requires
            self.wf(),
            0 <= t < self.tabs.len(),
            self.tabs[t].windows().contains(window),
            after == (Links {
                tabs: self.tabs.update(t, TabKey { current: window, ..self.tabs[t] }),
                current_tab: after.current_tab,
                ..self
            }),
            after.current_tab == self.current_tab || after.current_tab == Some(
                self.tabs[t].handle,
            ),
        ensures
            after.wf(),
            after.current_tab == Some(self.tabs[t].handle) ==> after.current_window() == Some(
                window,
            ),
    {
        let tab = after.tabs[t];
        assert(self.stocked_at(self.tabs[t]));
        assert(tab.windows() == self.tabs[t].windows());
        assert(after.ordered());
        after.lemma_same_count(self);
        after.lemma_tab_at(t);
        assert forall|k: int| 0 <= k < after.tabs.len() implies after.stocked_at(
            #[trigger] after.tabs[k],
        ) by {
            assert(self.stocked_at(self.tabs[k]));
            self.lemma_windows_stay(after, self.tabs[k].handle);
            self.lemma_stays_stocked(after, self.tabs[k]);
            if k == t {
                assert(after.stocked_at(self.tabs[t]));
            }
        }
        assert forall|i: int| 0 <= i < after.windows.len() implies after.has_owner(
            #[trigger] after.windows[i],
        ) by {
            let k = self.tab_at(self.windows[i].tab);
            assert(self.has_tab(self.windows[i].tab));
            assert(self.tabs[k].lists(self.windows[i]));
            assert(after.tabs[k].handle == self.windows[i].tab);
        }
        after.lemma_owned_intro();
        if after.current_tab == self.current_tab {
            self.lemma_same_focus(after);
        }
    }

    /// A window that shows another buffer keeps the references sound.
    pub proof fn lemma_show(self, after: Links, at: int, from: int, to: int, keep: bool)
        requires
            self.wf(),
            0 <= at < self.windows.len(),
            0 <= from < self.buffers.len(),
            0 <= to < self.buffers.len(),
            from != to,
            self.windows[at].buffer == self.buffers[from].handle,
            keep || self.buffers[from].attachments == 1,
            after == (Links {
                buffers: self.buffers.update(
                    to,
                    recounted(self.buffers[to], self.buffers[to].attachments + 1, true),
                ).update(
                    from,
                    recounted(self.buffers[from], self.buffers[from].attachments - 1, keep),
                ),
                windows: self.windows.update(
                    at,
                    WindowKey { buffer: self.buffers[to].handle, ..self.windows[at] },
                ),
                ..self
            }),
        ensures
            after.wf(),
    {
        assert(after.ordered());
        self.lemma_counted_move(at, from, to, keep);
        assert forall|k: int| 0 <= k < after.tabs.len() implies after.stocked_at(
            #[trigger] after.tabs[k],
        ) by {
            assert(self.stocked_at(self.tabs[k]));
            self.lemma_windows_stay(after, self.tabs[k].handle);
            self.lemma_stays_stocked(after, self.tabs[k]);
        }
        assert forall|i: int| 0 <= i < after.windows.len() implies after.has_owner(
            #[trigger] after.windows[i],
        ) by {
            let k = self.tab_at(self.windows[i].tab);
            assert(self.has_tab(self.windows[i].tab));
            assert(self.tabs[k].lists(self.windows[i]));
            assert(after.tabs[k].handle == after.windows[i].tab);
        }
        after.lemma_owned_intro();
        self.lemma_same_focus(after);
    }
}

} // verus!
