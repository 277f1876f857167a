//! Live buffers: making, naming, unloading and wiping them.

use vstd::prelude::*;

use crate::buffer::BufferState;
use crate::editor::{
    allocate_buffer_handle, BufferEntry, Editor, HistoryEvent,
};
use crate::errors::EditorError;
use crate::text::lossy;
use crate::types::{BufHandle, OxStr};

verus! {

/// The handles of buffers.
pub open spec fn buffer_handles(buffers: Seq<BufferEntry>) -> Seq<BufHandle> {
    buffers.map_values(|entry: BufferEntry| entry.handle)
}

/// Another buffer than the one at `at` is named `name`.
pub open spec fn name_taken(buffers: Seq<BufferEntry>, at: int, name: Seq<u8>) -> bool {
    exists|i: int|
        0 <= i < buffers.len() && i != at && (#[trigger] buffers[i]).state.name@ == name
}

impl Editor {
    /// Returns live buffer handles in allocation order.
    #[must_use]
    pub fn buffers(&self) -> (handles: Vec<BufHandle>)
        ensures
            handles@ == buffer_handles(self.buffers@),
    {
        let mut handles: Vec<BufHandle> = Vec::new();
        let mut next: usize = 0;
        while next < self.buffers.len()
            invariant
                next <= self.buffers@.len(),
                handles@ == buffer_handles(self.buffers@.take(next as int)),
            decreases self.buffers@.len() - next,
        {
            handles.push(self.buffers[next].handle);
            assert(self.buffers@.take(next + 1) =~= self.buffers@.take(next as int).push(
                self.buffers@[next as int],
            ));
            next = next + 1;
            assert(handles@ =~= buffer_handles(self.buffers@.take(next as int)));
        }
        assert(self.buffers@.take(next as int) =~= self.buffers@);
        handles
    }

    /// Returns the highest buffer number ever allocated.
    #[must_use]
    pub fn last_buffer_nr(&self) -> (number: i64)
        requires
            self.wf(),
        ensures
            number == self.next_buffer - 1,
            forall|i: int|
                0 <= i < self.buffers@.len() ==> (#[trigger] self.buffers@[i]).handle.0 <= number,
    {
        self.next_buffer - 1
    }

    /// Returns a live buffer's state.
    ///
    /// # Errors
    ///
    /// Those of [`Editor::locate_buffer`].
    pub fn buffer(&self, buffer: BufHandle) -> (state: Result<&BufferState, EditorError>)
        requires
            self.wf(),
        ensures
            match self.buffer_request(buffer) {
                Ok(at) => state == Ok::<_, EditorError>(&self.buffers@[at].state),
                Err(error) => state == Err::<&BufferState, _>(error),
            },
    {
        match self.locate_buffer(buffer) {
            Ok(at) => Ok(&self.buffers[at].state),
            Err(error) => Err(error),
        }
    }

    /// Returns a live buffer's state for changing it. The tables stay sound if
    /// the caller leaves its window count and residency alone and its text with
    /// a line.
    ///
    /// # Errors
    ///
    /// Those of [`Editor::locate_buffer`].
    pub fn buffer_mut(&mut self, buffer: BufHandle) -> (state: Result<
        &mut BufferState,
        EditorError,
    >)
        requires
            old(self).wf(),
        ensures
            match old(self).buffer_request(buffer) {
                Ok(at) => {
                    &&& state is Ok
                    &&& *state->Ok_0 == old(self).buffers@[at].state
                    &&& final(self).buffers@ == old(self).buffers@.update(
                        at,
                        BufferEntry {
                            handle: old(self).buffers@[at].handle,
                            state: *final(state->Ok_0),
                        },
                    )
                    &&& *final(self) == (Editor { buffers: final(self).buffers, ..*old(self) })
                },
                Err(error) => state is Err && state->Err_0 == error && *final(self) == *old(self),
            },
    {
        match self.locate_buffer(buffer) {
            Ok(at) => Ok(&mut self.buffers[at].state),
            Err(error) => Err(error),
        }
    }

    /// Allocates a listed or unlisted, loaded empty buffer.
    ///
    /// # Errors
    ///
    /// [`EditorError::HandleExhausted`] when the buffer handles are used up.
    pub fn create_buffer(&mut self, listed: bool) -> (handle: Result<BufHandle, EditorError>)
        requires
            old(self).wf(),
        ensures
            final(self).wf(),
            old(self).makes_buffer(final(self), handle, seq![Seq::empty()], listed),
    {
        let mut lines: Vec<Vec<u8>> = Vec::new();
        lines.push(Vec::new());
        assert(crate::text::views(lines@) =~= seq![Seq::empty()]);
        self.create_buffer_with(lines, listed)
    }

    /// Making a buffer around `lines`: one more buffer with the next handle, or
    /// nothing when the handles are used up.
    pub open spec fn makes_buffer(
        &self,
        after: &Editor,
        handle: Result<BufHandle, EditorError>,
        lines: Seq<Seq<u8>>,
        listed: bool,
    ) -> bool {
        if self.next_buffer <= i32::MAX {
            &&& handle == Ok::<_, EditorError>(BufHandle(self.next_buffer as i32))
            &&& after.buffers@.len() == self.buffers@.len() + 1
            &&& after.buffers@ == self.buffers@.push(after.buffers@.last())
            &&& after.buffers@.last().handle == handle->Ok_0
            &&& after.buffers@.last().state.fresh(lines, listed, self.buffer_defaults)
            &&& *after == (Editor {
                buffers: after.buffers,
                next_buffer: (self.next_buffer + 1) as i64,
                ..*self
            })
        } else {
            &&& handle == Err::<BufHandle, _>(
                EditorError::HandleExhausted(crate::errors::HandleKind::Buffer),
            )
            &&& *after == *self
        }
    }

    /// Allocates a listed or unlisted buffer around existing text.
    ///
    /// # Errors
    ///
    /// [`EditorError::HandleExhausted`] when the buffer handles are used up.
    pub fn create_buffer_with(&mut self, lines: Vec<Vec<u8>>, listed: bool) -> (handle: Result<
        BufHandle,
        EditorError,
    >)
        requires
            old(self).wf(),
            lines@.len() > 0,
        ensures
            final(self).wf(),
            old(self).makes_buffer(final(self), handle, crate::text::views(lines@), listed),
    {
        let handle = match allocate_buffer_handle(&mut self.next_buffer) {
            Ok(handle) => handle,
            Err(error) => {
                return Err(error);
            },
        };
        let state = BufferState::new(lines, listed, self.buffer_defaults.clone());
        self.buffers.push(BufferEntry { handle, state });
        proof {
            let before = old(self).links();
            let key = crate::editor::buffer_key(self.buffers@.last());
            assert(self.links().buffers =~= before.buffers.push(key));
            assert forall|i: int| 0 <= i < before.buffers.len() implies (
            #[trigger] before.buffers[i]).handle.0 < key.handle.0 by {
                assert(old(self).buffers@[i].handle == before.buffers[i].handle);
            }
            before.lemma_new_buffer(key);
            assert forall|i: int| 0 <= i < self.buffers@.len() implies 1 <= (
            #[trigger] self.buffers@[i]).handle.0 < self.next_buffer by {
                if i < old(self).buffers@.len() {
                    assert(self.buffers@[i] == old(self).buffers@[i]);
                }
            }
            assert forall|i: int| 0 <= i < self.buffers@.len() implies (
            #[trigger] self.buffers@[i]).state.wf() by {
                if i < old(self).buffers@.len() {
                    assert(self.buffers@[i] == old(self).buffers@[i]);
                }
            }
        }
        Ok(handle)
    }

    /// Permanently removes an unattached buffer; its handle is never reused.
    ///
    /// # Errors
    ///
    /// Those of [`Editor::locate_buffer`], or [`EditorError::BufferInUse`] when
    /// windows still display it.
    pub fn wipe_buffer(&mut self, buffer: BufHandle) -> (result: Result<(), EditorError>)
        requires
            old(self).wf(),
        ensures
            final(self).wf(),
            match old(self).buffer_request(buffer) {
                Ok(at) => {
                    let entry = old(self).buffers@[at];
                    if entry.state.attachments != 0 {
                        &&& result == Err::<(), _>(
                            EditorError::BufferInUse {
                                buffer: entry.handle,
                                windows: entry.state.attachments,
                            },
                        )
                        &&& *final(self) == *old(self)
                    } else {
                        &&& result == Ok::<(), EditorError>(())
                        &&& final(self).buffers@ == old(self).buffers@.remove(at)
                        &&& final(self).history@ == old(self).history@.push(
                            HistoryEvent::Forget { buffer: entry.handle },
                        )
                        &&& final(self).released@ == old(self).released@.push(entry.handle)
                        &&& *final(self) == (Editor {
                            buffers: final(self).buffers,
                            history: final(self).history,
                            released: final(self).released,
                            ..*old(self)
                        })
                        &&& !final(self).has_buffer(entry.handle)
                    }
                },
                Err(error) => result == Err::<(), _>(error) && *final(self) == *old(self),
            },
    {
        let at: usize = match self.locate_buffer(buffer) {
            Ok(at) => at,
            Err(error) => {
                return Err(error);
            },
        };
        let handle = self.buffers[at].handle;
        let windows: usize = self.buffers[at].state.attachments;
        if windows != 0 {
            return Err(EditorError::BufferInUse { buffer: handle, windows });
        }
        self.history.push(HistoryEvent::Forget { buffer: handle });
        let _ = self.buffers.remove(at);
        self.released.push(handle);
        proof {
            let before = old(self).links();
            before.lemma_parts();
            assert(self.links().buffers =~= before.buffers.remove(at as int));
            assert(before.buffers[at as int] == crate::editor::buffer_key(
                old(self).buffers@[at as int],
            ));
            before.lemma_drop_buffer(at as int);
            assert forall|i: int| 0 <= i < self.buffers@.len() implies 1 <= (
            #[trigger] self.buffers@[i]).handle.0 < self.next_buffer
                && self.buffers@[i].state.wf() && self.buffers@[i].handle != handle by {
                let from = if i < at {
                    i
                } else {
                    i + 1
                };
                assert(self.buffers@[i] == old(self).buffers@[from]);
                before.lemma_buffer_at(from);
                before.lemma_buffer_at(at as int);
                assert(before.buffers[from].handle == old(self).buffers@[from].handle);
            }
        }
        Ok(())
    }

    /// Releases resident text and undo state for an unattached buffer.
    ///
    /// # Errors
    ///
    /// Those of [`Editor::locate_buffer`], or [`EditorError::Buffer`] when the
    /// buffer still has attached windows.
    pub fn unload_buffer(&mut self, buffer: BufHandle) -> (result: Result<(), EditorError>)
        requires
            old(self).wf(),
        ensures
            final(self).wf(),
            match old(self).buffer_request(buffer) {
                Ok(at) => {
                    let entry = old(self).buffers@[at];
                    if entry.state.attachments != 0 {
                        &&& result == Err::<(), _>(
                            EditorError::Buffer(crate::buffer::BufferStateError::Attached),
                        )
                        &&& *final(self) == *old(self)
                    } else {
                        &&& result == Ok::<(), EditorError>(())
                        &&& final(self).buffers@ == old(self).buffers@.update(
                            at,
                            BufferEntry {
                                handle: entry.handle,
                                state: BufferState { lines: None, ..entry.state },
                            },
                        )
                        &&& *final(self) == (Editor { buffers: final(self).buffers, ..*old(self) })
                    }
                },
                Err(error) => result == Err::<(), _>(error) && *final(self) == *old(self),
            },
    {
        let at: usize = match self.locate_buffer(buffer) {
            Ok(at) => at,
            Err(error) => {
                return Err(error);
            },
        };
        if self.buffers[at].state.attachments > 0 {
            return Err(EditorError::Buffer(crate::buffer::BufferStateError::Attached));
        }
        let _ = self.buffers[at].state.unload();
        proof {
            let before = old(self).links();
            assert(before.buffers[at as int] == crate::editor::buffer_key(
                old(self).buffers@[at as int],
            ));
            assert(self.links().buffers =~= before.buffers.update(
                at as int,
                crate::links::recounted(before.buffers[at as int], 0, false),
            ));
            before.lemma_reload_buffer(at as int, false);
        }
        Ok(())
    }

    /// Whether another buffer than the one at `at` is named `name`.
    fn is_name_taken(&self, at: usize, name: &OxStr) -> (taken: bool)
        ensures
            taken == name_taken(self.buffers@, at as int, name@),
    {
        let mut next: usize = 0;
        while next < self.buffers.len()
            invariant
                next <= self.buffers@.len(),
                forall|i: int|
                    0 <= i < next && i != at ==> (#[trigger] self.buffers@[i]).state.name@ != name@,
            decreases self.buffers@.len() - next,
        {
            if next != at && self.buffers[next].state.name.same(name) {
                return true;
            }
            next = next + 1;
        }
        false
    }

    /// Renames a live buffer and preserves its old name as the alternate
    /// buffer: an unlisted one, which the current window remembers if it shows
    /// the renamed buffer. A buffer that had no name has no alternate.
    ///
    /// # Errors
    ///
    /// Those of [`Editor::locate_buffer`], [`EditorError::NameInUse`] when
    /// another live buffer owns `name`, or [`EditorError::HandleExhausted`] when
    /// the old name cannot get a buffer.
    pub fn rename_buffer(&mut self, buffer: BufHandle, name: OxStr) -> (result: Result<
        Option<BufHandle>,
        EditorError,
    >)
        requires
            old(self).wf(),
        ensures
            final(self).wf(),
            match old(self).buffer_request(buffer) {
                Err(error) => result == Err::<Option<BufHandle>, _>(error) && *final(self)
                    == *old(self),
                Ok(at) => {
                    let old_name = old(self).buffers@[at].state.name@;
                    if old_name == name@ {
                        result == Ok::<_, EditorError>(None::<BufHandle>) && *final(self)
                            == *old(self)
                    } else if name@.len() > 0 && name_taken(old(self).buffers@, at, name@) {
                        &&& result is Err
                        &&& result->Err_0 is NameInUse
                        &&& result->Err_0->NameInUse_0@ == crate::text::lossy_text(name@)
                        &&& *final(self) == *old(self)
                    } else if old_name.len() > 0 && old(self).next_buffer > i32::MAX {
                        &&& result == Err::<Option<BufHandle>, _>(
                            EditorError::HandleExhausted(crate::errors::HandleKind::Buffer),
                        )
                        &&& *final(self) == *old(self)
                    } else {
                        &&& result is Ok
                        &&& old(self).renames(final(self), at, name@, result->Ok_0)
                    }
                },
            },
    {
        let at: usize = match self.locate_buffer(buffer) {
            Ok(at) => at,
            Err(error) => {
                return Err(error);
            },
        };
        if self.buffers[at].state.name.same(&name) {
            return Ok(None);
        }
        if name.as_bytes().len() > 0 && self.is_name_taken(at, &name) {
            return Err(EditorError::NameInUse(lossy(name.as_bytes())));
        }
        let old_name = self.buffers[at].state.name.clone();
        let alternate = if old_name.as_bytes().len() == 0 {
            None
        } else {
            match self.create_named_buffer(old_name) {
                Ok(handle) => Some(handle),
                Err(error) => {
                    return Err(error);
                },
            }
        };
        let ghost made = *self;
        let ghost new_bytes = name@;
        self.buffers[at].state.name = name;
        self.buffers[at].state.notedited = true;
        proof {
            crate::editor::lemma_tables_kept(made, *self);
            assert(made.buffers@[at as int] == old(self).buffers@[at as int]);
        }
        let handle = self.buffers[at].handle;
        let ghost named = *self;
        self.remember_alternate(handle, alternate);
        proof {
            let entry = old(self).buffers@[at as int];
            let renamed = self.buffers@[at as int];
            assert(self.buffers@ =~= made.buffers@.update(at as int, renamed));
            if entry.state.name@.len() > 0 {
                assert(self.buffers@.last() == made.buffers@.last());
                assert(self.buffers@ =~= old(self).buffers@.update(at as int, renamed).push(
                    self.buffers@.last(),
                ));
            }
            assert(renamed.state.name@ == new_bytes);
            assert(named.windows == old(self).windows);
            assert(named.links().windows =~= old(self).links().windows);
            assert(named.links().current_window() == old(self).links().current_window());
        }
        Ok(alternate)
    }

    /// Allocates an unlisted empty buffer named `name`.
    fn create_named_buffer(&mut self, name: OxStr) -> (handle: Result<BufHandle, EditorError>)
        requires
            old(self).wf(),
        ensures
            final(self).wf(),
            if old(self).next_buffer <= i32::MAX {
                let second = final(self).buffers@.last();
                &&& handle == Ok::<_, EditorError>(BufHandle(old(self).next_buffer as i32))
                &&& final(self).buffers@ == old(self).buffers@.push(second)
                &&& second.handle == handle->Ok_0
                &&& second.state.fresh_named(
                    name@,
                    seq![Seq::<u8>::empty()],
                    false,
                    old(self).buffer_defaults,
                )
                &&& *final(self) == (Editor {
                    buffers: final(self).buffers,
                    next_buffer: (old(self).next_buffer + 1) as i64,
                    ..*old(self)
                })
                &&& final(self).links().windows == old(self).links().windows
                &&& final(self).links().tabs == old(self).links().tabs
            } else {
                &&& handle == Err::<BufHandle, _>(
                    EditorError::HandleExhausted(crate::errors::HandleKind::Buffer),
                )
                &&& *final(self) == *old(self)
            },
    {
        let handle = match self.create_buffer(false) {
            Ok(handle) => handle,
            Err(error) => {
                return Err(error);
            },
        };
        let ghost made = *self;
        let last: usize = self.buffers.len() - 1;
        self.buffers[last].state.name = name;
        proof {
            crate::editor::lemma_tables_kept(made, *self);
            assert(self.buffers@ =~= old(self).buffers@.push(self.buffers@.last()));
            assert(self.buffers@.last().state.rows() == made.buffers@.last().state.rows());
        }
        Ok(handle)
    }

    /// Sets what the current window remembers, if it shows `buffer`.
    fn remember_alternate(&mut self, buffer: BufHandle, alternate: Option<BufHandle>)
        requires
            old(self).wf(),
        ensures
            final(self).wf(),
            final(self).links() == old(self).links(),
            *final(self) == (Editor { windows: final(self).windows, ..*old(self) }),
            match old(self).links().current_window() {
                Some(window) if old(self).window_entry(window).state.buffer == buffer => {
                    let place = old(self).links().window_at(window);
                    final(self).windows@ == old(self).windows@.update(
                        place,
                        crate::window::WindowEntry {
                            state: crate::window::WindowState {
                                alternate_buffer: alternate,
                                ..old(self).windows@[place].state
                            },
                            ..old(self).windows@[place]
                        },
                    )
                },
                _ => final(self).windows@ == old(self).windows@,
            },
    {
        if let Some(window) = self.current_window() {
            proof {
                self.links().lemma_current_window();
            }
            if let Some(place) = self.find_window(window) {
                if self.windows[place].state.buffer == buffer {
                    self.windows[place].state.alternate_buffer = alternate;
                    proof {
                        crate::editor::lemma_tables_kept(*old(self), *self);
                    }
                }
            }
        }
    }

    /// What renaming the buffer at `at` does; see [`Editor::rename_buffer`].
    pub open spec fn renames(
        &self,
        after: &Editor,
        at: int,
        name: Seq<u8>,
        alternate: Option<BufHandle>,
    ) -> bool {
        let entry = self.buffers@[at];
        let named = after.buffers@[at];
        let kept = entry.state.name@.len() > 0;
        &&& alternate == (if kept {
            Some(BufHandle(self.next_buffer as i32))
        } else {
            None
        })
        &&& named.state.name@ == name
        &&& named == (BufferEntry {
            state: BufferState { name: named.state.name, notedited: true, ..entry.state },
            ..entry
        })
        &&& if kept {
            let second = after.buffers@.last();
            &&& after.buffers@ == self.buffers@.update(at, named).push(second)
            &&& second.handle == alternate->0
            &&& second.state.fresh_named(
                entry.state.name@,
                seq![Seq::<u8>::empty()],
                false,
                self.buffer_defaults,
            )
            &&& after.next_buffer == self.next_buffer + 1
        } else {
            &&& after.buffers@ == self.buffers@.update(at, named)
            &&& after.next_buffer == self.next_buffer
        }
        &&& match self.links().current_window() {
            Some(window) if self.window_entry(window).state.buffer == entry.handle => {
                let place = self.links().window_at(window);
                after.windows@ == self.windows@.update(
                    place,
                    crate::window::WindowEntry {
                        state: crate::window::WindowState {
                            alternate_buffer: alternate,
                            ..self.windows@[place].state
                        },
                        ..self.windows@[place]
                    },
                )
            },
            _ => after.windows@ == self.windows@,
        }
        &&& *after == (Editor {
            buffers: after.buffers,
            windows: after.windows,
            next_buffer: after.next_buffer,
            ..*self
        })
    }

    /// Closes a buffer's open undo block, so the next edit starts a new one. A
    /// buffer that is not live has no block to close.
    pub fn sync_buffer_undo(&mut self, buffer: BufHandle)
        requires
            old(self).wf(),
        ensures
            final(self).wf(),
            final(self).links() == old(self).links(),
            *final(self) == (Editor { buffers: final(self).buffers, ..*old(self) }),
            final(self).buffers@ == if old(self).has_buffer(buffer) {
                let at = old(self).links().buffer_at(buffer);
                let entry = old(self).buffers@[at];
                old(self).buffers@.update(
                    at,
                    BufferEntry {
                        state: BufferState { undo_open: false, ..entry.state },
                        ..entry
                    },
                )
            } else {
                old(self).buffers@
            },
    {
        if let Some(at) = self.find_buffer(buffer) {
            self.buffers[at].state.sync_undo();
            proof {
                crate::editor::lemma_tables_kept(*old(self), *self);
            }
        }
    }

    /// Returns a buffer's current undo sequence.
    ///
    /// # Errors
    ///
    /// [`EditorError::UnknownBuffer`] when the buffer is not live.
    pub fn buffer_undo_seq(&self, buffer: BufHandle) -> (seq: Result<u64, EditorError>)
        requires
            self.wf(),
        ensures
            seq == (if self.has_buffer(buffer) {
                Ok(self.buffer_state(buffer).undo_at)
            } else {
                Err(EditorError::UnknownBuffer(buffer))
            }),
    {
        match self.find_buffer(buffer) {
            Some(at) => Ok(self.buffers[at].state.undo_at),
            None => Err(EditorError::UnknownBuffer(buffer)),
        }
    }
}

/// A wiped buffer's handle is never given out again: every later handle is
/// larger than every earlier one.
pub proof fn law_handles_are_not_reused(before: Editor, after: Editor, handle: BufHandle)
    requires
        before.wf(),
        before.has_buffer(handle),
        before.next_buffer <= i32::MAX,
        before.makes_buffer(
            &after,
            Ok::<_, EditorError>(BufHandle(before.next_buffer as i32)),
            seq![Seq::empty()],
            true,
        ),
    ensures
        handle.0 < before.next_buffer,
        after.next_buffer > before.next_buffer,
        after.buffers@.last().handle != handle,
{
    let at = before.links().buffer_at(handle);
    assert(before.links().buffers[at].handle == handle);
    assert(before.buffers@[at].handle == handle);
}

} // verus!
