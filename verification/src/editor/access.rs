//! Plain reads and writes of editor state.

use vstd::prelude::*;

use crate::decoration::Decorations;
use crate::editor::output::bump_version;
use crate::editor::{BufferEditMode, ChannelIds, Editor};
use crate::errors::EditorError;
use crate::messages::Object;
use crate::types::{OxStr, TabHandle, Typval, TypvalView, WinHandle};
use crate::window::TabEntry;

verus! {

impl Editor {
    /// The window that was current before the current one.
    #[must_use]
    pub fn previous_window(&self) -> (value: Option<WinHandle>)
        ensures
            value == self.previous_window,
    {
        self.previous_window
    }

    /// Records the window that was current before the current one.
    pub fn set_previous_window(&mut self, window: Option<WinHandle>)
        requires
            old(self).wf(),
        ensures
            final(self).wf(),
            *final(self) == (Editor { previous_window: window, ..*old(self) }),
    {
        self.previous_window = window;
    }

    /// The directory that applies where a window has none of its own.
    #[must_use]
    pub fn global_directory(&self) -> (value: &Option<String>)
        ensures
            value == self.global_directory,
    {
        &self.global_directory
    }

    /// The mode that decides how cursors follow edits.
    #[must_use]
    pub fn edit_mode(&self) -> (value: BufferEditMode)
        ensures
            value == self.edit_mode,
    {
        self.edit_mode
    }

    /// Global variables.
    #[must_use]
    pub fn gvars(&self) -> (value: &Vec<(OxStr, Object)>)
        ensures
            value == self.gvars,
    {
        &self.gvars
    }

    /// The version of the global variables, which every writer bumps.
    #[must_use]
    pub fn gvars_version(&self) -> (value: u64)
        ensures
            value == self.gvars_version,
    {
        self.gvars_version
    }

    /// Predefined variables.
    #[must_use]
    pub fn vvars(&self) -> (value: &Vec<(OxStr, Object)>)
        ensures
            value == self.vvars,
    {
        &self.vvars
    }

    /// The version of the predefined variables, which every writer bumps.
    #[must_use]
    pub fn vvars_version(&self) -> (value: u64)
        ensures
            value == self.vvars_version,
    {
        self.vvars_version
    }

    /// The allocator of channel ids.
    #[must_use]
    pub fn channel_ids(&self) -> (value: &ChannelIds)
        ensures
            value == self.channel_ids,
    {
        &self.channel_ids
    }

    /// How many released subscriptions wait to be taken.
    #[must_use]
    pub fn pending_subscription_releases_len(&self) -> (value: usize)
        ensures
            value == self.released@.len(),
    {
        self.released.len()
    }

    /// The sign groups and their namespaces, in the order of the names.
    #[must_use]
    pub fn sign_groups(&self) -> (value: &Vec<(String, u32)>)
        requires
            self.wf(),
        ensures
            value == self.sign_groups,
            crate::editor::groups_sound(value@),
    {
        &self.sign_groups
    }

    /// The registered decoration providers.
    #[must_use]
    pub fn decorations(&self) -> (value: &Decorations)
        ensures
            value == self.decorations,
    {
        &self.decorations
    }

    /// The value of `'verbose'`.
    #[must_use]
    pub fn verbose_level(&self) -> (value: i64)
        ensures
            value == self.globals.verbose,
    {
        self.globals.verbose
    }

    /// The decoration providers, to be changed.
    pub fn decorations_mut(&mut self) -> (decorations: &mut Decorations)
        ensures
            *decorations == old(self).decorations,
            *final(self) == (Editor { decorations: *final(decorations), ..*old(self) }),
    {
        &mut self.decorations
    }

    /// Closes the current buffer's open undo block, so the next edit starts a
    /// new one.
    pub fn sync_current_undo(&mut self)
        requires
            old(self).wf(),
        ensures
            final(self).wf(),
            match old(self).links().current_buffer() {
                Some(buffer) => {
                    let at = old(self).links().buffer_at(buffer);
                    let entry = old(self).buffers@[at];
                    &&& final(self).buffers@ == old(self).buffers@.update(
                        at,
                        crate::editor::BufferEntry {
                            state: crate::buffer::BufferState { undo_open: false, ..entry.state },
                            ..entry
                        },
                    )
                    &&& *final(self) == (Editor { buffers: final(self).buffers, ..*old(self) })
                },
                None => *final(self) == *old(self),
            },
    {
        if let Some(buffer) = self.current_buffer() {
            proof {
                self.links().lemma_parts();
                crate::editor::directories::lemma_current_buffer(*self);
            }
            self.sync_buffer_undo(buffer);
        }
    }

    /// The highlight namespace selected for a window.
    ///
    /// # Errors
    ///
    /// Those of [`Editor::locate_window`].
    pub fn window_highlight_namespace(&self, window: WinHandle) -> (namespace: Result<
        i64,
        EditorError,
    >)
        requires
            self.wf(),
        ensures
            match self.window_request(window) {
                Ok(at) => namespace == Ok::<_, EditorError>(self.windows@[at].highlight_namespace),
                Err(error) => namespace is Err && namespace->Err_0 == error,
            },
    {
        match self.locate_window(window) {
            Ok(at) => Ok(self.windows[at].highlight_namespace),
            Err(error) => Err(error),
        }
    }

    /// A tabpage's variables.
    ///
    /// # Errors
    ///
    /// Those of [`Editor::locate_tab`].
    pub fn tabpage_variables(&self, tab: TabHandle) -> (variables: Result<
        &Vec<(OxStr, Typval)>,
        EditorError,
    >)
        requires
            self.wf(),
        ensures
            match self.tab_request(tab) {
                Ok(at) => variables == Ok::<_, EditorError>(&self.tabs@[at].variables),
                Err(error) => variables is Err && variables->Err_0 == error,
            },
    {
        match self.locate_tab(tab) {
            Ok(at) => Ok(&self.tabs[at].variables),
            Err(error) => Err(error),
        }
    }

    /// The version of a tabpage's variables, which every writer bumps.
    ///
    /// # Errors
    ///
    /// Those of [`Editor::locate_tab`].
    pub fn tabpage_variables_version(&self, tab: TabHandle) -> (version: Result<u64, EditorError>)
        requires
            self.wf(),
        ensures
            match self.tab_request(tab) {
                Ok(at) => version == Ok::<_, EditorError>(self.tabs@[at].variables_version),
                Err(error) => version is Err && version->Err_0 == error,
            },
    {
        match self.locate_tab(tab) {
            Ok(at) => Ok(self.tabs[at].variables_version),
            Err(error) => Err(error),
        }
    }

    /// A variable of the tabpage at `at` was set.
    pub open spec fn sets_tab_variable(
        &self,
        after: &Editor,
        at: int,
        name: Seq<u8>,
        value: TypvalView,
    ) -> bool {
        let before = self.tabs@[at];
        let entry = after.tabs@[at];
        &&& after.tabs@ == self.tabs@.update(at, entry)
        &&& entry == (TabEntry {
            variables: entry.variables,
            variables_version: crate::editor::output::next_version(before.variables_version),
            ..before
        })
        &&& crate::dict::viewed(entry.variables@) == crate::dict::with_entry(
            crate::dict::viewed(before.variables@),
            name,
            value,
        )
        &&& *after == (Editor { tabs: after.tabs, ..*self })
    }

    /// Sets a tabpage's variable and bumps the version of its variables.
    ///
    /// # Errors
    ///
    /// Those of [`Editor::locate_tab`].
    pub fn set_tabpage_variable(&mut self, tab: TabHandle, name: OxStr, value: Typval) -> (result:
        Result<(), EditorError>)
        requires
            old(self).wf(),
        ensures
            final(self).wf(),
            final(self).links() == old(self).links(),
            match old(self).tab_request(tab) {
                Ok(at) => result is Ok && old(self).sets_tab_variable(
                    final(self),
                    at,
                    name@,
                    value@,
                ),
                Err(error) => result == Err::<(), _>(error) && *final(self) == *old(self),
            },
    {
        let at: usize = match self.locate_tab(tab) {
            Ok(at) => at,
            Err(error) => {
                return Err(error);
            },
        };
        crate::dict::set_entry(&mut self.tabs[at].variables, name, value);
        self.tabs[at].variables_version = bump_version(self.tabs[at].variables_version);
        proof {
            assert(self.tabs@ =~= old(self).tabs@.update(at as int, self.tabs@[at as int]));
            assert(crate::editor::tab_keys(self.tabs@) =~= crate::editor::tab_keys(
                old(self).tabs@,
            )) by {
                assert forall|i: int| 0 <= i < self.tabs@.len() implies crate::editor::tab_key(
                    self.tabs@[i],
                ) == crate::editor::tab_key(old(self).tabs@[i]) by {
                    let entry = self.tabs@[i];
                }
            }
            assert(self.links() == old(self).links());
            assert(self.numbered()) by {
                assert forall|i: int| 0 <= i < self.tabs@.len() implies 1 <= (
                #[trigger] self.tabs@[i]).handle.0 < self.next_tabpage by {
                    assert(self.tabs@[i].handle == old(self).tabs@[i].handle);
                }
            }
        }
        Ok(())
    }
}

} // verus!
