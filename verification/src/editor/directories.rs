//! Working directories: the session's and the windows' own.

use vstd::prelude::*;

use crate::editor::Editor;
use crate::errors::EditorError;
use crate::text::{chars_of, string_of};
use crate::types::{OxStr, WinHandle};
use crate::window::{WindowEntry, WindowState};

verus! {

/// Scope of a directory change.
#[derive(Clone, Copy, Debug, Eq, PartialEq, Structural)]
pub enum DirectoryScope {
    /// The whole session: the current window's own directory is dropped, so that
    /// every window without one follows.
    Global,
    /// The current window alone.
    Window,
}

/// Failures of [`Editor::change_directory`].
#[derive(Debug, PartialEq, Eq)]
pub enum DirectoryError {
    /// A change for the current window was requested without one.
    NoCurrentWindow,
    /// The directory could not be entered.
    ChangeFailed {
        /// Directory that could not be entered.
        target: String,
        /// What the system said.
        error: String,
    },
}

/// What entering a directory gave: the working directory then, if it can be
/// read, or what the system said.
#[derive(Debug, PartialEq, Eq)]
pub enum DirectoryEntered {
    /// The directory was entered.
    Entered(Option<String>),
    /// It was not.
    Refused(String),
}

/// A window with its directories set.
pub open spec fn with_directories(
    windows: Seq<WindowEntry>,
    at: int,
    local: Option<String>,
    previous: Option<String>,
) -> Seq<WindowEntry> {
    windows.update(
        at,
        WindowEntry {
            state: WindowState {
                local_directory: local,
                previous_directory: previous,
                ..windows[at].state
            },
            ..windows[at]
        },
    )
}

impl Editor {
    /// The state of the current window.
    pub open spec fn current_state(&self) -> Option<WindowState> {
        match self.links().current_window() {
            Some(window) => Some(self.window_entry(window).state),
            None => None,
        }
    }

    /// Finds the current window.
    pub fn find_current(&self) -> (at: Option<usize>)
        requires
            self.wf(),
        ensures
            match self.links().current_window() {
                Some(window) => at is Some && at->0 == self.links().window_at(window) && at->0
                    < self.windows@.len() && self.windows@[at->0 as int].handle == window,
                None => at is None,
            },
    {
        match self.current_window() {
            Some(window) => {
                proof {
                    self.links().lemma_current_window();
                }
                self.find_window(window)
            },
            None => None,
        }
    }

    /// Returns the directory that a change back would enter: the session's, or
    /// the current window's.
    #[must_use]
    pub fn previous_directory(&self, scope: DirectoryScope) -> (directory: Option<String>)
        requires
            self.wf(),
        ensures
            directory == (match scope {
                DirectoryScope::Global => self.previous_directory,
                DirectoryScope::Window => match self.current_state() {
                    Some(state) => state.previous_directory,
                    None => None,
                },
            }),
    {
        match scope {
            DirectoryScope::Global => self.previous_directory.clone(),
            DirectoryScope::Window => match self.find_current() {
                Some(at) => self.windows[at].state.previous_directory.clone(),
                None => None,
            },
        }
    }

    /// Returns a window's own directory, if it has one.
    ///
    /// # Errors
    ///
    /// Those of [`Editor::locate_window`].
    pub fn window_local_directory(&self, window: WinHandle) -> (directory: Result<
        Option<String>,
        EditorError,
    >)
        requires
            self.wf(),
        ensures
            match self.window_request(window) {
                Ok(at) => directory == Ok::<_, EditorError>(
                    self.windows@[at].state.local_directory,
                ),
                Err(error) => directory == Err::<Option<String>, _>(error),
            },
    {
        match self.locate_window(window) {
            Ok(at) => Ok(self.windows[at].state.local_directory.clone()),
            Err(error) => Err(error),
        }
    }

    /// The directory that the process should be in: the current window's own, or
    /// else the session's. Whoever switches windows, tabpages or buffers enters
    /// it afterwards; that it cannot be entered undoes nothing.
    pub open spec fn effective(&self) -> Option<String> {
        match self.current_state() {
            Some(state) if state.local_directory is Some => state.local_directory,
            _ => self.global_directory,
        }
    }

    /// Returns the directory that the process should be in; see
    /// [`Editor::effective`].
    #[must_use]
    pub fn effective_directory(&self) -> (directory: Option<String>)
        requires
            self.wf(),
        ensures
            directory == self.effective(),
    {
        if let Some(at) = self.find_current() {
            if self.windows[at].state.local_directory.is_some() {
                return self.windows[at].state.local_directory.clone();
            }
        }
        self.global_directory.clone()
    }

    /// Whether a directory change of that scope has a window to be made for;
    /// to be asked before the directory is entered.
    ///
    /// # Errors
    ///
    /// [`DirectoryError::NoCurrentWindow`] for a window's change without one.
    pub fn prepare_directory_change(&self, scope: DirectoryScope) -> (result: Result<
        (),
        DirectoryError,
    >)
        requires
            self.wf(),
        ensures
            result == (if scope == DirectoryScope::Window && self.links().current_window() is None {
                Err(DirectoryError::NoCurrentWindow)
            } else {
                Ok(())
            }),
    {
        if scope == DirectoryScope::Window && self.current_window().is_none() {
            Err(DirectoryError::NoCurrentWindow)
        } else {
            Ok(())
        }
    }

    /// Records a directory change: the directory left behind as the previous
    /// one, and the one entered as the window's or the session's. A change for
    /// the session drops the current window's own directory. Returns the
    /// directory left behind, empty when it could not be read.
    ///
    /// `left` is the working directory before, if it can be read, and `entered`
    /// what entering `target` gave.
    ///
    /// # Errors
    ///
    /// [`DirectoryError::NoCurrentWindow`] for a window's change without one,
    /// [`DirectoryError::ChangeFailed`] when the directory was not entered.
    /// Nothing is recorded then.
    pub fn change_directory(
        &mut self,
        target: &str,
        scope: DirectoryScope,
        left: Option<String>,
        entered: DirectoryEntered,
    ) -> (result: Result<String, DirectoryError>)
        requires
            old(self).wf(),
        ensures
            final(self).wf(),
            final(self).links() == old(self).links(),
            ({
                let current = old(self).links().current_window();
                let at = old(self).links().window_at(current->0);
                if scope == DirectoryScope::Window && current is None {
                    &&& result == Err::<String, _>(DirectoryError::NoCurrentWindow)
                    &&& *final(self) == *old(self)
                } else {
                    match entered {
                        DirectoryEntered::Refused(error) => {
                            &&& result is Err
                            &&& result->Err_0 is ChangeFailed
                            &&& result->Err_0->target@ == target@
                            &&& result->Err_0->error == error
                            &&& *final(self) == *old(self)
                        },
                        DirectoryEntered::Entered(now) => {
                            &&& result is Ok
                            &&& result->Ok_0@ == (match left {
                                Some(path) => path@,
                                None => Seq::empty(),
                            })
                            &&& match scope {
                                DirectoryScope::Window => {
                                    &&& final(self).windows@ == with_directories(
                                        old(self).windows@,
                                        at,
                                        now,
                                        left,
                                    )
                                    &&& *final(self) == (Editor {
                                        windows: final(self).windows,
                                        ..*old(self)
                                    })
                                },
                                DirectoryScope::Global => {
                                    &&& final(self).windows@ == if current is Some {
                                        with_directories(
                                            old(self).windows@,
                                            at,
                                            None,
                                            old(self).windows@[at].state.previous_directory,
                                        )
                                    } else {
                                        old(self).windows@
                                    }
                                    &&& *final(self) == (Editor {
                                        windows: final(self).windows,
                                        previous_directory: left,
                                        global_directory: now,
                                        ..*old(self)
                                    })
                                },
                            }
                        },
                    }
                }
            }),
    {
        let current: Option<usize> = self.find_current();
        if scope == DirectoryScope::Window && current.is_none() {
            return Err(DirectoryError::NoCurrentWindow);
        }
        let now = match entered {
            DirectoryEntered::Entered(now) => now,
            DirectoryEntered::Refused(error) => {
                return Err(DirectoryError::ChangeFailed { target: target.to_owned(), error });
            },
        };
        let kept = match &left {
            Some(path) => path.clone(),
            None => String::new(),
        };
        assert(left is None ==> kept@ =~= Seq::empty());
        match scope {
            DirectoryScope::Window => {
                if let Some(at) = current {
                    self.windows[at].state.previous_directory = left;
                    self.windows[at].state.local_directory = now;
                    proof {
                        assert(old(self).windows@[at as int].area.text_height >= 1);
                        crate::editor::lemma_tables_kept(*old(self), *self);
                        assert(self.windows@ =~= with_directories(
                            old(self).windows@,
                            at as int,
                            now,
                            left,
                        ));
                    }
                }
            },
            DirectoryScope::Global => {
                self.previous_directory = left;
                self.global_directory = now;
                if let Some(at) = current {
                    self.windows[at].state.local_directory = None;
                    proof {
                        assert(old(self).windows@[at as int].area.text_height >= 1);
                        assert(self.windows@ =~= with_directories(
                            old(self).windows@,
                            at as int,
                            None,
                            old(self).windows@[at as int].state.previous_directory,
                        ));
                    }
                }
                proof {
                    crate::editor::lemma_tables_kept(*old(self), *self);
                }
            },
        }
        Ok(kept)
    }

    /// The name of the current buffer, when `'autochdir'` asks for following it
    /// and it has one.
    #[must_use]
    pub fn autochdir_name(&self) -> (name: Option<String>)
        requires
            self.wf(),
        ensures
            match self.links().current_buffer() {
                Some(buffer) if self.globals.autochdir && self.buffer_state(buffer).name@.len()
                    > 0 => name is Some && name->0@ == crate::text::lossy_text(
                    self.buffer_state(buffer).name@,
                ),
                _ => name is None,
            },
    {
        if !self.globals.autochdir {
            return None;
        }
        match self.current_buffer() {
            Some(buffer) => {
                proof {
                    lemma_current_buffer(*self);
                }
                match self.find_buffer(buffer) {
                    Some(at) => if self.buffers[at].state.name.as_bytes().len() == 0 {
                        None
                    } else {
                        Some(crate::text::lossy(self.buffers[at].state.name.as_bytes()))
                    },
                    None => None,
                }
            },
            None => None,
        }
    }

    /// The directory that `'autochdir'` asks to enter for the current window:
    /// `parent` is the directory part of [`Editor::autochdir_name`], and
    /// `there` whether it is the working directory already.
    #[must_use]
    pub fn do_autochdir(&self, parent: Option<String>, there: bool) -> (target: Option<String>)
        requires
            self.wf(),
        ensures
            target == (match self.links().current_buffer() {
                Some(buffer) if self.globals.autochdir && self.buffer_state(buffer).name@.len()
                    > 0 && !there => parent,
                _ => None,
            }),
    {
        if there || self.autochdir_name().is_none() {
            None
        } else {
            parent
        }
    }
}

/// The current buffer is live.
pub proof fn lemma_current_buffer(editor: Editor)
    requires
        editor.wf(),
    ensures
        editor.links().current_buffer() is Some == editor.links().current_window() is Some,
        editor.links().current_buffer() is Some ==> editor.has_buffer(
            editor.links().current_buffer()->0,
        ),
{
    let links = editor.links();
    if links.current_tab is Some {
        links.lemma_current_window();
        let at = links.window_at(links.current_window()->0);
        assert(links.windows[at] == crate::editor::window_key(editor.windows@[at]));
        crate::editor::windows::lemma_window_tab(editor, at);
    }
}

/// A directory name with exactly one separator at its end.
pub open spec fn with_separator(path: Seq<char>) -> Seq<char>
    decreases path.len(),
{
    if path.len() > 0 && path.last() == '/' {
        with_separator(path.drop_last())
    } else {
        path.push('/')
    }
}

/// Expands a buffer name to a full path. `full` is the name joined to the
/// working directory, if that can be read, and `directory` whether a directory
/// is there: its name then ends in one separator. Empty and absolute names stay.
#[must_use]
pub fn expand_buffer_name(name: &OxStr, absolute: bool, full: Option<&str>, directory: bool) -> (expanded:
    OxStr)
    ensures
        expanded@ == if name@.len() == 0 || absolute || full is None {
            name@
        } else if directory {
            vstd::utf8::encode_utf8(with_separator(full->0@))
        } else {
            vstd::utf8::encode_utf8(full->0@)
        },
{
    if name.as_bytes().len() == 0 || absolute {
        return name.clone();
    }
    match full {
        Some(full) => {
            if directory {
                let mut chars = chars_of(full);
                while chars.len() > 0 && chars[chars.len() - 1] == '/'
                    invariant
                        with_separator(chars@) == with_separator(full@),
                    decreases chars@.len(),
                {
                    let ghost before = chars@;
                    let _ = chars.pop();
                    assert(chars@ =~= before.drop_last());
                }
                chars.push('/');
                OxStr::from_text(string_of(chars.as_slice()).as_str())
            } else {
                OxStr::from_text(full)
            }
        },
        None => name.clone(),
    }
}

/// A change of the session's directory lets every window without its own follow
/// it, the current one among them.
pub proof fn law_session_change_is_followed(
    before: Editor,
    after: Editor,
    left: Option<String>,
    now: Option<String>,
)
    requires
        before.wf(),
        after.links() == before.links(),
        before.links().current_window() is Some,
        after.windows@ == with_directories(
            before.windows@,
            before.links().window_at(before.links().current_window()->0),
            None,
            before.windows@[before.links().window_at(
                before.links().current_window()->0,
            )].state.previous_directory,
        ),
        after == (Editor {
            windows: after.windows,
            previous_directory: left,
            global_directory: now,
            ..before
        }),
    ensures
        after.effective() == now,
{
    before.links().lemma_parts();
    before.links().lemma_current_window();
}

} // verus!
