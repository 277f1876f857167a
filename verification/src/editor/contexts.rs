//! Temporary display contexts: showing a buffer or entering a window for a
//! callback, and putting everything back afterwards.

use vstd::prelude::*;

use crate::editor::windows::FileRead;
use crate::editor::{BufferRelease, Editor};
use crate::errors::EditorError;
use crate::text::{chars_of, same_chars, split};
use crate::types::{BufHandle, WinHandle};
use crate::window::WindowEntry;

verus! {

/// What has to be put back when a context is left.
#[derive(Clone, Copy, Debug, PartialEq, Eq)]
pub struct DisplayContext {
    /// The window that was current.
    pub caller: WinHandle,
    /// The window that was taken over, and the buffer it should show again.
    pub changed: Option<(WinHandle, BufHandle)>,
    /// The window that was remembered as the previous one.
    pub previous: Option<WinHandle>,
}

/// Whether an ignore list names an event by one of its spellings, or all.
pub open spec fn names_event(list: Seq<char>, spellings: Seq<String>) -> bool {
    let items = crate::text::pieces(list, ',');
    exists|i: int|
        0 <= i < items.len() && (#[trigger] items[i] == "all"@ || exists|k: int|
            0 <= k < spellings.len() && #[trigger] spellings[k]@ == items[i])
}

fn is_spelling(item: &Vec<char>, spellings: &Vec<String>) -> (is: bool)
    ensures
        is == (exists|k: int| 0 <= k < spellings@.len() && #[trigger] spellings@[k]@ == item@),
{
    let mut next: usize = 0;
    while next < spellings.len()
        invariant
            next <= spellings@.len(),
            forall|k: int| 0 <= k < next ==> #[trigger] spellings@[k]@ != item@,
        decreases spellings@.len() - next,
    {
        let chars = chars_of(spellings[next].as_str());
        if same_chars(chars.as_slice(), item.as_slice()) {
            return true;
        }
        next = next + 1;
    }
    false
}

/// Whether an ignore list names an event by one of its spellings, or all.
#[must_use]
pub fn ignores(list: &str, spellings: &Vec<String>) -> (ignored: bool)
    ensures
        ignored == names_event(list@, spellings@),
{
    let chars = chars_of(list);
    let items = split(chars.as_slice(), ',');
    let all = chars_of("all");
    let ghost pieces = crate::text::pieces(list@, ',');
    let mut next: usize = 0;
    while next < items.len()
        invariant
            next <= items@.len(),
            all@ == "all"@,
            pieces == crate::text::pieces(list@, ','),
            crate::text::views(items@) == pieces,
            forall|i: int|
                0 <= i < next ==> !(#[trigger] pieces[i] == "all"@ || exists|k: int|
                    0 <= k < spellings@.len() && #[trigger] spellings@[k]@ == pieces[i]),
        decreases items@.len() - next,
    {
        assert(items@[next as int]@ == pieces[next as int]);
        if same_chars(items[next].as_slice(), all.as_slice()) || is_spelling(
            &items[next],
            spellings,
        ) {
            return true;
        }
        next = next + 1;
    }
    false
}

/// A window that shows `buffer` and does not ignore the event.
pub open spec fn listens(entry: WindowEntry, buffer: BufHandle, spellings: Seq<String>) -> bool {
    entry.state.buffer == buffer && !names_event(entry.options.eventignorewin@, spellings)
}

/// The first such window.
pub open spec fn first_listener(
    windows: Seq<WindowEntry>,
    buffer: BufHandle,
    spellings: Seq<String>,
) -> Option<int>
    decreases windows.len(),
{
    if windows.len() == 0 {
        None
    } else {
        match first_listener(windows.drop_last(), buffer, spellings) {
            Some(at) => Some(at),
            None => if listens(windows.last(), buffer, spellings) {
                Some(windows.len() - 1)
            } else {
                None
            },
        }
    }
}

/// Some window shows `buffer`.
pub open spec fn is_shown(windows: Seq<WindowEntry>, buffer: BufHandle) -> bool {
    exists|i: int| 0 <= i < windows.len() && (#[trigger] windows[i]).state.buffer == buffer
}

/// The first window that shows `buffer`.
pub open spec fn first_showing(windows: Seq<WindowEntry>, buffer: BufHandle) -> Option<int>
    decreases windows.len(),
{
    if windows.len() == 0 {
        None
    } else {
        match first_showing(windows.drop_last(), buffer) {
            Some(at) => Some(at),
            None => if windows.last().state.buffer == buffer {
                Some(windows.len() - 1)
            } else {
                None
            },
        }
    }
}

impl Editor {
    fn find_listener(&self, buffer: BufHandle, spellings: &Vec<String>) -> (at: Option<usize>)
        ensures
            match first_listener(self.windows@, buffer, spellings@) {
                Some(place) => at is Some && at->0 == place && place < self.windows@.len()
                    && self.windows@[place].state.buffer == buffer,
                None => at is None,
            },
    {
        let mut next: usize = 0;
        while next < self.windows.len()
            invariant
                next <= self.windows@.len(),
                first_listener(self.windows@.take(next as int), buffer, spellings@) is None,
            decreases self.windows@.len() - next,
        {
            let ghost here = self.windows@.take(next + 1);
            assert(here.drop_last() =~= self.windows@.take(next as int));
            assert(here.last() == self.windows@[next as int]);
            if self.windows[next].state.buffer == buffer && !ignores(
                self.windows[next].options.eventignorewin.as_str(),
                spellings,
            ) {
                proof {
                    lemma_first_listener_stays(self.windows@, next + 1, buffer, spellings@);
                }
                return Some(next);
            }
            next = next + 1;
        }
        assert(self.windows@.take(next as int) =~= self.windows@);
        None
    }

    fn find_showing(&self, buffer: BufHandle) -> (at: Option<usize>)
        ensures
            match first_showing(self.windows@, buffer) {
                Some(place) => at is Some && at->0 == place && place < self.windows@.len()
                    && self.windows@[place].state.buffer == buffer,
                None => at is None,
            },
            at is Some == is_shown(self.windows@, buffer),
    {
        let mut next: usize = 0;
        while next < self.windows.len()
            invariant
                next <= self.windows@.len(),
                first_showing(self.windows@.take(next as int), buffer) is None,
                forall|i: int|
                    0 <= i < next ==> (#[trigger] self.windows@[i]).state.buffer != buffer,
            decreases self.windows@.len() - next,
        {
            let ghost here = self.windows@.take(next + 1);
            assert(here.drop_last() =~= self.windows@.take(next as int));
            assert(here.last() == self.windows@[next as int]);
            if self.windows[next].state.buffer == buffer {
                proof {
                    lemma_first_showing_stays(self.windows@, next + 1, buffer);
                }
                return Some(next);
            }
            next = next + 1;
        }
        assert(self.windows@.take(next as int) =~= self.windows@);
        None
    }

    /// Whether a window's `'eventignorewin'` names the event by one of its
    /// spellings, or all. A window that is not live ignores nothing.
    #[must_use]
    pub fn window_ignores_event(&self, window: WinHandle, spellings: &Vec<String>) -> (ignored: bool)
        requires
            self.wf(),
        ensures
            ignored == (self.has_window(window) && names_event(
                self.window_entry(window).options.eventignorewin@,
                spellings@,
            )),
    {
        match self.find_window(window) {
            Some(at) => ignores(self.windows[at].options.eventignorewin.as_str(), spellings),
            None => false,
        }
    }

    /// The outcome of entering a buffer's display context for an event; see
    /// [`Editor::enter_buffer_event`].
    pub open spec fn event_context(
        &self,
        after: &Editor,
        result: Result<Option<DisplayContext>, EditorError>,
        buffer: BufHandle,
        ignored: bool,
        spellings: Seq<String>,
        file: FileRead,
    ) -> bool {
        let target = self.resolved_buffer(buffer);
        let caller = self.links().current_window();
        let listener = first_listener(self.windows@, target->0, spellings);
        let same = DisplayContext {
            caller: caller->0,
            changed: None,
            previous: self.previous_window,
        };
        if ignored {
            result == Ok::<_, EditorError>(None::<DisplayContext>) && *after == *self
        } else if target is None || caller is None {
            result == Err::<Option<DisplayContext>, _>(EditorError::NoCurrentTabpage) && *after
                == *self
        } else if listener is Some {
            let handle = self.windows@[listener->0].handle;
            if handle == caller->0 {
                result == Ok::<_, EditorError>(Some(same)) && *after == *self
            } else {
                &&& result == Ok::<_, EditorError>(
                    Some(DisplayContext { changed: Some((handle, target->0)), ..same }),
                )
                &&& self.enters(after, listener->0)
            }
        } else if is_shown(self.windows@, target->0) {
            result == Ok::<_, EditorError>(None::<DisplayContext>) && *after == *self
        } else {
            exists|switched: Result<(), EditorError>|
                {
                    &&& #[trigger] self.switch_outcome(
                        after,
                        switched,
                        WinHandle(0),
                        target->0,
                        BufferRelease::KeepLoaded,
                        file,
                    )
                    &&& match switched {
                        Ok(_) => result == Ok::<_, EditorError>(
                            Some(
                                DisplayContext {
                                    changed: Some(
                                        (
                                            caller->0,
                                            self.window_entry(caller->0).state.buffer,
                                        ),
                                    ),
                                    ..same
                                },
                            ),
                        ),
                        Err(error) => result == Err::<Option<DisplayContext>, _>(error),
                    }
                }
        }
    }

    /// Enters the display context of `buffer` for an event. The first window
    /// that shows it and does not ignore the event becomes current; if every
    /// such window ignores it, or the event is `ignored` altogether, there is
    /// nothing to run. A hidden buffer is shown in the current window for the
    /// while. [`Editor::leave_buffer_context`] puts things back.
    ///
    /// # Errors
    ///
    /// [`EditorError::NoCurrentTabpage`] when the buffer or the current window
    /// cannot be resolved, and those of [`Editor::set_window_buffer`].
    pub fn enter_buffer_event(
        &mut self,
        buffer: BufHandle,
        ignored: bool,
        spellings: &Vec<String>,
        file: FileRead,
    ) -> (result: Result<Option<DisplayContext>, EditorError>)
        requires
            old(self).wf(),
        ensures
            final(self).wf(),
            old(self).event_context(
                final(self),
                result,
                buffer,
                ignored,
                spellings@,
                file,
            ),
    {
        if ignored {
            return Ok(None);
        }
        let target = match self.resolve_buffer_handle(buffer) {
            Ok(target) => target,
            Err(error) => {
                return Err(error);
            },
        };
        let at: usize = match self.find_current() {
            Some(at) => at,
            None => {
                return Err(EditorError::NoCurrentTabpage);
            },
        };
        let caller = self.windows[at].handle;
        let same = DisplayContext { caller, changed: None, previous: self.previous_window };
        match self.find_listener(target, spellings) {
            Some(listener) => {
                let handle = self.windows[listener].handle;
                if handle == caller {
                    return Ok(Some(same));
                }
                proof {
                    crate::editor::windows::lemma_window_tab(*self, listener as int);
                    lemma_live_request(*self, listener as int);
                }
                match self.set_current_window(handle) {
                    Ok(()) => Ok(
                        Some(
                            DisplayContext {
                                caller,
                                changed: Some((handle, target)),
                                previous: same.previous,
                            },
                        ),
                    ),
                    Err(error) => Err(error),
                }
            },
            None => {
                if self.find_showing(target).is_some() {
                    return Ok(None);
                }
                let original = self.windows[at].state.buffer;
                match self.set_current_buffer(target, BufferRelease::KeepLoaded, file) {
                    Ok(()) => Ok(
                        Some(
                            DisplayContext {
                                caller,
                                changed: Some((caller, original)),
                                previous: same.previous,
                            },
                        ),
                    ),
                    Err(error) => Err(error),
                }
            },
        }
    }

    /// Whether the window that a context took over has to show its buffer again.
    pub open spec fn needs_buffer_back(&self, context: DisplayContext) -> bool {
        match context.changed {
            Some((window, buffer)) => self.has_window(window) && self.window_entry(
                window,
            ).state.buffer != buffer && self.has_buffer(buffer),
            None => false,
        }
    }

    /// The buffer of the window that a context took over is put back, if it can
    /// be.
    pub open spec fn puts_buffer_back(
        &self,
        after: &Editor,
        context: DisplayContext,
        file: FileRead,
    ) -> bool {
        if self.needs_buffer_back(context) {
            exists|result: Result<(), EditorError>| #[trigger]
                self.switch_outcome(
                    after,
                    result,
                    (context.changed->0).0,
                    (context.changed->0).1,
                    BufferRelease::KeepLoaded,
                    file,
                )
        } else {
            *after == *self
        }
    }

    /// The window that was current is entered again, if it is live.
    pub open spec fn comes_back(&self, after: &Editor, caller: WinHandle) -> bool {
        if self.links().current_window() != Some(caller) && self.has_window(caller) {
            self.enters(after, self.links().window_at(caller))
        } else {
            *after == *self
        }
    }

    fn put_buffer_back(&mut self, context: &DisplayContext, file: FileRead)
        requires
            old(self).wf(),
        ensures
            final(self).wf(),
            old(self).puts_buffer_back(final(self), *context, file),
    {
        if let Some((window, buffer)) = context.changed {
            if let Some(at) = self.find_window(window) {
                if self.windows[at].state.buffer != buffer && self.find_buffer(buffer).is_some() {
                    let result = self.set_window_buffer(
                        window,
                        buffer,
                        BufferRelease::KeepLoaded,
                        file,
                    );
                    assert(old(self).switch_outcome(
                        self,
                        result,
                        window,
                        buffer,
                        BufferRelease::KeepLoaded,
                        file,
                    ));
                }
            }
        }
    }

    fn come_back(&mut self, caller: WinHandle)
        requires
            old(self).wf(),
        ensures
            final(self).wf(),
            old(self).comes_back(final(self), caller),
    {
        if self.current_window() != Some(caller) {
            if let Some(at) = self.find_window(caller) {
                proof {
                    lemma_live_request(*self, at as int);
                }
                let _ = self.set_current_window(caller);
            }
        }
    }

    /// Leaves the display context of a buffer: the window that was taken over
    /// shows its buffer again if both are still live, and the window that was
    /// current is entered again if it is. `file` is what reading that buffer's
    /// file gave, in case its text was released meanwhile.
    pub fn leave_buffer_context(&mut self, context: &DisplayContext, file: FileRead)
        requires
            old(self).wf(),
        ensures
            final(self).wf(),
            exists|mid: Editor| #[trigger]
                old(self).puts_buffer_back(&mid, *context, file) && mid.comes_back(
                    final(self),
                    context.caller,
                ),
    {
        self.put_buffer_back(context, file);
        let ghost mid = *self;
        self.come_back(context.caller);
        assert(old(self).puts_buffer_back(&mid, *context, file));
    }

    /// The outcome of entering a buffer's display context for a call; see
    /// [`Editor::enter_buffer_call`].
    pub open spec fn call_context(
        &self,
        after: &Editor,
        result: Result<DisplayContext, EditorError>,
        buffer: BufHandle,
        file: FileRead,
    ) -> bool {
        let target = self.resolved_buffer(buffer);
        let caller = self.links().current_window();
        let same = DisplayContext {
            caller: caller->0,
            changed: None,
            previous: self.previous_window,
        };
        if target is None || caller is None {
            result == Err::<DisplayContext, _>(EditorError::NoCurrentTabpage) && *after == *self
        } else if self.window_entry(caller->0).state.buffer == target->0 {
            result == Ok::<_, EditorError>(same) && *after == *self
        } else {
            match first_showing(self.windows@, target->0) {
                Some(at) => {
                    &&& result == Ok::<_, EditorError>(
                        DisplayContext {
                            changed: Some((self.windows@[at].handle, target->0)),
                            ..same
                        },
                    )
                    &&& self.enters(after, at)
                },
                None => exists|switched: Result<(), EditorError>|
                    {
                        &&& #[trigger] self.switch_outcome(
                            after,
                            switched,
                            WinHandle(0),
                            target->0,
                            BufferRelease::KeepLoaded,
                            file,
                        )
                        &&& result == Ok::<_, EditorError>(
                            if switched is Ok {
                                DisplayContext {
                                    changed: Some(
                                        (caller->0, self.window_entry(caller->0).state.buffer),
                                    ),
                                    ..same
                                }
                            } else {
                                same
                            },
                        )
                    },
            }
        }
    }

    /// Enters the display context of `buffer` for a call: the current window if
    /// it shows it, else the first window that does, else the current window
    /// shows it for the while. A failed switch is not an error: the call then
    /// runs where it is. [`Editor::leave_buffer_call`] puts things back.
    ///
    /// # Errors
    ///
    /// [`EditorError::NoCurrentTabpage`] when the buffer or the current window
    /// cannot be resolved.
    pub fn enter_buffer_call(&mut self, buffer: BufHandle, file: FileRead) -> (result: Result<
        DisplayContext,
        EditorError,
    >)
        requires
            old(self).wf(),
        ensures
            final(self).wf(),
            old(self).call_context(final(self), result, buffer, file),
    {
        let target = match self.resolve_buffer_handle(buffer) {
            Ok(target) => target,
            Err(error) => {
                return Err(error);
            },
        };
        let at: usize = match self.find_current() {
            Some(at) => at,
            None => {
                return Err(EditorError::NoCurrentTabpage);
            },
        };
        let caller = self.windows[at].handle;
        let original = self.windows[at].state.buffer;
        let previous = self.previous_window;
        if original == target {
            return Ok(DisplayContext { caller, changed: None, previous });
        }
        match self.find_showing(target) {
            Some(shown) => {
                let handle = self.windows[shown].handle;
                proof {
                    crate::editor::windows::lemma_window_tab(*self, shown as int);
                    lemma_live_request(*self, shown as int);
                }
                let _ = self.set_current_window(handle);
                Ok(DisplayContext { caller, changed: Some((handle, target)), previous })
            },
            None => {
                let switched = self.set_current_buffer(target, BufferRelease::KeepLoaded, file);
                let changed = if switched.is_ok() {
                    Some((caller, original))
                } else {
                    None
                };
                assert(old(self).switch_outcome(
                    self,
                    switched,
                    WinHandle(0),
                    target,
                    BufferRelease::KeepLoaded,
                    file,
                ));
                Ok(DisplayContext { caller, changed, previous })
            },
        }
    }

    /// Leaves the context of a call: as [`Editor::leave_buffer_context`], and
    /// the previous window that the entry recorded is forgotten again.
    pub fn leave_buffer_call(&mut self, context: &DisplayContext, file: FileRead)
        requires
            old(self).wf(),
        ensures
            final(self).wf(),
            exists|mid: Editor, back: Editor|
                #![trigger old(self).puts_buffer_back(&mid, *context, file), mid.comes_back(
                    &back,
                    context.caller,
                )]
                {
                    &&& old(self).puts_buffer_back(&mid, *context, file)
                    &&& mid.comes_back(&back, context.caller)
                    &&& *final(self) == (Editor {
                        previous_window: if mid.previous_window == Some(context.caller) {
                            context.previous
                        } else {
                            back.previous_window
                        },
                        ..back
                    })
                },
    {
        self.put_buffer_back(context, file);
        let ghost mid = *self;
        let recorded: bool = self.previous_window == Some(context.caller);
        self.come_back(context.caller);
        let ghost back = *self;
        if recorded {
            self.previous_window = context.previous;
        }
        assert(old(self).puts_buffer_back(&mid, *context, file));
        assert(mid.comes_back(&back, context.caller));
    }

    /// Enters `window` for a call. [`Editor::leave_window_call`] goes back.
    ///
    /// # Errors
    ///
    /// [`EditorError::NoCurrentTabpage`] when there is no current window,
    /// [`EditorError::UnknownWindow`] when `window` is not live.
    pub fn enter_window_call(&mut self, window: WinHandle) -> (result: Result<
        DisplayContext,
        EditorError,
    >)
        requires
            old(self).wf(),
        ensures
            final(self).wf(),
            ({
                let caller = old(self).links().current_window();
                match (caller, old(self).window_request(window)) {
                    (None, _) => result == Err::<DisplayContext, _>(EditorError::NoCurrentTabpage)
                        && *final(self) == *old(self),
                    (_, Err(error)) => result == Err::<DisplayContext, _>(error) && *final(self)
                        == *old(self),
                    (Some(caller), Ok(at)) => {
                        &&& result == Ok::<_, EditorError>(
                            DisplayContext {
                                caller,
                                changed: None,
                                previous: old(self).previous_window,
                            },
                        )
                        &&& if old(self).windows@[at].handle == caller {
                            *final(self) == *old(self)
                        } else {
                            old(self).enters(final(self), at)
                        }
                    },
                }
            }),
    {
        let caller = match self.current_window() {
            Some(caller) => caller,
            None => {
                return Err(EditorError::NoCurrentTabpage);
            },
        };
        let at: usize = match self.locate_window(window) {
            Ok(at) => at,
            Err(error) => {
                return Err(error);
            },
        };
        let previous = self.previous_window;
        let target = self.windows[at].handle;
        if target != caller {
            proof {
                lemma_live_request(*self, at as int);
            }
            let _ = self.set_current_window(target);
        }
        Ok(DisplayContext { caller, changed: None, previous })
    }

    /// Goes back to the window that was current before
    /// [`Editor::enter_window_call`], if it is live, and forgets the previous
    /// window that the entry recorded.
    pub fn leave_window_call(&mut self, context: &DisplayContext)
        requires
            old(self).wf(),
        ensures
            final(self).wf(),
            exists|back: Editor| #[trigger]
                old(self).comes_back(&back, context.caller) && *final(self) == (Editor {
                    previous_window: if old(self).previous_window == Some(context.caller) {
                        context.previous
                    } else {
                        back.previous_window
                    },
                    ..back
                }),
    {
        let recorded: bool = self.previous_window == Some(context.caller);
        self.come_back(context.caller);
        let ghost back = *self;
        if recorded {
            self.previous_window = context.previous;
        }
        assert(old(self).comes_back(&back, context.caller));
    }
}

/// A live window's handle means that window.
proof fn lemma_live_request(editor: Editor, at: int)
    requires
        editor.wf(),
        0 <= at < editor.windows@.len(),
    ensures
        editor.window_request(editor.windows@[at].handle) == Ok::<_, EditorError>(at),
{
    crate::editor::windows::lemma_window_tab(editor, at);
    assert(crate::editor::LOWEST_WINDOW_ID <= editor.windows@[at].handle.0);
}

/// What the first windows decide, all decide.
proof fn lemma_first_listener_stays(
    windows: Seq<WindowEntry>,
    count: int,
    buffer: BufHandle,
    spellings: Seq<String>,
)
    requires
        0 <= count <= windows.len(),
        first_listener(windows.take(count), buffer, spellings) is Some,
    ensures
        first_listener(windows, buffer, spellings) == first_listener(
            windows.take(count),
            buffer,
            spellings,
        ),
    decreases windows.len() - count,
{
    if count == windows.len() {
        assert(windows.take(count) =~= windows);
    } else {
        let here = windows.take(count + 1);
        assert(here.drop_last() =~= windows.take(count));
        lemma_first_listener_stays(windows, count + 1, buffer, spellings);
    }
}

/// What the first windows decide, all decide.
proof fn lemma_first_showing_stays(windows: Seq<WindowEntry>, count: int, buffer: BufHandle)
    requires
        0 <= count <= windows.len(),
        first_showing(windows.take(count), buffer) is Some,
    ensures
        first_showing(windows, buffer) == first_showing(windows.take(count), buffer),
    decreases windows.len() - count,
{
    if count == windows.len() {
        assert(windows.take(count) =~= windows);
    } else {
        let here = windows.take(count + 1);
        assert(here.drop_last() =~= windows.take(count));
        lemma_first_showing_stays(windows, count + 1, buffer);
    }
}

/// Entering a window and coming back leaves the current window, every window's
/// state and every buffer as they were.
pub proof fn law_visit_restores(before: Editor, inside: Editor, after: Editor, at: int)
    requires
        before.wf(),
        inside.wf(),
        before.links().current_window() is Some,
        0 <= at < before.windows@.len(),
        before.windows@[at].handle != before.links().current_window()->0,
        before.enters(&inside, at),
        inside.comes_back(&after, before.links().current_window()->0),
    ensures
        after.links().current_window() == before.links().current_window(),
        after.windows == before.windows,
        after.buffers == before.buffers,
        after.current_tab == before.current_tab,
{
    let caller = before.links().current_window()->0;
    before.links().lemma_parts();
    before.links().lemma_current_window();
    let place = before.links().window_at(caller);
    assert(before.links().windows[place] == crate::editor::window_key(before.windows@[place]));
    before.links().lemma_window_at(place);
    inside.links().lemma_parts();
    assert(inside.links().windows == before.links().windows);
    assert(inside.links().windows[place].handle == caller);
    inside.links().lemma_window_at(place);
}

/// A call in a window leaves the previous window as it was, too.
pub proof fn law_call_restores_previous_window(
    before: Editor,
    inside: Editor,
    back: Editor,
    context: DisplayContext,
    at: int,
)
    requires
        before.wf(),
        inside.wf(),
        before.links().current_window() is Some,
        0 <= at < before.windows@.len(),
        before.windows@[at].handle != before.links().current_window()->0,
        before.enters(&inside, at),
        context.caller == before.links().current_window()->0,
        context.previous == before.previous_window,
        inside.comes_back(&back, context.caller),
    ensures
        inside.previous_window == Some(context.caller),
        (Editor { previous_window: context.previous, ..back }).previous_window
            == before.previous_window,
{
}

/// Showing a hidden buffer for the while and putting the shown one back leaves
/// the window showing what it showed, and both buffers with the window counts
/// they had; what was shown keeps its text.
pub proof fn law_hidden_visit_restores(
    before: Editor,
    inside: Editor,
    after: Editor,
    at: int,
    from: int,
    to: int,
    text: Option<Seq<Seq<u8>>>,
)
    requires
        before.wf(),
        inside.wf(),
        0 <= at < before.windows@.len(),
        0 <= from < before.buffers@.len(),
        0 <= to < before.buffers@.len(),
        from != to,
        before.windows@[at].state.buffer == before.buffers@[from].handle,
        before.buffers@[from].state.attachments >= 1,
        before.buffers@[to].state.attachments < usize::MAX,
        before.switches(&inside, at, from, to, BufferRelease::KeepLoaded, text),
        inside.switches(&after, at, to, from, BufferRelease::KeepLoaded, None),
    ensures
        after.windows@[at].state.buffer == before.windows@[at].state.buffer,
        after.windows@[at].state.cursor == before.windows@[at].state.cursor,
        after.windows@[at].state.topline == before.windows@[at].state.topline,
        after.buffers@[from].state.attachments == before.buffers@[from].state.attachments,
        after.buffers@[to].state.attachments == before.buffers@[to].state.attachments,
        after.buffers@[from].state.lines == before.buffers@[from].state.lines,
        forall|i: int|
            0 <= i < before.buffers@.len() && i != from && i != to ==> #[trigger] after.buffers@[i]
                == before.buffers@[i],
        forall|i: int|
            0 <= i < before.windows@.len() && i != at ==> #[trigger] after.windows@[i]
                == before.windows@[i],
{
}

} // verus!
