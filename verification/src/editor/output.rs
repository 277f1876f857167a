//! What leaves the editor: messages, queued payloads and redraws; and the small
//! records that go with it.

use vstd::prelude::*;

use crate::editor::Editor;
use crate::messages::{
    Message, MessageDestination, MessageIdentity, MessageKind, Object, RedrawRequest,
};
use crate::errors::EditorError;
use crate::types::{BufHandle, OxStr, Typval, TypvalView, WinHandle};
use crate::window::{MatchItem, WindowEntry};

verus! {

/// The next version of a variable map.
pub open spec fn next_version(version: u64) -> u64 {
    if version == u64::MAX {
        0
    } else {
        (version + 1) as u64
    }
}

pub(crate) fn bump_version(version: u64) -> (next: u64)
    ensures
        next == next_version(version),
{
    if version == u64::MAX {
        0
    } else {
        version + 1
    }
}

impl Editor {
    /// Where a message produced now is sent.
    #[must_use]
    pub fn message_destination(&self) -> (destination: MessageDestination)
        ensures
            destination == crate::messages::destination_for(
                self.message_routing,
                self.globals.verbose,
            ),
    {
        if self.message_routing.embedded || self.message_routing.ui_attached {
            return MessageDestination::Ui;
        }
        if self.message_routing.silent && self.globals.verbose == 0 {
            return MessageDestination::Suppressed;
        }
        MessageDestination::Stderr
    }

    /// The text that a message leaves in `v:errmsg`.
    pub open spec fn error_text(message: Message) -> Option<Seq<u8>> {
        match message.content {
            Object::String(text) if message.kind == MessageKind::Error => Some(text@),
            _ => None,
        }
    }

    /// Stores a message without claiming that a UI has rendered it, together
    /// with the destination that applies to it. An error's text is also left in
    /// `v:errmsg`.
    pub fn push_message(&mut self, message: Message)
        requires
            old(self).wf(),
        ensures
            final(self).wf(),
            final(self).sink@ == old(self).sink@.pushed(
                message@,
                crate::messages::destination_for(
                    old(self).message_routing,
                    old(self).globals.verbose,
                ),
            ),
            match Editor::error_text(message) {
                Some(text) => {
                    &&& crate::dict::viewed(final(self).vvars@) == crate::dict::with_entry(
                        crate::dict::viewed(old(self).vvars@),
                        crate::editor::bytes_of("errmsg"),
                        crate::messages::ObjectView::String(text),
                    )
                    &&& final(self).vvars_version == next_version(old(self).vvars_version)
                },
                None => final(self).vvars == old(self).vvars && final(self).vvars_version
                    == old(self).vvars_version,
            },
            *final(self) == (Editor {
                sink: final(self).sink,
                vvars: final(self).vvars,
                vvars_version: final(self).vvars_version,
                ..*old(self)
            }),
    {
        if message.kind == MessageKind::Error {
            if let Object::String(text) = &message.content {
                let value = Object::String(text.clone());
                self.vvars_version = bump_version(self.vvars_version);
                crate::dict::set_entry(&mut self.vvars, OxStr::from_text("errmsg"), value);
            }
        }
        let destination = self.message_destination();
        self.sink.push(message, destination);
    }

    /// Stores output produced by an informative listing command: to the UI if
    /// there is one and otherwise to standard output, also in batch mode.
    pub fn push_info_message(&mut self, message: Message)
        requires
            old(self).wf(),
        ensures
            final(self).wf(),
            final(self).sink@ == old(self).sink@.pushed_info(
                message@,
                crate::messages::destination_for(
                    old(self).message_routing,
                    old(self).globals.verbose,
                ),
            ),
            *final(self) == (Editor { sink: final(self).sink, ..*old(self) }),
    {
        let destination = self.message_destination();
        self.sink.push_info(message, destination);
    }

    /// Returns messages retained by the sink.
    #[must_use]
    pub fn messages(&self) -> (messages: &[Message])
        requires
            self.wf(),
        ensures
            messages@.len() == self.sink@.entries.len(),
            forall|i: int|
                0 <= i < messages@.len() ==> (#[trigger] messages@[i])@
                    == self.sink@.entries[i].message,
    {
        self.sink.messages()
    }

    /// Returns the destination of each retained message.
    #[must_use]
    pub fn message_destinations(&self) -> (destinations: &[MessageDestination])
        requires
            self.wf(),
        ensures
            destinations@.len() == self.sink@.entries.len(),
            forall|i: int|
                0 <= i < destinations@.len() ==> (#[trigger] destinations@[i])
                    == self.sink@.entries[i].destination,
    {
        self.sink.destinations()
    }

    /// Returns the identity of each retained message.
    #[must_use]
    pub fn message_identities(&self) -> (identities: &[MessageIdentity])
        requires
            self.wf(),
        ensures
            identities@.len() == self.sink@.entries.len(),
            forall|i: int|
                0 <= i < identities@.len() ==> (#[trigger] identities@[i])@
                    == self.sink@.entries[i].identity,
    {
        self.sink.identities()
    }

    /// Discards messages appended at or after `len`.
    pub fn truncate_messages(&mut self, len: usize)
        requires
            old(self).wf(),
        ensures
            final(self).wf(),
            final(self).sink@ == old(self).sink@.truncated(len as int),
            *final(self) == (Editor { sink: final(self).sink, ..*old(self) }),
    {
        self.sink.truncate(len);
    }

    /// Arms the identity that the next message consumes.
    pub fn arm_echo_identity(&mut self, kind: OxStr, id: Object)
        requires
            old(self).wf(),
        ensures
            final(self).wf(),
            final(self).sink@ == (crate::messages::MessageSinkView {
                pending: Some(crate::messages::IdentityView { kind: kind@, id: id@ }),
                ..old(self).sink@
            }),
            *final(self) == (Editor { sink: final(self).sink, ..*old(self) }),
    {
        self.sink.arm(kind, id);
    }

    /// Drops an armed identity.
    pub fn cancel_echo_identity(&mut self)
        requires
            old(self).wf(),
        ensures
            final(self).wf(),
            final(self).sink@ == (crate::messages::MessageSinkView {
                pending: None,
                ..old(self).sink@
            }),
            *final(self) == (Editor { sink: final(self).sink, ..*old(self) }),
    {
        self.sink.disarm();
    }

    /// Stamps a generated identity onto the message at `appended_at`.
    pub fn stamp_echo_identity(&mut self, appended_at: usize, kind: OxStr, id: Object)
        requires
            old(self).wf(),
        ensures
            final(self).wf(),
            final(self).sink@ == old(self).sink@.stamped(
                appended_at as int,
                crate::messages::IdentityView { kind: kind@, id: id@ },
            ),
            *final(self) == (Editor { sink: final(self).sink, ..*old(self) }),
    {
        self.sink.stamp(appended_at, kind, id);
    }

    /// Takes the in-place replacements recorded for a UI.
    pub fn take_echo_replacements(&mut self) -> (taken: Vec<(Message, MessageIdentity)>)
        requires
            old(self).wf(),
        ensures
            final(self).wf(),
            taken@.len() == old(self).sink@.replacements.len(),
            forall|i: int|
                0 <= i < taken@.len() ==> (#[trigger] taken@[i]).0@
                    == old(self).sink@.replacements[i].message && taken@[i].1@
                    == old(self).sink@.replacements[i].identity,
            final(self).sink@ == (crate::messages::MessageSinkView {
                replacements: Seq::empty(),
                ..old(self).sink@
            }),
            *final(self) == (Editor { sink: final(self).sink, ..*old(self) }),
    {
        self.sink.take_replacements()
    }

    /// Stages a raw UI payload for the redraw pass.
    pub fn queue_ui_send(&mut self, content: OxStr)
        requires
            old(self).wf(),
        ensures
            final(self).wf(),
            final(self).ui_sends@ == old(self).ui_sends@.push(content),
            *final(self) == (Editor { ui_sends: final(self).ui_sends, ..*old(self) }),
    {
        self.ui_sends.push(content);
    }

    /// Whether any UI payload awaits the redraw pass.
    #[must_use]
    pub fn ui_sends_pending(&self) -> (pending: bool)
        ensures
            pending == (self.ui_sends@.len() > 0),
    {
        self.ui_sends.len() > 0
    }

    /// Takes every staged UI payload.
    pub fn take_ui_sends(&mut self) -> (taken: Vec<OxStr>)
        requires
            old(self).wf(),
        ensures
            final(self).wf(),
            taken == old(self).ui_sends,
            final(self).ui_sends@.len() == 0,
            *final(self) == (Editor { ui_sends: final(self).ui_sends, ..*old(self) }),
    {
        let mut taken: Vec<OxStr> = Vec::new();
        std::mem::swap(&mut taken, &mut self.ui_sends);
        taken
    }

    /// Stages one validated redraw request.
    pub fn queue_redraw(&mut self, request: RedrawRequest)
        requires
            old(self).wf(),
        ensures
            final(self).wf(),
            final(self).redraws@ == old(self).redraws@.push(request),
            *final(self) == (Editor { redraws: final(self).redraws, ..*old(self) }),
    {
        self.redraws.push(request);
    }

    /// Whether any redraw request awaits the redraw pass.
    #[must_use]
    pub fn redraws_pending(&self) -> (pending: bool)
        ensures
            pending == (self.redraws@.len() > 0),
    {
        self.redraws.len() > 0
    }

    /// Takes every staged redraw request.
    pub fn take_redraws(&mut self) -> (taken: Vec<RedrawRequest>)
        requires
            old(self).wf(),
        ensures
            final(self).wf(),
            taken == old(self).redraws,
            final(self).redraws@.len() == 0,
            *final(self) == (Editor { redraws: final(self).redraws, ..*old(self) }),
    {
        let mut taken: Vec<RedrawRequest> = Vec::new();
        std::mem::swap(&mut taken, &mut self.redraws);
        taken
    }

    /// Takes the handles of wiped buffers whose subscriptions have to be told.
    pub fn take_pending_subscription_releases(&mut self) -> (taken: Vec<BufHandle>)
        requires
            old(self).wf(),
        ensures
            final(self).wf(),
            taken == old(self).released,
            final(self).released@.len() == 0,
            *final(self) == (Editor { released: final(self).released, ..*old(self) }),
    {
        let mut taken: Vec<BufHandle> = Vec::new();
        std::mem::swap(&mut taken, &mut self.released);
        taken
    }

    /// Sets the read-only `v:register` to `name`, a single ASCII character.
    pub fn set_v_register(&mut self, name: char)
        requires
            old(self).wf(),
            name as u32 <= 0x7f,
        ensures
            final(self).wf(),
            crate::dict::viewed(final(self).vvars@) == crate::dict::with_entry(
                crate::dict::viewed(old(self).vvars@),
                crate::editor::bytes_of("register"),
                crate::messages::ObjectView::String(seq![name as u8]),
            ),
            final(self).vvars_version == next_version(old(self).vvars_version),
            *final(self) == (Editor {
                vvars: final(self).vvars,
                vvars_version: final(self).vvars_version,
                ..*old(self)
            }),
    {
        let mut bytes: Vec<u8> = Vec::new();
        bytes.push(name as u8);
        let value = Object::String(OxStr(bytes));
        assert(value@ == crate::messages::ObjectView::String(seq![name as u8])) by {
            assert(bytes@ =~= seq![name as u8]);
        }
        crate::dict::set_entry(&mut self.vvars, OxStr::from_text("register"), value);
        self.vvars_version = bump_version(self.vvars_version);
    }

    /// Returns the `v:` variables for changing them; whoever asks counts as a
    /// writer.
    pub fn vvars_mut(&mut self) -> (vvars: &mut Vec<(OxStr, Object)>)
        ensures
            *vvars == old(self).vvars,
            *final(self) == (Editor {
                vvars: *final(vvars),
                vvars_version: next_version(old(self).vvars_version),
                ..*old(self)
            }),
    {
        self.vvars_version = bump_version(self.vvars_version);
        &mut self.vvars
    }

    /// Returns the `g:` variables for changing them; whoever asks counts as a
    /// writer.
    pub fn gvars_mut(&mut self) -> (gvars: &mut Vec<(OxStr, Object)>)
        ensures
            *gvars == old(self).gvars,
            *final(self) == (Editor {
                gvars: *final(gvars),
                gvars_version: next_version(old(self).gvars_version),
                ..*old(self)
            }),
    {
        self.gvars_version = bump_version(self.gvars_version);
        &mut self.gvars
    }

    /// Returns a window's variables.
    ///
    /// # Errors
    ///
    /// Those of [`Editor::locate_window`].
    pub fn window_variables(&self, window: WinHandle) -> (variables: Result<
        &Vec<(OxStr, Typval)>,
        EditorError,
    >)
        requires
            self.wf(),
        ensures
            match self.window_request(window) {
                Ok(at) => variables == Ok::<_, EditorError>(&self.windows@[at].variables),
                Err(error) => variables is Err && variables->Err_0 == error,
            },
    {
        match self.locate_window(window) {
            Ok(at) => Ok(&self.windows[at].variables),
            Err(error) => Err(error),
        }
    }

    /// Returns the version of a window's variables, which every writer bumps.
    ///
    /// # Errors
    ///
    /// Those of [`Editor::locate_window`].
    pub fn window_variables_version(&self, window: WinHandle) -> (version: Result<
        u64,
        EditorError,
    >)
        requires
            self.wf(),
        ensures
            match self.window_request(window) {
                Ok(at) => version == Ok::<_, EditorError>(self.windows@[at].variables_version),
                Err(error) => version is Err && version->Err_0 == error,
            },
    {
        match self.locate_window(window) {
            Ok(at) => Ok(self.windows[at].variables_version),
            Err(error) => Err(error),
        }
    }

    /// Sets a window's variable and bumps the version of its variables.
    ///
    /// # Errors
    ///
    /// Those of [`Editor::locate_window`].
    pub fn set_window_variable(&mut self, window: WinHandle, name: OxStr, value: Typval) -> (result:
        Result<(), EditorError>)
        requires
            old(self).wf(),
        ensures
            final(self).wf(),
            final(self).links() == old(self).links(),
            match old(self).window_request(window) {
                Ok(at) => result is Ok && old(self).sets_variable(final(self), at, name@, value@),
                Err(error) => result == Err::<(), _>(error) && *final(self) == *old(self),
            },
    {
        let at: usize = match self.locate_window(window) {
            Ok(at) => at,
            Err(error) => {
                return Err(error);
            },
        };
        crate::dict::set_entry(&mut self.windows[at].variables, name, value);
        self.windows[at].variables_version = bump_version(self.windows[at].variables_version);
        proof {
            assert(old(self).windows@[at as int].area.text_height >= 1);
            crate::editor::lemma_tables_kept(*old(self), *self);
            assert(self.windows@ =~= old(self).windows@.update(
                at as int,
                self.windows@[at as int],
            ));
        }
        Ok(())
    }

    /// A variable of the window at `at` was set.
    pub open spec fn sets_variable(
        &self,
        after: &Editor,
        at: int,
        name: Seq<u8>,
        value: TypvalView,
    ) -> bool {
        let before = self.windows@[at];
        let entry = after.windows@[at];
        &&& after.windows@ == self.windows@.update(at, entry)
        &&& entry == (WindowEntry {
            variables: entry.variables,
            variables_version: next_version(before.variables_version),
            ..before
        })
        &&& crate::dict::viewed(entry.variables@) == crate::dict::with_entry(
            crate::dict::viewed(before.variables@),
            name,
            value,
        )
        &&& *after == (Editor { windows: after.windows, ..*self })
    }

    /// Records a beep.
    pub fn beep(&mut self)
        requires
            old(self).wf(),
        ensures
            final(self).wf(),
            *final(self) == (Editor { beeped: true, ..*old(self) }),
    {
        self.beeped = true;
    }

    /// Returns and clears whether a beep has been recorded since the last take.
    pub fn take_beeped(&mut self) -> (beeped: bool)
        requires
            old(self).wf(),
        ensures
            final(self).wf(),
            beeped == old(self).beeped,
            *final(self) == (Editor { beeped: false, ..*old(self) }),
    {
        let beeped: bool = self.beeped;
        self.beeped = false;
        beeped
    }

    /// Allocates a unique channel id.
    pub fn allocate_channel_id(&mut self) -> (id: u64)
        requires
            old(self).wf(),
            old(self).channel_ids.upcoming() < u64::MAX,
        ensures
            final(self).wf(),
            id == old(self).channel_ids.upcoming(),
            final(self).channel_ids.upcoming() == old(self).channel_ids.upcoming() + 1,
            *final(self) == (Editor { channel_ids: final(self).channel_ids, ..*old(self) }),
    {
        self.channel_ids.allocate()
    }

    /// Selects a window highlight namespace.
    ///
    /// # Errors
    ///
    /// Those of [`Editor::locate_window`].
    pub fn set_window_highlight_namespace(&mut self, window: WinHandle, namespace: i64) -> (result:
        Result<(), crate::errors::EditorError>)
        requires
            old(self).wf(),
        ensures
            final(self).wf(),
            match old(self).window_request(window) {
                Ok(at) => {
                    &&& result is Ok
                    &&& final(self).windows@ == old(self).windows@.update(
                        at,
                        WindowEntry { highlight_namespace: namespace, ..old(self).windows@[at] },
                    )
                    &&& *final(self) == (Editor { windows: final(self).windows, ..*old(self) })
                },
                Err(error) => result is Err && result->Err_0 == error && *final(self)
                    == *old(self),
            },
    {
        match self.locate_window(window) {
            Ok(at) => {
                self.windows[at].highlight_namespace = namespace;
                proof {
                    assert(old(self).windows@[at as int].area.text_height >= 1);
                    crate::editor::lemma_tables_kept(*old(self), *self);
                }
                Ok(())
            },
            Err(error) => Err(error),
        }
    }
}

/// The views of match items.
pub open spec fn matches_view(items: Seq<MatchItem>) -> Seq<crate::window::MatchItemView> {
    items.map_values(|item: MatchItem| item@)
}

/// Whether an item has another id.
pub open spec fn has_other_id(id: i64) -> spec_fn(MatchItem) -> bool {
    |item: MatchItem| item.id != id
}

/// A window got a match item under `id`: the item's own, or the window's next
/// one if it has none. An own id moves the next one a hundred past it.
pub open spec fn adds_match(
    before: WindowEntry,
    after: WindowEntry,
    item: MatchItem,
    id: i64,
) -> bool {
    &&& id == (if item.id < 0 {
        before.next_match_id
    } else {
        item.id
    })
    &&& after.next_match_id == (if item.id < 0 {
        before.next_match_id + 1
    } else if before.next_match_id < item.id + 100 {
        item.id + 100
    } else {
        before.next_match_id as int
    })
    &&& after.matches@ == before.matches@.push(MatchItem { id, ..item })
    &&& after == (WindowEntry {
        matches: after.matches,
        next_match_id: after.next_match_id,
        ..before
    })
}

/// The next id of a window's matches is past every id that they have.
pub open spec fn next_id_is_free(entry: WindowEntry) -> bool {
    forall|i: int|
        0 <= i < entry.matches@.len() ==> (#[trigger] entry.matches@[i]).id < entry.next_match_id
}

/// A match that is given an id gets one that no match of the window has, and the
/// next id stays free whatever is added.
pub proof fn law_assigned_match_id_is_new(
    before: WindowEntry,
    after: WindowEntry,
    item: MatchItem,
    id: i64,
)
    requires
        next_id_is_free(before),
        adds_match(before, after, item, id),
    ensures
        next_id_is_free(after),
        item.id < 0 ==> forall|i: int|
            0 <= i < before.matches@.len() ==> (#[trigger] before.matches@[i]).id != id,
{
    assert forall|i: int| 0 <= i < after.matches@.len() implies (
    #[trigger] after.matches@[i]).id < after.next_match_id by {
        if i < before.matches@.len() {
            assert(after.matches@[i] == before.matches@[i]);
        }
    }
}

impl Editor {
    /// Adds a match item to a window and returns its id: its own, or the
    /// window's next one if it has none. An own id moves the next one a hundred
    /// past it. A window that is not live gets nothing, and the id is -1.
    pub fn add_match(&mut self, window: WinHandle, item: MatchItem) -> (id: i64)
        requires
            old(self).wf(),
            match old(self).window_request(window) {
                Ok(at) => if item.id < 0 {
                    old(self).windows@[at].next_match_id < i64::MAX
                } else {
                    item.id <= i64::MAX - 100
                },
                Err(_) => true,
            },
        ensures
            final(self).wf(),
            match old(self).window_request(window) {
                Ok(at) => {
                    let after = final(self).windows@[at];
                    &&& adds_match(old(self).windows@[at], after, item, id)
                    &&& final(self).windows@ == old(self).windows@.update(at, after)
                    &&& *final(self) == (Editor { windows: final(self).windows, ..*old(self) })
                },
                Err(_) => id == -1 && *final(self) == *old(self),
            },
    {
        match self.locate_window(window) {
            Ok(at) => {
                let next: i64 = self.windows[at].next_match_id;
                let id: i64 = if item.id < 0 {
                    self.windows[at].next_match_id = next + 1;
                    next
                } else {
                    if next < item.id + 100 {
                        self.windows[at].next_match_id = item.id + 100;
                    }
                    item.id
                };
                let mut item = item;
                item.id = id;
                self.windows[at].matches.push(item);
                proof {
                    assert(old(self).windows@[at as int].area.text_height >= 1);
                    crate::editor::lemma_tables_kept(*old(self), *self);
                    assert(self.windows@ =~= old(self).windows@.update(
                        at as int,
                        self.windows@[at as int],
                    ));
                }
                id
            },
            Err(_) => -1,
        }
    }

    /// Deletes the match items with an id from a window. Returns whether there
    /// was one.
    pub fn delete_match(&mut self, window: WinHandle, id: i64) -> (found: bool)
        requires
            old(self).wf(),
        ensures
            final(self).wf(),
            match old(self).window_request(window) {
                Ok(at) => {
                    let entry = old(self).windows@[at];
                    let after = final(self).windows@[at];
                    let kept = matches_view(entry.matches@.filter(has_other_id(id)));
                    &&& matches_view(after.matches@) == kept
                    &&& found == (kept.len() < entry.matches@.len())
                    &&& after == (WindowEntry { matches: after.matches, ..entry })
                    &&& final(self).windows@ == old(self).windows@.update(at, after)
                    &&& *final(self) == (Editor { windows: final(self).windows, ..*old(self) })
                },
                Err(_) => !found && *final(self) == *old(self),
            },
    {
        match self.locate_window(window) {
            Ok(at) => {
                let before: usize = self.windows[at].matches.len();
                let kept = without_id(&self.windows[at].matches, id);
                let after: usize = kept.len();
                self.windows[at].matches = kept;
                proof {
                    assert(old(self).windows@[at as int].area.text_height >= 1);
                    crate::editor::lemma_tables_kept(*old(self), *self);
                    assert(matches_view(kept@).len() == kept@.len());
                }
                after < before
            },
            Err(_) => false,
        }
    }

    /// Clears all match items from a window.
    pub fn clear_matches(&mut self, window: WinHandle)
        requires
            old(self).wf(),
        ensures
            final(self).wf(),
            match old(self).window_request(window) {
                Ok(at) => {
                    let after = final(self).windows@[at];
                    &&& after.matches@.len() == 0
                    &&& after == (WindowEntry { matches: after.matches, ..old(self).windows@[at] })
                    &&& final(self).windows@ == old(self).windows@.update(at, after)
                    &&& *final(self) == (Editor { windows: final(self).windows, ..*old(self) })
                },
                Err(_) => *final(self) == *old(self),
            },
    {
        if let Ok(at) = self.locate_window(window) {
            self.windows[at].matches = Vec::new();
            proof {
                assert(old(self).windows@[at as int].area.text_height >= 1);
                crate::editor::lemma_tables_kept(*old(self), *self);
            }
        }
    }

    /// Returns the match items of a window; none for one that is not live.
    #[must_use]
    pub fn get_matches(&self, window: WinHandle) -> (items: Vec<MatchItem>)
        requires
            self.wf(),
        ensures
            matches_view(items@) == (match self.window_request(window) {
                Ok(at) => matches_view(self.windows@[at].matches@),
                Err(_) => Seq::empty(),
            }),
    {
        let mut items: Vec<MatchItem> = Vec::new();
        match self.locate_window(window) {
            Ok(at) => {
                let held = &self.windows[at].matches;
                let mut next: usize = 0;
                assert(matches_view(items@) =~= matches_view(held@.take(0)));
                while next < held.len()
                    invariant
                        next <= held@.len(),
                        matches_view(items@) == matches_view(held@.take(next as int)),
                    decreases held@.len() - next,
                {
                    let ghost so_far = matches_view(items@);
                    items.push(held[next].clone());
                    assert(matches_view(items@) =~= so_far.push(held@[next as int]@));
                    assert(held@.take(next + 1) =~= held@.take(next as int).push(
                        held@[next as int],
                    ));
                    next = next + 1;
                    assert(matches_view(items@) =~= matches_view(held@.take(next as int)));
                }
                assert(held@.take(next as int) =~= held@);
                items
            },
            Err(_) => {
                assert(matches_view(items@) =~= Seq::empty());
                items
            },
        }
    }

    /// The place of a named sign group.
    pub open spec fn sign_group_at(&self, name: Seq<char>, at: int) -> bool {
        &&& 0 <= at < self.sign_groups@.len()
        &&& self.sign_groups@[at].0@ == name
        &&& forall|i: int| 0 <= i < at ==> (#[trigger] self.sign_groups@[i]).0@ != name
    }

    /// There is no such sign group.
    pub open spec fn no_sign_group(&self, name: Seq<char>) -> bool {
        forall|i: int|
            0 <= i < self.sign_groups@.len() ==> (#[trigger] self.sign_groups@[i]).0@ != name
    }

    /// The namespace of a sign group that was used before.
    #[must_use]
    pub fn sign_group_if_placed(&self, name: &str) -> (namespace: Option<u32>)
        ensures
            match namespace {
                Some(namespace) => exists|at: int| #[trigger]
                    self.sign_group_at(name@, at) && namespace == self.sign_groups@[at].1,
                None => self.no_sign_group(name@),
            },
    {
        let wanted = crate::text::chars_of(name);
        let mut next: usize = 0;
        while next < self.sign_groups.len()
            invariant
                next <= self.sign_groups@.len(),
                wanted@ == name@,
                forall|i: int|
                    0 <= i < next ==> (#[trigger] self.sign_groups@[i]).0@ != name@,
            decreases self.sign_groups@.len() - next,
        {
            let chars = crate::text::chars_of(self.sign_groups[next].0.as_str());
            if crate::text::same_chars(chars.as_slice(), wanted.as_slice()) {
                assert(self.sign_group_at(name@, next as int));
                return Some(self.sign_groups[next].1);
            }
            next = next + 1;
        }
        None
    }

    /// A new sign group belongs at `at`: behind those whose names come before
    /// its own, and before the others.
    pub open spec fn sign_group_place(&self, name: Seq<char>, at: int) -> bool {
        &&& 0 <= at <= self.sign_groups@.len()
        &&& forall|i: int|
            0 <= i < at ==> crate::text::sorts_before(
                (#[trigger] self.sign_groups@[i]).0@,
                name,
            )
        &&& forall|i: int|
            at <= i < self.sign_groups@.len() ==> crate::text::sorts_before(
                name,
                (#[trigger] self.sign_groups@[i]).0@,
            )
    }

    /// Resolves the sign group `name` to its namespace; a new name gets the next
    /// one from `base` on, and its place in the order of the names.
    pub fn sign_group(&mut self, name: &str, base: u32) -> (namespace: u32)
        requires
            old(self).wf(),
        ensures
            final(self).wf(),
            if old(self).no_sign_group(name@) {
                &&& namespace == crate::splice::smaller(
                    base + old(self).sign_groups@.len(),
                    u32::MAX as int,
                )
                &&& exists|at: int| #[trigger]
                    old(self).sign_group_place(name@, at) && final(self).sign_groups@
                        == old(self).sign_groups@.insert(at, final(self).sign_groups@[at])
                        && final(self).sign_groups@[at].0@ == name@
                        && final(self).sign_groups@[at].1 == namespace
                &&& *final(self) == (Editor {
                    sign_groups: final(self).sign_groups,
                    ..*old(self)
                })
            } else {
                &&& exists|at: int| #[trigger]
                    old(self).sign_group_at(name@, at) && namespace == old(
                        self,
                    ).sign_groups@[at].1
                &&& *final(self) == *old(self)
            },
    {
        if let Some(namespace) = self.sign_group_if_placed(name) {
            return namespace;
        }
        let count: usize = self.sign_groups.len();
        let offset: u32 = if count as u64 <= u32::MAX as u64 {
            count as u32
        } else {
            u32::MAX
        };
        let namespace: u32 = base.saturating_add(offset);
        let wanted = crate::text::chars_of(name);
        let mut at: usize = 0;
        while at < self.sign_groups.len() && crate::text::comes_before(
            crate::text::chars_of(self.sign_groups[at].0.as_str()).as_slice(),
            wanted.as_slice(),
        )
            invariant
                at <= self.sign_groups@.len(),
                wanted@ == name@,
                forall|i: int|
                    0 <= i < at ==> crate::text::sorts_before(
                        (#[trigger] self.sign_groups@[i]).0@,
                        name@,
                    ),
            ensures
                at <= self.sign_groups@.len(),
                forall|i: int|
                    0 <= i < at ==> crate::text::sorts_before(
                        (#[trigger] self.sign_groups@[i]).0@,
                        name@,
                    ),
                at < self.sign_groups@.len() ==> !crate::text::sorts_before(
                    self.sign_groups@[at as int].0@,
                    name@,
                ),
            decreases self.sign_groups@.len() - at,
        {
            at = at + 1;
        }
        let ghost before = self.sign_groups@;
        self.sign_groups.insert(at, (name.to_owned(), namespace));
        proof {
            lemma_group_fits(before, name@, at as int);
            assert(old(self).sign_group_place(name@, at as int));
            assert forall|i: int, j: int|
                0 <= i < j < self.sign_groups@.len() implies crate::text::sorts_before(
                (#[trigger] self.sign_groups@[i]).0@,
                (#[trigger] self.sign_groups@[j]).0@,
            ) by {
                let p = at as int;
                if i != p {
                    let from = if i < p { i } else { i - 1 };
                    assert(self.sign_groups@[i] == before[from]);
                }
                if j != p {
                    let to = if j < p { j } else { j - 1 };
                    assert(self.sign_groups@[j] == before[to]);
                }
            }
        }
        namespace
    }
}

/// Behind a name's place in the order all names come after it.
proof fn lemma_group_fits(groups: Seq<(String, u32)>, name: Seq<char>, at: int)
    requires
        crate::editor::groups_sound(groups),
        0 <= at <= groups.len(),
        forall|i: int| 0 <= i < groups.len() ==> (#[trigger] groups[i]).0@ != name,
        at < groups.len() ==> !crate::text::sorts_before(groups[at].0@, name),
    ensures
        forall|i: int|
            at <= i < groups.len() ==> crate::text::sorts_before(name, (#[trigger] groups[i]).0@),
{
    assert forall|i: int| at <= i < groups.len() implies crate::text::sorts_before(
        name,
        (#[trigger] groups[i]).0@,
    ) by {
        crate::text::lemma_sorts_total(name, groups[at].0@);
        if i > at {
            crate::text::lemma_sorts_transitive(name, groups[at].0@, groups[i].0@);
        }
    }
}

/// The items with another id.
fn without_id(items: &Vec<MatchItem>, id: i64) -> (kept: Vec<MatchItem>)
    ensures
        matches_view(kept@) == matches_view(items@.filter(has_other_id(id))),
{
    let mut kept: Vec<MatchItem> = Vec::new();
    let mut next: usize = 0;
    reveal(Seq::filter);
    assert(matches_view(kept@) =~= matches_view(items@.take(0).filter(has_other_id(id))));
    while next < items.len()
        invariant
            next <= items@.len(),
            matches_view(kept@) == matches_view(
                items@.take(next as int).filter(has_other_id(id)),
            ),
        decreases items@.len() - next,
    {
        let ghost so_far = matches_view(kept@);
        let ghost here = items@.take(next + 1);
        proof {
            reveal(Seq::filter);
            assert(here.drop_last() =~= items@.take(next as int));
            assert(here.last() == items@[next as int]);
        }
        if items[next].id != id {
            kept.push(items[next].clone());
            assert(matches_view(kept@) =~= so_far.push(items@[next as int]@));
            assert(matches_view(here.filter(has_other_id(id))) =~= matches_view(
                items@.take(next as int).filter(has_other_id(id)),
            ).push(items@[next as int]@));
        }
        next = next + 1;
    }
    assert(items@.take(next as int) =~= items@);
    kept
}

} // verus!
