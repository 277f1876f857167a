//! The message sink: messages waiting for a consumer, where each of them goes,
//! and the identities by which later ones replace earlier ones.

use vstd::prelude::*;

use crate::types::{BufHandle, OxStr, WinHandle};

verus! {

/// A value of the remote interface.
#[derive(Debug, PartialEq, Eq)]
pub enum Object {
    /// No value.
    Nil,
    /// A boolean.
    Boolean(bool),
    /// An integer.
    Integer(i64),
    /// A byte string.
    String(OxStr),
    /// An array.
    Array(Vec<Object>),
    /// A dictionary, entries in insertion order.
    Dict(Vec<(OxStr, Object)>),
}

/// What an [`Object`] holds.
#[verifier::ext_equal]
pub enum ObjectView {
    Nil,
    Boolean(bool),
    Integer(i64),
    String(Seq<u8>),
    Array(Seq<ObjectView>),
    Dict(Seq<(Seq<u8>, ObjectView)>),
}

impl Object {
    /// What this value holds.
    pub open spec fn held(self) -> ObjectView
        decreases self,
    {
        match self {
            Object::Nil => ObjectView::Nil,
            Object::Boolean(value) => ObjectView::Boolean(value),
            Object::Integer(value) => ObjectView::Integer(value),
            Object::String(value) => ObjectView::String(value@),
            Object::Array(items) => ObjectView::Array(
                Seq::new(
                    items@.len(),
                    |i: int|
                        if 0 <= i < items@.len() {
                            items@[i].held()
                        } else {
                            ObjectView::Nil
                        },
                ),
            ),
            Object::Dict(entries) => ObjectView::Dict(
                Seq::new(
                    entries@.len(),
                    |i: int|
                        if 0 <= i < entries@.len() {
                            (entries@[i].0@, entries@[i].1.held())
                        } else {
                            (Seq::empty(), ObjectView::Nil)
                        },
                ),
            ),
        }
    }

    /// Whether two values hold the same.
    #[must_use]
    pub fn same(&self, other: &Object) -> (same: bool)
        ensures
            same == (self@ == other@),
        decreases self,
    {
        match (self, other) {
            (Object::Nil, Object::Nil) => true,
            (Object::Boolean(one), Object::Boolean(two)) => *one == *two,
            (Object::Integer(one), Object::Integer(two)) => *one == *two,
            (Object::String(one), Object::String(two)) => one.same(two),
            (Object::Array(one), Object::Array(two)) => {
                let ghost (left, right) = (self@->Array_0, other@->Array_0);
                if one.len() != two.len() {
                    assert(left.len() != right.len());
                    return false;
                }
                let mut next: usize = 0;
                while next < one.len()
                    invariant
                        one@.len() == two@.len(),
                        next <= one@.len(),
                        left == self@->Array_0,
                        right == other@->Array_0,
                        *self == Object::Array(*one),
                        *other == Object::Array(*two),
                        forall|i: int| 0 <= i < next ==> (#[trigger] left[i]) == right[i],
                        decreases_to!(self => one@),
                    decreases one@.len() - next,
                {
                    assert(decreases_to!(one@ => one@[next as int]));
                    assert(left[next as int] == one@[next as int]@);
                    assert(right[next as int] == two@[next as int]@);
                    if !one[next].same(&two[next]) {
                        return false;
                    }
                    next = next + 1;
                }
                assert(left =~= right);
                true
            },
            (Object::Dict(one), Object::Dict(two)) => {
                let ghost (left, right) = (self@->Dict_0, other@->Dict_0);
                if one.len() != two.len() {
                    assert(left.len() != right.len());
                    return false;
                }
                let mut next: usize = 0;
                while next < one.len()
                    invariant
                        one@.len() == two@.len(),
                        next <= one@.len(),
                        left == self@->Dict_0,
                        right == other@->Dict_0,
                        *self == Object::Dict(*one),
                        *other == Object::Dict(*two),
                        forall|i: int| 0 <= i < next ==> (#[trigger] left[i]) == right[i],
                        decreases_to!(self => one@),
                    decreases one@.len() - next,
                {
                    assert(decreases_to!(one@ => one@[next as int]));
                    assert(left[next as int] == (one@[next as int].0@, one@[next as int].1@));
                    assert(right[next as int] == (two@[next as int].0@, two@[next as int].1@));
                    if !one[next].0.same(&two[next].0) || !one[next].1.same(&two[next].1) {
                        return false;
                    }
                    next = next + 1;
                }
                assert(left =~= right);
                true
            },
            _ => false,
        }
    }
}

impl View for Object {
    type V = ObjectView;

    open spec fn view(&self) -> ObjectView {
        self.held()
    }
}

impl Clone for Object {
    fn clone(&self) -> (copy: Self)
        ensures
            copy@ == self@,
        decreases self,
    {
        match self {
            Object::Nil => Object::Nil,
            Object::Boolean(value) => Object::Boolean(*value),
            Object::Integer(value) => Object::Integer(*value),
            Object::String(value) => Object::String(value.clone()),
            Object::Array(items) => {
                let mut copies: Vec<Object> = Vec::new();
                let mut next: usize = 0;
                while next < items.len()
                    invariant
                        next <= items@.len(),
                        copies@.len() == next,
                        forall|i: int| 0 <= i < next ==> (#[trigger] copies@[i])@ == items@[i]@,
                        decreases_to!(self => items@),
                    decreases items@.len() - next,
                {
                    assert(decreases_to!(items@ => items@[next as int]));
                    copies.push(items[next].clone());
                    next = next + 1;
                }
                let copy = Object::Array(copies);
                assert(copy@->Array_0 =~= self@->Array_0);
                copy
            },
            Object::Dict(entries) => {
                let mut copies: Vec<(OxStr, Object)> = Vec::new();
                let mut next: usize = 0;
                while next < entries.len()
                    invariant
                        next <= entries@.len(),
                        copies@.len() == next,
                        forall|i: int|
                            0 <= i < next ==> (#[trigger] copies@[i]).0@ == entries@[i].0@
                                && copies@[i].1@ == entries@[i].1@,
                        decreases_to!(self => entries@),
                    decreases entries@.len() - next,
                {
                    assert(decreases_to!(entries@ => entries@[next as int]));
                    let key = entries[next].0.clone();
                    let value = entries[next].1.clone();
                    copies.push((key, value));
                    next = next + 1;
                }
                let copy = Object::Dict(copies);
                assert(copy@->Dict_0 =~= self@->Dict_0);
                copy
            },
        }
    }
}

/// Classification retained with a message submitted to the editor sink.
#[derive(Clone, Copy, Debug, Eq, PartialEq, Structural)]
pub enum MessageKind {
    /// Error output.
    Error,
    /// General echo output.
    Echo,
}

/// Where the message sink sends one message's text.
#[derive(Clone, Copy, Debug, Eq, PartialEq, Structural)]
pub enum MessageDestination {
    /// Written to standard error.
    Stderr,
    /// Written to standard output.
    Stdout,
    /// Handed to an attached UI.
    Ui,
    /// Dropped: batch mode with `'verbose'` zero.
    Suppressed,
}

/// Process-level state that decides where message output goes.
#[derive(Clone, Copy, Debug, Eq, PartialEq, Structural)]
pub struct MessageRouting {
    /// A remote peer owns the message stream.
    pub embedded: bool,
    /// Batch mode; it suppresses output while `'verbose'` is zero.
    pub silent: bool,
    /// A UI has attached.
    pub ui_attached: bool,
}

impl Default for MessageRouting {
    fn default() -> (routing: Self)
        ensures
            routing == (MessageRouting { embedded: false, silent: false, ui_attached: false }),
    {
        MessageRouting { embedded: false, silent: false, ui_attached: false }
    }
}

/// Where a message goes: to a peer or UI if there is one, nowhere in batch mode
/// while `'verbose'` is zero, else to standard error.
pub open spec fn destination_for(routing: MessageRouting, verbose: i64) -> MessageDestination {
    if routing.embedded || routing.ui_attached {
        MessageDestination::Ui
    } else if routing.silent && verbose == 0 {
        MessageDestination::Suppressed
    } else {
        MessageDestination::Stderr
    }
}

/// A message retained until a UI or server consumes it.
#[derive(Debug, PartialEq, Eq)]
pub struct Message {
    /// Message category.
    pub kind: MessageKind,
    /// Message payload.
    pub content: Object,
    /// Whether the message should enter message history.
    pub history: bool,
    /// Whether captured output starts this payload on a new line.
    pub leading_newline: bool,
}

/// What a [`Message`] holds.
#[verifier::ext_equal]
pub struct MessageView {
    pub kind: MessageKind,
    pub content: ObjectView,
    pub history: bool,
    pub leading_newline: bool,
}

impl View for Message {
    type V = MessageView;

    open spec fn view(&self) -> MessageView {
        MessageView {
            kind: self.kind,
            content: self.content@,
            history: self.history,
            leading_newline: self.leading_newline,
        }
    }
}

impl Clone for Message {
    fn clone(&self) -> (copy: Self)
        ensures
            copy@ == self@,
    {
        Message {
            kind: self.kind,
            content: self.content.clone(),
            history: self.history,
            leading_newline: self.leading_newline,
        }
    }
}

/// Identity retained beside a message: the kind that a UI shows it as, and the
/// id by which a later message replaces it.
#[derive(Debug, PartialEq, Eq)]
pub struct MessageIdentity {
    /// Kind that the message is shown as.
    pub kind: OxStr,
    /// Id returned by the producing call; [`Object::Nil`] when none.
    pub id: Object,
}

/// What a [`MessageIdentity`] holds.
#[verifier::ext_equal]
pub struct IdentityView {
    pub kind: Seq<u8>,
    pub id: ObjectView,
}

impl View for MessageIdentity {
    type V = IdentityView;

    open spec fn view(&self) -> IdentityView {
        IdentityView { kind: self.kind@, id: self.id@ }
    }
}

impl Clone for MessageIdentity {
    fn clone(&self) -> (copy: Self)
        ensures
            copy@ == self@,
    {
        MessageIdentity { kind: self.kind.clone(), id: self.id.clone() }
    }
}

/// The identity of a message that carries none of its own: its severity decides
/// the kind.
pub open spec fn plain_identity(kind: MessageKind) -> IdentityView {
    IdentityView {
        kind: vstd::utf8::encode_utf8(
            if kind == MessageKind::Error {
                "emsg"@
            } else {
                "echo"@
            },
        ),
        id: ObjectView::Nil,
    }
}

impl MessageIdentity {
    /// Identity for a message produced without one: the severity decides the
    /// kind and no id is attached.
    #[must_use]
    pub fn of(kind: MessageKind) -> (identity: Self)
        ensures
            identity@ == plain_identity(kind),
    {
        let name = if kind == MessageKind::Error {
            OxStr::from_text("emsg")
        } else {
            OxStr::from_text("echo")
        };
        Self { kind: name, id: Object::Nil }
    }
}

/// One validated redraw request.
#[derive(Clone, Copy, Debug, Eq, PartialEq)]
pub struct RedrawRequest {
    /// Targeted window, or `None` when the request is unscoped.
    pub window: Option<WinHandle>,
    /// Targeted buffer, or `None`.
    pub buffer: Option<BufHandle>,
    /// `Some(false)` invalidates, `Some(true)` redraws changed lines only.
    pub valid: Option<bool>,
    /// First and last line: zero-based, end-exclusive, `-1` for the last line.
    pub range: Option<(i64, i64)>,
    /// Paint pending updates in this pass.
    pub flush: bool,
    /// Update the cursor position on screen.
    pub cursor: bool,
    /// Redraw the tabline.
    pub tabline: bool,
    /// Redraw the status line.
    pub statusline: bool,
    /// Redraw the status column.
    pub statuscolumn: bool,
    /// Redraw the winbar.
    pub winbar: bool,
}

/// One retained message with what the sink knows of it.
#[verifier::ext_equal]
pub struct SinkEntry {
    pub message: MessageView,
    pub destination: MessageDestination,
    pub identity: IdentityView,
}

/// A message put in place of an earlier one, with its identity.
#[verifier::ext_equal]
pub struct ReplacementView {
    pub message: MessageView,
    pub identity: IdentityView,
}

/// Messages waiting for a UI or server consumer.
///
/// A message stays retained even when its destination is
/// [`MessageDestination::Suppressed`], so that output capture sees it.
#[derive(Debug, PartialEq, Eq)]
pub struct MessageSink {
    messages: Vec<Message>,
    destinations: Vec<MessageDestination>,
    identities: Vec<MessageIdentity>,
    pending: Option<MessageIdentity>,
    replacements: Vec<(Message, MessageIdentity)>,
}

/// The sink as contracts speak of it.
#[verifier::ext_equal]
pub struct MessageSinkView {
    pub entries: Seq<SinkEntry>,
    pub pending: Option<IdentityView>,
    pub replacements: Seq<ReplacementView>,
}

impl View for MessageSink {
    type V = MessageSinkView;

    closed spec fn view(&self) -> MessageSinkView {
        MessageSinkView {
            entries: Seq::new(
                self.messages@.len(),
                |i: int|
                    SinkEntry {
                        message: self.messages@[i]@,
                        destination: self.destinations@[i],
                        identity: self.identities@[i]@,
                    },
            ),
            pending: match self.pending {
                Some(identity) => Some(identity@),
                None => None,
            },
            replacements: self.replacements@.map_values(
                |pair: (Message, MessageIdentity)|
                    ReplacementView { message: pair.0@, identity: pair.1@ },
            ),
        }
    }
}

/// The last entry with id `id`.
pub open spec fn last_with_id(entries: Seq<SinkEntry>, id: ObjectView) -> Option<int>
    decreases entries.len(),
{
    if entries.len() == 0 {
        None
    } else if entries.last().identity.id == id {
        Some(entries.len() - 1)
    } else {
        last_with_id(entries.drop_last(), id)
    }
}

impl MessageSinkView {
    /// The identity that the next message of `kind` gets.
    pub open spec fn next_identity(self, kind: MessageKind) -> IdentityView {
        match self.pending {
            Some(identity) => identity,
            None => plain_identity(kind),
        }
    }

    /// The sink after `message` was pushed. A message whose id was seen before
    /// takes the place of the last one with that id, and a UI is told; any
    /// other is appended. The armed identity is used up.
    pub open spec fn pushed(self, message: MessageView, destination: MessageDestination) -> Self {
        let identity = self.next_identity(message.kind);
        let entry = SinkEntry { message, destination, identity };
        let place = last_with_id(self.entries, identity.id);
        if identity.id != ObjectView::Nil && place is Some {
            MessageSinkView {
                entries: self.entries.update(place->0, entry),
                pending: None,
                replacements: if destination == MessageDestination::Ui {
                    self.replacements.push(ReplacementView { message, identity })
                } else {
                    self.replacements
                },
            }
        } else {
            MessageSinkView { entries: self.entries.push(entry), pending: None, ..self }
        }
    }

    /// The sink after informative output was pushed: always appended, to the UI
    /// if there is one and otherwise to standard output.
    pub open spec fn pushed_info(self, message: MessageView, destination: MessageDestination) -> Self {
        MessageSinkView {
            entries: self.entries.push(
                SinkEntry {
                    message,
                    destination: if destination == MessageDestination::Ui {
                        MessageDestination::Ui
                    } else {
                        MessageDestination::Stdout
                    },
                    identity: plain_identity(message.kind),
                },
            ),
            ..self
        }
    }

    /// The sink without the messages at or after `len`.
    pub open spec fn truncated(self, len: int) -> Self {
        MessageSinkView {
            entries: if len < self.entries.len() {
                self.entries.take(len)
            } else {
                self.entries
            },
            ..self
        }
    }

    /// The sink with the identity of entry `at` set.
    pub open spec fn stamped(self, at: int, identity: IdentityView) -> Self {
        if at < self.entries.len() {
            MessageSinkView {
                entries: self.entries.update(at, SinkEntry { identity, ..self.entries[at] }),
                ..self
            }
        } else {
            self
        }
    }
}

impl MessageSink {
    /// Every message has a destination and an identity.
    pub closed spec fn wf(&self) -> bool {
        &&& self.destinations@.len() == self.messages@.len()
        &&& self.identities@.len() == self.messages@.len()
    }

    /// An empty sink.
    #[must_use]
    pub fn new() -> (sink: Self)
        ensures
            sink.wf(),
            sink@ == (MessageSinkView {
                entries: Seq::empty(),
                pending: None,
                replacements: Seq::empty(),
            }),
    {
        let sink = MessageSink {
            messages: Vec::new(),
            destinations: Vec::new(),
            identities: Vec::new(),
            pending: None,
            replacements: Vec::new(),
        };
        assert(sink@.entries =~= Seq::empty());
        assert(sink@.replacements =~= Seq::empty());
        sink
    }

    /// The retained messages.
    #[must_use]
    pub fn messages(&self) -> (messages: &[Message])
        requires
            self.wf(),
        ensures
            messages@.len() == self@.entries.len(),
            forall|i: int|
                0 <= i < messages@.len() ==> (#[trigger] messages@[i])@
                    == self@.entries[i].message,
    {
        self.messages.as_slice()
    }

    /// The destination of each retained message.
    #[must_use]
    pub fn destinations(&self) -> (destinations: &[MessageDestination])
        requires
            self.wf(),
        ensures
            destinations@.len() == self@.entries.len(),
            forall|i: int|
                0 <= i < destinations@.len() ==> (#[trigger] destinations@[i])
                    == self@.entries[i].destination,
    {
        self.destinations.as_slice()
    }

    /// The identity of each retained message.
    #[must_use]
    pub fn identities(&self) -> (identities: &[MessageIdentity])
        requires
            self.wf(),
        ensures
            identities@.len() == self@.entries.len(),
            forall|i: int|
                0 <= i < identities@.len() ==> (#[trigger] identities@[i])@
                    == self@.entries[i].identity,
    {
        self.identities.as_slice()
    }

    /// The last message with id `id`.
    fn find_last(&self, id: &Object) -> (place: Option<usize>)
        requires
            self.wf(),
        ensures
            place is Some == last_with_id(self@.entries, id@) is Some,
            place is Some ==> place->0 == last_with_id(self@.entries, id@)->0 && place->0
                < self@.entries.len(),
    {
        let mut n: usize = self.identities.len();
        assert(self@.entries.take(n as int) =~= self@.entries);
        while n > 0
            invariant
                self.wf(),
                n <= self.identities@.len(),
                last_with_id(self@.entries, id@) == last_with_id(
                    self@.entries.take(n as int),
                    id@,
                ),
            decreases n,
        {
            assert(self@.entries.take(n as int).last() == self@.entries[n - 1]);
            assert(self@.entries.take(n as int).drop_last() =~= self@.entries.take(n - 1));
            if self.identities[n - 1].id.same(id) {
                return Some(n - 1);
            }
            n = n - 1;
        }
        None
    }

    /// Stores a message with its destination. See [`MessageSinkView::pushed`].
    pub fn push(&mut self, message: Message, destination: MessageDestination)
        requires
            old(self).wf(),
        ensures
            final(self).wf(),
            final(self)@ == old(self)@.pushed(message@, destination),
    {
        let ghost before = self@;
        let identity = match self.pending.take() {
            Some(identity) => identity,
            None => MessageIdentity::of(message.kind),
        };
        assert(identity@ == before.next_identity(message@.kind));
        assert(self@.entries =~= before.entries);
        let ghost entry = SinkEntry { message: message@, destination, identity: identity@ };
        if !identity.id.same(&Object::Nil) {
            if let Some(place) = self.find_last(&identity.id) {
                let shown = message.clone();
                let shown_as = identity.clone();
                self.messages.set(place, message);
                self.destinations.set(place, destination);
                self.identities.set(place, identity);
                assert(self@.entries =~= before.entries.update(place as int, entry));
                if destination == MessageDestination::Ui {
                    let ghost listed = self@.replacements;
                    self.replacements.push((shown, shown_as));
                    assert(self@.replacements =~= listed.push(
                        ReplacementView { message: entry.message, identity: entry.identity },
                    ));
                    assert(self@.entries =~= before.entries.update(place as int, entry));
                }
                return;
            }
        }
        self.messages.push(message);
        self.destinations.push(destination);
        self.identities.push(identity);
        assert(self@.entries =~= before.entries.push(entry));
    }

    /// Stores informative output. See [`MessageSinkView::pushed_info`].
    pub fn push_info(&mut self, message: Message, destination: MessageDestination)
        requires
            old(self).wf(),
        ensures
            final(self).wf(),
            final(self)@ == old(self)@.pushed_info(message@, destination),
    {
        let ghost before = self@;
        let shown = match destination {
            MessageDestination::Ui => MessageDestination::Ui,
            _ => MessageDestination::Stdout,
        };
        let identity = MessageIdentity::of(message.kind);
        let ghost entry = SinkEntry {
            message: message@,
            destination: shown,
            identity: identity@,
        };
        self.messages.push(message);
        self.destinations.push(shown);
        self.identities.push(identity);
        assert(self@.entries =~= before.entries.push(entry));
    }

    /// Discards messages appended at or after `len`.
    pub fn truncate(&mut self, len: usize)
        requires
            old(self).wf(),
        ensures
            final(self).wf(),
            final(self)@ == old(self)@.truncated(len as int),
    {
        let ghost before = self@;
        self.messages.truncate(len);
        self.destinations.truncate(len);
        self.identities.truncate(len);
        assert(self@.entries =~= before.truncated(len as int).entries);
    }

    /// Arms the identity that the next message consumes.
    pub fn arm(&mut self, kind: OxStr, id: Object)
        requires
            old(self).wf(),
        ensures
            final(self).wf(),
            final(self)@ == (MessageSinkView {
                pending: Some(IdentityView { kind: kind@, id: id@ }),
                ..old(self)@
            }),
    {
        let ghost before = self@;
        self.pending = Some(MessageIdentity { kind, id });
        assert(self@.entries =~= before.entries);
    }

    /// Drops an armed identity.
    pub fn disarm(&mut self)
        requires
            old(self).wf(),
        ensures
            final(self).wf(),
            final(self)@ == (MessageSinkView { pending: None, ..old(self)@ }),
    {
        let ghost before = self@;
        self.pending = None;
        assert(self@.entries =~= before.entries);
    }

    /// Stamps an identity onto the message at `at`.
    pub fn stamp(&mut self, at: usize, kind: OxStr, id: Object)
        requires
            old(self).wf(),
        ensures
            final(self).wf(),
            final(self)@ == old(self)@.stamped(at as int, IdentityView { kind: kind@, id: id@ }),
    {
        let ghost before = self@;
        if at < self.identities.len() {
            let ghost identity = IdentityView { kind: kind@, id: id@ };
            self.identities.set(at, MessageIdentity { kind, id });
            assert(self@.entries =~= before.stamped(at as int, identity).entries);
        }
    }

    /// Takes the replacements recorded so far.
    pub fn take_replacements(&mut self) -> (taken: Vec<(Message, MessageIdentity)>)
        requires
            old(self).wf(),
        ensures
            final(self).wf(),
            final(self)@ == (MessageSinkView { replacements: Seq::empty(), ..old(self)@ }),
            taken@.map_values(
                |pair: (Message, MessageIdentity)|
                    ReplacementView { message: pair.0@, identity: pair.1@ },
            ) == old(self)@.replacements,
    {
        let ghost before = self@;
        let mut taken: Vec<(Message, MessageIdentity)> = Vec::new();
        std::mem::swap(&mut self.replacements, &mut taken);
        assert(self@.entries =~= before.entries);
        assert(self@.replacements =~= Seq::empty());
        taken
    }
}

/// A message whose id a retained message already has replaces it: the sink does
/// not grow, and every other message stays as it was.
pub proof fn law_same_id_replaces(
    sink: MessageSinkView,
    message: MessageView,
    destination: MessageDestination,
)
    requires
        sink.next_identity(message.kind).id != ObjectView::Nil,
        last_with_id(sink.entries, sink.next_identity(message.kind).id) is Some,
    ensures
        ({
            let after = sink.pushed(message, destination);
            let place = last_with_id(sink.entries, sink.next_identity(message.kind).id)->0;
            &&& after.entries.len() == sink.entries.len()
            &&& 0 <= place < sink.entries.len()
            &&& after.entries[place].message == message
            &&& forall|i: int|
                0 <= i < sink.entries.len() && i != place ==> (#[trigger] after.entries[i])
                    == sink.entries[i]
        }),
{
    lemma_last_with_id(sink.entries, sink.next_identity(message.kind).id);
}

/// A message with an id that no retained message has is appended.
pub proof fn law_new_id_appends(
    sink: MessageSinkView,
    message: MessageView,
    destination: MessageDestination,
)
    requires
        forall|i: int|
            0 <= i < sink.entries.len() ==> (#[trigger] sink.entries[i]).identity.id
                != sink.next_identity(message.kind).id,
    ensures
        ({
            let after = sink.pushed(message, destination);
            &&& after.entries.drop_last() == sink.entries
            &&& after.entries.last().message == message
            &&& after.pending is None
        }),
{
    lemma_last_with_id(sink.entries, sink.next_identity(message.kind).id);
    let after = sink.pushed(message, destination);
    assert(after.entries.drop_last() =~= sink.entries);
}

proof fn lemma_last_with_id(entries: Seq<SinkEntry>, id: ObjectView)
    ensures
        last_with_id(entries, id) is Some ==> {
            let place = last_with_id(entries, id)->0;
            0 <= place < entries.len() && entries[place].identity.id == id
        },
    decreases entries.len(),
{
    if entries.len() > 0 && entries.last().identity.id != id {
        lemma_last_with_id(entries.drop_last(), id);
    }
}

/// An armed identity is attached to exactly one message: pushing twice gives it
/// to the first alone.
pub proof fn law_armed_identity_is_used_once(
    sink: MessageSinkView,
    first: MessageView,
    second: MessageView,
    destination: MessageDestination,
)
    ensures
        sink.pushed(first, destination).next_identity(second.kind) == plain_identity(second.kind),
{
}

} // verus!
