//! Ordered decoration-provider registry and per-redraw aggregation.
//!
//! The registry holds callback handles only; it never runs a host callback.
//! Providers keep the order in which they were first installed. One redraw is
//! active at a time, and the decorations that providers add during it live
//! exactly as long as it does.

use std::marker::PhantomData;

use vstd::prelude::*;

verus! {

/// Errors that can occur in the decoration subsystem.
#[derive(Debug, Clone, Copy, PartialEq, Eq, Structural)]
pub enum DecorationError {
    /// A provider identifier is not registered.
    UnknownProvider,
    /// No further redraw identifier can be represented.
    RedrawIdExhausted,
    /// An operation required a redraw identifier but none is active.
    NoActiveRedraw,
    /// A redraw identifier does not match the active redraw.
    InvalidRedrawId,
}

impl DecorationError {
    /// The words that describe this error.
    pub open spec fn text(self) -> Seq<char> {
        match self {
            DecorationError::UnknownProvider => "unknown decoration provider"@,
            DecorationError::RedrawIdExhausted => "redraw identifier space exhausted"@,
            DecorationError::NoActiveRedraw => "no redraw is currently active"@,
            DecorationError::InvalidRedrawId
                => "redraw identifier does not match the active redraw"@,
        }
    }

    /// The error's message.
    #[must_use]
    pub fn message(&self) -> (text: String)
        ensures
            text@ == self.text(),
    {
        match self {
            DecorationError::UnknownProvider => "unknown decoration provider".to_owned(),
            DecorationError::RedrawIdExhausted => "redraw identifier space exhausted".to_owned(),
            DecorationError::NoActiveRedraw => "no redraw is currently active".to_owned(),
            DecorationError::InvalidRedrawId
                => "redraw identifier does not match the active redraw".to_owned(),
        }
    }
}

/// Zero-based, byte-oriented position inside a buffer.
#[derive(Clone, Copy, Debug, PartialEq, Eq, PartialOrd, Ord, Hash, Structural)]
pub struct DecorPos {
    /// Zero-based buffer row.
    pub row: u32,
    /// Zero-based byte column.
    pub col: u32,
}

impl DecorPos {
    /// Reading order: by row, then by column.
    pub open spec fn at_or_before(self, other: DecorPos) -> bool {
        self.row < other.row || (self.row == other.row && self.col <= other.col)
    }
}

impl Default for DecorPos {
    fn default() -> (pos: Self)
        ensures
            pos == (DecorPos { row: 0, col: 0 }),
    {
        DecorPos { row: 0, col: 0 }
    }
}

/// Inclusive range between two [`DecorPos`] values.
#[derive(Clone, Copy, Debug, PartialEq, Eq, Hash, Structural)]
pub struct DecorRange {
    /// Inclusive range start.
    pub start: DecorPos,
    /// Inclusive range end.
    pub end: DecorPos,
}

impl Default for DecorRange {
    fn default() -> (range: Self)
        ensures
            range.start == (DecorPos { row: 0, col: 0 }),
            range.end == (DecorPos { row: 0, col: 0 }),
    {
        DecorRange { start: DecorPos { row: 0, col: 0 }, end: DecorPos { row: 0, col: 0 } }
    }
}

impl DecorRange {
    /// Whether `row` lies inside the inclusive row span of this range.
    pub open spec fn covers_row(self, row: u32) -> bool {
        self.start.row <= row <= self.end.row
    }

    /// Returns `true` if `row` lies inside the inclusive row span of this range.
    #[must_use]
    pub fn contains_row(&self, row: u32) -> (inside: bool)
        ensures
            inside == self.covers_row(row),
    {
        self.start.row <= row && row <= self.end.row
    }

    /// Returns `true` if `pos` lies inside this inclusive range.
    #[must_use]
    pub fn contains(&self, pos: DecorPos) -> (inside: bool)
        ensures
            inside == (self.start.at_or_before(pos) && pos.at_or_before(self.end)),
    {
        if pos.row < self.start.row || pos.row > self.end.row {
            return false;
        }
        if pos.row == self.start.row && pos.col < self.start.col {
            return false;
        }
        if pos.row == self.end.row && pos.col > self.end.col {
            return false;
        }
        true
    }
}

/// Identifier of an extmark namespace.
#[derive(Clone, Copy, Debug, PartialEq, Eq, PartialOrd, Ord, Hash, Structural)]
pub struct NamespaceId(pub u32);

impl NamespaceId {
    /// The raw namespace number.
    #[must_use]
    pub fn get(self) -> (value: u32)
        ensures
            value == self.0,
    {
        self.0
    }
}

/// Opaque provider identifier.
///
/// One namespace owns at most one provider, so the identifier is derived from
/// the namespace.
#[derive(Clone, Copy, Debug, PartialEq, Eq, PartialOrd, Ord, Hash, Structural)]
pub struct ProviderId(pub u32);

impl Default for ProviderId {
    fn default() -> (id: Self)
        ensures
            id == ProviderId(0),
    {
        ProviderId(0)
    }
}

impl ProviderId {
    /// Creates the provider identity owned by `namespace`.
    #[must_use]
    pub fn from_namespace(namespace: NamespaceId) -> (id: Self)
        ensures
            id == ProviderId(namespace.0),
    {
        Self(namespace.get())
    }

    /// Creates a provider identifier from a raw value.
    #[must_use]
    pub fn new(value: u32) -> (id: Self)
        ensures
            id == ProviderId(value),
    {
        Self(value)
    }
}

/// Identifier of one active redraw transaction.
#[derive(Clone, Copy, Debug, PartialEq, Eq, PartialOrd, Ord, Hash, Structural)]
pub struct RedrawId(pub u64);

/// Opaque window identifier used to scope ephemeral decorations.
#[derive(Clone, Copy, Debug, PartialEq, Eq, PartialOrd, Ord, Hash, Structural)]
pub struct WindowId(pub u32);

impl Default for WindowId {
    fn default() -> (id: Self)
        ensures
            id == WindowId(0),
    {
        WindowId(0)
    }
}

/// Opaque buffer identifier used for `buf` phase plans.
#[derive(Clone, Copy, Debug, PartialEq, Eq, PartialOrd, Ord, Hash, Structural)]
pub struct BufferId(pub u32);

impl Default for BufferId {
    fn default() -> (id: Self)
        ensures
            id == BufferId(0),
    {
        BufferId(0)
    }
}

/// Marker type for the `start` provider callback.
#[derive(Clone, Copy, Debug, PartialEq, Eq, Hash, Structural)]
pub struct StartPhase;

/// Marker type for the `buf` provider callback.
#[derive(Clone, Copy, Debug, PartialEq, Eq, Hash, Structural)]
pub struct BufPhase;

/// Marker type for the `win` provider callback.
#[derive(Clone, Copy, Debug, PartialEq, Eq, Hash, Structural)]
pub struct WinPhase;

/// Marker type for the `line` provider callback.
#[derive(Clone, Copy, Debug, PartialEq, Eq, Hash, Structural)]
pub struct LinePhase;

/// Marker type for the `range` provider callback.
#[derive(Clone, Copy, Debug, PartialEq, Eq, Hash, Structural)]
pub struct RangePhase;

/// Marker type for the `end` provider callback.
#[derive(Clone, Copy, Debug, PartialEq, Eq, Hash, Structural)]
pub struct EndPhase;

/// Marker type for the `_on_hl_def` provider callback.
#[derive(Clone, Copy, Debug, PartialEq, Eq, Hash, Structural)]
pub struct HlDefPhase;

/// Marker type for the `_on_spell_nav` provider callback.
#[derive(Clone, Copy, Debug, PartialEq, Eq, Hash, Structural)]
pub struct SpellNavPhase;

/// Marker type for the `_on_conceal_line` provider callback.
#[derive(Clone, Copy, Debug, PartialEq, Eq, Hash, Structural)]
pub struct ConcealLinePhase;

/// A typed callback handle for one of the decoration-provider phases.
///
/// The type parameter makes `on_buf`, `on_win` and `on_line` (and the other
/// lifecycle hooks) distinguishable at the type level.
#[derive(Debug, PartialEq, Eq, Hash)]
pub struct CallbackId<T> {
    id: u64,
    _phase: PhantomData<T>,
}

impl<T> Clone for CallbackId<T> {
    fn clone(&self) -> (copy: Self)
        ensures
            copy == *self,
    {
        CallbackId { id: self.id, _phase: PhantomData }
    }
}

impl<T> Copy for CallbackId<T> {

}

impl<T> CallbackId<T> {
    /// The raw callback identifier.
    pub closed spec fn raw(self) -> u64 {
        self.id
    }

    /// Construct a typed callback handle from its raw identifier.
    #[must_use]
    pub fn new(id: u64) -> (callback: Self)
        ensures
            callback.raw() == id,
    {
        Self { id, _phase: PhantomData }
    }

    /// Return the raw callback identifier.
    #[must_use]
    pub fn get(&self) -> (id: u64)
        ensures
            id == self.raw(),
    {
        self.id
    }
}

/// Typed callback handle for the provider `start` phase.
pub type StartCallbackId = CallbackId<StartPhase>;

/// Typed callback handle for the provider `buf` phase.
pub type BufCallbackId = CallbackId<BufPhase>;

/// Typed callback handle for the provider `win` phase.
pub type WinCallbackId = CallbackId<WinPhase>;

/// Typed callback handle for the provider `line` phase.
pub type LineCallbackId = CallbackId<LinePhase>;

/// Typed callback handle for the provider `range` phase.
pub type RangeCallbackId = CallbackId<RangePhase>;

/// Typed callback handle for the provider `end` phase.
pub type EndCallbackId = CallbackId<EndPhase>;

/// Typed callback handle for the provider `_on_hl_def` hook.
pub type HlDefCallbackId = CallbackId<HlDefPhase>;

/// Typed callback handle for the provider `_on_spell_nav` hook.
pub type SpellNavCallbackId = CallbackId<SpellNavPhase>;

/// Typed callback handle for the provider `_on_conceal_line` hook.
pub type ConcealLineCallbackId = CallbackId<ConcealLinePhase>;

/// Lifecycle phase that produced an ephemeral decoration.
#[derive(Clone, Copy, Debug, PartialEq, Eq, Hash, Structural)]
pub enum CallbackPhase {
    /// Whole-redraw start callback.
    Start,
    /// Buffer callback.
    Buf,
    /// Window callback.
    Win,
    /// Per-line callback.
    Line,
    /// Character-range callback.
    Range,
    /// Whole-redraw end callback.
    End,
}

/// Virtual text anchor position.
#[derive(Clone, Copy, Debug, PartialEq, Eq, Hash, Structural)]
pub enum VirtTextPos {
    /// End of the buffer line.
    Eol,
    /// Right-aligned after end-of-line text.
    EolRightAlign,
    /// Inserted inline with buffer text.
    Inline,
    /// Drawn over buffer text.
    Overlay,
    /// Right-aligned in the window.
    RightAlign,
    /// At an explicit window column.
    WinCol,
}

impl Default for VirtTextPos {
    fn default() -> (pos: Self)
        ensures
            pos == VirtTextPos::Eol,
    {
        VirtTextPos::Eol
    }
}

/// A single chunk of virtual text with an optional highlight group.
#[derive(Debug, PartialEq, Eq, Hash)]
pub struct VirtTextChunk {
    /// Displayed text.
    pub text: String,
    /// Optional highlight group.
    pub hl_group: Option<String>,
}

impl Clone for VirtTextChunk {
    fn clone(&self) -> (copy: Self)
        ensures
            copy == *self,
    {
        VirtTextChunk { text: self.text.clone(), hl_group: self.hl_group.clone() }
    }
}

impl Default for VirtTextChunk {
    fn default() -> (chunk: Self)
        ensures
            chunk.text@ == Seq::<char>::empty(),
            chunk.hl_group is None,
    {
        VirtTextChunk { text: String::new(), hl_group: None }
    }
}

/// Virtual text rendered at a single anchor point.
#[derive(Debug, PartialEq, Eq, Hash)]
pub struct VirtualText {
    /// Anchor mode.
    pub pos: VirtTextPos,
    /// Explicit window column when applicable.
    pub col: Option<u32>,
    /// Ordered virtual-text chunks.
    pub chunks: Vec<VirtTextChunk>,
}

/// What a [`VirtualText`] holds.
#[verifier::ext_equal]
pub struct VirtualTextView {
    pub pos: VirtTextPos,
    pub col: Option<u32>,
    pub chunks: Seq<VirtTextChunk>,
}

impl View for VirtualText {
    type V = VirtualTextView;

    open spec fn view(&self) -> VirtualTextView {
        VirtualTextView { pos: self.pos, col: self.col, chunks: self.chunks@ }
    }
}

impl Clone for VirtualText {
    fn clone(&self) -> (copy: Self)
        ensures
            copy@ == self@,
    {
        let copy = VirtualText { pos: self.pos, col: self.col, chunks: self.chunks.clone() };
        assert(copy.chunks@ =~= self.chunks@);
        copy
    }
}

impl Default for VirtualText {
    fn default() -> (text: Self)
        ensures
            text@ == (VirtualTextView {
                pos: VirtTextPos::Eol,
                col: None,
                chunks: Seq::empty(),
            }),
    {
        VirtualText { pos: VirtTextPos::Eol, col: None, chunks: Vec::new() }
    }
}

/// Virtual lines rendered above or below a buffer row.
#[derive(Debug, PartialEq, Eq, Hash)]
pub struct VirtualLines {
    /// Ordered virtual lines and their chunks.
    pub lines: Vec<Vec<VirtTextChunk>>,
    /// Rendering flags retained for the UI layer.
    pub flags: u32,
}

/// What a [`VirtualLines`] holds.
#[verifier::ext_equal]
pub struct VirtualLinesView {
    pub lines: Seq<Seq<VirtTextChunk>>,
    pub flags: u32,
}

impl View for VirtualLines {
    type V = VirtualLinesView;

    open spec fn view(&self) -> VirtualLinesView {
        VirtualLinesView {
            lines: Seq::new(self.lines@.len(), |i: int| self.lines@[i]@),
            flags: self.flags,
        }
    }
}

impl Clone for VirtualLines {
    fn clone(&self) -> (copy: Self)
        ensures
            copy@ == self@,
    {
        let mut lines: Vec<Vec<VirtTextChunk>> = Vec::new();
        let mut next: usize = 0;
        while next < self.lines.len()
            invariant
                next <= self.lines@.len(),
                lines@.len() == next,
                forall|i: int| 0 <= i < next ==> (#[trigger] lines@[i])@ == self.lines@[i]@,
            decreases self.lines@.len() - next,
        {
            let line = self.lines[next].clone();
            assert(line@ =~= self.lines@[next as int]@);
            lines.push(line);
            next = next + 1;
        }
        let copy = VirtualLines { lines, flags: self.flags };
        assert(copy@.lines =~= self@.lines);
        copy
    }
}

impl Default for VirtualLines {
    fn default() -> (lines: Self)
        ensures
            lines@ == (VirtualLinesView { lines: Seq::empty(), flags: 0 }),
    {
        let lines = VirtualLines { lines: Vec::new(), flags: 0 };
        assert(lines@.lines =~= Seq::empty());
        lines
    }
}

/// Origin of an aggregated decoration.
#[derive(Clone, Copy, Debug, PartialEq, Eq, Hash, Structural)]
pub enum DecorOrigin {
    /// Persistent decoration from an extmark. `order` is a stable, per-extmark
    /// insertion order used for deterministic tie-breaking.
    Extmark {
        /// Namespace owning the extmark.
        namespace: u32,
        /// Namespace-local extmark identifier.
        mark_id: u32,
        /// Stable insertion order.
        order: u64,
    },
    /// Ephemeral decoration produced by a provider callback during a redraw.
    Provider {
        /// Provider that emitted the decoration.
        provider: ProviderId,
        /// Callback phase that emitted it.
        phase: CallbackPhase,
    },
}

/// An aggregated decoration record.
///
/// Records are ordered by `priority` (lower first), then by origin (`extmark`
/// before `provider`) and finally by a stable insertion/registration order.
#[derive(Debug, PartialEq, Eq, Hash)]
pub struct DecorItem {
    /// Where this decoration came from (extmark or a provider phase).
    pub origin: DecorOrigin,
    /// Window scope, if this decoration was produced for a specific window.
    pub window: Option<WindowId>,
    /// Inclusive buffer range this decoration applies to.
    pub range: DecorRange,
    /// Display priority.
    pub priority: u32,
    /// `winblend` value for floating windows, if any.
    pub winblend: Option<u16>,
    /// Virtual text chunks, if any.
    pub virt_text: Option<VirtualText>,
    /// Virtual lines, if any.
    pub virt_lines: Option<VirtualLines>,
}

/// What a [`DecorItem`] holds.
#[verifier::ext_equal]
pub struct DecorItemView {
    pub origin: DecorOrigin,
    pub window: Option<WindowId>,
    pub range: DecorRange,
    pub priority: u32,
    pub winblend: Option<u16>,
    pub virt_text: Option<VirtualTextView>,
    pub virt_lines: Option<VirtualLinesView>,
}

/// The view inside an optional [`VirtualText`].
pub open spec fn virt_text_view(text: Option<VirtualText>) -> Option<VirtualTextView> {
    match text {
        Some(text) => Some(text@),
        None => None,
    }
}

/// The view inside an optional [`VirtualLines`].
pub open spec fn virt_lines_view(lines: Option<VirtualLines>) -> Option<VirtualLinesView> {
    match lines {
        Some(lines) => Some(lines@),
        None => None,
    }
}

impl View for DecorItem {
    type V = DecorItemView;

    open spec fn view(&self) -> DecorItemView {
        DecorItemView {
            origin: self.origin,
            window: self.window,
            range: self.range,
            priority: self.priority,
            winblend: self.winblend,
            virt_text: virt_text_view(self.virt_text),
            virt_lines: virt_lines_view(self.virt_lines),
        }
    }
}

impl Clone for DecorItem {
    fn clone(&self) -> (copy: Self)
        ensures
            copy@ == self@,
    {
        DecorItem {
            origin: self.origin,
            window: self.window,
            range: self.range,
            priority: self.priority,
            winblend: self.winblend,
            virt_text: match &self.virt_text {
                Some(text) => Some(text.clone()),
                None => None,
            },
            virt_lines: match &self.virt_lines {
                Some(lines) => Some(lines.clone()),
                None => None,
            },
        }
    }
}

impl DecorItemView {
    /// Whether the decoration shows in `window` on `row`: it has no window
    /// scope or that one, and its range covers the row.
    pub open spec fn shows_on(self, window: WindowId, row: u32) -> bool {
        (self.window is None || self.window == Some(window)) && self.range.covers_row(row)
    }
}

/// Domain input for building an ephemeral provider decoration.
///
/// Bundles the fields [`DecorItem::for_provider`] needs so the constructor
/// takes a single cohesive input rather than a long positional list.
#[derive(Debug, PartialEq, Eq)]
pub struct ProviderDecorInput {
    /// Owning provider identifier.
    pub provider: ProviderId,
    /// Lifecycle phase that produced the decoration.
    pub phase: CallbackPhase,
    /// Window scope for the decoration.
    pub window: WindowId,
    /// Inclusive buffer range this decoration applies to.
    pub range: DecorRange,
    /// Display priority.
    pub priority: u32,
    /// `winblend` value for floating windows, if any.
    pub winblend: Option<u16>,
    /// Virtual text chunks, if any.
    pub virt_text: Option<VirtualText>,
    /// Virtual lines, if any.
    pub virt_lines: Option<VirtualLines>,
}

impl Default for ProviderDecorInput {
    fn default() -> (input: Self)
        ensures
            input.provider == ProviderId(0),
            input.phase == CallbackPhase::Start,
            input.window == WindowId(0),
            input.range == (DecorRange {
                start: DecorPos { row: 0, col: 0 },
                end: DecorPos { row: 0, col: 0 },
            }),
            input.priority == 0,
            input.winblend is None,
            input.virt_text is None,
            input.virt_lines is None,
    {
        Self {
            provider: ProviderId::default(),
            phase: CallbackPhase::Start,
            window: WindowId::default(),
            range: DecorRange::default(),
            priority: 0,
            winblend: None,
            virt_text: None,
            virt_lines: None,
        }
    }
}

impl DecorItem {
    /// Convenience constructor for an ephemeral provider decoration.
    ///
    /// The decoration's origin is [`DecorOrigin::Provider`] with `input`'s
    /// provider and phase; `window` is wrapped in `Some` to scope the
    /// decoration to that window.
    #[must_use]
    pub fn for_provider(input: ProviderDecorInput) -> (item: Self)
        ensures
            item == (DecorItem {
                origin: DecorOrigin::Provider { provider: input.provider, phase: input.phase },
                window: Some(input.window),
                range: input.range,
                priority: input.priority,
                winblend: input.winblend,
                virt_text: input.virt_text,
                virt_lines: input.virt_lines,
            }),
    {
        let ProviderDecorInput {
            provider,
            phase,
            window,
            range,
            priority,
            winblend,
            virt_text,
            virt_lines,
        } = input;
        Self {
            origin: DecorOrigin::Provider { provider, phase },
            window: Some(window),
            range,
            priority,
            winblend,
            virt_text,
            virt_lines,
        }
    }
}

/// Callback handles supplied when registering a decoration provider.
#[derive(Debug, PartialEq, Eq)]
pub struct DecorProviderDef {
    /// Optional redraw-start callback.
    pub start: Option<StartCallbackId>,
    /// Optional buffer callback.
    pub buf: Option<BufCallbackId>,
    /// Optional window callback.
    pub win: Option<WinCallbackId>,
    /// Optional line callback.
    pub line: Option<LineCallbackId>,
    /// Optional range callback.
    pub range: Option<RangeCallbackId>,
    /// Optional redraw-end callback.
    pub end: Option<EndCallbackId>,
    /// Optional `_on_hl_def` highlight-definition callback; stored for its
    /// owner, dispatched by no redraw phase.
    pub hl_def: Option<HlDefCallbackId>,
    /// Optional `_on_spell_nav` spell-navigation callback; stored, dispatched
    /// by no redraw phase.
    pub spell_nav: Option<SpellNavCallbackId>,
    /// Optional `_on_conceal_line` callback; stored, dispatched by no redraw
    /// phase.
    pub conceal_line: Option<ConcealLineCallbackId>,
}

impl Clone for DecorProviderDef {
    fn clone(&self) -> (copy: Self)
        ensures
            copy == *self,
    {
        DecorProviderDef {
            start: self.start,
            buf: self.buf,
            win: self.win,
            line: self.line,
            range: self.range,
            end: self.end,
            hl_def: self.hl_def,
            spell_nav: self.spell_nav,
            conceal_line: self.conceal_line,
        }
    }
}

impl Default for DecorProviderDef {
    fn default() -> (def: Self)
        ensures
            def == Self::none(),
    {
        DecorProviderDef {
            start: None,
            buf: None,
            win: None,
            line: None,
            range: None,
            end: None,
            hl_def: None,
            spell_nav: None,
            conceal_line: None,
        }
    }
}

/// The raw identifier inside an optional callback handle.
pub open spec fn raw_callback<T>(callback: Option<CallbackId<T>>) -> Option<u64> {
    match callback {
        Some(callback) => Some(callback.raw()),
        None => None,
    }
}

impl DecorProviderDef {
    /// The definition without any callback.
    pub open spec fn none() -> Self {
        DecorProviderDef {
            start: None,
            buf: None,
            win: None,
            line: None,
            range: None,
            end: None,
            hl_def: None,
            spell_nav: None,
            conceal_line: None,
        }
    }

    /// The raw callback that this definition carries for `phase`.
    pub open spec fn for_phase(self, phase: CallbackPhase) -> Option<u64> {
        match phase {
            CallbackPhase::Start => raw_callback(self.start),
            CallbackPhase::Buf => raw_callback(self.buf),
            CallbackPhase::Win => raw_callback(self.win),
            CallbackPhase::Line => raw_callback(self.line),
            CallbackPhase::Range => raw_callback(self.range),
            CallbackPhase::End => raw_callback(self.end),
        }
    }

    /// Whether this definition carries any callback.
    pub open spec fn has_any(self) -> bool {
        self != Self::none()
    }

    fn carries_any(&self) -> (any: bool)
        ensures
            any == self.has_any(),
    {
        self.start.is_some() || self.buf.is_some() || self.win.is_some() || self.line.is_some()
            || self.range.is_some() || self.end.is_some() || self.hl_def.is_some()
            || self.spell_nav.is_some() || self.conceal_line.is_some()
    }
}

#[derive(Debug, PartialEq, Eq)]
struct RegisteredProvider {
    id: ProviderId,
    order: usize,
    enabled: bool,
    callbacks: DecorProviderDef,
}

#[derive(Debug, PartialEq, Eq)]
struct StoredEphemeral {
    item: DecorItem,
    seq: u64,
}

#[derive(Debug, PartialEq, Eq)]
struct RedrawState {
    id: RedrawId,
    display_tick: u64,
    ephemeral: Vec<StoredEphemeral>,
    next_seq: u64,
}

/// Ordered decoration-provider registry.
///
/// Providers are keyed by their owning namespace, so at most one provider
/// exists per namespace. First installation appends to registration order;
/// replacement and clearing preserve it. The registry tracks one active redraw
/// at a time through [`RedrawId`] values so callback-triggered nested redraws
/// never borrow the registry.
#[derive(Debug, PartialEq, Eq)]
pub struct Decorations {
    providers: Vec<RegisteredProvider>,
    order: Vec<ProviderId>,
    next_redraw: u64,
    redraw_state: Option<RedrawState>,
}

/// Result of beginning a redraw cycle.
///
/// `Outermost` owns the new transaction and must be finished with
/// [`Decorations::finish_redraw`]. `Nested` means a redraw is already active:
/// the caller performs only ordinary non-provider work and runs no provider
/// callbacks.
#[derive(Clone, Copy, Debug, PartialEq, Eq, Structural)]
pub enum RedrawEntry {
    /// The only active redraw transaction.
    Outermost(RedrawId),
    /// A redraw is already active; nested entry runs no callbacks.
    Nested,
}

/// One registered provider, as contracts speak of it.
#[verifier::ext_equal]
pub struct ProviderView {
    pub id: ProviderId,
    /// How many providers were registered when this one was first installed.
    pub index: usize,
    pub enabled: bool,
    pub callbacks: DecorProviderDef,
}

/// One decoration added during a redraw, with its number in the redraw.
#[verifier::ext_equal]
pub struct EphemeralView {
    pub item: DecorItemView,
    pub seq: u64,
}

/// The active redraw, as contracts speak of it.
#[verifier::ext_equal]
pub struct RedrawView {
    pub id: RedrawId,
    pub display_tick: u64,
    pub ephemeral: Seq<EphemeralView>,
    pub next_seq: u64,
}

/// The registry as contracts speak of it: providers in registration order.
#[verifier::ext_equal]
pub struct DecorationsView {
    pub providers: Seq<ProviderView>,
    pub next_redraw: u64,
    pub redraw: Option<RedrawView>,
}

/// The place of a decoration in a query's answer.
#[derive(Clone, Copy, Debug, PartialEq, Eq, PartialOrd, Ord, Structural)]
pub struct SortKey {
    /// Display priority, lower first.
    pub priority: u32,
    /// Zero for extmarks, one for providers.
    pub category: u8,
    /// Position of the provider in registration order; zero for extmarks.
    pub reg_index: u64,
    /// Insertion order among decorations alike in everything else.
    pub suborder: u64,
}

impl SortKey {
    /// Lexicographic order on the fields, in the order they are declared.
    pub open spec fn before(self, other: SortKey) -> bool {
        ||| self.priority < other.priority
        ||| self.priority == other.priority && self.category < other.category
        ||| self.priority == other.priority && self.category == other.category && self.reg_index
            < other.reg_index
        ||| self.priority == other.priority && self.category == other.category && self.reg_index
            == other.reg_index && self.suborder < other.suborder
    }

    fn is_before(&self, other: &SortKey) -> (earlier: bool)
        ensures
            earlier == self.before(*other),
    {
        if self.priority != other.priority {
            self.priority < other.priority
        } else if self.category != other.category {
            self.category < other.category
        } else if self.reg_index != other.reg_index {
            self.reg_index < other.reg_index
        } else {
            self.suborder < other.suborder
        }
    }
}

/// A decoration that takes part in a query, with its key.
#[verifier::ext_equal]
pub struct RankedView {
    pub item: DecorItemView,
    pub key: SortKey,
}

impl DecorationsView {
    /// The registered identifiers in registration order.
    pub open spec fn ids(self) -> Seq<ProviderId> {
        self.providers.map_values(|provider: ProviderView| provider.id)
    }

    /// Whether `id` is registered.
    pub open spec fn registered(self, id: ProviderId) -> bool {
        exists|i: int| 0 <= i < self.providers.len() && (#[trigger] self.providers[i]).id == id
    }

    /// The position of the registered `id` in registration order.
    pub open spec fn slot(self, id: ProviderId) -> int {
        choose|i: int| 0 <= i < self.providers.len() && (#[trigger] self.providers[i]).id == id
    }

    /// The registered provider with identifier `id`.
    pub open spec fn provider(self, id: ProviderId) -> ProviderView {
        self.providers[self.slot(id)]
    }

    /// The callbacks that are stored for `id`.
    pub open spec fn stored(self, id: ProviderId) -> Option<DecorProviderDef> {
        if self.registered(id) {
            Some(self.provider(id).callbacks)
        } else {
            None
        }
    }

    /// No identifier is registered twice.
    pub open spec fn distinct(self) -> bool {
        forall|i: int, j: int|
            0 <= i < j < self.providers.len() ==> (#[trigger] self.providers[i]).id != (
            #[trigger] self.providers[j]).id
    }

    /// The registry with `id`'s entry replaced by `provider`.
    pub open spec fn with_slot(self, id: ProviderId, provider: ProviderView) -> Self {
        DecorationsView { providers: self.providers.update(self.slot(id), provider), ..self }
    }

    /// The registry after `def` was installed for `id`: a registered provider
    /// keeps its position and enablement, a new one goes last and is enabled.
    pub open spec fn installed(self, id: ProviderId, def: DecorProviderDef) -> Self {
        if self.registered(id) {
            self.with_slot(id, ProviderView { callbacks: def, ..self.provider(id) })
        } else {
            DecorationsView {
                providers: self.providers.push(
                    ProviderView {
                        id,
                        index: self.providers.len() as usize,
                        enabled: true,
                        callbacks: def,
                    },
                ),
                ..self
            }
        }
    }

    /// The registry after `id`'s callbacks were cleared: its slot stays.
    pub open spec fn cleared(self, id: ProviderId) -> Self {
        if self.registered(id) {
            self.with_slot(
                id,
                ProviderView { callbacks: DecorProviderDef::none(), ..self.provider(id) },
            )
        } else {
            self
        }
    }

    /// The registry without `id`; the others keep their order.
    pub open spec fn without(self, id: ProviderId) -> Self {
        if self.registered(id) {
            DecorationsView { providers: self.providers.remove(self.slot(id)), ..self }
        } else {
            self
        }
    }

    /// The registry with `id` enabled or disabled.
    pub open spec fn with_enabled(self, id: ProviderId, enabled: bool) -> Self {
        if self.registered(id) {
            self.with_slot(id, ProviderView { enabled, ..self.provider(id) })
        } else {
            self
        }
    }

    /// The callback that `phase` runs for `id`: none unless `id` is registered
    /// and enabled.
    pub open spec fn callback(self, id: ProviderId, phase: CallbackPhase) -> Option<u64> {
        if self.registered(id) && self.provider(id).enabled {
            self.provider(id).callbacks.for_phase(phase)
        } else {
            None
        }
    }

    /// The providers that `phase` visits, in registration order.
    pub open spec fn phase_plan(self, phase: CallbackPhase) -> Seq<ProviderId> {
        self.providers.filter(
            |provider: ProviderView|
                provider.enabled && provider.callbacks.for_phase(phase) is Some,
        ).map_values(|provider: ProviderView| provider.id)
    }

    /// The registry with a fresh redraw active, nothing added to it yet.
    pub open spec fn entered(self, display_tick: u64) -> Self {
        DecorationsView {
            next_redraw: (self.next_redraw + 1) as u64,
            redraw: Some(
                RedrawView {
                    id: RedrawId(self.next_redraw),
                    display_tick,
                    ephemeral: Seq::empty(),
                    next_seq: 0,
                },
            ),
            ..self
        }
    }

    /// The registry with no active redraw.
    pub open spec fn finished(self) -> Self {
        DecorationsView { redraw: None, ..self }
    }

    /// Whether `id` is the active redraw.
    pub open spec fn active(self, id: RedrawId) -> bool {
        self.redraw is Some && self.redraw->0.id == id
    }

    /// The key of `item`; `seq` is its number in the redraw, if it has one.
    pub open spec fn key(self, item: DecorItemView, seq: Option<u64>) -> SortKey {
        match item.origin {
            DecorOrigin::Extmark { order, .. } => SortKey {
                priority: item.priority,
                category: 0,
                reg_index: 0,
                suborder: order,
            },
            DecorOrigin::Provider { provider, .. } => SortKey {
                priority: item.priority,
                category: 1,
                reg_index: if self.registered(provider) {
                    self.slot(provider) as u64
                } else {
                    usize::MAX as u64
                },
                suborder: match seq {
                    Some(seq) => seq,
                    None => 0,
                },
            },
        }
    }

    /// The persistent decorations that show on `row` of `window`, with keys.
    pub open spec fn ranked_persistent(
        self,
        persistent: Seq<DecorItem>,
        window: WindowId,
        row: u32,
    ) -> Seq<RankedView> {
        persistent.filter(|item: DecorItem| item@.shows_on(window, row)).map_values(
            |item: DecorItem| RankedView { item: item@, key: self.key(item@, None) },
        )
    }

    /// The decorations of the active redraw that show on `row` of `window`,
    /// with keys.
    pub open spec fn ranked_ephemeral(
        self,
        ephemeral: Seq<EphemeralView>,
        window: WindowId,
        row: u32,
    ) -> Seq<RankedView> {
        ephemeral.filter(|stored: EphemeralView| stored.item.shows_on(window, row)).map_values(
            |stored: EphemeralView|
                RankedView { item: stored.item, key: self.key(stored.item, Some(stored.seq)) },
        )
    }

    /// Everything that shows on `row` of `window` in redraw `id`, with keys:
    /// the persistent decorations, then those of the redraw. Nothing unless
    /// `id` is active.
    pub open spec fn ranked(
        self,
        id: RedrawId,
        persistent: Seq<DecorItem>,
        window: WindowId,
        row: u32,
    ) -> Seq<RankedView> {
        if self.active(id) {
            self.ranked_persistent(persistent, window, row) + self.ranked_ephemeral(
                self.redraw->0.ephemeral,
                window,
                row,
            )
        } else {
            Seq::empty()
        }
    }
}

/// Whether `order` lists the positions of `ranked` by key, equal keys in the
/// order in which they stand. Every position then occurs exactly once.
pub open spec fn is_stable_order(ranked: Seq<RankedView>, order: Seq<int>) -> bool {
    &&& order.len() == ranked.len()
    &&& forall|i: int| 0 <= i < order.len() ==> 0 <= #[trigger] order[i] < ranked.len()
    &&& forall|i: int, j: int|
        0 <= i < j < order.len() ==> {
            let (first, second) = (#[trigger] order[i], #[trigger] order[j]);
            ranked[first].key.before(ranked[second].key) || (ranked[first].key
                == ranked[second].key && first < second)
        }
}

/// Whether `result` is `ranked` stably sorted by key.
pub open spec fn is_sorted_by_key(ranked: Seq<RankedView>, result: Seq<DecorItem>) -> bool {
    exists|order: Seq<int>| #[trigger]
        is_stable_order(ranked, order) && result.len() == order.len() && forall|i: int|
            0 <= i < result.len() ==> (#[trigger] result[i])@ == ranked[order[i]].item
}

impl View for RegisteredProvider {
    type V = ProviderView;

    closed spec fn view(&self) -> ProviderView {
        ProviderView {
            id: self.id,
            index: self.order,
            enabled: self.enabled,
            callbacks: self.callbacks,
        }
    }
}

impl View for StoredEphemeral {
    type V = EphemeralView;

    closed spec fn view(&self) -> EphemeralView {
        EphemeralView { item: self.item@, seq: self.seq }
    }
}

impl View for RedrawState {
    type V = RedrawView;

    closed spec fn view(&self) -> RedrawView {
        RedrawView {
            id: self.id,
            display_tick: self.display_tick,
            ephemeral: self.ephemeral@.map_values(|stored: StoredEphemeral| stored@),
            next_seq: self.next_seq,
        }
    }
}

impl View for Decorations {
    type V = DecorationsView;

    closed spec fn view(&self) -> DecorationsView {
        DecorationsView {
            providers: self.providers@.map_values(|provider: RegisteredProvider| provider@),
            next_redraw: self.next_redraw,
            redraw: match self.redraw_state {
                Some(state) => Some(state@),
                None => None,
            },
        }
    }
}

impl Default for Decorations {
    fn default() -> (registry: Self)
        ensures
            registry.wf(),
            registry@ == (DecorationsView { providers: Seq::empty(), next_redraw: 0, redraw: None }),
    {
        Decorations::new()
    }
}

impl Decorations {
    /// The registry's invariant: the order list names the providers, each once.
    pub closed spec fn wf(&self) -> bool {
        &&& self.order@ == self@.ids()
        &&& self@.distinct()
    }

    /// The position of `id` in registration order.
    fn find(&self, id: ProviderId) -> (found: Option<usize>)
        requires
            self.wf(),
        ensures
            found is Some == self@.registered(id),
            found is Some ==> found->0 == self@.slot(id) && found->0 < self.providers@.len()
                && self.providers@[found->0 as int].id == id,
    {
        let mut next: usize = 0;
        while next < self.providers.len()
            invariant
                self.wf(),
                next <= self.providers@.len(),
                forall|i: int| 0 <= i < next ==> (#[trigger] self@.providers[i]).id != id,
            decreases self.providers@.len() - next,
        {
            if self.providers[next].id == id {
                assert(self@.providers[next as int].id == id);
                assert(self@.slot(id) == next);
                return Some(next);
            }
            assert(self@.providers[next as int].id != id);
            next = next + 1;
        }
        None
    }

    /// Create an empty registry.
    #[must_use]
    pub fn new() -> (registry: Self)
        ensures
            registry.wf(),
            registry@ == (DecorationsView { providers: Seq::empty(), next_redraw: 0, redraw: None }),
    {
        let registry = Decorations {
            providers: Vec::new(),
            order: Vec::new(),
            next_redraw: 0,
            redraw_state: None,
        };
        assert(registry@.providers =~= Seq::empty());
        assert(registry.order@ =~= registry@.ids());
        registry
    }

    /// Install or replace the provider owned by `id`.
    ///
    /// First installation appends `id` to registration order; replacement
    /// keeps the existing position. Returns the previous callback definition
    /// so its references can be released exactly once.
    ///
    /// # Errors
    ///
    /// Never fails; the [`Result`] is there for consistency with the rest of
    /// the provider lifecycle.
    pub fn replace_provider(&mut self, id: ProviderId, def: DecorProviderDef) -> (result: Result<
        Option<DecorProviderDef>,
        DecorationError,
    >)
        requires
            old(self).wf(),
        ensures
            final(self).wf(),
            final(self)@ == old(self)@.installed(id, def),
            result == Ok::<_, DecorationError>(old(self)@.stored(id)),
    {
        let ghost before = self@;
        if let Some(slot) = self.find(id) {
            let mut previous = def;
            std::mem::swap(&mut self.providers[slot].callbacks, &mut previous);
            proof {
                assert(self@.providers =~= before.installed(id, def).providers);
                assert(self@.ids() =~= before.ids());
            }
            return Ok(Some(previous));
        }
        let order: usize = self.order.len();
        self.providers.push(RegisteredProvider { id, order, enabled: true, callbacks: def });
        self.order.push(id);
        proof {
            assert(self@.providers =~= before.installed(id, def).providers);
            assert(self@.ids() =~= before.ids().push(id));
        }
        Ok(None)
    }

    /// Clear the provider owned by `id`, keeping its registration slot.
    ///
    /// Returns the removed callback definition for release; `None` when no
    /// provider was installed. The stable registration slot is retained so a
    /// later reinstall keeps its place in registration order.
    pub fn clear_provider(&mut self, id: ProviderId) -> (removed: Option<DecorProviderDef>)
        requires
            old(self).wf(),
        ensures
            final(self).wf(),
            final(self)@ == old(self)@.cleared(id),
            removed == old(self)@.stored(id),
    {
        let ghost before = self@;
        match self.find(id) {
            Some(slot) => {
                let mut previous = DecorProviderDef::default();
                std::mem::swap(&mut self.providers[slot].callbacks, &mut previous);
                proof {
                    assert(self@.providers =~= before.cleared(id).providers);
                    assert(self@.ids() =~= before.ids());
                }
                Some(previous)
            },
            None => None,
        }
    }

    /// Remove a provider from the registry entirely, returning its callback
    /// set if it existed.
    pub fn remove(&mut self, id: ProviderId) -> (removed: Option<DecorProviderDef>)
        requires
            old(self).wf(),
        ensures
            final(self).wf(),
            final(self)@ == old(self)@.without(id),
            removed == old(self)@.stored(id),
    {
        let ghost before = self@;
        match self.find(id) {
            Some(slot) => {
                let provider = self.providers.remove(slot);
                self.order.remove(slot);
                proof {
                    assert(self@.providers =~= before.without(id).providers);
                    assert(self@.ids() =~= before.ids().remove(slot as int));
                }
                Some(provider.callbacks)
            },
            None => None,
        }
    }

    /// Enable or disable a registered provider. Disabled providers are omitted
    /// from redraw phase plans.
    ///
    /// # Errors
    ///
    /// Returns [`DecorationError::UnknownProvider`] when `id` is not a
    /// registered provider.
    pub fn set_enabled(&mut self, id: ProviderId, enabled: bool) -> (result: Result<
        (),
        DecorationError,
    >)
        requires
            old(self).wf(),
        ensures
            final(self).wf(),
            final(self)@ == old(self)@.with_enabled(id, enabled),
            result == (if old(self)@.registered(id) {
                Ok(())
            } else {
                Err(DecorationError::UnknownProvider)
            }),
    {
        let ghost before = self@;
        match self.find(id) {
            Some(slot) => {
                self.providers[slot].enabled = enabled;
                proof {
                    assert(self@.providers =~= before.with_enabled(id, enabled).providers);
                    assert(self@.ids() =~= before.ids());
                }
                Ok(())
            },
            None => Err(DecorationError::UnknownProvider),
        }
    }

    /// Return whether `id` is a registered provider with any callback.
    #[must_use]
    pub fn is_registered(&self, id: ProviderId) -> (registered: bool)
        requires
            self.wf(),
        ensures
            registered == (self@.registered(id) && self@.provider(id).callbacks.has_any()),
    {
        match self.find(id) {
            Some(slot) => self.providers[slot].callbacks.carries_any(),
            None => false,
        }
    }

    /// Return the registered provider IDs in stable registration order.
    ///
    /// This order is the tie-breaker for provider-originated ephemeral
    /// decorations.
    #[must_use]
    pub fn provider_order(&self) -> (order: &[ProviderId])
        requires
            self.wf(),
        ensures
            order@ == self@.ids(),
    {
        self.order.as_slice()
    }

    /// Return the registration index of `id`, if known: the number of
    /// providers that were registered when it was first installed.
    #[must_use]
    pub fn registration_index(&self, id: ProviderId) -> (index: Option<usize>)
        requires
            self.wf(),
        ensures
            index == (if self@.registered(id) {
                Some(self@.provider(id).index)
            } else {
                None
            }),
    {
        match self.find(id) {
            Some(slot) => Some(self.providers[slot].order),
            None => None,
        }
    }

    /// Return the callback definition for a provider, if known.
    #[must_use]
    pub fn provider_def(&self, id: ProviderId) -> (def: Option<&DecorProviderDef>)
        requires
            self.wf(),
        ensures
            def is Some == self@.registered(id),
            def is Some ==> *def->0 == self@.provider(id).callbacks,
    {
        match self.find(id) {
            Some(slot) => Some(&self.providers[slot].callbacks),
            None => None,
        }
    }

    /// Begin a redraw cycle.
    ///
    /// A nested entry (a redraw is already active) performs no provider work
    /// and cannot end the outer transaction; callers run only the ordinary
    /// command work of the nested redraw.
    ///
    /// # Errors
    ///
    /// Returns [`DecorationError::RedrawIdExhausted`] when the redraw
    /// identifier space is exhausted (the internal counter would overflow).
    pub fn enter_redraw(&mut self, display_tick: u64) -> (result: Result<
        RedrawEntry,
        DecorationError,
    >)
        requires
            old(self).wf(),
        ensures
            final(self).wf(),
            old(self)@.redraw is Some ==> result == Ok::<_, DecorationError>(RedrawEntry::Nested)
                && final(self)@ == old(self)@,
            old(self)@.redraw is None && old(self)@.next_redraw == u64::MAX ==> result == Err::<
                RedrawEntry,
                _,
            >(DecorationError::RedrawIdExhausted) && final(self)@ == old(self)@,
            old(self)@.redraw is None && old(self)@.next_redraw < u64::MAX ==> result == Ok::<
                _,
                DecorationError,
            >(RedrawEntry::Outermost(RedrawId(old(self)@.next_redraw))) && final(self)@
                == old(self)@.entered(display_tick),
    {
        if self.redraw_state.is_some() {
            return Ok(RedrawEntry::Nested);
        }
        let new_next: u64 = match self.next_redraw.checked_add(1) {
            Some(next) => next,
            None => {
                return Err(DecorationError::RedrawIdExhausted);
            },
        };
        let id = RedrawId(self.next_redraw);
        self.next_redraw = new_next;
        self.redraw_state = Some(
            RedrawState { id, display_tick, ephemeral: Vec::new(), next_seq: 0 },
        );
        assert(self@.redraw->0.ephemeral =~= Seq::empty());
        Ok(RedrawEntry::Outermost(id))
    }

    /// End the redraw owned by `id`, discarding its ephemeral state.
    ///
    /// # Errors
    ///
    /// Returns [`DecorationError::NoActiveRedraw`] when no redraw is active,
    /// or [`DecorationError::InvalidRedrawId`] when `id` does not match the
    /// active redraw.
    pub fn finish_redraw(&mut self, id: RedrawId) -> (result: Result<(), DecorationError>)
        requires
            old(self).wf(),
        ensures
            final(self).wf(),
            result == (if old(self)@.redraw is None {
                Err(DecorationError::NoActiveRedraw)
            } else if !old(self)@.active(id) {
                Err(DecorationError::InvalidRedrawId)
            } else {
                Ok(())
            }),
            final(self)@ == (if old(self)@.active(id) {
                old(self)@.finished()
            } else {
                old(self)@
            }),
    {
        let active = match &self.redraw_state {
            Some(state) => state.id,
            None => {
                return Err(DecorationError::NoActiveRedraw);
            },
        };
        if active != id {
            return Err(DecorationError::InvalidRedrawId);
        }
        self.redraw_state = None;
        Ok(())
    }

    /// Snapshot the provider IDs whose current definition carries `phase`.
    ///
    /// IDs are captured in registration order, but the callback itself is
    /// re-read through [`Decorations::phase_callback`] immediately before each
    /// invocation so a callback that replaces or removes another provider is
    /// observed by later invocations in the same frame.
    #[must_use]
    pub fn phase_provider_ids(&self, phase: CallbackPhase) -> (ids: Vec<ProviderId>)
        requires
            self.wf(),
        ensures
            ids@ == self@.phase_plan(phase),
    {
        let ghost visits = |provider: ProviderView|
            provider.enabled && provider.callbacks.for_phase(phase) is Some;
        let ghost id_of = |provider: ProviderView| provider.id;
        let mut ids: Vec<ProviderId> = Vec::new();
        let mut next: usize = 0;
        assert(self@.providers.take(0).filter(visits).map_values(id_of) =~= Seq::empty()) by {
            reveal(Seq::filter);
        }
        while next < self.providers.len()
            invariant
                self.wf(),
                next <= self.providers@.len(),
                self@.providers.len() == self.providers@.len(),
                visits == (|provider: ProviderView|
                    provider.enabled && provider.callbacks.for_phase(phase) is Some),
                id_of == (|provider: ProviderView| provider.id),
                ids@ == self@.providers.take(next as int).filter(visits).map_values(id_of),
            decreases self.providers@.len() - next,
        {
            let provider = &self.providers[next];
            let ghost so_far = self@.providers.take(next as int);
            let ghost with_next = self@.providers.take(next + 1);
            proof {
                assert(with_next.drop_last() =~= so_far);
                assert(with_next.last() == provider@);
                reveal(Seq::filter);
                assert(so_far.filter(visits).push(provider@).map_values(id_of)
                    =~= so_far.filter(visits).map_values(id_of).push(provider.id));
            }
            if provider.enabled && phase_callback(provider, phase).is_some() {
                ids.push(provider.id);
            }
            next = next + 1;
        }
        assert(self@.providers.take(next as int) =~= self@.providers);
        ids
    }

    /// Re-read the current callback reference for `phase` on `id`.
    ///
    /// Returns `None` when the provider was removed, replaced without this
    /// phase, or disabled since the snapshot.
    #[must_use]
    pub fn phase_callback(&self, id: ProviderId, phase: CallbackPhase) -> (callback: Option<u64>)
        requires
            self.wf(),
        ensures
            callback == self@.callback(id, phase),
    {
        match self.find(id) {
            Some(slot) => {
                let provider = &self.providers[slot];
                if !provider.enabled {
                    return None;
                }
                phase_callback(provider, phase)
            },
            None => None,
        }
    }

    /// Append an ephemeral decoration for the active redraw.
    ///
    /// # Errors
    ///
    /// Returns [`DecorationError::NoActiveRedraw`] when no redraw is active,
    /// [`DecorationError::InvalidRedrawId`] when `id` does not match the
    /// active redraw, [`DecorationError::UnknownProvider`] when the item's
    /// origin references an unregistered provider, or
    /// [`DecorationError::RedrawIdExhausted`] when the ephemeral sequence
    /// counter would overflow.
    pub fn push_ephemeral(&mut self, id: RedrawId, item: DecorItem) -> (result: Result<
        (),
        DecorationError,
    >)
        requires
            old(self).wf(),
        ensures
            final(self).wf(),
            result == push_result(old(self)@, id, item@),
            result is Err ==> final(self)@ == old(self)@,
            result is Ok ==> final(self)@ == with_ephemeral(old(self)@, item@),
    {
        let ghost before = self@;
        match &self.redraw_state {
            None => {
                return Err(DecorationError::NoActiveRedraw);
            },
            Some(state) => {
                if state.id != id {
                    return Err(DecorationError::InvalidRedrawId);
                }
            },
        }
        if let DecorOrigin::Provider { provider, .. } = item.origin {
            if self.find(provider).is_none() {
                return Err(DecorationError::UnknownProvider);
            }
        }
        if let Some(mut state) = self.redraw_state.take() {
            let seq: u64 = state.next_seq;
            if let Some(next) = seq.checked_add(1) {
                state.next_seq = next;
                let ghost stored = state@.ephemeral;
                state.ephemeral.push(StoredEphemeral { item, seq });
                assert(state@.ephemeral =~= stored.push(EphemeralView { item: item@, seq }));
                self.redraw_state = Some(state);
                Ok(())
            } else {
                self.redraw_state = Some(state);
                Err(DecorationError::RedrawIdExhausted)
            }
        } else {
            Err(DecorationError::NoActiveRedraw)
        }
    }

    /// The display tick the active redraw was started with.
    #[must_use]
    pub fn active_display_tick(&self, id: RedrawId) -> (tick: Option<u64>)
        ensures
            tick == (if self@.active(id) {
                Some(self@.redraw->0.display_tick)
            } else {
                None
            }),
    {
        match &self.redraw_state {
            Some(state) if state.id == id => Some(state.display_tick),
            _ => None,
        }
    }

    /// Query decorations for a specific window row.
    ///
    /// `persistent` are the extmark-derived decorations for the buffer (or
    /// any other persistent source). They are combined with the ephemeral
    /// decorations collected during the active redraw identified by `id`,
    /// filtered to `window` and `row`, and returned in deterministic order:
    /// primary `priority`, then extmark origin before provider origin, then
    /// stable insertion/registration order.
    #[must_use]
    pub fn query_line(
        &self,
        id: RedrawId,
        persistent: &[DecorItem],
        window: WindowId,
        row: u32,
    ) -> (items: Vec<DecorItem>)
        requires
            self.wf(),
        ensures
            is_sorted_by_key(self@.ranked(id, persistent@, window, row), items@),
    {
        let ghost ranked = self@.ranked(id, persistent@, window, row);
        let state = match &self.redraw_state {
            Some(state) if state.id == id => state,
            _ => {
                let items: Vec<DecorItem> = Vec::new();
                assert(is_stable_order(ranked, Seq::empty()));
                return items;
            },
        };
        let mut scored: Vec<DecorItem> = Vec::new();
        let mut keys: Vec<SortKey> = Vec::new();
        self.rank_persistent(persistent, window, row, &mut scored, &mut keys);
        self.rank_ephemeral(state, window, row, &mut scored, &mut keys);
        assert(are_ranked(ranked, scored@, keys@));
        let order = stable_order(&keys, Ghost(ranked));
        let mut items: Vec<DecorItem> = Vec::new();
        let mut next: usize = 0;
        while next < order.len()
            invariant
                next <= order@.len(),
                items@.len() == next,
                are_ranked(ranked, scored@, keys@),
                is_stable_order(ranked, as_positions(order@)),
                forall|i: int|
                    0 <= i < next ==> (#[trigger] items@[i])@ == ranked[order@[i] as int].item,
            decreases order@.len() - next,
        {
            assert(0 <= as_positions(order@)[next as int] < ranked.len());
            items.push(scored[order[next]].clone());
            next = next + 1;
        }
        items
    }

    /// Adds the persistent decorations of a query.
    fn rank_persistent(
        &self,
        persistent: &[DecorItem],
        window: WindowId,
        row: u32,
        scored: &mut Vec<DecorItem>,
        keys: &mut Vec<SortKey>,
    )
        requires
            self.wf(),
            old(scored)@.len() == 0,
            old(keys)@.len() == 0,
        ensures
            are_ranked(
                self@.ranked_persistent(persistent@, window, row),
                final(scored)@,
                final(keys)@,
            ),
    {
        let ghost shows = |item: DecorItem| item@.shows_on(window, row);
        let ghost rank = |item: DecorItem| RankedView { item: item@, key: self@.key(item@, None) };
        let mut next: usize = 0;
        proof {
            reveal(Seq::filter);
        }
        while next < persistent.len()
            invariant
                self.wf(),
                next <= persistent@.len(),
                shows == (|item: DecorItem| item@.shows_on(window, row)),
                rank == (|item: DecorItem|
                    RankedView { item: item@, key: self@.key(item@, None) }),
                are_ranked(
                    persistent@.take(next as int).filter(shows).map_values(rank),
                    scored@,
                    keys@,
                ),
            decreases persistent@.len() - next,
        {
            let item = &persistent[next];
            let ghost so_far = persistent@.take(next as int);
            proof {
                let with_next = persistent@.take(next + 1);
                assert(with_next.drop_last() =~= so_far);
                assert(with_next.last() == *item);
                reveal(Seq::filter);
                assert(so_far.filter(shows).push(*item).map_values(rank) =~= so_far.filter(
                    shows,
                ).map_values(rank).push(rank(*item)));
            }
            if item_matches(item, window, row) {
                let key = self.sort_key(item, None);
                scored.push(item.clone());
                keys.push(key);
            }
            next = next + 1;
        }
        assert(persistent@.take(next as int) =~= persistent@);
    }

    /// Adds the decorations of the active redraw to a query.
    fn rank_ephemeral(
        &self,
        state: &RedrawState,
        window: WindowId,
        row: u32,
        scored: &mut Vec<DecorItem>,
        keys: &mut Vec<SortKey>,
    )
        requires
            self.wf(),
            old(scored)@.len() == old(keys)@.len(),
        ensures
            forall|ranked: Seq<RankedView>| #[trigger]
                are_ranked(ranked, old(scored)@, old(keys)@) ==> are_ranked(
                    ranked + self@.ranked_ephemeral(state@.ephemeral, window, row),
                    final(scored)@,
                    final(keys)@,
                ),
    {
        let ghost shows = |stored: EphemeralView| stored.item.shows_on(window, row);
        let ghost rank = |stored: EphemeralView|
            RankedView { item: stored.item, key: self@.key(stored.item, Some(stored.seq)) };
        let ghost all = state@.ephemeral;
        let mut next: usize = 0;
        proof {
            reveal(Seq::filter);
            assert forall|ranked: Seq<RankedView>| #[trigger]
                are_ranked(ranked, scored@, keys@) implies are_ranked(
                ranked + all.take(0).filter(shows).map_values(rank),
                scored@,
                keys@,
            ) by {
                assert(ranked + all.take(0).filter(shows).map_values(rank) =~= ranked);
            }
        }
        while next < state.ephemeral.len()
            invariant
                self.wf(),
                next <= state.ephemeral@.len(),
                all == state@.ephemeral,
                all.len() == state.ephemeral@.len(),
                shows == (|stored: EphemeralView| stored.item.shows_on(window, row)),
                rank == (|stored: EphemeralView|
                    RankedView { item: stored.item, key: self@.key(stored.item, Some(stored.seq)) }),
                forall|ranked: Seq<RankedView>| #[trigger]
                    are_ranked(ranked, old(scored)@, old(keys)@) ==> are_ranked(
                        ranked + all.take(next as int).filter(shows).map_values(rank),
                        scored@,
                        keys@,
                    ),
            decreases state.ephemeral@.len() - next,
        {
            let stored = &state.ephemeral[next];
            let ghost so_far = all.take(next as int);
            let ghost with_next = all.take(next + 1);
            proof {
                assert(with_next.drop_last() =~= so_far);
                assert(with_next.last() == stored@);
                reveal(Seq::filter);
                assert(so_far.filter(shows).push(stored@).map_values(rank) =~= so_far.filter(
                    shows,
                ).map_values(rank).push(rank(stored@)));
            }
            let ghost scored_before = scored@;
            let ghost keys_before = keys@;
            if item_matches(&stored.item, window, row) {
                let key = self.sort_key(&stored.item, Some(stored.seq));
                scored.push(stored.item.clone());
                keys.push(key);
                proof {
                    assert forall|ranked: Seq<RankedView>| #[trigger]
                        are_ranked(ranked, old(scored)@, old(keys)@) implies are_ranked(
                        ranked + with_next.filter(shows).map_values(rank),
                        scored@,
                        keys@,
                    ) by {
                        let before = ranked + so_far.filter(shows).map_values(rank);
                        assert(are_ranked(before, scored_before, keys_before));
                        assert(ranked + with_next.filter(shows).map_values(rank) =~= before.push(
                            rank(stored@),
                        ));
                    }
                }
            }
            next = next + 1;
        }
        assert(all.take(next as int) =~= all);
    }

    fn sort_key(&self, item: &DecorItem, seq: Option<u64>) -> (key: SortKey)
        requires
            self.wf(),
        ensures
            key == self@.key(item@, seq),
    {
        let (category, reg_index, suborder): (u8, u64, u64) = match item.origin {
            DecorOrigin::Extmark { order, .. } => (0, 0, order),
            DecorOrigin::Provider { provider, .. } => {
                let position: usize = match self.find(provider) {
                    Some(slot) => slot,
                    None => usize::MAX,
                };
                (1, position as u64, seq.unwrap_or(0))
            },
        };
        SortKey { priority: item.priority, category, reg_index, suborder }
    }
}

/// The answer of [`Decorations::push_ephemeral`].
pub open spec fn push_result(registry: DecorationsView, id: RedrawId, item: DecorItemView) -> Result<
    (),
    DecorationError,
> {
    if registry.redraw is None {
        Err(DecorationError::NoActiveRedraw)
    } else if !registry.active(id) {
        Err(DecorationError::InvalidRedrawId)
    } else if item.origin is Provider && !registry.registered(item.origin->provider) {
        Err(DecorationError::UnknownProvider)
    } else if registry.redraw->0.next_seq == u64::MAX {
        Err(DecorationError::RedrawIdExhausted)
    } else {
        Ok(())
    }
}

/// The registry with `item` added to the active redraw.
pub open spec fn with_ephemeral(registry: DecorationsView, item: DecorItemView) -> DecorationsView {
    let redraw = registry.redraw->0;
    DecorationsView {
        redraw: Some(
            RedrawView {
                ephemeral: redraw.ephemeral.push(EphemeralView { item, seq: redraw.next_seq }),
                next_seq: (redraw.next_seq + 1) as u64,
                ..redraw
            },
        ),
        ..registry
    }
}

/// Whether `scored` and `keys` hold the items and the keys of `ranked`.
spec fn are_ranked(ranked: Seq<RankedView>, scored: Seq<DecorItem>, keys: Seq<SortKey>) -> bool {
    &&& scored.len() == ranked.len()
    &&& keys.len() == ranked.len()
    &&& forall|i: int| 0 <= i < ranked.len() ==> (#[trigger] scored[i])@ == ranked[i].item
    &&& forall|i: int| 0 <= i < ranked.len() ==> (#[trigger] keys[i]) == ranked[i].key
}

/// Machine indices as mathematical positions.
spec fn as_positions(order: Seq<usize>) -> Seq<int> {
    order.map_values(|position: usize| position as int)
}

/// Position `next` goes behind every position whose key does not follow its own.
proof fn lemma_insert_keeps_order(
    ranked: Seq<RankedView>,
    next: int,
    order: Seq<int>,
    place: int,
)
    requires
        0 <= next < ranked.len(),
        is_stable_order(ranked.take(next), order),
        0 <= place <= order.len(),
        forall|i: int|
            place <= i < order.len() ==> ranked[next].key.before(ranked[#[trigger] order[i]].key),
        place > 0 ==> !ranked[next].key.before(ranked[order[place - 1]].key),
    ensures
        is_stable_order(ranked.take(next + 1), order.insert(place, next)),
{
    let wider = ranked.take(next + 1);
    let placed = order.insert(place, next);
    assert forall|i: int| 0 <= i < placed.len() implies 0 <= #[trigger] placed[i] < wider.len() by {
        assert(placed[i] == next || placed[i] == order[if i < place { i } else { i - 1 }]);
    }
    assert forall|i: int, j: int| 0 <= i < j < placed.len() implies {
        let (first, second) = (#[trigger] placed[i], #[trigger] placed[j]);
        wider[first].key.before(wider[second].key) || (wider[first].key == wider[second].key
            && first < second)
    } by {
        let from = if i < place { i } else { i - 1 };
        let to = if j < place { j } else { j - 1 };
        if i != place && j != place {
            assert(placed[i] == order[from] && placed[j] == order[to]);
        } else if j == place {
            assert(placed[i] == order[i]);
            if i < place - 1 {
                assert(order[i] < next && order[place - 1] < next);
            }
        } else {
            assert(placed[j] == order[j - 1]);
        }
    }
}

/// The positions of `keys` in stable key order.
fn stable_order(keys: &Vec<SortKey>, Ghost(ranked): Ghost<Seq<RankedView>>) -> (order: Vec<usize>)
    requires
        keys@.len() == ranked.len(),
        forall|i: int| 0 <= i < ranked.len() ==> (#[trigger] keys@[i]) == ranked[i].key,
    ensures
        is_stable_order(ranked, as_positions(order@)),
{
    let mut order: Vec<usize> = Vec::new();
    let mut next: usize = 0;
    while next < keys.len()
        invariant
            next <= keys@.len(),
            keys@.len() == ranked.len(),
            forall|i: int| 0 <= i < ranked.len() ==> (#[trigger] keys@[i]) == ranked[i].key,
            is_stable_order(ranked.take(next as int), as_positions(order@)),
        decreases keys@.len() - next,
    {
        let ghost so_far = ranked.take(next as int);
        let mut place: usize = order.len();
        while place > 0
            invariant
                next < keys@.len(),
                keys@.len() == ranked.len(),
                forall|i: int| 0 <= i < ranked.len() ==> (#[trigger] keys@[i]) == ranked[i].key,
                so_far == ranked.take(next as int),
                place <= order@.len(),
                is_stable_order(so_far, as_positions(order@)),
                forall|i: int|
                    place <= i < order@.len() ==> keys@[next as int].before(
                        keys@[#[trigger] order@[i] as int],
                    ),
            ensures
                place > 0 ==> !keys@[next as int].before(keys@[order@[place - 1] as int]),
            decreases place,
        {
            assert(0 <= as_positions(order@)[place - 1] < so_far.len());
            if !keys[next].is_before(&keys[order[place - 1]]) {
                break;
            }
            place = place - 1;
        }
        let ghost positions = as_positions(order@);
        order.insert(place, next);
        proof {
            lemma_insert_keeps_order(ranked, next as int, positions, place as int);
            assert(as_positions(order@) =~= positions.insert(place as int, next as int));
        }
        next = next + 1;
    }
    assert(ranked.take(next as int) =~= ranked);
    order
}

fn item_matches(item: &DecorItem, window: WindowId, row: u32) -> (shows: bool)
    ensures
        shows == item@.shows_on(window, row),
{
    if let Some(scope) = item.window {
        if scope != window {
            return false;
        }
    }
    item.range.contains_row(row)
}

fn phase_callback(provider: &RegisteredProvider, phase: CallbackPhase) -> (callback: Option<u64>)
    ensures
        callback == provider.callbacks.for_phase(phase),
{
    let callbacks = &provider.callbacks;
    match phase {
        CallbackPhase::Start => raw_of(callbacks.start),
        CallbackPhase::Buf => raw_of(callbacks.buf),
        CallbackPhase::Win => raw_of(callbacks.win),
        CallbackPhase::Line => raw_of(callbacks.line),
        CallbackPhase::Range => raw_of(callbacks.range),
        CallbackPhase::End => raw_of(callbacks.end),
    }
}

fn raw_of<T>(callback: Option<CallbackId<T>>) -> (raw: Option<u64>)
    ensures
        raw == raw_callback(callback),
{
    match callback {
        Some(callback) => Some(callback.get()),
        None => None,
    }
}

/// Installing keeps the order of the registered providers: a known identifier
/// stays where it is, a new one goes last.
pub proof fn law_install_keeps_order(
    registry: DecorationsView,
    id: ProviderId,
    def: DecorProviderDef,
)
    ensures
        registry.installed(id, def).ids() == (if registry.registered(id) {
            registry.ids()
        } else {
            registry.ids().push(id)
        }),
{
    let after = registry.installed(id, def);
    if registry.registered(id) {
        assert(after.ids() =~= registry.ids());
    } else {
        assert(after.ids() =~= registry.ids().push(id));
    }
}

/// Clearing a provider and installing it again leaves it at its old place in
/// registration order, with its old index.
pub proof fn law_clear_keeps_the_slot(
    registry: DecorationsView,
    id: ProviderId,
    def: DecorProviderDef,
)
    requires
        registry.distinct(),
        registry.registered(id),
    ensures
        registry.cleared(id).ids() == registry.ids(),
        registry.cleared(id).installed(id, def) == registry.installed(id, def),
        registry.cleared(id).installed(id, def).provider(id).index == registry.provider(id).index,
{
    let cleared = registry.cleared(id);
    let slot = registry.slot(id);
    assert(cleared.ids() =~= registry.ids());
    assert(cleared.providers[slot].id == id);
    assert(cleared.slot(id) == slot) by {
        let other = cleared.slot(id);
        assert(cleared.providers[other].id == id);
        assert(registry.providers[other].id == id);
    }
    assert(cleared.installed(id, def).providers =~= registry.installed(id, def).providers);
    let after = registry.installed(id, def);
    assert(after.providers[slot].id == id);
    assert(after.slot(id) == slot) by {
        let other = after.slot(id);
        assert(after.providers[other].id == id);
        assert(registry.providers[other].id == id);
    }
}

/// A removed provider is gone, and every other provider keeps its place among
/// the rest.
pub proof fn law_remove_forgets_only_the_provider(registry: DecorationsView, id: ProviderId)
    requires
        registry.distinct(),
    ensures
        !registry.without(id).registered(id),
        registry.without(id).distinct(),
        forall|other: ProviderId|
            other != id ==> #[trigger] registry.without(id).registered(other)
                == registry.registered(other),
        registry.registered(id) ==> registry.without(id).ids() == registry.ids().remove(
            registry.slot(id),
        ),
{
    let after = registry.without(id);
    if registry.registered(id) {
        let slot = registry.slot(id);
        assert(after.ids() =~= registry.ids().remove(slot));
        assert forall|i: int| 0 <= i < after.providers.len() implies (
        #[trigger] after.providers[i]).id != id by {
            let from = if i < slot { i } else { i + 1 };
            assert(after.providers[i] == registry.providers[from]);
        }
        assert forall|other: ProviderId| other != id implies #[trigger] after.registered(other)
            == registry.registered(other) by {
            if registry.registered(other) {
                let at = registry.slot(other);
                let to = if at < slot { at } else { at - 1 };
                assert(after.providers[to] == registry.providers[at]);
            }
            if after.registered(other) {
                let at = after.slot(other);
                let from = if at < slot { at } else { at + 1 };
                assert(after.providers[at] == registry.providers[from]);
            }
        }
        assert forall|i: int, j: int| 0 <= i < j < after.providers.len() implies (
        #[trigger] after.providers[i]).id != (#[trigger] after.providers[j]).id by {
            let from = if i < slot { i } else { i + 1 };
            let to = if j < slot { j } else { j + 1 };
            assert(after.providers[i] == registry.providers[from]);
            assert(after.providers[j] == registry.providers[to]);
        }
    }
}

/// A registry that keeps its invariant names no provider twice.
pub proof fn lemma_wf_distinct(registry: Decorations)
    requires
        registry.wf(),
    ensures
        registry@.distinct(),
{
}

/// A call that gives a provider's callbacks up.
pub enum ProviderCall {
    /// [`Decorations::replace_provider`].
    Replace { id: ProviderId, def: DecorProviderDef },
    /// [`Decorations::clear_provider`].
    Clear { id: ProviderId },
    /// [`Decorations::remove`].
    Remove { id: ProviderId },
}

impl ProviderCall {
    /// The provider that the call is for.
    pub open spec fn id(self) -> ProviderId {
        match self {
            ProviderCall::Replace { id, .. } => id,
            ProviderCall::Clear { id } => id,
            ProviderCall::Remove { id } => id,
        }
    }

    /// Whether the call installs `def`.
    pub open spec fn installs(self, def: DecorProviderDef) -> bool {
        self matches ProviderCall::Replace { def: installed, .. } && installed == def
    }
}

impl DecorationsView {
    /// The registry after a call.
    pub open spec fn after(self, call: ProviderCall) -> Self {
        match call {
            ProviderCall::Replace { id, def } => self.installed(id, def),
            ProviderCall::Clear { id } => self.cleared(id),
            ProviderCall::Remove { id } => self.without(id),
        }
    }

    /// The registry after a run of calls.
    pub open spec fn after_all(self, calls: Seq<ProviderCall>) -> Self
        decreases calls.len(),
    {
        if calls.len() == 0 {
            self
        } else {
            self.after_all(calls.drop_last()).after(calls.last())
        }
    }

    /// What the call at `at` of a run hands back.
    pub open spec fn handed_back(self, calls: Seq<ProviderCall>, at: int) -> Option<
        DecorProviderDef,
    > {
        self.after_all(calls.take(at)).stored(calls[at].id())
    }
}

/// How many providers hold `def`.
pub open spec fn holders(providers: Seq<ProviderView>, def: DecorProviderDef) -> nat
    decreases providers.len(),
{
    if providers.len() == 0 {
        0
    } else {
        holders(providers.drop_last(), def) + (if providers.last().callbacks == def {
            1nat
        } else {
            0nat
        })
    }
}

/// How many calls of a run install `def`.
pub open spec fn times_installed(calls: Seq<ProviderCall>, def: DecorProviderDef) -> nat
    decreases calls.len(),
{
    if calls.len() == 0 {
        0
    } else {
        times_installed(calls.drop_last(), def) + (if calls.last().installs(def) {
            1nat
        } else {
            0nat
        })
    }
}

/// How many calls of a run hand `def` back.
pub open spec fn times_handed_back(
    registry: DecorationsView,
    calls: Seq<ProviderCall>,
    def: DecorProviderDef,
) -> nat
    decreases calls.len(),
{
    if calls.len() == 0 {
        0
    } else {
        times_handed_back(registry, calls.drop_last(), def) + (if registry.handed_back(
            calls,
            calls.len() - 1,
        ) == Some(def) {
            1nat
        } else {
            0nat
        })
    }
}

/// Changing one provider changes the holders by that one.
proof fn lemma_holders_update(
    providers: Seq<ProviderView>,
    at: int,
    provider: ProviderView,
    def: DecorProviderDef,
)
    requires
        0 <= at < providers.len(),
    ensures
        holders(providers.update(at, provider), def) + (if providers[at].callbacks == def {
            1nat
        } else {
            0nat
        }) == holders(providers, def) + (if provider.callbacks == def {
            1nat
        } else {
            0nat
        }),
    decreases providers.len(),
{
    let after = providers.update(at, provider);
    if at == providers.len() - 1 {
        assert(after.drop_last() =~= providers.drop_last());
    } else {
        assert(after.drop_last() =~= providers.drop_last().update(at, provider));
        lemma_holders_update(providers.drop_last(), at, provider, def);
    }
}

/// Taking one provider out takes it from the holders.
proof fn lemma_holders_remove(providers: Seq<ProviderView>, at: int, def: DecorProviderDef)
    requires
        0 <= at < providers.len(),
    ensures
        holders(providers.remove(at), def) + (if providers[at].callbacks == def {
            1nat
        } else {
            0nat
        }) == holders(providers, def),
    decreases providers.len(),
{
    let after = providers.remove(at);
    if at == providers.len() - 1 {
        assert(after =~= providers.drop_last());
    } else {
        assert(after.drop_last() =~= providers.drop_last().remove(at));
        lemma_holders_remove(providers.drop_last(), at, def);
    }
}

/// A registry holds what it held, and what was installed, less what it handed
/// back.
proof fn lemma_call_balances(registry: DecorationsView, call: ProviderCall, def: DecorProviderDef)
    requires
        def.has_any(),
    ensures
        holders(registry.after(call).providers, def) + (if registry.stored(call.id()) == Some(def) {
            1nat
        } else {
            0nat
        }) == holders(registry.providers, def) + (if call.installs(def) {
            1nat
        } else {
            0nat
        }),
{
    let id = call.id();
    let after = registry.after(call);
    if registry.registered(id) {
        let slot = registry.slot(id);
        match call {
            ProviderCall::Remove { .. } => {
                lemma_holders_remove(registry.providers, slot, def);
            },
            _ => {
                lemma_holders_update(registry.providers, slot, after.providers[slot], def);
            },
        }
    } else if call is Replace {
        assert(after.providers.drop_last() =~= registry.providers);
    }
}

/// Every definition is handed back exactly once for each time it was
/// installed, by whichever call takes it out: over any run of calls the
/// definitions that were held before or installed during the run are those
/// that were handed back and those that are still held.
pub proof fn law_definitions_are_handed_back_once(
    registry: DecorationsView,
    calls: Seq<ProviderCall>,
    def: DecorProviderDef,
)
    requires
        def.has_any(),
    ensures
        holders(registry.after_all(calls).providers, def) + times_handed_back(registry, calls, def)
            == holders(registry.providers, def) + times_installed(calls, def),
    decreases calls.len(),
{
    if calls.len() > 0 {
        let before = calls.drop_last();
        law_definitions_are_handed_back_once(registry, before, def);
        assert(calls.take(calls.len() - 1) =~= before);
        lemma_call_balances(registry.after_all(before), calls.last(), def);
    }
}

/// What a call stores for its provider.
proof fn lemma_call_stores(registry: DecorationsView, call: ProviderCall)
    requires
        registry.distinct(),
    ensures
        registry.after(call).distinct(),
        registry.after(call).stored(call.id()) == match call {
            ProviderCall::Replace { def, .. } => Some(def),
            ProviderCall::Clear { id } => if registry.registered(id) {
                Some(DecorProviderDef::none())
            } else {
                None
            },
            ProviderCall::Remove { .. } => None,
        },
{
    let id = call.id();
    let after = registry.after(call);
    match call {
        ProviderCall::Remove { .. } => {
            law_remove_forgets_only_the_provider(registry, id);
        },
        _ => {
            if registry.registered(id) {
                let slot = registry.slot(id);
                assert(after.providers[slot].id == id);
                assert(after.slot(id) == slot);
            } else if call is Replace {
                let last = registry.providers.len() as int;
                assert(after.providers[last].id == id);
                assert(after.slot(id) == last);
            }
        },
    }
}

/// After a definition was installed for a provider, the next call for that
/// provider hands it back, and no call after that one does until the
/// definition is installed again. A call that follows a clearing hands the
/// empty definition back.
pub proof fn law_installed_definition_is_handed_back(
    registry: DecorationsView,
    id: ProviderId,
    def: DecorProviderDef,
    calls: Seq<ProviderCall>,
)
    requires
        registry.distinct(),
        def.has_any(),
        calls.len() > 0,
        forall|i: int|
            0 <= i < calls.len() ==> (#[trigger] calls[i]).id() == id && !calls[i].installs(def),
    ensures
        registry.installed(id, def).handed_back(calls, 0) == Some(def),
        forall|i: int|
            0 < i < calls.len() ==> #[trigger] registry.installed(id, def).handed_back(calls, i)
                != Some(def),
        forall|i: int|
            0 < i < calls.len() && calls[i - 1] is Clear && registry.installed(
                id,
                def,
            ).handed_back(calls, i - 1) is Some ==> #[trigger] registry.installed(
                id,
                def,
            ).handed_back(calls, i) == Some(DecorProviderDef::none()),
{
    let start = registry.installed(id, def);
    lemma_call_stores(registry, ProviderCall::Replace { id, def });
    assert(calls.take(0) =~= Seq::empty());
    assert forall|i: int| 0 < i < calls.len() implies #[trigger] start.handed_back(calls, i)
        != Some(def) && (calls[i - 1] is Clear && start.handed_back(calls, i - 1) is Some
        ==> start.handed_back(calls, i) == Some(DecorProviderDef::none())) by {
        lemma_run_keeps_distinct(start, calls, i - 1);
        assert(calls.take(i).drop_last() =~= calls.take(i - 1));
        assert(calls.take(i).last() == calls[i - 1]);
        lemma_call_stores(start.after_all(calls.take(i - 1)), calls[i - 1]);
    }
}

/// After a run of calls no provider is registered twice.
proof fn lemma_run_keeps_distinct(registry: DecorationsView, calls: Seq<ProviderCall>, count: int)
    requires
        registry.distinct(),
        0 <= count <= calls.len(),
    ensures
        registry.after_all(calls.take(count)).distinct(),
    decreases count,
{
    if count > 0 {
        lemma_run_keeps_distinct(registry, calls, count - 1);
        assert(calls.take(count).drop_last() =~= calls.take(count - 1));
        lemma_call_stores(registry.after_all(calls.take(count - 1)), calls.take(count).last());
    }
}

/// The plan of the first providers is the order of the first providers, kept
/// where a callback runs.
proof fn lemma_plan_filters_order(
    registry: DecorationsView,
    runs: spec_fn(ProviderId) -> bool,
    visits: spec_fn(ProviderView) -> bool,
    count: int,
)
    requires
        0 <= count <= registry.providers.len(),
        forall|i: int|
            0 <= i < registry.providers.len() ==> visits(#[trigger] registry.providers[i]) == runs(
                registry.providers[i].id,
            ),
    ensures
        registry.providers.take(count).filter(visits).map_values(
            |provider: ProviderView| provider.id,
        ) == registry.ids().take(count).filter(runs),
    decreases count,
{
    reveal(Seq::filter);
    let id_of = |provider: ProviderView| provider.id;
    let providers = registry.providers.take(count);
    let ids = registry.ids().take(count);
    if count > 0 {
        lemma_plan_filters_order(registry, runs, visits, count - 1);
        assert(providers.drop_last() =~= registry.providers.take(count - 1));
        assert(ids.drop_last() =~= registry.ids().take(count - 1));
        let provider = providers.last();
        assert(provider == registry.providers[count - 1]);
        assert(ids.last() == provider.id);
        let kept = providers.drop_last().filter(visits);
        if visits(provider) {
            assert(kept.push(provider).map_values(id_of) =~= kept.map_values(id_of).push(
                provider.id,
            ));
        }
    }
    assert(providers.filter(visits).map_values(id_of) =~= ids.filter(runs));
}

/// A phase plan is the registration order without the providers that have no
/// callback to run in the phase, disabled ones among them. It names no
/// provider twice.
pub proof fn law_plan_is_the_order_filtered(registry: DecorationsView, phase: CallbackPhase)
    requires
        registry.distinct(),
    ensures
        registry.phase_plan(phase) == registry.ids().filter(
            |id: ProviderId| registry.callback(id, phase) is Some,
        ),
        registry.phase_plan(phase).no_duplicates(),
{
    let runs = |id: ProviderId| registry.callback(id, phase) is Some;
    let visits = |provider: ProviderView|
        provider.enabled && provider.callbacks.for_phase(phase) is Some;
    assert forall|i: int| 0 <= i < registry.providers.len() implies visits(
        #[trigger] registry.providers[i],
    ) == runs(registry.providers[i].id) by {
        let id = registry.providers[i].id;
        assert(registry.registered(id));
        assert(registry.slot(id) == i);
    }
    let count = registry.providers.len() as int;
    lemma_plan_filters_order(registry, runs, visits, count);
    assert(registry.providers.take(count) =~= registry.providers);
    assert(registry.ids().take(count) =~= registry.ids());
    assert(registry.ids().no_duplicates());
    lemma_filter_keeps_distinct(registry.ids(), runs);
}

/// Everything that a filter keeps was there before.
proof fn lemma_filter_keeps_members<T>(all: Seq<T>, keep: spec_fn(T) -> bool, member: T)
    requires
        all.filter(keep).contains(member),
    ensures
        all.contains(member),
    decreases all.len(),
{
    reveal(Seq::filter);
    if all.len() > 0 && all.drop_last().filter(keep).contains(member) {
        lemma_filter_keeps_members(all.drop_last(), keep, member);
        let at = all.drop_last().index_of(member);
        assert(all[at] == member);
    } else if all.len() > 0 {
        let kept = all.filter(keep);
        let at = kept.index_of(member);
        assert(kept[at] == member);
        if at < all.drop_last().filter(keep).len() {
            assert(all.drop_last().filter(keep)[at] == member);
        }
        assert(all[all.len() - 1] == member);
    }
}

/// A filter of a sequence without repeats repeats nothing.
proof fn lemma_filter_keeps_distinct<T>(all: Seq<T>, keep: spec_fn(T) -> bool)
    requires
        all.no_duplicates(),
    ensures
        all.filter(keep).no_duplicates(),
    decreases all.len(),
{
    reveal(Seq::filter);
    if all.len() > 0 {
        let before = all.drop_last();
        lemma_filter_keeps_distinct(before, keep);
        if before.filter(keep).contains(all.last()) {
            lemma_filter_keeps_members(before, keep, all.last());
            let at = before.index_of(all.last());
            assert(all[at] == all.last());
        }
    }
}

/// A phase plan names exactly the providers that have a callback to run in the
/// phase.
pub proof fn law_plan_names_runnable_providers(
    registry: DecorationsView,
    phase: CallbackPhase,
    id: ProviderId,
)
    requires
        registry.distinct(),
    ensures
        registry.phase_plan(phase).contains(id) == (registry.callback(id, phase) is Some),
{
    let visits = |provider: ProviderView|
        provider.enabled && provider.callbacks.for_phase(phase) is Some;
    let id_of = |provider: ProviderView| provider.id;
    let visited = registry.providers.filter(visits);
    if registry.phase_plan(phase).contains(id) {
        let at = choose|i: int| 0 <= i < visited.len() && visited.map_values(id_of)[i] == id;
        let provider = visited[at];
        assert(visited.contains(provider));
        registry.providers.lemma_filter_pred(visits, at);
        lemma_filter_keeps_members(registry.providers, visits, provider);
        let from = registry.providers.index_of(provider);
        assert(registry.providers[from].id == id);
        assert(registry.slot(id) == from);
    }
    if registry.callback(id, phase) is Some {
        let provider = registry.provider(id);
        assert(registry.providers.contains(provider));
        registry.providers.lemma_filter_contains_rev(visits, provider);
        assert(visited.contains(provider));
        let at = visited.index_of(provider);
        assert(visited.map_values(id_of)[at] == id);
    }
}

/// No phase plan names a disabled provider.
pub proof fn law_disabled_provider_is_not_visited(
    registry: DecorationsView,
    id: ProviderId,
    phase: CallbackPhase,
)
    requires
        registry.distinct(),
    ensures
        !registry.with_enabled(id, false).phase_plan(phase).contains(id),
{
    let after = registry.with_enabled(id, false);
    assert(after.distinct()) by {
        assert forall|i: int, j: int| 0 <= i < j < after.providers.len() implies (
        #[trigger] after.providers[i]).id != (#[trigger] after.providers[j]).id by {
            assert(after.providers[i].id == registry.providers[i].id);
            assert(after.providers[j].id == registry.providers[j].id);
        }
    }
    if registry.registered(id) {
        let slot = registry.slot(id);
        assert(after.providers[slot].id == id);
        assert(after.slot(id) == slot);
    }
    law_plan_names_runnable_providers(after, phase, id);
}

/// Redraw identifiers are never reused: a redraw entered after another one was
/// finished has a larger identifier.
pub proof fn law_redraw_ids_grow(registry: DecorationsView, first_tick: u64, second_tick: u64)
    requires
        registry.next_redraw < u64::MAX - 1,
    ensures
        registry.entered(first_tick).redraw->0.id.0 < registry.entered(first_tick).finished().entered(
            second_tick,
        ).redraw->0.id.0,
{
}

/// A finished redraw leaves nothing behind: no query answers anything until
/// the next redraw, and that one starts without decorations.
pub proof fn law_finish_discards_decorations(
    registry: DecorationsView,
    id: RedrawId,
    persistent: Seq<DecorItem>,
    window: WindowId,
    row: u32,
    tick: u64,
)
    ensures
        registry.finished().ranked(id, persistent, window, row).len() == 0,
        registry.finished().entered(tick).redraw->0.ephemeral.len() == 0,
        registry.finished().providers == registry.providers,
{
}

/// A query's answer is determined by what shows: two answers that are both
/// stably sorted hold the same decorations in the same places.
pub proof fn law_query_order_is_unique(
    ranked: Seq<RankedView>,
    one: Seq<DecorItem>,
    other: Seq<DecorItem>,
)
    requires
        is_sorted_by_key(ranked, one),
        is_sorted_by_key(ranked, other),
    ensures
        one.len() == other.len(),
        forall|i: int| 0 <= i < one.len() ==> (#[trigger] one[i])@ == other[i]@,
{
    let first = choose|order: Seq<int>| #[trigger]
        is_stable_order(ranked, order) && one.len() == order.len() && forall|i: int|
            0 <= i < one.len() ==> (#[trigger] one[i])@ == ranked[order[i]].item;
    let second = choose|order: Seq<int>| #[trigger]
        is_stable_order(ranked, order) && other.len() == order.len() && forall|i: int|
            0 <= i < other.len() ==> (#[trigger] other[i])@ == ranked[order[i]].item;
    lemma_stable_order_is_unique(ranked, first, second);
}

/// Two stable orders of one sequence are equal.
proof fn lemma_stable_order_is_unique(ranked: Seq<RankedView>, one: Seq<int>, other: Seq<int>)
    requires
        is_stable_order(ranked, one),
        is_stable_order(ranked, other),
    ensures
        one == other,
{
    lemma_stable_order_lists_all(ranked, one);
    lemma_stable_order_lists_all(ranked, other);
    assert forall|k: int| 0 <= k < one.len() implies one[k] == other[k] by {
        lemma_stable_orders_agree(ranked, one, other, k);
    }
    assert(one =~= other);
}

/// A stable order lists every position.
proof fn lemma_stable_order_lists_all(ranked: Seq<RankedView>, order: Seq<int>)
    requires
        is_stable_order(ranked, order),
    ensures
        forall|position: int|
            0 <= position < ranked.len() ==> #[trigger] order.contains(position),
{
    assert(order.no_duplicates());
    order.unique_seq_to_set();
    let all = vstd::set_lib::set_int_range(0, ranked.len() as int);
    vstd::set_lib::lemma_int_range(0, ranked.len() as int);
    assert(order.to_set().subset_of(all));
    vstd::set_lib::lemma_subset_equality(order.to_set(), all);
    assert forall|position: int| 0 <= position < ranked.len() implies #[trigger] order.contains(
        position,
    ) by {
        assert(order.to_set().contains(position));
    }
}

/// Two stable orders agree up to and at position `k`.
proof fn lemma_stable_orders_agree(
    ranked: Seq<RankedView>,
    one: Seq<int>,
    other: Seq<int>,
    k: int,
)
    requires
        is_stable_order(ranked, one),
        is_stable_order(ranked, other),
        forall|position: int| 0 <= position < ranked.len() ==> #[trigger] one.contains(position),
        forall|position: int| 0 <= position < ranked.len() ==> #[trigger] other.contains(position),
        0 <= k < one.len(),
    ensures
        forall|i: int| 0 <= i <= k ==> one[i] == other[i],
    decreases k,
{
    if k > 0 {
        lemma_stable_orders_agree(ranked, one, other, k - 1);
    }
    assert(one.contains(other[k]));
    assert(other.contains(one[k]));
    let in_one = one.index_of(other[k]);
    let in_other = other.index_of(one[k]);
    assert(one[in_one] == other[k]);
    assert(other[in_other] == one[k]);
    if one[k] != other[k] {
        if in_one < k {
            assert(other[in_one] == other[k]);
            assert(false);
        }
        if in_other < k {
            assert(one[in_other] == one[k]);
            assert(false);
        }
        assert(k < in_one && k < in_other);
        assert(false);
    }
}

/// Between two providers' decorations of one priority, registration order
/// decides, whatever order they were added in.
pub proof fn law_registration_order_breaks_ties(
    registry: DecorationsView,
    first: DecorItemView,
    first_seq: Option<u64>,
    second: DecorItemView,
    second_seq: Option<u64>,
)
    requires
        registry.providers.len() <= usize::MAX,
        registry.distinct(),
        first.origin is Provider,
        second.origin is Provider,
        first.priority == second.priority,
        registry.registered(first.origin->provider),
        registry.registered(second.origin->provider),
        registry.slot(first.origin->provider) < registry.slot(second.origin->provider),
    ensures
        registry.key(first, first_seq).before(registry.key(second, second_seq)),
{
    let at = registry.slot(first.origin->provider);
    assert(registry.providers[at].id == first.origin->provider);
    let to = registry.slot(second.origin->provider);
    assert(registry.providers[to].id == second.origin->provider);
}

/// At one priority every extmark comes before every provider's decoration.
pub proof fn law_extmarks_come_first(
    registry: DecorationsView,
    mark: DecorItemView,
    mark_seq: Option<u64>,
    added: DecorItemView,
    added_seq: Option<u64>,
)
    requires
        mark.origin is Extmark,
        added.origin is Provider,
        mark.priority == added.priority,
    ensures
        registry.key(mark, mark_seq).before(registry.key(added, added_seq)),
{
}

} // verus!
