//! Failures while mutating editor state.

use vstd::prelude::*;

use crate::buffer::BufferStateError;
use crate::text::signed_string;
use crate::types::{BufHandle, TabHandle, WinHandle};
use crate::window::LayoutError;

verus! {

/// What a handle space holds.
#[derive(Clone, Copy, Debug, PartialEq, Eq, Structural)]
pub enum HandleKind {
    /// Buffer handles.
    Buffer,
    /// Window handles.
    Window,
    /// Tabpage handles.
    Tabpage,
}

/// Failures while mutating editor state.
#[derive(Debug, PartialEq, Eq)]
pub enum EditorError {
    /// A buffer handle is not live.
    UnknownBuffer(BufHandle),
    /// Another live buffer already owns the requested name.
    NameInUse(String),
    /// A window handle is not live.
    UnknownWindow(WinHandle),
    /// A tabpage handle is not live, or does not own the window it was named
    /// with.
    UnknownTabpage(TabHandle),
    /// An operation requiring a current tabpage was requested in an empty
    /// editor.
    NoCurrentTabpage,
    /// The only remaining tabpage cannot be closed.
    LastTabpage,
    /// A displayed buffer cannot be wiped.
    BufferInUse {
        /// Buffer requested for wiping.
        buffer: BufHandle,
        /// Number of windows displaying it.
        windows: usize,
    },
    /// A 32-bit editor handle space was exhausted.
    HandleExhausted(HandleKind),
    /// A buffer operation failed.
    Buffer(BufferStateError),
    /// A frame-tree operation failed.
    Layout(LayoutError),
}

/// The name of a handle space.
pub open spec fn kind_name(kind: HandleKind) -> Seq<char> {
    match kind {
        HandleKind::Buffer => "buffer"@,
        HandleKind::Window => "window"@,
        HandleKind::Tabpage => "tabpage"@,
    }
}

/// The words of a buffer failure.
pub open spec fn buffer_failure(error: BufferStateError) -> Seq<char> {
    match error {
        BufferStateError::Unloaded => "buffer is not loaded"@,
        BufferStateError::Attached => "buffer is attached to a window"@,
        BufferStateError::InvalidRange => "invalid buffer range"@,
    }
}

/// The words of a layout failure.
pub open spec fn layout_failure(error: LayoutError) -> Seq<char> {
    match error {
        LayoutError::NoRoom => "not enough room"@,
        LayoutError::LastWindow => "cannot close last window"@,
        LayoutError::UnknownWindow => "window is not part of the layout"@,
    }
}

/// The words of an editor failure.
pub open spec fn failure_text(error: EditorError) -> Seq<char> {
    match error {
        EditorError::UnknownBuffer(buffer) => "Buffer "@ + crate::text::signed_text(
            buffer.0 as int,
        ) + " does not exist"@,
        EditorError::NameInUse(name) => "buffer name already in use: "@ + name@,
        EditorError::UnknownWindow(window) => "unknown window WinHandle("@
            + crate::text::signed_text(window.0 as int) + ")"@,
        EditorError::UnknownTabpage(tab) => "unknown tabpage TabHandle("@
            + crate::text::signed_text(tab.0 as int) + ")"@,
        EditorError::NoCurrentTabpage => "no current tabpage"@,
        EditorError::LastTabpage => "cannot close last tab page"@,
        EditorError::BufferInUse { buffer, windows } => "cannot wipe buffer BufHandle("@
            + crate::text::signed_text(buffer.0 as int) + ") attached to "@
            + crate::text::decimal_text(windows as nat) + " window(s)"@,
        EditorError::HandleExhausted(kind) => kind_name(kind) + " handle space exhausted"@,
        EditorError::Buffer(error) => buffer_failure(error),
        EditorError::Layout(error) => layout_failure(error),
    }
}

impl EditorError {
    /// The failure in words.
    #[must_use]
    pub fn message(&self) -> (text: String)
        ensures
            text@ == failure_text(*self),
    {
        match self {
            EditorError::UnknownBuffer(buffer) => {
                let mut text = "Buffer ".to_owned();
                text.append(signed_string(buffer.0 as i64).as_str());
                text.append(" does not exist");
                text
            },
            EditorError::NameInUse(name) => {
                let mut text = "buffer name already in use: ".to_owned();
                text.append(name.as_str());
                text
            },
            EditorError::UnknownWindow(window) => {
                let mut text = "unknown window WinHandle(".to_owned();
                text.append(signed_string(window.0 as i64).as_str());
                text.append(")");
                text
            },
            EditorError::UnknownTabpage(tab) => {
                let mut text = "unknown tabpage TabHandle(".to_owned();
                text.append(signed_string(tab.0 as i64).as_str());
                text.append(")");
                text
            },
            EditorError::NoCurrentTabpage => "no current tabpage".to_owned(),
            EditorError::LastTabpage => "cannot close last tab page".to_owned(),
            EditorError::BufferInUse { buffer, windows } => {
                let mut text = "cannot wipe buffer BufHandle(".to_owned();
                text.append(signed_string(buffer.0 as i64).as_str());
                text.append(") attached to ");
                let count = crate::text::string_of(
                    crate::text::number_chars(*windows as u64).as_slice(),
                );
                text.append(count.as_str());
                text.append(" window(s)");
                text
            },
            EditorError::HandleExhausted(kind) => {
                let mut text = match kind {
                    HandleKind::Buffer => "buffer",
                    HandleKind::Window => "window",
                    HandleKind::Tabpage => "tabpage",
                }.to_owned();
                text.append(" handle space exhausted");
                text
            },
            EditorError::Buffer(error) => match error {
                BufferStateError::Unloaded => "buffer is not loaded",
                BufferStateError::Attached => "buffer is attached to a window",
                BufferStateError::InvalidRange => "invalid buffer range",
            }.to_owned(),
            EditorError::Layout(error) => match error {
                LayoutError::NoRoom => "not enough room",
                LayoutError::LastWindow => "cannot close last window",
                LayoutError::UnknownWindow => "window is not part of the layout",
            }.to_owned(),
        }
    }
}

} // verus!
