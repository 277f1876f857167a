//! Values shared by the whole crate: handles, byte strings, positions and the
//! script values that builtins take and return.

use vstd::prelude::*;

use crate::text::{copy_bytes, same_bytes};

verus! {

/// Handle of a buffer; zero stands for the current one.
#[derive(Clone, Copy, Debug, PartialEq, Eq, PartialOrd, Ord, Hash, Structural)]
pub struct BufHandle(pub i32);

/// Handle of a window; zero stands for the current one.
#[derive(Clone, Copy, Debug, PartialEq, Eq, PartialOrd, Ord, Hash, Structural)]
pub struct WinHandle(pub i32);

/// Handle of a tabpage; zero stands for the current one.
#[derive(Clone, Copy, Debug, PartialEq, Eq, PartialOrd, Ord, Hash, Structural)]
pub struct TabHandle(pub i32);

/// Whether `value` is the number of some handle.
pub open spec fn is_handle_number(value: i64) -> bool {
    0 <= value <= i32::MAX
}

impl BufHandle {
    /// The handle that stands for the current buffer.
    #[must_use]
    pub fn current() -> (handle: BufHandle)
        ensures
            handle == BufHandle(0),
    {
        BufHandle(0)
    }

    /// Whether this handle stands for the current buffer.
    #[must_use]
    pub fn is_current(&self) -> (current: bool)
        ensures
            current == (self.0 == 0),
    {
        self.0 == 0
    }

    /// The handle numbered `value`, if there is one.
    #[must_use]
    pub fn try_from_number(value: i64) -> (handle: Option<BufHandle>)
        ensures
            handle == (if is_handle_number(value) {
                Some(BufHandle(value as i32))
            } else {
                None
            }),
    {
        if 0 <= value && value <= i32::MAX as i64 {
            Some(BufHandle(value as i32))
        } else {
            None
        }
    }
}

impl WinHandle {
    /// The handle that stands for the current window.
    #[must_use]
    pub fn current() -> (handle: WinHandle)
        ensures
            handle == WinHandle(0),
    {
        WinHandle(0)
    }

    /// Whether this handle stands for the current window.
    #[must_use]
    pub fn is_current(&self) -> (current: bool)
        ensures
            current == (self.0 == 0),
    {
        self.0 == 0
    }

    /// The handle numbered `value`, if there is one.
    #[must_use]
    pub fn try_from_number(value: i64) -> (handle: Option<WinHandle>)
        ensures
            handle == (if is_handle_number(value) {
                Some(WinHandle(value as i32))
            } else {
                None
            }),
    {
        if 0 <= value && value <= i32::MAX as i64 {
            Some(WinHandle(value as i32))
        } else {
            None
        }
    }
}

impl TabHandle {
    /// The handle that stands for the current tabpage.
    #[must_use]
    pub fn current() -> (handle: TabHandle)
        ensures
            handle == TabHandle(0),
    {
        TabHandle(0)
    }

    /// Whether this handle stands for the current tabpage.
    #[must_use]
    pub fn is_current(&self) -> (current: bool)
        ensures
            current == (self.0 == 0),
    {
        self.0 == 0
    }

    /// The handle numbered `value`, if there is one.
    #[must_use]
    pub fn try_from_number(value: i64) -> (handle: Option<TabHandle>)
        ensures
            handle == (if is_handle_number(value) {
                Some(TabHandle(value as i32))
            } else {
                None
            }),
    {
        if 0 <= value && value <= i32::MAX as i64 {
            Some(TabHandle(value as i32))
        } else {
            None
        }
    }
}

/// One-based line and zero-based byte column.
#[derive(Clone, Copy, Debug, PartialEq, Eq, PartialOrd, Ord, Hash, Structural)]
pub struct Position {
    /// One-based line number.
    pub lnum: usize,
    /// Zero-based byte column.
    pub col: usize,
}

/// Zero-based row and byte column.
#[derive(Clone, Copy, Debug, PartialEq, Eq, PartialOrd, Ord, Hash, Structural)]
pub struct ExtmarkPosition {
    /// Zero-based row.
    pub row: usize,
    /// Zero-based byte column.
    pub column: usize,
}

impl ExtmarkPosition {
    /// A position from its row and column.
    #[must_use]
    pub fn new(row: usize, column: usize) -> (position: Self)
        ensures
            position == (ExtmarkPosition { row, column }),
    {
        ExtmarkPosition { row, column }
    }

    /// Reading order: by row, then by column.
    pub open spec fn at_or_before(self, other: Self) -> bool {
        self.row < other.row || (self.row == other.row && self.column <= other.column)
    }
}

/// Size of a stretch of text: how many rows it goes down, and the columns it
/// takes on its last row.
#[derive(Clone, Copy, Debug, PartialEq, Eq, PartialOrd, Ord, Hash, Structural)]
pub struct TextExtent {
    /// Rows between the first and the last row.
    pub rows: usize,
    /// Columns on the last row, counted from the start of the stretch when it
    /// stays on one row.
    pub columns: usize,
}

impl TextExtent {
    /// An extent from its rows and columns.
    #[must_use]
    pub fn new(rows: usize, columns: usize) -> (extent: Self)
        ensures
            extent == (TextExtent { rows, columns }),
    {
        TextExtent { rows, columns }
    }
}

/// Replacement of one stretch of text by another.
#[derive(Clone, Copy, Debug, PartialEq, Eq, PartialOrd, Ord, Hash, Structural)]
pub struct TextSplice {
    /// Where both stretches start.
    pub start: ExtmarkPosition,
    /// Size of the removed stretch.
    pub old_extent: TextExtent,
    /// Size of the inserted stretch.
    pub new_extent: TextExtent,
}

/// The row that a stretch of `extent` from `start` ends on.
pub open spec fn end_row(start: ExtmarkPosition, extent: TextExtent) -> int {
    start.row + extent.rows
}

/// The column that a stretch of `extent` from `start` ends before.
pub open spec fn end_column(start: ExtmarkPosition, extent: TextExtent) -> int {
    if extent.rows == 0 {
        start.column + extent.columns
    } else {
        extent.columns as int
    }
}

impl TextSplice {
    /// Both ends can be written down as positions, and their one-based lines
    /// too.
    pub open spec fn fits(self) -> bool {
        &&& end_row(self.start, self.old_extent) < usize::MAX
        &&& end_row(self.start, self.new_extent) < usize::MAX
        &&& end_column(self.start, self.old_extent) <= usize::MAX
        &&& end_column(self.start, self.new_extent) <= usize::MAX
    }

    /// Where the removed stretch ends.
    #[must_use]
    pub fn old_end(&self) -> (end: ExtmarkPosition)
        requires
            self.fits(),
        ensures
            end.row == end_row(self.start, self.old_extent),
            end.column == end_column(self.start, self.old_extent),
    {
        ExtmarkPosition {
            row: self.start.row + self.old_extent.rows,
            column: if self.old_extent.rows == 0 {
                self.start.column + self.old_extent.columns
            } else {
                self.old_extent.columns
            },
        }
    }

    /// Where the inserted stretch ends.
    #[must_use]
    pub fn new_end(&self) -> (end: ExtmarkPosition)
        requires
            self.fits(),
        ensures
            end.row == end_row(self.start, self.new_extent),
            end.column == end_column(self.start, self.new_extent),
    {
        ExtmarkPosition {
            row: self.start.row + self.new_extent.rows,
            column: if self.new_extent.rows == 0 {
                self.start.column + self.new_extent.columns
            } else {
                self.new_extent.columns
            },
        }
    }
}

/// A byte string.
#[derive(Debug, PartialEq, Eq, PartialOrd, Ord, Hash)]
pub struct OxStr(pub Vec<u8>);

impl View for OxStr {
    type V = Seq<u8>;

    open spec fn view(&self) -> Seq<u8> {
        self.0@
    }
}

impl Clone for OxStr {
    fn clone(&self) -> (copy: Self)
        ensures
            copy@ == self@,
    {
        OxStr(copy_bytes(self.0.as_slice()))
    }
}

impl OxStr {
    /// The bytes of `text`.
    #[must_use]
    pub fn from_text(text: &str) -> (bytes: Self)
        ensures
            bytes@ == vstd::utf8::encode_utf8(text@),
    {
        OxStr(copy_bytes(text.as_bytes()))
    }

    /// The bytes.
    #[must_use]
    pub fn as_bytes(&self) -> (bytes: &[u8])
        ensures
            bytes@ == self@,
    {
        self.0.as_slice()
    }

    /// Whether two byte strings hold the same bytes.
    #[must_use]
    pub fn same(&self, other: &OxStr) -> (same: bool)
        ensures
            same == (self@ == other@),
    {
        same_bytes(self.0.as_slice(), other.0.as_slice())
    }
}

/// An error of the script evaluator: a code such as `E118` and its message.
#[derive(Debug, PartialEq, Eq)]
pub struct EvalError {
    /// The error code.
    pub code: String,
    /// The words that follow the code.
    pub message: String,
}

impl EvalError {
    /// An error from its code and message.
    #[must_use]
    pub fn new(code: &str, message: &str) -> (error: Self)
        ensures
            error.reads(code@, message@),
    {
        EvalError { code: code.to_owned(), message: message.to_owned() }
    }

    /// Whether this error has that code and message.
    pub open spec fn reads(self, code: Seq<char>, message: Seq<char>) -> bool {
        self.code@ == code && self.message@ == message
    }
}

/// Whether `result` is the error with that code and message.
pub open spec fn fails_with<T>(
    result: Result<T, EvalError>,
    code: Seq<char>,
    message: Seq<char>,
) -> bool {
    result is Err && result->Err_0.reads(code, message)
}

/// A script value.
#[derive(Debug, PartialEq, Eq)]
pub enum Typval {
    /// `v:null`.
    Nil,
    /// A boolean.
    Bool(bool),
    /// A number.
    Number(i64),
    /// A byte string.
    String(OxStr),
    /// A list.
    List(Vec<Typval>),
    /// A dictionary, entries in insertion order.
    Dict(Vec<(OxStr, Typval)>),
}

/// What a [`Typval`] holds.
#[verifier::ext_equal]
pub enum TypvalView {
    Nil,
    Bool(bool),
    Number(i64),
    String(Seq<u8>),
    List(Seq<TypvalView>),
    Dict(Seq<(Seq<u8>, TypvalView)>),
}

/// What a list of values holds.
pub open spec fn list_view(items: Seq<Typval>) -> Seq<TypvalView> {
    Seq::new(items.len(), |i: int| items[i]@)
}

/// What dictionary entries hold.
pub open spec fn entries_view(entries: Seq<(OxStr, Typval)>) -> Seq<(Seq<u8>, TypvalView)> {
    Seq::new(entries.len(), |i: int| (entries[i].0@, entries[i].1@))
}

/// A list holds what its items hold.
pub proof fn lemma_list_view(items: Vec<Typval>)
    ensures
        Typval::List(items)@ == TypvalView::List(list_view(items@)),
{
    assert(Typval::List(items)@->List_0 =~= list_view(items@));
}

/// A dictionary holds what its entries hold.
pub proof fn lemma_dict_view(entries: Vec<(OxStr, Typval)>)
    ensures
        Typval::Dict(entries)@ == TypvalView::Dict(entries_view(entries@)),
{
    assert(Typval::Dict(entries)@->Dict_0 =~= entries_view(entries@));
}

impl Typval {
    /// What this value holds.
    pub open spec fn held(self) -> TypvalView
        decreases self,
    {
        match self {
            Typval::Nil => TypvalView::Nil,
            Typval::Bool(value) => TypvalView::Bool(value),
            Typval::Number(value) => TypvalView::Number(value),
            Typval::String(value) => TypvalView::String(value@),
            Typval::List(items) => TypvalView::List(
                Seq::new(
                    items@.len(),
                    |i: int|
                        if 0 <= i < items@.len() {
                            items@[i].held()
                        } else {
                            TypvalView::Nil
                        },
                ),
            ),
            Typval::Dict(entries) => TypvalView::Dict(
                Seq::new(
                    entries@.len(),
                    |i: int|
                        if 0 <= i < entries@.len() {
                            (entries@[i].0@, entries@[i].1.held())
                        } else {
                            (Seq::empty(), TypvalView::Nil)
                        },
                ),
            ),
        }
    }

    /// A list value.
    #[must_use]
    pub fn list(items: Vec<Typval>) -> (value: Typval)
        ensures
            value@ == TypvalView::List(list_view(items@)),
    {
        let value = Typval::List(items);
        assert(value@->List_0 =~= list_view(items@));
        value
    }

    /// A dictionary value.
    #[must_use]
    pub fn dict(entries: Vec<(OxStr, Typval)>) -> (value: Typval)
        ensures
            value@ == TypvalView::Dict(entries_view(entries@)),
    {
        let value = Typval::Dict(entries);
        assert(value@->Dict_0 =~= entries_view(entries@));
        value
    }

    /// A string value.
    #[must_use]
    pub fn text(text: &str) -> (value: Typval)
        ensures
            value@ == TypvalView::String(vstd::utf8::encode_utf8(text@)),
    {
        Typval::String(OxStr::from_text(text))
    }
}

impl View for Typval {
    type V = TypvalView;

    open spec fn view(&self) -> TypvalView {
        self.held()
    }
}

impl Clone for Typval {
    fn clone(&self) -> (copy: Self)
        ensures
            copy@ == self@,
        decreases self,
    {
        match self {
            Typval::Nil => Typval::Nil,
            Typval::Bool(value) => Typval::Bool(*value),
            Typval::Number(value) => Typval::Number(*value),
            Typval::String(value) => Typval::String(value.clone()),
            Typval::List(items) => {
                let mut copies: Vec<Typval> = Vec::new();
                let mut next: usize = 0;
                while next < items.len()
                    invariant
                        next <= items@.len(),
                        copies@.len() == next,
                        forall|i: int| 0 <= i < next ==> (#[trigger] copies@[i])@ == items@[i]@,
                        decreases_to!(self => items@),
                    decreases items@.len() - next,
                {
                    assert(decreases_to!(items@ => items@[next as int]));
                    copies.push(items[next].clone());
                    next = next + 1;
                }
                let copy = Typval::List(copies);
                assert(copy@->List_0 =~= self@->List_0);
                copy
            },
            Typval::Dict(entries) => {
                let mut copies: Vec<(OxStr, Typval)> = Vec::new();
                let mut next: usize = 0;
                while next < entries.len()
                    invariant
                        next <= entries@.len(),
                        copies@.len() == next,
                        forall|i: int|
                            0 <= i < next ==> (#[trigger] copies@[i]).0@ == entries@[i].0@
                                && copies@[i].1@ == entries@[i].1@,
                        decreases_to!(self => entries@),
                    decreases entries@.len() - next,
                {
                    assert(decreases_to!(entries@ => entries@[next as int]));
                    let key = entries[next].0.clone();
                    let value = entries[next].1.clone();
                    copies.push((key, value));
                    next = next + 1;
                }
                let copy = Typval::Dict(copies);
                assert(copy@->Dict_0 =~= self@->Dict_0);
                copy
            },
        }
    }
}

} // verus!
