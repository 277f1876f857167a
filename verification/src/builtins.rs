//! Script functions that read or change editor state.

use vstd::prelude::*;

pub mod server;
pub mod tag;
pub mod view;
pub mod window;

use crate::editor::Editor;
use crate::text::{lossy, signed_string};
use crate::types::{EvalError, OxStr, Typval, TypvalView, WinHandle};

verus! {

/// The bytes of a dictionary key.
pub open spec fn key(name: Seq<char>) -> Seq<u8> {
    vstd::utf8::encode_utf8(name)
}

/// Whether a dictionary key has that name.
pub(crate) fn is_key(bytes: &OxStr, name: &str) -> (is: bool)
    ensures
        is == (bytes@ == key(name@)),
{
    bytes.same(&OxStr::from_text(name))
}

/// The number that a value is: a number itself, or a boolean as zero or one.
pub open spec fn number_of(value: TypvalView) -> Option<i64> {
    match value {
        TypvalView::Number(number) => Some(number),
        TypvalView::Bool(flag) => Some(
            if flag {
                1
            } else {
                0
            },
        ),
        _ => None,
    }
}

/// The number that a value is, if it is one.
#[must_use]
pub fn typval_number(value: &Typval) -> (number: Option<i64>)
    ensures
        number == number_of(value@),
{
    match value {
        Typval::Number(number) => Some(*number),
        Typval::Bool(flag) => Some(
            if *flag {
                1
            } else {
                0
            },
        ),
        _ => None,
    }
}

/// The number that a value is; strings, lists and dictionaries are none.
///
/// # Errors
///
/// An error that names the value's type.
pub fn number_value(value: &Typval) -> (number: Result<i64, EvalError>)
    ensures
        match value@ {
            TypvalView::Nil => number == Ok::<i64, EvalError>(0),
            TypvalView::String(_) => crate::types::fails_with(
                number,
                "E1030"@,
                "Using a String as a Number"@,
            ),
            TypvalView::List(_) => crate::types::fails_with(
                number,
                "E745"@,
                "Using a List as a Number"@,
            ),
            TypvalView::Dict(_) => crate::types::fails_with(
                number,
                "E728"@,
                "Using a Dictionary as a Number"@,
            ),
            _ => number is Ok && Some(number->Ok_0) == number_of(value@),
        },
{
    match value {
        Typval::Nil => Ok(0),
        Typval::String(_) => Err(EvalError::new("E1030", "Using a String as a Number")),
        Typval::List(_) => Err(EvalError::new("E745", "Using a List as a Number")),
        Typval::Dict(_) => Err(EvalError::new("E728", "Using a Dictionary as a Number")),
        Typval::Number(number) => Ok(*number),
        Typval::Bool(flag) => Ok(
            if *flag {
                1
            } else {
                0
            },
        ),
    }
}

/// The text that a value is; lists and dictionaries have none.
pub open spec fn text_of(value: TypvalView) -> Seq<char> {
    match value {
        TypvalView::Nil => "v:null"@,
        TypvalView::Bool(flag) => if flag {
            "v:true"@
        } else {
            "v:false"@
        },
        TypvalView::Number(number) => crate::text::signed_text(number as int),
        TypvalView::String(bytes) => crate::text::lossy_text(bytes),
        _ => Seq::empty(),
    }
}

/// The text that a value is.
#[must_use]
pub fn typval_to_text(value: &Typval) -> (text: String)
    ensures
        text@ == text_of(value@),
{
    match value {
        Typval::Nil => "v:null".to_owned(),
        Typval::Bool(flag) => if *flag {
            "v:true".to_owned()
        } else {
            "v:false".to_owned()
        },
        Typval::Number(number) => signed_string(*number),
        Typval::String(bytes) => lossy(bytes.as_bytes()),
        _ => String::new(),
    }
}

/// A count as a script number.
pub open spec fn script_number(count: int) -> i64 {
    if count <= i64::MAX {
        count as i64
    } else {
        i64::MAX
    }
}

/// A count as a script number.
pub(crate) fn count_number(count: usize) -> (number: i64)
    ensures
        number == script_number(count as int),
{
    if count as u64 <= i64::MAX as u64 {
        count as i64
    } else {
        i64::MAX
    }
}

/// A script number as a count: negative ones are zero.
pub(crate) fn number_count(number: i64) -> (count: usize)
    ensures
        count == crate::splice::sat(number as int),
{
    if number <= 0 {
        0
    } else if number as u64 <= usize::MAX as u64 {
        number as usize
    } else {
        usize::MAX
    }
}

/// The windows of the current tabpage in display order.
pub open spec fn tab_windows(editor: Editor) -> Seq<WinHandle> {
    match editor.current_tab {
        Some(tab) => editor.links().tabs[editor.links().tab_at(tab)].windows(),
        None => Seq::empty(),
    }
}

/// The windows of the current tabpage in display order.
pub(crate) fn current_windows(editor: &Editor) -> (windows: Vec<WinHandle>)
    requires
        editor.wf(),
    ensures
        windows@ == tab_windows(*editor),
{
    proof {
        editor.links().lemma_parts();
    }
    match editor.current_tab {
        Some(tab) => match editor.find_tab(tab) {
            Some(at) => editor.windows_of(at),
            None => Vec::new(),
        },
        None => Vec::new(),
    }
}

/// The item with that one-based number.
pub open spec fn numbered<T>(items: Seq<T>, number: int) -> Option<T> {
    if 1 <= number <= items.len() {
        Some(items[number - 1])
    } else {
        None
    }
}

/// The window with that one-based number.
pub(crate) fn numbered_window(windows: &Vec<WinHandle>, number: i64) -> (window: Option<WinHandle>)
    ensures
        window == self::numbered(windows@, number as int),
{
    if number >= 1 && number as u64 <= windows.len() as u64 {
        Some(windows[(number - 1) as usize])
    } else {
        None
    }
}

} // verus!
