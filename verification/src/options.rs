//! Options by name.

use vstd::prelude::*;

use crate::editor::Editor;
use crate::text::same_text;
use crate::types::{OxStr, Typval, TypvalView, WinHandle};
use crate::window::WindowOptions;

verus! {

/// The value of an option.
#[derive(Debug, PartialEq, Eq)]
pub enum OptionValue {
    /// On or off.
    Boolean(bool),
    /// A number.
    Number(i64),
    /// A text.
    String(String),
}

/// What an [`OptionValue`] holds.
pub enum OptionView {
    Boolean(bool),
    Number(i64),
    String(Seq<char>),
}

impl View for OptionValue {
    type V = OptionView;

    open spec fn view(&self) -> OptionView {
        match self {
            OptionValue::Boolean(flag) => OptionView::Boolean(*flag),
            OptionValue::Number(number) => OptionView::Number(*number),
            OptionValue::String(text) => OptionView::String(text@),
        }
    }
}

/// The type of an option's values.
#[derive(Clone, Copy, Debug, PartialEq, Eq, Structural)]
pub enum OptionType {
    /// On or off.
    Boolean,
    /// A number.
    Number,
    /// A text.
    String,
}

/// An option that each window has for itself.
#[derive(Clone, Copy, Debug, PartialEq, Eq, Structural)]
pub enum WindowOption {
    /// `'diff'`.
    Diff,
    /// `'scrollbind'`.
    Scrollbind,
    /// `'cursorbind'`.
    Cursorbind,
    /// `'wrap'`.
    Wrap,
    /// `'foldmethod'`.
    Foldmethod,
    /// `'foldcolumn'`.
    Foldcolumn,
    /// `'foldenable'`.
    Foldenable,
    /// `'foldlevel'`.
    Foldlevel,
    /// `'winfixbuf'`.
    Winfixbuf,
    /// `'eventignorewin'`.
    Eventignorewin,
}

/// An option with one value for the whole editor, or the value that new buffers
/// get.
#[derive(Clone, Copy, Debug, PartialEq, Eq, Structural)]
pub enum GlobalOption {
    /// `'diffopt'`.
    Diffopt,
    /// `'scrollopt'`.
    Scrollopt,
    /// `'verbose'`.
    Verbose,
    /// `'autochdir'`.
    Autochdir,
    /// `'eventignore'`.
    Eventignore,
    /// `'buftype'`.
    Buftype,
    /// `'tabstop'`.
    Tabstop,
    /// `'scrollback'`.
    Scrollback,
}

/// An option.
#[derive(Clone, Copy, Debug, PartialEq, Eq, Structural)]
pub enum OptionName {
    /// One that each window has for itself.
    Window(WindowOption),
    /// Any other.
    Global(GlobalOption),
}

/// The option with that name.
pub open spec fn option_named(name: Seq<char>) -> Option<OptionName> {
    if name == "diff"@ {
        Some(OptionName::Window(WindowOption::Diff))
    } else if name == "scrollbind"@ {
        Some(OptionName::Window(WindowOption::Scrollbind))
    } else if name == "cursorbind"@ {
        Some(OptionName::Window(WindowOption::Cursorbind))
    } else if name == "wrap"@ {
        Some(OptionName::Window(WindowOption::Wrap))
    } else if name == "foldmethod"@ {
        Some(OptionName::Window(WindowOption::Foldmethod))
    } else if name == "foldcolumn"@ {
        Some(OptionName::Window(WindowOption::Foldcolumn))
    } else if name == "foldenable"@ {
        Some(OptionName::Window(WindowOption::Foldenable))
    } else if name == "foldlevel"@ {
        Some(OptionName::Window(WindowOption::Foldlevel))
    } else if name == "winfixbuf"@ {
        Some(OptionName::Window(WindowOption::Winfixbuf))
    } else if name == "eventignorewin"@ {
        Some(OptionName::Window(WindowOption::Eventignorewin))
    } else if name == "diffopt"@ {
        Some(OptionName::Global(GlobalOption::Diffopt))
    } else if name == "scrollopt"@ {
        Some(OptionName::Global(GlobalOption::Scrollopt))
    } else if name == "verbose"@ {
        Some(OptionName::Global(GlobalOption::Verbose))
    } else if name == "autochdir"@ {
        Some(OptionName::Global(GlobalOption::Autochdir))
    } else if name == "eventignore"@ {
        Some(OptionName::Global(GlobalOption::Eventignore))
    } else if name == "buftype"@ {
        Some(OptionName::Global(GlobalOption::Buftype))
    } else if name == "tabstop"@ {
        Some(OptionName::Global(GlobalOption::Tabstop))
    } else if name == "scrollback"@ {
        Some(OptionName::Global(GlobalOption::Scrollback))
    } else {
        None
    }
}

/// Looks an option up by its full name.
#[must_use]
pub fn option_metadata(name: &str) -> (option: Option<OptionName>)
    ensures
        option == option_named(name@),
{
    if same_text(name, "diff") {
        Some(OptionName::Window(WindowOption::Diff))
    } else if same_text(name, "scrollbind") {
        Some(OptionName::Window(WindowOption::Scrollbind))
    } else if same_text(name, "cursorbind") {
        Some(OptionName::Window(WindowOption::Cursorbind))
    } else if same_text(name, "wrap") {
        Some(OptionName::Window(WindowOption::Wrap))
    } else if same_text(name, "foldmethod") {
        Some(OptionName::Window(WindowOption::Foldmethod))
    } else if same_text(name, "foldcolumn") {
        Some(OptionName::Window(WindowOption::Foldcolumn))
    } else if same_text(name, "foldenable") {
        Some(OptionName::Window(WindowOption::Foldenable))
    } else if same_text(name, "foldlevel") {
        Some(OptionName::Window(WindowOption::Foldlevel))
    } else if same_text(name, "winfixbuf") {
        Some(OptionName::Window(WindowOption::Winfixbuf))
    } else if same_text(name, "eventignorewin") {
        Some(OptionName::Window(WindowOption::Eventignorewin))
    } else if same_text(name, "diffopt") {
        Some(OptionName::Global(GlobalOption::Diffopt))
    } else if same_text(name, "scrollopt") {
        Some(OptionName::Global(GlobalOption::Scrollopt))
    } else if same_text(name, "verbose") {
        Some(OptionName::Global(GlobalOption::Verbose))
    } else if same_text(name, "autochdir") {
        Some(OptionName::Global(GlobalOption::Autochdir))
    } else if same_text(name, "eventignore") {
        Some(OptionName::Global(GlobalOption::Eventignore))
    } else if same_text(name, "buftype") {
        Some(OptionName::Global(GlobalOption::Buftype))
    } else if same_text(name, "tabstop") {
        Some(OptionName::Global(GlobalOption::Tabstop))
    } else if same_text(name, "scrollback") {
        Some(OptionName::Global(GlobalOption::Scrollback))
    } else {
        None
    }
}

/// The type of a window option's values.
pub open spec fn window_type(option: WindowOption) -> OptionType {
    match option {
        WindowOption::Diff
        | WindowOption::Scrollbind
        | WindowOption::Cursorbind
        | WindowOption::Wrap
        | WindowOption::Foldenable
        | WindowOption::Winfixbuf => OptionType::Boolean,
        WindowOption::Foldlevel => OptionType::Number,
        WindowOption::Foldmethod
        | WindowOption::Foldcolumn
        | WindowOption::Eventignorewin => OptionType::String,
    }
}

/// A window option's value.
pub open spec fn window_value(options: WindowOptions, option: WindowOption) -> OptionView {
    match option {
        WindowOption::Diff => OptionView::Boolean(options.diff),
        WindowOption::Scrollbind => OptionView::Boolean(options.scrollbind),
        WindowOption::Cursorbind => OptionView::Boolean(options.cursorbind),
        WindowOption::Wrap => OptionView::Boolean(options.wrap),
        WindowOption::Foldmethod => OptionView::String(options.foldmethod@),
        WindowOption::Foldcolumn => OptionView::String(options.foldcolumn@),
        WindowOption::Foldenable => OptionView::Boolean(options.foldenable),
        WindowOption::Foldlevel => OptionView::Number(options.foldlevel),
        WindowOption::Winfixbuf => OptionView::Boolean(options.winfixbuf),
        WindowOption::Eventignorewin => OptionView::String(options.eventignorewin@),
    }
}

/// A global option's value.
pub open spec fn global_value(editor: Editor, option: GlobalOption) -> OptionView {
    match option {
        GlobalOption::Diffopt => OptionView::String(editor.globals.diffopt@),
        GlobalOption::Scrollopt => OptionView::String(editor.globals.scrollopt@),
        GlobalOption::Verbose => OptionView::Number(editor.globals.verbose),
        GlobalOption::Autochdir => OptionView::Boolean(editor.globals.autochdir),
        GlobalOption::Eventignore => OptionView::String(editor.globals.eventignore@),
        GlobalOption::Buftype => OptionView::String(editor.buffer_defaults.buftype@),
        GlobalOption::Tabstop => OptionView::Number(editor.buffer_defaults.tabstop),
        GlobalOption::Scrollback => OptionView::Number(editor.buffer_defaults.scrollback),
    }
}

/// Reads a window option.
#[must_use]
pub fn get_window(options: &WindowOptions, option: WindowOption) -> (value: OptionValue)
    ensures
        value@ == window_value(*options, option),
{
    match option {
        WindowOption::Diff => OptionValue::Boolean(options.diff),
        WindowOption::Scrollbind => OptionValue::Boolean(options.scrollbind),
        WindowOption::Cursorbind => OptionValue::Boolean(options.cursorbind),
        WindowOption::Wrap => OptionValue::Boolean(options.wrap),
        WindowOption::Foldmethod => OptionValue::String(options.foldmethod.clone()),
        WindowOption::Foldcolumn => OptionValue::String(options.foldcolumn.clone()),
        WindowOption::Foldenable => OptionValue::Boolean(options.foldenable),
        WindowOption::Foldlevel => OptionValue::Number(options.foldlevel),
        WindowOption::Winfixbuf => OptionValue::Boolean(options.winfixbuf),
        WindowOption::Eventignorewin => OptionValue::String(options.eventignorewin.clone()),
    }
}

/// Reads a global option.
#[must_use]
pub fn get_global(editor: &Editor, option: GlobalOption) -> (value: OptionValue)
    ensures
        value@ == global_value(*editor, option),
{
    match option {
        GlobalOption::Diffopt => OptionValue::String(editor.globals.diffopt.clone()),
        GlobalOption::Scrollopt => OptionValue::String(editor.globals.scrollopt.clone()),
        GlobalOption::Verbose => OptionValue::Number(editor.globals.verbose),
        GlobalOption::Autochdir => OptionValue::Boolean(editor.globals.autochdir),
        GlobalOption::Eventignore => OptionValue::String(editor.globals.eventignore.clone()),
        GlobalOption::Buftype => OptionValue::String(editor.buffer_defaults.buftype.clone()),
        GlobalOption::Tabstop => OptionValue::Number(editor.buffer_defaults.tabstop),
        GlobalOption::Scrollback => OptionValue::Number(editor.buffer_defaults.scrollback),
    }
}

/// Whether a value has that type.
pub open spec fn has_type(value: OptionView, wanted: OptionType) -> bool {
    match value {
        OptionView::Boolean(_) => wanted == OptionType::Boolean,
        OptionView::Number(_) => wanted == OptionType::Number,
        OptionView::String(_) => wanted == OptionType::String,
    }
}

/// The type of a window option's values.
#[must_use]
pub fn type_of_window(option: WindowOption) -> (kind: OptionType)
    ensures
        kind == window_type(option),
{
    match option {
        WindowOption::Diff
        | WindowOption::Scrollbind
        | WindowOption::Cursorbind
        | WindowOption::Wrap
        | WindowOption::Foldenable
        | WindowOption::Winfixbuf => OptionType::Boolean,
        WindowOption::Foldlevel => OptionType::Number,
        WindowOption::Foldmethod
        | WindowOption::Foldcolumn
        | WindowOption::Eventignorewin => OptionType::String,
    }
}

/// Sets a window option, unless the value has another type; `true` when it was
/// set. No other option changes.
pub fn set_window(options: &mut WindowOptions, option: WindowOption, value: OptionValue) -> (set:
    bool)
    ensures
        set == has_type(value@, window_type(option)),
        !set ==> *final(options) == *old(options),
        set ==> window_value(*final(options), option) == value@,
        forall|other: WindowOption|
            other != option ==> #[trigger] window_value(*final(options), other) == window_value(
                *old(options),
                other,
            ),
{
    match (option, value) {
        (WindowOption::Diff, OptionValue::Boolean(value)) => {
            options.diff = value;
            true
        },
        (WindowOption::Scrollbind, OptionValue::Boolean(value)) => {
            options.scrollbind = value;
            true
        },
        (WindowOption::Cursorbind, OptionValue::Boolean(value)) => {
            options.cursorbind = value;
            true
        },
        (WindowOption::Wrap, OptionValue::Boolean(value)) => {
            options.wrap = value;
            true
        },
        (WindowOption::Foldmethod, OptionValue::String(value)) => {
            options.foldmethod = value;
            true
        },
        (WindowOption::Foldcolumn, OptionValue::String(value)) => {
            options.foldcolumn = value;
            true
        },
        (WindowOption::Foldenable, OptionValue::Boolean(value)) => {
            options.foldenable = value;
            true
        },
        (WindowOption::Foldlevel, OptionValue::Number(value)) => {
            options.foldlevel = value;
            true
        },
        (WindowOption::Winfixbuf, OptionValue::Boolean(value)) => {
            options.winfixbuf = value;
            true
        },
        (WindowOption::Eventignorewin, OptionValue::String(value)) => {
            options.eventignorewin = value;
            true
        },
        _ => false,
    }
}

/// A value as scripts see it: a boolean is zero or one.
pub open spec fn option_value_view(value: OptionView) -> TypvalView {
    match value {
        OptionView::Boolean(flag) => TypvalView::Number(
            if flag {
                1
            } else {
                0
            },
        ),
        OptionView::Number(number) => TypvalView::Number(number),
        OptionView::String(text) => TypvalView::String(vstd::utf8::encode_utf8(text)),
    }
}

/// A value as scripts see it.
#[must_use]
pub fn option_to_typval(value: &OptionValue) -> (shown: Typval)
    ensures
        shown@ == option_value_view(value@),
{
    match value {
        OptionValue::Boolean(flag) => Typval::Number(
            if *flag {
                1
            } else {
                0
            },
        ),
        OptionValue::Number(number) => Typval::Number(*number),
        OptionValue::String(text) => Typval::String(OxStr::from_text(text.as_str())),
    }
}

/// An option that the editor itself does not read, as one window sees it.
#[derive(Debug, PartialEq, Eq)]
pub struct OtherOption {
    /// Whether each window has a value of its own.
    pub local: bool,
    /// The type of its values.
    pub kind: OptionType,
    /// Its value.
    pub value: OptionValue,
}

/// What an [`OtherOption`] holds.
pub struct OtherOptionView {
    pub local: bool,
    pub kind: OptionType,
    pub value: OptionView,
}

impl View for OtherOption {
    type V = OtherOptionView;

    open spec fn view(&self) -> OtherOptionView {
        OtherOptionView { local: self.local, kind: self.kind, value: self.value@ }
    }
}

/// The options of one window that the editor itself does not read, by name.
#[derive(Debug, PartialEq, Eq)]
pub struct OtherOptions {
    /// The window.
    pub window: WinHandle,
    /// Its options.
    pub options: Vec<(OxStr, OtherOption)>,
}

/// The windows that a table has options for.
pub open spec fn table_windows(table: Seq<OtherOptions>) -> Seq<WinHandle> {
    table.map_values(|row: OtherOptions| row.window)
}

/// Where a table has the options of a window: its first row for it.
pub open spec fn row_of(table: Seq<OtherOptions>, window: WinHandle) -> Option<int> {
    table_windows(table).index_of_first(window)
}

/// The option of a window with that name.
pub open spec fn other_option(
    table: Seq<OtherOptions>,
    window: WinHandle,
    name: Seq<char>,
) -> Option<OtherOptionView> {
    match row_of(table, window) {
        Some(row) => crate::dict::entry_of(
            crate::dict::viewed(table[row].options@),
            vstd::utf8::encode_utf8(name),
        ),
        None => None,
    }
}

/// One option of a window got another value; everything else stayed.
pub open spec fn sets_other(
    before: Seq<OtherOptions>,
    after: Seq<OtherOptions>,
    window: WinHandle,
    name: Seq<char>,
    value: OptionView,
) -> bool {
    let row = row_of(before, window)->0;
    let option = other_option(before, window, name)->0;
    &&& after.len() == before.len()
    &&& after[row].window == window
    &&& crate::dict::viewed(after[row].options@) == crate::dict::with_entry(
        crate::dict::viewed(before[row].options@),
        vstd::utf8::encode_utf8(name),
        OtherOptionView { value, ..option },
    )
    &&& forall|i: int|
        0 <= i < before.len() && i != row ==> #[trigger] after[i] == before[i]
}

/// Finds where a table has the options of a window.
fn find_row(table: &Vec<OtherOptions>, window: WinHandle) -> (at: Option<usize>)
    ensures
        match row_of(table@, window) {
            Some(row) => at is Some && at->0 == row && row < table@.len() && table@[row].window
                == window,
            None => at is None,
        },
{
    let ghost windows = table_windows(table@);
    proof {
        windows.index_of_first_ensures(window);
    }
    let mut next: usize = 0;
    while next < table.len()
        invariant
            next <= table@.len(),
            windows == table_windows(table@),
            forall|i: int| 0 <= i < next ==> #[trigger] windows[i] != window,
            match windows.index_of_first(window) {
                Some(row) => 0 <= row < windows.len() && windows[row] == window && forall|j: int|
                    0 <= j < row ==> #[trigger] windows[j] != window,
                None => !windows.contains(window),
            },
        decreases table@.len() - next,
    {
        assert(windows[next as int] == table@[next as int].window);
        if table[next].window == window {
            assert(windows.contains(window));
            return Some(next);
        }
        next = next + 1;
    }
    assert(!windows.contains(window));
    None
}

/// Finds the option of a window with that name: its row in the table, and its
/// place in the row.
pub fn find_other(table: &Vec<OtherOptions>, window: WinHandle, name: &str) -> (place: Option<
    (usize, usize),
>)
    ensures
        match other_option(table@, window, name@) {
            Some(option) => {
                &&& place is Some
                &&& row_of(table@, window) == Some((place->0).0 as int)
                &&& (place->0).0 < table@.len()
                &&& table@[(place->0).0 as int].window == window
                &&& (place->0).1 < table@[(place->0).0 as int].options@.len()
                &&& table@[(place->0).0 as int].options@[(place->0).1 as int].1@ == option
            },
            None => place is None,
        },
{
    let row: usize = match find_row(table, window) {
        Some(row) => row,
        None => {
            return None;
        },
    };
    let options = &table[row].options;
    let ghost views = crate::dict::viewed(options@);
    assert(crate::dict::keys(options@) =~= Seq::new(views.len(), |i: int| views[i].0));
    let key = OxStr::from_text(name);
    match crate::dict::position_of(options, key.as_bytes()) {
        Some(at) => Some((row, at)),
        None => None,
    }
}

/// Gives the option that [`find_other`] found another value.
pub fn set_other(
    table: &mut Vec<OtherOptions>,
    window: WinHandle,
    name: &str,
    value: OptionValue,
)
    ensures
        match other_option(old(table)@, window, name@) {
            Some(_) => sets_other(old(table)@, final(table)@, window, name@, value@),
            None => *final(table) == *old(table),
        },
{
    if let Some((row, at)) = find_other(table, window, name) {
        let local: bool = table[row].options[at].1.local;
        let kind = table[row].options[at].1.kind;
        crate::dict::set_entry(
            &mut table[row].options,
            OxStr::from_text(name),
            OtherOption { local, kind, value },
        );
    }
}

/// An option that was set is read back, with the type it had.
pub proof fn law_set_option_is_read(
    before: Seq<OtherOptions>,
    after: Seq<OtherOptions>,
    window: WinHandle,
    name: Seq<char>,
    value: OptionView,
)
    requires
        other_option(before, window, name) is Some,
        sets_other(before, after, window, name, value),
    ensures
        other_option(after, window, name) == Some(
            OtherOptionView { value, ..other_option(before, window, name)->0 },
        ),
{
    let row = row_of(before, window)->0;
    let windows = table_windows(before);
    windows.index_of_first_ensures(window);
    assert(windows[row] == before[row].window);
    assert(table_windows(after) =~= windows);
    crate::dict::law_set_is_read(
        crate::dict::viewed(before[row].options@),
        vstd::utf8::encode_utf8(name),
        OtherOptionView { value, ..other_option(before, window, name)->0 },
    );
}

} // verus!
