//! Window and screen-cell functions: window geometry, window identity and what
//! the screen shows.

use vstd::prelude::*;

use crate::builtins::view::{ScreenBuiltin, WindowBuiltin};
use crate::builtins::{
    count_number, current_windows, number_value, numbered_window, typval_number, typval_to_text,
};
use crate::editor::{Editor, LOWEST_WINDOW_ID};
use crate::text::{chars_of, parse_usize, same_text};
use crate::types::{EvalError, OxStr, TabHandle, Typval, TypvalView, WinHandle};
use crate::window::WindowEntry;

verus! {

/// A function of the script language that asks about windows or moves between
/// them.
#[derive(Clone, Copy, Debug, PartialEq, Eq, Structural)]
pub enum WindowFunction {
    /// One that reads a screen cell.
    Screen(ScreenBuiltin),
    /// `screencol()`.
    Screencol,
    /// `screenrow()`.
    Screenrow,
    /// `tabpagenr()`.
    Tabpagenr,
    /// `tabpagewinnr()`.
    Tabpagewinnr,
    /// One that asks about one window.
    Window(WindowBuiltin),
    /// `win_gotoid()`.
    WinGotoid,
    /// `winbufnr()`.
    Winbufnr,
    /// `winnr()`.
    Winnr,
    /// `winsaveview()`.
    Winsaveview,
    /// `winrestview()`.
    Winrestview,
    /// `winline()`.
    Winline,
    /// `wincol()`.
    Wincol,
    /// `getwinvar()`.
    Getwinvar,
    /// `setwinvar()`.
    Setwinvar,
    /// `getwininfo()`.
    Getwininfo,
    /// `winlayout()`.
    Winlayout,
}

/// The function that a script calls by `name`.
pub open spec fn function_named(name: Seq<char>) -> Option<WindowFunction> {
    if name == "screenattr"@ {
        Some(WindowFunction::Screen(ScreenBuiltin::Screenattr))
    } else if name == "screenchar"@ {
        Some(WindowFunction::Screen(ScreenBuiltin::Screenchar))
    } else if name == "screenchars"@ {
        Some(WindowFunction::Screen(ScreenBuiltin::Screenchars))
    } else if name == "screenstring"@ {
        Some(WindowFunction::Screen(ScreenBuiltin::Screenstring))
    } else if name == "screencol"@ {
        Some(WindowFunction::Screencol)
    } else if name == "screenrow"@ {
        Some(WindowFunction::Screenrow)
    } else if name == "tabpagenr"@ {
        Some(WindowFunction::Tabpagenr)
    } else if name == "tabpagewinnr"@ {
        Some(WindowFunction::Tabpagewinnr)
    } else if name == "win_getid"@ {
        Some(WindowFunction::Window(WindowBuiltin::WinGetid))
    } else if name == "winheight"@ {
        Some(WindowFunction::Window(WindowBuiltin::Winheight))
    } else if name == "winwidth"@ {
        Some(WindowFunction::Window(WindowBuiltin::Winwidth))
    } else if name == "win_gotoid"@ {
        Some(WindowFunction::WinGotoid)
    } else if name == "winbufnr"@ {
        Some(WindowFunction::Winbufnr)
    } else if name == "winnr"@ {
        Some(WindowFunction::Winnr)
    } else if name == "winsaveview"@ {
        Some(WindowFunction::Winsaveview)
    } else if name == "winrestview"@ {
        Some(WindowFunction::Winrestview)
    } else if name == "winline"@ {
        Some(WindowFunction::Winline)
    } else if name == "wincol"@ {
        Some(WindowFunction::Wincol)
    } else if name == "getwinvar"@ {
        Some(WindowFunction::Getwinvar)
    } else if name == "setwinvar"@ {
        Some(WindowFunction::Setwinvar)
    } else if name == "getwininfo"@ {
        Some(WindowFunction::Getwininfo)
    } else if name == "winlayout"@ {
        Some(WindowFunction::Winlayout)
    } else {
        None
    }
}

/// The function that a script calls by `name`, if it is one of these. See
/// [`function_named`].
#[must_use]
pub fn window_builtin(name: &str) -> (function: Option<WindowFunction>)
    ensures
        function == function_named(name@),
{
    if same_text(name, "screenattr") {
        Some(WindowFunction::Screen(ScreenBuiltin::Screenattr))
    } else if same_text(name, "screenchar") {
        Some(WindowFunction::Screen(ScreenBuiltin::Screenchar))
    } else if same_text(name, "screenchars") {
        Some(WindowFunction::Screen(ScreenBuiltin::Screenchars))
    } else if same_text(name, "screenstring") {
        Some(WindowFunction::Screen(ScreenBuiltin::Screenstring))
    } else if same_text(name, "screencol") {
        Some(WindowFunction::Screencol)
    } else if same_text(name, "screenrow") {
        Some(WindowFunction::Screenrow)
    } else if same_text(name, "tabpagenr") {
        Some(WindowFunction::Tabpagenr)
    } else if same_text(name, "tabpagewinnr") {
        Some(WindowFunction::Tabpagewinnr)
    } else if same_text(name, "win_getid") {
        Some(WindowFunction::Window(WindowBuiltin::WinGetid))
    } else if same_text(name, "winheight") {
        Some(WindowFunction::Window(WindowBuiltin::Winheight))
    } else if same_text(name, "winwidth") {
        Some(WindowFunction::Window(WindowBuiltin::Winwidth))
    } else if same_text(name, "win_gotoid") {
        Some(WindowFunction::WinGotoid)
    } else if same_text(name, "winbufnr") {
        Some(WindowFunction::Winbufnr)
    } else if same_text(name, "winnr") {
        Some(WindowFunction::Winnr)
    } else if same_text(name, "winsaveview") {
        Some(WindowFunction::Winsaveview)
    } else if same_text(name, "winrestview") {
        Some(WindowFunction::Winrestview)
    } else if same_text(name, "winline") {
        Some(WindowFunction::Winline)
    } else if same_text(name, "wincol") {
        Some(WindowFunction::Wincol)
    } else if same_text(name, "getwinvar") {
        Some(WindowFunction::Getwinvar)
    } else if same_text(name, "setwinvar") {
        Some(WindowFunction::Setwinvar)
    } else if same_text(name, "getwininfo") {
        Some(WindowFunction::Getwininfo)
    } else if same_text(name, "winlayout") {
        Some(WindowFunction::Winlayout)
    } else {
        None
    }
}

/// A window's one-based place among others, or zero.
pub open spec fn place_of(windows: Seq<WinHandle>, target: WinHandle) -> int
    decreases windows.len(),
{
    if windows.len() == 0 {
        0
    } else {
        let before = place_of(windows.drop_last(), target);
        if before > 0 {
            before
        } else if windows.last() == target {
            windows.len() as int
        } else {
            0
        }
    }
}

/// A window's one-based place among others, or zero.
#[must_use]
pub fn window_number(windows: &Vec<WinHandle>, target: WinHandle) -> (place: usize)
    ensures
        place == place_of(windows@, target),
        place <= windows@.len(),
{
    let mut next: usize = 0;
    while next < windows.len()
        invariant
            next <= windows@.len(),
            place_of(windows@.take(next as int), target) == 0,
        decreases windows@.len() - next,
    {
        assert(windows@.take(next + 1).drop_last() =~= windows@.take(next as int));
        if windows[next] == target {
            proof {
                lemma_place_found(windows@, target, next as int);
            }
            return next + 1;
        }
        next = next + 1;
    }
    assert(windows@.take(next as int) =~= windows@);
    0
}

proof fn lemma_place_found(windows: Seq<WinHandle>, target: WinHandle, at: int)
    requires
        0 <= at < windows.len(),
        windows[at] == target,
        place_of(windows.take(at), target) == 0,
    ensures
        place_of(windows, target) == at + 1,
    decreases windows.len(),
{
    if at == windows.len() - 1 {
        assert(windows.drop_last() =~= windows.take(at));
    } else {
        assert(windows.drop_last().take(at) =~= windows.take(at));
        lemma_place_found(windows.drop_last(), target, at);
    }
}

/// A number as a script value.
pub open spec fn number(count: int) -> TypvalView {
    TypvalView::Number(crate::builtins::script_number(count))
}

/// Whether a function's only argument is `$`.
pub open spec fn asks_for_last(args: Seq<Typval>) -> bool {
    args.len() > 0 && crate::builtins::text_of(args[0]@) == "$"@
}

fn is_last(args: &[Typval]) -> (last: bool)
    ensures
        last == asks_for_last(args@),
{
    args.len() > 0 && same_text(typval_to_text(&args[0]).as_str(), "$")
}

/// `winnr([{arg}])`: the current window's place in the tabpage, or the window
/// count for `$`.
///
/// # Errors
///
/// `E118` for more than one argument.
pub fn call_winnr_builtin(editor: &Editor, args: &[Typval]) -> (value: Result<Typval, EvalError>)
    requires
        editor.wf(),
    ensures
        if args@.len() > 1 {
            crate::types::fails_with(value, "E118"@, "Too many arguments for function: winnr"@)
        } else {
            let windows = crate::builtins::tab_windows(*editor);
            &&& value is Ok
            &&& value->Ok_0@ == number(
                if asks_for_last(args@) {
                    windows.len() as int
                } else {
                    match editor.links().current_window() {
                        Some(window) => place_of(windows, window),
                        None => 0,
                    }
                },
            )
        },
{
    if args.len() > 1 {
        return Err(EvalError::new("E118", "Too many arguments for function: winnr"));
    }
    let windows = current_windows(editor);
    let place: usize = if is_last(args) {
        windows.len()
    } else {
        match editor.current_window() {
            Some(window) => window_number(&windows, window),
            None => 0,
        }
    };
    Ok(Typval::Number(count_number(place)))
}

/// The one-based place of a tabpage, or zero.
pub open spec fn tab_place(editor: Editor, tab: Option<TabHandle>) -> int {
    match tab {
        Some(tab) => if editor.has_tab(tab) {
            editor.links().tab_at(tab) + 1
        } else {
            0
        },
        None => 0,
    }
}

/// `tabpagenr([{arg}])`: the current tabpage's place, or the tabpage count for
/// `$`.
///
/// # Errors
///
/// `E118` for more than one argument.
pub fn call_tabpagenr_builtin(editor: &Editor, args: &[Typval]) -> (value: Result<
    Typval,
    EvalError,
>)
    requires
        editor.wf(),
    ensures
        if args@.len() > 1 {
            crate::types::fails_with(value, "E118"@, "Too many arguments for function: tabpagenr"@)
        } else {
            &&& value is Ok
            &&& value->Ok_0@ == number(
                if asks_for_last(args@) {
                    editor.tabs@.len() as int
                } else {
                    tab_place(*editor, editor.current_tab)
                },
            )
        },
{
    if args.len() > 1 {
        return Err(EvalError::new("E118", "Too many arguments for function: tabpagenr"));
    }
    assert(editor.tabs.len() <= usize::MAX);
    let place: usize = if is_last(args) {
        editor.tabs.len()
    } else {
        match editor.current_tab {
            Some(tab) => match editor.find_tab(tab) {
                Some(at) => at + 1,
                None => 0,
            },
            None => 0,
        }
    };
    Ok(Typval::Number(count_number(place)))
}

/// The windows next to one window.
#[derive(Clone, Copy, Debug, PartialEq, Eq, Structural)]
pub struct WindowSteps {
    /// The window.
    pub window: WinHandle,
    /// The window to its left.
    pub left: Option<WinHandle>,
    /// The window below it.
    pub down: Option<WinHandle>,
    /// The window above it.
    pub up: Option<WinHandle>,
    /// The window to its right.
    pub right: Option<WinHandle>,
}

/// A part of a tabpage's tiled layout.
#[derive(Debug, PartialEq, Eq)]
pub enum Frame {
    /// One window.
    Leaf(WinHandle),
    /// Frames side by side.
    Row(Vec<Frame>),
    /// Frames above each other.
    Column(Vec<Frame>),
}

/// What the layout says of one tabpage.
#[derive(Debug, PartialEq, Eq)]
pub struct TabLayout {
    /// The tabpage.
    pub tab: TabHandle,
    /// The frame of all tiled windows.
    pub root: Frame,
    /// The window that was current before the current one.
    pub previous: Option<WinHandle>,
    /// The neighbours of the tabpage's windows.
    pub steps: Vec<WindowSteps>,
}

/// What the layouts say of a tabpage: the first one for it.
pub open spec fn layout_of(layouts: Seq<TabLayout>, tab: TabHandle) -> Option<TabLayout>
    decreases layouts.len(),
{
    if layouts.len() == 0 {
        None
    } else if layouts[0].tab == tab {
        Some(layouts[0])
    } else {
        layout_of(layouts.drop_first(), tab)
    }
}

pub(crate) fn find_layout(layouts: &Vec<TabLayout>, tab: TabHandle) -> (at: Option<usize>)
    ensures
        match at {
            Some(at) => at < layouts@.len() && layout_of(layouts@, tab) == Some(
                layouts@[at as int],
            ),
            None => layout_of(layouts@, tab) is None,
        },
{
    let mut next: usize = 0;
    assert(layouts@.skip(0) =~= layouts@);
    while next < layouts.len()
        invariant
            next <= layouts@.len(),
            layout_of(layouts@, tab) == layout_of(layouts@.skip(next as int), tab),
        decreases layouts@.len() - next,
    {
        assert(layouts@.skip(next as int).drop_first() =~= layouts@.skip(next + 1));
        if layouts[next].tab == tab {
            return Some(next);
        }
        next = next + 1;
    }
    None
}

/// The window that one step in a direction leads to: the first that the
/// neighbours name.
pub open spec fn neighbour(steps: Seq<WindowSteps>, window: WinHandle, direction: char) -> Option<
    WinHandle,
>
    decreases steps.len(),
{
    if steps.len() == 0 {
        None
    } else if steps[0].window == window {
        if direction == 'h' {
            steps[0].left
        } else if direction == 'j' {
            steps[0].down
        } else if direction == 'k' {
            steps[0].up
        } else {
            steps[0].right
        }
    } else {
        neighbour(steps.drop_first(), window, direction)
    }
}

/// The window that `count` steps lead to; at an edge a step leads nowhere.
pub open spec fn stepped(
    steps: Seq<WindowSteps>,
    window: WinHandle,
    direction: char,
    count: nat,
) -> WinHandle
    decreases count,
{
    if count == 0 {
        window
    } else {
        match neighbour(steps, window, direction) {
            Some(next) => stepped(steps, next, direction, (count - 1) as nat),
            None => window,
        }
    }
}

fn find_neighbour(steps: &Vec<WindowSteps>, window: WinHandle, direction: char) -> (next: Option<
    WinHandle,
>)
    ensures
        next == neighbour(steps@, window, direction),
{
    let mut at: usize = 0;
    assert(steps@.skip(0) =~= steps@);
    while at < steps.len()
        invariant
            at <= steps@.len(),
            neighbour(steps@, window, direction) == neighbour(
                steps@.skip(at as int),
                window,
                direction,
            ),
        decreases steps@.len() - at,
    {
        assert(steps@.skip(at as int).drop_first() =~= steps@.skip(at + 1));
        if steps[at].window == window {
            return if direction == 'h' {
                steps[at].left
            } else if direction == 'j' {
                steps[at].down
            } else if direction == 'k' {
                steps[at].up
            } else {
                steps[at].right
            };
        }
        at = at + 1;
    }
    None
}

fn walk(steps: &Vec<WindowSteps>, window: WinHandle, direction: char, count: usize) -> (target:
    WinHandle)
    ensures
        target == stepped(steps@, window, direction, count as nat),
{
    let mut target = window;
    let mut left: usize = count;
    while left > 0
        invariant
            stepped(steps@, window, direction, count as nat) == stepped(
                steps@,
                target,
                direction,
                left as nat,
            ),
        decreases left,
    {
        match find_neighbour(steps, target, direction) {
            Some(next) => {
                target = next;
            },
            None => {
                return target;
            },
        }
        left = left - 1;
    }
    target
}

/// How many digits a selector starts with.
pub open spec fn leading_digits(selector: Seq<char>) -> int
    decreases selector.len(),
{
    if selector.len() > 0 && crate::text::is_digit(selector[0]) {
        1 + leading_digits(selector.drop_first())
    } else {
        0
    }
}

/// A selector that asks for steps in a direction: an optional count and one of
/// `h`, `j`, `k` and `l`.
pub open spec fn parsed_steps(selector: Seq<char>) -> Option<(usize, char)> {
    let digits = leading_digits(selector);
    let rest = selector.skip(digits);
    if rest.len() == 1 && (rest[0] == 'h' || rest[0] == 'j' || rest[0] == 'k' || rest[0] == 'l') {
        let count: usize = match crate::text::parsed_usize(selector.take(digits)) {
            Some(count) => if count >= 1 {
                count
            } else {
                1
            },
            None => 1,
        };
        Some((count, rest[0]))
    } else {
        None
    }
}

fn parse_steps(selector: &[char]) -> (steps: Option<(usize, char)>)
    ensures
        steps == parsed_steps(selector@),
{
    let mut digits: usize = 0;
    assert(selector@.skip(0) =~= selector@);
    while digits < selector.len() && '0' <= selector[digits] && selector[digits] <= '9'
        invariant
            digits <= selector@.len(),
            leading_digits(selector@) == digits + leading_digits(selector@.skip(digits as int)),
        decreases selector@.len() - digits,
    {
        assert(selector@.skip(digits as int).drop_first() =~= selector@.skip(digits + 1));
        digits = digits + 1;
    }
    if selector.len() - digits != 1 {
        return None;
    }
    let direction: char = selector[digits];
    if direction != 'h' && direction != 'j' && direction != 'k' && direction != 'l' {
        return None;
    }
    let head = vstd::slice::slice_subrange(selector, 0, digits);
    assert(head@ =~= selector@.take(digits as int));
    let count: usize = match parse_usize(head) {
        Some(count) => if count >= 1 {
            count
        } else {
            1
        },
        None => 1,
    };
    Some((count, direction))
}

/// What `tabpagewinnr()` answers for a selector in the tabpage at `at`.
pub open spec fn selected_place(
    editor: Editor,
    layouts: Seq<TabLayout>,
    at: int,
    selector: Option<Seq<char>>,
) -> Option<int> {
    let tab = editor.tabs@[at];
    let windows = tab.tiled@ + tab.floats@;
    let layout = layout_of(layouts, tab.handle);
    match selector {
        None => Some(place_of(windows, tab.current)),
        Some(selector) => if selector == "$"@ {
            Some(windows.len() as int)
        } else if selector == "#"@ {
            match layout {
                Some(layout) => match layout.previous {
                    Some(window) => Some(place_of(windows, window)),
                    None => Some(0),
                },
                None => Some(0),
            }
        } else {
            match parsed_steps(selector) {
                Some((count, direction)) => Some(
                    place_of(
                        windows,
                        match layout {
                            Some(layout) => stepped(
                                layout.steps@,
                                tab.current,
                                direction,
                                count as nat,
                            ),
                            None => tab.current,
                        },
                    ),
                ),
                None => None,
            }
        },
    }
}

/// The second argument as text.
pub open spec fn second_text(args: Seq<Typval>) -> Option<Seq<char>> {
    if args.len() > 1 {
        Some(crate::builtins::text_of(args[1]@))
    } else {
        None
    }
}

/// The number that an argument is, or zero.
pub open spec fn number_or_zero(value: TypvalView) -> i64 {
    match crate::builtins::number_of(value) {
        Some(number) => number,
        None => 0,
    }
}

fn zero_or_number(value: &Typval) -> (number: i64)
    ensures
        number == number_or_zero(value@),
{
    match typval_number(value) {
        Some(number) => number,
        None => 0,
    }
}

/// `tabpagewinnr({tabnr} [, {arg}])`: a window number in one tabpage: the
/// current window's, the last for `$`, that of the previous window for `#`, or
/// that of the window some steps away.
///
/// # Errors
///
/// `E119` and `E118` for too few and too many arguments, and `E15` for an
/// argument that is none of those.
pub fn call_tabpagewinnr_builtin(
    editor: &Editor,
    args: &[Typval],
    layouts: &Vec<TabLayout>,
) -> (value: Result<Typval, EvalError>)
    requires
        editor.wf(),
    ensures
        if args@.len() == 0 {
            crate::types::fails_with(
                value,
                "E119"@,
                "Not enough arguments for function: tabpagewinnr"@,
            )
        } else if args@.len() > 2 {
            crate::types::fails_with(
                value,
                "E118"@,
                "Too many arguments for function: tabpagewinnr"@,
            )
        } else {
            let tabnr = number_or_zero(args@[0]@);
            if !(1 <= tabnr <= editor.tabs@.len()) {
                value is Ok && value->Ok_0@ == number(0)
            } else {
                match selected_place(*editor, layouts@, tabnr - 1, second_text(args@)) {
                    Some(place) => value is Ok && value->Ok_0@ == number(place),
                    None => crate::types::fails_with(
                        value,
                        "E15"@,
                        "Invalid expression: \""@ + second_text(args@)->0 + "\""@,
                    ),
                }
            }
        },
{
    if args.len() == 0 {
        return Err(EvalError::new("E119", "Not enough arguments for function: tabpagewinnr"));
    }
    if args.len() > 2 {
        return Err(EvalError::new("E118", "Too many arguments for function: tabpagewinnr"));
    }
    let tabnr: i64 = zero_or_number(&args[0]);
    if tabnr < 1 || tabnr as u64 > editor.tabs.len() as u64 {
        return Ok(Typval::Number(0));
    }
    let at: usize = (tabnr - 1) as usize;
    let windows = editor.windows_of(at);
    proof {
        let tab = editor.tabs@[at as int];
        assert(editor.links().tabs[at as int] == crate::editor::tab_key(tab));
        assert(windows@ =~= tab.tiled@ + tab.floats@);
    }
    let current = editor.tabs[at].current;
    if args.len() == 1 {
        return Ok(Typval::Number(count_number(window_number(&windows, current))));
    }
    let selector = typval_to_text(&args[1]);
    if same_text(selector.as_str(), "$") {
        return Ok(Typval::Number(count_number(windows.len())));
    }
    let layout = find_layout(layouts, editor.tabs[at].handle);
    if same_text(selector.as_str(), "#") {
        let previous = match layout {
            Some(layout) => layouts[layout].previous,
            None => None,
        };
        return Ok(
            match previous {
                Some(window) => Typval::Number(count_number(window_number(&windows, window))),
                None => Typval::Number(0),
            },
        );
    }
    let chars = chars_of(selector.as_str());
    match parse_steps(chars.as_slice()) {
        Some((count, direction)) => {
            let target = match layout {
                Some(layout) => walk(&layouts[layout].steps, current, direction, count),
                None => current,
            };
            Ok(Typval::Number(count_number(window_number(&windows, target))))
        },
        None => {
            let mut message = "Invalid expression: \"".to_owned();
            message.append(selector.as_str());
            message.append("\"");
            Err(EvalError::new("E15", message.as_str()))
        },
    }
}

/// The window with that global id.
pub open spec fn window_by_id(editor: Editor, id: i64) -> Option<WinHandle> {
    if crate::types::is_handle_number(id) && id > 0 && editor.has_window(WinHandle(id as i32)) {
        Some(WinHandle(id as i32))
    } else {
        None
    }
}

/// The window that a number means: zero the current one, a small number a place
/// in the current tabpage, and a larger one a window's id.
pub open spec fn window_by_number(editor: Editor, number: i64) -> Option<WinHandle> {
    if number < 0 {
        None
    } else if number == 0 {
        editor.links().current_window()
    } else if number < LOWEST_WINDOW_ID {
        crate::builtins::numbered(crate::builtins::tab_windows(editor), number as int)
    } else {
        window_by_id(editor, number)
    }
}

/// Whether a value is no number, and how a function that needs one fails.
pub open spec fn refuses_number<T>(result: Result<T, EvalError>, value: TypvalView) -> bool {
    match value {
        TypvalView::String(_) => crate::types::fails_with(
            result,
            "E1030"@,
            "Using a String as a Number"@,
        ),
        TypvalView::List(_) => crate::types::fails_with(
            result,
            "E745"@,
            "Using a List as a Number"@,
        ),
        TypvalView::Dict(_) => crate::types::fails_with(
            result,
            "E728"@,
            "Using a Dictionary as a Number"@,
        ),
        _ => false,
    }
}

/// Whether a value can stand for a number.
pub open spec fn is_numeric(value: TypvalView) -> bool {
    value is Nil || value is Bool || value is Number
}

/// The windows that the current tabpage lists, and the current one, are live.
pub proof fn lemma_tab_windows_live(editor: Editor)
    requires
        editor.wf(),
    ensures
        forall|i: int|
            0 <= i < crate::builtins::tab_windows(editor).len() ==> editor.has_window(
                #[trigger] crate::builtins::tab_windows(editor)[i],
            ),
        match editor.links().current_window() {
            Some(window) => editor.has_window(window),
            None => true,
        },
{
    editor.links().lemma_parts();
    if editor.current_tab is Some {
        editor.links().lemma_current_window();
        let t = editor.links().tab_at(editor.current_tab->0);
        crate::editor::tabs::lemma_tab_windows(editor, t);
        assert(editor.links().tabs[t] == crate::editor::tab_key(editor.tabs@[t]));
        let windows = crate::builtins::tab_windows(editor);
        let tab = editor.tabs@[t];
        assert(windows =~= tab.tiled@ + tab.floats@);
        assert forall|i: int| 0 <= i < windows.len() implies editor.has_window(
            #[trigger] windows[i],
        ) by {
            if i < tab.tiled@.len() {
                assert(tab.tiled@.contains(windows[i]));
            } else {
                assert(windows[i] == tab.floats@[i - tab.tiled@.len()]);
                assert(tab.floats@.contains(windows[i]));
            }
        }
    }
}

/// `winbufnr({nr})`: the buffer displayed by a window number or id, or -1.
///
/// # Errors
///
/// `E119` and `E118` for too few and too many arguments, and an error for a
/// value that is no number.
pub fn call_winbufnr_builtin(editor: &Editor, args: &[Typval]) -> (value: Result<
    Typval,
    EvalError,
>)
    requires
        editor.wf(),
    ensures
        if args@.len() == 0 {
            crate::types::fails_with(value, "E119"@, "Not enough arguments for function: winbufnr"@)
        } else if args@.len() > 1 {
            crate::types::fails_with(value, "E118"@, "Too many arguments for function: winbufnr"@)
        } else if !is_numeric(args@[0]@) {
            refuses_number(value, args@[0]@)
        } else {
            &&& value is Ok
            &&& value->Ok_0@ == TypvalView::Number(
                match window_by_number(*editor, number_or_zero(args@[0]@)) {
                    Some(window) => editor.window_entry(window).state.buffer.0 as i64,
                    None => (-1) as i64,
                },
            )
        },
{
    if args.len() == 0 {
        return Err(EvalError::new("E119", "Not enough arguments for function: winbufnr"));
    }
    if args.len() > 1 {
        return Err(EvalError::new("E118", "Too many arguments for function: winbufnr"));
    }
    let nr: i64 = match number_value(&args[0]) {
        Ok(nr) => nr,
        Err(error) => {
            return Err(error);
        },
    };
    proof {
        lemma_tab_windows_live(*editor);
    }
    let window = if nr < 0 {
        None
    } else if nr == 0 {
        editor.current_window()
    } else if nr < LOWEST_WINDOW_ID {
        let windows = current_windows(editor);
        numbered_window(&windows, nr)
    } else {
        editor.find_window_by_id(nr)
    };
    match window {
        Some(window) => match editor.find_window(window) {
            Some(at) => Ok(Typval::Number(editor.windows[at].state.buffer.0 as i64)),
            None => Ok(Typval::Number(-1)),
        },
        None => Ok(Typval::Number(-1)),
    }
}

/// A dictionary entry with a number.
pub open spec fn number_entry(name: Seq<char>, count: int) -> (Seq<u8>, TypvalView) {
    (crate::builtins::key(name), number(count))
}

/// What scripts see of a window: its numbers, its size and its buffer, and that
/// it is no terminal, quickfix or location list window. Where on the screen it
/// is and its variables are left out.
pub open spec fn info_value(entry: WindowEntry, winnr: int, tabnr: int) -> TypvalView {
    let geometry = entry.area.geometry;
    TypvalView::Dict(
        seq![
            number_entry("tabnr"@, tabnr),
            number_entry("winnr"@, winnr),
            number_entry("winid"@, entry.handle.0 as int),
            number_entry("height"@, geometry.height as int),
            number_entry("width"@, geometry.width as int),
            number_entry("bufnr"@, entry.state.buffer.0 as int),
            number_entry("terminal"@, 0),
            number_entry("quickfix"@, 0),
            number_entry("loclist"@, 0),
        ],
    )
}

fn counted(name: &str, count: usize) -> (entry: (OxStr, Typval))
    ensures
        (entry.0@, entry.1@) == number_entry(name@, count as int),
{
    (OxStr::from_text(name), Typval::Number(count_number(count)))
}

fn handle_entry(name: &str, handle: i32) -> (entry: (OxStr, Typval))
    ensures
        (entry.0@, entry.1@) == number_entry(name@, handle as int),
{
    (OxStr::from_text(name), Typval::Number(handle as i64))
}

pub(crate) fn copy_entries(entries: &Vec<(OxStr, Typval)>) -> (copy: Vec<(OxStr, Typval)>)
    ensures
        crate::types::entries_view(copy@) == crate::types::entries_view(entries@),
{
    let mut copy: Vec<(OxStr, Typval)> = Vec::new();
    let mut next: usize = 0;
    while next < entries.len()
        invariant
            next <= entries@.len(),
            copy@.len() == next,
            forall|i: int|
                0 <= i < next ==> (#[trigger] copy@[i]).0@ == entries@[i].0@ && copy@[i].1@
                    == entries@[i].1@,
        decreases entries@.len() - next,
    {
        copy.push((entries[next].0.clone(), entries[next].1.clone()));
        next = next + 1;
    }
    assert(crate::types::entries_view(copy@) =~= crate::types::entries_view(entries@));
    copy
}

/// What scripts see of a window: its numbers, its size and its buffer. It is no
/// terminal, quickfix or location list window.
#[must_use]
pub fn win_info(entry: &WindowEntry, winnr: usize, tabnr: usize) -> (info: Typval)
    ensures
        info@ == info_value(*entry, winnr as int, tabnr as int),
{
    let geometry = entry.area.geometry;
    let entries = vec![
        counted("tabnr", tabnr),
        counted("winnr", winnr),
        handle_entry("winid", entry.handle.0),
        counted("height", geometry.height),
        counted("width", geometry.width),
        handle_entry("bufnr", entry.state.buffer.0),
        counted("terminal", 0),
        counted("quickfix", 0),
        counted("loclist", 0),
    ];
    let info = Typval::dict(entries);
    proof {
        assert(info@->Dict_0 =~= info_value(*entry, winnr as int, tabnr as int)->Dict_0);
    }
    info
}

/// What scripts see of the windows of the tabpage at `at`.
pub open spec fn tab_infos(editor: Editor, at: int) -> Seq<TypvalView> {
    let windows = editor.links().tabs[at].windows();
    Seq::new(
        windows.len(),
        |i: int|
            info_value(
                editor.window_entry(windows[i]),
                place_of(windows, windows[i]),
                at + 1,
            ),
    )
}

/// What scripts see of the windows of the first `count` tabpages.
pub open spec fn all_infos(editor: Editor, count: nat) -> Seq<TypvalView>
    decreases count,
{
    if count == 0 {
        Seq::empty()
    } else {
        all_infos(editor, (count - 1) as nat) + tab_infos(editor, count - 1)
    }
}

fn push_infos(editor: &Editor, at: usize, infos: &mut Vec<Typval>)
    requires
        editor.wf(),
        at < editor.tabs@.len(),
    ensures
        crate::types::list_view(final(infos)@) == crate::types::list_view(old(infos)@)
            + tab_infos(*editor, at as int),
{
    let windows = editor.windows_of(at);
    let ghost before = infos@;
    proof {
        crate::editor::tabs::lemma_tab_windows(*editor, at as int);
        let tab = editor.tabs@[at as int];
        assert(editor.links().tabs[at as int] == crate::editor::tab_key(tab));
        assert(windows@ =~= tab.tiled@ + tab.floats@);
        assert forall|i: int| 0 <= i < windows@.len() implies editor.has_window(
            #[trigger] windows@[i],
        ) by {
            if i < tab.tiled@.len() {
                assert(tab.tiled@.contains(windows@[i]));
            } else {
                assert(windows@[i] == tab.floats@[i - tab.tiled@.len()]);
                assert(tab.floats@.contains(windows@[i]));
            }
        }
    }
    let mut next: usize = 0;
    while next < windows.len()
        invariant
            editor.wf(),
            at < editor.tabs@.len(),
            next <= windows@.len(),
            windows@ == editor.links().tabs[at as int].windows(),
            forall|i: int| 0 <= i < windows@.len() ==> editor.has_window(#[trigger] windows@[i]),
            infos@.len() == before.len() + next,
            forall|i: int| 0 <= i < before.len() ==> #[trigger] infos@[i] == before[i],
            forall|i: int|
                0 <= i < next ==> (#[trigger] infos@[before.len() + i])@ == tab_infos(
                    *editor,
                    at as int,
                )[i],
        decreases windows@.len() - next,
    {
        let window = windows[next];
        assert(editor.has_window(windows@[next as int]));
        if let Some(w) = editor.find_window(window) {
            let place: usize = window_number(&windows, window);
            assert(editor.tabs.len() <= usize::MAX);
            infos.push(win_info(&editor.windows[w], place, at + 1));
        }
        next = next + 1;
    }
    proof {
        let views = crate::types::list_view(infos@);
        let wanted = crate::types::list_view(before) + tab_infos(*editor, at as int);
        assert forall|i: int| 0 <= i < views.len() implies views[i] == wanted[i] by {
            if i >= before.len() {
                let k = i - before.len();
                assert(infos@[before.len() + k]@ == tab_infos(*editor, at as int)[k]);
            }
        }
        assert(views =~= wanted);
    }
}

/// `getwininfo([{winid}])`: one dictionary of facts per window. Without an
/// argument that is every window of every tabpage; with an id it is that one
/// window, and none for an unknown id.
///
/// # Errors
///
/// `E118` for more than one argument, and an error for a value that is no
/// number.
pub fn call_getwininfo(editor: &Editor, args: &[Typval]) -> (value: Result<Typval, EvalError>)
    requires
        editor.wf(),
    ensures
        if args@.len() > 1 {
            crate::types::fails_with(value, "E118"@, "Too many arguments for function: getwininfo"@)
        } else if args@.len() == 0 {
            &&& value is Ok
            &&& value->Ok_0@ == TypvalView::List(all_infos(*editor, editor.tabs@.len()))
        } else if !is_numeric(args@[0]@) {
            refuses_number(value, args@[0]@)
        } else {
            match window_by_id(*editor, number_or_zero(args@[0]@)) {
                Some(window) => {
                    let entry = editor.window_entry(window);
                    let at = editor.links().tab_at(entry.tab);
                    &&& value is Ok
                    &&& value->Ok_0@ == TypvalView::List(
                        seq![
                            info_value(
                                entry,
                                place_of(editor.links().tabs[at].windows(), window),
                                at + 1,
                            ),
                        ],
                    )
                },
                None => value is Ok && value->Ok_0@ == TypvalView::List(Seq::empty()),
            }
        },
{
    if args.len() > 1 {
        return Err(EvalError::new("E118", "Too many arguments for function: getwininfo"));
    }
    let mut infos: Vec<Typval> = Vec::new();
    if args.len() == 0 {
        let mut at: usize = 0;
        assert(crate::types::list_view(infos@) =~= all_infos(*editor, 0));
        while at < editor.tabs.len()
            invariant
                editor.wf(),
                at <= editor.tabs@.len(),
                crate::types::list_view(infos@) == all_infos(*editor, at as nat),
            decreases editor.tabs@.len() - at,
        {
            push_infos(editor, at, &mut infos);
            at = at + 1;
        }
        return Ok(Typval::list(infos));
    }
    let id: i64 = match number_value(&args[0]) {
        Ok(id) => id,
        Err(error) => {
            return Err(error);
        },
    };
    if id > 0 {
        if let Some(window) = editor.find_window_by_id(id) {
            if let Some(w) = editor.find_window(window) {
                proof {
                    crate::editor::windows::lemma_window_tab(*editor, w as int);
                }
                if let Some(at) = editor.find_tab(editor.windows[w].tab) {
                    let windows = editor.windows_of(at);
                    let place: usize = window_number(&windows, window);
                    assert(editor.tabs.len() <= usize::MAX);
                    infos.push(win_info(&editor.windows[w], place, at + 1));
                    let value = Typval::list(infos);
                    proof {
                        let entry = editor.window_entry(window);
                        assert(value@->List_0 =~= seq![
                            info_value(
                                entry,
                                place_of(editor.links().tabs[at as int].windows(), window),
                                at + 1,
                            ),
                        ]);
                    }
                    return Ok(value);
                }
            }
        }
    }
    let value = Typval::list(infos);
    assert(value@->List_0 =~= Seq::empty());
    Ok(value)
}

/// `win_gotoid({expr})`: focuses a live window by its id: 1, or 0 when there is
/// none.
///
/// # Errors
///
/// `E119` and `E118` for too few and too many arguments, and an error for a
/// value that is no number.
pub fn call_win_gotoid_builtin(editor: &mut Editor, args: &[Typval]) -> (value: Result<
    Typval,
    EvalError,
>)
    requires
        old(editor).wf(),
    ensures
        final(editor).wf(),
        if args@.len() == 0 {
            &&& crate::types::fails_with(
                value,
                "E119"@,
                "Not enough arguments for function: win_gotoid"@,
            )
            &&& *final(editor) == *old(editor)
        } else if args@.len() > 1 {
            &&& crate::types::fails_with(
                value,
                "E118"@,
                "Too many arguments for function: win_gotoid"@,
            )
            &&& *final(editor) == *old(editor)
        } else if !is_numeric(args@[0]@) {
            refuses_number(value, args@[0]@) && *final(editor) == *old(editor)
        } else {
            match window_by_id(*old(editor), number_or_zero(args@[0]@)) {
                Some(window) => {
                    &&& value is Ok
                    &&& value->Ok_0@ == TypvalView::Number(1)
                    &&& if old(editor).links().current_window() == Some(window) {
                        *final(editor) == *old(editor)
                    } else {
                        old(editor).enters(final(editor), old(editor).links().window_at(window))
                    }
                },
                None => {
                    &&& value is Ok
                    &&& value->Ok_0@ == TypvalView::Number(0)
                    &&& *final(editor) == *old(editor)
                },
            }
        },
{
    if args.len() == 0 {
        return Err(EvalError::new("E119", "Not enough arguments for function: win_gotoid"));
    }
    if args.len() > 1 {
        return Err(EvalError::new("E118", "Too many arguments for function: win_gotoid"));
    }
    let id: i64 = match number_value(&args[0]) {
        Ok(id) => id,
        Err(error) => {
            return Err(error);
        },
    };
    if id <= 0 {
        return Ok(Typval::Number(0));
    }
    let window = match editor.find_window_by_id(id) {
        Some(window) => window,
        None => {
            return Ok(Typval::Number(0));
        },
    };
    let here: bool = match editor.current_window() {
        Some(current) => current == window,
        None => false,
    };
    if !here {
        if let Err(error) = editor.set_current_window(window) {
            return Err(EvalError::new("E957", error.message().as_str()));
        }
    }
    Ok(Typval::Number(1))
}

} // verus!
