//! Tag functions: `taglist()`, `gettagstack()` and `settagstack()`.

use vstd::prelude::*;

use crate::builtins::{
    count_number, current_windows, is_key, number_count, numbered_window, typval_number,
    typval_to_text,
};
use crate::editor::Editor;
use crate::options::OptionValue;
use crate::text::{lossy, same_text, signed_string};
use crate::types::{BufHandle, EvalError, OxStr, Typval, TypvalView, WinHandle};

verus! {

/// One entry of a window's tag stack.
#[derive(Debug, PartialEq, Eq)]
pub struct TagStackItem {
    /// The tag that was jumped to.
    pub tagname: String,
    /// The buffer that the jump left.
    pub from_bufnr: BufHandle,
    /// The line that the jump left.
    pub from_lnum: usize,
    /// The column that the jump left.
    pub from_col: usize,
    /// The virtual offset that the jump left.
    pub from_off: i64,
    /// The buffer that was jumped to.
    pub bufnr: Option<BufHandle>,
    /// Which match was jumped to, one-based.
    pub matchnr: usize,
    /// What a user stored with the entry.
    pub user_data: Option<Typval>,
}

/// What a [`TagStackItem`] holds.
#[verifier::ext_equal]
pub struct TagStackItemView {
    pub tagname: Seq<char>,
    pub from_bufnr: BufHandle,
    pub from_lnum: usize,
    pub from_col: usize,
    pub from_off: i64,
    pub bufnr: Option<BufHandle>,
    pub matchnr: usize,
    pub user_data: Option<TypvalView>,
}

impl View for TagStackItem {
    type V = TagStackItemView;

    open spec fn view(&self) -> TagStackItemView {
        TagStackItemView {
            tagname: self.tagname@,
            from_bufnr: self.from_bufnr,
            from_lnum: self.from_lnum,
            from_col: self.from_col,
            from_off: self.from_off,
            bufnr: self.bufnr,
            matchnr: self.matchnr,
            user_data: match self.user_data {
                Some(value) => Some(value@),
                None => None,
            },
        }
    }
}

/// What tag stack entries hold.
pub open spec fn items_view(items: Seq<TagStackItem>) -> Seq<TagStackItemView> {
    items.map_values(|item: TagStackItem| item@)
}

/// A window's tag stack.
#[derive(Debug, PartialEq, Eq)]
pub struct TagStack {
    /// The entries, oldest first.
    pub items: Vec<TagStackItem>,
    /// The entry that is current, one-based.
    pub curidx: usize,
}

/// What happens to the entries of a tag stack.
#[derive(Debug, PartialEq, Eq)]
pub enum TagStackEdit {
    /// They stay.
    Keep,
    /// They are replaced.
    Replace(Vec<TagStackItem>),
    /// More are appended.
    Append(Vec<TagStackItem>),
    /// Those behind the current one are dropped and more are pushed.
    TruncateAndPush(Vec<TagStackItem>),
}

/// What [`TagStackEdit`] holds.
#[verifier::ext_equal]
pub enum TagStackEditView {
    Keep,
    Replace(Seq<TagStackItemView>),
    Append(Seq<TagStackItemView>),
    TruncateAndPush(Seq<TagStackItemView>),
}

impl View for TagStackEdit {
    type V = TagStackEditView;

    open spec fn view(&self) -> TagStackEditView {
        match self {
            TagStackEdit::Keep => TagStackEditView::Keep,
            TagStackEdit::Replace(items) => TagStackEditView::Replace(items_view(items@)),
            TagStackEdit::Append(items) => TagStackEditView::Append(items_view(items@)),
            TagStackEdit::TruncateAndPush(items) => TagStackEditView::TruncateAndPush(
                items_view(items@),
            ),
        }
    }
}

/// What `settagstack()` asks for.
#[derive(Debug, PartialEq, Eq)]
pub enum TagStackChange {
    /// Nothing: the function returns -1.
    Refused,
    /// A change of one window's tag stack: the function returns 0. The current
    /// entry is set before the entries change.
    Update {
        /// The window.
        window: WinHandle,
        /// The new current entry, if one was given.
        curidx: Option<i64>,
        /// What happens to the entries.
        edit: TagStackEdit,
    },
}

/// The position that a jump left: buffer, line, column and virtual offset.
pub open spec fn parsed_from(value: TypvalView) -> Option<(BufHandle, usize, usize, i64)> {
    match value {
        TypvalView::List(items) => if items.len() < 4 {
            None
        } else {
            let bufnr = crate::builtins::number_of(items[0]);
            let lnum = crate::builtins::number_of(items[1]);
            let col = crate::builtins::number_of(items[2]);
            let off = crate::builtins::number_of(items[3]);
            if bufnr is Some && lnum is Some && col is Some && crate::types::is_handle_number(
                bufnr->0,
            ) {
                Some(
                    (
                        BufHandle(bufnr->0 as i32),
                        crate::splice::sat(lnum->0 as int),
                        crate::splice::sat(col->0 as int),
                        match off {
                            Some(off) => off,
                            None => 0,
                        },
                    ),
                )
            } else {
                None
            }
        },
        _ => None,
    }
}

fn parse_from(value: &Typval) -> (from: Option<(BufHandle, usize, usize, i64)>)
    ensures
        from == parsed_from(value@),
{
    let items = match value {
        Typval::List(items) => items,
        _ => {
            return None;
        },
    };
    proof {
        crate::types::lemma_list_view(*items);
    }
    if items.len() < 4 {
        return None;
    }
    let bufnr: i64 = match typval_number(&items[0]) {
        Some(number) => number,
        None => {
            return None;
        },
    };
    let lnum: i64 = match typval_number(&items[1]) {
        Some(number) => number,
        None => {
            return None;
        },
    };
    let col: i64 = match typval_number(&items[2]) {
        Some(number) => number,
        None => {
            return None;
        },
    };
    let off: i64 = match typval_number(&items[3]) {
        Some(number) => number,
        None => 0,
    };
    match BufHandle::try_from_number(bufnr) {
        Some(bufnr) => Some((bufnr, number_count(lnum), number_count(col), off)),
        None => None,
    }
}

/// What the entries of a dictionary say of a tag stack entry.
#[verifier::ext_equal]
pub struct ItemFields {
    pub tagname: Option<Seq<char>>,
    pub from: Option<(BufHandle, usize, usize, i64)>,
    pub bufnr: Option<BufHandle>,
    pub matchnr: usize,
    pub user_data: Option<TypvalView>,
}

/// A buffer handle from a value.
pub open spec fn handle_of(value: TypvalView) -> Option<BufHandle> {
    match crate::builtins::number_of(value) {
        Some(number) => if crate::types::is_handle_number(number) {
            Some(BufHandle(number as i32))
        } else {
            None
        },
        None => None,
    }
}

/// The fields with one more dictionary entry.
pub open spec fn with_field(
    fields: ItemFields,
    name: Seq<u8>,
    value: TypvalView,
) -> ItemFields {
    if name == crate::builtins::key("tagname"@) {
        ItemFields { tagname: Some(crate::builtins::text_of(value)), ..fields }
    } else if name == crate::builtins::key("from"@) {
        ItemFields { from: parsed_from(value), ..fields }
    } else if name == crate::builtins::key("bufnr"@) {
        ItemFields { bufnr: handle_of(value), ..fields }
    } else if name == crate::builtins::key("matchnr"@) {
        match crate::builtins::number_of(value) {
            Some(number) => if number > 0 {
                ItemFields { matchnr: crate::splice::sat(number as int), ..fields }
            } else {
                fields
            },
            None => fields,
        }
    } else if name == crate::builtins::key("user_data"@) {
        ItemFields { user_data: Some(value), ..fields }
    } else {
        fields
    }
}

/// What all entries of a dictionary say of a tag stack entry, later ones
/// winning.
pub open spec fn fields_of(entries: Seq<(Seq<u8>, TypvalView)>) -> ItemFields
    decreases entries.len(),
{
    if entries.len() == 0 {
        ItemFields { tagname: None, from: None, bufnr: None, matchnr: 1, user_data: None }
    } else {
        with_field(fields_of(entries.drop_last()), entries.last().0, entries.last().1)
    }
}

/// The tag stack entry that a dictionary stands for: it has to name the tag and
/// where the jump came from.
pub open spec fn parsed_item(entries: Seq<(Seq<u8>, TypvalView)>) -> Option<TagStackItemView> {
    let fields = fields_of(entries);
    if fields.tagname is Some && fields.from is Some {
        let from = fields.from->0;
        Some(
            TagStackItemView {
                tagname: fields.tagname->0,
                from_bufnr: from.0,
                from_lnum: from.1,
                from_col: from.2,
                from_off: from.3,
                bufnr: fields.bufnr,
                matchnr: fields.matchnr,
                user_data: fields.user_data,
            },
        )
    } else {
        None
    }
}

/// The tag stack entries that a list stands for; values that stand for none are
/// passed over.
pub open spec fn parsed_items(values: Seq<TypvalView>) -> Seq<TagStackItemView>
    decreases values.len(),
{
    if values.len() == 0 {
        Seq::empty()
    } else {
        let before = parsed_items(values.drop_last());
        match values.last() {
            TypvalView::Dict(entries) => match parsed_item(entries) {
                Some(item) => before.push(item),
                None => before,
            },
            _ => before,
        }
    }
}

/// The view of an optional value.
pub open spec fn optional_view(value: Option<Typval>) -> Option<TypvalView> {
    match value {
        Some(value) => Some(value@),
        None => None,
    }
}

/// The view of an optional text.
pub open spec fn optional_text(text: Option<String>) -> Option<Seq<char>> {
    match text {
        Some(text) => Some(text@),
        None => None,
    }
}

fn parse_item(entries: &Vec<(OxStr, Typval)>) -> (item: Option<TagStackItem>)
    ensures
        match parsed_item(crate::types::entries_view(entries@)) {
            Some(view) => item is Some && item->0@ == view,
            None => item is None,
        },
{
    let mut tagname: Option<String> = None;
    let mut from: Option<(BufHandle, usize, usize, i64)> = None;
    let mut bufnr: Option<BufHandle> = None;
    let mut matchnr: usize = 1;
    let mut user_data: Option<Typval> = None;
    let ghost views = crate::types::entries_view(entries@);
    let mut next: usize = 0;
    while next < entries.len()
        invariant
            next <= entries@.len(),
            views == crate::types::entries_view(entries@),
            fields_of(views.take(next as int)) == (ItemFields {
                tagname: optional_text(tagname),
                from,
                bufnr,
                matchnr,
                user_data: optional_view(user_data),
            }),
        decreases entries@.len() - next,
    {
        let name = &entries[next].0;
        let value = &entries[next].1;
        proof {
            assert(views.take(next + 1).drop_last() =~= views.take(next as int));
            assert(views.take(next + 1).last() == (name@, value@));
        }
        if is_key(name, "tagname") {
            tagname = Some(typval_to_text(value));
        } else if is_key(name, "from") {
            from = parse_from(value);
        } else if is_key(name, "bufnr") {
            bufnr = match typval_number(value) {
                Some(number) => BufHandle::try_from_number(number),
                None => None,
            };
        } else if is_key(name, "matchnr") {
            if let Some(number) = typval_number(value) {
                if number > 0 {
                    matchnr = number_count(number);
                }
            }
        } else if is_key(name, "user_data") {
            user_data = Some(value.clone());
        }
        next = next + 1;
    }
    assert(views.take(next as int) =~= views);
    match (tagname, from) {
        (Some(tagname), Some((from_bufnr, from_lnum, from_col, from_off))) => Some(
            TagStackItem {
                tagname,
                from_bufnr,
                from_lnum,
                from_col,
                from_off,
                bufnr,
                matchnr,
                user_data,
            },
        ),
        _ => None,
    }
}

/// The tag stack entries that a list of values stands for.
#[must_use]
pub fn parse_stack_items(values: &Vec<Typval>) -> (items: Vec<TagStackItem>)
    ensures
        items_view(items@) == parsed_items(crate::types::list_view(values@)),
{
    let ghost views = crate::types::list_view(values@);
    let mut items: Vec<TagStackItem> = Vec::new();
    let mut next: usize = 0;
    assert(items_view(items@) =~= parsed_items(views.take(0)));
    while next < values.len()
        invariant
            next <= values@.len(),
            views == crate::types::list_view(values@),
            items_view(items@) == parsed_items(views.take(next as int)),
        decreases values@.len() - next,
    {
        proof {
            assert(views.take(next + 1).drop_last() =~= views.take(next as int));
            assert(views.take(next + 1).last() == values@[next as int]@);
        }
        if let Typval::Dict(entries) = &values[next] {
            proof {
                crate::types::lemma_dict_view(*entries);
            }
            if let Some(item) = parse_item(entries) {
                let ghost so_far = items_view(items@);
                let ghost added = item@;
                items.push(item);
                assert(items_view(items@) =~= so_far.push(added));
            }
        }
        next = next + 1;
    }
    assert(views.take(next as int) =~= views);
    items
}

/// A number as a script value.
pub open spec fn number(count: int) -> TypvalView {
    TypvalView::Number(crate::builtins::script_number(count))
}

/// A tag stack entry as a script value.
pub open spec fn item_value(item: TagStackItemView) -> TypvalView {
    let entries = seq![
        (crate::builtins::key("bufnr"@), number(item.from_bufnr.0 as int)),
        (
            crate::builtins::key("tagname"@),
            TypvalView::String(vstd::utf8::encode_utf8(item.tagname)),
        ),
        (
            crate::builtins::key("from"@),
            TypvalView::List(
                seq![
                    number(item.from_bufnr.0 as int),
                    number(item.from_lnum as int),
                    number(item.from_col as int),
                    TypvalView::Number(item.from_off),
                ],
            ),
        ),
        (crate::builtins::key("matchnr"@), number(item.matchnr as int)),
    ];
    TypvalView::Dict(
        match item.user_data {
            Some(value) => entries.push((crate::builtins::key("user_data"@), value)),
            None => entries,
        },
    )
}

/// A tag stack as a script value.
pub open spec fn stack_value(items: Seq<TagStackItemView>, curidx: usize) -> TypvalView {
    TypvalView::Dict(
        seq![
            (crate::builtins::key("length"@), number(items.len() as int)),
            (crate::builtins::key("curidx"@), number(curidx as int)),
            (
                crate::builtins::key("items"@),
                TypvalView::List(items.map_values(|item: TagStackItemView| item_value(item))),
            ),
        ],
    )
}

fn item_to_typval(item: &TagStackItem) -> (value: Typval)
    ensures
        value@ == item_value(item@),
{
    let from = vec![
        Typval::Number(item.from_bufnr.0 as i64),
        Typval::Number(count_number(item.from_lnum)),
        Typval::Number(count_number(item.from_col)),
        Typval::Number(item.from_off),
    ];
    proof {
        assert(crate::types::list_view(from@) =~= seq![
            number(item.from_bufnr.0 as int),
            number(item.from_lnum as int),
            number(item.from_col as int),
            TypvalView::Number(item.from_off),
        ]);
    }
    let mut entries = vec![
        (OxStr::from_text("bufnr"), Typval::Number(item.from_bufnr.0 as i64)),
        (OxStr::from_text("tagname"), Typval::text(item.tagname.as_str())),
        (OxStr::from_text("from"), Typval::list(from)),
        (OxStr::from_text("matchnr"), Typval::Number(count_number(item.matchnr))),
    ];
    if let Some(data) = &item.user_data {
        entries.push((OxStr::from_text("user_data"), data.clone()));
    }
    let value = Typval::dict(entries);
    proof {
        assert(value@->Dict_0 =~= item_value(item@)->Dict_0);
    }
    value
}

/// A tag stack as a script value.
#[must_use]
pub fn stack_to_typval(stack: &TagStack) -> (value: Typval)
    ensures
        value@ == stack_value(items_view(stack.items@), stack.curidx),
{
    let mut items: Vec<Typval> = Vec::new();
    let mut next: usize = 0;
    while next < stack.items.len()
        invariant
            next <= stack.items@.len(),
            items@.len() == next,
            forall|i: int| 0 <= i < next ==> (#[trigger] items@[i])@ == item_value(stack.items@[i]@),
        decreases stack.items@.len() - next,
    {
        items.push(item_to_typval(&stack.items[next]));
        next = next + 1;
    }
    proof {
        assert(crate::types::list_view(items@) =~= items_view(stack.items@).map_values(
            |item: TagStackItemView| item_value(item),
        ));
    }
    let value = Typval::dict(
        vec![
            (OxStr::from_text("length"), Typval::Number(count_number(stack.items.len()))),
            (OxStr::from_text("curidx"), Typval::Number(count_number(stack.curidx))),
            (OxStr::from_text("items"), Typval::list(items)),
        ],
    );
    proof {
        assert(value@->Dict_0 =~= stack_value(
            items_view(stack.items@),
            stack.curidx,
        )->Dict_0);
    }
    value
}

/// The window that a script value names: none or zero is the current one, a
/// live window's handle that window, and another number a place in the current
/// tabpage.
pub open spec fn named_window(editor: Editor, value: Option<TypvalView>) -> Option<WinHandle> {
    match value {
        None => editor.links().current_window(),
        Some(value) => match crate::builtins::number_of(value) {
            None => None,
            Some(number) => if number == 0 {
                editor.links().current_window()
            } else if number < 0 {
                None
            } else if crate::types::is_handle_number(number) && editor.has_window(
                WinHandle(number as i32),
            ) {
                Some(WinHandle(number as i32))
            } else {
                crate::builtins::numbered(crate::builtins::tab_windows(editor), number as int)
            },
        },
    }
}

/// The window that a script value names.
#[must_use]
pub fn window_from_nr(editor: &Editor, value: Option<&Typval>) -> (window: Option<WinHandle>)
    requires
        editor.wf(),
    ensures
        window == named_window(
            *editor,
            match value {
                Some(value) => Some(value@),
                None => None,
            },
        ),
{
    let number: i64 = match value {
        None => {
            return editor.current_window();
        },
        Some(value) => match typval_number(value) {
            Some(number) => number,
            None => {
                return None;
            },
        },
    };
    if number == 0 {
        return editor.current_window();
    }
    if number < 0 {
        return None;
    }
    if let Some(handle) = WinHandle::try_from_number(number) {
        if let Some(_) = editor.find_window(handle) {
            return Some(handle);
        }
    }
    let windows = current_windows(editor);
    numbered_window(&windows, number)
}

/// The stack that a table holds for a window: the first one.
pub open spec fn stack_of(stacks: Seq<(WinHandle, TagStack)>, window: WinHandle) -> Option<TagStack>
    decreases stacks.len(),
{
    if stacks.len() == 0 {
        None
    } else if stacks[0].0 == window {
        Some(stacks[0].1)
    } else {
        stack_of(stacks.drop_first(), window)
    }
}

/// `gettagstack([{nr}])`: a window's tag stack, of those in `stacks`. Without
/// such a window or stack the dictionary is empty.
///
/// # Errors
///
/// `E118` for more than one argument.
pub fn gettagstack(editor: &Editor, args: &[Typval], stacks: &Vec<(WinHandle, TagStack)>) -> (value:
    Result<Typval, EvalError>)
    requires
        editor.wf(),
    ensures
        if args@.len() > 1 {
            crate::types::fails_with(
                value,
                "E118"@,
                "Too many arguments for function: gettagstack"@,
            )
        } else {
            let named = if args@.len() == 0 {
                None
            } else {
                Some(args@[0]@)
            };
            let stack = match named_window(*editor, named) {
                Some(window) => stack_of(stacks@, window),
                None => None,
            };
            &&& value is Ok
            &&& value->Ok_0@ == match stack {
                Some(stack) => stack_value(items_view(stack.items@), stack.curidx),
                None => TypvalView::Dict(Seq::empty()),
            }
        },
{
    if args.len() > 1 {
        return Err(EvalError::new("E118", "Too many arguments for function: gettagstack"));
    }
    let named = if args.len() == 0 {
        None
    } else {
        Some(&args[0])
    };
    if let Some(window) = window_from_nr(editor, named) {
        let mut next: usize = 0;
        assert(stacks@.skip(0) =~= stacks@);
        while next < stacks.len()
            invariant
                next <= stacks@.len(),
                stack_of(stacks@, window) == stack_of(stacks@.skip(next as int), window),
                args@.len() <= 1,
                named_window(
                    *editor,
                    if args@.len() == 0 {
                        None
                    } else {
                        Some(args@[0]@)
                    },
                ) == Some(window),
            decreases stacks@.len() - next,
        {
            assert(stacks@.skip(next as int).drop_first() =~= stacks@.skip(next + 1));
            if stacks[next].0 == window {
                return Ok(stack_to_typval(&stacks[next].1));
            }
            next = next + 1;
        }
    }
    let value = Typval::dict(Vec::new());
    assert(value@->Dict_0 =~= Seq::empty());
    Ok(value)
}

/// What the entries of `settagstack()`'s dictionary say: the entries of the
/// stack and its current one, later ones winning.
pub open spec fn request_of(entries: Seq<(Seq<u8>, TypvalView)>) -> (
    Option<Seq<TagStackItemView>>,
    Option<i64>,
)
    decreases entries.len(),
{
    if entries.len() == 0 {
        (None, None)
    } else {
        let before = request_of(entries.drop_last());
        let (name, value) = entries.last();
        if name == crate::builtins::key("items"@) {
            match value {
                TypvalView::List(items) => (Some(parsed_items(items)), before.1),
                _ => before,
            }
        } else if name == crate::builtins::key("curidx"@) {
            (before.0, crate::builtins::number_of(value))
        } else {
            before
        }
    }
}

/// An entry `items` that is no list.
pub open spec fn bad_items(entry: (Seq<u8>, TypvalView)) -> bool {
    entry.0 == crate::builtins::key("items"@) && !(entry.1 is List)
}

/// Whether the dictionary has an entry `items` that is no list.
pub open spec fn lists_badly(entries: Seq<(Seq<u8>, TypvalView)>) -> bool {
    exists|i: int| 0 <= i < entries.len() && bad_items(#[trigger] entries[i])
}

/// The action of `settagstack()`'s third argument: to replace the entries
/// unless it is given.
pub open spec fn action_of(args: Seq<Typval>) -> Seq<char> {
    if args.len() == 3 {
        crate::builtins::text_of(args[2]@)
    } else {
        "r"@
    }
}

/// What happens to the entries.
pub open spec fn edit_of(
    items: Option<Seq<TagStackItemView>>,
    action: Seq<char>,
) -> TagStackEditView {
    match items {
        Some(items) => if action == "a"@ {
            TagStackEditView::Append(items)
        } else if action == "t"@ {
            TagStackEditView::TruncateAndPush(items)
        } else {
            TagStackEditView::Replace(items)
        },
        None => if action == "t"@ {
            TagStackEditView::TruncateAndPush(Seq::empty())
        } else {
            TagStackEditView::Keep
        },
    }
}

/// What the entries say.
fn read_request(entries: &Vec<(OxStr, Typval)>) -> (request: Result<
    (Option<Vec<TagStackItem>>, Option<i64>),
    EvalError,
>)
    ensures
        ({
            let views = crate::types::entries_view(entries@);
            if lists_badly(views) {
                crate::types::fails_with(request, "E714"@, "List required"@)
            } else {
                &&& request is Ok
                &&& optional_items((request->Ok_0).0) == request_of(views).0
                &&& (request->Ok_0).1 == request_of(views).1
            }
        }),
{
    let mut items: Option<Vec<TagStackItem>> = None;
    let mut curidx: Option<i64> = None;
    let ghost views = crate::types::entries_view(entries@);
    let mut next: usize = 0;
    while next < entries.len()
        invariant
            next <= entries@.len(),
            views == crate::types::entries_view(entries@),
            forall|i: int| 0 <= i < next ==> !bad_items(#[trigger] views[i]),
            optional_items(items) == request_of(views.take(next as int)).0,
            curidx == request_of(views.take(next as int)).1,
        decreases entries@.len() - next,
    {
        let name = &entries[next].0;
        let value = &entries[next].1;
        proof {
            assert(views.take(next + 1).drop_last() =~= views.take(next as int));
            assert(views.take(next + 1).last() == views[next as int]);
            assert(views[next as int] == (name@, value@));
        }
        if is_key(name, "items") {
            match value {
                Typval::List(list) => {
                    proof {
                        crate::types::lemma_list_view(*list);
                    }
                    items = Some(parse_stack_items(list));
                },
                _ => {
                    assert(bad_items(views[next as int]));
                    return Err(EvalError::new("E714", "List required"));
                },
            }
        } else if is_key(name, "curidx") {
            curidx = typval_number(value);
        }
        next = next + 1;
    }
    assert(views.take(next as int) =~= views);
    Ok((items, curidx))
}

/// What optional tag stack entries hold.
pub open spec fn optional_items(items: Option<Vec<TagStackItem>>) -> Option<
    Seq<TagStackItemView>,
> {
    match items {
        Some(items) => Some(items_view(items@)),
        None => None,
    }
}

/// `settagstack({nr}, {dict} [, {action}])`: what to do with a window's tag
/// stack.
///
/// # Errors
///
/// `E119` and `E118` for too few and too many arguments, `E1206` for a list in
/// place of the dictionary, `E1174` for an action that is no string, `E962` for
/// one that is unknown, and `E714` for items that are no list.
pub fn settagstack(editor: &Editor, args: &[Typval]) -> (change: Result<TagStackChange, EvalError>)
    requires
        editor.wf(),
    ensures
        if args@.len() < 2 {
            crate::types::fails_with(
                change,
                "E119"@,
                "Not enough arguments for function: settagstack"@,
            )
        } else if args@.len() > 3 {
            crate::types::fails_with(
                change,
                "E118"@,
                "Too many arguments for function: settagstack"@,
            )
        } else {
            match (named_window(*editor, Some(args@[0]@)), args@[1]@) {
                (None, _) => change == Ok::<_, EvalError>(TagStackChange::Refused),
                (Some(_), TypvalView::List(_)) => crate::types::fails_with(
                    change,
                    "E1206"@,
                    "Dictionary required for argument 2"@,
                ),
                (Some(window), TypvalView::Dict(entries)) => {
                    let action = action_of(args@);
                    if args@.len() == 3 && !(args@[2]@ is String) {
                        crate::types::fails_with(
                            change,
                            "E1174"@,
                            "String required for argument 3"@,
                        )
                    } else if action != "r"@ && action != "a"@ && action != "t"@ {
                        crate::types::fails_with(
                            change,
                            "E962"@,
                            "Invalid action: '"@ + action + "'"@,
                        )
                    } else if lists_badly(entries) {
                        crate::types::fails_with(change, "E714"@, "List required"@)
                    } else {
                        &&& change is Ok
                        &&& change->Ok_0 is Update
                        &&& change->Ok_0->window == window
                        &&& change->Ok_0->curidx == request_of(entries).1
                        &&& change->Ok_0->edit@ == edit_of(request_of(entries).0, action)
                    }
                },
                _ => change == Ok::<_, EvalError>(TagStackChange::Refused),
            }
        },
{
    if args.len() < 2 {
        return Err(EvalError::new("E119", "Not enough arguments for function: settagstack"));
    }
    if args.len() > 3 {
        return Err(EvalError::new("E118", "Too many arguments for function: settagstack"));
    }
    let window = match window_from_nr(editor, Some(&args[0])) {
        Some(window) => window,
        None => {
            return Ok(TagStackChange::Refused);
        },
    };
    let entries = match &args[1] {
        Typval::Dict(entries) => entries,
        Typval::List(_) => {
            return Err(EvalError::new("E1206", "Dictionary required for argument 2"));
        },
        _ => {
            return Ok(TagStackChange::Refused);
        },
    };
    proof {
        crate::types::lemma_dict_view(*entries);
    }
    let action = if args.len() == 3 {
        match &args[2] {
            Typval::String(bytes) => lossy(bytes.as_bytes()),
            _ => {
                return Err(EvalError::new("E1174", "String required for argument 3"));
            },
        }
    } else {
        "r".to_owned()
    };
    let appends: bool = same_text(action.as_str(), "a");
    let truncates: bool = same_text(action.as_str(), "t");
    if !appends && !truncates && !same_text(action.as_str(), "r") {
        let mut message = "Invalid action: '".to_owned();
        message.append(action.as_str());
        message.append("'");
        return Err(EvalError::new("E962", message.as_str()));
    }
    let (items, curidx) = match read_request(entries) {
        Ok(request) => request,
        Err(error) => {
            return Err(error);
        },
    };
    let edit = match items {
        Some(items) => if appends {
            TagStackEdit::Append(items)
        } else if truncates {
            TagStackEdit::TruncateAndPush(items)
        } else {
            TagStackEdit::Replace(items)
        },
        None => if truncates {
            let none: Vec<TagStackItem> = Vec::new();
            assert(items_view(none@) =~= Seq::empty());
            TagStackEdit::TruncateAndPush(none)
        } else {
            TagStackEdit::Keep
        },
    };
    Ok(TagStackChange::Update { window, curidx, edit })
}

/// One match that a tag lookup found.
#[derive(Debug, PartialEq, Eq)]
pub struct TagMatch {
    /// The tag.
    pub name: String,
    /// The file that defines it.
    pub filename: String,
    /// How to find it in that file.
    pub cmd: String,
    /// Further fields in order.
    pub fields: Vec<(String, String)>,
}

/// What `taglist()` looks for.
#[derive(Debug, PartialEq, Eq)]
pub struct TaglistRequest {
    /// The pattern.
    pub pattern: String,
    /// The file whose matches come first, if one was named.
    pub preferred: Option<String>,
}

/// The pattern of `taglist()`'s first argument: a string or a number.
pub open spec fn pattern_of(value: TypvalView) -> Seq<char> {
    match value {
        TypvalView::String(bytes) => crate::text::lossy_text(bytes),
        TypvalView::Number(number) => crate::text::signed_text(number as int),
        _ => Seq::empty(),
    }
}

/// The file that `taglist()`'s second argument names, unless it is empty.
pub open spec fn preferred_of(args: Seq<Typval>) -> Option<Seq<char>> {
    if args.len() == 2 && crate::builtins::text_of(args[1]@).len() > 0 {
        Some(crate::builtins::text_of(args[1]@))
    } else {
        None
    }
}

/// What `taglist({expr} [, {filename}])` has to look for: nothing for an empty
/// pattern.
///
/// # Errors
///
/// `E119` and `E118` for too few and too many arguments.
pub fn taglist_request(args: &[Typval]) -> (request: Result<Option<TaglistRequest>, EvalError>)
    ensures
        if args@.len() < 1 {
            crate::types::fails_with(
                request,
                "E119"@,
                "Not enough arguments for function: taglist"@,
            )
        } else if args@.len() > 2 {
            crate::types::fails_with(request, "E118"@, "Too many arguments for function: taglist"@)
        } else if pattern_of(args@[0]@).len() == 0 {
            request == Ok::<Option<TaglistRequest>, EvalError>(None)
        } else {
            &&& request is Ok
            &&& request->Ok_0 is Some
            &&& (request->Ok_0)->0.pattern@ == pattern_of(args@[0]@)
            &&& optional_text((request->Ok_0)->0.preferred) == preferred_of(args@)
        },
{
    if args.len() < 1 {
        return Err(EvalError::new("E119", "Not enough arguments for function: taglist"));
    }
    if args.len() > 2 {
        return Err(EvalError::new("E118", "Too many arguments for function: taglist"));
    }
    let pattern = match &args[0] {
        Typval::String(bytes) => lossy(bytes.as_bytes()),
        Typval::Number(number) => signed_string(*number),
        _ => String::new(),
    };
    if pattern.as_str().unicode_len() == 0 {
        return Ok(None);
    }
    let mut preferred: Option<String> = None;
    if args.len() == 2 {
        let name = typval_to_text(&args[1]);
        if name.as_str().unicode_len() > 0 {
            preferred = Some(name);
        }
    }
    Ok(Some(TaglistRequest { pattern, preferred }))
}

/// A text as a script value.
pub open spec fn text(chars: Seq<char>) -> TypvalView {
    TypvalView::String(vstd::utf8::encode_utf8(chars))
}

/// The dictionary entry of one field: the field `file` says that a tag is
/// static.
pub open spec fn field_entry(field: (String, String)) -> (Seq<u8>, TypvalView) {
    if field.0@ == "file"@ {
        (crate::builtins::key("static"@), TypvalView::Number(1))
    } else {
        (vstd::utf8::encode_utf8(field.0@), text(field.1@))
    }
}

/// A match as a script value.
pub open spec fn match_value(found: TagMatch) -> TypvalView {
    TypvalView::Dict(
        seq![
            (crate::builtins::key("name"@), text(found.name@)),
            (crate::builtins::key("filename"@), text(found.filename@)),
            (crate::builtins::key("cmd"@), text(found.cmd@)),
        ] + found.fields@.map_values(|field: (String, String)| field_entry(field)),
    )
}

fn match_to_typval(found: &TagMatch) -> (value: Typval)
    ensures
        value@ == match_value(*found),
{
    let mut entries = vec![
        (OxStr::from_text("name"), Typval::text(found.name.as_str())),
        (OxStr::from_text("filename"), Typval::text(found.filename.as_str())),
        (OxStr::from_text("cmd"), Typval::text(found.cmd.as_str())),
    ];
    let ghost all = match_value(*found)->Dict_0;
    let mut next: usize = 0;
    assert(crate::types::entries_view(entries@) =~= all.take(3));
    while next < found.fields.len()
        invariant
            next <= found.fields@.len(),
            all == match_value(*found)->Dict_0,
            crate::types::entries_view(entries@) == all.take(3 + next),
        decreases found.fields@.len() - next,
    {
        let field = &found.fields[next];
        let ghost so_far = crate::types::entries_view(entries@);
        assert(all[3 + next] == field_entry(found.fields@[next as int]));
        assert(all.take(3 + next + 1) =~= all.take(3 + next).push(all[3 + next]));
        if same_text(field.0.as_str(), "file") {
            entries.push((OxStr::from_text("static"), Typval::Number(1)));
        } else {
            entries.push((OxStr::from_text(field.0.as_str()), Typval::text(field.1.as_str())));
        }
        assert(crate::types::entries_view(entries@) =~= so_far.push(all[3 + next]));
        next = next + 1;
    }
    assert(all.take(3 + next) =~= all);
    Typval::dict(entries)
}

/// `taglist({expr} [, {filename}])`: the matches that the lookup of
/// [`taglist_request`] found, in the order it gave them. A lookup that failed
/// finds nothing, unless the tags file was malformed.
///
/// # Errors
///
/// Those of [`taglist_request`], and the lookup's `E431`.
pub fn taglist(args: &[Typval], lookup: Result<Vec<TagMatch>, EvalError>) -> (value: Result<
    Typval,
    EvalError,
>)
    ensures
        if args@.len() < 1 {
            crate::types::fails_with(value, "E119"@, "Not enough arguments for function: taglist"@)
        } else if args@.len() > 2 {
            crate::types::fails_with(value, "E118"@, "Too many arguments for function: taglist"@)
        } else if pattern_of(args@[0]@).len() == 0 {
            value is Ok && value->Ok_0@ == TypvalView::List(Seq::empty())
        } else {
            match lookup {
                Ok(found) => {
                    &&& value is Ok
                    &&& value->Ok_0@ == TypvalView::List(
                        found@.map_values(|found: TagMatch| match_value(found)),
                    )
                },
                Err(error) => if error.code@ == "E431"@ {
                    value is Err && value->Err_0 == error
                } else {
                    value is Ok && value->Ok_0@ == TypvalView::List(Seq::empty())
                },
            }
        },
{
    let none = Typval::list(Vec::new());
    assert(none@->List_0 =~= Seq::empty());
    match taglist_request(args) {
        Err(error) => {
            return Err(error);
        },
        Ok(None) => {
            return Ok(none);
        },
        Ok(Some(_)) => {},
    }
    let found = match lookup {
        Ok(found) => found,
        Err(error) => {
            if same_text(error.code.as_str(), "E431") {
                return Err(error);
            }
            return Ok(none);
        },
    };
    let mut items: Vec<Typval> = Vec::new();
    let mut next: usize = 0;
    while next < found.len()
        invariant
            next <= found@.len(),
            items@.len() == next,
            forall|i: int| 0 <= i < next ==> (#[trigger] items@[i])@ == match_value(found@[i]),
        decreases found@.len() - next,
    {
        items.push(match_to_typval(&found[next]));
        next = next + 1;
    }
    proof {
        assert(crate::types::list_view(items@) =~= found@.map_values(
            |found: TagMatch| match_value(found),
        ));
    }
    Ok(Typval::list(items))
}

/// How many characters of a tag count in a lookup: those that `'taglength'`
/// says, or all when it is not positive.
#[must_use]
pub fn significant_length(taglength: i64) -> (length: usize)
    ensures
        length == crate::splice::sat(taglength as int),
{
    number_count(taglength)
}

/// An option's value in effect and its global one, where there are such values.
#[derive(Debug, PartialEq, Eq)]
pub struct OptionLayers {
    /// The value in effect.
    pub effective: Option<OptionValue>,
    /// The global value.
    pub global: Option<OptionValue>,
}

impl OptionLayers {
    /// The value that counts: the one in effect, else the global one.
    pub open spec fn chosen(self) -> Option<OptionValue> {
        if self.effective is Some {
            self.effective
        } else {
            self.global
        }
    }

    fn choose_value(self) -> (value: Option<OptionValue>)
        ensures
            value == self.chosen(),
    {
        match self.effective {
            Some(value) => Some(value),
            None => self.global,
        }
    }
}

/// How a tag lookup is made.
#[derive(Debug, PartialEq, Eq)]
pub struct TagLookup {
    /// The names of the tags files.
    pub tags: String,
    /// How many characters of a tag count, zero for all.
    pub taglength: usize,
    /// Whether case is ignored.
    pub ignorecase: bool,
}

/// How `taglist()` makes its lookup: the layers are those of `'tags'` and
/// `'taglength'`, and `ignorecase` is the value of `'ignorecase'` in effect.
#[must_use]
pub fn tag_lookup(
    tags: OptionLayers,
    taglength: OptionLayers,
    ignorecase: Option<OptionValue>,
) -> (lookup: TagLookup)
    ensures
        lookup.tags@ == match tags.chosen() {
            Some(OptionValue::String(names)) => names@,
            _ => Seq::empty(),
        },
        lookup.taglength == match taglength.chosen() {
            Some(OptionValue::Number(length)) => crate::splice::sat(length as int),
            _ => 0,
        },
        lookup.ignorecase == (ignorecase == Some(OptionValue::Boolean(true))),
{
    let tags = match tags.choose_value() {
        Some(OptionValue::String(names)) => names,
        _ => String::new(),
    };
    let taglength: usize = match taglength.choose_value() {
        Some(OptionValue::Number(length)) => significant_length(length),
        _ => 0,
    };
    let ignorecase: bool = match ignorecase {
        Some(OptionValue::Boolean(ignored)) => ignored,
        _ => false,
    };
    TagLookup { tags, taglength, ignorecase }
}

/// Two keys with different names are different.
proof fn lemma_keys_differ(one: Seq<char>, other: Seq<char>)
    requires
        one != other,
    ensures
        crate::builtins::key(one) != crate::builtins::key(other),
{
    vstd::utf8::encode_utf8_decode_utf8(one);
    vstd::utf8::encode_utf8_decode_utf8(other);
}

/// The keys of a stack entry are all different.
proof fn lemma_item_keys()
    ensures
        crate::builtins::key("bufnr"@) != crate::builtins::key("tagname"@),
        crate::builtins::key("bufnr"@) != crate::builtins::key("from"@),
        crate::builtins::key("from"@) != crate::builtins::key("tagname"@),
        crate::builtins::key("matchnr"@) != crate::builtins::key("tagname"@),
        crate::builtins::key("matchnr"@) != crate::builtins::key("from"@),
        crate::builtins::key("matchnr"@) != crate::builtins::key("bufnr"@),
        crate::builtins::key("user_data"@) != crate::builtins::key("tagname"@),
        crate::builtins::key("user_data"@) != crate::builtins::key("from"@),
        crate::builtins::key("user_data"@) != crate::builtins::key("bufnr"@),
        crate::builtins::key("user_data"@) != crate::builtins::key("matchnr"@),
{
    reveal_strlit("bufnr");
    reveal_strlit("tagname");
    reveal_strlit("from");
    reveal_strlit("matchnr");
    reveal_strlit("user_data");
    assert("matchnr"@[0] == 'm');
    assert("tagname"@[0] == 't');
    lemma_keys_differ("bufnr"@, "tagname"@);
    lemma_keys_differ("bufnr"@, "from"@);
    lemma_keys_differ("from"@, "tagname"@);
    lemma_keys_differ("matchnr"@, "tagname"@);
    lemma_keys_differ("matchnr"@, "from"@);
    lemma_keys_differ("matchnr"@, "bufnr"@);
    lemma_keys_differ("user_data"@, "tagname"@);
    lemma_keys_differ("user_data"@, "from"@);
    lemma_keys_differ("user_data"@, "bufnr"@);
    lemma_keys_differ("user_data"@, "matchnr"@);
}

/// A stack entry is read back from its script value, but for two fields: the
/// value holds the buffer that the jump left in place of the one that was jumped
/// to, and the tag's name is read as text from its bytes.
pub proof fn law_item_is_read_back(item: TagStackItemView)
    requires
        crate::types::is_handle_number(item.from_bufnr.0 as i64),
        item.from_lnum <= i64::MAX,
        item.from_col <= i64::MAX,
        1 <= item.matchnr <= i64::MAX,
    ensures
        parsed_item(item_value(item)->Dict_0) == Some(
            TagStackItemView {
                bufnr: Some(item.from_bufnr),
                tagname: crate::text::lossy_text(vstd::utf8::encode_utf8(item.tagname)),
                ..item
            },
        ),
{
    let entries = item_value(item)->Dict_0;
    lemma_item_keys();
    let e1 = entries.take(1);
    let e2 = entries.take(2);
    let e3 = entries.take(3);
    let e4 = entries.take(4);
    assert(e1.drop_last() =~= Seq::empty());
    assert(e2.drop_last() =~= e1);
    assert(e3.drop_last() =~= e2);
    assert(e4.drop_last() =~= e3);
    let f1 = fields_of(e1);
    let f2 = fields_of(e2);
    let f3 = fields_of(e3);
    let f4 = fields_of(e4);
    reveal_with_fuel(fields_of, 2);
    assert(f1.bufnr == Some(item.from_bufnr) && f1.tagname is None && f1.from is None);
    assert(f2 == (ItemFields {
        tagname: Some(crate::text::lossy_text(vstd::utf8::encode_utf8(item.tagname))),
        ..f1
    }));
    let from = entries[2].1->List_0;
    assert(parsed_from(entries[2].1) == Some(
        (item.from_bufnr, item.from_lnum, item.from_col, item.from_off),
    ));
    assert(f3 == (ItemFields {
        from: Some((item.from_bufnr, item.from_lnum, item.from_col, item.from_off)),
        ..f2
    }));
    assert(f4 == (ItemFields { matchnr: item.matchnr, ..f3 }));
    if item.user_data is Some {
        assert(entries.drop_last() =~= e4);
        assert(fields_of(entries) == (ItemFields { user_data: item.user_data, ..f4 }));
    } else {
        assert(entries =~= e4);
    }
}

} // verus!
