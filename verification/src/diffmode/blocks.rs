//! Changed regions between buffers.

use vstd::prelude::*;

use similar::{Algorithm, DiffTag, TextDiff};

use crate::diffmode::flags::{compare_key, DiffOpts};
use crate::diffmode::DiffBlock;
use crate::text::{chars_of, join, lossy, string_of};
use crate::types::BufHandle;

verus! {

/// One step of the comparison of two texts line by line.
#[derive(Clone, Copy, Debug, PartialEq, Eq, Structural)]
pub struct LineOperation {
    /// The lines are the same on both sides.
    pub equal: bool,
    /// Zero-based first line in the old text.
    pub old_start: usize,
    /// Lines of the old text.
    pub old_len: usize,
    /// Zero-based first line in the new text.
    pub new_start: usize,
    /// Lines of the new text.
    pub new_len: usize,
}

/// The steps that `similar`'s Myers comparison finds between two texts.
pub uninterp spec fn myers_operations(old: Seq<char>, new: Seq<char>) -> Seq<LineOperation>;

/// Whether a line ends with the character at `at`: a line feed, or a carriage
/// return that no line feed follows.
pub open spec fn ends_line(text: Seq<char>, at: int) -> bool {
    text[at] == '\n' || (text[at] == '\r' && !(at + 1 < text.len() && text[at + 1] == '\n'))
}

/// How many of the first `count` characters end a line.
pub open spec fn line_ends(text: Seq<char>, count: nat) -> nat
    decreases count,
{
    if count == 0 {
        0
    } else {
        line_ends(text, (count - 1) as nat) + (if ends_line(text, count - 1) {
            1nat
        } else {
            0nat
        })
    }
}

/// How many lines a text has; the last one need not end.
pub open spec fn text_lines(text: Seq<char>) -> nat {
    line_ends(text, text.len()) + (if text.len() > 0 && !ends_line(text, text.len() - 1) {
        1nat
    } else {
        0nat
    })
}

/// Whether two texts can be compared: the comparison numbers their distinct
/// lines with 32 bits.
pub open spec fn comparable(old: Seq<char>, new: Seq<char>) -> bool {
    text_lines(old) + text_lines(new) <= u32::MAX
}

/// How many lines a text has.
fn count_lines(text: &str) -> (count: u64)
    ensures
        count == text_lines(text@),
{
    let chars = chars_of(text);
    let mut count: u64 = 0;
    let mut open: bool = false;
    let mut next: usize = 0;
    while next < chars.len()
        invariant
            chars@ == text@,
            next <= chars@.len(),
            count <= next,
            count == line_ends(text@, next as nat),
            open == (next > 0 && !ends_line(text@, next - 1)),
            open ==> count < next,
        decreases chars@.len() - next,
    {
        let followed: bool = chars.len() - next > 1 && chars[next + 1] == '\n';
        if chars[next] == '\n' || (chars[next] == '\r' && !followed) {
            count = count + 1;
            open = false;
        } else {
            open = true;
        }
        next = next + 1;
    }
    if open {
        count + 1
    } else {
        count
    }
}

/// `similar::TextDiff::configure().algorithm(Algorithm::Myers).diff_lines(..)`
/// and the `ops()` of what it returns. The comparison has no deadline, so its
/// steps depend on the two texts alone; which they are is left to the name.
/// Equal texts have their common prefix, which is all of them, reported as
/// equal and nothing else.
/// The comparison numbers the distinct lines of both texts with 32 bits, so the
/// texts may not have more lines than that between them.
#[verifier::external_body]
fn line_operations(old: &str, new: &str) -> (operations: Vec<LineOperation>)
    requires
        comparable(old@, new@),
    ensures
        operations@ == myers_operations(old@, new@),
        old@ == new@ ==> forall|i: int|
            0 <= i < operations@.len() ==> (#[trigger] operations@[i]).equal,
{
    let diff = TextDiff::configure().algorithm(Algorithm::Myers).diff_lines(old, new);
    let convert = |op: &similar::DiffOp| {
        let (tag, old, new) = op.as_tag_tuple();
        LineOperation {
            equal: tag == DiffTag::Equal,
            old_start: old.start,
            old_len: old.len(),
            new_start: new.start,
            new_len: new.len(),
        }
    };
    diff.ops().iter().map(convert).collect()
}

/// The change that a step stands for: one-based starts.
pub open spec fn hunk(operation: LineOperation, buffer: BufHandle) -> DiffBlock {
    DiffBlock {
        base: (crate::splice::sat(operation.old_start + 1), operation.old_len),
        other_buffer: buffer,
        other: (crate::splice::sat(operation.new_start + 1), operation.new_len),
    }
}

/// Whether `block` starts where `last` ends, on both sides.
pub open spec fn touches(last: DiffBlock, block: DiffBlock) -> bool {
    &&& last.other_buffer == block.other_buffer
    &&& last.base.0 + last.base.1 == block.base.0
    &&& last.other.0 + last.other.1 == block.other.0
}

/// The blocks with one more: it joins the last one when they touch.
pub open spec fn with_block(blocks: Seq<DiffBlock>, block: DiffBlock) -> Seq<DiffBlock> {
    if blocks.len() > 0 && touches(blocks.last(), block) {
        let last = blocks.last();
        blocks.drop_last().push(
            DiffBlock {
                base: (last.base.0, crate::splice::sat(last.base.1 + block.base.1)),
                other_buffer: last.other_buffer,
                other: (last.other.0, crate::splice::sat(last.other.1 + block.other.1)),
            },
        )
    } else {
        blocks.push(block)
    }
}

/// The blocks with those of a comparison's steps that are no equal lines.
pub open spec fn with_operations(
    blocks: Seq<DiffBlock>,
    operations: Seq<LineOperation>,
    buffer: BufHandle,
) -> Seq<DiffBlock>
    decreases operations.len(),
{
    if operations.len() == 0 {
        blocks
    } else {
        let before = with_operations(blocks, operations.drop_last(), buffer);
        if operations.last().equal {
            before
        } else {
            with_block(before, hunk(operations.last(), buffer))
        }
    }
}

fn ends_at(start: usize, count: usize, next: usize) -> (ends: bool)
    ensures
        ends == (start + count == next),
{
    start <= next && next - start == count
}

fn add_block(blocks: &mut Vec<DiffBlock>, block: DiffBlock)
    ensures
        final(blocks)@ == with_block(old(blocks)@, block),
{
    let count: usize = blocks.len();
    if count > 0 {
        let last = blocks[count - 1];
        if last.other_buffer == block.other_buffer && ends_at(
            last.base.0,
            last.base.1,
            block.base.0,
        ) && ends_at(last.other.0, last.other.1, block.other.0) {
            let joined = DiffBlock {
                base: (last.base.0, last.base.1.saturating_add(block.base.1)),
                other_buffer: last.other_buffer,
                other: (last.other.0, last.other.1.saturating_add(block.other.1)),
            };
            blocks.set(count - 1, joined);
            assert(blocks@ =~= with_block(old(blocks)@, block));
            return;
        }
    }
    blocks.push(block);
}

/// Adds the changes of a comparison with `buffer` to the blocks, one block per
/// contiguous change.
pub fn add_operations(
    blocks: &mut Vec<DiffBlock>,
    operations: &Vec<LineOperation>,
    buffer: BufHandle,
)
    ensures
        final(blocks)@ == with_operations(old(blocks)@, operations@, buffer),
{
    let mut next: usize = 0;
    while next < operations.len()
        invariant
            next <= operations@.len(),
            blocks@ == with_operations(old(blocks)@, operations@.take(next as int), buffer),
        decreases operations@.len() - next,
    {
        assert(operations@.take(next + 1).drop_last() =~= operations@.take(next as int));
        let operation = operations[next];
        if !operation.equal {
            add_block(
                blocks,
                DiffBlock {
                    base: (operation.old_start.saturating_add(1), operation.old_len),
                    other_buffer: buffer,
                    other: (operation.new_start.saturating_add(1), operation.new_len),
                },
            );
        }
        next = next + 1;
    }
    assert(operations@.take(next as int) =~= operations@);
}

/// The text that stands for a buffer's lines in a comparison: the lines' keys,
/// a newline between them.
pub open spec fn key_text(rows: Seq<Seq<u8>>, opts: DiffOpts) -> Seq<char> {
    crate::text::joined(
        rows.map_values(
            |row: Seq<u8>|
                crate::text::lossy_text(crate::diffmode::flags::comparison_key(row, opts)),
        ),
        '\n',
    )
}

/// The text that stands for a buffer's lines in a comparison.
#[must_use]
pub fn lines_to_text(lines: &Vec<Vec<u8>>, opts: DiffOpts) -> (text: String)
    ensures
        text@ == key_text(crate::text::views(lines@), opts),
{
    let ghost rows = crate::text::views(lines@);
    let ghost shown = rows.map_values(
        |row: Seq<u8>|
            crate::text::lossy_text(crate::diffmode::flags::comparison_key(row, opts)),
    );
    let mut parts: Vec<Vec<char>> = Vec::new();
    let mut next: usize = 0;
    assert(crate::text::views(parts@) =~= shown.take(0));
    while next < lines.len()
        invariant
            next <= lines@.len(),
            rows == crate::text::views(lines@),
            shown == rows.map_values(
                |row: Seq<u8>|
                    crate::text::lossy_text(crate::diffmode::flags::comparison_key(row, opts)),
            ),
            crate::text::views(parts@) == shown.take(next as int),
        decreases lines@.len() - next,
    {
        let ghost so_far = crate::text::views(parts@);
        let part = chars_of(lossy(compare_key(lines[next].as_slice(), opts).as_slice()).as_str());
        let ghost added = part@;
        parts.push(part);
        assert(rows[next as int] == lines@[next as int]@);
        assert(crate::text::views(parts@) =~= so_far.push(added));
        assert(shown.take(next + 1) =~= shown.take(next as int).push(shown[next as int]));
        next = next + 1;
    }
    assert(shown.take(next as int) =~= shown);
    string_of(join(&parts, '\n').as_slice())
}

/// The blocks with the changes between the reference text and that of
/// `buffer`. Texts with too many lines to be compared are passed over.
pub open spec fn with_comparison(
    blocks: Seq<DiffBlock>,
    base: Seq<char>,
    buffer: BufHandle,
    text: Seq<char>,
) -> Seq<DiffBlock> {
    if comparable(base, text) {
        with_operations(blocks, myers_operations(base, text), buffer)
    } else {
        blocks
    }
}

/// Compares the reference text with that of `buffer` and adds the changes.
pub fn add_comparison(blocks: &mut Vec<DiffBlock>, base: &str, buffer: BufHandle, text: &str)
    ensures
        final(blocks)@ == with_comparison(old(blocks)@, base@, buffer, text@),
        base@ == text@ ==> final(blocks)@ == old(blocks)@,
{
    let total: u128 = count_lines(base) as u128 + count_lines(text) as u128;
    if total <= u32::MAX as u128 {
        let operations = line_operations(base, text);
        proof {
            if base@ == text@ {
                law_equal_lines_add_no_block(blocks@, operations@, buffer);
            }
        }
        add_operations(blocks, &operations, buffer);
    }
}

/// No block touches the one before it.
pub open spec fn maximal(blocks: Seq<DiffBlock>) -> bool {
    forall|i: int, j: int|
        0 <= i < blocks.len() && j == i + 1 && j < blocks.len() ==> !touches(
            #[trigger] blocks[i],
            #[trigger] blocks[j],
        )
}

/// There is one block per contiguous change: adding a comparison's steps leaves
/// no two blocks that touch.
pub proof fn law_blocks_do_not_touch(
    blocks: Seq<DiffBlock>,
    operations: Seq<LineOperation>,
    buffer: BufHandle,
)
    requires
        maximal(blocks),
    ensures
        maximal(with_operations(blocks, operations, buffer)),
    decreases operations.len(),
{
    if operations.len() > 0 {
        law_blocks_do_not_touch(blocks, operations.drop_last(), buffer);
        let before = with_operations(blocks, operations.drop_last(), buffer);
        if !operations.last().equal {
            let block = hunk(operations.last(), buffer);
            let after = with_block(before, block);
            assert forall|i: int, j: int|
                0 <= i < after.len() && j == i + 1 && j < after.len() implies !touches(
                #[trigger] after[i],
                #[trigger] after[j],
            ) by {
                assert(after[i] == before[i]);
                if j < before.len() {
                    assert(!touches(before[i], before[j]));
                    assert(after[j].base.0 == before[j].base.0);
                    assert(after[j].other.0 == before[j].other.0);
                }
            }
        }
    }
}

/// Texts without a change between them add no block.
pub proof fn law_equal_lines_add_no_block(
    blocks: Seq<DiffBlock>,
    operations: Seq<LineOperation>,
    buffer: BufHandle,
)
    requires
        forall|i: int| 0 <= i < operations.len() ==> (#[trigger] operations[i]).equal,
    ensures
        with_operations(blocks, operations, buffer) == blocks,
    decreases operations.len(),
{
    if operations.len() > 0 {
        assert(operations[operations.len() - 1].equal);
        assert forall|i: int| 0 <= i < operations.drop_last().len() implies (
        #[trigger] operations.drop_last()[i]).equal by {
            assert(operations[i].equal);
        }
        law_equal_lines_add_no_block(blocks, operations.drop_last(), buffer);
    }
}

/// Whether a block of the changes with `buffer` holds all lines that a step
/// replaces, on both sides, counted from one.
pub open spec fn covers(block: DiffBlock, operation: LineOperation, buffer: BufHandle) -> bool {
    &&& block.other_buffer == buffer
    &&& block.base.0 <= operation.old_start + 1
    &&& operation.old_start + 1 + operation.old_len <= block.base.0 + block.base.1
    &&& block.other.0 <= operation.new_start + 1
    &&& operation.new_start + 1 + operation.new_len <= block.other.0 + block.other.1
}

/// Whether the lines of a step can be counted.
pub open spec fn countable(operation: LineOperation) -> bool {
    &&& operation.old_start + operation.old_len < usize::MAX
    &&& operation.new_start + operation.new_len < usize::MAX
}

/// Whether the lines of all steps can be counted.
pub open spec fn all_countable(operations: Seq<LineOperation>) -> bool {
    forall|i: int| 0 <= i < operations.len() ==> countable(#[trigger] operations[i])
}

/// Whether some block holds all lines that a step replaces.
pub open spec fn covered(
    blocks: Seq<DiffBlock>,
    operation: LineOperation,
    buffer: BufHandle,
) -> bool {
    exists|k: int| 0 <= k < blocks.len() && covers(#[trigger] blocks[k], operation, buffer)
}

proof fn lemma_block_keeps(
    blocks: Seq<DiffBlock>,
    block: LineOperation,
    with: BufHandle,
    operation: LineOperation,
    buffer: BufHandle,
)
    requires
        countable(block),
        covered(blocks, operation, buffer),
    ensures
        covered(with_block(blocks, hunk(block, with)), operation, buffer),
{
    let k = choose|k: int| 0 <= k < blocks.len() && covers(#[trigger] blocks[k], operation, buffer);
    assert(covers(with_block(blocks, hunk(block, with))[k], operation, buffer));
}

/// Blocks go on to hold what they held when more steps are added.
pub proof fn lemma_operations_keep(
    blocks: Seq<DiffBlock>,
    operations: Seq<LineOperation>,
    with: BufHandle,
    operation: LineOperation,
    buffer: BufHandle,
)
    requires
        forall|i: int| 0 <= i < operations.len() ==> countable(#[trigger] operations[i]),
        covered(blocks, operation, buffer),
    ensures
        covered(with_operations(blocks, operations, with), operation, buffer),
    decreases operations.len(),
{
    if operations.len() > 0 {
        let fewer = operations.drop_last();
        assert forall|i: int| 0 <= i < fewer.len() implies countable(#[trigger] fewer[i]) by {
            assert(fewer[i] == operations[i]);
        }
        lemma_operations_keep(blocks, fewer, with, operation, buffer);
        if !operations.last().equal {
            lemma_block_keeps(
                with_operations(blocks, fewer, with),
                operations.last(),
                with,
                operation,
                buffer,
            );
        }
    }
}

/// Every step that changes lines is held by a block of the changes with its
/// buffer: its old lines where the block is in the reference buffer, its new
/// lines where the block is in the compared one. Blocks that were there before
/// go on to hold what they held.
pub proof fn law_blocks_hold_every_changed_line(
    blocks: Seq<DiffBlock>,
    operations: Seq<LineOperation>,
    buffer: BufHandle,
    j: int,
)
    requires
        forall|i: int| 0 <= i < operations.len() ==> countable(#[trigger] operations[i]),
        0 <= j < operations.len(),
        !operations[j].equal,
    ensures
        covered(with_operations(blocks, operations, buffer), operations[j], buffer),
    decreases operations.len(),
{
    let fewer = operations.drop_last();
    let before = with_operations(blocks, fewer, buffer);
    let after = with_operations(blocks, operations, buffer);
    assert forall|i: int| 0 <= i < fewer.len() implies countable(#[trigger] fewer[i]) by {
        assert(fewer[i] == operations[i]);
    }
    assert(countable(operations[j]));
    assert(countable(operations[operations.len() - 1]));
    if j == operations.len() - 1 {
        assert(covers(after[after.len() - 1], operations[j], buffer));
    } else {
        law_blocks_hold_every_changed_line(blocks, fewer, buffer, j);
        if !operations.last().equal {
            lemma_block_keeps(before, operations.last(), buffer, operations[j], buffer);
        }
    }
}

/// Whether a line of the old text is one that a step replaces.
pub open spec fn replaces_old(operations: Seq<LineOperation>, line: int) -> bool {
    exists|j: int|
        0 <= j < operations.len() && !(#[trigger] operations[j]).equal && operations[j].old_start
            + 1 <= line < operations[j].old_start + 1 + operations[j].old_len
}

/// Whether a line of the new text is one that a step puts in.
pub open spec fn replaces_new(operations: Seq<LineOperation>, line: int) -> bool {
    exists|j: int|
        0 <= j < operations.len() && !(#[trigger] operations[j]).equal && operations[j].new_start
            + 1 <= line < operations[j].new_start + 1 + operations[j].new_len
}

/// The blocks of the changes with a buffer hold no line but those that the
/// steps of its comparison replace, and the blocks with other buffers are left
/// as they were.
pub proof fn law_blocks_hold_only_changed_lines(
    blocks: Seq<DiffBlock>,
    operations: Seq<LineOperation>,
    buffer: BufHandle,
)
    requires
        forall|i: int| 0 <= i < operations.len() ==> countable(#[trigger] operations[i]),
        forall|k: int| 0 <= k < blocks.len() ==> (#[trigger] blocks[k]).other_buffer != buffer,
    ensures
        ({
            let after = with_operations(blocks, operations, buffer);
            &&& after.len() >= blocks.len()
            &&& after.take(blocks.len() as int) == blocks
            &&& forall|k: int|
                blocks.len() <= k < after.len() ==> (#[trigger] after[k]).other_buffer == buffer
            &&& forall|k: int, line: int|
                blocks.len() <= k < after.len() && (#[trigger] after[k]).base.0 <= line
                    < after[k].base.0 + after[k].base.1 ==> #[trigger] replaces_old(
                    operations,
                    line,
                )
            &&& forall|k: int, line: int|
                blocks.len() <= k < after.len() && (#[trigger] after[k]).other.0 <= line
                    < after[k].other.0 + after[k].other.1 ==> #[trigger] replaces_new(
                    operations,
                    line,
                )
        }),
    decreases operations.len(),
{
    let after = with_operations(blocks, operations, buffer);
    if operations.len() == 0 {
        assert(after.take(blocks.len() as int) =~= blocks);
    } else {
        let fewer = operations.drop_last();
        let before = with_operations(blocks, fewer, buffer);
        let last = operations.last();
        assert forall|i: int| 0 <= i < fewer.len() implies countable(#[trigger] fewer[i]) by {
            assert(fewer[i] == operations[i]);
        }
        assert(countable(operations[operations.len() - 1]));
        law_blocks_hold_only_changed_lines(blocks, fewer, buffer);
        assert forall|line: int| replaces_old(fewer, line) implies #[trigger] replaces_old(
            operations,
            line,
        ) by {
            let j = choose|j: int|
                0 <= j < fewer.len() && !(#[trigger] fewer[j]).equal && fewer[j].old_start + 1
                    <= line < fewer[j].old_start + 1 + fewer[j].old_len;
            assert(operations[j] == fewer[j]);
        }
        assert forall|line: int| replaces_new(fewer, line) implies #[trigger] replaces_new(
            operations,
            line,
        ) by {
            let j = choose|j: int|
                0 <= j < fewer.len() && !(#[trigger] fewer[j]).equal && fewer[j].new_start + 1
                    <= line < fewer[j].new_start + 1 + fewer[j].new_len;
            assert(operations[j] == fewer[j]);
        }
        assert(operations[operations.len() - 1] == last);
        if !last.equal {
            let block = hunk(last, buffer);
            let n = blocks.len() as int;
            if before.len() > 0 && touches(before.last(), block) {
                assert(before.last() == before[before.len() - 1]);
                if before.len() == n {
                    assert(before.take(n)[n - 1] == before[n - 1]);
                    assert(blocks[n - 1].other_buffer != buffer);
                }
            }
            assert(after.take(n) =~= blocks) by {
                assert forall|k: int| 0 <= k < n implies after[k] == blocks[k] by {
                    assert(before.take(n)[k] == before[k]);
                }
            }
            assert forall|k: int, line: int|
                n <= k < after.len() && (#[trigger] after[k]).base.0 <= line < after[k].base.0
                    + after[k].base.1 implies #[trigger] replaces_old(operations, line) by {
                if k < before.len() && before[k].base.0 <= line < before[k].base.0
                    + before[k].base.1 {
                    assert(replaces_old(fewer, line));
                }
            }
            assert forall|k: int, line: int|
                n <= k < after.len() && (#[trigger] after[k]).other.0 <= line < after[k].other.0
                    + after[k].other.1 implies #[trigger] replaces_new(operations, line) by {
                if k < before.len() && before[k].other.0 <= line < before[k].other.0
                    + before[k].other.1 {
                    assert(replaces_new(fewer, line));
                }
            }
        }
    }
}

} // verus!
