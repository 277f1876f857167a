//! Closed folds between changes.

use vstd::prelude::*;

use crate::splice::{max_of, min_of};

verus! {

/// A closed fold: zero-based rows, the end exclusive.
#[derive(Clone, Copy, Debug, PartialEq, Eq, Structural)]
pub struct FoldRange {
    /// First folded row.
    pub start: usize,
    /// The row behind the last folded one.
    pub end: usize,
}

/// The first row that a change at line `start` keeps visible.
pub open spec fn visible_first(span: (usize, usize), context: usize) -> int {
    crate::splice::larger(span.0 - context, 1) - 1
}

/// The row behind the last one that a change keeps visible.
pub open spec fn visible_past(span: (usize, usize), context: usize, line_count: usize) -> int {
    crate::splice::larger(
        crate::splice::smaller(span.0 + span.1 - 1 + context, line_count as int),
        0,
    )
}

/// Whether a change keeps `row` visible.
pub open spec fn shows(
    span: (usize, usize),
    context: usize,
    line_count: usize,
    row: int,
) -> bool {
    visible_first(span, context) <= row < visible_past(span, context, line_count)
}

/// Whether some change keeps `row` visible.
pub open spec fn is_visible(
    spans: Seq<(usize, usize)>,
    context: usize,
    line_count: usize,
    row: int,
) -> bool {
    exists|k: int|
        0 <= k < spans.len() && shows(#[trigger] spans[k], context, line_count, row)
}

/// Whether `row` is folded.
pub open spec fn is_folded(ranges: Seq<FoldRange>, row: int) -> bool {
    exists|i: int| 0 <= i < ranges.len() && (#[trigger] ranges[i]).start <= row < ranges[i].end
}

/// Folds in order, none empty and none touching the next.
pub open spec fn apart(ranges: Seq<FoldRange>) -> bool {
    &&& forall|i: int| 0 <= i < ranges.len() ==> (#[trigger] ranges[i]).start < ranges[i].end
    &&& forall|i: int, j: int|
        0 <= i < j < ranges.len() ==> (#[trigger] ranges[i]).end < (#[trigger] ranges[j]).start
}

/// The folds that cover exactly the rows that no change keeps visible.
pub open spec fn folds_around(
    ranges: Seq<FoldRange>,
    spans: Seq<(usize, usize)>,
    context: usize,
    line_count: usize,
) -> bool {
    &&& apart(ranges)
    &&& forall|i: int| 0 <= i < ranges.len() ==> (#[trigger] ranges[i]).end <= line_count
    &&& forall|row: int|
        0 <= row < line_count ==> #[trigger] is_folded(ranges, row) == !is_visible(
            spans,
            context,
            line_count,
            row,
        )
}

fn first_visible(span: (usize, usize), context: usize) -> (row: usize)
    ensures
        row == visible_first(span, context),
{
    max_of(span.0.saturating_sub(context), 1) - 1
}

fn past_visible(span: (usize, usize), context: usize, line_count: usize) -> (row: usize)
    ensures
        row == visible_past(span, context, line_count),
{
    let end: usize = match span.0.checked_add(span.1) {
        Some(end) => end,
        None => {
            return line_count;
        },
    };
    if end == 0 {
        return min_of(context.saturating_sub(1), line_count);
    }
    min_of((end - 1).saturating_add(context), line_count)
}

/// Turns visible spans of one-based start and count into the complementary
/// closed folds.
#[must_use]
pub fn fold_ranges_around(
    spans: &Vec<(usize, usize)>,
    context: usize,
    line_count: usize,
) -> (ranges: Vec<FoldRange>)
    ensures
        folds_around(ranges@, spans@, context, line_count),
{
    let mut ranges: Vec<FoldRange> = Vec::new();
    let mut row: usize = 0;
    while row < line_count
        invariant
            row <= line_count,
            apart(ranges@),
            forall|i: int| 0 <= i < ranges@.len() ==> (#[trigger] ranges@[i]).end <= row,
            ranges@.len() > 0 && row < line_count && ranges@.last().end == row ==> is_visible(
                spans@,
                context,
                line_count,
                row as int,
            ),
            forall|r: int|
                0 <= r < row ==> #[trigger] is_folded(ranges@, r) == !is_visible(
                    spans@,
                    context,
                    line_count,
                    r,
                ),
        decreases line_count - row,
    {
        let (past, next): (usize, usize) = scan(spans, context, line_count, row);
        if past > row {
            proof {
                let k = choose|k: int|
                    0 <= k < spans@.len() && shows(
                        #[trigger] spans@[k],
                        context,
                        line_count,
                        row as int,
                    ) && visible_past(spans@[k], context, line_count) == past;
                assert forall|r: int| 0 <= r < past implies #[trigger] is_folded(ranges@, r)
                    == !is_visible(spans@, context, line_count, r) by {
                    if r >= row {
                        assert(shows(spans@[k], context, line_count, r));
                    }
                }
            }
            row = past;
        } else {
            let ghost before = ranges@;
            ranges.push(FoldRange { start: row, end: next });
            proof {
                assert(ranges@.last() == (FoldRange { start: row, end: next }));
                if before.len() > 0 {
                    assert(before.last().end < row);
                    assert forall|i: int| 0 <= i < before.len() implies (#[trigger] before[i]).end
                        < row by {
                        if i < before.len() - 1 {
                            assert(before[i].end < before[before.len() - 1].start);
                        }
                    }
                }
                assert forall|i: int, j: int| 0 <= i < j < ranges@.len() implies (
                #[trigger] ranges@[i]).end < (#[trigger] ranges@[j]).start by {
                    assert(ranges@[i] == before[i]);
                    if j < before.len() {
                        assert(ranges@[j] == before[j]);
                    }
                }
                assert forall|r: int| 0 <= r < next implies #[trigger] is_folded(ranges@, r)
                    == !is_visible(spans@, context, line_count, r) by {
                    if r < row {
                        if is_folded(before, r) {
                            let i = choose|i: int|
                                0 <= i < before.len() && (#[trigger] before[i]).start <= r
                                    < before[i].end;
                            assert(ranges@[i] == before[i]);
                        }
                        if is_folded(ranges@, r) {
                            let i = choose|i: int|
                                0 <= i < ranges@.len() && (#[trigger] ranges@[i]).start <= r
                                    < ranges@[i].end;
                            assert(ranges@[i] == before[i]);
                        }
                        assert(is_folded(before, r) == !is_visible(spans@, context, line_count, r));
                    } else {
                        assert(ranges@[before.len() as int].start <= r < ranges@[before.len() as int].end);
                        if is_visible(spans@, context, line_count, r) {
                            let k = choose|k: int|
                                0 <= k < spans@.len() && shows(
                                    #[trigger] spans@[k],
                                    context,
                                    line_count,
                                    r,
                                );
                            assert(shows(spans@[k], context, line_count, row as int));
                        }
                    }
                }
            }
            row = next;
        }
    }
    ranges
}

/// Looks at the changes from `row` on: the row behind a visible span that holds
/// it, or `row` itself when none does; and the next row, behind it, at which a
/// visible span starts.
fn scan(spans: &Vec<(usize, usize)>, context: usize, line_count: usize, row: usize) -> (found: (
    usize,
    usize,
))
    requires
        row < line_count,
    ensures
        row <= found.0 <= line_count,
        found.0 > row ==> exists|k: int|
            0 <= k < spans@.len() && shows(#[trigger] spans@[k], context, line_count, row as int)
                && visible_past(spans@[k], context, line_count) == found.0,
        found.0 == row ==> !is_visible(spans@, context, line_count, row as int),
        row < found.1 <= line_count,
        found.1 < line_count ==> is_visible(spans@, context, line_count, found.1 as int),
        forall|k: int|
            0 <= k < spans@.len() ==> {
                let first = visible_first(#[trigger] spans@[k], context);
                row < first < visible_past(spans@[k], context, line_count) ==> first >= found.1
            },
{
    let mut past: usize = row;
    let mut next: usize = line_count;
    let mut at: usize = 0;
    while at < spans.len()
        invariant
            row < line_count,
            at <= spans@.len(),
            row <= past <= line_count,
            past > row ==> exists|k: int|
                0 <= k < spans@.len() && shows(
                    #[trigger] spans@[k],
                    context,
                    line_count,
                    row as int,
                ) && visible_past(spans@[k], context, line_count) == past,
            past == row ==> forall|k: int|
                0 <= k < at ==> !shows(#[trigger] spans@[k], context, line_count, row as int),
            row < next <= line_count,
            next < line_count ==> is_visible(spans@, context, line_count, next as int),
            forall|k: int|
                0 <= k < at ==> {
                    let first = visible_first(#[trigger] spans@[k], context);
                    row < first < visible_past(spans@[k], context, line_count) ==> first >= next
                },
        decreases spans@.len() - at,
    {
        let first: usize = first_visible(spans[at], context);
        let end: usize = past_visible(spans[at], context, line_count);
        if first <= row && row < end {
            assert(shows(spans@[at as int], context, line_count, row as int));
            past = end;
        } else if row < first && first < end && first < next {
            assert(shows(spans@[at as int], context, line_count, first as int));
            next = first;
        }
        at = at + 1;
    }
    (past, next)
}

/// Without changes every line is folded, in one fold.
pub proof fn law_no_changes_fold_every_line(
    ranges: Seq<FoldRange>,
    context: usize,
    line_count: usize,
)
    requires
        folds_around(ranges, Seq::empty(), context, line_count),
        line_count > 0,
    ensures
        ranges == seq![FoldRange { start: 0, end: line_count }],
{
    let none = Seq::<(usize, usize)>::empty();
    assert(!is_visible(none, context, line_count, 0));
    assert(is_folded(ranges, 0));
    let first = choose|i: int| 0 <= i < ranges.len() && (#[trigger] ranges[i]).start <= 0
        < ranges[i].end;
    if first > 0 {
        assert(ranges[0].end < ranges[first].start);
    }
    if ranges[first].end < line_count {
        let r = ranges[first].end as int;
        assert(!is_visible(none, context, line_count, r));
        assert(is_folded(ranges, r));
        let i = choose|i: int| 0 <= i < ranges.len() && (#[trigger] ranges[i]).start <= r
            < ranges[i].end;
        if i < first {
            assert(ranges[i].end < ranges[first].start);
        } else if i > first {
            assert(ranges[first].end < ranges[i].start);
        }
    }
    if ranges.len() > 1 {
        assert(ranges[0].end < ranges[1].start);
        assert(ranges[1].start < ranges[1].end);
    }
    assert(ranges =~= seq![FoldRange { start: 0, end: line_count }]);
}

/// A changed line, and each line within the context around it, is not folded.
pub proof fn law_changes_stay_visible(
    ranges: Seq<FoldRange>,
    spans: Seq<(usize, usize)>,
    context: usize,
    line_count: usize,
    k: int,
    row: int,
)
    requires
        folds_around(ranges, spans, context, line_count),
        0 <= k < spans.len(),
        0 <= row < line_count,
        spans[k].0 - context <= row + 1 < spans[k].0 + spans[k].1 + context,
    ensures
        !is_folded(ranges, row),
{
    assert(shows(spans[k], context, line_count, row));
}

} // verus!
