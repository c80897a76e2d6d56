//! Scrolling: where a viewport may stand, what a frame makes of it, and what the terminal moves.

use vstd::prelude::*;

use crate::buffer::{blank, lemma_cell_index, lemma_cell_position, CellView};
use crate::geometry::CellRect;
use crate::node::{KindView, NodeView};
use crate::present::{eligible, inside, scroll_steps, scrollable, scrolled_cells, share_rows, steps, Step};
use crate::render::{all_settled, Drawn};
use crate::scroll::{whole_cells, ScrollMetrics, ScrollOp, ScrollState};

verus! {

/// The nearest number to `v` from zero to `last`, or zero where there is no room.
pub open spec fn nearest_in(v: int, last: int, found: int) -> bool {
    &&& last > 0 ==> 0 <= found <= last
    &&& last <= 0 ==> found == 0
    &&& last > 0 && 0 <= v <= last ==> found == v
    &&& last > 0 && v < 0 ==> found == 0
    &&& last > 0 && v > last ==> found == last
}

/// A viewport moves to the nearest position to what is asked that shows nothing beyond its content,
/// and nothing else of it changes; moving by a distance is moving to where that leads.
pub proof fn law_viewport_moves_as_far_as_its_content(
    state: ScrollState,
    viewport: CellRect,
    x: int,
    y: int,
)
    ensures
        ({
            let after = state.moved_to(viewport, (x, y));
            &&& after == (ScrollState { offset: after.offset, ..state })
            &&& nearest_in(x, state.extent.0 - viewport.width, after.offset.0 as int)
            &&& nearest_in(y, state.extent.1 - viewport.height, after.offset.1 as int)
            &&& state.moved_by(viewport, x, y) == state.moved_to(
                viewport,
                (state.offset.0 + x, state.offset.1 + y),
            )
        }),
{
}

/// A position is reported as the offset and the largest one that there is.
pub proof fn law_metrics_tell_the_position(state: ScrollState, viewport: CellRect)
    ensures
        ({
            let metrics = state.metrics(viewport);
            &&& metrics.offset == state.offset
            &&& metrics.max.0 == if state.extent.0 > viewport.width {
                state.extent.0 - viewport.width
            } else {
                0
            }
            &&& metrics.max.1 == if state.extent.1 > viewport.height {
                state.extent.1 - viewport.height
            } else {
                0
            }
        }),
{
}

/// A program asks for an offset by a point of the content: to the nearest column and to the nearest
/// row, of which one is eight points.
pub proof fn law_targets_round_to_cells(ticks: int)
    requires
        -0x1000_0000_0000 <= ticks <= 0x1000_0000_0000,
    ensures
        ({
            let col = whole_cells(ticks, 65536);
            let row = whole_cells(ticks, 524288);
            &&& -65536 <= 2 * (col * 65536 - ticks) <= 65536
            &&& -8 * 65536 <= 2 * (row * 8 * 65536 - ticks) <= 8 * 65536
            &&& whole_cells(-ticks, 65536) == -col
        }),
{
    lemma_whole_cells(ticks, 65536);
    lemma_whole_cells(-ticks, 65536);
    lemma_whole_cells(ticks, 524288);
}

proof fn lemma_whole_cells(ticks: int, unit: int)
    requires
        unit == 65536 || unit == 524288,
        -0x1000_0000_0000 <= ticks <= 0x1000_0000_0000,
    ensures
        ({
            let size = if ticks < 0 {
                -ticks
            } else {
                ticks
            };
            let found = (2 * size + unit) / (2 * unit);
            &&& whole_cells(ticks, unit) == if ticks < 0 {
                -found
            } else {
                found
            }
            &&& 2 * size - unit < 2 * unit * found <= 2 * size + unit
        }),
{
    let size = if ticks < 0 { -ticks } else { ticks };
    vstd::arithmetic::div_mod::lemma_fundamental_div_mod(2 * size + unit, 2 * unit);
    vstd::arithmetic::div_mod::lemma_mod_bound(2 * size + unit, 2 * unit);
    if unit == 65536 {
        assert((2 * size + unit) / (2 * unit) == (2 * size + 65536) / 131072);
    } else {
        assert((2 * size + unit) / (2 * unit) == (2 * size + 524288) / 1048576);
    }
}

/// A frame grants what the program asked of a viewport, holds it inside of the content, and forgets
/// the request; without one the viewport stays. It notes where it was shown and at which offset, and
/// reports its position to the host exactly where that differs from what it reported last.
pub proof fn law_frame_grants_and_reports(
    node: NodeView,
    state: ScrollState,
    clip: CellRect,
    shift: (i32, i32),
)
    requires
        node.kind == KindView::Scroll(state),
    ensures
        ({
            let own = node.own_settled(clip, shift);
            let region = node.visible_area(clip, shift);
            &&& own.node.kind matches KindView::Scroll(after)
            &&& own.node == (NodeView { kind: own.node.kind, ..node })
            &&& after.axis == state.axis && after.extent == state.extent
            &&& after.requested is None
            &&& after.drawn == Some((region, after.offset))
            &&& state.requested is None ==> after.offset == state.offset
            &&& state.requested matches Some(target) ==> nearest_in(
                target.0 as int,
                state.extent.0 - node.frame.width,
                after.offset.0 as int,
            ) && nearest_in(
                target.1 as int,
                state.extent.1 - node.frame.height,
                after.offset.1 as int,
            )
            &&& after.reported == Some(after.metrics(node.frame))
            &&& node.source is Some && state.reported != after.reported ==> own.reports == seq![
                (node.source->0, after.metrics(node.frame)),
            ]
            &&& node.source is None || state.reported == after.reported ==> own.reports
                == Seq::<(u32, ScrollMetrics)>::empty()
        }),
{
}

/// Where a viewport is shown in the same cells as in the frame before, at another offset, its rows
/// and columns moved by the difference; the first frame, and one in other cells, moves nothing.
pub proof fn law_frame_tells_what_moved(
    node: NodeView,
    state: ScrollState,
    clip: CellRect,
    shift: (i32, i32),
)
    requires
        node.kind == KindView::Scroll(state),
        0 <= state.offset.0,
        0 <= state.offset.1,
        state.requested is None,
        state.drawn matches Some((_, at)) ==> 0 <= at.0 && 0 <= at.1,
    ensures
        ({
            let ops = node.own_settled(clip, shift).ops;
            let region = node.visible_area(clip, shift);
            match state.drawn {
                None => ops == Seq::<ScrollOp>::empty(),
                Some((before, at)) => if before == region && at != state.offset {
                    &&& ops.len() == 1
                    &&& ops[0].region == region
                    &&& ops[0].delta.0 == state.offset.0 - at.0
                    &&& ops[0].delta.1 == state.offset.1 - at.1
                } else {
                    ops == Seq::<ScrollOp>::empty()
                },
            }
        }),
{
}

/// A list of subtrees settles one after the other, those that are not drawn not at all.
pub proof fn law_subtrees_settle_in_order(
    first: Seq<NodeView>,
    last: NodeView,
    drawn: Drawn,
    clip: CellRect,
    shift: (i32, i32),
)
    ensures
        ({
            let all = all_settled(first.push(last), drawn, clip, shift);
            let front = all_settled(first, drawn, clip, shift);
            let own = last.settled(clip, shift);
            if drawn.keeps(first.len() as int) {
                &&& all.nodes == front.nodes.push(own.node)
                &&& all.ops == front.ops + own.ops
                &&& all.reports == front.reports + own.reports
            } else {
                &&& all.nodes == front.nodes.push(last)
                &&& all.ops == front.ops
                &&& all.reports == front.reports
            }
        }),
{
    assert(first.push(last).drop_last() =~= first);
    assert(first.push(last).last() == last);
}

// ---- The terminal -----------------------------------------------------------------

/// Scrolling a region by `lines` shows in each of its rows what stood that many rows further down,
/// where that lies in the region, and blanks where it does not; what lies beside, above and below
/// the region stays. So a positive number moves content up.
pub proof fn law_scrolling_moves_rows(
    cells: Seq<CellView>,
    grid: CellRect,
    region: CellRect,
    lines: int,
    x: int,
    y: int,
)
    requires
        cells.len() == grid.width * grid.height,
        inside(region, grid),
        grid.covers(x, y),
    ensures
        ({
            let after = scrolled_cells(cells, grid, region, lines);
            let at = |row: int| (row - grid.y) * grid.width + (x - grid.x);
            &&& after.len() == cells.len()
            &&& !region.covers(x, y) ==> after[at(y)] == cells[at(y)]
            &&& region.covers(x, y) && region.y <= y + lines < region.y + region.height
                ==> after[at(y)] == cells[at(y + lines)]
            &&& region.covers(x, y) && !(region.y <= y + lines < region.y + region.height)
                ==> after[at(y)] == blank()
        }),
{
    lemma_cell_index(grid, x, y);
    lemma_cell_position(grid, x, y);
}

/// Of two scrolls in one frame that move a common row, the terminal is handed neither.
pub proof fn law_two_scrolls_of_a_row_are_both_left(a: ScrollOp, b: ScrollOp, screen: CellRect, row: int)
    requires
        a.region.y <= row < a.region.y + a.region.height,
        b.region.y <= row < b.region.y + b.region.height,
        scrollable(a, screen),
        scrollable(b, screen),
    ensures
        eligible(seq![a, b], screen) == seq![false, false],
{
    let ops = seq![a, b];
    let flags = Seq::new(ops.len(), |i: int| scrollable(ops[i], screen));
    assert(scrollable(ops[0], screen) && scrollable(ops[1], screen));
    let none = crate::present::all_settled(flags, ops, 0);
    let start = crate::present::row_settled(flags, ops, 0, 1);
    let first = crate::present::row_settled(flags, ops, 0, 2);
    assert(start == flags);
    assert(first =~= seq![false, false]);
    let once = crate::present::all_settled(flags, ops, 1);
    assert(once == first);
    let second = crate::present::row_settled(first, ops, 1, 2);
    assert(second == first);
    assert(crate::present::all_settled(flags, ops, 2) == second);
}

/// The terminal can do a scroll that moves whole rows straight up or down, by less than the region is
/// high; and no other.
pub proof fn law_terminal_scrolls_whole_rows(op: ScrollOp, screen: CellRect)
    ensures
        scrollable(op, screen) == (op.delta.0 == 0 && op.delta.1 != 0 && op.delta.1
            < op.region.height && -op.delta.1 < op.region.height && op.region.x == screen.x
            && op.region.width == screen.width),
        forall|a: CellRect, b: CellRect|
            a.height > 0 && b.height > 0 ==> #[trigger] share_rows(a, b) == (exists|row: int|
                #[trigger] in_rows(a, row) && in_rows(b, row)),
{
    assert forall|a: CellRect, b: CellRect| a.height > 0 && b.height > 0 implies #[trigger] share_rows(
        a,
        b,
    ) == (exists|row: int| #[trigger] in_rows(a, row) && in_rows(b, row)) by {
        if share_rows(a, b) {
            let row = if a.y > b.y { a.y as int } else { b.y as int };
            assert(in_rows(a, row) && in_rows(b, row));
        }
    }
}

/// Whether a rectangle has cells in a row.
pub open spec fn in_rows(rect: CellRect, row: int) -> bool {
    rect.y <= row < rect.y + rect.height
}

proof fn lemma_scroll_steps(ops: Seq<ScrollOp>, flags: Seq<bool>, n: nat)
    requires
        n <= ops.len(),
    ensures
        forall|k: int|
            0 <= k < scroll_steps(ops, flags, n).len() ==> is_scroll_step(
                ops,
                flags,
                n as int,
                #[trigger] scroll_steps(ops, flags, n)[k],
            ),
        forall|i: int| 0 <= i < n && flags[i] ==> scroll_steps(ops, flags, n).contains(
            Step::Scroll((#[trigger] ops[i]).region, ops[i].delta.1),
        ),
    decreases n,
{
    if n > 0 {
        let before = scroll_steps(ops, flags, (n - 1) as nat);
        let all = scroll_steps(ops, flags, n);
        lemma_scroll_steps(ops, flags, (n - 1) as nat);
        assert forall|k: int| 0 <= k < all.len() implies is_scroll_step(
            ops,
            flags,
            n as int,
            #[trigger] all[k],
        ) by {
            if k < before.len() {
                assert(all[k] == before[k]);
                let i = choose|i: int| #[trigger] is_step_of(ops, flags, i, n - 1, before[k]);
                assert(is_step_of(ops, flags, i, n as int, all[k]));
            } else {
                assert(is_step_of(ops, flags, n - 1, n as int, all[k]));
            }
        }
        assert forall|i: int| 0 <= i < n && flags[i] implies all.contains(
            Step::Scroll((#[trigger] ops[i]).region, ops[i].delta.1),
        ) by {
            let step = Step::Scroll(ops[i].region, ops[i].delta.1);
            if i < n - 1 {
                assert(before.contains(step));
                let k = choose|k: int| 0 <= k < before.len() && before[k] == step;
                assert(all[k] == step);
            } else {
                assert(all[all.len() - 1] == step);
            }
        }
    }
}

/// Whether a step is the one of scroll `i`, which is handed to the terminal.
pub open spec fn is_step_of(ops: Seq<ScrollOp>, flags: Seq<bool>, i: int, n: int, step: Step) -> bool {
    &&& 0 <= i < n
    &&& flags[i]
    &&& step == Step::Scroll(ops[i].region, ops[i].delta.1)
}

/// Whether a step is that of one of the first `n` scrolls, which is handed to the terminal.
pub open spec fn is_scroll_step(ops: Seq<ScrollOp>, flags: Seq<bool>, n: int, step: Step) -> bool {
    exists|i: int| #[trigger] is_step_of(ops, flags, i, n, step)
}

/// Presenting a frame hides the cursor first, hands every scroll that may be handed over to the
/// terminal and no other, then writes what differs, then shows the cursor where there is one, and
/// flushes last. After a resize nothing is scrolled.
pub proof fn law_frame_is_presented_in_order(
    ops: Seq<ScrollOp>,
    screen: CellRect,
    cursor: Option<(u16, u16)>,
    resized: bool,
)
    ensures
        ({
            let all = steps(ops, screen, cursor, resized);
            let n = all.len() as int;
            let tail = if cursor is Some {
                3int
            } else {
                2int
            };
            &&& n >= 1 + tail
            &&& all[0] == Step::HideCursor
            &&& all[n - 1] == Step::Flush
            &&& all[n - tail] == Step::WriteDiff
            &&& cursor matches Some((x, y)) ==> all[n - 2] == Step::ShowCursor(x, y)
            &&& forall|k: int|
                1 <= k < n - tail ==> is_scroll_step(
                    ops,
                    eligible(ops, screen),
                    ops.len() as int,
                    #[trigger] all[k],
                )
            &&& resized ==> n == 1 + tail
            &&& !resized ==> forall|i: int|
                0 <= i < ops.len() && eligible(ops, screen)[i] ==> all.contains(
                    Step::Scroll((#[trigger] ops[i]).region, ops[i].delta.1),
                )
        }),
{
    let all = steps(ops, screen, cursor, resized);
    let n = all.len() as int;
    let flags = eligible(ops, screen);
    let tail = if cursor is Some { 3int } else { 2int };
    let scrolls = if resized { seq![] } else { scroll_steps(ops, flags, ops.len()) };
    lemma_scroll_steps(ops, flags, ops.len());
    assert(n == 1 + scrolls.len() + tail);
    assert forall|k: int| 1 <= k < n - tail implies is_scroll_step(
        ops,
        flags,
        ops.len() as int,
        #[trigger] all[k],
    ) by {
        assert(all[k] == scrolls[k - 1]);
    }
    if !resized {
        assert forall|i: int| 0 <= i < ops.len() && flags[i] implies all.contains(
            Step::Scroll((#[trigger] ops[i]).region, ops[i].delta.1),
        ) by {
            let step = Step::Scroll(ops[i].region, ops[i].delta.1);
            assert(scrolls.contains(step));
            let k = choose|k: int| 0 <= k < scrolls.len() && scrolls[k] == step;
            assert(all[k + 1] == step);
        }
    }
}

/// A viewport is at its end where it can go no further: once it went as far as it goes, and not
/// while there is more to see on either axis.
pub proof fn law_end_is_where_nothing_is_left(state: ScrollState, viewport: CellRect)
    ensures
        state.moved_to(viewport, (0x7fff_ffff, 0x7fff_ffff)).metrics(viewport).rests_at_end(),
        state.extent.0 <= viewport.width && state.extent.1 <= viewport.height
            ==> state.moved_to(viewport, (0, 0)).metrics(viewport).rests_at_end(),
        state.extent.0 > viewport.width || state.extent.1 > viewport.height
            ==> !state.moved_to(viewport, (0, 0)).metrics(viewport).rests_at_end(),
        forall|m: ScrollMetrics| #[trigger] m.rests_at_end() <==> !(m.offset.0 < m.max.0)
            && !(m.offset.1 < m.max.1),
{
}

/// A position is reported once: again only after it changed, and whenever it did.
pub proof fn law_position_is_reported_once(state: ScrollState, viewport: CellRect, x: int, y: int)
    ensures
        ({
            let (after, told) = state.telling(viewport);
            let moved = after.moved_to(viewport, (x, y));
            &&& told is Some ==> told == Some(state.metrics(viewport))
            &&& after.telling(viewport) == (after, None::<ScrollMetrics>)
            &&& moved.telling(viewport).1 is Some <==> moved.offset != after.offset
            &&& state.reported is None ==> told is Some
            &&& after.offset == state.offset && after.requested == state.requested && after.drawn
                == state.drawn
        }),
{
}

} // verus!
