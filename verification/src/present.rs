//! Presenting a frame: which scrolls the terminal can do by itself, and what they do to
//! the cells on screen.
//!
//! The host keeps the buffer that was presented last. Every scroll that it asks of the
//! terminal is mirrored into that buffer, so that the buffer always equals the screen and
//! only the cells that the scroll could not provide are written.

use ratatui::buffer::Buffer;
use vstd::prelude::*;

use crate::buffer::{
    area_of, blank, buffer_area, buffer_cells, cell_index, copy_cell, lemma_cell_index,
    lemma_cell_position, lemma_position_in_grid, reset_cell, whole, CellView, DiffOption,
};
use crate::geometry::CellRect;
use crate::scroll::ScrollOp;

verus! {

/// One step of presenting a frame.
#[derive(Clone, Copy, Debug, PartialEq, Eq)]
pub enum Step {
    /// Hides the cursor.
    HideCursor,
    /// Scrolls the rows of a region on the terminal and in the presented buffer;
    /// content moves up where the number of lines is positive.
    Scroll(CellRect, i32),
    /// Writes the cells that differ.
    WriteDiff,
    /// Places the cursor and shows it.
    ShowCursor(u16, u16),
    /// Flushes what was written.
    Flush,
}

/// Whether two regions share a row.
pub open spec fn share_rows(a: CellRect, b: CellRect) -> bool {
    a.y < b.y + b.height && b.y < a.y + a.height
}

/// Whether the terminal can do a scroll by itself: whole rows of the screen, straight up
/// or down, and by less than the region is high.
pub open spec fn scrollable(op: ScrollOp, screen: CellRect) -> bool {
    &&& op.delta.0 == 0
    &&& op.delta.1 != 0
    &&& -op.region.height < op.delta.1 < op.region.height
    &&& op.region.x == screen.x
    &&& op.region.width == screen.width
}

/// Both scrolls of a pair are given up where they share rows.
pub open spec fn pair_settled(flags: Seq<bool>, ops: Seq<ScrollOp>, i: int, j: int) -> Seq<bool> {
    if flags[i] && flags[j] && share_rows(ops[i].region, ops[j].region) {
        flags.update(i, false).update(j, false)
    } else {
        flags
    }
}

/// The flags after scroll `i` was held against the scrolls behind it, before `j`.
pub open spec fn row_settled(flags: Seq<bool>, ops: Seq<ScrollOp>, i: int, j: int) -> Seq<bool>
    decreases j - i,
{
    if j <= i + 1 {
        flags
    } else {
        pair_settled(row_settled(flags, ops, i, j - 1), ops, i, j - 1)
    }
}

/// The flags after the first `i` scrolls were held against all behind them.
pub open spec fn all_settled(flags: Seq<bool>, ops: Seq<ScrollOp>, i: int) -> Seq<bool>
    decreases i,
{
    if i <= 0 {
        flags
    } else {
        row_settled(all_settled(flags, ops, i - 1), ops, i - 1, ops.len() as int)
    }
}

/// Which scrolls are handed to the terminal. Of two that share rows neither is, since
/// both cannot move the same rows.
pub open spec fn eligible(ops: Seq<ScrollOp>, screen: CellRect) -> Seq<bool> {
    all_settled(
        Seq::new(ops.len(), |i: int| scrollable(ops[i], screen)),
        ops,
        ops.len() as int,
    )
}

fn can_scroll(op: &ScrollOp, screen: CellRect) -> (r: bool)
    ensures
        r == scrollable(*op, screen),
{
    let dy: i64 = op.delta.1 as i64;
    let height: i64 = op.region.height as i64;
    op.delta.0 == 0 && dy != 0 && -height < dy && dy < height && op.region.x == screen.x
        && op.region.width == screen.width
}

fn rows_meet(a: CellRect, b: CellRect) -> (r: bool)
    ensures
        r == share_rows(a, b),
{
    (a.y as u32) < b.y as u32 + b.height as u32 && (b.y as u32) < a.y as u32 + a.height as u32
}

/// Decides which scrolls are handed to the terminal; the others are left to the diff.
pub fn eligible_ops(ops: &Vec<ScrollOp>, screen: CellRect) -> (r: Vec<bool>)
    ensures
        r@ == eligible(ops@, screen),
        r@.len() == ops@.len(),
{
    let n: usize = ops.len();
    let mut flags: Vec<bool> = Vec::new();
    while flags.len() < n
        invariant
            n == ops@.len(),
            flags@.len() <= n,
            forall|k: int| 0 <= k < flags@.len() ==> flags@[k] == scrollable(ops@[k], screen),
        decreases n - flags@.len(),
    {
        flags.push(can_scroll(&ops[flags.len()], screen));
    }
    let ghost start = Seq::new(ops@.len(), |i: int| scrollable(ops@[i], screen));
    assert(flags@ =~= start);
    let mut i: usize = 0;
    while i < n
        invariant
            n == ops@.len(),
            i <= n,
            flags@.len() == n,
            flags@ == all_settled(start, ops@, i as int),
        decreases n - i,
    {
        let mut j: usize = i + 1;
        let ghost before = flags@;
        while j < n
            invariant
                n == ops@.len(),
                i < n,
                i + 1 <= j <= n,
                flags@.len() == n,
                flags@ == row_settled(before, ops@, i as int, j as int),
            decreases n - j,
        {
            if flags[i] && flags[j] && rows_meet(ops[i].region, ops[j].region) {
                flags.set(i, false);
                flags.set(j, false);
            }
            j += 1;
        }
        i += 1;
    }
    flags
}

/// The steps that scroll the first `n` regions.
pub open spec fn scroll_steps(ops: Seq<ScrollOp>, flags: Seq<bool>, n: nat) -> Seq<Step>
    decreases n,
{
    if n == 0 {
        seq![]
    } else {
        let before = scroll_steps(ops, flags, (n - 1) as nat);
        if flags[n - 1] {
            before.push(Step::Scroll(ops[n - 1].region, ops[n - 1].delta.1))
        } else {
            before
        }
    }
}

/// The steps that present a frame on `screen`. After a resize nothing on screen belongs
/// to the presented buffer, so that nothing is scrolled.
pub open spec fn steps(
    ops: Seq<ScrollOp>,
    screen: CellRect,
    cursor: Option<(u16, u16)>,
    resized: bool,
) -> Seq<Step> {
    let scrolls = if resized {
        seq![]
    } else {
        scroll_steps(ops, eligible(ops, screen), ops.len())
    };
    let last = match cursor {
        Some((x, y)) => seq![Step::ShowCursor(x, y), Step::Flush],
        None => seq![Step::Flush],
    };
    seq![Step::HideCursor] + scrolls + seq![Step::WriteDiff] + last
}

/// Plans how a frame is presented. The cursor stays hidden while cells are written.
pub fn present(
    ops: &Vec<ScrollOp>,
    screen: CellRect,
    cursor: Option<(u16, u16)>,
    resized: bool,
) -> (r: Vec<Step>)
    ensures
        r@ == steps(ops@, screen, cursor, resized),
{
    let mut out: Vec<Step> = Vec::new();
    out.push(Step::HideCursor);
    if !resized {
        let flags = eligible_ops(ops, screen);
        let mut i: usize = 0;
        assert(out@ =~= seq![Step::HideCursor] + scroll_steps(ops@, flags@, 0));
        while i < ops.len()
            invariant
                i <= ops@.len(),
                flags@.len() == ops@.len(),
                out@ == seq![Step::HideCursor] + scroll_steps(ops@, flags@, i as nat),
            decreases ops@.len() - i,
        {
            if flags[i] {
                out.push(Step::Scroll(ops[i].region, ops[i].delta.1));
            }
            i += 1;
            assert(out@ =~= seq![Step::HideCursor] + scroll_steps(ops@, flags@, i as nat));
        }
    }
    out.push(Step::WriteDiff);
    if let Some((x, y)) = cursor {
        out.push(Step::ShowCursor(x, y));
    }
    out.push(Step::Flush);
    assert(out@ =~= steps(ops@, screen, cursor, resized));
    out
}

// ---- Scrolling the presented buffer -----------------------------------------------

/// The cells of a grid after the rows of a region moved up by `dy`, or down where it is
/// negative: each row shows what was `dy` rows below it, and rows whose source lies
/// outside of the region are blank.
pub open spec fn scrolled_cells(
    cells: Seq<CellView>,
    grid: CellRect,
    region: CellRect,
    dy: int,
) -> Seq<CellView> {
    Seq::new(
        cells.len(),
        |i: int|
            {
                let x = grid.x + i % grid.width as int;
                let y = grid.y + i / grid.width as int;
                if !region.covers(x, y) {
                    cells[i]
                } else if region.y <= y + dy < region.y + region.height {
                    cells[cell_index(grid, x, y + dy)]
                } else {
                    blank()
                }
            },
    )
}

/// Whether one rectangle lies inside another.
pub open spec fn inside(inner: CellRect, outer: CellRect) -> bool {
    &&& outer.x <= inner.x
    &&& outer.y <= inner.y
    &&& inner.x + inner.width <= outer.x + outer.width
    &&& inner.y + inner.height <= outer.y + outer.height
}

/// Moves the rows of a region inside a buffer as the terminal does on screen. Rows are
/// visited so that each is read before it is overwritten: from the top where content
/// moves up, from the bottom where it moves down.
pub fn scroll_buffer_region(buf: &mut Buffer, region: CellRect, dy: i32)
    requires
        whole(*old(buf)),
        inside(region, buffer_area(*old(buf))),
    ensures
        whole(*final(buf)),
        buffer_area(*final(buf)) == buffer_area(*old(buf)),
        buffer_cells(*final(buf)) == scrolled_cells(
            buffer_cells(*old(buf)),
            buffer_area(*old(buf)),
            region,
            dy as int,
        ),
{
    let grid = area_of(buf);
    let ghost before = buffer_cells(*buf);
    let ghost after = scrolled_cells(before, grid, region, dy as int);
    let ghost top = region.y as int;
    let ghost bottom = region.y + region.height;
    let mut i: u16 = 0;
    while i < region.height
        invariant
            whole(*buf),
            i <= region.height,
            inside(region, grid),
            grid.wf(),
            buffer_area(*buf) == grid,
            before.len() == buffer_cells(*buf).len(),
            top == region.y,
            bottom == region.y + region.height,
            after == scrolled_cells(before, grid, region, dy as int),
            forall|k: int|
                0 <= k < before.len() ==> #[trigger] buffer_cells(*buf)[k] == if row_done(
                    grid.y + k / grid.width as int,
                    region,
                    dy as int,
                    i as int,
                ) {
                    after[k]
                } else {
                    before[k]
                },
        decreases region.height - i,
    {
        let y: u16 = if dy > 0 {
            region.y + i
        } else {
            region.y + (region.height - 1 - i)
        };
        let source: i64 = y as i64 + dy as i64;
        let from_region = source >= region.y as i64 && source < region.y as i64 + region.height as i64;
        move_row(buf, grid, region, y, if from_region { Some(source as u16) } else { None });
        proof {
            let now = buffer_cells(*buf);
            assert forall|k: int| 0 <= k < before.len() implies #[trigger] now[k] == if row_done(
                grid.y + k / grid.width as int,
                region,
                dy as int,
                i + 1,
            ) {
                after[k]
            } else {
                before[k]
            } by {
                lemma_position_in_grid(grid, k);
                let row = grid.y + k / grid.width as int;
                let col = grid.x + k % grid.width as int;
                if row == y && region.covers(col, row) && from_region {
                    lemma_cell_index(grid, col, source as int);
                    lemma_cell_position(grid, col, source as int);
                    assert(!row_done(source as int, region, dy as int, i as int) || dy == 0);
                }
            }
        }
        i += 1;
    }
    assert forall|k: int| 0 <= k < before.len() implies #[trigger] buffer_cells(*buf)[k] == after[k] by {
        lemma_position_in_grid(grid, k);
    }
    assert(buffer_cells(*buf) =~= after);
}

/// Whether a row was visited among the first `i` rows of a region.
spec fn row_done(row: int, region: CellRect, dy: int, i: int) -> bool {
    if dy > 0 {
        region.y <= row < region.y + i
    } else {
        region.y + region.height - i <= row < region.y + region.height
    }
}

/// Copies one row of a region over another, or empties it.
fn move_row(buf: &mut Buffer, grid: CellRect, region: CellRect, y: u16, source: Option<u16>)
    requires
        whole(*old(buf)),
        grid == buffer_area(*old(buf)),
        inside(region, grid),
        region.y <= y < region.y + region.height,
        source matches Some(s) ==> region.y <= s < region.y + region.height,
    ensures
        whole(*final(buf)),
        buffer_area(*final(buf)) == grid,
        forall|k: int|
            0 <= k < buffer_cells(*old(buf)).len() ==> #[trigger] buffer_cells(*final(buf))[k] == (if grid.y
                + k / grid.width as int == y && region.covers(
                grid.x + k % grid.width as int,
                y as int,
            ) {
                match source {
                    Some(s) => buffer_cells(*old(buf))[cell_index(
                        grid,
                        grid.x + k % grid.width as int,
                        s as int,
                    )],
                    None => blank(),
                }
            } else {
                buffer_cells(*old(buf))[k]
            }),
{
    let ghost before = buffer_cells(*buf);
    let mut i: u16 = 0;
    while i < region.width
        invariant
            whole(*buf),
            i <= region.width,
            grid.wf(),
            buffer_area(*buf) == grid,
            inside(region, grid),
            region.y <= y < region.y + region.height,
            source matches Some(s) ==> region.y <= s < region.y + region.height,
            before.len() == buffer_cells(*buf).len(),
            before.len() == grid.width * grid.height,
            forall|k: int|
                0 <= k < before.len() ==> #[trigger] buffer_cells(*buf)[k] == (if grid.y + k
                    / grid.width as int == y && region.x <= (grid.x + k % grid.width as int) && (grid.x + k % grid.width as int) < region.x + i {
                    match source {
                        Some(s) => before[cell_index(grid, grid.x + k % grid.width as int, s as int)],
                        None => blank(),
                    }
                } else {
                    before[k]
                }),
        decreases region.width - i,
    {
        let col: u16 = region.x + i;
        let ghost was = buffer_cells(*buf);
        let ghost at = cell_index(grid, col as int, y as int);
        proof {
            lemma_cell_index(grid, col as int, y as int);
            lemma_cell_position(grid, col as int, y as int);
        }
        let to: usize = index_of(grid, col, y);
        match source {
            Some(s) => {
                proof {
                    lemma_cell_index(grid, col as int, s as int);
                    lemma_cell_position(grid, col as int, s as int);
                }
                let from: usize = index_of(grid, col, s);
                copy_cell(buf, to, from);
                assert(was[from as int] == before[from as int]);
            },
            None => {
                reset_cell(buf, to);
            },
        }
        proof {
            let now = buffer_cells(*buf);
            assert forall|k: int| 0 <= k < before.len() implies #[trigger] now[k] == (if grid.y + k
                / grid.width as int == y && region.x <= (grid.x + k % grid.width as int) && (grid.x + k % grid.width as int) < region.x + i + 1 {
                match source {
                    Some(s) => before[cell_index(grid, grid.x + k % grid.width as int, s as int)],
                    None => blank(),
                }
            } else {
                before[k]
            }) by {
                lemma_position_in_grid(grid, k);
                if k != at {
                    assert(now[k] == was[k]);
                }
            }
        }
        i += 1;
    }
}

fn index_of(grid: CellRect, x: u16, y: u16) -> (r: usize)
    requires
        grid.covers(x as int, y as int),
    ensures
        r == cell_index(grid, x as int, y as int),
{
    let row: u32 = (y - grid.y) as u32;
    let width: u32 = grid.width as u32;
    let col: u32 = (x - grid.x) as u32;
    proof {
        assert(row * width <= 65534 * 65535) by (nonlinear_arith)
            requires
                0 <= row <= 65534,
                0 <= width <= 65535,
        ;
        assert(row * width >= 0) by (nonlinear_arith)
            requires
                row >= 0,
                width >= 0,
        ;
    }
    (row * width + col) as usize
}

// ---- Laws -------------------------------------------------------------------------

proof fn lemma_row_settled(flags: Seq<bool>, ops: Seq<ScrollOp>, i: int, j: int, k: int)
    requires
        flags.len() == ops.len(),
        0 <= i < ops.len(),
        j <= ops.len(),
        0 <= k < ops.len(),
    ensures
        row_settled(flags, ops, i, j).len() == flags.len(),
        row_settled(flags, ops, i, j)[k] ==> flags[k],
    decreases j - i,
{
    if j > i + 1 {
        lemma_row_settled(flags, ops, i, j - 1, k);
    }
}

proof fn lemma_row_apart(flags: Seq<bool>, ops: Seq<ScrollOp>, i: int, j: int, to: int)
    requires
        flags.len() == ops.len(),
        0 <= i < j < to <= ops.len(),
    ensures
        ({
            let after = row_settled(flags, ops, i, to);
            after[i] && after[j] ==> !share_rows(ops[i].region, ops[j].region)
        }),
    decreases to,
{
    lemma_row_settled(flags, ops, i, to - 1, i);
    lemma_row_settled(flags, ops, i, to - 1, j);
    if j < to - 1 {
        lemma_row_apart(flags, ops, i, j, to - 1);
    }
}

proof fn lemma_all_settled(flags: Seq<bool>, ops: Seq<ScrollOp>, i: int, k: int)
    requires
        flags.len() == ops.len(),
        0 <= i <= ops.len(),
        0 <= k < ops.len(),
    ensures
        all_settled(flags, ops, i).len() == flags.len(),
        all_settled(flags, ops, i)[k] ==> flags[k],
    decreases i,
{
    if i > 0 {
        lemma_all_settled(flags, ops, i - 1, k);
        lemma_row_settled(all_settled(flags, ops, i - 1), ops, i - 1, ops.len() as int, k);
    }
}

proof fn lemma_all_apart(flags: Seq<bool>, ops: Seq<ScrollOp>, i: int, j: int, to: int)
    requires
        flags.len() == ops.len(),
        0 <= i < j < ops.len(),
        i < to <= ops.len(),
    ensures
        ({
            let after = all_settled(flags, ops, to);
            after[i] && after[j] ==> !share_rows(ops[i].region, ops[j].region)
        }),
    decreases to,
{
    let before = all_settled(flags, ops, to - 1);
    lemma_all_settled(flags, ops, to - 1, i);
    if i == to - 1 {
        lemma_row_apart(before, ops, i, j, ops.len() as int);
    } else {
        lemma_all_apart(flags, ops, i, j, to - 1);
        lemma_row_settled(before, ops, to - 1, ops.len() as int, i);
        lemma_row_settled(before, ops, to - 1, ops.len() as int, j);
    }
}

proof fn lemma_pair_keeps(flags: Seq<bool>, ops: Seq<ScrollOp>, i: int, j: int, k: int)
    requires
        flags.len() == ops.len(),
        0 <= i < j < ops.len(),
        0 <= k < ops.len(),
        flags[k],
        forall|other: int|
            0 <= other < ops.len() && other != k && #[trigger] flags[other] ==> !share_rows(
                ops[k].region,
                ops[other].region,
            ),
    ensures
        pair_settled(flags, ops, i, j)[k],
{
    if k == j && flags[i] {
        assert(!share_rows(ops[k].region, ops[i].region));
    }
    if k == i && flags[j] {
        assert(!share_rows(ops[k].region, ops[j].region));
    }
}

proof fn lemma_row_keeps(flags: Seq<bool>, ops: Seq<ScrollOp>, i: int, j: int, k: int)
    requires
        flags.len() == ops.len(),
        0 <= i < ops.len(),
        j <= ops.len(),
        0 <= k < ops.len(),
        flags[k],
        forall|other: int|
            0 <= other < ops.len() && other != k && #[trigger] flags[other] ==> !share_rows(
                ops[k].region,
                ops[other].region,
            ),
    ensures
        row_settled(flags, ops, i, j)[k],
    decreases j - i,
{
    if j > i + 1 {
        let before = row_settled(flags, ops, i, j - 1);
        lemma_row_settled(flags, ops, i, j - 1, k);
        lemma_row_keeps(flags, ops, i, j - 1, k);
        assert forall|other: int|
            0 <= other < ops.len() && other != k && #[trigger] before[other] implies !share_rows(
            ops[k].region,
            ops[other].region,
        ) by {
            lemma_row_settled(flags, ops, i, j - 1, other);
            assert(flags[other]);
        }
        lemma_pair_keeps(before, ops, i, j - 1, k);
    }
}

proof fn lemma_all_keep(flags: Seq<bool>, ops: Seq<ScrollOp>, i: int, k: int)
    requires
        flags.len() == ops.len(),
        0 <= i <= ops.len(),
        0 <= k < ops.len(),
        flags[k],
        forall|other: int|
            0 <= other < ops.len() && other != k && #[trigger] flags[other] ==> !share_rows(
                ops[k].region,
                ops[other].region,
            ),
    ensures
        all_settled(flags, ops, i)[k],
    decreases i,
{
    if i > 0 {
        let before = all_settled(flags, ops, i - 1);
        lemma_all_settled(flags, ops, i - 1, k);
        lemma_all_keep(flags, ops, i - 1, k);
        assert forall|other: int|
            0 <= other < ops.len() && other != k && #[trigger] before[other] implies !share_rows(
            ops[k].region,
            ops[other].region,
        ) by {
            lemma_all_settled(flags, ops, i - 1, other);
            assert(flags[other]);
        }
        lemma_row_keeps(before, ops, i - 1, ops.len() as int, k);
    }
}

/// A scroll that the terminal can do is handed to it where it shares no row with another one
/// that the terminal can do.
pub proof fn law_lone_scrolls_are_handed_over(ops: Seq<ScrollOp>, screen: CellRect, k: int)
    requires
        0 <= k < ops.len(),
        scrollable(ops[k], screen),
        forall|other: int|
            0 <= other < ops.len() && other != k && scrollable(#[trigger] ops[other], screen)
                ==> !share_rows(ops[k].region, ops[other].region),
    ensures
        eligible(ops, screen)[k],
{
    let flags = Seq::new(ops.len(), |i: int| scrollable(ops[i], screen));
    assert forall|other: int|
        0 <= other < ops.len() && other != k && #[trigger] flags[other] implies !share_rows(
        ops[k].region,
        ops[other].region,
    ) by {
        assert(scrollable(ops[other], screen));
    }
    lemma_all_keep(flags, ops, ops.len() as int, k);
}

/// Scrolls that are handed to the terminal move whole rows of the screen, and no two of
/// them move the same row.
pub proof fn law_terminal_scrolls_stay_apart(ops: Seq<ScrollOp>, screen: CellRect, i: int, j: int)
    requires
        0 <= i < j < ops.len(),
        eligible(ops, screen)[i],
        eligible(ops, screen)[j],
    ensures
        scrollable(ops[i], screen),
        scrollable(ops[j], screen),
        !share_rows(ops[i].region, ops[j].region),
{
    let flags = Seq::new(ops.len(), |i: int| scrollable(ops[i], screen));
    lemma_all_settled(flags, ops, ops.len() as int, i);
    lemma_all_settled(flags, ops, ops.len() as int, j);
    lemma_all_apart(flags, ops, i, j, ops.len() as int);
}

/// The cells on screen, and the buffer that the host keeps of them.
#[verifier::ext_equal]
pub struct Presented {
    pub screen: Seq<CellView>,
    pub kept: Seq<CellView>,
}

/// The cells on screen after the cells in which the kept buffer and a frame differ were
/// written, but for those that a diff leaves out.
pub open spec fn written(at: Presented, frame: Seq<CellView>) -> Seq<CellView> {
    Seq::new(
        at.screen.len(),
        |i: int|
            if at.kept[i] != frame[i] && frame[i].diff != DiffOption::Skip {
                frame[i]
            } else {
                at.screen[i]
            },
    )
}

/// What one step of presenting a frame does to the cells. Scrolling moves the screen and the
/// kept buffer alike; the cursor and flushing touch neither.
pub open spec fn after_step(at: Presented, step: Step, frame: Seq<CellView>, grid: CellRect) -> Presented {
    match step {
        Step::Scroll(region, lines) => Presented {
            screen: scrolled_cells(at.screen, grid, region, lines as int),
            kept: scrolled_cells(at.kept, grid, region, lines as int),
        },
        Step::WriteDiff => Presented { screen: written(at, frame), kept: at.kept },
        _ => at,
    }
}

/// What a list of steps does to the cells.
pub open spec fn after_steps(
    at: Presented,
    steps: Seq<Step>,
    frame: Seq<CellView>,
    grid: CellRect,
) -> Presented
    decreases steps.len(),
{
    if steps.len() == 0 {
        at
    } else {
        after_step(after_steps(at, steps.drop_last(), frame, grid), steps.last(), frame, grid)
    }
}

proof fn lemma_scrolls_keep_in_step(
    at: Presented,
    ops: Seq<ScrollOp>,
    flags: Seq<bool>,
    n: nat,
    frame: Seq<CellView>,
    grid: CellRect,
)
    requires
        at.screen == at.kept,
    ensures
        ({
            let after = after_steps(
                at,
                seq![Step::HideCursor] + scroll_steps(ops, flags, n),
                frame,
                grid,
            );
            &&& after.screen == after.kept
            &&& after.screen.len() == at.screen.len()
        }),
    decreases n,
{
    let hidden = seq![Step::HideCursor];
    let all = hidden + scroll_steps(ops, flags, n);
    if n == 0 {
        assert(all =~= hidden);
        assert(hidden.drop_last() =~= Seq::<Step>::empty());
        reveal_with_fuel(after_steps, 2);
    } else {
        lemma_scrolls_keep_in_step(at, ops, flags, (n - 1) as nat, frame, grid);
        if flags[n - 1] {
            assert(all.drop_last() =~= hidden + scroll_steps(ops, flags, (n - 1) as nat));
        }
    }
}

/// Presenting a frame shows it: a screen that equals the kept buffer shows the frame after
/// the steps, whatever scrolled and whether the terminal was resized, where the diff leaves
/// no cell out.
pub proof fn law_presenting_shows_the_frame(
    cells: Seq<CellView>,
    frame: Seq<CellView>,
    grid: CellRect,
    ops: Seq<ScrollOp>,
    cursor: Option<(u16, u16)>,
    resized: bool,
)
    requires
        frame.len() == cells.len(),
        forall|i: int| 0 <= i < frame.len() ==> (#[trigger] frame[i]).diff != DiffOption::Skip,
    ensures
        after_steps(
            Presented { screen: cells, kept: cells },
            steps(ops, grid, cursor, resized),
            frame,
            grid,
        ).screen == frame,
{
    let at = Presented { screen: cells, kept: cells };
    let n = if resized { 0 } else { ops.len() };
    let flags = eligible(ops, grid);
    lemma_scrolls_keep_in_step(at, ops, flags, n, frame, grid);
    let first = seq![Step::HideCursor] + scroll_steps(ops, flags, n);
    let diffed = first + seq![Step::WriteDiff];
    assert(diffed.drop_last() =~= first);
    let drawn = after_steps(at, diffed, frame, grid);
    assert(drawn.screen =~= frame);
    let all = steps(ops, grid, cursor, resized);
    if let Some((x, y)) = cursor {
        let placed = diffed + seq![Step::ShowCursor(x, y)];
        assert(placed.drop_last() =~= diffed);
        assert(after_steps(at, placed, frame, grid) == drawn);
        assert(all =~= placed + seq![Step::Flush]);
        assert(all.drop_last() =~= placed);
    } else {
        assert(all =~= diffed + seq![Step::Flush]);
        assert(all.drop_last() =~= diffed);
    }
}

/// Scrolling back brings every row back that did not leave the region, and cells outside
/// of the region never move.
pub proof fn law_scrolling_back_restores(
    cells: Seq<CellView>,
    grid: CellRect,
    region: CellRect,
    dy: int,
    x: int,
    y: int,
)
    requires
        cells.len() == grid.width * grid.height,
        inside(region, grid),
        grid.covers(x, y),
        region.covers(x, y) ==> region.y <= y - dy < region.y + region.height,
    ensures
        scrolled_cells(scrolled_cells(cells, grid, region, dy), grid, region, -dy)[cell_index(
            grid,
            x,
            y,
        )] == cells[cell_index(grid, x, y)],
{
    lemma_cell_index(grid, x, y);
    lemma_cell_position(grid, x, y);
    if region.covers(x, y) {
        lemma_cell_index(grid, x, y - dy);
        lemma_cell_position(grid, x, y - dy);
    }
}

} // verus!
