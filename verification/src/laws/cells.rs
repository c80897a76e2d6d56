//! Cells: rectangles of them, and the lengths that come down to them.

use vstd::prelude::*;

use crate::geometry::{
    cell_clamp, columns_between, coordinate, nearest, saturate, screen_rect, shown, snapped,
    spec_cols, spec_rows, CellRect, PointRect,
};

verus! {

/// A rectangle covers the cells from its corner on, as many as it is wide and high, but none beyond
/// the last that can be counted.
pub proof fn law_rectangle_covers_its_cells(x: u16, y: u16, width: u16, height: u16, col: int, row: int)
    ensures
        CellRect::at(x, y, width, height).covers(col, row) <==> x <= col < x + width && y <= row
            < y + height && col < 65535 && row < 65535,
        CellRect::at(x, y, width, height).wf(),
        CellRect::at(x, y, width, height).x == x,
        CellRect::at(x, y, width, height).y == y,
        forall|c: int, r: int| !#[trigger] CellRect::origin().covers(c, r),
{
}

/// What a clip leaves of a rectangle are the cells that lie in both.
pub proof fn law_clip_leaves_what_lies_in_both(
    x: int,
    y: int,
    width: int,
    height: int,
    clip: CellRect,
    col: int,
    row: int,
)
    requires
        clip.wf(),
    ensures
        shown(x, y, width, height, clip).covers(col, row) <==> clip.covers(col, row) && x <= col < x
            + width && y <= row < y + height,
        shown(x, y, width, height, clip).wf(),
{
}

/// A length rounds to the nearest whole number of cells, a half of one away from zero, so that
/// lengths to both sides round alike.
pub proof fn law_lengths_round_to_the_nearest_cell(v: int, unit: int)
    requires
        unit == 65536 || unit == 524288,
    ensures
        ({
            let found = nearest(v, unit);
            &&& 2 * (found * unit - v) <= unit
            &&& 2 * (v - found * unit) <= unit
            &&& 2 * (v - found * unit) == unit ==> v < 0
            &&& 2 * (found * unit - v) == unit ==> v > 0
            &&& nearest(-v, unit) == -found
        }),
{
    if unit == 65536 {
        assert(nearest(v, unit) == if v < 0 {
            -((32768 - v) / 65536)
        } else {
            (v + 32768) / 65536
        });
    } else {
        assert(nearest(v, unit) == if v < 0 {
            -((262144 - v) / 524288)
        } else {
            (v + 262144) / 524288
        });
    }
}

/// Numbers that do not fit come down to the nearest that does.
pub proof fn law_numbers_stay_countable(v: int)
    ensures
        0 <= v <= 65535 ==> cell_clamp(v) == v,
        v < 0 ==> cell_clamp(v) == 0,
        v > 65535 ==> cell_clamp(v) == 65535,
        i32::MIN <= v <= i32::MAX ==> coordinate(v) == v,
        v < i32::MIN ==> coordinate(v) == i32::MIN,
        v > i32::MAX ==> coordinate(v) == i32::MAX,
        i64::MIN <= v <= i64::MAX ==> saturate(v) == v,
        v < i64::MIN ==> saturate(v) == i64::MIN,
        v > i64::MAX ==> saturate(v) == i64::MAX,
{
}

/// What has any height has a row, and what has none has no row; further rows come with more than
/// half of one.
pub proof fn law_height_gives_rows(height: i64)
    requires
        height <= 0x1000_0000_0000,
    ensures
        height <= 0 ==> spec_rows(height) == 0,
        0 < height < 524288 + 262144 ==> spec_rows(height) == 1,
        height >= 262144 && spec_rows(height) < 65535 ==> 2 * height - 524288 < 1048576 * spec_rows(
            height,
        ) <= 2 * height + 524288,
{
    law_lengths_round_to_the_nearest_cell(height as int, 524288);
    if height >= 262144 {
        let rows = nearest(height as int, 524288);
        assert(rows >= 1);
        assert(spec_rows(height) == cell_clamp(rows));
    }
}

/// A frame begins in the column nearest to its left edge and in the row that its upper edge lies
/// in, and reaches to the column nearest to its right edge.
pub proof fn law_frame_begins_and_ends_at_its_edges(frame: PointRect)
    requires
        0 <= frame.x <= 0x1_0000_0000,
        0 <= frame.y <= 0x1_0000_0000,
        0 <= frame.width <= 0x1_0000_0000,
        snapped(frame).x < 65535,
        snapped(frame).x + snapped(frame).width < 65535,
        snapped(frame).y < 65535,
    ensures
        ({
            let cells = snapped(frame);
            &&& 2 * frame.x - 65536 < 131072 * cells.x <= 2 * frame.x + 65536
            &&& 2 * (frame.x + frame.width) - 65536 < 131072 * (cells.x + cells.width) <= 2 * (
            frame.x + frame.width) + 65536
            &&& 524288 * cells.y <= frame.y < 524288 * (cells.y + 1)
            &&& cells.x == spec_cols(frame.x)
            &&& cells.width == columns_between(frame.x, frame.width)
        }),
{
    law_lengths_round_to_the_nearest_cell(frame.x as int, 65536);
    law_lengths_round_to_the_nearest_cell(frame.x + frame.width, 65536);
    let cells = snapped(frame);
    let left = nearest(frame.x as int, 65536);
    let right = nearest(frame.x + frame.width, 65536);
    assert(0 <= left <= right);
    assert(spec_cols(frame.x) == cell_clamp(left));
    assert(columns_between(frame.x, frame.width) == cell_clamp(right - left));
    assert(cells.x == left);
    assert(cells.width == right - left);
    assert(cells.y == frame.y as int / 524288);
}

/// A screen in points comes down to all of its cells.
pub proof fn law_screen_covers_its_cells(cols: u16, rows: u16)
    requires
        cols < 65535,
        rows < 65535,
    ensures
        snapped(screen_rect(cols, rows)) == (CellRect { x: 0, y: 0, width: cols, height: rows }),
{
    let rect = screen_rect(cols, rows);
    assert(rect.width == cols * 65536);
    assert(rect.height == rows * 524288);
    law_lengths_round_to_the_nearest_cell(0, 65536);
    law_lengths_round_to_the_nearest_cell(cols * 65536, 65536);
    law_lengths_round_to_the_nearest_cell(rows * 524288, 524288);
    assert(nearest(cols * 65536, 65536) == cols);
    assert(nearest(rows * 524288, 524288) == rows);
    assert(nearest(0, 65536) == 0);
}

} // verus!
