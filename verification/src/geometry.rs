//! Points, cells, and the mapping between them.
//!
//! Layout runs in logical points. A terminal can only address whole cells, so frames
//! snap to the cell grid when they are assigned to a node:
//!
//! - one column is one point wide;
//! - one row is eight points tall, so that a line of text measures exactly one row.
//!
//! Point coordinates are kept as integers: [`TICKS_PER_POINT`] ticks make one point.

use vstd::prelude::*;

verus! {

/// Ticks per logical point.
pub const TICKS_PER_POINT: i64 = 65536;

/// Ticks per terminal column (one point).
pub const TICKS_PER_COL: i64 = 65536;

/// Ticks per terminal row (eight points).
pub const TICKS_PER_ROW: i64 = 524288;

/// Height reported for a single line of text.
pub const LINE_HEIGHT: i64 = TICKS_PER_ROW;

/// A rectangle of terminal cells.
#[derive(Clone, Copy, Debug, PartialEq, Eq, Structural)]
pub struct CellRect {
    /// Leftmost column.
    pub x: u16,
    /// Topmost row.
    pub y: u16,
    /// Number of columns.
    pub width: u16,
    /// Number of rows.
    pub height: u16,
}

impl CellRect {
    /// Both far edges can be addressed.
    pub open spec fn wf(self) -> bool {
        &&& self.x + self.width <= u16::MAX
        &&& self.y + self.height <= u16::MAX
    }

    /// Whether the rectangle covers the cell at `(col, row)`.
    pub open spec fn covers(self, col: int, row: int) -> bool {
        &&& self.x <= col < self.x + self.width
        &&& self.y <= row < self.y + self.height
    }

    /// The rectangle at `(x, y)` whose size is cut so that its edges can be addressed.
    pub open spec fn at(x: u16, y: u16, width: u16, height: u16) -> CellRect {
        CellRect {
            x,
            y,
            width: if x + width <= u16::MAX { width } else { (u16::MAX - x) as u16 },
            height: if y + height <= u16::MAX { height } else { (u16::MAX - y) as u16 },
        }
    }

    /// The empty rectangle at the origin.
    pub open spec fn origin() -> CellRect {
        CellRect { x: 0, y: 0, width: 0, height: 0 }
    }

    /// Creates a rectangle, cutting its size at the far end of the grid.
    pub fn new(x: u16, y: u16, width: u16, height: u16) -> (r: CellRect)
        ensures
            r == CellRect::at(x, y, width, height),
            r.wf(),
    {
        let width: u16 = if width <= u16::MAX - x { width } else { u16::MAX - x };
        let height: u16 = if height <= u16::MAX - y { height } else { u16::MAX - y };
        CellRect { x, y, width, height }
    }

    /// The empty rectangle at the origin.
    pub fn zero() -> (r: CellRect)
        ensures
            r == CellRect::origin(),
    {
        CellRect { x: 0, y: 0, width: 0, height: 0 }
    }

    /// Whether the rectangle covers the cell at `(col, row)`.
    pub fn contains(&self, col: i32, row: i32) -> (r: bool)
        ensures
            r == self.covers(col as int, row as int),
    {
        self.x as i32 <= col && col < self.x as i32 + self.width as i32 && self.y as i32 <= row
            && row < self.y as i32 + self.height as i32
    }

    /// Whether the rectangle covers no cell at all.
    pub fn is_empty(&self) -> (r: bool)
        ensures
            r == (self.width == 0 || self.height == 0),
            r == (forall|col: int, row: int| !self.covers(col, row)),
    {
        let r = self.width == 0 || self.height == 0;
        proof {
            if !r {
                assert(self.covers(self.x as int, self.y as int));
            }
        }
        r
    }
}

/// A rectangle in point space, in ticks.
#[derive(Clone, Copy, Debug, PartialEq, Eq, Structural)]
pub struct PointRect {
    /// Left edge.
    pub x: i64,
    /// Top edge.
    pub y: i64,
    /// Width.
    pub width: i64,
    /// Height.
    pub height: i64,
}

/// A size in point space, in ticks.
#[derive(Clone, Copy, Debug, PartialEq, Eq, Structural)]
pub struct PointSize {
    /// Width.
    pub width: i64,
    /// Height.
    pub height: i64,
}

/// The size a parent proposes to a child; `None` leaves a dimension open.
#[derive(Clone, Copy, Debug, PartialEq, Eq, Structural)]
pub struct ProposalSize {
    /// Proposed width.
    pub width: Option<i64>,
    /// Proposed height.
    pub height: Option<i64>,
}

/// `value` where it is proposed, `natural` where the dimension is open.
pub open spec fn proposed_or(value: Option<i64>, natural: i64) -> i64 {
    match value {
        Some(v) => v,
        None => natural,
    }
}

impl ProposalSize {
    /// The proposed width, or `natural` where the width is open.
    pub fn width_or(&self, natural: i64) -> (r: i64)
        ensures
            r == proposed_or(self.width, natural),
    {
        match self.width {
            Some(v) => v,
            None => natural,
        }
    }

    /// The proposed height, or `natural` where the height is open.
    pub fn height_or(&self, natural: i64) -> (r: i64)
        ensures
            r == proposed_or(self.height, natural),
    {
        match self.height {
            Some(v) => v,
            None => natural,
        }
    }
}

/// `v` held inside the range of a tick count.
pub open spec fn saturate(v: int) -> i64 {
    if v > i64::MAX {
        i64::MAX
    } else if v < i64::MIN {
        i64::MIN
    } else {
        v as i64
    }
}

/// Adds two tick counts, holding the sum at the ends of the range.
pub fn tick_sum(a: i64, b: i64) -> (r: i64)
    ensures
        r == saturate(a + b),
{
    let sum: i128 = a as i128 + b as i128;
    if sum > i64::MAX as i128 {
        i64::MAX
    } else if sum < i64::MIN as i128 {
        i64::MIN
    } else {
        sum as i64
    }
}

/// Subtracts two tick counts, holding the difference at the ends of the range.
pub fn tick_difference(a: i64, b: i64) -> (r: i64)
    ensures
        r == saturate(a - b),
{
    let difference: i128 = a as i128 - b as i128;
    if difference > i64::MAX as i128 {
        i64::MAX
    } else if difference < i64::MIN as i128 {
        i64::MIN
    } else {
        difference as i64
    }
}

/// The larger of two tick counts.
pub open spec fn tick_larger(a: i64, b: i64) -> i64 {
    if a >= b {
        a
    } else {
        b
    }
}

/// The larger of two tick counts.
pub fn tick_max(a: i64, b: i64) -> (r: i64)
    ensures
        r == tick_larger(a, b),
{
    if a >= b {
        a
    } else {
        b
    }
}

/// A whole number of cells held inside the grid.
pub open spec fn cell_clamp(v: int) -> u16 {
    if v <= 0 {
        0
    } else if v >= u16::MAX {
        u16::MAX
    } else {
        v as u16
    }
}

/// Holds a whole number of cells inside the grid.
pub fn clamp_cell(v: i64) -> (r: u16)
    ensures
        r == cell_clamp(v as int),
{
    if v <= 0 {
        0
    } else if v >= u16::MAX as i64 {
        u16::MAX
    } else {
        v as u16
    }
}

/// `v / unit` rounded to the nearest whole number, halves away from zero.
pub open spec fn nearest(v: int, unit: int) -> int {
    if v < 0 {
        -((unit / 2 - v) / unit)
    } else {
        (v + unit / 2) / unit
    }
}

fn round_to(v: i128, unit: i64) -> (r: i128)
    requires
        unit == TICKS_PER_COL || unit == TICKS_PER_ROW,
        -0x1_0000_0000_0000_0000 <= v <= 0x1_0000_0000_0000_0000,
    ensures
        r == nearest(v as int, unit as int),
        -0x1_0000_0000_0000_0000 <= r <= 0x1_0000_0000_0000_0000,
{
    let unit: i128 = unit as i128;
    if v < 0 {
        -((unit / 2 - v) / unit)
    } else {
        (v + unit / 2) / unit
    }
}

fn clamp_wide(v: i128) -> (r: u16)
    ensures
        r == cell_clamp(v as int),
{
    if v <= 0 {
        0
    } else if v >= u16::MAX as i128 {
        u16::MAX
    } else {
        v as u16
    }
}

/// The number of columns that `width` ticks round to.
pub open spec fn spec_cols(width: i64) -> u16 {
    cell_clamp(nearest(width as int, TICKS_PER_COL as int))
}

/// The number of rows that `height` ticks round to; any positive height takes a row.
pub open spec fn spec_rows(height: i64) -> u16 {
    if height <= 0 {
        0
    } else {
        let rows = nearest(height as int, TICKS_PER_ROW as int);
        cell_clamp(if rows < 1 { 1 } else { rows })
    }
}

/// Rounds a width to whole terminal columns.
pub fn cols_for(width: i64) -> (r: u16)
    ensures
        r == spec_cols(width),
{
    clamp_wide(round_to(width as i128, TICKS_PER_COL))
}

/// Rounds a height to whole terminal rows; a positive height gives at least one row.
pub fn rows_for(height: i64) -> (r: u16)
    ensures
        r == spec_rows(height),
{
    if height <= 0 {
        0
    } else {
        let rows: i128 = round_to(height as i128, TICKS_PER_ROW);
        clamp_wide(if rows < 1 { 1 } else { rows })
    }
}

/// The number of columns between the edges at `x` and at `x + width`, each rounded to the
/// nearest cell.
pub open spec fn columns_between(x: i64, width: i64) -> u16 {
    cell_clamp(nearest(x + width, TICKS_PER_COL as int) - nearest(x as int, TICKS_PER_COL as int))
}

/// Counts the columns between the edges at `x` and at `x + width`.
pub fn cols_between(x: i64, width: i64) -> (r: u16)
    ensures
        r == columns_between(x, width),
{
    let left: i128 = round_to(x as i128, TICKS_PER_COL);
    let right: i128 = round_to(x as i128 + width as i128, TICKS_PER_COL);
    clamp_wide(right - left)
}

/// The cells that a point rectangle snaps to: column edges round to the nearest cell, the top
/// edge floors, and the height rounds.
pub open spec fn snapped(frame: PointRect) -> CellRect {
    CellRect::at(
        spec_cols(frame.x),
        cell_clamp(frame.y as int / TICKS_PER_ROW as int),
        columns_between(frame.x, frame.width),
        spec_rows(frame.height),
    )
}

/// Snaps a point rectangle to whole terminal cells.
///
/// Column edges round to the nearest cell. For rows the top edge is floored and the number of
/// rows is derived from the height alone.
pub fn to_cells(frame: PointRect) -> (r: CellRect)
    ensures
        r == snapped(frame),
        r.wf(),
{
    let y: i64 = if frame.y <= 0 { 0 } else { frame.y / TICKS_PER_ROW };
    CellRect::new(
        cols_for(frame.x),
        clamp_cell(y),
        cols_between(frame.x, frame.width),
        rows_for(frame.height),
    )
}

/// The rectangle of a screen of `cols` by `rows` cells, in points.
pub open spec fn screen_rect(cols: u16, rows: u16) -> PointRect {
    PointRect {
        x: 0,
        y: 0,
        width: (cols * TICKS_PER_COL) as i64,
        height: (rows * TICKS_PER_ROW) as i64,
    }
}

/// The point rectangle of a screen of `cols` by `rows` cells.
pub fn screen_points(cols: u16, rows: u16) -> (r: PointRect)
    ensures
        r == screen_rect(cols, rows),
        r.x == 0,
        r.y == 0,
        r.width == cols * TICKS_PER_COL,
        r.height == rows * TICKS_PER_ROW,
{
    PointRect {
        x: 0,
        y: 0,
        width: cols as i64 * TICKS_PER_COL,
        height: rows as i64 * TICKS_PER_ROW,
    }
}

/// The part of the `width` by `height` rectangle at `(x, y)` that lies inside `clip`,
/// or the empty rectangle where they do not meet.
pub open spec fn shown(x: int, y: int, width: int, height: int, clip: CellRect) -> CellRect {
    let x0 = if x > clip.x { x } else { clip.x as int };
    let y0 = if y > clip.y { y } else { clip.y as int };
    let x1 = if x + width < clip.x + clip.width { x + width } else { clip.x + clip.width };
    let y1 = if y + height < clip.y + clip.height { y + height } else { clip.y + clip.height };
    if x1 <= x0 || y1 <= y0 {
        CellRect::origin()
    } else {
        CellRect { x: x0 as u16, y: y0 as u16, width: (x1 - x0) as u16, height: (y1 - y0) as u16 }
    }
}

/// Intersects a rectangle with a signed origin with `clip`.
///
/// Scrolling pushes content origins negative; what lies left of or above `clip` is
/// simply not shown.
pub fn visible(x: i32, y: i32, width: u16, height: u16, clip: CellRect) -> (r: CellRect)
    requires
        clip.wf(),
    ensures
        r == shown(x as int, y as int, width as int, height as int, clip),
        r.wf(),
        forall|col: int, row: int|
            r.covers(col, row) <==> clip.covers(col, row) && x <= col < x + width && y <= row < y
                + height,
{
    let left: i64 = if x as i64 > clip.x as i64 { x as i64 } else { clip.x as i64 };
    let top: i64 = if y as i64 > clip.y as i64 { y as i64 } else { clip.y as i64 };
    let far: i64 = x as i64 + width as i64;
    let low: i64 = y as i64 + height as i64;
    let clip_far: i64 = clip.x as i64 + clip.width as i64;
    let clip_low: i64 = clip.y as i64 + clip.height as i64;
    let right: i64 = if far < clip_far { far } else { clip_far };
    let bottom: i64 = if low < clip_low { low } else { clip_low };
    if right <= left || bottom <= top {
        CellRect::zero()
    } else {
        CellRect {
            x: left as u16,
            y: top as u16,
            width: (right - left) as u16,
            height: (bottom - top) as u16,
        }
    }
}

/// `v` held inside the range of a signed cell coordinate.
pub open spec fn coordinate(v: int) -> i32 {
    if v > i32::MAX {
        i32::MAX
    } else if v < i32::MIN {
        i32::MIN
    } else {
        v as i32
    }
}

/// Adds two signed cell coordinates, holding the sum at the ends of the range.
pub fn coordinate_sum(a: i32, b: i32) -> (r: i32)
    ensures
        r == coordinate(a + b),
{
    let sum: i64 = a as i64 + b as i64;
    if sum > i32::MAX as i64 {
        i32::MAX
    } else if sum < i32::MIN as i64 {
        i32::MIN
    } else {
        sum as i32
    }
}

/// Subtracts two signed cell coordinates, holding the difference at the ends of the range.
pub fn coordinate_difference(a: i32, b: i32) -> (r: i32)
    ensures
        r == coordinate(a - b),
{
    let difference: i64 = a as i64 - b as i64;
    if difference > i32::MAX as i64 {
        i32::MAX
    } else if difference < i32::MIN as i64 {
        i32::MIN
    } else {
        difference as i32
    }
}

/// A rectangle of whole cells survives the trip into points and back.
pub proof fn law_whole_cells_survive(rect: CellRect, frame: PointRect)
    requires
        rect.wf(),
        frame.x == rect.x * TICKS_PER_COL,
        frame.y == rect.y * TICKS_PER_ROW,
        frame.width == rect.width * TICKS_PER_COL,
        frame.height == rect.height * TICKS_PER_ROW,
    ensures
        snapped(frame) == rect,
{
}

/// A view that is at least one line tall always keeps a row, and one line is one row.
pub proof fn law_line_is_one_row(height: i64)
    ensures
        spec_rows(LINE_HEIGHT) == 1,
        height > 0 ==> spec_rows(height) >= 1,
{
}

/// Ten points between two one-line views leave exactly one empty row, wherever the
/// first view's top lies less than six points below the top of a row.
pub proof fn law_ten_points_leave_one_row(first: PointRect, second: PointRect)
    requires
        0 <= first.y <= 65000 * TICKS_PER_ROW,
        first.y % TICKS_PER_ROW < 6 * TICKS_PER_POINT,
        first.height == LINE_HEIGHT,
        second.y == first.y + LINE_HEIGHT + 10 * TICKS_PER_POINT,
    ensures
        snapped(second).y == snapped(first).y + snapped(first).height + 1,
{
}

/// Frames that meet in points meet in cells: where one frame ends the next one begins,
/// without a gap and without an overlap.
pub proof fn law_neighbours_meet(left: PointRect, right: PointRect)
    requires
        0 <= left.x,
        0 <= left.width,
        right.x == left.x + left.width,
        right.x <= 65534 * TICKS_PER_COL,
    ensures
        snapped(left).x + snapped(left).width == snapped(right).x,
{
}

/// A frame that is a whole number of columns wide keeps its width wherever it lies.
pub proof fn law_whole_widths_survive(frame: PointRect, columns: u16)
    requires
        0 <= frame.x <= 65535 * TICKS_PER_COL,
        frame.width == columns * TICKS_PER_COL,
    ensures
        columns_between(frame.x, frame.width) == columns,
{
}

/// Snapping keeps the order of left edges and of top edges.
pub proof fn law_snapping_keeps_order(a: PointRect, b: PointRect)
    requires
        a.x <= b.x,
        a.y <= b.y,
    ensures
        snapped(a).x <= snapped(b).x,
        snapped(a).y <= snapped(b).y,
{
}

} // verus!
