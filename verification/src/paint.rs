//! The display list: what a frame draws, as plain values.
//!
//! Each control turns into a few [`Paint`] entries. [`paint_all`] applies a list to a
//! buffer; gradient and GPU entries are left to the host, which samples them itself.

use ratatui::buffer::Buffer;
use vstd::prelude::*;

use crate::buffer::{area_of, buffer_area, buffer_cells, cell_index, filled, set_stringn, set_style, stringn, whole, CellView};
use crate::geometry::{cell_clamp, clamp_cell, CellRect};
use crate::style::CellStyle;
use crate::text::{behind, cut_text, runs_view, Run, RunView};

verus! {

/// One entry of a display list.
pub enum Paint {
    /// Applies a style to a rectangle.
    Fill { area: CellRect, style: CellStyle },
    /// Prints at most `max` columns of a text.
    Text { x: u16, y: u16, text: String, max: usize, style: CellStyle },
    /// Prints runs one behind the other, up to the column `right`.
    Line { x: u16, y: u16, right: u16, runs: Vec<Run> },
    /// Prints at most `label_width` columns of a label, a colon behind it where `colon` says
    /// so, both before the column `edge`, and behind them an editable text up to the column
    /// `right`; `cursor` is the cursor's column counted from where the text starts, while it
    /// is shown.
    Field {
        x: u16,
        y: u16,
        edge: u16,
        right: u16,
        label: String,
        label_width: usize,
        colon: bool,
        muted: CellStyle,
        text: String,
        style: CellStyle,
        cursor: Option<i32>,
    },
    /// A gradient of the host, filling `size` cells from the signed `origin`, of which
    /// `area` is visible.
    Gradient { key: u32, origin: (i32, i32), size: (u16, u16), area: CellRect },
    /// A GPU surface of the host.
    Surface { key: u32, origin: (i32, i32), size: (u16, u16), area: CellRect },
}

/// One entry of a display list as a value.
pub enum PaintView {
    Fill { area: CellRect, style: CellStyle },
    Text { x: u16, y: u16, text: Seq<char>, max: usize, style: CellStyle },
    Line { x: u16, y: u16, right: u16, runs: Seq<RunView> },
    Field {
        x: u16,
        y: u16,
        edge: u16,
        right: u16,
        label: Seq<char>,
        label_width: usize,
        colon: bool,
        muted: CellStyle,
        text: Seq<char>,
        style: CellStyle,
        cursor: Option<i32>,
    },
    Gradient { key: u32, origin: (i32, i32), size: (u16, u16), area: CellRect },
    Surface { key: u32, origin: (i32, i32), size: (u16, u16), area: CellRect },
}

impl View for Paint {
    type V = PaintView;

    open spec fn view(&self) -> PaintView {
        match *self {
            Paint::Fill { area, style } => PaintView::Fill { area, style },
            Paint::Text { x, y, text, max, style } => PaintView::Text { x, y, text: text@, max, style },
            Paint::Line { x, y, right, runs } => PaintView::Line { x, y, right, runs: runs_view(runs@) },
            Paint::Field {
                x,
                y,
                edge,
                right,
                label,
                label_width,
                colon,
                muted,
                text,
                style,
                cursor,
            } => PaintView::Field {
                x,
                y,
                edge,
                right,
                label: label@,
                label_width,
                colon,
                muted,
                text: text@,
                style,
                cursor,
            },
            Paint::Gradient { key, origin, size, area } => PaintView::Gradient { key, origin, size, area },
            Paint::Surface { key, origin, size, area } => PaintView::Surface { key, origin, size, area },
        }
    }
}

/// The values of a display list.
pub open spec fn paints_view(paints: Seq<Paint>) -> Seq<PaintView> {
    paints.map_values(|p: Paint| p@)
}

pub(crate) fn emit(out: &mut Vec<Paint>, paint: Paint)
    ensures
        paints_view(final(out)@) == paints_view(old(out)@).push(paint@),
{
    out.push(paint);
    assert(paints_view(out@) =~= paints_view(old(out)@).push(paint@));
}

/// A text of one glyph or a few.
pub open spec fn glyphs(x: u16, y: u16, text: Seq<char>, max: usize, style: CellStyle) -> PaintView {
    PaintView::Text { x, y, text, max, style }
}

pub(crate) fn emit_text(out: &mut Vec<Paint>, x: u16, y: u16, text: &str, max: usize, style: CellStyle)
    ensures
        paints_view(final(out)@) == paints_view(old(out)@).push(glyphs(x, y, text@, max, style)),
{
    emit(out, Paint::Text { x, y, text: text.to_owned(), max, style });
}

/// A text of at most `max` columns at the signed position `(x, y)`, cut at the edges of
/// `clip`: what lies left of it is skipped, what lies right of it is not printed, and in a row
/// outside of it nothing is.
pub open spec fn cut_glyphs(
    x: int,
    y: int,
    text: Seq<char>,
    max: int,
    style: CellStyle,
    clip: CellRect,
) -> Seq<PaintView> {
    let edge = clip.x + clip.width;
    let far = if x + max < edge { x + max } else { edge };
    if !(clip.y <= y < clip.y + clip.height) || far <= x || far <= clip.x {
        seq![]
    } else if clip.x <= x {
        seq![glyphs(x as u16, y as u16, text, (far - x) as usize, style)]
    } else {
        let (rest, gap) = behind(text, clip.x - x);
        if clip.x + gap < far {
            seq![
                glyphs(
                    (clip.x + gap) as u16,
                    y as u16,
                    rest,
                    (far - clip.x - gap) as usize,
                    style,
                ),
            ]
        } else {
            seq![]
        }
    }
}

pub(crate) fn emit_cut(
    out: &mut Vec<Paint>,
    x: i64,
    y: i64,
    text: &str,
    max: u64,
    style: CellStyle,
    clip: CellRect,
)
    requires
        clip.wf(),
        -0x4_0000_0000 <= x <= 0x4_0000_0000,
        max <= 0x4_0000_0000,
    ensures
        paints_view(final(out)@) == paints_view(old(out)@) + cut_glyphs(
            x as int,
            y as int,
            text@,
            max as int,
            style,
            clip,
        ),
{
    let left: i64 = clip.x as i64;
    let edge: i64 = left + clip.width as i64;
    let far: i64 = if x + (max as i64) < edge { x + max as i64 } else { edge };
    let top: i64 = clip.y as i64;
    if !(top <= y && y < top + clip.height as i64) || far <= x || far <= left {
    } else if left <= x {
        emit_text(out, x as u16, y as u16, text, (far - x) as usize, style);
    } else {
        let (rest, gap) = cut_text(text, (left - x) as u64);
        if (gap as u64) < (far - left) as u64 {
            let start: i64 = left + gap as i64;
            emit_text(out, start as u16, y as u16, rest.as_str(), (far - start) as usize, style);
        }
    }
    assert(paints_view(out@) =~= paints_view(old(out)@) + cut_glyphs(
        x as int,
        y as int,
        text@,
        max as int,
        style,
        clip,
    ));
}

// ---- Where entries draw -----------------------------------------------------------

/// The column of cell `i` of an area.
pub open spec fn col_of(area: CellRect, i: int) -> int {
    area.x + i % (area.width as int)
}

/// The row of cell `i` of an area.
pub open spec fn row_of(area: CellRect, i: int) -> int {
    area.y + i / (area.width as int)
}

impl PaintView {
    /// The column behind the last one that the entry may draw in.
    pub open spec fn far_column(self) -> int {
        match self {
            PaintView::Fill { area, .. } => area.x + area.width,
            PaintView::Text { x, max, .. } => x + max,
            PaintView::Line { right, .. } => right as int,
            PaintView::Field { edge, right, label_width, .. } => if label_width > 0 && edge > right {
                edge as int
            } else {
                right as int
            },
            PaintView::Gradient { area, .. } => area.x + area.width,
            PaintView::Surface { area, .. } => area.x + area.width,
        }
    }

    /// Whether the entry may draw in the cell at `(col, row)`.
    pub open spec fn reaches(self, col: int, row: int) -> bool {
        match self {
            PaintView::Fill { area, .. } => area.covers(col, row),
            PaintView::Text { x, y, .. } => x <= col < self.far_column() && row == y,
            PaintView::Line { x, y, .. } => x <= col < self.far_column() && row == y,
            PaintView::Field { x, y, .. } => x <= col < self.far_column() && row == y,
            PaintView::Gradient { area, .. } => area.covers(col, row),
            PaintView::Surface { area, .. } => area.covers(col, row),
        }
    }

    /// Whether the entry leaves cell `i` of an area alone.
    pub open spec fn misses(self, area: CellRect, i: int) -> bool {
        !self.reaches(col_of(area, i), row_of(area, i))
    }
}

/// Whether all entries of a list leave cell `i` of an area alone.
pub open spec fn all_miss(paints: Seq<PaintView>, area: CellRect, i: int) -> bool {
    forall|k: int| 0 <= k < paints.len() ==> (#[trigger] paints[k]).misses(area, i)
}

/// Whether two grids of cells agree on cell `i`.
pub open spec fn agree(a: Seq<CellView>, b: Seq<CellView>, i: int) -> bool {
    a[i] == b[i]
}

/// Whether two grids of cells agree on all cells of row `y` that lie before column `from`
/// or from column `to` on, and on all other rows.
pub open spec fn agree_around(
    a: Seq<CellView>,
    b: Seq<CellView>,
    area: CellRect,
    y: u16,
    from: int,
    to: int,
) -> bool {
    &&& a.len() == b.len()
    &&& forall|i: int|
        0 <= i < a.len() && !(from <= col_of(area, i) < to && row_of(area, i) == y)
            ==> #[trigger] agree(a, b, i)
}

proof fn lemma_in_row(area: CellRect, x: u16, end: u16, y: u16, i: int)
    requires
        area.x <= x,
        area.y <= y,
        end == x || end <= area.x + area.width,
        cell_index(area, x as int, y as int) <= i < cell_index(area, end as int, y as int),
    ensures
        x <= col_of(area, i) < end,
        row_of(area, i) == y,
{
    let c = i - (y - area.y) * area.width;
    vstd::arithmetic::div_mod::lemma_fundamental_div_mod_converse(
        i,
        area.width as int,
        y - area.y,
        c,
    );
}

// ---- Applying a display list ------------------------------------------------------

/// Printing that is skipped where the row or the column lies outside the area.
pub open spec fn print(
    cells: Seq<CellView>,
    area: CellRect,
    x: u16,
    y: u16,
    text: Seq<char>,
    max: usize,
    style: CellStyle,
) -> (Seq<CellView>, u16) {
    if area.x <= x && area.y <= y < area.y + area.height {
        stringn(cells, area, x, y, text, max, style)
    } else {
        (cells, x)
    }
}

/// `right - x`, or zero where `x` lies behind `right`.
pub open spec fn columns_left(right: u16, x: u16) -> usize {
    if x < right {
        (right - x) as usize
    } else {
        0
    }
}

/// Printing runs one behind the other until no column is left.
pub open spec fn print_runs(
    cells: Seq<CellView>,
    area: CellRect,
    x: u16,
    y: u16,
    right: u16,
    runs: Seq<RunView>,
) -> Seq<CellView>
    decreases runs.len(),
{
    if runs.len() == 0 || columns_left(right, x) == 0 {
        cells
    } else {
        let (next, end) = print(cells, area, x, y, runs[0].text, columns_left(right, x), runs[0].style);
        print_runs(next, area, end, y, right, runs.drop_first())
    }
}

/// The smaller of two numbers of columns.
pub open spec fn fewer(a: usize, b: usize) -> usize {
    if a < b {
        a
    } else {
        b
    }
}

/// The cells after the label of a field was printed, and the column behind it.
pub open spec fn print_label(
    cells: Seq<CellView>,
    area: CellRect,
    x: u16,
    y: u16,
    edge: u16,
    label: Seq<char>,
    label_width: usize,
    colon: bool,
    muted: CellStyle,
) -> (Seq<CellView>, u16) {
    if label_width > 0 {
        let (next, end) = print(cells, area, x, y, label, fewer(label_width, columns_left(edge, x)), muted);
        if colon {
            print(next, area, end, y, ": "@, fewer(2, columns_left(edge, end)), muted)
        } else {
            (next, end)
        }
    } else {
        (cells, x)
    }
}

/// The cursor `offset` columns behind the column `x`.
pub open spec fn cursor_at(x: u16, y: u16, offset: i32) -> (u16, u16) {
    (cell_clamp(x + offset), y)
}

/// What one entry makes of the cells and of the cursor.
pub open spec fn applied(
    paint: PaintView,
    cells: Seq<CellView>,
    area: CellRect,
    cursor: Option<(u16, u16)>,
) -> (Seq<CellView>, Option<(u16, u16)>) {
    match paint {
        PaintView::Fill { area: rect, style } => (
            filled(cells, area, CellRect::at(rect.x, rect.y, rect.width, rect.height), style),
            cursor,
        ),
        PaintView::Text { x, y, text, max, style } => (
            print(cells, area, x, y, text, max, style).0,
            cursor,
        ),
        PaintView::Line { x, y, right, runs } => (print_runs(cells, area, x, y, right, runs), cursor),
        PaintView::Field {
            x,
            y,
            edge,
            right,
            label,
            label_width,
            colon,
            muted,
            text,
            style,
            cursor: at,
        } => {
            let (next, end) = print_label(
                cells,
                area,
                x,
                y,
                edge,
                label,
                label_width,
                colon,
                muted,
            );
            (
                print(next, area, end, y, text, columns_left(right, end), style).0,
                match at {
                    Some(offset) => Some(cursor_at(end, y, offset)),
                    None => cursor,
                },
            )
        },
        PaintView::Gradient { .. } => (cells, cursor),
        PaintView::Surface { .. } => (cells, cursor),
    }
}

/// What a whole list makes of the cells and of the cursor.
pub open spec fn applied_all(
    paints: Seq<PaintView>,
    cells: Seq<CellView>,
    area: CellRect,
    cursor: Option<(u16, u16)>,
) -> (Seq<CellView>, Option<(u16, u16)>)
    decreases paints.len(),
{
    if paints.len() == 0 {
        (cells, cursor)
    } else {
        let (next, at) = applied_all(paints.drop_last(), cells, area, cursor);
        applied(paints.last(), next, area, at)
    }
}

fn print_at(buf: &mut Buffer, x: u16, y: u16, text: &str, max: usize, style: CellStyle) -> (r: u16)
    requires
        whole(*old(buf)),
    ensures
        whole(*final(buf)),
        buffer_area(*final(buf)) == buffer_area(*old(buf)),
        (buffer_cells(*final(buf)), r) == print(
            buffer_cells(*old(buf)),
            buffer_area(*old(buf)),
            x,
            y,
            text@,
            max,
            style,
        ),
        x <= r <= x + max,
        agree_around(
            buffer_cells(*final(buf)),
            buffer_cells(*old(buf)),
            buffer_area(*old(buf)),
            y,
            x as int,
            x + max,
        ),
{
    let area = area_of(buf);
    let ghost before = buffer_cells(*buf);
    if area.x <= x && area.y <= y && y < area.y + area.height {
        let r = set_stringn(buf, x, y, text, max, style);
        let ghost after = buffer_cells(*buf);
        assert forall|i: int|
            0 <= i < after.len() && !(x <= col_of(area, i) < x + max && row_of(area, i) == y)
            implies #[trigger] agree(after, before, i) by {
            if cell_index(area, x as int, y as int) <= i < cell_index(area, r as int, y as int) {
                lemma_in_row(area, x, r, y, i);
            }
        }
        r
    } else {
        x
    }
}

proof fn lemma_agree_on(
    last: Seq<CellView>,
    middle: Seq<CellView>,
    first: Seq<CellView>,
    area: CellRect,
    y: u16,
    inner: (int, int),
    outer: (int, int),
)
    requires
        agree_around(last, middle, area, y, inner.0, inner.1),
        agree_around(middle, first, area, y, outer.0, outer.1),
        inner.0 >= inner.1 || (outer.0 <= inner.0 && inner.1 <= outer.1),
    ensures
        agree_around(last, first, area, y, outer.0, outer.1),
{
    assert forall|i: int|
        0 <= i < last.len() && !(outer.0 <= col_of(area, i) < outer.1 && row_of(area, i) == y)
        implies #[trigger] agree(last, first, i) by {
        assert(agree(last, middle, i));
        assert(agree(middle, first, i));
    }
}

proof fn lemma_wider_agree(
    last: Seq<CellView>,
    first: Seq<CellView>,
    area: CellRect,
    y: u16,
    inner: (int, int),
    outer: (int, int),
)
    requires
        agree_around(last, first, area, y, inner.0, inner.1),
        inner.0 >= inner.1 || (outer.0 <= inner.0 && inner.1 <= outer.1),
    ensures
        agree_around(last, first, area, y, outer.0, outer.1),
{
}

fn room_before(right: u16, x: u16) -> (r: usize)
    ensures
        r == columns_left(right, x),
{
    if x < right {
        (right - x) as usize
    } else {
        0
    }
}

/// Applies one entry to a buffer and returns the cursor position it leaves.
pub fn paint_one(buf: &mut Buffer, paint: &Paint, cursor: Option<(u16, u16)>) -> (r: Option<
    (u16, u16),
>)
    requires
        whole(*old(buf)),
    ensures
        whole(*final(buf)),
        buffer_area(*final(buf)) == buffer_area(*old(buf)),
        (buffer_cells(*final(buf)), r) == applied(
            paint@,
            buffer_cells(*old(buf)),
            buffer_area(*old(buf)),
            cursor,
        ),
        buffer_cells(*final(buf)).len() == buffer_cells(*old(buf)).len(),
        forall|i: int|
            0 <= i < buffer_cells(*old(buf)).len() && paint@.misses(buffer_area(*old(buf)), i)
                ==> #[trigger] agree(buffer_cells(*final(buf)), buffer_cells(*old(buf)), i),
{
    let ghost before = buffer_cells(*buf);
    match paint {
        Paint::Fill { area, style } => {
            set_style(buf, CellRect::new(area.x, area.y, area.width, area.height), *style);
            cursor
        },
        Paint::Text { x, y, text, max, style } => {
            let _ = print_at(buf, *x, *y, text.as_str(), *max, *style);
            cursor
        },
        Paint::Line { x, y, right, runs } => {
            let mut at: u16 = *x;
            let mut i: usize = 0;
            let ghost values = runs_view(runs@);
            let ghost whole_line = print_runs(
                buffer_cells(*buf),
                buffer_area(*buf),
                *x,
                *y,
                *right,
                values,
            );
            assert(values.skip(0) == values);
            while i < runs.len() && at < *right
                invariant
                    i <= runs@.len(),
                    values == runs_view(runs@),
                    whole(*buf),
                    buffer_area(*buf) == buffer_area(*old(buf)),
                    *x <= at,
                    agree_around(
                        buffer_cells(*buf),
                        before,
                        buffer_area(*buf),
                        *y,
                        *x as int,
                        *right as int,
                    ),
                    whole_line == print_runs(
                        buffer_cells(*buf),
                        buffer_area(*buf),
                        at,
                        *y,
                        *right,
                        values.skip(i as int),
                    ),
                decreases runs@.len() - i,
            {
                assert(values.skip(i as int).drop_first() == values.skip(i + 1));
                let ghost middle = buffer_cells(*buf);
                let ghost start = at;
                at = print_at(
                    buf,
                    at,
                    *y,
                    runs[i].text.as_str(),
                    (*right - at) as usize,
                    runs[i].style,
                );
                proof {
                    lemma_agree_on(
                        buffer_cells(*buf),
                        middle,
                        before,
                        buffer_area(*buf),
                        *y,
                        (start as int, *right as int),
                        (*x as int, *right as int),
                    );
                }
                i += 1;
            }
            cursor
        },
        Paint::Field {
            x,
            y,
            edge,
            right,
            label,
            label_width,
            colon,
            muted,
            text,
            style,
            cursor: at,
        } => {
            let mut end: u16 = *x;
            let ghost far = paint@.far_column();
            if *label_width > 0 {
                let room: usize = room_before(*edge, end);
                let max: usize = if *label_width < room { *label_width } else { room };
                end = print_at(buf, end, *y, label.as_str(), max, *muted);
                proof {
                    lemma_wider_agree(buffer_cells(*buf), before, buffer_area(*buf), *y, (*x as int, *x + max), (*x as int, far));
                }
                if *colon {
                    let ghost middle = buffer_cells(*buf);
                    let ghost start = end;
                    let room: usize = room_before(*edge, end);
                    let max: usize = if 2 < room { 2 } else { room };
                    end = print_at(buf, end, *y, ": ", max, *muted);
                    proof {
                        lemma_agree_on(
                            buffer_cells(*buf),
                            middle,
                            before,
                            buffer_area(*buf),
                            *y,
                            (start as int, start + max),
                            (*x as int, far),
                        );
                    }
                }
            }
            let ghost middle = buffer_cells(*buf);
            let left: usize = room_before(*right, end);
            let _ = print_at(buf, end, *y, text.as_str(), left, *style);
            proof {
                lemma_agree_on(
                    buffer_cells(*buf),
                    middle,
                    before,
                    buffer_area(*buf),
                    *y,
                    (end as int, end + left),
                    (*x as int, far),
                );
            }
            match at {
                Some(offset) => Some((clamp_cell(end as i64 + *offset as i64), *y)),
                None => cursor,
            }
        },
        Paint::Gradient { .. } => cursor,
        Paint::Surface { .. } => cursor,
    }
}

/// Applies a display list to a buffer; returns where the terminal cursor belongs.
pub fn paint_all(buf: &mut Buffer, paints: &Vec<Paint>) -> (r: Option<(u16, u16)>)
    requires
        whole(*old(buf)),
    ensures
        whole(*final(buf)),
        buffer_area(*final(buf)) == buffer_area(*old(buf)),
        (buffer_cells(*final(buf)), r) == applied_all(
            paints_view(paints@),
            buffer_cells(*old(buf)),
            buffer_area(*old(buf)),
            None,
        ),
        buffer_cells(*final(buf)).len() == buffer_cells(*old(buf)).len(),
        forall|i: int|
            0 <= i < buffer_cells(*old(buf)).len() && all_miss(
                paints_view(paints@),
                buffer_area(*old(buf)),
                i,
            ) ==> #[trigger] agree(buffer_cells(*final(buf)), buffer_cells(*old(buf)), i),
{
    let mut cursor: Option<(u16, u16)> = None;
    let ghost values = paints_view(paints@);
    let mut i: usize = 0;
    while i < paints.len()
        invariant
            i <= paints@.len(),
            values == paints_view(paints@),
            whole(*buf),
            buffer_area(*buf) == buffer_area(*old(buf)),
            (buffer_cells(*buf), cursor) == applied_all(
                values.take(i as int),
                buffer_cells(*old(buf)),
                buffer_area(*old(buf)),
                None,
            ),
            buffer_cells(*buf).len() == buffer_cells(*old(buf)).len(),
            forall|k: int|
                0 <= k < buffer_cells(*old(buf)).len() && all_miss(
                    values,
                    buffer_area(*old(buf)),
                    k,
                ) ==> #[trigger] agree(buffer_cells(*buf), buffer_cells(*old(buf)), k),
        decreases paints@.len() - i,
    {
        assert(values.take(i + 1).drop_last() == values.take(i as int));
        let ghost middle = buffer_cells(*buf);
        cursor = paint_one(buf, &paints[i], cursor);
        assert forall|k: int|
            0 <= k < buffer_cells(*old(buf)).len() && all_miss(values, buffer_area(*old(buf)), k)
            implies #[trigger] agree(buffer_cells(*buf), buffer_cells(*old(buf)), k) by {
            assert(values[i as int].misses(buffer_area(*old(buf)), k));
            assert(agree(buffer_cells(*buf), middle, k));
            assert(agree(middle, buffer_cells(*old(buf)), k));
        }
        i += 1;
    }
    assert(values.take(i as int) == values);
    cursor
}

} // verus!
