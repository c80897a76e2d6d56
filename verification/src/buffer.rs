//! The cell grid: what the crate relies on of `ratatui`'s `Buffer`.
//!
//! A buffer is known by its area and by the values of its cells in row-major order.
//! Each wrapper below stands for one `ratatui` method.

use ratatui::buffer::{Buffer, CellDiffOption};
use ratatui::layout::Rect;
use ratatui::style::{Color, Modifier, Style};
use vstd::prelude::*;

use crate::geometry::CellRect;
use crate::style::{CellStyle, CellColor};

verus! {

/// How a cell takes part in the diff against the previous frame.
#[derive(Clone, Copy, Debug, PartialEq, Eq, Structural)]
pub enum DiffOption {
    /// Compared as it is.
    Plain,
    /// Never written.
    Skip,
    /// Always written.
    AlwaysUpdate,
    /// Written as a symbol of the given width.
    ForcedWidth(u16),
}

/// The value of one cell.
#[verifier::ext_equal]
pub struct CellView {
    /// The symbol shown in the cell.
    pub symbol: Seq<char>,
    /// Foreground color.
    pub fg: CellColor,
    /// Background color.
    pub bg: CellColor,
    /// Modifier bits.
    pub modifiers: u16,
    /// Diff option.
    pub diff: DiffOption,
}

/// The value of an empty cell.
pub open spec fn blank() -> CellView {
    CellView {
        symbol: seq![' '],
        fg: CellColor::Reset,
        bg: CellColor::Reset,
        modifiers: 0,
        diff: DiffOption::Plain,
    }
}

/// A cell after a style was applied to it.
pub open spec fn patched(cell: CellView, style: CellStyle) -> CellView {
    CellView {
        symbol: cell.symbol,
        fg: match style.fg {
            Some(color) => color,
            None => cell.fg,
        },
        bg: match style.bg {
            Some(color) => color,
            None => cell.bg,
        },
        modifiers: cell.modifiers | style.modifiers,
        diff: cell.diff,
    }
}

/// `ratatui::buffer::Buffer`.
#[verifier::external_type_specification]
#[verifier::external_body]
pub struct ExBuffer(Buffer);

/// `ratatui::style::Color`.
#[verifier::external_type_specification]
#[verifier::external_body]
pub struct ExColor(Color);

/// `ratatui::style::Style`.
#[verifier::external_type_specification]
#[verifier::external_body]
pub struct ExStyle(Style);

/// The area a buffer stands for.
pub uninterp spec fn buffer_area(buf: Buffer) -> CellRect;

/// The values of a buffer's cells, row by row.
pub uninterp spec fn buffer_cells(buf: Buffer) -> Seq<CellView>;

/// A buffer holds one cell for each position of its area.
pub open spec fn whole(buf: Buffer) -> bool {
    &&& buffer_area(buf).wf()
    &&& buffer_cells(buf).len() == buffer_area(buf).width * buffer_area(buf).height
}

/// The index of the cell at `(x, y)`.
pub open spec fn cell_index(area: CellRect, x: int, y: int) -> int {
    (y - area.y) * area.width + (x - area.x)
}

/// The index of a covered cell lies inside the grid.
pub proof fn lemma_cell_index(area: CellRect, x: int, y: int)
    requires
        area.covers(x, y),
    ensures
        0 <= cell_index(area, x, y) < area.width * area.height,
{
    let w = area.width as int;
    let h = area.height as int;
    let r = y - area.y;
    let c = x - area.x;
    assert(0 <= r * w && r * w + c < w * h) by (nonlinear_arith)
        requires
            0 <= r < h,
            0 <= c < w,
    ;
}

/// The position of the cell at an index.
pub proof fn lemma_cell_position(grid: CellRect, x: int, y: int)
    requires
        grid.covers(x, y),
    ensures
        cell_index(grid, x, y) % grid.width as int == x - grid.x,
        cell_index(grid, x, y) / grid.width as int == y - grid.y,
{
    vstd::arithmetic::div_mod::lemma_fundamental_div_mod_converse(
        cell_index(grid, x, y),
        grid.width as int,
        y - grid.y,
        x - grid.x,
    );
}

/// An index of the grid belongs to a covered cell.
pub proof fn lemma_position_in_grid(grid: CellRect, i: int)
    requires
        0 <= i < grid.width * grid.height,
    ensures
        grid.covers(grid.x + i % grid.width as int, grid.y + i / grid.width as int),
        cell_index(grid, grid.x + i % grid.width as int, grid.y + i / grid.width as int) == i,
{
    let w = grid.width as int;
    let h = grid.height as int;
    assert(w > 0) by (nonlinear_arith)
        requires
            0 <= i < w * h,
            w >= 0,
            h >= 0,
    ;
    vstd::arithmetic::div_mod::lemma_fundamental_div_mod(i, w);
    assert(0 <= i / w && i / w < h) by (nonlinear_arith)
        requires
            0 <= i < w * h,
            w > 0,
            i == w * (i / w) + i % w,
            0 <= i % w < w,
    ;
    assert(w * (i / w) == (i / w) * w) by (nonlinear_arith);
}

/// The cells after a style was applied to every cell that `rect` covers.
pub open spec fn filled(
    cells: Seq<CellView>,
    area: CellRect,
    rect: CellRect,
    style: CellStyle,
) -> Seq<CellView> {
    Seq::new(
        cells.len(),
        |i: int|
            if rect.covers(area.x + i % area.width as int, area.y + i / area.width as int) {
                patched(cells[i], style)
            } else {
                cells[i]
            },
    )
}

/// What `Buffer::set_stringn` makes of the cells of an area, and the column behind the
/// last symbol it printed.
pub uninterp spec fn stringn(
    cells: Seq<CellView>,
    area: CellRect,
    x: u16,
    y: u16,
    text: Seq<char>,
    max: usize,
    style: CellStyle,
) -> (Seq<CellView>, u16);

/// The matching `ratatui` color, one variant for one.
///
/// Constructs `ratatui::style::Color`; the result is opaque here.
#[verifier::external_body]
fn native_color(color: CellColor) -> Color {
    match color {
        CellColor::Rgb(r, g, b) => Color::Rgb(r, g, b),
        CellColor::Indexed(i) => Color::Indexed(i),
        CellColor::Reset => Color::Reset, CellColor::Black => Color::Black,
        CellColor::Red => Color::Red, CellColor::Green => Color::Green,
        CellColor::Yellow => Color::Yellow, CellColor::Blue => Color::Blue,
        CellColor::Magenta => Color::Magenta, CellColor::Cyan => Color::Cyan,
        CellColor::Gray => Color::Gray, CellColor::DarkGray => Color::DarkGray,
        CellColor::LightRed => Color::LightRed, CellColor::LightGreen => Color::LightGreen,
        CellColor::LightYellow => Color::LightYellow, CellColor::LightBlue => Color::LightBlue,
        CellColor::LightMagenta => Color::LightMagenta, CellColor::LightCyan => Color::LightCyan,
        CellColor::White => Color::White,
    }
}

/// The matching `ratatui` style: the same colors, the same modifier bits added.
///
/// Constructs `ratatui::style::Style`; the result is opaque here.
#[verifier::external_body]
fn native_style(style: CellStyle) -> Style {
    Style {
        fg: style.fg.map(native_color),
        bg: style.bg.map(native_color),
        add_modifier: Modifier::from_bits_retain(style.modifiers),
        ..Style::default()
    }
}

/// Creates a buffer of empty cells.
///
/// Calls `ratatui`'s `Buffer::empty`: the buffer stands for `area`, and every cell is empty.
#[verifier::external_body]
pub(crate) fn empty_buffer(area: CellRect) -> (r: Buffer)
    requires
        area.wf(),
    ensures
        buffer_area(r) == area,
        buffer_cells(r) == Seq::new((area.width * area.height) as nat, |i: int| blank()),
{
    Buffer::empty(Rect::new(area.x, area.y, area.width, area.height))
}

/// Reads the area of a buffer.
///
/// Calls `ratatui`'s `Buffer::area`.
#[verifier::external_body]
pub(crate) fn area_of(buf: &Buffer) -> (r: CellRect)
    ensures
        r == buffer_area(*buf),
{
    let area = buf.area();
    CellRect { x: area.x, y: area.y, width: area.width, height: area.height }
}

/// Prints at most `max` columns of a string at `(x, y)`.
///
/// Calls `ratatui`'s `Buffer::set_stringn`, which walks the graphemes of the text; what
/// it prints depends on the cells, the area and the arguments alone. It returns the
/// column behind the last symbol it printed, which lies neither before `x` nor behind the
/// end of the row nor more than `max` columns on, and it changes no cell outside
/// the columns it passed in row `y`. It panics where it has to print outside the area.
#[verifier::external_body]
pub(crate) fn set_stringn(
    buf: &mut Buffer,
    x: u16,
    y: u16,
    text: &str,
    max: usize,
    style: CellStyle,
) -> (r: u16)
    requires
        whole(*old(buf)),
        buffer_area(*old(buf)).x <= x,
        buffer_area(*old(buf)).y <= y < buffer_area(*old(buf)).y + buffer_area(*old(buf)).height,
    ensures
        buffer_area(*final(buf)) == buffer_area(*old(buf)),
        (buffer_cells(*final(buf)), r) == stringn(
            buffer_cells(*old(buf)),
            buffer_area(*old(buf)),
            x,
            y,
            text@,
            max,
            style,
        ),
        buffer_cells(*final(buf)).len() == buffer_cells(*old(buf)).len(),
        x <= r,
        r <= x + max,
        r == x || r <= buffer_area(*old(buf)).x + buffer_area(*old(buf)).width,
        forall|i: int|
            0 <= i < buffer_cells(*old(buf)).len() && !(cell_index(
                buffer_area(*old(buf)),
                x as int,
                y as int,
            ) <= i < cell_index(buffer_area(*old(buf)), r as int, y as int)) ==> buffer_cells(
                *final(buf),
            )[i] == buffer_cells(*old(buf))[i],
{
    buf.set_stringn(x, y, text, max, native_style(style)).0
}

/// Applies a style to every cell of a rectangle.
///
/// Calls `ratatui`'s `Buffer::set_style`, which cuts the rectangle at the edges of the
/// area and leaves the symbols as they are.
#[verifier::external_body]
pub(crate) fn set_style(buf: &mut Buffer, rect: CellRect, style: CellStyle)
    requires
        whole(*old(buf)),
        rect.wf(),
    ensures
        buffer_area(*final(buf)) == buffer_area(*old(buf)),
        buffer_cells(*final(buf)) == filled(
            buffer_cells(*old(buf)),
            buffer_area(*old(buf)),
            rect,
            style,
        ),
{
    buf.set_style(Rect::new(rect.x, rect.y, rect.width, rect.height), native_style(style));
}

/// Replaces the symbol of one cell and keeps everything else of it.
///
/// Calls `ratatui`'s `Cell::set_symbol` on the cell at `(x, y)`.
#[verifier::external_body]
pub(crate) fn set_symbol(buf: &mut Buffer, x: u16, y: u16, symbol: &str)
    requires
        whole(*old(buf)),
        buffer_area(*old(buf)).covers(x as int, y as int),
    ensures
        buffer_area(*final(buf)) == buffer_area(*old(buf)),
        ({
            let i = cell_index(buffer_area(*old(buf)), x as int, y as int);
            buffer_cells(*final(buf)) == buffer_cells(*old(buf)).update(
                i,
                CellView { symbol: symbol@, ..buffer_cells(*old(buf))[i] },
            )
        }),
{
    buf[(x, y)].set_symbol(symbol);
}

/// Replaces the diff option of one cell and keeps everything else of it.
///
/// Calls `ratatui`'s `Cell::set_diff_option` on the cell at `(x, y)`.
#[verifier::external_body]
pub(crate) fn set_diff_option(buf: &mut Buffer, x: u16, y: u16, option: DiffOption)
    requires
        whole(*old(buf)),
        buffer_area(*old(buf)).covers(x as int, y as int),
        option != DiffOption::ForcedWidth(0),
    ensures
        buffer_area(*final(buf)) == buffer_area(*old(buf)),
        ({
            let i = cell_index(buffer_area(*old(buf)), x as int, y as int);
            buffer_cells(*final(buf)) == buffer_cells(*old(buf)).update(
                i,
                CellView { diff: option, ..buffer_cells(*old(buf))[i] },
            )
        }),
{
    buf[(x, y)].set_diff_option(match option {
        DiffOption::Plain => CellDiffOption::None,
        DiffOption::Skip => CellDiffOption::Skip,
        DiffOption::AlwaysUpdate => CellDiffOption::AlwaysUpdate,
        DiffOption::ForcedWidth(w) => CellDiffOption::ForcedWidth(w.try_into().unwrap()),
    });
}

/// Copies one cell over another.
///
/// Calls `Cell::clone` of `ratatui` on the cell at index `from` of `Buffer::content`.
#[verifier::external_body]
pub(crate) fn copy_cell(buf: &mut Buffer, to: usize, from: usize)
    requires
        to < buffer_cells(*old(buf)).len(),
        from < buffer_cells(*old(buf)).len(),
    ensures
        buffer_area(*final(buf)) == buffer_area(*old(buf)),
        buffer_cells(*final(buf)) == buffer_cells(*old(buf)).update(
            to as int,
            buffer_cells(*old(buf))[from as int],
        ),
{
    buf.content[to] = buf.content[from].clone();
}

/// Empties one cell.
///
/// Calls `Cell::reset` of `ratatui` on the cell at index `at` of `Buffer::content`.
#[verifier::external_body]
pub(crate) fn reset_cell(buf: &mut Buffer, at: usize)
    requires
        at < buffer_cells(*old(buf)).len(),
    ensures
        buffer_area(*final(buf)) == buffer_area(*old(buf)),
        buffer_cells(*final(buf)) == buffer_cells(*old(buf)).update(at as int, blank()),
{
    buf.content[at].reset();
}

/// Creates a buffer of empty cells for a screen.
pub fn screen_buffer(area: CellRect) -> (r: Buffer)
    requires
        area.wf(),
    ensures
        whole(r),
        buffer_area(r) == area,
        buffer_cells(r) == Seq::new((area.width * area.height) as nat, |i: int| blank()),
{
    let r = empty_buffer(area);
    proof {
        assert(area.width * area.height >= 0) by (nonlinear_arith);
    }
    r
}

} // verus!
