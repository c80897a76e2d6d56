//! Surfaces: which pixel a cell shows, and how it gets there.

use vstd::prelude::*;

use crate::buffer::{cell_index, lemma_cell_index, lemma_cell_position};
use crate::geometry::CellRect;
use crate::gpu::{
    blended, cell_colors, cells_before, half_block, law_native_raster_is_exact, middle_pixel, over,
    raster_size, way, GpuState, ImageCommand, Route,
};
use crate::kitty::KittyImage;
use crate::paint::PaintView;
use crate::probe::{FontSize, Protocol};
use crate::style::CellColor;

verus! {

/// The four bytes of a pixel, in a raster with rows of `width` pixels.
pub open spec fn quad(rgba: Seq<u8>, width: int, x: int, y: int) -> (u8, u8, u8, u8) {
    (
        rgba[4 * (y * width + x)],
        rgba[4 * (y * width + x) + 1],
        rgba[4 * (y * width + x) + 2],
        rgba[4 * (y * width + x) + 3],
    )
}

/// A color without its transparency.
pub open spec fn solid(quad: (u8, u8, u8, u8)) -> CellColor {
    CellColor::Rgb(quad.0, quad.1, quad.2)
}

/// On a raster of one pixel for each column and two for each row, the cell in column `dx` and row
/// `dy` of a surface is an upper half block whose foreground is pixel row `2 * dy` and whose
/// background is the pixel row below, each over what lies underneath; opaque pixels show as they
/// are. So the next cell below shows the next two pixel rows, and nothing is turned upside down.
pub proof fn law_half_blocks_stack_two_pixels(
    rgba: Seq<u8>,
    origin: (i32, i32),
    size: (u16, u16),
    area: CellRect,
    col: int,
    row: int,
    under: (u8, u8, u8),
)
    requires
        area.covers(col, row),
        origin.0 <= col < origin.0 + size.0,
        origin.1 <= row < origin.1 + size.1,
        area.wf(),
    ensures
        ({
            let raster = (size.0 as u32, (2 * size.1) as u32);
            let i = (row - area.y) * area.width + (col - area.x);
            let colors = cell_colors(rgba, raster, origin, size, area, i, under);
            let upper = quad(rgba, size.0 as int, col - origin.0, 2 * (row - origin.1));
            let lower = quad(rgba, size.0 as int, col - origin.0, 2 * (row - origin.1) + 1);
            &&& half_block(area, i, colors) matches PaintView::Text { x, y, text, max, style }
            &&& x == col && y == row && text == "\u{2580}"@ && max == 1
            &&& style.modifiers == 0
            &&& style.fg == Some(over(upper, under))
            &&& style.bg == Some(over(lower, under))
            &&& upper.3 == 255 ==> style.fg == Some(solid(upper))
            &&& lower.3 == 255 ==> style.bg == Some(solid(lower))
        }),
{
    let i = cell_index(area, col, row);
    lemma_cell_index(area, col, row);
    lemma_cell_position(area, col, row);
    let dx = col - origin.0;
    let dy = row - origin.1;
    law_native_raster_is_exact(dx as u16, dy as u16, size);
    let upper = quad(rgba, size.0 as int, dx, 2 * dy);
    let lower = quad(rgba, size.0 as int, dx, 2 * dy + 1);
    crate::gpu::law_opaque_covers_and_clear_shows(upper.0, upper.1, upper.2, under);
    crate::gpu::law_opaque_covers_and_clear_shows(lower.0, lower.1, lower.2, under);
}

/// On any raster a cell shows, in its upper half, the pixel under the middle of that half, and in
/// its lower half the one under the middle of that: never a pixel of the upper half below one of
/// the lower half.
pub proof fn law_cells_show_what_lies_under_them(
    rgba: Seq<u8>,
    raster: (u32, u32),
    origin: (i32, i32),
    size: (u16, u16),
    area: CellRect,
    col: int,
    row: int,
    under: (u8, u8, u8),
    x: int,
    upper: int,
    lower: int,
)
    requires
        area.covers(col, row),
        origin.0 <= col < origin.0 + size.0,
        origin.1 <= row < origin.1 + size.1,
        raster.0 > 0,
        raster.1 > 0,
        ({
            let dx = col - origin.0;
            let dy = row - origin.1;
            let w = raster.0 as int;
            let h = raster.1 as int;
            &&& x * (2 * size.0) <= (2 * dx + 1) * w < (x + 1) * (2 * size.0)
            &&& upper * (4 * size.1) <= (4 * dy + 1) * h < (upper + 1) * (4 * size.1)
            &&& lower * (4 * size.1) <= (4 * dy + 3) * h < (lower + 1) * (4 * size.1)
        }),
    ensures
        0 <= x < raster.0,
        0 <= upper <= lower < raster.1,
        cell_colors(
            rgba,
            raster,
            origin,
            size,
            area,
            (row - area.y) * area.width + (col - area.x),
            under,
        ) == (
            over(quad(rgba, raster.0 as int, x, upper), under),
            over(quad(rgba, raster.0 as int, x, lower), under),
        ),
{
    let dx = col - origin.0;
    let dy = row - origin.1;
    lemma_cell_index(area, col, row);
    lemma_cell_position(area, col, row);
    lemma_middle(dx, size.0 as int, raster.0 as int, x);
    assert((2 * (2 * dy) + 1) * raster.1 == (4 * dy + 1) * raster.1);
    assert((2 * (2 * dy + 1) + 1) * raster.1 == (4 * dy + 3) * raster.1);
    lemma_middle(2 * dy, 2 * size.1, raster.1 as int, upper);
    lemma_middle(2 * dy + 1, 2 * size.1, raster.1 as int, lower);
    assert(upper <= lower) by (nonlinear_arith)
        requires
            upper * (4 * size.1) <= (4 * dy + 1) * raster.1,
            (4 * dy + 3) * raster.1 < (lower + 1) * (4 * size.1),
            raster.1 > 0,
            size.1 > 0,
    ;
}

proof fn lemma_middle(at: int, parts: int, length: int, found: int)
    requires
        0 <= at < parts,
        0 < length,
        found * (2 * parts) <= (2 * at + 1) * length < (found + 1) * (2 * parts),
    ensures
        middle_pixel(at, parts, length) == found,
        0 <= found < length,
{
    let top = (2 * at + 1) * length;
    let unit = 2 * parts;
    assert((found + 1) * unit == found * unit + unit) by (nonlinear_arith);
    vstd::arithmetic::div_mod::lemma_fundamental_div_mod_converse(
        top,
        unit,
        found,
        top - found * unit,
    );
    assert(0 <= found < length) by (nonlinear_arith)
        requires
            found * unit <= top,
            top < (found + 1) * unit,
            top == (2 * at + 1) * length,
            unit == 2 * parts,
            0 <= at < parts,
            0 < length,
    ;
}

/// A channel of a pixel over the one underneath is their mean, weighted by how opaque the pixel
/// is, to the nearest step; it lies between the two.
pub proof fn law_blend_is_the_weighted_mean(channel: u8, alpha: u8, under: u8)
    ensures
        ({
            let sum = channel * alpha + under * (255 - alpha);
            let mixed = blended(channel, alpha, under);
            &&& sum - 127 <= 255 * mixed <= sum + 127
            &&& 0 <= mixed <= 255
            &&& over((channel, channel, channel, alpha), (under, under, under)) == CellColor::Rgb(
                mixed as u8,
                mixed as u8,
                mixed as u8,
            )
        }),
{
    let rest = 255 - alpha;
    assert(0 <= channel * alpha + under * rest <= 65025) by (nonlinear_arith)
        requires
            0 <= channel <= 255,
            0 <= under <= 255,
            0 <= alpha <= 255,
            rest == 255 - alpha,
    ;
}

/// Each channel is blended with the channel of the same color.
pub proof fn law_channels_stay_apart(pixel: (u8, u8, u8, u8), under: (u8, u8, u8))
    ensures
        over(pixel, under) == CellColor::Rgb(
            blended(pixel.0, pixel.3, under.0) as u8,
            blended(pixel.1, pixel.3, under.1) as u8,
            blended(pixel.2, pixel.3, under.2) as u8,
        ),
{
}

/// A surface is rasterized to the pixels of its cells, but to at most 1024 on either side, where
/// the terminal has graphics; and to one pixel for each column and two for each row where it has
/// none. A surface without a cell counts as one of one cell.
pub proof fn law_raster_follows_the_cells(size: (u16, u16), font: FontSize)
    requires
        size.0 > 0,
        size.1 > 0,
    ensures
        raster_size(size, None) == (size.0 as int, 2 * size.1),
        raster_size((0, 0), None) == (1int, 2int),
        ({
            let (w, h) = raster_size(size, Some(font));
            &&& w <= 1024 && h <= 1024
            &&& w == 1024 || w == size.0 * font.width
            &&& h == 1024 || h == size.1 * font.height
            &&& w <= size.0 * font.width && h <= size.1 * font.height
        }),
        raster_size((0, 0), Some(font)) == raster_size((1, 1), Some(font)),
{
}

/// Without pixels a marker is shown. With pixels, a terminal of the Kitty protocol shows
/// placeholders wherever images can be sent; another protocol shows an image exactly where all of
/// it is visible; everything else is shown as half blocks.
pub proof fn law_every_surface_has_its_way(
    protocol: Option<Protocol>,
    channel: bool,
    origin: (i32, i32),
    size: (u16, u16),
    area: CellRect,
)
    ensures
        way(false, protocol, channel, origin, size, area) == Route::Marker,
        way(true, None, channel, origin, size, area) == Route::HalfBlocks,
        way(true, Some(Protocol::Kitty), true, origin, size, area) == Route::Placeholders,
        ({
            let whole = origin == (area.x as i32, area.y as i32) && size == (area.width, area.height);
            &&& protocol == Some(Protocol::Sixel) || protocol == Some(Protocol::Iterm2) || (protocol
                == Some(Protocol::Kitty) && !channel) ==> (way(
                true,
                protocol,
                channel,
                origin,
                size,
                area,
            ) == if whole {
                Route::WholeImage
            } else {
                Route::HalfBlocks
            })
        }),
{
}

/// The first time a surface is placed its pixels are sent, under the id that it gets and with the
/// size of its raster. Later on a change of its cells sends the same image's new placement, and
/// no change sends nothing. Nothing else of the surface changes.
pub proof fn law_placing_sends_what_changed(
    state: GpuState,
    id: u32,
    raster: (u32, u32),
    cells: (u16, u16),
)
    ensures
        ({
            let (after, sent) = state.placed(id, raster, cells);
            let fresh = KittyImage { id, width: raster.0, height: raster.1 };
            &&& after == (GpuState { image: after.image, ..state })
            &&& match state.image {
                None => sent == ImageCommand::Create(fresh) && after.image == Some((fresh, cells)),
                Some((image, at)) => {
                    &&& after.image == Some((image, cells))
                    &&& at == cells ==> sent == ImageCommand::Keep
                    &&& at != cells ==> sent == ImageCommand::Place(image)
                },
            }
        }),
{
}

/// What lies before the visible cells is counted from where the surface begins.
pub proof fn law_skipped_cells_lead_to_the_visible_ones(visible: u16, origin: i32)
    ensures
        origin <= visible && visible - origin <= u16::MAX ==> origin + cells_before(visible, origin)
            == visible,
        origin > visible ==> cells_before(visible, origin) == 0,
{
}

// ---- The life of a surface --------------------------------------------------------

/// A surface starts its session once: the host is asked while there is a GPU and nothing was tried
/// yet, and never again, whether the session came up or not. Without a GPU the surface has failed.
pub proof fn law_session_is_started_once(
    state: GpuState,
    available: bool,
    ok: bool,
    later: bool,
)
    ensures
        GpuState::idle().prepared(true) == (GpuState::idle(), true),
        ({
            let (after, asked) = state.prepared(available);
            &&& asked ==> available && after == state && !state.started && !state.failed
            &&& !asked ==> after.started || after.failed
            &&& asked ==> !after.session_noted(ok).prepared(later).1
            &&& asked && ok ==> after.session_noted(ok).started && !after.session_noted(ok).failed
            &&& asked && !ok ==> !after.session_noted(ok).started && after.session_noted(ok).failed
            &&& !asked ==> after.prepared(later) == (after, false)
            &&& after.raster == state.raster && after.image == state.image
            &&& after.session_noted(ok).raster == state.raster
            &&& after.session_noted(ok).image == state.image
        }),
        GpuState::idle().raster is None,
        GpuState::idle().image is None,
        GpuState::idle().encoded is None,
        !GpuState::idle().animating,
{
}

/// A frame is rendered where it is asked for and something comes of it: the first one always, a
/// later one only where the pixels on screen can be replaced.
pub proof fn law_frames_are_rendered_where_they_show(
    state: GpuState,
    size: (u32, u32),
    replaceable: bool,
)
    ensures
        !state.renders(false, replaceable),
        !state.started ==> !state.renders(true, replaceable),
        state.started && state.raster is None ==> state.renders(true, replaceable),
        state.started ==> state.renders(true, true),
        ({
            let (after, image) = state.frame_noted(Some(size));
            &&& !after.renders(true, false)
            &&& after.raster == Some(size)
            &&& image == state.image
            &&& after == (GpuState { raster: after.raster, ..state })
        }),
        ({
            let (after, image) = state.frame_noted(None);
            &&& image is None
            &&& after.failed
            &&& after == (GpuState { failed: after.failed, ..state })
        }),
{
}

/// What was encoded for some cells is due for other cells only, whatever frames come later, and
/// what could not be encoded stays as due as it was.
pub proof fn law_encoding_is_noted(
    state: GpuState,
    size: (u16, u16),
    other: (u16, u16),
    frame: (u32, u32),
)
    requires
        state.raster is Some,
    ensures
        ({
            let after = state.encode_noted(size, true);
            &&& after.frame_noted(Some(frame)).0.encode_is_due(other) == (other != size)
            &&& after.encode_is_due(other) == (other != size)
            &&& after.raster == state.raster && after.image == state.image
            &&& after.started == state.started && after.failed == state.failed
        }),
        state.encode_noted(size, false) == state,
        !GpuState::idle().encode_is_due(size),
{
}

/// The image of a surface that has one.
pub open spec fn shown_image(state: GpuState) -> KittyImage
    recommends
        state.image is Some,
{
    let (image, _) = state.image->0;
    image
}

/// A surface without pixels shows its marker. One that is shown as placeholders sends its pixels
/// under the id it is given, the first time; drawn on as many cells again it sends nothing, and on
/// others a placement. Any other way to the screen sends nothing and binds nothing.
pub proof fn law_drawing_sends_what_is_missing(
    state: GpuState,
    channel: u32,
    origin: (i32, i32),
    size: (u16, u16),
    area: CellRect,
    protocol: Option<Protocol>,
)
    ensures
        state.raster is None ==> state.drawn_on(Some(channel), protocol, origin, size, area) == (
            state,
            (Route::Marker, ImageCommand::Keep),
        ),
        ({
            let (after, sent) = state.drawn_on(None, protocol, origin, size, area);
            after == state && sent.1 == ImageCommand::Keep && sent.0 != Route::Placeholders
        }),
        state.raster is Some ==> {
            let (after, sent) = state.drawn_on(Some(channel), Some(Protocol::Kitty), origin, size, area);
            let (_, again) = after.drawn_on(Some(channel), Some(Protocol::Kitty), origin, size, area);
            &&& sent.0 == Route::Placeholders
            &&& again == (Route::Placeholders, ImageCommand::Keep)
            &&& after.raster == state.raster
            &&& state.image is None ==> {
                &&& sent.1 matches ImageCommand::Create(image)
                &&& image.id == channel
                &&& Some((image.width, image.height)) == state.raster
                &&& after.image == Some((image, size))
            }
            &&& state.image is Some ==> {
                &&& !(sent.1 is Create)
                &&& after.image == Some((shown_image(state), size))
            }
        },
{
}

} // verus!
