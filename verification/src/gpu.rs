//! GPU surfaces on a cell grid: what the host has to rasterize, how the pixels get on
//! screen, and which pixels a cell shows where the terminal has no graphics.

use vstd::prelude::*;

use crate::buffer::{cell_index, lemma_cell_index, lemma_cell_position};
use crate::geometry::CellRect;
use crate::kitty::KittyImage;
use crate::paint::{emit_text, glyphs, paints_view, Paint, PaintView};
use crate::probe::{FontSize, Protocol};
use crate::style::{CellColor, CellStyle};

verus! {

/// The largest side of a transmitted raster, in pixels.
pub const MAX_TRANSMIT_PX: u32 = 1024;

/// The smaller of two numbers.
pub open spec fn smaller(a: int, b: int) -> int {
    if a < b {
        a
    } else {
        b
    }
}

/// A number of cells, at least one.
pub open spec fn some_cells(n: u16) -> int {
    if n < 1 {
        1
    } else {
        n as int
    }
}

/// The pixels that a surface of some cells is rasterized to: those of its cells on a
/// terminal with graphics, up to a limit, and two rows for each row of cells elsewhere.
pub open spec fn raster_size(size: (u16, u16), font: Option<FontSize>) -> (int, int) {
    match font {
        Some(font) => (
            smaller(some_cells(size.0) * font.width, MAX_TRANSMIT_PX as int),
            smaller(some_cells(size.1) * font.height, MAX_TRANSMIT_PX as int),
        ),
        None => (some_cells(size.0), some_cells(size.1) * 2),
    }
}

fn pixels(cells: u16, per_cell: u16) -> (r: u32)
    ensures
        r == smaller(some_cells(cells) * per_cell, MAX_TRANSMIT_PX as int),
{
    let n: u64 = if cells < 1 { 1 } else { cells as u64 };
    proof {
        assert(n * per_cell <= 65535 * 65535 && n * per_cell >= 0) by (nonlinear_arith)
            requires
                0 <= n <= 65535,
                0 <= per_cell <= 65535,
        ;
    }
    let all: u64 = n * per_cell as u64;
    if all < MAX_TRANSMIT_PX as u64 {
        all as u32
    } else {
        MAX_TRANSMIT_PX
    }
}

/// Decides how many pixels a surface is rasterized to.
pub fn raster_target(size: (u16, u16), font: Option<FontSize>) -> (r: (u32, u32))
    ensures
        (r.0 as int, r.1 as int) == raster_size(size, font),
{
    match font {
        Some(font) => (pixels(size.0, font.width), pixels(size.1, font.height)),
        None => {
            let cols: u32 = if size.0 < 1 { 1 } else { size.0 as u32 };
            let rows: u32 = if size.1 < 1 { 1 } else { size.1 as u32 };
            (cols, rows * 2)
        },
    }
}

/// A raster is never empty, whatever the surface, on a terminal whose cells have a size.
pub proof fn law_raster_is_never_empty(size: (u16, u16), font: Option<FontSize>)
    requires
        font matches Some(f) ==> f.width > 0 && f.height > 0,
    ensures
        raster_size(size, font).0 > 0,
        raster_size(size, font).1 > 0,
{
    if let Some(f) = font {
        assert(some_cells(size.0) * f.width >= 1) by (nonlinear_arith)
            requires
                some_cells(size.0) >= 1,
                f.width >= 1,
        ;
        assert(some_cells(size.1) * f.height >= 1) by (nonlinear_arith)
            requires
                some_cells(size.1) >= 1,
                f.height >= 1,
        ;
    }
}

// ---- The life of a surface --------------------------------------------------------

/// What is known of a surface that the host rasterizes.
#[derive(Clone, Copy, Debug, PartialEq, Eq)]
pub struct GpuState {
    /// Whether the host has a session for it.
    pub started: bool,
    /// Whether it could not be rasterized.
    pub failed: bool,
    /// Whether it is counted among the running animations.
    pub animating: bool,
    /// The size of the raster, once there is one.
    pub raster: Option<(u32, u32)>,
    /// The transmitted image, and the cells that it was placed on last.
    pub image: Option<(KittyImage, (u16, u16))>,
    /// The cells that the raster was last encoded for as a whole image.
    pub encoded: Option<(u16, u16)>,
}

/// What has to be sent so that an image shows on some cells.
#[derive(Clone, Copy, Debug, PartialEq, Eq)]
pub enum ImageCommand {
    /// Nothing: it shows there already.
    Keep,
    /// A new placement; the pixels stay.
    Place(KittyImage),
    /// The pixels and a placement.
    Create(KittyImage),
}

impl GpuState {
    /// A surface that was never drawn, as a value.
    pub open spec fn idle() -> GpuState {
        GpuState {
            started: false,
            failed: false,
            animating: false,
            raster: None,
            image: None,
            encoded: None,
        }
    }

    /// The surface once a draw is prepared, and whether the host has to start a session.
    pub open spec fn prepared(self, available: bool) -> (GpuState, bool) {
        (
            GpuState { failed: self.failed || (!self.started && !available), ..self },
            !self.started && !self.failed && available,
        )
    }

    /// The surface once the host tried to start its session.
    pub open spec fn session_noted(self, ok: bool) -> GpuState {
        GpuState { started: self.started || ok, failed: self.failed || !ok, ..self }
    }

    /// Whether the host renders a frame now.
    pub open spec fn renders(self, asked: bool, replaceable: bool) -> bool {
        self.started && asked && (replaceable || self.raster is None)
    }

    /// The surface once the host read a frame back, or could not, and the image that the pixels
    /// go to.
    pub open spec fn frame_noted(self, size: Option<(u32, u32)>) -> (
        GpuState,
        Option<(KittyImage, (u16, u16))>,
    ) {
        match size {
            Some(_) => (GpuState { raster: size, ..self }, self.image),
            None => (GpuState { failed: true, ..self }, None),
        }
    }

    /// The surface once the host encoded its raster for `size` cells, or could not.
    pub open spec fn encode_noted(self, size: (u16, u16), ok: bool) -> GpuState {
        GpuState {
            encoded: if ok {
                Some(size)
            } else {
                self.encoded
            },
            ..self
        }
    }

    /// A surface that was never drawn.
    pub fn new() -> (r: GpuState)
        ensures
            r == GpuState::idle(),
            r == (GpuState {
                started: false,
                failed: false,
                animating: false,
                raster: None,
                image: None,
                encoded: None,
            }),
    {
        GpuState {
            started: false,
            failed: false,
            animating: false,
            raster: None,
            image: None,
            encoded: None,
        }
    }

    /// Prepares a draw; `true` where the host has to start a session now. Without a GPU
    /// nothing can be rasterized, now or later.
    pub fn prepare(&mut self, available: bool) -> (r: bool)
        ensures
            (*final(self), r) == old(self).prepared(available),
            r == (!old(self).started && !old(self).failed && available),
            *final(self) == (GpuState {
                failed: old(self).failed || (!old(self).started && !available),
                ..*old(self)
            }),
    {
        if self.started || self.failed {
            return false;
        }
        if !available {
            self.failed = true;
        }
        available
    }

    /// Notes whether the host could start its session.
    pub fn note_start(&mut self, ok: bool)
        ensures
            *final(self) == old(self).session_noted(ok),
            *final(self) == (GpuState {
                started: old(self).started || ok,
                failed: old(self).failed || !ok,
                ..*old(self)
            }),
    {
        if ok {
            self.started = true;
        } else {
            self.failed = true;
        }
    }

    /// Whether the host renders a frame now: the session asks for it, and pixels can be
    /// replaced on screen, or there are none yet.
    pub fn wants_frame(&self, asked: bool, replaceable: bool) -> (r: bool)
        ensures
            r == self.renders(asked, replaceable),
            r == (self.started && asked && (replaceable || self.raster is None)),
    {
        self.started && asked && (replaceable || self.raster.is_none())
    }

    /// Notes the frame that the host read back, if it could; returns the image that the
    /// pixels have to be sent to again, with its cells.
    pub fn note_frame(&mut self, size: Option<(u32, u32)>) -> (r: Option<(KittyImage, (u16, u16))>)
        ensures
            (*final(self), r) == old(self).frame_noted(size),
            match size {
                Some(_) => r == old(self).image && *final(self) == (GpuState {
                    raster: size,
                    ..*old(self)
                }),
                None => r is None && *final(self) == (GpuState { failed: true, ..*old(self) }),
            },
    {
        match size {
            Some(_) => {
                self.raster = size;
                self.image
            },
            None => {
                self.failed = true;
                None
            },
        }
    }

    /// Whether there is a raster that was not encoded for `size` cells last.
    pub open spec fn encode_is_due(self, size: (u16, u16)) -> bool {
        self.raster is Some && self.encoded != Some(size)
    }

    /// Whether the host encodes the raster as a whole image on `size` cells now: there is a
    /// raster, and it was not encoded for these cells last. A later frame does not make it due;
    /// such an image keeps the frame that it was encoded from.
    pub fn encode_due(&self, size: (u16, u16)) -> (r: bool)
        ensures
            r == self.encode_is_due(size),
    {
        match (self.raster, self.encoded) {
            (Some(_), Some(cells)) => cells.0 != size.0 || cells.1 != size.1,
            (Some(_), None) => true,
            _ => false,
        }
    }

    /// Notes that the host encoded the raster for `size` cells, if it could.
    pub fn note_encoded(&mut self, size: (u16, u16), ok: bool)
        ensures
            *final(self) == old(self).encode_noted(size, ok),
            *final(self) == (GpuState {
                encoded: if ok {
                    Some(size)
                } else {
                    old(self).encoded
                },
                ..*old(self)
            }),
    {
        if ok {
            self.encoded = Some(size);
        }
    }

    /// The surface once its raster is bound to some cells, and what has to be sent for it.
    pub open spec fn placed(self, id: u32, raster: (u32, u32), cells: (u16, u16)) -> (
        GpuState,
        ImageCommand,
    ) {
        match self.image {
            Some((image, at)) => (
                GpuState { image: Some((image, cells)), ..self },
                if at == cells {
                    ImageCommand::Keep
                } else {
                    ImageCommand::Place(image)
                },
            ),
            None => {
                let image = KittyImage { id, width: raster.0, height: raster.1 };
                (
                    GpuState { image: Some((image, cells)), ..self },
                    ImageCommand::Create(image),
                )
            },
        }
    }

    /// Binds the raster to some cells. `id` is the image id that a new image gets. A
    /// change of the cells moves the placement and never sends pixels.
    pub fn place_image(&mut self, id: u32, raster: (u32, u32), cells: (u16, u16)) -> (r: ImageCommand)
        ensures
            (*final(self), r) == old(self).placed(id, raster, cells),
    {
        match self.image {
            Some((image, at)) => {
                self.image = Some((image, cells));
                if at.0 == cells.0 && at.1 == cells.1 {
                    ImageCommand::Keep
                } else {
                    ImageCommand::Place(image)
                }
            },
            None => {
                let image = KittyImage::new(id, raster.0, raster.1);
                self.image = Some((image, cells));
                ImageCommand::Create(image)
            },
        }
    }
}

// ---- Drawing ----------------------------------------------------------------------

/// How a surface gets on screen.
#[derive(Clone, Copy, Debug, PartialEq, Eq, Structural)]
pub enum Route {
    /// There are no pixels; a marker stands for them.
    Marker,
    /// As placeholders of a transmitted image.
    Placeholders,
    /// As an image, which cannot be cut.
    WholeImage,
    /// As half blocks, two pixels in each cell.
    HalfBlocks,
}

/// The way that a surface of `size` cells at `origin` takes, of which `area` is visible:
/// placeholders scroll and clip like text, where there is a channel to transmit images
/// over; other images show only as a whole.
pub open spec fn way(
    ready: bool,
    protocol: Option<Protocol>,
    channel: bool,
    origin: (i32, i32),
    size: (u16, u16),
    area: CellRect,
) -> Route {
    if !ready {
        Route::Marker
    } else if protocol == Some(Protocol::Kitty) && channel {
        Route::Placeholders
    } else if protocol is Some && origin.0 == area.x && origin.1 == area.y && size.0 == area.width
        && size.1 == area.height {
        Route::WholeImage
    } else {
        Route::HalfBlocks
    }
}

/// Decides how a surface gets on screen.
pub fn route(
    ready: bool,
    protocol: Option<Protocol>,
    channel: bool,
    origin: (i32, i32),
    size: (u16, u16),
    area: CellRect,
) -> (r: Route)
    ensures
        r == way(ready, protocol, channel, origin, size, area),
{
    if !ready {
        return Route::Marker;
    }
    match protocol {
        Some(Protocol::Kitty) => {
            if channel {
                return Route::Placeholders;
            }
        },
        Some(_) => {},
        None => {
            return Route::HalfBlocks;
        },
    }
    if origin.0 == area.x as i32 && origin.1 == area.y as i32 && size.0 == area.width && size.1
        == area.height {
        Route::WholeImage
    } else {
        Route::HalfBlocks
    }
}

impl GpuState {
    /// The surface once it is drawn on `area`, how it gets on screen, and what has to be sent.
    pub open spec fn drawn_on(
        self,
        channel: Option<u32>,
        protocol: Option<Protocol>,
        origin: (i32, i32),
        size: (u16, u16),
        area: CellRect,
    ) -> (GpuState, (Route, ImageCommand)) {
        let taken = way(self.raster is Some, protocol, channel is Some, origin, size, area);
        if taken == Route::Placeholders {
            let (after, command) = self.placed(channel->0, self.raster->0, size);
            (after, (taken, command))
        } else {
            (self, (taken, ImageCommand::Keep))
        }
    }

    /// Decides how the surface gets on screen, and binds its image to the cells where it is
    /// shown as placeholders. `channel` holds the id that a new image gets, where images can
    /// be transmitted.
    pub fn draw(
        &mut self,
        channel: Option<u32>,
        protocol: Option<Protocol>,
        origin: (i32, i32),
        size: (u16, u16),
        area: CellRect,
    ) -> (r: (Route, ImageCommand))
        ensures
            (*final(self), r) == old(self).drawn_on(channel, protocol, origin, size, area),
            r.0 == way(
                old(self).raster is Some,
                protocol,
                channel is Some,
                origin,
                size,
                area,
            ),
            (*final(self), r.1) == (if r.0 == Route::Placeholders {
                old(self).placed(channel->0, old(self).raster->0, size)
            } else {
                (*old(self), ImageCommand::Keep)
            }),
    {
        let ready = self.raster.is_some();
        let taken = route(ready, protocol, channel.is_some(), origin, size, area);
        match (taken, channel, self.raster) {
            (Route::Placeholders, Some(id), Some(raster)) => {
                (taken, self.place_image(id, raster, size))
            },
            _ => (taken, ImageCommand::Keep),
        }
    }
}

/// A surface that was placed where it is shows without anything being sent, and its pixels
/// are sent once only, however often it is drawn and wherever it moves.
pub proof fn law_pixels_are_sent_once(
    state: GpuState,
    ids: (u32, u32),
    raster: (u32, u32),
    first: (u16, u16),
    second: (u16, u16),
)
    ensures
        ({
            let (shown, _) = state.placed(ids.0, raster, first);
            &&& shown.placed(ids.1, raster, first) == (shown, ImageCommand::Keep)
            &&& !(shown.placed(ids.1, raster, second).1 is Create)
        }),
{
}

/// A surface that was encoded for some cells is not encoded for them again, whatever frames
/// follow, and is encoded anew for others.
pub proof fn law_encoded_once_for_each_size(
    state: GpuState,
    frame: Option<(u32, u32)>,
    first: (u16, u16),
    second: (u16, u16),
)
    requires
        state.raster is Some,
        frame is Some,
    ensures
        ({
            let after = GpuState { encoded: Some(first), raster: frame, ..state };
            &&& !after.encode_is_due(first)
            &&& first != second ==> after.encode_is_due(second)
        }),
{
}

/// How many cells lie before the visible ones.
pub open spec fn cells_before(visible: u16, origin: i32) -> u16 {
    if 0 <= visible - origin <= u16::MAX {
        (visible - origin) as u16
    } else {
        0
    }
}

/// Counts the columns and rows of a surface that lie before its visible part.
pub fn skipped_cells(area: CellRect, origin: (i32, i32)) -> (r: (u16, u16))
    ensures
        r == (cells_before(area.x, origin.0), cells_before(area.y, origin.1)),
{
    let dx: i64 = area.x as i64 - origin.0 as i64;
    let dy: i64 = area.y as i64 - origin.1 as i64;
    (
        if 0 <= dx && dx <= u16::MAX as i64 { dx as u16 } else { 0 },
        if 0 <= dy && dy <= u16::MAX as i64 { dy as u16 } else { 0 },
    )
}

/// The pixel under the middle of part `2 * at + 1` out of `2 * parts`, along a side of
/// `length` pixels.
pub open spec fn middle_pixel(at: int, parts: int, length: int) -> int {
    smaller((2 * at + 1) * length / (2 * parts), length - 1)
}

fn pixel_at(at: u32, parts: u32, length: u32) -> (r: u32)
    requires
        at < parts <= 131070,
        0 < length,
    ensures
        r == middle_pixel(at as int, parts as int, length as int),
        r < length,
{
    let odd: u64 = 2 * at as u64 + 1;
    let whole: u64 = 2 * parts as u64;
    proof {
        assert(0 <= odd * length <= 262139 * 0xffff_ffff) by (nonlinear_arith)
            requires
                0 <= odd <= 262139,
                0 <= length <= 0xffff_ffff,
        ;
    }
    let found: u64 = odd * length as u64 / whole;
    if found < length as u64 - 1 {
        found as u32
    } else {
        length - 1
    }
}

/// The column and the two rows of the pixels that the cell at column `dx` and row `dy` of
/// a surface of `size` cells shows.
pub fn cell_pixels(dx: u16, dy: u16, size: (u16, u16), raster: (u32, u32)) -> (r: (u32, u32, u32))
    requires
        dx < size.0,
        dy < size.1,
        raster.0 > 0,
        raster.1 > 0,
    ensures
        r.0 == middle_pixel(dx as int, size.0 as int, raster.0 as int),
        r.1 == middle_pixel(2 * dy, 2 * size.1, raster.1 as int),
        r.2 == middle_pixel(2 * dy + 1, 2 * size.1, raster.1 as int),
        r.0 < raster.0,
        r.1 < raster.1,
        r.2 < raster.1,
{
    let rows: u32 = 2 * size.1 as u32;
    (
        pixel_at(dx as u32, size.0 as u32, raster.0),
        pixel_at(2 * dy as u32, rows, raster.1),
        pixel_at(2 * dy as u32 + 1, rows, raster.1),
    )
}

/// A raster of one pixel for each column and two for each row is shown pixel by pixel.
pub proof fn law_native_raster_is_exact(dx: u16, dy: u16, size: (u16, u16))
    requires
        dx < size.0,
        dy < size.1,
    ensures
        middle_pixel(dx as int, size.0 as int, size.0 as int) == dx,
        middle_pixel(2 * dy, 2 * size.1, 2 * size.1) == 2 * dy,
        middle_pixel(2 * dy + 1, 2 * size.1, 2 * size.1) == 2 * dy + 1,
{
    lemma_exact(dx as int, size.0 as int);
    lemma_exact(2 * dy, 2 * size.1);
    lemma_exact(2 * dy + 1, 2 * size.1);
}

proof fn lemma_exact(at: int, parts: int)
    requires
        0 <= at < parts,
    ensures
        (2 * at + 1) * parts / (2 * parts) == at,
{
    assert((2 * at + 1) * parts == at * (2 * parts) + parts) by (nonlinear_arith);
    vstd::arithmetic::div_mod::lemma_fundamental_div_mod_converse(
        (2 * at + 1) * parts,
        2 * parts,
        at,
        parts,
    );
}

// ---- Half blocks ------------------------------------------------------------------

/// One channel of a pixel over the channel underneath, to the nearest step.
pub open spec fn blended(channel: u8, alpha: u8, under: u8) -> int {
    (channel * alpha + under * (255 - alpha) + 127) / 255
}

fn blend(channel: u8, alpha: u8, under: u8) -> (r: u8)
    ensures
        r == blended(channel, alpha, under),
{
    let rest: u8 = 255 - alpha;
    proof {
        assert(0 <= channel * alpha && 0 <= under * rest && channel * alpha + under * rest <= 65025)
            by (nonlinear_arith)
            requires
                0 <= channel <= 255,
                0 <= under <= 255,
                0 <= alpha <= 255,
                rest == 255 - alpha,
        ;
        assert(channel * alpha <= 65025 && under * rest <= 65025);
    }
    ((channel as u32 * alpha as u32 + under as u32 * rest as u32 + 127) / 255) as u8
}

/// The color of a pixel over a color underneath.
pub open spec fn over(rgba: (u8, u8, u8, u8), under: (u8, u8, u8)) -> CellColor {
    CellColor::Rgb(
        blended(rgba.0, rgba.3, under.0) as u8,
        blended(rgba.1, rgba.3, under.1) as u8,
        blended(rgba.2, rgba.3, under.2) as u8,
    )
}

/// Composites a pixel over the color underneath.
pub fn composite(rgba: (u8, u8, u8, u8), under: (u8, u8, u8)) -> (r: CellColor)
    ensures
        r == over(rgba, under),
{
    CellColor::Rgb(
        blend(rgba.0, rgba.3, under.0),
        blend(rgba.1, rgba.3, under.1),
        blend(rgba.2, rgba.3, under.2),
    )
}

/// A pixel that lets nothing through hides what is underneath, and one that lets
/// everything through leaves it.
pub proof fn law_opaque_covers_and_clear_shows(
    r: u8,
    g: u8,
    b: u8,
    under: (u8, u8, u8),
)
    ensures
        over((r, g, b, 255), under) == CellColor::Rgb(r, g, b),
        over((r, g, b, 0), under) == CellColor::Rgb(under.0, under.1, under.2),
{
    lemma_blend_ends(r, under.0);
    lemma_blend_ends(g, under.1);
    lemma_blend_ends(b, under.2);
}

proof fn lemma_blend_ends(channel: u8, under: u8)
    ensures
        blended(channel, 255, under) == channel,
        blended(channel, 0, under) == under,
{
    let none = 255 - 255u8;
    assert(under * none == 0) by (nonlinear_arith)
        requires
            none == 0,
    ;
    assert(channel * 0u8 == 0) by (nonlinear_arith);
    assert(under * (255 - 0u8) == under * 255);
}

/// The pixel in column `x` and row `y` of a raster with rows of `width` pixels.
pub open spec fn pixel(rgba: Seq<u8>, width: u32, x: int, y: int) -> (u8, u8, u8, u8) {
    let at = 4 * (y * width + x);
    (rgba[at], rgba[at + 1], rgba[at + 2], rgba[at + 3])
}

fn read_pixel(rgba: &Vec<u8>, raster: (u32, u32), x: u32, y: u32) -> (r: (u8, u8, u8, u8))
    requires
        x < raster.0,
        y < raster.1,
        rgba@.len() == 4 * (raster.0 * raster.1),
    ensures
        r == pixel(rgba@, raster.0, x as int, y as int),
{
    assert(rgba.len() == rgba@.len());
    proof {
        let w = raster.0 as int;
        let h = raster.1 as int;
        assert(0 <= y * w && y * w + x < w * h) by (nonlinear_arith)
            requires
                0 <= x < w,
                0 <= y < h,
        ;
    }
    let at: usize = 4 * (y as usize * raster.0 as usize + x as usize);
    (rgba[at], rgba[at + 1], rgba[at + 2], rgba[at + 3])
}

/// The colors of both halves of cell `i` of `area`, which shows a part of a surface of
/// `size` cells from the signed `origin`.
pub open spec fn cell_colors(
    rgba: Seq<u8>,
    raster: (u32, u32),
    origin: (i32, i32),
    size: (u16, u16),
    area: CellRect,
    i: int,
    under: (u8, u8, u8),
) -> (CellColor, CellColor) {
    let dx = area.x + i % (area.width as int) - origin.0;
    let dy = area.y + i / (area.width as int) - origin.1;
    let x = middle_pixel(dx, size.0 as int, raster.0 as int);
    let upper = middle_pixel(2 * dy, 2 * size.1, raster.1 as int);
    let lower = middle_pixel(2 * dy + 1, 2 * size.1, raster.1 as int);
    (over(pixel(rgba, raster.0, x, upper), under), over(pixel(rgba, raster.0, x, lower), under))
}

/// Picks the colors of the cells of `area`, row by row, from the pixels of a surface.
/// `under` holds the colors underneath, in the same order.
pub fn surface_colors(
    rgba: &Vec<u8>,
    raster: (u32, u32),
    origin: (i32, i32),
    size: (u16, u16),
    area: CellRect,
    under: &Vec<(u8, u8, u8)>,
) -> (r: Vec<(CellColor, CellColor)>)
    requires
        raster.0 > 0,
        raster.1 > 0,
        rgba@.len() == 4 * (raster.0 * raster.1),
        origin.0 <= area.x,
        area.x + area.width <= origin.0 + size.0,
        origin.1 <= area.y,
        area.y + area.height <= origin.1 + size.1,
        under@.len() == area.width * area.height,
    ensures
        r@.len() == area.width * area.height,
        forall|i: int|
            0 <= i < r@.len() ==> #[trigger] r@[i] == cell_colors(
                rgba@,
                raster,
                origin,
                size,
                area,
                i,
                under@[i],
            ),
{
    let mut colors: Vec<(CellColor, CellColor)> = Vec::new();
    let mut row: u16 = 0;
    while row < area.height
        invariant
            row <= area.height,
            raster.0 > 0,
            raster.1 > 0,
            rgba@.len() == 4 * (raster.0 * raster.1),
            origin.0 <= area.x,
            area.x + area.width <= origin.0 + size.0,
            origin.1 <= area.y,
            area.y + area.height <= origin.1 + size.1,
            under@.len() == area.width * area.height,
            colors@.len() == row * area.width,
            forall|i: int|
                0 <= i < colors@.len() ==> #[trigger] colors@[i] == cell_colors(
                    rgba@,
                    raster,
                    origin,
                    size,
                    area,
                    i,
                    under@[i],
                ),
        decreases area.height - row,
    {
        let mut col: u16 = 0;
        while col < area.width
            invariant
                row < area.height,
                col <= area.width,
                raster.0 > 0,
                raster.1 > 0,
                rgba@.len() == 4 * (raster.0 * raster.1),
                origin.0 <= area.x,
                area.x + area.width <= origin.0 + size.0,
                origin.1 <= area.y,
                area.y + area.height <= origin.1 + size.1,
                under@.len() == area.width * area.height,
                colors@.len() == row * area.width + col,
                forall|i: int|
                    0 <= i < colors@.len() ==> #[trigger] colors@[i] == cell_colors(
                        rgba@,
                        raster,
                        origin,
                        size,
                        area,
                        i,
                        under@[i],
                    ),
            decreases area.width - col,
        {
            proof {
                lemma_cell_index(area, area.x + col, area.y + row);
                lemma_cell_position(area, area.x + col, area.y + row);
                assert(cell_index(area, area.x + col, area.y + row) == colors@.len());
            }
            let dx: u16 = (area.x as i64 + col as i64 - origin.0 as i64) as u16;
            let dy: u16 = (area.y as i64 + row as i64 - origin.1 as i64) as u16;
            let (x, upper, lower) = cell_pixels(dx, dy, size, raster);
            let below: (u8, u8, u8) = under[colors.len()];
            let first = composite(read_pixel(rgba, raster, x, upper), below);
            let second = composite(read_pixel(rgba, raster, x, lower), below);
            colors.push((first, second));
            col = col + 1;
        }
        assert((row + 1) * area.width == row * area.width + area.width) by (nonlinear_arith);
        row = row + 1;
    }
    assert(row * area.width == area.width * area.height) by (nonlinear_arith)
        requires
            row == area.height,
    ;
    colors
}

/// The half block in cell `i` of `area`: the upper half in the foreground, the lower one in
/// the background.
pub open spec fn half_block(area: CellRect, i: int, colors: (CellColor, CellColor)) -> PaintView {
    glyphs(
        (area.x + i % (area.width as int)) as u16,
        (area.y + i / (area.width as int)) as u16,
        "\u{2580}"@,
        1,
        CellStyle { fg: Some(colors.0), bg: Some(colors.1), modifiers: 0 },
    )
}

/// Draws the colors of both halves of each cell of `area`, row by row.
pub fn half_blocks(area: CellRect, colors: &Vec<(CellColor, CellColor)>) -> (r: Vec<Paint>)
    requires
        area.wf(),
        colors@.len() == area.width * area.height,
    ensures
        paints_view(r@) == Seq::new(
            colors@.len(),
            |i: int| half_block(area, i, colors@[i]),
        ),
{
    let mut list: Vec<Paint> = Vec::new();
    let mut row: u16 = 0;
    while row < area.height
        invariant
            area.wf(),
            row <= area.height,
            colors@.len() == area.width * area.height,
            paints_view(list@).len() == row * area.width,
            forall|i: int|
                0 <= i < paints_view(list@).len() ==> #[trigger] paints_view(list@)[i] == half_block(
                    area,
                    i,
                    colors@[i],
                ),
        decreases area.height - row,
    {
        let mut col: u16 = 0;
        while col < area.width
            invariant
                area.wf(),
                row < area.height,
                col <= area.width,
                colors@.len() == area.width * area.height,
                paints_view(list@).len() == row * area.width + col,
                forall|i: int|
                    0 <= i < paints_view(list@).len() ==> #[trigger] paints_view(list@)[i]
                        == half_block(area, i, colors@[i]),
            decreases area.width - col,
        {
            proof {
                lemma_cell_index(area, area.x + col, area.y + row);
                lemma_cell_position(area, area.x + col, area.y + row);
                assert(cell_index(area, area.x + col, area.y + row) == list@.len());
            }
            let pair = colors[list.len()];
            let style = CellStyle::new().fg(pair.0).bg(pair.1);
            emit_text(&mut list, area.x + col, area.y + row, "\u{2580}", 1, style);
            col = col + 1;
        }
        assert((row + 1) * area.width == row * area.width + area.width) by (nonlinear_arith);
        row = row + 1;
    }
    assert(row * area.width == area.width * area.height) by (nonlinear_arith)
        requires
            row == area.height,
    ;
    assert(paints_view(list@) =~= Seq::new(
        colors@.len(),
        |i: int| half_block(area, i, colors@[i]),
    ));
    list
}

} // verus!
