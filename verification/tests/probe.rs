//! What a terminal is asked, and what its answers say.

use ratatui::buffer::Buffer;
use ratatui::layout::Rect;
use ratatui::style::Color;
use waterui_tui::geometry::CellRect;
use waterui_tui::gpu::{
    cell_pixels, composite, half_blocks, raster_target, route, skipped_cells, surface_colors, GpuState,
    ImageCommand, Route,
};
use waterui_tui::kitty::KittyImage;
use waterui_tui::paint::paint_all;
use waterui_tui::probe::{
    capabilities, is_complete, parse_number, query_bytes, responses, with_iterm, Capabilities,
    FontSize, Protocol,
};
use waterui_tui::style::CellColor;

fn said(answer: &[u8]) -> Capabilities {
    capabilities(&responses(&answer.to_vec()))
}

#[test]
fn query_is_wrapped_for_a_multiplexer() {
    let plain = query_bytes(false);
    assert_eq!(
        plain,
        b"\x1b_Gi=31,s=1,v=1,a=q,t=d,f=24;AAAA\x1b\\\x1b[c\x1b[16t\x1b[5n"
    );
    let wrapped = query_bytes(true);
    assert_eq!(
        wrapped,
        b"\x1bPtmux;\x1b\x1b_Gi=31,s=1,v=1,a=q,t=d,f=24;AAAA\x1b\x1b\\\x1b\x1b[c\x1b\x1b[16t\x1b\x1b[5n\x1b\\"
    );
}

#[test]
fn answer_ends_with_the_status_report() {
    assert!(!is_complete(&b"\x1b[?62;4c".to_vec()));
    assert!(!is_complete(&b"\x1b[0".to_vec()));
    assert!(is_complete(&b"\x1b[?62;4c\x1b[0n".to_vec()));
    assert!(is_complete(&b"\x1b[0nmore".to_vec()));
    assert!(!is_complete(&Vec::new()));
}

#[test]
fn responses_are_cut_at_escapes() {
    assert_eq!(
        responses(&b"\x1b_Gi=31;OK\x1b\\\x1b\x1b[0n".to_vec()),
        vec![b"_Gi=31;OK".to_vec(), b"\\".to_vec(), b"[0n".to_vec()]
    );
    assert!(responses(&Vec::new()).is_empty());
}

#[test]
fn graphics_and_cell_size_are_recognized() {
    assert_eq!(
        said(b"\x1b_Gi=31;OK\x1b\\\x1b[?62;4;22c\x1b[6;18;9t\x1b[0n"),
        Capabilities {
            protocol: Some(Protocol::Kitty),
            font: Some(FontSize { width: 9, height: 18 }),
        }
    );
    assert_eq!(
        said(b"\x1b_Gi=31;ENODATA\x1b\\\x1b[?62;4;22c\x1b[0n").protocol,
        Some(Protocol::Sixel)
    );
    assert_eq!(said(b"\x1b[?4c").protocol, Some(Protocol::Sixel));
    // 44 is another attribute.
    assert_eq!(said(b"\x1b[?62;44c\x1b[0n").protocol, None);
    assert_eq!(said(b"\x1b[?c").protocol, None);
    assert_eq!(said(b""), Capabilities { protocol: None, font: None });
}

#[test]
fn broken_cell_sizes_are_passed_over() {
    assert_eq!(said(b"\x1b[6;0;9t").font, None);
    assert_eq!(said(b"\x1b[6;18t").font, None);
    assert_eq!(said(b"\x1b[6;a;9t").font, None);
    assert_eq!(said(b"\x1b[6;t").font, None);
    assert_eq!(
        said(b"\x1b[6;x;9t\x1b[6;20;10t\x1b[6;1;1t").font,
        Some(FontSize { width: 10, height: 20 })
    );
}

#[test]
fn numbers_have_a_limit() {
    assert_eq!(parse_number(&b"0".to_vec()), Some(0));
    assert_eq!(parse_number(&b"+12".to_vec()), Some(12));
    assert_eq!(parse_number(&b"65535".to_vec()), Some(65535));
    assert_eq!(parse_number(&b"65536".to_vec()), None);
    assert_eq!(parse_number(&b"00000000012".to_vec()), Some(12));
    assert_eq!(parse_number(&b"".to_vec()), None);
    assert_eq!(parse_number(&b"+".to_vec()), None);
    assert_eq!(parse_number(&b"-1".to_vec()), None);
}

#[test]
fn raster_follows_the_cells() {
    let font = Some(FontSize { width: 10, height: 20 });
    assert_eq!(raster_target((30, 4), font), (300, 80));
    assert_eq!(raster_target((300, 0), font), (1024, 20));
    assert_eq!(raster_target((30, 4), None), (30, 8));
    assert_eq!(raster_target((0, 0), None), (1, 2));
}

#[test]
fn surface_starts_once_and_places_once() {
    let mut state = GpuState::new();
    assert!(state.prepare(true));
    state.note_start(true);
    assert!(!state.prepare(true));
    assert!(state.wants_frame(true, false));
    assert_eq!(state.note_frame(Some((8, 8))), None);
    assert!(!state.wants_frame(true, false), "a static surface keeps its first frame");
    assert!(state.wants_frame(true, true));

    let image = KittyImage::new(5, 8, 8);
    assert_eq!(state.place_image(5, (8, 8), (4, 2)), ImageCommand::Create(image));
    assert_eq!(state.place_image(6, (8, 8), (4, 2)), ImageCommand::Keep);
    assert_eq!(state.place_image(6, (8, 8), (5, 2)), ImageCommand::Place(image));
    assert_eq!(state.note_frame(Some((8, 8))), Some((image, (5, 2))));
    assert_eq!(state.note_frame(None), None);
    assert!(state.failed);

    let mut missing = GpuState::new();
    assert!(!missing.prepare(false));
    assert!(missing.failed);
    assert!(!missing.prepare(true));
}

#[test]
fn surfaces_take_the_way_that_the_terminal_offers() {
    let area = CellRect::new(2, 3, 4, 5);
    let whole = (2, 3);
    let size = (4, 5);
    assert_eq!(route(false, None, true, whole, size, area), Route::Marker);
    assert_eq!(route(true, Some(Protocol::Kitty), true, (0, -1), size, area), Route::Placeholders);
    assert_eq!(route(true, Some(Protocol::Kitty), false, whole, size, area), Route::WholeImage);
    assert_eq!(route(true, Some(Protocol::Sixel), true, whole, size, area), Route::WholeImage);
    assert_eq!(route(true, Some(Protocol::Iterm2), true, (2, 2), size, area), Route::HalfBlocks);
    assert_eq!(route(true, None, true, whole, size, area), Route::HalfBlocks);
    assert_eq!(skipped_cells(area, (0, -4)), (2, 7));
    assert_eq!(skipped_cells(area, (5, 3)), (0, 0));
}

#[test]
fn cells_show_the_pixels_under_their_middles() {
    assert_eq!(cell_pixels(3, 1, (4, 2), (4, 4)), (3, 2, 3));
    assert_eq!(cell_pixels(0, 0, (2, 1), (8, 8)), (2, 2, 6));
    assert_eq!(cell_pixels(1, 0, (2, 1), (1, 1)), (0, 0, 0));
}

/// A surface of four by two cells that was rasterized all red, on a terminal without
/// graphics.
#[test]
fn gpu_surface_rasterizes_into_half_blocks() {
    let area = CellRect::new(0, 0, 4, 2);
    let raster = raster_target((4, 2), None);
    let rgba = [255, 0, 0, 255].repeat((raster.0 * raster.1) as usize);
    let mut state = GpuState::new();
    assert!(state.prepare(true));
    state.note_start(true);
    state.note_frame(Some(raster));
    assert_eq!(
        state.draw(None, None, (0, 0), (4, 2), area),
        (Route::HalfBlocks, ImageCommand::Keep)
    );
    let colors = surface_colors(&rgba, raster, (0, 0), (4, 2), area, &vec![(24, 24, 28); 8]);
    let mut buf = Buffer::empty(Rect::new(0, 0, 4, 2));
    paint_all(&mut buf, &half_blocks(area, &colors));
    let cell = buf.cell((0, 0)).unwrap();
    assert_eq!(cell.symbol(), "\u{2580}", "expected half-block image cell");
    let Color::Rgb(r, g, b) = cell.fg else {
        panic!("expected truecolor pixel");
    };
    assert!(r > 200 && g < 60 && b < 60, "expected red pixel: {r}/{g}/{b}");
    assert_eq!(buf.cell((3, 1)).unwrap().bg, Color::Rgb(255, 0, 0));
}

#[test]
fn visible_part_of_a_surface_keeps_its_place() {
    // Four columns and four rows of pixels, each with its column and row as its color, on
    // four by two cells of which the right half of the lower row is visible.
    let mut rgba = Vec::new();
    for y in 0..4 {
        for x in 0..4 {
            rgba.extend([x, y, 0, 255]);
        }
    }
    let area = CellRect::new(1, 0, 2, 1);
    let colors = surface_colors(&rgba, (4, 4), (-1, -1), (4, 2), area, &vec![(0, 0, 0); 2]);
    assert_eq!(
        colors,
        vec![
            (CellColor::Rgb(2, 2, 0), CellColor::Rgb(2, 3, 0)),
            (CellColor::Rgb(3, 2, 0), CellColor::Rgb(3, 3, 0)),
        ]
    );
}

#[test]
fn pixels_are_composited_over_the_cell() {
    assert_eq!(composite((200, 0, 7, 128), (0, 100, 7)), CellColor::Rgb(100, 50, 7));
    assert_eq!(composite((200, 0, 7, 255), (0, 100, 9)), CellColor::Rgb(200, 0, 7));
    assert_eq!(composite((200, 0, 7, 0), (0, 100, 9)), CellColor::Rgb(0, 100, 9));
}

#[test]
fn pixels_are_sent_once() {
    let area = CellRect::new(0, 0, 4, 2);
    let image = KittyImage::new(9, 40, 40);
    let mut state = GpuState::new();
    let kitty = Some(Protocol::Kitty);
    assert_eq!(state.draw(Some(9), kitty, (0, 0), (4, 2), area).0, Route::Marker);
    state.note_frame(Some((40, 40)));
    assert_eq!(
        state.draw(Some(9), kitty, (0, 0), (4, 2), area),
        (Route::Placeholders, ImageCommand::Create(image))
    );
    assert_eq!(state.draw(Some(9), kitty, (0, 5), (4, 2), area).1, ImageCommand::Keep);
    assert_eq!(state.draw(Some(9), kitty, (0, 5), (4, 3), area).1, ImageCommand::Place(image));
}

#[test]
fn iterm_is_known_by_other_means() {
    let font = Some(FontSize { width: 9, height: 18 });
    let silent = Capabilities { protocol: None, font };
    assert_eq!(with_iterm(silent, false), silent);
    assert_eq!(
        with_iterm(silent, true),
        Capabilities { protocol: Some(Protocol::Iterm2), font }
    );
    // A protocol that was announced stays, and without a cell size there is none.
    let kitty = Capabilities { protocol: Some(Protocol::Kitty), font };
    assert_eq!(with_iterm(kitty, true), kitty);
    let unknown = Capabilities { protocol: None, font: None };
    assert_eq!(with_iterm(unknown, true), unknown);
}

#[test]
fn whole_images_are_encoded_once_for_each_size() {
    let mut state = GpuState::new();
    assert!(!state.encode_due((4, 2)));
    state.note_frame(Some((40, 40)));
    assert!(state.encode_due((4, 2)));
    state.note_encoded((4, 2), false);
    assert!(state.encode_due((4, 2)));
    state.note_encoded((4, 2), true);
    assert!(!state.encode_due((4, 2)));
    // Such an image keeps its first frame.
    state.note_frame(Some((40, 40)));
    assert!(!state.encode_due((4, 2)));
    assert!(state.encode_due((4, 3)));
}
