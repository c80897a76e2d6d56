//! Images: what is transmitted, and the cells that bind an image to the grid.

use std::io::Read;

use flate2::read::ZlibDecoder;
use ratatui::buffer::{Buffer, CellDiffOption};
use ratatui::layout::Rect;
use waterui_tui::geometry::CellRect;
use waterui_tui::kitty::{diacritic, draw_placeholders, KittyImage};

/// The payloads of the commands of a transmission, put together, and the control data of
/// each command.
fn payloads(bytes: &[u8]) -> (Vec<String>, String) {
    let text = String::from_utf8(bytes.to_vec()).unwrap();
    let mut controls = Vec::new();
    let mut data = String::new();
    for part in text.split("\x1b_G").skip(1) {
        let body = part.strip_suffix("\x1b\\").unwrap();
        let (control, payload) = body.split_once(';').unwrap();
        controls.push(control.to_owned());
        data.push_str(payload);
        assert!(payload.len() <= 4096);
    }
    (controls, data)
}

fn decoded(data: &str) -> Vec<u8> {
    let raw = base64_simd::STANDARD.decode_to_vec(data).unwrap();
    let mut pixels = Vec::new();
    ZlibDecoder::new(&raw[..]).read_to_end(&mut pixels).unwrap();
    pixels
}

/// Pixels that do not compress.
fn noise(len: usize) -> Vec<u8> {
    let mut state: u32 = 12345;
    (0..len)
        .map(|_| {
            state = state.wrapping_mul(1_664_525).wrapping_add(1_013_904_223);
            (state >> 24) as u8
        })
        .collect()
}

#[test]
fn small_image_takes_one_command() {
    let image = KittyImage::new(42, 2, 1);
    let pixels = [255, 0, 0, 255, 0, 0, 255, 255];
    let (controls, data) = payloads(&image.create(&pixels, 10, 3));
    assert_eq!(controls, vec!["q=2,o=z,f=32,t=d,i=42,a=T,U=1,c=10,r=3,s=2,v=1,m=0"]);
    assert_eq!(decoded(&data), pixels);
}

#[test]
fn large_image_is_cut_and_carries_everything() {
    let image = KittyImage::new(7, 64, 64);
    let pixels = noise(64 * 64 * 4);
    let (controls, data) = payloads(&image.create(&pixels, 8, 4));
    assert!(controls.len() > 1);
    assert_eq!(controls[0], "q=2,o=z,f=32,t=d,i=7,a=T,U=1,c=8,r=4,s=64,v=64,m=1");
    for control in &controls[1..controls.len() - 1] {
        assert_eq!(control, "q=2,o=z,f=32,t=d,i=7,m=1");
    }
    assert_eq!(controls[controls.len() - 1], "q=2,o=z,f=32,t=d,i=7,m=0");
    assert_eq!(decoded(&data), pixels);
}

#[test]
fn frame_recreates_what_create_made() {
    let image = KittyImage::new(1, 4, 4);
    let pixels = noise(64);
    assert_eq!(image.frame(&pixels, 5, 6), image.create(&pixels, 5, 6));
}

#[test]
fn delete_and_placement_carry_no_pixels() {
    let image = KittyImage::new(305, 4, 4);
    assert_eq!(image.delete(), b"\x1b_Ga=d,d=I,i=305;\x1b\\");
    assert_eq!(
        image.resize_placement(12, 7),
        b"\x1b_Gq=2,a=p,U=1,i=305,c=12,r=7;\x1b\\"
    );
}

#[test]
fn encoded_data_is_framed_exactly() {
    let image = KittyImage::new(3, 1, 1);
    assert_eq!(
        image.encode(&vec![0, 0, 0], "a=T"),
        "\x1b_Gq=2,o=z,f=32,t=d,i=3,a=T,s=1,v=1,m=0;AAAA\x1b\\"
    );
    assert_eq!(
        image.encode(&b"Man!".to_vec(), "a=T"),
        "\x1b_Gq=2,o=z,f=32,t=d,i=3,a=T,s=1,v=1,m=0;TWFuIQ==\x1b\\"
    );
    assert_eq!(image.encode(&Vec::new(), "a=T"), "");
}

#[test]
fn marks_start_and_end_as_the_protocol_says() {
    assert_eq!(diacritic(0), '\u{305}');
    assert_eq!(diacritic(1), '\u{30D}');
    assert_eq!(diacritic(296), '\u{1D244}');
    assert_eq!(diacritic(297), '\u{305}');
    assert_eq!(diacritic(u16::MAX), '\u{305}');
}

#[test]
fn placeholders_fill_rows_from_one_cell() {
    let mut buf = Buffer::empty(Rect::new(0, 0, 6, 4));
    let image = KittyImage::new(0x0102_0304, 8, 8);
    draw_placeholders(&image, 3, 2, CellRect::new(1, 1, 4, 3), 5, &mut buf);
    let first = buf.cell((1, 1)).unwrap();
    let row = |r: char| {
        format!(
            "\x1b[s\x1b[38;2;2;3;4m\u{10EEEE}{r}\u{305}\u{30D}\u{10EEEE}\u{10EEEE}\x1b[u\x1b[3C\x1b[2B"
        )
    };
    assert_eq!(first.symbol(), row(diacritic(5)));
    assert!(matches!(first.diff_option, CellDiffOption::ForcedWidth(w) if w.get() == 1));
    assert!(matches!(buf.cell((2, 1)).unwrap().diff_option, CellDiffOption::Skip));
    assert!(matches!(buf.cell((3, 1)).unwrap().diff_option, CellDiffOption::Skip));
    assert!(matches!(buf.cell((4, 1)).unwrap().diff_option, CellDiffOption::None));
    assert_eq!(buf.cell((1, 2)).unwrap().symbol(), row(diacritic(6)));
    assert_eq!(buf.cell((1, 3)).unwrap().symbol(), " ");
    assert_eq!(buf.cell((0, 1)).unwrap().symbol(), " ");
}

#[test]
fn placeholders_outside_of_the_buffer_are_left_out() {
    let mut buf = Buffer::empty(Rect::new(0, 0, 3, 2));
    let image = KittyImage::new(1, 8, 8);
    draw_placeholders(&image, 9, 9, CellRect::new(1, 1, 9, 9), 0, &mut buf);
    assert!(buf.cell((1, 1)).unwrap().symbol().starts_with("\x1b[s"));
    assert!(matches!(buf.cell((2, 1)).unwrap().diff_option, CellDiffOption::Skip));
    assert_eq!(buf.cell((0, 0)).unwrap().symbol(), " ");
    // Rows beyond the last mark cannot be shown.
    let mut buf = Buffer::empty(Rect::new(0, 0, 3, 2));
    draw_placeholders(&image, 9, 9, CellRect::new(0, 0, 3, 2), 296, &mut buf);
    assert!(buf.cell((0, 0)).unwrap().symbol().starts_with("\x1b[s"));
    assert_eq!(buf.cell((0, 1)).unwrap().symbol(), " ");
}

#[test]
fn nothing_takes_a_command_too() {
    let image = KittyImage::new(3, 0, 0);
    let (controls, data) = payloads(&image.create(&[], 1, 1));
    assert_eq!(controls.len(), 1);
    assert!(controls[0].ends_with("m=0"));
    assert!(!data.is_empty());
    assert!(decoded(&data).is_empty());
}

#[test]
fn base64_gives_the_data_back() {
    let image = KittyImage::new(3, 1, 1);
    for len in 1..8 {
        let data = noise(len);
        let (_, text) = payloads(image.encode(&data, "a=T").as_bytes());
        assert_eq!(base64_simd::STANDARD.decode_to_vec(&text).unwrap(), data);
    }
}
