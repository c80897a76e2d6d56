//! Presenting frames on a captured terminal.

use std::cell::RefCell;
use std::io::{self, Write};
use std::rc::Rc;

use ratatui::backend::{Backend, CrosstermBackend, TestBackend};
use ratatui::buffer::Buffer;
use ratatui::layout::Rect;
use waterui_tui::geometry::CellRect;
use waterui_tui::present::{eligible_ops, scroll_buffer_region, Step};
use waterui_tui::scroll::ScrollOp;

/// A writer that is shared with the test, so that emitted bytes can be inspected.
#[derive(Clone, Default)]
struct Capture(Rc<RefCell<Vec<u8>>>);

impl Write for Capture {
    fn write(&mut self, buf: &[u8]) -> io::Result<usize> {
        self.0.borrow_mut().write(buf)
    }
    fn flush(&mut self) -> io::Result<()> {
        self.0.borrow_mut().flush()
    }
}

/// Performs the steps of a frame on a backend.
fn present<B: Backend>(
    backend: &mut B,
    prev: &mut Buffer,
    cur: &Buffer,
    ops: &[ScrollOp],
    cursor: Option<(u16, u16)>,
    resized: bool,
) -> Result<(), B::Error> {
    let area = prev.area;
    let screen = CellRect::new(area.x, area.y, area.width, area.height);
    for step in waterui_tui::present::present(&ops.to_vec(), screen, cursor, resized) {
        match step {
            Step::HideCursor => backend.hide_cursor()?,
            Step::Scroll(region, lines) => {
                let rows = region.y..region.y + region.height;
                if lines > 0 {
                    backend.scroll_region_up(rows, lines as u16)?;
                } else {
                    backend.scroll_region_down(rows, (-lines) as u16)?;
                }
                scroll_buffer_region(prev, region, lines);
            }
            Step::WriteDiff => backend.draw(prev.diff_iter(cur))?,
            Step::ShowCursor(x, y) => {
                backend.set_cursor_position((x, y))?;
                backend.show_cursor()?;
            }
            Step::Flush => backend.flush()?,
        }
    }
    Ok(())
}

fn grid(buf: &mut Buffer, cols: u16, rows: u16) {
    for y in 0..rows {
        for x in 0..cols {
            buf.cell_mut((x, y))
                .unwrap()
                .set_char(char::from_digit(u32::from(y) % 10, 10).unwrap());
        }
    }
}

fn row_text(buf: &Buffer, y: u16) -> String {
    (buf.area.left()..buf.area.right())
        .map(|x| buf.cell((x, y)).unwrap().symbol().chars().next().unwrap())
        .collect()
}

/// Removes control sequences, leaving the printed cell text.
fn strip_csi(out: &str) -> String {
    let mut text = String::new();
    let mut chars = out.chars().peekable();
    while let Some(c) = chars.next() {
        if c == '\u{1b}' && chars.next_if_eq(&'[').is_some() {
            for c in chars.by_ref() {
                if ('\u{40}'..='\u{7e}').contains(&c) {
                    break;
                }
            }
        } else {
            text.push(c);
        }
    }
    text
}

#[test]
fn scroll_buffer_region_up_shifts_and_blanks_tail() {
    let mut buf = Buffer::empty(Rect::new(0, 0, 4, 5));
    grid(&mut buf, 4, 5);
    scroll_buffer_region(&mut buf, CellRect::new(0, 1, 4, 4), 2);
    assert_eq!(row_text(&buf, 0), "0000"); // outside region, untouched
    assert_eq!(row_text(&buf, 1), "3333"); // got row 3
    assert_eq!(row_text(&buf, 2), "4444"); // got row 4
    assert_eq!(row_text(&buf, 3), "    "); // exposed, blanked
    assert_eq!(row_text(&buf, 4), "    ");
}

#[test]
fn scroll_buffer_region_down_shifts_and_blanks_head() {
    let mut buf = Buffer::empty(Rect::new(0, 0, 4, 5));
    grid(&mut buf, 4, 5);
    scroll_buffer_region(&mut buf, CellRect::new(0, 1, 4, 4), -1);
    assert_eq!(row_text(&buf, 1), "    "); // exposed, blanked
    assert_eq!(row_text(&buf, 2), "1111"); // got row 1
    assert_eq!(row_text(&buf, 4), "3333");
}

#[test]
fn present_emits_scroll_and_only_repaints_exposed_rows() {
    let capture = Capture::default();
    let mut backend = CrosstermBackend::new(capture.clone());
    let screen = Rect::new(0, 0, 6, 4);
    let mut prev = Buffer::empty(screen);
    let mut cur = Buffer::empty(screen);
    grid(&mut prev, 6, 4);
    // Current frame = content scrolled up by 1 within the region: row y
    // shows old row y+1, and the bottom row carries brand-new content.
    for y in 0..3 {
        for x in 0..6 {
            let cell = prev.cell((x, y + 1)).unwrap().clone();
            *cur.cell_mut((x, y)).unwrap() = cell;
        }
    }
    for x in 0..6 {
        cur.cell_mut((x, 3)).unwrap().set_char('n');
    }

    present(
        &mut backend,
        &mut prev,
        &cur,
        &[ScrollOp { region: CellRect::new(0, 0, 6, 4), delta: (0, 1) }],
        None,
        false,
    )
    .unwrap();

    let bytes = capture.0.borrow();
    let out = String::from_utf8_lossy(&bytes);
    // DECSTBM rows 1..4, then SU by 1, then reset.
    assert!(
        out.contains("\u{1b}[1;4r\u{1b}[1S\u{1b}[r"),
        "missing scroll seq: {out:?}"
    );
    // prev was rotated to match: only the exposed bottom row diffs.
    for y in 0..3 {
        for x in 0..6 {
            assert_eq!(
                prev.cell((x, y)).unwrap().symbol(),
                cur.cell((x, y)).unwrap().symbol()
            );
        }
    }
    assert_eq!(
        strip_csi(&out),
        "nnnnnn",
        "only the exposed row's cells should be written: {out:?}"
    );
}

#[test]
fn present_skips_partial_width_region() {
    let capture = Capture::default();
    let mut backend = CrosstermBackend::new(capture.clone());
    let mut prev = Buffer::empty(Rect::new(0, 0, 8, 4));
    let cur = Buffer::empty(Rect::new(0, 0, 8, 4));
    grid(&mut prev, 8, 4);

    present(
        &mut backend,
        &mut prev,
        &cur,
        &[ScrollOp { region: CellRect::new(2, 0, 6, 4), delta: (0, 1) }],
        None,
        false,
    )
    .unwrap();

    let bytes = capture.0.borrow();
    let out = String::from_utf8_lossy(&bytes);
    assert!(
        !out.contains("\u{1b}[1;4r") && !out.contains("[1S") && !out.contains("[1T"),
        "scroll seq must not be emitted: {out:?}"
    );
    // prev untouched: the full diff repaints.
    assert_eq!(row_text(&prev, 0), "00000000");
}

fn op(y: u16, height: u16, delta: (i32, i32)) -> ScrollOp {
    ScrollOp { region: CellRect::new(0, y, 10, height), delta }
}

#[test]
fn only_straight_partial_scrolls_of_whole_rows_are_replayed() {
    let screen = CellRect::new(0, 0, 10, 20);
    let ops = vec![
        op(0, 5, (0, 4)),
        op(5, 5, (0, 5)),
        op(10, 5, (1, 1)),
        op(15, 2, (0, 0)),
        op(17, 2, (0, -1)),
        ScrollOp { region: CellRect::new(0, 19, 9, 1), delta: (0, 0) },
    ];
    assert_eq!(
        eligible_ops(&ops, screen),
        vec![true, false, false, false, true, false]
    );
}

#[test]
fn scrolls_that_share_rows_are_left_to_the_diff() {
    let screen = CellRect::new(0, 0, 10, 20);
    let ops = vec![op(0, 6, (0, 1)), op(4, 6, (0, 1)), op(12, 4, (0, -2))];
    assert_eq!(eligible_ops(&ops, screen), vec![false, false, true]);
    // One that the terminal cannot do stands in nobody's way.
    let ops = vec![op(0, 6, (0, 1)), op(4, 6, (1, 0))];
    assert_eq!(eligible_ops(&ops, screen), vec![true, false]);
}

#[test]
fn frame_after_a_resize_scrolls_nothing() {
    let screen = CellRect::new(0, 0, 10, 20);
    let steps = waterui_tui::present::present(&vec![op(0, 5, (0, 1))], screen, Some((3, 4)), true);
    assert_eq!(
        steps,
        vec![Step::HideCursor, Step::WriteDiff, Step::ShowCursor(3, 4), Step::Flush]
    );
    let steps = waterui_tui::present::present(&vec![op(0, 5, (0, 1))], screen, None, false);
    assert_eq!(
        steps,
        vec![
            Step::HideCursor,
            Step::Scroll(CellRect::new(0, 0, 10, 5), 1),
            Step::WriteDiff,
            Step::Flush
        ]
    );
}

#[test]
fn scrolling_back_restores_what_stayed() {
    let mut buf = Buffer::empty(Rect::new(0, 0, 4, 6));
    grid(&mut buf, 4, 6);
    scroll_buffer_region(&mut buf, CellRect::new(0, 1, 4, 4), 1);
    scroll_buffer_region(&mut buf, CellRect::new(0, 1, 4, 4), -1);
    assert_eq!(row_text(&buf, 0), "0000");
    assert_eq!(row_text(&buf, 1), "    "); // left the region
    assert_eq!(row_text(&buf, 2), "2222");
    assert_eq!(row_text(&buf, 4), "4444");
    assert_eq!(row_text(&buf, 5), "5555");
}

#[test]
fn presenting_shows_the_frame() {
    let mut shown = Buffer::empty(Rect::new(0, 0, 4, 8));
    grid(&mut shown, 4, 8);
    let mut frame = Buffer::empty(Rect::new(0, 0, 4, 8));
    grid(&mut frame, 4, 8);
    frame.cell_mut((2, 3)).unwrap().set_char('x');
    frame.cell_mut((1, 7)).unwrap().set_char('y');
    let ops = [
        ScrollOp { region: CellRect::new(0, 0, 4, 3), delta: (0, 1) },
        ScrollOp { region: CellRect::new(0, 4, 4, 4), delta: (0, -2) },
        ScrollOp { region: CellRect::new(1, 3, 2, 1), delta: (0, 1) },
    ];
    for resized in [false, true] {
        let mut backend = TestBackend::new(4, 8);
        backend.draw(Buffer::empty(shown.area).diff_iter(&shown)).unwrap();
        let mut prev = shown.clone();
        present(&mut backend, &mut prev, &frame, &ops, Some((1, 1)), resized).unwrap();
        assert_eq!(backend.buffer(), &frame);
    }
}
