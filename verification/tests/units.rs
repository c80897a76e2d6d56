//! Points, cells, text, styles and single controls.

use ratatui::buffer::Buffer;
use ratatui::layout::Rect;
use waterui_tui::controls::{
    stepper_digits, Alignment, ButtonStyle, ProgressStyle, ToggleStyle, WHOLE,
};
use waterui_tui::edit::{edit_chars, Key, KeyCode};
use waterui_tui::geometry::{
    cols_for, rows_for, screen_points, to_cells, visible, CellRect, PointRect, PointSize, LINE_HEIGHT,
    TICKS_PER_COL, TICKS_PER_POINT, TICKS_PER_ROW,
};
use waterui_tui::input::{slider_key, slider_press, stepper_key, stepper_press, Reply};
use waterui_tui::node::{FieldState, Kind, Node, SecureState};
use waterui_tui::paint::{paint_all, Paint};
use waterui_tui::render::DrawCtx;
use waterui_tui::scroll::{scroll_target, ScrollAxis, ScrollState};
use waterui_tui::style::{
    chunk_style, CellColor, CellStyle, FontWeight, TextStyle, Theme, ThemeSlots, BOLD, CROSSED_OUT,
    ITALIC, UNDERLINED,
};
use waterui_tui::text::{measure_text, split_lines, Span};
use waterui_tui::theme::{palette, terminal_theme, PaletteSlot};

fn pt(n: i64) -> i64 {
    n * TICKS_PER_POINT
}

#[test]
fn points_round_to_cells() {
    assert_eq!(cols_for(pt(3)), 3);
    assert_eq!(cols_for(pt(3) + TICKS_PER_COL / 2), 4);
    assert_eq!(cols_for(-pt(3)), 0);
    assert_eq!(rows_for(LINE_HEIGHT), 1);
    assert_eq!(rows_for(1), 1, "a positive height takes a row");
    assert_eq!(rows_for(0), 0);
    assert_eq!(rows_for(pt(12)), 2);
    let frame = to_cells(PointRect { x: pt(2), y: pt(15), width: pt(10), height: pt(8) });
    assert_eq!(frame, CellRect::new(2, 1, 10, 1));
}

#[test]
fn screen_survives_the_trip_into_points() {
    assert_eq!(to_cells(screen_points(80, 24)), CellRect::new(0, 0, 80, 24));
}

#[test]
fn ten_points_of_spacing_leave_one_row() {
    let first = to_cells(PointRect { x: 0, y: 0, width: pt(5), height: LINE_HEIGHT });
    let second = to_cells(PointRect { x: 0, y: LINE_HEIGHT + pt(10), width: pt(5), height: LINE_HEIGHT });
    assert_eq!(first.y + first.height + 1, second.y);
}

#[test]
fn hidden_parts_are_cut_off() {
    let clip = CellRect::new(2, 2, 10, 10);
    assert_eq!(visible(-3, 4, 8, 3, clip), CellRect::new(2, 4, 3, 3));
    assert_eq!(visible(0, 0, 100, 100, clip), clip);
    assert_eq!(visible(-9, 0, 3, 3, clip), CellRect::new(0, 0, 0, 0));
    assert!(clip.contains(2, 11));
    assert!(!clip.contains(12, 2));
}

#[test]
fn scroll_targets_round_to_the_nearest_cell() {
    assert_eq!(scroll_target(pt(3), pt(20)), (3, 3));
    assert_eq!(scroll_target(pt(3) + TICKS_PER_COL / 2, TICKS_PER_ROW / 2), (4, 1));
    assert_eq!(scroll_target(-pt(3) - TICKS_PER_COL / 2, -1), (-4, 0));
    assert_eq!(scroll_target(i64::MAX, i64::MIN), (i32::MAX, i32::MIN));
}

#[test]
fn text_measures_its_widest_line() {
    let spans = vec![Span::plain("ab\nlonger"), Span::plain("!\n日本")];
    let size = measure_text(&spans, None);
    assert_eq!((size.width, size.height), (pt(7), pt(24)));
    assert_eq!(measure_text(&spans, Some(2)).height, pt(16));
    assert_eq!(measure_text(&Vec::new(), None).height, pt(8));
    let lines: Vec<String> = split_lines("a\n\nb\n").into_iter().map(String::from_iter).collect();
    assert_eq!(lines, vec!["a", "", "b", ""]);
}

#[test]
fn chunks_take_their_style_over_the_base() {
    let base = CellStyle::new().fg(CellColor::White);
    let style = TextStyle {
        weight: FontWeight::SemiBold,
        italic: true,
        underline: true,
        strikethrough: true,
        foreground: Some(CellColor::Rgb(1, 2, 3)),
        background: None,
    };
    let resolved = chunk_style(&style, base);
    assert_eq!(resolved.fg, Some(CellColor::Rgb(1, 2, 3)));
    assert_eq!(resolved.bg, None);
    assert_eq!(resolved.modifiers, BOLD | ITALIC | UNDERLINED | CROSSED_OUT);
    assert_eq!(chunk_style(&TextStyle::plain(), base), base);
}

#[test]
fn missing_theme_slots_fall_back() {
    let none = ThemeSlots {
        foreground: None,
        muted: None,
        accent: None,
        accent_foreground: None,
        background: None,
        surface: None,
        border: None,
        selection: None,
        selection_foreground: None,
    };
    let theme = Theme::resolve(&none);
    assert_eq!(theme.foreground, CellColor::White);
    assert_eq!(theme.accent, CellColor::Cyan);
    assert_eq!(theme.background, CellColor::Reset);
    assert_eq!(palette(PaletteSlot::Accent), (90, 160, 250));
    assert_eq!(terminal_theme().accent, CellColor::Rgb(90, 160, 250));
}

#[test]
fn steppers_keep_room_for_both_ends() {
    assert_eq!(stepper_digits(0, 9), 1);
    assert_eq!(stepper_digits(-10, 9), 3);
    assert_eq!(stepper_digits(0, 0), 1);
    assert_eq!(stepper_digits(i32::MIN, i32::MAX), 11);
}

#[test]
fn steppers_stop_at_their_ends() {
    let left = Key::plain(KeyCode::Left);
    let plus = Key::plain(KeyCode::Char('+'));
    assert_eq!(stepper_key(3, 5, 0, 9, &left), Some(0));
    assert_eq!(stepper_key(3, 5, 0, 9, &plus), Some(8));
    assert_eq!(stepper_key(8, 5, 0, 9, &plus), Some(9));
    assert_eq!(stepper_key(i32::MAX, i32::MAX, 0, i32::MAX, &plus), Some(i32::MAX));
    assert_eq!(stepper_key(3, 5, 0, 9, &Key::plain(KeyCode::Up)), None);
    let area = CellRect::new(0, 0, 20, 1);
    assert_eq!(stepper_press(3, 1, 0, 9, &None, area, 11), 2);
    assert_eq!(stepper_press(3, 1, 0, 9, &None, area, 14), 3);
    assert_eq!(stepper_press(3, 1, 0, 9, &None, area, 17), 4);
    // A wide formatted value moves the left button out.
    assert_eq!(stepper_press(3, 1, 0, 9, &Some("three".to_owned()), area, 7), 2);
}

#[test]
fn sliders_take_twentieths_and_track_shares() {
    let whole = i64::from(WHOLE);
    assert_eq!(slider_key(0, &Key::plain(KeyCode::Up)), Some(whole / 20));
    assert_eq!(slider_key(whole - 1, &Key::plain(KeyCode::Char('+'))), Some(whole));
    assert_eq!(slider_key(1, &Key::plain(KeyCode::Down)), Some(0));
    assert_eq!(slider_key(1, &Key::plain(KeyCode::Enter)), None);
    assert_eq!(slider_press((10, 15), 12), Some(whole / 2));
    assert_eq!(slider_press((10, 15), 3), Some(0));
    assert_eq!(slider_press((10, 15), 99), Some(whole));
    assert_eq!(slider_press((10, 10), 10), None);
}

#[test]
fn entries_of_a_display_list_are_applied_in_order() {
    let mut buf = Buffer::empty(Rect::new(0, 0, 6, 2));
    let list = vec![
        Paint::Text { x: 0, y: 0, text: "abcdef".to_owned(), max: 4, style: CellStyle::new() },
        Paint::Text { x: 2, y: 0, text: "XYZ".to_owned(), max: 2, style: CellStyle::new() },
        Paint::Text { x: 0, y: 9, text: "nowhere".to_owned(), max: 7, style: CellStyle::new() },
        Paint::Fill {
            area: CellRect::new(1, 0, 2, 1),
            style: CellStyle::new().bg(CellColor::Rgb(9, 8, 7)),
        },
    ];
    assert_eq!(paint_all(&mut buf, &list), None);
    let row: String = (0..6).map(|x| buf.cell((x, 0)).unwrap().symbol().to_owned()).collect();
    assert_eq!(row, "abXY  ");
    assert_eq!(buf.cell((1, 0)).unwrap().bg, ratatui::style::Color::Rgb(9, 8, 7));
    assert_eq!(buf.cell((3, 0)).unwrap().bg, ratatui::style::Color::Reset);
}

#[test]
fn empty_node_covers_nothing() {
    let node = Node::empty();
    assert!(matches!(node.kind, Kind::Empty));
    assert!(node.hit(0, 0).is_none());
}

#[test]
fn delete_is_a_step_right_and_a_backspace() {
    let text: Vec<char> = "abcd".chars().collect();
    let (mut deleted, mut at) = (text.clone(), 1);
    assert!(edit_chars(&mut deleted, &mut at, &Key::plain(KeyCode::Delete)));
    let (mut stepped, mut cursor) = (text, 1);
    edit_chars(&mut stepped, &mut cursor, &Key::plain(KeyCode::Right));
    edit_chars(&mut stepped, &mut cursor, &Key::plain(KeyCode::Backspace));
    assert_eq!((deleted, at), (stepped, cursor));
}

#[test]
fn snapping_keeps_the_order_of_edges() {
    let at = |x: i64| to_cells(PointRect { x, y: 0, width: pt(1), height: LINE_HEIGHT }).x;
    for x in 0..40 {
        assert!(at(x * TICKS_PER_COL / 8) <= at((x + 1) * TICKS_PER_COL / 8));
    }
}

#[test]
fn styles_settle() {
    let style = TextStyle { weight: FontWeight::Bold, italic: true, ..TextStyle::plain() };
    let once = chunk_style(&style, CellStyle::new());
    assert_eq!(chunk_style(&style, once), once);
}

#[test]
fn telling_the_focus_again_overrides() {
    let mut node = Node::new(Kind::Empty);
    node.focus = Some(3);
    node.focus_signal = Some(false);
    assert!(node.sync_focused(Some(3)));
    assert_eq!(node.focus_signal, Some(true));
    assert!(!node.sync_focused(None));
    assert_eq!(node.focus_signal, Some(false));
}

/// What a node in `frame`, shifted by `shift`, draws into a row of dots, cut at `clip`.
fn drawn_in(mut node: Node, frame: CellRect, clip: CellRect, shift: (i32, i32)) -> String {
    node.frame = frame;
    let ctx = DrawCtx { theme: terminal_theme(), focused: None, tick: 0 };
    let mut list = Vec::new();
    node.paint_shifted(&mut list, &ctx, clip, shift);
    let mut buf = Buffer::empty(Rect::new(0, 0, 10, 1));
    buf.set_string(0, 0, "..........", ratatui::style::Style::default());
    paint_all(&mut buf, &list);
    (0..10).map(|x| buf.cell((x, 0)).unwrap().symbol().to_owned()).collect()
}

/// What a node of `width` columns at column three draws, with the clip at its edges.
fn drawn(kind: Kind, width: u16) -> String {
    let frame = CellRect::new(3, 0, width, 1);
    drawn_in(Node::new(kind), frame, frame, (0, 0))
}

/// What a node of `width` columns draws that starts `before` columns left of a clip of
/// `columns` columns from column three on.
fn slid(kind: Kind, width: u16, before: i32, columns: u16) -> String {
    let clip = CellRect::new(3, 0, columns, 1);
    drawn_in(Node::new(kind), CellRect::new(0, 0, width, 1), clip, (3 - before, 0))
}

fn paragraph(text: &str, alignment: Alignment) -> Kind {
    Kind::Text { content: vec![Span::plain(text)], alignment, line_limit: None }
}

fn labelled_field(label: &str, value: &str) -> Kind {
    Kind::Field(FieldState {
        label: label.to_owned(),
        value: value.to_owned(),
        prompt: String::new(),
        cursor: 0,
        submit: None,
    })
}

#[test]
fn drawing_is_cut_at_the_clip() {
    assert_eq!(drawn(paragraph("a long line", Alignment::Leading), 4), "...a lo...");
    let toggle = || Kind::Toggle { value: true, style: ToggleStyle::Checkbox };
    assert_eq!(drawn(toggle(), 3), "...[x]....");
    assert_eq!(drawn(toggle(), 1), "...[......");
    assert_eq!(drawn(Kind::Divider { vertical: false }, 2), "...\u{2500}\u{2500}.....");
    assert_eq!(drawn(labelled_field("Name", "Ada"), 3), "...Nam....");
    assert_eq!(drawn(labelled_field("Name", "Ada"), 7), "...Name: A");
    let stepper = || Kind::Stepper { value: 5, step: 1, low: 0, high: 9, formatter: None };
    // The group stands at the right edge, but starts in the first column at the latest.
    assert_eq!(slid(stepper(), 9, 0, 7), "...[-].5.[");
    assert_eq!(slid(stepper(), 4, 0, 4), "...[-]....");
    assert_eq!(drawn(Kind::Gpu { key: 1, underlay: false, ready: false }, 2), "...[g.....");
}

#[test]
fn content_slides_out_at_the_left_edge() {
    let text = || paragraph("abcdef", Alignment::Leading);
    assert_eq!(slid(text(), 6, 0, 6), "...abcdef.");
    assert_eq!(slid(text(), 6, 2, 6), "...cdef...");
    assert_eq!(slid(text(), 6, 6, 6), "..........");
    // A wide character that is cut leaves its other half empty.
    assert_eq!(slid(paragraph("\u{6f22}ab", Alignment::Leading), 4, 1, 6), "....ab....");
    let toggle = Kind::Toggle { value: true, style: ToggleStyle::Checkbox };
    assert_eq!(slid(toggle, 3, 1, 6), "...x].....");
    let stepper = Kind::Stepper { value: 5, step: 1, low: 0, high: 9, formatter: None };
    assert_eq!(slid(stepper, 9, 2, 7), "...].5.[+]");
    let field = || labelled_field("Name", "Ada");
    assert_eq!(slid(field(), 10, 2, 7), "...me: Ada");
    assert_eq!(slid(field(), 10, 5, 7), "... Ada...");
    assert_eq!(slid(field(), 10, 7, 7), "...da.....");
    let secret = Kind::Secure(SecureState {
        label: "Pin".to_owned(),
        value: "1234".to_owned(),
        cursor: 0,
        submit: None,
    });
    assert_eq!(slid(secret, 10, 4, 7), "... \u{2022}\u{2022}\u{2022}\u{2022}..");
    // The marker of a surface stands where its visible part begins.
    let marker = || Node::new(Kind::Gpu { key: 1, underlay: false, ready: false });
    let clip = CellRect::new(3, 0, 6, 1);
    assert_eq!(drawn_in(marker(), CellRect::new(0, 0, 9, 4), clip, (1, -2)), "...[gpu]..");
    assert_eq!(drawn_in(marker(), CellRect::new(0, 0, 9, 4), clip, (6, -2)), "......[gp.");
}

#[test]
fn cut_frames_keep_their_alignment() {
    // The line of two columns stays in the middle, or at the end, of all eight columns.
    let centered = || paragraph("ab", Alignment::Center);
    assert_eq!(slid(centered(), 8, 0, 4), "......a...");
    assert_eq!(slid(centered(), 8, 2, 6), "....ab....");
    assert_eq!(slid(centered(), 8, 4, 4), "...b......");
    assert_eq!(slid(paragraph("ab", Alignment::Trailing), 8, 4, 4), ".....ab...");
    assert_eq!(slid(paragraph("ab", Alignment::Trailing), 8, 0, 6), "..........");
    // A line that is wider than any grid is not moved in.
    let wide = "x".repeat(65540);
    assert_eq!(slid(paragraph(&wide, Alignment::Trailing), 6, 0, 6), "...xxxxxx.");
    let stepper = Kind::Stepper { value: 5, step: 1, low: 0, high: 9, formatter: Some(wide) };
    assert_eq!(slid(stepper, 6, 0, 7), "...[-].xxx");
    // So do the brackets of a button.
    let button = || Kind::Button { action: 1, style: ButtonStyle::Bordered };
    assert_eq!(slid(button(), 5, 0, 6), "...[...]..");
    assert_eq!(slid(button(), 5, 0, 3), "...[......");
    assert_eq!(slid(button(), 5, 2, 6), ".....]....");
}

#[test]
fn rules_slide_with_their_rows() {
    let bar = || Node::new(Kind::NavBar { hidden: false });
    let clip = CellRect::new(0, 0, 4, 1);
    let frame = CellRect::new(0, 0, 4, 5);
    let rule = "\u{2500}".repeat(4) + "......";
    // The rule lies in the second row, which the first scrolled row brings to the top.
    assert_eq!(drawn_in(bar(), frame, clip, (0, 0)), "..........");
    assert_eq!(drawn_in(bar(), frame, clip, (0, -1)), rule);
    assert_eq!(drawn_in(bar(), frame, clip, (0, -2)), "..........");
    let divider = |vertical| Node::new(Kind::Divider { vertical });
    assert_eq!(drawn_in(divider(false), frame, clip, (0, 0)), rule);
    assert_eq!(drawn_in(divider(false), frame, clip, (0, -1)), "..........");
    assert_eq!(drawn_in(divider(true), frame, clip, (0, -1)), "\u{2502}.........");
    assert_eq!(drawn_in(divider(true), frame, clip, (-1, -1)), "..........");
}

#[test]
fn column_edges_round_each_on_its_own() {
    let at = |x: i64, width: i64| to_cells(PointRect { x, y: 0, width, height: LINE_HEIGHT });
    // From 0.4 to 1.6 points: columns zero and one.
    let tenth = |n: i64| n * TICKS_PER_POINT / 10;
    let frame = at(tenth(4), tenth(16) - tenth(4));
    assert_eq!((frame.x, frame.width), (0, 2));
    // Neighbours meet, wherever their edge lies.
    for n in 0..30 {
        let left = at(0, tenth(n));
        let right = at(tenth(n), pt(5) - tenth(n));
        assert_eq!(left.x + left.width, right.x);
        assert_eq!(right.x + right.width, 5);
    }
}

#[test]
fn tracks_map_columns_to_values() {
    let mut last = -1;
    for col in -3..20 {
        let value = slider_press((4, 11), col).unwrap();
        assert!(last <= value && value <= i64::from(WHOLE));
        last = value;
    }
    assert_eq!(slider_press((4, 11), 4), Some(0));
    assert_eq!(slider_press((4, 11), 9), Some(833_333_333));
    assert_eq!(slider_press((4, 11), 10), Some(i64::from(WHOLE)));
}

fn placed(axis: ScrollAxis, x: i64, width: i64, content: PointSize) -> Node {
    let mut node = Node::new(Kind::Scroll(ScrollState::new(axis)));
    node.children.push(Node::empty());
    let frame = PointRect { x, y: 0, width, height: pt(16) };
    let frames = node.set_frame(frame, &vec![content], &Vec::new());
    assert_eq!((frames[0].x, frames[0].y), (x, 0));
    // Placing it again changes nothing.
    let (cells, extent) = (node.frame, extent(&node));
    assert_eq!(node.set_frame(frame, &vec![content], &Vec::new()), frames);
    assert_eq!((node.frame, self::extent(&node)), (cells, extent));
    node
}

fn extent(node: &Node) -> (u16, u16) {
    match &node.kind {
        Kind::Scroll(state) => state.extent,
        _ => panic!("not a viewport"),
    }
}

#[test]
fn extents_match_the_frame_where_nothing_scrolls() {
    let content = PointSize { width: pt(30), height: pt(80) };
    for (x, width, columns) in [(39322, 891_290, 13), (873_813, 873_813, 14), (0, pt(9), 9)] {
        let mut node = placed(ScrollAxis::Vertical, x, width, content);
        assert_eq!(node.frame.width, columns);
        assert_eq!(extent(&node), (columns, 10));
        // The end is the end of the rows; nothing slides sideways.
        node.focus = Some(1);
        assert_eq!(node.handle_key(1, &Key::plain(KeyCode::End)), Reply::Handled);
        assert!(matches!(&node.kind, Kind::Scroll(state) if state.offset == (0, 8)));
        assert!(!node.scroll_at(node.frame.x, 0, 1, 0));
        let flat = placed(ScrollAxis::Horizontal, x, width, content);
        assert_eq!(extent(&flat).1, flat.frame.height);
        assert!(extent(&flat).0 >= flat.frame.width);
    }
}

#[test]
fn progress_never_shrinks() {
    let bar = |value| Kind::Progress { value, style: ProgressStyle::Linear, bar: (0, 6) };
    let full = |value| slid(bar(value), 6, 0, 6).matches('\u{2588}').count();
    assert_eq!((full(0), full(WHOLE)), (0, 6));
    assert_eq!(full(WHOLE / 4), 2);
    let mut last = 0;
    for step in 0..=20 {
        let now = full(WHOLE / 20 * step);
        assert!(last <= now);
        last = now;
    }
}
