//! What events do to a running program.

use waterui_tui::buffer::screen_buffer;
use waterui_tui::controls::{Alignment, ButtonStyle, ToggleStyle};
use waterui_tui::edit::{edit_chars, Key, KeyCode};
use waterui_tui::geometry::CellRect;
use waterui_tui::node::{FieldState, Kind, Node};
use waterui_tui::render::DrawCtx;
use waterui_tui::renderer::TuiRenderer;
use waterui_tui::scroll::{OnScroll, ScrollAxis, ScrollMetrics, ScrollState};
use waterui_tui::session::{
    move_focus, Event, KeyPhase, MouseAction, Session, Turn, Wake, FRAME_MILLIS,
};
use waterui_tui::submit::OnSubmit;
use waterui_tui::text::Span;
use waterui_tui::theme::terminal_theme;

fn button(id: u32, action: u32, frame: CellRect) -> Node {
    let mut node = Node::new(Kind::Button { action, style: ButtonStyle::Bordered });
    node.focus = Some(id);
    node.frame = frame;
    node
}

fn field(id: u32, frame: CellRect) -> Node {
    let mut node = Node::new(Kind::Field(FieldState {
        label: String::new(),
        value: String::new(),
        prompt: String::new(),
        cursor: 0,
        submit: Some(77),
    }));
    node.focus = Some(id);
    node.frame = frame;
    node.focus_signal = Some(false);
    node
}

fn root() -> Node {
    let mut root = Node::new(Kind::Container(0));
    root.frame = CellRect::new(0, 0, 20, 10);
    root.children.push(button(4, 40, CellRect::new(0, 0, 10, 1)));
    root.children.push(field(5, CellRect::new(0, 1, 10, 1)));
    let mut viewport = Node::new(Kind::Scroll(ScrollState {
        extent: (10, 20),
        ..ScrollState::new(ScrollAxis::Vertical)
    }));
    viewport.focus = Some(6);
    viewport.frame = CellRect::new(0, 2, 10, 5);
    let mut content = Node::new(Kind::Text {
        content: vec![Span::plain("text")],
        alignment: Alignment::Leading,
        line_limit: None,
    });
    content.frame = CellRect::new(0, 2, 10, 20);
    viewport.children.push(content);
    root.children.push(viewport);
    root
}

fn session() -> Session {
    let mut session = Session::new(root());
    assert!(session.dirty);
    session.dirty = false;
    session
}

fn key(code: KeyCode) -> Event {
    Event::Key { key: Key::plain(code), phase: KeyPhase::Press }
}

fn send(session: &mut Session, event: Event) -> (bool, Vec<u32>) {
    let mut runs = Vec::new();
    let quit = session.process(Wake::Input(event), &mut runs);
    (quit, runs)
}

#[test]
fn session_starts_on_the_first_node() {
    let session = session();
    assert_eq!(session.focused, Some(4));
    assert_eq!(session.root.children[1].focus_signal, Some(false));
    let empty = Session::new(Node::empty());
    assert_eq!(empty.focused, None);
}

#[test]
fn tab_moves_around_and_back() {
    let mut session = session();
    send(&mut session, key(KeyCode::Tab));
    assert_eq!(session.focused, Some(5));
    assert_eq!(session.root.children[1].focus_signal, Some(true));
    assert!(session.dirty);
    send(&mut session, key(KeyCode::Tab));
    send(&mut session, key(KeyCode::Tab));
    assert_eq!(session.focused, Some(4));
    send(&mut session, key(KeyCode::BackTab));
    assert_eq!(session.focused, Some(6));
    send(&mut session, key(KeyCode::Tab));
    assert_eq!(session.focused, Some(4));
}

#[test]
fn focus_moves_along_a_chain() {
    let chain = vec![3, 8, 1];
    assert_eq!(move_focus(&chain, Some(8), false), Some(1));
    assert_eq!(move_focus(&chain, Some(1), false), Some(3));
    assert_eq!(move_focus(&chain, Some(3), true), Some(1));
    assert_eq!(move_focus(&chain, Some(99), true), Some(3));
    assert_eq!(move_focus(&chain, None, false), Some(3));
    assert_eq!(move_focus(&Vec::new(), Some(2), false), Some(2));
}

#[test]
fn escape_and_control_c_end_the_program() {
    assert!(send(&mut session(), key(KeyCode::Esc)).0);
    let interrupt = Event::Key {
        key: Key { code: KeyCode::Char('c'), control: true },
        phase: KeyPhase::Press,
    };
    assert!(send(&mut session(), interrupt).0);
    assert!(!send(&mut session(), key(KeyCode::Char('c'))).0);
    assert!(!send(&mut session(), key(KeyCode::Char('q'))).0);
    assert!(session().process(Wake::InputEnd, &mut Vec::new()));
}

#[test]
fn releases_are_ignored_and_repeats_count() {
    let mut session = session();
    let release = Event::Key { key: Key::plain(KeyCode::Esc), phase: KeyPhase::Release };
    assert!(!send(&mut session, release).0);
    assert!(!session.dirty);
    let repeat = Event::Key { key: Key::plain(KeyCode::Tab), phase: KeyPhase::Repeat };
    send(&mut session, repeat);
    assert_eq!(session.focused, Some(5));
}

#[test]
fn keys_reach_the_focused_node() {
    let mut session = session();
    assert_eq!(send(&mut session, key(KeyCode::Enter)), (false, vec![40]));
    assert!(session.dirty);
    session.dirty = false;
    assert_eq!(send(&mut session, key(KeyCode::Left)), (false, vec![]));
    assert!(!session.dirty, "an ignored key draws nothing");
    send(&mut session, key(KeyCode::Tab));
    send(&mut session, key(KeyCode::Char('x')));
    match &session.root.children[1].kind {
        Kind::Field(state) => assert_eq!(state.value, "x"),
        _ => panic!("not a field"),
    }
    assert_eq!(send(&mut session, key(KeyCode::Enter)), (false, vec![77]));
}

#[test]
fn presses_focus_and_activate() {
    let mut session = session();
    let press = Event::Mouse { action: MouseAction::Press, col: 3, row: 1 };
    assert_eq!(send(&mut session, press), (false, vec![]));
    assert_eq!(session.focused, Some(5));
    let press = Event::Mouse { action: MouseAction::Press, col: 3, row: 0 };
    assert_eq!(send(&mut session, press), (false, vec![40]));
    assert_eq!(session.focused, Some(4));
    let drag = Event::Mouse { action: MouseAction::Drag, col: 3, row: 0 };
    assert_eq!(send(&mut session, drag), (false, vec![]));
    // A press on nothing keeps the focus.
    let press = Event::Mouse { action: MouseAction::Press, col: 19, row: 9 };
    send(&mut session, press);
    assert_eq!(session.focused, Some(4));
}

#[test]
fn wheel_draws_only_where_something_moves() {
    let mut session = session();
    let up = Event::Mouse { action: MouseAction::ScrollUp, col: 3, row: 3 };
    let down = Event::Mouse { action: MouseAction::ScrollDown, col: 3, row: 3 };
    send(&mut session, up);
    assert!(!session.dirty);
    send(&mut session, down);
    assert!(session.dirty);
    session.dirty = false;
    send(&mut session, Event::Mouse { action: MouseAction::ScrollRight, col: 3, row: 3 });
    send(&mut session, Event::Mouse { action: MouseAction::Other, col: 3, row: 3 });
    send(&mut session, Event::Other);
    assert!(!session.dirty);
    send(&mut session, Event::Resize);
    assert!(session.dirty);
}

#[test]
fn wake_ups_and_frames() {
    let mut session = session();
    assert!(!session.process(Wake::Repaint, &mut Vec::new()));
    assert!(session.dirty);
    session.dirty = false;
    assert!(!session.process(Wake::Task, &mut Vec::new()));
    assert!(session.dirty);
    session.begin_frame(&vec![6, 5]);
    assert_eq!(session.focused, Some(5));
    assert_eq!(session.root.children[1].focus_signal, Some(true));
    session.begin_frame(&Vec::new());
    assert_eq!(session.focused, Some(5));
    assert_eq!(session.turn(false, false), Turn::Draw);
    session.drawn();
    assert_eq!(session.turn(false, true), Turn::Wait(Some(FRAME_MILLIS)));
    assert_eq!(session.turn(false, false), Turn::Wait(None));
    assert_eq!(session.turn(true, false), Turn::Draw);
    let mut renderer = TuiRenderer::new();
    session.timed_out(&mut renderer.state);
    assert_eq!(renderer.tick(), 1);
    assert_eq!(session.turn(false, true), Turn::Draw);
}

#[test]
fn backspace_takes_back_what_was_typed() {
    let mut chars: Vec<char> = "añb".chars().collect();
    let mut cursor = 2;
    assert!(edit_chars(&mut chars, &mut cursor, &Key::plain(KeyCode::Char('x'))));
    assert_eq!(chars.iter().collect::<String>(), "añxb");
    assert!(edit_chars(&mut chars, &mut cursor, &Key::plain(KeyCode::Backspace)));
    assert_eq!((chars.iter().collect::<String>(), cursor), ("añb".to_owned(), 2));
    // A cursor behind the end is held at the end, and control keys type nothing.
    let mut far = 99;
    assert!(!edit_chars(&mut chars, &mut far, &Key { code: KeyCode::Char('x'), control: true }));
    assert_eq!(far, 3);
    assert!(!edit_chars(&mut chars, &mut far, &Key::plain(KeyCode::Delete)));
    assert!(!edit_chars(&mut chars, &mut far, &Key::plain(KeyCode::Enter)));
}

#[test]
fn viewports_stay_inside_their_content() {
    let viewport = CellRect::new(0, 0, 10, 5);
    let mut state = ScrollState { extent: (30, 12), ..ScrollState::new(ScrollAxis::All) };
    assert!(state.scroll_to(viewport, 100, 100));
    assert_eq!(state.offset, (20, 7));
    assert!(!state.scroll_by(viewport, 1, 1));
    assert!(state.scroll_by(viewport, -3, -2));
    assert!(state.scroll_by(viewport, 3, 2));
    assert_eq!(state.offset, (20, 7));
    assert!(state.scroll_to(viewport, -4, -4));
    assert_eq!(state.offset, (0, 0));
    // Content that is smaller than the viewport does not scroll.
    let mut small = ScrollState { extent: (4, 2), ..ScrollState::new(ScrollAxis::All) };
    assert!(!small.scroll_by(viewport, 1, 1));
    assert_eq!(
        small.report(viewport),
        Some(ScrollMetrics { offset: (0, 0), max: (0, 0) })
    );
    assert_eq!(small.report(viewport), None);
}

#[test]
fn actions_are_wrapped() {
    let mut seen = Vec::new();
    let mut on_scroll = OnScroll::new(|metrics: ScrollMetrics| seen.push(metrics.at_end()));
    (on_scroll.0)(ScrollMetrics { offset: (0, 3), max: (0, 3) });
    (on_scroll.0)(ScrollMetrics { offset: (0, 2), max: (0, 3) });
    assert_eq!(seen, vec![true, false]);
    let mut count = 0;
    let mut on_submit = OnSubmit::new(|| count += 1);
    (on_submit.0)();
    assert_eq!(count, 1);
}

#[test]
fn events_keep_the_focus_chain() {
    let mut session = session();
    let chain = |session: &Session| {
        let mut ids = Vec::new();
        session.root.collect_focus(&mut ids);
        ids
    };
    let before = chain(&session);
    assert_eq!(before, vec![4, 5, 6]);
    let frames: Vec<CellRect> = session.root.children.iter().map(|node| node.frame).collect();
    for event in [
        key(KeyCode::Tab),
        key(KeyCode::Char('x')),
        Event::Mouse { action: MouseAction::Press, col: 3, row: 0 },
        Event::Mouse { action: MouseAction::Drag, col: 3, row: 4 },
        Event::Mouse { action: MouseAction::ScrollDown, col: 3, row: 4 },
        key(KeyCode::BackTab),
        Event::Resize,
    ] {
        send(&mut session, event);
        assert_eq!(chain(&session), before);
        assert!(before.contains(&session.focused.unwrap()));
    }
    let after: Vec<CellRect> = session.root.children.iter().map(|node| node.frame).collect();
    assert_eq!(after, frames);
}

#[test]
fn press_reaches_what_is_shown_under_it() {
    // A button in row 9 of the content, with the viewport scrolled down by six rows: it shows
    // in row 3.
    let mut viewport = Node::new(Kind::Scroll(ScrollState {
        extent: (10, 20),
        offset: (0, 6),
        ..ScrollState::new(ScrollAxis::Vertical)
    }));
    viewport.frame = CellRect::new(0, 0, 10, 5);
    viewport.focus = Some(1);
    viewport.children.push(button(2, 20, CellRect::new(0, 9, 6, 1)));
    let ctx = DrawCtx { theme: terminal_theme(), focused: None, tick: 0 };
    let mut buf = screen_buffer(CellRect::new(0, 0, 10, 5));
    viewport.render(&mut buf, &ctx, &mut Vec::new(), &mut Vec::new());
    assert_eq!(buf.cell((0, 3)).unwrap().symbol(), "[");
    assert_eq!(buf.cell((5, 3)).unwrap().symbol(), "]");
    assert_eq!(viewport.hit(2, 3), Some(2));
    assert_eq!(viewport.hit(2, 2), Some(1));
    assert_eq!(viewport.hit(7, 3), Some(1));
}

#[test]
fn drags_move_sliders_only() {
    let mut root = Node::new(Kind::Container(0));
    root.frame = CellRect::new(0, 0, 20, 4);
    let kinds = vec![
        Kind::Toggle { value: false, style: ToggleStyle::Checkbox },
        Kind::Stepper { value: 5, step: 1, low: 0, high: 9, formatter: None },
        Kind::Button { action: 9, style: ButtonStyle::Bordered },
        Kind::Slider { value: 0, track: (0, 20) },
    ];
    for (row, kind) in kinds.into_iter().enumerate() {
        let mut node = Node::new(kind);
        node.focus = Some(row as u32);
        node.frame = CellRect::new(0, row as u16, 20, 1);
        root.children.push(node);
    }
    let mut runs = Vec::new();
    for row in 0..4 {
        assert_eq!(root.mouse(19, row, true, &mut runs), Some(u32::from(row)));
    }
    assert!(runs.is_empty());
    assert!(matches!(root.children[0].kind, Kind::Toggle { value: false, .. }));
    assert!(matches!(root.children[1].kind, Kind::Stepper { value: 5, .. }));
    assert!(matches!(root.children[3].kind, Kind::Slider { value: 1_000_000_000, .. }));
    // Outside of the tree nothing happens at all.
    assert_eq!(root.mouse(20, 2, false, &mut runs), None);
    assert_eq!(root.mouse(3, 4, false, &mut runs), None);
    assert!(runs.is_empty());
    // A press does what a drag does not.
    for row in 0..3 {
        root.mouse(19, row, false, &mut runs);
    }
    assert_eq!(runs, vec![9]);
    assert!(matches!(root.children[0].kind, Kind::Toggle { value: true, .. }));
    assert!(matches!(root.children[1].kind, Kind::Stepper { value: 6, .. }));
}

fn viewport(frame: CellRect, rows: u16, children: Vec<Node>) -> Node {
    let mut node = Node::new(Kind::Scroll(ScrollState {
        extent: (frame.width, rows),
        ..ScrollState::new(ScrollAxis::Vertical)
    }));
    node.frame = frame;
    node.children = children;
    node
}

fn offset(node: &Node) -> i32 {
    match &node.kind {
        Kind::Scroll(state) => state.offset.1,
        _ => panic!("not a viewport"),
    }
}

#[test]
fn wheel_moves_the_innermost_viewport() {
    let inner = viewport(CellRect::new(0, 0, 10, 3), 4, Vec::new());
    let mut outer = viewport(CellRect::new(0, 0, 10, 6), 20, vec![inner]);
    let offsets = |node: &Node| (offset(node), offset(&node.children[0]));
    assert!(outer.scroll_at(2, 1, 0, 1));
    assert_eq!(offsets(&outer), (0, 1));
    // The inner one is at its end, so the outer one takes it.
    assert!(outer.scroll_at(2, 1, 0, 1));
    assert_eq!(offsets(&outer), (1, 1));
    // Beside the inner one only the outer one is under the cell.
    assert!(outer.scroll_at(2, 5, 0, -1));
    assert_eq!(offsets(&outer), (0, 1));
    assert!(!outer.scroll_at(2, 5, 0, -1));
    assert!(!outer.scroll_at(2, 6, 0, 1));
    assert_eq!(offsets(&outer), (0, 1));
}

#[test]
fn tabs_come_around() {
    let mut session = session();
    let start = session.focused;
    for code in [KeyCode::Tab, KeyCode::BackTab] {
        for _ in 0..2 {
            send(&mut session, key(code));
            assert_ne!(session.focused, start);
        }
        send(&mut session, key(code));
        assert_eq!(session.focused, start);
    }
}
