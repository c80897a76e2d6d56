//! Headless render tests: make nodes of a view, place them on a fixed cell grid, and
//! assert on the resulting buffer and on what events do.

use std::cell::Cell;
use std::rc::Rc;

use nami::{binding, Binding, Computed, Signal, SignalExt};
use ratatui::buffer::Buffer;
use ratatui::style::Modifier;
use waterui_core::layout::{
    measure_layout, HorizontalAlignment, Layout, Point, ProposalSize as PtProposal, Rect as PtRect,
    Size, StretchAxis as PtStretch, SubView, SubviewPlacement, VerticalAlignment, ViewDimensions,
};
use waterui_layout::stack::{HStackLayout, VStackLayout};
use waterui_tui::buffer::screen_buffer;
use waterui_tui::controls::{Alignment, ButtonStyle, ProgressStyle, TabEntry, ToggleStyle};
use waterui_tui::edit::{Key, KeyCode};
use waterui_tui::geometry::{
    screen_points, CellRect, PointRect, PointSize, ProposalSize, TICKS_PER_POINT,
};
use waterui_tui::input::Reply;
use waterui_tui::layout::Measured;
use waterui_tui::node::{Kind, Node, StretchAxis};
use waterui_tui::render::DrawCtx;
use waterui_tui::renderer::{TabView, TuiRenderer, ViewKind, ViewTree};
use waterui_tui::session::{Session, Turn};
use waterui_tui::scroll::{scroll_target, ScrollAxis, ScrollMetrics, ScrollOp, ScrollState};
use waterui_tui::style::{FontWeight, TextStyle};
use waterui_tui::text::Span;
use waterui_tui::theme::terminal_theme;

// ---- A host: layouts of `waterui` around the nodes of this crate --------------------

type Layouts = Vec<Box<dyn Layout>>;

fn ticks(points: f32) -> i64 {
    if points == f32::INFINITY {
        i64::MAX
    } else {
        (f64::from(points) * TICKS_PER_POINT as f64).round() as i64
    }
}

fn points(ticks: i64) -> f32 {
    if ticks == i64::MAX {
        f32::INFINITY
    } else {
        (ticks as f64 / TICKS_PER_POINT as f64) as f32
    }
}

fn to_ticks(proposal: PtProposal) -> ProposalSize {
    ProposalSize {
        width: proposal.width.map(ticks),
        height: proposal.height.map(ticks),
    }
}

fn to_points(proposal: ProposalSize) -> PtProposal {
    PtProposal::new(proposal.width.map(points), proposal.height.map(points))
}

fn rect_to_ticks(rect: PtRect) -> PointRect {
    PointRect {
        x: ticks(rect.x()),
        y: ticks(rect.y()),
        width: ticks(rect.width()),
        height: ticks(rect.height()),
    }
}

fn rect_to_points(rect: PointRect) -> PtRect {
    PtRect::new(
        Point::new(points(rect.x), points(rect.y)),
        Size::new(points(rect.width), points(rect.height)),
    )
}

/// A node and the layouts of its tree.
struct Hosted<'a>(&'a Node, &'a Layouts);

impl SubView for Hosted<'_> {
    fn measure(&self, proposal: PtProposal) -> ViewDimensions {
        measure(self.0, self.1, proposal)
    }

    fn stretch_axis(&self) -> PtStretch {
        match self.0.stretch {
            StretchAxis::Neither => PtStretch::None,
            StretchAxis::Horizontal => PtStretch::Horizontal,
            StretchAxis::Vertical => PtStretch::Vertical,
            StretchAxis::Both => PtStretch::Both,
            StretchAxis::MainAxis => PtStretch::MainAxis,
            StretchAxis::CrossAxis => PtStretch::CrossAxis,
        }
    }

    fn priority(&self) -> i32 {
        self.0.priority
    }
}

fn contained(node: &Node) -> &[Node] {
    match &node.kind {
        Kind::Lazy(state) => &state.children,
        Kind::Dynamic(slot) => std::slice::from_ref(&**slot),
        _ => &node.children,
    }
}

fn layout_of<'a>(node: &Node, layouts: &'a Layouts) -> Option<&'a dyn Layout> {
    match &node.kind {
        Kind::Container(key) => Some(&*layouts[*key as usize]),
        Kind::Lazy(state) => Some(&*layouts[state.layout as usize]),
        _ => None,
    }
}

fn hosted<'a>(node: &'a Node, layouts: &'a Layouts) -> Vec<Hosted<'a>> {
    contained(node).iter().map(|child| Hosted(child, layouts)).collect()
}

fn measure(node: &Node, layouts: &Layouts, proposal: PtProposal) -> ViewDimensions {
    let asked = to_ticks(proposal);
    let ask = node.ask_to_measure(asked);
    let sizes = natural_sizes(node, layouts, ask.from, ask.to, ask.proposal);
    match node.measure(asked, &sizes) {
        Measured::Size(size) => ViewDimensions::new(Size::new(points(size.width), points(size.height))),
        Measured::ByLayout => {
            let children = hosted(node, layouts);
            let refs: Vec<&dyn SubView> = children.iter().map(|c| c as &dyn SubView).collect();
            measure_layout(layout_of(node, layouts).unwrap(), proposal, &refs)
        }
        Measured::AsContent => contained(node)
            .first()
            .map(|child| measure(child, layouts, proposal))
            .unwrap_or_default(),
    }
}

fn natural_sizes(
    node: &Node,
    layouts: &Layouts,
    from: usize,
    to: usize,
    proposal: ProposalSize,
) -> Vec<PointSize> {
    node.children[from..to]
        .iter()
        .map(|child| measure(child, layouts, to_points(proposal)).size)
        .map(|size| PointSize { width: ticks(size.width), height: ticks(size.height) })
        .collect()
}

fn place(node: &mut Node, layouts: &Layouts, frame: PointRect) {
    let ask = node.ask_to_place(frame);
    let sizes = natural_sizes(node, layouts, ask.from, ask.to, ask.proposal);
    let placed: Vec<PointRect> = match layout_of(node, layouts) {
        Some(layout) => {
            let children = hosted(node, layouts);
            let refs: Vec<&dyn SubView> = children.iter().map(|c| c as &dyn SubView).collect();
            let bounds = rect_to_points(node.shifted(frame));
            let proposal = PtProposal::new(Some(bounds.width()), Some(bounds.height()));
            layout
                .place(bounds, proposal, &refs)
                .into_iter()
                .map(|placement| rect_to_ticks(placement.frame))
                .collect()
        }
        None => Vec::new(),
    };
    let frames = node.set_frame(frame, &sizes, &placed);
    let children: &mut [Node] = match &mut node.kind {
        Kind::Lazy(state) => &mut state.children,
        Kind::Dynamic(slot) => std::slice::from_mut(&mut **slot),
        _ => &mut node.children,
    };
    for (child, frame) in children.iter_mut().zip(frames) {
        place(child, layouts, frame);
    }
}

/// A gap that takes the room it is offered.
#[derive(Debug)]
struct Gap;

impl Layout for Gap {
    fn size_that_fits(&self, _proposal: PtProposal, _children: &[&dyn SubView]) -> Size {
        Size::new(0.0, 0.0)
    }

    fn place(
        &self,
        _bounds: PtRect,
        _proposal: PtProposal,
        _children: &[&dyn SubView],
    ) -> Vec<SubviewPlacement> {
        Vec::new()
    }
}

/// The first layout is a column without spacing, the second a row, the third a gap and
/// the fourth a column with the default spacing.
fn layouts() -> Layouts {
    vec![
        Box::new(VStackLayout {
            alignment: HorizontalAlignment::Center,
            spacing: Computed::constant(0.0),
        }),
        Box::new(HStackLayout {
            alignment: VerticalAlignment::Center,
            spacing: Computed::constant(0.0),
        }),
        Box::new(Gap),
        Box::new(VStackLayout::default()),
    ]
}

const COLUMN: u32 = 0;
const ROW: u32 = 1;
const GAP: u32 = 2;
const SPACED_COLUMN: u32 = 3;

// ---- Views --------------------------------------------------------------------------

fn view(kind: ViewKind) -> ViewTree {
    ViewTree { kind, stretch: StretchAxis::Neither, source: None }
}

fn stretched(kind: ViewKind, stretch: StretchAxis) -> ViewTree {
    ViewTree { kind, stretch, source: None }
}

fn text(content: &str) -> ViewTree {
    view(ViewKind::Text {
        content: vec![Span::plain(content)],
        alignment: Alignment::Leading,
        line_limit: None,
    })
}

fn nothing() -> Box<ViewTree> {
    Box::new(view(ViewKind::Empty))
}

fn column(children: Vec<ViewTree>) -> ViewTree {
    view(ViewKind::Fixed { layout: COLUMN, children })
}

fn button(label: &str, action: u32) -> ViewTree {
    view(ViewKind::Button {
        action,
        style: ButtonStyle::Automatic,
        label: Box::new(text(label)),
    })
}

fn field(label: &str, value: &str) -> ViewTree {
    stretched(
        ViewKind::Field {
            label: label.to_owned(),
            value: value.to_owned(),
            prompt: String::new(),
            submit: None,
        },
        StretchAxis::Horizontal,
    )
}

fn scroll(content: ViewTree) -> ViewTree {
    stretched(
        ViewKind::Scroll { axis: ScrollAxis::Vertical, content: Box::new(content) },
        StretchAxis::Both,
    )
}

fn page(content: &str) -> ViewTree {
    view(ViewKind::Navigation {
        hidden: false,
        title: Box::new(text("")),
        content: Box::new(text(content)),
    })
}

// ---- The fixture --------------------------------------------------------------------

fn buffer_string(buf: &Buffer) -> String {
    let area = buf.area;
    let mut out = String::new();
    for y in area.top()..area.bottom() {
        for x in area.left()..area.right() {
            out.push_str(buf.cell((x, y)).unwrap().symbol());
        }
        out.push('\n');
    }
    out
}

struct Fixture {
    renderer: TuiRenderer,
    root: Node,
    layouts: Layouts,
    ops: Vec<ScrollOp>,
    reports: Vec<(u32, ScrollMetrics)>,
    focused: Option<u32>,
    cursor: Option<(u16, u16)>,
}

impl Fixture {
    fn new(view: ViewTree, cols: u16, rows: u16) -> Fixture {
        let mut renderer = TuiRenderer::new();
        let root = renderer.dispatch(&view).unwrap();
        let mut fixture = Fixture {
            renderer,
            root,
            layouts: layouts(),
            ops: Vec::new(),
            reports: Vec::new(),
            focused: None,
            cursor: None,
        };
        fixture.layout(cols, rows);
        fixture
    }

    fn layout(&mut self, cols: u16, rows: u16) {
        place(&mut self.root, &self.layouts, screen_points(cols, rows));
    }

    fn render_buf(&mut self, cols: u16, rows: u16) -> Buffer {
        self.layout(cols, rows);
        let mut buf = screen_buffer(CellRect::new(0, 0, cols, rows));
        self.ops.clear();
        self.reports.clear();
        let ctx = DrawCtx { theme: terminal_theme(), focused: self.focused, tick: 0 };
        self.cursor = self.root.render(&mut buf, &ctx, &mut self.ops, &mut self.reports);
        buf
    }

    fn draw(&mut self, cols: u16, rows: u16) -> String {
        buffer_string(&self.render_buf(cols, rows))
    }

    fn focus_chain(&self) -> Vec<u32> {
        let mut chain = Vec::new();
        self.root.collect_focus(&mut chain);
        chain
    }

    fn press(&mut self, id: u32, code: KeyCode) -> Reply {
        self.root.handle_key(id, &Key::plain(code))
    }

    fn handles(&mut self, id: u32, code: KeyCode) -> bool {
        self.press(id, code) != Reply::Ignored
    }

    fn click(&mut self, col: u16, row: u16) -> (Option<u32>, Vec<u32>) {
        let mut runs = Vec::new();
        let hit = self.root.mouse(col, row, false, &mut runs);
        (hit, runs)
    }
}

fn slider_value(node: &Node) -> f64 {
    match &node.kind {
        Kind::Slider { value, .. } => *value as f64 / 1e9,
        _ => panic!("not a slider"),
    }
}

fn stepper_value(node: &Node) -> i32 {
    match &node.kind {
        Kind::Stepper { value, .. } => *value,
        _ => panic!("not a stepper"),
    }
}

fn field_value(node: &Node) -> String {
    match &node.kind {
        Kind::Field(state) => state.value.clone(),
        Kind::Secure(state) => state.value.clone(),
        _ => panic!("not a field"),
    }
}

fn field_cursor(node: &Node) -> usize {
    match &node.kind {
        Kind::Field(state) => state.cursor,
        Kind::Secure(state) => state.cursor,
        _ => panic!("not a field"),
    }
}

// ---- Tests --------------------------------------------------------------------------

#[test]
fn renders_text() {
    let mut fixture = Fixture::new(text("hello waterui"), 40, 5);
    let out = fixture.draw(40, 5);
    assert!(out.starts_with("hello waterui"), "got:\n{out}");
}

#[test]
fn vstack_places_children_vertically() {
    let view = column(vec![text("first"), text("second"), text("third")]);
    let mut fixture = Fixture::new(view, 40, 5);
    let out = fixture.draw(40, 5);
    let lines: Vec<&str> = out.lines().collect();
    // The column stacks its children on successive rows and centers the stack.
    let first = lines.iter().position(|line| line.contains("first")).unwrap();
    assert!(lines[first + 1].contains("second"), "got:\n{out}");
    assert!(lines[first + 2].contains("third"), "got:\n{out}");
    assert!(lines[0].contains("first"), "got:\n{out}");
    assert!(lines[1].contains("second"), "got:\n{out}");
    assert!(lines[2].contains("third"), "got:\n{out}");
}

#[test]
fn button_renders_chrome_and_activates() {
    let counter: Binding<i32> = binding(0);
    let content = counter.map(|v| format!("count={v}")).computed();
    let dirty = Rc::new(Cell::new(false));
    let flag = dirty.clone();
    let _guard = content.watch(move |_| flag.set(true));
    let bumped = counter.clone();
    let actions = vec![(7, move || bumped.set(bumped.get() + 1))];
    let view = column(vec![text(&content.get()), button("Bump", 7)]);
    let mut fixture = Fixture::new(view, 40, 5);

    let out = fixture.draw(40, 5);
    assert!(out.contains("count=0"), "got:\n{out}");
    assert!(out.contains("[ Bump ]"), "got:\n{out}");
    let mut session = Session::new(Node::empty());
    session.drawn();
    assert_eq!(session.turn(dirty.get(), false), Turn::Wait(None));

    let chain = fixture.focus_chain();
    assert_eq!(chain.len(), 1);
    // The host runs the action that the press names; the binding tells whoever watches it.
    let Reply::Run(key) = fixture.press(chain[0], KeyCode::Enter) else {
        panic!("the button was not activated");
    };
    for (own, action) in &actions {
        if *own == key {
            action();
        }
    }
    assert_eq!(counter.get(), 1);
    assert!(dirty.get(), "action should mark the tree dirty");
    assert_eq!(session.turn(dirty.get(), false), Turn::Draw);

    // A dirty tree takes the values of its bindings over before it is drawn.
    if let Kind::Text { content: spans, .. } = &mut fixture.root.children[0].kind {
        *spans = vec![Span::plain(&content.get())];
    }
    let out = fixture.draw(40, 5);
    assert!(out.contains("count=1"), "got:\n{out}");
}

#[test]
fn toggle_flips_on_space() {
    let view = view(ViewKind::Toggle {
        value: false,
        style: ToggleStyle::Automatic,
        label: Box::new(text("Enable")),
    });
    let mut fixture = Fixture::new(view, 40, 5);

    let out = fixture.draw(40, 5);
    assert!(out.contains("[ ] Enable"), "got:\n{out}");

    let chain = fixture.focus_chain();
    assert_eq!(chain.len(), 1);
    assert!(fixture.handles(chain[0], KeyCode::Char(' ')));
    assert!(matches!(fixture.root.kind, Kind::Toggle { value: true, .. }));

    let out = fixture.draw(40, 5);
    assert!(out.contains("[x] Enable"), "got:\n{out}");
}

#[test]
fn spacer_pushes_apart() {
    let view = view(ViewKind::Fixed {
        layout: ROW,
        children: vec![
            text("left"),
            stretched(ViewKind::Spacer(GAP), StretchAxis::MainAxis),
            text("right"),
        ],
    });
    let mut fixture = Fixture::new(view, 40, 3);
    let out = fixture.draw(40, 3);
    // The row centers its children vertically and the gap pushes them to the edges.
    let middle = out.lines().nth(1).unwrap();
    assert!(middle.starts_with("left"), "got:\n{out}");
    assert!(middle.trim_end().ends_with("right"), "got:\n{out}");
}

#[test]
fn divider_draws_rule() {
    let view = column(vec![text("a"), view(ViewKind::Divider { in_row: false }), text("b")]);
    let mut fixture = Fixture::new(view, 40, 5);
    let out = fixture.draw(40, 5);
    assert!(out.lines().nth(1).unwrap().contains('─'), "got:\n{out}");
}

#[test]
fn styled_str_maps_bold_and_color() {
    let bold = Span {
        text: "bold".to_owned(),
        style: TextStyle { weight: FontWeight::Bold, ..TextStyle::plain() },
    };
    let view = view(ViewKind::Text {
        content: vec![bold],
        alignment: Alignment::Leading,
        line_limit: None,
    });
    let mut fixture = Fixture::new(view, 20, 3);
    let buf = fixture.render_buf(20, 3);
    let cell = buf.cell((0, 0)).unwrap();
    assert_eq!(cell.symbol(), "b");
    assert!(cell.modifier.contains(Modifier::BOLD));
}

#[test]
fn str_view_dispatches() {
    let mut fixture = Fixture::new(view(ViewKind::Plain("plain string".to_owned())), 20, 3);
    let out = fixture.draw(20, 3);
    assert!(out.starts_with("plain string"), "got:\n{out}");
}

#[test]
fn metadata_environment_passthrough() {
    let view = view(ViewKind::Wrapper(Box::new(text("nested"))));
    let mut fixture = Fixture::new(view, 20, 3);
    let out = fixture.draw(20, 3);
    assert!(out.starts_with("nested"), "got:\n{out}");
}

#[test]
fn text_field_edits_binding() {
    let mut fixture = Fixture::new(field("Name", ""), 40, 5);

    let chain = fixture.focus_chain();
    assert_eq!(chain.len(), 1);
    for c in ['h', 'i'] {
        assert!(fixture.handles(chain[0], KeyCode::Char(c)));
    }
    assert_eq!(field_value(&fixture.root), "hi");

    let out = fixture.draw(40, 5);
    assert!(out.contains("Name: hi"), "got:\n{out}");

    assert!(fixture.handles(chain[0], KeyCode::Backspace));
    assert_eq!(field_value(&fixture.root), "h");
}

#[test]
fn hit_testing_finds_focusable() {
    let view = column(vec![text("count"), button("Bump", 3)]);
    let mut fixture = Fixture::new(view, 40, 5);
    let chain = fixture.focus_chain();
    // A click inside the button's frame hits it; one below it does not.
    let frame = fixture.root.children[1].frame;
    assert_eq!(fixture.root.hit(frame.x + 1, frame.y), Some(chain[0]));
    assert!(fixture.root.hit(0, frame.y + frame.height).is_none());
    // A press tests for a hit and activates in one step.
    let (hit, runs) = fixture.click(frame.x + 1, frame.y);
    assert_eq!(hit, Some(chain[0]));
    assert_eq!(runs, vec![3]);
}

#[test]
fn slider_arrows_and_track_click() {
    let view = stretched(
        ViewKind::Slider {
            value: 500_000_000,
            label: Box::new(text("Vol")),
            low: nothing(),
            high: nothing(),
        },
        StretchAxis::Horizontal,
    );
    let mut fixture = Fixture::new(view, 40, 3);

    let out = fixture.draw(40, 3);
    assert!(out.contains('─') && out.contains('●'), "got:\n{out}");

    let chain = fixture.focus_chain();
    assert!(fixture.handles(chain[0], KeyCode::Right));
    let value = slider_value(&fixture.root);
    assert!((value - 0.55).abs() < 1e-9, "got {value}");
    assert!(fixture.handles(chain[0], KeyCode::Home));
    assert_eq!(slider_value(&fixture.root), 0.0);
    assert!(fixture.handles(chain[0], KeyCode::End));
    assert_eq!(slider_value(&fixture.root), 1.0);

    // A click at the far right of the track sets the end of the range.
    let frame = fixture.root.frame;
    fixture.click(frame.x + frame.width - 1, frame.y);
    let value = slider_value(&fixture.root);
    assert!(value > 0.9, "got {value}");
}

#[test]
fn stepper_increments_with_keys_and_clicks() {
    let view = stretched(
        ViewKind::Stepper {
            value: 0,
            step: 1,
            low: 0,
            high: 9,
            formatter: None,
            label: Box::new(text("Qty")),
        },
        StretchAxis::Horizontal,
    );
    let mut fixture = Fixture::new(view, 30, 3);

    let out = fixture.draw(30, 3);
    assert!(out.contains("[-]") && out.contains("[+]"), "got:\n{out}");

    let chain = fixture.focus_chain();
    assert!(fixture.handles(chain[0], KeyCode::Right));
    assert_eq!(stepper_value(&fixture.root), 1);
    // Click on the `[+]` region (rightmost 3 cells of the row).
    let frame = fixture.root.frame;
    fixture.click(frame.x + frame.width - 1, frame.y);
    assert_eq!(stepper_value(&fixture.root), 2);
    fixture.click(frame.x + frame.width - 9, frame.y);
    assert_eq!(stepper_value(&fixture.root), 1, "click on [-] should decrement");
}

fn progress(value: u32, style: ProgressStyle) -> ViewTree {
    view(ViewKind::Progress { value, style, label: nothing(), value_label: nothing() })
}

#[test]
fn progress_renders_linear_circular_and_loading() {
    let mut fixture = Fixture::new(progress(500_000_000, ProgressStyle::Linear), 30, 2);
    let out = fixture.draw(30, 2);
    assert!(out.contains('█') && out.contains('░'), "got:\n{out}");
    assert!(!fixture.renderer.animated());

    let mut fixture = Fixture::new(progress(1_000_000_000, ProgressStyle::Circular), 10, 2);
    let out = fixture.draw(10, 2);
    assert!(out.contains('●'), "got:\n{out}");

    let mut fixture = Fixture::new(progress(0, ProgressStyle::Loading), 10, 2);
    let buf = fixture.render_buf(10, 2);
    let first = buf.cell((0, 0)).unwrap().symbol().chars().next().unwrap();
    assert!(
        ['⠋', '⠙', '⠹', '⠸', '⠼', '⠴', '⠦', '⠧', '⠇', '⠏'].contains(&first),
        "expected spinner glyph, got {first:?}"
    );
    assert!(fixture.renderer.animated(), "loading should flag animation");
}

#[test]
fn secure_field_masks_and_edits() {
    let view = stretched(
        ViewKind::Secure { label: "Pass".to_owned(), value: String::new(), submit: None },
        StretchAxis::Horizontal,
    );
    let mut fixture = Fixture::new(view, 40, 3);

    let chain = fixture.focus_chain();
    for c in ['h', 'i'] {
        assert!(fixture.handles(chain[0], KeyCode::Char(c)));
    }
    assert_eq!(field_value(&fixture.root), "hi");

    let out = fixture.draw(40, 3);
    assert!(out.contains("Pass: ••"), "got:\n{out}");
    assert!(!out.contains("hi"), "secret must not render:\n{out}");
}

#[test]
fn scroll_view_clips_and_wheel_scrolls() {
    let rows: Vec<ViewTree> = (0..10).map(|i| text(&format!("row{i}"))).collect();
    let mut fixture = Fixture::new(scroll(column(rows)), 20, 4);

    let out = fixture.draw(20, 4);
    assert!(out.contains("row0") && out.contains("row3"), "got:\n{out}");
    assert!(!out.contains("row9"), "row9 should be clipped:\n{out}");
    // Scrollbar on the right edge.
    let buf = fixture.render_buf(20, 4);
    let line: String = (0..4)
        .map(|y| buf.cell((19, y)).unwrap().symbol().to_string())
        .collect();
    assert!(line.contains('┃') || line.contains('│'), "scrollbar: {line}");

    // Wheel down shifts content up.
    assert!(fixture.root.scroll_at(5, 1, 0, 2));
    let out = fixture.draw(20, 4);
    assert!(out.contains("row2"), "after scroll:\n{out}");
    assert!(!out.contains("row0"), "row0 should be scrolled out:\n{out}");

    // Drawing reports the shift, so that presenting can replay it on the terminal.
    let ops = &fixture.ops;
    assert_eq!(ops.len(), 1, "scroll ops: {ops:?}");
    assert_eq!(ops[0].region, CellRect::new(0, 0, 20, 4));
    assert_eq!(ops[0].delta, (0, 2));
}

fn tabs(selection: u32) -> ViewTree {
    let tab = |id: u32, enabled: bool, label: &str, content: &str| TabView {
        entry: TabEntry { id, enabled, badge: None },
        label: text(label),
        content: page(content),
    };
    stretched(
        ViewKind::Tabs {
            selection,
            tabs: vec![
                tab(0, true, "One", "first-page"),
                tab(1, true, "Two", "second-page"),
            ],
        },
        StretchAxis::Both,
    )
}

#[test]
fn tabs_render_labels_and_switch() {
    let mut fixture = Fixture::new(tabs(0), 40, 6);

    let out = fixture.draw(40, 6);
    assert!(out.contains("One") && out.contains("Two"), "got:\n{out}");
    assert!(out.contains("first-page"), "got:\n{out}");
    assert!(!out.contains("second-page"), "got:\n{out}");

    let chain = fixture.focus_chain();
    assert!(fixture.handles(chain[0], KeyCode::Right));
    assert!(matches!(fixture.root.kind, Kind::Tabs { selection: 1, .. }));
    let out = fixture.draw(40, 6);
    assert!(out.contains("second-page"), "got:\n{out}");
    assert!(!out.contains("first-page"), "got:\n{out}");
}

#[test]
fn offset_metadata_shifts_rendering() {
    let view = view(ViewKind::Offset {
        x: 3 * TICKS_PER_POINT,
        y: 8 * TICKS_PER_POINT,
        content: Box::new(text("moved")),
    });
    let mut fixture = Fixture::new(view, 20, 4);
    let out = fixture.draw(20, 4);
    let line = out.lines().nth(1).unwrap();
    assert!(line.starts_with("   moved"), "got:\n{out}");
}

#[test]
fn focused_binding_requests_focus() {
    let view = view(ViewKind::Focused {
        binding: 9,
        value: false,
        content: Box::new(field("Name", "")),
    });
    let mut fixture = Fixture::new(view, 40, 3);

    fixture.renderer.state.focus_written(9, true);
    let requests = fixture.renderer.take_focus_requests();
    let chain = fixture.focus_chain();
    assert_eq!(requests, vec![chain[0]], "should request the field's id");
}

#[test]
fn scroll_shifts_multiline_text_content() {
    // A single text taller than the viewport: its lines must slide past the clip, not
    // re-anchor at the visible top.
    let content: String = (0..30).map(|i| format!("line{i}\n")).collect();
    let mut fixture = Fixture::new(scroll(text(&content)), 20, 5);

    let out = fixture.draw(20, 5);
    assert!(out.contains("line0"), "got:\n{out}");
    assert!(!out.contains("line29"), "got:\n{out}");

    assert!(fixture.root.scroll_at(5, 2, 0, 20));
    let out = fixture.draw(20, 5);
    assert!(out.contains("line20"), "after scroll:\n{out}");
    assert!(
        !out.contains("line0\n") && !out.lines().next().unwrap().starts_with("line0"),
        "line0 should be scrolled out:\n{out}"
    );
}

#[test]
fn scroll_controller_pins_to_bottom() {
    let rows: Vec<ViewTree> = (0..30).map(|i| text(&format!("row{i}"))).collect();
    let mut fixture = Fixture::new(scroll(column(rows)), 20, 5);

    let out = fixture.draw(20, 5);
    assert!(out.contains("row0"), "got:\n{out}");

    match &mut fixture.root.kind {
        Kind::Scroll(state) => state.requested = Some(scroll_target(0, i64::MAX)),
        _ => panic!("not a viewport"),
    }
    let out = fixture.draw(20, 5);
    assert!(out.contains("row29"), "pinned bottom should show row29:\n{out}");
}

// ---- More behaviour -----------------------------------------------------------------

#[test]
fn default_spacing_is_one_empty_row() {
    let view = view(ViewKind::Fixed {
        layout: SPACED_COLUMN,
        children: vec![text("above"), text("below")],
    });
    let mut fixture = Fixture::new(view, 20, 5);
    let out = fixture.draw(20, 5);
    let lines: Vec<&str> = out.lines().collect();
    let first = lines.iter().position(|line| line.contains("above")).unwrap();
    assert!(lines[first + 1].trim().is_empty(), "got:\n{out}");
    assert!(lines[first + 2].contains("below"), "got:\n{out}");
}

#[test]
fn surface_without_pixels_draws_a_marker() {
    let mut fixture = Fixture::new(stretched(ViewKind::Surface(1), StretchAxis::Both), 12, 2);
    let out = fixture.draw(12, 2);
    assert!(out.starts_with("[gpu]"), "got:\n{out}");
}

#[test]
fn icon_shows_its_name_in_brackets() {
    let mut fixture = Fixture::new(view(ViewKind::Icon("trash".to_owned())), 12, 2);
    let out = fixture.draw(12, 2);
    assert!(out.starts_with("[trash]"), "got:\n{out}");
}

#[test]
fn arrow_keys_move_the_cursor_of_a_field() {
    let mut fixture = Fixture::new(field("Name", "abc"), 40, 3);
    let id = fixture.focus_chain()[0];
    assert_eq!(field_cursor(&fixture.root), 3);
    assert!(fixture.handles(id, KeyCode::Left));
    assert_eq!(field_cursor(&fixture.root), 2);
    assert!(fixture.handles(id, KeyCode::Char('x')));
    assert_eq!(field_value(&fixture.root), "abxc");
    assert!(fixture.handles(id, KeyCode::Home));
    assert!(fixture.handles(id, KeyCode::Delete));
    assert_eq!(field_value(&fixture.root), "bxc");
    assert!(!fixture.handles(id, KeyCode::Backspace), "nothing before the cursor");

    // The terminal cursor stands behind the label and the text before the cursor.
    fixture.focused = Some(id);
    fixture.handles(id, KeyCode::End);
    fixture.draw(40, 3);
    assert_eq!(fixture.cursor, Some((9, 0)));
}

#[test]
fn empty_field_shows_its_prompt() {
    let view = stretched(
        ViewKind::Field {
            label: String::new(),
            value: String::new(),
            prompt: "type here".to_owned(),
            submit: Some(4),
        },
        StretchAxis::Horizontal,
    );
    let mut fixture = Fixture::new(view, 40, 3);
    let buf = fixture.render_buf(40, 3);
    assert!(buffer_string(&buf).starts_with("type here"));
    assert!(buf.cell((0, 0)).unwrap().modifier.contains(Modifier::ITALIC));
    let id = fixture.focus_chain()[0];
    assert_eq!(fixture.press(id, KeyCode::Enter), Reply::Run(4));
}

#[test]
fn wide_characters_take_two_columns() {
    let mut fixture = Fixture::new(field("", "日本"), 20, 1);
    fixture.focused = Some(fixture.focus_chain()[0]);
    fixture.draw(20, 1);
    assert_eq!(fixture.cursor, Some((4, 0)));
}

#[test]
fn viewport_reports_its_position_once() {
    let rows: Vec<ViewTree> = (0..10).map(|i| text(&format!("row{i}"))).collect();
    let mut view = scroll(column(rows));
    view.source = Some(5);
    let mut fixture = Fixture::new(view, 20, 4);

    fixture.draw(20, 4);
    assert_eq!(fixture.reports, vec![(5, ScrollMetrics { offset: (0, 0), max: (0, 6) })]);
    assert!(!fixture.reports[0].1.at_end());
    fixture.draw(20, 4);
    assert!(fixture.reports.is_empty());

    let id = fixture.focus_chain()[0];
    assert!(fixture.handles(id, KeyCode::End));
    fixture.draw(20, 4);
    assert_eq!(fixture.reports, vec![(5, ScrollMetrics { offset: (0, 6), max: (0, 6) })]);
    assert!(fixture.reports[0].1.at_end());
    assert!(!fixture.handles(id, KeyCode::Down), "already at the end");
    assert!(fixture.handles(id, KeyCode::PageUp));
    fixture.draw(20, 4);
    assert_eq!(fixture.ops[0].delta, (0, -3));
}

#[test]
fn nested_viewport_takes_the_wheel_first() {
    let inner_rows: Vec<ViewTree> = (0..6).map(|i| text(&format!("in{i}"))).collect();
    let mut children = vec![scroll(column(inner_rows))];
    children.extend((0..6).map(|i| text(&format!("out{i}"))));
    let mut fixture = Fixture::new(scroll(column(children)), 20, 4);
    // The inner viewport is as tall as its content, so that the outer one scrolls.
    assert!(fixture.root.scroll_at(3, 0, 0, 1));
    assert!(matches!(&fixture.root.kind, Kind::Scroll(state) if state.offset == (0, 1)));
}

#[test]
fn focus_signal_follows_the_focus() {
    let view = column(vec![
        field("A", ""),
        view(ViewKind::Focused {
            binding: 1,
            value: false,
            content: Box::new(field("B", "")),
        }),
    ]);
    let mut fixture = Fixture::new(view, 40, 5);
    let chain = fixture.focus_chain();
    assert!(fixture.root.sync_focused(Some(chain[1])));
    assert_eq!(fixture.root.children[1].focus_signal, Some(true));
    assert!(fixture.root.sync_focused(Some(chain[0])));
    assert_eq!(fixture.root.children[1].focus_signal, Some(false));
    assert!(!fixture.root.sync_focused(None));
}

#[test]
fn disabled_tabs_are_passed_over() {
    let tab = |id: u32, enabled: bool| TabView {
        entry: TabEntry { id, enabled, badge: Some(12) },
        label: text("tab"),
        content: text("content"),
    };
    let view = stretched(
        ViewKind::Tabs { selection: 0, tabs: vec![tab(0, true), tab(1, false), tab(2, true)] },
        StretchAxis::Both,
    );
    let mut fixture = Fixture::new(view, 40, 6);
    let out = fixture.draw(40, 6);
    assert!(out.contains("tab 12"), "got:\n{out}");
    let id = fixture.focus_chain()[0];
    assert!(fixture.handles(id, KeyCode::Right));
    assert!(matches!(fixture.root.kind, Kind::Tabs { selection: 2, .. }));
    assert!(fixture.handles(id, KeyCode::Right));
    assert!(matches!(fixture.root.kind, Kind::Tabs { selection: 0, .. }));
    assert!(fixture.handles(id, KeyCode::Left));
    assert!(matches!(fixture.root.kind, Kind::Tabs { selection: 2, .. }));
    // A click on a disabled label does not select it; one on an enabled label does.
    let labels: Vec<CellRect> = fixture.root.children[..3].iter().map(|n| n.frame).collect();
    fixture.click(labels[1].x, labels[1].y);
    assert!(matches!(fixture.root.kind, Kind::Tabs { selection: 2, .. }));
    fixture.click(labels[0].x, labels[0].y);
    assert!(matches!(fixture.root.kind, Kind::Tabs { selection: 0, .. }));
}

#[test]
fn hooks_and_underlays_are_noted() {
    let hook = view(ViewKind::LifeCycle {
        hook: 11,
        appear: true,
        content: Box::new(stretched(ViewKind::Surface(1), StretchAxis::Both)),
    });
    let gone = view(ViewKind::LifeCycle {
        hook: 12,
        appear: false,
        content: Box::new(stretched(ViewKind::Surface(2), StretchAxis::Both)),
    });
    let mut fixture = Fixture::new(column(vec![hook, gone]), 10, 4);
    assert_eq!(fixture.renderer.take_appear_hooks(), vec![11]);
    assert!(fixture.renderer.take_appear_hooks().is_empty());
    assert!(matches!(fixture.root.children[0].kind, Kind::Gpu { underlay: true, .. }));
    assert!(matches!(fixture.root.children[1].kind, Kind::Gpu { underlay: false, .. }));
}

#[test]
fn focus_ids_are_given_out_once() {
    let view = column(vec![field("A", ""), button("B", 0), tabs(0), scroll(field("C", ""))]);
    let fixture = Fixture::new(view, 40, 20);
    let mut chain = fixture.focus_chain();
    assert_eq!(chain.len(), 5);
    chain.sort();
    chain.dedup();
    assert_eq!(chain, vec![0, 1, 2, 3, 4]);
}

#[test]
fn trailing_and_centered_lines() {
    let line = |alignment: Alignment| {
        view(ViewKind::Text {
            content: vec![Span::plain("ab\ncdef")],
            alignment,
            line_limit: Some(2),
        })
    };
    let out = Fixture::new(line(Alignment::Trailing), 6, 2).draw(6, 2);
    assert_eq!(out, "    ab\n  cdef\n");
    let out = Fixture::new(line(Alignment::Center), 6, 2).draw(6, 2);
    assert_eq!(out, "  ab  \n cdef \n");
}

#[test]
fn slot_content_is_drawn_and_placed() {
    let view = view(ViewKind::Dynamic(Some(Box::new(text("inside")))));
    let mut fixture = Fixture::new(view, 10, 2);
    assert!(fixture.draw(10, 2).starts_with("inside"));
    if let Kind::Dynamic(slot) = &mut fixture.root.kind {
        **slot = fixture.renderer.dispatch(&text("other")).unwrap();
    }
    assert!(fixture.draw(10, 2).starts_with("other"));
}

#[test]
fn lazy_children_are_drawn_and_hit() {
    let view = view(ViewKind::Lazy {
        layout: COLUMN,
        children: vec![text("one"), button("Two", 2)],
    });
    let mut fixture = Fixture::new(view, 20, 2);
    let out = fixture.draw(20, 2);
    assert!(out.contains("one") && out.contains("[ Two ]"), "got:\n{out}");
    let chain = fixture.focus_chain();
    let frame = contained(&fixture.root)[1].frame;
    assert_eq!(fixture.root.hit(frame.x, frame.y), Some(chain[0]));
    assert_eq!(fixture.press(chain[0], KeyCode::Char(' ')), Reply::Run(2));
}

#[test]
fn viewport_leaves_other_rows_alone() {
    let lines: String = (0..20).map(|i| format!("line{i}\n")).collect();
    let mut content = Node::new(Kind::Text {
        content: vec![Span::plain(&lines)],
        alignment: Alignment::Leading,
        line_limit: None,
    });
    content.frame = CellRect::new(0, 2, 10, 20);
    let mut viewport = Node::new(Kind::Scroll(ScrollState {
        extent: (10, 20),
        offset: (0, 5),
        ..ScrollState::new(ScrollAxis::Vertical)
    }));
    viewport.frame = CellRect::new(0, 2, 10, 3);
    viewport.children.push(content);
    let mut buf = screen_buffer(CellRect::new(0, 0, 10, 8));
    for row in 0..8 {
        buf.set_string(0, row, "xxxxxxxxxx", ratatui::style::Style::default());
    }
    let ctx = DrawCtx { theme: terminal_theme(), focused: None, tick: 0 };
    viewport.render(&mut buf, &ctx, &mut Vec::new(), &mut Vec::new());
    let out = buffer_string(&buf);
    let rows: Vec<&str> = out.lines().collect();
    for row in [0, 1, 5, 6, 7] {
        assert_eq!(rows[row], "xxxxxxxxxx");
    }
    assert!(rows[2].starts_with("line5"));
    assert!(rows[4].starts_with("line7"));
}

#[test]
fn controls_have_focus_ids_and_nothing_else_has() {
    let tree = || {
        column(vec![
            text("plain"),
            button("Go", 1),
            view(ViewKind::Toggle {
                value: false,
                style: ToggleStyle::Automatic,
                label: Box::new(text("Enable")),
            }),
            view(ViewKind::Scroll { axis: ScrollAxis::Vertical, content: Box::new(button("In", 2)) }),
        ])
    };
    let mut fixture = Fixture::new(tree(), 40, 12);
    let root = &fixture.root;
    assert_eq!(root.focus, None);
    assert_eq!(root.children[0].focus, None);
    assert!(root.children[1..].iter().all(|child| child.focus.is_some()));
    assert_eq!(root.children[1].children[0].focus, None);
    assert!(root.children[3].children[0].focus.is_some());
    // What is dispatched later has other ids.
    let first = fixture.focus_chain();
    assert_eq!(first.len(), 4);
    fixture.root = fixture.renderer.dispatch(&tree()).unwrap();
    let second = fixture.focus_chain();
    assert_eq!(second.len(), 4);
    assert!(first.iter().all(|id| !second.contains(id)));
}
