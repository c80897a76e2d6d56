//! Turning a tree of views into nodes.
//!
//! A host hands over its views as plain values ([`ViewTree`]); the renderer makes nodes of
//! them and keeps what belongs to the whole tree: the focus ids that were given out, the
//! animations that run, the hooks that are due, and who asked for the focus.

use vstd::prelude::*;

use crate::controls::{Alignment, ButtonStyle, ProgressStyle, TabEntry, ToggleStyle};
use crate::node::{
    all_focus_ids, nodes_view, FieldState, FieldView, Kind, KindView, LazyState, Node, NodeView, SecureState,
    SecureView, StretchAxis,
};
use crate::scroll::{ScrollAxis, ScrollState};
use crate::style::CellColor;
use crate::text::{chars_of, spans_view, Span, SpanView};

verus! {

/// A view and how it stretches.
pub struct ViewTree {
    /// What the view is.
    pub kind: ViewKind,
    /// How the view stretches; views that only wrap another one have none of their own.
    pub stretch: StretchAxis,
    /// The host's key for what feeds the view.
    pub source: Option<u32>,
}

/// One tab: what the bar shows of it, and its content.
pub struct TabView {
    pub entry: TabEntry,
    pub label: ViewTree,
    pub content: ViewTree,
}

/// What a view is.
#[allow(inconsistent_fields)]
pub enum ViewKind {
    /// Nothing.
    Empty,
    /// A text without styling.
    Plain(String),
    /// A styled text.
    Text { content: Vec<Span>, alignment: Alignment, line_limit: Option<usize> },
    /// Room that pushes its neighbours apart, by a layout of the host.
    Spacer(u32),
    /// A rule across the axis of the stack it stands in.
    Divider { in_row: bool },
    /// A color.
    Color(CellColor),
    /// A gradient of the host.
    Gradient(u32),
    /// A GPU surface of the host.
    Surface(u32),
    /// An icon of the system, by its name.
    Icon(String),
    /// A button.
    Button { action: u32, style: ButtonStyle, label: Box<ViewTree> },
    /// A toggle.
    Toggle { value: bool, style: ToggleStyle, label: Box<ViewTree> },
    /// A text field.
    Field { label: String, value: String, prompt: String, submit: Option<u32> },
    /// A masked text field.
    Secure { label: String, value: String, submit: Option<u32> },
    /// A slider.
    Slider { value: i64, label: Box<ViewTree>, low: Box<ViewTree>, high: Box<ViewTree> },
    /// A stepper.
    Stepper {
        value: i32,
        step: i32,
        low: i32,
        high: i32,
        formatter: Option<String>,
        label: Box<ViewTree>,
    },
    /// A progress indicator.
    Progress { value: u32, style: ProgressStyle, label: Box<ViewTree>, value_label: Box<ViewTree> },
    /// A viewport.
    Scroll { axis: ScrollAxis, content: Box<ViewTree> },
    /// A tab bar.
    Tabs { selection: u32, tabs: Vec<TabView> },
    /// A title bar over a content.
    Navigation { hidden: bool, title: Box<ViewTree>, content: Box<ViewTree> },
    /// Views that a layout of the host places, later ones above earlier ones.
    Fixed { layout: u32, children: Vec<ViewTree> },
    /// Views of a collection.
    Lazy { layout: u32, children: Vec<ViewTree> },
    /// A slot and what it holds, if anything.
    Dynamic(Option<Box<ViewTree>>),
    /// Sets the layout priority of a view.
    Priority(i32, Box<ViewTree>),
    /// Runs a hook of the host when the view appears, or when it goes.
    LifeCycle { hook: u32, appear: bool, content: Box<ViewTree> },
    /// Ties a flag of the host to the focus in a view.
    Focused { binding: u32, value: bool, content: Box<ViewTree> },
    /// Moves a view on screen without moving it in the layout.
    Offset { x: i64, y: i64, content: Box<ViewTree> },
    /// Says something of a view that a terminal cannot show.
    Wrapper(Box<ViewTree>),
}

/// What the renderer keeps of a whole tree, as a value.
pub struct Registry {
    /// The focus id that is given out next.
    pub next_focus: nat,
    /// The number of animations that run.
    pub animated: nat,
    /// The hooks that are due.
    pub appear: Seq<u32>,
    /// The flags that are tied to the focus, each with the id that it asks the focus for.
    pub watches: Seq<(u32, u32)>,
}

impl Registry {
    /// After the next focus id was given out.
    pub open spec fn focus_taken(self) -> Registry {
        Registry { next_focus: self.next_focus + 1, ..self }
    }
}

/// A text without styling.
pub open spec fn plain_span(text: Seq<char>) -> SpanView {
    SpanView { text, style: crate::style::plain_style() }
}

/// The name of an icon in brackets: a terminal has no icons.
pub open spec fn bracketed(name: Seq<char>) -> Seq<char> {
    "["@ + name + "]"@
}

/// A paragraph of one run, from the left.
pub open spec fn one_run(text: Seq<char>, line_limit: Option<usize>) -> KindView {
    KindView::Text { content: seq![plain_span(text)], alignment: Alignment::Leading, line_limit }
}

/// What the node of a view shows, before its content is known.
#[verifier::opaque]
pub open spec fn shell_kind(kind: ViewKind, underlay: bool) -> KindView {
    match kind {
        ViewKind::Plain(text) => one_run(text@, None),
        ViewKind::Text { content, alignment, line_limit } => KindView::Text {
            content: spans_view(content@),
            alignment,
            line_limit,
        },
        ViewKind::Spacer(layout) => KindView::Container(layout),
        ViewKind::Divider { in_row } => KindView::Divider { vertical: in_row },
        ViewKind::Color(color) => KindView::Fill(color),
        ViewKind::Gradient(key) => KindView::Gradient(key),
        ViewKind::Surface(key) => KindView::Gpu { key, underlay, ready: false },
        ViewKind::Icon(name) => one_run(bracketed(name@), Some(1)),
        ViewKind::Button { action, style, .. } => KindView::Button { action, style },
        ViewKind::Toggle { value, style, .. } => KindView::Toggle { value, style },
        ViewKind::Field { label, value, prompt, submit } => KindView::Field(
            FieldView {
                label: label@,
                value: value@,
                prompt: prompt@,
                cursor: value@.len() as usize,
                submit,
            },
        ),
        ViewKind::Secure { label, value, submit } => KindView::Secure(
            SecureView { label: label@, value: value@, cursor: value@.len() as usize, submit },
        ),
        ViewKind::Slider { value, .. } => KindView::Slider { value, track: (0, 0) },
        ViewKind::Stepper { value, step, low, high, formatter, .. } => KindView::Stepper {
            value,
            step,
            low,
            high,
            formatter: match formatter {
                Some(text) => Some(text@),
                None => None,
            },
        },
        ViewKind::Progress { value, style, .. } => KindView::Progress { value, style, bar: (0, 0) },
        ViewKind::Scroll { axis, .. } => KindView::Scroll(ScrollState::resting(axis)),
        ViewKind::Tabs { selection, tabs } => KindView::Tabs { selection, tabs: entries(tabs@) },
        ViewKind::Navigation { hidden, .. } => KindView::NavBar { hidden },
        ViewKind::Fixed { layout, .. } => KindView::Container(layout),
        _ => KindView::Empty,
    }
}

/// How the node of a view stretches: a divider along its own axis, an icon not at all.
pub open spec fn shell_stretch(view: ViewTree) -> StretchAxis {
    match view.kind {
        ViewKind::Empty => StretchAxis::Neither,
        ViewKind::Icon(_) => StretchAxis::Neither,
        ViewKind::Divider { in_row } => if in_row {
            StretchAxis::Vertical
        } else {
            StretchAxis::Horizontal
        },
        _ => view.stretch,
    }
}

/// The node of a view without what it contains.
pub open spec fn shell(view: ViewTree, underlay: bool) -> NodeView {
    NodeView {
        stretch: shell_stretch(view),
        source: view.source,
        ..Node::of(shell_kind(view.kind, underlay))
    }
}

/// A node that can have the focus, under the next id.
pub open spec fn focusable(
    view: ViewTree,
    underlay: bool,
    children: Seq<NodeView>,
    after: Registry,
) -> (NodeView, Registry) {
    (
        NodeView {
            children,
            focus: Some(after.next_focus as u32),
            ..shell(view, underlay)
        },
        after.focus_taken(),
    )
}

/// What is kept once an animation runs, where a progress indicator has one.
pub open spec fn animation_begun(style: ProgressStyle, start: Registry) -> Registry {
    Registry {
        animated: start.animated + if style == ProgressStyle::Loading {
            1nat
        } else {
            0nat
        },
        ..start
    }
}

/// What is kept once a hook is due.
pub open spec fn hook_due(hook: u32, appear: bool, start: Registry) -> Registry {
    Registry { appear: if appear { start.appear.push(hook) } else { start.appear }, ..start }
}

/// What is kept once a flag is tied to the focus in a node: it asks for the first node
/// there that can have it.
pub open spec fn focus_tied(binding: u32, node: NodeView, start: Registry) -> Registry {
    Registry {
        watches: if node.focus_ids().len() > 0 {
            start.watches.push((binding, node.focus_ids()[0]))
        } else {
            start.watches
        },
        ..start
    }
}

/// The node of a view, and what is kept afterwards. `underlay` tells whether the view lies
/// below others.
pub open spec fn dispatched(view: ViewTree, start: Registry, underlay: bool) -> (NodeView, Registry)
    decreases view,
{
    match view.kind {
        ViewKind::Button { label, .. } => {
            let (child, after) = dispatched(*label, start, underlay);
            focusable(view, underlay, seq![child], after)
        },
        ViewKind::Toggle { label, .. } => {
            let (child, after) = dispatched(*label, start, underlay);
            focusable(view, underlay, seq![child], after)
        },
        ViewKind::Stepper { label, .. } => {
            let (child, after) = dispatched(*label, start, underlay);
            focusable(view, underlay, seq![child], after)
        },
        ViewKind::Scroll { content, .. } => {
            let (child, after) = dispatched(*content, start, underlay);
            focusable(view, underlay, seq![child], after)
        },
        ViewKind::Field { .. } => focusable(view, underlay, seq![], start),
        ViewKind::Secure { .. } => focusable(view, underlay, seq![], start),
        ViewKind::Slider { label, low, high, .. } => {
            let (first, a) = dispatched(*label, start, underlay);
            let (second, b) = dispatched(*low, a, underlay);
            let (third, after) = dispatched(*high, b, underlay);
            focusable(view, underlay, seq![first, second, third], after)
        },
        ViewKind::Progress { style, label, value_label, .. } => {
            let (first, a) = dispatched(*label, animation_begun(style, start), underlay);
            let (second, after) = dispatched(*value_label, a, underlay);
            (NodeView { children: seq![first, second], ..shell(view, underlay) }, after)
        },
        ViewKind::Navigation { title, content, .. } => {
            let (first, a) = dispatched(*title, start, underlay);
            let (second, after) = dispatched(*content, a, underlay);
            (NodeView { children: seq![first, second], ..shell(view, underlay) }, after)
        },
        ViewKind::Tabs { tabs, .. } => {
            let (labels, contents, after) = tabs_dispatched(tabs@, start, underlay);
            focusable(view, underlay, labels + contents, after)
        },
        ViewKind::Fixed { children, .. } => {
            let (nodes, after) = all_dispatched(children@, start, underlay, children@.len() - 1);
            (NodeView { children: nodes, ..shell(view, underlay) }, after)
        },
        ViewKind::Lazy { layout, children } => {
            let (nodes, after) = all_dispatched(children@, start, underlay, 0);
            (
                NodeView {
                    kind: KindView::Lazy { layout, children: nodes },
                    ..shell(view, underlay)
                },
                after,
            )
        },
        ViewKind::Dynamic(content) => {
            let (slot, after) = match content {
                Some(content) => dispatched(*content, start, underlay),
                None => (Node::blank(), start),
            };
            (NodeView { kind: KindView::Dynamic(Box::new(slot)), ..shell(view, underlay) }, after)
        },
        ViewKind::Priority(priority, content) => {
            let (node, after) = dispatched(*content, start, underlay);
            (NodeView { priority, ..node }, after)
        },
        ViewKind::LifeCycle { hook, appear, content } => dispatched(
            *content,
            hook_due(hook, appear, start),
            underlay,
        ),
        ViewKind::Focused { binding, value, content } => {
            let (node, after) = dispatched(*content, start, underlay);
            (NodeView { focus_signal: Some(value), ..node }, focus_tied(binding, node, after))
        },
        ViewKind::Offset { x, y, content } => {
            let (node, after) = dispatched(*content, start, underlay);
            (NodeView { offset: (x, y), ..node }, after)
        },
        ViewKind::Wrapper(content) => dispatched(*content, start, underlay),
        _ => (shell(view, underlay), start),
    }
}

/// The nodes of a list of views; the first `below` of them lie below others.
pub open spec fn all_dispatched(
    views: Seq<ViewTree>,
    start: Registry,
    underlay: bool,
    below: int,
) -> (Seq<NodeView>, Registry)
    decreases views,
{
    if views.len() == 0 {
        (seq![], start)
    } else {
        let (nodes, a) = all_dispatched(views.drop_last(), start, underlay, below);
        let (node, after) = dispatched(views.last(), a, underlay || views.len() - 1 < below);
        (nodes.push(node), after)
    }
}

/// The label nodes and the content nodes of a list of tabs.
pub open spec fn tabs_dispatched(tabs: Seq<TabView>, start: Registry, underlay: bool) -> (
    Seq<NodeView>,
    Seq<NodeView>,
    Registry,
)
    decreases tabs,
{
    if tabs.len() == 0 {
        (seq![], seq![], start)
    } else {
        let (labels, contents, a) = tabs_dispatched(tabs.drop_last(), start, underlay);
        let (label, b) = dispatched(tabs.last().label, a, underlay);
        let (content, after) = dispatched(tabs.last().content, b, underlay);
        (labels.push(label), contents.push(content), after)
    }
}

/// What the bar shows of a list of tabs.
pub open spec fn entries(tabs: Seq<TabView>) -> Seq<TabEntry> {
    tabs.map_values(|t: TabView| t.entry)
}

/// The number of nodes of a view that can have the focus.
pub open spec fn focusables(view: ViewTree) -> nat
    decreases view,
{
    match view.kind {
        ViewKind::Button { label, .. } => focusables(*label) + 1,
        ViewKind::Toggle { label, .. } => focusables(*label) + 1,
        ViewKind::Field { .. } => 1,
        ViewKind::Secure { .. } => 1,
        ViewKind::Slider { label, low, high, .. } => focusables(*label) + focusables(*low)
            + focusables(*high) + 1,
        ViewKind::Stepper { label, .. } => focusables(*label) + 1,
        ViewKind::Progress { label, value_label, .. } => focusables(*label) + focusables(*value_label),
        ViewKind::Scroll { content, .. } => focusables(*content) + 1,
        ViewKind::Tabs { tabs, .. } => tabs_focusables(tabs@) + 1,
        ViewKind::Navigation { title, content, .. } => focusables(*title) + focusables(*content),
        ViewKind::Fixed { children, .. } => all_focusables(children@),
        ViewKind::Lazy { children, .. } => all_focusables(children@),
        ViewKind::Dynamic(content) => match content {
            Some(content) => focusables(*content),
            None => 0,
        },
        ViewKind::Priority(_, content) => focusables(*content),
        ViewKind::LifeCycle { content, .. } => focusables(*content),
        ViewKind::Focused { content, .. } => focusables(*content),
        ViewKind::Offset { content, .. } => focusables(*content),
        ViewKind::Wrapper(content) => focusables(*content),
        _ => 0,
    }
}

/// The number of nodes of a list of views that can have the focus.
pub open spec fn all_focusables(views: Seq<ViewTree>) -> nat
    decreases views,
{
    if views.len() == 0 {
        0
    } else {
        all_focusables(views.drop_last()) + focusables(views.last())
    }
}

/// The number of nodes of a list of tabs that can have the focus.
pub open spec fn tabs_focusables(tabs: Seq<TabView>) -> nat
    decreases tabs,
{
    if tabs.len() == 0 {
        0
    } else {
        tabs_focusables(tabs.drop_last()) + focusables(tabs.last().label) + focusables(
            tabs.last().content,
        )
    }
}

/// The number of spinners of a view.
pub open spec fn spinners(view: ViewTree) -> nat
    decreases view,
{
    match view.kind {
        ViewKind::Button { label, .. } => spinners(*label),
        ViewKind::Toggle { label, .. } => spinners(*label),
        ViewKind::Slider { label, low, high, .. } => spinners(*label) + spinners(*low) + spinners(*high),
        ViewKind::Stepper { label, .. } => spinners(*label),
        ViewKind::Progress { style, label, value_label, .. } => spinners(*label) + spinners(*value_label)
            + if style == ProgressStyle::Loading {
            1nat
        } else {
            0nat
        },
        ViewKind::Scroll { content, .. } => spinners(*content),
        ViewKind::Tabs { tabs, .. } => tabs_spinners(tabs@),
        ViewKind::Navigation { title, content, .. } => spinners(*title) + spinners(*content),
        ViewKind::Fixed { children, .. } => all_spinners(children@),
        ViewKind::Lazy { children, .. } => all_spinners(children@),
        ViewKind::Dynamic(content) => match content {
            Some(content) => spinners(*content),
            None => 0,
        },
        ViewKind::Priority(_, content) => spinners(*content),
        ViewKind::LifeCycle { content, .. } => spinners(*content),
        ViewKind::Focused { content, .. } => spinners(*content),
        ViewKind::Offset { content, .. } => spinners(*content),
        ViewKind::Wrapper(content) => spinners(*content),
        _ => 0,
    }
}

/// The number of spinners of a list of views.
pub open spec fn all_spinners(views: Seq<ViewTree>) -> nat
    decreases views,
{
    if views.len() == 0 {
        0
    } else {
        all_spinners(views.drop_last()) + spinners(views.last())
    }
}

/// The number of spinners of a list of tabs.
pub open spec fn tabs_spinners(tabs: Seq<TabView>) -> nat
    decreases tabs,
{
    if tabs.len() == 0 {
        0
    } else {
        tabs_spinners(tabs.drop_last()) + spinners(tabs.last().label) + spinners(tabs.last().content)
    }
}

proof fn lemma_counts(view: ViewTree, start: Registry, underlay: bool)
    ensures
        dispatched(view, start, underlay).1.next_focus == start.next_focus + focusables(view),
        dispatched(view, start, underlay).1.animated == start.animated + spinners(view),
    decreases view,
{
    match view.kind {
        ViewKind::Button { label, .. } => lemma_counts(*label, start, underlay),
        ViewKind::Toggle { label, .. } => lemma_counts(*label, start, underlay),
        ViewKind::Slider { label, low, high, .. } => {
            let a = dispatched(*label, start, underlay).1;
            let b = dispatched(*low, a, underlay).1;
            lemma_counts(*label, start, underlay);
            lemma_counts(*low, a, underlay);
            lemma_counts(*high, b, underlay);
        },
        ViewKind::Stepper { label, .. } => lemma_counts(*label, start, underlay),
        ViewKind::Progress { style, label, value_label, .. } => {
            let begun = animation_begun(style, start);
            let a = dispatched(*label, begun, underlay).1;
            lemma_counts(*label, begun, underlay);
            lemma_counts(*value_label, a, underlay);
        },
        ViewKind::Scroll { content, .. } => lemma_counts(*content, start, underlay),
        ViewKind::Tabs { tabs, .. } => lemma_tabs_counts(tabs@, start, underlay),
        ViewKind::Navigation { title, content, .. } => {
            let a = dispatched(*title, start, underlay).1;
            lemma_counts(*title, start, underlay);
            lemma_counts(*content, a, underlay);
        },
        ViewKind::Fixed { children, .. } => {
            lemma_all_counts(children@, start, underlay, children@.len() - 1)
        },
        ViewKind::Lazy { children, .. } => lemma_all_counts(children@, start, underlay, 0),
        ViewKind::Dynamic(content) => {
            if let Some(content) = content {
                lemma_counts(*content, start, underlay);
            }
        },
        ViewKind::Priority(_, content) => lemma_counts(*content, start, underlay),
        ViewKind::LifeCycle { hook, appear, content } => {
            lemma_counts(*content, hook_due(hook, appear, start), underlay)
        },
        ViewKind::Focused { content, .. } => lemma_counts(*content, start, underlay),
        ViewKind::Offset { content, .. } => lemma_counts(*content, start, underlay),
        ViewKind::Wrapper(content) => lemma_counts(*content, start, underlay),
        _ => {},
    }
}

proof fn lemma_all_counts(views: Seq<ViewTree>, start: Registry, underlay: bool, below: int)
    ensures
        all_dispatched(views, start, underlay, below).1.next_focus == start.next_focus
            + all_focusables(views),
        all_dispatched(views, start, underlay, below).1.animated == start.animated + all_spinners(
            views,
        ),
    decreases views,
{
    if views.len() > 0 {
        assert(decreases_to!(views => views.last()));
        assert(decreases_to!(views => views.drop_last()));
        let a = all_dispatched(views.drop_last(), start, underlay, below).1;
        lemma_all_counts(views.drop_last(), start, underlay, below);
        lemma_counts(views.last(), a, underlay || views.len() - 1 < below);
    }
}

proof fn lemma_tabs_counts(tabs: Seq<TabView>, start: Registry, underlay: bool)
    ensures
        tabs_dispatched(tabs, start, underlay).2.next_focus == start.next_focus + tabs_focusables(
            tabs,
        ),
        tabs_dispatched(tabs, start, underlay).2.animated == start.animated + tabs_spinners(tabs),
    decreases tabs,
{
    if tabs.len() > 0 {
        assert(decreases_to!(tabs => tabs.last()));
        assert(decreases_to!(tabs => tabs.drop_last()));
        let a = tabs_dispatched(tabs.drop_last(), start, underlay).2;
        let b = dispatched(tabs.last().label, a, underlay).1;
        lemma_tabs_counts(tabs.drop_last(), start, underlay);
        lemma_counts(tabs.last().label, a, underlay);
        lemma_counts(tabs.last().content, b, underlay);
    }
}

proof fn lemma_prefix_counts(views: Seq<ViewTree>, n: int)
    requires
        0 <= n <= views.len(),
    ensures
        all_focusables(views.take(n)) <= all_focusables(views),
        all_spinners(views.take(n)) <= all_spinners(views),
    decreases views.len(),
{
    if n < views.len() {
        lemma_prefix_counts(views.drop_last(), n);
        assert(views.drop_last().take(n) =~= views.take(n));
    } else {
        assert(views.take(n) =~= views);
    }
}

proof fn lemma_tabs_prefix_counts(tabs: Seq<TabView>, n: int)
    requires
        0 <= n <= tabs.len(),
    ensures
        tabs_focusables(tabs.take(n)) <= tabs_focusables(tabs),
        tabs_spinners(tabs.take(n)) <= tabs_spinners(tabs),
    decreases tabs.len(),
{
    if n < tabs.len() {
        lemma_tabs_prefix_counts(tabs.drop_last(), n);
        assert(tabs.drop_last().take(n) =~= tabs.take(n));
    } else {
        assert(tabs.take(n) =~= tabs);
    }
}

// ---- Building nodes ---------------------------------------------------------------

fn run_kind(text: &str, line_limit: Option<usize>) -> (r: Kind)
    ensures
        r@ == one_run(text@, line_limit),
{
    let mut content: Vec<Span> = Vec::new();
    content.push(Span::plain(text));
    assert(spans_view(content@) =~= seq![plain_span(text@)]);
    Kind::Text { content, alignment: Alignment::Leading, line_limit }
}

fn copy_spans(spans: &Vec<Span>) -> (r: Vec<Span>)
    ensures
        spans_view(r@) == spans_view(spans@),
{
    let mut out: Vec<Span> = Vec::new();
    let mut i: usize = 0;
    while i < spans.len()
        invariant
            i <= spans@.len(),
            out@.len() == i,
            forall|k: int| 0 <= k < i ==> (#[trigger] out@[k])@ == spans@[k]@,
        decreases spans@.len() - i,
    {
        out.push(Span { text: spans[i].text.clone(), style: spans[i].style });
        i += 1;
    }
    assert(spans_view(out@) =~= spans_view(spans@));
    out
}

fn copy_entries(tabs: &Vec<TabView>) -> (r: Vec<TabEntry>)
    ensures
        r@ == entries(tabs@),
{
    let mut out: Vec<TabEntry> = Vec::new();
    let mut i: usize = 0;
    while i < tabs.len()
        invariant
            i <= tabs@.len(),
            out@.len() == i,
            forall|k: int| 0 <= k < i ==> #[trigger] out@[k] == tabs@[k].entry,
        decreases tabs@.len() - i,
    {
        out.push(tabs[i].entry);
        i += 1;
    }
    assert(out@ =~= entries(tabs@));
    out
}

/// The node of a view without what it contains.
fn shell_node(view: &ViewTree, underlay: bool) -> (r: Node)
    ensures
        r@ == shell(*view, underlay),
        r.children@.len() == 0,
{
    reveal(shell_kind);
    let kind = match &view.kind {
        ViewKind::Plain(text) => run_kind(text.as_str(), None),
        ViewKind::Text { content, alignment, line_limit } => Kind::Text {
            content: copy_spans(content),
            alignment: *alignment,
            line_limit: *line_limit,
        },
        ViewKind::Spacer(layout) => Kind::Container(*layout),
        ViewKind::Divider { in_row } => Kind::Divider { vertical: *in_row },
        ViewKind::Color(color) => Kind::Fill(*color),
        ViewKind::Gradient(key) => Kind::Gradient(*key),
        ViewKind::Surface(key) => Kind::Gpu { key: *key, underlay, ready: false },
        ViewKind::Icon(name) => {
            let mut text = String::new();
            text.append("[");
            text.append(name.as_str());
            text.append("]");
            assert(text@ =~= bracketed(name@));
            run_kind(text.as_str(), Some(1))
        },
        ViewKind::Button { action, style, .. } => Kind::Button { action: *action, style: *style },
        ViewKind::Toggle { value, style, .. } => Kind::Toggle { value: *value, style: *style },
        ViewKind::Field { label, value, prompt, submit } => Kind::Field(
            FieldState {
                label: label.clone(),
                value: value.clone(),
                prompt: prompt.clone(),
                cursor: chars_of(value.as_str()).len(),
                submit: *submit,
            },
        ),
        ViewKind::Secure { label, value, submit } => Kind::Secure(
            SecureState {
                label: label.clone(),
                value: value.clone(),
                cursor: chars_of(value.as_str()).len(),
                submit: *submit,
            },
        ),
        ViewKind::Slider { value, .. } => Kind::Slider { value: *value, track: (0, 0) },
        ViewKind::Stepper { value, step, low, high, formatter, .. } => Kind::Stepper {
            value: *value,
            step: *step,
            low: *low,
            high: *high,
            formatter: match formatter {
                Some(text) => Some(text.clone()),
                None => None,
            },
        },
        ViewKind::Progress { value, style, .. } => Kind::Progress {
            value: *value,
            style: *style,
            bar: (0, 0),
        },
        ViewKind::Scroll { axis, .. } => Kind::Scroll(ScrollState::new(*axis)),
        ViewKind::Tabs { selection, tabs } => Kind::Tabs {
            selection: *selection,
            tabs: copy_entries(tabs),
        },
        ViewKind::Navigation { hidden, .. } => Kind::NavBar { hidden: *hidden },
        ViewKind::Fixed { layout, .. } => Kind::Container(*layout),
        _ => Kind::Empty,
    };
    let mut node = Node::new(kind);
    node.stretch = match &view.kind {
        ViewKind::Empty => StretchAxis::Neither,
        ViewKind::Icon(_) => StretchAxis::Neither,
        ViewKind::Divider { in_row } => {
            if *in_row {
                StretchAxis::Vertical
            } else {
                StretchAxis::Horizontal
            }
        },
        _ => view.stretch,
    };
    node.source = view.source;
    node
}

// ---- The renderer's state ---------------------------------------------------------

/// What the renderer keeps of a whole tree.
pub struct TuiState {
    /// Raised when something has to be drawn again.
    pub dirty: bool,
    /// Animation frame counter.
    pub tick: u64,
    /// The number of animations that run; frames are drawn on a timer while there is one.
    pub animated: u32,
    /// The focus id that is given out next.
    pub next_focus: u32,
    /// The hooks that are due.
    pub appear: Vec<u32>,
    /// Who asked for the focus, in order.
    pub focus_requests: Vec<u32>,
    /// The flags that are tied to the focus, each with the id that it asks the focus for.
    pub watches: Vec<(u32, u32)>,
}

impl TuiState {
    /// What is kept, as a value.
    pub open spec fn registry(&self) -> Registry {
        Registry {
            next_focus: self.next_focus as nat,
            animated: self.animated as nat,
            appear: self.appear@,
            watches: self.watches@,
        }
    }

    /// A state before anything was dispatched: nothing is kept, and everything has to be
    /// drawn.
    pub fn new() -> (r: TuiState)
        ensures
            r.dirty,
            r.tick == 0,
            r.animated == 0,
            r.registry() == (Registry { next_focus: 0, animated: 0, appear: seq![], watches: seq![] }),
            r.focus_requests@ == Seq::<u32>::empty(),
    {
        let r = TuiState {
            dirty: true,
            tick: 0,
            animated: 0,
            next_focus: 0,
            appear: Vec::new(),
            focus_requests: Vec::new(),
            watches: Vec::new(),
        };
        assert(r.registry().appear =~= seq![]);
        assert(r.registry().watches =~= seq![]);
        r
    }

    /// Whether there are ids and counts enough for a view.
    pub open spec fn fits(&self, view: ViewTree) -> bool {
        &&& self.registry().next_focus + focusables(view) <= u32::MAX
        &&& self.registry().animated + spinners(view) <= u32::MAX
    }

    fn take_id(&mut self) -> (r: u32)
        requires
            old(self).registry().next_focus < u32::MAX,
        ensures
            r == old(self).registry().next_focus,
            final(self).registry() == old(self).registry().focus_taken(),
            final(self).same_but_registry(old(self)),
    {
        let id: u32 = self.next_focus;
        self.next_focus = id + 1;
        id
    }

    /// Two states that differ at most in what dispatching a view changes.
    pub open spec fn same_but_registry(&self, other: &TuiState) -> bool {
        &&& self.dirty == other.dirty
        &&& self.tick == other.tick
        &&& self.focus_requests@ == other.focus_requests@
    }

    fn dispatch_all(&mut self, views: &Vec<ViewTree>, underlay: bool, below: usize) -> (r: Vec<Node>)
        requires
            old(self).registry().next_focus + all_focusables(views@) <= u32::MAX,
            old(self).registry().animated + all_spinners(views@) <= u32::MAX,
        ensures
            (nodes_view(r@), final(self).registry()) == all_dispatched(
                views@,
                old(self).registry(),
                underlay,
                below as int,
            ),
            final(self).same_but_registry(old(self)),
        decreases views@, 0int,
    {
        let ghost start = self.registry();
        let mut out: Vec<Node> = Vec::new();
        let mut i: usize = 0;
        assert(views@.take(0) =~= Seq::<ViewTree>::empty());
        assert(nodes_view(out@) =~= seq![]);
        while i < views.len()
            invariant
                i <= views@.len(),
                start == old(self).registry(),
                start.next_focus + all_focusables(views@) <= u32::MAX,
                start.animated + all_spinners(views@) <= u32::MAX,
                self.same_but_registry(old(self)),
                (nodes_view(out@), self.registry()) == all_dispatched(
                    views@.take(i as int),
                    start,
                    underlay,
                    below as int,
                ),
            decreases views@.len() - i,
        {
            proof {
                assert(decreases_to!(views@ => views@[i as int]));
                assert(views@.take(i + 1).drop_last() =~= views@.take(i as int));
                assert(views@.take(i + 1).last() == views@[i as int]);
                lemma_all_counts(views@.take(i as int), start, underlay, below as int);
                lemma_prefix_counts(views@, i + 1);
            }
            let ghost before = nodes_view(out@);
            let node = self.dispatch(&views[i], underlay || i < below);
            let ghost value = node@;
            out.push(node);
            assert(nodes_view(out@) =~= before.push(value));
            i += 1;
        }
        assert(views@.take(i as int) =~= views@);
        out
    }

    fn dispatch_tabs(&mut self, tabs: &Vec<TabView>, underlay: bool) -> (r: (Vec<Node>, Vec<Node>))
        requires
            old(self).registry().next_focus + tabs_focusables(tabs@) <= u32::MAX,
            old(self).registry().animated + tabs_spinners(tabs@) <= u32::MAX,
        ensures
            (nodes_view(r.0@), nodes_view(r.1@), final(self).registry()) == tabs_dispatched(
                tabs@,
                old(self).registry(),
                underlay,
            ),
            final(self).same_but_registry(old(self)),
        decreases tabs@, 0int,
    {
        let ghost start = self.registry();
        let mut labels: Vec<Node> = Vec::new();
        let mut contents: Vec<Node> = Vec::new();
        let mut i: usize = 0;
        assert(tabs@.take(0) =~= Seq::<TabView>::empty());
        assert(nodes_view(labels@) =~= seq![]);
        while i < tabs.len()
            invariant
                i <= tabs@.len(),
                start == old(self).registry(),
                start.next_focus + tabs_focusables(tabs@) <= u32::MAX,
                start.animated + tabs_spinners(tabs@) <= u32::MAX,
                self.same_but_registry(old(self)),
                (nodes_view(labels@), nodes_view(contents@), self.registry()) == tabs_dispatched(
                    tabs@.take(i as int),
                    start,
                    underlay,
                ),
            decreases tabs@.len() - i,
        {
            proof {
                assert(decreases_to!(tabs@ => tabs@[i as int]));
                assert(decreases_to!(tabs@[i as int] => tabs@[i as int].label));
                assert(decreases_to!(tabs@[i as int] => tabs@[i as int].content));
                assert(tabs@.take(i + 1).drop_last() =~= tabs@.take(i as int));
                assert(tabs@.take(i + 1).last() == tabs@[i as int]);
                lemma_tabs_counts(tabs@.take(i as int), start, underlay);
                lemma_counts(tabs@[i as int].label, self.registry(), underlay);
                lemma_tabs_prefix_counts(tabs@, i + 1);
            }
            let ghost heads = nodes_view(labels@);
            let ghost bodies = nodes_view(contents@);
            let label = self.dispatch(&tabs[i].label, underlay);
            let content = self.dispatch(&tabs[i].content, underlay);
            let ghost head = label@;
            let ghost body = content@;
            labels.push(label);
            contents.push(content);
            assert(nodes_view(labels@) =~= heads.push(head));
            assert(nodes_view(contents@) =~= bodies.push(body));
            i += 1;
        }
        assert(tabs@.take(i as int) =~= tabs@);
        (labels, contents)
    }

    fn dispatch_focusable(&mut self, view: &ViewTree, underlay: bool, children: Vec<Node>) -> (r: Node)
        requires
            old(self).registry().next_focus < u32::MAX,
        ensures
            (r@, final(self).registry()) == focusable(
                *view,
                underlay,
                nodes_view(children@),
                old(self).registry(),
            ),
            final(self).same_but_registry(old(self)),
    {
        let mut node = shell_node(view, underlay);
        node.children = children;
        node.focus = Some(self.take_id());
        node
    }

    fn dispatch_one(&mut self, view: &ViewTree, underlay: bool, child: &ViewTree) -> (r: Node)
        requires
            old(self).registry().next_focus + focusables(*child) < u32::MAX,
            old(self).registry().animated + spinners(*child) <= u32::MAX,
        ensures
            ({
                let (node, after) = dispatched(*child, old(self).registry(), underlay);
                (r@, final(self).registry()) == focusable(*view, underlay, seq![node], after)
            }),
            final(self).same_but_registry(old(self)),
        decreases *child, 2int,
    {
        proof {
            lemma_counts(*child, self.registry(), underlay);
        }
        let node = self.dispatch(child, underlay);
        let ghost value = node@;
        let mut children: Vec<Node> = Vec::new();
        children.push(node);
        assert(nodes_view(children@) =~= seq![value]);
        self.dispatch_focusable(view, underlay, children)
    }

    fn dispatch_two(
        &mut self,
        view: &ViewTree,
        underlay: bool,
        first: &ViewTree,
        second: &ViewTree,
    ) -> (r: Node)
        requires
            old(self).registry().next_focus + focusables(*first) + focusables(*second) <= u32::MAX,
            old(self).registry().animated + spinners(*first) + spinners(*second) <= u32::MAX,
            decreases_to!(*view => *first),
            decreases_to!(*view => *second),
        ensures
            ({
                let (x, a) = dispatched(*first, old(self).registry(), underlay);
                let (y, after) = dispatched(*second, a, underlay);
                &&& r@ == (NodeView { children: seq![x, y], ..shell(*view, underlay) })
                &&& final(self).registry() == after
            }),
            final(self).same_but_registry(old(self)),
        decreases *view, 0int,
    {
        proof {
            lemma_counts(*first, self.registry(), underlay);
        }
        let x = self.dispatch(first, underlay);
        let y = self.dispatch(second, underlay);
        let ghost values = seq![x@, y@];
        let mut node = shell_node(view, underlay);
        let mut children: Vec<Node> = Vec::new();
        children.push(x);
        children.push(y);
        assert(nodes_view(children@) =~= values);
        node.children = children;
        node
    }

    fn dispatch_slider(
        &mut self,
        view: &ViewTree,
        underlay: bool,
        label: &ViewTree,
        low: &ViewTree,
        high: &ViewTree,
    ) -> (r: Node)
        requires
            old(self).registry().next_focus + focusables(*label) + focusables(*low) + focusables(*high)
                < u32::MAX,
            old(self).registry().animated + spinners(*label) + spinners(*low) + spinners(*high)
                <= u32::MAX,
            decreases_to!(*view => *label),
            decreases_to!(*view => *low),
            decreases_to!(*view => *high),
        ensures
            ({
                let (x, a) = dispatched(*label, old(self).registry(), underlay);
                let (y, b) = dispatched(*low, a, underlay);
                let (z, after) = dispatched(*high, b, underlay);
                (r@, final(self).registry()) == focusable(*view, underlay, seq![x, y, z], after)
            }),
            final(self).same_but_registry(old(self)),
        decreases *view, 0int,
    {
        proof {
            let a = dispatched(*label, self.registry(), underlay).1;
            let b = dispatched(*low, a, underlay).1;
            lemma_counts(*label, self.registry(), underlay);
            lemma_counts(*low, a, underlay);
            lemma_counts(*high, b, underlay);
        }
        let x = self.dispatch(label, underlay);
        let y = self.dispatch(low, underlay);
        let z = self.dispatch(high, underlay);
        let ghost values = seq![x@, y@, z@];
        let mut children: Vec<Node> = Vec::new();
        children.push(x);
        children.push(y);
        children.push(z);
        assert(nodes_view(children@) =~= values);
        self.dispatch_focusable(view, underlay, children)
    }

    /// The nodes of views around others.
    #[verifier::spinoff_prover]
    fn dispatch_container(&mut self, view: &ViewTree, underlay: bool) -> (r: Node)
        requires
            old(self).fits(*view),
            ({
                ||| view.kind is Tabs
                ||| view.kind is Fixed
                ||| view.kind is Lazy
                ||| view.kind is Dynamic
            }),
        ensures
            (r@, final(self).registry()) == dispatched(*view, old(self).registry(), underlay),
            final(self).same_but_registry(old(self)),
        decreases *view, 0int,
    {
        let ghost start = self.registry();
        match &view.kind {
            ViewKind::Tabs { tabs, .. } => {
                proof {
                    lemma_tabs_counts(tabs@, start, underlay);
                }
                let (mut labels, mut contents) = self.dispatch_tabs(tabs, underlay);
                let ghost both = nodes_view(labels@) + nodes_view(contents@);
                labels.append(&mut contents);
                assert(nodes_view(labels@) =~= both);
                self.dispatch_focusable(view, underlay, labels)
            },
            ViewKind::Fixed { children, .. } => {
                let below: usize = if children.len() > 0 { children.len() - 1 } else { 0 };
                assert(children@.len() == 0 ==> all_dispatched(children@, start, underlay, -1)
                    == all_dispatched(children@, start, underlay, 0));
                let nodes = self.dispatch_all(children, underlay, below);
                let mut node = shell_node(view, underlay);
                node.children = nodes;
                node
            },
            ViewKind::Lazy { layout, children } => {
                let nodes = self.dispatch_all(children, underlay, 0);
                let mut node = shell_node(view, underlay);
                node.kind = Kind::Lazy(LazyState { layout: *layout, children: nodes });
                node
            },
            ViewKind::Dynamic(content) => {
                let slot = match content {
                    Some(content) => self.dispatch(content, underlay),
                    None => Node::empty(),
                };
                let mut node = shell_node(view, underlay);
                node.kind = Kind::Dynamic(Box::new(slot));
                node
            },
            _ => shell_node(view, underlay),
        }
    }

    /// The nodes of views that say something of another one.
    #[verifier::spinoff_prover]
    fn dispatch_wrapper(&mut self, view: &ViewTree, underlay: bool) -> (r: Node)
        requires
            old(self).fits(*view),
            ({
                ||| view.kind is Priority
                ||| view.kind is LifeCycle
                ||| view.kind is Focused
                ||| view.kind is Offset
                ||| view.kind is Wrapper
            }),
        ensures
            (r@, final(self).registry()) == dispatched(*view, old(self).registry(), underlay),
            final(self).same_but_registry(old(self)),
        decreases *view, 0int,
    {
        let ghost start = self.registry();
        match &view.kind {
            ViewKind::Priority(priority, content) => {
                let mut node = self.dispatch(content, underlay);
                node.priority = *priority;
                node
            },
            ViewKind::LifeCycle { hook, appear, content } => {
                if *appear {
                    self.appear.push(*hook);
                }
                assert(self.registry() == hook_due(*hook, *appear, start));
                self.dispatch(content, underlay)
            },
            ViewKind::Focused { binding, value, content } => {
                let mut node = self.dispatch(content, underlay);
                let mut ids: Vec<u32> = Vec::new();
                node.collect_focus(&mut ids);
                assert(ids@ =~= node@.focus_ids());
                if ids.len() > 0 {
                    self.watches.push((*binding, ids[0]));
                }
                node.focus_signal = Some(*value);
                node
            },
            ViewKind::Offset { x, y, content } => {
                let mut node = self.dispatch(content, underlay);
                node.offset = (*x, *y);
                node
            },
            ViewKind::Wrapper(content) => self.dispatch(content, underlay),
            _ => shell_node(view, underlay),
        }
    }

    /// Makes the nodes of a view. `underlay` tells whether the view lies below others.
    #[verifier::spinoff_prover]
    pub fn dispatch(&mut self, view: &ViewTree, underlay: bool) -> (r: Node)
        requires
            old(self).fits(*view),
        ensures
            (r@, final(self).registry()) == dispatched(*view, old(self).registry(), underlay),
            final(self).same_but_registry(old(self)),
        decreases *view, 1int,
    {
        let ghost start = self.registry();
        match &view.kind {
            ViewKind::Button { label, .. } => self.dispatch_one(view, underlay, label),
            ViewKind::Toggle { label, .. } => self.dispatch_one(view, underlay, label),
            ViewKind::Stepper { label, .. } => self.dispatch_one(view, underlay, label),
            ViewKind::Scroll { content, .. } => self.dispatch_one(view, underlay, content),
            ViewKind::Field { .. } | ViewKind::Secure { .. } => {
                let children: Vec<Node> = Vec::new();
                assert(nodes_view(children@) =~= seq![]);
                self.dispatch_focusable(view, underlay, children)
            },
            ViewKind::Slider { label, low, high, .. } => {
                self.dispatch_slider(view, underlay, label, low, high)
            },
            ViewKind::Progress { style, label, value_label, .. } => {
                if *style == ProgressStyle::Loading {
                    self.animated += 1;
                }
                assert(self.registry() == animation_begun(*style, start));
                self.dispatch_two(view, underlay, label, value_label)
            },
            ViewKind::Navigation { title, content, .. } => {
                self.dispatch_two(view, underlay, title, content)
            },
            ViewKind::Tabs { .. } | ViewKind::Fixed { .. } | ViewKind::Lazy { .. } | ViewKind::Dynamic(
                _,
            ) => self.dispatch_container(view, underlay),
            ViewKind::Priority(_, _) | ViewKind::LifeCycle { .. } | ViewKind::Focused { .. }
            | ViewKind::Offset { .. } | ViewKind::Wrapper(_) => self.dispatch_wrapper(view, underlay),
            _ => shell_node(view, underlay),
        }
    }
}

// ---- Counting ---------------------------------------------------------------------

/// A count held at one more than the number of ids.
pub open spec fn capped(n: nat) -> u64 {
    if n > u32::MAX {
        0x1_0000_0000
    } else {
        n as u64
    }
}

fn capped_sum(a: u64, b: u64) -> (r: u64)
    requires
        a <= 0x1_0000_0000,
        b <= 0x1_0000_0000,
    ensures
        r == capped((a + b) as nat),
{
    if a + b > 0xffff_ffff {
        0x1_0000_0000
    } else {
        a + b
    }
}

/// Counts the nodes of a view that can have the focus, and its spinners.
pub fn count_nodes(view: &ViewTree) -> (r: (u64, u64))
    ensures
        r.0 == capped(focusables(*view)),
        r.1 == capped(spinners(*view)),
    decreases *view, 1int,
{
    match &view.kind {
        ViewKind::Button { label, .. } | ViewKind::Toggle { label, .. } | ViewKind::Stepper {
            label,
            ..
        } => {
            let inner = count_nodes(label);
            (capped_sum(inner.0, 1), inner.1)
        },
        ViewKind::Scroll { content, .. } => {
            let inner = count_nodes(content);
            (capped_sum(inner.0, 1), inner.1)
        },
        ViewKind::Field { .. } | ViewKind::Secure { .. } => (1, 0),
        ViewKind::Slider { label, low, high, .. } => {
            let a = count_nodes(label);
            let b = count_nodes(low);
            let c = count_nodes(high);
            (
                capped_sum(capped_sum(capped_sum(a.0, b.0), c.0), 1),
                capped_sum(capped_sum(a.1, b.1), c.1),
            )
        },
        ViewKind::Progress { style, label, value_label, .. } => {
            let a = count_nodes(label);
            let b = count_nodes(value_label);
            let own: u64 = if *style == ProgressStyle::Loading { 1 } else { 0 };
            (capped_sum(a.0, b.0), capped_sum(capped_sum(a.1, b.1), own))
        },
        ViewKind::Navigation { title, content, .. } => {
            let a = count_nodes(title);
            let b = count_nodes(content);
            (capped_sum(a.0, b.0), capped_sum(a.1, b.1))
        },
        ViewKind::Tabs { tabs, .. } => {
            let inner = count_tabs(tabs);
            (capped_sum(inner.0, 1), inner.1)
        },
        ViewKind::Fixed { children, .. } | ViewKind::Lazy { children, .. } => count_all(children),
        ViewKind::Dynamic(content) => match content {
            Some(content) => count_nodes(content),
            None => (0, 0),
        },
        ViewKind::Priority(_, content) => count_nodes(content),
        ViewKind::LifeCycle { content, .. } => count_nodes(content),
        ViewKind::Focused { content, .. } => count_nodes(content),
        ViewKind::Offset { content, .. } => count_nodes(content),
        ViewKind::Wrapper(content) => count_nodes(content),
        _ => (0, 0),
    }
}

fn count_all(views: &Vec<ViewTree>) -> (r: (u64, u64))
    ensures
        r.0 == capped(all_focusables(views@)),
        r.1 == capped(all_spinners(views@)),
    decreases views@, 0int,
{
    let mut total: (u64, u64) = (0, 0);
    let mut i: usize = 0;
    assert(views@.take(0) =~= Seq::<ViewTree>::empty());
    while i < views.len()
        invariant
            i <= views@.len(),
            total.0 == capped(all_focusables(views@.take(i as int))),
            total.1 == capped(all_spinners(views@.take(i as int))),
        decreases views@.len() - i,
    {
        proof {
            assert(decreases_to!(views@ => views@[i as int]));
            assert(views@.take(i + 1).drop_last() =~= views@.take(i as int));
        }
        let one = count_nodes(&views[i]);
        total = (capped_sum(total.0, one.0), capped_sum(total.1, one.1));
        i += 1;
    }
    assert(views@.take(i as int) =~= views@);
    total
}

fn count_tabs(tabs: &Vec<TabView>) -> (r: (u64, u64))
    ensures
        r.0 == capped(tabs_focusables(tabs@)),
        r.1 == capped(tabs_spinners(tabs@)),
    decreases tabs@, 0int,
{
    let mut total: (u64, u64) = (0, 0);
    let mut i: usize = 0;
    assert(tabs@.take(0) =~= Seq::<TabView>::empty());
    while i < tabs.len()
        invariant
            i <= tabs@.len(),
            total.0 == capped(tabs_focusables(tabs@.take(i as int))),
            total.1 == capped(tabs_spinners(tabs@.take(i as int))),
        decreases tabs@.len() - i,
    {
        proof {
            assert(decreases_to!(tabs@ => tabs@[i as int]));
            assert(decreases_to!(tabs@[i as int] => tabs@[i as int].label));
            assert(decreases_to!(tabs@[i as int] => tabs@[i as int].content));
            assert(tabs@.take(i + 1).drop_last() =~= tabs@.take(i as int));
        }
        let a = count_nodes(&tabs[i].label);
        let b = count_nodes(&tabs[i].content);
        total = (
            capped_sum(capped_sum(total.0, a.0), b.0),
            capped_sum(capped_sum(total.1, a.1), b.1),
        );
        i += 1;
    }
    assert(tabs@.take(i as int) =~= tabs@);
    total
}

/// The ids that a flag asks the focus for, of the first `n` ties.
pub open spec fn asked_by(watches: Seq<(u32, u32)>, binding: u32, n: nat) -> Seq<u32>
    decreases n,
{
    if n == 0 {
        seq![]
    } else if watches[n - 1].0 == binding {
        asked_by(watches, binding, (n - 1) as nat).push(watches[n - 1].1)
    } else {
        asked_by(watches, binding, (n - 1) as nat)
    }
}

/// The ids that ask for the focus once a flag is written.
pub open spec fn asked_now(watches: Seq<(u32, u32)>, binding: u32, value: bool) -> Seq<u32> {
    if value {
        asked_by(watches, binding, watches.len())
    } else {
        seq![]
    }
}

/// The animation frame after `tick`.
pub open spec fn next_tick(tick: u64) -> u64 {
    if tick == u64::MAX {
        0
    } else {
        (tick + 1) as u64
    }
}

/// How many animations run once one of them is counted in or out.
pub open spec fn counted(animated: int, running: bool, wanted: bool) -> int {
    animated + (if wanted { 1int } else { 0 }) - (if running { 1int } else { 0 })
}

impl TuiState {
    /// Whether there are ids and counts enough for a view.
    pub fn has_room(&self, view: &ViewTree) -> (r: bool)
        ensures
            r == self.fits(*view),
    {
        let count = count_nodes(view);
        self.next_focus as u64 + count.0 <= u32::MAX as u64 && self.animated as u64 + count.1
            <= u32::MAX as u64
    }

    /// Hands out the hooks that are due.
    pub fn take_appear_hooks(&mut self) -> (r: Vec<u32>)
        ensures
            r@ == old(self).appear@,
            final(self).registry() == (Registry { appear: seq![], ..old(self).registry() }),
            final(self).same_but_registry(old(self)),
    {
        let mut due: Vec<u32> = Vec::new();
        std::mem::swap(&mut due, &mut self.appear);
        assert(self.registry().appear =~= seq![]);
        due
    }

    /// Hands out who asked for the focus.
    pub fn take_focus_requests(&mut self) -> (r: Vec<u32>)
        ensures
            r@ == old(self).focus_requests@,
            final(self).focus_requests@ == Seq::<u32>::empty(),
            final(self).registry() == old(self).registry(),
            final(self).dirty == old(self).dirty,
            final(self).tick == old(self).tick,
    {
        let mut asked: Vec<u32> = Vec::new();
        std::mem::swap(&mut asked, &mut self.focus_requests);
        asked
    }

    /// Notes that a flag which is tied to the focus was written: a raised one asks for
    /// the focus.
    pub fn focus_written(&mut self, binding: u32, value: bool)
        ensures
            final(self).focus_requests@ == old(self).focus_requests@ + asked_now(
                old(self).watches@,
                binding,
                value,
            ),
            ({
                let ids = if value {
                    asked_by(old(self).watches@, binding, old(self).watches@.len())
                } else {
                    seq![]
                };
                &&& final(self).focus_requests@ == old(self).focus_requests@ + ids
                &&& final(self).dirty == (old(self).dirty || ids.len() > 0)
            }),
            final(self).registry() == old(self).registry(),
            final(self).tick == old(self).tick,
    {
        let ghost before = self.focus_requests@;
        let ghost watches = self.watches@;
        let mut i: usize = 0;
        assert(before =~= before + asked_by(watches, binding, 0));
        if !value {
            return;
        }
        while i < self.watches.len()
            invariant
                i <= self.watches@.len(),
                watches == self.watches@,
                before == old(self).focus_requests@,
                watches == old(self).watches@,
                self.focus_requests@ == before + asked_by(watches, binding, i as nat),
                self.dirty == (old(self).dirty || asked_by(watches, binding, i as nat).len() > 0),
                self.registry() == old(self).registry(),
                self.tick == old(self).tick,
            decreases self.watches@.len() - i,
        {
            if self.watches[i].0 == binding {
                self.focus_requests.push(self.watches[i].1);
                self.dirty = true;
            }
            i += 1;
            assert(self.focus_requests@ =~= before + asked_by(watches, binding, i as nat));
        }
    }

    /// Whether animations run.
    pub fn is_animated(&self) -> (r: bool)
        ensures
            r == (self.animated > 0),
    {
        self.animated > 0
    }

    /// Advances the animation frame counter, which starts over at its end.
    pub fn bump_tick(&mut self)
        ensures
            final(self).tick == next_tick(old(self).tick),
            final(self).tick == (if old(self).tick == u64::MAX { 0 } else { old(self).tick + 1 }),
            final(self).registry() == old(self).registry(),
            final(self).focus_requests@ == old(self).focus_requests@,
            final(self).dirty == old(self).dirty,
    {
        self.tick = if self.tick == u64::MAX { 0 } else { self.tick + 1 };
    }

    /// Counts an animation source in or out as it starts or stops asking for frames;
    /// `running` is whether it is counted in now.
    pub fn animate(&mut self, running: bool, wanted: bool) -> (r: bool)
        requires
            running ==> old(self).animated > 0,
            old(self).animated < u32::MAX,
        ensures
            r == wanted,
            final(self).animated == counted(old(self).animated as int, running, wanted),
            final(self).animated == old(self).animated + (if wanted { 1int } else { 0 }) - (if running {
                1int
            } else {
                0
            }),
            final(self).same_but_registry(old(self)),
            final(self).registry() == (Registry {
                animated: final(self).animated as nat,
                ..old(self).registry()
            }),
    {
        if !running && wanted {
            self.animated += 1;
        } else if running && !wanted {
            self.animated -= 1;
        }
        wanted
    }
}

/// The renderer: makes nodes of views, and keeps what belongs to the whole tree.
pub struct TuiRenderer {
    pub state: TuiState,
}

impl TuiRenderer {
    /// A renderer that has not made any nodes.
    #[must_use]
    pub fn new() -> (r: TuiRenderer)
        ensures
            r.state.dirty,
            r.state.tick == 0,
            r.state.registry() == (Registry {
                next_focus: 0,
                animated: 0,
                appear: seq![],
                watches: seq![],
            }),
            r.state.focus_requests@ == Seq::<u32>::empty(),
    {
        TuiRenderer { state: TuiState::new() }
    }

    /// Makes the nodes of a view, where there are ids and counts enough for it.
    pub fn dispatch(&mut self, view: &ViewTree) -> (r: Option<Node>)
        ensures
            match r {
                Some(node) => old(self).state.fits(*view) && (node@, final(self).state.registry())
                    == dispatched(*view, old(self).state.registry(), false),
                None => !old(self).state.fits(*view) && *final(self) == *old(self),
            },
            final(self).state.same_but_registry(&old(self).state),
    {
        if self.state.has_room(view) {
            Some(self.state.dispatch(view, false))
        } else {
            None
        }
    }

    /// Whether something has to be drawn again.
    #[must_use]
    pub fn dirty(&self) -> (r: bool)
        ensures
            r == self.state.dirty,
    {
        self.state.dirty
    }

    /// Hands out the hooks that became due.
    pub fn take_appear_hooks(&mut self) -> (r: Vec<u32>)
        ensures
            r@ == old(self).state.appear@,
            final(self).state.registry() == (Registry {
                appear: seq![],
                ..old(self).state.registry()
            }),
            final(self).state.same_but_registry(&old(self).state),
    {
        self.state.take_appear_hooks()
    }

    /// Hands out who asked for the focus.
    pub fn take_focus_requests(&mut self) -> (r: Vec<u32>)
        ensures
            r@ == old(self).state.focus_requests@,
            final(self).state.focus_requests@ == Seq::<u32>::empty(),
            final(self).state.registry() == old(self).state.registry(),
            final(self).state.dirty == old(self).state.dirty,
            final(self).state.tick == old(self).state.tick,
    {
        self.state.take_focus_requests()
    }

    /// Whether animations run.
    pub fn animated(&self) -> (r: bool)
        ensures
            r == (self.state.animated > 0),
    {
        self.state.is_animated()
    }

    /// The animation frame counter.
    pub fn tick(&self) -> (r: u64)
        ensures
            r == self.state.tick,
    {
        self.state.tick
    }

    /// Advances the animation frame counter.
    pub fn bump_tick(&mut self)
        ensures
            final(self).state.tick == next_tick(old(self).state.tick),
            final(self).state.tick == (if old(self).state.tick == u64::MAX {
                0
            } else {
                old(self).state.tick + 1
            }),
            final(self).state.registry() == old(self).state.registry(),
            final(self).state.focus_requests@ == old(self).state.focus_requests@,
            final(self).state.dirty == old(self).state.dirty,
    {
        self.state.bump_tick();
    }
}

// ---- Focus ids --------------------------------------------------------------------

/// Ids that were given out between two counts, each of them once.
pub open spec fn fresh(ids: Seq<u32>, from: nat, to: nat) -> bool {
    &&& ids.no_duplicates()
    &&& forall|i: int| 0 <= i < ids.len() ==> from <= #[trigger] ids[i] < to
}

proof fn lemma_fresh_sum(a: Seq<u32>, b: Seq<u32>, from: nat, middle: nat, to: nat)
    requires
        from <= middle <= to,
        fresh(a, from, middle),
        fresh(b, middle, to),
    ensures
        fresh(a + b, from, to),
        fresh(b + a, from, to),
{
    let c = a + b;
    let d = b + a;
    assert forall|i: int| 0 <= i < c.len() implies from <= #[trigger] c[i] < to by {
        if i < a.len() {
            assert(c[i] == a[i]);
        } else {
            assert(c[i] == b[i - a.len()]);
        }
    }
    assert forall|i: int| 0 <= i < d.len() implies from <= #[trigger] d[i] < to by {
        if i < b.len() {
            assert(d[i] == b[i]);
        } else {
            assert(d[i] == a[i - b.len()]);
        }
    }
    assert forall|i: int, j: int| 0 <= i < c.len() && 0 <= j < c.len() && i != j implies c[i] != c[j] by {
        let x = if i < a.len() { a[i] } else { b[i - a.len()] };
        let y = if j < a.len() { a[j] } else { b[j - a.len()] };
        assert(c[i] == x && c[j] == y);
    }
    assert forall|i: int, j: int| 0 <= i < d.len() && 0 <= j < d.len() && i != j implies d[i] != d[j] by {
        let x = if i < b.len() { b[i] } else { a[i - b.len()] };
        let y = if j < b.len() { b[j] } else { a[j - b.len()] };
        assert(d[i] == x && d[j] == y);
    }
}

proof fn lemma_ids_of_one(a: NodeView)
    ensures
        all_focus_ids(seq![a]) == a.focus_ids(),
{
    assert(seq![a].drop_last() =~= seq![]);
    assert(all_focus_ids(seq![]) =~= Seq::<u32>::empty());
    assert(all_focus_ids(seq![a]) =~= a.focus_ids());
}

proof fn lemma_ids_of_two(a: NodeView, b: NodeView)
    ensures
        all_focus_ids(seq![a, b]) == a.focus_ids() + b.focus_ids(),
{
    lemma_ids_of_one(a);
    assert(seq![a, b].drop_last() =~= seq![a]);
}

proof fn lemma_ids_of_three(a: NodeView, b: NodeView, c: NodeView)
    ensures
        all_focus_ids(seq![a, b, c]) == a.focus_ids() + b.focus_ids() + c.focus_ids(),
{
    lemma_ids_of_two(a, b);
    assert(seq![a, b, c].drop_last() =~= seq![a, b]);
}

proof fn lemma_ids_of_sum(a: Seq<NodeView>, b: Seq<NodeView>)
    ensures
        all_focus_ids(a + b) == all_focus_ids(a) + all_focus_ids(b),
    decreases b.len(),
{
    if b.len() == 0 {
        assert(a + b =~= a);
        assert(all_focus_ids(a) + all_focus_ids(b) =~= all_focus_ids(a));
    } else {
        lemma_ids_of_sum(a, b.drop_last());
        assert((a + b).drop_last() =~= a + b.drop_last());
        assert((a + b).last() == b.last());
        assert(all_focus_ids(a + b) =~= all_focus_ids(a) + all_focus_ids(b));
    }
}

/// A shell contains nothing.
proof fn lemma_shell(kind: ViewKind, underlay: bool)
    ensures
        shell_kind(kind, underlay) !is Lazy,
        shell_kind(kind, underlay) !is Dynamic,
{
    reveal(shell_kind);
}

/// What a node that has the id `own` holds besides the ids of its children.
proof fn lemma_owner(node: NodeView, from: nat, own: nat)
    requires
        own < u32::MAX,
        from <= own,
        node.focus == Some(own as u32),
        node.kind !is Lazy,
        node.kind !is Dynamic,
        fresh(all_focus_ids(node.children), from, own),
    ensures
        fresh(node.focus_ids(), from, own + 1),
        node.focus_ids().len() == all_focus_ids(node.children).len() + 1,
{
    let mine = seq![own as u32];
    assert(fresh(mine, own, own + 1));
    lemma_fresh_sum(all_focus_ids(node.children), mine, from, own, own + 1);
    assert(node.focus_ids() =~= mine + all_focus_ids(node.children));
}

/// What a node that cannot have the focus holds.
proof fn lemma_bystander(node: NodeView)
    requires
        node.focus is None,
        node.kind !is Lazy,
        node.kind !is Dynamic,
    ensures
        node.focus_ids() == all_focus_ids(node.children),
{
    assert(node.focus_ids() =~= all_focus_ids(node.children));
}

/// Every node that can have the focus gets an id of its own, from the next one on and
/// without a gap.
#[verifier::rlimit(50)]
#[verifier::spinoff_prover]
pub proof fn law_focus_ids_are_unique(view: ViewTree, start: Registry, underlay: bool)
    requires
        start.next_focus + focusables(view) <= u32::MAX,
    ensures
        ({
            let (node, after) = dispatched(view, start, underlay);
            &&& fresh(node.focus_ids(), start.next_focus, after.next_focus)
            &&& node.focus_ids().len() == focusables(view)
            &&& after.next_focus == start.next_focus + focusables(view)
        }),
    decreases view,
{
    lemma_counts(view, start, underlay);
    lemma_shell(view.kind, underlay);
    let (node, after) = dispatched(view, start, underlay);
    let from = start.next_focus;
    let none = Seq::<u32>::empty();
    match view.kind {
        ViewKind::Button { label, .. } => {
            law_focus_ids_are_unique(*label, start, underlay);
            lemma_ids_of_one(dispatched(*label, start, underlay).0);
            lemma_owner(node, from, (after.next_focus - 1) as nat);
        },
        ViewKind::Toggle { label, .. } => {
            law_focus_ids_are_unique(*label, start, underlay);
            lemma_ids_of_one(dispatched(*label, start, underlay).0);
            lemma_owner(node, from, (after.next_focus - 1) as nat);
        },
        ViewKind::Stepper { label, .. } => {
            law_focus_ids_are_unique(*label, start, underlay);
            lemma_ids_of_one(dispatched(*label, start, underlay).0);
            lemma_owner(node, from, (after.next_focus - 1) as nat);
        },
        ViewKind::Scroll { content, .. } => {
            law_focus_ids_are_unique(*content, start, underlay);
            lemma_ids_of_one(dispatched(*content, start, underlay).0);
            lemma_owner(node, from, (after.next_focus - 1) as nat);
        },
        ViewKind::Slider { label, low, high, .. } => {
            let (x, a) = dispatched(*label, start, underlay);
            let (y, b) = dispatched(*low, a, underlay);
            let (z, c) = dispatched(*high, b, underlay);
            lemma_counts(*label, start, underlay);
            lemma_counts(*low, a, underlay);
            lemma_counts(*high, b, underlay);
            law_focus_ids_are_unique(*label, start, underlay);
            law_focus_ids_are_unique(*low, a, underlay);
            law_focus_ids_are_unique(*high, b, underlay);
            lemma_ids_of_three(x, y, z);
            lemma_fresh_sum(x.focus_ids(), y.focus_ids(), from, a.next_focus, b.next_focus);
            lemma_fresh_sum(
                x.focus_ids() + y.focus_ids(),
                z.focus_ids(),
                from,
                b.next_focus,
                c.next_focus,
            );
            lemma_owner(node, from, c.next_focus);
        },
        ViewKind::Progress { style, label, value_label, .. } => {
            let begun = animation_begun(style, start);
            let (x, a) = dispatched(*label, begun, underlay);
            let (y, b) = dispatched(*value_label, a, underlay);
            lemma_counts(*label, begun, underlay);
            law_focus_ids_are_unique(*label, begun, underlay);
            law_focus_ids_are_unique(*value_label, a, underlay);
            lemma_ids_of_two(x, y);
            lemma_fresh_sum(x.focus_ids(), y.focus_ids(), from, a.next_focus, b.next_focus);
            lemma_bystander(node);
        },
        ViewKind::Navigation { title, content, .. } => {
            let (x, a) = dispatched(*title, start, underlay);
            let (y, b) = dispatched(*content, a, underlay);
            lemma_counts(*title, start, underlay);
            law_focus_ids_are_unique(*title, start, underlay);
            law_focus_ids_are_unique(*content, a, underlay);
            lemma_ids_of_two(x, y);
            lemma_fresh_sum(x.focus_ids(), y.focus_ids(), from, a.next_focus, b.next_focus);
            lemma_bystander(node);
        },
        ViewKind::Field { .. } => {
            assert(all_focus_ids(node.children) =~= none);
            lemma_owner(node, from, from);
        },
        ViewKind::Secure { .. } => {
            assert(all_focus_ids(node.children) =~= none);
            lemma_owner(node, from, from);
        },
        ViewKind::Tabs { tabs, .. } => {
            lemma_tabs_unique(tabs@, start, underlay);
            let (labels, contents, last) = tabs_dispatched(tabs@, start, underlay);
            lemma_ids_of_sum(labels, contents);
            lemma_owner(node, from, last.next_focus);
        },
        ViewKind::Fixed { children, .. } => {
            lemma_all_unique(children@, start, underlay, children@.len() - 1);
            lemma_bystander(node);
        },
        ViewKind::Lazy { children, .. } => {
            lemma_all_unique(children@, start, underlay, 0);
            assert(all_focus_ids(node.children) =~= none);
            assert(node.focus_ids() =~= all_focus_ids(all_dispatched(children@, start, underlay, 0).0));
        },
        ViewKind::Dynamic(content) => {
            assert(all_focus_ids(node.children) =~= none);
            match content {
                Some(content) => {
                    law_focus_ids_are_unique(*content, start, underlay);
                    assert(node.focus_ids() =~= dispatched(*content, start, underlay).0.focus_ids());
                },
                None => {
                    lemma_bystander(Node::blank());
                    assert(all_focus_ids(Node::blank().children) =~= none);
                    assert(node.focus_ids() =~= none);
                },
            }
        },
        ViewKind::Priority(_, content) => {
            law_focus_ids_are_unique(*content, start, underlay);
            let inner = dispatched(*content, start, underlay).0;
            assert(node.focus_ids() == inner.focus_ids());
        },
        ViewKind::LifeCycle { hook, appear, content } => {
            law_focus_ids_are_unique(*content, hook_due(hook, appear, start), underlay);
        },
        ViewKind::Focused { content, .. } => {
            law_focus_ids_are_unique(*content, start, underlay);
            let inner = dispatched(*content, start, underlay).0;
            assert(node.focus_ids() == inner.focus_ids());
        },
        ViewKind::Offset { content, .. } => {
            law_focus_ids_are_unique(*content, start, underlay);
            let inner = dispatched(*content, start, underlay).0;
            assert(node.focus_ids() == inner.focus_ids());
        },
        ViewKind::Wrapper(content) => {
            law_focus_ids_are_unique(*content, start, underlay);
        },
        _ => {
            assert(all_focus_ids(node.children) =~= none);
            assert(node.focus_ids() =~= none);
        },
    }
}

proof fn lemma_all_unique(views: Seq<ViewTree>, start: Registry, underlay: bool, below: int)
    requires
        start.next_focus + all_focusables(views) <= u32::MAX,
    ensures
        ({
            let (nodes, after) = all_dispatched(views, start, underlay, below);
            &&& fresh(all_focus_ids(nodes), start.next_focus, after.next_focus)
            &&& all_focus_ids(nodes).len() == all_focusables(views)
        }),
    decreases views,
{
    if views.len() > 0 {
        assert(decreases_to!(views => views.last()));
        assert(decreases_to!(views => views.drop_last()));
        let (nodes, a) = all_dispatched(views.drop_last(), start, underlay, below);
        let deeper = underlay || views.len() - 1 < below;
        let (node, after) = dispatched(views.last(), a, deeper);
        lemma_all_counts(views.drop_last(), start, underlay, below);
        lemma_all_unique(views.drop_last(), start, underlay, below);
        law_focus_ids_are_unique(views.last(), a, deeper);
        lemma_fresh_sum(
            all_focus_ids(nodes),
            node.focus_ids(),
            start.next_focus,
            a.next_focus,
            after.next_focus,
        );
        assert(nodes.push(node).drop_last() =~= nodes);
    } else {
        assert(all_focus_ids(seq![]) =~= Seq::<u32>::empty());
    }
}

proof fn lemma_tabs_unique(tabs: Seq<TabView>, start: Registry, underlay: bool)
    requires
        start.next_focus + tabs_focusables(tabs) <= u32::MAX,
    ensures
        ({
            let (labels, contents, after) = tabs_dispatched(tabs, start, underlay);
            &&& fresh(
                all_focus_ids(labels) + all_focus_ids(contents),
                start.next_focus,
                after.next_focus,
            )
            &&& all_focus_ids(labels).len() + all_focus_ids(contents).len() == tabs_focusables(tabs)
        }),
    decreases tabs,
{
    let (labels, contents, after) = tabs_dispatched(tabs, start, underlay);
    if tabs.len() > 0 {
        assert(decreases_to!(tabs => tabs.last()));
        assert(decreases_to!(tabs => tabs.drop_last()));
        let (heads, bodies, a) = tabs_dispatched(tabs.drop_last(), start, underlay);
        let (head, b) = dispatched(tabs.last().label, a, underlay);
        let (body, c) = dispatched(tabs.last().content, b, underlay);
        lemma_tabs_counts(tabs.drop_last(), start, underlay);
        lemma_counts(tabs.last().label, a, underlay);
        lemma_tabs_unique(tabs.drop_last(), start, underlay);
        law_focus_ids_are_unique(tabs.last().label, a, underlay);
        law_focus_ids_are_unique(tabs.last().content, b, underlay);
        assert(labels.drop_last() =~= heads);
        assert(contents.drop_last() =~= bodies);
        let l = all_focus_ids(heads);
        let k = all_focus_ids(bodies);
        lemma_fresh_sum(l + k, head.focus_ids(), start.next_focus, a.next_focus, b.next_focus);
        lemma_fresh_sum(
            l + k + head.focus_ids(),
            body.focus_ids(),
            start.next_focus,
            b.next_focus,
            c.next_focus,
        );
        lemma_fresh_swap(
            l,
            k,
            head.focus_ids(),
            body.focus_ids(),
            start.next_focus,
            c.next_focus,
        );
    } else {
        assert(all_focus_ids(labels) + all_focus_ids(contents) =~= Seq::<u32>::empty());
    }
}

/// The order of the parts does not matter.
proof fn lemma_fresh_swap(a: Seq<u32>, b: Seq<u32>, c: Seq<u32>, d: Seq<u32>, from: nat, to: nat)
    requires
        fresh(a + b + c + d, from, to),
    ensures
        fresh((a + c) + (b + d), from, to),
{
    let s = a + b + c + d;
    let t = (a + c) + (b + d);
    let place = |i: int|
        if i < a.len() {
            i
        } else if i < a.len() + c.len() {
            i + b.len()
        } else if i < a.len() + c.len() + b.len() {
            i - c.len()
        } else {
            i
        };
    assert forall|i: int| 0 <= i < t.len() implies t[i] == s[place(i)] by {}
    assert forall|i: int| 0 <= i < t.len() implies from <= #[trigger] t[i] < to by {
        assert(t[i] == s[place(i)]);
    }
    assert forall|i: int, j: int| 0 <= i < t.len() && 0 <= j < t.len() && i != j implies t[i] != t[j] by {
        assert(place(i) != place(j));
        assert(s[place(i)] != s[place(j)]);
    }
}

} // verus!
