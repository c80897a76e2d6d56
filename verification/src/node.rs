//! The retained node tree.
//!
//! A node is a layout leaf, a drawable region and an event target at once. Layout
//! happens in logical points; the cell frame is what the node covers on screen. What a
//! node shows and edits is held as plain values; a host keeps them in step with its own
//! bindings, and finds the binding of a node by the node's `source`.

use vstd::prelude::*;

use crate::controls::{Alignment, ButtonStyle, ProgressStyle, TabEntry, ToggleStyle};
use crate::geometry::{coordinate, coordinate_sum, CellRect};
use crate::scroll::ScrollState;
use crate::style::CellColor;
use crate::text::{spans_view, Span, SpanView};

verus! {

/// The axis along which a node takes the room that its parent has left.
#[derive(Clone, Copy, Debug, PartialEq, Eq, Structural)]
pub enum StretchAxis {
    Neither,
    Horizontal,
    Vertical,
    Both,
    MainAxis,
    CrossAxis,
}

/// An editable text field.
pub struct FieldState {
    /// Drawn plain before the editable text.
    pub label: String,
    /// The edited text.
    pub value: String,
    /// Shown while the value is empty.
    pub prompt: String,
    /// Cursor position as a character index.
    pub cursor: usize,
    /// What the host runs on confirmation.
    pub submit: Option<u32>,
}

/// A text field whose value is masked on screen.
pub struct SecureState {
    /// Drawn plain before the masked text.
    pub label: String,
    /// The edited secret.
    pub value: String,
    /// Cursor position as a character index.
    pub cursor: usize,
    /// What the host runs on confirmation.
    pub submit: Option<u32>,
}

/// A container whose children come from a collection.
pub struct LazyState {
    /// The host's layout that places the children.
    pub layout: u32,
    /// The materialized children.
    pub children: Vec<Node>,
}

/// What a node shows.
#[allow(inconsistent_fields)]
pub enum Kind {
    /// Nothing to draw; still takes part in layout.
    Empty,
    /// A paragraph.
    Text { content: Vec<Span>, alignment: Alignment, line_limit: Option<usize> },
    /// A button; the first child is its label.
    Button { action: u32, style: ButtonStyle },
    /// A switch or a check box; the first child is its label.
    Toggle { value: bool, style: ToggleStyle },
    /// A text field.
    Field(FieldState),
    /// A masked text field.
    Secure(SecureState),
    /// A slider; the children are its label and the labels of both ends. The value is a
    /// share of the range, in billionths, and may lie outside of it.
    Slider { value: i64, track: (u16, u16) },
    /// A stepper; the first child is its label.
    Stepper { value: i32, step: i32, low: i32, high: i32, formatter: Option<String> },
    /// A progress indicator; the children are its label and the label of its value. The
    /// value is a share in billionths.
    Progress { value: u32, style: ProgressStyle, bar: (u16, u16) },
    /// A viewport; the first child is its content.
    Scroll(ScrollState),
    /// A tab bar: first the labels, then the contents of which one is shown.
    Tabs { selection: u32, tabs: Vec<TabEntry> },
    /// A title bar over a content; the bar collapses while it is hidden.
    NavBar { hidden: bool },
    /// A rule.
    Divider { vertical: bool },
    /// A colored rectangle.
    Fill(CellColor),
    /// A container: the host's layout places the children.
    Container(u32),
    /// A container over a collection.
    Lazy(LazyState),
    /// A slot whose content is exchanged as a whole.
    Dynamic(Box<Node>),
    /// A background color under the children.
    Background(CellColor),
    /// A gradient that the host samples.
    Gradient(u32),
    /// A GPU surface that the host rasterizes; `ready` once it has pixels.
    Gpu { key: u32, underlay: bool, ready: bool },
}

/// A node of the tree.
pub struct Node {
    /// What the node shows.
    pub kind: Kind,
    /// Children of a container, labels of a control, content of a wrapper.
    pub children: Vec<Node>,
    /// The stretch axis reported to parent layouts.
    pub stretch: StretchAxis,
    /// Layout priority.
    pub priority: i32,
    /// The cells that the node covers.
    pub frame: CellRect,
    /// Focus id of a node that can have the focus.
    pub focus: Option<u32>,
    /// Whether the focus lies in this subtree, where somebody asked to know.
    pub focus_signal: Option<bool>,
    /// Visual offset in points; moves the subtree without affecting layout.
    pub offset: (i64, i64),
    /// The host's key for what feeds the node.
    pub source: Option<u32>,
}

// ---- The model --------------------------------------------------------------------

/// A text field as a value.
pub struct FieldView {
    pub label: Seq<char>,
    pub value: Seq<char>,
    pub prompt: Seq<char>,
    pub cursor: usize,
    pub submit: Option<u32>,
}

/// A masked text field as a value.
pub struct SecureView {
    pub label: Seq<char>,
    pub value: Seq<char>,
    pub cursor: usize,
    pub submit: Option<u32>,
}

/// What a node shows, as a value.
#[allow(inconsistent_fields)]
pub enum KindView {
    Empty,
    Text { content: Seq<SpanView>, alignment: Alignment, line_limit: Option<usize> },
    Button { action: u32, style: ButtonStyle },
    Toggle { value: bool, style: ToggleStyle },
    Field(FieldView),
    Secure(SecureView),
    Slider { value: i64, track: (u16, u16) },
    Stepper { value: i32, step: i32, low: i32, high: i32, formatter: Option<Seq<char>> },
    Progress { value: u32, style: ProgressStyle, bar: (u16, u16) },
    Scroll(ScrollState),
    Tabs { selection: u32, tabs: Seq<TabEntry> },
    NavBar { hidden: bool },
    Divider { vertical: bool },
    Fill(CellColor),
    Container(u32),
    Lazy { layout: u32, children: Seq<NodeView> },
    Dynamic(Box<NodeView>),
    Background(CellColor),
    Gradient(u32),
    Gpu { key: u32, underlay: bool, ready: bool },
}

/// A node as a value.
pub struct NodeView {
    pub kind: KindView,
    pub children: Seq<NodeView>,
    pub stretch: StretchAxis,
    pub priority: i32,
    pub frame: CellRect,
    pub focus: Option<u32>,
    pub focus_signal: Option<bool>,
    pub offset: (i64, i64),
    pub source: Option<u32>,
}

impl FieldState {
    pub open spec fn view(&self) -> FieldView {
        FieldView {
            label: self.label@,
            value: self.value@,
            prompt: self.prompt@,
            cursor: self.cursor,
            submit: self.submit,
        }
    }
}

impl SecureState {
    pub open spec fn view(&self) -> SecureView {
        SecureView {
            label: self.label@,
            value: self.value@,
            cursor: self.cursor,
            submit: self.submit,
        }
    }
}

impl Kind {
    pub open spec fn view(&self) -> KindView
        decreases *self,
    {
        match *self {
            Kind::Empty => KindView::Empty,
            Kind::Text { content, alignment, line_limit } => KindView::Text {
                content: spans_view(content@),
                alignment,
                line_limit,
            },
            Kind::Button { action, style } => KindView::Button { action, style },
            Kind::Toggle { value, style } => KindView::Toggle { value, style },
            Kind::Field(state) => KindView::Field(state.view()),
            Kind::Secure(state) => KindView::Secure(state.view()),
            Kind::Slider { value, track } => KindView::Slider { value, track },
            Kind::Stepper { value, step, low, high, formatter } => KindView::Stepper {
                value,
                step,
                low,
                high,
                formatter: match formatter {
                    Some(text) => Some(text@),
                    None => None,
                },
            },
            Kind::Progress { value, style, bar } => KindView::Progress { value, style, bar },
            Kind::Scroll(state) => KindView::Scroll(state),
            Kind::Tabs { selection, tabs } => KindView::Tabs { selection, tabs: tabs@ },
            Kind::NavBar { hidden } => KindView::NavBar { hidden },
            Kind::Divider { vertical } => KindView::Divider { vertical },
            Kind::Fill(color) => KindView::Fill(color),
            Kind::Container(layout) => KindView::Container(layout),
            Kind::Lazy(state) => KindView::Lazy {
                layout: state.layout,
                children: nodes_view(state.children@),
            },
            Kind::Dynamic(slot) => KindView::Dynamic(Box::new(slot.view())),
            Kind::Background(color) => KindView::Background(color),
            Kind::Gradient(key) => KindView::Gradient(key),
            Kind::Gpu { key, underlay, ready } => KindView::Gpu { key, underlay, ready },
        }
    }
}

/// The values of a list of nodes.
pub open spec fn nodes_view(nodes: Seq<Node>) -> Seq<NodeView>
    decreases nodes,
{
    Seq::new(
        nodes.len(),
        |i: int|
            if 0 <= i < nodes.len() {
                nodes[i].view()
            } else {
                arbitrary()
            },
    )
}

impl Node {
    pub open spec fn view(&self) -> NodeView
        decreases *self,
    {
        NodeView {
            kind: self.kind.view(),
            children: nodes_view(self.children@),
            stretch: self.stretch,
            priority: self.priority,
            frame: self.frame,
            focus: self.focus,
            focus_signal: self.focus_signal,
            offset: self.offset,
            source: self.source,
        }
    }

    /// An empty leaf.
    pub open spec fn blank() -> NodeView {
        Node::of(KindView::Empty)
    }

    /// A leaf of some kind.
    pub open spec fn of(kind: KindView) -> NodeView {
        NodeView {
            kind,
            children: Seq::empty(),
            stretch: StretchAxis::Neither,
            priority: 0,
            frame: CellRect::origin(),
            focus: None,
            focus_signal: None,
            offset: (0, 0),
            source: None,
        }
    }

    /// Creates an empty leaf.
    pub fn empty() -> (r: Node)
        ensures
            r@ == Node::blank(),
    {
        Node::new(Kind::Empty)
    }

    /// Creates a leaf of some kind.
    pub fn new(kind: Kind) -> (r: Node)
        ensures
            r@ == Node::of(kind@),
            r.kind == kind,
            r.children@ == Seq::<Node>::empty(),
    {
        let r = Node {
            kind,
            children: Vec::new(),
            stretch: StretchAxis::Neither,
            priority: 0,
            frame: CellRect::zero(),
            focus: None,
            focus_signal: None,
            offset: (0, 0),
            source: None,
        };
        assert(r@.children =~= Node::of(kind@).children);
        r
    }
}

// ---- Focus ------------------------------------------------------------------------

impl NodeView {
    /// The focus ids of a subtree, the node before what it contains.
    pub open spec fn focus_ids(self) -> Seq<u32>
        decreases self,
    {
        let own = match self.focus {
            Some(id) => seq![id],
            None => seq![],
        };
        let inner = match self.kind {
            KindView::Lazy { children, .. } => all_focus_ids(children),
            KindView::Dynamic(slot) => slot.focus_ids(),
            _ => seq![],
        };
        own + all_focus_ids(self.children) + inner
    }

    /// The topmost node that can have the focus and covers a cell. The content of a
    /// viewport keeps its own coordinates, so the viewport's offset is added first.
    pub open spec fn hit_id(self, col: i32, row: i32) -> Option<u32>
        decreases self,
    {
        if !self.frame.covers(col as int, row as int) {
            None
        } else {
            let inner = match self.kind {
                KindView::Lazy { children, .. } => topmost_hit(children, col, row),
                KindView::Dynamic(slot) => slot.hit_id(col, row),
                KindView::Scroll(state) => topmost_hit(
                    self.children,
                    coordinate(col + state.offset.0),
                    coordinate(row + state.offset.1),
                ),
                _ => topmost_hit(self.children, col, row),
            };
            match inner {
                Some(id) => Some(id),
                None => self.focus,
            }
        }
    }

    /// This subtree after every focus signal in it was told whether `focused` lies
    /// below it.
    pub open spec fn told(self, focused: Option<u32>) -> NodeView
        decreases self,
    {
        NodeView {
            kind: match self.kind {
                KindView::Lazy { layout, children } => KindView::Lazy {
                    layout,
                    children: all_told(children, focused),
                },
                KindView::Dynamic(slot) => KindView::Dynamic(Box::new(slot.told(focused))),
                other => other,
            },
            children: all_told(self.children, focused),
            focus_signal: match self.focus_signal {
                Some(_) => Some(self.holds(focused)),
                None => None,
            },
            ..self
        }
    }

    /// Whether `focused` is the id of a node in this subtree.
    pub open spec fn holds(self, focused: Option<u32>) -> bool {
        match focused {
            Some(id) => self.focus_ids().contains(id),
            None => false,
        }
    }
}

/// The focus ids of a list of subtrees.
pub open spec fn all_focus_ids(nodes: Seq<NodeView>) -> Seq<u32>
    decreases nodes,
{
    if nodes.len() == 0 {
        seq![]
    } else {
        all_focus_ids(nodes.drop_last()) + nodes.last().focus_ids()
    }
}

/// The hit in the last of a list of subtrees that has one: later nodes lie above
/// earlier ones.
pub open spec fn topmost_hit(nodes: Seq<NodeView>, col: i32, row: i32) -> Option<u32>
    decreases nodes,
{
    if nodes.len() == 0 {
        None
    } else {
        match nodes.last().hit_id(col, row) {
            Some(id) => Some(id),
            None => topmost_hit(nodes.drop_last(), col, row),
        }
    }
}

/// A list of subtrees after their focus signals were told.
pub open spec fn all_told(nodes: Seq<NodeView>, focused: Option<u32>) -> Seq<NodeView>
    decreases nodes,
{
    Seq::new(
        nodes.len(),
        |i: int|
            if 0 <= i < nodes.len() {
                nodes[i].told(focused)
            } else {
                arbitrary()
            },
    )
}

/// The ids of one more subtree come behind those of the subtrees before.
proof fn lemma_ids_push(nodes: Seq<NodeView>, i: int)
    requires
        0 <= i < nodes.len(),
    ensures
        all_focus_ids(nodes.take(i + 1)) == all_focus_ids(nodes.take(i)) + nodes[i].focus_ids(),
{
    assert(nodes.take(i + 1).drop_last() =~= nodes.take(i));
}

/// A list of subtrees holds an id where one of them does.
pub proof fn lemma_ids_in_some(nodes: Seq<NodeView>, id: u32)
    ensures
        all_focus_ids(nodes).contains(id) <==> exists|i: int|
            0 <= i < nodes.len() && (#[trigger] nodes[i]).focus_ids().contains(id),
    decreases nodes.len(),
{
    if nodes.len() > 0 {
        let front = nodes.drop_last();
        lemma_ids_in_some(front, id);
        lemma_in_sum(all_focus_ids(front), nodes.last().focus_ids(), id);
        if exists|i: int| 0 <= i < nodes.len() && (#[trigger] nodes[i]).focus_ids().contains(id) {
            let i = choose|i: int| 0 <= i < nodes.len() && (#[trigger] nodes[i]).focus_ids().contains(id);
            if i < front.len() {
                assert(front[i].focus_ids().contains(id));
            }
        }
        if all_focus_ids(front).contains(id) {
            let i = choose|i: int| 0 <= i < front.len() && (#[trigger] front[i]).focus_ids().contains(id);
            assert(nodes[i].focus_ids().contains(id));
        }
        if nodes.last().focus_ids().contains(id) {
            assert(nodes[nodes.len() - 1].focus_ids().contains(id));
        }
    }
}

/// A concatenation holds what one of its parts holds.
pub proof fn lemma_in_sum(a: Seq<u32>, b: Seq<u32>, id: u32)
    ensures
        (a + b).contains(id) == (a.contains(id) || b.contains(id)),
{
    if a.contains(id) {
        assert((a + b)[a.index_of(id)] == id);
    }
    if b.contains(id) {
        assert((a + b)[a.len() + b.index_of(id)] == id);
    }
    if (a + b).contains(id) {
        let i = (a + b).index_of(id);
        if i < a.len() {
            assert(a[i] == id);
        } else {
            assert(b[i - a.len()] == id);
        }
    }
}

/// Collects the focus ids of a list of subtrees.
fn collect_all(nodes: &Vec<Node>, out: &mut Vec<u32>)
    ensures
        final(out)@ == old(out)@ + all_focus_ids(nodes_view(nodes@)),
    decreases nodes@,
{
    let ghost values = nodes_view(nodes@);
    let mut i: usize = 0;
    assert(all_focus_ids(values.take(0)) =~= Seq::<u32>::empty());
    while i < nodes.len()
        invariant
            i <= nodes@.len(),
            values == nodes_view(nodes@),
            out@ == old(out)@ + all_focus_ids(values.take(i as int)),
        decreases nodes@.len() - i,
    {
        proof {
            assert(decreases_to!(nodes@ => nodes@[i as int]));
            lemma_ids_push(values, i as int);
        }
        nodes[i].collect_focus(out);
        assert(out@ =~= old(out)@ + all_focus_ids(values.take(i + 1)));
        i += 1;
    }
    assert(values.take(i as int) =~= values);
}

/// The topmost hit in a list of subtrees.
fn hit_all(nodes: &Vec<Node>, col: i32, row: i32) -> (r: Option<u32>)
    ensures
        r == topmost_hit(nodes_view(nodes@), col, row),
    decreases nodes@,
{
    let ghost values = nodes_view(nodes@);
    let mut i: usize = nodes.len();
    assert(values.take(i as int) =~= values);
    while i > 0
        invariant
            i <= nodes@.len(),
            values == nodes_view(nodes@),
            topmost_hit(values, col, row) == topmost_hit(values.take(i as int), col, row),
        decreases i,
    {
        i -= 1;
        proof {
            assert(decreases_to!(nodes@ => nodes@[i as int]));
            assert(values.take(i + 1).drop_last() =~= values.take(i as int));
        }
        let hit = nodes[i].hit_at(col, row);
        if hit.is_some() {
            return hit;
        }
    }
    assert(values.take(0).len() == 0);
    None
}

/// Tells the focus signals of a list of subtrees; whether one of them holds the focus.
fn sync_all(nodes: &mut Vec<Node>, focused: Option<u32>) -> (r: bool)
    ensures
        nodes_view(final(nodes)@) == all_told(nodes_view(old(nodes)@), focused),
        r == (focused is Some && all_focus_ids(nodes_view(old(nodes)@)).contains(focused->0)),
    decreases old(nodes)@,
{
    let ghost before = nodes@;
    let ghost values = nodes_view(nodes@);
    let ghost after = all_told(values, focused);
    let mut found = false;
    let mut i: usize = 0;
    while i < nodes.len()
        invariant
            i <= nodes@.len(),
            before == old(nodes)@,
            nodes@.len() == before.len(),
            values == nodes_view(before),
            after == all_told(values, focused),
            forall|j: int| i <= j < before.len() ==> nodes@[j] == before[j],
            forall|j: int| 0 <= j < i ==> (#[trigger] nodes@[j])@ == after[j],
            found == (exists|j: int| 0 <= j < i && (#[trigger] values[j]).holds(focused)),
        decreases before.len() - i,
    {
        assert(decreases_to!(before => before[i as int]));
        let holds = nodes[i].sync_focused(focused);
        if holds {
            found = true;
        }
        assert(values[i as int] == before[i as int]@);
        i += 1;
    }
    proof {
        assert(nodes_view(nodes@) =~= after);
        if let Some(id) = focused {
            lemma_ids_in_some(values, id);
            if exists|j: int| 0 <= j < values.len() && (#[trigger] values[j]).focus_ids().contains(id) {
                let j = choose|j: int| 0 <= j < values.len() && (#[trigger] values[j]).focus_ids().contains(id);
                assert(values[j].holds(focused));
            }
        }
    }
    found
}

impl Node {
    /// Collects the ids of the nodes that can have the focus: a node before its
    /// children, children in order.
    pub fn collect_focus(&self, out: &mut Vec<u32>)
        ensures
            final(out)@ == old(out)@ + self@.focus_ids(),
        decreases *self,
    {
        if let Some(id) = self.focus {
            out.push(id);
        }
        collect_all(&self.children, out);
        match &self.kind {
            Kind::Lazy(state) => collect_all(&state.children, out),
            Kind::Dynamic(slot) => slot.collect_focus(out),
            _ => {},
        }
        assert(out@ =~= old(out)@ + self@.focus_ids());
    }

    /// The focus id of the topmost node that covers a cell and can have the focus.
    pub fn hit(&self, col: u16, row: u16) -> (r: Option<u32>)
        ensures
            r == self@.hit_id(col as i32, row as i32),
    {
        self.hit_at(col as i32, row as i32)
    }

    fn hit_at(&self, col: i32, row: i32) -> (r: Option<u32>)
        ensures
            r == self@.hit_id(col, row),
        decreases *self,
    {
        if !self.frame.contains(col, row) {
            return None;
        }
        let inner = match &self.kind {
            Kind::Lazy(state) => hit_all(&state.children, col, row),
            Kind::Dynamic(slot) => slot.hit_at(col, row),
            Kind::Scroll(state) => hit_all(
                &self.children,
                coordinate_sum(col, state.offset.0),
                coordinate_sum(row, state.offset.1),
            ),
            _ => hit_all(&self.children, col, row),
        };
        if inner.is_some() {
            inner
        } else {
            self.focus
        }
    }

    /// Tells every focus signal whether the focused node lies below it; whether this
    /// subtree holds the focus.
    pub fn sync_focused(&mut self, focused: Option<u32>) -> (r: bool)
        ensures
            final(self)@ == old(self)@.told(focused),
            r == old(self)@.holds(focused),
        decreases *old(self),
    {
        let ghost before = self@;
        let mut holds = match (self.focus, focused) {
            (Some(own), Some(id)) => own == id,
            _ => false,
        };
        if sync_all(&mut self.children, focused) {
            holds = true;
        }
        match &mut self.kind {
            Kind::Lazy(state) => {
                if sync_all(&mut state.children, focused) {
                    holds = true;
                }
            },
            Kind::Dynamic(slot) => {
                if slot.sync_focused(focused) {
                    holds = true;
                }
            },
            _ => {},
        }
        proof {
            if let Some(id) = focused {
                let own = match before.focus {
                    Some(id) => seq![id],
                    None => seq![],
                };
                let inner = match before.kind {
                    KindView::Lazy { children, .. } => all_focus_ids(children),
                    KindView::Dynamic(slot) => slot.focus_ids(),
                    _ => seq![],
                };
                lemma_in_sum(own, all_focus_ids(before.children), id);
                lemma_in_sum(own + all_focus_ids(before.children), inner, id);
                if before.focus is Some {
                    assert(own[0] == before.focus->0);
                }
            }
        }
        if self.focus_signal.is_some() {
            self.focus_signal = Some(holds);
        }
        holds
    }
}

/// A hit is always one of the ids that the focus can move to.
pub proof fn law_hit_can_have_focus(node: NodeView, col: i32, row: i32)
    ensures
        node.hit_id(col, row) matches Some(id) ==> node.focus_ids().contains(id),
    decreases node,
{
    if let Some(id) = node.hit_id(col, row) {
        let own = match node.focus {
            Some(id) => seq![id],
            None => seq![],
        };
        let inner = match node.kind {
            KindView::Lazy { children, .. } => all_focus_ids(children),
            KindView::Dynamic(slot) => slot.focus_ids(),
            _ => seq![],
        };
        lemma_in_sum(own, all_focus_ids(node.children), id);
        lemma_in_sum(own + all_focus_ids(node.children), inner, id);
        if node.focus is Some {
            assert(own[0] == node.focus->0);
        }
        match node.kind {
            KindView::Lazy { children, .. } => {
                lemma_topmost_can_have_focus(children, col, row);
            },
            KindView::Dynamic(slot) => {
                law_hit_can_have_focus(*slot, col, row);
            },
            KindView::Scroll(state) => {
                lemma_topmost_can_have_focus(
                    node.children,
                    coordinate(col + state.offset.0),
                    coordinate(row + state.offset.1),
                );
            },
            _ => {
                lemma_topmost_can_have_focus(node.children, col, row);
            },
        }
    }
}

proof fn lemma_topmost_can_have_focus(nodes: Seq<NodeView>, col: i32, row: i32)
    ensures
        topmost_hit(nodes, col, row) matches Some(id) ==> all_focus_ids(nodes).contains(id),
    decreases nodes,
{
    if nodes.len() > 0 {
        assert(decreases_to!(nodes => nodes.last()));
        assert(decreases_to!(nodes => nodes.drop_last()));
        law_hit_can_have_focus(nodes.last(), col, row);
        lemma_topmost_can_have_focus(nodes.drop_last(), col, row);
        if let Some(id) = topmost_hit(nodes, col, row) {
            lemma_in_sum(all_focus_ids(nodes.drop_last()), nodes.last().focus_ids(), id);
        }
    }
}

/// Telling the focus signals moves no focus id, and leaves nothing of what was told
/// before.
pub proof fn law_last_word_counts(node: NodeView, first: Option<u32>, second: Option<u32>)
    ensures
        node.told(first).focus_ids() == node.focus_ids(),
        node.told(first).told(second) == node.told(second),
    decreases node,
{
    lemma_all_told_twice(node.children, first, second);
    match node.kind {
        KindView::Lazy { children, .. } => {
            lemma_all_told_twice(children, first, second);
        },
        KindView::Dynamic(slot) => {
            law_last_word_counts(*slot, first, second);
        },
        _ => {},
    }
}

proof fn lemma_all_told_twice(nodes: Seq<NodeView>, first: Option<u32>, second: Option<u32>)
    ensures
        all_focus_ids(all_told(nodes, first)) == all_focus_ids(nodes),
        all_told(all_told(nodes, first), second) == all_told(nodes, second),
    decreases nodes,
{
    let once = all_told(nodes, first);
    if nodes.len() > 0 {
        assert(decreases_to!(nodes => nodes.last()));
        assert(decreases_to!(nodes => nodes.drop_last()));
        law_last_word_counts(nodes.last(), first, second);
        lemma_all_told_twice(nodes.drop_last(), first, second);
        assert(once.drop_last() =~= all_told(nodes.drop_last(), first));
        assert(once.last() == nodes.last().told(first));
        let twice = all_told(once, second);
        let short = all_told(all_told(nodes.drop_last(), first), second);
        assert forall|i: int| 0 <= i < nodes.len() implies twice[i] == all_told(nodes, second)[i] by {
            if i < nodes.len() - 1 {
                assert(short[i] == all_told(nodes.drop_last(), second)[i]);
                assert(once[i] == all_told(nodes.drop_last(), first)[i]);
            }
        }
        assert(twice =~= all_told(nodes, second));
    } else {
        assert(once =~= nodes);
        assert(all_told(once, second) =~= all_told(nodes, second));
    }
}

} // verus!
