//! Views: which node a view becomes, and what is kept of it.

use vstd::prelude::*;

use crate::controls::{Alignment, ProgressStyle};
use crate::node::{FieldView, KindView, NodeView, SecureView, StretchAxis};
use crate::renderer::{
    all_dispatched, asked_by, asked_now, counted, dispatched, next_tick, shell_kind, tabs_dispatched,
    Registry, TabView, ViewKind, ViewTree,
};
use crate::scroll::ScrollState;
use crate::style::{FontWeight, TextStyle};
use crate::text::{spans_view, SpanView};

verus! {

/// A leaf of some kind that stretches as its view does.
pub open spec fn leaf(view: ViewTree, stretch: StretchAxis, kind: KindView) -> NodeView {
    NodeView {
        kind,
        children: seq![],
        stretch,
        priority: 0,
        frame: crate::geometry::CellRect { x: 0, y: 0, width: 0, height: 0 },
        focus: None,
        focus_signal: None,
        offset: (0, 0),
        source: view.source,
    }
}

/// A paragraph of one plain run.
pub open spec fn plain_line(text: Seq<char>, line_limit: Option<usize>) -> KindView {
    let style = TextStyle {
        weight: FontWeight::Normal,
        italic: false,
        underline: false,
        strikethrough: false,
        foreground: None,
        background: None,
    };
    KindView::Text {
        content: seq![SpanView { text, style }],
        alignment: Alignment::Leading,
        line_limit,
    }
}

/// Views without anything in them become leaves that show what they say, and nothing is kept of
/// them: a text with its runs, its alignment and its limit; a rule across its stack; a color; the
/// host's gradients and surfaces under their keys; an icon by its name in brackets, in one line.
pub proof fn law_plain_views_become_leaves(view: ViewTree, start: Registry, underlay: bool)
    ensures
        ({
            let (node, after) = dispatched(view, start, underlay);
            match view.kind {
                ViewKind::Empty => after == start && node == leaf(
                    view,
                    StretchAxis::Neither,
                    KindView::Empty,
                ),
                ViewKind::Plain(text) => after == start && node == leaf(
                    view,
                    view.stretch,
                    plain_line(text@, None),
                ),
                ViewKind::Text { content, alignment, line_limit } => after == start && node == leaf(
                    view,
                    view.stretch,
                    KindView::Text { content: spans_view(content@), alignment, line_limit },
                ),
                ViewKind::Spacer(layout) => after == start && node == leaf(
                    view,
                    view.stretch,
                    KindView::Container(layout),
                ),
                ViewKind::Divider { in_row } => after == start && node == leaf(
                    view,
                    if in_row {
                        StretchAxis::Vertical
                    } else {
                        StretchAxis::Horizontal
                    },
                    KindView::Divider { vertical: in_row },
                ),
                ViewKind::Color(color) => after == start && node == leaf(
                    view,
                    view.stretch,
                    KindView::Fill(color),
                ),
                ViewKind::Gradient(key) => after == start && node == leaf(
                    view,
                    view.stretch,
                    KindView::Gradient(key),
                ),
                ViewKind::Surface(key) => after == start && node == leaf(
                    view,
                    view.stretch,
                    KindView::Gpu { key, underlay, ready: false },
                ),
                ViewKind::Icon(name) => after == start && node == leaf(
                    view,
                    StretchAxis::Neither,
                    plain_line("["@ + name@ + "]"@, Some(1)),
                ),
                _ => true,
            }
        }),
{
    reveal(shell_kind);
    let node = dispatched(view, start, underlay).0;
    assert(node.children =~= seq![] || node.children.len() > 0);
}

/// A node that can have the focus, with the id that is given out next.
pub open spec fn control(
    view: ViewTree,
    kind: KindView,
    children: Seq<NodeView>,
    before: Registry,
) -> (NodeView, Registry) {
    (
        NodeView {
            children,
            focus: Some(before.next_focus as u32),
            ..leaf(view, view.stretch, kind)
        },
        Registry { next_focus: before.next_focus + 1, ..before },
    )
}

/// Controls become nodes that can have the focus, with the values of their views: the action of a
/// button, the state of a toggle, the texts of a field with the cursor behind them, a slider's value,
/// a stepper's value, step, range and format. Their labels become their children, before them in the
/// chain of the ids.
pub proof fn law_controls_become_nodes(view: ViewTree, start: Registry, underlay: bool)
    ensures
        ({
            let out = dispatched(view, start, underlay);
            match view.kind {
                ViewKind::Button { action, style, label } => {
                    let (child, a) = dispatched(*label, start, underlay);
                    out == control(view, KindView::Button { action, style }, seq![child], a)
                },
                ViewKind::Toggle { value, style, label } => {
                    let (child, a) = dispatched(*label, start, underlay);
                    out == control(view, KindView::Toggle { value, style }, seq![child], a)
                },
                ViewKind::Field { label, value, prompt, submit } => out == control(
                    view,
                    KindView::Field(
                        FieldView {
                            label: label@,
                            value: value@,
                            prompt: prompt@,
                            cursor: value@.len() as usize,
                            submit,
                        },
                    ),
                    seq![],
                    start,
                ),
                ViewKind::Secure { label, value, submit } => out == control(
                    view,
                    KindView::Secure(
                        SecureView {
                            label: label@,
                            value: value@,
                            cursor: value@.len() as usize,
                            submit,
                        },
                    ),
                    seq![],
                    start,
                ),
                ViewKind::Slider { value, label, low, high } => {
                    let (x, a) = dispatched(*label, start, underlay);
                    let (y, b) = dispatched(*low, a, underlay);
                    let (z, c) = dispatched(*high, b, underlay);
                    out == control(view, KindView::Slider { value, track: (0, 0) }, seq![x, y, z], c)
                },
                ViewKind::Stepper { value, step, low, high, formatter, label } => {
                    let (child, a) = dispatched(*label, start, underlay);
                    out == control(
                        view,
                        KindView::Stepper {
                            value,
                            step,
                            low,
                            high,
                            formatter: match formatter {
                                Some(text) => Some(text@),
                                None => None,
                            },
                        },
                        seq![child],
                        a,
                    )
                },
                ViewKind::Scroll { axis, content } => {
                    let (child, a) = dispatched(*content, start, underlay);
                    out == control(
                        view,
                        KindView::Scroll(
                            ScrollState {
                                axis,
                                offset: (0, 0),
                                extent: (0, 0),
                                requested: None,
                                drawn: None,
                                reported: None,
                            },
                        ),
                        seq![child],
                        a,
                    )
                },
                ViewKind::Tabs { selection, tabs } => {
                    let (labels, contents, a) = tabs_dispatched(tabs@, start, underlay);
                    out == control(
                        view,
                        KindView::Tabs {
                            selection,
                            tabs: Seq::new(tabs@.len(), |i: int| tabs@[i].entry),
                        },
                        labels + contents,
                        a,
                    )
                },
                _ => true,
            }
        }),
{
    reveal(shell_kind);
    if let ViewKind::Tabs { selection, tabs } = view.kind {
        assert(crate::renderer::entries(tabs@) =~= Seq::new(
            tabs@.len(),
            |i: int| tabs@[i].entry,
        ));
    }
}

/// A progress indicator holds its label and the label of its value, and a spinner counts as an
/// animation; a navigation view holds its title and its content. Neither can have the focus.
pub proof fn law_indicators_and_bars_become_nodes(view: ViewTree, start: Registry, underlay: bool)
    ensures
        ({
            let (node, after) = dispatched(view, start, underlay);
            match view.kind {
                ViewKind::Progress { value, style, label, value_label } => {
                    let begun = Registry {
                        animated: start.animated + if style == ProgressStyle::Loading {
                            1nat
                        } else {
                            0nat
                        },
                        ..start
                    };
                    let (x, a) = dispatched(*label, begun, underlay);
                    let (y, b) = dispatched(*value_label, a, underlay);
                    &&& after == b
                    &&& node == (NodeView {
                        children: seq![x, y],
                        ..leaf(view, view.stretch, KindView::Progress { value, style, bar: (0, 0) })
                    })
                },
                ViewKind::Navigation { hidden, title, content } => {
                    let (x, a) = dispatched(*title, start, underlay);
                    let (y, b) = dispatched(*content, a, underlay);
                    &&& after == b
                    &&& node == (NodeView {
                        children: seq![x, y],
                        ..leaf(view, view.stretch, KindView::NavBar { hidden })
                    })
                },
                _ => true,
            }
        }),
{
    reveal(shell_kind);
}

/// Containers hold their views in order under their layout, and of those that lie above each other
/// all but the last one lie below others. A slot holds its content, or nothing.
pub proof fn law_containers_become_nodes(view: ViewTree, start: Registry, underlay: bool)
    ensures
        ({
            let (node, after) = dispatched(view, start, underlay);
            match view.kind {
                ViewKind::Fixed { layout, children } => {
                    let (nodes, a) = all_dispatched(
                        children@,
                        start,
                        underlay,
                        children@.len() - 1,
                    );
                    &&& after == a
                    &&& node == (NodeView {
                        children: nodes,
                        ..leaf(view, view.stretch, KindView::Container(layout))
                    })
                },
                ViewKind::Lazy { layout, children } => {
                    let (nodes, a) = all_dispatched(children@, start, underlay, 0);
                    &&& after == a
                    &&& node == leaf(view, view.stretch, KindView::Lazy { layout, children: nodes })
                },
                ViewKind::Dynamic(Some(content)) => {
                    let (slot, a) = dispatched(*content, start, underlay);
                    &&& after == a
                    &&& node == leaf(view, view.stretch, KindView::Dynamic(Box::new(slot)))
                },
                ViewKind::Dynamic(None) => {
                    &&& after == start
                    &&& node.kind matches KindView::Dynamic(slot)
                    &&& slot.kind is Empty && slot.children.len() == 0 && slot.focus is None
                    &&& node == leaf(view, view.stretch, node.kind)
                },
                _ => true,
            }
        }),
{
    reveal(shell_kind);
}

/// Views that only say something of another one become the node of that: with its priority, its
/// offset, or a flag that follows the focus; a hook that runs when a view appears is due. What ties a
/// flag to the focus asks it for the first node in it that can have it.
pub proof fn law_wrappers_become_what_they_wrap(view: ViewTree, start: Registry, underlay: bool)
    ensures
        ({
            let (node, after) = dispatched(view, start, underlay);
            match view.kind {
                ViewKind::Priority(priority, content) => {
                    let (inner, a) = dispatched(*content, start, underlay);
                    node == (NodeView { priority, ..inner }) && after == a
                },
                ViewKind::LifeCycle { hook, appear, content } => {
                    let begun = Registry {
                        appear: if appear {
                            start.appear.push(hook)
                        } else {
                            start.appear
                        },
                        ..start
                    };
                    (node, after) == dispatched(*content, begun, underlay)
                },
                ViewKind::Focused { binding, value, content } => {
                    let (inner, a) = dispatched(*content, start, underlay);
                    &&& node == (NodeView { focus_signal: Some(value), ..inner })
                    &&& inner.focus_ids().len() > 0 ==> after == (Registry {
                        watches: a.watches.push((binding, inner.focus_ids()[0])),
                        ..a
                    })
                    &&& inner.focus_ids().len() == 0 ==> after == a
                },
                ViewKind::Offset { x, y, content } => {
                    let (inner, a) = dispatched(*content, start, underlay);
                    node == (NodeView { offset: (x, y), ..inner }) && after == a
                },
                ViewKind::Wrapper(content) => (node, after) == dispatched(*content, start, underlay),
                _ => true,
            }
        }),
{
}

/// A list of views becomes a list of nodes, one for each and in order. Of those that lie above each
/// other the first `below` ones lie below others.
pub proof fn law_views_keep_their_order(
    first: Seq<ViewTree>,
    last: ViewTree,
    start: Registry,
    underlay: bool,
    below: int,
)
    ensures
        ({
            let (front, a) = all_dispatched(first, start, underlay, below);
            let (node, after) = dispatched(last, a, underlay || first.len() < below);
            &&& all_dispatched(first.push(last), start, underlay, below) == (front.push(node), after)
            &&& front.len() == first.len()
        }),
    decreases first.len(),
{
    assert(first.push(last).drop_last() =~= first);
    assert(first.push(last).last() == last);
    if first.len() > 0 {
        law_views_keep_their_order(first.drop_last(), first.last(), start, underlay, below);
        assert(first.drop_last().push(first.last()) =~= first);
    }
}

/// Tabs become their labels and their contents, each in order, the label of a tab before its
/// content.
pub proof fn law_tabs_keep_their_order(
    first: Seq<TabView>,
    last: TabView,
    start: Registry,
    underlay: bool,
)
    ensures
        ({
            let (labels, contents, a) = tabs_dispatched(first, start, underlay);
            let (label, b) = dispatched(last.label, a, underlay);
            let (content, after) = dispatched(last.content, b, underlay);
            tabs_dispatched(first.push(last), start, underlay) == (
                labels.push(label),
                contents.push(content),
                after,
            )
        }),
{
    assert(first.push(last).drop_last() =~= first);
    assert(first.push(last).last() == last);
}

proof fn lemma_asked(watches: Seq<(u32, u32)>, binding: u32, n: nat)
    requires
        n <= watches.len(),
    ensures
        asked_by(watches, binding, n) == watches.take(n as int).filter(
            |w: (u32, u32)| w.0 == binding,
        ).map_values(|w: (u32, u32)| w.1),
    decreases n,
{
    let mine = |w: (u32, u32)| w.0 == binding;
    let id = |w: (u32, u32)| w.1;
    reveal(Seq::filter);
    if n == 0 {
        assert(watches.take(0).filter(mine).map_values(id) =~= seq![]);
    } else {
        lemma_asked(watches, binding, (n - 1) as nat);
        let all = watches.take(n as int);
        assert(all.drop_last() =~= watches.take(n - 1));
        assert(all.last() == watches[n - 1]);
        let before = watches.take(n - 1).filter(mine);
        if mine(watches[n - 1]) {
            assert(all.filter(mine) =~= before.push(watches[n - 1]));
            assert(all.filter(mine).map_values(id) =~= before.map_values(id).push(watches[n - 1].1));
        } else {
            assert(all.filter(mine) =~= before);
        }
    }
}

/// A flag that is raised asks for the focus for every node that it is tied to, in order, and for no
/// other.
pub proof fn law_flags_ask_for_their_nodes(watches: Seq<(u32, u32)>, binding: u32)
    ensures
        asked_by(watches, binding, watches.len()) == watches.filter(
            |w: (u32, u32)| w.0 == binding,
        ).map_values(|w: (u32, u32)| w.1),
{
    lemma_asked(watches, binding, watches.len());
    assert(watches.take(watches.len() as int) =~= watches);
}

/// A flag that is lowered asks for nothing, and one that is raised for the nodes that it is tied
/// to.
pub proof fn law_only_raised_flags_ask(watches: Seq<(u32, u32)>, binding: u32)
    ensures
        asked_now(watches, binding, false) == Seq::<u32>::empty(),
        asked_now(watches, binding, true) == watches.filter(
            |w: (u32, u32)| w.0 == binding,
        ).map_values(|w: (u32, u32)| w.1),
{
    law_flags_ask_for_their_nodes(watches, binding);
}

/// The frames of an animation are counted one by one and start over after the last.
pub proof fn law_ticks_come_around(tick: u64)
    ensures
        next_tick(tick) as int == (tick + 1) % 0x1_0000_0000_0000_0000,
        next_tick(tick) != tick,
{
}

/// An animation that starts is counted in, one that stops is counted out, and one that goes on or
/// stays away is not counted again.
pub proof fn law_animations_are_counted(animated: int, on: bool)
    ensures
        counted(animated, false, true) == animated + 1,
        counted(counted(animated, false, true), true, false) == animated,
        counted(animated, on, on) == animated,
{
}

} // verus!
