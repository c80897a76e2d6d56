//! Which nodes of a tree can have the focus, and under which ids.

use vstd::prelude::*;

use crate::node::{KindView, Node, NodeView};
use crate::renderer::{
    all_dispatched, animation_begun, dispatched, focusables, hook_due, law_focus_ids_are_unique,
    shell_kind, tabs_dispatched, Registry, TabView, ViewKind, ViewTree,
};

verus! {

/// Whether a kind of node can have the focus.
pub open spec fn takes_focus(kind: KindView) -> bool {
    match kind {
        KindView::Button { .. } => true,
        KindView::Toggle { .. } => true,
        KindView::Field(_) => true,
        KindView::Secure(_) => true,
        KindView::Slider { .. } => true,
        KindView::Stepper { .. } => true,
        KindView::Scroll(_) => true,
        KindView::Tabs { .. } => true,
        _ => false,
    }
}

/// Whether the nodes of a subtree that have a focus id are those of a kind that can have the
/// focus.
pub open spec fn ids_where_due(node: NodeView) -> bool
    decreases node,
{
    &&& (node.focus is Some) == takes_focus(node.kind)
    &&& all_ids_where_due(node.children)
    &&& match node.kind {
        KindView::Lazy { children, .. } => all_ids_where_due(children),
        KindView::Dynamic(slot) => ids_where_due(*slot),
        _ => true,
    }
}

/// The same of a list of subtrees.
pub open spec fn all_ids_where_due(nodes: Seq<NodeView>) -> bool
    decreases nodes,
{
    nodes.len() > 0 ==> all_ids_where_due(nodes.drop_last()) && ids_where_due(nodes.last())
}

proof fn lemma_shell_kind(kind: ViewKind, underlay: bool)
    ensures
        shell_kind(kind, underlay) !is Lazy,
        shell_kind(kind, underlay) !is Dynamic,
        takes_focus(shell_kind(kind, underlay)) == match kind {
            ViewKind::Button { .. } => true,
            ViewKind::Toggle { .. } => true,
            ViewKind::Field { .. } => true,
            ViewKind::Secure { .. } => true,
            ViewKind::Slider { .. } => true,
            ViewKind::Stepper { .. } => true,
            ViewKind::Scroll { .. } => true,
            ViewKind::Tabs { .. } => true,
            _ => false,
        },
{
    reveal(shell_kind);
}

proof fn lemma_one_due(a: NodeView)
    requires
        ids_where_due(a),
    ensures
        all_ids_where_due(seq![a]),
{
    assert(seq![a].drop_last() =~= seq![]);
    assert(all_ids_where_due(seq![]));
}

proof fn lemma_two_due(a: NodeView, b: NodeView)
    requires
        ids_where_due(a),
        ids_where_due(b),
    ensures
        all_ids_where_due(seq![a, b]),
{
    lemma_one_due(a);
    assert(seq![a, b].drop_last() =~= seq![a]);
}

proof fn lemma_three_due(a: NodeView, b: NodeView, c: NodeView)
    requires
        ids_where_due(a),
        ids_where_due(b),
        ids_where_due(c),
    ensures
        all_ids_where_due(seq![a, b, c]),
{
    lemma_two_due(a, b);
    assert(seq![a, b, c].drop_last() =~= seq![a, b]);
}

proof fn lemma_both_due(a: Seq<NodeView>, b: Seq<NodeView>)
    requires
        all_ids_where_due(a),
        all_ids_where_due(b),
    ensures
        all_ids_where_due(a + b),
    decreases b.len(),
{
    if b.len() == 0 {
        assert(a + b =~= a);
    } else {
        lemma_both_due(a, b.drop_last());
        assert((a + b).drop_last() =~= a + b.drop_last());
        assert((a + b).last() == b.last());
    }
}

/// Buttons, toggles, fields, masked fields, sliders, steppers, viewports and tab bars have a
/// focus id, and no other node has one.
#[verifier::rlimit(30)]
#[verifier::spinoff_prover]
pub proof fn law_controls_have_focus_ids(view: ViewTree, start: Registry, underlay: bool)
    ensures
        ids_where_due(dispatched(view, start, underlay).0),
    decreases view,
{
    lemma_shell_kind(view.kind, underlay);
    let node = dispatched(view, start, underlay).0;
    let none = Seq::<NodeView>::empty();
    assert(all_ids_where_due(none));
    match view.kind {
        ViewKind::Button { label, .. } => {
            law_controls_have_focus_ids(*label, start, underlay);
            lemma_one_due(dispatched(*label, start, underlay).0);
        },
        ViewKind::Toggle { label, .. } => {
            law_controls_have_focus_ids(*label, start, underlay);
            lemma_one_due(dispatched(*label, start, underlay).0);
        },
        ViewKind::Stepper { label, .. } => {
            law_controls_have_focus_ids(*label, start, underlay);
            lemma_one_due(dispatched(*label, start, underlay).0);
        },
        ViewKind::Scroll { content, .. } => {
            law_controls_have_focus_ids(*content, start, underlay);
            lemma_one_due(dispatched(*content, start, underlay).0);
        },
        ViewKind::Slider { label, low, high, .. } => {
            let (x, a) = dispatched(*label, start, underlay);
            let (y, b) = dispatched(*low, a, underlay);
            let z = dispatched(*high, b, underlay).0;
            law_controls_have_focus_ids(*label, start, underlay);
            law_controls_have_focus_ids(*low, a, underlay);
            law_controls_have_focus_ids(*high, b, underlay);
            lemma_three_due(x, y, z);
        },
        ViewKind::Progress { style, label, value_label, .. } => {
            let begun = animation_begun(style, start);
            let (x, a) = dispatched(*label, begun, underlay);
            law_controls_have_focus_ids(*label, begun, underlay);
            law_controls_have_focus_ids(*value_label, a, underlay);
            lemma_two_due(x, dispatched(*value_label, a, underlay).0);
        },
        ViewKind::Navigation { title, content, .. } => {
            let (x, a) = dispatched(*title, start, underlay);
            law_controls_have_focus_ids(*title, start, underlay);
            law_controls_have_focus_ids(*content, a, underlay);
            lemma_two_due(x, dispatched(*content, a, underlay).0);
        },
        ViewKind::Tabs { tabs, .. } => {
            lemma_tabs_due(tabs@, start, underlay);
            let (labels, contents, _) = tabs_dispatched(tabs@, start, underlay);
            lemma_both_due(labels, contents);
        },
        ViewKind::Fixed { children, .. } => {
            lemma_all_due(children@, start, underlay, children@.len() - 1);
        },
        ViewKind::Lazy { children, .. } => {
            lemma_all_due(children@, start, underlay, 0);
        },
        ViewKind::Dynamic(content) => {
            match content {
                Some(content) => law_controls_have_focus_ids(*content, start, underlay),
                None => {
                    assert(all_ids_where_due(Node::blank().children));
                    assert(ids_where_due(Node::blank()));
                },
            }
        },
        ViewKind::Priority(_, content) => {
            law_controls_have_focus_ids(*content, start, underlay);
        },
        ViewKind::LifeCycle { hook, appear, content } => {
            law_controls_have_focus_ids(*content, hook_due(hook, appear, start), underlay);
        },
        ViewKind::Focused { content, .. } => {
            law_controls_have_focus_ids(*content, start, underlay);
        },
        ViewKind::Offset { content, .. } => {
            law_controls_have_focus_ids(*content, start, underlay);
        },
        ViewKind::Wrapper(content) => {
            law_controls_have_focus_ids(*content, start, underlay);
        },
        _ => {},
    }
}

proof fn lemma_all_due(views: Seq<ViewTree>, start: Registry, underlay: bool, below: int)
    ensures
        all_ids_where_due(all_dispatched(views, start, underlay, below).0),
    decreases views,
{
    if views.len() > 0 {
        assert(decreases_to!(views => views.last()));
        assert(decreases_to!(views => views.drop_last()));
        let (nodes, a) = all_dispatched(views.drop_last(), start, underlay, below);
        let deeper = underlay || views.len() - 1 < below;
        lemma_all_due(views.drop_last(), start, underlay, below);
        law_controls_have_focus_ids(views.last(), a, deeper);
        let node = dispatched(views.last(), a, deeper).0;
        assert(nodes.push(node).drop_last() =~= nodes);
    }
}

proof fn lemma_tabs_due(tabs: Seq<TabView>, start: Registry, underlay: bool)
    ensures
        all_ids_where_due(tabs_dispatched(tabs, start, underlay).0),
        all_ids_where_due(tabs_dispatched(tabs, start, underlay).1),
    decreases tabs,
{
    if tabs.len() > 0 {
        assert(decreases_to!(tabs => tabs.last()));
        assert(decreases_to!(tabs => tabs.drop_last()));
        let (labels, contents, _) = tabs_dispatched(tabs, start, underlay);
        let (heads, bodies, a) = tabs_dispatched(tabs.drop_last(), start, underlay);
        let (head, b) = dispatched(tabs.last().label, a, underlay);
        lemma_tabs_due(tabs.drop_last(), start, underlay);
        law_controls_have_focus_ids(tabs.last().label, a, underlay);
        law_controls_have_focus_ids(tabs.last().content, b, underlay);
        assert(labels.drop_last() =~= heads);
        assert(contents.drop_last() =~= bodies);
    }
}

/// No focus id is given out twice: what is dispatched later, a slot's new content among it,
/// has other ids than what was dispatched before.
pub proof fn law_later_ids_differ(
    first: ViewTree,
    start: Registry,
    underlay: bool,
    second: ViewTree,
    later: Registry,
    deeper: bool,
)
    requires
        dispatched(first, start, underlay).1.next_focus <= later.next_focus,
        start.next_focus + focusables(first) <= u32::MAX,
        later.next_focus + focusables(second) <= u32::MAX,
    ensures
        forall|id: u32| #[trigger]
            dispatched(first, start, underlay).0.focus_ids().contains(id) ==> !dispatched(
                second,
                later,
                deeper,
            ).0.focus_ids().contains(id),
{
    law_focus_ids_are_unique(first, start, underlay);
    law_focus_ids_are_unique(second, later, deeper);
    let old_ids = dispatched(first, start, underlay).0.focus_ids();
    let new_ids = dispatched(second, later, deeper).0.focus_ids();
    assert forall|id: u32| #[trigger] old_ids.contains(id) implies !new_ids.contains(id) by {
        let i = choose|i: int| 0 <= i < old_ids.len() && old_ids[i] == id;
        if new_ids.contains(id) {
            let j = choose|j: int| 0 <= j < new_ids.len() && new_ids[j] == id;
            assert(old_ids[i] < new_ids[j]);
        }
    }
}

} // verus!
