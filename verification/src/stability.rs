//! What events leave alone: they change the values of controls and the offsets of viewports,
//! and nothing else.

use vstd::prelude::*;

use crate::edit::{Key, KeyCode};
use crate::geometry::coordinate;
use crate::input::{all_keyed, all_pressed, all_wheeled, law_press_lands_on_the_hit, Reply};
use crate::node::{all_focus_ids, all_told, law_hit_can_have_focus, KindView, NodeView};
use crate::session::{
    focus_moved, law_focus_lands_in_the_chain, wheel_delta, Event, MouseAction, SessionView, Wake,
};

verus! {

/// Whether two kinds differ in nothing but the value that a control shows, the cursor of a
/// field, the selection of a tab bar or the offset of a viewport. What a node contains is left
/// out.
pub open spec fn same_control(a: KindView, b: KindView) -> bool {
    match (a, b) {
        (KindView::Toggle { style, .. }, KindView::Toggle { style: other, .. }) => style == other,
        (KindView::Field(one), KindView::Field(two)) => {
            &&& one.label == two.label
            &&& one.prompt == two.prompt
            &&& one.submit == two.submit
        },
        (KindView::Secure(one), KindView::Secure(two)) => {
            &&& one.label == two.label
            &&& one.submit == two.submit
        },
        (KindView::Slider { track, .. }, KindView::Slider { track: other, .. }) => track == other,
        (
            KindView::Stepper { step, low, high, formatter, .. },
            KindView::Stepper { step: step2, low: low2, high: high2, formatter: formatter2, .. },
        ) => {
            &&& step == step2
            &&& low == low2
            &&& high == high2
            &&& formatter == formatter2
        },
        (KindView::Tabs { tabs, .. }, KindView::Tabs { tabs: other, .. }) => tabs == other,
        (KindView::Scroll(one), KindView::Scroll(two)) => {
            &&& one.axis == two.axis
            &&& one.extent == two.extent
            &&& one.requested == two.requested
            &&& one.drawn == two.drawn
            &&& one.reported == two.reported
        },
        (KindView::Lazy { layout, .. }, KindView::Lazy { layout: other, .. }) => layout == other,
        (KindView::Dynamic(_), KindView::Dynamic(_)) => true,
        _ => a == b,
    }
}

/// Whether two subtrees hold the same nodes in the same places, which differ in nothing but
/// what [`same_control`] leaves open and in what focus signals were told.
pub open spec fn same_nodes(a: NodeView, b: NodeView) -> bool
    decreases a,
{
    &&& a.focus == b.focus
    &&& a.frame == b.frame
    &&& a.stretch == b.stretch
    &&& a.priority == b.priority
    &&& a.offset == b.offset
    &&& a.source == b.source
    &&& a.focus_signal is Some == b.focus_signal is Some
    &&& same_control(a.kind, b.kind)
    &&& all_same_nodes(a.children, b.children)
    &&& match (a.kind, b.kind) {
        (KindView::Lazy { children, .. }, KindView::Lazy { children: others, .. }) => {
            all_same_nodes(children, others)
        },
        (KindView::Dynamic(slot), KindView::Dynamic(other)) => same_nodes(*slot, *other),
        _ => true,
    }
}

/// Whether two lists of subtrees hold the same nodes in the same places.
pub open spec fn all_same_nodes(a: Seq<NodeView>, b: Seq<NodeView>) -> bool
    decreases a,
{
    &&& a.len() == b.len()
    &&& forall|i: int| 0 <= i < a.len() ==> same_nodes(#[trigger] a[i], b[i])
}

proof fn lemma_same_itself(node: NodeView)
    ensures
        same_nodes(node, node),
    decreases node,
{
    lemma_all_same_themselves(node.children);
    match node.kind {
        KindView::Lazy { children, .. } => lemma_all_same_themselves(children),
        KindView::Dynamic(slot) => lemma_same_itself(*slot),
        _ => {},
    }
}

proof fn lemma_all_same_themselves(nodes: Seq<NodeView>)
    ensures
        all_same_nodes(nodes, nodes),
    decreases nodes,
{
    assert forall|i: int| 0 <= i < nodes.len() implies same_nodes(#[trigger] nodes[i], nodes[i]) by {
        lemma_same_itself(nodes[i]);
    }
}

proof fn lemma_same_through(a: NodeView, b: NodeView, c: NodeView)
    requires
        same_nodes(a, b),
        same_nodes(b, c),
    ensures
        same_nodes(a, c),
    decreases a,
{
    lemma_all_same_through(a.children, b.children, c.children);
    match (a.kind, b.kind, c.kind) {
        (
            KindView::Lazy { children, .. },
            KindView::Lazy { children: middle, .. },
            KindView::Lazy { children: others, .. },
        ) => lemma_all_same_through(children, middle, others),
        (KindView::Dynamic(slot), KindView::Dynamic(middle), KindView::Dynamic(other)) => {
            lemma_same_through(*slot, *middle, *other)
        },
        _ => {},
    }
}

proof fn lemma_all_same_through(a: Seq<NodeView>, b: Seq<NodeView>, c: Seq<NodeView>)
    requires
        all_same_nodes(a, b),
        all_same_nodes(b, c),
    ensures
        all_same_nodes(a, c),
    decreases a,
{
    assert forall|i: int| 0 <= i < a.len() implies same_nodes(#[trigger] a[i], c[i]) by {
        assert(same_nodes(a[i], b[i]));
        assert(same_nodes(b[i], c[i]));
        lemma_same_through(a[i], b[i], c[i]);
    }
}

proof fn lemma_same_focus_ids(a: NodeView, b: NodeView)
    requires
        same_nodes(a, b),
    ensures
        a.focus_ids() == b.focus_ids(),
    decreases a,
{
    lemma_all_same_focus_ids(a.children, b.children);
    match (a.kind, b.kind) {
        (KindView::Lazy { children, .. }, KindView::Lazy { children: others, .. }) => {
            lemma_all_same_focus_ids(children, others)
        },
        (KindView::Dynamic(slot), KindView::Dynamic(other)) => lemma_same_focus_ids(*slot, *other),
        _ => {},
    }
}

proof fn lemma_all_same_focus_ids(a: Seq<NodeView>, b: Seq<NodeView>)
    requires
        all_same_nodes(a, b),
    ensures
        all_focus_ids(a) == all_focus_ids(b),
    decreases a,
{
    if a.len() > 0 {
        assert(same_nodes(a[a.len() - 1], b[a.len() - 1]));
        lemma_same_focus_ids(a.last(), b.last());
        let (front, others) = (a.drop_last(), b.drop_last());
        assert forall|i: int| 0 <= i < front.len() implies same_nodes(#[trigger] front[i], others[i]) by {
            assert(same_nodes(a[i], b[i]));
        }
        lemma_all_same_focus_ids(front, others);
    }
}

// ---- Keys -------------------------------------------------------------------------

proof fn lemma_keyed_same(node: NodeView, focused: u32, key: Key)
    ensures
        same_nodes(node, node.keyed(focused, key).0),
    decreases node,
{
    lemma_same_itself(node);
    if node.focus != Some(focused) {
        lemma_all_keyed_same(node.children, focused, key);
        match node.kind {
            KindView::Lazy { children, .. } => lemma_all_keyed_same(children, focused, key),
            KindView::Dynamic(slot) => lemma_keyed_same(*slot, focused, key),
            _ => {},
        }
    }
}

proof fn lemma_all_keyed_same(nodes: Seq<NodeView>, focused: u32, key: Key)
    ensures
        all_same_nodes(nodes, all_keyed(nodes, focused, key).0),
    decreases nodes,
{
    lemma_all_same_themselves(nodes);
    if nodes.len() > 0 {
        lemma_keyed_same(nodes[0], focused, key);
        let rest = nodes.drop_first();
        lemma_all_keyed_same(rest, focused, key);
        lemma_all_same_themselves(rest);
        let after = all_keyed(nodes, focused, key).0;
        let tail = if nodes[0].keyed(focused, key).1 != Reply::Ignored {
            rest
        } else {
            all_keyed(rest, focused, key).0
        };
        assert forall|i: int| 0 <= i < nodes.len() implies same_nodes(#[trigger] nodes[i], after[i]) by {
            if i > 0 {
                assert(same_nodes(rest[i - 1], tail[i - 1]));
            }
        }
    }
}

// ---- Mouse ------------------------------------------------------------------------

proof fn lemma_pressed_same(node: NodeView, col: i32, row: i32, drag: bool)
    ensures
        same_nodes(node, node.pressed(col, row, drag).node),
    decreases node,
{
    lemma_same_itself(node);
    if node.frame.covers(col as int, row as int) {
        match node.kind {
            KindView::Lazy { children, .. } => lemma_all_pressed_same(children, col, row, drag),
            KindView::Dynamic(slot) => lemma_pressed_same(*slot, col, row, drag),
            KindView::Scroll(state) => lemma_all_pressed_same(
                node.children,
                coordinate(col + state.offset.0),
                coordinate(row + state.offset.1),
                drag,
            ),
            _ => lemma_all_pressed_same(node.children, col, row, drag),
        }
    }
}

proof fn lemma_all_pressed_same(nodes: Seq<NodeView>, col: i32, row: i32, drag: bool)
    ensures
        all_same_nodes(nodes, all_pressed(nodes, col, row, drag).nodes),
    decreases nodes,
{
    if nodes.len() > 0 {
        let front = nodes.drop_last();
        lemma_pressed_same(nodes.last(), col, row, drag);
        lemma_all_pressed_same(front, col, row, drag);
        lemma_all_same_themselves(front);
        let after = all_pressed(nodes, col, row, drag).nodes;
        let head = if nodes.last().pressed(col, row, drag).id is Some {
            front
        } else {
            all_pressed(front, col, row, drag).nodes
        };
        assert forall|i: int| 0 <= i < nodes.len() implies same_nodes(#[trigger] nodes[i], after[i]) by {
            if i < front.len() {
                assert(same_nodes(front[i], head[i]));
            }
        }
    }
}

proof fn lemma_wheeled_same(node: NodeView, col: i32, row: i32, dx: i32, dy: i32)
    ensures
        same_nodes(node, node.wheeled(col, row, dx, dy).0),
    decreases node,
{
    lemma_same_itself(node);
    if node.frame.covers(col as int, row as int) {
        match node.kind {
            KindView::Lazy { children, .. } => lemma_all_wheeled_same(children, col, row, dx, dy),
            KindView::Dynamic(slot) => lemma_wheeled_same(*slot, col, row, dx, dy),
            KindView::Scroll(state) => lemma_all_wheeled_same(
                node.children,
                coordinate(col + state.offset.0),
                coordinate(row + state.offset.1),
                dx,
                dy,
            ),
            _ => lemma_all_wheeled_same(node.children, col, row, dx, dy),
        }
    }
}

proof fn lemma_all_wheeled_same(nodes: Seq<NodeView>, col: i32, row: i32, dx: i32, dy: i32)
    ensures
        all_same_nodes(nodes, all_wheeled(nodes, col, row, dx, dy).0),
    decreases nodes,
{
    if nodes.len() > 0 {
        let front = nodes.drop_last();
        lemma_wheeled_same(nodes.last(), col, row, dx, dy);
        lemma_all_wheeled_same(front, col, row, dx, dy);
        lemma_all_same_themselves(front);
        let after = all_wheeled(nodes, col, row, dx, dy).0;
        let head = if nodes.last().wheeled(col, row, dx, dy).1 {
            front
        } else {
            all_wheeled(front, col, row, dx, dy).0
        };
        assert forall|i: int| 0 <= i < nodes.len() implies same_nodes(#[trigger] nodes[i], after[i]) by {
            if i < front.len() {
                assert(same_nodes(front[i], head[i]));
            }
        }
    }
}

// ---- Focus signals ----------------------------------------------------------------

proof fn lemma_told_same(node: NodeView, focused: Option<u32>)
    ensures
        same_nodes(node, node.told(focused)),
    decreases node,
{
    lemma_all_told_same(node.children, focused);
    match node.kind {
        KindView::Lazy { children, .. } => lemma_all_told_same(children, focused),
        KindView::Dynamic(slot) => lemma_told_same(*slot, focused),
        _ => {},
    }
}

proof fn lemma_all_told_same(nodes: Seq<NodeView>, focused: Option<u32>)
    ensures
        all_same_nodes(nodes, all_told(nodes, focused)),
    decreases nodes,
{
    assert forall|i: int| 0 <= i < nodes.len() implies same_nodes(
        #[trigger] nodes[i],
        all_told(nodes, focused)[i],
    ) by {
        lemma_told_same(nodes[i], focused);
    }
}

// ---- Laws -------------------------------------------------------------------------

/// Whatever wakes the loop, the tree holds the same nodes in the same places afterwards: only
/// values, cursors, selections and offsets change.
pub proof fn law_events_keep_the_nodes(session: SessionView, wake: Wake)
    ensures
        same_nodes(session.root, session.after_wake(wake).session.root),
{
    lemma_same_itself(session.root);
    if let Wake::Input(event) = wake {
        match event {
            Event::Key { key, .. } => {
                let chain = session.root.focus_ids();
                lemma_told_same(
                    session.root,
                    focus_moved(chain, session.focused, key.code == KeyCode::BackTab),
                );
                if let Some(id) = session.focused {
                    lemma_keyed_same(session.root, id, key);
                }
            },
            Event::Mouse { action, col, row } => {
                if let Some((dx, dy)) = wheel_delta(action) {
                    lemma_wheeled_same(session.root, col as i32, row as i32, dx, dy);
                } else {
                    let drag = action == MouseAction::Drag;
                    let pressed = session.root.pressed(col as i32, row as i32, drag);
                    lemma_pressed_same(session.root, col as i32, row as i32, drag);
                    lemma_told_same(pressed.node, pressed.id);
                    lemma_same_through(session.root, pressed.node, pressed.node.told(pressed.id));
                }
            },
            _ => {},
        }
    }
}

/// Whatever wakes the loop, the same nodes can have the focus afterwards, in the same order.
pub proof fn law_events_keep_the_focus_chain(session: SessionView, wake: Wake)
    ensures
        session.after_wake(wake).session.root.focus_ids() == session.root.focus_ids(),
{
    law_events_keep_the_nodes(session, wake);
    lemma_same_focus_ids(session.root, session.after_wake(wake).session.root);
}

/// A focus that lies on a node of the tree stays on one, whatever wakes the loop.
pub proof fn law_focus_stays_in_the_tree(session: SessionView, wake: Wake)
    requires
        session.root.holds(session.focused),
    ensures
        ({
            let after = session.after_wake(wake).session;
            after.root.holds(after.focused)
        }),
{
    law_events_keep_the_focus_chain(session, wake);
    let chain = session.root.focus_ids();
    if let Wake::Input(event) = wake {
        match event {
            Event::Key { key, .. } => {
                law_focus_lands_in_the_chain(
                    chain,
                    session.focused,
                    key.code == KeyCode::BackTab,
                );
            },
            Event::Mouse { action, col, row } => {
                let drag = action == MouseAction::Drag;
                law_press_lands_on_the_hit(session.root, col as i32, row as i32, drag);
                law_hit_can_have_focus(session.root, col as i32, row as i32);
            },
            _ => {},
        }
    }
}

} // verus!
