//! Nesting: what a node does with what it holds.

use vstd::prelude::*;

use crate::edit::Key;
use crate::geometry::{coordinate, CellRect};
use crate::input::{all_keyed, all_pressed, all_wheeled, Reply};
use crate::node::{all_focus_ids, all_told, topmost_hit, KindView, NodeView};
use crate::paint::PaintView;
use crate::render::{all_painted, all_settled, DrawCtx, Drawn};
use crate::scroll::{ScrollMetrics, ScrollOp};

verus! {

/// The container with the children of a container over a collection.
pub open spec fn as_container(node: NodeView) -> NodeView {
    match node.kind {
        KindView::Lazy { layout, children } => NodeView {
            kind: KindView::Container(layout),
            children,
            ..node
        },
        _ => node,
    }
}

/// Whether a node is a container over a collection and nothing else.
pub open spec fn lazy(node: NodeView) -> bool {
    node.kind is Lazy && node.children.len() == 0
}

/// A container over a collection has the focus chain of a container with its children, is hit
/// where that is, and hands on who has the focus.
pub proof fn law_collection_holds_the_focus_as_a_container(
    node: NodeView,
    col: i32,
    row: i32,
    focused: Option<u32>,
)
    requires
        lazy(node),
    ensures
        node.focus_ids() == as_container(node).focus_ids(),
        node.hit_id(col, row) == as_container(node).hit_id(col, row),
        as_container(node.told(focused)) == as_container(node).told(focused),
        lazy(node.told(focused)),
{
    let plain = as_container(node);
    let children = plain.children;
    assert(all_focus_ids(node.children) =~= seq![]);
    assert(all_focus_ids(children).len() >= 0);
    assert(node.focus_ids() =~= plain.focus_ids());
    assert(topmost_hit(children, col, row) is Some || topmost_hit(children, col, row) is None);
    assert(all_told(node.children, focused) =~= seq![]);
    assert(all_told(children, focused).len() == children.len());
    assert(node.holds(focused) == plain.holds(focused));
}

/// A container over a collection takes keys, presses and the wheel as a container with its
/// children does.
pub proof fn law_collection_takes_events_as_a_container(
    node: NodeView,
    id: u32,
    key: Key,
    col: i32,
    row: i32,
    drag: bool,
    dx: i32,
    dy: i32,
)
    requires
        lazy(node),
    ensures
        as_container(node.keyed(id, key).0) == as_container(node).keyed(id, key).0,
        node.keyed(id, key).1 == as_container(node).keyed(id, key).1,
        as_container(node.pressed(col, row, drag).node) == as_container(node).pressed(col, row, drag).node,
        node.pressed(col, row, drag).id == as_container(node).pressed(col, row, drag).id,
        node.pressed(col, row, drag).runs == as_container(node).pressed(col, row, drag).runs,
        as_container(node.wheeled(col, row, dx, dy).0) == as_container(node).wheeled(col, row, dx, dy).0,
        node.wheeled(col, row, dx, dy).1 == as_container(node).wheeled(col, row, dx, dy).1,
{
    let children = as_container(node).children;
    let none = all_keyed(node.children, id, key);
    assert(none.0 =~= node.children && none.1 == Reply::Ignored);
    let keyed = all_keyed(children, id, key);
    assert(keyed.1 == Reply::Ignored || keyed.1 != Reply::Ignored);
    let pressed = all_pressed(children, col, row, drag);
    assert(pressed.id is Some || pressed.id is None);
    let wheeled = all_wheeled(children, col, row, dx, dy);
    assert(wheeled.1 || !wheeled.1);
}

/// A container over a collection draws and settles its children as a container does.
pub proof fn law_collection_is_drawn_as_a_container(
    node: NodeView,
    ctx: DrawCtx,
    clip: CellRect,
    shift: (i32, i32),
)
    requires
        lazy(node),
    ensures
        node.painted(ctx, clip, shift) == as_container(node).painted(ctx, clip, shift),
        as_container(node.settled(clip, shift).node) == as_container(node).settled(clip, shift).node,
        node.settled(clip, shift).ops == as_container(node).settled(clip, shift).ops,
        node.settled(clip, shift).reports == as_container(node).settled(clip, shift).reports,
{
    let plain = as_container(node);
    let drawn = all_painted(plain.children, Drawn::All, ctx, clip, shift);
    assert(node.painted(ctx, clip, shift) =~= drawn);
    assert(plain.painted(ctx, clip, shift) =~= drawn);
    let settled = all_settled(plain.children, Drawn::All, clip, shift);
    assert(plain.settled(clip, shift).ops =~= settled.ops);
    assert(plain.settled(clip, shift).reports =~= settled.reports);
    assert(node.settled(clip, shift).ops =~= settled.ops);
}

/// Whether a node is a slot and nothing else, with `slot` in it.
pub open spec fn holds_only(node: NodeView, slot: NodeView) -> bool {
    &&& node.kind == KindView::Dynamic(Box::new(slot))
    &&& node.children.len() == 0
    &&& node.focus is None
}

/// A slot with another content.
pub open spec fn refilled(node: NodeView, slot: NodeView) -> NodeView {
    NodeView { kind: KindView::Dynamic(Box::new(slot)), ..node }
}

/// What happens to a slot happens to its content, which does what it would do by itself: the slot
/// runs nothing of its own, and where the content ignores a key, so does the slot. A press and the
/// wheel pass through where the slot has the cell.
pub proof fn law_slot_hands_events_on(
    node: NodeView,
    slot: NodeView,
    id: u32,
    key: Key,
    col: i32,
    row: i32,
    drag: bool,
    dx: i32,
    dy: i32,
)
    requires
        holds_only(node, slot),
    ensures
        node.keyed(id, key) == (refilled(node, slot.keyed(id, key).0), slot.keyed(id, key).1),
        node.frame.covers(col as int, row as int) ==> {
            &&& node.hit_id(col, row) == slot.hit_id(col, row)
            &&& node.pressed(col, row, drag).node == refilled(node, slot.pressed(col, row, drag).node)
            &&& node.pressed(col, row, drag).id == slot.pressed(col, row, drag).id
            &&& node.pressed(col, row, drag).runs == slot.pressed(col, row, drag).runs
            &&& node.wheeled(col, row, dx, dy) == (
                refilled(node, slot.wheeled(col, row, dx, dy).0),
                slot.wheeled(col, row, dx, dy).1,
            )
        },
{
    let none = all_keyed(node.children, id, key);
    assert(none.0 =~= node.children && none.1 == Reply::Ignored);
    let inner = slot.pressed(col, row, drag);
    assert(inner.id is Some || inner.id is None);
    assert(inner.runs + Seq::<u32>::empty() =~= inner.runs);
    assert(slot.hit_id(col, row) is Some || slot.hit_id(col, row) is None);
    let turned = slot.wheeled(col, row, dx, dy);
    assert(turned.1 || !turned.1);
}

/// A slot that shows a cell settles its content: what the content moved and reported, the slot
/// moved and reported.
pub proof fn law_slot_settles_its_content(
    node: NodeView,
    slot: NodeView,
    clip: CellRect,
    shift: (i32, i32),
)
    requires
        holds_only(node, slot),
        node.visible_area(clip, shift).width > 0,
        node.visible_area(clip, shift).height > 0,
    ensures
        node.settled(clip, shift).node == refilled(node, slot.settled(clip, shift).node),
        node.settled(clip, shift).ops == slot.settled(clip, shift).ops,
        node.settled(clip, shift).reports == slot.settled(clip, shift).reports,
{
    let inner = slot.settled(clip, shift);
    assert(inner.ops.len() >= 0);
}

/// What shows no cell draws nothing, moves nothing and reports nothing, a container excepted, whose
/// children may lie elsewhere.
pub proof fn law_hidden_nodes_rest(node: NodeView, ctx: DrawCtx, clip: CellRect, shift: (i32, i32))
    requires
        node.kind !is Container,
        node.kind !is Lazy,
        node.visible_area(clip, shift).width == 0 || node.visible_area(clip, shift).height == 0,
    ensures
        node.painted(ctx, clip, shift) == Seq::<PaintView>::empty(),
        node.settled(clip, shift).node == node,
        node.settled(clip, shift).ops == Seq::<ScrollOp>::empty(),
        node.settled(clip, shift).reports == Seq::<(u32, ScrollMetrics)>::empty(),
{
}

/// A viewport settles itself and then its content, which is cut to the viewport and lies moved by
/// the offset that the frame gave it; everything else settles its children where it stands.
pub proof fn law_viewport_settles_its_content(
    node: NodeView,
    child: NodeView,
    clip: CellRect,
    shift: (i32, i32),
)
    requires
        node.children == seq![child],
        node.visible_area(clip, shift).width > 0,
        node.visible_area(clip, shift).height > 0,
        -0x4000_0000 <= shift.0 <= 0x4000_0000,
        -0x4000_0000 <= shift.1 <= 0x4000_0000,
    ensures
        node.kind matches KindView::Scroll(state) ==> {
            let own = node.own_settled(clip, shift);
            let at = state.drawn_offset(node.frame);
            let inner = child.settled(
                node.visible_area(clip, shift),
                (coordinate(shift.0 - at.0), coordinate(shift.1 - at.1)),
            );
            let all = node.settled(clip, shift);
            &&& all.node == (NodeView { children: seq![inner.node], ..own.node })
            &&& all.ops == own.ops + inner.ops
            &&& all.reports == own.reports + inner.reports
        },
        node.kind is Container || node.kind is Background || node.kind is Button ==> {
            let inner = child.settled(clip, shift);
            let all = node.settled(clip, shift);
            &&& all.node == (NodeView { children: seq![inner.node], ..node })
            &&& all.ops == inner.ops
            &&& all.reports == inner.reports
        },
{
    let deeper = node.inner_shift(shift);
    let cut = node.inner_clip(clip, shift);
    let front = all_settled(node.children.drop_last(), Drawn::All, cut, deeper);
    assert(node.children.drop_last() =~= seq![]);
    let inner = child.settled(cut, deeper);
    let all = all_settled(node.children, Drawn::All, cut, deeper);
    assert(all.ops =~= inner.ops);
    assert(all.reports =~= inner.reports);
    assert(all.nodes =~= seq![inner.node]);
    assert(Seq::<ScrollOp>::empty() + inner.ops =~= inner.ops);
    assert(Seq::<(u32, ScrollMetrics)>::empty() + inner.reports =~= inner.reports);
}

/// What a press runs in a child, it runs: where the child took the press that is all, otherwise a
/// button adds its own action and every other node nothing. The content of a viewport is pressed
/// where it lies under the cell.
pub proof fn law_press_runs_what_lies_under_it(
    node: NodeView,
    child: NodeView,
    col: i32,
    row: i32,
    drag: bool,
)
    requires
        node.frame.covers(col as int, row as int),
        node.children == seq![child],
        node.kind !is Lazy,
        node.kind !is Dynamic,
    ensures
        ({
            let at = match node.kind {
                KindView::Scroll(state) => (
                    coordinate(col + state.offset.0),
                    coordinate(row + state.offset.1),
                ),
                _ => (col, row),
            };
            let inner = child.pressed(at.0, at.1, drag);
            let press = node.pressed(col, row, drag);
            &&& press.node.children == seq![inner.node]
            &&& inner.id is Some ==> press.id == inner.id && press.runs == inner.runs
            &&& inner.id is None ==> press.id == node.focus
            &&& inner.id is None && !drag ==> match node.kind {
                KindView::Button { action, .. } => press.runs == inner.runs.push(action),
                _ => press.runs == inner.runs,
            }
            &&& inner.id is None && drag ==> press.runs == inner.runs
        }),
{
    let at = match node.kind {
        KindView::Scroll(state) => (
            coordinate(col + state.offset.0),
            coordinate(row + state.offset.1),
        ),
        _ => (col, row),
    };
    let inner = child.pressed(at.0, at.1, drag);
    let rest = all_pressed(node.children.drop_last(), at.0, at.1, drag);
    assert(node.children.drop_last() =~= seq![]);
    assert(rest.id is None);
    let all = all_pressed(node.children, at.0, at.1, drag);
    assert(all.nodes =~= seq![inner.node]);
    assert(all.runs =~= inner.runs);
    assert(all.id == inner.id);
    assert(inner.runs + Seq::<u32>::empty() =~= inner.runs);
    match node.kind {
        KindView::Button { action, .. } => {
            assert(inner.runs + seq![action] =~= inner.runs.push(action));
        },
        _ => {},
    }
}

/// A press that no child takes runs what it runs in each of them, the topmost first, and each child
/// is as the press left it.
pub proof fn law_untaken_press_visits_every_child(
    below: Seq<NodeView>,
    child: NodeView,
    col: i32,
    row: i32,
    drag: bool,
)
    requires
        child.pressed(col, row, drag).id is None,
    ensures
        ({
            let all = all_pressed(below.push(child), col, row, drag);
            let under = all_pressed(below, col, row, drag);
            &&& all.id == under.id
            &&& all.nodes == under.nodes.push(child.pressed(col, row, drag).node)
            &&& all.runs == child.pressed(col, row, drag).runs + under.runs
        }),
{
    assert(below.push(child).drop_last() =~= below);
    assert(below.push(child).last() == child);
}

/// A list of children is drawn in order, without those that are left out.
pub proof fn law_children_left_out_are_not_drawn(
    first: Seq<NodeView>,
    last: NodeView,
    drawn: Drawn,
    ctx: DrawCtx,
    clip: CellRect,
    shift: (i32, i32),
)
    ensures
        drawn.keeps(first.len() as int) ==> all_painted(first.push(last), drawn, ctx, clip, shift)
            == all_painted(first, drawn, ctx, clip, shift) + last.painted(ctx, clip, shift),
        !drawn.keeps(first.len() as int) ==> all_painted(first.push(last), drawn, ctx, clip, shift)
            == all_painted(first, drawn, ctx, clip, shift),
{
    assert(first.push(last).drop_last() =~= first);
    assert(first.push(last).last() == last);
}

} // verus!
