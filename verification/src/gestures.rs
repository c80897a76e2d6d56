//! What a press, a drag and a turn of the wheel change in a tree, and what they leave alone.

use vstd::prelude::*;

use crate::controls::{track_width, WHOLE};
use crate::geometry::coordinate;
use crate::input::{all_pressed, all_wheeled, track_share, Pressed};
use crate::node::{KindView, NodeView};

verus! {

// ---- Presses ----------------------------------------------------------------------

/// A press outside of a tree's frame lands on nothing, runs nothing and changes nothing.
pub proof fn law_press_outside_changes_nothing(node: NodeView, col: i32, row: i32, drag: bool)
    requires
        !node.frame.covers(col as int, row as int),
    ensures
        node.pressed(col, row, drag) == (Pressed { node, id: None, runs: seq![] }),
{
}

/// Whether two trees are the same but for the values of sliders.
pub open spec fn same_but_sliders(a: NodeView, b: NodeView) -> bool
    decreases a,
{
    &&& a == (NodeView { kind: a.kind, children: a.children, ..b })
    &&& match a.kind {
        KindView::Slider { track, .. } => b.kind matches KindView::Slider { track: other, .. }
            && other == track,
        KindView::Lazy { layout, children } => b.kind matches KindView::Lazy {
            layout: other,
            children: others,
        } && other == layout && all_same_but_sliders(children, others),
        KindView::Dynamic(slot) => b.kind matches KindView::Dynamic(other) && same_but_sliders(
            *slot,
            *other,
        ),
        _ => a.kind == b.kind,
    }
    &&& all_same_but_sliders(a.children, b.children)
}

/// Whether two lists of trees are the same but for the values of sliders.
pub open spec fn all_same_but_sliders(a: Seq<NodeView>, b: Seq<NodeView>) -> bool
    decreases a,
{
    &&& a.len() == b.len()
    &&& a.len() > 0 ==> {
        &&& all_same_but_sliders(a.drop_last(), b.drop_last())
        &&& same_but_sliders(a.last(), b.last())
    }
}

proof fn lemma_same_as_itself(node: NodeView)
    ensures
        same_but_sliders(node, node),
    decreases node,
{
    lemma_all_same_as_themselves(node.children);
    match node.kind {
        KindView::Lazy { children, .. } => lemma_all_same_as_themselves(children),
        KindView::Dynamic(slot) => lemma_same_as_itself(*slot),
        _ => {},
    }
}

proof fn lemma_all_same_as_themselves(nodes: Seq<NodeView>)
    ensures
        all_same_but_sliders(nodes, nodes),
    decreases nodes,
{
    if nodes.len() > 0 {
        assert(decreases_to!(nodes => nodes.last()));
        assert(decreases_to!(nodes => nodes.drop_last()));
        lemma_same_as_itself(nodes.last());
        lemma_all_same_as_themselves(nodes.drop_last());
    }
}

/// A drag moves sliders at most: it switches no toggle, steps no stepper, selects no tab and
/// runs no action.
pub proof fn law_drag_moves_sliders_only(node: NodeView, col: i32, row: i32)
    ensures
        same_but_sliders(node, node.pressed(col, row, true).node),
        node.pressed(col, row, true).runs == Seq::<u32>::empty(),
    decreases node,
{
    crate::input::law_drag_runs_nothing(node, col, row);
    lemma_same_as_itself(node);
    if node.frame.covers(col as int, row as int) {
        match node.kind {
            KindView::Lazy { children, .. } => {
                lemma_all_dragged(children, col, row);
            },
            KindView::Dynamic(slot) => {
                law_drag_moves_sliders_only(*slot, col, row);
            },
            KindView::Scroll(state) => {
                lemma_all_dragged(
                    node.children,
                    coordinate(col + state.offset.0),
                    coordinate(row + state.offset.1),
                );
            },
            _ => {
                lemma_all_dragged(node.children, col, row);
            },
        }
    }
}

proof fn lemma_all_dragged(nodes: Seq<NodeView>, col: i32, row: i32)
    ensures
        all_same_but_sliders(nodes, all_pressed(nodes, col, row, true).nodes),
    decreases nodes,
{
    if nodes.len() > 0 {
        assert(decreases_to!(nodes => nodes.last()));
        assert(decreases_to!(nodes => nodes.drop_last()));
        law_drag_moves_sliders_only(nodes.last(), col, row);
        lemma_all_dragged(nodes.drop_last(), col, row);
        lemma_all_same_as_themselves(nodes.drop_last());
        let after = all_pressed(nodes, col, row, true).nodes;
        let last = nodes.last().pressed(col, row, true);
        if last.id is Some {
            assert(after.drop_last() =~= nodes.drop_last());
        } else {
            assert(after.drop_last() =~= all_pressed(nodes.drop_last(), col, row, true).nodes);
        }
    }
}

/// A press on a slider's track sets a value inside of the range: the low end at the first
/// column and before it, the high end at the last column and behind it, and never a smaller
/// value for a column further right.
pub proof fn law_track_maps_columns_to_values(track: (u16, u16), col: int, next: int)
    requires
        col <= next,
    ensures
        0 <= track_share(track, col) <= WHOLE,
        col <= track.0 ==> track_share(track, col) == 0,
        track_width(track) >= 2 && col >= track.1 - 1 ==> track_share(track, col) == WHOLE,
        track_share(track, col) <= track_share(track, next),
{
    lemma_share_in_range(track, col);
    lemma_share_in_range(track, next);
    let last = track_width(track) - 1;
    let at = col - track.0;
    let then = next - track.0;
    if 0 < at && then < last {
        assert(2 * at * WHOLE + last <= 2 * then * WHOLE + last) by (nonlinear_arith)
            requires
                at <= then,
                WHOLE >= 0,
        ;
        vstd::arithmetic::div_mod::lemma_div_is_ordered(
            2 * at * WHOLE + last,
            2 * then * WHOLE + last,
            2 * last,
        );
    }
}

proof fn lemma_share_in_range(track: (u16, u16), col: int)
    ensures
        0 <= track_share(track, col) <= WHOLE,
        ({
            let last = track_width(track) - 1;
            let at = col - track.0;
            0 < at < last ==> track_share(track, col) == (2 * at * WHOLE + last) / (2 * last)
        }),
{
    let last = track_width(track) - 1;
    let at = col - track.0;
    if 0 < at < last {
        let top = 2 * at * WHOLE + last;
        assert(0 <= top <= (2 * last) * WHOLE) by (nonlinear_arith)
            requires
                top == 2 * at * WHOLE + last,
                0 < at <= last - 1,
                last <= 65535,
                WHOLE == 1_000_000_000,
        ;
        vstd::arithmetic::div_mod::lemma_div_is_ordered(0, top, 2 * last);
        vstd::arithmetic::div_mod::lemma_div_is_ordered(top, (2 * last) * WHOLE, 2 * last);
        vstd::arithmetic::div_mod::lemma_div_multiples_vanish(WHOLE as int, 2 * last);
        vstd::arithmetic::div_mod::lemma_div_basics(2 * last);
    }
}

// ---- The wheel --------------------------------------------------------------------

impl NodeView {
    /// Whether a viewport of the subtree lies under a cell and can be moved that way.
    pub open spec fn can_move(self, col: i32, row: i32, dx: i32, dy: i32) -> bool
        decreases self,
    {
        &&& self.frame.covers(col as int, row as int)
        &&& match self.kind {
            KindView::Scroll(state) => {
                ||| state.moved_by(self.frame, dx as int, dy as int).offset != state.offset
                ||| some_can_move(
                    self.children,
                    coordinate(col + state.offset.0),
                    coordinate(row + state.offset.1),
                    dx,
                    dy,
                )
            },
            KindView::Lazy { children, .. } => some_can_move(children, col, row, dx, dy),
            KindView::Dynamic(slot) => slot.can_move(col, row, dx, dy),
            _ => some_can_move(self.children, col, row, dx, dy),
        }
    }
}

/// Whether a viewport of one of the subtrees lies under a cell and can be moved that way.
pub open spec fn some_can_move(nodes: Seq<NodeView>, col: i32, row: i32, dx: i32, dy: i32) -> bool
    decreases nodes,
{
    nodes.len() > 0 && (nodes.last().can_move(col, row, dx, dy) || some_can_move(
        nodes.drop_last(),
        col,
        row,
        dx,
        dy,
    ))
}

/// How many viewports of a subtree stand elsewhere than before.
pub open spec fn viewports_moved(before: NodeView, after: NodeView) -> nat
    decreases before,
{
    all_viewports_moved(before.children, after.children) + match (before.kind, after.kind) {
        (KindView::Scroll(was), KindView::Scroll(is)) => if was.offset != is.offset {
            1nat
        } else {
            0nat
        },
        (
            KindView::Lazy { children, .. },
            KindView::Lazy { children: others, .. },
        ) => all_viewports_moved(children, others),
        (KindView::Dynamic(slot), KindView::Dynamic(other)) => viewports_moved(*slot, *other),
        _ => 0nat,
    }
}

/// How many viewports of a list of subtrees stand elsewhere than before.
pub open spec fn all_viewports_moved(before: Seq<NodeView>, after: Seq<NodeView>) -> nat
    decreases before,
{
    if before.len() == 0 || after.len() != before.len() {
        0
    } else {
        all_viewports_moved(before.drop_last(), after.drop_last()) + viewports_moved(
            before.last(),
            after.last(),
        )
    }
}

/// Whether every viewport that stands elsewhere than before lies under the cell, has moved as
/// the wheel turned, and has no viewport inside that lies under the cell and could have moved.
pub open spec fn innermost_moved(
    before: NodeView,
    after: NodeView,
    col: i32,
    row: i32,
    dx: i32,
    dy: i32,
) -> bool
    decreases before,
{
    match before.kind {
        KindView::Scroll(was) => {
            let inner_col = coordinate(col + was.offset.0);
            let inner_row = coordinate(row + was.offset.1);
            &&& after.kind matches KindView::Scroll(is)
            &&& is.offset != was.offset ==> {
                &&& before.frame.covers(col as int, row as int)
                &&& is == was.moved_by(before.frame, dx as int, dy as int)
                &&& !some_can_move(before.children, inner_col, inner_row, dx, dy)
            }
            &&& all_innermost_moved(before.children, after.children, inner_col, inner_row, dx, dy)
        },
        KindView::Lazy { children, .. } => after.kind matches KindView::Lazy { children: others, .. }
            && all_innermost_moved(children, others, col, row, dx, dy),
        KindView::Dynamic(slot) => after.kind matches KindView::Dynamic(other) && innermost_moved(
            *slot,
            *other,
            col,
            row,
            dx,
            dy,
        ),
        _ => all_innermost_moved(before.children, after.children, col, row, dx, dy),
    }
}

/// The same of a list of subtrees.
pub open spec fn all_innermost_moved(
    before: Seq<NodeView>,
    after: Seq<NodeView>,
    col: i32,
    row: i32,
    dx: i32,
    dy: i32,
) -> bool
    decreases before,
{
    &&& before.len() == after.len()
    &&& before.len() > 0 ==> {
        &&& all_innermost_moved(before.drop_last(), after.drop_last(), col, row, dx, dy)
        &&& innermost_moved(before.last(), after.last(), col, row, dx, dy)
    }
}

proof fn lemma_still(node: NodeView, col: i32, row: i32, dx: i32, dy: i32)
    ensures
        viewports_moved(node, node) == 0,
        innermost_moved(node, node, col, row, dx, dy),
    decreases node,
{
    lemma_all_still(node.children, col, row, dx, dy);
    match node.kind {
        KindView::Scroll(state) => {
            lemma_all_still(
                node.children,
                coordinate(col + state.offset.0),
                coordinate(row + state.offset.1),
                dx,
                dy,
            );
        },
        KindView::Lazy { children, .. } => lemma_all_still(children, col, row, dx, dy),
        KindView::Dynamic(slot) => lemma_still(*slot, col, row, dx, dy),
        _ => {},
    }
}

proof fn lemma_all_still(nodes: Seq<NodeView>, col: i32, row: i32, dx: i32, dy: i32)
    ensures
        all_viewports_moved(nodes, nodes) == 0,
        all_innermost_moved(nodes, nodes, col, row, dx, dy),
    decreases nodes,
{
    if nodes.len() > 0 {
        assert(decreases_to!(nodes => nodes.last()));
        assert(decreases_to!(nodes => nodes.drop_last()));
        lemma_still(nodes.last(), col, row, dx, dy);
        lemma_all_still(nodes.drop_last(), col, row, dx, dy);
    }
}

/// A turn of the wheel is taken exactly where a viewport under the cell can move that way.
/// Where it is taken, exactly one viewport moves: one under the cell with no other viewport
/// inside that lies under the cell and could move. Where it is not, none does.
pub proof fn law_wheel_moves_the_innermost_viewport(
    node: NodeView,
    col: i32,
    row: i32,
    dx: i32,
    dy: i32,
)
    ensures
        ({
            let (after, taken) = node.wheeled(col, row, dx, dy);
            &&& taken == node.can_move(col, row, dx, dy)
            &&& viewports_moved(node, after) == if taken {
                1nat
            } else {
                0nat
            }
            &&& innermost_moved(node, after, col, row, dx, dy)
            &&& !taken ==> after == node
            &&& !node.frame.covers(col as int, row as int) ==> !taken
        }),
    decreases node,
{
    crate::input::law_untaken_wheel_changes_nothing(node, col, row, dx, dy);
    lemma_still(node, col, row, dx, dy);
    if node.frame.covers(col as int, row as int) {
        match node.kind {
            KindView::Scroll(state) => {
                lemma_all_wheeled(
                    node.children,
                    coordinate(col + state.offset.0),
                    coordinate(row + state.offset.1),
                    dx,
                    dy,
                );
            },
            KindView::Lazy { children, .. } => {
                lemma_all_wheeled(children, col, row, dx, dy);
                lemma_all_still(node.children, col, row, dx, dy);
            },
            KindView::Dynamic(slot) => {
                law_wheel_moves_the_innermost_viewport(*slot, col, row, dx, dy);
                lemma_all_still(node.children, col, row, dx, dy);
            },
            _ => {
                lemma_all_wheeled(node.children, col, row, dx, dy);
            },
        }
    }
}

proof fn lemma_all_wheeled(nodes: Seq<NodeView>, col: i32, row: i32, dx: i32, dy: i32)
    ensures
        ({
            let (after, taken) = all_wheeled(nodes, col, row, dx, dy);
            &&& taken == some_can_move(nodes, col, row, dx, dy)
            &&& all_viewports_moved(nodes, after) == if taken {
                1nat
            } else {
                0nat
            }
            &&& all_innermost_moved(nodes, after, col, row, dx, dy)
        }),
    decreases nodes,
{
    if nodes.len() > 0 {
        assert(decreases_to!(nodes => nodes.last()));
        assert(decreases_to!(nodes => nodes.drop_last()));
        law_wheel_moves_the_innermost_viewport(nodes.last(), col, row, dx, dy);
        lemma_all_wheeled(nodes.drop_last(), col, row, dx, dy);
        lemma_all_still(nodes.drop_last(), col, row, dx, dy);
        let after = all_wheeled(nodes, col, row, dx, dy).0;
        if nodes.last().wheeled(col, row, dx, dy).1 {
            assert(after.drop_last() =~= nodes.drop_last());
        } else {
            assert(after.drop_last() =~= all_wheeled(nodes.drop_last(), col, row, dx, dy).0);
        }
    }
}

} // verus!
