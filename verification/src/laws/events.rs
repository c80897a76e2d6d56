//! Events: what a key, a press and a turn of the wheel do to the node that they are for.

use vstd::prelude::*;

use crate::controls::{stepper_room, TabEntry, WHOLE};
use crate::edit::{Key, KeyCode};
use crate::geometry::{coordinate, CellRect};
use crate::gestures::some_can_move;
use crate::input::{
    all_keyed, all_pressed, all_wheeled, law_ignored_key_changes_nothing, next_tab, selected_tab,
    tab_from, tab_moved, tab_pressed, Reply,
};
use crate::node::{all_focus_ids, all_told, topmost_hit, KindView, NodeView};
use crate::scroll::{ScrollAxis, ScrollState};
use crate::session::{
    focus_moved, place_from, After, Event, KeyPhase, MouseAction, Session, SessionView, Turn, Wake,
};
use crate::text::display_width;

verus! {

// ---- The wheel --------------------------------------------------------------------

/// A turn of the wheel at a cell.
pub open spec fn turned(session: SessionView, action: MouseAction, col: u16, row: u16) -> After {
    session.after_wake(Wake::Input(Event::Mouse { action, col, row }))
}

/// A turn of the wheel reaches the tree as one row or one column the way that it turns: down and
/// right forward, up and left backward. It runs nothing and moves no focus, and a frame is due
/// where it moved something.
pub proof fn law_wheel_reaches_the_tree(session: SessionView, col: u16, row: u16)
    ensures
        ({
            let (c, r) = (col as i32, row as i32);
            let down = session.root.wheeled(c, r, 0, 1);
            let up = session.root.wheeled(c, r, 0, -1i32);
            let right = session.root.wheeled(c, r, 1, 0);
            let left = session.root.wheeled(c, r, -1i32, 0);
            let after = |moved: (NodeView, bool)|
                After {
                    session: SessionView {
                        root: moved.0,
                        focused: session.focused,
                        dirty: session.dirty || moved.1,
                    },
                    quit: false,
                    runs: seq![],
                };
            &&& turned(session, MouseAction::ScrollDown, col, row) == after(down)
            &&& turned(session, MouseAction::ScrollUp, col, row) == after(up)
            &&& turned(session, MouseAction::ScrollRight, col, row) == after(right)
            &&& turned(session, MouseAction::ScrollLeft, col, row) == after(left)
        }),
{
}

/// Whether the tree of a session is a viewport under the cell, at a position inside of its
/// content, and nothing in it can be scrolled itself.
pub open spec fn is_lone_viewport(session: SessionView, state: ScrollState, col: u16, row: u16) -> bool {
    let frame = session.root.frame;
    &&& session.root.kind == KindView::Scroll(state)
    &&& frame.covers(col as int, row as int)
    &&& 0 <= state.offset.0 && (state.offset.0 == 0 || state.offset.0 + frame.width
        <= state.extent.0)
    &&& 0 <= state.offset.1 && (state.offset.1 == 0 || state.offset.1 + frame.height
        <= state.extent.1)
    &&& forall|c: i32, r: i32, dx: i32, dy: i32|
        !(#[trigger] some_can_move(session.root.children, c, r, dx, dy))
}

/// The session with its viewport at another offset, and a frame due.
pub open spec fn at_offset(session: SessionView, state: ScrollState, x: int, y: int) -> SessionView {
    SessionView {
        root: NodeView {
            kind: KindView::Scroll(ScrollState { offset: (x as i32, y as i32), ..state }),
            ..session.root
        },
        focused: session.focused,
        dirty: true,
    }
}

proof fn lemma_children_stay(nodes: Seq<NodeView>, col: i32, row: i32, dx: i32, dy: i32)
    requires
        !some_can_move(nodes, col, row, dx, dy),
    ensures
        all_wheeled(nodes, col, row, dx, dy) == (nodes, false),
    decreases nodes,
{
    if nodes.len() > 0 {
        assert(decreases_to!(nodes => nodes.last()));
        assert(decreases_to!(nodes => nodes.drop_last()));
        crate::gestures::law_wheel_moves_the_innermost_viewport(nodes.last(), col, row, dx, dy);
        lemma_children_stay(nodes.drop_last(), col, row, dx, dy);
        assert(nodes.drop_last().push(nodes.last()) =~= nodes);
    }
}

/// The wheel moves a viewport by one row or one column the way that it turns, and a frame is due;
/// at the end of the content nothing happens. A turn back returns to where the first one started
/// from.
pub proof fn law_wheel_moves_a_viewport_and_back(
    session: SessionView,
    state: ScrollState,
    col: u16,
    row: u16,
)
    requires
        is_lone_viewport(session, state, col, row),
    ensures
        ({
            let frame = session.root.frame;
            let (x, y) = (state.offset.0 as int, state.offset.1 as int);
            let rows = y + frame.height < state.extent.1;
            let columns = x + frame.width < state.extent.0;
            let down = turned(session, MouseAction::ScrollDown, col, row).session;
            let up = turned(session, MouseAction::ScrollUp, col, row).session;
            let right = turned(session, MouseAction::ScrollRight, col, row).session;
            let left = turned(session, MouseAction::ScrollLeft, col, row).session;
            &&& rows ==> down == at_offset(session, state, x, y + 1)
            &&& !rows ==> down == session
            &&& y > 0 ==> up == at_offset(session, state, x, y - 1)
            &&& y == 0 ==> up == session
            &&& columns ==> right == at_offset(session, state, x + 1, y)
            &&& !columns ==> right == session
            &&& x > 0 ==> left == at_offset(session, state, x - 1, y)
            &&& x == 0 ==> left == session
            &&& rows ==> turned(down, MouseAction::ScrollUp, col, row).session.root == session.root
            &&& y > 0 ==> turned(up, MouseAction::ScrollDown, col, row).session.root == session.root
            &&& columns ==> turned(right, MouseAction::ScrollLeft, col, row).session.root
                == session.root
            &&& x > 0 ==> turned(left, MouseAction::ScrollRight, col, row).session.root
                == session.root
        }),
{
    let children = session.root.children;
    let (c, r) = (
        coordinate(col + state.offset.0),
        coordinate(row + state.offset.1),
    );
    lemma_children_stay(children, c, r, 0, 1);
    lemma_children_stay(children, c, r, 0, -1i32);
    lemma_children_stay(children, c, r, 1, 0);
    lemma_children_stay(children, c, r, -1i32, 0);
    let further = coordinate(row + state.offset.1 + 1);
    let nearer = coordinate(row + state.offset.1 - 1);
    lemma_children_stay(children, c, further, 0, -1i32);
    lemma_children_stay(children, c, nearer, 0, 1);
    lemma_children_stay(children, coordinate(col + state.offset.0 + 1), r, -1i32, 0);
    lemma_children_stay(children, coordinate(col + state.offset.0 - 1), r, 1, 0);
}

/// The content of a viewport is found where it is shown: a turn of the wheel, a press and a hit
/// reach it at the cell moved by the offset, and its nodes come before the viewport itself.
pub proof fn law_viewport_content_is_reached_where_it_is_shown(
    node: NodeView,
    state: ScrollState,
    col: i32,
    row: i32,
    drag: bool,
)
    requires
        node.kind == KindView::Scroll(state),
        node.frame.covers(col as int, row as int),
        0 <= col + state.offset.0 <= i32::MAX,
        0 <= row + state.offset.1 <= i32::MAX,
    ensures
        ({
            let c = (col + state.offset.0) as i32;
            let r = (row + state.offset.1) as i32;
            let pressed = all_pressed(node.children, c, r, drag);
            &&& node.hit_id(col, row) == match topmost_hit(node.children, c, r) {
                Some(id) => Some(id),
                None => node.focus,
            }
            &&& pressed.id is Some ==> node.pressed(col, row, drag).node == (NodeView {
                children: pressed.nodes,
                ..node
            })
            &&& all_wheeled(node.children, c, r, 0, 1).1 ==> node.wheeled(col, row, 0, 1) == (
                NodeView { children: all_wheeled(node.children, c, r, 0, 1).0, ..node },
                true,
            )
        }),
{
}

// ---- Keys on controls -------------------------------------------------------------

/// A key without control held.
pub open spec fn bare(code: KeyCode) -> Key {
    Key { code, control: false }
}

/// A node with another kind.
pub open spec fn with_kind(node: NodeView, kind: KindView) -> NodeView {
    NodeView { kind, ..node }
}

/// `Enter` and the space bar run the action of a button and switch a toggle; no other key does
/// anything to them.
pub proof fn law_keys_activate_buttons_and_toggles(node: NodeView, id: u32, key: Key)
    requires
        node.focus == Some(id),
        node.kind is Button || node.kind is Toggle,
    ensures
        ({
            let activates = key.code == KeyCode::Enter || key.code == KeyCode::Char(' ');
            let (after, reply) = node.keyed(id, key);
            &&& !activates ==> (after, reply) == (node, Reply::Ignored)
            &&& node.kind matches KindView::Button { action, .. } ==> activates ==> (after, reply) == (
                node,
                Reply::Run(action),
            )
            &&& node.kind matches KindView::Toggle { value, style } ==> activates ==> (after, reply)
                == (with_kind(node, KindView::Toggle { value: !value, style }), Reply::Handled)
        }),
{
}

/// Keys move a slider by a twentieth of its range at most: down and left, and minus, to the low
/// end; up and right, and plus, to the high end; `Home` and `End` go to the ends. No other key
/// moves it.
pub proof fn law_keys_move_sliders(node: NodeView, id: u32, value: i64, track: (u16, u16), key: Key)
    requires
        node.focus == Some(id),
        node.kind == (KindView::Slider { value, track }),
        0 <= value <= 1_000_000_000,
    ensures
        ({
            let (after, reply) = node.keyed(id, key);
            let less = key.code == KeyCode::Left || key.code == KeyCode::Down || key.code
                == KeyCode::Char('-');
            let more = key.code == KeyCode::Right || key.code == KeyCode::Up || key.code
                == KeyCode::Char('+');
            let ends = key.code == KeyCode::Home || key.code == KeyCode::End;
            &&& !less && !more && !ends ==> (after, reply) == (node, Reply::Ignored)
            &&& less || more || ends ==> {
                &&& reply == Reply::Handled
                &&& after.kind matches KindView::Slider { value: now, track: same }
                &&& same == track
                &&& after == with_kind(node, after.kind)
                &&& less && value >= 50_000_000 ==> now == value - 50_000_000
                &&& less && value < 50_000_000 ==> now == 0
                &&& more && value <= 950_000_000 ==> now == value + 50_000_000
                &&& more && value > 950_000_000 ==> now == 1_000_000_000
                &&& key.code == KeyCode::Home ==> now == 0
                &&& key.code == KeyCode::End ==> now == 1_000_000_000
            }
        }),
{
}

/// Left and minus take one step off a stepper, right and plus add one, and its range holds it. No
/// other key changes it.
pub proof fn law_keys_move_steppers(
    node: NodeView,
    id: u32,
    value: i32,
    step: i32,
    low: i32,
    high: i32,
    formatter: Option<Seq<char>>,
    key: Key,
)
    requires
        node.focus == Some(id),
        node.kind == (KindView::Stepper { value, step, low, high, formatter }),
        low <= value <= high,
        0 <= step,
    ensures
        ({
            let (after, reply) = node.keyed(id, key);
            let less = key.code == KeyCode::Left || key.code == KeyCode::Char('-');
            let more = key.code == KeyCode::Right || key.code == KeyCode::Char('+');
            &&& !less && !more ==> (after, reply) == (node, Reply::Ignored)
            &&& less || more ==> {
                &&& reply == Reply::Handled
                &&& after.kind matches KindView::Stepper { value: now, .. }
                &&& after == with_kind(
                    node,
                    KindView::Stepper { value: now, step, low, high, formatter },
                )
                &&& less && value - step >= low ==> now == value - step
                &&& less && value - step < low ==> now == low
                &&& more && value + step <= high ==> now == value + step
                &&& more && value + step > high ==> now == high
            }
        }),
{
}

/// Keys scroll a viewport by a row or a column, by a page less a row, or to either end, as far as
/// its content reaches and only along its axis; a key that moves nothing is left to others.
pub proof fn law_keys_scroll_viewports(node: NodeView, id: u32, state: ScrollState, key: Key)
    requires
        node.focus == Some(id),
        node.kind == KindView::Scroll(state),
        node.frame.height > 0,
        0 <= state.offset.0,
        state.offset.0 == 0 || state.offset.0 + node.frame.width <= state.extent.0,
        0 <= state.offset.1,
        state.offset.1 == 0 || state.offset.1 + node.frame.height <= state.extent.1,
    ensures
        ({
            let (after, reply) = node.keyed(id, key);
            let (x, y) = (state.offset.0 as int, state.offset.1 as int);
            let last_x = if state.extent.0 > node.frame.width {
                state.extent.0 - node.frame.width
            } else {
                0
            };
            let last_y = if state.extent.1 > node.frame.height {
                state.extent.1 - node.frame.height
            } else {
                0
            };
            let upright = state.axis != ScrollAxis::Horizontal;
            let sideways = state.axis != ScrollAxis::Vertical;
            let held = |v: int, last: int|
                if v < 0 {
                    0
                } else if v > last {
                    last
                } else {
                    v
                };
            let goal = if key.code == KeyCode::Up && upright {
                (x, held(y - 1, last_y))
            } else if key.code == KeyCode::Down && upright {
                (x, held(y + 1, last_y))
            } else if key.code == KeyCode::Left && sideways {
                (held(x - 1, last_x), y)
            } else if key.code == KeyCode::Right && sideways {
                (held(x + 1, last_x), y)
            } else if key.code == KeyCode::PageUp && upright {
                (x, held(y - (node.frame.height - 1), last_y))
            } else if key.code == KeyCode::PageDown && upright {
                (x, held(y + (node.frame.height - 1), last_y))
            } else if key.code == KeyCode::Home {
                (0, 0)
            } else if key.code == KeyCode::End {
                (last_x, last_y)
            } else {
                (x, y)
            };
            &&& after == with_kind(
                node,
                KindView::Scroll(ScrollState { offset: (goal.0 as i32, goal.1 as i32), ..state }),
            )
            &&& reply == if goal == (x, y) {
                Reply::Ignored
            } else {
                Reply::Handled
            }
        }),
{
}

/// `Enter` in a field with a confirmation runs it and edits nothing.
pub proof fn law_enter_confirms_fields(node: NodeView, id: u32, action: u32)
    requires
        node.focus == Some(id),
    ensures
        node.kind matches KindView::Field(state) ==> state.submit == Some(action) ==> node.keyed(
            id,
            bare(KeyCode::Enter),
        ) == (node, Reply::Run(action)),
        node.kind matches KindView::Secure(state) ==> state.submit == Some(action) ==> node.keyed(
            id,
            bare(KeyCode::Enter),
        ) == (node, Reply::Run(action)),
        node.kind matches KindView::Field(state) ==> state.submit is None ==> node.keyed(
            id,
            bare(KeyCode::Enter),
        ) == (node, Reply::Ignored),
        node.kind matches KindView::Secure(state) ==> state.submit is None ==> node.keyed(
            id,
            bare(KeyCode::Enter),
        ) == (node, Reply::Ignored),
{
}

/// What a key makes of a text of which `before` lies before the cursor and `behind` behind it: the
/// two parts afterwards, or nothing where the key does not edit.
pub open spec fn parts_after(before: Seq<char>, behind: Seq<char>, key: Key) -> Option<
    (Seq<char>, Seq<char>),
> {
    match key.code {
        KeyCode::Char(c) => if key.control {
            None
        } else {
            Some((before.push(c), behind))
        },
        KeyCode::Backspace => if before.len() > 0 {
            Some((before.drop_last(), behind))
        } else {
            None
        },
        KeyCode::Delete => if behind.len() > 0 {
            Some((before, behind.drop_first()))
        } else {
            None
        },
        KeyCode::Left => if before.len() > 0 {
            Some((before.drop_last(), seq![before.last()] + behind))
        } else {
            Some((before, behind))
        },
        KeyCode::Right => if behind.len() > 0 {
            Some((before.push(behind[0]), behind.drop_first()))
        } else {
            Some((before, behind))
        },
        KeyCode::Home => Some((seq![], before + behind)),
        KeyCode::End => Some((before + behind, seq![])),
        _ => None,
    }
}

/// Typing in a field happens at its cursor: a character goes behind what lies before the cursor,
/// backspace takes the last one of that, delete the first one behind, and the others move the
/// cursor over one character or to an end. A masked field edits the same way.
pub proof fn law_keys_edit_at_the_cursor(
    node: NodeView,
    id: u32,
    before: Seq<char>,
    behind: Seq<char>,
    key: Key,
)
    requires
        node.focus == Some(id),
        before.len() + behind.len() < usize::MAX,
        key.code != KeyCode::Enter,
    ensures
        node.kind matches KindView::Field(state) ==> state.value == before + behind && state.cursor
            == before.len() ==> {
            let (after, reply) = node.keyed(id, key);
            match parts_after(before, behind, key) {
                Some((left, right)) => {
                    &&& reply == Reply::Handled
                    &&& after.kind matches KindView::Field(now)
                    &&& now.value == left + right
                    &&& now.cursor == left.len()
                    &&& now.label == state.label && now.prompt == state.prompt && now.submit
                        == state.submit
                    &&& after == with_kind(node, after.kind)
                },
                None => (after, reply) == (node, Reply::Ignored),
            }
        },
        node.kind matches KindView::Secure(state) ==> state.value == before + behind && state.cursor
            == before.len() ==> {
            let (after, reply) = node.keyed(id, key);
            match parts_after(before, behind, key) {
                Some((left, right)) => {
                    &&& reply == Reply::Handled
                    &&& after.kind matches KindView::Secure(now)
                    &&& now.value == left + right
                    &&& now.cursor == left.len()
                    &&& now.label == state.label && now.submit == state.submit
                    &&& after == with_kind(node, after.kind)
                },
                None => (after, reply) == (node, Reply::Ignored),
            }
        },
{
    let text = before + behind;
    let at = before.len() as int;
    match key.code {
        KeyCode::Char(c) => {
            assert(text.insert(at, c) =~= before.push(c) + behind);
        },
        KeyCode::Backspace => {
            if at > 0 {
                assert(text.remove(at - 1) =~= before.drop_last() + behind);
            }
        },
        KeyCode::Delete => {
            if behind.len() > 0 {
                assert(text.remove(at) =~= before + behind.drop_first());
            }
        },
        KeyCode::Left => {
            if at > 0 {
                assert(text =~= before.drop_last() + (seq![before.last()] + behind));
            }
        },
        KeyCode::Right => {
            if behind.len() > 0 {
                assert(text =~= before.push(behind[0]) + behind.drop_first());
            }
        },
        KeyCode::Home => {
            assert(text =~= Seq::<char>::empty() + text);
        },
        KeyCode::End => {
            assert(text =~= text + Seq::<char>::empty());
        },
        _ => {},
    }
}

// ---- Tabs -------------------------------------------------------------------------

proof fn lemma_first_of_its_id(tabs: Seq<TabEntry>, selection: u32, from: int)
    requires
        0 <= from,
    ensures
        ({
            let at = tab_from(tabs, selection, from);
            ||| (from <= at < tabs.len() && tabs[at].id == selection && forall|k: int|
                from <= k < at ==> (#[trigger] tabs[k]).id != selection)
            ||| (at == 0 && forall|k: int|
                from <= k < tabs.len() ==> (#[trigger] tabs[k]).id != selection)
        }),
    decreases tabs.len() - from,
{
    if from < tabs.len() && tabs[from].id != selection {
        lemma_first_of_its_id(tabs, selection, from + 1);
    }
}

/// The selected tab is the first one that has the selected id, and the first one of all where
/// none has it.
pub proof fn law_selected_tab_has_the_id(tabs: Seq<TabEntry>, selection: u32)
    ensures
        ({
            let at = selected_tab(tabs, selection);
            ||| (0 <= at < tabs.len() && tabs[at].id == selection && forall|k: int|
                0 <= k < at ==> (#[trigger] tabs[k]).id != selection)
            ||| (at == 0 && forall|k: int|
                0 <= k < tabs.len() ==> (#[trigger] tabs[k]).id != selection)
        }),
{
    lemma_first_of_its_id(tabs, selection, 0);
}

/// Whether tab `at` is the first one that can be selected, `steps` steps on from `current` in
/// steps of `by`, around the end.
pub open spec fn is_next(tabs: Seq<TabEntry>, current: int, by: int, steps: int, at: int) -> bool {
    let n = tabs.len() as int;
    &&& 1 <= steps <= n
    &&& at == (current + by * steps) % n
    &&& tabs[at].enabled
    &&& forall|j: int| 1 <= j < steps ==> !tabs[#[trigger] ((current + by * j) % n)].enabled
}

/// Whether tab `at` is the nearest one on that side that can be selected.
pub open spec fn nearest(tabs: Seq<TabEntry>, current: int, by: int, at: int) -> bool {
    exists|steps: int| #[trigger] is_next(tabs, current, by, steps, at)
}

/// Whether an id is that of the nearest tab on that side that can be selected.
pub open spec fn is_pick(tabs: Seq<TabEntry>, current: int, by: int, id: u32) -> bool {
    exists|at: int| #[trigger] nearest(tabs, current, by, at) && tabs[at].id == id
}

proof fn lemma_next_is_nearest(tabs: Seq<TabEntry>, current: int, by: int, step: int)
    requires
        tabs.len() > 0,
        1 <= step,
        forall|j: int| 1 <= j < step ==> !tabs[#[trigger] ((current + by * j) % tabs.len() as int)].enabled,
    ensures
        next_tab(tabs, current, by, step) is Some ==> nearest(
            tabs,
            current,
            by,
            next_tab(tabs, current, by, step)->0,
        ),
    decreases tabs.len() + 1 - step,
{
    let n = tabs.len() as int;
    if step <= n {
        let at = (current + by * step) % n;
        if tabs[at].enabled {
            assert(is_next(tabs, current, by, step, at));
            assert(next_tab(tabs, current, by, step) == Some(at));
        } else {
            lemma_next_is_nearest(tabs, current, by, step + 1);
            assert(next_tab(tabs, current, by, step) == next_tab(tabs, current, by, step + 1));
        }
    } else {
        assert(next_tab(tabs, current, by, step) is None);
    }
}

/// The right arrow selects the next tab that can be selected, the left arrow the one before, going
/// around at the ends and passing over those that cannot. No other key selects a tab.
pub proof fn law_arrows_select_the_nearest_tab(
    node: NodeView,
    id: u32,
    tabs: Seq<TabEntry>,
    selection: u32,
    key: Key,
)
    requires
        node.focus == Some(id),
        node.kind == (KindView::Tabs { selection, tabs }),
        tabs.len() > 0,
    ensures
        ({
            let (after, reply) = node.keyed(id, key);
            let current = selected_tab(tabs, selection);
            let by = if key.code == KeyCode::Right {
                1int
            } else {
                -1int
            };
            let arrow = key.code == KeyCode::Right || key.code == KeyCode::Left;
            &&& !arrow || reply == Reply::Ignored ==> (after, reply) == (node, Reply::Ignored)
            &&& arrow && reply != Reply::Ignored ==> {
                &&& reply == Reply::Handled
                &&& after.kind matches KindView::Tabs { selection: picked, .. }
                &&& after == with_kind(node, KindView::Tabs { selection: picked, tabs })
                &&& is_pick(tabs, current, by, picked)
            }
        }),
{
    let current = selected_tab(tabs, selection);
    if key.code == KeyCode::Right || key.code == KeyCode::Left {
        let by = if key.code == KeyCode::Right { 1int } else { -1int };
        lemma_next_is_nearest(tabs, current, by, 1);
        let (after, reply) = node.keyed(id, key);
        match next_tab(tabs, current, by, 1) {
            Some(at) => {
                assert(nearest(tabs, current, by, at));
                assert(tab_moved(tabs, selection, key) == Some(tabs[at].id));
                assert(is_pick(tabs, current, by, tabs[at].id));
                assert(after.kind == (KindView::Tabs { selection: tabs[at].id, tabs }));
            },
            None => {
                assert(tab_moved(tabs, selection, key) is None);
            },
        }
    }
}

proof fn lemma_pressed_from(
    tabs: Seq<TabEntry>,
    labels: Seq<CellRect>,
    selection: u32,
    col: int,
    from: int,
    at: int,
)
    requires
        0 <= from <= at < tabs.len(),
        at < labels.len(),
        labels[at].x <= col < labels[at].x + labels[at].width + 2,
        forall|k: int|
            from <= k < at ==> !((#[trigger] labels[k]).x <= col < labels[k].x + labels[k].width + 2),
    ensures
        tab_pressed(tabs, labels, selection, col, from) == if tabs[at].enabled {
            tabs[at].id
        } else {
            selection
        },
    decreases at - from,
{
    if from < at {
        assert(!(labels[from].x <= col < labels[from].x + labels[from].width + 2));
        lemma_pressed_from(tabs, labels, selection, col, from + 1, at);
    }
}

/// A press on the bar selects the first tab whose label, or the two columns behind it, lies under
/// it, where that can be selected.
pub proof fn law_press_selects_the_tab_under_it(
    tabs: Seq<TabEntry>,
    labels: Seq<CellRect>,
    selection: u32,
    col: int,
    at: int,
)
    requires
        0 <= at < tabs.len(),
        at < labels.len(),
        labels[at].x <= col < labels[at].x + labels[at].width + 2,
        forall|k: int|
            0 <= k < at ==> !((#[trigger] labels[k]).x <= col < labels[k].x + labels[k].width + 2),
    ensures
        tabs[at].enabled ==> tab_pressed(tabs, labels, selection, col, 0) == tabs[at].id,
        !tabs[at].enabled ==> tab_pressed(tabs, labels, selection, col, 0) == selection,
{
    lemma_pressed_from(tabs, labels, selection, col, 0, at);
}

// ---- Presses on controls ----------------------------------------------------------

/// A press on a control that nothing lies above: it lands on the control, runs the action of a
/// button, switches a toggle, and moves a slider to the pressed column. A press on either button of
/// a stepper steps it, and one on the bar of some tabs selects one. Nothing else is pressed.
pub proof fn law_press_operates_controls(node: NodeView, col: i32, row: i32)
    requires
        node.frame.covers(col as int, row as int),
        node.children.len() == 0,
        node.kind !is Lazy,
        node.kind !is Dynamic,
    ensures
        ({
            let press = node.pressed(col, row, false);
            &&& press.id == node.focus
            &&& press.node == with_kind(node, press.node.kind)
            &&& node.kind matches KindView::Button { action, .. } ==> press.runs == seq![action]
                && press.node == node
            &&& node.kind !is Button ==> press.runs == Seq::<u32>::empty()
            &&& node.kind matches KindView::Toggle { value, style } ==> press.node.kind
                == (KindView::Toggle { value: !value, style })
            &&& node.kind matches KindView::Slider { value, track } ==> {
                &&& press.node.kind matches KindView::Slider { value: now, track: same }
                &&& same == track
                &&& track.0 >= track.1 ==> now == value
                &&& track.0 < track.1 && col <= track.0 ==> now == 0
                &&& track.0 + 1 < track.1 && col >= track.1 - 1 ==> now == 1_000_000_000
            }
            &&& node.kind !is Button && node.kind !is Toggle && node.kind !is Slider && node.kind
                !is Stepper && node.kind !is Tabs ==> press.node == node
        }),
{
    assert(all_pressed(node.children, col, row, false).id is None);
    if let KindView::Scroll(state) = node.kind {
        let c = coordinate(col + state.offset.0);
        let r = coordinate(row + state.offset.1);
        assert(all_pressed(node.children, c, r, false).id is None);
    }
    assert(Seq::<u32>::empty() + node.own_press(col, row, false).1 =~= node.own_press(
        col,
        row,
        false,
    ).1);
}

/// Between the ends of its track a press sets a slider to the share of the track that lies before
/// the pressed column, to the nearest billionth.
pub proof fn law_press_sets_the_share(track: (u16, u16), col: int)
    requires
        track.0 < col < track.1 - 1,
    ensures
        ({
            let share = crate::input::track_share(track, col);
            let at = col - track.0;
            let last = track.1 - 1 - track.0;
            2 * at * 1_000_000_000 - last < 2 * last * share <= 2 * at * 1_000_000_000 + last
        }),
{
    let last = track.1 - 1 - track.0;
    let at = col - track.0;
    let top = 2 * at * WHOLE + last;
    crate::gestures::law_track_maps_columns_to_values(track, col, col);
    assert(0 <= top <= (2 * last) * WHOLE) by (nonlinear_arith)
        requires
            top == 2 * at * WHOLE + last,
            0 < at <= last - 1,
            last <= 65535,
            WHOLE == 1_000_000_000,
    ;
    vstd::arithmetic::div_mod::lemma_fundamental_div_mod(top, 2 * last);
    vstd::arithmetic::div_mod::lemma_mod_bound(top, 2 * last);
    assert(top / (2 * last) <= WHOLE) by {
        vstd::arithmetic::div_mod::lemma_div_is_ordered(top, (2 * last) * WHOLE, 2 * last);
        vstd::arithmetic::div_mod::lemma_div_multiples_vanish(WHOLE as int, 2 * last);
    }
    assert(top / (2 * last) >= 0) by {
        vstd::arithmetic::div_mod::lemma_div_is_ordered(0, top, 2 * last);
        vstd::arithmetic::div_mod::lemma_div_basics(2 * last);
    }
}

/// A press on the first three columns of a stepper's group takes a step off, one on its last three
/// columns adds one, and the range holds the value; a press elsewhere changes nothing. The group
/// stands at the right edge and leaves room for the shown value and for both ends of the range.
pub proof fn law_press_steps_steppers(
    node: NodeView,
    value: i32,
    step: i32,
    low: i32,
    high: i32,
    formatter: Option<Seq<char>>,
    col: i32,
    row: i32,
)
    requires
        node.kind == (KindView::Stepper { value, step, low, high, formatter }),
        node.children.len() == 0,
        node.frame.covers(col as int, row as int),
        low <= value <= high,
        0 <= step,
    ensures
        ({
            let right = node.frame.x + node.frame.width;
            let width = match formatter {
                Some(text) => display_width(text),
                None => 0,
            };
            let start = right - 8 - stepper_room(width, low, high);
            let less = start <= col < start + 3;
            let more = right - 3 <= col && !less;
            let press = node.pressed(col, row, false).node;
            let now = press.kind->Stepper_value;
            &&& press == with_kind(
                node,
                KindView::Stepper { value: now, step, low, high, formatter },
            )
            &&& less && value - step >= low ==> now == value - step
            &&& less && value - step < low ==> now == low
            &&& more && value + step <= high ==> now == value + step
            &&& more && value + step > high ==> now == high
            &&& !less && !more ==> now == value
        }),
{
    assert(all_pressed(node.children, col, row, false).id is None);
}

/// A press goes to the last child that it hits, which lies above the others: that child alone is
/// pressed, and its parent is not.
pub proof fn law_press_goes_to_the_topmost_child(
    node: NodeView,
    below: Seq<NodeView>,
    child: NodeView,
    col: i32,
    row: i32,
    drag: bool,
)
    requires
        node.frame.covers(col as int, row as int),
        node.children == below.push(child),
        node.kind !is Lazy,
        node.kind !is Dynamic,
        node.kind !is Scroll,
    ensures
        child.pressed(col, row, drag).id is Some ==> {
            let press = node.pressed(col, row, drag);
            &&& press.id == child.pressed(col, row, drag).id
            &&& press.runs == child.pressed(col, row, drag).runs
            &&& press.node == (NodeView {
                children: below.push(child.pressed(col, row, drag).node),
                ..node
            })
        },
        child.hit_id(col, row) is Some ==> node.hit_id(col, row) == child.hit_id(col, row),
        child.hit_id(col, row) is None ==> node.hit_id(col, row) == (NodeView {
            children: below,
            ..node
        }).hit_id(col, row),
{
    let pressed = all_pressed(node.children, col, row, drag);
    let hit = topmost_hit(node.children, col, row);
    assert(hit is Some || hit is None);
    assert(topmost_hit(below, col, row) is Some || topmost_hit(below, col, row) is None);
    assert(pressed.id is Some || pressed.id is None);
    assert(below.push(child).drop_last() =~= below);
    assert(below.push(child).last() == child);
}

/// What lies outside of a node's frame is not hit, and what lies in it and hits no child is hit as
/// the node itself.
pub proof fn law_hit_needs_the_frame(node: NodeView, col: i32, row: i32)
    ensures
        !node.frame.covers(col as int, row as int) ==> node.hit_id(col, row) is None,
        node.frame.covers(col as int, row as int) && node.children.len() == 0 && node.kind !is Lazy
            && node.kind !is Dynamic ==> node.hit_id(col, row) == node.focus,
{
    if node.children.len() == 0 {
        assert(topmost_hit(node.children, col, row) is None);
        if let KindView::Scroll(state) = node.kind {
            let c = coordinate(col + state.offset.0);
            let r = coordinate(row + state.offset.1);
            assert(topmost_hit(node.children, c, r) is None);
        }
    }
}

/// A toggle turned twice is as it was, whether by a key or by a press.
pub proof fn law_two_switches_cancel(node: NodeView, id: u32, col: i32, row: i32)
    requires
        node.kind is Toggle,
        node.focus == Some(id),
        node.children.len() == 0,
        node.frame.covers(col as int, row as int),
    ensures
        ({
            let enter = bare(KeyCode::Enter);
            let once = node.keyed(id, enter).0;
            &&& once != node
            &&& once.keyed(id, enter).0 == node
            &&& node.pressed(col, row, false).node == once
            &&& once.pressed(col, row, false).node == node
        }),
{
    assert(all_pressed(node.children, col, row, false).id is None);
}

// ---- Keys in a tree ---------------------------------------------------------------

proof fn lemma_key_passes_by(before: Seq<NodeView>, nodes: Seq<NodeView>, id: u32, key: Key)
    requires
        !all_focus_ids(before).contains(id),
    ensures
        all_keyed(before + nodes, id, key) == (
            before + all_keyed(nodes, id, key).0,
            all_keyed(nodes, id, key).1,
        ),
    decreases before.len(),
{
    if before.len() == 0 {
        assert(before + nodes =~= nodes);
        assert(before + all_keyed(nodes, id, key).0 =~= all_keyed(nodes, id, key).0);
    } else {
        let rest = before.drop_first();
        lemma_ids_of_first(before[0], rest);
        assert(seq![before[0]] + rest =~= before);
        let all = all_focus_ids(before);
        assert(!before[0].focus_ids().contains(id)) by {
            if before[0].focus_ids().contains(id) {
                let k = choose|k: int|
                    0 <= k < before[0].focus_ids().len() && before[0].focus_ids()[k] == id;
                assert(all[k] == id);
            }
        }
        assert(!all_focus_ids(rest).contains(id)) by {
            if all_focus_ids(rest).contains(id) {
                let k = choose|k: int|
                    0 <= k < all_focus_ids(rest).len() && all_focus_ids(rest)[k] == id;
                assert(all[before[0].focus_ids().len() + k] == id);
            }
        }
        law_ignored_key_changes_nothing(before[0], id, key);
        lemma_key_passes_by(rest, nodes, id, key);
        assert((before + nodes).drop_first() =~= rest + nodes);
        assert((before + nodes)[0] == before[0]);
        assert(seq![before[0]] + (rest + all_keyed(nodes, id, key).0) =~= before + all_keyed(
            nodes,
            id,
            key,
        ).0);
    }
}

proof fn lemma_ids_of_first(first: NodeView, rest: Seq<NodeView>)
    ensures
        all_focus_ids(seq![first] + rest) == first.focus_ids() + all_focus_ids(rest),
    decreases rest.len(),
{
    let all = seq![first] + rest;
    if rest.len() == 0 {
        assert(all.drop_last() =~= seq![]);
        assert(all_focus_ids(all.drop_last()) =~= seq![]);
        assert(all_focus_ids(all) =~= first.focus_ids() + all_focus_ids(rest));
    } else {
        lemma_ids_of_first(first, rest.drop_last());
        assert(all.drop_last() =~= seq![first] + rest.drop_last());
        assert(all_focus_ids(all) =~= first.focus_ids() + all_focus_ids(rest));
    }
}

/// A key reaches the child that holds the focused node, and no other: its siblings stay as they
/// are.
pub proof fn law_key_reaches_the_focused_child(
    node: NodeView,
    before: Seq<NodeView>,
    child: NodeView,
    behind: Seq<NodeView>,
    id: u32,
    key: Key,
)
    requires
        node.focus != Some(id),
        node.children == before.push(child) + behind,
        !all_focus_ids(before).contains(id),
        child.keyed(id, key).1 != Reply::Ignored,
    ensures
        node.keyed(id, key) == (
            NodeView { children: before.push(child.keyed(id, key).0) + behind, ..node },
            child.keyed(id, key).1,
        ),
{
    let tail = seq![child] + behind;
    assert(node.children =~= before + tail);
    lemma_key_passes_by(before, tail, id, key);
    assert(tail.drop_first() =~= behind);
    assert(before + (seq![child.keyed(id, key).0] + behind) =~= before.push(
        child.keyed(id, key).0,
    ) + behind);
}

// ---- The focus --------------------------------------------------------------------

/// The chain of the focus runs through a node before its children, and through these in order.
pub proof fn law_focus_chain_runs_in_order(
    node: NodeView,
    first: Seq<NodeView>,
    second: NodeView,
    rest: Seq<NodeView>,
)
    requires
        node.kind !is Lazy,
        node.kind !is Dynamic,
        node.children == first.push(second) + rest,
    ensures
        ({
            let own = match node.focus {
                Some(id) => seq![id],
                None => Seq::<u32>::empty(),
            };
            let part = |children: Seq<NodeView>| (NodeView { focus: None, children, ..node }).focus_ids();
            node.focus_ids() == own + part(first) + second.focus_ids() + part(rest)
        }),
        (NodeView { focus: None, children: seq![], ..node }).focus_ids() == Seq::<u32>::empty(),
        (NodeView { focus: None, children: seq![second], ..node }).focus_ids() == second.focus_ids(),
{
    let none = Seq::<NodeView>::empty();
    assert(all_focus_ids(none) =~= seq![]);
    lemma_ids_join(first.push(second), rest);
    assert(first.push(second).drop_last() =~= first);
    assert(seq![second].drop_last() =~= none);
    assert(all_focus_ids(seq![second]) =~= second.focus_ids());
    let part = |children: Seq<NodeView>| (NodeView { focus: None, children, ..node }).focus_ids();
    assert(part(first) =~= all_focus_ids(first));
    assert(part(rest) =~= all_focus_ids(rest));
    assert(part(none) =~= seq![]);
    assert(part(seq![second]) =~= second.focus_ids());
    let own = match node.focus {
        Some(id) => seq![id],
        None => Seq::<u32>::empty(),
    };
    assert(node.focus_ids() =~= own + part(first) + second.focus_ids() + part(rest));
}

proof fn lemma_ids_join(a: Seq<NodeView>, b: Seq<NodeView>)
    ensures
        all_focus_ids(a + b) == all_focus_ids(a) + all_focus_ids(b),
    decreases b.len(),
{
    if b.len() == 0 {
        assert(a + b =~= a);
        assert(all_focus_ids(a) + all_focus_ids(b) =~= all_focus_ids(a));
    } else {
        lemma_ids_join(a, b.drop_last());
        assert((a + b).drop_last() =~= a + b.drop_last());
        assert(all_focus_ids(a + b) =~= all_focus_ids(a) + all_focus_ids(b));
    }
}

/// What a slot or a collection holds belongs to the chain as children do.
pub proof fn law_focus_chain_runs_through_slots(node: NodeView)
    requires
        node.focus is None,
        node.children.len() == 0,
    ensures
        node.kind matches KindView::Dynamic(slot) ==> node.focus_ids() == slot.focus_ids(),
        node.kind matches KindView::Lazy { children, .. } ==> node.focus_ids() == (NodeView {
            kind: KindView::Empty,
            children,
            ..node
        }).focus_ids(),
{
    assert(all_focus_ids(node.children) =~= seq![]);
    match node.kind {
        KindView::Dynamic(slot) => {
            assert(node.focus_ids() =~= slot.focus_ids());
        },
        KindView::Lazy { children, .. } => {
            let plain = NodeView { kind: KindView::Empty, children, ..node };
            assert(node.focus_ids() =~= plain.focus_ids());
        },
        _ => {},
    }
}

proof fn lemma_place(chain: Seq<u32>, at: int, from: int)
    requires
        chain.no_duplicates(),
        0 <= from <= at < chain.len(),
    ensures
        place_from(chain, chain[at], from) == Some(at),
    decreases at - from,
{
    if from < at {
        lemma_place(chain, at, from + 1);
    }
}

/// The tab key moves the focus to the next node of the chain and its reverse to the one before,
/// around the ends; where nothing has the focus it goes to the first one.
pub proof fn law_tab_goes_to_the_next(chain: Seq<u32>, at: int)
    requires
        chain.no_duplicates(),
        0 <= at < chain.len(),
    ensures
        at + 1 < chain.len() ==> focus_moved(chain, Some(chain[at]), false) == Some(chain[at + 1]),
        at + 1 == chain.len() ==> focus_moved(chain, Some(chain[at]), false) == Some(chain[0]),
        at > 0 ==> focus_moved(chain, Some(chain[at]), true) == Some(chain[at - 1]),
        at == 0 ==> focus_moved(chain, Some(chain[at]), true) == Some(chain.last()),
        focus_moved(chain, None, false) == Some(chain[0]),
{
    lemma_place(chain, at, 0);
}

/// Everybody who asked is told whether the focus lies below, and nobody else changes.
pub proof fn law_signals_tell_where_the_focus_is(node: NodeView, id: u32)
    ensures
        node.focus_signal is Some ==> node.told(Some(id)).focus_signal == Some(
            node.focus_ids().contains(id),
        ),
        node.focus_signal is Some ==> node.told(None).focus_signal == Some(false),
        node.focus_signal is None ==> node.told(Some(id)).focus_signal is None,
        node.told(Some(id)).children.len() == node.children.len(),
        forall|i: int|
            0 <= i < node.children.len() ==> (#[trigger] node.told(Some(id)).children[i])
                == node.children[i].told(Some(id)),
        node.kind !is Lazy && node.kind !is Dynamic ==> node.told(Some(id)).kind == node.kind,
        node.kind matches KindView::Dynamic(slot) ==> node.told(Some(id)).kind
            == KindView::Dynamic(Box::new(slot.told(Some(id)))),
        node.told(Some(id)).frame == node.frame && node.told(Some(id)).focus == node.focus,
{
    let told = all_told(node.children, Some(id));
    assert(told.len() == node.children.len());
}

// ---- Sessions ---------------------------------------------------------------------

/// A key that goes down, or is held, reaches the node that has the focus; a frame is due where the
/// node took it, and the action that it names runs. A key that comes up does nothing.
pub proof fn law_keys_go_to_the_focus(session: SessionView, id: u32, key: Key)
    requires
        session.focused == Some(id),
        key.code != KeyCode::Tab,
        key.code != KeyCode::BackTab,
        key.code != KeyCode::Esc,
        !(key.code == KeyCode::Char('c') && key.control),
    ensures
        ({
            let press = session.after_wake(
                Wake::Input(Event::Key { key, phase: KeyPhase::Press }),
            );
            let hold = session.after_wake(
                Wake::Input(Event::Key { key, phase: KeyPhase::Repeat }),
            );
            let release = session.after_wake(
                Wake::Input(Event::Key { key, phase: KeyPhase::Release }),
            );
            let (root, reply) = session.root.keyed(id, key);
            &&& press == hold
            &&& !press.quit
            &&& press.session.root == root
            &&& press.session.focused == session.focused
            &&& press.session.dirty == (session.dirty || reply != Reply::Ignored)
            &&& reply matches Reply::Run(action) ==> press.runs == seq![action]
            &&& reply !is Run ==> press.runs == Seq::<u32>::empty()
            &&& release == (After { session, quit: false, runs: seq![] })
        }),
{
}

/// The program ends on escape, on control and `c`, and when the terminal is gone, and on nothing
/// else.
pub proof fn law_program_ends_when_told(session: SessionView, wake: Wake)
    ensures
        session.after_wake(wake).quit == match wake {
            Wake::InputEnd => true,
            Wake::Input(Event::Key { key, phase }) => phase != KeyPhase::Release && (key.code
                == KeyCode::Esc || (key.code == KeyCode::Char('c') && key.control)),
            _ => false,
        },
        session.after_wake(wake).quit ==> session.after_wake(wake).session == session
            && session.after_wake(wake).runs == Seq::<u32>::empty(),
{
}

/// Tab and its reverse move the focus along the chain, tell everybody who asked, and make a frame
/// due.
pub proof fn law_tab_keys_move_the_focus(session: SessionView, control: bool, at: int)
    requires
        session.root.focus_ids().no_duplicates(),
        0 <= at < session.root.focus_ids().len(),
        session.focused == Some(session.root.focus_ids()[at]),
    ensures
        ({
            let chain = session.root.focus_ids();
            let n = chain.len() as int;
            let on = session.after_key(Key { code: KeyCode::Tab, control });
            let back = session.after_key(Key { code: KeyCode::BackTab, control });
            let next = chain[if at + 1 == n {
                0
            } else {
                at + 1
            }];
            let last = chain[if at == 0 {
                n - 1
            } else {
                at - 1
            }];
            &&& on == (After {
                session: SessionView {
                    root: session.root.told(Some(next)),
                    focused: Some(next),
                    dirty: true,
                },
                quit: false,
                runs: seq![],
            })
            &&& back == (After {
                session: SessionView {
                    root: session.root.told(Some(last)),
                    focused: Some(last),
                    dirty: true,
                },
                quit: false,
                runs: seq![],
            })
        }),
{
    law_tab_goes_to_the_next(session.root.focus_ids(), at);
}

/// A press, or a drag, gives the focus to the node that it lands on, runs what that names, and
/// makes a frame due; where it lands on nothing the focus stays. Other buttons do nothing.
pub proof fn law_press_gives_the_focus(session: SessionView, col: u16, row: u16, drag: bool)
    ensures
        ({
            let action = if drag {
                MouseAction::Drag
            } else {
                MouseAction::Press
            };
            let after = turned(session, action, col, row);
            let press = session.root.pressed(col as i32, row as i32, drag);
            &&& !after.quit
            &&& after.runs == press.runs
            &&& after.session.dirty
            &&& press.id is Some ==> after.session.focused == press.id && after.session.root
                == press.node.told(press.id)
            &&& press.id is None ==> after.session.focused == session.focused && after.session.root
                == press.node
            &&& turned(session, MouseAction::Other, col, row) == (After {
                session,
                quit: false,
                runs: seq![],
            })
        }),
{
}

/// A frame is drawn as soon as it is due, by whoever asks; otherwise the loop waits: until the next
/// frame of an animation, of which there are one in 80 milliseconds, or until something happens.
pub proof fn law_loop_draws_or_waits(session: SessionView)
    ensures
        forall|asked: bool, animated: bool|
            session.dirty || asked ==> (#[trigger] session.next_turn(asked, animated)) == Turn::Draw,
        !session.dirty ==> session.next_turn(false, true) == Turn::Wait(Some(80)),
        !session.dirty ==> session.next_turn(false, false) == Turn::Wait(None),
        session.after_wake(Wake::Task).session == (SessionView { dirty: true, ..session }),
        session.after_wake(Wake::Repaint).session == (SessionView { dirty: true, ..session }),
        session.after_wake(Wake::Input(Event::Resize)).session == (SessionView {
            dirty: true,
            ..session
        }),
        session.after_wake(Wake::Input(Event::Other)).session == session,
{
}

/// A session begins with the focus on the first node that can have it, which is told so, and with a
/// frame due; without such a node nothing has the focus.
pub proof fn law_session_begins_at_the_first_node(root: NodeView)
    ensures
        ({
            let session = Session::begun(root);
            &&& session.next_turn(false, false) == Turn::Draw
            &&& session.root == root.told(session.focused)
            &&& root.focus_ids().len() == 0 ==> session.focused is None
            &&& root.focus_ids().len() > 0 ==> session.focused == Some(root.focus_ids().first())
        }),
{
}

/// Once a frame is drawn none is due until something changes, and drawing it changed nothing else.
pub proof fn law_drawn_frame_is_not_due(session: SessionView)
    ensures
        session.after_frame().next_turn(false, false) == Turn::Wait(None),
        session.after_frame().root == session.root,
        session.after_frame().focused == session.focused,
        session.after_frame().redrawn() == session.redrawn(),
        session.redrawn().next_turn(false, false) == Turn::Draw,
{
}

/// A press beside the row of the labels, and a drag anywhere, leave the selected tab as it is.
pub proof fn law_press_beside_the_labels_selects_nothing(
    node: NodeView,
    col: i32,
    row: i32,
    drag: bool,
)
    requires
        node.kind is Tabs,
        row != node.frame.y || drag,
    ensures
        node.pressed(col, row, drag).node.kind == node.kind,
        node.pressed(col, row, drag).node.frame == node.frame,
{
    let inner = all_pressed(node.children, col, row, drag);
    assert(inner.id is Some || inner.id is None);
}

} // verus!
