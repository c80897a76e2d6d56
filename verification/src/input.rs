//! Delivering keys, mouse presses and the wheel to a node tree.

use vstd::prelude::*;

use crate::controls::{stepper_digits, stepper_room, track_width, TabEntry, WHOLE};
use crate::edit::{field_key, secure_key, Key, KeyCode};
use crate::geometry::{coordinate, coordinate_sum, CellRect};
use crate::node::{
    all_focus_ids, lemma_ids_in_some, lemma_in_sum, nodes_view, topmost_hit, Kind, KindView, Node, NodeView,
};
use crate::scroll::ScrollState;
use crate::text::{display_width, width_of};

verus! {

/// What a node made of a key.
#[derive(Clone, Copy, Debug, PartialEq, Eq, Structural)]
pub enum Reply {
    /// The key means nothing here.
    Ignored,
    /// The node took the key.
    Handled,
    /// The node took the key, and the host runs an action.
    Run(u32),
}

// ---- Values of single controls ----------------------------------------------------

/// One twentieth of a slider's range.
pub const SLIDER_STEP: i64 = 50_000_000;

/// A slider's value after a key.
pub open spec fn slid(value: i64, key: Key) -> Option<i64> {
    match key.code {
        KeyCode::Left | KeyCode::Down | KeyCode::Char('-') => Some(
            if value - SLIDER_STEP > 0 { (value - SLIDER_STEP) as i64 } else { 0 },
        ),
        KeyCode::Right | KeyCode::Up | KeyCode::Char('+') => Some(
            if value + SLIDER_STEP < WHOLE { (value + SLIDER_STEP) as i64 } else { WHOLE as i64 },
        ),
        KeyCode::Home => Some(0),
        KeyCode::End => Some(WHOLE as i64),
        _ => None,
    }
}

/// Moves a slider by a key.
pub fn slider_key(value: i64, key: &Key) -> (r: Option<i64>)
    ensures
        r == slid(value, *key),
{
    match key.code {
        KeyCode::Left | KeyCode::Down | KeyCode::Char('-') => Some(
            if value > SLIDER_STEP { value - SLIDER_STEP } else { 0 },
        ),
        KeyCode::Right | KeyCode::Up | KeyCode::Char('+') => Some(
            if value < WHOLE as i64 - SLIDER_STEP { value + SLIDER_STEP } else { WHOLE as i64 },
        ),
        KeyCode::Home => Some(0),
        KeyCode::End => Some(WHOLE as i64),
        _ => None,
    }
}

/// The share of a track that lies before a column: zero at its first column and before
/// it, everything at its last column and behind it.
pub open spec fn track_share(track: (u16, u16), col: int) -> i64 {
    let last = track_width(track) - 1;
    let at = col - track.0;
    if at <= 0 {
        0
    } else if at >= last {
        WHOLE as i64
    } else {
        ((2 * at * WHOLE + last) / (2 * last)) as i64
    }
}

/// The value that a press on a slider's track sets.
pub fn slider_press(track: (u16, u16), col: i32) -> (r: Option<i64>)
    ensures
        r == (if track_width(track) > 0 { Some(track_share(track, col as int)) } else { None }),
{
    if track.0 >= track.1 {
        return None;
    }
    let last: i64 = track.1 as i64 - track.0 as i64 - 1;
    let at: i64 = col as i64 - track.0 as i64;
    if at <= 0 {
        Some(0)
    } else if at >= last {
        Some(WHOLE as i64)
    } else {
        assert(2 * at * WHOLE == at * 2_000_000_000);
        let doubled: i64 = 2 * last;
        let share: i64 = (at * 2_000_000_000 + last) / doubled;
        Some(share)
    }
}

/// A stepper's value after one step down.
pub open spec fn stepped_down(value: i32, step: i32, low: i32) -> i32 {
    coordinate(if value - step > low { value - step } else { low as int })
}

/// A stepper's value after one step up.
pub open spec fn stepped_up(value: i32, step: i32, high: i32) -> i32 {
    coordinate(if value + step < high { value + step } else { high as int })
}

fn step_down(value: i32, step: i32, low: i32) -> (r: i32)
    ensures
        r == stepped_down(value, step, low),
{
    let next: i64 = value as i64 - step as i64;
    if next <= low as i64 {
        low
    } else if next > i32::MAX as i64 {
        i32::MAX
    } else {
        next as i32
    }
}

fn step_up(value: i32, step: i32, high: i32) -> (r: i32)
    ensures
        r == stepped_up(value, step, high),
{
    let next: i64 = value as i64 + step as i64;
    if next >= high as i64 {
        high
    } else if next < i32::MIN as i64 {
        i32::MIN
    } else {
        next as i32
    }
}

/// A stepper's value after a key.
pub open spec fn stepped(value: i32, step: i32, low: i32, high: i32, key: Key) -> Option<i32> {
    match key.code {
        KeyCode::Left | KeyCode::Char('-') => Some(stepped_down(value, step, low)),
        KeyCode::Right | KeyCode::Char('+') => Some(stepped_up(value, step, high)),
        _ => None,
    }
}

/// Moves a stepper by a key.
pub fn stepper_key(value: i32, step: i32, low: i32, high: i32, key: &Key) -> (r: Option<i32>)
    ensures
        r == stepped(value, step, low, high, *key),
{
    match key.code {
        KeyCode::Left | KeyCode::Char('-') => Some(step_down(value, step, low)),
        KeyCode::Right | KeyCode::Char('+') => Some(step_up(value, step, high)),
        _ => None,
    }
}

/// The value that a press on a stepper sets: one step down on the `[-]` group at
/// its left end, one step up on the `[+]` at its right end.
pub open spec fn step_pressed(
    value: i32,
    step: i32,
    low: i32,
    high: i32,
    formatted: Option<Seq<char>>,
    area: CellRect,
    col: int,
) -> i32 {
    let width = match formatted {
        Some(text) => display_width(text),
        None => 0,
    };
    let right = area.x + area.width;
    let start = right - (stepper_room(width, low, high) + 8);
    if start <= col < start + 3 {
        stepped_down(value, step, low)
    } else if right - 3 <= col < right {
        stepped_up(value, step, high)
    } else {
        value
    }
}

/// Moves a stepper by a press.
pub fn stepper_press(
    value: i32,
    step: i32,
    low: i32,
    high: i32,
    formatted: &Option<String>,
    area: CellRect,
    col: i32,
) -> (r: i32)
    ensures
        r == step_pressed(
            value,
            step,
            low,
            high,
            match *formatted {
                Some(text) => Some(text@),
                None => None,
            },
            area,
            col as int,
        ),
{
    let width: usize = match formatted {
        Some(text) => width_of(text.as_str()),
        None => 0,
    };
    let kept: usize = stepper_digits(low, high) as usize;
    let room: i128 = if width > kept { width as i128 } else { kept as i128 };
    let right: i128 = area.x as i128 + area.width as i128;
    let start: i128 = right - (room + 8);
    let at: i128 = col as i128;
    if start <= at && at < start + 3 {
        step_down(value, step, low)
    } else if right - 3 <= at && at < right {
        step_up(value, step, high)
    } else {
        value
    }
}

/// A viewport after a key: a line at a time, a page less one line, or to either end.
pub open spec fn scrolled(state: ScrollState, viewport: CellRect, key: Key) -> ScrollState {
    let page = if viewport.height > 0 { viewport.height - 1 } else { 0 };
    let rows = state.axis.moves_rows();
    let columns = state.axis.moves_columns();
    match key.code {
        KeyCode::Up => if rows {
            state.moved_by(viewport, 0, -1)
        } else {
            state
        },
        KeyCode::Down => if rows {
            state.moved_by(viewport, 0, 1)
        } else {
            state
        },
        KeyCode::Left => if columns {
            state.moved_by(viewport, -1, 0)
        } else {
            state
        },
        KeyCode::Right => if columns {
            state.moved_by(viewport, 1, 0)
        } else {
            state
        },
        KeyCode::PageUp => if rows {
            state.moved_by(viewport, 0, -page)
        } else {
            state
        },
        KeyCode::PageDown => if rows {
            state.moved_by(viewport, 0, page)
        } else {
            state
        },
        KeyCode::Home => state.moved_to(viewport, (0, 0)),
        KeyCode::End => state.moved_to(viewport, (0x7fff_ffff, 0x7fff_ffff)),
        _ => state,
    }
}

/// Moves a viewport by a key; `true` where it moved.
pub fn scroll_key(state: &mut ScrollState, viewport: CellRect, key: &Key) -> (r: bool)
    ensures
        *final(state) == scrolled(*old(state), viewport, *key),
        r == (final(state).offset != old(state).offset),
{
    let page: i32 = if viewport.height > 0 { viewport.height as i32 - 1 } else { 0 };
    let rows = state.axis.vertical();
    let columns = state.axis.horizontal();
    match key.code {
        KeyCode::Up => rows && state.scroll_by(viewport, 0, -1),
        KeyCode::Down => rows && state.scroll_by(viewport, 0, 1),
        KeyCode::Left => columns && state.scroll_by(viewport, -1, 0),
        KeyCode::Right => columns && state.scroll_by(viewport, 1, 0),
        KeyCode::PageUp => rows && state.scroll_by(viewport, 0, -page),
        KeyCode::PageDown => rows && state.scroll_by(viewport, 0, page),
        KeyCode::Home => state.scroll_to(viewport, 0, 0),
        KeyCode::End => state.scroll_to(viewport, 0x7fff_ffff, 0x7fff_ffff),
        _ => false,
    }
}

// ---- Tabs -------------------------------------------------------------------------

/// The first tab of the given id from position `from` on, or the first tab of all.
pub open spec fn tab_from(tabs: Seq<TabEntry>, selection: u32, from: int) -> int
    decreases tabs.len() - from,
{
    if from >= tabs.len() {
        0
    } else if tabs[from].id == selection {
        from
    } else {
        tab_from(tabs, selection, from + 1)
    }
}

/// The position of the selected tab.
pub open spec fn selected_tab(tabs: Seq<TabEntry>, selection: u32) -> int {
    tab_from(tabs, selection, 0)
}

/// The position of the selected tab; the first one where none has the selected id.
pub fn selected_index(tabs: &Vec<TabEntry>, selection: u32) -> (r: usize)
    ensures
        r == selected_tab(tabs@, selection),
        tabs@.len() > 0 ==> r < tabs@.len(),
{
    let mut i: usize = 0;
    while i < tabs.len()
        invariant
            i <= tabs@.len(),
            selected_tab(tabs@, selection) == tab_from(tabs@, selection, i as int),
        decreases tabs@.len() - i,
    {
        if tabs[i].id == selection {
            return i;
        }
        i += 1;
    }
    0
}

/// The first tab that can be selected, going around from the selected one in steps of
/// `by`, `step` steps away or more.
pub open spec fn next_tab(tabs: Seq<TabEntry>, current: int, by: int, step: int) -> Option<int>
    decreases tabs.len() + 1 - step,
{
    let n = tabs.len() as int;
    let at = (current + by * step) % n;
    if step > n {
        None
    } else if tabs[at].enabled {
        Some(at)
    } else {
        next_tab(tabs, current, by, step + 1)
    }
}

/// The selection after an arrow key: the nearest tab on that side that can be selected,
/// around the end.
pub open spec fn tab_moved(tabs: Seq<TabEntry>, selection: u32, key: Key) -> Option<u32> {
    let current = selected_tab(tabs, selection);
    let next = match key.code {
        KeyCode::Left => next_tab(tabs, current, -1, 1),
        KeyCode::Right => next_tab(tabs, current, 1, 1),
        _ => None,
    };
    match next {
        Some(at) => Some(tabs[at].id),
        None => None,
    }
}

/// Moves a selection by a key.
pub fn tabs_key(tabs: &Vec<TabEntry>, selection: u32, key: &Key) -> (r: Option<u32>)
    ensures
        r == tab_moved(tabs@, selection, *key),
{
    let back = match key.code {
        KeyCode::Left => true,
        KeyCode::Right => false,
        _ => {
            return None;
        },
    };
    let n: usize = tabs.len();
    let current: usize = selected_index(tabs, selection);
    let ghost by: int = if back { -1 } else { 1 };
    let mut step: usize = 1;
    if n == 0 {
        return None;
    }
    loop
        invariant
            n == tabs@.len(),
            current < n,
            1 <= step <= n,
            by == (if back { -1int } else { 1int }),
            next_tab(tabs@, current as int, by, 1) == next_tab(tabs@, current as int, by, step as int),
            tab_moved(tabs@, selection, *key) == match next_tab(tabs@, current as int, by, 1) {
                Some(at) => Some(tabs@[at].id),
                None => None,
            },
        decreases n - step,
    {
        let at: usize = if back {
            if step <= current {
                current - step
            } else {
                n - (step - current)
            }
        } else if current < n - step {
            current + step
        } else {
            current - (n - step)
        };
        proof {
            let raw = current + by * step;
            assert(by * step == if back { -step } else { step as int }) by (nonlinear_arith)
                requires
                    by == (if back { -1int } else { 1int }),
            ;
            if raw < 0 {
                vstd::arithmetic::div_mod::lemma_mod_add_multiples_vanish(raw, n as int);
                vstd::arithmetic::div_mod::lemma_small_mod((raw + n) as nat, n as nat);
            } else if raw >= n {
                vstd::arithmetic::div_mod::lemma_mod_add_multiples_vanish(raw - n, n as int);
                vstd::arithmetic::div_mod::lemma_small_mod((raw - n) as nat, n as nat);
            } else {
                vstd::arithmetic::div_mod::lemma_small_mod(raw as nat, n as nat);
            }
            assert(at == raw % n as int);
        }
        if tabs[at].enabled {
            return Some(tabs[at].id);
        }
        if step == n {
            assert(next_tab(tabs@, current as int, by, n + 1) is None);
            return None;
        }
        step += 1;
    }
}

/// The selection after a press on the tab bar at column `col`, looking from label `from`
/// on: the first label under the column, with the gap behind it, decides.
pub open spec fn tab_pressed(
    tabs: Seq<TabEntry>,
    labels: Seq<CellRect>,
    selection: u32,
    col: int,
    from: int,
) -> u32
    decreases tabs.len() - from,
{
    if from >= tabs.len() || from >= labels.len() {
        selection
    } else if labels[from].x <= col < labels[from].x + labels[from].width + 2 {
        if tabs[from].enabled {
            tabs[from].id
        } else {
            selection
        }
    } else {
        tab_pressed(tabs, labels, selection, col, from + 1)
    }
}

/// The frames of a list of nodes.
pub open spec fn frames(nodes: Seq<NodeView>) -> Seq<CellRect> {
    nodes.map_values(|n: NodeView| n.frame)
}

fn tabs_press(tabs: &Vec<TabEntry>, labels: &Vec<Node>, selection: u32, col: i32) -> (r: u32)
    ensures
        r == tab_pressed(tabs@, frames(nodes_view(labels@)), selection, col as int, 0),
{
    let ghost rects = frames(nodes_view(labels@));
    let mut i: usize = 0;
    while i < tabs.len() && i < labels.len()
        invariant
            i <= tabs@.len(),
            i <= labels@.len(),
            rects == frames(nodes_view(labels@)),
            tab_pressed(tabs@, rects, selection, col as int, 0) == tab_pressed(
                tabs@,
                rects,
                selection,
                col as int,
                i as int,
            ),
        decreases tabs@.len() - i,
    {
        let label = labels[i].frame;
        assert(rects[i as int] == label);
        if label.x as i64 <= col as i64 && (col as i64) < label.x as i64 + label.width as i64 + 2 {
            return if tabs[i].enabled { tabs[i].id } else { selection };
        }
        i += 1;
    }
    selection
}

// ---- Keys -------------------------------------------------------------------------

impl NodeView {
    /// What the node that has the focus makes of a key.
    pub open spec fn own_key(self, key: Key) -> (KindView, Reply) {
        match self.kind {
            KindView::Button { action, .. } if key.activates() => (self.kind, Reply::Run(action)),
            KindView::Toggle { value, style } if key.activates() => (
                KindView::Toggle { value: !value, style },
                Reply::Handled,
            ),
            KindView::Field(field) => if key.code == KeyCode::Enter && field.submit is Some {
                (self.kind, Reply::Run(field.submit->0))
            } else {
                match field.typed(key) {
                    Some(after) => (KindView::Field(after), Reply::Handled),
                    None => (self.kind, Reply::Ignored),
                }
            },
            KindView::Secure(state) => if key.code == KeyCode::Enter && state.submit is Some {
                (self.kind, Reply::Run(state.submit->0))
            } else {
                match state.typed(key) {
                    Some(after) => (KindView::Secure(after), Reply::Handled),
                    None => (self.kind, Reply::Ignored),
                }
            },
            KindView::Slider { value, track } => match slid(value, key) {
                Some(value) => (KindView::Slider { value, track }, Reply::Handled),
                None => (self.kind, Reply::Ignored),
            },
            KindView::Stepper { value, step, low, high, formatter } => match stepped(
                value,
                step,
                low,
                high,
                key,
            ) {
                Some(value) => (
                    KindView::Stepper { value, step, low, high, formatter },
                    Reply::Handled,
                ),
                None => (self.kind, Reply::Ignored),
            },
            KindView::Scroll(state) => {
                let after = scrolled(state, self.frame, key);
                if after.offset != state.offset {
                    (KindView::Scroll(after), Reply::Handled)
                } else {
                    (self.kind, Reply::Ignored)
                }
            },
            KindView::Tabs { selection, tabs } => match tab_moved(tabs, selection, key) {
                Some(selection) => (KindView::Tabs { selection, tabs }, Reply::Handled),
                None => (self.kind, Reply::Ignored),
            },
            _ => (self.kind, Reply::Ignored),
        }
    }

    /// This subtree after a key for the node with the focus id `focused`, and what that
    /// node made of it.
    pub open spec fn keyed(self, focused: u32, key: Key) -> (NodeView, Reply)
        decreases self,
    {
        if self.focus == Some(focused) {
            let (kind, reply) = self.own_key(key);
            (NodeView { kind, ..self }, reply)
        } else {
            let (children, reply) = all_keyed(self.children, focused, key);
            let after = NodeView { children, ..self };
            if reply != Reply::Ignored {
                (after, reply)
            } else {
                match self.kind {
                    KindView::Lazy { layout, children } => {
                        let (children, reply) = all_keyed(children, focused, key);
                        (NodeView { kind: KindView::Lazy { layout, children }, ..after }, reply)
                    },
                    KindView::Dynamic(slot) => {
                        let (slot, reply) = slot.keyed(focused, key);
                        (NodeView { kind: KindView::Dynamic(Box::new(slot)), ..after }, reply)
                    },
                    _ => (after, Reply::Ignored),
                }
            }
        }
    }
}

/// A list of subtrees after a key, which goes to one after the other until one takes it.
pub open spec fn all_keyed(nodes: Seq<NodeView>, focused: u32, key: Key) -> (Seq<NodeView>, Reply)
    decreases nodes,
{
    if nodes.len() == 0 {
        (nodes, Reply::Ignored)
    } else {
        let (first, reply) = nodes[0].keyed(focused, key);
        if reply != Reply::Ignored {
            (seq![first] + nodes.drop_first(), reply)
        } else {
            let (rest, reply) = all_keyed(nodes.drop_first(), focused, key);
            (seq![first] + rest, reply)
        }
    }
}

fn key_all(nodes: &mut Vec<Node>, focused: u32, key: &Key) -> (r: Reply)
    ensures
        (nodes_view(final(nodes)@), r) == all_keyed(nodes_view(old(nodes)@), focused, *key),
    decreases old(nodes)@,
{
    let ghost before = nodes@;
    let ghost values = nodes_view(nodes@);
    let ghost mut done: Seq<NodeView> = seq![];
    let mut i: usize = 0;
    assert(values.skip(0) =~= values);
    assert(done + all_keyed(values, focused, *key).0 =~= all_keyed(values, focused, *key).0);
    while i < nodes.len()
        invariant
            i <= nodes@.len(),
            before == old(nodes)@,
            nodes@.len() == before.len(),
            values == nodes_view(before),
            done.len() == i,
            forall|j: int| i <= j < before.len() ==> nodes@[j] == before[j],
            forall|j: int| 0 <= j < i ==> (#[trigger] nodes@[j])@ == done[j],
            all_keyed(values, focused, *key) == (
                done + all_keyed(values.skip(i as int), focused, *key).0,
                all_keyed(values.skip(i as int), focused, *key).1,
            ),
        decreases before.len() - i,
    {
        let ghost rest = values.skip(i as int);
        assert(decreases_to!(before => before[i as int]));
        let reply = nodes[i].handle_key(focused, key);
        proof {
            assert(rest[0] == before[i as int]@);
            assert(rest.drop_first() =~= values.skip(i + 1));
            done = done.push(nodes@[i as int]@);
        }
        match reply {
            Reply::Ignored => {
                assert(all_keyed(values, focused, *key).0 =~= done + all_keyed(
                    values.skip(i + 1),
                    focused,
                    *key,
                ).0);
            },
            _ => {
                assert(nodes_view(nodes@) =~= done + values.skip(i + 1));
                assert(all_keyed(values, focused, *key).0 =~= nodes_view(nodes@));
                return reply;
            },
        }
        i += 1;
    }
    assert(nodes_view(nodes@) =~= all_keyed(values, focused, *key).0);
    Reply::Ignored
}

impl Node {
    fn take_key(&mut self, key: &Key) -> (r: Reply)
        ensures
            final(self)@ == (NodeView { kind: old(self)@.own_key(*key).0, ..old(self)@ }),
            r == old(self)@.own_key(*key).1,
    {
        let frame = self.frame;
        match &mut self.kind {
            Kind::Button { action, .. } => {
                if key.is_activation() {
                    Reply::Run(*action)
                } else {
                    Reply::Ignored
                }
            },
            Kind::Toggle { value, .. } => {
                if key.is_activation() {
                    *value = !*value;
                    Reply::Handled
                } else {
                    Reply::Ignored
                }
            },
            Kind::Field(field) => {
                if key.code == KeyCode::Enter && field.submit.is_some() {
                    Reply::Run(field.submit.unwrap())
                } else if field_key(field, key) {
                    Reply::Handled
                } else {
                    Reply::Ignored
                }
            },
            Kind::Secure(state) => {
                if key.code == KeyCode::Enter && state.submit.is_some() {
                    Reply::Run(state.submit.unwrap())
                } else if secure_key(state, key) {
                    Reply::Handled
                } else {
                    Reply::Ignored
                }
            },
            Kind::Slider { value, .. } => match slider_key(*value, key) {
                Some(next) => {
                    *value = next;
                    Reply::Handled
                },
                None => Reply::Ignored,
            },
            Kind::Stepper { value, step, low, high, .. } => match stepper_key(
                *value,
                *step,
                *low,
                *high,
                key,
            ) {
                Some(next) => {
                    *value = next;
                    Reply::Handled
                },
                None => Reply::Ignored,
            },
            Kind::Scroll(state) => {
                let ghost before = *state;
                if scroll_key(state, frame, key) {
                    Reply::Handled
                } else {
                    assert(*state == before);
                    Reply::Ignored
                }
            },
            Kind::Tabs { selection, tabs } => match tabs_key(tabs, *selection, key) {
                Some(next) => {
                    *selection = next;
                    Reply::Handled
                },
                None => Reply::Ignored,
            },
            _ => Reply::Ignored,
        }
    }

    /// Delivers a key to the node that has the focus.
    pub fn handle_key(&mut self, focused: u32, key: &Key) -> (r: Reply)
        ensures
            (final(self)@, r) == old(self)@.keyed(focused, *key),
        decreases *old(self),
    {
        if let Some(own) = self.focus {
            if own == focused {
                return self.take_key(key);
            }
        }
        let reply = key_all(&mut self.children, focused, key);
        match reply {
            Reply::Ignored => {},
            _ => {
                return reply;
            },
        }
        match &mut self.kind {
            Kind::Lazy(state) => key_all(&mut state.children, focused, key),
            Kind::Dynamic(slot) => slot.handle_key(focused, key),
            _ => Reply::Ignored,
        }
    }
}

/// A key that nobody takes changes nothing, and nobody takes a key meant for an id that
/// the tree does not hold.
pub proof fn law_ignored_key_changes_nothing(node: NodeView, focused: u32, key: Key)
    ensures
        node.keyed(focused, key).1 == Reply::Ignored ==> node.keyed(focused, key).0 == node,
        !node.focus_ids().contains(focused) ==> node.keyed(focused, key).1 == Reply::Ignored,
    decreases node,
{
    let own = match node.focus {
        Some(id) => seq![id],
        None => seq![],
    };
    let inner = match node.kind {
        KindView::Lazy { children, .. } => all_focus_ids(children),
        KindView::Dynamic(slot) => slot.focus_ids(),
        _ => seq![],
    };
    lemma_in_sum(own, all_focus_ids(node.children), focused);
    lemma_in_sum(own + all_focus_ids(node.children), inner, focused);
    if node.focus == Some(focused) {
        assert(own[0] == focused);
    } else {
        lemma_all_ignored(node.children, focused, key);
        match node.kind {
            KindView::Lazy { children, .. } => {
                lemma_all_ignored(children, focused, key);
            },
            KindView::Dynamic(slot) => {
                law_ignored_key_changes_nothing(*slot, focused, key);
            },
            _ => {},
        }
    }
}

proof fn lemma_all_ignored(nodes: Seq<NodeView>, focused: u32, key: Key)
    ensures
        all_keyed(nodes, focused, key).1 == Reply::Ignored ==> all_keyed(nodes, focused, key).0
            == nodes,
        !all_focus_ids(nodes).contains(focused) ==> all_keyed(nodes, focused, key).1
            == Reply::Ignored,
    decreases nodes,
{
    if nodes.len() > 0 {
        assert(decreases_to!(nodes => nodes[0]));
        assert(decreases_to!(nodes => nodes.drop_first()));
        law_ignored_key_changes_nothing(nodes[0], focused, key);
        lemma_all_ignored(nodes.drop_first(), focused, key);
        assert(seq![nodes[0]] + nodes.drop_first() =~= nodes);
        if !all_focus_ids(nodes).contains(focused) {
            lemma_ids_in_some(nodes, focused);
            lemma_ids_in_some(nodes.drop_first(), focused);
            assert(!nodes[0].focus_ids().contains(focused));
            if all_focus_ids(nodes.drop_first()).contains(focused) {
                let i = choose|i: int|
                    0 <= i < nodes.drop_first().len() && (#[trigger] nodes.drop_first()[i]).focus_ids().contains(
                        focused,
                    );
                assert(nodes[i + 1].focus_ids().contains(focused));
            }
        }
    }
}

/// Arrow keys only ever select a tab that can be selected, and they find one where there
/// is one.
pub proof fn law_arrows_select_enabled_tabs(tabs: Seq<TabEntry>, selection: u32, key: Key)
    requires
        key.code == KeyCode::Left || key.code == KeyCode::Right,
    ensures
        match tab_moved(tabs, selection, key) {
            Some(id) => exists|i: int| 0 <= i < tabs.len() && (#[trigger] tabs[i]).enabled && tabs[i].id == id,
            None => forall|i: int| 0 <= i < tabs.len() ==> !(#[trigger] tabs[i]).enabled,
        },
{
    let n = tabs.len() as int;
    if n > 0 {
        let current = selected_tab(tabs, selection);
        lemma_selected_in_range(tabs, selection, 0);
        let by = if key.code == KeyCode::Left { -1int } else { 1int };
        lemma_next_tab(tabs, current, by, 1);
        match next_tab(tabs, current, by, 1) {
            Some(at) => {
                assert(tabs[at].enabled);
            },
            None => {
                assert forall|i: int| 0 <= i < n implies !(#[trigger] tabs[i]).enabled by {
                    let step = if by == 1 {
                        if i > current { i - current } else { i - current + n }
                    } else {
                        if i < current { current - i } else { current - i + n }
                    };
                    let at = (current + by * step) % n;
                    assert(by * step == if by == 1 { step } else { -step }) by (nonlinear_arith)
                        requires
                            by == 1 || by == -1,
                    ;
                    let raw = current + by * step;
                    if raw == i {
                        vstd::arithmetic::div_mod::lemma_small_mod(i as nat, n as nat);
                    } else if raw == i + n {
                        vstd::arithmetic::div_mod::lemma_mod_add_multiples_vanish(i, n);
                        vstd::arithmetic::div_mod::lemma_small_mod(i as nat, n as nat);
                    } else {
                        assert(raw == i - n);
                        vstd::arithmetic::div_mod::lemma_mod_add_multiples_vanish(raw, n);
                        vstd::arithmetic::div_mod::lemma_small_mod(i as nat, n as nat);
                    }
                    assert(at == i);
                    lemma_passed_over(tabs, current, by, 1, step);
                }
            },
        }
    }
}

proof fn lemma_selected_in_range(tabs: Seq<TabEntry>, selection: u32, from: int)
    requires
        tabs.len() > 0,
        0 <= from,
    ensures
        0 <= tab_from(tabs, selection, from) < tabs.len(),
    decreases tabs.len() - from,
{
    if from < tabs.len() && tabs[from].id != selection {
        lemma_selected_in_range(tabs, selection, from + 1);
    }
}

proof fn lemma_next_tab(tabs: Seq<TabEntry>, current: int, by: int, step: int)
    requires
        tabs.len() > 0,
    ensures
        next_tab(tabs, current, by, step) matches Some(at) ==> 0 <= at < tabs.len()
            && tabs[at].enabled,
    decreases tabs.len() + 1 - step,
{
    let n = tabs.len() as int;
    vstd::arithmetic::div_mod::lemma_mod_bound(current + by * step, n);
    if step <= n && !tabs[(current + by * step) % n].enabled {
        lemma_next_tab(tabs, current, by, step + 1);
    }
}

proof fn lemma_passed_over(tabs: Seq<TabEntry>, current: int, by: int, from: int, step: int)
    requires
        next_tab(tabs, current, by, from) is None,
        from <= step <= tabs.len(),
    ensures
        !tabs[(current + by * step) % tabs.len() as int].enabled,
    decreases step - from,
{
    if from < step {
        lemma_passed_over(tabs, current, by, from + 1, step);
    }
}

/// A stepper whose value lies in its range stays in it, whatever keys it gets.
pub proof fn law_stepper_stays_in_range(value: i32, step: i32, low: i32, high: i32, key: Key)
    requires
        low <= value <= high,
        step >= 0,
    ensures
        stepped(value, step, low, high, key) matches Some(next) ==> low <= next <= high,
{
}

/// A slider's value stays inside its range once it lies there.
pub proof fn law_slider_stays_in_range(value: i64, key: Key)
    requires
        0 <= value <= WHOLE,
    ensures
        slid(value, key) matches Some(next) ==> 0 <= next <= WHOLE,
{
}

/// A viewport stays where it is in a direction in which its content is no larger than it is,
/// whatever key it gets and however the wheel turns.
pub proof fn law_nothing_scrolls_without_overflow(
    state: ScrollState,
    viewport: CellRect,
    key: Key,
    dx: int,
    dy: int,
)
    ensures
        state.offset.0 == 0 && state.extent.0 <= viewport.width ==> {
            &&& scrolled(state, viewport, key).offset.0 == 0
            &&& state.moved_by(viewport, dx, dy).offset.0 == 0
        },
        state.offset.1 == 0 && state.extent.1 <= viewport.height ==> {
            &&& scrolled(state, viewport, key).offset.1 == 0
            &&& state.moved_by(viewport, dx, dy).offset.1 == 0
        },
{
}

// ---- Mouse ------------------------------------------------------------------------

/// What a press does to a subtree.
pub struct Pressed {
    /// The subtree afterwards.
    pub node: NodeView,
    /// The focus id that the press landed on.
    pub id: Option<u32>,
    /// The actions that the host runs, in order.
    pub runs: Seq<u32>,
}

/// What a press does to a list of subtrees.
pub struct AllPressed {
    pub nodes: Seq<NodeView>,
    pub id: Option<u32>,
    pub runs: Seq<u32>,
}

impl NodeView {
    /// What a press that none of its children took does to the node itself.
    pub open spec fn own_press(self, col: i32, row: i32, drag: bool) -> (KindView, Seq<u32>) {
        match self.kind {
            KindView::Button { action, .. } if !drag => (self.kind, seq![action]),
            KindView::Toggle { value, style } if !drag => (
                KindView::Toggle { value: !value, style },
                seq![],
            ),
            KindView::Slider { track, .. } if track_width(track) > 0 => (
                KindView::Slider { value: track_share(track, col as int), track },
                seq![],
            ),
            KindView::Stepper { value, step, low, high, formatter } if !drag => (
                KindView::Stepper {
                    value: step_pressed(value, step, low, high, formatter, self.frame, col as int),
                    step,
                    low,
                    high,
                    formatter,
                },
                seq![],
            ),
            KindView::Tabs { selection, tabs } if !drag && row == self.frame.y => (
                KindView::Tabs {
                    selection: tab_pressed(tabs, frames(self.children), selection, col as int, 0),
                    tabs,
                },
                seq![],
            ),
            _ => (self.kind, seq![]),
        }
    }

    /// What a press at a cell does to this subtree: children lie above their parent and
    /// later ones above earlier ones, so the press goes to them first, until it lands on
    /// a node that can have the focus.
    pub open spec fn pressed(self, col: i32, row: i32, drag: bool) -> Pressed
        decreases self,
    {
        if !self.frame.covers(col as int, row as int) {
            Pressed { node: self, id: None, runs: seq![] }
        } else {
            let (after, id, runs) = match self.kind {
                KindView::Lazy { layout, children } => {
                    let inner = all_pressed(children, col, row, drag);
                    (
                        NodeView { kind: KindView::Lazy { layout, children: inner.nodes }, ..self },
                        inner.id,
                        inner.runs,
                    )
                },
                KindView::Dynamic(slot) => {
                    let inner = slot.pressed(col, row, drag);
                    (
                        NodeView { kind: KindView::Dynamic(Box::new(inner.node)), ..self },
                        inner.id,
                        inner.runs,
                    )
                },
                KindView::Scroll(state) => {
                    let inner = all_pressed(
                        self.children,
                        coordinate(col + state.offset.0),
                        coordinate(row + state.offset.1),
                        drag,
                    );
                    (NodeView { children: inner.nodes, ..self }, inner.id, inner.runs)
                },
                _ => {
                    let inner = all_pressed(self.children, col, row, drag);
                    (NodeView { children: inner.nodes, ..self }, inner.id, inner.runs)
                },
            };
            if id is Some {
                Pressed { node: after, id, runs }
            } else {
                let (kind, own) = after.own_press(col, row, drag);
                Pressed { node: NodeView { kind, ..after }, id: self.focus, runs: runs + own }
            }
        }
    }
}

/// What a press does to a list of subtrees, the last one first.
pub open spec fn all_pressed(nodes: Seq<NodeView>, col: i32, row: i32, drag: bool) -> AllPressed
    decreases nodes,
{
    if nodes.len() == 0 {
        AllPressed { nodes, id: None, runs: seq![] }
    } else {
        let last = nodes.last().pressed(col, row, drag);
        if last.id is Some {
            AllPressed { nodes: nodes.drop_last().push(last.node), id: last.id, runs: last.runs }
        } else {
            let rest = all_pressed(nodes.drop_last(), col, row, drag);
            AllPressed { nodes: rest.nodes.push(last.node), id: rest.id, runs: last.runs + rest.runs }
        }
    }
}

fn press_all(nodes: &mut Vec<Node>, col: i32, row: i32, drag: bool, runs: &mut Vec<u32>) -> (r: Option<
    u32,
>)
    ensures
        ({
            let all = all_pressed(nodes_view(old(nodes)@), col, row, drag);
            &&& nodes_view(final(nodes)@) == all.nodes
            &&& r == all.id
            &&& final(runs)@ == old(runs)@ + all.runs
        }),
    decreases old(nodes)@,
{
    let ghost before = nodes@;
    let ghost values = nodes_view(nodes@);
    let ghost all = all_pressed(values, col, row, drag);
    let ghost mut done: Seq<NodeView> = seq![];
    let mut i: usize = nodes.len();
    assert(values.take(i as int) =~= values);
    assert(all.nodes + done =~= all.nodes);
    while i > 0
        invariant
            i <= nodes@.len(),
            before == old(nodes)@,
            nodes@.len() == before.len(),
            values == nodes_view(before),
            all == all_pressed(values, col, row, drag),
            done.len() == before.len() - i,
            forall|j: int| 0 <= j < i ==> nodes@[j] == before[j],
            forall|j: int| i <= j < before.len() ==> (#[trigger] nodes@[j])@ == done[j - i],
            ({
                let part = all_pressed(values.take(i as int), col, row, drag);
                &&& all.nodes == part.nodes + done
                &&& all.id == part.id
                &&& old(runs)@ + all.runs == runs@ + part.runs
            }),
        decreases i,
    {
        i -= 1;
        let ghost taken = values.take(i + 1);
        assert(decreases_to!(before => before[i as int]));
        let id = nodes[i].mouse_at(col, row, drag, runs);
        proof {
            assert(taken.last() == before[i as int]@);
            assert(taken.drop_last() =~= values.take(i as int));
            done = seq![nodes@[i as int]@] + done;
        }
        if id.is_some() {
            assert(nodes_view(nodes@) =~= values.take(i as int) + done);
            assert(all.nodes =~= nodes_view(nodes@));
            assert(old(runs)@ + all.runs =~= runs@);
            return id;
        }
        assert(all.nodes =~= all_pressed(values.take(i as int), col, row, drag).nodes + done);
        assert(old(runs)@ + all.runs =~= runs@ + all_pressed(values.take(i as int), col, row, drag).runs);
    }
    assert(values.take(0).len() == 0);
    assert(nodes_view(nodes@) =~= all.nodes);
    assert(runs@ =~= old(runs)@ + all.runs);
    None
}

impl Node {
    fn take_press(&mut self, col: i32, row: i32, drag: bool, runs: &mut Vec<u32>)
        ensures
            final(self)@ == (NodeView { kind: old(self)@.own_press(col, row, drag).0, ..old(self)@ }),
            final(runs)@ == old(runs)@ + old(self)@.own_press(col, row, drag).1,
    {
        let frame = self.frame;
        match &mut self.kind {
            Kind::Button { action, .. } => {
                if !drag {
                    runs.push(*action);
                }
            },
            Kind::Toggle { value, .. } => {
                if !drag {
                    *value = !*value;
                }
            },
            Kind::Slider { value, track } => {
                if let Some(share) = slider_press(*track, col) {
                    *value = share;
                }
            },
            Kind::Stepper { value, step, low, high, formatter } => {
                if !drag {
                    *value = stepper_press(*value, *step, *low, *high, formatter, frame, col);
                }
            },
            Kind::Tabs { selection, tabs } => {
                if !drag && row == frame.y as i32 {
                    *selection = tabs_press(tabs, &self.children, *selection, col);
                }
            },
            _ => {},
        }
        assert(runs@ =~= old(runs)@ + old(self)@.own_press(col, row, drag).1);
    }

    /// Delivers a press, or a drag with the left button held, at a screen cell. Returns
    /// the focus id that it landed on; `runs` gets the actions that the host runs.
    pub fn mouse(&mut self, col: u16, row: u16, drag: bool, runs: &mut Vec<u32>) -> (r: Option<u32>)
        ensures
            ({
                let all = old(self)@.pressed(col as i32, row as i32, drag);
                &&& final(self)@ == all.node
                &&& r == all.id
                &&& final(runs)@ == old(runs)@ + all.runs
            }),
    {
        self.mouse_at(col as i32, row as i32, drag, runs)
    }

    fn mouse_at(&mut self, col: i32, row: i32, drag: bool, runs: &mut Vec<u32>) -> (r: Option<u32>)
        ensures
            ({
                let all = old(self)@.pressed(col, row, drag);
                &&& final(self)@ == all.node
                &&& r == all.id
                &&& final(runs)@ == old(runs)@ + all.runs
            }),
        decreases *old(self),
    {
        if !self.frame.contains(col, row) {
            assert(runs@ =~= old(runs)@ + Seq::<u32>::empty());
            return None;
        }
        let hit = match &mut self.kind {
            Kind::Lazy(state) => press_all(&mut state.children, col, row, drag, runs),
            Kind::Dynamic(slot) => slot.mouse_at(col, row, drag, runs),
            Kind::Scroll(state) => press_all(
                &mut self.children,
                coordinate_sum(col, state.offset.0),
                coordinate_sum(row, state.offset.1),
                drag,
                runs,
            ),
            _ => press_all(&mut self.children, col, row, drag, runs),
        };
        if hit.is_some() {
            return hit;
        }
        self.take_press(col, row, drag, runs);
        assert(runs@ =~= old(runs)@ + old(self)@.pressed(col, row, drag).runs);
        self.focus
    }
}

/// A press lands where hit-testing says.
pub proof fn law_press_lands_on_the_hit(node: NodeView, col: i32, row: i32, drag: bool)
    ensures
        node.pressed(col, row, drag).id == node.hit_id(col, row),
    decreases node,
{
    match node.kind {
        KindView::Lazy { children, .. } => {
            lemma_all_press_hit(children, col, row, drag);
        },
        KindView::Dynamic(slot) => {
            law_press_lands_on_the_hit(*slot, col, row, drag);
        },
        KindView::Scroll(state) => {
            lemma_all_press_hit(
                node.children,
                coordinate(col + state.offset.0),
                coordinate(row + state.offset.1),
                drag,
            );
        },
        _ => {
            lemma_all_press_hit(node.children, col, row, drag);
        },
    }
}

proof fn lemma_all_press_hit(nodes: Seq<NodeView>, col: i32, row: i32, drag: bool)
    ensures
        all_pressed(nodes, col, row, drag).id == topmost_hit(nodes, col, row),
    decreases nodes,
{
    if nodes.len() > 0 {
        assert(decreases_to!(nodes => nodes.last()));
        assert(decreases_to!(nodes => nodes.drop_last()));
        law_press_lands_on_the_hit(nodes.last(), col, row, drag);
        lemma_all_press_hit(nodes.drop_last(), col, row, drag);
    }
}

// ---- Wheel ------------------------------------------------------------------------

impl NodeView {
    /// This subtree after the wheel turned at a cell, and whether a viewport took it: the
    /// innermost viewport that can still move, else the one around it.
    pub open spec fn wheeled(self, col: i32, row: i32, dx: i32, dy: i32) -> (NodeView, bool)
        decreases self,
    {
        if !self.frame.covers(col as int, row as int) {
            (self, false)
        } else {
            match self.kind {
                KindView::Scroll(state) => {
                    let (children, taken) = all_wheeled(
                        self.children,
                        coordinate(col + state.offset.0),
                        coordinate(row + state.offset.1),
                        dx,
                        dy,
                    );
                    if taken {
                        (NodeView { children, ..self }, true)
                    } else {
                        let after = state.moved_by(self.frame, dx as int, dy as int);
                        (
                            NodeView { children, kind: KindView::Scroll(after), ..self },
                            after.offset != state.offset,
                        )
                    }
                },
                KindView::Lazy { layout, children } => {
                    let (children, taken) = all_wheeled(children, col, row, dx, dy);
                    (NodeView { kind: KindView::Lazy { layout, children }, ..self }, taken)
                },
                KindView::Dynamic(slot) => {
                    let (slot, taken) = slot.wheeled(col, row, dx, dy);
                    (NodeView { kind: KindView::Dynamic(Box::new(slot)), ..self }, taken)
                },
                _ => {
                    let (children, taken) = all_wheeled(self.children, col, row, dx, dy);
                    (NodeView { children, ..self }, taken)
                },
            }
        }
    }
}

/// A list of subtrees after the wheel turned, the last one first, until one takes it.
pub open spec fn all_wheeled(nodes: Seq<NodeView>, col: i32, row: i32, dx: i32, dy: i32) -> (
    Seq<NodeView>,
    bool,
)
    decreases nodes,
{
    if nodes.len() == 0 {
        (nodes, false)
    } else {
        let (last, taken) = nodes.last().wheeled(col, row, dx, dy);
        if taken {
            (nodes.drop_last().push(last), true)
        } else {
            let (rest, taken) = all_wheeled(nodes.drop_last(), col, row, dx, dy);
            (rest.push(last), taken)
        }
    }
}

fn wheel_all(nodes: &mut Vec<Node>, col: i32, row: i32, dx: i32, dy: i32) -> (r: bool)
    ensures
        (nodes_view(final(nodes)@), r) == all_wheeled(nodes_view(old(nodes)@), col, row, dx, dy),
    decreases old(nodes)@,
{
    let ghost before = nodes@;
    let ghost values = nodes_view(nodes@);
    let ghost all = all_wheeled(values, col, row, dx, dy);
    let ghost mut done: Seq<NodeView> = seq![];
    let mut i: usize = nodes.len();
    assert(values.take(i as int) =~= values);
    assert(all.0 + done =~= all.0);
    while i > 0
        invariant
            i <= nodes@.len(),
            before == old(nodes)@,
            nodes@.len() == before.len(),
            values == nodes_view(before),
            all == all_wheeled(values, col, row, dx, dy),
            done.len() == before.len() - i,
            forall|j: int| 0 <= j < i ==> nodes@[j] == before[j],
            forall|j: int| i <= j < before.len() ==> (#[trigger] nodes@[j])@ == done[j - i],
            all == (
                all_wheeled(values.take(i as int), col, row, dx, dy).0 + done,
                all_wheeled(values.take(i as int), col, row, dx, dy).1,
            ),
        decreases i,
    {
        i -= 1;
        let ghost taken = values.take(i + 1);
        assert(decreases_to!(before => before[i as int]));
        let moved = nodes[i].wheel_at(col, row, dx, dy);
        proof {
            assert(taken.last() == before[i as int]@);
            assert(taken.drop_last() =~= values.take(i as int));
            done = seq![nodes@[i as int]@] + done;
        }
        if moved {
            assert(nodes_view(nodes@) =~= values.take(i as int) + done);
            assert(all.0 =~= nodes_view(nodes@));
            return true;
        }
        assert(all.0 =~= all_wheeled(values.take(i as int), col, row, dx, dy).0 + done);
    }
    assert(values.take(0).len() == 0);
    assert(nodes_view(nodes@) =~= all.0);
    false
}

impl Node {
    /// Delivers a turn of the wheel at a screen cell; `true` where a viewport took it.
    pub fn scroll_at(&mut self, col: u16, row: u16, dx: i32, dy: i32) -> (r: bool)
        ensures
            (final(self)@, r) == old(self)@.wheeled(col as i32, row as i32, dx, dy),
    {
        self.wheel_at(col as i32, row as i32, dx, dy)
    }

    fn wheel_at(&mut self, col: i32, row: i32, dx: i32, dy: i32) -> (r: bool)
        ensures
            (final(self)@, r) == old(self)@.wheeled(col, row, dx, dy),
        decreases *old(self),
    {
        let frame = self.frame;
        if !frame.contains(col, row) {
            return false;
        }
        match &mut self.kind {
            Kind::Scroll(state) => {
                let taken = wheel_all(
                    &mut self.children,
                    coordinate_sum(col, state.offset.0),
                    coordinate_sum(row, state.offset.1),
                    dx,
                    dy,
                );
                if taken {
                    true
                } else {
                    state.scroll_by(frame, dx, dy)
                }
            },
            Kind::Lazy(state) => wheel_all(&mut state.children, col, row, dx, dy),
            Kind::Dynamic(slot) => slot.wheel_at(col, row, dx, dy),
            _ => wheel_all(&mut self.children, col, row, dx, dy),
        }
    }
}

/// A turn of the wheel that no viewport takes changes nothing.
pub proof fn law_untaken_wheel_changes_nothing(node: NodeView, col: i32, row: i32, dx: i32, dy: i32)
    ensures
        !node.wheeled(col, row, dx, dy).1 ==> node.wheeled(col, row, dx, dy).0 == node,
    decreases node,
{
    match node.kind {
        KindView::Scroll(state) => {
            lemma_all_untaken(
                node.children,
                coordinate(col + state.offset.0),
                coordinate(row + state.offset.1),
                dx,
                dy,
            );
        },
        KindView::Lazy { children, .. } => {
            lemma_all_untaken(children, col, row, dx, dy);
        },
        KindView::Dynamic(slot) => {
            law_untaken_wheel_changes_nothing(*slot, col, row, dx, dy);
        },
        _ => {
            lemma_all_untaken(node.children, col, row, dx, dy);
        },
    }
}

proof fn lemma_all_untaken(nodes: Seq<NodeView>, col: i32, row: i32, dx: i32, dy: i32)
    ensures
        !all_wheeled(nodes, col, row, dx, dy).1 ==> all_wheeled(nodes, col, row, dx, dy).0 == nodes,
    decreases nodes,
{
    if nodes.len() > 0 {
        assert(decreases_to!(nodes => nodes.last()));
        assert(decreases_to!(nodes => nodes.drop_last()));
        law_untaken_wheel_changes_nothing(nodes.last(), col, row, dx, dy);
        lemma_all_untaken(nodes.drop_last(), col, row, dx, dy);
        assert(nodes.drop_last().push(nodes.last()) =~= nodes);
    }
}

/// Dragging runs no action.
pub proof fn law_drag_runs_nothing(node: NodeView, col: i32, row: i32)
    ensures
        node.pressed(col, row, true).runs == Seq::<u32>::empty(),
    decreases node,
{
    match node.kind {
        KindView::Lazy { children, .. } => {
            lemma_all_drag(children, col, row);
        },
        KindView::Dynamic(slot) => {
            law_drag_runs_nothing(*slot, col, row);
        },
        KindView::Scroll(state) => {
            lemma_all_drag(
                node.children,
                coordinate(col + state.offset.0),
                coordinate(row + state.offset.1),
            );
        },
        _ => {
            lemma_all_drag(node.children, col, row);
        },
    }
}

proof fn lemma_all_drag(nodes: Seq<NodeView>, col: i32, row: i32)
    ensures
        all_pressed(nodes, col, row, true).runs == Seq::<u32>::empty(),
    decreases nodes,
{
    if nodes.len() > 0 {
        assert(decreases_to!(nodes => nodes.last()));
        assert(decreases_to!(nodes => nodes.drop_last()));
        law_drag_runs_nothing(nodes.last(), col, row);
        lemma_all_drag(nodes.drop_last(), col, row);
    }
}

} // verus!
