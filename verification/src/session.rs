//! What the event loop decides: where the focus goes, what an event does to the tree,
//! when a frame is due, and when the program ends.

use vstd::prelude::*;

use crate::edit::{Key, KeyCode};
use crate::input::Reply;
use crate::node::{law_last_word_counts, Node, NodeView};
use crate::renderer::TuiState;

verus! {

/// Milliseconds between the frames of an animation.
pub const FRAME_MILLIS: u64 = 80;

/// Whether a key went down, is held, or was released.
#[derive(Clone, Copy, Debug, PartialEq, Eq, Structural)]
pub enum KeyPhase {
    Press,
    Repeat,
    Release,
}

/// What the mouse did.
#[derive(Clone, Copy, Debug, PartialEq, Eq, Structural)]
pub enum MouseAction {
    /// The left button went down.
    Press,
    /// The mouse moved with the left button held.
    Drag,
    ScrollDown,
    ScrollUp,
    ScrollRight,
    ScrollLeft,
    /// Anything else.
    Other,
}

/// An event of the terminal.
#[derive(Clone, Copy, Debug, PartialEq, Eq, Structural)]
pub enum Event {
    Key { key: Key, phase: KeyPhase },
    Mouse { action: MouseAction, col: u16, row: u16 },
    Resize,
    /// Anything else.
    Other,
}

/// What woke the event loop.
#[derive(Clone, Copy, Debug, PartialEq, Eq, Structural)]
pub enum Wake {
    /// A task ran, which may have changed anything.
    Task,
    /// An event of the terminal.
    Input(Event),
    /// The terminal is gone.
    InputEnd,
    /// Something asks to be drawn again.
    Repaint,
}

/// What the event loop does next.
#[derive(Clone, Copy, Debug, PartialEq, Eq)]
pub enum Turn {
    /// Draws a frame.
    Draw,
    /// Waits for the next wake-up, for so many milliseconds or without end.
    Wait(Option<u64>),
}

/// A running program: its tree, the focus, and whether a frame is due.
pub struct Session {
    /// The tree.
    pub root: Node,
    /// The focus id of the node that has the focus.
    pub focused: Option<u32>,
    /// Whether a frame is due.
    pub dirty: bool,
}

/// A running program as a value.
pub struct SessionView {
    pub root: NodeView,
    pub focused: Option<u32>,
    pub dirty: bool,
}

/// A session after an event, whether the program ends, and the actions that the host runs.
pub struct After {
    pub session: SessionView,
    pub quit: bool,
    pub runs: Seq<u32>,
}

// ---- Focus ------------------------------------------------------------------------

/// The first position of an id in a chain, from `from` on.
pub open spec fn place_from(chain: Seq<u32>, id: u32, from: int) -> Option<int>
    decreases chain.len() - from,
{
    if from >= chain.len() {
        None
    } else if chain[from] == id {
        Some(from)
    } else {
        place_from(chain, id, from + 1)
    }
}

/// The position that the focus moves to in a chain: the next one or the one before,
/// around the end; the first one where nothing in the chain has the focus.
pub open spec fn next_place(chain: Seq<u32>, focused: Option<u32>, back: bool) -> int {
    let at = match focused {
        Some(id) => place_from(chain, id, 0),
        None => None,
    };
    match at {
        Some(i) => if back {
            if i == 0 {
                chain.len() - 1
            } else {
                i - 1
            }
        } else {
            if i + 1 == chain.len() {
                0
            } else {
                i + 1
            }
        },
        None => 0,
    }
}

/// The focus after it moved along a chain.
pub open spec fn focus_moved(chain: Seq<u32>, focused: Option<u32>, back: bool) -> Option<u32> {
    if chain.len() == 0 {
        focused
    } else {
        Some(chain[next_place(chain, focused, back)])
    }
}

/// Moves the focus along a chain.
pub fn move_focus(chain: &Vec<u32>, focused: Option<u32>, back: bool) -> (r: Option<u32>)
    ensures
        r == focus_moved(chain@, focused, back),
{
    let n: usize = chain.len();
    if n == 0 {
        return focused;
    }
    if let Some(id) = focused {
        let mut i: usize = 0;
        while i < n
            invariant
                i <= n,
                n == chain@.len(),
                focused == Some(id),
                place_from(chain@, id, 0) == place_from(chain@, id, i as int),
            decreases n - i,
        {
            if chain[i] == id {
                let next: usize = if back {
                    if i == 0 {
                        n - 1
                    } else {
                        i - 1
                    }
                } else if i + 1 == n {
                    0
                } else {
                    i + 1
                };
                return Some(chain[next]);
            }
            i += 1;
        }
    }
    Some(chain[0])
}

// ---- Events -----------------------------------------------------------------------

/// How far a turn of the wheel moves a viewport, in columns and rows.
pub open spec fn wheel_delta(action: MouseAction) -> Option<(i32, i32)> {
    match action {
        MouseAction::ScrollDown => Some((0, 1)),
        MouseAction::ScrollUp => Some((0, -1i32)),
        MouseAction::ScrollRight => Some((1, 0)),
        MouseAction::ScrollLeft => Some((-1i32, 0)),
        _ => None,
    }
}

fn wheel_of(action: MouseAction) -> (r: Option<(i32, i32)>)
    ensures
        r == wheel_delta(action),
{
    match action {
        MouseAction::ScrollDown => Some((0, 1)),
        MouseAction::ScrollUp => Some((0, -1)),
        MouseAction::ScrollRight => Some((1, 0)),
        MouseAction::ScrollLeft => Some((-1, 0)),
        _ => None,
    }
}

/// Whether a key ends the program: escape, or control and `c`.
pub open spec fn ends(key: Key) -> bool {
    key.code == KeyCode::Esc || (key.code == KeyCode::Char('c') && key.control)
}

impl SessionView {
    /// After the focus went somewhere, and everybody who asked was told.
    pub open spec fn focus_on(self, focused: Option<u32>) -> SessionView {
        SessionView { root: self.root.told(focused), focused, ..self }
    }

    /// With a frame due.
    pub open spec fn redrawn(self) -> SessionView {
        SessionView { dirty: true, ..self }
    }

    /// The session once a frame was drawn.
    pub open spec fn after_frame(self) -> SessionView {
        SessionView { dirty: false, ..self }
    }

    /// Nothing happened.
    pub open spec fn unmoved(self) -> After {
        After { session: self, quit: false, runs: seq![] }
    }

    /// After a key went down or is held.
    pub open spec fn after_key(self, key: Key) -> After {
        if ends(key) {
            After { session: self, quit: true, runs: seq![] }
        } else if key.code == KeyCode::Tab || key.code == KeyCode::BackTab {
            let chain = self.root.focus_ids();
            let moved = if chain.len() > 0 {
                self.focus_on(focus_moved(chain, self.focused, key.code == KeyCode::BackTab))
            } else {
                self
            };
            After { session: moved.redrawn(), quit: false, runs: seq![] }
        } else {
            match self.focused {
                Some(id) => {
                    let (root, reply) = self.root.keyed(id, key);
                    After {
                        session: SessionView {
                            root,
                            dirty: self.dirty || reply != Reply::Ignored,
                            ..self
                        },
                        quit: false,
                        runs: match reply {
                            Reply::Run(action) => seq![action],
                            _ => seq![],
                        },
                    }
                },
                None => self.unmoved(),
            }
        }
    }

    /// After the left button was pressed, or the mouse dragged with it.
    pub open spec fn after_press(self, col: u16, row: u16, drag: bool) -> After {
        let pressed = self.root.pressed(col as i32, row as i32, drag);
        let after = SessionView { root: pressed.node, ..self };
        After {
            session: (if pressed.id is Some {
                after.focus_on(pressed.id)
            } else {
                after
            }).redrawn(),
            quit: false,
            runs: pressed.runs,
        }
    }

    /// After an event.
    pub open spec fn after_event(self, event: Event) -> After {
        match event {
            Event::Key { key, phase } => if phase == KeyPhase::Release {
                self.unmoved()
            } else {
                self.after_key(key)
            },
            Event::Mouse { action, col, row } => match wheel_delta(action) {
                Some((dx, dy)) => {
                    let (root, taken) = self.root.wheeled(col as i32, row as i32, dx, dy);
                    (SessionView { root, dirty: self.dirty || taken, ..self }).unmoved()
                },
                None => if action == MouseAction::Press || action == MouseAction::Drag {
                    self.after_press(col, row, action == MouseAction::Drag)
                } else {
                    self.unmoved()
                },
            },
            Event::Resize => self.redrawn().unmoved(),
            Event::Other => self.unmoved(),
        }
    }

    /// What the loop does next: a frame is drawn as soon as it is due; otherwise the loop
    /// waits, up to the next frame of an animation where there is one.
    pub open spec fn next_turn(self, asked: bool, animated: bool) -> Turn {
        if self.dirty || asked {
            Turn::Draw
        } else if animated {
            Turn::Wait(Some(FRAME_MILLIS))
        } else {
            Turn::Wait(None)
        }
    }

    /// After a wake-up.
    pub open spec fn after_wake(self, wake: Wake) -> After {
        match wake {
            Wake::Task | Wake::Repaint => self.redrawn().unmoved(),
            Wake::Input(event) => self.after_event(event),
            Wake::InputEnd => After { session: self, quit: true, runs: seq![] },
        }
    }
}

impl Session {
    pub open spec fn view(&self) -> SessionView {
        SessionView { root: self.root@, focused: self.focused, dirty: self.dirty }
    }

    /// A session over a tree that was not shown yet.
    pub open spec fn begun(root: NodeView) -> SessionView {
        let first = if root.focus_ids().len() > 0 {
            Some(root.focus_ids()[0])
        } else {
            None
        };
        SessionView { root: root.told(first), focused: first, dirty: true }
    }

    /// Starts a session: the first node that can have the focus gets it, and a frame is
    /// due.
    pub fn new(root: Node) -> (r: Session)
        ensures
            r@ == Session::begun(root@),
            ({
                let first = if root@.focus_ids().len() > 0 {
                    Some(root@.focus_ids()[0])
                } else {
                    None
                };
                r@ == (SessionView { root: root@.told(first), focused: first, dirty: true })
            }),
    {
        let mut chain: Vec<u32> = Vec::new();
        root.collect_focus(&mut chain);
        assert(chain@ =~= root@.focus_ids());
        let first: Option<u32> = if chain.len() > 0 { Some(chain[0]) } else { None };
        let mut session = Session { root, focused: first, dirty: true };
        session.root.sync_focused(first);
        session
    }

    fn put_focus(&mut self, focused: Option<u32>)
        ensures
            final(self)@ == old(self)@.focus_on(focused),
    {
        self.focused = focused;
        self.root.sync_focused(focused);
    }

    fn handle_key(&mut self, key: &Key, runs: &mut Vec<u32>) -> (r: bool)
        ensures
            ({
                let after = old(self)@.after_key(*key);
                &&& final(self)@ == after.session
                &&& r == after.quit
                &&& final(runs)@ == old(runs)@ + after.runs
            }),
    {
        assert(runs@ =~= old(runs)@ + Seq::<u32>::empty());
        match key.code {
            KeyCode::Esc => true,
            KeyCode::Tab | KeyCode::BackTab => {
                let mut chain: Vec<u32> = Vec::new();
                self.root.collect_focus(&mut chain);
                assert(chain@ =~= self.root@.focus_ids());
                if chain.len() > 0 {
                    let back = match key.code {
                        KeyCode::BackTab => true,
                        _ => false,
                    };
                    let next = move_focus(&chain, self.focused, back);
                    self.put_focus(next);
                }
                self.dirty = true;
                false
            },
            _ => {
                if key.control {
                    if let KeyCode::Char(c) = key.code {
                        if c == 'c' {
                            return true;
                        }
                    }
                }
                if let Some(id) = self.focused {
                    match self.root.handle_key(id, key) {
                        Reply::Ignored => {},
                        Reply::Handled => {
                            self.dirty = true;
                        },
                        Reply::Run(action) => {
                            runs.push(action);
                            self.dirty = true;
                        },
                    }
                }
                false
            },
        }
    }

    /// Applies an event of the terminal; `true` where the program ends. `runs` gets the
    /// actions that the host runs.
    pub fn handle_input(&mut self, event: Event, runs: &mut Vec<u32>) -> (r: bool)
        ensures
            ({
                let after = old(self)@.after_event(event);
                &&& final(self)@ == after.session
                &&& r == after.quit
                &&& final(runs)@ == old(runs)@ + after.runs
            }),
    {
        assert(runs@ =~= old(runs)@ + Seq::<u32>::empty());
        match event {
            Event::Key { key, phase } => {
                match phase {
                    KeyPhase::Release => false,
                    _ => self.handle_key(&key, runs),
                }
            },
            Event::Mouse { action, col, row } => {
                if let Some((dx, dy)) = wheel_of(action) {
                    if self.root.scroll_at(col, row, dx, dy) {
                        self.dirty = true;
                    }
                    return false;
                }
                let drag = match action {
                    MouseAction::Press => false,
                    MouseAction::Drag => true,
                    _ => {
                        return false;
                    },
                };
                let hit = self.root.mouse(col, row, drag, runs);
                if hit.is_some() {
                    self.put_focus(hit);
                }
                self.dirty = true;
                false
            },
            Event::Resize => {
                self.dirty = true;
                false
            },
            Event::Other => false,
        }
    }

    /// Applies a wake-up; `true` where the program ends.
    pub fn process(&mut self, wake: Wake, runs: &mut Vec<u32>) -> (r: bool)
        ensures
            ({
                let after = old(self)@.after_wake(wake);
                &&& final(self)@ == after.session
                &&& r == after.quit
                &&& final(runs)@ == old(runs)@ + after.runs
            }),
    {
        assert(runs@ =~= old(runs)@ + Seq::<u32>::empty());
        match wake {
            Wake::Task | Wake::Repaint => {
                self.dirty = true;
                false
            },
            Wake::Input(event) => self.handle_input(event, runs),
            Wake::InputEnd => true,
        }
    }

    /// Prepares a frame: whoever asked for the focus last gets it, and everybody who
    /// asked is told.
    pub fn begin_frame(&mut self, requests: &Vec<u32>)
        ensures
            final(self)@ == old(self)@.focus_on(
                if requests@.len() > 0 {
                    Some(requests@.last())
                } else {
                    old(self)@.focused
                },
            ),
    {
        let next: Option<u32> = if requests.len() > 0 {
            Some(requests[requests.len() - 1])
        } else {
            self.focused
        };
        self.put_focus(next);
    }

    /// What the loop does next: `asked` is whether anything besides the session asks for a
    /// frame, and `animated` whether something is animated.
    pub fn turn(&self, asked: bool, animated: bool) -> (r: Turn)
        ensures
            r == self@.next_turn(asked, animated),
    {
        if self.dirty || asked {
            Turn::Draw
        } else if animated {
            Turn::Wait(Some(FRAME_MILLIS))
        } else {
            Turn::Wait(None)
        }
    }

    /// Notes that a frame was drawn.
    pub fn drawn(&mut self)
        ensures
            final(self)@ == old(self)@.after_frame(),
            final(self)@ == (SessionView { dirty: false, ..old(self)@ }),
    {
        self.dirty = false;
    }

    /// Notes that nothing happened while the loop waited: the animations move on.
    pub fn timed_out(&mut self, state: &mut TuiState)
        ensures
            final(self)@ == old(self)@.redrawn(),
            final(state).tick == (if old(state).tick == u64::MAX {
                0
            } else {
                old(state).tick + 1
            }),
            final(state).registry() == old(state).registry(),
            final(state).focus_requests@ == old(state).focus_requests@,
            final(state).dirty == old(state).dirty,
    {
        state.bump_tick();
        self.dirty = true;
    }
}

// ---- Laws -------------------------------------------------------------------------

proof fn lemma_place_found(chain: Seq<u32>, at: int, from: int)
    requires
        chain.no_duplicates(),
        0 <= from <= at < chain.len(),
    ensures
        place_from(chain, chain[at], from) == Some(at),
    decreases at - from,
{
    if from < at {
        lemma_place_found(chain, at, from + 1);
    }
}

proof fn lemma_place_is_there(chain: Seq<u32>, id: u32, from: int)
    requires
        0 <= from,
    ensures
        place_from(chain, id, from) matches Some(at) ==> from <= at < chain.len() && chain[at] == id,
    decreases chain.len() - from,
{
    if from < chain.len() && chain[from] != id {
        lemma_place_is_there(chain, id, from + 1);
    }
}

/// Moving the focus back undoes moving it on, and the other way around, for an id that
/// stands in the chain.
pub proof fn law_focus_moves_back(chain: Seq<u32>, id: u32, back: bool)
    requires
        chain.no_duplicates(),
        chain.contains(id),
    ensures
        focus_moved(chain, focus_moved(chain, Some(id), back), !back) == Some(id),
{
    let at = chain.index_of(id);
    lemma_place_found(chain, at, 0);
    let next = next_place(chain, Some(id), back);
    lemma_place_found(chain, next, 0);
}

/// Wherever the focus was, a move along the chain puts it on a node of the chain.
pub proof fn law_focus_lands_in_the_chain(chain: Seq<u32>, focused: Option<u32>, back: bool)
    requires
        chain.len() > 0,
    ensures
        focus_moved(chain, focused, back) matches Some(id) && chain.contains(id),
{
    if let Some(id) = focused {
        lemma_place_is_there(chain, id, 0);
    }
    let at = next_place(chain, focused, back);
    assert(chain[at] == chain[at]);
}

/// Work that ran, a surface that asks to be drawn and a new size of the terminal each lead
/// to a frame.
pub proof fn law_changes_are_drawn(session: SessionView, asked: bool, animated: bool)
    ensures
        session.after_wake(Wake::Task).session.next_turn(asked, animated) == Turn::Draw,
        session.after_wake(Wake::Repaint).session.next_turn(asked, animated) == Turn::Draw,
        session.after_wake(Wake::Input(Event::Resize)).session.next_turn(asked, animated)
            == Turn::Draw,
{
}

/// Whatever wakes the loop, a frame that is due stays due until it is drawn.
pub proof fn law_due_frames_stay_due(session: SessionView, wake: Wake)
    requires
        session.dirty,
    ensures
        session.after_wake(wake).session.dirty,
{
}

/// After a frame the loop rests until something happens, and events that say nothing leave
/// it at rest.
pub proof fn law_loop_comes_to_rest(session: SessionView, key: Key)
    ensures
        ({
            let rested = SessionView { dirty: false, ..session };
            &&& rested.next_turn(false, false) == Turn::Wait(None)
            &&& rested.after_wake(Wake::Input(Event::Other)).session == rested
            &&& rested.after_wake(
                Wake::Input(Event::Key { key, phase: KeyPhase::Release }),
            ).session == rested
        }),
{
}

/// The tab key and its reverse cancel each other in a session whose focus lies on one of
/// its nodes.
pub proof fn law_tab_and_back(session: SessionView, id: u32, tab: Key, back: Key)
    requires
        session.root.focus_ids().no_duplicates(),
        session.root.focus_ids().contains(id),
        session.focused == Some(id),
        tab.code == KeyCode::Tab,
        back.code == KeyCode::BackTab,
    ensures
        ({
            let once = session.after_key(tab).session;
            let twice = once.after_key(back).session;
            &&& twice.focused == session.focused
            &&& twice.root == session.root.told(session.focused)
            &&& once.root.focus_ids() == session.root.focus_ids()
        }),
{
    let chain = session.root.focus_ids();
    assert(chain.len() > 0);
    law_focus_moves_back(chain, id, false);
    let once = session.after_key(tab).session;
    law_last_word_counts(session.root, once.focused, session.focused);
}

impl SessionView {
    /// After a key was pressed `n` times.
    pub open spec fn after_keys(self, key: Key, n: nat) -> SessionView
        decreases n,
    {
        if n == 0 {
            self
        } else {
            self.after_keys(key, (n - 1) as nat).after_key(key).session
        }
    }
}

proof fn lemma_focus_goes_around(session: SessionView, at: int, key: Key, n: nat)
    requires
        session.root.focus_ids().no_duplicates(),
        0 <= at < session.root.focus_ids().len(),
        session.focused == Some(session.root.focus_ids()[at]),
        key.code == KeyCode::Tab || key.code == KeyCode::BackTab,
        n <= session.root.focus_ids().len(),
    ensures
        ({
            let chain = session.root.focus_ids();
            let size = chain.len() as int;
            let after = session.after_keys(key, n);
            let place = if key.code == KeyCode::Tab {
                if at + n < size {
                    at + n
                } else {
                    at + n - size
                }
            } else {
                if at - n >= 0 {
                    at - n
                } else {
                    at - n + size
                }
            };
            &&& after.root.focus_ids() == chain
            &&& after.focused == Some(chain[place])
        }),
    decreases n,
{
    if n > 0 {
        lemma_focus_goes_around(session, at, key, (n - 1) as nat);
        let chain = session.root.focus_ids();
        let before = session.after_keys(key, (n - 1) as nat);
        let here = place_from(chain, before.focused->0, 0);
        let size = chain.len() as int;
        let m = n - 1;
        let place = if key.code == KeyCode::Tab {
            if at + m < size {
                at + m
            } else {
                at + m - size
            }
        } else {
            if at - m >= 0 {
                at - m
            } else {
                at - m + size
            }
        };
        lemma_place_found(chain, place, 0);
        assert(here == Some(place));
        let after = session.after_keys(key, n);
        law_last_word_counts(before.root, after.focused, after.focused);
    }
}

/// As many presses of the tab key, or of its reverse, as there are nodes that can have the focus
/// bring the focus back to where it was.
pub proof fn law_tabs_come_around(session: SessionView, id: u32, key: Key)
    requires
        session.root.focus_ids().no_duplicates(),
        session.root.focus_ids().contains(id),
        session.focused == Some(id),
        key.code == KeyCode::Tab || key.code == KeyCode::BackTab,
    ensures
        session.after_keys(key, session.root.focus_ids().len()).focused == session.focused,
{
    let chain = session.root.focus_ids();
    lemma_focus_goes_around(session, chain.index_of(id), key, chain.len());
}

} // verus!
