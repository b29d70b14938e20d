//! What the window's events do, decided apart from the window.
//!
//! The run loop pumps the window, the framework and the backend; every
//! decision between them is made here, from the state the loop keeps and the
//! event it read, and handed back as the actions to perform, in order. The
//! loop performs them and never decides anything itself.

use vstd::prelude::*;
use crate::click::{answers, hit_of, owned, route, Hit};
use crate::controls::{control_for, control_meaning, Control};
use crate::device::{same_board, Board, Button, KeyAction, Point, SwipeDir};
use crate::feed::{deliver, fed_all, has_edge, panel_point, Feed};
use crate::keys::{button_for, meaning, Key};
use crate::press::{all_released, came_due, press_outcome, released, Delivery, Keypad, Keys, Press};
use crate::session::Session;
use crate::touch::{held_for, lifted, sampled, Contact, Touch, Touchscreen, LONG_PRESS_MS};

verus! {

/// What the window reported, as plain values.
#[derive(Copy, Clone, Debug)]
pub enum Event {
    /// The window is closing.
    Quit,
    /// A key went down; `shifted` if either shift key was held, `repeat` for
    /// the window's own auto-repeat.
    KeyDown { key: Key, shifted: bool, repeat: bool },
    /// A key came up.
    KeyUp { key: Key },
    /// A mouse button went down at a window pixel; `left` for the left
    /// button, `on_panel` for the panel pixel the window maps it to.
    MouseDown { left: bool, at: Point, on_panel: Option<Point> },
    /// The mouse moved to a window pixel.
    MouseMove { at: Point, on_panel: Option<Point> },
    /// A mouse button came up at a window pixel.
    MouseUp { left: bool, at: Point, on_panel: Option<Point> },
    /// The wheel turned; `dy` is its vertical step.
    Wheel { dy: i32 },
}

/// One thing the loop is told to do.
#[derive(Copy, Clone, Debug, PartialEq, Eq, Structural)]
pub enum Action {
    /// Stop running.
    Stop,
    /// Hand this to the backend on screen.
    Deliver(Delivery),
    /// Hand this to the backend of the board just switched away from.
    Leave(Delivery),
    /// Open a frame on the backend now on screen.
    Begin,
    /// Register the panel where it now sits, and have the app redraw.
    Rebind,
    /// The home gesture.
    Home,
    /// Hand this touch, as the backend takes it, to the backend on screen.
    Touch(Feed),
    /// A swipe from the wheel.
    Swipe(SwipeDir),
}

/// Deliveries to the backend on screen.
pub open spec fn delivered(ds: Seq<Delivery>) -> Seq<Action> {
    ds.map_values(|d: Delivery| Action::Deliver(d))
}

/// Deliveries to the backend switched away from.
pub open spec fn left(ds: Seq<Delivery>) -> Seq<Action> {
    ds.map_values(|d: Delivery| Action::Leave(d))
}

/// Touches, as the backend takes them.
pub open spec fn touched(ts: Seq<Touch>) -> Seq<Action> {
    fed_all(ts, has_edge(ts)).map_values(|f: Feed| Action::Touch(f))
}

/// The state the loop keeps between events: the session, the finger, the
/// keys, the key the mouse holds down, and what the end of the frame owes.
pub struct Frame<K: Keys> {
    session: Session,
    touch: Touchscreen,
    keypad: Keypad<K>,
    held: Option<KeyAction>,
    body_dirty: bool,
    shot: bool,
    /// How many frames have begun.
    count: u32,
}

/// What the touchscreen reports when a finger lands at `at`.
pub open spec fn down_touches(t: Touchscreen, at: Point) -> Seq<Touch> {
    if t.has_touch() {
        seq![Touch::Held(at)]
    } else {
        Seq::empty()
    }
}

/// What the touchscreen reports when the finger moves to `at`.
pub open spec fn moved_touches(t: Touchscreen, at: Point) -> Seq<Touch> {
    match t.contact() {
        Some(_) => seq![Touch::Held(at)],
        None => Seq::empty(),
    }
}

/// What the touchscreen reports when only the clock moved.
pub open spec fn tick_touches(t: Touchscreen, now: u32) -> Seq<Touch> {
    match t.contact() {
        Some(c) => if c.long_pressed || c.left_tap_slop || held_for(c, now) < LONG_PRESS_MS {
            Seq::empty()
        } else {
            seq![Touch::LongPress(c.down)]
        },
        None => Seq::empty(),
    }
}

/// What the touchscreen reports when the finger lifts, at `at` if it lifted
/// over the panel.
pub open spec fn up_touches(t: Touchscreen, at: Option<Point>, now: u32) -> Seq<Touch> {
    match t.contact() {
        Some(c) => lifted(
            match at {
                Some(p) => sampled(c, p),
                None => c,
            },
            t.size(),
            now,
        ),
        None => Seq::empty(),
    }
}

/// The direction a wheel step swipes: down for a step down, up for a step up.
pub open spec fn wheel_direction(dy: i32) -> Option<SwipeDir> {
    if dy > 0 {
        Some(SwipeDir::Down)
    } else if dy < 0 {
        Some(SwipeDir::Up)
    } else {
        None
    }
}

impl<K: Keys> Frame<K> {
    /// The session.
    pub closed spec fn session_of(self) -> Session {
        self.session
    }

    /// The touchscreen.
    pub closed spec fn touch_of(self) -> Touchscreen {
        self.touch
    }

    /// What the keypad holds: physical key to delivered meaning.
    pub closed spec fn keys_held(self) -> Seq<(Button, Button)> {
        self.keypad.held()
    }

    /// Each time the keys were asked for a press that had come due, in
    /// order: the time they were asked at, and what they answered.
    pub closed spec fn due_answers(self) -> Seq<(u32, Option<Button>)> {
        self.keypad.due_answers()
    }

    /// How many times the keys were told to forget what they held.
    pub closed spec fn resets(self) -> nat {
        self.keypad.resets()
    }

    /// How many frames have begun.
    pub closed spec fn frames(self) -> nat {
        self.count as nat
    }

    /// Each press the keys were asked to translate, in order, with what they
    /// answered.
    pub closed spec fn translations(self) -> Seq<(Press, Option<Button>)> {
        self.keypad.translations()
    }

    /// The key under the mouse, if one is held down.
    pub closed spec fn mouse_key(self) -> Option<KeyAction> {
        self.held
    }

    /// Whether the body has to be repainted at the end of the frame.
    pub closed spec fn repaint_owed(self) -> bool {
        self.body_dirty
    }

    /// Whether a screenshot is owed at the end of the frame.
    pub closed spec fn shot_owed(self) -> bool {
        self.shot
    }

    /// The state holds together: the keypad holds no key twice and the
    /// touchscreen reports nothing it cannot.
    pub closed spec fn wf(self) -> bool {
        self.keypad.wf() && self.touch.wf()
    }

    /// Whether the loop can handle `event` now: a mouse position is one the
    /// layout can place.
    pub open spec fn accepts(self, event: Event) -> bool {
        match event {
            Event::MouseDown { left, at, .. } => left ==> answers(self.session_of().layout_of(), at),
            Event::MouseMove { at, .. } => answers(self.session_of().layout_of(), at),
            Event::MouseUp { left, at, .. } => left ==> answers(self.session_of().layout_of(), at),
            _ => true,
        }
    }

    /// Whether the loop can handle `event` now, as `handle` asks.
    pub fn can_take(&self, event: Event) -> (r: bool)
        ensures
            r == self.accepts(event),
    {
        let at = match event {
            Event::MouseDown { left, at, .. } => if left {
                at
            } else {
                return true;
            },
            Event::MouseMove { at, .. } => at,
            Event::MouseUp { left, at, .. } => if left {
                at
            } else {
                return true;
            },
            _ => return true,
        };
        match self.session.layout() {
            Some(l) => l.can_place(at),
            None => true,
        }
    }

    /// A loop on `session`, reading keys through `keys`, with nothing held.
    pub fn new(session: Session, keys: K) -> (f: Frame<K>)
        ensures
            f.session_of() == session,
            f.touch_of().contact() is None,
            f.touch_of().has_touch() == session.on_screen().touch,
            f.keys_held() == Seq::<(Button, Button)>::empty(),
            f.due_answers() == Seq::<(u32, Option<Button>)>::empty(),
            f.resets() == 0,
            f.translations() == Seq::<(Press, Option<Button>)>::empty(),
            f.frames() == 0,
            f.mouse_key() is None,
            !f.repaint_owed(),
            !f.shot_owed(),
            f.wf(),
    {
        let board = session.board();
        Frame {
            session,
            touch: Touchscreen::for_board(board),
            keypad: Keypad::new(keys),
            held: None,
            body_dirty: false,
            shot: false,
            count: 0,
        }
    }

    /// The session.
    pub fn session(&self) -> (s: &Session)
        ensures
            *s == self.session_of(),
    {
        &self.session
    }

    /// The key the mouse holds down, which the body draws lit.
    pub fn held(&self) -> (h: Option<KeyAction>)
        ensures
            h == self.mouse_key(),
    {
        self.held
    }

    /// Opens a frame on the backend on screen: what has come due is
    /// delivered before any event is read, because it happened first.
    pub fn open(&mut self, now: u32) -> (acts: Vec<Action>)
        requires
            old(self).wf(),
        ensures
            final(self).wf(),
            final(self).session_of() == old(self).session_of(),
            final(self).touch_of() == old(self).touch_of(),
            final(self).keys_held() == old(self).keys_held(),
            final(self).mouse_key() == old(self).mouse_key(),
            final(self).repaint_owed() == old(self).repaint_owed(),
            final(self).shot_owed() == old(self).shot_owed(),
            final(self).due_answers() == old(self).due_answers().push((now, final(self).due_answers().last().1)),
            final(self).translations() == old(self).translations(),
            final(self).resets() == old(self).resets(),
            final(self).frames() == old(self).frames(),
            acts@ == delivered(came_due(final(self).due_answers().last().1)),
    {
        let due = self.keypad.due(now);
        to_backend(&due)
    }

    /// Begins a frame at `now`, unless `limit` frames have already run, in
    /// which case the run is over: `None`, and nothing changes. Otherwise the
    /// frame is counted and opened, and what has come due is delivered before
    /// any event is read.
    pub fn begin(&mut self, now: u32, limit: Option<u32>) -> (acts: Option<Vec<Action>>)
        requires
            old(self).wf(),
        ensures
            final(self).wf(),
            (acts is None) == match limit {
                Some(l) => old(self).frames() >= l,
                None => false,
            },
            acts is None ==> *final(self) == *old(self),
            acts matches Some(a) ==> {
                &&& final(self).frames() == if old(self).frames() < u32::MAX {
                    old(self).frames() + 1
                } else {
                    old(self).frames()
                }
                &&& final(self).session_of() == old(self).session_of()
                &&& final(self).touch_of() == old(self).touch_of()
                &&& final(self).keys_held() == old(self).keys_held()
                &&& final(self).mouse_key() == old(self).mouse_key()
                &&& final(self).repaint_owed() == old(self).repaint_owed()
                &&& final(self).shot_owed() == old(self).shot_owed()
                &&& final(self).translations() == old(self).translations()
                &&& final(self).due_answers() == old(self).due_answers().push((now, final(self).due_answers().last().1))
                &&& final(self).resets() == old(self).resets()
                &&& a@ == delivered(came_due(final(self).due_answers().last().1))
            },
    {
        match limit {
            Some(l) => {
                if self.count >= l {
                    return None;
                }
            },
            None => {},
        }
        if self.count < u32::MAX {
            self.count = self.count + 1;
        }
        Some(self.open(now))
    }

    /// Closes the frame's input: the long press is the one classification
    /// with no event behind it, only the clock.
    pub fn close(&mut self, now: u32) -> (acts: Vec<Action>)
        requires
            old(self).wf(),
        ensures
            final(self).wf(),
            final(self).session_of() == old(self).session_of(),
            final(self).keys_held() == old(self).keys_held(),
            final(self).mouse_key() == old(self).mouse_key(),
            final(self).repaint_owed() == old(self).repaint_owed(),
            final(self).shot_owed() == old(self).shot_owed(),
            final(self).due_answers() == old(self).due_answers(),
            final(self).resets() == old(self).resets(),
            final(self).translations() == old(self).translations(),
            final(self).frames() == old(self).frames(),
            acts@ == touched(tick_touches(old(self).touch_of(), now)),
    {
        let t = self.touch.tick(now);
        feed_of(&t)
    }

    /// Whether the body has to be repainted, and it is owed no more.
    pub fn take_repaint(&mut self) -> (r: bool)
        ensures
            r == old(self).repaint_owed(),
            !final(self).repaint_owed(),
            final(self).session_of() == old(self).session_of(),
            final(self).touch_of() == old(self).touch_of(),
            final(self).keys_held() == old(self).keys_held(),
            final(self).mouse_key() == old(self).mouse_key(),
            final(self).shot_owed() == old(self).shot_owed(),
            final(self).wf() == old(self).wf(),
    {
        let r = self.body_dirty;
        self.body_dirty = false;
        r
    }

    /// Whether a screenshot was asked for this frame, and it is owed no more.
    pub fn take_shot(&mut self) -> (r: bool)
        ensures
            r == old(self).shot_owed(),
            !final(self).shot_owed(),
            final(self).session_of() == old(self).session_of(),
            final(self).touch_of() == old(self).touch_of(),
            final(self).keys_held() == old(self).keys_held(),
            final(self).mouse_key() == old(self).mouse_key(),
            final(self).repaint_owed() == old(self).repaint_owed(),
            final(self).wf() == old(self).wf(),
    {
        let r = self.shot;
        self.shot = false;
        r
    }
}

/// Deliveries to the backend on screen, as actions.
fn to_backend(ds: &Vec<Delivery>) -> (acts: Vec<Action>)
    ensures
        acts@ == delivered(ds@),
{
    let mut out: Vec<Action> = Vec::new();
    let mut i: usize = 0;
    while i < ds.len()
        invariant
            i <= ds@.len(),
            out@ == delivered(ds@.take(i as int)),
        decreases ds@.len() - i,
    {
        out.push(Action::Deliver(ds[i]));
        assert(out@ =~= delivered(ds@.take(i + 1)));
        i = i + 1;
    }
    assert(ds@.take(ds@.len() as int) =~= ds@);
    out
}

/// Deliveries to the backend switched away from, as actions.
fn to_previous(ds: &Vec<Delivery>) -> (acts: Vec<Action>)
    ensures
        acts@ == left(ds@),
{
    let mut out: Vec<Action> = Vec::new();
    let mut i: usize = 0;
    while i < ds.len()
        invariant
            i <= ds@.len(),
            out@ == left(ds@.take(i as int)),
        decreases ds@.len() - i,
    {
        out.push(Action::Leave(ds[i]));
        assert(out@ =~= left(ds@.take(i + 1)));
        i = i + 1;
    }
    assert(ds@.take(ds@.len() as int) =~= ds@);
    out
}

/// Touches, as actions.
fn feed_of(t: &crate::touch::Touches) -> (acts: Vec<Action>)
    ensures
        acts@ == touched(t@),
{
    let fs = deliver(t);
    let mut out: Vec<Action> = Vec::new();
    let mut i: usize = 0;
    while i < fs.len()
        invariant
            i <= fs@.len(),
            out@ == fs@.take(i as int).map_values(|f: Feed| Action::Touch(f)),
        decreases fs@.len() - i,
    {
        out.push(Action::Touch(fs[i]));
        assert(out@ =~= fs@.take(i + 1).map_values(|f: Feed| Action::Touch(f)));
        i = i + 1;
    }
    assert(fs@.take(fs@.len() as int) =~= fs@);
    out
}

/// Just `a`.
fn one(a: Action) -> (r: Vec<Action>)
    ensures
        r@ == seq![a],
{
    let mut v = Vec::new();
    v.push(a);
    assert(v@ =~= seq![a]);
    v
}

/// `a` followed by `b`.
fn then(a: Vec<Action>, b: Vec<Action>) -> (r: Vec<Action>)
    ensures
        r@ == a@ + b@,
{
    let mut out = a;
    let mut i: usize = 0;
    let ghost base = out@;
    while i < b.len()
        invariant
            i <= b@.len(),
            out@ == base + b@.take(i as int),
        decreases b@.len() - i,
    {
        out.push(b[i]);
        assert(out@ =~= base + b@.take(i + 1));
        i = i + 1;
    }
    assert(b@.take(b@.len() as int) =~= b@);
    out
}

/// The touchscreen after a finger lands at `at`.
pub open spec fn touch_down(t0: Touchscreen, t1: Touchscreen, at: Point, now: u32) -> bool {
    &&& t1.size() == t0.size()
    &&& t1.has_touch() == t0.has_touch()
    &&& if t0.has_touch() {
        t1.contact() == Some(
            Contact {
                down: at,
                down_ms: now,
                latest: at,
                left_tap_slop: false,
                left_release_slop: false,
                long_pressed: false,
            },
        )
    } else {
        t1.contact() == t0.contact()
    }
}

/// The touchscreen after the finger moves to `at`.
pub open spec fn touch_moved(t0: Touchscreen, t1: Touchscreen, at: Point) -> bool {
    &&& t1.size() == t0.size()
    &&& t1.has_touch() == t0.has_touch()
    &&& match t0.contact() {
        Some(c) => t1.contact() == Some(sampled(c, at)),
        None => t1.contact() is None,
    }
}

/// The touchscreen after the finger lifts.
pub open spec fn touch_up(t0: Touchscreen, t1: Touchscreen) -> bool {
    &&& t1.size() == t0.size()
    &&& t1.has_touch() == t0.has_touch()
    &&& t1.contact() is None
}

/// A touchscreen fresh for `board`.
pub open spec fn touch_fresh(t: Touchscreen, board: Board) -> bool {
    &&& t.size() == (board.width, board.height)
    &&& t.has_touch() == board.touch
    &&& t.contact() is None
}

/// Where a window pixel lands on the panel, if it does.
pub open spec fn on_panel_at(s: Session, at: Point, on_panel: Option<Point>) -> Option<Point> {
    match hit_of(s.layout_of(), at, on_panel) {
        Hit::Panel(p) => Some(p),
        _ => None,
    }
}

impl<K: Keys> Frame<K> {
    /// Whether `after` is this state with nothing changed.
    pub open spec fn kept(self, after: Self) -> bool {
        &&& after.session_of() == self.session_of()
        &&& after.touch_of() == self.touch_of()
        &&& after.keys_held() == self.keys_held()
        &&& after.mouse_key() == self.mouse_key()
        &&& after.repaint_owed() == self.repaint_owed()
        &&& after.shot_owed() == self.shot_owed()
        &&& after.translations() == self.translations()
        &&& after.due_answers() == self.due_answers()
        &&& after.resets() == self.resets()
    }

    /// What a board, zoom or body control does at `now`: the session applies
    /// it; a change redraws, and a change of board also lets go of everything
    /// held on the board left, tells the keys once to forget anything pending,
    /// starts a frame on the new one, asking the keys at `now` what has come
    /// due, and resets the finger.
    pub open spec fn controlled(self, after: Self, control: Control, now: u32, acts: Seq<Action>) -> bool {
        let s0 = self.session_of();
        let s1 = after.session_of();
        let changed = s1.at() != s0.at() || s1.zoom() != s0.zoom() || s1.with_body() != s0.with_body();
        {
                &&& s0.applied(s1, control, changed)
                &&& after.shot_owed() == self.shot_owed()
                &&& after.translations() == self.translations()
                &&& if !changed {
                    &&& acts == Seq::<Action>::empty()
                    &&& after.touch_of() == self.touch_of()
                    &&& after.keys_held() == self.keys_held()
                    &&& after.mouse_key() == self.mouse_key()
                    &&& after.repaint_owed() == self.repaint_owed()
                    &&& after.due_answers() == self.due_answers()
                    &&& after.resets() == self.resets()
                } else if same_board(s1.on_screen(), s0.on_screen()) {
                    &&& acts == seq![Action::Rebind]
                    &&& after.touch_of() == self.touch_of()
                    &&& after.keys_held() == self.keys_held()
                    &&& after.mouse_key() == self.mouse_key()
                    &&& after.repaint_owed()
                    &&& after.due_answers() == self.due_answers()
                    &&& after.resets() == self.resets()
                } else {
                    &&& after.keys_held() == Seq::<(Button, Button)>::empty()
                    &&& after.mouse_key() is None
                    &&& touch_fresh(after.touch_of(), s1.on_screen())
                    &&& after.repaint_owed()
                    &&& after.due_answers() == self.due_answers().push((now, after.due_answers().last().1))
                    &&& after.resets() == self.resets() + 1
                    &&& acts == left(all_released(self.keys_held())) + seq![Action::Begin] + delivered(
                        came_due(after.due_answers().last().1),
                    ) + seq![Action::Rebind]
                }
            }
    }

    /// What the keys asked to translate `b`, pressed at `now` on the board on
    /// screen, leave behind: the press and their answer are recorded, and
    /// the answer is what is pressed and held.
    pub open spec fn translated(self, after: Self, b: Button, now: u32, acts: Seq<Action>) -> bool {
        let answer = after.translations().last().1;
        let press = Press { button: b, now, board: self.session_of().on_screen() };
        &&& after.translations() == self.translations().push((press, answer))
        &&& after.due_answers() == self.due_answers()
        &&& after.resets() == self.resets()
        &&& after.keys_held() == press_outcome(self.keys_held(), b, answer).0
        &&& acts == delivered(press_outcome(self.keys_held(), b, answer).1)
    }

    /// What a key going down does with the key `key` once `Q`, the controls
    /// and `H` are ruled out: it asks the keys what the button it is means,
    /// if it is one.
    pub open spec fn key_pressed(self, after: Self, button: Option<Button>, now: u32, acts: Seq<Action>) -> bool {
        match button {
            Some(b) => {
                &&& after.session_of() == self.session_of()
                &&& after.touch_of() == self.touch_of()
                &&& after.mouse_key() == self.mouse_key()
                &&& after.repaint_owed() == self.repaint_owed()
                &&& after.shot_owed() == self.shot_owed()
                &&& self.translated(after, b, now, acts)
            },
            None => self.kept(after) && acts == Seq::<Action>::empty(),
        }
    }

    /// What a click on a physical key does: it presses the button, goes home
    /// or does nothing, and the key is drawn held.
    pub open spec fn key_clicked(self, after: Self, action: KeyAction, now: u32, acts: Seq<Action>) -> bool {
        &&& after.session_of() == self.session_of()
        &&& after.touch_of() == self.touch_of()
        &&& after.mouse_key() == Some(action)
        &&& after.repaint_owed()
        &&& after.shot_owed() == self.shot_owed()
        &&& match action {
            KeyAction::Press(b) => self.translated(after, b, now, acts),
            KeyAction::Home => {
                &&& after.keys_held() == self.keys_held()
                &&& after.translations() == self.translations()
                &&& after.due_answers() == self.due_answers()
                &&& after.resets() == self.resets()
                &&& acts == seq![Action::Home]
            },
            KeyAction::Unassigned => {
                &&& after.keys_held() == self.keys_held()
                &&& after.translations() == self.translations()
                &&& after.due_answers() == self.due_answers()
                &&& after.resets() == self.resets()
                &&& acts == Seq::<Action>::empty()
            },
        }
    }

    /// What handling `event` at `now` does: the state it leaves and the
    /// actions it asks for, in order.
    pub open spec fn handled(self, after: Self, event: Event, now: u32, acts: Seq<Action>) -> bool {
        match event {
            Event::Quit => self.kept(after) && acts == seq![Action::Stop],
            Event::KeyDown { key, shifted, repeat } => if key == Key::Q {
                self.kept(after) && acts == seq![Action::Stop]
            } else if !repeat && control_meaning(key, shifted) is Some {
                let control = control_meaning(key, shifted).unwrap();
                if control == Control::Screenshot {
                    &&& after.session_of() == self.session_of()
                    &&& after.touch_of() == self.touch_of()
                    &&& after.keys_held() == self.keys_held()
                    &&& after.mouse_key() == self.mouse_key()
                    &&& after.repaint_owed() == self.repaint_owed()
                    &&& after.shot_owed()
                    &&& after.translations() == self.translations()
                    &&& after.due_answers() == self.due_answers()
                    &&& after.resets() == self.resets()
                    &&& acts == Seq::<Action>::empty()
                } else {
                    self.controlled(after, control, now, acts)
                }
            } else if key == Key::H {
                self.kept(after) && acts == seq![Action::Home]
            } else if repeat {
                self.kept(after) && acts == Seq::<Action>::empty()
            } else {
                self.key_pressed(after, meaning(key), now, acts)
            },
            Event::KeyUp { key } => match meaning(key) {
                Some(b) => {
                    &&& after.session_of() == self.session_of()
                    &&& after.touch_of() == self.touch_of()
                    &&& after.mouse_key() == self.mouse_key()
                    &&& after.repaint_owed() == self.repaint_owed()
                    &&& after.shot_owed() == self.shot_owed()
                    &&& after.keys_held() == released(self.keys_held(), b).0
                    &&& after.translations() == self.translations()
                    &&& after.due_answers() == self.due_answers()
                    &&& after.resets() == self.resets()
                    &&& acts == delivered(released(self.keys_held(), b).1)
                },
                None => self.kept(after) && acts == Seq::<Action>::empty(),
            },
            Event::MouseDown { left, at, on_panel } => if !left {
                self.kept(after) && acts == Seq::<Action>::empty()
            } else {
                match hit_of(self.session_of().layout_of(), at, on_panel) {
                    Hit::Panel(p) => {
                        &&& after.session_of() == self.session_of()
                        &&& touch_down(self.touch_of(), after.touch_of(), p, now)
                        &&& after.keys_held() == self.keys_held()
                        &&& after.translations() == self.translations()
                        &&& after.due_answers() == self.due_answers()
                        &&& after.resets() == self.resets()
                        &&& after.mouse_key() == self.mouse_key()
                        &&& after.repaint_owed() == self.repaint_owed()
                        &&& after.shot_owed() == self.shot_owed()
                        &&& acts == touched(down_touches(self.touch_of(), p))
                    },
                    Hit::Key(action) => self.key_clicked(after, action, now, acts),
                    Hit::Body => self.kept(after) && acts == Seq::<Action>::empty(),
                }
            },
            Event::MouseMove { at, on_panel } => match (
                self.touch_of().contact(),
                on_panel_at(self.session_of(), at, on_panel),
            ) {
                (Some(_), Some(p)) => {
                    &&& after.session_of() == self.session_of()
                    &&& touch_moved(self.touch_of(), after.touch_of(), p)
                    &&& after.keys_held() == self.keys_held()
                    &&& after.translations() == self.translations()
                    &&& after.due_answers() == self.due_answers()
                    &&& after.resets() == self.resets()
                    &&& after.mouse_key() == self.mouse_key()
                    &&& after.repaint_owed() == self.repaint_owed()
                    &&& after.shot_owed() == self.shot_owed()
                    &&& acts == touched(moved_touches(self.touch_of(), p))
                },
                _ => self.kept(after) && acts == Seq::<Action>::empty(),
            },
            Event::MouseUp { left, at, on_panel } => if !left {
                self.kept(after) && acts == Seq::<Action>::empty()
            } else {
                let lifted_at = on_panel_at(self.session_of(), at, on_panel);
                let finger = touched(up_touches(self.touch_of(), lifted_at, now));
                &&& after.session_of() == self.session_of()
                &&& touch_up(self.touch_of(), after.touch_of())
                &&& after.mouse_key() is None
                &&& after.translations() == self.translations()
                &&& after.due_answers() == self.due_answers()
                &&& after.resets() == self.resets()
                &&& after.shot_owed() == self.shot_owed()
                &&& match self.mouse_key() {
                    Some(KeyAction::Press(b)) => {
                        &&& after.keys_held() == released(self.keys_held(), b).0
                        &&& after.repaint_owed()
                        &&& acts == delivered(released(self.keys_held(), b).1) + finger
                    },
                    Some(_) => {
                        &&& after.keys_held() == self.keys_held()
                        &&& after.repaint_owed()
                        &&& acts == finger
                    },
                    None => {
                        &&& after.keys_held() == self.keys_held()
                        &&& after.repaint_owed() == self.repaint_owed()
                        &&& acts == finger
                    },
                }
            },
            Event::Wheel { dy } => self.kept(after) && match wheel_direction(dy) {
                Some(d) => acts == seq![Action::Swipe(d)],
                None => acts == Seq::<Action>::empty(),
            },
        }
    }

    /// A press held back on the board left cannot land on the next: a
    /// control that changes the board lets go of everything held and tells
    /// the keys, once, to forget anything pending.
    pub proof fn a_board_switch_resets_the_keys(self, after: Self, control: Control, now: u32, acts: Seq<Action>)
        requires
            self.controlled(after, control, now, acts),
            !same_board(after.session_of().on_screen(), self.session_of().on_screen()),
        ensures
            after.resets() == self.resets() + 1,
            after.keys_held() == Seq::<(Button, Button)>::empty(),
            acts.take(self.keys_held().len() as int) == left(all_released(self.keys_held())),
    {
        let s0 = self.session_of();
        let s1 = after.session_of();
        assert(s1.at() != s0.at() || s1.zoom() != s0.zoom() || s1.with_body() != s0.with_body()) by {
            if s1.at() == s0.at() {
                assert(s1.cycle() == s0.cycle());
            }
        }
        let l = left(all_released(self.keys_held()));
        assert(l.len() == self.keys_held().len());
        assert(acts.take(self.keys_held().len() as int) =~= l);
    }

    /// A drag moves the finger: while a finger is down, a mouse move that
    /// lands on the panel at `p` moves the contact's latest sample to `p`,
    /// keeps where it landed, and hands the backend the finger held at `p`.
    pub proof fn a_drag_moves_the_finger(
        self,
        after: Self,
        at: Point,
        on_panel: Option<Point>,
        now: u32,
        acts: Seq<Action>,
        p: Point,
    )
        requires
            self.handled(after, Event::MouseMove { at, on_panel }, now, acts),
            self.touch_of().contact() is Some,
            on_panel_at(self.session_of(), at, on_panel) == Some(p),
        ensures
            after.touch_of().contact() is Some,
            after.touch_of().contact().unwrap().latest == p,
            after.touch_of().contact().unwrap().down == self.touch_of().contact().unwrap().down,
            acts == seq![Action::Touch(Feed::TouchDown(p))],
    {
        let ts = seq![Touch::Held(p)];
        assert(!has_edge(ts));
        assert(ts.drop_last() =~= Seq::<Touch>::empty());
        assert(fed_all(Seq::<Touch>::empty(), false) =~= Seq::<Feed>::empty());
        assert(fed_all(ts, false) =~= seq![Feed::TouchDown(p)]);
        assert(touched(ts) =~= seq![Action::Touch(Feed::TouchDown(p))]);
    }

    /// Holding a key sends one press: a repeated key-down asks the keys
    /// nothing, presses and releases nothing, and leaves the state as it
    /// was; only `Q` still quits and `H` still goes home.
    pub proof fn a_held_key_sends_one_press(self, after: Self, key: Key, shifted: bool, now: u32, acts: Seq<Action>)
        requires
            self.handled(after, Event::KeyDown { key, shifted, repeat: true }, now, acts),
        ensures
            self.kept(after),
            after.translations() == self.translations(),
            acts == if key == Key::Q {
                seq![Action::Stop]
            } else if key == Key::H {
                seq![Action::Home]
            } else {
                Seq::<Action>::empty()
            },
    {
    }

    /// Handles one event the window reported, at `now`: what it changes, and
    /// what the loop has to do about it, in order.
    pub fn handle(&mut self, event: Event, now: u32) -> (acts: Vec<Action>)
        requires
            old(self).wf(),
            old(self).accepts(event),
        ensures
            final(self).wf(),
            old(self).handled(*final(self), event, now, acts@),
            final(self).frames() == old(self).frames(),
    {
        match event {
            Event::Quit => one(Action::Stop),
            Event::KeyDown { key, shifted, repeat } => self.key_down(key, shifted, repeat, now),
            Event::KeyUp { key } => match button_for(key) {
                Some(b) => {
                    let d = self.keypad.up(b);
                    to_backend(&d)
                },
                None => Vec::new(),
            },
            Event::MouseDown { left, at, on_panel } => {
                if !left {
                    return Vec::new();
                }
                self.mouse_down(at, on_panel, now)
            },
            Event::MouseMove { at, on_panel } => {
                if !self.touch.is_down() {
                    return Vec::new();
                }
                let layout = self.session.layout();
                match panel_point(layout.as_ref(), at, on_panel) {
                    Some(p) => {
                        let t = self.touch.moved(p);
                        feed_of(&t)
                    },
                    None => Vec::new(),
                }
            },
            Event::MouseUp { left, at, on_panel } => {
                if !left {
                    return Vec::new();
                }
                let mut first: Vec<Action> = Vec::new();
                match self.held {
                    Some(action) => {
                        self.held = None;
                        match action {
                            KeyAction::Press(b) => {
                                let d = self.keypad.up(b);
                                first = to_backend(&d);
                            },
                            _ => {},
                        }
                        self.body_dirty = true;
                    },
                    None => {},
                }
                let layout = self.session.layout();
                let p = panel_point(layout.as_ref(), at, on_panel);
                let t = self.touch.up(p, now);
                let finger = feed_of(&t);
                then(first, finger)
            },
            Event::Wheel { dy } => {
                if dy > 0 {
                    one(Action::Swipe(SwipeDir::Down))
                } else if dy < 0 {
                    one(Action::Swipe(SwipeDir::Up))
                } else {
                    Vec::new()
                }
            },
        }
    }

    /// A mouse button went down on the window.
    fn mouse_down(&mut self, at: Point, on_panel: Option<Point>, now: u32) -> (acts: Vec<Action>)
        requires
            old(self).wf(),
            answers(old(self).session_of().layout_of(), at),
        ensures
            final(self).wf(),
            old(self).handled(
                *final(self),
                Event::MouseDown { left: true, at, on_panel },
                now,
                acts@,
            ),
            final(self).frames() == old(self).frames(),
    {
        let layout = self.session.layout();
        match route(layout.as_ref(), at, on_panel) {
            Hit::Panel(p) => {
                let t = self.touch.down(p, now);
                feed_of(&t)
            },
            Hit::Key(action) => {
                let acts = match action {
                    KeyAction::Press(b) => {
                        let board = self.session.board();
                        let d = self.keypad.down(b, now, board);
                        to_backend(&d)
                    },
                    KeyAction::Home => one(Action::Home),
                    KeyAction::Unassigned => Vec::new(),
                };
                self.held = Some(action);
                self.body_dirty = true;
                acts
            },
            Hit::Body => Vec::new(),
        }
    }

    /// A key went down on the keyboard.
    fn key_down(&mut self, key: Key, shifted: bool, repeat: bool, now: u32) -> (acts: Vec<Action>)
        requires
            old(self).wf(),
            old(self).accepts(Event::KeyDown { key, shifted, repeat }),
        ensures
            final(self).wf(),
            old(self).handled(*final(self), Event::KeyDown { key, shifted, repeat }, now, acts@),
            final(self).frames() == old(self).frames(),
    {
        if key == Key::Q {
            return one(Action::Stop);
        }
        if !repeat {
            match control_for(key, shifted) {
                Some(control) => {
                    if control == Control::Screenshot {
                        self.shot = true;
                        return Vec::new();
                    }
                    return self.control(control, now);
                },
                None => {},
            }
        }
        if key == Key::H {
            return one(Action::Home);
        }
        if repeat {
            return Vec::new();
        }
        match button_for(key) {
            Some(b) => {
                let board = self.session.board();
                let d = self.keypad.down(b, now, board);
                to_backend(&d)
            },
            None => Vec::new(),
        }
    }

    /// A board, zoom or body control.
    fn control(&mut self, control: Control, now: u32) -> (acts: Vec<Action>)
        requires
            old(self).wf(),
            control != Control::Screenshot,
        ensures
            final(self).wf(),
            old(self).controlled(*final(self), control, now, acts@),
            final(self).frames() == old(self).frames(),
    {
        let leaving = self.session.board();
        let changed = self.session.apply(control);
        if !changed {
            return Vec::new();
        }
        let here = self.session.board();
        if here.same(&leaving) {
            self.body_dirty = true;
            return one(Action::Rebind);
        }
        self.held = None;
        let released = self.keypad.release_all();
        self.touch = Touchscreen::for_board(here);
        let mut acts = to_previous(&released);
        acts.push(Action::Begin);
        let due = self.keypad.due(now);
        let owed = to_backend(&due);
        let mut acts = then(acts, owed);
        acts.push(Action::Rebind);
        self.body_dirty = true;
        proof {
            assert(acts@ =~= left(all_released(old(self).keys_held())) + seq![Action::Begin] + delivered(
                came_due(self.due_answers().last().1),
            ) + seq![Action::Rebind]);
        }
        acts
    }
}

} // verus!
