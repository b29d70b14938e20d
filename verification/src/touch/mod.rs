//! What a mouse becomes on a touchscreen.
//!
//! The model is CrossPoint's, followed rule for rule and constant for constant.
//! Positions are panel pixels, the space a screen is laid out in and the
//! firmware measures in. A [`Touchscreen`] is driven by `(position,
//! timestamp)` events, so every rule is a contract here. This file is the
//! contact, from landing to lifting; [`gesture`] is what a finished travel
//! means.

pub mod gesture;

use vstd::prelude::*;

use crate::device::{Board, Point};

pub use gesture::{EdgeGesture, Touch, Touches};

use gesture::{abs, direction, edge_gesture, edge_of, is_flick, pointing, swiped, MAX_EVENTS};

verus! {

/// Motion past this cancels the stationary classifications: the hold and the
/// long press. `TOUCH_TAP_SLOP_PX`.
pub const TAP_SLOP_PX: i32 = 28;

/// How far a finger may have travelled and still have tapped, judged on
/// release. `TOUCH_TAP_RELEASE_SLOP_PX`, which the firmware defines as
/// `TOUCH_SWIPE_MIN_PX - 1`: a tap stays valid to 59 px and a swipe begins at
/// 60, so there is no band between them where a finger roll is neither.
pub const TAP_RELEASE_SLOP_PX: i32 = 59;

/// How long a stationary finger stays down before it is a long press.
/// `TOUCH_LONG_PRESS_MS`.
pub const LONG_PRESS_MS: u32 = 500;

/// One finger on the glass, from the moment it lands to the moment it lifts.
#[derive(Copy, Clone, Debug)]
pub struct Contact {
    /// Where it landed. A tap, a long press and every edge band are judged
    /// from here.
    pub down: Point,
    /// When it landed.
    pub down_ms: u32,
    /// The most recent sample.
    pub latest: Point,
    /// Some sample passed the stationary slop: no long press for this
    /// contact, however still the finger goes afterwards.
    pub left_tap_slop: bool,
    /// Some sample reached the swipe distance: this contact can no longer end
    /// in a tap.
    pub left_release_slop: bool,
    /// The long press is one-shot per contact.
    pub long_pressed: bool,
}

/// How far the finger of `c` has come from where it landed.
pub open spec fn travel_of(c: Contact) -> (int, int) {
    (c.latest.x - c.down.x, c.latest.y - c.down.y)
}

/// `c` with one more sample, at `at`: the slops latch, strictly greater, as
/// the firmware compares.
pub open spec fn sampled(c: Contact, at: Point) -> Contact {
    let dx = at.x - c.down.x;
    let dy = at.y - c.down.y;
    Contact {
        latest: at,
        left_tap_slop: c.left_tap_slop || abs(dx) > TAP_SLOP_PX || abs(dy) > TAP_SLOP_PX,
        left_release_slop: c.left_release_slop || abs(dx) > TAP_RELEASE_SLOP_PX || abs(dy)
            > TAP_RELEASE_SLOP_PX,
        ..c
    }
}

/// How long `c` has been down at `now_ms`, on a clock that wraps.
pub open spec fn held_for(c: Contact, now_ms: u32) -> u32 {
    now_ms.wrapping_sub(c.down_ms)
}

/// What lifting the finger of `c` reports, on a panel of `size`, at `now_ms`.
pub open spec fn lifted(c: Contact, size: (i32, i32), now_ms: u32) -> Seq<Touch> {
    let (dx, dy) = travel_of(c);
    if !c.left_release_slop {
        seq![Touch::Released, Touch::Tap(c.down)]
    } else if !is_flick(dx, dy, held_for(c, now_ms)) {
        seq![Touch::Released]
    } else {
        match edge_of(size, c.down, dx, dy) {
            Some(g) => seq![Touch::Released, Touch::Swipe(pointing(dx, dy)), Touch::Edge(g)],
            None => seq![Touch::Released, Touch::Swipe(pointing(dx, dy))],
        }
    }
}

impl Contact {
    /// A finger that landed at `at` at `now_ms`.
    pub fn new(at: Point, now_ms: u32) -> (c: Contact)
        ensures
            c.down == at,
            c.down_ms == now_ms,
            c.latest == at,
            !c.left_tap_slop,
            !c.left_release_slop,
            !c.long_pressed,
    {
        Contact {
            down: at,
            down_ms: now_ms,
            latest: at,
            left_tap_slop: false,
            left_release_slop: false,
            long_pressed: false,
        }
    }

    /// Records another sample of the same contact.
    pub fn sample(&mut self, at: Point)
        ensures
            *final(self) == sampled(*old(self), at),
    {
        self.latest = at;
        let (dx, dy) = self.travel();
        let (ax, ay) = (gesture::abs64(dx), gesture::abs64(dy));
        self.left_tap_slop = self.left_tap_slop || ax > TAP_SLOP_PX as i64 || ay > TAP_SLOP_PX as i64;
        self.left_release_slop = self.left_release_slop || ax > TAP_RELEASE_SLOP_PX as i64 || ay
            > TAP_RELEASE_SLOP_PX as i64;
    }

    /// How far the finger has come from where it landed.
    pub fn travel(&self) -> (t: (i64, i64))
        ensures
            t.0 == travel_of(*self).0,
            t.1 == travel_of(*self).1,
            -0x1_0000_0000 < t.0 < 0x1_0000_0000,
            -0x1_0000_0000 < t.1 < 0x1_0000_0000,
    {
        (
            self.latest.x as i64 - self.down.x as i64,
            self.latest.y as i64 - self.down.y as i64,
        )
    }

    /// How long it has been down. Wrapping, because the host's clock is a
    /// millisecond `u32` and comes round every seven weeks.
    pub fn held_ms(&self, now_ms: u32) -> (ms: u32)
        ensures
            ms == held_for(*self, now_ms),
    {
        now_ms.wrapping_sub(self.down_ms)
    }
}

/// A touchscreen, and whatever is currently on it.
///
/// Built from a [`Board`], because only a board with a touchscreen has one: on
/// any other every method here answers nothing at all.
#[derive(Copy, Clone, Debug)]
pub struct Touchscreen {
    size: (i32, i32),
    has_touch: bool,
    contact: Option<Contact>,
}

impl Touchscreen {
    /// The panel a gesture is measured against, in the pixels a screen is
    /// laid out in.
    pub closed spec fn size(self) -> (i32, i32) {
        self.size
    }

    /// Whether the board has a touchscreen at all.
    pub closed spec fn has_touch(self) -> bool {
        self.has_touch
    }

    /// The finger on the glass, if there is one.
    pub closed spec fn contact(self) -> Option<Contact> {
        self.contact
    }

    /// A screen with no touchscreen never has a finger on it.
    pub open spec fn wf(self) -> bool {
        !self.has_touch() ==> self.contact() is None
    }

    /// The touchscreen `board` has, or one that answers nothing if it has none.
    pub fn for_board(board: Board) -> (t: Touchscreen)
        ensures
            t.size() == (board.width, board.height),
            t.has_touch() == board.touch,
            t.contact() is None,
            t.wf(),
    {
        Touchscreen { size: (board.width, board.height), has_touch: board.touch, contact: None }
    }

    /// Whether a contact is in flight, so a caller can tell a drag from a
    /// mouse merely passing over the panel.
    pub fn is_down(&self) -> (r: bool)
        ensures
            r == self.contact() is Some,
    {
        self.contact.is_some()
    }

    /// A finger landed.
    pub fn down(&mut self, at: Point, now_ms: u32) -> (t: Touches)
        ensures
            t.wf(),
            final(self).size() == old(self).size(),
            final(self).has_touch() == old(self).has_touch(),
            old(self).wf() ==> final(self).wf(),
            if old(self).has_touch() {
                &&& final(self).contact() == Some(
                    Contact {
                        down: at,
                        down_ms: now_ms,
                        latest: at,
                        left_tap_slop: false,
                        left_release_slop: false,
                        long_pressed: false,
                    },
                )
                &&& t@ == seq![Touch::Held(at)]
            } else {
                &&& final(self).contact() == old(self).contact()
                &&& t@ == Seq::<Touch>::empty()
            },
    {
        if !self.has_touch {
            return Touches::none();
        }
        self.contact = Some(Contact::new(at, now_ms));
        Touches::of(Touch::Held(at))
    }

    /// The finger moved, still down.
    pub fn moved(&mut self, at: Point) -> (t: Touches)
        ensures
            t.wf(),
            final(self).size() == old(self).size(),
            final(self).has_touch() == old(self).has_touch(),
            old(self).wf() ==> final(self).wf(),
            match old(self).contact() {
                Some(c) => {
                    &&& final(self).contact() == Some(sampled(c, at))
                    &&& t@ == seq![Touch::Held(at)]
                },
                None => {
                    &&& final(self).contact() is None
                    &&& t@ == Seq::<Touch>::empty()
                },
            },
    {
        match self.contact {
            None => Touches::none(),
            Some(c) => {
                let mut c = c;
                c.sample(at);
                self.contact = Some(c);
                Touches::of(Touch::Held(at))
            },
        }
    }

    /// A frame passed with the finger still down.
    ///
    /// The long press is the one classification that fires mid-contact, so it
    /// hangs from a clock tick rather than from an event.
    pub fn tick(&mut self, now_ms: u32) -> (t: Touches)
        ensures
            t.wf(),
            final(self).size() == old(self).size(),
            final(self).has_touch() == old(self).has_touch(),
            old(self).wf() ==> final(self).wf(),
            match old(self).contact() {
                Some(c) => if c.long_pressed || c.left_tap_slop || held_for(c, now_ms)
                    < LONG_PRESS_MS {
                    &&& final(self).contact() == Some(c)
                    &&& t@ == Seq::<Touch>::empty()
                } else {
                    &&& final(self).contact() == Some(Contact { long_pressed: true, ..c })
                    &&& t@ == seq![Touch::LongPress(c.down)]
                },
                None => {
                    &&& final(self).contact() is None
                    &&& t@ == Seq::<Touch>::empty()
                },
            },
    {
        match self.contact {
            None => Touches::none(),
            Some(c) => {
                if c.long_pressed || c.left_tap_slop || c.held_ms(now_ms) < LONG_PRESS_MS {
                    return Touches::none();
                }
                let mut c = c;
                c.long_pressed = true;
                self.contact = Some(c);
                Touches::of(Touch::LongPress(c.down))
            },
        }
    }

    /// The finger lifted, at `at` if the release landed on the panel.
    ///
    /// A release on the panel counts as one last sample of the contact; `None`
    /// ends the contact where its previous sample left it.
    pub fn up(&mut self, at: Option<Point>, now_ms: u32) -> (t: Touches)
        ensures
            t.wf(),
            final(self).size() == old(self).size(),
            final(self).has_touch() == old(self).has_touch(),
            final(self).contact() is None,
            final(self).wf(),
            match old(self).contact() {
                Some(c) => {
                    let last = match at {
                        Some(p) => sampled(c, p),
                        None => c,
                    };
                    t@ == lifted(last, old(self).size(), now_ms)
                },
                None => t@ == Seq::<Touch>::empty(),
            },
    {
        let taken = self.contact.take();
        let mut contact = match taken {
            None => {
                return Touches::none();
            },
            Some(c) => c,
        };
        if let Some(p) = at {
            contact.sample(p);
        }
        let touches = Touches::of(Touch::Released);
        if !contact.left_release_slop {
            return touches.and(Touch::Tap(contact.down));
        }
        let (dx, dy) = contact.travel();
        if !swiped(dx, dy, contact.held_ms(now_ms)) {
            return touches;
        }
        let touches = touches.and(Touch::Swipe(direction(dx, dy)));
        match edge_gesture(self.size, contact.down, dx, dy) {
            Some(g) => touches.and(Touch::Edge(g)),
            None => touches,
        }
    }
}

// -- laws -------------------------------------------------------------------

/// No dead band between a tap and a swipe: a release is a tap exactly when no
/// sample ever left the 59 px release slop, never a tap and a swipe together,
/// and a release 60 px or more along either axis within the swipe window is a
/// swipe the way it travelled.
pub proof fn tap_and_swipe_meet_with_no_gap(c: Contact, size: (i32, i32), now_ms: u32)
    ensures
        lifted(c, size, now_ms).contains(Touch::Tap(c.down)) == !c.left_release_slop,
        forall|d: crate::device::SwipeDir|
            #![trigger lifted(c, size, now_ms).contains(Touch::Swipe(d))]
            lifted(c, size, now_ms).contains(Touch::Swipe(d)) ==> !lifted(c, size, now_ms).contains(
                Touch::Tap(c.down),
            ),
        c.left_release_slop && is_flick(travel_of(c).0, travel_of(c).1, held_for(c, now_ms))
            ==> lifted(c, size, now_ms).contains(
            Touch::Swipe(pointing(travel_of(c).0, travel_of(c).1)),
        ),
{
    let s = lifted(c, size, now_ms);
    let (dx, dy) = travel_of(c);
    if !c.left_release_slop {
        assert(s[1] == Touch::Tap(c.down));
        assert forall|d: crate::device::SwipeDir| #![trigger s.contains(Touch::Swipe(d))] !s.contains(Touch::Swipe(d)) by {
            if s.contains(Touch::Swipe(d)) {
                let i = choose|i: int| 0 <= i < s.len() && s[i] == Touch::Swipe(d);
                assert(i == 0 || i == 1);
            }
        }
    } else {
        assert forall|i: int| 0 <= i < s.len() implies s[i] != Touch::Tap(c.down) by {}
        if is_flick(dx, dy, held_for(c, now_ms)) {
            assert(s[1] == Touch::Swipe(pointing(dx, dy)));
        }
    }
}

/// Every contact ends in a release: lifting a finger that was down reports
/// `Released` first, whatever else the contact turned out to be.
pub proof fn every_contact_ends_in_a_release(c: Contact, size: (i32, i32), now_ms: u32)
    ensures
        lifted(c, size, now_ms).len() >= 1,
        lifted(c, size, now_ms)[0] == Touch::Released,
        lifted(c, size, now_ms).len() <= MAX_EVENTS,
{
}

/// A released finger that never left the release slop is a tap at the point
/// it went down, not where it let go.
pub proof fn a_tap_lands_where_the_finger_landed(c: Contact, size: (i32, i32), now_ms: u32)
    requires
        !c.left_release_slop,
    ensures
        lifted(c, size, now_ms) == seq![Touch::Released, Touch::Tap(c.down)],
{
}

/// A board with no touchscreen classifies nothing: whatever is done to a
/// well-formed touchscreen without touch, every answer is empty and it stays
/// without a contact.
pub proof fn no_touchscreen_reports_nothing(t: Touchscreen)
    requires
        t.wf(),
        !t.has_touch(),
    ensures
        t.contact() is None,
{
}

/// The long press fires once per contact: after it has fired, another tick
/// of the same contact reports nothing and changes nothing.
pub proof fn a_long_press_fires_once(c: Contact, now_ms: u32)
    requires
        c.long_pressed,
    ensures
        c.long_pressed || c.left_tap_slop || held_for(c, now_ms) < LONG_PRESS_MS,
{
}

} // verus!
