//! What a finished travel means.
//!
//! The vocabulary a [`Touchscreen`](super::Touchscreen) reports in, and the
//! geometry that names one gesture rather than another: which way a flick
//! points, whether it was a flick at all, and what it means to have started at
//! an edge. Pure arithmetic over two points and a duration.

use vstd::prelude::*;

use crate::device::{trunc_div, Point, SwipeDir};

verus! {

/// The shortest travel that can be a swipe. `TOUCH_SWIPE_MIN_PX`.
pub const SWIPE_MIN_PX: i32 = 60;

/// A swipe is a flick: it must cover the distance within this.
/// `TOUCH_SWIPE_MAX_MS`.
pub const SWIPE_MAX_MS: u32 = 700;

/// How close to a side edge a swipe must start to mean more than its
/// direction, as a percentage of the panel. `EDGE_SWIPE_SIDE_FRAC`.
pub const SIDE_BAND_PERCENT: i32 = 25;

/// The same, for the top and bottom edges. `EDGE_SWIPE_TOP_BOTTOM_FRAC`.
pub const TOP_BOTTOM_BAND_PERCENT: i32 = 14;

/// A swipe that means more than its direction, because of where it began.
#[derive(Copy, Clone, Debug, PartialEq, Eq, Structural)]
pub enum EdgeGesture {
    /// A left-to-right swipe that began in the left band.
    Back,
    /// An upward swipe that began in the bottom band.
    Home,
    /// A downward swipe that began in the top band.
    Menu,
}

/// What one raw event turned into.
#[derive(Copy, Clone, Debug, PartialEq, Eq, Structural)]
pub enum Touch {
    /// A finger is down, at this pixel.
    Held(Point),
    /// Still down, still stationary, and now past the long-press interval, at
    /// the position it went down.
    LongPress(Point),
    /// The finger came up.
    Released,
    /// A completed tap, at the position the finger went down.
    Tap(Point),
    /// A flick: far enough, fast enough.
    Swipe(SwipeDir),
    /// What that flick means, having started at an edge. Reported alongside
    /// the swipe.
    Edge(EdgeGesture),
}

/// The distance of `v` from zero.
pub open spec fn abs(v: int) -> int {
    if v < 0 {
        -v
    } else {
        v
    }
}

/// Whether a travel of `(dx, dy)` over `held_ms` was a flick: quick enough,
/// and far enough along either axis.
pub open spec fn is_flick(dx: int, dy: int, held_ms: u32) -> bool {
    held_ms <= SWIPE_MAX_MS && (abs(dx) >= SWIPE_MIN_PX || abs(dy) >= SWIPE_MIN_PX)
}

/// Which way a travel points: the dominant axis, ties going horizontal.
pub open spec fn pointing(dx: int, dy: int) -> SwipeDir {
    if abs(dx) >= abs(dy) {
        if dx < 0 {
            SwipeDir::Left
        } else {
            SwipeDir::Right
        }
    } else if dy < 0 {
        SwipeDir::Up
    } else {
        SwipeDir::Down
    }
}

/// How wide a band of `percent` is on a panel `of` pixels across, truncated.
pub open spec fn band_width(of: int, percent: int) -> int {
    trunc_div(of * percent, 100)
}

/// What a swipe from `from` travelling `(dx, dy)` means on a panel of `size`.
/// Each edge needs its own axis strictly dominant.
pub open spec fn edge_of(size: (i32, i32), from: Point, dx: int, dy: int) -> Option<EdgeGesture> {
    let horizontal = abs(dx) > abs(dy);
    let vertical = abs(dy) > abs(dx);
    let side = band_width(size.0 as int, SIDE_BAND_PERCENT as int);
    let ends = band_width(size.1 as int, TOP_BOTTOM_BAND_PERCENT as int);
    if horizontal && dx > 0 && from.x <= side {
        Some(EdgeGesture::Back)
    } else if vertical && dy < 0 && from.y >= size.1 - ends {
        Some(EdgeGesture::Home)
    } else if vertical && dy > 0 && from.y <= ends {
        Some(EdgeGesture::Menu)
    } else {
        None
    }
}

/// How many events one raw event can produce.
pub const MAX_EVENTS: usize = 3;

/// The events one raw event produced, in the order they happened.
///
/// A fixed array rather than a `Vec`: this runs inside the frame loop.
#[derive(Copy, Clone, Debug, PartialEq, Eq)]
pub struct Touches {
    events: [Option<Touch>; 3],
}

/// The events held in `slots`, in order, skipping empty slots.
pub open spec fn present(slots: Seq<Option<Touch>>) -> Seq<Touch>
    decreases slots.len(),
{
    if slots.len() == 0 {
        Seq::empty()
    } else {
        let rest = present(slots.drop_last());
        match slots.last() {
            Some(t) => rest.push(t),
            None => rest,
        }
    }
}

impl View for Touches {
    type V = Seq<Touch>;

    /// The events, in order.
    closed spec fn view(&self) -> Seq<Touch> {
        present(self.events@)
    }
}

impl Touches {
    /// Whether the filled slots come first, which every value built here keeps.
    pub closed spec fn wf(self) -> bool {
        forall|i: int, j: int|
            0 <= i < j < 3 && (#[trigger] self.events@[i]) is None ==> (#[trigger] self.events@[j]) is None
    }

    /// Nothing happened: an event on a board with no touchscreen, or one with
    /// no contact in flight.
    pub fn none() -> (t: Touches)
        ensures
            t@ == Seq::<Touch>::empty(),
            t.wf(),
    {
        let t = Touches { events: [None, None, None] };
        proof {
            reveal_with_fuel(present, 4);
        }
        t
    }

    /// Just `touch`.
    pub fn of(touch: Touch) -> (t: Touches)
        ensures
            t@ == seq![touch],
            t.wf(),
    {
        Touches::none().and(touch)
    }

    /// These events, then `touch`.
    pub fn and(self, touch: Touch) -> (t: Touches)
        requires
            self.wf(),
            self@.len() < MAX_EVENTS,
        ensures
            t@ == self@.push(touch),
            t.wf(),
    {
        let mut t = self;
        proof {
            reveal_with_fuel(present, 4);
        }
        if t.events[0].is_none() {
            assert(self.events@[1] is None && self.events@[2] is None);
            t.events[0] = Some(touch);
        } else if t.events[1].is_none() {
            assert(self.events@[2] is None);
            t.events[1] = Some(touch);
        } else {
            t.events[2] = Some(touch);
        }
        assert(t.events@.drop_last().drop_last().drop_last() =~= Seq::<Option<Touch>>::empty());
        assert(self.events@.drop_last().drop_last().drop_last() =~= Seq::<Option<Touch>>::empty());
        t
    }

    /// The events, in order.
    pub fn iter(&self) -> (v: Vec<Touch>)
        ensures
            v@ == self@,
    {
        let mut v: Vec<Touch> = Vec::new();
        let mut i: usize = 0;
        while i < 3
            invariant
                i <= 3,
                self.events@.len() == 3,
                v@ == present(self.events@.subrange(0, i as int)),
            decreases 3 - i,
        {
            proof {
                let next = self.events@.subrange(0, i + 1);
                assert(next.drop_last() =~= self.events@.subrange(0, i as int));
            }
            match self.events[i] {
                Some(t) => v.push(t),
                None => {},
            }
            i = i + 1;
        }
        assert(self.events@.subrange(0, 3) =~= self.events@);
        v
    }

    /// Whether `touch` is among the events.
    pub fn contains(&self, touch: Touch) -> (r: bool)
        ensures
            r == self@.contains(touch),
    {
        let all = self.iter();
        let mut i: usize = 0;
        while i < all.len()
            invariant
                all@ == self@,
                i <= all@.len(),
                forall|j: int| 0 <= j < i ==> all@[j] != touch,
            decreases all@.len() - i,
        {
            if all[i] == touch {
                return true;
            }
            i = i + 1;
        }
        false
    }

    /// Whether nothing happened.
    pub fn is_empty(&self) -> (r: bool)
        requires
            self.wf(),
        ensures
            r == (self@.len() == 0),
    {
        proof {
            reveal_with_fuel(present, 4);
            lemma_present_len(self.events@);
        }
        self.events[0].is_none()
    }
}

/// The number of events is the number of filled slots, and a filled first
/// slot means there is at least one.
proof fn lemma_present_len(slots: Seq<Option<Touch>>)
    requires
        slots.len() == 3,
        forall|i: int, j: int| 0 <= i < j < 3 && (#[trigger] slots[i]) is None ==> (#[trigger] slots[j]) is None,
    ensures
        (present(slots).len() == 0) == (slots[0] is None),
{
    reveal_with_fuel(present, 4);
    assert(slots.drop_last().drop_last().drop_last() =~= Seq::<Option<Touch>>::empty());
}

/// Whether a travel of `(dx, dy)` over `held_ms` was a flick.
///
/// The distance is an or, not an and: 60 px along either axis qualifies.
pub fn swiped(dx: i64, dy: i64, held_ms: u32) -> (r: bool)
    requires
        -0x1_0000_0000 < dx < 0x1_0000_0000,
        -0x1_0000_0000 < dy < 0x1_0000_0000,
    ensures
        r == is_flick(dx as int, dy as int, held_ms),
{
    held_ms <= SWIPE_MAX_MS && (abs64(dx) >= SWIPE_MIN_PX as i64 || abs64(dy) >= SWIPE_MIN_PX as i64)
}

/// The distance of `v` from zero.
pub fn abs64(v: i64) -> (r: i64)
    requires
        v > i64::MIN,
    ensures
        r == abs(v as int),
{
    if v < 0 {
        -v
    } else {
        v
    }
}

/// Which way a travel of `(dx, dy)` points: the dominant axis, ties going
/// horizontal.
pub fn direction(dx: i64, dy: i64) -> (d: SwipeDir)
    requires
        -0x1_0000_0000 < dx < 0x1_0000_0000,
        -0x1_0000_0000 < dy < 0x1_0000_0000,
    ensures
        d == pointing(dx as int, dy as int),
{
    if abs64(dx) >= abs64(dy) {
        if dx < 0 {
            SwipeDir::Left
        } else {
            SwipeDir::Right
        }
    } else if dy < 0 {
        SwipeDir::Up
    } else {
        SwipeDir::Down
    }
}

/// What a swipe from `from` travelling `(dx, dy)` means on a panel of `size`,
/// if it started near enough to an edge to mean anything.
pub fn edge_gesture(size: (i32, i32), from: Point, dx: i64, dy: i64) -> (g: Option<EdgeGesture>)
    requires
        -0x1_0000_0000 < dx < 0x1_0000_0000,
        -0x1_0000_0000 < dy < 0x1_0000_0000,
    ensures
        g == edge_of(size, from, dx as int, dy as int),
{
    let (width, height) = size;
    let horizontal = abs64(dx) > abs64(dy);
    let vertical = abs64(dy) > abs64(dx);

    let side = band(width, SIDE_BAND_PERCENT);
    let ends = band(height, TOP_BOTTOM_BAND_PERCENT);

    if horizontal && dx > 0 && from.x as i64 <= side {
        return Some(EdgeGesture::Back);
    }
    if vertical && dy < 0 && from.y as i64 >= height as i64 - ends {
        return Some(EdgeGesture::Home);
    }
    if vertical && dy > 0 && from.y as i64 <= ends {
        return Some(EdgeGesture::Menu);
    }
    None
}

/// How wide a band of `percent` is, on a panel `of` pixels across.
///
/// Truncating, as the firmware's cast is, and the comparisons against it are
/// inclusive for the same reason.
pub fn band(of: i32, percent: i32) -> (w: i64)
    requires
        0 <= percent <= 100,
    ensures
        w == band_width(of as int, percent as int),
{
    assert(-0x8000_0000 * 100 <= of * percent <= 0x8000_0000 * 100) by (nonlinear_arith)
        requires
            -0x8000_0000 <= of < 0x8000_0000,
            0 <= percent <= 100,
    ;
    let scaled: i64 = of as i64 * percent as i64;
    if scaled >= 0 {
        scaled / 100
    } else {
        -((-scaled) / 100)
    }
}

} // verus!
