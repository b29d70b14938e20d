//! The plain values the simulator reasons about: points, buttons, boards.

use vstd::prelude::*;

verus! {

/// A pixel position, in whichever space the caller says.
#[derive(Copy, Clone, Debug, PartialEq, Eq, Structural)]
pub struct Point {
    pub x: i32,
    pub y: i32,
}

impl Point {
    /// The top-left corner.
    pub fn origin() -> (p: Point)
        ensures
            p.x == 0,
            p.y == 0,
    {
        Point { x: 0, y: 0 }
    }

    /// The point at `(x, y)`, in specifications.
    pub open spec fn new_spec(x: i32, y: i32) -> Point {
        Point { x, y }
    }

    /// A point at `(x, y)`.
    pub fn new(x: i32, y: i32) -> (p: Point)
        ensures
            p.x == x,
            p.y == y,
    {
        Point { x, y }
    }
}

/// Which way a swipe went.
#[derive(Copy, Clone, Debug, PartialEq, Eq, Structural)]
pub enum SwipeDir {
    Up,
    Down,
    Left,
    Right,
    /// No direction at all: a wheel that did not turn.
    Still,
}


/// A logical button: what a key means, never where it is.
#[derive(Copy, Clone, Debug, PartialEq, Eq, Structural)]
pub enum Button {
    Up,
    Down,
    Left,
    Right,
    Confirm,
    Back,
    PageBack,
    PageForward,
}

/// What pressing a physical key on a device does.
#[derive(Copy, Clone, Debug, PartialEq, Eq, Structural)]
pub enum KeyAction {
    /// It presses a button.
    Press(Button),
    /// It is the home gesture, which the device reports from its touch controller.
    Home,
    /// The key exists on the device and means nothing yet.
    Unassigned,
}

/// One key on a device's body, in tenths of a millimetre.
#[derive(Copy, Clone, Debug)]
pub struct PhysicalButton {
    /// The middle of the key's face.
    pub centre: (i32, i32),
    /// The face's width and height.
    pub size: (i32, i32),
    /// What is printed on it.
    pub label: &'static str,
    /// What pressing it does.
    pub action: KeyAction,
}

/// A device's body, in tenths of a millimetre.
#[derive(Copy, Clone, Debug)]
pub struct Bezel {
    /// The whole body's width and height.
    pub body: (i32, i32),
    /// Where the panel's top-left corner sits on the body.
    pub panel_origin: (i32, i32),
    /// The panel's own width and height on the body.
    pub panel_size: (i32, i32),
    /// Every key the body carries.
    pub buttons: &'static [PhysicalButton],
}

/// The face of a key: its left, top, right and bottom edges, the last two
/// exclusive. Halving truncates towards zero, as the integer division does.
pub open spec fn face_holds(button: PhysicalButton, at: (i32, i32)) -> bool {
    let left = button.centre.0 - trunc_div(button.size.0 as int, 2);
    let top = button.centre.1 - trunc_div(button.size.1 as int, 2);
    &&& left <= at.0 < left + button.size.0
    &&& top <= at.1 < top + button.size.1
}

/// Integer division that truncates towards zero, as Rust's `/` does, for a
/// positive divisor.
pub open spec fn trunc_div(value: int, by: int) -> int
    recommends
        by > 0,
{
    if value >= 0 {
        value / by
    } else {
        -((-value) / by)
    }
}

/// The index of the first key in `buttons[from..]` whose face holds `at`.
pub open spec fn first_key_at(buttons: Seq<PhysicalButton>, at: (i32, i32), from: int) -> Option<int>
    decreases buttons.len() - from,
{
    if from < 0 || from >= buttons.len() {
        None
    } else if face_holds(buttons[from], at) {
        Some(from)
    } else {
        first_key_at(buttons, at, from + 1)
    }
}

impl Bezel {
    /// The key whose face holds the device point `at`, if any: the first one
    /// listed, when two faces overlap.
    pub fn button_at(&self, at: (i32, i32)) -> (found: Option<PhysicalButton>)
        ensures
            match first_key_at(self.buttons@, at, 0) {
                Some(i) => found == Some(self.buttons@[i]),
                None => found is None,
            },
    {
        let mut i: usize = 0;
        while i < self.buttons.len()
            invariant
                i <= self.buttons@.len(),
                first_key_at(self.buttons@, at, 0) == first_key_at(self.buttons@, at, i as int),
            decreases self.buttons@.len() - i,
        {
            let button = self.buttons[i];
            let left: i64 = button.centre.0 as i64 - half(button.size.0) as i64;
            let top: i64 = button.centre.1 as i64 - half(button.size.1) as i64;
            if left <= at.0 as i64 && (at.0 as i64) < left + button.size.0 as i64 && top
                <= at.1 as i64 && (at.1 as i64) < top + button.size.1 as i64 {
                return Some(button);
            }
            i = i + 1;
        }
        None
    }
}

/// Half of `value`, truncated towards zero.
pub fn half(value: i32) -> (h: i32)
    ensures
        h == trunc_div(value as int, 2),
{
    if value >= 0 {
        value / 2
    } else {
        -((-(value as i64)) / 2) as i32
    }
}

/// A device: its panel, whether a finger can drive it, and its body if it
/// has described one.
#[derive(Copy, Clone, Debug)]
pub struct Board {
    /// What a person calls it.
    pub name: &'static str,
    /// A short, file-name-safe name.
    pub slug: &'static str,
    /// The panel's width in pixels.
    pub width: i32,
    /// The panel's height in pixels.
    pub height: i32,
    /// Whether the panel has a touchscreen.
    pub touch: bool,
    /// The body around the panel, when the board has described one.
    pub bezel: Option<Bezel>,
}

/// Two keys that read the same and sit in the same place.
pub open spec fn same_key(a: PhysicalButton, b: PhysicalButton) -> bool {
    &&& a.centre == b.centre
    &&& a.size == b.size
    &&& a.label@ == b.label@
    &&& a.action == b.action
}

/// Two bodies with the same measurements and the same keys, in order.
pub open spec fn same_bezel(a: Bezel, b: Bezel) -> bool {
    &&& a.body == b.body
    &&& a.panel_origin == b.panel_origin
    &&& a.panel_size == b.panel_size
    &&& a.buttons@.len() == b.buttons@.len()
    &&& forall|i: int| 0 <= i < a.buttons@.len() ==> same_key(#[trigger] a.buttons@[i], b.buttons@[i])
}

/// Two descriptions of the same device: every field reads the same.
pub open spec fn same_board(a: Board, b: Board) -> bool {
    &&& a.name@ == b.name@
    &&& a.slug@ == b.slug@
    &&& a.width == b.width
    &&& a.height == b.height
    &&& a.touch == b.touch
    &&& match (a.bezel, b.bezel) {
        (Some(x), Some(y)) => same_bezel(x, y),
        (None, None) => true,
        _ => false,
    }
}

impl Board {
    /// A board nobody ships: a panel of `width` x `height`, with or without a
    /// touchscreen, and no body.
    pub fn custom(name: &'static str, width: i32, height: i32, touch: bool) -> (b: Board)
        ensures
            b.name == name,
            b.slug == name,
            b.width == width,
            b.height == height,
            b.touch == touch,
            b.bezel is None,
    {
        Board { name, slug: name, width, height, touch, bezel: None }
    }

    /// Whether `other` describes the same device, field for field.
    pub fn same(&self, other: &Board) -> (r: bool)
        ensures
            r == same_board(*self, *other),
    {
        if !(self.width == other.width && self.height == other.height && self.touch == other.touch) {
            return false;
        }
        if !str_eq(self.name, other.name) || !str_eq(self.slug, other.slug) {
            return false;
        }
        match (self.bezel, other.bezel) {
            (Some(x), Some(y)) => bezel_eq(&x, &y),
            (None, None) => true,
            _ => false,
        }
    }
}

fn bezel_eq(a: &Bezel, b: &Bezel) -> (r: bool)
    ensures
        r == same_bezel(*a, *b),
{
    if !(pair_eq(a.body, b.body) && pair_eq(a.panel_origin, b.panel_origin) && pair_eq(
        a.panel_size,
        b.panel_size,
    )) {
        return false;
    }
    if a.buttons.len() != b.buttons.len() {
        return false;
    }
    let mut i: usize = 0;
    while i < a.buttons.len()
        invariant
            a.buttons@.len() == b.buttons@.len(),
            i <= a.buttons@.len(),
            forall|j: int| 0 <= j < i ==> same_key(#[trigger] a.buttons@[j], b.buttons@[j]),
        decreases a.buttons@.len() - i,
    {
        let x = a.buttons[i];
        let y = b.buttons[i];
        if !(pair_eq(x.centre, y.centre) && pair_eq(x.size, y.size) && x.action == y.action && str_eq(
            x.label,
            y.label,
        )) {
            return false;
        }
        i = i + 1;
    }
    true
}

/// Whether two pairs are the same pair.
pub fn pair_eq(a: (i32, i32), b: (i32, i32)) -> (r: bool)
    ensures
        r == (a == b),
{
    a.0 == b.0 && a.1 == b.1
}

/// Whether two strings hold the same characters.
pub fn str_eq(a: &str, b: &str) -> (r: bool)
    ensures
        r == (a@ == b@),
{
    let n = a.unicode_len();
    if n != b.unicode_len() {
        return false;
    }
    let mut i: usize = 0;
    while i < n
        invariant
            n == a@.len(),
            n == b@.len(),
            i <= n,
            forall|j: int| 0 <= j < i ==> a@[j] == b@[j],
        decreases n - i,
    {
        if a.get_char(i) != b.get_char(i) {
            return false;
        }
        i = i + 1;
    }
    assert(a@ =~= b@);
    true
}

} // verus!
