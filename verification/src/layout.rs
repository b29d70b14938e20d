//! Where the device's millimetres land in the window.
//!
//! A [`Bezel`] describes the device in tenths of a millimetre. The window is in
//! pixels. Everything that converts between the two lives here, so the painter
//! and the event loop measure against one set of numbers rather than two.
//!
//! The panel is the anchor: it occupies exactly its own pixels times the scale,
//! and the body is drawn at whatever ratio that implies.

use vstd::prelude::*;

use crate::device::{trunc_div, Bezel, KeyAction, PhysicalButton, Point, first_key_at};

verus! {

/// Whether `v` is a value an `i32` can hold.
pub open spec fn fits(v: int) -> bool {
    i32::MIN <= v <= i32::MAX
}

/// Integer division that answers 0 rather than dividing by zero, truncating.
pub open spec fn divided(value: int, by: int) -> int {
    if by <= 0 {
        0
    } else {
        trunc_div(value, by)
    }
}

/// `value / by`, truncated towards zero, or 0 when `by` is not positive.
///
/// A bezel whose panel measures nothing is a data error, not a crash: the body
/// collapses to a point and the window is the panel.
pub fn divide(value: i64, by: i64) -> (q: i64)
    requires
        value > i64::MIN,
    ensures
        q == divided(value as int, by as int),
{
    if by <= 0 {
        0
    } else if value >= 0 {
        value / by
    } else {
        -((-value) / by)
    }
}

/// A panel of `width` pixels at `scale` window pixels each, as the window
/// holds it: the multiplication is in `i32`, as the scale is cast.
pub open spec fn scaled_by(width: i32, scale: u32) -> int {
    width * (scale as i32)
}

/// How big the body of `bezel` is drawn, in window pixels, when its panel of
/// `width` x `height` pixels is shown at `scale`.
pub open spec fn body_pixels(bezel: Bezel, width: i32, height: i32, scale: u32) -> (int, int) {
    (
        divided(bezel.body.0 * scaled_by(width, scale), bezel.panel_size.0 as int),
        divided(bezel.body.1 * scaled_by(height, scale), bezel.panel_size.1 as int),
    )
}

/// A device's body, its panel and its buttons, in window pixels.
#[derive(Copy, Clone, Debug)]
pub struct BezelLayout {
    bezel: Bezel,
    /// The panel's size in window pixels: its own pixels times the scale.
    panel_px: (i32, i32),
    /// Where the body's top-left corner sits in the window.
    origin: Point,
}

impl BezelLayout {
    /// The device this describes.
    pub closed spec fn device(self) -> Bezel {
        self.bezel
    }

    /// The panel's size in window pixels.
    pub closed spec fn panel_pixels(self) -> (i32, i32) {
        self.panel_px
    }

    /// Where the body's top-left corner sits in the window.
    pub closed spec fn corner(self) -> Point {
        self.origin
    }

    /// Tenths of a millimetre across, in window pixels. Per axis, because the
    /// panel must occupy exactly its own pixels and the body stretches to it.
    pub open spec fn across(self, mm10: int) -> int {
        divided(mm10 * self.panel_pixels().0, self.device().panel_size.0 as int)
    }

    /// Tenths of a millimetre down, in window pixels.
    pub open spec fn down(self, mm10: int) -> int {
        divided(mm10 * self.panel_pixels().1, self.device().panel_size.1 as int)
    }

    /// A point on the device, in window pixels.
    pub open spec fn window_point(self, at: (i32, i32)) -> (int, int) {
        (self.corner().x + self.across(at.0 as int), self.corner().y + self.down(at.1 as int))
    }

    /// Whether a point on the device has a window pixel an `i32` can hold.
    pub open spec fn maps(self, at: (i32, i32)) -> bool {
        fits(self.window_point(at).0) && fits(self.window_point(at).1)
    }

    /// A window pixel, back on the device.
    pub open spec fn device_point(self, at: Point) -> (int, int) {
        (
            divided((at.x - self.corner().x) * self.device().panel_size.0, self.panel_pixels().0 as int),
            divided((at.y - self.corner().y) * self.device().panel_size.1, self.panel_pixels().1 as int),
        )
    }

    /// Whether a window pixel is on the panel.
    pub open spec fn holds(self, at: Point) -> bool {
        let o = self.window_point(self.device().panel_origin);
        o.0 <= at.x < o.0 + self.panel_pixels().0 && o.1 <= at.y < o.1 + self.panel_pixels().1
    }

    /// Whether a window pixel has a device point an `i32` can hold.
    pub open spec fn reaches(self, at: Point) -> bool {
        fits(self.device_point(at).0) && fits(self.device_point(at).1)
    }

    /// What pressing the window pixel `at` means, if there is a key there.
    pub open spec fn action_at(self, at: Point) -> Option<KeyAction> {
        match first_key_at(
            self.device().buttons@,
            (self.device_point(at).0 as i32, self.device_point(at).1 as i32),
            0,
        ) {
            Some(i) => Some(self.device().buttons@[i].action),
            None => None,
        }
    }

    /// The layout of `bezel` with its panel `panel` window pixels across and
    /// down and its top-left corner at `corner`.
    pub closed spec fn placed(bezel: Bezel, panel: (i32, i32), corner: Point) -> BezelLayout {
        BezelLayout { bezel, panel_px: panel, origin: corner }
    }

    /// A layout is the one its device, panel and corner place.
    pub proof fn lemma_placed(l: BezelLayout)
        ensures
            l == BezelLayout::placed(l.device(), l.panel_pixels(), l.corner()),
    {
    }

    /// The layout for a bezel whose panel is `width` x `height` pixels, shown
    /// at `scale` window pixels each.
    pub fn new(bezel: Bezel, width: i32, height: i32, scale: u32) -> (l: BezelLayout)
        requires
            fits(width * (scale as i32)),
            fits(height * (scale as i32)),
        ensures
            l.device() == bezel,
            l.panel_pixels() == (
                (width * (scale as i32)) as i32,
                (height * (scale as i32)) as i32,
            ),
            l.corner() == Point::new_spec(0, 0),
    {
        let s = scale as i32;
        BezelLayout { bezel, panel_px: (width * s, height * s), origin: Point { x: 0, y: 0 } }
    }

    /// The same body, moved to `origin` in the window.
    pub fn at(self, origin: Point) -> (l: BezelLayout)
        ensures
            l.device() == self.device(),
            l.panel_pixels() == self.panel_pixels(),
            l.corner() == origin,
    {
        let mut l = self;
        l.origin = origin;
        l
    }

    /// Where the body's top-left corner sits in the window.
    pub fn origin(&self) -> (p: Point)
        ensures
            p == self.corner(),
    {
        self.origin
    }

    /// The device this describes.
    pub fn bezel(&self) -> (b: &Bezel)
        ensures
            *b == self.device(),
    {
        &self.bezel
    }

    /// The body's own size in pixels, drawn at the panel's ratio.
    pub fn window_size(&self) -> (s: (i32, i32))
        requires
            fits(self.across(self.device().body.0 as int)),
            fits(self.down(self.device().body.1 as int)),
        ensures
            s.0 == self.across(self.device().body.0 as int),
            s.1 == self.down(self.device().body.1 as int),
    {
        (self.px_x(self.bezel.body.0) as i32, self.px_y(self.bezel.body.1) as i32)
    }

    /// Where the panel's top-left corner sits in the window.
    pub fn panel_offset(&self) -> (p: Point)
        requires
            self.maps(self.device().panel_origin),
        ensures
            p.x == self.window_point(self.device().panel_origin).0,
            p.y == self.window_point(self.device().panel_origin).1,
    {
        self.to_window(self.bezel.panel_origin)
    }

    /// The panel's own size in window pixels.
    pub fn panel_size(&self) -> (s: (i32, i32))
        ensures
            s == self.panel_pixels(),
    {
        self.panel_px
    }

    /// Whether a window pixel is on the panel: the authority on that
    /// question, rather than the window's own answer, which truncates a gap
    /// pixel onto the panel's edge.
    pub fn panel_holds(&self, at: Point) -> (r: bool)
        requires
            self.maps(self.device().panel_origin),
        ensures
            r == self.holds(at),
    {
        let origin = self.panel_offset();
        at.x >= origin.x && at.y >= origin.y && (at.x as i64) < origin.x as i64
            + self.panel_px.0 as i64 && (at.y as i64) < origin.y as i64 + self.panel_px.1 as i64
    }

    /// Where a key's face lands, in window pixels: one function, because two
    /// would drift. The corner is the middle less half the face, each halved
    /// after converting.
    pub fn key_face(self, centre: (i32, i32), size: (i32, i32)) -> (f: (Point, (i32, i32)))
        requires
            self.maps(centre),
            fits(self.across(size.0 as int)),
            fits(self.down(size.1 as int)),
            fits(self.window_point(centre).0 - trunc_div(self.across(size.0 as int), 2)),
            fits(self.window_point(centre).1 - trunc_div(self.down(size.1 as int), 2)),
        ensures
            f.1.0 == self.across(size.0 as int),
            f.1.1 == self.down(size.1 as int),
            f.0.x == self.window_point(centre).0 - trunc_div(f.1.0 as int, 2),
            f.0.y == self.window_point(centre).1 - trunc_div(f.1.1 as int, 2),
    {
        let middle = self.to_window(centre);
        let (width, height) = self.to_window_size(size);
        let hw = crate::device::half(width);
        let hh = crate::device::half(height);
        (Point { x: (middle.x as i64 - hw as i64) as i32, y: (middle.y as i64 - hh as i64) as i32 }, (width, height))
    }

    /// A point on the device, in window pixels.
    pub fn to_window(self, at: (i32, i32)) -> (p: Point)
        requires
            self.maps(at),
        ensures
            p.x == self.window_point(at).0,
            p.y == self.window_point(at).1,
    {
        let px = self.px_x(at.0);
        let py = self.px_y(at.1);
        proof {
            assert(abs_int(at.0 * self.panel_px.0) <= 0x4000_0000_0000_0000) by (nonlinear_arith)
                requires
                    -0x8000_0000 <= at.0 < 0x8000_0000,
                    -0x8000_0000 <= self.panel_px.0 < 0x8000_0000,
            ;
            assert(abs_int(at.1 * self.panel_px.1) <= 0x4000_0000_0000_0000) by (nonlinear_arith)
                requires
                    -0x8000_0000 <= at.1 < 0x8000_0000,
                    -0x8000_0000 <= self.panel_px.1 < 0x8000_0000,
            ;
        }
        let x = self.origin.x as i64 + px;
        let y = self.origin.y as i64 + py;
        Point { x: x as i32, y: y as i32 }
    }

    /// A size on the device, in window pixels.
    pub fn to_window_size(self, size: (i32, i32)) -> (s: (i32, i32))
        requires
            fits(self.across(size.0 as int)),
            fits(self.down(size.1 as int)),
        ensures
            s.0 == self.across(size.0 as int),
            s.1 == self.down(size.1 as int),
    {
        (self.px_x(size.0) as i32, self.px_y(size.1) as i32)
    }

    /// A window pixel, back in tenths of a millimetre.
    pub fn to_device(self, at: Point) -> (d: (i32, i32))
        requires
            fits(self.device_point(at).0),
            fits(self.device_point(at).1),
        ensures
            d.0 == self.device_point(at).0,
            d.1 == self.device_point(at).1,
    {
        let x = at.x as i64 - self.origin.x as i64;
        let y = at.y as i64 - self.origin.y as i64;
        proof {
            lemma_product_bound(x as int, self.bezel.panel_size.0 as int);
            lemma_product_bound(y as int, self.bezel.panel_size.1 as int);
        }
        (
            divide(x * self.bezel.panel_size.0 as i64, self.panel_px.0 as i64) as i32,
            divide(y * self.bezel.panel_size.1 as i64, self.panel_px.1 as i64) as i32,
        )
    }

    /// What pressing the window pixel `at` would mean, if there is a key there.
    pub fn button_at(&self, at: Point) -> (a: Option<KeyAction>)
        requires
            fits(self.device_point(at).0),
            fits(self.device_point(at).1),
        ensures
            a == self.action_at(at),
    {
        match self.bezel.button_at(self.to_device(at)) {
            Some(key) => Some(key.action),
            None => None,
        }
    }

    /// Whether the point `at` on the device has a window pixel an `i32` holds.
    pub fn can_map(&self, at: (i32, i32)) -> (r: bool)
        ensures
            r == self.maps(at),
    {
        proof {
            assert(abs_int(at.0 * self.panel_px.0) <= 0x4000_0000_0000_0000) by (nonlinear_arith)
                requires
                    -0x8000_0000 <= at.0 < 0x8000_0000,
                    -0x8000_0000 <= self.panel_px.0 < 0x8000_0000,
            ;
            assert(abs_int(at.1 * self.panel_px.1) <= 0x4000_0000_0000_0000) by (nonlinear_arith)
                requires
                    -0x8000_0000 <= at.1 < 0x8000_0000,
                    -0x8000_0000 <= self.panel_px.1 < 0x8000_0000,
            ;
        }
        let x = self.origin.x as i64 + self.px_x(at.0);
        let y = self.origin.y as i64 + self.px_y(at.1);
        -0x8000_0000i64 <= x && x <= 0x7FFF_FFFFi64 && -0x8000_0000i64 <= y && y <= 0x7FFF_FFFFi64
    }

    /// Whether this layout can answer for the window pixel `at`: the panel's
    /// corner and `at`'s point on the device are numbers an `i32` holds.
    pub fn can_place(&self, at: Point) -> (r: bool)
        ensures
            r == (self.maps(self.device().panel_origin) && self.reaches(at)),
    {
        let o = self.bezel.panel_origin;
        proof {
            assert(abs_int(o.0 * self.panel_px.0) <= 0x4000_0000_0000_0000) by (nonlinear_arith)
                requires
                    -0x8000_0000 <= o.0 < 0x8000_0000,
                    -0x8000_0000 <= self.panel_px.0 < 0x8000_0000,
            ;
            assert(abs_int(o.1 * self.panel_px.1) <= 0x4000_0000_0000_0000) by (nonlinear_arith)
                requires
                    -0x8000_0000 <= o.1 < 0x8000_0000,
                    -0x8000_0000 <= self.panel_px.1 < 0x8000_0000,
            ;
        }
        let ox = self.origin.x as i64 + self.px_x(o.0);
        let oy = self.origin.y as i64 + self.px_y(o.1);
        let x = at.x as i64 - self.origin.x as i64;
        let y = at.y as i64 - self.origin.y as i64;
        proof {
            lemma_product_bound(x as int, self.bezel.panel_size.0 as int);
            lemma_product_bound(y as int, self.bezel.panel_size.1 as int);
        }
        let dx = divide(x * self.bezel.panel_size.0 as i64, self.panel_px.0 as i64);
        let dy = divide(y * self.bezel.panel_size.1 as i64, self.panel_px.1 as i64);
        let within = |v: i64| -> (b: bool)
            ensures
                b == fits(v as int),
        { i32::MIN as i64 <= v && v <= i32::MAX as i64 };
        within(ox) && within(oy) && within(dx) && within(dy)
    }

    pub(crate) fn px_x(&self, mm10: i32) -> (p: i64)
        ensures
            p == self.across(mm10 as int),
            -0x8000_0000_0000_0000 < p < 0x8000_0000_0000_0000,
            abs_int(p as int) <= abs_int(mm10 * self.panel_pixels().0),
    {
        proof {
            lemma_product_bound(mm10 as int, self.panel_px.0 as int);
            lemma_quotient_bound(mm10 * self.panel_px.0, self.bezel.panel_size.0 as int);
        }
        divide(mm10 as i64 * self.panel_px.0 as i64, self.bezel.panel_size.0 as i64)
    }

    pub(crate) fn px_y(&self, mm10: i32) -> (p: i64)
        ensures
            p == self.down(mm10 as int),
            -0x8000_0000_0000_0000 < p < 0x8000_0000_0000_0000,
            abs_int(p as int) <= abs_int(mm10 * self.panel_pixels().1),
    {
        proof {
            lemma_product_bound(mm10 as int, self.panel_px.1 as int);
            lemma_quotient_bound(mm10 * self.panel_px.1, self.bezel.panel_size.1 as int);
        }
        divide(mm10 as i64 * self.panel_px.1 as i64, self.bezel.panel_size.1 as i64)
    }
}

/// The product of two values an `i64` half can hold stays well inside `i64`.
pub(crate) proof fn lemma_product_bound(a: int, b: int)
    requires
        -0x1_0000_0000 < a < 0x1_0000_0000,
        -0x8000_0000 <= b < 0x8000_0000,
    ensures
        -0x7fff_ffff_ffff_ffff <= a * b <= 0x7fff_ffff_ffff_ffff,
{
    assert(-0x7fff_ffff_ffff_ffff <= a * b <= 0x7fff_ffff_ffff_ffff) by (nonlinear_arith)
        requires
            -0x1_0000_0000 < a < 0x1_0000_0000,
            -0x8000_0000 <= b < 0x8000_0000,
    ;
}

/// A quotient by a positive divisor is no further from zero than the value.
proof fn lemma_quotient_bound(v: int, by: int)
    ensures
        abs_int(divided(v, by)) <= abs_int(v),
{
    if by > 0 {
        if v >= 0 {
            assert(v / by <= v) by (nonlinear_arith)
                requires
                    v >= 0,
                    by > 0,
            ;
        } else {
            assert((-v) / by <= -v) by (nonlinear_arith)
                requires
                    v < 0,
                    by > 0,
            ;
        }
    }
}

/// The distance of `v` from zero.
pub open spec fn abs_int(v: int) -> int {
    if v < 0 {
        -v
    } else {
        v
    }
}

} // verus!
