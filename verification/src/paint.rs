//! The device around the panel, drawn from primitives: the shell, the well
//! the panel is set into, and each key with its legend.
//!
//! What is drawn where is decided here, as a list of shapes; the drawing
//! itself is `embedded-graphics`'.

use vstd::prelude::*;

use embedded_graphics::mono_font::{ascii, MonoTextStyle};
use embedded_graphics::pixelcolor::Rgb888;
use embedded_graphics::geometry::{Point, Size};
use embedded_graphics::prelude::{DrawTarget, Drawable, Primitive};
use embedded_graphics::primitives::{PrimitiveStyle, Rectangle, RoundedRectangle};
use embedded_graphics::text::{Alignment, Baseline, Text, TextStyleBuilder};
use embedded_graphics_simulator::SimulatorDisplay;

use crate::device::{trunc_div, KeyAction, PhysicalButton};
use crate::layout::{fits, BezelLayout};

verus! {

/// A display the window shows, in full colour.
#[verifier::external_type_specification]
#[verifier::external_body]
#[verifier::reject_recursive_types(C)]
pub struct ExSimulatorDisplay<C>(SimulatorDisplay<C>);

/// A full-colour pixel.
#[verifier::external_type_specification]
#[verifier::external_body]
pub struct ExRgb888(Rgb888);

/// What is behind the device: visible only where the body's corners round off.
pub open spec fn desk() -> (u8, u8, u8) {
    (0x14, 0x16, 0x18)
}

/// The body itself.
pub open spec fn shell() -> (u8, u8, u8) {
    (0x3A, 0x3E, 0x44)
}

/// The well the panel is set into, darker than the shell it is cut out of so
/// the panel reads as recessed rather than pasted on.
pub open spec fn well() -> (u8, u8, u8) {
    (0x1E, 0x21, 0x25)
}

/// A key at rest.
pub open spec fn key() -> (u8, u8, u8) {
    (0x6B, 0x71, 0x7A)
}

/// A key under a finger.
pub open spec fn key_held() -> (u8, u8, u8) {
    (0xC8, 0xCE, 0xD6)
}

/// A label printed on a key.
pub open spec fn legend_on_key() -> (u8, u8, u8) {
    (0x11, 0x13, 0x16)
}

/// A label printed on the shell beside its key.
pub open spec fn legend_on_shell() -> (u8, u8, u8) {
    (0xA8, 0xAE, 0xB6)
}

/// Corner radius of the shell, in tenths of a millimetre.
pub open spec fn shell_radius() -> int {
    30
}

/// Corner radius of a key, in tenths of a millimetre.
pub open spec fn key_radius() -> int {
    12
}

/// How far the well extends past the panel on each side, in tenths of a
/// millimetre.
pub open spec fn well_lip() -> int {
    12
}

/// The legend faces, largest first.
#[derive(Copy, Clone, Debug, PartialEq, Eq, Structural)]
pub enum Face {
    Large,
    Medium,
    Small,
}

/// A face's character width, height and spacing, as `embedded-graphics`'
/// ASCII fonts have them.
pub open spec fn face_metrics(face: Face) -> (u32, u32, u32) {
    match face {
        Face::Large => (10, 20, 0),
        Face::Medium => (9, 15, 0),
        Face::Small => (6, 10, 0),
    }
}

/// One thing drawn on the body.
#[derive(Copy, Clone, Debug, PartialEq, Eq)]
pub enum Shape {
    /// The whole display in one colour.
    Clear { colour: (u8, u8, u8) },
    /// A filled rectangle with equally rounded corners.
    Rounded { x: i32, y: i32, width: u32, height: u32, radius: u32, colour: (u8, u8, u8) },
    /// A label centred on `x`: on its middle line at `y`, or hanging from it.
    Legend { text: &'static str, x: i32, y: i32, face: Face, middle: bool, colour: (u8, u8, u8) },
}

/// `v`, or 0 when it is negative.
pub open spec fn at_least_zero(v: int) -> int {
    if v < 0 {
        0
    } else {
        v
    }
}

/// Whether a face's legend of `letters` characters fits a key `width` by
/// `height`, with a margin of 4 pixels.
pub open spec fn fits_on(face: Face, letters: int, width: int, height: int) -> bool {
    let (w, h, spacing) = face_metrics(face);
    letters * (w + spacing) + 4 <= width && h + 4 <= height
}

/// The largest face a legend fits on the key in, if any.
pub open spec fn face_for(letters: int, width: int, height: int) -> Option<Face> {
    if fits_on(Face::Large, letters, width, height) {
        Some(Face::Large)
    } else if fits_on(Face::Medium, letters, width, height) {
        Some(Face::Medium)
    } else if fits_on(Face::Small, letters, width, height) {
        Some(Face::Small)
    } else {
        None
    }
}

/// A key's label: on the key in the largest face that fits, and under it in
/// the smallest when none does; nothing for a key with no label.
pub open spec fn legend_of(label: &'static str, x: int, y: int, width: int, height: int) -> Seq<Shape> {
    if label@.len() == 0 {
        Seq::empty()
    } else {
        let middle = (x + width / 2) as i32;
        match face_for(label@.len() as int, width, height) {
            Some(face) => seq![
                Shape::Legend {
                    text: label,
                    x: middle,
                    y: (y + height / 2) as i32,
                    face,
                    middle: true,
                    colour: legend_on_key(),
                },
            ],
            None => seq![
                Shape::Legend {
                    text: label,
                    x: middle,
                    y: (y + height + 3) as i32,
                    face: Face::Small,
                    middle: false,
                    colour: legend_on_shell(),
                },
            ],
        }
    }
}

/// Where a key's face sits and how big it is, in window pixels.
pub open spec fn face_of(l: BezelLayout, b: PhysicalButton) -> (int, int, int, int) {
    let w = l.across(b.size.0 as int);
    let h = l.down(b.size.1 as int);
    (l.window_point(b.centre).0 - trunc_div(w, 2), l.window_point(b.centre).1 - trunc_div(h, 2), at_least_zero(w), at_least_zero(h))
}

/// How round a key's corners are: a key the board describes as square is
/// drawn round, whatever the zoom does to its two axes, and any other has the
/// key radius.
pub open spec fn key_corner(l: BezelLayout, b: PhysicalButton, w: int, h: int) -> int {
    if b.size.0 == b.size.1 {
        (if w < h {
            w
        } else {
            h
        }) / 2
    } else {
        at_least_zero(l.across(key_radius()))
    }
}

/// A key: its face, lit when it is the one held, then its legend.
pub open spec fn key_shapes(l: BezelLayout, held: Option<KeyAction>, b: PhysicalButton) -> Seq<Shape> {
    let (x, y, w, h) = face_of(l, b);
    seq![
        Shape::Rounded {
            x: x as i32,
            y: y as i32,
            width: w as u32,
            height: h as u32,
            radius: key_corner(l, b, w, h) as u32,
            colour: if held == Some(b.action) {
                key_held()
            } else {
                key()
            },
        },
    ] + legend_of(b.label, x, y, w, h)
}

/// The keys among `buttons[..k]`, in order.
pub open spec fn keys_upto(l: BezelLayout, held: Option<KeyAction>, buttons: Seq<PhysicalButton>, k: int) -> Seq<Shape>
    decreases k,
{
    if k <= 0 || k > buttons.len() {
        Seq::empty()
    } else {
        keys_upto(l, held, buttons, k - 1) + key_shapes(l, held, buttons[k - 1])
    }
}

/// The whole body, in paint order: the desk, the shell, the well, and each
/// key, the one held lit.
pub open spec fn body_shapes(l: BezelLayout, held: Option<KeyAction>) -> Seq<Shape> {
    let width = l.across(l.device().body.0 as int);
    let height = l.down(l.device().body.1 as int);
    let lip_x = l.across(well_lip());
    let lip_y = l.down(well_lip());
    let o = l.window_point(l.device().panel_origin);
    let (pw, ph) = l.panel_pixels();
    seq![
        Shape::Clear { colour: desk() },
        Shape::Rounded {
            x: 0,
            y: 0,
            width: at_least_zero(width) as u32,
            height: at_least_zero(height) as u32,
            radius: at_least_zero(l.across(shell_radius())) as u32,
            colour: shell(),
        },
        Shape::Rounded {
            x: (o.0 - lip_x) as i32,
            y: (o.1 - lip_y) as i32,
            width: at_least_zero(pw + lip_x * 2) as u32,
            height: at_least_zero(ph + lip_y * 2) as u32,
            radius: at_least_zero(lip_x) as u32,
            colour: well(),
        },
    ] + keys_upto(l, held, l.device().buttons@, l.device().buttons@.len() as int)
}

/// Whether a legend of `letters` characters placed at `x`, `y` can be laid
/// out with every position `embedded-graphics` computes for it, in any of the
/// faces, inside `i32`: glyphs at most 10 wide advance from the centred start,
/// and each line moves down at most 20.
pub open spec fn text_room(letters: int, x: int, y: int) -> bool {
    &&& letters <= 0x100_0000
    &&& i32::MIN + 10 * letters + 1 <= x
    &&& x + 10 * letters + 1 <= i32::MAX
    &&& i32::MIN + 20 <= y
    &&& y + 20 * (letters + 1) <= i32::MAX
}

/// Whether `embedded-graphics` can fill a rounded rectangle at `x`, `y`,
/// `width` by `height`, with corners of `radius`: it doubles every
/// coordinate, and squares each corner's doubled offsets in `i32` and its
/// doubled radius in `u32`, so the rectangle stays within 2^30 of the origin
/// and the radius below 2^14.
pub open spec fn rounded_room(x: int, y: int, width: int, height: int, radius: int) -> bool {
    &&& -0x4000_0000 <= x
    &&& x + width < 0x4000_0000
    &&& -0x4000_0000 <= y
    &&& y + height < 0x4000_0000
    &&& radius < 0x4000
}

/// Whether `embedded-graphics` can draw `shape` without a position, size or
/// product overflowing.
pub open spec fn drawable(shape: Shape) -> bool {
    match shape {
        Shape::Clear { .. } => true,
        Shape::Rounded { x, y, width, height, radius, .. } => rounded_room(
            x as int,
            y as int,
            width as int,
            height as int,
            radius as int,
        ),
        Shape::Legend { text, x, y, .. } => text_room(text@.len() as int, x as int, y as int),
    }
}

/// Whether every shape of `shapes` can be drawn.
pub open spec fn all_drawable(shapes: Seq<Shape>) -> bool {
    forall|i: int| 0 <= i < shapes.len() ==> #[trigger] drawable(shapes[i])
}

/// Whether every number a key's shapes need is one an `i32` holds, and its
/// face and legend can be drawn.
pub open spec fn key_fits(l: BezelLayout, b: PhysicalButton) -> bool {
    let (x, y, w, h) = face_of(l, b);
    &&& l.maps(b.centre)
    &&& fits(l.across(b.size.0 as int))
    &&& fits(l.down(b.size.1 as int))
    &&& fits(x)
    &&& fits(y)
    &&& fits(x + w / 2)
    &&& fits(y + h + 3)
    &&& rounded_room(x, y, w, h, key_corner(l, b, w, h))
    &&& (b.label@.len() > 0 ==> text_room(b.label@.len() as int, x + w / 2, y + h / 2) && text_room(
        b.label@.len() as int,
        x + w / 2,
        y + h + 3,
    ))
}

/// Whether every number the body's shapes need is one an `i32` holds.
pub open spec fn paintable(l: BezelLayout) -> bool {
    let lip_x = l.across(well_lip());
    let lip_y = l.down(well_lip());
    let o = l.window_point(l.device().panel_origin);
    let (pw, ph) = l.panel_pixels();
    &&& fits(l.across(l.device().body.0 as int))
    &&& fits(l.down(l.device().body.1 as int))
    &&& fits(l.across(shell_radius()))
    &&& fits(l.down(shell_radius()))
    &&& fits(l.across(key_radius()))
    &&& fits(l.down(key_radius()))
    &&& fits(lip_x)
    &&& fits(lip_y)
    &&& l.maps(l.device().panel_origin)
    &&& fits(o.0 - lip_x)
    &&& fits(o.1 - lip_y)
    &&& fits(pw + lip_x * 2)
    &&& fits(ph + lip_y * 2)
    &&& rounded_room(
        0,
        0,
        at_least_zero(l.across(l.device().body.0 as int)),
        at_least_zero(l.down(l.device().body.1 as int)),
        at_least_zero(l.across(shell_radius())),
    )
    &&& rounded_room(
        o.0 - lip_x,
        o.1 - lip_y,
        at_least_zero(pw + lip_x * 2),
        at_least_zero(ph + lip_y * 2),
        at_least_zero(lip_x),
    )
    &&& forall|i: int| 0 <= i < l.device().buttons@.len() ==> #[trigger] key_fits(l, l.device().buttons@[i])
}

/// Whether `v` is a value an `i32` holds.
fn within_i32(v: i128) -> (r: bool)
    ensures
        r == fits(v as int),
{
    -0x8000_0000i128 <= v && v <= 0x7FFF_FFFFi128
}

/// Half of `v`, truncated towards zero.
fn halved(v: i128) -> (h: i128)
    requires
        -0x1_0000_0000_0000_0000i128 < v < 0x1_0000_0000_0000_0000i128,
    ensures
        h == trunc_div(v as int, 2),
{
    if v >= 0 {
        v / 2
    } else {
        -((-v) / 2)
    }
}

/// `v`, or 0 when it is negative.
fn at_least_zero_i128(v: i128) -> (r: i128)
    ensures
        r == at_least_zero(v as int),
{
    if v < 0 {
        0
    } else {
        v
    }
}

/// Whether a rounded rectangle at `x`, `y`, `width` by `height` with
/// corners of `radius` can be filled.
fn rounded_fits(x: i128, y: i128, width: i128, height: i128, radius: i128) -> (r: bool)
    requires
        -0x1_0000_0000_0000_0000i128 < x < 0x1_0000_0000_0000_0000i128,
        -0x1_0000_0000_0000_0000i128 < y < 0x1_0000_0000_0000_0000i128,
        -0x1_0000_0000_0000_0000i128 < width < 0x1_0000_0000_0000_0000i128,
        -0x1_0000_0000_0000_0000i128 < height < 0x1_0000_0000_0000_0000i128,
    ensures
        r == rounded_room(x as int, y as int, width as int, height as int, radius as int),
{
    -0x4000_0000i128 <= x && x + width < 0x4000_0000i128 && -0x4000_0000i128 <= y && y + height < 0x4000_0000i128
        && radius < 0x4000i128
}

/// Whether a legend of `letters` characters fits at `x`, `y`.
fn room_for_text(letters: usize, x: i128, y: i128) -> (r: bool)
    requires
        -0x1_0000_0000_0000_0000i128 < x < 0x1_0000_0000_0000_0000i128,
        -0x1_0000_0000_0000_0000i128 < y < 0x1_0000_0000_0000_0000i128,
    ensures
        r == text_room(letters as int, x as int, y as int),
{
    if letters > 0x100_0000 {
        return false;
    }
    let n = letters as i128;
    -0x8000_0000i128 + 10 * n + 1 <= x && x + 10 * n + 1 <= 0x7FFF_FFFFi128 && -0x8000_0000i128 + 20 <= y && y + 20
        * (n + 1) <= 0x7FFF_FFFFi128
}

/// Whether every number `b`'s shapes need is one an `i32` holds.
fn key_can_paint(l: &BezelLayout, b: PhysicalButton) -> (r: bool)
    ensures
        r == key_fits(*l, b),
{
    let o = l.origin();
    let cx = o.x as i128 + l.px_x(b.centre.0) as i128;
    let cy = o.y as i128 + l.px_y(b.centre.1) as i128;
    let w = l.px_x(b.size.0) as i128;
    let h = l.px_y(b.size.1) as i128;
    let x = cx - halved(w);
    let y = cy - halved(h);
    let wz: i128 = if w < 0 {
        0
    } else {
        w
    };
    let hz: i128 = if h < 0 {
        0
    } else {
        h
    };
    let letters = b.label.unicode_len();
    let legend = letters == 0 || (room_for_text(letters, x + wz / 2, y + hz / 2) && room_for_text(
        letters,
        x + wz / 2,
        y + hz + 3,
    ));
    let corner: i128 = if b.size.0 == b.size.1 {
        (if wz < hz {
            wz
        } else {
            hz
        }) / 2
    } else {
        at_least_zero_i128(l.px_x(12) as i128)
    };
    within_i32(cx) && within_i32(cy) && within_i32(w) && within_i32(h) && within_i32(x) && within_i32(y)
        && within_i32(x + wz / 2) && within_i32(y + hz + 3) && rounded_fits(x, y, wz, hz, corner) && legend
}

/// Whether `layout` can be painted: every number the body's shapes need is
/// one an `i32` holds, as `paint_body` asks.
pub fn can_paint(layout: &BezelLayout) -> (r: bool)
    ensures
        r == paintable(*layout),
{
    let l = layout;
    let o = l.origin();
    let device = l.bezel();
    let (pw, ph) = l.panel_size();
    let lip_x = l.px_x(12) as i128;
    let lip_y = l.px_y(12) as i128;
    let ox = o.x as i128 + l.px_x(device.panel_origin.0) as i128;
    let oy = o.y as i128 + l.px_y(device.panel_origin.1) as i128;
    let body = within_i32(l.px_x(device.body.0) as i128) && within_i32(l.px_y(device.body.1) as i128)
        && within_i32(l.px_x(30) as i128) && within_i32(l.px_y(30) as i128) && within_i32(lip_x)
        && within_i32(lip_y) && within_i32(ox) && within_i32(oy) && within_i32(ox - lip_x)
        && within_i32(oy - lip_y) && within_i32(pw as i128 + lip_x * 2) && within_i32(ph as i128 + lip_y * 2)
        && rounded_fits(
        0,
        0,
        at_least_zero_i128(l.px_x(device.body.0) as i128),
        at_least_zero_i128(l.px_y(device.body.1) as i128),
        at_least_zero_i128(l.px_x(30) as i128),
    ) && rounded_fits(
        ox - lip_x,
        oy - lip_y,
        at_least_zero_i128(pw as i128 + lip_x * 2),
        at_least_zero_i128(ph as i128 + lip_y * 2),
        at_least_zero_i128(lip_x),
    );
    let buttons = device.buttons;
    let mut keys = true;
    let mut i: usize = 0;
    while i < buttons.len()
        invariant
            i <= buttons@.len(),
            buttons@ == l.device().buttons@,
            keys == forall|j: int| 0 <= j < i ==> #[trigger] key_fits(*l, buttons@[j]),
        decreases buttons@.len() - i,
    {
        let fine = key_can_paint(l, buttons[i]);
        proof {
            if keys && fine {
                assert forall|j: int| 0 <= j < i + 1 implies #[trigger] key_fits(*l, buttons@[j]) by {
                    if j == i {
                    }
                }
            }
        }
        keys = keys && fine;
        i = i + 1;
    }
    body && keys
}

/// A face's character width, height and spacing, read off
/// `embedded_graphics::mono_font::ascii`'s `FONT_10X20`, `FONT_9X15` and
/// `FONT_6X10`: the values their definitions in that crate's source give.
#[verifier::external_body]
fn metrics(face: Face) -> (r: (u32, u32, u32))
    ensures
        r == face_metrics(face),
{
    let font = match face {
        Face::Large => &ascii::FONT_10X20,
        Face::Medium => &ascii::FONT_9X15,
        Face::Small => &ascii::FONT_6X10,
    };
    (font.character_size.width, font.character_size.height, font.character_spacing)
}

/// `v`, or 0 when it is negative.
fn clamp_zero(v: i64) -> (r: u32)
    requires
        v <= u32::MAX,
    ensures
        r == at_least_zero(v as int),
{
    if v < 0 {
        0
    } else {
        v as u32
    }
}

/// A key's legend.
fn legend(label: &'static str, x: i32, y: i32, width: u32, height: u32) -> (r: Vec<Shape>)
    requires
        width <= i32::MAX,
        height <= i32::MAX,
        fits(x + width / 2),
        fits(y + height + 3),
    ensures
        r@ == legend_of(label, x as int, y as int, width as int, height as int),
{
    let letters = label.unicode_len();
    if letters == 0 {
        return Vec::new();
    }
    let middle = (x as i64 + (width / 2) as i64) as i32;
    let faces = [Face::Large, Face::Medium, Face::Small];
    let mut chosen: Option<Face> = None;
    let mut k: usize = 0;
    while k < 3
        invariant
            k <= 3,
            faces@ == seq![Face::Large, Face::Medium, Face::Small],
            letters == label@.len(),
            chosen is None ==> forall|j: int| 0 <= j < k ==> !fits_on(faces@[j], letters as int, width as int, height as int),
            chosen matches Some(f) ==> face_for(letters as int, width as int, height as int) == Some(f),
        decreases 3 - k,
    {
        if chosen.is_none() {
            let (w, h, spacing) = metrics(faces[k]);
            proof {
                assert((letters as u128) * ((w as u128) + (spacing as u128)) <= 0xFFFF_FFFF_FFFF_FFFFu128
                    * 0x1_FFFF_FFFEu128) by (nonlinear_arith)
                    requires
                        (letters as u128) <= 0xFFFF_FFFF_FFFF_FFFFu128,
                        (w as u128) + (spacing as u128) <= 0x1_FFFF_FFFEu128,
                ;
            }
            let needed: u128 = letters as u128 * (w as u128 + spacing as u128) + 4;
            if needed <= width as u128 && (h as u128) + 4 <= height as u128 {
                chosen = Some(faces[k]);
            }
        }
        k = k + 1;
    }
    match chosen {
        Some(face) => {
            let v = vec![Shape::Legend {
                text: label,
                x: middle,
                y: (y as i64 + (height / 2) as i64) as i32,
                face,
                middle: true,
                colour: (0x11, 0x13, 0x16),
            }];
            assert(v@ =~= legend_of(label, x as int, y as int, width as int, height as int));
            v
        },
        None => {
            let v = vec![Shape::Legend {
                text: label,
                x: middle,
                y: (y as i64 + height as i64 + 3) as i32,
                face: Face::Small,
                middle: false,
                colour: (0xA8, 0xAE, 0xB6),
            }];
            assert(v@ =~= legend_of(label, x as int, y as int, width as int, height as int));
            v
        },
    }
}

/// What the body is drawn as, in paint order, with `held` lit.
pub fn body_plan(layout: &BezelLayout, held: Option<KeyAction>) -> (r: Vec<Shape>)
    requires
        paintable(*layout),
    ensures
        r@ == body_shapes(*layout, held),
{
    let l = *layout;
    let (width, height) = l.window_size();
    let (shell_r, _) = l.to_window_size((30, 30));
    let (lip_x, lip_y) = l.to_window_size((12, 12));
    let origin = l.panel_offset();
    let (pw, ph) = l.panel_size();
    let mut out: Vec<Shape> = Vec::new();
    out.push(Shape::Clear { colour: (0x14, 0x16, 0x18) });
    out.push(Shape::Rounded {
        x: 0,
        y: 0,
        width: clamp_zero(width as i64),
        height: clamp_zero(height as i64),
        radius: clamp_zero(shell_r as i64),
        colour: (0x3A, 0x3E, 0x44),
    });
    out.push(Shape::Rounded {
        x: (origin.x as i64 - lip_x as i64) as i32,
        y: (origin.y as i64 - lip_y as i64) as i32,
        width: clamp_zero(pw as i64 + lip_x as i64 * 2),
        height: clamp_zero(ph as i64 + lip_y as i64 * 2),
        radius: clamp_zero(lip_x as i64),
        colour: (0x1E, 0x21, 0x25),
    });
    let (key_r, _) = l.to_window_size((12, 12));
    let buttons = l.bezel().buttons;
    let ghost start = out@;
    assert(start =~= seq![
        Shape::Clear { colour: desk() },
        Shape::Rounded {
            x: 0,
            y: 0,
            width: at_least_zero(l.across(l.device().body.0 as int)) as u32,
            height: at_least_zero(l.down(l.device().body.1 as int)) as u32,
            radius: at_least_zero(l.across(shell_radius())) as u32,
            colour: shell(),
        },
        Shape::Rounded {
            x: (l.window_point(l.device().panel_origin).0 - l.across(well_lip())) as i32,
            y: (l.window_point(l.device().panel_origin).1 - l.down(well_lip())) as i32,
            width: at_least_zero(l.panel_pixels().0 + l.across(well_lip()) * 2) as u32,
            height: at_least_zero(l.panel_pixels().1 + l.down(well_lip()) * 2) as u32,
            radius: at_least_zero(l.across(well_lip())) as u32,
            colour: well(),
        },
    ]);
    let mut i: usize = 0;
    while i < buttons.len()
        invariant
            i <= buttons@.len(),
            buttons@ == l.device().buttons@,
            paintable(l),
            key_r == l.across(key_radius()),
            out@ == start + keys_upto(l, held, buttons@, i as int),
        decreases buttons@.len() - i,
    {
        let b = buttons[i];
        assert(key_fits(l, buttons@[i as int]));
        let ((face, (w, h))) = l.key_face(b.centre, b.size);
        let fw = clamp_zero(w as i64);
        let fh = clamp_zero(h as i64);
        let lit = match held {
            Some(a) => a == b.action,
            None => false,
        };
        let ghost before = out@;
        let corner = if b.size.0 == b.size.1 {
            (if fw < fh {
                fw
            } else {
                fh
            }) / 2
        } else {
            clamp_zero(key_r as i64)
        };
        out.push(Shape::Rounded {
            x: face.x,
            y: face.y,
            width: fw,
            height: fh,
            radius: corner,
            colour: if lit {
                (0xC8, 0xCE, 0xD6)
            } else {
                (0x6B, 0x71, 0x7A)
            },
        });
        let mut words = legend(b.label, face.x, face.y, fw, fh);
        out.append(&mut words);
        assert(out@ =~= before + key_shapes(l, held, buttons@[i as int]));
        i = i + 1;
    }
    out
}

/// `display` after `DrawTarget::clear` has filled it with `colour`.
pub uninterp spec fn cleared(display: SimulatorDisplay<Rgb888>, colour: (u8, u8, u8)) -> SimulatorDisplay<Rgb888>;

/// `display` after a filled `RoundedRectangle` with equal corners of `radius`
/// has been drawn on it.
pub uninterp spec fn rounded_drawn(
    display: SimulatorDisplay<Rgb888>,
    x: i32,
    y: i32,
    width: u32,
    height: u32,
    radius: u32,
    colour: (u8, u8, u8),
) -> SimulatorDisplay<Rgb888>;

/// `display` after `text` has been drawn on it centred on `x`, in `face`, on
/// its middle line at `y` or hanging from it.
pub uninterp spec fn text_drawn(
    display: SimulatorDisplay<Rgb888>,
    text: Seq<char>,
    x: i32,
    y: i32,
    face: Face,
    middle: bool,
    colour: (u8, u8, u8),
) -> SimulatorDisplay<Rgb888>;

/// `display` with one shape drawn on it.
pub open spec fn shape_drawn(display: SimulatorDisplay<Rgb888>, shape: Shape) -> SimulatorDisplay<Rgb888> {
    match shape {
        Shape::Clear { colour } => cleared(display, colour),
        Shape::Rounded { x, y, width, height, radius, colour } => rounded_drawn(display, x, y, width, height, radius, colour),
        Shape::Legend { text, x, y, face, middle, colour } => text_drawn(display, text@, x, y, face, middle, colour),
    }
}

/// `display` with `shapes` drawn on it, first to last.
pub open spec fn painted(display: SimulatorDisplay<Rgb888>, shapes: Seq<Shape>) -> SimulatorDisplay<Rgb888>
    decreases shapes.len(),
{
    if shapes.len() == 0 {
        display
    } else {
        shape_drawn(painted(display, shapes.drop_last()), shapes.last())
    }
}

/// Fills the whole display with `colour`, through `DrawTarget::clear`, whose
/// result the display's drawing never fails: the display `cleared` names.
#[verifier::external_body]
fn clear_to(display: &mut SimulatorDisplay<Rgb888>, colour: (u8, u8, u8))
    ensures
        *final(display) == cleared(*old(display), colour),
{
    let _ = display.clear(Rgb888::new(colour.0, colour.1, colour.2));
}

/// Draws a filled `RoundedRectangle` with equal corners of `radius`, through
/// `embedded-graphics`, which confines the radius to the rectangle itself:
/// the display `rounded_drawn` names.
#[verifier::external_body]
fn fill_rounded(display: &mut SimulatorDisplay<Rgb888>, x: i32, y: i32, width: u32, height: u32, radius: u32, colour: (u8, u8, u8))
    requires
        rounded_room(x as int, y as int, width as int, height as int, radius as int),
    ensures
        *final(display) == rounded_drawn(*old(display), x, y, width, height, radius, colour),
{
    let _ = RoundedRectangle::with_equal_corners(
        Rectangle::new(Point::new(x, y), Size::new(width, height)),
        Size::new(radius, radius),
    ).into_styled(PrimitiveStyle::with_fill(Rgb888::new(colour.0, colour.1, colour.2))).draw(display);
}

/// Draws `text` centred on `x` in one of `embedded-graphics`' ASCII fonts, on
/// its middle line at `y` or hanging from it, through `Text::with_text_style`:
/// the display `text_drawn` names.
#[verifier::external_body]
fn write_text(display: &mut SimulatorDisplay<Rgb888>, text: &str, x: i32, y: i32, face: Face, middle: bool, colour: (u8, u8, u8))
    requires
        text_room(text@.len() as int, x as int, y as int),
    ensures
        *final(display) == text_drawn(*old(display), text@, x, y, face, middle, colour),
{
    let font = match face {
        Face::Large => &ascii::FONT_10X20,
        Face::Medium => &ascii::FONT_9X15,
        Face::Small => &ascii::FONT_6X10,
    };
    let baseline = if middle { Baseline::Middle } else { Baseline::Top };
    let placement = TextStyleBuilder::new().alignment(Alignment::Center).baseline(baseline).build();
    let _ = Text::with_text_style(text, Point::new(x, y), MonoTextStyle::new(font, Rgb888::new(colour.0, colour.1, colour.2)), placement).draw(display);
}

/// Draws the shapes in order.
fn draw(display: &mut SimulatorDisplay<Rgb888>, shapes: &Vec<Shape>)
    requires
        all_drawable(shapes@),
    ensures
        *final(display) == painted(*old(display), shapes@),
{
    let mut i: usize = 0;
    while i < shapes.len()
        invariant
            i <= shapes@.len(),
            all_drawable(shapes@),
            *display == painted(*old(display), shapes@.take(i as int)),
        decreases shapes@.len() - i,
    {
        assert(shapes@.take(i + 1).drop_last() =~= shapes@.take(i as int));
        assert(drawable(shapes@[i as int]));
        match shapes[i] {
            Shape::Clear { colour } => clear_to(display, colour),
            Shape::Rounded { x, y, width, height, radius, colour } => fill_rounded(display, x, y, width, height, radius, colour),
            Shape::Legend { text, x, y, face, middle, colour } => write_text(display, text, x, y, face, middle, colour),
        }
        i = i + 1;
    }
    assert(shapes@.take(shapes@.len() as int) =~= shapes@);
}

/// A key's face and legend can be drawn when the key fits.
proof fn lemma_key_drawable(l: BezelLayout, held: Option<KeyAction>, b: PhysicalButton)
    requires
        key_fits(l, b),
        fits(l.across(key_radius())),
    ensures
        all_drawable(key_shapes(l, held, b)),
{
    let (x, y, w, h) = face_of(l, b);
    let ks = key_shapes(l, held, b);
    assert forall|i: int| 0 <= i < ks.len() implies #[trigger] drawable(ks[i]) by {
        if i > 0 {
            assert(b.label@.len() > 0);
        }
    }
}

/// The keys among `buttons[..k]` can be drawn when each fits.
proof fn lemma_keys_drawable(l: BezelLayout, held: Option<KeyAction>, buttons: Seq<PhysicalButton>, k: int)
    requires
        forall|j: int| 0 <= j < buttons.len() ==> #[trigger] key_fits(l, buttons[j]),
        fits(l.across(key_radius())),
    ensures
        all_drawable(keys_upto(l, held, buttons, k)),
    decreases k,
{
    if k > 0 && k <= buttons.len() {
        lemma_keys_drawable(l, held, buttons, k - 1);
        assert(key_fits(l, buttons[k - 1]));
        lemma_key_drawable(l, held, buttons[k - 1]);
        let prev = keys_upto(l, held, buttons, k - 1);
        let ks = key_shapes(l, held, buttons[k - 1]);
        assert forall|i: int| 0 <= i < (prev + ks).len() implies #[trigger] drawable((prev + ks)[i]) by {
            if i < prev.len() {
                assert((prev + ks)[i] == prev[i]);
            } else {
                assert((prev + ks)[i] == ks[i - prev.len()]);
            }
        }
    }
}

/// Every shape of a paintable layout's body can be drawn, whichever key is
/// held.
proof fn lemma_body_drawable(l: BezelLayout, held: Option<KeyAction>)
    requires
        paintable(l),
    ensures
        all_drawable(body_shapes(l, held)),
{
    let buttons = l.device().buttons@;
    assert forall|j: int| 0 <= j < buttons.len() implies #[trigger] key_fits(l, buttons[j]) by {}
    lemma_keys_drawable(l, held, buttons, buttons.len() as int);
    let keys = keys_upto(l, held, buttons, buttons.len() as int);
    let s = body_shapes(l, held);
    assert forall|i: int| 0 <= i < s.len() implies #[trigger] drawable(s[i]) by {
        if i >= 3 {
            assert(s[i] == keys[i - 3]);
        }
    }
}

/// Repaints the whole body, with `held` — if any — pressed in.
pub fn paint_body(display: &mut SimulatorDisplay<Rgb888>, layout: &BezelLayout, held: Option<KeyAction>)
    requires
        paintable(*layout),
    ensures
        *final(display) == painted(*old(display), body_shapes(*layout, held)),
{
    let shapes = body_plan(layout, held);
    proof {
        lemma_body_drawable(*layout, held);
    }
    draw(display, &shapes);
}

/// The bare desk, for a board with no body or one whose body is hidden.
pub fn backdrop(display: &mut SimulatorDisplay<Rgb888>)
    ensures
        *final(display) == cleared(*old(display), desk()),
{
    clear_to(display, (0x14, 0x16, 0x18));
}

} // verus!
