//! What a click on the window means.
//!
//! A click either reaches the firmware as a panel coordinate, presses a
//! physical key, or lands on bare shell and does nothing, and only the first
//! of those carries a coordinate at all: "a click off the panel is never a
//! touch" is a property of the type rather than of a branch.

use vstd::prelude::*;

use crate::device::{KeyAction, Point};
use crate::layout::BezelLayout;

verus! {

/// What a click turned out to be.
#[derive(Copy, Clone, Debug, PartialEq, Eq, Structural)]
pub enum Hit {
    /// On the panel, at this panel pixel, never a window pixel.
    Panel(Point),
    /// On a physical key, which may mean a button or the home gesture.
    Key(KeyAction),
    /// On the body, where there is nothing to press.
    Body,
}

/// The layout behind a borrowed one.
pub open spec fn owned(layout: Option<&BezelLayout>) -> Option<BezelLayout> {
    match layout {
        Some(l) => Some(*l),
        None => None,
    }
}

/// Whether `layout` can answer for the window pixel `at`.
pub open spec fn answers(layout: Option<BezelLayout>, at: Point) -> bool {
    match layout {
        Some(l) => l.maps(l.device().panel_origin) && l.reaches(at),
        None => true,
    }
}

/// Where a click at `window_point` goes, given what the window reported for it.
pub open spec fn hit_of(layout: Option<BezelLayout>, window_point: Point, panel_point: Option<Point>) -> Hit {
    let on_body = match layout {
        Some(l) => !l.holds(window_point),
        None => false,
    };
    match panel_point {
        Some(at) if !on_body => Hit::Panel(at),
        _ => match layout {
            Some(l) => match l.action_at(window_point) {
                Some(action) => Hit::Key(action),
                None => Hit::Body,
            },
            None => Hit::Body,
        },
    }
}

/// Where a click at `window_point` goes.
///
/// `panel_point` is what the window reported for it: `Some` when the click
/// landed on the panel display, `None` when it did not. A window rounds a
/// pixel of the gap onto the panel's edge, so the layout has the last word on
/// whether the click was on the panel at all.
pub fn route(layout: Option<&BezelLayout>, window_point: Point, panel_point: Option<Point>) -> (h: Hit)
    requires
        answers(owned(layout), window_point),
    ensures
        h == hit_of(owned(layout), window_point, panel_point),
{
    let on_body = match layout {
        Some(l) => !l.panel_holds(window_point),
        None => false,
    };
    match panel_point {
        Some(at) if !on_body => Hit::Panel(at),
        _ => match layout {
            Some(l) => match l.button_at(window_point) {
                Some(action) => Hit::Key(action),
                None => Hit::Body,
            },
            None => Hit::Body,
        },
    }
}

/// A click off the panel is never a touch: when the body is drawn and the
/// click is not on the panel's pixels, no panel coordinate comes out,
/// whatever the window reported.
pub proof fn a_click_off_the_panel_is_never_a_touch(
    layout: BezelLayout,
    window_point: Point,
    panel_point: Option<Point>,
)
    requires
        !layout.holds(window_point),
    ensures
        !(hit_of(Some(layout), window_point, panel_point) is Panel),
{
}

} // verus!
