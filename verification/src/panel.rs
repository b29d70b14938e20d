//! The panel to simulate, and how big a window it needs.

use vstd::prelude::*;

use crate::device::Board;
use crate::layout::{body_pixels, divide, fits, lemma_product_bound, scaled_by, BezelLayout};

verus! {

/// The widest window a board opens at its default scale.
pub const MAX_WIDTH: i32 = 1200;

/// The tallest window a board opens at its default scale.
pub const MAX_HEIGHT: i32 = 900;

/// The largest default scale.
pub const MAX_SCALE: u32 = 3;

/// The whole window `board` would open at `scale`: the body when the board has
/// described one, and the panel when it has not.
pub open spec fn window_of(board: Board, scale: u32) -> (int, int) {
    match board.bezel {
        Some(bezel) => body_pixels(bezel, board.width, board.height, scale),
        None => (scaled_by(board.width, scale), scaled_by(board.height, scale)),
    }
}

/// Whether every number in `board`'s window at `scale` is one an `i32` holds.
pub open spec fn window_ok(board: Board, scale: u32) -> bool {
    &&& fits(scaled_by(board.width, scale))
    &&& fits(scaled_by(board.height, scale))
    &&& fits(window_of(board, scale).0)
    &&& fits(window_of(board, scale).1)
}

/// Whether `board`'s window at `scale` fits a modest display.
pub open spec fn within_budget(board: Board, scale: u32) -> bool {
    window_of(board, scale).0 <= MAX_WIDTH && window_of(board, scale).1 <= MAX_HEIGHT
}

/// The largest whole scale, three at most, whose window still fits a modest
/// display; life size when none does.
pub open spec fn default_scale(board: Board) -> u32 {
    if within_budget(board, 3) {
        3
    } else if within_budget(board, 2) {
        2
    } else {
        1
    }
}

/// Whether `board` can be measured at every default scale.
pub open spec fn measurable(board: Board) -> bool {
    window_ok(board, 1) && window_ok(board, 2) && window_ok(board, 3)
}

/// Whether every number in `board`'s window at `scale` is one an `i32` holds:
/// the panel scaled, and the body round it when there is one.
pub fn window_fits(board: Board, scale: u32) -> (r: bool)
    ensures
        r == window_ok(board, scale),
{
    let s = #[verifier::truncate] (scale as i32);
    proof {
        lemma_product_bound(board.width as int, s as int);
        lemma_product_bound(board.height as int, s as int);
    }
    let w = board.width as i64 * s as i64;
    let h = board.height as i64 * s as i64;
    let within = |v: i64| -> (b: bool)
        ensures
            b == fits(v as int),
        { -0x8000_0000i64 <= v && v <= 0x7FFF_FFFFi64 };
    if !within(w) || !within(h) {
        return false;
    }
    match board.bezel {
        Some(bezel) => {
            proof {
                lemma_product_bound(bezel.body.0 as int, w as int);
                lemma_product_bound(bezel.body.1 as int, h as int);
            }
            let bw = divide(bezel.body.0 as i64 * w, bezel.panel_size.0 as i64);
            let bh = divide(bezel.body.1 as i64 * h, bezel.panel_size.1 as i64);
            within(bw) && within(bh)
        },
        None => true,
    }
}

/// The panel to simulate.
#[derive(Copy, Clone, Debug)]
pub struct Panel {
    /// The panel's width in pixels.
    pub width: i32,
    /// The panel's height in pixels.
    pub height: i32,
    /// How many window pixels one panel pixel occupies.
    pub scale: u32,
    /// The device being simulated, carried whole.
    pub board: Board,
}

impl Panel {
    /// The panel a [`Board`] has, scaled up when it is small.
    pub fn of(board: Board) -> (p: Panel)
        requires
            measurable(board),
        ensures
            p.width == board.width,
            p.height == board.height,
            p.scale == default_scale(board),
            p.board == board,
    {
        Panel { width: board.width, height: board.height, scale: Panel::scale_for(board), board }
    }

    /// The largest whole scale whose window still fits a modest display.
    ///
    /// The window, which is the body when the board has described one and the
    /// panel when it has not. Both dimensions matter.
    pub fn scale_for(board: Board) -> (s: u32)
        requires
            measurable(board),
        ensures
            s == default_scale(board),
            1 <= s <= MAX_SCALE,
    {
        let mut scale: u32 = MAX_SCALE;
        while scale > 1
            invariant
                1 <= scale <= 3,
                measurable(board),
                forall|t: u32| scale < t <= 3 ==> !within_budget(board, t),
            ensures
                1 <= scale <= 3,
                forall|t: u32| scale < t <= 3 ==> !within_budget(board, t),
                scale == 1 || within_budget(board, scale),
            decreases scale,
        {
            let (width, height) = Panel::window_for(board, scale);
            if width <= MAX_WIDTH && height <= MAX_HEIGHT {
                break;
            }
            scale = scale - 1;
        }
        scale
    }

    /// The same panel at another scale.
    pub fn scaled(self, scale: u32) -> (p: Panel)
        ensures
            p == (Panel { scale, ..self }),
    {
        let mut p = self;
        p.scale = scale;
        p
    }

    /// The whole window `board` would open at `scale`.
    pub fn window_for(board: Board, scale: u32) -> (w: (i32, i32))
        requires
            window_ok(board, scale),
        ensures
            w.0 == window_of(board, scale).0,
            w.1 == window_of(board, scale).1,
    {
        match board.bezel {
            Some(bezel) => BezelLayout::new(bezel, board.width, board.height, scale).window_size(),
            None => (board.width * scale as i32, board.height * scale as i32),
        }
    }

    /// The window this panel opens: the whole body when the board has one, and
    /// the panel itself when it has not.
    pub fn window_size(&self) -> (w: (i32, i32))
        requires
            window_ok(self.board, self.scale),
        ensures
            w.0 == window_of(self.board, self.scale).0,
            w.1 == window_of(self.board, self.scale).1,
    {
        Panel::window_for(self.board, self.scale)
    }

    /// The panel's own size in window pixels, before any body is drawn round
    /// it.
    pub fn size_in_window(&self) -> (s: (i32, i32))
        requires
            fits(scaled_by(self.width, self.scale)),
            fits(scaled_by(self.height, self.scale)),
        ensures
            s.0 == scaled_by(self.width, self.scale),
            s.1 == scaled_by(self.height, self.scale),
    {
        (self.width * self.scale as i32, self.height * self.scale as i32)
    }
}

/// Panel::of never opens a window past the budget unless even life size is
/// past it: the scale it picks fits, or is 1.
pub proof fn the_default_scale_fits_a_modest_display(board: Board)
    ensures
        default_scale(board) == 1 || within_budget(board, default_scale(board)),
        1 <= default_scale(board) <= MAX_SCALE,
        forall|s: u32| default_scale(board) < s <= MAX_SCALE ==> !within_budget(board, s),
{
}

} // verus!
