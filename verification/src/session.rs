//! Which board the window is showing, and changing it without restarting.
//!
//! The window cannot resize, so it is opened once, big enough for the largest
//! board any key can reach, and every smaller one is letterboxed into the
//! middle of it. How far zoom may go, where the device sits, which board's
//! backend is on: all of it is decided here, so the painter and the event loop
//! measure against one set of numbers.

use vstd::prelude::*;

use crate::controls::Control;
use crate::device::{trunc_div, Board, Point};
use crate::layout::{fits, scaled_by, BezelLayout};
use crate::panel::{default_scale, measurable, window_fits, window_of, window_ok, Panel};

verus! {

/// The most window pixels one panel pixel may occupy. The window is what
/// actually limits zoom; this binds only on the small panels.
pub const MAX_ZOOM: u32 = 6;

/// How much of the window `board` fills at `scale`: the body when it is shown,
/// and the bare panel when it is not.
pub open spec fn shown_of(board: Board, scale: u32, body: bool) -> (int, int) {
    if body {
        window_of(board, scale)
    } else {
        (scaled_by(board.width, scale), scaled_by(board.height, scale))
    }
}

/// Whether `size` fits inside `window`.
pub open spec fn fits_in(size: (int, int), window: (i32, i32)) -> bool {
    size.0 <= window.0 && size.1 <= window.1
}

/// The largest scale from `s` down whose device fits `window`, or 1.
pub open spec fn ceiling_from(board: Board, body: bool, window: (i32, i32), s: u32) -> u32
    decreases s,
{
    if s <= 1 {
        1
    } else if fits_in(shown_of(board, s, body), window) {
        s
    } else {
        ceiling_from(board, body, window, (s - 1) as u32)
    }
}

/// The largest scale `board` may be shown at in `window`.
pub open spec fn zoom_ceiling(board: Board, body: bool, window: (i32, i32)) -> u32 {
    ceiling_from(board, body, window, MAX_ZOOM)
}

/// The zoom a session opens at for a requested `scale`: above six opens at
/// six, and zero at one.
pub open spec fn opening_zoom(scale: u32) -> u32 {
    if scale < 1 {
        1
    } else if scale > MAX_ZOOM {
        MAX_ZOOM
    } else {
        scale
    }
}

/// The zoom a session opens at for a requested `scale`.
pub fn opening_zoom_for(scale: u32) -> (z: u32)
    ensures
        z == opening_zoom(scale),
{
    if scale < 1 {
        1
    } else if scale > MAX_ZOOM {
        MAX_ZOOM
    } else {
        scale
    }
}

/// Whether every number `board` needs at any zoom is one an `i32` holds.
pub open spec fn roomy(board: Board) -> bool {
    forall|s: u32| 1 <= s <= MAX_ZOOM ==> #[trigger] window_ok(board, s)
}

/// Whether every number `board` needs at any zoom is one an `i32` holds,
/// scale by scale.
pub fn fits_every_zoom(board: Board) -> (r: bool)
    ensures
        r == roomy(board),
{
    let mut s: u32 = 1;
    while s <= MAX_ZOOM
        invariant
            1 <= s <= MAX_ZOOM + 1,
            forall|t: u32| 1 <= t < s ==> #[trigger] window_ok(board, t),
        decreases MAX_ZOOM + 1 - s,
    {
        if !window_fits(board, s) {
            return false;
        }
        s = s + 1;
    }
    true
}

/// The larger of two.
pub open spec fn larger(a: int, b: int) -> int {
    if a >= b {
        a
    } else {
        b
    }
}

/// The window that holds `start` and every board of `boards` at its own
/// default scale.
pub open spec fn reach(boards: Seq<Board>, start: (int, int)) -> (int, int)
    decreases boards.len(),
{
    if boards.len() == 0 {
        start
    } else {
        let before = reach(boards.drop_last(), start);
        let w = window_of(boards.last(), default_scale(boards.last()));
        (larger(before.0, w.0), larger(before.1, w.1))
    }
}

/// How many of `flags` are set.
pub open spec fn count_set(flags: Seq<bool>) -> nat
    decreases flags.len(),
{
    if flags.len() == 0 {
        0
    } else {
        count_set(flags.drop_last()) + if flags.last() {
            1nat
        } else {
            0nat
        }
    }
}

/// The board index after `control`, in a cycle of `n`.
pub open spec fn index_after(index: int, n: int, control: Control) -> int {
    match control {
        Control::NextBoard => (index + 1) % n,
        Control::PreviousBoard => (index + n - 1) % n,
        _ => index,
    }
}

/// The scale after `control`, before it is clamped.
pub open spec fn zoom_after(scale: u32, control: Control) -> int {
    match control {
        Control::ZoomIn => scale + 1,
        Control::ZoomOut => if scale == 0 {
            0
        } else {
            scale - 1
        },
        _ => scale as int,
    }
}

/// `v` brought inside `[low, high]`.
pub open spec fn clamped(v: int, low: int, high: int) -> int {
    if v < low {
        low
    } else if v > high {
        high
    } else {
        v
    }
}

/// What the window is showing, and everything that can change about it.
pub struct Session {
    /// Every board the board keys cycle through, in order.
    boards: Vec<Board>,
    /// Whether each board's backend has been built, which is the first time
    /// that board was shown.
    panels: Vec<bool>,
    /// How many backends have been built.
    built: usize,
    index: usize,
    scale: u32,
    /// Whether the device body is drawn around the panel.
    body: bool,
    /// The window, fixed when it was opened.
    window: (i32, i32),
}

impl Session {
    /// The cycle the board keys walk.
    pub closed spec fn cycle(self) -> Seq<Board> {
        self.boards@
    }

    /// Which board of the cycle is on screen.
    pub closed spec fn at(self) -> int {
        self.index as int
    }

    /// How many window pixels one panel pixel occupies.
    pub closed spec fn zoom(self) -> u32 {
        self.scale
    }

    /// Whether the body is drawn.
    pub closed spec fn with_body(self) -> bool {
        self.body
    }

    /// The fixed window.
    pub closed spec fn frame(self) -> (i32, i32) {
        self.window
    }

    /// Which boards have had their backend built.
    pub closed spec fn built_for(self) -> Seq<bool> {
        self.panels@
    }

    /// How many backends have been built.
    pub closed spec fn built_count(self) -> nat {
        self.built as nat
    }

    /// The board on screen.
    pub open spec fn on_screen(self) -> Board {
        self.cycle()[self.at()]
    }

    #[verifier::type_invariant]
    spec fn inv(self) -> bool {
        &&& self.boards@.len() > 0
        &&& self.index < self.boards@.len()
        &&& self.panels@.len() == self.boards@.len()
        &&& forall|i: int| 0 <= i < self.boards@.len() ==> roomy(#[trigger] self.boards@[i])
        &&& window_ok(self.boards@[self.index as int], self.scale)
        &&& 1 <= self.scale <= MAX_ZOOM
        &&& self.panels@[self.index as int]
        &&& self.built as nat == count_set(self.panels@)
    }

    /// Opens on `panel`, and builds the backend behind it. The cycle is that
    /// one board.
    pub fn new(panel: Panel) -> (s: Session)
        requires
            roomy(panel.board),
            window_ok(panel.board, panel.scale),
        ensures
            s.cycle().len() == 1,
            crate::device::same_board(s.cycle()[0], panel.board),
            s.at() == 0,
            s.zoom() == opening_zoom(panel.scale),
            s.with_body(),
            s.built_count() == 1,
    {
        let boards = [panel.board];
        Session::cycling(panel, &boards)
    }

    /// Opens on `panel`, with `boards` as the cycle the board keys walk.
    ///
    /// The panel's own board joins the end of the cycle when the list does not
    /// hold it, rather than being lost to the first press of B.
    pub fn cycling(panel: Panel, boards: &[Board]) -> (s: Session)
        requires
            roomy(panel.board),
            window_ok(panel.board, panel.scale),
            forall|i: int| 0 <= i < boards@.len() ==> roomy(#[trigger] boards@[i]),
            boards@.len() < usize::MAX,
        ensures
            match first_same(boards@, panel.board, 0) {
                Some(i) => s.cycle() == boards@ && s.at() == i,
                None => s.cycle() == boards@.push(panel.board) && s.at() == boards@.len(),
            },
            s.zoom() == opening_zoom(panel.scale),
            s.with_body(),
            s.frame().0 == reach(s.cycle(), window_of(panel.board, panel.scale)).0,
            s.frame().1 == reach(s.cycle(), window_of(panel.board, panel.scale)).1,
            s.built_count() == 1,
            forall|i: int| 0 <= i < s.cycle().len() ==> (#[trigger] s.built_for()[i] <==> i == s.at()),
    {
        let mut list: Vec<Board> = Vec::new();
        let mut i: usize = 0;
        while i < boards.len()
            invariant
                i <= boards@.len(),
                list@ == boards@.subrange(0, i as int),
            decreases boards@.len() - i,
        {
            list.push(boards[i]);
            i = i + 1;
        }
        assert(list@ =~= boards@);
        let index = match position_of(&list, &panel.board) {
            Some(index) => index,
            None => {
                list.push(panel.board);
                list.len() - 1
            },
        };
        assert(forall|i: int| 0 <= i < list@.len() ==> roomy(#[trigger] list@[i]));
        let zoom = opening_zoom_for(panel.scale);
        assert(window_ok(panel.board, zoom));
        let window = window_for(&list, panel);
        let mut panels: Vec<bool> = Vec::new();
        let mut j: usize = 0;
        while j < list.len()
            invariant
                j <= list@.len(),
                panels@.len() == j,
                index < list@.len(),
                forall|k: int| 0 <= k < j ==> (#[trigger] panels@[k] <==> k == index),
                count_set(panels@) == if index < j {
                    1nat
                } else {
                    0nat
                },
            decreases list@.len() - j,
        {
            let flag = j == index;
            proof {
                assert(panels@.push(flag).drop_last() =~= panels@);
            }
            panels.push(flag);
            j = j + 1;
        }
        proof {
            if let Some(k) = first_same(boards@, panel.board, 0) {
                lemma_first_same(boards@, panel.board, 0);
                lemma_same_board_window(boards@[k], panel.board, zoom);
            }
        }
        Session { boards: list, panels, built: 1, index, scale: zoom, body: true, window }
    }

    /// The cycle the board keys walk, in order.
    pub fn boards(&self) -> (b: &[Board])
        ensures
            b@ == self.cycle(),
    {
        self.boards.as_slice()
    }

    /// The board on screen.
    pub fn board(&self) -> (b: Board)
        ensures
            b == self.on_screen(),
    {
        proof {
            use_type_invariant(self);
        }
        self.boards[self.index]
    }

    /// How many window pixels one panel pixel occupies.
    pub fn scale(&self) -> (s: u32)
        ensures
            s == self.zoom(),
            1 <= s <= MAX_ZOOM,
    {
        proof {
            use_type_invariant(self);
        }
        self.scale
    }

    /// Whether the device body is being drawn.
    pub fn body_shown(&self) -> (b: bool)
        ensures
            b == self.with_body(),
    {
        self.body
    }

    /// How many backends have been built: one per board shown, however often.
    pub fn backends_built(&self) -> (n: usize)
        ensures
            n == self.built_count(),
            n <= self.cycle().len(),
    {
        proof {
            use_type_invariant(self);
            lemma_count_set_bound(self.panels@);
        }
        self.built
    }

    /// The window, fixed for the whole session.
    pub fn window_size(&self) -> (w: (i32, i32))
        ensures
            w == self.frame(),
    {
        self.window
    }

    /// How much of the window the device fills: the body when it is shown, and
    /// the bare panel when it is not.
    pub fn shown_size(&self) -> (s: (i32, i32))
        ensures
            s.0 == shown_of(self.on_screen(), self.zoom(), self.with_body()).0,
            s.1 == shown_of(self.on_screen(), self.zoom(), self.with_body()).1,
    {
        proof {
            use_type_invariant(self);
        }
        shown(self.boards[self.index], self.scale, self.body)
    }

    /// Where the device's top-left corner sits, centred in the fixed window.
    pub fn origin(&self) -> (p: Point)
        ensures
            p.x == trunc_div(self.frame().0 - shown_of(self.on_screen(), self.zoom(), self.with_body()).0, 2),
            p.y == trunc_div(self.frame().1 - shown_of(self.on_screen(), self.zoom(), self.with_body()).1, 2),
    {
        let (width, height) = self.shown_size();
        let x = halve64(self.window.0 as i64 - width as i64);
        let y = halve64(self.window.1 as i64 - height as i64);
        Point { x: x as i32, y: y as i32 }
    }

    /// The body around the panel as it is placed in the window, or `None`
    /// when this board has no body or the body is hidden.
    pub open spec fn layout_of(self) -> Option<BezelLayout> {
        if !self.with_body() {
            None
        } else {
            match self.on_screen().bezel {
                Some(b) => Some(
                    BezelLayout::placed(
                        b,
                        (
                            scaled_by(self.on_screen().width, self.zoom()) as i32,
                            scaled_by(self.on_screen().height, self.zoom()) as i32,
                        ),
                        Point::new_spec(
                            trunc_div(self.frame().0 - shown_of(self.on_screen(), self.zoom(), true).0, 2) as i32,
                            trunc_div(self.frame().1 - shown_of(self.on_screen(), self.zoom(), true).1, 2) as i32,
                        ),
                    ),
                ),
                None => None,
            }
        }
    }

    /// The body around the panel, placed in the window, or `None` when this
    /// board has no body or the body is hidden.
    pub fn layout(&self) -> (l: Option<BezelLayout>)
        ensures
            l == self.layout_of(),
            match l {
                Some(layout) => {
                    &&& self.with_body()
                    &&& self.on_screen().bezel == Some(layout.device())
                    &&& layout.panel_pixels().0 == scaled_by(self.on_screen().width, self.zoom())
                    &&& layout.panel_pixels().1 == scaled_by(self.on_screen().height, self.zoom())
                    &&& layout.corner().x == trunc_div(self.frame().0 - shown_of(self.on_screen(), self.zoom(), true).0, 2)
                    &&& layout.corner().y == trunc_div(self.frame().1 - shown_of(self.on_screen(), self.zoom(), true).1, 2)
                },
                None => !self.with_body() || self.on_screen().bezel is None,
            },
    {
        proof {
            use_type_invariant(self);
        }
        if !self.body {
            return None;
        }
        let board = self.board();
        match board.bezel {
            Some(bezel) => {
                let l = BezelLayout::new(bezel, board.width, board.height, self.scale).at(self.origin());
                proof {
                    BezelLayout::lemma_placed(l);
                }
                Some(l)
            },
            None => None,
        }
    }

    /// Whether [`Session::panel_offset`] can be asked for: the panel's corner
    /// on the body has a window pixel an `i32` holds, when the body is drawn.
    pub fn can_offset(&self) -> (r: bool)
        ensures
            r == match self.layout_of() {
                Some(l) => l.maps(l.device().panel_origin),
                None => true,
            },
    {
        match self.layout() {
            Some(l) => l.can_map(l.bezel().panel_origin),
            None => true,
        }
    }

    /// Where the panel's top-left corner sits in the window: inset into the
    /// body when the body is drawn, and the device's own corner when it is not.
    pub fn panel_offset(&self) -> (p: Point)
        requires
            match self.layout_of() {
                Some(l) => l.maps(l.device().panel_origin),
                None => true,
            },
        ensures
            match self.layout_of() {
                Some(l) => p.x == l.window_point(l.device().panel_origin).0 && p.y == l.window_point(
                    l.device().panel_origin,
                ).1,
                None => {
                    &&& p.x == trunc_div(self.frame().0 - shown_of(self.on_screen(), self.zoom(), self.with_body()).0, 2)
                    &&& p.y == trunc_div(self.frame().1 - shown_of(self.on_screen(), self.zoom(), self.with_body()).1, 2)
                },
            },
    {
        match self.layout() {
            Some(l) => l.panel_offset(),
            None => self.origin(),
        }
    }

    /// What applying `control` may do: the session it leaves and whether the
    /// window has to be redrawn.
    pub open spec fn applied(self, after: Session, control: Control, changed: bool) -> bool {
        &&& (after.cycle() == self.cycle())
        &&& (after.frame() == self.frame())
        &&& (control == Control::Screenshot ==> {
            &&& !changed
            &&& after.at() == self.at()
            &&& after.zoom() == self.zoom()
            &&& after.with_body() == self.with_body()
            &&& after.built_for() == self.built_for()
            &&& after.built_count() == self.built_count()
        })
        &&& (control != Control::Screenshot ==> {
            let n = self.cycle().len() as int;
            let i = index_after(self.at(), n, control);
            let b = if control == Control::ToggleBody {
                !self.with_body()
            } else {
                self.with_body()
            };
            let top = zoom_ceiling(self.cycle()[i], b, self.frame());
            &&& after.at() == i
            &&& after.with_body() == b
            &&& after.zoom() == clamped(zoom_after(self.zoom(), control), 1, top as int)
            &&& changed == (after.at() != self.at() || after.zoom()
                != self.zoom() || after.with_body() != self.with_body())
            &&& after.built_for() == self.built_for().update(i, true)
            &&& after.built_count() == self.built_count() + if self.built_for()[i] {
                0nat
            } else {
                1nat
            }
        })
    }

    /// Applies a control, and answers whether the window has to be redrawn.
    ///
    /// `false` means the key changed nothing, so the caller can skip a repaint
    /// rather than flashing the panel for nothing. The scale is clamped after
    /// every control: a board with a larger body may not fit the scale the last
    /// one was at, and showing the body again costs the room its shell takes.
    pub fn apply(&mut self, control: Control) -> (changed: bool)
        ensures
            old(self).applied(*final(self), control, changed),
            0 <= old(self).at() < old(self).cycle().len(),
            0 <= final(self).at() < final(self).cycle().len(),
            1 <= old(self).zoom() <= MAX_ZOOM,
            1 <= final(self).zoom() <= MAX_ZOOM,
    {
        proof {
            use_type_invariant(&*self);
        }
        if control == Control::Screenshot {
            return false;
        }
        let n = self.boards.len();
        let index = match control {
            Control::NextBoard => (self.index + 1) % n,
            Control::PreviousBoard => if self.index == 0 {
                n - 1
            } else {
                self.index - 1
            },
            _ => self.index,
        };
        proof {
            if control == Control::PreviousBoard {
                if self.index == 0 {
                    vstd::arithmetic::div_mod::lemma_small_mod((n - 1) as nat, n as nat);
                } else {
                    vstd::arithmetic::div_mod::lemma_mod_add_multiples_vanish(self.index - 1, n as int);
                    vstd::arithmetic::div_mod::lemma_small_mod((self.index - 1) as nat, n as nat);
                }
            }
        }
        let body = if control == Control::ToggleBody {
            !self.body
        } else {
            self.body
        };
        let raised: u32 = match control {
            Control::ZoomIn => self.scale + 1,
            Control::ZoomOut => self.scale.saturating_sub(1),
            _ => self.scale,
        };
        let board = self.boards[index];
        let top = ceiling(board, body, self.window);
        let scale = if raised < 1 {
            1
        } else if raised > top {
            top
        } else {
            raised
        };
        let changed = index != self.index || scale != self.scale || body != self.body;
        let mut panels = self.panels.clone();
        let mut built = self.built;
        proof {
            lemma_count_set_bound(self.panels@);
            lemma_count_set_update(self.panels@, index as int);
            lemma_count_set_bound(self.panels@.update(index as int, true));
        }
        if !panels[index] {
            built = built + 1;
            panels.set(index, true);
        } else {
            assert(panels@.update(index as int, true) =~= panels@);
        }
        let boards = self.boards.clone();
        proof {
            assert(boards@ =~= self.boards@);
        }
        *self = Session { boards, panels, built, index, scale, body, window: self.window };
        changed
    }

    /// The largest scale this board may be shown at: the largest whose window
    /// still fits the one that was opened, read against what is shown now.
    pub fn ceiling(&self) -> (c: u32)
        ensures
            c == zoom_ceiling(self.on_screen(), self.with_body(), self.frame()),
    {
        proof {
            use_type_invariant(self);
        }
        ceiling(self.boards[self.index], self.body, self.window)
    }
}

/// Half of `v`, truncated towards zero.
fn halve64(v: i64) -> (h: i64)
    requires
        -0x1_0000_0000_0000 < v < 0x1_0000_0000_0000,
    ensures
        h == trunc_div(v as int, 2),
        -0x8000_0000_0000 < h < 0x8000_0000_0000,
{
    if v >= 0 {
        v / 2
    } else {
        -((-v) / 2)
    }
}

/// The index of the first board in `boards[from..]` that describes the same
/// device as `board`.
pub open spec fn first_same(boards: Seq<Board>, board: Board, from: int) -> Option<int>
    decreases boards.len() - from,
{
    if from < 0 || from >= boards.len() {
        None
    } else if crate::device::same_board(boards[from], board) {
        Some(from)
    } else {
        first_same(boards, board, from + 1)
    }
}

fn position_of(boards: &Vec<Board>, board: &Board) -> (i: Option<usize>)
    ensures
        match i {
            Some(k) => first_same(boards@, *board, 0) == Some(k as int) && k < boards@.len(),
            None => first_same(boards@, *board, 0) is None,
        },
{
    let mut k: usize = 0;
    while k < boards.len()
        invariant
            k <= boards@.len(),
            first_same(boards@, *board, 0) == first_same(boards@, *board, k as int),
        decreases boards@.len() - k,
    {
        if boards[k].same(board) {
            return Some(k);
        }
        k = k + 1;
    }
    None
}

/// How much of the window `board` fills at `scale`.
fn shown(board: Board, scale: u32, body: bool) -> (s: (i32, i32))
    requires
        window_ok(board, scale),
    ensures
        s.0 == shown_of(board, scale, body).0,
        s.1 == shown_of(board, scale, body).1,
{
    if body {
        Panel::window_for(board, scale)
    } else {
        (board.width * scale as i32, board.height * scale as i32)
    }
}

/// The largest scale `board` may be shown at in `window`.
fn ceiling(board: Board, body: bool, window: (i32, i32)) -> (c: u32)
    requires
        roomy(board),
    ensures
        c == zoom_ceiling(board, body, window),
        1 <= c <= MAX_ZOOM,
{
    let mut scale: u32 = MAX_ZOOM;
    while scale > 1
        invariant
            1 <= scale <= MAX_ZOOM,
            roomy(board),
            ceiling_from(board, body, window, MAX_ZOOM) == ceiling_from(board, body, window, scale),
        ensures
            ceiling_from(board, body, window, MAX_ZOOM) == scale,
            1 <= scale <= MAX_ZOOM,
        decreases scale,
    {
        assert(window_ok(board, scale));
        let (width, height) = shown(board, scale, body);
        if width <= window.0 && height <= window.1 {
            break;
        }
        scale = scale - 1;
    }
    scale
}

/// The window that holds every board this session can reach: the largest
/// each of them opens at its own default scale, and never smaller than the
/// panel the caller asked for.
fn window_for(boards: &Vec<Board>, start: Panel) -> (w: (i32, i32))
    requires
        window_ok(start.board, start.scale),
        forall|i: int| 0 <= i < boards@.len() ==> roomy(#[trigger] boards@[i]),
    ensures
        w.0 == reach(boards@, window_of(start.board, start.scale)).0,
        w.1 == reach(boards@, window_of(start.board, start.scale)).1,
{
    let mut size = start.window_size();
    let mut i: usize = 0;
    while i < boards.len()
        invariant
            i <= boards@.len(),
            forall|k: int| 0 <= k < boards@.len() ==> roomy(#[trigger] boards@[k]),
            size.0 == reach(boards@.subrange(0, i as int), window_of(start.board, start.scale)).0,
            size.1 == reach(boards@.subrange(0, i as int), window_of(start.board, start.scale)).1,
        decreases boards@.len() - i,
    {
        let board = boards[i];
        assert(roomy(board));
        assert(window_ok(board, 1) && window_ok(board, 2) && window_ok(board, 3));
        assert(measurable(board));
        let scale = Panel::scale_for(board);
        assert(window_ok(board, scale));
        let (width, height) = Panel::window_for(board, scale);
        proof {
            assert(boards@.subrange(0, i + 1).drop_last() =~= boards@.subrange(0, i as int));
        }
        size = (if size.0 >= width { size.0 } else { width }, if size.1 >= height { size.1 } else { height });
        i = i + 1;
    }
    assert(boards@.subrange(0, boards@.len() as int) =~= boards@);
    size
}

/// What `first_same` finds is in range and describes the device.
proof fn lemma_first_same(boards: Seq<Board>, board: Board, from: int)
    ensures
        match first_same(boards, board, from) {
            Some(k) => from <= k < boards.len() && crate::device::same_board(boards[k], board),
            None => true,
        },
    decreases boards.len() - from,
{
    if from >= 0 && from < boards.len() && !crate::device::same_board(boards[from], board) {
        lemma_first_same(boards, board, from + 1);
    }
}

/// Two descriptions of the same device open the same window.
proof fn lemma_same_board_window(a: Board, b: Board, scale: u32)
    requires
        crate::device::same_board(a, b),
    ensures
        window_of(a, scale) == window_of(b, scale),
        window_ok(a, scale) == window_ok(b, scale),
{
}

/// No more flags are set than there are flags.
proof fn lemma_count_set_bound(flags: Seq<bool>)
    ensures
        count_set(flags) <= flags.len(),
    decreases flags.len(),
{
    if flags.len() > 0 {
        lemma_count_set_bound(flags.drop_last());
    }
}

/// Setting one flag counts one more, unless it was already set.
proof fn lemma_count_set_update(flags: Seq<bool>, i: int)
    requires
        0 <= i < flags.len(),
    ensures
        count_set(flags.update(i, true)) == count_set(flags) + if flags[i] {
            0nat
        } else {
            1nat
        },
    decreases flags.len(),
{
    if i == flags.len() - 1 {
        assert(flags.update(i, true).drop_last() =~= flags.drop_last());
    } else {
        lemma_count_set_update(flags.drop_last(), i);
        assert(flags.update(i, true).drop_last() =~= flags.drop_last().update(i, true));
    }
}

// -- laws -------------------------------------------------------------------

/// Whether no board appears twice in `boards`.
pub open spec fn distinct_boards(boards: Seq<Board>) -> bool {
    forall|i: int, j: int| 0 <= i < j < boards.len() ==> boards[i] != boards[j]
}

/// A control redraws exactly when it changes what is shown, in a cycle with
/// no board twice: the board key moves to the next board round the cycle or
/// the one before it, the body key flips the body, the window stays the size
/// it is, and a screenshot changes nothing.
pub proof fn a_control_redraws_exactly_when_it_changes_the_screen(
    before: Session,
    after: Session,
    control: Control,
    changed: bool,
)
    requires
        before.applied(after, control, changed),
        0 <= before.at() < before.cycle().len(),
        distinct_boards(before.cycle()),
    ensures
        changed == (after.on_screen() != before.on_screen() || after.zoom() != before.zoom() || after.with_body()
            != before.with_body()),
        after.frame() == before.frame(),
        control == Control::Screenshot ==> !changed,
        control == Control::NextBoard ==> after.on_screen() == before.cycle()[(before.at() + 1) % (
        before.cycle().len() as int)],
        control == Control::PreviousBoard ==> after.on_screen() == before.cycle()[(before.at()
            + before.cycle().len() - 1) % (before.cycle().len() as int)],
        control == Control::ToggleBody ==> after.with_body() == !before.with_body(),
{
    let n = before.cycle().len() as int;
    if control != Control::Screenshot {
        let i = index_after(before.at(), n, control);
        assert(0 <= i < n) by {
            if control == Control::NextBoard || control == Control::PreviousBoard {
                vstd::arithmetic::div_mod::lemma_mod_bound(
                    if control == Control::NextBoard {
                        before.at() + 1
                    } else {
                        before.at() + n - 1
                    },
                    n,
                );
            }
        }
        if after.at() != before.at() {
            if after.at() < before.at() {
                assert(before.cycle()[after.at()] != before.cycle()[before.at()]);
            } else {
                assert(before.cycle()[before.at()] != before.cycle()[after.at()]);
            }
        }
    }
}

/// The two board keys undo each other: the next board and then the previous
/// one is the board you started on, and so is the other order.
pub proof fn the_board_keys_undo_each_other(index: int, n: int)
    requires
        0 <= index < n,
    ensures
        index_after(index_after(index, n, Control::NextBoard), n, Control::PreviousBoard) == index,
        index_after(index_after(index, n, Control::PreviousBoard), n, Control::NextBoard) == index,
{
    let next = (index + 1) % n;
    let prev = (index + n - 1) % n;
    if index + 1 == n {
        assert(next == 0) by {
            vstd::arithmetic::div_mod::lemma_mod_self_0(n);
        }
        assert((n - 1) % n == n - 1) by {
            vstd::arithmetic::div_mod::lemma_small_mod((n - 1) as nat, n as nat);
        }
    } else {
        assert(next == index + 1) by {
            vstd::arithmetic::div_mod::lemma_small_mod((index + 1) as nat, n as nat);
        }
        assert((index + 1 + n - 1) % n == index) by {
            vstd::arithmetic::div_mod::lemma_mod_add_multiples_vanish(index, n);
            vstd::arithmetic::div_mod::lemma_small_mod(index as nat, n as nat);
        }
    }
    if index == 0 {
        assert(prev == n - 1) by {
            vstd::arithmetic::div_mod::lemma_small_mod((n - 1) as nat, n as nat);
        }
        assert((n - 1 + 1) % n == 0) by {
            vstd::arithmetic::div_mod::lemma_mod_self_0(n);
        }
    } else {
        assert(prev == index - 1) by {
            vstd::arithmetic::div_mod::lemma_mod_add_multiples_vanish(index - 1, n);
            vstd::arithmetic::div_mod::lemma_small_mod((index - 1) as nat, n as nat);
        }
        assert((index - 1 + 1) % n == index) by {
            vstd::arithmetic::div_mod::lemma_small_mod(index as nat, n as nat);
        }
    }
}

/// The board on screen after `k` presses of the next-board key.
pub open spec fn after_nexts(index: int, n: int, k: nat) -> int
    decreases k,
{
    if k == 0 {
        index
    } else {
        index_after(after_nexts(index, n, (k - 1) as nat), n, Control::NextBoard)
    }
}

/// A full lap of the cycle comes back to where it started: pressing the
/// next-board key as many times as there are boards shows the same board.
pub proof fn a_full_lap_comes_back(index: int, n: int)
    requires
        0 <= index < n,
    ensures
        after_nexts(index, n, n as nat) == index,
{
    lemma_after_nexts(index, n, n as nat);
    vstd::arithmetic::div_mod::lemma_mod_add_multiples_vanish(index, n);
    vstd::arithmetic::div_mod::lemma_small_mod(index as nat, n as nat);
}

proof fn lemma_after_nexts(index: int, n: int, k: nat)
    requires
        0 <= index < n,
    ensures
        after_nexts(index, n, k) == (index + k) % n,
    decreases k,
{
    if k == 0 {
        vstd::arithmetic::div_mod::lemma_small_mod(index as nat, n as nat);
    } else {
        lemma_after_nexts(index, n, (k - 1) as nat);
        vstd::arithmetic::div_mod::lemma_add_mod_noop(index + k - 1, 1, n);
        if n == 1 {
            assert(1int % 1int == 0);
        } else {
            vstd::arithmetic::div_mod::lemma_small_mod(1, n as nat);
        }
        vstd::arithmetic::div_mod::lemma_mod_twice(index + k - 1, n);
    }
}

/// Nothing ever outgrows the window: the zoom ceiling is a scale whose device
/// fits the window, or life size when nothing larger does.
pub proof fn nothing_outgrows_the_window(board: Board, body: bool, window: (i32, i32))
    ensures
        1 <= zoom_ceiling(board, body, window) <= MAX_ZOOM,
        zoom_ceiling(board, body, window) == 1 || fits_in(
            shown_of(board, zoom_ceiling(board, body, window), body),
            window,
        ),
{
    lemma_ceiling_from(board, body, window, MAX_ZOOM);
}

proof fn lemma_ceiling_from(board: Board, body: bool, window: (i32, i32), s: u32)
    ensures
        1 <= ceiling_from(board, body, window, s) <= if s < 1 {
            1
        } else {
            s
        },
        ceiling_from(board, body, window, s) == 1 || fits_in(
            shown_of(board, ceiling_from(board, body, window, s), body),
            window,
        ),
    decreases s,
{
    if s > 1 && !fits_in(shown_of(board, s, body), window) {
        lemma_ceiling_from(board, body, window, (s - 1) as u32);
    }
}

/// Zoom stays between life size and the ceiling: after any control but a
/// screenshot, the scale is at least 1 and at most what the window allows.
pub proof fn zoom_is_clamped_at_both_ends(scale: int, board: Board, body: bool, window: (i32, i32))
    ensures
        1 <= clamped(scale, 1, zoom_ceiling(board, body, window) as int) <= zoom_ceiling(
            board,
            body,
            window,
        ),
{
    lemma_ceiling_from(board, body, window, MAX_ZOOM);
}

/// Zoom and the body key do not change the board: only the board keys move
/// through the cycle, so a screen is never re-laid-out for a zoom.
pub proof fn only_the_board_keys_change_the_board(before: Session, after: Session, control: Control, changed: bool)
    requires
        before.applied(after, control, changed),
        control != Control::NextBoard,
        control != Control::PreviousBoard,
    ensures
        after.at() == before.at(),
        after.cycle() == before.cycle(),
{
    if control != Control::Screenshot {
        assert(index_after(before.at(), before.cycle().len() as int, control) == before.at());
    }
}

/// The window never resizes: whatever control is applied, the window the
/// session was opened with is the window it keeps.
pub proof fn the_window_never_resizes(before: Session, after: Session, control: Control, changed: bool)
    requires
        before.applied(after, control, changed),
    ensures
        after.frame() == before.frame(),
{
}

} // verus!
