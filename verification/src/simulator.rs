//! What a simulator is told before it runs: the panel it opens on, the
//! boards the board keys cycle through, the window's title, how many frames
//! to run, and the keys that read meaning into presses.

use vstd::prelude::*;

use crate::device::Board;
use crate::panel::{window_fits, window_ok, Panel};
use crate::press::{Keys, Raw};
use crate::session::{fits_every_zoom, opening_zoom, roomy, Session};

verus! {

/// A window, a backend, and the loop between them, as configured.
pub struct Simulator<K: Keys> {
    panel: Panel,
    boards: Vec<Board>,
    title: String,
    max_frames: Option<u32>,
    keys: K,
}

impl Simulator<Raw> {
    /// A simulator on `panel`: its board is the whole cycle, the title is
    /// `xpui`, it runs until the window closes, and presses arrive raw.
    pub fn new(panel: Panel) -> (s: Simulator<Raw>)
        ensures
            s.opened_on() == panel,
            s.cycle() == seq![panel.board],
            s.named() == "xpui"@,
            s.stops_after() is None,
    {
        Simulator { panel, boards: vec![panel.board], title: String::from_str("xpui"), max_frames: None, keys: Raw }
    }
}

impl<K: Keys> Simulator<K> {
    /// The panel it opens on.
    pub closed spec fn opened_on(self) -> Panel {
        self.panel
    }

    /// The boards the board keys cycle through, in order.
    pub closed spec fn cycle(self) -> Seq<Board> {
        self.boards@
    }

    /// The window's title.
    pub closed spec fn named(self) -> Seq<char> {
        self.title@
    }

    /// How many frames it runs, if it stops on its own.
    pub closed spec fn stops_after(self) -> Option<u32> {
        self.max_frames
    }

    /// The keys reading presses.
    pub closed spec fn reader(self) -> K {
        self.keys
    }

    /// The boards the board keys cycle through, in order. Unset, the cycle is
    /// the one board the panel was opened on.
    pub fn boards(self, boards: &[Board]) -> (s: Simulator<K>)
        ensures
            s.cycle() == boards@,
            s.opened_on() == self.opened_on(),
            s.named() == self.named(),
            s.stops_after() == self.stops_after(),
            s.reader() == self.reader(),
    {
        let mut list: Vec<Board> = Vec::new();
        let mut i: usize = 0;
        while i < boards.len()
            invariant
                i <= boards@.len(),
                list@ == boards@.subrange(0, i as int),
            decreases boards@.len() - i,
        {
            list.push(boards[i]);
            i = i + 1;
        }
        assert(list@ =~= boards@);
        Simulator { boards: list, ..self }
    }

    /// The window's title.
    pub fn title(self, title: &str) -> (s: Simulator<K>)
        ensures
            s.named() == title@,
            s.cycle() == self.cycle(),
            s.opened_on() == self.opened_on(),
            s.stops_after() == self.stops_after(),
            s.reader() == self.reader(),
    {
        Simulator { title: title.to_string(), ..self }
    }

    /// Reads meaning into presses before the framework sees them.
    pub fn keys<J: Keys>(self, keys: J) -> (s: Simulator<J>)
        ensures
            s.reader() == keys,
            s.cycle() == self.cycle(),
            s.opened_on() == self.opened_on(),
            s.named() == self.named(),
            s.stops_after() == self.stops_after(),
    {
        Simulator {
            panel: self.panel,
            boards: self.boards,
            title: self.title,
            max_frames: self.max_frames,
            keys,
        }
    }

    /// Stops after `frames` frames instead of waiting for the window to close.
    pub fn frames(self, frames: u32) -> (s: Simulator<K>)
        ensures
            s.stops_after() == Some(frames),
            s.cycle() == self.cycle(),
            s.opened_on() == self.opened_on(),
            s.named() == self.named(),
            s.reader() == self.reader(),
    {
        Simulator { max_frames: Some(frames), ..self }
    }

    /// The panel it opens on.
    pub fn panel(&self) -> (p: Panel)
        ensures
            p == self.opened_on(),
    {
        self.panel
    }

    /// The cycle, as it was given.
    pub fn listed(&self) -> (b: &[Board])
        ensures
            b@ == self.cycle(),
    {
        self.boards.as_slice()
    }

    /// The window's title.
    pub fn name(&self) -> (t: &str)
        ensures
            t@ == self.named(),
    {
        self.title.as_str()
    }

    /// How many frames it runs, if it stops on its own.
    pub fn frame_limit(&self) -> (n: Option<u32>)
        ensures
            n == self.stops_after(),
    {
        self.max_frames
    }

    /// Gives up the keys, for the loop that runs them.
    pub fn into_keys(self) -> (k: K)
        ensures
            k == self.reader(),
    {
        self.keys
    }

    /// Whether [`Simulator::session`] can be asked for: the board it opens on
    /// and every board in the cycle measure at every zoom, the board it opens
    /// on at the scale asked for too, and the cycle has room for that board.
    pub fn can_open(&self) -> (r: bool)
        ensures
            r == (roomy(self.opened_on().board) && window_ok(self.opened_on().board, self.opened_on().scale)
                && (forall|i: int| 0 <= i < self.cycle().len() ==> roomy(#[trigger] self.cycle()[i]))
                && self.cycle().len() < usize::MAX),
    {
        if !fits_every_zoom(self.panel.board) || !window_fits(self.panel.board, self.panel.scale) {
            return false;
        }
        if self.boards.len() == usize::MAX {
            return false;
        }
        let mut i: usize = 0;
        while i < self.boards.len()
            invariant
                i <= self.boards@.len(),
                forall|j: int| 0 <= j < i ==> roomy(#[trigger] self.boards@[j]),
            decreases self.boards@.len() - i,
        {
            if !fits_every_zoom(self.boards[i]) {
                return false;
            }
            i = i + 1;
        }
        true
    }

    /// The [`Session`] the loop will drive: everything the builder was told,
    /// resolved into the thing that answers key presses.
    pub fn session(&self) -> (s: Session)
        requires
            roomy(self.opened_on().board),
            window_ok(self.opened_on().board, self.opened_on().scale),
            forall|i: int| 0 <= i < self.cycle().len() ==> roomy(#[trigger] self.cycle()[i]),
            self.cycle().len() < usize::MAX,
        ensures
            match crate::session::first_same(self.cycle(), self.opened_on().board, 0) {
                Some(i) => s.cycle() == self.cycle() && s.at() == i,
                None => s.cycle() == self.cycle().push(self.opened_on().board) && s.at() == self.cycle().len(),
            },
            s.zoom() == opening_zoom(self.opened_on().scale),
            s.with_body(),
            s.built_count() == 1,
    {
        Session::cycling(self.panel, self.boards.as_slice())
    }
}

} // verus!
