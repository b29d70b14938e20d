use std::cell::Cell;
use std::rc::Rc;

use xpui_simulator::{Board, Button, Event, Frame, Key, Keys, Panel, Press, Simulator};

const FRAMES: u32 = 5;

/// Counts how often it is asked for anything due.
struct Counting {
    asked: Rc<Cell<u32>>,
}

impl Keys for Counting {
    fn translate(&mut self, press: Press) -> Option<Button> {
        Some(press.button)
    }

    fn due(&mut self, _now: u32) -> Option<Button> {
        self.asked.set(self.asked.get() + 1);
        None
    }
}

fn badger() -> Board {
    Board::custom("Badger 2040", 296, 128, false)
}

/// Runs `frames` frames of the loop's bookkeeping, with no window.
fn run<K: Keys>(simulator: Simulator<K>) {
    let limit = Some(simulator.frame_limit().unwrap_or(0));
    let session = simulator.session();
    let mut frame = Frame::new(session, simulator.into_keys());
    let mut now: u32 = 0;
    while frame.begin(now, limit).is_some() {
        let _ = frame.close(now);
        now += 16;
    }
}

/// Counts how often it is asked to translate a press.
struct Translating {
    asked: Rc<Cell<u32>>,
}

impl Keys for Translating {
    fn translate(&mut self, press: Press) -> Option<Button> {
        self.asked.set(self.asked.get() + 1);
        Some(press.button)
    }
}

#[test]
fn a_held_key_is_translated_once() {
    let asked = Rc::new(Cell::new(0));
    let session = Simulator::new(Panel::of(badger())).session();
    let mut frame = Frame::new(session, Translating { asked: asked.clone() });
    let _ = frame.handle(Event::KeyDown { key: Key::Up, shifted: false, repeat: false }, 0);
    for now in 1..5 {
        assert!(frame.handle(Event::KeyDown { key: Key::Up, shifted: false, repeat: true }, now).is_empty());
    }
    assert_eq!(asked.get(), 1);
}

#[test]
fn the_loop_asks_the_keys_it_was_given_for_anything_due() {
    let asked = Rc::new(Cell::new(0));
    run(Simulator::new(Panel::of(badger())).frames(FRAMES).keys(Counting { asked: asked.clone() }));
    assert!(asked.get() >= FRAMES, "{FRAMES} frames ran and the keys were asked {} times", asked.get());
}

#[test]
fn the_keys_the_caller_supplied_are_the_ones_installed() {
    let asked = Rc::new(Cell::new(0));
    let x4 = Board::custom("X4", 480, 800, false);
    let _unused = Counting { asked: asked.clone() };
    run(Simulator::new(Panel::of(x4)).frames(FRAMES));
    let without = asked.get();
    run(Simulator::new(Panel::of(x4)).frames(FRAMES).keys(Counting { asked: asked.clone() }));
    let with = asked.get() - without;
    assert_eq!(without, 0, "a simulator given no keys consulted the counting ones anyway");
    assert!(with > 0, "a simulator given keys never consulted them");
}

#[test]
fn the_builder_keeps_the_list_it_was_given() {
    let mine = Board::custom("mine", 400, 300, false);
    let simulator = Simulator::new(Panel::of(mine));
    assert_eq!(simulator.listed().len(), 1);
    assert!(simulator.listed()[0].same(&mine), "unset, the cycle is the panel's own board");
    let three = [
        Board::custom("first", 400, 300, false),
        Board::custom("second", 296, 128, false),
        Board::custom("third", 480, 800, true),
    ];
    let simulator = Simulator::new(Panel::of(three[0])).boards(&three);
    assert_eq!(simulator.listed().len(), 3);
    for (kept, given) in simulator.listed().iter().zip(three.iter()) {
        assert!(kept.same(given), "and it is the caller's, in order");
    }
}

#[test]
fn the_builder_keeps_its_title_and_its_frame_limit() {
    let simulator = Simulator::new(Panel::of(badger()));
    assert_eq!(simulator.name(), "xpui");
    assert_eq!(simulator.frame_limit(), None);
    let simulator = simulator.title("gallery").frames(30);
    assert_eq!(simulator.name(), "gallery");
    assert_eq!(simulator.frame_limit(), Some(30));
    assert_eq!(simulator.panel().scale, 3);
    let session = simulator.session();
    assert_eq!(session.boards().len(), 1);
    assert_eq!(session.scale(), 3);
}

/// Writes down the time it is asked at.
struct Clocked {
    times: Rc<std::cell::RefCell<Vec<u32>>>,
}

impl Keys for Clocked {
    fn due(&mut self, now: u32) -> Option<Button> {
        self.times.borrow_mut().push(now);
        None
    }
}

#[test]
fn each_frame_asks_the_keys_at_its_own_time() {
    let times = Rc::new(std::cell::RefCell::new(Vec::new()));
    let session = Simulator::new(Panel::of(badger())).session();
    let mut frame = Frame::new(session, Clocked { times: times.clone() });
    for now in [0u32, 16, 40, 41] {
        assert!(frame.begin(now, Some(3)).is_some() || now == 41);
    }
    assert_eq!(*times.borrow(), vec![0, 16, 40]);
}
