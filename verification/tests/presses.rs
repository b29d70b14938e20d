use xpui_simulator::{due_deliveries, Board, Button, Delivery, Keypad, Keys, Press, Raw};

/// What the framework reads back: what is held, and what went down and came
/// up this frame.
#[derive(Default)]
struct Input {
    held: Vec<Button>,
    pressed: Vec<Button>,
    released: Vec<Button>,
}

impl Input {
    fn begin_frame(&mut self) {
        self.pressed.clear();
        self.released.clear();
    }

    fn apply(&mut self, deliveries: Vec<Delivery>) {
        for d in deliveries {
            match d {
                Delivery::Press(b) => {
                    self.pressed.push(b);
                    if !self.held.contains(&b) {
                        self.held.push(b);
                    }
                }
                Delivery::Release(b) => {
                    self.released.push(b);
                    self.held.retain(|h| *h != b);
                }
            }
        }
    }

    fn was_pressed(&self, b: Button) -> bool {
        self.pressed.contains(&b)
    }

    fn is_pressed(&self, b: Button) -> bool {
        self.held.contains(&b)
    }

    fn was_released(&self, b: Button) -> bool {
        self.released.contains(&b)
    }
}

fn x4() -> Board {
    Board::custom("X4", 480, 800, false)
}

fn badger() -> Board {
    Board::custom("Badger 2040", 296, 128, false)
}

/// Renames every press to `Back`.
struct Renames;

impl Keys for Renames {
    fn translate(&mut self, _press: Press) -> Option<Button> {
        Some(Button::Back)
    }
}

/// Eats every press and never gives one back.
struct Eats;

impl Keys for Eats {
    fn translate(&mut self, _press: Press) -> Option<Button> {
        None
    }
}

/// Presses `Confirm` from a timer, once, at `at`.
struct Timer {
    at: u32,
    fired: bool,
}

impl Keys for Timer {
    fn translate(&mut self, _press: Press) -> Option<Button> {
        None
    }

    fn due(&mut self, now: u32) -> Option<Button> {
        if self.fired || now < self.at {
            return None;
        }
        self.fired = true;
        Some(Button::Confirm)
    }
}

#[test]
fn a_press_arrives_untouched_when_nothing_reads_it() {
    let mut input = Input::default();
    let mut keys = Keypad::new(Raw);
    input.begin_frame();
    input.apply(keys.down(Button::Confirm, 0, x4()));
    assert!(input.was_pressed(Button::Confirm));
}

#[test]
fn a_translated_press_is_released_as_what_it_became() {
    let mut input = Input::default();
    let mut keys = Keypad::new(Renames);
    input.begin_frame();
    input.apply(keys.down(Button::Confirm, 0, x4()));
    assert!(input.is_pressed(Button::Back), "the translation is what went down");
    assert!(!input.is_pressed(Button::Confirm));
    input.begin_frame();
    input.apply(keys.up(Button::Confirm));
    assert!(!input.is_pressed(Button::Back), "releasing the key released what it had become");
}

#[test]
fn a_swallowed_press_reaches_nothing() {
    let mut input = Input::default();
    let mut keys = Keypad::new(Eats);
    input.begin_frame();
    input.apply(keys.down(Button::Confirm, 0, x4()));
    assert!(!input.was_pressed(Button::Confirm));
    assert!(!input.is_pressed(Button::Confirm));
    input.begin_frame();
    input.apply(keys.up(Button::Confirm));
    assert!(!input.was_released(Button::Confirm), "nothing went down, so nothing comes up");
}

#[test]
fn a_press_that_comes_due_arrives_whole() {
    let mut input = Input::default();
    let mut keys = Keypad::new(Timer { at: 350, fired: false });
    input.begin_frame();
    input.apply(keys.down(Button::Confirm, 0, badger()));
    input.apply(keys.due(0));
    assert!(!input.was_pressed(Button::Confirm));
    input.begin_frame();
    input.apply(keys.due(349));
    assert!(!input.was_pressed(Button::Confirm));
    input.begin_frame();
    input.apply(keys.due(350));
    assert!(input.was_pressed(Button::Confirm), "the frame it comes due, it is delivered");
    assert!(!input.is_pressed(Button::Confirm), "and delivered complete");
}

#[test]
fn switching_board_lets_go_of_everything_it_was_holding() {
    let mut input = Input::default();
    let mut keys = Keypad::new(Raw);
    input.begin_frame();
    input.apply(keys.down(Button::PageForward, 0, x4()));
    assert!(input.is_pressed(Button::PageForward));
    input.begin_frame();
    input.apply(keys.release_all());
    assert!(!input.is_pressed(Button::PageForward));
}

/// Renames the first press of a key, then the next differently.
struct RenamesInTurn {
    seen: u32,
}

impl Keys for RenamesInTurn {
    fn translate(&mut self, _press: Press) -> Option<Button> {
        self.seen += 1;
        Some(if self.seen == 1 { Button::Back } else { Button::Left })
    }
}

#[test]
fn a_second_press_with_no_release_replaces_the_first() {
    let mut input = Input::default();
    let mut keys = Keypad::new(RenamesInTurn { seen: 0 });
    input.begin_frame();
    input.apply(keys.down(Button::Confirm, 0, x4()));
    input.apply(keys.down(Button::Confirm, 1, x4()));
    input.begin_frame();
    input.apply(keys.up(Button::Confirm));
    assert!(!input.is_pressed(Button::Back));
    assert!(!input.is_pressed(Button::Left));
}

/// Holds a press back forever, unless told to forget it.
#[derive(Default)]
struct Forgetful {
    pending: bool,
}

impl Keys for Forgetful {
    fn translate(&mut self, _press: Press) -> Option<Button> {
        self.pending = true;
        None
    }

    fn due(&mut self, _now: u32) -> Option<Button> {
        if self.pending { Some(Button::Confirm) } else { None }
    }

    fn reset(&mut self) {
        self.pending = false;
    }
}

#[test]
fn a_board_switch_tells_the_keys_to_forget() {
    let mut input = Input::default();
    let mut keys = Keypad::new(Forgetful::default());
    input.begin_frame();
    input.apply(keys.down(Button::Confirm, 0, badger()));
    input.apply(keys.release_all());
    input.begin_frame();
    input.apply(keys.due(10_000));
    assert!(!input.was_pressed(Button::Confirm));
}

#[test]
fn the_deliveries_are_exact() {
    let mut keys = Keypad::new(Renames);
    assert_eq!(keys.down(Button::Confirm, 0, x4()), vec![Delivery::Press(Button::Back)]);
    assert_eq!(
        keys.down(Button::Confirm, 1, x4()),
        vec![Delivery::Release(Button::Back), Delivery::Press(Button::Back)]
    );
    assert_eq!(keys.down(Button::Up, 2, x4()), vec![Delivery::Press(Button::Back)]);
    assert_eq!(
        keys.release_all(),
        vec![Delivery::Release(Button::Back), Delivery::Release(Button::Back)]
    );
    assert!(keys.up(Button::Up).is_empty());
}

#[test]
fn a_press_that_came_due_is_delivered_down_and_up() {
    assert_eq!(due_deliveries(None), Vec::<Delivery>::new());
    assert_eq!(
        due_deliveries(Some(Button::Confirm)),
        vec![Delivery::Press(Button::Confirm), Delivery::Release(Button::Confirm)]
    );
}

#[test]
fn raw_keys_pass_presses_through_and_bring_nothing_due() {
    let mut raw = Raw;
    let board = Board::custom("strip", 296, 128, false);
    assert_eq!(raw.translate(Press { button: Button::Back, now: 5, board }), Some(Button::Back));
    assert_eq!(raw.due(5), None);
}
