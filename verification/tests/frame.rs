use xpui_simulator::{
    Action, Bezel, Board, Button, Delivery, Event, Feed, Frame, Key, KeyAction, Panel, PhysicalButton, Point,
    Raw, Session, SwipeDir,
};

const KEYS: [PhysicalButton; 5] = [
    PhysicalButton { centre: (75, 400), size: (60, 150), label: "Prev", action: KeyAction::Press(Button::PageBack) },
    PhysicalButton { centre: (1025, 400), size: (60, 150), label: "Next", action: KeyAction::Press(Button::PageForward) },
    PhysicalButton { centre: (400, 750), size: (100, 60), label: "Back", action: KeyAction::Press(Button::Back) },
    PhysicalButton { centre: (550, 750), size: (100, 60), label: "OK", action: KeyAction::Press(Button::Confirm) },
    PhysicalButton { centre: (700, 750), size: (100, 60), label: "Home", action: KeyAction::Home },
];

const BADGE_KEYS: [PhysicalButton; 3] = [
    PhysicalButton { centre: (200, 420), size: (80, 50), label: "A", action: KeyAction::Press(Button::Left) },
    PhysicalButton { centre: (430, 420), size: (80, 50), label: "B", action: KeyAction::Press(Button::Confirm) },
    PhysicalButton { centre: (660, 420), size: (80, 50), label: "C", action: KeyAction::Press(Button::Right) },
];

/// A reader with keys down both sides and along the bottom.
fn reader() -> Board {
    Board {
        name: "reader",
        slug: "reader",
        width: 400,
        height: 300,
        touch: false,
        bezel: Some(Bezel { body: (1100, 800), panel_origin: (150, 100), panel_size: (800, 600), buttons: &KEYS }),
    }
}

/// A badge: a wide strip with three keys under it.
fn badge() -> Board {
    Board {
        name: "badge",
        slug: "badge",
        width: 296,
        height: 128,
        touch: false,
        bezel: Some(Bezel { body: (860, 480), panel_origin: (60, 40), panel_size: (740, 320), buttons: &BADGE_KEYS }),
    }
}

/// Every board that has described its body.
fn described() -> Vec<Board> {
    vec![reader(), badge()]
}

/// Boards with and without bodies.
fn all() -> Vec<Board> {
    vec![
        reader(),
        badge(),
        Board::custom("touch reader", 480, 800, true),
        Board::custom("strip", 296, 128, false),
        Board::custom("square", 400, 300, true),
    ]
}

fn key_down(key: Key) -> Event {
    Event::KeyDown { key, shifted: false, repeat: false }
}

#[test]
fn a_key_goes_down_and_comes_up_as_its_button() {
    let mut frame = Frame::new(Session::new(Panel::of(reader())), Raw);
    assert_eq!(frame.handle(key_down(Key::Up), 0), vec![Action::Deliver(Delivery::Press(Button::Up))]);
    assert_eq!(
        frame.handle(Event::KeyDown { key: Key::Up, shifted: false, repeat: true }, 1),
        Vec::<Action>::new(),
        "the window's auto-repeat is not a press"
    );
    assert_eq!(frame.handle(Event::KeyUp { key: Key::Up }, 2), vec![Action::Deliver(Delivery::Release(Button::Up))]);
    assert_eq!(frame.handle(Event::KeyUp { key: Key::Escape }, 3), Vec::<Action>::new());
}

#[test]
fn q_stops_h_goes_home_and_s_takes_a_shot_at_the_end_of_the_frame() {
    let mut frame = Frame::new(Session::new(Panel::of(reader())), Raw);
    assert_eq!(frame.handle(key_down(Key::Q), 0), vec![Action::Stop]);
    assert_eq!(frame.handle(key_down(Key::H), 0), vec![Action::Home]);
    assert!(!frame.take_shot());
    assert_eq!(frame.handle(key_down(Key::S), 0), Vec::<Action>::new());
    assert!(frame.take_shot(), "the shot is owed");
    assert!(!frame.take_shot(), "and owed once");
}

#[test]
fn a_board_switch_releases_what_was_held_on_the_board_it_left() {
    let boards = [reader(), Board::custom("plain", 480, 800, true)];
    let mut frame = Frame::new(Session::cycling(Panel::of(reader()), &boards), Raw);
    frame.handle(key_down(Key::PageDown), 0);
    let acts = frame.handle(key_down(Key::B), 1);
    assert_eq!(
        acts,
        vec![Action::Leave(Delivery::Release(Button::PageForward)), Action::Begin, Action::Rebind]
    );
    assert!(frame.session().board().same(&boards[1]));
    assert!(frame.take_repaint(), "the body is repainted for the new board");
    assert_eq!(frame.handle(Event::KeyUp { key: Key::PageDown }, 2), Vec::<Action>::new(), "nothing is held any more");
}

#[test]
fn a_zoom_that_changes_nothing_asks_for_nothing() {
    let mut frame = Frame::new(Session::new(Panel::of(reader())), Raw);
    assert_eq!(frame.handle(key_down(Key::Plus), 0), Vec::<Action>::new(), "already as far in as the window allows");
    assert_eq!(frame.handle(key_down(Key::Minus), 0), vec![Action::Rebind]);
    assert_eq!(frame.session().scale(), 1);
}

#[test]
fn a_click_on_a_key_holds_it_until_the_mouse_comes_up_anywhere() {
    let mut frame = Frame::new(Session::new(Panel::of(reader())), Raw);
    let layout = frame.session().layout().expect("the body is shown");
    let prev = layout.to_window((75, 400));
    let acts = frame.handle(Event::MouseDown { left: true, at: prev, on_panel: None }, 0);
    assert_eq!(acts, vec![Action::Deliver(Delivery::Press(Button::PageBack))]);
    assert_eq!(frame.held(), Some(KeyAction::Press(Button::PageBack)));
    assert!(frame.take_repaint(), "the key is drawn held");
    let acts = frame.handle(Event::MouseUp { left: true, at: Point::new(1, 1), on_panel: None }, 5);
    assert_eq!(acts, vec![Action::Deliver(Delivery::Release(Button::PageBack))]);
    assert_eq!(frame.held(), None);
    let home = layout.to_window((700, 750));
    assert_eq!(frame.handle(Event::MouseDown { left: true, at: home, on_panel: None }, 6), vec![Action::Home]);
    assert_eq!(frame.handle(Event::MouseDown { left: false, at: home, on_panel: None }, 7), Vec::<Action>::new());
}

#[test]
fn a_click_on_a_touch_panel_is_a_finger() {
    let board = Board::custom("touch", 480, 800, true);
    let mut frame = Frame::new(Session::new(Panel::of(board)), Raw);
    let at = Point::new(100, 200);
    let acts = frame.handle(Event::MouseDown { left: true, at, on_panel: Some(at) }, 0);
    assert_eq!(acts, vec![Action::Touch(Feed::TouchDown(at))]);
    let acts = frame.handle(Event::MouseUp { left: true, at, on_panel: Some(at) }, 40);
    assert_eq!(acts, vec![Action::Touch(Feed::TouchUp), Action::Touch(Feed::Tap(at))]);
    assert_eq!(frame.handle(Event::Wheel { dy: 1 }, 50), vec![Action::Swipe(SwipeDir::Down)]);
    assert_eq!(frame.handle(Event::Wheel { dy: -2 }, 50), vec![Action::Swipe(SwipeDir::Up)]);
    assert_eq!(frame.handle(Event::Wheel { dy: 0 }, 50), Vec::<Action>::new());
}

#[test]
fn a_long_press_comes_from_the_clock_alone() {
    let board = Board::custom("touch", 480, 800, true);
    let mut frame = Frame::new(Session::new(Panel::of(board)), Raw);
    let at = Point::new(100, 200);
    frame.handle(Event::MouseDown { left: true, at, on_panel: Some(at) }, 0);
    assert_eq!(frame.close(499), Vec::<Action>::new());
    assert_eq!(frame.close(500), Vec::<Action>::new(), "a long press has nowhere to go yet");
    assert_eq!(frame.open(500), Vec::<Action>::new(), "raw keys hold nothing back");
}

#[test]
fn a_limit_of_two_frames_runs_two_frames() {
    let mut frame = Frame::new(Session::new(Panel::of(reader())), Raw);
    assert_eq!(frame.begin(0, Some(2)).map(|a| a.len()), Some(0));
    assert_eq!(frame.begin(16, Some(2)).map(|a| a.len()), Some(0));
    assert!(frame.begin(32, Some(2)).is_none());
    assert!(frame.begin(48, Some(2)).is_none());
    let mut open = Frame::new(Session::new(Panel::of(reader())), Raw);
    for now in 0..10 {
        assert!(open.begin(now, None).is_some());
    }
    let mut none = Frame::new(Session::new(Panel::of(reader())), Raw);
    assert!(none.begin(0, Some(0)).is_none());
}

