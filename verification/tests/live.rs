use xpui_simulator::{
    Bezel, Board, Button, Control, Event, Frame, Key, KeyAction, Panel, PhysicalButton, Point, Raw, Session,
};

const KEYS: [PhysicalButton; 5] = [
    PhysicalButton { centre: (75, 400), size: (60, 150), label: "Prev", action: KeyAction::Press(Button::PageBack) },
    PhysicalButton { centre: (1025, 400), size: (60, 150), label: "Next", action: KeyAction::Press(Button::PageForward) },
    PhysicalButton { centre: (400, 750), size: (100, 60), label: "Back", action: KeyAction::Press(Button::Back) },
    PhysicalButton { centre: (550, 750), size: (100, 60), label: "OK", action: KeyAction::Press(Button::Confirm) },
    PhysicalButton { centre: (700, 750), size: (100, 60), label: "Home", action: KeyAction::Home },
];

const BADGE_KEYS: [PhysicalButton; 3] = [
    PhysicalButton { centre: (200, 420), size: (80, 50), label: "A", action: KeyAction::Press(Button::Left) },
    PhysicalButton { centre: (430, 420), size: (80, 50), label: "B", action: KeyAction::Press(Button::Confirm) },
    PhysicalButton { centre: (660, 420), size: (80, 50), label: "C", action: KeyAction::Press(Button::Right) },
];

/// A reader with keys down both sides and along the bottom.
fn reader() -> Board {
    Board {
        name: "reader",
        slug: "reader",
        width: 400,
        height: 300,
        touch: false,
        bezel: Some(Bezel { body: (1100, 800), panel_origin: (150, 100), panel_size: (800, 600), buttons: &KEYS }),
    }
}

/// A badge: a wide strip with three keys under it.
fn badge() -> Board {
    Board {
        name: "badge",
        slug: "badge",
        width: 296,
        height: 128,
        touch: false,
        bezel: Some(Bezel { body: (860, 480), panel_origin: (60, 40), panel_size: (740, 320), buttons: &BADGE_KEYS }),
    }
}

/// Every board that has described its body.
fn described() -> Vec<Board> {
    vec![reader(), badge()]
}

/// Boards with and without bodies.
fn all() -> Vec<Board> {
    vec![
        reader(),
        badge(),
        Board::custom("touch reader", 480, 800, true),
        Board::custom("strip", 296, 128, false),
        Board::custom("square", 400, 300, true),
    ]
}

/// A session over every board, opened on `board`.
fn session_on(board: Board) -> Session {
    Session::cycling(Panel::of(board), &all())
}

#[test]
fn switching_board_keeps_the_screen_stack_and_re_measures_it() {
    let start = badge();
    let mut session = session_on(start);
    assert_eq!(session.board().width, start.width);
    for _ in 0..all().len() {
        assert!(session.apply(Control::NextBoard), "the next board is a change");
        if session.board().width > start.width {
            break;
        }
    }
    let landed = session.board();
    assert!(landed.width > start.width, "no board is wider than the {}", start.name);
    let (width, height) = session.shown_size();
    assert!(width >= landed.width && height >= landed.height, "what is shown holds the new panel");
}

#[test]
fn cycling_the_boards_reuses_their_backends() {
    let mut session = session_on(reader());
    for _ in 0..all().len() * 2 {
        session.apply(Control::NextBoard);
    }
    assert_eq!(session.backends_built(), all().len());
}

#[test]
fn shift_walks_the_boards_the_other_way() {
    let mut session = session_on(reader());
    let start = session.board();
    session.apply(Control::NextBoard);
    let forward = session.board();
    session.apply(Control::PreviousBoard);
    assert!(session.board().same(&start), "back where it started");
    session.apply(Control::PreviousBoard);
    assert!(!session.board().same(&forward), "the two keys must not walk the same way");
}

#[test]
fn zoom_does_not_change_the_panel() {
    let mut session = Session::new(Panel::of(badge()));
    let scale = session.scale();
    let board = session.board();
    assert!(session.apply(Control::ZoomOut), "there was room to zoom out");
    assert_ne!(session.scale(), scale, "the scale moved");
    assert_eq!((session.board().width, session.board().height), (board.width, board.height));
}

#[test]
fn zoom_is_clamped_at_both_ends() {
    let mut session = Session::new(Panel::of(badge()));
    for _ in 0..12 {
        session.apply(Control::ZoomOut);
    }
    assert_eq!(session.scale(), 1, "life size is the floor");
    assert!(!session.apply(Control::ZoomOut));
    for _ in 0..12 {
        session.apply(Control::ZoomIn);
    }
    assert_eq!(session.scale(), session.ceiling());
    assert!(!session.apply(Control::ZoomIn));
}

#[test]
fn nothing_ever_outgrows_the_window() {
    let mut session = session_on(reader());
    let (window_width, window_height) = session.window_size();
    for _ in 0..all().len() * 2 {
        for _ in 0..2 {
            for _ in 0..12 {
                session.apply(Control::ZoomIn);
            }
            let (width, height) = session.shown_size();
            assert!(
                width <= window_width && height <= window_height,
                "{} at {}x is {width}x{height}",
                session.board().name,
                session.scale()
            );
            session.apply(Control::ToggleBody);
        }
        session.apply(Control::NextBoard);
    }
}

#[test]
fn the_panel_stays_centred() {
    let mut session = session_on(reader());
    let (window_width, window_height) = session.window_size();
    for _ in 0..all().len() {
        for _ in 0..2 {
            let origin = session.origin();
            let (width, height) = session.shown_size();
            let (right, below) = (window_width - (origin.x + width), window_height - (origin.y + height));
            assert!(
                (origin.x - right).abs() <= 1 && (origin.y - below).abs() <= 1,
                "{}: {} left, {right} right, {} above, {below} below",
                session.board().name,
                origin.x,
                origin.y
            );
            session.apply(Control::ToggleBody);
        }
        session.apply(Control::NextBoard);
    }
}

#[test]
fn hiding_the_body_letterboxes_rather_than_resizes() {
    let board = reader();
    let mut session = Session::new(Panel::of(board));
    let window = session.window_size();
    let with_body = session.shown_size();
    assert!(session.body_shown() && session.layout().is_some());
    assert!(session.apply(Control::ToggleBody));
    assert!(!session.body_shown());
    assert!(session.layout().is_none());
    assert_eq!(session.window_size(), window);
    let scale = session.scale() as i32;
    assert_eq!(session.shown_size(), (board.width * scale, board.height * scale));
    assert!(session.shown_size().0 < with_body.0);
}

#[test]
fn a_board_of_someone_elses_is_carried_too() {
    let odd = Board::custom("odd", 1100, 200, false);
    let mut session = Session::cycling(Panel::of(odd), &all());
    let (width, height) = session.window_size();
    assert!(width >= 1100 && height >= 200);
    let mut seen = false;
    for _ in 0..=all().len() {
        session.apply(Control::NextBoard);
        seen |= session.board().same(&odd);
    }
    assert!(seen, "it is still in the cycle a full lap later");
}

#[test]
fn the_panel_sits_inside_the_body_when_the_body_is_shown() {
    let mut session = Session::new(Panel::of(reader()));
    let origin = session.origin();
    let inset = session.panel_offset();
    assert!(inset.x > origin.x && inset.y > origin.y);
    session.apply(Control::ToggleBody);
    assert_eq!(session.panel_offset(), session.origin());
    assert!(!session.apply(Control::Screenshot));
}

#[test]
fn a_position_the_layout_cannot_measure_is_refused() {
    let frame = Frame::new(Session::new(Panel::of(reader()).scaled(1)), Raw);
    assert!(frame.can_take(Event::MouseDown { left: true, at: Point::new(100, 100), on_panel: None }));
    assert!(!frame.can_take(Event::MouseMove { at: Point::new(i32::MAX, 0), on_panel: None }));
    assert!(frame.can_take(Event::MouseUp { left: false, at: Point::new(i32::MAX, 0), on_panel: None }));
    assert!(frame.can_take(Event::KeyDown { key: Key::Plus, shifted: true, repeat: false }));
    assert!(frame.can_take(Event::Quit));
}
