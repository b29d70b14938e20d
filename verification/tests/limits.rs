use xpui_simulator::{
    can_paint, fits_every_zoom, window_fits, Bezel, BezelLayout, Board, Button, KeyAction, Panel, PhysicalButton,
    Point, Session, Simulator,
};

const KEYS: [PhysicalButton; 2] = [
    PhysicalButton { centre: (75, 400), size: (60, 150), label: "Prev", action: KeyAction::Press(Button::PageBack) },
    PhysicalButton { centre: (1025, 400), size: (60, 150), label: "Next", action: KeyAction::Press(Button::PageForward) },
];

const BEZEL: Bezel = Bezel { body: (1100, 800), panel_origin: (150, 100), panel_size: (800, 600), buttons: &KEYS };

/// A reader with a key down each side.
fn reader() -> Board {
    Board { name: "reader", slug: "reader", width: 400, height: 300, touch: false, bezel: Some(BEZEL) }
}

/// A bare panel `width` pixels wide.
fn wide(width: i32) -> Board {
    Board { name: "wide", slug: "wide", width, height: 10, touch: false, bezel: None }
}

#[test]
fn a_window_fits_while_its_numbers_are_ones_an_i32_holds() {
    assert!(window_fits(reader(), 3));
    // 357,913,941 six times over is the last that fits; one more is past it.
    assert!(window_fits(wide(357_913_941), 6));
    assert!(!window_fits(wide(357_913_942), 6));
    // The body is measured too, and can overflow when the panel does not.
    let big = Board { width: 1_000_000_000, height: 10, ..reader() };
    assert!(window_fits(big, 1));
    assert!(!window_fits(big, 2));
}

#[test]
fn a_board_is_roomy_when_every_zoom_fits() {
    assert!(fits_every_zoom(reader()));
    assert!(fits_every_zoom(wide(357_913_941)));
    assert!(!fits_every_zoom(wide(357_913_942)));
}

#[test]
fn a_simulator_opens_only_on_boards_it_can_measure() {
    let simulator = Simulator::new(Panel::of(reader()));
    assert!(simulator.can_open());
    let session = simulator.session();
    assert!(session.can_offset());
    let huge = Panel { width: 400_000_000, height: 10, scale: 1, board: wide(400_000_000) };
    assert!(!Simulator::new(huge).can_open());
    let cycle = Simulator::new(Panel::of(reader())).boards(&[reader(), wide(400_000_000)]);
    assert!(!cycle.can_open());
}

#[test]
fn a_layout_paints_while_its_shapes_fit_the_window_coordinates() {
    let layout = BezelLayout::new(BEZEL, 400, 300, 2);
    assert!(can_paint(&layout));
    assert!(layout.can_map(BEZEL.panel_origin));
    let far = layout.at(Point { x: i32::MAX - 10, y: 0 });
    assert!(!can_paint(&far));
    assert!(!far.can_map(BEZEL.panel_origin));
    let session = Session::new(Panel::of(reader()));
    assert!(session.can_offset());
}

#[test]
fn a_session_opens_at_six_at_most_and_at_one_at_least() {
    let board = Board::custom("tiny", 10, 10, false);
    let at = |scale: u32| Session::new(Panel { width: 10, height: 10, scale, board });
    assert_eq!(at(10).scale(), 6);
    assert_eq!(at(10).window_size(), (100, 100));
    assert_eq!(at(0).scale(), 1);
    assert_eq!(at(4).scale(), 4);
    assert_eq!(at(6).scale(), 6);
    // The window is sized to the scale asked for, the zoom clamped within it.
    let tall = Board::custom("tall", 480, 800, false);
    let opened = Session::new(Panel { width: 480, height: 800, scale: 10, board: tall });
    assert_eq!(opened.scale(), 6);
    assert_eq!(opened.window_size(), (4800, 8000));
}
