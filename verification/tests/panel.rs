use embedded_graphics::prelude::RgbColor;
use embedded_graphics_simulator::BinaryColorTheme;
use xpui_simulator::{Bezel, Board, Button, KeyAction, Panel, PhysicalButton};

const KEYS: [PhysicalButton; 5] = [
    PhysicalButton { centre: (75, 400), size: (60, 150), label: "Prev", action: KeyAction::Press(Button::PageBack) },
    PhysicalButton { centre: (1025, 400), size: (60, 150), label: "Next", action: KeyAction::Press(Button::PageForward) },
    PhysicalButton { centre: (400, 750), size: (100, 60), label: "Back", action: KeyAction::Press(Button::Back) },
    PhysicalButton { centre: (550, 750), size: (100, 60), label: "OK", action: KeyAction::Press(Button::Confirm) },
    PhysicalButton { centre: (700, 750), size: (100, 60), label: "Home", action: KeyAction::Home },
];

const BADGE_KEYS: [PhysicalButton; 3] = [
    PhysicalButton { centre: (200, 420), size: (80, 50), label: "A", action: KeyAction::Press(Button::Left) },
    PhysicalButton { centre: (430, 420), size: (80, 50), label: "B", action: KeyAction::Press(Button::Confirm) },
    PhysicalButton { centre: (660, 420), size: (80, 50), label: "C", action: KeyAction::Press(Button::Right) },
];

/// A reader with keys down both sides and along the bottom.
fn reader() -> Board {
    Board {
        name: "reader",
        slug: "reader",
        width: 400,
        height: 300,
        touch: false,
        bezel: Some(Bezel { body: (1100, 800), panel_origin: (150, 100), panel_size: (800, 600), buttons: &KEYS }),
    }
}

/// A badge: a wide strip with three keys under it.
fn badge() -> Board {
    Board {
        name: "badge",
        slug: "badge",
        width: 296,
        height: 128,
        touch: false,
        bezel: Some(Bezel { body: (860, 480), panel_origin: (60, 40), panel_size: (740, 320), buttons: &BADGE_KEYS }),
    }
}

/// Every board that has described its body.
fn described() -> Vec<Board> {
    vec![reader(), badge()]
}

/// Boards with and without bodies.
fn all() -> Vec<Board> {
    vec![
        reader(),
        badge(),
        Board::custom("touch reader", 480, 800, true),
        Board::custom("strip", 296, 128, false),
        Board::custom("square", 400, 300, true),
    ]
}

#[test]
fn every_board_gets_a_window_that_fits_a_modest_display() {
    for board in all() {
        let (width, height) = Panel::of(board).window_size();
        assert!(width <= 1200 && height <= 900, "{}: {width}x{height}", board.name);
    }
}

#[test]
fn the_window_is_the_body_when_there_is_one_and_the_panel_when_there_is_not() {
    for board in all() {
        let panel = Panel::of(board);
        let (window_width, window_height) = panel.window_size();
        let (panel_width, panel_height) = panel.size_in_window();
        if board.bezel.is_some() {
            assert!(window_width > panel_width && window_height > panel_height, "{}", board.name);
        } else {
            assert_eq!((window_width, window_height), (panel_width, panel_height), "{}", board.name);
        }
    }
}

#[test]
fn a_small_panel_is_scaled_up_and_a_large_one_is_not() {
    assert_eq!(Panel::of(Board::custom("strip", 296, 128, false)).scale, 3);
    assert_eq!(Panel::of(Board::custom("large", 800, 480, false)).scale, 1);
}

#[test]
fn a_wide_short_panel_is_limited_by_its_width() {
    let wide = Board::custom("wide", 1100, 200, false);
    let panel = Panel::of(wide);
    assert_eq!(panel.scale, 1);
    assert!(panel.window_size().0 <= 1200);
}

#[test]
fn the_panel_carries_the_board_it_was_built_from() {
    for board in all() {
        let panel = Panel::of(board);
        assert!(panel.board.same(&board), "{}", board.name);
        assert_eq!((panel.width, panel.height), (board.width, board.height));
    }
}

#[test]
fn a_board_without_touch_stays_without_touch() {
    assert!(!Panel::of(badge()).board.touch);
}

#[test]
fn a_body_is_drawn_at_the_ratio_of_its_panel() {
    let board = reader();
    assert_eq!(Panel::of(board).scale, 2);
    assert_eq!(Panel::of(board).window_size(), (1100, 800));
    assert_eq!(Panel::window_for(board, 1), (550, 400));
    assert_eq!(Panel::of(board).scaled(1).size_in_window(), (400, 300));
}

#[test]
fn there_is_no_gap_between_panel_pixels() {
    for scale in 1..=3 {
        let settings = xpui_simulator::window_settings(scale);
        assert_eq!(settings.pixel_spacing, 0, "scale {scale} left a gap between pixels");
        assert_eq!(settings.scale, scale, "the requested scale did not survive");
    }
}

#[test]
fn the_window_paints_ink_on_paper() {
    let BinaryColorTheme::Custom { color_on, color_off } = xpui_simulator::window_settings(1).theme else {
        panic!("the theme must map the two colours explicitly, not identity");
    };
    let luma = |c: embedded_graphics::pixelcolor::Rgb888| c.r() as u32 + c.g() as u32 + c.b() as u32;
    assert!(luma(color_on) < luma(color_off), "ink ({color_on:?}) must be darker than paper ({color_off:?})");
}
