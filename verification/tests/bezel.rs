use xpui_simulator::{route, Bezel, BezelLayout, Board, Button, Hit, KeyAction, Panel, PhysicalButton, Point};

const KEYS: [PhysicalButton; 5] = [
    PhysicalButton { centre: (75, 400), size: (60, 150), label: "Prev", action: KeyAction::Press(Button::PageBack) },
    PhysicalButton { centre: (1025, 400), size: (60, 150), label: "Next", action: KeyAction::Press(Button::PageForward) },
    PhysicalButton { centre: (400, 750), size: (100, 60), label: "Back", action: KeyAction::Press(Button::Back) },
    PhysicalButton { centre: (550, 750), size: (100, 60), label: "OK", action: KeyAction::Press(Button::Confirm) },
    PhysicalButton { centre: (700, 750), size: (100, 60), label: "Home", action: KeyAction::Home },
];

const BADGE_KEYS: [PhysicalButton; 3] = [
    PhysicalButton { centre: (200, 420), size: (80, 50), label: "A", action: KeyAction::Press(Button::Left) },
    PhysicalButton { centre: (430, 420), size: (80, 50), label: "B", action: KeyAction::Press(Button::Confirm) },
    PhysicalButton { centre: (660, 420), size: (80, 50), label: "C", action: KeyAction::Press(Button::Right) },
];

/// A reader with keys down both sides and along the bottom.
fn reader() -> Board {
    Board {
        name: "reader",
        slug: "reader",
        width: 400,
        height: 300,
        touch: false,
        bezel: Some(Bezel { body: (1100, 800), panel_origin: (150, 100), panel_size: (800, 600), buttons: &KEYS }),
    }
}

/// A badge: a wide strip with three keys under it.
fn badge() -> Board {
    Board {
        name: "badge",
        slug: "badge",
        width: 296,
        height: 128,
        touch: false,
        bezel: Some(Bezel { body: (860, 480), panel_origin: (60, 40), panel_size: (740, 320), buttons: &BADGE_KEYS }),
    }
}

/// Every board that has described its body.
fn described() -> Vec<Board> {
    vec![reader(), badge()]
}

/// Boards with and without bodies.
fn all() -> Vec<Board> {
    vec![
        reader(),
        badge(),
        Board::custom("touch reader", 480, 800, true),
        Board::custom("strip", 296, 128, false),
        Board::custom("square", 400, 300, true),
    ]
}

/// What the window reports for a raw window position: subtract the panel
/// display's offset, divide by the pixel pitch, truncating, and answer `None`
/// when the result falls off the display.
fn what_the_window_reports(layout: &BezelLayout, panel: (i32, i32), scale: u32, at: Point) -> Option<Point> {
    let inset = layout.panel_offset();
    let pitch = scale as i32;
    let on_display = Point::new((at.x - inset.x) / pitch, (at.y - inset.y) / pitch);
    if (0..panel.0).contains(&on_display.x) && (0..panel.1).contains(&on_display.y) {
        Some(on_display)
    } else {
        None
    }
}

/// Every described board, with the window it would open.
fn bezelled() -> Vec<(Board, Panel, BezelLayout)> {
    described()
        .into_iter()
        .map(|board| {
            let panel = Panel::of(board);
            let layout = BezelLayout::new(board.bezel.unwrap(), panel.width, panel.height, panel.scale);
            (board, panel, layout)
        })
        .collect()
}

/// Routes a click the way the frame loop does, without a window.
fn click(layout: &BezelLayout, panel: Panel, at: Point) -> Hit {
    let reported = what_the_window_reports(layout, (panel.width, panel.height), panel.scale, at);
    route(Some(layout), at, reported)
}

/// A spot on the shell that is neither panel nor key.
fn bare_shell(bezel: &Bezel) -> (i32, i32) {
    (bezel.body.0 / 20, bezel.body.1 - bezel.body.1 / 40)
}

#[test]
fn a_click_in_the_middle_of_a_key_presses_it() {
    let mut checked = 0;
    for (board, panel, layout) in bezelled() {
        for button in layout.bezel().buttons {
            let at = layout.to_window(button.centre);
            assert_eq!(
                click(&layout, panel, at),
                Hit::Key(button.action),
                "{}: clicking the middle of {:?} did not press it",
                board.name,
                button.label
            );
            checked += 1;
        }
    }
    assert!(checked >= 8, "only {checked} keys were tried");
}

#[test]
fn a_click_on_bare_shell_presses_nothing() {
    for (board, panel, layout) in bezelled() {
        let bezel = layout.bezel();
        let spot = bare_shell(bezel);
        assert!(bezel.button_at(spot).is_none(), "{}: {spot:?} grew a key", board.name);
        let (x, y) = bezel.panel_origin;
        let (width, height) = bezel.panel_size;
        assert!(!((x..x + width).contains(&spot.0) && (y..y + height).contains(&spot.1)));
        assert_eq!(click(&layout, panel, layout.to_window(spot)), Hit::Body, "{}", board.name);
    }
}

#[test]
fn a_click_on_the_panel_arrives_in_panel_pixels() {
    for (board, panel, layout) in bezelled() {
        let inset = layout.panel_offset();
        assert_ne!(inset, Point::origin(), "{}: the panel is not inset at all", board.name);
        let want = Point::new(30, 40);
        let scale = panel.scale as i32;
        let at = Point::new(inset.x + want.x * scale, inset.y + want.y * scale);
        let hit = click(&layout, panel, at);
        assert_eq!(hit, Hit::Panel(want), "{}: {at:?} reached the panel as {hit:?}", board.name);
        assert_ne!(hit, Hit::Panel(at), "{}: the inset was never subtracted", board.name);
    }
}

#[test]
fn the_panel_is_inset_where_the_body_says_it_is() {
    for (board, _, layout) in bezelled() {
        let origin = layout.bezel().panel_origin;
        let back = layout.to_device(layout.panel_offset());
        assert!(
            (back.0 - origin.0).abs() <= 1 && (back.1 - origin.1).abs() <= 1,
            "{}: {back:?} on the device, the body puts it at {origin:?}",
            board.name
        );
    }
}

#[test]
fn the_panel_and_the_keys_never_share_a_window_pixel() {
    for (board, _, layout) in bezelled() {
        let inset = layout.panel_offset();
        let (panel_width, panel_height) = layout.panel_size();
        for button in layout.bezel().buttons {
            let centre = layout.to_window(button.centre);
            let (width, height) = layout.to_window_size(button.size);
            let (left, top) = (centre.x - width / 2, centre.y - height / 2);
            let overlaps = left < inset.x + panel_width
                && left + width > inset.x
                && top < inset.y + panel_height
                && top + height > inset.y;
            assert!(!overlaps, "{}: {:?} is drawn over the panel", board.name, button.label);
            let (window_width, window_height) = layout.window_size();
            assert!(
                left >= 0 && top >= 0 && left + width <= window_width && top + height <= window_height,
                "{}: {:?} is drawn off the window",
                board.name,
                button.label
            );
        }
    }
}

#[test]
fn a_click_off_the_panel_is_never_delivered_as_a_touch() {
    for (board, panel, layout) in bezelled() {
        let (window_width, window_height) = layout.window_size();
        let inset = layout.panel_offset();
        let (panel_width, panel_height) = layout.panel_size();
        let on_the_panel = |at: Point| {
            (inset.x..inset.x + panel_width).contains(&at.x) && (inset.y..inset.y + panel_height).contains(&at.y)
        };
        let (mut panels, mut keys, mut shell) = (0u32, 0u32, 0u32);
        for y in 0..window_height {
            for x in 0..window_width {
                let at = Point::new(x, y);
                match click(&layout, panel, at) {
                    Hit::Panel(_) => {
                        assert!(on_the_panel(at), "{}: {at:?} is shell and became a touch", board.name);
                        panels += 1;
                    }
                    Hit::Key(_) => {
                        assert!(!on_the_panel(at), "{}: {at:?} is panel and pressed a key", board.name);
                        keys += 1;
                    }
                    Hit::Body => shell += 1,
                }
            }
        }
        assert_eq!(panels, panel_width as u32 * panel_height as u32, "{}", board.name);
        assert!(keys > 0 && shell > 0, "{}: {keys} key, {shell} shell", board.name);
    }
}

#[test]
fn scaling_grows_the_body_without_moving_a_key() {
    let board = badge();
    let bezel = board.bezel.unwrap();
    let mut previous: Option<(i32, i32)> = None;
    for scale in 1..=4u32 {
        let layout = BezelLayout::new(bezel, board.width, board.height, scale);
        let size = layout.window_size();
        if let Some(before) = previous {
            assert!(size.0 > before.0 && size.1 > before.1, "scale {scale}: {size:?} vs {before:?}");
        }
        previous = Some(size);
        let panel = Panel::of(board).scaled(scale);
        for button in bezel.buttons {
            let at = layout.to_window(button.centre);
            assert_eq!(click(&layout, panel, at), Hit::Key(button.action), "at {scale}x, {:?}", button.label);
        }
        assert_eq!(click(&layout, panel, layout.to_window(bare_shell(&bezel))), Hit::Body);
    }
}

#[test]
fn a_described_body_is_bigger_than_the_panel_it_holds() {
    for (board, panel, layout) in bezelled() {
        let (window_width, window_height) = layout.window_size();
        let (panel_width, panel_height) = panel.size_in_window();
        assert!(window_width > panel_width && window_height > panel_height, "{}", board.name);
    }
}

#[test]
fn a_board_with_no_bezel_is_all_panel() {
    for board in [Board::custom("plain", 480, 800, false), Board::custom("wide", 400, 300, true)] {
        assert!(board.bezel.is_none());
        let panel = Panel::of(board);
        assert_eq!(
            panel.size_in_window(),
            (board.width * panel.scale as i32, board.height * panel.scale as i32),
            "{}: the window is not the panel",
            board.name
        );
    }
    let at = Point::new(120, 60);
    assert_eq!(route(None, at, Some(at)), Hit::Panel(at));
    assert_eq!(route(None, at, None), Hit::Body);
}

#[test]
fn the_x3s_side_keys_are_pressable() {
    let board = reader();
    let panel = Panel::of(board);
    let bezel = board.bezel.unwrap();
    let layout = BezelLayout::new(bezel, panel.width, panel.height, panel.scale);
    let inset = layout.panel_offset();
    let (panel_width, _) = layout.panel_size();
    for (label, expected, on_the_right) in
        [("Prev", Button::PageBack, false), ("Next", Button::PageForward, true)]
    {
        let button = bezel.buttons.iter().find(|b| b.label == label).expect("the key");
        let at = layout.to_window(button.centre);
        if on_the_right {
            assert!(at.x > inset.x + panel_width, "{label} should sit past the panel's right edge");
        } else {
            assert!(at.x < inset.x, "{label} should sit before the panel's left edge");
        }
        assert_eq!(click(&layout, panel, at), Hit::Key(KeyAction::Press(expected)));
    }
}
