use embedded_graphics::geometry::{Point as EgPoint, Size};
use embedded_graphics::pixelcolor::Rgb888;
use embedded_graphics::prelude::DrawTarget;
use embedded_graphics_simulator::SimulatorDisplay;
use xpui_simulator::{
    backdrop, body_plan, paint_body, Bezel, BezelLayout, Board, Button, Control, Face, KeyAction, Panel,
    PhysicalButton, Point, Session, Shape,
};

const KEYS: [PhysicalButton; 5] = [
    PhysicalButton { centre: (75, 400), size: (60, 150), label: "Prev", action: KeyAction::Press(Button::PageBack) },
    PhysicalButton { centre: (1025, 400), size: (60, 150), label: "Next", action: KeyAction::Press(Button::PageForward) },
    PhysicalButton { centre: (400, 750), size: (100, 60), label: "Back", action: KeyAction::Press(Button::Back) },
    PhysicalButton { centre: (550, 750), size: (100, 60), label: "OK", action: KeyAction::Press(Button::Confirm) },
    PhysicalButton { centre: (700, 750), size: (100, 60), label: "Home", action: KeyAction::Home },
];

const BADGE_KEYS: [PhysicalButton; 4] = [
    PhysicalButton { centre: (200, 420), size: (80, 50), label: "A", action: KeyAction::Press(Button::Left) },
    PhysicalButton { centre: (430, 420), size: (80, 50), label: "B", action: KeyAction::Press(Button::Confirm) },
    PhysicalButton { centre: (660, 420), size: (80, 50), label: "C", action: KeyAction::Press(Button::Right) },
    PhysicalButton { centre: (830, 200), size: (40, 40), label: "", action: KeyAction::Unassigned },
];

/// A reader with keys down both sides and along the bottom.
fn reader() -> Board {
    Board {
        name: "reader",
        slug: "reader",
        width: 400,
        height: 300,
        touch: false,
        bezel: Some(Bezel { body: (1100, 800), panel_origin: (150, 100), panel_size: (800, 600), buttons: &KEYS }),
    }
}

/// A badge: a wide strip with three keys under it.
fn badge() -> Board {
    Board {
        name: "badge",
        slug: "badge",
        width: 296,
        height: 128,
        touch: false,
        bezel: Some(Bezel { body: (860, 480), panel_origin: (60, 40), panel_size: (740, 320), buttons: &BADGE_KEYS }),
    }
}

/// Every board that has described its body.
fn described() -> Vec<Board> {
    vec![reader(), badge()]
}

/// Boards with and without bodies.
fn all() -> Vec<Board> {
    vec![
        reader(),
        badge(),
        Board::custom("touch reader", 480, 800, true),
        Board::custom("strip", 296, 128, false),
        Board::custom("square", 400, 300, true),
    ]
}

fn eg(at: Point) -> EgPoint {
    EgPoint::new(at.x, at.y)
}

fn pixel(display: &SimulatorDisplay<Rgb888>, x: i32, y: i32) -> Rgb888 {
    display.get_pixel(EgPoint::new(x, y))
}

/// Renders a board's body at its default scale.
fn painted(board: Board) -> (SimulatorDisplay<Rgb888>, BezelLayout) {
    let bezel = board.bezel.expect("this board has a body");
    let panel = Panel::of(board);
    let layout = BezelLayout::new(bezel, panel.width, panel.height, panel.scale);
    let (width, height) = layout.window_size();
    let mut display = SimulatorDisplay::new(Size::new(width as u32, height as u32));
    paint_body(&mut display, &layout, None);
    (display, layout)
}

fn distinct_colours(display: &SimulatorDisplay<Rgb888>, at: Point, size: (i32, i32)) -> usize {
    let mut seen: Vec<Rgb888> = Vec::new();
    for y in at.y..at.y + size.1 {
        for x in at.x..at.x + size.0 {
            let colour = pixel(display, x, y);
            if !seen.contains(&colour) {
                seen.push(colour);
            }
        }
    }
    seen.len()
}

#[test]
fn every_key_is_drawn() {
    for board in described() {
        let bezel = board.bezel.unwrap();
        let (display, layout) = painted(board);
        for button in bezel.buttons.iter().filter(|b| !b.label.is_empty()) {
            let face = layout.to_window((button.centre.0 - button.size.0 / 2, button.centre.1 - button.size.1 / 2));
            let size = layout.to_window_size(button.size);
            assert!(
                distinct_colours(&display, face, size) > 1,
                "{}: {:?} is a flat block",
                board.name,
                button.label
            );
        }
    }
}

#[test]
fn the_panel_sits_in_a_visible_well() {
    for board in described() {
        let (display, layout) = painted(board);
        let inset = layout.panel_offset();
        let body = pixel(&display, 2, 2);
        let well = pixel(&display, inset.x - 1, inset.y - 1);
        assert_ne!(body, well, "{}: the panel's surround is the same colour as the body", board.name);
    }
}

/// How much of a face's top-left corner is the key's own colour.
fn corner_filled(display: &SimulatorDisplay<Rgb888>, at: Point, size: (i32, i32)) -> f32 {
    let mut counts: Vec<(Rgb888, usize)> = Vec::new();
    for y in at.y..at.y + size.1 {
        for x in at.x..at.x + size.0 {
            let colour = pixel(display, x, y);
            match counts.iter_mut().find(|(seen, _)| *seen == colour) {
                Some((_, count)) => *count += 1,
                None => counts.push((colour, 1)),
            }
        }
    }
    let key = counts.iter().max_by_key(|(_, count)| *count).map(|(colour, _)| *colour).expect("a face has pixels");
    let side = (size.0.min(size.1) / 4).max(1);
    let mut filled = 0;
    for y in at.y..at.y + side {
        for x in at.x..at.x + side {
            filled += usize::from(pixel(display, x, y) == key);
        }
    }
    filled as f32 / (side * side) as f32
}

#[test]
fn a_key_keeps_its_shape_at_every_zoom() {
    for board in described() {
        let bezel = board.bezel.unwrap();
        let mut session = Session::cycling(Panel::of(board), &all());
        while session.apply(Control::ZoomOut) {}
        loop {
            let scale = session.scale();
            let layout = session.layout().expect("the body is shown");
            let (width, height) = session.window_size();
            let mut display = SimulatorDisplay::new(Size::new(width as u32, height as u32));
            paint_body(&mut display, &layout, None);
            for button in bezel.buttons {
                let (corner, size) = layout.key_face(button.centre, button.size);
                let filled = corner_filled(&display, corner, size);
                let round = button.size.0 == button.size.1;
                assert_eq!(
                    filled < 0.5,
                    round,
                    "{}: {:?} at {scale}x, its corner {:.0}% filled",
                    board.name,
                    button.label,
                    filled * 100.0
                );
            }
            if !session.apply(Control::ZoomIn) {
                break;
            }
        }
    }
}

#[test]
fn a_held_key_looks_different() {
    for board in described() {
        let bezel = board.bezel.unwrap();
        let button = bezel.buttons[0];
        let panel = Panel::of(board);
        let layout = BezelLayout::new(bezel, panel.width, panel.height, panel.scale);
        let (width, height) = layout.window_size();
        let mut idle = SimulatorDisplay::new(Size::new(width as u32, height as u32));
        paint_body(&mut idle, &layout, None);
        let mut held = SimulatorDisplay::new(Size::new(width as u32, height as u32));
        paint_body(&mut held, &layout, Some(button.action));
        let centre = layout.to_window(button.centre);
        assert_ne!(
            idle.get_pixel(eg(centre)),
            held.get_pixel(eg(centre)),
            "{}: holding {:?} changes nothing on the key",
            board.name,
            button.label
        );
    }
}

#[test]
fn the_plan_is_the_desk_the_shell_the_well_then_each_key() {
    let board = reader();
    let panel = Panel::of(board);
    let layout = BezelLayout::new(board.bezel.unwrap(), panel.width, panel.height, panel.scale);
    let plan = body_plan(&layout, Some(KeyAction::Press(Button::Back)));
    assert_eq!(plan[0], Shape::Clear { colour: (0x14, 0x16, 0x18) });
    assert_eq!(
        plan[1],
        Shape::Rounded { x: 0, y: 0, width: 1100, height: 800, radius: 30, colour: (0x3A, 0x3E, 0x44) }
    );
    assert_eq!(
        plan[2],
        Shape::Rounded { x: 138, y: 88, width: 824, height: 624, radius: 12, colour: (0x1E, 0x21, 0x25) }
    );
    // Prev: a face 60 x 150 at (45, 325), its legend in the largest face.
    assert_eq!(
        plan[3],
        Shape::Rounded { x: 45, y: 325, width: 60, height: 150, radius: 12, colour: (0x6B, 0x71, 0x7A) }
    );
    assert_eq!(
        plan[4],
        Shape::Legend { text: "Prev", x: 75, y: 400, face: Face::Large, middle: true, colour: (0x11, 0x13, 0x16) }
    );
    // Back is the one held.
    assert!(plan.iter().any(|s| matches!(s, Shape::Rounded { x: 350, y: 720, colour: (0xC8, 0xCE, 0xD6), .. })));
    assert_eq!(plan.len(), 3 + 2 * 5);
}

#[test]
fn a_legend_too_wide_for_its_key_hangs_under_it() {
    let board = badge();
    let panel = Panel::of(board);
    let layout = BezelLayout::new(board.bezel.unwrap(), panel.width, panel.height, panel.scale);
    let plan = body_plan(&layout, None);
    assert!(plan.iter().all(|s| !matches!(s, Shape::Legend { text: "", .. })), "an empty label draws nothing");
    let mut backdrop_only = SimulatorDisplay::<Rgb888>::new(Size::new(4, 4));
    backdrop(&mut backdrop_only);
    assert_eq!(pixel(&backdrop_only, 1, 1), Rgb888::new(0x14, 0x16, 0x18));
    let _ = backdrop_only.clear(Rgb888::new(0, 0, 0));
}
