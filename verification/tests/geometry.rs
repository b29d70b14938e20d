use xpui_simulator::{Bezel, BezelLayout, Board, Button, KeyAction, Panel, PhysicalButton};

const KEYS: [PhysicalButton; 5] = [
    PhysicalButton { centre: (75, 400), size: (60, 150), label: "Prev", action: KeyAction::Press(Button::PageBack) },
    PhysicalButton { centre: (1025, 400), size: (60, 150), label: "Next", action: KeyAction::Press(Button::PageForward) },
    PhysicalButton { centre: (400, 750), size: (100, 60), label: "Back", action: KeyAction::Press(Button::Back) },
    PhysicalButton { centre: (550, 750), size: (100, 60), label: "OK", action: KeyAction::Press(Button::Confirm) },
    PhysicalButton { centre: (700, 750), size: (100, 60), label: "Home", action: KeyAction::Home },
];

const BADGE_KEYS: [PhysicalButton; 4] = [
    PhysicalButton { centre: (200, 420), size: (80, 50), label: "A", action: KeyAction::Press(Button::Left) },
    PhysicalButton { centre: (430, 420), size: (80, 50), label: "B", action: KeyAction::Press(Button::Confirm) },
    PhysicalButton { centre: (660, 420), size: (80, 50), label: "C", action: KeyAction::Press(Button::Right) },
    PhysicalButton { centre: (830, 200), size: (40, 40), label: "", action: KeyAction::Unassigned },
];

/// A reader with keys down both sides and along the bottom.
fn reader() -> Board {
    Board {
        name: "reader",
        slug: "reader",
        width: 400,
        height: 300,
        touch: false,
        bezel: Some(Bezel { body: (1100, 800), panel_origin: (150, 100), panel_size: (800, 600), buttons: &KEYS }),
    }
}

/// A badge: a wide strip with three keys under it.
fn badge() -> Board {
    Board {
        name: "badge",
        slug: "badge",
        width: 296,
        height: 128,
        touch: false,
        bezel: Some(Bezel { body: (860, 480), panel_origin: (60, 40), panel_size: (740, 320), buttons: &BADGE_KEYS }),
    }
}

/// Every board that has described its body.
fn described() -> Vec<Board> {
    vec![reader(), badge()]
}

/// Boards with and without bodies.
fn all() -> Vec<Board> {
    vec![
        reader(),
        badge(),
        Board::custom("touch reader", 480, 800, true),
        Board::custom("strip", 296, 128, false),
        Board::custom("square", 400, 300, true),
    ]
}

/// Every number a body is laid out from, in the order a reader would want it.
fn describe(board: Board) -> String {
    let bezel = board.bezel.expect("this board has a body");
    let panel = Panel::of(board);
    let layout = BezelLayout::new(bezel, panel.width, panel.height, panel.scale);
    let (width, height) = layout.window_size();
    let mut out = String::new();
    out.push_str(&format!("board       {} ({})\n", board.name, board.slug));
    out.push_str(&format!("panel       {}x{} at scale {}\n", panel.width, panel.height, panel.scale));
    out.push_str(&format!("window      {width}x{height}\n"));
    let origin = layout.to_window(bezel.panel_origin);
    let size = layout.to_window_size(bezel.panel_size);
    out.push_str(&format!("well        ({},{}) {}x{}\n", origin.x, origin.y, size.0, size.1));
    for button in bezel.buttons {
        let (face, size) = layout.key_face(button.centre, button.size);
        out.push_str(&format!("key         ({},{}) {}x{} \"{}\" -> {:?}\n",
            face.x, face.y, size.0, size.1, button.label, button.action));
    }
    out
}

const READER: &str = "\
board       reader (reader)
panel       400x300 at scale 2
window      1100x800
well        (150,100) 800x600
key         (45,325) 60x150 \"Prev\" -> Press(PageBack)
key         (995,325) 60x150 \"Next\" -> Press(PageForward)
key         (350,720) 100x60 \"Back\" -> Press(Back)
key         (500,720) 100x60 \"OK\" -> Press(Confirm)
key         (650,720) 100x60 \"Home\" -> Home
";

const BADGE: &str = "\
board       badge (badge)
panel       296x128 at scale 3
window      1032x576
well        (72,48) 888x384
key         (192,474) 96x60 \"A\" -> Press(Left)
key         (468,474) 96x60 \"B\" -> Press(Confirm)
key         (744,474) 96x60 \"C\" -> Press(Right)
key         (972,216) 48x48 \"\" -> Unassigned
";

#[test]
fn every_board_lays_its_body_out_the_same_way_it_did() {
    let goldens = [READER, BADGE];
    let mut compared = 0;
    for (board, golden) in described().into_iter().zip(goldens) {
        assert_eq!(describe(board), golden, "{} moved", board.name);
        compared += 1;
    }
    assert_eq!(compared, described().len());
    assert!(all().iter().filter(|b| b.bezel.is_some()).count() == compared);
}
