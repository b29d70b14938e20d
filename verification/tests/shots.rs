use xpui_simulator::{next_number, shot_stem_of};

fn names(list: &[&str]) -> Vec<String> {
    list.iter().map(|s| s.to_string()).collect()
}

#[test]
fn the_first_shot_of_an_empty_directory_is_number_one() {
    assert_eq!(next_number("x4", &[]), 1);
    assert_eq!(shot_stem_of("x4", 1), "x4-1");
}

#[test]
fn a_shot_already_on_disk_is_skipped_and_two_captures_take_two_numbers() {
    let mut dir = names(&["x4-1.bmp"]);
    let first = next_number("x4", &dir);
    assert_eq!(first, 2);
    dir.push(format!("{}.bmp", shot_stem_of("x4", first)));
    let second = next_number("x4", &dir);
    assert_eq!(second, 3);
    assert_ne!(shot_stem_of("x4", first), shot_stem_of("x4", second));
}

#[test]
fn the_first_gap_is_taken_and_other_boards_do_not_count() {
    assert_eq!(next_number("x4", &names(&["x4-2.bmp", "x3-1.bmp", "x4-1.png"])), 1);
    assert_eq!(next_number("x4", &names(&["x4-1.bmp", "x4-3.bmp"])), 2);
    assert_eq!(shot_stem_of("badge", 120), "badge-120");
    let many: Vec<String> = (1..=12).map(|n| format!("x4-{n}.bmp")).collect();
    assert_eq!(next_number("x4", &many), 13);
}
