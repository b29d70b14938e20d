use xpui_simulator::{faults, headings};

const ORDER: [&str; 4] = ["Using it", "Requirements", "Checking it", "License"];
const OPTIONAL: [&str; 1] = ["Requirements"];

fn check(page: &str) -> Vec<String> {
    faults(&headings(page), &ORDER, &OPTIONAL)
}

#[test]
fn the_canonical_order_passes_with_or_without_the_optional() {
    assert!(check("## Using it\n## Requirements\n## Checking it\n## License\n").is_empty());
    assert!(check("## Using it\n## Checking it\n## License\n").is_empty());
}

#[test]
fn a_heading_not_on_the_list_is_named() {
    let why = check("## Using it\n## Why a macro\n## Checking it\n## License\n");
    assert_eq!(why, ["`## Why a macro` is not on the list"]);
}

#[test]
fn a_duplicate_is_named_once_and_a_missing_one_too() {
    let why = check("## Using it\n## Using it\n## License\n");
    assert!(why.contains(&"`## Using it` appears twice".to_string()));
    assert!(why.contains(&"`## Checking it` is missing".to_string()));
}

#[test]
fn out_of_order_is_named() {
    let why = check("## Checking it\n## Using it\n## License\n");
    assert_eq!(why, ["`## Using it` is out of order"]);
}

#[test]
fn a_heading_inside_a_fence_is_not_a_heading() {
    let page = "## Using it\n```text\n## not a heading\n```\n## Checking it\n## License\n";
    assert!(check(page).is_empty());
}

#[test]
fn a_heading_is_trimmed() {
    assert_eq!(headings("##  Using it  \n# Title\n### Deeper\n"), ["Using it"]);
}
