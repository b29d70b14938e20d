use xpui_simulator::{doc_comments, links, names_a_rust_item};

#[test]
fn a_link_inside_a_fence_is_not_a_link() {
    assert!(links("```rust\nlet x = [1](2);\n```\n").is_empty());
    assert_eq!(links("see [the guide](docs/guide.md)\n").len(), 1);
}

#[test]
fn a_link_inside_a_code_span_is_not_a_link() {
    assert!(links("write `[text](target)` like this\n").is_empty());
}

#[test]
fn a_title_and_angle_brackets_are_not_part_of_the_path() {
    assert_eq!(links("[a](docs/x.md \"Title\")\n")[0].1, "docs/x.md");
    assert_eq!(links("[a](<docs/a b.md>)\n")[0].1, "docs/a b.md");
}

#[test]
fn a_bare_word_is_handed_back_for_the_filesystem_to_judge() {
    assert_eq!(links("[Screen](Screen)\n")[0].1, "Screen");
    assert_eq!(links("[MIT](LICENSE)\n")[0].1, "LICENSE");
    assert_eq!(links("[x](Makefile)\n")[0].1, "Makefile");
    assert_eq!(links("[x](README.md)\n").len(), 1);
}

#[test]
fn only_a_word_that_names_nothing_is_handed_to_rustdoc() {
    assert!(names_a_rust_item("Screen"));
    assert!(names_a_rust_item("Vec::push"));
    assert!(names_a_rust_item("crate"));
    assert!(names_a_rust_item("metrics"));
    assert!(!names_a_rust_item("LICENSE"));
    assert!(!names_a_rust_item("CHANGELOG"));
    assert!(!names_a_rust_item("README.md"));
}

#[test]
fn a_url_and_an_anchor_are_not_paths() {
    assert!(links("[a](https://example.com/x)\n").is_empty());
    assert!(links("[a](#section)\n").is_empty());
    assert!(links("[a](mailto:x@y.z)\n").is_empty());
    assert_eq!(links("[a](docs/x.md#section)\n")[0].1, "docs/x.md");
}

#[test]
fn only_a_doc_comment_is_prose_in_a_rust_file() {
    let source = "/// See [the guide](docs/guide.md).\nlet s = \"[x](nowhere.md)\";\n";
    let prose = doc_comments(source);
    assert_eq!(links(&prose).len(), 1);
    assert_eq!(
        links(&prose)[0].0,
        1,
        "the line number still points at the source"
    );
}

#[test]
fn a_link_on_a_later_line_carries_that_line() {
    let found = links("one\n\n[a](x.md) and [b](y/z.md?q)\n");
    assert_eq!(
        found,
        vec![(3, "x.md".to_string()), (3, "y/z.md".to_string())]
    );
}
