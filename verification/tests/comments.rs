use xpui_simulator::{blocks, narrates, narration, narration_hits, over_cap, Block, Caps, CommentKind};

fn measure(name: &str, text: &str) -> Vec<(usize, usize, CommentKind)> {
    blocks(name, text)
        .into_iter()
        .map(|b| (b.line, b.length, b.kind))
        .collect()
}

#[test]
fn a_doctest_fence_is_not_counted() {
    let text =
        "/// One.\n/// ```\n/// let x = 1;\n/// let y = 2;\n/// ```\n/// Two.\nfn f() {}\n";
    assert_eq!(measure("src/a.rs", text), [(1, 2, CommentKind::Doc)]);
}

#[test]
fn a_code_span_that_mentions_a_fence_is_not_a_fence() {
    let text = "/// One.\n/// because ` ```rustt ` is a typo\n/// Three.\nfn f() {}\n";
    assert_eq!(measure("src/a.rs", text), [(1, 3, CommentKind::Doc)]);
}

#[test]
fn a_crate_root_header_is_prose_and_a_module_header_is_measured() {
    let text = "//! a\n//! b\n//! c\nfn f() {}\n";
    assert!(measure("src/lib.rs", text).is_empty());
    assert_eq!(measure("src/module.rs", text), [(1, 3, CommentKind::Header)]);
}

#[test]
fn a_cpp_files_leading_block_is_its_header_and_later_ones_are_runs() {
    let text = "// header\n// header\n\nint x; // trailing is code\n// body\n// body\n";
    assert_eq!(
        measure("a.cpp", text),
        [(1, 2, CommentKind::Header), (5, 2, CommentKind::Run)]
    );
}

#[test]
fn a_manifest_comment_is_a_run() {
    let text = "# one\n# two\n[package]\n# three\n";
    assert_eq!(
        measure("Cargo.toml", text),
        [(1, 2, CommentKind::Run), (4, 1, CommentKind::Run)]
    );
}

#[test]
fn two_kinds_back_to_back_are_two_blocks() {
    let text = "//! module\n/// item\nfn f() {}\n";
    assert_eq!(
        measure("src/m.rs", text),
        [(1, 1, CommentKind::Header), (2, 1, CommentKind::Doc)]
    );
}

#[test]
fn spec_needs_a_number_after_it() {
    assert!(!narrates("the spec says", "spec "));
    assert!(narrates("see spec 08", "spec "));
}

#[test]
fn a_phrase_wrapped_across_two_lines_is_still_one_phrase() {
    let text = "// this one used\n// to carry two\n";
    let joined = text
        .lines()
        .map(|l| l.trim_start_matches('/').trim())
        .collect::<Vec<_>>()
        .join(" ");
    assert!(narrates(&joined, "used to"));
}

#[test]
fn a_run_that_says_a_phrase_is_reported_at_its_first_line() {
    let text = "fn f() {}\n// This Used\n// to be here.\nfn g() {}\n// Fine.\n";
    assert_eq!(narration_hits(text, false), [(2, 0)]);
    assert_eq!(narration()[0], "used to");
    assert_eq!(narration_hits("# see spec 4\n[x]\n", true), [(1, 4)]);
}

#[test]
fn a_block_over_its_cap_is_over() {
    let caps = Caps { doc: 2, header: 5, run: 1 };
    let block = Block { line: 1, length: 3, kind: CommentKind::Doc };
    assert!(over_cap(caps, block));
    assert!(!over_cap(caps, Block { line: 1, length: 3, kind: CommentKind::Header }));
}
