use xpui_simulator::{attributes_of, doc_ignores, fences, mounted_by, normalise, page_faults};

/// A checkout holding `docs.md` and a `src/lib.rs` that may mount it: every
/// complaint about the page and the source, or the count of compiled blocks.
fn against(page: &str, mount: bool) -> Result<usize, String> {
    let source = if mount {
        "#[cfg(doctest)]\n#[doc = include_str!(\"../docs.md\")]\nstruct Docs;\n"
    } else {
        "pub fn f() {}\n"
    };
    let mounted = source
        .lines()
        .filter_map(mounted_by)
        .any(|p| normalise(&format!("src/{p}")) == normalise("docs.md"));
    let (mut problems, compiled) = page_faults("docs.md", page, mounted, &["text", "bash", "cpp"]);
    problems.extend(doc_ignores("src/lib.rs", source));
    if problems.is_empty() {
        Ok(compiled)
    } else {
        Err(problems.join("\n"))
    }
}

#[test]
fn a_rust_block_nothing_mounts_is_a_fault() {
    let why = against("```rust\nlet x = 1;\n```\n", false).expect_err("nothing compiles it");
    assert!(why.contains("nothing compiles"), "{why}");
    assert!(against("```rust\nlet x = 1;\n```\n", true).is_ok());
}

#[test]
fn an_unlabelled_fence_is_a_fault_even_on_a_mounted_page() {
    let why = against("```\nlet x = 1;\n```\n", true).expect_err("an unlabelled fence");
    assert!(why.contains("unlabelled"), "{why}");
}

#[test]
fn a_typo_in_the_language_is_a_fault_rather_than_a_shrug() {
    let why = against("```rustt\nlet x = 1;\n```\n", true).expect_err("an unknown language");
    assert!(why.contains("rustt"), "{why}");
    assert!(against("```bash\ncargo test\n```\n", true).is_ok());
}

#[test]
fn an_ignore_is_a_fault_on_a_mounted_page_where_it_hides_best() {
    let why = against("```rust,ignore\nlet x = 1;\n```\n", true).expect_err("the budget for these is zero");
    assert!(why.contains("budget"), "{why}");
    let why = against("```ignore\nlet x = 1;\n```\n", true).expect_err("the budget for these is zero");
    assert!(why.contains("budget"), "{why}");
}

#[test]
fn a_parent_step_is_resolved_before_comparing() {
    assert_eq!(normalise("src/../docs/x.md"), "docs/x.md");
}

#[test]
fn an_attribute_is_read_off_the_fence_that_carries_it() {
    let text = "```rust,ignore\nlet x = 1;\n```\n";
    let fence = &fences(text)[0];
    assert_eq!(attributes_of(text, fence), ["ignore"]);
    let plain = "```rust\nlet x = 1;\n```\n";
    assert!(attributes_of(plain, &fences(plain)[0]).is_empty());
}

#[test]
fn each_fault_names_the_page_and_the_line_its_fence_opens_on() {
    let page = "# x\n\n```rustt\nlet x = 1;\n```\n\n```rust\nfn f() {}\n```\n";
    let (faults, compiled) = page_faults("docs/a.md", page, true, &["text"]);
    assert_eq!(faults, ["  docs/a.md:3  ```rustt is not a language this repository writes"]);
    assert_eq!(compiled, 1);
}

#[test]
fn a_mount_is_read_off_the_attribute_and_nothing_else() {
    assert_eq!(mounted_by("  #[doc = include_str!(\"../../docs/x.md\")]"), Some("../../docs/x.md".to_string()));
    assert_eq!(mounted_by("// #[doc = include_str!(\"x.md\")]"), None);
    assert_eq!(mounted_by("let s = include_str!(\"x.md\");"), None);
    assert_eq!(mounted_by("#[doc = include_str!(\"x.md)]"), None);
    assert_eq!(normalise("./a/./b/../c"), "a/c");
}

#[test]
fn an_ignore_in_a_doc_comment_is_a_fault_too() {
    let source = "/// ```rust,ignore\n/// let x = 1;\n/// ```\n//! ```text\npub fn f() {}\n";
    let found = doc_ignores("src/lib.rs", source);
    assert_eq!(found, ["  src/lib.rs:1  ```rust,ignore in a doc comment — the budget for these is zero"]);
    assert!(doc_ignores("src/lib.rs", "/// ```\n/// ```\n").is_empty());
}
