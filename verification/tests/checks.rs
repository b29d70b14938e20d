use xpui_simulator::{
    block_steps, comments_report, compiled_report, compiled_report_checked, crate_doc, docs_in_step, fences, in_scope, links_report,
    manifest_crate, narration_report, narration_report_checked, readme_report, reference_report,
    reference_report_checked, resolve_report, symbols_from,
    walk, Caps, Docs, Kind, Order, Reference, Step,
};

fn order() -> Order<'static> {
    Order {
        order: &["What it is", "Quick start", "Licence"],
        optional: &["Quick start"],
        nested: &["What it is"],
        nested_optional: &[],
        not_a_front_page: &["docs/README.md"],
    }
}

#[test]
fn a_readme_in_order_passes_and_one_out_of_it_is_named() {
    let good = "# x\n\n## What it is\n\n## Licence\n";
    let nested = "# c\n\n## What it is\n";
    assert_eq!(
        readme_report(order(), &[("README.md", good), ("core/README.md", nested), ("docs/README.md", "")]),
        Ok("2 README(s) in order".to_string())
    );
    let bad = "# x\n\n## Licence\n\n## What it is\n";
    let why = readme_report(order(), &[("README.md", bad), ("docs/README.md", "")]).unwrap_err();
    assert!(why.starts_with("  README.md: "), "{why}");
    assert!(why.ends_with("What is not on the list moves to docs/."), "{why}");
}

#[test]
fn a_readme_check_that_reads_nothing_says_so() {
    let none = Order { order: &[], optional: &[], nested: &[], nested_optional: &[], not_a_front_page: &[] };
    assert_eq!(readme_report(none, &[]), Ok("not adopted".to_string()));
    assert_eq!(
        readme_report(order(), &[("docs/README.md", "")]),
        Err("no README found — the filter is matching nothing".to_string())
    );
    let why = readme_report(order(), &[("README.md", "## What it is\n## Licence\n")]).unwrap_err();
    assert!(why.contains("the exemption names docs/README.md, which is not a README here"), "{why}");
}

#[test]
fn a_link_that_resolves_or_names_an_item_passes_and_a_broken_one_is_named() {
    let links = [
        ("README.md", 3, "docs/a.md", true),
        ("src/lib.rs", 7, "Session", false),
        ("docs/b.md", 12, "missing/c.md", false),
    ];
    assert_eq!(links_report(3, &links), Err("  docs/b.md:12  missing/c.md".to_string()));
    assert_eq!(links_report(3, &links[..2]), Ok("2 relative link(s) across 3 file(s)".to_string()));
    assert!(links_report(0, &[]).unwrap_err().contains("matching nothing"));
}

#[test]
fn tests_are_out_of_scope_and_a_scope_narrows_the_rest() {
    assert!(in_scope("src/lib.rs", None));
    assert!(!in_scope("tests/a.rs", None));
    assert!(!in_scope("core/tests/a.rs", None));
    assert!(in_scope("core/src/a.rs", Some("core/")));
    assert!(!in_scope("src/a.rs", Some("core/")));
}

#[test]
fn a_comment_block_over_its_cap_is_named_with_its_line() {
    let caps = Caps { doc: 2, header: 5, run: 1 };
    let source = "//! A module.\n\n/// One.\n/// Two.\n/// Three.\nfn f() {\n    // a\n    // b\n}\n";
    let why = comments_report(Some(caps), &[("src/a.rs", source)]).unwrap_err();
    assert!(why.starts_with("  src/a.rs:3  3 lines, cap 2\n  src/a.rs:7  2 lines, cap 1\n\n"), "{why}");
    let roomy = Caps { doc: 9, header: 9, run: 9 };
    assert_eq!(
        comments_report(Some(roomy), &[("src/a.rs", source)]),
        Ok("1 doc comments, 1 headers, 1 runs measured".to_string())
    );
    assert_eq!(comments_report(None, &[]), Ok("not adopted".to_string()));
    assert!(comments_report(Some(roomy), &[("src/a.rs", "fn f() {}\n")]).unwrap_err().contains("matching nothing"));
}

#[test]
fn a_phrase_about_the_past_is_named_where_its_run_starts() {
    let source = "fn f() {}\n// This used\n// to work.\n// Fine now.\n";
    let why = narration_report(true, &[("src/a.rs", source)]).unwrap_err();
    assert_eq!(why, "  src/a.rs:2  `used to`\n\nThe merged state has no past. The commit message has.");
    assert_eq!(
        narration_report(true, &[("src/a.rs", "// Fine.\nfn f() {}\n"), ("Cargo.toml", "# A manifest.\n[package]\n")]),
        Ok("2 comment lines, none about the past".to_string())
    );
    let manifest = narration_report(true, &[("Cargo.toml", "# spec 3 says so\n")]).unwrap_err();
    assert!(manifest.starts_with("  Cargo.toml:1  `spec`"), "{manifest}");
    assert_eq!(narration_report(false, &[]), Ok("not adopted".to_string()));
    assert!(narration_report(true, &[("src/a.rs", "fn f() {}\n")]).unwrap_err().contains("matching nothing"));
}

#[test]
fn the_command_report_counts_every_block_and_names_every_fault() {
    let block = fences("```bash\ncargo test\npio run\ncd /elsewhere\nmake\n```\n");
    let steps = block_steps(&block[0]);
    let here: Vec<bool> = steps.iter().map(|s| !matches!(s, Step::Cd { .. })).collect();
    let (_, w) = walk(&steps, &here);
    assert_eq!(
        resolve_report(&[("README.md", Vec::new(), w)]),
        Ok("1 command(s) in 1 block(s); 1 another tool's, 1 in another repository across 1 block(s)".to_string())
    );
    let (_, w) = walk(&steps, &here);
    let why = resolve_report(&[("docs/x.md", vec![(4, "`-p nowhere` is not a package here".to_string())], w)])
        .unwrap_err();
    assert!(why.starts_with("  docs/x.md:4  `-p nowhere` is not a package here\n\nA command belonging"), "{why}");
}

#[test]
fn a_mounted_page_compiles_and_an_exemption_must_name_a_page() {
    let sources = [("src/lib.rs", "#[cfg(doctest)]\n#[doc = include_str!(\"../docs/guide.md\")]\nstruct Guide;\n")];
    let pages = [("docs/guide.md", "```rust\nlet x = 1;\n```\n"), ("docs/notes.md", "```text\nx\n```\n")];
    assert_eq!(
        compiled_report(&sources, &pages, &[], &["text", "bash"]),
        Ok("1 Rust block(s), all compiled".to_string())
    );
    let why = compiled_report(&[], &pages, &["docs/gone.md"], &["text"]).unwrap_err();
    assert!(why.starts_with("  docs/guide.md:1  ```rust that nothing compiles\n"), "{why}");
    assert!(why.contains("  the exemption names docs/gone.md, which is not a document here\n\nMount a page"), "{why}");
    assert!(why.ends_with("or make it `text`."), "{why}");
    assert_eq!(
        compiled_report(&[], &pages, &["docs/guide.md"], &["text"]),
        Ok("0 Rust block(s), all compiled".to_string())
    );
}

#[test]
fn a_manifest_names_the_crate_it_builds_and_its_root() {
    assert_eq!(
        manifest_crate("[package]\nname = \"xpui-chrome\"\n"),
        Some(("xpui_chrome".to_string(), "src/lib.rs".to_string()))
    );
    assert_eq!(
        manifest_crate("[package]\nname = \"a\"\n[lib]\nname = \"b\"\npath = \"lib/b.rs\"\n"),
        Some(("b".to_string(), "lib/b.rs".to_string()))
    );
    assert_eq!(manifest_crate("[workspace]\nmembers = []\n"), None);
}

#[test]
fn a_crate_is_documented_under_target_unless_a_path_is_given() {
    assert_eq!(
        crate_doc("xpui", 1),
        ("target/doc/xpui".to_string(), "xpui".to_string(), String::new())
    );
    assert_eq!(
        crate_doc("other/target/doc/xpui_eg/", 2),
        ("other/target/doc/xpui_eg/".to_string(), "xpui_eg".to_string(), "xpui_eg::".to_string())
    );
}

const PAGE: &str = r##"<span class="sub-heading"><a class="src" href="../src/xpui/list.rs.html#1-4">Source</a> </span><div id="implementations-list"><section id="method.push" class="method"><a class="src rightside" href="../src/xpui/list.rs.html#6-8">Source</a></section></div>"##;

const SOURCE: &str = "/// A list.\npub struct List {\n    rows: u8,\n}\n\n/// Adds a row.\npub fn push(&mut self) {\n}\n";

fn docs<'a>(pages: &'a [(&'a str, &'a str)], sources: &'a [(&'a str, &'a str)]) -> Docs<'a> {
    Docs {
        krate: "xpui",
        prefix: "",
        root: "src",
        all: r#"<h3 id="structs">S</h3><ul><li><a href="struct.List.html">List</a></li></ul><h3 id="structs">S</h3><ul><li><a href="struct.Far.html">far::Far</a></li></ul>"#,
        index: "",
        pages,
        sources,
    }
}

#[test]
fn the_names_are_read_from_the_pages_and_the_sources_they_point_at() {
    let pages = [("struct.List.html", PAGE), ("struct.Far.html", "<p>elsewhere</p>")];
    let sources = [("src/list.rs", SOURCE)];
    let found = symbols_from(docs(&pages, &sources));
    let names: Vec<(&str, Kind)> = found.iter().map(|s| (s.name.as_str(), s.kind)).collect();
    assert_eq!(names, [("List", Kind::Item), ("List::push", Kind::Member), ("far", Kind::Foreign)]);
    assert_eq!(found[0].summary, "A list.");
    assert_eq!(found[0].declaration, "pub struct List");
    assert_eq!(found[0].at, "src/list.rs:2");
    assert_eq!(found[1].summary, "Adds a row.");
    assert_eq!(found[1].at, "src/list.rs:7");
}

#[test]
fn the_reference_report_says_how_far_the_reference_has_got() {
    let pages = [("struct.List.html", PAGE), ("struct.Far.html", "<p>elsewhere</p>")];
    let sources = [("src/list.rs", SOURCE)];
    let symbols = symbols_from(docs(&pages, &sources));
    assert_eq!(reference_report(None, &symbols, &[]), Ok("not adopted".to_string()));
    let partial = Reference { crates: &["xpui"], pages: "docs/*.md", complete: false, exempt: &[] };
    let said = reference_report(Some(&partial), &symbols, &[("docs/api.md", "# API\n")]).unwrap();
    assert!(said.starts_with("partial: 0 of "), "{said}");
    assert!(said.ends_with("across 1 page(s)"), "{said}");
    let complete = Reference { crates: &["xpui"], pages: "docs/*.md", complete: true, exempt: &[] };
    let why = reference_report(Some(&complete), &symbols, &[("docs/api.md", "# API\n")]).unwrap_err();
    assert!(why.contains("fault(s). A section's abstract"), "{why}");
    assert_eq!(
        reference_report(Some(&complete), &[], &[]),
        Err("rustdoc's output names no public item: its HTML has changed shape".to_string())
    );
}

#[test]
fn a_repository_that_has_not_adopted_it_says_so() {
    assert_eq!(reference_report(None, &[], &[]), Ok("not adopted".to_string()));
}

#[test]
fn pages_in_step_with_their_sources_can_be_read() {
    let pages = [("struct.List.html", PAGE), ("struct.Far.html", "<p>elsewhere</p>")];
    let sources = [("src/list.rs", SOURCE)];
    assert!(docs_in_step(docs(&pages, &sources)));
    // The item may start just past the source's last line, and no further.
    let last = PAGE.replace("#1-4", "#9-12");
    let pages = [("struct.List.html", last.as_str()), ("struct.Far.html", "<p>elsewhere</p>")];
    assert!(docs_in_step(docs(&pages, &sources)));
    let past = PAGE.replace("#1-4", "#10-12");
    let pages = [("struct.List.html", past.as_str()), ("struct.Far.html", "<p>elsewhere</p>")];
    assert!(!docs_in_step(docs(&pages, &sources)));
}

#[test]
fn a_member_past_the_end_of_a_shorter_source_is_out_of_step() {
    let pages = [("struct.List.html", PAGE), ("struct.Far.html", "<p>elsewhere</p>")];
    let older = [("src/list.rs", "/// A list.\npub struct List;\n")];
    assert!(!docs_in_step(docs(&pages, &older)));
    // A page that points at no source asks nothing of one.
    let foreign = [("struct.List.html", "<p>elsewhere</p>"), ("struct.Far.html", "<p>elsewhere</p>")];
    assert!(docs_in_step(docs(&foreign, &[])));
}

#[test]
fn the_checked_reports_answer_as_the_reports_do_while_the_counts_fit() {
    let sources = [("src/lib.rs", "#[cfg(doctest)]\n#[doc = include_str!(\"../docs/guide.md\")]\nstruct Guide;\n")];
    let pages = [("docs/guide.md", "```rust\nlet x = 1;\n```\n"), ("docs/notes.md", "```text\nx\n```\n")];
    assert_eq!(
        compiled_report_checked(&sources, &pages, &[], &["text", "bash"]),
        Some(Ok("1 Rust block(s), all compiled".to_string()))
    );
    let files = [("src/a.rs", "// Fine.\nfn f() {}\n"), ("Cargo.toml", "# A manifest.\n[package]\n")];
    assert_eq!(narration_report_checked(true, &files), Some(Ok("2 comment lines, none about the past".to_string())));
    assert_eq!(narration_report_checked(false, &[]), Some(Ok("not adopted".to_string())));
    assert_eq!(reference_report_checked(None, &[], &[]), Some(Ok("not adopted".to_string())));
}
