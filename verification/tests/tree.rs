use xpui_simulator::{
    crate_named, crate_verdict, denies_missing_docs, docs_report, front_page_report, has_unit_test,
    in_crate_src, is_package, line_count, package_name, publishable, sizes_report, tested_report,
    Verdict,
};

/// A one-crate tree: its manifest and `src/lib.rs`, and whether the crate is
/// tested, as the testing check reads it.
fn one_crate(manifest: &str, lib: &str) -> Vec<(String, bool)> {
    assert!(is_package(manifest));
    let tested = in_crate_src("src/lib.rs", "") && has_unit_test(lib);
    vec![(crate_named("Cargo.toml"), tested)]
}

#[test]
fn a_file_over_the_limit_is_named_and_one_under_it_is_not() {
    let long = "// pad\n".repeat(12);
    let files = [("src/big.rs", line_count(&long)), ("src/small.rs", line_count("// one line\n"))];
    let why = sizes_report(&files, 10).expect_err("12 lines is over a limit of 10");
    assert!(why.contains("src/big.rs"), "{why}");
    assert!(!why.contains("src/small.rs"), "{why}");
    assert!(sizes_report(&files, 100).is_ok());
}

#[test]
fn a_tree_with_no_sources_is_a_filter_matching_nothing() {
    assert!(sizes_report(&[], 400).is_err());
    assert!(sizes_report(&[("tests/x.rs", 3)], 400).is_err());
}

#[test]
fn a_front_page_without_the_warning_is_named() {
    let good = "[![CI](x)](y)\n\n# x\n\n> [!WARNING]\n> Under heavy development. Not production-ready. The\n> API can break without notice.\n";
    assert!(front_page_report(&[("README.md", good), ("core/README.md", "# a crate\n")]).is_ok());
    let why = front_page_report(&[("README.md", "# x\n")]).expect_err("no warning");
    assert!(why.contains("README.md: no development warning"), "{why}");
    for bad in [
        "> [!WARNING]\n> Under heavy development.\n",
        "> [!WARNING]\n> The API can break.\n",
        "> Under heavy development. The API can break.\n",
        "> [!WARNING]\n> Do not use.\n\nUnder heavy development. The API can break.\n",
    ] {
        let text = format!("# x\n\n{bad}");
        assert!(front_page_report(&[("README.md", text.as_str())]).is_err(), "{bad}");
    }
    let why = front_page_report(&[("docs/README.md", "# nested\n")]).expect_err("there is no front page");
    assert!(why.contains("matching nothing"), "{why}");
}

#[test]
fn a_crate_tested_only_by_a_cfg_test_module_counts_as_tested() {
    let crates = one_crate("[package]\nname = \"root\"\n", "#[cfg(test)]\nmod tests {}\n");
    assert!(tested_report(&crates, &[]).is_ok());
    assert_eq!(crate_verdict(".", true, &[]), Verdict::Tested);
}

#[test]
fn a_crate_with_no_tests_needs_a_written_reason() {
    let crates = one_crate("[package]\nname = \"root\"\n", "pub fn f() {}\n");
    let why = tested_report(&crates, &[]).expect_err("no tests anywhere");
    assert!(why.contains("has no tests"), "{why}");
    let note = tested_report(&crates, &[(".", "a HAL cannot compile for a laptop")]);
    assert!(note.expect("exempt").contains("HAL"));
}

#[test]
fn an_exemption_for_a_crate_that_grew_tests_is_a_failure() {
    let crates = one_crate("[package]\nname = \"root\"\n", "#[cfg(test)]\nmod tests {}\n");
    let why = tested_report(&crates, &[(".", "was untested once")]).expect_err("the exemption is stale");
    assert!(why.contains("Remove the exemption"), "{why}");
}

#[test]
fn a_sentence_about_cfg_test_is_not_a_test() {
    let crates = one_crate("[package]\nname = \"root\"\n", "// Add a #[cfg(test)] module here one day.\n");
    assert!(tested_report(&crates, &[]).is_err());
}

#[test]
fn a_publishable_crate_without_the_deny_is_named_and_none_at_all_is_said() {
    assert!(publishable("[package]\nname = \"pub\"\n"));
    let why = docs_report(true, &[("src/lib.rs", denies_missing_docs("pub fn f() {}\n"))]).expect_err("no deny");
    assert!(why.contains("src/lib.rs"), "{why}");
    assert!(!publishable("[package]\nname = \"x\"\npublish = false\n"));
    assert_eq!(docs_report(true, &[]).expect("nothing to check"), "no publishable crates");
}

#[test]
fn each_report_says_exactly_what_it_counted() {
    assert_eq!(
        sizes_report(&[("src/a.rs", 3), ("xtask/src/b.rs", 4), ("README.md", 900)], 10),
        Ok("2 file(s), none over 10 lines".to_string())
    );
    let why = sizes_report(&[("src/a.rs", 123), ("src/b.rs", 4)], 100).unwrap_err();
    assert!(why.starts_with("    123  src/a.rs\n1 file(s) above the 100-line limit."), "{why}");
    assert_eq!(docs_report(false, &[("src/lib.rs", false)]), Ok("not adopted".to_string()));
    assert_eq!(
        docs_report(true, &[("src/lib.rs", true), ("core/src/lib.rs", true)]),
        Ok("2 crate(s) deny missing_docs".to_string())
    );
    assert_eq!(
        tested_report(&[(".".to_string(), false)], &[(".", "why"), ("gone", "old")]),
        Err("  the exemption names gone, which is not a crate here".to_string())
    );
    assert_eq!(
        tested_report(&[("core".to_string(), false)], &[("core", "a HAL")]),
        Ok(format!("  core{} a HAL", " ".repeat(20)))
    );
    assert_eq!(crate_named("core/Cargo.toml"), "core");
    assert_eq!(crate_named("Cargo.toml"), ".");
    assert!(in_crate_src("core/src/lib.rs", "core"));
    assert!(!in_crate_src("core/srcx/lib.rs", "core"));
    assert!(in_crate_src("src/main.rs", ""));
    assert!(!in_crate_src("xtask/src/main.rs", ""));
}

#[test]
fn the_deny_is_a_line_of_its_own() {
    assert!(denies_missing_docs("//! Docs.\n  #![deny(missing_docs)]  \npub fn f() {}\n"));
    assert!(!denies_missing_docs("// #![deny(missing_docs)]\n"));
    assert!(!denies_missing_docs("#![deny(missing_docs, unsafe_code)]\n"));
}

#[test]
fn a_manifest_names_its_package_in_the_package_table() {
    assert_eq!(package_name("[package]\nname = \"xpui-chrome\"\n"), Some("xpui-chrome".to_string()));
    assert_eq!(package_name("[workspace]\nname = \"no\"\n"), None);
    assert_eq!(
        package_name("[dependencies]\nname = \"no\"\n[package]\nversion = \"1\"\nname=\"yes\"\n"),
        Some("yes".to_string())
    );
    assert!(!is_package("[workspace]\nmembers = []\n"));
}

#[test]
fn the_first_exemption_for_a_name_is_the_one_read() {
    let exempt = [("core", "one"), (".", "two"), (".", "three")];
    assert_eq!(crate_verdict(".", false, &exempt), Verdict::Exempt(1));
    assert_eq!(crate_verdict("boards", false, &exempt), Verdict::Untested);
    assert_eq!(line_count(""), 0);
    assert_eq!(line_count("a\r\nb"), 2);
}

#[test]
fn a_source_root_prefix_matches_a_crate_at_the_repository_root() {
    assert!(in_crate_src("src/lib.rs", ""));
    assert!(in_crate_src("core/src/lib.rs", "core"));
    assert!(!in_crate_src("src/lib.rs", "core"));
}
