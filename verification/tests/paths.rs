use xpui_simulator::{checkable, fault, probes, under_src};

#[test]
fn a_crate_at_the_repository_root_is_under_src_too() {
    assert!(under_src("src/lib.rs"));
    assert!(under_src("src/paint/controls.rs"));
    assert!(under_src("xtask/src/main.rs"));
    assert!(!under_src("tests/paint.rs"));
    assert!(!under_src("target/debug/build/x/src/y.rs"));
}

fn workspace() -> Vec<String> {
    vec!["xpui-chrome".to_string()]
}

/// Runs `fault` as if exactly the names in `here` existed at the root.
fn against(parts: &[&str], here: &[&str], ours: bool) -> Vec<String> {
    let found: Vec<bool> = probes(parts)
        .iter()
        .map(|p| match p {
            Some(path) => here.iter().any(|h| {
                let h = h.trim_end_matches('/');
                h == path.trim_end_matches('/') || h.starts_with(&format!("{}/", path.trim_end_matches('/')))
            }),
            None => true,
        })
        .collect();
    fault(parts, &workspace(), &found, ours)
}

#[test]
fn a_package_that_is_not_here_is_a_fault() {
    let found = against(&["cargo", "run", "-p", "xpui-gallery"], &[], true);
    assert_eq!(found.len(), 1, "{found:?}");
    assert!(found[0].contains("xpui-gallery"));
    assert_eq!(
        found[0],
        "`-p xpui-gallery` is not a package here (this workspace has xpui-chrome)"
    );
}

#[test]
fn every_p_on_the_line_is_read_and_not_only_the_last() {
    let found = against(&["cargo", "clippy", "-p", "nowhere", "-p", "xpui-chrome"], &[], true);
    assert_eq!(found.len(), 1);
    assert!(found[0].contains("nowhere"));
}

#[test]
fn a_feature_is_not_a_path() {
    let found = against(&["cargo", "test", "--features", "xpui/testing"], &[], true);
    assert!(found.is_empty(), "{found:?}");
}

#[test]
fn a_relative_path_is_checked_by_its_first_component_only() {
    assert!(against(&["ls", "src/deep/nothing.rs"], &["src/lib.rs"], true).is_empty());
    let found = against(&["ls", "invented/x.rs"], &["src/lib.rs"], true);
    assert_eq!(found, ["`invented/x.rs` starts at `invented`, which is not here"]);
}

#[test]
fn a_command_that_is_only_a_path_is_still_checked() {
    assert!(against(&["./build-and-test.sh"], &["build-and-test.sh"], true).is_empty());
    assert_eq!(against(&["./gate.sh"], &["build-and-test.sh"], true).len(), 1);
    assert!(against(&["cargo", "test"], &["build-and-test.sh"], true).is_empty());
    assert!(against(&["make"], &["build-and-test.sh"], true).is_empty());
}

#[test]
fn an_awk_program_is_not_a_path() {
    let found = against(&["rustc", "-vV", "|", "awk", "'/^host:/{print", "$2}'"], &["README.md"], true);
    assert!(found.is_empty(), "{found:?}");
}

#[test]
fn a_url_is_not_a_path_in_this_repository() {
    let found = against(
        &["git", "clone", "https://github.com/XPUI-Framework/xpui-gallery"],
        &["README.md"],
        true,
    );
    assert!(found.is_empty(), "{found:?}");
}

#[test]
fn a_build_output_is_not_required_to_exist() {
    assert!(against(&["open", "target/diff/"], &["README.md"], true).is_empty());
}

#[test]
fn a_bad_path_is_reported_once_and_not_twice() {
    let found = against(&["open", "nowhere/x/"], &["README.md"], true);
    assert_eq!(found, ["`open nowhere/x/` does not exist"]);
}

#[test]
fn a_skipped_verb_still_has_its_paths_read() {
    let found = against(&["elf2uf2-rs", "-d", "examples/rp2040/app.uf2"], &["README.md"], false);
    assert_eq!(found.len(), 1, "{found:?}");
    assert!(against(&["pio", "run", "-p", "nowhere"], &["README.md"], false).is_empty());
}

#[test]
fn only_the_named_flags_exempt_their_value() {
    assert!(against(&["cargo", "test", "--features", "xpui/testing"], &["README.md"], true).is_empty());
    let found = against(&["ls", "-l", "invented/x"], &["README.md"], true);
    assert_eq!(found.len(), 1, "{found:?}");
}

#[test]
fn each_word_names_the_path_it_would_check() {
    let asked = probes(&["open", "docs/x.md", "./a/b", "--features", "x/y", "~/z"]);
    assert_eq!(
        asked,
        vec![None, Some("docs/x.md".to_string()), Some("a".to_string()), None, None, None]
    );
}

#[test]
fn a_quoted_or_braced_word_is_not_checkable() {
    assert!(!checkable(&"'x/y'".chars().collect::<Vec<_>>()));
    assert!(!checkable(&"a{b}/c".chars().collect::<Vec<_>>()));
    assert!(checkable(&"docs/x.md".chars().collect::<Vec<_>>()));
}
