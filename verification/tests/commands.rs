use xpui_simulator::{block_steps, cd_dir, fault, fences, is_shell, leaves, probes, walk, Fence, Step};

fn workspace() -> Vec<String> {
    vec!["xpui-chrome".to_string()]
}

/// Whether `path` is one of `entries` or inside one, as a tree holding
/// exactly those entries answers; a parent step is resolved textually, so
/// `..` is always "here".
fn exists_in(entries: &[&str], path: &str) -> bool {
    let path = path.trim_end_matches('/');
    if path == ".." || path.starts_with("../") {
        return true;
    }
    entries.iter().any(|e| {
        let e = e.trim_end_matches('/');
        e == path || e.starts_with(&format!("{path}/"))
    })
}

/// Everything wrong in one fenced block, with its line, in a tree holding
/// exactly `entries`, and the walk's counts.
fn block_faults_counted(
    fence: &Fence,
    packages: &[String],
    entries: &[&str],
) -> (Vec<(usize, String)>, usize, usize, usize) {
    let steps = block_steps(fence);
    let here: Vec<bool> = steps
        .iter()
        .map(|s| match s {
            Step::Cd { target: Some(t) } => exists_in(entries, &cd_dir(t)),
            _ => false,
        })
        .collect();
    let (active, w) = walk(&steps, &here);
    let mut out = Vec::new();
    for (step, on) in steps.iter().zip(active) {
        if let (Step::Run { line, parts, ours }, true) = (step, on) {
            let words: Vec<&str> = parts.iter().map(String::as_str).collect();
            let found: Vec<bool> = probes(&words)
                .iter()
                .map(|p| p.as_ref().is_none_or(|p| exists_in(entries, p)))
                .collect();
            for why in fault(&words, packages, &found, *ours) {
                out.push((*line, why));
            }
        }
    }
    (out, w.checked, w.skipped, w.left)
}

fn block_faults(fence: &Fence, packages: &[String], entries: &[&str]) -> Vec<(usize, String)> {
    block_faults_counted(fence, packages, entries).0
}

#[test]
fn a_step_above_the_root_leaves_the_repository() {
    let up = fences("```bash\ncd ..\ncargo run -p nowhere\n```\n");
    assert!(block_faults(&up[0], &workspace(), &["docs/"]).is_empty());
}

#[test]
fn leaving_the_repository_latches_for_the_rest_of_the_block() {
    let block = fences("```bash\ncd xpui-gallery\ncd docs\ncargo run -p nowhere\n```\n");
    assert!(block_faults(&block[0], &workspace(), &["docs/"]).is_empty());
}

#[test]
fn a_cd_into_a_sibling_checkout_ends_the_block() {
    let inside = fences("```bash\ncd docs\ncargo run -p nowhere\n```\n");
    assert_eq!(block_faults(&inside[0], &workspace(), &["docs/"]).len(), 1);
    let away = fences("```bash\ncd xpui-gallery\ncargo run -p xpui-gallery\n```\n");
    assert!(block_faults(&away[0], &workspace(), &["docs/"]).is_empty());
    let mixed =
        fences("```bash\ncargo run -p nowhere\ncd xpui-gallery\ncargo run -p also-nowhere\n```\n");
    assert_eq!(block_faults(&mixed[0], &workspace(), &["docs/"]).len(), 1);
}

#[test]
fn a_console_or_shell_block_is_shell() {
    for language in ["bash", "sh", "shell", "console"] {
        assert!(is_shell(language), "a {language} block would not be read at all");
    }
    assert!(!is_shell("text"));
    assert!(!is_shell("rust"));
}

#[test]
fn the_walk_counts_what_it_checked_skipped_and_left() {
    let block = fences(
        "```bash\ncargo test\npio run\ncd ../elsewhere\ncargo run -p nowhere\nmake\n```\n",
    );
    let (faults, checked, skipped, left) = block_faults_counted(&block[0], &workspace(), &[]);
    assert!(faults.is_empty(), "{faults:?}");
    assert_eq!((checked, skipped, left), (1, 1, 2));
}

#[test]
fn a_fault_keeps_the_line_its_command_started_on() {
    let block = fences("```bash\ncargo build \\\n  -p nowhere\n```\n");
    let found = block_faults(&block[0], &workspace(), &[]);
    assert_eq!(found.len(), 1, "{found:?}");
    assert_eq!(found[0].0, 2);
}

#[test]
fn a_cd_names_its_directory_without_trailing_slashes() {
    assert_eq!(cd_dir("docs//"), "docs");
    assert_eq!(cd_dir("a/b"), "a/b");
    assert!(leaves(None, true));
    assert!(leaves(Some(".."), true));
    assert!(leaves(Some("../x"), true));
    assert!(leaves(Some("/tmp"), true));
    assert!(leaves(Some("~/src"), true));
    assert!(leaves(Some("docs"), false));
    assert!(!leaves(Some("docs/"), true));
}

#[test]
fn a_cd_step_and_a_command_step_are_told_apart() {
    let block = fences("```bash\ncd docs\nsudo FOO=1 pio run\n\ncargo test\n```\n");
    let steps = block_steps(&block[0]);
    assert_eq!(steps.len(), 3);
    assert!(matches!(&steps[0], Step::Cd { target: Some(t) } if t == "docs"));
    assert!(matches!(&steps[1], Step::Run { line: 3, parts, ours: false } if parts[0] == "pio"));
    assert!(matches!(&steps[2], Step::Run { line: 5, ours: true, .. }));
}
