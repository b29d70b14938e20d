use xpui_simulator::{documented_stages, expected_stages, link_report, stages_report, Link};

fn owned(list: &[&str]) -> Vec<String> {
    list.iter().map(|s| s.to_string()).collect()
}

/// The heading the stage list sits under.
fn heading() -> String {
    format!("## The {}", "gate")
}

#[test]
fn the_documented_list_must_equal_the_running_list_in_order() {
    let page = format!("# x\n\n{}\n\n```text\nformat · lint · tests\n```\n", heading());
    let ok = owned(&["format", "lint", "tests"]);
    let reordered = owned(&["lint", "format", "tests"]);
    assert!(stages_report(&page, &ok).is_ok());
    assert!(stages_report(&page, &reordered).is_err());
}

#[test]
fn an_all_line_is_compared_only_when_all_is_running() {
    let page = format!("{}\n\n```text\nformat · lint\n+ links\n```\n", heading());
    let check = owned(&["format", "lint"]);
    let all = owned(&["format", "lint", "links"]);
    assert!(stages_report(&page, &check).is_ok());
    assert!(stages_report(&page, &all).is_ok());
}

#[test]
fn the_report_counts_the_stages_and_names_both_lists_when_they_differ() {
    let page = format!("{}\n\n```text\nformat · lint\n```\n", heading());
    assert_eq!(
        stages_report(&page, &owned(&["format", "lint"])),
        Ok("2 stages, as documented".to_string())
    );
    let why = stages_report(&page, &owned(&["lint"])).unwrap_err();
    assert!(why.starts_with("  AGENTS.md lists: format · lint\n"), "{why}");
    assert!(why.contains("runs:   lint\n"), "{why}");
    assert!(why.ends_with("do not type it."), "{why}");
}

#[test]
fn a_page_without_the_list_has_not_adopted_it() {
    assert_eq!(stages_report("# x\n", &owned(&["a"])), Ok("not adopted".to_string()));
    let empty = format!("{}\n\n```text\n · \n```\n", heading());
    assert_eq!(stages_report(&empty, &owned(&["a"])), Ok("not adopted".to_string()));
    assert_eq!(documented_stages("# x\n"), None);
    assert_eq!(documented_stages(&empty), Some(Vec::new()));
}

#[test]
fn the_first_text_block_after_the_heading_is_the_list() {
    let page = format!(
        "```text\nnot · this\n```\n{}\n\n```bash\nx\n```\n```text\na · b\nc\n```\n",
        heading()
    );
    assert_eq!(documented_stages(&page), Some(owned(&["a", "b", "c"])));
}

#[test]
fn an_all_line_adds_its_stages_after_the_base() {
    let listed = owned(&["format", "lint", "+ links", "+docs"]);
    assert_eq!(expected_stages(&listed, 2), owned(&["format", "lint"]));
    assert_eq!(expected_stages(&listed, 3), owned(&["format", "lint", "links", "docs"]));
}

#[test]
fn the_link_must_be_a_relative_link_to_the_agents_file() {
    let name = "LINK.md";
    assert_eq!(link_report(false, false, name, &Link::Missing), Ok("not adopted".to_string()));
    assert_eq!(link_report(true, false, name, &Link::Missing), Err("  AGENTS.md is missing".to_string()));
    assert_eq!(link_report(true, true, name, &Link::Missing), Err("  LINK.md is missing".to_string()));
    let copied = link_report(true, true, name, &Link::File).unwrap_err();
    assert!(copied.starts_with("  LINK.md is a file, not a symlink to AGENTS.md"), "{copied}");
    assert!(copied.ends_with("re-link it"), "{copied}");
    assert_eq!(
        link_report(true, true, name, &Link::Points("AGENTS.md".to_string())),
        Ok("AGENTS.md, and LINK.md → AGENTS.md".to_string())
    );
    let absolute = link_report(true, true, name, &Link::Points("/home/me/AGENTS.md".to_string())).unwrap_err();
    assert_eq!(absolute, "  LINK.md points at /home/me/AGENTS.md, not AGENTS.md — the link must be relative");
    assert_eq!(
        link_report(true, true, name, &Link::Unreadable("denied".to_string())),
        Err("  LINK.md: denied".to_string())
    );
}
