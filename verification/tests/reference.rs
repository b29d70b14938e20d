use xpui_simulator::{compare, sections_in, Kind, Symbol};

const PAGE: &str = "# Lists\n\n## Topics\n\n| [`List`](#list) | A list. |\n\n## `List`\n\nA themed list, filling [the space](#x)\nit is given.\n\n```text\npub struct List<M>\n```\n\n| Parameter | Meaning |\n|---|---|\n| `index` | zero-based |\n\n```rust\n## `NotASection`\n```\n\n### Adding rows\n\n#### `List::push`\n\nAdds a row.\n\n```text\npub fn push(self, row: ListRow<M>) -> Self\n```\n\n| `Hint::Standard` | The host's label. |\n";

fn symbol(name: &str, kind: Kind, summary: &str, declaration: &str) -> Symbol {
    Symbol {
        name: name.into(),
        kind,
        summary: summary.into(),
        declaration: declaration.into(),
        at: "src/x.rs:1".into(),
    }
}

fn symbols(push: &str) -> Vec<Symbol> {
    vec![
        symbol(
            "List",
            Kind::Item,
            "A themed list, filling the space it is given.",
            "pub struct List<M>",
        ),
        symbol(
            "List::push",
            Kind::Member,
            push,
            "pub fn push( mut self, row: ListRow<M>, ) -> Self",
        ),
        symbol("Hint::Standard", Kind::Row, "The host's label.", ""),
    ]
}

#[test]
fn a_page_that_agrees_with_rustdoc_has_no_faults() {
    let tally = compare(&symbols("Adds a row."), &sections_in(PAGE, "lists.md"), &[]);
    assert!(tally.faults.is_empty(), "{:?}", tally.faults);
    assert!(tally.missing.is_empty());
    assert_eq!(tally.placed, 3);
}

#[test]
fn one_word_changed_in_a_summary_is_an_abstract_fault() {
    let tally = compare(
        &symbols("Adds a row at the end."),
        &sections_in(PAGE, "lists.md"),
        &[],
    );
    assert_eq!(tally.faults.len(), 1, "{:?}", tally.faults);
    assert!(tally.faults[0].contains("abstract") && tally.faults[0].contains("List::push"));
}

#[test]
fn a_deleted_section_is_missing_and_a_changed_signature_is_a_fault() {
    let without = PAGE.replace("#### `List::push`", "#### Push");
    let tally = compare(&symbols("Adds a row."), &sections_in(&without, "lists.md"), &[]);
    assert!(
        tally.missing.iter().any(|m| m.contains("List::push")),
        "{:?}",
        tally.missing
    );
    let changed = PAGE.replace("pub struct List<M>", "pub struct List");
    let tally = compare(&symbols("Adds a row."), &sections_in(&changed, "lists.md"), &[]);
    assert!(
        tally.faults.iter().any(|f| f.contains("declaration")),
        "{:?}",
        tally.faults
    );
}

#[test]
fn a_section_twice_or_for_nothing_and_a_stale_exemption_are_faults() {
    let page = format!("{PAGE}\n## `List`\n\nA themed list.\n\n## `Gone`\n\nGone.\n");
    let tally = compare(
        &symbols("Adds a row."),
        &sections_in(&page, "lists.md"),
        &[("Nothing", "why")],
    );
    let all = tally.faults.join("\n");
    assert!(all.contains("twice        `List`"), "{all}");
    assert!(all.contains("`Gone` names no public item"), "{all}");
    assert!(
        all.contains("exemption `Nothing` names nothing public"),
        "{all}"
    );
}

#[test]
fn a_difference_reads_with_both_sides() {
    let tally = compare(
        &symbols("Adds a row at the end."),
        &sections_in(PAGE, "lists.md"),
        &[],
    );
    assert_eq!(
        tally.faults[0],
        "  abstract     lists.md:26  `List::push`\n                 rustdoc: Adds a row at the end.\n                 page:    Adds a row."
    );
}

#[test]
fn an_exempt_name_with_a_section_is_stale() {
    let tally = compare(&symbols("Adds a row."), &sections_in(PAGE, "lists.md"), &[("List", "r")]);
    assert!(tally.faults.iter().any(|f| f.contains("stale        exemption `List`: lists.md:7 carries it")));
}
