use xpui_simulator::{between, declares, prose, rendered, signature, text_of};

#[test]
fn a_link_reads_as_its_text_and_a_binding_loses_its_mut() {
    assert_eq!(
        prose("See [`Text`](crate::Text),\n[the guide][g] and [`List`]."),
        "See `Text`, the guide and `List`."
    );
    assert_eq!(
        signature("pub fn push(\n mut self,\n row: Row,\n) -> Self", "push"),
        "pub fn push(self, row: Row) -> Self"
    );
}

#[test]
fn a_constant_loses_its_value_and_a_renamed_item_takes_its_exported_name() {
    assert_eq!(
        signature("pub const NONE: Run = Run", "Run::NONE"),
        "pub const NONE: Run"
    );
    assert_eq!(
        signature("pub const UNBOUNDED: i32 = 1 << 24", "UNBOUNDED"),
        "pub const UNBOUNDED: i32"
    );
    assert_eq!(
        signature("pub fn capture(panel: &Panel) -> Frame", "capture_panel"),
        "pub fn capture_panel(panel: &Panel) -> Frame"
    );
    assert_eq!(
        signature("macro_rules! vstack", "vstack!"),
        "macro_rules! vstack"
    );
    assert_eq!(
        signature("pub fn new(spacing: i32) -> Self", "VStack::new"),
        "pub fn new(spacing: i32) -> Self"
    );
}

#[test]
fn a_macro_call_or_an_old_name_does_not_declare_the_item() {
    assert!(declares(
        "pub unsafe extern \"C\" fn xpui_app_install()",
        "xpui_app_install"
    ));
    assert!(declares("macro_rules! vstack", "vstack!"));
    assert!(!declares(
        "register_screen!(screens::Menu, xpui_app_create_menu)",
        "xpui_app_create_menu"
    ));
    assert!(!declares("pub fn capture(panel: &Panel)", "capture_panel"));
    assert!(!declares("pub fn newer()", "App::new"));
}

#[test]
fn rustdoc_renders_what_a_macro_wrote() {
    let page = [
        r#"<pre class="rust item-decl"><code><div class="code-attribute">#[unsafe(no_mangle)]</div>"#,
        r#"pub extern &quot;C&quot; fn make() -&gt; <a>*mut </a>c_void</code></pre>"#,
        r#"<details class="toggle top-doc" open><div class="docblock"><p>The root screen’s <code>make</code>.</p>"#,
        r#"<p>More.</p></div></details>"#,
    ]
    .concat();
    let (declaration, summary) = rendered(&page).expect("an item page");
    assert_eq!(declaration, "pub extern \"C\" fn make() -> *mut c_void");
    assert_eq!(summary, "The root screen's `make`.");
}

#[test]
fn between_takes_the_text_after_the_first_opener_up_to_the_next_closer() {
    assert_eq!(between("a<b>c</b>d<b>e</b>", "<b>", "</b>"), Some("c"));
    assert_eq!(between("a<b>c", "<b>", "</b>"), None);
    assert_eq!(between("abc", "<b>", "</b>"), None);
}

#[test]
fn text_of_undoes_tags_entities_and_quotes() {
    assert_eq!(
        text_of("<p>a  <code>x</code> &amp;&lt;y&gt; \u{201c}z\u{201d}</p>"),
        "a `x` &<y> \"z\""
    );
}

#[test]
fn a_page_without_a_declaration_renders_nothing() {
    assert!(rendered("<p>nothing here</p>").is_none());
}

#[test]
fn an_unclosed_link_is_kept_as_written() {
    assert_eq!(prose("a [b c"), "a [b c");
    assert_eq!(prose("[x](y"), "x");
}

const PAGE: &str = "# Lists\n\n## Topics\n\n| [`List`](#list) | A list. |\n\n## `List`\n\nA themed list, filling [the space](#x)\nit is given.\n\n```text\npub struct List<M>\n```\n\n| Parameter | Meaning |\n|---|---|\n| `index` | zero-based |\n\n```rust\n## `NotASection`\n```\n\n### Adding rows\n\n#### `List::push`\n\nAdds a row.\n\n```text\npub fn push(self, row: ListRow<M>) -> Self\n```\n\n| `Hint::Standard` | The host's label. |\n";

#[test]
fn a_heading_that_is_one_code_span_is_a_section_and_nothing_else_is() {
    let found = xpui_simulator::sections_in(PAGE, "lists.md");
    let names: Vec<&str> = found.iter().map(|s| s.name.as_str()).collect();
    assert_eq!(
        names,
        ["List", "List::push", "Hint::Standard"],
        "not the topics link, the parameter, or the fence"
    );
    assert_eq!(found[0].at, "lists.md:7");
    assert_eq!(found[0].declaration.as_deref(), Some("pub struct List<M>"));
    assert_eq!(
        found[0].summary.as_deref(),
        Some("A themed list, filling [the space](#x) it is given.")
    );
    assert!(!found[0].row);
    assert_eq!(found[1].summary.as_deref(), Some("Adds a row."));
    assert!(found[2].row);
    assert_eq!(found[2].summary.as_deref(), Some("The host's label."));
    assert_eq!(found[2].declaration, None);
}

#[test]
fn a_row_under_re_exports_needs_no_path() {
    let page = "## Re-exports\n\n| `Screen` | A screen. |\n\n## Other\n\n| `Plain` | Not a name. |\n";
    let found = xpui_simulator::sections_in(page, "p.md");
    let names: Vec<&str> = found.iter().map(|s| s.name.as_str()).collect();
    assert_eq!(names, ["Screen"]);
    assert_eq!(found[0].at, "p.md:3");
}
