use xpui_simulator::{described, items, locate, members, reexports, top_source, link, declaration, Kind};

fn page() -> String {
    [
        r##"<span class="sub-heading"><a class="src" href="../../src/xpui/w/list.rs.html#3-5">Source</a> </span>"##,
        r##"<div id="implementations-list"><section id="method.push" class="method">"##,
        r##"<a class="src rightside" href="../../src/xpui/w/list.rs.html#9-11">Source</a></section>"##,
        r##"<section id="method.push-1" class="method"></section><section id="variant.Text" class="variant"></section>"##,
        r##"<section id="variant.Text.field.origin" class="variant"></section><span id="structfield.0" class="structfield">"##,
        r##"</span><section id="method.new" class="method"><a class="src rightside" href="../../src/xpui/w/list.rs.html#30">Source</a>"##,
        r##"<h4 class="code-header">pub fn <a href="#method.new">new</a>(n: <a>i32</a>) -&gt; Self</h4></section></summary>"##,
        r##"<div class="docblock"><p>A stack with <code>n</code> pixels, the host’s way.</p></div></details></div>"##,
        r##"<div id="trait-implementations-list"><section id="method.measure" class="method trait-impl"></section></div>"##,
        r##"<div id="blanket-implementations-list"><section id="method.on_tap" class="method trait-impl"></section></div>"##,
    ]
    .concat()
}


const SOURCE: &str = "/// A list.\n///\n/// More.\n#[derive(Clone)]\npub struct List<M> {\n    rows: Vec<M>,\n}\n\n/// Hints.\npub enum Hint {\n    /// The host's label.\n    Standard,\n    /// A label.\n    Text(String),\n}\n\n    /// Adds a row.\n    pub fn push(\n        mut self,\n        row: Row,\n    ) -> Self {\n";

#[test]
fn every_link_under_a_kind_is_an_item_and_the_root_names_it() {
    let all = r#"<h3 id="structs">S</h3><ul><li><a href="w/struct.List.html">w::List</a></li></ul><h3 id="macros">M</h3><ul><li><a href="macro.list.html">list</a></li></ul>"#;
    let found = items(all);
    assert_eq!(found.len(), 2);
    assert_eq!(
        found[0],
        (
            "structs".into(),
            "w/struct.List.html".into(),
            "w::List".into()
        )
    );
    assert_eq!(found[1].0, "macros");
    let index = r#"<dt id="reexport.List"><code>pub use w::<a class="struct" href="w/struct.List.html" title="x">List</a>;</code></dt>"#;
    assert_eq!(
        reexports(index),
        [("w/struct.List.html".to_string(), "List".to_string())]
    );
}

#[test]
fn only_the_items_own_members_count() {
    let page = page();
    let found = members(&page, "xpui");
    let names: Vec<&str> = found.iter().map(|(_, n, _, _)| n.as_str()).collect();
    assert_eq!(
        names,
        ["push", "Text", "new"],
        "not a trait impl's, a blanket impl's, a variant's field or a tuple field"
    );
    assert_eq!(found[0].2, Some(("w/list.rs".to_string(), 9)));
    let shown = found[2].3.as_ref().expect("rustdoc's rendering of `new`");
    assert_eq!(shown.declaration, "pub fn new(n: i32) -> Self");
    assert_eq!(shown.summary, "A stack with `n` pixels, the host's way.");
}

#[test]
fn an_item_with_no_source_in_this_crate_is_foreign() {
    let page = page();
    assert_eq!(top_source(&page, "xpui"), Some(("w/list.rs".into(), 3, 5)));
    assert_eq!(top_source(&page, "xpui_eg"), None);
}

#[test]
fn a_summary_is_the_first_paragraph_and_a_declaration_stops_at_the_body() {
    let lines: Vec<&str> = SOURCE.lines().collect();
    let list = described("List", Kind::Item, &lines, 4, "x.rs");
    assert_eq!(list.summary, "A list.");
    assert_eq!(list.declaration, "pub struct List<M>");
    assert_eq!(list.at, "x.rs:5", "the span began at the attribute");
    let push = described("List::push", Kind::Member, &lines, 18, "x.rs");
    assert_eq!(push.summary, "Adds a row.");
    assert_eq!(
        push.declaration,
        "pub fn push( mut self, row: Row, ) -> Self"
    );
}

#[test]
fn a_variant_is_found_inside_its_own_enum() {
    let lines: Vec<&str> = SOURCE.lines().collect();
    assert_eq!(locate(&lines, 10, 15, "Text", false), Some(14));
    assert_eq!(locate(&lines, 10, 15, "Standard", false), Some(12));
    assert_eq!(locate(&lines, 10, 15, "Missing", false), None);
    let text = described("Hint::Text", Kind::Row, &lines, 14, "x.rs");
    assert_eq!(text.summary, "A label.");
}

#[test]
fn a_field_is_found_by_its_pub() {
    let lines = ["pub struct P {", "    pub x: i32,", "    pub xy : i32,", "}"];
    assert_eq!(locate(&lines, 1, 4, "xy", true), Some(3));
    assert_eq!(locate(&lines, 1, 4, "x", true), Some(2));
}

#[test]
fn a_link_names_its_file_and_lines() {
    assert_eq!(
        link("../../src/xpui/w/list.rs.html#9-11", "xpui"),
        Some(("w/list.rs".to_string(), 9, 11))
    );
    assert_eq!(
        link("../../src/xpui/w/list.rs.html#30", "xpui"),
        Some(("w/list.rs".to_string(), 30, 30))
    );
    assert_eq!(link("../../src/xpui/w/list.rs.html#x", "xpui"), None);
    assert_eq!(link("../../src/other/w/list.rs.html#3", "xpui"), None);
}

#[test]
fn a_declaration_ignores_brackets_and_comments() {
    assert_eq!(
        declaration(&["pub fn f(a: [u8; 2]) // note {", "-> u8 {"]),
        "pub fn f(a: [u8; 2]) -> u8"
    );
    assert_eq!(declaration(&["pub const X: u8 = 1;"]), "pub const X: u8 = 1");
}
