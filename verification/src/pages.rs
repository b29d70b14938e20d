//! What a reference page says: the names it carries, the abstract and
//! declaration under each, and the words both sides are compared as.

use vstd::prelude::*;
use crate::text::{
    alphanumeric, chars_of, char_index, collapse_chars, collapsed, extend, find, find_char,
    first_match, is_alphanumeric, lemma_find_char, lemma_first_match, matches_at, occurs,
    pieces, replace, replaced, slice, split, starts_at, string_of, trim_end_char, trim_end_chars,
    views,
};
use vstd::string::StrSliceExecFns;

verus! {

broadcast use vstd::string::group_string_axioms;

/// Whether `c` may stand in an identifier: alphanumeric, or `_`.
pub open spec fn ident_char(c: char) -> bool {
    alphanumeric(c) || c == '_'
}

/// `s[pos..]` with each link reduced to its text: `[text](target)` and
/// `[text][label]` read as `text`.
pub open spec fn delinked_from(s: Seq<char>, pos: int) -> Seq<char>
    decreases s.len() - pos,
{
    if pos < 0 || pos >= s.len() {
        Seq::empty()
    } else {
        let open = find_char(s, '[', pos);
        let close = find_char(s, ']', open);
        proof {
            lemma_find_char(s, '[', pos);
            if open < s.len() {
                lemma_find_char(s, ']', open);
            }
        }
        if open >= s.len() || close >= s.len() {
            s.skip(pos)
        } else {
            let a = close + 1;
            let kept = s.subrange(pos, open) + s.subrange(open + 1, close);
            if a < s.len() && (s[a] == '(' || s[a] == '[') {
                let closer = if s[a] == '(' {
                    ')'
                } else {
                    ']'
                };
                let at = find_char(s, closer, a);
                proof {
                    lemma_find_char(s, closer, a);
                }
                if at >= s.len() {
                    kept
                } else {
                    kept + delinked_from(s, at + 1)
                }
            } else {
                kept + delinked_from(s, a)
            }
        }
    }
}

/// A paragraph as it reads: links reduced to their text, whitespace
/// collapsed.
pub open spec fn prose_of(text: Seq<char>) -> Seq<char> {
    collapsed(delinked_from(text, 0))
}

/// A paragraph as it reads: links reduced to their text, whitespace collapsed.
pub fn prose(text: &str) -> (r: String)
    ensures
        r@ == prose_of(text@),
{
    let v = chars_of(text);
    let n = v.len();
    let ghost s = v@;
    let mut out: Vec<char> = Vec::new();
    let mut pos: usize = 0;
    while pos < n
        invariant
            s == v@,
            n == s.len(),
            pos <= n,
            out@ + delinked_from(s, pos as int) == delinked_from(s, 0),
        decreases n - pos,
    {
        let ghost before = out@;
        let open = char_index(&v, '[', pos);
        let close = if open < n {
            char_index(&v, ']', open)
        } else {
            n
        };
        proof {
            lemma_find_char(s, '[', pos as int);
        }
        if open >= n || close >= n {
            let rest = slice(&v, pos, n);
            extend(&mut out, &rest);
            assert(s.skip(pos as int) =~= rest@);
            assert(delinked_from(s, n as int) =~= Seq::<char>::empty());
            assert(out@ + delinked_from(s, n as int) =~= before + delinked_from(s, pos as int));
            pos = n;
        } else {
            proof {
                lemma_find_char(s, ']', open as int);
                assert(s[open as int] == '[');
            }
            let head = slice(&v, pos, open);
            let inner = slice(&v, open + 1, close);
            extend(&mut out, &head);
            extend(&mut out, &inner);
            let a = close + 1;
            if a < n && (v[a] == '(' || v[a] == '[') {
                let closer = if v[a] == '(' {
                    ')'
                } else {
                    ']'
                };
                let at = char_index(&v, closer, a);
                if at >= n {
                    assert(delinked_from(s, n as int) =~= Seq::<char>::empty());
                    assert(out@ + delinked_from(s, n as int) =~= before + delinked_from(s, pos as int));
                    pos = n;
                } else {
                    assert(out@ + delinked_from(s, at + 1) =~= before + delinked_from(s, pos as int));
                    pos = at + 1;
                }
            } else {
                assert(out@ + delinked_from(s, a as int) =~= before + delinked_from(s, pos as int));
                pos = a;
            }
        }
    }
    assert(delinked_from(s, pos as int) =~= Seq::<char>::empty());
    assert(out@ + Seq::<char>::empty() =~= out@);
    string_of(&collapse_chars(&out))
}

/// What lies between the first `open` in `text` and the first `close` after
/// it.
pub open spec fn between_of(text: Seq<char>, open: Seq<char>, close: Seq<char>) -> Option<Seq<char>> {
    match first_match(text, open, 0) {
        None => None,
        Some(i) => match first_match(text, close, i + open.len()) {
            None => None,
            Some(j) => Some(text.subrange(i + open.len(), j)),
        },
    }
}

/// What lies between the first `open` in `v` and the first `close` after it:
/// where it starts and ends.
fn span_between(v: &[char], open: &[char], close: &[char]) -> (r: Option<(usize, usize)>)
    ensures
        match r {
            None => between_of(v@, open@, close@) is None,
            Some((a, b)) => a <= b <= v@.len() && between_of(v@, open@, close@) == Some(
                v@.subrange(a as int, b as int),
            ),
        },
{
    proof {
        lemma_first_match(v@, open@, 0);
    }
    let n = v.len();
    match find(v, open, 0) {
        None => None,
        Some(i) => {
            assert(i + open@.len() <= n);
            let a = i + open.len();
            match find(v, close, a) {
                None => None,
                Some(j) => Some((a, j)),
            }
        },
    }
}

/// The text between the first `open` and the first `close` after it.
pub fn between<'a>(text: &'a str, open: &str, close: &str) -> (r: Option<&'a str>)
    ensures
        match r {
            None => between_of(text@, open@, close@) is None,
            Some(t) => between_of(text@, open@, close@) == Some(t@),
        },
{
    let v = chars_of(text);
    let o = chars_of(open);
    let c = chars_of(close);
    match span_between(&v, &o, &c) {
        None => None,
        Some((a, b)) => Some(text.substring_char(a, b)),
    }
}

/// The characters between the first `open` and the first `close` after it.
fn between_chars(v: &[char], open: &str, close: &str) -> (r: Option<Vec<char>>)
    ensures
        match r {
            None => between_of(v@, open@, close@) is None,
            Some(t) => between_of(v@, open@, close@) == Some(t@),
        },
{
    let o = chars_of(open);
    let c = chars_of(close);
    match span_between(v, &o, &c) {
        None => None,
        Some((a, b)) => Some(slice(v, a, b)),
    }
}

/// `s[i..]` with every tag, from `<` to `>`, removed; `inside` says whether
/// `s[i]` lies in a tag.
pub open spec fn untagged_from(s: Seq<char>, i: int, inside: bool) -> Seq<char>
    decreases s.len() - i,
{
    if i < 0 || i >= s.len() {
        Seq::empty()
    } else if s[i] == '<' {
        untagged_from(s, i + 1, true)
    } else if s[i] == '>' {
        untagged_from(s, i + 1, false)
    } else if inside {
        untagged_from(s, i + 1, inside)
    } else {
        seq![s[i]] + untagged_from(s, i + 1, inside)
    }
}

/// A typographic quote as the plain one it stands for.
pub open spec fn plain_quote(c: char) -> char {
    if c == '\u{2018}' || c == '\u{2019}' {
        '\''
    } else if c == '\u{201c}' || c == '\u{201d}' {
        '"'
    } else {
        c
    }
}

/// Rustdoc's HTML as the source said it: `<code>` as backticks, tags gone,
/// entities and typographic quotes undone, whitespace collapsed.
pub open spec fn text_from_html(html: Seq<char>) -> Seq<char> {
    let spans = replaced(replaced(html, "<code>"@, "`"@), "</code>"@, "`"@);
    let bare = untagged_from(spans, 0, false);
    let entities = replaced(
        replaced(replaced(replaced(bare, "&lt;"@, "<"@), "&gt;"@, ">"@), "&quot;"@, "\""@),
        "&#39;"@,
        "'"@,
    );
    let quotes = entities.map_values(|c: char| plain_quote(c));
    collapsed(replaced(quotes, "&amp;"@, "&"@))
}

/// `v` with `pat` replaced by `with`, both given as literals.
fn replace_str(v: &[char], pat: &str, with: &str) -> (r: Vec<char>)
    requires
        pat@.len() > 0,
    ensures
        r@ == replaced(v@, pat@, with@),
{
    let p = chars_of(pat);
    let w = chars_of(with);
    replace(v, &p, &w)
}

/// Rustdoc's HTML as the source said it.
fn text_of_chars(html: &[char]) -> (r: Vec<char>)
    ensures
        r@ == text_from_html(html@),
{
    proof {
        reveal_strlit("<code>");
        reveal_strlit("</code>");
        reveal_strlit("&lt;");
        reveal_strlit("&gt;");
        reveal_strlit("&quot;");
        reveal_strlit("&#39;");
        reveal_strlit("&amp;");
    }
    let a = replace_str(html, "<code>", "`");
    let spans = replace_str(&a, "</code>", "`");
    let mut bare: Vec<char> = Vec::new();
    let mut inside = false;
    let mut i: usize = 0;
    while i < spans.len()
        invariant
            i <= spans@.len(),
            bare@ + untagged_from(spans@, i as int, inside) == untagged_from(spans@, 0, false),
        decreases spans@.len() - i,
    {
        let c = spans[i];
        let ghost before = bare@;
        if c == '<' {
            inside = true;
        } else if c == '>' {
            inside = false;
        } else if !inside {
            bare.push(c);
            assert(bare@ + untagged_from(spans@, i + 1, inside) =~= before + untagged_from(
                spans@,
                i as int,
                inside,
            ));
        }
        i = i + 1;
    }
    assert(bare@ + Seq::<char>::empty() =~= bare@);
    let e1 = replace_str(&bare, "&lt;", "<");
    let e2 = replace_str(&e1, "&gt;", ">");
    let e3 = replace_str(&e2, "&quot;", "\"");
    let e4 = replace_str(&e3, "&#39;", "'");
    let mut quotes: Vec<char> = Vec::new();
    let mut j: usize = 0;
    while j < e4.len()
        invariant
            j <= e4@.len(),
            quotes@ == e4@.take(j as int).map_values(|c: char| plain_quote(c)),
        decreases e4@.len() - j,
    {
        let c = e4[j];
        let q = if c == '\u{2018}' || c == '\u{2019}' {
            '\''
        } else if c == '\u{201c}' || c == '\u{201d}' {
            '"'
        } else {
            c
        };
        quotes.push(q);
        assert(quotes@ =~= e4@.take(j + 1).map_values(|c: char| plain_quote(c)));
        j = j + 1;
    }
    assert(e4@.take(e4@.len() as int) =~= e4@);
    let amp = replace_str(&quotes, "&amp;", "&");
    collapse_chars(&amp)
}

/// Rustdoc's HTML as the source said it: `<code>` as backticks, tags gone,
/// entities and typographic quotes undone.
pub fn text_of(html: &str) -> (r: String)
    ensures
        r@ == text_from_html(html@),
{
    let v = chars_of(html);
    string_of(&text_of_chars(&v))
}

/// `piece` from after its first `</div>`, or all of it when it has none.
pub open spec fn after_div(piece: Seq<char>) -> Seq<char> {
    match first_match(piece, "</div>"@, 0) {
        Some(d) => piece.skip(d + "</div>"@.len()),
        None => piece,
    }
}

/// The pieces of a declaration after the first, each without the attribute
/// that opened it.
pub open spec fn after_attributes(ps: Seq<Seq<char>>) -> Seq<char>
    decreases ps.len(),
{
    if ps.len() == 0 {
        Seq::empty()
    } else {
        after_attributes(ps.drop_last()) + after_div(ps.last())
    }
}

/// A declaration's code without the attributes rustdoc draws around it.
pub open spec fn unattributed(code: Seq<char>) -> Seq<char> {
    let ps = split(code, "<div class=\"code-attribute\">"@);
    ps[0] + after_attributes(ps.skip(1))
}

/// What rustdoc draws as an item's declaration, up to its body.
pub open spec fn declaration_of(text: Seq<char>) -> Seq<char> {
    trim_end_char(split(text, " {"@)[0], ';')
}

/// Rustdoc's rendering of an item page: its declaration and the first
/// paragraph of its documentation.
pub open spec fn rendered_of(page: Seq<char>) -> Option<(Seq<char>, Seq<char>)> {
    match between_of(page, "<pre class=\"rust item-decl\"><code>"@, "</code></pre>"@) {
        None => None,
        Some(code) => {
            let summary = match between_of(page, "top-doc"@, "</details>"@) {
                None => Seq::empty(),
                Some(doc) => match between_of(doc, "<div class=\"docblock\"><p>"@, "</p>"@) {
                    None => Seq::empty(),
                    Some(p) => text_from_html(p),
                },
            };
            Some((declaration_of(text_from_html(unattributed(code))), summary))
        },
    }
}

/// Rustdoc's own rendering of an item page: its declaration, without the
/// attributes and body rustdoc draws around it, and its first paragraph.
pub fn rendered(page: &str) -> (r: Option<(String, String)>)
    ensures
        match r {
            None => rendered_of(page@) is None,
            Some((d, s)) => rendered_of(page@) == Some((d@, s@)),
        },
{
    proof {
        reveal_strlit("<div class=\"code-attribute\">");
        reveal_strlit("</div>");
        reveal_strlit(" {");
    }
    let v = chars_of(page);
    let code = match between_chars(&v, "<pre class=\"rust item-decl\"><code>", "</code></pre>") {
        None => {
            return None;
        },
        Some(code) => code,
    };
    let attr = chars_of("<div class=\"code-attribute\">");
    let div = chars_of("</div>");
    let ps = pieces(&code, &attr);
    let ghost views = ps@.map_values(|p: Vec<char>| p@);
    assert(views.len() > 0) by {
        lemma_pieces_nonempty(code@, attr@);
    }
    let mut bare: Vec<char> = Vec::new();
    extend(&mut bare, &ps[0]);
    let mut i: usize = 1;
    while i < ps.len()
        invariant
            1 <= i <= ps@.len(),
            views == ps@.map_values(|p: Vec<char>| p@),
            div@ == "</div>"@,
            bare@ == views[0] + after_attributes(views.subrange(1, i as int)),
        decreases ps@.len() - i,
    {
        let piece = &ps[i];
        proof {
            lemma_first_match(piece@, div@, 0);
        }
        let m = piece.len();
        match find(piece, &div, 0) {
            Some(d) => {
                assert(d + div@.len() <= m);
                let rest = slice(piece, d + div.len(), piece.len());
                extend(&mut bare, &rest);
                assert(rest@ =~= after_div(piece@));
            },
            None => {
                extend(&mut bare, piece);
            },
        }
        assert(views.subrange(1, i + 1).drop_last() =~= views.subrange(1, i as int));
        i = i + 1;
    }
    assert(views.skip(1) =~= views.subrange(1, ps@.len() as int));
    let text = text_of_chars(&bare);
    let brace = chars_of(" {");
    let heads = pieces(&text, &brace);
    assert(heads@.map_values(|p: Vec<char>| p@).len() > 0) by {
        lemma_pieces_nonempty(text@, brace@);
    }
    let declaration = trim_end_chars(&heads[0], ';');
    let summary = match between_chars(&v, "top-doc", "</details>") {
        None => Vec::new(),
        Some(doc) => match between_chars(&doc, "<div class=\"docblock\"><p>", "</p>") {
            None => Vec::new(),
            Some(p) => text_of_chars(&p),
        },
    };
    Some((string_of(&declaration), string_of(&summary)))
}

/// Splitting always gives at least one piece.
pub proof fn lemma_pieces_nonempty(s: Seq<char>, pat: Seq<char>)
    requires
        pat.len() > 0,
    ensures
        split(s, pat).len() > 0,
{
    lemma_first_match(s, pat, 0);
}

/// The keywords that introduce a declaration's name.
pub open spec fn keywords() -> Seq<Seq<char>> {
    seq![
        "fn "@,
        "struct "@,
        "enum "@,
        "trait "@,
        "type "@,
        "const "@,
        "static "@,
        "macro_rules! "@,
    ]
}

/// The name an item is declared by: the last `::` segment of `name`, without
/// trailing `!`s.
pub open spec fn own_name(name: Seq<char>) -> Seq<char> {
    trim_end_char(split(name, "::"@).last(), '!')
}

/// Where the identifier that starts at `i` ends.
pub open spec fn ident_end(s: Seq<char>, i: int) -> int
    decreases s.len() - i,
{
    if i < 0 || i >= s.len() || !ident_char(s[i]) {
        i
    } else {
        ident_end(s, i + 1)
    }
}

/// `declaration` with the identifier after the first of `keywords()[k..]`
/// that stands at a word's start replaced by `name`.
pub open spec fn renamed_from(declaration: Seq<char>, name: Seq<char>, k: int) -> Seq<char>
    decreases keywords().len() - k,
{
    if k < 0 || k >= keywords().len() {
        declaration
    } else {
        let keyword = keywords()[k];
        match first_match(declaration, keyword, 0) {
            Some(at) if at == 0 || declaration[at - 1] == ' ' => {
                let start = at + keyword.len();
                let end = ident_end(declaration, start);
                if name.len() == 0 || declaration.subrange(start, end) == name {
                    declaration
                } else {
                    declaration.take(start) + name + declaration.skip(end)
                }
            },
            _ => renamed_from(declaration, name, k + 1),
        }
    }
}

/// `declaration` with the identifier after its keyword replaced by `name`'s
/// own name.
pub open spec fn renamed_of(declaration: Seq<char>, name: Seq<char>) -> Seq<char> {
    renamed_from(declaration, own_name(name), 0)
}

/// The name an item is declared by.
fn own_name_of(name: &str) -> (r: Vec<char>)
    ensures
        r@ == own_name(name@),
{
    proof {
        reveal_strlit("::");
    }
    let v = chars_of(name);
    let sep = chars_of("::");
    let ps = pieces(&v, &sep);
    assert(ps@.map_values(|p: Vec<char>| p@).len() > 0) by {
        lemma_pieces_nonempty(v@, sep@);
    }
    trim_end_chars(&ps[ps.len() - 1], '!')
}

/// The keywords, as characters.
fn keyword_chars() -> (r: Vec<Vec<char>>)
    ensures
        r@.map_values(|k: Vec<char>| k@) == keywords(),
        forall|j: int| 0 <= j < r@.len() ==> (#[trigger] r@[j])@.len() > 0,
{
    proof {
        reveal_strlit("fn ");
        reveal_strlit("struct ");
        reveal_strlit("enum ");
        reveal_strlit("trait ");
        reveal_strlit("type ");
        reveal_strlit("const ");
        reveal_strlit("static ");
        reveal_strlit("macro_rules! ");
    }
    let r = vec![
        chars_of("fn "),
        chars_of("struct "),
        chars_of("enum "),
        chars_of("trait "),
        chars_of("type "),
        chars_of("const "),
        chars_of("static "),
        chars_of("macro_rules! "),
    ];
    assert(r@.map_values(|k: Vec<char>| k@) =~= keywords());
    r
}

/// Where the identifier that starts at `i` ends.
fn ident_stop(v: &[char], i: usize) -> (k: usize)
    requires
        i <= v@.len(),
    ensures
        k == ident_end(v@, i as int),
        i <= k <= v@.len(),
{
    let mut k = i;
    while k < v.len() && (is_alphanumeric(v[k]) || v[k] == '_')
        invariant
            i <= k <= v@.len(),
            ident_end(v@, i as int) == ident_end(v@, k as int),
        decreases v@.len() - k,
    {
        k = k + 1;
    }
    k
}

/// `declaration` with the identifier after its keyword replaced by `name`.
fn renamed(declaration: &[char], name: &[char]) -> (r: Vec<char>)
    ensures
        r@ == renamed_from(declaration@, name@, 0),
{
    let ks = keyword_chars();
    let ghost kv = ks@.map_values(|k: Vec<char>| k@);
    let mut k: usize = 0;
    while k < ks.len()
        invariant
            k <= ks@.len(),
            kv == ks@.map_values(|k: Vec<char>| k@),
            kv == keywords(),
            renamed_from(declaration@, name@, 0) == renamed_from(declaration@, name@, k as int),
        decreases ks@.len() - k,
    {
        let keyword = &ks[k];
        assert(keyword@ == keywords()[k as int]);
        proof {
            lemma_first_match(declaration@, keyword@, 0);
        }
        match find(declaration, keyword, 0) {
            Some(at) => {
                if at == 0 || declaration[at - 1] == ' ' {
                    let start = at + keyword.len();
                    let end = ident_stop(declaration, start);
                    let current = slice(declaration, start, end);
                    if name.len() == 0 || crate::text::same_chars(&current, name) {
                        return slice(declaration, 0, declaration.len());
                    }
                    let mut out = slice(declaration, 0, start);
                    extend(&mut out, name);
                    let tail = slice(declaration, end, declaration.len());
                    extend(&mut out, &tail);
                    return out;
                }
            },
            None => {},
        }
        k = k + 1;
    }
    slice(declaration, 0, declaration.len())
}

/// A signature as it is compared: whitespace collapsed, a binding's `mut`, a
/// trailing comma and a constant's value removed, and the item's own name
/// `name`.
pub open spec fn signature_of(text: Seq<char>, name: Seq<char>) -> Seq<char> {
    let flat = replaced(
        replaced(
            replaced(replaced(replaced(collapsed(text), "( "@, "("@), " )"@, ")"@), ",)"@, ")"@),
            "(mut "@,
            "("@,
        ),
        ", mut "@,
        ", "@,
    );
    let kept = match first_match(flat, " = "@, 0) {
        Some(k) if occurs(seq![' '] + flat.take(k), " const "@) || occurs(
            seq![' '] + flat.take(k),
            " static "@,
        ) => flat.take(k),
        _ => flat,
    };
    renamed_of(kept, name)
}

/// A signature as it is compared: whitespace collapsed, and what rustdoc does
/// not show removed — `mut` on a binding, a trailing comma, a constant's value.
///
/// The item's own name is `name`, so an item re-exported under another name
/// reads the way docs.rs shows it.
pub fn signature(text: &str, name: &str) -> (r: String)
    ensures
        r@ == signature_of(text@, name@),
{
    proof {
        reveal_strlit("( ");
        reveal_strlit(" )");
        reveal_strlit(",)");
        reveal_strlit("(mut ");
        reveal_strlit(", mut ");
    }
    let v = chars_of(text);
    let flat0 = collapse_chars(&v);
    let f1 = replace_str(&flat0, "( ", "(");
    let f2 = replace_str(&f1, " )", ")");
    let f3 = replace_str(&f2, ",)", ")");
    let f4 = replace_str(&f3, "(mut ", "(");
    let flat = replace_str(&f4, ", mut ", ", ");
    let eq = chars_of(" = ");
    let kept = match find(&flat, &eq, 0) {
        Some(k) => {
            let mut spaced: Vec<char> = vec![' '];
            let head = slice(&flat, 0, k);
            extend(&mut spaced, &head);
            assert(spaced@ =~= seq![' '] + flat@.take(k as int));
            let c = chars_of(" const ");
            let s = chars_of(" static ");
            proof {
                crate::text::lemma_occurs(spaced@, c@);
                crate::text::lemma_occurs(spaced@, s@);
            }
            if find(&spaced, &c, 0).is_some() || find(&spaced, &s, 0).is_some() {
                head
            } else {
                flat
            }
        },
        None => flat,
    };
    let own = own_name_of(name);
    string_of(&renamed(&kept, &own))
}

/// The keywords a declaration may declare its name with.
pub open spec fn declaring_keywords() -> Seq<Seq<char>> {
    keywords().push("union "@)
}

/// Whether `d` holds `keyword` at `at`, the name right after it, and no more
/// of an identifier after that.
pub open spec fn declares_at(d: Seq<char>, keyword: Seq<char>, own: Seq<char>, at: int) -> bool {
    let after = at + keyword.len();
    &&& matches_at(d, at, keyword)
    &&& matches_at(d, after, own)
    &&& !(after + own.len() < d.len() && ident_char(d[after + own.len()]))
}

/// Whether `declaration` declares `name` itself: one of the keywords, then
/// the name, then no more of an identifier.
pub open spec fn declares_of(declaration: Seq<char>, name: Seq<char>) -> bool {
    exists|k: int, at: int|
        0 <= k < declaring_keywords().len() && #[trigger] declares_at(
            declaration,
            declaring_keywords()[k],
            own_name(name),
            at,
        )
}

/// Whether `d` declares `own` with `keyword` anywhere.
fn declares_with(d: &[char], keyword: &[char], own: &[char]) -> (r: bool)
    requires
        keyword@.len() > 0,
    ensures
        r == exists|at: int| declares_at(d@, keyword@, own@, at),
{
    let n = d.len();
    let mut at: usize = 0;
    while at <= n
        invariant
            n == d@.len(),
            at <= n + 1,
            forall|i: int| 0 <= i < at ==> !declares_at(d@, keyword@, own@, i),
        decreases n + 1 - at,
    {
        if starts_at(d, at, keyword) {
            let after = at + keyword.len();
            if starts_at(d, after, own) {
                let end = after + own.len();
                let more = end < n && (is_alphanumeric(d[end]) || d[end] == '_');
                if !more {
                    assert(declares_at(d@, keyword@, own@, at as int));
                    return true;
                }
            }
        }
        if at == n {
            assert forall|i: int| !declares_at(d@, keyword@, own@, i) by {
                if 0 <= i <= n {
                } else {
                    assert(!matches_at(d@, i, keyword@));
                }
            }
            return false;
        }
        at = at + 1;
    }
    false
}

/// Whether `declaration` declares `name` itself, rather than calling a macro
/// that writes it or carrying the name it had before a re-export renamed it.
pub fn declares(declaration: &str, name: &str) -> (r: bool)
    ensures
        r == declares_of(declaration@, name@),
{
    proof {
        reveal_strlit("fn ");
        reveal_strlit("struct ");
        reveal_strlit("enum ");
        reveal_strlit("trait ");
        reveal_strlit("type ");
        reveal_strlit("const ");
        reveal_strlit("static ");
        reveal_strlit("macro_rules! ");
        reveal_strlit("union ");
    }
    let d = chars_of(declaration);
    let own = own_name_of(name);
    let mut ks = keyword_chars();
    ks.push(chars_of("union "));
    let ghost kv = ks@.map_values(|k: Vec<char>| k@);
    assert(kv =~= declaring_keywords());
    let mut k: usize = 0;
    while k < ks.len()
        invariant
            k <= ks@.len(),
            forall|j: int| 0 <= j < ks@.len() ==> (#[trigger] ks@[j])@.len() > 0,
            kv == ks@.map_values(|k: Vec<char>| k@),
            kv == declaring_keywords(),
            d@ == declaration@,
            own@ == own_name(name@),
            forall|j: int, at: int| 0 <= j < k ==> !#[trigger] declares_at(d@, kv[j], own@, at),
        decreases ks@.len() - k,
    {
        let keyword = &ks[k];
        assert(keyword@ == kv[k as int]);
        assert(keyword@.len() > 0);
        if declares_with(&d, keyword, &own) {
            return true;
        }
        k = k + 1;
    }
    false
}

/// A name a page carries: a heading that is one code span, or a table row
/// whose first cell is one qualified code span.
pub struct Section {
    pub name: String,
    pub at: String,
    pub summary: Option<String>,
    pub declaration: Option<String>,
    pub row: bool,
}

/// What a section holds, as plain values.
pub struct SectionView {
    pub name: Seq<char>,
    pub at: Seq<char>,
    pub summary: Option<Seq<char>>,
    pub declaration: Option<Seq<char>>,
    pub row: bool,
}

/// The characters of an optional string.
pub open spec fn opt_view(o: Option<String>) -> Option<Seq<char>> {
    match o {
        Some(s) => Some(s@),
        None => None,
    }
}

impl View for Section {
    type V = SectionView;

    open spec fn view(&self) -> SectionView {
        SectionView {
            name: self.name@,
            at: self.at@,
            summary: opt_view(self.summary),
            declaration: opt_view(self.declaration),
            row: self.row,
        }
    }
}

/// The text of a code span that is all of `text`: between one backtick at
/// each end, not empty, and with no backtick inside.
pub open spec fn code_span_of(text: Seq<char>) -> Option<Seq<char>> {
    if text.len() >= 2 && text[0] == '`' && text.last() == '`' {
        let inner = text.subrange(1, text.len() - 1);
        if inner.len() > 0 && !inner.contains('`') {
            Some(inner)
        } else {
            None
        }
    } else {
        None
    }
}

/// Whether `v` holds a backtick.
fn has_backtick(v: &[char]) -> (r: bool)
    ensures
        r == v@.contains('`'),
{
    let mut i: usize = 0;
    while i < v.len()
        invariant
            i <= v@.len(),
            forall|k: int| 0 <= k < i ==> v@[k] != '`',
        decreases v@.len() - i,
    {
        if v[i] == '`' {
            assert(v@[i as int] == '`');
            return true;
        }
        i = i + 1;
    }
    false
}

/// The text of a code span that is all of `text`.
fn code_span(text: &[char]) -> (r: Option<Vec<char>>)
    ensures
        match r {
            Some(inner) => code_span_of(text@) == Some(inner@),
            None => code_span_of(text@) is None,
        },
{
    let n = text.len();
    if n < 2 || text[0] != '`' || text[n - 1] != '`' {
        return None;
    }
    let inner = slice(text, 1, n - 1);
    assert(text@.last() == '`');
    if inner.len() == 0 {
        return None;
    }
    if has_backtick(&inner) {
        return None;
    }
    Some(inner)
}

/// The last line of a fenced block's span: the line after its last line, or
/// after its opening fence when it has none.
pub open spec fn fence_close(f: FenceViewOf) -> int {
    (if f.lines.len() == 0 {
        f.start
    } else {
        f.lines.last().0
    }) + 1
}

/// A fenced block, as the fences module views it.
pub type FenceViewOf = crate::fences::FenceView;

/// Whether line `n` of `count` lies within a fenced block, fences included.
pub open spec fn fenced_at(bv: Seq<FenceViewOf>, count: int, n: int) -> bool {
    exists|b: int|
        0 <= b < bv.len() && #[trigger] bv[b].start <= n && n <= fence_close(bv[b]) && n <= count
}

/// Whether line `m` (1-based) is a heading: outside fences, starting `#`.
pub open spec fn is_heading(ls: Seq<Seq<char>>, bv: Seq<FenceViewOf>, m: int) -> bool {
    !fenced_at(bv, ls.len() as int, m) && ls[m - 1].len() > 0 && ls[m - 1][0] == '#'
}

/// The first heading at or after line `m`, or one past the last line.
pub open spec fn next_heading(ls: Seq<Seq<char>>, bv: Seq<FenceViewOf>, m: int) -> int
    decreases ls.len() + 1 - m,
{
    if m < 1 || m > ls.len() {
        ls.len() + 1int
    } else if is_heading(ls, bv, m) {
        m
    } else {
        next_heading(ls, bv, m + 1)
    }
}

/// The first of `bv[b..]` that is a `text` block opening strictly between
/// lines `n` and `next`: its lines joined by spaces.
pub open spec fn declaration_from(bv: Seq<FenceViewOf>, n: int, next: int, b: int) -> Option<Seq<char>>
    decreases bv.len() - b,
{
    if b < 0 || b >= bv.len() {
        None
    } else if bv[b].language == "text"@ && bv[b].start > n && bv[b].start < next {
        Some(crate::text::joined(bv[b].lines.map_values(|l: (int, Seq<char>)| l.1), " "@))
    } else {
        declaration_from(bv, n, next, b + 1)
    }
}

/// The first line in `from..to` that is not blank, or `to`.
pub open spec fn first_filled(ls: Seq<Seq<char>>, from: int, to: int) -> int
    decreases to - from,
{
    if from >= to {
        to
    } else if crate::text::trim(ls[from - 1]).len() > 0 {
        from
    } else {
        first_filled(ls, from + 1, to)
    }
}

/// How far from `start` the lines run on that are neither fenced nor blank,
/// stopping at `to`.
pub open spec fn paragraph_end(ls: Seq<Seq<char>>, bv: Seq<FenceViewOf>, start: int, to: int) -> int
    decreases to - start,
{
    if start >= to || fenced_at(bv, ls.len() as int, start) || crate::text::trim(ls[start - 1]).len()
        == 0 {
        start
    } else {
        paragraph_end(ls, bv, start + 1, to)
    }
}

/// Whether a line, without its indentation, opens something that is not
/// prose: a table, a quote, an image, markup or a heading.
pub open spec fn not_prose(line: Seq<char>) -> bool {
    let t = line.skip(crate::text::skip_space(line, 0));
    t.len() > 0 && (t[0] == '|' || t[0] == '>' || t[0] == '!' || t[0] == '<' || t[0] == '#')
}

/// The first paragraph in lines `from..to`, unless what comes first is not
/// prose.
pub open spec fn paragraph_of(ls: Seq<Seq<char>>, bv: Seq<FenceViewOf>, from: int, to: int) -> Option<Seq<char>> {
    let start = first_filled(ls, from, to);
    if start >= to || fenced_at(bv, ls.len() as int, start) || not_prose(ls[start - 1]) {
        None
    } else {
        let end = paragraph_end(ls, bv, start, to);
        Some(
            crate::text::joined(
                ls.subrange(start - 1, end - 1).map_values(|l: Seq<char>| crate::text::trim(l)),
                " "@,
            ),
        )
    }
}

/// How many `#` a line starts with.
pub open spec fn level(line: Seq<char>, i: int) -> int
    decreases line.len() - i,
{
    if i < 0 || i >= line.len() || line[i] != '#' {
        i
    } else {
        level(line, i + 1)
    }
}

/// Where line `n` of a page is: `page:n`.
pub open spec fn place(page: Seq<char>, n: int) -> Seq<char> {
    page + ":"@ + crate::text::decimal(n as nat)
}

/// Reading line `n` (1-based) with `reexports` saying whether the current
/// `##` section is `Re-exports`: whether it is after, and the section the
/// line carries.
pub open spec fn section_at(
    ls: Seq<Seq<char>>,
    bv: Seq<FenceViewOf>,
    page: Seq<char>,
    n: int,
    reexports: bool,
) -> (bool, Option<SectionView>) {
    let line = ls[n - 1];
    if fenced_at(bv, ls.len() as int, n) {
        (reexports, None)
    } else if line.len() > 0 && line[0] == '#' {
        let lv = level(line, 0);
        let title = crate::text::trim(line.skip(lv));
        let now = if lv == 2 {
            title == "Re-exports"@
        } else {
            reexports
        };
        match code_span_of(title) {
            Some(name) if 2 <= lv <= 4 => {
                let next = next_heading(ls, bv, n + 1);
                (
                    now,
                    Some(
                        SectionView {
                            name,
                            at: place(page, n),
                            summary: paragraph_of(ls, bv, n + 1, next),
                            declaration: declaration_from(bv, n, next, 0),
                            row: false,
                        },
                    ),
                )
            },
            _ => (now, None),
        }
    } else {
        let t = crate::text::trim(line);
        if t.len() > 0 && t[0] == '|' {
            let cells = split(t.skip(1), "|"@).map_values(|c: Seq<char>| crate::text::trim(c));
            if cells.len() < 2 {
                (reexports, None)
            } else {
                match code_span_of(cells[0]) {
                    Some(name) if reexports || occurs(name, "::"@) => (
                        reexports,
                        Some(
                            SectionView {
                                name,
                                at: place(page, n),
                                summary: Some(cells[1]),
                                declaration: None,
                                row: true,
                            },
                        ),
                    ),
                    _ => (reexports, None),
                }
            }
        } else {
            (reexports, None)
        }
    }
}

/// The sections of the first `k` lines, and whether the `##` section they
/// end in is `Re-exports`.
pub open spec fn sections_upto(ls: Seq<Seq<char>>, bv: Seq<FenceViewOf>, page: Seq<char>, k: nat) -> (bool, Seq<SectionView>)
    decreases k,
{
    if k == 0 || k > ls.len() {
        (false, Seq::empty())
    } else {
        let (reexports, done) = sections_upto(ls, bv, page, (k - 1) as nat);
        let (now, found) = section_at(ls, bv, page, k as int, reexports);
        (
            now,
            done + match found {
                Some(s) => seq![s],
                None => Seq::empty(),
            },
        )
    }
}

/// Every section in a page. A fenced line is never a heading or a row.
pub open spec fn sections_of(text: Seq<char>, page: Seq<char>) -> Seq<SectionView> {
    let ls = crate::text::lines_of(text);
    sections_upto(ls, crate::fences::fenced_blocks(text), page, ls.len()).1
}

/// For each line number up to one past the last, whether it lies within a
/// fenced block, fences included.
fn fence_marks(blocks: &Vec<crate::fences::Fence>, count: usize) -> (r: Vec<bool>)
    ensures
        r@.len() == count + 1,
        forall|n: int|
            0 <= n < count + 1 ==> r@[n] == fenced_at(
                crate::fences::fence_views(blocks@),
                count as int,
                n,
            ),
{
    let ghost bv = crate::fences::fence_views(blocks@);
    let mut marks: Vec<bool> = Vec::new();
    let mut i: usize = 0;
    while i < count
        invariant
            i <= count,
            marks@.len() == i,
            forall|k: int| 0 <= k < i ==> !marks@[k],
        decreases count - i,
    {
        marks.push(false);
        i = i + 1;
    }
    marks.push(false);
    let mut b: usize = 0;
    while b < blocks.len()
        invariant
            b <= blocks@.len(),
            bv == crate::fences::fence_views(blocks@),
            marks@.len() == count + 1,
            forall|n: int|
                0 <= n < count + 1 ==> marks@[n] == exists|x: int|
                    0 <= x < b && #[trigger] bv[x].start <= n && n <= fence_close(bv[x]) && n
                        <= count,
        decreases blocks@.len() - b,
    {
        let block = &blocks[b];
        assert(bv[b as int] == block@);
        let last = if block.lines.len() == 0 {
            block.start
        } else {
            block.lines[block.lines.len() - 1].0
        };
        let end = if last < count {
            last + 1
        } else {
            count
        };
        assert(fence_close(block@) == last as int + 1);
        if block.start <= end {
            fill(&mut marks, block.start, end);
        }
        proof {
            assert forall|m: int| 0 <= m < count + 1 implies marks@[m] == exists|x: int|
                0 <= x < b + 1 && #[trigger] bv[x].start <= m && m <= fence_close(bv[x]) && m
                    <= count by {
                if block.start <= m <= end {
                    assert(bv[b as int].start <= m && m <= fence_close(bv[b as int]) && m <= count);
                }
                if exists|x: int|
                    0 <= x < b + 1 && #[trigger] bv[x].start <= m && m <= fence_close(bv[x]) && m
                        <= count {
                    let x = choose|x: int|
                        0 <= x < b + 1 && #[trigger] bv[x].start <= m && m <= fence_close(bv[x])
                            && m <= count;
                    if x == b {
                        assert(block.start <= m <= end);
                    }
                }
            }
        }
        b = b + 1;
    }
    marks
}

/// Marks `from..=to` in `marks`.
fn fill(marks: &mut Vec<bool>, from: usize, to: usize)
    requires
        from <= to < old(marks)@.len(),
    ensures
        final(marks)@.len() == old(marks)@.len(),
        forall|m: int|
            0 <= m < old(marks)@.len() ==> final(marks)@[m] == (old(marks)@[m] || (from <= m <= to)),
{
    let len = marks.len();
    let mut k = from;
    while k <= to
        invariant
            from <= k <= to + 1,
            len == old(marks)@.len(),
            to < len,
            marks@.len() == old(marks)@.len(),
            forall|m: int|
                0 <= m < old(marks)@.len() ==> marks@[m] == (old(marks)@[m] || (from <= m < k)),
        decreases to + 1 - k,
    {
        marks.set(k, true);
        k = k + 1;
    }
}

/// How many `#` a line starts with.
fn level_of(line: &[char]) -> (k: usize)
    ensures
        k == level(line@, 0),
        k <= line@.len(),
{
    let mut k: usize = 0;
    while k < line.len() && line[k] == '#'
        invariant
            k <= line@.len(),
            level(line@, 0) == level(line@, k as int),
        decreases line@.len() - k,
    {
        k = k + 1;
    }
    k
}

/// The lines of a page as characters.
fn line_chars(all: &Vec<&str>) -> (r: Vec<Vec<char>>)
    ensures
        r@.map_values(|l: Vec<char>| l@) == views(all@),
{
    let mut out: Vec<Vec<char>> = Vec::new();
    let mut i: usize = 0;
    while i < all.len()
        invariant
            i <= all@.len(),
            out@.map_values(|l: Vec<char>| l@) == views(all@).take(i as int),
        decreases all@.len() - i,
    {
        let ghost was = out@.map_values(|l: Vec<char>| l@);
        out.push(chars_of(all[i]));
        assert(out@.map_values(|l: Vec<char>| l@) =~= was.push(views(all@)[i as int]));
        assert(views(all@).take(i + 1) =~= views(all@).take(i as int).push(views(all@)[i as int]));
        i = i + 1;
    }
    assert(views(all@).take(all@.len() as int) =~= views(all@));
    out
}

/// Whether a line is blank.
fn blank_line(line: &[char]) -> (r: bool)
    ensures
        r == (crate::text::trim(line@).len() == 0),
{
    crate::text::trimmed(line).len() == 0
}

/// Whether line `m` is a heading.
fn heading_line(ls: &Vec<Vec<char>>, marks: &Vec<bool>, m: usize) -> (r: bool)
    requires
        1 <= m <= ls@.len(),
        marks@.len() == ls@.len() + 1,
    ensures
        r == (!marks@[m as int] && ls@[m - 1]@.len() > 0 && ls@[m - 1]@[0] == '#'),
{
    !marks[m] && ls[m - 1].len() > 0 && ls[m - 1][0] == '#'
}

/// The first of the blocks that is a `text` block opening strictly between
/// lines `n` and `next`, its lines joined by spaces.
fn declaration_between(blocks: &Vec<crate::fences::Fence>, n: usize, last: usize) -> (r: Option<
    String,
>)
    ensures
        opt_view(r) == declaration_from(crate::fences::fence_views(blocks@), n as int, last + 1, 0),
{
    proof {
        reveal_strlit(" ");
    }
    let ghost bv = crate::fences::fence_views(blocks@);
    let text = chars_of("text");
    let mut b: usize = 0;
    while b < blocks.len()
        invariant
            b <= blocks@.len(),
            bv == crate::fences::fence_views(blocks@),
            text@ == "text"@,
            " "@ =~= seq![' '],
            declaration_from(bv, n as int, last + 1, 0) == declaration_from(
                bv,
                n as int,
                last + 1,
                b as int,
            ),
        decreases blocks@.len() - b,
    {
        let block = &blocks[b];
        assert(bv[b as int] == block@);
        let language = chars_of(block.language.as_str());
        if crate::text::same_chars(&language, &text) && block.start > n && block.start <= last {
            let mut ls: Vec<Vec<char>> = Vec::new();
            let mut j: usize = 0;
            let ghost lv = block@.lines.map_values(|l: (int, Seq<char>)| l.1);
            while j < block.lines.len()
                invariant
                    j <= block.lines@.len(),
                    bv[b as int] == block@,
                    lv == block@.lines.map_values(|l: (int, Seq<char>)| l.1),
                    ls@.map_values(|l: Vec<char>| l@) == lv.take(j as int),
                decreases block.lines@.len() - j,
            {
                let ghost was = ls@.map_values(|l: Vec<char>| l@);
                ls.push(chars_of(block.lines[j].1));
                assert(ls@.map_values(|l: Vec<char>| l@) =~= was.push(lv[j as int]));
                assert(lv.take(j + 1) =~= lv.take(j as int).push(lv[j as int]));
                j = j + 1;
            }
            assert(lv.take(block.lines@.len() as int) =~= lv);
            let space = vec![' '];
            proof {
                reveal_strlit(" ");
            }
            assert(space@ =~= " "@);
            let joined = crate::text::join(&ls, &space);
            assert(joined@ == crate::text::joined(lv, " "@));
            assert(declaration_from(bv, n as int, last + 1, b as int) == Some(
                crate::text::joined(lv, " "@),
            ));
            return Some(string_of(&joined));
        }
        b = b + 1;
    }
    None
}

/// The first paragraph in the lines after the first `from` up to the first
/// `to`, unless what comes first is not prose.
fn paragraph(ls: &Vec<Vec<char>>, marks: &Vec<bool>, from: usize, to: usize, Ghost(bv): Ghost<
    Seq<FenceViewOf>,
>) -> (r: Option<String>)
    requires
        to <= ls@.len(),
        marks@.len() == ls@.len() + 1,
        forall|n: int|
            0 <= n < ls@.len() + 1 ==> marks@[n] == fenced_at(bv, ls@.len() as int, n),
    ensures
        opt_view(r) == paragraph_of(ls@.map_values(|l: Vec<char>| l@), bv, from + 1, to + 1),
{
    proof {
        reveal_strlit(" ");
    }
    let ghost lv = ls@.map_values(|l: Vec<char>| l@);
    let mut start = from;
    while start < to && blank_line(&ls[start])
        invariant
            from <= start,
            to <= ls@.len(),
            lv == ls@.map_values(|l: Vec<char>| l@),
            first_filled(lv, from + 1, to + 1) == first_filled(lv, start + 1, to + 1),
        decreases to - start,
    {
        assert(lv[start as int] == ls@[start as int]@);
        start = start + 1;
    }
    if start < to {
        assert(lv[start as int] == ls@[start as int]@);
    }
    if start >= to {
        return None;
    }
    let first = &ls[start];
    let lead = crate::text::skip_spaces(first, 0, first.len());
    assert(first@.subrange(0, first@.len() as int) =~= first@);
    let opens = lead < first.len() && (first[lead] == '|' || first[lead] == '>' || first[lead] == '!'
        || first[lead] == '<' || first[lead] == '#');
    assert(opens == not_prose(lv[start as int]));
    if marks[start + 1] || opens {
        return None;
    }
    let mut end = start;
    let mut body: Vec<Vec<char>> = Vec::new();
    while end < to && !marks[end + 1] && !blank_line(&ls[end])
        invariant
            start <= end <= to,
            to <= ls@.len(),
            marks@.len() == ls@.len() + 1,
            forall|n: int| 0 <= n < ls@.len() + 1 ==> marks@[n] == fenced_at(bv, ls@.len() as int, n),
            lv == ls@.map_values(|l: Vec<char>| l@),
            paragraph_end(lv, bv, start + 1, to + 1) == paragraph_end(lv, bv, end + 1, to + 1),
            body@.map_values(|l: Vec<char>| l@) == lv.subrange(start as int, end as int).map_values(
                |l: Seq<char>| crate::text::trim(l),
            ),
        decreases to - end,
    {
        assert(lv[end as int] == ls@[end as int]@);
        let ghost was = body@.map_values(|l: Vec<char>| l@);
        let line = crate::text::trimmed(&ls[end]);
        body.push(line);
        assert(body@.map_values(|l: Vec<char>| l@) =~= was.push(crate::text::trim(lv[end as int])));
        assert(lv.subrange(start as int, end + 1).map_values(|l: Seq<char>| crate::text::trim(l))
            =~= lv.subrange(start as int, end as int).map_values(|l: Seq<char>| crate::text::trim(l)).push(
            crate::text::trim(lv[end as int]),
        ));
        end = end + 1;
    }
    if end < to {
        assert(lv[end as int] == ls@[end as int]@);
    }
    let space = vec![' '];
    proof {
        reveal_strlit(" ");
    }
    assert(space@ =~= " "@);
    let joined = crate::text::join(&body, &space);
    assert(joined@ == crate::text::joined(
        lv.subrange(start as int, end as int).map_values(|l: Seq<char>| crate::text::trim(l)),
        " "@,
    ));
    Some(string_of(&joined))
}

/// Where line `n` of a page is.
fn place_of(page: &str, n: usize) -> (r: String)
    ensures
        r@ == place(page@, n as int),
{
    let mut v = chars_of(page);
    v.push(':');
    proof {
        reveal_strlit(":");
    }
    let d = crate::text::decimal_of(n);
    extend(&mut v, &d);
    string_of(&v)
}

/// The section a line carries, if any, and whether the `##` section it is
/// in is `Re-exports`.
fn section_on(
    ls: &Vec<Vec<char>>,
    marks: &Vec<bool>,
    blocks: &Vec<crate::fences::Fence>,
    page: &str,
    i: usize,
    reexports: bool,
) -> (r: (bool, Option<Section>))
    requires
        i < ls@.len(),
        marks@.len() == ls@.len() + 1,
        forall|m: int|
            0 <= m < ls@.len() + 1 ==> marks@[m] == fenced_at(
                crate::fences::fence_views(blocks@),
                ls@.len() as int,
                m,
            ),
    ensures
        ({
            let (now, found) = section_at(
                ls@.map_values(|l: Vec<char>| l@),
                crate::fences::fence_views(blocks@),
                page@,
                i + 1,
                reexports,
            );
            &&& r.0 == now
            &&& match r.1 {
                Some(s) => found == Some(s@),
                None => found is None,
            }
        }),
{
    proof {
        reveal_strlit("Re-exports");
        reveal_strlit("|");
        reveal_strlit("::");
    }
    let ghost lv = ls@.map_values(|l: Vec<char>| l@);
    let ghost bv = crate::fences::fence_views(blocks@);
    let count = ls.len();
    let n = i + 1;
    let line = &ls[i];
    assert(lv[i as int] == line@);
    if marks[n] {
        return (reexports, None);
    }
    if line.len() > 0 && line[0] == '#' {
        let lv_n = level_of(line);
        let rest = slice(line, lv_n, line.len());
        assert(rest@ =~= line@.skip(lv_n as int));
        let title = crate::text::trimmed(&rest);
        let marker = chars_of("Re-exports");
        let now = if lv_n == 2 {
            crate::text::same_chars(&title, &marker)
        } else {
            reexports
        };
        match code_span(&title) {
            Some(name) => {
                if 2 <= lv_n && lv_n <= 4 {
                    let mut next = n;
                    while next < ls.len() && !heading_line(ls, marks, next + 1)
                        invariant
                            n <= next <= ls@.len(),
                            n == i + 1,
                            lv == ls@.map_values(|l: Vec<char>| l@),
                            marks@.len() == ls@.len() + 1,
                            forall|m: int|
                                0 <= m < ls@.len() + 1 ==> marks@[m] == fenced_at(bv, ls@.len() as int, m),
                            next_heading(lv, bv, n + 1) == next_heading(lv, bv, next + 1),
                        decreases ls@.len() - next,
                    {
                        assert(lv[next as int] == ls@[next as int]@);
                        next = next + 1;
                    }
                    if next < ls.len() {
                        assert(lv[next as int] == ls@[next as int]@);
                    }
                    let summary = paragraph(ls, marks, n, next, Ghost(bv));
                    let declaration = declaration_between(blocks, n, next);
                    let at = place_of(page, n);
                    return (
                        now,
                        Some(
                            Section {
                                name: string_of(&name),
                                at,
                                summary,
                                declaration,
                                row: false,
                            },
                        ),
                    );
                }
                return (now, None);
            },
            None => {
                return (now, None);
            },
        }
    }
    let t = crate::text::trimmed(line);
    if t.len() > 0 && t[0] == '|' {
        let after = slice(&t, 1, t.len());
        assert(after@ =~= t@.skip(1));
        let bar = vec!['|'];
        assert(bar@ =~= "|"@);
        let raw = pieces(&after, &bar);
        let ghost rv = raw@.map_values(|p: Vec<char>| p@);
        let mut cells: Vec<Vec<char>> = Vec::new();
        let mut j: usize = 0;
        while j < raw.len() && j < 2
            invariant
                j <= raw@.len(),
                j <= 2,
                rv == raw@.map_values(|p: Vec<char>| p@),
                cells@.len() == j,
                forall|k: int| 0 <= k < j ==> cells@[k]@ == crate::text::trim(rv[k]),
            decreases raw@.len() - j,
        {
            cells.push(crate::text::trimmed(&raw[j]));
            j = j + 1;
        }
        if cells.len() < 2 {
            return (reexports, None);
        }
        match code_span(&cells[0]) {
            Some(name) => {
                if reexports || crate::text::contains_str(&name, "::") {
                    let at = place_of(page, n);
                    return (
                        reexports,
                        Some(
                            Section {
                                name: string_of(&name),
                                at,
                                summary: Some(string_of(&cells[1])),
                                declaration: None,
                                row: true,
                            },
                        ),
                    );
                }
                return (reexports, None);
            },
            None => {
                return (reexports, None);
            },
        }
    }
    (reexports, None)
}

/// The views of a list of sections.
pub open spec fn section_views(v: Seq<Section>) -> Seq<SectionView> {
    v.map_values(|s: Section| s@)
}

/// Every section in a page. A fenced line is never a heading or a row.
pub fn sections_in(text: &str, page: &str) -> (r: Vec<Section>)
    ensures
        section_views(r@) == sections_of(text@, page@),
{
    let blocks = crate::fences::fences(text);
    let all = crate::text::lines(text);
    let ls = line_chars(&all);
    let ghost lv = ls@.map_values(|l: Vec<char>| l@);
    let ghost bv = crate::fences::fence_views(blocks@);
    let count = ls.len();
    let marks = fence_marks(&blocks, count);
    let mut out: Vec<Section> = Vec::new();
    let mut reexports = false;
    let mut i: usize = 0;
    while i < count
        invariant
            i <= count,
            count == ls@.len(),
            lv == ls@.map_values(|l: Vec<char>| l@),
            lv == crate::text::lines_of(text@),
            bv == crate::fences::fence_views(blocks@),
            bv == crate::fences::fenced_blocks(text@),
            marks@.len() == count + 1,
            forall|m: int| 0 <= m < count + 1 ==> marks@[m] == fenced_at(bv, count as int, m),
            (reexports, section_views(out@)) == sections_upto(lv, bv, page@, i as nat),
        decreases count - i,
    {
        let ghost was = section_views(out@);
        let (now, found) = section_on(&ls, &marks, &blocks, page, i, reexports);
        match found {
            Some(section) => {
                out.push(section);
                assert(section_views(out@) =~= was.push(section@));
            },
            None => {},
        }
        reexports = now;
        assert(section_views(out@) =~= sections_upto(lv, bv, page@, (i + 1) as nat).1);
        i = i + 1;
    }
    out
}

} // verus!
