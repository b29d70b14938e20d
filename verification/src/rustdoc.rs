//! What rustdoc wrote: every public name in a crate, and the `///` and the
//! signature behind each one.
//!
//! The names come from rustdoc's HTML and the words from the source it links
//! to. Reading each page and each source file is the caller's; what a page
//! or a file says is read here.

use vstd::prelude::*;
use crate::pages::{between_of, text_from_html};
use crate::text::{
    all_digits, before_first, chars_of, collapsed, decimal, decimal_of, extend, joined, matches_at,
    occurs, parse_number, parsed, pieces, same_chars, skip_space, slice, split, split_once,
    split_once_of, string_of, trim, trimmed, up_to, views,
};

verus! {

broadcast use vstd::string::group_string_axioms;

/// How a page carries a name.
#[derive(Clone, Copy, PartialEq, Eq, Structural, Debug)]
pub enum Kind {
    /// A struct, enum, trait, function, constant, type alias, static or macro.
    Item,
    /// A method, an associated function or constant, or a trait method.
    Member,
    /// An enum variant or a public field, carried as a table row.
    Row,
    /// Defined in another crate: a row under `## Re-exports`, never compared.
    Foreign,
}

/// One public name, with the words and the signature a page repeats.
pub struct Symbol {
    pub name: String,
    pub kind: Kind,
    /// The first `///` paragraph, joined; empty when there is none.
    pub summary: String,
    /// From the first token to the body; empty for a row or a foreign item.
    pub declaration: String,
    /// `file:line`, for a message a reader can jump to.
    pub at: String,
}

/// What a symbol holds, as plain values.
pub struct SymbolView {
    pub name: Seq<char>,
    pub kind: Kind,
    pub summary: Seq<char>,
    pub declaration: Seq<char>,
    pub at: Seq<char>,
}

impl View for Symbol {
    type V = SymbolView;

    open spec fn view(&self) -> SymbolView {
        SymbolView {
            name: self.name@,
            kind: self.kind,
            summary: self.summary@,
            declaration: self.declaration@,
            at: self.at@,
        }
    }
}

/// A name with nothing read behind it.
pub fn bare(name: String, kind: Kind, at: String) -> (s: Symbol)
    ensures
        s@ == (SymbolView { name: name@, kind, summary: Seq::empty(), declaration: Seq::empty(), at: at@ }),
{
    Symbol { name, kind, summary: String::new(), declaration: String::new(), at }
}

/// The `n`th piece of `s` split at `pat`, if there are that many.
pub open spec fn nth_piece(s: Seq<char>, pat: Seq<char>, n: int) -> Option<Seq<char>> {
    if 0 <= n < split(s, pat).len() {
        Some(split(s, pat)[n])
    } else {
        None
    }
}

/// Where a source link points in crate `krate`: the file, and the first and
/// last lines of the span.
pub open spec fn link_of(href: Seq<char>, krate: Seq<char>) -> Option<(Seq<char>, nat, nat)> {
    match split_once_of(href, "src/"@ + krate + "/"@) {
        None => None,
        Some((_, after)) => match split_once_of(after, ".html#"@) {
            None => None,
            Some((file, lines)) => {
                let (first, last) = match split_once_of(lines, "-"@) {
                    Some(p) => p,
                    None => (lines, lines),
                };
                match (parsed(first), parsed(last)) {
                    (Some(a), Some(b)) => Some((file, a, b)),
                    _ => None,
                }
            },
        },
    }
}

/// The characters of `s` as a literal, for patterns.
fn lit(s: &str) -> (r: Vec<char>)
    ensures
        r@ == s@,
{
    chars_of(s)
}

/// Where a source link points in crate `krate`.
pub fn link(href: &str, krate: &str) -> (r: Option<(String, usize, usize)>)
    ensures
        match r {
            Some((f, a, b)) => link_of(href@, krate@) == Some((f@, a as nat, b as nat)),
            None => link_of(href@, krate@) is None,
        },
{
    let h = chars_of(href);
    let mut marker = lit("src/");
    let k = chars_of(krate);
    extend(&mut marker, &k);
    marker.push('/');
    proof {
        reveal_strlit("/");
    }
    assert(marker@ =~= "src/"@ + krate@ + "/"@);
    let after = match split_once(&h, &marker) {
        None => {
            return None;
        },
        Some((_, after)) => after,
    };
    let (file, lines) = match split_once(&after, &lit(".html#")) {
        None => {
            return None;
        },
        Some(p) => p,
    };
    let (first, last) = match split_once(&lines, &lit("-")) {
        Some(p) => p,
        None => {
            let a = slice(&lines, 0, lines.len());
            assert(a@ =~= lines@);
            (slice(&lines, 0, lines.len()), a)
        },
    };
    match parse_number(&first) {
        None => None,
        Some(a) => match parse_number(&last) {
            None => None,
            Some(b) => Some((string_of(&file), a, b)),
        },
    }
}

/// The item's own source link, when it is in crate `krate`.
pub open spec fn top_source_of(page: Seq<char>, krate: Seq<char>) -> Option<(Seq<char>, nat, nat)> {
    match nth_piece(page, "class=\"sub-heading\""@, 1) {
        None => None,
        Some(after) => {
            let heading = before_first(after, "</span>"@);
            match nth_piece(heading, "<a class=\"src\" href=\""@, 1) {
                None => None,
                Some(tail) => link_of(before_first(tail, "\""@), krate),
            }
        },
    }
}

/// The second piece of `v` split at `pat`, if there is one.
fn second_piece(v: &[char], pat: &str) -> (r: Option<Vec<char>>)
    requires
        pat@.len() > 0,
    ensures
        match r {
            Some(p) => nth_piece(v@, pat@, 1) == Some(p@),
            None => nth_piece(v@, pat@, 1) is None,
        },
{
    let p = lit(pat);
    let ps = pieces(v, &p);
    if ps.len() < 2 {
        None
    } else {
        Some(slice(&ps[1], 0, ps[1].len()))
    }
}

/// The item's own source link, when it is in this crate: file, first, last.
pub fn top_source(page: &str, krate: &str) -> (r: Option<(String, usize, usize)>)
    ensures
        match r {
            Some((f, a, b)) => top_source_of(page@, krate@) == Some((f@, a as nat, b as nat)),
            None => top_source_of(page@, krate@) is None,
        },
{
    proof {
        reveal_strlit("class=\"sub-heading\"");
        reveal_strlit("<a class=\"src\" href=\"");
    }
    let v = chars_of(page);
    let after = match second_piece(&v, "class=\"sub-heading\"") {
        None => {
            return None;
        },
        Some(a) => a,
    };
    let heading = up_to(&after, &lit("</span>"));
    let tail = match second_piece(&heading, "<a class=\"src\" href=\"") {
        None => {
            return None;
        },
        Some(t) => t,
    };
    let href = up_to(&tail, &lit("\""));
    link(string_of(&href).as_str(), krate)
}

/// The links of one section of `all.html`: `(kind, href, text)` for each
/// `<li><a href="…">`, `section` being the kind.
pub open spec fn links_in(ls: Seq<Seq<char>>, section: Seq<char>) -> Seq<(Seq<char>, Seq<char>, Seq<char>)>
    decreases ls.len(),
{
    if ls.len() == 0 {
        Seq::empty()
    } else {
        links_in(ls.drop_last(), section) + match split_once_of(ls.last(), "\">"@) {
            Some((href, rest)) => seq![(section, href, before_first(rest, "</a>"@))],
            None => Seq::empty(),
        }
    }
}

/// The links of the sections of `all.html`.
pub open spec fn items_in(parts: Seq<Seq<char>>) -> Seq<(Seq<char>, Seq<char>, Seq<char>)>
    decreases parts.len(),
{
    if parts.len() == 0 {
        Seq::empty()
    } else {
        let part = parts.last();
        items_in(parts.drop_last()) + links_in(
            split(part, "<li><a href=\""@).skip(1),
            before_first(part, "\""@),
        )
    }
}

/// `(kind, href, text)` for every link under each `<h3 id="…">` of
/// `all.html`.
pub open spec fn items_of(all: Seq<char>) -> Seq<(Seq<char>, Seq<char>, Seq<char>)> {
    items_in(split(all, "<h3 id=\""@).skip(1))
}

/// The views of a list of string triples.
pub open spec fn triple_views(v: Seq<(String, String, String)>) -> Seq<(Seq<char>, Seq<char>, Seq<char>)> {
    v.map_values(|t: (String, String, String)| (t.0@, t.1@, t.2@))
}

/// `(kind, href, text)` for every link under each `<h3 id="…">` of `all.html`.
pub fn items(all: &str) -> (r: Vec<(String, String, String)>)
    ensures
        triple_views(r@) == items_of(all@),
{
    proof {
        reveal_strlit("<h3 id=\"");
        reveal_strlit("<li><a href=\"");
    }
    let v = chars_of(all);
    let h3 = lit("<h3 id=\"");
    let li = lit("<li><a href=\"");
    let quote = lit("\"");
    let close = lit("\">");
    let end_a = lit("</a>");
    let parts = pieces(&v, &h3);
    let ghost pv = parts@.map_values(|p: Vec<char>| p@);
    let mut out: Vec<(String, String, String)> = Vec::new();
    let mut i: usize = 1;
    if parts.len() == 0 {
        assert(pv.skip(1) =~= Seq::<Seq<char>>::empty());
        return out;
    }
    while i < parts.len()
        invariant
            1 <= i <= parts@.len(),
            pv == parts@.map_values(|p: Vec<char>| p@),
            pv == split(v@, "<h3 id=\""@),
            v@ == all@,
            li@ == "<li><a href=\""@,
            li@.len() > 0,
            quote@ == "\""@,
            close@ == "\">"@,
            end_a@ == "</a>"@,
            triple_views(out@) == items_in(pv.subrange(1, i as int)),
        decreases parts@.len() - i,
    {
        let part = &parts[i];
        assert(pv[i as int] == part@);
        let section = up_to(part, &quote);
        let links = pieces(part, &li);
        let ghost lv = links@.map_values(|p: Vec<char>| p@);
        let ghost base = triple_views(out@);
        if links.len() == 0 {
            assert(lv.skip(1) =~= Seq::<Seq<char>>::empty());
        }
        let mut j: usize = 1;
        while j < links.len()
            invariant
                1 <= j,
                j <= links@.len() || links@.len() == 0,
                lv == links@.map_values(|p: Vec<char>| p@),
                close@ == "\">"@,
                end_a@ == "</a>"@,
                triple_views(out@) == base + links_in(lv.subrange(1, j as int), section@),
            decreases links@.len() - j,
        {
            let ghost was = triple_views(out@);
            assert(lv[j as int] == links@[j as int]@);
            assert(lv.subrange(1, j + 1).drop_last() =~= lv.subrange(1, j as int));
            match split_once(&links[j], &close) {
                Some((href, rest)) => {
                    let text = up_to(&rest, &end_a);
                    out.push((string_of(&section), string_of(&href), string_of(&text)));
                    assert(triple_views(out@) =~= was.push((section@, href@, text@)));
                },
                None => {},
            }
            assert(triple_views(out@) =~= base + links_in(lv.subrange(1, j + 1), section@));
            j = j + 1;
        }
        if links.len() > 0 {
            assert(lv.subrange(1, links@.len() as int) =~= lv.skip(1));
        } else {
            assert(lv.subrange(1, 1) =~= lv.skip(1));
        }
        assert(pv.subrange(1, i + 1).drop_last() =~= pv.subrange(1, i as int));
        assert(triple_views(out@) =~= items_in(pv.subrange(1, i + 1)));
        i = i + 1;
    }
    assert(pv.subrange(1, parts@.len() as int) =~= pv.skip(1));
    out
}

/// The re-export one index entry names, if it names one: `(href, name)`.
pub open spec fn reexport_in(entry: Seq<char>) -> Option<(Seq<char>, Seq<char>)> {
    let name = before_first(entry, "\""@);
    let code = before_first(entry, "</dt>"@);
    match nth_piece(code, " href=\""@, 1) {
        Some(tail) => Some((before_first(tail, "\""@), name)),
        None => None,
    }
}

/// The re-exports the entries name.
pub open spec fn reexports_in(es: Seq<Seq<char>>) -> Seq<(Seq<char>, Seq<char>)>
    decreases es.len(),
{
    if es.len() == 0 {
        Seq::empty()
    } else {
        reexports_in(es.drop_last()) + match reexport_in(es.last()) {
            Some(p) => seq![p],
            None => Seq::empty(),
        }
    }
}

/// `(href, name)` for every item the crate root re-exports.
pub open spec fn reexports_of(index: Seq<char>) -> Seq<(Seq<char>, Seq<char>)> {
    reexports_in(split(index, "<dt id=\"reexport."@).skip(1))
}

/// The views of a list of string pairs.
pub open spec fn pair_views(v: Seq<(String, String)>) -> Seq<(Seq<char>, Seq<char>)> {
    v.map_values(|t: (String, String)| (t.0@, t.1@))
}

/// `(href, name)` for every item the crate root re-exports.
pub fn reexports(index: &str) -> (r: Vec<(String, String)>)
    ensures
        pair_views(r@) == reexports_of(index@),
{
    proof {
        reveal_strlit("<dt id=\"reexport.");
        reveal_strlit(" href=\"");
    }
    let v = chars_of(index);
    let dt = lit("<dt id=\"reexport.");
    let quote = lit("\"");
    let end_dt = lit("</dt>");
    let entries = pieces(&v, &dt);
    let ghost ev = entries@.map_values(|p: Vec<char>| p@);
    let mut out: Vec<(String, String)> = Vec::new();
    if entries.len() == 0 {
        assert(ev.skip(1) =~= Seq::<Seq<char>>::empty());
        return out;
    }
    let mut i: usize = 1;
    while i < entries.len()
        invariant
            1 <= i <= entries@.len(),
            ev == entries@.map_values(|p: Vec<char>| p@),
            ev == split(v@, "<dt id=\"reexport."@),
            v@ == index@,
            quote@ == "\""@,
            end_dt@ == "</dt>"@,
            " href=\""@.len() > 0,
            pair_views(out@) == reexports_in(ev.subrange(1, i as int)),
        decreases entries@.len() - i,
    {
        let entry = &entries[i];
        assert(ev[i as int] == entry@);
        let ghost was = pair_views(out@);
        let name = up_to(entry, &quote);
        let code = up_to(entry, &end_dt);
        match second_piece(&code, " href=\"") {
            Some(tail) => {
                let href = up_to(&tail, &quote);
                out.push((string_of(&href), string_of(&name)));
                assert(pair_views(out@) =~= was.push((href@, name@)));
            },
            None => {},
        }
        assert(ev.subrange(1, i + 1).drop_last() =~= ev.subrange(1, i as int));
        assert(pair_views(out@) =~= reexports_in(ev.subrange(1, i + 1)));
        i = i + 1;
    }
    assert(ev.subrange(1, entries@.len() as int) =~= ev.skip(1));
    out
}

/// Whether a line, trimmed, declares `name`: as a public field when `field`,
/// else as a variant.
pub open spec fn located(line: Seq<char>, name: Seq<char>, field: bool) -> bool {
    let t = trim(line);
    if field {
        &&& matches_at(t, 0, "pub "@)
        &&& matches_at(t, 4, name)
        &&& {
            let r = t.skip(4 + name.len() as int);
            let u = r.skip(skip_space(r, 0));
            u.len() > 0 && u[0] == ':'
        }
    } else {
        &&& matches_at(t, 0, name)
        &&& {
            let r = t.skip(name.len() as int);
            r.len() == 0 || r[0] == '(' || r[0] == '{' || r[0] == ',' || r[0] == ' ' || r[0] == '='
        }
    }
}

/// The first line at or after index `i` and before `end` that declares
/// `name`, 1-based.
pub open spec fn locate_from(lines: Seq<Seq<char>>, i: int, end: int, name: Seq<char>, field: bool) -> Option<int>
    decreases end - i,
{
    if i < 0 || i >= end || i >= lines.len() {
        None
    } else if located(lines[i], name, field) {
        Some(i + 1)
    } else {
        locate_from(lines, i + 1, end, name, field)
    }
}

/// The 1-based line of a variant or a public field, inside its type's lines.
pub open spec fn locate_of(lines: Seq<Seq<char>>, first: int, last: int, name: Seq<char>, field: bool) -> Option<int> {
    let from = if first > 0 {
        first - 1
    } else {
        0
    };
    let end = if last < lines.len() {
        last
    } else {
        lines.len() as int
    };
    locate_from(lines, from, end, name, field)
}

/// Whether a line, trimmed, declares `name`.
fn declares_here(line: &str, name: &[char], field: bool) -> (r: bool)
    ensures
        r == located(line@, name@, field),
{
    proof {
        reveal_strlit("pub ");
    }
    let v = chars_of(line);
    let t = trimmed(&v);
    if field {
        let pubs = lit("pub ");
        if !crate::text::starts_at(&t, 0, &pubs) || !crate::text::starts_at(&t, 4, name) {
            return false;
        }
        let tn = t.len();
        assert(4 + name@.len() <= tn);
        let r = slice(&t, 4 + name.len(), tn);
        assert(r@ =~= t@.skip(4 + name@.len() as int));
        let lead = crate::text::skip_spaces(&r, 0, r.len());
        assert(r@.subrange(0, r@.len() as int) =~= r@);
        lead < r.len() && r[lead] == ':'
    } else {
        if !crate::text::starts_at(&t, 0, name) {
            return false;
        }
        let r = slice(&t, name.len(), t.len());
        assert(r@ =~= t@.skip(name@.len() as int));
        r.len() == 0 || r[0] == '(' || r[0] == '{' || r[0] == ',' || r[0] == ' ' || r[0] == '='
    }
}

/// The 1-based line of a variant or a public field, inside its type's lines.
pub fn locate(lines: &[&str], first: usize, last: usize, name: &str, field: bool) -> (r: Option<
    usize,
>)
    ensures
        match r {
            Some(n) => locate_of(views(lines@), first as int, last as int, name@, field) == Some(
                n as int,
            ),
            None => locate_of(views(lines@), first as int, last as int, name@, field) is None,
        },
{
    let ghost lv = views(lines@);
    let nm = chars_of(name);
    let from = if first > 0 {
        first - 1
    } else {
        0
    };
    let end = if last < lines.len() {
        last
    } else {
        lines.len()
    };
    let mut i = from;
    while i < end
        invariant
            from <= i,
            end <= lines@.len(),
            lv == views(lines@),
            nm@ == name@,
            locate_of(lv, first as int, last as int, name@, field) == locate_from(
                lv,
                i as int,
                end as int,
                name@,
                field,
            ),
        decreases end - i,
    {
        assert(lv[i as int] == lines@[i as int]@);
        if declares_here(lines[i], &nm, field) {
            return Some(i + 1);
        }
        i = i + 1;
    }
    None
}

/// One step of a bracket depth that stays within `i64`.
pub open spec fn deeper(d: int) -> int {
    if d < i64::MAX {
        d + 1
    } else {
        d
    }
}

/// One step back of a bracket depth that stays within `i64`.
pub open spec fn shallower(d: int) -> int {
    if d > i64::MIN {
        d - 1
    } else {
        d
    }
}

/// The code of `lines[k..]` from character `j` of line `k`, up to the first
/// `{` or `;` outside brackets, each line's `//` comment dropped and each
/// line ended by a space. Bracket depth is counted within `i64`.
pub open spec fn decl_from(lines: Seq<Seq<char>>, k: int, j: int, depth: int) -> Seq<char>
    decreases lines.len() - k, before_first(lines[k], "//"@).len() - j,
{
    if k < 0 || k >= lines.len() || j < 0 {
        Seq::empty()
    } else {
        let code = before_first(lines[k], "//"@);
        if j >= code.len() {
            seq![' '] + decl_from(lines, k + 1, 0, depth)
        } else {
            let c = code[j];
            if (c == '{' || c == ';') && depth == 0 {
                Seq::empty()
            } else {
                let next = if c == '(' || c == '[' {
                    deeper(depth)
                } else if c == ')' || c == ']' {
                    shallower(depth)
                } else {
                    depth
                };
                seq![c] + decl_from(lines, k, j + 1, next)
            }
        }
    }
}

/// From the first line to the body or the `;`, outside any brackets, with
/// its whitespace collapsed.
pub open spec fn declaration_of_lines(lines: Seq<Seq<char>>) -> Seq<char> {
    collapsed(decl_from(lines, 0, 0, 0))
}

/// From the first line to the body or the `;`, outside any brackets.
pub fn declaration(lines: &[&str]) -> (r: String)
    ensures
        r@ == declaration_of_lines(views(lines@)),
{
    proof {
        reveal_strlit("//");
    }
    let ghost lv = views(lines@);
    let slashes = lit("//");
    let mut out: Vec<char> = Vec::new();
    let mut depth: i64 = 0;
    let mut k: usize = 0;
    while k < lines.len()
        invariant
            k <= lines@.len(),
            lv == views(lines@),
            slashes@ == "//"@,
            out@ + decl_from(lv, k as int, 0, depth as int) == decl_from(lv, 0, 0, 0),
        decreases lines@.len() - k,
    {
        let v = chars_of(lines[k]);
        assert(lv[k as int] == v@);
        let code = up_to(&v, &slashes);
        let mut j: usize = 0;
        while j < code.len()
            invariant
                j <= code@.len(),
                k < lv.len(),
                lv == views(lines@),
                code@ == before_first(lv[k as int], "//"@),
                out@ + decl_from(lv, k as int, j as int, depth as int) == decl_from(lv, 0, 0, 0),
            decreases code@.len() - j,
        {
            let c = code[j];
            if (c == '{' || c == ';') && depth == 0 {
                assert(decl_from(lv, k as int, j as int, depth as int) =~= Seq::<char>::empty());
                assert(out@ + Seq::<char>::empty() =~= out@);
                return string_of(&crate::text::collapse_chars(&out));
            }
            let ghost was = out@;
            let ghost before = depth as int;
            if c == '(' || c == '[' {
                if depth < i64::MAX {
                    depth = depth + 1;
                }
            } else if c == ')' || c == ']' {
                if depth > i64::MIN {
                    depth = depth - 1;
                }
            }
            out.push(c);
            assert(out@ + decl_from(lv, k as int, j + 1, depth as int) =~= was + decl_from(
                lv,
                k as int,
                j as int,
                before,
            ));
            j = j + 1;
        }
        let ghost was = out@;
        out.push(' ');
        assert(out@ + decl_from(lv, k + 1, 0, depth as int) =~= was + decl_from(
            lv,
            k as int,
            j as int,
            depth as int,
        ));
        k = k + 1;
    }
    assert(decl_from(lv, k as int, 0, depth as int) =~= Seq::<char>::empty());
    assert(out@ + Seq::<char>::empty() =~= out@);
    string_of(&crate::text::collapse_chars(&out))
}

/// Whether a line, trimmed, is a `///` comment or an attribute.
pub open spec fn decorated(l: Seq<char>) -> bool {
    matches_at(trim(l), 0, "///"@) || matches_at(trim(l), 0, "#["@)
}

/// The first line at or after `i` that is not decoration.
pub open spec fn past_decoration(ls: Seq<Seq<char>>, i: int) -> int
    decreases ls.len() - i,
{
    if 0 <= i < ls.len() && decorated(ls[i]) {
        past_decoration(ls, i + 1)
    } else {
        i
    }
}

/// Where the decoration right above line index `t` begins.
pub open spec fn back_decoration(ls: Seq<Seq<char>>, t: int) -> int
    decreases t,
{
    if 0 < t <= ls.len() && decorated(ls[t - 1]) {
        back_decoration(ls, t - 1)
    } else {
        t
    }
}

/// The first `///` paragraph of `ls`: the text of its `///` lines, trimmed,
/// up to a blank one or a fence; other lines are passed over.
pub open spec fn doc_lines(ls: Seq<Seq<char>>) -> Seq<Seq<char>>
    decreases ls.len(),
{
    if ls.len() == 0 {
        Seq::empty()
    } else {
        let t = trim(ls[0]);
        if matches_at(t, 0, "///"@) {
            let s = trim(t.skip(3));
            if s.len() == 0 || matches_at(s, 0, "```"@) {
                Seq::empty()
            } else {
                seq![s] + doc_lines(ls.skip(1))
            }
        } else {
            doc_lines(ls.skip(1))
        }
    }
}

/// Where the item rustdoc says starts at `line` is: the first line from
/// there that is neither an attribute nor a `///`.
pub open spec fn item_line(ls: Seq<Seq<char>>, line: int) -> int {
    past_decoration(
        ls,
        if line > 0 {
            line - 1
        } else {
            0
        },
    )
}

/// A symbol read from the source that rustdoc says starts at `line`.
pub open spec fn described_of(name: Seq<char>, kind: Kind, ls: Seq<Seq<char>>, line: int, path: Seq<char>) -> SymbolView {
    let item = item_line(ls, line);
    let top = back_decoration(ls, item);
    SymbolView {
        name,
        kind,
        summary: joined(doc_lines(ls.subrange(top, item)), " "@),
        declaration: declaration_of_lines(
            ls.skip(
                if item < ls.len() {
                    item
                } else {
                    ls.len() as int
                },
            ),
        ),
        at: path + ":"@ + decimal((item + 1) as nat),
    }
}

/// Whether a line, trimmed, is a `///` comment or an attribute.
fn decoration(line: &str) -> (r: bool)
    ensures
        r == decorated(line@),
{
    let v = chars_of(line);
    let t = trimmed(&v);
    crate::text::starts_with_str(&t, "///") || crate::text::starts_with_str(&t, "#[")
}

proof fn lemma_past(ls: Seq<Seq<char>>, i: int)
    requires
        0 <= i,
    ensures
        i <= past_decoration(ls, i),
        i <= ls.len() ==> past_decoration(ls, i) <= ls.len(),
    decreases ls.len() - i,
{
    if 0 <= i < ls.len() && decorated(ls[i]) {
        lemma_past(ls, i + 1);
    }
}

proof fn lemma_back(ls: Seq<Seq<char>>, t: int)
    requires
        0 <= t,
    ensures
        0 <= back_decoration(ls, t) <= t,
    decreases t,
{
    if 0 < t <= ls.len() && decorated(ls[t - 1]) {
        lemma_back(ls, t - 1);
    }
}

/// A symbol read from the source rustdoc says starts at `line`. That line may
/// be the item, one of its attributes, or its first `///`.
pub fn described(name: &str, kind: Kind, lines: &[&str], line: usize, path: &str) -> (r: Symbol)
    requires
        line <= lines@.len() + 1,
        lines@.len() < usize::MAX,
    ensures
        r@ == described_of(name@, kind, views(lines@), line as int, path@),
{
    proof {
        reveal_strlit("///");
        reveal_strlit(":");
        reveal_strlit(" ");
    }
    let ghost lv = views(lines@);
    let n = lines.len();
    let mut item: usize = if line > 0 {
        line - 1
    } else {
        0
    };
    while item < n && decoration(lines[item])
        invariant
            item <= n,
            n == lines@.len(),
            lv == views(lines@),
            item_line(lv, line as int) == past_decoration(lv, item as int),
        decreases n - item,
    {
        assert(lv[item as int] == lines@[item as int]@);
        item = item + 1;
    }
    if item < n {
        assert(lv[item as int] == lines@[item as int]@);
    }
    proof {
        lemma_past(lv, item as int);
    }
    assert(past_decoration(lv, item as int) == item);
    let mut top = item;
    while top > 0 && decoration(lines[top - 1])
        invariant
            top <= item <= n,
            n == lines@.len(),
            lv == views(lines@),
            back_decoration(lv, item as int) == back_decoration(lv, top as int),
        decreases top,
    {
        assert(lv[top - 1] == lines@[top - 1]@);
        top = top - 1;
    }
    if top > 0 {
        assert(lv[top - 1] == lines@[top - 1]@);
    }
    let mut parts: Vec<Vec<char>> = Vec::new();
    let mut i = top;
    let ghost span = lv.subrange(top as int, item as int);
    let mut stopped = false;
    while i < item && !stopped
        invariant
            top <= i <= item <= n,
            n == lines@.len(),
            lv == views(lines@),
            "///"@.len() == 3,
            span == lv.subrange(top as int, item as int),
            !stopped ==> parts@.map_values(|p: Vec<char>| p@) + doc_lines(lv.subrange(i as int, item as int))
                == doc_lines(span),
            stopped ==> parts@.map_values(|p: Vec<char>| p@) == doc_lines(span),
        decreases item - i, if stopped { 0int } else { 1int },
    {
        let ghost here = lv.subrange(i as int, item as int);
        assert(here[0] == lines@[i as int]@);
        assert(here.skip(1) =~= lv.subrange(i + 1, item as int));
        let v = chars_of(lines[i]);
        let t = trimmed(&v);
        let ghost was = parts@.map_values(|p: Vec<char>| p@);
        if crate::text::starts_with_str(&t, "///") {
            let rest = slice(&t, 3, t.len());
            assert(rest@ =~= t@.skip(3));
            let s = trimmed(&rest);
            if s.len() == 0 || crate::text::starts_with_str(&s, "```") {
                stopped = true;
                assert(doc_lines(here) =~= Seq::<Seq<char>>::empty());
                assert(was + Seq::<Seq<char>>::empty() =~= was);
            } else {
                parts.push(s);
                assert(parts@.map_values(|p: Vec<char>| p@) =~= was.push(s@));
                assert(parts@.map_values(|p: Vec<char>| p@) + doc_lines(lv.subrange(i + 1, item as int))
                    =~= was + doc_lines(here));
            }
        }
        i = i + 1;
    }
    if !stopped {
        assert(lv.subrange(i as int, item as int) =~= Seq::<Seq<char>>::empty());
        assert(parts@.map_values(|p: Vec<char>| p@) + Seq::<Seq<char>>::empty() =~= parts@.map_values(
            |p: Vec<char>| p@,
        ));
    }
    let space = vec![' '];
    assert(space@ =~= " "@);
    let summary = crate::text::join(&parts, &space);
    let from = if item < n {
        item
    } else {
        n
    };
    let mut rest: Vec<&str> = Vec::new();
    let mut j = from;
    while j < n
        invariant
            from <= j <= n,
            n == lines@.len(),
            lv == views(lines@),
            views(rest@) == lv.subrange(from as int, j as int),
        decreases n - j,
    {
        let ghost was = views(rest@);
        rest.push(lines[j]);
        assert(views(rest@) =~= was.push(lv[j as int]));
        assert(lv.subrange(from as int, j + 1) =~= lv.subrange(from as int, j as int).push(lv[j as int]));
        j = j + 1;
    }
    assert(lv.subrange(from as int, n as int) =~= lv.skip(from as int));
    let declared = declaration(rest.as_slice());
    let mut at = chars_of(path);
    at.push(':');
    let number = decimal_of(item + 1);
    extend(&mut at, &number);
    assert(at@ =~= path@ + ":"@ + decimal((item + 1) as nat));
    Symbol {
        name: string_of(&chars_of(name)),
        kind,
        summary: string_of(&summary),
        declaration: declared,
        at: string_of(&at),
    }
}

/// The markers from which a page documents somebody else's items: trait
/// implementations, blanket ones, implementors and the rest.
pub open spec fn theirs() -> Seq<Seq<char>> {
    seq![
        "id=\"trait-implementations"@,
        "id=\"synthetic-implementations"@,
        "id=\"blanket-implementations"@,
        "id=\"implementors"@,
        "id=\"foreign-impls"@,
        "id=\"deref-methods"@,
    ]
}

/// Where the first of `ms` occurs in `page`, or its end.
pub open spec fn earliest(page: Seq<char>, ms: Seq<Seq<char>>) -> int
    decreases ms.len(),
{
    if ms.len() == 0 {
        page.len() as int
    } else {
        let rest = earliest(page, ms.drop_last());
        match crate::text::first_match(page, ms.last(), 0) {
            Some(k) if k < rest => k,
            _ => rest,
        }
    }
}

/// The tag a member's `id` prefix stands for, if it is one of the item's own.
pub open spec fn tag_of(t: Seq<char>) -> Option<Seq<char>> {
    if t == "method"@ || t == "tymethod"@ || t == "associatedconstant"@ || t == "associatedtype"@ {
        Some("member"@)
    } else if t == "variant"@ {
        Some("variant"@)
    } else if t == "structfield"@ {
        Some("structfield"@)
    } else {
        None
    }
}

/// Whether the text after a member's `id` gives it the item's own class
/// rather than a trait implementation's.
pub open spec fn own_class(rest: Seq<char>) -> bool {
    ||| matches_at(rest, 0, " class=\"method\""@)
    ||| matches_at(rest, 0, " class=\"associatedconstant\""@)
    ||| matches_at(rest, 0, " class=\"associatedtype\""@)
}

/// A member as plain values: tag, name, source, and rustdoc's rendering.
pub type MemberView = (Seq<char>, Seq<char>, Option<(Seq<char>, nat)>, Option<SymbolView>);

/// The member one chunk of a page documents, if it documents one of the
/// item's own: a method or associated item of its own class, a variant, or
/// a named field.
pub open spec fn member_in(chunk: Seq<char>, krate: Seq<char>) -> Option<MemberView> {
    match split_once_of(chunk, "\""@) {
        None => None,
        Some((id, rest)) => match split_once_of(id, "."@) {
            None => None,
            Some((t, raw)) => match tag_of(t) {
                None => None,
                Some(tag) => {
                    let name = before_first(raw, "-"@);
                    if tag == "member"@ && !own_class(rest) {
                        None
                    } else if occurs(name, "."@) || all_digits(name) {
                        None
                    } else {
                        let body = before_first(rest, "</details>"@);
                        let source = match between_of(
                            body,
                            "class=\"src rightside\" href=\""@,
                            "\""@,
                        ) {
                            Some(h) => match link_of(h, krate) {
                                Some((f, a, _)) => Some((f, a)),
                                None => None,
                            },
                            None => None,
                        };
                        let shown = match between_of(body, "<h4 class=\"code-header\">"@, "</h4>"@) {
                            Some(header) => Some(
                                SymbolView {
                                    name: Seq::empty(),
                                    kind: Kind::Member,
                                    summary: match between_of(
                                        body,
                                        "<div class=\"docblock\"><p>"@,
                                        "</p>"@,
                                    ) {
                                        Some(p) => text_from_html(p),
                                        None => Seq::empty(),
                                    },
                                    declaration: text_from_html(header),
                                    at: Seq::empty(),
                                },
                            ),
                            None => None,
                        };
                        Some((tag, name, source, shown))
                    }
                },
            },
        },
    }
}

/// Whether `done` already holds a member with this tag and name.
pub open spec fn seen(done: Seq<MemberView>, tag: Seq<char>, name: Seq<char>) -> bool {
    exists|i: int| 0 <= i < done.len() && #[trigger] done[i].0 == tag && done[i].1 == name
}

/// The members the chunks document, each tag and name once.
pub open spec fn members_from(chunks: Seq<Seq<char>>, krate: Seq<char>) -> Seq<MemberView>
    decreases chunks.len(),
{
    if chunks.len() == 0 {
        Seq::empty()
    } else {
        let done = members_from(chunks.drop_last(), krate);
        match member_in(chunks.last(), krate) {
            Some(m) if !seen(done, m.0, m.1) => done.push(m),
            _ => done,
        }
    }
}

/// The members a page documents as the item's own, before the first part
/// that is somebody else's.
pub open spec fn members_of(page: Seq<char>, krate: Seq<char>) -> Seq<MemberView> {
    members_from(split(page.take(earliest(page, theirs())), " id=\""@).skip(1), krate)
}

/// A member: tag, name, source file and line, and rustdoc's rendering.
pub type Member = (&'static str, String, Option<(String, usize)>, Option<Symbol>);

/// The view of a member.
pub open spec fn member_view(m: Member) -> MemberView {
    (
        m.0@,
        m.1@,
        match m.2 {
            Some((f, l)) => Some((f@, l as nat)),
            None => None,
        },
        match m.3 {
            Some(s) => Some(s@),
            None => None,
        },
    )
}

/// Where the first of the markers occurs in `page`, or its end.
fn their_start(page: &[char]) -> (r: usize)
    ensures
        r == earliest(page@, theirs()),
{
    let ms = vec![
        lit("id=\"trait-implementations"),
        lit("id=\"synthetic-implementations"),
        lit("id=\"blanket-implementations"),
        lit("id=\"implementors"),
        lit("id=\"foreign-impls"),
        lit("id=\"deref-methods"),
    ];
    let ghost mv = ms@.map_values(|m: Vec<char>| m@);
    assert(mv =~= theirs());
    let mut end = page.len();
    let mut i: usize = 0;
    while i < ms.len()
        invariant
            i <= ms@.len(),
            mv == ms@.map_values(|m: Vec<char>| m@),
            end == earliest(page@, mv.take(i as int)),
        decreases ms@.len() - i,
    {
        assert(mv.take(i + 1).drop_last() =~= mv.take(i as int));
        assert(mv.take(i + 1).last() == ms@[i as int]@);
        match crate::text::find(page, &ms[i], 0) {
            Some(k) => {
                if k < end {
                    end = k;
                }
            },
            None => {},
        }
        i = i + 1;
    }
    assert(mv.take(ms@.len() as int) =~= mv);
    end
}

/// The tag a member's `id` prefix stands for.
fn tag_for(t: &[char]) -> (r: Option<&'static str>)
    ensures
        match r {
            Some(tag) => tag_of(t@) == Some(tag@),
            None => tag_of(t@) is None,
        },
{
    if same_chars(t, &lit("method")) || same_chars(t, &lit("tymethod")) || same_chars(
        t,
        &lit("associatedconstant"),
    ) || same_chars(t, &lit("associatedtype")) {
        Some("member")
    } else if same_chars(t, &lit("variant")) {
        Some("variant")
    } else if same_chars(t, &lit("structfield")) {
        Some("structfield")
    } else {
        None
    }
}

/// Whether every character of `v` is an ASCII digit.
fn digits_only(v: &[char]) -> (r: bool)
    ensures
        r == all_digits(v@),
{
    let mut i: usize = 0;
    while i < v.len()
        invariant
            i <= v@.len(),
            forall|k: int| 0 <= k < i ==> '0' <= #[trigger] v@[k] <= '9',
        decreases v@.len() - i,
    {
        if v[i] < '0' || v[i] > '9' {
            assert(!('0' <= v@[i as int] <= '9'));
            return false;
        }
        i = i + 1;
    }
    true
}

/// The member one chunk of a page documents, if it is one of the item's own.
fn member_of(chunk: &[char], krate: &str) -> (r: Option<Member>)
    ensures
        match r {
            Some(m) => member_in(chunk@, krate@) == Some(member_view(m)),
            None => member_in(chunk@, krate@) is None,
        },
{
    let (id, rest) = match split_once(chunk, &lit("\"")) {
        None => {
            return None;
        },
        Some(p) => p,
    };
    let (t, raw) = match split_once(&id, &lit(".")) {
        None => {
            return None;
        },
        Some(p) => p,
    };
    let tag = match tag_for(&t) {
        None => {
            return None;
        },
        Some(tag) => tag,
    };
    let name = up_to(&raw, &lit("-"));
    let is_member = same_chars(&chars_of(tag), &lit("member"));
    if is_member && !(crate::text::starts_with_str(&rest, " class=\"method\"")
        || crate::text::starts_with_str(&rest, " class=\"associatedconstant\"")
        || crate::text::starts_with_str(&rest, " class=\"associatedtype\"")) {
        return None;
    }
    if crate::text::contains_str(&name, ".") || digits_only(&name) {
        return None;
    }
    let body = up_to(&rest, &lit("</details>"));
    let body_text = string_of(&body);
    let source = match crate::pages::between(
        body_text.as_str(),
        "class=\"src rightside\" href=\"",
        "\"",
    ) {
        Some(h) => match link(h, krate) {
            Some((f, a, _)) => Some((f, a)),
            None => None,
        },
        None => None,
    };
    let shown = match crate::pages::between(
        body_text.as_str(),
        "<h4 class=\"code-header\">",
        "</h4>",
    ) {
        Some(header) => {
            let summary = match crate::pages::between(
                body_text.as_str(),
                "<div class=\"docblock\"><p>",
                "</p>",
            ) {
                Some(p) => crate::pages::text_of(p),
                None => String::new(),
            };
            Some(
                Symbol {
                    name: String::new(),
                    kind: Kind::Member,
                    summary,
                    declaration: crate::pages::text_of(header),
                    at: String::new(),
                },
            )
        },
        None => None,
    };
    Some((tag, string_of(&name), source, shown))
}

/// Whether `out` already holds a member with this tag and name.
fn already(out: &Vec<Member>, tag: &str, name: &[char]) -> (r: bool)
    ensures
        r == seen(out@.map_values(|m: Member| member_view(m)), tag@, name@),
{
    let ghost ov = out@.map_values(|m: Member| member_view(m));
    let t = chars_of(tag);
    let mut i: usize = 0;
    while i < out.len()
        invariant
            i <= out@.len(),
            ov == out@.map_values(|m: Member| member_view(m)),
            t@ == tag@,
            forall|k: int| 0 <= k < i ==> !(#[trigger] ov[k].0 == tag@ && ov[k].1 == name@),
        decreases out@.len() - i,
    {
        let m = &out[i];
        assert(ov[i as int] == member_view(*m));
        if same_chars(&chars_of(m.0), &t) && same_chars(&chars_of(m.1.as_str()), name) {
            assert(ov[i as int].0 == tag@ && ov[i as int].1 == name@);
            return true;
        }
        i = i + 1;
    }
    false
}

/// The members a page documents as the item's own: `(tag, name, source,
/// shown)`, where `shown` is rustdoc's rendering of a member.
///
/// Everything from the trait implementations on belongs to somebody else,
/// and a copy of a trait's method on a type carries a second class.
pub fn members(page: &str, krate: &str) -> (r: Vec<Member>)
    ensures
        r@.map_values(|m: Member| member_view(m)) == members_of(page@, krate@),
{
    proof {
        reveal_strlit(" id=\"");
    }
    let v = chars_of(page);
    let end = their_start(&v);
    proof {
        crate::text::lemma_first_match(v@, seq![' '], 0);
    }
    assert(end <= v@.len()) by {
        lemma_earliest(v@, theirs());
    }
    let head = slice(&v, 0, end);
    assert(head@ =~= v@.take(end as int));
    let marker = lit(" id=\"");
    let chunks = pieces(&head, &marker);
    let ghost cv = chunks@.map_values(|c: Vec<char>| c@);
    let mut out: Vec<Member> = Vec::new();
    if chunks.len() == 0 {
        assert(cv.skip(1) =~= Seq::<Seq<char>>::empty());
        return out;
    }
    let mut i: usize = 1;
    while i < chunks.len()
        invariant
            1 <= i <= chunks@.len(),
            cv == chunks@.map_values(|c: Vec<char>| c@),
            out@.map_values(|m: Member| member_view(m)) == members_from(cv.subrange(1, i as int), krate@),
        decreases chunks@.len() - i,
    {
        let ghost was = out@.map_values(|m: Member| member_view(m));
        assert(cv.subrange(1, i + 1).drop_last() =~= cv.subrange(1, i as int));
        assert(cv.subrange(1, i + 1).last() == chunks@[i as int]@);
        match member_of(&chunks[i], krate) {
            Some(m) => {
                if !already(&out, m.0, &chars_of(m.1.as_str())) {
                    out.push(m);
                    assert(out@.map_values(|m: Member| member_view(m)) =~= was.push(member_view(m)));
                }
            },
            None => {},
        }
        i = i + 1;
    }
    assert(cv.subrange(1, chunks@.len() as int) =~= cv.skip(1));
    out
}

proof fn lemma_earliest(page: Seq<char>, ms: Seq<Seq<char>>)
    ensures
        0 <= earliest(page, ms) <= page.len(),
    decreases ms.len(),
{
    if ms.len() > 0 {
        lemma_earliest(page, ms.drop_last());
        crate::text::lemma_first_match(page, ms.last(), 0);
    }
}

} // verus!
