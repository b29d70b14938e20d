//! Whether every Rust block in the documentation is compiled.
//!
//! Four rules rather than one, because three of them are ways for a fence to
//! look compiled and not be: a Rust fence nothing mounts, an unlabelled fence,
//! an unknown language, and an `ignore`. What one page or one source file says
//! is read here; which pages exist and which are mounted is the caller's.

use vstd::prelude::*;
use crate::fences::{fences, fence_views, fenced_blocks, Fence, FenceView};
use crate::text::{
    chars_of, decimal, decimal_of, extend, find_either, lines, lines_of, lowercased, matches_at,
    occurs, skip_space, slice, split, string_of, string_views, to_lowercase, trim, trimmed, views,
};

verus! {

broadcast use vstd::string::group_string_axioms;

/// The pieces of `s[i..]` between its commas and spaces.
pub open spec fn fields_from(s: Seq<char>, i: int) -> Seq<Seq<char>>
    decreases s.len() + 1 - i,
{
    if i < 0 || i > s.len() {
        Seq::empty()
    } else {
        let k = find_either(s, ',', ' ', i);
        proof {
            lemma_find_either(s, i);
        }
        if k >= s.len() {
            seq![s.skip(i)]
        } else {
            seq![s.subrange(i, k)] + fields_from(s, k + 1)
        }
    }
}

pub proof fn lemma_find_either(s: Seq<char>, i: int)
    requires
        0 <= i <= s.len(),
    ensures
        i <= find_either(s, ',', ' ', i) <= s.len(),
        find_either(s, ',', ' ', i) < s.len() ==> (s[find_either(s, ',', ' ', i)] == ',' || s[find_either(s, ',', ' ', i)] == ' '),
    decreases s.len() - i,
{
    if i < s.len() && s[i] != ',' && s[i] != ' ' {
        lemma_find_either(s, i + 1);
    }
}

/// The pieces of `s` between its commas and spaces, as
/// `split([',', ' '])` gives them.
pub open spec fn fields(s: Seq<char>) -> Seq<Seq<char>> {
    fields_from(s, 0)
}

/// The pieces of `v` between its commas and spaces.
fn fields_of(v: &[char]) -> (r: Vec<Vec<char>>)
    ensures
        r@.map_values(|p: Vec<char>| p@) == fields(v@),
{
    let n = v.len();
    let mut out: Vec<Vec<char>> = Vec::new();
    let mut i: usize = 0;
    loop
        invariant
            n == v@.len(),
            i <= n,
            out@.map_values(|p: Vec<char>| p@) + fields_from(v@, i as int) == fields(v@),
        decreases n - i,
    {
        let ghost was = out@.map_values(|p: Vec<char>| p@);
        let mut k = i;
        while k < n && v[k] != ',' && v[k] != ' '
            invariant
                i <= k <= n,
                n == v@.len(),
                find_either(v@, ',', ' ', i as int) == find_either(v@, ',', ' ', k as int),
            decreases n - k,
        {
            k = k + 1;
        }
        proof {
            lemma_find_either(v@, i as int);
        }
        if k == n {
            let last = slice(v, i, n);
            out.push(last);
            assert(v@.skip(i as int) =~= last@);
            assert(out@.map_values(|p: Vec<char>| p@) =~= was + fields_from(v@, i as int));
            return out;
        }
        let piece = slice(v, i, k);
        out.push(piece);
        assert(out@.map_values(|p: Vec<char>| p@) + fields_from(v@, k + 1) =~= was + fields_from(
            v@,
            i as int,
        ));
        i = k + 1;
    }
}

/// How many of `c1` and `c2` a string starts with.
pub open spec fn leading(s: Seq<char>, c1: char, c2: char, i: int) -> int
    decreases s.len() - i,
{
    if i < 0 || i >= s.len() || !(s[i] == c1 || s[i] == c2) {
        i
    } else {
        leading(s, c1, c2, i + 1)
    }
}

/// The attributes on the info string of the fence opened by `line`:
/// everything after the language, lowercased, without empty pieces.
pub open spec fn attributes_in(line: Seq<char>) -> Seq<Seq<char>> {
    let t = line.skip(skip_space(line, 0));
    let info = lowercased(t.skip(leading(t, '`', '~', 0)));
    nonempty(fields(info).skip(1))
}

/// The pieces of `ps` that are not empty.
pub open spec fn nonempty(ps: Seq<Seq<char>>) -> Seq<Seq<char>>
    decreases ps.len(),
{
    if ps.len() == 0 {
        Seq::empty()
    } else {
        nonempty(ps.drop_last()) + if ps.last().len() > 0 {
            seq![ps.last()]
        } else {
            Seq::empty()
        }
    }
}

/// The attributes on a fence's info string, read off the line that opens
/// it, or none when there is no such line.
pub open spec fn attributes_of_spec(text: Seq<char>, start: int) -> Seq<Seq<char>> {
    let ls = lines_of(text);
    if 1 <= start <= ls.len() {
        attributes_in(ls[start - 1])
    } else {
        Seq::empty()
    }
}

/// How many of `c1` and `c2` `v` starts with.
pub(crate) fn leading_of(v: &[char], c1: char, c2: char) -> (k: usize)
    ensures
        k == leading(v@, c1, c2, 0),
        k <= v@.len(),
{
    let mut k: usize = 0;
    while k < v.len() && (v[k] == c1 || v[k] == c2)
        invariant
            k <= v@.len(),
            leading(v@, c1, c2, 0) == leading(v@, c1, c2, k as int),
        decreases v@.len() - k,
    {
        k = k + 1;
    }
    k
}

/// The attributes on a fence's info string — everything after the language.
pub fn attributes_of(text: &str, fence: &Fence) -> (r: Vec<String>)
    ensures
        string_views(r@) == attributes_of_spec(text@, fence.start as int),
{
    let all = lines(text);
    if fence.start == 0 || fence.start > all.len() {
        return Vec::new();
    }
    let line = chars_of(all[fence.start - 1]);
    assert(views(all@)[fence.start - 1] == line@);
    let lead = crate::text::skip_spaces(&line, 0, line.len());
    assert(line@.subrange(0, line@.len() as int) =~= line@);
    let t = slice(&line, lead, line.len());
    assert(t@ =~= line@.skip(lead as int));
    let k = leading_of(&t, '`', '~');
    let rest = slice(&t, k, t.len());
    assert(rest@ =~= t@.skip(k as int));
    let info = to_lowercase(string_of(&rest).as_str());
    let ps = fields_of(&chars_of(info.as_str()));
    let ghost pv = ps@.map_values(|p: Vec<char>| p@);
    let mut out: Vec<String> = Vec::new();
    let mut i: usize = 1;
    if ps.len() == 0 {
        assert(pv.skip(1) =~= Seq::<Seq<char>>::empty());
        return out;
    }
    while i < ps.len()
        invariant
            1 <= i <= ps@.len(),
            pv == ps@.map_values(|p: Vec<char>| p@),
            string_views(out@) == nonempty(pv.subrange(1, i as int)),
        decreases ps@.len() - i,
    {
        let ghost was = string_views(out@);
        assert(pv.subrange(1, i + 1).drop_last() =~= pv.subrange(1, i as int));
        assert(pv.subrange(1, i + 1).last() == ps@[i as int]@);
        if ps[i].len() > 0 {
            out.push(string_of(&ps[i]));
            assert(string_views(out@) =~= was + seq![ps@[i as int]@]);
        } else {
            assert(string_views(out@) =~= was + Seq::<Seq<char>>::empty());
        }
        i = i + 1;
    }
    assert(pv.subrange(1, ps@.len() as int) =~= pv.skip(1));
    out
}

/// Where a fence starts, for a message: `path:start`.
pub open spec fn where_at(path: Seq<char>, start: int) -> Seq<char> {
    "  "@ + path + ":"@ + decimal(start as nat)
}

/// What is wrong with one fenced block of a page, if anything, and whether
/// it is a Rust block that is compiled.
pub open spec fn fence_fault(
    path: Seq<char>,
    b: FenceView,
    attributes: Seq<Seq<char>>,
    mounted: bool,
    known: Seq<Seq<char>>,
) -> (Seq<Seq<char>>, nat) {
    let at = where_at(path, b.start);
    if b.language == "rust"@ {
        if attributes.contains("ignore"@) {
            (seq![at + "  ```rust,ignore — the budget for these is zero"@], 0)
        } else if !mounted {
            (seq![at + "  ```rust that nothing compiles"@], 0)
        } else {
            (Seq::empty(), 1)
        }
    } else if b.language.len() == 0 {
        (seq![at + "  an unlabelled fence — rustdoc compiles these as Rust"@], 0)
    } else if b.language == "ignore"@ {
        (seq![at + "  ```ignore — the budget for these is zero"@], 0)
    } else if !known.contains(b.language) {
        (seq![at + "  ```"@ + b.language + " is not a language this repository writes"@], 0)
    } else {
        (Seq::empty(), 0)
    }
}

/// What is wrong with the first `k` fenced blocks of a page, and how many
/// Rust blocks among them are compiled.
pub open spec fn page_upto(
    path: Seq<char>,
    text: Seq<char>,
    bs: Seq<FenceView>,
    mounted: bool,
    known: Seq<Seq<char>>,
    k: nat,
) -> (Seq<Seq<char>>, nat)
    decreases k,
{
    if k == 0 || k > bs.len() {
        (Seq::empty(), 0)
    } else {
        let (f, c) = page_upto(path, text, bs, mounted, known, (k - 1) as nat);
        let b = bs[k - 1];
        let (f2, c2) = fence_fault(path, b, attributes_of_spec(text, b.start), mounted, known);
        (f + f2, c + c2)
    }
}

/// What is wrong with a page's fenced blocks, and how many Rust blocks are
/// compiled; `mounted` says whether a source mounts the page.
pub open spec fn page_faults_of(path: Seq<char>, text: Seq<char>, mounted: bool, known: Seq<Seq<char>>) -> (Seq<Seq<char>>, nat) {
    let bs = fenced_blocks(text);
    page_upto(path, text, bs, mounted, known, bs.len())
}

/// Whether `w` is one of `list`.
fn listed(list: &[&str], w: &[char]) -> (r: bool)
    ensures
        r == views(list@).contains(w@),
{
    let mut i: usize = 0;
    while i < list.len()
        invariant
            i <= list@.len(),
            forall|k: int| 0 <= k < i ==> views(list@)[k] != w@,
        decreases list@.len() - i,
    {
        if crate::text::same_chars(&chars_of(list[i]), w) {
            assert(views(list@)[i as int] == w@);
            return true;
        }
        i = i + 1;
    }
    false
}

/// Whether `w` is one of the strings in `list`.
fn has_string(list: &Vec<String>, w: &str) -> (r: bool)
    ensures
        r == string_views(list@).contains(w@),
{
    let x = chars_of(w);
    let mut i: usize = 0;
    while i < list.len()
        invariant
            i <= list@.len(),
            x@ == w@,
            forall|k: int| 0 <= k < i ==> string_views(list@)[k] != w@,
        decreases list@.len() - i,
    {
        if crate::text::same_chars(&chars_of(list[i].as_str()), &x) {
            assert(string_views(list@)[i as int] == w@);
            return true;
        }
        i = i + 1;
    }
    false
}

/// A message about the fence at `start` of `path`.
fn message(path: &str, start: usize, tail: &[char]) -> (r: String)
    ensures
        r@ == where_at(path@, start as int) + tail@,
{
    let mut m = chars_of("  ");
    let p = chars_of(path);
    extend(&mut m, &p);
    m.push(':');
    proof {
        reveal_strlit(":");
    }
    extend(&mut m, &decimal_of(start));
    extend(&mut m, tail);
    assert(m@ =~= where_at(path@, start as int) + tail@);
    string_of(&m)
}

/// What is wrong with a page's fenced blocks, and how many Rust blocks are
/// compiled. `mounted` says whether some source mounts the page, `known` the
/// languages this repository writes.
pub fn page_faults(path: &str, text: &str, mounted: bool, known: &[&str]) -> (r: (Vec<String>, usize))
    ensures
        (string_views(r.0@), r.1 as nat) == page_faults_of(path@, text@, mounted, views(known@)),
{
    let blocks = fences(text);
    let ghost bv = fence_views(blocks@);
    let mut out: Vec<String> = Vec::new();
    let mut compiled: usize = 0;
    let mut i: usize = 0;
    while i < blocks.len()
        invariant
            i <= blocks@.len(),
            bv == fence_views(blocks@),
            bv == fenced_blocks(text@),
            compiled <= i,
            (string_views(out@), compiled as nat) == page_upto(path@, text@, bv, mounted, views(known@), i as nat),
        decreases blocks@.len() - i,
    {
        let block = &blocks[i];
        assert(bv[i as int] == block@);
        let ghost was = string_views(out@);
        let attributes = attributes_of(text, block);
        let language = chars_of(block.language.as_str());
        let ghost step = fence_fault(path@, block@, string_views(attributes@), mounted, views(known@));
        if crate::text::same_chars(&language, &chars_of("rust")) {
            if has_string(&attributes, "ignore") {
                out.push(message(path, block.start, &chars_of("  ```rust,ignore — the budget for these is zero")));
            } else if !mounted {
                out.push(message(path, block.start, &chars_of("  ```rust that nothing compiles")));
            } else {
                compiled = compiled + 1;
            }
        } else if language.len() == 0 {
            out.push(message(path, block.start, &chars_of("  an unlabelled fence — rustdoc compiles these as Rust")));
        } else if crate::text::same_chars(&language, &chars_of("ignore")) {
            out.push(message(path, block.start, &chars_of("  ```ignore — the budget for these is zero")));
        } else if !listed(known, &language) {
            let mut tail = chars_of("  ```");
            extend(&mut tail, &language);
            extend(&mut tail, &chars_of(" is not a language this repository writes"));
            let m = message(path, block.start, &tail);
            assert(m@ =~= where_at(path@, block.start as int) + "  ```"@ + language@
                + " is not a language this repository writes"@);
            out.push(m);
        }
        assert(string_views(out@) =~= was + step.0);
        i = i + 1;
    }
    (out, compiled)
}

/// What a doc comment line of a source says about a fence's info string:
/// the line, trimmed, after its `///` or `//!` and whitespace, when it opens a
/// fence — the info string lowercased, backticks gone.
pub open spec fn doc_fence_info(line: Seq<char>) -> Option<Seq<char>> {
    let t = trim(line);
    if matches_at(t, 0, "///"@) || matches_at(t, 0, "//!"@) {
        let rest = trim(t.skip(3));
        if matches_at(rest, 0, "```"@) {
            Some(lowercased(rest.skip(leading(rest, '`', '`', 0))))
        } else {
            None
        }
    } else {
        None
    }
}

/// The `ignore`s in the doc comments of the first `k` lines of a source.
pub open spec fn doc_ignores_upto(path: Seq<char>, ls: Seq<Seq<char>>, k: nat) -> Seq<Seq<char>>
    decreases k,
{
    if k == 0 || k > ls.len() {
        Seq::empty()
    } else {
        doc_ignores_upto(path, ls, (k - 1) as nat) + match doc_fence_info(ls[k - 1]) {
            Some(info) => if fields(info).contains("ignore"@) {
                seq![
                    where_at(path, k as int) + "  ```"@ + info
                        + " in a doc comment — the budget for these is zero"@,
                ]
            } else {
                Seq::empty()
            },
            None => Seq::empty(),
        }
    }
}

/// A doc comment can carry an `ignore` too, and rustdoc treats it the same
/// way: a complaint for each fence in a source's doc comments that does.
pub open spec fn doc_ignores_of(path: Seq<char>, text: Seq<char>) -> Seq<Seq<char>> {
    doc_ignores_upto(path, lines_of(text), lines_of(text).len())
}

/// Whether `ps` holds `ignore`.
fn holds_ignore(ps: &Vec<Vec<char>>) -> (r: bool)
    ensures
        r == ps@.map_values(|p: Vec<char>| p@).contains("ignore"@),
{
    let ghost pv = ps@.map_values(|p: Vec<char>| p@);
    let word = chars_of("ignore");
    let mut i: usize = 0;
    while i < ps.len()
        invariant
            i <= ps@.len(),
            pv == ps@.map_values(|p: Vec<char>| p@),
            word@ == "ignore"@,
            forall|k: int| 0 <= k < i ==> pv[k] != "ignore"@,
        decreases ps@.len() - i,
    {
        if crate::text::same_chars(&ps[i], &word) {
            assert(pv[i as int] == "ignore"@);
            return true;
        }
        i = i + 1;
    }
    false
}

/// A complaint for each fence in a source's doc comments that carries an
/// `ignore`.
pub fn doc_ignores(path: &str, text: &str) -> (r: Vec<String>)
    ensures
        string_views(r@) == doc_ignores_of(path@, text@),
{
    proof {
        reveal_strlit("///");
        reveal_strlit("//!");
        reveal_strlit("```");
    }
    let all = lines(text);
    let ghost ls = views(all@);
    let mut out: Vec<String> = Vec::new();
    let mut i: usize = 0;
    while i < all.len()
        invariant
            i <= all@.len(),
            ls == views(all@),
            ls == lines_of(text@),
            "///"@.len() == 3,
            "//!"@.len() == 3,
            string_views(out@) == doc_ignores_upto(path@, ls, i as nat),
        decreases all@.len() - i,
    {
        let ghost was = string_views(out@);
        let v = chars_of(all[i]);
        assert(ls[i as int] == v@);
        let t = trimmed(&v);
        if crate::text::starts_with_str(&t, "///") || crate::text::starts_with_str(&t, "//!") {
            let after = slice(&t, 3, t.len());
            assert(after@ =~= t@.skip(3));
            let rest = trimmed(&after);
            if crate::text::starts_with_str(&rest, "```") {
                let k = leading_of(&rest, '`', '`');
                let tail = slice(&rest, k, rest.len());
                assert(tail@ =~= rest@.skip(k as int));
                let info = to_lowercase(string_of(&tail).as_str());
                let info_chars = chars_of(info.as_str());
                let ps = fields_of(&info_chars);
                if holds_ignore(&ps) {
                    let mut m = chars_of("  ```");
                    extend(&mut m, &info_chars);
                    extend(&mut m, &chars_of(" in a doc comment — the budget for these is zero"));
                    let full = message(path, i + 1, &m);
                    assert(full@ =~= where_at(path@, i + 1) + "  ```"@ + info@
                        + " in a doc comment — the budget for these is zero"@);
                    out.push(full);
                    assert(string_views(out@) =~= was.push(full@));
                }
            }
        }
        i = i + 1;
    }
    out
}

/// The path a line of a source mounts as doctests, if it does: a `#[doc`
/// attribute holding `include_str!("…")`.
pub open spec fn mount_of(line: Seq<char>) -> Option<Seq<char>> {
    let t = trim(line);
    if !matches_at(t, 0, "#[doc"@) || !occurs(t, "include_str!"@) {
        None
    } else {
        match crate::text::first_match(t, "include_str!(\""@, 0) {
            None => None,
            Some(open) => {
                let after = t.skip(open + 14);
                let close = crate::text::find_char(after, '"', 0);
                if close >= after.len() {
                    None
                } else {
                    Some(after.take(close))
                }
            },
        }
    }
}

/// The path a line of a source mounts as doctests, if it does.
pub fn mounted_by(line: &str) -> (r: Option<String>)
    ensures
        match r {
            Some(p) => mount_of(line@) == Some(p@),
            None => mount_of(line@) is None,
        },
{
    proof {
        reveal_strlit("include_str!(\"");
    }
    let v = chars_of(line);
    let t = trimmed(&v);
    if !crate::text::starts_with_str(&t, "#[doc") || !crate::text::contains_str(&t, "include_str!") {
        return None;
    }
    let pat = chars_of("include_str!(\"");
    proof {
        crate::text::lemma_first_match(t@, pat@, 0);
    }
    let n = t.len();
    match crate::text::find(&t, &pat, 0) {
        None => None,
        Some(open) => {
            assert(open + 14 <= n);
            let after = slice(&t, open + 14, n);
            assert(after@ =~= t@.skip(open + 14));
            let close = crate::text::char_index(&after, '"', 0);
            if close >= after.len() {
                None
            } else {
                let p = slice(&after, 0, close);
                assert(p@ =~= after@.take(close as int));
                Some(string_of(&p))
            }
        },
    }
}

/// A `/`-separated path with `.` components dropped and each `..` taking
/// the component before it away, read from `parts[..k]`.
pub open spec fn normal_upto(parts: Seq<Seq<char>>, k: nat) -> Seq<Seq<char>>
    decreases k,
{
    if k == 0 || k > parts.len() {
        Seq::empty()
    } else {
        let before = normal_upto(parts, (k - 1) as nat);
        let part = parts[k - 1];
        if part == ".."@ {
            if before.len() > 0 {
                before.drop_last()
            } else {
                before
            }
        } else if part == "."@ || part.len() == 0 {
            before
        } else {
            before.push(part)
        }
    }
}

/// `a/b/../c` as `a/c`, so two spellings of one file compare equal.
pub open spec fn normalised(path: Seq<char>) -> Seq<char> {
    let parts = split(path, "/"@);
    crate::text::joined(normal_upto(parts, parts.len()), "/"@)
}

/// `a/b/../c` as `a/c`, so two spellings of one file compare equal.
pub fn normalise(path: &str) -> (r: String)
    ensures
        r@ == normalised(path@),
{
    proof {
        reveal_strlit("/");
        reveal_strlit("..");
        reveal_strlit(".");
    }
    let v = chars_of(path);
    let slash = vec!['/'];
    assert(slash@ =~= "/"@);
    let parts = crate::text::pieces(&v, &slash);
    let ghost pv = parts@.map_values(|p: Vec<char>| p@);
    let up = chars_of("..");
    let here = chars_of(".");
    let mut kept: Vec<Vec<char>> = Vec::new();
    let mut i: usize = 0;
    while i < parts.len()
        invariant
            i <= parts@.len(),
            pv == parts@.map_values(|p: Vec<char>| p@),
            up@ == ".."@,
            here@ == "."@,
            kept@.map_values(|p: Vec<char>| p@) == normal_upto(pv, i as nat),
        decreases parts@.len() - i,
    {
        let ghost was = kept@.map_values(|p: Vec<char>| p@);
        let part = &parts[i];
        assert(pv[i as int] == part@);
        if crate::text::same_chars(part, &up) {
            if kept.len() > 0 {
                kept.pop();
                assert(kept@.map_values(|p: Vec<char>| p@) =~= was.drop_last());
            }
        } else if crate::text::same_chars(part, &here) || part.len() == 0 {
        } else {
            let copy = slice(part, 0, part.len());
            assert(copy@ =~= part@);
            kept.push(copy);
            assert(kept@.map_values(|p: Vec<char>| p@) =~= was.push(part@));
        }
        i = i + 1;
    }
    string_of(&crate::text::join(&kept, &slash))
}

} // verus!
