//! The documentation checks, as reports: what each says when handed the
//! files the caller read, or what it found on disk for each thing it asked.

use vstd::prelude::*;
use crate::commands::Walk;
use crate::pages::{section_views, sections_of, Section, SectionView};
use crate::reference::{compare_of, exempt_names, symbol_views, Reference};
use crate::rustdoc::{Kind, Symbol, SymbolView};
use crate::prose::{doc_ignores_of, mount_of, normalised, page_faults_of};
use crate::reports::{at_root, char_views, has_slash, holds, lines_joined, put};
use crate::comments::{
    blocks, blocks_of, block_view, cap_for, comment_line_count, comment_lines_of, comment_lines_upto,
    is_manifest, names_manifest, narration, narration_hits, narration_hits_of, narration_of, over_cap,
    Block, Caps, CommentKind,
};
use crate::text::{chars_of, decimal, decimal_of, extend, joined, lines_of, string_of, string_views, views};

verus! {

broadcast use vstd::string::group_string_axioms;

/// Each of `ws` behind `pre`.
pub open spec fn behind(pre: Seq<char>, ws: Seq<Seq<char>>) -> Seq<Seq<char>> {
    ws.map_values(|w: Seq<char>| pre + w)
}

/// Appends each of `ws` behind `pre` to `out`.
fn push_behind(out: &mut Vec<Vec<char>>, pre: &[char], ws: &Vec<String>)
    ensures
        char_views(final(out)@) == char_views(old(out)@) + behind(pre@, string_views(ws@)),
{
    let ghost base = char_views(out@);
    let mut i: usize = 0;
    while i < ws.len()
        invariant
            i <= ws@.len(),
            char_views(out@) == base + behind(pre@, string_views(ws@)).take(i as int),
        decreases ws@.len() - i,
    {
        let ghost was = char_views(out@);
        let mut line: Vec<char> = Vec::new();
        extend(&mut line, pre);
        extend(&mut line, &chars_of(ws[i].as_str()));
        out.push(line);
        assert(char_views(out@) =~= was.push(line@));
        assert(behind(pre@, string_views(ws@)).take(i + 1) =~= behind(pre@, string_views(ws@)).take(
            i as int,
        ).push(pre@ + ws@[i as int]@));
        i = i + 1;
    }
    assert(behind(pre@, string_views(ws@)).take(ws@.len() as int) =~= behind(pre@, string_views(ws@)));
}

// ---------------------------------------------------------------- READMEs

/// Whether `list` names `w`.
pub open spec fn names(list: Seq<&str>, w: Seq<char>) -> bool {
    views(list).contains(w)
}

/// Whether `list` names `w`.
fn named(list: &[&str], w: &[char]) -> (r: bool)
    ensures
        r == names(list@, w@),
{
    let mut i: usize = 0;
    while i < list.len()
        invariant
            i <= list@.len(),
            forall|k: int| 0 <= k < i ==> views(list@)[k] != w@,
        decreases list@.len() - i,
    {
        if crate::text::same_chars(&chars_of(list[i]), w) {
            assert(views(list@)[i as int] == w@);
            return true;
        }
        i = i + 1;
    }
    false
}

/// The heading lists a README is held to.
pub struct Order<'a> {
    /// The front page's sections, in order.
    pub order: &'a [&'a str],
    /// Those of them it may leave out.
    pub optional: &'a [&'a str],
    /// A nested README's sections, in order.
    pub nested: &'a [&'a str],
    /// Those of them it may leave out.
    pub nested_optional: &'a [&'a str],
    /// READMEs that are not front pages at all.
    pub not_a_front_page: &'a [&'a str],
}

/// Reading the first `k` READMEs: how many were checked, the problems, and
/// the exemptions used.
pub open spec fn readme_upto(files: Seq<(&str, &str)>, o: Order, k: int) -> (int, Seq<Seq<char>>, Seq<Seq<char>>)
    decreases k,
{
    if k <= 0 || k > files.len() {
        (0, Seq::empty(), Seq::empty())
    } else {
        let (checked, problems, used) = readme_upto(files, o, k - 1);
        let (path, text) = files[k - 1];
        if names(o.not_a_front_page@, path@) {
            (checked, problems, used.push(path@))
        } else {
            let (want, may) = if at_root(path@) {
                (o.order@, o.optional@)
            } else {
                (o.nested@, o.nested_optional@)
            };
            (
                checked + 1,
                problems + behind(
                    "  "@ + path@ + ": "@,
                    crate::readme::faults_of(crate::readme::headings_of(text@), views(want), views(may)),
                ),
                used,
            )
        }
    }
}

/// The exemptions among `names[..k]` nothing used, each as `tail` says.
pub open spec fn unused_upto(names: Seq<&str>, used: Seq<Seq<char>>, tail: Seq<char>, k: int) -> Seq<Seq<char>>
    decreases k,
{
    if k <= 0 || k > names.len() {
        Seq::empty()
    } else {
        unused_upto(names, used, tail, k - 1) + if used.contains(names[k - 1]@) {
            Seq::empty()
        } else {
            seq!["  the exemption names "@ + names[k - 1]@ + tail]
        }
    }
}

/// Every README has the sections its place asks for, in order; with no order
/// given the check is not adopted, and a tree with no README is a filter
/// matching nothing.
pub open spec fn readme_report_of(o: Order, files: Seq<(&str, &str)>) -> Result<Seq<char>, Seq<char>> {
    if o.order@.len() == 0 {
        Ok("not adopted"@)
    } else {
        let (checked, problems, used) = readme_upto(files, o, files.len() as int);
        let all = problems + unused_upto(
            o.not_a_front_page@,
            used,
            ", which is not a README here"@,
            o.not_a_front_page@.len() as int,
        );
        if checked == 0 {
            Err("no README found — the filter is matching nothing"@)
        } else if all.len() == 0 {
            Ok(decimal(checked as nat) + " README(s) in order"@)
        } else {
            Err(joined(all, "\n"@) + "\n\nA README is for arrival. What is not on the list moves to docs/."@)
        }
    }
}

/// Appends a complaint for each of `names` that `used` does not hold.
fn push_unused(out: &mut Vec<Vec<char>>, names: &[&str], used: &Vec<Vec<char>>, tail: &str)
    ensures
        char_views(final(out)@) == char_views(old(out)@) + unused_upto(
            names@,
            char_views(used@),
            tail@,
            names@.len() as int,
        ),
{
    let ghost base = char_views(out@);
    let mut j: usize = 0;
    while j < names.len()
        invariant
            j <= names@.len(),
            char_views(out@) == base + unused_upto(names@, char_views(used@), tail@, j as int),
        decreases names@.len() - j,
    {
        let name = chars_of(names[j]);
        let ghost was = char_views(out@);
        if !holds(used, &name) {
            let mut line = chars_of("  the exemption names ");
            extend(&mut line, &name);
            put(&mut line, tail);
            out.push(line);
            assert(char_views(out@) =~= was.push(line@));
        } else {
            assert(char_views(out@) =~= was + Seq::<Seq<char>>::empty());
        }
        j = j + 1;
    }
}

/// What the README check says of `files`, each a tracked README and its text.
pub fn readme_report(o: Order, files: &[(&str, &str)]) -> (r: Result<String, String>)
    requires
        files@.len() < usize::MAX,
    ensures
        match r {
            Ok(m) => readme_report_of(o, files@) == Ok::<Seq<char>, Seq<char>>(m@),
            Err(m) => readme_report_of(o, files@) == Err::<Seq<char>, Seq<char>>(m@),
        },
{
    if o.order.len() == 0 {
        return Ok(string_of(&chars_of("not adopted")));
    }
    let mut checked: usize = 0;
    let mut problems: Vec<Vec<char>> = Vec::new();
    let mut used: Vec<Vec<char>> = Vec::new();
    let mut i: usize = 0;
    while i < files.len()
        invariant
            i <= files@.len(),
            files@.len() < usize::MAX,
            checked <= i,
            (checked as int, char_views(problems@), char_views(used@)) == readme_upto(files@, o, i as int),
        decreases files@.len() - i,
    {
        let (path, text) = files[i];
        let p = chars_of(path);
        if named(o.not_a_front_page, &p) {
            let ghost was = char_views(used@);
            used.push(p);
            assert(char_views(used@) =~= was.push(path@));
        } else {
            let (want, may) = if !has_slash(path) {
                (o.order, o.optional)
            } else {
                (o.nested, o.nested_optional)
            };
            let found = crate::readme::faults(&crate::readme::headings(text), want, may);
            let mut pre = chars_of("  ");
            extend(&mut pre, &p);
            put(&mut pre, ": ");
            push_behind(&mut problems, &pre, &found);
            checked = checked + 1;
        }
        i = i + 1;
    }
    push_unused(&mut problems, o.not_a_front_page, &used, ", which is not a README here");
    if checked == 0 {
        return Err(string_of(&chars_of("no README found — the filter is matching nothing")));
    }
    if problems.len() == 0 {
        let mut m = decimal_of(checked);
        put(&mut m, " README(s) in order");
        Ok(string_of(&m))
    } else {
        let mut m = lines_joined(&problems);
        put(&mut m, "\n\nA README is for arrival. What is not on the list moves to docs/.");
        Err(string_of(&m))
    }
}

// ---------------------------------------------------------------- links

/// Whether a link is broken: nothing is on disk at it, and it is not a bare
/// word that could only be an item, which is rustdoc's to judge.
pub open spec fn broken(target: Seq<char>, exists: bool) -> bool {
    !exists && !(!target.contains('/') && crate::docs::names_item(target))
}

/// The broken links among `links[..k]`, each with its file and line.
pub open spec fn broken_upto(links: Seq<(&str, usize, &str, bool)>, k: int) -> Seq<Seq<char>>
    decreases k,
{
    if k <= 0 || k > links.len() {
        Seq::empty()
    } else {
        let (path, line, target, exists) = links[k - 1];
        broken_upto(links, k - 1) + if broken(target@, exists) {
            seq!["  "@ + path@ + ":"@ + decimal(line as nat) + "  "@ + target@]
        } else {
            Seq::empty()
        }
    }
}

/// Every relative link resolves: `pages` files were read, and each link is
/// its file, its line, its target, and whether the target is on disk.
pub open spec fn links_report_of(pages: usize, links: Seq<(&str, usize, &str, bool)>) -> Result<
    Seq<char>,
    Seq<char>,
> {
    let bad = broken_upto(links, links.len() as int);
    if pages == 0 {
        Err("no documents or sources found — the filter is matching nothing"@)
    } else if bad.len() == 0 {
        Ok(decimal(links.len()) + " relative link(s) across "@ + decimal(pages as nat) + " file(s)"@)
    } else {
        Err(joined(bad, "\n"@))
    }
}

/// What the link check says of what was found for each link.
pub fn links_report(pages: usize, links: &[(&str, usize, &str, bool)]) -> (r: Result<String, String>)
    ensures
        match r {
            Ok(m) => links_report_of(pages, links@) == Ok::<Seq<char>, Seq<char>>(m@),
            Err(m) => links_report_of(pages, links@) == Err::<Seq<char>, Seq<char>>(m@),
        },
{
    let mut bad: Vec<Vec<char>> = Vec::new();
    let mut i: usize = 0;
    while i < links.len()
        invariant
            i <= links@.len(),
            char_views(bad@) == broken_upto(links@, i as int),
        decreases links@.len() - i,
    {
        let (path, line, target, exists) = links[i];
        let ghost was = char_views(bad@);
        if !exists && !(!has_slash(target) && crate::docs::names_a_rust_item(target)) {
            let mut m = chars_of("  ");
            put(&mut m, path);
            put(&mut m, ":");
            extend(&mut m, &decimal_of(line));
            put(&mut m, "  ");
            put(&mut m, target);
            bad.push(m);
            assert(char_views(bad@) =~= was.push(m@));
        } else {
            assert(char_views(bad@) =~= was + Seq::<Seq<char>>::empty());
        }
        i = i + 1;
    }
    if pages == 0 {
        return Err(string_of(&chars_of("no documents or sources found — the filter is matching nothing")));
    }
    if bad.len() == 0 {
        let mut m = decimal_of(links.len());
        put(&mut m, " relative link(s) across ");
        extend(&mut m, &decimal_of(pages));
        put(&mut m, " file(s)");
        Ok(string_of(&m))
    } else {
        Err(string_of(&lines_joined(&bad)))
    }
}

// ---------------------------------------------------------------- scope

/// Whether a source is one the comment checks read: not a test, and under
/// `scope` when one is given.
pub open spec fn in_scope_of(path: Seq<char>, scope: Option<Seq<char>>) -> bool {
    &&& !crate::text::matches_at(path, 0, "tests/"@)
    &&& !crate::text::occurs(path, "/tests/"@)
    &&& match scope {
        Some(p) => crate::text::matches_at(path, 0, p),
        None => true,
    }
}

/// Whether a source is one the comment checks read.
pub fn in_scope(path: &str, scope: Option<&str>) -> (r: bool)
    ensures
        r == in_scope_of(
            path@,
            match scope {
                Some(p) => Some(p@),
                None => None,
            },
        ),
{
    let v = chars_of(path);
    !crate::text::starts_with_str(&v, "tests/") && !crate::text::contains_str(&v, "/tests/") && match scope {
        Some(p) => crate::text::starts_with_str(&v, p),
        None => true,
    }
}

// ---------------------------------------------------------------- comment caps

/// Every comment block of `files`, each with its file.
pub open spec fn all_blocks(files: Seq<(&str, &str)>) -> Seq<(Seq<char>, (int, int, CommentKind))>
    decreases files.len(),
{
    if files.len() == 0 {
        Seq::empty()
    } else {
        let (path, text) = files.last();
        all_blocks(files.drop_last()) + blocks_of(path@, text@).map_values(
            |b: (int, int, CommentKind)| (path@, b),
        )
    }
}

/// Counting blocks: how many of each kind, and a line for each over its cap.
pub open spec fn tally(caps: Caps, bs: Seq<(Seq<char>, (int, int, CommentKind))>) -> (int, int, int, Seq<Seq<char>>)
    decreases bs.len(),
{
    if bs.len() == 0 {
        (0, 0, 0, Seq::empty())
    } else {
        let (d, h, r, over) = tally(caps, bs.drop_last());
        let (path, (line, length, kind)) = bs.last();
        let cap = cap_for(caps, kind);
        let over2 = if length > cap {
            over.push(
                "  "@ + path + ":"@ + decimal(line as nat) + "  "@ + decimal(length as nat) + " lines, cap "@
                    + decimal(cap as nat),
            )
        } else {
            over
        };
        match kind {
            CommentKind::Doc => (d + 1, h, r, over2),
            CommentKind::Header => (d, h + 1, r, over2),
            CommentKind::Run => (d, h, r + 1, over2),
        }
    }
}

/// The counts add up to the blocks counted.
proof fn lemma_tally_counts(caps: Caps, bs: Seq<(Seq<char>, (int, int, CommentKind))>)
    ensures
        tally(caps, bs).0 + tally(caps, bs).1 + tally(caps, bs).2 == bs.len(),
        tally(caps, bs).0 >= 0 && tally(caps, bs).1 >= 0 && tally(caps, bs).2 >= 0,
    decreases bs.len(),
{
    if bs.len() > 0 {
        lemma_tally_counts(caps, bs.drop_last());
    }
}

/// No comment block is longer than its cap: with no caps the check is not
/// adopted, and a tree with no comment is a filter matching nothing.
pub open spec fn comments_report_of(caps: Option<Caps>, files: Seq<(&str, &str)>) -> Result<Seq<char>, Seq<char>> {
    match caps {
        None => Ok("not adopted"@),
        Some(caps) => {
            let (d, h, r, over) = tally(caps, all_blocks(files));
            if d + h + r == 0 {
                Err("no comments measured — the filter is matching nothing"@)
            } else if over.len() == 0 {
                Ok(
                    decimal(d as nat) + " doc comments, "@ + decimal(h as nat) + " headers, "@ + decimal(r as nat)
                        + " runs measured"@,
                )
            } else {
                Err(
                    joined(over, "\n"@)
                        + "\n\nA comment says only what the code cannot. Cut what restates it,\ncut the history, and move an argument to docs/."@,
                )
            }
        },
    }
}

/// What the comment-cap check says of `files`, each a source in scope and its
/// text.
pub fn comments_report(caps: Option<Caps>, files: &[(&str, &str)]) -> (r: Result<String, String>)
    requires
        all_blocks(files@).len() < usize::MAX,
    ensures
        match r {
            Ok(m) => comments_report_of(caps, files@) == Ok::<Seq<char>, Seq<char>>(m@),
            Err(m) => comments_report_of(caps, files@) == Err::<Seq<char>, Seq<char>>(m@),
        },
{
    let caps = match caps {
        None => return Ok(string_of(&chars_of("not adopted"))),
        Some(c) => c,
    };
    let mut docs: usize = 0;
    let mut headers: usize = 0;
    let mut runs: usize = 0;
    let mut over: Vec<Vec<char>> = Vec::new();
    let ghost mut seen: Seq<(Seq<char>, (int, int, CommentKind))> = Seq::empty();
    let mut i: usize = 0;
    while i < files.len()
        invariant
            i <= files@.len(),
            all_blocks(files@).len() < usize::MAX,
            seen == all_blocks(files@.take(i as int)),
            (docs as int, headers as int, runs as int, char_views(over@)) == tally(caps, seen),
            seen.len() <= all_blocks(files@).len(),
        decreases files@.len() - i,
    {
        let (path, text) = files[i];
        let bs = blocks(path, text);
        let ghost bv = bs@.map_values(|b: Block| block_view(b));
        let ghost mapped = bv.map_values(|b: (int, int, CommentKind)| (path@, b));
        proof {
            assert(files@.take(i + 1).drop_last() =~= files@.take(i as int));
            assert(files@.take(i + 1).last() == files@[i as int]);
            lemma_all_blocks_prefix(files@, i as int + 1);
        }
        let ghost start = seen;
        let mut j: usize = 0;
        while j < bs.len()
            invariant
                j <= bs@.len(),
                bv == bs@.map_values(|b: Block| block_view(b)),
                bv == blocks_of(path@, text@),
                mapped == bv.map_values(|b: (int, int, CommentKind)| (path@, b)),
                seen == start + mapped.take(j as int),
                start + mapped == all_blocks(files@.take(i + 1)),
                all_blocks(files@.take(i + 1)).len() <= all_blocks(files@).len(),
                all_blocks(files@).len() < usize::MAX,
                (docs as int, headers as int, runs as int, char_views(over@)) == tally(caps, seen),
            decreases bs@.len() - j,
        {
            let b = bs[j];
            let ghost before = seen;
            proof {
                seen = seen.push((path@, block_view(b)));
                assert(mapped.take(j + 1) =~= mapped.take(j as int).push((path@, block_view(b))));
                assert(seen.drop_last() =~= before);
                lemma_tally_counts(caps, before);
                assert(before.len() < mapped.len() + start.len());
            }
            let ghost was = char_views(over@);
            if over_cap(caps, b) {
                let cap = match b.kind {
                    CommentKind::Doc => caps.doc,
                    CommentKind::Header => caps.header,
                    CommentKind::Run => caps.run,
                };
                let mut m = chars_of("  ");
                put(&mut m, path);
                put(&mut m, ":");
                extend(&mut m, &decimal_of(b.line));
                put(&mut m, "  ");
                extend(&mut m, &decimal_of(b.length));
                put(&mut m, " lines, cap ");
                extend(&mut m, &decimal_of(cap));
                over.push(m);
                assert(char_views(over@) =~= was.push(m@));
            }
            match b.kind {
                CommentKind::Doc => docs = docs + 1,
                CommentKind::Header => headers = headers + 1,
                CommentKind::Run => runs = runs + 1,
            }
            j = j + 1;
        }
        proof {
            assert(mapped.take(bs@.len() as int) =~= mapped);
        }
        i = i + 1;
    }
    proof {
        assert(files@.take(files@.len() as int) =~= files@);
        lemma_tally_counts(caps, seen);
    }
    if docs == 0 && headers == 0 && runs == 0 {
        return Err(string_of(&chars_of("no comments measured — the filter is matching nothing")));
    }
    if over.len() == 0 {
        let mut m = decimal_of(docs);
        put(&mut m, " doc comments, ");
        extend(&mut m, &decimal_of(headers));
        put(&mut m, " headers, ");
        extend(&mut m, &decimal_of(runs));
        put(&mut m, " runs measured");
        Ok(string_of(&m))
    } else {
        let mut m = lines_joined(&over);
        put(&mut m, "\n\nA comment says only what the code cannot. Cut what restates it,\ncut the history, and move an argument to docs/.");
        Err(string_of(&m))
    }
}

/// The blocks of a prefix are no more than the blocks of the whole.
proof fn lemma_all_blocks_prefix(files: Seq<(&str, &str)>, k: int)
    requires
        0 <= k <= files.len(),
    ensures
        all_blocks(files.take(k)).len() <= all_blocks(files).len(),
    decreases files.len() - k,
{
    if k < files.len() {
        lemma_all_blocks_prefix(files, k + 1);
        assert(files.take(k + 1).drop_last() =~= files.take(k));
    } else {
        assert(files.take(k) =~= files);
    }
}

// ---------------------------------------------------------------- narration

/// A phrase about the past, as a complaint: where its run starts, and the
/// phrase.
pub open spec fn hit_line(path: Seq<char>, h: (int, int)) -> Seq<char> {
    "  "@ + path + ":"@ + decimal(h.0 as nat) + "  `"@ + crate::text::trim(narration_of()[h.1]) + "`"@
}

/// Every phrase about the past in `files`, as a complaint, and how many
/// comment lines were read.
pub open spec fn narration_upto(files: Seq<(&str, &str)>) -> (int, Seq<Seq<char>>)
    decreases files.len(),
{
    if files.len() == 0 {
        (0, Seq::empty())
    } else {
        let (lines, hits) = narration_upto(files.drop_last());
        let (path, text) = files.last();
        let manifest = is_manifest(path@);
        (
            lines + comment_lines_of(text@, manifest),
            hits + narration_hits_of(text@, manifest).map_values(|h: (int, int)| hit_line(path@, h)),
        )
    }
}

/// No comment says something that is only ever about the past: unchecked,
/// the check is not adopted; a tree with no comment line is a filter
/// matching nothing.
pub open spec fn narration_report_of(checked: bool, files: Seq<(&str, &str)>) -> Result<Seq<char>, Seq<char>> {
    let (lines, hits) = narration_upto(files);
    if !checked {
        Ok("not adopted"@)
    } else if lines == 0 {
        Err("no comment lines read — the filter is matching nothing"@)
    } else if hits.len() == 0 {
        Ok(decimal(lines as nat) + " comment lines, none about the past"@)
    } else {
        Err(joined(hits, "\n"@) + "\n\nThe merged state has no past. The commit message has."@)
    }
}

/// The lines of a prefix are no more than the lines of the whole.
proof fn lemma_narration_prefix(files: Seq<(&str, &str)>, k: int)
    requires
        0 <= k <= files.len(),
    ensures
        0 <= narration_upto(files.take(k)).0 <= narration_upto(files).0,
    decreases files.len() - k,
{
    if k < files.len() {
        lemma_narration_prefix(files, k + 1);
        assert(files.take(k + 1).drop_last() =~= files.take(k));
        lemma_comment_lines_nonneg(files[k].1@, is_manifest(files[k].0@));
    } else {
        assert(files.take(k) =~= files);
    }
    lemma_narration_nonneg(files.take(k));
}

proof fn lemma_narration_nonneg(files: Seq<(&str, &str)>)
    ensures
        narration_upto(files).0 >= 0,
    decreases files.len(),
{
    if files.len() > 0 {
        lemma_narration_nonneg(files.drop_last());
        lemma_comment_lines_nonneg(files.last().1@, is_manifest(files.last().0@));
    }
}

proof fn lemma_comment_lines_nonneg(text: Seq<char>, manifest: bool)
    ensures
        comment_lines_of(text, manifest) >= 0,
{
    lemma_lines_upto_nonneg(lines_of(text), manifest, lines_of(text).len() as int);
}

proof fn lemma_lines_upto_nonneg(ls: Seq<Seq<char>>, manifest: bool, k: int)
    ensures
        comment_lines_upto(ls, manifest, k) >= 0,
    decreases k,
{
    if k > 0 && k <= ls.len() {
        lemma_lines_upto_nonneg(ls, manifest, k - 1);
    }
}

/// What the narration check says of `files`, each a source in scope and its
/// text.
pub fn narration_report(checked: bool, files: &[(&str, &str)]) -> (r: Result<String, String>)
    requires
        narration_upto(files@).0 < usize::MAX,
    ensures
        match r {
            Ok(m) => narration_report_of(checked, files@) == Ok::<Seq<char>, Seq<char>>(m@),
            Err(m) => narration_report_of(checked, files@) == Err::<Seq<char>, Seq<char>>(m@),
        },
{
    if !checked {
        return Ok(string_of(&chars_of("not adopted")));
    }
    let phrases = narration();
    assert(views(phrases@).len() == phrases@.len());
    let mut lines: usize = 0;
    let mut hits: Vec<Vec<char>> = Vec::new();
    let mut i: usize = 0;
    while i < files.len()
        invariant
            i <= files@.len(),
            views(phrases@) == narration_of(),
            phrases@.len() == 5,
            narration_upto(files@).0 < usize::MAX,
            (lines as int, char_views(hits@)) == narration_upto(files@.take(i as int)),
        decreases files@.len() - i,
    {
        let (path, text) = files[i];
        proof {
            assert(files@.take(i + 1).drop_last() =~= files@.take(i as int));
            assert(files@.take(i + 1).last() == files@[i as int]);
            lemma_narration_prefix(files@, i + 1);
        }
        let manifest = names_manifest(path);
        let count = comment_line_count(text, manifest);
        let found = narration_hits(text, manifest);
        let ghost fv = found@.map_values(|h: (usize, usize)| (h.0 as int, h.1 as int));
        proof {
            crate::comments::lemma_hits_name_a_phrase(text@, manifest);
        }
        let ghost base = char_views(hits@);
        let mut j: usize = 0;
        while j < found.len()
            invariant
                j <= found@.len(),
                views(phrases@) == narration_of(),
                phrases@.len() == 5,
                fv == found@.map_values(|h: (usize, usize)| (h.0 as int, h.1 as int)),
                fv == narration_hits_of(text@, manifest),
                forall|k: int| 0 <= k < fv.len() ==> 0 <= #[trigger] fv[k].1 < 5,
                char_views(hits@) == base + fv.take(j as int).map_values(|h: (int, int)| hit_line(path@, h)),
            decreases found@.len() - j,
        {
            let (line, k) = found[j];
            assert(fv[j as int] == (line as int, k as int));
            assert(k < 5);
            assert(phrases@.len() == 5);
            assert(views(phrases@)[k as int] == phrases@[k as int]@);
            let ghost was = char_views(hits@);
            let mut m = chars_of("  ");
            put(&mut m, path);
            put(&mut m, ":");
            extend(&mut m, &decimal_of(line));
            put(&mut m, "  `");
            extend(&mut m, &crate::text::trimmed(&chars_of(phrases[k])));
            put(&mut m, "`");
            assert(narration_of()[k as int] == phrases@[k as int]@);
            assert(m@ =~= hit_line(path@, fv[j as int]));
            hits.push(m);
            assert(char_views(hits@) =~= was.push(m@));
            assert(fv.take(j + 1) =~= fv.take(j as int).push(fv[j as int]));
            assert(fv.take(j + 1).map_values(|h: (int, int)| hit_line(path@, h)) =~= fv.take(j as int).map_values(
                |h: (int, int)| hit_line(path@, h),
            ).push(hit_line(path@, fv[j as int])));
            j = j + 1;
        }
        assert(fv.take(found@.len() as int) =~= fv);
        lines = lines + count;
        i = i + 1;
    }
    assert(files@.take(files@.len() as int) =~= files@);
    if lines == 0 {
        return Err(string_of(&chars_of("no comment lines read — the filter is matching nothing")));
    }
    if hits.len() == 0 {
        let mut m = decimal_of(lines);
        put(&mut m, " comment lines, none about the past");
        Ok(string_of(&m))
    } else {
        let mut m = lines_joined(&hits);
        put(&mut m, "\n\nThe merged state has no past. The commit message has.");
        Err(string_of(&m))
    }
}

// ---------------------------------------------------------------- commands

/// One shell block's result: the document it is in, its faults with their
/// lines, and its walk's counts.
pub open spec fn resolve_upto(blocks: Seq<(&str, Vec<(usize, String)>, Walk)>) -> (int, int, int, int, Seq<Seq<char>>)
    decreases blocks.len(),
{
    if blocks.len() == 0 {
        (0, 0, 0, 0, Seq::empty())
    } else {
        let (checked, skipped, left, away, problems) = resolve_upto(blocks.drop_last());
        let (path, faults, w) = blocks.last();
        (
            checked + w.checked,
            skipped + w.skipped,
            left + w.left,
            away + if w.left > 0 {
                1int
            } else {
                0int
            },
            problems + faults@.map_values(|f: (usize, String)| fault_line(path@, f)),
        )
    }
}

/// A fault of a command, as a complaint: the document, the line, and why.
pub open spec fn fault_line(path: Seq<char>, f: (usize, String)) -> Seq<char> {
    "  "@ + path + ":"@ + decimal(f.0 as nat) + "  "@ + f.1@
}

/// Every documented command could run here: each shell block's faults, and
/// how many commands were checked, were another tool's, and were another
/// repository's, across how many blocks.
pub open spec fn resolve_report_of(blocks: Seq<(&str, Vec<(usize, String)>, Walk)>) -> Result<Seq<char>, Seq<char>> {
    let (checked, skipped, left, away, problems) = resolve_upto(blocks);
    if problems.len() == 0 {
        Ok(
            decimal(checked as nat) + " command(s) in "@ + decimal(blocks.len()) + " block(s); "@ + decimal(
                skipped as nat,
            ) + " another tool's, "@ + decimal(left as nat) + " in another repository across "@ + decimal(
                away as nat,
            ) + " block(s)"@,
        )
    } else {
        Err(
            joined(problems, "\n"@)
                + "\n\nA command belonging to another repository is a link to that\nrepository, not a command printed here that fails."@,
        )
    }
}

/// The counts of a prefix are no more than those of the whole.
proof fn lemma_resolve_prefix(blocks: Seq<(&str, Vec<(usize, String)>, Walk)>, k: int)
    requires
        0 <= k <= blocks.len(),
    ensures
        0 <= resolve_upto(blocks.take(k)).0 <= resolve_upto(blocks).0,
        0 <= resolve_upto(blocks.take(k)).1 <= resolve_upto(blocks).1,
        0 <= resolve_upto(blocks.take(k)).2 <= resolve_upto(blocks).2,
        0 <= resolve_upto(blocks.take(k)).3 <= k,
    decreases blocks.len() - k,
{
    if k < blocks.len() {
        lemma_resolve_prefix(blocks, k + 1);
        assert(blocks.take(k + 1).drop_last() =~= blocks.take(k));
    } else {
        assert(blocks.take(k) =~= blocks);
    }
    lemma_resolve_nonneg(blocks.take(k));
}

proof fn lemma_resolve_nonneg(blocks: Seq<(&str, Vec<(usize, String)>, Walk)>)
    ensures
        resolve_upto(blocks).0 >= 0,
        resolve_upto(blocks).1 >= 0,
        resolve_upto(blocks).2 >= 0,
        0 <= resolve_upto(blocks).3 <= blocks.len(),
    decreases blocks.len(),
{
    if blocks.len() > 0 {
        lemma_resolve_nonneg(blocks.drop_last());
    }
}

/// What the command check says of its shell blocks.
pub fn resolve_report(blocks: &[(&str, Vec<(usize, String)>, Walk)]) -> (r: Result<String, String>)
    requires
        resolve_upto(blocks@).0 < usize::MAX,
        resolve_upto(blocks@).1 < usize::MAX,
        resolve_upto(blocks@).2 < usize::MAX,
    ensures
        match r {
            Ok(m) => resolve_report_of(blocks@) == Ok::<Seq<char>, Seq<char>>(m@),
            Err(m) => resolve_report_of(blocks@) == Err::<Seq<char>, Seq<char>>(m@),
        },
{
    let mut checked: usize = 0;
    let mut skipped: usize = 0;
    let mut left: usize = 0;
    let mut away: usize = 0;
    let mut problems: Vec<Vec<char>> = Vec::new();
    let mut i: usize = 0;
    while i < blocks.len()
        invariant
            i <= blocks@.len(),
            resolve_upto(blocks@).0 < usize::MAX,
            resolve_upto(blocks@).1 < usize::MAX,
            resolve_upto(blocks@).2 < usize::MAX,
            (checked as int, skipped as int, left as int, away as int, char_views(problems@)) == resolve_upto(
                blocks@.take(i as int),
            ),
        decreases blocks@.len() - i,
    {
        proof {
            assert(blocks@.take(i + 1).drop_last() =~= blocks@.take(i as int));
            assert(blocks@.take(i + 1).last() == blocks@[i as int]);
            lemma_resolve_prefix(blocks@, i + 1);
        }
        let path = blocks[i].0;
        let faults = &blocks[i].1;
        let w = &blocks[i].2;
        let ghost base = char_views(problems@);
        let mut j: usize = 0;
        while j < faults.len()
            invariant
                j <= faults@.len(),
                char_views(problems@) == base + faults@.take(j as int).map_values(
                    |f: (usize, String)| fault_line(path@, f),
                ),
            decreases faults@.len() - j,
        {
            let ghost was = char_views(problems@);
            let mut m = chars_of("  ");
            put(&mut m, path);
            put(&mut m, ":");
            extend(&mut m, &decimal_of(faults[j].0));
            put(&mut m, "  ");
            put(&mut m, faults[j].1.as_str());
            assert(m@ =~= fault_line(path@, faults@[j as int]));
            problems.push(m);
            assert(char_views(problems@) =~= was.push(m@));
            assert(faults@.take(j + 1).map_values(|f: (usize, String)| fault_line(path@, f)) =~= faults@.take(
                j as int,
            ).map_values(|f: (usize, String)| fault_line(path@, f)).push(fault_line(path@, faults@[j as int])));
            j = j + 1;
        }
        assert(faults@.take(faults@.len() as int) =~= faults@);
        checked = checked + w.checked;
        skipped = skipped + w.skipped;
        left = left + w.left;
        if w.left > 0 {
            away = away + 1;
        }
        i = i + 1;
    }
    assert(blocks@.take(blocks@.len() as int) =~= blocks@);
    if problems.len() == 0 {
        let mut m = decimal_of(checked);
        put(&mut m, " command(s) in ");
        extend(&mut m, &decimal_of(blocks.len()));
        put(&mut m, " block(s); ");
        extend(&mut m, &decimal_of(skipped));
        put(&mut m, " another tool's, ");
        extend(&mut m, &decimal_of(left));
        put(&mut m, " in another repository across ");
        extend(&mut m, &decimal_of(away));
        put(&mut m, " block(s)");
        Ok(string_of(&m))
    } else {
        let mut m = lines_joined(&problems);
        put(
            &mut m,
            "\n\nA command belonging to another repository is a link to that\nrepository, not a command printed here that fails.",
        );
        Err(string_of(&m))
    }
}

// ---------------------------------------------------------------- compiled

/// The directory a path is in: everything before its last `/`, or nothing.
pub open spec fn dir_of(path: Seq<char>) -> Seq<char> {
    let cut = crate::text::last_index(path, '/');
    if cut < 0 {
        Seq::empty()
    } else {
        path.take(cut)
    }
}

/// The pages the first `k` lines of the source at `path` mount, each as the
/// normalised path it names from the source's directory.
pub open spec fn source_mounts(path: Seq<char>, ls: Seq<Seq<char>>, k: int) -> Seq<Seq<char>>
    decreases k,
{
    if k <= 0 || k > ls.len() {
        Seq::empty()
    } else {
        source_mounts(path, ls, k - 1) + match mount_of(ls[k - 1]) {
            Some(p) => seq![normalised(dir_of(path) + "/"@ + p)],
            None => Seq::empty(),
        }
    }
}

/// Every page the sources mount as doctests.
pub open spec fn mounts_of(sources: Seq<(&str, &str)>) -> Seq<Seq<char>>
    decreases sources.len(),
{
    if sources.len() == 0 {
        Seq::empty()
    } else {
        let (path, text) = sources.last();
        mounts_of(sources.drop_last()) + source_mounts(path@, lines_of(text@), lines_of(text@).len() as int)
    }
}

/// Reading the pages: how many Rust blocks are compiled, the problems, and
/// the exemptions used.
pub open spec fn compiled_upto(
    pages: Seq<(&str, &str)>,
    mounts: Seq<Seq<char>>,
    exempt: Seq<&str>,
    known: Seq<&str>,
) -> (int, Seq<Seq<char>>, Seq<Seq<char>>)
    decreases pages.len(),
{
    if pages.len() == 0 {
        (0, Seq::empty(), Seq::empty())
    } else {
        let (compiled, problems, used) = compiled_upto(pages.drop_last(), mounts, exempt, known);
        let (path, text) = pages.last();
        if names(exempt, path@) {
            (compiled, problems, used.push(path@))
        } else {
            let (faults, c) = page_faults_of(path@, text@, mounts.contains(normalised(path@)), views(known));
            (compiled + c, problems + faults, used)
        }
    }
}

/// The `ignore`s in the doc comments of every source.
pub open spec fn ignores_of(sources: Seq<(&str, &str)>) -> Seq<Seq<char>>
    decreases sources.len(),
{
    if sources.len() == 0 {
        Seq::empty()
    } else {
        ignores_of(sources.drop_last()) + doc_ignores_of(sources.last().0@, sources.last().1@)
    }
}

/// Every Rust block in the documentation is compiled, and none of it is
/// exempted from being: each page's fences against whether a source mounts
/// it, each source's doc comments, and the exemptions, which must each name a
/// page here.
pub open spec fn compiled_report_of(
    sources: Seq<(&str, &str)>,
    pages: Seq<(&str, &str)>,
    exempt: Seq<&str>,
    known: Seq<&str>,
) -> Result<Seq<char>, Seq<char>> {
    let (compiled, problems, used) = compiled_upto(pages, mounts_of(sources), exempt, known);
    let all = problems + ignores_of(sources) + unused_upto(
        exempt,
        used,
        ", which is not a document here"@,
        exempt.len() as int,
    );
    if all.len() == 0 {
        Ok(decimal(compiled as nat) + " Rust block(s), all compiled"@)
    } else {
        Err(joined(all, "\n"@) + "\n\nMount a page whose Rust should compile:\n\n    #[cfg(doctest)]\n    #[doc = include_str!(\"../../docs/name.md\")]\n    struct DocsName;\n\nAn `ignore` is a snippet that stopped being checked. Make it compile,\nor make it `text`."@)
    }
}

/// The directory a path is in.
fn dir_chars(path: &[char]) -> (r: Vec<char>)
    ensures
        r@ == dir_of(path@),
{
    match crate::text::last_char_index(path, '/') {
        Some(k) => crate::text::slice(path, 0, k),
        None => Vec::new(),
    }
}

/// Every page the sources mount.
fn mounts(sources: &[(&str, &str)]) -> (r: Vec<Vec<char>>)
    ensures
        char_views(r@) == mounts_of(sources@),
{
    let mut out: Vec<Vec<char>> = Vec::new();
    let mut i: usize = 0;
    while i < sources.len()
        invariant
            i <= sources@.len(),
            char_views(out@) == mounts_of(sources@.take(i as int)),
        decreases sources@.len() - i,
    {
        let (path, text) = sources[i];
        proof {
            assert(sources@.take(i + 1).drop_last() =~= sources@.take(i as int));
            assert(sources@.take(i + 1).last() == sources@[i as int]);
        }
        let dir = dir_chars(&chars_of(path));
        let all = crate::text::lines(text);
        let ghost ls = views(all@);
        let ghost base = char_views(out@);
        let mut j: usize = 0;
        while j < all.len()
            invariant
                j <= all@.len(),
                ls == views(all@),
                ls == lines_of(text@),
                dir@ == dir_of(path@),
                char_views(out@) == base + source_mounts(path@, ls, j as int),
            decreases all@.len() - j,
        {
            assert(ls[j as int] == all@[j as int]@);
            let ghost was = char_views(out@);
            match crate::prose::mounted_by(all[j]) {
                Some(p) => {
                    let mut joined_path = dir.clone();
                    put(&mut joined_path, "/");
                    extend(&mut joined_path, &chars_of(p.as_str()));
                    let key = chars_of(crate::prose::normalise(string_of(&joined_path).as_str()).as_str());
                    out.push(key);
                    assert(char_views(out@) =~= was.push(key@));
                },
                None => {
                    assert(char_views(out@) =~= was + Seq::<Seq<char>>::empty());
                },
            }
            j = j + 1;
        }
        i = i + 1;
    }
    assert(sources@.take(sources@.len() as int) =~= sources@);
    out
}

/// The counts of a prefix are no more than those of the whole.
proof fn lemma_compiled_prefix(pages: Seq<(&str, &str)>, mounts: Seq<Seq<char>>, exempt: Seq<&str>, known: Seq<&str>, k: int)
    requires
        0 <= k <= pages.len(),
    ensures
        0 <= compiled_upto(pages.take(k), mounts, exempt, known).0 <= compiled_upto(pages, mounts, exempt, known).0,
    decreases pages.len() - k,
{
    if k < pages.len() {
        lemma_compiled_prefix(pages, mounts, exempt, known, k + 1);
        assert(pages.take(k + 1).drop_last() =~= pages.take(k));
    } else {
        assert(pages.take(k) =~= pages);
    }
    lemma_compiled_nonneg(pages.take(k), mounts, exempt, known);
}

proof fn lemma_compiled_nonneg(pages: Seq<(&str, &str)>, mounts: Seq<Seq<char>>, exempt: Seq<&str>, known: Seq<&str>)
    ensures
        compiled_upto(pages, mounts, exempt, known).0 >= 0,
    decreases pages.len(),
{
    if pages.len() > 0 {
        lemma_compiled_nonneg(pages.drop_last(), mounts, exempt, known);
    }
}

/// What the compiled-documentation check says of the tracked sources and
/// pages, against the exemptions and the languages this repository writes.
pub fn compiled_report(
    sources: &[(&str, &str)],
    pages: &[(&str, &str)],
    exempt: &[&str],
    known: &[&str],
) -> (r: Result<String, String>)
    requires
        compiled_upto(pages@, mounts_of(sources@), exempt@, known@).0 < usize::MAX,
    ensures
        match r {
            Ok(m) => compiled_report_of(sources@, pages@, exempt@, known@) == Ok::<Seq<char>, Seq<char>>(m@),
            Err(m) => compiled_report_of(sources@, pages@, exempt@, known@) == Err::<Seq<char>, Seq<char>>(m@),
        },
{
    let included = mounts(sources);
    let ghost mv = mounts_of(sources@);
    let mut compiled: usize = 0;
    let mut problems: Vec<Vec<char>> = Vec::new();
    let mut used: Vec<Vec<char>> = Vec::new();
    let mut i: usize = 0;
    while i < pages.len()
        invariant
            i <= pages@.len(),
            mv == mounts_of(sources@),
            char_views(included@) == mv,
            compiled_upto(pages@, mv, exempt@, known@).0 < usize::MAX,
            (compiled as int, char_views(problems@), char_views(used@)) == compiled_upto(
                pages@.take(i as int),
                mv,
                exempt@,
                known@,
            ),
        decreases pages@.len() - i,
    {
        let (path, text) = pages[i];
        proof {
            assert(pages@.take(i + 1).drop_last() =~= pages@.take(i as int));
            assert(pages@.take(i + 1).last() == pages@[i as int]);
            lemma_compiled_prefix(pages@, mv, exempt@, known@, i + 1);
        }
        let p = chars_of(path);
        if named(exempt, &p) {
            let ghost was = char_views(used@);
            used.push(p);
            assert(char_views(used@) =~= was.push(path@));
        } else {
            let key = chars_of(crate::prose::normalise(path).as_str());
            let mounted = holds(&included, &key);
            let (found, c) = crate::prose::page_faults(path, text, mounted, known);
            let ghost was = char_views(problems@);
            let mut j: usize = 0;
            while j < found.len()
                invariant
                    j <= found@.len(),
                    char_views(problems@) == was + string_views(found@).take(j as int),
                decreases found@.len() - j,
            {
                let ghost before = char_views(problems@);
                problems.push(chars_of(found[j].as_str()));
                assert(char_views(problems@) =~= before.push(found@[j as int]@));
                assert(string_views(found@).take(j + 1) =~= string_views(found@).take(j as int).push(
                    found@[j as int]@,
                ));
                j = j + 1;
            }
            assert(string_views(found@).take(found@.len() as int) =~= string_views(found@));
            compiled = compiled + c;
        }
        i = i + 1;
    }
    assert(pages@.take(pages@.len() as int) =~= pages@);
    let ghost before_ignores = char_views(problems@);
    let mut k: usize = 0;
    while k < sources.len()
        invariant
            k <= sources@.len(),
            char_views(problems@) == before_ignores + ignores_of(sources@.take(k as int)),
        decreases sources@.len() - k,
    {
        let (path, text) = sources[k];
        proof {
            assert(sources@.take(k + 1).drop_last() =~= sources@.take(k as int));
            assert(sources@.take(k + 1).last() == sources@[k as int]);
        }
        let found = crate::prose::doc_ignores(path, text);
        let ghost was = char_views(problems@);
        let mut j: usize = 0;
        while j < found.len()
            invariant
                j <= found@.len(),
                char_views(problems@) == was + string_views(found@).take(j as int),
            decreases found@.len() - j,
        {
            let ghost before = char_views(problems@);
            problems.push(chars_of(found[j].as_str()));
            assert(char_views(problems@) =~= before.push(found@[j as int]@));
            assert(string_views(found@).take(j + 1) =~= string_views(found@).take(j as int).push(
                found@[j as int]@,
            ));
            j = j + 1;
        }
        assert(string_views(found@).take(found@.len() as int) =~= string_views(found@));
        k = k + 1;
    }
    assert(sources@.take(sources@.len() as int) =~= sources@);
    push_unused(&mut problems, exempt, &used, ", which is not a document here");
    if problems.len() == 0 {
        let mut m = decimal_of(compiled);
        put(&mut m, " Rust block(s), all compiled");
        Ok(string_of(&m))
    } else {
        let mut m = lines_joined(&problems);
        put(
            &mut m,
            "\n\nMount a page whose Rust should compile:\n\n    #[cfg(doctest)]\n    #[doc = include_str!(\"../../docs/name.md\")]\n    struct DocsName;\n\nAn `ignore` is a snippet that stopped being checked. Make it compile,\nor make it `text`.",
        );
        Err(string_of(&m))
    }
}

// ---------------------------------------------------------------- reference

/// Every section the pages hold, page by page.
pub open spec fn all_sections(pages: Seq<(&str, &str)>) -> Seq<SectionView>
    decreases pages.len(),
{
    if pages.len() == 0 {
        Seq::empty()
    } else {
        all_sections(pages.drop_last()) + sections_of(pages.last().1@, pages.last().0@)
    }
}

/// Whether rustdoc's output names a public item at all.
pub open spec fn names_an_item(symbols: Seq<SymbolView>) -> bool {
    exists|i: int| 0 <= i < symbols.len() && (#[trigger] symbols[i]).kind == Kind::Item
}

/// The reference mirrors rustdoc: with no reference the check is not
/// adopted; rustdoc's output must name an item; every section's abstract and
/// declaration must match; and, once the reference is complete, every name
/// must have a section.
pub open spec fn reference_report_of(
    reference: Option<(bool, Seq<(&str, &str)>)>,
    symbols: Seq<SymbolView>,
    pages: Seq<(&str, &str)>,
) -> Result<Seq<char>, Seq<char>> {
    match reference {
        None => Ok("not adopted"@),
        Some((complete, exempt)) => if !names_an_item(symbols) {
            Err("rustdoc's output names no public item: its HTML has changed shape"@)
        } else {
            let (faults, missing, placed) = compare_of(symbols, all_sections(pages), exempt_names(exempt));
            let wanted = placed + missing.len();
            let all = faults + if complete {
                missing
            } else {
                Seq::empty()
            };
            let across = "across "@ + decimal(pages.len()) + " page(s)"@;
            if all.len() > 0 {
                Err(
                    joined(all, "\n"@) + "\n"@ + decimal(all.len())
                        + " fault(s). A section's abstract is its item's first `///` paragraph and\nits declaration is the signature, both word for word."@,
                )
            } else if complete {
                Ok(decimal(wanted) + " names; every section, abstract and declaration matches "@ + across)
            } else {
                Ok("partial: "@ + decimal(placed) + " of "@ + decimal(wanted) + " placed; each placed one matches "@ + across)
            }
        },
    }
}

/// The reference as the report reads it: whether it is complete, and its
/// exemptions.
pub open spec fn reference_terms(reference: Option<&Reference>) -> Option<(bool, Seq<(&str, &str)>)> {
    match reference {
        Some(r) => Some((r.complete, r.exempt@)),
        None => None,
    }
}

/// What the reference check says of the symbols rustdoc's output names and
/// the tracked pages.
pub fn reference_report(reference: Option<&Reference>, symbols: &[Symbol], pages: &[(&str, &str)]) -> (r: Result<
    String,
    String,
>)
    requires
        ({
            let t = compare_of(
                symbol_views(symbols@),
                all_sections(pages@),
                exempt_names(match reference {
                    Some(r) => r.exempt@,
                    None => Seq::empty(),
                }),
            );
            t.2 + t.1.len() + t.0.len() < usize::MAX
        }),
    ensures
        match r {
            Ok(m) => reference_report_of(reference_terms(reference), symbol_views(symbols@), pages@) == Ok::<
                Seq<char>,
                Seq<char>,
            >(m@),
            Err(m) => reference_report_of(reference_terms(reference), symbol_views(symbols@), pages@) == Err::<
                Seq<char>,
                Seq<char>,
            >(m@),
        },
{
    let reference = match reference {
        None => return Ok(string_of(&chars_of("not adopted"))),
        Some(r) => r,
    };
    let mut has_item = false;
    let mut i: usize = 0;
    while i < symbols.len()
        invariant
            i <= symbols@.len(),
            has_item == exists|k: int| 0 <= k < i && (#[trigger] symbol_views(symbols@)[k]).kind == Kind::Item,
        decreases symbols@.len() - i,
    {
        assert(symbol_views(symbols@)[i as int] == symbols@[i as int]@);
        if symbols[i].kind == Kind::Item {
            has_item = true;
        }
        i = i + 1;
    }
    if !has_item {
        return Err(string_of(&chars_of("rustdoc's output names no public item: its HTML has changed shape")));
    }
    let mut sections: Vec<Section> = Vec::new();
    let mut k: usize = 0;
    while k < pages.len()
        invariant
            k <= pages@.len(),
            section_views(sections@) == all_sections(pages@.take(k as int)),
        decreases pages@.len() - k,
    {
        let (path, text) = pages[k];
        proof {
            assert(pages@.take(k + 1).drop_last() =~= pages@.take(k as int));
            assert(pages@.take(k + 1).last() == pages@[k as int]);
        }
        let mut found = crate::pages::sections_in(text, path);
        let ghost was = section_views(sections@);
        let ghost fv = section_views(found@);
        sections.append(&mut found);
        assert(section_views(sections@) =~= was + fv);
        k = k + 1;
    }
    assert(pages@.take(pages@.len() as int) =~= pages@);
    let tally = crate::reference::compare(symbols, sections.as_slice(), reference.exempt);
    let wanted = tally.placed + tally.missing.len();
    let mut all: Vec<Vec<char>> = Vec::new();
    let mut f: usize = 0;
    while f < tally.faults.len()
        invariant
            f <= tally.faults@.len(),
            char_views(all@) == string_views(tally.faults@).take(f as int),
        decreases tally.faults@.len() - f,
    {
        let ghost before = char_views(all@);
        all.push(chars_of(tally.faults[f].as_str()));
        assert(char_views(all@) =~= before.push(tally.faults@[f as int]@));
        assert(string_views(tally.faults@).take(f + 1) =~= string_views(tally.faults@).take(f as int).push(
            tally.faults@[f as int]@,
        ));
        f = f + 1;
    }
    assert(string_views(tally.faults@).take(tally.faults@.len() as int) =~= string_views(tally.faults@));
    if reference.complete {
        let ghost base = char_views(all@);
        let mut g: usize = 0;
        while g < tally.missing.len()
            invariant
                g <= tally.missing@.len(),
                char_views(all@) == base + string_views(tally.missing@).take(g as int),
            decreases tally.missing@.len() - g,
        {
            let ghost before = char_views(all@);
            all.push(chars_of(tally.missing[g].as_str()));
            assert(char_views(all@) =~= before.push(tally.missing@[g as int]@));
            assert(string_views(tally.missing@).take(g + 1) =~= string_views(tally.missing@).take(g as int).push(
                tally.missing@[g as int]@,
            ));
            g = g + 1;
        }
        assert(string_views(tally.missing@).take(tally.missing@.len() as int) =~= string_views(tally.missing@));
    } else {
        assert(char_views(all@) =~= string_views(tally.faults@) + Seq::<Seq<char>>::empty());
    }
    if all.len() > 0 {
        let mut m = lines_joined(&all);
        put(&mut m, "\n");
        extend(&mut m, &decimal_of(all.len()));
        put(
            &mut m,
            " fault(s). A section's abstract is its item's first `///` paragraph and\nits declaration is the signature, both word for word.",
        );
        return Err(string_of(&m));
    }
    let mut across = chars_of("across ");
    extend(&mut across, &decimal_of(pages.len()));
    put(&mut across, " page(s)");
    if reference.complete {
        let mut m = decimal_of(wanted);
        put(&mut m, " names; every section, abstract and declaration matches ");
        extend(&mut m, &across);
        Ok(string_of(&m))
    } else {
        let mut m = chars_of("partial: ");
        extend(&mut m, &decimal_of(tally.placed));
        put(&mut m, " of ");
        extend(&mut m, &decimal_of(wanted));
        put(&mut m, " placed; each placed one matches ");
        extend(&mut m, &across);
        Ok(string_of(&m))
    }
}


/// The compiled-documentation check, when the count of compiled blocks fits
/// a `usize`; `None` when it does not, and nothing is reported.
pub fn compiled_report_checked(
    sources: &[(&str, &str)],
    pages: &[(&str, &str)],
    exempt: &[&str],
    known: &[&str],
) -> (r: Option<Result<String, String>>)
    ensures
        (r is None) == (compiled_upto(pages@, mounts_of(sources@), exempt@, known@).0 >= usize::MAX),
        r matches Some(res) ==> match res {
            Ok(m) => compiled_report_of(sources@, pages@, exempt@, known@) == Ok::<Seq<char>, Seq<char>>(m@),
            Err(m) => compiled_report_of(sources@, pages@, exempt@, known@) == Err::<Seq<char>, Seq<char>>(m@),
        },
{
    let included = mounts(sources);
    let ghost mv = mounts_of(sources@);
    let mut total: usize = 0;
    let mut i: usize = 0;
    while i < pages.len()
        invariant
            i <= pages@.len(),
            mv == mounts_of(sources@),
            char_views(included@) == mv,
            total as int == compiled_upto(pages@.take(i as int), mv, exempt@, known@).0,
            total < usize::MAX,
        decreases pages@.len() - i,
    {
        let (path, text) = pages[i];
        proof {
            assert(pages@.take(i + 1).drop_last() =~= pages@.take(i as int));
            assert(pages@.take(i + 1).last() == pages@[i as int]);
            lemma_compiled_prefix(pages@, mv, exempt@, known@, i + 1);
        }
        let p = chars_of(path);
        if !named(exempt, &p) {
            let key = chars_of(crate::prose::normalise(path).as_str());
            let mounted = holds(&included, &key);
            let (_, c) = crate::prose::page_faults(path, text, mounted, known);
            if c >= usize::MAX - total {
                return None;
            }
            total = total + c;
        }
        i = i + 1;
    }
    assert(pages@.take(pages@.len() as int) =~= pages@);
    Some(compiled_report(sources, pages, exempt, known))
}

/// The narration check, when the count of comment lines fits a `usize`;
/// `None` when it does not, and nothing is reported.
pub fn narration_report_checked(checked: bool, files: &[(&str, &str)]) -> (r: Option<Result<String, String>>)
    ensures
        (r is None) == (narration_upto(files@).0 >= usize::MAX),
        r matches Some(res) ==> match res {
            Ok(m) => narration_report_of(checked, files@) == Ok::<Seq<char>, Seq<char>>(m@),
            Err(m) => narration_report_of(checked, files@) == Err::<Seq<char>, Seq<char>>(m@),
        },
{
    let mut total: usize = 0;
    let mut i: usize = 0;
    while i < files.len()
        invariant
            i <= files@.len(),
            total as int == narration_upto(files@.take(i as int)).0,
            total < usize::MAX,
        decreases files@.len() - i,
    {
        let (path, text) = files[i];
        proof {
            assert(files@.take(i + 1).drop_last() =~= files@.take(i as int));
            assert(files@.take(i + 1).last() == files@[i as int]);
            lemma_narration_prefix(files@, i + 1);
        }
        let count = comment_line_count(text, names_manifest(path));
        if count >= usize::MAX - total {
            return None;
        }
        total = total + count;
        i = i + 1;
    }
    assert(files@.take(files@.len() as int) =~= files@);
    Some(narration_report(checked, files))
}

/// The reference check, when what it counts fits a `usize`; `None` when it
/// does not, and nothing is reported.
pub fn reference_report_checked(reference: Option<&Reference>, symbols: &[Symbol], pages: &[(&str, &str)]) -> (r: Option<
    Result<String, String>,
>)
    ensures
        (r is None) == ({
            let t = compare_of(
                symbol_views(symbols@),
                all_sections(pages@),
                exempt_names(match reference {
                    Some(r) => r.exempt@,
                    None => Seq::empty(),
                }),
            );
            t.2 + t.1.len() + t.0.len() >= usize::MAX
        }),
        r matches Some(res) ==> match res {
            Ok(m) => reference_report_of(reference_terms(reference), symbol_views(symbols@), pages@) == Ok::<
                Seq<char>,
                Seq<char>,
            >(m@),
            Err(m) => reference_report_of(reference_terms(reference), symbol_views(symbols@), pages@) == Err::<
                Seq<char>,
                Seq<char>,
            >(m@),
        },
{
    let none: Vec<(&str, &str)> = Vec::new();
    let exempt = match reference {
        Some(r) => r.exempt,
        None => none.as_slice(),
    };
    let mut sections: Vec<Section> = Vec::new();
    let mut k: usize = 0;
    while k < pages.len()
        invariant
            k <= pages@.len(),
            section_views(sections@) == all_sections(pages@.take(k as int)),
        decreases pages@.len() - k,
    {
        let (path, text) = pages[k];
        proof {
            assert(pages@.take(k + 1).drop_last() =~= pages@.take(k as int));
            assert(pages@.take(k + 1).last() == pages@[k as int]);
        }
        let mut found = crate::pages::sections_in(text, path);
        let ghost was = section_views(sections@);
        let ghost fv = section_views(found@);
        sections.append(&mut found);
        assert(section_views(sections@) =~= was + fv);
        k = k + 1;
    }
    assert(pages@.take(pages@.len() as int) =~= pages@);
    let tally = crate::reference::compare(symbols, sections.as_slice(), exempt);
    let total = tally.placed as u128 + tally.missing.len() as u128 + tally.faults.len() as u128;
    if total >= usize::MAX as u128 {
        return None;
    }
    Some(reference_report(reference, symbols, pages))
}

} // verus!
