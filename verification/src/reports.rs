//! The repository-shape checks, as reports: what each says when handed what
//! the caller read off the tree. Listing and reading the files is the caller's.

use vstd::prelude::*;
use crate::paths::{under_src, under_src_of};
use crate::text::{chars_of, decimal, decimal_of, extend, joined, matches_at, string_of, string_views};
use crate::tree::{verdict_of, Verdict};

verus! {

broadcast use vstd::string::group_string_axioms;

/// `n` spaces.
pub open spec fn spaces(n: int) -> Seq<char> {
    Seq::new(if n > 0 { n as nat } else { 0 }, |i: int| ' ')
}

/// `s` right-aligned in a field `width` wide, as `{:>width}` writes it.
pub open spec fn right_aligned(s: Seq<char>, width: int) -> Seq<char> {
    spaces(width - s.len()) + s
}

/// `s` left-aligned in a field `width` wide, as `{:<width}` writes it.
pub open spec fn left_aligned(s: Seq<char>, width: int) -> Seq<char> {
    s + spaces(width - s.len())
}

/// Appends `s` to `m`.
pub(crate) fn put(m: &mut Vec<char>, s: &str)
    ensures
        final(m)@ == old(m)@ + s@,
{
    extend(m, &chars_of(s));
}

/// Appends `n` spaces to `m`.
pub(crate) fn put_spaces(m: &mut Vec<char>, n: usize)
    ensures
        final(m)@ == old(m)@ + spaces(n as int),
{
    let mut i: usize = 0;
    while i < n
        invariant
            i <= n,
            m@ == old(m)@ + spaces(i as int),
        decreases n - i,
    {
        m.push(' ');
        assert(spaces(i + 1) =~= spaces(i as int).push(' '));
        i = i + 1;
    }
}

/// Appends `s` right-aligned in a field `width` wide.
pub(crate) fn put_right(m: &mut Vec<char>, s: &[char], width: usize)
    ensures
        final(m)@ == old(m)@ + right_aligned(s@, width as int),
{
    let pad: usize = if s.len() < width { width - s.len() } else { 0 };
    put_spaces(m, pad);
    assert(spaces(pad as int) =~= spaces(width - s@.len()));
    extend(m, s);
}

/// Appends `s` left-aligned in a field `width` wide.
pub(crate) fn put_left(m: &mut Vec<char>, s: &[char], width: usize)
    ensures
        final(m)@ == old(m)@ + left_aligned(s@, width as int),
{
    extend(m, s);
    let pad: usize = if s.len() < width { width - s.len() } else { 0 };
    put_spaces(m, pad);
    assert(spaces(pad as int) =~= spaces(width - s@.len()));
}

/// `ws` joined by newlines, as characters.
pub(crate) fn lines_joined(ws: &Vec<Vec<char>>) -> (r: Vec<char>)
    ensures
        r@ == joined(ws@.map_values(|w: Vec<char>| w@), "\n"@),
{
    let nl = chars_of("\n");
    crate::text::join(ws, &nl)
}

/// The views of a list of character lists.
pub open spec fn char_views(ws: Seq<Vec<char>>) -> Seq<Seq<char>> {
    ws.map_values(|w: Vec<char>| w@)
}

// ---------------------------------------------------------------- file sizes

/// Reading the first `k` sources: how many lie under a `src/`, and a line for
/// each of those over `limit` lines.
pub open spec fn sizes_upto(files: Seq<(&str, usize)>, limit: int, k: int) -> (int, Seq<Seq<char>>)
    decreases k,
{
    if k <= 0 || k > files.len() {
        (0, Seq::empty())
    } else {
        let (counted, over) = sizes_upto(files, limit, k - 1);
        let (path, lines) = files[k - 1];
        if !under_src_of(path@) {
            (counted, over)
        } else if lines > limit {
            (counted + 1, over.push("  "@ + right_aligned(decimal(lines as nat), 5) + "  "@ + path@))
        } else {
            (counted + 1, over)
        }
    }
}

/// No file under a `src/` is longer than `limit` lines; a tree where no file
/// lies under a `src/` is a filter matching nothing.
pub open spec fn sizes_report_of(files: Seq<(&str, usize)>, limit: int) -> Result<Seq<char>, Seq<char>> {
    let (counted, over) = sizes_upto(files, limit, files.len() as int);
    if counted == 0 {
        Err("no source files found — the filter is matching nothing"@)
    } else if over.len() == 0 {
        Ok(decimal(counted as nat) + " file(s), none over "@ + decimal(limit as nat) + " lines"@)
    } else {
        Err(
            joined(over, "\n"@) + "\n"@ + decimal(over.len()) + " file(s) above the "@ + decimal(
                limit as nat,
            ) + "-line limit. Split by job, not by\ntype — if you cannot name a file's job in one sentence without\n\"and\", the \"and\" is the seam."@,
        )
    }
}

/// What the size check says of `files`, each a tracked source and its line
/// count.
pub fn sizes_report(files: &[(&str, usize)], limit: usize) -> (r: Result<String, String>)
    ensures
        match r {
            Ok(m) => sizes_report_of(files@, limit as int) == Ok::<Seq<char>, Seq<char>>(m@),
            Err(m) => sizes_report_of(files@, limit as int) == Err::<Seq<char>, Seq<char>>(m@),
        },
{
    let mut counted: usize = 0;
    let mut over: Vec<Vec<char>> = Vec::new();
    let mut i: usize = 0;
    while i < files.len()
        invariant
            i <= files@.len(),
            counted <= i,
            (counted as int, char_views(over@)) == sizes_upto(files@, limit as int, i as int),
        decreases files@.len() - i,
    {
        let (path, lines) = files[i];
        if under_src(path) {
            if lines > limit {
                let ghost was = char_views(over@);
                let mut line = chars_of("  ");
                put_right(&mut line, &decimal_of(lines), 5);
                put(&mut line, "  ");
                put(&mut line, path);
                over.push(line);
                assert(char_views(over@) =~= was.push(line@));
            }
            counted = counted + 1;
        }
        i = i + 1;
    }
    if counted == 0 {
        return Err(string_of(&chars_of("no source files found — the filter is matching nothing")));
    }
    if over.len() == 0 {
        let mut m = decimal_of(counted);
        put(&mut m, " file(s), none over ");
        extend(&mut m, &decimal_of(limit));
        put(&mut m, " lines");
        Ok(string_of(&m))
    } else {
        let mut m = lines_joined(&over);
        put(&mut m, "\n");
        extend(&mut m, &decimal_of(over.len()));
        put(&mut m, " file(s) above the ");
        extend(&mut m, &decimal_of(limit));
        put(
            &mut m,
            "-line limit. Split by job, not by\ntype — if you cannot name a file's job in one sentence without\n\"and\", the \"and\" is the seam.",
        );
        Err(string_of(&m))
    }
}

// ---------------------------------------------------------------- front page

/// Whether a path names a file at the repository root.
pub open spec fn at_root(path: Seq<char>) -> bool {
    !path.contains('/')
}

/// Reading the first `k` pages: how many are at the root, and a complaint for
/// each of those without the warning.
pub open spec fn front_upto(pages: Seq<(&str, &str)>, k: int) -> (int, Seq<Seq<char>>)
    decreases k,
{
    if k <= 0 || k > pages.len() {
        (0, Seq::empty())
    } else {
        let (checked, missing) = front_upto(pages, k - 1);
        let (path, text) = pages[k - 1];
        if !at_root(path@) {
            (checked, missing)
        } else if crate::tree::warns_of(text@) {
            (checked + 1, missing)
        } else {
            (checked + 1, missing.push("  "@ + path@ + ": no development warning in the header"@))
        }
    }
}

/// The front page warns that the API moves; a tree with no page at its root
/// is a filter matching nothing.
pub open spec fn front_page_report_of(pages: Seq<(&str, &str)>) -> Result<Seq<char>, Seq<char>> {
    let (checked, missing) = front_upto(pages, pages.len() as int);
    if checked == 0 {
        Err("  no front page found — the filter is matching nothing"@)
    } else if missing.len() == 0 {
        Ok("the front page warns"@)
    } else {
        Err(joined(missing, "\n"@))
    }
}

/// Whether a path has a `/` in it.
pub(crate) fn has_slash(path: &str) -> (r: bool)
    ensures
        r == path@.contains('/'),
{
    let v = chars_of(path);
    let mut i: usize = 0;
    while i < v.len()
        invariant
            i <= v@.len(),
            v@ == path@,
            forall|k: int| 0 <= k < i ==> v@[k] != '/',
        decreases v@.len() - i,
    {
        if v[i] == '/' {
            return true;
        }
        i = i + 1;
    }
    false
}

/// What the front-page check says of `pages`, each a tracked README and its
/// text.
pub fn front_page_report(pages: &[(&str, &str)]) -> (r: Result<String, String>)
    ensures
        match r {
            Ok(m) => front_page_report_of(pages@) == Ok::<Seq<char>, Seq<char>>(m@),
            Err(m) => front_page_report_of(pages@) == Err::<Seq<char>, Seq<char>>(m@),
        },
{
    let mut checked: usize = 0;
    let mut missing: Vec<Vec<char>> = Vec::new();
    let mut i: usize = 0;
    while i < pages.len()
        invariant
            i <= pages@.len(),
            checked <= i,
            (checked as int, char_views(missing@)) == front_upto(pages@, i as int),
        decreases pages@.len() - i,
    {
        let (path, text) = pages[i];
        if !has_slash(path) {
            if !crate::tree::warns(text) {
                let ghost was = char_views(missing@);
                let mut line = chars_of("  ");
                put(&mut line, path);
                put(&mut line, ": no development warning in the header");
                missing.push(line);
                assert(char_views(missing@) =~= was.push(line@));
            }
            checked = checked + 1;
        }
        i = i + 1;
    }
    if checked == 0 {
        Err(string_of(&chars_of("  no front page found — the filter is matching nothing")))
    } else if missing.len() == 0 {
        Ok(string_of(&chars_of("the front page warns")))
    } else {
        Err(string_of(&lines_joined(&missing)))
    }
}

// ---------------------------------------------------------------- crates tested

/// The directory a manifest sits in, as a reader names the crate: `.` for the
/// repository root.
pub open spec fn crate_named_of(manifest: Seq<char>) -> Seq<char> {
    let cut = crate::text::last_index(manifest, '/');
    if cut < 0 {
        "."@
    } else if cut == 0 {
        "."@
    } else {
        manifest.take(cut)
    }
}

/// The directory a manifest sits in, named as a reader would: `.` for the
/// repository root.
pub fn crate_named(manifest: &str) -> (r: String)
    ensures
        r@ == crate_named_of(manifest@),
{
    let v = chars_of(manifest);
    let cut = crate::text::last_char_index(&v, '/');
    match cut {
        None => string_of(&chars_of(".")),
        Some(c) => if c == 0 {
            string_of(&chars_of("."))
        } else {
            string_of(&crate::text::slice(&v, 0, c))
        },
    }
}

/// Whether `file` lies under the `src/` of the crate in `dir`, where `dir`
/// is empty for the repository root: the path starts with the prefix as
/// whole components.
pub open spec fn in_crate_src_of(file: Seq<char>, dir: Seq<char>) -> bool {
    let prefix = if dir.len() == 0 { "src"@ } else { dir + "/src"@ };
    file == prefix || matches_at(file, 0, prefix + "/"@)
}

/// Whether `file` lies under the `src/` of the crate in `dir`.
pub fn in_crate_src(file: &str, dir: &str) -> (r: bool)
    ensures
        r == in_crate_src_of(file@, dir@),
{
    let mut prefix = chars_of(dir);
    if prefix.len() == 0 {
        put(&mut prefix, "src");
        assert(prefix@ =~= "src"@);
    } else {
        put(&mut prefix, "/src");
    }
    let f = chars_of(file);
    if crate::text::same_chars(&f, &prefix) {
        return true;
    }
    let mut with_slash = prefix.clone();
    put(&mut with_slash, "/");
    assert(with_slash@ == prefix@ + "/"@);
    crate::text::starts_at(&f, 0, &with_slash)
}

/// Reading the first `k` crates against `exempt`: the problems, the notes, and
/// the exemptions used.
pub open spec fn tested_upto(crates: Seq<(String, bool)>, exempt: Seq<(&str, &str)>, k: int) -> (
    Seq<Seq<char>>,
    Seq<Seq<char>>,
    Seq<Seq<char>>,
)
    decreases k,
{
    if k <= 0 || k > crates.len() {
        (Seq::empty(), Seq::empty(), Seq::empty())
    } else {
        let (problems, notes, used) = tested_upto(crates, exempt, k - 1);
        let named = crates[k - 1].0@;
        match verdict_of(named, crates[k - 1].1, crate::reference::exempt_names(exempt)) {
            Verdict::Tested => (problems, notes, used),
            Verdict::StaleExemption => (
                problems.push("  "@ + named + " is exempt and has tests. Remove the exemption."@),
                notes,
                used.push(named),
            ),
            Verdict::Exempt(i) => (
                problems,
                notes.push("  "@ + left_aligned(named, 24) + " "@ + exempt[i as int].1@),
                used.push(named),
            ),
            Verdict::Untested => (problems.push("  "@ + named + " has no tests and is not exempt"@), notes, used),
        }
    }
}

/// The exemptions among `exempt[..k]` that name no crate that used one.
pub open spec fn stale_upto(exempt: Seq<(&str, &str)>, used: Seq<Seq<char>>, k: int) -> Seq<Seq<char>>
    decreases k,
{
    if k <= 0 || k > exempt.len() {
        Seq::empty()
    } else {
        stale_upto(exempt, used, k - 1) + if used.contains(exempt[k - 1].0@) {
            Seq::empty()
        } else {
            seq!["  the exemption names "@ + exempt[k - 1].0@ + ", which is not a crate here"@]
        }
    }
}

/// Every crate is tested, or says in writing why it is not: each crate as a
/// reader names it and whether it is tested, against the `(name, reason)`
/// exemptions. The reasons print back, so they are re-read.
pub open spec fn tested_report_of(crates: Seq<(String, bool)>, exempt: Seq<(&str, &str)>) -> Result<
    Seq<char>,
    Seq<char>,
> {
    let (problems, notes, used) = tested_upto(crates, exempt, crates.len() as int);
    let all = problems + stale_upto(exempt, used, exempt.len() as int);
    if all.len() == 0 {
        Ok(joined(notes, "\n"@))
    } else {
        Err(joined(all, "\n"@))
    }
}

/// Whether `list` holds `w`.
pub(crate) fn holds(list: &Vec<Vec<char>>, w: &[char]) -> (r: bool)
    ensures
        r == char_views(list@).contains(w@),
{
    let mut i: usize = 0;
    while i < list.len()
        invariant
            i <= list@.len(),
            forall|k: int| 0 <= k < i ==> char_views(list@)[k] != w@,
        decreases list@.len() - i,
    {
        if crate::text::same_chars(&list[i], w) {
            assert(char_views(list@)[i as int] == w@);
            return true;
        }
        i = i + 1;
    }
    false
}

/// What the testing check says of `crates`, each named as a reader would and
/// whether it is tested, against `exempt`.
pub fn tested_report(crates: &[(String, bool)], exempt: &[(&str, &str)]) -> (r: Result<String, String>)
    ensures
        match r {
            Ok(m) => tested_report_of(crates@, exempt@) == Ok::<Seq<char>, Seq<char>>(m@),
            Err(m) => tested_report_of(crates@, exempt@) == Err::<Seq<char>, Seq<char>>(m@),
        },
{
    let mut problems: Vec<Vec<char>> = Vec::new();
    let mut notes: Vec<Vec<char>> = Vec::new();
    let mut used: Vec<Vec<char>> = Vec::new();
    let mut i: usize = 0;
    while i < crates.len()
        invariant
            i <= crates@.len(),
            (char_views(problems@), char_views(notes@), char_views(used@)) == tested_upto(
                crates@,
                exempt@,
                i as int,
            ),
        decreases crates@.len() - i,
    {
        let ghost (p0, n0, u0) = (char_views(problems@), char_views(notes@), char_views(used@));
        let named = chars_of(crates[i].0.as_str());
        let verdict = crate::tree::crate_verdict(crates[i].0.as_str(), crates[i].1, exempt);
        match verdict {
            Verdict::Tested => {},
            Verdict::StaleExemption => {
                let mut line = chars_of("  ");
                extend(&mut line, &named);
                put(&mut line, " is exempt and has tests. Remove the exemption.");
                problems.push(line);
                used.push(named.clone());
                assert(char_views(problems@) =~= p0.push(line@));
                assert(char_views(used@) =~= u0.push(named@));
            },
            Verdict::Exempt(k) => {
                proof {
                    crate::tree::lemma_exemption_in_range(crate::reference::exempt_names(exempt@), named@, 0);
                }
                let mut line = chars_of("  ");
                put_left(&mut line, &named, 24);
                put(&mut line, " ");
                put(&mut line, exempt[k].1);
                notes.push(line);
                used.push(named.clone());
                assert(char_views(notes@) =~= n0.push(line@));
                assert(char_views(used@) =~= u0.push(named@));
            },
            Verdict::Untested => {
                let mut line = chars_of("  ");
                extend(&mut line, &named);
                put(&mut line, " has no tests and is not exempt");
                problems.push(line);
                assert(char_views(problems@) =~= p0.push(line@));
            },
        }
        i = i + 1;
    }
    let ghost base = char_views(problems@);
    let ghost uv = char_views(used@);
    let mut j: usize = 0;
    while j < exempt.len()
        invariant
            j <= exempt@.len(),
            uv == char_views(used@),
            char_views(problems@) == base + stale_upto(exempt@, uv, j as int),
        decreases exempt@.len() - j,
    {
        let name = chars_of(exempt[j].0);
        if !holds(&used, &name) {
            let ghost was = char_views(problems@);
            let mut line = chars_of("  the exemption names ");
            extend(&mut line, &name);
            put(&mut line, ", which is not a crate here");
            problems.push(line);
            assert(char_views(problems@) =~= was.push(line@));
        }
        j = j + 1;
    }
    if problems.len() == 0 {
        Ok(string_of(&lines_joined(&notes)))
    } else {
        Err(string_of(&lines_joined(&problems)))
    }
}

// ---------------------------------------------------------------- missing docs

/// Reading the first `k` publishable crates: a line for each root that does
/// not deny `missing_docs`.
pub open spec fn without_upto(roots: Seq<(&str, bool)>, k: int) -> Seq<Seq<char>>
    decreases k,
{
    if k <= 0 || k > roots.len() {
        Seq::empty()
    } else {
        without_upto(roots, k - 1) + if roots[k - 1].1 {
            Seq::empty()
        } else {
            seq!["  "@ + roots[k - 1].0@]
        }
    }
}

/// Every crate that publishes denies `missing_docs`; where nothing publishes
/// it says so rather than passing quietly.
pub open spec fn docs_report_of(required: bool, roots: Seq<(&str, bool)>) -> Result<Seq<char>, Seq<char>> {
    let without = without_upto(roots, roots.len() as int);
    if !required {
        Ok("not adopted"@)
    } else if roots.len() == 0 {
        Ok("no publishable crates"@)
    } else if without.len() == 0 {
        Ok(decimal(roots.len()) + " crate(s) deny missing_docs"@)
    } else {
        Err(joined(without, "\n"@) + "\n\nA crate that publishes documents every public item."@)
    }
}

/// What the missing-docs check says of `roots`, each a publishable crate's
/// root source and whether it denies `missing_docs`.
pub fn docs_report(required: bool, roots: &[(&str, bool)]) -> (r: Result<String, String>)
    ensures
        match r {
            Ok(m) => docs_report_of(required, roots@) == Ok::<Seq<char>, Seq<char>>(m@),
            Err(m) => docs_report_of(required, roots@) == Err::<Seq<char>, Seq<char>>(m@),
        },
{
    if !required {
        return Ok(string_of(&chars_of("not adopted")));
    }
    if roots.len() == 0 {
        return Ok(string_of(&chars_of("no publishable crates")));
    }
    let mut without: Vec<Vec<char>> = Vec::new();
    let mut i: usize = 0;
    while i < roots.len()
        invariant
            i <= roots@.len(),
            char_views(without@) == without_upto(roots@, i as int),
        decreases roots@.len() - i,
    {
        let (root, denies) = roots[i];
        let ghost was = char_views(without@);
        if !denies {
            let mut line = chars_of("  ");
            put(&mut line, root);
            without.push(line);
            assert(char_views(without@) =~= was.push(line@));
        } else {
            assert(char_views(without@) =~= was + Seq::<Seq<char>>::empty());
        }
        i = i + 1;
    }
    if without.len() == 0 {
        let mut m = decimal_of(roots.len());
        put(&mut m, " crate(s) deny missing_docs");
        Ok(string_of(&m))
    } else {
        let mut m = lines_joined(&without);
        put(&mut m, "\n\nA crate that publishes documents every public item.");
        Err(string_of(&m))
    }
}

} // verus!
