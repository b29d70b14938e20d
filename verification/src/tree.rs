//! Rules about the shape of the repository, read from one file at a time:
//! how long a source is, what a front page must say, which crates test, and
//! what a manifest names. Walking the repository is the caller's.

use vstd::prelude::*;
use crate::text::{
    before_first, chars_of, contains_str, lines, lines_of, matches_at, occurs, same_chars, slice,
    split, split_once, split_once_of, string_of, trim, trimmed, views,
};

verus! {

broadcast use vstd::string::group_string_axioms;

/// How many lines a source has.
pub fn line_count(text: &str) -> (n: usize)
    ensures
        n == lines_of(text@).len(),
{
    lines(text).len()
}

/// Whether a line holds a `#[cfg(test)]` and is not a comment.
pub open spec fn unit_line(line: Seq<char>) -> bool {
    let t = trim(line);
    occurs(t, "#[cfg(test)]"@) && !matches_at(t, 0, "//"@)
}

/// Whether a source holds a unit-test module: a `#[cfg(test)]` on a line that
/// is not a comment — a sentence about testing is not a test.
pub open spec fn has_unit_test_of(text: Seq<char>) -> bool {
    exists|i: int| 0 <= i < lines_of(text).len() && unit_line(#[trigger] lines_of(text)[i])
}

/// Whether a manifest describes a package: it holds a `[package]` table.
pub fn is_package(manifest: &str) -> (r: bool)
    ensures
        r == occurs(manifest@, "[package]"@),
{
    contains_str(&chars_of(manifest), "[package]")
}

/// Whether a manifest's package may publish: it describes a package and does
/// not say `publish = false`.
pub fn publishable(manifest: &str) -> (r: bool)
    ensures
        r == (occurs(manifest@, "[package]"@) && !occurs(manifest@, "publish = false"@)),
{
    let v = chars_of(manifest);
    contains_str(&v, "[package]") && !contains_str(&v, "publish = false")
}

/// Whether a source holds a unit-test module.
pub fn has_unit_test(text: &str) -> (r: bool)
    ensures
        r == has_unit_test_of(text@),
{
    let all = lines(text);
    let ghost ls = views(all@);
    let mut i: usize = 0;
    while i < all.len()
        invariant
            i <= all@.len(),
            ls == views(all@),
            ls == lines_of(text@),
            forall|k: int| 0 <= k < i ==> !unit_line(#[trigger] ls[k]),
        decreases all@.len() - i,
    {
        let t = trimmed(&chars_of(all[i]));
        assert(ls[i as int] == all@[i as int]@);
        if contains_str(&t, "#[cfg(test)]") && !crate::text::starts_with_str(&t, "//") {
            assert(unit_line(ls[i as int]));
            return true;
        }
        i = i + 1;
    }
    false
}

/// Whether a crate root denies `missing_docs`: a line that is exactly
/// `#![deny(missing_docs)]` once trimmed.
pub open spec fn denies_of(text: Seq<char>) -> bool {
    exists|i: int|
        0 <= i < lines_of(text).len() && trim(#[trigger] lines_of(text)[i]) == "#![deny(missing_docs)]"@
}

/// Whether a crate root denies `missing_docs`.
pub fn denies_missing_docs(text: &str) -> (r: bool)
    ensures
        r == denies_of(text@),
{
    let all = lines(text);
    let ghost ls = views(all@);
    let want = chars_of("#![deny(missing_docs)]");
    let mut i: usize = 0;
    while i < all.len()
        invariant
            i <= all@.len(),
            ls == views(all@),
            ls == lines_of(text@),
            want@ == "#![deny(missing_docs)]"@,
            forall|k: int| 0 <= k < i ==> trim(#[trigger] ls[k]) != "#![deny(missing_docs)]"@,
        decreases all@.len() - i,
    {
        let t = trimmed(&chars_of(all[i]));
        assert(ls[i as int] == all@[i as int]@);
        if same_chars(&t, &want) {
            return true;
        }
        i = i + 1;
    }
    false
}

/// The first line at or after `i` that is the warning callout's header.
pub open spec fn callout_from(ls: Seq<Seq<char>>, i: int) -> int
    decreases ls.len() - i,
{
    if i < 0 || i >= ls.len() || trim(ls[i]) == "> [!WARNING]"@ {
        i
    } else {
        callout_from(ls, i + 1)
    }
}

/// How far from `i` the lines run on that start with `>`.
pub open spec fn quote_end(ls: Seq<Seq<char>>, i: int) -> int
    decreases ls.len() - i,
{
    if i < 0 || i >= ls.len() || !(ls[i].len() > 0 && ls[i][0] == '>') {
        i
    } else {
        quote_end(ls, i + 1)
    }
}

/// The text of a page's warning callout: the quoted lines after its header,
/// joined by spaces.
pub open spec fn callout_of(text: Seq<char>) -> Seq<char> {
    let ls = lines_of(text);
    let start = callout_from(ls, 0) + 1;
    if start > ls.len() {
        Seq::empty()
    } else {
        crate::text::joined(ls.subrange(start, quote_end(ls, start)), " "@)
    }
}

/// Whether a front page warns that the API moves: its callout says both
/// halves of the sentence.
pub open spec fn warns_of(text: Seq<char>) -> bool {
    let w = callout_of(text);
    occurs(w, "Under heavy development"@) && occurs(w, "API can break"@)
}

/// Whether a line starts with `>`.
fn quoted_line(l: &str) -> (r: bool)
    ensures
        r == (l@.len() > 0 && l@[0] == '>'),
{
    let c = chars_of(l);
    c.len() > 0 && c[0] == '>'
}

/// Whether a front page warns that the API moves, in the callout itself.
pub fn warns(text: &str) -> (r: bool)
    ensures
        r == warns_of(text@),
{
    proof {
        reveal_strlit(" ");
    }
    let all = lines(text);
    let ghost ls = views(all@);
    let header = chars_of("> [!WARNING]");
    let mut i: usize = 0;
    while i < all.len() && !same_chars(&trimmed(&chars_of(all[i])), &header)
        invariant
            i <= all@.len(),
            ls == views(all@),
            header@ == "> [!WARNING]"@,
            ls == lines_of(text@),
            callout_from(ls, 0) == callout_from(ls, i as int),
        decreases all@.len() - i,
    {
        assert(ls[i as int] == all@[i as int]@);
        i = i + 1;
    }
    if i < all.len() {
        assert(ls[i as int] == all@[i as int]@);
    }
    let mut quoted: Vec<Vec<char>> = Vec::new();
    if i < all.len() {
        let start = i + 1;
        let mut j = start;
        while j < all.len() && quoted_line(all[j])
            invariant
                start <= j <= all@.len(),
                ls == views(all@),
                ls == lines_of(text@),
                quote_end(ls, start as int) == quote_end(ls, j as int),
                quoted@.map_values(|q: Vec<char>| q@) == ls.subrange(start as int, j as int),
            decreases all@.len() - j,
        {
            assert(ls[j as int] == all@[j as int]@);
            let ghost was = quoted@.map_values(|q: Vec<char>| q@);
            quoted.push(chars_of(all[j]));
            assert(quoted@.map_values(|q: Vec<char>| q@) =~= was.push(ls[j as int]));
            assert(ls.subrange(start as int, j + 1) =~= ls.subrange(start as int, j as int).push(ls[j as int]));
            j = j + 1;
        }
        if j < all.len() {
            assert(ls[j as int] == all@[j as int]@);
        }
    }
    let space = vec![' '];
    assert(space@ =~= " "@);
    let joined = crate::text::join(&quoted, &space);
    proof {
        if i >= all@.len() {
            assert(quoted@.map_values(|q: Vec<char>| q@) =~= Seq::<Seq<char>>::empty());
        }
    }
    contains_str(&joined, "Under heavy development") && contains_str(&joined, "API can break")
}

/// Whether `t` starts with a `[` section header.
pub open spec fn opens_section(t: Seq<char>) -> bool {
    t.len() > 0 && t[0] == '['
}

/// What a `[package]` line says of the package's name, if it is the name:
/// the text between the quotes after `name`, `=` and spaces.
pub open spec fn name_value(t: Seq<char>) -> Option<Seq<char>> {
    let rest = t.skip(4);
    let v = trim(rest.skip(crate::prose::leading(rest, ' ', '=', 0)));
    if v.len() > 0 && v[0] == '"' {
        Some(before_first(v.skip(1), "\""@))
    } else {
        None
    }
}

/// Reading a manifest's first `k` lines for its package's name: whether the
/// current section is `[package]`, whether the name line has been read, and
/// the name found.
pub open spec fn package_scan(ls: Seq<Seq<char>>, k: nat) -> (bool, bool, Option<Seq<char>>)
    decreases k,
{
    if k == 0 || k > ls.len() {
        (false, false, None)
    } else {
        let (inside, done, found) = package_scan(ls, (k - 1) as nat);
        let t = trim(ls[k - 1]);
        if done {
            (inside, done, found)
        } else if opens_section(t) {
            (t == "[package]"@, false, found)
        } else if inside && matches_at(t, 0, "name"@) {
            (inside, true, name_value(t))
        } else {
            (inside, false, found)
        }
    }
}

/// The name a manifest gives its package, if it gives one: the first `name`
/// line of its `[package]` section decides.
pub open spec fn package_name_of(text: Seq<char>) -> Option<Seq<char>> {
    package_scan(lines_of(text), lines_of(text).len()).2
}

/// The name a manifest gives its package, if it gives one.
pub fn package_name(text: &str) -> (r: Option<String>)
    ensures
        match r {
            Some(n) => package_name_of(text@) == Some(n@),
            None => package_name_of(text@) is None,
        },
{
    proof {
        reveal_strlit("name");
    }
    let all = lines(text);
    let ghost ls = views(all@);
    let section = chars_of("[package]");
    let key = chars_of("name");
    let mut inside = false;
    let mut done = false;
    let mut found: Option<Vec<char>> = None;
    let mut i: usize = 0;
    while i < all.len()
        invariant
            i <= all@.len(),
            ls == views(all@),
            ls == lines_of(text@),
            section@ == "[package]"@,
            key@ == "name"@,
            "name"@.len() == 4,
            package_scan(ls, i as nat) == (inside, done, match found {
                Some(f) => Some(f@),
                None => None,
            }),
        decreases all@.len() - i,
    {
        assert(ls[i as int] == all@[i as int]@);
        let t = trimmed(&chars_of(all[i]));
        if !done {
            if t.len() > 0 && t[0] == '[' {
                inside = same_chars(&t, &section);
            } else if inside && crate::text::starts_at(&t, 0, &key) {
                done = true;
                let rest = slice(&t, 4, t.len());
                assert(rest@ =~= t@.skip(4));
                let k = crate::prose::leading_of(&rest, ' ', '=');
                let after = slice(&rest, k, rest.len());
                assert(after@ =~= rest@.skip(k as int));
                let v = trimmed(&after);
                if v.len() > 0 && v[0] == '"' {
                    let tail = slice(&v, 1, v.len());
                    assert(tail@ =~= v@.skip(1));
                    found = Some(crate::text::up_to(&tail, &chars_of("\"")));
                } else {
                    found = None;
                }
            }
        }
        i = i + 1;
    }
    match found {
        Some(f) => Some(string_of(&f)),
        None => None,
    }
}

/// What a manifest line assigns: its key trimmed, and its value — the text
/// between its first two quotes, or the whole of it trimmed when it has none.
pub open spec fn assignment_of(t: Seq<char>) -> Option<(Seq<char>, Seq<char>)> {
    match split_once_of(t, "="@) {
        None => None,
        Some((key, value)) => {
            let parts = split(value, "\""@);
            Some((trim(key), if parts.len() > 1 { parts[1] } else { trim(value) }))
        },
    }
}

/// Reading a manifest's first `k` lines for the crate it builds: the current
/// section, and the last package name, library name and library path seen.
pub open spec fn crate_scan(ls: Seq<Seq<char>>, k: nat) -> (
    Seq<char>,
    Option<Seq<char>>,
    Option<Seq<char>>,
    Option<Seq<char>>,
)
    decreases k,
{
    if k == 0 || k > ls.len() {
        (Seq::empty(), None, None, None)
    } else {
        let (section, package, lib, path) = crate_scan(ls, (k - 1) as nat);
        let t = trim(ls[k - 1]);
        if opens_section(t) {
            (t, package, lib, path)
        } else {
            match assignment_of(t) {
                None => (section, package, lib, path),
                Some((key, value)) => if section == "[package]"@ && key == "name"@ {
                    (section, Some(crate::text::replaced(value, "-"@, "_"@)), lib, path)
                } else if section == "[lib]"@ && key == "name"@ {
                    (section, package, Some(value), path)
                } else if section == "[lib]"@ && key == "path"@ {
                    (section, package, lib, Some(value))
                } else {
                    (section, package, lib, path)
                },
            }
        }
    }
}

/// The crate a manifest builds, if it names one: the library's name, or the
/// package's with `-` written `_`; and the library's root file, `src/lib.rs`
/// unless the manifest says otherwise.
pub open spec fn manifest_crate_of(text: Seq<char>) -> Option<(Seq<char>, Seq<char>)> {
    let (_, package, lib, path) = crate_scan(lines_of(text), lines_of(text).len());
    let name = match lib {
        Some(l) => Some(l),
        None => package,
    };
    match name {
        None => None,
        Some(n) => Some((n, match path {
            Some(p) => p,
            None => "src/lib.rs"@,
        })),
    }
}

/// What a manifest line assigns, if it assigns anything.
fn assignment(t: &[char]) -> (r: Option<(Vec<char>, Vec<char>)>)
    ensures
        match r {
            Some((k, v)) => assignment_of(t@) == Some((k@, v@)),
            None => assignment_of(t@) is None,
        },
{
    proof {
        reveal_strlit("=");
        reveal_strlit("\"");
    }
    let eq = vec!['='];
    assert(eq@ =~= "="@);
    match crate::text::split_once(t, &eq) {
        None => None,
        Some((key, value)) => {
            let quote = vec!['"'];
            assert(quote@ =~= "\""@);
            let parts = crate::text::pieces(&value, &quote);
            assert(parts@.map_values(|p: Vec<char>| p@).len() == parts@.len());
            let v = if parts.len() > 1 {
                assert(parts@.map_values(|p: Vec<char>| p@)[1] == parts@[1]@);
                slice(&parts[1], 0, parts[1].len())
            } else {
                trimmed(&value)
            };
            proof {
                if parts@.len() > 1 {
                    assert(v@ =~= parts@[1]@);
                }
            }
            Some((trimmed(&key), v))
        },
    }
}

/// The crate a manifest builds, if it names one, and its root file.
pub fn manifest_crate(text: &str) -> (r: Option<(String, String)>)
    ensures
        match r {
            Some((n, p)) => manifest_crate_of(text@) == Some((n@, p@)),
            None => manifest_crate_of(text@) is None,
        },
{
    proof {
        reveal_strlit("-");
        reveal_strlit("_");
    }
    let all = lines(text);
    let ghost ls = views(all@);
    let mut section: Vec<char> = Vec::new();
    let mut package: Option<Vec<char>> = None;
    let mut lib: Option<Vec<char>> = None;
    let mut path: Option<Vec<char>> = None;
    let package_header = chars_of("[package]");
    let lib_header = chars_of("[lib]");
    let name_key = chars_of("name");
    let path_key = chars_of("path");
    let dash = vec!['-'];
    let under = vec!['_'];
    assert(dash@ =~= "-"@);
    assert(under@ =~= "_"@);
    let mut i: usize = 0;
    while i < all.len()
        invariant
            i <= all@.len(),
            ls == views(all@),
            ls == lines_of(text@),
            package_header@ == "[package]"@,
            lib_header@ == "[lib]"@,
            name_key@ == "name"@,
            path_key@ == "path"@,
            dash@ == "-"@,
            dash@.len() == 1,
            under@ == "_"@,
            crate_scan(ls, i as nat) == (section@, match package {
                Some(p) => Some(p@),
                None => None,
            }, match lib {
                Some(l) => Some(l@),
                None => None,
            }, match path {
                Some(p) => Some(p@),
                None => None,
            }),
        decreases all@.len() - i,
    {
        let t = trimmed(&chars_of(all[i]));
        assert(ls[i as int] == all@[i as int]@);
        if t.len() > 0 && t[0] == '[' {
            section = t;
        } else {
            match assignment(&t) {
                None => {},
                Some((key, value)) => {
                    if same_chars(&section, &package_header) && same_chars(&key, &name_key) {
                        package = Some(crate::text::replace(&value, &dash, &under));
                    } else if same_chars(&section, &lib_header) && same_chars(&key, &name_key) {
                        lib = Some(value);
                    } else if same_chars(&section, &lib_header) && same_chars(&key, &path_key) {
                        path = Some(value);
                    }
                },
            }
        }
        i = i + 1;
    }
    let name = match lib {
        Some(l) => Some(l),
        None => package,
    };
    match name {
        None => None,
        Some(n) => {
            let p = match path {
                Some(p) => p,
                None => chars_of("src/lib.rs"),
            };
            Some((string_of(&n), string_of(&p)))
        },
    }
}

/// What a stage list says: its lines split at `·` and trimmed, empty
/// pieces dropped.
pub open spec fn stages_in(lines: Seq<(int, Seq<char>)>) -> Seq<Seq<char>>
    decreases lines.len(),
{
    if lines.len() == 0 {
        Seq::empty()
    } else {
        stages_in(lines.drop_last()) + crate::prose::nonempty(
            split(lines.last().1, "·"@).map_values(|s: Seq<char>| trim(s)),
        )
    }
}

/// A crate's verdict on testing.
#[derive(Clone, Copy, PartialEq, Eq, Structural, Debug)]
pub enum Verdict {
    /// Tested, and nothing to say.
    Tested,
    /// Tested, yet exempted: the exemption is stale.
    StaleExemption,
    /// Untested, with the reason given at this place in the exemptions.
    Exempt(usize),
    /// Untested, and no reason given.
    Untested,
}

/// Where `named` is first exempted, if it is.
pub open spec fn exemption(exempt: Seq<Seq<char>>, named: Seq<char>, from: int) -> Option<int>
    decreases exempt.len() - from,
{
    if from < 0 || from >= exempt.len() {
        None
    } else if exempt[from] == named {
        Some(from)
    } else {
        exemption(exempt, named, from + 1)
    }
}

/// An exemption found is one of the list.
pub proof fn lemma_exemption_in_range(exempt: Seq<Seq<char>>, named: Seq<char>, from: int)
    requires
        0 <= from,
    ensures
        match exemption(exempt, named, from) {
            Some(i) => from <= i < exempt.len() && exempt[i] == named,
            None => true,
        },
    decreases exempt.len() - from,
{
    if from < exempt.len() && exempt[from] != named {
        lemma_exemption_in_range(exempt, named, from + 1);
    }
}

/// Whether a crate is tested, or says in writing why it is not.
pub open spec fn verdict_of(named: Seq<char>, tested: bool, exempt: Seq<Seq<char>>) -> Verdict {
    match exemption(exempt, named, 0) {
        Some(i) => if tested {
            Verdict::StaleExemption
        } else {
            Verdict::Exempt(i as usize)
        },
        None => if tested {
            Verdict::Tested
        } else {
            Verdict::Untested
        },
    }
}

/// Whether a crate is tested, or says in writing why it is not: `named` is
/// the crate as a reader names it, `exempt` the `(name, reason)` list.
pub fn crate_verdict(named: &str, tested: bool, exempt: &[(&str, &str)]) -> (r: Verdict)
    ensures
        r == verdict_of(named@, tested, crate::reference::exempt_names(exempt@)),
{
    let ghost ev = crate::reference::exempt_names(exempt@);
    let n = chars_of(named);
    let mut i: usize = 0;
    while i < exempt.len()
        invariant
            i <= exempt@.len(),
            ev == crate::reference::exempt_names(exempt@),
            n@ == named@,
            exemption(ev, named@, 0) == exemption(ev, named@, i as int),
        decreases exempt@.len() - i,
    {
        assert(ev[i as int] == exempt@[i as int].0@);
        if same_chars(&chars_of(exempt[i].0), &n) {
            return if tested {
                Verdict::StaleExemption
            } else {
                Verdict::Exempt(i)
            };
        }
        i = i + 1;
    }
    if tested {
        Verdict::Tested
    } else {
        Verdict::Untested
    }
}

/// The first `text` block among `bs[b..]`, if any.
pub open spec fn first_text(bs: Seq<crate::fences::FenceView>, b: int) -> Option<crate::fences::FenceView>
    decreases bs.len() - b,
{
    if b < 0 || b >= bs.len() {
        None
    } else if bs[b].language == "text"@ {
        Some(bs[b])
    } else {
        first_text(bs, b + 1)
    }
}

/// The heading in `AGENTS.md` above the documented stage list.
pub open spec fn stages_heading() -> Seq<char> {
    "## The "@ + "gate"@
}

/// The stages `AGENTS.md` documents under its stages heading, or `None` when
/// it has no such section: the first `text` block from the heading on, split
/// at `·`, each stage trimmed, empty ones dropped.
pub open spec fn documented_of(text: Seq<char>) -> Option<Seq<Seq<char>>> {
    match crate::text::first_match(text, stages_heading(), 0) {
        None => None,
        Some(at) => Some(
            match first_text(crate::fences::fenced_blocks(text.skip(at)), 0) {
                Some(b) => stages_in(b.lines),
                None => Seq::empty(),
            },
        ),
    }
}

/// The stages listed in a block's lines.
fn stages_from(block: &crate::fences::Fence) -> (r: Vec<String>)
    ensures
        crate::text::string_views(r@) == stages_in(block@.lines),
{
    proof {
        reveal_strlit("·");
    }
    let ghost lv = block@.lines;
    let dot = chars_of("·");
    let mut out: Vec<String> = Vec::new();
    let mut i: usize = 0;
    while i < block.lines.len()
        invariant
            i <= block.lines@.len(),
            lv == block@.lines,
            dot@ == "·"@,
            dot@.len() == 1,
            crate::text::string_views(out@) == stages_in(lv.take(i as int)),
        decreases block.lines@.len() - i,
    {
        assert(lv.take(i + 1).drop_last() =~= lv.take(i as int));
        assert(lv.take(i + 1).last() == (block.lines@[i as int].0 as int, block.lines@[i as int].1@));
        let ghost was = crate::text::string_views(out@);
        let ps = crate::text::pieces(&chars_of(block.lines[i].1), &dot);
        let ghost pv = ps@.map_values(|p: Vec<char>| p@);
        let ghost tv = pv.map_values(|x: Seq<char>| trim(x));
        let mut j: usize = 0;
        while j < ps.len()
            invariant
                j <= ps@.len(),
                pv == ps@.map_values(|p: Vec<char>| p@),
                tv == pv.map_values(|x: Seq<char>| trim(x)),
                crate::text::string_views(out@) == was + crate::prose::nonempty(tv.take(j as int)),
            decreases ps@.len() - j,
        {
            let ghost before = crate::text::string_views(out@);
            assert(tv.take(j + 1).drop_last() =~= tv.take(j as int));
            assert(tv.take(j + 1).last() == trim(ps@[j as int]@));
            let t = trimmed(&ps[j]);
            if t.len() > 0 {
                out.push(string_of(&t));
                assert(crate::text::string_views(out@) =~= before.push(t@));
            }
            j = j + 1;
        }
        assert(tv.take(ps@.len() as int) =~= tv);
        i = i + 1;
    }
    assert(lv.take(block.lines@.len() as int) =~= lv);
    out
}

/// The stages `AGENTS.md` documents under its stages heading, or `None`
/// when it has no such section.
pub fn documented_stages(text: &str) -> (r: Option<Vec<String>>)
    ensures
        match r {
            Some(l) => documented_of(text@) == Some(crate::text::string_views(l@)),
            None => documented_of(text@) is None,
        },
{
    let v = chars_of(text);
    let mut heading = chars_of("## The ");
    crate::text::extend(&mut heading, &chars_of("gate"));
    match crate::text::find(&v, &heading, 0) {
        None => None,
        Some(at) => {
            let section_chars = slice(&v, at, v.len());
            assert(section_chars@ =~= v@.skip(at as int));
            let section = string_of(&section_chars);
            let blocks = crate::fences::fences(section.as_str());
            let ghost bv = crate::fences::fence_views(blocks@);
            proof {
                assert(section@ == text@.skip(at as int));
                assert(bv == crate::fences::fenced_blocks(text@.skip(at as int)));
            }
            let text_lang = chars_of("text");
            let mut b: usize = 0;
            while b < blocks.len()
                invariant
                    b <= blocks@.len(),
                    bv == crate::fences::fence_views(blocks@),
                    bv.len() == blocks@.len(),
                    text_lang@ == "text"@,
                    first_text(bv, 0) == first_text(bv, b as int),
                    crate::text::first_match(text@, stages_heading(), 0) == Some(at as int),
                    bv == crate::fences::fenced_blocks(text@.skip(at as int)),
                decreases blocks@.len() - b,
            {
                assert(bv[b as int] == blocks@[b as int]@);
                if same_chars(&chars_of(blocks[b].language.as_str()), &text_lang) {
                    assert(first_text(bv, b as int) == Some(blocks@[b as int]@));
                    assert(documented_of(text@) == Some(stages_in(blocks@[b as int]@.lines)));
                    let st = stages_from(&blocks[b]);
                    return Some(st);
                }
                b = b + 1;
            }
            assert(first_text(bv, b as int) is None);
            Some(Vec::new())
        },
    }
}

/// The stages documented for the base check, and those an `all` line adds
/// after a `+`, the `+` and spaces gone.
pub open spec fn base_of(listed: Seq<Seq<char>>) -> Seq<Seq<char>>
    decreases listed.len(),
{
    if listed.len() == 0 {
        Seq::empty()
    } else {
        base_of(listed.drop_last()) + if matches_at(listed.last(), 0, "+"@) {
            Seq::empty()
        } else {
            seq![listed.last()]
        }
    }
}

/// The stages an `all` line adds, without their `+` and surrounding spaces.
pub open spec fn extra_of(listed: Seq<Seq<char>>) -> Seq<Seq<char>>
    decreases listed.len(),
{
    if listed.len() == 0 {
        Seq::empty()
    } else {
        extra_of(listed.drop_last()) + if matches_at(listed.last(), 0, "+"@) {
            seq![
                trim(
                    listed.last().skip(
                        crate::prose::leading(listed.last(), '+', '+', 0),
                    ),
                ),
            ]
        } else {
            Seq::empty()
        }
    }
}

/// What should be running when `running` stages run: the base list,
/// and the `all` line's stages too when more than the base are running.
pub open spec fn expected_of(listed: Seq<Seq<char>>, running: int) -> Seq<Seq<char>> {
    let base = base_of(listed);
    if running > base.len() {
        base + extra_of(listed)
    } else {
        base
    }
}

/// What should be running when `running` stages run.
pub fn expected_stages(listed: &Vec<String>, running: usize) -> (r: Vec<String>)
    ensures
        crate::text::string_views(r@) == expected_of(crate::text::string_views(listed@), running as int),
{
    let ghost lv = crate::text::string_views(listed@);
    let mut base: Vec<String> = Vec::new();
    let mut extra: Vec<String> = Vec::new();
    let mut i: usize = 0;
    while i < listed.len()
        invariant
            i <= listed@.len(),
            lv == crate::text::string_views(listed@),
            crate::text::string_views(base@) == base_of(lv.take(i as int)),
            crate::text::string_views(extra@) == extra_of(lv.take(i as int)),
        decreases listed@.len() - i,
    {
        assert(lv.take(i + 1).drop_last() =~= lv.take(i as int));
        assert(lv.take(i + 1).last() == listed@[i as int]@);
        let ghost b0 = crate::text::string_views(base@);
        let ghost e0 = crate::text::string_views(extra@);
        let s = chars_of(listed[i].as_str());
        if crate::text::starts_with_str(&s, "+") {
            let k = crate::prose::leading_of(&s, '+', '+');
            let rest = slice(&s, k, s.len());
            assert(rest@ =~= s@.skip(k as int));
            let t = trimmed(&rest);
            extra.push(string_of(&t));
            assert(crate::text::string_views(extra@) =~= e0.push(t@));
        } else {
            base.push(string_of(&s));
            assert(crate::text::string_views(base@) =~= b0.push(s@));
        }
        i = i + 1;
    }
    assert(lv.take(listed@.len() as int) =~= lv);
    if running > base.len() {
        let mut j: usize = 0;
        let ghost b1 = crate::text::string_views(base@);
        let ghost ev = crate::text::string_views(extra@);
        while j < extra.len()
            invariant
                j <= extra@.len(),
                ev == crate::text::string_views(extra@),
                crate::text::string_views(base@) == b1 + ev.take(j as int),
            decreases extra@.len() - j,
        {
            let ghost was = crate::text::string_views(base@);
            base.push(string_of(&chars_of(extra[j].as_str())));
            assert(crate::text::string_views(base@) =~= was.push(ev[j as int]));
            assert(ev.take(j + 1) =~= ev.take(j as int).push(ev[j as int]));
            j = j + 1;
        }
        assert(ev.take(extra@.len() as int) =~= ev);
    }
    base
}

} // verus!
