//! What is wrong with one documented command, if anything.
//!
//! Whether a path exists is asked of the file system by the caller: `probes`
//! says which path each word would have checked, and `fault` decides, given
//! the answers, what is wrong.

use vstd::prelude::*;
use crate::text::{
    chars_of, contains_str, extend, find_char, joined, lemma_find_char, matches_at, occurs, slice,
    starts_with_str, string_of, string_views, views, char_index,
};

verus! {

broadcast use vstd::string::group_string_axioms;

/// Whether `w` starts with `c`.
pub open spec fn starts(w: Seq<char>, c: char) -> bool {
    w.len() > 0 && w[0] == c
}

/// Whether a word is a path this repository could be expected to contain:
/// not a flag, a shell variable, a URL, a build output, a home directory, a
/// quoted argument or a braced program.
pub open spec fn checkable_of(w: Seq<char>) -> bool {
    &&& !starts(w, '-')
    &&& !starts(w, '$')
    &&& !occurs(w, "://"@)
    &&& !matches_at(w, 0, "target/"@)
    &&& !starts(w, '~')
    &&& !starts(w, '\'')
    &&& !starts(w, '"')
    &&& !occurs(w, "{"@)
}

/// Whether a word is a path this repository could be expected to contain.
///
/// A URL is somebody else's; a shell variable is not resolvable from here; and
/// `target/` is a build output that exists after a build and not before, so
/// requiring it would fail a gate on a clean clone.
pub fn checkable(word: &[char]) -> (r: bool)
    ensures
        r == checkable_of(word@),
{
    let first = if word.len() > 0 {
        word[0]
    } else {
        ' '
    };
    let head = word.len() > 0;
    !(head && first == '-') && !(head && first == '$') && !contains_str(word, "://")
        && !starts_with_str(word, "target/") && !(head && first == '~') && !(head && first == '\'')
        && !(head && first == '"') && !contains_str(word, "{")
}

/// Whether `w` is one of `list`.
pub open spec fn one_of(w: Seq<char>, list: Seq<Seq<char>>) -> bool {
    list.contains(w)
}

/// Flags whose value looks like a path and is not one.
pub open spec fn not_a_path() -> Seq<Seq<char>> {
    seq![
        "--features"@,
        "-F"@,
        "--target"@,
        "--bin"@,
        "--example"@,
        "--board"@,
        "-e"@,
        "--profile"@,
    ]
}

/// Words whose value is a path that must exist as it stands.
pub open spec fn path_flags() -> Seq<Seq<char>> {
    seq!["--manifest-path"@, "-S"@, "-C"@, "--out-dir"@, "open"@]
}

/// Words whose value is a package of this workspace.
pub open spec fn package_flags() -> Seq<Seq<char>> {
    seq!["-p"@, "--package"@]
}

/// A word with every leading `./` removed.
pub open spec fn without_dots(w: Seq<char>) -> Seq<char>
    decreases w.len(),
{
    if matches_at(w, 0, "./"@) && w.len() >= 2 {
        without_dots(w.skip(2))
    } else {
        w
    }
}

/// The first component of a relative path.
pub open spec fn first_component(w: Seq<char>) -> Seq<char> {
    let t = without_dots(w);
    t.take(find_char(t, '/', 0))
}

/// Whether word `i` reads as a path: at the start only with an explicit
/// `./`, elsewhere also with a `/` in a word that is not a flag or a
/// variable.
pub open spec fn reads_as_path(parts: Seq<Seq<char>>, i: int) -> bool {
    let w = parts[i];
    if i == 0 {
        matches_at(w, 0, "./"@)
    } else {
        matches_at(w, 0, "./"@) || (occurs(w, "/"@) && !starts(w, '-') && !starts(w, '$'))
    }
}

/// The path whose existence decides word `i`, if any: the whole word after a
/// flag that takes a path, or the first component of a bare relative path.
pub open spec fn probe_of(parts: Seq<Seq<char>>, i: int) -> Option<Seq<char>> {
    let w = parts[i];
    if i > 0 && one_of(parts[i - 1], path_flags()) {
        if checkable_of(w) {
            Some(w)
        } else {
            None
        }
    } else {
        let flag_value = i > 0 && one_of(parts[i - 1], not_a_path());
        let first = first_component(w);
        if !flag_value && reads_as_path(parts, i) && checkable_of(w) && first.len() > 0 && !occurs(
            first,
            "*"@,
        ) {
            Some(first)
        } else {
            None
        }
    }
}

/// The path each word of a command would have checked.
pub open spec fn probes_of(parts: Seq<Seq<char>>) -> Seq<Option<Seq<char>>> {
    Seq::new(parts.len(), |i: int| probe_of(parts, i))
}

/// What is wrong with word `i`, given whether each word's probe exists.
pub open spec fn word_faults(
    parts: Seq<Seq<char>>,
    packages: Seq<Seq<char>>,
    found: Seq<bool>,
    ours: bool,
    i: int,
) -> Seq<Seq<char>> {
    let w = parts[i];
    let package = if ours && one_of(w, package_flags()) && i + 1 < parts.len() && !packages.contains(
        parts[i + 1],
    ) {
        seq![
            "`-p "@ + parts[i + 1] + "` is not a package here (this workspace has "@ + joined(
                packages,
                ", "@,
            ) + ")"@,
        ]
    } else {
        Seq::empty()
    };
    let missing = if one_of(w, path_flags()) && i + 1 < parts.len() && checkable_of(parts[i + 1])
        && !found[i + 1] {
        seq!["`"@ + w + " "@ + parts[i + 1] + "` does not exist"@]
    } else {
        Seq::empty()
    };
    let bare = match probe_of(parts, i) {
        Some(first) if !(i > 0 && one_of(parts[i - 1], path_flags())) && !found[i] => seq![
            "`"@ + w + "` starts at `"@ + first + "`, which is not here"@,
        ],
        _ => Seq::empty(),
    };
    package + missing + bare
}

/// What is wrong with the first `k` words.
pub open spec fn faults_upto(
    parts: Seq<Seq<char>>,
    packages: Seq<Seq<char>>,
    found: Seq<bool>,
    ours: bool,
    k: nat,
) -> Seq<Seq<char>>
    decreases k,
{
    if k == 0 || k > parts.len() {
        Seq::empty()
    } else {
        faults_upto(parts, packages, found, ours, (k - 1) as nat) + word_faults(
            parts,
            packages,
            found,
            ours,
            k - 1,
        )
    }
}

/// What is wrong with one command, given whether each word's probe exists.
pub open spec fn fault_of(parts: Seq<Seq<char>>, packages: Seq<Seq<char>>, found: Seq<bool>, ours: bool) -> Seq<Seq<char>> {
    faults_upto(parts, packages, found, ours, parts.len())
}

/// Whether `w` is one of the literals in `list`.
fn is_one_of(w: &[char], list: &Vec<&'static str>) -> (r: bool)
    ensures
        r == one_of(w@, views(list@)),
{
    let mut i: usize = 0;
    while i < list.len()
        invariant
            i <= list@.len(),
            forall|k: int| 0 <= k < i ==> views(list@)[k] != w@,
        decreases list@.len() - i,
    {
        let x = chars_of(list[i]);
        if crate::text::same_chars(&x, w) {
            assert(views(list@)[i as int] == w@);
            return true;
        }
        i = i + 1;
    }
    false
}

fn not_a_path_list() -> (r: Vec<&'static str>)
    ensures
        views(r@) == not_a_path(),
{
    let r = vec!["--features", "-F", "--target", "--bin", "--example", "--board", "-e", "--profile"];
    assert(views(r@) =~= not_a_path());
    r
}

fn path_flag_list() -> (r: Vec<&'static str>)
    ensures
        views(r@) == path_flags(),
{
    let r = vec!["--manifest-path", "-S", "-C", "--out-dir", "open"];
    assert(views(r@) =~= path_flags());
    r
}

fn package_flag_list() -> (r: Vec<&'static str>)
    ensures
        views(r@) == package_flags(),
{
    let r = vec!["-p", "--package"];
    assert(views(r@) =~= package_flags());
    r
}

/// The first component of a relative path.
fn first_part(w: &[char]) -> (r: Vec<char>)
    ensures
        r@ == first_component(w@),
{
    proof {
        reveal_strlit("./");
    }
    let mut k: usize = 0;
    assert(w@.skip(0) =~= w@);
    assert("./"@ =~= seq!['.', '/']);
    while w.len() - k >= 2 && w[k] == '.' && w[k + 1] == '/'
        invariant
            k <= w@.len(),
            "./"@ =~= seq!['.', '/'],
            without_dots(w@) == without_dots(w@.skip(k as int)),
        decreases w@.len() - k,
    {
        assert(w@.skip(k as int).skip(2) =~= w@.skip(k + 2));
        assert(matches_at(w@.skip(k as int), 0, "./"@)) by {
            assert(w@.skip(k as int).subrange(0, 2) =~= "./"@);
        }
        k = k + 2;
    }
    let t = slice(w, k, w.len());
    assert(t@ =~= w@.skip(k as int));
    assert(without_dots(t@) == t@) by {
        if matches_at(t@, 0, "./"@) && t@.len() >= 2 {
            assert(t@[0] == "./"@[0] && t@[1] == "./"@[1]) by {
                assert(t@.subrange(0, 2)[0] == t@[0]);
                assert(t@.subrange(0, 2)[1] == t@[1]);
            }
        }
    }
    let end = char_index(&t, '/', 0);
    let r = slice(&t, 0, end);
    assert(r@ =~= t@.take(end as int));
    r
}

/// The characters of each word.
fn word_chars(parts: &[&str]) -> (r: Vec<Vec<char>>)
    ensures
        r@.map_values(|w: Vec<char>| w@) == views(parts@),
{
    let mut out: Vec<Vec<char>> = Vec::new();
    let mut i: usize = 0;
    while i < parts.len()
        invariant
            i <= parts@.len(),
            out@.map_values(|w: Vec<char>| w@) == views(parts@).take(i as int),
        decreases parts@.len() - i,
    {
        let ghost was = out@.map_values(|w: Vec<char>| w@);
        out.push(chars_of(parts[i]));
        assert(out@.map_values(|w: Vec<char>| w@) =~= was.push(views(parts@)[i as int]));
        assert(views(parts@).take(i + 1) =~= views(parts@).take(i as int).push(views(parts@)[i as int]));
        i = i + 1;
    }
    assert(views(parts@).take(parts@.len() as int) =~= views(parts@));
    out
}

/// The path whose existence decides word `i`, if any.
fn probe(ws: &Vec<Vec<char>>, i: usize) -> (r: Option<Vec<char>>)
    requires
        i < ws@.len(),
    ensures
        match r {
            Some(p) => probe_of(ws@.map_values(|w: Vec<char>| w@), i as int) == Some(p@),
            None => probe_of(ws@.map_values(|w: Vec<char>| w@), i as int) is None,
        },
{
    let ghost parts = ws@.map_values(|w: Vec<char>| w@);
    let w = &ws[i];
    assert(parts[i as int] == w@);
    if i > 0 {
        assert(parts[i - 1] == ws@[i - 1]@);
    }
    let flags = path_flag_list();
    if i > 0 && is_one_of(&ws[i - 1], &flags) {
        if checkable(w) {
            return Some(slice(w, 0, w.len()));
        } else {
            return None;
        }
    }
    let values = not_a_path_list();
    let flag_value = i > 0 && is_one_of(&ws[i - 1], &values);
    let head = w.len() > 0;
    let path_like = if i == 0 {
        starts_with_str(w, "./")
    } else {
        starts_with_str(w, "./") || (contains_str(w, "/") && !(head && w[0] == '-') && !(head && w[0]
            == '$'))
    };
    let first = first_part(w);
    if !flag_value && path_like && checkable(w) && first.len() > 0 && !contains_str(&first, "*") {
        Some(first)
    } else {
        None
    }
}

/// The views of a list of optional strings.
pub open spec fn option_views(v: Seq<Option<String>>) -> Seq<Option<Seq<char>>> {
    v.map_values(
        |o: Option<String>|
            match o {
                Some(s) => Some(s@),
                None => None,
            },
    )
}

/// The path each word of a command would have checked, for the caller to
/// look for.
pub fn probes(parts: &[&str]) -> (r: Vec<Option<String>>)
    ensures
        option_views(r@) == probes_of(views(parts@)),
{
    let ws = word_chars(parts);
    let mut out: Vec<Option<String>> = Vec::new();
    let mut i: usize = 0;
    while i < ws.len()
        invariant
            i <= ws@.len(),
            ws@.map_values(|w: Vec<char>| w@) == views(parts@),
            option_views(out@) == probes_of(views(parts@)).take(i as int),
        decreases ws@.len() - i,
    {
        let ghost was = option_views(out@);
        let p = match probe(&ws, i) {
            Some(p) => Some(string_of(&p)),
            None => None,
        };
        out.push(p);
        assert(option_views(out@) =~= was.push(probe_of(views(parts@), i as int)));
        assert(probes_of(views(parts@)).take(i + 1) =~= probes_of(views(parts@)).take(i as int).push(
            probe_of(views(parts@), i as int),
        ));
        i = i + 1;
    }
    assert(probes_of(views(parts@)).take(ws@.len() as int) =~= probes_of(views(parts@)));
    out
}

/// Appends the literal `s` to `v`.
fn append_str(v: &mut Vec<char>, s: &str)
    ensures
        final(v)@ == old(v)@ + s@,
{
    let c = chars_of(s);
    extend(v, &c);
}

/// Whether `name` is one of `packages`.
fn has_package(packages: &[String], name: &[char]) -> (r: bool)
    ensures
        r == string_views(packages@).contains(name@),
{
    let mut i: usize = 0;
    while i < packages.len()
        invariant
            i <= packages@.len(),
            forall|k: int| 0 <= k < i ==> string_views(packages@)[k] != name@,
        decreases packages@.len() - i,
    {
        let p = chars_of(packages[i].as_str());
        if crate::text::same_chars(&p, name) {
            assert(string_views(packages@)[i as int] == name@);
            return true;
        }
        i = i + 1;
    }
    false
}

/// What is wrong with one command, if anything, given for each word whether
/// the path `probes` named for it exists.
///
/// `ours` is false for a command whose verb belongs to another tool: its
/// paths are still read, but its flags are not, because `-p` means something
/// else to somebody else's program. `packages` are the workspace's, in order.
pub fn fault(parts: &[&str], packages: &[String], found: &[bool], ours: bool) -> (r: Vec<String>)
    requires
        found@.len() == parts@.len(),
    ensures
        string_views(r@) == fault_of(views(parts@), string_views(packages@), found@, ours),
{
    let ws = word_chars(parts);
    let ghost pv = views(parts@);
    let ghost kv = string_views(packages@);
    let mut names: Vec<Vec<char>> = Vec::new();
    let mut j: usize = 0;
    while j < packages.len()
        invariant
            j <= packages@.len(),
            kv == string_views(packages@),
            names@.map_values(|w: Vec<char>| w@) == kv.take(j as int),
        decreases packages@.len() - j,
    {
        let ghost was = names@.map_values(|w: Vec<char>| w@);
        names.push(chars_of(packages[j].as_str()));
        assert(names@.map_values(|w: Vec<char>| w@) =~= was.push(kv[j as int]));
        assert(kv.take(j + 1) =~= kv.take(j as int).push(kv[j as int]));
        j = j + 1;
    }
    assert(kv.take(packages@.len() as int) =~= kv);
    proof {
        reveal_strlit(", ");
    }
    let comma = vec![',', ' '];
    assert(comma@ =~= ", "@);
    let listed = crate::text::join(&names, &comma);
    let flags = path_flag_list();
    let package_words = package_flag_list();
    let mut out: Vec<String> = Vec::new();
    let mut i: usize = 0;
    while i < ws.len()
        invariant
            i <= ws@.len(),
            ws@.map_values(|w: Vec<char>| w@) == pv,
            pv == views(parts@),
            kv == string_views(packages@),
            found@.len() == parts@.len(),
            listed@ == joined(kv, ", "@),
            views(flags@) == path_flags(),
            views(package_words@) == package_flags(),
            string_views(out@) == faults_upto(pv, kv, found@, ours, i as nat),
        decreases ws@.len() - i,
    {
        let ghost was = string_views(out@);
        let w = &ws[i];
        assert(pv[i as int] == w@);
        let last = i + 1 == ws.len();
        if i + 1 < ws.len() {
            assert(pv[i + 1] == ws@[i + 1]@);
        }
        if i > 0 {
            assert(pv[i - 1] == ws@[i - 1]@);
        }
        // A package that is not here.
        if ours && is_one_of(w, &package_words) && !last && !has_package(packages, &ws[i + 1]) {
            let mut m = chars_of("`-p ");
            extend(&mut m, &ws[i + 1]);
            append_str(&mut m, "` is not a package here (this workspace has ");
            extend(&mut m, &listed);
            append_str(&mut m, ")");
            out.push(string_of(&m));
        }
        let ghost after_package = string_views(out@);
        // A path after a flag that takes one, and is not here.
        if is_one_of(w, &flags) && !last && checkable(&ws[i + 1]) && !found[i + 1] {
            let mut m = chars_of("`");
            extend(&mut m, w);
            append_str(&mut m, " ");
            extend(&mut m, &ws[i + 1]);
            append_str(&mut m, "` does not exist");
            out.push(string_of(&m));
        }
        let ghost after_missing = string_views(out@);
        // A bare relative path whose first component is not here.
        let claimed = i > 0 && is_one_of(&ws[i - 1], &flags);
        match probe(&ws, i) {
            Some(first) => {
                if !claimed && !found[i] {
                    let mut m = chars_of("`");
                    extend(&mut m, w);
                    append_str(&mut m, "` starts at `");
                    extend(&mut m, &first);
                    append_str(&mut m, "`, which is not here");
                    out.push(string_of(&m));
                }
            },
            None => {},
        }
        proof {
            let wf = word_faults(pv, kv, found@, ours, i as int);
            assert(string_views(out@) =~= was + wf);
        }
        i = i + 1;
    }
    out
}

} // verus!
