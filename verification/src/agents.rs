//! `AGENTS.md`: that the stages it documents are the stages that run.
//! Reading the file is the caller's.

use vstd::prelude::*;
use crate::text::{chars_of, decimal, decimal_of, extend, join, joined, same_chars, string_of, string_views};
use crate::tree::{documented_of, documented_stages, expected_of, expected_stages};

verus! {

broadcast use vstd::string::group_string_axioms;

/// The separator between stages in a message.
pub open spec fn dot() -> Seq<char> {
    " · "@
}

/// What the stage comparison says: `not adopted` where `AGENTS.md` lists no
/// stages, the count where the running stages are the documented ones in
/// order, and both lists where they are not.
pub open spec fn stages_report_of(text: Seq<char>, running: Seq<Seq<char>>) -> Result<Seq<char>, Seq<char>> {
    match documented_of(text) {
        None => Ok("not adopted"@),
        Some(listed) => if listed.len() == 0 {
            Ok("not adopted"@)
        } else {
            let expected = expected_of(listed, running.len() as int);
            if running == expected {
                Ok(decimal(running.len()) + " stages, as documented"@)
            } else {
                Err(
                    "  AGENTS.md lists: "@ + joined(expected, dot()) + "\n  the "@ + "gate runs:   "@
                        + joined(running, dot())
                        + "\n\nCopy what ./build-and-test.sh prints; do not type it."@,
                )
            }
        },
    }
}

/// Whether two lists of strings are the same, in order.
fn same_strings(a: &Vec<String>, b: &Vec<String>) -> (r: bool)
    ensures
        r == (string_views(a@) == string_views(b@)),
{
    if a.len() != b.len() {
        assert(string_views(a@).len() != string_views(b@).len());
        return false;
    }
    let mut i: usize = 0;
    while i < a.len()
        invariant
            i <= a@.len(),
            a@.len() == b@.len(),
            forall|k: int| 0 <= k < i ==> a@[k]@ == b@[k]@,
        decreases a@.len() - i,
    {
        if !same_chars(&chars_of(a[i].as_str()), &chars_of(b[i].as_str())) {
            assert(string_views(a@)[i as int] != string_views(b@)[i as int]);
            return false;
        }
        i = i + 1;
    }
    assert(string_views(a@) =~= string_views(b@));
    true
}

/// The characters of each string.
fn char_lists(v: &Vec<String>) -> (r: Vec<Vec<char>>)
    ensures
        r@.map_values(|w: Vec<char>| w@) == string_views(v@),
{
    let mut out: Vec<Vec<char>> = Vec::new();
    let mut i: usize = 0;
    while i < v.len()
        invariant
            i <= v@.len(),
            out@.map_values(|w: Vec<char>| w@) == string_views(v@).take(i as int),
        decreases v@.len() - i,
    {
        let ghost was = out@.map_values(|w: Vec<char>| w@);
        out.push(chars_of(v[i].as_str()));
        assert(out@.map_values(|w: Vec<char>| w@) =~= was.push(v@[i as int]@));
        assert(string_views(v@).take(i + 1) =~= string_views(v@).take(i as int).push(v@[i as int]@));
        i = i + 1;
    }
    assert(string_views(v@).take(v@.len() as int) =~= string_views(v@));
    out
}

/// Whether the stages `AGENTS.md` documents are the stages running now, in
/// order: an `all` line's stages are compared only when more than the base
/// list runs.
pub fn stages_report(text: &str, running: &Vec<String>) -> (r: Result<String, String>)
    ensures
        match r {
            Ok(m) => stages_report_of(text@, string_views(running@)) == Ok::<Seq<char>, Seq<char>>(m@),
            Err(m) => stages_report_of(text@, string_views(running@)) == Err::<Seq<char>, Seq<char>>(m@),
        },
{
    match documented_stages(text) {
        None => Ok(string_of(&chars_of("not adopted"))),
        Some(listed) => {
            if listed.len() == 0 {
                assert(string_views(listed@).len() == 0);
                return Ok(string_of(&chars_of("not adopted")));
            }
            let expected = expected_stages(&listed, running.len());
            let sep = chars_of(" · ");
            if same_strings(running, &expected) {
                let mut m = decimal_of(running.len());
                extend(&mut m, &chars_of(" stages, as documented"));
                Ok(string_of(&m))
            } else {
                let mut m = chars_of("  AGENTS.md lists: ");
                extend(&mut m, &join(&char_lists(&expected), &sep));
                extend(&mut m, &chars_of("\n  the "));
                extend(&mut m, &chars_of("gate runs:   "));
                extend(&mut m, &join(&char_lists(running), &sep));
                extend(&mut m, &chars_of("\n\nCopy what ./build-and-test.sh prints; do not type it."));
                Err(string_of(&m))
            }
        },
    }
}

/// The documented stages pass only when they are the running ones, in
/// order: where `AGENTS.md` lists stages, the check passes exactly when the
/// running list equals what the list expects of that many stages.
pub proof fn stages_pass_only_in_order(text: Seq<char>, running: Seq<Seq<char>>)
    requires
        documented_of(text) matches Some(listed) && listed.len() > 0,
    ensures
        (stages_report_of(text, running) is Ok) <==> running == expected_of(documented_of(text)->0, running.len() as int),
{
}

/// An `all` line is compared only when all is running: with no more stages
/// running than the base list holds, what is expected is the base list.
pub proof fn an_all_line_waits_for_all(listed: Seq<Seq<char>>, running: int)
    requires
        running <= crate::tree::base_of(listed).len(),
    ensures
        expected_of(listed, running) == crate::tree::base_of(listed),
{
}


/// What stands on disk under the name the link is read by.
#[derive(Debug, PartialEq, Eq)]
pub enum Link {
    /// Nothing.
    Missing,
    /// A plain file: a checkout that does not keep links turned it into one.
    File,
    /// A link that could not be read, and why.
    Unreadable(String),
    /// A link, and the path it points at as written.
    Points(String),
}

/// What the link check says: `not adopted` unless required; otherwise
/// `AGENTS.md` must be a file, and the link named `name` a relative link to
/// it, its target written as `AGENTS.md` exactly.
pub open spec fn link_report_of(required: bool, agents_is_file: bool, name: Seq<char>, link: Link) -> Result<
    Seq<char>,
    Seq<char>,
> {
    if !required {
        Ok("not adopted"@)
    } else if !agents_is_file {
        Err("  AGENTS.md is missing"@)
    } else {
        match link {
            Link::Missing => Err("  "@ + name + " is missing"@),
            Link::File => Err(
                "  "@ + name + " is a file, not a symlink to AGENTS.md \u{2014} a checkout with\ncore.symlinks=false turns a link into a text file; re-link it"@,
            ),
            Link::Unreadable(why) => Err("  "@ + name + ": "@ + why@),
            Link::Points(target) => if target@ == "AGENTS.md"@ {
                Ok("AGENTS.md, and "@ + name + " \u{2192} AGENTS.md"@)
            } else {
                Err("  "@ + name + " points at "@ + target@ + ", not AGENTS.md \u{2014} the link must be relative"@)
            },
        }
    }
}

/// Whether `AGENTS.md` is a file and the link named `name` points at it
/// relatively. Looking at the disk is the caller's: it hands over whether
/// `AGENTS.md` is a file and what stands under `name`.
pub fn link_report(required: bool, agents_is_file: bool, name: &str, link: &Link) -> (r: Result<String, String>)
    ensures
        match r {
            Ok(m) => link_report_of(required, agents_is_file, name@, *link) == Ok::<Seq<char>, Seq<char>>(m@),
            Err(m) => link_report_of(required, agents_is_file, name@, *link) == Err::<Seq<char>, Seq<char>>(m@),
        },
{
    proof {
        reveal_strlit("not adopted");
        reveal_strlit("  AGENTS.md is missing");
        reveal_strlit("  ");
        reveal_strlit(" is missing");
        reveal_strlit(" is a file, not a symlink to AGENTS.md \u{2014} a checkout with\ncore.symlinks=false turns a link into a text file; re-link it");
        reveal_strlit(": ");
        reveal_strlit("AGENTS.md");
        reveal_strlit("AGENTS.md, and ");
        reveal_strlit(" \u{2192} AGENTS.md");
        reveal_strlit(" points at ");
        reveal_strlit(", not AGENTS.md \u{2014} the link must be relative");
    }
    if !required {
        return Ok(string_of(&chars_of("not adopted")));
    }
    if !agents_is_file {
        return Err(string_of(&chars_of("  AGENTS.md is missing")));
    }
    let mut m = chars_of("  ");
    match link {
        Link::Missing => {
            extend(&mut m, &chars_of(name));
            extend(&mut m, &chars_of(" is missing"));
            Err(string_of(&m))
        },
        Link::File => {
            extend(&mut m, &chars_of(name));
            extend(
                &mut m,
                &chars_of(" is a file, not a symlink to AGENTS.md \u{2014} a checkout with\ncore.symlinks=false turns a link into a text file; re-link it"),
            );
            Err(string_of(&m))
        },
        Link::Unreadable(why) => {
            extend(&mut m, &chars_of(name));
            extend(&mut m, &chars_of(": "));
            extend(&mut m, &chars_of(why.as_str()));
            Err(string_of(&m))
        },
        Link::Points(target) => {
            if same_chars(&chars_of(target.as_str()), &chars_of("AGENTS.md")) {
                let mut ok = chars_of("AGENTS.md, and ");
                extend(&mut ok, &chars_of(name));
                extend(&mut ok, &chars_of(" \u{2192} AGENTS.md"));
                Ok(string_of(&ok))
            } else {
                extend(&mut m, &chars_of(name));
                extend(&mut m, &chars_of(" points at "));
                extend(&mut m, &chars_of(target.as_str()));
                extend(&mut m, &chars_of(", not AGENTS.md \u{2014} the link must be relative"));
                Err(string_of(&m))
            }
        },
    }
}

} // verus!
