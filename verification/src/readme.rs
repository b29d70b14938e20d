//! Whether a README carries the headings the standard names, in order, and no
//! others.

use vstd::prelude::*;
use crate::docs::in_fence;
use crate::fences::{fences, fence_views, fenced_blocks, Fence};
use crate::text::{
    chars_of, extend, lines, lines_of, matches_at, same_chars, slice, string_of, string_views,
    trim, trimmed, views,
};

verus! {

broadcast use vstd::string::group_string_axioms;

/// The heading a line carries: what follows `## `, trimmed.
pub open spec fn heading_of(line: Seq<char>) -> Option<Seq<char>> {
    if matches_at(line, 0, "## "@) {
        Some(trim(line.skip(3)))
    } else {
        None
    }
}

/// The `##` headings of the first `k` lines that lie outside `blocks`.
pub open spec fn headings_upto(ls: Seq<Seq<char>>, blocks: Seq<crate::fences::FenceView>, k: nat) -> Seq<Seq<char>>
    decreases k,
{
    if k == 0 || k > ls.len() {
        Seq::empty()
    } else {
        let here = if in_fence(blocks, k as int) {
            Seq::empty()
        } else {
            match heading_of(ls[k - 1]) {
                Some(h) => seq![h],
                None => Seq::empty(),
            }
        };
        headings_upto(ls, blocks, (k - 1) as nat) + here
    }
}

/// The `##` headings of a page, outside fences, in order.
pub open spec fn headings_of(text: Seq<char>) -> Seq<Seq<char>> {
    headings_upto(lines_of(text), fenced_blocks(text), lines_of(text).len())
}

/// The `##` headings of a page, outside fences, in order.
pub fn headings(text: &str) -> (r: Vec<String>)
    ensures
        string_views(r@) == headings_of(text@),
{
    proof {
        reveal_strlit("## ");
    }
    let blocks = fences(text);
    let all = lines(text);
    let prefix = chars_of("## ");
    let ghost ls = views(all@);
    let ghost bv = fence_views(blocks@);
    let mut out: Vec<String> = Vec::new();
    let mut i: usize = 0;
    while i < all.len()
        invariant
            i <= all@.len(),
            ls == views(all@),
            ls == lines_of(text@),
            bv == fence_views(blocks@),
            bv == fenced_blocks(text@),
            prefix@ == "## "@,
            prefix@.len() == 3,
            string_views(out@) == headings_upto(ls, bv, i as nat),
        decreases all@.len() - i,
    {
        let ghost before = string_views(out@);
        let v = chars_of(all[i]);
        assert(ls[i as int] == v@);
        if !crate::docs::fenced(&blocks, i + 1) && crate::text::starts_at(&v, 0, &prefix) {
            let rest = slice(&v, 3, v.len());
            assert(rest@ =~= v@.skip(3));
            let h = trimmed(&rest);
            out.push(string_of(&h));
            assert(string_views(out@) =~= before + seq![h@]);
        } else {
            assert(string_views(out@) =~= before + Seq::<Seq<char>>::empty());
        }
        i = i + 1;
    }
    out
}

/// A complaint about a heading: the heading in backticks, then `tail`.
pub open spec fn complaint(h: Seq<char>, tail: Seq<char>) -> Seq<char> {
    "`## "@ + h + tail
}

/// A complaint for each found heading that is not on the list.
pub open spec fn unlisted(found: Seq<Seq<char>>, want: Seq<Seq<char>>) -> Seq<Seq<char>>
    decreases found.len(),
{
    if found.len() == 0 {
        Seq::empty()
    } else {
        unlisted(found.drop_last(), want) + if want.contains(found.last()) {
            Seq::empty()
        } else {
            seq![complaint(found.last(), "` is not on the list"@)]
        }
    }
}

/// A complaint for each of the first `k` found headings that an earlier one
/// repeats.
pub open spec fn repeated(found: Seq<Seq<char>>, k: nat) -> Seq<Seq<char>>
    decreases k,
{
    if k == 0 || k > found.len() {
        Seq::empty()
    } else {
        repeated(found, (k - 1) as nat) + if found.take(k - 1).contains(found[k - 1]) {
            seq![complaint(found[k - 1], "` appears twice"@)]
        } else {
            Seq::empty()
        }
    }
}

/// A complaint for each wanted heading that is not optional and not found.
pub open spec fn absent(want: Seq<Seq<char>>, optional: Seq<Seq<char>>, found: Seq<Seq<char>>) -> Seq<Seq<char>>
    decreases want.len(),
{
    if want.len() == 0 {
        Seq::empty()
    } else {
        absent(want.drop_last(), optional, found) + if !optional.contains(want.last())
            && !found.contains(want.last()) {
            seq![complaint(want.last(), "` is missing"@)]
        } else {
            Seq::empty()
        }
    }
}

/// Where `h` first stands in `want` at or after `c`.
pub open spec fn position(want: Seq<Seq<char>>, h: Seq<char>, c: int) -> Option<int>
    decreases want.len() - c,
{
    if c < 0 || c >= want.len() {
        None
    } else if want[c] == h {
        Some(c)
    } else {
        position(want, h, c + 1)
    }
}

/// Reading the first `k` found headings against the list in order: where
/// the list has been read to, and a complaint for each listed heading that
/// comes too late.
pub open spec fn disorder(found: Seq<Seq<char>>, want: Seq<Seq<char>>, k: nat) -> (int, Seq<Seq<char>>)
    decreases k,
{
    if k == 0 || k > found.len() {
        (0, Seq::empty())
    } else {
        let (cursor, done) = disorder(found, want, (k - 1) as nat);
        let h = found[k - 1];
        if !want.contains(h) {
            (cursor, done)
        } else {
            match position(want, h, cursor) {
                Some(at) => (at + 1, done),
                None => (cursor, done.push(complaint(h, "` is out of order"@))),
            }
        }
    }
}

/// What is wrong with one page's headings against `want`.
pub open spec fn faults_of(found: Seq<Seq<char>>, want: Seq<Seq<char>>, optional: Seq<Seq<char>>) -> Seq<Seq<char>> {
    unlisted(found, want) + repeated(found, found.len()) + absent(want, optional, found) + disorder(
        found,
        want,
        found.len(),
    ).1
}

/// Whether `h` is among `xs`.
fn listed(xs: &[&str], h: &[char]) -> (r: bool)
    ensures
        r == views(xs@).contains(h@),
{
    let mut i: usize = 0;
    while i < xs.len()
        invariant
            i <= xs@.len(),
            forall|k: int| 0 <= k < i ==> views(xs@)[k] != h@,
        decreases xs@.len() - i,
    {
        let x = chars_of(xs[i]);
        if same_chars(&x, h) {
            assert(views(xs@)[i as int] == h@);
            return true;
        }
        i = i + 1;
    }
    false
}

/// Whether `h` is among the first `k` of `xs`.
fn found_before(xs: &[Vec<char>], k: usize, h: &[char]) -> (r: bool)
    requires
        k <= xs@.len(),
    ensures
        r == xs@.map_values(|x: Vec<char>| x@).take(k as int).contains(h@),
{
    let ghost all = xs@.map_values(|x: Vec<char>| x@);
    let mut i: usize = 0;
    while i < k
        invariant
            i <= k <= xs@.len(),
            all == xs@.map_values(|x: Vec<char>| x@),
            forall|j: int| 0 <= j < i ==> all[j] != h@,
        decreases k - i,
    {
        if same_chars(&xs[i], h) {
            assert(all.take(k as int)[i as int] == h@);
            return true;
        }
        i = i + 1;
    }
    assert forall|j: int| 0 <= j < k implies all.take(k as int)[j] != h@ by {}
    false
}

/// A complaint about `h`.
fn complain(h: &[char], tail: &str) -> (r: String)
    ensures
        r@ == complaint(h@, tail@),
{
    let mut v = chars_of("`## ");
    extend(&mut v, h);
    let t = chars_of(tail);
    extend(&mut v, &t);
    string_of(&v)
}

/// What is wrong with one page's headings against `want`.
pub fn faults(found: &[String], want: &[&str], optional: &[&str]) -> (r: Vec<String>)
    ensures
        string_views(r@) == faults_of(string_views(found@), views(want@), views(optional@)),
{
    let ghost fs = string_views(found@);
    let ghost ws = views(want@);
    let ghost os = views(optional@);
    let mut hs: Vec<Vec<char>> = Vec::new();
    let mut i: usize = 0;
    while i < found.len()
        invariant
            i <= found@.len(),
            fs == string_views(found@),
            hs@.map_values(|x: Vec<char>| x@) == fs.take(i as int),
        decreases found@.len() - i,
    {
        let ghost before = hs@.map_values(|x: Vec<char>| x@);
        let h = chars_of(found[i].as_str());
        assert(h@ == fs[i as int]);
        hs.push(h);
        assert(hs@.map_values(|x: Vec<char>| x@) =~= before.push(fs[i as int]));
        assert(hs@.map_values(|x: Vec<char>| x@) =~= fs.take(i + 1));
        i = i + 1;
    }
    assert(fs.take(found@.len() as int) =~= fs);
    let ghost hv = hs@.map_values(|x: Vec<char>| x@);
    let mut out: Vec<String> = Vec::new();
    // Each found heading that is not on the list.
    let mut i: usize = 0;
    while i < hs.len()
        invariant
            i <= hs@.len(),
            hv == hs@.map_values(|x: Vec<char>| x@),
            hv == fs,
            ws == views(want@),
            string_views(out@) == unlisted(fs.take(i as int), ws),
        decreases hs@.len() - i,
    {
        let ghost before = string_views(out@);
        assert(fs.take(i + 1).drop_last() =~= fs.take(i as int));
        if !listed(want, &hs[i]) {
            out.push(complain(&hs[i], "` is not on the list"));
            assert(string_views(out@) =~= before + seq![complaint(fs[i as int], "` is not on the list"@)]);
        } else {
            assert(string_views(out@) =~= before + Seq::<Seq<char>>::empty());
        }
        i = i + 1;
    }
    assert(fs.take(hs@.len() as int) =~= fs);
    let ghost first = string_views(out@);
    // Each found heading that an earlier one repeats.
    let mut i: usize = 0;
    while i < hs.len()
        invariant
            i <= hs@.len(),
            hv == hs@.map_values(|x: Vec<char>| x@),
            hv == fs,
            string_views(out@) == first + repeated(fs, i as nat),
        decreases hs@.len() - i,
    {
        let ghost before = string_views(out@);
        if found_before(&hs, i, &hs[i]) {
            out.push(complain(&hs[i], "` appears twice"));
            assert(string_views(out@) =~= before + seq![complaint(fs[i as int], "` appears twice"@)]);
        } else {
            assert(string_views(out@) =~= before + Seq::<Seq<char>>::empty());
        }
        i = i + 1;
    }
    let ghost second = string_views(out@);
    // Each wanted heading that is neither optional nor found.
    let mut i: usize = 0;
    while i < want.len()
        invariant
            i <= want@.len(),
            hv == hs@.map_values(|x: Vec<char>| x@),
            hv == fs,
            ws == views(want@),
            os == views(optional@),
            string_views(out@) == second + absent(ws.take(i as int), os, fs),
        decreases want@.len() - i,
    {
        let ghost before = string_views(out@);
        assert(ws.take(i + 1).drop_last() =~= ws.take(i as int));
        let w = chars_of(want[i]);
        if !listed(optional, &w) && !found_before(&hs, hs.len(), &w) {
            assert(hv.take(hs@.len() as int) =~= hv);
            out.push(complain(&w, "` is missing"));
            assert(string_views(out@) =~= before + seq![complaint(ws[i as int], "` is missing"@)]);
        } else {
            assert(hv.take(hs@.len() as int) =~= hv);
            assert(string_views(out@) =~= before + Seq::<Seq<char>>::empty());
        }
        i = i + 1;
    }
    assert(ws.take(want@.len() as int) =~= ws);
    let ghost third = string_views(out@);
    // The listed headings, read against the list in order.
    let mut cursor: usize = 0;
    let mut i: usize = 0;
    while i < hs.len()
        invariant
            i <= hs@.len(),
            hv == hs@.map_values(|x: Vec<char>| x@),
            hv == fs,
            ws == views(want@),
            cursor <= want@.len(),
            cursor == disorder(fs, ws, i as nat).0,
            string_views(out@) == third + disorder(fs, ws, i as nat).1,
        decreases hs@.len() - i,
    {
        let ghost before = string_views(out@);
        let h = &hs[i];
        if listed(want, h) {
            let mut at = cursor;
            while at < want.len()
                invariant
                    cursor <= at <= want@.len(),
                    ws == views(want@),
                    position(ws, h@, cursor as int) == position(ws, h@, at as int),
                ensures
                    cursor <= at <= want@.len(),
                    position(ws, h@, cursor as int) == position(ws, h@, at as int),
                    at < want@.len() ==> ws[at as int] == h@,
                decreases want@.len() - at,
            {
                let w = chars_of(want[at]);
                if same_chars(&w, h) {
                    assert(ws[at as int] == w@);
                    break;
                }
                at = at + 1;
            }
            assert(h@ == fs[i as int]);
            if at < want.len() {
                cursor = at + 1;
                assert(string_views(out@) =~= third + disorder(fs, ws, (i + 1) as nat).1);
            } else {
                assert(position(ws, h@, at as int) is None);
                out.push(complain(h, "` is out of order"));
                assert(string_views(out@) =~= before.push(complaint(h@, "` is out of order"@)));
                assert(string_views(out@) =~= third + disorder(fs, ws, (i + 1) as nat).1);
            }
        } else {
            assert(string_views(out@) =~= third + disorder(fs, ws, (i + 1) as nat).1);
        }
        i = i + 1;
    }
    assert(string_views(out@) =~= faults_of(fs, ws, os));
    out
}

} // verus!
