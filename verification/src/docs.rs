//! Where a document's links point.
//!
//! Reading the link targets out of a page is done here; whether each one
//! exists on disk is asked of the file system by the caller.

use vstd::prelude::*;
use crate::fences::{fences, Fence, FenceView, fenced_blocks, fence_views};
use crate::text::{
    chars_of, char_index, extend, find, find_char, first_match, join, joined, lemma_find_char,
    lemma_first_match, lines, lines_of, lowercase, is_lowercase, matches_at, occurs, slice,
    starts_at, string_of, trim, trimmed, views, skip_space, lemma_skip_space, space,
};

verus! {

broadcast use vstd::string::group_string_axioms;

/// What a line of a Rust file says as a doc comment: what follows its `///`
/// or `//!` once the line's indentation is skipped, or nothing.
pub open spec fn doc_part(line: Seq<char>) -> Seq<char> {
    let t = line.skip(skip_space(line, 0));
    if matches_at(t, 0, "///"@) || matches_at(t, 0, "//!"@) {
        t.skip(3)
    } else {
        Seq::empty()
    }
}

/// A Rust file's `///` and `//!` lines, with every other line blanked so the
/// line numbers still point at the source.
pub open spec fn doc_comments_of(text: Seq<char>) -> Seq<char> {
    joined(lines_of(text).map_values(|l: Seq<char>| doc_part(l)), "\n"@)
}

/// A Rust file's `///` and `//!` lines, with every other line blanked so the
/// line numbers still point at the source.
pub fn doc_comments(text: &str) -> (r: String)
    ensures
        r@ == doc_comments_of(text@),
{
    proof {
        reveal_strlit("///");
        reveal_strlit("//!");
    }
    let all = lines(text);
    let slashes = chars_of("///");
    let bang = chars_of("//!");
    let mut parts: Vec<Vec<char>> = Vec::new();
    let mut i: usize = 0;
    while i < all.len()
        invariant
            i <= all@.len(),
            slashes@ == "///"@,
            bang@ == "//!"@,
            slashes@.len() == 3,
            bang@.len() == 3,
            parts@.map_values(|p: Vec<char>| p@) == views(all@).take(i as int).map_values(
                |l: Seq<char>| doc_part(l),
            ),
        decreases all@.len() - i,
    {
        let v = chars_of(all[i]);
        let lead = crate::text::skip_spaces(&v, 0, v.len());
        assert(v@.subrange(0, v@.len() as int) =~= v@);
        let t = slice(&v, lead, v.len());
        assert(t@ =~= v@.skip(lead as int));
        let part = if starts_at(&t, 0, &slashes) || starts_at(&t, 0, &bang) {
            slice(&t, 3, t.len())
        } else {
            Vec::new()
        };
        assert(part@ =~= doc_part(v@));
        let ghost before = parts@.map_values(|p: Vec<char>| p@);
        assert(views(all@)[i as int] == v@);
        parts.push(part);
        assert(parts@.map_values(|p: Vec<char>| p@) =~= before.push(part@));
        assert(parts@.map_values(|p: Vec<char>| p@) =~= views(all@).take(i + 1).map_values(
            |l: Seq<char>| doc_part(l),
        ));
        i = i + 1;
    }
    assert(views(all@).take(all@.len() as int) =~= views(all@));
    let newline = chars_of("\n");
    string_of(&join(&parts, &newline))
}

/// Indentation ends where the first character that is not whitespace is.
proof fn lemma_skip_indent(ws: Seq<char>, tail: Seq<char>, i: int)
    requires
        0 <= i <= ws.len(),
        forall|k: int| 0 <= k < ws.len() ==> space(#[trigger] ws[k]),
        tail.len() > 0,
        !space(tail[0]),
    ensures
        skip_space(ws + tail, i) == ws.len(),
    decreases ws.len() - i,
{
    let s = ws + tail;
    if i < ws.len() {
        assert(s[i] == ws[i]);
        lemma_skip_indent(ws, tail, i + 1);
    } else {
        assert(s[i] == tail[0]);
    }
}

/// Both kinds of doc comment are doc prose: a line that, after any
/// indentation, starts `///` or `//!` contributes everything after those
/// three characters, and so its links are read like any other.
pub proof fn both_doc_comment_kinds_are_read(ws: Seq<char>, rest: Seq<char>)
    requires
        forall|k: int| 0 <= k < ws.len() ==> space(#[trigger] ws[k]),
    ensures
        doc_part(ws + "///"@ + rest) == rest,
        doc_part(ws + "//!"@ + rest) == rest,
{
    reveal_strlit("///");
    reveal_strlit("//!");
    let inner = "///"@ + rest;
    let outer = "//!"@ + rest;
    assert(inner[0] == '/' && outer[0] == '/');
    lemma_skip_indent(ws, inner, 0);
    lemma_skip_indent(ws, outer, 0);
    assert(ws + "///"@ + rest =~= ws + inner);
    assert(ws + "//!"@ + rest =~= ws + outer);
    assert((ws + inner).skip(ws.len() as int) =~= inner);
    assert((ws + outer).skip(ws.len() as int) =~= outer);
    assert(inner.subrange(0, 3) =~= "///"@);
    assert(outer.subrange(0, 3) =~= "//!"@);
    assert(inner.skip(3) =~= rest);
    assert(outer.skip(3) =~= rest);
}

/// A line with the contents of every inline code span replaced by spaces.
pub open spec fn blanked(line: Seq<char>, i: int, inside: bool) -> Seq<char>
    decreases line.len() - i,
{
    if i < 0 || i >= line.len() {
        Seq::empty()
    } else if line[i] == '`' {
        seq!['`'] + blanked(line, i + 1, !inside)
    } else if inside {
        seq![' '] + blanked(line, i + 1, inside)
    } else {
        seq![line[i]] + blanked(line, i + 1, inside)
    }
}

/// A line with the contents of every inline `code span` replaced by spaces.
///
/// A span may hold anything, including `](`, and reading one as a link is how
/// a path check reports a fault in a sentence about paths.
pub fn blank_code_spans(line: &[char]) -> (r: Vec<char>)
    ensures
        r@ == blanked(line@, 0, false),
{
    let mut out: Vec<char> = Vec::new();
    let mut inside = false;
    let mut i: usize = 0;
    while i < line.len()
        invariant
            i <= line@.len(),
            out@ + blanked(line@, i as int, inside) == blanked(line@, 0, false),
        decreases line@.len() - i,
    {
        let ghost before = out@;
        let ghost was = inside;
        let c = line[i];
        if c == '`' {
            inside = !inside;
            out.push(c);
        } else if inside {
            out.push(' ');
        } else {
            out.push(c);
        }
        assert(out@ + blanked(line@, i + 1, inside) =~= before + blanked(line@, i as int, was));
        i = i + 1;
    }
    assert(out@ + Seq::<char>::empty() =~= out@);
    out
}

/// A link destination as a repository path, or nothing if it is not one:
/// trimmed, without angle brackets or a title, not a URL, an anchor or a
/// `mailto:`, and without its own anchor or query.
pub open spec fn destination_of(raw: Seq<char>) -> Option<Seq<char>> {
    let t = trim(raw);
    let r = if t.len() >= 2 && t[0] == '<' && t.last() == '>' {
        t.subrange(1, t.len() - 1)
    } else {
        crate::text::before_either(t, ' ', '\t')
    };
    if r.len() == 0 || matches_at(r, 0, "http"@) || r[0] == '#' || matches_at(r, 0, "mailto:"@)
        || occurs(r, "://"@) {
        None
    } else {
        let path = crate::text::before_either(r, '#', '?');
        if path.len() == 0 {
            None
        } else {
            Some(path)
        }
    }
}

/// A link destination as a repository path, or nothing if it is not one.
pub fn destination(raw: &[char]) -> (r: Option<Vec<char>>)
    ensures
        match r {
            None => destination_of(raw@) is None,
            Some(p) => destination_of(raw@) == Some(p@),
        },
{
    let t = trimmed(raw);
    let n = t.len();
    let r = if n >= 2 && t[0] == '<' && t[n - 1] == '>' {
        slice(&t, 1, n - 1)
    } else {
        crate::text::up_to_either(&t, ' ', '\t')
    };
    if r.len() == 0 || crate::text::starts_with_str(&r, "http") || r[0] == '#'
        || crate::text::starts_with_str(&r, "mailto:") || crate::text::contains_str(&r, "://") {
        return None;
    }
    let path = crate::text::up_to_either(&r, '#', '?');
    if path.len() == 0 {
        None
    } else {
        Some(path)
    }
}

/// Whether a bare word names a Rust item rather than a file: `::` says item,
/// a dot says file, and otherwise a word with a lowercase letter is an item.
pub open spec fn names_item(word: Seq<char>) -> bool {
    if occurs(word, "::"@) {
        true
    } else if occurs(word, "."@) {
        false
    } else {
        exists|i: int| 0 <= i < word.len() && lowercase(#[trigger] word[i])
    }
}

/// Whether a bare word names a Rust item rather than a file.
///
/// `::` says item; a dot says file. Otherwise: a file named without an
/// extension is shouted (`LICENSE`, `README`), and a Rust path never is —
/// modules are lowercase, types CamelCase. No lowercase letter means a file.
pub fn names_a_rust_item(word: &str) -> (r: bool)
    ensures
        r == names_item(word@),
{
    let w = chars_of(word);
    if crate::text::contains_str(&w, "::") {
        return true;
    }
    if crate::text::contains_str(&w, ".") {
        return false;
    }
    let mut i: usize = 0;
    while i < w.len()
        invariant
            i <= w@.len(),
            w@ == word@,
            !occurs(word@, "::"@),
            !occurs(word@, "."@),
            forall|k: int| 0 <= k < i ==> !lowercase(#[trigger] w@[k]),
        decreases w@.len() - i,
    {
        if is_lowercase(w[i]) {
            assert(lowercase(word@[i as int]));
            return true;
        }
        i = i + 1;
    }
    false
}

/// The link destinations in `l[pos..]` that are repository paths, in order.
pub open spec fn targets_from(l: Seq<char>, pos: int) -> Seq<Seq<char>>
    decreases l.len() - pos,
{
    if pos < 0 || pos > l.len() {
        Seq::empty()
    } else {
        proof {
            lemma_first_match(l, seq![']', '('], pos);
        }
        match first_match(l, seq![']', '('], pos) {
            None => Seq::empty(),
            Some(open) => {
                let a = open + 2;
                let close = find_char(l, ')', a);
                proof {
                    if a <= l.len() {
                        lemma_find_char(l, ')', a);
                    }
                }
                if a > l.len() || close >= l.len() {
                    Seq::empty()
                } else {
                    let found = match destination_of(l.subrange(a, close)) {
                        Some(t) => seq![t],
                        None => Seq::empty(),
                    };
                    found + targets_from(l, close)
                }
            },
        }
    }
}

/// Whether line `n` lies inside one of `blocks`.
pub open spec fn in_fence(blocks: Seq<FenceView>, n: int) -> bool {
    exists|b: int, j: int|
        0 <= b < blocks.len() && 0 <= j < blocks[b].lines.len() && #[trigger] blocks[b].lines[j].0
            == n
}

/// The links of the first `k` lines, each with its line's number.
pub open spec fn links_upto(ls: Seq<Seq<char>>, blocks: Seq<FenceView>, k: nat) -> Seq<(int, Seq<char>)>
    decreases k,
{
    if k == 0 || k > ls.len() {
        Seq::empty()
    } else {
        let here = if in_fence(blocks, k as int) {
            Seq::empty()
        } else {
            targets_from(blanked(ls[k - 1], 0, false), 0).map_values(|t: Seq<char>| (k as int, t))
        };
        links_upto(ls, blocks, (k - 1) as nat) + here
    }
}

/// The relative file paths a document's links name, with their line numbers,
/// outside fences and code spans.
pub open spec fn links_of(text: Seq<char>) -> Seq<(int, Seq<char>)> {
    links_upto(lines_of(text), fenced_blocks(text), lines_of(text).len())
}

/// Whether line `n` lies inside one of `blocks`.
pub(crate) fn fenced(blocks: &Vec<Fence>, n: usize) -> (r: bool)
    ensures
        r == in_fence(fence_views(blocks@), n as int),
{
    let ghost bv = fence_views(blocks@);
    let mut b: usize = 0;
    while b < blocks.len()
        invariant
            b <= blocks@.len(),
            bv == fence_views(blocks@),
            forall|x: int, j: int|
                0 <= x < b && 0 <= j < bv[x].lines.len() ==> #[trigger] bv[x].lines[j].0 != n,
        decreases blocks@.len() - b,
    {
        let block = &blocks[b];
        assert(bv[b as int] == block@);
        let mut j: usize = 0;
        while j < block.lines.len()
            invariant
                j <= block.lines@.len(),
                b < bv.len(),
                bv == fence_views(blocks@),
                bv[b as int] == block@,
                forall|y: int| 0 <= y < j ==> #[trigger] bv[b as int].lines[y].0 != n,
            decreases block.lines@.len() - j,
        {
            if block.lines[j].0 == n {
                assert(bv[b as int].lines[j as int].0 == n);
                assert(0 <= b < bv.len() && 0 <= j < bv[b as int].lines.len());
                return true;
            }
            j = j + 1;
        }
        b = b + 1;
    }
    false
}

/// The link destinations in a line that are repository paths.
fn targets(l: &[char]) -> (r: Vec<Vec<char>>)
    ensures
        r@.map_values(|t: Vec<char>| t@) == targets_from(l@, 0),
{
    let pat = vec![']', '('];
    let n = l.len();
    let mut out: Vec<Vec<char>> = Vec::new();
    let mut pos: usize = 0;
    loop
        invariant
            n == l@.len(),
            pos <= n,
            pat@ == seq![']', '('],
            out@.map_values(|t: Vec<char>| t@) + targets_from(l@, pos as int) == targets_from(l@, 0),
        decreases n - pos,
    {
        let ghost before = out@.map_values(|t: Vec<char>| t@);
        proof {
            lemma_first_match(l@, pat@, pos as int);
        }
        match find(l, &pat, pos) {
            None => {
                assert(before + Seq::<Seq<char>>::empty() =~= before);
                return out;
            },
            Some(open) => {
                let a = open + 2;
                let close = char_index(l, ')', a);
                if close >= n {
                    assert(before + Seq::<Seq<char>>::empty() =~= before);
                    return out;
                }
                let inner = slice(l, a, close);
                match destination(&inner) {
                    Some(t) => {
                        out.push(t);
                        assert(out@.map_values(|t: Vec<char>| t@) =~= before + seq![t@]);
                    },
                    None => {
                        assert(out@.map_values(|t: Vec<char>| t@) =~= before + Seq::<Seq<char>>::empty());
                    },
                }
                proof {
                    lemma_find_char(l@, ')', a as int);
                }
                assert(out@.map_values(|t: Vec<char>| t@) + targets_from(l@, close as int) =~= before
                    + targets_from(l@, pos as int));
                pos = close;
            },
        }
    }
}

/// The views of a list of numbered strings.
pub open spec fn numbered_views(v: Seq<(usize, String)>) -> Seq<(int, Seq<char>)> {
    v.map_values(|p: (usize, String)| (p.0 as int, p.1@))
}

/// The relative file paths `[text](target)` names, with their line numbers.
///
/// Not a markdown parser. It skips links inside a fence or a `code span`,
/// URLs, anchors and `mailto:`; strips a CommonMark title (`[a](x.md "Title")`)
/// and angle brackets (`[a](<a b.md>)`); and returns a bare word for the
/// filesystem to judge.
pub fn links(text: &str) -> (r: Vec<(usize, String)>)
    ensures
        numbered_views(r@) == links_of(text@),
{
    let blocks = fences(text);
    let all = lines(text);
    let ghost ls = views(all@);
    let ghost bv = fence_views(blocks@);
    let mut out: Vec<(usize, String)> = Vec::new();
    let mut i: usize = 0;
    while i < all.len()
        invariant
            i <= all@.len(),
            ls == views(all@),
            ls == lines_of(text@),
            bv == fence_views(blocks@),
            bv == fenced_blocks(text@),
            numbered_views(out@) == links_upto(ls, bv, i as nat),
        decreases all@.len() - i,
    {
        let number = i + 1;
        let ghost before = numbered_views(out@);
        if !crate::docs::fenced(&blocks, number) {
            let v = chars_of(all[i]);
            assert(ls[i as int] == v@);
            let line = blank_code_spans(&v);
            let found = targets(&line);
            let ghost fv = found@.map_values(|t: Vec<char>| t@);
            let mut j: usize = 0;
            while j < found.len()
                invariant
                    j <= found@.len(),
                    fv == found@.map_values(|t: Vec<char>| t@),
                    numbered_views(out@) == before + fv.take(j as int).map_values(
                        |t: Seq<char>| (number as int, t),
                    ),
                decreases found@.len() - j,
            {
                let ghost was = numbered_views(out@);
                out.push((number, string_of(&found[j])));
                assert(numbered_views(out@) =~= was.push((number as int, fv[j as int])));
                assert(fv.take(j + 1).map_values(|t: Seq<char>| (number as int, t)) =~= fv.take(
                    j as int,
                ).map_values(|t: Seq<char>| (number as int, t)).push((number as int, fv[j as int])));
                j = j + 1;
            }
            assert(fv.take(found@.len() as int) =~= fv);
        } else {
            assert(numbered_views(out@) =~= before + Seq::<(int, Seq<char>)>::empty());
        }
        i = i + 1;
    }
    out
}

} // verus!
