//! Text as the checks read it: characters, lines, whitespace and words.
//!
//! Every reading here is stated over the text's characters, so the checks
//! built on it say exactly which lines, words and spans they look at.

use vstd::prelude::*;
use vstd::string::StrSliceExecFns;

verus! {

broadcast use vstd::string::group_string_axioms;

/// The characters of `s`, in order.
pub fn chars_of(s: &str) -> (v: Vec<char>)
    ensures
        v@ == s@,
{
    let mut v: Vec<char> = Vec::new();
    for c in it: s.chars()
        invariant
            it.seq() == s@,
            v@ == s@.take(it.index() as int),
    {
        assert(s@.take(it.index() + 1) =~= s@.take(it.index() as int).push(c));
        v.push(c);
    }
    assert(s@.take(s@.len() as int) =~= s@);
    v
}

/// Appends `c` to `s`: `String::push`, which adds one character at the end.
#[verifier::external_body]
pub(crate) fn push(s: &mut String, c: char)
    ensures
        final(s)@ == old(s)@.push(c),
{
    s.push(c)
}

/// The string holding exactly the characters of `v`.
pub fn string_of(v: &[char]) -> (s: String)
    ensures
        s@ == v@,
{
    let mut s = String::new();
    let mut i: usize = 0;
    while i < v.len()
        invariant
            i <= v@.len(),
            s@ == v@.take(i as int),
        decreases v@.len() - i,
    {
        assert(v@.take(i + 1) =~= v@.take(i as int).push(v@[i as int]));
        push(&mut s, v[i]);
        i = i + 1;
    }
    assert(v@.take(v@.len() as int) =~= v@);
    s
}

/// What `str::to_lowercase` makes of a string: its Unicode lowercase mapping.
pub uninterp spec fn lowercased(s: Seq<char>) -> Seq<char>;

/// An ASCII letter in lower case, and every other character as it is.
pub open spec fn ascii_lower(c: char) -> char {
    if 'A' <= c <= 'Z' {
        ((c as u32) + 32) as char
    } else {
        c
    }
}

/// Whether every character of `s` is ASCII.
pub open spec fn all_ascii(s: Seq<char>) -> bool {
    forall|i: int| 0 <= i < s.len() ==> (s[i] as u32) < 128
}

/// `str::to_lowercase`: the lowercase equivalent of `s`. For ASCII text that
/// is each capital letter in lower case and every other character unchanged,
/// as the documentation of `char::to_ascii_lowercase` agrees; beyond ASCII
/// the mapping is Unicode's and is only named here.
#[verifier::external_body]
pub(crate) fn to_lowercase(s: &str) -> (r: String)
    ensures
        r@ == lowercased(s@),
        all_ascii(s@) ==> r@ == s@.map_values(|c: char| ascii_lower(c)),
{
    s.to_lowercase()
}

/// Whether `c` is whitespace, as `char::is_whitespace` answers: the Unicode
/// `White_Space` property.
pub open spec fn space(c: char) -> bool {
    ||| '\t' <= c <= '\r'
    ||| c == ' '
    ||| c == '\u{85}'
    ||| c == '\u{A0}'
    ||| c == '\u{1680}'
    ||| '\u{2000}' <= c <= '\u{200A}'
    ||| c == '\u{2028}'
    ||| c == '\u{2029}'
    ||| c == '\u{202F}'
    ||| c == '\u{205F}'
    ||| c == '\u{3000}'
}

/// Whether `c` is whitespace.
pub fn is_space(c: char) -> (r: bool)
    ensures
        r == space(c),
{
    ('\t' <= c && c <= '\r') || c == ' ' || c == '\u{85}' || c == '\u{A0}' || c == '\u{1680}' || (
    '\u{2000}' <= c && c <= '\u{200A}') || c == '\u{2028}' || c == '\u{2029}' || c == '\u{202F}'
        || c == '\u{205F}' || c == '\u{3000}'
}

/// Where the first character at or after `i` that is not whitespace sits, or
/// the end.
pub open spec fn skip_space(s: Seq<char>, i: int) -> int
    decreases s.len() - i,
{
    if i < 0 || i >= s.len() || !space(s[i]) {
        i
    } else {
        skip_space(s, i + 1)
    }
}

/// Where trailing whitespace before `j` begins.
pub open spec fn back_space(s: Seq<char>, j: int) -> int
    decreases j,
{
    if j <= 0 || j > s.len() || !space(s[j - 1]) {
        j
    } else {
        back_space(s, j - 1)
    }
}

/// `s` without leading whitespace.
pub open spec fn trim_start(s: Seq<char>) -> Seq<char> {
    s.skip(skip_space(s, 0))
}

/// `s` without trailing whitespace.
pub open spec fn trim_end(s: Seq<char>) -> Seq<char> {
    s.take(back_space(s, s.len() as int))
}

/// `s` without whitespace at either end.
pub open spec fn trim(s: Seq<char>) -> Seq<char> {
    trim_end(trim_start(s))
}

/// Whether `s` is nothing but whitespace.
pub open spec fn blank(s: Seq<char>) -> bool {
    forall|i: int| 0 <= i < s.len() ==> space(#[trigger] s[i])
}

pub proof fn lemma_skip_space(s: Seq<char>, i: int)
    requires
        0 <= i <= s.len(),
    ensures
        i <= skip_space(s, i) <= s.len(),
        forall|k: int| i <= k < skip_space(s, i) ==> space(#[trigger] s[k]),
        skip_space(s, i) < s.len() ==> !space(s[skip_space(s, i)]),
    decreases s.len() - i,
{
    if i < s.len() && space(s[i]) {
        lemma_skip_space(s, i + 1);
    }
}

pub proof fn lemma_back_space(s: Seq<char>, j: int)
    requires
        0 <= j <= s.len(),
    ensures
        0 <= back_space(s, j) <= j,
        forall|k: int| back_space(s, j) <= k < j ==> space(#[trigger] s[k]),
        back_space(s, j) > 0 ==> !space(s[back_space(s, j) - 1]),
    decreases j,
{
    if j > 0 && space(s[j - 1]) {
        lemma_back_space(s, j - 1);
    }
}

/// Where the text of `v[from..to]` starts once leading whitespace is skipped.
pub fn skip_spaces(v: &[char], from: usize, to: usize) -> (k: usize)
    requires
        from <= to <= v@.len(),
    ensures
        k == from + skip_space(v@.subrange(from as int, to as int), 0),
        from <= k <= to,
{
    let ghost s = v@.subrange(from as int, to as int);
    let mut k = from;
    while k < to && is_space(v[k])
        invariant
            from <= k <= to,
            to <= v@.len(),
            s == v@.subrange(from as int, to as int),
            skip_space(s, 0) == skip_space(s, k - from),
        decreases to - k,
    {
        k = k + 1;
    }
    k
}

/// Where trailing whitespace in `v[from..to]` begins.
pub fn back_spaces(v: &[char], from: usize, to: usize) -> (k: usize)
    requires
        from <= to <= v@.len(),
    ensures
        k == from + back_space(v@.subrange(from as int, to as int), to - from),
        from <= k <= to,
{
    let ghost s = v@.subrange(from as int, to as int);
    let mut k = to;
    while k > from && is_space(v[k - 1])
        invariant
            from <= k <= to,
            to <= v@.len(),
            s == v@.subrange(from as int, to as int),
            back_space(s, to - from) == back_space(s, k - from),
        decreases k,
    {
        k = k - 1;
    }
    proof {
        lemma_back_space(s, (to - from) as int);
    }
    k
}

/// The characters `v[from..to]`.
pub fn slice(v: &[char], from: usize, to: usize) -> (r: Vec<char>)
    requires
        from <= to <= v@.len(),
    ensures
        r@ == v@.subrange(from as int, to as int),
{
    let mut r: Vec<char> = Vec::new();
    let mut i = from;
    while i < to
        invariant
            from <= i <= to,
            to <= v@.len(),
            r@ == v@.subrange(from as int, i as int),
        decreases to - i,
    {
        assert(v@.subrange(from as int, i + 1) =~= v@.subrange(from as int, i as int).push(v@[i as int]));
        r.push(v[i]);
        i = i + 1;
    }
    r
}

/// `v` without whitespace at either end.
pub fn trimmed(v: &[char]) -> (r: Vec<char>)
    ensures
        r@ == trim(v@),
{
    let start = skip_spaces(v, 0, v.len());
    let end = back_spaces(v, start, v.len());
    proof {
        assert(v@.subrange(0, v@.len() as int) =~= v@);
        let rest = v@.skip(start as int);
        assert(v@.subrange(start as int, v@.len() as int) =~= rest);
        lemma_back_space(rest, rest.len() as int);
        assert(rest.take(end - start) =~= v@.subrange(start as int, end as int));
    }
    slice(v, start, end)
}

/// Whether `v[at..]` begins with `pat`.
pub open spec fn matches_at(v: Seq<char>, at: int, pat: Seq<char>) -> bool {
    0 <= at && at + pat.len() <= v.len() && v.subrange(at, at + pat.len()) == pat
}

/// Whether `v[at..]` begins with `pat`.
pub fn starts_at(v: &[char], at: usize, pat: &[char]) -> (r: bool)
    ensures
        r == matches_at(v@, at as int, pat@),
{
    if at > v.len() || pat.len() > v.len() - at {
        return false;
    }
    let n = v.len();
    let mut i: usize = 0;
    while i < pat.len()
        invariant
            i <= pat@.len(),
            n == v@.len(),
            at + pat@.len() <= n,
            forall|k: int| 0 <= k < i ==> v@[at + k] == pat@[k],
        decreases pat@.len() - i,
    {
        if v[at + i] != pat[i] {
            assert(v@.subrange(at as int, at + pat@.len())[i as int] != pat@[i as int]);
            return false;
        }
        i = i + 1;
    }
    assert(v@.subrange(at as int, at + pat@.len()) =~= pat@);
    true
}

/// The first place at or after `from` where `pat` begins in `v`.
pub open spec fn first_match(v: Seq<char>, pat: Seq<char>, from: int) -> Option<int>
    decreases v.len() + 1 - from,
{
    if from < 0 || from > v.len() {
        None
    } else if matches_at(v, from, pat) {
        Some(from)
    } else {
        first_match(v, pat, from + 1)
    }
}

/// The first place at or after `from` where `pat` begins in `v`.
pub fn find(v: &[char], pat: &[char], from: usize) -> (r: Option<usize>)
    ensures
        match r {
            Some(i) => first_match(v@, pat@, from as int) == Some(i as int) && from <= i <= v@.len(),
            None => first_match(v@, pat@, from as int) is None,
        },
{
    let n = v.len();
    let mut i = from;
    if i > n {
        return None;
    }
    while i < n
        invariant
            from <= i <= n,
            n == v@.len(),
            first_match(v@, pat@, from as int) == first_match(v@, pat@, i as int),
        decreases n - i,
    {
        if starts_at(v, i, pat) {
            return Some(i);
        }
        i = i + 1;
    }
    if starts_at(v, n, pat) {
        return Some(n);
    }
    assert(first_match(v@, pat@, n + 1) is None);
    None
}

/// Whether `pat` occurs anywhere in `v`.
pub open spec fn occurs(v: Seq<char>, pat: Seq<char>) -> bool {
    exists|i: int| matches_at(v, i, pat)
}

pub proof fn lemma_first_match(v: Seq<char>, pat: Seq<char>, from: int)
    requires
        0 <= from,
    ensures
        match first_match(v, pat, from) {
            Some(i) => from <= i <= v.len() && matches_at(v, i, pat) && forall|k: int|
                from <= k < i ==> !matches_at(v, k, pat),
            None => forall|k: int| from <= k ==> !matches_at(v, k, pat),
        },
    decreases v.len() + 1 - from,
{
    if from <= v.len() && !matches_at(v, from, pat) {
        lemma_first_match(v, pat, from + 1);
    }
}

/// Whether `pat` occurs anywhere in `v`: the first search from the start finds
/// it exactly when it is there.
pub proof fn lemma_occurs(v: Seq<char>, pat: Seq<char>)
    ensures
        occurs(v, pat) == (first_match(v, pat, 0) is Some),
{
    lemma_first_match(v, pat, 0);
    if occurs(v, pat) {
        let i = choose|i: int| matches_at(v, i, pat);
        assert(matches_at(v, i, pat));
    }
}

/// Whether `pat` occurs anywhere in `v`.
pub fn contains(v: &[char], pat: &[char]) -> (r: bool)
    ensures
        r == occurs(v@, pat@),
{
    proof {
        lemma_occurs(v@, pat@);
    }
    find(v, pat, 0).is_some()
}

/// Where the line that starts at `i` ends: the first `'\n'` at or after
/// `i`, or the end of the text.
pub open spec fn line_end(s: Seq<char>, i: int) -> int
    decreases s.len() - i,
{
    if i < 0 || i >= s.len() || s[i] == '\n' {
        i
    } else {
        line_end(s, i + 1)
    }
}

pub proof fn lemma_line_end(s: Seq<char>, i: int)
    requires
        0 <= i <= s.len(),
    ensures
        i <= line_end(s, i) <= s.len(),
        line_end(s, i) < s.len() ==> s[line_end(s, i)] == '\n',
        forall|k: int| i <= k < line_end(s, i) ==> s[k] != '\n',
    decreases s.len() - i,
{
    if i < s.len() && s[i] != '\n' {
        lemma_line_end(s, i + 1);
    }
}

/// Where the text of the line that starts at `i` stops: before its `'\n'`,
/// and before a `'\r'` that stands right in front of that `'\n'`.
pub open spec fn line_stop(s: Seq<char>, i: int) -> int {
    let e = line_end(s, i);
    if e < s.len() && e > i && s[e - 1] == '\r' {
        e - 1
    } else {
        e
    }
}

/// The lines of `s[i..]`, as `str::lines` reads them: split at each `'\n'`,
/// a `"\r\n"` ending counting as one, and no empty line after a final
/// ending.
pub open spec fn lines_from(s: Seq<char>, i: int) -> Seq<Seq<char>>
    decreases s.len() + 1 - i,
{
    if i < 0 || i >= s.len() {
        Seq::empty()
    } else {
        proof {
            lemma_line_end(s, i);
        }
        seq![s.subrange(i, line_stop(s, i))] + lines_from(s, line_end(s, i) + 1)
    }
}

/// The lines of `s`, as `str::lines` reads them.
pub open spec fn lines_of(s: Seq<char>) -> Seq<Seq<char>> {
    lines_from(s, 0)
}

/// Nothing has no lines.
pub proof fn lemma_no_lines(s: Seq<char>)
    requires
        s.len() == 0,
    ensures
        lines_of(s).len() == 0,
{
}

/// The views of a list of string slices.
pub open spec fn views(v: Seq<&str>) -> Seq<Seq<char>> {
    v.map_values(|l: &str| l@)
}

/// The lines of `text`, each a slice of it, as `str::lines` gives them.
pub fn lines(text: &str) -> (r: Vec<&str>)
    ensures
        views(r@) == lines_of(text@),
{
    let v = chars_of(text);
    let n = v.len();
    let ghost s = text@;
    let mut out: Vec<&str> = Vec::new();
    let mut i: usize = 0;
    while i < n
        invariant
            v@ == s,
            s == text@,
            n == s.len(),
            i <= n,
            views(out@) + lines_from(s, i as int) == lines_of(s),
        decreases n - i,
    {
        let mut e = i;
        while e < n && v[e] != '\n'
            invariant
                v@ == s,
                n == s.len(),
                i <= e <= n,
                line_end(s, i as int) == line_end(s, e as int),
            decreases n - e,
        {
            e = e + 1;
        }
        proof {
            lemma_line_end(s, i as int);
        }
        let stop = if e < n && e > i && v[e - 1] == '\r' {
            e - 1
        } else {
            e
        };
        let line = text.substring_char(i, stop);
        let ghost before = views(out@);
        out.push(line);
        proof {
            assert(views(out@) =~= before.push(line@));
            assert(lines_from(s, i as int) =~= seq![line@] + lines_from(s, e + 1));
            assert(views(out@) + lines_from(s, e + 1) =~= before + lines_from(s, i as int));
        }
        if e == n {
            i = n;
            proof {
                assert(lines_from(s, n as int) =~= Seq::<Seq<char>>::empty());
                assert(lines_from(s, e + 1) =~= Seq::<Seq<char>>::empty());
            }
        } else {
            i = e + 1;
        }
    }
    proof {
        assert(lines_from(s, i as int) =~= Seq::<Seq<char>>::empty());
        assert(views(out@) + lines_from(s, i as int) =~= views(out@));
    }
    out
}

/// Where a comment starts lies within the text.
pub proof fn lemma_comment_bound(s: Seq<char>)
    ensures
        0 <= crate::fences::comment_at(s, 0, false, false) <= s.len(),
{
    lemma_comment_from(s, 0, false, false);
}

proof fn lemma_comment_from(s: Seq<char>, i: int, single: bool, double: bool)
    requires
        0 <= i,
    ensures
        i <= crate::fences::comment_at(s, i, single, double) <= s.len() || (i > s.len()
            && crate::fences::comment_at(s, i, single, double) == s.len()),
    decreases s.len() - i,
{
    if i < s.len() {
        lemma_comment_from(s, i + 1, !single, double);
        lemma_comment_from(s, i + 1, single, !double);
        lemma_comment_from(s, i + 1, single, double);
    }
}

/// Where the word that starts at `i` ends: the first whitespace at or after
/// `i`, or the end.
pub open spec fn word_end(s: Seq<char>, i: int) -> int
    decreases s.len() - i,
{
    if i < 0 || i >= s.len() || space(s[i]) {
        i
    } else {
        word_end(s, i + 1)
    }
}

pub proof fn lemma_word_end(s: Seq<char>, i: int)
    requires
        0 <= i <= s.len(),
    ensures
        i <= word_end(s, i) <= s.len(),
        word_end(s, i) < s.len() ==> space(s[word_end(s, i)]),
        forall|k: int| i <= k < word_end(s, i) ==> !space(#[trigger] s[k]),
    decreases s.len() - i,
{
    if i < s.len() && !space(s[i]) {
        lemma_word_end(s, i + 1);
    }
}

/// The words of `s[i..]`: its maximal runs of characters that are not
/// whitespace, in order.
pub open spec fn words_from(s: Seq<char>, i: int) -> Seq<Seq<char>>
    decreases s.len() + 1 - i,
{
    if i < 0 || i > s.len() {
        Seq::empty()
    } else {
        let a = skip_space(s, i);
        proof {
            lemma_skip_space(s, i);
            lemma_word_end(s, a);
        }
        if a >= s.len() {
            Seq::empty()
        } else {
            seq![s.subrange(a, word_end(s, a))] + words_from(s, word_end(s, a))
        }
    }
}

/// The words of `s`, as `str::split_whitespace` gives them.
pub open spec fn words_of(s: Seq<char>) -> Seq<Seq<char>> {
    words_from(s, 0)
}

/// The words of `text`, each a slice of it.
pub fn split_words(text: &str) -> (r: Vec<&str>)
    ensures
        views(r@) == words_of(text@),
{
    let v = chars_of(text);
    let n = v.len();
    let ghost s = text@;
    let mut out: Vec<&str> = Vec::new();
    let mut i: usize = 0;
    assert(v@.subrange(0, n as int) =~= s);
    while i < n
        invariant
            v@ == s,
            s == text@,
            n == s.len(),
            i <= n,
            views(out@) + words_from(s, i as int) == words_of(s),
        decreases n - i,
    {
        let mut a = i;
        while a < n && is_space(v[a])
            invariant
                v@ == s,
                n == s.len(),
                i <= a <= n,
                skip_space(s, i as int) == skip_space(s, a as int),
            decreases n - a,
        {
            a = a + 1;
        }
        proof {
            lemma_skip_space(s, i as int);
        }
        if a == n {
            assert(words_from(s, i as int) =~= Seq::<Seq<char>>::empty());
            i = n;
        } else {
            let mut b = a;
            while b < n && !is_space(v[b])
                invariant
                    v@ == s,
                    n == s.len(),
                    a <= b <= n,
                    word_end(s, a as int) == word_end(s, b as int),
                decreases n - b,
            {
                b = b + 1;
            }
            proof {
                lemma_word_end(s, a as int);
            }
            let word = text.substring_char(a, b);
            let ghost before = views(out@);
            out.push(word);
            proof {
                assert(views(out@) =~= before.push(word@));
                assert(words_from(s, i as int) =~= seq![word@] + words_from(s, b as int));
                assert(views(out@) + words_from(s, b as int) =~= before + words_from(s, i as int));
            }
            i = b;
        }
    }
    proof {
        if i == n {
            lemma_skip_space(s, n as int);
            assert(words_from(s, n as int) =~= Seq::<Seq<char>>::empty());
        }
        assert(views(out@) + words_from(s, i as int) =~= views(out@));
    }
    out
}

/// The words of `ws` joined by one space each.
pub open spec fn spaced(ws: Seq<Seq<char>>) -> Seq<char>
    decreases ws.len(),
{
    if ws.len() == 0 {
        Seq::empty()
    } else if ws.len() == 1 {
        ws[0]
    } else {
        spaced(ws.drop_last()) + seq![' '] + ws.last()
    }
}

/// `s` with its whitespace collapsed: its words, joined by one space each.
pub open spec fn collapsed(s: Seq<char>) -> Seq<char> {
    spaced(words_of(s))
}

/// `text` with its whitespace collapsed, as
/// `split_whitespace().collect::<Vec<_>>().join(" ")` writes it.
pub fn collapse(text: &str) -> (r: String)
    ensures
        r@ == collapsed(text@),
{
    let ws = split_words(text);
    let mut out = String::new();
    let mut i: usize = 0;
    while i < ws.len()
        invariant
            i <= ws@.len(),
            views(ws@) == words_of(text@),
            out@ == spaced(views(ws@).take(i as int)),
        decreases ws@.len() - i,
    {
        let ghost done = views(ws@).take(i as int);
        assert(views(ws@).take(i + 1).drop_last() =~= done);
        if i > 0 {
            push(&mut out, ' ');
        }
        let w = chars_of(ws[i]);
        let mut j: usize = 0;
        let ghost base = out@;
        while j < w.len()
            invariant
                j <= w@.len(),
                out@ == base + w@.take(j as int),
            decreases w@.len() - j,
        {
            assert(w@.take(j + 1) =~= w@.take(j as int).push(w@[j as int]));
            push(&mut out, w[j]);
            j = j + 1;
        }
        assert(w@.take(w@.len() as int) =~= w@);
        proof {
            if i == 0 {
                assert(out@ =~= spaced(views(ws@).take(1)));
            } else {
                assert(out@ =~= spaced(views(ws@).take(i + 1)));
            }
        }
        i = i + 1;
    }
    assert(views(ws@).take(ws@.len() as int) =~= views(ws@));
    out
}

/// Where the first `c` at or after `i` is, or the end.
pub open spec fn find_char(s: Seq<char>, c: char, i: int) -> int
    decreases s.len() - i,
{
    if i < 0 || i >= s.len() {
        s.len() as int
    } else if s[i] == c {
        i
    } else {
        find_char(s, c, i + 1)
    }
}

pub proof fn lemma_find_char(s: Seq<char>, c: char, i: int)
    requires
        0 <= i <= s.len(),
    ensures
        i <= find_char(s, c, i) <= s.len(),
        find_char(s, c, i) < s.len() ==> s[find_char(s, c, i)] == c,
        forall|k: int| i <= k < find_char(s, c, i) ==> s[k] != c,
    decreases s.len() - i,
{
    if i < s.len() && s[i] != c {
        lemma_find_char(s, c, i + 1);
    }
}

/// Where the first `c` at or after `from` is in `v`, or its end.
pub fn char_index(v: &[char], c: char, from: usize) -> (k: usize)
    requires
        from <= v@.len(),
    ensures
        k == find_char(v@, c, from as int),
        from <= k <= v@.len(),
{
    let mut k = from;
    while k < v.len() && v[k] != c
        invariant
            from <= k <= v@.len(),
            find_char(v@, c, from as int) == find_char(v@, c, k as int),
        decreases v@.len() - k,
    {
        k = k + 1;
    }
    k
}

/// Where the last `c` in `s[..k]` is, or -1.
pub open spec fn last_before(s: Seq<char>, c: char, k: int) -> int
    decreases k,
{
    if k <= 0 || k > s.len() {
        -1
    } else if s[k - 1] == c {
        k - 1
    } else {
        last_before(s, c, k - 1)
    }
}

/// Where the last `c` in `s` is, or -1.
pub open spec fn last_index(s: Seq<char>, c: char) -> int {
    last_before(s, c, s.len() as int)
}

/// Where the last `c` in `v` is, if anywhere.
pub fn last_char_index(v: &[char], c: char) -> (r: Option<usize>)
    ensures
        match r {
            Some(k) => k == last_index(v@, c) && k < v@.len(),
            None => last_index(v@, c) == -1,
        },
{
    let mut k = v.len();
    while k > 0
        invariant
            k <= v@.len(),
            last_index(v@, c) == last_before(v@, c, k as int),
        decreases k,
    {
        if v[k - 1] == c {
            return Some(k - 1);
        }
        k = k - 1;
    }
    None
}

/// `s[i..]` with each match of `pat`, left to right and without overlap,
/// replaced by `with`.
pub open spec fn replaced_from(s: Seq<char>, pat: Seq<char>, with: Seq<char>, i: int) -> Seq<char>
    decreases s.len() - i,
{
    if i < 0 || i >= s.len() || pat.len() == 0 {
        s.skip(i)
    } else if matches_at(s, i, pat) {
        with + replaced_from(s, pat, with, i + pat.len())
    } else {
        seq![s[i]] + replaced_from(s, pat, with, i + 1)
    }
}

/// `s` with each match of `pat` replaced by `with`, as `str::replace` does.
pub open spec fn replaced(s: Seq<char>, pat: Seq<char>, with: Seq<char>) -> Seq<char> {
    replaced_from(s, pat, with, 0)
}

/// `v` with each match of `pat` replaced by `with`.
pub fn replace(v: &[char], pat: &[char], with: &[char]) -> (r: Vec<char>)
    requires
        pat@.len() > 0,
    ensures
        r@ == replaced(v@, pat@, with@),
{
    let mut out: Vec<char> = Vec::new();
    let mut i: usize = 0;
    let n = v.len();
    while i < n
        invariant
            n == v@.len(),
            i <= n,
            pat@.len() > 0,
            out@ + replaced_from(v@, pat@, with@, i as int) == replaced(v@, pat@, with@),
        decreases n - i,
    {
        if starts_at(v, i, pat) {
            let mut j: usize = 0;
            let ghost base = out@;
            while j < with.len()
                invariant
                    j <= with@.len(),
                    out@ == base + with@.take(j as int),
                decreases with@.len() - j,
            {
                assert(with@.take(j + 1) =~= with@.take(j as int).push(with@[j as int]));
                out.push(with[j]);
                j = j + 1;
            }
            assert(with@.take(with@.len() as int) =~= with@);
            assert(out@ + replaced_from(v@, pat@, with@, i + pat@.len()) =~= base + replaced_from(
                v@,
                pat@,
                with@,
                i as int,
            ));
            i = i + pat.len();
        } else {
            let ghost base = out@;
            out.push(v[i]);
            assert(out@ + replaced_from(v@, pat@, with@, i + 1) =~= base + replaced_from(
                v@,
                pat@,
                with@,
                i as int,
            ));
            i = i + 1;
        }
    }
    assert(replaced_from(v@, pat@, with@, i as int) =~= Seq::<char>::empty());
    assert(out@ + Seq::<char>::empty() =~= out@);
    out
}

/// Whether `w` and `x` hold the same characters.
pub fn same_chars(w: &[char], x: &[char]) -> (r: bool)
    ensures
        r == (w@ == x@),
{
    if w.len() != x.len() {
        return false;
    }
    let mut i: usize = 0;
    while i < w.len()
        invariant
            i <= w@.len(),
            w@.len() == x@.len(),
            forall|k: int| 0 <= k < i ==> w@[k] == x@[k],
        decreases w@.len() - i,
    {
        if w[i] != x[i] {
            return false;
        }
        i = i + 1;
    }
    assert(w@ =~= x@);
    true
}

/// Appends the characters of `v` to `out`.
pub fn extend(out: &mut Vec<char>, v: &[char])
    ensures
        final(out)@ == old(out)@ + v@,
{
    let mut i: usize = 0;
    while i < v.len()
        invariant
            i <= v@.len(),
            out@ == old(out)@ + v@.take(i as int),
        decreases v@.len() - i,
    {
        assert(v@.take(i + 1) =~= v@.take(i as int).push(v@[i as int]));
        out.push(v[i]);
        i = i + 1;
    }
    assert(v@.take(v@.len() as int) =~= v@);
}

/// `v` with its whitespace collapsed.
pub fn collapse_chars(v: &[char]) -> (r: Vec<char>)
    ensures
        r@ == collapsed(v@),
{
    let s = string_of(v);
    let c = collapse(s.as_str());
    chars_of(c.as_str())
}

/// What `char::is_alphanumeric` says of `c`: Unicode's alphabetic or
/// numeric property.
pub uninterp spec fn alphanumeric(c: char) -> bool;

/// `char::is_alphanumeric`: whether `c` is alphabetic or numeric. For ASCII
/// that is exactly the letters and the digits.
#[verifier::external_body]
pub(crate) fn is_alphanumeric(c: char) -> (r: bool)
    ensures
        r == alphanumeric(c),
        (c as u32) < 128 ==> (r <==> ('a' <= c <= 'z' || 'A' <= c <= 'Z' || '0' <= c <= '9')),
{
    c.is_alphanumeric()
}

/// What `char::is_lowercase` says of `c`: Unicode's `Lowercase` property.
pub uninterp spec fn lowercase(c: char) -> bool;

/// `char::is_lowercase`: whether `c` has the `Lowercase` property. For ASCII
/// that is exactly `a` to `z`.
#[verifier::external_body]
pub(crate) fn is_lowercase(c: char) -> (r: bool)
    ensures
        r == lowercase(c),
        (c as u32) < 128 ==> (r <==> 'a' <= c <= 'z'),
{
    c.is_lowercase()
}

/// The pieces of `s[i..]` between the matches of `pat`, as `str::split`
/// gives them.
pub open spec fn split_from(s: Seq<char>, pat: Seq<char>, i: int) -> Seq<Seq<char>>
    decreases s.len() + 1 - i,
{
    if i < 0 || i > s.len() || pat.len() == 0 {
        Seq::empty()
    } else {
        proof {
            lemma_first_match(s, pat, i);
        }
        match first_match(s, pat, i) {
            None => seq![s.skip(i)],
            Some(k) => seq![s.subrange(i, k)] + split_from(s, pat, k + pat.len()),
        }
    }
}

/// The pieces of `s` between the matches of `pat`.
pub open spec fn split(s: Seq<char>, pat: Seq<char>) -> Seq<Seq<char>> {
    split_from(s, pat, 0)
}

/// The pieces of `v` between the matches of `pat`.
pub fn pieces(v: &[char], pat: &[char]) -> (r: Vec<Vec<char>>)
    requires
        pat@.len() > 0,
    ensures
        r@.map_values(|p: Vec<char>| p@) == split(v@, pat@),
{
    let n = v.len();
    let mut out: Vec<Vec<char>> = Vec::new();
    let mut i: usize = 0;
    loop
        invariant
            n == v@.len(),
            i <= n,
            pat@.len() > 0,
            out@.map_values(|p: Vec<char>| p@) + split_from(v@, pat@, i as int) == split(v@, pat@),
        decreases n - i,
    {
        let ghost before = out@.map_values(|p: Vec<char>| p@);
        proof {
            lemma_first_match(v@, pat@, i as int);
        }
        match find(v, pat, i) {
            None => {
                let last = slice(v, i, n);
                out.push(last);
                assert(v@.skip(i as int) =~= v@.subrange(i as int, n as int));
                assert(out@.map_values(|p: Vec<char>| p@) =~= before.push(last@));
                assert(out@.map_values(|p: Vec<char>| p@) =~= before + split_from(v@, pat@, i as int));
                return out;
            },
            Some(k) => {
                let piece = slice(v, i, k);
                out.push(piece);
                assert(out@.map_values(|p: Vec<char>| p@) =~= before.push(piece@));
                assert(out@.map_values(|p: Vec<char>| p@) + split_from(v@, pat@, k + pat@.len())
                    =~= before + split_from(v@, pat@, i as int));
                i = k + pat.len();
            },
        }
    }
}

/// Where the trailing copies of `c` in `s[..j]` begin.
pub open spec fn trailing(s: Seq<char>, c: char, j: int) -> int
    decreases j,
{
    if j <= 0 || j > s.len() || s[j - 1] != c {
        j
    } else {
        trailing(s, c, j - 1)
    }
}

/// `s` without the copies of `c` it ends with, as `trim_end_matches` gives it.
pub open spec fn trim_end_char(s: Seq<char>, c: char) -> Seq<char> {
    s.take(trailing(s, c, s.len() as int))
}

/// `v` without the copies of `c` it ends with.
pub fn trim_end_chars(v: &[char], c: char) -> (r: Vec<char>)
    ensures
        r@ == trim_end_char(v@, c),
{
    let mut k = v.len();
    while k > 0 && v[k - 1] == c
        invariant
            k <= v@.len(),
            trailing(v@, c, v@.len() as int) == trailing(v@, c, k as int),
        decreases k,
    {
        k = k - 1;
    }
    let r = slice(v, 0, k);
    assert(r@ =~= v@.take(k as int));
    r
}

/// The pieces of `ws` with `sep` between each two.
pub open spec fn joined(ws: Seq<Seq<char>>, sep: Seq<char>) -> Seq<char>
    decreases ws.len(),
{
    if ws.len() == 0 {
        Seq::empty()
    } else if ws.len() == 1 {
        ws[0]
    } else {
        joined(ws.drop_last(), sep) + sep + ws.last()
    }
}

/// The pieces of `ws` with `sep` between each two, as `join` writes them.
pub fn join(ws: &Vec<Vec<char>>, sep: &[char]) -> (r: Vec<char>)
    ensures
        r@ == joined(ws@.map_values(|w: Vec<char>| w@), sep@),
{
    let ghost all = ws@.map_values(|w: Vec<char>| w@);
    let mut out: Vec<char> = Vec::new();
    let mut i: usize = 0;
    while i < ws.len()
        invariant
            i <= ws@.len(),
            all == ws@.map_values(|w: Vec<char>| w@),
            out@ == joined(all.take(i as int), sep@),
        decreases ws@.len() - i,
    {
        assert(all.take(i + 1).drop_last() =~= all.take(i as int));
        if i > 0 {
            extend(&mut out, sep);
        }
        extend(&mut out, &ws[i]);
        proof {
            if i == 0 {
                assert(out@ =~= joined(all.take(1), sep@));
            } else {
                assert(out@ =~= joined(all.take(i + 1), sep@));
            }
        }
        i = i + 1;
    }
    assert(all.take(ws@.len() as int) =~= all);
    out
}

/// The characters of each string in `v`.
pub open spec fn string_views(v: Seq<String>) -> Seq<Seq<char>> {
    v.map_values(|s: String| s@)
}

/// Where the first `a` or `b` at or after `i` is, or the end.
pub open spec fn find_either(s: Seq<char>, a: char, b: char, i: int) -> int
    decreases s.len() - i,
{
    if i < 0 || i >= s.len() {
        s.len() as int
    } else if s[i] == a || s[i] == b {
        i
    } else {
        find_either(s, a, b, i + 1)
    }
}

/// `s` up to its first `a` or `b`: the first piece of splitting it at both.
pub open spec fn before_either(s: Seq<char>, a: char, b: char) -> Seq<char> {
    s.take(find_either(s, a, b, 0))
}

/// `v` up to its first `a` or `b`.
pub fn up_to_either(v: &[char], a: char, b: char) -> (r: Vec<char>)
    ensures
        r@ == before_either(v@, a, b),
{
    let mut k: usize = 0;
    while k < v.len() && v[k] != a && v[k] != b
        invariant
            k <= v@.len(),
            find_either(v@, a, b, 0) == find_either(v@, a, b, k as int),
        decreases v@.len() - k,
    {
        k = k + 1;
    }
    let r = slice(v, 0, k);
    assert(r@ =~= v@.take(k as int));
    r
}

/// Whether `pat` occurs in `v`, given as a literal.
pub fn contains_str(v: &[char], pat: &str) -> (r: bool)
    ensures
        r == occurs(v@, pat@),
{
    let p = chars_of(pat);
    contains(v, &p)
}

/// Whether `v` starts with `pat`, given as a literal.
pub fn starts_with_str(v: &[char], pat: &str) -> (r: bool)
    ensures
        r == matches_at(v@, 0, pat@),
{
    let p = chars_of(pat);
    starts_at(v, 0, &p)
}

/// The decimal digit for `d`.
pub open spec fn digit(d: int) -> char {
    ('0' as int + d) as char
}

/// `n` written in decimal, as `format!("{n}")` writes it.
pub open spec fn decimal(n: nat) -> Seq<char>
    decreases n,
{
    if n < 10 {
        seq![digit(n as int)]
    } else {
        decimal(n / 10).push(digit((n % 10) as int))
    }
}

/// `n` written in decimal.
pub fn decimal_of(n: usize) -> (r: Vec<char>)
    ensures
        r@ == decimal(n as nat),
    decreases n,
{
    let d = n % 10;
    let c = if d == 0 {
        '0'
    } else if d == 1 {
        '1'
    } else if d == 2 {
        '2'
    } else if d == 3 {
        '3'
    } else if d == 4 {
        '4'
    } else if d == 5 {
        '5'
    } else if d == 6 {
        '6'
    } else if d == 7 {
        '7'
    } else if d == 8 {
        '8'
    } else {
        '9'
    };
    assert(c == digit(d as int));
    if n < 10 {
        vec![c]
    } else {
        let mut v = decimal_of(n / 10);
        v.push(c);
        v
    }
}

/// `s` split at its first `pat`: what comes before and what comes after.
pub open spec fn split_once_of(s: Seq<char>, pat: Seq<char>) -> Option<(Seq<char>, Seq<char>)> {
    match first_match(s, pat, 0) {
        Some(k) => Some((s.take(k), s.skip(k + pat.len()))),
        None => None,
    }
}

/// `v` split at its first `pat`.
pub fn split_once(v: &[char], pat: &[char]) -> (r: Option<(Vec<char>, Vec<char>)>)
    ensures
        match r {
            Some((a, b)) => split_once_of(v@, pat@) == Some((a@, b@)),
            None => split_once_of(v@, pat@) is None,
        },
{
    proof {
        lemma_first_match(v@, pat@, 0);
    }
    let n = v.len();
    match find(v, pat, 0) {
        Some(k) => {
            assert(k + pat@.len() <= n);
            let a = slice(v, 0, k);
            let b = slice(v, k + pat.len(), n);
            assert(a@ =~= v@.take(k as int));
            assert(b@ =~= v@.skip(k + pat@.len()));
            Some((a, b))
        },
        None => None,
    }
}

/// What comes before the first `pat` in `s`, or all of `s`: the first piece
/// of splitting it.
pub open spec fn before_first(s: Seq<char>, pat: Seq<char>) -> Seq<char> {
    match first_match(s, pat, 0) {
        Some(k) => s.take(k),
        None => s,
    }
}

/// What comes before the first `pat` in `v`, or all of it.
pub fn up_to(v: &[char], pat: &[char]) -> (r: Vec<char>)
    ensures
        r@ == before_first(v@, pat@),
{
    match split_once(v, pat) {
        Some((a, _)) => a,
        None => slice(v, 0, v.len()),
    }
}

/// The value of a run of decimal digits.
pub open spec fn digits_value(s: Seq<char>) -> nat
    decreases s.len(),
{
    if s.len() == 0 {
        0
    } else {
        digits_value(s.drop_last()) * 10 + ((s.last() as int - '0' as int) as nat)
    }
}

/// Whether every character of `s` is an ASCII digit.
pub open spec fn all_digits(s: Seq<char>) -> bool {
    forall|i: int| 0 <= i < s.len() ==> '0' <= #[trigger] s[i] <= '9'
}

/// What `usize::from_str` makes of `s`: an optional `+`, then one or more
/// digits, whose value fits in a `usize`.
pub open spec fn parsed(s: Seq<char>) -> Option<nat> {
    let d = if s.len() > 0 && s[0] == '+' {
        s.skip(1)
    } else {
        s
    };
    if d.len() == 0 || !all_digits(d) || digits_value(d) > usize::MAX {
        None
    } else {
        Some(digits_value(d))
    }
}

proof fn lemma_digits_grow(s: Seq<char>, i: int)
    requires
        0 <= i <= s.len(),
        all_digits(s),
    ensures
        digits_value(s.take(i)) <= digits_value(s),
    decreases s.len() - i,
{
    if i < s.len() {
        lemma_digits_grow(s, i + 1);
        assert(s.take(i + 1).drop_last() =~= s.take(i));
    } else {
        assert(s.take(i) =~= s);
    }
}

/// `v` read as a `usize`, as `str::parse` reads it.
pub fn parse_number(v: &[char]) -> (r: Option<usize>)
    ensures
        match r {
            Some(n) => parsed(v@) == Some(n as nat),
            None => parsed(v@) is None,
        },
{
    let start: usize = if v.len() > 0 && v[0] == '+' {
        1
    } else {
        0
    };
    let d = slice(v, start, v.len());
    assert(d@ =~= if v@.len() > 0 && v@[0] == '+' {
        v@.skip(1)
    } else {
        v@
    });
    if d.len() == 0 {
        return None;
    }
    let mut value: usize = 0;
    let mut i: usize = 0;
    while i < d.len()
        invariant
            i <= d@.len(),
            d@.len() > 0,
            d@ == (if v@.len() > 0 && v@[0] == '+' {
                v@.skip(1)
            } else {
                v@
            }),
            all_digits(d@.take(i as int)),
            value == digits_value(d@.take(i as int)),
        decreases d@.len() - i,
    {
        let c = d[i];
        assert(d@.take(i + 1).drop_last() =~= d@.take(i as int));
        if c < '0' || c > '9' {
            assert(!all_digits(d@)) by {
                assert(!('0' <= d@[i as int] <= '9'));
            }
            return None;
        }
        let digit = (c as u32 - '0' as u32) as usize;
        match value.checked_mul(10) {
            Some(tens) => match tens.checked_add(digit) {
                Some(next) => {
                    value = next;
                },
                None => {
                    proof {
                        assert(digits_value(d@.take(i + 1)) > usize::MAX);
                        if all_digits(d@) {
                            lemma_digits_grow(d@, i + 1);
                        }
                    }
                    return None;
                },
            },
            None => {
                proof {
                    assert(digits_value(d@.take(i + 1)) >= value * 10);
                    if all_digits(d@) {
                        lemma_digits_grow(d@, i + 1);
                    }
                }
                return None;
            },
        }
        i = i + 1;
    }
    assert(d@.take(d@.len() as int) =~= d@);
    Some(value)
}

} // verus!
