//! Reading fenced blocks out of markdown, once, for every check that reads
//! them.
//!
//! A document is read line by line, as `str::lines` splits it. A line opens a
//! fence when it starts, after at most three bytes of indentation, with a run
//! of three or more backticks or tildes; the fence closes on a line of the
//! same character, at least as long, with nothing after it.

use vstd::prelude::*;
use crate::text::{
    blank, chars_of, is_space, lines, lines_of, skip_space, skip_spaces, slice, string_of,
    to_lowercase, lowercased, trim, trimmed, views,
};

verus! {

broadcast use vstd::string::group_string_axioms;

/// One fenced block: its language, its lines, and where it started.
pub struct Fence<'a> {
    /// Lowercased, and without the attributes after it.
    pub language: String,
    /// Each line inside the block, with its 1-based number.
    pub lines: Vec<(usize, &'a str)>,
    /// 1-based line of the opening fence, for an error a reader can jump to.
    pub start: usize,
}

/// What a fenced block holds, as plain values.
pub struct FenceView {
    pub language: Seq<char>,
    pub lines: Seq<(int, Seq<char>)>,
    pub start: int,
}

impl<'a> View for Fence<'a> {
    type V = FenceView;

    open spec fn view(&self) -> FenceView {
        FenceView {
            language: self.language@,
            lines: self.lines@.map_values(|p: (usize, &'a str)| (p.0 as int, p.1@)),
            start: self.start as int,
        }
    }
}

/// The views of a list of fences.
pub open spec fn fence_views<'a>(v: Seq<Fence<'a>>) -> Seq<FenceView> {
    v.map_values(|f: Fence<'a>| f@)
}

/// How many bytes UTF-8 spends on `c`.
pub open spec fn width(c: char) -> nat {
    if (c as u32) < 0x80 {
        1
    } else if (c as u32) < 0x800 {
        2
    } else if (c as u32) < 0x10000 {
        3
    } else {
        4
    }
}

/// How many bytes UTF-8 spends on `s`.
pub open spec fn bytes(s: Seq<char>) -> nat
    decreases s.len(),
{
    if s.len() == 0 {
        0
    } else {
        bytes(s.drop_last()) + width(s.last())
    }
}

/// A line without its leading whitespace.
pub open spec fn body(s: Seq<char>) -> Seq<char> {
    s.skip(skip_space(s, 0))
}

/// How many bytes of whitespace a line starts with.
pub open spec fn indent(s: Seq<char>) -> nat {
    bytes(s.take(skip_space(s, 0)))
}

/// How many copies of `c` follow one another from `i` on.
pub open spec fn run_of(s: Seq<char>, c: char, i: int) -> int
    decreases s.len() - i,
{
    if i < 0 || i >= s.len() || s[i] != c {
        0
    } else {
        1 + run_of(s, c, i + 1)
    }
}

/// The fence character a line starts with, if it starts with one.
pub open spec fn marker(line: Seq<char>) -> Option<char> {
    if line.len() > 0 && (line[0] == '`' || line[0] == '~') {
        Some(line[0])
    } else {
        None
    }
}

/// How long the run of fence characters at the start of a line is.
pub open spec fn run(line: Seq<char>) -> int {
    match marker(line) {
        Some(c) => run_of(line, c, 0),
        None => 0,
    }
}

/// Whether a raw line is a fence: a run of at least three, indented by less
/// than four bytes.
pub open spec fn is_fence(s: Seq<char>) -> bool {
    indent(s) < 4 && run(body(s)) >= 3
}

/// What follows the run of fence characters on a line.
pub open spec fn info(s: Seq<char>) -> Seq<char> {
    body(s).skip(run(body(s)))
}

/// Whether a raw line closes a fence opened with `width` copies of `opener`.
pub open spec fn closes(s: Seq<char>, opener: char, width: int) -> bool {
    &&& is_fence(s)
    &&& marker(body(s)) == Some(opener)
    &&& run(body(s)) >= width
    &&& blank(info(s))
}

/// Where the first `,` or space at or after `i` is, or the end.
pub open spec fn field_end(s: Seq<char>, i: int) -> int
    decreases s.len() - i,
{
    if i < 0 || i >= s.len() || s[i] == ',' || s[i] == ' ' {
        i
    } else {
        field_end(s, i + 1)
    }
}

/// The language an info string names, lowercased: what comes before the
/// first comma or space once the string is trimmed.
pub open spec fn language_of(info: Seq<char>) -> Seq<char> {
    lowercased(trim(info).take(field_end(trim(info), 0)))
}

/// A fence that is open: the block so far, its character and its length.
pub struct Opened {
    pub block: FenceView,
    pub opener: char,
    pub width: int,
}

/// Reading the raw line numbered `index` (0-based) with `open` the fence
/// already open, if any: the fence that is open after it, and the block it
/// closed, if it closed one.
pub open spec fn step(open: Option<Opened>, index: int, s: Seq<char>) -> (Option<Opened>, Seq<FenceView>) {
    match open {
        Some(o) => if closes(s, o.opener, o.width) {
            (None, seq![o.block])
        } else {
            (
                Some(
                    Opened {
                        block: FenceView {
                            language: o.block.language,
                            lines: o.block.lines.push((index + 1, s)),
                            start: o.block.start,
                        },
                        opener: o.opener,
                        width: o.width,
                    },
                ),
                Seq::empty(),
            )
        },
        None => if is_fence(s) {
            (
                Some(
                    Opened {
                        block: FenceView {
                            language: language_of(info(s)),
                            lines: Seq::empty(),
                            start: index + 1,
                        },
                        opener: body(s)[0],
                        width: run(body(s)),
                    },
                ),
                Seq::empty(),
            )
        } else {
            (None, Seq::empty())
        },
    }
}

/// The first `n` lines read: the fence left open, and the blocks closed.
pub open spec fn scan(lines: Seq<Seq<char>>, n: nat) -> (Option<Opened>, Seq<FenceView>)
    decreases n,
{
    if n == 0 || n > lines.len() {
        (None, Seq::empty())
    } else {
        let (open, done) = scan(lines, (n - 1) as nat);
        let (next, closed) = step(open, n - 1, lines[n - 1]);
        (next, done + closed)
    }
}

/// Every closed fenced block of a document, in order. A fence still open at
/// the end is dropped.
pub open spec fn fenced_blocks(text: Seq<char>) -> Seq<FenceView> {
    scan(lines_of(text), lines_of(text).len()).1
}

/// The last line a block reaches: its last line inside, or its opening line.
pub open spec fn block_end(b: FenceView) -> int {
    if b.lines.len() == 0 {
        b.start
    } else {
        b.lines.last().0
    }
}

/// Whether a block's lines come after its opening line, in ascending order.
pub open spec fn lines_ascend(b: FenceView) -> bool {
    &&& 1 <= b.start
    &&& forall|k: int| 0 <= k < b.lines.len() ==> b.start < #[trigger] b.lines[k].0
    &&& forall|k1: int, k2: int|
        0 <= k1 < k2 < b.lines.len() ==> #[trigger] b.lines[k1].0 < #[trigger] b.lines[k2].0
}

/// Whether blocks come in the order they appear, none reaching into the next.
pub open spec fn blocks_in_order(bs: Seq<FenceView>) -> bool {
    &&& forall|i: int| 0 <= i < bs.len() ==> lines_ascend(#[trigger] bs[i])
    &&& forall|i: int, j: int| 0 <= i < j < bs.len() ==> block_end(#[trigger] bs[i]) < (#[trigger] bs[j]).start
}

/// What the first `n` lines leave behind is in order: the blocks closed end
/// before line `n`, and the one still open starts after all of them.
proof fn lemma_scan_in_order(lines: Seq<Seq<char>>, n: nat)
    requires
        n <= lines.len(),
    ensures
        blocks_in_order(scan(lines, n).1),
        forall|i: int| 0 <= i < scan(lines, n).1.len() ==> block_end(#[trigger] scan(lines, n).1[i]) < n,
        scan(lines, n).0 matches Some(o) ==> {
            &&& lines_ascend(o.block)
            &&& block_end(o.block) <= n
            &&& forall|i: int| 0 <= i < scan(lines, n).1.len() ==> block_end(#[trigger] scan(lines, n).1[i]) < o.block.start
        },
    decreases n,
{
    if n > 0 {
        lemma_scan_in_order(lines, (n - 1) as nat);
        let (open, done) = scan(lines, (n - 1) as nat);
        let (next, closed) = step(open, n - 1, lines[n - 1]);
        let all = done + closed;
        assert(scan(lines, n) == (next, all));
        match open {
            Some(o) => {
                if closes(lines[n - 1], o.opener, o.width) {
                    assert(closed == seq![o.block]);
                    assert forall|i: int| 0 <= i < all.len() implies lines_ascend(#[trigger] all[i]) by {
                        if i < done.len() {
                            assert(all[i] == done[i]);
                        } else {
                            assert(all[i] == o.block);
                        }
                    }
                    assert forall|i: int, j: int| 0 <= i < j < all.len() implies block_end(#[trigger] all[i])
                        < (#[trigger] all[j]).start by {
                        assert(all[i] == done[i]);
                        if j < done.len() {
                            assert(all[j] == done[j]);
                        } else {
                            assert(all[j] == o.block);
                        }
                    }
                    assert forall|i: int| 0 <= i < all.len() implies block_end(#[trigger] all[i]) < n by {
                        if i < done.len() {
                            assert(all[i] == done[i]);
                        } else {
                            assert(all[i] == o.block);
                        }
                    }
                } else {
                    assert(closed.len() == 0);
                    assert(all =~= done);
                    let b = next.unwrap().block;
                    assert(b.lines == o.block.lines.push((n as int, lines[n - 1])));
                    assert(b.start == o.block.start);
                    if o.block.lines.len() > 0 {
                        assert(o.block.lines[o.block.lines.len() - 1].0 <= n - 1);
                    }
                    assert forall|k1: int, k2: int| 0 <= k1 < k2 < b.lines.len() implies #[trigger] b.lines[k1].0
                        < #[trigger] b.lines[k2].0 by {
                        assert(b.lines[k1] == o.block.lines[k1]);
                        if k2 < o.block.lines.len() {
                            assert(b.lines[k2] == o.block.lines[k2]);
                        } else {
                            assert(o.block.lines[k1].0 <= block_end(o.block));
                        }
                    }
                    assert forall|k: int| 0 <= k < b.lines.len() implies b.start < #[trigger] b.lines[k].0 by {
                        if k < o.block.lines.len() {
                            assert(b.lines[k] == o.block.lines[k]);
                        }
                    }
                }
            },
            None => {
                assert(closed.len() == 0);
                assert(all =~= done);
            },
        }
    }
}

/// The blocks of a document come in order and none reaches into the next:
/// each block's lines follow its opening line in order, and each ends
/// before the next one opens.
pub proof fn fenced_blocks_come_in_order(text: Seq<char>)
    ensures
        blocks_in_order(fenced_blocks(text)),
{
    lemma_scan_in_order(lines_of(text), lines_of(text).len());
}

proof fn lemma_bytes_grow(s: Seq<char>, i: int, j: int)
    requires
        0 <= i <= j <= s.len(),
    ensures
        bytes(s.take(i)) <= bytes(s.take(j)),
    decreases j - i,
{
    if i < j {
        assert(s.take(j).drop_last() =~= s.take(j - 1));
        lemma_bytes_grow(s, i, j - 1);
    }
}

/// How many bytes UTF-8 spends on `c`.
fn width_of(c: char) -> (w: usize)
    ensures
        w == width(c),
{
    if (c as u32) < 0x80 {
        1
    } else if (c as u32) < 0x800 {
        2
    } else if (c as u32) < 0x10000 {
        3
    } else {
        4
    }
}

/// Whether the first `k` characters of `v` take fewer than four bytes.
fn narrow(v: &[char], k: usize) -> (r: bool)
    requires
        k <= v@.len(),
    ensures
        r == (bytes(v@.take(k as int)) < 4),
{
    let mut total: usize = 0;
    let mut i: usize = 0;
    while i < k
        invariant
            i <= k <= v@.len(),
            total == bytes(v@.take(i as int)),
            total < 4,
        decreases k - i,
    {
        assert(v@.take(i + 1).drop_last() =~= v@.take(i as int));
        total = total + width_of(v[i]);
        i = i + 1;
        if total >= 4 {
            proof {
                lemma_bytes_grow(v@, i as int, k as int);
            }
            return false;
        }
    }
    true
}

/// Whether every character of `v` is whitespace.
pub fn is_blank(v: &[char]) -> (r: bool)
    ensures
        r == blank(v@),
{
    let mut i: usize = 0;
    while i < v.len()
        invariant
            i <= v@.len(),
            forall|k: int| 0 <= k < i ==> crate::text::space(#[trigger] v@[k]),
        decreases v@.len() - i,
    {
        if !is_space(v[i]) {
            return false;
        }
        i = i + 1;
    }
    true
}

/// One raw line, read as a possible fence.
struct Shape {
    fence: bool,
    marker: Option<char>,
    run: usize,
    info: Vec<char>,
}

/// What a raw line says about fences.
fn shape(raw: &str) -> (r: Shape)
    ensures
        r.fence == is_fence(raw@),
        r.marker == marker(body(raw@)),
        r.run == run(body(raw@)),
        r.info@ == info(raw@),
{
    let v = chars_of(raw);
    let n = v.len();
    let ghost s = raw@;
    let lead = skip_spaces(&v, 0, n);
    assert(v@.subrange(0, n as int) =~= s);
    let ghost b = body(s);
    let narrow_enough = narrow(&v, lead);
    let mut count: usize = 0;
    let mut mark: Option<char> = None;
    if lead < n && (v[lead] == '`' || v[lead] == '~') {
        let c = v[lead];
        mark = Some(c);
        let mut j = lead;
        while j < n && v[j] == c
            invariant
                lead <= j <= n,
                n == s.len(),
                v@ == s,
                b == s.skip(lead as int),
                run_of(b, c, 0) == (j - lead) + run_of(b, c, j - lead),
            decreases n - j,
        {
            j = j + 1;
        }
        count = j - lead;
    }
    let info = slice(&v, lead + count, n);
    proof {
        assert(info@ =~= b.skip(count as int));
    }
    Shape { fence: narrow_enough && count >= 3, marker: mark, run: count, info }
}

/// The language an info string names, lowercased, or `""` for none.
///
/// Everything after the first comma or space is an attribute — `ignore`,
/// `no_run`, `should_panic` — and is read separately by whoever cares.
fn language(info: &[char]) -> (r: String)
    ensures
        r@ == language_of(info@),
{
    let t = trimmed(info);
    let mut k: usize = 0;
    while k < t.len() && t[k] != ',' && t[k] != ' '
        invariant
            k <= t@.len(),
            field_end(t@, 0) == field_end(t@, k as int),
        decreases t@.len() - k,
    {
        k = k + 1;
    }
    let head = slice(&t, 0, k);
    assert(head@ =~= t@.take(k as int));
    let word = string_of(&head);
    to_lowercase(word.as_str())
}

/// The view of the fence that is open while scanning.
pub open spec fn open_view<'a>(o: Option<(Fence<'a>, char, usize)>) -> Option<Opened> {
    match o {
        Some(t) => Some(Opened { block: t.0@, opener: t.1, width: t.2 as int }),
        None => None,
    }
}

/// Every fenced block in a document, in order.
///
/// Both fence characters. Indented up to three spaces still counts; four is a
/// code block whose contents are not the language they look like. A fence
/// closes only on a run at least as long as the one that opened it — that is
/// how a ````markdown block quotes an inner ```bash without ending.
pub fn fences(text: &str) -> (r: Vec<Fence<'_>>)
    ensures
        fence_views(r@) == fenced_blocks(text@),
{
    let all = lines(text);
    let ghost ls = lines_of(text@);
    let mut out: Vec<Fence> = Vec::new();
    let mut open: Option<(Fence, char, usize)> = None;
    let mut index: usize = 0;
    while index < all.len()
        invariant
            views(all@) == ls,
            index <= all@.len(),
            (open_view(open), fence_views(out@)) == scan(ls, index as nat),
        decreases all@.len() - index,
    {
        let raw = all[index];
        assert(ls[index as int] == raw@);
        let shape = shape(raw);
        let ghost before = fence_views(out@);
        match open {
            Some((mut block, opener, width)) => {
                let same = match shape.marker {
                    Some(m) => m == opener,
                    None => false,
                };
                if shape.fence && same && shape.run >= width && is_blank(&shape.info) {
                    out.push(block);
                    open = None;
                    assert(fence_views(out@) =~= before + seq![block@]);
                } else {
                    let ghost old_lines = block@.lines;
                    block.lines.push((index + 1, raw));
                    assert(block@.lines =~= old_lines.push((index + 1, raw@)));
                    open = Some((block, opener, width));
                    assert(fence_views(out@) =~= before + Seq::<FenceView>::empty());
                }
            },
            None => {
                if shape.fence {
                    let m = match shape.marker {
                        Some(m) => m,
                        None => ' ',
                    };
                    let block = Fence { language: language(&shape.info), lines: Vec::new(), start: index + 1 };
                    assert(block@.lines =~= Seq::<(int, Seq<char>)>::empty());
                    open = Some((block, m, shape.run));
                } else {
                    open = None;
                }
                assert(fence_views(out@) =~= before + Seq::<FenceView>::empty());
            },
        }
        index = index + 1;
    }
    out
}

/// A shell command line, joined across `\` continuations and stripped of the
/// noise that is not part of what runs.
pub struct ShellCommand {
    /// The 1-based line the command starts on.
    pub line: usize,
    pub text: String,
}

impl View for ShellCommand {
    type V = (int, Seq<char>);

    open spec fn view(&self) -> (int, Seq<char>) {
        (self.line as int, self.text@)
    }
}

/// The views of a list of commands.
pub open spec fn command_views(v: Seq<ShellCommand>) -> Seq<(int, Seq<char>)> {
    v.map_values(|c: ShellCommand| c@)
}

/// Where a `#` that starts a comment sits in `s[i..]`, reading `'…'` and
/// `"…"` as quotes; the end if there is none.
pub open spec fn comment_at(s: Seq<char>, i: int, single: bool, double: bool) -> int
    decreases s.len() - i,
{
    if i < 0 || i >= s.len() {
        s.len() as int
    } else if s[i] == '\'' && !double {
        comment_at(s, i + 1, !single, double)
    } else if s[i] == '"' && !single {
        comment_at(s, i + 1, single, !double)
    } else if s[i] == '#' && !single && !double {
        i
    } else {
        comment_at(s, i + 1, single, double)
    }
}

/// Whether `c` is one of the characters that quote or comment in a command.
pub open spec fn shell_special(c: char) -> bool {
    c == '\'' || c == '"' || c == '#'
}

/// Plain characters outside any quotes change nothing about where the
/// comment starts.
proof fn lemma_plain_run(s: Seq<char>, i: int, j: int)
    requires
        0 <= i <= j <= s.len(),
        forall|k: int| i <= k < j ==> !shell_special(#[trigger] s[k]),
    ensures
        comment_at(s, i, false, false) == comment_at(s, j, false, false),
    decreases j - i,
{
    if i < j {
        lemma_plain_run(s, i + 1, j);
    }
}

/// Inside double quotes, nothing but the closing quote changes anything: a
/// `#` or a `'` there is a character.
proof fn lemma_double_quoted_run(s: Seq<char>, i: int, j: int)
    requires
        0 <= i <= j <= s.len(),
        forall|k: int| i <= k < j ==> #[trigger] s[k] != '"',
    ensures
        comment_at(s, i, false, true) == comment_at(s, j, false, true),
    decreases j - i,
{
    if i < j {
        lemma_double_quoted_run(s, i + 1, j);
    }
}

/// A `#` inside double quotes is a character, not a comment: a command
/// whose only quotes are one double-quoted span, and whose only `#`s are
/// inside it, is kept whole.
pub proof fn a_quoted_hash_is_not_a_comment(a: Seq<char>, b: Seq<char>, c: Seq<char>)
    requires
        forall|k: int| 0 <= k < a.len() ==> !shell_special(#[trigger] a[k]),
        forall|k: int| 0 <= k < b.len() ==> #[trigger] b[k] != '"',
        forall|k: int| 0 <= k < c.len() ==> !shell_special(#[trigger] c[k]),
    ensures
        uncommented(a + seq!['"'] + b + seq!['"'] + c) == a + seq!['"'] + b + seq!['"'] + c,
{
    let s = a + seq!['"'] + b + seq!['"'] + c;
    let q1 = a.len() as int;
    let q2 = q1 + 1 + b.len();
    assert forall|k: int| 0 <= k < q1 implies !shell_special(#[trigger] s[k]) by {
        assert(s[k] == a[k]);
    }
    lemma_plain_run(s, 0, q1);
    assert(s[q1] == '"');
    assert forall|k: int| q1 + 1 <= k < q2 implies #[trigger] s[k] != '"' by {
        assert(s[k] == b[k - q1 - 1]);
    }
    lemma_double_quoted_run(s, q1 + 1, q2);
    assert(s[q2] == '"');
    assert forall|k: int| q2 + 1 <= k < s.len() implies !shell_special(#[trigger] s[k]) by {
        assert(s[k] == c[k - q2 - 1]);
    }
    lemma_plain_run(s, q2 + 1, s.len() as int);
    assert(comment_at(s, 0, false, false) == s.len());
    assert(s.take(s.len() as int) =~= s);
}

/// Inside single quotes, nothing but the closing quote changes anything.
proof fn lemma_single_quoted_run(s: Seq<char>, i: int, j: int)
    requires
        0 <= i <= j <= s.len(),
        forall|k: int| i <= k < j ==> #[trigger] s[k] != '\'',
    ensures
        comment_at(s, i, true, false) == comment_at(s, j, true, false),
    decreases j - i,
{
    if i < j {
        lemma_single_quoted_run(s, i + 1, j);
    }
}

/// A `#` or a `"` inside single quotes is a character too: a command whose
/// only quotes are one single-quoted span, and whose only `#`s are inside
/// it, is kept whole.
pub proof fn a_single_quoted_hash_is_not_a_comment(a: Seq<char>, b: Seq<char>, c: Seq<char>)
    requires
        forall|k: int| 0 <= k < a.len() ==> !shell_special(#[trigger] a[k]),
        forall|k: int| 0 <= k < b.len() ==> #[trigger] b[k] != '\'',
        forall|k: int| 0 <= k < c.len() ==> !shell_special(#[trigger] c[k]),
    ensures
        uncommented(a + seq!['\''] + b + seq!['\''] + c) == a + seq!['\''] + b + seq!['\''] + c,
{
    let s = a + seq!['\''] + b + seq!['\''] + c;
    let q1 = a.len() as int;
    let q2 = q1 + 1 + b.len();
    assert forall|k: int| 0 <= k < q1 implies !shell_special(#[trigger] s[k]) by {
        assert(s[k] == a[k]);
    }
    lemma_plain_run(s, 0, q1);
    assert(s[q1] == '\'');
    assert forall|k: int| q1 + 1 <= k < q2 implies #[trigger] s[k] != '\'' by {
        assert(s[k] == b[k - q1 - 1]);
    }
    lemma_single_quoted_run(s, q1 + 1, q2);
    assert(s[q2] == '\'');
    assert forall|k: int| q2 + 1 <= k < s.len() implies !shell_special(#[trigger] s[k]) by {
        assert(s[k] == c[k - q2 - 1]);
    }
    lemma_plain_run(s, q2 + 1, s.len() as int);
    assert(s.take(s.len() as int) =~= s);
}

/// A `#` outside quotes starts the comment: everything before it is the
/// command, and nothing after it is.
pub proof fn an_unquoted_hash_starts_a_comment(a: Seq<char>, rest: Seq<char>)
    requires
        forall|k: int| 0 <= k < a.len() ==> !shell_special(#[trigger] a[k]),
    ensures
        uncommented(a + seq!['#'] + rest) == a,
{
    let s = a + seq!['#'] + rest;
    assert forall|k: int| 0 <= k < a.len() implies !shell_special(#[trigger] s[k]) by {
        assert(s[k] == a[k]);
    }
    lemma_plain_run(s, 0, a.len() as int);
    assert(s[a.len() as int] == '#');
    assert(s.take(a.len() as int) =~= a);
}

/// A command line with any trailing `#` comment removed.
pub open spec fn uncommented(s: Seq<char>) -> Seq<char> {
    s.take(comment_at(s, 0, false, false))
}

/// What is left of a block once a command that is still open is done.
pub open spec fn flushed(pending: Option<(int, Seq<char>)>) -> Seq<(int, Seq<char>)> {
    match pending {
        Some(p) => seq![p],
        None => Seq::empty(),
    }
}

/// Reading one line of a block, numbered `number`, with `pending` the command
/// that a `\` left open: the command open after it, and the commands done.
pub open spec fn command_step(pending: Option<(int, Seq<char>)>, number: int, raw: Seq<char>) -> (
    Option<(int, Seq<char>)>,
    Seq<(int, Seq<char>)>,
) {
    let line = trim(raw);
    let code = crate::text::trim_end(uncommented(line));
    if line.len() == 0 || line[0] == '#' || code.len() == 0 {
        (None, flushed(pending))
    } else {
        let continues = code.last() == '\\';
        let body = if continues {
            crate::text::trim_end(code.drop_last())
        } else {
            code
        };
        let joined = match pending {
            Some(p) => (p.0, p.1 + seq![' '] + body),
            None => (number, body),
        };
        if continues {
            (Some(joined), Seq::empty())
        } else {
            (None, seq![joined])
        }
    }
}

/// The first `n` lines of a block read as commands.
pub open spec fn command_scan(lines: Seq<(int, Seq<char>)>, n: nat) -> (
    Option<(int, Seq<char>)>,
    Seq<(int, Seq<char>)>,
)
    decreases n,
{
    if n == 0 || n > lines.len() {
        (None, Seq::empty())
    } else {
        let (pending, done) = command_scan(lines, (n - 1) as nat);
        let (next, finished) = command_step(pending, lines[n - 1].0, lines[n - 1].1);
        (next, done + finished)
    }
}

/// The commands a block's lines hold, a command still open at the end
/// included.
pub open spec fn commands_in(lines: Seq<(int, Seq<char>)>) -> Seq<(int, Seq<char>)> {
    let (pending, done) = command_scan(lines, lines.len());
    done + flushed(pending)
}

/// The view of the command a `\` left open.
pub open spec fn pending_view(p: Option<ShellCommand>) -> Option<(int, Seq<char>)> {
    match p {
        Some(c) => Some(c@),
        None => None,
    }
}

/// Where the comment in `v` starts, or its end.
fn comment_start(v: &[char]) -> (k: usize)
    ensures
        k == comment_at(v@, 0, false, false),
{
    let mut single = false;
    let mut double = false;
    let mut i: usize = 0;
    while i < v.len()
        invariant
            i <= v@.len(),
            comment_at(v@, 0, false, false) == comment_at(v@, i as int, single, double),
        decreases v@.len() - i,
    {
        let c = v[i];
        if c == '\'' && !double {
            single = !single;
        } else if c == '"' && !single {
            double = !double;
        } else if c == '#' && !single && !double {
            return i;
        }
        i = i + 1;
    }
    i
}

/// Appends the characters of `v` to `s`.
fn append(s: &mut String, v: &[char])
    ensures
        final(s)@ == old(s)@ + v@,
{
    let mut i: usize = 0;
    while i < v.len()
        invariant
            i <= v@.len(),
            s@ == old(s)@ + v@.take(i as int),
        decreases v@.len() - i,
    {
        assert(v@.take(i + 1) =~= v@.take(i as int).push(v@[i as int]));
        crate::text::push(s, v[i]);
        i = i + 1;
    }
    assert(v@.take(v@.len() as int) =~= v@);
}

/// The command a line holds once trimmed, stripped of its comment and of a
/// trailing `\`: `None` for a line that holds none, else its text and whether
/// it goes on to the next line.
fn command_part(raw: &str) -> (r: Option<(Vec<char>, bool)>)
    ensures
        ({
            let line = trim(raw@);
            let code = crate::text::trim_end(uncommented(line));
            match r {
                None => line.len() == 0 || line[0] == '#' || code.len() == 0,
                Some((body, continues)) => {
                    &&& !(line.len() == 0 || line[0] == '#' || code.len() == 0)
                    &&& continues == (code.last() == '\\')
                    &&& body@ == if continues {
                        crate::text::trim_end(code.drop_last())
                    } else {
                        code
                    }
                },
            }
        }),
{
    let v = chars_of(raw);
    let t = trimmed(&v);
    let ghost line = t@;
    if t.len() == 0 || t[0] == '#' {
        return None;
    }
    let cut = comment_start(&t);
    proof {
        crate::text::lemma_comment_bound(line);
    }
    let end = crate::text::back_spaces(&t, 0, cut);
    let ghost code = crate::text::trim_end(uncommented(line));
    assert(line.subrange(0, cut as int) =~= uncommented(line));
    assert(code =~= line.subrange(0, end as int));
    if end == 0 {
        return None;
    }
    let continues = t[end - 1] == '\\';
    if continues {
        let stop = crate::text::back_spaces(&t, 0, end - 1);
        assert(line.subrange(0, end - 1) =~= code.drop_last());
        let body = slice(&t, 0, stop);
        assert(body@ =~= crate::text::trim_end(code.drop_last()));
        Some((body, true))
    } else {
        let body = slice(&t, 0, end);
        Some((body, false))
    }
}

/// The runnable lines of a ```bash block, with `\` continuations joined: a
/// scanner reading lines sees only the half with the verb.
pub fn commands(fence: &Fence) -> (r: Vec<ShellCommand>)
    ensures
        command_views(r@) == commands_in(fence@.lines),
{
    let ghost ls = fence@.lines;
    let mut out: Vec<ShellCommand> = Vec::new();
    let mut pending: Option<ShellCommand> = None;
    let mut i: usize = 0;
    while i < fence.lines.len()
        invariant
            ls == fence@.lines,
            i <= ls.len(),
            (pending_view(pending), command_views(out@)) == command_scan(ls, i as nat),
        decreases ls.len() - i,
    {
        let (number, raw) = fence.lines[i];
        assert(ls[i as int] == (number as int, raw@));
        let ghost before = command_views(out@);
        let ghost pv = pending_view(pending);
        let ghost next = command_step(pv, number as int, raw@);
        match command_part(raw) {
            None => {
                match pending {
                    Some(done) => {
                        out.push(done);
                        assert(command_views(out@) =~= before + seq![done@]);
                    },
                    None => {
                        assert(command_views(out@) =~= before + Seq::<(int, Seq<char>)>::empty());
                    },
                }
                pending = None;
            },
            Some((body, continues)) => {
                let joined = match pending {
                    Some(mut open) => {
                        let ghost was = open@;
                        crate::text::push(&mut open.text, ' ');
                        append(&mut open.text, &body);
                        assert(open@.1 =~= was.1 + seq![' '] + body@);
                        open
                    },
                    None => ShellCommand { line: number, text: string_of(&body) },
                };
                if continues {
                    pending = Some(joined);
                    assert(command_views(out@) =~= before + Seq::<(int, Seq<char>)>::empty());
                } else {
                    out.push(joined);
                    pending = None;
                    assert(command_views(out@) =~= before + seq![joined@]);
                }
            },
        }
        assert(pending_view(pending) == next.0);
        assert(command_views(out@) =~= before + next.1);
        i = i + 1;
    }
    let ghost before = command_views(out@);
    match pending {
        Some(done) => {
            out.push(done);
            assert(command_views(out@) =~= before + seq![done@]);
        },
        None => {
            assert(command_views(out@) =~= before + Seq::<(int, Seq<char>)>::empty());
        },
    }
    out
}

/// Where the first `=` at or after `i` is, or the end.
pub open spec fn equals_at(w: Seq<char>, i: int) -> int
    decreases w.len() - i,
{
    if i < 0 || i >= w.len() || w[i] == '=' {
        i
    } else {
        equals_at(w, i + 1)
    }
}

/// Whether a word sets a variable: a name of capitals and underscores, then
/// `=`.
pub open spec fn is_assignment(w: Seq<char>) -> bool {
    let k = equals_at(w, 0);
    &&& 0 < k < w.len()
    &&& forall|j: int| 0 <= j < k ==> ('A' <= #[trigger] w[j] <= 'Z' || w[j] == '_')
}

/// Whether a word is the shell's decoration rather than the verb: `sudo`,
/// `env`, `export`, or an assignment.
pub open spec fn decoration(w: Seq<char>) -> bool {
    ||| w == seq!['s', 'u', 'd', 'o']
    ||| w == seq!['e', 'n', 'v']
    ||| w == seq!['e', 'x', 'p', 'o', 'r', 't']
    ||| is_assignment(w)
}

/// `ws` from its first word that is not decoration on.
pub open spec fn undecorated(ws: Seq<Seq<char>>) -> Seq<Seq<char>>
    decreases ws.len(),
{
    if ws.len() > 0 && decoration(ws[0]) {
        undecorated(ws.skip(1))
    } else {
        ws
    }
}

/// How many words at the front of `ws` are decoration.
pub open spec fn decorations(ws: Seq<Seq<char>>) -> nat
    decreases ws.len(),
{
    if ws.len() > 0 && decoration(ws[0]) {
        1 + decorations(ws.skip(1))
    } else {
        0
    }
}

/// The verb is the first word that is not decoration: what is left is the
/// command's own words from there on, every word dropped before it is
/// decoration, and the first word left is none.
pub proof fn the_verb_is_the_first_undecorated_word(ws: Seq<Seq<char>>)
    ensures
        decorations(ws) <= ws.len(),
        undecorated(ws) == ws.skip(decorations(ws) as int),
        forall|j: int| 0 <= j < decorations(ws) ==> decoration(#[trigger] ws[j]),
        undecorated(ws).len() > 0 ==> !decoration(undecorated(ws)[0]),
    decreases ws.len(),
{
    if ws.len() > 0 && decoration(ws[0]) {
        let rest = ws.skip(1);
        the_verb_is_the_first_undecorated_word(rest);
        assert(rest.skip(decorations(rest) as int) =~= ws.skip(decorations(ws) as int));
        assert forall|j: int| 0 <= j < decorations(ws) implies decoration(#[trigger] ws[j]) by {
            if j > 0 {
                assert(ws[j] == rest[j - 1]);
            }
        }
    } else {
        assert(ws.skip(0) =~= ws);
    }
}

/// Whether `v` and `w` hold the same characters.
fn same(v: &[char], w: &[char]) -> (r: bool)
    ensures
        r == (v@ == w@),
{
    if v.len() != w.len() {
        return false;
    }
    let mut i: usize = 0;
    while i < v.len()
        invariant
            i <= v@.len(),
            v@.len() == w@.len(),
            forall|k: int| 0 <= k < i ==> v@[k] == w@[k],
        decreases v@.len() - i,
    {
        if v[i] != w[i] {
            return false;
        }
        i = i + 1;
    }
    assert(v@ =~= w@);
    true
}

/// Whether a word sets a variable.
fn assignment(w: &[char]) -> (r: bool)
    ensures
        r == is_assignment(w@),
{
    let mut k: usize = 0;
    while k < w.len() && w[k] != '='
        invariant
            k <= w@.len(),
            equals_at(w@, 0) == equals_at(w@, k as int),
            forall|j: int| 0 <= j < k ==> w@[j] != '=',
        decreases w@.len() - k,
    {
        k = k + 1;
    }
    if k == 0 || k == w.len() {
        return false;
    }
    let mut j: usize = 0;
    while j < k
        invariant
            j <= k < w@.len(),
            equals_at(w@, 0) == k,
            forall|i: int| 0 <= i < j ==> ('A' <= #[trigger] w@[i] <= 'Z' || w@[i] == '_'),
        decreases k - j,
    {
        let c = w[j];
        if !(('A' <= c && c <= 'Z') || c == '_') {
            assert(!('A' <= w@[j as int] <= 'Z' || w@[j as int] == '_'));
            return false;
        }
        j = j + 1;
    }
    true
}

/// Whether a word is the shell's decoration rather than the verb.
fn decorative(word: &str) -> (r: bool)
    ensures
        r == decoration(word@),
{
    let w = chars_of(word);
    let sudo = vec!['s', 'u', 'd', 'o'];
    let env = vec!['e', 'n', 'v'];
    let export = vec!['e', 'x', 'p', 'o', 'r', 't'];
    same(&w, &sudo) || same(&w, &env) || same(&w, &export) || assignment(&w)
}

/// The words of a command with the shell's own decoration removed: `sudo`,
/// `env`, `export` and `VAR=value` prefixes are not the verb, and
/// `FREEINK_SDK_DIR=/opt/sdk` is not a path this repository holds.
pub fn words(command: &str) -> (r: Vec<&str>)
    ensures
        views(r@) == undecorated(crate::text::words_of(command@)),
{
    let all = crate::text::split_words(command);
    let ghost ws = views(all@);
    let mut k: usize = 0;
    assert(ws.skip(0) =~= ws);
    while k < all.len() && decorative(all[k])
        invariant
            k <= all@.len(),
            ws == views(all@),
            undecorated(ws) == undecorated(ws.skip(k as int)),
        decreases all@.len() - k,
    {
        assert(ws.skip(k as int).skip(1) =~= ws.skip(k + 1));
        k = k + 1;
    }
    let mut out: Vec<&str> = Vec::new();
    let mut i = k;
    while i < all.len()
        invariant
            k <= i <= all@.len(),
            ws == views(all@),
            views(out@) == ws.subrange(k as int, i as int),
        decreases all@.len() - i,
    {
        let ghost before = views(out@);
        out.push(all[i]);
        assert(views(out@) =~= before.push(ws[i as int]));
        assert(views(out@) =~= ws.subrange(k as int, i + 1));
        i = i + 1;
    }
    assert(ws.skip(k as int) =~= ws.subrange(k as int, all@.len() as int));
    out
}

} // verus!
