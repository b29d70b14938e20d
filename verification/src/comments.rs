//! How long a comment may be, and what it may not say.
//!
//! What a gate can measure is a comment block's length and the phrases that
//! are only ever about the past. Reading a file's blocks and a run's words is
//! done here; walking the repository is the caller's.

use vstd::prelude::*;
use crate::text::{
    chars_of, contains, lines, lines_of, matches_at, occurs, skip_space, skip_spaces, slice,
    starts_at, views,
};

verus! {

broadcast use vstd::string::group_string_axioms;

/// The three caps, and how much of the repository they cover.
#[derive(Clone, Copy)]
pub struct Caps {
    /// A `///` block, or a module's `//!`, with doctest fences excluded.
    pub doc: usize,
    /// A module `//!` — the crate root's is prose and is not measured.
    pub header: usize,
    /// A run of `//` in a body, or of `#` in a manifest.
    pub run: usize,
}

/// Whether lowercased comment text contains `phrase`. `spec ` needs a digit
/// after it: "spec" alone is a word.
pub open spec fn narrates_of(text: Seq<char>, phrase: Seq<char>) -> bool {
    if phrase == "spec "@ {
        exists|at: int|
            #[trigger] matches_at(text, at, phrase) && at + 5 < text.len() && '0' <= text[at + 5]
                <= '9'
    } else {
        occurs(text, phrase)
    }
}

/// Whether lowercased comment text contains `phrase`. `spec ` needs a digit
/// after it: "spec" alone is a word.
pub fn narrates(text: &str, phrase: &str) -> (r: bool)
    ensures
        r == narrates_of(text@, phrase@),
{
    proof {
        reveal_strlit("spec ");
    }
    let t = chars_of(text);
    let p = chars_of(phrase);
    let marker = chars_of("spec ");
    if !crate::text::same_chars(&p, &marker) {
        return contains(&t, &p);
    }
    let n = t.len();
    let mut at: usize = 0;
    while at < n
        invariant
            n == t@.len(),
            at <= n,
            t@ == text@,
            p@ == phrase@,
            p@ == "spec "@,
            p@.len() == 5,
            forall|i: int|
                0 <= i < at ==> !(#[trigger] matches_at(t@, i, p@) && i + 5 < t@.len() && '0'
                    <= t@[i + 5] <= '9'),
        decreases n - at,
    {
        if starts_at(&t, at, &p) && at + 5 < n && '0' <= t[at + 5] && t[at + 5] <= '9' {
            return true;
        }
        at = at + 1;
    }
    assert forall|i: int|
        !(#[trigger] matches_at(t@, i, p@) && i + 5 < t@.len() && '0' <= t@[i + 5] <= '9') by {
        if 0 <= i < at {
        }
    }
    false
}

/// Which cap a comment block answers to.
#[derive(Clone, Copy, PartialEq, Eq, Structural, Debug)]
pub enum CommentKind {
    Doc,
    Header,
    Run,
}

/// One comment block: the line it starts on, how many lines it counts, and
/// which cap applies.
#[derive(Clone, Copy, PartialEq, Eq, Structural, Debug)]
pub struct Block {
    pub line: usize,
    pub length: usize,
    pub kind: CommentKind,
}

/// Whether `s` ends with `suffix`.
pub open spec fn ends_with(s: Seq<char>, suffix: Seq<char>) -> bool {
    matches_at(s, s.len() - suffix.len(), suffix)
}

/// Where the last `c` in `s[..j]` is, if there is one.
pub open spec fn last_char(s: Seq<char>, c: char, j: int) -> Option<int>
    decreases j,
{
    if j <= 0 || j > s.len() {
        None
    } else if s[j - 1] == c {
        Some(j - 1)
    } else {
        last_char(s, c, j - 1)
    }
}

/// The last component of a `/`-separated path.
pub open spec fn file_name(path: Seq<char>) -> Seq<char> {
    match last_char(path, '/', path.len() as int) {
        Some(k) => path.skip(k + 1),
        None => path,
    }
}

/// A file name's extension: what follows its last dot, unless that dot
/// starts the name.
pub open spec fn extension(name: Seq<char>) -> Option<Seq<char>> {
    match last_char(name, '.', name.len() as int) {
        Some(k) if k > 0 => Some(name.skip(k + 1)),
        _ => None,
    }
}

/// Whether a path names a manifest: its last component is `Cargo.toml`.
pub open spec fn is_manifest(path: Seq<char>) -> bool {
    file_name(path) == "Cargo.toml"@
}

/// Whether a path names a C++ source or header.
pub open spec fn is_cpp(path: Seq<char>) -> bool {
    extension(file_name(path)) == Some("cpp"@) || extension(file_name(path)) == Some("h"@)
}

/// Whether a Rust file's `//!` is the crate's front page rather than a
/// module's.
pub open spec fn crate_root(path: Seq<char>) -> bool {
    ends_with(path, "src/lib.rs"@) || ends_with(path, "src/main.rs"@) || occurs(path, "src/bin/"@)
}

/// How many `/` and `!` a line starts with.
pub open spec fn slashes(line: Seq<char>, i: int) -> int
    decreases line.len() - i,
{
    if i < 0 || i >= line.len() || !(line[i] == '/' || line[i] == '!') {
        i
    } else {
        slashes(line, i + 1)
    }
}

/// Whether a comment line is a fence marker rather than prose that mentions
/// one: after its slashes and bangs and any whitespace come three backticks.
pub open spec fn fence_mark(line: Seq<char>) -> bool {
    let t = line.skip(slashes(line, 0));
    matches_at(t.skip(skip_space(t, 0)), 0, "```"@)
}

/// Which block a line, without its indentation, belongs to, if any.
pub open spec fn kind_of(line: Seq<char>, manifest: bool, cpp: bool, root: bool, first: bool) -> Option<CommentKind> {
    if manifest {
        if line.len() > 0 && line[0] == '#' {
            Some(CommentKind::Run)
        } else {
            None
        }
    } else if matches_at(line, 0, "//!"@) {
        Some(
            if root {
                CommentKind::Doc
            } else {
                CommentKind::Header
            },
        )
    } else if matches_at(line, 0, "///"@) && !matches_at(line, 0, "////"@) {
        Some(CommentKind::Doc)
    } else if matches_at(line, 0, "//"@) {
        Some(
            if cpp && first {
                CommentKind::Header
            } else {
                CommentKind::Run
            },
        )
    } else {
        None
    }
}

/// A block being read: its kind, first line, length, and whether a doctest
/// fence is open in it.
pub type OpenBlock = (CommentKind, int, int, bool);

/// What a block being read adds once it is done.
pub open spec fn closed_block(open: Option<OpenBlock>) -> Seq<(int, int, CommentKind)> {
    match open {
        Some(o) => seq![(o.1, o.2, o.0)],
        None => Seq::empty(),
    }
}

/// Reading line `index` (0-based): the block open after it, whether no code
/// has been seen yet, and the blocks it closed.
pub open spec fn comment_step(
    open: Option<OpenBlock>,
    first: bool,
    index: int,
    raw: Seq<char>,
    manifest: bool,
    cpp: bool,
    root: bool,
) -> (Option<OpenBlock>, bool, Seq<(int, int, CommentKind)>) {
    let line = raw.skip(skip_space(raw, 0));
    let fence = fence_mark(line);
    match kind_of(line, manifest, cpp, root, first) {
        Some(k) => match open {
            Some(o) if o.0 == k => (
                Some(
                    (
                        o.0,
                        o.1,
                        if fence || o.3 {
                            o.2
                        } else {
                            o.2 + 1
                        },
                        if fence {
                            !o.3
                        } else {
                            o.3
                        },
                    ),
                ),
                first,
                Seq::empty(),
            ),
            _ => (
                Some(
                    (
                        k,
                        index + 1,
                        if fence {
                            0
                        } else {
                            1
                        },
                        fence,
                    ),
                ),
                first,
                closed_block(open),
            ),
        },
        None => (
            None,
            if line.len() > 0 {
                false
            } else {
                first
            },
            closed_block(open),
        ),
    }
}

/// The first `k` lines read.
pub open spec fn comment_scan(ls: Seq<Seq<char>>, manifest: bool, cpp: bool, root: bool, k: nat) -> (
    Option<OpenBlock>,
    bool,
    Seq<(int, int, CommentKind)>,
)
    decreases k,
{
    if k == 0 || k > ls.len() {
        (None, true, Seq::empty())
    } else {
        let (open, first, done) = comment_scan(ls, manifest, cpp, root, (k - 1) as nat);
        let (next, still, closed) = comment_step(
            open,
            first,
            k - 1,
            ls[k - 1],
            manifest,
            cpp,
            root,
        );
        (next, still, done + closed)
    }
}

/// The blocks of `bs` that are measured: all but a crate root's `//!` at
/// the top.
pub open spec fn measured(bs: Seq<(int, int, CommentKind)>, root: bool) -> Seq<(int, int, CommentKind)>
    decreases bs.len(),
{
    if bs.len() == 0 {
        Seq::empty()
    } else {
        let b = bs.last();
        measured(bs.drop_last(), root) + if root && b.2 == CommentKind::Doc && b.0 == 1 {
            Seq::empty()
        } else {
            seq![b]
        }
    }
}

/// The comment blocks of the file at `path`, fence lines already removed
/// from doc blocks.
pub open spec fn blocks_of(path: Seq<char>, text: Seq<char>) -> Seq<(int, int, CommentKind)> {
    let manifest = is_manifest(path);
    let cpp = is_cpp(path);
    let root = !cpp && !manifest && crate_root(path);
    let ls = lines_of(text);
    let (open, _, done) = comment_scan(ls, manifest, cpp, root, ls.len());
    measured(done + closed_block(open), root)
}

/// Looking back from `j`, characters other than `c` are passed over.
proof fn lemma_last_char_skips(s: Seq<char>, c: char, i: int, j: int)
    requires
        0 <= i <= j <= s.len(),
        forall|k: int| i <= k < j ==> #[trigger] s[k] != c,
    ensures
        last_char(s, c, j) == last_char(s, c, i),
    decreases j - i,
{
    if i < j {
        lemma_last_char_skips(s, c, i, j - 1);
    }
}

/// The name and extension of a crate root under `src/`.
proof fn lemma_root_file(p: Seq<char>, file: Seq<char>, dot: int)
    requires
        file == "main.rs"@ || file == "lib.rs"@,
        0 < dot < file.len(),
        file[dot] == '.',
        forall|k: int| dot < k < file.len() ==> #[trigger] file[k] != '.',
        forall|k: int| 0 <= k < file.len() ==> #[trigger] file[k] != '/',
    ensures
        file_name(p + "src/"@ + file) == file,
        extension(file) == Some(file.skip(dot + 1)),
{
    reveal_strlit("src/");
    let path = p + "src/"@ + file;
    let slash: int = p.len() as int + 3;
    assert(path[slash] == '/');
    assert forall|k: int| slash + 1 <= k < path.len() implies #[trigger] path[k] != '/' by {
        assert(path[k] == file[k - slash - 1]);
    }
    lemma_last_char_skips(path, '/', slash + 1, path.len() as int);
    assert(path.skip(slash + 1) =~= file);
    lemma_last_char_skips(file, '.', dot + 1, file.len() as int);
}

/// What a crate root yields is never a header and never a doc block at its
/// top: every `//!` line there is the crate's front page.
proof fn lemma_root_kinds(ls: Seq<Seq<char>>, k: nat)
    ensures
        forall|i: int| 0 <= i < comment_scan(ls, false, false, true, k).2.len() ==> (#[trigger] comment_scan(
            ls,
            false,
            false,
            true,
            k,
        ).2[i]).2 != CommentKind::Header,
        comment_scan(ls, false, false, true, k).0 matches Some(o) ==> o.0 != CommentKind::Header,
    decreases k,
{
    if k > 0 && k <= ls.len() {
        lemma_root_kinds(ls, (k - 1) as nat);
        let (open, first, done) = comment_scan(ls, false, false, true, (k - 1) as nat);
        let (next, still, closed) = comment_step(open, first, k - 1, ls[k - 1], false, false, true);
        let all = done + closed;
        assert forall|i: int| 0 <= i < all.len() implies (#[trigger] all[i]).2 != CommentKind::Header by {
            if i < done.len() {
                assert(all[i] == done[i]);
            } else {
                assert(all[i] == closed[i - done.len()]);
            }
        }
    }
}

/// What is measured of blocks with no header is none of them a header, and
/// for a crate root none a doc block on the first line.
proof fn lemma_measured_root(bs: Seq<(int, int, CommentKind)>)
    requires
        forall|j: int| 0 <= j < bs.len() ==> (#[trigger] bs[j]).2 != CommentKind::Header,
    ensures
        forall|i: int| 0 <= i < measured(bs, true).len() ==> (#[trigger] measured(bs, true)[i]).2 != CommentKind::Header
            && !(measured(bs, true)[i].0 == 1 && measured(bs, true)[i].2 == CommentKind::Doc),
    decreases bs.len(),
{
    if bs.len() > 0 {
        lemma_measured_root(bs.drop_last());
        let before = measured(bs.drop_last(), true);
        let b = bs.last();
        let tail = if b.2 == CommentKind::Doc && b.0 == 1 {
            Seq::<(int, int, CommentKind)>::empty()
        } else {
            seq![b]
        };
        assert(bs.last() == bs[bs.len() - 1]);
        let all = before + tail;
        assert forall|i: int| 0 <= i < all.len() implies (#[trigger] all[i]).2 != CommentKind::Header && !(all[i].0 == 1
            && all[i].2 == CommentKind::Doc) by {
            if i < before.len() {
                assert(all[i] == before[i]);
            } else {
                assert(all[i] == tail[i - before.len()]);
            }
        }
    }
}

/// A crate root's front page is its documentation, not a header: in a file
/// whose path ends `src/main.rs` or `src/lib.rs`, no block is measured as a
/// header, and the doc block on the first line, the `//!` front page, is not
/// measured at all.
pub proof fn a_crate_root_front_page_is_not_a_header(p: Seq<char>, file: Seq<char>, text: Seq<char>)
    requires
        file == "main.rs"@ || file == "lib.rs"@,
    ensures
        crate_root(p + "src/"@ + file),
        forall|i: int|
            0 <= i < blocks_of(p + "src/"@ + file, text).len() ==> (#[trigger] blocks_of(p + "src/"@ + file, text)[i]).2
                != CommentKind::Header && !(blocks_of(p + "src/"@ + file, text)[i].0 == 1 && blocks_of(
                p + "src/"@ + file,
                text,
            )[i].2 == CommentKind::Doc),
{
    reveal_strlit("src/");
    reveal_strlit("main.rs");
    reveal_strlit("lib.rs");
    reveal_strlit("src/main.rs");
    reveal_strlit("src/lib.rs");
    reveal_strlit("Cargo.toml");
    reveal_strlit("cpp");
    reveal_strlit("h");
    let main = file == "main.rs"@;
    let path = p + "src/"@ + file;
    let dot = if main { 4int } else { 3int };
    lemma_root_file(p, file, dot);
    assert(file.skip(dot + 1) =~= seq!['r', 's']);
    assert(file_name(path) != "Cargo.toml"@) by {
        assert(file.len() != "Cargo.toml"@.len());
    }
    assert(!is_cpp(path)) by {
        assert(seq!['r', 's'].len() != "cpp"@.len());
        assert(seq!['r', 's'].len() != "h"@.len());
    }
    let suffix = if main { "src/main.rs"@ } else { "src/lib.rs"@ };
    assert(path.subrange(path.len() - suffix.len(), path.len() as int) =~= suffix);
    assert(crate_root(path));
    let ls = lines_of(text);
    lemma_root_kinds(ls, ls.len());
    let (open, _, done) = comment_scan(ls, false, false, true, ls.len());
    let bs = done + closed_block(open);
    assert forall|j: int| 0 <= j < bs.len() implies (#[trigger] bs[j]).2 != CommentKind::Header by {
        if j < done.len() {
            assert(bs[j] == done[j]);
        } else {
            assert(bs[j] == closed_block(open)[j - done.len()]);
        }
    }
    lemma_measured_root(bs);
}

/// The view of a block.
pub open spec fn block_view(b: Block) -> (int, int, CommentKind) {
    (b.line as int, b.length as int, b.kind)
}

/// Where the last `c` in `v[..j]` is, if there is one.
fn last_index(v: &[char], c: char, j: usize) -> (r: Option<usize>)
    requires
        j <= v@.len(),
    ensures
        match r {
            Some(k) => last_char(v@, c, j as int) == Some(k as int) && k < j,
            None => last_char(v@, c, j as int) is None,
        },
{
    let mut k = j;
    while k > 0
        invariant
            k <= j <= v@.len(),
            last_char(v@, c, j as int) == last_char(v@, c, k as int),
        decreases k,
    {
        if v[k - 1] == c {
            return Some(k - 1);
        }
        k = k - 1;
    }
    None
}

/// Whether `v` ends with `suffix`, given as a literal.
fn ends_with_str(v: &[char], suffix: &str) -> (r: bool)
    ensures
        r == ends_with(v@, suffix@),
{
    let s = chars_of(suffix);
    if s.len() > v.len() {
        return false;
    }
    starts_at(v, v.len() - s.len(), &s)
}

/// The flags a path sets: manifest, C++, crate root.
fn path_kind(path: &str) -> (r: (bool, bool, bool))
    ensures
        r.0 == is_manifest(path@),
        r.1 == is_cpp(path@),
        r.2 == (!r.1 && !r.0 && crate_root(path@)),
{
    let p = chars_of(path);
    let name = match last_index(&p, '/', p.len()) {
        Some(k) => slice(&p, k + 1, p.len()),
        None => slice(&p, 0, p.len()),
    };
    assert(name@ =~= file_name(path@));
    let toml = chars_of("Cargo.toml");
    let manifest = crate::text::same_chars(&name, &toml);
    let cpp = match last_index(&name, '.', name.len()) {
        Some(k) => {
            if k > 0 {
                let ext = slice(&name, k + 1, name.len());
                assert(ext@ =~= name@.skip(k + 1));
                let c = chars_of("cpp");
                let h = chars_of("h");
                crate::text::same_chars(&ext, &c) || crate::text::same_chars(&ext, &h)
            } else {
                false
            }
        },
        None => false,
    };
    let root = !cpp && !manifest && (ends_with_str(&p, "src/lib.rs") || ends_with_str(
        &p,
        "src/main.rs",
    ) || crate::text::contains_str(&p, "src/bin/"));
    (manifest, cpp, root)
}

/// Which block a line belongs to, and whether it is a fence marker.
fn classify(line: &[char], manifest: bool, cpp: bool, root: bool, first: bool) -> (r: (
    Option<CommentKind>,
    bool,
))
    ensures
        r.0 == kind_of(line@, manifest, cpp, root, first),
        r.1 == fence_mark(line@),
{
    let mut k: usize = 0;
    while k < line.len() && (line[k] == '/' || line[k] == '!')
        invariant
            k <= line@.len(),
            slashes(line@, 0) == slashes(line@, k as int),
        decreases line@.len() - k,
    {
        k = k + 1;
    }
    let t = slice(line, k, line.len());
    assert(t@ =~= line@.skip(k as int));
    let lead = skip_spaces(&t, 0, t.len());
    assert(t@.subrange(0, t@.len() as int) =~= t@);
    let u = slice(&t, lead, t.len());
    assert(u@ =~= t@.skip(lead as int));
    let fence = crate::text::starts_with_str(&u, "```");
    let kind = if manifest {
        if line.len() > 0 && line[0] == '#' {
            Some(CommentKind::Run)
        } else {
            None
        }
    } else if crate::text::starts_with_str(line, "//!") {
        Some(
            if root {
                CommentKind::Doc
            } else {
                CommentKind::Header
            },
        )
    } else if crate::text::starts_with_str(line, "///") && !crate::text::starts_with_str(line, "////") {
        Some(CommentKind::Doc)
    } else if crate::text::starts_with_str(line, "//") {
        Some(
            if cpp && first {
                CommentKind::Header
            } else {
                CommentKind::Run
            },
        )
    } else {
        None
    };
    (kind, fence)
}

/// The view of a block being read.
pub open spec fn open_view(open: Option<(CommentKind, usize, usize, bool)>) -> Option<OpenBlock> {
    match open {
        Some(o) => Some((o.0, o.1 as int, o.2 as int, o.3)),
        None => None,
    }
}

/// The comment blocks of one file, with fence lines already removed from
/// doc blocks.
pub fn blocks(path: &str, text: &str) -> (r: Vec<Block>)
    ensures
        r@.map_values(|b: Block| block_view(b)) == blocks_of(path@, text@),
{
    let (manifest, cpp, root) = path_kind(path);
    let all = lines(text);
    let ghost ls = views(all@);
    let mut out: Vec<Block> = Vec::new();
    let mut open: Option<(CommentKind, usize, usize, bool)> = None;
    let mut first = true;
    let mut index: usize = 0;
    while index < all.len()
        invariant
            index <= all@.len(),
            ls == views(all@),
            ls == lines_of(text@),
            manifest == is_manifest(path@),
            cpp == is_cpp(path@),
            root == (!cpp && !manifest && crate_root(path@)),
            (open_view(open), first, out@.map_values(|b: Block| block_view(b))) == comment_scan(
                ls,
                manifest,
                cpp,
                root,
                index as nat,
            ),
            match open {
                Some(o) => o.1 <= index && o.2 <= index,
                None => true,
            },
        decreases all@.len() - index,
    {
        let ghost before = out@.map_values(|b: Block| block_view(b));
        let v = chars_of(all[index]);
        assert(ls[index as int] == v@);
        let lead = skip_spaces(&v, 0, v.len());
        assert(v@.subrange(0, v@.len() as int) =~= v@);
        let line = slice(&v, lead, v.len());
        assert(line@ =~= v@.skip(lead as int));
        let (kind, fence) = classify(&line, manifest, cpp, root, first);
        match kind {
            Some(k) => {
                let same = match open {
                    Some(o) => o.0 == k,
                    None => false,
                };
                if same {
                    let o = match open {
                        Some(o) => o,
                        None => (k, 0, 0, false),
                    };
                    let length = if fence || o.3 {
                        o.2
                    } else {
                        o.2 + 1
                    };
                    let inside = if fence {
                        !o.3
                    } else {
                        o.3
                    };
                    open = Some((o.0, o.1, length, inside));
                    assert(out@.map_values(|b: Block| block_view(b)) =~= before + Seq::<
                        (int, int, CommentKind),
                    >::empty());
                } else {
                    match open {
                        Some(o) => {
                            out.push(Block { line: o.1, length: o.2, kind: o.0 });
                            assert(out@.map_values(|b: Block| block_view(b)) =~= before + seq![
                                (o.1 as int, o.2 as int, o.0),
                            ]);
                        },
                        None => {
                            assert(out@.map_values(|b: Block| block_view(b)) =~= before + Seq::<
                                (int, int, CommentKind),
                            >::empty());
                        },
                    }
                    let length = if fence {
                        0
                    } else {
                        1
                    };
                    open = Some((k, index + 1, length, fence));
                }
            },
            None => {
                match open {
                    Some(o) => {
                        out.push(Block { line: o.1, length: o.2, kind: o.0 });
                        assert(out@.map_values(|b: Block| block_view(b)) =~= before + seq![
                            (o.1 as int, o.2 as int, o.0),
                        ]);
                    },
                    None => {
                        assert(out@.map_values(|b: Block| block_view(b)) =~= before + Seq::<
                            (int, int, CommentKind),
                        >::empty());
                    },
                }
                open = None;
                if line.len() > 0 {
                    first = false;
                }
            },
        }
        index = index + 1;
    }
    let ghost before = out@.map_values(|b: Block| block_view(b));
    match open {
        Some(o) => {
            out.push(Block { line: o.1, length: o.2, kind: o.0 });
            assert(out@.map_values(|b: Block| block_view(b)) =~= before + seq![
                (o.1 as int, o.2 as int, o.0),
            ]);
        },
        None => {
            assert(out@.map_values(|b: Block| block_view(b)) =~= before + Seq::<
                (int, int, CommentKind),
            >::empty());
        },
    }
    let ghost all_blocks = out@.map_values(|b: Block| block_view(b));
    let mut kept: Vec<Block> = Vec::new();
    let mut i: usize = 0;
    while i < out.len()
        invariant
            i <= out@.len(),
            all_blocks == out@.map_values(|b: Block| block_view(b)),
            kept@.map_values(|b: Block| block_view(b)) == measured(all_blocks.take(i as int), root),
        decreases out@.len() - i,
    {
        let b = out[i];
        let ghost was = kept@.map_values(|b: Block| block_view(b));
        assert(all_blocks.take(i + 1).drop_last() =~= all_blocks.take(i as int));
        if !(root && b.kind == CommentKind::Doc && b.line == 1) {
            kept.push(b);
            assert(kept@.map_values(|b: Block| block_view(b)) =~= was + seq![block_view(b)]);
        } else {
            assert(kept@.map_values(|b: Block| block_view(b)) =~= was + Seq::<
                (int, int, CommentKind),
            >::empty());
        }
        i = i + 1;
    }
    assert(all_blocks.take(out@.len() as int) =~= all_blocks);
    kept
}

/// The cap that applies to a block of `kind`.
pub open spec fn cap_for(caps: Caps, kind: CommentKind) -> usize {
    match kind {
        CommentKind::Doc => caps.doc,
        CommentKind::Header => caps.header,
        CommentKind::Run => caps.run,
    }
}

/// Whether a block is longer than its cap allows.
pub fn over_cap(caps: Caps, block: Block) -> (r: bool)
    ensures
        r == (block.length > cap_for(caps, block.kind)),
{
    let cap = match block.kind {
        CommentKind::Doc => caps.doc,
        CommentKind::Header => caps.header,
        CommentKind::Run => caps.run,
    };
    block.length > cap
}

/// The phrases that are only ever about the past. Phrases that also have a
/// present-tense use that is a fact are left to a reader.
pub open spec fn narration_of() -> Seq<Seq<char>> {
    seq!["used to"@, "for a while"@, "previously"@, "was found"@, "spec "@]
}

/// The phrases that are only ever about the past.
pub fn narration() -> (r: Vec<&'static str>)
    ensures
        views(r@) == narration_of(),
{
    let r = vec!["used to", "for a while", "previously", "was found", "spec "];
    assert(views(r@) =~= narration_of());
    r
}

/// What a comment line says: without its indentation, its leading `/`, `!`
/// and `#`, and surrounding whitespace.
pub open spec fn comment_words(raw: Seq<char>) -> Seq<char> {
    let line = raw.skip(skip_space(raw, 0));
    crate::text::trim(line.skip(marks(line, 0)))
}

/// How many `/`, `!` and `#` a line starts with.
pub open spec fn marks(line: Seq<char>, i: int) -> int
    decreases line.len() - i,
{
    if i < 0 || i >= line.len() || !(line[i] == '/' || line[i] == '!' || line[i] == '#') {
        i
    } else {
        marks(line, i + 1)
    }
}

/// Whether a line, without its indentation, is a comment: `#` in a manifest,
/// `//` elsewhere.
pub open spec fn comment_line(raw: Seq<char>, manifest: bool) -> bool {
    let line = raw.skip(skip_space(raw, 0));
    if manifest {
        line.len() > 0 && line[0] == '#'
    } else {
        matches_at(line, 0, "//"@)
    }
}

/// The phrases, by their place in `narration_of()`, that a run's joined and
/// lowercased text says, each with the run's first line.
pub open spec fn run_hits(run: Seq<Seq<char>>, start: int) -> Seq<(int, int)> {
    if run.len() == 0 {
        Seq::empty()
    } else {
        let said = crate::text::lowercased(crate::text::joined(run, " "@));
        phrase_hits(said, start, 5)
    }
}

/// The first `k` phrases that `said` says, each with `start`.
pub open spec fn phrase_hits(said: Seq<char>, start: int, k: nat) -> Seq<(int, int)>
    decreases k,
{
    if k == 0 || k > 5 {
        Seq::empty()
    } else {
        phrase_hits(said, start, (k - 1) as nat) + if narrates_of(said, narration_of()[k - 1]) {
            seq![(start, k - 1)]
        } else {
            Seq::empty()
        }
    }
}

/// Reading the first `k` lines: the run of comment lines being read, the line
/// it began on, and the hits of the runs already done.
pub open spec fn narration_scan(ls: Seq<Seq<char>>, manifest: bool, k: nat) -> (Seq<Seq<char>>, int, Seq<(int, int)>)
    decreases k,
{
    if k == 0 || k > ls.len() {
        (Seq::empty(), 0, Seq::empty())
    } else {
        let (run, start, done) = narration_scan(ls, manifest, (k - 1) as nat);
        let raw = ls[k - 1];
        if comment_line(raw, manifest) {
            (run.push(comment_words(raw)), if run.len() == 0 {
                k as int
            } else {
                start
            }, done)
        } else {
            (Seq::empty(), start, done + run_hits(run, start))
        }
    }
}

/// Every phrase about the past that a file's comment runs say: the line each
/// run starts on, and the phrase's place in `narration()`.
///
/// A run's lines are joined before matching, so a phrase wrapped across two
/// of them — "this one used / to carry" — is still one phrase.
pub open spec fn narration_hits_of(text: Seq<char>, manifest: bool) -> Seq<(int, int)> {
    let ls = lines_of(text);
    let (run, start, done) = narration_scan(ls, manifest, ls.len());
    done + run_hits(run, start)
}

/// The phrases a run says.
fn hits_of_run(run: &Vec<Vec<char>>, start: usize, out: &mut Vec<(usize, usize)>)
    ensures
        final(out)@.map_values(|h: (usize, usize)| (h.0 as int, h.1 as int)) == old(out)@.map_values(
            |h: (usize, usize)| (h.0 as int, h.1 as int),
        ) + run_hits(run@.map_values(|w: Vec<char>| w@), start as int),
{
    let ghost base = out@.map_values(|h: (usize, usize)| (h.0 as int, h.1 as int));
    let ghost rv = run@.map_values(|w: Vec<char>| w@);
    if run.len() == 0 {
        assert(out@.map_values(|h: (usize, usize)| (h.0 as int, h.1 as int)) =~= base + Seq::<
            (int, int),
        >::empty());
        return;
    }
    let space = vec![' '];
    proof {
        reveal_strlit(" ");
    }
    assert(space@ =~= " "@);
    let joined = crate::text::join(run, &space);
    let said = crate::text::to_lowercase(crate::text::string_of(&joined).as_str());
    let phrases = narration();
    assert(views(phrases@).len() == 5);
    let mut k: usize = 0;
    while k < 5
        invariant
            k <= 5,
            phrases@.len() == 5,
            views(phrases@) == narration_of(),
            rv == run@.map_values(|w: Vec<char>| w@),
            rv.len() > 0,
            said@ == crate::text::lowercased(crate::text::joined(rv, " "@)),
            out@.map_values(|h: (usize, usize)| (h.0 as int, h.1 as int)) == base + phrase_hits(
                said@,
                start as int,
                k as nat,
            ),
        decreases 5 - k,
    {
        let ghost was = out@.map_values(|h: (usize, usize)| (h.0 as int, h.1 as int));
        assert(views(phrases@)[k as int] == phrases@[k as int]@);
        if narrates(said.as_str(), phrases[k]) {
            out.push((start, k));
            assert(out@.map_values(|h: (usize, usize)| (h.0 as int, h.1 as int)) =~= was + seq![
                (start as int, k as int),
            ]);
        } else {
            assert(out@.map_values(|h: (usize, usize)| (h.0 as int, h.1 as int)) =~= was + Seq::<
                (int, int),
            >::empty());
        }
        k = k + 1;
    }
}

/// Every phrase about the past that a file's comment runs say: the line each
/// run starts on, and the phrase's place in `narration()`.
pub fn narration_hits(text: &str, manifest: bool) -> (r: Vec<(usize, usize)>)
    ensures
        r@.map_values(|h: (usize, usize)| (h.0 as int, h.1 as int)) == narration_hits_of(
            text@,
            manifest,
        ),
{
    let all = lines(text);
    let ghost ls = views(all@);
    let mut out: Vec<(usize, usize)> = Vec::new();
    let mut run: Vec<Vec<char>> = Vec::new();
    let mut start: usize = 0;
    let mut index: usize = 0;
    while index < all.len()
        invariant
            index <= all@.len(),
            ls == views(all@),
            ls == lines_of(text@),
            start <= index,
            (run@.map_values(|w: Vec<char>| w@), start as int, out@.map_values(
                |h: (usize, usize)| (h.0 as int, h.1 as int),
            )) == narration_scan(ls, manifest, index as nat),
        decreases all@.len() - index,
    {
        let v = chars_of(all[index]);
        assert(ls[index as int] == v@);
        let lead = skip_spaces(&v, 0, v.len());
        assert(v@.subrange(0, v@.len() as int) =~= v@);
        let line = slice(&v, lead, v.len());
        assert(line@ =~= v@.skip(lead as int));
        let is_comment = if manifest {
            line.len() > 0 && line[0] == '#'
        } else {
            crate::text::starts_with_str(&line, "//")
        };
        if is_comment {
            let mut k: usize = 0;
            while k < line.len() && (line[k] == '/' || line[k] == '!' || line[k] == '#')
                invariant
                    k <= line@.len(),
                    marks(line@, 0) == marks(line@, k as int),
                decreases line@.len() - k,
            {
                k = k + 1;
            }
            let rest = slice(&line, k, line.len());
            assert(rest@ =~= line@.skip(k as int));
            let words = crate::text::trimmed(&rest);
            if run.len() == 0 {
                start = index + 1;
            }
            let ghost was = run@.map_values(|w: Vec<char>| w@);
            run.push(words);
            assert(run@.map_values(|w: Vec<char>| w@) =~= was.push(comment_words(v@)));
        } else {
            hits_of_run(&run, start, &mut out);
            run = Vec::new();
            assert(run@.map_values(|w: Vec<char>| w@) =~= Seq::<Seq<char>>::empty());
        }
        index = index + 1;
    }
    hits_of_run(&run, start, &mut out);
    out
}

/// How many of the first `k` lines are comment lines.
pub open spec fn comment_lines_upto(ls: Seq<Seq<char>>, manifest: bool, k: int) -> int
    decreases k,
{
    if k <= 0 || k > ls.len() {
        0
    } else {
        comment_lines_upto(ls, manifest, k - 1) + if comment_line(ls[k - 1], manifest) {
            1int
        } else {
            0int
        }
    }
}

/// How many comment lines a file has: `#` lines in a manifest, `//` lines in
/// a source.
pub open spec fn comment_lines_of(text: Seq<char>, manifest: bool) -> int {
    comment_lines_upto(lines_of(text), manifest, lines_of(text).len() as int)
}

/// How many comment lines a file has.
pub fn comment_line_count(text: &str, manifest: bool) -> (n: usize)
    ensures
        n == comment_lines_of(text@, manifest),
{
    let all = lines(text);
    let ghost ls = views(all@);
    let mut n: usize = 0;
    let mut index: usize = 0;
    while index < all.len()
        invariant
            index <= all@.len(),
            ls == views(all@),
            ls == lines_of(text@),
            n == comment_lines_upto(ls, manifest, index as int),
            n <= index,
        decreases all@.len() - index,
    {
        let v = chars_of(all[index]);
        assert(ls[index as int] == v@);
        let lead = skip_spaces(&v, 0, v.len());
        assert(v@.subrange(0, v@.len() as int) =~= v@);
        let line = slice(&v, lead, v.len());
        assert(line@ =~= v@.skip(lead as int));
        let is_comment = if manifest {
            line.len() > 0 && line[0] == '#'
        } else {
            crate::text::starts_with_str(&line, "//")
        };
        assert(is_comment == comment_line(v@, manifest));
        if is_comment {
            n = n + 1;
        }
        index = index + 1;
    }
    n
}

/// Whether a path names a manifest.
pub(crate) fn names_manifest(path: &str) -> (r: bool)
    ensures
        r == is_manifest(path@),
{
    path_kind(path).0
}

/// Every hit names one of the five phrases.
pub proof fn lemma_hits_name_a_phrase(text: Seq<char>, manifest: bool)
    ensures
        forall|k: int|
            0 <= k < narration_hits_of(text, manifest).len() ==> 0 <= #[trigger] narration_hits_of(
                text,
                manifest,
            )[k].1 < 5,
{
    let ls = lines_of(text);
    lemma_scan_hits(ls, manifest, ls.len());
    let (run, start, done) = narration_scan(ls, manifest, ls.len());
    lemma_run_hits(run, start);
    let all = done + run_hits(run, start);
    assert forall|k: int| 0 <= k < all.len() implies 0 <= #[trigger] all[k].1 < 5 by {
        if k < done.len() {
            assert(all[k] == done[k]);
        } else {
            assert(all[k] == run_hits(run, start)[k - done.len()]);
        }
    }
}

proof fn lemma_phrase_hits(said: Seq<char>, start: int, k: nat)
    ensures
        forall|i: int| 0 <= i < phrase_hits(said, start, k).len() ==> 0 <= #[trigger] phrase_hits(said, start, k)[i].1 < 5,
    decreases k,
{
    if k > 0 && k <= 5 {
        lemma_phrase_hits(said, start, (k - 1) as nat);
        let before = phrase_hits(said, start, (k - 1) as nat);
        let all = phrase_hits(said, start, k);
        assert forall|i: int| 0 <= i < all.len() implies 0 <= #[trigger] all[i].1 < 5 by {
            if i < before.len() {
                assert(all[i] == before[i]);
            }
        }
    }
}

proof fn lemma_run_hits(run: Seq<Seq<char>>, start: int)
    ensures
        forall|i: int| 0 <= i < run_hits(run, start).len() ==> 0 <= #[trigger] run_hits(run, start)[i].1 < 5,
{
    if run.len() > 0 {
        lemma_phrase_hits(crate::text::lowercased(crate::text::joined(run, " "@)), start, 5);
    }
}

proof fn lemma_scan_hits(ls: Seq<Seq<char>>, manifest: bool, k: nat)
    ensures
        forall|i: int|
            0 <= i < narration_scan(ls, manifest, k).2.len() ==> 0 <= #[trigger] narration_scan(ls, manifest, k).2[i].1
                < 5,
    decreases k,
{
    if k > 0 && k <= ls.len() {
        lemma_scan_hits(ls, manifest, (k - 1) as nat);
        let (run, start, done) = narration_scan(ls, manifest, (k - 1) as nat);
        lemma_run_hits(run, start);
        let all = narration_scan(ls, manifest, k).2;
        assert forall|i: int| 0 <= i < all.len() implies 0 <= #[trigger] all[i].1 < 5 by {
            if !comment_line(ls[k - 1], manifest) {
                if i < done.len() {
                    assert(all[i] == done[i]);
                } else {
                    assert(all[i] == run_hits(run, start)[i - done.len()]);
                }
            }
        }
    }
}

} // verus!
