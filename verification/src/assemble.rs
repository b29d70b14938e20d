//! The public names of one crate, assembled from rustdoc's pages and the
//! sources they point at. Reading the files is the caller's: it hands over
//! every page and source this asks for, by the path it is asked by.

use vstd::prelude::*;
use crate::pages::{declares, declares_of, rendered, rendered_of};
use crate::reference::symbol_views;
use crate::rustdoc::{
    bare, described, described_of, items, items_of, locate, locate_from, locate_of, member_view, members,
    members_of, reexports, reexports_of, top_source, top_source_of, Kind, Member, MemberView, Symbol,
    SymbolView,
};
use crate::text::{before_first, chars_of, extend, lines, lines_of, matches_at, same_chars, string_of, views};

verus! {

broadcast use vstd::string::group_string_axioms;

/// The text filed under `key`, or nothing.
pub open spec fn filed(files: Seq<(&str, &str)>, key: Seq<char>, from: int) -> Seq<char>
    decreases files.len() - from,
{
    if from < 0 || from >= files.len() {
        Seq::empty()
    } else if files[from].0@ == key {
        files[from].1@
    } else {
        filed(files, key, from + 1)
    }
}

/// The text filed under `key`, or nothing.
fn lookup<'a>(files: &[(&str, &'a str)], key: &[char]) -> (r: &'a str)
    ensures
        r@ == filed(files@, key@, 0),
{
    let mut i: usize = 0;
    while i < files.len()
        invariant
            i <= files@.len(),
            filed(files@, key@, 0) == filed(files@, key@, i as int),
        decreases files@.len() - i,
    {
        if same_chars(&chars_of(files[i].0), key) {
            return files[i].1;
        }
        i = i + 1;
    }
    proof {
        reveal_strlit("");
    }
    ""
}

/// `file` under `root`, as `Path::join` writes it: an absolute `file` stands
/// alone, and a `/` goes between unless `root` is empty or ends in one.
pub open spec fn joined_path(root: Seq<char>, file: Seq<char>) -> Seq<char> {
    if file.len() > 0 && file[0] == '/' {
        file
    } else if root.len() == 0 {
        file
    } else if root[root.len() - 1] == '/' {
        root + file
    } else {
        root + "/"@ + file
    }
}

/// `file` under `root`.
fn join_path(root: &str, file: &str) -> (r: Vec<char>)
    ensures
        r@ == joined_path(root@, file@),
{
    proof {
        reveal_strlit("/");
    }
    let r = chars_of(root);
    let f = chars_of(file);
    if f.len() > 0 && f[0] == '/' {
        return f;
    }
    if r.len() == 0 {
        return f;
    }
    let mut out = r.clone();
    if r[r.len() - 1] != '/' {
        out.push('/');
    }
    extend(&mut out, &f);
    proof {
        if r@[r@.len() - 1] != '/' {
            assert(out@ =~= root@ + "/"@ + file@);
        } else {
            assert(out@ =~= root@ + file@);
        }
    }
    out
}

/// The path a source link names under `root`: the key each source is handed
/// over by.
pub fn source_path(root: &str, file: &str) -> (r: String)
    ensures
        r@ == joined_path(root@, file@),
{
    string_of(&join_path(root, file))
}

/// Where one crate's documentation is read from.
#[derive(Clone, Copy)]
pub struct Docs<'a> {
    /// The crate's name, as rustdoc's source links write it.
    pub krate: &'a str,
    /// What goes in front of every name: empty for a lone crate.
    pub prefix: &'a str,
    /// The directory its source paths are relative to.
    pub root: &'a str,
    /// `all.html`.
    pub all: &'a str,
    /// `index.html`.
    pub index: &'a str,
    /// Each item page, by the link `all.html` gives it.
    pub pages: &'a [(&'a str, &'a str)],
    /// Each source, by its path under `root`.
    pub sources: &'a [(&'a str, &'a str)],
}

/// The lines of the source at `path`.
pub open spec fn source_lines(d: Docs, path: Seq<char>) -> Seq<Seq<char>> {
    lines_of(filed(d.sources@, path, 0))
}

/// The name an item is shown under: its re-exported name when the crate's
/// front page renames it.
pub open spec fn shown_name(renamed: Seq<(Seq<char>, Seq<char>)>, href: Seq<char>, text: Seq<char>, from: int) -> Seq<char>
    decreases renamed.len() - from,
{
    if from < 0 || from >= renamed.len() {
        text
    } else if renamed[from].0 == href {
        renamed[from].1
    } else {
        shown_name(renamed, href, text, from + 1)
    }
}

/// The symbol a member row reads as: its own source when that declares it,
/// else what the page shows of it, else whatever was read or nothing.
pub open spec fn member_symbol(d: Docs, owner: Seq<char>, href: Seq<char>, lines: Seq<Seq<char>>, first: int, last: int, path: Seq<char>, m: MemberView) -> SymbolView {
    let (tag, member, link, shown) = m;
    let name = owner + "::"@ + member;
    if tag == "member"@ {
        let read = match link {
            Some((file, line)) => Some(
                described_of(name, Kind::Member, source_lines(d, joined_path(d.root@, file)), line as int, joined_path(d.root@, file)),
            ),
            None => None,
        };
        match read {
            Some(r) if declares_of(r.declaration, member) => r,
            _ => match shown {
                Some(s) => SymbolView { name, at: href, ..s },
                None => match read {
                    Some(r) => r,
                    None => SymbolView { name, kind: Kind::Member, summary: Seq::empty(), declaration: Seq::empty(), at: href },
                },
            },
        }
    } else {
        match locate_of(lines, first, last, member, tag == "structfield"@) {
            None => SymbolView { name, kind: Kind::Row, summary: Seq::empty(), declaration: Seq::empty(), at: href },
            Some(line) => SymbolView { declaration: Seq::empty(), ..described_of(name, Kind::Row, lines, line, path) },
        }
    }
}

/// What one entry of `all.html` adds to the names read so far.
pub open spec fn item_symbols(d: Docs, before: Seq<SymbolView>, it: (Seq<char>, Seq<char>, Seq<char>)) -> Seq<SymbolView> {
    let (section, href, text) = it;
    let page = filed(d.pages@, href, 0);
    match top_source_of(page, d.krate@) {
        None => {
            let name = d.prefix@ + before_first(text, "::"@);
            if exists|i: int| 0 <= i < before.len() && (#[trigger] before[i]).name == name {
                Seq::empty()
            } else {
                seq![SymbolView { name, kind: Kind::Foreign, summary: Seq::empty(), declaration: Seq::empty(), at: href }]
            }
        },
        Some((file, first, last)) => {
            let shown = shown_name(reexports_of(d.index@), href, text, 0);
            let owner = d.prefix@ + shown + if section == "macros"@ { "!"@ } else { Seq::empty() };
            let path = joined_path(d.root@, file);
            let lines = source_lines(d, path);
            let read = described_of(owner, Kind::Item, lines, first as int, path);
            let item = if !declares_of(read.declaration, owner) {
                match rendered_of(page) {
                    Some((declaration, summary)) => SymbolView { declaration, summary, ..read },
                    None => read,
                }
            } else {
                read
            };
            seq![item] + members_of(page, d.krate@).map_values(
                |m: MemberView| member_symbol(d, owner, href, lines, first as int, last as int, path, m),
            )
        },
    }
}

/// The names the first entries of `all.html` give, in order.
pub open spec fn assembled(d: Docs, its: Seq<(Seq<char>, Seq<char>, Seq<char>)>) -> Seq<SymbolView>
    decreases its.len(),
{
    if its.len() == 0 {
        Seq::empty()
    } else {
        let before = assembled(d, its.drop_last());
        before + item_symbols(d, before, its.last())
    }
}

/// Whether every line rustdoc points at lies within its source, or just
/// past its end: a source shorter than that is older than the pages.
pub open spec fn in_step(d: Docs) -> bool {
    &&& forall|i: int| 0 <= i < items_of(d.all@).len() ==> #[trigger] item_in_step(d, items_of(d.all@)[i])
    &&& sources_countable(d)
}

/// Whether every source's lines can be counted.
pub open spec fn sources_countable(d: Docs) -> bool {
    forall|i: int| 0 <= i < d.sources@.len() ==> lines_of(#[trigger] d.sources@[i].1@).len() < usize::MAX
}

/// What is filed under a key is one of the files, or nothing.
proof fn lemma_filed(files: Seq<(&str, &str)>, key: Seq<char>, from: int)
    requires
        0 <= from,
    ensures
        filed(files, key, from) == Seq::<char>::empty() || exists|i: int|
            0 <= i < files.len() && filed(files, key, from) == (#[trigger] files[i]).1@,
    decreases files.len() - from,
{
    if from < files.len() && files[from].0@ != key {
        lemma_filed(files, key, from + 1);
    }
}

/// A source handed over has countable lines.
proof fn lemma_countable(d: Docs, path: Seq<char>)
    requires
        sources_countable(d),
    ensures
        source_lines(d, path).len() < usize::MAX,
{
    lemma_filed(d.sources@, path, 0);
    if filed(d.sources@, path, 0) == Seq::<char>::empty() {
        crate::text::lemma_no_lines(filed(d.sources@, path, 0));
    }
}

/// Whether one entry's lines lie within their sources.
pub open spec fn item_in_step(d: Docs, it: (Seq<char>, Seq<char>, Seq<char>)) -> bool {
    let page = filed(d.pages@, it.1, 0);
    match top_source_of(page, d.krate@) {
        None => true,
        Some((file, first, _)) => {
            &&& first <= source_lines(d, joined_path(d.root@, file)).len() + 1
            &&& forall|k: int| 0 <= k < members_of(page, d.krate@).len() ==> #[trigger] member_in_step(d, members_of(page, d.krate@)[k])
        },
    }
}

/// Whether a member's link lies within its source.
pub open spec fn member_in_step(d: Docs, m: MemberView) -> bool {
    match m.2 {
        Some((file, line)) => m.0 != "member"@ || line <= source_lines(d, joined_path(d.root@, file)).len() + 1,
        None => true,
    }
}

/// How many lines the source at `path` has.
fn source_line_count(d: Docs, path: &str) -> (n: usize)
    requires
        sources_countable(d),
    ensures
        n == source_lines(d, path@).len(),
        n < usize::MAX,
{
    proof {
        lemma_countable(d, path@);
    }
    lines(lookup(d.sources, &chars_of(path))).len()
}

/// Whether a member's link lies within its source.
fn member_fits_source(d: Docs, m: &Member) -> (r: bool)
    requires
        sources_countable(d),
    ensures
        r == member_in_step(d, member_view(*m)),
{
    proof {
        reveal_strlit("member");
    }
    match &m.2 {
        Some((file, line)) => {
            if !same_chars(&chars_of(m.0), &chars_of("member")) {
                return true;
            }
            let path = string_of(&join_path(d.root, file.as_str()));
            *line <= source_line_count(d, path.as_str()) + 1
        },
        None => true,
    }
}

/// Whether the lines one entry of `all.html` leads to lie within their
/// sources.
fn entry_in_step(d: Docs, it: &(String, String, String)) -> (r: bool)
    requires
        sources_countable(d),
    ensures
        r == item_in_step(d, (it.0@, it.1@, it.2@)),
{
    let page = lookup(d.pages, &chars_of(it.1.as_str()));
    match top_source(page, d.krate) {
        None => true,
        Some((file, first, last)) => {
            let path = string_of(&join_path(d.root, file.as_str()));
            if first > source_line_count(d, path.as_str()) + 1 {
                return false;
            }
            let ms = members(page, d.krate);
            let ghost mv = ms@.map_values(|m: Member| member_view(m));
            let mut k: usize = 0;
            while k < ms.len()
                invariant
                    k <= ms@.len(),
                    mv == ms@.map_values(|m: Member| member_view(m)),
                    mv == members_of(page@, d.krate@),
                    page@ == filed(d.pages@, it.1@, 0),
                    top_source_of(page@, d.krate@) == Some((file@, first as nat, last as nat)),
                    first <= source_lines(d, joined_path(d.root@, file@)).len() + 1,
                    sources_countable(d),
                    forall|q: int| 0 <= q < k ==> #[trigger] member_in_step(d, mv[q]),
                decreases ms@.len() - k,
            {
                assert(mv[k as int] == member_view(ms@[k as int]));
                if !member_fits_source(d, &ms[k]) {
                    assert(!member_in_step(d, members_of(page@, d.krate@)[k as int]));
                    return false;
                }
                k = k + 1;
            }
            true
        },
    }
}

/// Whether every line rustdoc points at lies within its source, or just past
/// its end, and every source's lines can be counted: what [`symbols_from`]
/// asks of what it is handed. A source shorter than that is older than the
/// pages.
pub fn docs_in_step(d: Docs) -> (r: bool)
    ensures
        r == in_step(d),
{
    let mut s: usize = 0;
    while s < d.sources.len()
        invariant
            s <= d.sources@.len(),
            forall|i: int| 0 <= i < s ==> lines_of(#[trigger] d.sources@[i].1@).len() < usize::MAX,
        decreases d.sources@.len() - s,
    {
        if lines(d.sources[s].1).len() == usize::MAX {
            return false;
        }
        s = s + 1;
    }
    let its = items(d.all);
    let ghost iv = items_of(d.all@);
    let mut i: usize = 0;
    while i < its.len()
        invariant
            i <= its@.len(),
            crate::rustdoc::triple_views(its@) == iv,
            iv == items_of(d.all@),
            sources_countable(d),
            forall|j: int| 0 <= j < i ==> #[trigger] item_in_step(d, iv[j]),
        decreases its@.len() - i,
    {
        assert(iv[i as int] == (its@[i as int].0@, its@[i as int].1@, its@[i as int].2@));
        if !entry_in_step(d, &its[i]) {
            return false;
        }
        i = i + 1;
    }
    true
}

/// The name an item is shown under.
fn shown_of(renamed: &Vec<(String, String)>, href: &str, text: &str) -> (r: Vec<char>)
    ensures
        r@ == shown_name(crate::rustdoc::pair_views(renamed@), href@, text@, 0),
{
    let ghost rv = crate::rustdoc::pair_views(renamed@);
    let h = chars_of(href);
    let mut j: usize = 0;
    while j < renamed.len()
        invariant
            j <= renamed@.len(),
            rv == crate::rustdoc::pair_views(renamed@),
            h@ == href@,
            shown_name(rv, href@, text@, 0) == shown_name(rv, href@, text@, j as int),
        decreases renamed@.len() - j,
    {
        assert(rv[j as int] == (renamed@[j as int].0@, renamed@[j as int].1@));
        if same_chars(&chars_of(renamed[j].0.as_str()), &h) {
            return chars_of(renamed[j].1.as_str());
        }
        j = j + 1;
    }
    chars_of(text)
}

/// What a member row reads as.
fn member_row(
    d: Docs,
    owner: &[char],
    href: &str,
    ls: &Vec<&str>,
    first: usize,
    last: usize,
    path: &str,
    m: &Member,
) -> (r: Symbol)
    requires
        member_in_step(d, member_view(*m)),
        sources_countable(d),
        views(ls@).len() < usize::MAX,
    ensures
        r@ == member_symbol(d, owner@, href@, views(ls@), first as int, last as int, path@, member_view(*m)),
{
    proof {
        reveal_strlit("::");
        reveal_strlit("member");
        reveal_strlit("structfield");
    }
    let (tag, member, link, shown_sym) = (m.0, &m.1, &m.2, &m.3);
    let mut name = chars_of(owner_str(owner).as_str());
    extend(&mut name, &chars_of("::"));
    extend(&mut name, &chars_of(member.as_str()));
    let name_str = string_of(&name);
    let at = string_of(&chars_of(href));
    if same_chars(&chars_of(tag), &chars_of("member")) {
        let read = match link {
            Some((lf, line)) => {
                let lpath = string_of(&join_path(d.root, lf.as_str()));
                let lsource = lookup(d.sources, &chars_of(lpath.as_str()));
                let lls = lines(lsource);
                proof {
                    lemma_countable(d, lpath@);
                }
                Some(described(name_str.as_str(), Kind::Member, lls.as_slice(), *line, lpath.as_str()))
            },
            None => None,
        };
        let declared = match &read {
            Some(r) => declares(r.declaration.as_str(), member.as_str()),
            None => false,
        };
        if declared {
            match read {
                Some(r) => r,
                None => bare(name_str, Kind::Member, at),
            }
        } else {
            match shown_sym {
                Some(s) => Symbol {
                    name: name_str,
                    kind: s.kind,
                    summary: string_of(&chars_of(s.summary.as_str())),
                    declaration: string_of(&chars_of(s.declaration.as_str())),
                    at,
                },
                None => match read {
                    Some(r) => r,
                    None => bare(name_str, Kind::Member, at),
                },
            }
        }
    } else {
        let field = same_chars(&chars_of(tag), &chars_of("structfield"));
        match locate(ls.as_slice(), first, last, member.as_str(), field) {
            None => bare(name_str, Kind::Row, at),
            Some(line) => {
                proof {
                    lemma_located_within(views(ls@), first as int, last as int, member@, field);
                }
                let mut row = described(name_str.as_str(), Kind::Row, ls.as_slice(), line, path);
                row.declaration = String::new();
                row
            },
        }
    }
}

/// `owner` as a string.
fn owner_str(owner: &[char]) -> (r: String)
    ensures
        r@ == owner@,
{
    string_of(owner)
}

/// Appends the symbols of an entry whose page points at no source here:
/// one foreign name, unless it is already read.
fn push_foreign(d: Docs, out: &mut Vec<Symbol>, href: &str, text: &str)
    ensures
        symbol_views(final(out)@) == symbol_views(old(out)@) + (if exists|i: int|
            0 <= i < symbol_views(old(out)@).len() && (#[trigger] symbol_views(old(out)@)[i]).name == d.prefix@
                + before_first(text@, "::"@) {
            Seq::<SymbolView>::empty()
        } else {
            seq![SymbolView { name: d.prefix@ + before_first(text@, "::"@), kind: Kind::Foreign, summary: Seq::empty(), declaration: Seq::empty(), at: href@ }]
        }),
{
    let ghost before = symbol_views(out@);
    let colons = chars_of("::");
    let mut name = chars_of(d.prefix);
    extend(&mut name, &crate::text::up_to(&chars_of(text), &colons));
    let mut found = false;
    let mut k: usize = 0;
    while k < out.len()
        invariant
            k <= out@.len(),
            before == symbol_views(out@),
            found == exists|j: int| 0 <= j < k && (#[trigger] before[j]).name == name@,
        decreases out@.len() - k,
    {
        assert(before[k as int] == out@[k as int]@);
        if same_chars(&chars_of(out[k].name.as_str()), &name) {
            found = true;
        }
        k = k + 1;
    }
    if !found {
        let s = bare(string_of(&name), Kind::Foreign, string_of(&chars_of(href)));
        out.push(s);
        assert(symbol_views(out@) =~= before.push(s@));
    } else {
        assert(symbol_views(out@) =~= before + Seq::<SymbolView>::empty());
    }
}

/// Appends the symbols of an entry whose page points at its source: the item,
/// then each member row.
fn push_item(
    d: Docs,
    out: &mut Vec<Symbol>,
    it: (&String, &String, &String),
    page: &str,
    source: (&String, usize, usize),
    renamed: &Vec<(String, String)>,
)
    requires
        page@ == filed(d.pages@, it.1@, 0),
        top_source_of(page@, d.krate@) == Some((source.0@, source.1 as nat, source.2 as nat)),
        item_in_step(d, (it.0@, it.1@, it.2@)),
        sources_countable(d),
        crate::rustdoc::pair_views(renamed@) == reexports_of(d.index@),
    ensures
        symbol_views(final(out)@) == symbol_views(old(out)@) + item_symbols(
            d,
            symbol_views(old(out)@),
            (it.0@, it.1@, it.2@),
        ),
{
    proof {
        reveal_strlit("macros");
        reveal_strlit("!");
    }
    let ghost before = symbol_views(out@);
    let (section, href, text) = it;
    let (file, first, last) = source;
    let owner_shown = shown_of(renamed, href.as_str(), text.as_str());
    let mut owner = chars_of(d.prefix);
    extend(&mut owner, &owner_shown);
    if same_chars(&chars_of(section.as_str()), &chars_of("macros")) {
        owner.push('!');
        assert(owner@ =~= d.prefix@ + owner_shown@ + "!"@);
    } else {
        assert(owner@ =~= d.prefix@ + owner_shown@ + Seq::<char>::empty());
    }
    let owner_s = string_of(&owner);
    let path = string_of(&join_path(d.root, file.as_str()));
    let src = lookup(d.sources, &chars_of(path.as_str()));
    let ls = lines(src);
    proof {
        lemma_countable(d, path@);
    }
    let read = described(owner_s.as_str(), Kind::Item, ls.as_slice(), first, path.as_str());
    let item = if !declares(read.declaration.as_str(), owner_s.as_str()) {
        match rendered(page) {
            Some((declaration, summary)) => Symbol { name: read.name, kind: read.kind, summary, declaration, at: read.at },
            None => read,
        }
    } else {
        read
    };
    out.push(item);
    let ms = members(page, d.krate);
    let ghost mv = ms@.map_values(|m: Member| member_view(m));
    let ghost start = symbol_views(out@);
    assert(start =~= before.push(item@));
    let mut k: usize = 0;
    while k < ms.len()
        invariant
            k <= ms@.len(),
            mv == ms@.map_values(|m: Member| member_view(m)),
            mv == members_of(page@, d.krate@),
            forall|q: int| 0 <= q < mv.len() ==> #[trigger] member_in_step(d, mv[q]),
            sources_countable(d),
            views(ls@) == source_lines(d, path@),
            views(ls@).len() < usize::MAX,
            symbol_views(out@) == start + mv.take(k as int).map_values(
                |m: MemberView| member_symbol(d, owner@, href@, views(ls@), first as int, last as int, path@, m),
            ),
        decreases ms@.len() - k,
    {
        let ghost was = symbol_views(out@);
        assert(mv[k as int] == member_view(ms@[k as int]));
        let sym = member_row(d, &owner, href.as_str(), &ls, first, last, path.as_str(), &ms[k]);
        out.push(sym);
        assert(symbol_views(out@) =~= was.push(sym@));
        assert(mv.take(k + 1).map_values(
            |m: MemberView| member_symbol(d, owner@, href@, views(ls@), first as int, last as int, path@, m),
        ) =~= mv.take(k as int).map_values(
            |m: MemberView| member_symbol(d, owner@, href@, views(ls@), first as int, last as int, path@, m),
        ).push(member_symbol(d, owner@, href@, views(ls@), first as int, last as int, path@, mv[k as int])));
        k = k + 1;
    }
    assert(mv.take(ms@.len() as int) =~= mv);
}

/// The public names rustdoc's pages give one crate, each read from its
/// source where the pages point at one.
#[verifier::spinoff_prover]
pub fn symbols_from(d: Docs) -> (r: Vec<Symbol>)
    requires
        in_step(d),
    ensures
        symbol_views(r@) == assembled(d, items_of(d.all@)),
{
    let its = items(d.all);
    let ghost iv = items_of(d.all@);
    let renamed = reexports(d.index);
    let mut out: Vec<Symbol> = Vec::new();
    let mut i: usize = 0;
    while i < its.len()
        invariant
            i <= its@.len(),
            crate::rustdoc::triple_views(its@) == iv,
            iv == items_of(d.all@),
            crate::rustdoc::pair_views(renamed@) == reexports_of(d.index@),
            in_step(d),
            symbol_views(out@) == assembled(d, iv.take(i as int)),
        decreases its@.len() - i,
    {
        let ghost it = iv[i as int];
        proof {
            assert(iv.take(i + 1).drop_last() =~= iv.take(i as int));
            assert(iv.take(i + 1).last() == it);
            assert(item_in_step(d, it));
            assert(it == (its@[i as int].0@, its@[i as int].1@, its@[i as int].2@));
        }
        let page = lookup(d.pages, &chars_of(its[i].1.as_str()));
        match top_source(page, d.krate) {
            None => push_foreign(d, &mut out, its[i].1.as_str(), its[i].2.as_str()),
            Some((file, first, last)) => push_item(
                d,
                &mut out,
                (&its[i].0, &its[i].1, &its[i].2),
                page,
                (&file, first, last),
                &renamed,
            ),
        }
        i = i + 1;
    }
    assert(iv.take(its@.len() as int) =~= iv);
    out
}

/// A line found between `first` and `last` is a line of the source.
proof fn lemma_located_within(lines: Seq<Seq<char>>, first: int, last: int, name: Seq<char>, field: bool)
    ensures
        match locate_of(lines, first, last, name, field) {
            Some(n) => 1 <= n <= lines.len(),
            None => true,
        },
{
    let from = if first > 0 {
        first - 1
    } else {
        0
    };
    let end = if last < lines.len() {
        last
    } else {
        lines.len() as int
    };
    lemma_locate_from(lines, from, end, name, field);
}

proof fn lemma_locate_from(lines: Seq<Seq<char>>, i: int, end: int, name: Seq<char>, field: bool)
    ensures
        match locate_from(lines, i, end, name, field) {
            Some(n) => 1 <= n <= lines.len(),
            None => true,
        },
    decreases end - i,
{
    if i >= 0 && i < end && i < lines.len() && !crate::rustdoc::located(lines[i], name, field) {
        lemma_locate_from(lines, i + 1, end, name, field);
    }
}

/// The last component of a path, trailing `/`s aside.
pub open spec fn file_name_of(path: Seq<char>) -> Seq<char> {
    let t = crate::text::trim_end_char(path, '/');
    let cut = crate::text::last_index(t, '/');
    t.skip(cut + 1)
}

/// Where a crate's documentation is, given how the reference names it: a
/// path as written when it has a `/`, else under `target/doc`; the crate's
/// name, its last component; and what goes in front of each name, which is
/// nothing when the reference documents one crate.
pub open spec fn crate_doc_of(entry: Seq<char>, crates: int) -> (Seq<char>, Seq<char>, Seq<char>) {
    let doc = if entry.contains('/') {
        entry
    } else {
        "target/doc/"@ + entry
    };
    let krate = file_name_of(doc);
    (doc, krate, if crates == 1 {
        Seq::empty()
    } else {
        krate + "::"@
    })
}

/// Where a crate's documentation is, its name, and the prefix its names take.
pub fn crate_doc(entry: &str, crates: usize) -> (r: (String, String, String))
    ensures
        (r.0@, r.1@, r.2@) == crate_doc_of(entry@, crates as int),
{
    let e = chars_of(entry);
    let doc = if crate::reports::has_slash(entry) {
        e
    } else {
        let mut d = chars_of("target/doc/");
        extend(&mut d, &e);
        d
    };
    let t = crate::text::trim_end_chars(&doc, '/');
    let krate = match crate::text::last_char_index(&t, '/') {
        Some(k) => {
            let n = t.len();
            assert(k < n);
            crate::text::slice(&t, k + 1, n)
        },
        None => crate::text::slice(&t, 0, t.len()),
    };
    assert(krate@ =~= file_name_of(doc@));
    let prefix = if crates == 1 {
        Vec::new()
    } else {
        let mut p = krate.clone();
        extend(&mut p, &chars_of("::"));
        p
    };
    (string_of(&doc), string_of(&krate), string_of(&prefix))
}

} // verus!
