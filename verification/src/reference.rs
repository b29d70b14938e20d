//! The reference pages say what docs.rs says: every public name has a section,
//! and each section's abstract and declaration are rustdoc's own.
//!
//! Reading rustdoc's output and the pages is the caller's; holding one
//! against the other is done here.

use vstd::prelude::*;
use crate::pages::{prose, prose_of, signature, signature_of, Section, SectionView, section_views};
use crate::rustdoc::{Kind, Symbol, SymbolView};
use crate::text::{chars_of, extend, joined, string_of, string_views, views};

verus! {

broadcast use vstd::string::group_string_axioms;

/// Where a repository's reference lives, and how far it has got.
pub struct Reference {
    /// Crate names under `target/doc`, or a path to a crate's output elsewhere.
    pub crates: &'static [&'static str],
    /// The pages, as a `git ls-files` pattern.
    pub pages: &'static str,
    /// While `false`, a name with no section is counted, not failed.
    pub complete: bool,
    /// `(name, reason)` for a public name no page carries.
    pub exempt: &'static [(&'static str, &'static str)],
}

/// What comparing the pages with rustdoc found.
pub struct Tally {
    pub faults: Vec<String>,
    pub missing: Vec<String>,
    pub placed: usize,
}

/// Whether `a` comes before `b` in the order of their characters, as `str`
/// orders them.
pub open spec fn before(a: Seq<char>, b: Seq<char>) -> bool
    decreases a.len(),
{
    if a.len() == 0 {
        b.len() > 0
    } else if b.len() == 0 {
        false
    } else if a[0] != b[0] {
        a[0] < b[0]
    } else {
        before(a.skip(1), b.skip(1))
    }
}

/// `ks` with `k` put in its place, unless it is there already.
pub open spec fn insert_sorted(ks: Seq<Seq<char>>, k: Seq<char>) -> Seq<Seq<char>>
    decreases ks.len(),
{
    if ks.len() == 0 {
        seq![k]
    } else if k == ks[0] {
        ks
    } else if before(k, ks[0]) {
        seq![k] + ks
    } else {
        seq![ks[0]] + insert_sorted(ks.skip(1), k)
    }
}

/// The distinct names of the first `n` sections, in order: the keys of a
/// map from name to sections.
pub open spec fn keys_upto(names: Seq<Seq<char>>, n: nat) -> Seq<Seq<char>>
    decreases n,
{
    if n == 0 || n > names.len() {
        Seq::empty()
    } else {
        insert_sorted(keys_upto(names, (n - 1) as nat), names[n - 1])
    }
}

/// The sections named `name`, in page order.
pub open spec fn with_name(sections: Seq<SectionView>, name: Seq<char>) -> Seq<SectionView>
    decreases sections.len(),
{
    if sections.len() == 0 {
        Seq::empty()
    } else {
        with_name(sections.drop_last(), name) + if sections.last().name == name {
            seq![sections.last()]
        } else {
            Seq::empty()
        }
    }
}

/// Whether a symbol is named `name`.
pub open spec fn has_symbol(symbols: Seq<SymbolView>, name: Seq<char>) -> bool {
    exists|i: int| 0 <= i < symbols.len() && #[trigger] symbols[i].name == name
}

/// What is wrong with the sections named `key`: more than one of them, or
/// none of them naming a public item.
pub open spec fn key_faults(sections: Seq<SectionView>, symbols: Seq<SymbolView>, key: Seq<char>) -> Seq<Seq<char>> {
    let found = with_name(sections, key);
    (if found.len() > 1 {
        seq![
            "  twice        `"@ + key + "`  "@ + joined(
                found.map_values(|s: SectionView| s.at),
                ", "@,
            ),
        ]
    } else {
        Seq::empty()
    }) + (if !has_symbol(symbols, key) {
        seq!["  unknown      "@ + found[0].at + "  `"@ + key + "` names no public item"@]
    } else {
        Seq::empty()
    })
}

/// What is wrong with the sections under each of `keys`.
pub open spec fn keys_faults(keys: Seq<Seq<char>>, sections: Seq<SectionView>, symbols: Seq<SymbolView>) -> Seq<Seq<char>>
    decreases keys.len(),
{
    if keys.len() == 0 {
        Seq::empty()
    } else {
        keys_faults(keys.drop_last(), sections, symbols) + key_faults(sections, symbols, keys.last())
    }
}

/// `t`, or `(none)` when it is empty.
pub open spec fn shown(t: Seq<char>) -> Seq<char> {
    if t.len() == 0 {
        "(none)"@
    } else {
        t
    }
}

/// How a difference between a section and rustdoc reads.
pub open spec fn differs_of(
    what: Seq<char>,
    section: SectionView,
    symbol: SymbolView,
    from: Seq<char>,
    theirs: Seq<char>,
    ours: Seq<char>,
) -> Seq<char> {
    "  "@ + what + "  "@ + section.at + "  `"@ + symbol.name + "`\n                 "@ + from + ": "@
        + shown(theirs) + "\n                 page:    "@ + shown(ours)
}

/// The text of an optional string, or nothing.
pub open spec fn or_empty(o: Option<Seq<char>>) -> Seq<char> {
    match o {
        Some(s) => s,
        None => Seq::empty(),
    }
}

/// What one symbol adds: faults, a missing section, and whether it is
/// placed.
pub open spec fn symbol_step(symbol: SymbolView, sections: Seq<SectionView>, exempt: Seq<Seq<char>>) -> (
    Seq<Seq<char>>,
    Seq<Seq<char>>,
    nat,
) {
    let exempted = exempt.contains(symbol.name);
    let found = with_name(sections, symbol.name);
    if found.len() == 0 {
        (
            Seq::empty(),
            if exempted {
                Seq::empty()
            } else {
                seq!["  missing      "@ + symbol.name + "  "@ + symbol.at + "  no section"@]
            },
            0,
        )
    } else {
        let section = found[0];
        let stale = if exempted {
            seq!["  stale        exemption `"@ + symbol.name + "`: "@ + section.at + " carries it"@]
        } else {
            Seq::empty()
        };
        if symbol.kind == Kind::Foreign {
            (stale, Seq::empty(), 1)
        } else {
            let theirs = prose_of(symbol.summary);
            let ours = prose_of(or_empty(section.summary));
            let summary = if theirs != ours {
                seq![differs_of("abstract   "@, section, symbol, "rustdoc"@, theirs, ours)]
            } else {
                Seq::empty()
            };
            let declared = if symbol.kind != Kind::Row && !section.row {
                let t = signature_of(symbol.declaration, symbol.name);
                let o = signature_of(or_empty(section.declaration), symbol.name);
                if t != o {
                    seq![differs_of("declaration"@, section, symbol, "source "@, t, o)]
                } else {
                    Seq::empty()
                }
            } else {
                Seq::empty()
            };
            (stale + summary + declared, Seq::empty(), 1)
        }
    }
}

/// The first `n` symbols held against the sections.
pub open spec fn symbols_upto(symbols: Seq<SymbolView>, sections: Seq<SectionView>, exempt: Seq<Seq<char>>, n: nat) -> (
    Seq<Seq<char>>,
    Seq<Seq<char>>,
    nat,
)
    decreases n,
{
    if n == 0 || n > symbols.len() {
        (Seq::empty(), Seq::empty(), 0)
    } else {
        let (f, m, p) = symbols_upto(symbols, sections, exempt, (n - 1) as nat);
        let (f2, m2, p2) = symbol_step(symbols[n - 1], sections, exempt);
        (f + f2, m + m2, p + p2)
    }
}

/// How many of the first `n` symbols are exempt and have no section.
pub open spec fn excused_upto(symbols: Seq<SymbolView>, sections: Seq<SectionView>, exempt: Seq<Seq<char>>, n: nat) -> nat
    decreases n,
{
    if n == 0 || n > symbols.len() {
        0
    } else {
        excused_upto(symbols, sections, exempt, (n - 1) as nat) + if exempt.contains(symbols[n - 1].name)
            && with_name(sections, symbols[n - 1].name).len() == 0 {
            1nat
        } else {
            0nat
        }
    }
}

proof fn lemma_partition_upto(symbols: Seq<SymbolView>, sections: Seq<SectionView>, exempt: Seq<Seq<char>>, n: nat)
    requires
        n <= symbols.len(),
    ensures
        symbols_upto(symbols, sections, exempt, n).2 + symbols_upto(symbols, sections, exempt, n).1.len()
            + excused_upto(symbols, sections, exempt, n) == n,
    decreases n,
{
    if n > 0 {
        lemma_partition_upto(symbols, sections, exempt, (n - 1) as nat);
    }
}

/// Every public name is counted once: placed, when a section carries it;
/// missing, when none does and it is not exempt; or excused, when none does
/// and it is.
pub proof fn every_name_is_placed_missing_or_excused(
    symbols: Seq<SymbolView>,
    sections: Seq<SectionView>,
    exempt: Seq<Seq<char>>,
)
    ensures
        compare_of(symbols, sections, exempt).2 + compare_of(symbols, sections, exempt).1.len() + excused_upto(
            symbols,
            sections,
            exempt,
            symbols.len(),
        ) == symbols.len(),
{
    lemma_partition_upto(symbols, sections, exempt, symbols.len());
}

/// A stale exemption for each exempted name that names nothing public.
pub open spec fn stale_exemptions(exempt: Seq<Seq<char>>, symbols: Seq<SymbolView>) -> Seq<Seq<char>>
    decreases exempt.len(),
{
    if exempt.len() == 0 {
        Seq::empty()
    } else {
        stale_exemptions(exempt.drop_last(), symbols) + if !has_symbol(symbols, exempt.last()) {
            seq!["  stale        exemption `"@ + exempt.last() + "` names nothing public"@]
        } else {
            Seq::empty()
        }
    }
}

/// What holding the sections against rustdoc's symbols finds: the faults,
/// the missing sections, and how many symbols have a section.
pub open spec fn compare_of(symbols: Seq<SymbolView>, sections: Seq<SectionView>, exempt: Seq<Seq<char>>) -> (
    Seq<Seq<char>>,
    Seq<Seq<char>>,
    nat,
) {
    let names = sections.map_values(|s: SectionView| s.name);
    let keys = keys_upto(names, names.len());
    let (f, m, p) = symbols_upto(symbols, sections, exempt, symbols.len());
    (keys_faults(keys, sections, symbols) + f + stale_exemptions(exempt, symbols), m, p)
}

/// The names of the exemptions.
pub open spec fn exempt_names(exempt: Seq<(&str, &str)>) -> Seq<Seq<char>> {
    exempt.map_values(|e: (&str, &str)| e.0@)
}

/// The views of a list of symbols.
pub open spec fn symbol_views(v: Seq<Symbol>) -> Seq<SymbolView> {
    v.map_values(|s: Symbol| s@)
}

/// Whether `a` comes before `b`.
fn comes_before(a: &[char], b: &[char]) -> (r: bool)
    ensures
        r == before(a@, b@),
{
    let mut i: usize = 0;
    assert(a@.skip(0) =~= a@);
    assert(b@.skip(0) =~= b@);
    while i < a.len() && i < b.len() && a[i] == b[i]
        invariant
            i <= a@.len(),
            i <= b@.len(),
            before(a@, b@) == before(a@.skip(i as int), b@.skip(i as int)),
        decreases a@.len() - i,
    {
        assert(a@.skip(i as int).skip(1) =~= a@.skip(i + 1));
        assert(b@.skip(i as int).skip(1) =~= b@.skip(i + 1));
        i = i + 1;
    }
    if i == a.len() {
        i < b.len()
    } else if i == b.len() {
        false
    } else {
        a[i] < b[i]
    }
}

/// Appends copies of `ks[from..to]` to `out`.
fn copy_keys(ks: &Vec<Vec<char>>, from: usize, to: usize, out: &mut Vec<Vec<char>>)
    requires
        from <= to <= ks@.len(),
    ensures
        final(out)@.map_values(|x: Vec<char>| x@) == old(out)@.map_values(|x: Vec<char>| x@)
            + ks@.map_values(|x: Vec<char>| x@).subrange(from as int, to as int),
{
    let ghost kv = ks@.map_values(|x: Vec<char>| x@);
    let ghost base = out@.map_values(|x: Vec<char>| x@);
    let mut j = from;
    while j < to
        invariant
            from <= j <= to <= ks@.len(),
            kv == ks@.map_values(|x: Vec<char>| x@),
            out@.map_values(|x: Vec<char>| x@) == base + kv.subrange(from as int, j as int),
        decreases to - j,
    {
        let ghost was = out@.map_values(|x: Vec<char>| x@);
        let copy = crate::text::slice(&ks[j], 0, ks[j].len());
        assert(copy@ =~= kv[j as int]);
        out.push(copy);
        assert(out@.map_values(|x: Vec<char>| x@) =~= was.push(kv[j as int]));
        assert(kv.subrange(from as int, j + 1) =~= kv.subrange(from as int, j as int).push(kv[j as int]));
        j = j + 1;
    }
}

/// `ks` with `k` put in its place, unless it is there already.
fn insert_key(ks: &Vec<Vec<char>>, k: &[char]) -> (r: Vec<Vec<char>>)
    ensures
        r@.map_values(|x: Vec<char>| x@) == insert_sorted(ks@.map_values(|x: Vec<char>| x@), k@),
{
    let ghost kv = ks@.map_values(|x: Vec<char>| x@);
    let mut i: usize = 0;
    assert(kv.take(0) + kv.skip(0) =~= kv);
    assert(insert_sorted(kv, k@) =~= kv.take(0) + insert_sorted(kv.skip(0), k@));
    let mut equal = false;
    while i < ks.len()
        invariant
            i <= ks@.len(),
            kv == ks@.map_values(|x: Vec<char>| x@),
            insert_sorted(kv, k@) == kv.take(i as int) + insert_sorted(kv.skip(i as int), k@),
            equal ==> i < ks@.len() && kv[i as int] == k@,
        ensures
            i <= ks@.len(),
            insert_sorted(kv, k@) == kv.take(i as int) + insert_sorted(kv.skip(i as int), k@),
            equal ==> i < ks@.len() && kv[i as int] == k@,
            !equal && i < ks@.len() ==> before(k@, kv[i as int]) && kv[i as int] != k@,
        decreases ks@.len() - i,
    {
        assert(kv.skip(i as int)[0] == ks@[i as int]@);
        if crate::text::same_chars(&ks[i], k) {
            equal = true;
            break;
        }
        if comes_before(k, &ks[i]) {
            break;
        }
        assert(kv.skip(i as int).skip(1) =~= kv.skip(i + 1));
        assert(kv.take(i + 1) =~= kv.take(i as int).push(kv[i as int]));
        assert(kv.take(i as int) + insert_sorted(kv.skip(i as int), k@) =~= kv.take(i + 1)
            + insert_sorted(kv.skip(i + 1), k@));
        i = i + 1;
    }
    let mut out: Vec<Vec<char>> = Vec::new();
    assert(out@.map_values(|x: Vec<char>| x@) =~= Seq::<Seq<char>>::empty());
    if equal {
        assert(kv.skip(i as int)[0] == kv[i as int]);
        assert(insert_sorted(kv.skip(i as int), k@) == kv.skip(i as int));
        copy_keys(ks, 0, ks.len(), &mut out);
        assert(kv.subrange(0, ks@.len() as int) =~= kv);
        assert(kv.take(i as int) + kv.skip(i as int) =~= kv);
        return out;
    }
    copy_keys(ks, 0, i, &mut out);
    let ghost was = out@.map_values(|x: Vec<char>| x@);
    let kk = crate::text::slice(k, 0, k.len());
    assert(kk@ =~= k@);
    out.push(kk);
    assert(out@.map_values(|x: Vec<char>| x@) =~= was.push(k@));
    copy_keys(ks, i, ks.len(), &mut out);
    proof {
        if i < ks@.len() {
            assert(kv.skip(i as int)[0] == kv[i as int]);
            assert(insert_sorted(kv.skip(i as int), k@) =~= seq![k@] + kv.skip(i as int));
        } else {
            assert(kv.skip(i as int) =~= Seq::<Seq<char>>::empty());
        }
        assert(kv.subrange(0, i as int) =~= kv.take(i as int));
        assert(kv.subrange(i as int, ks@.len() as int) =~= kv.skip(i as int));
        assert(out@.map_values(|x: Vec<char>| x@) =~= kv.take(i as int) + (seq![k@] + kv.skip(
            i as int,
        )));
    }
    out
}

/// Appends the literal `s` to `v`.
fn push_str(v: &mut Vec<char>, s: &str)
    ensures
        final(v)@ == old(v)@ + s@,
{
    let c = chars_of(s);
    extend(v, &c);
}

/// Where the sections named `name` stand, in page order.
fn named(sections: &[Section], name: &[char]) -> (r: Vec<usize>)
    ensures
        forall|j: int| 0 <= j < r@.len() ==> r@[j] < sections@.len(),
        r@.map_values(|i: usize| section_views(sections@)[i as int]) == with_name(
            section_views(sections@),
            name@,
        ),
{
    let ghost sv = section_views(sections@);
    let mut out: Vec<usize> = Vec::new();
    let mut i: usize = 0;
    while i < sections.len()
        invariant
            i <= sections@.len(),
            sv == section_views(sections@),
            forall|j: int| 0 <= j < out@.len() ==> out@[j] < i,
            out@.map_values(|x: usize| sv[x as int]) == with_name(sv.take(i as int), name@),
        decreases sections@.len() - i,
    {
        assert(sv.take(i + 1).drop_last() =~= sv.take(i as int));
        assert(sv.take(i + 1).last() == sections@[i as int]@);
        let ghost was = out@.map_values(|x: usize| sv[x as int]);
        if crate::text::same_chars(&chars_of(sections[i].name.as_str()), name) {
            out.push(i);
            assert(out@.map_values(|x: usize| sv[x as int]) =~= was.push(sv[i as int]));
        }
        i = i + 1;
    }
    assert(sv.take(sections@.len() as int) =~= sv);
    out
}

/// Whether some symbol is named `name`.
fn any_symbol(symbols: &[Symbol], name: &[char]) -> (r: bool)
    ensures
        r == has_symbol(symbol_views(symbols@), name@),
{
    let ghost yv = symbol_views(symbols@);
    let mut i: usize = 0;
    while i < symbols.len()
        invariant
            i <= symbols@.len(),
            yv == symbol_views(symbols@),
            forall|k: int| 0 <= k < i ==> yv[k].name != name@,
        decreases symbols@.len() - i,
    {
        if crate::text::same_chars(&chars_of(symbols[i].name.as_str()), name) {
            assert(yv[i as int].name == name@);
            return true;
        }
        i = i + 1;
    }
    false
}

/// Whether `name` is exempted.
fn exempted(exempt: &[(&str, &str)], name: &[char]) -> (r: bool)
    ensures
        r == exempt_names(exempt@).contains(name@),
{
    let ghost ev = exempt_names(exempt@);
    let mut i: usize = 0;
    while i < exempt.len()
        invariant
            i <= exempt@.len(),
            ev == exempt_names(exempt@),
            forall|k: int| 0 <= k < i ==> ev[k] != name@,
        decreases exempt@.len() - i,
    {
        if crate::text::same_chars(&chars_of(exempt[i].0), name) {
            assert(ev[i as int] == name@);
            return true;
        }
        i = i + 1;
    }
    false
}

/// `t`, or `(none)` when it is empty.
fn show(t: &[char]) -> (r: Vec<char>)
    ensures
        r@ == shown(t@),
{
    if t.len() == 0 {
        chars_of("(none)")
    } else {
        crate::text::slice(t, 0, t.len())
    }
}

/// How a difference between a section and rustdoc reads.
fn differs(
    what: &str,
    section: &Section,
    symbol: &Symbol,
    from: &str,
    theirs: &[char],
    ours: &[char],
) -> (r: String)
    ensures
        r@ == differs_of(what@, section@, symbol@, from@, theirs@, ours@),
{
    let mut m = chars_of("  ");
    push_str(&mut m, what);
    push_str(&mut m, "  ");
    push_str(&mut m, section.at.as_str());
    push_str(&mut m, "  `");
    push_str(&mut m, symbol.name.as_str());
    push_str(&mut m, "`\n                 ");
    push_str(&mut m, from);
    push_str(&mut m, ": ");
    extend(&mut m, &show(theirs));
    push_str(&mut m, "\n                 page:    ");
    extend(&mut m, &show(ours));
    string_of(&m)
}

/// The text of an optional string, or nothing.
fn or_nothing(o: &Option<String>) -> (r: String)
    ensures
        r@ == or_empty(crate::pages::opt_view(*o)),
{
    match o {
        Some(s) => string_of(&chars_of(s.as_str())),
        None => String::new(),
    }
}

/// What the sections under `key` have wrong.
fn faults_for_key(sections: &[Section], symbols: &[Symbol], key: &[char], out: &mut Vec<String>)
    requires
        with_name(section_views(sections@), key@).len() > 0,
    ensures
        string_views(final(out)@) == string_views(old(out)@) + key_faults(
            section_views(sections@),
            symbol_views(symbols@),
            key@,
        ),
{
    proof {
        reveal_strlit(", ");
    }
    let ghost sv = section_views(sections@);
    let ghost base = string_views(out@);
    let found = named(sections, key);
    let ghost fv = found@.map_values(|i: usize| sv[i as int]);
    let ghost first = if found@.len() > 1 {
        seq![
            "  twice        `"@ + key@ + "`  "@ + joined(
                fv.map_values(|s: SectionView| s.at),
                ", "@,
            ),
        ]
    } else {
        Seq::<Seq<char>>::empty()
    };
    if found.len() > 1 {
        let mut ats: Vec<Vec<char>> = Vec::new();
        let mut j: usize = 0;
        while j < found.len()
            invariant
                j <= found@.len(),
                sv == section_views(sections@),
                fv == found@.map_values(|i: usize| sv[i as int]),
                forall|x: int| 0 <= x < found@.len() ==> found@[x] < sections@.len(),
                ats@.map_values(|a: Vec<char>| a@) == fv.take(j as int).map_values(|s: SectionView| s.at),
            decreases found@.len() - j,
        {
            let ghost was = ats@.map_values(|a: Vec<char>| a@);
            assert(fv[j as int] == sv[found@[j as int] as int]);
            assert(sv[found@[j as int] as int] == sections@[found@[j as int] as int]@);
            ats.push(chars_of(sections[found[j]].at.as_str()));
            assert(ats@.map_values(|a: Vec<char>| a@) =~= was.push(fv[j as int].at));
            assert(ats@.map_values(|a: Vec<char>| a@) =~= fv.take(j + 1).map_values(
                |s: SectionView| s.at,
            ));
            j = j + 1;
        }
        assert(fv.take(found@.len() as int) =~= fv);
        let comma = vec![',', ' '];
        assert(comma@ =~= ", "@);
        let places = crate::text::join(&ats, &comma);
        let mut m = chars_of("  twice        `");
        extend(&mut m, key);
        push_str(&mut m, "`  ");
        extend(&mut m, &places);
        out.push(string_of(&m));
    }
    assert(string_views(out@) =~= base + first);
    let ghost mid = string_views(out@);
    if !any_symbol(symbols, key) {
        let at = chars_of(sections[found[0]].at.as_str());
        let mut m = chars_of("  unknown      ");
        extend(&mut m, &at);
        push_str(&mut m, "  `");
        extend(&mut m, key);
        push_str(&mut m, "` names no public item");
        out.push(string_of(&m));
        assert(string_views(out@) =~= mid + seq![
            "  unknown      "@ + fv[0].at + "  `"@ + key@ + "` names no public item"@,
        ]);
    } else {
        assert(string_views(out@) =~= mid + Seq::<Seq<char>>::empty());
    }
}

/// A name some section carries has sections under it.
proof fn lemma_named(sv: Seq<SectionView>, key: Seq<char>, i: int)
    requires
        0 <= i < sv.len(),
        sv[i].name == key,
    ensures
        with_name(sv, key).len() > 0,
    decreases sv.len(),
{
    if i < sv.len() - 1 {
        assert(sv.drop_last()[i] == sv[i]);
        lemma_named(sv.drop_last(), key, i);
    }
}

/// Every key put in place is `k` or was there before.
proof fn lemma_insert_members(ks: Seq<Seq<char>>, k: Seq<char>)
    ensures
        forall|j: int|
            0 <= j < insert_sorted(ks, k).len() ==> #[trigger] insert_sorted(ks, k)[j] == k
                || ks.contains(insert_sorted(ks, k)[j]),
    decreases ks.len(),
{
    if ks.len() > 0 && k != ks[0] && !before(k, ks[0]) {
        lemma_insert_members(ks.skip(1), k);
        assert forall|j: int| 0 <= j < insert_sorted(ks, k).len() implies #[trigger] insert_sorted(
            ks,
            k,
        )[j] == k || ks.contains(insert_sorted(ks, k)[j]) by {
            if j > 0 {
                let x = insert_sorted(ks.skip(1), k)[j - 1];
                assert(insert_sorted(ks, k)[j] == x);
                if ks.skip(1).contains(x) {
                    let m = choose|m: int| 0 <= m < ks.skip(1).len() && ks.skip(1)[m] == x;
                    assert(ks[m + 1] == x);
                }
            } else {
                assert(ks[0] == insert_sorted(ks, k)[0]);
            }
        }
    } else if ks.len() > 0 && k != ks[0] {
        assert forall|j: int| 0 <= j < insert_sorted(ks, k).len() implies #[trigger] insert_sorted(
            ks,
            k,
        )[j] == k || ks.contains(insert_sorted(ks, k)[j]) by {
            if j > 0 {
                assert(insert_sorted(ks, k)[j] == ks[j - 1]);
            }
        }
    } else if ks.len() > 0 {
        assert forall|j: int| 0 <= j < insert_sorted(ks, k).len() implies #[trigger] insert_sorted(
            ks,
            k,
        )[j] == k || ks.contains(insert_sorted(ks, k)[j]) by {
            assert(insert_sorted(ks, k)[j] == ks[j]);
        }
    }
}

/// Every key of the first `n` names is one of them.
proof fn lemma_keys_members(names: Seq<Seq<char>>, n: nat)
    requires
        n <= names.len(),
    ensures
        forall|j: int|
            0 <= j < keys_upto(names, n).len() ==> exists|i: int|
                0 <= i < n && names[i] == #[trigger] keys_upto(names, n)[j],
    decreases n,
{
    if n > 0 {
        lemma_keys_members(names, (n - 1) as nat);
        let prev = keys_upto(names, (n - 1) as nat);
        lemma_insert_members(prev, names[n - 1]);
        assert forall|j: int| 0 <= j < keys_upto(names, n).len() implies exists|i: int|
            0 <= i < n && names[i] == #[trigger] keys_upto(names, n)[j] by {
            let x = keys_upto(names, n)[j];
            if x == names[n - 1] {
                assert(names[n - 1] == x);
            } else {
                assert(prev.contains(x));
                let m = choose|m: int| 0 <= m < prev.len() && prev[m] == x;
                assert(exists|i: int| 0 <= i < n - 1 && names[i] == #[trigger] prev[m]);
            }
        }
    }
}

/// The distinct section names, in order.
fn section_keys(sections: &[Section]) -> (r: Vec<Vec<char>>)
    ensures
        r@.map_values(|x: Vec<char>| x@) == keys_upto(
            section_views(sections@).map_values(|s: SectionView| s.name),
            sections@.len() as nat,
        ),
{
    let ghost names = section_views(sections@).map_values(|s: SectionView| s.name);
    let mut keys: Vec<Vec<char>> = Vec::new();
    let mut i: usize = 0;
    while i < sections.len()
        invariant
            i <= sections@.len(),
            names == section_views(sections@).map_values(|s: SectionView| s.name),
            keys@.map_values(|x: Vec<char>| x@) == keys_upto(names, i as nat),
        decreases sections@.len() - i,
    {
        assert(names[i as int] == sections@[i as int].name@);
        let name = chars_of(sections[i].name.as_str());
        keys = insert_key(&keys, &name);
        i = i + 1;
    }
    keys
}

/// Every public name has a section, and every section agrees with rustdoc:
/// the faults, the names with no section, and how many have one.
pub fn compare(symbols: &[Symbol], sections: &[Section], exempt: &[(&str, &str)]) -> (r: Tally)
    ensures
        (string_views(r.faults@), string_views(r.missing@), r.placed as nat) == compare_of(
            symbol_views(symbols@),
            section_views(sections@),
            exempt_names(exempt@),
        ),
{
    let ghost sv = section_views(sections@);
    let ghost yv = symbol_views(symbols@);
    let ghost ev = exempt_names(exempt@);
    let ghost names = sv.map_values(|s: SectionView| s.name);
    let keys = section_keys(sections);
    let ghost kv = keys@.map_values(|x: Vec<char>| x@);
    proof {
        lemma_keys_members(names, names.len());
    }
    let mut faults: Vec<String> = Vec::new();
    let mut k: usize = 0;
    while k < keys.len()
        invariant
            k <= keys@.len(),
            sv == section_views(sections@),
            yv == symbol_views(symbols@),
            names == sv.map_values(|s: SectionView| s.name),
            kv == keys@.map_values(|x: Vec<char>| x@),
            kv == keys_upto(names, names.len()),
            forall|j: int|
                0 <= j < kv.len() ==> exists|i: int| 0 <= i < names.len() && names[i] == #[trigger] kv[j],
            string_views(faults@) == keys_faults(kv.take(k as int), sv, yv),
        decreases keys@.len() - k,
    {
        assert(kv[k as int] == keys@[k as int]@);
        proof {
            let i = choose|i: int| 0 <= i < names.len() && names[i] == kv[k as int];
            lemma_named(sv, kv[k as int], i);
        }
        assert(kv.take(k + 1).drop_last() =~= kv.take(k as int));
        faults_for_key(sections, symbols, &keys[k], &mut faults);
        k = k + 1;
    }
    assert(kv.take(keys@.len() as int) =~= kv);
    let ghost key_part = string_views(faults@);
    let mut missing: Vec<String> = Vec::new();
    let mut placed: usize = 0;
    let mut s: usize = 0;
    while s < symbols.len()
        invariant
            s <= symbols@.len(),
            sv == section_views(sections@),
            yv == symbol_views(symbols@),
            ev == exempt_names(exempt@),
            placed <= s,
            ({
                let (f, m, p) = symbols_upto(yv, sv, ev, s as nat);
                &&& string_views(faults@) == key_part + f
                &&& string_views(missing@) == m
                &&& placed == p
            }),
        decreases symbols@.len() - s,
    {
        let symbol = &symbols[s];
        assert(yv[s as int] == symbol@);
        let ghost step = symbol_step(symbol@, sv, ev);
        let ghost fb = string_views(faults@);
        let ghost mb = string_views(missing@);
        let name = chars_of(symbol.name.as_str());
        let is_exempt = exempted(exempt, &name);
        let found = named(sections, &name);
        if found.len() == 0 {
            if !is_exempt {
                let mut m = chars_of("  missing      ");
                extend(&mut m, &name);
                push_str(&mut m, "  ");
                push_str(&mut m, symbol.at.as_str());
                push_str(&mut m, "  no section");
                missing.push(string_of(&m));
            }
            assert(string_views(missing@) =~= mb + step.1);
            assert(string_views(faults@) =~= fb + step.0);
        } else {
            let section = &sections[found[0]];
            assert(sv[found[0] as int] == section@);
            placed = placed + 1;
            if is_exempt {
                let mut m = chars_of("  stale        exemption `");
                extend(&mut m, &name);
                push_str(&mut m, "`: ");
                push_str(&mut m, section.at.as_str());
                push_str(&mut m, " carries it");
                faults.push(string_of(&m));
            }
            if symbol.kind != Kind::Foreign {
                let theirs = prose(symbol.summary.as_str());
                let page = or_nothing(&section.summary);
                let ours = prose(page.as_str());
                let a = chars_of(theirs.as_str());
                let b = chars_of(ours.as_str());
                if !crate::text::same_chars(&a, &b) {
                    faults.push(differs("abstract   ", section, symbol, "rustdoc", &a, &b));
                }
                if symbol.kind != Kind::Row && !section.row {
                    let t = signature(symbol.declaration.as_str(), symbol.name.as_str());
                    let written = or_nothing(&section.declaration);
                    let o = signature(written.as_str(), symbol.name.as_str());
                    let tc = chars_of(t.as_str());
                    let oc = chars_of(o.as_str());
                    if !crate::text::same_chars(&tc, &oc) {
                        faults.push(differs("declaration", section, symbol, "source ", &tc, &oc));
                    }
                }
            }
            assert(string_views(faults@) =~= fb + step.0);
            assert(string_views(missing@) =~= mb + step.1);
        }
        s = s + 1;
    }
    let ghost sym_part = string_views(faults@);
    let mut e: usize = 0;
    while e < exempt.len()
        invariant
            e <= exempt@.len(),
            yv == symbol_views(symbols@),
            ev == exempt_names(exempt@),
            string_views(faults@) == sym_part + stale_exemptions(ev.take(e as int), yv),
        decreases exempt@.len() - e,
    {
        assert(ev.take(e + 1).drop_last() =~= ev.take(e as int));
        assert(ev[e as int] == exempt@[e as int].0@);
        let ghost was = string_views(faults@);
        let name = chars_of(exempt[e].0);
        if !any_symbol(symbols, &name) {
            let mut m = chars_of("  stale        exemption `");
            extend(&mut m, &name);
            push_str(&mut m, "` names nothing public");
            faults.push(string_of(&m));
            assert(string_views(faults@) =~= was.push(
                "  stale        exemption `"@ + name@ + "` names nothing public"@,
            ));
        }
        e = e + 1;
    }
    assert(ev.take(exempt@.len() as int) =~= ev);
    Tally { faults, missing, placed }
}

} // verus!
