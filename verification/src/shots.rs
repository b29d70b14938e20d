//! What a screenshot is called: `<slug>-<n>.bmp`, with `n` the first number
//! not already taken, so a second capture never overwrites the first, in the
//! same run or a later one. Listing the directory is the caller's.

use vstd::prelude::*;
use vstd::set_lib::{lemma_int_range, lemma_len_subset, lemma_map_size, set_int_range};

use crate::text::{chars_of, same_chars, string_of, string_views};

verus! {

/// The digit `d` stands for.
pub open spec fn digit_char(d: nat) -> char {
    if d == 0 {
        '0'
    } else if d == 1 {
        '1'
    } else if d == 2 {
        '2'
    } else if d == 3 {
        '3'
    } else if d == 4 {
        '4'
    } else if d == 5 {
        '5'
    } else if d == 6 {
        '6'
    } else if d == 7 {
        '7'
    } else if d == 8 {
        '8'
    } else {
        '9'
    }
}

/// `n` written in decimal, with no leading zeros.
pub open spec fn digits(n: nat) -> Seq<char>
    decreases n,
{
    if n < 10 {
        seq![digit_char(n)]
    } else {
        digits(n / 10).push(digit_char(n % 10))
    }
}

/// The name a screenshot is written under, before its extension.
pub open spec fn shot_stem(slug: Seq<char>, n: nat) -> Seq<char> {
    slug + seq!['-'] + digits(n)
}

/// The file a screenshot is written to: `<slug>-<n>.bmp`.
pub open spec fn shot_name(slug: Seq<char>, n: nat) -> Seq<char> {
    shot_stem(slug, n) + seq!['.', 'b', 'm', 'p']
}

/// Whether `n` is the first number from 1 up whose file is not among `names`.
pub open spec fn first_free(slug: Seq<char>, names: Seq<Seq<char>>, n: nat) -> bool {
    &&& n >= 1
    &&& !names.contains(shot_name(slug, n))
    &&& forall|k: nat| 1 <= k < n ==> names.contains(#[trigger] shot_name(slug, k))
}

/// A second capture never overwrites the first: once the first shot's file
/// is among the names, the next shot takes a later number and another file.
pub proof fn a_second_shot_never_overwrites_the_first(slug: Seq<char>, names: Seq<Seq<char>>, first: nat, second: nat)
    requires
        first_free(slug, names, first),
        first_free(slug, names.push(shot_name(slug, first)), second),
    ensures
        first < second,
        shot_name(slug, second) != shot_name(slug, first),
{
    let after = names.push(shot_name(slug, first));
    assert(after[names.len() as int] == shot_name(slug, first));
    if second < first {
        assert(names.contains(shot_name(slug, second)));
        let j = choose|j: int| 0 <= j < names.len() && names[j] == shot_name(slug, second);
        assert(after[j] == shot_name(slug, second));
    }
}

/// The digit `d` stands for.
fn digit(d: u64) -> (c: char)
    requires
        d < 10,
    ensures
        c == digit_char(d as nat),
{
    if d == 0 {
        '0'
    } else if d == 1 {
        '1'
    } else if d == 2 {
        '2'
    } else if d == 3 {
        '3'
    } else if d == 4 {
        '4'
    } else if d == 5 {
        '5'
    } else if d == 6 {
        '6'
    } else if d == 7 {
        '7'
    } else if d == 8 {
        '8'
    } else {
        '9'
    }
}

/// `n` in decimal.
fn decimal(n: u64) -> (r: Vec<char>)
    ensures
        r@ == digits(n as nat),
    decreases n,
{
    if n < 10 {
        let mut v = Vec::new();
        v.push(digit(n));
        v
    } else {
        let mut v = decimal(n / 10);
        v.push(digit(n % 10));
        v
    }
}

/// The name the `n`th screenshot of `slug` is written under, before its
/// extension.
pub fn shot_stem_of(slug: &str, n: u64) -> (r: String)
    ensures
        r@ == shot_stem(slug@, n as nat),
{
    let mut v = chars_of(slug);
    v.push('-');
    let d = decimal(n);
    let mut i: usize = 0;
    let ghost start = v@;
    while i < d.len()
        invariant
            i <= d@.len(),
            v@ == start + d@.take(i as int),
        decreases d@.len() - i,
    {
        v.push(d[i]);
        assert(d@.take(i + 1) =~= d@.take(i as int).push(d@[i as int]));
        i = i + 1;
    }
    assert(d@.take(d@.len() as int) =~= d@);
    assert(v@ =~= shot_stem(slug@, n as nat));
    string_of(&v)
}

/// A number is written with at least one digit.
proof fn lemma_digits_len(n: nat)
    ensures
        digits(n).len() >= 1,
        n >= 10 ==> digits(n).len() >= 2,
    decreases n,
{
    if n >= 10 {
        lemma_digits_len(n / 10);
    }
}

/// Two digits written alike are the same digit.
proof fn lemma_digit_char_injective(a: nat, b: nat)
    requires
        a < 10,
        b < 10,
        digit_char(a) == digit_char(b),
    ensures
        a == b,
{
}

/// Two numbers written alike are the same number.
proof fn lemma_digits_injective(a: nat, b: nat)
    requires
        digits(a) == digits(b),
    ensures
        a == b,
    decreases a,
{
    lemma_digits_len(a);
    lemma_digits_len(b);
    if a >= 10 && b >= 10 {
        assert(digits(a).drop_last() == digits(a / 10));
        assert(digits(b).drop_last() == digits(b / 10));
        lemma_digits_injective(a / 10, b / 10);
        assert(digits(a).last() == digit_char(a % 10));
        assert(digits(b).last() == digit_char(b % 10));
        lemma_digit_char_injective(a % 10, b % 10);
    } else if a < 10 && b < 10 {
        assert(digits(a)[0] == digit_char(a));
        assert(digits(b)[0] == digit_char(b));
        lemma_digit_char_injective(a, b);
    }
}

/// Two shots of one slug have the same name only when they have the same
/// number.
proof fn lemma_shot_name_injective(slug: Seq<char>, a: nat, b: nat)
    requires
        shot_name(slug, a) == shot_name(slug, b),
    ensures
        a == b,
{
    let na = shot_name(slug, a);
    let nb = shot_name(slug, b);
    let lo = slug.len() + 1;
    assert(digits(a) =~= na.subrange(lo as int, na.len() - 4));
    assert(digits(b) =~= nb.subrange(lo as int, nb.len() - 4));
    lemma_digits_injective(a, b);
}

/// Where every number from 1 to `n` is taken, there are at least `n` names.
proof fn lemma_taken_bound(slug: Seq<char>, names: Seq<Seq<char>>, n: nat)
    requires
        forall|k: nat| 1 <= k <= n ==> names.contains(#[trigger] shot_name(slug, k)),
    ensures
        n <= names.len(),
{
    let f = |k: int| shot_name(slug, k as nat);
    let x = set_int_range(1, n + 1 as int);
    lemma_int_range(1, n + 1 as int);
    assert forall|p: int, q: int| x.contains(p) && x.contains(q) && #[trigger] f(p) == #[trigger] f(q) implies p == q by {
        lemma_shot_name_injective(slug, p as nat, q as nat);
    }
    let y = x.map(f);
    lemma_map_size(x, y, f);
    assert forall|s: Seq<char>| y.contains(s) implies names.to_set().contains(s) by {
        let k = choose|k: int| x.contains(k) && f(k) == s;
        assert(names.contains(shot_name(slug, k as nat)));
    }
    names.lemma_cardinality_of_set();
    lemma_len_subset(y, names.to_set());
}

/// The first number `n` from 1 up whose `<slug>-<n>.bmp` is not among
/// `existing`, the names already in the directory.
pub fn next_number(slug: &str, existing: &[String]) -> (n: u64)
    requires
        existing@.len() < u64::MAX,
    ensures
        n >= 1,
        !string_views(existing@).contains(shot_name(slug@, n as nat)),
        forall|k: nat| 1 <= k < n ==> string_views(existing@).contains(#[trigger] shot_name(slug@, k)),
        first_free(slug@, string_views(existing@), n as nat),
{
    let ghost names = string_views(existing@);
    let mut n: u64 = 1;
    loop
        invariant
            1 <= n <= existing@.len() + 1,
            names == string_views(existing@),
            existing@.len() < u64::MAX,
            forall|k: nat| 1 <= k < n ==> names.contains(#[trigger] shot_name(slug@, k)),
        decreases existing@.len() + 1 - n,
    {
        let mut name = chars_of(shot_stem_of(slug, n).as_str());
        name.push('.');
        name.push('b');
        name.push('m');
        name.push('p');
        assert(name@ =~= shot_name(slug@, n as nat));
        let mut taken = false;
        let mut i: usize = 0;
        while i < existing.len()
            invariant
                i <= existing@.len(),
                names == string_views(existing@),
                taken == exists|j: int| 0 <= j < i && #[trigger] names[j] == name@,
            decreases existing@.len() - i,
        {
            assert(names[i as int] == existing@[i as int]@);
            if same_chars(&chars_of(existing[i].as_str()), &name) {
                taken = true;
            }
            i = i + 1;
        }
        if !taken {
            assert(!names.contains(shot_name(slug@, n as nat)));
            return n;
        }
        proof {
            let j = choose|j: int| 0 <= j < existing@.len() && #[trigger] names[j] == name@;
            assert(names.contains(shot_name(slug@, n as nat)));
            assert forall|k: nat| 1 <= k <= n implies names.contains(#[trigger] shot_name(slug@, k)) by {}
            lemma_taken_bound(slug@, names, n as nat);
        }
        n = n + 1;
    }
}

} // verus!
