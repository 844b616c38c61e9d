//! Identifiers derived from names: slugs, made unique with numeric suffixes.

use vstd::prelude::*;
use vstd::set_lib::{lemma_int_range, lemma_len_subset, lemma_map_size, set_int_range};

use crate::text::{
    ascii_alnum, decimal, digit_char, is_ascii_alnum, is_ascii_digit, lower_char, owned,
    push_char, push_decimal, string_from_chars, to_ascii_lower,
};

verus! {

/// One character of the slug scan: letters and digits are kept in lower case, and each
/// run of other characters after some kept text becomes one `-`.
pub open spec fn slug_step(acc: (Seq<char>, bool), c: char) -> (Seq<char>, bool) {
    if is_ascii_alnum(c) {
        (acc.0.push(lower_char(c)), false)
    } else if !acc.1 && acc.0.len() > 0 {
        (acc.0.push('-'), true)
    } else {
        acc
    }
}

pub open spec fn slug_scan(s: Seq<char>) -> (Seq<char>, bool)
    decreases s.len(),
{
    if s.len() == 0 {
        (Seq::empty(), false)
    } else {
        slug_step(slug_scan(s.drop_last()), s.last())
    }
}

pub open spec fn strip_trailing_dashes(r: Seq<char>) -> Seq<char>
    decreases r.len(),
{
    if r.len() > 0 && r.last() == '-' {
        strip_trailing_dashes(r.drop_last())
    } else {
        r
    }
}

/// The slug of `s`, or `fallback` when nothing of it remains.
pub open spec fn slug(s: Seq<char>, fallback: Seq<char>) -> Seq<char> {
    let r = strip_trailing_dashes(slug_scan(s).0);
    if r.len() == 0 {
        fallback
    } else {
        r
    }
}

pub open spec fn is_slug_char(c: char) -> bool {
    is_ascii_digit(c) || ('a' <= c && c <= 'z') || c == '-'
}

/// A slug: non-empty lower-case letters, digits and single dashes, with no dash at either
/// end.
pub open spec fn is_slug(r: Seq<char>) -> bool {
    &&& r.len() > 0
    &&& forall|k: int| 0 <= k < r.len() ==> is_slug_char(#[trigger] r[k])
    &&& r[0] != '-'
    &&& r.last() != '-'
    &&& forall|k: int| 0 <= k < r.len() - 1 ==> !(#[trigger] r[k] == '-' && r[k + 1] == '-')
}

/// The text of a slug scan so far: only slug characters, no leading dash, no double dash,
/// and the flag says whether it ends with a dash.
pub open spec fn scan_ok(acc: (Seq<char>, bool)) -> bool {
    &&& forall|k: int| 0 <= k < acc.0.len() ==> is_slug_char(#[trigger] acc.0[k])
    &&& acc.0.len() > 0 ==> acc.0[0] != '-'
    &&& forall|k: int| 0 <= k < acc.0.len() - 1 ==> !(#[trigger] acc.0[k] == '-' && acc.0[k + 1] == '-')
    &&& acc.1 == (acc.0.len() > 0 && acc.0.last() == '-')
}

proof fn lemma_scan_ok(s: Seq<char>)
    ensures
        scan_ok(slug_scan(s)),
    decreases s.len(),
{
    if s.len() > 0 {
        lemma_scan_ok(s.drop_last());
        let acc = slug_scan(s.drop_last());
        let c = s.last();
        let next = slug_step(acc, c);
        if is_ascii_alnum(c) {
            assert(is_slug_char(lower_char(c)));
            assert forall|k: int| 0 <= k < next.0.len() - 1 implies !(#[trigger] next.0[k] == '-'
                && next.0[k + 1] == '-') by {
                if k == next.0.len() - 2 {
                    assert(next.0[k + 1] == lower_char(c));
                } else {
                    assert(next.0[k] == acc.0[k] && next.0[k + 1] == acc.0[k + 1]);
                }
            }
        } else if !acc.1 && acc.0.len() > 0 {
            assert forall|k: int| 0 <= k < next.0.len() - 1 implies !(#[trigger] next.0[k] == '-'
                && next.0[k + 1] == '-') by {
                if k == next.0.len() - 2 {
                    assert(next.0[k] == acc.0.last());
                } else {
                    assert(next.0[k] == acc.0[k] && next.0[k + 1] == acc.0[k + 1]);
                }
            }
        }
    }
}

proof fn lemma_strip_ok(r: Seq<char>)
    requires
        forall|k: int| 0 <= k < r.len() ==> is_slug_char(#[trigger] r[k]),
        r.len() > 0 ==> r[0] != '-',
        forall|k: int| 0 <= k < r.len() - 1 ==> !(#[trigger] r[k] == '-' && r[k + 1] == '-'),
    ensures
        strip_trailing_dashes(r).len() > 0 ==> is_slug(strip_trailing_dashes(r)),
        strip_trailing_dashes(r).len() <= r.len(),
        strip_trailing_dashes(r) == r.subrange(0, strip_trailing_dashes(r).len() as int),
    decreases r.len(),
{
    if r.len() > 0 && r.last() == '-' {
        let d = r.drop_last();
        assert forall|k: int| 0 <= k < d.len() - 1 implies !(#[trigger] d[k] == '-' && d[k + 1]
            == '-') by {
            assert(d[k] == r[k] && d[k + 1] == r[k + 1]);
        }
        lemma_strip_ok(d);
        let t = strip_trailing_dashes(d);
        assert(t =~= r.subrange(0, t.len() as int));
    } else {
        assert(r =~= r.subrange(0, r.len() as int));
    }
}

/// The slug of a name, or `fallback` when the name holds no letter or digit.
pub fn slugify(value: &str, fallback: &str) -> (r: String)
    requires
        is_slug(fallback@),
    ensures
        r@ == slug(value@, fallback@),
        is_slug(r@),
{
    let n = value.unicode_len();
    let mut result: Vec<char> = Vec::new();
    let mut separator = false;
    let mut i: usize = 0;
    assert(value@.subrange(0, 0) =~= Seq::<char>::empty());
    while i < n
        invariant
            n == value@.len(),
            i <= n,
            slug_scan(value@.subrange(0, i as int)) == (result@, separator),
        decreases n - i,
    {
        let c = value.get_char(i);
        let ghost pre = value@.subrange(0, i as int);
        assert(value@.subrange(0, i + 1).drop_last() =~= pre);
        if ascii_alnum(c) {
            result.push(to_ascii_lower(c));
            separator = false;
        } else if !separator && result.len() > 0 {
            result.push('-');
            separator = true;
        }
        i = i + 1;
    }
    assert(value@.subrange(0, n as int) =~= value@);
    proof {
        lemma_scan_ok(value@);
        lemma_strip_ok(result@);
    }
    while result.len() > 0 && result[result.len() - 1] == '-'
        invariant
            strip_trailing_dashes(result@) == strip_trailing_dashes(slug_scan(value@).0),
        decreases result@.len(),
    {
        result.pop();
    }
    if result.len() == 0 {
        owned(fallback)
    } else {
        string_from_chars(&result)
    }
}

/// The `k`-th candidate for a name: the base itself, then `base-2`, `base-3`, ...
pub open spec fn candidate(base: Seq<char>, k: int) -> Seq<char> {
    if k <= 1 {
        base
    } else {
        base + seq!['-'] + decimal(k as nat)
    }
}

/// The first candidate that is not used yet.
pub open spec fn first_free(base: Seq<char>, used: Seq<Seq<char>>, k: int) -> bool {
    &&& k >= 1
    &&& !used.contains(candidate(base, k))
    &&& forall|j: int| 1 <= j < k ==> used.contains(#[trigger] candidate(base, j))
}

proof fn lemma_decimal_nonempty(n: nat)
    ensures
        decimal(n).len() >= 1,
        n >= 10 ==> decimal(n).len() >= 2,
    decreases n,
{
    if n >= 10 {
        lemma_decimal_nonempty(n / 10);
    }
}

proof fn lemma_decimal_injective(a: nat, b: nat)
    requires
        decimal(a) == decimal(b),
    ensures
        a == b,
    decreases a,
{
    lemma_decimal_nonempty(a);
    lemma_decimal_nonempty(b);
    if a < 10 && b < 10 {
        assert(decimal(a)[0] == digit_char(a));
        assert(decimal(b)[0] == digit_char(b));
    } else if a >= 10 && b >= 10 {
        assert(decimal(a).last() == digit_char(a % 10));
        assert(decimal(b).last() == digit_char(b % 10));
        assert(decimal(a).drop_last() == decimal(a / 10));
        assert(decimal(b).drop_last() == decimal(b / 10));
        lemma_decimal_injective(a / 10, b / 10);
    } else {
        lemma_decimal_nonempty(a / 10);
        lemma_decimal_nonempty(b / 10);
    }
}

proof fn lemma_candidate_injective(base: Seq<char>, a: int, b: int)
    requires
        a >= 1,
        b >= 1,
        candidate(base, a) == candidate(base, b),
    ensures
        a == b,
{
    lemma_decimal_nonempty(a as nat);
    lemma_decimal_nonempty(b as nat);
    if a > 1 && b > 1 {
        let l = base.len() + 1;
        assert(candidate(base, a).subrange(l as int, candidate(base, a).len() as int) =~= decimal(
            a as nat,
        ));
        assert(candidate(base, b).subrange(l as int, candidate(base, b).len() as int) =~= decimal(
            b as nat,
        ));
        lemma_decimal_injective(a as nat, b as nat);
    } else if a > 1 {
        assert(candidate(base, a).len() > candidate(base, b).len());
    } else if b > 1 {
        assert(candidate(base, b).len() > candidate(base, a).len());
    }
}

/// If the first `k` candidates are all used, there are at least `k` used names.
proof fn lemma_used_bound(base: Seq<char>, used: Seq<Seq<char>>, k: int)
    requires
        k >= 0,
        forall|j: int| 1 <= j <= k ==> used.contains(#[trigger] candidate(base, j)),
    ensures
        k <= used.len(),
{
    let range = set_int_range(1, k + 1);
    lemma_int_range(1, k + 1);
    let f = |j: int| candidate(base, j);
    let image = range.map(f);
    assert(vstd::relations::injective_on(f, range)) by {
        assert forall|x: int, y: int| range.contains(x) && range.contains(y) && #[trigger] f(x)
            == #[trigger] f(y) implies x == y by {
            lemma_candidate_injective(base, x, y);
        }
    }
    lemma_map_size(range, image, f);
    assert(image.subset_of(used.to_set())) by {
        assert forall|x: Seq<char>| image.contains(x) implies used.to_set().contains(x) by {
            let j = choose|j: int| range.contains(j) && f(j) == x;
            assert(used.contains(candidate(base, j)));
        }
    }
    used.lemma_cardinality_of_set();
    lemma_len_subset(image, used.to_set());
}

pub open spec fn string_views(v: Seq<String>) -> Seq<Seq<char>> {
    v.map_values(|s: String| s@)
}

fn used_contains(used: &Vec<String>, name: &String) -> (b: bool)
    ensures
        b == string_views(used@).contains(name@),
{
    let mut j: usize = 0;
    while j < used.len()
        invariant
            j <= used@.len(),
            forall|q: int| 0 <= q < j ==> used@[q]@ != name@,
        decreases used@.len() - j,
    {
        if used[j] == *name {
            assert(string_views(used@)[j as int] == name@);
            return true;
        }
        j = j + 1;
    }
    assert forall|q: int| 0 <= q < used@.len() implies string_views(used@)[q] != name@ by {
        assert(string_views(used@)[q] == used@[q]@);
    }
    false
}

fn candidate_string(base: &String, k: u128) -> (r: String)
    requires
        k >= 1,
    ensures
        r@ == candidate(base@, k as int),
{
    if k <= 1 {
        base.clone()
    } else {
        let mut r = base.clone();
        push_char(&mut r, '-');
        push_decimal(&mut r, k);
        assert(r@ =~= candidate(base@, k as int));
        r
    }
}

/// The first of `base`, `base-2`, `base-3`, ... that is not among `used`.
pub fn unique_name(base: &String, used: &Vec<String>) -> (r: String)
    ensures
        exists|k: int| first_free(base@, string_views(used@), k) && r@ == candidate(base@, k),
{
    let ghost u = string_views(used@);
    let count = used.len();
    let mut k: u128 = 1;
    let mut name = base.clone();
    while used_contains(used, &name)
        invariant
            u == string_views(used@),
            count == used@.len(),
            1 <= k <= used@.len() + 1,
            name@ == candidate(base@, k as int),
            forall|j: int| 1 <= j < k ==> u.contains(#[trigger] candidate(base@, j)),
        decreases used@.len() + 1 - k,
    {
        proof {
            assert(forall|j: int| 1 <= j <= k ==> u.contains(#[trigger] candidate(base@, j)));
            lemma_used_bound(base@, u, k as int);
            assert(u.len() == used@.len());
        }
        k = k + 1;
        name = candidate_string(base, k);
    }
    assert(first_free(base@, u, k as int));
    name
}

} // verus!
