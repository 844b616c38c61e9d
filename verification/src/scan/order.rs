//! The order in which findings are reconciled: by repository, path, line, tag and message,
//! each text compared character by character.

use vstd::prelude::*;

use crate::domain::annotation::Finding;

verus! {

broadcast use vstd::seq_lib::group_to_multiset_ensures;

/// Lexicographic order of texts by character code (the order of `str`).
pub open spec fn text_lt(a: Seq<char>, b: Seq<char>) -> bool
    decreases a.len(),
{
    if a.len() == 0 {
        b.len() > 0
    } else if b.len() == 0 {
        false
    } else if a[0] != b[0] {
        (a[0] as int) < (b[0] as int)
    } else {
        text_lt(a.drop_first(), b.drop_first())
    }
}

/// No text comes before itself.
pub proof fn lemma_text_lt_irreflexive(a: Seq<char>)
    ensures
        !text_lt(a, a),
    decreases a.len(),
{
    if a.len() > 0 {
        lemma_text_lt_irreflexive(a.drop_first());
    }
}

/// The order of texts is transitive.
pub proof fn lemma_text_lt_transitive(a: Seq<char>, b: Seq<char>, c: Seq<char>)
    requires
        text_lt(a, b),
        text_lt(b, c),
    ensures
        text_lt(a, c),
    decreases a.len(),
{
    if a.len() > 0 && b.len() > 0 && c.len() > 0 && a[0] == b[0] && b[0] == c[0] {
        lemma_text_lt_transitive(a.drop_first(), b.drop_first(), c.drop_first());
    }
}

/// Of two different texts, one comes before the other.
pub proof fn lemma_text_lt_total(a: Seq<char>, b: Seq<char>)
    ensures
        a == b || text_lt(a, b) || text_lt(b, a),
    decreases a.len(),
{
    if a.len() > 0 && b.len() > 0 && a[0] == b[0] {
        lemma_text_lt_total(a.drop_first(), b.drop_first());
        if a.drop_first() == b.drop_first() {
            assert(a =~= seq![a[0]] + a.drop_first());
            assert(b =~= seq![b[0]] + b.drop_first());
        }
    } else if a.len() == 0 && b.len() == 0 {
        assert(a =~= b);
    } else if a.len() > 0 && b.len() > 0 {
        assert((a[0] as int) != (b[0] as int));
    }
}

proof fn lemma_text_lt_common_prefix(a: Seq<char>, b: Seq<char>, i: int)
    requires
        0 <= i <= a.len(),
        i <= b.len(),
        a.subrange(0, i) == b.subrange(0, i),
    ensures
        text_lt(a, b) == text_lt(a.subrange(i, a.len() as int), b.subrange(i, b.len() as int)),
    decreases i,
{
    if i > 0 {
        assert(a[0] == a.subrange(0, i)[0]);
        assert(b[0] == b.subrange(0, i)[0]);
        assert(a.drop_first().subrange(0, i - 1) =~= a.subrange(0, i).drop_first());
        assert(b.drop_first().subrange(0, i - 1) =~= b.subrange(0, i).drop_first());
        lemma_text_lt_common_prefix(a.drop_first(), b.drop_first(), i - 1);
        assert(a.drop_first().subrange(i - 1, a.len() - 1) =~= a.subrange(i, a.len() as int));
        assert(b.drop_first().subrange(i - 1, b.len() - 1) =~= b.subrange(i, b.len() as int));
    } else {
        assert(a.subrange(0, a.len() as int) =~= a);
        assert(b.subrange(0, b.len() as int) =~= b);
    }
}

/// Compares two texts: negative, zero or positive as `a` comes before, equals or follows `b`.
pub fn compare_text(a: &str, b: &str) -> (r: i8)
    ensures
        r < 0 <==> text_lt(a@, b@),
        r == 0 <==> a@ == b@,
        r > 0 <==> text_lt(b@, a@),
{
    proof {
        lemma_text_lt_irreflexive(a@);
        lemma_text_lt_total(a@, b@);
    }
    let n = a.unicode_len();
    let m = b.unicode_len();
    let mut i: usize = 0;
    while i < n && i < m
        invariant
            n == a@.len(),
            m == b@.len(),
            i <= n,
            i <= m,
            a@.subrange(0, i as int) == b@.subrange(0, i as int),
        decreases n - i,
    {
        let x = a.get_char(i);
        let y = b.get_char(i);
        if x != y {
            proof {
                lemma_text_lt_common_prefix(a@, b@, i as int);
                lemma_text_lt_common_prefix(b@, a@, i as int);
                let ra = a@.subrange(i as int, n as int);
                let rb = b@.subrange(i as int, m as int);
                assert(ra[0] == x);
                assert(rb[0] == y);
                if a@ == b@ {
                    assert(a@[i as int] == b@[i as int]);
                }
            }
            if (x as u32) < (y as u32) {
                return -1;
            } else {
                return 1;
            }
        }
        i = i + 1;
        assert(a@.subrange(0, i as int) =~= b@.subrange(0, i as int)) by {
            assert forall|k: int| 0 <= k < i implies a@.subrange(0, i as int)[k] == b@.subrange(
                0,
                i as int,
            )[k] by {
                if k < i - 1 {
                    assert(a@.subrange(0, i - 1)[k] == b@.subrange(0, i - 1)[k]);
                }
            }
        }
    }
    proof {
        lemma_text_lt_common_prefix(a@, b@, i as int);
        lemma_text_lt_common_prefix(b@, a@, i as int);
        if n == m {
            assert(a@ =~= a@.subrange(0, i as int));
            assert(b@ =~= b@.subrange(0, i as int));
        }
    }
    if n < m {
        -1
    } else if n == m {
        0
    } else {
        1
    }
}

/// The order of findings: repository, path, line, tag, message.
pub open spec fn finding_lt(f: Finding, g: Finding) -> bool {
    if f.repository_id@ != g.repository_id@ {
        text_lt(f.repository_id@, g.repository_id@)
    } else if f.path@ != g.path@ {
        text_lt(f.path@, g.path@)
    } else if f.line != g.line {
        f.line < g.line
    } else if f.tag@ != g.tag@ {
        text_lt(f.tag@, g.tag@)
    } else {
        text_lt(f.message@, g.message@)
    }
}

/// No finding comes before itself, and the order is transitive.
pub proof fn lemma_finding_lt_order(f: Finding, g: Finding, h: Finding)
    ensures
        !finding_lt(f, f),
        finding_lt(f, g) && finding_lt(g, h) ==> finding_lt(f, h),
{
    lemma_text_lt_irreflexive(f.message@);
    if finding_lt(f, g) && finding_lt(g, h) {
        lemma_text_lt_irreflexive(f.repository_id@);
        lemma_text_lt_irreflexive(f.path@);
        lemma_text_lt_irreflexive(f.tag@);
        if f.repository_id@ != g.repository_id@ && g.repository_id@ != h.repository_id@ {
            lemma_text_lt_transitive(f.repository_id@, g.repository_id@, h.repository_id@);
        } else if f.repository_id@ == g.repository_id@ && g.repository_id@ == h.repository_id@ {
            if f.path@ != g.path@ && g.path@ != h.path@ {
                lemma_text_lt_transitive(f.path@, g.path@, h.path@);
            } else if f.path@ == g.path@ && g.path@ == h.path@ {
                if f.line == g.line && g.line == h.line {
                    if f.tag@ != g.tag@ && g.tag@ != h.tag@ {
                        lemma_text_lt_transitive(f.tag@, g.tag@, h.tag@);
                    } else if f.tag@ == g.tag@ && g.tag@ == h.tag@ {
                        lemma_text_lt_transitive(f.message@, g.message@, h.message@);
                    }
                }
            }
        }
    }
}

/// Whether `f` comes before `g`.
pub fn finding_before(f: &Finding, g: &Finding) -> (r: bool)
    ensures
        r == finding_lt(*f, *g),
{
    let c = compare_text(f.repository_id.as_str(), g.repository_id.as_str());
    if c != 0 {
        return c < 0;
    }
    let c = compare_text(f.path.as_str(), g.path.as_str());
    if c != 0 {
        return c < 0;
    }
    if f.line != g.line {
        return f.line < g.line;
    }
    let c = compare_text(f.tag.as_str(), g.tag.as_str());
    if c != 0 {
        return c < 0;
    }
    compare_text(f.message.as_str(), g.message.as_str()) < 0
}

/// Whether no finding of `s` comes before one that precedes it.
pub open spec fn findings_sorted(s: Seq<Finding>) -> bool {
    forall|i: int, j: int| 0 <= i < j < s.len() ==> !finding_lt(#[trigger] s[j], #[trigger] s[i])
}

/// The findings in order; findings that compare equal keep their order.
pub fn sort_findings(findings: Vec<Finding>) -> (sorted: Vec<Finding>)
    ensures
        sorted@.to_multiset() == findings@.to_multiset(),
        findings_sorted(sorted@),
{
    let mut sorted: Vec<Finding> = Vec::new();
    let mut i: usize = 0;
    while i < findings.len()
        invariant
            i <= findings.len(),
            sorted@.to_multiset() == findings@.subrange(0, i as int).to_multiset(),
            findings_sorted(sorted@),
        decreases findings.len() - i,
    {
        let f = findings[i].clone();
        let mut p: usize = 0;
        while p < sorted.len()
            invariant
                p <= sorted.len(),
                forall|k: int| 0 <= k < p ==> !finding_lt(f, #[trigger] sorted@[k]),
            decreases sorted.len() - p,
        {
            if finding_before(&f, &sorted[p]) {
                break;
            }
            p = p + 1;
        }
        let ghost before = sorted@;
        sorted.insert(p, f);
        proof {
            assert(findings@.subrange(0, i + 1) =~= findings@.subrange(0, i as int).push(
                findings@[i as int],
            ));
            assert forall|a: int, b: int| 0 <= a < b < sorted@.len() implies !finding_lt(
                #[trigger] sorted@[b],
                #[trigger] sorted@[a],
            ) by {
                lemma_finding_lt_order(sorted@[a], sorted@[b], sorted@[a]);
                if b == p {
                    assert(sorted@[a] == before[a]);
                } else if a == p {
                    assert(sorted@[b] == before[b - 1]);
                    if finding_lt(before[b - 1], f) {
                        lemma_finding_lt_order(before[b - 1], f, before[p as int]);
                        assert(p < before.len());
                        if b - 1 > p {
                            assert(!finding_lt(before[b - 1], before[p as int]));
                        } else {
                            lemma_finding_lt_order(before[p as int], f, before[p as int]);
                        }
                    }
                } else if a < p && b < p {
                    assert(sorted@[a] == before[a] && sorted@[b] == before[b]);
                } else if a < p {
                    assert(sorted@[a] == before[a] && sorted@[b] == before[b - 1]);
                } else {
                    assert(sorted@[a] == before[a - 1] && sorted@[b] == before[b - 1]);
                }
            }
        }
        i = i + 1;
    }
    assert(findings@.subrange(0, findings@.len() as int) =~= findings@);
    sorted
}

} // verus!
