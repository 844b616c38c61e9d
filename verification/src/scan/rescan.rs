//! Reconciling a cards file again with the findings it was just reconciled with.
//!
//! After a reconciliation each finding has one annotation that stands for it: present, at
//! the finding's line, and the first one whose place, tag, message and occurrence fit the
//! finding. A second reconciliation with the same findings matches every finding exactly
//! with that annotation again, so it changes nothing and reports nothing new.

use vstd::prelude::*;

use crate::domain::annotation::{AnnotationDisposition, CodeAnnotation, Finding};
use crate::domain::ids::{AnnotationId, CardId};
use crate::domain::private_state::{CardsFile, LocalCard};

use super::reconcile::{
    absent, card_outcome, card_phase, disappeared_count, lemma_card_phase_cards,
    lemma_every_finding_present_once, lemma_reconcile_keeps_identities, linked_present,
    linked_to, new_ids, ordering_view, reconciled, restores, sync_archives, AnnotationSyncSummary, cautious, cautious_matching, count_cautious, count_same_key, created_annotation,
    exact_matching, first_fit, fits, lemma_exact_matching_bounds, lemma_exact_matching_identity,
    lemma_first_new_found, lemma_first_new_is_new, lemma_partners_distinct, matching,
    new_in_group, occurrence, partner, reconciled_annotations, same_occurrence_key, seen_at,
    unmatched, was_present,
};

verus! {

/// Whether no two annotations share an identity.
pub open spec fn ids_distinct(anns: Seq<CodeAnnotation>) -> bool {
    forall|j: int, k: int|
        0 <= j < anns.len() && 0 <= k < anns.len() && j != k ==> (#[trigger] anns[j]).id
            != (#[trigger] anns[k]).id
}

/// Whether annotation `x` fits finding `i`, and no annotation before it does.
pub open spec fn stands_first(anns: Seq<CodeAnnotation>, obs: Seq<Finding>, i: int, x: int) -> bool {
    &&& 0 <= x < anns.len()
    &&& fits(anns[x], obs[i], occurrence(obs, i))
    &&& forall|k: int| 0 <= k < x ==> !fits(#[trigger] anns[k], obs[i], occurrence(obs, i))
}

/// Whether finding `i` has an annotation standing first for it, present at its line.
pub open spec fn represented(anns: Seq<CodeAnnotation>, obs: Seq<Finding>, i: int) -> bool {
    exists|x: int|
        #[trigger] stands_first(anns, obs, i, x) && anns[x].present && anns[x].line == obs[i].line
}

/// Whether annotation `x`, if present, stands first for one of the findings.
pub open spec fn accounted(anns: Seq<CodeAnnotation>, obs: Seq<Finding>, x: int) -> bool {
    anns[x].present ==> exists|i: int| 0 <= i < obs.len() && #[trigger] stands_first(anns, obs, i, x)
}

/// Whether the annotations are what reconciling with `obs` leaves: every finding is
/// represented, and every present annotation stands first for a finding.
pub open spec fn settled(anns: Seq<CodeAnnotation>, obs: Seq<Finding>) -> bool {
    &&& forall|i: int| 0 <= i < obs.len() ==> #[trigger] represented(anns, obs, i)
    &&& forall|x: int| 0 <= x < anns.len() ==> #[trigger] accounted(anns, obs, x)
}

// ---------------------------------------------------------------------------------------
// Occurrences tell findings with the same key apart
// ---------------------------------------------------------------------------------------

proof fn lemma_count_same_key_agrees(obs: Seq<Finding>, i: int, j: int, n: int)
    requires
        0 <= i < obs.len(),
        0 <= j < obs.len(),
        same_occurrence_key(obs[i], obs[j]),
    ensures
        count_same_key(obs, i, n) == count_same_key(obs, j, n),
    decreases n,
{
    if n > 0 {
        lemma_count_same_key_agrees(obs, i, j, n - 1);
    }
}

proof fn lemma_count_same_key_grows(obs: Seq<Finding>, i: int, j: int, n: int)
    requires
        0 <= j < n,
        same_occurrence_key(obs[j], obs[i]),
    ensures
        count_same_key(obs, i, n) >= count_same_key(obs, i, j) + 1,
    decreases n,
{
    if n - 1 > j {
        lemma_count_same_key_grows(obs, i, j, n - 1);
    }
}

proof fn lemma_count_same_key_bound(obs: Seq<Finding>, i: int, n: int)
    requires
        0 <= n,
    ensures
        count_same_key(obs, i, n) <= n,
    decreases n,
{
    if n > 0 {
        lemma_count_same_key_bound(obs, i, n - 1);
    }
}

/// An annotation fits at most one finding.
proof fn lemma_fits_one_finding(a: CodeAnnotation, obs: Seq<Finding>, i: int, j: int)
    requires
        0 <= i < obs.len(),
        0 <= j < obs.len(),
        fits(a, obs[i], occurrence(obs, i)),
        fits(a, obs[j], occurrence(obs, j)),
    ensures
        i == j,
{
    if i < j {
        assert(same_occurrence_key(obs[i], obs[j]));
        lemma_count_same_key_grows(obs, j, i, j);
        lemma_count_same_key_agrees(obs, i, j, i);
    } else if j < i {
        assert(same_occurrence_key(obs[j], obs[i]));
        lemma_count_same_key_grows(obs, i, j, i);
        lemma_count_same_key_agrees(obs, j, i, j);
    }
}

// ---------------------------------------------------------------------------------------
// What exact matching establishes
// ---------------------------------------------------------------------------------------

proof fn lemma_first_fit_result(
    anns: Seq<CodeAnnotation>,
    matched: Set<AnnotationId>,
    f: Finding,
    o: nat,
    k: int,
)
    requires
        0 <= k,
    ensures
        match first_fit(anns, matched, f, o, k) {
            Some(a) => k <= a < anns.len() && !matched.contains(anns[a].id) && fits(anns[a], f, o)
                && forall|y: int|
                k <= y < a ==> matched.contains((#[trigger] anns[y]).id) || !fits(anns[y], f, o),
            None => forall|y: int|
                k <= y < anns.len() ==> matched.contains((#[trigger] anns[y]).id) || !fits(
                    anns[y],
                    f,
                    o,
                ),
        },
    decreases anns.len() - k,
{
    if k < anns.len() {
        lemma_first_fit_result(anns, matched, f, o, k + 1);
    }
}

/// What the exact matching of the first `n` findings has established.
spec fn exact_settled(old: Seq<CodeAnnotation>, obs: Seq<Finding>, n: int) -> bool {
    let s = exact_matching(old, obs, n);
    &&& forall|k: int|
        0 <= k < s.0.len() ==> ((#[trigger] s.0[k]).present <==> s.1.contains(s.0[k].id))
    &&& forall|i: int| 0 <= i < n && #[trigger] s.2.contains(i) ==> represented(s.0, obs, i)
    &&& forall|i: int, k: int|
        0 <= i < n && !s.2.contains(i) && 0 <= k < s.0.len() ==> !#[trigger] fits(
            s.0[k],
            obs[i],
            occurrence(obs, i),
        )
    &&& forall|x: int|
        0 <= x < s.0.len() && (#[trigger] s.0[x]).present ==> exists|i: int|
            0 <= i < n && s.2.contains(i) && #[trigger] stands_first(s.0, obs, i, x)
}

proof fn lemma_exact_step(old: Seq<CodeAnnotation>, obs: Seq<Finding>, n: int)
    requires
        0 < n <= obs.len(),
        ids_distinct(old),
        exact_settled(old, obs, n - 1),
    ensures
        exact_settled(old, obs, n),
{
    let s = exact_matching(old, obs, n - 1);
    let t = exact_matching(old, obs, n);
    let i = n - 1;
    let o = occurrence(obs, i);
    lemma_exact_matching_bounds(old, obs, n - 1);
    lemma_exact_matching_identity(old, obs, n - 1);
    lemma_first_fit_result(s.0, s.1, obs[i], o, 0);
    // A matched annotation stands for an earlier finding, so it does not fit this one.
    assert forall|k: int| 0 <= k < s.0.len() && s.1.contains(s.0[k].id) implies !fits(
        s.0[k],
        obs[i],
        o,
    ) by {
        assert(s.0[k].present);
        let j = choose|j: int| 0 <= j < n - 1 && s.2.contains(j) && #[trigger] stands_first(s.0, obs, j, k);
        if fits(s.0[k], obs[i], o) {
            lemma_fits_one_finding(s.0[k], obs, i, j);
        }
    }
    match first_fit(s.0, s.1, obs[i], o, 0) {
        None => {
            assert(t == s);
            assert forall|j: int, k: int|
                0 <= j < n && !t.2.contains(j) && 0 <= k < t.0.len() implies !#[trigger] fits(
                t.0[k],
                obs[j],
                occurrence(obs, j),
            ) by {
                if j == i {
                    assert(s.1.contains(s.0[k].id) || !fits(s.0[k], obs[i], o));
                }
            }
            assert forall|x: int| 0 <= x < t.0.len() && (#[trigger] t.0[x]).present implies exists|
                j: int,
            | 0 <= j < n && t.2.contains(j) && #[trigger] stands_first(t.0, obs, j, x) by {
                let j = choose|j: int| 0 <= j < n - 1 && s.2.contains(j) && #[trigger] stands_first(s.0, obs, j, x);
                assert(stands_first(t.0, obs, j, x));
            }
        },
        Some(a) => {
            assert(!s.0[a].present);
            let seen = t.0[a];
            assert(t.0 == s.0.update(a, seen));
            assert forall|k: int, f: Finding, oo: nat| 0 <= k < s.0.len() implies (fits(t.0[k], f, oo)
                == fits(s.0[k], f, oo)) by {}
            assert forall|k: int| 0 <= k < t.0.len() implies ((#[trigger] t.0[k]).present <==> t.1.contains(
                t.0[k].id,
            )) by {
                if k != a {
                    assert(old[k].id != old[a].id);
                }
            }
            assert forall|j: int| 0 <= j < n && #[trigger] t.2.contains(j) implies represented(t.0, obs, j) by {
                if j == i {
                    assert(stands_first(t.0, obs, i, a));
                } else {
                    let x = choose|x: int|
                        #[trigger] stands_first(s.0, obs, j, x) && s.0[x].present && s.0[x].line
                            == obs[j].line;
                    assert(stands_first(t.0, obs, j, x));
                }
            }
            assert forall|j: int, k: int|
                0 <= j < n && !t.2.contains(j) && 0 <= k < t.0.len() implies !#[trigger] fits(
                t.0[k],
                obs[j],
                occurrence(obs, j),
            ) by {
                assert(!fits(s.0[k], obs[j], occurrence(obs, j)));
            }
            assert forall|x: int| 0 <= x < t.0.len() && (#[trigger] t.0[x]).present implies exists|
                j: int,
            | 0 <= j < n && t.2.contains(j) && #[trigger] stands_first(t.0, obs, j, x) by {
                if x == a {
                    assert(stands_first(t.0, obs, i, a));
                } else {
                    let j = choose|j: int| 0 <= j < n - 1 && s.2.contains(j) && #[trigger] stands_first(s.0, obs, j, x);
                    assert(stands_first(t.0, obs, j, x));
                }
            }
        },
    }
}

proof fn lemma_exact_settled(old: Seq<CodeAnnotation>, obs: Seq<Finding>, n: int)
    requires
        0 <= n <= obs.len(),
        ids_distinct(old),
    ensures
        exact_settled(old, obs, n),
    decreases n,
{
    if n == 0 {
        let s = exact_matching(old, obs, 0);
        assert forall|k: int| 0 <= k < s.0.len() implies ((#[trigger] s.0[k]).present <==> s.1.contains(
            s.0[k].id,
        )) by {}
    } else {
        lemma_exact_settled(old, obs, n - 1);
        lemma_exact_step(old, obs, n);
    }
}

// ---------------------------------------------------------------------------------------
// What the whole reconciliation leaves
// ---------------------------------------------------------------------------------------

proof fn lemma_unmatched_props(m: Set<int>, n: int)
    requires
        0 <= n,
    ensures
        forall|t: int|
            0 <= t < unmatched(m, n).len() ==> 0 <= #[trigger] unmatched(m, n)[t] < n
                && !m.contains(unmatched(m, n)[t]),
        forall|t1: int, t2: int|
            0 <= t1 < t2 < unmatched(m, n).len() ==> #[trigger] unmatched(m, n)[t1]
                < #[trigger] unmatched(m, n)[t2],
        forall|i: int|
            0 <= i < n && !m.contains(i) ==> exists|t: int|
                0 <= t < unmatched(m, n).len() && #[trigger] unmatched(m, n)[t] == i,
    decreases n,
{
    if n > 0 {
        lemma_unmatched_props(m, n - 1);
        let u = unmatched(m, n - 1);
        if m.contains(n - 1) {
            assert(unmatched(m, n) == u);
        } else {
            let v = u.push(n - 1);
            assert(unmatched(m, n) == v);
            assert forall|i: int| 0 <= i < n && !m.contains(i) implies exists|t: int|
                0 <= t < v.len() && #[trigger] v[t] == i by {
                if i == n - 1 {
                    assert(v[u.len() as int] == i);
                } else {
                    let t = choose|t: int| 0 <= t < u.len() && #[trigger] u[t] == i;
                    assert(v[t] == i);
                }
            }
        }
    }
}

/// Where an annotation of the result that fits finding `i` comes from.
proof fn lemma_fit_origin(
    old: Seq<CodeAnnotation>,
    obs: Seq<Finding>,
    ids: Seq<AnnotationId>,
    k: int,
    i: int,
)
    requires
        obs.len() <= usize::MAX,
        0 <= i < obs.len(),
        0 <= k < reconciled_annotations(old, obs, ids).len(),
        fits(reconciled_annotations(old, obs, ids)[k], obs[i], occurrence(obs, i)),
    ensures
        ({
            let s = exact_matching(old, obs, obs.len() as int);
            let cm = cautious_matching(s, obs);
            let u = unmatched(cm.1, obs.len() as int);
            ||| (k < s.0.len() && !cautious(s, obs, k) && fits(s.0[k], obs[i], occurrence(obs, i)))
            ||| (k < s.0.len() && cautious(s, obs, k) && partner(s, obs, k) == i)
            ||| (s.0.len() <= k && u[k - s.0.len()] == i)
        }),
{
    let s = exact_matching(old, obs, obs.len() as int);
    let cm = cautious_matching(s, obs);
    let u = unmatched(cm.1, obs.len() as int);
    let r = reconciled_annotations(old, obs, ids);
    lemma_exact_matching_bounds(old, obs, obs.len() as int);
    lemma_unmatched_props(cm.1, obs.len() as int);
    if k < s.0.len() {
        if cautious(s, obs, k) {
            let p = partner(s, obs, k);
            lemma_moved(old, obs, ids, k);
            lemma_fits_one_finding(r[k], obs, i, p);
        }
    } else {
        let t = k - s.0.len();
        let j = u[t];
        assert(r[k] == created_annotation(obs, j, ids[t]));
        assert(0 <= j < obs.len());
        lemma_count_same_key_bound(obs, j, j);
        assert(fits(r[k], obs[j], occurrence(obs, j)));
        lemma_fits_one_finding(r[k], obs, i, j);
    }
}

/// An annotation that follows a finding cautiously fits it, present at its line.
proof fn lemma_moved(old: Seq<CodeAnnotation>, obs: Seq<Finding>, ids: Seq<AnnotationId>, a: int)
    requires
        obs.len() <= usize::MAX,
        0 <= a < exact_matching(old, obs, obs.len() as int).0.len(),
        cautious(exact_matching(old, obs, obs.len() as int), obs, a),
    ensures
        ({
            let s = exact_matching(old, obs, obs.len() as int);
            let p = partner(s, obs, a);
            let r = reconciled_annotations(old, obs, ids);
            &&& 0 <= p < obs.len()
            &&& !s.2.contains(p)
            &&& cautious_matching(s, obs).1.contains(p)
            &&& a < r.len()
            &&& fits(r[a], obs[p], occurrence(obs, p))
            &&& r[a].present
            &&& r[a].line == obs[p].line
        }),
{
    let s = exact_matching(old, obs, obs.len() as int);
    let p = partner(s, obs, a);
    lemma_first_new_found(s.0, s.2, obs, a, 0, obs.len() as int);
    lemma_first_new_is_new(s.0, s.2, obs, a, 0);
    lemma_count_same_key_bound(obs, p, p);
    let cm = cautious_matching(s, obs);
    assert(cm.1.contains(p));
    let r = reconciled_annotations(old, obs, ids);
    assert(r[a] == cm.0[a]);
}

/// The three ways a finding is represented after a reconciliation: by the annotation that
/// matched it exactly, by the one that followed it cautiously, or by a new one.
proof fn lemma_stands_first_in_result(
    old: Seq<CodeAnnotation>,
    obs: Seq<Finding>,
    ids: Seq<AnnotationId>,
    i: int,
    x: int,
)
    requires
        obs.len() <= usize::MAX,
        ids_distinct(old),
        0 <= i < obs.len(),
        ({
            let s = exact_matching(old, obs, obs.len() as int);
            let cm = cautious_matching(s, obs);
            let u = unmatched(cm.1, obs.len() as int);
            ||| (s.2.contains(i) && stands_first(s.0, obs, i, x) && s.0[x].present)
            ||| (0 <= x < s.0.len() && cautious(s, obs, x) && partner(s, obs, x) == i)
            ||| (s.0.len() <= x < s.0.len() + u.len() && u[x - s.0.len()] == i)
        }),
    ensures
        stands_first(reconciled_annotations(old, obs, ids), obs, i, x),
        reconciled_annotations(old, obs, ids)[x].present,
        reconciled_annotations(old, obs, ids)[x].line == obs[i].line,
{
    let n = obs.len() as int;
    let s = exact_matching(old, obs, n);
    let cm = cautious_matching(s, obs);
    let u = unmatched(cm.1, n);
    let r = reconciled_annotations(old, obs, ids);
    let o = occurrence(obs, i);
    lemma_exact_settled(old, obs, n);
    lemma_exact_matching_bounds(old, obs, n);
    lemma_unmatched_props(cm.1, n);
    if s.2.contains(i) && stands_first(s.0, obs, i, x) && s.0[x].present {
        assert(s.1.contains(s.0[x].id));
        assert(!cautious(s, obs, x));
        assert(r[x] == s.0[x]);
        assert forall|k: int| 0 <= k < x implies !fits(#[trigger] r[k], obs[i], o) by {
            if fits(r[k], obs[i], o) {
                lemma_fit_origin(old, obs, ids, k, i);
                if cautious(s, obs, k) {
                    lemma_moved(old, obs, ids, k);
                }
            }
        }
    } else if 0 <= x < s.0.len() && cautious(s, obs, x) && partner(s, obs, x) == i {
        lemma_moved(old, obs, ids, x);
        assert forall|k: int| 0 <= k < x implies !fits(#[trigger] r[k], obs[i], o) by {
            if fits(r[k], obs[i], o) {
                lemma_fit_origin(old, obs, ids, k, i);
                if cautious(s, obs, k) {
                    lemma_partners_distinct(s, obs, k, x);
                }
            }
        }
    } else {
        let t = x - s.0.len();
        assert(r[x] == created_annotation(obs, i, ids[t]));
        lemma_count_same_key_bound(obs, i, i);
        assert(!cm.1.contains(i));
        assert(!s.2.contains(i));
        assert forall|k: int| 0 <= k < x implies !fits(#[trigger] r[k], obs[i], o) by {
            if fits(r[k], obs[i], o) {
                lemma_fit_origin(old, obs, ids, k, i);
                if k < s.0.len() && cautious(s, obs, k) {
                    lemma_moved(old, obs, ids, k);
                }
                if s.0.len() <= k {
                    assert(u[k - s.0.len()] < u[t]);
                }
            }
        }
    }
}

/// What a reconciliation leaves is settled with the findings it was given.
proof fn lemma_reconciled_settled(old: Seq<CodeAnnotation>, obs: Seq<Finding>, ids: Seq<AnnotationId>)
    requires
        obs.len() <= usize::MAX,
        ids_distinct(old),
    ensures
        settled(reconciled_annotations(old, obs, ids), obs),
{
    let n = obs.len() as int;
    let s = exact_matching(old, obs, n);
    let cm = cautious_matching(s, obs);
    let u = unmatched(cm.1, n);
    let r = reconciled_annotations(old, obs, ids);
    lemma_exact_settled(old, obs, n);
    lemma_exact_matching_bounds(old, obs, n);
    lemma_unmatched_props(cm.1, n);
    assert forall|i: int| 0 <= i < n implies #[trigger] represented(r, obs, i) by {
        if s.2.contains(i) {
            assert(represented(s.0, obs, i));
            let x = choose|x: int|
                #[trigger] stands_first(s.0, obs, i, x) && s.0[x].present && s.0[x].line == obs[i].line;
            lemma_stands_first_in_result(old, obs, ids, i, x);
            assert(stands_first(r, obs, i, x));
        } else if cm.1.contains(i) {
            let a = choose|a: int| 0 <= a < s.0.len() && cautious(s, obs, a) && partner(s, obs, a) == i;
            lemma_stands_first_in_result(old, obs, ids, i, a);
            assert(stands_first(r, obs, i, a));
        } else {
            let t = choose|t: int| 0 <= t < u.len() && #[trigger] u[t] == i;
            let x = s.0.len() + t;
            lemma_stands_first_in_result(old, obs, ids, i, x);
            assert(stands_first(r, obs, i, x));
        }
    }
    assert forall|x: int| 0 <= x < r.len() implies #[trigger] accounted(r, obs, x) by {
        if r[x].present {
            if x < s.0.len() {
                if cautious(s, obs, x) {
                    lemma_moved(old, obs, ids, x);
                    let i = partner(s, obs, x);
                    lemma_stands_first_in_result(old, obs, ids, i, x);
                    assert(stands_first(r, obs, i, x));
                } else {
                    assert(r[x] == s.0[x]);
                    assert(s.0[x].present);
                    let i = choose|i: int| 0 <= i < n && s.2.contains(i) && #[trigger] stands_first(s.0, obs, i, x);
                    lemma_stands_first_in_result(old, obs, ids, i, x);
                    assert(stands_first(r, obs, i, x));
                }
            } else {
                let t = x - s.0.len();
                let i = u[t];
                lemma_stands_first_in_result(old, obs, ids, i, x);
                assert(stands_first(r, obs, i, x));
            }
        }
    }
}

// ---------------------------------------------------------------------------------------
// Reconciling settled annotations again
// ---------------------------------------------------------------------------------------

/// What exact matching of the first `n` findings does to settled annotations: the
/// annotations standing first for those findings are matched and kept as they are, the
/// others are marked absent, and nothing counts as updated.
spec fn matched_again(anns: Seq<CodeAnnotation>, obs: Seq<Finding>, n: int) -> bool {
    let s = exact_matching(anns, obs, n);
    &&& s.0.len() == anns.len()
    &&& forall|k: int|
        0 <= k < anns.len() ==> (#[trigger] s.0[k] == anns[k] || s.0[k] == absent(anns[k]))
    &&& forall|k: int| 0 <= k < anns.len() ==> ((#[trigger] s.0[k]).present <==> s.1.contains(anns[k].id))
    &&& forall|k: int|
        0 <= k < anns.len() ==> ((#[trigger] s.0[k]).present <==> exists|i: int|
            0 <= i < n && #[trigger] stands_first(anns, obs, i, k))
    &&& forall|i: int| #[trigger] s.2.contains(i) <==> 0 <= i < n
    &&& s.3 == 0
}

proof fn lemma_matched_again(anns: Seq<CodeAnnotation>, obs: Seq<Finding>, n: int)
    requires
        settled(anns, obs),
        ids_distinct(anns),
        0 <= n <= obs.len(),
    ensures
        matched_again(anns, obs, n),
    decreases n,
{
    if n == 0 {
        let s = exact_matching(anns, obs, 0);
        assert forall|i: int| #[trigger] s.2.contains(i) <==> 0 <= i < n by {}
    } else {
        lemma_matched_again(anns, obs, n - 1);
        let s = exact_matching(anns, obs, n - 1);
        let t = exact_matching(anns, obs, n);
        let i = n - 1;
        let o = occurrence(obs, i);
        assert(represented(anns, obs, i));
        let x = choose|x: int|
            #[trigger] stands_first(anns, obs, i, x) && anns[x].present && anns[x].line == obs[i].line;
        if s.0[x].present {
            let j = choose|j: int| 0 <= j < n - 1 && #[trigger] stands_first(anns, obs, j, x);
            lemma_fits_one_finding(anns[x], obs, i, j);
        }
        assert(s.0[x] == absent(anns[x]));
        lemma_first_fit_result(s.0, s.1, obs[i], o, 0);
        match first_fit(s.0, s.1, obs[i], o, 0) {
            None => {
                assert(fits(s.0[x], obs[i], o));
            },
            Some(a) => {
                if a < x {
                    assert(fits(anns[a], obs[i], o));
                } else if x < a {
                    assert(fits(s.0[x], obs[i], o));
                }
            },
        }
        assert(first_fit(s.0, s.1, obs[i], o, 0) == Some(x));
        assert(seen_at(s.0[x], obs[i].line) == anns[x]);
        assert(was_present(anns, anns[x].id));
        assert(t.0 == s.0.update(x, anns[x]));
        assert forall|k: int| 0 <= k < anns.len() implies ((#[trigger] t.0[k]).present
            <==> t.1.contains(anns[k].id)) by {
            if k != x {
                assert(anns[k].id != anns[x].id);
            }
        }
        assert forall|k: int| 0 <= k < anns.len() implies ((#[trigger] t.0[k]).present
            <==> exists|j: int| 0 <= j < n && #[trigger] stands_first(anns, obs, j, k)) by {
            if k == x {
                assert(stands_first(anns, obs, i, x));
            } else {
                if stands_first(anns, obs, i, k) {
                    if k < x {
                        assert(!fits(anns[k], obs[i], o));
                    } else {
                        assert(!fits(anns[x], obs[i], o));
                    }
                }
                if s.0[k].present {
                    let j = choose|j: int| 0 <= j < n - 1 && #[trigger] stands_first(anns, obs, j, k);
                    assert(0 <= j < n && stands_first(anns, obs, j, k));
                }
            }
        }
        assert forall|j: int| #[trigger] t.2.contains(j) <==> 0 <= j < n by {
            assert(s.2.contains(j) <==> 0 <= j < n - 1);
        }
    }
}

proof fn lemma_no_new_in_group(
    anns: Seq<CodeAnnotation>,
    matched_obs: Set<int>,
    obs: Seq<Finding>,
    a: int,
    m: int,
)
    requires
        forall|i: int| 0 <= i < m ==> matched_obs.contains(i),
    ensures
        new_in_group(anns, matched_obs, obs, a, m) == 0,
    decreases m,
{
    if m > 0 {
        lemma_no_new_in_group(anns, matched_obs, obs, a, m - 1);
    }
}

proof fn lemma_no_cautious(
    s: (Seq<CodeAnnotation>, Set<AnnotationId>, Set<int>, nat),
    obs: Seq<Finding>,
    m: int,
)
    requires
        forall|i: int| 0 <= i < obs.len() ==> s.2.contains(i),
    ensures
        count_cautious(s, obs, m) == 0,
        forall|a: int| !#[trigger] cautious(s, obs, a),
    decreases m,
{
    assert forall|a: int| !#[trigger] cautious(s, obs, a) by {
        lemma_no_new_in_group(s.0, s.2, obs, a, obs.len() as int);
    }
    if m > 0 {
        lemma_no_cautious(s, obs, m - 1);
    }
}

proof fn lemma_nothing_unmatched(m: Set<int>, n: int)
    requires
        forall|i: int| 0 <= i < n ==> m.contains(i),
    ensures
        unmatched(m, n).len() == 0,
    decreases n,
{
    if n > 0 {
        lemma_nothing_unmatched(m, n - 1);
    }
}

/// Reconciling settled annotations with their findings gives them back unchanged, with no
/// annotation updated and none created.
proof fn lemma_settled_reconciles_to_itself(
    anns: Seq<CodeAnnotation>,
    obs: Seq<Finding>,
    ids: Seq<AnnotationId>,
)
    requires
        settled(anns, obs),
        ids_distinct(anns),
    ensures
        reconciled_annotations(anns, obs, ids) == anns,
        matching(anns, obs).2 == 0,
        unmatched(matching(anns, obs).1, obs.len() as int).len() == 0,
{
    let n = obs.len() as int;
    lemma_matched_again(anns, obs, n);
    let s = exact_matching(anns, obs, n);
    assert forall|k: int| 0 <= k < anns.len() implies #[trigger] s.0[k] == anns[k] by {
        if !s.0[k].present {
            if anns[k].present {
                assert(accounted(anns, obs, k));
                let i = choose|i: int| 0 <= i < obs.len() && #[trigger] stands_first(anns, obs, i, k);
            }
        }
    }
    assert(s.0 == anns);
    lemma_no_cautious(s, obs, s.0.len() as int);
    let cm = cautious_matching(s, obs);
    assert(cm.0 == s.0);
    assert(cm.1 == s.2);
    lemma_nothing_unmatched(cm.1, n);
    let u = unmatched(cm.1, n);
    assert(reconciled_annotations(anns, obs, ids) == cm.0 + Seq::new(
        u.len(),
        |k: int| created_annotation(obs, u[k], ids[k]),
    ));
}

// ---------------------------------------------------------------------------------------
// Cards
// ---------------------------------------------------------------------------------------

proof fn lemma_present_is_linked(anns: Seq<CodeAnnotation>, card: CardId)
    requires
        linked_present(anns, card),
    ensures
        linked_to(anns, card),
{
    let k = choose|k: int|
        0 <= k < anns.len() && anns[k].disposition == (AnnotationDisposition::Linked {
            card_id: card,
        }) && anns[k].present;
}

/// A card that has been checked against the annotations is neither archived nor restored by
/// checking it again.
proof fn lemma_outcome_is_stable(anns: Seq<CodeAnnotation>, c: LocalCard)
    ensures
        !sync_archives(anns, card_outcome(anns, c)),
        !restores(anns, card_outcome(anns, c)),
{
    if linked_present(anns, c.id) {
        lemma_present_is_linked(anns, c.id);
    }
}

proof fn lemma_card_phase_stable(
    anns: Seq<CodeAnnotation>,
    cards: Seq<LocalCard>,
    ordering: Seq<(Seq<char>, Seq<CardId>)>,
    n: int,
)
    requires
        0 <= n <= cards.len(),
        forall|j: int|
            0 <= j < cards.len() ==> !sync_archives(anns, #[trigger] cards[j]) && !restores(
                anns,
                cards[j],
            ),
    ensures
        card_phase(anns, cards, ordering, n) == (cards, ordering, 0nat, 0nat),
    decreases n,
{
    if n > 0 {
        lemma_card_phase_stable(anns, cards, ordering, n - 1);
        assert(!sync_archives(anns, cards[n - 1]) && !restores(anns, cards[n - 1]));
    }
}

proof fn lemma_nothing_disappears(anns: Seq<CodeAnnotation>, n: int)
    requires
        0 <= n <= anns.len(),
        ids_distinct(anns),
    ensures
        disappeared_count(anns, anns, n) == 0,
    decreases n,
{
    if n > 0 {
        lemma_nothing_disappears(anns, n - 1);
        if was_present(anns, anns[n - 1].id) {
            let k = choose|k: int| 0 <= k < anns.len() && anns[k].id == anns[n - 1].id && anns[k].present;
            assert(k == n - 1);
        }
    }
}

// ---------------------------------------------------------------------------------------
// The law
// ---------------------------------------------------------------------------------------

/// Reconciling a cards file a second time with the same findings changes nothing: every
/// finding matches exactly the annotation that stands for it since the first time, so the
/// annotations, the cards and the card order stay as they are; nothing is created, updated,
/// disappears, archived or restored; and as many annotations are present and unassigned as
/// the first time. (The new annotations of the first reconciliation must have identities
/// of their own.)
pub proof fn lemma_reconcile_again_changes_nothing(
    old: CardsFile,
    obs: Seq<Finding>,
    first: CardsFile,
    first_summary: AnnotationSyncSummary,
    second: CardsFile,
    second_summary: AnnotationSyncSummary,
)
    requires
        reconciled(old, obs, first, first_summary),
        reconciled(first, obs, second, second_summary),
        ids_distinct(first.annotations@),
    ensures
        second.schema_version == first.schema_version,
        second.workspace_id == first.workspace_id,
        second.annotations@ == first.annotations@,
        second.cards@ == first.cards@,
        ordering_view(second.ordering@) == ordering_view(first.ordering@),
        second_summary.created == 0,
        second_summary.updated == 0,
        second_summary.disappeared == 0,
        second_summary.archived_cards == 0,
        second_summary.restored_cards == 0,
        second_summary.present == first_summary.present,
        second_summary.unassigned == first_summary.unassigned,
{
    let olds = old.annotations@;
    let anns = first.annotations@;
    lemma_every_finding_present_once(old, obs, first, first_summary);
    lemma_reconcile_keeps_identities(old, obs, first, first_summary);
    assert forall|j: int, k: int|
        0 <= j < olds.len() && 0 <= k < olds.len() && j != k implies (#[trigger] olds[j]).id
        != (#[trigger] olds[k]).id by {
        assert(anns[j].id != anns[k].id);
    }
    lemma_reconciled_settled(olds, obs, new_ids(anns, olds.len() as int));
    lemma_settled_reconciles_to_itself(anns, obs, new_ids(second.annotations@, anns.len() as int));
    lemma_nothing_disappears(anns, anns.len() as int);
    lemma_card_phase_cards(anns, old.cards@, ordering_view(old.ordering@), old.cards@.len() as int);
    assert forall|j: int| 0 <= j < first.cards@.len() implies !sync_archives(
        anns,
        #[trigger] first.cards@[j],
    ) && !restores(anns, first.cards@[j]) by {
        lemma_outcome_is_stable(anns, old.cards@[j]);
    }
    lemma_card_phase_stable(
        anns,
        first.cards@,
        ordering_view(first.ordering@),
        first.cards@.len() as int,
    );
}

} // verus!
