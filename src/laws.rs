//! Properties of the distance and of rankings, proved over the
//! specifications of the scoring functions.

use vstd::prelude::*;
use crate::delta::{
    Profile, anchor_ratio, anchors_both, anchors_either, combined, corrected_overlap, debiased,
    delta_tokens, dlc_like, joined, title_delta,
};
use crate::edit::{best_sim, l_sym, lemma_best_sim_bounds, lemma_sim_self, sim, sum_best};
use crate::normalize::normalized;
use crate::overlap::{bigram_keys, jaccard, overlap_common, overlap_total};
use crate::rank::{RankedResult, before, lists_index, ranks};
use crate::text::{SCALE, frac, lemma_frac_bounds};

verus! {

proof fn lemma_jaccard_self(ts: Seq<Seq<char>>)
    requires
        ts.len() > 0,
    ensures
        jaccard(ts, ts) == SCALE,
{
    let u = ts.to_set();
    let b = bigram_keys(ts).to_set();
    assert(u.intersect(u) =~= u);
    assert(u.union(u) =~= u);
    assert(b.intersect(b) =~= b);
    assert(b.union(b) =~= b);
    assert(overlap_common(ts, ts) == overlap_total(ts, ts));
    assert(u.contains(ts[0]));
    vstd::seq_lib::seq_to_set_is_finite(ts);
    if u.len() == 0 {
        vstd::set_lib::lemma_set_empty_equivalency_len(u);
        assert(u.contains(ts[0]));
    }
    lemma_frac_bounds(overlap_common(ts, ts) as int, overlap_total(ts, ts) as int);
}

proof fn lemma_best_sim_member(s: Seq<char>, ts: Seq<Seq<char>>)
    requires
        ts.contains(s),
    ensures
        best_sim(s, ts) == SCALE,
    decreases ts.len(),
{
    lemma_best_sim_bounds(s, ts.drop_last());
    crate::edit::lemma_sim_bounds(s, ts.last());
    if ts.last() == s {
        lemma_sim_self(s);
    } else {
        let k = choose|k: int| 0 <= k < ts.len() && ts[k] == s;
        assert(ts.drop_last()[k] == s);
        lemma_best_sim_member(s, ts.drop_last());
    }
}

proof fn lemma_sum_best_members(xs: Seq<Seq<char>>, ys: Seq<Seq<char>>)
    requires
        forall|k: int| 0 <= k < xs.len() ==> ys.contains(#[trigger] xs[k]),
    ensures
        sum_best(xs, ys) == xs.len() * SCALE,
    decreases xs.len(),
{
    if xs.len() > 0 {
        assert forall|k: int| 0 <= k < xs.drop_last().len() implies ys.contains(
            #[trigger] xs.drop_last()[k],
        ) by {
            assert(xs.drop_last()[k] == xs[k]);
        }
        lemma_sum_best_members(xs.drop_last(), ys);
        assert(ys.contains(xs[xs.len() - 1]));
        lemma_best_sim_member(xs.last(), ys);
    }
}

proof fn lemma_l_sym_self(ts: Seq<Seq<char>>)
    requires
        ts.len() > 0,
    ensures
        l_sym(ts, ts) == SCALE,
{
    assert forall|k: int| 0 <= k < ts.len() implies ts.contains(#[trigger] ts[k]) by {}
    lemma_sum_best_members(ts, ts);
    let n = ts.len() as int;
    vstd::arithmetic::div_mod::lemma_div_multiples_vanish(SCALE as int, n);
    assert(n * SCALE == SCALE * n) by (nonlinear_arith);
}

proof fn lemma_anchor_ratio_self(a: Seq<char>)
    ensures
        anchor_ratio(a, a) == SCALE,
{
    crate::delta::lemma_anchor_counts(a, a, 5);
    if anchors_either(a, a, 5) > 0 {
        lemma_frac_bounds(anchors_both(a, a, 5) as int, anchors_either(a, a, 5) as int);
    }
}

/// The distance is a function of the two texts alone: equal inputs give
/// equal distances, so repeated scoring returns the same value.
pub proof fn lemma_deterministic(q1: Seq<char>, c1: Seq<char>, q2: Seq<char>, c2: Seq<char>)
    requires
        q1 == q2,
        c1 == c2,
    ensures
        title_delta(q1, c1) == title_delta(q2, c2),
{
}

/// A text that holds an alphanumeric character is close to itself: its
/// distance to itself is below one tenth.
pub proof fn lemma_near_identity(s: Seq<char>)
    ensures
        normalized(s).len() > 0 ==> title_delta(s, s) < SCALE / 10,
{
    let ts = normalized(s);
    if ts.len() > 0 {
        let p = Profile::title_spec();
        lemma_jaccard_self(ts);
        lemma_l_sym_self(ts);
        lemma_anchor_ratio_self(joined(ts, ""@));
        let j = corrected_overlap(p, jaccard(ts, ts), ts.len(), ts.len());
        assert(j == 800_000_000);
        assert(combined(p, j, SCALE as int, SCALE as int) == 80_000_000);
        assert(delta_tokens(p, ts, ts) == 80_000_000);
    }
}

/// The edition debias only ever moves a distance away: it is unchanged
/// unless the candidate holds an edition keyword and the query does not;
/// then it does not shrink, and it grows strictly when it is at least 20
/// units and below `SCALE`.
pub proof fn lemma_debias_direction(d: int, q: Seq<Seq<char>>, t: Seq<Seq<char>>)
    requires
        0 <= d <= SCALE,
    ensures
        !(dlc_like(t) && !dlc_like(q)) ==> debiased(Profile::title_spec(), d, q, t) == d,
        d <= debiased(Profile::title_spec(), d, q, t) <= SCALE,
        dlc_like(t) && !dlc_like(q) && 20 <= d < SCALE ==> d < debiased(
            Profile::title_spec(),
            d,
            q,
            t,
        ),
{
    assert(d * 105 / 100 >= d) by (nonlinear_arith)
        requires d >= 0;
    assert(20 <= d ==> d * 105 / 100 > d) by (nonlinear_arith)
        requires d >= 0;
}

/// Whether every step of a sequence comes before the next, in ranking order.
pub open spec fn strictly_ordered(s: Seq<RankedResult>) -> bool {
    forall|p: int, p2: int| 0 <= p < p2 < s.len() ==> before(#[trigger] s[p], #[trigger] s[p2])
}

proof fn lemma_ordered_unique(s1: Seq<RankedResult>, s2: Seq<RankedResult>)
    requires
        s1.len() == s2.len(),
        strictly_ordered(s1),
        strictly_ordered(s2),
        forall|x: RankedResult| s1.contains(x) <==> s2.contains(x),
    ensures
        s1 == s2,
    decreases s1.len(),
{
    if s1.len() == 0 {
        assert(s1 =~= s2);
        return;
    }
    assert(s1.contains(s1[0]));
    assert(s2.contains(s2[0]));
    let j = choose|j: int| 0 <= j < s2.len() && s2[j] == s1[0];
    let k = choose|k: int| 0 <= k < s1.len() && s1[k] == s2[0];
    if j > 0 {
        assert(before(s2[0], s2[j]));
        if k > 0 {
            assert(before(s1[0], s1[k]));
        }
        assert(false);
    }
    let t1 = s1.drop_first();
    let t2 = s2.drop_first();
    assert forall|x: RankedResult| t1.contains(x) <==> t2.contains(x) by {
        if t1.contains(x) {
            let m = choose|m: int| 0 <= m < t1.len() && t1[m] == x;
            assert(s1[m + 1] == x);
            assert(before(s1[0], s1[m + 1]));
            assert(s2.contains(x));
            let m2 = choose|m2: int| 0 <= m2 < s2.len() && s2[m2] == x;
            assert(m2 != 0);
            assert(t2[m2 - 1] == x);
        }
        if t2.contains(x) {
            let m = choose|m: int| 0 <= m < t2.len() && t2[m] == x;
            assert(s2[m + 1] == x);
            assert(before(s2[0], s2[m + 1]));
            assert(s1.contains(x));
            let m2 = choose|m2: int| 0 <= m2 < s1.len() && s1[m2] == x;
            assert(m2 != 0);
            assert(t1[m2 - 1] == x);
        }
    }
    assert(strictly_ordered(t1)) by {
        assert forall|p: int, p2: int| 0 <= p < p2 < t1.len() implies before(
            #[trigger] t1[p],
            #[trigger] t1[p2],
        ) by {
            assert(before(s1[p + 1], s1[p2 + 1]));
        }
    }
    assert(strictly_ordered(t2)) by {
        assert forall|p: int, p2: int| 0 <= p < p2 < t2.len() implies before(
            #[trigger] t2[p],
            #[trigger] t2[p2],
        ) by {
            assert(before(s2[p + 1], s2[p2 + 1]));
        }
    }
    lemma_ordered_unique(t1, t2);
    assert(s1 =~= s2) by {
        assert forall|p: int| 0 <= p < s1.len() implies s1[p] == s2[p] by {
            if p > 0 {
                assert(s1[p] == t1[p - 1]);
                assert(s2[p] == t2[p - 1]);
            }
        }
    }
}

/// A ranking is determined by the query and the candidates alone: two
/// sequences that both rank the same candidates for the same query are
/// equal, tie-break order included, however their distances were computed.
pub proof fn lemma_ranking_unique(
    query: Seq<char>,
    cands: Seq<Seq<char>>,
    r1: Seq<RankedResult>,
    r2: Seq<RankedResult>,
)
    requires
        ranks(query, cands, r1),
        ranks(query, cands, r2),
    ensures
        r1 == r2,
{
    assert forall|x: RankedResult| r1.contains(x) implies r2.contains(x) by {
        let p = choose|p: int| 0 <= p < r1.len() && r1[p] == x;
        assert(r1[p].index < cands.len());
        assert(lists_index(r2, x.index as int));
        let p2 = choose|p2: int| 0 <= p2 < r2.len() && #[trigger] r2[p2].index == x.index;
        assert(r2[p2].delta == title_delta(query, cands[x.index as int]));
        assert(r2[p2] == x);
    }
    assert forall|x: RankedResult| r2.contains(x) implies r1.contains(x) by {
        let p = choose|p: int| 0 <= p < r2.len() && r2[p] == x;
        assert(r2[p].index < cands.len());
        assert(lists_index(r1, x.index as int));
        let p2 = choose|p2: int| 0 <= p2 < r1.len() && #[trigger] r1[p2].index == x.index;
        assert(r1[p2].delta == title_delta(query, cands[x.index as int]));
        assert(r1[p2] == x);
    }
    lemma_ordered_unique(r1, r2);
}

} // verus!
