//! Ranking a candidate collection by distance to a query.

use rand::SeedableRng;
use rand::seq::SliceRandom;
use rayon::iter::{IndexedParallelIterator, IntoParallelRefIterator, ParallelIterator};
use vstd::prelude::*;
use crate::delta::{semantic_delta_title, title_delta};
use crate::edit::toks;
use crate::text::same_text;

verus! {

/// One entry of a ranking: a candidate's position in the input and its
/// distance to the query.
#[derive(Clone, Copy, Debug, PartialEq, Eq, Structural)]
pub struct RankedResult {
    pub index: usize,
    pub delta: u64,
}

/// Order of a ranking: smaller distance first, ties by smaller position.
pub open spec fn before(a: RankedResult, b: RankedResult) -> bool {
    a.delta < b.delta || (a.delta == b.delta && a.index < b.index)
}

/// Some entry of `r` is for the candidate at position `i`.
pub open spec fn lists_index(r: Seq<RankedResult>, i: int) -> bool {
    exists|p: int| 0 <= p < r.len() && #[trigger] r[p].index == i
}

/// `r` ranks every candidate exactly once, with its distance to the query,
/// in ascending order of distance and then of position.
pub open spec fn ranks(query: Seq<char>, cands: Seq<Seq<char>>, r: Seq<RankedResult>) -> bool {
    &&& r.len() == cands.len()
    &&& forall|p: int|
        0 <= p < r.len() ==> #[trigger] r[p].index < cands.len() && r[p].delta == title_delta(
            query,
            cands[r[p].index as int],
        )
    &&& forall|i: int| 0 <= i < cands.len() ==> #[trigger] lists_index(r, i)
    &&& forall|p: int, p2: int| 0 <= p < p2 < r.len() ==> before(#[trigger] r[p], #[trigger] r[p2])
}

/// Lexicographic order on (distance, position) pairs.
pub open spec fn key_le(a: (u64, usize), b: (u64, usize)) -> bool {
    a.0 < b.0 || (a.0 == b.0 && a.1 <= b.1)
}

/// Relies on rayon's `par_iter`, `map` and `collect_into_vec`: the
/// candidates are scored in parallel and each distance is stored at its
/// candidate's position.
#[verifier::external_body]
fn par_deltas(query: &str, candidates: &Vec<String>) -> (r: Vec<u64>)
    ensures
        r@.len() == candidates@.len(),
        forall|i: int| 0 <= i < r@.len() ==> r@[i] == title_delta(query@, candidates@[i]@),
{
    let mut out: Vec<u64> = Vec::new();
    candidates.par_iter().map(|c| semantic_delta_title(query, c.as_str())).collect_into_vec(
        &mut out,
    );
    out
}

/// Relies on std's `slice::sort_unstable`: the pairs end in ascending
/// order, compared lexicographically, and are the same pairs as before.
#[verifier::external_body]
fn sort_keys(v: &mut Vec<(u64, usize)>)
    ensures
        final(v)@.to_multiset() == old(v)@.to_multiset(),
        forall|i: int, j: int|
            0 <= i < j < final(v)@.len() ==> key_le(#[trigger] final(v)@[i], #[trigger] final(v)@[j]),
{
    v.sort_unstable();
}

/// Ranks all candidates by their distance to the query, smallest first;
/// equal distances keep the candidates' input order. The distances are
/// computed in parallel; the result does not depend on how.
pub fn rank(query: &str, candidates: &Vec<String>) -> (r: Vec<RankedResult>)
    ensures
        ranks(query@, toks(candidates@), r@),
{
    broadcast use vstd::seq_lib::group_to_multiset_ensures;

    let deltas = par_deltas(query, candidates);
    let n = candidates.len();
    let mut keys: Vec<(u64, usize)> = Vec::new();
    let mut i: usize = 0;
    while i < n
        invariant
            n == candidates@.len(),
            deltas@.len() == n,
            i <= n,
            keys@.len() == i,
            forall|k: int| 0 <= k < i ==> #[trigger] keys@[k] == (deltas@[k], k as usize),
        decreases n - i,
    {
        keys.push((deltas[i], i));
        i = i + 1;
    }
    let ghost orig = keys@;
    assert(orig.no_duplicates());
    proof {
        orig.lemma_multiset_has_no_duplicates();
    }
    sort_keys(&mut keys);
    let ghost sorted = keys@;
    assert(sorted.len() == n) by {
        assert(sorted.to_multiset().len() == orig.to_multiset().len());
    }
    proof {
        sorted.lemma_multiset_has_no_duplicates_conv();
    }
    let mut out: Vec<RankedResult> = Vec::new();
    let mut p: usize = 0;
    while p < keys.len()
        invariant
            keys@ == sorted,
            p <= sorted.len(),
            out@.len() == p,
            forall|k: int|
                0 <= k < p ==> #[trigger] out@[k].index == sorted[k].1 && out@[k].delta
                    == sorted[k].0,
        decreases sorted.len() - p,
    {
        out.push(RankedResult { index: keys[p].1, delta: keys[p].0 });
        p = p + 1;
    }
    proof {
        let cs = toks(candidates@);
        assert forall|q: int| 0 <= q < out@.len() implies #[trigger] out@[q].index < cs.len()
            && out@[q].delta == title_delta(query@, cs[out@[q].index as int]) by {
            assert(sorted.to_multiset().contains(sorted[q]));
            assert(orig.contains(sorted[q]));
            let k = choose|k: int| 0 <= k < orig.len() && orig[k] == sorted[q];
            assert(orig[k] == (deltas@[k], k as usize));
        }
        assert forall|k: int| 0 <= k < cs.len() implies #[trigger] lists_index(out@, k) by {
            assert(orig[k] == (deltas@[k], k as usize));
            assert(orig.to_multiset().contains(orig[k]));
            assert(sorted.contains(orig[k]));
            let q = choose|q: int| 0 <= q < sorted.len() && sorted[q] == orig[k];
            assert(out@[q].index == k);
        }
        assert forall|a: int, b: int| 0 <= a < b < out@.len() implies before(
            #[trigger] out@[a],
            #[trigger] out@[b],
        ) by {
            assert(key_le(sorted[a], sorted[b]));
            assert(sorted[a] != sorted[b]);
            assert(out@[a].index == sorted[a].1 && out@[a].delta == sorted[a].0);
            assert(out@[b].index == sorted[b].1 && out@[b].delta == sorted[b].0);
        }
    }
    out
}

/// The ranking entry of the candidate at position `i`.
pub open spec fn entry(query: Seq<char>, cands: Seq<Seq<char>>, i: int) -> RankedResult {
    RankedResult { index: i as usize, delta: title_delta(query, cands[i]) as u64 }
}

/// The candidate at position `i` comes first in the ranking: it is before
/// every other candidate.
pub open spec fn is_best(query: Seq<char>, cands: Seq<Seq<char>>, i: int) -> bool {
    &&& 0 <= i < cands.len()
    &&& forall|j: int|
        0 <= j < cands.len() && j != i ==> before(entry(query, cands, i), #[trigger] entry(query, cands, j))
}

/// `i` is the first position of `t` in `ts`.
pub open spec fn first_position(ts: Seq<Seq<char>>, t: Seq<char>, i: int) -> bool {
    &&& 0 <= i < ts.len()
    &&& ts[i] == t
    &&& forall|j: int| 0 <= j < i ==> ts[j] != t
}

proof fn lemma_first_is_best(query: Seq<char>, cands: Seq<Seq<char>>, r: Seq<RankedResult>, i: int)
    requires
        ranks(query, cands, r),
        0 <= i < cands.len(),
    ensures
        (r[0].index == i) == is_best(query, cands, i),
{
    assert(lists_index(r, i));
    let pi = choose|p: int| 0 <= p < r.len() && #[trigger] r[p].index == i;
    assert(r[pi].delta == title_delta(query, cands[i]));
    assert(r[pi] == entry(query, cands, i));
    if r[0].index == i {
        assert forall|j: int| 0 <= j < cands.len() && j != i implies before(
            entry(query, cands, i),
            #[trigger] entry(query, cands, j),
        ) by {
            assert(lists_index(r, j));
            let pj = choose|p: int| 0 <= p < r.len() && #[trigger] r[p].index == j;
            assert(r[pj].delta == title_delta(query, cands[j]));
            assert(r[pj] == entry(query, cands, j));
            assert(r[0].delta == title_delta(query, cands[i]));
            assert(pj != 0);
            assert(before(r[0], r[pj]));
        }
    } else if is_best(query, cands, i) {
        let m = r[0].index as int;
        assert(r[0].delta == title_delta(query, cands[m]));
        assert(r[0] == entry(query, cands, m));
        assert(pi != 0);
        assert(before(r[0], r[pi]));
        assert(before(entry(query, cands, i), entry(query, cands, m)));
    }
}

/// The first `count` entries of the ranking (all of them when there are
/// fewer): the best match, then the alternatives in order.
pub fn top_matches(query: &str, candidates: &Vec<String>, count: usize) -> (r: Vec<RankedResult>)
    ensures
        exists|full: Seq<RankedResult>|
            ranks(query@, toks(candidates@), full) && #[trigger] full.subrange(
                0,
                r@.len() as int,
            ) == r@,
        r@.len() == if count < candidates@.len() { count as int } else { candidates@.len() as int },
{
    let full = rank(query, candidates);
    let k = if count < full.len() { count } else { full.len() };
    let mut out: Vec<RankedResult> = Vec::new();
    let mut p: usize = 0;
    while p < k
        invariant
            k <= full@.len(),
            p <= k,
            out@ == full@.subrange(0, p as int),
        decreases k - p,
    {
        out.push(full[p]);
        p = p + 1;
        assert(out@ =~= full@.subrange(0, p as int));
    }
    out
}

/// Whether the candidate at position `index` is the best match for the query.
pub fn best_is(query: &str, candidates: &Vec<String>, index: usize) -> (r: bool)
    ensures
        r == is_best(query@, toks(candidates@), index as int),
{
    if index >= candidates.len() {
        return false;
    }
    let ranking = rank(query, candidates);
    proof {
        lemma_first_is_best(query@, toks(candidates@), ranking@, index as int);
    }
    ranking[0].index == index
}

/// The first position of a text in a list, if it occurs.
pub fn position_of(titles: &Vec<String>, t: &str) -> (r: Option<usize>)
    ensures
        match r {
            Some(i) => first_position(toks(titles@), t@, i as int),
            None => !toks(titles@).contains(t@),
        },
{
    let mut i: usize = 0;
    while i < titles.len()
        invariant
            i <= titles@.len(),
            forall|j: int| 0 <= j < i ==> toks(titles@)[j] != t@,
        decreases titles@.len() - i,
    {
        if same_text(titles[i].as_str(), t) {
            return Some(i);
        }
        i = i + 1;
    }
    None
}

/// Full-catalog evaluation of one query: whether the first title equal to
/// the expected answer is the best match among all titles. False when the
/// answer is not in the catalog.
pub fn evaluate_query_full(query: &str, ground_truth: &str, titles: &Vec<String>) -> (r: bool)
    ensures
        r == exists|i: int|
            first_position(toks(titles@), ground_truth@, i) && is_best(
                query@,
                toks(titles@),
                i,
            ),
{
    match position_of(titles, ground_truth) {
        Some(i) => {
            let b = best_is(query, titles, i);
            proof {
                if !b {
                    assert forall|k: int|
                        !(first_position(toks(titles@), ground_truth@, k) && is_best(
                            query@,
                            toks(titles@),
                            k,
                        )) by {
                        if first_position(toks(titles@), ground_truth@, k) && k != i {
                            if k < i {
                                assert(toks(titles@)[k] != ground_truth@);
                            } else {
                                assert(toks(titles@)[i as int] != ground_truth@);
                            }
                        }
                    }
                }
            }
            b
        },
        None => {
            proof {
                assert forall|k: int| !first_position(toks(titles@), ground_truth@, k) by {
                    if first_position(toks(titles@), ground_truth@, k) {
                        assert(toks(titles@).contains(ground_truth@));
                    }
                }
            }
            false
        },
    }
}

/// Number of distractors drawn for a sampled evaluation.
pub const DISTRACTOR_COUNT: usize = 100;

/// Seed of the generator that draws the distractors.
pub const SAMPLE_SEED: u64 = 42;

/// Relies on rand's `SliceRandom::choose_multiple` with a `StdRng` seeded
/// from `seed`: `min(amount, len)` elements of the slice, taken at distinct
/// positions (`index::sample` draws distinct indices), so a pool without
/// repeats gives a draw without repeats.
#[verifier::external_body]
fn choose_from(pool: &Vec<usize>, amount: usize, seed: u64) -> (r: Vec<usize>)
    ensures
        r@.len() == if amount < pool@.len() { amount as int } else { pool@.len() as int },
        forall|k: int| 0 <= k < r@.len() ==> pool@.contains(#[trigger] r@[k]),
        pool@.no_duplicates() ==> r@.no_duplicates(),
{
    let mut rng = rand::rngs::StdRng::seed_from_u64(seed);
    pool.choose_multiple(&mut rng, amount).cloned().collect()
}

/// The candidates of a sampled evaluation: the title at `truth` first,
/// then the titles at the drawn positions.
pub open spec fn sampled_cands(titles: Seq<Seq<char>>, truth: int, picks: Seq<usize>) -> Seq<
    Seq<char>,
> {
    seq![titles[truth]] + picks.map_values(|p: usize| titles[p as int])
}

/// Sampled evaluation with given distractors: whether the title at `truth`
/// is the best match among itself and the titles at `picks`.
pub fn evaluate_sampled(query: &str, titles: &Vec<String>, truth: usize, picks: &Vec<usize>) -> (r:
    bool)
    requires
        truth < titles@.len(),
        forall|k: int| 0 <= k < picks@.len() ==> #[trigger] picks@[k] < titles@.len(),
    ensures
        r == is_best(query@, sampled_cands(toks(titles@), truth as int, picks@), 0),
{
    let ghost ts = toks(titles@);
    let mut cands: Vec<String> = Vec::new();
    cands.push(titles[truth].clone());
    let mut k: usize = 0;
    while k < picks.len()
        invariant
            ts == toks(titles@),
            truth < titles@.len(),
            forall|m: int| 0 <= m < picks@.len() ==> #[trigger] picks@[m] < titles@.len(),
            k <= picks@.len(),
            cands@.len() == k + 1,
            cands@[0]@ == ts[truth as int],
            forall|m: int| 0 <= m < k ==> #[trigger] cands@[m + 1]@ == ts[picks@[m] as int],
        decreases picks@.len() - k,
    {
        cands.push(titles[picks[k]].clone());
        k = k + 1;
    }
    assert(toks(cands@) =~= sampled_cands(ts, truth as int, picks@)) by {
        assert forall|m: int| 0 <= m < cands@.len() implies #[trigger] toks(cands@)[m]
            == sampled_cands(ts, truth as int, picks@)[m] by {
            if m > 0 {
                assert(cands@[(m - 1) + 1]@ == ts[picks@[m - 1] as int]);
            }
        }
    }
    best_is(query, &cands, 0)
}

/// Sampled evaluation of one query: the expected answer is ranked against
/// `DISTRACTOR_COUNT` other titles drawn at random (fewer when the catalog
/// is smaller). False when the answer is not in the catalog. An answer that
/// is the best match of the whole catalog is also the best of any sample.
pub fn evaluate_query(query: &str, ground_truth: &str, titles: &Vec<String>) -> (r: bool)
    ensures
        r ==> toks(titles@).contains(ground_truth@),
        (exists|i: int|
            first_position(toks(titles@), ground_truth@, i) && is_best(query@, toks(titles@), i))
            ==> r,
        toks(titles@).contains(ground_truth@) ==> exists|i: int, picks: Seq<usize>|
            first_position(toks(titles@), ground_truth@, i) && picks.len() == (if DISTRACTOR_COUNT
                < titles@.len() - 1 {
                DISTRACTOR_COUNT as int
            } else {
                titles@.len() - 1
            }) && picks.no_duplicates() && (forall|k: int|
                0 <= k < picks.len() ==> #[trigger] picks[k] < titles@.len() && picks[k] != i)
                && r == is_best(query@, sampled_cands(toks(titles@), i, picks), 0),
{
    let ghost ts = toks(titles@);
    let truth = match position_of(titles, ground_truth) {
        Some(i) => i,
        None => {
            return false;
        },
    };
    let n = titles.len();
    let mut pool: Vec<usize> = Vec::new();
    let mut i: usize = 0;
    while i < n
        invariant
            n == titles@.len(),
            truth < n,
            i <= n,
            forall|k: int| 0 <= k < pool@.len() ==> #[trigger] pool@[k] < i && pool@[k] != truth,
            forall|a: int, b: int| 0 <= a < b < pool@.len() ==> pool@[a] < pool@[b],
            pool@.len() == if truth < i { i - 1 } else { i as int },
        decreases n - i,
    {
        if i != truth {
            pool.push(i);
        }
        i = i + 1;
    }
    assert(pool@.no_duplicates()) by {
        assert forall|a: int, b: int| 0 <= a < pool@.len() && 0 <= b < pool@.len() && a != b
            implies pool@[a] != pool@[b] by {
            if a < b {
                assert(pool@[a] < pool@[b]);
            } else {
                assert(pool@[b] < pool@[a]);
            }
        }
    }
    let amount = if DISTRACTOR_COUNT < n - 1 { DISTRACTOR_COUNT } else { n - 1 };
    let picks = choose_from(&pool, amount, SAMPLE_SEED);
    assert forall|k: int| 0 <= k < picks@.len() implies #[trigger] picks@[k] < titles@.len()
        && picks@[k] != truth by {
        assert(pool@.contains(picks@[k]));
    }
    let r = evaluate_sampled(query, titles, truth, &picks);
    proof {
        let cs = sampled_cands(ts, truth as int, picks@);
        assert(first_position(ts, ground_truth@, truth as int));
        assert(ts.contains(ground_truth@));
        assert(picks@.len() == (if DISTRACTOR_COUNT < titles@.len() - 1 {
            DISTRACTOR_COUNT as int
        } else {
            titles@.len() - 1
        }));
        if exists|i: int| first_position(ts, ground_truth@, i) && is_best(query@, ts, i) {
            let i = choose|i: int| first_position(ts, ground_truth@, i) && is_best(query@, ts, i);
            if i != truth {
                if i < truth {
                    assert(ts[i] != ground_truth@);
                } else {
                    assert(ts[truth as int] != ground_truth@);
                }
            }
            assert forall|j: int| 0 <= j < cs.len() && j != 0 implies before(
                entry(query@, cs, 0),
                #[trigger] entry(query@, cs, j),
            ) by {
                let pk = picks@[j - 1] as int;
                assert(cs[j] == ts[pk]);
                assert(cs[0] == ts[truth as int]);
                assert(pk != truth);
                assert(before(entry(query@, ts, truth as int), entry(query@, ts, pk)));
            }
        }
    }
    r
}

} // verus!
