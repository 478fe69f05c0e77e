//! Set overlap of two token sequences: Jaccard index over unigrams and
//! adjacent-pair bigrams together.

use vstd::prelude::*;
use vstd::string::StringExecFns;
use crate::edit::toks;
use crate::text::{SCALE, frac, ratio, lemma_frac_bounds};

verus! {

/// The key of an adjacent token pair: both tokens joined by an underscore.
pub open spec fn bigram_key(x: Seq<char>, y: Seq<char>) -> Seq<char> {
    x.push('_') + y
}

/// The bigram keys of a token sequence, one per adjacent pair, in order.
pub open spec fn bigram_keys(ts: Seq<Seq<char>>) -> Seq<Seq<char>> {
    if ts.len() == 0 {
        Seq::empty()
    } else {
        Seq::new((ts.len() - 1) as nat, |i: int| bigram_key(ts[i], ts[i + 1]))
    }
}

/// Shared unigrams plus shared bigrams.
pub open spec fn overlap_common(a: Seq<Seq<char>>, b: Seq<Seq<char>>) -> nat {
    a.to_set().intersect(b.to_set()).len() + bigram_keys(a).to_set().intersect(
        bigram_keys(b).to_set(),
    ).len()
}

/// Distinct unigrams plus distinct bigrams of both sequences together.
pub open spec fn overlap_total(a: Seq<Seq<char>>, b: Seq<Seq<char>>) -> nat {
    a.to_set().union(b.to_set()).len() + bigram_keys(a).to_set().union(
        bigram_keys(b).to_set(),
    ).len()
}

/// Jaccard index over unigrams and bigrams, in fixed point: `SCALE` when
/// both sequences are empty, 0 when exactly one is.
pub open spec fn jaccard(a: Seq<Seq<char>>, b: Seq<Seq<char>>) -> int {
    if a.len() == 0 && b.len() == 0 {
        SCALE as int
    } else if a.len() == 0 || b.len() == 0 {
        0
    } else if overlap_total(a, b) == 0 {
        0
    } else {
        frac(overlap_common(a, b) as int, overlap_total(a, b) as int)
    }
}

/// The bigram keys of a token list.
pub fn make_bigrams(tokens: &Vec<String>) -> (r: Vec<String>)
    ensures
        toks(r@) == bigram_keys(toks(tokens@)),
{
    let mut r: Vec<String> = Vec::new();
    if tokens.len() == 0 {
        assert(toks(r@) =~= bigram_keys(toks(tokens@)));
        return r;
    }
    let ghost ts = toks(tokens@);
    let mut i: usize = 0;
    while i < tokens.len() - 1
        invariant
            ts == toks(tokens@),
            tokens@.len() > 0,
            i <= tokens@.len() - 1,
            r@.len() == i,
            forall|k: int| 0 <= k < i ==> #[trigger] r@[k]@ == bigram_key(ts[k], ts[k + 1]),
        decreases tokens@.len() - i,
    {
        let mut key = tokens[i].clone();
        key.push('_');
        key.append(tokens[i + 1].as_str());
        r.push(key);
        i = i + 1;
    }
    assert(toks(r@) =~= bigram_keys(ts));
    r
}

/// Whether a string list holds a string with the characters of `t`.
pub(crate) fn contains_text(v: &Vec<String>, t: &String) -> (r: bool)
    ensures
        r == toks(v@).contains(t@),
{
    let mut i: usize = 0;
    while i < v.len()
        invariant
            i <= v@.len(),
            forall|k: int| 0 <= k < i ==> v@[k]@ != t@,
        decreases v@.len() - i,
    {
        if v[i] == *t {
            assert(toks(v@)[i as int] == t@);
            return true;
        }
        i = i + 1;
    }
    assert forall|k: int| 0 <= k < toks(v@).len() implies toks(v@)[k] != t@ by {
        assert(toks(v@)[k] == v@[k]@);
    }
    false
}

/// The distinct strings of a list, in order of first appearance.
pub(crate) fn distinct(v: &Vec<String>) -> (r: Vec<String>)
    ensures
        toks(r@).no_duplicates(),
        toks(r@).to_set() == toks(v@).to_set(),
{
    broadcast use vstd::seq_lib::group_seq_properties;

    let mut r: Vec<String> = Vec::new();
    let mut i: usize = 0;
    while i < v.len()
        invariant
            i <= v@.len(),
            toks(r@).no_duplicates(),
            forall|t: Seq<char>|
                toks(r@).contains(t) <==> toks(v@).subrange(0, i as int).contains(t),
        decreases v@.len() - i,
    {
        let ghost r0 = toks(r@);
        let ghost pre = toks(v@).subrange(0, i as int);
        let ghost nxt = toks(v@).subrange(0, i + 1);
        let ghost x = v@[i as int]@;
        assert(nxt =~= pre.push(x));
        if !contains_text(&r, &v[i]) {
            let s = v[i].clone();
            r.push(s);
            assert(toks(r@) =~= r0.push(x));
            assert(toks(r@).no_duplicates()) by {
                assert forall|a: int, b: int|
                    0 <= a < b < toks(r@).len() implies toks(r@)[a] != toks(r@)[b] by {
                    if b == r0.len() {
                        assert(r0.contains(r0[a]));
                    }
                }
            }
            assert forall|t: Seq<char>| toks(r@).contains(t) <==> nxt.contains(t) by {
                vstd::seq_lib::lemma_seq_contains_after_push(r0, x, t);
                vstd::seq_lib::lemma_seq_contains_after_push(pre, x, t);
            }
        } else {
            assert forall|t: Seq<char>| toks(r@).contains(t) <==> nxt.contains(t) by {
                vstd::seq_lib::lemma_seq_contains_after_push(pre, x, t);
            }
        }
        i = i + 1;
    }
    assert(toks(v@).subrange(0, i as int) =~= toks(v@));
    assert(toks(r@).to_set() =~= toks(v@).to_set());
    r
}

/// The number of strings of `u` that also occur in `w`.
pub(crate) fn count_common(u: &Vec<String>, w: &Vec<String>) -> (r: usize)
    requires
        toks(u@).no_duplicates(),
    ensures
        r == toks(u@).to_set().intersect(toks(w@).to_set()).len(),
        r <= u@.len(),
{
    broadcast use vstd::seq_lib::group_seq_properties;
    broadcast use vstd::set_lib::group_set_properties;

    let ghost ws = toks(w@).to_set();
    let mut n: usize = 0;
    let mut i: usize = 0;
    while i < u.len()
        invariant
            i <= u@.len(),
            n <= i,
            ws == toks(w@).to_set(),
            toks(u@).no_duplicates(),
            n == toks(u@).subrange(0, i as int).to_set().intersect(ws).len(),
        decreases u@.len() - i,
    {
        let ghost s0 = toks(u@).subrange(0, i as int).to_set().intersect(ws);
        let ghost x = toks(u@)[i as int];
        assert(toks(u@).subrange(0, i + 1) =~= toks(u@).subrange(0, i as int).push(x));
        assert(!s0.contains(x)) by {
            if s0.contains(x) {
                let k = choose|k: int|
                    0 <= k < i && #[trigger] toks(u@).subrange(0, i as int)[k] == x;
                assert(toks(u@)[k] == x);
            }
        }
        assert(s0.finite()) by {
            vstd::set_lib::lemma_len_subset(s0, toks(u@).subrange(0, i as int).to_set());
        }
        assert(x == u@[i as int]@);
        assert forall|t: Seq<char>|
            toks(u@).subrange(0, i + 1).contains(t) <==> (toks(u@).subrange(
                0,
                i as int,
            ).contains(t) || t == x) by {
            vstd::seq_lib::lemma_seq_contains_after_push(toks(u@).subrange(0, i as int), x, t);
        }
        if contains_text(w, &u[i]) {
            assert(toks(u@).subrange(0, i + 1).to_set().intersect(ws) =~= s0.insert(x));
            n = n + 1;
        } else {
            assert(toks(u@).subrange(0, i + 1).to_set().intersect(ws) =~= s0);
        }
        i = i + 1;
    }
    assert(toks(u@).subrange(0, i as int) =~= toks(u@));
    n
}

proof fn lemma_distinct_counts(u: Seq<Seq<char>>, w: Seq<Seq<char>>, common: nat)
    requires
        u.no_duplicates(),
        w.no_duplicates(),
        common == u.to_set().intersect(w.to_set()).len(),
    ensures
        u.to_set().union(w.to_set()).len() + common == u.len() + w.len(),
        common <= u.len(),
        common <= w.len(),
{
    broadcast use vstd::seq_lib::group_seq_properties;
    broadcast use vstd::set_lib::group_set_properties;

    u.unique_seq_to_set();
    w.unique_seq_to_set();
    vstd::set_lib::lemma_set_intersect_union_lens(u.to_set(), w.to_set());
    vstd::set_lib::lemma_len_subset(u.to_set().intersect(w.to_set()), u.to_set());
    vstd::set_lib::lemma_len_subset(u.to_set().intersect(w.to_set()), w.to_set());
}

/// Jaccard index of two token lists over unigrams and bigrams together, in
/// fixed point.
pub fn jaccard_index(tokens_a: &Vec<String>, tokens_b: &Vec<String>) -> (r: u64)
    ensures
        r == jaccard(toks(tokens_a@), toks(tokens_b@)),
        r <= SCALE,
{
    if tokens_a.len() == 0 && tokens_b.len() == 0 {
        return SCALE;
    }
    if tokens_a.len() == 0 || tokens_b.len() == 0 {
        return 0;
    }
    let ua = distinct(tokens_a);
    let ub = distinct(tokens_b);
    let ba = distinct(&make_bigrams(tokens_a));
    let bb = distinct(&make_bigrams(tokens_b));
    let c1 = count_common(&ua, &ub);
    let c2 = count_common(&ba, &bb);
    proof {
        lemma_distinct_counts(toks(ua@), toks(ub@), c1 as nat);
        lemma_distinct_counts(toks(ba@), toks(bb@), c2 as nat);
    }
    let common: u128 = c1 as u128 + c2 as u128;
    let total: u128 = (ua.len() as u128 + ub.len() as u128 - c1 as u128) + (ba.len() as u128
        + bb.len() as u128 - c2 as u128);
    if total == 0 {
        0
    } else {
        ratio(common, total)
    }
}

} // verus!
