//! Edit-distance similarity between tokens, aggregated symmetrically over
//! two token sequences.

use vstd::prelude::*;
use crate::text::{SCALE, chars_of};

verus! {

pub open spec fn min3(x: nat, y: nat, z: nat) -> nat {
    if x <= y && x <= z {
        x
    } else if y <= z {
        y
    } else {
        z
    }
}

/// Levenshtein distance: the fewest single-character insertions, deletions
/// and substitutions that turn `a` into `b`.
pub open spec fn lev(a: Seq<char>, b: Seq<char>) -> nat
    decreases a.len() + b.len(),
{
    if a.len() == 0 {
        b.len()
    } else if b.len() == 0 {
        a.len()
    } else {
        min3(
            lev(a.drop_last(), b) + 1,
            lev(a, b.drop_last()) + 1,
            lev(a.drop_last(), b.drop_last()) + if a.last() == b.last() { 0nat } else { 1nat },
        )
    }
}

pub open spec fn max_len(a: Seq<char>, b: Seq<char>) -> nat {
    if a.len() >= b.len() { a.len() } else { b.len() }
}

/// Similarity of two tokens in fixed point: `1 - lev / max length`, rounded
/// down, and 1 when both are empty.
pub open spec fn sim(a: Seq<char>, b: Seq<char>) -> int {
    let m = max_len(a, b);
    if m == 0 {
        SCALE as int
    } else {
        (m - lev(a, b)) * SCALE / (m as int)
    }
}

/// The best similarity of token `s` against any token of `ts` (0 when `ts` is empty).
pub open spec fn best_sim(s: Seq<char>, ts: Seq<Seq<char>>) -> int
    decreases ts.len(),
{
    if ts.len() == 0 {
        0
    } else {
        let rest = best_sim(s, ts.drop_last());
        let here = sim(s, ts.last());
        if here > rest { here } else { rest }
    }
}

/// Sum over the tokens of `xs` of their best similarity against `ys`.
pub open spec fn sum_best(xs: Seq<Seq<char>>, ys: Seq<Seq<char>>) -> int
    decreases xs.len(),
{
    if xs.len() == 0 {
        0
    } else {
        sum_best(xs.drop_last(), ys) + best_sim(xs.last(), ys)
    }
}

/// Symmetric edit similarity of two token sequences: the mean of the forward
/// and backward averages of best matches.
pub open spec fn l_sym(xs: Seq<Seq<char>>, ys: Seq<Seq<char>>) -> int {
    if xs.len() == 0 && ys.len() == 0 {
        SCALE as int
    } else if xs.len() == 0 || ys.len() == 0 {
        0
    } else {
        (sum_best(xs, ys) / (xs.len() as int) + sum_best(ys, xs) / (ys.len() as int)) / 2
    }
}

pub proof fn lemma_lev_le_max(a: Seq<char>, b: Seq<char>)
    ensures
        lev(a, b) <= max_len(a, b),
    decreases a.len() + b.len(),
{
    if a.len() > 0 && b.len() > 0 {
        lemma_lev_le_max(a.drop_last(), b.drop_last());
    }
}

pub proof fn lemma_lev_self(a: Seq<char>)
    ensures
        lev(a, a) == 0,
    decreases a.len(),
{
    if a.len() > 0 {
        lemma_lev_self(a.drop_last());
    }
}

pub proof fn lemma_sim_bounds(a: Seq<char>, b: Seq<char>)
    ensures
        0 <= sim(a, b) <= SCALE,
{
    lemma_lev_le_max(a, b);
    let m = max_len(a, b);
    if m > 0 {
        let d = lev(a, b);
        assert((m - d) * SCALE <= m * SCALE) by (nonlinear_arith)
            requires d <= m;
        assert(0 <= (m - d) * SCALE) by (nonlinear_arith)
            requires d <= m;
        vstd::arithmetic::div_mod::lemma_div_is_ordered((m - d) * SCALE, m * SCALE, m as int);
        vstd::arithmetic::div_mod::lemma_div_multiples_vanish(SCALE as int, m as int);
        vstd::arithmetic::div_mod::lemma_div_pos_is_pos((m - d) * SCALE, m as int);
    }
}

pub proof fn lemma_sim_self(a: Seq<char>)
    ensures
        sim(a, a) == SCALE,
{
    lemma_lev_self(a);
    let m = max_len(a, a);
    if m > 0 {
        vstd::arithmetic::div_mod::lemma_div_multiples_vanish(SCALE as int, m as int);
        assert(m * SCALE == SCALE * m) by (nonlinear_arith);
    }
}

pub proof fn lemma_best_sim_bounds(s: Seq<char>, ts: Seq<Seq<char>>)
    ensures
        0 <= best_sim(s, ts) <= SCALE,
    decreases ts.len(),
{
    if ts.len() > 0 {
        lemma_best_sim_bounds(s, ts.drop_last());
        lemma_sim_bounds(s, ts.last());
    }
}

pub proof fn lemma_sum_best_bounds(xs: Seq<Seq<char>>, ys: Seq<Seq<char>>)
    ensures
        0 <= sum_best(xs, ys) <= xs.len() * SCALE,
    decreases xs.len(),
{
    if xs.len() > 0 {
        lemma_sum_best_bounds(xs.drop_last(), ys);
        lemma_best_sim_bounds(xs.last(), ys);
    }
}

pub proof fn lemma_l_sym_bounds(xs: Seq<Seq<char>>, ys: Seq<Seq<char>>)
    ensures
        0 <= l_sym(xs, ys) <= SCALE,
{
    if xs.len() > 0 && ys.len() > 0 {
        lemma_sum_best_bounds(xs, ys);
        lemma_sum_best_bounds(ys, xs);
        lemma_avg_le(sum_best(xs, ys), xs.len() as int);
        lemma_avg_le(sum_best(ys, xs), ys.len() as int);
    }
}

proof fn lemma_avg_le(sum: int, n: int)
    requires
        n > 0,
        0 <= sum <= n * SCALE,
    ensures
        0 <= sum / n <= SCALE,
{
    vstd::arithmetic::div_mod::lemma_div_is_ordered(sum, n * SCALE, n);
    vstd::arithmetic::div_mod::lemma_div_multiples_vanish(SCALE as int, n);
    assert(n * SCALE == SCALE * n) by (nonlinear_arith);
    vstd::arithmetic::div_mod::lemma_div_pos_is_pos(sum, n);
}

/// Levenshtein distance between two character sequences, by dynamic
/// programming over one row at a time.
pub fn lev_chars(a: &Vec<char>, b: &Vec<char>) -> (r: usize)
    ensures
        r == lev(a@, b@),
{
    let n = a.len();
    let m = b.len();
    if n == 0 {
        return m;
    }
    if m == 0 {
        return n;
    }
    // prev[j] holds the distance between the first i characters of a and
    // the first j + 1 characters of b.
    let mut prev: Vec<usize> = Vec::new();
    let mut j: usize = 0;
    while j < m
        invariant
            j <= m,
            m == b@.len(),
            prev@.len() == j,
            forall|k: int| 0 <= k < j ==> prev@[k] == k + 1,
        decreases m - j,
    {
        prev.push(j + 1);
        j = j + 1;
    }
    proof {
        assert forall|k: int| 0 <= k < m implies prev@[k] == lev(
            a@.subrange(0, 0),
            b@.subrange(0, k + 1),
        ) by {}
    }
    let mut i: usize = 0;
    while i < n
        invariant
            i <= n,
            n == a@.len(),
            m == b@.len(),
            m > 0,
            prev@.len() == m,
            forall|k: int|
                0 <= k < m ==> prev@[k] == lev(a@.subrange(0, i as int), b@.subrange(0, k + 1)),
        decreases n - i,
    {
        let ghost ai = a@.subrange(0, i as int);
        let ghost ai1 = a@.subrange(0, i + 1);
        assert(ai1.drop_last() =~= ai);
        let mut curr: Vec<usize> = Vec::new();
        let mut j: usize = 0;
        while j < m
            invariant
                i < n,
                n == a@.len(),
                m == b@.len(),
                j <= m,
                prev@.len() == m,
                curr@.len() == j,
                ai == a@.subrange(0, i as int),
                ai1 == a@.subrange(0, i + 1),
                ai1.drop_last() == ai,
                forall|k: int| 0 <= k < m ==> prev@[k] == lev(ai, b@.subrange(0, k + 1)),
                forall|k: int| 0 <= k < j ==> curr@[k] == lev(ai1, b@.subrange(0, k + 1)),
            decreases m - j,
        {
            let ghost bj1 = b@.subrange(0, j + 1);
            let ghost bj = b@.subrange(0, j as int);
            assert(bj1.drop_last() =~= bj);
            proof {
                lemma_lev_le_max(ai, bj);
                if j > 0 {
                    assert(b@.subrange(0, j as int) =~= b@.subrange(0, (j - 1) + 1));
                }
            }
            let cost: usize = if a[i] == b[j] { 0 } else { 1 };
            let diag: usize = if j == 0 { i } else { prev[j - 1] };
            let left: usize = if j == 0 { i + 1 } else { curr[j - 1] };
            let up: usize = prev[j];
            let mut best: usize = diag + cost;
            if left < best {
                best = left + 1;
            }
            if up < best {
                best = up + 1;
            }
            proof {
                if j == 0 {
                    assert(bj.len() == 0);
                }
                assert(ai1.last() == a@[i as int]);
                assert(bj1.last() == b@[j as int]);
                assert(left == lev(ai1, bj));
                assert(up == lev(ai, bj1));
                assert(diag == lev(ai, bj));
                assert(cost == (if ai1.last() == bj1.last() { 0nat } else { 1nat }));
                assert(ai1.len() > 0 && bj1.len() > 0);
            }
            assert(best == lev(ai1, bj1));
            curr.push(best);
            j = j + 1;
        }
        prev = curr;
        i = i + 1;
    }
    assert(a@.subrange(0, n as int) =~= a@);
    assert(b@.subrange(0, m as int) =~= b@);
    prev[m - 1]
}

/// Levenshtein distance between two strings, counted in characters.
pub fn levenshtein_distance(a: &str, b: &str) -> (r: usize)
    ensures
        r == lev(a@, b@),
{
    let ca = chars_of(a);
    let cb = chars_of(b);
    lev_chars(&ca, &cb)
}

/// Fixed-point similarity of two character sequences.
pub fn sim_chars(a: &Vec<char>, b: &Vec<char>) -> (r: u64)
    ensures
        r == sim(a@, b@),
        r <= SCALE,
{
    let d = lev_chars(a, b);
    let m: usize = if a.len() >= b.len() { a.len() } else { b.len() };
    proof {
        lemma_lev_le_max(a@, b@);
        lemma_sim_bounds(a@, b@);
    }
    if m == 0 {
        SCALE
    } else {
        let num: u128 = ((m - d) as u128) * (SCALE as u128);
        (num / (m as u128)) as u64
    }
}

/// Similarity of two strings in fixed point: `SCALE * (1 - lev / max length)`,
/// lengths in characters, rounded down; `SCALE` when both are empty.
pub fn levenshtein_sim(a: &str, b: &str) -> (r: u64)
    ensures
        r == sim(a@, b@),
        r <= SCALE,
{
    let ca = chars_of(a);
    let cb = chars_of(b);
    sim_chars(&ca, &cb)
}

/// The character sequences of a list of strings.
pub open spec fn toks(v: Seq<String>) -> Seq<Seq<char>> {
    v.map_values(|t: String| t@)
}

/// The character sequences of a list of character vectors.
pub open spec fn rows(v: Seq<Vec<char>>) -> Seq<Seq<char>> {
    v.map_values(|t: Vec<char>| t@)
}

/// Each string of a list as a vector of characters.
pub(crate) fn token_chars(v: &Vec<String>) -> (r: Vec<Vec<char>>)
    ensures
        rows(r@) == toks(v@),
{
    let mut r: Vec<Vec<char>> = Vec::new();
    let mut i: usize = 0;
    while i < v.len()
        invariant
            i <= v@.len(),
            r@.len() == i,
            forall|k: int| 0 <= k < i ==> #[trigger] r@[k]@ == v@[k]@,
        decreases v@.len() - i,
    {
        let c = chars_of(v[i].as_str());
        r.push(c);
        i = i + 1;
    }
    assert(rows(r@) =~= toks(v@));
    r
}

/// The best similarity of `s` against any of `ts`.
fn best_against(s: &Vec<char>, ts: &Vec<Vec<char>>) -> (r: u64)
    ensures
        r == best_sim(s@, rows(ts@)),
        r <= SCALE,
{
    let mut best: u64 = 0;
    let mut k: usize = 0;
    while k < ts.len()
        invariant
            k <= ts@.len(),
            best == best_sim(s@, rows(ts@).subrange(0, k as int)),
            best <= SCALE,
        decreases ts@.len() - k,
    {
        let here = sim_chars(s, &ts[k]);
        let ghost pre = rows(ts@).subrange(0, k as int);
        assert(rows(ts@).subrange(0, k + 1).drop_last() =~= pre);
        if here > best {
            best = here;
        }
        k = k + 1;
    }
    assert(rows(ts@).subrange(0, k as int) =~= rows(ts@));
    best
}

/// Sum over `xs` of each token's best similarity against `ys`.
fn sum_against(xs: &Vec<Vec<char>>, ys: &Vec<Vec<char>>) -> (r: u128)
    ensures
        r == sum_best(rows(xs@), rows(ys@)),
        r <= xs@.len() * SCALE,
{
    let mut sum: u128 = 0;
    let mut k: usize = 0;
    while k < xs.len()
        invariant
            k <= xs@.len(),
            sum == sum_best(rows(xs@).subrange(0, k as int), rows(ys@)),
            sum <= k * SCALE,
        decreases xs@.len() - k,
    {
        let b = best_against(&xs[k], ys);
        let ghost pre = rows(xs@).subrange(0, k as int);
        assert(rows(xs@).subrange(0, k + 1).drop_last() =~= pre);
        sum = sum + b as u128;
        k = k + 1;
    }
    assert(rows(xs@).subrange(0, k as int) =~= rows(xs@));
    sum
}

/// Symmetric edit similarity of two token sequences, in fixed point: each
/// token's best match is averaged in both directions, and the two averages
/// are averaged again. `SCALE` when both are empty, 0 when only one is.
pub fn l_symmetric(tokens_a: &Vec<String>, tokens_b: &Vec<String>) -> (r: u64)
    ensures
        r == l_sym(toks(tokens_a@), toks(tokens_b@)),
        r <= SCALE,
{
    proof {
        lemma_l_sym_bounds(toks(tokens_a@), toks(tokens_b@));
    }
    if tokens_a.len() == 0 && tokens_b.len() == 0 {
        return SCALE;
    }
    if tokens_a.len() == 0 || tokens_b.len() == 0 {
        return 0;
    }
    let ca = token_chars(tokens_a);
    let cb = token_chars(tokens_b);
    let fwd = sum_against(&ca, &cb) / (ca.len() as u128);
    let bwd = sum_against(&cb, &ca) / (cb.len() as u128);
    ((fwd + bwd) / 2) as u64
}

} // verus!
