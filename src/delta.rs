//! The distance between a query and a candidate title: anchor agreement,
//! edition debias, and the weighted combination of the three scores.

use vstd::prelude::*;
use vstd::string::StringExecFns;
use crate::edit::{l_sym, l_symmetric, toks};
use crate::normalize::{normalize_v2, normalized};
use crate::overlap::{jaccard, jaccard_index};
use crate::tables::{DLC_KEYWORD_COUNT, dlc_text, dlc_keyword};
use crate::text::{SCALE, chars_of, frac, ratio, lemma_frac_bounds};

verus! {

// ---------------------------------------------------------------------------
// Anchor characters
// ---------------------------------------------------------------------------

/// Number of anchor characters.
pub const ANCHOR_COUNT: usize = 5;

/// The anchor characters: punctuation that marks title structure.
pub open spec fn anchor_char(k: int) -> char {
    if k == 0 {
        '+'
    } else if k == 1 {
        '-'
    } else if k == 2 {
        '#'
    } else if k == 3 {
        ':'
    } else {
        '.'
    }
}

fn anchor(k: usize) -> (r: char)
    requires
        k < ANCHOR_COUNT,
    ensures
        r == anchor_char(k as int),
{
    match k {
        0 => '+',
        1 => '-',
        2 => '#',
        3 => ':',
        _ => '.',
    }
}

/// How many of the first `n` anchor characters occur in both texts.
pub open spec fn anchors_both(a: Seq<char>, b: Seq<char>, n: int) -> nat
    decreases n,
{
    if n <= 0 {
        0
    } else {
        anchors_both(a, b, n - 1) + if a.contains(anchor_char(n - 1)) && b.contains(
            anchor_char(n - 1),
        ) {
            1nat
        } else {
            0nat
        }
    }
}

/// How many of the first `n` anchor characters occur in either text.
pub open spec fn anchors_either(a: Seq<char>, b: Seq<char>, n: int) -> nat
    decreases n,
{
    if n <= 0 {
        0
    } else {
        anchors_either(a, b, n - 1) + if a.contains(anchor_char(n - 1)) || b.contains(
            anchor_char(n - 1),
        ) {
            1nat
        } else {
            0nat
        }
    }
}

/// Jaccard index of the anchor characters present in each text, in fixed
/// point; `SCALE` when neither holds any.
pub open spec fn anchor_ratio(a: Seq<char>, b: Seq<char>) -> int {
    if anchors_either(a, b, 5) == 0 {
        SCALE as int
    } else {
        frac(anchors_both(a, b, 5) as int, anchors_either(a, b, 5) as int)
    }
}

pub(crate) proof fn lemma_anchor_counts(a: Seq<char>, b: Seq<char>, n: int)
    ensures
        anchors_both(a, b, n) <= anchors_either(a, b, n),
        anchors_either(a, b, n) <= if n < 0 { 0 } else { n },
        a == b ==> anchors_both(a, b, n) == anchors_either(a, b, n),
    decreases n,
{
    if n > 0 {
        lemma_anchor_counts(a, b, n - 1);
    }
}

fn has_char(cs: &Vec<char>, c: char) -> (r: bool)
    ensures
        r == cs@.contains(c),
{
    let mut i: usize = 0;
    while i < cs.len()
        invariant
            i <= cs@.len(),
            forall|j: int| 0 <= j < i ==> cs@[j] != c,
        decreases cs@.len() - i,
    {
        if cs[i] == c {
            assert(cs@[i as int] == c);
            return true;
        }
        i = i + 1;
    }
    false
}

/// Agreement on anchor characters between two texts: the Jaccard index of
/// the sets of anchors each holds, in fixed point; `SCALE` when neither
/// holds any.
pub fn compute_anchor_ratio(q_concat: &str, t_concat: &str) -> (r: u64)
    ensures
        r == anchor_ratio(q_concat@, t_concat@),
        r <= SCALE,
{
    let qa = chars_of(q_concat);
    let ta = chars_of(t_concat);
    let mut both: usize = 0;
    let mut either: usize = 0;
    let mut k: usize = 0;
    while k < ANCHOR_COUNT
        invariant
            k <= ANCHOR_COUNT,
            qa@ == q_concat@,
            ta@ == t_concat@,
            both == anchors_both(q_concat@, t_concat@, k as int),
            either == anchors_either(q_concat@, t_concat@, k as int),
            both <= k,
            either <= k,
        decreases ANCHOR_COUNT - k,
    {
        let c = anchor(k);
        let in_q = has_char(&qa, c);
        let in_t = has_char(&ta, c);
        if in_q && in_t {
            both = both + 1;
        }
        if in_q || in_t {
            either = either + 1;
        }
        k = k + 1;
    }
    proof {
        lemma_anchor_counts(q_concat@, t_concat@, 5);
    }
    if either == 0 {
        SCALE
    } else {
        ratio(both as u128, either as u128)
    }
}

// ---------------------------------------------------------------------------
// Edition debias
// ---------------------------------------------------------------------------

/// Tokens joined by a separator.
pub open spec fn joined(ts: Seq<Seq<char>>, sep: Seq<char>) -> Seq<char>
    decreases ts.len(),
{
    if ts.len() == 0 {
        Seq::empty()
    } else if ts.len() == 1 {
        ts[0]
    } else {
        joined(ts.drop_last(), sep) + sep + ts.last()
    }
}

/// Whether `needle` occurs in `hay` as a contiguous run.
pub open spec fn occurs_in(needle: Seq<char>, hay: Seq<char>) -> bool {
    exists|i: int|
        0 <= i && i + needle.len() <= hay.len() && #[trigger] hay.subrange(i, i + needle.len())
            == needle
}

/// Whether the space-joined tokens hold an edition or add-on keyword.
pub open spec fn dlc_like(ts: Seq<Seq<char>>) -> bool {
    exists|k: int| 0 <= k < 17 && occurs_in(#[trigger] dlc_text(k), joined(ts, " "@))
}

/// Tokens joined by a separator.
pub fn join_tokens(tokens: &Vec<String>, sep: &str) -> (r: String)
    ensures
        r@ == joined(toks(tokens@), sep@),
{
    let mut r = String::new();
    let mut i: usize = 0;
    while i < tokens.len()
        invariant
            i <= tokens@.len(),
            r@ == joined(toks(tokens@).subrange(0, i as int), sep@),
        decreases tokens@.len() - i,
    {
        let ghost pre = toks(tokens@).subrange(0, i as int);
        let ghost nxt = toks(tokens@).subrange(0, i + 1);
        assert(nxt.drop_last() =~= pre);
        assert(nxt.last() == tokens@[i as int]@);
        if i > 0 {
            r.append(sep);
        }
        r.append(tokens[i].as_str());
        proof {
            if i == 0 {
                assert(r@ =~= nxt[0]);
            }
        }
        i = i + 1;
    }
    assert(toks(tokens@).subrange(0, i as int) =~= toks(tokens@));
    r
}

/// Whether `needle` occurs in `hay` as a contiguous run.
fn occurs(needle: &Vec<char>, hay: &Vec<char>) -> (r: bool)
    ensures
        r == occurs_in(needle@, hay@),
{
    let n = needle.len();
    let hl = hay.len();
    if n == 0 {
        assert(hay@.subrange(0int, 0int + needle@.len()) =~= needle@);
        return true;
    }
    if n > hl {
        return false;
    }
    let last = hl - n;
    let mut i: usize = 0;
    while i <= last
        invariant
            n == needle@.len(),
            hl == hay@.len(),
            n > 0,
            last + n == hl,
            i <= last + 1,
            forall|p: int| 0 <= p < i ==> #[trigger] hay@.subrange(p, p + n) != needle@,
        decreases last + 1 - i,
    {
        let mut j: usize = 0;
        let mut same: bool = true;
        while same && j < n
            invariant
                n == needle@.len(),
                hl == hay@.len(),
                i <= last,
                last + n == hl,
                j <= n,
                same ==> hay@.subrange(i as int, i + j) =~= needle@.subrange(0, j as int),
                !same ==> j < n && hay@[i + j] != needle@[j as int],
            decreases n - j, if same { 1int } else { 0int },
        {
            if hay[i + j] == needle[j] {
                j = j + 1;
            } else {
                same = false;
            }
        }
        if same {
            assert(needle@.subrange(0, n as int) =~= needle@);
            assert(hay@.subrange(i as int, i + n) == needle@);
            return true;
        }
        assert(hay@.subrange(i as int, i + n)[j as int] != needle@[j as int]);
        i = i + 1;
    }
    assert forall|p: int| 0 <= p && p + n <= hay@.len() implies #[trigger] hay@.subrange(
        p,
        p + n,
    ) != needle@ by {
        assert(p < i);
    }
    false
}

/// Whether a token list holds an edition or add-on keyword: the tokens are
/// joined with spaces and searched for each keyword.
pub fn is_dlc_like(tokens: &Vec<String>) -> (r: bool)
    ensures
        r == dlc_like(toks(tokens@)),
{
    let text = join_tokens(tokens, " ");
    let hay = chars_of(text.as_str());
    let mut k: usize = 0;
    while k < DLC_KEYWORD_COUNT
        invariant
            k <= DLC_KEYWORD_COUNT,
            hay@ == joined(toks(tokens@), " "@),
            forall|m: int| 0 <= m < k ==> !occurs_in(#[trigger] dlc_text(m), hay@),
        decreases DLC_KEYWORD_COUNT - k,
    {
        let kw = chars_of(dlc_keyword(k));
        if occurs(&kw, &hay) {
            return true;
        }
        k = k + 1;
    }
    false
}

// ---------------------------------------------------------------------------
// Combination
// ---------------------------------------------------------------------------

/// The weights and corrections of a scoring profile, all in percent.
#[derive(Clone, Copy, Debug)]
pub struct Profile {
    /// Weight of the set-overlap score.
    pub w_j: u64,
    /// Weight of the edit-similarity score.
    pub w_l: u64,
    /// Weight of the anchor score.
    pub w_r: u64,
    /// Share of the missing overlap granted to a one-token query.
    pub alpha: u64,
    /// Extra weight of anchor disagreement.
    pub beta: u64,
    /// Ceiling on the set-overlap score.
    pub j_cap: u64,
    /// Factor applied to an edition candidate for a plain query.
    pub dlc_penalty: u64,
}

impl Profile {
    /// Every field within the range that keeps the arithmetic in bounds.
    pub open spec fn wf(&self) -> bool {
        &&& self.w_j <= 100
        &&& self.w_l <= 100
        &&& self.w_r <= 100
        &&& self.alpha <= 100
        &&& self.beta <= 100
        &&& self.j_cap <= 100
        &&& 100 <= self.dlc_penalty <= 200
    }

    /// The title profile: wJ 0.40, wL 0.40, wR 0.20, alpha 0.25, beta 0.35,
    /// overlap ceiling 0.80, edition factor 1.05.
    pub open spec fn title_spec() -> Profile {
        Profile { w_j: 40, w_l: 40, w_r: 20, alpha: 25, beta: 35, j_cap: 80, dlc_penalty: 105 }
    }

    /// The title profile, used for short catalog names.
    pub fn title() -> (r: Profile)
        ensures
            r == Profile::title_spec(),
            r.wf(),
    {
        Profile { w_j: 40, w_l: 40, w_r: 20, alpha: 25, beta: 35, j_cap: 80, dlc_penalty: 105 }
    }
}

/// The overlap score after the one-token boost and the ceiling.
pub open spec fn corrected_overlap(p: Profile, j: int, q_len: nat, t_len: nat) -> int {
    let boosted = if q_len == 1 && t_len > 1 {
        let b = j + p.alpha * (SCALE - j) / 100;
        if b > SCALE { SCALE as int } else { b }
    } else {
        j
    };
    let cap = p.j_cap * (SCALE / 100);
    if boosted > cap { cap as int } else { boosted }
}

/// The weighted distance of the three scores plus the anchor correction,
/// at most `SCALE`.
pub open spec fn combined(p: Profile, j: int, l: int, r: int) -> int {
    let base = (p.w_j * (SCALE - j) + p.w_l * (SCALE - l) + p.w_r * (SCALE - r) + p.beta * (
    SCALE - r)) / 100;
    if base > SCALE { SCALE as int } else { base }
}

/// The edition debias: an edition candidate for a plain query is pushed
/// away by the profile's factor, at most to `SCALE`.
pub open spec fn debiased(p: Profile, d: int, q: Seq<Seq<char>>, t: Seq<Seq<char>>) -> int {
    if dlc_like(t) && !dlc_like(q) {
        let e = d * p.dlc_penalty / 100;
        if e > SCALE { SCALE as int } else { e }
    } else {
        d
    }
}

/// The distance between two token sequences under a profile.
pub open spec fn delta_tokens(p: Profile, q: Seq<Seq<char>>, t: Seq<Seq<char>>) -> int {
    if q.len() == 0 || t.len() == 0 {
        SCALE as int
    } else {
        let j = corrected_overlap(p, jaccard(q, t), q.len(), t.len());
        let r = anchor_ratio(joined(q, ""@), joined(t, ""@));
        debiased(p, combined(p, j, l_sym(q, t), r), q, t)
    }
}

/// The distance between a query text and a candidate title under the
/// title profile; 0 is identical, `SCALE` unrelated.
pub open spec fn title_delta(query: Seq<char>, title: Seq<char>) -> int {
    delta_tokens(Profile::title_spec(), normalized(query), normalized(title))
}

/// The edition debias applied to a distance.
pub fn apply_dlc_debias(
    p: &Profile,
    delta: u64,
    q_tokens: &Vec<String>,
    t_tokens: &Vec<String>,
) -> (r: u64)
    requires
        p.wf(),
        delta <= SCALE,
    ensures
        r == debiased(*p, delta as int, toks(q_tokens@), toks(t_tokens@)),
        r <= SCALE,
{
    if is_dlc_like(t_tokens) && !is_dlc_like(q_tokens) {
        assert(delta * p.dlc_penalty <= SCALE * 200) by (nonlinear_arith)
            requires
                delta <= SCALE,
                p.dlc_penalty <= 200,
        ;
        let e = delta * p.dlc_penalty / 100;
        if e > SCALE {
            SCALE
        } else {
            e
        }
    } else {
        delta
    }
}

/// The distance between two token lists under a profile.
pub fn delta_of_tokens(p: &Profile, q_tokens: &Vec<String>, t_tokens: &Vec<String>) -> (r: u64)
    requires
        p.wf(),
    ensures
        r == delta_tokens(*p, toks(q_tokens@), toks(t_tokens@)),
        r <= SCALE,
{
    if q_tokens.len() == 0 || t_tokens.len() == 0 {
        return SCALE;
    }
    let j0 = jaccard_index(q_tokens, t_tokens);
    let l = l_symmetric(q_tokens, t_tokens);
    let q_concat = join_tokens(q_tokens, "");
    let t_concat = join_tokens(t_tokens, "");
    let r = compute_anchor_ratio(q_concat.as_str(), t_concat.as_str());
    let mut j = j0;
    if q_tokens.len() == 1 && t_tokens.len() > 1 {
        assert(p.alpha * (SCALE - j) <= 100 * SCALE) by (nonlinear_arith)
            requires
                j <= SCALE,
                p.alpha <= 100,
        ;
        j = j + p.alpha * (SCALE - j) / 100;
        if j > SCALE {
            j = SCALE;
        }
    }
    let cap = p.j_cap * (SCALE / 100);
    if j > cap {
        j = cap;
    }
    assert(p.w_j * (SCALE - j) <= 100 * SCALE) by (nonlinear_arith)
        requires
            j <= SCALE,
            p.w_j <= 100,
    ;
    assert(p.w_l * (SCALE - l) <= 100 * SCALE) by (nonlinear_arith)
        requires
            l <= SCALE,
            p.w_l <= 100,
    ;
    assert(p.w_r * (SCALE - r) <= 100 * SCALE) by (nonlinear_arith)
        requires
            r <= SCALE,
            p.w_r <= 100,
    ;
    assert(p.beta * (SCALE - r) <= 100 * SCALE) by (nonlinear_arith)
        requires
            r <= SCALE,
            p.beta <= 100,
    ;
    let mut d = (p.w_j * (SCALE - j) + p.w_l * (SCALE - l) + p.w_r * (SCALE - r) + p.beta * (
    SCALE - r)) / 100;
    if d > SCALE {
        d = SCALE;
    }
    apply_dlc_debias(p, d, q_tokens, t_tokens)
}

/// The distance between a query and a candidate title under the title
/// profile, in fixed point: 0 is identical, `SCALE` unrelated. A text
/// without alphanumeric characters is at distance `SCALE` from everything.
pub fn semantic_delta_title(query: &str, title: &str) -> (r: u64)
    ensures
        r == title_delta(query@, title@),
        r <= SCALE,
        query@.len() == 0 || title@.len() == 0 ==> r == SCALE,
{
    let q_tokens = normalize_v2(query);
    let t_tokens = normalize_v2(title);
    let p = Profile::title();
    delta_of_tokens(&p, &q_tokens, &t_tokens)
}

/// The distance used for catalog matching; currently the title profile.
pub fn semantic_delta_v3(query: &str, title: &str) -> (r: u64)
    ensures
        r == title_delta(query@, title@),
        r <= SCALE,
        query@.len() == 0 || title@.len() == 0 ==> r == SCALE,
{
    semantic_delta_title(query, title)
}

} // verus!
