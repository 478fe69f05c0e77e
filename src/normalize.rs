//! Turning raw text into a canonical token sequence.

use vstd::prelude::*;
use vstd::string::{StrSliceExecFns, StringExecFns};
use crate::edit::toks;
use crate::tables::{
    ROMAN_COUNT, roman_text, arabic_text, roman_numeral, arabic_numeral,
};
use crate::text::{alnum_of, chars_of, compose, is_alnum, lower_of, nfc_of, same_text};

verus! {

/// The text after canonical composition and lower-casing.
pub open spec fn folded(s: Seq<char>) -> Seq<char> {
    lower_of(nfc_of(s))
}

/// The maximal runs of alphanumeric characters of `s`, in order.
pub open spec fn split_tokens(s: Seq<char>) -> Seq<Seq<char>>
    decreases s.len(),
{
    if s.len() == 0 {
        Seq::empty()
    } else {
        let prev = split_tokens(s.drop_last());
        let c = s.last();
        if !alnum_of(c) {
            prev
        } else if s.len() >= 2 && alnum_of(s[s.len() - 2]) {
            prev.drop_last().push(prev.last().push(c))
        } else {
            prev.push(seq![c])
        }
    }
}

/// The decimal numeral for `t` if `t` is in the roman numeral table at or
/// after entry `k`.
pub open spec fn arabic_from(t: Seq<char>, k: int) -> Option<Seq<char>>
    decreases 20 - k,
{
    if k < 0 || k >= 20 {
        None
    } else if roman_text(k) == t {
        Some(arabic_text(k))
    } else {
        arabic_from(t, k + 1)
    }
}

/// The decimal numeral for a roman numeral between i and xx.
pub open spec fn arabic_for(t: Seq<char>) -> Option<Seq<char>> {
    arabic_from(t, 0)
}

pub open spec fn all_digits(t: Seq<char>) -> bool {
    forall|i: int| 0 <= i < t.len() ==> '0' <= #[trigger] t[i] <= '9'
}

/// A token that marks numeral context: one to four characters, all decimal
/// digits or a roman numeral between i and xx.
pub open spec fn numeral_like(t: Seq<char>) -> bool {
    1 <= t.len() <= 4 && (all_digits(t) || arabic_for(t) is Some)
}

/// Whether roman numerals of a token sequence are to be read as numbers.
pub open spec fn numeral_context(ts: Seq<Seq<char>>) -> bool {
    exists|i: int| 0 <= i < ts.len() && numeral_like(#[trigger] ts[i])
}

/// A roman numeral token replaced by its decimal numeral; others unchanged.
pub open spec fn map_numeral(t: Seq<char>) -> Seq<char> {
    match arabic_for(t) {
        Some(d) => d,
        None => t,
    }
}

/// The token sequence of a text: composed, lower-cased, split into
/// alphanumeric runs, with roman numerals read as numbers when some token
/// gives numeral context.
pub open spec fn normalized(s: Seq<char>) -> Seq<Seq<char>> {
    let ts = split_tokens(folded(s));
    if numeral_context(ts) {
        ts.map_values(|t: Seq<char>| map_numeral(t))
    } else {
        ts
    }
}

/// The alphanumeric runs of a text, in order.
pub fn split_alnum(s: &str) -> (r: Vec<String>)
    ensures
        toks(r@) == split_tokens(s@),
{
    let cs = chars_of(s);
    let mut out: Vec<String> = Vec::new();
    let mut cur = String::new();
    let mut i: usize = 0;
    while i < cs.len()
        invariant
            cs@ == s@,
            i <= cs@.len(),
            (if cur@.len() > 0 { toks(out@).push(cur@) } else { toks(out@) }) == split_tokens(
                s@.subrange(0, i as int),
            ),
            cur@.len() > 0 <==> (i > 0 && alnum_of(s@[i - 1])),
        decreases cs@.len() - i,
    {
        let c = cs[i];
        let ghost pre = s@.subrange(0, i as int);
        let ghost nxt = s@.subrange(0, i + 1);
        assert(nxt.drop_last() =~= pre);
        assert(nxt.last() == c);
        if is_alnum(c) {
            let ghost old_cur = cur@;
            cur.push(c);
            proof {
                if old_cur.len() > 0 {
                    assert(nxt[nxt.len() - 2] == s@[i - 1]);
                    assert(toks(out@).push(old_cur).drop_last() =~= toks(out@));
                } else {
                    assert(old_cur.push(c) =~= seq![c]);
                }
            }
        } else if !cur.as_str().is_empty() {
            let ghost o = toks(out@);
            out.push(cur);
            assert(toks(out@) =~= o.push(cur@));
            cur = String::new();
        }
        i = i + 1;
    }
    assert(s@.subrange(0, i as int) =~= s@);
    if !cur.as_str().is_empty() {
        let ghost o = toks(out@);
        out.push(cur);
        assert(toks(out@) =~= o.push(cur@));
    }
    out
}

/// The table index of a roman numeral between i and xx, if `t` is one.
fn roman_index(t: &String) -> (r: Option<usize>)
    ensures
        match r {
            Some(k) => k < ROMAN_COUNT && arabic_for(t@) == Some(arabic_text(k as int)),
            None => arabic_for(t@) is None,
        },
{
    let mut k: usize = 0;
    while k < ROMAN_COUNT
        invariant
            k <= ROMAN_COUNT,
            arabic_for(t@) == arabic_from(t@, k as int),
        decreases ROMAN_COUNT - k,
    {
        if same_text(t.as_str(), roman_numeral(k)) {
            return Some(k);
        }
        k = k + 1;
    }
    None
}

fn is_digits(t: &String) -> (r: bool)
    ensures
        r == all_digits(t@),
{
    let cs = chars_of(t.as_str());
    let mut i: usize = 0;
    while i < cs.len()
        invariant
            cs@ == t@,
            i <= cs@.len(),
            forall|j: int| 0 <= j < i ==> '0' <= #[trigger] t@[j] <= '9',
        decreases cs@.len() - i,
    {
        if !('0' <= cs[i] && cs[i] <= '9') {
            return false;
        }
        i = i + 1;
    }
    true
}

/// Whether a token list gives numeral context: some token of one to four
/// characters is all decimal digits or a roman numeral between i and xx.
pub fn should_map_roman(tokens: &Vec<String>) -> (r: bool)
    ensures
        r == numeral_context(toks(tokens@)),
{
    let mut i: usize = 0;
    while i < tokens.len()
        invariant
            i <= tokens@.len(),
            forall|j: int| 0 <= j < i ==> !numeral_like(#[trigger] toks(tokens@)[j]),
        decreases tokens@.len() - i,
    {
        let t = &tokens[i];
        let n = t.as_str().unicode_len();
        assert(toks(tokens@)[i as int] == t@);
        if 1 <= n && n <= 4 {
            if is_digits(t) {
                return true;
            }
            if roman_index(t).is_some() {
                return true;
            }
        }
        i = i + 1;
    }
    false
}

/// Roman numeral tokens read as decimal numerals, when some token gives
/// numeral context; otherwise the tokens unchanged.
pub fn map_roman_tokens(tokens: &Vec<String>) -> (r: Vec<String>)
    ensures
        toks(r@) == if numeral_context(toks(tokens@)) {
            toks(tokens@).map_values(|t: Seq<char>| map_numeral(t))
        } else {
            toks(tokens@)
        },
        r@.len() == tokens@.len(),
{
    if !should_map_roman(tokens) {
        return tokens.clone();
    }
    let ghost ts = toks(tokens@);
    let mut out: Vec<String> = Vec::new();
    let mut i: usize = 0;
    while i < tokens.len()
        invariant
            ts == toks(tokens@),
            i <= tokens@.len(),
            out@.len() == i,
            forall|j: int| 0 <= j < i ==> #[trigger] out@[j]@ == map_numeral(ts[j]),
        decreases tokens@.len() - i,
    {
        let t = &tokens[i];
        assert(ts[i as int] == t@);
        match roman_index(t) {
            Some(k) => out.push(String::from_str(arabic_numeral(k))),
            None => out.push(t.clone()),
        }
        i = i + 1;
    }
    assert(toks(out@) =~= ts.map_values(|t: Seq<char>| map_numeral(t)));
    out
}

/// The token sequence of a text; see `normalized`.
pub fn normalize_v2(text: &str) -> (r: Vec<String>)
    ensures
        toks(r@) == normalized(text@),
        text@.len() == 0 ==> r@.len() == 0,
{
    let composed = compose(text);
    let lower = crate::text::lowercase(composed.as_str());
    let tokens = split_alnum(lower.as_str());
    assert(toks(tokens@).len() == tokens@.len());
    map_roman_tokens(&tokens)
}

} // verus!
