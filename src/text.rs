//! Character-level helpers and the calls into Unicode-aware code.

use unicode_normalization::UnicodeNormalization;
use vstd::prelude::*;
use vstd::string::StrSliceExecFns;

verus! {

/// Fixed-point unit: a score of `SCALE` means 1.0.
pub const SCALE: u64 = 1_000_000_000;

/// The fixed-point value of `num / den`, rounded down.
pub open spec fn frac(num: int, den: int) -> int {
    num * SCALE / den
}

pub proof fn lemma_frac_bounds(num: int, den: int)
    requires
        0 < den,
        0 <= num <= den,
    ensures
        0 <= frac(num, den) <= SCALE,
        num == den ==> frac(num, den) == SCALE,
{
    assert(num * SCALE <= den * SCALE) by (nonlinear_arith)
        requires num <= den;
    assert(0 <= num * SCALE) by (nonlinear_arith)
        requires 0 <= num;
    assert(den * SCALE == SCALE * den) by (nonlinear_arith);
    vstd::arithmetic::div_mod::lemma_div_is_ordered(num * SCALE, den * SCALE, den);
    vstd::arithmetic::div_mod::lemma_div_multiples_vanish(SCALE as int, den);
    vstd::arithmetic::div_mod::lemma_div_pos_is_pos(num * SCALE, den);
}

/// `num / den` in fixed point, rounded down.
pub(crate) fn ratio(num: u128, den: u128) -> (r: u64)
    requires
        0 < den,
        num <= den,
        den <= u64::MAX as u128 * 4,
    ensures
        r == frac(num as int, den as int),
        r <= SCALE,
{
    proof {
        lemma_frac_bounds(num as int, den as int);
    }
    ((num * (SCALE as u128)) / den) as u64
}

/// Canonical composition (Unicode NFC) of a character sequence.
pub uninterp spec fn nfc_of(s: Seq<char>) -> Seq<char>;

/// Lower-case mapping of a character sequence, as std's `str::to_lowercase`.
pub uninterp spec fn lower_of(s: Seq<char>) -> Seq<char>;

/// Whether a character is alphabetic or numeric, as std's `char::is_alphanumeric`.
pub uninterp spec fn alnum_of(c: char) -> bool;

/// Relies on unicode_normalization's `UnicodeNormalization::nfc`: the
/// canonical composition of the input, collected into a string.
#[verifier::external_body]
pub(crate) fn compose(s: &str) -> (r: String)
    ensures
        r@ == nfc_of(s@),
        s@.len() == 0 ==> r@.len() == 0,
{
    s.nfc().collect::<String>()
}

/// Relies on std's `str::to_lowercase`.
#[verifier::external_body]
pub(crate) fn lowercase(s: &str) -> (r: String)
    ensures
        r@ == lower_of(s@),
        s@.len() == 0 ==> r@.len() == 0,
{
    s.to_lowercase()
}

/// Relies on std's `char::is_alphanumeric`.
#[verifier::external_body]
pub(crate) fn is_alnum(c: char) -> (r: bool)
    ensures
        r == alnum_of(c),
{
    c.is_alphanumeric()
}

/// std's `String::push` appends one character.
pub assume_specification[ String::push ](s: &mut String, ch: char)
    ensures
        final(s)@ == old(s)@.push(ch),
;

/// The characters of a string, in order.
pub(crate) fn chars_of(s: &str) -> (r: Vec<char>)
    ensures
        r@ == s@,
{
    let n = s.unicode_len();
    let mut r: Vec<char> = Vec::new();
    let mut i: usize = 0;
    while i < n
        invariant
            n == s@.len(),
            i <= n,
            r@ == s@.subrange(0, i as int),
        decreases n - i,
    {
        r.push(s.get_char(i));
        i = i + 1;
    }
    assert(r@ =~= s@);
    r
}

/// Whether two strings hold the same characters.
pub(crate) fn same_text(a: &str, b: &str) -> (r: bool)
    ensures
        r == (a@ == b@),
{
    let n = a.unicode_len();
    if n != b.unicode_len() {
        return false;
    }
    let mut i: usize = 0;
    while i < n
        invariant
            n == a@.len(),
            n == b@.len(),
            i <= n,
            a@.subrange(0, i as int) =~= b@.subrange(0, i as int),
        decreases n - i,
    {
        if a.get_char(i) != b.get_char(i) {
            return false;
        }
        assert(a@.subrange(0, i + 1) =~= a@.subrange(0, i as int).push(a@[i as int]));
        assert(b@.subrange(0, i + 1) =~= b@.subrange(0, i as int).push(b@[i as int]));
        i = i + 1;
    }
    assert(a@ =~= a@.subrange(0, n as int));
    assert(b@ =~= b@.subrange(0, n as int));
    true
}

} // verus!
