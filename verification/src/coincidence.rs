//! Index of Coincidence: the probability that two randomly chosen letters
//! of a text are equal, the statistic used to fingerprint monoalphabetic
//! structure.
//!
//! The index is kept as an exact rational `num / den`: `num` is
//! `sum f * (f - 1)` over the per-letter counts `f` (case-folded, ASCII
//! letters only) and `den` is `n * (n - 1)` for the letter total `n`.
//! A text with fewer than two letters gets the exact value zero, written
//! `0 / 1`.  Threshold tests compare the rational against fixed bounds by
//! cross-multiplication, carried out exactly in split 64-bit limbs so that
//! no input length can overflow them.

use vstd::arithmetic::div_mod::*;
use vstd::arithmetic::mul::*;
use vstd::prelude::*;

use crate::text::ascii_letter;
use crate::text::letter_idx;
use crate::text::chars_vec;

verus! {

/// Exact value of the Index of Coincidence, as the rational `num / den`.
/// `den` is never zero.
#[derive(Clone, Copy, Debug, PartialEq, Eq, Structural)]
pub struct IcRatio {
    pub num: u128,
    pub den: u128,
}

/// How many characters of `s` are the letter with case-folded index `k`.
pub open spec fn cnt_idx(s: Seq<char>, k: int) -> nat
    decreases s.len(),
{
    if s.len() == 0 {
        0
    } else {
        cnt_idx(s.drop_last(), k) + (if letter_idx(s.last()) == k {
            1nat
        } else {
            0nat
        })
    }
}

/// Sum of the letter counts with index below `k`.
pub open spec fn letters_upto(s: Seq<char>, k: int) -> int
    decreases k,
{
    if k <= 0 {
        0
    } else {
        letters_upto(s, k - 1) + cnt_idx(s, k - 1)
    }
}

/// How many ASCII letters `s` holds, of either case.
pub open spec fn letter_total(s: Seq<char>) -> int {
    letters_upto(s, 26)
}

/// Sum of `f * (f - 1)` over the letter counts with index below `k`.
pub open spec fn pair_sum_upto(s: Seq<char>, k: int) -> int
    decreases k,
{
    if k <= 0 {
        0
    } else {
        pair_sum_upto(s, k - 1) + cnt_idx(s, k - 1) * (cnt_idx(s, k - 1) - 1)
    }
}

/// Numerator of the Index of Coincidence of `s`.
pub open spec fn ic_numerator(s: Seq<char>) -> int {
    if letter_total(s) <= 1 {
        0
    } else {
        pair_sum_upto(s, 26)
    }
}

/// Denominator of the Index of Coincidence of `s`; always at least 1.
pub open spec fn ic_denominator(s: Seq<char>) -> int {
    if letter_total(s) <= 1 {
        1
    } else {
        letter_total(s) * (letter_total(s) - 1)
    }
}

/// The index lies strictly between 0.06 and 0.08, the band typical of
/// natural English letter frequencies.
pub open spec fn likely_english_spec(s: Seq<char>) -> bool {
    &&& 6 * ic_denominator(s) < 100 * ic_numerator(s)
    &&& 100 * ic_numerator(s) < 8 * ic_denominator(s)
}

/// The index is strictly below 0.045, typical of uniformly random letters.
pub open spec fn likely_random_spec(s: Seq<char>) -> bool {
    200 * ic_numerator(s) < 9 * ic_denominator(s)
}

/// The index lies strictly between 0.055 and 0.075: letter-like but not
/// clearly natural, the band read as a generic substitution cipher.
pub open spec fn substitution_band_spec(s: Seq<char>) -> bool {
    &&& 11 * ic_denominator(s) < 200 * ic_numerator(s)
    &&& 40 * ic_numerator(s) < 3 * ic_denominator(s)
}

/// 2^64, the base in which wide products are split.
pub const LIMB: u128 = 0x1_0000_0000_0000_0000;

fn split_scaled(a: u128, x: u128) -> (r: (u128, u128))
    requires
        a <= 10000,
    ensures
        r.0 * LIMB + r.1 == a * x,
        r.1 < LIMB,
{
    let xh: u128 = x / LIMB;
    let xl: u128 = x % LIMB;
    proof {
        lemma_fundamental_div_mod(x as int, LIMB as int);
        assert(a * xl <= 10000 * LIMB) by (nonlinear_arith)
            requires
                a <= 10000,
                0 <= xl <= LIMB,
        ;
        assert(a * xh <= 10000 * LIMB) by (nonlinear_arith)
            requires
                a <= 10000,
                0 <= xh <= LIMB,
        ;
    }
    let p: u128 = a * xl;
    let ph: u128 = p / LIMB;
    let pl: u128 = p % LIMB;
    proof {
        lemma_fundamental_div_mod(p as int, LIMB as int);
        assert(ph <= p) by {
            lemma_div_is_ordered_by_denominator(p as int, 1, LIMB as int);
            lemma_div_by_multiple(p as int, 1);
        }
    }
    let hi: u128 = a * xh + ph;
    proof {
        assert((a * xh + ph) * LIMB + pl == a * x) by (nonlinear_arith)
            requires
                x == LIMB * xh + xl,
                p == a * xl,
                p == LIMB * ph + pl,
        ;
    }
    (hi, pl)
}

proof fn lemma_limb_cmp(h1: int, l1: int, h2: int, l2: int)
    requires
        0 <= l1 < LIMB,
        0 <= l2 < LIMB,
        0 <= h1,
        0 <= h2,
    ensures
        (h1 * LIMB + l1 < h2 * LIMB + l2) <==> (h1 < h2 || (h1 == h2 && l1 < l2)),
{
    if h1 < h2 {
        assert(h1 * LIMB + l1 < h2 * LIMB + l2) by (nonlinear_arith)
            requires
                h1 < h2,
                0 <= l1 < LIMB,
                0 <= l2,
        ;
    } else if h2 < h1 {
        assert(h2 * LIMB + l2 < h1 * LIMB + l1) by (nonlinear_arith)
            requires
                h2 < h1,
                0 <= l2 < LIMB,
                0 <= l1,
        ;
    }
}

/// Exact test of `a * x < b * y` for small scale factors and wide values.
fn lt_scaled(a: u128, x: u128, b: u128, y: u128) -> (r: bool)
    requires
        a <= 10000,
        b <= 10000,
    ensures
        r == (a * x < b * y),
{
    let (h1, l1) = split_scaled(a, x);
    let (h2, l2) = split_scaled(b, y);
    proof {
        lemma_limb_cmp(h1 as int, l1 as int, h2 as int, l2 as int);
    }
    h1 < h2 || (h1 == h2 && l1 < l2)
}

proof fn lemma_cnt_push(s: Seq<char>, c: char, k: int)
    ensures
        cnt_idx(s.push(c), k) == cnt_idx(s, k) + (if letter_idx(c) == k {
            1int
        } else {
            0int
        }),
{
    assert(s.push(c).drop_last() =~= s);
    assert(s.push(c).last() == c);
}

proof fn lemma_letters_upto_push(s: Seq<char>, c: char, k: int)
    ensures
        letters_upto(s.push(c), k) == letters_upto(s, k) + (if 0 <= letter_idx(c) < k {
            1int
        } else {
            0int
        }),
    decreases k,
{
    if k > 0 {
        lemma_letters_upto_push(s, c, k - 1);
        lemma_cnt_push(s, c, k - 1);
    }
}

proof fn lemma_letters_upto_mono(s: Seq<char>, j: int, k: int)
    requires
        0 <= j <= k,
    ensures
        letters_upto(s, j) <= letters_upto(s, k),
    decreases k,
{
    if j < k {
        lemma_letters_upto_mono(s, j, k - 1);
    }
}

proof fn lemma_cnt_nonneg(s: Seq<char>, k: int)
    ensures
        letters_upto(s, k) >= 0,
    decreases k,
{
    if k > 0 {
        lemma_cnt_nonneg(s, k - 1);
    }
}

/// The letter total never exceeds the length of the text.
pub proof fn lemma_letter_total_le_len(s: Seq<char>)
    ensures
        0 <= letter_total(s) <= s.len(),
    decreases s.len(),
{
    lemma_cnt_nonneg(s, 26);
    if s.len() == 0 {
        lemma_letters_upto_zero(s, 26);
    } else {
        let p = s.drop_last();
        lemma_letter_total_le_len(p);
        assert(p.push(s.last()) =~= s);
        lemma_letters_upto_push(p, s.last(), 26);
    }
}

proof fn lemma_letters_upto_zero(s: Seq<char>, k: int)
    requires
        s.len() == 0,
    ensures
        letters_upto(s, k) == 0,
    decreases k,
{
    if k > 0 {
        lemma_letters_upto_zero(s, k - 1);
    }
}

/// Computes the Index of Coincidence and its threshold classifications.
pub struct CoincidenceIndex;

pub(crate) fn ic_of_chars(t: &Vec<char>) -> (r: IcRatio)
    ensures
        r.num == ic_numerator(t@),
        r.den == ic_denominator(t@),
{
    let len: usize = t.len();
    let mut counts: Vec<usize> = vec![0usize; 26];
    let mut total: usize = 0;
    let mut i: usize = 0;
    proof {
        lemma_letters_upto_zero(t@.take(0), 26);
    }
    while i < len
        invariant
            len == t@.len(),
            i <= len,
            counts@.len() == 26,
            forall|k: int| 0 <= k < 26 ==> counts@[k] == cnt_idx(t@.take(i as int), k),
            total == letter_total(t@.take(i as int)),
            total <= i,
            forall|k: int| 0 <= k < 26 ==> counts@[k] <= total,
        decreases len - i,
    {
        let c: char = t[i];
        let u: u32 = c as u32;
        proof {
            assert(t@.take(i as int).push(c) =~= t@.take(i + 1));
            lemma_letters_upto_push(t@.take(i as int), c, 26);
            assert forall|k: int| 0 <= k < 26 implies cnt_idx(t@.take(i + 1), k) == cnt_idx(
                t@.take(i as int),
                k,
            ) + (if letter_idx(c) == k {
                1int
            } else {
                0int
            }) by {
                lemma_cnt_push(t@.take(i as int), c, k);
            }
        }
        if 65 <= u && u <= 90 {
            let idx: usize = (u - 65) as usize;
            let f: usize = counts[idx];
            counts[idx] = f + 1;
            total = total + 1;
        } else if 97 <= u && u <= 122 {
            let idx: usize = (u - 97) as usize;
            let f: usize = counts[idx];
            counts[idx] = f + 1;
            total = total + 1;
        }
        i = i + 1;
    }
    proof {
        assert(t@.take(len as int) =~= t@);
    }
    if total <= 1 {
        return IcRatio { num: 0, den: 1 };
    }
    let n: usize = total;
    let mut sum: u128 = 0;
    let mut seen: usize = 0;
    let mut k: usize = 0;
    while k < 26
        invariant
            k <= 26,
            counts@.len() == 26,
            forall|j: int| 0 <= j < 26 ==> counts@[j] == cnt_idx(t@, j),
            n == letter_total(t@),
            2 <= n <= usize::MAX,
            seen == letters_upto(t@, k as int),
            0 <= seen <= n,
            sum == pair_sum_upto(t@, k as int),
            sum <= seen * (seen - 1),
        decreases 26 - k,
    {
        let f: usize = counts[k];
        proof {
            lemma_letters_upto_mono(t@, k + 1, 26);
            lemma_cnt_nonneg(t@, k as int);
            assert(seen + f == letters_upto(t@, k + 1));
            assert(seen + f <= n);
            assert(sum + f * (f - 1) <= (seen + f) * ((seen + f) - 1)) by (nonlinear_arith)
                requires
                    sum <= seen * (seen - 1),
                    0 <= seen,
                    0 <= f,
                    0 <= sum,
            ;
            assert((seen + f) * ((seen + f) - 1) <= n * (n - 1)) by (nonlinear_arith)
                requires
                    0 <= seen + f <= n,
                    2 <= n,
            ;
            assert(n * (n - 1) < LIMB * LIMB) by (nonlinear_arith)
                requires
                    0 <= n < LIMB,
            ;
        }
        if f > 0 {
            let fw: u128 = f as u128;
            sum = sum + fw * (fw - 1);
        }
        seen = seen + f;
        k = k + 1;
    }
    proof {
        assert(n * (n - 1) < LIMB * LIMB) by (nonlinear_arith)
            requires
                0 <= n < LIMB,
        ;
    }
    let n128: u128 = n as u128;
    IcRatio { num: sum, den: n128 * (n128 - 1) }
}

impl CoincidenceIndex {
    /// Exact Index of Coincidence of the text, as a rational.  Zero (as
    /// `0 / 1`) when the text holds fewer than two ASCII letters, which
    /// also covers texts with no alphabetic content at all.
    pub fn calculate(text: &str) -> (r: IcRatio)
        ensures
            r.num == ic_numerator(text@),
            r.den == ic_denominator(text@),
    {
        let v = chars_vec(text);
        ic_of_chars(&v)
    }

    /// Whether the IC of the text lies strictly between 0.06 and 0.08,
    /// the band typical of natural English.
    pub fn is_likely_english(text: &str) -> (r: bool)
        ensures
            r == likely_english_spec(text@),
    {
        let ic = Self::calculate(text);
        let lo = lt_scaled(6, ic.den, 100, ic.num);
        let hi = lt_scaled(100, ic.num, 8, ic.den);
        lo && hi
    }

    /// Whether the IC of the text is strictly below 0.045, as flat letter
    /// distributions (random text, many polyalphabetic ciphers) are.
    pub fn is_likely_random(text: &str) -> (r: bool)
        ensures
            r == likely_random_spec(text@),
    {
        let ic = Self::calculate(text);
        lt_scaled(200, ic.num, 9, ic.den)
    }
}

/// Whether a precomputed index lies in the English band (0.06, 0.08).
pub(crate) fn likely_english_of(ic: IcRatio, Ghost(s): Ghost<Seq<char>>) -> (r: bool)
    requires
        ic.num == ic_numerator(s),
        ic.den == ic_denominator(s),
    ensures
        r == likely_english_spec(s),
{
    let lo = lt_scaled(6, ic.den, 100, ic.num);
    let hi = lt_scaled(100, ic.num, 8, ic.den);
    lo && hi
}

/// Whether a precomputed index lies in the substitution band (0.055, 0.075).
pub(crate) fn in_substitution_band(ic: IcRatio, Ghost(s): Ghost<Seq<char>>) -> (r: bool)
    requires
        ic.num == ic_numerator(s),
        ic.den == ic_denominator(s),
    ensures
        r == substitution_band_spec(s),
{
    let lo = lt_scaled(11, ic.den, 200, ic.num);
    let hi = lt_scaled(40, ic.num, 3, ic.den);
    lo && hi
}

/// A text with at most one character has an Index of Coincidence of
/// exactly zero, kept as the rational `0 / 1`.
pub proof fn lemma_ic_short(s: Seq<char>)
    requires
        s.len() <= 1,
    ensures
        ic_numerator(s) == 0,
        ic_denominator(s) == 1,
{
    lemma_letter_total_le_len(s);
}

proof fn lemma_cnt_agree(s: Seq<char>, t: Seq<char>, k: int)
    requires
        s.len() == t.len(),
        forall|i: int| 0 <= i < s.len() ==> letter_idx(s[i]) == letter_idx(t[i]),
    ensures
        cnt_idx(s, k) == cnt_idx(t, k),
    decreases s.len(),
{
    if s.len() > 0 {
        lemma_cnt_agree(s.drop_last(), t.drop_last(), k);
    }
}

proof fn lemma_upto_agree(s: Seq<char>, t: Seq<char>, k: int)
    requires
        s.len() == t.len(),
        forall|i: int| 0 <= i < s.len() ==> letter_idx(s[i]) == letter_idx(t[i]),
    ensures
        letters_upto(s, k) == letters_upto(t, k),
        pair_sum_upto(s, k) == pair_sum_upto(t, k),
    decreases k,
{
    if k > 0 {
        lemma_upto_agree(s, t, k - 1);
        lemma_cnt_agree(s, t, k - 1);
    }
}

/// The Index of Coincidence is blind to letter case: two texts whose
/// characters fold to the same letters position by position (for instance a
/// text and its uppercased form) have the same index.
pub proof fn lemma_ic_case_blind(s: Seq<char>, t: Seq<char>)
    requires
        s.len() == t.len(),
        forall|i: int| 0 <= i < s.len() ==> letter_idx(s[i]) == letter_idx(t[i]),
    ensures
        ic_numerator(s) == ic_numerator(t),
        ic_denominator(s) == ic_denominator(t),
{
    lemma_upto_agree(s, t, 26);
}

/// The subsequence of ASCII letters of `s`, in order.
pub open spec fn letters_of(s: Seq<char>) -> Seq<char>
    decreases s.len(),
{
    if s.len() == 0 {
        s
    } else if ascii_letter(s.last()) {
        letters_of(s.drop_last()).push(s.last())
    } else {
        letters_of(s.drop_last())
    }
}

proof fn lemma_cnt_letters_of(s: Seq<char>, k: int)
    requires
        0 <= k,
    ensures
        cnt_idx(letters_of(s), k) == cnt_idx(s, k),
    decreases s.len(),
{
    if s.len() > 0 {
        lemma_cnt_letters_of(s.drop_last(), k);
        if ascii_letter(s.last()) {
            lemma_cnt_push(letters_of(s.drop_last()), s.last(), k);
        }
    }
}

proof fn lemma_upto_letters_of(s: Seq<char>, k: int)
    requires
        0 <= k,
    ensures
        letters_upto(letters_of(s), k) == letters_upto(s, k),
        pair_sum_upto(letters_of(s), k) == pair_sum_upto(s, k),
    decreases k,
{
    if k > 0 {
        lemma_upto_letters_of(s, k - 1);
        lemma_cnt_letters_of(s, k - 1);
    }
}

/// The Index of Coincidence ignores non-letter characters entirely: a text
/// and the subsequence of its ASCII letters have the same index.
pub proof fn lemma_ic_ignores_nonletters(s: Seq<char>)
    ensures
        ic_numerator(letters_of(s)) == ic_numerator(s),
        ic_denominator(letters_of(s)) == ic_denominator(s),
{
    lemma_upto_letters_of(s, 26);
}

} // verus!
