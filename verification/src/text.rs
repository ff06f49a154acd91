//! Character classes, whitespace trimming, and decimal rendering.
//!
//! Everything the detectors know about a piece of text they learn through
//! the predicates and helpers here.  ASCII classes are defined outright;
//! the two Unicode properties the engine needs (`Alphabetic`, `White_Space`)
//! are taken from the standard library under named specifications.

use vstd::prelude::*;

verus! {

/// ASCII decimal digit.
pub open spec fn digit_char(c: char) -> bool {
    48 <= c as u32 <= 57
}

/// ASCII hexadecimal digit, either case.
pub open spec fn hex_char(c: char) -> bool {
    ||| digit_char(c)
    ||| 65 <= c as u32 <= 70
    ||| 97 <= c as u32 <= 102
}

/// ASCII letter, either case.
pub open spec fn ascii_letter(c: char) -> bool {
    ||| 65 <= c as u32 <= 90
    ||| 97 <= c as u32 <= 122
}

/// ASCII letter or decimal digit.
pub open spec fn ascii_alphanumeric(c: char) -> bool {
    ascii_letter(c) || digit_char(c)
}

/// Member of the Base64 alphabet, including the `=` padding character.
pub open spec fn base64_char(c: char) -> bool {
    ascii_alphanumeric(c) || c == '+' || c == '/' || c == '='
}

/// Character allowed in a binary dump: a bit or a space.
pub open spec fn binary_char(c: char) -> bool {
    c == '0' || c == '1' || c == ' '
}

/// Character allowed in Morse code: dot, dash, space, word separator.
pub open spec fn morse_char(c: char) -> bool {
    c == '.' || c == '-' || c == ' ' || c == '/'
}

/// Every character of `s` satisfies `pred`.
pub open spec fn all_chars_are(s: Seq<char>, pred: spec_fn(char) -> bool) -> bool {
    forall|i: int| 0 <= i < s.len() ==> pred(#[trigger] s[i])
}

/// Index of an ASCII letter in the case-folded alphabet (`A` and `a` both
/// map to 0), or -1 for every other character.
pub open spec fn letter_idx(c: char) -> int {
    if 65 <= c as u32 <= 90 {
        c as u32 - 65
    } else if 97 <= c as u32 <= 122 {
        c as u32 - 97
    } else {
        -1
    }
}

/// Whether a character beyond ASCII has the Unicode `Alphabetic` property;
/// the part of `char::is_alphabetic` that only its tables can answer.
pub uninterp spec fn unicode_alphabetic(c: char) -> bool;

/// Whether a character beyond ASCII has the Unicode `White_Space` property;
/// the part of `char::is_whitespace` that only its tables can answer.
pub uninterp spec fn unicode_whitespace(c: char) -> bool;

/// Whether `c` has the Unicode `Alphabetic` property; what
/// `char::is_alphabetic` decides.  Within ASCII the property holds exactly
/// of the letters.
pub open spec fn alphabetic_char(c: char) -> bool {
    if c as u32 <= 127 {
        ascii_letter(c)
    } else {
        unicode_alphabetic(c)
    }
}

/// Whether `c` has the Unicode `White_Space` property; what
/// `char::is_whitespace` decides.  Within ASCII the property holds exactly
/// of the space and the five controls from tab to carriage return.
pub open spec fn whitespace_char(c: char) -> bool {
    if c as u32 <= 127 {
        c as u32 == 32 || (9 <= c as u32 && c as u32 <= 13)
    } else {
        unicode_whitespace(c)
    }
}

/// Relies on `char::is_alphabetic`: true exactly for characters with the
/// Unicode `Alphabetic` property, which within ASCII are the letters.
pub assume_specification[ char::is_alphabetic ](c: char) -> (r: bool)
    ensures
        r == alphabetic_char(c),
        c as u32 > 127 ==> r == unicode_alphabetic(c),
;

/// Relies on `char::is_whitespace`: true exactly for characters with the
/// Unicode `White_Space` property, which within ASCII are the space and the
/// five controls from tab to carriage return.
pub assume_specification[ char::is_whitespace ](c: char) -> (r: bool)
    ensures
        r == whitespace_char(c),
        c as u32 > 127 ==> r == unicode_whitespace(c),
;

pub fn is_hex_char(c: char) -> (r: bool)
    ensures
        r == hex_char(c),
{
    let u: u32 = c as u32;
    (48 <= u && u <= 57) || (65 <= u && u <= 70) || (97 <= u && u <= 102)
}

pub fn is_base64_char(c: char) -> (r: bool)
    ensures
        r == base64_char(c),
{
    let u: u32 = c as u32;
    (48 <= u && u <= 57) || (65 <= u && u <= 90) || (97 <= u && u <= 122) || c == '+' || c == '/'
        || c == '='
}

pub fn is_binary_char(c: char) -> (r: bool)
    ensures
        r == binary_char(c),
{
    c == '0' || c == '1' || c == ' '
}

pub fn is_morse_char(c: char) -> (r: bool)
    ensures
        r == morse_char(c),
{
    c == '.' || c == '-' || c == ' ' || c == '/'
}

/// The text with leading whitespace removed.
pub open spec fn trim_front(s: Seq<char>) -> Seq<char>
    decreases s.len(),
{
    if s.len() > 0 && whitespace_char(s[0]) {
        trim_front(s.subrange(1, s.len() as int))
    } else {
        s
    }
}

/// The text with trailing whitespace removed.
pub open spec fn trim_back(s: Seq<char>) -> Seq<char>
    decreases s.len(),
{
    if s.len() > 0 && whitespace_char(s[s.len() - 1]) {
        trim_back(s.subrange(0, s.len() - 1))
    } else {
        s
    }
}

/// The text with whitespace removed from both ends; what the detectors
/// classify.
pub open spec fn trim_spec(s: Seq<char>) -> Seq<char> {
    trim_back(trim_front(s))
}

/// A text that neither starts nor ends with whitespace trims to itself.
pub proof fn lemma_trim_of_untrimmed(s: Seq<char>)
    requires
        s.len() > 0 ==> !whitespace_char(s[0]),
        s.len() > 0 ==> !whitespace_char(s[s.len() - 1]),
    ensures
        trim_spec(s) == s,
{
}

proof fn lemma_trim_front_chop(s: Seq<char>, k: int)
    requires
        0 <= k <= s.len(),
        forall|i: int| 0 <= i < k ==> whitespace_char(s[i]),
        k == s.len() || !whitespace_char(s[k]),
    ensures
        trim_front(s) == s.subrange(k, s.len() as int),
    decreases k,
{
    if k == 0 {
        assert(s.subrange(0, s.len() as int) =~= s);
    } else {
        let t = s.subrange(1, s.len() as int);
        lemma_trim_front_chop(t, k - 1);
        assert(t.subrange(k - 1, t.len() as int) =~= s.subrange(k, s.len() as int));
    }
}

proof fn lemma_trim_back_chop(s: Seq<char>, k: int)
    requires
        0 <= k <= s.len(),
        forall|i: int| k <= i < s.len() ==> whitespace_char(s[i]),
        k == 0 || !whitespace_char(s[k - 1]),
    ensures
        trim_back(s) == s.subrange(0, k),
    decreases s.len() - k,
{
    if k == s.len() {
        if s.len() == 0 || !whitespace_char(s[s.len() - 1]) {
            assert(s.subrange(0, s.len() as int) =~= s);
        } else {
            let t = s.subrange(0, s.len() - 1);
            lemma_trim_back_chop(t, k - 1);
            assert(t.subrange(0, k - 1) =~= s.subrange(0, k - 1));
            assert(k - 1 == t.len());
            assert(t.subrange(0, t.len() as int) =~= t);
            assert(false);
        }
    } else {
        let t = s.subrange(0, s.len() - 1);
        lemma_trim_back_chop(t, k);
        assert(t.subrange(0, k) =~= s.subrange(0, k));
    }
}

/// All characters of the text, in order.
pub fn chars_vec(text: &str) -> (r: Vec<char>)
    ensures
        r@ == text@,
{
    let n: usize = text.unicode_len();
    let mut r: Vec<char> = Vec::new();
    let mut i: usize = 0;
    while i < n
        invariant
            n == text@.len(),
            i <= n,
            r@ == text@.subrange(0, i as int),
        decreases n - i,
    {
        r.push(text.get_char(i));
        i = i + 1;
        proof {
            assert(r@ =~= text@.subrange(0, i as int));
        }
    }
    proof {
        assert(text@.subrange(0, n as int) =~= text@);
    }
    r
}

/// The characters of the text with whitespace stripped from both ends.
pub fn trimmed_chars(text: &str) -> (r: Vec<char>)
    ensures
        r@ == trim_spec(text@),
{
    let n: usize = text.unicode_len();
    let mut lo: usize = 0;
    while lo < n && text.get_char(lo).is_whitespace()
        invariant
            n == text@.len(),
            lo <= n,
            forall|i: int| 0 <= i < lo ==> whitespace_char(text@[i]),
        decreases n - lo,
    {
        lo = lo + 1;
    }
    let mut hi: usize = n;
    while hi > lo && text.get_char(hi - 1).is_whitespace()
        invariant
            n == text@.len(),
            lo <= hi <= n,
            forall|i: int| 0 <= i < lo ==> whitespace_char(text@[i]),
            forall|i: int| hi <= i < n ==> whitespace_char(text@[i]),
        decreases hi,
    {
        hi = hi - 1;
    }
    let mut r: Vec<char> = Vec::new();
    let mut i: usize = lo;
    while i < hi
        invariant
            n == text@.len(),
            lo <= i <= hi <= n,
            r@ == text@.subrange(lo as int, i as int),
        decreases hi - i,
    {
        r.push(text.get_char(i));
        i = i + 1;
        proof {
            assert(r@ =~= text@.subrange(lo as int, i as int));
        }
    }
    proof {
        let s = text@;
        lemma_trim_front_chop(s, lo as int);
        let t = s.subrange(lo as int, n as int);
        lemma_trim_back_chop(t, hi - lo);
        assert(t.subrange(0, hi - lo) =~= s.subrange(lo as int, hi as int));
    }
    r
}

/// Decimal digit as a character.
pub open spec fn dec_digit(d: int) -> char {
    if d == 0 {
        '0'
    } else if d == 1 {
        '1'
    } else if d == 2 {
        '2'
    } else if d == 3 {
        '3'
    } else if d == 4 {
        '4'
    } else if d == 5 {
        '5'
    } else if d == 6 {
        '6'
    } else if d == 7 {
        '7'
    } else if d == 8 {
        '8'
    } else {
        '9'
    }
}

/// Usual decimal rendering of a number, most significant digit first,
/// without leading zeros.
pub open spec fn dec_str(n: nat) -> Seq<char>
    decreases n,
{
    if n < 10 {
        seq![dec_digit(n as int)]
    } else {
        dec_str(n / 10) + seq![dec_digit((n % 10) as int)]
    }
}

fn push_digit(s: &mut String, d: u128)
    requires
        d < 10,
    ensures
        final(s)@ == old(s)@ + seq![dec_digit(d as int)],
{
    if d == 0 {
        proof {
            reveal_strlit("0");
        }
        s.append("0");
        proof {
            assert(s@ =~= old(s)@ + seq![dec_digit(d as int)]);
        }
    } else if d == 1 {
        proof {
            reveal_strlit("1");
        }
        s.append("1");
        proof {
            assert(s@ =~= old(s)@ + seq![dec_digit(d as int)]);
        }
    } else if d == 2 {
        proof {
            reveal_strlit("2");
        }
        s.append("2");
        proof {
            assert(s@ =~= old(s)@ + seq![dec_digit(d as int)]);
        }
    } else if d == 3 {
        proof {
            reveal_strlit("3");
        }
        s.append("3");
        proof {
            assert(s@ =~= old(s)@ + seq![dec_digit(d as int)]);
        }
    } else if d == 4 {
        proof {
            reveal_strlit("4");
        }
        s.append("4");
        proof {
            assert(s@ =~= old(s)@ + seq![dec_digit(d as int)]);
        }
    } else if d == 5 {
        proof {
            reveal_strlit("5");
        }
        s.append("5");
        proof {
            assert(s@ =~= old(s)@ + seq![dec_digit(d as int)]);
        }
    } else if d == 6 {
        proof {
            reveal_strlit("6");
        }
        s.append("6");
        proof {
            assert(s@ =~= old(s)@ + seq![dec_digit(d as int)]);
        }
    } else if d == 7 {
        proof {
            reveal_strlit("7");
        }
        s.append("7");
        proof {
            assert(s@ =~= old(s)@ + seq![dec_digit(d as int)]);
        }
    } else if d == 8 {
        proof {
            reveal_strlit("8");
        }
        s.append("8");
        proof {
            assert(s@ =~= old(s)@ + seq![dec_digit(d as int)]);
        }
    } else {
        proof {
            reveal_strlit("9");
        }
        s.append("9");
        proof {
            assert(s@ =~= old(s)@ + seq![dec_digit(d as int)]);
        }
    }
}

fn push_decimal(s: &mut String, n: u128)
    ensures
        final(s)@ == old(s)@ + dec_str(n as nat),
    decreases n,
{
    if n < 10 {
        push_digit(s, n);
    } else {
        proof {
            vstd::arithmetic::div_mod::lemma_div_is_ordered_by_denominator(n as int, 1, 10);
            vstd::arithmetic::div_mod::lemma_div_by_multiple(n as int, 1);
        }
        push_decimal(s, n / 10);
        push_digit(s, n % 10);
        proof {
            assert(s@ =~= old(s)@ + dec_str(n as nat));
        }
    }
}

/// Decimal rendering of a number as an owned string.
pub fn decimal_string(n: u128) -> (r: String)
    ensures
        r@ == dec_str(n as nat),
{
    let mut r: String = String::new();
    push_decimal(&mut r, n);
    proof {
        assert(Seq::<char>::empty() + dec_str(n as nat) =~= dec_str(n as nat));
    }
    r
}

} // verus!
