//! Structural signatures: cheap, unambiguous predicate checks on length,
//! character set and padding, and the map from hex-digest length to the
//! hash algorithms of that size.

use vstd::prelude::*;

use crate::text::all_chars_are;
use crate::text::base64_char;
use crate::text::binary_char;
use crate::text::chars_vec;
use crate::text::hex_char;
use crate::text::is_base64_char;
use crate::text::is_binary_char;
use crate::text::is_hex_char;
use crate::text::is_morse_char;
use crate::text::morse_char;
use crate::types::HashType;

verus! {

/// The hash algorithms whose hex digest has exactly `len` characters, in
/// the fixed order they are offered as candidates.
pub open spec fn hash_candidates(len: int) -> Seq<HashType> {
    if len == 32 {
        seq![HashType::MD5]
    } else if len == 40 {
        seq![HashType::SHA1, HashType::RIPEMD160]
    } else if len == 56 {
        seq![HashType::SHA224, HashType::SHA3_224]
    } else if len == 64 {
        seq![HashType::SHA256, HashType::SHA3_256, HashType::BLAKE2s]
    } else if len == 96 {
        seq![HashType::SHA384, HashType::SHA3_384]
    } else if len == 128 {
        seq![HashType::SHA512, HashType::SHA3_512, HashType::BLAKE2b, HashType::Whirlpool]
    } else {
        Seq::empty()
    }
}

/// How many `=` characters the text ends with.
pub open spec fn trailing_equals(s: Seq<char>) -> int
    decreases s.len(),
{
    if s.len() > 0 && s.last() == '=' {
        1 + trailing_equals(s.drop_last())
    } else {
        0
    }
}

/// The Base64 structural signature: length a multiple of four, every
/// character in the Base64 alphabet, and at most two `=` of padding.
pub open spec fn base64_signature(s: Seq<char>) -> bool {
    &&& s.len() % 4 == 0
    &&& all_chars_are(s, |c: char| base64_char(c))
    &&& trailing_equals(s) <= 2
}

pub(crate) fn all_hex_chars(v: &Vec<char>) -> (r: bool)
    ensures
        r == all_chars_are(v@, |c: char| hex_char(c)),
{
    let mut i: usize = 0;
    while i < v.len()
        invariant
            i <= v@.len(),
            forall|t: int| 0 <= t < i ==> hex_char(#[trigger] v@[t]),
        decreases v@.len() - i,
    {
        if !is_hex_char(v[i]) {
            return false;
        }
        i = i + 1;
    }
    true
}

pub(crate) fn all_base64_chars(v: &Vec<char>) -> (r: bool)
    ensures
        r == all_chars_are(v@, |c: char| base64_char(c)),
{
    let mut i: usize = 0;
    while i < v.len()
        invariant
            i <= v@.len(),
            forall|t: int| 0 <= t < i ==> base64_char(#[trigger] v@[t]),
        decreases v@.len() - i,
    {
        if !is_base64_char(v[i]) {
            return false;
        }
        i = i + 1;
    }
    true
}

pub(crate) fn all_binary_chars(v: &Vec<char>) -> (r: bool)
    ensures
        r == all_chars_are(v@, |c: char| binary_char(c)),
{
    let mut i: usize = 0;
    while i < v.len()
        invariant
            i <= v@.len(),
            forall|t: int| 0 <= t < i ==> binary_char(#[trigger] v@[t]),
        decreases v@.len() - i,
    {
        if !is_binary_char(v[i]) {
            return false;
        }
        i = i + 1;
    }
    true
}

pub(crate) fn all_morse_chars(v: &Vec<char>) -> (r: bool)
    ensures
        r == all_chars_are(v@, |c: char| morse_char(c)),
{
    let mut i: usize = 0;
    while i < v.len()
        invariant
            i <= v@.len(),
            forall|t: int| 0 <= t < i ==> morse_char(#[trigger] v@[t]),
        decreases v@.len() - i,
    {
        if !is_morse_char(v[i]) {
            return false;
        }
        i = i + 1;
    }
    true
}

pub(crate) fn trailing_equals_chars(v: &Vec<char>) -> (r: usize)
    ensures
        r == trailing_equals(v@),
{
    let n: usize = v.len();
    let mut i: usize = n;
    let mut cnt: usize = 0;
    proof {
        assert(v@.take(i as int) =~= v@);
    }
    while i > 0 && v[i - 1] == '='
        invariant
            n == v@.len(),
            i <= n,
            cnt == n - i,
            trailing_equals(v@) == cnt + trailing_equals(v@.take(i as int)),
        decreases i,
    {
        proof {
            assert(v@.take(i as int).last() == v@[i - 1]);
            assert(v@.take(i as int).drop_last() =~= v@.take(i - 1));
        }
        cnt = cnt + 1;
        i = i - 1;
    }
    proof {
        if i > 0 {
            assert(v@.take(i as int).last() == v@[i - 1]);
        }
        assert(trailing_equals(v@.take(i as int)) == 0);
    }
    cnt
}

pub(crate) fn base64_sig_chars(v: &Vec<char>) -> (r: bool)
    ensures
        r == base64_signature(v@),
{
    if v.len() % 4 != 0 {
        return false;
    }
    if !all_base64_chars(v) {
        return false;
    }
    let eq = trailing_equals_chars(v);
    eq <= 2
}

pub(crate) fn hash_candidates_vec(len: usize) -> (r: Vec<HashType>)
    ensures
        r@ == hash_candidates(len as int),
{
    let mut r: Vec<HashType> = Vec::new();
    if len == 32 {
        r.push(HashType::MD5);
    } else if len == 40 {
        r.push(HashType::SHA1);
        r.push(HashType::RIPEMD160);
    } else if len == 56 {
        r.push(HashType::SHA224);
        r.push(HashType::SHA3_224);
    } else if len == 64 {
        r.push(HashType::SHA256);
        r.push(HashType::SHA3_256);
        r.push(HashType::BLAKE2s);
    } else if len == 96 {
        r.push(HashType::SHA384);
        r.push(HashType::SHA3_384);
    } else if len == 128 {
        r.push(HashType::SHA512);
        r.push(HashType::SHA3_512);
        r.push(HashType::BLAKE2b);
        r.push(HashType::Whirlpool);
    }
    proof {
        assert(r@ =~= hash_candidates(len as int));
    }
    r
}

/// Pure lookup tables and structural predicates over raw text.
pub struct SignatureSearch;

impl SignatureSearch {
    /// Candidate hash algorithms for an all-hex text, decided by its exact
    /// length; `None` when the text is not all hex or no algorithm has a
    /// digest of that length.
    pub fn check_hash_length(text: &str) -> (r: Option<Vec<HashType>>)
        ensures
            match r {
                Some(v) => {
                    &&& all_chars_are(text@, |c: char| hex_char(c))
                    &&& v@ == hash_candidates(text@.len() as int)
                    &&& v@.len() > 0
                },
                None => {
                    !all_chars_are(text@, |c: char| hex_char(c)) || hash_candidates(
                        text@.len() as int,
                    ).len() == 0
                },
            },
    {
        let v = chars_vec(text);
        if !all_hex_chars(&v) {
            return None;
        }
        let cands = hash_candidates_vec(v.len());
        if cands.len() == 0 {
            return None;
        }
        Some(cands)
    }

    /// Whether the text carries the Base64 structural signature.
    pub fn check_base64_signature(text: &str) -> (r: bool)
        ensures
            r == base64_signature(text@),
    {
        let v = chars_vec(text);
        base64_sig_chars(&v)
    }

    /// Whether every character is `0`, `1` or a space.
    pub fn check_binary_signature(text: &str) -> (r: bool)
        ensures
            r == all_chars_are(text@, |c: char| binary_char(c)),
    {
        let v = chars_vec(text);
        all_binary_chars(&v)
    }

    /// Whether every character is a Morse symbol: `.`, `-`, space or `/`.
    pub fn check_morse_signature(text: &str) -> (r: bool)
        ensures
            r == all_chars_are(text@, |c: char| morse_char(c)),
    {
        let v = chars_vec(text);
        all_morse_chars(&v)
    }
}

} // verus!
