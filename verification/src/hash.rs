//! Hash digest detection: an all-hex text of one of the known digest
//! lengths is attributed to the algorithms of that length, each with a
//! fixed prior confidence (in hundredths).

use vstd::prelude::*;

use crate::ranking::confidence_key;
use crate::ranking::lemma_sort_desc_contains;
use crate::ranking::lemma_sort_desc_len;
use crate::ranking::rank_results;
use crate::ranking::ranked_models;
use crate::signature::all_hex_chars;
use crate::signature::hash_candidates;
use crate::signature::hash_candidates_vec;
use crate::text::all_chars_are;
use crate::text::dec_str;
use crate::text::decimal_string;
use crate::text::hex_char;
use crate::text::trim_spec;
use crate::text::trimmed_chars;
use crate::types::CipherType;
use crate::types::DetectionResult;
use crate::types::HashType;
use crate::types::result_model;
use crate::types::results_model;

verus! {

pub const CONF_MD5: u64 = 95;

pub const CONF_SHA1: u64 = 90;

pub const CONF_SHA224: u64 = 85;

pub const CONF_SHA256: u64 = 90;

pub const CONF_SHA384: u64 = 85;

pub const CONF_SHA512: u64 = 85;

pub const CONF_SHA3: u64 = 80;

pub const CONF_BLAKE2: u64 = 75;

pub const CONF_RIPEMD160: u64 = 85;

pub const CONF_WHIRLPOOL: u64 = 80;

/// The name an algorithm is reported under.
pub open spec fn algorithm_name(t: HashType) -> Seq<char> {
    match t {
        HashType::MD5 => "MD5"@,
        HashType::SHA1 => "SHA1"@,
        HashType::SHA224 => "SHA224"@,
        HashType::SHA256 => "SHA256"@,
        HashType::SHA384 => "SHA384"@,
        HashType::SHA512 => "SHA512"@,
        HashType::SHA3_224 => "SHA3-224"@,
        HashType::SHA3_256 => "SHA3-256"@,
        HashType::SHA3_384 => "SHA3-384"@,
        HashType::SHA3_512 => "SHA3-512"@,
        HashType::BLAKE2b => "BLAKE2b"@,
        HashType::BLAKE2s => "BLAKE2s"@,
        HashType::RIPEMD160 => "RIPEMD160"@,
        HashType::Whirlpool => "Whirlpool"@,
    }
}

/// Length, in hex characters, of the algorithm's digest.
pub open spec fn digest_len(t: HashType) -> int {
    match t {
        HashType::MD5 => 32,
        HashType::SHA1 => 40,
        HashType::SHA224 => 56,
        HashType::SHA256 => 64,
        HashType::SHA384 => 96,
        HashType::SHA512 => 128,
        HashType::SHA3_224 => 56,
        HashType::SHA3_256 => 64,
        HashType::SHA3_384 => 96,
        HashType::SHA3_512 => 128,
        HashType::BLAKE2b => 128,
        HashType::BLAKE2s => 64,
        HashType::RIPEMD160 => 40,
        HashType::Whirlpool => 128,
    }
}

/// Fixed prior confidence of each algorithm, in hundredths.
pub open spec fn conf_of(t: HashType) -> u64 {
    match t {
        HashType::MD5 => CONF_MD5,
        HashType::SHA1 => CONF_SHA1,
        HashType::SHA224 => CONF_SHA224,
        HashType::SHA256 => CONF_SHA256,
        HashType::SHA384 => CONF_SHA384,
        HashType::SHA512 => CONF_SHA512,
        HashType::SHA3_224 => CONF_SHA3,
        HashType::SHA3_256 => CONF_SHA3,
        HashType::SHA3_384 => CONF_SHA3,
        HashType::SHA3_512 => CONF_SHA3,
        HashType::BLAKE2b => CONF_BLAKE2,
        HashType::BLAKE2s => CONF_BLAKE2,
        HashType::RIPEMD160 => CONF_RIPEMD160,
        HashType::Whirlpool => CONF_WHIRLPOOL,
    }
}

/// The single most likely algorithm for a digest of length `len`, with its
/// confidence; `None` for lengths no known digest has.
pub open spec fn single_pick(len: int) -> Option<(HashType, u64)> {
    if len == 32 {
        Some((HashType::MD5, CONF_MD5))
    } else if len == 40 {
        Some((HashType::SHA1, CONF_SHA1))
    } else if len == 56 {
        Some((HashType::SHA224, CONF_SHA224))
    } else if len == 64 {
        Some((HashType::SHA256, CONF_SHA256))
    } else if len == 96 {
        Some((HashType::SHA384, CONF_SHA384))
    } else if len == 128 {
        Some((HashType::SHA512, CONF_SHA512))
    } else {
        None
    }
}

/// The evidence line shared by all hash results.
pub open spec fn hex_evidence() -> Seq<char> {
    "Hexadecimal characters only"@
}

/// What `HashDetector::detect` reports of a trimmed text: the best single
/// candidate by exact length, or nothing when the text is not all hex or
/// has no digest length.
pub open spec fn hash_single_model(t: Seq<char>) -> Option<(CipherType, u64, Seq<Seq<char>>)> {
    if all_chars_are(t, |c: char| hex_char(c)) && single_pick(t.len() as int) is Some {
        let (ty, conf) = single_pick(t.len() as int)->Some_0;
        Some(
            (
                CipherType::Hash(ty),
                conf,
                seq!["Matches "@ + algorithm_name(ty) + " length"@, hex_evidence()],
            ),
        )
    } else {
        None
    }
}

/// One full candidate for `detect_all`, with its evidence lines.
pub open spec fn hash_all_entry(ty: HashType) -> (CipherType, u64, Seq<Seq<char>>) {
    (
        CipherType::Hash(ty),
        conf_of(ty),
        seq![
            "Matches "@ + algorithm_name(ty) + " length ("@ + dec_str(digest_len(ty) as nat)
                + ")"@,
            hex_evidence(),
        ],
    )
}

/// What `HashDetector::detect_all` reports of a trimmed text: every
/// algorithm whose digest has the text's length, ranked by confidence
/// (stable: the candidate order of the length table breaks ties).
pub open spec fn hash_all_model(t: Seq<char>) -> Seq<(CipherType, u64, Seq<Seq<char>>)> {
    if all_chars_are(t, |c: char| hex_char(c)) {
        ranked_models(
            hash_candidates(t.len() as int).map_values(|ty: HashType| hash_all_entry(ty)),
        )
    } else {
        Seq::empty()
    }
}

fn algorithm_name_string(t: HashType) -> (r: String)
    ensures
        r@ == algorithm_name(t),
{
    match t {
        HashType::MD5 => String::from_str("MD5"),
        HashType::SHA1 => String::from_str("SHA1"),
        HashType::SHA224 => String::from_str("SHA224"),
        HashType::SHA256 => String::from_str("SHA256"),
        HashType::SHA384 => String::from_str("SHA384"),
        HashType::SHA512 => String::from_str("SHA512"),
        HashType::SHA3_224 => String::from_str("SHA3-224"),
        HashType::SHA3_256 => String::from_str("SHA3-256"),
        HashType::SHA3_384 => String::from_str("SHA3-384"),
        HashType::SHA3_512 => String::from_str("SHA3-512"),
        HashType::BLAKE2b => String::from_str("BLAKE2b"),
        HashType::BLAKE2s => String::from_str("BLAKE2s"),
        HashType::RIPEMD160 => String::from_str("RIPEMD160"),
        HashType::Whirlpool => String::from_str("Whirlpool"),
    }
}

fn conf_value(t: HashType) -> (r: u64)
    ensures
        r == conf_of(t),
{
    match t {
        HashType::MD5 => CONF_MD5,
        HashType::SHA1 => CONF_SHA1,
        HashType::SHA224 => CONF_SHA224,
        HashType::SHA256 => CONF_SHA256,
        HashType::SHA384 => CONF_SHA384,
        HashType::SHA512 => CONF_SHA512,
        HashType::SHA3_224 => CONF_SHA3,
        HashType::SHA3_256 => CONF_SHA3,
        HashType::SHA3_384 => CONF_SHA3,
        HashType::SHA3_512 => CONF_SHA3,
        HashType::BLAKE2b => CONF_BLAKE2,
        HashType::BLAKE2s => CONF_BLAKE2,
        HashType::RIPEMD160 => CONF_RIPEMD160,
        HashType::Whirlpool => CONF_WHIRLPOOL,
    }
}

/// Attributes hex digests to hash algorithms by their exact length.
pub struct HashDetector;

impl HashDetector {
    /// Best single guess: `Some` exactly when the trimmed input is all hex
    /// and has one of the known digest lengths; the result then names the
    /// most popular algorithm of that length with its fixed confidence and
    /// two evidence lines.
    pub fn detect(input: &str) -> (r: Option<DetectionResult>)
        ensures
            (r is Some) == (hash_single_model(trim_spec(input@)) is Some),
            r is Some ==> Some(result_model(r->Some_0)) == hash_single_model(trim_spec(input@))
                && r->Some_0.valid(),
    {
        let t = trimmed_chars(input);
        if !all_hex_chars(&t) {
            return None;
        }
        let picked: (HashType, u64) = if t.len() == 32 {
            (HashType::MD5, CONF_MD5)
        } else if t.len() == 40 {
            (HashType::SHA1, CONF_SHA1)
        } else if t.len() == 56 {
            (HashType::SHA224, CONF_SHA224)
        } else if t.len() == 64 {
            (HashType::SHA256, CONF_SHA256)
        } else if t.len() == 96 {
            (HashType::SHA384, CONF_SHA384)
        } else if t.len() == 128 {
            (HashType::SHA512, CONF_SHA512)
        } else {
            return None;
        };
        let (ty, conf) = picked;
        let name = algorithm_name_string(ty);
        let line = String::from_str("Matches ").concat(name.as_str()).concat(" length");
        let mut result = DetectionResult::new(CipherType::Hash(ty), conf);
        result.add_evidence(line);
        result.add_evidence(String::from_str("Hexadecimal characters only"));
        proof {
            assert(result.evidence.deep_view() =~= seq![
                "Matches "@ + algorithm_name(ty) + " length"@,
                hex_evidence(),
            ]);
        }
        Some(result)
    }

    /// Every candidate algorithm for the trimmed input's length, ranked by
    /// confidence, stably; empty exactly when the trimmed input is not all
    /// hex or no algorithm has a digest of its length.
    pub fn detect_all(input: &str) -> (r: Vec<DetectionResult>)
        ensures
            results_model(r@) == hash_all_model(trim_spec(input@)),
            forall|i: int|
                0 <= i < r@.len() ==> (#[trigger] r@[i]).valid() && r@[i].evidence@.len() > 0,
    {
        let t = trimmed_chars(input);
        let mut results: Vec<DetectionResult> = Vec::new();
        if !all_hex_chars(&t) {
            proof {
                assert(results_model(results@) =~= Seq::<(CipherType, u64, Seq<Seq<char>>)>::empty());
            }
            return results;
        }
        let cands = hash_candidates_vec(t.len());
        let ghost unsorted = hash_candidates(t@.len() as int).map_values(
            |ty: HashType| hash_all_entry(ty),
        );
        proof {
            assert forall|k: int| 0 <= k < cands@.len() implies digest_len(#[trigger] cands@[k])
                == t@.len() as int by {
            }
        }
        let num = decimal_string(t.len() as u128);
        let mut i: usize = 0;
        while i < cands.len()
            invariant
                i <= cands@.len(),
                cands@ == hash_candidates(t@.len() as int),
                unsorted == hash_candidates(t@.len() as int).map_values(
                    |ty: HashType| hash_all_entry(ty),
                ),
                num@ == dec_str(t@.len() as nat),
                forall|k: int|
                    0 <= k < cands@.len() ==> digest_len(#[trigger] cands@[k]) == t@.len() as int,
                results@.len() == i,
                forall|k: int|
                    0 <= k < i ==> result_model(#[trigger] results@[k]) == unsorted[k]
                        && results@[k].valid() && results@[k].evidence@.len() > 0,
            decreases cands@.len() - i,
        {
            let ty = cands[i];
            let conf = conf_value(ty);
            let name = algorithm_name_string(ty);
            let line = String::from_str("Matches ").concat(name.as_str()).concat(
                " length (",
            ).concat(num.as_str()).concat(")");
            let mut result = DetectionResult::new(CipherType::Hash(ty), conf);
            result.add_evidence(line);
            result.add_evidence(String::from_str("Hexadecimal characters only"));
            proof {
                assert(conf_of(ty) <= 100);
                assert(result.evidence.deep_view() =~= seq![
                    "Matches "@ + algorithm_name(ty) + " length ("@ + dec_str(
                        digest_len(ty) as nat,
                    ) + ")"@,
                    hex_evidence(),
                ]);
                assert(result_model(result) == hash_all_entry(ty));
                assert(unsorted[i as int] == hash_all_entry(cands@[i as int]));
            }
            results.push(result);
            i = i + 1;
        }
        proof {
            assert(results_model(results@) =~= unsorted);
        }
        rank_results(&mut results);
        proof {
            let key = |m: (CipherType, u64, Seq<Seq<char>>)| confidence_key(m);
            lemma_sort_desc_len(unsorted, key);
            assert forall|i: int| 0 <= i < results@.len() implies (#[trigger] results@[i]).valid()
                && results@[i].evidence@.len() > 0 by {
                let m = results_model(results@)[i];
                assert(m == result_model(results@[i]));
                assert(results_model(results@).contains(m));
                lemma_sort_desc_contains(unsorted, key, m);
                let k = choose|k: int| 0 <= k < unsorted.len() && unsorted[k] == m;
                assert(unsorted[k] == hash_all_entry(hash_candidates(t@.len() as int)[k]));
                assert(m.1 <= 100);
                assert(m.2.len() == 2);
                assert(results@[i].evidence.deep_view().len() == results@[i].evidence@.len());
            }
        }
        results
    }
}

/// Every candidate the hash detector offers is well formed: confidence in
/// the unit interval, never zero, and a non-empty evidence list.
pub proof fn lemma_hash_all_model_entries(t: Seq<char>)
    ensures
        forall|k: int|
            0 <= k < hash_all_model(t).len() ==> (#[trigger] hash_all_model(t)[k]).1 <= 100 && 0
                < hash_all_model(t)[k].1 && hash_all_model(t)[k].2.len() > 0 && hash_all_model(
                t,
            )[k].0 != CipherType::Unknown,
{
    if all_chars_are(t, |c: char| hex_char(c)) {
        let key = |m: (CipherType, u64, Seq<Seq<char>>)| confidence_key(m);
        let unsorted = hash_candidates(t.len() as int).map_values(
            |ty: HashType| hash_all_entry(ty),
        );
        lemma_sort_desc_len(unsorted, key);
        assert forall|k: int| 0 <= k < hash_all_model(t).len() implies (#[trigger] hash_all_model(
            t,
        )[k]).1 <= 100 && 0 < hash_all_model(t)[k].1 && hash_all_model(t)[k].2.len() > 0
            && hash_all_model(t)[k].0 != CipherType::Unknown by {
            let m = hash_all_model(t)[k];
            assert(hash_all_model(t).contains(m));
            lemma_sort_desc_contains(unsorted, key, m);
            let j = choose|j: int| 0 <= j < unsorted.len() && unsorted[j] == m;
            assert(unsorted[j] == hash_all_entry(hash_candidates(t.len() as int)[j]));
            assert(m.1 <= 100);
            assert(0 < m.1);
            assert(m.2.len() == 2);
            assert(m.0 != CipherType::Unknown);
        }
    }
}

/// An all-hex text of 32 characters is reported as an MD5 digest with
/// confidence 0.95: the single-guess model picks MD5 for that length.
pub proof fn lemma_md5_for_len32(s: Seq<char>)
    requires
        s.len() == 32,
        all_chars_are(s, |c: char| hex_char(c)),
    ensures
        hash_single_model(trim_spec(s)) == Some(
            (
                CipherType::Hash(HashType::MD5),
                CONF_MD5,
                seq!["Matches "@ + algorithm_name(HashType::MD5) + " length"@, hex_evidence()],
            ),
        ),
{
    let pred = |c: char| hex_char(c);
    assert(pred(s[0]));
    assert(pred(s[31]));
    crate::text::lemma_trim_of_untrimmed(s);
}

/// An all-hex text of 40 characters yields exactly two ranked candidates:
/// SHA1 at confidence 0.90 first, then RIPEMD160 at 0.85.
pub proof fn lemma_two_candidates_for_len40(s: Seq<char>)
    requires
        s.len() == 40,
        all_chars_are(s, |c: char| hex_char(c)),
    ensures
        hash_all_model(trim_spec(s)) == seq![
            hash_all_entry(HashType::SHA1),
            hash_all_entry(HashType::RIPEMD160),
        ],
        hash_all_entry(HashType::SHA1).0 == CipherType::Hash(HashType::SHA1),
        hash_all_entry(HashType::SHA1).1 == CONF_SHA1,
        hash_all_entry(HashType::RIPEMD160).0 == CipherType::Hash(HashType::RIPEMD160),
        hash_all_entry(HashType::RIPEMD160).1 == CONF_RIPEMD160,
{
    let pred = |c: char| hex_char(c);
    assert(pred(s[0]));
    assert(pred(s[39]));
    crate::text::lemma_trim_of_untrimmed(s);
    let key = |m: (CipherType, u64, Seq<Seq<char>>)| confidence_key(m);
    let e1 = hash_all_entry(HashType::SHA1);
    let e2 = hash_all_entry(HashType::RIPEMD160);
    let unsorted = hash_candidates(40).map_values(|ty: HashType| hash_all_entry(ty));
    assert(hash_candidates(40) == seq![HashType::SHA1, HashType::RIPEMD160]);
    assert(unsorted =~= seq![e1, e2]);
    let u1 = seq![e1];
    assert(u1.drop_last() =~= Seq::<(CipherType, u64, Seq<Seq<char>>)>::empty());
    assert(crate::ranking::sort_desc(Seq::<(CipherType, u64, Seq<Seq<char>>)>::empty(), key)
        == Seq::<(CipherType, u64, Seq<Seq<char>>)>::empty());
    assert(crate::ranking::sort_desc(u1, key) == crate::ranking::insert_desc(
        Seq::<(CipherType, u64, Seq<Seq<char>>)>::empty(),
        e1,
        key,
    ));
    assert(crate::ranking::sort_desc(u1, key) == seq![e1]);
    assert(unsorted.drop_last() =~= u1);
    assert(unsorted.last() == e2);
    assert(crate::ranking::sort_desc(unsorted, key) == crate::ranking::insert_desc(
        seq![e1],
        e2,
        key,
    ));
    assert(!(key(e2) > key(seq![e1][0])));
    assert(seq![e1].subrange(1, 1) =~= Seq::<(CipherType, u64, Seq<Seq<char>>)>::empty());
    assert(crate::ranking::insert_desc(seq![e1], e2, key) == seq![e1] + crate::ranking::insert_desc(
        Seq::<(CipherType, u64, Seq<Seq<char>>)>::empty(),
        e2,
        key,
    ));
    assert(crate::ranking::insert_desc(Seq::<(CipherType, u64, Seq<Seq<char>>)>::empty(), e2, key)
        == seq![e2]);
    assert(seq![e1] + seq![e2] =~= seq![e1, e2]);
}

} // verus!
