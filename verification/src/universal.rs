//! The full pipeline: hash, encoding and cipher detection in fixed
//! priority, merged and ranked.
//!
//! The order is policy: hash matches are maximally specific (exact-length
//! hex) and win over looser structural matches, which in turn win over
//! statistical cipher guesses.  When everything declines, the answer is a
//! single `Unknown` result with confidence zero.

use vstd::prelude::*;

use crate::cipher::CipherDetector;
use crate::cipher::cipher_model;
use crate::encoding::EncodingDetector;
use crate::encoding::encoding_model;
use crate::hash::HashDetector;
use crate::hash::hash_all_model;
use crate::hash::hash_single_model;
use crate::hash::lemma_hash_all_model_entries;
use crate::ranking::confidence_key;
use crate::ranking::lemma_sort_desc_contains;
use crate::ranking::lemma_sort_desc_len;
use crate::ranking::lemma_sort_desc_sorted;
use crate::ranking::rank_results;
use crate::ranking::ranked_models;
use crate::text::trim_spec;
use crate::types::CipherType;
use crate::types::DetectionResult;
use crate::types::result_model;
use crate::types::results_model;

verus! {

/// The fallback when no detector matches.
pub open spec fn unknown_model() -> (CipherType, u64, Seq<Seq<char>>) {
    (CipherType::Unknown, 0, seq!["No pattern matched"@])
}

/// A candidate's worth of model: one element when the detector matched,
/// none otherwise.
pub open spec fn opt_model(m: Option<(CipherType, u64, Seq<Seq<char>>)>) -> Seq<
    (CipherType, u64, Seq<Seq<char>>),
> {
    match m {
        Some(e) => seq![e],
        None => Seq::empty(),
    }
}

/// Every candidate the three detectors offer for an input, in detector
/// order, before ranking.
pub open spec fn combined_candidates(s: Seq<char>) -> Seq<(CipherType, u64, Seq<Seq<char>>)> {
    hash_all_model(trim_spec(s)) + opt_model(encoding_model(trim_spec(s))) + opt_model(
        cipher_model(trim_spec(s)),
    )
}

/// What `UniversalDetector::detect` reports: the first detector that
/// matches, in the priority order hash, encoding, cipher, else `Unknown`.
pub open spec fn universal_single_model(s: Seq<char>) -> (CipherType, u64, Seq<Seq<char>>) {
    if hash_single_model(trim_spec(s)) is Some {
        hash_single_model(trim_spec(s))->Some_0
    } else if encoding_model(trim_spec(s)) is Some {
        encoding_model(trim_spec(s))->Some_0
    } else if cipher_model(trim_spec(s)) is Some {
        cipher_model(trim_spec(s))->Some_0
    } else {
        unknown_model()
    }
}

/// What `UniversalDetector::detect_all` reports: every candidate, ranked
/// by confidence, or the single `Unknown` placeholder when there is none.
pub open spec fn universal_all_model(s: Seq<char>) -> Seq<(CipherType, u64, Seq<Seq<char>>)> {
    if combined_candidates(s).len() == 0 {
        seq![unknown_model()]
    } else {
        ranked_models(combined_candidates(s))
    }
}

/// Runs the three detectors in fixed priority and merges their answers.
pub struct UniversalDetector;

fn unknown_result() -> (r: DetectionResult)
    ensures
        result_model(r) == unknown_model(),
        r.valid(),
{
    let base = DetectionResult::new(CipherType::Unknown, 0);
    let r = base.with_evidence(String::from_str("No pattern matched"));
    proof {
        assert(r.evidence.deep_view() =~= seq!["No pattern matched"@]);
    }
    r
}

impl UniversalDetector {
    /// Single best guess for the input: the first detector that matches in
    /// the order hash, encoding, cipher; `Unknown` with confidence zero and
    /// one evidence line when all three decline.
    pub fn detect(input: &str) -> (r: DetectionResult)
        ensures
            result_model(r) == universal_single_model(input@),
            r.valid(),
            r.evidence@.len() > 0,
            (r.confidence == 0) == (r.cipher_type == CipherType::Unknown),
    {
        if let Some(result) = HashDetector::detect(input) {
            proof {
                let m = hash_single_model(trim_spec(input@))->Some_0;
                assert(result_model(result) == m);
                assert(result.evidence.deep_view().len() == result.evidence@.len());
                assert(m.2.len() == 2);
                assert(m.1 != 0);
                assert(m.0 != CipherType::Unknown);
            }
            return result;
        }
        if let Some(result) = EncodingDetector::detect(input) {
            proof {
                let m = encoding_model(trim_spec(input@))->Some_0;
                assert(result_model(result) == m);
                assert(result.evidence.deep_view().len() == result.evidence@.len());
                assert(m.2.len() > 0);
                assert(m.1 != 0);
                assert(m.0 != CipherType::Unknown);
            }
            return result;
        }
        if let Some(result) = CipherDetector::detect(input) {
            proof {
                let m = cipher_model(trim_spec(input@))->Some_0;
                assert(result_model(result) == m);
                assert(result.evidence.deep_view().len() == result.evidence@.len());
                assert(m.2.len() == 2);
                assert(m.1 != 0);
                assert(m.0 != CipherType::Unknown);
            }
            return result;
        }
        let fallback = unknown_result();
        proof {
            assert(fallback.evidence.deep_view().len() == fallback.evidence@.len());
        }
        fallback
    }

    /// Every candidate from all three detectors, ranked by confidence
    /// (stable: detector order breaks ties); never empty, falling back to a
    /// single `Unknown` result.  Every entry has a confidence in the unit
    /// interval and at least one evidence line.
    pub fn detect_all(input: &str) -> (r: Vec<DetectionResult>)
        ensures
            results_model(r@) == universal_all_model(input@),
            r@.len() > 0,
            forall|i: int, j: int|
                0 <= i < j < r@.len() ==> (#[trigger] r@[i]).confidence >= (
                #[trigger] r@[j]).confidence,
            forall|i: int|
                0 <= i < r@.len() ==> (#[trigger] r@[i]).valid() && r@[i].evidence@.len() > 0 && ((
                r@[i].confidence == 0) == (r@[i].cipher_type == CipherType::Unknown)),
    {
        let ghost s = input@;
        let ghost key = |m: (CipherType, u64, Seq<Seq<char>>)| confidence_key(m);
        let mut results = HashDetector::detect_all(input);
        let ghost hash_part = results@;
        if let Some(result) = EncodingDetector::detect(input) {
            results.push(result);
        }
        let ghost enc_part = results@;
        if let Some(result) = CipherDetector::detect(input) {
            results.push(result);
        }
        proof {
            assert(results_model(enc_part) =~= results_model(hash_part) + opt_model(
                encoding_model(trim_spec(s)),
            ));
            assert(results_model(results@) =~= results_model(enc_part) + opt_model(
                cipher_model(trim_spec(s)),
            ));
            assert(results_model(results@) =~= combined_candidates(s));
        }
        if results.len() == 0 {
            let mut fallback: Vec<DetectionResult> = Vec::new();
            fallback.push(unknown_result());
            proof {
                assert(results_model(fallback@) =~= seq![unknown_model()]);
                assert(result_model(fallback@[0]) == unknown_model());
                assert(fallback@[0].evidence.deep_view().len() == fallback@[0].evidence@.len());
                assert(fallback@[0].valid());
                assert(fallback@[0].confidence == 0);
                assert(fallback@[0].cipher_type == CipherType::Unknown);
            }
            return fallback;
        }
        let ghost combined = results_model(results@);
        proof {
            lemma_hash_all_model_entries(trim_spec(s));
            let hm = hash_all_model(trim_spec(s));
            let em = opt_model(encoding_model(trim_spec(s)));
            assert forall|k: int| 0 <= k < combined.len() implies (#[trigger] combined[k]).1 <= 100
                && 0 < combined[k].1 && combined[k].2.len() > 0 && combined[k].0
                != CipherType::Unknown by {
                if k < hm.len() {
                    assert(combined[k] == hm[k]);
                } else if k < hm.len() + em.len() {
                    assert(combined[k] == encoding_model(trim_spec(s))->Some_0);
                } else {
                    assert(combined[k] == cipher_model(trim_spec(s))->Some_0);
                }
            }
        }
        rank_results(&mut results);
        proof {
            lemma_sort_desc_len(combined, key);
            lemma_sort_desc_sorted(combined, key);
            assert forall|i: int, j: int| 0 <= i < j < results@.len() implies (
            #[trigger] results@[i]).confidence >= (#[trigger] results@[j]).confidence by {
                assert(results_model(results@)[i] == result_model(results@[i]));
                assert(results_model(results@)[j] == result_model(results@[j]));
                assert(key(results_model(results@)[i]) >= key(results_model(results@)[j]));
            }
            assert forall|i: int| 0 <= i < results@.len() implies (#[trigger] results@[i]).valid()
                && results@[i].evidence@.len() > 0 && ((results@[i].confidence == 0) == (
            results@[i].cipher_type == CipherType::Unknown)) by {
                let m = results_model(results@)[i];
                assert(m == result_model(results@[i]));
                assert(results_model(results@).contains(m));
                lemma_sort_desc_contains(combined, key, m);
                let k = choose|k: int| 0 <= k < combined.len() && combined[k] == m;
                assert(combined[k].1 <= 100 && 0 < combined[k].1 && combined[k].2.len() > 0
                    && combined[k].0 != CipherType::Unknown);
                assert(m.1 <= 100);
                assert(results@[i].evidence.deep_view().len() == results@[i].evidence@.len());
                assert(results@[i].evidence@.len() == m.2.len());
                assert(results@[i].confidence == m.1);
                assert(results@[i].cipher_type == m.0);
            }
        }
        results
    }
}

} // verus!
