//! Classical cipher detection from the Index of Coincidence.
//!
//! Only texts made of alphabetic characters and whitespace are considered.
//! An index in the English band reads as a Caesar-class shift (a shift
//! preserves the shape of the letter-frequency distribution, so shifted
//! English still looks English-like); a weaker, broader band reads as a
//! generic substitution cipher.  The English band is tried first: where the
//! two bands overlap, the Caesar reading deliberately wins.

use vstd::prelude::*;

use crate::coincidence::ic_denominator;
use crate::coincidence::ic_numerator;
use crate::coincidence::ic_of_chars;
use crate::coincidence::in_substitution_band;
use crate::coincidence::likely_english_of;
use crate::coincidence::likely_english_spec;
use crate::coincidence::substitution_band_spec;
use crate::text::all_chars_are;
use crate::text::alphabetic_char;
use crate::text::dec_str;
use crate::text::decimal_string;
use crate::text::trim_spec;
use crate::text::trimmed_chars;
use crate::text::whitespace_char;
use crate::types::CipherType;
use crate::types::ClassicalCipher;
use crate::types::DetectionResult;
use crate::types::result_model;

verus! {

pub const CONF_CAESAR: u64 = 70;

pub const CONF_SUBSTITUTION: u64 = 65;

/// Only alphabetic characters and whitespace may appear.
pub open spec fn cipher_gate(t: Seq<char>) -> bool {
    all_chars_are(t, |c: char| alphabetic_char(c) || whitespace_char(c))
}

/// The evidence line carrying the numeric index, as the exact rational
/// `numerator/denominator`.
pub open spec fn ic_evidence(t: Seq<char>) -> Seq<char> {
    "Index of Coincidence: "@ + dec_str(ic_numerator(t) as nat) + "/"@ + dec_str(
        ic_denominator(t) as nat,
    )
}

/// What `CipherDetector::detect` reports of a trimmed text.
pub open spec fn cipher_model(t: Seq<char>) -> Option<(CipherType, u64, Seq<Seq<char>>)> {
    if !cipher_gate(t) {
        None
    } else if likely_english_spec(t) {
        Some(
            (
                CipherType::Cipher(ClassicalCipher::Caesar),
                CONF_CAESAR,
                seq![ic_evidence(t), "IC similar to natural language"@],
            ),
        )
    } else if substitution_band_spec(t) {
        Some(
            (
                CipherType::Cipher(ClassicalCipher::Substitution),
                CONF_SUBSTITUTION,
                seq![ic_evidence(t), "Possible substitution cipher"@],
            ),
        )
    } else {
        None
    }
}

/// Reads classical-cipher structure out of the letter statistics.
pub struct CipherDetector;

impl CipherDetector {
    /// Caesar-class or substitution guess for the trimmed input, decided by
    /// the Index of Coincidence; `None` exactly when the trimmed input
    /// holds anything but letters and whitespace or its index lies in
    /// neither band.
    pub fn detect(input: &str) -> (r: Option<DetectionResult>)
        ensures
            (r is Some) == (cipher_model(trim_spec(input@)) is Some),
            r is Some ==> Some(result_model(r->Some_0)) == cipher_model(trim_spec(input@))
                && r->Some_0.valid(),
    {
        let t = trimmed_chars(input);
        let mut i: usize = 0;
        while i < t.len()
            invariant
                i <= t@.len(),
                t@ == trim_spec(input@),
                forall|k: int|
                    0 <= k < i ==> alphabetic_char(#[trigger] t@[k]) || whitespace_char(t@[k]),
            decreases t@.len() - i,
        {
            let c = t[i];
            if !(c.is_alphabetic() || c.is_whitespace()) {
                proof {
                    assert(!(alphabetic_char(t@[i as int]) || whitespace_char(t@[i as int])));
                    assert(!cipher_gate(t@));
                }
                return None;
            }
            i = i + 1;
        }
        let ic = ic_of_chars(&t);
        let english = likely_english_of(ic, Ghost(t@));
        if english {
            let line = String::from_str("Index of Coincidence: ").concat(
                decimal_string(ic.num).as_str(),
            ).concat("/").concat(decimal_string(ic.den).as_str());
            let mut result = DetectionResult::new(
                CipherType::Cipher(ClassicalCipher::Caesar),
                CONF_CAESAR,
            );
            result.add_evidence(line);
            result.add_evidence(String::from_str("IC similar to natural language"));
            proof {
                assert(result.evidence.deep_view() =~= seq![
                    ic_evidence(t@),
                    "IC similar to natural language"@,
                ]);
            }
            return Some(result);
        }
        let in_band = in_substitution_band(ic, Ghost(t@));
        if in_band {
            let line = String::from_str("Index of Coincidence: ").concat(
                decimal_string(ic.num).as_str(),
            ).concat("/").concat(decimal_string(ic.den).as_str());
            let mut result = DetectionResult::new(
                CipherType::Cipher(ClassicalCipher::Substitution),
                CONF_SUBSTITUTION,
            );
            result.add_evidence(line);
            result.add_evidence(String::from_str("Possible substitution cipher"));
            proof {
                assert(result.evidence.deep_view() =~= seq![
                    ic_evidence(t@),
                    "Possible substitution cipher"@,
                ]);
            }
            return Some(result);
        }
        None
    }
}

} // verus!
