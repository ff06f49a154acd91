//! Encoding detection: Base64, hex, binary and Morse, tried in that fixed
//! priority order, each decided by a structural signature alone.
//!
//! Base64 is tried before hex because hex-looking text can coincidentally
//! satisfy Base64's character set; Base64's stricter length-multiple-of-four
//! and padding check is the disambiguator.

use vstd::prelude::*;

use crate::frequency::FrequencyAnalysis;
use crate::signature::all_binary_chars;
use crate::signature::all_morse_chars;
use crate::signature::base64_sig_chars;
use crate::signature::base64_signature;
use crate::text::all_chars_are;
use crate::text::binary_char;
use crate::text::hex_char;
use crate::text::morse_char;
use crate::text::trim_spec;
use crate::text::trimmed_chars;
use crate::types::CipherType;
use crate::types::DetectionResult;
use crate::types::EncodingType;
use crate::types::result_model;

verus! {

pub const CONF_BASE64: u64 = 90;

pub const CONF_HEX: u64 = 85;

pub const CONF_BINARY: u64 = 90;

pub const CONF_MORSE: u64 = 85;

/// What `EncodingDetector::detect` reports of a trimmed text: the first
/// signature that matches, in the fixed priority order, or nothing.
pub open spec fn encoding_model(t: Seq<char>) -> Option<(CipherType, u64, Seq<Seq<char>>)> {
    if base64_signature(t) {
        Some(
            (
                CipherType::Encoding(EncodingType::Base64),
                CONF_BASE64,
                seq!["Valid Base64 character set"@, "Correct padding"@],
            ),
        )
    } else if all_chars_are(t, |c: char| hex_char(c)) && t.len() % 2 == 0 {
        Some(
            (
                CipherType::Encoding(EncodingType::Hex),
                CONF_HEX,
                seq!["Hexadecimal characters only"@, "Even length"@],
            ),
        )
    } else if all_chars_are(t, |c: char| binary_char(c)) {
        Some(
            (
                CipherType::Encoding(EncodingType::Binary),
                CONF_BINARY,
                seq!["Binary characters only"@],
            ),
        )
    } else if all_chars_are(t, |c: char| morse_char(c)) {
        Some(
            (
                CipherType::Encoding(EncodingType::Morse),
                CONF_MORSE,
                seq!["Morse code characters detected"@],
            ),
        )
    } else {
        None
    }
}

/// Identifies data encodings by structural signatures.
pub struct EncodingDetector;

impl EncodingDetector {
    /// First matching encoding of the trimmed input, in the priority order
    /// Base64, hex, binary, Morse; `None` exactly when no signature holds.
    pub fn detect(input: &str) -> (r: Option<DetectionResult>)
        ensures
            (r is Some) == (encoding_model(trim_spec(input@)) is Some),
            r is Some ==> Some(result_model(r->Some_0)) == encoding_model(trim_spec(input@))
                && r->Some_0.valid(),
    {
        let t = trimmed_chars(input);
        let freq = FrequencyAnalysis::from_chars(&t);
        if base64_sig_chars(&t) {
            let mut result = DetectionResult::new(
                CipherType::Encoding(EncodingType::Base64),
                CONF_BASE64,
            );
            result.add_evidence(String::from_str("Valid Base64 character set"));
            result.add_evidence(String::from_str("Correct padding"));
            proof {
                assert(result.evidence.deep_view() =~= seq![
                    "Valid Base64 character set"@,
                    "Correct padding"@,
                ]);
            }
            return Some(result);
        }
        let hex_only = freq.is_hex_only();
        proof {
            assert(hex_only == all_chars_are(t@, |c: char| hex_char(c)));
        }
        if hex_only && t.len() % 2 == 0 {
            let mut result = DetectionResult::new(
                CipherType::Encoding(EncodingType::Hex),
                CONF_HEX,
            );
            result.add_evidence(String::from_str("Hexadecimal characters only"));
            result.add_evidence(String::from_str("Even length"));
            proof {
                assert(result.evidence.deep_view() =~= seq![
                    "Hexadecimal characters only"@,
                    "Even length"@,
                ]);
            }
            return Some(result);
        }
        if all_binary_chars(&t) {
            let mut result = DetectionResult::new(
                CipherType::Encoding(EncodingType::Binary),
                CONF_BINARY,
            );
            result.add_evidence(String::from_str("Binary characters only"));
            proof {
                assert(result.evidence.deep_view() =~= seq!["Binary characters only"@]);
            }
            return Some(result);
        }
        if all_morse_chars(&t) {
            let mut result = DetectionResult::new(
                CipherType::Encoding(EncodingType::Morse),
                CONF_MORSE,
            );
            result.add_evidence(String::from_str("Morse code characters detected"));
            proof {
                assert(result.evidence.deep_view() =~= seq!["Morse code characters detected"@]);
            }
            return Some(result);
        }
        None
    }
}

/// A text whose trimmed length is not a multiple of four is never reported
/// as Base64: every other encoding branch names a different encoding.
pub proof fn lemma_base64_needs_mod4(s: Seq<char>)
    ensures
        ({
            let m = encoding_model(trim_spec(s));
            (m is Some && m->Some_0.0 == CipherType::Encoding(EncodingType::Base64)) ==> trim_spec(
                s,
            ).len() % 4 == 0
        }),
{
}

} // verus!
