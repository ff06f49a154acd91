//! The taxonomy of classifications and the result value they travel in.

use vstd::prelude::*;

verus! {

/// Closed enumeration of the hash algorithms a digest can be attributed to.
/// Purely nominal: a variant carries no parameters.
#[derive(Clone, Copy, Debug, PartialEq, Eq, Structural)]
#[allow(non_camel_case_types)]
pub enum HashType {
    MD5,
    SHA1,
    SHA224,
    SHA256,
    SHA384,
    SHA512,
    SHA3_224,
    SHA3_256,
    SHA3_384,
    SHA3_512,
    BLAKE2b,
    BLAKE2s,
    RIPEMD160,
    Whirlpool,
}

/// Closed enumeration of data encodings.  `Base32`, `URL` and `HTML` are
/// declared for future detectors and are produced by no path today.
#[derive(Clone, Copy, Debug, PartialEq, Eq, Structural)]
#[allow(non_camel_case_types)]
pub enum EncodingType {
    Base64,
    Base32,
    Hex,
    Binary,
    Morse,
    URL,
    HTML,
}

/// Closed enumeration of classical ciphers.  Only `Caesar` and
/// `Substitution` are reachable from the detector logic; the rest are
/// taxonomy placeholders kept for future detectors.
#[derive(Clone, Copy, Debug, PartialEq, Eq, Structural)]
#[allow(non_camel_case_types)]
pub enum ClassicalCipher {
    Caesar,
    Vigenere,
    Atbash,
    ROT13,
    Substitution,
}

/// What a piece of text was classified as: exactly one variant per result.
#[derive(Clone, Copy, Debug, PartialEq, Eq, Structural)]
pub enum CipherType {
    Hash(HashType),
    Encoding(EncodingType),
    Cipher(ClassicalCipher),
    Unknown,
}

/// One ranked guess.
///
/// `confidence` is a fixed heuristic prior expressed in hundredths of the
/// unit interval (so `95` stands for 0.95); it always lies in `0 ..= 100`,
/// and `0` is reserved for the `Unknown` fallback.  `evidence` is an ordered
/// list of human-readable justifications; insertion order is explanatory
/// order and is never reordered or deduplicated.
#[derive(Clone, Debug, PartialEq, Eq)]
pub struct DetectionResult {
    pub cipher_type: CipherType,
    pub confidence: u64,
    pub evidence: Vec<String>,
}

/// Highest legal confidence, in hundredths: stands for 1.0.
pub const CONFIDENCE_UNIT: u64 = 100;

impl DetectionResult {
    /// A result is well formed when its confidence lies in the unit interval.
    pub open spec fn valid(self) -> bool {
        self.confidence <= CONFIDENCE_UNIT
    }

    /// Fresh result with no evidence attached yet.
    pub fn new(cipher_type: CipherType, confidence: u64) -> (r: Self)
        requires
            confidence <= CONFIDENCE_UNIT,
        ensures
            r.cipher_type == cipher_type,
            r.confidence == confidence,
            r.evidence@.len() == 0,
            r.valid(),
    {
        Self { cipher_type, confidence, evidence: Vec::new() }
    }

    /// Builder-style append: returns the same result with one more evidence
    /// line at the end; nothing else changes.
    pub fn with_evidence(self, evidence: String) -> (r: Self)
        ensures
            r.cipher_type == self.cipher_type,
            r.confidence == self.confidence,
            r.evidence@ == self.evidence@.push(evidence),
    {
        let mut r = self;
        r.evidence.push(evidence);
        r
    }

    /// In-place append of one evidence line; order of earlier lines is kept.
    pub fn add_evidence(&mut self, evidence: String)
        ensures
            final(self).cipher_type == old(self).cipher_type,
            final(self).confidence == old(self).confidence,
            final(self).evidence@ == old(self).evidence@.push(evidence),
    {
        self.evidence.push(evidence);
    }
}

/// Everything observable about a result, as mathematical values: the
/// classification, the confidence in hundredths, and the evidence lines as
/// character sequences.  Contracts of the detectors are stated over this.
pub open spec fn result_model(r: DetectionResult) -> (CipherType, u64, Seq<Seq<char>>) {
    (r.cipher_type, r.confidence, r.evidence.deep_view())
}

/// Model of a whole candidate list, element by element.
pub open spec fn results_model(s: Seq<DetectionResult>) -> Seq<(CipherType, u64, Seq<Seq<char>>)> {
    s.map_values(|r: DetectionResult| result_model(r))
}

/// Failure descriptions for callers that want to surface one; the engine
/// itself never fails, it degrades to an `Unknown` result instead.
#[derive(Clone, Debug, PartialEq, Eq)]
pub enum CipherError {
    InvalidInput(String),
    DetectionFailed(String),
    AnalysisError(String),
}

impl CipherError {
    /// Human-readable description, mirroring the variant and its detail.
    pub fn message(&self) -> (r: String)
        ensures
            r@ == match *self {
                CipherError::InvalidInput(ref s) => "Invalid input: "@ + s@,
                CipherError::DetectionFailed(ref s) => "Detection failed: "@ + s@,
                CipherError::AnalysisError(ref s) => "Analysis error: "@ + s@,
            },
    {
        match self {
            CipherError::InvalidInput(s) => String::from_str("Invalid input: ").concat(s.as_str()),
            CipherError::DetectionFailed(s) => String::from_str("Detection failed: ").concat(
                s.as_str(),
            ),
            CipherError::AnalysisError(s) => String::from_str("Analysis error: ").concat(
                s.as_str(),
            ),
        }
    }
}

} // verus!
