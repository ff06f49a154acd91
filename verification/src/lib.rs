//! Heuristic classification of opaque text fragments.
//!
//! Given an untrusted piece of text, the library guesses whether it is a
//! cryptographic hash digest, a data encoding, or the output of a classical
//! cipher.  Statistical measures (character frequency, index of coincidence)
//! and structural signatures (length, character set, padding) feed three
//! specialized detectors whose candidates are merged and ranked.  Every
//! answer is a best-effort hypothesis carried by a [`types::DetectionResult`]
//! with a fixed heuristic confidence and human-readable evidence lines.

pub mod cipher;
pub mod coincidence;
pub mod encoding;
pub mod frequency;
pub mod hash;
pub mod ranking;
pub mod signature;
pub mod text;
pub mod types;
pub mod universal;

use vstd::prelude::*;

verus! {

pub use crate::cipher::CipherDetector;
pub use crate::coincidence::CoincidenceIndex;
pub use crate::coincidence::IcRatio;
pub use crate::encoding::EncodingDetector;
pub use crate::frequency::FrequencyAnalysis;
pub use crate::hash::HashDetector;
pub use crate::signature::SignatureSearch;
pub use crate::types::CipherError;
pub use crate::types::CipherType;
pub use crate::types::ClassicalCipher;
pub use crate::types::DetectionResult;
pub use crate::types::EncodingType;
pub use crate::types::HashType;
pub use crate::universal::UniversalDetector;

} // verus!
