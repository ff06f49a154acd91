use ciphex::CipherDetector;
use ciphex::CipherError;
use ciphex::CipherType;
use ciphex::ClassicalCipher;
use ciphex::CoincidenceIndex;
use ciphex::DetectionResult;
use ciphex::EncodingDetector;
use ciphex::EncodingType;
use ciphex::FrequencyAnalysis;
use ciphex::HashDetector;
use ciphex::HashType;
use ciphex::SignatureSearch;
use ciphex::UniversalDetector;

// A text whose index of coincidence is 652/9900 ~ 0.0659: inside the
// English band (0.06, 0.08).
fn english_like() -> String {
    let mut s = String::new();
    for c in ["a", "b", "c", "d", "e", "f", "g"] {
        for _ in 0..10 {
            s.push_str(c);
        }
        s.push_str(" ");
    }
    for c in ["h", "i", "j", "k", "l", "m", "n", "o", "p", "q", "r"] {
        s.push_str(c);
        s.push_str(c);
        s.push_str(" ");
    }
    s.push_str("s t u v w x y z");
    s
}

#[test]
fn ic_of_empty_string_is_zero() {
    let ic = CoincidenceIndex::calculate("");
    assert_eq!(ic.num, 0);
    assert_eq!(ic.den, 1);
}

#[test]
fn ic_of_single_character_is_zero() {
    let ic = CoincidenceIndex::calculate("A");
    assert_eq!(ic.num, 0);
    assert_eq!(ic.den, 1);
    let ic2 = CoincidenceIndex::calculate("?");
    assert_eq!(ic2.num, 0);
    assert_eq!(ic2.den, 1);
}

#[test]
fn ic_is_case_blind_and_ignores_nonletters() {
    let a = CoincidenceIndex::calculate("AAAA");
    let b = CoincidenceIndex::calculate("aaaa");
    let c = CoincidenceIndex::calculate("A A A A");
    let d = CoincidenceIndex::calculate("a-A_a.A!");
    assert_eq!(a.num, 12);
    assert_eq!(a.den, 12);
    assert_eq!(a, b);
    assert_eq!(a, c);
    assert_eq!(a, d);
}

#[test]
fn ic_english_band() {
    assert!(CoincidenceIndex::is_likely_english(&english_like()));
    assert!(!CoincidenceIndex::is_likely_english("abcdefghij"));
    assert!(!CoincidenceIndex::is_likely_english("aaaa"));
}

#[test]
fn ic_random_band() {
    assert!(CoincidenceIndex::is_likely_random("abcdefghij"));
    assert!(CoincidenceIndex::is_likely_random(""));
    assert!(!CoincidenceIndex::is_likely_random("aaaa"));
}

#[test]
fn hash_length_lookup_by_length() {
    assert_eq!(
        SignatureSearch::check_hash_length("5d41402abc4b2a76b9719d911017c592"),
        Some(vec![HashType::MD5])
    );
    let forty = "0123456789012345678901234567890123456789";
    assert_eq!(
        SignatureSearch::check_hash_length(forty),
        Some(vec![HashType::SHA1, HashType::RIPEMD160])
    );
    let sixty_four = "0123456789abcdef".repeat(4);
    assert_eq!(
        SignatureSearch::check_hash_length(&sixty_four),
        Some(vec![HashType::SHA256, HashType::SHA3_256, HashType::BLAKE2s])
    );
    assert_eq!(SignatureSearch::check_hash_length("abcdef"), None);
    assert_eq!(
        SignatureSearch::check_hash_length("zz41402abc4b2a76b9719d911017c592"),
        None
    );
}

#[test]
fn base64_signature_checks_length_charset_padding() {
    assert!(SignatureSearch::check_base64_signature("SGVsbG8gV29ybGQ=".trim()));
    assert!(SignatureSearch::check_base64_signature("ab=="));
    assert!(!SignatureSearch::check_base64_signature("abc"));
    assert!(!SignatureSearch::check_base64_signature("a==="));
    assert!(!SignatureSearch::check_base64_signature("ab c"));
}

#[test]
fn binary_and_morse_signatures() {
    assert!(SignatureSearch::check_binary_signature("01001000 01101001"));
    assert!(!SignatureSearch::check_binary_signature("0120"));
    assert!(SignatureSearch::check_morse_signature(".... . .-.. / .--"));
    assert!(!SignatureSearch::check_morse_signature(".-x"));
}

#[test]
fn frequency_most_common_is_stable() {
    let freq = FrequencyAnalysis::new("hello");
    assert_eq!(freq.most_common_chars(2), vec![('l', 2), ('h', 1)]);
    assert_eq!(
        freq.most_common_chars(10),
        vec![('l', 2), ('h', 1), ('e', 1), ('o', 1)]
    );
    assert_eq!(freq.most_common_chars(0), vec![]);
}

#[test]
fn frequency_charset_queries() {
    assert!(FrequencyAnalysis::new("DEADbeef123").is_hex_only());
    assert!(!FrequencyAnalysis::new("DEADbeefg").is_hex_only());
    assert!(FrequencyAnalysis::new("abc+/=123").is_base64_charset());
    assert!(!FrequencyAnalysis::new("abc!").is_base64_charset());
    assert!(FrequencyAnalysis::new("").is_hex_only());
}

#[test]
fn md5_digest_is_detected() {
    let r = HashDetector::detect("5d41402abc4b2a76b9719d911017c592").unwrap();
    assert_eq!(r.cipher_type, CipherType::Hash(HashType::MD5));
    assert_eq!(r.confidence, 95);
    assert_eq!(
        r.evidence,
        vec![
            "Matches MD5 length".to_string(),
            "Hexadecimal characters only".to_string()
        ]
    );
}

#[test]
fn hash_detect_trims_whitespace() {
    let r = HashDetector::detect("  5d41402abc4b2a76b9719d911017c592\n").unwrap();
    assert_eq!(r.cipher_type, CipherType::Hash(HashType::MD5));
}

#[test]
fn hash_detect_declines_bad_input() {
    assert!(HashDetector::detect("zz41402abc4b2a76b9719d911017c592").is_none());
    assert!(HashDetector::detect("abcdef").is_none());
    assert!(HashDetector::detect("").is_none());
}

#[test]
fn forty_hex_chars_yield_two_ranked_candidates() {
    let forty = "0123456789012345678901234567890123456789";
    let all = HashDetector::detect_all(forty);
    assert_eq!(all.len(), 2);
    assert_eq!(all[0].cipher_type, CipherType::Hash(HashType::SHA1));
    assert_eq!(all[0].confidence, 90);
    assert_eq!(all[1].cipher_type, CipherType::Hash(HashType::RIPEMD160));
    assert_eq!(all[1].confidence, 85);
    assert_eq!(all[0].evidence[0], "Matches SHA1 length (40)".to_string());
    assert_eq!(all[1].evidence[0], "Matches RIPEMD160 length (40)".to_string());
}

#[test]
fn sha512_family_ties_keep_candidate_order() {
    let s = "0123456789abcdef".repeat(8);
    let all = HashDetector::detect_all(&s);
    let kinds: Vec<CipherType> = all.iter().map(|r| r.cipher_type).collect();
    assert_eq!(
        kinds,
        vec![
            CipherType::Hash(HashType::SHA512),
            CipherType::Hash(HashType::SHA3_512),
            CipherType::Hash(HashType::Whirlpool),
            CipherType::Hash(HashType::BLAKE2b),
        ]
    );
    let confs: Vec<u64> = all.iter().map(|r| r.confidence).collect();
    assert_eq!(confs, vec![85, 80, 80, 75]);
}

#[test]
fn base64_encoding_is_detected() {
    let r = EncodingDetector::detect("SGVsbG8gV29ybGQ=").unwrap();
    assert_eq!(r.cipher_type, CipherType::Encoding(EncodingType::Base64));
    assert_eq!(r.confidence, 90);
    assert_eq!(
        r.evidence,
        vec![
            "Valid Base64 character set".to_string(),
            "Correct padding".to_string()
        ]
    );
}

#[test]
fn binary_encoding_is_detected() {
    let r = EncodingDetector::detect("01001000 01101001").unwrap();
    assert_eq!(r.cipher_type, CipherType::Encoding(EncodingType::Binary));
    assert_eq!(r.confidence, 90);
    assert_eq!(r.evidence, vec!["Binary characters only".to_string()]);
}

#[test]
fn even_length_hex_is_detected_when_base64_declines() {
    let r = EncodingDetector::detect("deadbeef12").unwrap();
    assert_eq!(r.cipher_type, CipherType::Encoding(EncodingType::Hex));
    assert_eq!(r.confidence, 85);
}

#[test]
fn length_not_multiple_of_four_is_never_base64() {
    assert!(EncodingDetector::detect("SGVsbG8gV29ybGQ").is_none());
    let r = EncodingDetector::detect("deadbeef12");
    assert_ne!(
        r.unwrap().cipher_type,
        CipherType::Encoding(EncodingType::Base64)
    );
}

#[test]
fn morse_encoding_is_detected() {
    let r = EncodingDetector::detect(".... . .-.. / .--").unwrap();
    assert_eq!(r.cipher_type, CipherType::Encoding(EncodingType::Morse));
    assert_eq!(r.confidence, 85);
    assert_eq!(r.evidence, vec!["Morse code characters detected".to_string()]);
}

#[test]
fn english_like_text_reads_as_caesar_class() {
    let r = CipherDetector::detect(&english_like()).unwrap();
    assert_eq!(r.cipher_type, CipherType::Cipher(ClassicalCipher::Caesar));
    assert_eq!(r.confidence, 70);
    assert_eq!(r.evidence[0], "Index of Coincidence: 652/9900".to_string());
    assert_eq!(r.evidence[1], "IC similar to natural language".to_string());
}

#[test]
fn boundary_index_reads_as_substitution() {
    // 25 letters with pair sum 36: the index is exactly 36/600 = 0.06,
    // outside the strict English band but inside the substitution band.
    let r = CipherDetector::detect("aaaa bbbb ccc dd ee ff g h i j k l m n").unwrap();
    assert_eq!(
        r.cipher_type,
        CipherType::Cipher(ClassicalCipher::Substitution)
    );
    assert_eq!(r.confidence, 65);
    assert_eq!(r.evidence[0], "Index of Coincidence: 36/600".to_string());
    assert_eq!(r.evidence[1], "Possible substitution cipher".to_string());
}

#[test]
fn cipher_detector_declines_non_alphabetic_and_flat_text() {
    assert!(CipherDetector::detect("abc123").is_none());
    assert!(CipherDetector::detect("abcdefghij").is_none());
}

#[test]
fn universal_priority_hash_wins() {
    let r = UniversalDetector::detect("5d41402abc4b2a76b9719d911017c592");
    assert_eq!(r.cipher_type, CipherType::Hash(HashType::MD5));
    assert_eq!(r.confidence, 95);
}

#[test]
fn universal_falls_through_to_encoding() {
    let r = UniversalDetector::detect("SGVsbG8gV29ybGQ=");
    assert_eq!(r.cipher_type, CipherType::Encoding(EncodingType::Base64));
    assert_eq!(r.confidence, 90);
}

#[test]
fn universal_falls_through_to_cipher() {
    let r = UniversalDetector::detect(&english_like());
    assert_eq!(r.cipher_type, CipherType::Cipher(ClassicalCipher::Caesar));
    assert_eq!(r.confidence, 70);
}

#[test]
fn unrecognizable_input_is_unknown() {
    let r = UniversalDetector::detect("\u{1F389}\u{1F389}\u{1F389}");
    assert_eq!(r.cipher_type, CipherType::Unknown);
    assert_eq!(r.confidence, 0);
    assert_eq!(r.evidence, vec!["No pattern matched".to_string()]);
}

#[test]
fn detect_all_is_nonempty_and_sorted() {
    let s = "0123456789abcdef".repeat(4);
    let all = UniversalDetector::detect_all(&s);
    assert!(!all.is_empty());
    for w in all.windows(2) {
        assert!(w[0].confidence >= w[1].confidence);
    }
    // Hash candidates come first among ties: SHA256 (90) before Base64 (90).
    assert_eq!(all[0].cipher_type, CipherType::Hash(HashType::SHA256));
    assert_eq!(all[1].cipher_type, CipherType::Encoding(EncodingType::Base64));
    assert_eq!(all.len(), 4);
}

#[test]
fn detect_all_on_unrecognizable_input_is_single_unknown() {
    let all = UniversalDetector::detect_all("\u{1F389}\u{1F389}\u{1F389}");
    assert_eq!(all.len(), 1);
    assert_eq!(all[0].cipher_type, CipherType::Unknown);
    assert_eq!(all[0].confidence, 0);
    assert_eq!(all[0].evidence, vec!["No pattern matched".to_string()]);
}

#[test]
fn evidence_keeps_insertion_order() {
    let mut r = DetectionResult::new(CipherType::Unknown, 50)
        .with_evidence("first".to_string())
        .with_evidence("second".to_string());
    r.add_evidence("third".to_string());
    assert_eq!(
        r.evidence,
        vec!["first".to_string(), "second".to_string(), "third".to_string()]
    );
    assert_eq!(r.confidence, 50);
    assert_eq!(r.cipher_type, CipherType::Unknown);
}

#[test]
fn error_messages_name_the_variant() {
    assert_eq!(
        CipherError::InvalidInput("x".to_string()).message(),
        "Invalid input: x".to_string()
    );
    assert_eq!(
        CipherError::DetectionFailed("y".to_string()).message(),
        "Detection failed: y".to_string()
    );
    assert_eq!(
        CipherError::AnalysisError("z".to_string()).message(),
        "Analysis error: z".to_string()
    );
}
