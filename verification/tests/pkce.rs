use ghidra_mcp::pkce::{
    derive_challenge, encode_digest, is_unreserved, match_challenge, validate_verifier, verify,
    PkceError, METHOD_S256, VERIFIER_MAX_LEN, VERIFIER_MIN_LEN,
};

/// The worked example of RFC 7636, Appendix B.
#[test]
fn rfc7636_appendix_b_vector() {
    let verifier = "dBjftJeZ4CVP-mB92K27uhbUJU1p1r_wW1gFWFOEjXk";
    let expected = "E9Melhoa2OwvFrEMTJguCHaoeK1t8URWbuGJSstw-cM";
    assert_eq!(derive_challenge(verifier), expected);
    assert_eq!(verify(Some(expected), METHOD_S256, verifier), Ok(()));
}

#[test]
fn a_wrong_verifier_is_rejected() {
    let good = "dBjftJeZ4CVP-mB92K27uhbUJU1p1r_wW1gFWFOEjXk";
    let bad = "dBjftJeZ4CVP-mB92K27uhbUJU1p1r_wW1gFWFOEjXA";
    let challenge = derive_challenge(good);
    assert!(validate_verifier(good).is_ok());
    assert!(validate_verifier(bad).is_ok());
    assert_eq!(
        verify(Some(&challenge), METHOD_S256, bad),
        Err(PkceError::Mismatch)
    );
}

#[test]
fn plain_method_is_refused_even_when_it_would_match() {
    let verifier = "dBjftJeZ4CVP-mB92K27uhbUJU1p1r_wW1gFWFOEjXk";
    assert_eq!(
        verify(Some(verifier), "plain", verifier),
        Err(PkceError::UnsupportedMethod("plain".into()))
    );
}

#[test]
fn a_code_issued_without_a_challenge_cannot_be_redeemed() {
    let verifier = "dBjftJeZ4CVP-mB92K27uhbUJU1p1r_wW1gFWFOEjXk";
    assert_eq!(
        verify(None, METHOD_S256, verifier),
        Err(PkceError::ChallengeMissing)
    );
}

#[test]
fn verifier_length_bounds_are_enforced_two_sided() {
    let short = "a".repeat(VERIFIER_MIN_LEN - 1);
    let min = "a".repeat(VERIFIER_MIN_LEN);
    let max = "a".repeat(VERIFIER_MAX_LEN);
    let long = "a".repeat(VERIFIER_MAX_LEN + 1);
    assert_eq!(
        validate_verifier(&short),
        Err(PkceError::VerifierLength(VERIFIER_MIN_LEN - 1))
    );
    assert!(validate_verifier(&min).is_ok(), "43 is legal");
    assert!(validate_verifier(&max).is_ok(), "128 is legal");
    assert_eq!(
        validate_verifier(&long),
        Err(PkceError::VerifierLength(VERIFIER_MAX_LEN + 1))
    );
}

#[test]
fn charset_is_enforced_and_the_unreserved_set_is_admitted() {
    let ok = format!("-._~{}", "a".repeat(VERIFIER_MIN_LEN - 4));
    assert!(validate_verifier(&ok).is_ok());
    let bad = format!("+/{}", "a".repeat(VERIFIER_MIN_LEN - 2));
    assert_eq!(validate_verifier(&bad), Err(PkceError::VerifierCharset));
}

#[test]
fn challenge_encoding_is_unpadded_base64url() {
    let c = derive_challenge("dBjftJeZ4CVP-mB92K27uhbUJU1p1r_wW1gFWFOEjXk");
    assert!(!c.contains('='), "padding must not be emitted");
    assert!(!c.contains('+') && !c.contains('/'), "must be url-safe");
    assert_eq!(c.len(), 43);
}

#[test]
fn the_constants_are_those_of_rfc_7636() {
    assert_eq!(METHOD_S256, "S256");
    assert_eq!(VERIFIER_MIN_LEN, 43);
    assert_eq!(VERIFIER_MAX_LEN, 128);
}

#[test]
fn the_unreserved_set_has_sixty_six_bytes() {
    let set: Vec<u8> = (0..=255u8).filter(|b| is_unreserved(*b)).collect();
    assert_eq!(
        String::from_utf8(set).unwrap(),
        "-.0123456789ABCDEFGHIJKLMNOPQRSTUVWXYZ_abcdefghijklmnopqrstuvwxyz~"
    );
}

#[test]
fn a_verifier_is_measured_in_bytes() {
    // 22 characters of two bytes each.
    let wide = "\u{e9}".repeat(22);
    assert_eq!(validate_verifier(&wide), Err(PkceError::VerifierCharset));
    let short = "\u{e9}".repeat(21);
    assert_eq!(validate_verifier(&short), Err(PkceError::VerifierLength(42)));
}

#[test]
fn the_checks_come_in_their_order() {
    // Everything is wrong: the method is named first, then the missing challenge,
    // then the verifier's length, then its characters.
    assert_eq!(
        verify(None, "s256", "+"),
        Err(PkceError::UnsupportedMethod("s256".into()))
    );
    assert_eq!(verify(None, "S256", "+"), Err(PkceError::ChallengeMissing));
    assert_eq!(
        verify(Some("c"), "S256", "+"),
        Err(PkceError::VerifierLength(1))
    );
    let bad = "+".repeat(50);
    assert_eq!(
        verify(Some("c"), "S256", &bad),
        Err(PkceError::VerifierCharset)
    );
}

#[test]
fn a_malformed_verifier_is_reported_as_malformed_even_with_its_own_challenge() {
    let bad = "+".repeat(50);
    let challenge = derive_challenge(&bad);
    assert_eq!(
        verify(Some(&challenge), METHOD_S256, &bad),
        Err(PkceError::VerifierCharset)
    );
}

#[test]
fn a_padded_challenge_does_not_match() {
    let verifier = "a".repeat(43);
    let padded = format!("{}=", derive_challenge(&verifier));
    assert_eq!(
        verify(Some(&padded), METHOD_S256, &verifier),
        Err(PkceError::Mismatch)
    );
}

#[test]
fn digests_are_encoded_as_rfc_4648_says() {
    assert_eq!(encode_digest(b""), "");
    assert_eq!(encode_digest(b"f"), "Zg");
    assert_eq!(encode_digest(b"fo"), "Zm8");
    assert_eq!(encode_digest(b"foo"), "Zm9v");
    assert_eq!(encode_digest(b"foob"), "Zm9vYg");
    assert_eq!(encode_digest(&[0xfb, 0xff, 0xbf]), "-_-_");
}

#[test]
fn challenges_match_only_as_a_whole() {
    assert_eq!(match_challenge("abc", "abc"), Ok(()));
    assert_eq!(match_challenge("abc", "abd"), Err(PkceError::Mismatch));
    assert_eq!(match_challenge("abc", "ab"), Err(PkceError::Mismatch));
}
