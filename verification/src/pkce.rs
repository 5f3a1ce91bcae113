//! PKCE: Proof Key for Code Exchange (RFC 7636), S256 only.
//!
//! An MCP client is a public client: it cannot keep a secret, so the proof key
//! is the only thing that binds an authorization code to the party that asked
//! for it. `plain` is a legal method in RFC 7636 and is refused here: under it
//! the challenge is the verifier, and a server that accepts it lets an attacker
//! downgrade by asking.

use base64::Engine;
use sha2::{Digest, Sha256};
use subtle::ConstantTimeEq;
use vstd::prelude::*;
use vstd::utf8::encode_utf8;

use crate::text::same_text;

verus! {

/// The only challenge method that is accepted.
pub const METHOD_S256: &'static str = "S256";

/// RFC 7636 section 4.1: a verifier has at least this many characters.
pub const VERIFIER_MIN_LEN: usize = 43;

/// RFC 7636 section 4.1: a verifier has at most this many characters.
pub const VERIFIER_MAX_LEN: usize = 128;

/// Why a proof was refused.
#[derive(Debug, PartialEq, Eq)]
pub enum PkceError {
    /// The challenge method is not S256; the method as it was given.
    UnsupportedMethod(String),
    /// The verifier's length in bytes is outside 43..=128.
    VerifierLength(usize),
    /// The verifier holds a character outside the unreserved set.
    VerifierCharset,
    /// The verifier does not hash to the challenge.
    Mismatch,
    /// The authorization code was issued without a challenge.
    ChallengeMissing,
}

/// What a [`PkceError`] says, as a mathematical value.
pub enum Refusal {
    UnsupportedMethod(Seq<char>),
    VerifierLength(nat),
    VerifierCharset,
    Mismatch,
    ChallengeMissing,
}

impl View for PkceError {
    type V = Refusal;

    open spec fn view(&self) -> Refusal {
        match *self {
            PkceError::UnsupportedMethod(method) => Refusal::UnsupportedMethod(method@),
            PkceError::VerifierLength(n) => Refusal::VerifierLength(n as nat),
            PkceError::VerifierCharset => Refusal::VerifierCharset,
            PkceError::Mismatch => Refusal::Mismatch,
            PkceError::ChallengeMissing => Refusal::ChallengeMissing,
        }
    }
}

/// A check's result, with the error taken by its view.
pub open spec fn verdict_of(r: Result<(), PkceError>) -> Result<(), Refusal> {
    match r {
        Ok(()) => Ok(()),
        Err(e) => Err(e@),
    }
}

/// The unreserved set of RFC 7636 section 4.1: `ALPHA / DIGIT / "-" / "." / "_" / "~"`.
pub open spec fn unreserved(c: char) -> bool {
    ||| 'A' <= c <= 'Z'
    ||| 'a' <= c <= 'z'
    ||| '0' <= c <= '9'
    ||| c == '-'
    ||| c == '.'
    ||| c == '_'
    ||| c == '~'
}

/// What is wrong with a verifier of these bytes: its length is judged before its
/// characters.
pub open spec fn verifier_verdict(bytes: Seq<u8>) -> Result<(), Refusal> {
    if !(VERIFIER_MIN_LEN <= bytes.len() <= VERIFIER_MAX_LEN) {
        Err(Refusal::VerifierLength(bytes.len()))
    } else if !(forall|i: int| 0 <= i < bytes.len() ==> unreserved(#[trigger] bytes[i] as char)) {
        Err(Refusal::VerifierCharset)
    } else {
        Ok(())
    }
}

/// The SHA-256 digest of `data` (FIPS 180-4), as the `sha2` crate computes it.
pub uninterp spec fn sha256(data: Seq<u8>) -> Seq<u8>;

/// The byte at `i`, or zero behind the end.
pub open spec fn byte_or_zero(bytes: Seq<u8>, i: int) -> int {
    if 0 <= i < bytes.len() {
        bytes[i] as int
    } else {
        0
    }
}

/// The `i`-th group of six bits of `bytes`, the first byte's high bits first;
/// behind the last byte stand zero bits.
pub open spec fn sextet(bytes: Seq<u8>, i: int) -> int {
    let b0 = byte_or_zero(bytes, i / 4 * 3);
    let b1 = byte_or_zero(bytes, i / 4 * 3 + 1);
    let b2 = byte_or_zero(bytes, i / 4 * 3 + 2);
    if i % 4 == 0 {
        b0 / 4
    } else if i % 4 == 1 {
        (b0 % 4) * 16 + b1 / 16
    } else if i % 4 == 2 {
        (b1 % 16) * 4 + b2 / 64
    } else {
        b2 % 64
    }
}

/// The character for six bits in the URL-safe alphabet (RFC 4648 section 5).
pub open spec fn url_safe_symbol(v: int) -> char {
    if v < 26 {
        (0x41 + v) as char
    } else if v < 52 {
        (0x61 + v - 26) as char
    } else if v < 62 {
        (0x30 + v - 52) as char
    } else if v == 62 {
        '-'
    } else {
        '_'
    }
}

/// How many characters encode `n` bytes without padding.
pub open spec fn unpadded_len(n: nat) -> nat {
    (n * 4 + 2) / 3
}

/// Base64 over the URL-safe alphabet without padding (RFC 4648 section 5).
pub open spec fn base64url(bytes: Seq<u8>) -> Seq<char> {
    Seq::new(unpadded_len(bytes.len()), |i: int| url_safe_symbol(sextet(bytes, i)))
}

/// The S256 challenge for a verifier:
/// `BASE64URL-ENCODE(SHA256(ASCII(verifier)))`, without padding.
pub open spec fn challenge(verifier: Seq<char>) -> Seq<char> {
    base64url(sha256(encode_utf8(verifier)))
}

/// The six bits that a character of the URL-safe alphabet stands for; -1 for every
/// other character.
pub open spec fn six_bits(c: char) -> int {
    if 'A' <= c <= 'Z' {
        c as int - 'A' as int
    } else if 'a' <= c <= 'z' {
        c as int - 'a' as int + 26
    } else if '0' <= c <= '9' {
        c as int - '0' as int + 52
    } else if c == '-' {
        62
    } else if c == '_' {
        63
    } else {
        -1
    }
}

/// The byte at `j` of what a text of the URL-safe alphabet decodes to: it lies in
/// two of the groups of six bits.
pub open spec fn decoded_byte(text: Seq<char>, j: int) -> int {
    let high = six_bits(text[j / 3 * 4 + j % 3]);
    let low = six_bits(text[j / 3 * 4 + j % 3 + 1]);
    if j % 3 == 0 {
        high * 4 + low / 16
    } else if j % 3 == 1 {
        (high % 16) * 16 + low / 4
    } else {
        (high % 4) * 64 + low
    }
}

/// The text decodes to these bytes, as unpadded base64 over the URL-safe alphabet:
/// no character more than they take, and zero bits behind the last one.
pub open spec fn decodes_to(text: Seq<char>, bytes: Seq<u8>) -> bool {
    &&& text.len() == bytes.len() + (bytes.len() + 2) / 3
    &&& forall|k: int| 0 <= k < text.len() ==> 0 <= six_bits(#[trigger] text[k])
    &&& forall|j: int| 0 <= j < bytes.len() ==> #[trigger] bytes[j] == decoded_byte(text, j)
    &&& bytes.len() % 3 == 1 ==> six_bits(text.last()) % 16 == 0
    &&& bytes.len() % 3 == 2 ==> six_bits(text.last()) % 4 == 0
}

/// What a presented verifier is answered: the method is judged first, then the
/// stored challenge's presence, then the verifier's form, then the match.
pub open spec fn proof_verdict(
    stored_challenge: Option<Seq<char>>,
    method: Seq<char>,
    verifier: Seq<char>,
) -> Result<(), Refusal> {
    if method != METHOD_S256@ {
        Err(Refusal::UnsupportedMethod(method))
    } else if stored_challenge is None {
        Err(Refusal::ChallengeMissing)
    } else if verifier_verdict(encode_utf8(verifier)) is Err {
        verifier_verdict(encode_utf8(verifier))
    } else if challenge(verifier) != stored_challenge->0 {
        Err(Refusal::Mismatch)
    } else {
        Ok(())
    }
}

/// `sha2::Sha256::digest`: the digest is a function of the bytes alone and has
/// 32 of them. Which bytes it holds is left to the name [`sha256`].
#[verifier::external_body]
fn sha256_digest(data: &[u8]) -> (digest: Vec<u8>)
    ensures
        digest@ == sha256(data@),
        digest@.len() == 32,
{
    Sha256::digest(data).to_vec()
}

/// `base64::Engine::encode` with the engine `URL_SAFE_NO_PAD`: the characters of
/// the URL-safe alphabet for the input's groups of six bits, and no padding. The
/// crate panics where the encoded length does not fit in a `usize`.
#[verifier::external_body]
fn base64_encode(bytes: &[u8]) -> (encoded: String)
    requires
        unpadded_len(bytes@.len()) <= usize::MAX,
    ensures
        encoded@ == base64url(bytes@),
{
    base64::engine::general_purpose::URL_SAFE_NO_PAD.encode(bytes)
}

/// `subtle::ConstantTimeEq::ct_eq` on byte slices, made a `bool`: whether the
/// slices are equal. That the time it takes does not depend on the contents of
/// slices of one length is not stated.
#[verifier::external_body]
fn constant_time_eq(a: &[u8], b: &[u8]) -> (equal: bool)
    ensures
        equal == (a@ == b@),
{
    a.ct_eq(b).into()
}

/// Whether a byte is in the unreserved set of RFC 7636 section 4.1.
#[inline]
pub fn is_unreserved(b: u8) -> (yes: bool)
    ensures
        yes == unreserved(b as char),
        yes <==> ({
            let c = b as char;
            ('A' <= c <= 'Z') || ('a' <= c <= 'z') || ('0' <= c <= '9') || c == '-' || c == '.' || c
                == '_' || c == '~'
        }),
{
    let c = b as char;
    ('A' <= c && c <= 'Z') || ('a' <= c && c <= 'z') || ('0' <= c && c <= '9') || matches!(
        c,
        '-' | '.' | '_' | '~'
    )
}

/// Validate a `code_verifier` against RFC 7636 section 4.1 before it is used.
///
/// Length and charset are checked first and apart from the hash comparison, so
/// that a malformed verifier is refused as malformed.
pub fn validate_verifier(verifier: &str) -> (r: Result<(), PkceError>)
    ensures
        verdict_of(r) == verifier_verdict(encode_utf8(verifier@)),
        r is Ok <==> 43 <= verifier@.len() <= 128 && forall|i: int|
            0 <= i < verifier@.len() ==> unreserved(#[trigger] verifier@[i]),
        r matches Err(PkceError::VerifierLength(n)) ==> {
            &&& n == encode_utf8(verifier@).len()
            &&& !(43 <= n <= 128)
        },
        r matches Err(e) ==> e is VerifierLength || e is VerifierCharset,
        r matches Err(PkceError::VerifierCharset) ==> {
            &&& 43 <= encode_utf8(verifier@).len() <= 128
            &&& exists|i: int| 0 <= i < verifier@.len() && !unreserved(#[trigger] verifier@[i])
        },
{
    proof {
        law_well_formed_verifier(verifier@);
    }
    let bytes = verifier.as_bytes();
    let n: usize = bytes.len();
    if n < VERIFIER_MIN_LEN || n > VERIFIER_MAX_LEN {
        return Err(PkceError::VerifierLength(n));
    }
    let mut i: usize = 0;
    while i < n
        invariant
            bytes@ == encode_utf8(verifier@),
            n == bytes@.len(),
            VERIFIER_MIN_LEN <= n <= VERIFIER_MAX_LEN,
            i <= n,
            forall|j: int| 0 <= j < i ==> unreserved(#[trigger] bytes@[j] as char),
        decreases n - i,
    {
        if !is_unreserved(bytes[i]) {
            proof {
                law_well_formed_verifier(verifier@);
                assert(!unreserved(bytes@[i as int] as char));
                if forall|i: int| 0 <= i < verifier@.len() ==> unreserved(#[trigger] verifier@[i]) {
                    assert(vstd::utf8::is_ascii_chars(verifier@));
                    vstd::utf8::is_ascii_chars_encode_utf8(verifier@);
                }
            }
            return Err(PkceError::VerifierCharset);
        }
        i = i + 1;
    }
    Ok(())
}

/// The challenge for a digest: its unpadded URL-safe base64.
pub fn encode_digest(digest: &[u8]) -> (encoded: String)
    requires
        unpadded_len(digest@.len()) <= usize::MAX,
    ensures
        encoded@ == base64url(digest@),
        decodes_to(encoded@, digest@),
{
    proof {
        law_encoding_decodes_to_the_bytes(digest@);
    }
    base64_encode(digest)
}

/// Derive the S256 challenge for a verifier.
///
/// The unpadded encoding is required: RFC 7636 section 4.2 specifies it, and a
/// padded challenge never matches a conforming client's.
pub fn derive_challenge(verifier: &str) -> (derived: String)
    ensures
        derived@ == challenge(verifier@),
        derived@.len() == 43,
        decodes_to(derived@, sha256(encode_utf8(verifier@))),
        sha256(encode_utf8(verifier@)).len() == 32,
{
    let digest = sha256_digest(verifier.as_bytes());
    encode_digest(digest.as_slice())
}

/// Compare a derived challenge with the stored one, in constant time.
pub fn match_challenge(derived: &str, expected: &str) -> (r: Result<(), PkceError>)
    ensures
        verdict_of(r) == (if derived@ == expected@ {
            Ok::<(), Refusal>(())
        } else {
            Err(Refusal::Mismatch)
        }),
        r is Ok <==> derived@ == expected@,
        r is Err ==> r == Err::<(), PkceError>(PkceError::Mismatch),
{
    if constant_time_eq(derived.as_bytes(), expected.as_bytes()) {
        proof {
            crate::text::lemma_utf8_injective(derived@, expected@);
        }
        Ok(())
    } else {
        Err(PkceError::Mismatch)
    }
}

/// The views of an optional text.
pub open spec fn text_of(stored: Option<&str>) -> Option<Seq<char>> {
    match stored {
        Some(s) => Some(s@),
        None => None,
    }
}

/// Verify a presented `code_verifier` against the `code_challenge` recorded when
/// the authorization code was issued.
///
/// A missing challenge is an error and no pass: a server that takes it for "no
/// proof needed" lets an attacker leave the challenge out and skip the proof.
pub fn verify(stored_challenge: Option<&str>, method: &str, verifier: &str) -> (r: Result<
    (),
    PkceError,
>)
    ensures
        verdict_of(r) == proof_verdict(text_of(stored_challenge), method@, verifier@),
        r is Ok <==> {
            &&& method@ == "S256"@
            &&& 43 <= verifier@.len() <= 128
            &&& forall|i: int| 0 <= i < verifier@.len() ==> unreserved(#[trigger] verifier@[i])
            &&& stored_challenge is Some
            &&& decodes_to(stored_challenge->0@, sha256(encode_utf8(verifier@)))
        },
        method@ != "S256"@ <==> (r matches Err(PkceError::UnsupportedMethod(m)) && m@ == method@),
        method@ == "S256"@ && stored_challenge is None <==> r == Err::<(), PkceError>(
            PkceError::ChallengeMissing,
        ),
        r matches Err(PkceError::VerifierLength(n)) ==> {
            &&& n == encode_utf8(verifier@).len()
            &&& !(43 <= n <= 128)
        },
        r matches Err(PkceError::VerifierCharset) ==> {
            &&& 43 <= encode_utf8(verifier@).len() <= 128
            &&& exists|i: int| 0 <= i < verifier@.len() && !unreserved(#[trigger] verifier@[i])
        },
        r matches Err(PkceError::Mismatch) ==> {
            &&& 43 <= verifier@.len() <= 128
            &&& forall|i: int| 0 <= i < verifier@.len() ==> unreserved(#[trigger] verifier@[i])
        },
{
    if !same_text(method, METHOD_S256) {
        return Err(PkceError::UnsupportedMethod(method.to_owned()));
    }
    let expected = match stored_challenge {
        Some(expected) => expected,
        None => {
            return Err(PkceError::ChallengeMissing);
        },
    };
    match validate_verifier(verifier) {
        Ok(()) => {},
        Err(e) => {
            return Err(e);
        },
    }
    let derived = derive_challenge(verifier);
    proof {
        if decodes_to(expected@, sha256(encode_utf8(verifier@))) {
            law_decoding_is_unambiguous(expected@, derived@, sha256(encode_utf8(verifier@)));
        }
    }
    match_challenge(derived.as_str(), expected)
}

/// The proof succeeds exactly for the method S256, a stored challenge, a
/// well-formed verifier, and a challenge that is the verifier's own. Every other
/// method is refused, `plain` among them, and so is a missing challenge.
pub proof fn law_acceptance(
    stored_challenge: Option<Seq<char>>,
    method: Seq<char>,
    verifier: Seq<char>,
)
    ensures
        proof_verdict(stored_challenge, method, verifier) is Ok <==> {
            &&& method == METHOD_S256@
            &&& verifier_verdict(encode_utf8(verifier)) is Ok
            &&& stored_challenge == Some(challenge(verifier))
        },
{
}

/// A well-formed verifier proves the challenge that was derived from it.
pub proof fn law_own_challenge_is_proved(verifier: Seq<char>)
    requires
        verifier_verdict(encode_utf8(verifier)) is Ok,
    ensures
        proof_verdict(Some(challenge(verifier)), METHOD_S256@, verifier) == Ok::<(), Refusal>(()),
{
}

/// A malformed verifier is refused as malformed, whatever challenge is stored.
pub proof fn law_malformed_verifier_is_reported_as_malformed(
    stored_challenge: Seq<char>,
    verifier: Seq<char>,
)
    requires
        verifier_verdict(encode_utf8(verifier)) is Err,
    ensures
        proof_verdict(Some(stored_challenge), METHOD_S256@, verifier) == verifier_verdict(
            encode_utf8(verifier),
        ),
{
}

/// Another well-formed verifier proves a verifier's challenge only if both have
/// the same SHA-256 digest.
pub proof fn law_only_the_digest_is_proved(verifier: Seq<char>, presented: Seq<char>)
    requires
        verifier_verdict(encode_utf8(presented)) is Ok,
    ensures
        proof_verdict(Some(challenge(verifier)), METHOD_S256@, presented) == (if sha256(
            encode_utf8(verifier),
        ) == sha256(encode_utf8(presented)) {
            Ok::<(), Refusal>(())
        } else {
            Err(Refusal::Mismatch)
        }),
{
    if challenge(verifier) == challenge(presented) {
        law_encoding_is_injective(
            sha256(encode_utf8(verifier)),
            sha256(encode_utf8(presented)),
        );
    }
}

/// Every character of a challenge is a letter, a digit, `-` or `_`: neither the
/// padding `=` nor `+` or `/` occurs.
pub proof fn law_challenge_is_url_safe(verifier: Seq<char>, i: int)
    requires
        0 <= i < challenge(verifier).len(),
    ensures
        ({
            let c = challenge(verifier)[i];
            ('A' <= c <= 'Z') || ('a' <= c <= 'z') || ('0' <= c <= '9') || c == '-' || c == '_'
        }),
        challenge(verifier)[i] != '=',
        challenge(verifier)[i] != '+',
        challenge(verifier)[i] != '/',
{
    lemma_sextet_range(sha256(encode_utf8(verifier)), i);
}

/// A verifier is well formed exactly if it has 43 to 128 characters, all of them
/// in the unreserved set.
pub proof fn law_well_formed_verifier(verifier: Seq<char>)
    ensures
        verifier_verdict(encode_utf8(verifier)) is Ok <==> {
            &&& VERIFIER_MIN_LEN <= verifier.len() <= VERIFIER_MAX_LEN
            &&& forall|i: int| 0 <= i < verifier.len() ==> unreserved(#[trigger] verifier[i])
        },
{
    let bytes = encode_utf8(verifier);
    if forall|i: int| 0 <= i < verifier.len() ==> unreserved(#[trigger] verifier[i]) {
        assert(vstd::utf8::is_ascii_chars(verifier));
        vstd::utf8::is_ascii_chars_encode_utf8(verifier);
        assert forall|i: int| 0 <= i < bytes.len() implies unreserved(
            #[trigger] bytes[i] as char,
        ) by {
            assert(unreserved(verifier[i]));
        }
    }
    if forall|i: int| 0 <= i < bytes.len() ==> unreserved(#[trigger] bytes[i] as char) {
        lemma_ascii_bytes_ascii_chars(verifier);
        vstd::utf8::is_ascii_chars_encode_utf8(verifier);
        assert forall|i: int| 0 <= i < verifier.len() implies unreserved(
            #[trigger] verifier[i],
        ) by {
            assert(unreserved(bytes[i] as char));
        }
    }
}

/// Different bytes have different encodings.
pub proof fn law_encoding_is_injective(a: Seq<u8>, b: Seq<u8>)
    requires
        base64url(a) == base64url(b),
    ensures
        a == b,
{
    assert(base64url(a).len() == unpadded_len(a.len()));
    assert(base64url(b).len() == unpadded_len(b.len()));
    assert(a.len() == b.len());
    assert forall|j: int| 0 <= j < a.len() implies a[j] == b[j] by {
        let k = j / 3 * 4 + j % 3;
        assert(0 <= k && k + 1 < unpadded_len(a.len()));
        lemma_same_sextet(a, b, k);
        lemma_same_sextet(a, b, k + 1);
        lemma_byte_from_sextets(a, j);
        lemma_byte_from_sextets(b, j);
    }
    assert(a =~= b);
}

/// What was encoded is decoded again, for bytes of every length: the encoding has
/// no character more than it takes, all are of the URL-safe alphabet, and each byte
/// stands in the two characters that it touches.
pub proof fn law_encoding_decodes_to_the_bytes(bytes: Seq<u8>)
    ensures
        decodes_to(base64url(bytes), bytes),
{
    let text = base64url(bytes);
    assert(unpadded_len(bytes.len()) == bytes.len() + (bytes.len() + 2) / 3);
    assert forall|k: int| 0 <= k < text.len() implies 0 <= six_bits(#[trigger] text[k]) by {
        lemma_encoded_character(bytes, k);
    }
    assert forall|j: int| 0 <= j < bytes.len() implies #[trigger] bytes[j] == decoded_byte(
        text,
        j,
    ) by {
        lemma_encoded_byte(bytes, j);
    }
    if bytes.len() % 3 != 0 {
        lemma_encoded_end(bytes);
    }
}

/// No two texts decode to the same bytes: a challenge has one spelling.
pub proof fn law_decoding_is_unambiguous(a: Seq<char>, b: Seq<char>, bytes: Seq<u8>)
    requires
        decodes_to(a, bytes),
        decodes_to(b, bytes),
    ensures
        a == b,
{
    assert forall|k: int| 0 <= k < a.len() implies a[k] == b[k] by {
        lemma_decoded_sextet(a, bytes, k);
        lemma_decoded_sextet(b, bytes, k);
    }
    assert(a =~= b);
}

/// The six bits for a character are its place in the alphabet of RFC 4648 section
/// 5, and every other character has none.
pub proof fn law_six_bits_are_the_place_in_the_alphabet(c: char, i: int)
    ensures
        "ABCDEFGHIJKLMNOPQRSTUVWXYZabcdefghijklmnopqrstuvwxyz0123456789-_"@.len() == 64,
        0 <= i < 64
            && "ABCDEFGHIJKLMNOPQRSTUVWXYZabcdefghijklmnopqrstuvwxyz0123456789-_"@[i] == c <==> i
            >= 0 && six_bits(c) == i,
{
    reveal_strlit("ABCDEFGHIJKLMNOPQRSTUVWXYZabcdefghijklmnopqrstuvwxyz0123456789-_");
}

/// The challenge decodes to the SHA-256 digest of the verifier's bytes, byte for
/// byte.
pub proof fn law_challenge_decodes_to_the_digest(verifier: Seq<char>)
    ensures
        challenge(verifier).len() == sha256(encode_utf8(verifier)).len() + (sha256(
            encode_utf8(verifier),
        ).len() + 2) / 3,
        forall|j: int|
            #![trigger sha256(encode_utf8(verifier))[j]]
            0 <= j < sha256(encode_utf8(verifier)).len() ==> {
                let high = six_bits(challenge(verifier)[j / 3 * 4 + j % 3]);
                let low = six_bits(challenge(verifier)[j / 3 * 4 + j % 3 + 1]);
                &&& 0 <= high < 64
                &&& 0 <= low < 64
                &&& sha256(encode_utf8(verifier))[j] == if j % 3 == 0 {
                    high * 4 + low / 16
                } else if j % 3 == 1 {
                    (high % 16) * 16 + low / 4
                } else {
                    (high % 4) * 64 + low
                }
            },
{
    let digest = sha256(encode_utf8(verifier));
    law_encoding_decodes_to_the_bytes(digest);
    assert forall|j: int| 0 <= j < digest.len() implies {
        let high = six_bits(challenge(verifier)[j / 3 * 4 + j % 3]);
        let low = six_bits(challenge(verifier)[j / 3 * 4 + j % 3 + 1]);
        &&& 0 <= high < 64
        &&& 0 <= low < 64
        &&& #[trigger] digest[j] == if j % 3 == 0 {
            high * 4 + low / 16
        } else if j % 3 == 1 {
            (high % 16) * 16 + low / 4
        } else {
            (high % 4) * 64 + low
        }
    } by {
        let k = j / 3 * 4 + j % 3;
        assert(0 <= k && k + 1 < challenge(verifier).len());
        assert(digest[j] == decoded_byte(challenge(verifier), j));
        assert(0 <= six_bits(challenge(verifier)[k]));
        assert(0 <= six_bits(challenge(verifier)[k + 1]));
    }
}

/// The unreserved characters are the sixty-six of RFC 7636 section 4.1.
pub proof fn law_unreserved_characters(c: char)
    ensures
        unreserved(c)
            <==> "ABCDEFGHIJKLMNOPQRSTUVWXYZabcdefghijklmnopqrstuvwxyz0123456789-._~"@.contains(c),
{
    reveal_strlit("ABCDEFGHIJKLMNOPQRSTUVWXYZabcdefghijklmnopqrstuvwxyz0123456789-._~");
    let all = "ABCDEFGHIJKLMNOPQRSTUVWXYZabcdefghijklmnopqrstuvwxyz0123456789-._~"@;
    if unreserved(c) {
        let i = if 'A' <= c <= 'Z' {
            c as int - 'A' as int
        } else if 'a' <= c <= 'z' {
            c as int - 'a' as int + 26
        } else if '0' <= c <= '9' {
            c as int - '0' as int + 52
        } else if c == '-' {
            62
        } else if c == '.' {
            63
        } else if c == '_' {
            64
        } else {
            65
        };
        assert(all[i] == c);
    }
}

/// A proof is accepted exactly for the method `S256`, a verifier of 43 to 128
/// unreserved characters, and a stored challenge that decodes to the SHA-256 digest
/// of the verifier's bytes.
pub proof fn law_accepted_proof_holds_the_digest(
    stored_challenge: Option<Seq<char>>,
    method: Seq<char>,
    verifier: Seq<char>,
)
    ensures
        proof_verdict(stored_challenge, method, verifier) is Ok <==> {
            &&& method == "S256"@
            &&& 43 <= verifier.len() <= 128
            &&& forall|i: int| 0 <= i < verifier.len() ==> unreserved(#[trigger] verifier[i])
            &&& stored_challenge is Some
            &&& decodes_to(stored_challenge->0, sha256(encode_utf8(verifier)))
        },
{
    let digest = sha256(encode_utf8(verifier));
    law_well_formed_verifier(verifier);
    law_encoding_decodes_to_the_bytes(digest);
    if stored_challenge is Some && decodes_to(stored_challenge->0, digest) {
        law_decoding_is_unambiguous(stored_challenge->0, base64url(digest), digest);
    }
}

/// Every refusal has its one reason, and the reasons are judged in this order: the
/// method, the presence of a challenge, the verifier's length, its characters, and
/// the digest.
pub proof fn law_refusals(
    stored_challenge: Option<Seq<char>>,
    method: Seq<char>,
    verifier: Seq<char>,
)
    ensures
        ({
            let r = proof_verdict(stored_challenge, method, verifier);
            let bytes = encode_utf8(verifier);
            let accepted_method = method == "S256"@;
            let fits = 43 <= bytes.len() <= 128;
            let plain = forall|i: int|
                0 <= i < verifier.len() ==> unreserved(#[trigger] verifier[i]);
            &&& !accepted_method ==> r == Err::<(), Refusal>(Refusal::UnsupportedMethod(method))
            &&& accepted_method && stored_challenge is None ==> r == Err::<(), Refusal>(
                Refusal::ChallengeMissing,
            )
            &&& accepted_method && stored_challenge is Some && !fits ==> r == Err::<(), Refusal>(
                Refusal::VerifierLength(bytes.len()),
            )
            &&& accepted_method && stored_challenge is Some && fits && !plain ==> r == Err::<
                (),
                Refusal,
            >(Refusal::VerifierCharset)
            &&& accepted_method && stored_challenge is Some && fits && plain && !decodes_to(
                stored_challenge->0,
                sha256(bytes),
            ) ==> r == Err::<(), Refusal>(Refusal::Mismatch)
        }),
{
    let bytes = encode_utf8(verifier);
    law_well_formed_verifier(verifier);
    law_accepted_proof_holds_the_digest(stored_challenge, method, verifier);
    if forall|i: int| 0 <= i < verifier.len() ==> unreserved(#[trigger] verifier[i]) {
        assert(vstd::utf8::is_ascii_chars(verifier));
        vstd::utf8::is_ascii_chars_encode_utf8(verifier);
    }
}

/// Errors with one view say the same, to the last character.
pub proof fn law_view_of_an_error_is_whole(a: PkceError, b: PkceError)
    requires
        a@ == b@,
    ensures
        a is VerifierCharset <==> b is VerifierCharset,
        a is Mismatch <==> b is Mismatch,
        a is ChallengeMissing <==> b is ChallengeMissing,
        a matches PkceError::UnsupportedMethod(m) ==> (b matches PkceError::UnsupportedMethod(n)
            && m@ == n@),
        a matches PkceError::VerifierLength(m) ==> b == PkceError::VerifierLength(m),
{
}

/// Where two encodings agree, so do the six bits behind them.
proof fn lemma_same_sextet(a: Seq<u8>, b: Seq<u8>, i: int)
    requires
        base64url(a) == base64url(b),
        0 <= i < unpadded_len(a.len()),
    ensures
        sextet(a, i) == sextet(b, i),
{
    lemma_sextet_range(a, i);
    lemma_sextet_range(b, i);
    assert(base64url(a)[i] == url_safe_symbol(sextet(a, i)));
    assert(base64url(a).len() == unpadded_len(a.len()));
    assert(base64url(b).len() == unpadded_len(b.len()));
    assert(base64url(b)[i] == url_safe_symbol(sextet(b, i)));
}

proof fn lemma_sextet_range(bytes: Seq<u8>, i: int)
    ensures
        0 <= sextet(bytes, i) < 64,
{
}

proof fn lemma_six_bits_of_symbol(v: int)
    requires
        0 <= v < 64,
    ensures
        six_bits(url_safe_symbol(v)) == v,
{
}

/// A character of an encoding stands for its group of six bits.
proof fn lemma_encoded_character(bytes: Seq<u8>, k: int)
    requires
        0 <= k < unpadded_len(bytes.len()),
    ensures
        six_bits(base64url(bytes)[k]) == sextet(bytes, k),
        0 <= sextet(bytes, k) < 64,
{
    lemma_sextet_range(bytes, k);
    lemma_six_bits_of_symbol(sextet(bytes, k));
    assert(base64url(bytes)[k] == url_safe_symbol(sextet(bytes, k)));
}

proof fn lemma_encoded_byte(bytes: Seq<u8>, j: int)
    requires
        0 <= j < bytes.len(),
    ensures
        bytes[j] == decoded_byte(base64url(bytes), j),
{
    let k = j / 3 * 4 + j % 3;
    assert(0 <= k && k + 1 < unpadded_len(bytes.len()));
    lemma_encoded_character(bytes, k);
    lemma_encoded_character(bytes, k + 1);
    lemma_byte_from_sextets(bytes, j);
}

/// Behind the last byte of an encoding stand zero bits.
proof fn lemma_encoded_end(bytes: Seq<u8>)
    requires
        bytes.len() % 3 != 0,
    ensures
        bytes.len() % 3 == 1 ==> six_bits(base64url(bytes).last()) % 16 == 0,
        bytes.len() % 3 == 2 ==> six_bits(base64url(bytes).last()) % 4 == 0,
{
    let g = bytes.len() as int / 3;
    let r = bytes.len() as int % 3;
    let last = g * 4 + r;
    assert(bytes.len() == g * 3 + r);
    assert(unpadded_len(bytes.len()) == last + 1);
    lemma_encoded_character(bytes, last);
    lemma_sextet_place(bytes, g, r);
    assert(base64url(bytes).last() == base64url(bytes)[last]);
}

/// The group of six bits at place `r` of the group `g` of four.
proof fn lemma_sextet_place(bytes: Seq<u8>, g: int, r: int)
    requires
        0 <= g,
        0 <= r < 4,
    ensures
        ({
            let b0 = byte_or_zero(bytes, g * 3);
            let b1 = byte_or_zero(bytes, g * 3 + 1);
            let b2 = byte_or_zero(bytes, g * 3 + 2);
            sextet(bytes, g * 4 + r) == if r == 0 {
                b0 / 4
            } else if r == 1 {
                (b0 % 4) * 16 + b1 / 16
            } else if r == 2 {
                (b1 % 16) * 4 + b2 / 64
            } else {
                b2 % 64
            }
        }),
{
    assert((g * 4 + r) / 4 == g && (g * 4 + r) % 4 == r);
}

/// What a text decodes to fixes the six bits of each of its characters.
proof fn lemma_decoded_sextet(text: Seq<char>, bytes: Seq<u8>, k: int)
    requires
        decodes_to(text, bytes),
        0 <= k < text.len(),
    ensures
        six_bits(text[k]) == sextet(bytes, k),
        url_safe_symbol(six_bits(text[k])) == text[k],
{
    let g = k / 4;
    let r = k % 4;
    let n = bytes.len() as int;
    assert(k == g * 4 + r);
    lemma_symbol_of_six_bits(text[k]);
    lemma_sextet_place(bytes, g, r);
    lemma_length(n, g, r);
    if r == 0 {
        lemma_decoded_place(text, bytes, g, 0);
        lemma_high_bits(six_bits(text[k]), six_bits(text[k + 1]));
    } else if r == 3 {
        lemma_decoded_place(text, bytes, g, 2);
        lemma_low_bits(six_bits(text[k - 1]), six_bits(text[k]));
    } else {
        let before = six_bits(text[k - 1]);
        let here = six_bits(text[k]);
        lemma_decoded_place(text, bytes, g, r - 1);
        if g * 3 + r < n {
            lemma_decoded_place(text, bytes, g, r);
            lemma_middle_bits(before, here, six_bits(text[k + 1]));
        } else {
            assert(n == g * 3 + r);
            assert(n % 3 == r && (n + 2) / 3 == g + 1);
            assert(k == text.len() - 1);
            lemma_middle_bits(before, here, 0);
        }
    }
}

proof fn lemma_high_bits(high: int, low: int)
    requires
        0 <= high < 64,
        0 <= low < 64,
    ensures
        (high * 4 + low / 16) / 4 == high,
{
}

proof fn lemma_low_bits(high: int, low: int)
    requires
        0 <= high < 64,
        0 <= low < 64,
    ensures
        ((high % 4) * 64 + low) % 64 == low,
{
}

/// Six bits in the middle of a group are those that two bytes share.
proof fn lemma_middle_bits(before: int, here: int, after: int)
    requires
        0 <= before < 64,
        0 <= here < 64,
        0 <= after < 64,
    ensures
        here == ((before * 4 + here / 16) % 4) * 16 + ((here % 16) * 16 + after / 4) / 16,
        here % 16 == 0 ==> here == ((before * 4 + here / 16) % 4) * 16,
        here == (((before % 16) * 16 + here / 4) % 16) * 4 + ((here % 4) * 64 + after) / 64,
        here % 4 == 0 ==> here == (((before % 16) * 16 + here / 4) % 16) * 4,
{
    lemma_split(before, here / 16, 4);
    lemma_split(here % 16, after / 4, 16);
    lemma_split(before % 16, here / 4, 16);
    lemma_split(here % 4, after, 64);
    assert(here == here / 16 * 16 + here % 16);
    assert(here == here / 4 * 4 + here % 4);
}

proof fn lemma_split(q: int, r: int, d: int)
    requires
        d == 4 || d == 16 || d == 64,
        0 <= r < d,
        0 <= q,
    ensures
        (q * d + r) / d == q,
        (q * d + r) % d == r,
{
    if d == 4 {
        assert((q * 4 + r) / 4 == q && (q * 4 + r) % 4 == r);
    } else if d == 16 {
        assert((q * 16 + r) / 16 == q && (q * 16 + r) % 16 == r);
    } else {
        assert((q * 64 + r) / 64 == q && (q * 64 + r) % 64 == r);
    }
}

/// A place in a text of the right length lies in a byte that there is.
proof fn lemma_length(n: int, g: int, r: int)
    requires
        0 <= n,
        0 <= g,
        0 <= r < 4,
        g * 4 + r < n + (n + 2) / 3,
    ensures
        g * 3 + (if r == 0 {
            0
        } else {
            r - 1
        }) < n,
{
}

proof fn lemma_symbol_of_six_bits(c: char)
    requires
        0 <= six_bits(c),
    ensures
        url_safe_symbol(six_bits(c)) == c,
        six_bits(c) < 64,
{
}

/// The byte at place `r` of the group `g`.
proof fn lemma_decoded_place(text: Seq<char>, bytes: Seq<u8>, g: int, r: int)
    requires
        decodes_to(text, bytes),
        0 <= g,
        0 <= r < 3,
        g * 3 + r < bytes.len(),
    ensures
        g * 4 + r + 1 < text.len(),
        0 <= six_bits(text[g * 4 + r]) < 64,
        0 <= six_bits(text[g * 4 + r + 1]) < 64,
        ({
            let high = six_bits(text[g * 4 + r]);
            let low = six_bits(text[g * 4 + r + 1]);
            bytes[g * 3 + r] == if r == 0 {
                high * 4 + low / 16
            } else if r == 1 {
                (high % 16) * 16 + low / 4
            } else {
                (high % 4) * 64 + low
            }
        }),
{
    let j = g * 3 + r;
    assert(j / 3 == g && j % 3 == r);
    assert(0 <= six_bits(text[g * 4 + r]));
    assert(0 <= six_bits(text[g * 4 + r + 1]));
    assert(bytes[j] == decoded_byte(text, j));
}

/// A byte is put together from the two groups of six bits that it touches.
proof fn lemma_byte_from_sextets(bytes: Seq<u8>, j: int)
    requires
        0 <= j < bytes.len(),
    ensures
        ({
            let k = j / 3 * 4 + j % 3;
            let high = sextet(bytes, k);
            let low = sextet(bytes, k + 1);
            bytes[j] == if j % 3 == 0 {
                high * 4 + low / 16
            } else if j % 3 == 1 {
                (high % 16) * 16 + low / 4
            } else {
                (high % 4) * 64 + low
            }
        }),
{
    let g = j / 3;
    let k = g * 4 + j % 3;
    assert(k / 4 == g && k % 4 == j % 3);
    assert((k + 1) / 4 == g && (k + 1) % 4 == j % 3 + 1);
    assert(j == g * 3 + j % 3);
}

/// A text whose bytes are all in the unreserved set is ASCII.
proof fn lemma_ascii_bytes_ascii_chars(chars: Seq<char>)
    requires
        forall|i: int|
            0 <= i < encode_utf8(chars).len() ==> unreserved(
                #[trigger] encode_utf8(chars)[i] as char,
            ),
    ensures
        vstd::utf8::is_ascii_chars(chars),
    decreases chars.len(),
{
    if chars.len() > 0 {
        let first = vstd::utf8::encode_scalar(chars[0] as u32);
        let rest = encode_utf8(chars.drop_first());
        assert(encode_utf8(chars) == first + rest);
        assert forall|i: int| 0 <= i < rest.len() implies unreserved(
            #[trigger] rest[i] as char,
        ) by {
            assert(encode_utf8(chars)[first.len() + i] == rest[i]);
        }
        lemma_ascii_bytes_ascii_chars(chars.drop_first());
        assert(encode_utf8(chars)[0] == first[0]);
        assert(unreserved(first[0] as char));
        let scalar = chars[0] as u32;
        vstd::utf8::char_u32_cast(chars[0], scalar);
        if scalar > 0x7f {
            let b2 = ((scalar >> 6) & 0x1f) as u8;
            let b3 = ((scalar >> 12) & 0x0f) as u8;
            let b4 = ((scalar >> 18) & 0x7) as u8;
            assert((0xc0 | b2) >= 0xc0 && (0xe0 | b3) >= 0xc0 && (0xf0 | b4) >= 0xc0) by (bit_vector);
            assert(false);
        }
        assert forall|i: int| 0 <= i < chars.len() implies '\0' <= #[trigger] chars[i]
            <= '\u{7f}' by {
            if i > 0 {
                assert(chars[i] == chars.drop_first()[i - 1]);
            }
        }
    }
}

} // verus!
