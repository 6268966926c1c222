use vstd::prelude::*;
use vstd::string::StrSliceExecFns;

verus! {

/// The SHA-256 digest of `data`, as `sha2` computes it.
pub uninterp spec fn sha256_digest(data: Seq<u8>) -> Seq<u8>;

/// The bytes that the standard base64 alphabet, with padding, decodes `text`
/// into, or `None` where `base64` rejects the text.
pub uninterp spec fn base64_standard_decoding(text: Seq<char>) -> Option<Seq<u8>>;

/// Whether `key` is the compressed encoding of a point on the Ed25519 curve,
/// as `ed25519_dalek::VerifyingKey::from_bytes` decides it.
pub uninterp spec fn ed25519_public_key_decodes(key: Seq<u8>) -> bool;

/// Whether `ed25519_dalek` accepts `signature` as a signature of `message`
/// under the public key `key`.
pub uninterp spec fn ed25519_signature_accepted(
    key: Seq<u8>,
    message: Seq<u8>,
    signature: Seq<u8>,
) -> bool;

/// Calls `sha2::Sha256::digest`.  Trusted: the digest returned is
/// `sha256_digest` of the input, and a SHA-256 digest has 32 bytes.
#[verifier::external_body]
pub(crate) fn sha256(data: &[u8]) -> (digest: Vec<u8>)
    ensures
        digest@ == sha256_digest(data@),
        digest@.len() == 32,
{
    <sha2::Sha256 as sha2::Digest>::digest(data).to_vec()
}

/// Calls `base64::Engine::decode` on the standard, padded engine.  Trusted:
/// the outcome is `base64_standard_decoding` of the text.
#[verifier::external_body]
pub(crate) fn decode_base64_standard(text: &str) -> (decoded: Option<Vec<u8>>)
    ensures
        match decoded {
            Some(bytes) => base64_standard_decoding(text@) == Some(bytes@),
            None => base64_standard_decoding(text@) is None,
        },
{
    match base64::Engine::decode(&base64::engine::general_purpose::STANDARD, text) {
        Ok(bytes) => Some(bytes),
        Err(_) => None,
    }
}

/// Calls `ed25519_dalek::VerifyingKey::from_bytes`.  Trusted: it succeeds
/// exactly when `ed25519_public_key_decodes` holds of the key bytes.
#[verifier::external_body]
pub(crate) fn ed25519_key_decodes(key: &[u8; 32]) -> (decodes: bool)
    ensures
        decodes == ed25519_public_key_decodes(key@),
{
    ed25519_dalek::VerifyingKey::from_bytes(key).is_ok()
}

/// Calls `ed25519_dalek::Signature::from_slice`.  Trusted, as its
/// documentation states: it accepts exactly the slices of 64 bytes, and the
/// signature it builds holds those bytes.
#[verifier::external_body]
pub(crate) fn ed25519_signature_from_slice(bytes: &[u8]) -> (signature: Option<[u8; 64]>)
    ensures
        signature is Some <==> bytes@.len() == 64,
        signature matches Some(s) ==> s@ == bytes@,
{
    match ed25519_dalek::Signature::from_slice(bytes) {
        Ok(signature) => Some(signature.to_bytes()),
        Err(_) => None,
    }
}

/// Decodes `key` with `ed25519_dalek::VerifyingKey::from_bytes` and checks
/// `signature` over `message` with `ed25519_dalek::Verifier::verify`.
/// Trusted: the answer is `ed25519_signature_accepted` of the three byte
/// strings; a key that does not decode accepts nothing.
#[verifier::external_body]
pub(crate) fn ed25519_verify(key: &[u8; 32], message: &[u8], signature: &[u8; 64]) -> (accepted:
    bool)
    ensures
        accepted == ed25519_signature_accepted(key@, message@, signature@),
{
    match ed25519_dalek::VerifyingKey::from_bytes(key) {
        Ok(verifying_key) => ed25519_dalek::Verifier::verify(
            &verifying_key,
            message,
            &ed25519_dalek::Signature::from_bytes(signature),
        ).is_ok(),
        Err(_) => false,
    }
}

/// The lower-case hexadecimal digit for `nibble` (which is below 16).
pub open spec fn hex_digit(nibble: int) -> char {
    if nibble < 10 {
        (48 + nibble) as char
    } else {
        (87 + nibble) as char
    }
}

/// Lower-case hexadecimal spelling of `bytes`, two digits per byte, high nibble first.
pub open spec fn lower_hex(bytes: Seq<u8>) -> Seq<char> {
    Seq::new(
        2 * bytes.len(),
        |i: int|
            if i % 2 == 0 {
                hex_digit(bytes[i / 2] as int / 16)
            } else {
                hex_digit(bytes[i / 2] as int % 16)
            },
    )
}

/// Whether `text` is the lower-case hexadecimal spelling of `bytes`.
pub fn matches_lower_hex(bytes: &[u8], text: &str) -> (matches: bool)
    ensures
        matches == (text@ == lower_hex(bytes@)),
{
    if !text.is_ascii() {
        proof {
            if text@ == lower_hex(bytes@) {
                assert(vstd::utf8::is_ascii_chars(text@)) by {
                    assert forall|i: int| 0 <= i < text@.len() implies '\0' <= #[trigger] text@[i]
                        <= '\u{7f}' by {
                        assert(text@[i] == lower_hex(bytes@)[i]);
                    }
                }
            }
        }
        return false;
    }
    let count = text.unicode_len();
    if bytes.len() > usize::MAX / 2 || count != 2 * bytes.len() {
        return false;
    }
    let mut index: usize = 0;
    while index < count
        invariant
            count == text@.len(),
            count == 2 * bytes@.len(),
            text.is_ascii(),
            index <= count,
            forall|j: int| 0 <= j < index ==> text@[j] == #[trigger] lower_hex(bytes@)[j],
        decreases count - index,
    {
        let byte = bytes[index / 2];
        let nibble: u8 = if index % 2 == 0 {
            byte / 16
        } else {
            byte % 16
        };
        let digit: u8 = if nibble < 10 {
            48 + nibble
        } else {
            87 + nibble
        };
        let actual = text.get_ascii(index);
        assert(digit as char == lower_hex(bytes@)[index as int]);
        if actual != digit {
            assert(text@[index as int] != lower_hex(bytes@)[index as int]);
            return false;
        }
        index = index + 1;
    }
    assert(text@ =~= lower_hex(bytes@));
    true
}

} // verus!
