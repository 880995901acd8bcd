//! Run signatures: a run is identified by the SHA-256 digest of its
//! canonical encoding, written as lowercase hexadecimal.
use vstd::prelude::*;

use sha2::Digest;

verus! {

/// Version of the layout of written artifacts.
pub const ARTIFACT_SCHEMA_VERSION: &'static str = "2.0.0";

/// The SHA-256 digest of a byte string.
pub uninterp spec fn sha256_digest(bytes: Seq<u8>) -> Seq<u8>;

/// `sha2::Sha256::digest` (through `sha2::Digest`): the SHA-256 digest of
/// the bytes. Claimed: the result is the named digest of the input and has
/// the 32 bytes of SHA-256's output size.
#[verifier::external_body]
fn sha256(bytes: &[u8]) -> (digest: Vec<u8>)
    ensures
        digest@ == sha256_digest(bytes@),
        digest@.len() == 32,
{
    sha2::Sha256::digest(bytes).to_vec()
}

/// `String::from_utf8` on ASCII bytes: claimed to succeed and to hold one
/// character per byte, the character with that code.
#[verifier::external_body]
fn ascii_to_string(bytes: Vec<u8>) -> (text: String)
    requires
        forall|i: int| 0 <= i < bytes@.len() ==> #[trigger] bytes@[i] < 128,
    ensures
        text@ == Seq::new(bytes@.len(), |i: int| bytes@[i] as char),
{
    match String::from_utf8(bytes) {
        Ok(text) => text,
        Err(_) => String::new(),
    }
}

/// The lowercase hexadecimal digit for `v` (below 16).
pub open spec fn hex_digit(v: int) -> char {
    if v < 10 {
        (48 + v) as char
    } else {
        (87 + v) as char
    }
}

/// Two lowercase hexadecimal digits per byte, high nibble first.
pub open spec fn lower_hex(bytes: Seq<u8>) -> Seq<char> {
    Seq::new(
        2 * bytes.len(),
        |i: int|
            if i % 2 == 0 {
                hex_digit(bytes[i / 2] as int / 16)
            } else {
                hex_digit(bytes[i / 2] as int % 16)
            },
    )
}

fn hex_code(v: u8) -> (code: u8)
    requires
        v < 16,
    ensures
        code < 128,
        code as char == hex_digit(v as int),
{
    if v < 10 {
        48 + v
    } else {
        87 + v
    }
}

/// Lowercase hexadecimal of a digest.
pub fn signature_of_digest(digest: &[u8]) -> (signature: String)
    requires
        digest@.len() <= usize::MAX / 2,
    ensures
        signature@ == lower_hex(digest@),
{
    let n = digest.len();
    let mut codes: Vec<u8> = Vec::new();
    let mut k: usize = 0;
    while k < n
        invariant
            n == digest@.len(),
            n <= usize::MAX / 2,
            k <= n,
            codes@.len() == 2 * k,
            forall|i: int| 0 <= i < codes@.len() ==> #[trigger] codes@[i] < 128,
            forall|i: int| 0 <= i < codes@.len() ==> #[trigger] (codes@[i] as char) == lower_hex(digest@)[i],
        decreases n - k,
    {
        let b = digest[k];
        let high = hex_code(b / 16);
        let low = hex_code(b % 16);
        codes.push(high);
        codes.push(low);
        proof {
            assert((2 * k) / 2 == k && (2 * k) % 2 == 0) by (nonlinear_arith);
            assert((2 * k + 1) / 2 == k && (2 * k + 1) % 2 == 1) by (nonlinear_arith);
        }
        k = k + 1;
    }
    let text = ascii_to_string(codes);
    assert(text@ =~= lower_hex(digest@));
    text
}

/// The stable signature of a canonical encoding: its SHA-256 digest in
/// lowercase hexadecimal, 64 characters.
pub fn stable_signature(encoded: &[u8]) -> (signature: String)
    ensures
        signature@ == lower_hex(sha256_digest(encoded@)),
        signature@.len() == 64,
{
    let digest = sha256(encoded);
    signature_of_digest(digest.as_slice())
}

} // verus!
