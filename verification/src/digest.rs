//! SHA-256 and Base64 through the `sha2` and `base64` crates, and the short
//! hexadecimal digest used to identify a system text.

use vstd::prelude::*;
use base64::Engine;
use sha2::Digest;
use crate::text::{hex, push_hex};

verus! {

/// The SHA-256 digest of `data` as computed by `sha2::Sha256`.
pub uninterp spec fn sha256(data: Seq<u8>) -> Seq<u8>;

/// Standard Base64 (with padding) of `data` as produced by
/// `base64::engine::general_purpose::STANDARD`, as bytes.
pub uninterp spec fn base64_standard(data: Seq<u8>) -> Seq<u8>;

/// `sha2::Sha256` over `data` (`new`, `update`, `finalize`). The contract
/// claims the 32-byte result is `sha256` of the input.
#[verifier::external_body]
pub fn sha256_digest(data: &[u8]) -> (r: [u8; 32])
    ensures
        r@ == sha256(data@),
{
    let mut hasher = sha2::Sha256::new();
    hasher.update(data);
    hasher.finalize().into()
}

/// Whether `STANDARD.encode` can size its output for `n` input bytes (it
/// panics on overflow of the encoded length).
pub open spec fn base64_len_ok(n: int) -> bool {
    n / 3 * 4 + (if n % 3 > 0 {
        4int
    } else {
        0
    }) <= usize::MAX
}

/// `base64::engine::general_purpose::STANDARD.encode`, as bytes. The
/// contract claims the result is `base64_standard` of the input.
#[verifier::external_body]
pub fn base64_encode(data: &[u8]) -> (r: Vec<u8>)
    requires
        base64_len_ok(data@.len() as int),
    ensures
        r@ == base64_standard(data@),
{
    base64::engine::general_purpose::STANDARD.encode(data).into_bytes()
}

/// First four bytes of the SHA-256 digest of `b`, in lower-case hex.
pub open spec fn sha8(b: Seq<u8>) -> Seq<u8> {
    hex(sha256(b).subrange(0, 4))
}

/// Eight lower-case hexadecimal digits identifying `b`.
pub fn sha256_8(b: &[u8]) -> (s: Vec<u8>)
    ensures
        s@ == sha8(b@),
{
    let out = sha256_digest(b);
    let mut s: Vec<u8> = Vec::with_capacity(8);
    push_hex(&mut s, &out.as_slice()[0..4]);
    s
}

} // verus!
