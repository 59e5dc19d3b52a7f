//! Content hashing: the SHA-256 digest of an artifact's bytes, in the
//! Nix-specific base32 encoding.

use vstd::prelude::*;

verus! {

/// The SHA-256 digest of a byte sequence.  A function of the bytes alone;
/// its value is not spelled out here.
pub uninterp spec fn sha256_of(data: Seq<u8>) -> Seq<u8>;

/// The Nix-specific base32 rendering of a byte sequence.  A function of the
/// bytes alone; its value is not spelled out here.
pub uninterp spec fn nix_base32_of(data: Seq<u8>) -> Seq<char>;

/// Relies on `sha2::Sha256` (through the `digest::Digest` trait): the
/// SHA-256 digest of the given bytes, 32 bytes long, a function of the input
/// alone.
#[verifier::external_body]
fn sha256_digest(data: &[u8]) -> (r: Vec<u8>)
    ensures
        r@ == sha256_of(data@),
        r@.len() == 32,
{
    <sha2::Sha256 as sha2::Digest>::digest(data).to_vec()
}

/// Relies on `nix_base32::to_nix_base32`: the Nix base32 rendering of the
/// given bytes, one character per five bits, a function of the input alone.
/// The encoder underflows on no input, so the empty sequence is left out.
#[verifier::external_body]
fn nix_base32_encode(data: &[u8]) -> (r: String)
    requires
        data@.len() > 0,
    ensures
        r@ == nix_base32_of(data@),
        r@.len() == (data@.len() * 8 - 1) / 5 + 1,
{
    nix_base32::to_nix_base32(data)
}

/// The canonical content hash: SHA-256, rendered in Nix base32 (52
/// characters for the 32 digest bytes).
pub fn hash(data: &[u8]) -> (r: String)
    ensures
        r@ == nix_base32_of(sha256_of(data@)),
        r@.len() == 52,
{
    let digest = sha256_digest(data);
    nix_base32_encode(digest.as_slice())
}

} // verus!
