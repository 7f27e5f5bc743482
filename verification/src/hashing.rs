//! Content hashing.
//!
//! A file's content hash is `"sha256:"` followed by the lowercase hex
//! encoding of the SHA-256 digest of its bytes.

use vstd::prelude::*;
use crate::names::{lit_sha256_prefix, vec_sha256_prefix};

verus! {

/// The SHA-256 digest of a byte sequence.
pub uninterp spec fn sha256_of(data: Seq<u8>) -> Seq<u8>;

/// Relies on `sha2::Sha256` (through `sha2::Digest::digest`): the digest
/// is a function of the input bytes alone and is 32 bytes long.
#[verifier::external_body]
pub fn sha256(data: &Vec<u8>) -> (r: Vec<u8>)
    ensures
        r@ == sha256_of(data@),
        r@.len() == 32,
{
    <sha2::Sha256 as sha2::Digest>::digest(data.as_slice()).to_vec()
}

/// The lowercase hex digit of a value below 16.
pub open spec fn hex_digit(v: u8) -> u8 {
    if v < 10 {
        (v + ('0' as u8)) as u8
    } else {
        ((v - 10) + ('a' as u8)) as u8
    }
}

/// Lowercase hex encoding: two digits per byte, in input order.
pub open spec fn hex_encoding(data: Seq<u8>) -> Seq<u8>
    decreases data.len(),
{
    if data.len() == 0 {
        Seq::<u8>::empty()
    } else {
        hex_encoding(data.drop_last()) + seq![
            hex_digit(data.last() / 16),
            hex_digit(data.last() % 16),
        ]
    }
}

/// Relies on `hex::encode`: it returns the lowercase hex encoding of the
/// input bytes, two digits per byte, in order.
#[verifier::external_body]
pub fn hex_lower(data: &Vec<u8>) -> (r: Vec<u8>)
    ensures
        r@ == hex_encoding(data@),
{
    hex::encode(data.as_slice()).into_bytes()
}

/// What the content hash of a file with bytes `data` is.
pub open spec fn file_hash_spec(data: Seq<u8>) -> Seq<u8> {
    lit_sha256_prefix() + hex_encoding(sha256_of(data))
}

/// Computes the content hash string, `"sha256:"` + lowercase hex of the
/// SHA-256 digest of `content`.
pub fn compute_file_hash(content: &Vec<u8>) -> (r: Vec<u8>)
    ensures
        r@ == file_hash_spec(content@),
{
    let digest = sha256(content);
    let hexed = hex_lower(&digest);
    let mut out = vec_sha256_prefix();
    let mut i: usize = 0;
    proof {
        assert(out@ =~= lit_sha256_prefix() + hexed@.take(0));
    }
    while i < hexed.len()
        invariant
            i <= hexed.len(),
            out@ == lit_sha256_prefix() + hexed@.take(i as int),
        decreases hexed.len() - i,
    {
        out.push(hexed[i]);
        proof {
            assert(lit_sha256_prefix() + hexed@.take(i + 1) =~= (lit_sha256_prefix()
                + hexed@.take(i as int)).push(hexed@[i as int]));
        }
        i = i + 1;
    }
    proof {
        assert(hexed@.take(hexed@.len() as int) =~= hexed@);
        assert(out@ == file_hash_spec(content@));
    }
    out
}

} // verus!
