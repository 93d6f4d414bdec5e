//! SHA-256 digests and the tree depth that a key's digest gives.

use sha2::Digest;
use vstd::prelude::*;

verus! {

/// The SHA-256 digest of a byte string, as `sha2::Sha256` computes it.
pub uninterp spec fn sha256(data: Seq<u8>) -> Seq<u8>;

/// Calls `sha2::Sha256::digest` on `data`. The digest is a function of the
/// input bytes alone, and the hasher's output type fixes its length at 32.
#[verifier::external_body]
pub(crate) fn sha256_digest(data: &[u8]) -> (out: [u8; 32])
    ensures
        out@ == sha256(data@),
{
    sha2::Sha256::digest(data).into()
}

/// Number of leading zero bits of a single byte.
pub open spec fn byte_leading_zeros(b: u8) -> nat {
    if b >= 128 {
        0
    } else if b >= 64 {
        1
    } else if b >= 32 {
        2
    } else if b >= 16 {
        3
    } else if b >= 8 {
        4
    } else if b >= 4 {
        5
    } else if b >= 2 {
        6
    } else if b >= 1 {
        7
    } else {
        8
    }
}

/// Number of leading zero bits of `bytes`, counted from index `from`.
pub open spec fn leading_zero_bits_from(bytes: Seq<u8>, from: int) -> nat
    decreases bytes.len() - from,
{
    if from < 0 || from >= bytes.len() {
        0
    } else if bytes[from] == 0 {
        8 + leading_zero_bits_from(bytes, from + 1)
    } else {
        byte_leading_zeros(bytes[from])
    }
}

/// Number of leading zero bits of a byte string read most significant bit
/// first; a string of zero bytes counts all of its bits.
pub open spec fn leading_zero_bits(bytes: Seq<u8>) -> nat {
    leading_zero_bits_from(bytes, 0)
}

/// The depth of a key: half the number of leading zero bits of its SHA-256
/// digest, rounded down.
pub open spec fn key_depth(key: Seq<u8>) -> nat {
    leading_zero_bits(sha256(key)) / 2
}

fn count_byte_leading_zeros(b: u8) -> (n: u32)
    ensures
        n == byte_leading_zeros(b),
{
    if b >= 128 {
        0
    } else if b >= 64 {
        1
    } else if b >= 32 {
        2
    } else if b >= 16 {
        3
    } else if b >= 8 {
        4
    } else if b >= 4 {
        5
    } else if b >= 2 {
        6
    } else if b >= 1 {
        7
    } else {
        8
    }
}

/// Counts the leading zero bits of a 32-byte digest.
pub fn count_leading_zero_bits(digest: &[u8; 32]) -> (n: u32)
    ensures
        n == leading_zero_bits(digest@),
        n <= 256,
{
    let mut i: usize = 0;
    let mut n: u32 = 0;
    while i < 32
        invariant
            0 <= i <= 32,
            n == 8 * i,
            leading_zero_bits(digest@) == n + leading_zero_bits_from(digest@, i as int),
        decreases 32 - i,
    {
        let b: u8 = digest[i];
        if b != 0 {
            let m: u32 = count_byte_leading_zeros(b);
            return n + m;
        }
        n = n + 8;
        i = i + 1;
    }
    n
}

/// Computes the depth of `key` in a Merkle Search Tree.
pub fn compute_key_depth(key: &[u8]) -> (depth: u32)
    ensures
        depth == key_depth(key@),
        depth <= 128,
{
    let digest: [u8; 32] = sha256_digest(key);
    count_leading_zero_bits(&digest) / 2
}

} // verus!
