//! The hash capability: the digest algorithms the scheme can be instantiated
//! with, and the bridge from verified code to their implementations.

use vstd::prelude::*;
use crypto::digest::Digest;
use crate::blocks::blocks_view;
use crate::blocks::blocks_wf;

verus! {

/// A supported digest algorithm.  All key material derived from an algorithm
/// is dimensioned by its output size: `bit_length` preimages per preimage
/// family, each `byte_length` bytes long.
#[derive(Clone, Copy, Debug, PartialEq, Eq, Structural)]
pub enum HashAlg {
    Sha256,
    Sha512,
}

impl HashAlg {
    /// Number of bytes in a digest produced by this algorithm.
    pub open spec fn spec_byte_length(self) -> nat {
        match self {
            HashAlg::Sha256 => 32,
            HashAlg::Sha512 => 64,
        }
    }

    /// Number of bits in a digest produced by this algorithm.
    pub open spec fn spec_bit_length(self) -> nat {
        8 * self.spec_byte_length()
    }

    /// Number of bytes in a digest produced by this algorithm.
    pub fn byte_length(&self) -> (n: usize)
        ensures
            n == self.spec_byte_length(),
    {
        match self {
            HashAlg::Sha256 => 32,
            HashAlg::Sha512 => 64,
        }
    }

    /// Number of bits in a digest produced by this algorithm.
    pub fn bit_length(&self) -> (n: usize)
        ensures
            n == self.spec_bit_length(),
    {
        match self {
            HashAlg::Sha256 => 256,
            HashAlg::Sha512 => 512,
        }
    }
}

/// The SHA-256 digest of a byte sequence, named but not written out.
pub uninterp spec fn sha256_of(data: Seq<u8>) -> Seq<u8>;

/// The SHA-512 digest of a byte sequence, named but not written out.
pub uninterp spec fn sha512_of(data: Seq<u8>) -> Seq<u8>;

/// The digest of `data` under `alg`.
pub open spec fn digest_of(alg: HashAlg, data: Seq<u8>) -> Seq<u8> {
    match alg {
        HashAlg::Sha256 => sha256_of(data),
        HashAlg::Sha512 => sha512_of(data),
    }
}

/// Each block replaced by its digest under `alg`.
pub open spec fn hashed_blocks(alg: HashAlg, blocks: Seq<Seq<u8>>) -> Seq<Seq<u8>> {
    Seq::new(blocks.len(), |i: int| digest_of(alg, blocks[i]))
}

/// Relies on crypto::sha2::Sha256 (via crypto::digest::Digest::input and
/// Digest::result): the 32-byte SHA-256 digest, a function of the input
/// bytes alone.
#[verifier::external_body]
fn sha256_digest(data: &[u8]) -> (r: Vec<u8>)
    ensures
        r@ == sha256_of(data@),
        r@.len() == 32,
{
    let mut hasher = crypto::sha2::Sha256::new();
    hasher.input(data);
    let mut out = vec![0u8; 32];
    hasher.result(&mut out);
    out
}

/// Relies on crypto::sha2::Sha512 (via crypto::digest::Digest::input and
/// Digest::result): the 64-byte SHA-512 digest, a function of the input
/// bytes alone.
#[verifier::external_body]
fn sha512_digest(data: &[u8]) -> (r: Vec<u8>)
    ensures
        r@ == sha512_of(data@),
        r@.len() == 64,
{
    let mut hasher = crypto::sha2::Sha512::new();
    hasher.input(data);
    let mut out = vec![0u8; 64];
    hasher.result(&mut out);
    out
}

/// Computes the digest of `data` under `alg`.
pub fn hash_bytes(alg: &HashAlg, data: &[u8]) -> (r: Vec<u8>)
    ensures
        r@ == digest_of(*alg, data@),
        r@.len() == alg.spec_byte_length(),
{
    match alg {
        HashAlg::Sha256 => sha256_digest(data),
        HashAlg::Sha512 => sha512_digest(data),
    }
}

/// Computes the digest of every block, keeping the order.
pub fn hash_blocks(alg: &HashAlg, blocks: &Vec<Vec<u8>>) -> (r: Vec<Vec<u8>>)
    ensures
        blocks_view(r) == hashed_blocks(*alg, blocks_view(*blocks)),
        blocks_wf(blocks_view(r), blocks_view(*blocks).len(), alg.spec_byte_length()),
{
    let mut out: Vec<Vec<u8>> = Vec::new();
    let mut i: usize = 0;
    while i < blocks.len()
        invariant
            i <= blocks@.len(),
            out@.len() == i,
            forall|k: int|
                0 <= k < i ==> (#[trigger] out@[k])@ == digest_of(*alg, blocks@[k]@)
                    && out@[k]@.len() == alg.spec_byte_length(),
        decreases blocks@.len() - i,
    {
        out.push(hash_bytes(alg, blocks[i].as_slice()));
        i = i + 1;
    }
    assert(blocks_view(out) =~= hashed_blocks(*alg, blocks_view(*blocks)));
    out
}

} // verus!
