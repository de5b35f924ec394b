//! The bit-indexed reveal protocol: which preimage each digest bit selects,
//! and what it means for a sequence of revealed values to match a public key.

use vstd::prelude::*;
use crate::blocks::blocks_view;
use crate::blocks::blocks_wf;
use crate::blocks::copy_bytes;
use crate::hash::digest_of;
use crate::hash::hashed_blocks;
use crate::hash::HashAlg;

verus! {

/// Bit `j` of a byte, numbered least-significant-bit first.
pub open spec fn byte_bit(byte: u8, j: u8) -> bool
    recommends
        j < 8,
{
    (byte >> j) & 1 == 1
}

/// Bit `i` of a digest: bit `i % 8` of byte `i / 8`, least-significant-bit
/// first within each byte.
pub open spec fn digest_bit(digest: Seq<u8>, i: int) -> bool
    recommends
        0 <= i < 8 * digest.len(),
{
    byte_bit(digest[i / 8], (i % 8) as u8)
}

/// The revealed values a digest selects: for each digest bit, the matching
/// one-preimage where the bit is 1, the zero-preimage where it is 0.
pub open spec fn selected_preimages(
    zero: Seq<Seq<u8>>,
    one: Seq<Seq<u8>>,
    digest: Seq<u8>,
) -> Seq<Seq<u8>>
    recommends
        zero.len() >= 8 * digest.len(),
        one.len() >= 8 * digest.len(),
{
    Seq::new(8 * digest.len(), |i: int| if digest_bit(digest, i) { one[i] } else { zero[i] })
}

/// What verification checks: the sequence has one element per digest bit,
/// every element is one digest wide, and hashing element `i` yields the
/// published one-hash where digest bit `i` is 1, the zero-hash where it is 0.
pub open spec fn signature_valid(
    alg: HashAlg,
    zero_hashes: Seq<Seq<u8>>,
    one_hashes: Seq<Seq<u8>>,
    sig: Seq<Seq<u8>>,
    digest: Seq<u8>,
) -> bool {
    &&& sig.len() == 8 * digest.len()
    &&& forall|i: int| 0 <= i < sig.len() ==> (#[trigger] sig[i]).len() == alg.spec_byte_length()
    &&& forall|i: int|
        0 <= i < sig.len() ==> digest_of(alg, #[trigger] sig[i]) == if digest_bit(digest, i) {
            one_hashes[i]
        } else {
            zero_hashes[i]
        }
}

/// Reads bit `j` of a byte, least-significant-bit first.
pub fn bit_is_one(byte: u8, j: u8) -> (r: bool)
    requires
        j < 8,
    ensures
        r == byte_bit(byte, j),
{
    (byte >> j) & 1 == 1
}

/// Copies out, for each bit of `digest` in order, the matching block of
/// `one_values` where the bit is 1, of `zero_values` where it is 0.
pub fn select_preimages(
    zero_values: &Vec<Vec<u8>>,
    one_values: &Vec<Vec<u8>>,
    digest: &Vec<u8>,
) -> (r: Vec<Vec<u8>>)
    requires
        blocks_view(*zero_values).len() >= 8 * digest@.len(),
        blocks_view(*one_values).len() >= 8 * digest@.len(),
    ensures
        blocks_view(r) == selected_preimages(
            blocks_view(*zero_values),
            blocks_view(*one_values),
            digest@,
        ),
{
    let ghost selection = selected_preimages(
        blocks_view(*zero_values),
        blocks_view(*one_values),
        digest@,
    );
    let _n_blocks: usize = zero_values.len();
    assert(8 * digest@.len() <= usize::MAX);
    let mut out: Vec<Vec<u8>> = Vec::new();
    let mut i: usize = 0;
    while i < digest.len()
        invariant
            i <= digest@.len(),
            8 * digest@.len() <= usize::MAX,
            blocks_view(*zero_values).len() >= 8 * digest@.len(),
            blocks_view(*one_values).len() >= 8 * digest@.len(),
            selection == selected_preimages(
                blocks_view(*zero_values),
                blocks_view(*one_values),
                digest@,
            ),
            out@.len() == 8 * i,
            forall|k: int| 0 <= k < 8 * i ==> (#[trigger] out@[k])@ == selection[k],
        decreases digest@.len() - i,
    {
        let byte = digest[i];
        let mut j: usize = 0;
        while j < 8
            invariant
                i < digest@.len(),
                j <= 8,
                byte == digest@[i as int],
                8 * digest@.len() <= usize::MAX,
                blocks_view(*zero_values).len() >= 8 * digest@.len(),
                blocks_view(*one_values).len() >= 8 * digest@.len(),
                selection == selected_preimages(
                    blocks_view(*zero_values),
                    blocks_view(*one_values),
                    digest@,
                ),
                out@.len() == 8 * i + j,
                forall|k: int| 0 <= k < 8 * i + j ==> (#[trigger] out@[k])@ == selection[k],
            decreases 8 - j,
        {
            let offset = i * 8 + j;
            assert(offset == 8 * (i as int) + j);
            assert(offset < 8 * digest@.len());
            assert(offset as int / 8 == i && offset as int % 8 == j) by (nonlinear_arith)
                requires
                    offset == 8 * (i as int) + j,
                    0 <= j < 8,
                    0 <= i,
            ;
            if bit_is_one(byte, j as u8) {
                assert(digest_bit(digest@, offset as int));
                out.push(copy_bytes(&one_values[offset]));
            } else {
                assert(!digest_bit(digest@, offset as int));
                out.push(copy_bytes(&zero_values[offset]));
            }
            assert(out@[offset as int]@ == selection[offset as int]);
            j = j + 1;
        }
        i = i + 1;
    }
    assert(blocks_view(out) =~= selection);
    out
}

/// Signing then verifying succeeds: the values a digest selects from the
/// preimages, hashed, are exactly the published hashes that the same digest
/// bits select, so a signature produced from a well-formed private key is
/// valid against the public key derived from it, for every message digest.
pub proof fn lemma_sign_verify_round_trip(
    alg: HashAlg,
    zero_pre: Seq<Seq<u8>>,
    one_pre: Seq<Seq<u8>>,
    digest: Seq<u8>,
)
    requires
        blocks_wf(zero_pre, alg.spec_bit_length(), alg.spec_byte_length()),
        blocks_wf(one_pre, alg.spec_bit_length(), alg.spec_byte_length()),
        digest.len() == alg.spec_byte_length(),
    ensures
        signature_valid(
            alg,
            hashed_blocks(alg, zero_pre),
            hashed_blocks(alg, one_pre),
            selected_preimages(zero_pre, one_pre, digest),
            digest,
        ),
{
    let sig = selected_preimages(zero_pre, one_pre, digest);
    let zero_hashes = hashed_blocks(alg, zero_pre);
    let one_hashes = hashed_blocks(alg, one_pre);
    assert(sig.len() == 8 * digest.len());
    assert forall|i: int| 0 <= i < sig.len() implies (#[trigger] sig[i]).len()
        == alg.spec_byte_length() by {
        assert(sig[i] == if digest_bit(digest, i) {
            one_pre[i]
        } else {
            zero_pre[i]
        });
    }
    assert forall|i: int| 0 <= i < sig.len() implies digest_of(alg, #[trigger] sig[i])
        == if digest_bit(digest, i) {
        one_hashes[i]
    } else {
        zero_hashes[i]
    } by {
        if digest_bit(digest, i) {
            assert(sig[i] == one_pre[i]);
            assert(one_hashes[i] == digest_of(alg, one_pre[i]));
        } else {
            assert(sig[i] == zero_pre[i]);
            assert(zero_hashes[i] == digest_of(alg, zero_pre[i]));
        }
    }
}

} // verus!
