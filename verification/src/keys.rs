//! Private keys, public keys and signatures of the one-time scheme.

use vstd::prelude::*;
use crate::bits::digest_bit;
use crate::bits::selected_preimages;
use crate::bits::signature_valid;
use crate::bits::bit_is_one;
use crate::bits::select_preimages;
use crate::blocks::blocks_view;
use crate::blocks::blocks_wf;
use crate::blocks::bytes_equal;
use crate::blocks::bytes_diff_ct;
use crate::blocks::chunked;
use crate::blocks::chunk_bytes;
use crate::blocks::clone_blocks;
use crate::blocks::append_blocks;
use crate::blocks::flatten_blocks;
use crate::blocks::lemma_chunked_flatten_blocks;
use crate::blocks::lemma_flatten_blocks_len;
use crate::blocks::wipe_blocks;
use crate::hash::digest_of;
use crate::hash::hash_blocks;
use crate::hash::hash_bytes;
use crate::hash::hashed_blocks;
use crate::hash::HashAlg;
use crate::rng::random_blocks;

verus! {

/// A signature: the preimages revealed for one message, one per digest bit.
pub type LamportSignatureData = Vec<Vec<u8>>;

/// The recoverable failures of the scheme.
#[derive(Clone, Copy, Debug, PartialEq, Eq, Structural)]
pub enum LamportError {
    /// The private key has already signed a message and refuses to sign
    /// another: reuse would reveal enough preimages to allow forgery.
    OneTimeKeyExhausted,
    /// A serialized public key buffer does not have the exact length the
    /// algorithm calls for.
    MalformedPublicKeyBytes,
}

/// A one-time signing public key: per digest bit, the hash of the zero
/// preimage and the hash of the one preimage.  Holds no secret.
pub struct PublicKey {
    alg: HashAlg,
    zero_values: Vec<Vec<u8>>,
    one_values: Vec<Vec<u8>>,
}

/// A one-time signing private key: per digest bit, a secret zero preimage
/// and a secret one preimage, and a flag recording whether the key has
/// already signed.  The preimages are erased when the key is dropped.
pub struct PrivateKey {
    alg: HashAlg,
    zero_values: Vec<Vec<u8>>,
    one_values: Vec<Vec<u8>>,
    used: bool,
}

impl PublicKey {
    /// The digest algorithm the key was built for.
    pub closed spec fn spec_alg(self) -> HashAlg {
        self.alg
    }

    /// The published hashes of the zero preimages, in bit order.
    pub closed spec fn spec_zero_values(self) -> Seq<Seq<u8>> {
        blocks_view(self.zero_values)
    }

    /// The published hashes of the one preimages, in bit order.
    pub closed spec fn spec_one_values(self) -> Seq<Seq<u8>> {
        blocks_view(self.one_values)
    }

    /// The dimensional invariant: one hash per digest bit, each hash one
    /// digest wide.  Every key this library hands out satisfies it.
    pub open spec fn wf(self) -> bool {
        &&& blocks_wf(
            self.spec_zero_values(),
            self.spec_alg().spec_bit_length(),
            self.spec_alg().spec_byte_length(),
        )
        &&& blocks_wf(
            self.spec_one_values(),
            self.spec_alg().spec_bit_length(),
            self.spec_alg().spec_byte_length(),
        )
    }

    /// The digest algorithm the key was built for.
    pub fn algorithm(&self) -> (a: HashAlg)
        ensures
            a == self.spec_alg(),
    {
        self.alg
    }

    /// Returns copies of the zero-hash and one-hash arrays, in that order.
    pub fn values(&self) -> (r: (Vec<Vec<u8>>, Vec<Vec<u8>>))
        ensures
            blocks_view(r.0) == self.spec_zero_values(),
            blocks_view(r.1) == self.spec_one_values(),
    {
        (clone_blocks(&self.zero_values), clone_blocks(&self.one_values))
    }

    /// Reconstructs a public key from the flat encoding `to_bytes` produces:
    /// the first half of the buffer is the zero hashes, the second half the
    /// one hashes, each half one `byte_length` chunk per digest bit.  A buffer
    /// whose length is not exactly `2 * bit_length * byte_length` is rejected.
    pub fn from_vec(vec: Vec<u8>, alg: HashAlg) -> (r: Result<PublicKey, LamportError>)
        ensures
            vec@.len() == 2 * alg.spec_bit_length() * alg.spec_byte_length() ==> {
                &&& r is Ok
                &&& r->Ok_0.wf()
                &&& r->Ok_0.spec_alg() == alg
                &&& r->Ok_0.spec_zero_values() == chunked(
                    vec@.subrange(0, (alg.spec_bit_length() * alg.spec_byte_length()) as int),
                    alg.spec_bit_length(),
                    alg.spec_byte_length(),
                )
                &&& r->Ok_0.spec_one_values() == chunked(
                    vec@.subrange(
                        (alg.spec_bit_length() * alg.spec_byte_length()) as int,
                        vec@.len() as int,
                    ),
                    alg.spec_bit_length(),
                    alg.spec_byte_length(),
                )
            },
            vec@.len() != 2 * alg.spec_bit_length() * alg.spec_byte_length() ==> r == Err::<
                PublicKey,
                LamportError,
            >(LamportError::MalformedPublicKeyBytes),
    {
        let n = alg.bit_length();
        let l = alg.byte_length();
        let half = n * l;
        if vec.len() != 2 * half {
            return Err(LamportError::MalformedPublicKeyBytes);
        }
        let zero_values = chunk_bytes(&vec, 0, n, l);
        let one_values = chunk_bytes(&vec, half, n, l);
        assert(vec@.subrange(0, half as int) == vec@.subrange(0, (0 + n * l) as int));
        assert(vec@.subrange(half as int, vec@.len() as int) == vec@.subrange(
            half as int,
            (half + n * l) as int,
        ));
        Ok(PublicKey { alg, zero_values, one_values })
    }

    /// Serializes the key to a flat buffer: every zero hash in bit order,
    /// then every one hash in bit order, with no framing.
    pub fn to_bytes(&self) -> (r: Vec<u8>)
        ensures
            r@ == flatten_blocks(self.spec_zero_values()) + flatten_blocks(
                self.spec_one_values(),
            ),
    {
        let mut out: Vec<u8> = Vec::new();
        append_blocks(&mut out, &self.zero_values);
        append_blocks(&mut out, &self.one_values);
        assert(out@ =~= Seq::<u8>::empty() + flatten_blocks(self.spec_zero_values())
            + flatten_blocks(self.spec_one_values()));
        assert(out@ =~= flatten_blocks(self.spec_zero_values()) + flatten_blocks(
            self.spec_one_values(),
        ));
        out
    }

    /// Checks a signature against a message: recomputes the message digest
    /// and, per digest bit, hashes the revealed value and compares it with
    /// the published hash that bit selects.  Returns true exactly when the
    /// signature has one element per digest bit, every element is one digest
    /// wide, and every hashed element matches.  A structurally malformed
    /// signature is an ordinary mismatch, not an error.
    pub fn verify_signature(&self, signature: &LamportSignatureData, data: &[u8]) -> (r: bool)
        requires
            self.wf(),
        ensures
            r == signature_valid(
                self.spec_alg(),
                self.spec_zero_values(),
                self.spec_one_values(),
                blocks_view(*signature),
                digest_of(self.spec_alg(), data@),
            ),
            digest_of(self.spec_alg(), data@).len() == self.spec_alg().spec_byte_length(),
    {
        let ghost sig = blocks_view(*signature);
        let digest = hash_bytes(&self.alg, data);
        let ghost d = digest@;
        let n = self.alg.bit_length();
        assert(8 * d.len() == n);
        if signature.len() != n {
            return false;
        }
        let l = self.alg.byte_length();
        let mut i: usize = 0;
        while i < n
            invariant
                i <= n,
                self.wf(),
                n == self.spec_alg().spec_bit_length(),
                l == self.spec_alg().spec_byte_length(),
                d == digest@,
                d == digest_of(self.spec_alg(), data@),
                d.len() == self.spec_alg().spec_byte_length(),
                8 * d.len() == n,
                sig == blocks_view(*signature),
                sig.len() == n,
                forall|k: int|
                    0 <= k < i ==> (#[trigger] sig[k]).len() == l && digest_of(
                        self.spec_alg(),
                        sig[k],
                    ) == if digest_bit(d, k) {
                        self.spec_one_values()[k]
                    } else {
                        self.spec_zero_values()[k]
                    },
            decreases n - i,
        {
            let elem = &signature[i];
            if elem.len() != l {
                assert(sig[i as int].len() != l);
                return false;
            }
            let hashed = hash_bytes(&self.alg, elem.as_slice());
            let byte = digest[i / 8];
            let bit = bit_is_one(byte, (i % 8) as u8);
            assert(bit == digest_bit(d, i as int));
            let element_matches = if bit {
                bytes_equal(&hashed, &self.one_values[i])
            } else {
                bytes_equal(&hashed, &self.zero_values[i])
            };
            if !element_matches {
                assert(digest_of(self.spec_alg(), sig[i as int]) != if digest_bit(
                    d,
                    i as int,
                ) {
                    self.spec_one_values()[i as int]
                } else {
                    self.spec_zero_values()[i as int]
                });
                return false;
            }
            i = i + 1;
        }
        true
    }
}

impl Clone for PublicKey {
    /// A copy with the same algorithm and the same published hashes.
    fn clone(&self) -> (r: Self)
        ensures
            r.spec_alg() == self.spec_alg(),
            r.spec_zero_values() == self.spec_zero_values(),
            r.spec_one_values() == self.spec_one_values(),
    {
        PublicKey {
            alg: self.alg,
            zero_values: clone_blocks(&self.zero_values),
            one_values: clone_blocks(&self.one_values),
        }
    }
}

impl PrivateKey {
    /// The digest algorithm the key was built for.
    pub closed spec fn spec_alg(self) -> HashAlg {
        self.alg
    }

    /// The secret zero preimages, in bit order.
    pub closed spec fn spec_zero_values(self) -> Seq<Seq<u8>> {
        blocks_view(self.zero_values)
    }

    /// The secret one preimages, in bit order.
    pub closed spec fn spec_one_values(self) -> Seq<Seq<u8>> {
        blocks_view(self.one_values)
    }

    /// Whether the key has already signed a message.
    pub closed spec fn spec_used(self) -> bool {
        self.used
    }

    /// The dimensional invariant: one preimage pair per digest bit, each
    /// preimage one digest wide.  Every key this library hands out
    /// satisfies it.
    pub open spec fn wf(self) -> bool {
        &&& blocks_wf(
            self.spec_zero_values(),
            self.spec_alg().spec_bit_length(),
            self.spec_alg().spec_byte_length(),
        )
        &&& blocks_wf(
            self.spec_one_values(),
            self.spec_alg().spec_bit_length(),
            self.spec_alg().spec_byte_length(),
        )
    }

    /// The digest algorithm the key was built for.
    pub fn algorithm(&self) -> (a: HashAlg)
        ensures
            a == self.spec_alg(),
    {
        self.alg
    }

    /// Generates a fresh key: two independent random preimages per digest
    /// bit, each one digest wide, drawn from the operating system's secure
    /// random source.  Panics, rather than degrade, if that source is
    /// unavailable.  The fresh key has not signed anything.
    pub fn new(alg: HashAlg) -> (sk: PrivateKey)
        ensures
            sk.wf(),
            sk.spec_alg() == alg,
            !sk.spec_used(),
    {
        let n = alg.bit_length();
        let l = alg.byte_length();
        let zero_values = random_blocks(n, l);
        let one_values = random_blocks(n, l);
        PrivateKey { alg, zero_values, one_values, used: false }
    }

    /// Derives the public key: every preimage replaced by its hash, in
    /// order.  Reads the private key only; it neither consumes the one-time
    /// capability nor reveals a preimage, so it may be called repeatedly.
    pub fn public_key(&self) -> (pk: PublicKey)
        requires
            self.wf(),
        ensures
            pk.wf(),
            pk.spec_alg() == self.spec_alg(),
            pk.spec_zero_values() == hashed_blocks(self.spec_alg(), self.spec_zero_values()),
            pk.spec_one_values() == hashed_blocks(self.spec_alg(), self.spec_one_values()),
    {
        PublicKey {
            alg: self.alg,
            zero_values: hash_blocks(&self.alg, &self.zero_values),
            one_values: hash_blocks(&self.alg, &self.one_values),
        }
    }

    /// Signs a message, at most once in the key's lifetime.  On the first
    /// call the result reveals, for each bit of the message digest, the
    /// matching preimage, and the key is marked used before it is returned.
    /// Every later call returns `OneTimeKeyExhausted` and reveals nothing.
    pub fn sign(&mut self, data: &[u8]) -> (r: Result<LamportSignatureData, LamportError>)
        requires
            old(self).wf(),
        ensures
            final(self).wf(),
            final(self).spec_alg() == old(self).spec_alg(),
            final(self).spec_zero_values() == old(self).spec_zero_values(),
            final(self).spec_one_values() == old(self).spec_one_values(),
            old(self).spec_used() ==> {
                &&& r == Err::<LamportSignatureData, LamportError>(
                    LamportError::OneTimeKeyExhausted,
                )
                &&& final(self).spec_used()
            },
            !old(self).spec_used() ==> {
                &&& final(self).spec_used()
                &&& r is Ok
                &&& blocks_view(r->Ok_0) == selected_preimages(
                    old(self).spec_zero_values(),
                    old(self).spec_one_values(),
                    digest_of(old(self).spec_alg(), data@),
                )
                &&& digest_of(old(self).spec_alg(), data@).len()
                    == old(self).spec_alg().spec_byte_length()
            },
    {
        if self.used {
            return Err(LamportError::OneTimeKeyExhausted);
        }
        let digest = hash_bytes(&self.alg, data);
        let signature = select_preimages(&self.zero_values, &self.one_values, &digest);
        self.used = true;
        Ok(signature)
    }
}

impl PrivateKey {
    /// Secure disposal: overwrites every byte of both preimage arrays with
    /// zero, keeping their shape.  Called automatically when the key is
    /// dropped, and callable early by an owner that wants the secrets gone
    /// before then.
    pub fn wipe(&mut self)
        ensures
            final(self).spec_alg() == old(self).spec_alg(),
            final(self).spec_used() == old(self).spec_used(),
            final(self).spec_zero_values().len() == old(self).spec_zero_values().len(),
            final(self).spec_one_values().len() == old(self).spec_one_values().len(),
            forall|i: int|
                0 <= i < old(self).spec_zero_values().len()
                    ==> (#[trigger] final(self).spec_zero_values()[i]).len()
                    == old(self).spec_zero_values()[i].len(),
            forall|i: int|
                0 <= i < old(self).spec_one_values().len()
                    ==> (#[trigger] final(self).spec_one_values()[i]).len()
                    == old(self).spec_one_values()[i].len(),
            forall|i: int, j: int|
                0 <= i < final(self).spec_zero_values().len()
                    && 0 <= j < final(self).spec_zero_values()[i].len()
                    ==> final(self).spec_zero_values()[i][j] == 0,
            forall|i: int, j: int|
                0 <= i < final(self).spec_one_values().len()
                    && 0 <= j < final(self).spec_one_values()[i].len()
                    ==> final(self).spec_one_values()[i][j] == 0,
    {
        wipe_blocks(&mut self.zero_values);
        wipe_blocks(&mut self.one_values);
    }
}

impl Drop for PrivateKey {
    /// Secure disposal on destruction.  The erasure itself is the verified
    /// `wipe` above; Verus cannot check a `Drop` body that works on a `Vec`,
    /// so this delegation stands outside verification.
    #[verifier::external_body]
    fn drop(&mut self)
        opens_invariants none
        no_unwind
    {
        self.wipe();
    }
}

impl vstd::std_specs::cmp::PartialEqSpecImpl for PrivateKey {
    open spec fn obeys_eq_spec() -> bool {
        true
    }

    open spec fn eq_spec(&self, other: &PrivateKey) -> bool {
        self.spec_zero_values() == other.spec_zero_values() && self.spec_one_values()
            == other.spec_one_values()
    }
}

impl PartialEq for PrivateKey {
    /// Equality of the secret material.  Lengths are compared first; the
    /// byte contents are then compared in full, with no early exit, so the
    /// running time does not depend on where two keys of equal shape differ.
    fn eq(&self, other: &PrivateKey) -> (r: bool) {
        if self.zero_values.len() != other.zero_values.len() {
            assert(self.spec_zero_values() !~= other.spec_zero_values());
            return false;
        }
        if self.one_values.len() != other.one_values.len() {
            assert(self.spec_one_values() !~= other.spec_one_values());
            return false;
        }
        let mut i: usize = 0;
        while i < self.zero_values.len()
            invariant
                i <= self.zero_values@.len(),
                self.zero_values@.len() == other.zero_values@.len(),
                forall|k: int|
                    0 <= k < i ==> (#[trigger] self.zero_values@[k])@.len()
                        == other.zero_values@[k]@.len(),
            decreases self.zero_values@.len() - i,
        {
            if self.zero_values[i].len() != other.zero_values[i].len() {
                assert(self.spec_zero_values()[i as int] != other.spec_zero_values()[i as int]);
                assert(self.spec_zero_values() != other.spec_zero_values());
                return false;
            }
            i = i + 1;
        }
        let mut j: usize = 0;
        while j < self.one_values.len()
            invariant
                j <= self.one_values@.len(),
                self.one_values@.len() == other.one_values@.len(),
                forall|k: int|
                    0 <= k < j ==> (#[trigger] self.one_values@[k])@.len()
                        == other.one_values@[k]@.len(),
            decreases self.one_values@.len() - j,
        {
            if self.one_values[j].len() != other.one_values[j].len() {
                assert(self.spec_one_values()[j as int] != other.spec_one_values()[j as int]);
                assert(self.spec_one_values() != other.spec_one_values());
                return false;
            }
            j = j + 1;
        }
        let mut diff: u8 = 0;
        let mut i: usize = 0;
        while i < self.zero_values.len()
            invariant
                i <= self.zero_values@.len(),
                self.zero_values@.len() == other.zero_values@.len(),
                forall|k: int|
                    0 <= k < self.zero_values@.len() ==> (#[trigger] self.zero_values@[k])@.len()
                        == other.zero_values@[k]@.len(),
                (diff == 0) <==> (forall|k: int|
                    0 <= k < i ==> (#[trigger] self.zero_values@[k])@ == other.zero_values@[k]@),
            decreases self.zero_values@.len() - i,
        {
            let e = bytes_diff_ct(&self.zero_values[i], &other.zero_values[i]);
            let old_diff: u8 = diff;
            diff = diff | e;
            assert((diff == 0) <==> (old_diff == 0 && e == 0)) by (bit_vector)
                requires
                    diff == old_diff | e,
            ;
            i = i + 1;
        }
        let mut j: usize = 0;
        while j < self.one_values.len()
            invariant
                j <= self.one_values@.len(),
                self.one_values@.len() == other.one_values@.len(),
                self.zero_values@.len() == other.zero_values@.len(),
                forall|k: int|
                    0 <= k < self.one_values@.len() ==> (#[trigger] self.one_values@[k])@.len()
                        == other.one_values@[k]@.len(),
                (diff == 0) <==> ((forall|k: int|
                    0 <= k < self.zero_values@.len() ==> (#[trigger] self.zero_values@[k])@
                        == other.zero_values@[k]@) && (forall|k: int|
                    0 <= k < j ==> (#[trigger] self.one_values@[k])@ == other.one_values@[k]@)),
            decreases self.one_values@.len() - j,
        {
            let e = bytes_diff_ct(&self.one_values[j], &other.one_values[j]);
            let old_diff: u8 = diff;
            diff = diff | e;
            assert((diff == 0) <==> (old_diff == 0 && e == 0)) by (bit_vector)
                requires
                    diff == old_diff | e,
            ;
            j = j + 1;
        }
        let ok = diff == 0;
        proof {
            if ok {
                assert(self.spec_zero_values() =~= other.spec_zero_values());
                assert(self.spec_one_values() =~= other.spec_one_values());
            } else {
                if self.spec_zero_values() == other.spec_zero_values() && self.spec_one_values()
                    == other.spec_one_values() {
                    assert forall|k: int|
                        0 <= k < self.zero_values@.len() implies (#[trigger] self.zero_values@[k])@
                        == other.zero_values@[k]@ by {
                        assert(blocks_view(self.zero_values)[k] == blocks_view(
                            other.zero_values,
                        )[k]);
                    }
                    assert forall|k: int|
                        0 <= k < self.one_values@.len() implies (#[trigger] self.one_values@[k])@
                        == other.one_values@[k]@ by {
                        assert(blocks_view(self.one_values)[k] == blocks_view(other.one_values)[k]);
                    }
                    assert(false);
                }
            }
        }
        ok
    }
}

impl vstd::std_specs::convert::FromSpecImpl<PublicKey> for Vec<u8> {
    open spec fn obeys_from_spec() -> bool {
        false
    }

    open spec fn from_spec(pk: PublicKey) -> Vec<u8> {
        vstd::pervasive::arbitrary()
    }
}

impl From<PublicKey> for Vec<u8> {
    /// The flat encoding of the key, as `to_bytes` produces it.
    fn from(original: PublicKey) -> (r: Vec<u8>)
        ensures
            r@ == flatten_blocks(original.spec_zero_values()) + flatten_blocks(
                original.spec_one_values(),
            ),
    {
        original.to_bytes()
    }
}

/// Round-trip derivation: a signature that `sign` produces from a
/// well-formed private key is accepted by `verify_signature` under the
/// public key that `public_key` derives from the same private key, for
/// every message digest of the algorithm's width.
pub proof fn lemma_key_round_trip(sk: PrivateKey, pk: PublicKey, sig: Seq<Seq<u8>>, digest: Seq<u8>)
    requires
        sk.wf(),
        pk.spec_alg() == sk.spec_alg(),
        pk.spec_zero_values() == hashed_blocks(sk.spec_alg(), sk.spec_zero_values()),
        pk.spec_one_values() == hashed_blocks(sk.spec_alg(), sk.spec_one_values()),
        sig == selected_preimages(sk.spec_zero_values(), sk.spec_one_values(), digest),
        digest.len() == sk.spec_alg().spec_byte_length(),
    ensures
        signature_valid(pk.spec_alg(), pk.spec_zero_values(), pk.spec_one_values(), sig, digest),
{
    crate::bits::lemma_sign_verify_round_trip(
        sk.spec_alg(),
        sk.spec_zero_values(),
        sk.spec_one_values(),
        digest,
    );
}

/// Serialization round trip: cutting the flat encoding of a well-formed
/// public key back into halves and chunks recovers exactly the zero-hash and
/// one-hash arrays it was built from, for every supported hash size.
pub proof fn lemma_serialization_round_trip(alg: HashAlg, zero: Seq<Seq<u8>>, one: Seq<Seq<u8>>)
    requires
        blocks_wf(zero, alg.spec_bit_length(), alg.spec_byte_length()),
        blocks_wf(one, alg.spec_bit_length(), alg.spec_byte_length()),
    ensures
        (flatten_blocks(zero) + flatten_blocks(one)).len() == 2 * alg.spec_bit_length()
            * alg.spec_byte_length(),
        chunked(
            (flatten_blocks(zero) + flatten_blocks(one)).subrange(
                0,
                (alg.spec_bit_length() * alg.spec_byte_length()) as int,
            ),
            alg.spec_bit_length(),
            alg.spec_byte_length(),
        ) == zero,
        chunked(
            (flatten_blocks(zero) + flatten_blocks(one)).subrange(
                (alg.spec_bit_length() * alg.spec_byte_length()) as int,
                (2 * alg.spec_bit_length() * alg.spec_byte_length()) as int,
            ),
            alg.spec_bit_length(),
            alg.spec_byte_length(),
        ) == one,
{
    let n = alg.spec_bit_length();
    let l = alg.spec_byte_length();
    let fz = flatten_blocks(zero);
    let fo = flatten_blocks(one);
    lemma_flatten_blocks_len(zero, n, l);
    lemma_flatten_blocks_len(one, n, l);
    let all = fz + fo;
    assert(all.len() == 2 * n * l);
    assert(all.subrange(0, (n * l) as int) =~= fz);
    assert(all.subrange((n * l) as int, (2 * n * l) as int) =~= fo);
    lemma_chunked_flatten_blocks(zero, n, l);
    lemma_chunked_flatten_blocks(one, n, l);
}

} // verus!
