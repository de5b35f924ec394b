//! One-time hash-based digital signatures in the style of Lamport.
//!
//! A private key holds two fresh random preimages per digest bit; the public
//! key publishes their hashes.  Signing a message reveals, for each bit of the
//! message digest, the matching preimage; verification re-hashes the revealed
//! values and compares them against the public key.  A private key signs at
//! most one message: a second attempt is refused.

pub mod bits;
pub mod blocks;
pub mod hash;
pub mod keys;
mod rng;

pub use bits::lemma_sign_verify_round_trip;
pub use bits::select_preimages;
pub use hash::hash_bytes;
pub use hash::HashAlg;
pub use keys::lemma_key_round_trip;
pub use keys::lemma_serialization_round_trip;
pub use keys::LamportError;
pub use keys::LamportSignatureData;
pub use keys::PrivateKey;
pub use keys::PublicKey;
