//! The secure-randomness capability: fresh preimage material comes from the
//! operating system's cryptographically secure generator.

use vstd::prelude::*;
use rand::RngCore;

verus! {

/// Relies on rand::rngs::OsRng::fill_bytes: fills the buffer from the
/// operating system's CSPRNG.  If the randomness source is unavailable the
/// call panics, terminating key generation rather than proceeding with weak
/// randomness.  Nothing is promised of the bytes themselves.
#[verifier::external_body]
fn os_random_bytes(len: usize) -> (r: Vec<u8>)
    ensures
        r@.len() == len,
{
    let mut buf = vec![0u8; len];
    rand::rngs::OsRng.fill_bytes(&mut buf);
    buf
}

/// Draws `count` independent blocks of `len` random bytes each.
pub(crate) fn random_blocks(count: usize, len: usize) -> (r: Vec<Vec<u8>>)
    ensures
        r@.len() == count,
        forall|i: int| 0 <= i < count ==> (#[trigger] r@[i])@.len() == len,
{
    let mut out: Vec<Vec<u8>> = Vec::new();
    let mut i: usize = 0;
    while i < count
        invariant
            i <= count,
            out@.len() == i,
            forall|k: int| 0 <= k < i ==> (#[trigger] out@[k])@.len() == len,
        decreases count - i,
    {
        out.push(os_random_bytes(len));
        i = i + 1;
    }
    out
}

} // verus!
