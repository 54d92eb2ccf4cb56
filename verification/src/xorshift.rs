//! The pseudo-random generator of the `rand_xorshift` crate.

use rand::{RngCore, SeedableRng};
use rand_xorshift::XorShiftRng;
use vstd::prelude::*;

verus! {

/// The first `len` bytes that `fill_bytes` takes from a generator whose seed
/// is `words`, each word in little-endian order.
pub uninterp spec fn xorshift_bytes(words: Seq<u32>, len: nat) -> Seq<u8>;

/// `XorShiftRng::from_seed` and `XorShiftRng::fill_bytes`: every byte of
/// `data` is replaced, by bytes that depend on the seed and on how many there
/// are.
#[verifier::external_body]
pub(crate) fn xorshift_fill(words: [u32; 4], data: &mut Vec<u8>)
    ensures
        final(data)@ == xorshift_bytes(words@, old(data)@.len()),
        final(data)@.len() == old(data)@.len(),
{
    let mut seed = [0u8; 16];
    seed[0..4].copy_from_slice(&words[0].to_le_bytes());
    seed[4..8].copy_from_slice(&words[1].to_le_bytes());
    seed[8..12].copy_from_slice(&words[2].to_le_bytes());
    seed[12..16].copy_from_slice(&words[3].to_le_bytes());
    XorShiftRng::from_seed(seed).fill_bytes(data)
}

} // verus!
