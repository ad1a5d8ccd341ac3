//! The 64-bit FNV-1 style hasher used for the key index and the sketch rows.

use core::hash::Hasher;
use vstd::prelude::*;

verus! {

/// Initial state of a hasher made by `Default`.
pub const FNV_OFFSET_BASIS: u64 = 0xcbf29ce484222325;

/// Multiplier applied after each byte is mixed in.
pub const FNV_PRIME: u64 = 0x100000001b3;

/// The state after mixing one byte `b` into state `h`.
pub open spec fn fnv_step(h: u64, b: u8) -> u64 {
    (((h ^ (b as u64)) as int * (FNV_PRIME as int)) % 0x1_0000_0000_0000_0000) as u64
}

/// The state after mixing `bytes`, first to last, into state `h`.
pub open spec fn fnv_fold(h: u64, bytes: Seq<u8>) -> u64
    decreases bytes.len(),
{
    if bytes.len() == 0 {
        h
    } else {
        fnv_step(fnv_fold(h, bytes.drop_last()), bytes.last())
    }
}

/// A hasher that multiplies its state by [`FNV_PRIME`] after mixing in each
/// byte.
pub struct FnvHasher(u64);

impl View for FnvHasher {
    type V = u64;

    /// The current state, which is also the hash so far.
    closed spec fn view(&self) -> u64 {
        self.0
    }
}

impl Default for FnvHasher {
    fn default() -> (r: FnvHasher)
        ensures
            r@ == FNV_OFFSET_BASIS,
    {
        FnvHasher(FNV_OFFSET_BASIS)
    }
}

impl FnvHasher {
    /// A hasher whose state starts at `key`.
    pub fn with_key(key: u64) -> (r: FnvHasher)
        ensures
            r@ == key,
    {
        FnvHasher(key)
    }
}

impl Hasher for FnvHasher {
    /// The hash of everything written so far.
    fn finish(&self) -> (r: u64)
        ensures
            r == self@,
    {
        self.0
    }

    /// Mixes `bytes` into the state, first to last.
    fn write(&mut self, bytes: &[u8])
        ensures
            final(self)@ == fnv_fold(old(self)@, bytes@),
    {
        let mut hash: u64 = self.0;
        let mut i: usize = 0;
        while i < bytes.len()
            invariant
                i <= bytes.len(),
                hash == fnv_fold(old(self)@, bytes@.take(i as int)),
            decreases bytes.len() - i,
        {
            proof {
                assert(bytes@.take(i + 1).drop_last() =~= bytes@.take(i as int));
            }
            hash = hash ^ (bytes[i] as u64);
            hash = hash.wrapping_mul(FNV_PRIME);
            i += 1;
        }
        proof {
            assert(bytes@.take(i as int) =~= bytes@);
        }
        self.0 = hash;
    }
}

} // verus!
