//! Collections: counting, ordering, set algebra, queues, hashing, and an
//! open-addressing hash map.
use vstd::prelude::*;
use vstd::string::StringSliceAdditionalSpecFns;

pub mod my_hash_map;
pub mod counting;
pub mod queues;
pub mod ordered;

verus! {

pub const FNV_OFFSET: u64 = 0xcbf2_9ce4_8422_2325;

pub const FNV_PRIME: u64 = 0x0000_0100_0000_01b3;

/// One FNV-1a step: mix in a byte, then multiply by the prime (wrapping).
pub open spec fn fnv_step(h: u64, b: u8) -> u64 {
    (h ^ (b as u64)).wrapping_mul(FNV_PRIME)
}

/// FNV-1a over `bytes`, starting from the state `h`.
pub open spec fn fnv_fold(h: u64, bytes: Seq<u8>) -> u64
    decreases bytes.len(),
{
    if bytes.len() == 0 {
        h
    } else {
        fnv_fold(fnv_step(h, bytes[0]), bytes.drop_first())
    }
}

/// The 64-bit FNV-1a hash of `bytes`.
pub open spec fn fnv1a(bytes: Seq<u8>) -> u64 {
    fnv_fold(FNV_OFFSET, bytes)
}

/// A tiny deterministic hasher: 64-bit FNV-1a.
pub struct FnvHasher {
    pub state: u64,
}

impl FnvHasher {
    /// A hasher that has seen no bytes yet.
    pub fn new() -> (h: Self)
        ensures
            h.state == FNV_OFFSET,
    {
        FnvHasher { state: FNV_OFFSET }
    }

    /// The hash of everything written so far.
    pub fn finish(&self) -> (r: u64)
        ensures
            r == self.state,
    {
        self.state
    }

    /// Feeds bytes into the hash.
    pub fn write(&mut self, bytes: &[u8])
        ensures
            final(self).state == fnv_fold(old(self).state, bytes@),
    {
        let mut i: usize = 0;
        assert(bytes@.skip(0) =~= bytes@);
        while i < bytes.len()
            invariant
                i <= bytes.len(),
                fnv_fold(old(self).state, bytes@) == fnv_fold(self.state, bytes@.skip(i as int)),
            decreases bytes.len() - i,
        {
            assert(bytes@.skip(i as int).drop_first() =~= bytes@.skip(i + 1));
            self.state = (self.state ^ (bytes[i] as u64)).wrapping_mul(FNV_PRIME);
            i = i + 1;
        }
    }
}

impl Default for FnvHasher {
    fn default() -> (h: Self)
        ensures
            h.state == FNV_OFFSET,
    {
        FnvHasher::new()
    }
}

/// The FNV-1a hash of a string's UTF-8 bytes.
pub fn fnv_hash_str(s: &str) -> (h: u64)
    ensures
        h == fnv1a(s.spec_bytes()),
{
    let mut hasher = FnvHasher::new();
    hasher.write(s.as_bytes());
    hasher.finish()
}

/// Hashing the same bytes twice gives the same value, and `"hello"` and
/// `"world"` hash apart.
pub fn fnv_is_deterministic() -> (r: bool)
    ensures
        r == (fnv1a("hello".spec_bytes()) != fnv1a("world".spec_bytes())),
{
    let first = fnv_hash_str("hello");
    let again = fnv_hash_str("hello");
    let other = fnv_hash_str("world");
    first == again && first != other
}

} // verus!
