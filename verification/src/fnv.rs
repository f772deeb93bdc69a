//! FNV-1a over byte strings, the hash behind every content address.

use vstd::prelude::*;

verus! {

/// FNV-1a 64-bit prime.
pub const FNV_PRIME: u64 = 0x100000001b3;

/// FNV-1a 64-bit offset basis.
pub const FNV_OFFSET: u64 = 0xcbf29ce484222325;

/// One FNV-1a step: xor the byte in, then multiply by the prime modulo 2^64.
pub open spec fn fnv_step(h: u64, b: u8) -> u64 {
    (h ^ (b as u64)).wrapping_mul(FNV_PRIME)
}

/// FNV-1a of a byte string, starting from `seed`.
pub open spec fn fnv_hash(bytes: Seq<u8>, seed: u64) -> u64
    decreases bytes.len(),
{
    if bytes.len() == 0 {
        seed
    } else {
        fnv_step(fnv_hash(bytes.drop_last(), seed), bytes.last())
    }
}

/// FNV-1a of `bytes`, starting from `seed`.
pub fn fnv1a(bytes: &[u8], seed: u64) -> (h: u64)
    ensures
        h == fnv_hash(bytes@, seed),
{
    let mut h: u64 = seed;
    let mut i: usize = 0;
    while i < bytes.len()
        invariant
            i <= bytes.len(),
            h == fnv_hash(bytes@.take(i as int), seed),
        decreases bytes.len() - i,
    {
        proof {
            assert(bytes@.take(i + 1).drop_last() =~= bytes@.take(i as int));
        }
        h = (h ^ (bytes[i] as u64)).wrapping_mul(FNV_PRIME);
        i += 1;
    }
    proof {
        assert(bytes@.take(i as int) =~= bytes@);
    }
    h
}

/// The prime is 2 to the 40, 256 and 179 together, a step is taken modulo 2 to the
/// 64, and a hash of two byte strings is that of the second from the first on.
pub proof fn law_a_hash_goes_on_from_a_hash(a: Seq<u8>, b: Seq<u8>, seed: u64, h: u64, x: u8)
    ensures
        FNV_PRIME == 0x100_0000_0000 + 0x100 + 0xb3,
        fnv_step(h, x) as int == ((h ^ (x as u64)) as int * FNV_PRIME) % 0x1_0000_0000_0000_0000,
        fnv_hash(Seq::empty(), seed) == seed,
        fnv_hash(a + b, seed) == fnv_hash(b, fnv_hash(a, seed)),
        fnv_hash(a.push(x), seed) == fnv_step(fnv_hash(a, seed), x),
    decreases b.len(),
{
    assert(a.push(x).drop_last() =~= a);
    if b.len() == 0 {
        assert(a + b =~= a);
    } else {
        law_a_hash_goes_on_from_a_hash(a, b.drop_last(), seed, h, x);
        assert((a + b).drop_last() =~= a + b.drop_last());
    }
}

} // verus!
