//! 64-bit payload checksum used by the ring segment commit protocol: the
//! writer stores the checksum of the payload it committed, and a reader
//! accepts a slot only when the recomputed checksum matches the stored one.
//! The function is a Fowler/Noll/Vo-style fold: multiply by a prime and add
//! each byte, wrapping at 64 bits.
use vstd::assert_seqs_equal;
use vstd::prelude::*;
use vstd::wrapping::u64_specs;

verus! {

/// Multiplier folded in before each byte.
pub const CHECKSUM_PRIME: u64 = 0x100_0000_01b3;

/// Accumulator value for the empty byte run.
pub const CHECKSUM_SEED: u64 = 0xcbf2_9ce4_8422_2325;

/// One fold step: the accumulator after absorbing byte `b`.
pub open spec fn checksum_step(h: u64, b: u8) -> u64 {
    u64_specs::wrapping_add(u64_specs::wrapping_mul(h, CHECKSUM_PRIME), b as u64)
}

/// The checksum of a byte run: the seed folded through every byte in order.
pub open spec fn checksum_of(s: Seq<u8>) -> u64
    decreases s.len(),
{
    if s.len() == 0 {
        CHECKSUM_SEED
    } else {
        checksum_step(checksum_of(s.drop_last()), s.last())
    }
}

/// Compute the checksum of `len` bytes of `v` starting at `start`.
pub fn checksum_range(v: &Vec<u8>, start: usize, len: usize) -> (r: u64)
    requires
        start + len <= v@.len(),
    ensures
        r == checksum_of(v@.subrange(start as int, start as int + len as int)),
{
    let n = v.len();
    let mut h: u64 = CHECKSUM_SEED;
    let mut i: usize = 0;
    proof {
        assert(v@.subrange(start as int, start as int) =~= Seq::<u8>::empty());
    }
    while i < len
        invariant
            start + len <= v@.len(),
            v@.len() == n,
            i <= len,
            h == checksum_of(v@.subrange(start as int, start as int + i as int)),
        decreases len - i,
    {
        let b = v[start + i];
        proof {
            let pre = v@.subrange(start as int, start as int + i as int);
            let post = v@.subrange(start as int, start as int + i as int + 1);
            assert_seqs_equal!(post.drop_last() == pre);
            assert(post.last() == b);
        }
        h = h.wrapping_mul(CHECKSUM_PRIME).wrapping_add(b as u64);
        i = i + 1;
    }
    h
}

/// Convenience form over a whole payload vector.
pub fn checksum_all(v: &Vec<u8>) -> (r: u64)
    ensures
        r == checksum_of(v@),
{
    let r = checksum_range(v, 0, v.len());
    proof {
        assert(v@.subrange(0, v@.len() as int) =~= v@);
    }
    r
}

} // verus!
