//! Explicit byte-offset codec for the fixed-layout structures that cross
//! process boundaries (ring segment header, slot metadata). Eight-byte words
//! are stored least-significant byte first, so that both sides of a shared
//! region interpret the header identically whatever language produced it.
use vstd::assert_seqs_equal;
use vstd::prelude::*;

verus! {

/// The integer value encoded by eight bytes, least-significant first.
pub open spec fn le8_int(s: Seq<u8>) -> int
    recommends
        s.len() == 8,
{
    s[0] + s[1] * 0x100 + s[2] * 0x1_0000 + s[3] * 0x100_0000 + s[4] * 0x1_0000_0000 + s[5]
        * 0x100_0000_0000 + s[6] * 0x1_0000_0000_0000 + s[7] * 0x100_0000_0000_0000
}

/// The word held by eight little-endian bytes.
pub open spec fn u64_from_le(s: Seq<u8>) -> u64 {
    le8_int(s) as u64
}

/// The eight little-endian bytes of a word.
pub open spec fn u64_to_le(x: u64) -> Seq<u8> {
    seq![
        (x % 0x100) as u8,
        ((x / 0x100) % 0x100) as u8,
        ((x / 0x1_0000) % 0x100) as u8,
        ((x / 0x100_0000) % 0x100) as u8,
        ((x / 0x1_0000_0000) % 0x100) as u8,
        ((x / 0x100_0000_0000) % 0x100) as u8,
        ((x / 0x1_0000_0000_0000) % 0x100) as u8,
        (x / 0x100_0000_0000_0000) as u8,
    ]
}

/// Encoding then decoding a word gives the word back.
pub proof fn lemma_u64_le_round_trip(x: u64)
    ensures
        u64_from_le(u64_to_le(x)) == x,
{
    let s = u64_to_le(x);
    assert(x / 0x100_0000_0000_0000 < 0x100) by (bit_vector);
    assert(x % 0x100 + (x / 0x100) % 0x100 * 0x100 + (x / 0x1_0000) % 0x100 * 0x1_0000 + (x
        / 0x100_0000) % 0x100 * 0x100_0000 + (x / 0x1_0000_0000) % 0x100 * 0x1_0000_0000 + (x
        / 0x100_0000_0000) % 0x100 * 0x100_0000_0000 + (x / 0x1_0000_0000_0000) % 0x100
        * 0x1_0000_0000_0000 + (x / 0x100_0000_0000_0000) * 0x100_0000_0000_0000 == x)
        by (bit_vector);
    assert(le8_int(s) == x);
}

/// Read the word stored at byte offset `off`, least-significant byte first.
pub fn load_u64(v: &Vec<u8>, off: usize) -> (r: u64)
    requires
        off + 8 <= v@.len(),
    ensures
        r == u64_from_le(v@.subrange(off as int, off as int + 8)),
{
    let n = v.len();
    let b0 = v[off] as u64;
    let b1 = v[off + 1] as u64;
    let b2 = v[off + 2] as u64;
    let b3 = v[off + 3] as u64;
    let b4 = v[off + 4] as u64;
    let b5 = v[off + 5] as u64;
    let b6 = v[off + 6] as u64;
    let b7 = v[off + 7] as u64;
    let r = b0 + b1 * 0x100 + b2 * 0x1_0000 + b3 * 0x100_0000 + b4 * 0x1_0000_0000 + b5
        * 0x100_0000_0000 + b6 * 0x1_0000_0000_0000 + b7 * 0x100_0000_0000_0000;
    proof {
        let s = v@.subrange(off as int, off as int + 8);
        assert(le8_int(s) == r);
    }
    r
}

/// Store the word `x` at byte offset `off`, least-significant byte first;
/// every byte outside the eight-byte window keeps its value.
pub fn store_u64(v: &mut Vec<u8>, off: usize, x: u64)
    requires
        off + 8 <= old(v)@.len(),
    ensures
        final(v)@.len() == old(v)@.len(),
        final(v)@.subrange(off as int, off as int + 8) == u64_to_le(x),
        u64_from_le(final(v)@.subrange(off as int, off as int + 8)) == x,
        forall|i: int|
            0 <= i < old(v)@.len() && !(off <= i < off + 8) ==> final(v)@[i] == old(v)@[i],
{
    let n = v.len();
    v.set(off, (x % 0x100) as u8);
    v.set(off + 1, ((x / 0x100) % 0x100) as u8);
    v.set(off + 2, ((x / 0x1_0000) % 0x100) as u8);
    v.set(off + 3, ((x / 0x100_0000) % 0x100) as u8);
    v.set(off + 4, ((x / 0x1_0000_0000) % 0x100) as u8);
    v.set(off + 5, ((x / 0x100_0000_0000) % 0x100) as u8);
    v.set(off + 6, ((x / 0x1_0000_0000_0000) % 0x100) as u8);
    v.set(off + 7, (x / 0x100_0000_0000_0000) as u8);
    proof {
        let s = v@.subrange(off as int, off as int + 8);
        assert_seqs_equal!(s == u64_to_le(x));
        lemma_u64_le_round_trip(x);
    }
}

} // verus!
