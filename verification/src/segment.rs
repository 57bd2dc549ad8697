//! Shared ring segment: a fixed-slot byte region that carries message bodies
//! between processes. The layout is explicit so that every process maps the
//! same bytes to the same meaning: eight bytes of segment id, then one
//! 24-byte metadata record per slot `{sequence, checksum, end offset}`, then
//! `num_slots` fixed payload windows of `max_payload_bytes` each.
//!
//! A slot's sequence word is read as a signed 64-bit value in two's
//! complement: zero means never written (free), a negative value means a
//! write is in progress and the payload bytes are garbage, and a positive
//! value means the slot was committed with that (strictly increasing)
//! sequence. The third metadata word holds the byte offset just past the
//! committed payload within the data region; the payload always begins at
//! its slot's fixed window base, so this one word pins both the position and
//! the extent of the payload.
use crate::bytes::{load_u64, store_u64, u64_from_le};
use crate::checksum::{checksum_of, checksum_range};
use crate::errors::{ErrorKind, SocketError};
use vstd::arithmetic::mul::{lemma_mul_inequality, lemma_mul_nonnegative};
use vstd::prelude::*;

verus! {

/// Largest sequence word still read as a positive signed value; anything
/// above it has the sign bit set and marks a write in progress.
pub const SEQ_MAX: u64 = 0x7fff_ffff_ffff_ffff;

/// Sequence word stored while a write is in progress: all bits set, the
/// two's-complement encoding of a negative value.
pub const SEQ_IN_FLIGHT_MARK: u64 = 0xffff_ffff_ffff_ffff;

/// The slot was committed: its signed sequence is strictly positive.
pub open spec fn seq_is_committed(raw: u64) -> bool {
    1 <= raw <= SEQ_MAX
}

/// A write is in progress on the slot: its signed sequence is negative.
pub open spec fn seq_is_in_flight(raw: u64) -> bool {
    raw > SEQ_MAX
}

/// Bytes of segment id plus metadata records, before the data region.
pub open spec fn spec_header_size(num_slots: int) -> int {
    8 + 24 * num_slots
}

/// Total byte length of a segment region.
pub open spec fn spec_segment_len(num_slots: int, max_payload_bytes: int) -> int {
    spec_header_size(num_slots) + num_slots * max_payload_bytes
}

/// Byte offset of slot `j`'s metadata record.
pub open spec fn spec_meta_off(j: int) -> int {
    8 + 24 * j
}

/// Byte offset of slot `j`'s payload window.
pub open spec fn spec_data_off(num_slots: int, max_payload_bytes: int, j: int) -> int {
    spec_header_size(num_slots) + j * max_payload_bytes
}

/// The segment id stored in the first eight bytes.
pub open spec fn spec_seg_id(b: Seq<u8>) -> u64 {
    u64_from_le(b.subrange(0, 8))
}

/// Slot `j`'s raw sequence word.
pub open spec fn spec_slot_seq(b: Seq<u8>, j: int) -> u64 {
    u64_from_le(b.subrange(spec_meta_off(j), spec_meta_off(j) + 8))
}

/// Slot `j`'s stored checksum word.
pub open spec fn spec_slot_crc(b: Seq<u8>, j: int) -> u64 {
    u64_from_le(b.subrange(spec_meta_off(j) + 8, spec_meta_off(j) + 16))
}

/// Slot `j`'s stored end-offset word: one past its payload, relative to the
/// start of the data region.
pub open spec fn spec_slot_end(b: Seq<u8>, j: int) -> u64 {
    u64_from_le(b.subrange(spec_meta_off(j) + 16, spec_meta_off(j) + 24))
}

/// The payload bytes slot `j` holds, as located by its end-offset word.
pub open spec fn spec_slot_payload(b: Seq<u8>, num_slots: int, max_payload_bytes: int, j: int) -> Seq<
    u8,
> {
    b.subrange(
        spec_data_off(num_slots, max_payload_bytes, j),
        spec_header_size(num_slots) + spec_slot_end(b, j),
    )
}

/// The end-offset word of slot `j` locates a payload inside the slot's own
/// fixed window.
pub open spec fn spec_slot_end_sane(b: Seq<u8>, max_payload_bytes: int, j: int) -> bool {
    j * max_payload_bytes <= spec_slot_end(b, j) <= j * max_payload_bytes + max_payload_bytes
}

/// Bytes of segment id plus metadata records for `num_messages` slots.
pub fn headsize(num_messages: usize) -> (r: usize)
    requires
        8 + 24 * (num_messages as int) <= usize::MAX,
    ensures
        r == spec_header_size(num_messages as int),
{
    8 + 24 * num_messages
}

/// If every byte of an eight-byte window is the same in two equal-length
/// regions, the word stored there is the same.
pub proof fn lemma_word_unchanged(b1: Seq<u8>, b2: Seq<u8>, off: int)
    requires
        b1.len() == b2.len(),
        0 <= off,
        off + 8 <= b1.len(),
        forall|i: int| off <= i < off + 8 ==> b1[i] == b2[i],
    ensures
        u64_from_le(b1.subrange(off, off + 8)) == u64_from_le(b2.subrange(off, off + 8)),
{
    assert(b1.subrange(off, off + 8) =~= b2.subrange(off, off + 8));
}

/// The metadata records and the payload windows of a well-laid-out segment
/// all lie inside the region, and windows of distinct slots are disjoint.
pub proof fn lemma_layout_bounds(n: int, mp: int, j: int)
    requires
        0 <= mp,
        0 <= j < n,
    ensures
        spec_meta_off(j) + 24 <= spec_header_size(n),
        spec_header_size(n) <= spec_data_off(n, mp, j),
        spec_data_off(n, mp, j) + mp <= spec_segment_len(n, mp),
{
    lemma_mul_nonnegative(j, mp);
    lemma_mul_inequality(j + 1, n, mp);
    assert((j + 1) * mp == j * mp + mp) by (nonlinear_arith);
}

/// Payload windows of two distinct slots do not overlap.
pub proof fn lemma_windows_disjoint(n: int, mp: int, j: int, k: int)
    requires
        0 <= mp,
        0 <= j < n,
        0 <= k < n,
        j < k,
    ensures
        spec_data_off(n, mp, j) + mp <= spec_data_off(n, mp, k),
{
    lemma_mul_inequality(j + 1, k, mp);
    assert((j + 1) * mp == j * mp + mp) by (nonlinear_arith);
}

/// Relies on rand::random: draws a 64-bit value from the thread-local
/// generator for the segment id. Nothing is promised of the value.
#[verifier::external_body]
fn random_u64() -> u64 {
    rand::random::<u64>()
}

/// Some slot of the region was never written.
pub open spec fn spec_any_free(b: Seq<u8>, n: int) -> bool {
    exists|i: int| 0 <= i < n && #[trigger] spec_slot_seq(b, i) == 0
}

/// Slot `j` is the one the writer commits to next: the lowest-indexed free
/// slot while one exists, otherwise the slot holding the lowest sequence
/// word (the lowest index on a tie).
pub open spec fn spec_is_write_target(b: Seq<u8>, n: int, j: int) -> bool {
    if spec_any_free(b, n) {
        &&& 0 <= j < n
        &&& spec_slot_seq(b, j) == 0
        &&& forall|i: int| 0 <= i < j ==> #[trigger] spec_slot_seq(b, i) != 0
    } else {
        &&& 0 <= j < n
        &&& forall|i: int| 0 <= i < n ==> spec_slot_seq(b, j) <= #[trigger] spec_slot_seq(b, i)
        &&& forall|i: int| 0 <= i < j ==> #[trigger] spec_slot_seq(b, i) > spec_slot_seq(b, j)
    }
}

/// At most one slot is the write target.
pub proof fn lemma_write_target_unique(b: Seq<u8>, n: int, j: int, k: int)
    requires
        spec_is_write_target(b, n, j),
        spec_is_write_target(b, n, k),
    ensures
        j == k,
{
    if j < k {
        assert(spec_slot_seq(b, j) == spec_slot_seq(b, j));
        if spec_any_free(b, n) {
            assert(spec_slot_seq(b, j) != 0);
        } else {
            assert(spec_slot_seq(b, j) > spec_slot_seq(b, k));
            assert(spec_slot_seq(b, j) <= spec_slot_seq(b, k));
        }
    }
    if k < j {
        if spec_any_free(b, n) {
            assert(spec_slot_seq(b, k) != 0);
        } else {
            assert(spec_slot_seq(b, k) > spec_slot_seq(b, j));
            assert(spec_slot_seq(b, k) <= spec_slot_seq(b, j));
        }
    }
}

/// How one committed write relates the new region bytes to the old ones:
/// the target slot carries the new sequence, the payload's checksum and end
/// offset, and the payload itself; the segment id, every other slot's
/// metadata, and every other sanely-delimited payload stay as they were.
pub open spec fn spec_write_effect(
    b1: Seq<u8>,
    b2: Seq<u8>,
    n: int,
    mp: int,
    j: int,
    seq: u64,
    p: Seq<u8>,
) -> bool {
    &&& b2.len() == b1.len()
    &&& spec_slot_seq(b2, j) == seq
    &&& spec_slot_crc(b2, j) == checksum_of(p)
    &&& spec_slot_end(b2, j) == j * mp + p.len()
    &&& spec_slot_payload(b2, n, mp, j) == p
    &&& spec_seg_id(b2) == spec_seg_id(b1)
    &&& forall|k: int|
        0 <= k < n && k != j ==> {
            &&& #[trigger] spec_slot_seq(b2, k) == spec_slot_seq(b1, k)
            &&& spec_slot_crc(b2, k) == spec_slot_crc(b1, k)
            &&& spec_slot_end(b2, k) == spec_slot_end(b1, k)
        }
    &&& forall|k: int|
        0 <= k < n && k != j && spec_slot_end_sane(b1, mp, k) ==> #[trigger] spec_slot_payload(
            b2,
            n,
            mp,
            k,
        ) == spec_slot_payload(b1, n, mp, k)
}

/// The byte-level invariant a single writer maintains on its region: the
/// layout length holds, no write is left in progress, and every committed
/// slot carries a sequence below `next`, a sane end offset, and a checksum
/// matching its payload, with no two committed sequences equal.
pub open spec fn spec_region_wf(b: Seq<u8>, n: int, mp: int, next: u64) -> bool {
    &&& b.len() == spec_segment_len(n, mp)
    &&& forall|j: int| 0 <= j < n ==> !seq_is_in_flight(#[trigger] spec_slot_seq(b, j))
    &&& forall|j: int|
        0 <= j < n && seq_is_committed(#[trigger] spec_slot_seq(b, j)) ==> {
            &&& spec_slot_seq(b, j) < next
            &&& spec_slot_end_sane(b, mp, j)
            &&& spec_slot_crc(b, j) == checksum_of(spec_slot_payload(b, n, mp, j))
        }
    &&& forall|j: int, k: int|
        0 <= j < n && 0 <= k < n && j != k && seq_is_committed(#[trigger] spec_slot_seq(b, j))
            && seq_is_committed(#[trigger] spec_slot_seq(b, k)) ==> spec_slot_seq(b, j)
            != spec_slot_seq(b, k)
}

/// The five intermediate byte states of one commit compose into the
/// write effect: only the target slot's record and window changed, and they
/// now describe the committed payload.
pub proof fn lemma_commit_effect(
    b0: Seq<u8>,
    b1: Seq<u8>,
    b2: Seq<u8>,
    b3: Seq<u8>,
    b4: Seq<u8>,
    b5: Seq<u8>,
    n: int,
    mp: int,
    j: int,
    seqv: u64,
    p: Seq<u8>,
    crc: u64,
)
    requires
        0 <= j < n,
        0 <= mp,
        p.len() <= mp,
        b0.len() == spec_segment_len(n, mp),
        b1.len() == b0.len(),
        b2.len() == b0.len(),
        b3.len() == b0.len(),
        b4.len() == b0.len(),
        b5.len() == b0.len(),
        forall|i: int|
            0 <= i < b0.len() && !(spec_meta_off(j) <= i < spec_meta_off(j) + 8) ==> #[trigger] b1[i]
                == b0[i],
        forall|i: int|
            0 <= i < b0.len() && !(spec_data_off(n, mp, j) <= i < spec_data_off(n, mp, j)
                + p.len()) ==> #[trigger] b2[i] == b1[i],
        forall|i: int|
            spec_data_off(n, mp, j) <= i < spec_data_off(n, mp, j) + p.len() ==> #[trigger] b2[i]
                == p[i - spec_data_off(n, mp, j)],
        crc == checksum_of(p),
        spec_slot_crc(b3, j) == crc,
        forall|i: int|
            0 <= i < b0.len() && !(spec_meta_off(j) + 8 <= i < spec_meta_off(j) + 16)
                ==> #[trigger] b3[i] == b2[i],
        spec_slot_end(b4, j) == j * mp + p.len(),
        forall|i: int|
            0 <= i < b0.len() && !(spec_meta_off(j) + 16 <= i < spec_meta_off(j) + 24)
                ==> #[trigger] b4[i] == b3[i],
        spec_slot_seq(b5, j) == seqv,
        forall|i: int|
            0 <= i < b0.len() && !(spec_meta_off(j) <= i < spec_meta_off(j) + 8) ==> #[trigger] b5[i]
                == b4[i],
    ensures
        spec_write_effect(b0, b5, n, mp, j, seqv, p),
{
    let m = spec_meta_off(j);
    let d = spec_data_off(n, mp, j);
    let glen = p.len() as int;
    lemma_layout_bounds(n, mp, j);
    assert forall|i: int|
        0 <= i < b0.len() && !(m <= i < m + 24) && !(d <= i < d + glen) implies #[trigger] b5[i]
        == b0[i] by {
        assert(b1[i] == b0[i]);
        assert(b2[i] == b1[i]);
        assert(b3[i] == b2[i]);
        assert(b4[i] == b3[i]);
        assert(b5[i] == b4[i]);
    }
    lemma_word_unchanged(b0, b5, 0);
    lemma_word_unchanged(b3, b4, m + 8);
    lemma_word_unchanged(b4, b5, m + 8);
    lemma_word_unchanged(b4, b5, m + 16);
    assert forall|i: int| d <= i < d + glen implies #[trigger] b5[i] == p[i - d] by {
        assert(b2[i] == p[i - d]);
        assert(b3[i] == b2[i]);
        assert(b4[i] == b3[i]);
        assert(b5[i] == b4[i]);
    }
    assert(spec_slot_end(b5, j) == j * mp + glen);
    assert(spec_slot_payload(b5, n, mp, j) =~= p);
    assert forall|k: int| 0 <= k < n && k != j implies {
        &&& #[trigger] spec_slot_seq(b5, k) == spec_slot_seq(b0, k)
        &&& spec_slot_crc(b5, k) == spec_slot_crc(b0, k)
        &&& spec_slot_end(b5, k) == spec_slot_end(b0, k)
    } by {
        lemma_layout_bounds(n, mp, k);
        lemma_word_unchanged(b0, b5, spec_meta_off(k));
        lemma_word_unchanged(b0, b5, spec_meta_off(k) + 8);
        lemma_word_unchanged(b0, b5, spec_meta_off(k) + 16);
    }
    assert forall|k: int|
        0 <= k < n && k != j && spec_slot_end_sane(b0, mp, k) implies #[trigger] spec_slot_payload(
        b5,
        n,
        mp,
        k,
    ) == spec_slot_payload(b0, n, mp, k) by {
        lemma_layout_bounds(n, mp, k);
        if k < j {
            lemma_windows_disjoint(n, mp, k, j);
        } else {
            lemma_windows_disjoint(n, mp, j, k);
        }
        lemma_word_unchanged(b0, b5, spec_meta_off(k) + 16);
        assert(spec_slot_payload(b5, n, mp, k) =~= spec_slot_payload(b0, n, mp, k));
    }
}

/// One committed write preserves the writer's region invariant and takes
/// the next sequence one step up.
pub proof fn lemma_commit_wf(
    b0: Seq<u8>,
    b5: Seq<u8>,
    n: int,
    mp: int,
    j: int,
    seqv: u64,
    p: Seq<u8>,
)
    requires
        0 <= mp,
        0 <= j < n,
        1 <= seqv < SEQ_MAX,
        p.len() <= mp,
        spec_region_wf(b0, n, mp, seqv),
        spec_write_effect(b0, b5, n, mp, j, seqv, p),
    ensures
        spec_region_wf(b5, n, mp, (seqv + 1) as u64),
{
    assert forall|k: int|
        0 <= k < n && seq_is_committed(#[trigger] spec_slot_seq(b5, k)) implies {
        &&& spec_slot_seq(b5, k) < seqv + 1
        &&& spec_slot_end_sane(b5, mp, k)
        &&& spec_slot_crc(b5, k) == checksum_of(spec_slot_payload(b5, n, mp, k))
    } by {
        if k == j {
            assert(spec_slot_end(b5, k) == j * mp + p.len());
            assert(spec_slot_end_sane(b5, mp, k));
        } else {
            assert(spec_slot_seq(b5, k) == spec_slot_seq(b0, k));
            if seq_is_committed(spec_slot_seq(b0, k)) {
                assert(spec_slot_end_sane(b0, mp, k));
                assert(spec_slot_end(b5, k) == spec_slot_end(b0, k));
                assert(spec_slot_payload(b5, n, mp, k) == spec_slot_payload(b0, n, mp, k));
            }
        }
    }
    assert forall|k: int| 0 <= k < n implies !seq_is_in_flight(#[trigger] spec_slot_seq(b5, k)) by {
        if k != j {
            assert(spec_slot_seq(b5, k) == spec_slot_seq(b0, k));
        }
    }
}

/// Read slot `j`'s raw sequence word from a region laid out for `n` slots.
pub fn load_slot_seq(b: &Vec<u8>, n: usize, j: usize) -> (r: u64)
    requires
        spec_header_size(n as int) <= b@.len(),
        j < n,
    ensures
        r == spec_slot_seq(b@, j as int),
{
    let blen = b.len();
    let off = 8 + 24 * j;
    load_u64(b, off)
}

/// Read slot `j`'s stored checksum word.
pub fn load_slot_crc(b: &Vec<u8>, n: usize, j: usize) -> (r: u64)
    requires
        spec_header_size(n as int) <= b@.len(),
        j < n,
    ensures
        r == spec_slot_crc(b@, j as int),
{
    let blen = b.len();
    let off = 8 + 24 * j + 8;
    load_u64(b, off)
}

/// Read slot `j`'s stored end-offset word.
pub fn load_slot_end(b: &Vec<u8>, n: usize, j: usize) -> (r: u64)
    requires
        spec_header_size(n as int) <= b@.len(),
        j < n,
    ensures
        r == spec_slot_end(b@, j as int),
{
    let blen = b.len();
    let off = 8 + 24 * j + 16;
    load_u64(b, off)
}

/// Copy `arr` into the window of `b` starting at `doff`; every byte outside
/// the window keeps its value.
fn copy_into(b: &mut Vec<u8>, doff: usize, arr: &[u8])
    requires
        doff + arr@.len() <= old(b)@.len(),
    ensures
        final(b)@.len() == old(b)@.len(),
        forall|t: int|
            doff <= t < doff + arr@.len() ==> #[trigger] final(b)@[t] == arr@[t - doff],
        forall|t: int|
            0 <= t < old(b)@.len() && !(doff <= t < doff + arr@.len()) ==> #[trigger] final(b)@[t]
                == old(b)@[t],
{
    let ghost bsnap = b@;
    let blen = b.len();
    let len = arr.len();
    let mut i: usize = 0;
    while i < len
        invariant
            b@.len() == blen,
            blen == bsnap.len(),
            i <= len,
            len == arr@.len(),
            doff + len <= blen,
            forall|t: int| doff <= t < doff + i ==> #[trigger] b@[t] == arr@[t - doff],
            forall|t: int|
                0 <= t < blen && !(doff <= t < doff + i) ==> #[trigger] b@[t] == bsnap[t],
        decreases len - i,
    {
        let v = arr[i];
        b.set(doff + i, v);
        i = i + 1;
    }
}

/// Store slot `j`'s raw sequence word; no byte outside that word changes.
fn store_slot_seq(b: &mut Vec<u8>, n: usize, j: usize, x: u64)
    requires
        spec_header_size(n as int) <= old(b)@.len(),
        j < n,
    ensures
        final(b)@.len() == old(b)@.len(),
        spec_slot_seq(final(b)@, j as int) == x,
        forall|i: int|
            0 <= i < old(b)@.len() && !(spec_meta_off(j as int) <= i < spec_meta_off(j as int) + 8)
                ==> final(b)@[i] == old(b)@[i],
{
    let blen = b.len();
    let off = 8 + 24 * j;
    store_u64(b, off, x);
}

/// Store slot `j`'s checksum word; no byte outside that word changes.
fn store_slot_crc(b: &mut Vec<u8>, n: usize, j: usize, x: u64)
    requires
        spec_header_size(n as int) <= old(b)@.len(),
        j < n,
    ensures
        final(b)@.len() == old(b)@.len(),
        spec_slot_crc(final(b)@, j as int) == x,
        forall|i: int|
            0 <= i < old(b)@.len() && !(spec_meta_off(j as int) + 8 <= i < spec_meta_off(j as int)
                + 16) ==> final(b)@[i] == old(b)@[i],
{
    let blen = b.len();
    let off = 8 + 24 * j + 8;
    store_u64(b, off, x);
}

/// Store slot `j`'s end-offset word; no byte outside that word changes.
fn store_slot_end(b: &mut Vec<u8>, n: usize, j: usize, x: u64)
    requires
        spec_header_size(n as int) <= old(b)@.len(),
        j < n,
    ensures
        final(b)@.len() == old(b)@.len(),
        spec_slot_end(final(b)@, j as int) == x,
        forall|i: int|
            0 <= i < old(b)@.len() && !(spec_meta_off(j as int) + 16 <= i < spec_meta_off(j as int)
                + 24) ==> final(b)@[i] == old(b)@[i],
{
    let blen = b.len();
    let off = 8 + 24 * j + 16;
    store_u64(b, off, x);
}

/// The single writer of a ring segment. It owns the region's bytes and the
/// next sequence number to commit; callers must serialize writers
/// externally, one writer per segment.
#[derive(Debug)]
pub struct SharedSegmentWriter {
    pub bytes: Vec<u8>,
    pub num_messages: usize,
    pub max_message_bytes: usize,
    pub next_seq: u64,
}

impl SharedSegmentWriter {
    /// The region is laid out for exactly `num_messages` slots of
    /// `max_message_bytes`, no write is in progress, every committed slot
    /// carries a distinct sequence below `next_seq` with a sane end offset
    /// and a checksum that matches its payload, and the next sequence to
    /// commit is still positive as a signed value.
    pub open spec fn wf(&self) -> bool {
        &&& 1 <= self.next_seq <= SEQ_MAX
        &&& spec_region_wf(
            self.bytes@,
            self.num_messages as int,
            self.max_message_bytes as int,
            self.next_seq,
        )
    }

    /// The region's bytes, for sharing with readers.
    pub fn region(&self) -> (r: &Vec<u8>)
        ensures
            r == &self.bytes,
    {
        &self.bytes
    }

    /// The slot count the region was laid out for.
    pub fn slot_count(&self) -> (r: usize)
        ensures
            r == self.num_messages,
    {
        self.num_messages
    }

    /// The fixed payload capacity of each slot.
    pub fn payload_capacity(&self) -> (r: usize)
        ensures
            r == self.max_message_bytes,
    {
        self.max_message_bytes
    }

    /// The sequence the next committed write will carry.
    pub fn next_sequence(&self) -> (r: u64)
        ensures
            r == self.next_seq,
    {
        self.next_seq
    }

    /// Pick the slot the next write commits to: the lowest-indexed free
    /// slot if one exists, else the slot with the lowest sequence word.
    fn select_slot(&self) -> (j: usize)
        requires
            self.wf(),
            self.num_messages >= 1,
        ensures
            spec_is_write_target(self.bytes@, self.num_messages as int, j as int),
    {
        let n = self.num_messages;
        proof {
            lemma_mul_nonnegative(n as int, self.max_message_bytes as int);
        }
        let mut i: usize = 0;
        while i < n
            invariant
                self.wf(),
                n == self.num_messages,
                spec_header_size(n as int) <= self.bytes@.len(),
                i <= n,
                forall|k: int| 0 <= k < i ==> #[trigger] spec_slot_seq(self.bytes@, k) != 0,
            decreases n - i,
        {
            if load_slot_seq(&self.bytes, n, i) == 0 {
                proof {
                    assert(spec_slot_seq(self.bytes@, i as int) == 0);
                    assert(spec_any_free(self.bytes@, n as int));
                }
                return i;
            }
            i = i + 1;
        }
        proof {
            assert(!spec_any_free(self.bytes@, n as int));
        }
        let mut best: usize = 0;
        let mut best_seq: u64 = load_slot_seq(&self.bytes, n, 0);
        let mut k: usize = 1;
        while k < n
            invariant
                self.wf(),
                n == self.num_messages,
                spec_header_size(n as int) <= self.bytes@.len(),
                1 <= k <= n,
                (best as int) < k,
                best_seq == spec_slot_seq(self.bytes@, best as int),
                forall|t: int| 0 <= t < k ==> best_seq <= #[trigger] spec_slot_seq(self.bytes@, t),
                forall|t: int|
                    0 <= t < best ==> #[trigger] spec_slot_seq(self.bytes@, t) > best_seq,
            decreases n - k,
        {
            let s = load_slot_seq(&self.bytes, n, k);
            if s < best_seq {
                best = k;
                best_seq = s;
            }
            k = k + 1;
        }
        best
    }

    /// Run the four commit steps on slot `j`: mark its sequence negative,
    /// copy the payload bytes, store their checksum and end offset, and
    /// only then publish the new positive sequence. A reader in another
    /// process therefore never sees a half-written slot behind a positive
    /// sequence.
    fn commit_at(&mut self, j: usize, arr: &[u8])
        requires
            old(self).wf(),
            j < old(self).num_messages,
            arr@.len() <= old(self).max_message_bytes,
            old(self).next_seq < SEQ_MAX,
        ensures
            final(self).wf(),
            final(self).num_messages == old(self).num_messages,
            final(self).max_message_bytes == old(self).max_message_bytes,
            final(self).next_seq == old(self).next_seq + 1,
            spec_write_effect(
                old(self).bytes@,
                final(self).bytes@,
                old(self).num_messages as int,
                old(self).max_message_bytes as int,
                j as int,
                old(self).next_seq,
                arr@,
            ),
    {
        let n = self.num_messages;
        let mp = self.max_message_bytes;
        let ghost gn = n as int;
        let ghost gmp = mp as int;
        let ghost b0 = self.bytes@;
        proof {
            lemma_mul_nonnegative(gn, gmp);
            lemma_layout_bounds(gn, gmp, j as int);
        }
        let blen = self.bytes.len();
        let len = arr.len();
        // Step one: mark the slot as write-in-progress.
        store_slot_seq(&mut self.bytes, n, j, SEQ_IN_FLIGHT_MARK);
        let ghost b1 = self.bytes@;
        // Step two: copy the payload into the slot's data window.
        let doff = 8 + 24 * n + j * mp;
        copy_into(&mut self.bytes, doff, arr);
        let ghost b2 = self.bytes@;
        // Step three: store the payload checksum and its end offset.
        let crc = checksum_range(&self.bytes, doff, len);
        proof {
            assert(self.bytes@.subrange(doff as int, doff as int + len as int) =~= arr@);
        }
        store_slot_crc(&mut self.bytes, n, j, crc);
        let ghost b3 = self.bytes@;
        let end = j * mp + len;
        store_slot_end(&mut self.bytes, n, j, end as u64);
        let ghost b4 = self.bytes@;
        // Step four: publish the slot by storing the new positive sequence.
        let seq = self.next_seq;
        store_slot_seq(&mut self.bytes, n, j, seq);
        self.next_seq = seq + 1;
        proof {
            let b5 = self.bytes@;
            let gj = j as int;
            lemma_commit_effect(b0, b1, b2, b3, b4, b5, gn, gmp, gj, seq, arr@, crc);
            lemma_commit_wf(b0, b5, gn, gmp, gj, seq, arr@);
        }
    }

    /// Commit one payload into the ring: pick the write target (the lowest
    /// free slot, else the slot with the lowest committed sequence) and run
    /// the commit protocol on it. Succeeds exactly when the ring has a
    /// slot, the payload fits one, and the sequence space is not exhausted.
    pub fn write(&mut self, arr: &[u8]) -> (r: Result<(), SocketError>)
        requires
            old(self).wf(),
        ensures
            final(self).wf(),
            final(self).num_messages == old(self).num_messages,
            final(self).max_message_bytes == old(self).max_message_bytes,
            (r is Ok) <==> (old(self).num_messages >= 1 && arr@.len()
                <= old(self).max_message_bytes && old(self).next_seq < SEQ_MAX),
            r is Err ==> *final(self) == *old(self),
            r matches Err(e) ==> ((old(self).num_messages == 0 || arr@.len()
                > old(self).max_message_bytes) ==> e.kind == ErrorKind::Io),
            r matches Err(e) ==> ((old(self).num_messages >= 1 && arr@.len()
                <= old(self).max_message_bytes) ==> e.kind == ErrorKind::Protocol),
            r is Ok ==> final(self).next_seq == old(self).next_seq + 1,
            r is Ok ==> exists|j: int|
                spec_is_write_target(old(self).bytes@, old(self).num_messages as int, j),
            r is Ok ==> forall|j: int|
                #[trigger] spec_is_write_target(old(self).bytes@, old(self).num_messages as int, j)
                    ==> spec_write_effect(
                    old(self).bytes@,
                    final(self).bytes@,
                    old(self).num_messages as int,
                    old(self).max_message_bytes as int,
                    j,
                    old(self).next_seq,
                    arr@,
                ),
    {
        let n = self.num_messages;
        let mp = self.max_message_bytes;
        if n == 0 || arr.len() > mp {
            return Err(
                SocketError::with_kind(ErrorKind::Io, "payload does not fit a ring slot"),
            );
        }
        if self.next_seq >= SEQ_MAX {
            return Err(
                SocketError::with_kind(ErrorKind::Protocol, "segment sequence space exhausted"),
            );
        }
        let ghost gn = n as int;
        let ghost gmp = mp as int;
        let ghost b0 = self.bytes@;
        let ghost seq = self.next_seq;
        let j = self.select_slot();
        self.commit_at(j, arr);
        proof {
            assert forall|t: int| #[trigger]
                spec_is_write_target(b0, gn, t) implies spec_write_effect(
                b0,
                self.bytes@,
                gn,
                gmp,
                t,
                seq,
                arr@,
            ) by {
                lemma_write_target_unique(b0, gn, t, j as int);
            }
        }
        Ok(())
    }

    /// Lay out a fresh segment: a zero-filled region (zero sequence means
    /// free, so the slots need no further initialization) with a randomly
    /// drawn segment id in its first eight bytes. Construction succeeds
    /// exactly when the region's byte length fits the platform.
    pub fn new(num_messages: usize, max_bytes: usize) -> (r: Result<
        SharedSegmentWriter,
        SocketError,
    >)
        ensures
            r is Ok <==> spec_segment_len(num_messages as int, max_bytes as int) <= usize::MAX,
            r matches Ok(w) ==> {
                &&& w.wf()
                &&& w.num_messages == num_messages
                &&& w.max_message_bytes == max_bytes
                &&& w.next_seq == 1
                &&& forall|j: int|
                    0 <= j < num_messages ==> #[trigger] spec_slot_seq(w.bytes@, j) == 0
            },
            r matches Err(e) ==> e.kind == ErrorKind::Construction,
    {
        let head = match num_messages.checked_mul(24) {
            Some(m) => match m.checked_add(8) {
                Some(h) => h,
                None => {
                    return Err(
                        SocketError::with_kind(
                            ErrorKind::Construction,
                            "segment header size overflows the platform",
                        ),
                    );
                },
            },
            None => {
                return Err(
                    SocketError::with_kind(
                        ErrorKind::Construction,
                        "segment header size overflows the platform",
                    ),
                );
            },
        };
        let data = match num_messages.checked_mul(max_bytes) {
            Some(d) => d,
            None => {
                return Err(
                    SocketError::with_kind(
                        ErrorKind::Construction,
                        "segment data size overflows the platform",
                    ),
                );
            },
        };
        let total = match head.checked_add(data) {
            Some(t) => t,
            None => {
                return Err(
                    SocketError::with_kind(
                        ErrorKind::Construction,
                        "segment size overflows the platform",
                    ),
                );
            },
        };
        let mut bytes: Vec<u8> = Vec::new();
        let mut i: usize = 0;
        while i < total
            invariant
                i <= total,
                bytes@.len() == i,
                forall|k: int| 0 <= k < i ==> bytes@[k] == 0u8,
            decreases total - i,
        {
            bytes.push(0u8);
            i = i + 1;
        }
        let id = random_u64();
        store_u64(&mut bytes, 0, id);
        let w = SharedSegmentWriter { bytes, num_messages, max_message_bytes: max_bytes, next_seq: 1 };
        proof {
            let b = w.bytes@;
            let n = num_messages as int;
            let mp = max_bytes as int;
            assert forall|j: int| 0 <= j < n implies #[trigger] spec_slot_seq(b, j) == 0 by {
                let s = b.subrange(spec_meta_off(j), spec_meta_off(j) + 8);
                assert(forall|k: int| 0 <= k < 8 ==> s[k] == 0u8);
                assert(crate::bytes::le8_int(s) == 0);
            }
        }
        Ok(w)
    }
}

/// Round trip: the payload committed by a write is intact in the new
/// region, readable by any reader that has not yet consumed its sequence,
/// and is exactly the payload handed to the write; by `read_slot`'s
/// contract such a reader is therefore delivered exactly those bytes, with
/// the stored checksum matching.
pub proof fn lemma_segment_round_trip(
    b1: Seq<u8>,
    b2: Seq<u8>,
    n: int,
    mp: int,
    j: int,
    seqv: u64,
    p: Seq<u8>,
    consumed: u64,
)
    requires
        0 <= j < n,
        0 <= mp,
        p.len() <= mp,
        seq_is_committed(seqv),
        consumed < seqv,
        spec_write_effect(b1, b2, n, mp, j, seqv, p),
    ensures
        spec_slot_readable(b2, j, consumed),
        spec_slot_intact(b2, n, mp, j),
        spec_slot_payload(b2, n, mp, j) == p,
        spec_slot_crc(b2, j) == checksum_of(p),
{
}

/// Eviction: when no slot of the ring is free, the slot the writer commits
/// to is one holding the lowest committed sequence.
pub proof fn lemma_eviction_lowest(b: Seq<u8>, n: int, j: int)
    requires
        !spec_any_free(b, n),
        spec_is_write_target(b, n, j),
    ensures
        forall|k: int| 0 <= k < n ==> spec_slot_seq(b, j) <= #[trigger] spec_slot_seq(b, k),
{
}

/// The fill-phase shape of a fresh ring after its first `m` commits with
/// no eviction yet: slot `j` holds sequence `j + 1` for the first `m`
/// slots and is free after that.
pub open spec fn spec_ring_filled(b: Seq<u8>, n: int, m: int) -> bool {
    forall|j: int|
        0 <= j < n ==> #[trigger] spec_slot_seq(b, j) == if j < m {
            (j + 1) as u64
        } else {
            0u64
        }
}

/// A fresh region, all of whose slots are free, is a ring before its
/// first commit.
pub proof fn lemma_fresh_ring_is_unfilled(b: Seq<u8>, n: int)
    requires
        forall|j: int| 0 <= j < n ==> #[trigger] spec_slot_seq(b, j) == 0,
    ensures
        spec_ring_filled(b, n, 0),
{
}

/// While the ring still has free slots, each commit lands in the next free
/// slot in index order and keeps the fill-phase shape.
pub proof fn lemma_ring_fill_step(
    b1: Seq<u8>,
    b2: Seq<u8>,
    n: int,
    mp: int,
    j: int,
    m: int,
    seqv: u64,
    p: Seq<u8>,
)
    requires
        0 <= m < n,
        n <= SEQ_MAX,
        seqv == m + 1,
        spec_ring_filled(b1, n, m),
        spec_is_write_target(b1, n, j),
        spec_write_effect(b1, b2, n, mp, j, seqv, p),
    ensures
        j == m,
        spec_ring_filled(b2, n, m + 1),
{
    assert(spec_slot_seq(b1, m) == 0);
    assert(spec_any_free(b1, n));
    assert(forall|i: int| 0 <= i < m ==> #[trigger] spec_slot_seq(b1, i) != 0);
    if j < m {
        assert(spec_slot_seq(b1, j) != 0);
    }
    if j > m {
        assert(spec_slot_seq(b1, m) != 0);
    }
}

/// The first write after the ring has filled overwrites the slot holding
/// the lowest committed sequence, and afterwards the ring's slots hold
/// exactly the `n` most recent sequences.
pub proof fn lemma_ring_eviction(
    b1: Seq<u8>,
    b2: Seq<u8>,
    n: int,
    mp: int,
    j: int,
    seqv: u64,
    p: Seq<u8>,
)
    requires
        1 <= n,
        n + 1 <= SEQ_MAX,
        seqv == n + 1,
        spec_ring_filled(b1, n, n),
        spec_is_write_target(b1, n, j),
        spec_write_effect(b1, b2, n, mp, j, seqv, p),
    ensures
        j == 0,
        forall|k: int| 0 <= k < n ==> spec_slot_seq(b1, 0) <= #[trigger] spec_slot_seq(b1, k),
        forall|k: int|
            0 <= k < n ==> #[trigger] spec_slot_seq(b2, k) == if k == 0 {
                (n + 1) as u64
            } else {
                (k + 1) as u64
            },
{
    assert(forall|i: int| 0 <= i < n ==> #[trigger] spec_slot_seq(b1, i) == i + 1);
    assert(!spec_any_free(b1, n));
    if j > 0 {
        assert(spec_slot_seq(b1, 0) < spec_slot_seq(b1, j));
        assert(spec_slot_seq(b1, j) <= spec_slot_seq(b1, 0));
    }
}

/// Slot `j` has something new for a reader that has consumed up to
/// `consumed`: it is committed and its sequence is higher.
pub open spec fn spec_slot_readable(b: Seq<u8>, j: int, consumed: u64) -> bool {
    &&& seq_is_committed(spec_slot_seq(b, j))
    &&& spec_slot_seq(b, j) > consumed
}

/// Slot `j`'s stored metadata checks out: the end offset stays inside the
/// slot's window and the stored checksum matches the payload it delimits.
pub open spec fn spec_slot_intact(b: Seq<u8>, n: int, mp: int, j: int) -> bool {
    &&& spec_slot_end_sane(b, mp, j)
    &&& spec_slot_crc(b, j) == checksum_of(spec_slot_payload(b, n, mp, j))
}

/// A reader of a ring segment. It never mutates the region; it only tracks,
/// per slot, the highest sequence it has already consumed, so unchanged
/// slots are not delivered twice.
pub struct SharedSegmentReader {
    pub num_messages: usize,
    pub max_message_bytes: usize,
    pub consumed: Vec<u64>,
}

impl SharedSegmentReader {
    /// One consumed mark per slot, each a plausible committed sequence.
    pub open spec fn wf(&self) -> bool {
        &&& self.consumed@.len() == self.num_messages
        &&& forall|j: int| 0 <= j < self.consumed@.len() ==> #[trigger] self.consumed@[j] <= SEQ_MAX
    }

    /// A fresh reader for a segment laid out with `num_messages` slots of
    /// `max_bytes`: nothing has been consumed yet.
    pub fn new(num_messages: usize, max_bytes: usize) -> (r: SharedSegmentReader)
        ensures
            r.wf(),
            r.num_messages == num_messages,
            r.max_message_bytes == max_bytes,
            forall|j: int| 0 <= j < num_messages ==> #[trigger] r.consumed@[j] == 0,
    {
        let mut consumed: Vec<u64> = Vec::new();
        let mut i: usize = 0;
        while i < num_messages
            invariant
                i <= num_messages,
                consumed@.len() == i,
                forall|j: int| 0 <= j < i ==> #[trigger] consumed@[j] == 0,
            decreases num_messages - i,
        {
            consumed.push(0);
            i = i + 1;
        }
        SharedSegmentReader { num_messages, max_message_bytes: max_bytes, consumed }
    }

    /// Try to read slot `idx` from the shared region `b`. A slot is
    /// delivered only if its sequence is positive, new to this reader, and
    /// the recomputed payload checksum matches the stored one; a slot that
    /// is free, mid-write (negative sequence), or already consumed is
    /// skipped; a checksum or offset mismatch is a corruption error, to be
    /// retried after the concurrent writer has finished.
    pub fn read_slot(&mut self, b: &Vec<u8>, idx: usize) -> (r: Result<
        Option<Vec<u8>>,
        SocketError,
    >)
        requires
            old(self).wf(),
            b@.len() == spec_segment_len(
                old(self).num_messages as int,
                old(self).max_message_bytes as int,
            ),
            idx < old(self).num_messages,
        ensures
            final(self).wf(),
            final(self).num_messages == old(self).num_messages,
            final(self).max_message_bytes == old(self).max_message_bytes,
            !spec_slot_readable(b@, idx as int, old(self).consumed@[idx as int]) ==> (r matches
                Ok(o) && o is None && *final(self) == *old(self)),
            (r is Err) <==> (spec_slot_readable(b@, idx as int, old(self).consumed@[idx as int])
                && !spec_slot_intact(
                b@,
                old(self).num_messages as int,
                old(self).max_message_bytes as int,
                idx as int,
            )),
            r matches Err(e) ==> (e.kind == ErrorKind::Corruption && *final(self) == *old(self)),
            (spec_slot_readable(b@, idx as int, old(self).consumed@[idx as int])
                && spec_slot_intact(
                b@,
                old(self).num_messages as int,
                old(self).max_message_bytes as int,
                idx as int,
            )) ==> (r matches Ok(o) && o matches Some(p) && p@ == spec_slot_payload(
                b@,
                old(self).num_messages as int,
                old(self).max_message_bytes as int,
                idx as int,
            ) && final(self).consumed@ == old(self).consumed@.update(
                idx as int,
                spec_slot_seq(b@, idx as int),
            )),
            seq_is_in_flight(spec_slot_seq(b@, idx as int)) ==> (r matches Ok(o) && o is None),
    {
        let n = self.num_messages;
        let mp = self.max_message_bytes;
        let ghost gn = n as int;
        let ghost gmp = mp as int;
        proof {
            lemma_mul_nonnegative(gn, gmp);
            lemma_layout_bounds(gn, gmp, idx as int);
        }
        let blen = b.len();
        let raw = load_slot_seq(b, n, idx);
        if raw == 0 || raw > SEQ_MAX {
            return Ok(None);
        }
        let seen = self.consumed[idx];
        if raw <= seen {
            return Ok(None);
        }
        let wb = idx * mp;
        let endw = load_slot_end(b, n, idx);
        if endw < wb as u64 || endw > (wb + mp) as u64 {
            return Err(
                SocketError::with_kind(
                    ErrorKind::Corruption,
                    "slot end offset leaves its window",
                ),
            );
        }
        let len = (endw - wb as u64) as usize;
        let start = 8 + 24 * n + wb;
        let crc = checksum_range(b, start, len);
        let stored = load_slot_crc(b, n, idx);
        proof {
            assert(b@.subrange(start as int, start as int + len as int) =~= spec_slot_payload(
                b@,
                gn,
                gmp,
                idx as int,
            ));
        }
        if crc != stored {
            return Err(
                SocketError::with_kind(
                    ErrorKind::Corruption,
                    "slot checksum does not match its payload",
                ),
            );
        }
        let mut out: Vec<u8> = Vec::new();
        let mut i: usize = 0;
        while i < len
            invariant
                i <= len,
                start + len <= blen,
                blen == b@.len(),
                out@.len() == i,
                forall|t: int| 0 <= t < i ==> #[trigger] out@[t] == b@[start + t],
            decreases len - i,
        {
            out.push(b[start + i]);
            i = i + 1;
        }
        proof {
            assert(out@ =~= spec_slot_payload(b@, gn, gmp, idx as int));
        }
        self.consumed.set(idx, raw);
        Ok(Some(out))
    }

    /// Scan the slots in index order and deliver the first one holding a
    /// new, intact payload, with its slot index. A slot that is free,
    /// mid-write, already consumed, or failing its checksum (being
    /// overwritten right now) is skipped, to be retried on a later scan;
    /// the scan delivers nothing exactly when no slot has a new, intact
    /// payload.
    pub fn read_next(&mut self, b: &Vec<u8>) -> (r: Option<(usize, Vec<u8>)>)
        requires
            old(self).wf(),
            b@.len() == spec_segment_len(
                old(self).num_messages as int,
                old(self).max_message_bytes as int,
            ),
        ensures
            final(self).wf(),
            final(self).num_messages == old(self).num_messages,
            final(self).max_message_bytes == old(self).max_message_bytes,
            r is None ==> *final(self) == *old(self),
            r is None ==> forall|j: int|
                0 <= j < old(self).num_messages ==> !(spec_slot_readable(
                    b@,
                    j,
                    old(self).consumed@[j],
                ) && spec_slot_intact(
                    b@,
                    old(self).num_messages as int,
                    old(self).max_message_bytes as int,
                    j,
                )),
            r matches Some(jp) ==> {
                &&& jp.0 < old(self).num_messages
                &&& spec_slot_readable(b@, jp.0 as int, old(self).consumed@[jp.0 as int])
                &&& spec_slot_intact(
                    b@,
                    old(self).num_messages as int,
                    old(self).max_message_bytes as int,
                    jp.0 as int,
                )
                &&& jp.1@ == spec_slot_payload(
                    b@,
                    old(self).num_messages as int,
                    old(self).max_message_bytes as int,
                    jp.0 as int,
                )
                &&& final(self).consumed@ == old(self).consumed@.update(
                    jp.0 as int,
                    spec_slot_seq(b@, jp.0 as int),
                )
                &&& forall|t: int|
                    0 <= t < jp.0 ==> !(spec_slot_readable(b@, t, old(self).consumed@[t])
                        && spec_slot_intact(
                        b@,
                        old(self).num_messages as int,
                        old(self).max_message_bytes as int,
                        t,
                    ))
            },
    {
        let n = self.num_messages;
        let mut j: usize = 0;
        while j < n
            invariant
                *self == *old(self),
                self.wf(),
                n == self.num_messages,
                b@.len() == spec_segment_len(
                    self.num_messages as int,
                    self.max_message_bytes as int,
                ),
                j <= n,
                forall|t: int|
                    0 <= t < j ==> !(spec_slot_readable(b@, t, self.consumed@[t])
                        && spec_slot_intact(
                        b@,
                        self.num_messages as int,
                        self.max_message_bytes as int,
                        t,
                    )),
            decreases n - j,
        {
            match self.read_slot(b, j) {
                Ok(Some(p)) => {
                    return Some((j, p));
                },
                Ok(None) => {},
                Err(_) => {},
            }
            j = j + 1;
        }
        None
    }
}

} // verus!
