//! The 256-slot broadcast ring: its header, its slots, and the steps of the
//! slot protocol (claim, forced push, publish, read, release).
//!
//! A slot's `rc` word packs the subscribers that have yet to read the slot
//! (low 32 bits) with the epoch at which the slot was claimed (high 32 bits).
//! A slot is busy while one of those subscribers is still connected and the
//! epoch is the ring's current one; any other slot is free to claim.

use vstd::prelude::*;

verus! {

/// Payload bytes per slot.
pub const DATA_LENGTH: usize = 64;

/// Number of slots.
pub const RING_SIZE: usize = 256;

/// Bit 31 of a slot's size word: the slot is the last fragment of a message.
pub const SIZE_LAST: u32 = 0x8000_0000;

/// Bit 30 of a slot's size word: the slot holds a reference into a chunk pool.
pub const SIZE_STORAGE: u32 = 0x4000_0000;

/// The low 30 bits of a slot's size word: the byte count.
pub const SIZE_MASK: u32 = 0x3FFF_FFFF;

/// The subscriber bits of an `rc` word.
pub const EP_MASK: u64 = 0x0000_0000_ffff_ffff;

/// One epoch, as added to the ring's epoch word.
pub const EP_INCR: u64 = 0x0000_0001_0000_0000;

/// Bytes of the ring header as laid out in a region.
pub const HEADER_SIZE: usize = 24;

/// Bytes of one slot as laid out in a region.
pub const SLOT_SIZE: usize = 80;

/// Bytes of the region that holds a ring: the header and its 256 slots.
pub fn ring_shm_size() -> (size: usize)
    ensures
        size == 24 + 256 * 80,
{
    HEADER_SIZE + RING_SIZE * SLOT_SIZE
}

// ---------------------------------------------------------------------------
// Words
// ---------------------------------------------------------------------------

/// The slot that a cursor points at: its low eight bits.
pub open spec fn spec_slot_index(cursor: u32) -> int {
    (cursor % 256) as int
}

/// The subscribers of an `rc` word that have yet to read the slot.
pub open spec fn spec_rc_readers(rc: u64) -> u32 {
    (rc & EP_MASK) as u32
}

/// The epoch of an `rc` word, in place (the low 32 bits are zero).
pub open spec fn spec_rc_epoch(rc: u64) -> u64 {
    rc & !EP_MASK
}

/// Whether a slot with this `rc` word is busy: a connected subscriber has yet
/// to read it, and it was claimed in the current epoch.
pub open spec fn spec_slot_busy(rc: u64, connections: u32, epoch: u64) -> bool {
    ((connections as u64) & (rc & EP_MASK)) != 0 && (rc & !EP_MASK) == epoch
}

/// The `rc` word of a slot claimed at `epoch` for the subscribers
/// `connections`.
pub open spec fn spec_claim_word(epoch: u64, connections: u32) -> u64 {
    epoch | (connections as u64)
}

/// The `rc` word after the subscribers `conn_mask` have read the slot.
pub open spec fn spec_clear_readers(rc: u64, conn_mask: u32) -> u64 {
    rc & !(conn_mask as u64)
}

/// The size word for `len` bytes with the two flags.
pub open spec fn spec_size_word(len: u32, last: bool, storage: bool) -> u32 {
    len | (if last {
        SIZE_LAST
    } else {
        0u32
    }) | (if storage {
        SIZE_STORAGE
    } else {
        0u32
    })
}

/// The byte count of a size word.
pub open spec fn spec_size_len(word: u32) -> u32 {
    word & SIZE_MASK
}

/// Whether a size word marks the last fragment of a message.
pub open spec fn spec_size_last(word: u32) -> bool {
    (word & SIZE_LAST) != 0
}

/// Whether a size word marks a reference into a chunk pool.
pub open spec fn spec_size_storage(word: u32) -> bool {
    (word & SIZE_STORAGE) != 0
}

/// The lowest bit that is not set in `curr`, or 0 when all 32 are set.
pub open spec fn spec_free_bit(curr: u32) -> u32 {
    (curr | curr.wrapping_add(1)) ^ curr
}

/// The number of bits set among the low `n` bits of `x`.
pub open spec fn spec_count_bits(x: u32, n: nat) -> nat
    decreases n,
{
    if n == 0 {
        0
    } else {
        (x % 2) as nat + spec_count_bits(x / 2, (n - 1) as nat)
    }
}

/// The number of bits set in `x`.
pub open spec fn spec_popcount(x: u32) -> nat {
    spec_count_bits(x, 32)
}

/// The subscribers of an `rc` word that have yet to read the slot.
pub fn rc_readers(rc: u64) -> (readers: u32)
    ensures
        readers == spec_rc_readers(rc),
{
    assert(rc & 0x0000_0000_ffff_ffffu64 <= 0xffff_ffffu64) by (bit_vector);
    (rc & EP_MASK) as u32
}

/// The epoch of an `rc` word, in place.
pub fn rc_epoch(rc: u64) -> (epoch: u64)
    ensures
        epoch == spec_rc_epoch(rc),
{
    rc & !EP_MASK
}

/// Whether a slot with this `rc` word is busy.
pub fn slot_busy(rc: u64, connections: u32, epoch: u64) -> (busy: bool)
    ensures
        busy == spec_slot_busy(rc, connections, epoch),
{
    ((connections as u64) & (rc & EP_MASK)) != 0 && (rc & !EP_MASK) == epoch
}

/// The `rc` word of a slot claimed at `epoch` for the subscribers
/// `connections`.
pub fn claim_word(epoch: u64, connections: u32) -> (rc: u64)
    ensures
        rc == spec_claim_word(epoch, connections),
{
    epoch | (connections as u64)
}

/// The `rc` word after the subscribers `conn_mask` have read the slot: their
/// bits are cleared and the epoch is kept.
pub fn clear_readers(rc: u64, conn_mask: u32) -> (next: u64)
    ensures
        next == spec_clear_readers(rc, conn_mask),
        spec_rc_epoch(next) == spec_rc_epoch(rc),
        spec_rc_readers(next) == spec_rc_readers(rc) & !conn_mask,
{
    let next: u64 = rc & !(conn_mask as u64);
    assert((rc & !(conn_mask as u64)) & !0x0000_0000_ffff_ffffu64 == rc & !0x0000_0000_ffff_ffffu64
        && ((rc & !(conn_mask as u64)) & 0x0000_0000_ffff_ffffu64) as u32 == ((rc
        & 0x0000_0000_ffff_ffffu64) as u32) & !conn_mask) by (bit_vector);
    next
}

/// The size word for `len` bytes with the two flags.
pub fn size_word(len: u32, last: bool, storage: bool) -> (word: u32)
    ensures
        word == spec_size_word(len, last, storage),
{
    let l: u32 = if last {
        SIZE_LAST
    } else {
        0
    };
    let s: u32 = if storage {
        SIZE_STORAGE
    } else {
        0
    };
    len | l | s
}

/// The byte count of a size word.
pub fn size_len(word: u32) -> (len: u32)
    ensures
        len == spec_size_len(word),
        len <= SIZE_MASK,
{
    assert(word & 0x3FFF_FFFFu32 <= 0x3FFF_FFFFu32) by (bit_vector);
    word & SIZE_MASK
}

/// Whether a size word marks the last fragment of a message.
pub fn size_last(word: u32) -> (last: bool)
    ensures
        last == spec_size_last(word),
{
    (word & SIZE_LAST) != 0
}

/// Whether a size word marks a reference into a chunk pool.
pub fn size_storage(word: u32) -> (storage: bool)
    ensures
        storage == spec_size_storage(word),
{
    (word & SIZE_STORAGE) != 0
}

/// A size word gives back the byte count and the flags it was made from.
pub proof fn lemma_size_word_roundtrip(len: u32, last: bool, storage: bool)
    requires
        len <= SIZE_MASK,
    ensures
        spec_size_len(spec_size_word(len, last, storage)) == len,
        spec_size_last(spec_size_word(len, last, storage)) == last,
        spec_size_storage(spec_size_word(len, last, storage)) == storage,
{
    let l: u32 = if last {
        SIZE_LAST
    } else {
        0u32
    };
    let s: u32 = if storage {
        SIZE_STORAGE
    } else {
        0u32
    };
    assert(len <= 0x3FFF_FFFFu32 && (l == 0x8000_0000u32 || l == 0u32) && (s == 0x4000_0000u32 || s
        == 0u32) ==> ((len | l | s) & 0x3FFF_FFFFu32 == len && ((len | l | s) & 0x8000_0000u32 == l)
        && ((len | l | s) & 0x4000_0000u32 == s))) by (bit_vector);
}

/// The lowest free bit of a mask: it is a single bit outside the mask with
/// every lower bit inside it; a full mask has none.
pub proof fn lemma_free_bit(curr: u32)
    ensures
        curr == u32::MAX ==> spec_free_bit(curr) == 0,
        curr != u32::MAX ==> {
            let bit = spec_free_bit(curr);
            &&& bit != 0
            &&& bit & curr == 0
            &&& bit & ((bit - 1) as u32) == 0
            &&& curr & ((bit - 1) as u32) == (bit - 1) as u32
            &&& curr | bit == curr | curr.wrapping_add(1)
        },
{
    let next: u32 = curr.wrapping_add(1);
    let bit: u32 = (curr | next) ^ curr;
    assert(next == if curr == 0xffff_ffffu32 {
        0u32
    } else {
        (curr + 1) as u32
    });
    assert(curr == 0xffff_ffffu32 ==> (curr | 0u32) ^ curr == 0u32) by (bit_vector);
    assert(curr != 0xffff_ffffu32 ==> {
        let bit = (curr | ((curr + 1) as u32)) ^ curr;
        &&& bit != 0
        &&& bit & curr == 0
        &&& bit & ((bit - 1) as u32) == 0
        &&& curr & ((bit - 1) as u32) == (bit - 1) as u32
        &&& curr | bit == curr | ((curr + 1) as u32)
    }) by (bit_vector);
}

/// The lowest bit that is not set in `curr`, or 0 when all 32 are set: the
/// bit that the next subscriber gets.
pub fn free_bit(curr: u32) -> (bit: u32)
    ensures
        bit == spec_free_bit(curr),
        bit == 0 <==> curr == u32::MAX,
        bit & curr == 0,
{
    proof {
        lemma_free_bit(curr);
        assert(0u32 & curr == 0u32) by (bit_vector);
    }
    (curr | curr.wrapping_add(1)) ^ curr
}

/// Counts the bits set in `x`.
pub fn popcount(x: u32) -> (count: usize)
    ensures
        count == spec_popcount(x),
        count <= 32,
{
    let mut v: u32 = x;
    let mut count: usize = 0;
    let mut n: usize = 0;
    while n < 32
        invariant
            n <= 32,
            count <= n,
            count + spec_count_bits(v, (32 - n) as nat) == spec_count_bits(x, 32),
        decreases 32 - n,
    {
        count = count + (v % 2) as usize;
        v = v / 2;
        n = n + 1;
    }
    count
}

// ---------------------------------------------------------------------------
// The ring
// ---------------------------------------------------------------------------

/// What a slot holds.
pub struct SlotView {
    /// The 64 payload bytes.
    pub data: Seq<u8>,
    /// The size word: byte count and flags.
    pub size: u32,
    /// The identity of the endpoint that wrote the slot.
    pub cc_id: u32,
    /// Subscribers yet to read (low half) and the epoch of the claim (high half).
    pub rc: u64,
}

/// What a ring holds.
pub struct RingView {
    /// One bit per connected subscriber.
    pub connections: u32,
    /// Number of slots published so far, modulo 2^32.
    pub write_cursor: u32,
    /// Number of connected producers.
    pub sender_count: u32,
    /// The current epoch, in the high half of the word.
    pub epoch: u64,
    /// The 256 slots.
    pub slots: Seq<SlotView>,
}

/// The ring has 256 slots of 64 bytes, and its epoch word has no low bits.
pub open spec fn spec_ring_inv(r: RingView) -> bool {
    &&& r.slots.len() == 256
    &&& r.epoch % 0x1_0000_0000 == 0
    &&& forall|i: int| 0 <= i < 256 ==> (#[trigger] r.slots[i]).data.len() == 64
}

/// The ring of a fresh region: every word and every byte zero.
pub open spec fn spec_fresh_ring() -> RingView {
    RingView {
        connections: 0,
        write_cursor: 0,
        sender_count: 0,
        epoch: 0,
        slots: Seq::new(
            256,
            |i: int| SlotView { data: Seq::new(64, |j: int| 0u8), size: 0, cc_id: 0, rc: 0 },
        ),
    }
}

/// The slot under the write cursor.
pub open spec fn spec_head(r: RingView) -> SlotView {
    r.slots[spec_slot_index(r.write_cursor)]
}

/// Whether the slot under the write cursor is busy.
pub open spec fn spec_head_busy(r: RingView) -> bool {
    spec_slot_busy(spec_head(r).rc, r.connections, r.epoch)
}

/// The ring after a subscriber took the lowest free bit of the mask.
pub open spec fn spec_connect(r: RingView) -> RingView {
    RingView { connections: r.connections | spec_free_bit(r.connections), ..r }
}

/// The ring after the subscribers `conn_id` left the mask.
pub open spec fn spec_disconnect(r: RingView, conn_id: u32) -> RingView {
    RingView { connections: r.connections & !conn_id, ..r }
}

/// The ring after a forced push: the epoch moves on, and the subscribers that
/// still hold the slot under the write cursor are evicted. Where that leaves
/// a subscriber connected, their bits are cleared from the slot as well.
pub open spec fn spec_force_push(r: RingView) -> RingView {
    let idx = spec_slot_index(r.write_cursor);
    let epoch = r.epoch.wrapping_add(EP_INCR);
    let rem = spec_rc_readers(r.slots[idx].rc);
    let cc = r.connections & !rem;
    if rem == 0 {
        RingView { epoch, ..r }
    } else if cc == 0 {
        RingView { epoch, connections: cc, ..r }
    } else {
        RingView {
            epoch,
            connections: cc,
            slots: r.slots.update(
                idx,
                SlotView { rc: r.slots[idx].rc & !(rem as u64), ..r.slots[idx] },
            ),
            ..r
        }
    }
}

/// The ring after the slot under the write cursor got the word `rc`.
pub open spec fn spec_set_head_rc(r: RingView, rc: u64) -> RingView {
    let idx = spec_slot_index(r.write_cursor);
    RingView { slots: r.slots.update(idx, SlotView { rc, ..r.slots[idx] }), ..r }
}

/// Whether a producer that holds the ring alone gets the slot under the write
/// cursor: it does unless no subscriber is connected, or the slot is busy and
/// the forced push evicts the last subscriber.
pub open spec fn spec_claim_ok(r: RingView) -> bool {
    r.connections != 0 && (spec_head_busy(r) ==> spec_force_push(r).connections != 0)
}

/// The ring after a producer that holds it alone tried to claim the slot under
/// the write cursor. A free slot is claimed for the connected subscribers at
/// the current epoch. A busy slot cannot be drained by anyone while the
/// producer holds the ring, so the bounded wait elapses and the forced push
/// follows, after which the slot is claimed for the subscribers that are left.
pub open spec fn spec_claim(r: RingView) -> RingView {
    if r.connections == 0 {
        r
    } else if !spec_head_busy(r) {
        spec_set_head_rc(r, spec_claim_word(r.epoch, r.connections))
    } else {
        let f = spec_force_push(r);
        if f.connections == 0 {
            f
        } else {
            spec_set_head_rc(f, spec_claim_word(f.epoch, f.connections))
        }
    }
}

/// The ring after the claimed slot under the write cursor was filled with the
/// fragment and published: the fragment overwrites the start of the slot's
/// payload, the size word and the writer's identity are stored, and the write
/// cursor moves on by one.
pub open spec fn spec_publish(r: RingView, cc_id: u32, frag: Seq<u8>, size: u32) -> RingView {
    let idx = spec_slot_index(r.write_cursor);
    let slot = r.slots[idx];
    RingView {
        write_cursor: r.write_cursor.wrapping_add(1),
        slots: r.slots.update(
            idx,
            SlotView { data: frag + slot.data.subrange(frag.len() as int, 64), size, cc_id, ..slot },
        ),
        ..r
    }
}

/// Whether a fragment gets into the ring: see [`spec_claim_ok`].
pub open spec fn spec_push_ok(r: RingView) -> bool {
    spec_claim_ok(r)
}

/// The ring after a fragment was pushed: the claim, then, if it succeeded,
/// the publication.
pub open spec fn spec_push(r: RingView, cc_id: u32, frag: Seq<u8>, size: u32) -> RingView {
    if spec_claim_ok(r) {
        spec_publish(spec_claim(r), cc_id, frag, size)
    } else {
        spec_claim(r)
    }
}

/// The ring after the subscribers `conn_mask` released the slot at `cursor`.
pub open spec fn spec_release(r: RingView, cursor: u32, conn_mask: u32) -> RingView {
    let idx = spec_slot_index(cursor);
    RingView {
        slots: r.slots.update(
            idx,
            SlotView { rc: spec_clear_readers(r.slots[idx].rc, conn_mask), ..r.slots[idx] },
        ),
        ..r
    }
}

/// One slot of the ring.
pub struct RingSlot {
    data: Vec<u8>,
    size: u32,
    cc_id: u32,
    rc: u64,
}

impl View for RingSlot {
    type V = SlotView;

    closed spec fn view(&self) -> SlotView {
        SlotView { data: self.data@, size: self.size, cc_id: self.cc_id, rc: self.rc }
    }
}

/// The ring: header and slots.
pub struct Ring {
    connections: u32,
    write_cursor: u32,
    sender_count: u32,
    epoch: u64,
    slots: Vec<RingSlot>,
}

impl View for Ring {
    type V = RingView;

    closed spec fn view(&self) -> RingView {
        RingView {
            connections: self.connections,
            write_cursor: self.write_cursor,
            sender_count: self.sender_count,
            epoch: self.epoch,
            slots: Seq::new(self.slots@.len(), |i: int| self.slots@[i]@),
        }
    }
}

impl Ring {
    /// See [`spec_ring_inv`].
    pub open spec fn inv(&self) -> bool {
        spec_ring_inv(self@)
    }

    /// The ring of a fresh region: every word and every byte zero.
    pub fn new() -> (ring: Ring)
        ensures
            ring.inv(),
            ring@ == spec_fresh_ring(),
    {
        let mut slots: Vec<RingSlot> = Vec::new();
        let mut i: usize = 0;
        while i < RING_SIZE
            invariant
                i <= RING_SIZE,
                slots@.len() == i,
                forall|j: int|
                    0 <= j < i ==> (#[trigger] slots@[j])@ == (SlotView {
                        data: Seq::new(64, |j: int| 0u8),
                        size: 0,
                        cc_id: 0,
                        rc: 0,
                    }),
            decreases RING_SIZE - i,
        {
            let mut data: Vec<u8> = Vec::new();
            data.resize(DATA_LENGTH, 0u8);
            assert(data@ =~= Seq::new(64, |j: int| 0u8));
            slots.push(RingSlot { data, size: 0, cc_id: 0, rc: 0 });
            i = i + 1;
        }
        let ring = Ring { connections: 0, write_cursor: 0, sender_count: 0, epoch: 0, slots };
        assert(ring@.slots =~= spec_fresh_ring().slots);
        ring
    }

    /// The mask of connected subscribers.
    pub fn connections(&self) -> (cc: u32)
        ensures
            cc == self@.connections,
    {
        self.connections
    }

    /// The write cursor.
    pub fn write_cursor(&self) -> (wt: u32)
        ensures
            wt == self@.write_cursor,
    {
        self.write_cursor
    }

    /// The number of connected producers.
    pub fn sender_count(&self) -> (n: u32)
        ensures
            n == self@.sender_count,
    {
        self.sender_count
    }

    /// The epoch word.
    pub fn epoch(&self) -> (e: u64)
        ensures
            e == self@.epoch,
    {
        self.epoch
    }

    /// The number of connected subscribers.
    pub fn recv_count(&self) -> (n: usize)
        ensures
            n == spec_popcount(self@.connections),
            n <= 32,
    {
        popcount(self.connections)
    }

    /// The `rc` word of the slot at `cursor`.
    pub fn slot_rc(&self, cursor: u32) -> (rc: u64)
        requires
            self.inv(),
        ensures
            rc == self@.slots[spec_slot_index(cursor)].rc,
    {
        self.slots[(cursor % 256) as usize].rc
    }

    /// The size word of the slot at `cursor`.
    pub fn slot_size(&self, cursor: u32) -> (size: u32)
        requires
            self.inv(),
        ensures
            size == self@.slots[spec_slot_index(cursor)].size,
    {
        self.slots[(cursor % 256) as usize].size
    }

    /// The identity of the endpoint that wrote the slot at `cursor`.
    pub fn slot_cc_id(&self, cursor: u32) -> (cc_id: u32)
        requires
            self.inv(),
        ensures
            cc_id == self@.slots[spec_slot_index(cursor)].cc_id,
    {
        self.slots[(cursor % 256) as usize].cc_id
    }

    /// The payload bytes of the slot at `cursor`.
    pub fn slot_data(&self, cursor: u32) -> (data: &Vec<u8>)
        requires
            self.inv(),
        ensures
            data@ == self@.slots[spec_slot_index(cursor)].data,
            data@.len() == 64,
    {
        let idx: usize = (cursor % 256) as usize;
        assert(self@.slots[idx as int] == self.slots@[idx as int]@);
        &self.slots[idx].data
    }

    /// Connects a subscriber: it gets the lowest free bit of the mask.
    /// Returns that bit, or 0 when all 32 bits are taken, in which case the
    /// ring is unchanged.
    pub fn connect_receiver(&mut self) -> (bit: u32)
        requires
            old(self).inv(),
        ensures
            final(self).inv(),
            bit == spec_free_bit(old(self)@.connections),
            final(self)@ == spec_connect(old(self)@),
            bit == 0 <==> old(self)@.connections == u32::MAX,
            bit != 0 ==> bit & old(self)@.connections == 0 && bit & ((bit - 1) as u32) == 0,
    {
        let curr: u32 = self.connections;
        let bit: u32 = free_bit(curr);
        proof {
            lemma_free_bit(curr);
            assert(curr | 0u32 == curr) by (bit_vector);
        }
        self.connections = curr | bit;
        assert(self@.slots =~= old(self)@.slots);
        assert(self@ =~= spec_connect(old(self)@));
        bit
    }

    /// Disconnects the subscribers `conn_id`. Returns the mask that is left.
    pub fn disconnect_receiver(&mut self, conn_id: u32) -> (left: u32)
        requires
            old(self).inv(),
        ensures
            final(self).inv(),
            final(self)@ == spec_disconnect(old(self)@, conn_id),
            left == final(self)@.connections,
    {
        self.connections = self.connections & !conn_id;
        assert(self@.slots =~= old(self)@.slots);
        assert(self@ =~= spec_disconnect(old(self)@, conn_id));
        self.connections
    }

    /// Counts a producer in.
    pub fn add_sender(&mut self)
        requires
            old(self).inv(),
        ensures
            final(self).inv(),
            final(self)@ == (RingView {
                sender_count: old(self)@.sender_count.wrapping_add(1),
                ..old(self)@
            }),
    {
        self.sender_count = self.sender_count.wrapping_add(1);
        assert(self@.slots =~= old(self)@.slots);
    }

    /// Counts a producer out.
    pub fn remove_sender(&mut self)
        requires
            old(self).inv(),
        ensures
            final(self).inv(),
            final(self)@ == (RingView {
                sender_count: old(self)@.sender_count.wrapping_sub(1),
                ..old(self)@
            }),
    {
        self.sender_count = self.sender_count.wrapping_sub(1);
        assert(self@.slots =~= old(self)@.slots);
    }

    /// Whether the slot under the write cursor is busy.
    pub fn head_busy(&self) -> (busy: bool)
        requires
            self.inv(),
        ensures
            busy == spec_head_busy(self@),
    {
        let idx: usize = (self.write_cursor % 256) as usize;
        slot_busy(self.slots[idx].rc, self.connections, self.epoch)
    }

    /// The forced push: moves the ring to the next epoch and evicts the
    /// subscribers that still hold the slot under the write cursor. Returns
    /// whether the slot can now be claimed, that is whether a subscriber is
    /// left or none had to be evicted.
    pub fn force_push(&mut self) -> (open: bool)
        requires
            old(self).inv(),
        ensures
            final(self).inv(),
            final(self)@ == spec_force_push(old(self)@),
            open == (spec_rc_readers(spec_head(old(self)@).rc) == 0 || final(self)@.connections
                != 0),
    {
        let idx: usize = (self.write_cursor % 256) as usize;
        self.epoch = self.epoch.wrapping_add(EP_INCR);
        let rc: u64 = self.slots[idx].rc;
        let rem: u32 = rc_readers(rc);
        if rem != 0 {
            let cc: u32 = self.connections & !rem;
            self.connections = cc;
            if cc == 0 {
                assert(self@.slots =~= old(self)@.slots);
                assert(self@ =~= spec_force_push(old(self)@));
                return false;
            }
            self.slots[idx].rc = rc & !(rem as u64);
            assert(self@.slots =~= spec_force_push(old(self)@).slots);
            assert(self@ =~= spec_force_push(old(self)@));
            return true;
        }
        assert(self@.slots =~= old(self)@.slots);
        assert(self@ =~= spec_force_push(old(self)@));
        true
    }

    /// Claims the slot under the write cursor for a producer that holds the
    /// ring alone. Returns whether the slot was claimed; see [`spec_claim`].
    pub fn claim(&mut self) -> (claimed: bool)
        requires
            old(self).inv(),
        ensures
            final(self).inv(),
            claimed == spec_claim_ok(old(self)@),
            final(self)@ == spec_claim(old(self)@),
            final(self)@.write_cursor == old(self)@.write_cursor,
    {
        if self.connections == 0 {
            return false;
        }
        if self.head_busy() {
            let _ = self.force_push();
            if self.connections == 0 {
                return false;
            }
        }
        let idx: usize = (self.write_cursor % 256) as usize;
        self.slots[idx].rc = claim_word(self.epoch, self.connections);
        assert(self@.slots =~= spec_claim(old(self)@).slots);
        assert(self@ =~= spec_claim(old(self)@));
        true
    }

    /// Fills the claimed slot under the write cursor with the `n` bytes of
    /// `data` from `offset` on, stores the size word and the writer's
    /// identity, and publishes the slot by moving the write cursor on.
    pub fn publish(&mut self, cc_id: u32, data: &[u8], offset: usize, n: usize, size: u32)
        requires
            old(self).inv(),
            n <= 64,
            offset + n <= data@.len(),
        ensures
            final(self).inv(),
            final(self)@ == spec_publish(
                old(self)@,
                cc_id,
                data@.subrange(offset as int, offset + n),
                size,
            ),
    {
        let idx: usize = (self.write_cursor % 256) as usize;
        let total: usize = data.len();
        assert(self@.slots[idx as int] == self.slots@[idx as int]@);
        self.slots[idx].cc_id = cc_id;
        let mut i: usize = 0;
        while i < n
            invariant
                i <= n,
                n <= 64,
                offset + n <= total,
                total == data@.len(),
                idx == spec_slot_index(old(self).write_cursor),
                self.connections == old(self).connections,
                self.write_cursor == old(self).write_cursor,
                self.sender_count == old(self).sender_count,
                self.epoch == old(self).epoch,
                self.slots@.len() == 256,
                self.slots@[idx as int].data@.len() == 64,
                self.slots@[idx as int].rc == old(self).slots@[idx as int].rc,
                self.slots@[idx as int].size == old(self).slots@[idx as int].size,
                self.slots@[idx as int].cc_id == cc_id,
                forall|j: int| 0 <= j < 256 && j != idx ==> self.slots@[j] == old(self).slots@[j],
                forall|j: int| 0 <= j < i ==> self.slots@[idx as int].data@[j] == data@[offset + j],
                forall|j: int|
                    i <= j < 64 ==> self.slots@[idx as int].data@[j] == old(self).slots@[idx as int].data@[j],
            decreases n - i,
        {
            self.slots[idx].data[i] = data[offset + i];
            i = i + 1;
        }
        self.slots[idx].size = size;
        self.write_cursor = self.write_cursor.wrapping_add(1);
        proof {
            let want = spec_publish(
                old(self)@,
                cc_id,
                data@.subrange(offset as int, offset + n),
                size,
            );
            assert forall|j: int| 0 <= j < 256 implies #[trigger] self@.slots[j] == want.slots[j] by {
                if j == idx {
                    assert(self@.slots[j].data =~= want.slots[j].data);
                }
            }
            assert(self@.slots =~= want.slots);
        }
    }

    /// Pushes one fragment: claims the slot under the write cursor and, if
    /// that succeeds, fills and publishes it. Returns whether the fragment
    /// was published.
    pub fn push(&mut self, cc_id: u32, data: &[u8], offset: usize, n: usize, size: u32) -> (pushed:
        bool)
        requires
            old(self).inv(),
            n <= 64,
            offset + n <= data@.len(),
        ensures
            final(self).inv(),
            pushed == spec_push_ok(old(self)@),
            final(self)@ == spec_push(
                old(self)@,
                cc_id,
                data@.subrange(offset as int, offset + n),
                size,
            ),
    {
        if !self.claim() {
            return false;
        }
        self.publish(cc_id, data, offset, n, size);
        true
    }

    /// Clears the bits `conn_mask` from the `rc` word of the slot at
    /// `cursor`, keeping its epoch.
    pub fn release(&mut self, cursor: u32, conn_mask: u32)
        requires
            old(self).inv(),
        ensures
            final(self).inv(),
            final(self)@ == spec_release(old(self)@, cursor, conn_mask),
    {
        let idx: usize = (cursor % 256) as usize;
        let rc: u64 = self.slots[idx].rc;
        self.slots[idx].rc = clear_readers(rc, conn_mask);
        assert(self@.slots =~= spec_release(old(self)@, cursor, conn_mask).slots);
    }
}

} // verus!
