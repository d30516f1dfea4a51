//! What holds of every ring that was reached from a fresh one by connecting,
//! pushing, forcing and releasing: a slot of the current epoch waits only for
//! subscribers that are connected, and a slot is never claimed under a
//! subscriber that is still connected and has yet to read it.
//!
//! A subscriber that disconnects leaves its bits in the slots that it has not
//! read; until those slots are claimed again they wait for a subscriber that
//! is gone, so the first of these laws is not kept by a disconnection.

use vstd::prelude::*;
use vstd::arithmetic::power2::{lemma2_to64, lemma_pow2_unfold, pow2};
use crate::ring::{
    spec_claim,
    spec_claim_ok,
    spec_claim_word,
    spec_connect,
    spec_count_bits,
    spec_force_push,
    spec_free_bit,
    spec_head,
    spec_head_busy,
    spec_popcount,
    spec_publish,
    spec_push,
    spec_rc_epoch,
    spec_rc_readers,
    spec_release,
    spec_ring_inv,
    spec_slot_index,
    RingView,
    EP_INCR,
};

verus! {

/// Every slot that was claimed in the current epoch waits only for
/// subscribers that are connected.
pub open spec fn spec_readers_live(r: RingView) -> bool {
    forall|i: int|
        0 <= i < 256 && spec_rc_epoch((#[trigger] r.slots[i]).rc) == r.epoch ==> spec_rc_readers(
            r.slots[i].rc,
        ) & !r.connections == 0
}

/// No slot was claimed in an epoch after the current one.
pub open spec fn spec_epochs_behind(r: RingView) -> bool {
    forall|i: int| 0 <= i < 256 ==> spec_rc_epoch((#[trigger] r.slots[i]).rc) <= r.epoch
}

/// The ring is well formed, its slots are not ahead of its epoch, and those
/// of the current epoch wait only for connected subscribers.
pub open spec fn spec_ring_sound(r: RingView) -> bool {
    spec_ring_inv(r) && spec_readers_live(r) && spec_epochs_behind(r)
}

/// A set of bits within another has no more bits than the other.
pub proof fn lemma_count_bits_subset(a: u32, b: u32, n: nat)
    requires
        a & !b == 0,
    ensures
        spec_count_bits(a, n) <= spec_count_bits(b, n),
    decreases n,
{
    if n > 0 {
        assert(a & !b == 0 ==> (a / 2) & !(b / 2) == 0 && a % 2 <= b % 2) by (bit_vector);
        lemma_count_bits_subset(a / 2, b / 2, (n - 1) as nat);
    }
}

/// Among the low `n` bits at most `n` are set, and all of them are set only
/// in the number of `n` ones.
pub proof fn lemma_count_bits_full(x: u32, n: nat)
    requires
        x < pow2(n),
        n <= 32,
    ensures
        spec_count_bits(x, n) <= n,
        spec_count_bits(x, n) == n <==> x == pow2(n) - 1,
    decreases n,
{
    if n == 0 {
        lemma2_to64();
    } else {
        lemma_pow2_unfold(n);
        lemma_count_bits_full(x / 2, (n - 1) as nat);
    }
}

/// The 33rd subscriber: a mask has 32 bits set exactly when it is full, and
/// that is exactly when no free bit is left for a subscriber.
pub proof fn lemma_full_mask(connections: u32)
    ensures
        spec_popcount(connections) <= 32,
        spec_popcount(connections) == 32 <==> connections == u32::MAX,
        spec_popcount(connections) == 32 <==> spec_free_bit(connections) == 0,
{
    lemma2_to64();
    lemma_count_bits_full(connections, 32);
    crate::ring::lemma_free_bit(connections);
}

/// A subscriber that connects has one bit more in the mask.
pub proof fn lemma_connect_counts(connections: u32)
    requires
        connections != u32::MAX,
    ensures
        spec_popcount(connections | spec_free_bit(connections)) == spec_popcount(connections) + 1,
{
    crate::ring::lemma_free_bit(connections);
    lemma2_to64();
    lemma_count_bits_add(connections, spec_free_bit(connections), 32);
}

/// Setting a single bit that was not set adds one to the count, if the bit
/// is among the low `n`.
pub proof fn lemma_count_bits_add(x: u32, bit: u32, n: nat)
    requires
        bit != 0,
        bit & x == 0,
        bit & ((bit - 1) as u32) == 0,
        n <= 32,
        bit < pow2(n),
    ensures
        spec_count_bits(x | bit, n) == spec_count_bits(x, n) + 1,
    decreases n,
{
    if n == 0 {
        lemma2_to64();
    } else {
        lemma_pow2_unfold(n);
        if bit == 1 {
            assert(1u32 & x == 0 ==> (x | 1u32) % 2 == 1 && x % 2 == 0 && (x | 1u32) / 2 == x / 2)
                by (bit_vector);
        } else {
            assert(bit != 0 && bit != 1 && bit & x == 0 && bit & ((bit - 1) as u32) == 0 ==> {
                &&& (x | bit) % 2 == x % 2
                &&& (x | bit) / 2 == (x / 2) | (bit / 2)
                &&& bit / 2 != 0
                &&& (bit / 2) & (x / 2) == 0
                &&& (bit / 2) & (((bit / 2) - 1) as u32) == 0
            }) by (bit_vector);
            lemma_count_bits_add(x / 2, bit / 2, (n - 1) as nat);
        }
    }
}

/// A slot of the current epoch waits for no more subscribers than are
/// connected.
pub proof fn lemma_readers_bounded(r: RingView, i: int)
    requires
        spec_ring_sound(r),
        0 <= i < 256,
        spec_rc_epoch(r.slots[i].rc) == r.epoch,
    ensures
        spec_popcount(spec_rc_readers(r.slots[i].rc)) <= spec_popcount(r.connections),
{
    lemma_count_bits_subset(spec_rc_readers(r.slots[i].rc), r.connections, 32);
}

/// A ring whose slots were never claimed is sound.
pub proof fn lemma_fresh_sound(r: RingView)
    requires
        spec_ring_inv(r),
        forall|i: int| 0 <= i < 256 ==> (#[trigger] r.slots[i]).rc == 0,
    ensures
        spec_ring_sound(r),
{
    let c = r.connections;
    assert(((0u64 & 0x0000_0000_ffff_ffffu64) as u32) & !c == 0 && 0u64 & !0x0000_0000_ffff_ffffu64
        == 0) by (bit_vector);
}

/// The ring of a fresh region is sound.
pub proof fn lemma_new_ring_sound()
    ensures
        spec_ring_sound(crate::ring::spec_fresh_ring()),
{
    lemma_fresh_sound(crate::ring::spec_fresh_ring());
}

/// Connecting a subscriber keeps the ring sound.
pub proof fn lemma_connect_sound(r: RingView)
    requires
        spec_ring_sound(r),
    ensures
        spec_ring_sound(spec_connect(r)),
{
    let c = r.connections;
    let bit = spec_free_bit(c);
    assert forall|i: int|
        0 <= i < 256 && spec_rc_epoch((#[trigger] spec_connect(r).slots[i]).rc) == r.epoch implies spec_rc_readers(
        spec_connect(r).slots[i].rc,
    ) & !(c | bit) == 0 by {
        let readers = spec_rc_readers(r.slots[i].rc);
        assert(readers & !c == 0 ==> readers & !(c | bit) == 0) by (bit_vector);
    }
}

/// The word of a claim carries the epoch and the subscribers it was made of.
pub proof fn lemma_claim_word(epoch: u64, connections: u32)
    requires
        epoch % 0x1_0000_0000 == 0,
    ensures
        spec_rc_epoch(spec_claim_word(epoch, connections)) == epoch,
        spec_rc_readers(spec_claim_word(epoch, connections)) == connections,
{
    assert(epoch % 0x1_0000_0000 == 0 ==> (epoch | (connections as u64)) & !0x0000_0000_ffff_ffffu64
        == epoch && ((epoch | (connections as u64)) & 0x0000_0000_ffff_ffffu64) as u32
        == connections) by (bit_vector);
}

/// A forced push keeps the ring sound: no slot is of the new epoch yet.
pub proof fn lemma_force_push_sound(r: RingView)
    requires
        spec_ring_sound(r),
        r.epoch + EP_INCR <= u64::MAX,
    ensures
        spec_ring_sound(spec_force_push(r)),
        spec_force_push(r).epoch == r.epoch + EP_INCR,
        spec_force_push(r).connections != 0 ==> !spec_head_busy(spec_force_push(r)),
{
    let f = spec_force_push(r);
    let idx = spec_slot_index(r.write_cursor);
    let rc = r.slots[idx].rc;
    let rem = spec_rc_readers(rc);
    assert((rc & !(rem as u64)) & !0x0000_0000_ffff_ffffu64 == rc & !0x0000_0000_ffff_ffffu64) by (bit_vector);
    assert forall|i: int| 0 <= i < 256 implies spec_rc_epoch((#[trigger] f.slots[i]).rc) <= r.epoch by {
        assert(spec_rc_epoch(r.slots[i].rc) <= r.epoch);
    }
    assert forall|i: int| 0 <= i < 256 implies (#[trigger] f.slots[i]).data.len() == 64 by {
        assert(r.slots[i].data.len() == 64);
    }
}

/// A claim keeps the ring sound, and where it succeeds the slot under the
/// write cursor waits for exactly the subscribers that are connected.
pub proof fn lemma_claim_sound(r: RingView)
    requires
        spec_ring_sound(r),
        r.epoch + EP_INCR <= u64::MAX,
    ensures
        spec_ring_sound(spec_claim(r)),
        spec_claim_ok(r) ==> spec_rc_readers(spec_head(spec_claim(r)).rc) == spec_claim(r).connections
            && spec_rc_epoch(spec_head(spec_claim(r)).rc) == spec_claim(r).epoch,
{
    let c = spec_claim(r);
    let idx = spec_slot_index(r.write_cursor);
    if r.connections != 0 {
        let base = if spec_head_busy(r) {
            spec_force_push(r)
        } else {
            r
        };
        if spec_head_busy(r) {
            lemma_force_push_sound(r);
        }
        if base.connections != 0 {
            lemma_claim_word(base.epoch, base.connections);
            let cc = base.connections;
            assert(cc & !cc == 0) by (bit_vector);
            assert forall|i: int| 0 <= i < 256 implies spec_rc_epoch((#[trigger] c.slots[i]).rc)
                <= c.epoch && (spec_rc_epoch(c.slots[i].rc) == c.epoch ==> spec_rc_readers(
                c.slots[i].rc,
            ) & !c.connections == 0) && c.slots[i].data.len() == 64 by {
                if i != idx {
                    assert(c.slots[i] == base.slots[i]);
                    assert(spec_rc_epoch(base.slots[i].rc) <= base.epoch);
                } else {
                    assert(base.slots[i].data.len() == 64);
                }
            }
        }
    }
}

/// Pushing a fragment keeps the ring sound.
pub proof fn lemma_push_sound(r: RingView, cc_id: u32, frag: Seq<u8>, size: u32)
    requires
        spec_ring_sound(r),
        r.epoch + EP_INCR <= u64::MAX,
        frag.len() <= 64,
    ensures
        spec_ring_sound(spec_push(r, cc_id, frag, size)),
{
    lemma_claim_sound(r);
    let c = spec_claim(r);
    if spec_claim_ok(r) {
        let p = spec_publish(c, cc_id, frag, size);
        let idx = spec_slot_index(c.write_cursor);
        assert forall|i: int| 0 <= i < 256 implies spec_rc_epoch((#[trigger] p.slots[i]).rc)
            <= p.epoch && (spec_rc_epoch(p.slots[i].rc) == p.epoch ==> spec_rc_readers(
            p.slots[i].rc,
        ) & !p.connections == 0) && p.slots[i].data.len() == 64 by {
            assert(p.slots[i].rc == c.slots[i].rc);
            assert(spec_rc_epoch(c.slots[i].rc) <= c.epoch);
            assert(c.slots[i].data.len() == 64);
        }
    }
}

/// Releasing a slot keeps the ring sound, and the subscribers that released
/// it are no longer waited for.
pub proof fn lemma_release_sound(r: RingView, cursor: u32, conn_mask: u32)
    requires
        spec_ring_sound(r),
    ensures
        spec_ring_sound(spec_release(r, cursor, conn_mask)),
        spec_rc_readers(spec_release(r, cursor, conn_mask).slots[spec_slot_index(cursor)].rc)
            & conn_mask == 0,
{
    let q = spec_release(r, cursor, conn_mask);
    let idx = spec_slot_index(cursor);
    let rc = r.slots[idx].rc;
    let c = r.connections;
    assert((rc & !(conn_mask as u64)) & !0x0000_0000_ffff_ffffu64 == rc & !0x0000_0000_ffff_ffffu64
        && (((rc & !(conn_mask as u64)) & 0x0000_0000_ffff_ffffu64) as u32) & conn_mask == 0 && ((((rc
        & 0x0000_0000_ffff_ffffu64) as u32) & !c == 0) ==> (((rc & !(conn_mask as u64))
        & 0x0000_0000_ffff_ffffu64) as u32) & !c == 0)) by (bit_vector);
    assert forall|i: int| 0 <= i < 256 implies spec_rc_epoch((#[trigger] q.slots[i]).rc) <= q.epoch
        && (spec_rc_epoch(q.slots[i].rc) == q.epoch ==> spec_rc_readers(q.slots[i].rc)
        & !q.connections == 0) && q.slots[i].data.len() == 64 by {
        assert(spec_rc_epoch(r.slots[i].rc) <= r.epoch);
        assert(r.slots[i].data.len() == 64);
        if i != idx {
            assert(q.slots[i] == r.slots[i]);
        }
    }
}

/// A slot is never claimed under a subscriber that is still connected and
/// has yet to read it: where a claim succeeds, every subscriber that the slot
/// waited for in the current epoch is no longer connected.
pub proof fn lemma_claim_spares_readers(r: RingView)
    requires
        spec_ring_inv(r),
        spec_claim_ok(r),
    ensures
        spec_rc_epoch(spec_head(r).rc) != r.epoch || spec_rc_readers(spec_head(r).rc) & spec_claim(
            r,
        ).connections == 0,
{
    let rc = spec_head(r).rc;
    let c = r.connections;
    let rem = spec_rc_readers(rc);
    assert(((c as u64) & (rc & 0x0000_0000_ffff_ffffu64) == 0 ==> ((rc & 0x0000_0000_ffff_ffffu64) as u32)
        & c == 0) && ((rc & 0x0000_0000_ffff_ffffu64) as u32) & (c & !((rc
        & 0x0000_0000_ffff_ffffu64) as u32)) == 0 && 0u32 & c == 0) by (bit_vector);
    if spec_head_busy(r) {
        let f = spec_force_push(r);
        assert(spec_claim(r).connections == f.connections);
        if rem != 0 {
            assert(f.connections == c & !rem);
        }
    } else {
        assert(spec_claim(r).connections == c);
    }
}

/// Forced eviction. A producer that finds the slot under the write cursor
/// busy moves the ring to the next epoch and evicts exactly the subscribers
/// that the slot still waits for: at least one subscriber leaves, none joins,
/// and the producer gets the slot if and only if a subscriber is left.
pub proof fn lemma_forced_eviction(r: RingView)
    requires
        spec_ring_inv(r),
        spec_head_busy(r),
    ensures
        ({
            let c = spec_claim(r);
            let gone = spec_rc_readers(spec_head(r).rc);
            &&& c.epoch == r.epoch.wrapping_add(EP_INCR)
            &&& c.epoch != r.epoch
            &&& c.connections == r.connections & !gone
            &&& c.connections != r.connections
            &&& c.connections & !r.connections == 0
            &&& spec_claim_ok(r) == (c.connections != 0)
            &&& c.write_cursor == r.write_cursor
            &&& spec_claim_ok(r) ==> spec_head(c).rc == spec_claim_word(c.epoch, c.connections)
        }),
{
    let rc = spec_head(r).rc;
    let cc = r.connections;
    assert((cc as u64) & (rc & 0x0000_0000_ffff_ffffu64) != 0 ==> {
        let gone = (rc & 0x0000_0000_ffff_ffffu64) as u32;
        &&& gone != 0
        &&& cc != 0
        &&& cc & !gone != cc
        &&& (cc & !gone) & !cc == 0
    }) by (bit_vector);
}

} // verus!
