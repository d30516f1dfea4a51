//! What a single producer and a single subscriber can rely on: a message that
//! is sent into a drained ring is reported as sent, and the subscriber's next
//! receive yields exactly its bytes.

use vstd::prelude::*;
use crate::channel::{
    spec_frag_len,
    spec_large_taken,
    spec_pool_for,
    spec_pop,
    spec_recv,
    spec_send,
    spec_send_inline,
    spec_send_inline_ok,
    spec_send_large,
    spec_send_ok,
    spec_shared_inv,
    spec_storage_ref,
    SharedView,
};
use crate::chunk_storage::{
    spec_pool_inv,
    spec_acquire_storage,
    spec_acquire_storage_id,
    spec_calc_chunk_size,
    spec_store,
};
use crate::ring::{
    lemma_size_word_roundtrip,
    spec_claim_ok,
    spec_push,
    spec_push_ok,
    spec_claim_word,
    spec_clear_readers,
    spec_ring_inv,
    spec_size_word,
    spec_slot_busy,
    spec_slot_index,
    RingView,
    SlotView,
};

verus! {

/// The cursor that stands `j` slots after `start`.
pub open spec fn spec_cursor_after(start: u32, j: int) -> u32 {
    ((start + j) % 0x1_0000_0000) as u32
}

/// The number of fragments of a message of `len` bytes.
pub open spec fn spec_frag_count(len: int) -> int {
    (len + 63) / 64
}

/// No slot of the ring is busy: every connected subscriber has read
/// everything that was published in the current epoch.
pub open spec fn spec_drained(r: RingView) -> bool {
    forall|i: int| 0 <= i < 256 ==> !spec_slot_busy((#[trigger] r.slots[i]).rc, r.connections, r.epoch)
}

/// The slot holds fragment `j` of the message `data`, written by `cc_id`.
pub open spec fn spec_holds_frag(slot: SlotView, cc_id: u32, data: Seq<u8>, j: int) -> bool {
    let n = spec_frag_len(data.len() as int, 64 * j);
    &&& slot.cc_id == cc_id
    &&& slot.size == spec_size_word(n as u32, 64 * j + n >= data.len(), false)
    &&& slot.data.subrange(0, n) == data.subrange(64 * j, 64 * j + n)
}

/// The slots from `start` on hold the fragments `from .. to` of the message.
pub open spec fn spec_holds_frags(r: RingView, start: u32, cc_id: u32, data: Seq<u8>, from: int, to: int) -> bool {
    forall|i: int|
        from <= i < to ==> spec_holds_frag(#[trigger] r.slots[(start + i) % 256], cc_id, data, i)
}

/// The slots that the fragments `from .. 256` would take are free.
pub open spec fn spec_free_from(r: RingView, start: u32, from: int) -> bool {
    forall|i: int|
        from <= i < 256 ==> !spec_slot_busy(
            (#[trigger] r.slots[(start + i) % 256]).rc,
            r.connections,
            r.epoch,
        )
}

/// The slots that hold the fragments `from .. to` wait for the connected
/// subscribers in the current epoch.
pub open spec fn spec_claimed(r: RingView, start: u32, from: int, to: int) -> bool {
    forall|i: int|
        from <= i < to ==> (#[trigger] r.slots[(start + i) % 256]).rc == spec_claim_word(
            r.epoch,
            r.connections,
        )
}

/// A ring whose slots wait for nobody is drained, whoever is connected: so
/// is a fresh ring, also after subscribers have connected to it.
pub proof fn lemma_unclaimed_drained(r: RingView)
    requires
        forall|i: int| 0 <= i < 256 ==> crate::ring::spec_rc_readers((#[trigger] r.slots[i]).rc) == 0,
    ensures
        spec_drained(r),
        spec_drained(crate::ring::spec_connect(r)),
{
    let c = r.connections;
    let d = crate::ring::spec_connect(r).connections;
    assert forall|i: int| 0 <= i < 256 implies !spec_slot_busy(
        (#[trigger] r.slots[i]).rc,
        c,
        r.epoch,
    ) && !spec_slot_busy(r.slots[i].rc, d, r.epoch) by {
        let rc = r.slots[i].rc;
        assert(crate::ring::spec_rc_readers(rc) == 0);
        assert(((rc & 0x0000_0000_ffff_ffffu64) as u32) == 0 ==> (c as u64) & (rc
            & 0x0000_0000_ffff_ffffu64) == 0 && (d as u64) & (rc & 0x0000_0000_ffff_ffffu64) == 0)
            by (bit_vector);
    }
}

/// The ring of a fresh region is drained, and stays so while subscribers
/// connect to it.
pub proof fn lemma_fresh_drained(connections: u32)
    ensures
        spec_drained(RingView { connections, ..crate::ring::spec_fresh_ring() }),
{
    let r = RingView { connections, ..crate::ring::spec_fresh_ring() };
    assert((0u64 & 0x0000_0000_ffff_ffffu64) as u32 == 0) by (bit_vector);
    lemma_unclaimed_drained(r);
}

/// A slot that waited for one subscriber alone is free once that subscriber
/// has released it.
pub proof fn lemma_released_free(epoch: u64, conn_id: u32)
    ensures
        !spec_slot_busy(
            spec_clear_readers(spec_claim_word(epoch, conn_id), conn_id),
            conn_id,
            epoch,
        ),
{
    assert((conn_id as u64) & (((epoch | (conn_id as u64)) & !(conn_id as u64))
        & 0x0000_0000_ffff_ffffu64) == 0) by (bit_vector);
}

/// The slot of the cursor `j` after `start` is `j` slots after the slot of
/// `start`, round the ring.
pub proof fn lemma_cursor_index(start: u32, j: int)
    requires
        0 <= j <= 256,
    ensures
        spec_slot_index(spec_cursor_after(start, j)) == (start + j) % 256,
        0 <= (start + j) % 256 < 256,
        j < 256 ==> spec_cursor_after(start, j).wrapping_add(1) == spec_cursor_after(start, j + 1),
        spec_cursor_after(start, 0) == start,
{
    let a: int = start + j;
    if a < 0x1_0000_0000 {
        assert(a % 0x1_0000_0000 == a);
    } else {
        assert(a % 0x1_0000_0000 == a - 0x1_0000_0000);
    }
    if a + 1 < 0x1_0000_0000 {
        assert((a + 1) % 0x1_0000_0000 == a + 1);
    } else {
        assert((a + 1) % 0x1_0000_0000 == a + 1 - 0x1_0000_0000);
    }
}

/// Two cursors less than 256 apart point at different slots.
pub proof fn lemma_slots_apart(start: u32, i: int, j: int)
    requires
        0 <= i < 256,
        0 <= j < 256,
        i != j,
    ensures
        (start + i) % 256 != (start + j) % 256,
{
}

/// Two cursors at most 256 apart are different.
pub proof fn lemma_cursors_apart(start: u32, i: int, j: int)
    requires
        0 <= i < j <= 256,
    ensures
        spec_cursor_after(start, i) != spec_cursor_after(start, j),
{
    let a: int = start + i;
    let b: int = start + j;
    if a < 0x1_0000_0000 {
        assert(a % 0x1_0000_0000 == a);
    } else {
        assert(a % 0x1_0000_0000 == a - 0x1_0000_0000);
    }
    if b < 0x1_0000_0000 {
        assert(b % 0x1_0000_0000 == b);
    } else {
        assert(b % 0x1_0000_0000 == b - 0x1_0000_0000);
    }
}

/// A message of at most 256 fragments that is pushed into free slots gets in
/// whole: after the send, the slots from the old write cursor on hold its
/// fragments, and nothing else about the ring's header has changed.
pub proof fn lemma_send_inline_fills(r: RingView, cc_id: u32, data: Seq<u8>, start: u32, j: int)
    requires
        spec_ring_inv(r),
        r.connections != 0,
        0 <= j,
        64 * j <= data.len(),
        data.len() <= 64 * 256,
        r.write_cursor == spec_cursor_after(start, j),
        spec_free_from(r, start, j),
        spec_holds_frags(r, start, cc_id, data, 0, j),
    ensures
        spec_send_inline_ok(r, cc_id, data, 64 * j),
        ({
            let f = spec_send_inline(r, cc_id, data, 64 * j);
            let m = spec_frag_count(data.len() as int);
            &&& spec_ring_inv(f)
            &&& f.connections == r.connections
            &&& f.epoch == r.epoch
            &&& f.sender_count == r.sender_count
            &&& f.write_cursor == spec_cursor_after(start, m)
            &&& spec_holds_frags(f, start, cc_id, data, 0, m)
            &&& spec_claimed(r, start, 0, j) ==> spec_claimed(f, start, 0, m)
            &&& spec_free_from(f, start, m)
        }),
    decreases data.len() - 64 * j,
{
    let len = data.len() as int;
    let offset = 64 * j;
    let m = spec_frag_count(len);
    if offset >= len {
        assert(m == j);
    } else {
        assert(j < 256);
        let n = spec_frag_len(len, offset);
        let size = spec_size_word(n as u32, offset + n >= len, false);
        let frag = data.subrange(offset, offset + n);
        lemma_cursor_index(start, j);
        let idx = (start + j) % 256;
        assert(!spec_slot_busy(r.slots[idx].rc, r.connections, r.epoch));
        assert(spec_push_ok(r));
        let next = spec_push(r, cc_id, frag, size);
        assert(next.slots[idx].data.subrange(0, n) =~= frag);
        assert(spec_holds_frag(next.slots[idx], cc_id, data, j));
        assert forall|i: int| 0 <= i < j + 1 implies spec_holds_frag(
            #[trigger] next.slots[(start + i) % 256],
            cc_id,
            data,
            i,
        ) by {
            if i < j {
                lemma_slots_apart(start, i, j);
                assert(next.slots[(start + i) % 256] == r.slots[(start + i) % 256]);
            }
        }
        assert forall|i: int| j + 1 <= i < 256 implies !spec_slot_busy(
            (#[trigger] next.slots[(start + i) % 256]).rc,
            next.connections,
            next.epoch,
        ) by {
            lemma_slots_apart(start, i, j);
            assert(next.slots[(start + i) % 256] == r.slots[(start + i) % 256]);
        }
        assert forall|i: int| 0 <= i < 256 implies (#[trigger] next.slots[i]).data.len() == 64 by {
            if i != idx {
                assert(next.slots[i] == r.slots[i]);
            }
        }
        if spec_claimed(r, start, 0, j) {
            assert forall|i: int| 0 <= i < j + 1 implies (#[trigger] next.slots[(start + i) % 256]).rc
                == spec_claim_word(next.epoch, next.connections) by {
                if i < j {
                    lemma_slots_apart(start, i, j);
                    assert(next.slots[(start + i) % 256] == r.slots[(start + i) % 256]);
                }
            }
        }
        if offset + n >= len {
            assert(m == j + 1);
            assert(spec_send_inline(next, cc_id, data, offset + n) == next);
            assert(spec_send_inline_ok(next, cc_id, data, offset + n));
        } else {
            assert(n == 64);
            lemma_send_inline_fills(next, cc_id, data, start, j + 1);
        }
    }
}

/// A subscriber that stands before the fragments `j ..` of a message that
/// another endpoint wrote gathers them in order, up to the last.
pub proof fn lemma_recv_gathers(
    s: SharedView,
    conn_id: u32,
    cc_id: u32,
    writer: u32,
    data: Seq<u8>,
    start: u32,
    j: int,
    acc: Seq<u8>,
)
    requires
        writer != cc_id,
        0 <= j < spec_frag_count(data.len() as int) <= 256,
        s.ring.slots.len() == 256,
        s.ring.write_cursor == spec_cursor_after(start, spec_frag_count(data.len() as int)),
        spec_holds_frags(s.ring, start, writer, data, j, spec_frag_count(data.len() as int)),
    ensures
        ({
            let r = spec_recv(s, conn_id, cc_id, spec_cursor_after(start, j), acc);
            &&& r.bytes == acc + data.subrange(64 * j, data.len() as int)
            &&& r.cursor == s.ring.write_cursor
            &&& r.shared.pools == s.pools
            &&& r.shared.cc_acc == s.cc_acc
            &&& r.shared.ring.connections == s.ring.connections
            &&& r.shared.ring.write_cursor == s.ring.write_cursor
            &&& r.shared.ring.epoch == s.ring.epoch
            &&& r.shared.ring.sender_count == s.ring.sender_count
            &&& spec_ring_inv(s.ring) ==> spec_ring_inv(r.shared.ring)
            &&& (s.ring.connections == conn_id && spec_claimed(
                s.ring,
                start,
                j,
                spec_frag_count(data.len() as int),
            ) && spec_free_from(s.ring, start, spec_frag_count(data.len() as int)) && (forall|i: int|
                0 <= i < j ==> !spec_slot_busy(
                    (#[trigger] s.ring.slots[(start + i) % 256]).rc,
                    s.ring.connections,
                    s.ring.epoch,
                ))) ==> spec_free_from(r.shared.ring, start, 0)
        }),
    decreases spec_frag_count(data.len() as int) - j,
{
    let len = data.len() as int;
    let m = spec_frag_count(len);
    let cursor = spec_cursor_after(start, j);
    lemma_cursors_apart(start, j, m);
    lemma_cursor_index(start, j);
    let idx = (start + j) % 256;
    let slot = s.ring.slots[idx];
    let n = spec_frag_len(len, 64 * j);
    let last = 64 * j + n >= len;
    assert(spec_holds_frag(slot, writer, data, j));
    lemma_size_word_roundtrip(n as u32, last, false);
    let p = spec_pop(s, conn_id, cc_id, cursor);
    assert(p.bytes == data.subrange(64 * j, 64 * j + n));
    assert(p.last == last);
    let single = s.ring.connections == conn_id && spec_claimed(s.ring, start, j, m) && spec_free_from(
        s.ring,
        start,
        m,
    ) && (forall|i: int|
        0 <= i < j ==> !spec_slot_busy(
            (#[trigger] s.ring.slots[(start + i) % 256]).rc,
            s.ring.connections,
            s.ring.epoch,
        ));
    if spec_ring_inv(s.ring) {
        assert forall|i: int| 0 <= i < 256 implies (#[trigger] p.shared.ring.slots[i]).data.len()
            == 64 by {
            assert(s.ring.slots[i].data.len() == 64);
        }
    }
    if single {
        lemma_released_free(s.ring.epoch, conn_id);
        assert(s.ring.slots[(start + j) % 256].rc == spec_claim_word(s.ring.epoch, s.ring.connections));
        assert forall|i: int| 0 <= i < j + 1 implies !spec_slot_busy(
            (#[trigger] p.shared.ring.slots[(start + i) % 256]).rc,
            p.shared.ring.connections,
            p.shared.ring.epoch,
        ) by {
            if i < j {
                lemma_slots_apart(start, i, j);
                assert(!spec_slot_busy(
                    s.ring.slots[(start + i) % 256].rc,
                    s.ring.connections,
                    s.ring.epoch,
                ));
            }
        }
        assert forall|i: int| j + 1 <= i < m implies (#[trigger] p.shared.ring.slots[(start + i) % 256]).rc
            == spec_claim_word(p.shared.ring.epoch, p.shared.ring.connections) by {
            lemma_slots_apart(start, i, j);
            assert(s.ring.slots[(start + i) % 256].rc == spec_claim_word(
                s.ring.epoch,
                s.ring.connections,
            ));
        }
        assert forall|i: int| m <= i < 256 implies !spec_slot_busy(
            (#[trigger] p.shared.ring.slots[(start + i) % 256]).rc,
            p.shared.ring.connections,
            p.shared.ring.epoch,
        ) by {
            lemma_slots_apart(start, i, j);
            assert(!spec_slot_busy(
                s.ring.slots[(start + i) % 256].rc,
                s.ring.connections,
                s.ring.epoch,
            ));
        }
    }
    if last {
        assert(j == m - 1);
        assert(acc + p.bytes =~= acc + data.subrange(64 * j, len));
    } else {
        assert(n == 64);
        assert forall|i: int| j + 1 <= i < m implies spec_holds_frag(
            #[trigger] p.shared.ring.slots[(start + i) % 256],
            writer,
            data,
            i,
        ) by {
            lemma_slots_apart(start, i, j);
            assert(spec_holds_frag(s.ring.slots[(start + i) % 256], writer, data, i));
        }
        lemma_recv_gathers(p.shared, conn_id, cc_id, writer, data, start, j + 1, acc + p.bytes);
        assert((acc + p.bytes) + data.subrange(64 * (j + 1), len) =~= acc + data.subrange(
            64 * j,
            len,
        ));
    }
}

/// Fragments round-trip. A message of 1 to 16384 bytes that a producer sends
/// as fragments into a drained ring with a subscriber is reported as sent,
/// and a subscriber that had read everything before receives exactly its
/// bytes, and has then again read everything.
pub proof fn lemma_inline_roundtrip(s: SharedView, producer: u32, conn_id: u32, cc_id: u32, data: Seq<u8>)
    requires
        spec_shared_inv(s),
        s.ring.connections != 0,
        spec_drained(s.ring),
        producer != cc_id,
        0 < data.len() <= 64 * 256,
    ensures
        spec_send_inline_ok(s.ring, producer, data, 0),
        ({
            let sent = SharedView { ring: spec_send_inline(s.ring, producer, data, 0), ..s };
            let r = spec_recv(sent, conn_id, cc_id, s.ring.write_cursor, Seq::<u8>::empty());
            &&& r.bytes == data
            &&& r.cursor == r.shared.ring.write_cursor
            &&& spec_shared_inv(r.shared)
            &&& r.shared.ring.connections == s.ring.connections
            &&& s.ring.connections == conn_id ==> spec_drained(r.shared.ring)
        }),
{
    let start = s.ring.write_cursor;
    lemma_cursor_index(start, 0);
    assert forall|i: int| 0 <= i < 256 implies !spec_slot_busy(
        (#[trigger] s.ring.slots[(start + i) % 256]).rc,
        s.ring.connections,
        s.ring.epoch,
    ) by {
        assert(!spec_slot_busy(s.ring.slots[(start + i) % 256].rc, s.ring.connections, s.ring.epoch));
    }
    lemma_send_inline_fills(s.ring, producer, data, start, 0);
    let sent = SharedView { ring: spec_send_inline(s.ring, producer, data, 0), ..s };
    lemma_recv_gathers(sent, conn_id, cc_id, producer, data, start, 0, Seq::<u8>::empty());
    assert(Seq::<u8>::empty() + data.subrange(0, data.len() as int) =~= data);
    let r = spec_recv(sent, conn_id, cc_id, s.ring.write_cursor, Seq::<u8>::empty());
    if s.ring.connections == conn_id {
        lemma_free_from_drained(r.shared.ring, start);
    }
}

/// Slots that are free all round the ring from some cursor on are all free.
pub proof fn lemma_free_from_drained(r: RingView, start: u32)
    requires
        r.slots.len() == 256,
        spec_free_from(r, start, 0),
    ensures
        spec_drained(r),
{
    assert forall|i: int| 0 <= i < 256 implies !spec_slot_busy(
        (#[trigger] r.slots[i]).rc,
        r.connections,
        r.epoch,
    ) by {
        let k = (i - start % 256 + 256) % 256;
        assert((start + k) % 256 == i);
        assert(!spec_slot_busy(r.slots[(start + k) % 256].rc, r.connections, r.epoch));
    }
}

/// Replacing a pool by one of the same chunk size changes no search.
pub proof fn lemma_pool_from_update(
    pools: Seq<crate::chunk_storage::ChunkPoolView>,
    at: int,
    pool: crate::chunk_storage::ChunkPoolView,
    chunk_size: nat,
    from: int,
)
    requires
        0 <= at < pools.len(),
        pool.chunk_size == pools[at].chunk_size,
        0 <= from,
    ensures
        crate::channel::spec_pool_from(pools.update(at, pool), chunk_size, from)
            == crate::channel::spec_pool_from(pools, chunk_size, from),
    decreases pools.len() - from,
{
    if from < pools.len() {
        lemma_pool_from_update(pools, at, pool, chunk_size, from + 1);
    }
}

/// A search that finds a pool finds one of the size it looked for.
pub proof fn lemma_pool_from_found(
    pools: Seq<crate::chunk_storage::ChunkPoolView>,
    chunk_size: nat,
    from: int,
)
    requires
        0 <= from,
        crate::channel::spec_pool_from(pools, chunk_size, from) >= 0,
    ensures
        from <= crate::channel::spec_pool_from(pools, chunk_size, from) < pools.len(),
        pools[crate::channel::spec_pool_from(pools, chunk_size, from)].chunk_size == chunk_size,
    decreases pools.len() - from,
{
    if from < pools.len() && pools[from].chunk_size != chunk_size {
        lemma_pool_from_found(pools, chunk_size, from + 1);
    }
}

/// Large messages round-trip. A message that goes through a chunk into a
/// drained ring with a subscriber is reported as sent, and a subscriber that
/// had read everything before receives exactly its bytes.
pub proof fn lemma_large_roundtrip(s: SharedView, producer: u32, conn_id: u32, cc_id: u32, data: Seq<u8>)
    requires
        spec_shared_inv(s),
        s.ring.connections != 0,
        spec_drained(s.ring),
        producer != cc_id,
        spec_large_taken(s, data),
    ensures
        spec_claim_ok(s.ring),
        ({
            let sent = spec_send_large(s, producer, data);
            let r = spec_recv(sent, conn_id, cc_id, s.ring.write_cursor, Seq::<u8>::empty());
            &&& r.bytes == data
            &&& r.cursor == r.shared.ring.write_cursor
            &&& spec_shared_inv(r.shared)
            &&& r.shared.ring.connections == s.ring.connections
            &&& s.ring.connections == conn_id ==> spec_drained(r.shared.ring)
        }),
{
    let len = data.len();
    let chunk_size = spec_calc_chunk_size(len as int) as nat;
    let pi = spec_pool_for(s.pools, len);
    lemma_pool_from_found(s.pools, chunk_size, 0);
    let pool = s.pools[pi];
    let id = spec_acquire_storage_id(pool);
    let acquired = spec_acquire_storage(pool, s.ring.connections);
    let stored = spec_store(acquired, id, data);
    let start = s.ring.write_cursor;
    let idx = spec_slot_index(start);
    assert(!spec_slot_busy(s.ring.slots[idx].rc, s.ring.connections, s.ring.epoch));
    assert(spec_claim_ok(s.ring));
    let sent = spec_send_large(s, producer, data);
    let size = spec_size_word(8, true, true);
    lemma_size_word_roundtrip(8, true, true);
    crate::channel::lemma_storage_ref_roundtrip(s.order, id as u32, len as u32);
    let slot = sent.ring.slots[idx];
    let sref = spec_storage_ref(s.order, id as u32, len as u32);
    assert(sref.len() == 8);
    assert(slot.data.subrange(0, 4) =~= sref.subrange(0, 4));
    assert(slot.data.subrange(4, 8) =~= sref.subrange(4, 8));
    assert(crate::channel::spec_u32_of(s.order, slot.data.subrange(0, 4)) == id as u32);
    assert(crate::channel::spec_u32_of(s.order, slot.data.subrange(4, 8)) == len as u32);
    lemma_pool_from_update(s.pools, pi, stored, chunk_size, 0);
    assert(spec_pool_for(sent.pools, len) == pi);
    assert(chunk_size >= len + 4) by {
        assert(spec_calc_chunk_size(len as int) >= len + 4);
    }
    assert(stored.bodies[id].subrange(0, len as int) =~= data);
    assert(start.wrapping_add(1) != start);
    let p = spec_pop(sent, conn_id, cc_id, start);
    assert(p.last);
    assert(!p.own);
    assert(p.bytes == data);
    assert(Seq::<u8>::empty() + p.bytes =~= data);
    assert(spec_pool_inv(stored)) by {
        assert(spec_pool_inv(pool));
        crate::chunk_storage::lemma_pool_ops_keep_inv(pool, s.ring.connections, id, data, conn_id);
        crate::chunk_storage::lemma_pool_ops_keep_inv(acquired, s.ring.connections, id, data, conn_id);
    }
    crate::chunk_storage::lemma_pool_ops_keep_inv(stored, s.ring.connections, id, data, conn_id);
    assert forall|i: int| 0 <= i < p.shared.pools.len() implies spec_pool_inv(
        #[trigger] p.shared.pools[i],
    ) by {
        if i != pi {
            assert(p.shared.pools[i] == s.pools[i]);
        }
    }
    assert forall|i: int| 0 <= i < 256 implies (#[trigger] p.shared.ring.slots[i]).data.len() == 64
        && (s.ring.connections == conn_id ==> !spec_slot_busy(
        p.shared.ring.slots[i].rc,
        p.shared.ring.connections,
        p.shared.ring.epoch,
    )) by {
        assert(s.ring.slots[i].data.len() == 64);
        if i == idx {
            lemma_released_free(s.ring.epoch, conn_id);
        } else {
            assert(p.shared.ring.slots[i] == s.ring.slots[i]);
            assert(!spec_slot_busy(s.ring.slots[i].rc, s.ring.connections, s.ring.epoch));
        }
    }
}

/// Send-then-receive: bytes in equal bytes out. With one producer and a
/// subscriber that has read everything there was, a message that is not empty
/// and either goes through a chunk or fits 256 fragments is reported as sent,
/// and the subscriber's next receive yields exactly its bytes and leaves the
/// subscriber at the write cursor. Where the subscriber is the only one, the
/// ring is drained again afterwards, so that the same holds of the next
/// message.
pub proof fn lemma_send_recv_roundtrip(s: SharedView, producer: u32, conn_id: u32, cc_id: u32, data: Seq<u8>)
    requires
        spec_shared_inv(s),
        s.ring.connections != 0,
        spec_drained(s.ring),
        producer != cc_id,
        data.len() > 0,
        data.len() <= 64 * 256 || (data.len() > 64 && spec_large_taken(s, data)),
    ensures
        spec_send_ok(s, producer, data),
        ({
            let r = spec_recv(
                spec_send(s, producer, data),
                conn_id,
                cc_id,
                s.ring.write_cursor,
                Seq::<u8>::empty(),
            );
            &&& r.bytes == data
            &&& r.cursor == r.shared.ring.write_cursor
            &&& spec_shared_inv(r.shared)
            &&& r.shared.ring.connections == s.ring.connections
            &&& s.ring.connections == conn_id ==> spec_drained(r.shared.ring)
        }),
{
    if data.len() > 64 && spec_large_taken(s, data) {
        lemma_large_roundtrip(s, producer, conn_id, cc_id, data);
    } else if data.len() > 64 {
        let t = spec_send_large(s, producer, data);
        assert(t.ring == s.ring);
        assert(spec_shared_inv(t)) by {
            let pi = spec_pool_for(s.pools, data.len());
            if pi >= 0 {
                lemma_pool_from_found(s.pools, spec_calc_chunk_size(data.len() as int) as nat, 0);
                assert forall|i: int| 0 <= i < t.pools.len() implies crate::chunk_storage::spec_pool_inv(
                    #[trigger] t.pools[i],
                ) by {
                    if i != pi {
                        assert(t.pools[i] == s.pools[i]);
                    } else {
                        assert(crate::chunk_storage::spec_pool_inv(s.pools[pi]));
                        crate::chunk_storage::lemma_pool_ops_keep_inv(
                            s.pools[pi],
                            s.ring.connections,
                            0,
                            Seq::<u8>::empty(),
                            0,
                        );
                    }
                }
            }
        }
        lemma_inline_roundtrip(t, producer, conn_id, cc_id, data);
    } else {
        lemma_inline_roundtrip(s, producer, conn_id, cc_id, data);
    }
}

} // verus!
