//! Messages of one producer arrive in the order in which they were sent.
//!
//! The law is shown for two messages that go into the ring as fragments and
//! together fit the ring: the subscriber's first receive yields the first
//! message, and its second receive the second.

use vstd::prelude::*;
use crate::channel::{
    spec_frag_len,
    spec_pop,
    spec_recv,
    spec_send_inline,
    spec_send_inline_ok,
    SharedView,
};
use crate::ring::{
    lemma_size_word_roundtrip,
    spec_push,
    spec_push_ok,
    spec_ring_inv,
    spec_size_word,
    spec_slot_busy,
    RingView,
};
use crate::roundtrip::{
    lemma_cursor_index,
    lemma_cursors_apart,
    lemma_slots_apart,
    spec_cursor_after,
    spec_drained,
    spec_frag_count,
    spec_holds_frag,
    spec_holds_frags,
};

verus! {

/// The slots that the fragments `from .. to` take are free.
pub open spec fn spec_free_range(r: RingView, start: u32, from: int, to: int) -> bool {
    forall|i: int|
        from <= i < to ==> !spec_slot_busy(
            (#[trigger] r.slots[(start + i) % 256]).rc,
            r.connections,
            r.epoch,
        )
}

/// The two rings have the same slots at the places `from .. to` after
/// `start`.
pub open spec fn spec_same_range(a: RingView, b: RingView, start: u32, from: int, to: int) -> bool {
    forall|i: int| from <= i < to ==> (#[trigger] a.slots[(start + i) % 256]) == b.slots[(start + i) % 256]
}

/// Fragments that are pushed into free slots get in, and they change no slot
/// but their own: after the send the slots from `start` on hold the
/// fragments, and every other slot is as it was.
pub proof fn lemma_fills_range(r: RingView, cc_id: u32, data: Seq<u8>, start: u32, j: int)
    requires
        spec_ring_inv(r),
        r.connections != 0,
        0 <= j,
        64 * j <= data.len(),
        data.len() <= 64 * 256,
        r.write_cursor == spec_cursor_after(start, j),
        spec_free_range(r, start, j, spec_frag_count(data.len() as int)),
    ensures
        spec_send_inline_ok(r, cc_id, data, 64 * j),
        ({
            let f = spec_send_inline(r, cc_id, data, 64 * j);
            let m = spec_frag_count(data.len() as int);
            &&& spec_ring_inv(f)
            &&& f.connections == r.connections
            &&& f.epoch == r.epoch
            &&& f.sender_count == r.sender_count
            &&& f.write_cursor == spec_cursor_after(start, m)
            &&& spec_holds_frags(f, start, cc_id, data, j, m)
            &&& spec_same_range(f, r, start, 0, j)
            &&& spec_same_range(f, r, start, m, 256)
        }),
    decreases data.len() - 64 * j,
{
    let len = data.len() as int;
    let offset = 64 * j;
    let m = spec_frag_count(len);
    if offset >= len {
        assert(m == j);
    } else {
        assert(j < m <= 256);
        let n = spec_frag_len(len, offset);
        let size = spec_size_word(n as u32, offset + n >= len, false);
        let frag = data.subrange(offset, offset + n);
        lemma_cursor_index(start, j);
        let idx = (start + j) % 256;
        assert(!spec_slot_busy(r.slots[idx].rc, r.connections, r.epoch));
        assert(spec_push_ok(r));
        let next = spec_push(r, cc_id, frag, size);
        assert(next.slots[idx].data.subrange(0, n) =~= frag);
        assert(spec_holds_frag(next.slots[idx], cc_id, data, j));
        assert forall|i: int| 0 <= i < 256 && i != j implies (#[trigger] next.slots[(start + i) % 256])
            == r.slots[(start + i) % 256] by {
            lemma_slots_apart(start, i, j);
        }
        assert forall|i: int| 0 <= i < 256 implies (#[trigger] next.slots[i]).data.len() == 64 by {
            if i != idx {
                assert(next.slots[i] == r.slots[i]);
            }
        }
        if offset + n >= len {
            assert(m == j + 1);
            assert(spec_send_inline(next, cc_id, data, offset + n) == next);
            assert(spec_send_inline_ok(next, cc_id, data, offset + n));
        } else {
            assert(n == 64);
            assert forall|i: int| j + 1 <= i < m implies !spec_slot_busy(
                (#[trigger] next.slots[(start + i) % 256]).rc,
                next.connections,
                next.epoch,
            ) by {
                assert(next.slots[(start + i) % 256] == r.slots[(start + i) % 256]);
                assert(!spec_slot_busy(r.slots[(start + i) % 256].rc, r.connections, r.epoch));
            }
            lemma_fills_range(next, cc_id, data, start, j + 1);
            let f = spec_send_inline(next, cc_id, data, 64 * (j + 1));
            assert forall|i: int| j <= i < m implies spec_holds_frag(
                #[trigger] f.slots[(start + i) % 256],
                cc_id,
                data,
                i,
            ) by {
                if i == j {
                    assert(f.slots[(start + j) % 256] == next.slots[(start + j) % 256]);
                }
            }
            assert forall|i: int| (0 <= i < j || m <= i < 256) implies (#[trigger] f.slots[(start + i) % 256])
                == r.slots[(start + i) % 256] by {
                assert(f.slots[(start + i) % 256] == next.slots[(start + i) % 256]);
                assert(next.slots[(start + i) % 256] == r.slots[(start + i) % 256]);
            }
        }
    }
}

/// A subscriber that stands before the fragments `j ..` of a message gathers
/// them in order up to the last, whatever follows the message in the ring,
/// and on its way it changes no slot but those of the message, and of those
/// the `rc` word alone.
pub proof fn lemma_gathers_range(
    s: SharedView,
    conn_id: u32,
    cc_id: u32,
    writer: u32,
    data: Seq<u8>,
    start: u32,
    j: int,
    total: int,
    acc: Seq<u8>,
)
    requires
        writer != cc_id,
        0 <= j < spec_frag_count(data.len() as int) <= total <= 256,
        s.ring.slots.len() == 256,
        s.ring.write_cursor == spec_cursor_after(start, total),
        spec_holds_frags(s.ring, start, writer, data, j, spec_frag_count(data.len() as int)),
    ensures
        ({
            let r = spec_recv(s, conn_id, cc_id, spec_cursor_after(start, j), acc);
            let m = spec_frag_count(data.len() as int);
            &&& r.bytes == acc + data.subrange(64 * j, data.len() as int)
            &&& r.cursor == spec_cursor_after(start, m)
            &&& r.shared.pools == s.pools
            &&& r.shared.cc_acc == s.cc_acc
            &&& r.shared.ring.connections == s.ring.connections
            &&& r.shared.ring.write_cursor == s.ring.write_cursor
            &&& r.shared.ring.epoch == s.ring.epoch
            &&& r.shared.ring.sender_count == s.ring.sender_count
            &&& r.shared.ring.slots.len() == 256
            &&& spec_same_range(r.shared.ring, s.ring, start, 0, j)
            &&& spec_same_range(r.shared.ring, s.ring, start, m, 256)
        }),
    decreases spec_frag_count(data.len() as int) - j,
{
    let len = data.len() as int;
    let m = spec_frag_count(len);
    let cursor = spec_cursor_after(start, j);
    lemma_cursors_apart(start, j, total);
    lemma_cursor_index(start, j);
    let idx = (start + j) % 256;
    let slot = s.ring.slots[idx];
    let n = spec_frag_len(len, 64 * j);
    let last = 64 * j + n >= len;
    assert(spec_holds_frag(slot, writer, data, j));
    lemma_size_word_roundtrip(n as u32, last, false);
    let p = spec_pop(s, conn_id, cc_id, cursor);
    assert(p.bytes == data.subrange(64 * j, 64 * j + n));
    assert(p.last == last);
    assert forall|i: int| 0 <= i < 256 && i != j implies (#[trigger] p.shared.ring.slots[(start + i) % 256])
        == s.ring.slots[(start + i) % 256] by {
        lemma_slots_apart(start, i, j);
    }
    if last {
        assert(j == m - 1);
        assert(acc + p.bytes =~= acc + data.subrange(64 * j, len));
    } else {
        assert(n == 64);
        assert forall|i: int| j + 1 <= i < m implies spec_holds_frag(
            #[trigger] p.shared.ring.slots[(start + i) % 256],
            writer,
            data,
            i,
        ) by {
            assert(p.shared.ring.slots[(start + i) % 256] == s.ring.slots[(start + i) % 256]);
            assert(spec_holds_frag(s.ring.slots[(start + i) % 256], writer, data, i));
        }
        lemma_gathers_range(p.shared, conn_id, cc_id, writer, data, start, j + 1, total, acc + p.bytes);
        let r = spec_recv(p.shared, conn_id, cc_id, spec_cursor_after(start, j + 1), acc + p.bytes);
        assert((acc + p.bytes) + data.subrange(64 * (j + 1), len) =~= acc + data.subrange(
            64 * j,
            len,
        ));
        assert forall|i: int| (0 <= i < j || m <= i < 256) implies (#[trigger] r.shared.ring.slots[(start + i) % 256])
            == s.ring.slots[(start + i) % 256] by {
            assert(r.shared.ring.slots[(start + i) % 256] == p.shared.ring.slots[(start + i) % 256]);
            assert(p.shared.ring.slots[(start + i) % 256] == s.ring.slots[(start + i) % 256]);
        }
    }
}

/// The place `i` after the cursor that stands `k` after `start` is the place
/// `k + i` after `start`.
pub proof fn lemma_cursor_shift(start: u32, k: int, i: int)
    requires
        0 <= k <= 256,
        0 <= i <= 256,
    ensures
        (spec_cursor_after(start, k) + i) % 256 == (start + k + i) % 256,
        spec_cursor_after(spec_cursor_after(start, k), i) == spec_cursor_after(start, k + i),
{
    let a: int = start + k;
    if a < 0x1_0000_0000 {
        assert(a % 0x1_0000_0000 == a);
    } else {
        assert(a % 0x1_0000_0000 == a - 0x1_0000_0000);
    }
    let w: int = spec_cursor_after(start, k) as int;
    let b: int = w + i;
    if b < 0x1_0000_0000 {
        assert(b % 0x1_0000_0000 == b);
    } else {
        assert(b % 0x1_0000_0000 == b - 0x1_0000_0000);
    }
    let c: int = start + k + i;
    if c < 0x1_0000_0000 {
        assert(c % 0x1_0000_0000 == c);
    } else if c < 0x2_0000_0000 {
        assert(c % 0x1_0000_0000 == c - 0x1_0000_0000);
    }
}

/// The place `256 - k + i` after the cursor that stands `k` after `start` is
/// the place `i` after `start`: once round the ring.
pub proof fn lemma_cursor_wrap(start: u32, k: int, i: int)
    requires
        0 <= i < k <= 256,
    ensures
        (spec_cursor_after(start, k) + (256 - k + i)) % 256 == (start + i) % 256,
{
    let a: int = start + k;
    if a < 0x1_0000_0000 {
        assert(a % 0x1_0000_0000 == a);
    } else {
        assert(a % 0x1_0000_0000 == a - 0x1_0000_0000);
    }
}

/// Two messages that together fit the ring both get into a drained ring,
/// and afterwards the ring holds the fragments of both, those of the second
/// behind those of the first.
pub proof fn lemma_two_sends(r: RingView, producer: u32, first: Seq<u8>, second: Seq<u8>)
    requires
        spec_ring_inv(r),
        r.connections != 0,
        spec_drained(r),
        first.len() > 0,
        second.len() > 0,
        spec_frag_count(first.len() as int) + spec_frag_count(second.len() as int) <= 256,
    ensures
        spec_send_inline_ok(r, producer, first, 0),
        spec_send_inline_ok(spec_send_inline(r, producer, first, 0), producer, second, 0),
        ({
            let ma = spec_frag_count(first.len() as int);
            let mb = spec_frag_count(second.len() as int);
            let two = spec_send_inline(spec_send_inline(r, producer, first, 0), producer, second, 0);
            &&& two.slots.len() == 256
            &&& two.write_cursor == spec_cursor_after(r.write_cursor, ma + mb)
            &&& spec_holds_frags(two, r.write_cursor, producer, first, 0, ma)
            &&& spec_holds_frags(two, spec_cursor_after(r.write_cursor, ma), producer, second, 0, mb)
        }),
{
    let w0 = r.write_cursor;
    let ma = spec_frag_count(first.len() as int);
    let mb = spec_frag_count(second.len() as int);
    lemma_cursor_index(w0, 0);
    assert(spec_free_range(r, w0, 0, ma)) by {
        assert forall|i: int| 0 <= i < ma implies !spec_slot_busy(
            (#[trigger] r.slots[(w0 + i) % 256]).rc,
            r.connections,
            r.epoch,
        ) by {
            assert(!spec_slot_busy(r.slots[(w0 + i) % 256].rc, r.connections, r.epoch));
        }
    }
    lemma_fills_range(r, producer, first, w0, 0);
    let one = spec_send_inline(r, producer, first, 0);
    let w1 = spec_cursor_after(w0, ma);
    lemma_cursor_index(w1, 0);
    assert(spec_free_range(one, w1, 0, mb)) by {
        assert forall|i: int| 0 <= i < mb implies !spec_slot_busy(
            (#[trigger] one.slots[(w1 + i) % 256]).rc,
            one.connections,
            one.epoch,
        ) by {
            lemma_cursor_shift(w0, ma, i);
            assert(one.slots[(w0 + (ma + i)) % 256] == r.slots[(w0 + (ma + i)) % 256]);
            assert(!spec_slot_busy(r.slots[(w0 + (ma + i)) % 256].rc, r.connections, r.epoch));
        }
    }
    lemma_fills_range(one, producer, second, w1, 0);
    let two = spec_send_inline(one, producer, second, 0);
    lemma_cursor_shift(w0, ma, mb);
    assert(spec_holds_frags(two, w0, producer, first, 0, ma)) by {
        assert forall|i: int| 0 <= i < ma implies spec_holds_frag(
            #[trigger] two.slots[(w0 + i) % 256],
            producer,
            first,
            i,
        ) by {
            let k = 256 - ma + i;
            lemma_cursor_wrap(w0, ma, i);
            assert(two.slots[(w1 + k) % 256] == one.slots[(w1 + k) % 256]);
            assert(spec_holds_frag(one.slots[(w0 + i) % 256], producer, first, i));
        }
    }
}

/// First in, first out. Two messages that one producer sends one after the
/// other as fragments into a drained ring, and that together take no more
/// than the 256 slots, are both reported as sent; a subscriber that had read
/// everything before then receives the first message first and the second
/// message second.
pub proof fn lemma_fifo(
    s: SharedView,
    producer: u32,
    conn_id: u32,
    cc_id: u32,
    first: Seq<u8>,
    second: Seq<u8>,
)
    requires
        spec_ring_inv(s.ring),
        s.ring.connections != 0,
        spec_drained(s.ring),
        producer != cc_id,
        first.len() > 0,
        second.len() > 0,
        spec_frag_count(first.len() as int) + spec_frag_count(second.len() as int) <= 256,
    ensures
        spec_send_inline_ok(s.ring, producer, first, 0),
        spec_send_inline_ok(spec_send_inline(s.ring, producer, first, 0), producer, second, 0),
        ({
            let one = spec_send_inline(s.ring, producer, first, 0);
            let two = spec_send_inline(one, producer, second, 0);
            let sent = SharedView { ring: two, ..s };
            let r1 = spec_recv(sent, conn_id, cc_id, s.ring.write_cursor, Seq::<u8>::empty());
            let r2 = spec_recv(r1.shared, conn_id, cc_id, r1.cursor, Seq::<u8>::empty());
            &&& r1.bytes == first
            &&& r2.bytes == second
            &&& r2.cursor == two.write_cursor
        }),
{
    let w0 = s.ring.write_cursor;
    let ma = spec_frag_count(first.len() as int);
    let mb = spec_frag_count(second.len() as int);
    let w1 = spec_cursor_after(w0, ma);
    lemma_two_sends(s.ring, producer, first, second);
    let two = spec_send_inline(spec_send_inline(s.ring, producer, first, 0), producer, second, 0);
    let sent = SharedView { ring: two, ..s };
    lemma_cursor_index(w0, 0);
    lemma_gathers_range(sent, conn_id, cc_id, producer, first, w0, 0, ma + mb, Seq::<u8>::empty());
    assert(Seq::<u8>::empty() + first.subrange(0, first.len() as int) =~= first);
    let r1 = spec_recv(sent, conn_id, cc_id, w0, Seq::<u8>::empty());
    assert(spec_holds_frags(r1.shared.ring, w1, producer, second, 0, mb)) by {
        assert forall|i: int| 0 <= i < mb implies spec_holds_frag(
            #[trigger] r1.shared.ring.slots[(w1 + i) % 256],
            producer,
            second,
            i,
        ) by {
            lemma_cursor_shift(w0, ma, i);
            assert(r1.shared.ring.slots[(w0 + (ma + i)) % 256] == two.slots[(w0 + (ma + i)) % 256]);
            assert(spec_holds_frag(two.slots[(w1 + i) % 256], producer, second, i));
        }
    }
    lemma_cursor_shift(w0, ma, mb);
    lemma_cursor_index(w1, 0);
    lemma_gathers_range(r1.shared, conn_id, cc_id, producer, second, w1, 0, mb, Seq::<u8>::empty());
    assert(Seq::<u8>::empty() + second.subrange(0, second.len() as int) =~= second);
}

} // verus!
