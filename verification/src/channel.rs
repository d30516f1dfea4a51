//! Broadcast channels over the ring: endpoints that send and receive whole
//! messages, inline, through the chunk pool, or as fragments.
//!
//! The state that the endpoints of one channel share (the ring, the counter
//! that hands out endpoint identities, the chunk pools) is a value of
//! [`ChanShared`]; every operation of an endpoint takes it by reference. While
//! an operation runs it holds that state alone, so a wait for another endpoint
//! cannot end by that endpoint's progress: a producer that finds the slot under
//! the write cursor busy goes on to the forced push, and a subscriber that
//! finds the ring empty gets the empty buffer.

use vstd::prelude::*;
use vstd::bytes::{spec_u32_from_le_bytes, spec_u32_to_le_bytes, u32_from_le_bytes, u32_to_le_bytes};
use vstd::slice::slice_subrange;
use vstd::string::StringExecFns;
use crate::buffer::IpcBuffer;
use crate::chunk_storage::{
    spec_fresh_pool,
    acquire_storage,
    calc_chunk_size,
    recycle_storage,
    spec_acquire_storage,
    spec_acquire_storage_id,
    spec_calc_chunk_size,
    spec_pool_inv,
    spec_recycle_storage,
    spec_store,
    ChunkPool,
    ChunkPoolView,
    StorageId,
    MAX_PAYLOAD,
};
use crate::ring::{
    spec_fresh_ring,
    size_last,
    size_len,
    size_storage,
    size_word,
    spec_claim,
    spec_claim_ok,
    spec_connect,
    spec_disconnect,
    spec_popcount,
    spec_publish,
    spec_push,
    spec_push_ok,
    spec_release,
    spec_ring_inv,
    spec_size_last,
    spec_size_len,
    spec_size_storage,
    spec_size_word,
    spec_slot_index,
    Ring,
    RingView,
    DATA_LENGTH,
};

verus! {

/// Whether an endpoint produces or subscribes.
#[derive(Debug, Clone, Copy, PartialEq, Eq, Structural)]
pub enum Mode {
    /// The endpoint sends.
    Sender,
    /// The endpoint receives.
    Receiver,
}

/// Why an operation on a channel was refused.
#[derive(Debug, Clone, Copy, PartialEq, Eq, Structural)]
pub enum ChannelError {
    /// All 32 subscriber bits of the ring are taken.
    TooManyReceivers,
    /// The endpoint was asked to send and is no sender.
    NotSender,
    /// The endpoint was asked to receive and is no receiver.
    NotReceiver,
}

/// The order of the bytes of a number in memory.
#[derive(Debug, Clone, Copy, PartialEq, Eq, Structural)]
pub enum ByteOrder {
    /// The least significant byte first.
    Little,
    /// The most significant byte first.
    Big,
}

/// The four bytes of `x` in the given order.
pub open spec fn spec_u32_bytes(order: ByteOrder, x: u32) -> Seq<u8> {
    match order {
        ByteOrder::Little => spec_u32_to_le_bytes(x),
        ByteOrder::Big => spec_u32_to_le_bytes(x).reverse(),
    }
}

/// The number whose four bytes in the given order are `bytes`.
pub open spec fn spec_u32_of(order: ByteOrder, bytes: Seq<u8>) -> u32 {
    match order {
        ByteOrder::Little => spec_u32_from_le_bytes(bytes),
        ByteOrder::Big => spec_u32_from_le_bytes(bytes.reverse()),
    }
}

/// What the endpoints of one channel share.
pub struct SharedView {
    /// The ring.
    pub ring: RingView,
    /// The counter that hands out endpoint identities.
    pub cc_acc: u32,
    /// The chunk pools that are provisioned, each for one chunk size.
    pub pools: Seq<ChunkPoolView>,
    /// The byte order of the host, in which numbers stand in a slot.
    pub order: ByteOrder,
}

/// The ring and every pool are well formed.
pub open spec fn spec_shared_inv(s: SharedView) -> bool {
    &&& spec_ring_inv(s.ring)
    &&& forall|i: int| 0 <= i < s.pools.len() ==> spec_pool_inv(#[trigger] s.pools[i])
}

/// The first pool at or after `from` whose chunks have `chunk_size` bytes, or
/// -1 where there is none.
pub open spec fn spec_pool_from(pools: Seq<ChunkPoolView>, chunk_size: nat, from: int) -> int
    decreases pools.len() - from,
{
    if from < 0 || from >= pools.len() {
        -1
    } else if pools[from].chunk_size == chunk_size {
        from
    } else {
        spec_pool_from(pools, chunk_size, from + 1)
    }
}

/// Largest payload that goes through a chunk: the slot that refers to the
/// chunk holds the payload's length in 32 bits.
pub const MAX_STORED_LEN: usize = 0xFFFF_FFFF;

/// Whether a payload of `len` bytes can go through a chunk: its length fits
/// the 32 bits of the reference, and its chunk size fits the machine.
pub open spec fn spec_chunk_admits(len: nat) -> bool {
    len <= MAX_STORED_LEN && len <= MAX_PAYLOAD
}

/// Whether a payload of `len` bytes can go through a chunk.
pub fn chunk_admits(len: usize) -> (yes: bool)
    ensures
        yes == spec_chunk_admits(len as nat),
{
    len <= MAX_STORED_LEN && len <= MAX_PAYLOAD
}

/// The pool that takes a payload of `len` bytes, or -1 where none is
/// provisioned for its chunk size.
pub open spec fn spec_pool_for(pools: Seq<ChunkPoolView>, len: nat) -> int {
    if !spec_chunk_admits(len) {
        -1
    } else {
        spec_pool_from(pools, spec_calc_chunk_size(len as int) as nat, 0)
    }
}

/// The shared state after the pool for payloads of `payload_size` bytes was
/// provisioned: where a payload of that size can go through a chunk and no pool has its
/// chunk size, a fresh pool of that chunk size is appended.
pub open spec fn spec_provision(s: SharedView, payload_size: nat) -> SharedView {
    if !spec_chunk_admits(payload_size) || spec_pool_for(s.pools, payload_size) >= 0 {
        s
    } else {
        SharedView {
            pools: s.pools.push(spec_fresh_pool(spec_calc_chunk_size(payload_size as int) as nat)),
            ..s
        }
    }
}

/// The identity that the counter hands out next: the counter plus one, and
/// once more plus one where that is zero. The counter then stands at the
/// identity it handed out.
pub open spec fn spec_next_cc_id(acc: u32) -> u32 {
    let id = acc.wrapping_add(1);
    if id == 0 {
        1
    } else {
        id
    }
}

/// A prefix as it stands before the names of a channel's regions: empty, or
/// the prefix and an underscore.
pub open spec fn spec_full_prefix(prefix: Seq<char>) -> Seq<char> {
    if prefix.len() == 0 {
        prefix
    } else {
        prefix + seq!['_']
    }
}

/// The eight bytes that a slot holds for a message in a chunk: the chunk's
/// identifier and the payload's length, each as four bytes in the host's
/// order.
pub open spec fn spec_storage_ref(order: ByteOrder, id: u32, len: u32) -> Seq<u8> {
    spec_u32_bytes(order, id) + spec_u32_bytes(order, len)
}

/// The shared state after an endpoint opened the channel: it drew an
/// identity, and it was counted in as a producer or took a subscriber bit.
/// With all 32 bits taken a subscriber changes nothing but the counter.
pub open spec fn spec_open(s: SharedView, mode: Mode) -> SharedView {
    let cc_acc = spec_next_cc_id(s.cc_acc);
    match mode {
        Mode::Sender => SharedView {
            cc_acc,
            ring: RingView { sender_count: s.ring.sender_count.wrapping_add(1), ..s.ring },
            ..s
        },
        Mode::Receiver => SharedView { cc_acc, ring: spec_connect(s.ring), ..s },
    }
}

/// The shared state after an endpoint left the channel.
pub open spec fn spec_close(s: SharedView, mode: Mode, conn_id: u32) -> SharedView {
    match mode {
        Mode::Sender => SharedView {
            ring: RingView { sender_count: s.ring.sender_count.wrapping_sub(1), ..s.ring },
            ..s
        },
        Mode::Receiver => SharedView { ring: spec_disconnect(s.ring, conn_id), ..s },
    }
}

/// The number of bytes of the fragment that starts at `offset`.
pub open spec fn spec_frag_len(len: int, offset: int) -> int {
    if len - offset < 64 {
        len - offset
    } else {
        64
    }
}

/// Whether the fragments of `data` from `offset` on all get into the ring.
pub open spec fn spec_send_inline_ok(r: RingView, cc_id: u32, data: Seq<u8>, offset: int) -> bool
    decreases data.len() - offset,
{
    if offset < 0 || offset >= data.len() {
        true
    } else {
        let n = spec_frag_len(data.len() as int, offset);
        let size = spec_size_word(n as u32, offset + n >= data.len(), false);
        spec_push_ok(r) && spec_send_inline_ok(
            spec_push(r, cc_id, data.subrange(offset, offset + n), size),
            cc_id,
            data,
            offset + n,
        )
    }
}

/// The ring after the fragments of `data` from `offset` on were pushed one by
/// one, up to the first that did not get in. Each fragment has at most 64
/// bytes, and only the last carries the last-fragment flag.
pub open spec fn spec_send_inline(r: RingView, cc_id: u32, data: Seq<u8>, offset: int) -> RingView
    decreases data.len() - offset,
{
    if offset < 0 || offset >= data.len() {
        r
    } else {
        let n = spec_frag_len(data.len() as int, offset);
        let size = spec_size_word(n as u32, offset + n >= data.len(), false);
        let next = spec_push(r, cc_id, data.subrange(offset, offset + n), size);
        if spec_push_ok(r) {
            spec_send_inline(next, cc_id, data, offset + n)
        } else {
            next
        }
    }
}

/// Whether a message of more than 64 bytes goes through a chunk: a pool is
/// provisioned for its chunk size and has a free chunk.
pub open spec fn spec_large_taken(s: SharedView, data: Seq<u8>) -> bool {
    let pi = spec_pool_for(s.pools, data.len());
    pi >= 0 && spec_acquire_storage_id(s.pools[pi]) >= 0
}

/// The shared state after a message of more than 64 bytes was offered to the
/// chunk pool. Without a pool for its chunk size nothing changes. With one,
/// a chunk is acquired for the connected subscribers and filled, and the slot
/// under the write cursor is claimed; if the claim succeeds the slot gets the
/// reference to the chunk and is published, and if not the chunk is given
/// back.
pub open spec fn spec_send_large(s: SharedView, cc_id: u32, data: Seq<u8>) -> SharedView {
    let pi = spec_pool_for(s.pools, data.len());
    if pi < 0 {
        s
    } else {
        let id = spec_acquire_storage_id(s.pools[pi]);
        let acquired = spec_acquire_storage(s.pools[pi], s.ring.connections);
        if id < 0 {
            SharedView { pools: s.pools.update(pi, acquired), ..s }
        } else {
            let stored = spec_store(acquired, id, data);
            if spec_claim_ok(s.ring) {
                SharedView {
                    ring: spec_publish(
                        spec_claim(s.ring),
                        cc_id,
                        spec_storage_ref(s.order, id as u32, data.len() as u32),
                        spec_size_word(8, true, true),
                    ),
                    pools: s.pools.update(pi, stored),
                    ..s
                }
            } else {
                SharedView {
                    ring: spec_claim(s.ring),
                    pools: s.pools.update(pi, spec_recycle_storage(stored, id, u32::MAX)),
                    ..s
                }
            }
        }
    }
}

/// Whether a message is reported as sent. The empty message never is. A
/// message that goes through a chunk is sent if its one slot is claimed; any
/// other message is sent if all its fragments get into the ring.
pub open spec fn spec_send_ok(s: SharedView, cc_id: u32, data: Seq<u8>) -> bool {
    if data.len() == 0 {
        false
    } else if data.len() > 64 && spec_large_taken(s, data) {
        spec_claim_ok(s.ring)
    } else if data.len() > 64 {
        spec_send_inline_ok(spec_send_large(s, cc_id, data).ring, cc_id, data, 0)
    } else {
        spec_send_inline_ok(s.ring, cc_id, data, 0)
    }
}

/// The shared state after a message was sent; see [`spec_send_ok`].
pub open spec fn spec_send(s: SharedView, cc_id: u32, data: Seq<u8>) -> SharedView {
    if data.len() == 0 {
        s
    } else if data.len() > 64 && spec_large_taken(s, data) {
        spec_send_large(s, cc_id, data)
    } else if data.len() > 64 {
        let t = spec_send_large(s, cc_id, data);
        SharedView { ring: spec_send_inline(t.ring, cc_id, data, 0), ..t }
    } else {
        SharedView { ring: spec_send_inline(s.ring, cc_id, data, 0), ..s }
    }
}

/// What reading one slot yields.
pub struct PopView {
    /// The shared state after the slot was read and released.
    pub shared: SharedView,
    /// The bytes that the slot adds to the message.
    pub bytes: Seq<u8>,
    /// Whether the slot is the last of its message.
    pub last: bool,
    /// Whether the reading endpoint wrote the slot itself.
    pub own: bool,
}

/// What a subscriber with the bit `conn_id` and the identity `cc_id` reads
/// from the slot at `cursor`. A slot that the endpoint wrote itself adds
/// nothing. A slot with a reference adds the payload from the chunk, if the
/// pool for its size is provisioned and the identifier names a chunk, and the
/// subscriber's bit leaves the chunk's mask. Any other slot adds its bytes.
/// In each case the subscriber's bit leaves the slot's `rc` word.
pub open spec fn spec_pop(s: SharedView, conn_id: u32, cc_id: u32, cursor: u32) -> PopView {
    let slot = s.ring.slots[spec_slot_index(cursor)];
    let last = spec_size_last(slot.size);
    let own = slot.cc_id == cc_id;
    let ring = spec_release(s.ring, cursor, conn_id);
    if own {
        PopView { shared: SharedView { ring, ..s }, bytes: Seq::<u8>::empty(), last, own }
    } else if spec_size_storage(slot.size) {
        let id = spec_u32_of(s.order, slot.data.subrange(0, 4));
        let len = spec_u32_of(s.order, slot.data.subrange(4, 8));
        let pi = spec_pool_for(s.pools, len as nat);
        if pi < 0 {
            PopView { shared: SharedView { ring, ..s }, bytes: Seq::<u8>::empty(), last, own }
        } else if id >= 32 {
            PopView { shared: SharedView { ring, ..s }, bytes: Seq::<u8>::empty(), last, own }
        } else {
            PopView {
                shared: SharedView {
                    ring,
                    pools: s.pools.update(pi, spec_recycle_storage(s.pools[pi], id as int, conn_id)),
                    ..s
                },
                bytes: s.pools[pi].bodies[id as int].subrange(0, len as int),
                last,
                own,
            }
        }
    } else {
        let n = if spec_size_len(slot.size) < 64 {
            spec_size_len(slot.size) as int
        } else {
            64
        };
        PopView { shared: SharedView { ring, ..s }, bytes: slot.data.subrange(0, n), last, own }
    }
}

/// The number of slots between a subscriber's read cursor and the write
/// cursor.
pub open spec fn spec_pending(write_cursor: u32, read_cursor: u32) -> nat {
    write_cursor.wrapping_sub(read_cursor) as nat
}

/// What a receive yields.
pub struct RecvView {
    /// The shared state after the receive.
    pub shared: SharedView,
    /// The subscriber's read cursor after the receive.
    pub cursor: u32,
    /// The message; empty where none was complete.
    pub bytes: Seq<u8>,
}

/// What a subscriber receives that has gathered `acc` so far: it reads slot
/// after slot from its read cursor on, up to a slot that is the last of its
/// message, and yields what it gathered; if that last slot is its own it
/// yields the empty message. If it reaches the write cursor first, no message
/// is complete and it yields the empty message.
pub open spec fn spec_recv(s: SharedView, conn_id: u32, cc_id: u32, cursor: u32, acc: Seq<u8>) -> RecvView
    decreases spec_pending(s.ring.write_cursor, cursor),
{
    if cursor == s.ring.write_cursor {
        RecvView { shared: s, cursor, bytes: Seq::<u8>::empty() }
    } else {
        let p = spec_pop(s, conn_id, cc_id, cursor);
        let next = cursor.wrapping_add(1);
        if p.last {
            RecvView {
                shared: p.shared,
                cursor: next,
                bytes: if p.own {
                    Seq::<u8>::empty()
                } else {
                    acc + p.bytes
                },
            }
        } else {
            spec_recv(p.shared, conn_id, cc_id, next, acc + p.bytes)
        }
    }
}

/// What opening a channel yields: the shared state after it, and either the
/// endpoint or the refusal. An endpoint is refused only as the 33rd
/// subscriber. A subscriber gets the lowest free bit of the mask and starts
/// reading at the write cursor; every endpoint gets an identity that is not
/// zero.
pub open spec fn spec_opened(
    before: SharedView,
    after: SharedView,
    prefix: Seq<char>,
    name: Seq<char>,
    mode: Mode,
    opened: Result<EndpointView, ChannelError>,
) -> bool {
    &&& after == spec_open(before, mode)
    &&& opened is Err <==> mode == Mode::Receiver && before.ring.connections == u32::MAX
    &&& opened is Err ==> opened->Err_0 == ChannelError::TooManyReceivers
    &&& opened is Ok ==> {
        let ep = opened->Ok_0;
        &&& ep.name == name
        &&& ep.prefix == spec_full_prefix(prefix)
        &&& ep.mode == mode
        &&& ep.cc_id == spec_next_cc_id(before.cc_acc)
        &&& ep.cc_id != 0
        &&& ep.read_cursor == if mode == Mode::Receiver {
            before.ring.write_cursor
        } else {
            0
        }
        &&& ep.conn_id == if mode == Mode::Receiver {
            after.ring.connections ^ before.ring.connections
        } else {
            0
        }
        &&& mode == Mode::Receiver ==> ep.conn_id != 0 && ep.conn_id & before.ring.connections == 0
            && after.ring.connections == before.ring.connections | ep.conn_id
            && after.ring.connections != 0
    }
}

/// What a send yields: the empty message is not sent and changes nothing; an
/// endpoint that is no sender is refused and changes nothing; any other send
/// is what [`spec_send`] and [`spec_send_ok`] say.
pub open spec fn spec_sent(
    before: SharedView,
    after: SharedView,
    ep: EndpointView,
    data: Seq<u8>,
    sent: Result<bool, ChannelError>,
) -> bool {
    if data.len() == 0 {
        sent == Ok::<bool, ChannelError>(false) && after == before
    } else if ep.mode != Mode::Sender {
        sent == Err::<bool, ChannelError>(ChannelError::NotSender) && after == before
    } else {
        sent == Ok::<bool, ChannelError>(spec_send_ok(before, ep.cc_id, data)) && after == spec_send(
            before,
            ep.cc_id,
            data,
        )
    }
}

/// What a receive yields: an endpoint that is no receiver is refused and
/// changes nothing; any other receive is what [`spec_recv`] says.
pub open spec fn spec_received(
    before: SharedView,
    after: SharedView,
    ep_before: EndpointView,
    ep_after: EndpointView,
    received: Result<Seq<u8>, ChannelError>,
) -> bool {
    if ep_before.mode != Mode::Receiver {
        received == Err::<Seq<u8>, ChannelError>(ChannelError::NotReceiver) && after == before
            && ep_after == ep_before
    } else {
        let r = spec_recv(
            before,
            ep_before.conn_id,
            ep_before.cc_id,
            ep_before.read_cursor,
            Seq::<u8>::empty(),
        );
        &&& received == Ok::<Seq<u8>, ChannelError>(r.bytes)
        &&& after == r.shared
        &&& ep_after == (EndpointView { read_cursor: r.cursor, ..ep_before })
    }
}

/// The number of bytes of the fragment of a message of `len` bytes that
/// starts at `offset`: what is left, and at most 64.
pub fn frag_len(len: usize, offset: usize) -> (n: usize)
    requires
        offset <= len,
    ensures
        n == spec_frag_len(len as int, offset as int),
        n <= 64,
        offset + n <= len,
{
    if len - offset < DATA_LENGTH {
        len - offset
    } else {
        DATA_LENGTH
    }
}

/// The two bytes of `x` as they stand in memory on this host. Calls
/// `u16::to_ne_bytes`, which gives the bytes in the host's order: the
/// little-endian bytes on a little-endian host, and the same bytes reversed
/// on a big-endian one.
#[verifier::external_body]
fn ne_bytes_of(x: u16) -> (bytes: [u8; 2])
    ensures
        bytes@ == vstd::bytes::spec_u16_to_le_bytes(x) || bytes@ == vstd::bytes::spec_u16_to_le_bytes(
            x,
        ).reverse(),
{
    x.to_ne_bytes()
}

/// The byte order of this host: little where the number one has its one in
/// the first byte.
pub fn native_byte_order() -> ByteOrder {
    let bytes = ne_bytes_of(1);
    if bytes[0] == 1 {
        ByteOrder::Little
    } else {
        ByteOrder::Big
    }
}

/// The four bytes of `x` in the given order.
pub fn u32_bytes(order: ByteOrder, x: u32) -> (bytes: Vec<u8>)
    ensures
        bytes@ == spec_u32_bytes(order, x),
        bytes@.len() == 4,
{
    let le: Vec<u8> = u32_to_le_bytes(x);
    proof {
        vstd::bytes::lemma_auto_spec_u32_to_from_le_bytes();
    }
    match order {
        ByteOrder::Little => le,
        ByteOrder::Big => {
            let mut be: Vec<u8> = Vec::new();
            be.push(le[3]);
            be.push(le[2]);
            be.push(le[1]);
            be.push(le[0]);
            assert(be@ =~= le@.reverse());
            be
        },
    }
}

/// The number whose four bytes in the given order are `bytes`.
pub fn u32_of(order: ByteOrder, bytes: &[u8]) -> (x: u32)
    requires
        bytes@.len() == 4,
    ensures
        x == spec_u32_of(order, bytes@),
{
    match order {
        ByteOrder::Little => u32_from_le_bytes(bytes),
        ByteOrder::Big => {
            let mut le: Vec<u8> = Vec::new();
            le.push(bytes[3]);
            le.push(bytes[2]);
            le.push(bytes[1]);
            le.push(bytes[0]);
            assert(le@ =~= bytes@.reverse());
            u32_from_le_bytes(le.as_slice())
        },
    }
}

/// The eight bytes that a slot holds for a message in a chunk.
pub fn storage_ref(order: ByteOrder, id: u32, len: u32) -> (bytes: Vec<u8>)
    ensures
        bytes@ == spec_storage_ref(order, id, len),
        bytes@.len() == 8,
{
    let mut bytes: Vec<u8> = u32_bytes(order, id);
    let mut len_bytes: Vec<u8> = u32_bytes(order, len);
    bytes.append(&mut len_bytes);
    bytes
}

/// Reads the chunk's identifier and the payload's length from the first
/// eight bytes of a slot.
pub fn parse_storage_ref(order: ByteOrder, data: &[u8]) -> (parsed: (u32, u32))
    requires
        data@.len() >= 8,
    ensures
        parsed.0 == spec_u32_of(order, data@.subrange(0, 4)),
        parsed.1 == spec_u32_of(order, data@.subrange(4, 8)),
{
    let id: u32 = u32_of(order, slice_subrange(data, 0, 4));
    let len: u32 = u32_of(order, slice_subrange(data, 4, 8));
    (id, len)
}

/// A number is read back from its bytes as it was written, in either order.
pub proof fn lemma_u32_bytes_roundtrip(order: ByteOrder, x: u32)
    ensures
        spec_u32_bytes(order, x).len() == 4,
        spec_u32_of(order, spec_u32_bytes(order, x)) == x,
{
    vstd::bytes::lemma_auto_spec_u32_to_from_le_bytes();
    let le = spec_u32_to_le_bytes(x);
    assert(le.reverse().reverse() =~= le);
}

/// A storage reference is read back as it was written.
pub proof fn lemma_storage_ref_roundtrip(order: ByteOrder, id: u32, len: u32)
    ensures
        spec_storage_ref(order, id, len).len() == 8,
        spec_u32_of(order, spec_storage_ref(order, id, len).subrange(0, 4)) == id,
        spec_u32_of(order, spec_storage_ref(order, id, len).subrange(4, 8)) == len,
{
    lemma_u32_bytes_roundtrip(order, id);
    lemma_u32_bytes_roundtrip(order, len);
    assert(spec_storage_ref(order, id, len).subrange(0, 4) =~= spec_u32_bytes(order, id));
    assert(spec_storage_ref(order, id, len).subrange(4, 8) =~= spec_u32_bytes(order, len));
}

/// The state that the endpoints of one channel share.
pub struct ChanShared {
    ring: Ring,
    cc_acc: u32,
    pools: Vec<ChunkPool>,
    order: ByteOrder,
}

impl View for ChanShared {
    type V = SharedView;

    closed spec fn view(&self) -> SharedView {
        SharedView {
            ring: self.ring@,
            cc_acc: self.cc_acc,
            pools: Seq::new(self.pools@.len(), |i: int| self.pools@[i]@),
            order: self.order,
        }
    }
}

impl ChanShared {
    /// See [`spec_shared_inv`].
    pub open spec fn inv(&self) -> bool {
        spec_shared_inv(self@)
    }

    /// The state of a channel that no endpoint has opened yet, on this host:
    /// a fresh ring, the counter at zero, no pool, and the host's byte order.
    pub fn new() -> (shared: ChanShared)
        ensures
            shared.inv(),
            shared@ == (SharedView {
                ring: spec_fresh_ring(),
                cc_acc: 0,
                pools: Seq::<ChunkPoolView>::empty(),
                order: shared@.order,
            }),
    {
        ChanShared::with_byte_order(native_byte_order())
    }

    /// The state of a channel that no endpoint has opened yet, on a host of
    /// the given byte order.
    pub fn with_byte_order(order: ByteOrder) -> (shared: ChanShared)
        ensures
            shared.inv(),
            shared@ == (SharedView {
                ring: spec_fresh_ring(),
                cc_acc: 0,
                pools: Seq::<ChunkPoolView>::empty(),
                order,
            }),
    {
        let shared = ChanShared { ring: Ring::new(), cc_acc: 0, pools: Vec::new(), order };
        assert(shared@.pools =~= Seq::<ChunkPoolView>::empty());
        shared
    }

    /// The byte order of the host.
    pub fn byte_order(&self) -> (order: ByteOrder)
        ensures
            order == self@.order,
    {
        self.order
    }

    /// The state of a channel whose identity counter stands at `cc_acc`, as
    /// it does after that many endpoints have opened the channel; the ring is
    /// fresh and no pool is provisioned.
    pub fn with_identity_counter(cc_acc: u32) -> (shared: ChanShared)
        ensures
            shared.inv(),
            shared@ == (SharedView {
                ring: spec_fresh_ring(),
                cc_acc,
                pools: Seq::<ChunkPoolView>::empty(),
                order: shared@.order,
            }),
    {
        let shared = ChanShared {
            ring: Ring::new(),
            cc_acc,
            pools: Vec::new(),
            order: native_byte_order(),
        };
        assert(shared@.pools =~= Seq::<ChunkPoolView>::empty());
        shared
    }

    /// The ring.
    pub fn ring(&self) -> (ring: &Ring)
        ensures
            ring@ == self@.ring,
    {
        &self.ring
    }

    /// The number of provisioned pools.
    pub fn pool_count(&self) -> (n: usize)
        ensures
            n == self@.pools.len(),
    {
        self.pools.len()
    }

    /// The pool at `index`.
    pub fn pool(&self, index: usize) -> (pool: &ChunkPool)
        requires
            index < self@.pools.len(),
        ensures
            pool@ == self@.pools[index as int],
    {
        &self.pools[index]
    }

    /// The index of the pool whose chunks have `chunk_size` bytes.
    pub fn pool_index(&self, chunk_size: usize) -> (index: Option<usize>)
        ensures
            match index {
                Some(i) => i == spec_pool_from(self@.pools, chunk_size as nat, 0),
                None => spec_pool_from(self@.pools, chunk_size as nat, 0) == -1,
            },
            index.is_some() ==> index.unwrap() < self@.pools.len() && self@.pools[index.unwrap() as int].chunk_size
                == chunk_size,
    {
        let n: usize = self.pools.len();
        let mut i: usize = 0;
        while i < n
            invariant
                i <= n,
                n == self.pools@.len(),
                spec_pool_from(self@.pools, chunk_size as nat, 0) == spec_pool_from(
                    self@.pools,
                    chunk_size as nat,
                    i as int,
                ),
            decreases n - i,
        {
            if self.pools[i].chunk_size() == chunk_size {
                return Some(i);
            }
            i = i + 1;
        }
        None
    }

    /// Provisions the pool for payloads of `payload_size` bytes, if it is not
    /// there yet: a fresh pool for the chunk size of that payload joins the
    /// pools. Returns whether a pool for that size is provisioned afterwards:
    /// it is unless a payload of that size cannot go through a chunk.
    pub fn provision(&mut self, payload_size: usize) -> (provisioned: bool)
        requires
            old(self).inv(),
        ensures
            final(self).inv(),
            provisioned == spec_chunk_admits(payload_size as nat),
            final(self)@ == spec_provision(old(self)@, payload_size as nat),
            provisioned ==> spec_pool_for(final(self)@.pools, payload_size as nat) >= 0,
    {
        if !chunk_admits(payload_size) {
            return false;
        }
        let chunk_size: usize = calc_chunk_size(payload_size);
        if self.pool_index(chunk_size).is_some() {
            return true;
        }
        let pool = ChunkPool::new(chunk_size);
        self.pools.push(pool);
        proof {
            assert(self@.pools =~= old(self)@.pools.push(pool@));
            lemma_pool_from_push(old(self)@.pools, pool@, chunk_size as nat, 0);
            assert forall|i: int| 0 <= i < self@.pools.len() implies spec_pool_inv(
                #[trigger] self@.pools[i],
            ) by {
                if i < old(self)@.pools.len() {
                    assert(self@.pools[i] == old(self)@.pools[i]);
                }
            }
        }
        true
    }

    /// Hands out the next endpoint identity: never zero, and different from
    /// the one handed out before.
    pub fn next_cc_id(&mut self) -> (id: u32)
        requires
            old(self).inv(),
        ensures
            final(self).inv(),
            id == spec_next_cc_id(old(self)@.cc_acc),
            id != 0,
            id != old(self)@.cc_acc,
            final(self)@ == (SharedView { cc_acc: id, ..old(self)@ }),
    {
        let mut id: u32 = self.cc_acc.wrapping_add(1);
        if id == 0 {
            id = id.wrapping_add(1);
        }
        self.cc_acc = id;
        assert(self@.pools =~= old(self)@.pools);
        id
    }
}

/// Endpoint identities wrap past zero without collision: the counter never
/// hands out zero, and what it hands out next differs from what it handed out
/// last, also where the counter wraps.
pub proof fn lemma_cc_id_wraps(acc: u32)
    ensures
        spec_next_cc_id(acc) != 0,
        spec_next_cc_id(acc) != acc,
        spec_next_cc_id(spec_next_cc_id(acc)) != spec_next_cc_id(acc),
        acc == u32::MAX ==> spec_next_cc_id(acc) == 1,
        acc < u32::MAX ==> spec_next_cc_id(acc) == acc + 1,
{
}

/// A pool appended to the list is found for its chunk size exactly where no
/// earlier pool has that size; every other search is unchanged.
pub proof fn lemma_pool_from_push(pools: Seq<ChunkPoolView>, pool: ChunkPoolView, chunk_size: nat, from: int)
    requires
        0 <= from <= pools.len(),
        pool.chunk_size == chunk_size,
        spec_pool_from(pools, chunk_size, from) == -1,
    ensures
        spec_pool_from(pools.push(pool), chunk_size, from) == pools.len(),
    decreases pools.len() - from,
{
    if from < pools.len() {
        lemma_pool_from_push(pools, pool, chunk_size, from + 1);
    }
}

/// What an endpoint holds of its own.
pub struct EndpointView {
    /// The channel's name.
    pub name: Seq<char>,
    /// The prefix of the channel's regions: empty, or ending in an underscore.
    pub prefix: Seq<char>,
    /// Whether the endpoint sends or receives.
    pub mode: Mode,
    /// The subscriber bit of a receiver; 0 for a sender.
    pub conn_id: u32,
    /// The endpoint's identity, stamped on what it sends.
    pub cc_id: u32,
    /// The read cursor of a receiver.
    pub read_cursor: u32,
}

/// One endpoint of a channel.
pub struct ChanInner {
    name: String,
    prefix: String,
    mode: Mode,
    conn_id: u32,
    cc_id: u32,
    read_cursor: u32,
}

impl View for ChanInner {
    type V = EndpointView;

    closed spec fn view(&self) -> EndpointView {
        EndpointView {
            name: self.name@,
            prefix: self.prefix@,
            mode: self.mode,
            conn_id: self.conn_id,
            cc_id: self.cc_id,
            read_cursor: self.read_cursor,
        }
    }
}

impl ChanInner {
    /// Opens the channel for an endpoint. The endpoint draws its identity
    /// from the shared counter. A sender is counted in. A receiver takes the
    /// lowest free subscriber bit and starts reading at the write cursor; with
    /// all 32 bits taken it is refused.
    pub fn open(shared: &mut ChanShared, prefix: &str, name: &str, mode: Mode) -> (opened: Result<
        ChanInner,
        ChannelError,
    >)
        requires
            old(shared).inv(),
        ensures
            final(shared).inv(),
            final(shared)@ == spec_open(old(shared)@, mode),
            opened.is_err() <==> mode == Mode::Receiver && old(shared)@.ring.connections
                == u32::MAX,
            opened.is_err() ==> opened == Err::<ChanInner, ChannelError>(
                ChannelError::TooManyReceivers,
            ),
            opened.is_ok() ==> {
                let ep = opened.unwrap()@;
                &&& ep.name == name@
                &&& ep.prefix == spec_full_prefix(prefix@)
                &&& ep.mode == mode
                &&& ep.cc_id == spec_next_cc_id(old(shared)@.cc_acc)
                &&& ep.cc_id != 0
                &&& ep.read_cursor == if mode == Mode::Receiver {
                    old(shared)@.ring.write_cursor
                } else {
                    0
                }
                &&& ep.conn_id == if mode == Mode::Receiver {
                    final(shared)@.ring.connections ^ old(shared)@.ring.connections
                } else {
                    0
                }
                &&& mode == Mode::Receiver ==> ep.conn_id != 0 && ep.conn_id & old(shared)@.ring.connections == 0 && final(shared)@.ring.connections == old(shared)@.ring.connections | ep.conn_id && final(shared)@.ring.connections != 0
            },
    {
        let mut full_prefix = String::from_str(prefix);
        if !prefix.is_empty() {
            full_prefix.append("_");
            proof {
                reveal_strlit("_");
                assert(full_prefix@ =~= spec_full_prefix(prefix@));
            }
        }
        let cc_id = shared.next_cc_id();
        let mut conn_id: u32 = 0;
        let mut read_cursor: u32 = 0;
        match mode {
            Mode::Sender => {
                shared.ring.add_sender();
            },
            Mode::Receiver => {
                let ghost before = shared.ring@.connections;
                conn_id = shared.ring.connect_receiver();
                proof {
                    crate::ring::lemma_free_bit(before);
                    assert(before == 0xffff_ffffu32 ==> before | 0u32 == before) by (bit_vector);
                    assert(conn_id & before == 0 ==> (before | conn_id) ^ before == conn_id && (conn_id
                        != 0 ==> before | conn_id != 0)) by (bit_vector);
                    assert(shared@.pools =~= old(shared)@.pools);
                }
                if conn_id == 0 {
                    return Err(ChannelError::TooManyReceivers);
                }
                read_cursor = shared.ring.write_cursor();
            },
        }
        assert(shared@.pools =~= old(shared)@.pools);
        Ok(ChanInner { name: String::from_str(name), prefix: full_prefix, mode, conn_id, cc_id, read_cursor })
    }

    /// Leaves the channel: a sender is counted out, a receiver gives its
    /// subscriber bit back.
    pub fn close(self, shared: &mut ChanShared)
        requires
            old(shared).inv(),
        ensures
            final(shared).inv(),
            final(shared)@ == spec_close(old(shared)@, self@.mode, self@.conn_id),
    {
        match self.mode {
            Mode::Sender => {
                shared.ring.remove_sender();
            },
            Mode::Receiver => {
                let _ = shared.ring.disconnect_receiver(self.conn_id);
            },
        }
        assert(shared@.pools =~= old(shared)@.pools);
    }

    /// The channel's name.
    pub fn name(&self) -> (name: &str)
        ensures
            name@ == self@.name,
    {
        self.name.as_str()
    }

    /// Whether the endpoint sends or receives.
    pub fn mode(&self) -> (mode: Mode)
        ensures
            mode == self@.mode,
    {
        self.mode
    }

    /// The subscriber bit of a receiver; 0 for a sender.
    pub fn conn_id(&self) -> (conn_id: u32)
        ensures
            conn_id == self@.conn_id,
    {
        self.conn_id
    }

    /// The endpoint's identity.
    pub fn cc_id(&self) -> (cc_id: u32)
        ensures
            cc_id == self@.cc_id,
    {
        self.cc_id
    }

    /// The read cursor of a receiver.
    pub fn read_cursor(&self) -> (cursor: u32)
        ensures
            cursor == self@.read_cursor,
    {
        self.read_cursor
    }

    /// The number of connected subscribers.
    pub fn recv_count(&self, shared: &ChanShared) -> (n: usize)
        ensures
            n == spec_popcount(shared@.ring.connections),
    {
        shared.ring.recv_count()
    }

    /// Whether at least `count` subscribers are connected. No subscriber can
    /// connect while the call holds the shared state, so there is nothing to
    /// wait for.
    pub fn wait_for_recv(&self, shared: &ChanShared, count: usize) -> (enough: bool)
        ensures
            enough == (spec_popcount(shared@.ring.connections) >= count),
    {
        shared.ring.recv_count() >= count
    }

    /// Sends `data` as fragments of at most 64 bytes. Returns whether every
    /// fragment got into the ring.
    pub fn send_inline(&self, shared: &mut ChanShared, data: &[u8]) -> (sent: bool)
        requires
            old(shared).inv(),
        ensures
            final(shared).inv(),
            sent == spec_send_inline_ok(old(shared)@.ring, self@.cc_id, data@, 0),
            final(shared)@ == (SharedView {
                ring: spec_send_inline(old(shared)@.ring, self@.cc_id, data@, 0),
                ..old(shared)@
            }),
    {
        let len: usize = data.len();
        let mut offset: usize = 0;
        assert(shared@.pools =~= old(shared)@.pools);
        while offset < len
            invariant
                offset <= len,
                len == data@.len(),
                shared.inv(),
                shared@.pools == old(shared)@.pools,
                shared@.cc_acc == old(shared)@.cc_acc,
                shared@.order == old(shared)@.order,
                spec_send_inline_ok(old(shared)@.ring, self@.cc_id, data@, 0)
                    == spec_send_inline_ok(shared@.ring, self@.cc_id, data@, offset as int),
                spec_send_inline(old(shared)@.ring, self@.cc_id, data@, 0) == spec_send_inline(
                    shared@.ring,
                    self@.cc_id,
                    data@,
                    offset as int,
                ),
            decreases len - offset,
        {
            let chunk_len: usize = frag_len(len, offset);
            let is_last: bool = offset + chunk_len >= len;
            let size: u32 = size_word(chunk_len as u32, is_last, false);
            let pushed = shared.ring.push(self.cc_id, data, offset, chunk_len, size);
            assert(shared@.pools =~= old(shared)@.pools);
            if !pushed {
                return false;
            }
            offset = offset + chunk_len;
        }
        true
    }

    /// Offers a message of more than 64 bytes to the chunk pool. Returns
    /// nothing where no chunk could be had, so that the caller falls back to
    /// fragments; else whether the slot that refers to the chunk was
    /// published.
    pub fn send_large(&self, shared: &mut ChanShared, data: &[u8]) -> (sent: Option<bool>)
        requires
            old(shared).inv(),
        ensures
            final(shared).inv(),
            final(shared)@ == spec_send_large(old(shared)@, self@.cc_id, data@),
            sent.is_some() == spec_large_taken(old(shared)@, data@),
            sent.is_some() ==> sent.unwrap() == spec_claim_ok(old(shared)@.ring),
    {
        let len: usize = data.len();
        if !chunk_admits(len) {
            return None;
        }
        let chunk_size: usize = calc_chunk_size(len);
        let pi: usize = match shared.pool_index(chunk_size) {
            Some(pi) => pi,
            None => {
                return None;
            },
        };
        let conns: u32 = shared.ring.connections();
        assert(shared@.pools[pi as int] == shared.pools@[pi as int]@);
        let id: StorageId = match acquire_storage(&mut shared.pools[pi], conns) {
            Some(id) => id,
            None => {
                proof {
                    let want = spec_send_large(old(shared)@, self@.cc_id, data@);
                    assert(shared@.pools =~= want.pools);
                }
                return None;
            },
        };
        shared.pools[pi].store(id, data);
        if !shared.ring.claim() {
            recycle_storage(&mut shared.pools[pi], id, u32::MAX);
            proof {
                let want = spec_send_large(old(shared)@, self@.cc_id, data@);
                assert(shared@.pools =~= want.pools);
            }
            return Some(false);
        }
        let slot_ref: Vec<u8> = storage_ref(shared.order, id as u32, len as u32);
        proof {
            assert(slot_ref@.subrange(0, 8) =~= spec_storage_ref(
                shared@.order,
                id as u32,
                len as u32,
            ));
        }
        shared.ring.publish(self.cc_id, slot_ref.as_slice(), 0, 8, size_word(8, true, true));
        proof {
            let want = spec_send_large(old(shared)@, self@.cc_id, data@);
            assert(shared@.pools =~= want.pools);
        }
        Some(true)
    }

    /// Sends a message to every connected subscriber. The empty message is
    /// not sent. A message of more than 64 bytes goes through a chunk where
    /// one can be had, and as fragments otherwise. Returns whether the message
    /// was sent; an endpoint that is no sender is refused.
    pub fn send(&self, shared: &mut ChanShared, data: &[u8]) -> (sent: Result<bool, ChannelError>)
        requires
            old(shared).inv(),
        ensures
            final(shared).inv(),
            data@.len() == 0 ==> sent == Ok::<bool, ChannelError>(false) && final(shared)@ == old(shared)@,
            data@.len() > 0 && self@.mode != Mode::Sender ==> sent == Err::<bool, ChannelError>(
                ChannelError::NotSender,
            ) && final(shared)@ == old(shared)@,
            data@.len() > 0 && self@.mode == Mode::Sender ==> sent == Ok::<bool, ChannelError>(
                spec_send_ok(old(shared)@, self@.cc_id, data@),
            ) && final(shared)@ == spec_send(old(shared)@, self@.cc_id, data@),
    {
        if data.len() == 0 {
            return Ok(false);
        }
        if self.mode != Mode::Sender {
            return Err(ChannelError::NotSender);
        }
        if data.len() > DATA_LENGTH {
            match self.send_large(shared, data) {
                Some(result) => {
                    return Ok(result);
                },
                None => {},
            }
        }
        let sent = self.send_inline(shared, data);
        Ok(sent)
    }

    /// Sends without waiting. A send on state held alone never waits, so this
    /// is [`ChanInner::send`].
    pub fn try_send(&self, shared: &mut ChanShared, data: &[u8]) -> (sent: Result<bool, ChannelError>)
        requires
            old(shared).inv(),
        ensures
            final(shared).inv(),
            data@.len() == 0 ==> sent == Ok::<bool, ChannelError>(false) && final(shared)@ == old(shared)@,
            data@.len() > 0 && self@.mode != Mode::Sender ==> sent == Err::<bool, ChannelError>(
                ChannelError::NotSender,
            ) && final(shared)@ == old(shared)@,
            data@.len() > 0 && self@.mode == Mode::Sender ==> sent == Ok::<bool, ChannelError>(
                spec_send_ok(old(shared)@, self@.cc_id, data@),
            ) && final(shared)@ == spec_send(old(shared)@, self@.cc_id, data@),
    {
        self.send(shared, data)
    }

    /// Reads the slot under the read cursor, appends to `assembled` what it
    /// adds to the message, releases the slot and moves the read cursor on.
    /// Returns whether the slot is the last of its message, and whether the
    /// endpoint wrote it itself.
    pub fn pop(&mut self, shared: &mut ChanShared, assembled: &mut Vec<u8>) -> (flags: (bool, bool))
        requires
            old(shared).inv(),
        ensures
            final(shared).inv(),
            ({
                let p = spec_pop(old(shared)@, old(self)@.conn_id, old(self)@.cc_id, old(self)@.read_cursor);
                &&& final(shared)@ == p.shared
                &&& final(assembled)@ == old(assembled)@ + p.bytes
                &&& flags == (p.last, p.own)
                &&& final(self)@ == (EndpointView {
                    read_cursor: old(self)@.read_cursor.wrapping_add(1),
                    ..old(self)@
                })
            }),
    {
        let cur: u32 = self.read_cursor;
        let size_val: u32 = shared.ring.slot_size(cur);
        let chunk_len: u32 = size_len(size_val);
        let is_last: bool = size_last(size_val);
        let is_storage: bool = size_storage(size_val);
        let is_own: bool = shared.ring.slot_cc_id(cur) == self.cc_id;
        let ghost p = spec_pop(old(shared)@, self@.conn_id, self@.cc_id, cur);
        if !is_own {
            if is_storage {
                let slot_data: &Vec<u8> = shared.ring.slot_data(cur);
                let (id, len) = parse_storage_ref(shared.order, slot_data.as_slice());
                if chunk_admits(len as usize) {
                    let chunk_size: usize = calc_chunk_size(len as usize);
                    match shared.pool_index(chunk_size) {
                        Some(pi) => {
                            if id < 32 {
                                assert(shared@.pools[pi as int] == shared.pools@[pi as int]@);
                                let body: &Vec<u8> = shared.pools[pi].find(id as StorageId).unwrap();
                                assembled.extend_from_slice(
                                    slice_subrange(body.as_slice(), 0, len as usize),
                                );
                                recycle_storage(&mut shared.pools[pi], id as StorageId, self.conn_id);
                            }
                        },
                        None => {},
                    }
                }
            } else {
                let n: usize = if chunk_len < 64 {
                    chunk_len as usize
                } else {
                    64
                };
                let slot_data: &Vec<u8> = shared.ring.slot_data(cur);
                assembled.extend_from_slice(slice_subrange(slot_data.as_slice(), 0, n));
            }
        }
        shared.ring.release(cur, self.conn_id);
        self.read_cursor = cur.wrapping_add(1);
        proof {
            assert(shared@.pools =~= p.shared.pools);
            assert(assembled@ =~= old(assembled)@ + p.bytes);
        }
        (is_last, is_own)
    }

    /// Receives the next message. Returns the empty buffer where no complete
    /// message is in the ring, or where the message is the endpoint's own; an
    /// endpoint that is no receiver is refused.
    pub fn recv(&mut self, shared: &mut ChanShared) -> (received: Result<IpcBuffer, ChannelError>)
        requires
            old(shared).inv(),
        ensures
            final(shared).inv(),
            old(self)@.mode != Mode::Receiver ==> received is Err && received->Err_0
                == ChannelError::NotReceiver && final(shared)@ == old(shared)@ && final(self)@
                == old(self)@,
            old(self)@.mode == Mode::Receiver ==> {
                let r = spec_recv(
                    old(shared)@,
                    old(self)@.conn_id,
                    old(self)@.cc_id,
                    old(self)@.read_cursor,
                    Seq::<u8>::empty(),
                );
                &&& received is Ok
                &&& received->Ok_0@ == r.bytes
                &&& final(shared)@ == r.shared
                &&& final(self)@ == (EndpointView { read_cursor: r.cursor, ..old(self)@ })
            },
    {
        if self.mode != Mode::Receiver {
            return Err(ChannelError::NotReceiver);
        }
        let mut assembled: Vec<u8> = Vec::new();
        let ghost want = spec_recv(
            old(shared)@,
            old(self)@.conn_id,
            old(self)@.cc_id,
            old(self)@.read_cursor,
            Seq::<u8>::empty(),
        );
        loop
            invariant
                shared.inv(),
                old(self)@.mode == Mode::Receiver,
                want == spec_recv(
                    old(shared)@,
                    old(self)@.conn_id,
                    old(self)@.cc_id,
                    old(self)@.read_cursor,
                    Seq::<u8>::empty(),
                ),
                self@ == (EndpointView { read_cursor: self@.read_cursor, ..old(self)@ }),
                want == spec_recv(
                    shared@,
                    self@.conn_id,
                    self@.cc_id,
                    self@.read_cursor,
                    assembled@,
                ),
            decreases spec_pending(shared@.ring.write_cursor, self@.read_cursor),
        {
            if shared.ring.write_cursor() == self.read_cursor {
                return Ok(IpcBuffer::new());
            }
            let (is_last, is_own) = self.pop(shared, &mut assembled);
            if is_last {
                if is_own {
                    return Ok(IpcBuffer::new());
                }
                return Ok(IpcBuffer::from_vec(assembled));
            }
        }
    }

    /// Receives without waiting. A receive on state held alone never waits,
    /// so this is [`ChanInner::recv`].
    pub fn try_recv(&mut self, shared: &mut ChanShared) -> (received: Result<IpcBuffer, ChannelError>)
        requires
            old(shared).inv(),
        ensures
            final(shared).inv(),
            old(self)@.mode != Mode::Receiver ==> received is Err && received->Err_0
                == ChannelError::NotReceiver && final(shared)@ == old(shared)@ && final(self)@
                == old(self)@,
            old(self)@.mode == Mode::Receiver ==> {
                let r = spec_recv(
                    old(shared)@,
                    old(self)@.conn_id,
                    old(self)@.cc_id,
                    old(self)@.read_cursor,
                    Seq::<u8>::empty(),
                );
                &&& received is Ok
                &&& received->Ok_0@ == r.bytes
                &&& final(shared)@ == r.shared
                &&& final(self)@ == (EndpointView { read_cursor: r.cursor, ..old(self)@ })
            },
    {
        self.recv(shared)
    }
}

} // verus!
