//! The chunk pool for large messages: 32 chunks of one size, an intrusive free
//! list of their identifiers, and a per-chunk mask of the subscribers that
//! still have to read it.

use vstd::prelude::*;
use crate::spin_lock::SpinLock;

verus! {

/// Number of chunks in a pool.
pub const MAX_COUNT: usize = 32;

/// Payload sizes are rounded up to a multiple of this.
pub const CHUNK_ALIGN: usize = 1024;

/// Bytes of a chunk taken by its subscriber mask.
pub const CHUNK_HEADER: usize = 4;

/// Bytes of the pool header as laid out in a region: the lock word, the
/// cursor and the 32 links, padded to the lock word's alignment.
pub const INFO_SIZE: usize = 40;

/// Largest payload size for which a chunk size can be computed.
pub const MAX_PAYLOAD: usize = usize::MAX - 1042;

/// Identifier of a chunk in its pool; negative means none.
pub type StorageId = i32;

/// `x` rounded up to a multiple of `a`.
pub open spec fn spec_align_up(x: int, a: int) -> int {
    ((x + a - 1) / a) * a
}

/// The size of a chunk for a payload: the payload rounded up to 1024, plus
/// the mask, the sum rounded up to 16.
pub open spec fn spec_calc_chunk_size(payload_size: int) -> int {
    spec_align_up(spec_align_up(payload_size, 1024) + 4, 16)
}

/// Computes the size of a chunk that holds `payload_size` bytes.
pub fn calc_chunk_size(payload_size: usize) -> (size: usize)
    requires
        payload_size <= MAX_PAYLOAD,
    ensures
        size == spec_calc_chunk_size(payload_size as int),
        size >= payload_size + CHUNK_HEADER,
        size % 16 == 0,
{
    let aligned: usize = ((payload_size + CHUNK_ALIGN - 1) / CHUNK_ALIGN) * CHUNK_ALIGN;
    let total: usize = CHUNK_HEADER + aligned;
    (total + 15) / 16 * 16
}

/// What a pool header holds.
pub struct ChunkInfoView {
    /// Whether the lock that protects the free list is held.
    pub locked: bool,
    /// Head of the free list; 32 or more when the pool is exhausted.
    pub cursor: u8,
    /// `next[i]` is the free chunk after chunk `i`.
    pub next: Seq<u8>,
}

/// A header that was never initialised: a fresh region is all zero.
pub open spec fn spec_fresh(v: ChunkInfoView) -> bool {
    v.cursor == 0 && v.next[0] == 0
}

/// The header after lazy initialisation: a fresh header gets the free list
/// 0, 1, .., 31; any other header is left as it is.
pub open spec fn spec_ensure_init(v: ChunkInfoView) -> ChunkInfoView {
    if spec_fresh(v) {
        ChunkInfoView { next: Seq::new(32, |i: int| (i + 1) as u8), ..v }
    } else {
        v
    }
}

/// The header after the head of the free list was taken.
pub open spec fn spec_acquire(v: ChunkInfoView) -> ChunkInfoView {
    if v.cursor >= 32 {
        v
    } else {
        ChunkInfoView { cursor: v.next[v.cursor as int], ..v }
    }
}

/// The identifier that taking the head of the free list yields.
pub open spec fn spec_acquire_id(v: ChunkInfoView) -> int {
    if v.cursor >= 32 {
        -1
    } else {
        v.cursor as int
    }
}

/// The header after chunk `id` was put back at the head of the free list.
/// An identifier that names no chunk, or a chunk that is free already,
/// changes nothing.
pub open spec fn spec_release(v: ChunkInfoView, id: int) -> ChunkInfoView {
    if id < 0 || id >= 32 || spec_is_free(v, id) {
        v
    } else {
        ChunkInfoView { cursor: id as u8, next: v.next.update(id, v.cursor), ..v }
    }
}

/// Whether exactly `n` links lead from `cur` to the end of the free list.
pub open spec fn spec_chain(next: Seq<u8>, cur: u8, n: nat) -> bool
    decreases n,
{
    if n == 0 {
        cur >= 32
    } else {
        cur < 32 && spec_chain(next, next[cur as int], (n - 1) as nat)
    }
}

/// The first `n` identifiers of the free list that starts at `cur`.
pub open spec fn spec_chain_ids(next: Seq<u8>, cur: u8, n: nat) -> Seq<u8>
    decreases n,
{
    if n == 0 {
        Seq::<u8>::empty()
    } else {
        seq![cur] + spec_chain_ids(next, next[cur as int], (n - 1) as nat)
    }
}

/// The number of links from `cur` to the end of the free list, as far as
/// `fuel` steps reach.
pub open spec fn spec_walk_len(next: Seq<u8>, cur: u8, fuel: nat) -> nat
    decreases fuel,
{
    if fuel == 0 || cur >= 32 {
        0
    } else {
        1 + spec_walk_len(next, next[cur as int], (fuel - 1) as nat)
    }
}

/// The number of free chunks of a pool header: the length of its free list,
/// which for a header that was never initialised is the list 0, 1, .., 31.
pub open spec fn spec_free_count(v: ChunkInfoView) -> nat {
    spec_walk_len(spec_ensure_init(v).next, v.cursor, 32)
}

/// A walk is no longer than its fuel.
pub proof fn lemma_walk_len_bounded(next: Seq<u8>, cur: u8, fuel: nat)
    ensures
        spec_walk_len(next, cur, fuel) <= fuel,
    decreases fuel,
{
    if fuel > 0 && cur < 32 {
        lemma_walk_len_bounded(next, next[cur as int], (fuel - 1) as nat);
    }
}

/// A free list of `n` links is `n` long.
pub proof fn lemma_chain_walk(next: Seq<u8>, cur: u8, n: nat, fuel: nat)
    requires
        spec_chain(next, cur, n),
        n <= fuel,
    ensures
        spec_walk_len(next, cur, fuel) == n,
    decreases n,
{
    if n > 0 {
        lemma_chain_walk(next, next[cur as int], (n - 1) as nat, (fuel - 1) as nat);
    }
}

/// The free list of a header that was just initialised has all 32 chunks.
pub proof fn lemma_fresh_chain(k: nat)
    requires
        k <= 32,
    ensures
        spec_chain(Seq::new(32, |i: int| (i + 1) as u8), k as u8, (32 - k) as nat),
    decreases 32 - k,
{
    if k < 32 {
        lemma_fresh_chain(k + 1);
    }
}

/// A link that the free list does not pass can be changed without changing
/// the list.
pub proof fn lemma_chain_update(next: Seq<u8>, cur: u8, n: nat, id: int, to: u8)
    requires
        next.len() == 32,
        0 <= id < 32,
        spec_chain(next, cur, n),
        !spec_chain_ids(next, cur, n).contains(id as u8),
    ensures
        spec_chain(next.update(id, to), cur, n),
        spec_chain_ids(next.update(id, to), cur, n) == spec_chain_ids(next, cur, n),
    decreases n,
{
    if n > 0 {
        let rest = spec_chain_ids(next, next[cur as int], (n - 1) as nat);
        assert(spec_chain_ids(next, cur, n) == seq![cur] + rest);
        assert(spec_chain_ids(next, cur, n)[0] == cur);
        assert(cur != id);
        assert forall|k: int| 0 <= k < rest.len() implies rest[k] != id as u8 by {
            assert(spec_chain_ids(next, cur, n)[k + 1] == rest[k]);
        }
        lemma_chain_update(next, next[cur as int], (n - 1) as nat, id, to);
    }
}

/// Whether the walk from `cur` along the free list passes `id` within
/// `fuel` steps.
pub open spec fn spec_walk_has(next: Seq<u8>, cur: u8, fuel: nat, id: u8) -> bool
    decreases fuel,
{
    if fuel == 0 || cur >= 32 {
        false
    } else {
        cur == id || spec_walk_has(next, next[cur as int], (fuel - 1) as nat, id)
    }
}

/// Whether chunk `id` is free: the free list passes it.
pub open spec fn spec_is_free(v: ChunkInfoView, id: int) -> bool {
    0 <= id < 32 && spec_walk_has(spec_ensure_init(v).next, v.cursor, 32, id as u8)
}

/// The identifiers of the free chunks, in the order of the free list.
pub open spec fn spec_free_ids(v: ChunkInfoView) -> Seq<u8> {
    spec_chain_ids(spec_ensure_init(v).next, v.cursor, spec_free_count(v))
}

/// The free list is a list: from the cursor its links lead to the end, and
/// no chunk is in it twice.
pub open spec fn spec_list_ok(v: ChunkInfoView) -> bool {
    &&& v.next.len() == 32
    &&& spec_chain(spec_ensure_init(v).next, v.cursor, spec_free_count(v))
    &&& spec_free_ids(v).no_duplicates()
}

/// The identifiers of a list are as many as its links, and each names a
/// chunk.
pub proof fn lemma_chain_ids(next: Seq<u8>, cur: u8, n: nat)
    requires
        spec_chain(next, cur, n),
    ensures
        spec_chain_ids(next, cur, n).len() == n,
        forall|i: int| 0 <= i < n ==> #[trigger] spec_chain_ids(next, cur, n)[i] < 32,
        n > 0 ==> spec_chain_ids(next, cur, n)[0] == cur,
    decreases n,
{
    if n > 0 {
        lemma_chain_ids(next, next[cur as int], (n - 1) as nat);
        let rest = spec_chain_ids(next, next[cur as int], (n - 1) as nat);
        let all = spec_chain_ids(next, cur, n);
        assert(all == seq![cur] + rest);
        assert forall|i: int| 0 <= i < n implies #[trigger] all[i] < 32 by {
            if i > 0 {
                assert(all[i] == rest[i - 1]);
            }
        }
    }
}

/// A list without a chunk twice has at most 32 chunks.
pub proof fn lemma_list_bounded(next: Seq<u8>, cur: u8, n: nat)
    requires
        spec_chain(next, cur, n),
        spec_chain_ids(next, cur, n).no_duplicates(),
    ensures
        n <= 32,
{
    let ids = spec_chain_ids(next, cur, n);
    lemma_chain_ids(next, cur, n);
    let all = Seq::new(32, |i: int| i as u8);
    ids.unique_seq_to_set();
    all.lemma_cardinality_of_set();
    vstd::seq_lib::seq_to_set_is_finite(all);
    assert(ids.to_set().subset_of(all.to_set())) by {
        assert forall|x: u8| ids.to_set().contains(x) implies all.to_set().contains(x) by {
            let i = choose|i: int| 0 <= i < ids.len() && ids[i] == x;
            assert(ids[i] < 32);
            assert(all[x as int] == x);
        }
    }
    vstd::set_lib::lemma_len_subset(ids.to_set(), all.to_set());
}

/// The walk along a list passes exactly the chunks of the list.
pub proof fn lemma_walk_has(next: Seq<u8>, cur: u8, n: nat, fuel: nat, id: u8)
    requires
        spec_chain(next, cur, n),
        n <= fuel,
    ensures
        spec_walk_has(next, cur, fuel, id) == spec_chain_ids(next, cur, n).contains(id),
    decreases n,
{
    let all = spec_chain_ids(next, cur, n);
    if n > 0 {
        let rest = spec_chain_ids(next, next[cur as int], (n - 1) as nat);
        lemma_walk_has(next, next[cur as int], (n - 1) as nat, (fuel - 1) as nat, id);
        assert(all == seq![cur] + rest);
        if cur == id {
            assert(all[0] == id);
        } else if rest.contains(id) {
            let i = choose|i: int| 0 <= i < rest.len() && rest[i] == id;
            assert(all[i + 1] == id);
        } else if all.contains(id) {
            let i = choose|i: int| 0 <= i < all.len() && all[i] == id;
            assert(i > 0);
            assert(rest[i - 1] == id);
        }
    }
}

/// The list 0, 1, .., 31 of a header that was just initialised, from chunk
/// `k` on: its chunks are `k`, `k + 1`, .., 31.
pub proof fn lemma_fresh_ids(k: nat)
    requires
        k <= 32,
    ensures
        ({
            let ids = spec_chain_ids(Seq::new(32, |i: int| (i + 1) as u8), k as u8, (32 - k) as nat);
            &&& ids.len() == 32 - k
            &&& forall|i: int| 0 <= i < 32 - k ==> #[trigger] ids[i] == k + i
        }),
    decreases 32 - k,
{
    if k < 32 {
        let next = Seq::new(32, |i: int| (i + 1) as u8);
        lemma_fresh_ids(k + 1);
        let rest = spec_chain_ids(next, (k + 1) as u8, (31 - k) as nat);
        let ids = spec_chain_ids(next, k as u8, (32 - k) as nat);
        assert(ids == seq![k as u8] + rest);
        assert forall|i: int| 0 <= i < 32 - k implies #[trigger] ids[i] == k + i by {
            if i > 0 {
                assert(ids[i] == rest[i - 1]);
            }
        }
    }
}

/// A header that is all zero holds a list: the 32 chunks in order.
pub proof fn lemma_fresh_list_ok(v: ChunkInfoView)
    requires
        v.next.len() == 32,
        spec_fresh(v),
    ensures
        spec_list_ok(v),
        spec_free_count(v) == 32,
        forall|id: int| 0 <= id < 32 ==> spec_is_free(v, id),
{
    let next = Seq::new(32, |i: int| (i + 1) as u8);
    lemma_fresh_chain(0);
    lemma_chain_walk(next, 0, 32, 32);
    lemma_fresh_ids(0);
    let ids = spec_chain_ids(next, 0, 32);
    assert forall|id: int| 0 <= id < 32 implies spec_is_free(v, id) by {
        lemma_walk_has(next, 0, 32, 32, id as u8);
        assert(ids[id] == id as u8);
    }
}

/// Initialising keeps the list: a header that holds a list holds the same
/// list afterwards, and is no longer all zero.
pub proof fn lemma_init_keeps_list(v: ChunkInfoView)
    requires
        spec_list_ok(v),
    ensures
        spec_list_ok(spec_ensure_init(v)),
        spec_ensure_init(spec_ensure_init(v)) == spec_ensure_init(v),
        spec_free_count(spec_ensure_init(v)) == spec_free_count(v),
        spec_free_ids(spec_ensure_init(v)) == spec_free_ids(v),
        !spec_fresh(spec_ensure_init(v)) || spec_ensure_init(v) == v,
{
    let w = spec_ensure_init(v);
    if spec_fresh(v) {
        assert(w.next[0] == 1u8);
    }
}

/// A header that holds a list and is not all zero does not have chunk 0 at
/// the head with a link to itself.
proof fn lemma_no_self_link(next: Seq<u8>, cur: u8, n: nat)
    requires
        next.len() == 32,
        spec_chain(next, cur, n),
        spec_chain_ids(next, cur, n).no_duplicates(),
        cur < 32,
    ensures
        next[cur as int] != cur,
{
    if next[cur as int] == cur {
        assert(n >= 1);
        let rest = spec_chain_ids(next, next[cur as int], (n - 1) as nat);
        let all = spec_chain_ids(next, cur, n);
        assert(all == seq![cur] + rest);
        assert(spec_chain(next, cur, (n - 1) as nat));
        assert(n - 1 >= 1);
        lemma_chain_ids(next, cur, (n - 1) as nat);
        assert(rest[0] == cur);
        assert(all[0] == cur && all[1] == cur);
    }
}

/// Acquiring keeps the list, and takes its head: where the header was
/// initialised and a chunk is free, the list afterwards is the list before
/// without its first chunk, which is the one that was acquired.
pub proof fn lemma_acquire_keeps_list(v: ChunkInfoView)
    requires
        spec_list_ok(v),
    ensures
        spec_list_ok(spec_acquire(v)),
        !spec_fresh(v) && v.cursor < 32 ==> {
            &&& spec_free_count(v) > 0
            &&& spec_free_count(spec_acquire(v)) == spec_free_count(v) - 1
            &&& spec_free_ids(v) == seq![v.cursor] + spec_free_ids(spec_acquire(v))
            &&& !spec_is_free(spec_acquire(v), v.cursor as int)
            &&& !spec_fresh(spec_acquire(v))
        },
{
    let a = spec_acquire(v);
    if spec_fresh(v) {
        assert(a =~= v);
    } else if v.cursor < 32 {
        let n = spec_free_count(v);
        lemma_walk_len_bounded(v.next, v.cursor, 32);
        let ids = spec_free_ids(v);
        let rest = spec_chain_ids(v.next, a.cursor, (n - 1) as nat);
        assert(ids == seq![v.cursor] + rest);
        assert(rest.no_duplicates()) by {
            assert forall|i: int, j: int| 0 <= i < rest.len() && 0 <= j < rest.len() && i != j implies rest[i]
                != rest[j] by {
                assert(ids[i + 1] == rest[i] && ids[j + 1] == rest[j]);
            }
        }
        lemma_chain_walk(v.next, a.cursor, (n - 1) as nat, 32);
        if a.cursor < 32 {
            lemma_no_self_link(v.next, a.cursor, (n - 1) as nat);
        }
        if a.cursor == 0 && v.next[0] == 0 {
            assert(false);
        }
        assert(!spec_fresh(a));
        lemma_walk_has(v.next, a.cursor, (n - 1) as nat, 32, v.cursor);
        if rest.contains(v.cursor) {
            let i = choose|i: int| 0 <= i < rest.len() && rest[i] == v.cursor;
            assert(ids[0] == v.cursor && ids[i + 1] == v.cursor);
        }
    }
}

/// Releasing keeps the list, and puts a chunk that was not free at its head.
pub proof fn lemma_release_keeps_list(v: ChunkInfoView, id: int)
    requires
        spec_list_ok(v),
    ensures
        spec_list_ok(spec_release(v, id)),
        0 <= id < 32 && !spec_is_free(v, id) ==> {
            &&& spec_free_count(spec_release(v, id)) == spec_free_count(v) + 1
            &&& spec_free_ids(spec_release(v, id)) == seq![id as u8] + spec_free_ids(v)
            &&& spec_is_free(spec_release(v, id), id)
            &&& !spec_fresh(spec_release(v, id))
        },
{
    if 0 <= id < 32 && !spec_is_free(v, id) {
        if spec_fresh(v) {
            lemma_fresh_list_ok(v);
        }
        let n = spec_free_count(v);
        lemma_walk_len_bounded(v.next, v.cursor, 32);
        let ids = spec_free_ids(v);
        let r = spec_release(v, id);
        lemma_walk_has(v.next, v.cursor, n, 32, id as u8);
        lemma_chain_update(v.next, v.cursor, n, id, v.cursor);
        let all = spec_chain_ids(r.next, r.cursor, n + 1);
        assert(all == seq![id as u8] + ids);
        assert(spec_chain(r.next, r.cursor, n + 1));
        assert(all.no_duplicates()) by {
            assert forall|i: int, j: int| 0 <= i < all.len() && 0 <= j < all.len() && i != j implies all[i]
                != all[j] by {
                if i > 0 {
                    assert(all[i] == ids[i - 1]);
                }
                if j > 0 {
                    assert(all[j] == ids[j - 1]);
                }
            }
        }
        lemma_list_bounded(r.next, r.cursor, n + 1);
        if id == 0 && v.cursor == 0 {
            lemma_chain_ids(v.next, v.cursor, n);
            assert(ids[0] == 0u8);
            assert(false);
        }
        assert(!spec_fresh(r));
        lemma_chain_walk(r.next, r.cursor, n + 1, 32);
        lemma_walk_has(r.next, r.cursor, n + 1, 32, id as u8);
        assert(all[0] == id as u8);
    }
}

/// The header of a chunk pool.
pub struct ChunkInfo {
    lock: SpinLock,
    cursor: u8,
    next: Vec<u8>,
}

impl View for ChunkInfo {
    type V = ChunkInfoView;

    closed spec fn view(&self) -> ChunkInfoView {
        ChunkInfoView { locked: self.lock.is_locked(), cursor: self.cursor, next: self.next@ }
    }
}

impl ChunkInfo {
    /// The header has its 32 links.
    pub open spec fn inv(&self) -> bool {
        self@.next.len() == 32
    }

    /// See [`spec_list_ok`].
    pub open spec fn list_ok(&self) -> bool {
        spec_list_ok(self@)
    }

    /// Bytes of a region that holds the header and 32 chunks of `chunk_size`.
    pub fn shm_size(chunk_size: usize) -> (size: usize)
        requires
            INFO_SIZE + MAX_COUNT * chunk_size <= usize::MAX,
        ensures
            size == INFO_SIZE + MAX_COUNT * chunk_size,
    {
        INFO_SIZE + MAX_COUNT * chunk_size
    }

    /// The header of a fresh region: unlocked and all zero.
    pub fn new() -> (info: ChunkInfo)
        ensures
            info.inv(),
            !info@.locked,
            info@.cursor == 0,
            info@.next == Seq::new(32, |i: int| 0u8),
    {
        let mut next: Vec<u8> = Vec::new();
        let mut i: usize = 0;
        while i < MAX_COUNT
            invariant
                i <= MAX_COUNT,
                next@.len() == i,
                forall|j: int| 0 <= j < i ==> next@[j] == 0u8,
            decreases MAX_COUNT - i,
        {
            next.push(0);
            i = i + 1;
        }
        assert(next@ =~= Seq::new(32, |i: int| 0u8));
        ChunkInfo { lock: SpinLock::new(), cursor: 0, next }
    }

    /// The header with the given cursor and links, as they were read from a
    /// region whose lock the caller holds.
    pub fn from_parts(cursor: u8, links: &[u8; 32]) -> (info: ChunkInfo)
        ensures
            info.inv(),
            info@ == (ChunkInfoView { locked: true, cursor, next: links@ }),
    {
        let mut next: Vec<u8> = Vec::new();
        let mut i: usize = 0;
        while i < MAX_COUNT
            invariant
                i <= MAX_COUNT,
                next@.len() == i,
                forall|j: int| 0 <= j < i ==> next@[j] == links@[j],
            decreases MAX_COUNT - i,
        {
            next.push(links[i]);
            i = i + 1;
        }
        assert(next@ =~= links@);
        let mut lock = SpinLock::new();
        lock.lock();
        ChunkInfo { lock, cursor, next }
    }

    /// The link of chunk `id`: the free chunk after it.
    pub fn link(&self, id: usize) -> (next: u8)
        requires
            self.inv(),
            id < 32,
        ensures
            next == self@.next[id as int],
    {
        self.next[id]
    }

    /// Head of the free list.
    pub fn cursor(&self) -> (c: u8)
        ensures
            c == self@.cursor,
    {
        self.cursor
    }

    /// The number of free chunks.
    pub fn free_count(&self) -> (n: usize)
        requires
            self.inv(),
        ensures
            n == spec_free_count(self@),
            n <= 32,
    {
        if self.cursor == 0 && self.next[0] == 0 {
            proof {
                lemma_fresh_chain(0);
                lemma_chain_walk(spec_ensure_init(self@).next, 0, 32, 32);
            }
            return MAX_COUNT;
        }
        let mut cur: u8 = self.cursor;
        let mut n: usize = 0;
        while n < MAX_COUNT && cur < 32
            invariant
                n <= MAX_COUNT,
                self.next@.len() == 32,
                spec_walk_len(self.next@, self.cursor, 32) == n + spec_walk_len(
                    self.next@,
                    cur,
                    (32 - n) as nat,
                ),
            decreases MAX_COUNT - n,
        {
            cur = self.next[cur as usize];
            n = n + 1;
        }
        n
    }

    /// Takes the lock that protects the free list.
    pub fn lock(&mut self)
        requires
            old(self).inv(),
            !old(self)@.locked,
        ensures
            final(self)@ == (ChunkInfoView { locked: true, ..old(self)@ }),
    {
        self.lock.lock();
    }

    /// Releases the lock that protects the free list.
    pub fn unlock(&mut self)
        requires
            old(self).inv(),
        ensures
            final(self)@ == (ChunkInfoView { locked: false, ..old(self)@ }),
    {
        self.lock.unlock();
    }

    /// Builds the free list 0, 1, .., 31 if the header is still all zero.
    pub fn ensure_init(&mut self)
        requires
            old(self).inv(),
        ensures
            final(self)@ == spec_ensure_init(old(self)@),
            final(self).inv(),
            old(self).list_ok() ==> final(self).list_ok(),
    {
        proof {
            if spec_list_ok(old(self)@) {
                lemma_init_keeps_list(old(self)@);
            }
        }
        if self.cursor == 0 && self.next[0] == 0 {
            let mut i: usize = 0;
            while i < MAX_COUNT
                invariant
                    i <= MAX_COUNT,
                    self.next@.len() == 32,
                    self.cursor == old(self).cursor,
                    self.lock == old(self).lock,
                    forall|j: int| 0 <= j < i ==> self.next@[j] == (j + 1) as u8,
                decreases MAX_COUNT - i,
            {
                self.next[i] = (i + 1) as u8;
                i = i + 1;
            }
            assert(self.next@ =~= Seq::new(32, |i: int| (i + 1) as u8));
        }
    }

    /// Takes the chunk at the head of the free list. Returns its identifier,
    /// or -1 when the pool is exhausted.
    pub fn acquire(&mut self) -> (id: StorageId)
        requires
            old(self).inv(),
        ensures
            id == spec_acquire_id(old(self)@),
            final(self)@ == spec_acquire(old(self)@),
            final(self).inv(),
            old(self).list_ok() ==> final(self).list_ok(),
    {
        proof {
            if spec_list_ok(old(self)@) {
                lemma_acquire_keeps_list(old(self)@);
            }
        }
        if self.cursor as usize >= MAX_COUNT {
            return -1;
        }
        let id: StorageId = self.cursor as StorageId;
        self.cursor = self.next[id as usize];
        id
    }

    /// Whether chunk `id` is free.
    pub fn is_free(&self, id: StorageId) -> (free: bool)
        requires
            self.inv(),
        ensures
            free == spec_is_free(self@, id as int),
    {
        if id < 0 || id as usize >= MAX_COUNT {
            return false;
        }
        if self.cursor == 0 && self.next[0] == 0 {
            proof {
                lemma_fresh_list_ok(self@);
            }
            return true;
        }
        let mut cur: u8 = self.cursor;
        let mut n: usize = 0;
        while n < MAX_COUNT && cur < 32
            invariant
                n <= MAX_COUNT,
                0 <= id < 32,
                self.next@.len() == 32,
                !spec_fresh(self@),
                spec_walk_has(self.next@, self.cursor, 32, id as u8) == spec_walk_has(
                    self.next@,
                    cur,
                    (32 - n) as nat,
                    id as u8,
                ),
            decreases MAX_COUNT - n,
        {
            if cur as StorageId == id {
                assert(cur == id as u8);
                return true;
            }
            cur = self.next[cur as usize];
            n = n + 1;
        }
        false
    }

    /// Puts chunk `id` back at the head of the free list. An identifier that
    /// names no chunk, or a chunk that is free already, changes nothing.
    pub fn release(&mut self, id: StorageId)
        requires
            old(self).inv(),
        ensures
            final(self)@ == spec_release(old(self)@, id as int),
            final(self).inv(),
            old(self).list_ok() ==> final(self).list_ok(),
    {
        proof {
            if spec_list_ok(old(self)@) {
                lemma_release_keeps_list(old(self)@, id as int);
            }
        }
        if id < 0 || id as usize >= MAX_COUNT {
            return ;
        }
        if self.is_free(id) {
            return ;
        }
        self.next[id as usize] = self.cursor;
        self.cursor = id as u8;
    }
}

/// What a chunk pool holds.
pub struct ChunkPoolView {
    /// The header with the free list.
    pub info: ChunkInfoView,
    /// Bytes per chunk, the subscriber mask included.
    pub chunk_size: nat,
    /// Per chunk, the subscribers that still have to read it.
    pub conns: Seq<u32>,
    /// Per chunk, its payload bytes.
    pub bodies: Seq<Seq<u8>>,
}

/// The pool has 32 chunks of its size, its free list is a list, and its lock
/// is free.
pub open spec fn spec_pool_inv(v: ChunkPoolView) -> bool {
    &&& v.info.next.len() == 32
    &&& spec_list_ok(v.info)
    &&& !v.info.locked
    &&& v.chunk_size >= 4
    &&& v.conns.len() == 32
    &&& v.bodies.len() == 32
    &&& forall|i: int| 0 <= i < 32 ==> (#[trigger] v.bodies[i]).len() == v.chunk_size - 4
}

/// The pool of a fresh region for chunks of `chunk_size` bytes: every word
/// and every byte zero.
pub open spec fn spec_fresh_pool(chunk_size: nat) -> ChunkPoolView {
    ChunkPoolView {
        info: ChunkInfoView { locked: false, cursor: 0, next: Seq::new(32, |i: int| 0u8) },
        chunk_size,
        conns: Seq::new(32, |i: int| 0u32),
        bodies: Seq::new(32, |i: int| Seq::new((chunk_size - 4) as nat, |j: int| 0u8)),
    }
}

/// The identifier that acquiring a chunk yields, or -1 when the pool is
/// exhausted.
pub open spec fn spec_acquire_storage_id(v: ChunkPoolView) -> int {
    spec_acquire_id(spec_ensure_init(v.info))
}

/// The pool after a chunk was acquired for the subscribers `conns`.
pub open spec fn spec_acquire_storage(v: ChunkPoolView, conns: u32) -> ChunkPoolView {
    let id = spec_acquire_storage_id(v);
    let info = spec_acquire(spec_ensure_init(v.info));
    if id < 0 {
        ChunkPoolView { info, ..v }
    } else {
        ChunkPoolView { info, conns: v.conns.update(id, conns), ..v }
    }
}

/// The pool after `data` was copied to the start of chunk `id`.
pub open spec fn spec_store(v: ChunkPoolView, id: int, data: Seq<u8>) -> ChunkPoolView {
    ChunkPoolView {
        bodies: v.bodies.update(id, data + v.bodies[id].subrange(data.len() as int, v.bodies[id].len() as int)),
        ..v
    }
}

/// The pool after the subscribers `conn_id` gave up chunk `id`: their bits
/// leave its mask, and a chunk whose mask is then empty goes back to the free
/// list.
pub open spec fn spec_recycle_storage(v: ChunkPoolView, id: int, conn_id: u32) -> ChunkPoolView {
    if id < 0 || id >= 32 {
        v
    } else {
        let nxt = v.conns[id] & !conn_id;
        ChunkPoolView {
            info: if nxt == 0 {
                spec_release(v.info, id)
            } else {
                v.info
            },
            conns: v.conns.update(id, nxt),
            ..v
        }
    }
}

/// Acquiring, storing and recycling keep a pool well formed; so its free
/// list stays a list.
pub proof fn lemma_pool_ops_keep_inv(v: ChunkPoolView, conns: u32, id: int, data: Seq<u8>, conn_id: u32)
    requires
        spec_pool_inv(v),
    ensures
        spec_pool_inv(spec_acquire_storage(v, conns)),
        0 <= id < 32 && data.len() + 4 <= v.chunk_size ==> spec_pool_inv(spec_store(v, id, data)),
        spec_pool_inv(spec_recycle_storage(v, id, conn_id)),
{
    lemma_init_keeps_list(v.info);
    lemma_acquire_keeps_list(spec_ensure_init(v.info));
    lemma_release_keeps_list(v.info, id);
    let a = spec_acquire_storage(v, conns);
    assert forall|i: int| 0 <= i < 32 implies (#[trigger] a.bodies[i]).len() == a.chunk_size - 4 by {
        assert(v.bodies[i].len() == v.chunk_size - 4);
    }
    if 0 <= id < 32 && data.len() + 4 <= v.chunk_size {
        let t = spec_store(v, id, data);
        assert forall|i: int| 0 <= i < 32 implies (#[trigger] t.bodies[i]).len() == t.chunk_size - 4 by {
            assert(v.bodies[i].len() == v.chunk_size - 4);
        }
    }
    let r = spec_recycle_storage(v, id, conn_id);
    assert forall|i: int| 0 <= i < 32 implies (#[trigger] r.bodies[i]).len() == r.chunk_size - 4 by {
        assert(v.bodies[i].len() == v.chunk_size - 4);
    }
}

/// A chunk that is acquired leaves the free list, and the last reader that
/// recycles it puts it back: the count of free chunks goes down by one and
/// up by one.
pub proof fn lemma_pool_counts(v: ChunkPoolView, conns: u32, conn_id: u32)
    requires
        spec_pool_inv(v),
        spec_acquire_storage_id(v) >= 0,
    ensures
        ({
            let id = spec_acquire_storage_id(v);
            let a = spec_acquire_storage(v, conns);
            let r = spec_recycle_storage(a, id, conn_id);
            &&& spec_free_count(v.info) > 0
            &&& spec_free_count(a.info) == spec_free_count(v.info) - 1
            &&& !spec_is_free(a.info, id)
            &&& (conns & !conn_id == 0) ==> spec_free_count(r.info) == spec_free_count(v.info)
            &&& (conns & !conn_id != 0) ==> spec_free_count(r.info) == spec_free_count(a.info)
        }),
{
    lemma_init_keeps_list(v.info);
    let w = spec_ensure_init(v.info);
    lemma_acquire_keeps_list(w);
    if spec_fresh(w) {
        assert(w == v.info);
        assert(spec_acquire(w) =~= w);
        lemma_fresh_list_ok(w);
        assert(false) by {
            // a header that is still all zero was initialised: it is no longer fresh
            assert(spec_ensure_init(v.info).next[0] == 1u8);
        }
    }
    let a = spec_acquire_storage(v, conns);
    lemma_release_keeps_list(a.info, spec_acquire_storage_id(v));
}

/// The pool of chunks of one size.
pub struct ChunkPool {
    info: ChunkInfo,
    chunk_size: usize,
    conns: Vec<u32>,
    bodies: Vec<Vec<u8>>,
}

impl View for ChunkPool {
    type V = ChunkPoolView;

    closed spec fn view(&self) -> ChunkPoolView {
        ChunkPoolView {
            info: self.info@,
            chunk_size: self.chunk_size as nat,
            conns: self.conns@,
            bodies: Seq::new(self.bodies@.len(), |i: int| self.bodies@[i]@),
        }
    }
}

impl ChunkPool {
    /// See [`spec_pool_inv`].
    pub open spec fn inv(&self) -> bool {
        spec_pool_inv(self@)
    }

    /// The pool of a fresh region: every byte zero, the free list not yet
    /// built.
    pub fn new(chunk_size: usize) -> (pool: ChunkPool)
        requires
            chunk_size >= CHUNK_HEADER,
        ensures
            pool.inv(),
            pool@ == spec_fresh_pool(chunk_size as nat),
    {
        let cap: usize = chunk_size - CHUNK_HEADER;
        let mut conns: Vec<u32> = Vec::new();
        let mut bodies: Vec<Vec<u8>> = Vec::new();
        let mut i: usize = 0;
        while i < MAX_COUNT
            invariant
                i <= MAX_COUNT,
                conns@.len() == i,
                bodies@.len() == i,
                forall|j: int| 0 <= j < i ==> conns@[j] == 0u32,
                forall|j: int|
                    0 <= j < i ==> (#[trigger] bodies@[j])@ == Seq::new(cap as nat, |k: int| 0u8),
            decreases MAX_COUNT - i,
        {
            let mut body: Vec<u8> = Vec::new();
            body.resize(cap, 0u8);
            assert(body@ =~= Seq::new(cap as nat, |k: int| 0u8));
            conns.push(0);
            bodies.push(body);
            i = i + 1;
        }
        let pool = ChunkPool { info: ChunkInfo::new(), chunk_size, conns, bodies };
        proof {
            lemma_fresh_list_ok(pool.info@);
        }
        assert(pool@.conns =~= spec_fresh_pool(chunk_size as nat).conns);
        assert(pool@.bodies =~= spec_fresh_pool(chunk_size as nat).bodies);
        pool
    }

    /// Bytes per chunk, the subscriber mask included.
    pub fn chunk_size(&self) -> (size: usize)
        ensures
            size == self@.chunk_size,
    {
        self.chunk_size
    }

    /// The mask of subscribers that still have to read chunk `id`.
    pub fn conns(&self, id: StorageId) -> (mask: u32)
        requires
            self.inv(),
            0 <= id < 32,
        ensures
            mask == self@.conns[id as int],
    {
        self.conns[id as usize]
    }

    /// The number of free chunks.
    pub fn free_count(&self) -> (n: usize)
        requires
            self.inv(),
        ensures
            n == spec_free_count(self@.info),
            n <= 32,
    {
        self.info.free_count()
    }

    /// Copies `data` to the start of chunk `id`.
    pub fn store(&mut self, id: StorageId, data: &[u8])
        requires
            old(self).inv(),
            0 <= id < 32,
            data@.len() + CHUNK_HEADER <= old(self)@.chunk_size,
        ensures
            final(self)@ == spec_store(old(self)@, id as int, data@),
            final(self).inv(),
    {
        let idx: usize = id as usize;
        let n: usize = data.len();
        let mut i: usize = 0;
        assert(self@.bodies.len() == 32);
        assert(self@.bodies[idx as int] == self.bodies@[idx as int]@);
        while i < n
            invariant
                i <= n,
                n == data@.len(),
                idx == id,
                0 <= idx < 32,
                self.info == old(self).info,
                self.chunk_size == old(self).chunk_size,
                self.conns == old(self).conns,
                self.bodies@.len() == 32,
                n + CHUNK_HEADER <= self.chunk_size,
                self.bodies@[idx as int]@.len() == self.chunk_size - 4,
                forall|j: int| 0 <= j < 32 && j != idx ==> self.bodies@[j] == old(self).bodies@[j],
                forall|j: int| 0 <= j < i ==> self.bodies@[idx as int]@[j] == data@[j],
                forall|j: int|
                    i <= j < self.chunk_size - 4 ==> self.bodies@[idx as int]@[j] == old(self).bodies@[idx as int]@[j],
            decreases n - i,
        {
            self.bodies[idx][i] = data[i];
            i = i + 1;
        }
        proof {
            let want = spec_store(old(self)@, id as int, data@);
            assert forall|j: int| 0 <= j < 32 implies #[trigger] self@.bodies[j] == want.bodies[j] by {
                if j == idx {
                    assert(self@.bodies[j] =~= want.bodies[j]);
                }
            }
            assert(self@.bodies =~= want.bodies);
        }
    }

    /// The payload bytes of chunk `id`, or nothing where `id` names no chunk.
    pub fn find(&self, id: StorageId) -> (body: Option<&Vec<u8>>)
        requires
            self.inv(),
        ensures
            body.is_some() == (0 <= id < 32),
            body.is_some() ==> body.unwrap()@ == self@.bodies[id as int],
    {
        if id < 0 || id as usize >= MAX_COUNT {
            return None;
        }
        Some(&self.bodies[id as usize])
    }
}

/// Acquires a free chunk and records in its mask the subscribers `conns` that
/// will read it. Returns the chunk's identifier, or nothing when the pool is
/// exhausted.
pub fn acquire_storage(pool: &mut ChunkPool, conns: u32) -> (id: Option<StorageId>)
    requires
        old(pool).inv(),
    ensures
        final(pool).inv(),
        final(pool)@ == spec_acquire_storage(old(pool)@, conns),
        match id {
            Some(i) => i == spec_acquire_storage_id(old(pool)@) && 0 <= i < 32,
            None => spec_acquire_storage_id(old(pool)@) == -1,
        },
{
    pool.info.lock();
    pool.info.ensure_init();
    let id = pool.info.acquire();
    pool.info.unlock();
    if id < 0 {
        assert(pool@ =~= spec_acquire_storage(old(pool)@, conns));
        return None;
    }
    pool.conns[id as usize] = conns;
    assert(pool@.bodies =~= old(pool)@.bodies);
    assert(pool@ =~= spec_acquire_storage(old(pool)@, conns));
    Some(id)
}

/// The payload bytes of chunk `id`, or nothing where `id` names no chunk.
pub fn find_storage(pool: &ChunkPool, id: StorageId) -> (body: Option<&Vec<u8>>)
    requires
        pool.inv(),
    ensures
        body.is_some() == (0 <= id < 32),
        body.is_some() ==> body.unwrap()@ == pool@.bodies[id as int],
{
    pool.find(id)
}

/// Clears the bits `conn_id` from the mask of chunk `id`; when no subscriber
/// is left in the mask, the chunk returns to the free list. An identifier
/// that names no chunk changes nothing.
pub fn recycle_storage(pool: &mut ChunkPool, id: StorageId, conn_id: u32)
    requires
        old(pool).inv(),
    ensures
        final(pool).inv(),
        final(pool)@ == spec_recycle_storage(old(pool)@, id as int, conn_id),
{
    if id < 0 || id as usize >= MAX_COUNT {
        return ;
    }
    let cur: u32 = pool.conns[id as usize];
    let nxt: u32 = cur & !conn_id;
    pool.conns[id as usize] = nxt;
    if nxt == 0 {
        pool.info.lock();
        pool.info.release(id);
        pool.info.unlock();
    }
    assert(pool@.bodies =~= old(pool)@.bodies);
    assert(pool@ =~= spec_recycle_storage(old(pool)@, id as int, conn_id));
}

} // verus!
