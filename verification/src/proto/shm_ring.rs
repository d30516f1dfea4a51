//! The single-producer, single-consumer ring of fixed-size records.
//!
//! The producer owns the write index and the consumer the read index; the
//! records between them are the ones that are available, oldest first.

use vstd::prelude::*;
use vstd::string::StringExecFns;
use crate::shm::ShmError;

verus! {

/// Bytes of the ring's header as laid out in a region: three cache lines.
pub const RING_HEADER_SIZE: usize = 192;

/// What a record ring holds.
pub struct RecordRingView<T> {
    /// The name of the ring's region.
    pub name: Seq<char>,
    /// Whether the handle has the region open.
    pub open: bool,
    /// Whether the region exists under its name.
    pub linked: bool,
    /// Whether the region was initialised.
    pub constructed: bool,
    /// Number of records written so far.
    pub write_idx: u64,
    /// Number of records read or dropped so far.
    pub read_idx: u64,
    /// The slots; a slot that was never written holds nothing.
    pub slots: Seq<Option<T>>,
}

/// The ring's indices and slots fit together: the slots are `n`, between 0
/// and `n` records are available, and each of them is in its slot.
pub open spec fn spec_record_ring_inv<T>(v: RecordRingView<T>, n: int) -> bool {
    &&& n > 0
    &&& v.slots.len() == n
    &&& v.read_idx <= v.write_idx <= v.read_idx + n
    &&& forall|k: int|
        v.read_idx <= k < v.write_idx ==> (#[trigger] v.slots[k % n]).is_some()
}

/// The records that are available, oldest first.
pub open spec fn spec_items<T>(v: RecordRingView<T>, n: int) -> Seq<T> {
    Seq::new(
        (v.write_idx - v.read_idx) as nat,
        |k: int| v.slots[(v.read_idx + k) % n].unwrap(),
    )
}

/// Whether `n` is a power of two.
pub open spec fn spec_is_pow2(n: usize) -> bool {
    n > 0 && n & ((n - 1) as usize) == 0
}

/// Two indices less than `n` apart fall into different slots.
pub proof fn lemma_slots_differ(a: int, b: int, n: int)
    requires
        0 <= a < b < a + n,
    ensures
        a % n != b % n,
        0 <= a % n < n,
        0 <= b % n < n,
{
    vstd::arithmetic::div_mod::lemma_fundamental_div_mod(a, n);
    vstd::arithmetic::div_mod::lemma_fundamental_div_mod(b, n);
    vstd::arithmetic::div_mod::lemma_mod_pos_bound(a, n);
    vstd::arithmetic::div_mod::lemma_mod_pos_bound(b, n);
    if a % n == b % n {
        let qa = a / n;
        let qb = b / n;
        assert(b - a == n * (qb - qa)) by (nonlinear_arith)
            requires
                a == n * qa + a % n,
                b == n * qb + b % n,
                a % n == b % n,
        ;
        assert(false) by (nonlinear_arith)
            requires
                b - a == n * (qb - qa),
                0 < b - a < n,
        ;
    }
}

/// Whether a ring of `n` slots with these indices has room for a record.
pub fn has_room(write_idx: u64, read_idx: u64, n: usize) -> (room: bool)
    ensures
        room == (write_idx.wrapping_sub(read_idx) < n),
{
    write_idx.wrapping_sub(read_idx) < n as u64
}

/// Whether a ring with these indices has a record to read.
pub fn has_record(write_idx: u64, read_idx: u64) -> (some: bool)
    ensures
        some == (read_idx < write_idx),
{
    read_idx < write_idx
}

/// The slot of the record with the index `idx` in a ring of `n` slots.
pub fn slot_of(idx: u64, n: usize) -> (slot: usize)
    requires
        n > 0,
    ensures
        slot == idx as int % (n as int),
        slot < n,
{
    (idx % (n as u64)) as usize
}

/// A ring of `N` records of type `T` for one producer and one consumer.
pub struct ShmRing<T: Copy, const N: usize> {
    name: String,
    open: bool,
    linked: bool,
    constructed: bool,
    write_idx: u64,
    read_idx: u64,
    slots: Vec<Option<T>>,
}

impl<T: Copy, const N: usize> View for ShmRing<T, N> {
    type V = RecordRingView<T>;

    closed spec fn view(&self) -> RecordRingView<T> {
        RecordRingView {
            name: self.name@,
            open: self.open,
            linked: self.linked,
            constructed: self.constructed,
            write_idx: self.write_idx,
            read_idx: self.read_idx,
            slots: self.slots@,
        }
    }
}

impl<T: Copy, const N: usize> ShmRing<T, N> {
    /// See [`spec_record_ring_inv`].
    pub open spec fn inv(&self) -> bool {
        spec_record_ring_inv(self@, N as int)
    }

    /// The records that are available, oldest first.
    pub open spec fn items(&self) -> Seq<T> {
        spec_items(self@, N as int)
    }

    /// Bytes of the region that holds the ring, for records of `record_size`
    /// bytes.
    pub fn layout_size(record_size: usize) -> (size: usize)
        requires
            RING_HEADER_SIZE + record_size * N <= usize::MAX,
        ensures
            size == RING_HEADER_SIZE + record_size * N,
    {
        RING_HEADER_SIZE + record_size * N
    }

    /// A ring for the region `name`; the region is not opened yet. `N` is a
    /// power of two.
    pub fn new(name: &str) -> (ring: Self)
        requires
            spec_is_pow2(N),
        ensures
            ring.inv(),
            ring@.name == name@,
            !ring@.open,
            !ring@.linked,
            !ring@.constructed,
            ring@.write_idx == 0,
            ring@.read_idx == 0,
            ring@.slots == Seq::new(N as nat, |i: int| None::<T>),
            ring.items() == Seq::<T>::empty(),
    {
        let mut slots: Vec<Option<T>> = Vec::new();
        let mut i: usize = 0;
        while i < N
            invariant
                i <= N,
                slots@.len() == i,
                forall|j: int| 0 <= j < i ==> slots@[j] == None::<T>,
            decreases N - i,
        {
            slots.push(None);
            i = i + 1;
        }
        let ring = ShmRing {
            name: String::from_str(name),
            open: false,
            linked: false,
            constructed: false,
            write_idx: 0,
            read_idx: 0,
            slots,
        };
        assert(ring.items() =~= Seq::<T>::empty());
        assert(ring@.slots =~= Seq::new(N as nat, |i: int| None::<T>));
        ring
    }

    /// Opens the region, creating it if it is not there, and initialises the
    /// ring once: a region that was not initialised gets empty slots and both
    /// indices at zero. A ring without a name cannot be opened.
    pub fn open_or_create(&mut self) -> (opened: Result<(), ShmError>)
        requires
            old(self).inv(),
        ensures
            final(self).inv(),
            old(self)@.name.len() == 0 ==> opened == Err::<(), ShmError>(ShmError::EmptyName)
                && final(self)@ == old(self)@,
            old(self)@.name.len() > 0 ==> opened.is_ok() && final(self)@.open && final(self)@.linked && final(self)@.constructed && final(self)@.name == old(self)@.name,
            old(self)@.name.len() > 0 && old(self)@.constructed ==> final(self)@ == (RecordRingView {
                open: true,
                linked: true,
                ..old(self)@
            }),
            old(self)@.name.len() > 0 && !old(self)@.constructed ==> final(self)@ == (RecordRingView {
                open: true,
                linked: true,
                constructed: true,
                write_idx: 0,
                read_idx: 0,
                slots: Seq::new(N as nat, |i: int| None::<T>),
                ..old(self)@
            }),
    {
        if self.name.as_str().is_empty() {
            return Err(ShmError::EmptyName);
        }
        self.linked = true;
        if !self.constructed {
            self.write_idx = 0;
            self.read_idx = 0;
            let mut i: usize = 0;
            while i < N
                invariant
                    i <= N,
                    self.slots@.len() == N,
                    self.write_idx == 0,
                    self.read_idx == 0,
                    self.linked,
                    !self.constructed,
                    self.name == old(self).name,
                    self.open == old(self).open,
                    forall|j: int| 0 <= j < i ==> self.slots@[j] == None::<T>,
                decreases N - i,
            {
                self.slots[i] = None;
                i = i + 1;
            }
            self.constructed = true;
            assert(self@.slots =~= Seq::new(N as nat, |i: int| None::<T>));
        }
        self.open = true;
        Ok(())
    }

    /// Opens the region if it exists. Returns whether the ring in it was
    /// initialised; a region that does not exist, or a ring without a name,
    /// is an error.
    pub fn open_existing(&mut self) -> (opened: Result<bool, ShmError>)
        requires
            old(self).inv(),
        ensures
            final(self).inv(),
            opened == if old(self)@.name.len() == 0 {
                Err::<bool, ShmError>(ShmError::EmptyName)
            } else if !old(self)@.linked {
                Err::<bool, ShmError>(ShmError::NotFound)
            } else {
                Ok::<bool, ShmError>(old(self)@.constructed)
            },
            final(self)@ == if opened.is_ok() {
                RecordRingView { open: true, ..old(self)@ }
            } else {
                old(self)@
            },
    {
        if self.name.as_str().is_empty() {
            return Err(ShmError::EmptyName);
        }
        if !self.linked {
            return Err(ShmError::NotFound);
        }
        self.open = true;
        Ok(self.constructed)
    }

    /// Closes the handle; the region stays.
    pub fn close(&mut self)
        requires
            old(self).inv(),
        ensures
            final(self).inv(),
            final(self)@ == (RecordRingView { open: false, ..old(self)@ }),
    {
        self.open = false;
    }

    /// Closes the handle and removes the region: what the ring held is gone,
    /// and the next creation starts from an empty ring.
    pub fn destroy(&mut self)
        requires
            old(self).inv(),
        ensures
            final(self).inv(),
            final(self)@ == (RecordRingView {
                open: false,
                linked: false,
                constructed: false,
                write_idx: 0,
                read_idx: 0,
                ..old(self)@
            }),
            final(self).items() == Seq::<T>::empty(),
    {
        self.open = false;
        self.linked = false;
        self.constructed = false;
        self.write_idx = 0;
        self.read_idx = 0;
        assert(self.items() =~= Seq::<T>::empty());
    }

    /// Whether the handle has the region open.
    pub fn valid(&self) -> (open: bool)
        ensures
            open == self@.open,
    {
        self.open
    }

    /// The slot that the next record goes to, or nothing when the ring is
    /// full.
    pub fn write_slot(&self) -> (slot: Option<usize>)
        requires
            self.inv(),
            self@.open,
        ensures
            slot.is_some() == (self.items().len() < N),
            slot.is_some() ==> slot.unwrap() == self@.write_idx as int % (N as int),
    {
        if !has_room(self.write_idx, self.read_idx, N) {
            return None;
        }
        Some(slot_of(self.write_idx, N))
    }

    /// Puts `item` into the slot that the next record goes to, without
    /// making it available.
    pub fn put(&mut self, item: T)
        requires
            old(self).inv(),
            old(self)@.open,
            old(self).items().len() < N,
        ensures
            final(self).inv(),
            final(self).items() == old(self).items(),
            final(self)@ == (RecordRingView {
                slots: old(self)@.slots.update(
                    old(self)@.write_idx as int % (N as int),
                    Some(item),
                ),
                ..old(self)@
            }),
    {
        let at: usize = slot_of(self.write_idx, N);
        self.slots[at] = Some(item);
        proof {
            let n = N as int;
            let w = self.write_idx as int;
            assert forall|k: int| self@.read_idx <= k < self@.write_idx implies (
            #[trigger] self@.slots[k % n]) == old(self)@.slots[k % n] by {
                lemma_slots_differ(k, w, n);
            }
            assert forall|k: int| 0 <= k < self.items().len() implies self.items()[k] == old(self).items()[k] by {
                lemma_slots_differ(self@.read_idx + k, w, n);
            }
            assert(self.items() =~= old(self).items());
        }
    }

    /// Makes the record in the slot under the write index available.
    pub fn write_commit(&mut self)
        requires
            old(self).inv(),
            old(self)@.open,
            old(self).items().len() < N,
            old(self)@.write_idx < u64::MAX,
            old(self)@.slots[old(self)@.write_idx as int % (N as int)].is_some(),
        ensures
            final(self).inv(),
            final(self)@ == (RecordRingView {
                write_idx: (old(self)@.write_idx + 1) as u64,
                ..old(self)@
            }),
            final(self).items() == old(self).items().push(
                old(self)@.slots[old(self)@.write_idx as int % (N as int)].unwrap(),
            ),
    {
        self.write_idx = self.write_idx + 1;
        assert(self.items() =~= old(self).items().push(
            old(self)@.slots[old(self)@.write_idx as int % (N as int)].unwrap(),
        ));
    }

    /// Writes `item` as the newest record. Returns whether there was room; a
    /// full ring is left as it is.
    pub fn write(&mut self, item: &T) -> (written: bool)
        requires
            old(self).inv(),
            old(self)@.open,
            old(self)@.write_idx < u64::MAX,
        ensures
            final(self).inv(),
            written == (old(self).items().len() < N),
            final(self).items() == if written {
                old(self).items().push(*item)
            } else {
                old(self).items()
            },
            final(self)@ == if written {
                RecordRingView {
                    write_idx: (old(self)@.write_idx + 1) as u64,
                    slots: old(self)@.slots.update(
                        old(self)@.write_idx as int % (N as int),
                        Some(*item),
                    ),
                    ..old(self)@
                }
            } else {
                old(self)@
            },
    {
        match self.write_slot() {
            None => false,
            Some(_slot) => {
                self.put(*item);
                self.write_commit();
                true
            },
        }
    }

    /// Writes `item` as the newest record; a full ring drops its oldest
    /// record to make room.
    pub fn write_overwrite(&mut self, item: &T)
        requires
            old(self).inv(),
            old(self)@.open,
            old(self)@.write_idx < u64::MAX,
        ensures
            final(self).inv(),
            final(self).items() == if old(self).items().len() < N {
                old(self).items().push(*item)
            } else {
                old(self).items().drop_first().push(*item)
            },
            final(self)@ == (RecordRingView {
                write_idx: (old(self)@.write_idx + 1) as u64,
                read_idx: if old(self).items().len() < N {
                    old(self)@.read_idx
                } else {
                    (old(self)@.read_idx + 1) as u64
                },
                slots: old(self)@.slots.update(
                    old(self)@.write_idx as int % (N as int),
                    Some(*item),
                ),
                ..old(self)@
            }),
    {
        if !has_room(self.write_idx, self.read_idx, N) {
            self.read_idx = self.read_idx + 1;
            assert(self.items() =~= old(self).items().drop_first());
        }
        self.put(*item);
        self.write_commit();
    }

    /// The oldest record, or nothing when the ring is empty.
    pub fn read_slot(&self) -> (slot: Option<&T>)
        requires
            self.inv(),
            self@.open,
        ensures
            slot.is_some() == (self.items().len() > 0),
            slot.is_some() ==> *slot.unwrap() == self.items()[0],
    {
        if !has_record(self.write_idx, self.read_idx) {
            return None;
        }
        let at: usize = slot_of(self.read_idx, N);
        assert(self@.slots[self@.read_idx as int % (N as int)].is_some());
        self.slots[at].as_ref()
    }

    /// Drops the oldest record.
    pub fn read_commit(&mut self)
        requires
            old(self).inv(),
            old(self)@.open,
            old(self).items().len() > 0,
        ensures
            final(self).inv(),
            final(self)@ == (RecordRingView {
                read_idx: (old(self)@.read_idx + 1) as u64,
                ..old(self)@
            }),
            final(self).items() == old(self).items().drop_first(),
    {
        self.read_idx = self.read_idx + 1;
        assert(self.items() =~= old(self).items().drop_first());
    }

    /// Reads the oldest record into `out` and drops it from the ring.
    /// Returns whether there was one; an empty ring leaves `out` as it is.
    pub fn read(&mut self, out: &mut T) -> (got: bool)
        requires
            old(self).inv(),
            old(self)@.open,
        ensures
            final(self).inv(),
            got == (old(self).items().len() > 0),
            got ==> *final(out) == old(self).items()[0] && final(self).items() == old(self).items().drop_first(),
            !got ==> *final(out) == *old(out),
            final(self)@ == if got {
                RecordRingView { read_idx: (old(self)@.read_idx + 1) as u64, ..old(self)@ }
            } else {
                old(self)@
            },
    {
        match self.read_slot() {
            None => false,
            Some(slot) => {
                *out = *slot;
                self.read_commit();
                true
            },
        }
    }

    /// The number of records that are available.
    pub fn available(&self) -> (n: usize)
        requires
            self.inv(),
            self@.open,
        ensures
            n == self.items().len(),
            n <= N,
    {
        (self.write_idx - self.read_idx) as usize
    }

    /// Whether no record is available.
    pub fn is_empty(&self) -> (empty: bool)
        requires
            self.inv(),
            self@.open,
        ensures
            empty == (self.items().len() == 0),
    {
        self.available() == 0
    }

    /// Whether the ring has no room for another record.
    pub fn is_full(&self) -> (full: bool)
        requires
            self.inv(),
            self@.open,
        ensures
            full == (self.items().len() == N),
    {
        self.available() >= N
    }
}

} // verus!
