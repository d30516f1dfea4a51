//! Connection tracking for the ring: a 32-bit mask with one bit per subscriber
//! (broadcast) or a plain counter (unicast).

use vstd::prelude::*;
use crate::ring::{free_bit, popcount, spec_free_bit, spec_popcount};
use crate::spin_lock::SpinLock;

verus! {

/// A connection identity: one bit of the mask (broadcast) or a count (unicast).
pub type ConnId = u32;

/// Number of slots in the ring.
pub const ELEM_MAX: usize = 256;

/// The ring index of a cursor: its low eight bits.
pub open spec fn spec_index_of(cursor: u32) -> u8 {
    (cursor % 256) as u8
}

/// Truncates a cursor to its ring index.
pub fn index_of(cursor: u32) -> (idx: u8)
    ensures
        idx == spec_index_of(cursor),
{
    (cursor % 256) as u8
}

/// The connection head for broadcast: each subscriber holds one bit of the
/// mask.
pub struct BroadcastConnHead {
    cc: u32,
    lock: SpinLock,
    constructed: bool,
}

impl BroadcastConnHead {
    /// The mask of connected subscribers.
    pub closed spec fn mask(&self) -> u32 {
        self.cc
    }

    /// Whether the head was initialised.
    pub closed spec fn is_constructed(&self) -> bool {
        self.constructed
    }

    /// The lock of the head is free.
    pub closed spec fn inv(&self) -> bool {
        !self.lock.is_locked()
    }

    /// The head of a fresh region: every word zero, not yet initialised.
    pub fn new() -> (head: BroadcastConnHead)
        ensures
            head.inv(),
            head.mask() == 0,
            !head.is_constructed(),
    {
        BroadcastConnHead { cc: 0, lock: SpinLock::new(), constructed: false }
    }

    /// Initialises the head once: the first call empties the mask, any later
    /// call changes nothing.
    pub fn init(&mut self)
        requires
            old(self).inv(),
        ensures
            final(self).inv(),
            final(self).is_constructed(),
            final(self).mask() == if old(self).is_constructed() {
                old(self).mask()
            } else {
                0
            },
    {
        if !self.constructed {
            self.lock.lock();
            if !self.constructed {
                self.cc = 0;
                self.constructed = true;
            }
            self.lock.unlock();
        }
    }

    /// The mask of connected subscribers.
    pub fn connections(&self) -> (cc: ConnId)
        ensures
            cc == self.mask(),
    {
        self.cc
    }

    /// Connects a subscriber: it gets the lowest free bit of the mask.
    /// Returns that bit, or 0 when all 32 bits are taken.
    pub fn connect(&mut self) -> (bit: ConnId)
        ensures
            bit == spec_free_bit(old(self).mask()),
            bit == 0 <==> old(self).mask() == u32::MAX,
            final(self).mask() == old(self).mask() | bit,
            bit & old(self).mask() == 0,
            final(self).is_constructed() == old(self).is_constructed(),
            final(self).inv() == old(self).inv(),
    {
        let curr: u32 = self.cc;
        let bit: u32 = free_bit(curr);
        self.cc = curr | bit;
        proof {
            assert(curr | 0u32 == curr) by (bit_vector);
        }
        bit
    }

    /// Disconnects the subscribers `cc_id`. Returns the mask that is left.
    pub fn disconnect(&mut self, cc_id: ConnId) -> (left: ConnId)
        ensures
            left == old(self).mask() & !cc_id,
            final(self).mask() == left,
            final(self).is_constructed() == old(self).is_constructed(),
            final(self).inv() == old(self).inv(),
    {
        self.cc = self.cc & !cc_id;
        self.cc
    }

    /// Whether one of the subscribers `cc_id` is connected.
    pub fn connected(&self, cc_id: ConnId) -> (yes: bool)
        ensures
            yes == (self.mask() & cc_id != 0),
    {
        (self.cc & cc_id) != 0
    }

    /// The number of connected subscribers.
    pub fn conn_count(&self) -> (n: usize)
        ensures
            n == spec_popcount(self.mask()),
            n <= 32,
    {
        popcount(self.cc)
    }
}

/// The connection head for unicast: a count of the connected receivers.
pub struct UnicastConnHead {
    cc: u32,
    lock: SpinLock,
    constructed: bool,
}

impl UnicastConnHead {
    /// The count of connected receivers.
    pub closed spec fn count(&self) -> u32 {
        self.cc
    }

    /// Whether the head was initialised.
    pub closed spec fn is_constructed(&self) -> bool {
        self.constructed
    }

    /// The lock of the head is free.
    pub closed spec fn inv(&self) -> bool {
        !self.lock.is_locked()
    }

    /// The head of a fresh region: every word zero, not yet initialised.
    pub fn new() -> (head: UnicastConnHead)
        ensures
            head.inv(),
            head.count() == 0,
            !head.is_constructed(),
    {
        UnicastConnHead { cc: 0, lock: SpinLock::new(), constructed: false }
    }

    /// Initialises the head once: the first call zeroes the count, any later
    /// call changes nothing.
    pub fn init(&mut self)
        requires
            old(self).inv(),
        ensures
            final(self).inv(),
            final(self).is_constructed(),
            final(self).count() == if old(self).is_constructed() {
                old(self).count()
            } else {
                0
            },
    {
        if !self.constructed {
            self.lock.lock();
            if !self.constructed {
                self.cc = 0;
                self.constructed = true;
            }
            self.lock.unlock();
        }
    }

    /// The count of connected receivers.
    pub fn connections(&self) -> (cc: ConnId)
        ensures
            cc == self.count(),
    {
        self.cc
    }

    /// Connects a receiver. Returns the count that includes it. The count
    /// has room for one more.
    pub fn connect(&mut self) -> (id: ConnId)
        requires
            old(self).count() < u32::MAX,
        ensures
            id == old(self).count() + 1,
            final(self).count() == id,
            final(self).is_constructed() == old(self).is_constructed(),
            final(self).inv() == old(self).inv(),
    {
        self.cc = self.cc + 1;
        self.cc
    }

    /// Disconnects a receiver, or all of them where `cc_id` is all ones.
    /// Returns the count that is left. To disconnect one receiver, one is
    /// connected.
    pub fn disconnect(&mut self, cc_id: ConnId) -> (left: ConnId)
        requires
            cc_id == u32::MAX || old(self).count() > 0,
        ensures
            left == if cc_id == u32::MAX {
                0
            } else {
                old(self).count() - 1
            },
            final(self).count() == left,
            final(self).is_constructed() == old(self).is_constructed(),
            final(self).inv() == old(self).inv(),
    {
        if cc_id == u32::MAX {
            self.cc = 0;
            return 0;
        }
        self.cc = self.cc - 1;
        self.cc
    }

    /// Whether the receiver `cc_id` counts as connected: some receiver is,
    /// and `cc_id` is not zero.
    pub fn connected(&self, cc_id: ConnId) -> (yes: bool)
        ensures
            yes == (self.count() != 0 && cc_id != 0),
    {
        self.cc != 0 && cc_id != 0
    }

    /// The number of connected receivers.
    pub fn conn_count(&self) -> (n: usize)
        ensures
            n == self.count(),
    {
        self.cc as usize
    }
}

} // verus!
