//! The count of sleepers by which a condition is emulated where the platform
//! has none: a semaphore carries the wake-ups, and the count says how many
//! of them a notification may post.

use vstd::prelude::*;

verus! {

/// The number of waiters that sleep on an emulated condition.
pub struct CondCounter {
    waiters: i32,
}

impl CondCounter {
    /// The count.
    pub closed spec fn count(&self) -> i32 {
        self.waiters
    }

    /// The count of a condition on which nobody sleeps.
    pub fn new() -> (counter: CondCounter)
        ensures
            counter.count() == 0,
    {
        CondCounter { waiters: 0 }
    }

    /// The count.
    pub fn waiters(&self) -> (n: i32)
        ensures
            n == self.count(),
    {
        self.waiters
    }

    /// Counts a waiter in before it sleeps; a count below zero starts again
    /// at one.
    pub fn begin_wait(&mut self)
        requires
            old(self).count() < i32::MAX,
        ensures
            final(self).count() == if old(self).count() < 0 {
                1
            } else {
                old(self).count() + 1
            },
    {
        let c: i32 = self.waiters;
        self.waiters = if c < 0 {
            1
        } else {
            c + 1
        };
    }

    /// Counts a waiter out whose sleep timed out, modulo 2^32.
    pub fn wait_timed_out(&mut self)
        ensures
            final(self).count() == old(self).count().wrapping_sub(1),
    {
        self.waiters = self.waiters.wrapping_sub(1);
    }

    /// Notifies one waiter. Returns the number of wake-ups to post: one if
    /// somebody sleeps, and none if not.
    pub fn notify(&mut self) -> (posts: u32)
        ensures
            posts == if old(self).count() > 0 {
                1u32
            } else {
                0u32
            },
            final(self).count() == old(self).count() - posts,
    {
        if self.waiters > 0 {
            self.waiters = self.waiters - 1;
            1
        } else {
            0
        }
    }

    /// Notifies all waiters. Returns the number of wake-ups to post: one for
    /// each waiter that sleeps at this moment.
    pub fn broadcast(&mut self) -> (posts: u32)
        ensures
            posts == if old(self).count() > 0 {
                old(self).count() as u32
            } else {
                0u32
            },
            final(self).count() == if old(self).count() > 0 {
                0
            } else {
                old(self).count()
            },
    {
        let c: i32 = self.waiters;
        if c > 0 {
            self.waiters = 0;
            c as u32
        } else {
            0
        }
    }
}

} // verus!
