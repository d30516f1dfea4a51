//! The single-word spin lock and the backoff policy shared by every spin loop.

use vstd::prelude::*;

verus! {

/// What a spinning caller does before it retries.
#[derive(Clone, Copy, Debug, PartialEq, Eq, Structural)]
pub enum YieldAction {
    /// Retry at once.
    Busy,
    /// Issue a CPU pause hint.
    Pause,
    /// Yield the thread to the scheduler.
    Yield,
    /// Sleep for one millisecond.
    Sleep,
}

/// The backoff policy: busy below 4 retries, pause from 4 to 15, yield from 16
/// to 31, sleep from 32 on.
pub open spec fn spec_yield_action(k: u32) -> YieldAction {
    if k < 4 {
        YieldAction::Busy
    } else if k < 16 {
        YieldAction::Pause
    } else if k < 32 {
        YieldAction::Yield
    } else {
        YieldAction::Sleep
    }
}

/// The retry counter after one backoff step: it counts up to 32 and stays there.
pub open spec fn spec_yield_next(k: u32) -> u32 {
    if k < 32 {
        (k + 1) as u32
    } else {
        k
    }
}

/// One step of adaptive backoff: returns what to do for retry number `*k` and
/// advances the counter.
pub fn adaptive_yield(k: &mut u32) -> (action: YieldAction)
    ensures
        action == spec_yield_action(*old(k)),
        *final(k) == spec_yield_next(*old(k)),
{
    if *k < 4 {
        *k = *k + 1;
        YieldAction::Busy
    } else if *k < 16 {
        *k = *k + 1;
        YieldAction::Pause
    } else if *k < 32 {
        *k = *k + 1;
        YieldAction::Yield
    } else {
        YieldAction::Sleep
    }
}

/// A spin lock held in one word: 0 when free, 1 when held.
pub struct SpinLock {
    lc: u32,
}

impl SpinLock {
    /// Whether the lock is held.
    pub closed spec fn is_locked(&self) -> bool {
        self.lc != 0
    }

    /// A new, free lock.
    pub fn new() -> (lock: SpinLock)
        ensures
            !lock.is_locked(),
    {
        SpinLock { lc: 0 }
    }

    /// Whether the lock is held.
    pub fn locked(&self) -> (held: bool)
        ensures
            held == self.is_locked(),
    {
        self.lc != 0
    }

    /// One exchange on the lock word: takes the lock if it was free. Returns
    /// whether this call took it; the lock is held afterwards either way.
    pub fn try_lock(&mut self) -> (taken: bool)
        ensures
            taken == !old(self).is_locked(),
            final(self).is_locked(),
    {
        let prev: u32 = self.lc;
        self.lc = 1;
        prev == 0
    }

    /// Takes a free lock. A held lock would keep the caller spinning, so the
    /// lock must be free.
    pub fn lock(&mut self)
        requires
            !old(self).is_locked(),
        ensures
            final(self).is_locked(),
    {
        let taken = self.try_lock();
        assert(taken);
    }

    /// Releases the lock.
    pub fn unlock(&mut self)
        ensures
            !final(self).is_locked(),
    {
        self.lc = 0;
    }
}

impl Default for SpinLock {
    fn default() -> (lock: SpinLock)
        ensures
            !lock.is_locked(),
    {
        SpinLock::new()
    }
}

} // verus!
