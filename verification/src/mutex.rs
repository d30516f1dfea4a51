//! The decisions around the robust process-shared mutex: what the result of
//! a lock call means, and the absolute deadline of a timed lock.

use vstd::prelude::*;

verus! {

/// The error numbers of the platform that a lock call can return.
#[derive(Debug, Clone, Copy, PartialEq, Eq, Structural)]
pub struct LockCodes {
    /// The mutex is held by someone else.
    pub busy: i32,
    /// The deadline passed.
    pub timed_out: i32,
    /// The owner died while it held the mutex.
    pub owner_dead: i32,
    /// The call was interrupted.
    pub interrupted: i32,
}

/// The kind of lock call.
#[derive(Debug, Clone, Copy, PartialEq, Eq, Structural)]
pub enum LockCall {
    /// A lock that blocks without bound.
    Lock,
    /// A lock that does not block.
    TryLock,
    /// A lock that blocks up to a deadline.
    TimedLock,
}

/// What the result of a lock call means.
#[derive(Debug, Clone, Copy, PartialEq, Eq, Structural)]
pub enum LockOutcome {
    /// The caller holds the mutex.
    Acquired,
    /// The previous owner died: the caller marks the mutex consistent and
    /// then holds it.
    Recovered,
    /// The mutex is held by someone else.
    Busy,
    /// The deadline passed.
    TimedOut,
    /// The call was interrupted and is made again.
    Retry,
    /// The call failed with this error number.
    Failed(i32),
}

/// What the result `eno` of a lock call of kind `call` means. Zero is
/// success, and a dead owner is recovered from in every kind of call. A held
/// mutex is reported only by a call that does not block; a passed deadline
/// and an interruption only by a timed call. Anything else is a failure.
pub open spec fn spec_lock_outcome(eno: i32, call: LockCall, codes: LockCodes) -> LockOutcome {
    if eno == 0 {
        LockOutcome::Acquired
    } else if call == LockCall::TryLock && eno == codes.busy {
        LockOutcome::Busy
    } else if call == LockCall::TimedLock && eno == codes.timed_out {
        LockOutcome::TimedOut
    } else if eno == codes.owner_dead {
        LockOutcome::Recovered
    } else if call == LockCall::TimedLock && eno == codes.interrupted {
        LockOutcome::Retry
    } else {
        LockOutcome::Failed(eno)
    }
}

/// Decides what the result of a lock call means; see [`spec_lock_outcome`].
pub fn lock_outcome(eno: i32, call: LockCall, codes: &LockCodes) -> (outcome: LockOutcome)
    ensures
        outcome == spec_lock_outcome(eno, call, *codes),
{
    if eno == 0 {
        LockOutcome::Acquired
    } else if call == LockCall::TryLock && eno == codes.busy {
        LockOutcome::Busy
    } else if call == LockCall::TimedLock && eno == codes.timed_out {
        LockOutcome::TimedOut
    } else if eno == codes.owner_dead {
        LockOutcome::Recovered
    } else if call == LockCall::TimedLock && eno == codes.interrupted {
        LockOutcome::Retry
    } else {
        LockOutcome::Failed(eno)
    }
}

/// Largest number of seconds of a clock reading that a deadline is computed
/// from.
pub const MAX_CLOCK_SEC: i64 = 0x3FFF_FFFF_FFFF_FFFF;

/// A point in time: seconds, and nanoseconds below one second.
#[derive(Debug, Clone, Copy, PartialEq, Eq, Structural)]
pub struct Timespec {
    /// Whole seconds.
    pub sec: i64,
    /// Nanoseconds, from 0 to 999,999,999.
    pub nsec: i64,
}

/// The nanoseconds that a point in time stands for.
pub open spec fn spec_nanos(t: Timespec) -> int {
    t.sec * 1_000_000_000 + t.nsec
}

/// The point in time `timeout_ms` milliseconds after `now`.
pub fn deadline_after(now: Timespec, timeout_ms: u64) -> (deadline: Timespec)
    requires
        0 <= now.sec <= MAX_CLOCK_SEC,
        0 <= now.nsec < 1_000_000_000,
    ensures
        spec_nanos(deadline) == spec_nanos(now) + timeout_ms * 1_000_000,
        0 <= deadline.nsec < 1_000_000_000,
{
    let ns_total: u64 = now.nsec as u64 + (timeout_ms % 1000) * 1_000_000;
    let sec: i64 = now.sec + (timeout_ms / 1000) as i64 + (ns_total / 1_000_000_000) as i64;
    let nsec: i64 = (ns_total % 1_000_000_000) as i64;
    Timespec { sec, nsec }
}

} // verus!
