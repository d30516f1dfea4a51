//! The decisions of a waiter: whether to sleep on the condition, and how a
//! spin loop turns into a sleep.
//!
//! A waiter couples a condition, a mutex and a quit flag of the process. The
//! sleeping itself is the caller's: it asks what to do, sleeps, and reports
//! how the sleep ended.

use vstd::prelude::*;

verus! {

/// Number of yields before a spin loop sleeps on the condition.
pub const SPIN_COUNT: u32 = 32;

/// What a waiter does next.
#[derive(Debug, Clone, Copy, PartialEq, Eq, Structural)]
pub enum WaitStep {
    /// The wait is over; the value is what the wait returns: `false` for a
    /// timeout, `true` otherwise.
    Done(bool),
    /// The caller yields the thread and asks again.
    Yield,
    /// The caller sleeps on the condition for at most the given number of
    /// milliseconds (without bound where there is none) and reports how the
    /// sleep ended.
    Block(Option<u64>),
}

/// The quit flag of a waiter. It belongs to one process: a waiter in another
/// process is woken by what happens to the channel, not by this flag.
pub struct Waiter {
    quit: bool,
}

impl Waiter {
    /// Whether the waiter was told to quit.
    pub closed spec fn quitting(&self) -> bool {
        self.quit
    }

    /// A waiter that was not told to quit.
    pub fn new() -> (waiter: Waiter)
        ensures
            !waiter.quitting(),
    {
        Waiter { quit: false }
    }

    /// Tells the waiter to quit: every wait returns from now on. The caller
    /// then wakes all sleepers.
    pub fn quit_waiting(&mut self)
        ensures
            final(self).quitting(),
    {
        self.quit = true;
    }

    /// Decides a step of a wait while `pred` holds: unless the waiter quits,
    /// a predicate that holds makes the caller sleep for at most
    /// `timeout_ms`; else the wait is over and returns `true`.
    pub fn wait_if(&self, pred: bool, timeout_ms: Option<u64>) -> (step: WaitStep)
        ensures
            step == if !self.quitting() && pred {
                WaitStep::Block(timeout_ms)
            } else {
                WaitStep::Done(true)
            },
    {
        if !self.quit && pred {
            WaitStep::Block(timeout_ms)
        } else {
            WaitStep::Done(true)
        }
    }

    /// Decides what follows a sleep: a sleep that timed out ends the wait
    /// with `false`; one that was signalled leads back to the predicate.
    pub fn woken(&self, signalled: bool) -> (over: Option<bool>)
        ensures
            over == if signalled {
                None::<bool>
            } else {
                Some(false)
            },
    {
        if signalled {
            None
        } else {
            Some(false)
        }
    }
}

/// The milliseconds left until `deadline_ms`, none before zero.
pub fn remaining_ms(deadline_ms: u64, now_ms: u64) -> (left: u64)
    ensures
        left == if now_ms >= deadline_ms {
            0
        } else {
            deadline_ms - now_ms
        },
{
    if now_ms >= deadline_ms {
        0
    } else {
        deadline_ms - now_ms
    }
}

/// Decides the entry of a spin-then-wait: with a timeout of zero the caller
/// does not wait at all and returns whether the predicate is already false.
pub fn wait_for_entry(timeout_ms: Option<u64>, pred: bool) -> (over: Option<bool>)
    ensures
        over == if timeout_ms == Some(0u64) {
            Some(!pred)
        } else {
            None::<bool>
        },
{
    match timeout_ms {
        Some(0) => Some(!pred),
        _ => None,
    }
}

/// Decides a step of a spin-then-wait, where `k` counts the yields so far and
/// `remaining_ms` is what is left of the timeout (nothing where there is
/// none). A predicate that is false ends the wait with `true`. Else the
/// caller yields for the first 32 steps; after that it sleeps on the
/// condition, unless no time is left, which ends the wait with `false`.
pub fn wait_for_step(pred: bool, k: &mut u32, remaining_ms: Option<u64>) -> (step: WaitStep)
    ensures
        step == if !pred {
            WaitStep::Done(true)
        } else if *old(k) < SPIN_COUNT {
            WaitStep::Yield
        } else if remaining_ms == Some(0u64) {
            WaitStep::Done(false)
        } else {
            WaitStep::Block(remaining_ms)
        },
        *final(k) == if pred && *old(k) < SPIN_COUNT {
            (*old(k) + 1) as u32
        } else {
            *old(k)
        },
{
    if !pred {
        return WaitStep::Done(true);
    }
    if *k < SPIN_COUNT {
        *k = *k + 1;
        return WaitStep::Yield;
    }
    match remaining_ms {
        Some(0) => WaitStep::Done(false),
        _ => WaitStep::Block(remaining_ms),
    }
}

/// Decides what follows the sleep of a spin-then-wait: a sleep that timed
/// out ends the wait with `false`; after any other the caller spins anew.
pub fn wait_for_woken(ok: bool, k: &mut u32) -> (over: Option<bool>)
    ensures
        over == if ok {
            None::<bool>
        } else {
            Some(false)
        },
        *final(k) == if ok {
            0
        } else {
            *old(k)
        },
{
    if !ok {
        return Some(false);
    }
    *k = 0;
    None
}

} // verus!
