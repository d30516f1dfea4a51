//! The timing of a real-time audio thread: the period of a buffer, and the
//! parameters that a request for real-time priority carries.

use vstd::prelude::*;

verus! {

/// The parameters of a request for real-time priority, in nanoseconds.
#[derive(Debug, Clone, Copy, PartialEq, Eq, Structural)]
pub struct RealtimeParams {
    /// The nominal time between two callbacks.
    pub period_ns: u64,
    /// The longest computation per period.
    pub computation_ns: u64,
    /// The deadline within the period.
    pub constraint_ns: u64,
}

/// The parameters of a request: where no computation time is given it is
/// half the period, and where no deadline is given it is the period.
pub fn realtime_params(period_ns: u64, computation_ns: Option<u64>, constraint_ns: Option<u64>) -> (params:
    RealtimeParams)
    ensures
        params.period_ns == period_ns,
        params.computation_ns == match computation_ns {
            Some(c) => c,
            None => period_ns / 2,
        },
        params.constraint_ns == match constraint_ns {
            Some(c) => c,
            None => period_ns,
        },
{
    let computation_ns: u64 = match computation_ns {
        Some(c) => c,
        None => period_ns / 2,
    };
    let constraint_ns: u64 = match constraint_ns {
        Some(c) => c,
        None => period_ns,
    };
    RealtimeParams { period_ns, computation_ns, constraint_ns }
}

/// A time in nanoseconds as ticks of a clock that makes `numer` nanoseconds
/// in `denom` ticks, modulo 2^32.
pub fn to_clock_ticks(ns: u64, numer: u32, denom: u32) -> (ticks: u32)
    requires
        numer > 0,
    ensures
        ticks == ((ns as int * denom as int) / (numer as int)) % 0x1_0000_0000,
{
    assert(ns as int * denom as int <= 0xffff_ffff_ffff_ffff * 0xffff_ffff) by (nonlinear_arith)
        requires
            0 <= ns <= 0xffff_ffff_ffff_ffff,
            0 <= denom <= 0xffff_ffff,
    ;
    let product: u128 = (ns as u128) * (denom as u128);
    let quotient: u128 = product / (numer as u128);
    (quotient % 0x1_0000_0000) as u32
}

/// The time that a buffer of `frames_per_buffer` frames lasts at
/// `sample_rate` frames per second, in whole nanoseconds.
pub fn audio_period_ns(sample_rate: u32, frames_per_buffer: u32) -> (ns: u64)
    requires
        sample_rate > 0,
    ensures
        ns == (frames_per_buffer as int * 1_000_000_000) / (sample_rate as int),
{
    assert(frames_per_buffer as int * 1_000_000_000 <= 0xffff_ffff * 1_000_000_000);
    (frames_per_buffer as u64) * 1_000_000_000 / (sample_rate as u64)
}

} // verus!
