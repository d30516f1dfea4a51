use libipc::condition::CondCounter;
use libipc::mutex::{deadline_after, lock_outcome, LockCall, LockCodes, LockOutcome, Timespec};
use libipc::shm::{CachedShm, ShmCache};
use libipc::waiter::{remaining_ms, wait_for_entry, wait_for_step, wait_for_woken, WaitStep, Waiter};
use libipc::{ShmError, ShmOpenMode, ShmSpace};

fn slot_of(found: Option<Result<usize, ShmError>>) -> Option<usize> {
    found.and_then(|r| r.ok())
}

const CODES: LockCodes = LockCodes { busy: 16, timed_out: 110, owner_dead: 130, interrupted: 4 };

#[test]
fn a_lock_result_of_zero_is_success() {
    for call in [LockCall::Lock, LockCall::TryLock, LockCall::TimedLock] {
        assert_eq!(lock_outcome(0, call, &CODES), LockOutcome::Acquired);
    }
}

#[test]
fn a_dead_owner_is_recovered_from() {
    for call in [LockCall::Lock, LockCall::TryLock, LockCall::TimedLock] {
        assert_eq!(lock_outcome(130, call, &CODES), LockOutcome::Recovered);
    }
}

#[test]
fn lock_results_by_kind_of_call() {
    assert_eq!(lock_outcome(16, LockCall::TryLock, &CODES), LockOutcome::Busy);
    assert_eq!(lock_outcome(16, LockCall::Lock, &CODES), LockOutcome::Failed(16));
    assert_eq!(lock_outcome(16, LockCall::TimedLock, &CODES), LockOutcome::Failed(16));
    assert_eq!(lock_outcome(110, LockCall::TimedLock, &CODES), LockOutcome::TimedOut);
    assert_eq!(lock_outcome(110, LockCall::Lock, &CODES), LockOutcome::Failed(110));
    assert_eq!(lock_outcome(4, LockCall::TimedLock, &CODES), LockOutcome::Retry);
    assert_eq!(lock_outcome(4, LockCall::TryLock, &CODES), LockOutcome::Failed(4));
    assert_eq!(lock_outcome(22, LockCall::Lock, &CODES), LockOutcome::Failed(22));
}

#[test]
fn deadlines_carry_into_the_seconds() {
    let now = Timespec { sec: 100, nsec: 999_000_000 };
    assert_eq!(deadline_after(now, 0), now);
    assert_eq!(deadline_after(now, 1), Timespec { sec: 101, nsec: 0 });
    assert_eq!(deadline_after(now, 2), Timespec { sec: 101, nsec: 1_000_000 });
    assert_eq!(deadline_after(now, 2500), Timespec { sec: 103, nsec: 499_000_000 });
    assert_eq!(deadline_after(Timespec { sec: 0, nsec: 0 }, 1000), Timespec { sec: 1, nsec: 0 });
}

#[test]
fn wait_if_sleeps_while_the_predicate_holds() {
    let mut waiter = Waiter::new();
    assert_eq!(waiter.wait_if(true, Some(50)), WaitStep::Block(Some(50)));
    assert_eq!(waiter.wait_if(true, None), WaitStep::Block(None));
    assert_eq!(waiter.wait_if(false, Some(50)), WaitStep::Done(true));
    assert_eq!(waiter.woken(true), None);
    assert_eq!(waiter.woken(false), Some(false));
    waiter.quit_waiting();
    assert_eq!(waiter.wait_if(true, Some(50)), WaitStep::Done(true), "a waiter that quits does not sleep");
}

#[test]
fn spin_then_wait() {
    assert_eq!(wait_for_entry(Some(0), true), Some(false));
    assert_eq!(wait_for_entry(Some(0), false), Some(true));
    assert_eq!(wait_for_entry(Some(5), true), None);
    assert_eq!(wait_for_entry(None, true), None);

    let mut k = 0u32;
    for i in 0..32 {
        assert_eq!(wait_for_step(true, &mut k, Some(100)), WaitStep::Yield, "step {i}");
    }
    assert_eq!(k, 32);
    assert_eq!(wait_for_step(true, &mut k, Some(100)), WaitStep::Block(Some(100)));
    assert_eq!(wait_for_step(true, &mut k, None), WaitStep::Block(None));
    assert_eq!(wait_for_step(true, &mut k, Some(0)), WaitStep::Done(false));
    assert_eq!(wait_for_step(false, &mut k, Some(0)), WaitStep::Done(true));
    assert_eq!(k, 32);
    assert_eq!(wait_for_woken(false, &mut k), Some(false));
    assert_eq!(k, 32);
    assert_eq!(wait_for_woken(true, &mut k), None);
    assert_eq!(k, 0, "after a wake-up the caller spins anew");
}

#[test]
fn remaining_time_stops_at_zero() {
    assert_eq!(remaining_ms(1000, 400), 600);
    assert_eq!(remaining_ms(1000, 1000), 0);
    assert_eq!(remaining_ms(1000, 5000), 0);
}

#[test]
fn notify_wakes_at_most_one_and_broadcast_wakes_all() {
    let mut cond = CondCounter::new();
    assert_eq!(cond.notify(), 0);
    assert_eq!(cond.broadcast(), 0);
    cond.begin_wait();
    cond.begin_wait();
    cond.begin_wait();
    assert_eq!(cond.waiters(), 3);
    assert_eq!(cond.notify(), 1);
    assert_eq!(cond.waiters(), 2);
    cond.wait_timed_out();
    assert_eq!(cond.waiters(), 1);
    cond.begin_wait();
    assert_eq!(cond.broadcast(), 2);
    assert_eq!(cond.waiters(), 0);
    assert_eq!(cond.broadcast(), 0);
    cond.wait_timed_out();
    assert_eq!(cond.waiters(), -1);
    cond.begin_wait();
    assert_eq!(cond.waiters(), 1, "a count below zero starts again at one");
}

#[test]
fn the_cache_maps_each_name_once() {
    let mut space = ShmSpace::new();
    let mut cache = ShmCache::new();
    let first = cache.acquire(&mut space, "mtx", 64).expect("first");
    assert_eq!(first, CachedShm { index: 0, creator: true });
    let second = cache.acquire(&mut space, "mtx", 64).expect("second");
    assert_eq!(second, CachedShm { index: 0, creator: false }, "the same mapping, and nothing to initialise");
    assert_eq!(cache.local_ref("mtx"), 2);
    assert_eq!(cache.len(), 1);
    assert_eq!(space.len(), 1);
    let handle = space.acquire("mtx", 64, ShmOpenMode::Open).expect("open");
    assert_eq!(handle.prev_ref_count(), 1, "the cache took one hold on the region, not two");
}

#[test]
fn the_cache_lets_go_with_the_last_hold() {
    let mut space = ShmSpace::new();
    let mut cache = ShmCache::new();
    cache.acquire(&mut space, "cond", 48).expect("first");
    cache.acquire(&mut space, "cond", 48).expect("second");
    assert_eq!(cache.release("cond"), None);
    assert_eq!(cache.local_ref("cond"), 1);
    assert_eq!(cache.release("cond"), Some(0), "the caller releases region 0");
    assert_eq!(cache.len(), 0);
    assert_eq!(cache.release("cond"), None);
    assert_eq!(cache.local_ref("cond"), 0);
}

#[test]
fn an_opener_of_an_existing_region_is_no_creator() {
    let mut space = ShmSpace::new();
    let _other_process = space.acquire("shared", 64, ShmOpenMode::Create).expect("create");
    let mut cache = ShmCache::new();
    let got = cache.acquire(&mut space, "shared", 64).expect("acquire");
    assert_eq!(got, CachedShm { index: 0, creator: false });
}

#[test]
fn purge_forgets_a_name() {
    let mut space = ShmSpace::new();
    let mut cache = ShmCache::new();
    cache.acquire(&mut space, "a", 8).expect("a");
    cache.acquire(&mut space, "b", 8).expect("b");
    assert_eq!(cache.purge("a"), Some(0));
    space.clear_storage("a");
    assert_eq!(cache.len(), 1);
    assert_eq!(cache.local_ref("a"), 0);
    let again = cache.acquire(&mut space, "a", 8).expect("a again");
    assert_eq!(again, CachedShm { index: 2, creator: true }, "a new region under the old name");
    assert_eq!(cache.purge("nothing"), None);
    assert_eq!(cache.len(), 2);
}

#[test]
fn the_cache_passes_errors_on() {
    let mut space = ShmSpace::new();
    let mut cache = ShmCache::new();
    assert_eq!(cache.acquire(&mut space, "", 8), Err(ShmError::EmptyName));
    assert_eq!(cache.acquire(&mut space, "x", 0), Err(ShmError::ZeroSize));
    assert_eq!(cache.len(), 0);
}

#[test]
fn the_cache_can_be_kept_apart_from_the_namespace() {
    let mut cache = ShmCache::new();
    assert_eq!(cache.hit("m", ShmOpenMode::CreateOrOpen), None);
    cache.insert("m", 5);
    assert_eq!(slot_of(cache.hit("m", ShmOpenMode::CreateOrOpen)), Some(5));
    assert_eq!(slot_of(cache.hit("m", ShmOpenMode::Open)), Some(5));
    assert_eq!(cache.local_ref("m"), 3);
    assert_eq!(cache.hit("m", ShmOpenMode::Create), Some(Err(ShmError::AlreadyExists)));
    assert_eq!(cache.local_ref("m"), 3, "a refused creation takes no hold");
    assert_eq!(cache.release("m"), None);
    assert_eq!(cache.release("m"), None);
    assert_eq!(cache.release("m"), Some(5));
    assert_eq!(cache.hit("m", ShmOpenMode::Open), None);
}
