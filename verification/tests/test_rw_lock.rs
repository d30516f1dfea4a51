use libipc::rw_lock::{WriteAttempt, W_FLAG};
use libipc::RwLock;

#[test]
fn basic_write_lock() {
    let mut lock = RwLock::new();
    lock.lock();
    lock.unlock();
}

#[test]
fn basic_read_lock() {
    let mut lock = RwLock::new();
    lock.lock_shared();
    lock.unlock_shared();
}

#[test]
fn multiple_write_cycles() {
    let mut lock = RwLock::new();
    for _ in 0..100 {
        lock.lock();
        lock.unlock();
    }
}

#[test]
fn multiple_read_cycles() {
    let mut lock = RwLock::new();
    for _ in 0..100 {
        lock.lock_shared();
        lock.unlock_shared();
    }
}

#[test]
fn multiple_write_lock_pattern() {
    let mut lock = RwLock::new();
    let mut data = 0i32;

    for _ in 0..100 {
        lock.lock_shared();
        let temp = data;
        lock.unlock_shared();

        lock.lock();
        data = temp + 1;
        lock.unlock();
    }

    assert_eq!(data, 100);
}

#[test]
fn write_lock_sets_the_flag() {
    let mut lock = RwLock::new();
    lock.lock();
    assert_eq!(lock.value(), W_FLAG);
    lock.unlock();
    assert_eq!(lock.value(), 0);
}

#[test]
fn writer_waits_for_readers() {
    let mut lock = RwLock::new();
    lock.lock_shared();
    lock.lock_shared();
    assert_eq!(lock.value(), 2);
    assert_eq!(lock.try_lock(), WriteAttempt::Draining);
    assert!(!lock.drained());
    assert!(!lock.try_lock_shared());
    lock.unlock_shared();
    lock.unlock_shared();
    assert!(lock.drained());
    assert_eq!(lock.try_lock(), WriteAttempt::Contended);
    lock.unlock();
    assert_eq!(lock.try_lock(), WriteAttempt::Acquired);
}
