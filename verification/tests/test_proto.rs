use libipc::proto::rt_prio::{realtime_params, to_clock_ticks, RealtimeParams};
use libipc::proto::audio_period_ns;

#[test]
fn audio_period_ns_48k_256() {
    let ns = audio_period_ns(48_000, 256);
    assert_eq!(ns, 5_333_333);
}

#[test]
fn audio_period_ns_44k_512() {
    let ns = audio_period_ns(44_100, 512);
    assert!(ns > 11_000_000 && ns < 12_000_000);
}

#[test]
fn realtime_params_fill_in_defaults() {
    assert_eq!(
        realtime_params(5_333_333, None, None),
        RealtimeParams { period_ns: 5_333_333, computation_ns: 2_666_666, constraint_ns: 5_333_333 }
    );
    assert_eq!(
        realtime_params(1000, Some(10), Some(900)),
        RealtimeParams { period_ns: 1000, computation_ns: 10, constraint_ns: 900 }
    );
}

// ===========================================================================
// ShmRing
// ===========================================================================

use libipc::proto::ShmRing;
use libipc::ShmError;

#[test]
fn shm_ring_open_or_create() {
    let mut ring: ShmRing<u32, 8> = ShmRing::new("ring_ctor");
    assert!(!ring.valid());
    ring.open_or_create().expect("open_or_create");
    assert!(ring.valid());
    ring.destroy();
    assert!(!ring.valid());
}

#[test]
fn shm_ring_open_existing_needs_the_region() {
    let mut ring: ShmRing<u32, 8> = ShmRing::new("ring_existing");
    assert_eq!(ring.open_existing(), Err(ShmError::NotFound));
    ring.open_or_create().expect("open");
    ring.close();
    assert_eq!(ring.open_existing(), Ok(true));
    ring.destroy();
    assert_eq!(ring.open_existing(), Err(ShmError::NotFound));
    let mut nameless: ShmRing<u32, 8> = ShmRing::new("");
    assert_eq!(nameless.open_or_create(), Err(ShmError::EmptyName));
    assert_eq!(nameless.open_existing(), Err(ShmError::EmptyName));
}

#[test]
fn shm_ring_keeps_its_records_over_close_and_open() {
    let mut ring: ShmRing<u32, 8> = ShmRing::new("ring_reopen");
    ring.open_or_create().expect("open");
    assert!(ring.write(&5));
    ring.close();
    ring.open_or_create().expect("open again");
    assert_eq!(ring.available(), 1);
    ring.destroy();
    ring.open_or_create().expect("create anew");
    assert_eq!(ring.available(), 0);
}

#[test]
fn shm_ring_write_read_single() {
    let mut ring: ShmRing<u32, 8> = ShmRing::new("ring_wr1");
    ring.open_or_create().expect("open");

    assert!(ring.write(&42u32));
    let mut out = 0u32;
    assert!(ring.read(&mut out));
    assert_eq!(out, 42);
    ring.destroy();
}

#[test]
fn shm_ring_empty_read_returns_false() {
    let mut ring: ShmRing<u32, 4> = ShmRing::new("ring_empty");
    ring.open_or_create().expect("open");

    let mut out = 7u32;
    assert!(!ring.read(&mut out));
    assert_eq!(out, 7);
    ring.destroy();
}

#[test]
fn shm_ring_full_write_returns_false() {
    let mut ring: ShmRing<u32, 4> = ShmRing::new("ring_full");
    ring.open_or_create().expect("open");

    for i in 0..4u32 {
        assert!(ring.write(&i));
    }
    assert!(ring.is_full());
    assert!(!ring.write(&99u32)); // full
    assert_eq!(ring.available(), 4);
    ring.destroy();
}

#[test]
fn shm_ring_write_overwrite_drops_oldest() {
    let mut ring: ShmRing<u32, 4> = ShmRing::new("ring_overwrite");
    ring.open_or_create().expect("open");

    for i in 0..4u32 {
        ring.write(&i);
    }
    // Overwrite: oldest (0) should be dropped
    ring.write_overwrite(&99u32);

    let mut out = 0u32;
    ring.read(&mut out);
    assert_eq!(out, 1); // 0 was dropped
    ring.read(&mut out);
    assert_eq!(out, 2);
    ring.read(&mut out);
    assert_eq!(out, 3);
    ring.read(&mut out);
    assert_eq!(out, 99);
    ring.destroy();
}

#[test]
fn spsc_overwrite_with_capacity_four() {
    let mut ring: ShmRing<u32, 4> = ShmRing::new("spsc_overwrite");
    ring.open_or_create().expect("open");
    for i in 1..=4u32 {
        assert!(ring.write(&i));
    }
    ring.write_overwrite(&99);
    assert_eq!(ring.available(), 4);
    let mut got = Vec::new();
    let mut out = 0u32;
    while ring.read(&mut out) {
        got.push(out);
    }
    assert_eq!(got, vec![2, 3, 4, 99]);
}

#[test]
fn shm_ring_write_overwrite_with_room_just_writes() {
    let mut ring: ShmRing<u32, 4> = ShmRing::new("ring_overwrite_room");
    ring.open_or_create().expect("open");
    ring.write_overwrite(&1);
    ring.write_overwrite(&2);
    assert_eq!(ring.available(), 2);
    let mut out = 0u32;
    assert!(ring.read(&mut out));
    assert_eq!(out, 1);
}

#[test]
fn shm_ring_available() {
    let mut ring: ShmRing<u64, 8> = ShmRing::new("ring_avail");
    ring.open_or_create().expect("open");

    assert_eq!(ring.available(), 0);
    ring.write(&1u64);
    ring.write(&2u64);
    assert_eq!(ring.available(), 2);
    let mut v = 0u64;
    ring.read(&mut v);
    assert_eq!(ring.available(), 1);
    ring.destroy();
}

#[test]
fn shm_ring_fifo_order() {
    let mut ring: ShmRing<u32, 16> = ShmRing::new("ring_fifo");
    ring.open_or_create().expect("open");

    for i in 0..10u32 {
        ring.write(&i);
    }
    for i in 0..10u32 {
        let mut v = 0u32;
        assert!(ring.read(&mut v));
        assert_eq!(v, i);
    }
    ring.destroy();
}

#[test]
fn shm_ring_wraps_around_many_times() {
    let mut ring: ShmRing<u32, 4> = ShmRing::new("ring_wrap");
    ring.open_or_create().expect("open");
    let mut next_read = 0u32;
    for i in 0..1000u32 {
        assert!(ring.write(&i));
        assert!(ring.available() <= 4);
        if i % 3 != 0 {
            let mut v = 0u32;
            while ring.read(&mut v) {
                assert_eq!(v, next_read);
                next_read += 1;
            }
        }
    }
}

#[test]
fn shm_ring_write_slot_commit() {
    let mut ring: ShmRing<u32, 8> = ShmRing::new("ring_slot");
    ring.open_or_create().expect("open");

    let slot = ring.write_slot().expect("slot");
    assert_eq!(slot, 0);
    ring.put(77u32);
    ring.write_commit();

    let mut out = 0u32;
    assert!(ring.read(&mut out));
    assert_eq!(out, 77);
    assert_eq!(ring.write_slot(), Some(1));
    ring.destroy();
}

#[test]
fn shm_ring_read_slot_commit() {
    let mut ring: ShmRing<u32, 8> = ShmRing::new("ring_rslot");
    ring.open_or_create().expect("open");

    ring.write(&55u32);
    let v = *ring.read_slot().expect("read slot");
    ring.read_commit();
    assert_eq!(v, 55);
    assert!(ring.is_empty());
    assert!(ring.read_slot().is_none());
    ring.destroy();
}

// ===========================================================================
// ServiceRegistry
// ===========================================================================

use libipc::proto::service_registry::registry_shm_name;
use libipc::proto::{ServiceEntry, ServiceRegistry};

const OWN_PID: i32 = 4242;
const NOW: i64 = 1_700_000_000;
const ALL_ALIVE: [bool; 32] = [true; 32];
const NONE_ALIVE: [bool; 32] = [false; 32];

#[test]
fn service_registry_open() {
    let reg = ServiceRegistry::new();
    assert_eq!(reg.count(), 0);
    assert_eq!(registry_shm_name("fleet"), "__ipc_registry__fleet");
    assert_eq!(registry_shm_name(""), "__ipc_registry__default");
}

#[test]
fn service_registry_register_find() {
    let mut reg = ServiceRegistry::new();

    let ok = reg.register_service_as("svc_a", "ctrl_a", "reply_a", OWN_PID, NOW, &ALL_ALIVE);
    assert!(ok, "register should succeed");
    assert_eq!(reg.count(), 1);

    let entry = reg.find("svc_a", &ALL_ALIVE).expect("find");
    assert_eq!(entry.name_str(), "svc_a");
    assert_eq!(entry.control_channel_str(), "ctrl_a");
    assert_eq!(entry.reply_channel_str(), "reply_a");
    assert_eq!(entry.pid, OWN_PID);
    assert_eq!(entry.registered_at, NOW);
    assert_eq!(entry.flags, 0);
    assert!(entry.active());
}

#[test]
fn service_registry_find_missing_returns_none() {
    let mut reg = ServiceRegistry::new();
    assert!(reg.find("nonexistent", &ALL_ALIVE).is_none());
}

#[test]
fn service_registry_unregister() {
    let mut reg = ServiceRegistry::new();

    reg.register_service_as("svc_b", "ctrl_b", "reply_b", OWN_PID, NOW, &ALL_ALIVE);
    assert!(reg.find("svc_b", &ALL_ALIVE).is_some());

    assert!(!reg.unregister_service_as("svc_b", OWN_PID + 1), "another process may not");
    assert!(reg.find("svc_b", &ALL_ALIVE).is_some());

    let ok = reg.unregister_service_as("svc_b", OWN_PID);
    assert!(ok);
    assert!(reg.find("svc_b", &ALL_ALIVE).is_none());
    assert!(!reg.unregister_service_as("svc_b", OWN_PID));
}

#[test]
fn service_registry_duplicate_register_fails() {
    let mut reg = ServiceRegistry::new();

    assert!(reg.register_service_as("svc_c", "ctrl_c", "reply_c", OWN_PID, NOW, &ALL_ALIVE));
    // a second registration of the name by another process fails while the owner runs
    assert!(!reg.register_service_as("svc_c", "ctrl_c2", "reply_c2", OWN_PID + 1, NOW, &ALL_ALIVE));
    assert_eq!(reg.find("svc_c", &ALL_ALIVE).expect("find").control_channel_str(), "ctrl_c");
    // the owner itself takes its entry over
    assert!(reg.register_service_as("svc_c", "ctrl_c3", "reply_c3", OWN_PID, NOW + 1, &ALL_ALIVE));
    assert_eq!(reg.find("svc_c", &ALL_ALIVE).expect("find").control_channel_str(), "ctrl_c3");
    // and so does anyone once the owner is gone
    assert!(reg.register_service_as("svc_c", "ctrl_c4", "reply_c4", OWN_PID + 1, NOW + 2, &NONE_ALIVE));
    let entry = reg.find("svc_c", &ALL_ALIVE).expect("find");
    assert_eq!(entry.pid, OWN_PID + 1);
    assert_eq!(entry.control_channel_str(), "ctrl_c4");
    assert_eq!(reg.count(), 1, "the entry was reused each time");
}

#[test]
fn service_registry_rejects_the_empty_name() {
    let mut reg = ServiceRegistry::new();
    assert!(!reg.register_service_as("", "c", "r", OWN_PID, NOW, &ALL_ALIVE));
    assert!(reg.list(&ALL_ALIVE).is_empty());
}

#[test]
fn service_registry_list() {
    let mut reg = ServiceRegistry::new();

    reg.register_service_as("svc_x", "cx", "rx", OWN_PID, NOW, &ALL_ALIVE);
    reg.register_service_as("svc_y", "cy", "ry", OWN_PID, NOW, &ALL_ALIVE);

    let list = reg.list(&ALL_ALIVE);
    let names: Vec<&str> = list.iter().map(|e| e.name_str()).collect();
    assert_eq!(names, vec!["svc_x", "svc_y"]);
}

#[test]
fn service_registry_find_all_prefix() {
    let mut reg = ServiceRegistry::new();

    reg.register_service_as("audio.0", "c0", "r0", OWN_PID, NOW, &ALL_ALIVE);
    reg.register_service_as("audio.1", "c1", "r1", OWN_PID, NOW, &ALL_ALIVE);
    reg.register_service_as("video.0", "cv", "rv", OWN_PID, NOW, &ALL_ALIVE);

    let audio = reg.find_all("audio", &ALL_ALIVE);
    assert_eq!(audio.len(), 2);
    assert_eq!(audio[0].name_str(), "audio.0");
    assert_eq!(audio[1].name_str(), "audio.1");
    let video = reg.find_all("video", &ALL_ALIVE);
    assert_eq!(video.len(), 1);
    assert_eq!(reg.find_all("", &ALL_ALIVE).len(), 3);
    assert!(reg.find_all("audio.00", &ALL_ALIVE).is_empty());
}

#[test]
fn service_registry_clear() {
    let mut reg = ServiceRegistry::new();

    reg.register_service_as("svc_d", "cd", "rd", OWN_PID, NOW, &ALL_ALIVE);
    assert!(reg.find("svc_d", &ALL_ALIVE).is_some());
    reg.clear();
    assert!(reg.find("svc_d", &ALL_ALIVE).is_none());
    assert!(reg.list(&ALL_ALIVE).is_empty());
    assert_eq!(reg.count(), 0);
}

#[test]
fn service_registry_gc_removes_stale() {
    let mut reg = ServiceRegistry::new();

    // i32::MAX is the id of no process: nothing in the table is alive
    reg.register_service_as("svc_x", "c", "r", i32::MAX, NOW, &NONE_ALIVE);
    assert_eq!(reg.entry(0).name_str(), "svc_x");

    let removed = reg.gc(&NONE_ALIVE);
    assert!(removed >= 1);
    assert_eq!(removed, 1);
    assert!(reg.find("svc_x", &NONE_ALIVE).is_none());
    assert!(reg.find("svc_x", &ALL_ALIVE).is_none());
    assert_eq!(reg.entry(0).pid, 0);
    assert_eq!(reg.entry(0).name, [0u8; 64]);
    assert_eq!(reg.gc(&NONE_ALIVE), 0);
}

#[test]
fn service_registry_gc_spares_the_living() {
    let mut reg = ServiceRegistry::new();
    reg.register_service_as("a", "c", "r", 10, NOW, &ALL_ALIVE);
    reg.register_service_as("b", "c", "r", 11, NOW, &ALL_ALIVE);
    reg.register_service_as("c", "c", "r", 12, NOW, &ALL_ALIVE);
    let mut alive = [true; 32];
    alive[1] = false;
    assert_eq!(reg.gc(&alive), 1);
    let names: Vec<String> = reg.list(&ALL_ALIVE).iter().map(|e| e.name_str().to_string()).collect();
    assert_eq!(names, vec!["a", "c"]);
    // the freed place is the first to be taken again
    assert!(reg.register_service_as("d", "c", "r", 13, NOW, &ALL_ALIVE));
    assert_eq!(reg.entry(1).name_str(), "d");
}

#[test]
fn service_registry_find_zeroes_stale_entries_on_its_way() {
    let mut reg = ServiceRegistry::new();
    reg.register_service_as("svc", "old", "r", 10, NOW, &ALL_ALIVE);
    let mut alive = [true; 32];
    alive[0] = false;
    assert!(reg.find("svc", &alive).is_none());
    assert_eq!(reg.entry(0).pid, 0, "the stale entry is gone");
    assert!(reg.find("svc", &ALL_ALIVE).is_none());
}

#[test]
fn service_registry_full() {
    let mut reg = ServiceRegistry::new();
    for i in 0..32 {
        assert!(reg.register_service_as(&format!("svc{i}"), "c", "r", 100 + i, NOW, &ALL_ALIVE));
    }
    assert_eq!(reg.count(), 32);
    assert!(!reg.register_service_as("one_more", "c", "r", 999, NOW, &ALL_ALIVE), "the table is full");
    assert_eq!(reg.list(&ALL_ALIVE).len(), 32);
    let mut alive = [true; 32];
    alive[7] = false;
    assert!(reg.register_service_as("one_more", "c", "r", 999, NOW, &alive), "a dead owner's place is taken");
    assert_eq!(reg.entry(7).name_str(), "one_more");
    assert_eq!(reg.count(), 32);
}

#[test]
fn service_entry_names_are_cut_at_63_bytes() {
    let long = "x".repeat(100);
    let e = ServiceEntry::filled(&long, "c", "r", 1, NOW);
    assert_eq!(e.name_str().len(), 63);
    assert_eq!(e.name[63], 0);
    assert_eq!(e.control_channel_str(), "c");
    assert!(ServiceEntry::default().name_str().is_empty());
    assert!(!ServiceEntry::default().active());
    assert!(!e.is_alive(false));
    assert!(e.is_alive(true));
    assert!(!ServiceEntry::default().is_alive(true));
}

#[test]
fn service_entry_with_a_name_that_is_not_utf8_reads_as_empty() {
    let mut e = ServiceEntry::filled("abc", "c", "r", 1, NOW);
    e.name[1] = 0xFF;
    assert_eq!(e.name_str(), "");
    assert!(e.active());
    assert!(!e.named("abc"));
}

// ===========================================================================
// Processes
// ===========================================================================

use libipc::proto::process_manager::{
    instance_argv, needs_force_kill, shutdown_after_grace, shutdown_begin, wait_begin, wait_result_from_status,
    wait_step,
    ShutdownStep, WaitPoll,
};
use libipc::proto::{ProcessHandle, WaitResult};

#[test]
fn process_handle_invalid_is_not_valid() {
    let h = ProcessHandle::invalid();
    assert!(!h.valid());
    assert!(!h.is_alive(true));
    let h = ProcessHandle::spawned(77, "svc.0", "/bin/svc");
    assert!(h.valid());
    assert!(h.is_alive(true));
    assert!(!h.is_alive(false));
    assert_eq!(h.name, "svc.0");
    assert_eq!(h.executable, "/bin/svc");
}

#[test]
fn wait_status_is_decoded() {
    // exit code 3
    assert_eq!(
        wait_result_from_status(3 << 8),
        WaitResult { exited: true, exit_code: 3, signaled: false, signal: 0 }
    );
    // killed by signal 9
    assert_eq!(
        wait_result_from_status(9),
        WaitResult { exited: false, exit_code: 0, signaled: true, signal: 9 }
    );
    // stopped by signal 19: neither exited nor signaled
    assert_eq!(wait_result_from_status((19 << 8) | 0x7f), WaitResult::default());
    assert_eq!(wait_result_from_status(0), WaitResult { exited: true, exit_code: 0, signaled: false, signal: 0 });
}

#[test]
fn force_kill_follows_a_grace_period_without_exit() {
    let running = WaitResult::default();
    assert!(needs_force_kill(&running, true));
    assert!(!needs_force_kill(&running, false));
    let exited = WaitResult { exited: true, exit_code: 0, signaled: false, signal: 0 };
    assert!(!needs_force_kill(&exited, true));
    let signaled = WaitResult { exited: false, exit_code: 0, signaled: true, signal: 15 };
    assert!(!needs_force_kill(&signaled, true));
}

#[test]
fn an_instance_is_spawned_with_its_number() {
    assert_eq!(instance_argv("/bin/svc", 0), vec!["/bin/svc".to_string(), "0".to_string()]);
    assert_eq!(instance_argv("svc", 12), vec!["svc".to_string(), "12".to_string()]);
}

#[test]
fn nanoseconds_are_turned_into_clock_ticks() {
    assert_eq!(to_clock_ticks(1000, 1, 1), 1000);
    assert_eq!(to_clock_ticks(5_333_333, 125, 3), 127_999);
    assert_eq!(to_clock_ticks(u64::MAX, 1, 1), u32::MAX, "the ticks are cut to 32 bits");
    assert_eq!(to_clock_ticks(u64::MAX, 1, u32::MAX), 1, "no overflow on the way");
}

#[test]
fn a_wait_polls_until_the_process_is_reaped() {
    let none = WaitResult::default();
    assert_eq!(
        wait_step(77, 77, 3 << 8, false),
        WaitPoll::Done(WaitResult { exited: true, exit_code: 3, signaled: false, signal: 0 })
    );
    assert_eq!(wait_step(77, 77, 9, true), WaitPoll::Done(WaitResult { exited: false, exit_code: 0, signaled: true, signal: 9 }));
    assert_eq!(wait_step(-1, 77, 0, false), WaitPoll::Done(none), "the call failed");
    assert_eq!(wait_step(0, 77, 0, true), WaitPoll::Done(none), "the deadline has passed");
    assert_eq!(wait_step(0, 77, 0, false), WaitPoll::Sleep);
    assert_eq!(wait_step(78, 77, 0, false), WaitPoll::Sleep);
    assert_eq!(wait_step(-1, u32::MAX, 0, false), WaitPoll::Done(WaitResult { exited: true, ..none }));
}

#[test]
fn a_shutdown_goes_step_by_step() {
    let none = WaitResult::default();
    assert_eq!(shutdown_begin(&ProcessHandle::invalid()), ShutdownStep::Done(none));
    assert_eq!(wait_begin(&ProcessHandle::invalid()), Some(none));
    assert_eq!(wait_begin(&ProcessHandle::spawned(5, "n", "e")), None);
    assert_eq!(shutdown_begin(&ProcessHandle::spawned(5, "n", "e")), ShutdownStep::RequestAndWait);
    assert_eq!(shutdown_after_grace(none, true), ShutdownStep::KillAndWait);
    assert_eq!(shutdown_after_grace(none, false), ShutdownStep::Done(none));
    let exited = WaitResult { exited: true, exit_code: 1, signaled: false, signal: 0 };
    assert_eq!(shutdown_after_grace(exited, true), ShutdownStep::Done(exited));
}

#[test]
fn service_registry_refuses_what_would_break_the_table() {
    let mut reg = ServiceRegistry::new();
    assert!(!reg.register_service_as("svc", "c", "r", 0, NOW, &ALL_ALIVE), "no owner");
    assert!(!reg.register_service_as("svc", "c", "r", -5, NOW, &ALL_ALIVE), "no owner");
    assert!(!reg.register_service_as("\0svc", "c", "r", OWN_PID, NOW, &ALL_ALIVE), "no name");
    assert!(!reg.register_service_as("", "c", "r", OWN_PID, NOW, &ALL_ALIVE), "no name");
    assert_eq!(reg.count(), 0);
    for i in 0..32 {
        let e = reg.entry(i);
        assert_eq!(e.pid, 0);
        assert_eq!(e.name, [0u8; 64]);
    }
    assert!(reg.register_service_as("svc", "c", "r", OWN_PID, NOW, &ALL_ALIVE));
    for i in 0..32 {
        let e = reg.entry(i);
        assert_eq!(e.pid == 0, e.name[0] == 0, "entry {i}");
    }
}

#[test]
fn service_registry_full_table_is_left_alone() {
    let mut reg = ServiceRegistry::new();
    for i in 0..32 {
        assert!(reg.register_service_as(&format!("svc{i}"), "c", "r", 100 + i, NOW, &ALL_ALIVE));
    }
    let before: Vec<(i32, [u8; 64])> = (0..32).map(|i| (reg.entry(i).pid, reg.entry(i).name)).collect();
    assert!(!reg.register_service_as("other", "c", "r", 999, NOW, &ALL_ALIVE));
    let after: Vec<(i32, [u8; 64])> = (0..32).map(|i| (reg.entry(i).pid, reg.entry(i).name)).collect();
    assert_eq!(before, after);
}
