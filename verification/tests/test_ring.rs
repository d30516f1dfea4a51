use libipc::circ::index_of;
use libipc::ring::{
    claim_word, clear_readers, popcount, ring_shm_size, size_last, size_len, size_storage,
    size_word, slot_busy, Ring, EP_INCR, SIZE_LAST, SIZE_STORAGE,
};

#[test]
fn layout() {
    assert_eq!(ring_shm_size(), 24 + 256 * 80);
    assert_eq!(index_of(0), 0);
    assert_eq!(index_of(255), 255);
    assert_eq!(index_of(256), 0);
    assert_eq!(index_of(0x1234_5678), 0x78);
    assert_eq!(index_of(u32::MAX), 255);
}

#[test]
fn size_words() {
    assert_eq!(size_word(64, false, false), 64);
    assert_eq!(size_word(8, true, false), 0x8000_0008);
    assert_eq!(size_word(8, true, true), 0xC000_0008);
    assert_eq!(size_word(8, true, true), SIZE_LAST | SIZE_STORAGE | 8);
    assert_eq!(size_len(0xC000_0008), 8);
    assert!(size_last(0xC000_0008));
    assert!(size_storage(0xC000_0008));
    assert!(!size_last(0x4000_0001));
    assert!(!size_storage(0x8000_0001));
    assert_eq!(size_len(0x3FFF_FFFF), 0x3FFF_FFFF);
}

#[test]
fn rc_words() {
    assert_eq!(claim_word(0, 0b101), 0b101);
    assert_eq!(claim_word(3 * EP_INCR, 0b101), 0x0000_0003_0000_0005);
    assert_eq!(clear_readers(0x0000_0003_0000_0005, 0b001), 0x0000_0003_0000_0004);
    assert_eq!(clear_readers(0x0000_0003_0000_0004, 0b100), 0x0000_0003_0000_0000);
    assert_eq!(clear_readers(0x0000_0003_0000_0004, 0b010), 0x0000_0003_0000_0004);
}

#[test]
fn a_slot_is_busy_while_a_connected_subscriber_of_this_epoch_has_to_read() {
    let epoch = 2 * EP_INCR;
    assert!(slot_busy(epoch | 0b01, 0b11, epoch));
    assert!(!slot_busy(epoch | 0b01, 0b10, epoch), "the subscriber is gone");
    assert!(!slot_busy(epoch | 0b01, 0b11, epoch + EP_INCR), "the slot is of an earlier epoch");
    assert!(!slot_busy(epoch, 0b11, epoch), "everybody has read");
    assert!(!slot_busy(0, 0, 0));
}

#[test]
fn popcount_counts_bits() {
    assert_eq!(popcount(0), 0);
    assert_eq!(popcount(1), 1);
    assert_eq!(popcount(0b1011), 3);
    assert_eq!(popcount(0x8000_0000), 1);
    assert_eq!(popcount(u32::MAX), 32);
    for x in [0u32, 5, 77, 0xdead_beef, 0x1234_5678, u32::MAX - 1] {
        assert_eq!(popcount(x) as u32, x.count_ones());
    }
}

#[test]
fn subscribers_take_the_lowest_free_bit() {
    let mut ring = Ring::new();
    assert_eq!(ring.connect_receiver(), 1);
    assert_eq!(ring.connect_receiver(), 2);
    assert_eq!(ring.connect_receiver(), 4);
    assert_eq!(ring.disconnect_receiver(2), 0b101);
    assert_eq!(ring.connect_receiver(), 2);
    assert_eq!(ring.connections(), 0b111);
    assert_eq!(ring.recv_count(), 3);
}

#[test]
fn senders_are_counted() {
    let mut ring = Ring::new();
    ring.add_sender();
    ring.add_sender();
    assert_eq!(ring.sender_count(), 2);
    ring.remove_sender();
    assert_eq!(ring.sender_count(), 1);
}

#[test]
fn claim_publish_release() {
    let mut ring = Ring::new();
    assert!(!ring.claim(), "nobody is connected");
    let a = ring.connect_receiver();
    let b = ring.connect_receiver();
    assert!(ring.claim());
    assert_eq!(ring.slot_rc(0), 0b11);
    assert_eq!(ring.write_cursor(), 0, "a claimed slot is not yet published");
    ring.publish(7, b"0123456789", 2, 5, size_word(5, true, false));
    assert_eq!(ring.write_cursor(), 1);
    assert_eq!(&ring.slot_data(0)[..5], b"23456");
    assert_eq!(ring.slot_data(0).len(), 64);
    assert_eq!(ring.slot_cc_id(0), 7);
    assert_eq!(ring.slot_size(0), 0x8000_0005);
    ring.release(0, a);
    assert_eq!(ring.slot_rc(0), 0b10);
    ring.release(0, b);
    assert_eq!(ring.slot_rc(0), 0);
    assert_eq!(ring.slot_rc(256), 0, "cursors wrap at 256");
}

#[test]
fn publishing_keeps_the_rest_of_the_slot() {
    let mut ring = Ring::new();
    ring.connect_receiver();
    assert!(ring.push(1, b"abcdefgh", 0, 8, size_word(8, true, false)));
    for _ in 1..256 {
        ring.release(0, 1);
        assert!(ring.push(1, b"x", 0, 1, size_word(1, true, false)));
    }
    ring.release(0, 1);
    assert!(ring.push(1, b"XY", 0, 2, size_word(2, true, false)));
    assert_eq!(&ring.slot_data(0)[..8], b"XYcdefgh");
}

#[test]
fn forced_push_moves_the_epoch_and_evicts() {
    let mut ring = Ring::new();
    let a = ring.connect_receiver();
    let b = ring.connect_receiver();
    assert!(ring.push(1, b"m", 0, 1, size_word(1, true, false)));
    ring.release(0, b);
    // go once round the ring so that slot 0 is under the write cursor again
    for i in 1..256u32 {
        assert!(ring.push(1, b"m", 0, 1, size_word(1, true, false)));
        ring.release(i, a);
        ring.release(i, b);
    }
    assert!(ring.head_busy());
    assert!(ring.force_push());
    assert_eq!(ring.epoch(), EP_INCR);
    assert_eq!(ring.connections(), b);
    assert_eq!(ring.slot_rc(0), 0);
    assert!(!ring.head_busy());
    assert!(ring.claim());
    assert_eq!(ring.slot_rc(0), EP_INCR | b as u64);
}

#[test]
fn forced_push_on_a_slot_without_readers_only_moves_the_epoch() {
    let mut ring = Ring::new();
    ring.connect_receiver();
    assert!(ring.force_push());
    assert_eq!(ring.epoch(), EP_INCR);
    assert_eq!(ring.connections(), 1);
}
