use libipc::channel::{
    native_byte_order, parse_storage_ref, storage_ref, u32_bytes, u32_of, ByteOrder, ChanInner, ChanShared,
};
use libipc::chunk_storage::calc_chunk_size;
use libipc::ring::EP_INCR;
use libipc::{Channel, ChannelError, IpcBuffer, Mode, Route, ShmOpenMode, ShmSpace};

// ========== Route ==========

#[test]
fn route_construction() {
    let mut shared = ChanShared::new();
    let r = Route::connect(&mut shared, "route_ctor", Mode::Sender).expect("connect");
    assert_eq!(r.name(), "route_ctor");
    assert_eq!(r.mode(), Mode::Sender);
}

#[test]
fn route_with_prefix() {
    let mut shared = ChanShared::new();
    let r = Route::connect_with_prefix(&mut shared, "my_prefix", "route_prefix", Mode::Sender)
        .expect("connect");
    assert_eq!(r.name(), "route_prefix");
}

#[test]
fn route_clear_storage() {
    let mut space = ShmSpace::new();
    Route::clear_storage(&mut space, "route_clear_storage");
    space.acquire("QU_CONN__route_clear_storage", 20504, ShmOpenMode::CreateOrOpen).expect("ring");
    space.acquire("CA_CONN__route_clear_storage", 4, ShmOpenMode::CreateOrOpen).expect("counter");
    assert!(space.is_linked("QU_CONN__route_clear_storage"));
    Route::clear_storage(&mut space, "route_clear_storage");
    assert!(!space.is_linked("QU_CONN__route_clear_storage"));
    assert!(!space.is_linked("CA_CONN__route_clear_storage"));
}

#[test]
fn route_clear_storage_with_prefix() {
    let mut space = ShmSpace::new();
    Route::clear_storage_with_prefix(&mut space, "test", "route_clear_prefix");
    space.acquire("test_QU_CONN__route_clear_prefix", 20504, ShmOpenMode::Create).expect("ring");
    space.acquire("test_WT_CONN__route_clear_prefix_WAITER_COND_", 48, ShmOpenMode::Create).expect("cond");
    space.acquire("test_CH_CONN__4112", 131624, ShmOpenMode::Create).expect("pool");
    space.acquire("QU_CONN__route_clear_prefix", 20504, ShmOpenMode::Create).expect("other ring");
    Route::clear_storage_with_prefix(&mut space, "test", "route_clear_prefix");
    assert!(!space.is_linked("test_QU_CONN__route_clear_prefix"));
    assert!(!space.is_linked("test_WT_CONN__route_clear_prefix_WAITER_COND_"));
    assert!(!space.is_linked("test_CH_CONN__4112"));
    assert!(space.is_linked("QU_CONN__route_clear_prefix"));
}

#[test]
fn clear_storage_twice_is_a_no_op() {
    let mut space = ShmSpace::new();
    space.acquire("QU_CONN__twice", 20504, ShmOpenMode::Create).expect("ring");
    space.acquire("RD_CONN__twice_WAITER_LOCK_", 40, ShmOpenMode::Create).expect("lock");
    space.acquire("unrelated", 16, ShmOpenMode::Create).expect("unrelated");
    Channel::clear_storage(&mut space, "twice");
    let linked_after_first: Vec<bool> =
        ["QU_CONN__twice", "RD_CONN__twice_WAITER_LOCK_", "unrelated"].iter().map(|n| space.is_linked(n)).collect();
    let count_after_first = space.len();
    Channel::clear_storage(&mut space, "twice");
    let linked_after_second: Vec<bool> =
        ["QU_CONN__twice", "RD_CONN__twice_WAITER_LOCK_", "unrelated"].iter().map(|n| space.is_linked(n)).collect();
    assert_eq!(linked_after_first, vec![false, false, true]);
    assert_eq!(linked_after_second, linked_after_first);
    assert_eq!(space.len(), count_after_first);
}

#[test]
fn route_send_without_receiver() {
    let mut shared = ChanShared::new();
    let mut r = Route::connect(&mut shared, "route_send_no_recv", Mode::Sender).expect("connect");
    let sent = r.send(&mut shared, b"test").expect("send");
    assert!(!sent);
    assert_eq!(shared.ring().write_cursor(), 0);
}

#[test]
fn route_try_send_without_receiver() {
    let mut shared = ChanShared::new();
    let mut r = Route::connect(&mut shared, "route_try_send_no_recv", Mode::Sender).expect("connect");
    let sent = r.try_send(&mut shared, b"test").expect("try_send");
    assert!(!sent);
}

#[test]
fn route_try_recv_empty() {
    let mut shared = ChanShared::new();
    let mut r = Route::connect(&mut shared, "route_try_recv_empty", Mode::Receiver).expect("connect");
    let buf = r.try_recv(&mut shared).expect("try_recv");
    assert!(buf.is_empty());
}

#[test]
fn route_recv_count() {
    let mut shared = ChanShared::new();
    let sender = Route::connect(&mut shared, "route_recv_count", Mode::Sender).expect("sender");
    assert_eq!(sender.recv_count(&shared), 0);
    let _recv = Route::connect(&mut shared, "route_recv_count", Mode::Receiver).expect("receiver");
    assert_eq!(sender.recv_count(&shared), 1);
}

#[test]
fn route_send_recv_buffer() {
    let mut shared = ChanShared::new();
    let mut rx = Route::connect(&mut shared, "route_send_recv_buf", Mode::Receiver).expect("receiver");
    let mut tx = Route::connect(&mut shared, "route_send_recv_buf", Mode::Sender).expect("sender");
    assert!(tx.wait_for_recv(&shared, 1));
    let buf = IpcBuffer::from_slice(b"Hello via buffer");
    assert!(tx.send_buf(&mut shared, &buf).expect("send"));
    let got = rx.recv(&mut shared).expect("recv");
    assert_eq!(got.data(), b"Hello via buffer");
}

#[test]
fn route_send_recv_string() {
    let mut shared = ChanShared::new();
    let mut rx = Route::connect(&mut shared, "route_send_recv_str", Mode::Receiver).expect("receiver");
    let mut tx = Route::connect(&mut shared, "route_send_recv_str", Mode::Sender).expect("sender");
    assert!(tx.send_str(&mut shared, "Hello string").expect("send"));
    let got = rx.recv(&mut shared).expect("recv");
    assert_eq!(got.data(), b"Hello string\0");
}

#[test]
fn route_send_recv_raw() {
    let mut shared = ChanShared::new();
    let mut rx = Route::connect(&mut shared, "route_send_recv_raw", Mode::Receiver).expect("receiver");
    let mut tx = Route::connect(&mut shared, "route_send_recv_raw", Mode::Sender).expect("sender");
    let data = [0xDEu8, 0xAD, 0xBE, 0xEF, 0x00, 0x01];
    assert!(tx.send(&mut shared, &data).expect("send"));
    let got = rx.recv(&mut shared).expect("recv");
    assert_eq!(got.data(), &data);
}

#[test]
fn route_wait_for_recv() {
    let mut shared = ChanShared::new();
    let tx = Route::connect(&mut shared, "route_wait_recv", Mode::Sender).expect("sender");
    assert!(!tx.wait_for_recv(&shared, 1));
    let _rx = Route::connect(&mut shared, "route_wait_recv", Mode::Receiver).expect("receiver");
    assert!(tx.wait_for_recv(&shared, 1));
    assert!(!tx.wait_for_recv(&shared, 2));
}

#[test]
fn route_one_sender_multiple_receivers() {
    let mut shared = ChanShared::new();
    let mut receivers = Vec::new();
    for _ in 0..3 {
        receivers.push(Route::connect(&mut shared, "route_1_to_n", Mode::Receiver).expect("receiver"));
    }
    let mut tx = Route::connect(&mut shared, "route_1_to_n", Mode::Sender).expect("sender");
    assert!(tx.wait_for_recv(&shared, 3));
    assert_eq!(shared.ring().sender_count(), 1);

    assert!(tx.send(&mut shared, b"Broadcast").expect("send"));

    let mut bits = 0u32;
    for rx in receivers.iter_mut() {
        assert_eq!(rx.conn_id().count_ones(), 1);
        assert_eq!(bits & rx.conn_id(), 0, "each subscriber holds a bit of its own");
        bits |= rx.conn_id();
        let got = rx.recv(&mut shared).expect("recv");
        assert_eq!(got.data(), b"Broadcast");
        assert_eq!(got.len(), 9);
        let again = rx.recv(&mut shared).expect("recv");
        assert!(again.is_empty(), "the message comes exactly once");
    }
    assert_eq!(bits, 0b111);
    assert_eq!(shared.ring().connections(), 0b111);

    tx.disconnect(&mut shared);
    assert_eq!(shared.ring().sender_count(), 0);
}

#[test]
fn route_large_message() {
    let mut shared = ChanShared::new();
    // a message larger than one slot
    let data: Vec<u8> = (0..200).map(|i| (i % 256) as u8).collect();

    let mut r = Route::connect(&mut shared, "route_large_msg", Mode::Receiver).expect("receiver");
    let mut s = Route::connect(&mut shared, "route_large_msg", Mode::Sender).expect("sender");
    assert!(s.wait_for_recv(&shared, 1));
    assert!(s.send(&mut shared, &data).expect("send"));
    let buf = r.recv(&mut shared).expect("recv");

    assert_eq!(buf.data(), &data[..]);
}

#[test]
fn a_message_of_4096_bytes_takes_one_chunk_and_gives_it_back() {
    let mut shared = ChanShared::new();
    assert!(shared.provision(4096));
    let chunk_size = calc_chunk_size(4096);
    assert_eq!(chunk_size, 4112);
    let pool_at = shared.pool_index(chunk_size).expect("pool");
    assert_eq!(shared.pool(pool_at).free_count(), 32);

    let mut rx = Route::connect(&mut shared, "route_large", Mode::Receiver).expect("receiver");
    let mut tx = Route::connect(&mut shared, "route_large", Mode::Sender).expect("sender");
    let data = vec![0xCDu8; 4096];
    assert!(tx.send(&mut shared, &data).expect("send"));
    assert_eq!(shared.ring().write_cursor(), 1, "one slot carries the reference");
    assert_eq!(shared.pool(pool_at).free_count(), 31, "one chunk is taken during the send");

    let got = rx.recv(&mut shared).expect("recv");
    assert_eq!(got.len(), 4096);
    assert!(got.data().iter().all(|&b| b == 0xCD));
    assert_eq!(shared.pool(pool_at).free_count(), 32, "the chunk is back after the receive");
}

#[test]
fn route_multiple_messages() {
    let mut shared = ChanShared::new();
    let mut rx = Route::connect(&mut shared, "route_multi", Mode::Receiver).expect("receiver");
    let mut tx = Route::connect(&mut shared, "route_multi", Mode::Sender).expect("sender");
    for i in 0..10u32 {
        let msg = format!("msg_{i}");
        assert!(tx.send(&mut shared, msg.as_bytes()).expect("send"));
    }
    for i in 0..10u32 {
        let got = rx.recv(&mut shared).expect("recv");
        assert_eq!(got.data(), format!("msg_{i}").as_bytes());
    }
    assert!(rx.recv(&mut shared).expect("recv").is_empty());
}

#[test]
fn buffer_send_recv() {
    let mut shared = ChanShared::new();
    let mut rx = Route::connect(&mut shared, "buffer_send_recv", Mode::Receiver).expect("receiver");
    let mut tx = Route::connect(&mut shared, "buffer_send_recv", Mode::Sender).expect("sender");
    let bytes: Vec<u8> = (0..=255u8).collect();
    assert!(tx.send_buf(&mut shared, &IpcBuffer::from_vec(bytes.clone())).expect("send"));
    let got = rx.recv(&mut shared).expect("recv");
    assert_eq!(got.to_vec(), bytes);
}

// ========== Channel ==========

#[test]
fn channel_construction() {
    let mut shared = ChanShared::new();
    let c = Channel::connect(&mut shared, "channel_ctor", Mode::Sender).expect("connect");
    assert_eq!(c.name(), "channel_ctor");
}

#[test]
fn channel_clear_storage() {
    let mut space = ShmSpace::new();
    space.acquire("CC_CONN__channel_clear_WAITER_COND_", 48, ShmOpenMode::Create).expect("cond");
    Channel::clear_storage(&mut space, "channel_clear");
    assert!(!space.is_linked("CC_CONN__channel_clear_WAITER_COND_"));
}

#[test]
fn channel_send_recv() {
    let mut shared = ChanShared::new();
    let mut rx = Channel::connect(&mut shared, "channel_send_recv", Mode::Receiver).expect("receiver");
    let mut tx = Channel::connect(&mut shared, "channel_send_recv", Mode::Sender).expect("sender");
    assert!(tx.send_str(&mut shared, "Channel message").expect("send"));
    let got = rx.recv(&mut shared).expect("recv");
    assert_eq!(got.data(), b"Channel message\0");
}

#[test]
fn channel_multiple_senders() {
    let mut shared = ChanShared::new();
    let mut rx = Channel::connect(&mut shared, "channel_two_senders", Mode::Receiver).expect("receiver");
    let mut a = Channel::connect(&mut shared, "channel_two_senders", Mode::Sender).expect("sender a");
    let mut b = Channel::connect(&mut shared, "channel_two_senders", Mode::Sender).expect("sender b");
    assert_ne!(a.cc_id(), b.cc_id());
    assert_ne!(a.cc_id(), rx.cc_id());
    assert_eq!(shared.ring().sender_count(), 2);

    assert!(a.send(&mut shared, b"A-msg").expect("send a"));
    assert!(b.send(&mut shared, b"B-msg").expect("send b"));

    let first = rx.recv(&mut shared).expect("recv");
    let second = rx.recv(&mut shared).expect("recv");
    let mut got = vec![first.to_vec(), second.to_vec()];
    got.sort();
    assert_eq!(got, vec![b"A-msg".to_vec(), b"B-msg".to_vec()]);
    assert!(rx.recv(&mut shared).expect("recv").is_empty());
}

#[test]
fn channel_multiple_senders_receivers() {
    let mut shared = ChanShared::new();
    let mut receivers = Vec::new();
    for _ in 0..2 {
        receivers.push(Channel::connect(&mut shared, "channel_n_to_n", Mode::Receiver).expect("receiver"));
    }
    let mut senders = Vec::new();
    for _ in 0..2 {
        senders.push(Channel::connect(&mut shared, "channel_n_to_n", Mode::Sender).expect("sender"));
    }
    for round in 0..5u32 {
        for (s, tx) in senders.iter_mut().enumerate() {
            let msg = format!("s{s}_m{round}");
            assert!(tx.send(&mut shared, msg.as_bytes()).expect("send"));
        }
    }
    for rx in receivers.iter_mut() {
        for round in 0..5u32 {
            for s in 0..2 {
                let got = rx.try_recv(&mut shared).expect("recv");
                assert_eq!(got.data(), format!("s{s}_m{round}").as_bytes());
            }
        }
        assert!(rx.try_recv(&mut shared).expect("recv").is_empty());
    }
}

#[test]
fn channel_try_send_try_recv() {
    let mut shared = ChanShared::new();
    let mut rx = Channel::connect(&mut shared, "channel_try", Mode::Receiver).expect("receiver");
    let mut tx = Channel::connect(&mut shared, "channel_try", Mode::Sender).expect("sender");
    assert!(rx.try_recv(&mut shared).expect("try_recv").is_empty());
    assert!(tx.try_send(&mut shared, b"Try message").expect("try_send"));
    let got = rx.try_recv(&mut shared).expect("try_recv");
    assert_eq!(got.data(), b"Try message");
}

#[test]
fn channel_send_timeout() {
    let mut shared = ChanShared::new();
    let mut tx = Channel::connect(&mut shared, "channel_send_timeout", Mode::Sender).expect("sender");
    let sent = tx.send(&mut shared, b"timeout test").expect("send");
    assert!(!sent, "nobody is there to receive");
}

// ========== Modes and errors ==========

#[test]
fn a_receiver_cannot_send_and_a_sender_cannot_receive() {
    let mut shared = ChanShared::new();
    let mut rx = Route::connect(&mut shared, "modes", Mode::Receiver).expect("receiver");
    let mut tx = Route::connect(&mut shared, "modes", Mode::Sender).expect("sender");
    assert_eq!(rx.send(&mut shared, b"x"), Err(ChannelError::NotSender));
    assert!(matches!(tx.recv(&mut shared), Err(ChannelError::NotReceiver)));
    assert_eq!(rx.send(&mut shared, b""), Ok(false), "the empty message is refused before the mode is looked at");
    assert_eq!(tx.send(&mut shared, b""), Ok(false));
}

#[test]
fn the_33rd_subscriber_is_refused() {
    let mut shared = ChanShared::new();
    let mut receivers = Vec::new();
    for i in 0..32 {
        let rx = Route::connect(&mut shared, "full", Mode::Receiver).expect("receiver");
        assert_eq!(rx.conn_id(), 1u32 << i);
        receivers.push(rx);
    }
    assert_eq!(shared.ring().connections(), u32::MAX);
    assert_eq!(shared.ring().recv_count(), 32);
    assert!(matches!(Route::connect(&mut shared, "full", Mode::Receiver), Err(ChannelError::TooManyReceivers)));
    assert_eq!(shared.ring().connections(), u32::MAX);
    // a sender is still welcome
    assert!(Route::connect(&mut shared, "full", Mode::Sender).is_ok());
    // one leaves, and its bit is handed out again
    let gone = receivers.remove(10);
    let bit = gone.conn_id();
    gone.disconnect(&mut shared);
    assert_eq!(shared.ring().recv_count(), 31);
    let back = Route::connect(&mut shared, "full", Mode::Receiver).expect("receiver");
    assert_eq!(back.conn_id(), bit);
}

#[test]
fn endpoint_identities_wrap_past_zero() {
    let mut shared = ChanShared::with_identity_counter(u32::MAX - 1);
    let a = Route::connect(&mut shared, "wrap", Mode::Sender).expect("a");
    let b = Route::connect(&mut shared, "wrap", Mode::Sender).expect("b");
    let c = Route::connect(&mut shared, "wrap", Mode::Sender).expect("c");
    assert_eq!(a.cc_id(), u32::MAX);
    assert_eq!(b.cc_id(), 1, "zero is skipped");
    assert_eq!(c.cc_id(), 2);
}

// ========== Inline, fragments, chunks ==========

fn roundtrip(shared: &mut ChanShared, len: usize) -> (u32, Vec<u8>) {
    let mut rx = Route::connect(shared, "roundtrip", Mode::Receiver).expect("receiver");
    let mut tx = Route::connect(shared, "roundtrip", Mode::Sender).expect("sender");
    let data: Vec<u8> = (0..len).map(|i| (i * 7 + 3) as u8).collect();
    let before = shared.ring().write_cursor();
    assert!(tx.send(shared, &data).expect("send"));
    let slots = shared.ring().write_cursor().wrapping_sub(before);
    let got = rx.recv(shared).expect("recv");
    assert_eq!(got.data(), data.as_slice());
    (slots, got.into_vec())
}

#[test]
fn a_48_byte_payload_round_trips_inline() {
    let mut shared = ChanShared::new();
    let (slots, got) = roundtrip(&mut shared, 48);
    assert_eq!(slots, 1);
    assert_eq!(got.len(), 48);
}

#[test]
fn a_64_byte_payload_takes_one_slot_and_65_bytes_take_two() {
    let mut shared = ChanShared::new();
    assert_eq!(roundtrip(&mut shared, 64).0, 1);
    assert_eq!(roundtrip(&mut shared, 65).0, 2);
    assert_eq!(roundtrip(&mut shared, 1).0, 1);
}

#[test]
fn a_200_byte_payload_round_trips_as_fragments_without_a_pool() {
    let mut shared = ChanShared::new();
    assert_eq!(shared.pool_count(), 0);
    let (slots, got) = roundtrip(&mut shared, 200);
    assert_eq!(slots, 4, "64 + 64 + 64 + 8 bytes");
    assert_eq!(got.len(), 200);
}

#[test]
fn a_4096_byte_payload_round_trips_through_the_chunk_pool() {
    let mut shared = ChanShared::new();
    assert!(shared.provision(4096));
    let (slots, got) = roundtrip(&mut shared, 4096);
    assert_eq!(slots, 1);
    assert_eq!(got.len(), 4096);
}

#[test]
fn a_pool_serves_every_payload_of_its_chunk_size() {
    let mut shared = ChanShared::new();
    assert!(shared.provision(100));
    assert_eq!(shared.pool_count(), 1);
    assert!(shared.provision(1024), "the same chunk size: no second pool");
    assert_eq!(shared.pool_count(), 1);
    assert_eq!(roundtrip(&mut shared, 1000).0, 1);
    assert_eq!(roundtrip(&mut shared, 1025).0, 17, "the next chunk size has no pool");
}

#[test]
fn an_exhausted_pool_falls_back_to_fragments() {
    let mut shared = ChanShared::new();
    assert!(shared.provision(128));
    let at = shared.pool_index(calc_chunk_size(128)).expect("pool");
    let mut rx = Route::connect(&mut shared, "exhaust", Mode::Receiver).expect("receiver");
    let mut tx = Route::connect(&mut shared, "exhaust", Mode::Sender).expect("sender");
    let data = vec![7u8; 100];
    for i in 0..32 {
        assert!(tx.send(&mut shared, &data).expect("send"));
        assert_eq!(shared.pool(at).free_count(), 31 - i);
    }
    assert_eq!(shared.ring().write_cursor(), 32);
    assert!(tx.send(&mut shared, &data).expect("send"));
    assert_eq!(shared.ring().write_cursor(), 34, "two fragments");
    for _ in 0..33 {
        assert_eq!(rx.recv(&mut shared).expect("recv").data(), data.as_slice());
    }
    assert_eq!(shared.pool(at).free_count(), 32);
}

#[test]
fn own_messages_are_suppressed() {
    // two endpoints that share an identity stand for one endpoint that
    // sends and receives
    let mut shared = ChanShared::with_identity_counter(6);
    let mut rx = ChanInner::open(&mut shared, "", "echo", Mode::Receiver).expect("receiver");
    let mut shared_again = ChanShared::with_identity_counter(6);
    let tx = ChanInner::open(&mut shared_again, "", "echo", Mode::Sender).expect("sender");
    assert_eq!(rx.cc_id(), tx.cc_id());
    let other = ChanInner::open(&mut shared, "", "echo", Mode::Sender).expect("other");
    assert!(tx.send(&mut shared, b"mine").expect("send"));
    assert!(other.send(&mut shared, b"theirs").expect("send"));
    assert!(rx.recv(&mut shared).expect("recv").is_empty(), "the own message is dropped");
    assert_eq!(rx.read_cursor(), 1, "and its slot is passed");
    assert_eq!(rx.recv(&mut shared).expect("recv").data(), b"theirs");
}

// ========== A full ring ==========

#[test]
fn the_257th_message_evicts_the_subscriber_that_does_not_read() {
    let mut shared = ChanShared::new();
    let lazy = Route::connect(&mut shared, "evict", Mode::Receiver).expect("lazy");
    let mut busy = Route::connect(&mut shared, "evict", Mode::Receiver).expect("busy");
    let mut tx = Route::connect(&mut shared, "evict", Mode::Sender).expect("sender");
    assert_eq!(lazy.conn_id(), 1);
    assert_eq!(busy.conn_id(), 2);

    for i in 0..256u32 {
        assert!(tx.send(&mut shared, &i.to_le_bytes()).expect("send"), "message {i}");
        assert_eq!(busy.recv(&mut shared).expect("recv").data(), &i.to_le_bytes());
        assert_eq!(shared.ring().write_cursor(), i + 1, "each slot is filled once");
    }
    assert_eq!(shared.ring().epoch(), 0);
    assert_eq!(shared.ring().connections(), 0b11);
    assert!(shared.ring().head_busy(), "the first slot still waits for the lazy subscriber");

    assert!(tx.send(&mut shared, b"257").expect("send"), "the send goes through");
    assert_eq!(shared.ring().epoch(), EP_INCR, "the epoch has moved on");
    assert_eq!(shared.ring().connections(), 0b10, "the lazy subscriber is evicted");
    assert_eq!(tx.recv_count(&shared), 1);
    assert_eq!(busy.recv(&mut shared).expect("recv").data(), b"257");
}

#[test]
fn a_full_ring_with_one_lazy_subscriber_ends_without_subscribers() {
    let mut shared = ChanShared::new();
    let _lazy = Route::connect(&mut shared, "alone", Mode::Receiver).expect("lazy");
    let mut tx = Route::connect(&mut shared, "alone", Mode::Sender).expect("sender");
    for i in 0..256u32 {
        assert!(tx.send(&mut shared, &i.to_le_bytes()).expect("send"));
    }
    assert!(!tx.send(&mut shared, b"257").expect("send"), "nobody is left to send to");
    assert_eq!(shared.ring().connections(), 0);
    assert_eq!(shared.ring().epoch(), EP_INCR);
    assert_eq!(shared.ring().write_cursor(), 256);
}

#[test]
fn a_message_longer_than_the_ring_evicts_its_reader() {
    let mut shared = ChanShared::new();
    let _rx = Route::connect(&mut shared, "too_long", Mode::Receiver).expect("receiver");
    let mut tx = Route::connect(&mut shared, "too_long", Mode::Sender).expect("sender");
    let data = vec![1u8; 64 * 256 + 1];
    assert!(!tx.send(&mut shared, &data).expect("send"));
    assert_eq!(shared.ring().write_cursor(), 256);
    assert_eq!(shared.ring().connections(), 0);
}

// ========== Byte order ==========

#[test]
fn numbers_stand_in_the_given_byte_order() {
    assert_eq!(u32_bytes(ByteOrder::Little, 0x0102_0304), vec![4, 3, 2, 1]);
    assert_eq!(u32_bytes(ByteOrder::Big, 0x0102_0304), vec![1, 2, 3, 4]);
    assert_eq!(u32_of(ByteOrder::Little, &[4, 3, 2, 1]), 0x0102_0304);
    assert_eq!(u32_of(ByteOrder::Big, &[4, 3, 2, 1]), 0x0403_0201);
    assert_eq!(storage_ref(ByteOrder::Big, 7, 4096), vec![0, 0, 0, 7, 0, 0, 0x10, 0]);
    assert_eq!(parse_storage_ref(ByteOrder::Big, &[0, 0, 0, 7, 0, 0, 0x10, 0, 9, 9]), (7, 4096));
    assert_eq!(parse_storage_ref(ByteOrder::Little, &[7, 0, 0, 0, 0, 0x10, 0, 0]), (7, 4096));
}

#[test]
fn the_native_byte_order_is_the_one_of_the_host() {
    let order = native_byte_order();
    let mut want = Vec::new();
    want.extend_from_slice(&0x0102_0304u32.to_ne_bytes());
    want.extend_from_slice(&0x0a0b_0c0du32.to_ne_bytes());
    assert_eq!(storage_ref(order, 0x0102_0304, 0x0a0b_0c0d), want);
    assert_eq!(ChanShared::new().byte_order(), order);
}

#[test]
fn large_messages_round_trip_in_either_byte_order() {
    for order in [ByteOrder::Little, ByteOrder::Big] {
        let mut shared = ChanShared::with_byte_order(order);
        assert!(shared.provision(300));
        let mut rx = Route::connect(&mut shared, "order", Mode::Receiver).expect("receiver");
        let mut tx = Route::connect(&mut shared, "order", Mode::Sender).expect("sender");
        let data: Vec<u8> = (0..300).map(|i| (i % 251) as u8).collect();
        assert!(tx.send(&mut shared, &data).expect("send"));
        assert_eq!(shared.ring().write_cursor(), 1);
        assert_eq!(&shared.ring().slot_data(0)[..8], storage_ref(order, 0, 300).as_slice());
        assert_eq!(rx.recv(&mut shared).expect("recv").data(), data.as_slice());
    }
}
