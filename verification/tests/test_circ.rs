use libipc::circ::{BroadcastConnHead, UnicastConnHead};

fn new_broadcast() -> BroadcastConnHead {
    let mut head = BroadcastConnHead::new();
    head.init();
    head
}

fn new_unicast() -> UnicastConnHead {
    let mut head = UnicastConnHead::new();
    head.init();
    head
}

#[test]
fn broadcast_initial_state() {
    let mut h = new_broadcast();
    assert_eq!(h.connections(), 0);
    assert_eq!(h.conn_count(), 0);
}

#[test]
fn broadcast_connect_single() {
    let mut h = new_broadcast();
    let id = h.connect();
    assert_ne!(id, 0);
    assert_eq!(id, 1); // first bit
    assert!(h.connected(id));
    assert_eq!(h.conn_count(), 1);
}

#[test]
fn broadcast_connect_multiple() {
    let mut h = new_broadcast();
    let id1 = h.connect();
    let id2 = h.connect();
    let id3 = h.connect();

    assert_eq!(id1, 0b001);
    assert_eq!(id2, 0b010);
    assert_eq!(id3, 0b100);

    assert!(h.connected(id1));
    assert!(h.connected(id2));
    assert!(h.connected(id3));
    assert_eq!(h.conn_count(), 3);
    assert_eq!(h.connections(), 0b111);
}

#[test]
fn broadcast_connect_full() {
    let mut h = new_broadcast();
    for i in 0..32 {
        let id = h.connect();
        assert_ne!(id, 0, "bit {i} should succeed");
    }
    assert_eq!(h.conn_count(), 32);

    // 33rd connection should fail
    for _ in 0..100 {
        assert_eq!(h.connect(), 0, "full — should return 0");
    }
}

#[test]
fn broadcast_disconnect() {
    let mut h = new_broadcast();
    let id1 = h.connect();
    let id2 = h.connect();
    assert_eq!(h.conn_count(), 2);

    h.disconnect(id1);
    assert!(!h.connected(id1));
    assert!(h.connected(id2));
    assert_eq!(h.conn_count(), 1);
}

#[test]
fn broadcast_disconnect_reconnect() {
    let mut h = new_broadcast();
    let id1 = h.connect(); // bit 0
    let _id2 = h.connect(); // bit 1

    h.disconnect(id1); // free bit 0
    let id3 = h.connect(); // should reuse bit 0
    assert_eq!(id3, id1, "should reuse freed bit");
    assert_eq!(h.conn_count(), 2);
}

#[test]
fn broadcast_full_free_refill() {
    let mut h = new_broadcast();
    let mut ids = Vec::new();
    for _ in 0..32 {
        ids.push(h.connect());
    }
    assert_eq!(h.connect(), 0); // full

    // Free slot 10
    let freed = ids[10];
    h.disconnect(freed);
    assert_eq!(h.conn_count(), 31);

    // Reconnect — should get the same bit back
    let new_id = h.connect();
    assert_eq!(new_id, freed);
    assert_eq!(h.conn_count(), 32);

    // Full again
    assert_eq!(h.connect(), 0);
}

#[test]
fn unicast_initial_state() {
    let mut h = new_unicast();
    assert_eq!(h.connections(), 0);
    assert_eq!(h.conn_count(), 0);
}

#[test]
fn unicast_connect_single() {
    let mut h = new_unicast();
    let id = h.connect();
    assert_eq!(id, 1);
    assert!(h.connected(id));
    assert_eq!(h.conn_count(), 1);
}

#[test]
fn unicast_connect_multiple() {
    let mut h = new_unicast();
    for i in 1..=100 {
        let id = h.connect();
        assert_eq!(id, i);
    }
    assert_eq!(h.conn_count(), 100);
}

#[test]
fn unicast_disconnect() {
    let mut h = new_unicast();
    let id = h.connect();
    assert_eq!(h.conn_count(), 1);

    h.disconnect(id);
    assert_eq!(h.conn_count(), 0);
    assert!(!h.connected(0));
}

#[test]
fn unicast_disconnect_all() {
    let mut h = new_unicast();
    for _ in 0..5 {
        h.connect();
    }
    assert_eq!(h.conn_count(), 5);

    h.disconnect(!0u32); // disconnect all
    assert_eq!(h.conn_count(), 0);
}
