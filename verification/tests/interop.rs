#[test]
fn shm_name_fnv1a_matches_cpp() {
    assert_eq!(libipc::shm_name::fnv1a_64(b""), 0xcbf29ce484222325);
    assert_eq!(libipc::shm_name::fnv1a_64(b"a"), 0xaf63dc4c8601ec8c);

    let name = libipc::shm_name::make_shm_name("foo");
    assert_eq!(&name, "/foo");

    let name2 = libipc::shm_name::make_shm_name("/bar");
    assert_eq!(&name2, "/bar");
}

#[test]
fn shm_create_write_read() {
    let mut space = libipc::ShmSpace::new();
    let name = "test_rs_shm_rw";
    space.unlink_by_name(name);

    let shm = space.acquire(name, 4096, libipc::ShmOpenMode::CreateOrOpen).expect("failed to acquire shm");
    assert!(shm.mapped_size() >= 4096);
    assert!(space.ref_count(&shm) >= 1);

    let data = b"hello from rust";
    assert!(space.write(&shm, data));
    assert_eq!(&space.read(&shm)[..data.len()], data);

    space.release(shm);
}

#[test]
fn shm_ref_counting() {
    let mut space = libipc::ShmSpace::new();
    let name = "test_rs_shm_ref";
    space.unlink_by_name(name);

    let shm1 = space.acquire(name, 1024, libipc::ShmOpenMode::CreateOrOpen).expect("acquire 1");
    assert_eq!(space.ref_count(&shm1), 1);

    let shm2 = space.acquire(name, 1024, libipc::ShmOpenMode::CreateOrOpen).expect("acquire 2");
    assert_eq!(space.ref_count(&shm2), 2);
    assert_eq!(space.ref_count(&shm1), 2);

    space.release(shm2);
    assert_eq!(space.ref_count(&shm1), 1);

    space.release(shm1);
}
