use libipc::shm::calc_size;
use libipc::{ShmError, ShmOpenMode, ShmSpace};

#[test]
fn acquire_create() {
    let mut space = ShmSpace::new();
    let shm = space.acquire("acquire_create", 1024, ShmOpenMode::Create).expect("acquire create");
    assert!(shm.mapped_size() >= 1024);
    assert_eq!(shm.mapped_size(), 1028);
    assert_eq!(shm.user_size(), 1024);
    assert_eq!(shm.prev_ref_count(), 0);
}

#[test]
fn acquire_open_nonexistent() {
    let mut space = ShmSpace::new();
    let result = space.acquire("acquire_open_fail", 1024, ShmOpenMode::Open);
    assert!(matches!(result, Err(ShmError::NotFound)));
    assert_eq!(space.len(), 0);
}

#[test]
fn acquire_create_or_open() {
    let mut space = ShmSpace::new();
    let shm = space.acquire("acquire_both", 2048, ShmOpenMode::CreateOrOpen).expect("acquire");
    assert!(shm.mapped_size() >= 2048);
}

#[test]
fn get_memory_write_read() {
    let mut space = ShmSpace::new();
    let shm = space.acquire("get_mem", 512, ShmOpenMode::Create).expect("acquire");
    assert!(space.read(&shm).iter().all(|&b| b == 0), "a new region is zero-filled");
    let test_data = b"Shared memory test data";
    assert!(space.write(&shm, test_data));
    assert_eq!(&space.read(&shm)[..test_data.len()], test_data);
    assert_eq!(space.read(&shm).len(), 512);
}

#[test]
fn release_memory_ref_count() {
    let mut space = ShmSpace::new();
    let shm = space.acquire("release", 128, ShmOpenMode::Create).expect("acquire");
    assert_eq!(space.ref_count(&shm), 1);
    space.release(shm);
    assert!(!space.is_linked("release"), "the last user unlinks the region");
}

#[test]
fn reference_count() {
    let mut space = ShmSpace::new();
    let shm1 = space.acquire("ref_count", 512, ShmOpenMode::CreateOrOpen).expect("acquire 1");
    assert_eq!(space.ref_count(&shm1), 1);
    let shm2 = space.acquire("ref_count", 512, ShmOpenMode::CreateOrOpen).expect("acquire 2");
    assert_eq!(space.ref_count(&shm1), 2);
    assert_eq!(space.ref_count(&shm2), 2);
    assert_eq!(shm2.prev_ref_count(), 1);
    space.release(shm2);
    assert_eq!(space.ref_count(&shm1), 1);
    assert!(space.is_linked("ref_count"));
    space.release(shm1);
    assert!(!space.is_linked("ref_count"));
}

#[test]
fn handle_size() {
    let mut space = ShmSpace::new();
    let shm = space.acquire("handle_size", 1000, ShmOpenMode::CreateOrOpen).expect("acquire");
    assert_eq!(shm.user_size(), 1000);
    assert_eq!(shm.mapped_size(), 1004);
    let odd = space.acquire("handle_size_odd", 1001, ShmOpenMode::CreateOrOpen).expect("acquire");
    assert_eq!(odd.mapped_size(), 1008);
}

#[test]
fn calc_size_rounds_up_to_four_and_adds_the_count() {
    assert_eq!(calc_size(1), 8);
    assert_eq!(calc_size(4), 8);
    assert_eq!(calc_size(5), 12);
    assert_eq!(calc_size(20504), 20508);
}

#[test]
fn handle_modes() {
    let mut space = ShmSpace::new();
    let created = space.acquire("handle_modes", 256, ShmOpenMode::Create).expect("create");
    let opened = space.acquire("handle_modes", 256, ShmOpenMode::Open).expect("open");
    let either = space.acquire("handle_modes", 256, ShmOpenMode::CreateOrOpen).expect("either");
    assert_eq!(created.index(), opened.index());
    assert_eq!(created.index(), either.index());
    assert_eq!(space.ref_count(&created), 3);
}

#[test]
fn multiple_handles_shared_data() {
    let mut space = ShmSpace::new();
    let h1 = space.acquire("multi_handle", 512, ShmOpenMode::CreateOrOpen).expect("h1");
    let h2 = space.acquire("multi_handle", 512, ShmOpenMode::CreateOrOpen).expect("h2");
    assert_eq!(h1.index(), h2.index(), "the same name leads to the same region");
    assert!(space.write(&h1, &12345i32.to_ne_bytes()));
    assert_eq!(&space.read(&h2)[..4], &12345i32.to_ne_bytes());
    assert_eq!(space.len(), 1);
}

#[test]
fn large_segment() {
    let mut space = ShmSpace::new();
    let size = 10 * 1024 * 1024;
    let shm = space.acquire("large_segment", size, ShmOpenMode::Create).expect("acquire");
    let pattern: Vec<u8> = (0..1024).map(|i| (i % 256) as u8).collect();
    assert!(space.write(&shm, &pattern));
    assert_eq!(&space.read(&shm)[..1024], pattern.as_slice());
    assert_eq!(space.read(&shm).len(), size);
}

#[test]
fn handle_clear_storage() {
    let mut space = ShmSpace::new();
    let _shm = space.acquire("handle_clear", 256, ShmOpenMode::Create).expect("acquire");
    space.clear_storage("handle_clear");
    assert!(matches!(space.acquire("handle_clear", 256, ShmOpenMode::Open), Err(ShmError::NotFound)));
    space.clear_storage("handle_clear");
    assert_eq!(space.len(), 1, "a second clearing changes nothing");
}

#[test]
fn empty_name_fails() {
    let mut space = ShmSpace::new();
    assert!(matches!(space.acquire("", 256, ShmOpenMode::CreateOrOpen), Err(ShmError::EmptyName)));
}

#[test]
fn zero_size_fails() {
    let mut space = ShmSpace::new();
    assert!(matches!(space.acquire("zero_size", 0, ShmOpenMode::CreateOrOpen), Err(ShmError::ZeroSize)));
    assert!(matches!(space.acquire("", 0, ShmOpenMode::CreateOrOpen), Err(ShmError::EmptyName)));
}

#[test]
fn create_exclusive_fails_if_exists() {
    let mut space = ShmSpace::new();
    let _first = space.acquire("excl", 256, ShmOpenMode::Create).expect("first");
    let second = space.acquire("excl", 256, ShmOpenMode::Create);
    assert!(matches!(second, Err(ShmError::AlreadyExists)));
    assert!(matches!(space.acquire("/excl", 256, ShmOpenMode::Create), Err(ShmError::AlreadyExists)));
}

#[test]
fn open_after_unlink_fails() {
    let mut space = ShmSpace::new();
    let shm = space.acquire("unlink_test", 256, ShmOpenMode::Create).expect("acquire");
    space.unlink_by_name("unlink_test");
    assert!(matches!(space.acquire("unlink_test", 256, ShmOpenMode::Open), Err(ShmError::NotFound)));
    assert!(space.write(&shm, b"still mine"), "the holder keeps the region");
    let fresh = space.acquire("unlink_test", 256, ShmOpenMode::Create).expect("a new region under the name");
    assert_ne!(fresh.index(), shm.index());
    assert!(space.read(&fresh).iter().all(|&b| b == 0));
}

#[test]
fn ref_count_three_handles() {
    let mut space = ShmSpace::new();
    let h1 = space.acquire("ref3", 256, ShmOpenMode::CreateOrOpen).expect("h1");
    let h2 = space.acquire("ref3", 256, ShmOpenMode::CreateOrOpen).expect("h2");
    let h3 = space.acquire("ref3", 256, ShmOpenMode::CreateOrOpen).expect("h3");
    assert_eq!(space.ref_count(&h1), 3);
    space.release(h3);
    assert_eq!(space.ref_count(&h1), 2);
    space.release(h2);
    assert_eq!(space.ref_count(&h1), 1);
}

#[test]
fn data_persistence() {
    let mut space = ShmSpace::new();
    let keeper = space.acquire("persist", 256, ShmOpenMode::Create).expect("keeper");
    {
        let writer = space.acquire("persist", 256, ShmOpenMode::Open).expect("writer");
        assert!(space.write(&writer, b"Persistent data"));
        space.release(writer);
    }
    let reader = space.acquire("persist", 256, ShmOpenMode::Open).expect("reader");
    assert_eq!(&space.read(&reader)[..15], b"Persistent data");
    assert_eq!(space.ref_count(&keeper), 2);
}

#[test]
fn various_sizes() {
    let mut space = ShmSpace::new();
    for &size in &[1usize, 16, 64, 256, 1024, 4096, 65536] {
        let name = format!("various_{size}");
        let shm = space.acquire(&name, size, ShmOpenMode::CreateOrOpen).expect("acquire");
        assert!(shm.mapped_size() >= size);
        assert_eq!(shm.mapped_size() % 4, 0);
        assert_eq!(space.read(&shm).len(), size);
    }
}

#[test]
fn a_buffer_that_does_not_fit_is_refused() {
    let mut space = ShmSpace::new();
    let shm = space.acquire("fit", 8, ShmOpenMode::Create).expect("acquire");
    assert!(space.write(&shm, b"12345678"));
    assert!(!space.write(&shm, b"123456789"));
    assert_eq!(space.read(&shm).as_slice(), b"12345678");
}

#[test]
fn handle_name_and_unlink() {
    let mut space = ShmSpace::new();
    let shm = space.acquire("named", 16, ShmOpenMode::Create).expect("acquire");
    assert_eq!(space.name(&shm).as_slice(), b"/named");
    let with_slash = space.acquire("/other", 16, ShmOpenMode::Create).expect("acquire");
    assert_eq!(space.name(&with_slash).as_slice(), b"/other");
    space.unlink(&shm);
    assert!(!space.is_linked("named"));
    assert!(space.is_linked("other"));
    space.unlink(&shm);
    assert_eq!(space.len(), 2);
}

#[test]
fn handle_with_params() {
    let mut space = ShmSpace::new();
    let shm = space.acquire("handle_ctor", 1024, ShmOpenMode::CreateOrOpen).expect("acquire");
    assert!(shm.mapped_size() >= 1024);
    assert_eq!(shm.index(), 0);
}

#[test]
fn handle_valid() {
    let mut space = ShmSpace::new();
    let shm = space.acquire("handle_valid", 128, ShmOpenMode::CreateOrOpen).expect("acquire");
    assert!(shm.mapped_size() > 0);
    assert!(shm.index() < space.len());
}

#[test]
fn handle_ref() {
    let mut space = ShmSpace::new();
    let shm = space.acquire("handle_ref", 256, ShmOpenMode::CreateOrOpen).expect("acquire");
    assert!(space.ref_count(&shm) > 0);
}

#[test]
fn handle_get_write_read() {
    let mut space = ShmSpace::new();
    let shm = space.acquire("handle_get", 512, ShmOpenMode::CreateOrOpen).expect("acquire");
    let test_str = b"Handle get test";
    assert!(space.write(&shm, test_str));
    assert_eq!(&space.read(&shm)[..test_str.len()], test_str);
}

#[test]
fn write_read_struct() {
    let mut space = ShmSpace::new();
    let shm1 = space.acquire("write_read", 1024, ShmOpenMode::CreateOrOpen).expect("acquire 1");
    let mut record = Vec::new();
    record.extend_from_slice(&42i32.to_ne_bytes());
    let mut text = [0u8; 64];
    let msg = b"Shared memory data";
    text[..msg.len()].copy_from_slice(msg);
    record.extend_from_slice(&text);
    assert!(space.write(&shm1, &record));

    let shm2 = space.acquire("write_read", 1024, ShmOpenMode::CreateOrOpen).expect("acquire 2");
    let bytes = space.read(&shm2);
    assert_eq!(i32::from_ne_bytes(bytes[..4].try_into().unwrap()), 42);
    assert_eq!(&bytes[4..22], b"Shared memory data");
}

#[test]
fn names_are_shortened_where_the_host_limits_them() {
    use_limit(libipc::shm_name::SHM_NAME_MAX_MACOS);
}

fn use_limit(max: usize) {
    let mut space = ShmSpace::with_name_max(max);
    assert_eq!(space.name_max(), 31);
    let long_a = "a_rather_long_name_of_a_region_number_one";
    let long_b = "a_rather_long_name_of_a_region_number_two";
    let a = space.acquire(long_a, 16, ShmOpenMode::Create).expect("a");
    let b = space.acquire(long_b, 16, ShmOpenMode::Create).expect("b");
    assert_ne!(a.index(), b.index(), "the digest tells the names apart");
    assert_eq!(space.name(&a).len(), 31);
    assert_eq!(space.name(&b).len(), 31);
    assert_eq!(&space.name(&a)[..14], b"/a_rather_long");
    assert_eq!(space.name(&a)[14], b'_');
    assert_ne!(space.name(&a), space.name(&b));
    let again = space.acquire(long_a, 16, ShmOpenMode::Open).expect("again");
    assert_eq!(again.index(), a.index());
    let short = space.acquire("short", 16, ShmOpenMode::Create).expect("short");
    assert_eq!(space.name(&short).as_slice(), b"/short");
    space.unlink_by_name(long_a);
    assert!(!space.is_linked(long_a));
    assert!(space.is_linked(long_b));
}

#[test]
fn a_host_without_limit_keeps_long_names() {
    let mut space = ShmSpace::new();
    assert_eq!(space.name_max(), libipc::shm_name::SHM_NAME_UNLIMITED);
    let long = "a_rather_long_name_of_a_region_number_one";
    let h = space.acquire(long, 16, ShmOpenMode::Create).expect("acquire");
    assert_eq!(space.name(&h).len(), long.len() + 1);
}
