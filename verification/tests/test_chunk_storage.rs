use libipc::chunk_storage::{
    acquire_storage, calc_chunk_size, find_storage, recycle_storage, ChunkInfo, ChunkPool,
};

#[test]
fn chunk_sizes() {
    assert_eq!(calc_chunk_size(0), 16);
    assert_eq!(calc_chunk_size(1), 1040);
    assert_eq!(calc_chunk_size(128), 1040);
    assert_eq!(calc_chunk_size(1024), 1040);
    assert_eq!(calc_chunk_size(1025), 2064);
    assert_eq!(calc_chunk_size(4096), 4112);
    assert_eq!(calc_chunk_size(65536), 65552);
    assert_eq!(ChunkInfo::shm_size(4112), 40 + 32 * 4112);
}

#[test]
fn a_fresh_header_is_initialised_on_first_use() {
    let mut info = ChunkInfo::new();
    assert_eq!(info.cursor(), 0);
    assert_eq!(info.free_count(), 32);
    info.ensure_init();
    assert_eq!(info.free_count(), 32);
    assert_eq!(info.acquire(), 0);
    assert_eq!(info.acquire(), 1);
    assert_eq!(info.free_count(), 30);
}

#[test]
fn the_free_list_is_last_in_first_out() {
    let mut info = ChunkInfo::new();
    info.ensure_init();
    let a = info.acquire();
    let b = info.acquire();
    let c = info.acquire();
    assert_eq!((a, b, c), (0, 1, 2));
    info.release(a);
    info.release(c);
    assert_eq!(info.free_count(), 31);
    assert_eq!(info.acquire(), 2);
    assert_eq!(info.acquire(), 0);
    assert_eq!(info.acquire(), 3);
}

#[test]
fn the_pool_is_exhausted_after_32_chunks() {
    let mut info = ChunkInfo::new();
    info.ensure_init();
    for i in 0..32 {
        assert_eq!(info.acquire(), i);
    }
    assert_eq!(info.cursor(), 32);
    assert_eq!(info.free_count(), 0);
    assert_eq!(info.acquire(), -1);
    assert_eq!(info.acquire(), -1);
    info.release(5);
    assert_eq!(info.acquire(), 5);
}

#[test]
fn releasing_what_is_no_chunk_changes_nothing() {
    let mut info = ChunkInfo::new();
    info.ensure_init();
    info.acquire();
    info.release(-1);
    info.release(32);
    assert_eq!(info.free_count(), 31);
    assert_eq!(info.cursor(), 1);
}

#[test]
fn storage_is_acquired_filled_found_and_recycled() {
    let mut pool = ChunkPool::new(calc_chunk_size(100));
    assert_eq!(pool.chunk_size(), 1040);
    let id = acquire_storage(&mut pool, 0b101).expect("a chunk");
    assert_eq!(id, 0);
    assert_eq!(pool.conns(id), 0b101);
    pool.store(id, b"payload");
    let body = find_storage(&pool, id).expect("the chunk");
    assert_eq!(body.len(), 1036);
    assert_eq!(&body[..7], b"payload");
    assert!(find_storage(&pool, -1).is_none());
    assert!(find_storage(&pool, 32).is_none());

    recycle_storage(&mut pool, id, 0b001);
    assert_eq!(pool.conns(id), 0b100);
    assert_eq!(pool.free_count(), 31, "a subscriber has yet to read");
    recycle_storage(&mut pool, id, 0b010);
    assert_eq!(pool.free_count(), 31, "a stranger's bit changes nothing");
    recycle_storage(&mut pool, id, 0b100);
    assert_eq!(pool.conns(id), 0);
    assert_eq!(pool.free_count(), 32, "the last reader gives the chunk back");
    assert_eq!(acquire_storage(&mut pool, 1), Some(0));
}

#[test]
fn a_chunk_is_given_back_whole_by_the_producer() {
    let mut pool = ChunkPool::new(1040);
    let id = acquire_storage(&mut pool, 0xffff).expect("a chunk");
    recycle_storage(&mut pool, id, u32::MAX);
    assert_eq!(pool.free_count(), 32);
    recycle_storage(&mut pool, 99, u32::MAX);
    assert_eq!(pool.free_count(), 32);
}

#[test]
fn an_exhausted_pool_hands_out_nothing() {
    let mut pool = ChunkPool::new(16);
    for i in 0..32 {
        assert_eq!(acquire_storage(&mut pool, 1), Some(i));
    }
    assert_eq!(acquire_storage(&mut pool, 1), None);
    assert_eq!(pool.free_count(), 0);
}

#[test]
fn releasing_a_free_chunk_changes_nothing() {
    let mut info = ChunkInfo::new();
    info.ensure_init();
    let a = info.acquire();
    let b = info.acquire();
    assert!(!info.is_free(a));
    assert!(info.is_free(5));
    info.release(a);
    assert!(info.is_free(a));
    info.release(a);
    info.release(7);
    assert_eq!(info.free_count(), 31);
    assert_eq!(info.acquire(), a);
    assert_eq!(info.acquire(), 2);
    info.release(b);
    assert_eq!(info.free_count(), 30);
    assert!(!info.is_free(-1));
    assert!(!info.is_free(32));
}

#[test]
fn a_header_that_was_never_initialised_has_every_chunk_free() {
    let mut info = ChunkInfo::new();
    assert!(info.is_free(0));
    assert!(info.is_free(31));
    info.release(3);
    assert_eq!(info.cursor(), 0);
    assert_eq!(info.free_count(), 32);
}

#[test]
fn recycling_twice_gives_a_chunk_back_once() {
    let mut pool = ChunkPool::new(1040);
    let id = acquire_storage(&mut pool, 1).expect("a chunk");
    recycle_storage(&mut pool, id, 1);
    recycle_storage(&mut pool, id, 1);
    assert_eq!(pool.free_count(), 32);
    assert_eq!(acquire_storage(&mut pool, 1), Some(id));
    assert_eq!(acquire_storage(&mut pool, 1), Some(1), "the list is still a list");
}
