use audio_io::pool::{BufferPool, PoolError};

#[test]
fn allocate_gives_zero_bytes_and_one_holder() {
    let mut pool = BufferPool::new();
    let a = pool.allocate(4);
    assert_eq!(pool.len(&a), Some(4));
    assert_eq!(pool.holders(&a), 1);
    assert_eq!(pool.read_at(&a, 0, 4), Some(vec![0, 0, 0, 0]));
}

#[test]
fn shared_handles_see_the_same_bytes() {
    let mut pool = BufferPool::new();
    let a = pool.allocate(3);
    let b = pool.share(&a).unwrap();
    assert_eq!(pool.holders(&a), 2);
    assert_eq!(pool.set(&a, 1, 7), Ok(()));
    assert_eq!(pool.get(&b, 1), Some(7));
    assert_eq!(pool.write_at(&b, 0, &[1, 2, 3]), Ok(()));
    assert_eq!(pool.read_at(&a, 0, 3), Some(vec![1, 2, 3]));
}

#[test]
fn freeing_one_of_two_keeps_the_region() {
    let mut pool = BufferPool::new();
    let a = pool.allocate(2);
    let b = pool.share(&a).unwrap();
    pool.write_at(&a, 0, &[9, 8]).unwrap();
    assert_eq!(pool.release(a), Ok(false));
    assert_eq!(pool.holders(&b), 1);
    assert_eq!(pool.read_at(&b, 0, 2), Some(vec![9, 8]));
    assert_eq!(pool.set(&b, 0, 1), Ok(()));
}

#[test]
fn freeing_both_gives_the_region_up_once() {
    let mut pool = BufferPool::new();
    let a = pool.allocate(2);
    let b = pool.share(&a).unwrap();
    assert_eq!(pool.release(a), Ok(false));
    assert_eq!(pool.release(b), Ok(true));
}

#[test]
fn the_last_of_three_gives_the_region_up() {
    let mut pool = BufferPool::new();
    let a = pool.allocate(2);
    let b = pool.share(&a).unwrap();
    let c = pool.share(&b).unwrap();
    assert_eq!(pool.holders(&c), 3);
    assert_eq!(pool.release(b), Ok(false));
    assert_eq!(pool.release(a), Ok(false));
    assert_eq!(pool.holders(&c), 1);
    assert_eq!(pool.release(c), Ok(true));
}

#[test]
fn letting_go_of_one_region_leaves_the_others() {
    let mut pool = BufferPool::new();
    let a = pool.allocate(2);
    let other = pool.allocate(1);
    pool.set(&other, 0, 42).unwrap();
    assert_eq!(pool.release(a), Ok(true));
    assert_eq!(pool.holders(&other), 1);
    assert_eq!(pool.get(&other, 0), Some(42));
}

#[test]
fn stale_handles_are_told_apart() {
    let mut pool = BufferPool::new();
    let a = pool.allocate(2);
    assert_eq!(pool.holders(&a), 1);
    let mut elsewhere = BufferPool::new();
    assert_eq!(elsewhere.len(&a), None);
    assert_eq!(elsewhere.get(&a, 0), None);
    assert_eq!(elsewhere.holders(&a), 0);
    assert_eq!(elsewhere.set(&a, 0, 1), Err(PoolError::Stale));
    assert_eq!(elsewhere.clear(&a), Err(PoolError::Stale));
    assert_eq!(elsewhere.resize(&a, 3), Err(PoolError::Stale));
    assert_eq!(elsewhere.write_at(&a, 0, &[1]), Err(PoolError::Stale));
    assert_eq!(elsewhere.read_at(&a, 0, 1), None);
    assert!(matches!(elsewhere.share(&a), Err(PoolError::Stale)));
    let freed = elsewhere.allocate(1);
    let copy = elsewhere.share(&freed).unwrap();
    assert_eq!(elsewhere.release(freed), Ok(false));
    assert_eq!(elsewhere.release(copy), Ok(true));
    assert_eq!(elsewhere.holders(&a), 0);
    assert_eq!(elsewhere.len(&a), None);
    assert_eq!(elsewhere.release(a), Err(PoolError::Stale));
}

#[test]
fn slots_are_not_handed_out_twice() {
    let mut pool = BufferPool::new();
    let a = pool.allocate(1);
    let twin = pool.share(&a).unwrap();
    assert_eq!(pool.release(a), Ok(false));
    let b = pool.allocate(5);
    assert_eq!(pool.len(&twin), Some(1));
    assert_eq!(pool.len(&b), Some(5));
    assert_eq!(pool.release(twin), Ok(true));
    let c = pool.allocate(7);
    assert_eq!(pool.len(&c), Some(7));
    assert_eq!(pool.len(&b), Some(5));
}

#[test]
fn resize_replaces_the_bytes_by_zeros() {
    let mut pool = BufferPool::new();
    let a = pool.allocate(2);
    pool.write_at(&a, 0, &[5, 6]).unwrap();
    assert_eq!(pool.resize(&a, 3), Ok(()));
    assert_eq!(pool.read_at(&a, 0, 3), Some(vec![0, 0, 0]));
    assert_eq!(pool.resize(&a, 0), Ok(()));
    assert_eq!(pool.len(&a), Some(0));
}

#[test]
fn resize_of_a_shared_region_is_turned_down() {
    let mut pool = BufferPool::new();
    let a = pool.allocate(2);
    let b = pool.share(&a).unwrap();
    pool.write_at(&a, 0, &[5, 6]).unwrap();
    assert_eq!(pool.resize(&a, 3), Err(PoolError::Shared));
    assert_eq!(pool.resize(&b, 3), Err(PoolError::Shared));
    assert_eq!(pool.read_at(&a, 0, 2), Some(vec![5, 6]));
    assert_eq!(pool.release(b), Ok(false));
    assert_eq!(pool.resize(&a, 3), Ok(()));
}

#[test]
fn clear_zero_fills_for_all_holders() {
    let mut pool = BufferPool::new();
    let a = pool.allocate(2);
    let b = pool.share(&a).unwrap();
    pool.write_at(&a, 0, &[5, 6]).unwrap();
    assert_eq!(pool.clear(&b), Ok(()));
    assert_eq!(pool.read_at(&a, 0, 2), Some(vec![0, 0]));
    assert_eq!(pool.len(&a), Some(2));
}

#[test]
fn byte_access_is_bounds_checked() {
    let mut pool = BufferPool::new();
    let a = pool.allocate(2);
    assert_eq!(pool.get(&a, 1), Some(0));
    assert_eq!(pool.get(&a, 2), None);
    assert_eq!(pool.set(&a, 2, 1), Err(PoolError::OutOfBounds));
    assert_eq!(pool.write_at(&a, 1, &[1, 2]), Err(PoolError::OutOfBounds));
    assert_eq!(pool.write_at(&a, 3, &[]), Err(PoolError::OutOfBounds));
    assert_eq!(pool.write_at(&a, 2, &[]), Ok(()));
    assert_eq!(pool.read_at(&a, 1, 2), None);
    assert_eq!(pool.read_at(&a, usize::MAX, 2), None);
    assert_eq!(pool.read_at(&a, 1, 1), Some(vec![0]));
    assert_eq!(pool.read_at(&a, 0, 2), Some(vec![0, 0]));
}

#[test]
fn write_at_lays_the_chunk_over_the_bytes() {
    let mut pool = BufferPool::new();
    let a = pool.allocate(5);
    pool.write_at(&a, 0, &[1, 2, 3, 4, 5]).unwrap();
    pool.write_at(&a, 1, &[9, 8]).unwrap();
    assert_eq!(pool.read_at(&a, 0, 5), Some(vec![1, 9, 8, 4, 5]));
}
