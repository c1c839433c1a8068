use server3::capacity::CacheCapacityPool;

#[test]
fn reserve_takes_exact_size_when_available() {
    let mut pool = CacheCapacityPool::new(499);
    let reservation = pool.reserve(100).unwrap();
    assert_eq!(reservation.reserved(), 100);
    assert_eq!(pool.available_capacity(), 399);
}

#[test]
fn reserve_refuses_more_than_available() {
    let mut pool = CacheCapacityPool::new(99);
    assert!(pool.reserve(100).is_none());
    assert_eq!(pool.available_capacity(), 99);
}

#[test]
fn reserve_zero_always_succeeds() {
    let mut pool = CacheCapacityPool::new(0);
    let reservation = pool.reserve(0).unwrap();
    assert_eq!(reservation.reserved(), 0);
    assert_eq!(pool.available_capacity(), 0);
}

#[test]
fn reserve_up_to_takes_what_is_left() {
    let mut pool = CacheCapacityPool::new(99);
    let reservation = pool.reserve_up_to(100);
    assert_eq!(reservation.reserved(), 99);
    assert_eq!(pool.available_capacity(), 0);

    let mut pool = CacheCapacityPool::new(499);
    let reservation = pool.reserve_up_to(100);
    assert_eq!(reservation.reserved(), 100);
    assert_eq!(pool.available_capacity(), 399);

    let mut pool = CacheCapacityPool::new(7);
    let reservation = pool.reserve_up_to(0);
    assert_eq!(reservation.reserved(), 0);
    assert_eq!(pool.available_capacity(), 7);
}

#[test]
fn return_to_pool_restores_capacity() {
    let mut pool = CacheCapacityPool::new(499);
    let mut reservation = pool.reserve(300).unwrap();
    assert_eq!(pool.available_capacity(), 199);
    reservation.return_to_pool(&mut pool);
    assert_eq!(pool.available_capacity(), 499);
    assert_eq!(reservation.reserved(), 0);
    // Returning again gives nothing back.
    reservation.return_to_pool(&mut pool);
    assert_eq!(pool.available_capacity(), 499);
}

#[test]
fn bytes_are_conserved_over_a_sequence() {
    let mut pool = CacheCapacityPool::new(100);
    let mut first = pool.reserve(30).unwrap();
    assert_eq!(pool.available_capacity() + first.reserved(), 100);
    let mut second = pool.reserve_up_to(100);
    assert_eq!(second.reserved(), 70);
    assert_eq!(pool.available_capacity(), 0);
    assert!(pool.reserve(1).is_none());
    first.return_to_pool(&mut pool);
    assert_eq!(first.reserved(), 0);
    assert_eq!(pool.available_capacity() + second.reserved(), 100);
    let third = pool.reserve(20).unwrap();
    assert_eq!(pool.available_capacity() + second.reserved() + third.reserved(), 100);
    second.return_to_pool(&mut pool);
    assert_eq!(pool.available_capacity() + third.reserved(), 100);
    assert_eq!(pool.available_capacity(), 80);
}
