use repairman::pool::BufferPool;

#[test]
fn test() {
    let mut pool = BufferPool::new(32, 1);

    {
        let mut lease = pool.lease();

        lease.set(0, 23);
        assert_eq!(lease.get(0), 23);
        assert_eq!(lease.len(), 32);
        pool.give_back(lease);
    }

    let lease = pool.lease();
    assert_eq!(lease.len(), 32);
    let lease1 = pool.lease();

    assert_eq!(lease1.len(), 32);
    assert_eq!(lease.len(), 32);
    assert_eq!(pool.get_size(), 32);
}

#[test]
fn lease_from_empty_pool_allocates() {
    let mut pool = BufferPool::new(16, 0);
    let lease = pool.lease();
    assert_eq!(lease.len(), 16);
    for i in 0..16 {
        assert_eq!(lease.get(i), 0);
    }
}

#[test]
fn give_back_reuses_buffer() {
    let mut pool = BufferPool::new(8, 0);
    let mut lease = pool.lease();
    lease.set(3, 99);
    pool.give_back(lease);
    let again = pool.lease();
    assert_eq!(again.len(), 8);
    assert_eq!(again.get(3), 99);
}
