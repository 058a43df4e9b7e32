use zita_auth::errors::PoolError;
use zita_auth::pool::LeasePool;

#[test]
fn ceiling_is_never_exceeded() {
    let mut pool = LeasePool::new(2);
    assert_eq!(pool.outstanding(), 0);
    assert_eq!(pool.acquire(), Ok(()));
    assert_eq!(pool.acquire(), Ok(()));
    assert_eq!(pool.outstanding(), 2);
    // the request past the ceiling observes exhaustion, nothing is handed out
    assert_eq!(pool.acquire(), Err(PoolError::Exhausted));
    assert_eq!(pool.outstanding(), 2);
    assert!(pool.outstanding() <= pool.ceiling());
}

#[test]
fn release_frees_one_lease() {
    let mut pool = LeasePool::new(1);
    assert_eq!(pool.acquire(), Ok(()));
    assert_eq!(pool.acquire(), Err(PoolError::Exhausted));
    pool.release();
    assert_eq!(pool.outstanding(), 0);
    assert_eq!(pool.acquire(), Ok(()));
    assert_eq!(pool.outstanding(), 1);
}

#[test]
fn zero_ceiling_hands_out_nothing() {
    let mut pool = LeasePool::new(0);
    assert_eq!(pool.acquire(), Err(PoolError::Exhausted));
    assert_eq!(pool.outstanding(), 0);
}
