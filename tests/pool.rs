use mysql_tables::pool::{ConnectionPool, Lease, PoolError, ScanEnd, Slot};

#[test]
fn new_pool_is_empty() {
    let p = ConnectionPool::new(3, 1000);
    assert_eq!(p.capacity(), 3);
    assert_eq!(p.checked_out(), 0);
    assert_eq!(p.slot(2), Slot::Empty);
}

#[test]
fn acquire_opens_fresh_slots_until_full() {
    let mut p = ConnectionPool::new(2, 1000);
    assert_eq!(p.try_acquire(), Some(Lease::Fresh(0)));
    assert_eq!(p.try_acquire(), Some(Lease::Fresh(1)));
    assert_eq!(p.try_acquire(), None);
    assert_eq!(p.checked_out(), 2);
}

#[test]
fn excess_acquirers_wait_then_time_out() {
    let mut p = ConnectionPool::new(2, 1000);
    let mut granted = 0;
    for _ in 0..5 {
        if let Ok(Some(_)) = p.acquire(0, 100) {
            granted += 1;
        }
        assert!(p.checked_out() <= 2);
    }
    assert_eq!(granted, 2);
    assert_eq!(p.acquire(50, 100), Ok(None));
    assert_eq!(p.acquire(100, 100), Err(PoolError::PoolExhausted));
    assert_eq!(p.checked_out(), 2);
}

#[test]
fn waiting_acquirer_succeeds_after_release() {
    let mut p = ConnectionPool::new(1, 1000);
    assert_eq!(p.acquire(0, 100), Ok(Some(Lease::Fresh(0))));
    assert_eq!(p.acquire(10, 100), Ok(None));
    p.release(0, 20, true);
    assert_eq!(p.acquire(30, 100), Ok(Some(Lease::Reused(0))));
}

#[test]
fn cancelled_scan_frees_its_connection() {
    let mut p = ConnectionPool::new(1, 1000);
    assert_eq!(p.try_acquire(), Some(Lease::Fresh(0)));
    // the stream was dropped mid-query: the connection is discarded
    p.release_after_scan(0, 5, ScanEnd::Dropped);
    assert_eq!(p.slot(0), Slot::Empty);
    assert_eq!(p.checked_out(), 0);
    assert_eq!(p.acquire(0, 0), Ok(Some(Lease::Fresh(0))));
}

#[test]
fn idle_connection_is_preferred() {
    let mut p = ConnectionPool::new(3, 1000);
    p.try_acquire();
    p.try_acquire();
    p.release(1, 7, true);
    assert_eq!(p.slot(1), Slot::Idle { since_ms: 7 });
    assert_eq!(p.try_acquire(), Some(Lease::Reused(1)));
}

#[test]
fn failed_connect_empties_slot() {
    let mut p = ConnectionPool::new(1, 1000);
    assert_eq!(p.try_acquire(), Some(Lease::Fresh(0)));
    assert_eq!(p.connect_failed(0), PoolError::ConnectFailed);
    assert_eq!(p.slot(0), Slot::Empty);
    assert_eq!(p.checked_out(), 0);
}

#[test]
fn evicts_only_expired_idle_connections() {
    let mut p = ConnectionPool::new(3, 100);
    p.try_acquire();
    p.try_acquire();
    p.try_acquire();
    p.release(0, 0, true);
    p.release(2, 50, true);
    let closed = p.evict_idle(120);
    assert_eq!(closed, vec![0]);
    assert_eq!(p.slot(0), Slot::Empty);
    assert_eq!(p.slot(1), Slot::InUse);
    assert_eq!(p.slot(2), Slot::Idle { since_ms: 50 });
    assert_eq!(p.evict_idle(150), vec![2]);
}

#[test]
fn exhausted_scan_keeps_its_connection() {
    let mut p = ConnectionPool::new(2, 1000);
    p.try_acquire();
    p.try_acquire();
    p.release_after_scan(0, 9, ScanEnd::Exhausted);
    p.release_after_scan(1, 9, ScanEnd::Failed);
    assert_eq!(p.slot(0), Slot::Idle { since_ms: 9 });
    assert_eq!(p.slot(1), Slot::Empty);
}
