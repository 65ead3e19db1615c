use wasmnet::pool::{warm_step, ConnectionPool};

const SECOND: u64 = 1_000_000_000;

#[test]
fn put_and_get() {
    let target = "127.0.0.1:0".to_string();
    let mut pool: ConnectionPool<u32> = ConnectionPool::new(30, 4);
    pool.put(target.clone(), 7, 0);
    assert_eq!(pool.size(), 1);
    let got = pool.get(&target, SECOND);
    assert!(got.is_some());
    assert_eq!(pool.size(), 0);
}

#[test]
fn expired_entries_pruned() {
    let target = "127.0.0.1:0".to_string();
    let mut pool: ConnectionPool<u32> = ConnectionPool::new(0, 4);
    pool.put(target.clone(), 7, 0);
    assert!(pool.get(&target, 10_000_000).is_none());
}

#[test]
fn get_hands_out_the_oldest_fresh_connection() {
    let mut pool: ConnectionPool<u32> = ConnectionPool::new(30, 4);
    pool.put("a:1".to_string(), 1, 0);
    pool.put("b:1".to_string(), 2, SECOND);
    pool.put("a:1".to_string(), 3, 20 * SECOND);
    // At 35 s the first "a:1" has been idle too long and is dropped.
    assert_eq!(pool.get("a:1", 35 * SECOND), Some(3));
    assert_eq!(pool.get("a:1", 35 * SECOND), None);
    assert_eq!(pool.get("b:1", 30 * SECOND), Some(2));
}

#[test]
fn put_keeps_at_most_per_key_connections() {
    let mut pool: ConnectionPool<u32> = ConnectionPool::new(30, 2);
    pool.put("t".to_string(), 1, 0);
    pool.put("t".to_string(), 2, 0);
    pool.put("t".to_string(), 3, 0);
    assert_eq!(pool.size(), 2);
    assert_eq!(pool.get("t", 0), Some(1));
    assert_eq!(pool.get("t", 0), Some(2));
    assert_eq!(pool.get("t", 0), None);
}

#[test]
fn cleanup_drops_only_stale_connections() {
    let mut pool: ConnectionPool<u32> = ConnectionPool::new(10, 4);
    pool.put("a".to_string(), 1, 0);
    pool.put("b".to_string(), 2, 5 * SECOND);
    pool.cleanup(12 * SECOND);
    assert_eq!(pool.size(), 1);
    assert_eq!(pool.get("b", 12 * SECOND), Some(2));
}

#[test]
fn warming_goes_on_until_the_first_failure() {
    assert_eq!(warm_step(0, 3, true), Some(1));
    assert_eq!(warm_step(2, 3, true), Some(3));
    assert_eq!(warm_step(1, 3, false), None);
}
