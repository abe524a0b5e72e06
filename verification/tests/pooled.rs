//! Tests of the pooled container.

use foyer::container::{Config, Container, Pool};

#[test]
fn test_container_simple() {
    let config = Config { capacity: 100, pool_count_bits: 0 };

    let mut container = Container::new(config);

    assert!(container.insert(1, vec![b'x'; 40]));
    assert!(!container.insert(1, vec![b'x'; 40]));
    assert_eq!(container.get(1), Some(vec![b'x'; 40]));

    assert!(container.insert(2, vec![b'x'; 60]));
    assert!(!container.insert(2, vec![b'x'; 60]));
    assert_eq!(container.get(2), Some(vec![b'x'; 60]));

    assert!(container.insert(3, vec![b'x'; 50]));
    assert_eq!(container.get(3), Some(vec![b'x'; 50]));
    assert_eq!(container.get(1), None);
    assert_eq!(container.get(2), None);

    assert!(container.remove(3));

    assert_eq!(container.size(), 0);
}

#[test]
fn test_pool_recency() {
    let mut pool = Pool::new(10);
    pool.insert(1, 4, vec![1]);
    pool.insert(2, 4, vec![2]);
    assert_eq!(pool.size, 8);

    // Touch key 1: key 2 becomes the next victim.
    assert!(pool.get(1).is_some());
    pool.make_room(4);
    assert_eq!(pool.size, 4);
    assert!(pool.get(2).is_none());
    assert!(pool.get(1).is_some());
}

#[test]
fn test_container_eviction_order() {
    let config = Config { capacity: 12, pool_count_bits: 0 };
    let mut container = Container::new(config);

    assert!(container.insert(10, vec![0u8; 6]));
    assert!(container.insert(20, vec![0u8; 6]));
    // Touch 10 so that 20 is evicted first.
    assert!(container.get(10).is_some());
    assert!(container.insert(30, vec![0u8; 6]));
    assert!(container.get(20).is_none());
    assert!(container.get(10).is_some());
    assert!(container.get(30).is_some());
}
