//! Tests of the in-memory cache: replacement, external references,
//! reinsertion under both policies, reference counting, and single flight.

use foyer::cache::{Cache, CacheConfig, CacheEntry, Entry};
use foyer::context::CacheContext;
use foyer::eviction::{Eviction, EvictionConfig, FifoConfig, LruConfig};

use rand::rngs::SmallRng;
use rand::{RngCore, SeedableRng};

fn fifo(capacity: usize) -> Cache<String> {
    Cache::new(CacheConfig {
        capacity,
        shards: 1,
        eviction_config: EvictionConfig::Fifo(FifoConfig { default_capacity: 16 }),
        object_pool_capacity: 1,
    })
}

fn lru(capacity: usize) -> Cache<String> {
    Cache::new(CacheConfig {
        capacity,
        shards: 1,
        eviction_config: EvictionConfig::Lru(LruConfig {}),
        object_pool_capacity: 1,
    })
}

fn insert_fifo(cache: &mut Cache<String>, key: u64, value: &str) -> CacheEntry {
    cache.insert(key, value.to_string(), value.len()).entry
}

fn insert_lru(cache: &mut Cache<String>, key: u64, value: &str) -> CacheEntry {
    cache.insert(key, value.to_string(), value.len()).entry
}

fn is_send_sync_static<T: Send + Sync + 'static>() {}

#[test]
fn test_send_sync_static() {
    is_send_sync_static::<Cache<String>>();
    is_send_sync_static::<Cache<u64>>();
    is_send_sync_static::<CacheConfig>();
}

#[test]
fn test_replace() {
    let mut cache = fifo(10);

    let e = insert_fifo(&mut cache, 114, "xx");
    cache.release(e);
    assert_eq!(cache.usage(), 2);

    let e = insert_fifo(&mut cache, 514, "QwQ");
    cache.release(e);
    assert_eq!(cache.usage(), 5);

    let e = insert_fifo(&mut cache, 114, "(0.0)");
    cache.release(e);
    assert_eq!(cache.usage(), 8);

    assert_eq!(
        cache.dump(0),
        vec![(514, "QwQ".to_string()), (114, "(0.0)".to_string())],
    );
}

#[test]
fn test_replace_with_external_refs() {
    let mut cache = fifo(10);

    let e = insert_fifo(&mut cache, 514, "QwQ");
    cache.release(e);
    let e = insert_fifo(&mut cache, 114, "(0.0)");
    cache.release(e);

    let e4 = cache.get(514).unwrap();
    let e5 = insert_fifo(&mut cache, 514, "bili");

    assert_eq!(e4.refs(&cache), 1);
    assert_eq!(e5.refs(&cache), 1);

    // remains: 514 => QwQ (3), 514 => bili (4)
    // evicted: 114 => (0.0) (5)
    assert_eq!(cache.usage(), 7);

    assert!(cache.get(114).is_none());
    let g = cache.get(514).unwrap();
    assert_eq!(g.value(&cache), "bili");
    cache.release(g);
    assert_eq!(e4.value(&cache), "QwQ");

    let e6 = cache.remove(514).unwrap();
    assert_eq!(e6.value(&cache), "bili");
    cache.release(e6);

    cache.release(e5);
    assert!(cache.get(514).is_none());
    assert_eq!(e4.value(&cache), "QwQ");

    assert_eq!(cache.usage(), 3);
    cache.release(e4);
    assert_eq!(cache.usage(), 0);
}

#[test]
fn test_reinsert_while_all_referenced_lru() {
    let mut cache = lru(10);

    let e1 = insert_lru(&mut cache, 1, "111");
    let e2 = insert_lru(&mut cache, 2, "222");
    let e3 = insert_lru(&mut cache, 3, "333");
    assert_eq!(cache.usage(), 9);

    // No entry will be released because all of them are referenced externally.
    let e4 = insert_lru(&mut cache, 4, "444");
    assert_eq!(cache.usage(), 12);

    // `111`, `222` and `333` are evicted from the eviction container to make space for `444`.
    assert_eq!(cache.dump(0), vec![(4, "444".to_string())]);

    // `e1` cannot be reinserted for the usage has already exceeds the capacity.
    cache.release(e1);
    assert_eq!(cache.usage(), 9);

    // `222` and `333` will be reinserted
    cache.release(e2);
    cache.release(e3);
    assert_eq!(
        cache.dump(0),
        vec![(4, "444".to_string()), (2, "222".to_string()), (3, "333".to_string())],
    );
    assert_eq!(cache.usage(), 9);

    // `444` will be reinserted
    cache.release(e4);
    assert_eq!(
        cache.dump(0),
        vec![(2, "222".to_string()), (3, "333".to_string()), (4, "444".to_string())],
    );
    assert_eq!(cache.usage(), 9);
}

#[test]
fn test_reinsert_while_all_referenced_fifo() {
    let mut cache = fifo(10);

    let e1 = insert_fifo(&mut cache, 1, "111");
    let e2 = insert_fifo(&mut cache, 2, "222");
    let e3 = insert_fifo(&mut cache, 3, "333");
    assert_eq!(cache.usage(), 9);

    // No entry will be released because all of them are referenced externally.
    let e4 = insert_fifo(&mut cache, 4, "444");
    assert_eq!(cache.usage(), 12);

    // `111`, `222` and `333` are evicted from the eviction container to make space for `444`.
    assert_eq!(cache.dump(0), vec![(4, "444".to_string())]);

    // `e1` cannot be reinserted for the usage has already exceeds the capacity.
    cache.release(e1);
    assert_eq!(cache.usage(), 9);

    // `222` and `333` will be not reinserted because fifo will ignore reinsert operations.
    cache.release(e2);
    cache.release(e3);
    cache.release(e4);
    assert_eq!(cache.dump(0), vec![(4, "444".to_string())]);
    assert_eq!(cache.usage(), 3);
}

#[test]
fn test_reference_count() {
    let mut cache = fifo(100);

    let e1 = insert_fifo(&mut cache, 42, "the answer to life, the universe, and everything");
    assert_eq!(e1.refs(&cache), 1);

    let e2 = cache.get(42).unwrap();
    assert_eq!(e2.refs(&cache), 2);

    let e3 = cache.clone_entry(&e2);
    assert_eq!(e3.refs(&cache), 3);

    cache.release(e2);
    assert_eq!(e3.refs(&cache), 2);

    cache.release(e3);
    assert_eq!(e1.refs(&cache), 1);

    cache.release(e1);
    // The entry stays cached with no external reference left.
    let e = cache.get(42).unwrap();
    assert_eq!(e.refs(&cache), 1);
    cache.release(e);
}

#[test]
fn test_cache_fuzzy() {
    const CAPACITY: usize = 256;

    let mut cache: Cache<u64> = Cache::new(CacheConfig {
        capacity: CAPACITY,
        shards: 4,
        eviction_config: EvictionConfig::Fifo(FifoConfig { default_capacity: 16 }),
        object_pool_capacity: 16,
    });

    let mut rng = SmallRng::seed_from_u64(114514);
    for _ in 0..100000 {
        let key = rng.next_u64();
        if let Some(entry) = cache.get(key) {
            assert_eq!(key, *entry.value(&cache));
            cache.release(entry);
            continue;
        }
        let out = cache.insert(key, key, 1);
        cache.release(out.entry);
    }
    assert_eq!(cache.usage(), CAPACITY);
}

#[test]
fn test_fifo() {
    let config = EvictionConfig::Fifo(FifoConfig { default_capacity: 4 });
    let mut fifo = Eviction::new(&config);

    fifo.push(0);
    fifo.push(1);
    fifo.push(2);
    fifo.push(3);

    let p0 = fifo.pop().unwrap();
    let p1 = fifo.pop().unwrap();
    assert_eq!(0, p0);
    assert_eq!(1, p1);

    fifo.push(4);
    fifo.push(5);
    fifo.push(6);

    fifo.remove(3);
    fifo.remove(4);
    fifo.remove(5);

    let p2 = fifo.pop().unwrap();
    let p6 = fifo.pop().unwrap();
    assert_eq!(2, p2);
    assert_eq!(6, p6);
}

#[test]
fn test_single_flight() {
    let mut cache = fifo(100);

    let mut loads: usize = 0;
    for _ in 0..100 {
        match cache.fetch(514) {
            Entry::Miss => loads += 1,
            Entry::Wait => {}
            _ => panic!("no entry is cached yet"),
        }
    }
    // The loader runs at most once: only the first fetch opened the queue.
    assert_eq!(loads, 1);

    // The loader finished: insert delivers one handle per waiter.
    let out = cache.insert_with_context(514, "QwQ".to_string(), 1, CacheContext::Default);
    assert_eq!(out.waiter_entries.len(), 99);
    assert_eq!(out.entry.refs(&cache), 100);
    for e in out.waiter_entries {
        assert_eq!(e.value(&cache), "QwQ");
        cache.release(e);
    }
    cache.release(out.entry);
    assert_eq!(cache.usage(), 1);

    // Later fetches hit.
    match cache.fetch(514) {
        Entry::Hit(e) => {
            assert_eq!(e.value(&cache), "QwQ");
            cache.release(e);
        }
        _ => panic!("the key is cached now"),
    }
}

#[test]
fn test_single_flight_abort() {
    let mut cache = fifo(100);

    assert!(matches!(cache.fetch(7), Entry::Miss));
    assert!(matches!(cache.fetch(7), Entry::Wait));

    // The loader failed: the queue is dropped so the next caller retries.
    cache.fetch_abort(7);
    assert!(matches!(cache.fetch(7), Entry::Miss));
    cache.fetch_abort(7);
}

#[test]
fn test_contains_and_touch() {
    let mut cache = lru(10);

    let e1 = insert_lru(&mut cache, 1, "11");
    let e2 = insert_lru(&mut cache, 2, "22");
    cache.release(e1);
    cache.release(e2);
    assert!(cache.contains(1));
    assert!(!cache.contains(3));
    assert!(!cache.touch(3));

    // Touching promotes without taking a reference: key 1 moves to the
    // most recently used end.
    assert!(cache.touch(1));
    assert_eq!(cache.dump(0), vec![(2, "22".to_string()), (1, "11".to_string())]);
    assert_eq!(cache.usage(), 4);
}

#[test]
fn test_pop_corase() {
    let mut cache = fifo(100);

    let e1 = insert_fifo(&mut cache, 1, "111");
    let e2 = insert_fifo(&mut cache, 2, "222");
    cache.release(e1);
    cache.release(e2);

    // The first-in entry is the victim; the caller gets a reference on it
    // and it leaves the cache.
    let victim = cache.pop_corase().unwrap();
    assert_eq!(victim.entry_key(), 1);
    assert_eq!(victim.value(&cache), "111");
    assert!(cache.get(1).is_none());
    cache.release(victim);
    assert_eq!(cache.usage(), 3);

    let victim = cache.pop_corase().unwrap();
    assert_eq!(victim.entry_key(), 2);
    cache.release(victim);
    assert!(cache.pop_corase().is_none());
    assert_eq!(cache.usage(), 0);
}

#[test]
fn test_clear() {
    let mut cache = fifo(100);

    let e1 = insert_fifo(&mut cache, 1, "111");
    let e2 = insert_fifo(&mut cache, 2, "222");
    cache.release(e1);
    cache.release(e2);
    assert_eq!(cache.usage(), 6);

    let released = cache.clear();
    assert_eq!(released.len(), 2);
    assert_eq!(cache.usage(), 0);
    assert!(cache.get(1).is_none());
    assert!(cache.get(2).is_none());
}
