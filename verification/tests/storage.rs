use std::collections::HashMap;

use server3::capacity::CacheCapacityReservation;
use server3::storage::{
    max_cache_files_for_soft_limit, min_nofile_soft_limit, nofile_step, CacheStorage, CacheStorageError, CachedResource,
    NofileStep, ReserveStep, StoreOutcome,
};
use server3::config::StorageConfig;

const SECOND: u128 = 1_000_000_000;

/// Drives the index the way a server does: lookup, fetch on a miss, make
/// room, store. Counts the upstream fetches per key.
struct Harness {
    storage: CacheStorage,
    reservations: HashMap<u64, CacheCapacityReservation>,
    next_id: u64,
    fetches: HashMap<(String, String), u32>,
}

impl Harness {
    fn new(capacity: u64, max_entries: usize) -> Self {
        Harness {
            storage: CacheStorage::with_limits(capacity, max_entries),
            reservations: HashMap::new(),
            next_id: 0,
            fetches: HashMap::new(),
        }
    }

    fn release(&mut self, resource: &CachedResource) {
        if let Some(mut reservation) = self.reservations.remove(&resource.id) {
            self.storage.release(&mut reservation);
        }
    }

    /// Returns the id of the resource served, and whether it was fetched.
    fn get(&mut self, host: &str, path: &str, now: u128, expires_at: Option<u128>, size: u64) -> (u64, bool) {
        let lookup = self.storage.lookup(host, path, now);
        for resource in &lookup.released {
            self.release(resource);
        }
        if let Some(resource) = lookup.resource {
            return (resource.id, false);
        }
        *self
            .fetches
            .entry((host.to_string(), path.to_string()))
            .or_insert(0) += 1;
        let reservation = loop {
            match self.storage.reserve_or_evict(size) {
                ReserveStep::Reserved(r) | ReserveStep::Exhausted(r) => break r,
                ReserveStep::Evicted(Some(resource)) => self.release(&resource),
                ReserveStep::Evicted(None) => {}
            }
        };
        let id = self.next_id;
        self.next_id += 1;
        let resource = CachedResource { id, size, expires_at };
        match self.storage.store(host, path, resource) {
            StoreOutcome::Stored => {
                self.reservations.insert(id, reservation);
            }
            StoreOutcome::AlreadyCached(existing) => {
                let mut reservation = reservation;
                self.storage.release(&mut reservation);
                return (existing.id, true);
            }
            StoreOutcome::NotCached => {
                let mut reservation = reservation;
                self.storage.release(&mut reservation);
            }
        }
        (id, true)
    }

    fn fetch_count(&self, host: &str, path: &str) -> u32 {
        *self
            .fetches
            .get(&(host.to_string(), path.to_string()))
            .unwrap_or(&0)
    }
}

#[test]
fn test_cache_resource() {
    let mut h = Harness::new(1_000_000_000, 500);
    let (first, fetched) = h.get("host", "/foo/bar.txt", 0, None, 13);
    assert!(fetched);
    let (second, fetched) = h.get("host", "/foo/bar.txt", 0, None, 13);
    assert!(!fetched);
    assert_eq!(first, second);
    assert_eq!(h.fetch_count("host", "/foo/bar.txt"), 1);
}

#[test]
fn test_cache_max_resources() {
    let mut h = Harness::new(1_000_000_000, 3);
    for _ in 0..5 {
        h.get("host", "/example-1.json", 0, None, 9);
        h.get("host", "/example-2.json", 0, None, 9);
        h.get("host", "/example-3.json", 0, None, 9);
    }
    for i in 1..=3 {
        assert_eq!(h.fetch_count("host", &format!("/example-{i}.json")), 1);
    }
    // Resource 4 pushes out 1, resource 5 pushes out 2, and 1 comes back
    // in place of 3.
    assert!(h.get("host", "/example-4.json", 0, None, 9).1);
    assert!(h.get("host", "/example-5.json", 0, None, 9).1);
    assert!(h.get("host", "/example-1.json", 0, None, 14).1);
    assert_eq!(h.fetch_count("host", "/example-1.json"), 2);
    assert_eq!(h.fetch_count("host", "/example-4.json"), 1);
    assert_eq!(h.fetch_count("host", "/example-5.json"), 1);
    assert_eq!(h.storage.len(), 3);
    // 4, 5 and 1 are cached now; 2 and 3 are not.
    assert!(!h.get("host", "/example-4.json", 0, None, 9).1);
    assert!(!h.get("host", "/example-5.json", 0, None, 9).1);
    assert!(!h.get("host", "/example-1.json", 0, None, 14).1);
    assert!(h.get("host", "/example-3.json", 0, None, 9).1);
}

#[test]
fn test_cache_max_disk_capacity() {
    let mut h = Harness::new(499, 500);
    for _ in 0..5 {
        h.get("host", "/example-1.bin", 0, None, 100);
        h.get("host", "/example-2.bin", 0, None, 100);
        h.get("host", "/example-3.bin", 0, None, 100);
    }
    for i in 1..=3 {
        assert_eq!(h.fetch_count("host", &format!("/example-{i}.bin")), 1);
    }
    assert_eq!(h.storage.available_capacity(), 199);

    assert!(h.get("host", "/example-4.bin", 0, None, 100).1);
    assert!(h.get("host", "/example-5.bin", 0, None, 100).1);
    assert!(h.get("host", "/example-1.bin", 0, None, 100).1);
    assert_eq!(h.fetch_count("host", "/example-1.bin"), 2);
    assert_eq!(h.fetch_count("host", "/example-4.bin"), 1);
    assert_eq!(h.fetch_count("host", "/example-5.bin"), 1);
    assert_eq!(h.storage.available_capacity(), 99);

    // A resource as large as the whole capacity pushes out everything else.
    for _ in 0..5 {
        h.get("host", "/example-6.bin", 0, None, 499);
    }
    assert_eq!(h.fetch_count("host", "/example-6.bin"), 1);
    assert_eq!(h.storage.available_capacity(), 0);
}

#[test]
fn oversized_resource_reserves_what_is_left() {
    let mut storage = CacheStorage::with_limits(100, 10);
    storage.lookup("host", "/big", 0);
    // Making room pushes out the only entry, the one being filled.
    assert!(matches!(storage.reserve_or_evict(150), ReserveStep::Evicted(None)));
    match storage.reserve_or_evict(150) {
        ReserveStep::Exhausted(r) => assert_eq!(r.reserved(), 100),
        _ => panic!("expected the pool to be exhausted"),
    }
    assert_eq!(storage.available_capacity(), 0);
    let resource = CachedResource { id: 1, size: 150, expires_at: None };
    assert!(matches!(storage.store("host", "/big", resource), StoreOutcome::NotCached));

    // Served once, not kept: the next request fetches it again.
    let mut h = Harness::new(100, 10);
    assert!(h.get("host", "/big", 0, None, 150).1);
    assert!(h.get("host", "/big", 0, None, 150).1);
    assert_eq!(h.fetch_count("host", "/big"), 2);
    assert_eq!(h.storage.available_capacity(), 100);
}

#[test]
fn test_cache_partition_by_host_key() {
    let mut h = Harness::new(1_000_000, 500);
    let (a_foo, _) = h.get("host-a", "/foo.txt", 0, None, 5);
    let (b1_foo, _) = h.get("host-b", "/foo.txt", 0, None, 6);
    assert_ne!(a_foo, b1_foo);
    // Same host key: the resource cached for the first is reused.
    let (b2_foo, fetched) = h.get("host-b", "/foo.txt", 0, None, 6);
    assert!(!fetched);
    assert_eq!(b2_foo, b1_foo);
    assert_eq!(h.fetch_count("host-a", "/foo.txt"), 1);
    assert_eq!(h.fetch_count("host-b", "/foo.txt"), 1);
}

#[test]
fn test_cache_max_age() {
    let mut h = Harness::new(1_000_000, 500);
    let (a, _) = h.get("host", "/cache-for-2s", 0, Some(2 * SECOND), 1);
    let (again, fetched) = h.get("host", "/cache-for-2s", SECOND, Some(3 * SECOND), 1);
    assert!(!fetched);
    assert_eq!(a, again);
    // At the expiry instant the resource is fetched again.
    let (b, fetched) = h.get("host", "/cache-for-2s", 2 * SECOND, Some(4 * SECOND), 1);
    assert!(fetched);
    assert_ne!(a, b);
    let (b_again, fetched) = h.get("host", "/cache-for-2s", 3 * SECOND, Some(5 * SECOND), 1);
    assert!(!fetched);
    assert_eq!(b, b_again);
    // Resources without expiry stay.
    let (f, _) = h.get("host", "/cache-forever/foo", 0, None, 1);
    let (f_again, fetched) = h.get("host", "/cache-forever/foo", u128::MAX, None, 1);
    assert!(!fetched);
    assert_eq!(f, f_again);
}

#[test]
fn lookup_reports_expired_resource_as_released() {
    let mut storage = CacheStorage::with_limits(100, 2);
    assert!(storage.lookup("h", "/p", 0).resource.is_none());
    let resource = CachedResource { id: 7, size: 10, expires_at: Some(5) };
    assert!(matches!(storage.store("h", "/p", resource), StoreOutcome::Stored));
    let hit = storage.lookup("h", "/p", 4);
    assert_eq!(hit.resource, Some(resource));
    assert!(hit.released.is_empty());
    let expired = storage.lookup("h", "/p", 5);
    assert_eq!(expired.resource, None);
    assert_eq!(expired.released, vec![resource]);
}

#[test]
fn store_outcomes() {
    let mut storage = CacheStorage::with_limits(100, 1);
    let first = CachedResource { id: 1, size: 1, expires_at: None };
    let second = CachedResource { id: 2, size: 1, expires_at: None };
    // Not looked up: nothing to fill.
    assert!(matches!(storage.store("h", "/a", first), StoreOutcome::NotCached));
    storage.lookup("h", "/a", 0);
    assert!(matches!(storage.store("h", "/a", first), StoreOutcome::Stored));
    assert!(matches!(
        storage.store("h", "/a", second),
        StoreOutcome::AlreadyCached(r) if r == first
    ));
    // A new key pushes the full index's only entry out.
    let lookup = storage.lookup("h", "/b", 0);
    assert_eq!(lookup.released, vec![first]);
    assert!(matches!(storage.store("h", "/a", second), StoreOutcome::NotCached));
}

#[test]
fn file_limits() {
    let config = StorageConfig::default();
    assert_eq!(min_nofile_soft_limit(&config), 1000);
    assert_eq!(max_cache_files_for_soft_limit(&config, 1024), Some(524));
    assert_eq!(max_cache_files_for_soft_limit(&config, 500), None);
    assert_eq!(max_cache_files_for_soft_limit(&config, 499), None);

    let explicit = StorageConfig {
        max_cache_files: Some(3),
        ..StorageConfig::default()
    };
    assert_eq!(min_nofile_soft_limit(&explicit), 503);
    assert_eq!(max_cache_files_for_soft_limit(&explicit, 1), Some(3));

    let zero_min = StorageConfig {
        min_cache_files: 0,
        min_non_cache_files: 10,
        ..StorageConfig::default()
    };
    assert_eq!(min_nofile_soft_limit(&zero_min), 11);
}

#[test]
fn nofile_steps() {
    assert_eq!(nofile_step(1000, 1024, 4096), NofileStep::Keep);
    assert_eq!(nofile_step(1000, 1000, 4096), NofileStep::Keep);
    assert_eq!(nofile_step(1000, 256, 4096), NofileStep::Raise);
    assert_eq!(nofile_step(1000, 256, 999), NofileStep::HardLimitTooLow);
}

#[test]
fn storage_with_explicit_file_count() {
    let config = StorageConfig {
        max_disk_capacity: 499,
        max_cache_files: Some(3),
        min_cache_files: 1,
        min_non_cache_files: 0,
    };
    let storage = match CacheStorage::new(&config) {
        Ok(storage) => storage,
        Err(_) => panic!("a limit of three files is always available"),
    };
    assert_eq!(storage.max_entries(), 3);
    assert_eq!(storage.available_capacity(), 499);
    assert_eq!(storage.len(), 0);
}

#[test]
fn storage_sized_by_the_soft_limit_in_force() {
    let config = StorageConfig {
        max_disk_capacity: 4321,
        ..StorageConfig::default()
    };
    // The soft limit is enough: it stays, and what it leaves after the
    // files kept for other uses goes to the cache.
    match CacheStorage::storage_for_limits(&config, 1024, 4096, None) {
        Ok(storage) => {
            assert_eq!(storage.max_entries(), 524);
            assert_eq!(storage.available_capacity(), 4321);
            assert_eq!(storage.len(), 0);
        }
        Err(_) => panic!("a soft limit of 1024 is enough"),
    }
    // Exactly the least soft limit: the minimum number of cache files.
    match CacheStorage::storage_for_limits(&config, 1000, 1000, None) {
        Ok(storage) => assert_eq!(storage.max_entries(), 500),
        Err(_) => panic!("a soft limit of 1000 is enough"),
    }
    // The soft limit was raised: the raised one counts, not the old one.
    match CacheStorage::storage_for_limits(&config, 256, 4096, Some(1000)) {
        Ok(storage) => assert_eq!(storage.max_entries(), 500),
        Err(_) => panic!("the raised soft limit is enough"),
    }
}

#[test]
fn storage_refuses_unusable_limits() {
    let config = StorageConfig::default();
    assert!(matches!(
        CacheStorage::storage_for_limits(&config, 256, 999, None),
        Err(CacheStorageError::HardLimitTooLow {
            hard_limit: 999,
            min_soft_limit: 1000
        })
    ));
    // Raising fell short and leaves no file for the cache.
    assert!(matches!(
        CacheStorage::storage_for_limits(&config, 256, 4096, Some(400)),
        Err(CacheStorageError::UnusableSoftLimit { soft_limit: 400 })
    ));
    assert!(matches!(
        CacheStorage::storage_for_limits(&config, 256, 4096, Some(500)),
        Err(CacheStorageError::UnusableSoftLimit { soft_limit: 500 })
    ));
}

#[test]
fn storage_with_explicit_file_count_ignores_soft_limit() {
    let config = StorageConfig {
        max_disk_capacity: 10,
        max_cache_files: Some(3),
        min_cache_files: 1,
        min_non_cache_files: 0,
    };
    match CacheStorage::storage_for_limits(&config, 3, 3, None) {
        Ok(storage) => assert_eq!(storage.max_entries(), 3),
        Err(_) => panic!("three files fit"),
    }
    assert!(matches!(
        CacheStorage::storage_for_limits(&config, 1, 2, None),
        Err(CacheStorageError::HardLimitTooLow {
            hard_limit: 2,
            min_soft_limit: 3
        })
    ));
}

#[test]
fn miss_stays_miss_at_any_instant() {
    let mut storage = CacheStorage::with_limits(100, 4);
    assert!(storage.lookup("h", "/p", 10).resource.is_none());
    // Nothing was stored: an earlier or later instant misses too.
    assert!(storage.lookup("h", "/p", 5).resource.is_none());
    assert!(storage.lookup("h", "/p", 20).resource.is_none());
    // A hit stays a hit until the resource expires.
    let resource = CachedResource { id: 3, size: 1, expires_at: Some(30) };
    assert!(matches!(storage.store("h", "/p", resource), StoreOutcome::Stored));
    assert_eq!(storage.lookup("h", "/p", 25).resource, Some(resource));
    assert_eq!(storage.lookup("h", "/p", 0).resource, Some(resource));
    assert_eq!(storage.lookup("h", "/p", 30).resource, None);
    assert_eq!(storage.lookup("h", "/p", 0).resource, None);
}
