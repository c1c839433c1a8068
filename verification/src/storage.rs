//! The index of cached resources shared by all hosts, with its least
//! recently used order, and the disk capacity they use.
//!
//! Resources are keyed by host key and path. The index holds what the
//! caching logic decides on (an id, a size and an expiry per resource); the
//! files themselves are kept by the caller under those ids.
use vstd::prelude::*;

use lru::LruCache;

use crate::capacity::{
    CacheCapacityPool, CacheCapacityReservation, spec_reserve, spec_reserve_up_to,
};
use crate::config::StorageConfig;

verus! {

#[verifier::external_type_specification]
#[verifier::external_body]
#[verifier::reject_recursive_types(K)]
#[verifier::reject_recursive_types(V)]
#[verifier::reject_recursive_types(S)]
pub struct ExLruCache<K, V, S>(LruCache<K, V, S>);

#[verifier::external_type_specification]
#[verifier::external_body]
pub struct ExLruHasher(lru::DefaultHasher);

#[verifier::external_type_specification]
#[verifier::external_body]
pub struct ExIoError(std::io::Error);

/// A cached resource as the index sees it. Instants and spans are in
/// nanoseconds on the caller's monotonic clock.
#[derive(Clone, Copy, PartialEq, Eq, Structural, Debug)]
pub struct CachedResource {
    /// The id under which the caller keeps the resource's file.
    pub id: u64,
    /// The size of the resource, in bytes.
    pub size: u64,
    /// When the resource stops being valid, if ever.
    pub expires_at: Option<u128>,
}

/// Whether `resource` is no longer valid at `now`.
pub open spec fn spec_is_expired(resource: CachedResource, now: u128) -> bool {
    match resource.expires_at {
        Some(expires_at) => expires_at <= now,
        None => false,
    }
}

/// A resource without an expiry never expires; one with an expiry is
/// expired from that instant on, and valid before it.
pub proof fn lemma_expiry(resource: CachedResource, now: u128)
    ensures
        resource.expires_at is None ==> !spec_is_expired(resource, now),
        resource.expires_at matches Some(at) ==> (spec_is_expired(resource, now) <==> at <= now),
{
}

impl CachedResource {
    /// Whether the resource is no longer valid at `now`: it has an expiry,
    /// and that expiry is not after `now`.
    pub fn is_expired(&self, now: u128) -> (expired: bool)
        ensures
            expired == spec_is_expired(*self, now),
            self.expires_at is None ==> !expired,
            self.expires_at matches Some(at) ==> (expired <==> at <= now),
    {
        match self.expires_at {
            Some(expires_at) => expires_at <= now,
            None => false,
        }
    }
}

/// The key of a resource: the host key and the path, as characters.
pub type KeyView = (Seq<char>, Seq<char>);

/// One entry of the index: a key, and the resource once it has been fetched.
pub type EntryView = (KeyView, Option<CachedResource>);

/// The entries that an LRU cache holds, from the least to the most recently
/// used.
pub uninterp spec fn lru_entries(cache: LruCache<(String, String), Option<CachedResource>>) -> Seq<
    EntryView,
>;

/// The number of entries an LRU cache was made to hold at most.
pub uninterp spec fn lru_capacity(cache: LruCache<(String, String), Option<CachedResource>>) -> nat;

/// The view of a key.
pub open spec fn key_view(key: (String, String)) -> KeyView {
    (key.0@, key.1@)
}

/// Whether `entries` holds an entry for `key`.
pub open spec fn has_key(entries: Seq<EntryView>, key: KeyView) -> bool {
    exists|i: int| 0 <= i < entries.len() && entries[i].0 == key
}

/// The position of the entry for `key` in `entries`.
pub open spec fn key_index(entries: Seq<EntryView>, key: KeyView) -> int {
    choose|i: int| 0 <= i < entries.len() && entries[i].0 == key
}

/// No two entries have the same key.
pub open spec fn distinct_keys(entries: Seq<EntryView>) -> bool {
    forall|i: int, j: int|
        0 <= i < entries.len() && 0 <= j < entries.len() && i != j ==> entries[i].0
            != entries[j].0
}

/// `LruCache::new`: an empty cache holding at most `cap` entries.
#[verifier::external_body]
fn lru_new(cap: usize) -> (cache: LruCache<(String, String), Option<CachedResource>>)
    requires
        cap > 0,
    ensures
        lru_entries(cache) == Seq::<EntryView>::empty(),
        lru_capacity(cache) == cap,
{
    LruCache::new(std::num::NonZeroUsize::new(cap).unwrap())
}

/// `LruCache::len`: the number of entries.
#[verifier::external_body]
fn lru_len(cache: &LruCache<(String, String), Option<CachedResource>>) -> (len: usize)
    ensures
        len == lru_entries(*cache).len(),
{
    cache.len()
}

/// `LruCache::contains`: whether there is an entry for `key`; the order is
/// left as it is.
#[verifier::external_body]
fn lru_contains(cache: &LruCache<(String, String), Option<CachedResource>>, key: &(String, String)) -> (found: bool)
    ensures
        found == has_key(lru_entries(*cache), key_view(*key)),
{
    cache.contains(key)
}

/// `LruCache::pop_lru`: removes and returns the least recently used entry.
#[verifier::external_body]
fn lru_pop_lru(cache: &mut LruCache<(String, String), Option<CachedResource>>) -> (popped: Option<
    ((String, String), Option<CachedResource>),
>)
    ensures
        lru_capacity(*final(cache)) == lru_capacity(*old(cache)),
        lru_entries(*old(cache)).len() == 0 ==> popped is None && lru_entries(*final(cache))
            == lru_entries(*old(cache)),
        lru_entries(*old(cache)).len() > 0 ==> (popped matches Some(entry) && key_view(entry.0)
            == lru_entries(*old(cache))[0].0 && entry.1 == lru_entries(*old(cache))[0].1
            && lru_entries(*final(cache)) == lru_entries(*old(cache)).drop_first()),
{
    cache.pop_lru()
}

/// The value stored for a key that is inserted: no resource yet.
fn empty_slot() -> (slot: Option<CachedResource>)
    ensures
        slot is None,
{
    None
}

/// `LruCache::get_or_insert_mut_ref`: the value for `key`, made the most
/// recently used; an entry without a resource is inserted when there is
/// none. Callers make room first, so that nothing is pushed out.
#[verifier::external_body]
fn lru_get_or_insert_mut<'a>(
    cache: &'a mut LruCache<(String, String), Option<CachedResource>>,
    key: &(String, String),
) -> (slot: &'a mut Option<CachedResource>)
    requires
        has_key(lru_entries(*old(cache)), key_view(*key)) || lru_entries(*old(cache)).len()
            < lru_capacity(*old(cache)),
    ensures
        lru_capacity(*final(cache)) == lru_capacity(*old(cache)),
        has_key(lru_entries(*old(cache)), key_view(*key)) ==> ({
            let i = key_index(lru_entries(*old(cache)), key_view(*key));
            &&& *slot == lru_entries(*old(cache))[i].1
            &&& lru_entries(*final(cache)) == lru_entries(*old(cache)).remove(i).push(
                (key_view(*key), *final(slot)),
            )
        }),
        !has_key(lru_entries(*old(cache)), key_view(*key)) ==> ({
            &&& *slot is None
            &&& lru_entries(*final(cache)) == lru_entries(*old(cache)).push(
                (key_view(*key), *final(slot)),
            )
        }),
{
    cache.get_or_insert_mut_ref(key, empty_slot)
}

/// `LruCache::peek_mut`: the value for `key`, which must be present; the
/// order is left as it is.
#[verifier::external_body]
fn lru_peek_mut<'a>(
    cache: &'a mut LruCache<(String, String), Option<CachedResource>>,
    key: &(String, String),
) -> (slot: &'a mut Option<CachedResource>)
    requires
        has_key(lru_entries(*old(cache)), key_view(*key)),
    ensures
        lru_capacity(*final(cache)) == lru_capacity(*old(cache)),
        ({
            let i = key_index(lru_entries(*old(cache)), key_view(*key));
            &&& *slot == lru_entries(*old(cache))[i].1
            &&& lru_entries(*final(cache)) == lru_entries(*old(cache)).update(
                i,
                (key_view(*key), *final(slot)),
            )
        }),
{
    cache.peek_mut(key).unwrap()
}


/// The resource in a slot, as a sequence of zero or one.
pub open spec fn slot_resources(slot: Option<CachedResource>) -> Seq<CachedResource> {
    match slot {
        Some(resource) => seq![resource],
        None => Seq::empty(),
    }
}

/// A lookup of `key` at `now` in an index holding `entries` and at most
/// `max_entries` of them: the entries afterwards, the valid resource found
/// (if any), and the resources that left the index.
///
/// When the key is new and the index is full, the least recently used entry
/// is pushed out. The entry for the key then becomes the most recently used;
/// a resource that has expired at `now` is dropped from it.
pub open spec fn spec_lookup(entries: Seq<EntryView>, max_entries: nat, key: KeyView, now: u128) -> (
    Seq<EntryView>,
    Option<CachedResource>,
    Seq<CachedResource>,
) {
    let full = !has_key(entries, key) && entries.len() >= max_entries && entries.len() > 0;
    let room = if full { entries.drop_first() } else { entries };
    let pushed_out = if full { slot_resources(entries[0].1) } else { Seq::empty() };
    let rest = if has_key(room, key) { room.remove(key_index(room, key)) } else { room };
    let slot = if has_key(room, key) { room[key_index(room, key)].1 } else { None };
    let kept = match slot {
        Some(resource) => if spec_is_expired(resource, now) { None } else { slot },
        None => None,
    };
    let expired = match slot {
        Some(resource) => if spec_is_expired(resource, now) { seq![resource] } else { Seq::empty() },
        None => Seq::empty(),
    };
    (rest.push((key, kept)), kept, pushed_out + expired)
}

/// What a lookup found, and the resources that left the index on the way.
pub struct CacheLookup {
    /// The valid resource cached under the key, if any.
    pub resource: Option<CachedResource>,
    /// Resources that are no longer in the index: the caller drops their
    /// files and returns their reservations.
    pub released: Vec<CachedResource>,
}

/// One step of making room for a new resource.
pub enum ReserveStep {
    /// The bytes were reserved.
    Reserved(CacheCapacityReservation),
    /// Not enough bytes were available; the least recently used entry was
    /// removed, with its resource if it had one. The caller returns that
    /// resource's reservation once its file is dropped, and tries again.
    Evicted(Option<CachedResource>),
    /// Not enough bytes were available and the index is empty: as many bytes
    /// as were available were reserved.
    Exhausted(CacheCapacityReservation),
}

/// What became of a fetched resource handed to the index.
pub enum StoreOutcome {
    /// It is now cached under its key.
    Stored,
    /// Another resource was cached under the key in the meantime; it is
    /// returned, and the new one is not kept.
    AlreadyCached(CachedResource),
    /// The key left the index in the meantime; the resource is served once
    /// and not kept.
    NotCached,
}

/// Why the index could not be set up.
pub enum CacheStorageError {
    /// Reading the file descriptor limits failed.
    GetLimit(std::io::Error),
    /// The hard limit on file descriptors is below what the configuration
    /// needs.
    HardLimitTooLow { hard_limit: u64, min_soft_limit: u64 },
    /// Raising the soft limit on file descriptors failed.
    IncreaseLimit(std::io::Error),
    /// The soft limit leaves no file descriptor for the cache.
    UnusableSoftLimit { soft_limit: u64 },
}

/// The least soft limit on file descriptors that a storage configuration
/// needs: the cache files it asks for plus those kept for other uses.
pub open spec fn spec_min_nofile_soft_limit(config: StorageConfig) -> int {
    match config.max_cache_files {
        Some(max_cache_files) => max_cache_files + config.min_non_cache_files,
        None => config.min_non_cache_files + spec_min_cache_files(config),
    }
}

/// The least number of cache files that a configuration without a fixed
/// number asks for: its minimum, and at least one.
pub open spec fn spec_min_cache_files(config: StorageConfig) -> int {
    if config.min_cache_files > 1 {
        config.min_cache_files as int
    } else {
        1
    }
}

/// The number of cache files a configuration gets under a soft limit, when
/// that number is at least one and fits in a `usize`.
pub open spec fn spec_max_cache_files(config: StorageConfig, soft_limit: u64) -> Option<nat> {
    let files = match config.max_cache_files {
        Some(max_cache_files) => max_cache_files as int,
        None => soft_limit - config.min_non_cache_files,
    };
    if 1 <= files <= usize::MAX {
        Some(files as nat)
    } else {
        None
    }
}

/// Without a fixed number, a configuration gets exactly the soft limit less
/// the files kept for other uses, whenever that is at least one and fits a
/// `usize`, and nothing otherwise; with a fixed number it gets that number,
/// whatever the soft limit, whenever it is at least one and fits a `usize`.
pub proof fn lemma_max_cache_files(config: StorageConfig, soft_limit: u64)
    ensures
        config.max_cache_files is None ==> (spec_max_cache_files(config, soft_limit) is Some
            <==> config.min_non_cache_files + 1 <= soft_limit <= config.min_non_cache_files
            + usize::MAX),
        config.max_cache_files is None ==> (spec_max_cache_files(config, soft_limit) matches Some(
            n,
        ) ==> n + config.min_non_cache_files == soft_limit),
        config.max_cache_files matches Some(fixed) ==> (spec_max_cache_files(config, soft_limit)
            is Some <==> 1 <= fixed <= usize::MAX),
        config.max_cache_files matches Some(fixed) ==> (spec_max_cache_files(
            config,
            soft_limit,
        ) matches Some(n) ==> n == fixed),
{
}

/// The least soft limit a configuration needs is its fixed number of cache
/// files, or else its minimum number of them but at least one, plus the
/// files kept for other uses.
pub proof fn lemma_min_nofile_soft_limit(config: StorageConfig)
    ensures
        config.max_cache_files matches Some(files) ==> spec_min_nofile_soft_limit(config) == files
            + config.min_non_cache_files,
        config.max_cache_files is None && config.min_cache_files >= 1 ==> spec_min_nofile_soft_limit(
            config,
        ) == config.min_cache_files + config.min_non_cache_files,
        config.max_cache_files is None && config.min_cache_files == 0 ==> spec_min_nofile_soft_limit(
            config,
        ) == 1 + config.min_non_cache_files,
{
}

/// The least soft limit on file descriptors that `config` needs.
pub fn min_nofile_soft_limit(config: &StorageConfig) -> (limit: u64)
    requires
        spec_min_nofile_soft_limit(*config) <= u64::MAX,
    ensures
        limit == spec_min_nofile_soft_limit(*config),
        config.max_cache_files matches Some(files) ==> limit == files
            + config.min_non_cache_files,
        config.max_cache_files is None && config.min_cache_files >= 1 ==> limit
            == config.min_cache_files + config.min_non_cache_files,
        config.max_cache_files is None && config.min_cache_files == 0 ==> limit
            == 1 + config.min_non_cache_files,
{
    match config.max_cache_files {
        Some(max_cache_files) => max_cache_files + config.min_non_cache_files,
        None => {
            let min_cache_files = if config.min_cache_files > 1 {
                config.min_cache_files
            } else {
                1
            };
            config.min_non_cache_files + min_cache_files
        },
    }
}

/// The number of cache files `config` gets under `soft_limit`, or `None`
/// when that leaves none or more than a `usize` holds.
pub fn max_cache_files_for_soft_limit(config: &StorageConfig, soft_limit: u64) -> (files: Option<usize>)
    ensures
        files is Some <==> spec_max_cache_files(*config, soft_limit) is Some,
        files matches Some(n) ==> n == spec_max_cache_files(*config, soft_limit)->0,
        config.max_cache_files is None ==> (files is Some <==> config.min_non_cache_files + 1
            <= soft_limit <= config.min_non_cache_files + usize::MAX),
        config.max_cache_files is None ==> (files matches Some(n) ==> n + config.min_non_cache_files
            == soft_limit),
        config.max_cache_files matches Some(fixed) ==> (files is Some <==> 1 <= fixed
            <= usize::MAX),
        config.max_cache_files matches Some(fixed) ==> (files matches Some(n) ==> n == fixed),
{
    let files = match config.max_cache_files {
        Some(max_cache_files) => max_cache_files,
        None => {
            if soft_limit < config.min_non_cache_files {
                return None;
            }
            soft_limit - config.min_non_cache_files
        },
    };
    if files == 0 || files as u128 > usize::MAX as u128 {
        None
    } else {
        Some(files as usize)
    }
}

/// What to do with the soft limit on file descriptors that the process has.
#[derive(Clone, Copy, PartialEq, Eq, Structural, Debug)]
pub enum NofileStep {
    /// Even the hard limit is below what the configuration needs.
    HardLimitTooLow,
    /// The soft limit is below what the configuration needs: raise it.
    Raise,
    /// The soft limit is enough: keep it.
    Keep,
}

/// What to do with the soft limit, given the least soft limit needed and
/// the process's soft and hard limits.
pub open spec fn spec_nofile_step(min_soft_limit: u64, soft_limit: u64, hard_limit: u64) -> NofileStep {
    if min_soft_limit > hard_limit {
        NofileStep::HardLimitTooLow
    } else if soft_limit < min_soft_limit {
        NofileStep::Raise
    } else {
        NofileStep::Keep
    }
}

/// The soft limit on file descriptors in force once the configuration's
/// needs are met: the raised one where the soft limit had to be raised, the
/// current one otherwise.
pub open spec fn spec_soft_limit_in_force(
    config: StorageConfig,
    current_soft_limit: u64,
    hard_limit: u64,
    raised_soft_limit: Option<u64>,
) -> u64 {
    match spec_nofile_step(spec_min_nofile_soft_limit(config) as u64, current_soft_limit, hard_limit) {
        NofileStep::Raise => match raised_soft_limit {
            Some(soft_limit) => soft_limit,
            None => current_soft_limit,
        },
        _ => current_soft_limit,
    }
}

/// The soft limit is raised exactly when the hard limit allows what the
/// configuration needs and the soft limit is below it; it is kept exactly
/// when it already is at least that; and the hard limit is too low exactly
/// when it is below what is needed.
pub proof fn lemma_nofile_steps(min_soft_limit: u64, soft_limit: u64, hard_limit: u64)
    ensures
        hard_limit < min_soft_limit <==> spec_nofile_step(min_soft_limit, soft_limit, hard_limit)
            == NofileStep::HardLimitTooLow,
        min_soft_limit <= hard_limit && soft_limit < min_soft_limit <==> spec_nofile_step(
            min_soft_limit,
            soft_limit,
            hard_limit,
        ) == NofileStep::Raise,
        min_soft_limit <= hard_limit && min_soft_limit <= soft_limit <==> spec_nofile_step(
            min_soft_limit,
            soft_limit,
            hard_limit,
        ) == NofileStep::Keep,
{
}

/// Once the configuration's needs are met, the soft limit in force is the
/// raised one when the current one was below what is needed, and the
/// current one when it was not.
pub proof fn lemma_soft_limit_in_force(
    config: StorageConfig,
    current_soft_limit: u64,
    hard_limit: u64,
    raised_soft_limit: u64,
)
    requires
        spec_min_nofile_soft_limit(config) <= hard_limit,
    ensures
        current_soft_limit < spec_min_nofile_soft_limit(config) ==> spec_soft_limit_in_force(
            config,
            current_soft_limit,
            hard_limit,
            Some(raised_soft_limit),
        ) == raised_soft_limit,
        current_soft_limit >= spec_min_nofile_soft_limit(config) ==> spec_soft_limit_in_force(
            config,
            current_soft_limit,
            hard_limit,
            Some(raised_soft_limit),
        ) == current_soft_limit,
{
}

/// Decides what to do with the soft limit on file descriptors.
pub fn nofile_step(min_soft_limit: u64, soft_limit: u64, hard_limit: u64) -> (step: NofileStep)
    ensures
        step == spec_nofile_step(min_soft_limit, soft_limit, hard_limit),
        hard_limit < min_soft_limit <==> step == NofileStep::HardLimitTooLow,
        min_soft_limit <= hard_limit && soft_limit < min_soft_limit <==> step == NofileStep::Raise,
        min_soft_limit <= hard_limit && min_soft_limit <= soft_limit <==> step == NofileStep::Keep,
{
    if min_soft_limit > hard_limit {
        NofileStep::HardLimitTooLow
    } else if soft_limit < min_soft_limit {
        NofileStep::Raise
    } else {
        NofileStep::Keep
    }
}

/// `rlimit::getrlimit` for `NOFILE`: the soft and hard limits. What comes
/// back depends on the process and the machine; nothing is stated of it.
#[verifier::external_body]
fn get_nofile_limits() -> (limits: Result<(u64, u64), std::io::Error>) {
    rlimit::getrlimit(rlimit::Resource::NOFILE)
}

/// `rlimit::increase_nofile_limit`: raises the soft limit towards `limit`
/// and returns the soft limit now in force. What comes back depends on the
/// process and the machine; nothing is stated of it.
#[verifier::external_body]
fn increase_nofile_limit(limit: u64) -> (soft_limit: Result<u64, std::io::Error>) {
    rlimit::increase_nofile_limit(limit)
}

/// The index of cached resources, and the disk capacity they may use.
pub struct CacheStorage {
    capacity_pool: CacheCapacityPool,
    max_entries: usize,
    cached_resources: LruCache<(String, String), Option<CachedResource>>,
}

impl CacheStorage {
    /// The entries, from the least to the most recently used.
    pub closed spec fn spec_entries(&self) -> Seq<EntryView> {
        lru_entries(self.cached_resources)
    }

    /// The greatest number of entries the index holds.
    pub closed spec fn spec_max_entries(&self) -> nat {
        lru_capacity(self.cached_resources)
    }

    /// The bytes still available to new resources.
    pub closed spec fn spec_available(&self) -> nat {
        self.capacity_pool@
    }

    /// The index holds each key at most once, and no more entries than it
    /// may.
    pub closed spec fn wf(&self) -> bool {
        &&& distinct_keys(self.spec_entries())
        &&& self.spec_entries().len() <= self.spec_max_entries()
        &&& self.spec_max_entries() == self.max_entries
        &&& self.max_entries > 0
    }

    /// What a well-formed index guarantees: each key occurs at most once,
    /// and the index holds no more entries than it may, which is at least
    /// one.
    pub proof fn lemma_wf(&self)
        requires
            self.wf(),
        ensures
            distinct_keys(self.spec_entries()),
            self.spec_entries().len() <= self.spec_max_entries(),
            self.spec_max_entries() > 0,
    {
    }

    /// An empty index holding at most `max_entries` entries, and a pool of
    /// `capacity` bytes.
    pub fn with_limits(capacity: u64, max_entries: usize) -> (storage: Self)
        requires
            max_entries > 0,
        ensures
            storage.wf(),
            storage.spec_entries().len() == 0,
            storage.spec_max_entries() == max_entries,
            storage.spec_available() == capacity,
    {
        CacheStorage {
            capacity_pool: CacheCapacityPool::new(capacity),
            max_entries,
            cached_resources: lru_new(max_entries),
        }
    }

    /// Sets up the index for `config`, given the limits on file descriptors
    /// that the process had (`current_soft_limit`, `hard_limit`) and, when
    /// the soft limit had to be raised, the soft limit in force afterwards.
    ///
    /// The hard limit must allow the least soft limit the configuration
    /// needs; the index then holds the configured number of cache files, or
    /// else what the soft limit in force leaves after the files kept for
    /// other uses.
    pub fn storage_for_limits(
        config: &StorageConfig,
        current_soft_limit: u64,
        hard_limit: u64,
        raised_soft_limit: Option<u64>,
    ) -> (result: Result<Self, CacheStorageError>)
        requires
            spec_min_nofile_soft_limit(*config) <= u64::MAX,
            config.max_cache_files matches Some(files) ==> 1 <= files <= usize::MAX,
            spec_nofile_step(
                spec_min_nofile_soft_limit(*config) as u64,
                current_soft_limit,
                hard_limit,
            ) is Raise ==> raised_soft_limit is Some,
        ensures
            ({
                let min_soft_limit = spec_min_nofile_soft_limit(*config);
                let step = spec_nofile_step(min_soft_limit as u64, current_soft_limit, hard_limit);
                let soft_limit = spec_soft_limit_in_force(
                    *config,
                    current_soft_limit,
                    hard_limit,
                    raised_soft_limit,
                );
                let files = spec_max_cache_files(*config, soft_limit);
                &&& (step is HardLimitTooLow <==> hard_limit < min_soft_limit)
                &&& step is HardLimitTooLow ==> result == Err::<Self, CacheStorageError>(
                    CacheStorageError::HardLimitTooLow {
                        hard_limit,
                        min_soft_limit: min_soft_limit as u64,
                    },
                )
                &&& step !is HardLimitTooLow && files is None ==> result
                    == Err::<Self, CacheStorageError>(
                    CacheStorageError::UnusableSoftLimit { soft_limit },
                )
                &&& (result is Ok <==> step !is HardLimitTooLow && files is Some)
                &&& result matches Ok(storage) ==> {
                    &&& storage.wf()
                    &&& storage.spec_entries().len() == 0
                    &&& storage.spec_max_entries() == files->0
                    &&& storage.spec_available() == config.max_disk_capacity
                    &&& config.max_cache_files is None && soft_limit >= min_soft_limit
                        ==> storage.spec_max_entries() >= spec_min_cache_files(*config)
                }
            }),
    {
        let min_soft_limit = min_nofile_soft_limit(config);
        let soft_limit = match nofile_step(min_soft_limit, current_soft_limit, hard_limit) {
            NofileStep::HardLimitTooLow => {
                return Err(CacheStorageError::HardLimitTooLow { hard_limit, min_soft_limit });
            },
            NofileStep::Raise => match raised_soft_limit {
                Some(soft_limit) => soft_limit,
                None => current_soft_limit,
            },
            NofileStep::Keep => current_soft_limit,
        };
        match max_cache_files_for_soft_limit(config, soft_limit) {
            Some(max_cache_files) => Ok(
                CacheStorage::with_limits(config.max_disk_capacity, max_cache_files),
            ),
            None => Err(CacheStorageError::UnusableSoftLimit { soft_limit }),
        }
    }

    /// Sets up the index for `config`: reads the process's limits on file
    /// descriptors, raises the soft limit when it is below what the
    /// configuration needs, and sizes the index as [`Self::storage_for_limits`]
    /// says for the limits read.
    ///
    /// The limits come from the machine, so which outcome comes back is not
    /// stated here; what holds of each outcome is.
    pub fn new(config: &StorageConfig) -> (result: Result<Self, CacheStorageError>)
        requires
            spec_min_nofile_soft_limit(*config) <= u64::MAX,
            config.max_cache_files matches Some(files) ==> 1 <= files <= usize::MAX,
        ensures
            result matches Ok(storage) ==> {
                &&& storage.wf()
                &&& storage.spec_entries().len() == 0
                &&& storage.spec_available() == config.max_disk_capacity
                &&& config.max_cache_files matches Some(files) ==> storage.spec_max_entries()
                    == files
            },
            result matches Err(CacheStorageError::HardLimitTooLow { hard_limit, min_soft_limit }) ==> {
                &&& min_soft_limit == spec_min_nofile_soft_limit(*config)
                &&& hard_limit < min_soft_limit
            },
            result matches Err(CacheStorageError::UnusableSoftLimit { soft_limit }) ==> {
                &&& config.max_cache_files is None
                &&& spec_max_cache_files(*config, soft_limit) is None
            },
    {
        let (current_soft_limit, hard_limit) = match get_nofile_limits() {
            Ok(limits) => limits,
            Err(error) => return Err(CacheStorageError::GetLimit(error)),
        };
        let min_soft_limit = min_nofile_soft_limit(config);
        let raised_soft_limit = match nofile_step(min_soft_limit, current_soft_limit, hard_limit) {
            NofileStep::Raise => match increase_nofile_limit(min_soft_limit) {
                Ok(soft_limit) => Some(soft_limit),
                Err(error) => return Err(CacheStorageError::IncreaseLimit(error)),
            },
            _ => None,
        };
        CacheStorage::storage_for_limits(config, current_soft_limit, hard_limit, raised_soft_limit)
    }

    /// The bytes still available to new resources.
    pub fn available_capacity(&self) -> (available: u64)
        ensures
            available == self.spec_available(),
    {
        self.capacity_pool.available_capacity()
    }

    /// The greatest number of entries the index holds.
    pub fn max_entries(&self) -> (max_entries: usize)
        requires
            self.wf(),
        ensures
            max_entries == self.spec_max_entries(),
    {
        self.max_entries
    }

    /// The number of entries in the index.
    pub fn len(&self) -> (len: usize)
        ensures
            len == self.spec_entries().len(),
    {
        lru_len(&self.cached_resources)
    }

    /// Looks up the resource of `path` under `host` at `now`, as
    /// [`spec_lookup`] describes: the key becomes the most recently used, an
    /// entry is made for it when there was none (pushing out the least
    /// recently used entry when the index is full), and an expired resource
    /// is dropped from it.
    pub fn lookup(&mut self, host: &str, path: &str, now: u128) -> (lookup: CacheLookup)
        requires
            old(self).wf(),
        ensures
            final(self).wf(),
            final(self).spec_max_entries() == old(self).spec_max_entries(),
            final(self).spec_available() == old(self).spec_available(),
            ({
                let (entries, found, released) = spec_lookup(
                    old(self).spec_entries(),
                    old(self).spec_max_entries(),
                    (host@, path@),
                    now,
                );
                &&& final(self).spec_entries() == entries
                &&& lookup.resource == found
                &&& lookup.released@ == released
            }),
    {
        let key = (String::from_str(host), String::from_str(path));
        let ghost entries = self.spec_entries();
        let ghost k = key_view(key);
        let mut released: Vec<CachedResource> = Vec::new();
        let full = !lru_contains(&self.cached_resources, &key) && lru_len(&self.cached_resources)
            >= self.max_entries;
        if full {
            let popped = lru_pop_lru(&mut self.cached_resources);
            if let Some((_, Some(resource))) = popped {
                released.push(resource);
            }
            proof {
                assert(released@ =~= slot_resources(entries[0].1));
            }
        }
        let ghost room = self.spec_entries();
        proof {
            assert(room =~= (if full { entries.drop_first() } else { entries }));
            assert(distinct_keys(room));
            if !has_key(entries, k) {
                assert(!has_key(room, k));
            }
        }
        let slot = lru_get_or_insert_mut(&mut self.cached_resources, &key);
        let ghost found_slot = *slot;
        let mut expired = false;
        if let Some(resource) = *slot {
            if resource.is_expired(now) {
                released.push(resource);
                *slot = None;
                expired = true;
            }
        }
        let result = *slot;
        proof {
            lemma_lookup_keeps_distinct(room, k, result);
            let rest = if has_key(room, k) { room.remove(key_index(room, k)) } else { room };
            assert(self.spec_entries() == rest.push((k, result)));
            assert(released@ =~= spec_lookup(entries, self.spec_max_entries(), k, now).2);
        }
        CacheLookup { resource: result, released }
    }

    /// One step of making room for `size` new bytes: reserves them when they
    /// are available; otherwise removes the least recently used entry; when
    /// the index is empty, reserves what is left.
    pub fn reserve_or_evict(&mut self, size: u64) -> (step: ReserveStep)
        requires
            old(self).wf(),
        ensures
            final(self).wf(),
            final(self).spec_max_entries() == old(self).spec_max_entries(),
            match step {
                ReserveStep::Reserved(reservation) => {
                    &&& spec_reserve(old(self).spec_available(), size as nat) is Some
                    &&& reservation@ == size
                    &&& final(self).spec_available() == spec_reserve(
                        old(self).spec_available(),
                        size as nat,
                    )->0
                    &&& final(self).spec_entries() == old(self).spec_entries()
                },
                ReserveStep::Evicted(slot) => {
                    &&& spec_reserve(old(self).spec_available(), size as nat) is None
                    &&& old(self).spec_entries().len() > 0
                    &&& slot == old(self).spec_entries()[0].1
                    &&& final(self).spec_entries() == old(self).spec_entries().drop_first()
                    &&& final(self).spec_available() == old(self).spec_available()
                },
                ReserveStep::Exhausted(reservation) => {
                    &&& spec_reserve(old(self).spec_available(), size as nat) is None
                    &&& old(self).spec_entries().len() == 0
                    &&& reservation@ == spec_reserve_up_to(old(self).spec_available(), size as nat)
                    &&& final(self).spec_available() + reservation@ == old(self).spec_available()
                    &&& final(self).spec_entries() == old(self).spec_entries()
                },
            },
    {
        if let Some(reservation) = self.capacity_pool.reserve(size) {
            return ReserveStep::Reserved(reservation);
        }
        let ghost entries = self.spec_entries();
        match lru_pop_lru(&mut self.cached_resources) {
            Some((_, slot)) => {
                proof {
                    assert forall|a: int, b: int|
                        0 <= a < entries.drop_first().len() && 0 <= b < entries.drop_first().len()
                            && a != b implies entries.drop_first()[a].0
                        != entries.drop_first()[b].0 by {
                        assert(entries.drop_first()[a] == entries[a + 1]);
                        assert(entries.drop_first()[b] == entries[b + 1]);
                    }
                }
                ReserveStep::Evicted(slot)
            },
            None => ReserveStep::Exhausted(self.capacity_pool.reserve_up_to(size)),
        }
    }

    /// Hands a fetched resource to the index under `path` and `host`: it is
    /// kept when the key is still there without a resource; otherwise the
    /// index is left as it is. The order of the entries does not change.
    pub fn store(&mut self, host: &str, path: &str, resource: CachedResource) -> (outcome: StoreOutcome)
        requires
            old(self).wf(),
        ensures
            final(self).wf(),
            final(self).spec_max_entries() == old(self).spec_max_entries(),
            final(self).spec_available() == old(self).spec_available(),
            ({
                let entries = old(self).spec_entries();
                let k = (host@, path@);
                if has_key(entries, k) {
                    let i = key_index(entries, k);
                    match entries[i].1 {
                        None => outcome is Stored && final(self).spec_entries() == entries.update(
                            i,
                            (k, Some(resource)),
                        ),
                        Some(existing) => outcome == StoreOutcome::AlreadyCached(existing)
                            && final(self).spec_entries() == entries,
                    }
                } else {
                    outcome is NotCached && final(self).spec_entries() == entries
                }
            }),
    {
        let key = (String::from_str(host), String::from_str(path));
        let ghost entries = self.spec_entries();
        if !lru_contains(&self.cached_resources, &key) {
            return StoreOutcome::NotCached;
        }
        let slot = lru_peek_mut(&mut self.cached_resources, &key);
        match *slot {
            Some(existing) => {
                proof {
                    assert(self.spec_entries() =~= entries);
                }
                StoreOutcome::AlreadyCached(existing)
            },
            None => {
                *slot = Some(resource);
                proof {
                    let i = key_index(entries, key_view(key));
                    let after = entries.update(i, (key_view(key), Some(resource)));
                    assert forall|a: int, b: int|
                        0 <= a < after.len() && 0 <= b < after.len() && a != b implies after[a].0
                        != after[b].0 by {
                        assert(after[a].0 == entries[a].0);
                        assert(after[b].0 == entries[b].0);
                    }
                }
                StoreOutcome::Stored
            },
        }
    }

    /// Returns the bytes of `reservation` to the pool, once the resource
    /// that held them is gone.
    pub fn release(&mut self, reservation: &mut CacheCapacityReservation)
        requires
            old(self).wf(),
            old(self).spec_available() + old(reservation)@ <= u64::MAX,
        ensures
            final(self).wf(),
            final(self).spec_entries() == old(self).spec_entries(),
            final(self).spec_max_entries() == old(self).spec_max_entries(),
            final(self).spec_available() == old(self).spec_available() + old(reservation)@,
            final(reservation)@ == 0,
    {
        reservation.return_to_pool(&mut self.capacity_pool);
    }
}


/// A lookup only ever returns the resource cached under exactly the key it
/// was asked for, and only while that resource has not expired.
pub proof fn lemma_lookup_returns_own_valid_resource(
    entries: Seq<EntryView>,
    max_entries: nat,
    key: KeyView,
    now: u128,
)
    ensures
        spec_lookup(entries, max_entries, key, now).1 matches Some(resource) ==> {
            &&& has_key(entries, key)
            &&& entries[key_index(entries, key)].1 == Some(resource)
            &&& !spec_is_expired(resource, now)
        },
{
}

/// After a lookup the key is the most recently used entry, keys stay
/// distinct, and the index holds no more entries than it may.
pub proof fn lemma_lookup_keeps_bounds(entries: Seq<EntryView>, max_entries: nat, key: KeyView, now: u128)
    requires
        distinct_keys(entries),
        entries.len() <= max_entries,
        max_entries > 0,
    ensures
        ({
            let after = spec_lookup(entries, max_entries, key, now).0;
            &&& after.len() <= max_entries
            &&& after.last().0 == key
            &&& after.last().1 == spec_lookup(entries, max_entries, key, now).1
        }),
{
}

/// Lemma: with distinct keys, the entry at `i` is the one `key_index`
/// picks for its key.
proof fn lemma_key_index_unique(entries: Seq<EntryView>, i: int)
    requires
        distinct_keys(entries),
        0 <= i < entries.len(),
    ensures
        has_key(entries, entries[i].0),
        key_index(entries, entries[i].0) == i,
{
    assert(has_key(entries, entries[i].0));
}

/// Moving the entry for `key` to the most recent end, with `slot` as its
/// resource, keeps the keys distinct.
proof fn lemma_lookup_keeps_distinct(room: Seq<EntryView>, key: KeyView, slot: Option<CachedResource>)
    requires
        distinct_keys(room),
    ensures
        ({
            let rest = if has_key(room, key) { room.remove(key_index(room, key)) } else { room };
            &&& forall|i: int| 0 <= i < rest.len() ==> rest[i].0 != key
            &&& distinct_keys(rest.push((key, slot)))
        }),
{
    let rest = if has_key(room, key) { room.remove(key_index(room, key)) } else { room };
    assert(forall|i: int| 0 <= i < rest.len() ==> rest[i].0 != key) by {
        if has_key(room, key) {
            let j = key_index(room, key);
            assert forall|i: int| 0 <= i < rest.len() implies rest[i].0 != key by {
                if i < j {
                    assert(rest[i] == room[i]);
                } else {
                    assert(rest[i] == room[i + 1]);
                }
            }
        }
    }
    assert(distinct_keys(rest)) by {
        if has_key(room, key) {
            let j = key_index(room, key);
            assert forall|a: int, b: int|
                0 <= a < rest.len() && 0 <= b < rest.len() && a != b implies rest[a].0
                != rest[b].0 by {
                let ra = if a < j { a } else { a + 1 };
                let rb = if b < j { b } else { b + 1 };
                assert(rest[a] == room[ra]);
                assert(rest[b] == room[rb]);
            }
        }
    }
    let after = rest.push((key, slot));
    assert forall|a: int, b: int|
        0 <= a < after.len() && 0 <= b < after.len() && a != b implies after[a].0
        != after[b].0 by {
        if a < rest.len() {
            assert(after[a] == rest[a]);
        }
        if b < rest.len() {
            assert(after[b] == rest[b]);
        }
    }
}

/// A lookup keeps the keys of the index distinct.
pub proof fn lemma_lookup_keeps_distinct_keys(
    entries: Seq<EntryView>,
    max_entries: nat,
    key: KeyView,
    now: u128,
)
    requires
        distinct_keys(entries),
    ensures
        distinct_keys(spec_lookup(entries, max_entries, key, now).0),
{
    let full = !has_key(entries, key) && entries.len() >= max_entries && entries.len() > 0;
    let room = if full { entries.drop_first() } else { entries };
    assert(distinct_keys(room)) by {
        if full {
            assert forall|a: int, b: int|
                0 <= a < room.len() && 0 <= b < room.len() && a != b implies room[a].0
                != room[b].0 by {
                assert(room[a] == entries[a + 1]);
                assert(room[b] == entries[b + 1]);
            }
        }
    }
    lemma_lookup_keeps_distinct(room, key, spec_lookup(entries, max_entries, key, now).1);
}

/// A resource whose expiry instant has come is not returned: the lookup
/// finds nothing, hands the resource back as released, keeps the key as the
/// most recently used entry without a resource, and pushes nothing out.
pub proof fn lemma_lookup_drops_expired(
    entries: Seq<EntryView>,
    max_entries: nat,
    key: KeyView,
    now: u128,
)
    requires
        has_key(entries, key),
        entries[key_index(entries, key)].1 matches Some(resource) && resource.expires_at matches Some(
            at,
        ) && at <= now,
    ensures
        ({
            let (after, found, released) = spec_lookup(entries, max_entries, key, now);
            &&& found is None
            &&& released == seq![entries[key_index(entries, key)].1->0]
            &&& after.len() == entries.len()
            &&& after.last() == (key, None::<CachedResource>)
        }),
{
    let (after, found, released) = spec_lookup(entries, max_entries, key, now);
    assert(released =~= seq![entries[key_index(entries, key)].1->0]);
}

/// A key that is not in the index is a miss: the lookup finds nothing and
/// the key becomes the most recently used entry, without a resource.
pub proof fn lemma_lookup_new_key(
    entries: Seq<EntryView>,
    max_entries: nat,
    key: KeyView,
    now: u128,
)
    requires
        distinct_keys(entries),
        !has_key(entries, key),
    ensures
        spec_lookup(entries, max_entries, key, now).1 is None,
        spec_lookup(entries, max_entries, key, now).0.last() == (key, None::<CachedResource>),
{
    let full = entries.len() >= max_entries && entries.len() > 0;
    if full {
        assert(!has_key(entries.drop_first(), key)) by {
            if has_key(entries.drop_first(), key) {
                let j = key_index(entries.drop_first(), key);
                assert(entries[j + 1].0 == key);
            }
        }
    }
}

/// Looking a key up again, with nothing stored in between, gives back what
/// the first lookup found while it has not expired, and nothing otherwise.
/// In particular a miss stays a miss, whatever the instant of either
/// lookup, so the resource is fetched again.
pub proof fn lemma_lookup_again(
    entries: Seq<EntryView>,
    max_entries: nat,
    key: KeyView,
    first: u128,
    second: u128,
)
    requires
        distinct_keys(entries),
        entries.len() <= max_entries,
        max_entries > 0,
    ensures
        ({
            let (after, found, _) = spec_lookup(entries, max_entries, key, first);
            spec_lookup(after, max_entries, key, second).1 == match found {
                Some(resource) => if spec_is_expired(resource, second) {
                    None
                } else {
                    found
                },
                None => None,
            }
        }),
{
    let after = spec_lookup(entries, max_entries, key, first).0;
    lemma_lookup_keeps_bounds(entries, max_entries, key, first);
    lemma_lookup_keeps_distinct_keys(entries, max_entries, key, first);
    lemma_key_index_unique(after, after.len() - 1);
}

/// What a lookup gives back of a store: once a fetched resource is stored
/// under its key, a lookup of that key returns it for as long as it has not
/// expired.
pub proof fn lemma_lookup_after_store(
    entries: Seq<EntryView>,
    max_entries: nat,
    key: KeyView,
    resource: CachedResource,
    now: u128,
)
    requires
        distinct_keys(entries),
        has_key(entries, key),
        entries[key_index(entries, key)].1 is None,
        !spec_is_expired(resource, now),
    ensures
        spec_lookup(
            entries.update(key_index(entries, key), (key, Some(resource))),
            max_entries,
            key,
            now,
        ).1 == Some(resource),
{
    let i = key_index(entries, key);
    let after = entries.update(i, (key, Some(resource)));
    assert(distinct_keys(after)) by {
        assert forall|a: int, b: int|
            0 <= a < after.len() && 0 <= b < after.len() && a != b implies after[a].0
            != after[b].0 by {
            assert(after[a].0 == entries[a].0);
            assert(after[b].0 == entries[b].0);
        }
    }
    lemma_key_index_unique(after, i);
}

/// Hosts do not see each other's resources: storing a resource under one
/// key leaves what a lookup of any other key returns unchanged.
pub proof fn lemma_store_leaves_other_keys(
    entries: Seq<EntryView>,
    max_entries: nat,
    stored_key: KeyView,
    resource: CachedResource,
    key: KeyView,
    now: u128,
)
    requires
        distinct_keys(entries),
        has_key(entries, stored_key),
        key != stored_key,
    ensures
        spec_lookup(
            entries.update(key_index(entries, stored_key), (stored_key, Some(resource))),
            max_entries,
            key,
            now,
        ).1 == spec_lookup(entries, max_entries, key, now).1,
{
    let i = key_index(entries, stored_key);
    let after = entries.update(i, (stored_key, Some(resource)));
    assert(has_key(after, key) == has_key(entries, key)) by {
        if has_key(entries, key) {
            let j = key_index(entries, key);
            assert(after[j].0 == key);
        }
        if has_key(after, key) {
            let j = key_index(after, key);
            assert(entries[j].0 == key);
        }
    }
    if has_key(entries, key) {
        let j = key_index(entries, key);
        lemma_key_index_unique(entries, j);
        assert(after[j].0 == key);
        assert(distinct_keys(after)) by {
            assert forall|a: int, b: int|
                0 <= a < after.len() && 0 <= b < after.len() && a != b implies after[a].0
                != after[b].0 by {
                assert(after[a].0 == entries[a].0);
                assert(after[b].0 == entries[b].0);
            }
        }
        lemma_key_index_unique(after, j);
        assert(after[j] == entries[j]);
    }
}

/// The entry that leaves the index to make room is the least recently used
/// one: a new key pushes out the first entry, and only when the index is
/// full.
pub proof fn lemma_lookup_pushes_out_least_recent(
    entries: Seq<EntryView>,
    max_entries: nat,
    key: KeyView,
    now: u128,
)
    requires
        distinct_keys(entries),
        entries.len() <= max_entries,
        max_entries > 0,
        !has_key(entries, key),
    ensures
        entries.len() < max_entries ==> spec_lookup(entries, max_entries, key, now).0 == entries.push(
            (key, None),
        ),
        entries.len() == max_entries ==> spec_lookup(entries, max_entries, key, now).0
            == entries.drop_first().push((key, None)),
{
    if entries.len() == max_entries {
        assert(!has_key(entries.drop_first(), key)) by {
            if has_key(entries.drop_first(), key) {
                let j = key_index(entries.drop_first(), key);
                assert(entries[j + 1].0 == key);
            }
        }
    }
}

/// A hit only changes the order of the index: the same entries stay, none
/// leaves, and the one that was hit becomes the most recently used.
pub proof fn lemma_hit_only_reorders(
    entries: Seq<EntryView>,
    max_entries: nat,
    key: KeyView,
    now: u128,
)
    requires
        has_key(entries, key),
        entries[key_index(entries, key)].1 matches Some(resource) && !spec_is_expired(
            resource,
            now,
        ),
    ensures
        ({
            let (after, found, released) = spec_lookup(entries, max_entries, key, now);
            &&& found == entries[key_index(entries, key)].1
            &&& released.len() == 0
            &&& after.len() == entries.len()
            &&& forall|e: EntryView| after.contains(e) <==> entries.contains(e)
        }),
{
    let i = key_index(entries, key);
    let after = spec_lookup(entries, max_entries, key, now).0;
    let rest = entries.remove(i);
    assert(after == rest.push(entries[i]));
    assert forall|e: EntryView| after.contains(e) <==> entries.contains(e) by {
        if after.contains(e) {
            let j = choose|j: int| 0 <= j < after.len() && after[j] == e;
            if j < rest.len() {
                if j < i {
                    assert(entries[j] == e);
                } else {
                    assert(entries[j + 1] == e);
                }
            } else {
                assert(entries[i] == e);
            }
        }
        if entries.contains(e) {
            let j = choose|j: int| 0 <= j < entries.len() && entries[j] == e;
            if j < i {
                assert(after[j] == e);
            } else if j > i {
                assert(after[j - 1] == e);
            } else {
                assert(after[after.len() - 1] == e);
            }
        }
    }
}
} // verus!
