//! Configuration values that the caching logic reads.
//!
//! These are the plain forms of the settings; reading them from a file or
//! the environment happens around the library.
use vstd::prelude::*;

verus! {

/// One second, in nanoseconds.
pub const NANOS_PER_SEC: u128 = 1_000_000_000;

/// Number of bytes in one gibibyte (1024 cubed).
pub open spec fn spec_gibibyte() -> nat {
    1_073_741_824
}

/// A signed span of time, as seconds and the nanoseconds beyond them.
///
/// Both parts carry the same sign, and the nanoseconds stay below one second
/// in magnitude.
pub struct ConfigDuration {
    secs: i64,
    nanos: i32,
}

impl ConfigDuration {
    #[verifier::type_invariant]
    spec fn well_formed(self) -> bool {
        &&& -1_000_000_000 < self.nanos < 1_000_000_000
        &&& !(self.secs > 0 && self.nanos < 0)
        &&& !(self.secs < 0 && self.nanos > 0)
    }

    /// The whole seconds of the span.
    pub closed spec fn spec_secs(self) -> int {
        self.secs as int
    }

    /// The nanoseconds beyond the whole seconds.
    pub closed spec fn spec_nanos(self) -> int {
        self.nanos as int
    }

    /// Whether a span made of these parts is well formed.
    pub open spec fn valid_parts(secs: int, nanos: int) -> bool {
        &&& -1_000_000_000 < nanos < 1_000_000_000
        &&& !(secs > 0 && nanos < 0)
        &&& !(secs < 0 && nanos > 0)
    }

    /// The whole span in nanoseconds.
    pub open spec fn total_nanos(self) -> int {
        self.spec_secs() * 1_000_000_000 + self.spec_nanos()
    }

    /// A span of `secs` seconds and `nanos` nanoseconds, when the two parts
    /// form a well formed span.
    pub fn from_parts(secs: i64, nanos: i32) -> (d: Option<ConfigDuration>)
        ensures
            d is Some <==> Self::valid_parts(secs as int, nanos as int),
            d is Some <==> (-1_000_000_000 < nanos < 1_000_000_000 && !(secs > 0 && nanos < 0)
                && !(secs < 0 && nanos > 0)),
            d matches Some(d) ==> d.spec_secs() == secs && d.spec_nanos() == nanos,
    {
        if -1_000_000_000 < nanos && nanos < 1_000_000_000 && !(secs > 0 && nanos < 0) && !(secs
            < 0 && nanos > 0) {
            Some(ConfigDuration { secs, nanos })
        } else {
            None
        }
    }

    /// The whole seconds of the span.
    pub fn secs(&self) -> (secs: i64)
        ensures
            secs == self.spec_secs(),
    {
        self.secs
    }

    /// The nanoseconds beyond the whole seconds.
    pub fn nanos(&self) -> (nanos: i32)
        ensures
            nanos == self.spec_nanos(),
    {
        self.nanos
    }

    /// Whether the span is longer than zero.
    pub fn is_positive(&self) -> (positive: bool)
        ensures
            positive == (self.spec_secs() > 0 || self.spec_nanos() > 0),
            positive == (self.total_nanos() > 0),
    {
        proof {
            use_type_invariant(self);
            lemma_total_nanos_sign(self.secs as int, self.nanos as int);
        }
        self.secs > 0 || self.nanos > 0
    }

    /// The span in nanoseconds, when it is not negative.
    pub fn to_unsigned_nanos(&self) -> (nanos: Option<u128>)
        ensures
            nanos is Some <==> self.total_nanos() >= 0,
            nanos matches Some(n) ==> n == self.total_nanos(),
    {
        proof {
            use_type_invariant(self);
            lemma_total_nanos_sign(self.secs as int, self.nanos as int);
        }
        if self.secs >= 0 && self.nanos >= 0 {
            let secs = self.secs as u128;
            let nanos = self.nanos as u128;
            assert(secs * 1_000_000_000 <= 9_223_372_036_854_775_807 * 1_000_000_000)
                by (nonlinear_arith)
                requires
                    secs <= 9_223_372_036_854_775_807,
            ;
            Some(secs * NANOS_PER_SEC + nanos)
        } else {
            None
        }
    }
}

/// The parts of a span are those of an `i64` and an `i32`, so its length in
/// nanoseconds fits a `u128` in magnitude.
pub proof fn lemma_duration_nanos_fit(duration: ConfigDuration)
    ensures
        i64::MIN <= duration.spec_secs() <= i64::MAX,
        i32::MIN <= duration.spec_nanos() <= i32::MAX,
        duration.total_nanos() < u128::MAX,
{
    let secs = duration.spec_secs();
    assert(secs * 1_000_000_000 <= 9_223_372_036_854_775_807 * 1_000_000_000) by (nonlinear_arith)
        requires
            secs <= 9_223_372_036_854_775_807,
    ;
}

proof fn lemma_total_nanos_sign(secs: int, nanos: int)
    requires
        ConfigDuration::valid_parts(secs, nanos),
    ensures
        (secs * 1_000_000_000 + nanos > 0) == (secs > 0 || nanos > 0),
        (secs * 1_000_000_000 + nanos >= 0) == (secs >= 0 && nanos >= 0),
{
    if secs > 0 {
        assert(secs * 1_000_000_000 >= 1_000_000_000) by (nonlinear_arith)
            requires
                secs > 0,
        ;
    } else if secs < 0 {
        assert(secs * 1_000_000_000 <= -1_000_000_000) by (nonlinear_arith)
            requires
                secs < 0,
        ;
    }
}

/// The words that a max age setting may hold in place of a number.
pub enum CacheConfigMaxAgeOther {
    Forever,
    Never,
}

/// How long a cached resource stays valid.
pub enum CacheConfigMaxAge {
    /// A number of seconds; zero or less means that nothing is cached.
    Seconds(i64),
    /// A span of time; zero or less means that nothing is cached.
    Duration(ConfigDuration),
    /// Cache forever, or never.
    Other(CacheConfigMaxAgeOther),
}

impl CacheConfigMaxAge {
    /// Never cache.
    pub fn never() -> (max_age: Self)
        ensures
            max_age == CacheConfigMaxAge::Other(CacheConfigMaxAgeOther::Never),
    {
        CacheConfigMaxAge::Other(CacheConfigMaxAgeOther::Never)
    }

    /// Cache until evicted.
    pub fn forever() -> (max_age: Self)
        ensures
            max_age == CacheConfigMaxAge::Other(CacheConfigMaxAgeOther::Forever),
    {
        CacheConfigMaxAge::Other(CacheConfigMaxAgeOther::Forever)
    }
}

/// Cache behavior and how long to cache things for.
pub struct CacheConfig {
    pub max_age: CacheConfigMaxAge,
}

impl Default for CacheConfig {
    fn default() -> (config: Self)
        ensures
            config.max_age == CacheConfigMaxAge::Other(CacheConfigMaxAgeOther::Forever),
    {
        CacheConfig { max_age: CacheConfigMaxAge::forever() }
    }
}

/// The only value a disabled route takes.
pub enum DisabledRoute {
    /// The route is not sent to the upstream server.
    Disabled,
}

/// A route setting that may only disable the route.
pub enum EnabledRouteConfig {
    Disabled,
}

/// The setting of one route: either disabled, or enabled with its cache
/// behavior.
pub enum RouteConfig {
    Disabled(DisabledRoute),
    Enabled { cache: CacheConfig },
}

/// Which metadata response headers to include.
pub struct MetadataConfig {
    /// Send the cache outcome header.
    pub cache_outcome: bool,
    /// Send the expiry header.
    pub expires_at: bool,
    /// The value of the node name header, if any.
    pub node_name: Option<String>,
}

impl Default for MetadataConfig {
    fn default() -> (config: Self)
        ensures
            !config.cache_outcome,
            !config.expires_at,
            config.node_name is None,
    {
        MetadataConfig { cache_outcome: false, expires_at: false, node_name: None }
    }
}

/// Limits on what the cache may store.
pub struct StorageConfig {
    /// Maximum total size of the cached resources, in bytes.
    pub max_disk_capacity: u64,
    /// Minimum number of file descriptors used for the cache.
    pub min_cache_files: u64,
    /// Maximum number of file descriptors used to cache resources, when set.
    pub max_cache_files: Option<u64>,
    /// Minimum number of file descriptors kept free of the cache.
    pub min_non_cache_files: u64,
}

impl Default for StorageConfig {
    fn default() -> (config: Self)
        ensures
            config.max_disk_capacity == spec_gibibyte(),
            config.min_cache_files == 500,
            config.max_cache_files is None,
            config.min_non_cache_files == 500,
    {
        StorageConfig {
            max_disk_capacity: default_max_disk_capacity(),
            max_cache_files: None,
            min_cache_files: default_min_cache_files(),
            min_non_cache_files: default_min_non_cache_files(),
        }
    }
}

/// `size` gibibytes in bytes, as `bytesize::ByteSize::gib` counts them:
/// the product of `size` and 1024 cubed.
#[verifier::external_body]
fn byte_size_gib(size: u64) -> (bytes: u64)
    requires
        size * spec_gibibyte() <= u64::MAX,
    ensures
        bytes == size * spec_gibibyte(),
{
    bytesize::ByteSize::gib(size).as_u64()
}

/// The address the proxy listens on unless configured otherwise.
pub fn default_bind_address() -> (address: String)
    ensures
        address@ == "0.0.0.0:3000"@,
{
    String::from_str("0.0.0.0:3000")
}

/// The address the metrics listen on unless configured otherwise.
pub fn default_bind_metrics_address() -> (address: String)
    ensures
        address@ == "0.0.0.0:3001"@,
{
    String::from_str("0.0.0.0:3001")
}

/// The maximum disk capacity unless configured otherwise: one gibibyte.
pub fn default_max_disk_capacity() -> (bytes: u64)
    ensures
        bytes == spec_gibibyte(),
{
    byte_size_gib(1)
}

/// The minimum number of cache files unless configured otherwise.
pub fn default_min_cache_files() -> (files: u64)
    ensures
        files == 500,
{
    500
}

/// The minimum number of file descriptors kept free of the cache unless
/// configured otherwise.
pub fn default_min_non_cache_files() -> (files: u64)
    ensures
        files == 500,
{
    500
}

} // verus!
