//! Per-route cache rules and their derivation from the configuration.
use vstd::prelude::*;
use vstd::std_specs::convert::FromSpecImpl;

use crate::config::{
    CacheConfig, CacheConfigMaxAge, CacheConfigMaxAgeOther, DisabledRoute, RouteConfig,
};

verus! {

/// How long resources of a route are kept. Spans are in nanoseconds.
#[derive(Clone, Copy, PartialEq, Eq, Structural, Debug)]
pub enum CacheMaxAgeRule {
    /// Keep until evicted.
    CacheForever,
    /// Keep for this many nanoseconds after fetching.
    CacheFor(u128),
    /// Do not cache; always ask the upstream server.
    CacheNever,
}

/// The rule of a route whose requests are served.
#[derive(Clone, Copy, PartialEq, Eq, Structural, Debug)]
pub struct CacheEnabledRouteRule {
    pub max_age: CacheMaxAgeRule,
}

/// The rule of a route: served with a cache behavior, or not served at all.
#[derive(Clone, Copy, PartialEq, Eq, Structural, Debug)]
pub enum CacheRouteRule {
    Enabled(CacheEnabledRouteRule),
    Disabled,
}

/// The rule that a configured max age stands for.
pub open spec fn spec_max_age_rule(value: CacheConfigMaxAge) -> CacheMaxAgeRule {
    match value {
        CacheConfigMaxAge::Seconds(seconds) => {
            if seconds > 0 {
                CacheMaxAgeRule::CacheFor((seconds * 1_000_000_000) as u128)
            } else {
                CacheMaxAgeRule::CacheNever
            }
        },
        CacheConfigMaxAge::Duration(duration) => {
            if duration.total_nanos() > 0 {
                CacheMaxAgeRule::CacheFor(duration.total_nanos() as u128)
            } else {
                CacheMaxAgeRule::CacheNever
            }
        },
        CacheConfigMaxAge::Other(CacheConfigMaxAgeOther::Forever) => CacheMaxAgeRule::CacheForever,
        CacheConfigMaxAge::Other(CacheConfigMaxAgeOther::Never) => CacheMaxAgeRule::CacheNever,
    }
}

/// A positive number of seconds caches for that many seconds, in
/// nanoseconds; a positive span caches for exactly its length, its whole
/// seconds times 10^9 plus its nanoseconds; zero or less, and "never", never
/// cache; "forever" caches until evicted.
pub proof fn lemma_max_age_spans(value: CacheConfigMaxAge)
    ensures
        value matches CacheConfigMaxAge::Seconds(seconds) ==> {
            &&& seconds > 0 ==> (spec_max_age_rule(value) matches CacheMaxAgeRule::CacheFor(nanos)
                && nanos == seconds * 1_000_000_000)
            &&& seconds <= 0 ==> spec_max_age_rule(value) == CacheMaxAgeRule::CacheNever
        },
        value matches CacheConfigMaxAge::Duration(duration) ==> {
            let nanos = duration.spec_secs() * 1_000_000_000 + duration.spec_nanos();
            &&& nanos > 0 ==> (spec_max_age_rule(value) matches CacheMaxAgeRule::CacheFor(n) && n
                == nanos)
            &&& nanos <= 0 ==> spec_max_age_rule(value) == CacheMaxAgeRule::CacheNever
        },
        value == CacheConfigMaxAge::Other(CacheConfigMaxAgeOther::Forever) ==> spec_max_age_rule(
            value,
        ) == CacheMaxAgeRule::CacheForever,
        value == CacheConfigMaxAge::Other(CacheConfigMaxAgeOther::Never) ==> spec_max_age_rule(
            value,
        ) == CacheMaxAgeRule::CacheNever,
{
    if let CacheConfigMaxAge::Duration(duration) = value {
        crate::config::lemma_duration_nanos_fit(duration);
    }
}

/// The rule that a route's configuration stands for.
pub open spec fn spec_route_rule(value: RouteConfig) -> CacheRouteRule {
    match value {
        RouteConfig::Disabled(DisabledRoute::Disabled) => CacheRouteRule::Disabled,
        RouteConfig::Enabled { cache } => CacheRouteRule::Enabled(
            CacheEnabledRouteRule { max_age: spec_max_age_rule(cache.max_age) },
        ),
    }
}

impl CacheMaxAgeRule {
    /// The rule for a configured max age: a positive number of seconds or a
    /// positive span caches for that long, zero or less never caches.
    pub fn from_config(value: CacheConfigMaxAge) -> (rule: Self)
        ensures
            rule == spec_max_age_rule(value),
            value matches CacheConfigMaxAge::Seconds(seconds) ==> {
                &&& seconds > 0 ==> (rule matches CacheMaxAgeRule::CacheFor(nanos) && nanos
                    == seconds * 1_000_000_000)
                &&& seconds <= 0 ==> rule == CacheMaxAgeRule::CacheNever
            },
            value matches CacheConfigMaxAge::Duration(duration) ==> {
                let nanos = duration.spec_secs() * 1_000_000_000 + duration.spec_nanos();
                &&& nanos > 0 ==> (rule matches CacheMaxAgeRule::CacheFor(n) && n == nanos)
                &&& nanos <= 0 ==> rule == CacheMaxAgeRule::CacheNever
            },
            value == CacheConfigMaxAge::Other(CacheConfigMaxAgeOther::Forever) ==> rule
                == CacheMaxAgeRule::CacheForever,
            value == CacheConfigMaxAge::Other(CacheConfigMaxAgeOther::Never) ==> rule
                == CacheMaxAgeRule::CacheNever,
    {
        match value {
            CacheConfigMaxAge::Seconds(seconds) => {
                if seconds > 0 {
                    let secs = seconds as u128;
                    assert(secs * 1_000_000_000 <= 9_223_372_036_854_775_807 * 1_000_000_000)
                        by (nonlinear_arith)
                        requires
                            secs <= 9_223_372_036_854_775_807,
                    ;
                    CacheMaxAgeRule::CacheFor(secs * crate::config::NANOS_PER_SEC)
                } else {
                    CacheMaxAgeRule::CacheNever
                }
            },
            CacheConfigMaxAge::Duration(duration) => {
                if duration.is_positive() {
                    match duration.to_unsigned_nanos() {
                        Some(nanos) => CacheMaxAgeRule::CacheFor(nanos),
                        None => CacheMaxAgeRule::CacheNever,
                    }
                } else {
                    CacheMaxAgeRule::CacheNever
                }
            },
            CacheConfigMaxAge::Other(CacheConfigMaxAgeOther::Forever) => {
                CacheMaxAgeRule::CacheForever
            },
            CacheConfigMaxAge::Other(CacheConfigMaxAgeOther::Never) => CacheMaxAgeRule::CacheNever,
        }
    }
}

impl CacheEnabledRouteRule {
    /// The enabled rule for a cache configuration.
    pub fn from_config(value: CacheConfig) -> (rule: Self)
        ensures
            rule.max_age == spec_max_age_rule(value.max_age),
    {
        CacheEnabledRouteRule { max_age: CacheMaxAgeRule::from_config(value.max_age) }
    }
}

impl CacheRouteRule {
    /// The rule for a route's configuration.
    pub fn from_config(value: RouteConfig) -> (rule: Self)
        ensures
            rule == spec_route_rule(value),
    {
        match value {
            RouteConfig::Disabled(DisabledRoute::Disabled) => CacheRouteRule::Disabled,
            RouteConfig::Enabled { cache } => CacheRouteRule::Enabled(
                CacheEnabledRouteRule::from_config(cache),
            ),
        }
    }
}

impl From<CacheConfigMaxAge> for CacheMaxAgeRule {
    fn from(value: CacheConfigMaxAge) -> (rule: Self) {
        CacheMaxAgeRule::from_config(value)
    }
}

impl FromSpecImpl<CacheConfigMaxAge> for CacheMaxAgeRule {
    open spec fn obeys_from_spec() -> bool {
        true
    }

    open spec fn from_spec(v: CacheConfigMaxAge) -> Self {
        spec_max_age_rule(v)
    }
}

impl From<CacheConfig> for CacheEnabledRouteRule {
    fn from(value: CacheConfig) -> (rule: Self) {
        CacheEnabledRouteRule::from_config(value)
    }
}

impl FromSpecImpl<CacheConfig> for CacheEnabledRouteRule {
    open spec fn obeys_from_spec() -> bool {
        true
    }

    open spec fn from_spec(v: CacheConfig) -> Self {
        CacheEnabledRouteRule { max_age: spec_max_age_rule(v.max_age) }
    }
}

impl From<RouteConfig> for CacheRouteRule {
    fn from(value: RouteConfig) -> (rule: Self) {
        CacheRouteRule::from_config(value)
    }
}

impl FromSpecImpl<RouteConfig> for CacheRouteRule {
    open spec fn obeys_from_spec() -> bool {
        true
    }

    open spec fn from_spec(v: RouteConfig) -> Self {
        spec_route_rule(v)
    }
}

/// A disabled route's rule is "disabled", and an enabled route's rule is
/// enabled with the max age its cache configuration gives.
pub proof fn lemma_route_rules(value: RouteConfig)
    ensures
        value == RouteConfig::Disabled(DisabledRoute::Disabled) <==> spec_route_rule(value)
            == CacheRouteRule::Disabled,
        value matches RouteConfig::Enabled { cache } ==> spec_route_rule(value)
            == CacheRouteRule::Enabled(
            CacheEnabledRouteRule { max_age: spec_max_age_rule(cache.max_age) },
        ),
{
}

/// A configured max age caches something exactly when it is `forever`, a
/// positive number of seconds, or a positive span; zero, a negative value and
/// `never` all mean that nothing is cached.
pub proof fn lemma_max_age_never_iff(value: CacheConfigMaxAge)
    ensures
        (spec_max_age_rule(value) == CacheMaxAgeRule::CacheNever) <==> match value {
            CacheConfigMaxAge::Seconds(seconds) => seconds <= 0,
            CacheConfigMaxAge::Duration(duration) => duration.total_nanos() <= 0,
            CacheConfigMaxAge::Other(other) => other == CacheConfigMaxAgeOther::Never,
        },
{
}

} // verus!
