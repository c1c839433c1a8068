//! What a host's cache does with a request: which rule applies, whether the
//! request goes upstream, and when a fetched resource expires.
use vstd::prelude::*;

pub use crate::capacity::{CacheCapacityPool, CacheCapacityReservation};
pub use crate::routes::CacheRoutes;
pub use crate::rules::{CacheEnabledRouteRule, CacheMaxAgeRule, CacheRouteRule};
pub use crate::storage::{CacheStorage, CachedResource};

use crate::routes::spec_match_route;

verus! {

/// What to do with a request.
#[derive(Clone, Copy, PartialEq, Eq, Structural, Debug)]
pub enum CacheAction {
    /// The route is disabled: answer "not found" without asking upstream.
    Unrouted,
    /// The route is never cached: pass the request to the upstream server.
    Passthrough,
    /// Serve from the cache, fetching on a miss; a fetched resource expires
    /// at the given instant, or never.
    Cached { expires_at: Option<u128> },
}

/// The action for a request, and the route pattern that selected it.
pub struct CachePlan {
    pub action: CacheAction,
    pub pattern: Option<String>,
}

/// The action that a rule calls for at `now`.
pub open spec fn spec_action(rule: CacheRouteRule, now: u128) -> CacheAction {
    match rule {
        CacheRouteRule::Disabled => CacheAction::Unrouted,
        CacheRouteRule::Enabled(CacheEnabledRouteRule { max_age }) => match max_age {
            CacheMaxAgeRule::CacheForever => CacheAction::Cached { expires_at: None },
            CacheMaxAgeRule::CacheFor(span) => CacheAction::Cached {
                expires_at: Some((now + span) as u128),
            },
            CacheMaxAgeRule::CacheNever => CacheAction::Passthrough,
        },
    }
}

/// The span a rule caches for, in nanoseconds; zero when it caches forever,
/// never, or not at all.
pub open spec fn rule_span(rule: CacheRouteRule) -> nat {
    match rule {
        CacheRouteRule::Enabled(CacheEnabledRouteRule { max_age: CacheMaxAgeRule::CacheFor(span) }) => span as nat,
        _ => 0,
    }
}

/// What each rule calls for at `now`: a disabled route is not served, a
/// route that never caches goes upstream, and a cached route's resources
/// expire its span after `now`, or never when it caches forever. The span
/// of a rule is that of "cache for", and zero for every other rule.
pub proof fn lemma_rule_actions(rule: CacheRouteRule, now: u128)
    requires
        now + rule_span(rule) <= u128::MAX,
    ensures
        rule == CacheRouteRule::Disabled ==> spec_action(rule, now) == CacheAction::Unrouted,
        rule == CacheRouteRule::Enabled(CacheEnabledRouteRule { max_age: CacheMaxAgeRule::CacheNever })
            ==> spec_action(rule, now) == CacheAction::Passthrough,
        rule == CacheRouteRule::Enabled(
            CacheEnabledRouteRule { max_age: CacheMaxAgeRule::CacheForever },
        ) ==> spec_action(rule, now) == (CacheAction::Cached { expires_at: None }),
        rule matches CacheRouteRule::Enabled(
            CacheEnabledRouteRule { max_age: CacheMaxAgeRule::CacheFor(span) },
        ) ==> (spec_action(rule, now) matches CacheAction::Cached { expires_at: Some(at) } && at
            == now + span && rule_span(rule) == span),
        !(rule matches CacheRouteRule::Enabled(
            CacheEnabledRouteRule { max_age: CacheMaxAgeRule::CacheFor(_) },
        )) ==> rule_span(rule) == 0,
{
}

/// The action that `rule` calls for at `now`.
pub fn action_for_rule(rule: CacheRouteRule, now: u128) -> (action: CacheAction)
    requires
        now + rule_span(rule) <= u128::MAX,
    ensures
        action == spec_action(rule, now),
        rule == CacheRouteRule::Disabled ==> action == CacheAction::Unrouted,
        rule == CacheRouteRule::Enabled(CacheEnabledRouteRule { max_age: CacheMaxAgeRule::CacheNever })
            ==> action == CacheAction::Passthrough,
        rule == CacheRouteRule::Enabled(
            CacheEnabledRouteRule { max_age: CacheMaxAgeRule::CacheForever },
        ) ==> action == (CacheAction::Cached { expires_at: None }),
        rule matches CacheRouteRule::Enabled(
            CacheEnabledRouteRule { max_age: CacheMaxAgeRule::CacheFor(span) },
        ) ==> (action matches CacheAction::Cached { expires_at: Some(at) } && at == now + span),
{
    match rule {
        CacheRouteRule::Disabled => CacheAction::Unrouted,
        CacheRouteRule::Enabled(CacheEnabledRouteRule { max_age }) => match max_age {
            CacheMaxAgeRule::CacheForever => CacheAction::Cached { expires_at: None },
            CacheMaxAgeRule::CacheFor(span) => CacheAction::Cached { expires_at: Some(now + span) },
            CacheMaxAgeRule::CacheNever => CacheAction::Passthrough,
        },
    }
}

/// The cache of one host: its key in the shared index, and its routes.
pub struct Cache {
    host_key: String,
    rules: CacheRoutes,
}

impl Cache {
    /// The host key under which this cache's resources are indexed.
    pub closed spec fn spec_host_key(&self) -> Seq<char> {
        self.host_key@
    }

    /// The route table.
    pub closed spec fn spec_rules(&self) -> CacheRoutes {
        self.rules
    }

    /// A cache for `host_key` with the given routes.
    pub fn new(host_key: String, rules: CacheRoutes) -> (cache: Self)
        ensures
            cache.spec_host_key() == host_key@,
            cache.spec_rules() == rules,
    {
        Cache { host_key, rules }
    }

    /// The host key under which this cache's resources are indexed.
    pub fn host_key(&self) -> (host_key: &str)
        ensures
            host_key@ == self.spec_host_key(),
    {
        self.host_key.as_str()
    }

    /// The route table.
    pub fn rules(&self) -> (rules: &CacheRoutes)
        ensures
            *rules == self.spec_rules(),
    {
        &self.rules
    }

    /// The pattern of the route that selects `path`, if any.
    pub fn get_path_pattern(&self, path: &str) -> (pattern: Option<String>)
        ensures
            pattern is Some == spec_match_route(
                self.spec_rules().spec_routes(),
                self.spec_rules().spec_default_rule(),
                path@,
            ).1 is Some,
            pattern matches Some(p) ==> spec_match_route(
                self.spec_rules().spec_routes(),
                self.spec_rules().spec_default_rule(),
                path@,
            ).1 == Some(p@),
    {
        self.rules.match_route(path).1
    }

    /// What to do with a request for `path` at `now`: the rule of the route
    /// that selects the path (or the default rule) decides whether it is not
    /// served, passed upstream, or served from the cache, and when a fetched
    /// resource expires.
    pub fn plan(&self, path: &str, now: u128) -> (plan: CachePlan)
        requires
            now + rule_span(
                spec_match_route(
                    self.spec_rules().spec_routes(),
                    self.spec_rules().spec_default_rule(),
                    path@,
                ).0,
            ) <= u128::MAX,
        ensures
            ({
                let matched = spec_match_route(
                    self.spec_rules().spec_routes(),
                    self.spec_rules().spec_default_rule(),
                    path@,
                );
                &&& plan.action == spec_action(matched.0, now)
                &&& plan.pattern is Some == matched.1 is Some
                &&& plan.pattern matches Some(p) ==> matched.1 == Some(p@)
            }),
    {
        let (rule, pattern) = self.rules.match_route(path);
        CachePlan { action: action_for_rule(rule, now), pattern }
    }

    /// The plan for a request for `path` at `now`, as [`Cache::plan`] makes
    /// it, or `None` when the expiry of a fetched resource would lie beyond
    /// the clock's range.
    pub fn try_plan(&self, path: &str, now: u128) -> (plan: Option<CachePlan>)
        ensures
            ({
                let matched = spec_match_route(
                    self.spec_rules().spec_routes(),
                    self.spec_rules().spec_default_rule(),
                    path@,
                );
                &&& plan is Some <==> now + rule_span(matched.0) <= u128::MAX
                &&& plan matches Some(plan) ==> {
                    &&& plan.action == spec_action(matched.0, now)
                    &&& plan.pattern is Some == matched.1 is Some
                    &&& plan.pattern matches Some(p) ==> matched.1 == Some(p@)
                }
            }),
    {
        let (rule, _) = self.rules.match_route(path);
        let fits = match rule {
            CacheRouteRule::Enabled(CacheEnabledRouteRule { max_age: CacheMaxAgeRule::CacheFor(span) }) => now <= u128::MAX - span,
            _ => true,
        };
        if fits {
            Some(self.plan(path, now))
        } else {
            None
        }
    }
}

/// A disabled route is never sent upstream, and a route that never caches
/// always is; a cached route's resources expire exactly its span after the
/// request that fetched them, or never when it caches forever.
pub proof fn lemma_action_follows_rule(rule: CacheRouteRule, now: u128)
    requires
        now + rule_span(rule) <= u128::MAX,
    ensures
        rule == CacheRouteRule::Disabled <==> spec_action(rule, now) == CacheAction::Unrouted,
        (rule == CacheRouteRule::Enabled(CacheEnabledRouteRule { max_age: CacheMaxAgeRule::CacheNever }))
            <==> spec_action(rule, now) == CacheAction::Passthrough,
        spec_action(rule, now) matches CacheAction::Cached { expires_at } ==> match expires_at {
            Some(at) => at == now + rule_span(rule) && rule_span(rule) > 0 || (rule_span(rule)
                == 0 && at == now),
            None => rule == CacheRouteRule::Enabled(
                CacheEnabledRouteRule { max_age: CacheMaxAgeRule::CacheForever },
            ),
        },
{
}

} // verus!
