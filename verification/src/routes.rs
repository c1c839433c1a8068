//! The table of route patterns and the rule that each one selects.
//!
//! Patterns are matched against request paths by the `path-tree` crate.
use vstd::prelude::*;

use path_tree::PathTree;

use crate::config::{CacheConfig, RouteConfig};
use crate::rules::{CacheEnabledRouteRule, CacheRouteRule, spec_max_age_rule, spec_route_rule};

verus! {

#[verifier::external_type_specification]
#[verifier::external_body]
#[verifier::reject_recursive_types(T)]
pub struct ExPathTree<T>(PathTree<T>);

/// The routes that a path tree holds, in the order of their ids: for each,
/// the pattern it was inserted under and the value stored for it.
pub uninterp spec fn path_tree_routes(tree: PathTree<(CacheRouteRule, String)>) -> Seq<
    (Seq<char>, (CacheRouteRule, Seq<char>)),
>;

/// The id of the route that `path-tree` selects for `path` in a tree whose
/// routes have the given patterns (in id order), if any.
pub uninterp spec fn path_tree_find(patterns: Seq<Seq<char>>, path: Seq<char>) -> Option<nat>;

/// The patterns of a list of routes, in order.
pub open spec fn route_patterns(routes: Seq<(Seq<char>, (CacheRouteRule, Seq<char>))>) -> Seq<
    Seq<char>,
> {
    routes.map_values(|route: (Seq<char>, (CacheRouteRule, Seq<char>))| route.0)
}

/// What inserting `pattern` with `stored` into routes `before` may give, as
/// `path-tree` does it: the route that the pattern names keeps its id and
/// takes the new value (an empty pattern keeps the route's old pattern), or
/// a new route is appended. A non-empty pattern equal to the pattern of an
/// existing route names that route. Which route a pattern of another text
/// names is decided by its parsed shape, which this relation leaves open.
pub open spec fn spec_route_inserted(
    before: Seq<(Seq<char>, (CacheRouteRule, Seq<char>))>,
    pattern: Seq<char>,
    stored: (CacheRouteRule, Seq<char>),
    after: Seq<(Seq<char>, (CacheRouteRule, Seq<char>))>,
    id: int,
) -> bool {
    &&& {
        ||| (0 <= id < before.len() && after == before.update(
            id,
            (if pattern.len() == 0 { before[id].0 } else { pattern }, stored),
        ))
        ||| (id == before.len() && after == before.push((pattern, stored)))
    }
    &&& forall|i: int|
        0 <= i < before.len() && pattern.len() > 0 && before[i].0 == pattern ==> id == i
}

/// `PathTree::new`: a tree without routes.
#[verifier::external_body]
fn path_tree_new() -> (tree: PathTree<(CacheRouteRule, String)>)
    ensures
        path_tree_routes(tree) == Seq::<(Seq<char>, (CacheRouteRule, Seq<char>))>::empty(),
{
    PathTree::new()
}

/// `PathTree::insert`: either replaces the value of the route that `path`
/// names (an empty `path` keeps that route's pattern) and returns its id, or
/// appends a new route. A non-empty pattern equal to the pattern of an
/// existing route names that route. The source decides between replacing
/// and appending by the parsed shape of the pattern; that rule is not
/// stated beyond the equal-pattern case.
#[verifier::external_body]
fn path_tree_insert(
    tree: &mut PathTree<(CacheRouteRule, String)>,
    path: &str,
    value: (CacheRouteRule, String),
) -> (id: usize)
    ensures
        spec_route_inserted(path_tree_routes(*old(tree)), path@, (value.0, value.1@), path_tree_routes(*final(tree)), id as int),
{
    tree.insert(path, value)
}

/// `PathTree::find`: the value of the route that the tree selects for
/// `path`, copied out of the tree.
#[verifier::external_body]
fn path_tree_find_value(tree: &PathTree<(CacheRouteRule, String)>, path: &str) -> (found: Option<
    (CacheRouteRule, String),
>)
    ensures
        ({
            let routes = path_tree_routes(*tree);
            match path_tree_find(route_patterns(routes), path@) {
                Some(i) => if i < routes.len() {
                    found matches Some(v) && v.0 == routes[i as int].1.0 && v.1@ == routes[i as int].1.1
                } else {
                    found is None
                },
                None => found is None,
            }
        }),
{
    tree.find(path).map(|(value, _path)| (value.0, value.1.clone()))
}

/// The rule and pattern selected for a path, given the routes and the
/// default rule.
pub open spec fn spec_match_route(
    routes: Seq<(Seq<char>, (CacheRouteRule, Seq<char>))>,
    default_rule: CacheRouteRule,
    path: Seq<char>,
) -> (CacheRouteRule, Option<Seq<char>>) {
    match path_tree_find(route_patterns(routes), path) {
        Some(i) => if i < routes.len() {
            (routes[i as int].1.0, Some(routes[i as int].1.1))
        } else {
            (default_rule, None)
        },
        None => (default_rule, None),
    }
}

/// The route table: a default rule, and rules selected by path patterns.
pub struct CacheRoutes {
    default_rule: CacheRouteRule,
    route_rules: PathTree<(CacheRouteRule, String)>,
    route_paths: Vec<String>,
}

impl CacheRoutes {
    /// The rule used when no pattern matches.
    pub closed spec fn spec_default_rule(&self) -> CacheRouteRule {
        self.default_rule
    }

    /// The routes, in the order they were first added.
    pub closed spec fn spec_routes(&self) -> Seq<(Seq<char>, (CacheRouteRule, Seq<char>))> {
        path_tree_routes(self.route_rules)
    }

    /// The patterns that were added, each once, in the order first added.
    pub closed spec fn spec_route_paths(&self) -> Seq<Seq<char>> {
        self.route_paths@.map_values(|p: String| p@)
    }

    /// Every pattern that a route reports when it matches is among the
    /// listed patterns.
    pub open spec fn wf(&self) -> bool {
        forall|i: int|
            0 <= i < self.spec_routes().len() ==> self.spec_route_paths().contains(
                #[trigger] self.spec_routes()[i].1.1,
            )
    }

    /// Whatever pattern a match reports is among the listed patterns.
    pub proof fn lemma_matched_pattern_is_listed(&self, path: Seq<char>)
        requires
            self.wf(),
        ensures
            spec_match_route(self.spec_routes(), self.spec_default_rule(), path).1 matches Some(
                pattern,
            ) ==> self.spec_route_paths().contains(pattern),
    {
        let routes = self.spec_routes();
        if let Some(i) = path_tree_find(route_patterns(routes), path) {
            if i < routes.len() {
                assert(self.spec_route_paths().contains(routes[i as int].1.1));
            }
        }
    }

    /// A table with no routes: every path gets `default_rule`.
    pub fn new(default_rule: CacheRouteRule) -> (routes: Self)
        ensures
            routes.wf(),
            routes.spec_default_rule() == default_rule,
            routes.spec_routes().len() == 0,
            routes.spec_route_paths().len() == 0,
    {
        CacheRoutes {
            default_rule,
            route_rules: path_tree_new(),
            route_paths: Vec::new(),
        }
    }

    /// Whether `pattern` is among the added patterns.
    fn has_path(&self, pattern: &String) -> (found: bool)
        ensures
            found == self.spec_route_paths().contains(pattern@),
    {
        let mut i: usize = 0;
        while i < self.route_paths.len()
            invariant
                0 <= i <= self.route_paths.len(),
                forall|j: int| 0 <= j < i ==> self.route_paths@[j]@ != pattern@,
            decreases self.route_paths.len() - i,
        {
            if self.route_paths[i] == *pattern {
                assert(self.spec_route_paths()[i as int] == pattern@);
                return true;
            }
            i = i + 1;
        }
        proof {
            if self.spec_route_paths().contains(pattern@) {
                let j = choose|j: int|
                    0 <= j < self.spec_route_paths().len() && self.spec_route_paths()[j]
                        == pattern@;
                assert(self.route_paths@[j]@ == pattern@);
            }
        }
        false
    }

    /// Selects `rule` for the paths that `path_pattern` matches. Adding a
    /// pattern again replaces its rule.
    pub fn add_route(&mut self, path_pattern: &str, rule: CacheRouteRule)
        ensures
            old(self).wf() ==> final(self).wf(),
            final(self).spec_default_rule() == old(self).spec_default_rule(),
            exists|id: int|
                spec_route_inserted(
                    old(self).spec_routes(),
                    path_pattern@,
                    (rule, path_pattern@),
                    final(self).spec_routes(),
                    id,
                ),
            final(self).spec_route_paths() == if old(self).spec_route_paths().contains(
                path_pattern@,
            ) {
                old(self).spec_route_paths()
            } else {
                old(self).spec_route_paths().push(path_pattern@)
            },
    {
        let value = (rule, String::from_str(path_pattern));
        let pattern = String::from_str(path_pattern);
        let id = path_tree_insert(&mut self.route_rules, path_pattern, value);
        if !self.has_path(&pattern) {
            self.route_paths.push(pattern);
            proof {
                assert(self.spec_route_paths() =~= old(self).spec_route_paths().push(
                    path_pattern@,
                ));
            }
        }
        assert(spec_route_inserted(
            old(self).spec_routes(),
            path_pattern@,
            (rule, path_pattern@),
            self.spec_routes(),
            id as int,
        ));
        proof {
            if old(self).wf() {
                let before = old(self).spec_routes();
                let after = self.spec_routes();
                assert(self.spec_route_paths().contains(path_pattern@)) by {
                    if old(self).spec_route_paths().contains(path_pattern@) {
                    } else {
                        let n = old(self).spec_route_paths().len();
                        assert(self.spec_route_paths()[n as int] == path_pattern@);
                    }
                }
                assert forall|i: int| 0 <= i < after.len() implies self.spec_route_paths().contains(
                    #[trigger] after[i].1.1,
                ) by {
                    if i != id && i < before.len() {
                        assert(after[i] == before[i]);
                        assert(old(self).spec_route_paths().contains(before[i].1.1));
                        let j = choose|j: int|
                            0 <= j < old(self).spec_route_paths().len()
                                && old(self).spec_route_paths()[j] == before[i].1.1;
                        assert(self.spec_route_paths()[j] == before[i].1.1);
                    }
                }
            }
        }
    }

    /// The rule for `path`, and the pattern that selected it, or the default
    /// rule and no pattern.
    pub fn match_route(&self, path: &str) -> (matched: (CacheRouteRule, Option<String>))
        ensures
            matched.0 == spec_match_route(self.spec_routes(), self.spec_default_rule(), path@).0,
            matched.1 is Some == spec_match_route(
                self.spec_routes(),
                self.spec_default_rule(),
                path@,
            ).1 is Some,
            matched.1 matches Some(p) ==> spec_match_route(
                self.spec_routes(),
                self.spec_default_rule(),
                path@,
            ).1 == Some(p@),
    {
        let found = path_tree_find_value(&self.route_rules, path);
        self.matched_or_default(found)
    }

    /// The rule and pattern of the route that the tree found, or the
    /// default rule and no pattern when it found none.
    pub fn matched_or_default(&self, found: Option<(CacheRouteRule, String)>) -> (matched: (
        CacheRouteRule,
        Option<String>,
    ))
        ensures
            match found {
                Some((rule, pattern)) => matched.0 == rule && matched.1 == Some(pattern),
                None => matched.0 == self.spec_default_rule() && matched.1 is None,
            },
    {
        match found {
            Some((rule, pattern)) => (rule, Some(pattern)),
            None => (self.default_rule, None),
        }
    }

    /// The added patterns, each once.
    pub fn route_paths(&self) -> (paths: Vec<String>)
        ensures
            paths@.map_values(|p: String| p@) == self.spec_route_paths(),
    {
        let mut paths: Vec<String> = Vec::new();
        let mut i: usize = 0;
        while i < self.route_paths.len()
            invariant
                0 <= i <= self.route_paths.len(),
                paths@.len() == i,
                forall|j: int| 0 <= j < i ==> paths@[j]@ == self.route_paths@[j]@,
            decreases self.route_paths.len() - i,
        {
            paths.push(self.route_paths[i].clone());
            i = i + 1;
        }
        proof {
            assert(paths@.map_values(|p: String| p@) =~= self.spec_route_paths());
        }
        paths
    }

    /// The table of a host: the host's own cache configuration and routes
    /// where it has them, the top-level ones otherwise.
    pub fn for_host(
        host_cache: Option<CacheConfig>,
        host_routes: Option<Vec<(String, RouteConfig)>>,
        cache_config: CacheConfig,
        routes_config: Vec<(String, RouteConfig)>,
    ) -> (routes: Self)
        ensures
            routes.wf(),
            routes.spec_default_rule() == CacheRouteRule::Enabled(
                CacheEnabledRouteRule {
                    max_age: spec_max_age_rule(
                        match host_cache {
                            Some(c) => c.max_age,
                            None => cache_config.max_age,
                        },
                    ),
                },
            ),
            routes_built_from(
                configured_routes(
                    match host_routes {
                        Some(r) => r@,
                        None => routes_config@,
                    },
                ),
                routes.spec_routes(),
            ),
    {
        let cache = match host_cache {
            Some(c) => c,
            None => cache_config,
        };
        let routes = match host_routes {
            Some(r) => r,
            None => routes_config,
        };
        CacheRoutes::from_config(cache, routes)
    }

    /// The table for a cache configuration and the configured routes, added
    /// in the order given.
    pub fn from_config(cache_config: CacheConfig, routes_config: Vec<(String, RouteConfig)>) -> (routes: Self)
        ensures
            routes.wf(),
            routes.spec_default_rule() == CacheRouteRule::Enabled(
                CacheEnabledRouteRule { max_age: spec_max_age_rule(cache_config.max_age) },
            ),
            routes_built_from(configured_routes(routes_config@), routes.spec_routes()),
            routes.spec_route_paths() == distinct_in_order(
                configured_routes(routes_config@).map_values(
                    |entry: (Seq<char>, CacheRouteRule)| entry.0,
                ),
            ),
    {
        let mut routes = CacheRoutes::new(
            CacheRouteRule::Enabled(CacheEnabledRouteRule::from_config(cache_config)),
        );
        let mut remaining = routes_config;
        let ghost default_rule = routes.spec_default_rule();
        let ghost all = configured_routes(remaining@);
        let ghost mut consumed: Seq<(Seq<char>, CacheRouteRule)> = Seq::empty();
        proof {
            assert(configured_routes(remaining@) =~= consumed + configured_routes(remaining@));
            assert(routes.spec_route_paths() =~= distinct_in_order(
                consumed.map_values(|entry: (Seq<char>, CacheRouteRule)| entry.0),
            ));
        }
        while remaining.len() > 0
            invariant
                routes.wf(),
                routes.spec_default_rule() == default_rule,
                all == consumed + configured_routes(remaining@),
                routes_built_from(consumed, routes.spec_routes()),
                routes.spec_route_paths() == distinct_in_order(
                    consumed.map_values(|entry: (Seq<char>, CacheRouteRule)| entry.0),
                ),
            decreases remaining.len(),
        {
            let ghost before = routes.spec_routes();
            let ghost rest = remaining@;
            let (path, route) = remaining.remove(0);
            let ghost entry = (path@, spec_route_rule(route));
            proof {
                assert(rest =~= seq![(path, route)] + remaining@);
                assert(configured_routes(rest) =~= seq![entry] + configured_routes(remaining@));
            }
            routes.add_route(path.as_str(), CacheRouteRule::from_config(route));
            proof {
                let next = consumed.push(entry);
                assert(next.drop_last() =~= consumed);
                assert(all =~= next + configured_routes(remaining@));
                let names = consumed.map_values(|e: (Seq<char>, CacheRouteRule)| e.0);
                let next_names = next.map_values(|e: (Seq<char>, CacheRouteRule)| e.0);
                assert(next_names.drop_last() =~= names);
                assert(next_names.last() == path@);
                let after = routes.spec_routes();
                let id = choose|id: int|
                    spec_route_inserted(before, path@, (entry.1, path@), after, id);
                assert(next.last() == entry);
                assert(routes_built_from(next.drop_last(), before));
                assert(spec_route_inserted(
                    before,
                    next.last().0,
                    (next.last().1, next.last().0),
                    after,
                    id,
                ));
                assert(routes_built_from(next, after));
                consumed = next;
            }
        }
        proof {
            assert(configured_routes(remaining@) =~= Seq::empty());
            assert(all =~= consumed);
        }
        routes
    }
}

/// The patterns and rules that a route configuration lists, in order.
pub open spec fn configured_routes(config: Seq<(String, RouteConfig)>) -> Seq<(Seq<char>, CacheRouteRule)> {
    config.map_values(|entry: (String, RouteConfig)| (entry.0@, spec_route_rule(entry.1)))
}

/// Whether `routes` is what inserting `entries` one after the other into an
/// empty tree gives, each pattern with its rule.
pub open spec fn routes_built_from(
    entries: Seq<(Seq<char>, CacheRouteRule)>,
    routes: Seq<(Seq<char>, (CacheRouteRule, Seq<char>))>,
) -> bool
    decreases entries.len(),
{
    if entries.len() == 0 {
        routes.len() == 0
    } else {
        exists|before: Seq<(Seq<char>, (CacheRouteRule, Seq<char>))>, id: int|
            routes_built_from(entries.drop_last(), before) && spec_route_inserted(
                before,
                entries.last().0,
                (entries.last().1, entries.last().0),
                routes,
                id,
            )
    }
}

/// The patterns in order of first appearance, each once.
pub open spec fn distinct_in_order(patterns: Seq<Seq<char>>) -> Seq<Seq<char>>
    decreases patterns.len(),
{
    if patterns.len() == 0 {
        Seq::empty()
    } else {
        let earlier = distinct_in_order(patterns.drop_last());
        if earlier.contains(patterns.last()) {
            earlier
        } else {
            earlier.push(patterns.last())
        }
    }
}

/// The listed patterns hold each given pattern exactly once, and nothing
/// else.
pub proof fn lemma_distinct_in_order(patterns: Seq<Seq<char>>)
    ensures
        forall|p: Seq<char>| distinct_in_order(patterns).contains(p) <==> patterns.contains(p),
        forall|i: int, j: int|
            0 <= i < j < distinct_in_order(patterns).len() ==> distinct_in_order(patterns)[i]
                != distinct_in_order(patterns)[j],
    decreases patterns.len(),
{
    if patterns.len() > 0 {
        let earlier = distinct_in_order(patterns.drop_last());
        lemma_distinct_in_order(patterns.drop_last());
        assert forall|p: Seq<char>| distinct_in_order(patterns).contains(p) <==> patterns.contains(p) by {
            if patterns.contains(p) {
                let k = choose|k: int| 0 <= k < patterns.len() && patterns[k] == p;
                if k < patterns.len() - 1 {
                    assert(patterns.drop_last()[k] == p);
                }
            }
            if patterns.drop_last().contains(p) {
                let k = choose|k: int| 0 <= k < patterns.drop_last().len() && patterns.drop_last()[k] == p;
                assert(patterns[k] == p);
            }
            if earlier.contains(p) {
                let k = choose|k: int| 0 <= k < earlier.len() && earlier[k] == p;
                assert(earlier.push(patterns.last())[k] == p);
            }
            if !earlier.contains(patterns.last()) {
                assert(earlier.push(patterns.last())[earlier.len() as int] == patterns.last());
            }
        }
    }
}

/// Adding a pattern that the table already has replaces that route's rule
/// in place: no route is added, and every other route keeps its rule.
pub proof fn lemma_readd_replaces_rule(
    routes: Seq<(Seq<char>, (CacheRouteRule, Seq<char>))>,
    pattern: Seq<char>,
    rule: CacheRouteRule,
    after: Seq<(Seq<char>, (CacheRouteRule, Seq<char>))>,
    id: int,
    i: int,
)
    requires
        0 <= i < routes.len(),
        routes[i].0 == pattern,
        pattern.len() > 0,
        spec_route_inserted(routes, pattern, (rule, pattern), after, id),
    ensures
        id == i,
        after.len() == routes.len(),
        after[i] == (pattern, (rule, pattern)),
        forall|j: int| 0 <= j < routes.len() && j != i ==> after[j] == routes[j],
{
}

} // verus!
