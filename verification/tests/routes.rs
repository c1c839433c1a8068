use server3::cache::{action_for_rule, Cache, CacheAction};
use server3::config::{CacheConfig, CacheConfigMaxAge, DisabledRoute, RouteConfig};
use server3::routes::CacheRoutes;
use server3::rules::{CacheEnabledRouteRule, CacheMaxAgeRule, CacheRouteRule};

const SECOND: u128 = 1_000_000_000;

fn never() -> CacheRouteRule {
    CacheRouteRule::Enabled(CacheEnabledRouteRule {
        max_age: CacheMaxAgeRule::CacheNever,
    })
}

#[test]
fn test_cache_match_path() {
    let mut routes = CacheRoutes::new(never());
    routes.add_route("/a", CacheRouteRule::Disabled);
    routes.add_route("/a/foo", never());
    routes.add_route("/a/foo/bar", CacheRouteRule::Disabled);
    routes.add_route("/b", CacheRouteRule::Disabled);
    routes.add_route("/c/*", CacheRouteRule::Disabled);
    let cache = Cache::new("host".to_string(), routes);
    let now = 0;

    // Enabled routes go upstream (the rules never cache); disabled ones don't.
    assert_eq!(cache.plan("/whatever", now).action, CacheAction::Passthrough);
    assert_eq!(cache.plan("/a", now).action, CacheAction::Unrouted);
    assert_eq!(cache.plan("/a/whatever", now).action, CacheAction::Passthrough);
    assert_eq!(cache.plan("/a/foo", now).action, CacheAction::Passthrough);
    assert_eq!(cache.plan("/a/foo/bar", now).action, CacheAction::Unrouted);
    assert_eq!(
        cache.plan("/a/foo/bar/whatever", now).action,
        CacheAction::Passthrough
    );
    assert_eq!(cache.plan("/b", now).action, CacheAction::Unrouted);
    assert_eq!(cache.plan("/b/foo", now).action, CacheAction::Passthrough);
    assert_eq!(cache.plan("/c", now).action, CacheAction::Passthrough);
    assert_eq!(cache.plan("/c/foo", now).action, CacheAction::Unrouted);

    assert_eq!(cache.get_path_pattern("/a/foo").as_deref(), Some("/a/foo"));
    assert_eq!(cache.get_path_pattern("/c/foo").as_deref(), Some("/c/*"));
    assert_eq!(cache.get_path_pattern("/whatever"), None);
}

#[test]
fn test_cache_match_path_star() {
    let mut routes = CacheRoutes::new(never());
    routes.add_route("/*", CacheRouteRule::Disabled);
    let cache = Cache::new("host".to_string(), routes);
    for path in ["/", "/foo", "/foo/bar", "/foo/bar/"] {
        assert_eq!(cache.plan(path, 0).action, CacheAction::Unrouted, "{path}");
    }
}

#[test]
fn test_cache_max_age_plans() {
    let mut routes = CacheRoutes::new(CacheRouteRule::Enabled(CacheEnabledRouteRule {
        max_age: CacheMaxAgeRule::CacheFor(2 * SECOND),
    }));
    routes.add_route(
        "/cache-for-3s",
        CacheRouteRule::Enabled(CacheEnabledRouteRule {
            max_age: CacheMaxAgeRule::CacheFor(3 * SECOND),
        }),
    );
    routes.add_route(
        "/cache-for-4s/*",
        CacheRouteRule::Enabled(CacheEnabledRouteRule {
            max_age: CacheMaxAgeRule::CacheFor(4 * SECOND),
        }),
    );
    routes.add_route(
        "/cache-forever/*",
        CacheRouteRule::Enabled(CacheEnabledRouteRule {
            max_age: CacheMaxAgeRule::CacheForever,
        }),
    );
    routes.add_route("/cache-never/*", never());
    let cache = Cache::new("host".to_string(), routes);
    let now = 10 * SECOND;

    assert_eq!(
        cache.plan("/cache-for-2s", now).action,
        CacheAction::Cached {
            expires_at: Some(12 * SECOND)
        }
    );
    assert_eq!(
        cache.plan("/cache-for-3s", now).action,
        CacheAction::Cached {
            expires_at: Some(13 * SECOND)
        }
    );
    assert_eq!(
        cache.plan("/cache-for-4s/foo", now).action,
        CacheAction::Cached {
            expires_at: Some(14 * SECOND)
        }
    );
    assert_eq!(
        cache.plan("/cache-forever/foo", now).action,
        CacheAction::Cached { expires_at: None }
    );
    assert_eq!(
        cache.plan("/cache-never/foo", now).action,
        CacheAction::Passthrough
    );
}

#[test]
fn adding_a_pattern_again_replaces_its_rule() {
    let mut routes = CacheRoutes::new(never());
    routes.add_route("/x", CacheRouteRule::Disabled);
    routes.add_route("/x", never());
    assert_eq!(routes.match_route("/x"), (never(), Some("/x".to_string())));
    assert_eq!(routes.route_paths(), vec!["/x".to_string()]);
}

#[test]
fn routes_from_config() {
    let routes = CacheRoutes::from_config(
        CacheConfig {
            max_age: CacheConfigMaxAge::Seconds(5),
        },
        vec![
            (
                "/private/*".to_string(),
                RouteConfig::Disabled(DisabledRoute::Disabled),
            ),
            (
                "/static/*".to_string(),
                RouteConfig::Enabled {
                    cache: CacheConfig::default(),
                },
            ),
        ],
    );
    assert_eq!(
        routes.match_route("/index.html"),
        (
            CacheRouteRule::Enabled(CacheEnabledRouteRule {
                max_age: CacheMaxAgeRule::CacheFor(5 * SECOND)
            }),
            None
        )
    );
    assert_eq!(
        routes.match_route("/private/key"),
        (CacheRouteRule::Disabled, Some("/private/*".to_string()))
    );
    assert_eq!(
        routes.match_route("/static/app.js").0,
        CacheRouteRule::Enabled(CacheEnabledRouteRule {
            max_age: CacheMaxAgeRule::CacheForever
        })
    );
    assert_eq!(
        routes.route_paths(),
        vec!["/private/*".to_string(), "/static/*".to_string()]
    );
}

#[test]
fn host_routes_take_precedence() {
    let global = vec![(
        "/global".to_string(),
        RouteConfig::Disabled(DisabledRoute::Disabled),
    )];
    let host = vec![(
        "/host".to_string(),
        RouteConfig::Disabled(DisabledRoute::Disabled),
    )];
    let routes = CacheRoutes::for_host(
        Some(CacheConfig {
            max_age: CacheConfigMaxAge::never(),
        }),
        Some(host),
        CacheConfig::default(),
        global,
    );
    assert_eq!(routes.match_route("/host").0, CacheRouteRule::Disabled);
    assert_eq!(routes.match_route("/global").0, never());

    let global = vec![(
        "/global".to_string(),
        RouteConfig::Disabled(DisabledRoute::Disabled),
    )];
    let routes = CacheRoutes::for_host(None, None, CacheConfig::default(), global);
    assert_eq!(routes.match_route("/global").0, CacheRouteRule::Disabled);
    assert_eq!(
        routes.match_route("/other").0,
        CacheRouteRule::Enabled(CacheEnabledRouteRule {
            max_age: CacheMaxAgeRule::CacheForever
        })
    );
}

#[test]
fn matched_or_default_passes_found_routes_through() {
    let routes = CacheRoutes::new(never());
    assert_eq!(routes.matched_or_default(None), (never(), None));
    assert_eq!(
        routes.matched_or_default(Some((CacheRouteRule::Disabled, "/p".to_string()))),
        (CacheRouteRule::Disabled, Some("/p".to_string()))
    );
}

#[test]
fn actions_for_rules() {
    assert_eq!(action_for_rule(CacheRouteRule::Disabled, 5), CacheAction::Unrouted);
    assert_eq!(action_for_rule(never(), 5), CacheAction::Passthrough);
    assert_eq!(
        action_for_rule(
            CacheRouteRule::Enabled(CacheEnabledRouteRule {
                max_age: CacheMaxAgeRule::CacheFor(7)
            }),
            5
        ),
        CacheAction::Cached {
            expires_at: Some(12)
        }
    );
}

#[test]
fn matched_patterns_are_listed() {
    let mut routes = CacheRoutes::new(never());
    routes.add_route("/a", CacheRouteRule::Disabled);
    routes.add_route("/a/foo", never());
    routes.add_route("/c/*", CacheRouteRule::Disabled);
    routes.add_route("/a", never());
    let listed = routes.route_paths();
    assert_eq!(listed, vec!["/a".to_string(), "/a/foo".to_string(), "/c/*".to_string()]);
    for path in ["/a", "/a/foo", "/c/foo", "/c/foo/bar", "/whatever"] {
        match routes.match_route(path).1 {
            Some(pattern) => assert!(listed.contains(&pattern)),
            None => assert_eq!(path, "/whatever"),
        }
    }
}
