use server3::upstream::UpstreamOutcome::{Failed, Found, NotFound};
use server3::upstream::{
    classify_status, s3_object_key, strip_leading_slashes, upstream_url, FallthroughDecision, FallthroughState, StatusClass,
    UpstreamOutcome,
};

/// Runs the chain over the answers the upstreams would give, stopping at
/// the first resource found; returns the decision and how many were asked.
fn run(outcomes: &[UpstreamOutcome]) -> (FallthroughDecision, usize) {
    let mut state = FallthroughState::new();
    for outcome in outcomes {
        if let Some(decision) = state.record(*outcome) {
            return (decision, state.next_index());
        }
    }
    (state.finish(), state.next_index())
}

#[test]
fn test_fallthrough_empty() {
    assert_eq!(run(&[]), (FallthroughDecision::NotFound, 0));
}

#[test]
fn test_fallthrough_passthrough_with_one() {
    assert_eq!(run(&[UpstreamOutcome::Found]).0, FallthroughDecision::Found(0));
    assert_eq!(run(&[UpstreamOutcome::NotFound]).0, FallthroughDecision::NotFound);
    assert_eq!(run(&[UpstreamOutcome::Failed]).0, FallthroughDecision::Failed(0));
}

#[test]
fn test_fallthrough_returns_first() {
    assert_eq!(run(&[Found, Found, Found]), (FallthroughDecision::Found(0), 1));
    assert_eq!(run(&[NotFound, Found, Found]), (FallthroughDecision::Found(1), 2));
    assert_eq!(run(&[NotFound, NotFound, Found]), (FallthroughDecision::Found(2), 3));
}

#[test]
fn test_fallthrough_ignores_errors() {
    assert_eq!(run(&[Failed, Found]), (FallthroughDecision::Found(1), 2));
}

#[test]
fn test_fallthrough_keeps_error_if_no_successes() {
    assert_eq!(
        run(&[NotFound, Failed, Failed, NotFound]),
        (FallthroughDecision::Failed(1), 4)
    );
}

#[test]
fn s3_keys_drop_leading_slashes() {
    assert_eq!(s3_object_key("", "/foo/bar.txt"), "foo/bar.txt");
    assert_eq!(s3_object_key("site/", "///index.html"), "site/index.html");
    assert_eq!(s3_object_key("site/", "/dir/"), "site/dir/");
    assert_eq!(s3_object_key("p", "no-slash"), "pno-slash");
    assert_eq!(s3_object_key("p/", "/"), "p/");
    assert_eq!(s3_object_key("", ""), "");
    assert_eq!(s3_object_key("", "/é/ü"), "é/ü");
}

#[test]
fn status_classes() {
    assert_eq!(classify_status(200), StatusClass::Success);
    assert_eq!(classify_status(304), StatusClass::Success);
    assert_eq!(classify_status(404), StatusClass::NotFound);
    assert_eq!(classify_status(400), StatusClass::Error);
    assert_eq!(classify_status(403), StatusClass::Error);
    assert_eq!(classify_status(500), StatusClass::Error);
    assert_eq!(classify_status(599), StatusClass::Error);
    assert_eq!(classify_status(600), StatusClass::Success);
}

#[test]
fn test_cache_resource_subpath_handling() {
    // Paths are resolved below the base URL, and trailing slashes stay
    // significant.
    let base = "http://127.0.0.1:1234/foo/";
    assert_eq!(
        upstream_url(base, "/").ok().as_deref(),
        Some("http://127.0.0.1:1234/foo/")
    );
    assert_eq!(
        upstream_url(base, "/bar").ok().as_deref(),
        Some("http://127.0.0.1:1234/foo/bar")
    );
    assert_eq!(
        upstream_url(base, "/bar/").ok().as_deref(),
        Some("http://127.0.0.1:1234/foo/bar/")
    );
    assert_eq!(
        upstream_url("http://127.0.0.1:1234/", "//foo/bar.txt").ok().as_deref(),
        Some("http://127.0.0.1:1234/foo/bar.txt")
    );
}

#[test]
fn invalid_upstream_base_is_an_error() {
    assert!(upstream_url("not a url", "/bar").is_err());
}

#[test]
fn strip_leading_slashes_keeps_the_rest() {
    assert_eq!(strip_leading_slashes("//a/b/"), "a/b/");
    assert_eq!(strip_leading_slashes("a"), "a");
    assert_eq!(strip_leading_slashes("///"), "");
}

#[test]
fn fallthrough_counts_the_answers() {
    let mut state = FallthroughState::new();
    assert_eq!(state.next_index(), 0);
    assert_eq!(state.record(NotFound), None);
    assert_eq!(state.next_index(), 1);
    assert_eq!(state.record(Failed), None);
    assert_eq!(state.next_index(), 2);
    assert_eq!(state.record(Found), Some(FallthroughDecision::Found(2)));
    assert_eq!(state.next_index(), 3);
}
