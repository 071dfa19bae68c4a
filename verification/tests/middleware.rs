use webcortex::manifest::{CorsConfig, SecurityHeaders};
use webcortex::middleware::{security_headers, shard_for, Bucket, Buckets, Cors};

fn cors(origins: &[&str], credentials: bool) -> Cors {
    Cors::new(CorsConfig {
        enabled: true,
        allow_origins: origins.iter().map(|s| s.to_string()).collect(),
        allow_credentials: credentials,
        ..CorsConfig::default()
    })
}

#[test]
fn disallowed_origin_gets_no_cors_headers() {
    let c = cors(&["https://good.test"], false);
    assert!(c.headers_for(Some("https://evil.test")).is_empty());
    assert!(c.preflight(Some("https://evil.test")).is_none());
}

#[test]
fn allowed_origin_is_echoed_and_varied() {
    let c = cors(&["https://good.test"], false);
    let h = c.headers_for(Some("https://good.test"));
    assert!(h.contains(&("access-control-allow-origin".into(), "https://good.test".into())));
    assert!(h.iter().any(|(k, v)| k == "vary" && v == "Origin"));
}

#[test]
fn credentialed_cors_never_answers_with_a_wildcard() {
    let c = cors(&["*"], true);
    let h = c.headers_for(Some("https://any.test"));
    let origin = h.iter().find(|(k, _)| k == "access-control-allow-origin").unwrap();
    assert_eq!(origin.1, "https://any.test", "must echo, never '*', with credentials");
}

#[test]
fn hsts_only_on_https() {
    let cfg = SecurityHeaders::default();
    let plain = security_headers(&cfg, false);
    let tls = security_headers(&cfg, true);
    assert!(!plain.iter().any(|(k, _)| k == "strict-transport-security"));
    assert!(tls.iter().any(|(k, _)| k == "strict-transport-security"));
}

#[test]
fn nosniff_is_always_present_when_enabled() {
    let h = security_headers(&SecurityHeaders::default(), false);
    assert!(h.contains(&("x-content-type-options".into(), "nosniff".into())));
}

#[test]
fn keys_are_spread_over_the_shards_by_their_bytes() {
    assert!(shard_for("k") < 16);
    assert_eq!(shard_for("k"), shard_for("k"));
    assert_eq!(shard_for(""), 5);
}

#[test]
fn a_bucket_starts_full_and_keeps_what_is_settled() {
    let mut b = Buckets::new();
    assert_eq!(b.draw("k", 5, 100, 42).tokens, 42);
    b.settle("k", Bucket { tokens: 7, last: 5 }, 5, 100);
    assert_eq!(b.draw("k", 6, 100, 42).tokens, 7);
    assert_eq!(b.draw("other", 6, 100, 42).tokens, 42);
}
