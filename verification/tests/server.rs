use webcortex::app::App;
use webcortex::auth::{Authenticator, Principal, PrincipalKind};
use webcortex::http::PylonResponse;
use webcortex::json::Members;
use webcortex::manifest::{
    ApiKeySpec, AuthConfig, CorsConfig, Manifest, ModelsConfig, RateLimitConfig, SecurityHeaders, ServerConfig,
};
use webcortex::middleware::{Cors, RateDecision};
use webcortex::server::{
    arrive, control_path, crashed, finish_cors, fits, header_table, rate_key, rate_limited, request_origin, seal,
    time_limit, timed_out, too_large, Edge, Known, Work, MAX_BODY_BYTES,
};
use webcortex::table::Table;

fn cors(enabled: bool) -> Cors {
    Cors::new(CorsConfig { enabled, allow_origins: vec!["https://good.test".into()], ..CorsConfig::default() })
}

fn authenticator() -> Authenticator {
    let mut api_keys = Table::new();
    api_keys.insert("KEY", ApiKeySpec { id: "u1".into(), scopes: vec![] });
    let mut env = Table::new();
    env.insert("KEY", "sesame".to_string());
    let cfg = AuthConfig { api_keys, api_key_header: "x-api-key".into(), jwt: None, anonymous_scopes: vec![] };
    Authenticator::build(&cfg, &env).unwrap()
}

fn headers(pairs: &[(&str, &str)]) -> Table<String> {
    header_table(&pairs.iter().map(|(k, v)| (k.to_string(), v.to_string())).collect())
}

fn manifest() -> Manifest {
    Manifest {
        name: "t".into(),
        version: "0.1.0".into(),
        description: String::new(),
        server: ServerConfig::default(),
        database: None,
        routes: vec![],
        upstreams: Table::new(),
        agents: vec![],
        behaviours: vec![],
        auth: AuthConfig {
            api_keys: Table::new(),
            api_key_header: "x-api-key".into(),
            jwt: None,
            anonymous_scopes: vec![],
        },
        cors: CorsConfig::default(),
        rate_limit: RateLimitConfig::default(),
        security_headers: SecurityHeaders::default(),
        templates: None,
        models: ModelsConfig { aliases: Table::new(), providers: Table::new(), pricing: Table::new() },
        contexts: vec![],
        flows: vec![],
    }
}

fn has(res: &PylonResponse, name: &str, value: &str) -> bool {
    res.headers.iter().any(|(k, v)| k == name && v == value)
}

#[test]
fn header_names_are_lowered_and_the_last_value_stands() {
    let t = headers(&[("X-One", "a"), ("x-ONE", "b"), ("Origin", "https://o.test")]);
    assert_eq!(t.get("x-one").unwrap(), "b");
    assert_eq!(request_origin(&t), Some("https://o.test"));
}

#[test]
fn a_preflight_comes_before_everything_else() {
    let asked = headers(&[("origin", "https://good.test"), ("x-api-key", "wrong")]);
    match arrive(&cors(true), &authenticator(), "OPTIONS", &asked) {
        Edge::Answered(res, who) => {
            assert_eq!((res.status, who.as_str()), (204, "-"));
            assert!(res.body.is_empty());
            assert!(has(&res, "access-control-allow-origin", "https://good.test"));
        }
        Edge::Known(_) => panic!("a preflight is answered"),
    }
    let other = headers(&[("origin", "https://evil.test")]);
    match arrive(&cors(true), &authenticator(), "OPTIONS", &other) {
        Edge::Answered(res, _) => assert_eq!(res.status, 403),
        Edge::Known(_) => panic!("a preflight is answered"),
    }
}

#[test]
fn a_bad_credential_is_refused_with_a_challenge() {
    let asked = headers(&[("origin", "https://good.test"), ("x-api-key", "wrong")]);
    match arrive(&cors(true), &authenticator(), "GET", &asked) {
        Edge::Answered(res, who) => {
            assert_eq!((res.status, who.as_str()), (401, "invalid"));
            assert!(has(&res, "www-authenticate", "Bearer realm=\"webcortex\""));
            assert!(has(&res, "access-control-allow-origin", "https://good.test"));
        }
        Edge::Known(_) => panic!("the key is wrong"),
    }
}

#[test]
fn a_good_credential_passes() {
    match arrive(&cors(true), &authenticator(), "GET", &headers(&[("x-api-key", "sesame")])) {
        Edge::Known(p) => assert_eq!(p.id, "u1"),
        Edge::Answered(res, _) => panic!("{res:?}"),
    }
    match arrive(&cors(false), &authenticator(), "OPTIONS", &headers(&[])) {
        Edge::Known(p) => assert!(p.is_anonymous()),
        Edge::Answered(res, _) => panic!("{res:?}"),
    }
}

#[test]
fn callers_are_counted_by_identity_or_address() {
    let known =
        Principal { id: "u1".into(), kind: PrincipalKind::ApiKey, scopes: vec![], claims: Members::new() };
    assert_eq!(rate_key(&known, "10.0.0.1"), "id:u1");
    assert_eq!(rate_key(&Principal::anonymous(), "10.0.0.1"), "ip:10.0.0.1");
}

#[test]
fn over_the_rate_is_429_with_a_delay() {
    let d = RateDecision { allowed: false, limit: 5, remaining: 0, retry_after_secs: 3 };
    let res = rate_limited(&d, &cors(false), None).unwrap();
    assert_eq!(res.status, 429);
    assert!(has(&res, "retry-after", "3"));
    assert!(has(&res, "x-ratelimit-limit", "5"));
    assert!(has(&res, "x-ratelimit-remaining", "0"));
    let fine = RateDecision { allowed: true, limit: 5, remaining: 4, retry_after_secs: 0 };
    assert!(rate_limited(&fine, &cors(false), None).is_none());
}

#[test]
fn bodies_are_bounded() {
    assert!(fits(0, MAX_BODY_BYTES) && fits(MAX_BODY_BYTES, 0));
    assert!(!fits(1, MAX_BODY_BYTES) && !fits(usize::MAX, usize::MAX));
    let res = too_large(&cors(false), None);
    assert_eq!(res.status, 413);
    assert!(String::from_utf8(res.body).unwrap().contains("request body exceeds 33554432 bytes"));
}

#[test]
fn the_control_prefix_is_taken_off() {
    let server = ServerConfig::default();
    assert_eq!(control_path(&server, "/_webcortex/health").as_deref(), Some("/health"));
    assert!(control_path(&server, "/other").is_none());
}

#[test]
fn a_request_passes_its_stages_in_order() {
    let m = manifest();
    let app = App::build(&m, &Table::new()).unwrap();
    let enter = |path: &str, key: &str| {
        let asked = headers(&[("x-api-key", key), ("origin", "https://good.test")]);
        Known::enter(&cors(true), &authenticator(), "GET".into(), path.into(), Table::new(), asked)
    };
    let (res, who) = enter("/a", "wrong").err().unwrap();
    assert_eq!((res.status, who.as_str()), (401, "invalid"));
    let known = enter("/a", "sesame").ok().unwrap();
    assert_eq!(known.key("10.0.0.1"), "id:u1");
    let over = RateDecision { allowed: false, limit: 5, remaining: 0, retry_after_secs: 3 };
    let (res, who) = known.counted(Some(&over), &cors(true)).err().unwrap();
    assert_eq!((res.status, who.as_str()), (429, "u1"));
    assert!(has(&res, "access-control-allow-origin", "https://good.test"));
    let counted = || enter("/a", "sesame").ok().unwrap().counted(None, &cors(true)).ok().unwrap();
    match counted().read(None, &app, 300, &cors(true)) {
        Work::Refused(res, who) => assert_eq!((res.status, who.as_str()), (413, "u1")),
        _ => panic!("the body is too large"),
    }
    match counted().read(Some(b"x".to_vec()), &app, 300, &cors(true)) {
        Work::Dispatch { asked, secs } => {
            assert_eq!((asked.path.as_str(), asked.principal.id.as_str()), ("/a", "u1"));
            assert_eq!((asked.body, asked.depth, secs), (b"x".to_vec(), 0, m.server.request_timeout_secs));
        }
        _ => panic!("the application answers"),
    }
    let inside = enter("/_webcortex/health", "sesame").ok().unwrap().counted(None, &cors(true)).ok().unwrap();
    match inside.read(Some(vec![]), &app, 300, &cors(true)) {
        Work::Control { rest, .. } => assert_eq!(rest, "/health"),
        _ => panic!("the control plane answers"),
    }
}

#[test]
fn a_model_loop_has_its_own_time() {
    let server = ServerConfig::default();
    assert_eq!(time_limit(&server, 300, false), 30);
    assert_eq!(time_limit(&server, 300, true), 300);
    assert_eq!(time_limit(&server, 10, true), 30);
}

#[test]
fn every_exit_is_sealed() {
    for mut res in [timed_out(), crashed(), PylonResponse::text(200, "ok")] {
        let status = res.status;
        seal(&mut res, "r-1", &SecurityHeaders::default());
        assert_eq!(res.status, status);
        assert!(has(&res, "x-request-id", "r-1"));
        assert!(has(&res, "x-content-type-options", "nosniff"));
    }
    assert_eq!(timed_out().status, 504);
    assert_eq!(crashed().status, 500);
}

#[test]
fn origins_are_told_only_where_enabled() {
    let mut res = PylonResponse::text(200, "ok");
    finish_cors(&mut res, &cors(false), Some("https://good.test"));
    assert_eq!(res.headers.len(), 1);
    finish_cors(&mut res, &cors(true), Some("https://good.test"));
    assert!(has(&res, "vary", "Origin"));
}
