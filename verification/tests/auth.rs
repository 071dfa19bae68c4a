use webcortex::auth::{
    api_key_text, build_jwt_decoder, generate_api_key, settle_token, AuthError, Authenticator, Principal, PrincipalKind,
    TokenFault,
};
use webcortex::json::{parse, Members};
use webcortex::manifest::{ApiKeySpec, AuthConfig, JwtConfig};
use webcortex::table::Table;

/// Long enough for a shared key.
const SECRET: &str = "an old pond / a frog jumps in / the sound of water";

fn principal_with(scopes: &[&str]) -> Principal {
    Principal {
        id: "u1".into(),
        kind: PrincipalKind::Jwt,
        scopes: scopes.iter().map(|s| s.to_string()).collect(),
        claims: Members::new(),
    }
}

fn jwt(algorithm: &str) -> JwtConfig {
    JwtConfig {
        secret_env: "JWT".into(),
        algorithm: algorithm.into(),
        audience: None,
        issuer: None,
        leeway_secs: 30,
    }
}

fn config(with_jwt: bool) -> AuthConfig {
    let mut api_keys = Table::new();
    api_keys.insert("READER_KEY", ApiKeySpec { id: "reader".into(), scopes: vec!["read".into()] });
    api_keys.insert("UNSET_KEY", ApiKeySpec { id: "ghost".into(), scopes: vec!["*".into()] });
    AuthConfig {
        api_keys,
        api_key_header: "x-api-key".into(),
        jwt: if with_jwt { Some(jwt("HS256")) } else { None },
        anonymous_scopes: vec!["browse".into()],
    }
}

fn environment() -> Table<String> {
    let mut env = Table::new();
    env.insert("READER_KEY", "sesame".into());
    env.insert("JWT", SECRET.into());
    env
}

fn headers(pairs: &[(&str, &str)]) -> Table<String> {
    let mut t = Table::new();
    for (k, v) in pairs {
        t.insert(k, v.to_string());
    }
    t
}

#[test]
fn wildcard_grants_everything_but_prefixes_do_not() {
    assert!(principal_with(&["*"]).has_scope("anything"));
    assert!(!principal_with(&["admin:*"]).has_scope("admin:write"));
}

#[test]
fn agent_scopes_are_intersected_never_unioned() {
    let caller = principal_with(&["read"]);
    let agent = caller.delegate_to_agent("a", &["read".into(), "write".into()]);
    assert_eq!(agent.scopes, vec!["read"], "agent must not gain 'write'");
    assert_eq!(agent.kind, PrincipalKind::Agent);
}

#[test]
fn agent_without_declared_scopes_inherits_the_caller_exactly() {
    let caller = principal_with(&["read", "write"]);
    let agent = caller.delegate_to_agent("a", &[]);
    assert_eq!(agent.scopes, vec!["read", "write"]);
}

#[test]
fn an_anonymous_caller_cannot_launch_a_privileged_agent() {
    let anon = Principal::anonymous();
    let agent = anon.delegate_to_agent("a", &["admin".into()]);
    assert!(agent.scopes.is_empty());
}

#[test]
fn delegation_records_the_original_principal_for_audit() {
    let agent = principal_with(&["read"]).delegate_to_agent("librarian", &[]);
    assert_eq!(agent.claims.get("on_behalf_of").unwrap().as_str(), Some("u1"));
    assert_eq!(agent.claims.get("agent").unwrap().as_str(), Some("librarian"));
}

#[test]
fn generated_keys_are_prefixed_and_unique() {
    let a = generate_api_key();
    let b = generate_api_key();
    assert!(a.starts_with("pyl_") && a.len() > 40);
    assert_ne!(a, b);
}

#[test]
fn a_key_is_its_bytes_in_url_safe_base64() {
    assert_eq!(api_key_text(&[0; 16], &[0; 16]), format!("pyl_{}", "A".repeat(43)));
    let high = api_key_text(&[255; 16], &[255; 16]);
    assert_eq!(high, format!("pyl_{}8", "_".repeat(42)));
}

#[test]
fn missing_scopes_are_those_not_held() {
    let p = principal_with(&["a", "c"]);
    assert_eq!(p.missing_scopes(&["a".into(), "b".into(), "c".into(), "d".into()]), vec!["b", "d"]);
    assert!(principal_with(&["*"]).missing_scopes(&["x".into()]).is_empty());
}

#[test]
fn a_known_key_establishes_its_principal() {
    let auth = Authenticator::build(&config(false), &environment()).unwrap();
    let p = auth.authenticate(&headers(&[("x-api-key", " sesame ")])).unwrap();
    assert_eq!(p.id, "reader");
    assert_eq!(p.kind, PrincipalKind::ApiKey);
    assert_eq!(p.scopes, vec!["read"]);
}

#[test]
fn an_unknown_key_is_refused_and_not_downgraded() {
    let auth = Authenticator::build(&config(false), &environment()).unwrap();
    for wrong in ["", "sesam", "sesame1", "ghost"] {
        let e = auth.authenticate(&headers(&[("x-api-key", wrong)])).unwrap_err();
        assert_eq!(e.status(), 401);
        assert_eq!(e.message(), "unrecognised API key");
        assert!(matches!(e, AuthError::Invalid(_)));
    }
}

#[test]
fn no_credential_is_anonymous_with_the_open_scopes() {
    let auth = Authenticator::build(&config(false), &environment()).unwrap();
    let p = auth.authenticate(&headers(&[("accept", "*/*")])).unwrap();
    assert!(p.is_anonymous());
    assert_eq!(p.scopes, vec!["browse"]);
}

#[test]
fn other_authorization_schemes_are_malformed() {
    let auth = Authenticator::build(&config(true), &environment()).unwrap();
    let e = auth.authenticate(&headers(&[("authorization", "Basic abc")])).unwrap_err();
    assert!(matches!(e, AuthError::Malformed(_)));
    assert_eq!(e.message(), "Authorization header must use the Bearer scheme");
}

#[test]
fn tokens_are_refused_where_none_are_configured() {
    let auth = Authenticator::build(&config(false), &environment()).unwrap();
    let e = auth.authenticate(&headers(&[("authorization", "Bearer x.y.z")])).unwrap_err();
    assert_eq!(e.message(), "bearer tokens are not accepted by this app");
}

fn signed(claims: &str, secret: &str) -> String {
    let claims: serde_json::Value = serde_json::from_str(claims).unwrap();
    let token = jsonwebtoken::encode(
        &jsonwebtoken::Header::default(),
        &claims,
        &jsonwebtoken::EncodingKey::from_secret(secret.as_bytes()),
    )
    .unwrap();
    format!("Bearer {token}")
}

#[test]
fn a_signed_token_establishes_its_claims() {
    let auth = Authenticator::build(&config(true), &environment()).unwrap();
    let p = auth.authenticate(&headers(&[("authorization", &signed(r#"{"exp":4102444800,"scope":"write read","sub":"u1"}"#, SECRET))])).unwrap();
    assert_eq!(p.id, "u1");
    assert_eq!(p.kind, PrincipalKind::Jwt);
    assert_eq!(p.scopes, vec!["read", "write"]);
}

#[test]
fn an_expired_token_says_so() {
    let auth = Authenticator::build(&config(true), &environment()).unwrap();
    let e = auth.authenticate(&headers(&[("authorization", &signed(r#"{"exp":1000000000,"sub":"u1"}"#, SECRET))])).unwrap_err();
    assert!(matches!(e, AuthError::Expired(_)));
    assert_eq!(e.message(), "token has expired");
}

#[test]
fn a_leeway_that_the_clock_cannot_take_is_seen_before_a_token_is_read() {
    let mut cfg = config(true);
    cfg.jwt = Some(JwtConfig { leeway_secs: u64::MAX, ..jwt("HS256") });
    let auth = Authenticator::build(&cfg, &environment()).unwrap();
    assert!(!auth.is_ready_for(&headers(&[("authorization", "Bearer x.y.z")])));
    assert!(auth.is_ready_for(&headers(&[("authorization", "Basic x")])));
    assert!(auth.is_ready_for(&headers(&[("x-api-key", "sesame"), ("authorization", "Bearer x")])));
    assert_eq!(auth.authenticate(&headers(&[("x-api-key", "sesame")])).unwrap().id, "reader");
    let most = JwtConfig { leeway_secs: 1_000_000_000, ..jwt("HS256") };
    cfg.jwt = Some(most);
    let auth = Authenticator::build(&cfg, &environment()).unwrap();
    let old = headers(&[("authorization", &signed(r#"{"exp":1000000000,"sub":"u1"}"#, SECRET))]);
    assert!(auth.is_ready_for(&old));
    assert_eq!(auth.authenticate(&old).unwrap().id, "u1");
}

#[test]
fn claims_are_read_before_they_are_judged() {
    let auth = Authenticator::build(&config(true), &environment()).unwrap();
    let said = |claims: &str, secret: &str| {
        auth.authenticate(&headers(&[("authorization", &signed(claims, secret))])).unwrap_err()
    };
    for claims in [
        r#"{"exp":1,"sub":5}"#,
        r#"{"exp":4102444800,"scope":["read"]}"#,
        r#"{"exp":1,"scopes":[1]}"#,
        r#"{"aud":"other","sub":true}"#,
    ] {
        let e = said(claims, SECRET);
        assert!(matches!(e, AuthError::Invalid(_)), "{claims}");
        assert!(e.message().starts_with("token rejected: JSON error: invalid type: "), "{}", e.message());
    }
    assert!(matches!(said(r#"{"exp":1,"sub":"u1","scope":null}"#, SECRET), AuthError::Expired(_)));
    assert!(said(r#"{"exp":1,"sub":5}"#, "guess").message().contains("InvalidSignature"));
}

#[test]
fn a_forged_token_is_rejected() {
    let auth = Authenticator::build(&config(true), &environment()).unwrap();
    let forged = signed(r#"{"exp":4102444800,"sub":"u1"}"#, "guess");
    let e = auth.authenticate(&headers(&[("authorization", &forged)])).unwrap_err();
    assert!(matches!(e, AuthError::Invalid(_)));
    assert!(e.message().starts_with("token rejected: "), "{}", e.message());
}

#[test]
fn scopes_are_read_from_either_claim() {
    let list = settle_token(Ok(parse(r#"{"sub":"u","scopes":["a","b"]}"#).unwrap())).unwrap();
    assert_eq!(list.scopes, vec!["a", "b"]);
    let words = settle_token(Ok(parse(r#"{"sub":"u","scope":"c d"}"#).unwrap())).unwrap();
    assert_eq!(words.scopes, vec!["c", "d"]);
    assert!(settle_token(Err(TokenFault::Expired)).is_err());
    assert!(settle_token(Err(TokenFault::Rejected("no".into()))).is_err());
}

const PUBLIC_KEY: &str = "-----BEGIN PUBLIC KEY-----
MIIBIjANBgkqhkiG9w0BAQEFAAOCAQ8AMIIBCgKCAQEArul+x7lfuMohv+eGgkqD
KhBG35GQX7CV1xGT67BJ30JxBh13OV/KeXFNt6O4kKXIQnmk40D/NuBJgbHh8Sxo
AOvXRD20RMXLhkCQ5uIZVbZjs9D4ZuPt7qbNp+zLBqezrbRu7k7FpM2ZLTZIYi/b
JLQvEAcX65d2Is6DZ7uKXo3Ojk45QmfW/Ikr69OCi1HeSxxv33VxmuFMpRDvPjev
PhXHJ9yxiZEosNJQJE/iQYnk+x/4WArjZ8frTvJll3SPd7rGAa72OJmL0V4WWMTx
Rn28o0LtNDrl5tC6wpomgVCaG65VEghOl/9zY8cT7dV2f3xXkmXNLVJxLuR0+foQ
SQIDAQAB
-----END PUBLIC KEY-----
";

#[test]
fn a_public_key_checks_tokens_that_others_sign() {
    let pem = PUBLIC_KEY.to_string();
    assert!(build_jwt_decoder(&jwt("RS256"), Some(&pem)).is_ok());
    assert!(build_jwt_decoder(&jwt("ES256"), Some(&pem)).is_err(), "not a family that is offered");
}

#[test]
fn a_token_must_expire_and_fit_its_audience() {
    let mut cfg = config(true);
    cfg.jwt.as_mut().unwrap().audience = Some("shop".into());
    cfg.jwt.as_mut().unwrap().issuer = Some("desk".into());
    let auth = Authenticator::build(&cfg, &environment()).unwrap();
    let check = |claims: &str| auth.authenticate(&headers(&[("authorization", &signed(claims, SECRET))]));
    assert!(check(r#"{"exp":4102444800,"sub":"u1","aud":"shop","iss":"desk"}"#).is_ok());
    assert!(check(r#"{"sub":"u1","aud":"shop","iss":"desk"}"#).is_err(), "no expiry");
    assert!(check(r#"{"exp":4102444800,"sub":"u1","aud":"other","iss":"desk"}"#).is_err());
    assert!(check(r#"{"exp":4102444800,"sub":"u1","aud":"shop","iss":"other"}"#).is_err());
    assert!(check(r#"{"exp":4102444800,"sub":7,"aud":"shop","iss":"desk"}"#).is_err(), "not a text");
}

#[test]
fn a_decoder_needs_its_secret_and_a_known_algorithm() {
    let secret = SECRET.to_string();
    assert!(build_jwt_decoder(&jwt("HS256"), Some(&secret)).is_ok());
    assert!(build_jwt_decoder(&jwt("HS256"), None).is_err());
    let short = "hush".to_string();
    assert!(build_jwt_decoder(&jwt("HS256"), Some(&short)).err().unwrap().contains("at least 32 bytes"));
    assert!(build_jwt_decoder(&jwt("none"), Some(&secret)).is_err());
    assert!(build_jwt_decoder(&jwt("RS256"), Some(&secret)).is_err(), "not a PEM");
}
