use bugpot::admin::auth::{bearer_token, require_deploy_token, AdminAuth, AUTHORIZATION};
use bugpot::admin::deploy_key::DeployKeySecret;
use bugpot::admin::error::AdminError;
use bugpot::admin::handlers::{
    app_not_found, body_format, issue_deploy_key, parse_app_spec, rate_limited, unread_body,
    BodyFormat, CONTENT_TYPE,
};
use bugpot::apps::error::{DeployError, RemoveError, RolloutError, UpdateError};
use bugpot::config::spec::{AppSpec, EgressSpec, Readiness, Resources, Scaling};
use bugpot::config::validate::InvalidSpec;
use bugpot::router::headers::Headers;

fn with(name: &str, value: &str) -> Headers {
    let mut h = Headers::new();
    h.insert(name, value.as_bytes().to_vec());
    h
}

fn header(value: &str) -> Headers {
    with(AUTHORIZATION, value)
}

#[test]
fn auth_rejects_missing_header() {
    let auth = AdminAuth::from_token("expected-token".into());
    assert_eq!(auth.check(&Headers::new()).unwrap_err(), 401);
}

#[test]
fn auth_rejects_wrong_scheme() {
    let auth = AdminAuth::from_token("expected-token".into());
    assert_eq!(auth.check(&header("Basic expected-token")).unwrap_err(), 401);
    assert_eq!(auth.check(&header("expected-token")).unwrap_err(), 401);
}

#[test]
fn auth_accepts_matching_bearer() {
    let auth = AdminAuth::from_token("expected-token".into());
    assert!(auth.check(&header("Bearer expected-token")).is_ok());
}

#[test]
fn auth_rejects_wrong_token_same_length() {
    let auth = AdminAuth::from_token("expected-token".into());
    assert_eq!(auth.check(&header("Bearer ExPeCtEd-tOkEn")).unwrap_err(), 401);
}

#[test]
fn auth_rejects_wrong_token_length_mismatch() {
    let auth = AdminAuth::from_token("expected-token".into());
    assert_eq!(auth.check(&header("Bearer expected")).unwrap_err(), 401);
    assert_eq!(auth.check(&header("Bearer expected-token-extra-suffix")).unwrap_err(), 401);
}

#[test]
fn bearer_token_is_what_follows_the_scheme() {
    assert_eq!(bearer_token(&header("Bearer a b")).as_deref(), Some("a b"));
    assert_eq!(bearer_token(&header("bearer a")), None);
    let mut h = Headers::new();
    h.insert(AUTHORIZATION, vec![0xff]);
    assert_eq!(bearer_token(&h), None);
}

fn fresh_secret() -> DeployKeySecret {
    DeployKeySecret::from_bytes(b"test-secret-xyz".to_vec())
}

#[test]
fn derive_then_verify_round_trip() {
    let s = fresh_secret();
    let token = s.derive("alpha", "ghcr.io/owner/myapp");
    assert!(s.verify(&token, "alpha", "ghcr.io/owner/myapp"));
}

#[test]
fn token_has_versioned_wire_prefix_and_64_hex_chars() {
    let s = fresh_secret();
    let token = s.derive("alpha", "ghcr.io/owner/myapp");
    assert!(token.starts_with("bp1."));
    assert_eq!(token.len(), 4 + 64);
    let hex_part = &token[4..];
    assert!(hex_part.chars().all(|c| c.is_ascii_hexdigit()));
}

#[test]
fn name_change_invalidates_token() {
    let s = fresh_secret();
    let token = s.derive("alpha", "ghcr.io/owner/myapp");
    assert!(!s.verify(&token, "beta", "ghcr.io/owner/myapp"));
}

#[test]
fn repo_change_invalidates_token() {
    let s = fresh_secret();
    let token = s.derive("alpha", "ghcr.io/owner/myapp");
    assert!(!s.verify(&token, "alpha", "ghcr.io/other/myapp"));
}

#[test]
fn binding_subset_excludes_non_name_non_repo_fields() {
    let s = fresh_secret();
    let t1 = s.derive("alpha", "ghcr.io/owner/myapp");
    let t2 = s.derive("alpha", "ghcr.io/owner/myapp");
    assert_eq!(t1, t2);
}

#[test]
fn rejects_wrong_version_prefix() {
    let s = fresh_secret();
    let token = s.derive("alpha", "ghcr.io/owner/myapp");
    let tampered = token.replacen("bp1.", "bp2.", 1);
    assert!(!s.verify(&tampered, "alpha", "ghcr.io/owner/myapp"));
}

#[test]
fn rejects_wrong_length() {
    let s = fresh_secret();
    assert!(!s.verify("bp1.shortmac", "alpha", "x"));
    assert!(!s.verify("", "alpha", "x"));
    let mut too_long = s.derive("alpha", "x");
    too_long.push('0');
    assert!(!s.verify(&too_long, "alpha", "x"));
}

#[test]
fn rejects_non_hex_payload() {
    let s = fresh_secret();
    let token = s.derive("alpha", "ghcr.io/owner/myapp");
    let mut bytes = token.into_bytes();
    bytes[5] = b'!';
    let tampered = String::from_utf8(bytes).expect("ASCII");
    assert!(!s.verify(&tampered, "alpha", "ghcr.io/owner/myapp"));
}

#[test]
fn different_secrets_derive_different_tokens() {
    let a = DeployKeySecret::from_bytes(b"secret-a".to_vec());
    let b = DeployKeySecret::from_bytes(b"secret-b".to_vec());
    let ta = a.derive("alpha", "ghcr.io/owner/myapp");
    let tb = b.derive("alpha", "ghcr.io/owner/myapp");
    assert_ne!(ta, tb);
}

#[test]
fn length_prefix_prevents_boundary_collision() {
    let s = fresh_secret();
    assert_ne!(s.derive("ab", "cd"), s.derive("a", "bcd"));
}

#[test]
fn tokens_may_be_written_in_capitals() {
    let s = fresh_secret();
    let token = s.derive("alpha", "x");
    let upper = format!("bp1.{}", token[4..].to_ascii_uppercase());
    assert!(s.verify(&upper, "alpha", "x"));
}

#[test]
fn deploy_token_opens_only_its_own_app() {
    let s = fresh_secret();
    let token = s.derive("alpha", "repo");
    let h = header(&format!("Bearer {token}"));
    assert!(require_deploy_token(&s, &h, Some(("alpha", "repo"))).is_ok());
    assert_eq!(require_deploy_token(&s, &h, Some(("beta", "repo"))), Err(401));
    assert_eq!(require_deploy_token(&s, &h, Some(("alpha", "other"))), Err(401));
    assert_eq!(require_deploy_token(&s, &h, None), Err(401));
    assert_eq!(require_deploy_token(&s, &Headers::new(), Some(("alpha", "repo"))), Err(401));
}

#[test]
fn deploy_error_maps_to_status() {
    let cases: Vec<(DeployError, u16)> = vec![
        (DeployError::AlreadyExists("x".into()), 409),
        (DeployError::SubdomainTaken("y".into()), 409),
        (DeployError::ImagePull("registry 503".into()), 502),
        (DeployError::ImageAuth("401 from ghcr".into()), 502),
        (DeployError::StartFailed("port bind".into()), 500),
        (DeployError::Internal("disk full".into()), 500),
    ];
    for (err, expected) in cases {
        let admin = AdminError::from_deploy(&err);
        assert_eq!(admin.status, expected);
    }
}

#[test]
fn remove_error_maps_to_status() {
    let internal = AdminError::from_remove(&RemoveError::Internal("io".into()));
    assert_eq!(internal.status, 500);
    assert_eq!(internal.message, "io");
    assert!(internal.is_server_error());
}

fn fault() -> InvalidSpec {
    InvalidSpec { field: "name", value: "X".to_owned(), reason: "bad" }
}

#[test]
fn every_refusal_has_its_status_and_message() {
    let e = AdminError::from_deploy(&DeployError::MissingName);
    assert_eq!((e.status, e.message.as_str()), (400, "spec.name is required for deploy"));
    let e = AdminError::from_deploy(&DeployError::InvalidSpec(fault()));
    assert_eq!(
        (e.status, e.message.as_str()),
        (400, "invalid spec: invalid name: bad (value=\"X\")")
    );
    let e = AdminError::from_deploy(&DeployError::AlreadyExists("a".into()));
    assert_eq!(e.message, "app 'a' already exists");
    let e = AdminError::from_deploy(&DeployError::SubdomainTaken("a".into()));
    assert_eq!(e.message, "subdomain 'a' already in use");

    for (err, status, message) in [
        (
            UpdateError::InvalidSpec(fault()),
            400,
            "invalid spec: invalid name: bad (value=\"X\")",
        ),
        (UpdateError::NameImmutable, 400, "name is immutable; delete + recreate to rename"),
        (
            UpdateError::SubdomainImmutable,
            400,
            "subdomain is immutable; delete + recreate to change",
        ),
        (
            UpdateError::Conflict("a".into()),
            409,
            "app 'a' is currently transitioning state; retry",
        ),
        (
            UpdateError::RestartFailed("r".into()),
            500,
            "config updated but app failed to restart: r",
        ),
        (UpdateError::Internal("i".into()), 500, "i"),
    ] {
        let e = AdminError::from_update(&err);
        assert_eq!((e.status, e.message.as_str()), (status, message));
    }

    for (err, status, message) in [
        (RolloutError::EmptyTag, 400, "rollout tag must not be empty"),
        (RolloutError::ImageAuth("x".into()), 502, "registry authentication failed: x"),
        (RolloutError::ImagePull("x".into()), 502, "image pull failed: x"),
        (
            RolloutError::Conflict("a".into()),
            409,
            "app 'a' is currently transitioning state; retry",
        ),
        (
            RolloutError::StartFailed("x".into()),
            500,
            "rollout started but app failed to come up: x",
        ),
        (RolloutError::Internal("x".into()), 500, "x"),
    ] {
        let e = AdminError::from_rollout(&err);
        assert_eq!((e.status, e.message.as_str()), (status, message));
        assert_eq!(e.is_server_error(), status >= 500);
    }
}

fn bare_spec(repo: &str, port: u16, name: Option<String>) -> AppSpec {
    AppSpec {
        repo: repo.to_owned(),
        port,
        name,
        subdomain: None,
        egress: EgressSpec::default(),
        env: Vec::new(),
        scaling: Scaling::default(),
        readiness: Readiness::default(),
        resources: Resources::default(),
        volumes: Vec::new(),
        source_path: String::new(),
    }
}

fn read_toml(text: &str) -> Result<AppSpec, String> {
    let table: toml::Table = text.parse().map_err(|e: toml::de::Error| e.to_string())?;
    let repo = table.get("repo").and_then(|v| v.as_str()).ok_or("missing field `repo`")?;
    let port = table.get("port").and_then(|v| v.as_integer()).ok_or("missing field `port`")?;
    let name = table.get("name").and_then(|v| v.as_str()).map(str::to_owned);
    Ok(bare_spec(repo, port as u16, name))
}

fn read_json(body: &[u8]) -> Result<AppSpec, String> {
    let value: serde_json::Value = serde_json::from_slice(body).map_err(|e| e.to_string())?;
    let repo = value.get("repo").and_then(|v| v.as_str()).ok_or("missing field `repo`")?;
    let port = value.get("port").and_then(|v| v.as_u64()).ok_or("missing field `port`")?;
    let name = value.get("name").and_then(|v| v.as_str()).map(str::to_owned);
    Ok(bare_spec(repo, port as u16, name))
}

fn parse(headers: &Headers, body: &[u8]) -> Result<AppSpec, AdminError> {
    parse_app_spec(headers, body, read_toml, read_json)
}

fn ct(value: &str) -> Headers {
    with(CONTENT_TYPE, value)
}

#[test]
fn parse_app_spec_accepts_json_by_default() {
    let body = br#"{"repo":"ghcr.io/owner/x","port":8080,"name":"alpha"}"#;
    let spec = parse(&Headers::new(), body).expect("json default");
    assert_eq!(spec.repo, "ghcr.io/owner/x");
    assert_eq!(spec.name(), "alpha");
}

#[test]
fn parse_app_spec_accepts_explicit_json() {
    let body = br#"{"repo":"ghcr.io/owner/x","port":8080,"name":"alpha"}"#;
    let spec = parse(&ct("application/json"), body).expect("explicit json");
    assert_eq!(spec.repo, "ghcr.io/owner/x");
}

#[test]
fn parse_app_spec_accepts_toml() {
    let body = br#"
            repo = "ghcr.io/owner/x"
            port = 8080
            name = "alpha"
        "#;
    let spec = parse(&ct("application/toml"), body).expect("application/toml");
    assert_eq!(spec.repo, "ghcr.io/owner/x");
    assert_eq!(spec.name(), "alpha");
}

#[test]
fn parse_app_spec_accepts_text_toml_alias() {
    let body = br#"
            repo = "ghcr.io/owner/x"
            port = 8080
            name = "alpha"
        "#;
    let spec = parse(&ct("text/toml"), body).expect("text/toml");
    assert_eq!(spec.repo, "ghcr.io/owner/x");
}

#[test]
fn parse_app_spec_strips_content_type_parameters() {
    let body = br#"
            repo = "ghcr.io/owner/x"
            port = 8080
            name = "alpha"
        "#;
    let spec =
        parse(&ct("application/toml; charset=utf-8"), body).expect("toml with charset param");
    assert_eq!(spec.repo, "ghcr.io/owner/x");
}

#[test]
fn parse_app_spec_rejects_invalid_toml_with_400() {
    let body = b"this = is = not = valid toml";
    let err = parse(&ct("application/toml"), body).unwrap_err();
    assert_eq!(err.status, 400);
    assert!(err.message.contains("invalid TOML"), "got {}", err.message);
}

#[test]
fn parse_app_spec_rejects_invalid_json_with_400() {
    let body = b"{this is not json}";
    let err = parse(&Headers::new(), body).unwrap_err();
    assert_eq!(err.status, 400);
    assert!(err.message.contains("invalid JSON"), "got {}", err.message);
}

#[test]
fn parse_app_spec_rejects_non_utf8_toml_body() {
    let body: &[u8] = &[0xff, 0xfe];
    let err = parse(&ct("application/toml"), body).unwrap_err();
    assert_eq!(err.status, 400);
    assert!(err.message.contains("UTF-8"), "got {}", err.message);
}

#[test]
fn body_format_is_read_loosely() {
    assert_eq!(body_format(&ct(" Application/TOML ;x=y")), BodyFormat::Toml);
    assert_eq!(body_format(&ct("TEXT/TOML")), BodyFormat::Toml);
    assert_eq!(body_format(&ct("text/tom")), BodyFormat::Json);
    assert_eq!(body_format(&ct("")), BodyFormat::Json);
}

#[test]
fn answers_of_the_handlers() {
    let e = app_not_found("ghost");
    assert_eq!((e.status, e.message.as_str()), (404, "app 'ghost' not found"));
    let e = rate_limited("full");
    assert_eq!((e.status, e.message.as_str()), (429, "rate limit exceeded: full"));
    let e = unread_body("cut");
    assert_eq!((e.status, e.message.as_str()), (400, "read body: cut"));
}

#[test]
fn deploy_keys_are_issued_for_known_apps_only() {
    let s = fresh_secret();
    let token = issue_deploy_key(&s, "alpha", Some("repo")).unwrap();
    assert!(s.verify(&token, "alpha", "repo"));
    assert_eq!(issue_deploy_key(&s, "alpha", None).unwrap_err().status, 404);
}
