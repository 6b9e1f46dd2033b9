use bugpot::config::auth::{registry_host, AuthConfig, RegistryCredential};
use bugpot::config::duration::{is_measurable, parse_span, Span};
use bugpot::config::path::{extension_of, file_stem_of, join_path};
use bugpot::config::spec::{
    AppSpec, EgressSpec, Readiness, Resources, Scaling, VolumeSpec, DEFAULT_CPU, DEFAULT_MEMORY,
};
use bugpot::config::validate::{
    validate_dns_label, validate_readiness_path, validate_repo, validate_volumes,
};

fn spec(repo: &str, port: u16, name: Option<&str>) -> AppSpec {
    AppSpec {
        repo: repo.to_owned(),
        port,
        name: name.map(str::to_owned),
        subdomain: None,
        egress: EgressSpec::default(),
        env: Vec::new(),
        scaling: Scaling::default(),
        readiness: Readiness::default(),
        resources: Resources::default(),
        volumes: Vec::new(),
        source_path: String::new(),
    }
}

fn volume(name: &str, path: &str, user: Option<u32>) -> VolumeSpec {
    VolumeSpec { name: name.to_owned(), path: path.to_owned(), user }
}

#[test]
fn validate_dns_label_accepts_typical_names() {
    for s in ["alpha", "beta", "dev-alpha", "app-1", "x", &"a".repeat(63)] {
        assert!(validate_dns_label("name", s).is_ok(), "should accept: {s:?}");
    }
}

#[test]
fn validate_dns_label_rejects_path_traversal_and_meta() {
    for s in [
        "",
        "../foo",
        "foo/bar",
        "foo bar",
        "foo.bar",
        "Foo",
        "foo_bar",
        "-foo",
        "foo-",
        &"a".repeat(64),
        "foo\0bar",
        "foo;bar",
        "foo$bar",
    ] {
        assert!(validate_dns_label("name", s).is_err(), "should reject: {s:?}");
    }
}

#[test]
fn label_faults_say_what_is_wrong() {
    let e = validate_dns_label("name", "Foo").unwrap_err();
    assert_eq!(e.field, "name");
    assert_eq!(e.value, "Foo");
    assert!(e.message().starts_with("invalid name: "), "{}", e.message());
    assert!(e.message().ends_with("(value=\"Foo\")"), "{}", e.message());
}

#[test]
fn appspec_validate_catches_path_traversal_via_name() {
    let err = spec("x", 8080, Some("../../etc/cron.d/evil"))
        .validate()
        .expect_err("path traversal name must be rejected");
    assert_eq!(err.field, "name");
}

#[test]
fn appspec_validate_rejects_unresolvable_name() {
    let err = spec("x", 8080, None).validate().expect_err("unresolvable name must be rejected");
    assert_eq!(err.field, "name");
}

#[test]
fn appspec_validate_catches_bad_subdomain() {
    let mut s = spec("x", 8080, Some("ok"));
    s.subdomain = Some("Bad-Subdomain".to_owned());
    let err = s.validate().expect_err("uppercase subdomain must be rejected");
    assert_eq!(err.field, "subdomain");
}

#[test]
fn appspec_validate_rejects_repo_with_tag() {
    let err = spec("ghcr.io/owner/repo:v1", 8080, Some("ok"))
        .validate()
        .expect_err("tag in repo must be rejected");
    assert_eq!(err.field, "repo");
}

#[test]
fn appspec_validate_rejects_repo_with_digest() {
    let err = spec("ghcr.io/owner/repo@sha256:abc", 8080, Some("ok"))
        .validate()
        .expect_err("digest in repo must be rejected");
    assert_eq!(err.field, "repo");
}

#[test]
fn appspec_validate_accepts_registry_port() {
    spec("localhost:5000/foo", 8080, Some("ok"))
        .validate()
        .expect("registry port (host-component colon) must be allowed");
}

#[test]
fn repo_rules_stand_alone() {
    assert!(validate_repo("ghcr.io/owner/app").is_ok());
    assert!(validate_repo("").is_err());
    assert!(validate_repo("a:b").is_err());
    assert!(validate_repo("a@b").is_err());
}

#[test]
fn plain_spans_count_their_unit() {
    for (n, text) in [(0, "0"), (1, "1"), (45, "45"), (100, "100"), (1_000_000, "1000000")] {
        for (unit, secs) in [('s', 1), ('m', 60), ('h', 3_600), ('d', 86_400)] {
            assert_eq!(parse_span(&format!("{text}{unit}")).unwrap(), Span::from_secs(n * secs));
        }
    }
    let most = u64::MAX.to_string();
    assert_eq!(parse_span(&format!("{most}s")).unwrap(), Span::from_secs(u64::MAX));
    assert!(parse_span(&format!("{most}h")).is_err());
    assert!(parse_span("5x").is_err());
}

#[test]
fn scaling_default_idle_timeout_is_five_minutes() {
    let s = Scaling::default();
    assert_eq!(s.resolve_idle_timeout().unwrap(), Some(Span::from_secs(5 * 60)));
}

#[test]
fn scaling_zero_is_always_on() {
    let s = Scaling { idle_timeout: Some("0".into()) };
    assert_eq!(s.resolve_idle_timeout().unwrap(), None);
}

#[test]
fn scaling_units() {
    for (raw, want_secs) in
        [("30s", 30), ("5m", 300), ("2h", 7200), ("1m 30s", 90), ("2d", 2 * 86_400)]
    {
        let s = Scaling { idle_timeout: Some(raw.into()) };
        assert_eq!(
            s.resolve_idle_timeout().unwrap(),
            Some(Span::from_secs(want_secs)),
            "case {raw}"
        );
    }
}

#[test]
fn scaling_empty_string_means_always_on() {
    let s = Scaling { idle_timeout: Some(String::new()) };
    assert!(s.resolve_idle_timeout().unwrap().is_none());
}

#[test]
fn scaling_rejects_garbage() {
    for raw in ["abc", "5", "5xyz"] {
        let s = Scaling { idle_timeout: Some(raw.into()) };
        assert!(s.resolve_idle_timeout().is_err(), "should reject: {raw}");
    }
}

#[test]
fn scaling_errors_name_the_field() {
    let s = Scaling { idle_timeout: Some("abc".into()) };
    let e = s.resolve_idle_timeout().unwrap_err();
    assert!(e.starts_with("scaling.idle_timeout: "), "{e}");
}

#[test]
fn spans_keep_their_fractions() {
    assert_eq!(parse_span("10ms").unwrap(), Span { secs: 0, nanos: 10_000_000 });
    assert_eq!(parse_span("1s 5us").unwrap(), Span { secs: 1, nanos: 5_000 });
    assert_eq!(Span { secs: 1, nanos: 5 }.as_nanos(), 1_000_000_005);
    assert!(Span::from_secs(2).at_least(Span { secs: 1, nanos: 999_999_999 }));
    assert!(!Span::from_secs(1).at_least(Span { secs: 1, nanos: 1 }));
}

#[test]
fn spans_show_as_durations_do() {
    assert_eq!(Span::from_secs(10).show(), "10s");
    assert_eq!(Span { secs: 0, nanos: 100_000_000 }.show(), "100ms");
    assert_eq!(Span { secs: 1, nanos: 500_000_000 }.show(), "1.5s");
}

#[test]
fn spans_are_measurable_up_to_the_last_second() {
    for text in [
        "5m 30s",
        "18446744073709551615s",
        "18446744073709551615s 999999999ns",
        "18446744073709551614s 1999ms",
        "18446744073709551615.5s",
        "18446744073709551615seconds",
        "600000000000min",
        "584542046090.5years",
        "1000000000000000ms",
        "30min 10msec",
        "99999999999999999999y",
    ] {
        assert!(is_measurable(text), "{text}");
    }
    for text in [
        "18446744073709551615s 1000ms",
        "18446744073709551615s 999999999ns 1ns",
        "18446744073709551615.5s 0.5s",
        "584542046091years",
    ] {
        assert!(!is_measurable(text), "{text}");
    }
}

#[test]
fn long_spans_are_read_or_refused() {
    assert_eq!(parse_span("1000000000000ms"), Ok(Span::from_secs(1_000_000_000)));
    assert_eq!(
        parse_span("18446744073709551615s 999999999ns"),
        Ok(Span { secs: u64::MAX, nanos: 999_999_999 })
    );
    assert_eq!(
        parse_span("18446744073709551615.5s"),
        Ok(Span { secs: u64::MAX, nanos: 500_000_000 })
    );
    assert_eq!(parse_span("600000000000min"), Ok(Span::from_secs(36_000_000_000_000)));
    assert!(parse_span("99999999999999999999s").is_err());
    let too_long = parse_span("18446744073709551615s 1s").unwrap_err();
    assert_eq!(parse_span("18446744073709551615s 1000ms"), Err(too_long.clone()));
    assert_eq!(parse_span("1000000000000000ms"), Err(too_long));
    let s = Scaling { idle_timeout: Some("18446744073709551615s 1000ms".into()) };
    assert!(s.resolve_idle_timeout().unwrap_err().starts_with("scaling.idle_timeout: "));
}

/// Spans are read as the crate behind them reads them, and refused with the same
/// words, up to the largest one and beyond.
#[test]
fn spans_read_as_the_crate_behind_them_does() {
    let long = [
        "", "1s", "18446744073709551614s", "18446744073709551615s", "18446744073709551616s",
        "18446744073709551615.5s", "307445734561825860min", "307445734561825860.25minutes",
        "5124095576030431h", "5124095576030431.5hours", "213503982334601d", "213503982334601.5d",
        "30500568904943weeks", "30500568904943.9wks", "7014020000000M", "584542046090y",
        "584542046090.5years", "584542046090.7yr", "584542046091years",
        "99999999999999999999999999999y", "1000000000000000ms", "18446744073709551615ns",
        "18446744073709551615\u{b5}s", "18446744073709551615 s", "1844674407370955161 5s",
    ];
    let rest = [
        "", "999999999ns", "1001ms", "0.25s", "0.25years", "59.999m", "30s", "5xyz", "1.", "1..5s",
        "1.5.5s", "7", "x", ".5s", "1.00000000000000000001s", "0.0000000001s", "1.5ns", "2s!",
        "\u{e9}", "1 . 5 h", "3.1 4s", "s", "99999999999999999999s", "1\u{a0}d", "4us", "2millis",
    ];
    for a in long {
        for between in ["", " ", "  "] {
            for b in rest {
                let text = format!("{a}{between}{b}");
                let want = humantime::parse_duration(&text)
                    .map(|d| Span { secs: d.as_secs(), nanos: d.subsec_nanos() })
                    .map_err(|e| e.to_string());
                assert_eq!(parse_span(&text), want, "{text}");
            }
        }
    }
    assert!(parse_span("584542046090.5years").is_ok());
}

#[test]
fn a_number_without_a_unit_is_refused() {
    for text in ["5", "00", "300"] {
        let s = Scaling { idle_timeout: Some(text.into()) };
        assert!(s.resolve_idle_timeout().is_err(), "{text}");
        let r = Readiness { timeout: Some(text.into()), path: None };
        let e = r.resolve_timeout(Span::from_secs(7)).unwrap_err();
        assert!(e.starts_with("readiness.timeout: "), "{e}");
    }
    let s = Scaling { idle_timeout: Some(" 0 ".into()) };
    assert_eq!(s.resolve_idle_timeout(), Ok(None));
}

#[test]
fn readiness_default_returns_supplied_fallback() {
    let r = Readiness::default();
    let got = r.resolve_timeout(Span::from_secs(7)).unwrap();
    assert_eq!(got, Span::from_secs(7));
}

#[test]
fn readiness_explicit_value_overrides_default() {
    let r = Readiness { timeout: Some("30s".into()), path: None };
    let got = r.resolve_timeout(Span::from_secs(7)).unwrap();
    assert_eq!(got, Span::from_secs(30));
}

#[test]
fn readiness_empty_string_uses_default() {
    let r = Readiness { timeout: Some(String::new()), path: None };
    let got = r.resolve_timeout(Span::from_secs(7)).unwrap();
    assert_eq!(got, Span::from_secs(7));
}

#[test]
fn readiness_rejects_garbage() {
    let r = Readiness { timeout: Some("not-a-duration".into()), path: None };
    assert!(r.resolve_timeout(Span::from_secs(7)).is_err());
}

#[test]
fn name_defaults_to_filename_stem() {
    let mut s = spec("x", 80, None);
    s.source_path = "/tmp/apps/some-app.toml".to_owned();
    assert_eq!(s.name(), "some-app");
    assert_eq!(s.subdomain(), "some-app");
}

#[test]
fn name_without_any_source_is_unknown() {
    assert_eq!(spec("x", 80, None).name(), "unknown");
}

#[test]
fn identity_of_a_valid_spec() {
    let mut s = spec("x", 80, Some("alpha"));
    s.subdomain = Some("www".to_owned());
    let id = s.identity().unwrap();
    assert_eq!(id.name(), "alpha");
    assert_eq!(id.subdomain(), "www");
    assert!(spec("x", 80, Some("Alpha")).identity().is_err());
}

#[test]
fn registry_host_extracts_hostname() {
    assert_eq!(registry_host("ghcr.io/owner/repo:tag"), "ghcr.io");
    assert_eq!(registry_host("registry.gitlab.com/group/project:1.0"), "registry.gitlab.com");
    assert_eq!(registry_host("localhost:5000/foo:bar"), "localhost:5000");
    assert_eq!(registry_host("library/alpine:latest"), "docker.io");
    assert_eq!(registry_host("alpine:latest"), "docker.io");
}

#[test]
fn registry_host_takes_plain_localhost() {
    assert_eq!(registry_host("localhost/foo"), "localhost");
}

#[test]
fn auth_debug_redacts_secrets() {
    let bearer = RegistryCredential::Bearer { token: "supersecret-xyz".to_string() };
    let basic = RegistryCredential::Basic {
        username: "alice".to_string(),
        password: "p4ssw0rd!".to_string(),
    };
    let bearer_dbg = bearer.debug_text();
    let basic_dbg = basic.debug_text();
    assert!(!bearer_dbg.contains("supersecret-xyz"), "got: {bearer_dbg}");
    assert!(!basic_dbg.contains("p4ssw0rd!"), "got: {basic_dbg}");
    assert!(basic_dbg.contains("alice"), "got: {basic_dbg}");
}

#[test]
fn auth_shows_only_how_many_registries() {
    let mut auth = AuthConfig::default();
    assert_eq!(auth.debug_text(), "AuthConfig { registries: 0 }");
    auth.registries
        .insert("ghcr.io".to_owned(), RegistryCredential::Bearer { token: "t".to_owned() });
    assert_eq!(auth.debug_text(), "AuthConfig { registries: 1 }");
    let basic =
        RegistryCredential::Basic { username: "a\"b".to_owned(), password: "x".to_owned() };
    assert_eq!(basic.debug_text(), "Basic { username: \"a\\\"b\", password: \"<redacted>\" }");
}

#[test]
fn volumes_parse_and_validate() {
    let mut s = spec("ghcr.io/org/app", 80, Some("alpha"));
    s.volumes = vec![volume("data", "/data", Some(33)), volume("cache", "/var/cache/app", None)];
    s.validate().expect("validate");
    assert_eq!(s.volumes.len(), 2);
    assert_eq!(s.volumes[0].name, "data");
    assert_eq!(s.volumes[0].user, Some(33));
    assert!(s.volumes[1].user.is_none());
}

#[test]
fn volumes_reject_relative_paths() {
    let mut s = spec("x", 80, Some("alpha"));
    s.volumes = vec![volume("data", "data", None)];
    let err = s.validate().expect_err("relative path must fail");
    assert_eq!(err.field, "volumes.path");
}

#[test]
fn volumes_reject_reserved_mount_paths() {
    let mut s = spec("x", 80, Some("alpha"));
    s.volumes = vec![volume("p", "/proc", None)];
    let err = s.validate().expect_err("reserved path must fail");
    assert_eq!(err.field, "volumes.path");
}

#[test]
fn volumes_reject_duplicate_names() {
    let mut s = spec("x", 80, Some("alpha"));
    s.volumes = vec![volume("data", "/a", None), volume("data", "/b", None)];
    let err = s.validate().expect_err("dup name must fail");
    assert_eq!(err.field, "volumes.name");
}

#[test]
fn volumes_reject_duplicate_paths() {
    let mut s = spec("x", 80, Some("alpha"));
    s.volumes = vec![volume("a", "/data", None), volume("b", "/data", None)];
    let err = s.validate().expect_err("dup path must fail");
    assert_eq!(err.field, "volumes.path");
}

#[test]
fn volumes_reject_paths_that_go_up() {
    let err = validate_volumes(&vec![volume("a", "/data/../etc", None)]).unwrap_err();
    assert_eq!(err.field, "volumes.path");
    let err = validate_volumes(&vec![volume("A", "/data", None)]).unwrap_err();
    assert_eq!(err.field, "volumes.name");
}

#[test]
fn readiness_path_parses() {
    let mut s = spec("x", 80, Some("alpha"));
    s.readiness.path = Some("/health".into());
    s.readiness.timeout = Some("30s".into());
    s.validate().expect("validate");
    assert_eq!(s.readiness.path.as_deref(), Some("/health"));
}

#[test]
fn readiness_path_rejects_relative() {
    let mut s = spec("x", 80, Some("alpha"));
    s.readiness.path = Some("health".into());
    let err = s.validate().expect_err("relative must fail");
    assert_eq!(err.field, "readiness.path");
}

#[test]
fn readiness_path_rejects_traversal() {
    let mut s = spec("x", 80, Some("alpha"));
    s.readiness.path = Some("/foo/../etc/passwd".into());
    let err = s.validate().expect_err("traversal must fail");
    assert_eq!(err.field, "readiness.path");
}

#[test]
fn readiness_path_rejects_query_string() {
    let mut s = spec("x", 80, Some("alpha"));
    s.readiness.path = Some("/health?token=x".into());
    let err = s.validate().expect_err("query string must fail");
    assert_eq!(err.field, "readiness.path");
}

#[test]
fn readiness_path_may_be_absent() {
    assert!(validate_readiness_path(None).is_ok());
    assert!(validate_readiness_path(Some("")).is_err());
}

#[test]
fn resources_have_defaults() {
    let r = Resources::default();
    assert!(r.is_empty());
    assert_eq!(r.effective_memory(), DEFAULT_MEMORY);
    assert_eq!(r.effective_cpu(), DEFAULT_CPU);
    let r = Resources { memory: Some("256MB".to_owned()), cpu: None };
    assert!(!r.is_empty());
    assert_eq!(r.effective_memory(), "256MB");
}

#[test]
fn empty_sections_are_told_from_filled_ones() {
    assert!(EgressSpec::default().is_empty());
    assert!(!EgressSpec { allow: vec!["a.com".to_owned()] }.is_empty());
    assert!(Scaling::default().is_empty());
    assert!(!Scaling { idle_timeout: Some("5m".to_owned()) }.is_empty());
    assert!(Readiness::default().is_empty());
    assert!(!Readiness { timeout: None, path: Some("/".to_owned()) }.is_empty());
}

#[test]
fn paths_split_and_join_as_the_host_does() {
    for p in [
        "/a/b.toml",
        "b.tar.gz",
        ".hidden",
        "/a/..",
        "/",
        "",
        "a/.",
        "noext",
        "x.",
        "./x.y",
        "..a.b",
    ] {
        let std_path = std::path::Path::new(p);
        assert_eq!(
            file_stem_of(p).as_deref(),
            std_path.file_stem().and_then(|s| s.to_str()),
            "stem of {p}"
        );
        assert_eq!(
            extension_of(p).as_deref(),
            std_path.extension().and_then(|s| s.to_str()),
            "extension of {p}"
        );
        for q in ["x", "/x", "", "y/z"] {
            assert_eq!(
                join_path(p, q),
                std_path.join(q).to_str().unwrap(),
                "join {p} and {q}"
            );
        }
    }
}
