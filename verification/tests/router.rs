use bugpot::config::duration::Span;
use bugpot::egress::addr::{parse_ipv4, IpAddr, SocketAddr};
use bugpot::egress::net::IpNet;
use bugpot::router::config::RouterConfig;
use bugpot::router::forward::{
    app_label, finish_forward, finish_upgrade, prepare_forward, refuse_upgrade, resolve_failure,
    rewrite_uri, ForwardResult, ForwardStep, ResolveError, SendOutcome, UpgradeOutcome,
    UpgradeResult,
};
use bugpot::router::headers::{
    host_of, inject_forwarded_headers, is_upgrade_request, rewrite_forwarded_for,
    strip_hop_by_hop_headers, value_of_text, Headers, CONNECTION, UPGRADE, X_FORWARDED_FOR,
    X_FORWARDED_HOST, X_FORWARDED_PROTO,
};
use bugpot::router::host::subdomain_of;
use bugpot::router::splice::{watch_interval, Side, Splice, SpliceAction, SpliceEvent};

fn v4(s: &str) -> IpAddr {
    IpAddr::V4(parse_ipv4(s).unwrap())
}

fn headers(lines: &[(&str, &str)]) -> Headers {
    let mut h = Headers::new();
    for (name, value) in lines {
        h.append_line(name.to_string(), value.as_bytes().to_vec());
    }
    h
}

fn text<'a>(h: &'a Headers, name: &str) -> Option<&'a str> {
    h.get(name).map(|v| std::str::from_utf8(v).unwrap())
}

#[test]
fn lib_subdomain_of_extracts_first_label() {
    assert_eq!(subdomain_of("alpha.bugpot.example"), Some("alpha"));
    assert_eq!(subdomain_of("alpha.bugpot.example:443"), Some("alpha"));
    assert_eq!(subdomain_of("beta.bugpot.example"), Some("beta"));
    assert_eq!(subdomain_of("beta.bugpot.example:443"), Some("beta"));
    assert_eq!(subdomain_of("alpha:8080"), Some("alpha"));
    assert_eq!(subdomain_of("alpha"), Some("alpha"));
}

#[test]
fn lib_subdomain_of_empty_returns_empty_label() {
    assert_eq!(subdomain_of(""), Some(""));
}

#[test]
fn lib_subdomain_of_rejects_ipv6_literal() {
    assert_eq!(subdomain_of("[::1]:8080"), None);
    assert_eq!(subdomain_of("[::1]"), None);
    assert_eq!(subdomain_of("[2001:db8::1]:443"), None);
    assert_eq!(subdomain_of("alpha.bugpot.example:443"), Some("alpha"));
}

#[test]
fn detects_upgrade_request() {
    let h = headers(&[(UPGRADE, "websocket"), (CONNECTION, "Upgrade")]);
    assert!(is_upgrade_request(&h));

    let h2 = headers(&[(UPGRADE, "websocket"), (CONNECTION, "keep-alive, Upgrade")]);
    assert!(is_upgrade_request(&h2));

    let h3 = headers(&[(CONNECTION, "keep-alive")]);
    assert!(!is_upgrade_request(&h3));
}

#[test]
fn appends_forwarded_for_with_empty_trust_list() {
    let mut h = Headers::new();
    rewrite_forwarded_for(&mut h, v4("10.0.0.1"), &vec![]);
    assert_eq!(text(&h, X_FORWARDED_FOR), Some("10.0.0.1"));
    rewrite_forwarded_for(&mut h, v4("10.0.0.2"), &vec![]);
    assert_eq!(text(&h, X_FORWARDED_FOR), Some("10.0.0.1, 10.0.0.2"));
}

#[test]
fn rewrites_uri_keeping_path_and_query() {
    let upstream = SocketAddr { ip: v4("172.20.0.5"), port: 8123 };
    let target = rewrite_uri(Some("/foo/bar?x=1"), upstream);
    assert_eq!(target.scheme, "http");
    assert_eq!(target.authority, "172.20.0.5:8123");
    assert_eq!(target.path_and_query, "/foo/bar?x=1");
    assert_eq!(rewrite_uri(None, upstream).path_and_query, "/");
}

#[test]
fn a_request_for_the_server_as_a_whole_keeps_its_target() {
    let upstream = SocketAddr { ip: v4("172.20.0.5"), port: 8123 };
    let target = rewrite_uri(Some("*"), upstream);
    assert_eq!(target.authority, "172.20.0.5:8123");
    assert_eq!(target.path_and_query, "*");
}

#[test]
fn strip_hop_by_hop_removes_static_set() {
    let mut h = headers(&[
        (CONNECTION, "close"),
        ("keep-alive", "timeout=5"),
        ("transfer-encoding", "chunked"),
        ("x-bugpot-app", "alpha"),
    ]);
    strip_hop_by_hop_headers(&mut h);
    assert!(!h.contains_key(CONNECTION));
    assert!(!h.contains_key("keep-alive"));
    assert!(!h.contains_key("transfer-encoding"));
    assert!(h.contains_key("x-bugpot-app"));
}

#[test]
fn strip_hop_by_hop_removes_connection_extras() {
    let mut h = headers(&[
        (CONNECTION, "close, x-internal-token"),
        ("x-internal-token", "secret"),
        ("x-bugpot-app", "alpha"),
    ]);
    strip_hop_by_hop_headers(&mut h);
    assert!(!h.contains_key("x-internal-token"));
    assert!(h.contains_key("x-bugpot-app"));
}

#[test]
fn xff_appends_when_trusted_or_empty() {
    let mut h = headers(&[(X_FORWARDED_FOR, "1.2.3.4")]);
    rewrite_forwarded_for(&mut h, v4("5.6.7.8"), &vec![]);
    assert_eq!(text(&h, X_FORWARDED_FOR), Some("1.2.3.4, 5.6.7.8"));

    let mut h = headers(&[(X_FORWARDED_FOR, "1.2.3.4")]);
    let trusted = vec![IpNet::parse("5.6.7.0/24").unwrap()];
    rewrite_forwarded_for(&mut h, v4("5.6.7.8"), &trusted);
    assert_eq!(text(&h, X_FORWARDED_FOR), Some("1.2.3.4, 5.6.7.8"));
}

#[test]
fn xff_resets_when_peer_not_trusted() {
    let mut h = headers(&[(X_FORWARDED_FOR, "evil-spoof")]);
    let trusted = vec![IpNet::parse("10.0.0.0/8").unwrap()];
    rewrite_forwarded_for(&mut h, v4("5.6.7.8"), &trusted);
    assert_eq!(text(&h, X_FORWARDED_FOR), Some("5.6.7.8"));
}

#[test]
fn headers_keep_their_lines() {
    let mut h = headers(&[("a", "1"), ("b", "2"), ("a", "3")]);
    assert_eq!(text(&h, "a"), Some("1"));
    h.insert("b", b"4".to_vec());
    assert_eq!(text(&h, "b"), Some("4"));
    h.remove("a");
    assert!(!h.contains_key("a"));
    assert_eq!(value_of_text("ok\t"), Some(b"ok\t".to_vec()));
    assert_eq!(value_of_text("no\n"), None);
}

#[test]
fn letters_of_names_may_be_large_or_small() {
    let mut h = headers(&[("X-Alpha", "1"), ("x-alpha", "2"), ("Upgrade", "websocket")]);
    h.append_line("CONNECTION".to_owned(), b"Upgrade".to_vec());
    assert!(is_upgrade_request(&h));
    assert_eq!(text(&h, "X-ALPHA"), Some("1"));
    assert!(h.contains_key("x-Alpha"));
    h.insert("X-aLPHA", b"3".to_vec());
    assert_eq!(text(&h, "x-alpha"), Some("3"));
    let names: Vec<&str> = h.all().iter().map(|(n, _)| n.as_str()).collect();
    assert_eq!(names, vec!["upgrade", "connection", "x-alpha"]);
    h.remove("X-Alpha");
    assert!(!h.contains_key("x-alpha"));
    strip_hop_by_hop_headers(&mut h);
    assert!(h.all().is_empty());
}

#[test]
fn requests_name_their_host() {
    assert_eq!(host_of(&headers(&[("Host", "alpha.example:80"), ("host", "b")])), "alpha.example:80");
    assert_eq!(host_of(&Headers::new()), "");
    let mut h = Headers::new();
    h.insert("host", vec![0xff]);
    assert_eq!(host_of(&h), "");
}

#[test]
fn neither_port_nor_parent_domain_matters() {
    for host in ["alpha", "alpha.a.example", "alpha.b.example:443", "alpha:80:80", "alpha.:1.2"] {
        assert_eq!(subdomain_of(host), Some("alpha"), "{host}");
    }
}

#[test]
fn origin_is_told_to_the_app() {
    let config = RouterConfig::defaults();
    let mut h = Headers::new();
    inject_forwarded_headers(&mut h, Some(v4("1.2.3.4")), "alpha.example", &config);
    assert_eq!(text(&h, X_FORWARDED_FOR), Some("1.2.3.4"));
    assert_eq!(text(&h, X_FORWARDED_HOST), Some("alpha.example"));
    assert_eq!(text(&h, X_FORWARDED_PROTO), Some("http"));
    let mut h = headers(&[(X_FORWARDED_PROTO, "https")]);
    inject_forwarded_headers(&mut h, None, "alpha.example", &config);
    assert_eq!(text(&h, X_FORWARDED_PROTO), Some("https"));
    assert!(!h.contains_key(X_FORWARDED_FOR));
}

#[test]
fn requests_are_made_ready_to_pass_on() {
    let config = RouterConfig::defaults();
    let mut h = headers(&[(CONNECTION, "close"), ("x-a", "1")]);
    let step = prepare_forward(&mut h, true, Some(v4("1.2.3.4")), "alpha.example", &config);
    assert!(matches!(step, ForwardStep::Plain));
    assert!(!h.contains_key(CONNECTION));
    assert!(h.contains_key("x-a"));

    let mut h = headers(&[(CONNECTION, "Upgrade"), (UPGRADE, "websocket")]);
    let step = prepare_forward(&mut h, true, None, "alpha.example", &config);
    assert!(matches!(step, ForwardStep::Upgrade));
    assert!(h.contains_key(UPGRADE));

    let mut h = Headers::new();
    match prepare_forward(&mut h, false, None, "alpha.example", &config) {
        ForwardStep::Reply(e) => {
            assert_eq!((e.status, e.body.as_str()), (502, "upstream URI rewrite failed\n"))
        }
        other => panic!("{other:?}"),
    }
}

#[test]
fn unknown_hosts_are_answered_404() {
    let e = resolve_failure("ghost.example", &ResolveError::NoSuchApp);
    assert_eq!(e.status, 404);
    assert_eq!(e.body, "no app matched host 'ghost.example'\n");
}

#[test]
fn unreachable_upstreams_are_answered_502() {
    match finish_forward(SendOutcome::Failed) {
        ForwardResult::Reply(e) => {
            assert_eq!((e.status, e.body.as_str()), (502, "upstream connection failed\n"))
        }
        other => panic!("{other:?}"),
    }
}

#[test]
fn failures_of_an_app_are_told_apart() {
    let e = resolve_failure("a.example", &ResolveError::Unhealthy("boom".to_owned()));
    assert_eq!(
        (e.status, e.body.as_str()),
        (502, "upstream for 'a.example' failed to come up\n")
    );
    assert_eq!(ResolveError::NoSuchApp.message(), "no app registered for this host");
    assert_eq!(
        ResolveError::Unhealthy("boom".to_owned()).message(),
        "upstream is registered but failed to come up: boom"
    );
    match finish_forward(SendOutcome::TimedOut) {
        ForwardResult::Reply(e) => assert_eq!(e.status, 504),
        other => panic!("{other:?}"),
    }
    match finish_forward(SendOutcome::Response(headers(&[(CONNECTION, "close"), ("x", "y")]))) {
        ForwardResult::Pass(h) => assert!(!h.contains_key(CONNECTION) && h.contains_key("x")),
        other => panic!("{other:?}"),
    }
    assert_eq!(app_label("alpha.example"), "alpha");
    assert_eq!(app_label("[::1]"), "unknown");
}

#[test]
fn upgrades_are_spliced_only_when_both_agree() {
    assert!(refuse_upgrade(true).is_none());
    assert_eq!(refuse_upgrade(false).unwrap().status, 503);
    let response = |status: u16| UpgradeOutcome::Response {
        status,
        headers: headers(&[(CONNECTION, "Upgrade"), (UPGRADE, "websocket")]),
    };
    match finish_upgrade(response(101)) {
        UpgradeResult::Splice(h) => assert!(h.contains_key(UPGRADE)),
        other => panic!("{other:?}"),
    }
    match finish_upgrade(response(200)) {
        UpgradeResult::Pass(h) => assert!(!h.contains_key(UPGRADE)),
        other => panic!("{other:?}"),
    }
    assert!(matches!(finish_upgrade(UpgradeOutcome::Failed), UpgradeResult::Reply(e) if e.status == 502));
    assert!(matches!(finish_upgrade(UpgradeOutcome::TimedOut), UpgradeResult::Reply(e) if e.status == 504));
}

#[test]
fn splices_end_when_both_sides_have() {
    let s = |n: u64| Span::from_secs(n);
    let mut splice = Splice::start(s(300));
    assert_eq!(
        splice.step(SpliceEvent::Data { from: Side::Client, now: s(10) }),
        SpliceAction::Write(Side::Server)
    );
    assert_eq!(splice.step(SpliceEvent::Tick { now: s(309) }), SpliceAction::Wait);
    assert_eq!(
        splice.step(SpliceEvent::Eof { from: Side::Client }),
        SpliceAction::ShutDown(Side::Server)
    );
    assert!(!splice.is_done());
    assert_eq!(splice.step(SpliceEvent::Tick { now: s(310) }), SpliceAction::Close);
    assert_eq!(
        splice.step(SpliceEvent::Eof { from: Side::Server }),
        SpliceAction::ShutDown(Side::Client)
    );
    assert!(splice.is_done());
    assert_eq!(splice.step(SpliceEvent::Failed), SpliceAction::Abort);
    assert!(s(300).at_least(watch_interval(s(300))));
}
