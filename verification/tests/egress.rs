use bugpot::egress::addr::{parse_ipv4, show_ipv4, IpAddr, SocketAddr};
use bugpot::egress::allocator::IpAllocator;
use bugpot::egress::allowlist::{is_subdomain_of, normalise_name, Allowlist, Rule};
use bugpot::egress::config::{
    bridge_ip, parse_dns_upstream, subnet, EgressConfig, ALLOW_TTL_SECS, BRIDGE_NAME, DNS_PORT,
    NFT_TABLE,
};
use bugpot::egress::dns::{
    answer_query, decide, handle_request, AppEntry, AppRegistry, Decision, DnsAnswer, DnsStep,
    Query, Question, ReplyCode,
};
use bugpot::egress::endpoints::{AllocatedApp, EndpointStore};
use bugpot::egress::net::{IpNet, Ipv4Net};
use bugpot::egress::netns::{
    parse_app_namespaces, parse_inet_addr, render_attach_endpoint, render_detach_endpoint,
    render_setup_bridge, short_name, EndpointPlan,
};
use bugpot::egress::nft::{
    decode_allow_set, render_add_allow, render_bootstrap, render_flush_src, NftConfig,
};
use bugpot::egress::state::{discover_endpoints, Egress, StartupClaims};

fn ip(s: &str) -> u32 {
    parse_ipv4(s).unwrap()
}

fn net(s: &str) -> Ipv4Net {
    Ipv4Net::parse(s).unwrap()
}

fn allow(entries: &[&str]) -> Result<Allowlist, String> {
    Allowlist::parse(&entries.iter().map(|s| s.to_string()).collect())
}

fn fixture() -> IpAllocator {
    IpAllocator::new(net("172.20.0.0/24"), ip("172.20.0.1")).unwrap()
}

// ---- addresses -------------------------------------------------------------

#[test]
fn addresses_read_back() {
    for s in ["0.0.0.0", "1.2.3.4", "10.0.0.255", "255.255.255.255"] {
        assert_eq!(show_ipv4(ip(s)), s);
    }
    for s in ["", "1.2.3", "1.2.3.4.5", "256.0.0.1", "01.2.3.4", "1..2.3", "a.b.c.d", " 1.2.3.4"] {
        assert_eq!(parse_ipv4(s), None, "{s}");
    }
}

#[test]
fn addresses_of_both_versions_show() {
    assert_eq!(IpAddr::V4(ip("1.2.3.4")).show(), "1.2.3.4");
    assert_eq!(IpAddr::V6(1).show(), "::1");
    assert_eq!(
        SocketAddr { ip: IpAddr::V4(ip("1.2.3.4")), port: 80 }.show(),
        "1.2.3.4:80"
    );
    assert_eq!(SocketAddr { ip: IpAddr::V6(1), port: 443 }.show(), "[::1]:443");
}

#[test]
fn networks_read_back_from_their_notation() {
    for text in ["0.0.0.0/0", "10.0.0.0/8", "172.20.0.7/24", "255.255.255.255/32"] {
        let n = net(text);
        assert_eq!(n.show(), text);
        assert_eq!(IpNet::parse(text).unwrap(), IpNet::V4(n));
    }
}

#[test]
fn networks_are_read_strictly() {
    assert_eq!(net("010.000.0.0/08"), net("10.0.0.0/8"));
    for text in [
        "", "10.0.0.0", "10.0.0.0/", "10.0.0.0/33", "10.0.0.0/008", "10.0.0/8", "10.0.0.0.0/8",
        "256.0.0.0/8", "0010.0.0.0/8", "10.0.0.0/8 ", "+1.0.0.0/8", "a.0.0.0/8", "1..0.0/8",
        "10.0.0.0/8/8", "10.0.0.0/\u{663}",
    ] {
        assert_eq!(Ipv4Net::parse(text).unwrap_err(), "invalid IP address syntax", "{text:?}");
        assert_eq!(IpNet::parse(text).unwrap_err(), "invalid IP address syntax", "{text:?}");
    }
    assert_eq!(IpNet::parse("fd00::/8").unwrap(), IpNet::V6 { addr: 0xfd << 120, prefix: 8 });
    assert!(Ipv4Net::parse("fd00::/8").is_err());
    assert!(IpNet::parse("fd00::/129").is_err());
}

#[test]
fn networks_read_and_contain() {
    let n = net("10.1.0.0/16");
    assert_eq!(n.show(), "10.1.0.0/16");
    assert!(n.contains(ip("10.1.255.255")));
    assert!(!n.contains(ip("10.2.0.0")));
    assert_eq!(net("10.0.0.0/30").host_range(), (ip("10.0.0.1"), ip("10.0.0.2")));
    assert!(Ipv4Net::parse("10.0.0.0/33").is_err());
    assert!(Ipv4Net::parse("10.0.0.0").is_err());
    let six = IpNet::parse("fd00::/8").unwrap();
    assert!(six.contains(IpAddr::V6(0xfd00_u128 << 112)));
    assert!(!six.contains(IpAddr::V6(1)));
    assert!(!six.contains(IpAddr::V4(ip("10.0.0.1"))));
    assert!(IpNet::parse("10.0.0.0/8").unwrap().contains(IpAddr::V4(ip("10.9.9.9"))));
}

// ---- allocator -------------------------------------------------------------

#[test]
fn skips_bridge_ip_and_returns_sequentially() {
    let mut a = fixture();
    let first = a.allocate().unwrap();
    let second = a.allocate().unwrap();
    assert_eq!(first, ip("172.20.0.2"));
    assert_eq!(second, ip("172.20.0.3"));
    assert_ne!(first, a.bridge_ip());
}

#[test]
fn release_makes_address_reusable() {
    let mut a = fixture();
    let addr = a.allocate().unwrap();
    assert!(a.is_allocated(addr));
    a.release(addr);
    assert!(!a.is_allocated(addr));
    assert_eq!(a.allocate().unwrap(), addr);
}

#[test]
fn exhaustion_errors() {
    let mut a = IpAllocator::new(net("10.0.0.0/30"), ip("10.0.0.1")).unwrap();
    let _ = a.allocate().unwrap();
    assert!(a.allocate().is_err());
}

#[test]
fn exhaustion_names_the_subnet() {
    let mut a = IpAllocator::new(net("10.0.0.0/30"), ip("10.0.0.1")).unwrap();
    a.mark_used(ip("10.0.0.2"));
    assert_eq!(a.allocate().unwrap_err(), "subnet 10.0.0.0/30 exhausted");
}

#[test]
fn rejects_bridge_outside_subnet() {
    assert!(IpAllocator::new(net("172.20.0.0/24"), ip("10.0.0.1")).is_err());
}

#[test]
fn is_allocated_classifies_special_addresses() {
    let mut a = fixture();
    assert!(!a.is_allocated(a.bridge_ip()));
    assert!(!a.is_allocated(ip("10.0.0.1")));
    assert!(!a.is_allocated(ip("172.20.0.2")));
    let addr = a.allocate().unwrap();
    assert!(a.is_allocated(addr));
}

#[test]
fn release_ignores_bridge_and_out_of_subnet() {
    let mut a = fixture();
    a.release(a.bridge_ip());
    a.release(ip("10.0.0.1"));
    let first = a.allocate().unwrap();
    assert_eq!(first, ip("172.20.0.2"));
}

#[test]
fn the_ends_of_the_subnet_are_never_handed_out() {
    let mut a = IpAllocator::new(net("10.0.0.0/30"), ip("10.0.0.1")).unwrap();
    a.release(ip("10.0.0.0"));
    a.release(ip("10.0.0.3"));
    assert_eq!(a.allocate().unwrap(), ip("10.0.0.2"));
    assert!(a.allocate().is_err());
}

#[test]
fn allocate_is_amortised_constant_at_subnet_scale() {
    let mut a = IpAllocator::new(net("10.0.0.0/22"), ip("10.0.0.1")).unwrap();
    let mut count = 0;
    while a.allocate().is_ok() {
        count += 1;
    }
    assert_eq!(count, 1021);
}

// ---- allowlist -------------------------------------------------------------

#[test]
fn parses_each_rule_form() {
    let al =
        allow(&["api.openai.com", "*.googleapis.com", "10.0.0.0/8", "192.168.1.1"]).unwrap();
    assert_eq!(al.rules().len(), 4);
    assert!(matches!(al.rules()[0], Rule::Domain(ref d) if d == "api.openai.com"));
    assert!(matches!(al.rules()[1], Rule::Wildcard(ref d) if d == "googleapis.com"));
    assert!(matches!(al.rules()[2], Rule::Cidr(_)));
    assert!(matches!(al.rules()[3], Rule::Cidr(n) if n.prefix == 32));
}

#[test]
fn matches_exact_and_subdomain() {
    let al = allow(&["example.com"]).unwrap();
    assert!(al.matches_domain("example.com"));
    assert!(al.matches_domain("api.example.com"));
    assert!(al.matches_domain("Api.Example.Com"));
    assert!(al.matches_domain("api.example.com."));
    assert!(!al.matches_domain("notexample.com"));
    assert!(!al.matches_domain("example.com.evil.io"));
}

#[test]
fn wildcard_is_strict_subdomain() {
    let al = allow(&["*.googleapis.com"]).unwrap();
    assert!(al.matches_domain("storage.googleapis.com"));
    assert!(al.matches_domain("a.b.googleapis.com"));
    assert!(!al.matches_domain("googleapis.com"));
    assert!(!al.matches_domain("evil-googleapis.com"));
}

#[test]
fn cidr_matches_ip_only() {
    let al = allow(&["10.0.0.0/8", "1.2.3.4"]).unwrap();
    assert!(al.matches_ip(ip("10.1.2.3")));
    assert!(al.matches_ip(ip("1.2.3.4")));
    assert!(!al.matches_ip(ip("11.0.0.1")));
    assert!(!al.matches_domain("10.0.0.1"));
}

#[test]
fn empty_and_blank_entries_skipped() {
    let al = allow(&["", "  ", "api.openai.com"]).unwrap();
    assert_eq!(al.rules().len(), 1);
}

#[test]
fn rejects_garbage() {
    assert!(allow(&["not a domain!!"]).is_err());
    assert!(allow(&["1.2.3.4/99"]).is_err());
    assert!(allow(&["*."]).is_err());
}

#[test]
fn ip_only_allowlist_blocks_domains() {
    let al = allow(&["10.0.0.0/8"]).unwrap();
    assert!(!al.matches_domain("example.com"));
}

#[test]
fn names_are_compared_without_case_and_trailing_dots() {
    assert_eq!(normalise_name("Api.Example.COM."), "api.example.com");
    assert!(is_subdomain_of("b.c", "a.b.c"));
    assert!(!is_subdomain_of("b.c", "b.c"));
    assert!(!is_subdomain_of("b.c", "xb.c"));
}

// ---- name resolution -------------------------------------------------------

fn registry_with(app: &str, src: u32, entries: &[&str]) -> AppRegistry {
    let mut r = AppRegistry::new();
    r.insert(src, AppEntry { app_id: app.to_string(), allowlist: allow(entries).unwrap() });
    r
}

#[test]
fn decide_allow_deny_unknown() {
    let src = ip("172.20.0.10");
    let reg = registry_with("app1", src, &["api.openai.com"]);
    assert!(matches!(decide(&reg, src, "api.openai.com"), Decision::Allowed { .. }));
    assert!(matches!(decide(&reg, src, "evil.example.com"), Decision::Denied { .. }));
    assert!(matches!(
        decide(&reg, ip("172.20.0.99"), "api.openai.com"),
        Decision::UnknownSource
    ));
}

#[test]
fn update_and_remove() {
    let src = ip("172.20.0.10");
    let mut reg = registry_with("a", src, &["a.com"]);
    assert!(reg.update_allowlist(src, allow(&["b.com"]).unwrap()));
    let e = reg.lookup(src).unwrap();
    assert!(e.allowlist.matches_domain("b.com"));
    assert!(!e.allowlist.matches_domain("a.com"));
    assert_eq!(e.app_id, "a");

    assert!(!reg.update_allowlist(ip("9.9.9.9"), Allowlist::default()));

    assert!(reg.remove(src).is_some());
    assert!(reg.lookup(src).is_none());
}

fn query(src: Option<u32>, name: &str, asks_address: bool) -> Query {
    Query { src, question: Some(Question { name: name.to_owned(), asks_address }) }
}

fn code(step: DnsStep) -> Option<ReplyCode> {
    match step {
        DnsStep::Reply(c) => Some(c),
        DnsStep::Resolve { .. } => None,
    }
}

#[test]
fn upstream_invoked_only_on_allowed() {
    let src = ip("172.20.0.10");
    let reg = registry_with("app1", src, &["api.openai.com"]);
    match handle_request(&reg, &query(Some(src), "api.openai.com.", true)) {
        DnsStep::Resolve { src: s, name } => {
            assert_eq!(s, src);
            assert_eq!(name, "api.openai.com");
        }
        DnsStep::Reply(c) => panic!("refused with {c:?}"),
    }
    match answer_query(src, Some(vec![ip("1.2.3.4")]), 60) {
        DnsAnswer::Admit { pairs, answers, ttl } => {
            assert_eq!(pairs, vec![(src, ip("1.2.3.4"))]);
            assert_eq!(answers, vec![ip("1.2.3.4")]);
            assert_eq!(ttl, 60);
        }
        DnsAnswer::Reply(c) => panic!("refused with {c:?}"),
    }
    let denied = handle_request(&reg, &query(Some(src), "evil.example.com", true));
    assert_eq!(code(denied), Some(ReplyCode::NxDomain));
}

#[test]
fn queries_that_get_no_records() {
    let src = ip("172.20.0.10");
    let reg = registry_with("app1", src, &["a.com"]);
    assert_eq!(code(handle_request(&reg, &query(None, "a.com", true))), Some(ReplyCode::Refused));
    assert_eq!(
        code(handle_request(&reg, &Query { src: Some(src), question: None })),
        Some(ReplyCode::FormErr)
    );
    assert_eq!(
        code(handle_request(&reg, &query(Some(src), "a.com", false))),
        Some(ReplyCode::NxDomain)
    );
    assert_eq!(
        code(handle_request(&reg, &query(Some(src + 1), "a.com", true))),
        Some(ReplyCode::Refused)
    );
    assert!(matches!(answer_query(src, None, 60), DnsAnswer::Reply(ReplyCode::ServFail)));
}

// ---- settings --------------------------------------------------------------

fn read_socket(s: &str) -> Option<SocketAddr> {
    let (host, port) = s.rsplit_once(':')?;
    Some(SocketAddr { ip: IpAddr::V4(parse_ipv4(host)?), port: port.parse().ok()? })
}

#[test]
fn host_constants_are_consistent() {
    assert!(subnet().contains(bridge_ip()));
    assert_eq!(BRIDGE_NAME, "bugpot0");
    assert_eq!(NFT_TABLE, "bugpot");
    assert_eq!(DNS_PORT, 53);
    assert_eq!(ALLOW_TTL_SECS, 60);
}

#[test]
fn default_config_is_sane() {
    let c = EgressConfig::default();
    assert!(!c.dns_upstream.is_empty());
    c.validate().expect("default config validates");
}

#[test]
fn validate_rejects_empty_dns_upstream() {
    let c = EgressConfig { dns_upstream: vec![] };
    let err = c.validate().unwrap_err();
    assert!(err.contains("dns_upstream"), "got: {err}");
}

#[test]
fn parse_dns_upstream_single() {
    let v = parse_dns_upstream("1.1.1.1:53", read_socket).unwrap();
    assert_eq!(v, vec![SocketAddr { ip: IpAddr::V4(ip("1.1.1.1")), port: 53 }]);
}

#[test]
fn parse_dns_upstream_multi_with_whitespace() {
    let v = parse_dns_upstream("1.1.1.1:53, 8.8.8.8:53 , 9.9.9.9:53", read_socket).unwrap();
    assert_eq!(v.len(), 3);
}

#[test]
fn parse_dns_upstream_skips_empty_entries() {
    let v = parse_dns_upstream("1.1.1.1:53,,8.8.8.8:53", read_socket).unwrap();
    assert_eq!(v.len(), 2);
}

#[test]
fn parse_dns_upstream_rejects_garbage() {
    assert!(parse_dns_upstream("not-a-sockaddr", read_socket).is_err());
    assert_eq!(
        parse_dns_upstream("1.1.1.1", read_socket).unwrap_err(),
        "parse dns upstream entry \"1.1.1.1\""
    );
}

// ---- namespaces ------------------------------------------------------------

fn myapp() -> EndpointPlan {
    EndpointPlan::new("myapp", ip("172.20.0.10"), net("172.20.0.0/24"))
}

#[test]
fn bridge_setup_is_canonical() {
    let cmds = render_setup_bridge("bugpot0", ip("172.20.0.1"), net("172.20.0.0/24"));
    assert_eq!(cmds[0], vec!["ip", "link", "add", "bugpot0", "type", "bridge"]);
    assert_eq!(cmds[1], vec!["ip", "addr", "add", "172.20.0.1/24", "dev", "bugpot0"]);
    assert_eq!(cmds[2], vec!["ip", "link", "set", "bugpot0", "up"]);
}

#[test]
fn endpoint_plan_is_stable_per_name() {
    let p1 = myapp();
    let p2 = myapp();
    assert_eq!(p1.host_veth, p2.host_veth);
    assert_eq!(p1.ns_name, "bugpot-myapp");
    assert!(p1.host_veth.len() <= 15, "iface name must fit IFNAMSIZ");
}

#[test]
fn attach_commands_target_bridge_and_netns() {
    let plan = myapp();
    let cmds = render_attach_endpoint("bugpot0", &plan);
    assert_eq!(cmds[0][1], "netns");
    assert!(cmds.iter().any(|c| c.windows(2).any(|w| w == ["master", "bugpot0"])));
    assert!(cmds
        .iter()
        .any(|c| c.contains(&"172.20.0.10/24".to_string()) && c.iter().any(|s| s == "-n")));
    assert!(
        !cmds
            .iter()
            .any(|c| c.windows(2).any(|w| w == ["peer", "name"]) && c.iter().any(|s| s == "eth0")),
        "veth peer must not be named eth0 while in host netns"
    );
    assert!(
        cmds.iter().any(|c| c.windows(2).any(|w| w == ["set", &plan.tmp_ns_veth])
            && c.iter().any(|s| s == "name")
            && c.contains(&"eth0".to_string())),
        "rename to eth0 must happen inside the netns"
    );
}

#[test]
fn parse_app_namespaces_filters_to_bugpot_prefix() {
    let out = "bugpot-alpha\nbugpot-beta (id: 1)\nother-ns\nbugpot-with-dashes\n";
    let mut got = parse_app_namespaces(out);
    got.sort();
    assert_eq!(got, vec!["alpha", "beta", "with-dashes"]);
}

#[test]
fn parse_app_namespaces_handles_empty() {
    assert!(parse_app_namespaces("").is_empty());
}

#[test]
fn parse_inet_addr_picks_v4() {
    let out = "2: eth0@if5: <BROADCAST,MULTICAST,UP,LOWER_UP> mtu 1500\n    \
            inet 172.20.0.2/24 scope global eth0\n       \
            valid_lft forever preferred_lft forever\n";
    assert_eq!(parse_inet_addr(out), Some(ip("172.20.0.2")));
}

#[test]
fn parse_inet_addr_missing_when_no_address() {
    let out = "2: eth0@if5: <BROADCAST,MULTICAST> mtu 1500\n";
    assert_eq!(parse_inet_addr(out), None);
}

#[test]
fn detach_removes_host_iface_and_netns() {
    let cmds = render_detach_endpoint(&myapp());
    assert!(cmds.iter().any(|c| c[0..3] == ["ip", "link", "del"]));
    assert!(cmds.iter().any(|c| c[0..3] == ["ip", "netns", "del"]));
}

#[test]
fn interface_names_are_short_hashes() {
    let fnv = |s: &str| {
        let mut h: u64 = 0xcbf2_9ce4_8422_2325;
        for b in s.bytes() {
            h ^= u64::from(b);
            h = h.wrapping_mul(0x0100_0000_01b3);
        }
        h
    };
    let shown = short_name("myapp");
    assert!(shown.len() <= 12, "{shown}");
    assert!(shown.contains(&format!("{:x}", fnv("myapp"))[..4]), "{shown}");
    assert_ne!(short_name("myapp"), short_name("myapq"));
}

// ---- packet rules ----------------------------------------------------------

fn cfg() -> NftConfig {
    NftConfig {
        table: "bugpot".into(),
        bridge: "bugpot0".into(),
        subnet: net("172.20.0.0/24"),
        bridge_ip: ip("172.20.0.1"),
        dns_port: 5353,
        allow_ttl_secs: 60,
    }
}

#[test]
fn bootstrap_contains_required_pieces() {
    let s = render_bootstrap(&cfg());
    assert!(s.contains("add table inet bugpot"));
    assert!(s.contains("delete table inet bugpot"));
    assert!(s.contains("type ipv4_addr . ipv4_addr"));
    assert!(s.contains("timeout 60s"));
    assert!(s.contains("hook forward"));
    assert!(s.contains("policy drop"));
    assert!(s.contains("udp dport { 53, 853 } drop"));
    assert!(s.contains("tcp dport { 53, 853 } drop"));
    assert!(!s.contains("allow4_doh_skip"), "dead set was removed");
    assert!(s.contains("ip saddr . ip daddr @allow4 accept"));
    assert!(s.contains("iifname \"bugpot0\""));
    assert!(s.contains("ip daddr 172.20.0.1"));
    assert!(s.contains("dport 5353"));
    assert!(s.contains("input iifname \"bugpot0\" ct state established,related accept"));
}

#[test]
fn add_allow_text() {
    let s = render_add_allow("bugpot", ip("172.20.0.10"), ip("1.2.3.4"));
    assert_eq!(s, "add element inet bugpot allow4 { 172.20.0.10 . 1.2.3.4 }");
}

fn concats(body: &str) -> Vec<Vec<String>> {
    let value: serde_json::Value = serde_json::from_str(body).unwrap();
    let mut out = Vec::new();
    for block in value["nftables"].as_array().unwrap() {
        let Some(elems) = block.get("set").and_then(|s| s.get("elem")) else {
            continue;
        };
        for e in elems.as_array().unwrap() {
            let concat = e["elem"]["val"]["concat"].as_array().unwrap();
            out.push(concat.iter().map(|v| v.as_str().unwrap().to_owned()).collect());
        }
    }
    out
}

#[test]
fn parses_nft_list_set_json() {
    let body = r#"{
            "nftables": [
                {"metainfo": {"version": "1.0.9", "release_name": "x", "json_schema_version": 1}},
                {"set": {
                    "family": "inet", "name": "allow4", "table": "bugpot",
                    "type": ["ipv4_addr", "ipv4_addr"],
                    "handle": 1, "flags": ["timeout"], "timeout": 60,
                    "elem": [
                        {"elem": {"val": {"concat": ["172.20.0.2", "1.2.3.4"]}, "expires": 59}},
                        {"elem": {"val": {"concat": ["172.20.0.3", "9.8.7.6"]}, "expires": 59}},
                        {"elem": {"val": {"concat": ["172.20.0.2", "5.6.7.8"]}, "expires": 59}}
                    ]
                }}
            ]
        }"#;
    let pairs = decode_allow_set(&concats(body));
    assert_eq!(
        pairs,
        vec![
            (ip("172.20.0.2"), ip("1.2.3.4")),
            (ip("172.20.0.3"), ip("9.8.7.6")),
            (ip("172.20.0.2"), ip("5.6.7.8")),
        ]
    );
}

#[test]
fn parses_empty_set() {
    let body = r#"{
            "nftables": [
                {"set": {"family": "inet", "name": "allow4", "table": "bugpot",
                         "type": ["ipv4_addr", "ipv4_addr"]}}
            ]
        }"#;
    assert_eq!(decode_allow_set(&concats(body)).len(), 0);
}

#[test]
fn odd_elements_of_the_set_are_passed_over() {
    let elements = vec![
        vec!["172.20.0.2".to_owned()],
        vec!["172.20.0.2".to_owned(), "nonsense".to_owned()],
        vec!["172.20.0.2".to_owned(), "1.2.3.4".to_owned()],
    ];
    assert_eq!(decode_allow_set(&elements), vec![(ip("172.20.0.2"), ip("1.2.3.4"))]);
}

#[test]
fn flushing_takes_one_source_only() {
    let pairs = vec![
        (ip("172.20.0.2"), ip("1.2.3.4")),
        (ip("172.20.0.3"), ip("9.8.7.6")),
        (ip("172.20.0.2"), ip("5.6.7.8")),
    ];
    let script = render_flush_src("bugpot", ip("172.20.0.2"), &pairs);
    assert!(script.contains("delete element inet bugpot allow4 { 172.20.0.2 . 1.2.3.4 }"));
    assert!(script.contains("delete element inet bugpot allow4 { 172.20.0.2 . 5.6.7.8 }"));
    assert!(!script.contains("172.20.0.3"));
    assert_eq!(render_flush_src("bugpot", ip("172.20.0.9"), &pairs), "");
}

// ---- endpoints -------------------------------------------------------------

#[test]
fn endpoints_are_found_by_address_until_removed() {
    let mut store = EndpointStore::new();
    store.insert(AllocatedApp {
        name: "alpha".to_owned(),
        container_ip: ip("172.20.0.2"),
        plan: EndpointPlan::new("alpha", ip("172.20.0.2"), net("172.20.0.0/24")),
        allowlist: allow(&[]).unwrap(),
    });
    assert_eq!(store.lookup_by_ip(ip("172.20.0.2")).unwrap().name, "alpha");
    assert!(store.lookup_by_ip(ip("172.20.0.3")).is_none());
    assert!(store.remove_by_name("beta").is_none());
    assert_eq!(store.remove_by_name("alpha").unwrap().container_ip, ip("172.20.0.2"));
    assert!(store.lookup_by_ip(ip("172.20.0.2")).is_none());
}

#[test]
fn endpoints_have_one_address_and_one_name() {
    let at = |name: &str, addr: &str| AllocatedApp {
        name: name.to_owned(),
        container_ip: ip(addr),
        plan: EndpointPlan::new(name, ip(addr), net("172.20.0.0/24")),
        allowlist: allow(&[]).unwrap(),
    };
    let mut store = EndpointStore::new();
    store.insert(at("alpha", "172.20.0.2"));
    store.insert(at("alpha", "172.20.0.3"));
    assert!(store.lookup_by_ip(ip("172.20.0.2")).is_none());
    assert_eq!(store.lookup_by_ip(ip("172.20.0.3")).unwrap().name, "alpha");
    store.insert(at("beta", "172.20.0.3"));
    assert_eq!(store.lookup_by_ip(ip("172.20.0.3")).unwrap().name, "beta");
    assert!(store.remove_by_name("alpha").is_none());
    assert_eq!(store.remove_by_name("beta").unwrap().container_ip, ip("172.20.0.3"));
    assert!(store.lookup_by_ip(ip("172.20.0.3")).is_none());
}

#[test]
fn claims_are_taken_once_and_the_rest_is_drained() {
    let found = discover_endpoints(vec![
        ("alpha".to_owned(), Some(ip("10.0.0.5"))),
        ("lost".to_owned(), None),
        ("beta".to_owned(), Some(ip("10.0.0.9"))),
    ]);
    let mut claims = StartupClaims::new(found);
    assert_eq!(claims.remaining(), 2);
    assert_eq!(claims.claim("alpha"), Some(ip("10.0.0.5")));
    assert_eq!(claims.claim("alpha"), None);
    assert_eq!(claims.claim("lost"), None);
    assert_eq!(claims.drain(), vec![("beta".to_owned(), ip("10.0.0.9"))]);
}

#[test]
fn endpoints_live_from_allocation_to_release() {
    let mut e = Egress::start(net("10.0.0.0/29"), ip("10.0.0.1")).unwrap();
    let none: Vec<String> = Vec::new();

    let a = e.prepare_endpoint("alpha", &none).unwrap();
    assert_eq!(a.plan.container_ip, ip("10.0.0.2"));
    let ep = e.commit_endpoint(a, Ok(())).unwrap();
    assert_eq!(ep.container_ip, ip("10.0.0.2"));
    assert!(ep.netns_path.ends_with("bugpot-alpha"), "{}", ep.netns_path);

    let b = e.prepare_endpoint("beta", &none).unwrap();
    assert_eq!(b.plan.container_ip, ip("10.0.0.3"));
    assert!(e.commit_endpoint(b, Err("no device".to_owned())).is_err());

    let b = e.prepare_endpoint("beta", &none).unwrap();
    assert_eq!(b.plan.container_ip, ip("10.0.0.3"), "a failed attach frees its address");
    e.commit_endpoint(b, Ok(())).unwrap();

    assert_eq!(e.release_endpoint("alpha").unwrap().container_ip, ip("10.0.0.2"));
    assert!(e.release_endpoint("alpha").is_none());
    assert_eq!(e.prepare_endpoint("gamma", &none).unwrap().plan.container_ip, ip("10.0.0.2"));
    assert!(e.prepare_endpoint("delta", &vec!["not a domain!!".to_owned()]).is_err());
}

#[test]
fn endpoints_outlive_the_daemon() {
    let mut e = Egress::start(net("10.0.0.0/29"), ip("10.0.0.1")).unwrap();
    let found = discover_endpoints(vec![
        ("alpha".to_owned(), Some(ip("10.0.0.2"))),
        ("old".to_owned(), Some(ip("10.0.0.3"))),
    ]);
    e.adopt(&found);
    let none: Vec<String> = Vec::new();
    let ep = e.reattach_endpoint("alpha", ip("10.0.0.2"), &none).unwrap();
    assert_eq!(ep.container_ip, ip("10.0.0.2"));
    assert_eq!(e.orphan_plan("old", ip("10.0.0.3")).ns_name, "bugpot-old");
    e.cleanup_orphan_endpoint(ip("10.0.0.3"));
    assert_eq!(e.prepare_endpoint("beta", &none).unwrap().plan.container_ip, ip("10.0.0.3"));
}
