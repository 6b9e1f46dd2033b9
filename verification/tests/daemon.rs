use bugpot::daemon::{
    has_cap_net_admin, memory_pressure_from, parse_egress_config, parse_env_bool,
    parse_env_bytes, parse_router_config, read_secret, SecretKind, MEM_PRESSURE_HI_DEFAULT,
    MEM_PRESSURE_LO_DEFAULT,
};
use bugpot::egress::addr::{parse_ipv4, IpAddr, SocketAddr};
use bugpot::egress::net::IpNet;

#[test]
fn booleans_are_read_in_any_case() {
    for yes in ["1", "true", "YES", " On "] {
        assert_eq!(parse_env_bool("K", Some(yes), false), Ok(true), "{yes}");
    }
    for no in ["0", "False", "no", "OFF", "", "  "] {
        assert_eq!(parse_env_bool("K", Some(no), true), Ok(false), "{no}");
    }
    assert_eq!(parse_env_bool("K", None, true), Ok(true));
    assert_eq!(
        parse_env_bool("K", Some(" Maybe "), true),
        Err("K: expected boolean, got 'maybe'".to_owned())
    );
}

#[test]
fn bytes_are_plain_numbers() {
    assert_eq!(parse_env_bytes("K", Some(" 42 "), 7), Ok(42));
    assert_eq!(parse_env_bytes("K", None, 7), Ok(7));
    assert_eq!(parse_env_bytes("K", Some("18446744073709551615"), 7), Ok(u64::MAX));
    assert_eq!(
        parse_env_bytes("K", Some("18446744073709551616"), 7),
        Err("parse K".to_owned())
    );
    assert_eq!(parse_env_bytes("K", Some(""), 7), Err("parse K".to_owned()));
}

#[test]
fn router_settings_have_defaults() {
    let c = parse_router_config(None, None).unwrap();
    assert!(c.trusted_proxies.is_empty());
    assert_eq!(c.forwarded_proto, "http");
    let c = parse_router_config(Some("10.0.0.0/8, ,fd00::/8"), Some(" https ")).unwrap();
    assert_eq!(
        c.trusted_proxies,
        vec![IpNet::parse("10.0.0.0/8").unwrap(), IpNet::parse("fd00::/8").unwrap()]
    );
    assert_eq!(c.forwarded_proto, "https");
    assert_eq!(parse_router_config(None, Some("  ")).unwrap().forwarded_proto, "http");
    assert_eq!(
        parse_router_config(Some("10.0.0.0/8, bogus"), None).unwrap_err(),
        "parse BUGPOT_TRUSTED_PROXIES entry 'bogus'"
    );
}

fn read_socket(s: &str) -> Option<SocketAddr> {
    let (host, port) = s.rsplit_once(':')?;
    Some(SocketAddr { ip: IpAddr::V4(parse_ipv4(host)?), port: port.parse().ok()? })
}

#[test]
fn egress_settings_take_other_resolvers() {
    let c = parse_egress_config(None, read_socket).unwrap();
    let shown: Vec<String> = c.dns_upstream.iter().map(SocketAddr::show).collect();
    assert_eq!(shown, vec!["1.1.1.1:53", "8.8.8.8:53"]);
    let c = parse_egress_config(Some("9.9.9.9:53"), read_socket).unwrap();
    assert_eq!(c.dns_upstream.len(), 1);
    assert_eq!(
        parse_egress_config(Some(" , "), read_socket).unwrap_err(),
        "validate egress config: dns_upstream is empty"
    );
    assert_eq!(
        parse_egress_config(Some("x"), read_socket).unwrap_err(),
        "parse BUGPOT_EGRESS_DNS_UPSTREAM: parse dns upstream entry \"x\""
    );
}

#[test]
fn capabilities_are_read_from_the_status() {
    assert!(has_cap_net_admin("Name:\tx\nCapEff:\t0000000000001000\n"));
    assert!(has_cap_net_admin("CapEff: 000001ffffffffff"));
    assert!(!has_cap_net_admin("CapEff:\t0000000000000fff\n"));
    assert!(!has_cap_net_admin("CapEff:\tzz\nCapEff:\t1000\n"));
    assert!(!has_cap_net_admin("CapPrm:\t1000\n"));
    assert!(!has_cap_net_admin(""));
}

#[test]
fn secrets_come_from_file_or_variable() {
    let kind = SecretKind::AdminToken;
    assert_eq!(read_secret(kind, Some(("/t", " a \n")), Some("b")), Ok("a".to_owned()));
    assert_eq!(read_secret(kind, None, Some(" b ")), Ok("b".to_owned()));
    assert_eq!(
        read_secret(kind, Some(("/t", " \n")), Some("b")),
        Err("admin token file /t is empty".to_owned())
    );
    let missing = "admin token is required: set BUGPOT_ADMIN_TOKEN_FILE (preferred) or BUGPOT_ADMIN_TOKEN";
    assert_eq!(read_secret(kind, None, Some(" ")), Err(missing.to_owned()));
    assert_eq!(read_secret(kind, None, None), Err(missing.to_owned()));
    assert_eq!(
        read_secret(SecretKind::DeploySecret, None, None),
        Err("deploy-key secret is required: set BUGPOT_DEPLOY_SECRET_FILE (preferred) or BUGPOT_DEPLOY_SECRET".to_owned())
    );
    assert_eq!(
        read_secret(SecretKind::DeploySecret, Some(("/d", "")), None),
        Err("deploy-key secret file /d is empty".to_owned())
    );
}

#[test]
fn memory_marks_must_not_cross() {
    let p = memory_pressure_from(None, None, None).unwrap().unwrap();
    assert_eq!(p.lo_bytes, MEM_PRESSURE_LO_DEFAULT);
    assert_eq!(p.hi_bytes, MEM_PRESSURE_HI_DEFAULT);
    assert_eq!(p.lo_bytes, 150 * 1024 * 1024);
    assert_eq!(p.hi_bytes, 250 * 1024 * 1024);
    assert!(memory_pressure_from(Some("no"), Some("junk"), None).unwrap().is_none());
    assert_eq!(
        memory_pressure_from(None, Some("5"), Some("5")).unwrap_err(),
        "BUGPOT_FREEZE_MEM_HI (5) must be greater than BUGPOT_FREEZE_MEM_LO (5)"
    );
    assert_eq!(
        memory_pressure_from(None, Some("x"), None).unwrap_err(),
        "parse BUGPOT_FREEZE_MEM_LO"
    );
    assert_eq!(
        memory_pressure_from(None, None, Some("x")).unwrap_err(),
        "parse BUGPOT_FREEZE_MEM_HI"
    );
    assert_eq!(
        memory_pressure_from(Some("x"), None, None).unwrap_err(),
        "BUGPOT_FREEZE_ENABLED: expected boolean, got 'x'"
    );
}
