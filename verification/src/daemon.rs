//! What the daemon reads from its environment when it comes up.

use vstd::prelude::*;
use vstd::slice::slice_subrange;
use vstd::string::StringExecFns;

use crate::apps::sweep::MemoryPressure;
use crate::egress::addr::SocketAddr;
use crate::egress::config::{all_read, comma_entries, parse_dns_upstream, split_entries, EgressConfig};
use crate::egress::net::{ip_net_of, IpNet};
use crate::number::{decimal, decimal_text, parse, parse_number};
use crate::router::config::RouterConfig;
use crate::text::{
    chars_of, has_prefix, lines, lines_of, lowercase, lowercased, pieces, same, starts_with,
    string_of, texts, trim, trimmed, trimmed_str,
};

verus! {

pub const DEFAULT_LISTEN: &'static str = "127.0.0.1:8080";

pub const DEFAULT_ADMIN_LISTEN: &'static str = "127.0.0.1:8081";

pub const DEFAULT_AUTH_FILE: &'static str = "/etc/bugpot/auth.toml";

/// Seconds between two looks at all apps.
pub const SWEEP_INTERVAL_SECS: u64 = 30;

/// Milliseconds between two looks at the host's memory.
pub const MEM_PRESSURE_POLL_MILLIS: u64 = 500;

/// Bytes of available memory below which frozen apps are evicted.
pub const MEM_PRESSURE_LO_DEFAULT: u64 = 157286400;

/// Bytes of available memory from which on they no longer are.
pub const MEM_PRESSURE_HI_DEFAULT: u64 = 262144000;

/// Seconds between two samples of the runtime.
pub const RUNTIME_MONITOR_INTERVAL_SECS: u64 = 10;

/// Words for yes.
pub open spec fn is_yes(s: Seq<char>) -> bool {
    s == "1"@ || s == "true"@ || s == "yes"@ || s == "on"@
}

/// Words for no. Nothing at all is one of them.
pub open spec fn is_no(s: Seq<char>) -> bool {
    s == "0"@ || s == "false"@ || s == "no"@ || s == "off"@ || s.len() == 0
}

fn is_word(s: &[char], word: &str) -> (r: bool)
    ensures
        r == (s@ == word@),
{
    let w = chars_of(word);
    same(s, &w)
}

/// Read a variable that says yes or no, in any letter case. Where it is not set
/// the default holds.
pub fn parse_env_bool(key: &str, raw: Option<&str>, default: bool) -> (r: Result<bool, String>)
    ensures
        match raw {
            None => r == Ok::<bool, String>(default),
            Some(t) => {
                let word = lowercase(trim(t@));
                match r {
                    Ok(b) => if b {
                        is_yes(word)
                    } else {
                        is_no(word)
                    },
                    Err(e) => !is_yes(word) && !is_no(word) && e@ == key@
                        + ": expected boolean, got '"@ + word + "'"@,
                }
            },
        },
{
    let t = match raw {
        None => {
            return Ok(default);
        },
        Some(t) => t,
    };
    let v = chars_of(t);
    let word = lowercased(trimmed(&v));
    proof {
        reveal_strlit("1");
        reveal_strlit("true");
        reveal_strlit("yes");
        reveal_strlit("on");
        reveal_strlit("0");
        reveal_strlit("false");
        reveal_strlit("no");
        reveal_strlit("off");
    }
    if is_word(&word, "1") || is_word(&word, "true") || is_word(&word, "yes") || is_word(
        &word,
        "on",
    ) {
        return Ok(true);
    }
    if is_word(&word, "0") || is_word(&word, "false") || is_word(&word, "no") || is_word(
        &word,
        "off",
    ) || word.len() == 0 {
        return Ok(false);
    }
    let mut e = String::from_str(key);
    e.append(": expected boolean, got '");
    e.append(string_of(&word).as_str());
    e.append("'");
    Err(e)
}

/// Read a variable that holds a number of bytes. Where it is not set the default
/// holds.
pub fn parse_env_bytes(key: &str, raw: Option<&str>, default: u64) -> (r: Result<u64, String>)
    ensures
        match raw {
            None => r == Ok::<u64, String>(default),
            Some(t) => match r {
                Ok(n) => parse(trim(t@), 10, u64::MAX as nat) == Some(n as nat),
                Err(e) => parse(trim(t@), 10, u64::MAX as nat) is None && e@ == "parse "@ + key@,
            },
        },
{
    match raw {
        None => Ok(default),
        Some(t) => {
            let v = chars_of(t);
            match parse_number(trimmed(&v), 10, u64::MAX) {
                Some(n) => Ok(n),
                None => {
                    let mut e = String::from_str("parse ");
                    e.append(key);
                    Err(e)
                },
            }
        },
    }
}

/// The networks that a list of entries names.
pub open spec fn names_networks(entries: Seq<Seq<char>>, nets: Seq<IpNet>) -> bool {
    &&& nets.len() == entries.len()
    &&& forall|i: int|
        0 <= i < entries.len() ==> ip_net_of(#[trigger] entries[i]) == Some(nets[i])
}

/// The entries of a list that may not be there.
pub open spec fn listed(raw: Option<&str>) -> Seq<Seq<char>> {
    match raw {
        Some(t) => comma_entries(t@),
        None => seq![],
    }
}

/// What is told of the proxies: `trusted` is a list of networks, `proto` what
/// `X-Forwarded-Proto` is set to; each may be missing.
pub fn parse_router_config(trusted: Option<&str>, proto: Option<&str>) -> (r: Result<
    RouterConfig,
    String,
>)
    ensures
        match r {
            Ok(c) => {
                &&& c.wf()
                &&& names_networks(listed(trusted), c.trusted_proxies@)
                &&& c.forwarded_proto@ == (match proto {
                    Some(p) => if trim(p@).len() > 0 {
                        trim(p@)
                    } else {
                        "http"@
                    },
                    None => "http"@,
                })
            },
            Err(e) => exists|i: int|
                {
                    &&& 0 <= i < listed(trusted).len()
                    &&& ip_net_of(#[trigger] listed(trusted)[i]) is None
                    &&& forall|j: int|
                        0 <= j < i ==> ip_net_of(#[trigger] listed(trusted)[j]) is Some
                    &&& e@ == "parse BUGPOT_TRUSTED_PROXIES entry '"@ + listed(trusted)[i] + "'"@
                },
        },
{
    let mut cfg = RouterConfig::defaults();
    let entries = match trusted {
        Some(t) => split_entries(t),
        None => Vec::new(),
    };
    let ghost all = listed(trusted);
    proof {
        assert(texts(entries@) =~= all);
    }
    let mut nets: Vec<IpNet> = Vec::new();
    let mut i: usize = 0;
    while i < entries.len()
        invariant
            i <= entries@.len(),
            all == listed(trusted),
            texts(entries@) == all,
            names_networks(all.take(i as int), nets@),
            forall|k: int| 0 <= k < nets@.len() ==> (#[trigger] nets@[k]).wf(),
        decreases entries@.len() - i,
    {
        let ghost before = nets@;
        let entry = entries[i].as_str();
        proof {
            assert(all[i as int] == entry@);
        }
        match IpNet::parse(entry) {
            Ok(n) => {
                nets.push(n);
                proof {
                    let next = all.take(i + 1);
                    assert forall|k: int| 0 <= k < next.len() implies ip_net_of(
                        #[trigger] next[k],
                    ) == Some(nets@[k]) by {
                        if k < i {
                            assert(next[k] == all.take(i as int)[k]);
                            assert(nets@[k] == before[k]);
                        }
                    }
                }
            },
            Err(_) => {
                let mut e = String::from_str("parse BUGPOT_TRUSTED_PROXIES entry '");
                e.append(entry);
                e.append("'");
                proof {
                    assert forall|j: int| 0 <= j < i implies ip_net_of(
                        #[trigger] listed(trusted)[j],
                    ) is Some by {
                        assert(all.take(i as int)[j] == all[j]);
                    }
                    assert(ip_net_of(listed(trusted)[i as int]) is None);
                }
                return Err(e);
            },
        }
        i = i + 1;
    }
    proof {
        assert(all.take(i as int) =~= all);
    }
    cfg.trusted_proxies = nets;
    if let Some(p) = proto {
        let t = trimmed_str(p);
        let t_chars = chars_of(t.as_str());
        if t_chars.len() > 0 {
            cfg.forwarded_proto = t;
        }
    }
    Ok(cfg)
}

/// The settings for outbound traffic: the default ones, with the resolvers that
/// the variable lists, where it is set. `read` reads one socket address.
pub fn parse_egress_config<F: Fn(&str) -> Option<SocketAddr>>(
    dns_upstream: Option<&str>,
    read: F,
) -> (r: Result<EgressConfig, String>)
    requires
        forall|t: &str| call_requires(read, (t,)),
    ensures
        match dns_upstream {
            None => r matches Ok(c) && c.dns_upstream@ == EgressConfig::default_upstream(),
            Some(s) => match r {
                Ok(c) => c.dns_upstream@.len() > 0 && all_read(
                    read,
                    comma_entries(s@),
                    c.dns_upstream@,
                ),
                Err(e) => {
                    ||| comma_entries(s@).len() == 0 && e@
                        == "validate egress config: dns_upstream is empty"@
                    ||| exists|i: int, before: Seq<SocketAddr>, t: &str|
                        #![trigger comma_entries(s@)[i], all_read(read, comma_entries(s@).take(i), before), t@]
                        {
                            &&& 0 <= i < comma_entries(s@).len()
                            &&& all_read(read, comma_entries(s@).take(i), before)
                            &&& t@ == comma_entries(s@)[i]
                            &&& call_ensures(read, (t,), None)
                            &&& e@ == "parse BUGPOT_EGRESS_DNS_UPSTREAM: parse dns upstream entry "@
                                + crate::config::auth::quoted(t@)
                        }
                },
            },
        },
{
    let mut cfg = EgressConfig::default();
    if let Some(s) = dns_upstream {
        match parse_dns_upstream(s, read) {
            Ok(addrs) => {
                cfg.dns_upstream = addrs;
            },
            Err(e) => {
                let mut m = String::from_str("parse BUGPOT_EGRESS_DNS_UPSTREAM: ");
                m.append(e.as_str());
                proof {
                    reveal_strlit("parse BUGPOT_EGRESS_DNS_UPSTREAM: ");
                    reveal_strlit("parse dns upstream entry ");
                    reveal_strlit("parse BUGPOT_EGRESS_DNS_UPSTREAM: parse dns upstream entry ");
                    let (i, before, t) = choose|i: int, before: Seq<SocketAddr>, t: &str|
                        #![trigger comma_entries(s@)[i], all_read(read, comma_entries(s@).take(i), before), t@]
                        0 <= i < comma_entries(s@).len() && all_read(
                            read,
                            comma_entries(s@).take(i),
                            before,
                        ) && t@ == comma_entries(s@)[i] && call_ensures(read, (t,), None) && e@
                            == "parse dns upstream entry "@ + crate::config::auth::quoted(t@);
                    assert(m@
                        =~= "parse BUGPOT_EGRESS_DNS_UPSTREAM: parse dns upstream entry "@
                        + crate::config::auth::quoted(t@));
                    assert(all_read(read, comma_entries(s@).take(i), before));
                }
                return Err(m);
            },
        }
    }
    match cfg.validate() {
        Ok(_) => Ok(cfg),
        Err(e) => {
            let mut m = String::from_str("validate egress config: ");
            m.append(e.as_str());
            proof {
                reveal_strlit("validate egress config: ");
                reveal_strlit("dns_upstream is empty");
                reveal_strlit("validate egress config: dns_upstream is empty");
                assert(m@ =~= "validate egress config: dns_upstream is empty"@);
            }
            Err(m)
        },
    }
}

/// What stands before the effective capabilities of a process.
pub const CAP_EFF: &'static str = "CapEff:";

/// What follows on the first line that begins with the word, without white
/// space around it.
pub open spec fn field(all: Seq<Seq<char>>, word: Seq<char>) -> Option<Seq<char>>
    decreases all.len(),
{
    if all.len() == 0 {
        None
    } else if starts_with(all[0], word) {
        Some(trim(all[0].skip(word.len() as int)))
    } else {
        field(all.drop_first(), word)
    }
}

/// The process may set up networks: the twelfth bit, counted from zero, of its
/// effective capabilities is set.
pub open spec fn may_administer_network(status: Seq<char>) -> bool {
    match field(lines(status), CAP_EFF@) {
        Some(hex) => match parse(hex, 16, u64::MAX as nat) {
            Some(bits) => (bits / 4096) % 2 == 1,
            None => false,
        },
        None => false,
    }
}

/// Tell from the kernel's account of a process whether it may set up networks.
pub fn has_cap_net_admin(status: &str) -> (r: bool)
    ensures
        r == may_administer_network(status@),
{
    let v = chars_of(status);
    let all = lines_of(&v);
    let word = chars_of(CAP_EFF);
    let mut i: usize = 0;
    proof {
        assert(pieces(all@).skip(0) =~= pieces(all@));
    }
    while i < all.len()
        invariant
            i <= all.len(),
            pieces(all@) == lines(status@),
            word@ == CAP_EFF@,
            field(lines(status@), CAP_EFF@) == field(pieces(all@).skip(i as int), CAP_EFF@),
        decreases all.len() - i,
    {
        let line = &all[i];
        proof {
            assert(pieces(all@).skip(i as int)[0] == line@);
            assert(pieces(all@).skip(i as int).drop_first() =~= pieces(all@).skip(i + 1));
        }
        if has_prefix(line, &word) {
            let rest = slice_subrange(line, word.len(), line.len());
            proof {
                assert(rest@ =~= line@.skip(word@.len() as int));
            }
            return match parse_number(trimmed(rest), 16, u64::MAX) {
                Some(bits) => (bits / 4096) % 2 == 1,
                None => false,
            };
        }
        i = i + 1;
    }
    false
}

/// Something that the daemon has to be told and nobody else may know.
#[derive(Debug, Clone, Copy, PartialEq, Eq, Structural)]
pub enum SecretKind {
    AdminToken,
    DeploySecret,
}

impl SecretKind {
    pub open spec fn label(self) -> Seq<char> {
        match self {
            SecretKind::AdminToken => "admin token"@,
            SecretKind::DeploySecret => "deploy-key secret"@,
        }
    }

    pub fn name(self) -> (r: &'static str)
        ensures
            r@ == self.label(),
    {
        match self {
            SecretKind::AdminToken => "admin token",
            SecretKind::DeploySecret => "deploy-key secret",
        }
    }

    pub open spec fn variable_name(self) -> Seq<char> {
        match self {
            SecretKind::AdminToken => "BUGPOT_ADMIN_TOKEN"@,
            SecretKind::DeploySecret => "BUGPOT_DEPLOY_SECRET"@,
        }
    }

    /// The variable that holds the secret itself. The one that names a file has
    /// the same name with `_FILE` behind it.
    pub fn variable(self) -> (r: &'static str)
        ensures
            r@ == self.variable_name(),
    {
        match self {
            SecretKind::AdminToken => "BUGPOT_ADMIN_TOKEN",
            SecretKind::DeploySecret => "BUGPOT_DEPLOY_SECRET",
        }
    }
}

/// What is told where a secret is missing.
pub open spec fn missing_secret(kind: SecretKind) -> Seq<char> {
    kind.label() + " is required: set "@ + kind.variable_name() + "_FILE (preferred) or "@
        + kind.variable_name()
}

/// Take a secret from the file that was named, else from the variable. `file` is
/// path and contents. A file without contents is an error even where the
/// variable holds something; a variable without contents counts as not set.
pub fn read_secret(kind: SecretKind, file: Option<(&str, &str)>, direct: Option<&str>) -> (r:
    Result<String, String>)
    ensures
        match (file, direct) {
            (Some((path, body)), _) => match r {
                Ok(s) => s@ == trim(body@) && s@.len() > 0,
                Err(e) => trim(body@).len() == 0 && e@ == kind.label() + " file "@ + path@
                    + " is empty"@,
            },
            (None, Some(raw)) => match r {
                Ok(s) => s@ == trim(raw@) && s@.len() > 0,
                Err(e) => trim(raw@).len() == 0 && e@ == missing_secret(kind),
            },
            (None, None) => r matches Err(e) && e@ == missing_secret(kind),
        },
{
    if let Some((path, body)) = file {
        let s = trimmed_str(body);
        if s.as_str().is_empty() {
            let mut e = String::from_str(kind.name());
            e.append(" file ");
            e.append(path);
            e.append(" is empty");
            return Err(e);
        }
        return Ok(s);
    }
    if let Some(raw) = direct {
        let s = trimmed_str(raw);
        if !s.as_str().is_empty() {
            return Ok(s);
        }
    }
    let mut e = String::from_str(kind.name());
    e.append(" is required: set ");
    e.append(kind.variable());
    e.append("_FILE (preferred) or ");
    e.append(kind.variable());
    Err(e)
}

/// A number that a variable gives, or a default.
pub open spec fn bytes_or(raw: Option<&str>, default: u64) -> Option<nat> {
    match raw {
        None => Some(default as nat),
        Some(t) => parse(trim(t@), 10, u64::MAX as nat),
    }
}

/// What is told where the marks are the wrong way round.
pub open spec fn marks_crossed(lo: nat, hi: nat) -> Seq<char> {
    "BUGPOT_FREEZE_MEM_HI ("@ + decimal(hi) + ") must be greater than BUGPOT_FREEZE_MEM_LO ("@
        + decimal(lo) + ")"@
}

/// Set up the watch on memory from three variables: whether there is one at all,
/// and the two marks.
pub fn memory_pressure_from(enabled: Option<&str>, lo: Option<&str>, hi: Option<&str>) -> (r:
    Result<Option<MemoryPressure>, String>)
    ensures
        ({
            let word = match enabled {
                Some(t) => lowercase(trim(t@)),
                None => "true"@,
            };
            let lo_bytes = bytes_or(lo, MEM_PRESSURE_LO_DEFAULT);
            let hi_bytes = bytes_or(hi, MEM_PRESSURE_HI_DEFAULT);
            match r {
                Ok(None) => enabled is Some && is_no(word),
                Ok(Some(p)) => {
                    &&& enabled is None || is_yes(word)
                    &&& lo_bytes == Some(p.lo_bytes as nat)
                    &&& hi_bytes == Some(p.hi_bytes as nat)
                    &&& p.lo_bytes < p.hi_bytes
                    &&& !p.evicting
                },
                Err(e) => {
                    ||| enabled is Some && !is_yes(word) && !is_no(word) && e@
                        == "BUGPOT_FREEZE_ENABLED"@ + ": expected boolean, got '"@ + word + "'"@
                    ||| (enabled is None || is_yes(word)) && lo_bytes is None && e@ == "parse "@
                        + "BUGPOT_FREEZE_MEM_LO"@
                    ||| (enabled is None || is_yes(word)) && lo_bytes is Some && hi_bytes is None
                        && e@ == "parse "@ + "BUGPOT_FREEZE_MEM_HI"@
                    ||| (enabled is None || is_yes(word)) && lo_bytes is Some && hi_bytes is Some
                        && hi_bytes->0 <= lo_bytes->0 && e@ == marks_crossed(
                        lo_bytes->0,
                        hi_bytes->0,
                    )
                },
            }
        }),
{
    match parse_env_bool("BUGPOT_FREEZE_ENABLED", enabled, true) {
        Ok(true) => {},
        Ok(false) => {
            return Ok(None);
        },
        Err(e) => {
            return Err(e);
        },
    }
    let lo_bytes: u64 = match parse_env_bytes("BUGPOT_FREEZE_MEM_LO", lo, MEM_PRESSURE_LO_DEFAULT) {
        Ok(n) => n,
        Err(e) => {
            return Err(e);
        },
    };
    let hi_bytes: u64 = match parse_env_bytes("BUGPOT_FREEZE_MEM_HI", hi, MEM_PRESSURE_HI_DEFAULT) {
        Ok(n) => n,
        Err(e) => {
            return Err(e);
        },
    };
    if hi_bytes <= lo_bytes {
        let mut e = String::from_str("BUGPOT_FREEZE_MEM_HI (");
        e.append(decimal_text(hi_bytes).as_str());
        e.append(") must be greater than BUGPOT_FREEZE_MEM_LO (");
        e.append(decimal_text(lo_bytes).as_str());
        e.append(")");
        return Err(e);
    }
    Ok(Some(MemoryPressure::new(lo_bytes, hi_bytes)))
}

// ---- laws ------------------------------------------------------------------

/// Four words say yes and four say no, as does an empty text; none says both.
pub proof fn lemma_yes_and_no(s: Seq<char>)
    ensures
        is_yes(s) <==> s == "1"@ || s == "true"@ || s == "yes"@ || s == "on"@,
        is_no(s) <==> s == "0"@ || s == "false"@ || s == "no"@ || s == "off"@ || s.len() == 0,
        !(is_yes(s) && is_no(s)),
{
    reveal_strlit("1");
    reveal_strlit("true");
    reveal_strlit("yes");
    reveal_strlit("on");
    reveal_strlit("0");
    reveal_strlit("false");
    reveal_strlit("no");
    reveal_strlit("off");
    assert("1"@.len() == 1 && "1"@[0] == '1');
    assert("0"@.len() == 1 && "0"@[0] == '0');
    assert("true"@.len() == 4);
    assert("false"@.len() == 5);
    assert("yes"@.len() == 3 && "yes"@[0] == 'y');
    assert("off"@.len() == 3 && "off"@[0] == 'o');
    assert("on"@.len() == 2 && "on"@[0] == 'o');
    assert("no"@.len() == 2 && "no"@[0] == 'n');
}

/// Where a list of networks was read, each entry names the network at its place.
pub proof fn lemma_names_networks(entries: Seq<Seq<char>>, nets: Seq<IpNet>, i: int)
    requires
        names_networks(entries, nets),
        0 <= i < entries.len(),
    ensures
        nets.len() == entries.len(),
        ip_net_of(entries[i]) == Some(nets[i]),
{
}

/// A list that is not there has no entries; one that is there has those between
/// its commas.
pub proof fn lemma_listed(t: &str)
    ensures
        listed(None).len() == 0,
        listed(Some(t)) == comma_entries(t@),
{
}

/// The first line that begins with a word gives what follows it there, without
/// the white space around it.
pub proof fn lemma_field(all: Seq<Seq<char>>, word: Seq<char>, i: int, rest: Seq<char>)
    requires
        0 <= i < all.len(),
        all[i] == word + rest,
        forall|j: int| 0 <= j < i ==> !starts_with(#[trigger] all[j], word),
    ensures
        field(all, word) == Some(trim(rest)),
    decreases i,
{
    if i == 0 {
        assert(all[0].take(word.len() as int) =~= word);
        assert(all[0].skip(word.len() as int) =~= rest);
        crate::text::lemma_starts_with(all[0], word);
    } else {
        assert(!starts_with(all[0], word));
        let tail = all.drop_first();
        assert(tail[i - 1] == all[i]);
        assert forall|j: int| 0 <= j < i - 1 implies !starts_with(#[trigger] tail[j], word) by {
            assert(tail[j] == all[j + 1]);
        }
        lemma_field(tail, word, i - 1, rest);
    }
}

/// Where no line begins with a word, nothing is given for it.
pub proof fn lemma_no_field(all: Seq<Seq<char>>, word: Seq<char>)
    requires
        forall|j: int| 0 <= j < all.len() ==> !starts_with(#[trigger] all[j], word),
    ensures
        field(all, word) is None,
    decreases all.len(),
{
    if all.len() > 0 {
        assert(!starts_with(all[0], word));
        let tail = all.drop_first();
        assert forall|j: int| 0 <= j < tail.len() implies !starts_with(#[trigger] tail[j], word) by {
            assert(tail[j] == all[j + 1]);
        }
        lemma_no_field(tail, word);
    }
}

/// A process may set up networks exactly if its effective capabilities, which
/// are given as a hexadecimal number, have the bit that is worth 4096.
pub proof fn lemma_network_capability(status: Seq<char>, low: nat, high: nat, hex: Seq<char>)
    requires
        field(lines(status), "CapEff:"@) == Some(hex),
        low < 4096,
    ensures
        parse(hex, 16, 0xffff_ffff_ffff_ffff) == Some((high * 8192 + 4096 + low) as nat)
            ==> may_administer_network(status),
        parse(hex, 16, 0xffff_ffff_ffff_ffff) == Some((high * 8192 + low) as nat)
            ==> !may_administer_network(status),
        parse(hex, 16, 0xffff_ffff_ffff_ffff) is None ==> !may_administer_network(status),
{
    assert((high * 8192 + 4096 + low) / 4096 == high * 2 + 1);
    assert((high * 8192 + low) / 4096 == high * 2);
}

/// A process of which no capabilities are told may not set up networks.
pub proof fn lemma_no_network_capability(status: Seq<char>)
    requires
        field(lines(status), "CapEff:"@) is None,
    ensures
        !may_administer_network(status),
{
}

/// What secrets are called, where they are taken from, and what is told where
/// one is missing.
pub proof fn lemma_secret_names()
    ensures
        SecretKind::AdminToken.label() == "admin token"@,
        SecretKind::DeploySecret.label() == "deploy-key secret"@,
        SecretKind::AdminToken.variable_name() == "BUGPOT_ADMIN_TOKEN"@,
        SecretKind::DeploySecret.variable_name() == "BUGPOT_DEPLOY_SECRET"@,
        missing_secret(SecretKind::AdminToken) == "admin token"@ + " is required: set "@
            + "BUGPOT_ADMIN_TOKEN"@ + "_FILE (preferred) or "@ + "BUGPOT_ADMIN_TOKEN"@,
        missing_secret(SecretKind::DeploySecret) == "deploy-key secret"@ + " is required: set "@
            + "BUGPOT_DEPLOY_SECRET"@ + "_FILE (preferred) or "@ + "BUGPOT_DEPLOY_SECRET"@,
{
}

/// A number of bytes is the default where none is given, and else the decimal
/// number that the text is, without white space around it.
pub proof fn lemma_bytes_or(t: &str, default: u64)
    ensures
        bytes_or(None, default) == Some(default as nat),
        bytes_or(Some(t), default) == parse(trim(t@), 10, 0xffff_ffff_ffff_ffff),
{
}

/// What is told of marks that are the wrong way round names both.
pub proof fn lemma_marks_crossed(lo: nat, hi: nat)
    ensures
        marks_crossed(lo, hi) == "BUGPOT_FREEZE_MEM_HI ("@ + decimal(hi)
            + ") must be greater than BUGPOT_FREEZE_MEM_LO ("@ + decimal(lo) + ")"@,
{
}

/// Where the daemon listens, how often it looks around, and which marks hold for
/// memory unless others are set: 150 and 250 megabytes.
pub proof fn lemma_daemon_defaults()
    ensures
        DEFAULT_LISTEN@ == "127.0.0.1:8080"@,
        DEFAULT_ADMIN_LISTEN@ == "127.0.0.1:8081"@,
        DEFAULT_AUTH_FILE@ == "/etc/bugpot/auth.toml"@,
        SWEEP_INTERVAL_SECS == 30,
        MEM_PRESSURE_POLL_MILLIS == 500,
        MEM_PRESSURE_LO_DEFAULT == 150 * 1024 * 1024,
        MEM_PRESSURE_HI_DEFAULT == 250 * 1024 * 1024,
        RUNTIME_MONITOR_INTERVAL_SECS == 10,
{
}

} // verus!
