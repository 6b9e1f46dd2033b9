//! Bridge, interface pairs and network namespaces, set up with `ip`.
//!
//! The host side of an interface pair is called `vh-` and a short form of the
//! app's name. Its other end is created as `vc-` and the short form, so that it
//! does not clash with the host's own `eth0`, and becomes `eth0` only inside
//! the namespace `bugpot-<name>`.

use vstd::prelude::*;
use vstd::slice::slice_subrange;
use vstd::string::StringExecFns;

use super::addr::{address_of, ipv4_text, parse_ipv4, show_ipv4};
use super::net::Ipv4Net;
use crate::number::{decimal, decimal_text, digit, digit_of};
use crate::text::{
    chars_of, find, find_char, first_word, first_word_of, has_prefix, lines, lines_of, pieces,
    starts_with, string_of, texts, trim_start, trimmed_start,
};

verus! {

/// What the names of app namespaces begin with.
pub const NS_PREFIX: &'static str = "bugpot-";

/// One command: the program and its arguments.
pub type IpCmd = Vec<String>;

/// The words of each command of a list.
pub open spec fn command_texts(cmds: Seq<IpCmd>) -> Seq<Seq<Seq<char>>> {
    cmds.map_values(|c: IpCmd| texts(c@))
}

/// The names and the address of an app's endpoint.
#[derive(Debug)]
pub struct EndpointPlan {
    pub host_veth: String,
    /// Name of the container's end while it is still in the host's namespace.
    pub tmp_ns_veth: String,
    /// Name of the container's end inside its own namespace.
    pub ns_veth: String,
    pub ns_name: String,
    pub ns_path: String,
    pub container_ip: u32,
    pub subnet_prefix: u8,
}

/// One step of the FNV-1a hash.
pub open spec fn fnv_step(h: u64, b: u8) -> u64 {
    (((h ^ (b as u64)) as nat * 0x0100_0000_01b3) % 0x1_0000_0000_0000_0000) as u64
}

/// The FNV-1a hash of some bytes.
pub open spec fn fnv(bytes: Seq<u8>) -> u64
    decreases bytes.len(),
{
    if bytes.len() == 0 {
        0xcbf2_9ce4_8422_2325
    } else {
        fnv_step(fnv(bytes.drop_last()), bytes.last())
    }
}

/// The twelve leading hexadecimal digits of a 64-bit number.
pub open spec fn top_digits(h: u64) -> Seq<char> {
    Seq::new(12, |i: int| digit(((h >> ((60 - 4 * i) as u64)) & 15) as nat))
}

/// The short form of a name: twelve hexadecimal digits of its hash.
pub open spec fn short_form(name: Seq<char>) -> Seq<char> {
    top_digits(fnv(vstd::utf8::encode_utf8(name)))
}

/// Stable shortening of an app's name to twelve characters, which leaves room
/// for a prefix of three in the name of an interface.
pub fn short_name(name: &str) -> (r: String)
    ensures
        r@ == short_form(name@),
        r@.len() == 12,
{
    let bytes = name.as_bytes();
    let mut h: u64 = 0xcbf2_9ce4_8422_2325;
    let mut i: usize = 0;
    while i < bytes.len()
        invariant
            i <= bytes@.len(),
            h == fnv(bytes@.take(i as int)),
        decreases bytes@.len() - i,
    {
        let b: u8 = bytes[i];
        proof {
            assert(bytes@.take(i + 1).drop_last() =~= bytes@.take(i as int));
        }
        h = (h ^ (b as u64)).wrapping_mul(0x0100_0000_01b3);
        i += 1;
    }
    proof {
        assert(bytes@.take(i as int) =~= bytes@);
    }
    let mut out = String::new();
    let mut k: u64 = 0;
    while k < 12
        invariant
            k <= 12,
            out@ == top_digits(h).take(k as int),
        decreases 12 - k,
    {
        let shift: u64 = 60 - 4 * k;
        let d: u64 = (h >> shift) & 15;
        proof {
            assert((h >> shift) & 15 < 16) by (bit_vector);
        }
        out.push(digit_of(d));
        proof {
            assert(top_digits(h)[k as int] == digit(d as nat));
            assert(out@ =~= top_digits(h).take(k + 1));
        }
        k += 1;
    }
    proof {
        assert(top_digits(h).take(12) =~= top_digits(h));
    }
    out
}

fn prefixed(prefix: &str, rest: &str) -> (r: String)
    ensures
        r@ == prefix@ + rest@,
{
    let mut r = String::from_str(prefix);
    r.append(rest);
    r
}

impl EndpointPlan {
    /// The plan is the one for an app of this name at this address.
    pub open spec fn is_for(self, name: Seq<char>, ip: u32, prefix: u8) -> bool {
        &&& self.host_veth@ == "vh-"@ + short_form(name)
        &&& self.tmp_ns_veth@ == "vc-"@ + short_form(name)
        &&& self.ns_veth@ == "eth0"@
        &&& self.ns_name@ == NS_PREFIX@ + name
        &&& self.ns_path@ == "/var/run/netns/"@ + (NS_PREFIX@ + name)
        &&& self.container_ip == ip
        &&& self.subnet_prefix == prefix
    }

    pub fn new(name: &str, container_ip: u32, subnet: Ipv4Net) -> (r: EndpointPlan)
        ensures
            r.is_for(name@, container_ip, subnet.prefix),
    {
        let short = short_name(name);
        let ns_name = prefixed(NS_PREFIX, name);
        EndpointPlan {
            host_veth: prefixed("vh-", short.as_str()),
            tmp_ns_veth: prefixed("vc-", short.as_str()),
            ns_veth: String::from_str("eth0"),
            ns_path: prefixed("/var/run/netns/", ns_name.as_str()),
            ns_name,
            container_ip,
            subnet_prefix: subnet.prefix,
        }
    }
}

/// The names of interfaces fit the kernel's limit of fifteen characters, and
/// the container's end is not called `eth0` before it has left the host.
pub proof fn lemma_interface_names_fit(plan: EndpointPlan, name: Seq<char>, ip: u32, prefix: u8)
    requires
        plan.is_for(name, ip, prefix),
    ensures
        plan.host_veth@.len() == 15,
        plan.tmp_ns_veth@.len() == 15,
        plan.ns_veth@.len() <= 15,
        plan.tmp_ns_veth@ != "eth0"@,
        plan.tmp_ns_veth@ != plan.host_veth@,
{
    reveal_strlit("vh-");
    reveal_strlit("vc-");
    reveal_strlit("eth0");
    assert(plan.tmp_ns_veth@[1] == 'c');
    assert(plan.host_veth@[1] == 'h');
}

/// Apps of different names have namespaces of different names.
pub proof fn lemma_namespaces_differ(
    p: EndpointPlan,
    q: EndpointPlan,
    name: Seq<char>,
    other: Seq<char>,
    ip: u32,
    other_ip: u32,
    prefix: u8,
)
    requires
        p.is_for(name, ip, prefix),
        q.is_for(other, other_ip, prefix),
        name != other,
    ensures
        p.ns_name@ != q.ns_name@,
        p.ns_path@ != q.ns_path@,
{
    lemma_suffix_of_sum(NS_PREFIX@, name);
    lemma_suffix_of_sum(NS_PREFIX@, other);
    lemma_suffix_of_sum("/var/run/netns/"@, NS_PREFIX@ + name);
    lemma_suffix_of_sum("/var/run/netns/"@, NS_PREFIX@ + other);
}

proof fn lemma_suffix_of_sum(a: Seq<char>, b: Seq<char>)
    ensures
        (a + b).skip(a.len() as int) == b,
{
    assert((a + b).skip(a.len() as int) =~= b);
}

/// The words of a command, as owned strings.
pub fn s(parts: Vec<&str>) -> (r: IpCmd)
    ensures
        texts(r@) == parts@.map_values(|p: &str| p@),
{
    let mut r: IpCmd = Vec::new();
    let mut i: usize = 0;
    while i < parts.len()
        invariant
            i <= parts@.len(),
            texts(r@) == parts@.map_values(|p: &str| p@).take(i as int),
        decreases parts@.len() - i,
    {
        let ghost before = r@;
        r.push(parts[i].to_owned());
        proof {
            assert(texts(r@) =~= texts(before).push(parts@[i as int]@));
            assert(texts(r@) =~= parts@.map_values(|p: &str| p@).take(i + 1));
        }
        i += 1;
    }
    proof {
        assert(texts(r@) =~= parts@.map_values(|p: &str| p@));
    }
    r
}

/// An address with the length of its network's prefix.
pub open spec fn cidr_text(ip: u32, prefix: u8) -> Seq<char> {
    ipv4_text(ip) + "/"@ + decimal(prefix as nat)
}

fn show_cidr(ip: u32, prefix: u8) -> (r: String)
    ensures
        r@ == cidr_text(ip, prefix),
{
    let mut r = show_ipv4(ip);
    r.append("/");
    r.append(decimal_text(prefix as u64).as_str());
    r
}

/// The commands that bring up the bridge and switch forwarding on.
pub open spec fn bridge_commands(bridge: Seq<char>, ip: u32, prefix: u8) -> Seq<Seq<Seq<char>>> {
    seq![
        seq!["ip"@, "link"@, "add"@, bridge, "type"@, "bridge"@],
        seq!["ip"@, "addr"@, "add"@, cidr_text(ip, prefix), "dev"@, bridge],
        seq!["ip"@, "link"@, "set"@, bridge, "up"@],
        seq!["sysctl"@, "-w"@, "net.ipv4.ip_forward=1"@],
    ]
}

pub fn render_setup_bridge(bridge: &str, bridge_ip: u32, subnet: Ipv4Net) -> (r: Vec<IpCmd>)
    ensures
        command_texts(r@) == bridge_commands(bridge@, bridge_ip, subnet.prefix),
{
    let addr = show_cidr(bridge_ip, subnet.prefix);
    let mut r: Vec<IpCmd> = Vec::new();
    r.push(s(vec!["ip", "link", "add", bridge, "type", "bridge"]));
    r.push(s(vec!["ip", "addr", "add", addr.as_str(), "dev", bridge]));
    r.push(s(vec!["ip", "link", "set", bridge, "up"]));
    r.push(s(vec!["sysctl", "-w", "net.ipv4.ip_forward=1"]));
    proof {
        assert(command_texts(r@) =~~= bridge_commands(bridge@, bridge_ip, subnet.prefix));
    }
    r
}

/// The commands that create an app's namespace and plug it into the bridge.
pub open spec fn attach_commands(bridge: Seq<char>, plan: EndpointPlan) -> Seq<Seq<Seq<char>>> {
    let host = plan.host_veth@;
    let ns = plan.ns_name@;
    let tmp = plan.tmp_ns_veth@;
    let last = plan.ns_veth@;
    seq![
        seq!["ip"@, "netns"@, "add"@, ns],
        seq!["ip"@, "link"@, "add"@, host, "type"@, "veth"@, "peer"@, "name"@, tmp],
        seq!["ip"@, "link"@, "set"@, host, "master"@, bridge],
        seq!["ip"@, "link"@, "set"@, host, "up"@],
        seq!["ip"@, "link"@, "set"@, tmp, "netns"@, ns],
        seq!["ip"@, "-n"@, ns, "link"@, "set"@, tmp, "name"@, last],
        seq![
            "ip"@,
            "-n"@,
            ns,
            "addr"@,
            "add"@,
            cidr_text(plan.container_ip, plan.subnet_prefix),
            "dev"@,
            last,
        ],
        seq!["ip"@, "-n"@, ns, "link"@, "set"@, last, "up"@],
        seq!["ip"@, "-n"@, ns, "link"@, "set"@, "lo"@, "up"@],
    ]
}

pub fn render_attach_endpoint(bridge: &str, plan: &EndpointPlan) -> (r: Vec<IpCmd>)
    ensures
        command_texts(r@) == attach_commands(bridge@, *plan),
{
    let host = plan.host_veth.as_str();
    let ns = plan.ns_name.as_str();
    let tmp = plan.tmp_ns_veth.as_str();
    let last = plan.ns_veth.as_str();
    let addr = show_cidr(plan.container_ip, plan.subnet_prefix);
    let mut r: Vec<IpCmd> = Vec::new();
    r.push(s(vec!["ip", "netns", "add", ns]));
    r.push(s(vec!["ip", "link", "add", host, "type", "veth", "peer", "name", tmp]));
    r.push(s(vec!["ip", "link", "set", host, "master", bridge]));
    r.push(s(vec!["ip", "link", "set", host, "up"]));
    r.push(s(vec!["ip", "link", "set", tmp, "netns", ns]));
    r.push(s(vec!["ip", "-n", ns, "link", "set", tmp, "name", last]));
    r.push(s(vec!["ip", "-n", ns, "addr", "add", addr.as_str(), "dev", last]));
    r.push(s(vec!["ip", "-n", ns, "link", "set", last, "up"]));
    r.push(s(vec!["ip", "-n", ns, "link", "set", "lo", "up"]));
    proof {
        assert(command_texts(r@) =~~= attach_commands(bridge@, *plan));
    }
    r
}

/// The commands that take an app's endpoint down.
pub open spec fn detach_commands(plan: EndpointPlan) -> Seq<Seq<Seq<char>>> {
    seq![
        seq!["ip"@, "link"@, "del"@, plan.host_veth@],
        seq!["ip"@, "netns"@, "del"@, plan.ns_name@],
    ]
}

pub fn render_detach_endpoint(plan: &EndpointPlan) -> (r: Vec<IpCmd>)
    ensures
        command_texts(r@) == detach_commands(*plan),
{
    let mut r: Vec<IpCmd> = Vec::new();
    r.push(s(vec!["ip", "link", "del", plan.host_veth.as_str()]));
    r.push(s(vec!["ip", "netns", "del", plan.ns_name.as_str()]));
    proof {
        assert(command_texts(r@) =~~= detach_commands(*plan));
    }
    r
}

/// Taking an endpoint down names the interface and the namespace that bringing
/// it up created.
pub proof fn lemma_detach_undoes_attach(bridge: Seq<char>, plan: EndpointPlan)
    ensures
        attach_commands(bridge, plan)[0] == seq!["ip"@, "netns"@, "add"@, plan.ns_name@],
        attach_commands(bridge, plan)[1].take(4) == seq![
            "ip"@,
            "link"@,
            "add"@,
            plan.host_veth@,
        ],
        detach_commands(plan).contains(seq!["ip"@, "netns"@, "del"@, plan.ns_name@]),
        detach_commands(plan).contains(seq!["ip"@, "link"@, "del"@, plan.host_veth@]),
{
    assert(attach_commands(bridge, plan)[1].take(4) =~= seq![
        "ip"@,
        "link"@,
        "add"@,
        plan.host_veth@,
    ]);
    assert(detach_commands(plan)[0] == seq!["ip"@, "link"@, "del"@, plan.host_veth@]);
    assert(detach_commands(plan)[1] == seq!["ip"@, "netns"@, "del"@, plan.ns_name@]);
}

// ---- reading what `ip` prints ----------------------------------------------

/// The app that a line of `ip netns list` names, if it names one: the first
/// word, without the prefix of app namespaces.
pub open spec fn app_of_line(line: Seq<char>) -> Option<Seq<char>> {
    match first_word(line) {
        Some(w) => if starts_with(w, NS_PREFIX@) {
            Some(w.skip(NS_PREFIX@.len() as int))
        } else {
            None
        },
        None => None,
    }
}

/// The apps that some lines name, in order.
pub open spec fn apps_of_lines(ls: Seq<Seq<char>>) -> Seq<Seq<char>>
    decreases ls.len(),
{
    if ls.len() == 0 {
        seq![]
    } else {
        match app_of_line(ls.last()) {
            Some(a) => apps_of_lines(ls.drop_last()).push(a),
            None => apps_of_lines(ls.drop_last()),
        }
    }
}

/// The app names of all namespaces that `ip netns list` shows for apps.
pub fn parse_app_namespaces(s: &str) -> (r: Vec<String>)
    ensures
        texts(r@) == apps_of_lines(lines(s@)),
{
    let v = chars_of(s);
    let ls = lines_of(&v);
    let prefix = chars_of(NS_PREFIX);
    let ghost all = pieces(ls@);
    let mut out: Vec<String> = Vec::new();
    let mut i: usize = 0;
    proof {
        assert(texts(out@) =~= apps_of_lines(all.take(0)));
    }
    while i < ls.len()
        invariant
            i <= ls@.len(),
            all == pieces(ls@),
            prefix@ == NS_PREFIX@,
            texts(out@) == apps_of_lines(all.take(i as int)),
        decreases ls@.len() - i,
    {
        let ghost before = out@;
        proof {
            assert(all.take(i + 1).drop_last() =~= all.take(i as int));
            assert(all.take(i + 1).last() == ls@[i as int]@);
        }
        if let Some(w) = first_word_of(&ls[i]) {
            if has_prefix(w, &prefix) {
                let rest = slice_subrange(w, prefix.len(), w.len());
                proof {
                    assert(rest@ =~= w@.skip(NS_PREFIX@.len() as int));
                }
                let name = string_of(rest);
                out.push(name);
                proof {
                    assert(texts(out@) =~= texts(before).push(name@));
                }
            }
        }
        i += 1;
    }
    proof {
        assert(all.take(i as int) =~= all);
    }
    out
}

/// The address that a line of `ip addr show` gives, if it gives one.
pub open spec fn inet_of_line(line: Seq<char>) -> Option<u32> {
    let t = trim_start(line);
    if starts_with(t, "inet "@) {
        match first_word(t.skip(5)) {
            Some(w) => if find(w, '/') < w.len() {
                address_of(w.take(find(w, '/')))
            } else {
                None
            },
            None => None,
        }
    } else {
        None
    }
}

/// The first address that some lines give.
pub open spec fn inet_of_lines(ls: Seq<Seq<char>>) -> Option<u32>
    decreases ls.len(),
{
    if ls.len() == 0 {
        None
    } else {
        match inet_of_line(ls[0]) {
            Some(ip) => Some(ip),
            None => inet_of_lines(ls.drop_first()),
        }
    }
}

fn parse_inet_line(line: &[char]) -> (r: Option<u32>)
    ensures
        r == inet_of_line(line@),
{
    proof {
        reveal_strlit("inet ");
    }
    let t = trimmed_start(line);
    if !has_prefix(t, &chars_of("inet ")) {
        return None;
    }
    let rest = slice_subrange(t, 5, t.len());
    proof {
        assert(rest@ =~= t@.skip(5));
    }
    match first_word_of(rest) {
        Some(w) => {
            let i: usize = find_char(w, '/');
            if i < w.len() {
                let ip = slice_subrange(w, 0, i);
                proof {
                    assert(ip@ =~= w@.take(i as int));
                }
                parse_ipv4(string_of(ip).as_str())
            } else {
                None
            }
        },
        None => None,
    }
}

/// The IPv4 address that `ip addr show` prints for an interface, if any.
pub fn parse_inet_addr(s: &str) -> (r: Option<u32>)
    ensures
        r == inet_of_lines(lines(s@)),
{
    let v = chars_of(s);
    let ls = lines_of(&v);
    let ghost all = pieces(ls@);
    let mut i: usize = 0;
    proof {
        assert(all.skip(0) =~= all);
    }
    while i < ls.len()
        invariant
            i <= ls@.len(),
            all == pieces(ls@),
            all == lines(s@),
            inet_of_lines(all.skip(i as int)) == inet_of_lines(all),
        decreases ls@.len() - i,
    {
        proof {
            assert(all.skip(i as int)[0] == ls@[i as int]@);
            assert(all.skip(i as int).drop_first() =~= all.skip(i + 1));
        }
        if let Some(ip) = parse_inet_line(&ls[i]) {
            return Some(ip);
        }
        i += 1;
    }
    None
}

/// The interfaces and the namespace of an app are called after it: `vh-` and
/// `vc-` with the short form of its name, `bugpot-` with the name itself.
pub proof fn lemma_plan_names(plan: EndpointPlan, name: Seq<char>, ip: u32, prefix: u8)
    requires
        plan.is_for(name, ip, prefix),
    ensures
        plan.host_veth@ == seq!['v', 'h', '-'] + short_form(name),
        plan.tmp_ns_veth@ == seq!['v', 'c', '-'] + short_form(name),
        plan.ns_veth@ == seq!['e', 't', 'h', '0'],
        plan.ns_name@ == "bugpot-"@ + name,
        plan.ns_path@ == "/var/run/netns/"@ + plan.ns_name@,
        plan.container_ip == ip,
        plan.subnet_prefix == prefix,
{
    reveal_strlit("vh-");
    reveal_strlit("vc-");
    reveal_strlit("eth0");
    assert("vh-"@ =~= seq!['v', 'h', '-']);
    assert("vc-"@ =~= seq!['v', 'c', '-']);
    assert("eth0"@ =~= seq!['e', 't', 'h', '0']);
}

/// The hash takes in one byte after the other: it is combined with the hash so
/// far, and the product with the prime is cut off at 64 bits.
pub proof fn lemma_fnv(bytes: Seq<u8>, b: u8)
    ensures
        fnv(seq![]) == 0xcbf2_9ce4_8422_2325,
        fnv(bytes.push(b)) as int == ((fnv(bytes) ^ (b as u64)) * 0x0100_0000_01b3)
            % 0x1_0000_0000_0000_0000,
{
    assert(bytes.push(b).drop_last() =~= bytes);
}

proof fn lemma_top_digits_upto(h: u64, k: int)
    requires
        0 < k <= 12,
    ensures
        crate::number::value(top_digits(h).take(k), 16) == h >> ((64 - 4 * k) as u64),
    decreases k,
{
    let t = top_digits(h).take(k);
    let s: u64 = (64 - 4 * k) as u64;
    let d: u64 = (h >> s) & 15;
    assert(d < 16) by (bit_vector)
        requires
            d == (h >> s) & 15,
    ;
    assert(t.last() == digit(d as nat));
    crate::number::lemma_digits(d as nat);
    assert(t.drop_last() =~= top_digits(h).take(k - 1));
    if k == 1 {
        assert(t.drop_last() =~= seq![]);
        assert(crate::number::value(t.drop_last(), 16) == 0);
        assert(s == 60);
        assert(h >> 60u64 == (h >> 60u64) & 15) by (bit_vector);
        assert(crate::number::value(t, 16) == d);
    } else {
        lemma_top_digits_upto(h, k - 1);
        let up: u64 = (64 - 4 * (k - 1)) as u64;
        assert(up == s + 4);
        assert(crate::number::value(t.drop_last(), 16) == h >> up);
        assert(crate::number::value(t, 16) == (h >> up) * 16 + d);
        assert((h >> s) == (h >> up) * 16 + ((h >> s) & 15)) by (bit_vector)
            requires
                up == s + 4,
                s <= 56,
        ;
    }
}

/// The short form of a name is the upper 48 bits of the hash of its bytes, as
/// twelve hexadecimal digits with small letters.
pub proof fn lemma_short_form(name: Seq<char>)
    ensures
        short_form(name).len() == 12,
        forall|i: int|
            0 <= i < 12 ==> '0' <= #[trigger] short_form(name)[i] <= '9' || 'a' <= short_form(
                name,
            )[i] <= 'f',
        crate::number::value(short_form(name), 16) == fnv(vstd::utf8::encode_utf8(name))
            / 0x1_0000,
{
    let h = fnv(vstd::utf8::encode_utf8(name));
    lemma_top_digits_upto(h, 12);
    assert(top_digits(h).take(12) =~= top_digits(h));
    assert(h >> 16 == h / 0x1_0000) by (bit_vector);
    assert forall|i: int| 0 <= i < 12 implies '0' <= #[trigger] short_form(name)[i] <= '9' || 'a'
        <= short_form(name)[i] <= 'f' by {
        let s: u64 = (60 - 4 * i) as u64;
        assert((h >> s) & 15 < 16) by (bit_vector);
        crate::number::lemma_digits(((h >> s) & 15) as nat);
    }
}

/// An endpoint is brought up in this order: the namespace and the pair of
/// interfaces are created; the host's end joins the bridge and goes up; the
/// other end moves into the namespace, gets its name and the app's address there
/// and goes up, and so does the loopback. Nothing else is done.
pub proof fn lemma_attach(bridge: Seq<char>, plan: EndpointPlan)
    ensures
        ({
            let c = attach_commands(bridge, plan);
            let ns = plan.ns_name@;
            &&& c.len() == 9
            &&& c[0] == seq!["ip"@, "netns"@, "add"@, ns]
            &&& c[1] == seq![
                "ip"@,
                "link"@,
                "add"@,
                plan.host_veth@,
                "type"@,
                "veth"@,
                "peer"@,
                "name"@,
                plan.tmp_ns_veth@,
            ]
            &&& c[2] == seq!["ip"@, "link"@, "set"@, plan.host_veth@, "master"@, bridge]
            &&& c[3] == seq!["ip"@, "link"@, "set"@, plan.host_veth@, "up"@]
            &&& c[4] == seq!["ip"@, "link"@, "set"@, plan.tmp_ns_veth@, "netns"@, ns]
            &&& c[5] == seq![
                "ip"@,
                "-n"@,
                ns,
                "link"@,
                "set"@,
                plan.tmp_ns_veth@,
                "name"@,
                plan.ns_veth@,
            ]
            &&& c[6] == seq![
                "ip"@,
                "-n"@,
                ns,
                "addr"@,
                "add"@,
                ipv4_text(plan.container_ip) + seq!['/'] + decimal(plan.subnet_prefix as nat),
                "dev"@,
                plan.ns_veth@,
            ]
            &&& c[7] == seq!["ip"@, "-n"@, ns, "link"@, "set"@, plan.ns_veth@, "up"@]
            &&& c[8] == seq!["ip"@, "-n"@, ns, "link"@, "set"@, "lo"@, "up"@]
        }),
{
    reveal_strlit("/");
    assert("/"@ =~= seq!['/']);
}

/// Taking an endpoint down removes the host's interface and the namespace, and
/// nothing else.
pub proof fn lemma_detach(plan: EndpointPlan)
    ensures
        detach_commands(plan).len() == 2,
        detach_commands(plan)[0] == seq!["ip"@, "link"@, "del"@, plan.host_veth@],
        detach_commands(plan)[1] == seq!["ip"@, "netns"@, "del"@, plan.ns_name@],
{
}

/// The bridge is created, gets the host's address in the subnet and goes up, and
/// packets are forwarded.
pub proof fn lemma_bridge(bridge: Seq<char>, ip: u32, prefix: u8)
    ensures
        ({
            let c = bridge_commands(bridge, ip, prefix);
            &&& c.len() == 4
            &&& c[0] == seq!["ip"@, "link"@, "add"@, bridge, "type"@, "bridge"@]
            &&& c[1] == seq![
                "ip"@,
                "addr"@,
                "add"@,
                ipv4_text(ip) + seq!['/'] + decimal(prefix as nat),
                "dev"@,
                bridge,
            ]
            &&& c[2] == seq!["ip"@, "link"@, "set"@, bridge, "up"@]
            &&& c[3] == seq!["sysctl"@, "-w"@, "net.ipv4.ip_forward=1"@]
        }),
{
    reveal_strlit("/");
    assert("/"@ =~= seq!['/']);
}

/// A line of `ip netns list` names an app exactly if its first word begins with
/// `bugpot-`, and then it names what follows.
pub proof fn lemma_app_of_line(line: Seq<char>, name: Seq<char>)
    ensures
        app_of_line(line) == Some(name) <==> first_word(line) == Some("bugpot-"@ + name),
{
    if app_of_line(line) == Some(name) {
        let w = first_word(line)->0;
        crate::text::lemma_starts_with(w, "bugpot-"@);
        assert(w =~= "bugpot-"@ + w.skip("bugpot-"@.len() as int));
    }
    if first_word(line) == Some("bugpot-"@ + name) {
        let w = "bugpot-"@ + name;
        lemma_suffix_of_sum("bugpot-"@, name);
        assert(w.take("bugpot-"@.len() as int) =~= "bugpot-"@);
    }
}

/// The names come in the order of the lines, one for each line that names an
/// app.
pub proof fn lemma_apps_of_lines(ls: Seq<Seq<char>>, line: Seq<char>)
    ensures
        apps_of_lines(seq![]) == Seq::<Seq<char>>::empty(),
        app_of_line(line) is None ==> apps_of_lines(ls.push(line)) == apps_of_lines(ls),
        app_of_line(line) matches Some(a) ==> apps_of_lines(ls.push(line)) == apps_of_lines(
            ls,
        ).push(a),
{
    assert(ls.push(line).drop_last() =~= ls);
}

/// A line of `ip addr show` gives an address exactly if, behind the blanks, it
/// says `inet` and then, as a word, the address, a slash and more.
pub proof fn lemma_inet_of_line(line: Seq<char>, ip: u32)
    ensures
        inet_of_line(line) == Some(ip) <==> exists|rest: Seq<char>, more: Seq<char>|
            trim_start(line) == #[trigger] ("inet "@ + rest) && first_word(rest) == Some(
                #[trigger] (ipv4_text(ip) + (seq!['/'] + more)),
            ),
{
    reveal_strlit("inet ");
    let t = trim_start(line);
    let p = "inet "@;
    if inet_of_line(line) == Some(ip) {
        crate::text::lemma_starts_with(t, p);
        let rest = t.skip(5);
        assert(t =~= p + rest);
        let w = first_word(rest)->0;
        crate::text::lemma_find(w, '/');
        let i = find(w, '/');
        let more = w.skip(i + 1);
        crate::egress::addr::lemma_address_of(w.take(i), ip);
        assert(w =~= ipv4_text(ip) + (seq!['/'] + more));
        assert(t == p + rest && first_word(rest) == Some(ipv4_text(ip) + (seq!['/'] + more)));
    }
    if exists|rest: Seq<char>, more: Seq<char>|
        t == #[trigger] (p + rest) && first_word(rest) == Some(
            #[trigger] (ipv4_text(ip) + (seq!['/'] + more)),
        ) {
        let (rest, more) = choose|rest: Seq<char>, more: Seq<char>|
            t == #[trigger] (p + rest) && first_word(rest) == Some(
                #[trigger] (ipv4_text(ip) + (seq!['/'] + more)),
            );
        assert(t.skip(5) =~= rest);
        assert(t.take(5) =~= p);
        let w = ipv4_text(ip) + (seq!['/'] + more);
        crate::egress::addr::lemma_address_of_digits(ip);
        let n = ipv4_text(ip).len() as int;
        assert forall|j: int| 0 <= j < n implies w[j] != '/' by {
            assert(w[j] == ipv4_text(ip)[j]);
        }
        assert(w[n] == '/');
        crate::text::lemma_find_is(w, '/', n);
        assert(w.take(n) =~= ipv4_text(ip));
        crate::egress::addr::lemma_address_of(ipv4_text(ip), ip);
    }
}

/// The address is that of the first line that gives one.
pub proof fn lemma_inet_of_lines(ls: Seq<Seq<char>>, i: int)
    requires
        0 <= i < ls.len(),
        inet_of_line(ls[i]) is Some,
        forall|j: int| 0 <= j < i ==> inet_of_line(#[trigger] ls[j]) is None,
    ensures
        inet_of_lines(ls) == inet_of_line(ls[i]),
    decreases i,
{
    if i > 0 {
        assert(inet_of_line(ls[0]) is None);
        assert(ls.drop_first()[i - 1] == ls[i]);
        assert forall|j: int| 0 <= j < i - 1 implies inet_of_line(
            #[trigger] ls.drop_first()[j],
        ) is None by {
            assert(ls.drop_first()[j] == ls[j + 1]);
        }
        lemma_inet_of_lines(ls.drop_first(), i - 1);
    }
}

/// Lines that give no address give none together.
pub proof fn lemma_no_inet_in_lines(ls: Seq<Seq<char>>)
    requires
        forall|j: int| 0 <= j < ls.len() ==> inet_of_line(#[trigger] ls[j]) is None,
    ensures
        inet_of_lines(ls) is None,
    decreases ls.len(),
{
    if ls.len() > 0 {
        assert(inet_of_line(ls[0]) is None);
        lemma_no_inet_in_lines(ls.drop_first());
    }
}

} // verus!
