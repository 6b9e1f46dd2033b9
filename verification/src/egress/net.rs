//! IP networks: an address and how many of its leading bits name the network.

use vstd::arithmetic::power2::pow2;
use vstd::prelude::*;
use vstd::string::StringExecFns;

use super::addr::{
    from_octets, ipv4_text, lemma_octets_make, lemma_split_ipv4, octet_texts, octets, show_ipv4,
    IpAddr,
};
use crate::number::{
    all_digits, decimal, decimal_text, is_digit, lemma_decimal_reads_back, value,
};
use crate::text::{join, lemma_split_first, lemma_split_of_one, lemma_split_of_two, split};

verus! {

/// An IPv4 network.
#[derive(Debug, Clone, Copy, PartialEq, Eq, Structural)]
pub struct Ipv4Net {
    pub addr: u32,
    pub prefix: u8,
}

/// The first address of the network that `addr` and the length of its prefix
/// name, among addresses of `bits` bits.
pub open spec fn network(addr: int, prefix: int, bits: int) -> int {
    addr - addr % (pow2((bits - prefix) as nat) as int)
}

/// The last address of that network.
pub open spec fn broadcast(addr: int, prefix: int, bits: int) -> int {
    network(addr, prefix, bits) + pow2((bits - prefix) as nat) - 1
}

/// What one to `most` decimal digits stand for, if that is below a bound.
pub open spec fn short_number(s: Seq<char>, most: nat, bound: nat) -> Option<nat> {
    if 0 < s.len() <= most && all_digits(s, 10) && value(s, 10) < bound {
        Some(value(s, 10))
    } else {
        None
    }
}

/// Address and prefix length that a text such as `10.0.0.0/8` names: four octets
/// of up to three digits and, behind a slash, up to two digits for at most 32
/// bits.
pub open spec fn ipv4_net_of(text: Seq<char>) -> Option<(u32, u8)> {
    let halves = split(text, '/');
    let parts = split(halves[0], '.').map_values(|s: Seq<char>| short_number(s, 3, 256));
    let prefix = short_number(halves[1], 2, 33);
    if halves.len() == 2 && parts.len() == 4 && (forall|i: int|
        0 <= i < 4 ==> (#[trigger] parts[i]) is Some) && prefix is Some {
        Some((from_octets(parts.map_values(|o: Option<nat>| o->0)) as u32, prefix->0 as u8))
    } else {
        None
    }
}

/// What is said of a text that names no network.
pub open spec fn bad_network() -> Seq<char> {
    "invalid IP address syntax"@
}

/// `<ipnet::Ipv4Net as FromStr>::from_str` reads four octets, a slash and a
/// prefix length, and nothing else. It has the same message for every other
/// text.
#[verifier::external_body]
fn ipnet_parse_v4(text: &str) -> (r: Result<(u32, u8), String>)
    ensures
        match r {
            Ok(n) => ipv4_net_of(text@) == Some(n),
            Err(e) => ipv4_net_of(text@) is None && e@ == bad_network(),
        },
{
    match text.parse::<ipnet::Ipv4Net>() {
        Ok(net) => Ok((u32::from(net.addr()), net.prefix_len())),
        Err(e) => Err(e.to_string()),
    }
}

/// `ipnet::Ipv4Net::contains` for an address: it lies between the first and the
/// last address of the network.
#[verifier::external_body]
fn ipnet_contains_v4(addr: u32, prefix: u8, ip: u32) -> (r: bool)
    requires
        prefix <= 32,
    ensures
        r == (network(addr as int, prefix as int, 32) <= ip <= broadcast(
            addr as int,
            prefix as int,
            32,
        )),
{
    let host = ipnet::Ipv4Net::new_assert(ip.into(), 32).addr();
    ipnet::Ipv4Net::new_assert(addr.into(), prefix).contains(&host)
}

/// `ipnet::Ipv4Net::hosts`: the first and the last of the addresses that it
/// walks through. Those are all of the network, without its first and last
/// address where the prefix leaves more than one bit.
#[verifier::external_body]
fn ipnet_hosts(addr: u32, prefix: u8) -> (r: (Option<u32>, Option<u32>))
    requires
        prefix <= 32,
    ensures
        r.0 is Some,
        r.1 is Some,
        r.0->0 == network(addr as int, prefix as int, 32) + if prefix < 31 {
            1int
        } else {
            0int
        },
        r.1->0 == broadcast(addr as int, prefix as int, 32) - if prefix < 31 {
            1int
        } else {
            0int
        },
{
    let hosts = ipnet::Ipv4Net::new_assert(addr.into(), prefix).hosts();
    (hosts.clone().next().map(u32::from), hosts.last().map(u32::from))
}

impl Ipv4Net {
    pub open spec fn wf(self) -> bool {
        self.prefix <= 32
    }

    /// The address belongs to the network.
    pub open spec fn has(self, ip: u32) -> bool {
        network(self.addr as int, self.prefix as int, 32) <= ip <= broadcast(
            self.addr as int,
            self.prefix as int,
            32,
        )
    }

    /// The address may be given to a host of the network.
    pub open spec fn is_host(self, ip: u32) -> bool {
        let edge = if self.prefix < 31 {
            1int
        } else {
            0int
        };
        network(self.addr as int, self.prefix as int, 32) + edge <= ip <= broadcast(
            self.addr as int,
            self.prefix as int,
            32,
        ) - edge
    }

    /// The network in the usual notation.
    pub open spec fn text(self) -> Seq<char> {
        ipv4_text(self.addr) + "/"@ + decimal(self.prefix as nat)
    }

    /// Read a network in the usual notation.
    pub fn parse(text: &str) -> (r: Result<Ipv4Net, String>)
        ensures
            match r {
                Ok(n) => n.wf() && ipv4_net_of(text@) == Some((n.addr, n.prefix)),
                Err(e) => ipv4_net_of(text@) is None && e@ == bad_network(),
            },
    {
        match ipnet_parse_v4(text) {
            Ok(n) => Ok(Ipv4Net { addr: n.0, prefix: n.1 }),
            Err(e) => Err(e),
        }
    }

    pub fn contains(&self, ip: u32) -> (r: bool)
        requires
            self.wf(),
        ensures
            r == self.has(ip),
    {
        ipnet_contains_v4(self.addr, self.prefix, ip)
    }

    /// The lowest and the highest address for a host; all between them are
    /// addresses for hosts too.
    pub fn host_range(&self) -> (r: (u32, u32))
        requires
            self.wf(),
        ensures
            forall|ip: u32| self.is_host(ip) <==> r.0 <= ip <= r.1,
    {
        let (lo, hi) = ipnet_hosts(self.addr, self.prefix);
        (lo.unwrap(), hi.unwrap())
    }

    pub fn show(&self) -> (r: String)
        ensures
            r@ == self.text(),
    {
        let mut r = show_ipv4(self.addr);
        r.append("/");
        r.append(decimal_text(self.prefix as u64).as_str());
        r
    }
}

/// An IP network of either version.
#[derive(Debug, Clone, Copy, PartialEq, Eq, Structural)]
pub enum IpNet {
    V4(Ipv4Net),
    V6 { addr: u128, prefix: u8 },
}

/// The address and the prefix length of the IPv6 network that `ipnet::IpNet`
/// reads from a text such as `fd00::/8`; none if it reads no such network.
pub uninterp spec fn ipv6_net_of(text: Seq<char>) -> Option<(u128, u8)>;

/// `<ipnet::IpNet as FromStr>::from_str` reads an IPv4 network where the text
/// names one, else an IPv6 network. It has the same message for every text that
/// names neither. An address of version 6 has 128 bits.
#[verifier::external_body]
fn ipnet_parse(text: &str) -> (r: Result<(bool, u128, u8), String>)
    ensures
        match r {
            Ok((false, a, p)) => a <= 0xffff_ffff && ipv4_net_of(text@) == Some((a as u32, p)),
            Ok((true, a, p)) => p <= 128 && ipv4_net_of(text@) is None && ipv6_net_of(text@)
                == Some((a, p)),
            Err(e) => ipv4_net_of(text@) is None && ipv6_net_of(text@) is None && e@
                == bad_network(),
        },
{
    match text.parse::<ipnet::IpNet>() {
        Ok(ipnet::IpNet::V4(n)) => Ok((false, u128::from(u32::from(n.addr())), n.prefix_len())),
        Ok(ipnet::IpNet::V6(n)) => Ok((true, u128::from(n.addr()), n.prefix_len())),
        Err(e) => Err(e.to_string()),
    }
}

/// The network that a text names, of either version.
pub open spec fn ip_net_of(text: Seq<char>) -> Option<IpNet> {
    match ipv4_net_of(text) {
        Some((addr, prefix)) => Some(IpNet::V4(Ipv4Net { addr, prefix })),
        None => match ipv6_net_of(text) {
            Some((addr, prefix)) => Some(IpNet::V6 { addr, prefix }),
            None => None,
        },
    }
}

/// `ipnet::Ipv6Net::contains` for an address: it lies between the first and the
/// last address of the network.
#[verifier::external_body]
fn ipnet_contains_v6(addr: u128, prefix: u8, ip: u128) -> (r: bool)
    requires
        prefix <= 128,
    ensures
        r == (network(addr as int, prefix as int, 128) <= ip <= broadcast(
            addr as int,
            prefix as int,
            128,
        )),
{
    let host = ipnet::Ipv6Net::new_assert(ip.into(), 128).addr();
    ipnet::Ipv6Net::new_assert(addr.into(), prefix).contains(&host)
}

impl IpNet {
    pub open spec fn wf(self) -> bool {
        match self {
            IpNet::V4(n) => n.wf(),
            IpNet::V6 { prefix, .. } => prefix <= 128,
        }
    }

    /// The address belongs to the network. Addresses of the other version never
    /// do.
    pub open spec fn has(self, ip: IpAddr) -> bool {
        match (self, ip) {
            (IpNet::V4(n), IpAddr::V4(a)) => n.has(a),
            (IpNet::V6 { addr, prefix }, IpAddr::V6(a)) => network(
                addr as int,
                prefix as int,
                128,
            ) <= a <= broadcast(addr as int, prefix as int, 128),
            _ => false,
        }
    }

    /// Read a network in the usual notation.
    pub fn parse(text: &str) -> (r: Result<IpNet, String>)
        ensures
            match r {
                Ok(n) => n.wf() && ip_net_of(text@) == Some(n),
                Err(e) => ip_net_of(text@) is None && e@ == bad_network(),
            },
    {
        match ipnet_parse(text) {
            Ok(n) => if n.0 {
                Ok(IpNet::V6 { addr: n.1, prefix: n.2 })
            } else {
                Ok(IpNet::V4(Ipv4Net { addr: n.1 as u32, prefix: n.2 }))
            },
            Err(e) => Err(e),
        }
    }

    pub fn contains(&self, ip: IpAddr) -> (r: bool)
        requires
            self.wf(),
        ensures
            r == self.has(ip),
    {
        match (self, ip) {
            (IpNet::V4(n), IpAddr::V4(a)) => n.contains(a),
            (IpNet::V6 { addr, prefix }, IpAddr::V6(a)) => ipnet_contains_v6(*addr, *prefix, a),
            _ => false,
        }
    }
}

// ---- laws ------------------------------------------------------------------

proof fn lemma_no_slash(n: nat)
    ensures
        !decimal(n).contains('/'),
{
    lemma_decimal_reads_back(n);
    assert forall|i: int| 0 <= i < decimal(n).len() implies decimal(n)[i] != '/' by {
        assert(is_digit(decimal(n)[i], 10));
    }
}

/// What is joined without slashes holds none.
proof fn lemma_join_no_slash(parts: Seq<Seq<char>>)
    requires
        forall|i: int| 0 <= i < parts.len() ==> !(#[trigger] parts[i]).contains('/'),
    ensures
        !join(parts, '.').contains('/'),
    decreases parts.len(),
{
    if parts.len() > 1 {
        let tail = parts.drop_first();
        assert forall|i: int| 0 <= i < tail.len() implies !(#[trigger] tail[i]).contains('/') by {
            assert(tail[i] == parts[i + 1]);
        }
        lemma_join_no_slash(tail);
        let s = join(parts, '.');
        assert(s =~= parts[0] + seq!['.'] + join(tail, '.'));
        assert forall|j: int| 0 <= j < s.len() implies s[j] != '/' by {
            if j < parts[0].len() {
                assert(parts[0].contains(s[j]));
            } else if j > parts[0].len() {
                assert(join(tail, '.').contains(s[j])) by {
                    assert(join(tail, '.')[j - parts[0].len() - 1] == s[j]);
                }
            }
        }
    }
}

/// A network is read back from its notation.
pub proof fn lemma_network_reads_back(net: Ipv4Net)
    requires
        net.wf(),
    ensures
        ipv4_net_of(net.text()) == Some((net.addr, net.prefix)),
        ip_net_of(net.text()) == Some(IpNet::V4(net)),
{
    reveal_strlit("/");
    let head = ipv4_text(net.addr);
    let tail = decimal(net.prefix as nat);
    assert forall|i: int| 0 <= i < 4 implies !(#[trigger] octet_texts(net.addr)[i]).contains(
        '/',
    ) by {
        lemma_no_slash(octets(net.addr)[i]);
    }
    lemma_join_no_slash(octet_texts(net.addr));
    lemma_no_slash(net.prefix as nat);
    lemma_split_first(tail, seq![], '/');
    lemma_split_first(head, tail, '/');
    assert(net.text() =~= head + seq!['/'] + tail);
    lemma_decimal_reads_back(net.prefix as nat);
    lemma_split_ipv4(net.addr);
    let parts = split(head, '.').map_values(|s: Seq<char>| short_number(s, 3, 256));
    assert forall|i: int| 0 <= i < 4 implies #[trigger] parts[i] == Some(octets(net.addr)[i]) by {
        lemma_decimal_reads_back(octets(net.addr)[i]);
        assert(split(head, '.')[i] == octet_texts(net.addr)[i]);
    }
    assert(parts.map_values(|o: Option<nat>| o->0) =~= octets(net.addr));
    lemma_octets_make(net.addr);
    assert(split(net.text(), '/') =~= seq![head, tail]);
}

/// Where a power of two divides two numbers the same number of times, they lie
/// in the same block of that many numbers, and else they do not.
proof fn lemma_same_block(a: int, b: int, size: int)
    requires
        0 <= a,
        0 <= b,
        0 < size,
    ensures
        (a - a % size <= b <= a - a % size + size - 1) <==> a / size == b / size,
        b - (a - a % size) == b % size || a / size != b / size,
{
    vstd::arithmetic::div_mod::lemma_fundamental_div_mod(a, size);
    vstd::arithmetic::div_mod::lemma_fundamental_div_mod(b, size);
    vstd::arithmetic::div_mod::lemma_mod_bound(a, size);
    vstd::arithmetic::div_mod::lemma_mod_bound(b, size);
    let p = a / size;
    let q = b / size;
    assert(p < q ==> size * p + size <= size * q) by (nonlinear_arith)
        requires
            0 < size,
    ;
    assert(q < p ==> size * q + size <= size * p) by (nonlinear_arith)
        requires
            0 < size,
    ;
}

/// A network holds exactly the addresses that agree with its own in the leading
/// bits. All of them but the first and the last are for hosts, and those two as
/// well where the network has no more than two addresses.
pub proof fn lemma_network_holds(net: Ipv4Net, ip: u32)
    requires
        net.prefix <= 32,
    ensures
        ({
            let size = pow2((32 - net.prefix) as nat) as int;
            &&& net.has(ip) <==> ip as int / size == net.addr as int / size
            &&& net.prefix < 31 ==> (net.is_host(ip) <==> net.has(ip) && ip as int % size != 0
                && ip as int % size != size - 1)
            &&& net.prefix >= 31 ==> (net.is_host(ip) <==> net.has(ip))
        }),
{
    let size = pow2((32 - net.prefix) as nat) as int;
    vstd::arithmetic::power2::lemma_pow2_pos((32 - net.prefix) as nat);
    lemma_same_block(net.addr as int, ip as int, size);
}

/// A network of either version holds exactly the addresses of its version that
/// agree with its own in the leading bits, and none of the other version.
pub proof fn lemma_holds_own_version(net: IpNet, ip: IpAddr)
    requires
        net.wf(),
    ensures
        match (net, ip) {
            (IpNet::V4(n), IpAddr::V4(a)) => net.has(ip) <==> a as int / (pow2(
                (32 - n.prefix) as nat,
            ) as int) == n.addr as int / (pow2((32 - n.prefix) as nat) as int),
            (IpNet::V6 { addr, prefix }, IpAddr::V6(a)) => net.has(ip) <==> a as int / (pow2(
                (128 - prefix) as nat,
            ) as int) == addr as int / (pow2((128 - prefix) as nat) as int),
            _ => !net.has(ip),
        },
{
    match (net, ip) {
        (IpNet::V4(n), IpAddr::V4(a)) => {
            lemma_network_holds(n, a);
        },
        (IpNet::V6 { addr, prefix }, IpAddr::V6(a)) => {
            vstd::arithmetic::power2::lemma_pow2_pos((128 - prefix) as nat);
            lemma_same_block(addr as int, a as int, pow2((128 - prefix) as nat) as int);
        },
        _ => {},
    }
}

/// A network is written as its address, a slash and the length of its prefix; a
/// text that names a network of version 4 is read as that, and only another one
/// as a network of version 6.
pub proof fn lemma_network_text(net: Ipv4Net, text: Seq<char>)
    ensures
        net.text() == ipv4_text(net.addr) + seq!['/'] + decimal(net.prefix as nat),
        ipv4_net_of(text) matches Some((addr, prefix)) ==> ip_net_of(text) == Some(
            IpNet::V4(Ipv4Net { addr, prefix }),
        ),
        ipv4_net_of(text) is None ==> (ipv6_net_of(text) matches Some((addr, prefix)) ==> ip_net_of(
            text,
        ) == Some(IpNet::V6 { addr, prefix })),
        ipv4_net_of(text) is None && ipv6_net_of(text) is None ==> ip_net_of(text) is None,
        bad_network() == "invalid IP address syntax"@,
{
    reveal_strlit("/");
    assert("/"@ =~= seq!['/']);
}

/// Up to so many decimal digits are read as a number below a bound, and nothing
/// else is.
pub proof fn lemma_short_number(s: Seq<char>, most: nat, bound: nat)
    ensures
        short_number(s, most, bound) is Some <==> {
            &&& 1 <= s.len() <= most
            &&& forall|i: int| 0 <= i < s.len() ==> '0' <= #[trigger] s[i] <= '9'
            &&& value(s, 10) <= bound - 1
        },
        short_number(s, most, bound) matches Some(n) ==> n == value(s, 10),
{
    assert forall|i: int| 0 <= i < s.len() implies (is_digit(#[trigger] s[i], 10) <==> '0' <= s[i]
        <= '9') by {
        crate::number::lemma_digit_values(s[i]);
    }
}

/// A network is read from four numbers below 256 of up to three digits, with
/// dots between them, and, behind a slash, one of at most 32 of up to two; where
/// one of the five is anything else, there is none.
pub proof fn lemma_reads_network(
    a: Seq<char>,
    b: Seq<char>,
    c: Seq<char>,
    d: Seq<char>,
    p: Seq<char>,
)
    requires
        forall|i: int| 0 <= i < a.len() ==> a[i] != '.' && a[i] != '/',
        forall|i: int| 0 <= i < b.len() ==> b[i] != '.' && b[i] != '/',
        forall|i: int| 0 <= i < c.len() ==> c[i] != '.' && c[i] != '/',
        forall|i: int| 0 <= i < d.len() ==> d[i] != '.' && d[i] != '/',
        forall|i: int| 0 <= i < p.len() ==> p[i] != '/',
    ensures
        ({
            let address = a + seq!['.'] + b + seq!['.'] + c + seq!['.'] + d;
            let (x, y, z, w) = (
                short_number(a, 3, 256),
                short_number(b, 3, 256),
                short_number(c, 3, 256),
                short_number(d, 3, 256),
            );
            let bits = short_number(p, 2, 33);
            &&& ipv4_net_of(address) is None
            &&& ipv4_net_of(address + seq!['/'] + p) == if x is Some && y is Some && z is Some && w
                is Some && bits is Some {
                Some(
                    (
                        (x->0 * 0x100_0000 + y->0 * 0x1_0000 + z->0 * 0x100 + w->0) as u32,
                        bits->0 as u8,
                    ),
                )
            } else {
                None
            }
        }),
{
    let two = a + seq!['.'] + b;
    let three = two + seq!['.'] + c;
    let address = three + seq!['.'] + d;
    lemma_split_of_one(a, '.');
    lemma_split_of_one(b, '.');
    lemma_split_of_one(c, '.');
    lemma_split_of_one(d, '.');
    lemma_split_of_two(a, b, '.');
    lemma_split_of_two(two, c, '.');
    lemma_split_of_two(three, d, '.');
    assert(split(address, '.') =~= seq![a, b, c, d]);
    assert forall|i: int| 0 <= i < address.len() implies address[i] != '/' by {
        if i < three.len() {
            assert(address[i] == three[i]);
            if i < two.len() {
                assert(three[i] == two[i]);
            }
        }
    }
    lemma_split_of_one(address, '/');
    lemma_split_of_one(p, '/');
    lemma_split_of_two(address, p, '/');
    let full = address + seq!['/'] + p;
    assert(split(full, '/') =~= seq![address, p]);
    let parts = split(address, '.').map_values(|s: Seq<char>| short_number(s, 3, 256));
    assert(parts[0] == short_number(a, 3, 256));
    assert(parts[1] == short_number(b, 3, 256));
    assert(parts[2] == short_number(c, 3, 256));
    assert(parts[3] == short_number(d, 3, 256));
}

} // verus!
