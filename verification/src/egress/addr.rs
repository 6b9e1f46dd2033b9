//! IP addresses as numbers; IPv4 addresses in dotted notation.

use vstd::prelude::*;
use vstd::string::StringExecFns;

use crate::number::{
    all_digits, decimal, decimal_text, is_digit, lemma_decimal_reads_back,
    lemma_digits_are_decimal, parse_number, value,
};
use crate::text::{
    chars_of, join, lemma_join_split, lemma_split_join, pieces, split, split_on,
};

verus! {

/// An IP address.
#[derive(Debug, Clone, Copy, PartialEq, Eq, Structural)]
pub enum IpAddr {
    V4(u32),
    V6(u128),
}

/// An address and a port.
#[derive(Debug, Clone, Copy, PartialEq, Eq, Structural)]
pub struct SocketAddr {
    pub ip: IpAddr,
    pub port: u16,
}

/// The four octets of an address, the most significant first.
pub open spec fn octets(ip: u32) -> Seq<nat> {
    seq![
        (ip as nat / 0x100_0000) % 0x100,
        (ip as nat / 0x1_0000) % 0x100,
        (ip as nat / 0x100) % 0x100,
        ip as nat % 0x100,
    ]
}

/// The address that four octets make.
pub open spec fn from_octets(o: Seq<nat>) -> nat {
    o[0] * 0x100_0000 + o[1] * 0x1_0000 + o[2] * 0x100 + o[3]
}

/// The four octets in base ten.
pub open spec fn octet_texts(ip: u32) -> Seq<Seq<char>> {
    octets(ip).map_values(|n: nat| decimal(n))
}

/// The address in dotted notation.
pub open spec fn ipv4_text(ip: u32) -> Seq<char> {
    join(octet_texts(ip), '.')
}

proof fn lemma_no_dot(n: nat)
    ensures
        !decimal(n).contains('.'),
{
    lemma_decimal_reads_back(n);
    assert forall|i: int| 0 <= i < decimal(n).len() implies decimal(n)[i] != '.' by {
        assert(is_digit(decimal(n)[i], 10));
    }
}

/// The dotted notation of an address falls into its four octets.
pub proof fn lemma_split_ipv4(ip: u32)
    ensures
        split(ipv4_text(ip), '.') == octet_texts(ip),
{
    let t = octet_texts(ip);
    assert forall|i: int| 0 <= i < t.len() implies !(#[trigger] t[i]).contains('.') by {
        lemma_no_dot(octets(ip)[i]);
    }
    lemma_split_join(t, '.');
}

/// Two addresses with the same notation are the same address.
pub proof fn lemma_ipv4_text_injective(a: u32, b: u32)
    requires
        ipv4_text(a) == ipv4_text(b),
    ensures
        a == b,
{
    lemma_split_ipv4(a);
    lemma_split_ipv4(b);
    assert forall|i: int| 0 <= i < 4 implies octets(a)[i] == octets(b)[i] by {
        assert(octet_texts(a)[i] == octet_texts(b)[i]);
        lemma_decimal_reads_back(octets(a)[i]);
        lemma_decimal_reads_back(octets(b)[i]);
    }
    lemma_octets_make(a);
    lemma_octets_make(b);
}

/// The octets of an address make the address.
pub proof fn lemma_octets_make(ip: u32)
    ensures
        from_octets(octets(ip)) == ip as nat,
{
}

/// The dotted notation of an address.
pub fn show_ipv4(ip: u32) -> (r: String)
    ensures
        r@ == ipv4_text(ip),
{
    let mut r = decimal_text(((ip / 0x100_0000) % 0x100) as u64);
    r.append(".");
    r.append(decimal_text(((ip / 0x1_0000) % 0x100) as u64).as_str());
    r.append(".");
    r.append(decimal_text(((ip / 0x100) % 0x100) as u64).as_str());
    r.append(".");
    r.append(decimal_text((ip % 0x100) as u64).as_str());
    proof {
        reveal_strlit(".");
        reveal_with_fuel(join, 4);
        let t = octet_texts(ip);
        assert("."@ =~= seq!['.']);
        assert(t[0] == decimal(((ip / 0x100_0000) % 0x100) as nat));
        assert(t.drop_first()[0] == t[1]);
        assert(t.drop_first().drop_first()[0] == t[2]);
        assert(t.drop_first().drop_first().drop_first()[0] == t[3]);
        assert(r@ =~= t[0] + seq!['.'] + (t[1] + seq!['.'] + (t[2] + seq!['.'] + t[3])));
        assert(r@ =~= join(t, '.'));
    }
    r
}

/// One octet in base ten, without leading zeros.
fn parse_octet(s: &[char]) -> (r: Option<u32>)
    ensures
        match r {
            Some(n) => n < 256 && s@ == decimal(n as nat),
            None => forall|n: nat| n < 256 ==> s@ != #[trigger] decimal(n),
        },
{
    proof {
        assert forall|n: nat| n < 256 && s@ == #[trigger] decimal(n) implies s@.len() > 0
            && s@.len() <= 3 && all_digits(s@, 10) && value(s@, 10) == n && (s@.len() > 1 ==> s@[0]
            != '0') by {
            lemma_decimal_reads_back(n);
        }
    }
    if s.len() == 0 || s.len() > 3 || (s.len() > 1 && s[0] == '0') || s[0] == '+' {
        proof {
            if s@.len() > 0 && s@[0] == '+' {
                assert(!is_digit(s@[0], 10));
            }
        }
        return None;
    }
    match parse_number(s, 10, 255) {
        Some(n) => {
            proof {
                lemma_digits_are_decimal(s@);
            }
            Some(n as u32)
        },
        None => None,
    }
}

proof fn lemma_octets_of(ip: u32, a: nat, b: nat, c: nat, d: nat)
    requires
        a < 256,
        b < 256,
        c < 256,
        d < 256,
        ip == a * 0x100_0000 + b * 0x1_0000 + c * 0x100 + d,
    ensures
        octets(ip) == seq![a, b, c, d],
{
    let n = ip as nat;
    let lo = (b * 0x1_0000 + c * 0x100 + d) as int;
    assert(n / 0x100_0000 == a) by (nonlinear_arith)
        requires
            n == a * 0x100_0000 + lo,
            0 <= lo < 0x100_0000,
    ;
    let hi = (a * 0x100 + b) as int;
    let low = (c * 0x100 + d) as int;
    assert(n / 0x1_0000 == hi) by (nonlinear_arith)
        requires
            n == hi * 0x1_0000 + low,
            0 <= low < 0x1_0000,
    ;
    assert(hi % 0x100 == b);
    let top = (a * 0x1_0000 + b * 0x100 + c) as int;
    assert(n / 0x100 == top) by (nonlinear_arith)
        requires
            n == top * 0x100 + d,
            0 <= d < 0x100,
    ;
    assert(top % 0x100 == c);
    assert(n % 0x100 == d);
    assert(octets(ip) =~= seq![a, b, c, d]);
}

/// A text with a piece that is no octet is no address.
proof fn lemma_not_an_address(s: Seq<char>, i: int)
    requires
        0 <= i < 4,
        split(s, '.').len() == 4 ==> (forall|n: nat|
            n < 256 ==> split(s, '.')[i] != #[trigger] decimal(n)),
    ensures
        forall|ip: u32| s != #[trigger] ipv4_text(ip),
{
    assert forall|ip: u32| s != #[trigger] ipv4_text(ip) by {
        if s == ipv4_text(ip) {
            lemma_split_ipv4(ip);
            assert(octet_texts(ip)[i] == decimal(octets(ip)[i]));
            assert(octets(ip)[i] < 256);
        }
    }
}

/// A text with four octets is the notation of the address that they make.
proof fn lemma_is_address(s: Seq<char>, ip: u32, a: nat, b: nat, c: nat, d: nat)
    requires
        a < 256,
        b < 256,
        c < 256,
        d < 256,
        ip == a * 0x100_0000 + b * 0x1_0000 + c * 0x100 + d,
        split(s, '.') == seq![decimal(a), decimal(b), decimal(c), decimal(d)],
    ensures
        s == ipv4_text(ip),
{
    lemma_octets_of(ip, a, b, c, d);
    assert(octet_texts(ip) =~= seq![decimal(a), decimal(b), decimal(c), decimal(d)]);
    lemma_join_split(s, '.');
}

/// The address that a text is the dotted notation of, if it is one.
pub open spec fn address_of(s: Seq<char>) -> Option<u32> {
    if exists|ip: u32| s == #[trigger] ipv4_text(ip) {
        Some(choose|ip: u32| s == #[trigger] ipv4_text(ip))
    } else {
        None
    }
}

/// An address is read back from its notation.
pub proof fn lemma_address_of_text(ip: u32)
    ensures
        address_of(ipv4_text(ip)) == Some(ip),
{
    let s = ipv4_text(ip);
    let a = choose|a: u32| s == #[trigger] ipv4_text(a);
    lemma_ipv4_text_injective(a, ip);
}

/// Read an address in dotted notation: four octets in base ten, without leading
/// zeros.
pub fn parse_ipv4(s: &str) -> (r: Option<u32>)
    ensures
        r == address_of(s@),
{
    let v = chars_of(s);
    let parts = split_on(&v, '.');
    let ghost p = pieces(parts@);
    if parts.len() != 4 {
        proof {
            lemma_not_an_address(s@, 0);
        }
        return None;
    }
    let a: u32 = match parse_octet(&parts[0]) {
        Some(n) => n,
        None => {
            proof {
                assert(p[0] == parts@[0]@);
                lemma_not_an_address(s@, 0);
            }
            return None;
        },
    };
    let b: u32 = match parse_octet(&parts[1]) {
        Some(n) => n,
        None => {
            proof {
                assert(p[1] == parts@[1]@);
                lemma_not_an_address(s@, 1);
            }
            return None;
        },
    };
    let c: u32 = match parse_octet(&parts[2]) {
        Some(n) => n,
        None => {
            proof {
                assert(p[2] == parts@[2]@);
                lemma_not_an_address(s@, 2);
            }
            return None;
        },
    };
    let d: u32 = match parse_octet(&parts[3]) {
        Some(n) => n,
        None => {
            proof {
                assert(p[3] == parts@[3]@);
                lemma_not_an_address(s@, 3);
            }
            return None;
        },
    };
    let ip: u32 = a * 0x100_0000 + b * 0x1_0000 + c * 0x100 + d;
    proof {
        assert(p =~= seq![
            decimal(a as nat),
            decimal(b as nat),
            decimal(c as nat),
            decimal(d as nat),
        ]);
        lemma_is_address(s@, ip, a as nat, b as nat, c as nat, d as nat);
        lemma_address_of_text(ip);
    }
    Some(ip)
}

/// How `std` writes an IPv6 address.
pub uninterp spec fn ipv6_text(bits: u128) -> Seq<char>;

/// `<std::net::Ipv6Addr as Display>::fmt`, through `to_string`: the same address
/// is always written the same.
#[verifier::external_body]
fn show_ipv6(bits: u128) -> (r: String)
    ensures
        r@ == ipv6_text(bits),
{
    ipnet::Ipv6Net::new_assert(bits.into(), 128).addr().to_string()
}

impl IpAddr {
    /// The address in the usual notation.
    pub open spec fn text(self) -> Seq<char> {
        match self {
            IpAddr::V4(ip) => ipv4_text(ip),
            IpAddr::V6(bits) => ipv6_text(bits),
        }
    }

    pub fn show(&self) -> (r: String)
        ensures
            r@ == self.text(),
    {
        match self {
            IpAddr::V4(ip) => show_ipv4(*ip),
            IpAddr::V6(bits) => show_ipv6(*bits),
        }
    }
}

impl SocketAddr {
    /// Address and port in the usual notation.
    pub open spec fn text(self) -> Seq<char> {
        match self.ip {
            IpAddr::V4(ip) => ipv4_text(ip) + ":"@ + decimal(self.port as nat),
            IpAddr::V6(bits) => "["@ + ipv6_text(bits) + "]:"@ + decimal(self.port as nat),
        }
    }

    pub fn show(&self) -> (r: String)
        ensures
            r@ == self.text(),
    {
        match self.ip {
            IpAddr::V4(ip) => {
                let mut r = show_ipv4(ip);
                r.append(":");
                r.append(decimal_text(self.port as u64).as_str());
                r
            },
            IpAddr::V6(bits) => {
                let mut r = String::from_str("[");
                r.append(show_ipv6(bits).as_str());
                r.append("]:");
                r.append(decimal_text(self.port as u64).as_str());
                r
            },
        }
    }
}

/// The dotted notation of an address: its four octets, from the most significant
/// on, in base ten, with dots between them.
pub proof fn lemma_dotted(ip: u32, a: nat, b: nat, c: nat, d: nat)
    requires
        a < 256,
        b < 256,
        c < 256,
        d < 256,
        ip == a * 0x100_0000 + b * 0x1_0000 + c * 0x100 + d,
    ensures
        ipv4_text(ip) == decimal(a) + seq!['.'] + decimal(b) + seq!['.'] + decimal(c) + seq!['.']
            + decimal(d),
{
    lemma_octets_of(ip, a, b, c, d);
    reveal_with_fuel(join, 4);
    let t = octet_texts(ip);
    assert(t =~= seq![decimal(a), decimal(b), decimal(c), decimal(d)]);
    assert(t.drop_first()[0] == t[1]);
    assert(t.drop_first().drop_first()[0] == t[2]);
    assert(t.drop_first().drop_first().drop_first()[0] == t[3]);
    assert(join(t, '.') =~= t[0] + seq!['.'] + (t[1] + seq!['.'] + (t[2] + seq!['.'] + t[3])));
    assert(ipv4_text(ip) =~= decimal(a) + seq!['.'] + decimal(b) + seq!['.'] + decimal(c)
        + seq!['.'] + decimal(d));
}

/// The dotted notation of an address holds nothing but digits and dots.
pub proof fn lemma_address_of_digits(ip: u32)
    ensures
        forall|i: int|
            0 <= i < ipv4_text(ip).len() ==> #[trigger] ipv4_text(ip)[i] == '.' || '0' <= ipv4_text(
                ip,
            )[i] <= '9',
{
    let o = octets(ip);
    lemma_octets_make(ip);
    lemma_dotted(ip, o[0], o[1], o[2], o[3]);
    assert forall|n: nat, i: int| 0 <= i < decimal(n).len() implies '0' <= #[trigger] decimal(
        n,
    )[i] <= '9' by {
        lemma_decimal_reads_back(n);
        assert(is_digit(decimal(n)[i], 10));
    }
}

/// A text is read as an address exactly if it is the dotted notation of that
/// address.
pub proof fn lemma_address_of(s: Seq<char>, ip: u32)
    ensures
        address_of(s) == Some(ip) <==> s == ipv4_text(ip),
        address_of(s) is None ==> s != ipv4_text(ip),
{
    lemma_address_of_text(ip);
}

/// An address and a port are written with a colon between them, an address of
/// version 6 in brackets.
pub proof fn lemma_socket_text(a: SocketAddr)
    ensures
        a.text() == match a.ip {
            IpAddr::V4(ip) => ipv4_text(ip) + seq![':'] + decimal(a.port as nat),
            IpAddr::V6(bits) => seq!['['] + ipv6_text(bits) + seq![']', ':'] + decimal(
                a.port as nat,
            ),
        },
        a.ip.text() == match a.ip {
            IpAddr::V4(ip) => ipv4_text(ip),
            IpAddr::V6(bits) => ipv6_text(bits),
        },
{
    reveal_strlit(":");
    reveal_strlit("[");
    reveal_strlit("]:");
    assert(":"@ =~= seq![':']);
    assert("["@ =~= seq!['[']);
    assert("]:"@ =~= seq![']', ':']);
}

} // verus!
