//! What is fixed on a host, and what an operator may set.

use vstd::prelude::*;
use vstd::string::StringExecFns;

use super::addr::{IpAddr, SocketAddr};
use super::net::Ipv4Net;
use crate::config::auth::{quote, quoted};
use crate::text::{
    chars_of, lemma_split_of_one, lemma_split_of_two, pieces, split, split_on, string_of, texts, trim,
    trimmed,
};

verus! {

/// The bridge interface on the host.
pub const BRIDGE_NAME: &'static str = "bugpot0";

/// The table of packet rules.
pub const NFT_TABLE: &'static str = "bugpot";

/// Port of the name server on the bridge.
pub const DNS_PORT: u16 = 53;

/// How long a resolved address may be reached, in seconds.
pub const ALLOW_TTL_SECS: u32 = 60;

/// The subnet of the bridge: 172.20.0.0/24.
pub fn subnet() -> (r: Ipv4Net)
    ensures
        r == (Ipv4Net { addr: 0xac14_0000, prefix: 24 }),
        r.wf(),
{
    Ipv4Net { addr: 0xac14_0000, prefix: 24 }
}

/// The address of the bridge: 172.20.0.1.
pub fn bridge_ip() -> (r: u32)
    ensures
        r == 0xac14_0001,
{
    0xac14_0001
}

/// The bridge lies in its own subnet, and the subnet has other addresses to
/// give.
pub proof fn lemma_host_constants(subnet: Ipv4Net, bridge: u32)
    requires
        subnet == (Ipv4Net { addr: 0xac14_0000, prefix: 24 }),
        bridge == 0xac14_0001,
    ensures
        subnet.has(bridge),
        subnet.is_host(0xac14_0002),
        subnet.is_host(0xac14_00fe),
        !subnet.is_host(0xac14_00ff),
{
    vstd::arithmetic::power2::lemma2_to64();
    assert(0xac14_0000int % 256 == 0);
}

/// What an operator may set.
#[derive(Debug)]
pub struct EgressConfig {
    /// The name servers that permitted queries are handed to.
    pub dns_upstream: Vec<SocketAddr>,
}

impl Default for EgressConfig {
    fn default() -> (r: EgressConfig)
        ensures
            r.dns_upstream@ == EgressConfig::default_upstream(),
    {
        let mut dns_upstream: Vec<SocketAddr> = Vec::new();
        dns_upstream.push(SocketAddr { ip: IpAddr::V4(0x0101_0101), port: 53 });
        dns_upstream.push(SocketAddr { ip: IpAddr::V4(0x0808_0808), port: 53 });
        proof {
            assert(dns_upstream@ =~= EgressConfig::default_upstream());
        }
        EgressConfig { dns_upstream }
    }
}

impl EgressConfig {
    /// Two public name servers, `1.1.1.1` and `8.8.8.8`.
    pub open spec fn default_upstream() -> Seq<SocketAddr> {
        seq![
            SocketAddr { ip: IpAddr::V4(0x0101_0101), port: 53 },
            SocketAddr { ip: IpAddr::V4(0x0808_0808), port: 53 },
        ]
    }

    /// At least one name server is needed.
    pub fn validate(&self) -> (r: Result<(), String>)
        ensures
            match r {
                Ok(_) => self.dns_upstream@.len() > 0,
                Err(e) => self.dns_upstream@.len() == 0 && e@ == "dns_upstream is empty"@,
            },
    {
        if self.dns_upstream.len() == 0 {
            Err(String::from_str("dns_upstream is empty"))
        } else {
            Ok(())
        }
    }
}

/// The pieces of a list that are not blank, without the white space around
/// them.
pub open spec fn filled(parts: Seq<Seq<char>>) -> Seq<Seq<char>>
    decreases parts.len(),
{
    if parts.len() == 0 {
        seq![]
    } else {
        let last = trim(parts.last());
        if last.len() == 0 {
            filled(parts.drop_last())
        } else {
            filled(parts.drop_last()).push(last)
        }
    }
}

/// The entries of a list separated by commas.
pub open spec fn comma_entries(s: Seq<char>) -> Seq<Seq<char>> {
    filled(split(s, ','))
}

/// The entries of a list separated by commas. Blank ones are passed over.
pub fn split_entries(s: &str) -> (r: Vec<String>)
    ensures
        texts(r@) == comma_entries(s@),
{
    let v = chars_of(s);
    let parts = split_on(&v, ',');
    let ghost all = pieces(parts@);
    let mut out: Vec<String> = Vec::new();
    let mut i: usize = 0;
    proof {
        assert(texts(out@) =~= filled(all.take(0)));
    }
    while i < parts.len()
        invariant
            i <= parts@.len(),
            all == pieces(parts@),
            texts(out@) == filled(all.take(i as int)),
        decreases parts@.len() - i,
    {
        let ghost before = out@;
        proof {
            assert(all.take(i + 1).drop_last() =~= all.take(i as int));
            assert(all.take(i + 1).last() == parts@[i as int]@);
        }
        let entry = trimmed(&parts[i]);
        if entry.len() > 0 {
            let text = string_of(entry);
            out.push(text);
            proof {
                assert(texts(out@) =~= texts(before).push(text@));
            }
        }
        i += 1;
    }
    proof {
        assert(all.take(i as int) =~= all);
    }
    out
}

/// Reading a list of entries with `read` gave these addresses, in order.
pub open spec fn all_read<A, F: Fn(&str) -> Option<A>>(
    read: F,
    entries: Seq<Seq<char>>,
    addrs: Seq<A>,
) -> bool {
    &&& addrs.len() == entries.len()
    &&& forall|i: int|
        0 <= i < entries.len() ==> exists|t: &str|
            t@ == #[trigger] entries[i] && call_ensures(read, (t,), Some(addrs[i]))
}

/// Read a list of socket addresses separated by commas, such as
/// `1.1.1.1:53,8.8.8.8:53`, with `read` for each. Blank entries are passed over;
/// the first one that cannot be read is the error.
pub fn parse_dns_upstream<F: Fn(&str) -> Option<SocketAddr>>(s: &str, read: F) -> (r: Result<
    Vec<SocketAddr>,
    String,
>)
    requires
        forall|t: &str| call_requires(read, (t,)),
    ensures
        match r {
            Ok(addrs) => all_read(read, comma_entries(s@), addrs@),
            Err(e) => exists|i: int, before: Seq<SocketAddr>, t: &str| #![trigger
                    comma_entries(s@)[i], all_read(read, comma_entries(s@).take(i), before), t@]
                0 <= i < comma_entries(s@).len() && all_read(
                    read,
                    comma_entries(s@).take(i),
                    before,
                ) && t@ == comma_entries(s@)[i] && call_ensures(read, (t,), None) && e@
                    == "parse dns upstream entry "@ + quoted(t@),
        },
{
    let entries = split_entries(s);
    let ghost all = comma_entries(s@);
    let mut out: Vec<SocketAddr> = Vec::new();
    let mut i: usize = 0;
    while i < entries.len()
        invariant
            forall|t: &str| call_requires(read, (t,)),
            i <= entries@.len(),
            all == comma_entries(s@),
            texts(entries@) == all,
            all_read(read, all.take(i as int), out@),
        decreases entries@.len() - i,
    {
        let entry = entries[i].as_str();
        proof {
            assert(all[i as int] == entry@);
        }
        match read(entry) {
            Some(a) => {
                let ghost before = out@;
                out.push(a);
                proof {
                    assert forall|k: int| 0 <= k < all.take(i + 1).len() implies exists|t: &str|
                        t@ == #[trigger] all.take(i + 1)[k] && call_ensures(
                            read,
                            (t,),
                            Some(out@[k]),
                        ) by {
                        if k == i {
                            assert(entry@ == all.take(i + 1)[k]);
                        } else {
                            assert(all.take(i as int)[k] == all.take(i + 1)[k]);
                            assert(out@[k] == before[k]);
                        }
                    }
                }
            },
            None => {
                let mut e = String::from_str("parse dns upstream entry ");
                e.append(quote(entry).as_str());
                proof {
                    assert(entry@ == comma_entries(s@)[i as int]);
                    assert(all_read(read, comma_entries(s@).take(i as int), out@));
                }
                return Err(e);
            },
        }
        i += 1;
    }
    proof {
        assert(all.take(i as int) =~= all);
    }
    Ok(out)
}

proof fn lemma_filled_of_two(a: Seq<Seq<char>>, b: Seq<Seq<char>>)
    ensures
        filled(a + b) == filled(a) + filled(b),
    decreases b.len(),
{
    if b.len() == 0 {
        assert(a + b =~= a);
        assert(filled(a) + filled(b) =~= filled(a));
    } else {
        lemma_filled_of_two(a, b.drop_last());
        assert((a + b).drop_last() =~= a + b.drop_last());
        assert(filled(a + b) =~= filled(a) + filled(b));
    }
}

/// A list without commas is one entry, unless it is blank; the entries of two
/// lists with a comma between them are those of the first, then those of the
/// second.
pub proof fn lemma_comma_entries(entry: Seq<char>, a: Seq<char>, b: Seq<char>)
    requires
        forall|i: int| 0 <= i < entry.len() ==> entry[i] != ',',
    ensures
        comma_entries(entry) == if trim(entry).len() == 0 {
            seq![]
        } else {
            seq![trim(entry)]
        },
        comma_entries(a + seq![','] + b) == comma_entries(a) + comma_entries(b),
{
    lemma_split_of_one(entry, ',');
    let one = seq![entry];
    assert(one.drop_last() =~= seq![]);
    assert(filled(one.drop_last()) =~= seq![]);
    assert(comma_entries(entry) =~= if trim(entry).len() == 0 {
        seq![]
    } else {
        seq![trim(entry)]
    });
    lemma_split_of_two(a, b, ',');
    lemma_filled_of_two(split(a, ','), split(b, ','));
}

/// Where a list was read, each entry gave the address that stands at its place.
pub proof fn lemma_all_read<A, F: Fn(&str) -> Option<A>>(
    read: F,
    entries: Seq<Seq<char>>,
    addrs: Seq<A>,
    i: int,
)
    requires
        all_read(read, entries, addrs),
        0 <= i < entries.len(),
    ensures
        addrs.len() == entries.len(),
        exists|t: &str| #[trigger] t@ == entries[i] && call_ensures(read, (t,), Some(addrs[i])),
{
    let t = choose|t: &str| t@ == #[trigger] entries[i] && call_ensures(read, (t,), Some(addrs[i]));
    assert(t@ == entries[i]);
}

/// Where an operator sets nothing, queries go to 1.1.1.1 and 8.8.8.8, port 53.
pub proof fn lemma_default_upstream()
    ensures
        EgressConfig::default_upstream().len() == 2,
        EgressConfig::default_upstream()[0] == (SocketAddr {
            ip: IpAddr::V4((1 * 0x100_0000 + 1 * 0x1_0000 + 1 * 0x100 + 1) as u32),
            port: 53,
        }),
        EgressConfig::default_upstream()[1] == (SocketAddr {
            ip: IpAddr::V4((8 * 0x100_0000 + 8 * 0x1_0000 + 8 * 0x100 + 8) as u32),
            port: 53,
        }),
{
}

/// What is fixed on a host: the name of the bridge and of the table, the port of
/// the name server, and for how long a resolved address may be reached.
pub proof fn lemma_host_names()
    ensures
        BRIDGE_NAME@ == "bugpot0"@,
        NFT_TABLE@ == "bugpot"@,
        DNS_PORT == 53,
        ALLOW_TTL_SECS == 60,
{
}

} // verus!
