//! The packet rules, as scripts for `nft`.
//!
//! One table holds a set of (source, destination) pairs that time out, a chain
//! that forwards only what is in the set, and a chain that lets containers
//! reach nothing of the host but the name server on the bridge.

use vstd::prelude::*;
use vstd::string::StringExecFns;

use super::addr::{address_of, ipv4_text, lemma_address_of_text, parse_ipv4, show_ipv4};
use super::net::Ipv4Net;
use crate::number::{decimal, decimal_text};
use crate::text::texts;

verus! {

#[derive(Debug)]
pub struct NftConfig {
    pub table: String,
    pub bridge: String,
    pub subnet: Ipv4Net,
    pub bridge_ip: u32,
    pub dns_port: u16,
    pub allow_ttl_secs: u32,
}

/// Replace the table as a whole and declare the set of allowed pairs.
pub open spec fn table_and_set_text(cfg: NftConfig) -> Seq<char> {
    "add table inet "@ + cfg.table@ + "\ndelete table inet "@ + cfg.table@ + "\nadd table inet "@
        + cfg.table@ + "\nadd set inet "@ + cfg.table@
        + " allow4 { type ipv4_addr . ipv4_addr; flags timeout; timeout "@ + decimal(
        cfg.allow_ttl_secs as nat,
    ) + "s; }\n"@
}

/// Forward nothing but replies and pairs of the set; drop foreign name servers
/// before the set is asked.
pub open spec fn forward_text(cfg: NftConfig) -> Seq<char> {
    "add chain inet "@ + cfg.table@
        + " forward { type filter hook forward priority filter; policy drop; }\nadd rule inet "@
        + cfg.table@ + " forward ct state established,related accept\nadd rule inet "@ + cfg.table@
        + " forward ip saddr "@ + cfg.subnet.text()
        + " udp dport { 53, 853 } drop\nadd rule inet "@ + cfg.table@ + " forward ip saddr "@
        + cfg.subnet.text() + " tcp dport { 53, 853 } drop\nadd rule inet "@ + cfg.table@
        + " forward ip saddr . ip daddr @allow4 accept\nadd rule inet "@ + cfg.table@
        + " forward ip saddr "@ + cfg.subnet.text() + " log prefix \"bugpot-drop \" drop\n"@
}

/// From the bridge, accept replies and queries to the name server; drop
/// everything else that comes from the subnet.
pub open spec fn input_text(cfg: NftConfig) -> Seq<char> {
    "add chain inet "@ + cfg.table@
        + " input { type filter hook input priority filter; policy accept; }\nadd rule inet "@
        + cfg.table@ + " input iifname \""@ + cfg.bridge@
        + "\" ct state established,related accept\nadd rule inet "@ + cfg.table@
        + " input iifname \""@ + cfg.bridge@ + "\" ip daddr "@ + ipv4_text(cfg.bridge_ip)
        + " udp dport "@ + decimal(cfg.dns_port as nat) + " accept\nadd rule inet "@ + cfg.table@
        + " input iifname \""@ + cfg.bridge@ + "\" ip daddr "@ + ipv4_text(cfg.bridge_ip)
        + " tcp dport "@ + decimal(cfg.dns_port as nat) + " accept\nadd rule inet "@ + cfg.table@
        + " input iifname \""@ + cfg.bridge@ + "\" ip saddr "@ + cfg.subnet.text() + " drop\n"@
}

/// The script that sets everything up.
pub open spec fn bootstrap_text(cfg: NftConfig) -> Seq<char> {
    table_and_set_text(cfg) + forward_text(cfg) + input_text(cfg)
}

fn render_table_and_set(cfg: &NftConfig) -> (out: String)
    ensures
        out@ == table_and_set_text(*cfg),
{
    let mut out = String::from_str("add table inet ");
    out.append(cfg.table.as_str());
    out.append("\ndelete table inet ");
    out.append(cfg.table.as_str());
    out.append("\nadd table inet ");
    out.append(cfg.table.as_str());
    out.append("\nadd set inet ");
    out.append(cfg.table.as_str());
    out.append(" allow4 { type ipv4_addr . ipv4_addr; flags timeout; timeout ");
    out.append(decimal_text(cfg.allow_ttl_secs as u64).as_str());
    out.append("s; }\n");
    out
}

fn render_forward_chain(cfg: &NftConfig) -> (out: String)
    ensures
        out@ == forward_text(*cfg),
{
    let table = cfg.table.as_str();
    let subnet = cfg.subnet.show();
    let mut out = String::from_str("add chain inet ");
    out.append(table);
    out.append(
        " forward { type filter hook forward priority filter; policy drop; }\nadd rule inet ",
    );
    out.append(table);
    out.append(" forward ct state established,related accept\nadd rule inet ");
    out.append(table);
    out.append(" forward ip saddr ");
    out.append(subnet.as_str());
    out.append(" udp dport { 53, 853 } drop\nadd rule inet ");
    out.append(table);
    out.append(" forward ip saddr ");
    out.append(subnet.as_str());
    out.append(" tcp dport { 53, 853 } drop\nadd rule inet ");
    out.append(table);
    out.append(" forward ip saddr . ip daddr @allow4 accept\nadd rule inet ");
    out.append(table);
    out.append(" forward ip saddr ");
    out.append(subnet.as_str());
    out.append(" log prefix \"bugpot-drop \" drop\n");
    out
}

fn render_input_chain(cfg: &NftConfig) -> (out: String)
    ensures
        out@ == input_text(*cfg),
{
    let table = cfg.table.as_str();
    let bridge = cfg.bridge.as_str();
    let subnet = cfg.subnet.show();
    let ip = show_ipv4(cfg.bridge_ip);
    let port = decimal_text(cfg.dns_port as u64);
    let mut out = String::from_str("add chain inet ");
    out.append(table);
    out.append(
        " input { type filter hook input priority filter; policy accept; }\nadd rule inet ",
    );
    out.append(table);
    out.append(" input iifname \"");
    out.append(bridge);
    out.append("\" ct state established,related accept\nadd rule inet ");
    out.append(table);
    out.append(" input iifname \"");
    out.append(bridge);
    out.append("\" ip daddr ");
    out.append(ip.as_str());
    out.append(" udp dport ");
    out.append(port.as_str());
    out.append(" accept\nadd rule inet ");
    out.append(table);
    out.append(" input iifname \"");
    out.append(bridge);
    out.append("\" ip daddr ");
    out.append(ip.as_str());
    out.append(" tcp dport ");
    out.append(port.as_str());
    out.append(" accept\nadd rule inet ");
    out.append(table);
    out.append(" input iifname \"");
    out.append(bridge);
    out.append("\" ip saddr ");
    out.append(subnet.as_str());
    out.append(" drop\n");
    out
}

/// The script that sets up table, set and chains, replacing what was there.
pub fn render_bootstrap(cfg: &NftConfig) -> (out: String)
    ensures
        out@ == bootstrap_text(*cfg),
{
    let mut out = render_table_and_set(cfg);
    out.append(render_forward_chain(cfg).as_str());
    out.append(render_input_chain(cfg).as_str());
    out
}

/// The command that puts a pair into the set.
pub open spec fn add_allow_text(table: Seq<char>, src: u32, dst: u32) -> Seq<char> {
    "add element inet "@ + table + " allow4 { "@ + ipv4_text(src) + " . "@ + ipv4_text(dst)
        + " }"@
}

pub fn render_add_allow(table: &str, src: u32, dst: u32) -> (out: String)
    ensures
        out@ == add_allow_text(table@, src, dst),
{
    let mut out = String::from_str("add element inet ");
    out.append(table);
    out.append(" allow4 { ");
    out.append(show_ipv4(src).as_str());
    out.append(" . ");
    out.append(show_ipv4(dst).as_str());
    out.append(" }");
    out
}

/// The pair that a listed element stands for: its first two parts, if both are
/// addresses.
pub open spec fn pair_of(parts: Seq<Seq<char>>) -> Option<(u32, u32)> {
    if parts.len() < 2 || address_of(parts[0]) is None || address_of(parts[1]) is None {
        None
    } else {
        Some((address_of(parts[0])->0, address_of(parts[1])->0))
    }
}

/// The parts of each listed element.
pub open spec fn element_texts(elements: Seq<Vec<String>>) -> Seq<Seq<Seq<char>>> {
    elements.map_values(|e: Vec<String>| texts(e@))
}

/// The pairs among listed elements, in order.
pub open spec fn pairs_of(elements: Seq<Seq<Seq<char>>>) -> Seq<(u32, u32)>
    decreases elements.len(),
{
    if elements.len() == 0 {
        seq![]
    } else {
        match pair_of(elements.last()) {
            Some(p) => pairs_of(elements.drop_last()).push(p),
            None => pairs_of(elements.drop_last()),
        }
    }
}

fn decode_pair(parts: &Vec<String>) -> (r: Option<(u32, u32)>)
    ensures
        r == pair_of(texts(parts@)),
{
    if parts.len() < 2 {
        return None;
    }
    proof {
        assert(texts(parts@)[0] == parts@[0]@);
        assert(texts(parts@)[1] == parts@[1]@);
    }
    match parse_ipv4(parts[0].as_str()) {
        Some(src) => match parse_ipv4(parts[1].as_str()) {
            Some(dst) => Some((src, dst)),
            None => None,
        },
        None => None,
    }
}

/// The pairs that the listed elements of the set stand for. What is not a pair
/// of addresses is passed over.
pub fn decode_allow_set(elements: &Vec<Vec<String>>) -> (r: Vec<(u32, u32)>)
    ensures
        r@ == pairs_of(element_texts(elements@)),
{
    let mut out: Vec<(u32, u32)> = Vec::new();
    let ghost all = element_texts(elements@);
    let mut i: usize = 0;
    proof {
        assert(out@ =~= pairs_of(all.take(0)));
    }
    while i < elements.len()
        invariant
            i <= elements@.len(),
            all == element_texts(elements@),
            out@ == pairs_of(all.take(i as int)),
        decreases elements@.len() - i,
    {
        proof {
            assert(all.take(i + 1).drop_last() =~= all.take(i as int));
            assert(all.take(i + 1).last() == texts(elements@[i as int]@));
        }
        if let Some(p) = decode_pair(&elements[i]) {
            out.push(p);
        }
        i += 1;
    }
    proof {
        assert(all.take(i as int) =~= all);
    }
    out
}

/// The script that takes all pairs of a source out of the set.
pub open spec fn flush_text(table: Seq<char>, src: u32, pairs: Seq<(u32, u32)>) -> Seq<char>
    decreases pairs.len(),
{
    if pairs.len() == 0 {
        seq![]
    } else {
        let rest = flush_text(table, src, pairs.drop_last());
        let p = pairs.last();
        if p.0 == src {
            rest + "delete element inet "@ + table + " allow4 { "@ + ipv4_text(p.0) + " . "@
                + ipv4_text(p.1) + " }\n"@
        } else {
            rest
        }
    }
}

/// The script that takes all pairs of a source out of the set; empty if there
/// are none.
pub fn render_flush_src(table: &str, src: u32, pairs: &Vec<(u32, u32)>) -> (out: String)
    ensures
        out@ == flush_text(table@, src, pairs@),
{
    let mut out = String::new();
    let mut i: usize = 0;
    while i < pairs.len()
        invariant
            i <= pairs@.len(),
            out@ == flush_text(table@, src, pairs@.take(i as int)),
        decreases pairs@.len() - i,
    {
        proof {
            assert(pairs@.take(i + 1).drop_last() =~= pairs@.take(i as int));
        }
        let (s, d) = pairs[i];
        if s == src {
            out.append("delete element inet ");
            out.append(table);
            out.append(" allow4 { ");
            out.append(show_ipv4(s).as_str());
            out.append(" . ");
            out.append(show_ipv4(d).as_str());
            out.append(" }\n");
        }
        i += 1;
    }
    proof {
        assert(pairs@.take(i as int) =~= pairs@);
    }
    out
}

/// Pairs of other sources leave no trace in a flush: only those of the given
/// source are deleted.
pub proof fn lemma_flush_spares_others(table: Seq<char>, src: u32, pairs: Seq<(u32, u32)>)
    ensures
        flush_text(table, src, pairs) == flush_text(
            table,
            src,
            pairs.filter(|p: (u32, u32)| p.0 == src),
        ),
    decreases pairs.len(),
{
    reveal(Seq::filter);
    let own = |p: (u32, u32)| p.0 == src;
    if pairs.len() > 0 {
        lemma_flush_spares_others(table, src, pairs.drop_last());
        if pairs.last().0 == src {
            let kept = pairs.filter(own);
            assert(kept.drop_last() =~= pairs.drop_last().filter(own));
            assert(kept.last() == pairs.last());
        }
    }
}

/// A pair is put into the set and taken out of it by the same name: the addresses
/// of its source and its destination, in this order.
pub proof fn lemma_flush_undoes_allow(table: Seq<char>, src: u32, dst: u32)
    ensures
        ({
            let element = " element inet "@ + table + " allow4 { "@ + ipv4_text(src) + " . "@
                + ipv4_text(dst) + " }"@;
            &&& add_allow_text(table, src, dst) == "add"@ + element
            &&& flush_text(table, src, seq![(src, dst)]) == "delete"@ + element + "\n"@
        }),
{
    reveal_strlit("add");
    reveal_strlit("delete");
    reveal_strlit(" element inet ");
    reveal_strlit("add element inet ");
    reveal_strlit("delete element inet ");
    reveal_strlit(" }");
    reveal_strlit(" }\n");
    reveal_strlit("\n");
    assert("add element inet "@ =~= "add"@ + " element inet "@);
    assert("delete element inet "@ =~= "delete"@ + " element inet "@);
    assert(" }\n"@ =~= " }"@ + "\n"@);
    let element = " element inet "@ + table + " allow4 { "@ + ipv4_text(src) + " . "@ + ipv4_text(
        dst,
    ) + " }"@;
    assert(add_allow_text(table, src, dst) =~= "add"@ + element);
    let one = seq![(src, dst)];
    assert(one.drop_last() =~= Seq::<(u32, u32)>::empty());
    assert(flush_text(table, src, one.drop_last()) =~= Seq::<char>::empty());
    assert(flush_text(table, src, one) =~= "delete"@ + element + "\n"@);
}

/// A flush goes through the pairs one by one: each of the source is taken out,
/// however many others stand around it, and none of another source is.
pub proof fn lemma_flush_takes_each(
    table: Seq<char>,
    src: u32,
    before: Seq<(u32, u32)>,
    pair: (u32, u32),
    behind: Seq<(u32, u32)>,
)
    ensures
        flush_text(table, src, before.push(pair) + behind) == flush_text(table, src, before) + (
        if pair.0 == src {
            flush_text(table, src, seq![pair])
        } else {
            seq![]
        }) + flush_text(table, src, behind),
        pair.0 == src ==> flush_text(table, src, seq![pair]).len() > 0,
{
    lemma_flush_of_two(table, src, before.push(pair), behind);
    lemma_flush_of_two(table, src, before, seq![pair]);
    assert(before + seq![pair] =~= before.push(pair));
    let one = seq![pair];
    assert(one.drop_last() =~= Seq::<(u32, u32)>::empty());
    if pair.0 == src {
        lemma_flush_undoes_allow(table, pair.0, pair.1);
        reveal_strlit("delete");
        assert(one =~= seq![(pair.0, pair.1)]);
    } else {
        assert(flush_text(table, src, one) == flush_text(table, src, one.drop_last()));
    }
}

proof fn lemma_flush_of_two(
    table: Seq<char>,
    src: u32,
    a: Seq<(u32, u32)>,
    b: Seq<(u32, u32)>,
)
    ensures
        flush_text(table, src, a + b) == flush_text(table, src, a) + flush_text(table, src, b),
    decreases b.len(),
{
    let all = a + b;
    if b.len() == 0 {
        assert(all =~= a);
        assert(flush_text(table, src, a) + flush_text(table, src, b) =~= flush_text(table, src, a));
    } else {
        lemma_flush_of_two(table, src, a, b.drop_last());
        assert(all.drop_last() =~= a + b.drop_last());
        assert(all.last() == b.last());
        assert(flush_text(table, src, all) =~= flush_text(table, src, a) + flush_text(
            table,
            src,
            b,
        ));
    }
}

/// What is in the set is read back from its listing: each pair once and in order,
/// source first.
pub proof fn lemma_listing_reads_back(pairs: Seq<(u32, u32)>)
    ensures
        pairs_of(pairs.map_values(|p: (u32, u32)| seq![ipv4_text(p.0), ipv4_text(p.1)])) == pairs,
    decreases pairs.len(),
{
    let shown = |p: (u32, u32)| seq![ipv4_text(p.0), ipv4_text(p.1)];
    let all = pairs.map_values(shown);
    if pairs.len() > 0 {
        lemma_listing_reads_back(pairs.drop_last());
        assert(all.drop_last() =~= pairs.drop_last().map_values(shown));
        lemma_address_of_text(pairs.last().0);
        lemma_address_of_text(pairs.last().1);
        assert(all.last() == seq![ipv4_text(pairs.last().0), ipv4_text(pairs.last().1)]);
        assert(pairs =~= pairs.drop_last().push(pairs.last()));
    } else {
        assert(pairs_of(all) =~= pairs);
    }
}

/// An element that does not begin with two addresses is passed over.
pub proof fn lemma_odd_elements_are_passed_over(elements: Seq<Seq<Seq<char>>>, odd: Seq<Seq<char>>)
    requires
        odd.len() < 2 || (forall|ip: u32| odd[0] != #[trigger] ipv4_text(ip)) || (forall|ip: u32|
            odd[1] != #[trigger] ipv4_text(ip)),
    ensures
        pairs_of(elements.push(odd)) == pairs_of(elements),
{
    assert(elements.push(odd).drop_last() =~= elements);
    assert(elements.push(odd).last() == odd);
}

/// A listed element stands for a pair exactly if its first two parts are the
/// notation of two addresses, whatever follows them.
pub proof fn lemma_pair_of(parts: Seq<Seq<char>>, src: u32, dst: u32)
    ensures
        pair_of(parts) == Some((src, dst)) <==> parts.len() >= 2 && parts[0] == ipv4_text(src)
            && parts[1] == ipv4_text(dst),
{
    lemma_address_of_text(src);
    lemma_address_of_text(dst);
}

/// Each element that stands for a pair gives that pair, in its place.
pub proof fn lemma_pairs_of(elements: Seq<Seq<Seq<char>>>, e: Seq<Seq<char>>)
    ensures
        pairs_of(seq![]) == Seq::<(u32, u32)>::empty(),
        pair_of(e) matches Some(p) ==> pairs_of(elements.push(e)) == pairs_of(elements).push(p),
        pair_of(e) is None ==> pairs_of(elements.push(e)) == pairs_of(elements),
{
    assert(elements.push(e).drop_last() =~= elements);
}

} // verus!
