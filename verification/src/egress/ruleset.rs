//! What the packet rules mean: the script that sets them up, read the way `nft`
//! reads it, decides which packets pass.

use vstd::prelude::*;

use super::addr::{ipv4_text, lemma_ipv4_text_injective, octet_texts, octets};
use super::net::{ipv4_net_of, lemma_network_reads_back, Ipv4Net};
use super::nft::{bootstrap_text, forward_text, input_text, table_and_set_text, NftConfig};
use crate::number::{all_digits, decimal, is_digit, lemma_decimal_reads_back};
use crate::text::join;

verus! {

/// What a packet is carried by, as far as ports go.
pub enum Proto {
    Udp,
    Tcp,
    Other,
}

/// What rules look at in a packet.
pub struct Packet {
    /// The interface that it came in by.
    pub iif: Seq<char>,
    pub src: u32,
    pub dst: u32,
    pub proto: Proto,
    pub dport: u16,
    /// It belongs to a connection that is already open.
    pub reply: bool,
}

/// A network in the usual notation has the address.
pub open spec fn in_network(text: Seq<char>, ip: u32) -> bool {
    ipv4_net_of(text) matches Some(n) && (Ipv4Net { addr: n.0, prefix: n.1 }).has(ip)
}

/// What a rule, given in words, says of a packet: accept it or not, or nothing.
/// Its conditions are read from the left; all have to hold.
pub open spec fn rule_verdict(
    words: Seq<Seq<char>>,
    p: Packet,
    allowed: Set<(u32, u32)>,
) -> Option<bool>
    decreases words.len(),
{
    if words.len() == 0 {
        None
    } else if words[0] == "accept"@ {
        Some(true)
    } else if words[0] == "drop"@ {
        Some(false)
    } else if words[0] == "ct"@ {
        if words.len() > 3 && words[1] == "state"@ && words[2] == "established,related"@
            && p.reply {
            rule_verdict(words.skip(3), p, allowed)
        } else {
            None
        }
    } else if words[0] == "log"@ {
        if words.len() > 4 {
            rule_verdict(words.skip(4), p, allowed)
        } else {
            None
        }
    } else if words[0] == "iifname"@ {
        if words.len() > 2 && words[1] == "\""@ + p.iif + "\""@ {
            rule_verdict(words.skip(2), p, allowed)
        } else {
            None
        }
    } else if words[0] == "udp"@ || words[0] == "tcp"@ {
        let carried = if words[0] == "udp"@ {
            p.proto is Udp
        } else {
            p.proto is Tcp
        };
        if words.len() > 6 && words[1] == "dport"@ && words[2] == "{"@ && words[5] == "}"@ {
            if carried && (words[3] == decimal(p.dport as nat) + ","@ || words[4] == decimal(
                p.dport as nat,
            )) {
                rule_verdict(words.skip(6), p, allowed)
            } else {
                None
            }
        } else if words.len() > 3 && words[1] == "dport"@ && carried && words[2] == decimal(
            p.dport as nat,
        ) {
            rule_verdict(words.skip(3), p, allowed)
        } else {
            None
        }
    } else if words[0] == "ip"@ {
        if words.len() > 6 && words[1] == "saddr"@ && words[2] == "."@ && words[3] == "ip"@
            && words[4] == "daddr"@ && words[5] == "@allow4"@ {
            if allowed.contains((p.src, p.dst)) {
                rule_verdict(words.skip(6), p, allowed)
            } else {
                None
            }
        } else if words.len() > 3 && words[1] == "saddr"@ && in_network(words[2], p.src) {
            rule_verdict(words.skip(3), p, allowed)
        } else if words.len() > 3 && words[1] == "daddr"@ && words[2] == ipv4_text(p.dst) {
            rule_verdict(words.skip(3), p, allowed)
        } else {
            None
        }
    } else {
        None
    }
}

/// What a chain says of a packet: the first rule that says something decides,
/// and the policy where none does.
pub open spec fn chain_verdict(
    rules: Seq<Seq<Seq<char>>>,
    policy: bool,
    p: Packet,
    allowed: Set<(u32, u32)>,
) -> bool
    decreases rules.len(),
{
    if rules.len() == 0 {
        policy
    } else {
        match rule_verdict(rules[0], p, allowed) {
            Some(v) => v,
            None => chain_verdict(rules.drop_first(), policy, p, allowed),
        }
    }
}

/// The commands that add rules to a chain, a line each.
pub open spec fn rule_lines(
    table: Seq<char>,
    chain: Seq<char>,
    rules: Seq<Seq<Seq<char>>>,
) -> Seq<char>
    decreases rules.len(),
{
    if rules.len() == 0 {
        seq![]
    } else {
        "add rule inet "@ + table + " "@ + chain + " "@ + join(rules[0], ' ') + "\n"@ + rule_lines(
            table,
            chain,
            rules.drop_first(),
        )
    }
}

/// No word runs into the next: a rule falls into its words at blanks, and a
/// script into its rules at line feeds.
pub open spec fn words_are_plain(rules: Seq<Seq<Seq<char>>>) -> bool {
    forall|i: int, j: int|
        0 <= i < rules.len() && 0 <= j < rules[i].len() ==> plain(#[trigger] rules[i][j])
}

pub open spec fn plain(w: Seq<char>) -> bool {
    !w.contains(' ') && !w.contains('\n')
}

// ---- the words -------------------------------------------------------------

spec fn ports_rule(cfg: NftConfig, carrier: Seq<char>) -> Seq<Seq<char>> {
    seq![
        "ip"@,
        "saddr"@,
        cfg.subnet.text(),
        carrier,
        "dport"@,
        "{"@,
        "53,"@,
        "853"@,
        "}"@,
        "drop"@,
    ]
}

spec fn forward_rules(cfg: NftConfig) -> Seq<Seq<Seq<char>>> {
    seq![
        seq!["ct"@, "state"@, "established,related"@, "accept"@],
        ports_rule(cfg, "udp"@),
        ports_rule(cfg, "tcp"@),
        seq!["ip"@, "saddr"@, "."@, "ip"@, "daddr"@, "@allow4"@, "accept"@],
        seq![
            "ip"@,
            "saddr"@,
            cfg.subnet.text(),
            "log"@,
            "prefix"@,
            "\"bugpot-drop"@,
            "\""@,
            "drop"@,
        ],
    ]
}

spec fn port_rule(cfg: NftConfig, carrier: Seq<char>) -> Seq<Seq<char>> {
    seq![
        "iifname"@,
        "\""@ + cfg.bridge@ + "\""@,
        "ip"@,
        "daddr"@,
        ipv4_text(cfg.bridge_ip),
        carrier,
        "dport"@,
        decimal(cfg.dns_port as nat),
        "accept"@,
    ]
}

spec fn input_rules(cfg: NftConfig) -> Seq<Seq<Seq<char>>> {
    seq![
        seq![
            "iifname"@,
            "\""@ + cfg.bridge@ + "\""@,
            "ct"@,
            "state"@,
            "established,related"@,
            "accept"@,
        ],
        port_rule(cfg, "udp"@),
        port_rule(cfg, "tcp"@),
        seq!["iifname"@, "\""@ + cfg.bridge@ + "\""@, "ip"@, "saddr"@, cfg.subnet.text(), "drop"@],
    ]
}

proof fn lemma_words_differ()
    ensures
        "accept"@ != "drop"@,
        "ct"@ != "accept"@ && "ct"@ != "drop"@,
        "log"@ != "accept"@ && "log"@ != "drop"@ && "log"@ != "ct"@,
        "iifname"@ != "accept"@ && "iifname"@ != "drop"@ && "iifname"@ != "ct"@ && "iifname"@
            != "log"@,
        "udp"@ != "accept"@ && "udp"@ != "drop"@ && "udp"@ != "ct"@ && "udp"@ != "log"@ && "udp"@
            != "iifname"@ && "udp"@ != "tcp"@,
        "tcp"@ != "accept"@ && "tcp"@ != "drop"@ && "tcp"@ != "ct"@ && "tcp"@ != "log"@ && "tcp"@
            != "iifname"@,
        "ip"@ != "accept"@ && "ip"@ != "drop"@ && "ip"@ != "ct"@ && "ip"@ != "log"@ && "ip"@
            != "iifname"@ && "ip"@ != "udp"@ && "ip"@ != "tcp"@,
        "saddr"@ != "daddr"@,
{
    reveal_strlit("accept");
    reveal_strlit("drop");
    reveal_strlit("ct");
    reveal_strlit("log");
    reveal_strlit("iifname");
    reveal_strlit("udp");
    reveal_strlit("tcp");
    reveal_strlit("ip");
    reveal_strlit("saddr");
    reveal_strlit("daddr");
    assert("accept"@.len() == 6 && "drop"@.len() == 4 && "iifname"@.len() == 7);
    assert("ct"@.len() == 2 && "ip"@.len() == 2 && "log"@.len() == 3);
    assert("log"@[0] == 'l');
    assert("udp"@[0] == 'u');
    assert("tcp"@[0] == 't');
    assert("ct"@[0] == 'c');
    assert("ip"@[0] == 'i');
    assert("saddr"@[0] == 's');
    assert("daddr"@[0] == 'd');
}

proof fn lemma_digits_are_plain(s: Seq<char>)
    requires
        all_digits(s, 10),
    ensures
        plain(s),
{
    assert forall|i: int| 0 <= i < s.len() implies s[i] != ' ' && s[i] != '\n' by {
        assert(is_digit(s[i], 10));
    }
}

proof fn lemma_joined_is_plain(parts: Seq<Seq<char>>)
    requires
        forall|i: int| 0 <= i < parts.len() ==> plain(#[trigger] parts[i]),
    ensures
        plain(join(parts, '.')),
    decreases parts.len(),
{
    if parts.len() > 1 {
        let tail = parts.drop_first();
        assert forall|i: int| 0 <= i < tail.len() implies plain(#[trigger] tail[i]) by {
            assert(tail[i] == parts[i + 1]);
        }
        lemma_joined_is_plain(tail);
        lemma_sum_is_plain(seq!['.'], join(tail, '.'));
        lemma_sum_is_plain(parts[0], seq!['.'] + join(tail, '.'));
        assert(join(parts, '.') =~= parts[0] + (seq!['.'] + join(tail, '.')));
    }
}

proof fn lemma_sum_is_plain(a: Seq<char>, b: Seq<char>)
    requires
        plain(a),
        plain(b),
    ensures
        plain(a + b),
{
    let s = a + b;
    assert forall|i: int| 0 <= i < s.len() implies s[i] != ' ' && s[i] != '\n' by {
        if i < a.len() {
            assert(a.contains(s[i]));
        } else {
            assert(b[i - a.len()] == s[i]);
            assert(b.contains(s[i]));
        }
    }
}

proof fn lemma_notation_is_plain(net: Ipv4Net, ip: u32)
    ensures
        plain(ipv4_text(ip)),
        plain(net.text()),
{
    assert forall|a: u32| plain(#[trigger] ipv4_text(a)) by {
        let parts = octet_texts(a);
        assert forall|i: int| 0 <= i < parts.len() implies plain(#[trigger] parts[i]) by {
            lemma_decimal_reads_back(octets(a)[i]);
            lemma_digits_are_plain(parts[i]);
        }
        lemma_joined_is_plain(parts);
    }
    lemma_decimal_reads_back(net.prefix as nat);
    lemma_digits_are_plain(decimal(net.prefix as nat));
    reveal_strlit("/");
    assert(plain("/"@));
    lemma_sum_is_plain(ipv4_text(net.addr), "/"@);
    lemma_sum_is_plain(ipv4_text(net.addr) + "/"@, decimal(net.prefix as nat));
}


proof fn lemma_join_from(words: Seq<Seq<char>>, i: int)
    requires
        0 <= i < words.len(),
    ensures
        join(words.skip(i), ' ') == if i + 1 == words.len() {
            words[i]
        } else {
            words[i] + " "@ + join(words.skip(i + 1), ' ')
        },
{
    reveal_strlit(" ");
    let rest = words.skip(i);
    assert(rest[0] == words[i]);
    if i + 1 < words.len() {
        assert(rest.drop_first() =~= words.skip(i + 1));
        assert(" "@ =~= seq![' ']);
    }
}

/// The words of a rule, with blanks between them.
spec fn spaced(words: Seq<Seq<char>>, i: int) -> Seq<char>
    decreases i,
{
    if i <= 0 {
        seq![]
    } else if i == 1 {
        words[0]
    } else {
        spaced(words, i - 1) + " "@ + words[i - 1]
    }
}

proof fn lemma_spaced(words: Seq<Seq<char>>, i: int)
    requires
        0 < i <= words.len(),
    ensures
        join(words, ' ') == if i == words.len() {
            spaced(words, i)
        } else {
            spaced(words, i) + " "@ + join(words.skip(i), ' ')
        },
    decreases i,
{
    lemma_join_from(words, i - 1);
    if i == 1 {
        assert(words.skip(0) =~= words);
    } else {
        lemma_spaced(words, i - 1);
        let a = spaced(words, i - 1);
        let b = words[i - 1];
        if i < words.len() {
            let c = join(words.skip(i), ' ');
            assert(a + " "@ + (b + " "@ + c) =~= a + " "@ + b + " "@ + c);
        }
    }
}

/// The command that adds a rule to a chain.
spec fn rule_line(table: Seq<char>, chain: Seq<char>, words: Seq<Seq<char>>) -> Seq<char> {
    "add rule inet "@ + table + " "@ + chain + " "@ + join(words, ' ') + "\n"@
}

#[verifier::spinoff_prover]
#[verifier::rlimit(50)]
proof fn lemma_forward_replies(cfg: NftConfig)
    ensures
        rule_line(cfg.table@, "forward"@, forward_rules(cfg)[0]) == "add rule inet "@ + cfg.table@ + (" forward ct state established,related accept\n"@),
{
    reveal_strlit("\n");
    reveal_strlit(" ");
    reveal_strlit(" forward ct state established,related accept\n");
    reveal_strlit("accept");
    reveal_strlit("ct");
    reveal_strlit("established,related");
    reveal_strlit("forward");
    reveal_strlit("state");
    let words = forward_rules(cfg)[0];
    lemma_spaced(words, 4);
    reveal_with_fuel(spaced, 5);
    assert(" forward ct state established,related accept\n"@ =~= " "@ + "forward"@ + " "@ + "ct"@ + " "@ + "state"@ + " "@ + "established,related"@ + " "@ + "accept"@ + "\n"@);
    let tail = " forward ct state established,related accept\n"@;
    assert(rule_line(cfg.table@, "forward"@, words) =~= "add rule inet "@ + cfg.table@ + tail);
}

#[verifier::spinoff_prover]
#[verifier::rlimit(50)]
proof fn lemma_forward_udp(cfg: NftConfig)
    ensures
        rule_line(cfg.table@, "forward"@, forward_rules(cfg)[1]) == "add rule inet "@ + cfg.table@ + (" forward ip saddr "@ + cfg.subnet.text() + " udp dport { 53, 853 } drop\n"@),
{
    reveal_strlit("\n");
    reveal_strlit(" ");
    reveal_strlit(" forward ip saddr ");
    reveal_strlit(" udp dport { 53, 853 } drop\n");
    reveal_strlit("53,");
    reveal_strlit("853");
    reveal_strlit("dport");
    reveal_strlit("drop");
    reveal_strlit("forward");
    reveal_strlit("ip");
    reveal_strlit("saddr");
    reveal_strlit("udp");
    reveal_strlit("{");
    reveal_strlit("}");
    let words = forward_rules(cfg)[1];
    lemma_spaced(words, 10);
    reveal_with_fuel(spaced, 11);
    assert(" forward ip saddr "@ =~= " "@ + "forward"@ + " "@ + "ip"@ + " "@ + "saddr"@ + " "@);
    assert(" udp dport { 53, 853 } drop\n"@ =~= " "@ + "udp"@ + " "@ + "dport"@ + " "@ + "{"@ + " "@ + "53,"@ + " "@ + "853"@ + " "@ + "}"@ + " "@ + "drop"@ + "\n"@);
    let tail = " forward ip saddr "@ + cfg.subnet.text() + " udp dport { 53, 853 } drop\n"@;
    assert(rule_line(cfg.table@, "forward"@, words) =~= "add rule inet "@ + cfg.table@ + tail);
}

#[verifier::spinoff_prover]
#[verifier::rlimit(50)]
proof fn lemma_forward_tcp(cfg: NftConfig)
    ensures
        rule_line(cfg.table@, "forward"@, forward_rules(cfg)[2]) == "add rule inet "@ + cfg.table@ + (" forward ip saddr "@ + cfg.subnet.text() + " tcp dport { 53, 853 } drop\n"@),
{
    reveal_strlit("\n");
    reveal_strlit(" ");
    reveal_strlit(" forward ip saddr ");
    reveal_strlit(" tcp dport { 53, 853 } drop\n");
    reveal_strlit("53,");
    reveal_strlit("853");
    reveal_strlit("dport");
    reveal_strlit("drop");
    reveal_strlit("forward");
    reveal_strlit("ip");
    reveal_strlit("saddr");
    reveal_strlit("tcp");
    reveal_strlit("{");
    reveal_strlit("}");
    let words = forward_rules(cfg)[2];
    lemma_spaced(words, 10);
    reveal_with_fuel(spaced, 11);
    assert(" forward ip saddr "@ =~= " "@ + "forward"@ + " "@ + "ip"@ + " "@ + "saddr"@ + " "@);
    assert(" tcp dport { 53, 853 } drop\n"@ =~= " "@ + "tcp"@ + " "@ + "dport"@ + " "@ + "{"@ + " "@ + "53,"@ + " "@ + "853"@ + " "@ + "}"@ + " "@ + "drop"@ + "\n"@);
    let tail = " forward ip saddr "@ + cfg.subnet.text() + " tcp dport { 53, 853 } drop\n"@;
    assert(rule_line(cfg.table@, "forward"@, words) =~= "add rule inet "@ + cfg.table@ + tail);
}

#[verifier::spinoff_prover]
#[verifier::rlimit(50)]
proof fn lemma_forward_pairs(cfg: NftConfig)
    ensures
        rule_line(cfg.table@, "forward"@, forward_rules(cfg)[3]) == "add rule inet "@ + cfg.table@ + (" forward ip saddr . ip daddr @allow4 accept\n"@),
{
    reveal_strlit("\n");
    reveal_strlit(" ");
    reveal_strlit(" forward ip saddr . ip daddr @allow4 accept\n");
    reveal_strlit(".");
    reveal_strlit("@allow4");
    reveal_strlit("accept");
    reveal_strlit("daddr");
    reveal_strlit("forward");
    reveal_strlit("ip");
    reveal_strlit("saddr");
    let words = forward_rules(cfg)[3];
    lemma_spaced(words, 7);
    reveal_with_fuel(spaced, 8);
    assert(" forward ip saddr . ip daddr @allow4 accept\n"@ =~= " "@ + "forward"@ + " "@ + "ip"@ + " "@ + "saddr"@ + " "@ + "."@ + " "@ + "ip"@ + " "@ + "daddr"@ + " "@ + "@allow4"@ + " "@ + "accept"@ + "\n"@);
    let tail = " forward ip saddr . ip daddr @allow4 accept\n"@;
    assert(rule_line(cfg.table@, "forward"@, words) =~= "add rule inet "@ + cfg.table@ + tail);
}

#[verifier::spinoff_prover]
#[verifier::rlimit(50)]
proof fn lemma_forward_rest(cfg: NftConfig)
    ensures
        rule_line(cfg.table@, "forward"@, forward_rules(cfg)[4]) == "add rule inet "@ + cfg.table@ + (" forward ip saddr "@ + cfg.subnet.text() + " log prefix \"bugpot-drop \" drop\n"@),
{
    reveal_strlit("\n");
    reveal_strlit(" ");
    reveal_strlit(" forward ip saddr ");
    reveal_strlit(" log prefix \"bugpot-drop \" drop\n");
    reveal_strlit("\"");
    reveal_strlit("\"bugpot-drop");
    reveal_strlit("drop");
    reveal_strlit("forward");
    reveal_strlit("ip");
    reveal_strlit("log");
    reveal_strlit("prefix");
    reveal_strlit("saddr");
    let words = forward_rules(cfg)[4];
    lemma_spaced(words, 8);
    reveal_with_fuel(spaced, 9);
    assert(" forward ip saddr "@ =~= " "@ + "forward"@ + " "@ + "ip"@ + " "@ + "saddr"@ + " "@);
    assert(" log prefix \"bugpot-drop \" drop\n"@ =~= " "@ + "log"@ + " "@ + "prefix"@ + " "@ + "\"bugpot-drop"@ + " "@ + "\""@ + " "@ + "drop"@ + "\n"@);
    let tail = " forward ip saddr "@ + cfg.subnet.text() + " log prefix \"bugpot-drop \" drop\n"@;
    assert(rule_line(cfg.table@, "forward"@, words) =~= "add rule inet "@ + cfg.table@ + tail);
}

#[verifier::spinoff_prover]
#[verifier::rlimit(50)]
proof fn lemma_input_replies(cfg: NftConfig)
    ensures
        rule_line(cfg.table@, "input"@, input_rules(cfg)[0]) == "add rule inet "@ + cfg.table@ + (" input iifname \""@ + cfg.bridge@ + "\" ct state established,related accept\n"@),
{
    reveal_strlit("\n");
    reveal_strlit(" ");
    reveal_strlit(" input iifname \"");
    reveal_strlit("\"");
    reveal_strlit("\" ct state established,related accept\n");
    reveal_strlit("accept");
    reveal_strlit("ct");
    reveal_strlit("established,related");
    reveal_strlit("iifname");
    reveal_strlit("input");
    reveal_strlit("state");
    let words = input_rules(cfg)[0];
    lemma_spaced(words, 6);
    reveal_with_fuel(spaced, 7);
    assert(" input iifname \""@ =~= " "@ + "input"@ + " "@ + "iifname"@ + " "@ + "\""@);
    assert("\" ct state established,related accept\n"@ =~= "\""@ + " "@ + "ct"@ + " "@ + "state"@ + " "@ + "established,related"@ + " "@ + "accept"@ + "\n"@);
    let tail = " input iifname \""@ + cfg.bridge@ + "\" ct state established,related accept\n"@;
    assert(rule_line(cfg.table@, "input"@, words) =~= "add rule inet "@ + cfg.table@ + tail);
}

#[verifier::spinoff_prover]
#[verifier::rlimit(50)]
proof fn lemma_input_udp(cfg: NftConfig)
    ensures
        rule_line(cfg.table@, "input"@, input_rules(cfg)[1]) == "add rule inet "@ + cfg.table@ + (" input iifname \""@ + cfg.bridge@ + "\" ip daddr "@ + ipv4_text(cfg.bridge_ip) + " udp dport "@ + decimal(cfg.dns_port as nat) + " accept\n"@),
{
    reveal_strlit("\n");
    reveal_strlit(" ");
    reveal_strlit(" accept\n");
    reveal_strlit(" input iifname \"");
    reveal_strlit(" udp dport ");
    reveal_strlit("\"");
    reveal_strlit("\" ip daddr ");
    reveal_strlit("accept");
    reveal_strlit("daddr");
    reveal_strlit("dport");
    reveal_strlit("iifname");
    reveal_strlit("input");
    reveal_strlit("ip");
    reveal_strlit("udp");
    let words = input_rules(cfg)[1];
    lemma_spaced(words, 9);
    reveal_with_fuel(spaced, 10);
    assert(" input iifname \""@ =~= " "@ + "input"@ + " "@ + "iifname"@ + " "@ + "\""@);
    assert("\" ip daddr "@ =~= "\""@ + " "@ + "ip"@ + " "@ + "daddr"@ + " "@);
    assert(" udp dport "@ =~= " "@ + "udp"@ + " "@ + "dport"@ + " "@);
    assert(" accept\n"@ =~= " "@ + "accept"@ + "\n"@);
    let tail = " input iifname \""@ + cfg.bridge@ + "\" ip daddr "@ + ipv4_text(cfg.bridge_ip) + " udp dport "@ + decimal(cfg.dns_port as nat) + " accept\n"@;
    assert(rule_line(cfg.table@, "input"@, words) =~= "add rule inet "@ + cfg.table@ + tail);
}

#[verifier::spinoff_prover]
#[verifier::rlimit(50)]
proof fn lemma_input_tcp(cfg: NftConfig)
    ensures
        rule_line(cfg.table@, "input"@, input_rules(cfg)[2]) == "add rule inet "@ + cfg.table@ + (" input iifname \""@ + cfg.bridge@ + "\" ip daddr "@ + ipv4_text(cfg.bridge_ip) + " tcp dport "@ + decimal(cfg.dns_port as nat) + " accept\n"@),
{
    reveal_strlit("\n");
    reveal_strlit(" ");
    reveal_strlit(" accept\n");
    reveal_strlit(" input iifname \"");
    reveal_strlit(" tcp dport ");
    reveal_strlit("\"");
    reveal_strlit("\" ip daddr ");
    reveal_strlit("accept");
    reveal_strlit("daddr");
    reveal_strlit("dport");
    reveal_strlit("iifname");
    reveal_strlit("input");
    reveal_strlit("ip");
    reveal_strlit("tcp");
    let words = input_rules(cfg)[2];
    lemma_spaced(words, 9);
    reveal_with_fuel(spaced, 10);
    assert(" input iifname \""@ =~= " "@ + "input"@ + " "@ + "iifname"@ + " "@ + "\""@);
    assert("\" ip daddr "@ =~= "\""@ + " "@ + "ip"@ + " "@ + "daddr"@ + " "@);
    assert(" tcp dport "@ =~= " "@ + "tcp"@ + " "@ + "dport"@ + " "@);
    assert(" accept\n"@ =~= " "@ + "accept"@ + "\n"@);
    let tail = " input iifname \""@ + cfg.bridge@ + "\" ip daddr "@ + ipv4_text(cfg.bridge_ip) + " tcp dport "@ + decimal(cfg.dns_port as nat) + " accept\n"@;
    assert(rule_line(cfg.table@, "input"@, words) =~= "add rule inet "@ + cfg.table@ + tail);
}

#[verifier::spinoff_prover]
#[verifier::rlimit(50)]
proof fn lemma_input_rest(cfg: NftConfig)
    ensures
        rule_line(cfg.table@, "input"@, input_rules(cfg)[3]) == "add rule inet "@ + cfg.table@ + (" input iifname \""@ + cfg.bridge@ + "\" ip saddr "@ + cfg.subnet.text() + " drop\n"@),
{
    reveal_strlit("\n");
    reveal_strlit(" ");
    reveal_strlit(" drop\n");
    reveal_strlit(" input iifname \"");
    reveal_strlit("\"");
    reveal_strlit("\" ip saddr ");
    reveal_strlit("drop");
    reveal_strlit("iifname");
    reveal_strlit("input");
    reveal_strlit("ip");
    reveal_strlit("saddr");
    let words = input_rules(cfg)[3];
    lemma_spaced(words, 6);
    reveal_with_fuel(spaced, 7);
    assert(" input iifname \""@ =~= " "@ + "input"@ + " "@ + "iifname"@ + " "@ + "\""@);
    assert("\" ip saddr "@ =~= "\""@ + " "@ + "ip"@ + " "@ + "saddr"@ + " "@);
    assert(" drop\n"@ =~= " "@ + "drop"@ + "\n"@);
    let tail = " input iifname \""@ + cfg.bridge@ + "\" ip saddr "@ + cfg.subnet.text() + " drop\n"@;
    assert(rule_line(cfg.table@, "input"@, words) =~= "add rule inet "@ + cfg.table@ + tail);
}

/// The commands that fill the chain are those of its rules, in order.
#[verifier::spinoff_prover]
#[verifier::rlimit(80)]
proof fn lemma_forward_lines(cfg: NftConfig)
    ensures
        forward_text(cfg) == "add chain inet "@ + cfg.table@ + " forward { type filter hook forward priority filter; policy drop; }\n"@ + rule_lines(
            cfg.table@,
            "forward"@,
            forward_rules(cfg),
        ),
{
    let add = "add rule inet "@;
    let table = cfg.table@;
    let all = forward_rules(cfg);
    lemma_forward_replies(cfg);
    lemma_forward_udp(cfg);
    lemma_forward_tcp(cfg);
    lemma_forward_pairs(cfg);
    lemma_forward_rest(cfg);
    reveal_strlit(" forward ct state established,related accept\n");
    reveal_strlit(" forward ct state established,related accept\nadd rule inet ");
    reveal_strlit(" forward ip saddr . ip daddr @allow4 accept\n");
    reveal_strlit(" forward ip saddr . ip daddr @allow4 accept\nadd rule inet ");
    reveal_strlit(" forward { type filter hook forward priority filter; policy drop; }\n");
    reveal_strlit(" forward { type filter hook forward priority filter; policy drop; }\nadd rule inet ");
    reveal_strlit(" log prefix \"bugpot-drop \" drop\n");
    reveal_strlit(" tcp dport { 53, 853 } drop\n");
    reveal_strlit(" tcp dport { 53, 853 } drop\nadd rule inet ");
    reveal_strlit(" udp dport { 53, 853 } drop\n");
    reveal_strlit(" udp dport { 53, 853 } drop\nadd rule inet ");
    reveal_strlit("add rule inet ");
    assert(" forward { type filter hook forward priority filter; policy drop; }\nadd rule inet "@ =~= " forward { type filter hook forward priority filter; policy drop; }\n"@ + add);
    assert(" forward ct state established,related accept\nadd rule inet "@ =~= " forward ct state established,related accept\n"@ + add);
    assert(" udp dport { 53, 853 } drop\nadd rule inet "@ =~= " udp dport { 53, 853 } drop\n"@ + add);
    assert(" tcp dport { 53, 853 } drop\nadd rule inet "@ =~= " tcp dport { 53, 853 } drop\n"@ + add);
    assert(" forward ip saddr . ip daddr @allow4 accept\nadd rule inet "@ =~= " forward ip saddr . ip daddr @allow4 accept\n"@ + add);
    let l0 = rule_line(table, "forward"@, all[0]);
    let l1 = rule_line(table, "forward"@, all[1]);
    let l2 = rule_line(table, "forward"@, all[2]);
    let l3 = rule_line(table, "forward"@, all[3]);
    let l4 = rule_line(table, "forward"@, all[4]);
    let b = "add chain inet "@ + table + " forward { type filter hook forward priority filter; policy drop; }\n"@;
    let a0 = "add chain inet "@ + table + " forward { type filter hook forward priority filter; policy drop; }\nadd rule inet "@;
    assert(a0 =~= b + add);
    let a1 = a0 + table + " forward ct state established,related accept\nadd rule inet "@;
    let b1 = b + l0;
    assert(a1 =~= b1 + add);
    let a2 = a1 + table + " forward ip saddr "@ + cfg.subnet.text() + " udp dport { 53, 853 } drop\nadd rule inet "@;
    let b2 = b1 + l1;
    assert(a2 =~= b2 + add);
    let a3 = a2 + table + " forward ip saddr "@ + cfg.subnet.text() + " tcp dport { 53, 853 } drop\nadd rule inet "@;
    let b3 = b2 + l2;
    assert(a3 =~= b3 + add);
    let a4 = a3 + table + " forward ip saddr . ip daddr @allow4 accept\nadd rule inet "@;
    let b4 = b3 + l3;
    assert(a4 =~= b4 + add);
    let a5 = a4 + table + " forward ip saddr "@ + cfg.subnet.text() + " log prefix \"bugpot-drop \" drop\n"@;
    let b5 = b4 + l4;
    assert(a5 =~= b5);
    assert(forward_text(cfg) == a5);
    assert(rule_lines(table, "forward"@, all.skip(5)) == Seq::<char>::empty());
    assert(all.skip(4)[0] == all[4] && all.skip(4).drop_first() =~= all.skip(5));
    assert(rule_lines(table, "forward"@, all.skip(4)) == l4 + rule_lines(table, "forward"@, all.skip(5)));
    assert(all.skip(3)[0] == all[3] && all.skip(3).drop_first() =~= all.skip(4));
    assert(rule_lines(table, "forward"@, all.skip(3)) == l3 + rule_lines(table, "forward"@, all.skip(4)));
    assert(all.skip(2)[0] == all[2] && all.skip(2).drop_first() =~= all.skip(3));
    assert(rule_lines(table, "forward"@, all.skip(2)) == l2 + rule_lines(table, "forward"@, all.skip(3)));
    assert(all.skip(1)[0] == all[1] && all.skip(1).drop_first() =~= all.skip(2));
    assert(rule_lines(table, "forward"@, all.skip(1)) == l1 + rule_lines(table, "forward"@, all.skip(2)));
    assert(all.skip(0)[0] == all[0] && all.skip(0).drop_first() =~= all.skip(1));
    assert(rule_lines(table, "forward"@, all.skip(0)) == l0 + rule_lines(table, "forward"@, all.skip(1)));
    assert(all.skip(0) =~= all);
    let r4 = rule_lines(table, "forward"@, all.skip(4));
    let r3 = rule_lines(table, "forward"@, all.skip(3));
    let r2 = rule_lines(table, "forward"@, all.skip(2));
    let r1 = rule_lines(table, "forward"@, all.skip(1));
    let r0 = rule_lines(table, "forward"@, all.skip(0));
    assert(b5 =~= b4 + r4);
    assert(b4 + r4 =~= b3 + r3);
    assert(b3 + r3 =~= b2 + r2);
    assert(b2 + r2 =~= b1 + r1);
    assert(b1 + r1 =~= b + r0);
}

/// The commands that fill the chain are those of its rules, in order.
#[verifier::spinoff_prover]
#[verifier::rlimit(80)]
proof fn lemma_input_lines(cfg: NftConfig)
    ensures
        input_text(cfg) == "add chain inet "@ + cfg.table@ + " input { type filter hook input priority filter; policy accept; }\n"@ + rule_lines(
            cfg.table@,
            "input"@,
            input_rules(cfg),
        ),
{
    let add = "add rule inet "@;
    let table = cfg.table@;
    let all = input_rules(cfg);
    lemma_input_replies(cfg);
    lemma_input_udp(cfg);
    lemma_input_tcp(cfg);
    lemma_input_rest(cfg);
    reveal_strlit(" accept\n");
    reveal_strlit(" accept\nadd rule inet ");
    reveal_strlit(" drop\n");
    reveal_strlit(" input { type filter hook input priority filter; policy accept; }\n");
    reveal_strlit(" input { type filter hook input priority filter; policy accept; }\nadd rule inet ");
    reveal_strlit("\" ct state established,related accept\n");
    reveal_strlit("\" ct state established,related accept\nadd rule inet ");
    reveal_strlit("add rule inet ");
    assert(" input { type filter hook input priority filter; policy accept; }\nadd rule inet "@ =~= " input { type filter hook input priority filter; policy accept; }\n"@ + add);
    assert("\" ct state established,related accept\nadd rule inet "@ =~= "\" ct state established,related accept\n"@ + add);
    assert(" accept\nadd rule inet "@ =~= " accept\n"@ + add);
    assert(" accept\nadd rule inet "@ =~= " accept\n"@ + add);
    let l0 = rule_line(table, "input"@, all[0]);
    let l1 = rule_line(table, "input"@, all[1]);
    let l2 = rule_line(table, "input"@, all[2]);
    let l3 = rule_line(table, "input"@, all[3]);
    let b = "add chain inet "@ + table + " input { type filter hook input priority filter; policy accept; }\n"@;
    let a0 = "add chain inet "@ + table + " input { type filter hook input priority filter; policy accept; }\nadd rule inet "@;
    assert(a0 =~= b + add);
    let a1 = a0 + table + " input iifname \""@ + cfg.bridge@ + "\" ct state established,related accept\nadd rule inet "@;
    let b1 = b + l0;
    assert(a1 =~= b1 + add);
    let a2 = a1 + table + " input iifname \""@ + cfg.bridge@ + "\" ip daddr "@ + ipv4_text(cfg.bridge_ip) + " udp dport "@ + decimal(cfg.dns_port as nat) + " accept\nadd rule inet "@;
    let b2 = b1 + l1;
    assert(a2 =~= b2 + add);
    let a3 = a2 + table + " input iifname \""@ + cfg.bridge@ + "\" ip daddr "@ + ipv4_text(cfg.bridge_ip) + " tcp dport "@ + decimal(cfg.dns_port as nat) + " accept\nadd rule inet "@;
    let b3 = b2 + l2;
    assert(a3 =~= b3 + add);
    let a4 = a3 + table + " input iifname \""@ + cfg.bridge@ + "\" ip saddr "@ + cfg.subnet.text() + " drop\n"@;
    let b4 = b3 + l3;
    assert(a4 =~= b4);
    assert(input_text(cfg) == a4);
    assert(rule_lines(table, "input"@, all.skip(4)) == Seq::<char>::empty());
    assert(all.skip(3)[0] == all[3] && all.skip(3).drop_first() =~= all.skip(4));
    assert(rule_lines(table, "input"@, all.skip(3)) == l3 + rule_lines(table, "input"@, all.skip(4)));
    assert(all.skip(2)[0] == all[2] && all.skip(2).drop_first() =~= all.skip(3));
    assert(rule_lines(table, "input"@, all.skip(2)) == l2 + rule_lines(table, "input"@, all.skip(3)));
    assert(all.skip(1)[0] == all[1] && all.skip(1).drop_first() =~= all.skip(2));
    assert(rule_lines(table, "input"@, all.skip(1)) == l1 + rule_lines(table, "input"@, all.skip(2)));
    assert(all.skip(0)[0] == all[0] && all.skip(0).drop_first() =~= all.skip(1));
    assert(rule_lines(table, "input"@, all.skip(0)) == l0 + rule_lines(table, "input"@, all.skip(1)));
    assert(all.skip(0) =~= all);
    let r3 = rule_lines(table, "input"@, all.skip(3));
    let r2 = rule_lines(table, "input"@, all.skip(2));
    let r1 = rule_lines(table, "input"@, all.skip(1));
    let r0 = rule_lines(table, "input"@, all.skip(0));
    assert(b4 =~= b3 + r3);
    assert(b3 + r3 =~= b2 + r2);
    assert(b2 + r2 =~= b1 + r1);
    assert(b1 + r1 =~= b + r0);
}

// ---- laws ------------------------------------------------------------------

/// The container side of the packet filter. The script sets up a chain that drops
/// what no rule takes, and its rules, read in order, decide:
/// packets of open connections pass; packets of the subnet to the ports of name
/// servers elsewhere are dropped, whatever was resolved; of all others exactly
/// those pass whose source and destination are a pair of the set.
#[verifier::rlimit(50)]
pub proof fn lemma_forward_chain(cfg: NftConfig, p: Packet, allowed: Set<(u32, u32)>)
    requires
        cfg.subnet.wf(),
    ensures
        exists|rules: Seq<Seq<Seq<char>>>|
            {
                &&& words_are_plain(rules)
                &&& forward_text(cfg) == "add chain inet "@ + cfg.table@
                    + " forward { type filter hook forward priority filter; policy drop; }\n"@
                    + #[trigger] rule_lines(cfg.table@, "forward"@, rules)
                &&& chain_verdict(rules, false, p, allowed) == (p.reply || (allowed.contains(
                    (p.src, p.dst),
                ) && !(cfg.subnet.has(p.src) && !(p.proto is Other) && (p.dport == 53 || p.dport
                    == 853))))
            },
{
    let rules = forward_rules(cfg);
    lemma_forward_lines(cfg);
    lemma_notation_is_plain(cfg.subnet, 0);
    lemma_words_of_forward(cfg);
    lemma_forward_verdicts(cfg, p, allowed);
    lemma_chain_from(rules, 0, false, p, allowed);
    lemma_chain_from(rules, 1, false, p, allowed);
    lemma_chain_from(rules, 2, false, p, allowed);
    lemma_chain_from(rules, 3, false, p, allowed);
    lemma_chain_from(rules, 4, false, p, allowed);
    assert(rules.skip(0) =~= rules);
}

proof fn lemma_chain_from(
    rules: Seq<Seq<Seq<char>>>,
    i: int,
    policy: bool,
    p: Packet,
    allowed: Set<(u32, u32)>,
)
    requires
        0 <= i < rules.len(),
    ensures
        chain_verdict(rules.skip(i), policy, p, allowed) == match rule_verdict(
            rules[i],
            p,
            allowed,
        ) {
            Some(v) => v,
            None => if i + 1 == rules.len() {
                policy
            } else {
                chain_verdict(rules.skip(i + 1), policy, p, allowed)
            },
        },
{
    let rest = rules.skip(i);
    assert(rest[0] == rules[i]);
    assert(rest.drop_first() =~= rules.skip(i + 1));
    if i + 1 == rules.len() {
        assert(chain_verdict(rules.skip(i + 1), policy, p, allowed) == policy);
    }
}

/// What each rule of the forward chain says of a packet.
#[verifier::rlimit(50)]
proof fn lemma_forward_verdicts(cfg: NftConfig, p: Packet, allowed: Set<(u32, u32)>)
    requires
        cfg.subnet.wf(),
    ensures
        rule_verdict(forward_rules(cfg)[0], p, allowed) == if p.reply {
            Some(true)
        } else {
            None
        },
        rule_verdict(forward_rules(cfg)[1], p, allowed) == if cfg.subnet.has(p.src) && p.proto is Udp
            && (p.dport == 53 || p.dport == 853) {
            Some(false)
        } else {
            None
        },
        rule_verdict(forward_rules(cfg)[2], p, allowed) == if cfg.subnet.has(p.src) && p.proto is Tcp
            && (p.dport == 53 || p.dport == 853) {
            Some(false)
        } else {
            None
        },
        rule_verdict(forward_rules(cfg)[3], p, allowed) == if allowed.contains((p.src, p.dst)) {
            Some(true)
        } else {
            None
        },
        rule_verdict(forward_rules(cfg)[4], p, allowed) == if cfg.subnet.has(p.src) {
            Some(false)
        } else {
            None
        },
{
    lemma_last_word(p, allowed);
    lemma_words_differ();
    let rules = forward_rules(cfg);
    assert(rules[0].skip(3) =~= seq!["accept"@]);
    lemma_ports_rule(cfg, "udp"@, p, allowed);
    lemma_ports_rule(cfg, "tcp"@, p, allowed);
    assert(rules[3].skip(6) =~= seq!["accept"@]);
    let log = rules[4].skip(3);
    assert(log =~= seq!["log"@, "prefix"@, "\"bugpot-drop"@, "\""@, "drop"@]);
    assert(log.skip(4) =~= seq!["drop"@]);
    assert(rule_verdict(log, p, allowed) == Some(false));
    lemma_net_word(cfg.subnet, p.src);
    lemma_from_network(rules[4], cfg.subnet, p, allowed);
}

proof fn lemma_last_word(p: Packet, allowed: Set<(u32, u32)>)
    ensures
        rule_verdict(seq!["accept"@], p, allowed) == Some(true),
        rule_verdict(seq!["drop"@], p, allowed) == Some(false),
{
    lemma_words_differ();
}

proof fn lemma_net_word(net: Ipv4Net, ip: u32)
    requires
        net.wf(),
    ensures
        in_network(net.text(), ip) == net.has(ip),
        net.text() != "."@,
{
    lemma_network_reads_back(net);
    lemma_net_is_no_dot(net);
}

/// A rule that begins with a condition on the source says what the rest of it
/// says, of packets from the network.
proof fn lemma_from_network(
    words: Seq<Seq<char>>,
    net: Ipv4Net,
    p: Packet,
    allowed: Set<(u32, u32)>,
)
    requires
        net.wf(),
        words.len() > 3,
        words[0] == "ip"@,
        words[1] == "saddr"@,
        words[2] == net.text(),
    ensures
        rule_verdict(words, p, allowed) == if net.has(p.src) {
            rule_verdict(words.skip(3), p, allowed)
        } else {
            None
        },
{
    lemma_words_differ();
    lemma_net_word(net, p.src);
}

proof fn lemma_ports_rule(
    cfg: NftConfig,
    carrier: Seq<char>,
    p: Packet,
    allowed: Set<(u32, u32)>,
)
    requires
        cfg.subnet.wf(),
        carrier == "udp"@ || carrier == "tcp"@,
    ensures
        rule_verdict(ports_rule(cfg, carrier), p, allowed) == if cfg.subnet.has(p.src) && (
        p.dport == 53 || p.dport == 853) && (if carrier == "udp"@ {
            p.proto is Udp
        } else {
            p.proto is Tcp
        }) {
            Some(false)
        } else {
            None
        },
{
    let words = ports_rule(cfg, carrier);
    lemma_last_word(p, allowed);
    lemma_words_differ();
    lemma_port_words(p.dport);
    lemma_from_network(words, cfg.subnet, p, allowed);
    let rest = words.skip(3);
    assert(rest =~= seq![carrier, "dport"@, "{"@, "53,"@, "853"@, "}"@, "drop"@]);
    assert(rest.skip(6) =~= seq!["drop"@]);
}

proof fn lemma_port_words(port: u16)
    ensures
        "53,"@ == decimal(port as nat) + ","@ <==> port == 53,
        "853"@ == decimal(port as nat) <==> port == 853,
        "853"@ != decimal(port as nat) + ","@,
        "53,"@ != decimal(port as nat),
{
    reveal_strlit("53,");
    reveal_strlit("853");
    reveal_strlit(",");
    let d = decimal(port as nat);
    lemma_decimal_reads_back(port as nat);
    reveal_with_fuel(decimal, 4);
    assert(decimal(53) =~= seq!['5', '3']);
    assert(decimal(853) =~= seq!['8', '5', '3']);
    lemma_decimal_reads_back(53);
    lemma_decimal_reads_back(853);
    assert("53,"@ =~= decimal(53) + ","@);
    assert("853"@ =~= decimal(853));
    if "53,"@ == d + ","@ {
        assert(d =~= "53,"@.drop_last());
        assert("53,"@.drop_last() =~= decimal(53));
    }
    assert((d + ","@).last() == ',');
    assert("853"@.last() == '3');
    if "53,"@ == d {
        assert(is_digit(d[2], 10));
    }
}

/// The notation of a network is not a lone dot, nor an opening brace.
proof fn lemma_net_is_no_dot(net: Ipv4Net)
    requires
        net.wf(),
    ensures
        net.text() != "."@,
{
    reveal_strlit(".");
    reveal_strlit("/");
    assert(net.text().len() >= 2) by {
        lemma_decimal_reads_back(net.prefix as nat);
        lemma_decimal_reads_back(octets(net.addr)[0]);
        let parts = octet_texts(net.addr);
        assert(join(parts, '.').len() >= 1) by {
            assert(parts[0].len() > 0);
        }
    }
}

proof fn lemma_words_of_forward(cfg: NftConfig)
    requires
        plain(cfg.subnet.text()),
    ensures
        words_are_plain(forward_rules(cfg)),
{
    reveal_strlit("ct");
    reveal_strlit("state");
    reveal_strlit("established,related");
    reveal_strlit("accept");
    reveal_strlit("drop");
    reveal_strlit("ip");
    reveal_strlit("saddr");
    reveal_strlit("daddr");
    reveal_strlit("udp");
    reveal_strlit("tcp");
    reveal_strlit("dport");
    reveal_strlit("{");
    reveal_strlit("53,");
    reveal_strlit("853");
    reveal_strlit("}");
    reveal_strlit(".");
    reveal_strlit("@allow4");
    reveal_strlit("log");
    reveal_strlit("prefix");
    reveal_strlit("\"bugpot-drop");
    reveal_strlit("\"");
    let rules = forward_rules(cfg);
    assert forall|i: int, j: int| 0 <= i < rules.len() && 0 <= j < rules[i].len() implies plain(
        #[trigger] rules[i][j],
    ) by {}
}

/// The host side of the packet filter. What comes in from the bridge and from its
/// subnet reaches nothing of the host but the name server, unless it belongs to
/// an open connection; everything else is left alone.
pub proof fn lemma_input_chain(cfg: NftConfig, p: Packet, allowed: Set<(u32, u32)>)
    requires
        cfg.subnet.wf(),
        plain(cfg.bridge@),
    ensures
        exists|rules: Seq<Seq<Seq<char>>>|
            {
                &&& words_are_plain(rules)
                &&& input_text(cfg) == "add chain inet "@ + cfg.table@
                    + " input { type filter hook input priority filter; policy accept; }\n"@
                    + #[trigger] rule_lines(cfg.table@, "input"@, rules)
                &&& chain_verdict(rules, true, p, allowed) == (p.iif != cfg.bridge@ || p.reply || (
                p.dst == cfg.bridge_ip && !(p.proto is Other) && p.dport == cfg.dns_port)
                    || !cfg.subnet.has(p.src))
            },
{
    let rules = input_rules(cfg);
    lemma_input_lines(cfg);
    lemma_words_of_input(cfg);
    lemma_input_verdicts(cfg, p, allowed);
    lemma_chain_from(rules, 0, true, p, allowed);
    lemma_chain_from(rules, 1, true, p, allowed);
    lemma_chain_from(rules, 2, true, p, allowed);
    lemma_chain_from(rules, 3, true, p, allowed);
    assert(rules.skip(0) =~= rules);
}

proof fn lemma_words_of_input(cfg: NftConfig)
    requires
        plain(cfg.bridge@),
    ensures
        words_are_plain(input_rules(cfg)),
{
    lemma_notation_is_plain(cfg.subnet, cfg.bridge_ip);
    lemma_decimal_reads_back(cfg.dns_port as nat);
    lemma_digits_are_plain(decimal(cfg.dns_port as nat));
    reveal_strlit("iifname");
    reveal_strlit("ct");
    reveal_strlit("state");
    reveal_strlit("established,related");
    reveal_strlit("accept");
    reveal_strlit("drop");
    reveal_strlit("ip");
    reveal_strlit("saddr");
    reveal_strlit("daddr");
    reveal_strlit("udp");
    reveal_strlit("tcp");
    reveal_strlit("dport");
    reveal_strlit("\"");
    lemma_sum_is_plain("\""@, cfg.bridge@);
    lemma_sum_is_plain("\""@ + cfg.bridge@, "\""@);
    let rules = input_rules(cfg);
    assert forall|i: int, j: int| 0 <= i < rules.len() && 0 <= j < rules[i].len() implies plain(
        #[trigger] rules[i][j],
    ) by {}
}

/// A rule that begins with a condition on the interface says what the rest of it
/// says, of packets that came in by it.
proof fn lemma_from_bridge(
    words: Seq<Seq<char>>,
    bridge: Seq<char>,
    p: Packet,
    allowed: Set<(u32, u32)>,
)
    requires
        words.len() > 2,
        words[0] == "iifname"@,
        words[1] == "\""@ + bridge + "\""@,
    ensures
        rule_verdict(words, p, allowed) == if p.iif == bridge {
            rule_verdict(words.skip(2), p, allowed)
        } else {
            None
        },
{
    lemma_words_differ();
    reveal_strlit("\"");
    let a = "\""@ + bridge + "\""@;
    let b = "\""@ + p.iif + "\""@;
    if a == b {
        assert(bridge =~= a.subrange(1, a.len() - 1));
        assert(p.iif =~= b.subrange(1, b.len() - 1));
    }
}

proof fn lemma_port_rule(cfg: NftConfig, carrier: Seq<char>, p: Packet, allowed: Set<(u32, u32)>)
    requires
        carrier == "udp"@ || carrier == "tcp"@,
    ensures
        rule_verdict(port_rule(cfg, carrier), p, allowed) == if p.iif == cfg.bridge@ && p.dst
            == cfg.bridge_ip && p.dport == cfg.dns_port && (if carrier == "udp"@ {
            p.proto is Udp
        } else {
            p.proto is Tcp
        }) {
            Some(true)
        } else {
            None
        },
{
    let words = port_rule(cfg, carrier);
    lemma_last_word(p, allowed);
    lemma_words_differ();
    lemma_from_bridge(words, cfg.bridge@, p, allowed);
    let rest = words.skip(2);
    assert(rest =~= seq![
        "ip"@,
        "daddr"@,
        ipv4_text(cfg.bridge_ip),
        carrier,
        "dport"@,
        decimal(cfg.dns_port as nat),
        "accept"@,
    ]);
    let ports = rest.skip(3);
    assert(ports =~= seq![carrier, "dport"@, decimal(cfg.dns_port as nat), "accept"@]);
    assert(ports.skip(3) =~= seq!["accept"@]);
    lemma_decimal_reads_back(cfg.dns_port as nat);
    lemma_decimal_reads_back(p.dport as nat);
    if ipv4_text(cfg.bridge_ip) == ipv4_text(p.dst) {
        lemma_ipv4_text_injective(cfg.bridge_ip, p.dst);
    }
    let carried = if carrier == "udp"@ {
        p.proto is Udp
    } else {
        p.proto is Tcp
    };
    assert(rule_verdict(ports, p, allowed) == if carried && p.dport == cfg.dns_port {
        Some(true)
    } else {
        None
    });
    assert(rule_verdict(rest, p, allowed) == if p.dst == cfg.bridge_ip {
        rule_verdict(ports, p, allowed)
    } else {
        None
    });
}

proof fn lemma_input_verdicts(cfg: NftConfig, p: Packet, allowed: Set<(u32, u32)>)
    requires
        cfg.subnet.wf(),
    ensures
        rule_verdict(input_rules(cfg)[0], p, allowed) == if p.iif == cfg.bridge@ && p.reply {
            Some(true)
        } else {
            None
        },
        rule_verdict(input_rules(cfg)[1], p, allowed) == if p.iif == cfg.bridge@ && p.dst
            == cfg.bridge_ip && p.dport == cfg.dns_port && p.proto is Udp {
            Some(true)
        } else {
            None
        },
        rule_verdict(input_rules(cfg)[2], p, allowed) == if p.iif == cfg.bridge@ && p.dst
            == cfg.bridge_ip && p.dport == cfg.dns_port && p.proto is Tcp {
            Some(true)
        } else {
            None
        },
        rule_verdict(input_rules(cfg)[3], p, allowed) == if p.iif == cfg.bridge@ && cfg.subnet.has(
            p.src,
        ) {
            Some(false)
        } else {
            None
        },
{
    lemma_last_word(p, allowed);
    lemma_words_differ();
    let rules = input_rules(cfg);
    lemma_from_bridge(rules[0], cfg.bridge@, p, allowed);
    let replies = rules[0].skip(2);
    assert(replies =~= seq!["ct"@, "state"@, "established,related"@, "accept"@]);
    assert(replies.skip(3) =~= seq!["accept"@]);
    lemma_port_rule(cfg, "udp"@, p, allowed);
    lemma_port_rule(cfg, "tcp"@, p, allowed);
    lemma_from_bridge(rules[3], cfg.bridge@, p, allowed);
    let rest = rules[3].skip(2);
    assert(rest =~= seq!["ip"@, "saddr"@, cfg.subnet.text(), "drop"@]);
    lemma_from_network(rest, cfg.subnet, p, allowed);
    assert(rest.skip(3) =~= seq!["drop"@]);
}

/// The script replaces the table as a whole: whatever stood in it is deleted
/// before the set, whose pairs time out, and the two chains are made.
#[verifier::spinoff_prover]
pub proof fn lemma_bootstrap_replaces(cfg: NftConfig)
    ensures
        bootstrap_text(cfg) == "add table inet "@ + cfg.table@ + "\n"@ + ("delete table inet "@
            + cfg.table@ + "\n"@) + ("add table inet "@ + cfg.table@ + "\n"@) + (
        "add set inet "@ + cfg.table@
            + " allow4 { type ipv4_addr . ipv4_addr; flags timeout; timeout "@ + decimal(
            cfg.allow_ttl_secs as nat,
        ) + "s; }\n"@) + forward_text(cfg) + input_text(cfg),
{
    reveal_strlit("\n");
    reveal_strlit("\ndelete table inet ");
    reveal_strlit("delete table inet ");
    reveal_strlit("\nadd table inet ");
    reveal_strlit("add table inet ");
    reveal_strlit("\nadd set inet ");
    reveal_strlit("add set inet ");
    assert("\ndelete table inet "@ =~= "\n"@ + "delete table inet "@);
    assert("\nadd table inet "@ =~= "\n"@ + "add table inet "@);
    assert("\nadd set inet "@ =~= "\n"@ + "add set inet "@);
    let head = "add table inet "@ + cfg.table@ + "\n"@ + ("delete table inet "@ + cfg.table@
        + "\n"@) + ("add table inet "@ + cfg.table@ + "\n"@) + ("add set inet "@ + cfg.table@
        + " allow4 { type ipv4_addr . ipv4_addr; flags timeout; timeout "@ + decimal(
        cfg.allow_ttl_secs as nat,
    ) + "s; }\n"@);
    assert(table_and_set_text(cfg) =~= head);
}

} // verus!
