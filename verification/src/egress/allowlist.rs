//! Which names and addresses an app may reach.

use vstd::prelude::*;
use vstd::slice::slice_subrange;
use vstd::string::StringExecFns;

use super::addr::{
    address_of, ipv4_text, lemma_address_of_digits, lemma_address_of_text, lemma_split_ipv4,
    octet_texts, octets, parse_ipv4,
};
use super::net::{bad_network, ipv4_net_of, Ipv4Net};
use crate::config::auth::{quote, quoted};
use crate::number::{is_digit, lemma_decimal_reads_back};
use crate::text::{
    chars_of, ends_with, has_char, has_prefix, has_suffix, join, lower, lowercase, lowercased, same,
    starts_with, string_of, texts, trim, trimmed_str,
};

verus! {

/// One entry of an allowlist.
#[derive(Debug)]
pub enum Rule {
    /// The domain itself and every domain below it.
    Domain(String),
    /// Every domain below it, not the domain itself.
    Wildcard(String),
    /// The addresses of a network.
    Cidr(Ipv4Net),
}

/// A rule, with its domain as text.
pub enum RuleView {
    Domain(Seq<char>),
    Wildcard(Seq<char>),
    Cidr(Ipv4Net),
}

impl View for Rule {
    type V = RuleView;

    open spec fn view(&self) -> RuleView {
        match self {
            Rule::Domain(d) => RuleView::Domain(d@),
            Rule::Wildcard(d) => RuleView::Wildcard(d@),
            Rule::Cidr(n) => RuleView::Cidr(*n),
        }
    }
}

/// A character that names of domains are made of.
pub open spec fn domain_char(c: char) -> bool {
    ('a' <= c && c <= 'z') || ('A' <= c && c <= 'Z') || ('0' <= c && c <= '9') || c == '.' || c
        == '-' || c == '_'
}

pub fn is_domain_char(c: char) -> (r: bool)
    ensures
        r == domain_char(c),
{
    ('a' <= c && c <= 'z') || ('A' <= c && c <= 'Z') || ('0' <= c && c <= '9') || c == '.' || c
        == '-' || c == '_'
}

/// `s` without the dots it ends with.
pub open spec fn trim_dots(s: Seq<char>) -> Seq<char>
    decreases s.len(),
{
    if s.len() > 0 && s.last() == '.' {
        trim_dots(s.drop_last())
    } else {
        s
    }
}

/// The form in which names are compared: without trailing dots, in small
/// letters.
pub open spec fn normal_name(s: Seq<char>) -> Seq<char> {
    lowercase(trim_dots(s))
}

/// The name without the dots it ends with.
pub fn without_trailing_dots(name: &str) -> (r: String)
    ensures
        r@ == trim_dots(name@),
{
    let v = chars_of(name);
    let mut n: usize = v.len();
    proof {
        assert(v@.take(n as int) =~= v@);
    }
    while n > 0 && v[n - 1] == '.'
        invariant
            n <= v@.len(),
            trim_dots(v@.take(n as int)) == trim_dots(v@),
        decreases n,
    {
        proof {
            assert(v@.take(n as int).last() == v@[n - 1]);
            assert(v@.take(n as int).drop_last() =~= v@.take(n - 1));
        }
        n -= 1;
    }
    proof {
        if n > 0 {
            assert(v@.take(n as int).last() == v@[n - 1]);
        }
    }
    let kept = slice_subrange(&v, 0, n);
    proof {
        assert(kept@ =~= v@.take(n as int));
    }
    string_of(kept)
}

pub fn normalise_name(s: &str) -> (r: String)
    ensures
        r@ == normal_name(s@),
{
    let kept = without_trailing_dots(s);
    let low = lowercased(&chars_of(kept.as_str()));
    string_of(&low)
}

/// `name` lies strictly below `parent`: it ends with a dot and `parent`.
pub open spec fn below(parent: Seq<char>, name: Seq<char>) -> bool {
    name.len() > parent.len() && ends_with(name, parent) && name[name.len() - parent.len() - 1]
        == '.'
}

/// `name` is a strict subdomain of `parent`.
pub fn is_subdomain_of(parent: &str, name: &str) -> (r: bool)
    ensures
        r == below(parent@, name@),
{
    let p = chars_of(parent);
    let n = chars_of(name);
    n.len() > p.len() && has_suffix(&n, &p) && n[n.len() - p.len() - 1] == '.'
}

/// The rule that an entry stands for, or what is wrong with it.
pub open spec fn rule_of(s: Seq<char>) -> Result<RuleView, Seq<char>> {
    if s.contains('/') {
        match ipv4_net_of(s) {
            Some(n) => Ok(RuleView::Cidr(Ipv4Net { addr: n.0, prefix: n.1 })),
            None => Err("bad CIDR "@ + quoted(s) + ": "@ + bad_network()),
        }
    } else if address_of(s) is Some {
        Ok(RuleView::Cidr(Ipv4Net { addr: address_of(s)->0, prefix: 32 }))
    } else if starts_with(s, "*."@) {
        let d = normal_name(s.skip(2));
        if d.len() == 0 {
            Err("wildcard with empty suffix: "@ + quoted(s))
        } else {
            Ok(RuleView::Wildcard(d))
        }
    } else if forall|i: int| 0 <= i < s.len() ==> domain_char(#[trigger] s[i]) {
        Ok(RuleView::Domain(normal_name(s)))
    } else {
        Err("unsupported allowlist entry: "@ + quoted(s))
    }
}

fn all_domain_chars(v: &[char]) -> (r: bool)
    ensures
        r == (forall|i: int| 0 <= i < v@.len() ==> domain_char(#[trigger] v@[i])),
{
    let mut i: usize = 0;
    while i < v.len()
        invariant
            i <= v@.len(),
            forall|j: int| 0 <= j < i ==> domain_char(#[trigger] v@[j]),
        decreases v@.len() - i,
    {
        if !is_domain_char(v[i]) {
            proof {
                assert(!domain_char(v@[i as int]));
            }
            return false;
        }
        i += 1;
    }
    true
}

impl Rule {
    /// A network rule has a prefix that fits an address.
    pub open spec fn wf(self) -> bool {
        match self {
            Rule::Cidr(n) => n.wf(),
            _ => true,
        }
    }

    /// Read one entry of an allowlist.
    pub fn parse(s: &str) -> (r: Result<Rule, String>)
        ensures
            match r {
                Ok(rule) => rule.wf() && rule_of(s@) == Ok::<RuleView, Seq<char>>(rule@),
                Err(e) => rule_of(s@) == Err::<RuleView, Seq<char>>(e@),
            },
    {
        let v = chars_of(s);
        if has_char(&v, '/') {
            return match Ipv4Net::parse(s) {
                Ok(n) => Ok(Rule::Cidr(n)),
                Err(e) => {
                    let mut m = String::from_str("bad CIDR ");
                    m.append(quote(s).as_str());
                    m.append(": ");
                    m.append(e.as_str());
                    Err(m)
                },
            };
        }
        if let Some(ip) = parse_ipv4(s) {
            return Ok(Rule::Cidr(Ipv4Net { addr: ip, prefix: 32 }));
        }
        if has_prefix(&v, &chars_of("*.")) {
            proof {
                reveal_strlit("*.");
            }
            let rest = slice_subrange(&v, 2, v.len());
            proof {
                assert(rest@ =~= s@.skip(2));
            }
            let d = normalise_name(string_of(rest).as_str());
            if d.as_str().is_empty() {
                let mut m = String::from_str("wildcard with empty suffix: ");
                m.append(quote(s).as_str());
                return Err(m);
            }
            return Ok(Rule::Wildcard(d));
        }
        if !all_domain_chars(&v) {
            let mut m = String::from_str("unsupported allowlist entry: ");
            m.append(quote(s).as_str());
            return Err(m);
        }
        Ok(Rule::Domain(normalise_name(s)))
    }
}

/// The rules that a list of entries stands for. Blank entries are passed over;
/// the first bad one decides.
pub open spec fn rules_of(entries: Seq<Seq<char>>) -> Result<Seq<RuleView>, Seq<char>>
    decreases entries.len(),
{
    if entries.len() == 0 {
        Ok(seq![])
    } else {
        match rules_of(entries.drop_last()) {
            Err(e) => Err(e),
            Ok(rules) => {
                let entry = trim(entries.last());
                if entry.len() == 0 {
                    Ok(rules)
                } else {
                    match rule_of(entry) {
                        Ok(rule) => Ok(rules.push(rule)),
                        Err(e) => Err(e),
                    }
                }
            },
        }
    }
}

proof fn lemma_first_error_decides(entries: Seq<Seq<char>>, n: int)
    requires
        0 <= n <= entries.len(),
        rules_of(entries.take(n)) is Err,
    ensures
        rules_of(entries) == rules_of(entries.take(n)),
    decreases entries.len() - n,
{
    if n < entries.len() {
        assert(entries.take(n + 1).drop_last() =~= entries.take(n));
        lemma_first_error_decides(entries, n + 1);
    } else {
        assert(entries.take(n) =~= entries);
    }
}

/// Which rules a list holds.
pub open spec fn rule_views(rules: Seq<Rule>) -> Seq<RuleView> {
    rules.map_values(|r: Rule| r@)
}

/// The rule lets a name through. The name is in the form in which names are
/// compared.
pub open spec fn allows_name(rule: RuleView, name: Seq<char>) -> bool {
    match rule {
        RuleView::Domain(d) => name == d || below(d, name),
        RuleView::Wildcard(d) => below(d, name),
        RuleView::Cidr(_) => false,
    }
}

/// The rule lets an address through.
pub open spec fn allows_ip(rule: RuleView, ip: u32) -> bool {
    match rule {
        RuleView::Cidr(n) => n.has(ip),
        _ => false,
    }
}

/// The rules of one app.
#[derive(Debug)]
pub struct Allowlist {
    pub rules: Vec<Rule>,
}

impl View for Allowlist {
    type V = Seq<RuleView>;

    open spec fn view(&self) -> Seq<RuleView> {
        rule_views(self.rules@)
    }
}

impl Default for Allowlist {
    fn default() -> (r: Allowlist)
        ensures
            r.wf(),
            r@.len() == 0,
    {
        Allowlist { rules: Vec::new() }
    }
}

impl Allowlist {
    pub open spec fn wf(self) -> bool {
        forall|i: int| 0 <= i < self.rules@.len() ==> (#[trigger] self.rules@[i]).wf()
    }

    /// Some rule lets the name through.
    pub open spec fn permits(self, name: Seq<char>) -> bool {
        exists|i: int| 0 <= i < self@.len() && allows_name(#[trigger] self@[i], normal_name(name))
    }

    /// Some rule lets the address through.
    pub open spec fn permits_ip(self, ip: u32) -> bool {
        exists|i: int| 0 <= i < self@.len() && allows_ip(#[trigger] self@[i], ip)
    }

    /// Read a list of entries. Blank ones are passed over; a bad one makes the
    /// whole list an error.
    pub fn parse(raw: &Vec<String>) -> (r: Result<Allowlist, String>)
        ensures
            match r {
                Ok(a) => a.wf() && rules_of(texts(raw@)) == Ok::<Seq<RuleView>, Seq<char>>(a@),
                Err(e) => rules_of(texts(raw@)) == Err::<Seq<RuleView>, Seq<char>>(e@),
            },
    {
        let mut rules: Vec<Rule> = Vec::new();
        let ghost all = texts(raw@);
        let mut i: usize = 0;
        proof {
            assert(rule_views(rules@) =~= seq![]);
            assert(rules_of(all.take(0)) == Ok::<Seq<RuleView>, Seq<char>>(seq![]));
        }
        while i < raw.len()
            invariant
                i <= raw@.len(),
                all == texts(raw@),
                forall|j: int| 0 <= j < rules@.len() ==> (#[trigger] rules@[j]).wf(),
                rules_of(all.take(i as int)) == Ok::<Seq<RuleView>, Seq<char>>(rule_views(rules@)),
            decreases raw@.len() - i,
        {
            let entry = trimmed_str(raw[i].as_str());
            let ghost before = rules@;
            proof {
                assert(all.take(i + 1).drop_last() =~= all.take(i as int));
                assert(all.take(i + 1).last() == raw@[i as int]@);
            }
            if !entry.as_str().is_empty() {
                match Rule::parse(entry.as_str()) {
                    Ok(rule) => {
                        rules.push(rule);
                        proof {
                            assert(rule_views(rules@) =~= rule_views(before).push(rule@));
                        }
                    },
                    Err(e) => {
                        proof {
                            lemma_first_error_decides(all, i + 1);
                        }
                        return Err(e);
                    },
                }
            }
            i += 1;
        }
        proof {
            assert(all.take(i as int) =~= all);
        }
        Ok(Allowlist { rules })
    }

    /// The name is allowed by some rule for names.
    pub fn matches_domain(&self, name: &str) -> (r: bool)
        ensures
            r == self.permits(name@),
    {
        let normal = normalise_name(name);
        let n = chars_of(normal.as_str());
        let mut i: usize = 0;
        while i < self.rules.len()
            invariant
                i <= self.rules@.len(),
                n@ == normal@,
                normal@ == normal_name(name@),
                forall|j: int| 0 <= j < i ==> !allows_name(#[trigger] self@[j], normal@),
            decreases self.rules@.len() - i,
        {
            let hit = match &self.rules[i] {
                Rule::Domain(d) => same(&n, &chars_of(d.as_str())) || is_subdomain_of(
                    d.as_str(),
                    normal.as_str(),
                ),
                Rule::Wildcard(d) => is_subdomain_of(d.as_str(), normal.as_str()),
                Rule::Cidr(_) => false,
            };
            proof {
                assert(self@[i as int] == self.rules@[i as int]@);
            }
            if hit {
                return true;
            }
            i += 1;
        }
        false
    }

    /// The address is allowed by some rule for addresses.
    pub fn matches_ip(&self, ip: u32) -> (r: bool)
        requires
            self.wf(),
        ensures
            r == self.permits_ip(ip),
    {
        let mut i: usize = 0;
        while i < self.rules.len()
            invariant
                i <= self.rules@.len(),
                self.wf(),
                forall|j: int| 0 <= j < i ==> !allows_ip(#[trigger] self@[j], ip),
            decreases self.rules@.len() - i,
        {
            let hit = match &self.rules[i] {
                Rule::Cidr(n) => n.contains(ip),
                _ => false,
            };
            proof {
                assert(self@[i as int] == self.rules@[i as int]@);
            }
            if hit {
                return true;
            }
            i += 1;
        }
        false
    }

    pub fn rules(&self) -> (r: &Vec<Rule>)
        ensures
            r@ == self.rules@,
    {
        &self.rules
    }
}

proof fn lemma_trim_dots_lowercase(s: Seq<char>)
    ensures
        trim_dots(lowercase(s)) == lowercase(trim_dots(s)),
    decreases s.len(),
{
    if s.len() > 0 {
        assert(lowercase(s).last() == lower(s.last()));
        assert(lowercase(s).drop_last() =~= lowercase(s.drop_last()));
        if s.last() == '.' {
            lemma_trim_dots_lowercase(s.drop_last());
        }
    }
}

/// Neither the case of letters nor a trailing dot of a queried name matters.
pub proof fn lemma_names_compare_loosely(list: Allowlist, name: Seq<char>)
    ensures
        list.permits(lowercase(name)) == list.permits(name),
        list.permits(name.push('.')) == list.permits(name),
{
    lemma_trim_dots_lowercase(name);
    crate::text::lemma_lowercase_idempotent(trim_dots(name));
    assert(normal_name(lowercase(name)) == normal_name(name));
    assert(name.push('.').drop_last() =~= name);
    assert(normal_name(name.push('.')) == normal_name(name));
}

/// A rule for a domain lets the domain and everything below it through, a
/// wildcard everything below it but not the domain itself.
pub proof fn lemma_domain_and_wildcard(domain: Seq<char>, label: Seq<char>)
    ensures
        allows_name(RuleView::Domain(domain), domain),
        allows_name(RuleView::Domain(domain), label.push('.') + domain),
        allows_name(RuleView::Wildcard(domain), label.push('.') + domain),
        !allows_name(RuleView::Wildcard(domain), domain),
{
    let name = label.push('.') + domain;
    assert(name.skip(name.len() - domain.len()) =~= domain);
    assert(name[name.len() - domain.len() - 1] == '.');
}

/// Rules for names and rules for addresses keep apart: an address rule lets no
/// name through and a name rule no address.
pub proof fn lemma_names_and_addresses_apart(rule: RuleView, name: Seq<char>, ip: u32)
    ensures
        !(allows_name(rule, name) && allows_ip(rule, ip)),
        rule is Cidr ==> !allows_name(rule, name),
        !(rule is Cidr) ==> !allows_ip(rule, ip),
{
}

/// What a rule lets through, and nothing else. A rule for a domain: the domain,
/// and names that end in a dot and the domain. A wildcard: only the latter. So no
/// parent of a listed domain passes, nor a name that merely ends alike.
pub proof fn lemma_rule_covers(rule: RuleView, name: Seq<char>)
    ensures
        allows_name(rule, name) <==> match rule {
            RuleView::Domain(d) => name == d || exists|label: Seq<char>|
                name == #[trigger] (label + (seq!['.'] + d)),
            RuleView::Wildcard(d) => exists|label: Seq<char>|
                name == #[trigger] (label + (seq!['.'] + d)),
            RuleView::Cidr(_) => false,
        },
        allows_name(rule, name) ==> match rule {
            RuleView::Domain(d) => name.len() >= d.len(),
            RuleView::Wildcard(d) => name.len() > d.len(),
            RuleView::Cidr(_) => false,
        },
{
    match rule {
        RuleView::Domain(d) => lemma_below(d, name),
        RuleView::Wildcard(d) => lemma_below(d, name),
        RuleView::Cidr(_) => {},
    }
}

proof fn lemma_below(d: Seq<char>, name: Seq<char>)
    ensures
        below(d, name) <==> exists|label: Seq<char>| name == #[trigger] (label + (seq!['.'] + d)),
{
    if below(d, name) {
        let label = name.take(name.len() - d.len() - 1);
        assert(name.skip(name.len() - d.len()) == d);
        assert(name =~= label + (seq!['.'] + d)) by {
            assert forall|i: int| 0 <= i < name.len() implies name[i] == (label + (seq!['.'] + d))[i] by {
                if i >= name.len() - d.len() {
                    assert(name[i] == d[i - (name.len() - d.len())]);
                }
            }
        }
    }
    if exists|label: Seq<char>| name == #[trigger] (label + (seq!['.'] + d)) {
        let label = choose|label: Seq<char>| name == #[trigger] (label + (seq!['.'] + d));
        assert(name.skip(name.len() - d.len()) =~= d);
        assert(name[name.len() - d.len() - 1] == '.');
    }
}

/// The form in which names are compared: the dots at the end are gone, all of
/// them and no others, and large letters of ASCII are small.
pub proof fn lemma_normal_name(s: Seq<char>)
    ensures
        ({
            let n = normal_name(s);
            &&& n.len() <= s.len()
            &&& forall|i: int| n.len() <= i < s.len() ==> #[trigger] s[i] == '.'
            &&& n.len() > 0 ==> s[n.len() - 1] != '.'
            &&& forall|i: int|
                0 <= i < n.len() ==> (#[trigger] n[i]) as int == if 65 <= s[i] as int <= 90 {
                    s[i] as int + 32
                } else {
                    s[i] as int
                }
        }),
{
    lemma_trim_dots(s);
    let t = trim_dots(s);
    let n = normal_name(s);
    assert forall|i: int| 0 <= i < n.len() implies (#[trigger] n[i]) as int == if 65 <= s[i] as int
        <= 90 {
        s[i] as int + 32
    } else {
        s[i] as int
    } by {
        crate::text::lemma_lowercase(t, i);
    }
}

/// Without its trailing dots a name is what it begins with, up to the last
/// character that is no dot.
pub proof fn lemma_trim_dots(s: Seq<char>)
    ensures
        trim_dots(s).len() <= s.len(),
        trim_dots(s) == s.take(trim_dots(s).len() as int),
        forall|i: int| trim_dots(s).len() <= i < s.len() ==> #[trigger] s[i] == '.',
        trim_dots(s).len() > 0 ==> s[trim_dots(s).len() - 1] != '.',
    decreases s.len(),
{
    if s.len() > 0 && s.last() == '.' {
        let front = s.drop_last();
        lemma_trim_dots(front);
        let t = trim_dots(s);
        assert(t =~= s.take(t.len() as int));
        assert forall|i: int| t.len() <= i < s.len() implies #[trigger] s[i] == '.' by {
            if i < front.len() {
                assert(front[i] == s[i]);
            }
        }
    } else {
        assert(s.take(s.len() as int) =~= s);
    }
}

/// A list lets a name through exactly if one of its rules does, by the form in
/// which names are compared.
pub proof fn lemma_list_covers(list: Allowlist, name: Seq<char>)
    ensures
        list.permits(name) <==> exists|i: int|
            0 <= i < list.rules@.len() && match #[trigger] list.rules@[i] {
                Rule::Domain(d) => normal_name(name) == d@ || exists|label: Seq<char>|
                    normal_name(name) == #[trigger] (label + (seq!['.'] + d@)),
                Rule::Wildcard(d) => exists|label: Seq<char>|
                    normal_name(name) == #[trigger] (label + (seq!['.'] + d@)),
                Rule::Cidr(_) => false,
            },
{
    let n = normal_name(name);
    assert forall|i: int| 0 <= i < list.rules@.len() implies #[trigger] list@[i]
        == list.rules@[i]@ by {}
    if list.permits(name) {
        let i = choose|i: int| 0 <= i < list@.len() && allows_name(#[trigger] list@[i], n);
        lemma_rule_covers(list@[i], n);
        assert(list@[i] == list.rules@[i]@);
    }
    assert forall|i: int|
        0 <= i < list.rules@.len() && match #[trigger] list.rules@[i] {
            Rule::Domain(d) => n == d@ || exists|label: Seq<char>|
                n == #[trigger] (label + (seq!['.'] + d@)),
            Rule::Wildcard(d) => exists|label: Seq<char>|
                n == #[trigger] (label + (seq!['.'] + d@)),
            Rule::Cidr(_) => false,
        } implies list.permits(name) by {
        lemma_rule_covers(list@[i], n);
        assert(list@[i] == list.rules@[i]@);
    }
}

/// A list lets an address through exactly if one of its networks has it.
pub proof fn lemma_list_covers_ip(list: Allowlist, ip: u32)
    ensures
        list.permits_ip(ip) <==> exists|i: int|
            0 <= i < list.rules@.len() && match #[trigger] list.rules@[i] {
                Rule::Cidr(n) => n.has(ip),
                _ => false,
            },
{
    assert forall|i: int| 0 <= i < list.rules@.len() implies #[trigger] list@[i]
        == list.rules@[i]@ by {}
    if list.permits_ip(ip) {
        let i = choose|i: int| 0 <= i < list@.len() && allows_ip(#[trigger] list@[i], ip);
        assert(list@[i] == list.rules@[i]@);
    }
    assert forall|i: int|
        0 <= i < list.rules@.len() && match #[trigger] list.rules@[i] {
            Rule::Cidr(n) => n.has(ip),
            _ => false,
        } implies list.permits_ip(ip) by {
        assert(allows_ip(list@[i], ip));
    }
}

/// Each entry is taken for what it is: an address for the network of that one
/// address, a network for itself, what stands behind a star and a dot for a
/// wildcard, and a run of letters, digits, dots, hyphens and underscores for a
/// domain. Nothing else is an entry.
pub proof fn lemma_entries(s: Seq<char>, ip: u32, net: Ipv4Net, rest: Seq<char>)
    requires
        net.wf(),
    ensures
        rule_of(ipv4_text(ip)) == Ok::<RuleView, Seq<char>>(
            RuleView::Cidr(Ipv4Net { addr: ip, prefix: 32 }),
        ),
        rule_of(net.text()) == Ok::<RuleView, Seq<char>>(RuleView::Cidr(net)),
        !rest.contains('/') && normal_name(rest).len() > 0 ==> rule_of(seq!['*', '.'] + rest)
            == Ok::<RuleView, Seq<char>>(RuleView::Wildcard(normal_name(rest))),
        !rest.contains('/') && normal_name(rest).len() == 0 ==> rule_of(seq!['*', '.'] + rest) is Err,
        (forall|i: int|
            0 <= i < s.len() ==> 'a' <= #[trigger] s[i] <= 'z' || 'A' <= s[i] <= 'Z' || '0' <= s[i]
                <= '9' || s[i] == '.' || s[i] == '-' || s[i] == '_') && (forall|a: u32|
            s != #[trigger] ipv4_text(a)) ==> rule_of(s) == Ok::<RuleView, Seq<char>>(
            RuleView::Domain(normal_name(s)),
        ),
        rule_of(s) is Ok ==> ipv4_net_of(s) is Some || (exists|a: u32| s == #[trigger] ipv4_text(a))
            || (s.len() > 2 && s[0] == '*' && s[1] == '.') || (forall|i: int|
            0 <= i < s.len() ==> 'a' <= #[trigger] s[i] <= 'z' || 'A' <= s[i] <= 'Z' || '0' <= s[i]
                <= '9' || s[i] == '.' || s[i] == '-' || s[i] == '_'),
{
    reveal_strlit("*.");
    reveal_strlit("/");
    assert("*."@ =~= seq!['*', '.']);
    assert(!ipv4_text(ip).contains('/')) by {
        lemma_text_has_no(ip, '/');
    }
    lemma_address_of_text(ip);
    crate::egress::net::lemma_network_reads_back(net);
    assert(net.text()[ipv4_text(net.addr).len() as int] == '/');
    let w = seq!['*', '.'] + rest;
    if !rest.contains('/') {
        assert(!w.contains('/')) by {
            assert forall|i: int| 0 <= i < w.len() implies w[i] != '/' by {
                if i >= 2 {
                    assert(w[i] == rest[i - 2]);
                    assert(rest.contains(rest[i - 2]));
                }
            }
        }
        assert(address_of(w) is None) by {
            assert forall|a: u32| w != #[trigger] ipv4_text(a) by {
                lemma_text_has_no(a, '*');
                assert(w[0] == '*');
            }
        }
        assert(w.take(2) =~= "*."@);
        assert(w.skip(2) =~= rest);
    }
    if s.contains('/') {
        let i = choose|i: int| 0 <= i < s.len() && s[i] == '/';
        assert(s[i] == '/');
    }
    if starts_with(s, "*."@) {
        assert(s.take(2)[0] == s[0] && s.take(2)[1] == s[1]);
        if s.len() == 2 {
            lemma_trim_dots(s.skip(2));
        }
    }
}

/// The dotted notation of an address is made of digits and dots.
proof fn lemma_text_has_no(ip: u32, c: char)
    requires
        c == '/' || c == '*',
    ensures
        !ipv4_text(ip).contains(c),
{
    let s = ipv4_text(ip);
    lemma_split_ipv4(ip);
    crate::text::lemma_join_split(s, '.');
    let parts = octet_texts(ip);
    assert forall|i: int| 0 <= i < parts.len() implies !(#[trigger] parts[i]).contains(c) by {
        lemma_decimal_reads_back(octets(ip)[i]);
        assert forall|j: int| 0 <= j < parts[i].len() implies parts[i][j] != c by {
            assert(is_digit(parts[i][j], 10));
        }
    }
    lemma_joined_has_no(parts, c);
}

proof fn lemma_joined_has_no(parts: Seq<Seq<char>>, c: char)
    requires
        c != '.',
        forall|i: int| 0 <= i < parts.len() ==> !(#[trigger] parts[i]).contains(c),
    ensures
        !join(parts, '.').contains(c),
    decreases parts.len(),
{
    if parts.len() > 1 {
        let tail = parts.drop_first();
        assert forall|i: int| 0 <= i < tail.len() implies !(#[trigger] tail[i]).contains(c) by {
            assert(tail[i] == parts[i + 1]);
        }
        lemma_joined_has_no(tail, c);
        let s = join(parts, '.');
        assert(s =~= parts[0] + seq!['.'] + join(tail, '.'));
        assert forall|j: int| 0 <= j < s.len() implies s[j] != c by {
            if j < parts[0].len() {
                assert(parts[0].contains(s[j]));
            } else if j > parts[0].len() {
                assert(join(tail, '.')[j - parts[0].len() - 1] == s[j]);
                assert(join(tail, '.').contains(s[j]));
            }
        }
    } else if parts.len() == 1 {
        assert(!parts[0].contains(c));
    }
}

/// A list holds a rule for each of its entries that is not blank, and no others;
/// it is an error exactly if one of them is.
pub proof fn lemma_rules_come_from_entries(entries: Seq<Seq<char>>, rule: RuleView)
    ensures
        rules_of(entries) is Err <==> exists|i: int|
            0 <= i < entries.len() && trim(#[trigger] entries[i]).len() > 0 && rule_of(
                trim(entries[i]),
            ) is Err,
        rules_of(entries) matches Ok(rules) ==> (rules.contains(rule) <==> exists|i: int|
            0 <= i < entries.len() && trim(#[trigger] entries[i]).len() > 0 && rule_of(
                trim(entries[i]),
            ) == Ok::<RuleView, Seq<char>>(rule)),
    decreases entries.len(),
{
    if entries.len() > 0 {
        let front = entries.drop_last();
        lemma_rules_come_from_entries(front, rule);
        assert forall|i: int| 0 <= i < front.len() implies front[i] == #[trigger] entries[i] by {}
        let last = trim(entries.last());
        assert(entries[entries.len() - 1] == entries.last());
        match rules_of(front) {
            Err(_) => {
                let i = choose|i: int|
                    0 <= i < front.len() && trim(#[trigger] front[i]).len() > 0 && rule_of(
                        trim(front[i]),
                    ) is Err;
                assert(entries[i] == front[i]);
            },
            Ok(rules) => {
                if let Ok(all) = rules_of(entries) {
                    if rules.contains(rule) {
                        let i = choose|i: int|
                            0 <= i < front.len() && trim(#[trigger] front[i]).len() > 0 && rule_of(
                                trim(front[i]),
                            ) == Ok::<RuleView, Seq<char>>(rule);
                        assert(entries[i] == front[i]);
                        let k = choose|k: int| 0 <= k < rules.len() && rules[k] == rule;
                        assert(all[k] == rule);
                    }
                    if last.len() > 0 && rule_of(last) == Ok::<RuleView, Seq<char>>(rule) {
                        assert(all.last() == rule);
                        assert(all[all.len() - 1] == rule);
                    }
                    if all.contains(rule) && !rules.contains(rule) {
                        let k = choose|k: int| 0 <= k < all.len() && all[k] == rule;
                        if k < rules.len() {
                            assert(rules[k] == all[k]);
                        }
                    }
                }
            },
        }
    }
}

/// What is said of an entry that is none, and that an entry with a slash is a
/// network or nothing.
pub proof fn lemma_bad_entries(s: Seq<char>)
    ensures
        s.contains('/') && ipv4_net_of(s) is None ==> rule_of(s) == Err::<RuleView, Seq<char>>(
            "bad CIDR "@ + quoted(s) + ": "@ + "invalid IP address syntax"@,
        ),
        s.contains('/') ==> (ipv4_net_of(s) matches Some((addr, prefix)) ==> rule_of(s) == Ok::<
            RuleView,
            Seq<char>,
        >(RuleView::Cidr(Ipv4Net { addr, prefix }))),
        !s.contains('/') && s.len() >= 2 && s[0] == '*' && s[1] == '.' && normal_name(
            s.skip(2),
        ).len() == 0 ==> rule_of(s) == Err::<RuleView, Seq<char>>(
            "wildcard with empty suffix: "@ + quoted(s),
        ),
        !s.contains('/') && s.len() >= 2 && s[0] == '*' && s[1] != '.' ==> rule_of(s) == Err::<
            RuleView,
            Seq<char>,
        >("unsupported allowlist entry: "@ + quoted(s)),
        !s.contains('/') && (s.len() < 2 || s[0] != '*') && (exists|i: int|
            0 <= i < s.len() && !('a' <= #[trigger] s[i] <= 'z' || 'A' <= s[i] <= 'Z' || '0' <= s[i]
                <= '9' || s[i] == '.' || s[i] == '-' || s[i] == '_')) ==> rule_of(s) == Err::<
            RuleView,
            Seq<char>,
        >("unsupported allowlist entry: "@ + quoted(s)),
{
    reveal_strlit("*.");
    assert("*."@ =~= seq!['*', '.']);
    crate::text::lemma_starts_with(s, "*."@);
    if s.len() >= 2 && s[0] == '*' && s[1] == '.' {
        assert(s.take(2) =~= "*."@);
    }
    if exists|a: u32| s == #[trigger] ipv4_text(a) {
        let a = choose|a: u32| s == #[trigger] ipv4_text(a);
        lemma_address_of_digits(a);
    }
    if s.len() >= 2 && s[0] == '*' {
        assert(!domain_char(s[0]));
    }
}

/// The rules of a list come in the order of its entries, one for each that is not
/// blank, and the first bad entry is the error of the whole list.
pub proof fn lemma_rules_in_order(entries: Seq<Seq<char>>, entry: Seq<char>)
    ensures
        rules_of(seq![]) == Ok::<Seq<RuleView>, Seq<char>>(seq![]),
        rules_of(entries) is Err ==> rules_of(entries.push(entry)) == rules_of(entries),
        rules_of(entries) matches Ok(rules) ==> {
            &&& trim(entry).len() == 0 ==> rules_of(entries.push(entry)) == rules_of(entries)
            &&& trim(entry).len() > 0 ==> match rule_of(trim(entry)) {
                Ok(rule) => rules_of(entries.push(entry)) == Ok::<Seq<RuleView>, Seq<char>>(
                    rules.push(rule),
                ),
                Err(e) => rules_of(entries.push(entry)) == Err::<Seq<RuleView>, Seq<char>>(e),
            }
        },
{
    assert(entries.push(entry).drop_last() =~= entries);
}

} // verus!
