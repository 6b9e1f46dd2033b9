//! Name resolution for containers: who asks, for what, and what is answered.

use std::collections::HashMap;

use vstd::prelude::*;

use super::allowlist::{
    lemma_trim_dots, normal_name, trim_dots, without_trailing_dots, Allowlist,
};

verus! {

broadcast use vstd::std_specs::hash::group_hash_axioms;

/// The app behind an address and what it may reach.
#[derive(Debug)]
pub struct AppEntry {
    pub app_id: String,
    pub allowlist: Allowlist,
}

/// The apps by the address that their queries come from.
#[derive(Debug)]
pub struct AppRegistry {
    entries: HashMap<u32, AppEntry>,
}

impl View for AppRegistry {
    type V = Map<u32, AppEntry>;

    closed spec fn view(&self) -> Map<u32, AppEntry> {
        self.entries@
    }
}

impl AppRegistry {
    pub fn new() -> (r: AppRegistry)
        ensures
            r@ == Map::<u32, AppEntry>::empty(),
    {
        AppRegistry { entries: HashMap::new() }
    }

    pub fn insert(&mut self, src_ip: u32, entry: AppEntry)
        ensures
            final(self)@ == old(self)@.insert(src_ip, entry),
    {
        self.entries.insert(src_ip, entry);
    }

    pub fn remove(&mut self, src_ip: u32) -> (r: Option<AppEntry>)
        ensures
            final(self)@ == old(self)@.remove(src_ip),
            match r {
                Some(e) => old(self)@.contains_key(src_ip) && e == old(self)@[src_ip],
                None => !old(self)@.contains_key(src_ip),
            },
    {
        self.entries.remove(&src_ip)
    }

    /// Replace an existing allowlist; `false` if no app is registered at the
    /// address.
    pub fn update_allowlist(&mut self, src_ip: u32, allowlist: Allowlist) -> (r: bool)
        ensures
            r == old(self)@.contains_key(src_ip),
            r ==> final(self)@ == old(self)@.insert(
                src_ip,
                (AppEntry { app_id: old(self)@[src_ip].app_id, allowlist }),
            ),
            !r ==> final(self)@ == old(self)@,
    {
        match self.entries.remove(&src_ip) {
            Some(e) => {
                self.entries.insert(src_ip, AppEntry { app_id: e.app_id, allowlist });
                proof {
                    assert(self@ =~= old(self)@.insert(
                        src_ip,
                        (AppEntry { app_id: old(self)@[src_ip].app_id, allowlist }),
                    ));
                }
                true
            },
            None => {
                proof {
                    assert(self@ =~= old(self)@);
                }
                false
            },
        }
    }

    pub fn lookup(&self, src_ip: u32) -> (r: Option<&AppEntry>)
        ensures
            match r {
                Some(e) => self@.contains_key(src_ip) && *e == self@[src_ip],
                None => !self@.contains_key(src_ip),
            },
    {
        self.entries.get(&src_ip)
    }
}

/// What becomes of a query.
#[derive(Debug)]
pub enum Decision {
    /// No app is registered at the source address.
    UnknownSource,
    /// The app may not resolve the name.
    Denied { app_id: String },
    /// The app may resolve the name.
    Allowed { app_id: String },
}

/// The decision is the one that the registry calls for.
pub open spec fn decided(registry: Map<u32, AppEntry>, src: u32, name: Seq<char>, d: Decision) -> bool {
    match d {
        Decision::UnknownSource => !registry.contains_key(src),
        Decision::Denied { app_id } => registry.contains_key(src)
            && !registry[src].allowlist.permits(name) && app_id@ == registry[src].app_id@,
        Decision::Allowed { app_id } => registry.contains_key(src)
            && registry[src].allowlist.permits(name) && app_id@ == registry[src].app_id@,
    }
}

/// Decide a query by its source address and the name it asks for.
pub fn decide(registry: &AppRegistry, src: u32, query_name: &str) -> (r: Decision)
    ensures
        decided(registry@, src, query_name@, r),
{
    match registry.lookup(src) {
        None => Decision::UnknownSource,
        Some(entry) => if entry.allowlist.matches_domain(query_name) {
            Decision::Allowed { app_id: entry.app_id.clone() }
        } else {
            Decision::Denied { app_id: entry.app_id.clone() }
        },
    }
}

/// A query as it arrives: where it comes from, and the name and whether an
/// address is asked for, unless the message made no sense.
#[derive(Debug)]
pub struct Query {
    /// The source address; none if it is not an IPv4 address.
    pub src: Option<u32>,
    /// Name and record type; none if the message could not be read.
    pub question: Option<Question>,
}

#[derive(Debug)]
pub struct Question {
    pub name: String,
    /// The query asks for an A record.
    pub asks_address: bool,
}

/// Codes that a query is answered with when it gets no records.
#[derive(Debug, Clone, Copy, PartialEq, Eq, Structural)]
pub enum ReplyCode {
    Refused,
    FormErr,
    NxDomain,
    ServFail,
}

/// What to do with a query.
#[derive(Debug)]
pub enum DnsStep {
    Reply(ReplyCode),
    /// Ask upstream for the addresses of the name, on behalf of the source.
    Resolve { src: u32, name: String },
}

/// The query is answered by the rules of the registry.
pub open spec fn routed(registry: Map<u32, AppEntry>, q: Query, step: DnsStep) -> bool {
    match q.src {
        None => step == DnsStep::Reply(ReplyCode::Refused),
        Some(src) => match q.question {
            None => step == DnsStep::Reply(ReplyCode::FormErr),
            Some(question) => if !question.asks_address {
                step == DnsStep::Reply(ReplyCode::NxDomain)
            } else if !registry.contains_key(src) {
                step == DnsStep::Reply(ReplyCode::Refused)
            } else if !registry[src].allowlist.permits(question.name@) {
                step == DnsStep::Reply(ReplyCode::NxDomain)
            } else {
                step matches DnsStep::Resolve { src: s, name } && s == src && name@ == trim_dots(
                    question.name@,
                )
            },
        },
    }
}

proof fn lemma_trim_dots_twice(s: Seq<char>)
    ensures
        trim_dots(trim_dots(s)) == trim_dots(s),
    decreases s.len(),
{
    if s.len() > 0 && s.last() == '.' {
        lemma_trim_dots_twice(s.drop_last());
    }
}

/// Decide what to do with a query. Only names that the app behind the source
/// address may reach are resolved; anything but an address query is answered
/// as if the name did not exist.
pub fn handle_request(registry: &AppRegistry, query: &Query) -> (r: DnsStep)
    ensures
        routed(registry@, *query, r),
{
    let src: u32 = match query.src {
        Some(ip) => ip,
        None => {
            return DnsStep::Reply(ReplyCode::Refused);
        },
    };
    match &query.question {
        None => DnsStep::Reply(ReplyCode::FormErr),
        Some(question) => {
            let name = without_trailing_dots(question.name.as_str());
            proof {
                lemma_trim_dots_twice(question.name@);
                assert(normal_name(name@) == normal_name(question.name@));
            }
            if !question.asks_address {
                return DnsStep::Reply(ReplyCode::NxDomain);
            }
            match decide(registry, src, name.as_str()) {
                Decision::UnknownSource => DnsStep::Reply(ReplyCode::Refused),
                Decision::Denied { .. } => DnsStep::Reply(ReplyCode::NxDomain),
                Decision::Allowed { .. } => DnsStep::Resolve { src, name },
            }
        },
    }
}

/// What to do once upstream has answered.
#[derive(Debug)]
pub enum DnsAnswer {
    Reply(ReplyCode),
    /// Put each pair into the set of allowed pairs, then answer with the
    /// addresses.
    Admit { pairs: Vec<(u32, u32)>, answers: Vec<u32>, ttl: u32 },
}

/// Each address, paired with the source.
pub open spec fn pairs_from(src: u32, ips: Seq<u32>) -> Seq<(u32, u32)> {
    ips.map_values(|ip: u32| (src, ip))
}

/// Turn upstream's answer into the reply. A failure upstream is reported as
/// such; otherwise the source may reach every address that is handed to it.
pub fn answer_query(src: u32, upstream: Option<Vec<u32>>, ttl: u32) -> (r: DnsAnswer)
    ensures
        match upstream {
            None => r == DnsAnswer::Reply(ReplyCode::ServFail),
            Some(ips) => r matches DnsAnswer::Admit { pairs, answers, ttl: t } && pairs@
                == pairs_from(src, ips@) && answers@ == ips@ && t == ttl,
        },
{
    match upstream {
        None => DnsAnswer::Reply(ReplyCode::ServFail),
        Some(ips) => {
            let mut pairs: Vec<(u32, u32)> = Vec::new();
            let mut i: usize = 0;
            while i < ips.len()
                invariant
                    i <= ips@.len(),
                    pairs@ == pairs_from(src, ips@).take(i as int),
                decreases ips@.len() - i,
            {
                pairs.push((src, ips[i]));
                proof {
                    assert(pairs@ =~= pairs_from(src, ips@).take(i + 1));
                }
                i += 1;
            }
            proof {
                assert(pairs@ =~= pairs_from(src, ips@));
            }
            DnsAnswer::Admit { pairs, answers: ips, ttl }
        },
    }
}

/// A pair gets into the set of allowed pairs only on behalf of a registered app
/// whose allowlist permits the name that was asked for, and only for an address
/// that upstream gave for it.
pub proof fn lemma_only_permitted_names_open_paths(
    registry: Map<u32, AppEntry>,
    q: Query,
    step: DnsStep,
    ips: Seq<u32>,
    pair: (u32, u32),
)
    requires
        routed(registry, q, step),
        step is Resolve,
        pairs_from(step->src, ips).contains(pair),
    ensures
        registry.contains_key(pair.0),
        q.src == Some(pair.0),
        q.question is Some,
        registry[pair.0].allowlist.permits(q.question->0.name@),
        ips.contains(pair.1),
{
    let i = choose|i: int|
        0 <= i < pairs_from(step->src, ips).len() && pairs_from(step->src, ips)[i] == pair;
    assert(ips[i] == pair.1);
}

/// A query is resolved exactly if it comes from the address of an app, asks for
/// an address, and names something that the app may reach; and then for that app
/// and that name. Every other query is turned away: for its source, for making
/// no sense, or as if the name did not exist.
pub proof fn lemma_query_is_resolved(registry: Map<u32, AppEntry>, q: Query, step: DnsStep)
    requires
        routed(registry, q, step),
    ensures
        step is Resolve <==> {
            &&& q.src matches Some(src)
            &&& q.question matches Some(question)
            &&& question.asks_address
            &&& registry.contains_key(src)
            &&& registry[src].allowlist.permits(question.name@)
        },
        step matches DnsStep::Resolve { src, name } ==> q.src == Some(src) && name@.len()
            <= q.question->0.name@.len() && name@ == q.question->0.name@.take(name@.len() as int) && (
        forall|i: int|
            name@.len() <= i < q.question->0.name@.len() ==> #[trigger] q.question->0.name@[i]
                == '.') && (name@.len() > 0 ==> name@[name@.len() - 1] != '.'),
        step == DnsStep::Reply(ReplyCode::Refused) <==> q.src is None || (q.question is Some
            && q.question->0.asks_address && !registry.contains_key(q.src->0)),
        step == DnsStep::Reply(ReplyCode::FormErr) <==> q.src is Some && q.question is None,
        step == DnsStep::Reply(ReplyCode::NxDomain) <==> q.src is Some && q.question is Some && (
        !q.question->0.asks_address || (registry.contains_key(q.src->0)
            && !registry[q.src->0].allowlist.permits(q.question->0.name@))),
        step != DnsStep::Reply(ReplyCode::ServFail),
{
    if step is Resolve {
        lemma_trim_dots(q.question->0.name@);
    }
}

/// What is decided of a query follows from whether an app is known at its source
/// and whether that app may reach the name, and it is that app that is named.
pub proof fn lemma_decision(
    registry: Map<u32, AppEntry>,
    src: u32,
    name: Seq<char>,
    d: Decision,
)
    requires
        decided(registry, src, name, d),
    ensures
        d is UnknownSource <==> !registry.contains_key(src),
        d is Allowed <==> registry.contains_key(src) && registry[src].allowlist.permits(name),
        d matches Decision::Allowed { app_id } ==> app_id@ == registry[src].app_id@,
        d matches Decision::Denied { app_id } ==> app_id@ == registry[src].app_id@,
{
}

/// Every address that is handed to a source may be reached from that source, in
/// the order in which they came, and nothing else is admitted with them.
pub proof fn lemma_pairs(src: u32, ips: Seq<u32>)
    ensures
        pairs_from(src, ips).len() == ips.len(),
        forall|i: int| 0 <= i < ips.len() ==> #[trigger] pairs_from(src, ips)[i] == (src, ips[i]),
{
}

} // verus!
