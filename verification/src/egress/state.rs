//! Endpoints of apps: which address an app has, who owns an address, and what
//! has to be done to the host when that changes.

use vstd::prelude::*;
use vstd::string::StringExecFns;

use super::allocator::IpAllocator;
use super::allowlist::{rules_of, Allowlist, RuleView};
use super::dns::{AppEntry, AppRegistry};
use super::net::Ipv4Net;
use super::netns::{EndpointPlan, NS_PREFIX};
use crate::namemap::NameMap;
use crate::text::texts;

verus! {

/// What an app needs to know of its endpoint.
#[derive(Debug)]
pub struct Endpoint {
    pub container_ip: u32,
    pub netns_path: String,
}

/// What is kept of an app's endpoint while it lives.
#[derive(Debug)]
pub struct HeldEndpoint {
    pub container_ip: u32,
    pub plan: EndpointPlan,
}

/// An endpoint whose address is reserved and whose namespace is yet to be set
/// up on the host.
#[derive(Debug)]
pub struct Attachment {
    pub name: String,
    pub plan: EndpointPlan,
    pub allowlist: Allowlist,
}

/// The endpoints that were found on the host at startup, until each is claimed
/// by its app or given up.
#[derive(Debug)]
pub struct StartupClaims {
    discovered: NameMap<u32>,
}

impl StartupClaims {
    pub closed spec fn wf(self) -> bool {
        self.discovered.wf()
    }

    /// The address that is still to be claimed for a name.
    pub closed spec fn unclaimed(self, name: Seq<char>) -> Option<u32> {
        self.discovered.lookup(name)
    }

    /// How many are still to be claimed.
    pub closed spec fn count(self) -> nat {
        self.discovered.list().len()
    }

    pub fn new(discovered: NameMap<u32>) -> (r: StartupClaims)
        requires
            discovered.wf(),
        ensures
            r.wf(),
            forall|name: Seq<char>| #[trigger]
                r.unclaimed(name) == discovered.lookup(name),
            r.count() == discovered.list().len(),
    {
        StartupClaims { discovered }
    }

    /// Take the address found for a name. A second claim for the same name gets
    /// nothing.
    pub fn claim(&mut self, name: &str) -> (r: Option<u32>)
        requires
            old(self).wf(),
        ensures
            final(self).wf(),
            r == old(self).unclaimed(name@),
            final(self).unclaimed(name@) is None,
            forall|n: Seq<char>|
                n != name@ ==> #[trigger] final(self).unclaimed(n) == old(self).unclaimed(n),
            final(self).count() == old(self).count() - if r is Some {
                1int
            } else {
                0int
            },
    {
        let r = self.discovered.remove(name);
        proof {
            assert(self.discovered.lookup(name@) is None);
            assert forall|n: Seq<char>| n != name@ implies #[trigger] self.unclaimed(n) == old(self).unclaimed(n) by {
                assert(self.discovered.lookup(n) == old(self).discovered.lookup(n));
            }
        }
        r
    }

    /// Give up what nobody claimed. Each name comes once, with its address.
    pub fn drain(self) -> (r: Vec<(String, u32)>)
        requires
            self.wf(),
        ensures
            r@.len() == self.count(),
            forall|i: int|
                0 <= i < r@.len() ==> self.unclaimed((#[trigger] r@[i]).0@) == Some(r@[i].1),
            forall|name: Seq<char>| #[trigger]
                self.unclaimed(name) is Some ==> exists|i: int|
                    0 <= i < r@.len() && (#[trigger] r@[i]).0@ == name,
            forall|i: int, j: int|
                0 <= i < j < r@.len() ==> (#[trigger] r@[i]).0@ != (#[trigger] r@[j]).0@,
    {
        proof {
            self.discovered.lemma_list();
        }
        let ghost d = self.discovered;
        let r = self.discovered.into_entries();
        proof {
            assert forall|i: int| 0 <= i < r@.len() implies self.unclaimed((#[trigger] r@[i]).0@)
                == Some(r@[i].1) by {
                assert(d.lookup(d.list()[i].0@) == Some(d.list()[i].1));
            }
            assert forall|name: Seq<char>| #[trigger]
                self.unclaimed(name) is Some implies exists|i: int|
                0 <= i < r@.len() && (#[trigger] r@[i]).0@ == name by {
                assert(d.lookup(name) is Some);
                let i = choose|i: int|
                    0 <= i < d.list().len() && (#[trigger] d.list()[i]).0@ == name;
                assert(r@[i].0@ == name);
            }
        }
        r
    }

    pub fn remaining(&self) -> (r: usize)
        ensures
            r == self.count(),
    {
        self.discovered.len()
    }
}

/// What was found for a name in a list of namespaces: the address read last,
/// where one was read.
pub open spec fn found_address(found: Seq<(String, Option<u32>)>, name: Seq<char>) -> Option<u32>
    decreases found.len(),
{
    if found.len() == 0 {
        None
    } else if found.last().0@ == name && found.last().1 is Some {
        found.last().1
    } else {
        found_address(found.drop_last(), name)
    }
}

/// Collect the endpoints that were found on the host. A namespace whose address
/// could not be read is passed over.
pub fn discover_endpoints(found: Vec<(String, Option<u32>)>) -> (r: NameMap<u32>)
    ensures
        r.wf(),
        forall|name: Seq<char>| #[trigger] r.lookup(name) == found_address(found@, name),
{
    let mut out: NameMap<u32> = NameMap::new();
    let mut i: usize = 0;
    while i < found.len()
        invariant
            i <= found@.len(),
            out.wf(),
            forall|name: Seq<char>| #[trigger]
                out.lookup(name) == found_address(found@.take(i as int), name),
        decreases found@.len() - i,
    {
        let ghost before = out;
        proof {
            assert(found@.take(i + 1).drop_last() =~= found@.take(i as int));
        }
        if let Some(ip) = found[i].1 {
            out.insert(found[i].0.clone(), ip);
        }
        proof {
            assert forall|name: Seq<char>| #[trigger] out.lookup(name) == found_address(
                found@.take(i + 1),
                name,
            ) by {
                assert(before.lookup(name) == found_address(found@.take(i as int), name));
            }
        }
        i += 1;
    }
    proof {
        assert(found@.take(i as int) =~= found@);
    }
    out
}

/// The addresses and endpoints of all apps.
#[derive(Debug)]
pub struct Egress {
    pub allocator: IpAllocator,
    pub apps: NameMap<HeldEndpoint>,
    pub registry: AppRegistry,
}

impl Egress {
    pub open spec fn wf(self) -> bool {
        self.allocator.wf() && self.apps.wf()
    }

    /// The address that an app holds.
    pub open spec fn addr_of(self, name: Seq<char>) -> Option<u32> {
        match self.apps.lookup(name) {
            Some(h) => Some(h.container_ip),
            None => None,
        }
    }

    /// The app whose queries come from an address.
    pub open spec fn owner_of(self, ip: u32) -> Option<Seq<char>> {
        if self.registry@.contains_key(ip) {
            Some(self.registry@[ip].app_id@)
        } else {
            None
        }
    }

    /// No held address is free, and each held address is known to belong to the
    /// app that holds it. So no two apps hold the same address.
    pub open spec fn sound(self) -> bool {
        forall|name: Seq<char>| #[trigger]
            self.addr_of(name) is Some ==> !self.allocator.is_free(self.addr_of(name)->0)
                && self.owner_of(self.addr_of(name)->0) == Some(name)
    }

    /// In a sound state no two apps hold the same address.
    pub proof fn lemma_addresses_differ(self, a: Seq<char>, b: Seq<char>)
        requires
            self.sound(),
            self.addr_of(a) is Some,
            self.addr_of(b) is Some,
            a != b,
        ensures
            self.addr_of(a) != self.addr_of(b),
    {
    }

    /// Everything but the set of free addresses is as it was.
    pub open spec fn same_apps(self, other: Egress) -> bool {
        self.apps == other.apps && self.registry == other.registry
            && self.allocator.subnet_view() == other.allocator.subnet_view()
            && self.allocator.bridge_view() == other.allocator.bridge_view()
    }

    /// The address is out of rotation, and nothing else has changed.
    pub open spec fn reserved(self, before: Egress, ip: u32) -> bool {
        &&& self.same_apps(before)
        &&& forall|x: u32| #[trigger]
            self.allocator.is_free(x) <==> before.allocator.is_free(x) && x != ip
    }

    /// Where the address is one to give, it is back in rotation, and no other
    /// address has changed.
    pub open spec fn returned(self, before: Egress, ip: u32) -> bool {
        forall|x: u32| #[trigger]
            self.allocator.is_free(x) <==> before.allocator.is_free(x) || (x == ip && ip
                != before.allocator.bridge_view() && before.allocator.subnet_view().is_host(ip))
    }

    /// The app is dropped everywhere, and its address is back in rotation.
    pub open spec fn let_go(self, before: Egress, name: Seq<char>, ip: u32) -> bool {
        &&& forall|n: Seq<char>| #[trigger]
            self.apps.lookup(n) == (if n == name {
                None
            } else {
                before.apps.lookup(n)
            })
        &&& self.registry@ == before.registry@.remove(ip)
        &&& self.returned(before, ip)
    }

    /// No app, and every host address free. Fails where the bridge lies outside
    /// the subnet, or where the subnet has no address to give.
    pub fn start(subnet: Ipv4Net, bridge_ip: u32) -> (r: Result<Egress, String>)
        requires
            subnet.wf(),
        ensures
            match r {
                Ok(e) => {
                    &&& e.wf()
                    &&& e.sound()
                    &&& e.allocator.subnet_view() == subnet
                    &&& e.allocator.bridge_view() == bridge_ip
                    &&& subnet.has(bridge_ip)
                    &&& forall|ip: u32| #[trigger]
                        e.allocator.is_free(ip) <==> subnet.is_host(ip) && ip != bridge_ip
                    &&& exists|ip: u32| #[trigger] subnet.is_host(ip) && ip != bridge_ip
                    &&& forall|name: Seq<char>| (#[trigger] e.addr_of(name)) is None
                    &&& e.registry@ == Map::<u32, AppEntry>::empty()
                },
                Err(m) => {
                    ||| !subnet.has(bridge_ip) && m@ == "bridge IP "@
                        + super::addr::ipv4_text(bridge_ip) + " not in subnet "@ + subnet.text()
                    ||| subnet.has(bridge_ip) && (forall|ip: u32| #[trigger]
                        subnet.is_host(ip) ==> ip == bridge_ip) && m@ == "subnet "@ + subnet.text()
                        + " exhausted"@
                },
            },
    {
        let mut allocator = match IpAllocator::new(subnet, bridge_ip) {
            Ok(a) => a,
            Err(e) => {
                return Err(e);
            },
        };
        let ghost fresh = allocator;
        match allocator.allocate() {
            Ok(probe) => {
                proof {
                    fresh.lemma_free_is_ours(probe);
                    assert(fresh.is_free(probe));
                    assert(subnet.is_host(probe));
                }
                allocator.release(probe);
                Ok(Egress { allocator, apps: NameMap::new(), registry: AppRegistry::new() })
            },
            Err(e) => {
                proof {
                    assert forall|ip: u32| #[trigger] subnet.is_host(ip) implies ip
                        == bridge_ip by {
                        assert(!fresh.is_free(ip));
                    }
                }
                Err(e)
            },
        }
    }

    /// Take the addresses of endpoints found at startup out of rotation.
    pub fn adopt(&mut self, claims: &NameMap<u32>)
        requires
            old(self).wf(),
            claims.wf(),
        ensures
            final(self).wf(),
            final(self).same_apps(*old(self)),
            forall|ip: u32| #[trigger]
                final(self).allocator.is_free(ip) <==> old(self).allocator.is_free(ip) && !exists|
                    name: Seq<char>,
                | #[trigger]
                    claims.lookup(name) == Some(ip),
            old(self).sound() ==> final(self).sound(),
    {
        let n: usize = claims.len();
        let mut i: usize = 0;
        proof {
            claims.lemma_list();
        }
        while i < n
            invariant
                n == claims.list().len(),
                i <= n,
                self.wf(),
                self.same_apps(*old(self)),
                forall|ip: u32| #[trigger]
                    self.allocator.is_free(ip) <==> old(self).allocator.is_free(ip) && !exists|
                        j: int,
                    |
                        0 <= j < i && (#[trigger] claims.list()[j]).1 == ip,
            decreases n - i,
        {
            let (_, ip) = claims.at(i);
            let ghost before = self.allocator;
            self.allocator.mark_used(*ip);
            proof {
                assert forall|x: u32| #[trigger] self.allocator.is_free(x) <==> old(self).allocator.is_free(x) && !exists|j: int|
                    0 <= j < i + 1 && (#[trigger] claims.list()[j]).1 == x by {
                    assert(self.allocator.is_free(x) <==> before.is_free(x) && x != *ip);
                    assert(claims.list()[i as int].1 == *ip);
                    if before.is_free(x) && x != *ip {
                        assert(forall|j: int|
                            0 <= j < i + 1 ==> (#[trigger] claims.list()[j]).1 != x);
                    }
                }
            }
            i += 1;
        }
        proof {
            assert forall|ip: u32| #[trigger] self.allocator.is_free(ip) <==> old(self).allocator.is_free(ip) && !exists|name: Seq<char>| #[trigger]
                claims.lookup(name) == Some(ip) by {
                if exists|j: int| 0 <= j < n && (#[trigger] claims.list()[j]).1 == ip {
                    let j = choose|j: int| 0 <= j < n && (#[trigger] claims.list()[j]).1 == ip;
                    assert(claims.lookup(claims.list()[j].0@) == Some(ip));
                }
                if exists|name: Seq<char>| #[trigger] claims.lookup(name) == Some(ip) {
                    let name = choose|name: Seq<char>| #[trigger] claims.lookup(name) == Some(ip);
                    assert(claims.lookup(name) is Some);
                    let j = choose|j: int|
                        0 <= j < claims.list().len() && (#[trigger] claims.list()[j]).0@ == name;
                    assert(claims.list()[j].1 == ip);
                }
            }
            if old(self).sound() {
                assert forall|name: Seq<char>| #[trigger]
                    self.addr_of(name) is Some implies !self.allocator.is_free(
                    self.addr_of(name)->0,
                ) && self.owner_of(self.addr_of(name)->0) == Some(name) by {
                    assert(old(self).addr_of(name) is Some);
                }
            }
        }
    }

    /// Reserve an address for an app and say how its endpoint is to be set up.
    /// Fails on a bad allowlist, and where no address is left.
    pub fn prepare_endpoint(&mut self, name: &str, allow: &Vec<String>) -> (r: Result<
        Attachment,
        String,
    >)
        requires
            old(self).wf(),
        ensures
            final(self).wf(),
            final(self).same_apps(*old(self)),
            match r {
                Ok(a) => {
                    let ip = a.plan.container_ip;
                    &&& rules_of(texts(allow@)) == Ok::<Seq<RuleView>, Seq<char>>(a.allowlist@)
                    &&& a.allowlist.wf()
                    &&& a.name@ == name@
                    &&& a.plan.is_for(name@, ip, old(self).allocator.subnet_view().prefix)
                    &&& old(self).allocator.is_free(ip)
                    &&& forall|x: u32| #[trigger] old(self).allocator.is_free(x) ==> ip <= x
                    &&& final(self).reserved(*old(self), ip)
                },
                Err(e) => {
                    &&& forall|x: u32| #[trigger]
                        final(self).allocator.is_free(x) <==> old(self).allocator.is_free(x)
                    &&& match rules_of(texts(allow@)) {
                        Err(m) => e@ == m,
                        Ok(_) => (forall|x: u32| !(#[trigger] old(self).allocator.is_free(x))) && e@
                            == "subnet "@ + old(self).allocator.subnet_view().text()
                            + " exhausted"@,
                    }
                },
            },
            old(self).sound() ==> final(self).sound(),
            // Nobody holds the address that was reserved.
            old(self).sound() && r is Ok ==> forall|n: Seq<char>| #[trigger]
                final(self).addr_of(n) != Some(r->Ok_0.plan.container_ip),
    {
        let allowlist = match Allowlist::parse(allow) {
            Ok(a) => a,
            Err(e) => {
                return Err(e);
            },
        };
        let got = self.allocator.allocate();
        proof {
            if old(self).sound() {
                assert forall|n: Seq<char>| #[trigger]
                    self.addr_of(n) is Some implies !self.allocator.is_free(self.addr_of(n)->0)
                    && self.owner_of(self.addr_of(n)->0) == Some(n) by {
                    assert(old(self).addr_of(n) is Some);
                }
                assert forall|n: Seq<char>| got is Ok implies #[trigger] self.addr_of(n) != Some(
                    got->Ok_0,
                ) by {
                    assert(self.addr_of(n) == old(self).addr_of(n));
                }
            }
        }
        match got {
            Ok(ip) => {
                let plan = EndpointPlan::new(name, ip, self.allocator.subnet());
                Ok(Attachment { name: name.to_owned(), plan, allowlist })
            },
            Err(e) => Err(e),
        }
    }

    /// The state with an endpoint entered for an app.
    pub open spec fn entered(
        self,
        old_state: Egress,
        name: Seq<char>,
        plan: EndpointPlan,
        rules: Allowlist,
    ) -> bool {
        let ip = plan.container_ip;
        &&& self.allocator == old_state.allocator
        &&& forall|n: Seq<char>| #[trigger]
            self.apps.lookup(n) == (if n == name {
                Some(HeldEndpoint { container_ip: ip, plan })
            } else {
                old_state.apps.lookup(n)
            })
        &&& self.registry@.dom() == old_state.registry@.dom().insert(ip)
        &&& self.registry@[ip].app_id@ == name
        &&& self.registry@[ip].allowlist == rules
        &&& forall|x: u32|
            x != ip && old_state.registry@.contains_key(x) ==> #[trigger] self.registry@[x]
                == old_state.registry@[x]
    }

    proof fn lemma_entering_keeps_sound(
        before: Egress,
        after: Egress,
        name: Seq<char>,
        plan: EndpointPlan,
        rules: Allowlist,
    )
        requires
            before.sound(),
            after.entered(before, name, plan, rules),
            !before.allocator.is_free(plan.container_ip),
            forall|n: Seq<char>|
                n != name ==> #[trigger] before.addr_of(n) != Some(plan.container_ip),
        ensures
            after.sound(),
    {
        assert forall|n: Seq<char>| #[trigger]
            after.addr_of(n) is Some implies !after.allocator.is_free(after.addr_of(n)->0)
            && after.owner_of(after.addr_of(n)->0) == Some(n) by {
            assert(after.apps.lookup(n) == (if n == name {
                Some(HeldEndpoint { container_ip: plan.container_ip, plan })
            } else {
                before.apps.lookup(n)
            }));
            if n == name {
                assert(after.registry@.dom().contains(plan.container_ip));
            } else {
                assert(before.addr_of(n) is Some);
                let x = before.addr_of(n)->0;
                assert(before.registry@.contains_key(x));
                assert(after.registry@.dom().contains(x));
                assert(after.registry@[x] == before.registry@[x]);
            }
        }
    }

    fn enter(&mut self, name: String, plan: EndpointPlan, allowlist: Allowlist) -> (r: Endpoint)
        requires
            old(self).wf(),
        ensures
            final(self).wf(),
            final(self).entered(*old(self), name@, plan, allowlist),
            r.container_ip == plan.container_ip,
            r.netns_path@ == plan.ns_path@,
    {
        let ip: u32 = plan.container_ip;
        let ep = Endpoint { container_ip: ip, netns_path: plan.ns_path.clone() };
        self.registry.insert(ip, AppEntry { app_id: name.clone(), allowlist });
        self.apps.insert(name, HeldEndpoint { container_ip: ip, plan });
        ep
    }

    /// Enter the endpoint once the host has been set up. Where that failed, the
    /// address goes back and nothing else changes.
    pub fn commit_endpoint(
        &mut self,
        attachment: Attachment,
        attached: Result<(), String>,
    ) -> (r: Result<Endpoint, String>)
        requires
            old(self).wf(),
        ensures
            final(self).wf(),
            match attached {
                Ok(_) => {
                    &&& r is Ok
                    &&& r->Ok_0.container_ip == attachment.plan.container_ip
                    &&& r->Ok_0.netns_path@ == attachment.plan.ns_path@
                    &&& final(self).entered(
                        *old(self),
                        attachment.name@,
                        attachment.plan,
                        attachment.allowlist,
                    )
                },
                Err(e) => {
                    let ip = attachment.plan.container_ip;
                    &&& r is Err
                    &&& r->Err_0@ == "attach endpoint: "@ + e@
                    &&& final(self).same_apps(*old(self))
                    &&& final(self).returned(*old(self), ip)
                },
            },
            old(self).sound() && !old(self).allocator.is_free(attachment.plan.container_ip) && (
            forall|n: Seq<char>| #[trigger]
                old(self).addr_of(n) != Some(attachment.plan.container_ip)) ==> final(self).sound(),
    {
        match attached {
            Ok(_) => {
                let ghost a = attachment;
                let ep = self.enter(attachment.name, attachment.plan, attachment.allowlist);
                proof {
                    if old(self).sound() && !old(self).allocator.is_free(a.plan.container_ip) && (
                    forall|n: Seq<char>| #[trigger]
                        old(self).addr_of(n) != Some(a.plan.container_ip)) {
                        Egress::lemma_entering_keeps_sound(
                            *old(self),
                            *self,
                            a.name@,
                            a.plan,
                            a.allowlist,
                        );
                    }
                }
                Ok(ep)
            },
            Err(e) => {
                self.allocator.release(attachment.plan.container_ip);
                proof {
                    if old(self).sound() && (forall|n: Seq<char>| #[trigger]
                        old(self).addr_of(n) != Some(attachment.plan.container_ip)) {
                        assert forall|n: Seq<char>| #[trigger]
                            self.addr_of(n) is Some implies !self.allocator.is_free(
                            self.addr_of(n)->0,
                        ) && self.owner_of(self.addr_of(n)->0) == Some(n) by {
                            assert(old(self).addr_of(n) is Some);
                        }
                    }
                }
                let mut m = String::from_str("attach endpoint: ");
                m.append(e.as_str());
                Err(m)
            },
        }
    }

    /// Enter an endpoint that is already set up on the host.
    pub fn reattach_endpoint(
        &mut self,
        name: &str,
        container_ip: u32,
        allow: &Vec<String>,
    ) -> (r: Result<Endpoint, String>)
        requires
            old(self).wf(),
        ensures
            final(self).wf(),
            match r {
                Ok(ep) => {
                    &&& ep.container_ip == container_ip
                    &&& ep.netns_path@ == "/var/run/netns/"@ + (NS_PREFIX@ + name@)
                    &&& exists|plan: EndpointPlan, rules: Allowlist|
                        plan.is_for(
                            name@,
                            container_ip,
                            old(self).allocator.subnet_view().prefix,
                        ) && rules_of(texts(allow@)) == Ok::<Seq<RuleView>, Seq<char>>(rules@)
                            && #[trigger] final(self).entered(*old(self), name@, plan, rules)
                },
                Err(e) => {
                    &&& rules_of(texts(allow@)) == Err::<Seq<RuleView>, Seq<char>>(e@)
                    &&& *final(self) == *old(self)
                },
            },
            old(self).sound() && !old(self).allocator.is_free(container_ip) && (forall|
                n: Seq<char>,
            |
                n != name@ ==> #[trigger] old(self).addr_of(n) != Some(container_ip)) ==> final(self).sound(),
    {
        let allowlist = match Allowlist::parse(allow) {
            Ok(a) => a,
            Err(e) => {
                return Err(e);
            },
        };
        let plan = EndpointPlan::new(name, container_ip, self.allocator.subnet());
        let ghost (p, rules) = (plan, allowlist);
        let ep = self.enter(name.to_owned(), plan, allowlist);
        proof {
            assert(self.entered(*old(self), name@, p, rules));
            if old(self).sound() && !old(self).allocator.is_free(container_ip) && (forall|
                n: Seq<char>,
            |
                n != name@ ==> #[trigger] old(self).addr_of(n) != Some(container_ip)) {
                Egress::lemma_entering_keeps_sound(*old(self), *self, name@, p, rules);
            }
        }
        Ok(ep)
    }

    /// How to take down an endpoint that nobody claimed.
    pub fn orphan_plan(&self, name: &str, container_ip: u32) -> (r: EndpointPlan)
        ensures
            r.is_for(name@, container_ip, self.allocator.subnet_view().prefix),
    {
        EndpointPlan::new(name, container_ip, self.allocator.subnet())
    }

    /// Give back the address of an endpoint that nobody claimed.
    pub fn cleanup_orphan_endpoint(&mut self, container_ip: u32)
        requires
            old(self).wf(),
        ensures
            final(self).wf(),
            final(self).same_apps(*old(self)),
            final(self).returned(*old(self), container_ip),
            old(self).sound() && (forall|n: Seq<char>| #[trigger]
                old(self).addr_of(n) != Some(container_ip)) ==> final(self).sound(),
    {
        self.allocator.release(container_ip);
        proof {
            if old(self).sound() && (forall|n: Seq<char>| #[trigger]
                old(self).addr_of(n) != Some(container_ip)) {
                assert forall|n: Seq<char>| #[trigger]
                    self.addr_of(n) is Some implies !self.allocator.is_free(self.addr_of(n)->0)
                    && self.owner_of(self.addr_of(n)->0) == Some(n) by {
                    assert(old(self).addr_of(n) is Some);
                }
            }
        }
    }

    /// Forget an app's endpoint before the host is touched: the app is dropped
    /// everywhere and its address goes back. Says what is left to take down on
    /// the host, or nothing if the app holds no endpoint.
    pub fn release_endpoint(&mut self, name: &str) -> (r: Option<HeldEndpoint>)
        requires
            old(self).wf(),
        ensures
            final(self).wf(),
            r == old(self).apps.lookup(name@),
            match r {
                Some(h) => final(self).let_go(*old(self), name@, h.container_ip),
                None => {
                    &&& forall|n: Seq<char>| #[trigger]
                        final(self).apps.lookup(n) == old(self).apps.lookup(n)
                    &&& final(self).registry == old(self).registry
                    &&& final(self).allocator == old(self).allocator
                },
            },
            old(self).sound() ==> final(self).sound(),
    {
        match self.apps.remove(name) {
            Some(h) => {
                self.registry.remove(h.container_ip);
                self.allocator.release(h.container_ip);
                proof {
                    if old(self).sound() {
                        assert(old(self).addr_of(name@) == Some(h.container_ip));
                        assert forall|n: Seq<char>| #[trigger]
                            self.addr_of(n) is Some implies !self.allocator.is_free(
                            self.addr_of(n)->0,
                        ) && self.owner_of(self.addr_of(n)->0) == Some(n) by {
                            assert(self.apps.lookup(n) == (if n == name@ {
                                None
                            } else {
                                old(self).apps.lookup(n)
                            }));
                            assert(old(self).addr_of(n) is Some);
                            old(self).lemma_addresses_differ(n, name@);
                        }
                    }
                }
                Some(h)
            },
            None => {
                proof {
                    assert forall|n: Seq<char>| #[trigger]
                        self.apps.lookup(n) == old(self).apps.lookup(n) by {}
                    if old(self).sound() {
                        assert forall|n: Seq<char>| #[trigger]
                            self.addr_of(n) is Some implies !self.allocator.is_free(
                            self.addr_of(n)->0,
                        ) && self.owner_of(self.addr_of(n)->0) == Some(n) by {
                            assert(self.apps.lookup(n) == old(self).apps.lookup(n));
                            assert(old(self).addr_of(n) is Some);
                        }
                    }
                }
                None
            },
        }
    }
}

// ---- laws ------------------------------------------------------------------

/// Releasing an endpoint undoes its allocation: an app that held no endpoint
/// before holds none afterwards, nobody else is touched, and the same addresses
/// are free.
pub proof fn lemma_release_undoes_allocation(
    before: Egress,
    prepared: Egress,
    attached: Egress,
    after: Egress,
    name: Seq<char>,
    plan: EndpointPlan,
    rules: Allowlist,
)
    requires
        before.wf(),
        before.addr_of(name) is None,
        before.owner_of(plan.container_ip) is None,
        before.allocator.is_free(plan.container_ip),
        prepared.reserved(before, plan.container_ip),
        attached.entered(prepared, name, plan, rules),
        after.let_go(attached, name, plan.container_ip),
    ensures
        forall|n: Seq<char>| #[trigger] after.apps.lookup(n) == before.apps.lookup(n),
        after.registry@ == before.registry@,
        forall|x: u32| #[trigger]
            after.allocator.is_free(x) <==> before.allocator.is_free(x),
{
    let ip = plan.container_ip;
    before.allocator.lemma_free_is_ours(ip);
    assert forall|n: Seq<char>| #[trigger] after.apps.lookup(n) == before.apps.lookup(n) by {
        assert(attached.apps.lookup(n) == (if n == name {
            Some(HeldEndpoint { container_ip: ip, plan })
        } else {
            prepared.apps.lookup(n)
        }));
        assert(before.addr_of(n) is None <==> before.apps.lookup(n) is None);
    }
    assert(after.registry@ =~= before.registry@);
    assert forall|x: u32| #[trigger] after.allocator.is_free(x) <==> before.allocator.is_free(
        x,
    ) by {
        assert(prepared.allocator.is_free(x) <==> before.allocator.is_free(x) && x != ip);
    }
}

/// An endpoint that could not be set up leaves no trace.
pub proof fn lemma_failed_allocation_leaves_no_trace(
    before: Egress,
    prepared: Egress,
    after: Egress,
    ip: u32,
)
    requires
        before.wf(),
        before.allocator.is_free(ip),
        prepared.reserved(before, ip),
        after.same_apps(prepared),
        after.returned(prepared, ip),
    ensures
        after.same_apps(before),
        forall|x: u32| #[trigger]
            after.allocator.is_free(x) <==> before.allocator.is_free(x),
{
    before.allocator.lemma_free_is_ours(ip);
    assert forall|x: u32| #[trigger] after.allocator.is_free(x) <==> before.allocator.is_free(
        x,
    ) by {
        assert(prepared.allocator.is_free(x) <==> before.allocator.is_free(x) && x != ip);
    }
}

/// What was found for a name is what the last of its lines with an address says.
pub proof fn lemma_found_address(
    found: Seq<(String, Option<u32>)>,
    line: (String, Option<u32>),
    name: Seq<char>,
)
    ensures
        found.len() == 0 ==> found_address(found, name) is None,
        line.0@ == name && line.1 is Some ==> found_address(found.push(line), name) == line.1,
        line.0@ != name || line.1 is None ==> found_address(found.push(line), name)
            == found_address(found, name),
{
    assert(found.push(line).drop_last() =~= found);
}

/// Reserving an address takes that address out of rotation and no other, and
/// touches no app.
pub proof fn lemma_reserved(before: Egress, after: Egress, ip: u32, other: u32)
    requires
        after.reserved(before, ip),
        other != ip,
    ensures
        !after.allocator.is_free(ip),
        after.allocator.is_free(other) <==> before.allocator.is_free(other),
        after.apps == before.apps,
        after.registry == before.registry,
        after.allocator.subnet_view() == before.allocator.subnet_view(),
        after.allocator.bridge_view() == before.allocator.bridge_view(),
{
}

/// Returning an address puts it back into rotation where it is one to give, and
/// changes nothing for the others.
pub proof fn lemma_returned(before: Egress, after: Egress, ip: u32, other: u32)
    requires
        after.returned(before, ip),
        other != ip,
    ensures
        before.allocator.subnet_view().is_host(ip) && ip != before.allocator.bridge_view()
            ==> after.allocator.is_free(ip),
        !before.allocator.subnet_view().is_host(ip) || ip == before.allocator.bridge_view() ==> (
        after.allocator.is_free(ip) <==> before.allocator.is_free(ip)),
        after.allocator.is_free(other) <==> before.allocator.is_free(other),
{
}

/// An app that is let go holds no address, its queries are not known any more,
/// its address may be given to others; no other app and no other address is
/// touched.
pub proof fn lemma_let_go(
    before: Egress,
    after: Egress,
    name: Seq<char>,
    ip: u32,
    other: Seq<char>,
    elsewhere: u32,
)
    requires
        after.let_go(before, name, ip),
        other != name,
        elsewhere != ip,
    ensures
        after.addr_of(name) is None,
        after.owner_of(ip) is None,
        after.apps.lookup(name) is None,
        after.apps.lookup(other) == before.apps.lookup(other),
        after.addr_of(other) == before.addr_of(other),
        after.owner_of(elsewhere) == before.owner_of(elsewhere),
        before.allocator.subnet_view().is_host(ip) && ip != before.allocator.bridge_view()
            ==> after.allocator.is_free(ip),
        after.allocator.is_free(elsewhere) <==> before.allocator.is_free(elsewhere),
{
    assert(after.apps.lookup(name) is None);
    assert(after.apps.lookup(other) == before.apps.lookup(other));
}

/// An app whose endpoint is entered holds the address of its plan, is known at
/// that address with its own rules, and nobody else is touched.
pub proof fn lemma_entered(
    before: Egress,
    after: Egress,
    name: Seq<char>,
    plan: EndpointPlan,
    rules: Allowlist,
    other: Seq<char>,
    elsewhere: u32,
)
    requires
        after.entered(before, name, plan, rules),
        other != name,
        elsewhere != plan.container_ip,
    ensures
        after.addr_of(name) == Some(plan.container_ip),
        after.apps.lookup(name) is Some,
        after.apps.lookup(name)->0.plan == plan,
        after.owner_of(plan.container_ip) == Some(name),
        after.registry@.contains_key(plan.container_ip),
        after.registry@[plan.container_ip].allowlist == rules,
        after.apps.lookup(other) == before.apps.lookup(other),
        after.registry@.contains_key(elsewhere) <==> before.registry@.contains_key(elsewhere),
        before.registry@.contains_key(elsewhere) ==> after.registry@[elsewhere]
            == before.registry@[elsewhere],
        after.allocator == before.allocator,
{
    assert(after.apps.lookup(name) == Some(
        HeldEndpoint { container_ip: plan.container_ip, plan },
    ));
    assert(after.apps.lookup(other) == before.apps.lookup(other));
    assert(after.registry@.dom().contains(plan.container_ip));
}

/// The address that an app holds is the one of its endpoint, and the owner of an
/// address is the app that is registered there.
pub proof fn lemma_holders(e: Egress, name: Seq<char>, ip: u32)
    ensures
        e.apps.lookup(name) is None <==> e.addr_of(name) is None,
        e.apps.lookup(name) matches Some(h) ==> e.addr_of(name) == Some(h.container_ip),
        e.owner_of(ip) is Some <==> e.registry@.contains_key(ip),
        e.registry@.contains_key(ip) ==> e.owner_of(ip) == Some(e.registry@[ip].app_id@),
{
}

/// In a sound state an address that some app holds is not free, and names asked
/// for from there are decided by that app's rules.
pub proof fn lemma_sound(e: Egress, name: Seq<char>, ip: u32)
    requires
        e.sound(),
        e.addr_of(name) == Some(ip),
    ensures
        !e.allocator.is_free(ip),
        e.registry@.contains_key(ip),
        e.registry@[ip].app_id@ == name,
{
}

} // verus!
