//! Live endpoints, found by the app's name or by its address.

use std::collections::HashMap;
use std::sync::Arc;

use vstd::prelude::*;

use super::allowlist::Allowlist;
use super::netns::EndpointPlan;
use crate::namemap::NameMap;

verus! {

broadcast use vstd::std_specs::hash::group_hash_axioms;

/// What is known of a live endpoint. Its name and its address are the keys
/// under which it is found.
#[derive(Debug)]
pub struct AllocatedApp {
    pub name: String,
    pub container_ip: u32,
    pub plan: EndpointPlan,
    pub allowlist: Allowlist,
}

/// Endpoints under two keys.
#[derive(Debug)]
pub struct EndpointStore {
    by_name: NameMap<Arc<AllocatedApp>>,
    by_ip: HashMap<u32, Arc<AllocatedApp>>,
}

impl EndpointStore {
    /// No name is entered twice.
    pub closed spec fn names_differ(self) -> bool {
        self.by_name.wf()
    }

    /// Each endpoint has one name and one address, and is found under both.
    pub open spec fn wf(self) -> bool {
        self.names_differ() && self.coherent()
    }

    /// The endpoint under a name.
    pub closed spec fn named(self, name: Seq<char>) -> Option<AllocatedApp> {
        match self.by_name.lookup(name) {
            Some(a) => Some(*a),
            None => None,
        }
    }

    /// The endpoint under an address.
    pub closed spec fn located(self, ip: u32) -> Option<AllocatedApp> {
        if self.by_ip@.contains_key(ip) {
            Some(*self.by_ip@[ip])
        } else {
            None
        }
    }

    /// Both keys lead to the same endpoints.
    pub open spec fn coherent(self) -> bool {
        &&& forall|name: Seq<char>| #[trigger]
            self.named(name) is Some ==> self.named(name)->0.name@ == name && self.located(
                self.named(name)->0.container_ip,
            ) == self.named(name)
        &&& forall|ip: u32| #[trigger]
            self.located(ip) is Some ==> self.located(ip)->0.container_ip == ip && self.named(
                self.located(ip)->0.name@,
            ) == self.located(ip)
    }

    pub fn new() -> (r: EndpointStore)
        ensures
            r.wf(),
            forall|name: Seq<char>| (#[trigger] r.named(name)) is None,
            forall|ip: u32| (#[trigger] r.located(ip)) is None,
    {
        EndpointStore { by_name: NameMap::new(), by_ip: HashMap::new() }
    }

    /// Register an endpoint under both keys. An endpoint of the same name or at
    /// the same address gives way, under both of its own keys.
    pub fn insert(&mut self, app: AllocatedApp)
        requires
            old(self).wf(),
        ensures
            final(self).wf(),
            forall|name: Seq<char>| #[trigger]
                final(self).named(name) == (if name == app.name@ {
                    Some(app)
                } else if old(self).located(app.container_ip) matches Some(o) && o.name@ == name {
                    None
                } else {
                    old(self).named(name)
                }),
            forall|ip: u32| #[trigger]
                final(self).located(ip) == (if ip == app.container_ip {
                    Some(app)
                } else if old(self).named(app.name@) matches Some(o) && o.container_ip == ip {
                    None
                } else {
                    old(self).located(ip)
                }),
            forall|ip: u32|
                ip != app.container_ip ==> !((#[trigger] final(self).located(ip)) matches Some(o)
                    && o.name@ == app.name@),
    {
        let name = app.name.clone();
        let ip: u32 = app.container_ip;
        let shared = Arc::new(app);
        let old_ip: Option<u32> = match self.by_name.get(name.as_str()) {
            Some(o) => Some(o.container_ip),
            None => None,
        };
        let old_name: Option<String> = match self.by_ip.get(&ip) {
            Some(o) => Some(o.name.clone()),
            None => None,
        };
        if let Some(a) = old_ip {
            self.by_ip.remove(&a);
        }
        if let Some(n) = &old_name {
            self.by_name.remove(n.as_str());
        }
        let ghost cleared = *self;
        self.by_name.insert(name, Arc::clone(&shared));
        self.by_ip.insert(ip, shared);
        proof {
            assert forall|n: Seq<char>| #[trigger]
                self.named(n) == (if n == app.name@ {
                    Some(app)
                } else if old(self).located(ip) matches Some(o) && o.name@ == n {
                    None
                } else {
                    old(self).named(n)
                }) by {
                assert(self.by_name.lookup(n) == (if n == app.name@ {
                    Some(shared)
                } else {
                    cleared.by_name.lookup(n)
                }));
                assert(cleared.by_name.lookup(n) == (if old_name is Some && old_name->0@ == n {
                    None
                } else {
                    old(self).by_name.lookup(n)
                }));
            }
            assert forall|n: Seq<char>| #[trigger] self.named(n) is Some implies self.named(
                n,
            )->0.name@ == n && self.located(self.named(n)->0.container_ip) == self.named(n) by {
                if n != app.name@ {
                    assert(old(self).named(n) is Some);
                    let o = old(self).named(n)->0;
                    assert(old(self).located(o.container_ip) == Some(o));
                    if old(self).named(app.name@) is Some {
                        let p = old(self).named(app.name@)->0;
                        assert(old(self).located(p.container_ip) == Some(p));
                    }
                }
            }
            assert forall|a: u32| #[trigger] self.located(a) is Some implies self.located(
                a,
            )->0.container_ip == a && self.named(self.located(a)->0.name@) == self.located(
                a,
            ) by {
                if a != ip {
                    assert(old(self).located(a) is Some);
                    let o = old(self).located(a)->0;
                    assert(old(self).named(o.name@) == Some(o));
                    if old(self).located(ip) is Some {
                        let p = old(self).located(ip)->0;
                        assert(old(self).named(p.name@) == Some(p));
                    }
                }
            }
        }
    }

    /// Drop the endpoint under a name, from both keys.
    pub fn remove_by_name(&mut self, name: &str) -> (r: Option<Arc<AllocatedApp>>)
        requires
            old(self).wf(),
        ensures
            final(self).wf(),
            match r {
                Some(app) => {
                    &&& old(self).named(name@) == Some(*app)
                    &&& forall|n: Seq<char>| #[trigger]
                        final(self).named(n) == (if n == name@ {
                            None
                        } else {
                            old(self).named(n)
                        })
                    &&& forall|ip: u32| #[trigger]
                        final(self).located(ip) == (if ip == app.container_ip {
                            None
                        } else {
                            old(self).located(ip)
                        })
                },
                None => {
                    &&& old(self).named(name@) is None
                    &&& forall|n: Seq<char>| #[trigger]
                        final(self).named(n) == old(self).named(n)
                    &&& forall|ip: u32| #[trigger]
                        final(self).located(ip) == old(self).located(ip)
                },
            },
            final(self).named(name@) is None,
            forall|ip: u32|
                !((#[trigger] final(self).located(ip)) matches Some(o) && o.name@ == name@),
    {
        match self.by_name.remove(name) {
            Some(app) => {
                self.by_ip.remove(&app.container_ip);
                proof {
                    assert forall|n: Seq<char>| #[trigger] self.named(n) == (if n == name@ {
                        None
                    } else {
                        old(self).named(n)
                    }) by {
                        assert(self.by_name.lookup(n) == (if n == name@ {
                            None
                        } else {
                            old(self).by_name.lookup(n)
                        }));
                    }
                    assert(old(self).named(name@) == Some(*app));
                    assert forall|n: Seq<char>| #[trigger]
                        self.named(n) is Some implies self.named(n)->0.name@ == n
                        && self.located(self.named(n)->0.container_ip) == self.named(n) by {
                        assert(old(self).named(n) is Some);
                        let other = old(self).named(n)->0;
                        assert(old(self).located(other.container_ip) == Some(other));
                        assert(old(self).located(app.container_ip) == Some(*app));
                    }
                    assert forall|a: u32| #[trigger]
                        self.located(a) is Some implies self.located(a)->0.container_ip == a
                        && self.named(self.located(a)->0.name@) == self.located(a) by {
                        assert(old(self).located(a) is Some);
                        let other = old(self).located(a)->0;
                        assert(old(self).named(other.name@) == Some(other));
                    }
                }
                Some(app)
            },
            None => {
                proof {
                    assert forall|n: Seq<char>| #[trigger]
                        self.named(n) == old(self).named(n) by {
                        assert(self.by_name.lookup(n) == (if n == name@ {
                            None
                        } else {
                            old(self).by_name.lookup(n)
                        }));
                    }
                    assert forall|n: Seq<char>| #[trigger]
                        self.named(n) is Some implies self.named(n)->0.name@ == n
                        && self.located(self.named(n)->0.container_ip) == self.named(n) by {
                        assert(old(self).named(n) is Some);
                    }
                    assert forall|a: u32| #[trigger]
                        self.located(a) is Some implies self.located(a)->0.container_ip == a
                        && self.named(self.located(a)->0.name@) == self.located(a) by {
                        assert(old(self).located(a) is Some);
                    }
                }
                None
            },
        }
    }

    /// The endpoint that an address belongs to.
    pub fn lookup_by_ip(&self, ip: u32) -> (r: Option<Arc<AllocatedApp>>)
        ensures
            match r {
                Some(app) => self.located(ip) == Some(*app),
                None => self.located(ip) is None,
            },
    {
        match self.by_ip.get(&ip) {
            Some(app) => Some(Arc::clone(app)),
            None => None,
        }
    }
}

// ---- laws ------------------------------------------------------------------

/// An address leads to an app only if it is the app's one address.
pub proof fn lemma_one_address_each(store: EndpointStore, ip: u32, other: u32)
    requires
        store.wf(),
        store.located(ip) is Some,
    ensures
        store.named(store.located(ip)->0.name@) == store.located(ip),
        store.located(ip)->0.container_ip == ip,
        other != ip ==> !(store.located(other) matches Some(o) && o.name@ == store.located(
            ip,
        )->0.name@),
{
    if store.located(other) is Some {
        assert(store.named(store.located(other)->0.name@) == store.located(other));
    }
}

} // verus!
