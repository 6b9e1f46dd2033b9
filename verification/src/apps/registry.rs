//! The set of registered apps, found by name or by subdomain.

use std::sync::Arc;

use vstd::prelude::*;

use crate::config::spec::AppIdentity;
use crate::namemap::NameMap;

verus! {

/// Why an app could not be entered.
#[derive(Debug, Clone, Copy, PartialEq, Eq, Structural)]
pub enum InsertCollision {
    NameTaken,
    SubdomainTaken,
}

/// A registered app: who it is, and whatever is kept for it.
#[derive(Debug)]
pub struct Registered<V> {
    pub identity: AppIdentity,
    pub value: V,
}

/// Registered apps under two keys, their names and their subdomains.
#[derive(Debug)]
pub struct Registry<V> {
    by_name: NameMap<Arc<Registered<V>>>,
    by_subdomain: NameMap<Arc<Registered<V>>>,
}

/// The last of some apps with a name.
pub open spec fn last_named<V>(apps: Seq<Arc<Registered<V>>>, name: Seq<char>) -> Option<
    Registered<V>,
>
    decreases apps.len(),
{
    if apps.len() == 0 {
        None
    } else if apps.last().identity.name@ == name {
        Some(*apps.last())
    } else {
        last_named(apps.drop_last(), name)
    }
}

/// The last of some apps with a subdomain.
pub open spec fn last_at<V>(apps: Seq<Arc<Registered<V>>>, subdomain: Seq<char>) -> Option<
    Registered<V>,
>
    decreases apps.len(),
{
    if apps.len() == 0 {
        None
    } else if apps.last().identity.subdomain@ == subdomain {
        Some(*apps.last())
    } else {
        last_at(apps.drop_last(), subdomain)
    }
}

/// No two of the apps share a name or a subdomain.
pub open spec fn all_differ<V>(apps: Seq<Arc<Registered<V>>>) -> bool {
    forall|i: int, j: int|
        0 <= i < j < apps.len() ==> (#[trigger] apps[i]).identity.name@ != (
        #[trigger] apps[j]).identity.name@ && apps[i].identity.subdomain@
            != apps[j].identity.subdomain@
}

impl<V> Registry<V> {
    pub closed spec fn wf(self) -> bool {
        self.by_name.wf() && self.by_subdomain.wf()
    }

    /// The app with a name.
    pub closed spec fn named(self, name: Seq<char>) -> Option<Registered<V>> {
        match self.by_name.lookup(name) {
            Some(a) => Some(*a),
            None => None,
        }
    }

    /// The app at a subdomain.
    pub closed spec fn at_subdomain(self, subdomain: Seq<char>) -> Option<Registered<V>> {
        match self.by_subdomain.lookup(subdomain) {
            Some(a) => Some(*a),
            None => None,
        }
    }

    /// How many apps are registered.
    pub closed spec fn size(self) -> nat {
        self.by_name.list().len()
    }

    /// The app that was registered as the `i`th of those that are.
    pub closed spec fn nth(self, i: int) -> Registered<V> {
        *self.by_name.list()[i].1
    }

    /// Both keys lead to the same apps.
    pub open spec fn coherent(self) -> bool {
        &&& forall|name: Seq<char>| #[trigger]
            self.named(name) is Some ==> self.named(name)->0.identity.name@ == name
                && self.at_subdomain(self.named(name)->0.identity.subdomain@) == self.named(name)
        &&& forall|sub: Seq<char>| #[trigger]
            self.at_subdomain(sub) is Some ==> self.at_subdomain(sub)->0.identity.subdomain@ == sub
                && self.named(self.at_subdomain(sub)->0.identity.name@) == self.at_subdomain(sub)
    }

    pub fn new() -> (r: Registry<V>)
        ensures
            r.wf(),
            r.coherent(),
            r.size() == 0,
            forall|name: Seq<char>| (#[trigger] r.named(name)) is None,
            forall|sub: Seq<char>| (#[trigger] r.at_subdomain(sub)) is None,
    {
        Registry { by_name: NameMap::new(), by_subdomain: NameMap::new() }
    }

    /// The state with an app put under both keys.
    pub open spec fn put(self, before: Registry<V>, app: Registered<V>) -> bool {
        &&& forall|n: Seq<char>| #[trigger]
            self.named(n) == (if n == app.identity.name@ {
                Some(app)
            } else {
                before.named(n)
            })
        &&& forall|s: Seq<char>| #[trigger]
            self.at_subdomain(s) == (if s == app.identity.subdomain@ {
                Some(app)
            } else {
                before.at_subdomain(s)
            })
    }

    /// The state without a name and without a subdomain.
    pub open spec fn dropped(
        self,
        before: Registry<V>,
        name: Seq<char>,
        subdomain: Seq<char>,
    ) -> bool {
        &&& forall|n: Seq<char>| #[trigger]
            self.named(n) == (if n == name {
                None
            } else {
                before.named(n)
            })
        &&& forall|s: Seq<char>| #[trigger]
            self.at_subdomain(s) == (if s == subdomain {
                None
            } else {
                before.at_subdomain(s)
            })
    }

    proof fn lemma_put_keeps_coherent(
        before: Registry<V>,
        after: Registry<V>,
        app: &Registered<V>,
    )
        requires
            before.coherent(),
            after.put(before, *app),
            before.named(app.identity.name@) is None,
            before.at_subdomain(app.identity.subdomain@) is None,
        ensures
            after.coherent(),
    {
        assert forall|n: Seq<char>| #[trigger] after.named(n) is Some implies after.named(
            n,
        )->0.identity.name@ == n && after.at_subdomain(after.named(n)->0.identity.subdomain@)
            == after.named(n) by {
            if n != app.identity.name@ {
                assert(before.named(n) is Some);
            }
        }
        assert forall|s: Seq<char>| #[trigger] after.at_subdomain(s) is Some implies after.at_subdomain(
            s,
        )->0.identity.subdomain@ == s && after.named(after.at_subdomain(s)->0.identity.name@)
            == after.at_subdomain(s) by {
            if s != app.identity.subdomain@ {
                assert(before.at_subdomain(s) is Some);
            }
        }
    }

    fn put_app(&mut self, app: Arc<Registered<V>>)
        requires
            old(self).wf(),
        ensures
            final(self).wf(),
            final(self).put(*old(self), *app),
            final(self).size() == old(self).size() + if old(self).named(app.identity.name@) is Some {
                0int
            } else {
                1int
            },
    {
        let name = app.identity.name.clone();
        let subdomain = app.identity.subdomain.clone();
        self.by_subdomain.insert(subdomain, Arc::clone(&app));
        self.by_name.insert(name, app);
        proof {
            let a = *app;
            assert forall|n: Seq<char>| #[trigger] self.named(n) == (if n == a.identity.name@ {
                Some(a)
            } else {
                old(self).named(n)
            }) by {
                assert(self.by_name.lookup(n) == (if n == a.identity.name@ {
                    Some(app)
                } else {
                    old(self).by_name.lookup(n)
                }));
            }
            assert forall|s: Seq<char>| #[trigger] self.at_subdomain(s) == (if s
                == a.identity.subdomain@ {
                Some(a)
            } else {
                old(self).at_subdomain(s)
            }) by {
                assert(self.by_subdomain.lookup(s) == (if s == a.identity.subdomain@ {
                    Some(app)
                } else {
                    old(self).by_subdomain.lookup(s)
                }));
            }
        }
    }

    /// A registry of the given apps. Of two with the same name or the same
    /// subdomain, the later one is found under it.
    pub fn from_handles(apps: Vec<Arc<Registered<V>>>) -> (r: Registry<V>)
        ensures
            r.wf(),
            forall|n: Seq<char>| #[trigger] r.named(n) == last_named(apps@, n),
            forall|s: Seq<char>| #[trigger] r.at_subdomain(s) == last_at(apps@, s),
            all_differ(apps@) ==> r.coherent() && r.size() == apps@.len(),
    {
        let mut registry: Registry<V> = Registry::new();
        let mut i: usize = 0;
        while i < apps.len()
            invariant
                i <= apps@.len(),
                registry.wf(),
                forall|n: Seq<char>| #[trigger]
                    registry.named(n) == last_named(apps@.take(i as int), n),
                forall|s: Seq<char>| #[trigger]
                    registry.at_subdomain(s) == last_at(apps@.take(i as int), s),
                all_differ(apps@) ==> registry.coherent() && registry.size() == i,
            decreases apps@.len() - i,
        {
            let ghost before = registry;
            let ghost head = apps@.take(i as int);
            let app = Arc::clone(&apps[i]);
            registry.put_app(app);
            proof {
                assert(apps@.take(i + 1).drop_last() =~= head);
                assert(apps@.take(i + 1).last() == apps@[i as int]);
                assert forall|n: Seq<char>| #[trigger] registry.named(n) == last_named(
                    apps@.take(i + 1),
                    n,
                ) by {
                    assert(before.named(n) == last_named(head, n));
                }
                assert forall|s: Seq<char>| #[trigger] registry.at_subdomain(s) == last_at(
                    apps@.take(i + 1),
                    s,
                ) by {
                    assert(before.at_subdomain(s) == last_at(head, s));
                }
                if all_differ(apps@) {
                    let a = *apps@[i as int];
                    lemma_absent(head, a.identity.name@, a.identity.subdomain@);
                    assert(before.named(a.identity.name@) is None);
                    assert(before.at_subdomain(a.identity.subdomain@) is None);
                    Registry::lemma_put_keeps_coherent(before, registry, &a);
                }
            }
            i += 1;
        }
        proof {
            assert(apps@.take(i as int) =~= apps@);
        }
        registry
    }

    pub fn len(&self) -> (r: usize)
        ensures
            r == self.size(),
    {
        self.by_name.len()
    }

    pub fn find_by_name(&self, name: &str) -> (r: Option<Arc<Registered<V>>>)
        requires
            self.wf(),
        ensures
            match r {
                Some(a) => self.named(name@) == Some(*a),
                None => self.named(name@) is None,
            },
    {
        match self.by_name.get(name) {
            Some(a) => Some(Arc::clone(a)),
            None => None,
        }
    }

    pub fn find_by_subdomain(&self, subdomain: &str) -> (r: Option<Arc<Registered<V>>>)
        requires
            self.wf(),
        ensures
            match r {
                Some(a) => self.at_subdomain(subdomain@) == Some(*a),
                None => self.at_subdomain(subdomain@) is None,
            },
    {
        match self.by_subdomain.get(subdomain) {
            Some(a) => Some(Arc::clone(a)),
            None => None,
        }
    }

    /// The collision that an app of this name and subdomain would run into, the
    /// name's first.
    pub open spec fn collision(self, name: Seq<char>, subdomain: Seq<char>) -> Option<
        InsertCollision,
    > {
        if self.named(name) is Some {
            Some(InsertCollision::NameTaken)
        } else if self.at_subdomain(subdomain) is Some {
            Some(InsertCollision::SubdomainTaken)
        } else {
            None
        }
    }

    pub fn would_collide(&self, name: &str, subdomain: &str) -> (r: Option<InsertCollision>)
        requires
            self.wf(),
        ensures
            r == self.collision(name@, subdomain@),
    {
        if self.by_name.contains(name) {
            Some(InsertCollision::NameTaken)
        } else if self.by_subdomain.contains(subdomain) {
            Some(InsertCollision::SubdomainTaken)
        } else {
            None
        }
    }

    /// Enter an app under both keys, unless one of them is taken.
    pub fn try_insert(&mut self, app: Arc<Registered<V>>) -> (r: Result<(), InsertCollision>)
        requires
            old(self).wf(),
        ensures
            final(self).wf(),
            match r {
                Ok(_) => {
                    &&& old(self).collision(app.identity.name@, app.identity.subdomain@) is None
                    &&& final(self).put(*old(self), *app)
                    &&& final(self).size() == old(self).size() + 1
                },
                Err(c) => old(self).collision(app.identity.name@, app.identity.subdomain@) == Some(
                    c,
                ) && *final(self) == *old(self),
            },
            old(self).coherent() ==> final(self).coherent(),
    {
        match self.would_collide(app.identity.name.as_str(), app.identity.subdomain.as_str()) {
            Some(c) => Err(c),
            None => {
                let shared = Arc::clone(&app);
                self.put_app(shared);
                proof {
                    if old(self).coherent() {
                        Registry::lemma_put_keeps_coherent(*old(self), *self, &*app);
                    }
                }
                Ok(())
            },
        }
    }

    /// Drop a name and a subdomain. Dropping what is not there changes nothing.
    pub fn remove(&mut self, name: &str, subdomain: &str)
        requires
            old(self).wf(),
        ensures
            final(self).wf(),
            final(self).dropped(*old(self), name@, subdomain@),
            final(self).size() == old(self).size() - if old(self).named(name@) is Some {
                1int
            } else {
                0int
            },
            // An app that is dropped with its own subdomain leaves no trace.
            old(self).coherent() && old(self).named(name@) is Some && old(self).named(
                name@,
            )->0.identity.subdomain@ == subdomain@ ==> final(self).coherent(),
    {
        self.by_name.remove(name);
        self.by_subdomain.remove(subdomain);
        proof {
            assert forall|n: Seq<char>| #[trigger] self.named(n) == (if n == name@ {
                None
            } else {
                old(self).named(n)
            }) by {
                assert(self.by_name.lookup(n) == (if n == name@ {
                    None
                } else {
                    old(self).by_name.lookup(n)
                }));
            }
            assert forall|s: Seq<char>| #[trigger] self.at_subdomain(s) == (if s == subdomain@ {
                None
            } else {
                old(self).at_subdomain(s)
            }) by {
                assert(self.by_subdomain.lookup(s) == (if s == subdomain@ {
                    None
                } else {
                    old(self).by_subdomain.lookup(s)
                }));
            }
            if old(self).coherent() && old(self).named(name@) is Some && old(self).named(
                name@,
            )->0.identity.subdomain@ == subdomain@ {
                assert forall|n: Seq<char>| #[trigger] self.named(n) is Some implies self.named(
                    n,
                )->0.identity.name@ == n && self.at_subdomain(self.named(n)->0.identity.subdomain@)
                    == self.named(n) by {
                    assert(old(self).named(n) is Some);
                    let other = old(self).named(n)->0;
                    assert(old(self).at_subdomain(other.identity.subdomain@) == Some(other));
                }
                assert forall|s: Seq<char>| #[trigger]
                    self.at_subdomain(s) is Some implies self.at_subdomain(
                    s,
                )->0.identity.subdomain@ == s && self.named(self.at_subdomain(s)->0.identity.name@)
                    == self.at_subdomain(s) by {
                    assert(old(self).at_subdomain(s) is Some);
                    let other = old(self).at_subdomain(s)->0;
                    assert(old(self).named(other.identity.name@) == Some(other));
                }
            }
        }
    }

    /// All registered apps, each once, in the order in which their names came in.
    pub fn list(&self) -> (r: Vec<Arc<Registered<V>>>)
        requires
            self.wf(),
        ensures
            r@.len() == self.size(),
            forall|i: int| 0 <= i < r@.len() ==> *(#[trigger] r@[i]) == self.nth(i),
            forall|n: Seq<char>| #[trigger]
                self.named(n) is Some ==> exists|i: int|
                    0 <= i < r@.len() && *(#[trigger] r@[i]) == self.named(n)->0,
            self.coherent() ==> forall|i: int|
                0 <= i < r@.len() ==> self.named((#[trigger] r@[i]).identity.name@) == Some(*r@[i]),
            self.coherent() ==> forall|i: int, j: int|
                0 <= i < j < r@.len() ==> (#[trigger] r@[i]).identity.name@ != (
                #[trigger] r@[j]).identity.name@,
    {
        proof {
            self.by_name.lemma_list();
        }
        let mut out: Vec<Arc<Registered<V>>> = Vec::new();
        let n: usize = self.by_name.len();
        let mut i: usize = 0;
        while i < n
            invariant
                n == self.by_name.list().len(),
                i <= n,
                out@.len() == i,
                forall|j: int| 0 <= j < i ==> *(#[trigger] out@[j]) == self.nth(j),
            decreases n - i,
        {
            let (_, app) = self.by_name.at(i);
            out.push(Arc::clone(app));
            i += 1;
        }
        proof {
            let l = self.by_name.list();
            assert forall|name: Seq<char>| #[trigger] self.named(name) is Some implies exists|i: int|
                0 <= i < out@.len() && *(#[trigger] out@[i]) == self.named(name)->0 by {
                assert(self.by_name.lookup(name) is Some);
                let k = choose|k: int| 0 <= k < l.len() && (#[trigger] l[k]).0@ == name;
                assert(self.by_name.lookup(l[k].0@) == Some(l[k].1));
                assert(*out@[k] == self.nth(k));
            }
            if self.coherent() {
                assert forall|i: int| 0 <= i < out@.len() implies (
                #[trigger] out@[i]).identity.name@ == l[i].0@ && self.named(
                    out@[i].identity.name@,
                ) == Some(*out@[i]) by {
                    assert(self.by_name.lookup(l[i].0@) == Some(l[i].1));
                    assert(self.named(l[i].0@) is Some);
                }
                assert forall|i: int, j: int| 0 <= i < j < out@.len() implies (
                #[trigger] out@[i]).identity.name@ != (#[trigger] out@[j]).identity.name@ by {
                    assert(l[i].0@ != l[j].0@);
                }
            }
        }
        out
    }
}

proof fn lemma_absent<V>(apps: Seq<Arc<Registered<V>>>, name: Seq<char>, subdomain: Seq<char>)
    requires
        forall|i: int|
            0 <= i < apps.len() ==> (#[trigger] apps[i]).identity.name@ != name
                && apps[i].identity.subdomain@ != subdomain,
    ensures
        last_named(apps, name) is None,
        last_at(apps, subdomain) is None,
    decreases apps.len(),
{
    if apps.len() > 0 {
        assert(apps[apps.len() - 1].identity.name@ != name);
        lemma_absent(apps.drop_last(), name, subdomain);
    }
}

/// Removing an app undoes registering it: every name and every subdomain leads
/// where it led before.
pub proof fn lemma_remove_undoes_insert<V>(
    before: Registry<V>,
    with_app: Registry<V>,
    after: Registry<V>,
    app: Registered<V>,
)
    requires
        before.collision(app.identity.name@, app.identity.subdomain@) is None,
        with_app.put(before, app),
        after.dropped(with_app, app.identity.name@, app.identity.subdomain@),
    ensures
        forall|n: Seq<char>| #[trigger] after.named(n) == before.named(n),
        forall|s: Seq<char>| #[trigger] after.at_subdomain(s) == before.at_subdomain(s),
{
    assert forall|n: Seq<char>| #[trigger] after.named(n) == before.named(n) by {
        assert(with_app.named(n) == (if n == app.identity.name@ {
            Some(app)
        } else {
            before.named(n)
        }));
    }
    assert forall|s: Seq<char>| #[trigger] after.at_subdomain(s) == before.at_subdomain(s) by {
        assert(with_app.at_subdomain(s) == (if s == app.identity.subdomain@ {
            Some(app)
        } else {
            before.at_subdomain(s)
        }));
    }
}

/// An app that is put in is found under its name and under its subdomain; all
/// others are found as before.
pub proof fn lemma_put<V>(
    before: Registry<V>,
    after: Registry<V>,
    app: Registered<V>,
    name: Seq<char>,
    subdomain: Seq<char>,
)
    requires
        after.put(before, app),
        name != app.identity.name@,
        subdomain != app.identity.subdomain@,
    ensures
        after.named(app.identity.name@) == Some(app),
        after.at_subdomain(app.identity.subdomain@) == Some(app),
        after.named(name) == before.named(name),
        after.at_subdomain(subdomain) == before.at_subdomain(subdomain),
{
    assert(after.named(name) == before.named(name));
    assert(after.at_subdomain(subdomain) == before.at_subdomain(subdomain));
}

/// An app that is dropped is found under neither of its keys; all others are
/// found as before.
pub proof fn lemma_dropped<V>(
    before: Registry<V>,
    after: Registry<V>,
    gone: Seq<char>,
    place: Seq<char>,
    name: Seq<char>,
    subdomain: Seq<char>,
)
    requires
        after.dropped(before, gone, place),
        name != gone,
        subdomain != place,
    ensures
        after.named(gone) is None,
        after.at_subdomain(place) is None,
        after.named(name) == before.named(name),
        after.at_subdomain(subdomain) == before.at_subdomain(subdomain),
{
    assert(after.named(name) == before.named(name));
    assert(after.at_subdomain(subdomain) == before.at_subdomain(subdomain));
}

/// An app collides exactly if its name or its subdomain is taken, and where both
/// are, the name is what is told.
pub proof fn lemma_collision<V>(r: Registry<V>, name: Seq<char>, subdomain: Seq<char>)
    ensures
        r.named(name) is Some <==> r.collision(name, subdomain) == Some(InsertCollision::NameTaken),
        r.named(name) is None && r.at_subdomain(subdomain) is Some <==> r.collision(
            name,
            subdomain,
        ) == Some(InsertCollision::SubdomainTaken),
        r.named(name) is None && r.at_subdomain(subdomain) is None <==> r.collision(
            name,
            subdomain,
        ) is None,
{
}

/// In a coherent registry an app is found under its own name and its own
/// subdomain, and both lead to the same app.
pub proof fn lemma_coherent<V>(r: Registry<V>, name: Seq<char>, subdomain: Seq<char>)
    requires
        r.coherent(),
    ensures
        r.named(name) matches Some(a) ==> a.identity.name@ == name && r.at_subdomain(
            a.identity.subdomain@,
        ) == Some(a),
        r.at_subdomain(subdomain) matches Some(a) ==> a.identity.subdomain@ == subdomain && r.named(
            a.identity.name@,
        ) == Some(a),
{
}

/// Of several apps with a name or a subdomain the last one counts.
pub proof fn lemma_last_counts<V>(
    apps: Seq<Arc<Registered<V>>>,
    app: Arc<Registered<V>>,
    name: Seq<char>,
    subdomain: Seq<char>,
)
    ensures
        apps.len() == 0 ==> last_named(apps, name) is None && last_at(apps, subdomain) is None,
        app.identity.name@ == name ==> last_named(apps.push(app), name) == Some(*app),
        app.identity.name@ != name ==> last_named(apps.push(app), name) == last_named(apps, name),
        app.identity.subdomain@ == subdomain ==> last_at(apps.push(app), subdomain) == Some(*app),
        app.identity.subdomain@ != subdomain ==> last_at(apps.push(app), subdomain) == last_at(
            apps,
            subdomain,
        ),
{
    assert(apps.push(app).drop_last() =~= apps);
}

} // verus!
