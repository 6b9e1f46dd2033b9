//! A map keyed by names.

use vstd::prelude::*;

use crate::text::same_str;

verus! {

/// Values by name. No name occurs twice; the entries keep the order in which
/// their names came in.
#[derive(Debug)]
pub struct NameMap<V> {
    entries: Vec<(String, V)>,
}

/// The value that a list of entries gives a name.
pub open spec fn entry_of<V>(entries: Seq<(String, V)>, name: Seq<char>) -> Option<V>
    decreases entries.len(),
{
    if entries.len() == 0 {
        None
    } else if entries.last().0@ == name {
        Some(entries.last().1)
    } else {
        entry_of(entries.drop_last(), name)
    }
}

/// No name occurs twice.
pub open spec fn names_differ<V>(entries: Seq<(String, V)>) -> bool {
    forall|i: int, j: int|
        0 <= i < j < entries.len() ==> (#[trigger] entries[i]).0@ != (#[trigger] entries[j]).0@
}

pub proof fn lemma_entry_at<V>(entries: Seq<(String, V)>, i: int)
    requires
        names_differ(entries),
        0 <= i < entries.len(),
    ensures
        entry_of(entries, entries[i].0@) == Some(entries[i].1),
    decreases entries.len(),
{
    if i < entries.len() - 1 {
        assert(entries[i].0@ != entries[entries.len() - 1].0@);
        lemma_entry_at(entries.drop_last(), i);
    }
}

pub proof fn lemma_entry_exists<V>(entries: Seq<(String, V)>, name: Seq<char>)
    requires
        entry_of(entries, name) is Some,
    ensures
        exists|i: int|
            0 <= i < entries.len() && (#[trigger] entries[i]).0@ == name && entries[i].1 == entry_of(
                entries,
                name,
            )->0,
    decreases entries.len(),
{
    if entries.last().0@ == name {
        assert(entries[entries.len() - 1].0@ == name);
    } else {
        lemma_entry_exists(entries.drop_last(), name);
        let i = choose|i: int|
            0 <= i < entries.len() - 1 && (#[trigger] entries.drop_last()[i]).0@ == name
                && entries.drop_last()[i].1 == entry_of(entries, name)->0;
        assert(entries[i].0@ == name);
    }
}

pub proof fn lemma_no_entry<V>(entries: Seq<(String, V)>, name: Seq<char>)
    requires
        forall|i: int| 0 <= i < entries.len() ==> (#[trigger] entries[i]).0@ != name,
    ensures
        entry_of(entries, name) is None,
{
    if entry_of(entries, name) is Some {
        lemma_entry_exists(entries, name);
    }
}

impl<V> NameMap<V> {
    /// What a name is mapped to.
    pub closed spec fn lookup(self, name: Seq<char>) -> Option<V> {
        entry_of(self.entries@, name)
    }

    pub closed spec fn wf(self) -> bool {
        names_differ(self.entries@)
    }

    /// The entries in order.
    pub closed spec fn list(self) -> Seq<(String, V)> {
        self.entries@
    }

    /// The entries are what the names are mapped to.
    pub proof fn lemma_list(self)
        requires
            self.wf(),
        ensures
            names_differ(self.list()),
            forall|i: int|
                0 <= i < self.list().len() ==> self.lookup((#[trigger] self.list()[i]).0@) == Some(
                    self.list()[i].1,
                ),
            forall|name: Seq<char>| #[trigger]
                self.lookup(name) is Some ==> exists|i: int|
                    0 <= i < self.list().len() && (#[trigger] self.list()[i]).0@ == name,
    {
        assert forall|i: int| 0 <= i < self.list().len() implies self.lookup(
            (#[trigger] self.list()[i]).0@,
        ) == Some(self.list()[i].1) by {
            lemma_entry_at(self.entries@, i);
        }
        assert forall|name: Seq<char>| #[trigger] self.lookup(name) is Some implies exists|i: int|
            0 <= i < self.list().len() && (#[trigger] self.list()[i]).0@ == name by {
            lemma_entry_exists(self.entries@, name);
        }
    }

    pub fn new() -> (r: NameMap<V>)
        ensures
            r.wf(),
            r.list().len() == 0,
            forall|name: Seq<char>| (#[trigger] r.lookup(name)) is None,
    {
        NameMap { entries: Vec::new() }
    }

    fn position(&self, name: &str) -> (r: Option<usize>)
        requires
            self.wf(),
        ensures
            match r {
                Some(i) => i < self.entries@.len() && self.entries@[i as int].0@ == name@
                    && self.lookup(name@) == Some(self.entries@[i as int].1),
                None => self.lookup(name@) is None && forall|j: int|
                    0 <= j < self.entries@.len() ==> (#[trigger] self.entries@[j]).0@ != name@,
            },
    {
        let mut i: usize = 0;
        while i < self.entries.len()
            invariant
                i <= self.entries@.len(),
                self.wf(),
                forall|j: int| 0 <= j < i ==> (#[trigger] self.entries@[j]).0@ != name@,
            decreases self.entries@.len() - i,
        {
            if same_str(self.entries[i].0.as_str(), name) {
                proof {
                    lemma_entry_at(self.entries@, i as int);
                }
                return Some(i);
            }
            i += 1;
        }
        proof {
            lemma_no_entry(self.entries@, name@);
        }
        None
    }

    pub fn contains(&self, name: &str) -> (r: bool)
        requires
            self.wf(),
        ensures
            r == (self.lookup(name@) is Some),
    {
        self.position(name).is_some()
    }

    pub fn get(&self, name: &str) -> (r: Option<&V>)
        requires
            self.wf(),
        ensures
            match r {
                Some(v) => self.lookup(name@) == Some(*v),
                None => self.lookup(name@) is None,
            },
    {
        match self.position(name) {
            Some(i) => Some(&self.entries[i].1),
            None => None,
        }
    }

    /// Drop a name. Returns what it was mapped to.
    pub fn remove(&mut self, name: &str) -> (r: Option<V>)
        requires
            old(self).wf(),
        ensures
            final(self).wf(),
            r == old(self).lookup(name@),
            forall|n: Seq<char>| #[trigger]
                final(self).lookup(n) == (if n == name@ {
                    None
                } else {
                    old(self).lookup(n)
                }),
            final(self).list().len() == old(self).list().len() - if r is Some {
                1int
            } else {
                0int
            },
    {
        let ghost before = self.entries@;
        match self.position(name) {
            Some(i) => {
                let (_, v) = self.entries.remove(i);
                proof {
                    let after = self.entries@;
                    assert(after =~= before.remove(i as int));
                    assert forall|a: int, b: int| 0 <= a < b < after.len() implies (
                    #[trigger] after[a]).0@ != (#[trigger] after[b]).0@ by {
                        let x = if a < i {
                            a
                        } else {
                            a + 1
                        };
                        let y = if b < i {
                            b
                        } else {
                            b + 1
                        };
                        assert(before[x].0@ != before[y].0@);
                    }
                    assert forall|n: Seq<char>| #[trigger] entry_of(after, n) == (if n == name@ {
                        None
                    } else {
                        entry_of(before, n)
                    }) by {
                        if entry_of(after, n) is Some {
                            lemma_entry_exists(after, n);
                            let k = choose|k: int|
                                0 <= k < after.len() && (#[trigger] after[k]).0@ == n && after[k].1
                                    == entry_of(after, n)->0;
                            let x = if k < i {
                                k
                            } else {
                                k + 1
                            };
                            assert(before[x] == after[k]);
                            lemma_entry_at(before, x);
                            if n == name@ {
                                if x < i {
                                    assert(before[x].0@ != before[i as int].0@);
                                } else {
                                    assert(before[i as int].0@ != before[x].0@);
                                }
                            }
                        } else if n != name@ && entry_of(before, n) is Some {
                            lemma_entry_exists(before, n);
                            let k = choose|k: int|
                                0 <= k < before.len() && (#[trigger] before[k]).0@ == n
                                    && before[k].1 == entry_of(before, n)->0;
                            let x = if k < i {
                                k
                            } else {
                                k - 1
                            };
                            assert(after[x] == before[k]);
                            lemma_entry_at(after, x);
                        }
                    }
                }
                Some(v)
            },
            None => None,
        }
    }

    /// Map a name to a value. Returns what it was mapped to before.
    pub fn insert(&mut self, name: String, value: V) -> (r: Option<V>)
        requires
            old(self).wf(),
        ensures
            final(self).wf(),
            r == old(self).lookup(name@),
            forall|n: Seq<char>| #[trigger]
                final(self).lookup(n) == (if n == name@ {
                    Some(value)
                } else {
                    old(self).lookup(n)
                }),
            final(self).list().len() == old(self).list().len() + if r is Some {
                0int
            } else {
                1int
            },
    {
        let ghost key = name@;
        let previous = self.remove(name.as_str());
        let ghost without = *self;
        let ghost before = self.entries@;
        proof {
            assert forall|j: int| 0 <= j < before.len() implies (#[trigger] before[j]).0@ != key by {
                lemma_entry_at(before, j);
                assert(self.lookup(before[j].0@) is Some);
            }
        }
        self.entries.push((name, value));
        proof {
            let after = self.entries@;
            assert(after.drop_last() =~= before);
            assert(names_differ(after));
            assert forall|n: Seq<char>| #[trigger] entry_of(after, n) == (if n == key {
                Some(value)
            } else {
                entry_of(before, n)
            }) by {}
            assert forall|n: Seq<char>| #[trigger] self.lookup(n) == (if n == key {
                Some(value)
            } else {
                old(self).lookup(n)
            }) by {
                assert(entry_of(after, n) == self.lookup(n));
                assert(entry_of(before, n) == without.lookup(n));
            }
        }
        previous
    }

    pub fn len(&self) -> (r: usize)
        ensures
            r == self.list().len(),
    {
        self.entries.len()
    }

    /// The entry at a place in the order.
    pub fn at(&self, i: usize) -> (r: (&str, &V))
        requires
            i < self.list().len(),
        ensures
            r.0@ == self.list()[i as int].0@,
            *r.1 == self.list()[i as int].1,
    {
        (self.entries[i].0.as_str(), &self.entries[i].1)
    }

    /// The entries themselves.
    pub fn into_entries(self) -> (r: Vec<(String, V)>)
        ensures
            r@ == self.list(),
    {
        self.entries
    }
}

/// An entry at the end of a list decides for its own name and for no other; an
/// empty list knows no name.
pub proof fn lemma_entry_of<V>(entries: Seq<(String, V)>, e: (String, V), name: Seq<char>)
    ensures
        entries.len() == 0 ==> entry_of(entries, name) is None,
        e.0@ == name ==> entry_of(entries.push(e), name) == Some(e.1),
        e.0@ != name ==> entry_of(entries.push(e), name) == entry_of(entries, name),
{
    assert(entries.push(e).drop_last() =~= entries);
}

} // verus!
