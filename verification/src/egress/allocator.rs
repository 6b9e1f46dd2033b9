//! Addresses for containers.

use vstd::prelude::*;
use vstd::string::StringExecFns;

use super::addr::{ipv4_text, show_ipv4};
use super::net::Ipv4Net;

verus! {

/// Hands out the addresses of a subnet, the lowest free one first. The bridge
/// keeps its own, and the addresses of the network itself and for broadcast are
/// never handed out.
#[derive(Debug)]
pub struct IpAllocator {
    subnet: Ipv4Net,
    bridge_ip: u32,
    /// Addresses that nobody has, the highest first.
    free: Vec<u32>,
}

impl IpAllocator {
    pub closed spec fn subnet_view(self) -> Ipv4Net {
        self.subnet
    }

    pub closed spec fn bridge_view(self) -> u32 {
        self.bridge_ip
    }

    /// Nobody has the address.
    pub closed spec fn is_free(self, ip: u32) -> bool {
        self.free@.contains(ip)
    }

    /// Only addresses for hosts of the subnet are free, never the bridge's.
    pub closed spec fn wf(self) -> bool {
        &&& self.subnet.wf()
        &&& self.subnet.has(self.bridge_ip)
        &&& forall|i: int, j: int|
            0 <= i < j < self.free@.len() ==> self.free@[i] > self.free@[j]
        &&& forall|i: int|
            0 <= i < self.free@.len() ==> self.subnet.is_host(#[trigger] self.free@[i])
                && self.free@[i] != self.bridge_ip
    }

    /// An address that somebody has: of the subnet, not the bridge's, and not
    /// free.
    pub open spec fn taken(self, ip: u32) -> bool {
        ip != self.bridge_view() && self.subnet_view().has(ip) && !self.is_free(ip)
    }

    /// A free address is one for a host of the subnet and not the bridge's. So
    /// neither the address of the network nor the one for broadcast is ever
    /// handed out.
    pub proof fn lemma_free_is_ours(self, ip: u32)
        requires
            self.wf(),
            self.is_free(ip),
        ensures
            self.subnet_view().is_host(ip),
            self.subnet_view().has(ip),
            ip != self.bridge_view(),
    {
        let i = choose|i: int| 0 <= i < self.free@.len() && self.free@[i] == ip;
        assert(self.subnet.is_host(self.free@[i]));
    }

    /// Every host address but the bridge's is free at first. The bridge has to
    /// lie in the subnet.
    pub fn new(subnet: Ipv4Net, bridge_ip: u32) -> (r: Result<IpAllocator, String>)
        requires
            subnet.wf(),
        ensures
            match r {
                Ok(a) => {
                    &&& subnet.has(bridge_ip)
                    &&& a.wf()
                    &&& a.subnet_view() == subnet
                    &&& a.bridge_view() == bridge_ip
                    &&& forall|ip: u32| #[trigger]
                        a.is_free(ip) <==> subnet.is_host(ip) && ip != bridge_ip
                },
                Err(e) => {
                    &&& !subnet.has(bridge_ip)
                    &&& e@ == "bridge IP "@ + ipv4_text(bridge_ip) + " not in subnet "@
                        + subnet.text()
                },
            },
    {
        if !subnet.contains(bridge_ip) {
            let mut e = String::from_str("bridge IP ");
            e.append(show_ipv4(bridge_ip).as_str());
            e.append(" not in subnet ");
            e.append(subnet.show().as_str());
            return Err(e);
        }
        let (lo, hi) = subnet.host_range();
        let mut free: Vec<u32> = Vec::new();
        let mut next: u64 = hi as u64 + 1;
        while next > lo as u64
            invariant
                subnet.wf(),
                next <= hi + 1,
                forall|ip: u32| subnet.is_host(ip) <==> lo <= ip <= hi,
                forall|i: int, j: int| 0 <= i < j < free@.len() ==> free@[i] > free@[j],
                forall|i: int|
                    0 <= i < free@.len() ==> subnet.is_host(#[trigger] free@[i]) && free@[i]
                        != bridge_ip && free@[i] >= next,
                forall|ip: u32|
                    subnet.is_host(ip) && ip != bridge_ip && ip >= next ==> #[trigger] free@.contains(
                        ip,
                    ),
            decreases next,
        {
            next -= 1;
            let ip: u32 = next as u32;
            let ghost before = free@;
            if ip != bridge_ip {
                free.push(ip);
            }
            proof {
                assert forall|x: u32|
                    subnet.is_host(x) && x != bridge_ip && x >= next implies #[trigger] free@.contains(
                    x,
                ) by {
                    if x == ip {
                        assert(free@[free@.len() - 1] == ip);
                    } else {
                        assert(before.contains(x));
                        let k = choose|k: int| 0 <= k < before.len() && before[k] == x;
                        assert(free@[k] == x);
                    }
                }
            }
        }
        Ok(IpAllocator { subnet, bridge_ip, free })
    }

    /// Allocate the lowest free address.
    pub fn allocate(&mut self) -> (r: Result<u32, String>)
        requires
            old(self).wf(),
        ensures
            final(self).wf(),
            final(self).subnet_view() == old(self).subnet_view(),
            final(self).bridge_view() == old(self).bridge_view(),
            match r {
                Ok(ip) => {
                    &&& old(self).is_free(ip)
                    &&& forall|x: u32| #[trigger] old(self).is_free(x) ==> ip <= x
                    &&& forall|x: u32| #[trigger]
                        final(self).is_free(x) <==> old(self).is_free(x) && x != ip
                },
                Err(e) => {
                    &&& forall|x: u32| !(#[trigger] old(self).is_free(x))
                    &&& forall|x: u32| !(#[trigger] final(self).is_free(x))
                    &&& e@ == "subnet "@ + old(self).subnet_view().text() + " exhausted"@
                },
            },
    {
        let ghost before = self.free@;
        match self.free.pop() {
            Some(ip) => {
                proof {
                    let n = before.len() - 1;
                    assert(before[n] == ip);
                    assert(before.contains(ip));
                    assert forall|x: u32| #[trigger] old(self).is_free(x) implies ip <= x by {
                        let k = choose|k: int| 0 <= k < before.len() && before[k] == x;
                        assert(k == n || before[k] > before[n]);
                    }
                    assert forall|x: u32| #[trigger]
                        self.is_free(x) <==> old(self).is_free(x) && x != ip by {
                        if old(self).is_free(x) && x != ip {
                            let k = choose|k: int| 0 <= k < before.len() && before[k] == x;
                            assert(self.free@[k] == x);
                        }
                        if self.is_free(x) {
                            let k = choose|k: int| 0 <= k < self.free@.len() && self.free@[k] == x;
                            assert(before[k] == x);
                            assert(before[k] > before[n]);
                        }
                    }
                }
                Ok(ip)
            },
            None => {
                let mut e = String::from_str("subnet ");
                e.append(self.subnet.show().as_str());
                e.append(" exhausted");
                Err(e)
            },
        }
    }

    /// Where the address stands in the list, or where it would have to be put.
    fn position(&self, ip: u32) -> (r: usize)
        requires
            self.wf(),
        ensures
            r <= self.free@.len(),
            forall|k: int| 0 <= k < r ==> self.free@[k] > ip,
            forall|k: int| r <= k < self.free@.len() ==> self.free@[k] <= ip,
    {
        let mut i: usize = 0;
        while i < self.free.len() && self.free[i] > ip
            invariant
                i <= self.free@.len(),
                forall|k: int| 0 <= k < i ==> self.free@[k] > ip,
            decreases self.free@.len() - i,
        {
            i += 1;
        }
        proof {
            assert forall|k: int| i <= k < self.free@.len() implies self.free@[k] <= ip by {
                assert(k == i || self.free@[i as int] > self.free@[k]);
            }
        }
        i
    }

    /// Give an address back. The bridge's and those that are not for hosts of the
    /// subnet are never put into rotation.
    pub fn release(&mut self, ip: u32)
        requires
            old(self).wf(),
        ensures
            final(self).wf(),
            final(self).subnet_view() == old(self).subnet_view(),
            final(self).bridge_view() == old(self).bridge_view(),
            forall|x: u32| #[trigger]
                final(self).is_free(x) <==> old(self).is_free(x) || (x == ip && ip != old(
                    self,
                ).bridge_view() && old(self).subnet_view().is_host(ip)),
    {
        let (lo, hi) = self.subnet.host_range();
        if ip == self.bridge_ip || ip < lo || ip > hi {
            return;
        }
        let ghost before = self.free@;
        let at: usize = self.position(ip);
        if at < self.free.len() && self.free[at] == ip {
            proof {
                assert(before[at as int] == ip);
            }
            return;
        }
        self.free.insert(at, ip);
        proof {
            let after = self.free@;
            assert(after =~= before.insert(at as int, ip));
            assert forall|x: u32| #[trigger] self.is_free(x) <==> old(self).is_free(x) || x == ip by {
                if before.contains(x) {
                    let k = choose|k: int| 0 <= k < before.len() && before[k] == x;
                    if k < at {
                        assert(after[k] == x);
                    } else {
                        assert(after[k + 1] == x);
                    }
                }
                if x == ip {
                    assert(after[at as int] == x);
                }
                if after.contains(x) && x != ip {
                    let k = choose|k: int| 0 <= k < after.len() && after[k] == x;
                    if k < at {
                        assert(before[k] == x);
                    } else {
                        assert(before[k - 1] == x);
                    }
                }
            }
            assert forall|i: int, j: int| 0 <= i < j < after.len() implies after[i] > after[j] by {
                let bi = if i < at {
                    i
                } else {
                    i - 1
                };
                let bj = if j < at {
                    j
                } else {
                    j - 1
                };
                if i == at {
                    assert(before[bj] != ip || bj != at);
                    assert(before[bj] <= ip);
                    assert(bj == at || before[at as int] > before[bj]);
                } else if j == at {
                    assert(before[bi] > ip);
                } else {
                    assert(before[bi] > before[bj]);
                }
            }
            assert forall|i: int| 0 <= i < after.len() implies self.subnet.is_host(
                #[trigger] after[i],
            ) && after[i] != self.bridge_ip by {
                if i < at {
                    assert(self.subnet.is_host(before[i]));
                } else if i > at {
                    assert(self.subnet.is_host(before[i - 1]));
                }
            }
        }
    }

    /// Mark an address as taken without going through `allocate`.
    pub fn mark_used(&mut self, ip: u32)
        requires
            old(self).wf(),
        ensures
            final(self).wf(),
            final(self).subnet_view() == old(self).subnet_view(),
            final(self).bridge_view() == old(self).bridge_view(),
            forall|x: u32| #[trigger]
                final(self).is_free(x) <==> old(self).is_free(x) && x != ip,
    {
        let ghost before = self.free@;
        let at: usize = self.position(ip);
        if at < self.free.len() && self.free[at] == ip {
            self.free.remove(at);
            proof {
                let after = self.free@;
                assert(after =~= before.remove(at as int));
                assert forall|i: int, j: int| 0 <= i < j < after.len() implies after[i]
                    > after[j] by {
                    let bi = if i < at {
                        i
                    } else {
                        i + 1
                    };
                    let bj = if j < at {
                        j
                    } else {
                        j + 1
                    };
                    assert(before[bi] > before[bj]);
                }
                assert forall|i: int| 0 <= i < after.len() implies self.subnet.is_host(
                    #[trigger] after[i],
                ) && after[i] != self.bridge_ip by {
                    if i < at {
                        assert(self.subnet.is_host(before[i]));
                    } else {
                        assert(self.subnet.is_host(before[i + 1]));
                    }
                }
                assert forall|x: u32| #[trigger]
                    self.is_free(x) <==> old(self).is_free(x) && x != ip by {
                    if before.contains(x) && x != ip {
                        let k = choose|k: int| 0 <= k < before.len() && before[k] == x;
                        if k < at {
                            assert(after[k] == x);
                        } else {
                            assert(after[k - 1] == x);
                        }
                    }
                    if after.contains(x) {
                        let k = choose|k: int| 0 <= k < after.len() && after[k] == x;
                        if k < at {
                            assert(before[k] == x);
                            assert(before[k] > before[at as int]);
                        } else {
                            assert(before[k + 1] == x);
                            assert(before[at as int] > before[k + 1]);
                        }
                    }
                }
            }
        } else {
            proof {
                assert(!before.contains(ip)) by {
                    if before.contains(ip) {
                        let k = choose|k: int| 0 <= k < before.len() && before[k] == ip;
                        assert(k >= at);
                        assert(k == at || before[at as int] > before[k]);
                    }
                }
            }
        }
    }

    pub fn is_allocated(&self, ip: u32) -> (r: bool)
        requires
            self.wf(),
        ensures
            r == self.taken(ip),
    {
        let at: usize = self.position(ip);
        proof {
            if self.free@.contains(ip) {
                let k = choose|k: int| 0 <= k < self.free@.len() && self.free@[k] == ip;
                assert(k >= at);
                assert(k == at || self.free@[at as int] > self.free@[k]);
            }
        }
        let free = at < self.free.len() && self.free[at] == ip;
        ip != self.bridge_ip && self.subnet.contains(ip) && !free
    }

    pub fn bridge_ip(&self) -> (r: u32)
        ensures
            r == self.bridge_view(),
    {
        self.bridge_ip
    }

    pub fn subnet(&self) -> (r: Ipv4Net)
        ensures
            r == self.subnet_view(),
    {
        self.subnet
    }
}

/// An address that is handed out is taken afterwards, and giving it back makes
/// everything free again that was free before.
pub proof fn lemma_allocate_then_release(a: IpAllocator, b: IpAllocator, c: IpAllocator, ip: u32)
    requires
        a.wf(),
        a.is_free(ip),
        b.subnet_view() == a.subnet_view(),
        b.bridge_view() == a.bridge_view(),
        forall|x: u32| #[trigger] b.is_free(x) <==> a.is_free(x) && x != ip,
        forall|x: u32| #[trigger]
            c.is_free(x) <==> b.is_free(x) || (x == ip && ip != b.bridge_view()
                && b.subnet_view().is_host(ip)),
    ensures
        b.taken(ip),
        forall|x: u32| #[trigger] c.is_free(x) <==> a.is_free(x),
{
    a.lemma_free_is_ours(ip);
}

/// Of the addresses of the subnet, the bridge's and the free ones are not taken,
/// and all others are; none from elsewhere is.
pub proof fn lemma_taken(a: IpAllocator, ip: u32)
    ensures
        a.is_free(ip) ==> !a.taken(ip),
        ip == a.bridge_view() ==> !a.taken(ip),
        !a.subnet_view().has(ip) ==> !a.taken(ip),
        a.subnet_view().has(ip) && ip != a.bridge_view() && !a.is_free(ip) ==> a.taken(ip),
{
}

} // verus!
