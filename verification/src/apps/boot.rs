//! Coming up and going down: taking up what outlived the last daemon, clearing
//! away what nobody owns any more, and starting what is always on.

use vstd::prelude::*;
use vstd::string::StringExecFns;

use super::handle::{AppHandle, AppState, HandleInner};
use crate::config::duration::Span;
use crate::config::spec::Scaling;
use crate::egress::state::StartupClaims;

verus! {

/// Lets something happen once.
#[derive(Debug)]
pub struct Once {
    pub done: bool,
}

impl Once {
    pub fn new() -> (r: Once)
        ensures
            !r.done,
    {
        Once { done: false }
    }

    /// Says whether this is the first call.
    pub fn enter(&mut self) -> (r: bool)
        ensures
            r == !old(self).done,
            final(self).done,
    {
        let first = !self.done;
        self.done = true;
        first
    }
}

/// What claiming the endpoint of an app comes to. Only the first pass claims
/// anything, and only for an app whose container is still there, running or
/// paused.
pub open spec fn claimed(
    first: bool,
    h: AppHandle,
    running: bool,
    paused: bool,
    before: StartupClaims,
    after: StartupClaims,
    answer: Option<u32>,
) -> bool {
    if first && (running || paused) {
        &&& answer == before.unclaimed(h.identity.name@)
        &&& after.unclaimed(h.identity.name@) is None
        &&& forall|n: Seq<char>|
            n != h.identity.name@ ==> #[trigger] after.unclaimed(n) == before.unclaimed(n)
        &&& after.count() == before.count() - if answer is Some {
            1int
        } else {
            0int
        }
    } else {
        answer is None && after == before
    }
}

/// Claim the endpoint of an app whose container is still there, running or
/// paused. `first` says whether this is the first pass over the apps: a later one
/// claims nothing. Without an endpoint there is nothing to take up.
pub fn claim_survivor(
    first: bool,
    h: &AppHandle,
    running: bool,
    paused: bool,
    claims: &mut StartupClaims,
) -> (r: Option<u32>)
    requires
        old(claims).wf(),
    ensures
        final(claims).wf(),
        claimed(first, *h, running, paused, *old(claims), *final(claims), r),
{
    if !first || (!running && !paused) {
        return None;
    }
    claims.claim(h.identity.name.as_str())
}

/// What an app is after its endpoint was claimed and set up again, or could not
/// be.
pub open spec fn reattached(
    h: AppHandle,
    outcome: Result<u32, String>,
    paused: bool,
    now: Span,
) -> AppHandle {
    match outcome {
        Ok(container_ip) => AppHandle {
            inner: HandleInner {
                state: if paused {
                    AppState::Frozen { container_ip }
                } else {
                    AppState::Running { container_ip }
                },
                last_access: now,
                ..h.inner
            },
            ..h
        },
        Err(_) => h,
    }
}

/// Take up an app whose endpoint could be set up again, at its address: frozen
/// if its container is paused, else running. An app whose endpoint could not be
/// set up stays as it is, and its next request starts it afresh. Says whether to
/// follow the app's logs again.
pub fn finish_reattach(
    h: &mut AppHandle,
    outcome: Result<u32, String>,
    paused: bool,
    now: Span,
) -> (r: bool)
    ensures
        *final(h) == reattached(*old(h), outcome, paused, now),
        r == (outcome is Ok),
{
    match outcome {
        Ok(container_ip) => {
            h.inner.adopt(container_ip, paused, now);
            true
        },
        Err(_) => false,
    }
}

/// What was found and done about one app in a pass over the apps.
pub struct Visit {
    pub running: bool,
    pub paused: bool,
    /// The address that was claimed for it.
    pub address: Option<u32>,
    /// What came of setting up its endpoint at that address.
    pub outcome: Result<u32, String>,
    pub now: Span,
}

/// A pass over the apps: each is visited in turn, and set up again exactly if an
/// address was claimed for it. There is one state of the claims before each visit
/// and one after the last.
pub open spec fn is_pass(
    first: bool,
    visits: Seq<Visit>,
    claims: Seq<StartupClaims>,
    before: Seq<AppHandle>,
    after: Seq<AppHandle>,
) -> bool {
    &&& claims.len() == visits.len() + 1
    &&& before.len() == visits.len()
    &&& after.len() == visits.len()
    &&& forall|i: int|
        0 <= i < visits.len() ==> {
            let v = #[trigger] visits[i];
            &&& claimed(
                first,
                before[i],
                v.running,
                v.paused,
                claims[i],
                claims[i + 1],
                v.address,
            )
            &&& after[i] == if v.address is Some {
                reattached(before[i], v.outcome, v.paused, v.now)
            } else {
                before[i]
            }
        }
}

/// Something to clear away.
#[derive(Debug)]
pub enum OrphanStep {
    /// The container of an app that is no longer known, and what it left on
    /// disk.
    CleanUpContainer { name: String },
    /// Its namespace, its rules, and its address.
    CleanUpEndpoint { name: String, ip: u32 },
}

/// The steps clear away the orphans in order, each with its container before its
/// endpoint.
pub open spec fn clears(steps: Seq<OrphanStep>, orphans: Seq<(String, u32)>) -> bool {
    &&& steps.len() == 2 * orphans.len()
    &&& forall|i: int|
        0 <= i < orphans.len() ==> {
            &&& (#[trigger] steps[2 * i]) matches OrphanStep::CleanUpContainer { name } && name@
                == orphans[i].0@
            &&& steps[2 * i + 1] matches OrphanStep::CleanUpEndpoint { name, ip } && name@
                == orphans[i].0@ && ip == orphans[i].1
        }
}

/// What has to be cleared away for the endpoints that nobody claimed. A step
/// that fails does not keep the others from being done.
pub fn orphan_steps(orphans: &Vec<(String, u32)>) -> (r: Vec<OrphanStep>)
    ensures
        clears(r@, orphans@),
{
    let mut out: Vec<OrphanStep> = Vec::new();
    let mut i: usize = 0;
    while i < orphans.len()
        invariant
            i <= orphans.len(),
            clears(out@, orphans@.take(i as int)),
        decreases orphans.len() - i,
    {
        let ghost before = out@;
        let ghost head = orphans@.take(i as int);
        let ghost next = orphans@.take(i + 1);
        out.push(OrphanStep::CleanUpContainer { name: orphans[i].0.clone() });
        out.push(OrphanStep::CleanUpEndpoint { name: orphans[i].0.clone(), ip: orphans[i].1 });
        proof {
            assert forall|k: int| 0 <= k < next.len() implies {
                &&& (#[trigger] out@[2 * k]) matches OrphanStep::CleanUpContainer { name } && name@
                    == next[k].0@
                &&& out@[2 * k + 1] matches OrphanStep::CleanUpEndpoint { name, ip } && name@
                    == next[k].0@ && ip == next[k].1
            } by {
                if k < i {
                    assert(next[k] == head[k]);
                    assert(out@[2 * k] == before[2 * k]);
                    assert(out@[2 * k + 1] == before[2 * k + 1]);
                }
            }
        }
        i = i + 1;
    }
    proof {
        assert(orphans@.take(i as int) =~= orphans@);
    }
    out
}

/// An app, as far as it matters for starting it together with the daemon.
#[derive(Debug)]
pub struct EagerCandidate {
    pub name: String,
    pub scaling: Scaling,
    /// The app has been rolled out, so that there is something to start.
    pub rolled_out: bool,
}

impl EagerCandidate {
    pub open spec fn timeout(self) -> Result<Option<(u64, u32)>, Seq<char>> {
        Scaling::idle_timeout_of(self.scaling.idle_text())
    }

    /// The app starts together with the daemon: it is always on and has been
    /// rolled out.
    pub open spec fn eager(self) -> bool {
        self.timeout() == Ok::<Option<(u64, u32)>, Seq<char>>(None) && self.rolled_out
    }
}

/// Which of the apps start together with the daemon.
pub open spec fn eager_ones(apps: Seq<EagerCandidate>) -> Seq<int>
    decreases apps.len(),
{
    if apps.len() == 0 {
        seq![]
    } else if apps.last().eager() {
        eager_ones(apps.drop_last()).push(apps.len() - 1)
    } else {
        eager_ones(apps.drop_last())
    }
}

/// A message and the app it is about.
pub open spec fn named_message(name: Seq<char>, e: Seq<char>) -> Seq<char> {
    name + ": "@ + e
}

pub fn name_message(name: &str, e: &str) -> (r: String)
    ensures
        r@ == named_message(name@, e@),
{
    let mut r = String::from_str(name);
    r.append(": ");
    r.append(e);
    r
}

/// Pick the apps that start together with the daemon, by their position. An
/// idle timeout that cannot be read is an error, before anything is started.
pub fn pick_always_on(apps: &Vec<EagerCandidate>) -> (r: Result<Vec<usize>, String>)
    ensures
        match r {
            Ok(picked) => {
                &&& forall|i: int| 0 <= i < apps@.len() ==> (#[trigger] apps@[i]).timeout() is Ok
                &&& picked@.map_values(|i: usize| i as int) == eager_ones(apps@)
            },
            Err(m) => exists|i: int|
                {
                    &&& 0 <= i < apps@.len()
                    &&& (#[trigger] apps@[i]).timeout() matches Err(e) && m@ == named_message(
                        apps@[i].name@,
                        e,
                    )
                    &&& forall|j: int| 0 <= j < i ==> (#[trigger] apps@[j]).timeout() is Ok
                },
        },
{
    let mut out: Vec<usize> = Vec::new();
    let mut i: usize = 0;
    proof {
        assert(out@.map_values(|k: usize| k as int) =~= eager_ones(apps@.take(0)));
    }
    while i < apps.len()
        invariant
            i <= apps.len(),
            forall|k: int| 0 <= k < i ==> (#[trigger] apps@[k]).timeout() is Ok,
            out@.map_values(|k: usize| k as int) == eager_ones(apps@.take(i as int)),
        decreases apps.len() - i,
    {
        let app = &apps[i];
        let ghost before = out@;
        proof {
            assert(apps@.take(i + 1).drop_last() =~= apps@.take(i as int));
            assert(apps@.take(i + 1).last() == apps@[i as int]);
        }
        match app.scaling.resolve_idle_timeout() {
            Err(e) => {
                return Err(name_message(app.name.as_str(), e.as_str()));
            },
            Ok(Some(_)) => {},
            Ok(None) => {
                if app.rolled_out {
                    out.push(i);
                    proof {
                        assert(out@.map_values(|k: usize| k as int) =~= before.map_values(
                            |k: usize| k as int,
                        ).push(i as int));
                    }
                }
            },
        }
        i = i + 1;
    }
    proof {
        assert(apps@.take(i as int) =~= apps@);
    }
    Ok(out)
}

/// What came of starting the apps: the first failure, with the app's name. The
/// apps that came up stay up.
pub fn first_failure(results: &Vec<(String, Result<u32, String>)>) -> (r: Result<(), String>)
    ensures
        match r {
            Ok(_) => forall|i: int| 0 <= i < results@.len() ==> (#[trigger] results@[i]).1 is Ok,
            Err(m) => exists|i: int|
                {
                    &&& 0 <= i < results@.len()
                    &&& (#[trigger] results@[i]).1 matches Err(e) && m@ == named_message(
                        results@[i].0@,
                        e@,
                    )
                    &&& forall|j: int| 0 <= j < i ==> (#[trigger] results@[j]).1 is Ok
                },
        },
{
    let mut i: usize = 0;
    while i < results.len()
        invariant
            i <= results.len(),
            forall|j: int| 0 <= j < i ==> (#[trigger] results@[j]).1 is Ok,
        decreases results.len() - i,
    {
        let item = &results[i];
        match &item.1 {
            Err(e) => {
                return Err(name_message(item.0.as_str(), e.as_str()));
            },
            Ok(_) => {},
        }
        i = i + 1;
    }
    Ok(())
}

// ---- laws ------------------------------------------------------------------

/// What starts together with the daemon is exactly what is always on and has
/// been rolled out, each app once and in order.
pub proof fn lemma_eager_ones(apps: Seq<EagerCandidate>)
    ensures
        forall|k: int|
            0 <= k < eager_ones(apps).len() ==> 0 <= #[trigger] eager_ones(apps)[k] < apps.len()
                && apps[eager_ones(apps)[k]].eager(),
        forall|i: int|
            0 <= i < apps.len() && (#[trigger] apps[i]).eager() ==> eager_ones(apps).contains(i),
        forall|k: int, l: int|
            0 <= k < l < eager_ones(apps).len() ==> #[trigger] eager_ones(apps)[k]
                < #[trigger] eager_ones(apps)[l],
    decreases apps.len(),
{
    if apps.len() > 0 {
        let rest = apps.drop_last();
        lemma_eager_ones(rest);
        let all = eager_ones(apps);
        let some = eager_ones(rest);
        assert forall|k: int| 0 <= k < all.len() implies 0 <= #[trigger] all[k] < apps.len()
            && apps[all[k]].eager() by {
            if k < some.len() {
                assert(all[k] == some[k]);
                assert(rest[some[k]] == apps[some[k]]);
            }
        }
        assert forall|i: int| 0 <= i < apps.len() && (#[trigger] apps[i]).eager() implies all.contains(
            i,
        ) by {
            if i < apps.len() - 1 {
                assert(rest[i] == apps[i]);
                assert(some.contains(i));
                let k = choose|k: int| 0 <= k < some.len() && some[k] == i;
                assert(all[k] == i);
            } else {
                assert(all.last() == i);
            }
        }
        assert forall|k: int, l: int| 0 <= k < l < all.len() implies #[trigger] all[k]
            < #[trigger] all[l] by {
            assert(all[k] == some[k]);
            if l < some.len() {
                assert(all[l] == some[l]);
            }
        }
    }
}

/// Survivors are taken up once: in a pass that is not the first, no endpoint is
/// claimed or set up, and the claims and the apps stay as they are.
pub proof fn lemma_later_pass_changes_nothing(
    once: Once,
    visits: Seq<Visit>,
    claims: Seq<StartupClaims>,
    before: Seq<AppHandle>,
    after: Seq<AppHandle>,
)
    requires
        once.done,
        is_pass(!once.done, visits, claims, before, after),
    ensures
        forall|i: int| 0 <= i < visits.len() ==> (#[trigger] visits[i]).address is None,
        forall|i: int| 0 <= i < claims.len() ==> #[trigger] claims[i] == claims[0],
        after == before,
{
    assert forall|i: int| 0 <= i < claims.len() implies #[trigger] claims[i] == claims[0] by {
        lemma_claims_stay(visits, claims, before, after, i);
    }
    assert forall|i: int| 0 <= i < visits.len() implies (#[trigger] visits[i]).address is None
        && after[i] == before[i] by {}
    assert forall|i: int| 0 <= i < before.len() implies after[i] == before[i] by {
        assert(visits[i].address is None);
    }
    assert(after =~= before);
}

proof fn lemma_claims_stay(
    visits: Seq<Visit>,
    claims: Seq<StartupClaims>,
    before: Seq<AppHandle>,
    after: Seq<AppHandle>,
    i: int,
)
    requires
        is_pass(false, visits, claims, before, after),
        0 <= i < claims.len(),
    ensures
        claims[i] == claims[0],
    decreases i,
{
    if i > 0 {
        lemma_claims_stay(visits, claims, before, after, i - 1);
        let v = visits[i - 1];
        assert(claimed(
            false,
            before[i - 1],
            v.running,
            v.paused,
            claims[i - 1],
            claims[i - 1 + 1],
            v.address,
        ));
    }
}

/// In the first pass an app whose container is there and whose address was found
/// is taken up at it, frozen if the container is paused.
pub proof fn lemma_survivor_is_taken_up(
    visits: Seq<Visit>,
    claims: Seq<StartupClaims>,
    before: Seq<AppHandle>,
    after: Seq<AppHandle>,
    i: int,
)
    requires
        is_pass(true, visits, claims, before, after),
        0 <= i < visits.len(),
        visits[i].running || visits[i].paused,
        claims[i].unclaimed(before[i].identity.name@) is Some,
        visits[i].outcome is Ok,
    ensures
        visits[i].address == claims[i].unclaimed(before[i].identity.name@),
        after[i].inner.state == if visits[i].paused {
            AppState::Frozen { container_ip: visits[i].outcome->Ok_0 }
        } else {
            AppState::Running { container_ip: visits[i].outcome->Ok_0 }
        },
        claims[i + 1].unclaimed(before[i].identity.name@) is None,
{
    let v = visits[i];
    assert(claimed(true, before[i], v.running, v.paused, claims[i], claims[i + 1], v.address));
}

/// An endpoint that an app was taken up with is not cleared away as an orphan:
/// once claimed it is no longer among those that nobody claimed.
pub proof fn lemma_claimed_is_no_orphan(
    claims: StartupClaims,
    orphans: Seq<(String, u32)>,
    name: Seq<char>,
)
    requires
        claims.unclaimed(name) is None,
        forall|i: int|
            0 <= i < orphans.len() ==> claims.unclaimed((#[trigger] orphans[i]).0@) == Some(
                orphans[i].1,
            ),
    ensures
        forall|i: int| 0 <= i < orphans.len() ==> (#[trigger] orphans[i]).0@ != name,
{
}

/// On the first pass the address found for an app whose container is there is
/// claimed, once; in every other case nothing is. The addresses of other apps
/// stay.
pub proof fn lemma_claimed(
    first: bool,
    h: AppHandle,
    running: bool,
    paused: bool,
    before: StartupClaims,
    after: StartupClaims,
    answer: Option<u32>,
    other: Seq<char>,
)
    requires
        claimed(first, h, running, paused, before, after, answer),
        other != h.identity.name@,
    ensures
        first && (running || paused) ==> answer == before.unclaimed(h.identity.name@)
            && after.unclaimed(h.identity.name@) is None,
        !first || (!running && !paused) ==> answer is None && after == before,
        after.unclaimed(other) == before.unclaimed(other),
        answer is Some ==> after.count() == before.count() - 1,
        answer is None ==> after.count() == before.count(),
{
}

/// An app is taken up where its endpoint could be set up again: frozen if its
/// container is paused, else running, at that address and with the clock set
/// anew. Nothing else of it changes, and nothing at all where it could not.
pub proof fn lemma_reattached(h: AppHandle, outcome: Result<u32, String>, paused: bool, now: Span)
    ensures
        outcome is Err ==> reattached(h, outcome, paused, now) == h,
        outcome matches Ok(ip) ==> {
            let r = reattached(h, outcome, paused, now);
            &&& paused ==> r.inner.state == (AppState::Frozen { container_ip: ip })
            &&& !paused ==> r.inner.state == (AppState::Running { container_ip: ip })
            &&& r.inner.last_access == now
            &&& r.identity == h.identity
            &&& r.spec == h.spec
            &&& r.active_upgrades == h.active_upgrades
            &&& r.inner.rollouts == h.inner.rollouts
            &&& r.inner.current_slot == h.inner.current_slot
            &&& r.inner.image_digest == h.inner.image_digest
            &&& r.inner.cpu_baseline == h.inner.cpu_baseline
        },
{
}

/// Each orphan is cleared away by two steps next to each other, its container
/// first, then its endpoint at its address.
pub proof fn lemma_clears(steps: Seq<OrphanStep>, orphans: Seq<(String, u32)>, i: int)
    requires
        clears(steps, orphans),
        0 <= i < orphans.len(),
    ensures
        steps.len() == 2 * orphans.len(),
        steps[2 * i] is CleanUpContainer,
        steps[2 * i]->CleanUpContainer_name@ == orphans[i].0@,
        steps[2 * i + 1] is CleanUpEndpoint,
        steps[2 * i + 1]->CleanUpEndpoint_name@ == orphans[i].0@,
        steps[2 * i + 1]->ip == orphans[i].1,
{
    assert(steps[2 * i] is CleanUpContainer);
}

/// An app starts together with the daemon exactly if it has been rolled out and
/// its idle timeout is empty or a plain nought.
pub proof fn lemma_eager(app: EagerCandidate)
    ensures
        app.eager() <==> app.rolled_out && (app.scaling.idle_text().len() == 0
            || app.scaling.idle_text() == "0"@),
        app.timeout() == Scaling::idle_timeout_of(app.scaling.idle_text()),
{
    reveal_strlit("0");
}

/// A message about an app begins with its name and a colon.
pub proof fn lemma_named_message(name: Seq<char>, e: Seq<char>)
    ensures
        named_message(name, e) == name + seq![':', ' '] + e,
{
    reveal_strlit(": ");
    assert(": "@ =~= seq![':', ' ']);
}

} // verus!
