//! What is done about apps from time to time: clearing up after crashes, freezing
//! the idle, and making room when memory runs short.

use vstd::prelude::*;

use super::handle::{AppHandle, AppState, HandleInner, StartClaim};
use crate::config::duration::Span;
use crate::config::spec::Scaling;

verus! {

/// What a look at an app leads to.
#[derive(Debug, Clone, Copy, PartialEq, Eq, Structural)]
pub enum SweepAction {
    /// Nothing more is done about the app.
    Leave,
    /// See whether the container is still there.
    CheckContainer,
    /// The container died; the app is stopped so that the next request starts it
    /// afresh.
    StopCrashed,
    /// Take a sample of what the container uses, then see whether it is idle.
    SampleUsage,
    /// The app has been idle for long enough.
    Freeze,
}

/// Only apps that are taken to be running are looked at.
pub fn sweep_begin(h: &AppHandle) -> (r: SweepAction)
    ensures
        r == if h.inner.state is Running {
            SweepAction::CheckContainer
        } else {
            SweepAction::Leave
        },
{
    if h.inner.state.is_running() {
        SweepAction::CheckContainer
    } else {
        SweepAction::Leave
    }
}

pub fn sweep_checked(container_running: bool) -> (r: SweepAction)
    ensures
        r == if container_running {
            SweepAction::SampleUsage
        } else {
            SweepAction::StopCrashed
        },
{
    if container_running {
        SweepAction::SampleUsage
    } else {
        SweepAction::StopCrashed
    }
}

/// How long an app has been idle, in nanoseconds.
pub open spec fn idle_for(last_access: Span, now: Span) -> int {
    if now.total() >= last_access.total() {
        now.total() - last_access.total()
    } else {
        0
    }
}

/// The app has been idle for as long as its spec allows. One that is always on
/// never is, nor one whose timeout cannot be read.
pub open spec fn is_idle(h: AppHandle, now: Span) -> bool {
    Scaling::idle_timeout_of(h.spec.scaling.idle_text()) matches Ok(Some(t)) && idle_for(
        h.inner.last_access,
        now,
    ) >= (Span { secs: t.0, nanos: t.1 }).total()
}

pub fn sweep_idle(h: &AppHandle, now: Span) -> (r: SweepAction)
    ensures
        r == if is_idle(*h, now) {
            SweepAction::Freeze
        } else {
            SweepAction::Leave
        },
{
    match h.spec.scaling.resolve_idle_timeout() {
        Ok(Some(t)) => {
            let last: u128 = h.inner.last_access.as_nanos();
            let current: u128 = now.as_nanos();
            let idle: u128 = if current >= last {
                current - last
            } else {
                0
            };
            if idle >= t.as_nanos() {
                SweepAction::Freeze
            } else {
                SweepAction::Leave
            }
        },
        Ok(None) => SweepAction::Leave,
        Err(_) => SweepAction::Leave,
    }
}

/// Whether memory is short. It counts as short from when less than one mark is
/// available until more than another is.
#[derive(Debug)]
pub struct MemoryPressure {
    pub evicting: bool,
    pub lo_bytes: u64,
    pub hi_bytes: u64,
}

impl MemoryPressure {
    pub fn new(lo_bytes: u64, hi_bytes: u64) -> (r: MemoryPressure)
        ensures
            r == (MemoryPressure { evicting: false, lo_bytes, hi_bytes }),
    {
        MemoryPressure { evicting: false, lo_bytes, hi_bytes }
    }

    /// Memory counts as short after a reading.
    pub open spec fn short_after(self, avail: u64) -> bool {
        (self.evicting || avail < self.lo_bytes) && avail < self.hi_bytes
    }

    /// Take in how much memory is available and say whether to evict an app.
    /// Without a reading nothing is done.
    pub fn tick(&mut self, avail: Option<u64>) -> (r: bool)
        ensures
            match avail {
                None => !r && *final(self) == *old(self),
                Some(a) => {
                    &&& r == old(self).short_after(a)
                    &&& *final(self) == (MemoryPressure { evicting: r, ..*old(self) })
                },
            },
    {
        let a: u64 = match avail {
            Some(a) => a,
            None => {
                return false;
            },
        };
        if !self.evicting && a < self.lo_bytes {
            self.evicting = true;
        }
        if self.evicting && a >= self.hi_bytes {
            self.evicting = false;
            return false;
        }
        self.evicting
    }

    /// Take in whether there was an app to evict. If there was none, the
    /// pressure comes from elsewhere.
    pub fn evicted(&mut self, any: bool)
        ensures
            *final(self) == (MemoryPressure { evicting: old(self).evicting && any, ..*old(self) }),
    {
        if !any {
            self.evicting = false;
        }
    }
}

/// The frozen app that was asked for least recently; of several the first.
pub open spec fn is_lru_frozen(apps: Seq<(AppState, Span)>, i: int) -> bool {
    &&& 0 <= i < apps.len()
    &&& apps[i].0 is Frozen
    &&& forall|j: int|
        #![trigger apps[j]]
        0 <= j < apps.len() && apps[j].0 is Frozen ==> apps[i].1.total() <= apps[j].1.total()
    &&& forall|j: int|
        #![trigger apps[j]]
        0 <= j < i && apps[j].0 is Frozen ==> apps[i].1.total() < apps[j].1.total()
}

/// Pick the app to evict: the frozen one that was asked for least recently.
pub fn lru_frozen(apps: &Vec<(AppState, Span)>) -> (r: Option<usize>)
    ensures
        match r {
            Some(i) => is_lru_frozen(apps@, i as int),
            None => forall|j: int| 0 <= j < apps@.len() ==> !((#[trigger] apps@[j]).0 is Frozen),
        },
{
    let mut best: Option<usize> = None;
    let mut i: usize = 0;
    while i < apps.len()
        invariant
            i <= apps.len(),
            match best {
                Some(b) => is_lru_frozen(apps@.take(i as int), b as int),
                None => forall|j: int| 0 <= j < i ==> !((#[trigger] apps@[j]).0 is Frozen),
            },
        decreases apps.len() - i,
    {
        let ghost head = apps@.take(i as int);
        let ghost next = apps@.take(i + 1);
        let ghost old_best = best;
        proof {
            assert forall|j: int| 0 <= j < i implies #[trigger] next[j] == head[j] by {}
            assert(next[i as int] == apps@[i as int]);
        }
        if apps[i].0.is_frozen() {
            let better = match best {
                Some(b) => !apps[i].1.at_least(apps[b].1),
                None => true,
            };
            if better {
                best = Some(i);
            }
        }
        proof {
            match best {
                Some(b) => {
                    assert forall|j: int|
                        #![trigger next[j]]
                        0 <= j < next.len() && next[j].0 is Frozen implies next[b as int].1.total()
                        <= next[j].1.total() by {
                        if j < i {
                            assert(next[j] == head[j]);
                            assert(head[j] == apps@[j]);
                        }
                    }
                    assert forall|j: int|
                        #![trigger next[j]]
                        0 <= j < b && next[j].0 is Frozen implies next[b as int].1.total()
                        < next[j].1.total() by {
                        assert(next[j] == head[j]);
                        assert(head[j] == apps@[j]);
                    }
                    assert(is_lru_frozen(next, b as int));
                },
                None => {},
            }
        }
        i = i + 1;
    }
    proof {
        assert(apps@.take(i as int) =~= apps@);
    }
    best
}

// ---- laws ------------------------------------------------------------------

/// Between the two marks nothing changes: apps go on being evicted, or go on
/// being left alone. So a reading that wavers around one mark does not switch
/// back and forth.
pub proof fn lemma_hysteresis(p: MemoryPressure, avail: u64)
    requires
        p.lo_bytes <= avail < p.hi_bytes,
    ensures
        p.short_after(avail) == p.evicting,
{
}

/// Below the low mark apps are evicted; from the high mark on they are not.
pub proof fn lemma_marks(p: MemoryPressure, avail: u64)
    requires
        p.lo_bytes < p.hi_bytes,
    ensures
        avail < p.lo_bytes ==> p.short_after(avail),
        avail >= p.hi_bytes ==> !p.short_after(avail),
{
}

/// An idle app goes to sleep and wakes up where it was: unless an upgraded
/// connection is open, it is frozen at the address it serves at, and the next
/// request resumes it there.
pub proof fn lemma_idle_app_sleeps_and_wakes(h: AppHandle, now: Span, ip: u32)
    requires
        h.inner.state == (AppState::Running { container_ip: ip }),
        is_idle(h, now),
    ensures
        h.inner.freezable(0) == Some(ip),
        h.active_upgrades > 0 ==> h.inner.freezable(h.active_upgrades) is None,
        HandleInner::claim_of(AppState::Frozen { container_ip: ip }) == (
            AppState::Starting,
            StartClaim::Claimed { resume_from: Some(ip) },
        ),
{
}

/// An app that is always on is never frozen for being idle.
pub proof fn lemma_always_on_is_never_idle(h: AppHandle, now: Span)
    requires
        Scaling::idle_timeout_of(h.spec.scaling.idle_text()) == Ok::<Option<(u64, u32)>, Seq<char>>(
            None,
        ),
    ensures
        !is_idle(h, now),
{
}

/// An app whose idle timeout is `secs` and `nanos` is frozen for being idle
/// exactly from the moment on that lies that long after its last request; one
/// whose timeout is nought is idle at any time.
pub proof fn lemma_idle_from_the_timeout_on(h: AppHandle, now: Span, secs: u64, nanos: u32)
    requires
        Scaling::idle_timeout_of(h.spec.scaling.idle_text()) == Ok::<Option<(u64, u32)>, Seq<char>>(
            Some((secs, nanos)),
        ),
    ensures
        is_idle(h, now) <==> (secs == 0 && nanos == 0) || now.secs * 1_000_000_000 + now.nanos
            >= h.inner.last_access.secs * 1_000_000_000 + h.inner.last_access.nanos + secs
            * 1_000_000_000 + nanos,
{
}

/// An app whose timeout cannot be read is never frozen for being idle.
pub proof fn lemma_unreadable_timeout_is_never_idle(h: AppHandle, now: Span)
    requires
        Scaling::idle_timeout_of(h.spec.scaling.idle_text()) is Err,
    ensures
        !is_idle(h, now),
{
}

/// An app that is idle stays idle until the next request, however long that
/// takes; and of two apps with the same timeout the one that was asked for
/// earlier is idle whenever the other is.
pub proof fn lemma_idle_stays_idle(h: AppHandle, earlier: AppHandle, now: Span, later: Span)
    requires
        is_idle(h, now),
        now.secs * 1_000_000_000 + now.nanos <= later.secs * 1_000_000_000 + later.nanos,
        earlier.spec == h.spec,
        earlier.inner.last_access.secs * 1_000_000_000 + earlier.inner.last_access.nanos
            <= h.inner.last_access.secs * 1_000_000_000 + h.inner.last_access.nanos,
    ensures
        is_idle(h, later),
        is_idle(earlier, now),
        is_idle(earlier, later),
{
}

/// A request starts the idle time anew: until the whole timeout has passed since
/// that request, the app is not idle.
pub proof fn lemma_request_starts_idle_time_anew(h: AppHandle, now: Span, secs: u64, nanos: u32)
    requires
        Scaling::idle_timeout_of(h.spec.scaling.idle_text()) == Ok::<Option<(u64, u32)>, Seq<char>>(
            Some((secs, nanos)),
        ),
        now.secs * 1_000_000_000 + now.nanos < h.inner.last_access.secs * 1_000_000_000
            + h.inner.last_access.nanos + secs * 1_000_000_000 + nanos,
        secs > 0 || nanos > 0,
    ensures
        !is_idle(h, now),
{
}

/// The app that is evicted is frozen, no frozen app was asked for longer ago,
/// and of the frozen apps that were asked for as long ago it comes first. So
/// there is never more than one choice.
pub proof fn lemma_oldest_frozen(apps: Seq<(AppState, Span)>, i: int, j: int)
    requires
        is_lru_frozen(apps, i),
        0 <= j < apps.len(),
        apps[j].0 is Frozen,
    ensures
        0 <= i < apps.len(),
        apps[i].0 is Frozen,
        apps[i].1.secs * 1_000_000_000 + apps[i].1.nanos <= apps[j].1.secs * 1_000_000_000
            + apps[j].1.nanos,
        j < i ==> apps[i].1.secs * 1_000_000_000 + apps[i].1.nanos < apps[j].1.secs * 1_000_000_000
            + apps[j].1.nanos,
        is_lru_frozen(apps, j) ==> i == j,
{
    assert(apps[j].1.total() == apps[j].1.secs * 1_000_000_000 + apps[j].1.nanos);
    assert(apps[i].1.total() == apps[i].1.secs * 1_000_000_000 + apps[i].1.nanos);
}

/// Memory is short below the low mark, unless the high mark is passed; once
/// short it stays so until the high mark is reached, and a reading at or above
/// the high mark always ends it.
pub proof fn lemma_memory_is_short(p: MemoryPressure, avail: u64)
    ensures
        avail >= p.hi_bytes ==> !p.short_after(avail),
        avail < p.hi_bytes && p.evicting ==> p.short_after(avail),
        avail < p.hi_bytes && avail < p.lo_bytes ==> p.short_after(avail),
        avail >= p.lo_bytes && !p.evicting ==> !p.short_after(avail),
{
}

} // verus!
