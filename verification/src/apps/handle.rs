//! One registered app: what it is and which state it is in.

use vstd::prelude::*;
use vstd::string::StringExecFns;

use crate::config::duration::Span;
use crate::config::spec::{AppIdentity, AppSpec, Rollout};
use crate::config::validate::InvalidSpec;
use crate::text::same_str;

verus! {

/// How many rollouts of an app are kept: the current one and the one before it.
pub const MAX_ROLLOUT_HISTORY: usize = 2;

/// One of the two places that a container of an app can have.
#[derive(Debug, Clone, Copy, PartialEq, Eq, Structural)]
pub enum Slot {
    A,
    B,
}

impl Slot {
    pub open spec fn letter(self) -> char {
        match self {
            Slot::A => 'a',
            Slot::B => 'b',
        }
    }

    /// The letter that stands for the slot in names.
    pub fn as_char(self) -> (r: char)
        ensures
            r == self.letter(),
    {
        match self {
            Slot::A => 'a',
            Slot::B => 'b',
        }
    }
}

/// The name of the container that an app has in a slot.
pub open spec fn container_name(name: Seq<char>, slot: Slot) -> Seq<char> {
    name + "-"@ + seq![slot.letter()]
}

pub fn container_id(name: &str, slot: Slot) -> (r: String)
    ensures
        r@ == container_name(name@, slot),
{
    let mut r = String::from_str(name);
    r.append("-");
    let ghost before = r@;
    r.push(slot.as_char());
    proof {
        assert(before.push(slot.letter()) =~= before + seq![slot.letter()]);
    }
    r
}

/// Containers of different apps or different slots have different names.
pub proof fn lemma_container_names_differ(a: Seq<char>, s: Slot, b: Seq<char>, t: Slot)
    requires
        a != b || s != t,
    ensures
        container_name(a, s) != container_name(b, t),
{
    reveal_strlit("-");
    let x = container_name(a, s);
    let y = container_name(b, t);
    if x == y {
        assert(x.len() == a.len() + 2);
        assert(y.len() == b.len() + 2);
        assert(x.last() == s.letter());
        assert(y.last() == t.letter());
        assert(x.take(a.len() as int) =~= a);
        assert(y.take(b.len() as int) =~= b);
    }
}

/// The state of an app.
#[derive(Debug, Clone, Copy, PartialEq, Eq, Structural)]
pub enum AppState {
    Stopped,
    /// Somebody is bringing the app up.
    Starting,
    Running { container_ip: u32 },
    /// The container is suspended; its address and its memory are kept.
    Frozen { container_ip: u32 },
    Stopping,
}

impl AppState {
    /// The app can serve requests.
    pub fn is_running(&self) -> (r: bool)
        ensures
            r == (*self is Running),
    {
        matches!(self, AppState::Running { .. })
    }

    pub fn is_frozen(&self) -> (r: bool)
        ensures
            r == (*self is Frozen),
    {
        matches!(self, AppState::Frozen { .. })
    }

    /// The app is between two states.
    pub open spec fn busy(self) -> bool {
        self is Starting || self is Stopping
    }

    pub fn is_busy(&self) -> (r: bool)
        ensures
            r == self.busy(),
    {
        matches!(self, AppState::Starting | AppState::Stopping)
    }

    /// There is, or is about to be, a container to take down.
    pub open spec fn has_container(self) -> bool {
        self is Running || self is Frozen || self is Starting
    }

    pub fn needs_teardown(&self) -> (r: bool)
        ensures
            r == self.has_container(),
    {
        matches!(self, AppState::Running { .. } | AppState::Frozen { .. } | AppState::Starting)
    }

    /// The app is stopped when the daemon shuts down. A frozen app is left as
    /// it is, so that it can be taken up again later.
    pub open spec fn ends_with_daemon(self) -> bool {
        self is Running || self is Starting
    }

    pub fn stops_on_teardown(&self) -> (r: bool)
        ensures
            r == self.ends_with_daemon(),
    {
        matches!(self, AppState::Running { .. } | AppState::Starting)
    }
}

/// What a pull resolved to, and the repository it was made from.
#[derive(Debug)]
pub struct DigestCache {
    pub repo: String,
    pub digest: String,
}

/// What a caller that wants an app to run has to do.
#[derive(Debug, Clone, Copy, PartialEq, Eq, Structural)]
pub enum StartClaim {
    /// The app serves at this address.
    Ready(u32),
    /// Somebody else brings the app up; wait for them and look again.
    Coalesce,
    /// The app is being taken down; look again in a moment.
    WaitForStopping,
    /// It falls to the caller to bring the app up: by resuming the container at
    /// the given address, or from scratch.
    Claimed { resume_from: Option<u32> },
}

/// The part of an app that changes while it lives.
#[derive(Debug)]
pub struct HandleInner {
    pub state: AppState,
    pub current_slot: Slot,
    /// When the app was last asked for, since the daemon started.
    pub last_access: Span,
    /// Rollouts, the oldest first. The last one is what runs.
    pub rollouts: Vec<Rollout>,
    pub image_digest: Option<DigestCache>,
    /// CPU time of the running container when it was last looked at.
    pub cpu_baseline: u64,
}

/// The rollouts with one more, of which only the newest are kept.
pub open spec fn with_rollout(history: Seq<Rollout>, rollout: Rollout) -> Seq<Rollout> {
    if history.len() >= MAX_ROLLOUT_HISTORY {
        history.skip(history.len() - (MAX_ROLLOUT_HISTORY - 1)).push(rollout)
    } else {
        history.push(rollout)
    }
}

impl HandleInner {
    /// What a caller that wants the app to run has to do in a state, and the
    /// state afterwards.
    pub open spec fn claim_of(state: AppState) -> (AppState, StartClaim) {
        match state {
            AppState::Running { container_ip } => (state, StartClaim::Ready(container_ip)),
            AppState::Starting => (state, StartClaim::Coalesce),
            AppState::Stopping => (state, StartClaim::WaitForStopping),
            AppState::Stopped => (AppState::Starting, StartClaim::Claimed { resume_from: None }),
            AppState::Frozen { container_ip } => (
                AppState::Starting,
                StartClaim::Claimed { resume_from: Some(container_ip) },
            ),
        }
    }

    /// Note that the app was asked for and say what the caller has to do. From
    /// a state without a start under way, the start is the caller's.
    pub fn claim_start_slot(&mut self, now: Span) -> (r: StartClaim)
        ensures
            *final(self) == (HandleInner {
                state: HandleInner::claim_of(old(self).state).0,
                last_access: now,
                ..*old(self)
            }),
            r == HandleInner::claim_of(old(self).state).1,
    {
        self.last_access = now;
        match self.state {
            AppState::Running { container_ip } => StartClaim::Ready(container_ip),
            AppState::Starting => StartClaim::Coalesce,
            AppState::Stopping => StartClaim::WaitForStopping,
            AppState::Stopped => {
                self.state = AppState::Starting;
                StartClaim::Claimed { resume_from: None }
            },
            AppState::Frozen { container_ip } => {
                self.state = AppState::Starting;
                StartClaim::Claimed { resume_from: Some(container_ip) }
            },
        }
    }

    /// Commit the outcome of a start: the address at which the app serves, or
    /// nothing where it failed, so that the next request tries afresh.
    pub fn finish_start(&mut self, result: Option<u32>)
        ensures
            *final(self) == (HandleInner {
                state: match result {
                    Some(container_ip) => AppState::Running { container_ip },
                    None => AppState::Stopped,
                },
                ..*old(self)
            }),
    {
        self.state = match result {
            Some(container_ip) => AppState::Running { container_ip },
            None => AppState::Stopped,
        };
    }

    /// Begin to take the app down. Says whether there is anything to take down.
    pub fn begin_stop(&mut self) -> (r: bool)
        ensures
            r == old(self).state.has_container(),
            *final(self) == (HandleInner {
                state: if r {
                    AppState::Stopping
                } else {
                    old(self).state
                },
                ..*old(self)
            }),
    {
        if !self.state.needs_teardown() {
            return false;
        }
        self.state = AppState::Stopping;
        true
    }

    /// The app is down. The next run counts its CPU time from zero.
    pub fn finish_stop(&mut self)
        ensures
            *final(self) == (HandleInner {
                state: AppState::Stopped,
                cpu_baseline: 0,
                ..*old(self)
            }),
    {
        self.state = AppState::Stopped;
        self.cpu_baseline = 0;
    }

    /// The address of the container, if the app may be frozen: it runs, and no
    /// upgraded connection would be cut off.
    pub open spec fn freezable(self, active_upgrades: usize) -> Option<u32> {
        match self.state {
            AppState::Running { container_ip } => if active_upgrades == 0 {
                Some(container_ip)
            } else {
                None
            },
            _ => None,
        }
    }

    pub fn begin_freeze(&self, active_upgrades: usize) -> (r: Option<u32>)
        ensures
            r == self.freezable(active_upgrades),
    {
        match self.state {
            AppState::Running { container_ip } => if active_upgrades == 0 {
                Some(container_ip)
            } else {
                None
            },
            _ => None,
        }
    }

    /// The container at this address is suspended.
    pub fn finish_freeze(&mut self, container_ip: u32)
        ensures
            *final(self) == (HandleInner {
                state: AppState::Frozen { container_ip },
                ..*old(self)
            }),
    {
        self.state = AppState::Frozen { container_ip };
    }

    /// Take up a container that outlived the last daemon.
    pub fn adopt(&mut self, container_ip: u32, paused: bool, now: Span)
        ensures
            *final(self) == (HandleInner {
                state: if paused {
                    AppState::Frozen { container_ip }
                } else {
                    AppState::Running { container_ip }
                },
                last_access: now,
                ..*old(self)
            }),
    {
        self.state = if paused {
            AppState::Frozen { container_ip }
        } else {
            AppState::Running { container_ip }
        };
        self.last_access = now;
    }

    /// Add a rollout to the history and remember what its pull resolved to.
    pub fn record_rollout(&mut self, rollout: Rollout, repo: String, digest: String)
        ensures
            final(self).rollouts@ == with_rollout(old(self).rollouts@, rollout),
            final(self).image_digest == Some(DigestCache { repo, digest }),
            final(self).state == old(self).state,
            final(self).current_slot == old(self).current_slot,
            final(self).last_access == old(self).last_access,
            final(self).cpu_baseline == old(self).cpu_baseline,
    {
        let ghost all = self.rollouts@;
        while self.rollouts.len() >= MAX_ROLLOUT_HISTORY
            invariant
                all == old(self).rollouts@,
                self.rollouts@.len() <= all.len(),
                self.rollouts@ == all.skip(all.len() - self.rollouts@.len()),
                all.len() >= MAX_ROLLOUT_HISTORY ==> self.rollouts@.len() >= MAX_ROLLOUT_HISTORY
                    - 1,
                all.len() < MAX_ROLLOUT_HISTORY ==> self.rollouts@ == all,
                self.state == old(self).state,
                self.current_slot == old(self).current_slot,
                self.last_access == old(self).last_access,
                self.cpu_baseline == old(self).cpu_baseline,
            decreases self.rollouts@.len(),
        {
            let ghost before = self.rollouts@;
            let _ = self.rollouts.remove(0);
            proof {
                assert(self.rollouts@ =~= before.remove(0));
                assert(self.rollouts@ =~= all.skip(all.len() - self.rollouts@.len()));
            }
        }
        self.rollouts.push(rollout);
        self.image_digest = Some(DigestCache { repo, digest });
    }

    /// What a pull from this repository is known to resolve to. What was
    /// resolved from another repository does not count.
    pub open spec fn known_digest(self, repo: Seq<char>) -> Option<Seq<char>> {
        match self.image_digest {
            Some(c) => if c.repo@ == repo {
                Some(c.digest@)
            } else {
                None
            },
            None => None,
        }
    }

    pub fn cached_digest(&self, repo: &str) -> (r: Option<&str>)
        ensures
            match r {
                Some(d) => self.known_digest(repo@) == Some(d@),
                None => self.known_digest(repo@) is None,
            },
    {
        match &self.image_digest {
            Some(c) => if same_str(c.repo.as_str(), repo) {
                Some(c.digest.as_str())
            } else {
                None
            },
            None => None,
        }
    }

    /// The same app with what a pull from a repository resolved to.
    pub open spec fn remembers(self, before: HandleInner, repo: Seq<char>, digest: Seq<char>) -> bool {
        match before.known_digest(repo) {
            Some(_) => self == before,
            None => {
                &&& self.image_digest is Some
                &&& self.image_digest->0.repo@ == repo
                &&& self.image_digest->0.digest@ == digest
                &&& self.state == before.state
                &&& self.current_slot == before.current_slot
                &&& self.last_access == before.last_access
                &&& self.rollouts == before.rollouts
                &&& self.cpu_baseline == before.cpu_baseline
            },
        }
    }

    /// Remember what a pull from a repository resolved to, unless that is known
    /// already. What was resolved from another repository gives way.
    pub fn remember_digest(&mut self, repo: &str, digest: &str)
        ensures
            final(self).remembers(*old(self), repo@, digest@),
    {
        if self.cached_digest(repo).is_none() {
            self.image_digest = Some(
                DigestCache { repo: repo.to_owned(), digest: digest.to_owned() },
            );
        }
    }

    /// CPU time used since the container was last looked at. A count that went
    /// backwards started anew.
    pub fn sample_cpu(&mut self, cpu_usec: u64) -> (r: u64)
        ensures
            *final(self) == (HandleInner { cpu_baseline: cpu_usec, ..*old(self) }),
            r == (if cpu_usec >= old(self).cpu_baseline {
                (cpu_usec - old(self).cpu_baseline) as u64
            } else {
                cpu_usec
            }),
    {
        let last: u64 = self.cpu_baseline;
        self.cpu_baseline = cpu_usec;
        if cpu_usec >= last {
            cpu_usec - last
        } else {
            cpu_usec
        }
    }

    /// The rollout that runs.
    pub fn current_rollout(&self) -> (r: Option<&Rollout>)
        ensures
            match r {
                Some(x) => self.rollouts@.len() > 0 && *x == self.rollouts@.last(),
                None => self.rollouts@.len() == 0,
            },
    {
        if self.rollouts.len() == 0 {
            None
        } else {
            Some(&self.rollouts[self.rollouts.len() - 1])
        }
    }
}

/// A registered app.
#[derive(Debug)]
pub struct AppHandle {
    /// Name and subdomain, which never change.
    pub identity: AppIdentity,
    pub spec: AppSpec,
    /// Upgraded connections that are open to the app.
    pub active_upgrades: usize,
    pub inner: HandleInner,
}

impl AppHandle {
    pub fn name(&self) -> (r: &str)
        ensures
            r@ == self.identity.name@,
    {
        self.identity.name.as_str()
    }

    pub fn subdomain(&self) -> (r: &str)
        ensures
            r@ == self.identity.subdomain@,
    {
        self.identity.subdomain.as_str()
    }

    pub fn repo(&self) -> (r: &str)
        ensures
            r@ == self.spec.repo@,
    {
        self.spec.repo.as_str()
    }

    /// The name of the app's current container by its slot.
    pub fn current_id(&self) -> (r: String)
        ensures
            r@ == container_name(self.identity.name@, self.inner.current_slot),
    {
        container_id(self.identity.name.as_str(), self.inner.current_slot)
    }

    /// An upgraded connection to the app was opened.
    pub fn open_upgrade(&mut self)
        requires
            old(self).active_upgrades < usize::MAX,
        ensures
            *final(self) == (AppHandle {
                active_upgrades: (old(self).active_upgrades + 1) as usize,
                ..*old(self)
            }),
    {
        self.active_upgrades = self.active_upgrades + 1;
    }

    /// An upgraded connection to the app was closed.
    pub fn close_upgrade(&mut self)
        requires
            old(self).active_upgrades > 0,
        ensures
            *final(self) == (AppHandle {
                active_upgrades: (old(self).active_upgrades - 1) as usize,
                ..*old(self)
            }),
    {
        self.active_upgrades = self.active_upgrades - 1;
    }

    /// The spec passes validation, and it is a spec of this very app: it names
    /// the app's subdomain, and no other app.
    pub open spec fn sound(self) -> bool {
        &&& self.spec.fault() is None
        &&& !self.spec.names_another(self.identity.name@)
        &&& self.identity.subdomain@ == self.spec.subdomain_text()
    }

    /// A fresh handle for a spec: stopped, in the first slot, with this history.
    pub open spec fn fresh(self, spec: AppSpec, rollouts: Seq<Rollout>, now: Span) -> bool {
        &&& self.identity.name@ == spec.name_text()
        &&& self.identity.subdomain@ == spec.subdomain_text()
        &&& self.spec == spec
        &&& self.active_upgrades == 0
        &&& self.inner.state == AppState::Stopped
        &&& self.inner.current_slot == Slot::A
        &&& self.inner.last_access == now
        &&& self.inner.rollouts@ == rollouts
        &&& self.inner.image_digest is None
        &&& self.inner.cpu_baseline == 0
    }
}

/// Make a handle for a spec that passes validation, with a history of rollouts.
pub fn make_handle_with_rollouts(spec: AppSpec, rollouts: Vec<Rollout>, now: Span) -> (r: Result<
    AppHandle,
    InvalidSpec,
>)
    ensures
        match r {
            Ok(h) => h.sound() && h.fresh(spec, rollouts@, now),
            Err(e) => spec.fault() == Some(e@),
        },
{
    let identity = match spec.identity() {
        Ok(id) => id,
        Err(e) => {
            return Err(e);
        },
    };
    Ok(
        AppHandle {
            identity,
            spec,
            active_upgrades: 0,
            inner: HandleInner {
                state: AppState::Stopped,
                current_slot: Slot::A,
                last_access: now,
                rollouts,
                image_digest: None,
                cpu_baseline: 0,
            },
        },
    )
}

/// Make a handle for a spec that passes validation, with at most one rollout.
pub fn make_handle(spec: AppSpec, initial_rollout: Option<Rollout>, now: Span) -> (r: Result<
    AppHandle,
    InvalidSpec,
>)
    ensures
        match r {
            Ok(h) => h.sound() && h.fresh(
                spec,
                match initial_rollout {
                    Some(x) => seq![x],
                    None => seq![],
                },
                now,
            ),
            Err(e) => spec.fault() == Some(e@),
        },
{
    let mut rollouts: Vec<Rollout> = Vec::new();
    if let Some(x) = initial_rollout {
        rollouts.push(x);
    }
    proof {
        assert(rollouts@ =~= match initial_rollout {
            Some(x) => seq![x],
            None => seq![],
        });
    }
    make_handle_with_rollouts(spec, rollouts, now)
}

// ---- laws ------------------------------------------------------------------

/// However many ask for a stopped or frozen app at the same time, only the first
/// brings it up; the others wait, and get its address once it is up.
pub proof fn lemma_one_start_at_a_time(state: AppState, ip: u32)
    requires
        state is Stopped || state is Frozen,
    ensures
        HandleInner::claim_of(state).1 is Claimed,
        HandleInner::claim_of(HandleInner::claim_of(state).0).1 == StartClaim::Coalesce,
        HandleInner::claim_of(AppState::Running { container_ip: ip }).1 == StartClaim::Ready(ip),
{
}

/// Freezing and resuming keep the app's address: the start of a frozen app is to
/// resume the container at the address it had when it ran.
pub proof fn lemma_freeze_keeps_address(inner: HandleInner, ip: u32)
    requires
        inner.freezable(0) == Some(ip),
    ensures
        inner.state == (AppState::Running { container_ip: ip }),
        HandleInner::claim_of(AppState::Frozen { container_ip: ip }).1 == (StartClaim::Claimed {
            resume_from: Some(ip),
        }),
{
}

/// An app with an open upgraded connection is never frozen.
pub proof fn lemma_upgrades_prevent_freeze(inner: HandleInner, active: usize)
    requires
        active > 0,
    ensures
        inner.freezable(active) is None,
{
}

/// The history never holds more than it may, ends with the newest rollout, and
/// keeps the one before it.
pub proof fn lemma_history_is_bounded(history: Seq<Rollout>, rollout: Rollout)
    ensures
        with_rollout(history, rollout).len() <= MAX_ROLLOUT_HISTORY,
        with_rollout(history, rollout).last() == rollout,
        history.len() > 0 ==> with_rollout(history, rollout).len() == 2 && with_rollout(
            history,
            rollout,
        )[0] == history.last(),
{
}

/// After the repository of an app has changed, nothing that was resolved from
/// the old one counts.
pub proof fn lemma_digest_is_bound_to_repo(inner: HandleInner, old_repo: Seq<char>, repo: Seq<char>)
    requires
        inner.known_digest(old_repo) is Some,
        repo != old_repo,
    ensures
        inner.known_digest(repo) is None,
{
}

/// What a caller has to do for an app, state by state. A state in which somebody
/// else is at work is left alone; only from a state at rest a start begins, and
/// then it is the caller's.
pub proof fn lemma_claims(state: AppState, ip: u32)
    ensures
        state == (AppState::Running { container_ip: ip }) <==> HandleInner::claim_of(state).1
            == StartClaim::Ready(ip),
        state is Starting <==> HandleInner::claim_of(state).1 == StartClaim::Coalesce,
        state is Stopping <==> HandleInner::claim_of(state).1 == StartClaim::WaitForStopping,
        state is Stopped <==> HandleInner::claim_of(state).1 == (StartClaim::Claimed {
            resume_from: None,
        }),
        state == (AppState::Frozen { container_ip: ip }) <==> HandleInner::claim_of(state).1 == (
        StartClaim::Claimed { resume_from: Some(ip) }),
        state is Running || state is Starting || state is Stopping ==> HandleInner::claim_of(
            state,
        ).0 == state,
        state is Stopped || state is Frozen ==> HandleInner::claim_of(state).0 is Starting,
{
}

/// Which states are between two others, which have something to take down, and
/// which end with the daemon.
pub proof fn lemma_states(state: AppState)
    ensures
        state is Stopped ==> !state.busy() && !state.has_container() && !state.ends_with_daemon(),
        state is Starting ==> state.busy() && state.has_container() && state.ends_with_daemon(),
        state is Running ==> !state.busy() && state.has_container() && state.ends_with_daemon(),
        state is Frozen ==> !state.busy() && state.has_container() && !state.ends_with_daemon(),
        state is Stopping ==> state.busy() && !state.has_container() && !state.ends_with_daemon(),
{
}

/// The container in a slot is called after the app, with a hyphen and the letter
/// of the slot.
pub proof fn lemma_container_name(name: Seq<char>)
    ensures
        container_name(name, Slot::A) == name + seq!['-', 'a'],
        container_name(name, Slot::B) == name + seq!['-', 'b'],
{
    reveal_strlit("-");
    assert(container_name(name, Slot::A) =~= name + seq!['-', 'a']);
    assert(container_name(name, Slot::B) =~= name + seq!['-', 'b']);
}

/// An app may be frozen exactly if it runs and has no upgraded connection open,
/// and it is frozen at the address it runs at.
pub proof fn lemma_freezable(inner: HandleInner, active: usize, ip: u32)
    ensures
        inner.freezable(active) == Some(ip) <==> active == 0 && inner.state == (AppState::Running {
            container_ip: ip,
        }),
        inner.freezable(active) is None <==> active > 0 || !(inner.state is Running),
{
}

/// Of a history and one more rollout, the new one and the one before it are
/// kept.
pub proof fn lemma_with_rollout(history: Seq<Rollout>, rollout: Rollout)
    ensures
        history.len() == 0 ==> with_rollout(history, rollout) == seq![rollout],
        history.len() > 0 ==> with_rollout(history, rollout) == seq![
            history[history.len() - 1],
            rollout,
        ],
{
    if history.len() == 0 {
        assert(with_rollout(history, rollout) =~= seq![rollout]);
    } else {
        assert(with_rollout(history, rollout) =~= seq![history[history.len() - 1], rollout]);
    }
}

/// What a repository is known to resolve to is what was resolved from that very
/// repository, and nothing where nothing was.
pub proof fn lemma_known_digest(inner: HandleInner, repo: Seq<char>, digest: Seq<char>)
    ensures
        inner.known_digest(repo) == Some(digest) <==> inner.image_digest is Some
            && inner.image_digest->0.repo@ == repo && inner.image_digest->0.digest@ == digest,
{
}

/// What is known already is kept; what is not known is remembered for its
/// repository. The rest of the app stays as it is.
pub proof fn lemma_remembers(
    before: HandleInner,
    after: HandleInner,
    repo: Seq<char>,
    digest: Seq<char>,
)
    requires
        after.remembers(before, repo, digest),
    ensures
        before.known_digest(repo) is Some ==> after == before,
        before.known_digest(repo) is None ==> after.known_digest(repo) == Some(digest),
        after.state == before.state,
        after.current_slot == before.current_slot,
        after.last_access == before.last_access,
        after.rollouts == before.rollouts,
        after.cpu_baseline == before.cpu_baseline,
{
}

/// A new handle is stopped, in the first slot, without connections and without a
/// known digest, with the spec and the history it was made of, under the name and
/// the subdomain that the spec gives.
pub proof fn lemma_fresh(h: AppHandle, spec: AppSpec, rollouts: Seq<Rollout>, now: Span)
    requires
        h.fresh(spec, rollouts, now),
    ensures
        h.inner.state is Stopped,
        h.inner.current_slot is A,
        h.active_upgrades == 0,
        h.inner.image_digest is None,
        h.inner.cpu_baseline == 0,
        h.inner.last_access == now,
        h.inner.rollouts@ == rollouts,
        h.spec == spec,
        h.identity.name@ == spec.name_text(),
        h.identity.subdomain@ == spec.subdomain_text(),
{
}

/// The spec of a sound app passes validation and is that app's.
pub proof fn lemma_sound_handle(h: AppHandle)
    requires
        h.sound(),
    ensures
        h.spec.fault() is None,
        h.spec.name matches Some(n) ==> n@ == h.identity.name@,
        h.spec.subdomain matches Some(s) ==> s@ == h.identity.subdomain@,
{
}

} // verus!
