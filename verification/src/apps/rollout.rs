//! Rolling out an image: it is pulled, recorded, and run.

use vstd::prelude::*;
use vstd::string::StringExecFns;

use super::error::{classify_pull_error_for_rollout, pull_failure, RolloutError};
use super::handle::{with_rollout, AppHandle, HandleInner, StartClaim};
use crate::config::spec::Rollout;
use crate::text::{chars_of, trim, trimmed};

verus! {

/// How far a rollout has got.
#[derive(Debug)]
pub enum RolloutPhase {
    Pulling,
    /// The history is being written down.
    Persisting { rollout: Rollout },
    /// What ran before is being stopped.
    Stopping { rollout: Rollout },
    Starting { rollout: Rollout },
    Done { result: Result<Rollout, RolloutError> },
}

/// What to do next.
#[derive(Debug)]
pub enum RolloutAction {
    PullImage { image_ref: String },
    PersistRollouts,
    StopApp,
    StartApp,
    /// The rollout is over.
    Finish,
    /// The event was not waited for; nothing has changed.
    Ignore,
}

/// Why a pull failed.
#[derive(Debug)]
pub struct PullFailure {
    /// The registry did not accept the credentials, or wants some.
    pub is_auth: bool,
    pub reason: String,
}

/// What came of it. A failure to write down or to stop does not change anything
/// and is not told.
#[derive(Debug)]
pub enum RolloutEvent {
    /// The digest of the image, and the time.
    Pulled { outcome: Result<String, PullFailure>, now: String },
    Persisted,
    Stopped,
    Started(Result<u32, String>),
}

/// A rollout of a tag.
#[derive(Debug)]
pub struct RolloutRun {
    pub tag: String,
    /// The repository at the time when the rollout began.
    pub repo: String,
    pub image_ref: String,
    pub phase: RolloutPhase,
}

impl RolloutRun {
    /// Begin to roll out a tag. Nothing is pulled for an empty tag or for an app
    /// that is between two states.
    pub fn begin(h: &AppHandle, tag: String) -> (r: Result<
        (RolloutRun, RolloutAction),
        RolloutError,
    >)
        ensures
            match r {
                Ok((s, a)) => {
                    &&& trim(tag@).len() > 0
                    &&& !h.inner.state.busy()
                    &&& s.tag@ == tag@
                    &&& s.repo@ == h.spec.repo@
                    &&& s.image_ref@ == h.spec.repo@ + ":"@ + tag@
                    &&& s.phase == RolloutPhase::Pulling
                    &&& a matches RolloutAction::PullImage { image_ref } && image_ref@
                        == s.image_ref@
                },
                Err(RolloutError::EmptyTag) => trim(tag@).len() == 0,
                Err(RolloutError::Conflict(n)) => trim(tag@).len() > 0 && h.inner.state.busy()
                    && n@ == h.identity.name@,
                Err(_) => false,
            },
    {
        let tag_chars = chars_of(tag.as_str());
        if trimmed(&tag_chars).len() == 0 {
            return Err(RolloutError::EmptyTag);
        }
        if h.inner.state.is_busy() {
            return Err(RolloutError::Conflict(h.identity.name.clone()));
        }
        let mut image_ref = String::from_str(h.spec.repo.as_str());
        image_ref.append(":");
        image_ref.append(tag.as_str());
        let action = RolloutAction::PullImage { image_ref: image_ref.clone() };
        Ok(
            (
                RolloutRun {
                    tag,
                    repo: h.spec.repo.clone(),
                    image_ref,
                    phase: RolloutPhase::Pulling,
                },
                action,
            ),
        )
    }

    pub open spec fn same_image(self, other: RolloutRun) -> bool {
        self.tag == other.tag && self.repo == other.repo && self.image_ref == other.image_ref
    }

    /// The app with one more rollout, of which it is known what it resolved to.
    pub open spec fn recorded(
        before: AppHandle,
        after: AppHandle,
        rollout: Rollout,
        repo: Seq<char>,
        digest: Seq<char>,
    ) -> bool {
        &&& after.identity == before.identity
        &&& after.spec == before.spec
        &&& after.active_upgrades == before.active_upgrades
        &&& after.inner.rollouts@ == with_rollout(before.inner.rollouts@, rollout)
        &&& after.inner.known_digest(repo) == Some(digest)
        &&& after.inner.state == before.inner.state
        &&& after.inner.current_slot == before.inner.current_slot
        &&& after.inner.last_access == before.inner.last_access
        &&& after.inner.cpu_baseline == before.inner.cpu_baseline
    }

    /// What follows from an event: the next phase, the next action, and what
    /// becomes of the app.
    pub open spec fn follows(
        before: RolloutRun,
        event: RolloutEvent,
        after: RolloutRun,
        action: RolloutAction,
        app: AppHandle,
        app_after: AppHandle,
    ) -> bool {
        &&& after.same_image(before)
        &&& match (before.phase, event) {
            (RolloutPhase::Pulling, RolloutEvent::Pulled { outcome: Ok(digest), now }) => {
                &&& after.phase matches RolloutPhase::Persisting { rollout }
                &&& rollout.tag@ == before.tag@
                &&& rollout.created_at == now
                &&& RolloutRun::recorded(app, app_after, rollout, before.repo@, digest@)
                &&& action == RolloutAction::PersistRollouts
            },
            (RolloutPhase::Pulling, RolloutEvent::Pulled { outcome: Err(e), now }) => {
                &&& after.phase matches RolloutPhase::Done { result: Err(error) }
                &&& match error {
                    RolloutError::ImageAuth(m) => e.is_auth && m@ == pull_failure(
                        before.image_ref@,
                        app.identity.name@,
                        e.reason@,
                    ),
                    RolloutError::ImagePull(m) => !e.is_auth && m@ == pull_failure(
                        before.image_ref@,
                        app.identity.name@,
                        e.reason@,
                    ),
                    _ => false,
                }
                &&& app_after == app
                &&& action == RolloutAction::Finish
            },
            (RolloutPhase::Persisting { rollout }, RolloutEvent::Persisted) => {
                &&& app_after == app
                &&& if app.inner.state is Running || app.inner.state is Frozen {
                    after.phase == (RolloutPhase::Stopping { rollout }) && action
                        == RolloutAction::StopApp
                } else {
                    after.phase == (RolloutPhase::Starting { rollout }) && action
                        == RolloutAction::StartApp
                }
            },
            (RolloutPhase::Stopping { rollout }, RolloutEvent::Stopped) => {
                &&& app_after == app
                &&& after.phase == (RolloutPhase::Starting { rollout })
                &&& action == RolloutAction::StartApp
            },
            (RolloutPhase::Starting { rollout }, RolloutEvent::Started(Ok(_))) => {
                &&& app_after == app
                &&& after.phase == (RolloutPhase::Done { result: Ok(rollout) })
                &&& action == RolloutAction::Finish
            },
            (RolloutPhase::Starting { rollout }, RolloutEvent::Started(Err(e))) => {
                &&& app_after == app
                &&& after.phase == (RolloutPhase::Done {
                    result: Err(RolloutError::StartFailed(e)),
                })
                &&& action == RolloutAction::Finish
            },
            _ => after == before && app_after == app && action == RolloutAction::Ignore,
        }
    }

    /// Take in what came of the last action and say what is next.
    pub fn step(self, h: &mut AppHandle, event: RolloutEvent) -> (r: (RolloutRun, RolloutAction))
        ensures
            RolloutRun::follows(self, event, r.0, r.1, *old(h), *final(h)),
            old(h).sound() ==> final(h).sound(),
    {
        let RolloutRun { tag, repo, image_ref, phase } = self;
        match (phase, event) {
            (RolloutPhase::Pulling, RolloutEvent::Pulled { outcome: Ok(digest), now }) => {
                let rollout = Rollout { tag: tag.clone(), created_at: now };
                h.inner.record_rollout(rollout.clone(), repo.clone(), digest);
                (
                    RolloutRun { tag, repo, image_ref, phase: RolloutPhase::Persisting { rollout } },
                    RolloutAction::PersistRollouts,
                )
            },
            (RolloutPhase::Pulling, RolloutEvent::Pulled { outcome: Err(e), now }) => {
                let error = classify_pull_error_for_rollout(
                    e.is_auth,
                    e.reason.as_str(),
                    h.identity.name.as_str(),
                    image_ref.as_str(),
                );
                (
                    RolloutRun {
                        tag,
                        repo,
                        image_ref,
                        phase: RolloutPhase::Done { result: Err(error) },
                    },
                    RolloutAction::Finish,
                )
            },
            (RolloutPhase::Persisting { rollout }, RolloutEvent::Persisted) => {
                if h.inner.state.is_running() || h.inner.state.is_frozen() {
                    (
                        RolloutRun {
                            tag,
                            repo,
                            image_ref,
                            phase: RolloutPhase::Stopping { rollout },
                        },
                        RolloutAction::StopApp,
                    )
                } else {
                    (
                        RolloutRun {
                            tag,
                            repo,
                            image_ref,
                            phase: RolloutPhase::Starting { rollout },
                        },
                        RolloutAction::StartApp,
                    )
                }
            },
            (RolloutPhase::Stopping { rollout }, RolloutEvent::Stopped) => (
                RolloutRun { tag, repo, image_ref, phase: RolloutPhase::Starting { rollout } },
                RolloutAction::StartApp,
            ),
            (RolloutPhase::Starting { rollout }, RolloutEvent::Started(Ok(_))) => (
                RolloutRun {
                    tag,
                    repo,
                    image_ref,
                    phase: RolloutPhase::Done { result: Ok(rollout) },
                },
                RolloutAction::Finish,
            ),
            (RolloutPhase::Starting { .. }, RolloutEvent::Started(Err(e))) => (
                RolloutRun {
                    tag,
                    repo,
                    image_ref,
                    phase: RolloutPhase::Done { result: Err(RolloutError::StartFailed(e)) },
                },
                RolloutAction::Finish,
            ),
            (phase, _) => (RolloutRun { tag, repo, image_ref, phase }, RolloutAction::Ignore),
        }
    }
}

/// The rollouts of an app, the oldest first.
pub fn list_rollouts(h: &AppHandle) -> (r: Vec<Rollout>)
    ensures
        r@ == h.inner.rollouts@,
{
    let mut out: Vec<Rollout> = Vec::new();
    let mut i: usize = 0;
    while i < h.inner.rollouts.len()
        invariant
            i <= h.inner.rollouts.len(),
            out@ == h.inner.rollouts@.take(i as int),
        decreases h.inner.rollouts.len() - i,
    {
        out.push(h.inner.rollouts[i].clone());
        proof {
            assert(out@ =~= h.inner.rollouts@.take(i + 1));
        }
        i = i + 1;
    }
    proof {
        assert(out@ =~= h.inner.rollouts@);
    }
    out
}

// ---- laws ------------------------------------------------------------------

/// A rollout whose pull fails leaves the app as it is: its history, its state,
/// and what it runs.
pub proof fn lemma_failed_pull_changes_nothing(
    before: RolloutRun,
    event: RolloutEvent,
    after: RolloutRun,
    action: RolloutAction,
    app: AppHandle,
    app_after: AppHandle,
)
    requires
        RolloutRun::follows(before, event, after, action, app, app_after),
        before.phase == RolloutPhase::Pulling,
        event matches RolloutEvent::Pulled { outcome, .. } && outcome is Err,
    ensures
        app_after == app,
        action == RolloutAction::Finish,
{
}

/// A pull that came through is recorded before anything is stopped or started:
/// the history ends with the new tag, and a start under the same repository
/// pulls the very image that was resolved.
pub proof fn lemma_rollout_is_recorded_first(
    before: RolloutRun,
    event: RolloutEvent,
    after: RolloutRun,
    action: RolloutAction,
    app: AppHandle,
    app_after: AppHandle,
)
    requires
        RolloutRun::follows(before, event, after, action, app, app_after),
        before.phase == RolloutPhase::Pulling,
        event matches RolloutEvent::Pulled { outcome, .. } && outcome is Ok,
    ensures
        app_after.inner.rollouts@.len() > 0,
        app_after.inner.rollouts@.last().tag@ == before.tag@,
        event matches RolloutEvent::Pulled { outcome: Ok(digest), .. }
            && app_after.inner.known_digest(before.repo@) == Some(digest@),
        action == RolloutAction::PersistRollouts,
{
    super::handle::lemma_history_is_bounded(
        app.inner.rollouts@,
        app_after.inner.rollouts@.last(),
    );
}

/// An app that has a container, running or frozen, gets a new one: what it has is
/// stopped before it is started, so that the start finds nothing to resume.
pub proof fn lemma_rollout_replaces_container(
    before: RolloutRun,
    event: RolloutEvent,
    after: RolloutRun,
    action: RolloutAction,
    app: AppHandle,
    app_after: AppHandle,
)
    requires
        RolloutRun::follows(before, event, after, action, app, app_after),
        before.phase is Persisting,
        event is Persisted,
    ensures
        app.inner.state is Running || app.inner.state is Frozen ==> action
            == RolloutAction::StopApp,
        action == RolloutAction::StartApp ==> !(HandleInner::claim_of(
            app.inner.state,
        ).1 matches StartClaim::Claimed { resume_from: Some(_) }) && !(HandleInner::claim_of(
            app.inner.state,
        ).1 is Ready),
{
}

/// A rollout of which everything goes well: the image is recorded as the newest
/// and written down, what ran is stopped, the app is started, and the rollout is
/// the result. An app that did not run is started right away.
pub proof fn lemma_rollout_goes_well(
    runs: Seq<RolloutRun>,
    actions: Seq<RolloutAction>,
    apps: Seq<AppHandle>,
    digest: String,
    now: String,
    ip: u32,
)
    requires
        runs.len() == 5,
        actions.len() == 4,
        apps.len() == 5,
        runs[0].phase is Pulling,
        RolloutRun::follows(
            runs[0],
            RolloutEvent::Pulled { outcome: Ok(digest), now },
            runs[1],
            actions[0],
            apps[0],
            apps[1],
        ),
        RolloutRun::follows(
            runs[1],
            RolloutEvent::Persisted,
            runs[2],
            actions[1],
            apps[1],
            apps[2],
        ),
        RolloutRun::follows(runs[2], RolloutEvent::Stopped, runs[3], actions[2], apps[2], apps[3]),
        RolloutRun::follows(
            runs[3],
            RolloutEvent::Started(Ok(ip)),
            runs[4],
            actions[3],
            apps[3],
            apps[4],
        ),
    ensures
        actions[0] is PersistRollouts,
        apps[1].inner.rollouts@.len() > 0,
        apps[1].inner.rollouts@[apps[1].inner.rollouts@.len() - 1].tag@ == runs[0].tag@,
        apps[1].inner.rollouts@[apps[1].inner.rollouts@.len() - 1].created_at == now,
        apps[1].inner.known_digest(runs[0].repo@) == Some(digest@),
        apps[1].inner.state == apps[0].inner.state,
        apps[1].spec == apps[0].spec,
        apps[0].inner.state is Running || apps[0].inner.state is Frozen ==> actions[1] is StopApp
            && actions[2] is StartApp,
        !(apps[0].inner.state is Running) && !(apps[0].inner.state is Frozen) ==> actions[1]
            is StartApp && actions[2] is Ignore,
        actions[3] is Finish,
        runs[4].phase matches RolloutPhase::Done { result } && result is Ok && result->Ok_0.tag@
            == runs[0].tag@ && result->Ok_0.created_at == now,
{
    let rollout = runs[1].phase->Persisting_rollout;
    super::handle::lemma_with_rollout(apps[0].inner.rollouts@, rollout);
}

/// A rollout that fails says why: a pull with what it was about, by whether the
/// registry refused; a start with the reason as it was given.
pub proof fn lemma_rollout_fails(
    before: RolloutRun,
    event: RolloutEvent,
    after: RolloutRun,
    action: RolloutAction,
    app: AppHandle,
    app_after: AppHandle,
)
    requires
        RolloutRun::follows(before, event, after, action, app, app_after),
    ensures
        before.phase is Pulling ==> (event matches RolloutEvent::Pulled { outcome: Err(e), .. }
            ==> action is Finish && match after.phase {
            RolloutPhase::Done { result: Err(RolloutError::ImageAuth(m)) } => e.is_auth && m@
                == pull_failure(before.image_ref@, app.identity.name@, e.reason@),
            RolloutPhase::Done { result: Err(RolloutError::ImagePull(m)) } => !e.is_auth && m@
                == pull_failure(before.image_ref@, app.identity.name@, e.reason@),
            _ => false,
        }),
        before.phase is Starting ==> (event matches RolloutEvent::Started(Err(e)) ==> action
            is Finish && after.phase == (RolloutPhase::Done {
            result: Err(RolloutError::StartFailed(e)),
        })),
{
}

/// An event that a rollout does not wait for changes nothing. Only a pull that
/// went well touches the app at all.
pub proof fn lemma_rollout_waits_for(
    before: RolloutRun,
    event: RolloutEvent,
    after: RolloutRun,
    action: RolloutAction,
    app: AppHandle,
    app_after: AppHandle,
)
    requires
        RolloutRun::follows(before, event, after, action, app, app_after),
    ensures
        ({
            let waited = match before.phase {
                RolloutPhase::Pulling => event is Pulled,
                RolloutPhase::Persisting { .. } => event is Persisted,
                RolloutPhase::Stopping { .. } => event is Stopped,
                RolloutPhase::Starting { .. } => event is Started,
                RolloutPhase::Done { .. } => false,
            };
            &&& waited ==> !(action is Ignore)
            &&& !waited ==> action is Ignore && after == before
        }),
        app_after != app ==> before.phase is Pulling && (event matches RolloutEvent::Pulled {
            outcome: Ok(_),
            ..
        }),
        app_after.identity == app.identity,
        app_after.spec == app.spec,
        app_after.active_upgrades == app.active_upgrades,
        app_after.inner.state == app.inner.state,
        app_after.inner.current_slot == app.inner.current_slot,
        app_after.inner.last_access == app.inner.last_access,
        app_after.inner.cpu_baseline == app.inner.cpu_baseline,
        after.tag == before.tag,
        after.repo == before.repo,
        after.image_ref == before.image_ref,
{
}

} // verus!
