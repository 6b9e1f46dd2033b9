//! Replacing the spec of an app.
//!
//! Name and subdomain of an app never change; a new spec may leave its name out.
//! It is taken over and written down; an app that runs is then restarted under
//! it.

use vstd::prelude::*;
use vstd::string::StringExecFns;

use super::error::UpdateError;
use super::handle::AppHandle;
use crate::config::spec::AppSpec;
use crate::text::same_str;

verus! {

/// How far an update has got.
#[derive(Debug)]
pub enum UpdatePhase {
    /// The new spec is being written down; the app ran, or did not.
    Persisting { was_running: bool },
    Stopping,
    Starting,
    Done { result: Result<(), UpdateError> },
}

/// What to do next.
#[derive(Debug, Clone, Copy, PartialEq, Eq, Structural)]
pub enum UpdateAction {
    PersistSpec,
    StopApp,
    StartApp,
    /// The update is over.
    Finish,
    /// The event was not waited for; nothing has changed.
    Ignore,
}

/// What came of it.
#[derive(Debug)]
pub enum UpdateEvent {
    Persisted(Result<(), String>),
    Stopped(Result<(), String>),
    Started(Result<u32, String>),
}

/// The texts are those of equal specs. A spec that could not be written as text
/// is equal to none.
pub open spec fn reads_the_same(a: Option<String>, b: Option<String>) -> bool {
    a is Some && b is Some && a->0@ == b->0@
}

/// What a request to replace a spec is answered if nothing is to be done for it:
/// a refusal, or `Ok` where nothing would change. `None` means that it is taken
/// over.
pub open spec fn turned_away(
    h: AppHandle,
    new_spec: AppSpec,
    same: bool,
    answer: Result<(), UpdateError>,
) -> bool {
    if new_spec.fault() is Some {
        answer matches Err(UpdateError::InvalidSpec(e)) && new_spec.fault() == Some(e@)
    } else if new_spec.names_another(h.identity.name@) {
        answer matches Err(UpdateError::NameImmutable)
    } else if new_spec.subdomain_text() != h.identity.subdomain@ {
        answer matches Err(UpdateError::SubdomainImmutable)
    } else if h.inner.state.busy() {
        answer matches Err(UpdateError::Conflict(n)) && n@ == h.identity.name@
    } else {
        same && answer is Ok
    }
}

/// The new spec is taken over.
pub open spec fn accepted(h: AppHandle, new_spec: AppSpec, same: bool) -> bool {
    &&& new_spec.fault() is None
    &&& !new_spec.names_another(h.identity.name@)
    &&& new_spec.subdomain_text() == h.identity.subdomain@
    &&& !h.inner.state.busy()
    &&& !same
}

/// Begin to replace the spec of an app. `existing_text` and `new_text` are how
/// the two specs are written down, where they can be. A request that is refused,
/// or that changes nothing, leaves the app as it is.
pub fn begin_update(
    h: &mut AppHandle,
    new_spec: AppSpec,
    existing_text: Option<String>,
    new_text: Option<String>,
) -> (r: (UpdatePhase, UpdateAction))
    ensures
        match r.0 {
            UpdatePhase::Done { result } => {
                &&& turned_away(
                    *old(h),
                    new_spec,
                    reads_the_same(existing_text, new_text),
                    result,
                )
                &&& *final(h) == *old(h)
                &&& r.1 == UpdateAction::Finish
            },
            UpdatePhase::Persisting { was_running } => {
                &&& accepted(*old(h), new_spec, reads_the_same(existing_text, new_text))
                &&& *final(h) == (AppHandle { spec: new_spec, ..*old(h) })
                &&& was_running == (old(h).inner.state is Running)
                &&& r.1 == UpdateAction::PersistSpec
            },
            _ => false,
        },
        old(h).sound() ==> final(h).sound(),
{
    match new_spec.validate() {
        Ok(_) => {},
        Err(e) => {
            return (
                UpdatePhase::Done { result: Err(UpdateError::InvalidSpec(e)) },
                UpdateAction::Finish,
            );
        },
    }
    if new_spec.gives_another_name(h.identity.name.as_str()) {
        return (
            UpdatePhase::Done { result: Err(UpdateError::NameImmutable) },
            UpdateAction::Finish,
        );
    }
    let subdomain = new_spec.subdomain();
    if !same_str(subdomain.as_str(), h.identity.subdomain.as_str()) {
        return (
            UpdatePhase::Done { result: Err(UpdateError::SubdomainImmutable) },
            UpdateAction::Finish,
        );
    }
    if h.inner.state.is_busy() {
        let e = UpdateError::Conflict(h.identity.name.clone());
        return (UpdatePhase::Done { result: Err(e) }, UpdateAction::Finish);
    }
    let same = match (&existing_text, &new_text) {
        (Some(a), Some(b)) => same_str(a.as_str(), b.as_str()),
        _ => false,
    };
    if same {
        return (UpdatePhase::Done { result: Ok(()) }, UpdateAction::Finish);
    }
    let was_running = h.inner.state.is_running();
    h.spec = new_spec;
    (UpdatePhase::Persisting { was_running }, UpdateAction::PersistSpec)
}

fn prefixed(a: &str, b: &str) -> (r: String)
    ensures
        r@ == a@ + b@,
{
    let mut r = String::from_str(a);
    r.append(b);
    r
}

/// What follows from an event: the next phase and the next action.
pub open spec fn update_follows(
    before: UpdatePhase,
    event: UpdateEvent,
    after: UpdatePhase,
    action: UpdateAction,
) -> bool {
    match (before, event) {
        (UpdatePhase::Persisting { .. }, UpdateEvent::Persisted(Err(e))) => {
            &&& after matches UpdatePhase::Done { result: Err(UpdateError::Internal(m)) } && m@
                == e@
            &&& action == UpdateAction::Finish
        },
        (UpdatePhase::Persisting { was_running }, UpdateEvent::Persisted(Ok(_))) => if was_running {
            after == UpdatePhase::Stopping && action == UpdateAction::StopApp
        } else {
            after == (UpdatePhase::Done { result: Ok(()) }) && action == UpdateAction::Finish
        },
        (UpdatePhase::Stopping, UpdateEvent::Stopped(Ok(_))) => {
            after == UpdatePhase::Starting && action == UpdateAction::StartApp
        },
        (UpdatePhase::Stopping, UpdateEvent::Stopped(Err(e))) => {
            &&& after matches UpdatePhase::Done { result: Err(UpdateError::RestartFailed(m)) } && m@
                == "stop before reconfigure: "@ + e@
            &&& action == UpdateAction::Finish
        },
        (UpdatePhase::Starting, UpdateEvent::Started(Ok(_))) => {
            after == (UpdatePhase::Done { result: Ok(()) }) && action == UpdateAction::Finish
        },
        (UpdatePhase::Starting, UpdateEvent::Started(Err(e))) => {
            &&& after matches UpdatePhase::Done { result: Err(UpdateError::RestartFailed(m)) } && m@
                == "restart after reconfigure: "@ + e@
            &&& action == UpdateAction::Finish
        },
        _ => after == before && action == UpdateAction::Ignore,
    }
}

/// Take in what came of the last action and say what is next.
pub fn update_step(phase: UpdatePhase, event: UpdateEvent) -> (r: (UpdatePhase, UpdateAction))
    ensures
        update_follows(phase, event, r.0, r.1),
{
    match (phase, event) {
        (UpdatePhase::Persisting { .. }, UpdateEvent::Persisted(Err(e))) => (
            UpdatePhase::Done { result: Err(UpdateError::Internal(e)) },
            UpdateAction::Finish,
        ),
        (UpdatePhase::Persisting { was_running }, UpdateEvent::Persisted(Ok(_))) => if was_running {
            (UpdatePhase::Stopping, UpdateAction::StopApp)
        } else {
            (UpdatePhase::Done { result: Ok(()) }, UpdateAction::Finish)
        },
        (UpdatePhase::Stopping, UpdateEvent::Stopped(Ok(_))) => (
            UpdatePhase::Starting,
            UpdateAction::StartApp,
        ),
        (UpdatePhase::Stopping, UpdateEvent::Stopped(Err(e))) => {
            let m = prefixed("stop before reconfigure: ", e.as_str());
            (UpdatePhase::Done { result: Err(UpdateError::RestartFailed(m)) }, UpdateAction::Finish)
        },
        (UpdatePhase::Starting, UpdateEvent::Started(Ok(_))) => (
            UpdatePhase::Done { result: Ok(()) },
            UpdateAction::Finish,
        ),
        (UpdatePhase::Starting, UpdateEvent::Started(Err(e))) => {
            let m = prefixed("restart after reconfigure: ", e.as_str());
            (UpdatePhase::Done { result: Err(UpdateError::RestartFailed(m)) }, UpdateAction::Finish)
        },
        (phase, _) => (phase, UpdateAction::Ignore),
    }
}

// ---- laws ------------------------------------------------------------------

/// No request is both answered at once and taken over. One that is granted at
/// once would change nothing.
pub proof fn lemma_update_is_decided(
    h: AppHandle,
    new_spec: AppSpec,
    same: bool,
    answer: Result<(), UpdateError>,
)
    ensures
        accepted(h, new_spec, same) ==> !turned_away(h, new_spec, same, answer),
        turned_away(h, new_spec, same, answer) && answer is Ok ==> same,
{
}

/// Whatever spec is taken over, an app keeps its name, its subdomain, its state
/// and its history of rollouts.
pub proof fn lemma_update_keeps_identity(h: AppHandle, new_spec: AppSpec, same: bool)
    requires
        accepted(h, new_spec, same),
    ensures
        (AppHandle { spec: new_spec, ..h }).identity == h.identity,
        (AppHandle { spec: new_spec, ..h }).inner == h.inner,
        !new_spec.names_another(h.identity.name@),
        new_spec.subdomain_text() == h.identity.subdomain@,
{
}

/// An app is stopped for an update only if it ran and its new spec is written
/// down, and it is started again only after it was stopped.
pub proof fn lemma_restart_in_order(
    before: UpdatePhase,
    event: UpdateEvent,
    after: UpdatePhase,
    action: UpdateAction,
)
    requires
        update_follows(before, event, after, action),
    ensures
        action == UpdateAction::StopApp ==> before == (UpdatePhase::Persisting {
            was_running: true,
        }) && (event matches UpdateEvent::Persisted(Ok(_))),
        action == UpdateAction::StartApp ==> before == UpdatePhase::Stopping && (
        event matches UpdateEvent::Stopped(Ok(_))),
{
}

/// A request to replace a spec is refused for a spec that does not pass, for one
/// that names another app or another subdomain, and while the app is between two
/// states, in this order; it is granted at once where nothing would change; and
/// every other request is taken over.
pub proof fn lemma_update_answers(
    h: AppHandle,
    new_spec: AppSpec,
    same: bool,
    answer: Result<(), UpdateError>,
)
    ensures
        ({
            let other_name = new_spec.name is Some && new_spec.name->0@ != h.identity.name@;
            let other_place = new_spec.subdomain_text() != h.identity.subdomain@;
            let between = h.inner.state is Starting || h.inner.state is Stopping;
            &&& accepted(h, new_spec, same) <==> new_spec.fault() is None && !other_name
                && !other_place && !between && !same
            &&& turned_away(h, new_spec, same, answer) ==> {
                &&& answer is Ok <==> new_spec.fault() is None && !other_name && !other_place
                    && !between && same
                &&& new_spec.fault() is Some <==> (answer is Err && answer->Err_0 is InvalidSpec)
                &&& new_spec.fault() matches Some(f) ==> answer->Err_0->InvalidSpec_0@ == f
                &&& new_spec.fault() is None && other_name <==> (answer is Err
                    && answer->Err_0 is NameImmutable)
                &&& new_spec.fault() is None && !other_name && other_place <==> (answer is Err
                    && answer->Err_0 is SubdomainImmutable)
                &&& new_spec.fault() is None && !other_name && !other_place && between <==> (
                answer is Err && answer->Err_0 is Conflict)
                &&& answer is Err && answer->Err_0 is Conflict ==> answer->Err_0->Conflict_0@
                    == h.identity.name@
            }
        }),
{
}

/// Specs count as equal where both could be written as text and the texts are
/// equal.
pub proof fn lemma_reads_the_same(a: Option<String>, b: Option<String>)
    ensures
        reads_the_same(a, b) ==> a is Some && b is Some && a->0@ == b->0@,
        a is None || b is None ==> !reads_the_same(a, b),
        a is Some && b is Some && a->0@ == b->0@ ==> reads_the_same(a, b),
{
}

/// How an update goes on: once the spec is written down, an app that ran is
/// stopped and started again, and one that did not run is left alone. A failure
/// ends it and is told, with what was being done.
pub proof fn lemma_update_goes_on(
    before: UpdatePhase,
    event: UpdateEvent,
    after: UpdatePhase,
    action: UpdateAction,
)
    requires
        update_follows(before, event, after, action),
    ensures
        before matches UpdatePhase::Persisting { was_running } ==> (event matches
            UpdateEvent::Persisted(Ok(_)) ==> if was_running {
            after is Stopping && action == UpdateAction::StopApp
        } else {
            after == (UpdatePhase::Done { result: Ok(()) }) && action == UpdateAction::Finish
        }),
        before is Persisting ==> (event matches UpdateEvent::Persisted(Err(e)) ==> action
            == UpdateAction::Finish && (after matches UpdatePhase::Done { result: Err(x) } && x
            is Internal && x->Internal_0@ == e@)),
        before is Stopping ==> (event matches UpdateEvent::Stopped(Ok(_)) ==> after is Starting
            && action == UpdateAction::StartApp),
        before is Stopping ==> (event matches UpdateEvent::Stopped(Err(e)) ==> action
            == UpdateAction::Finish && (after matches UpdatePhase::Done { result: Err(x) } && x
            is RestartFailed && x->RestartFailed_0@ == "stop before reconfigure: "@ + e@)),
        before is Starting ==> (event matches UpdateEvent::Started(Ok(_)) ==> action
            == UpdateAction::Finish && after == (UpdatePhase::Done { result: Ok(()) })),
        before is Starting ==> (event matches UpdateEvent::Started(Err(e)) ==> action
            == UpdateAction::Finish && (after matches UpdatePhase::Done { result: Err(x) } && x
            is RestartFailed && x->RestartFailed_0@ == "restart after reconfigure: "@ + e@)),
        before is Done ==> after == before && action == UpdateAction::Ignore,
        action == UpdateAction::Ignore ==> after == before,
        before is Persisting && !(event is Persisted) ==> action == UpdateAction::Ignore,
        before is Stopping && !(event is Stopped) ==> action == UpdateAction::Ignore,
        before is Starting && !(event is Started) ==> action == UpdateAction::Ignore,
{
}

} // verus!
