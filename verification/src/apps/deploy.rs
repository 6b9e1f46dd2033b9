//! Registering and removing apps.

use vstd::prelude::*;

use super::error::DeployError;
use super::registry::{InsertCollision, Registry};
use crate::config::spec::{AppIdentity, AppSpec};

verus! {

/// What is told of two apps that cannot stand beside each other.
pub open spec fn tells_of(e: DeployError, collision: InsertCollision, id: AppIdentity) -> bool {
    match collision {
        InsertCollision::NameTaken => e matches DeployError::AlreadyExists(n) && n@ == id.name@,
        InsertCollision::SubdomainTaken => e matches DeployError::SubdomainTaken(s) && s@
            == id.subdomain@,
    }
}

pub fn collision_error(collision: InsertCollision, id: &AppIdentity) -> (r: DeployError)
    ensures
        tells_of(r, collision, *id),
{
    match collision {
        InsertCollision::NameTaken => DeployError::AlreadyExists(id.name.clone()),
        InsertCollision::SubdomainTaken => DeployError::SubdomainTaken(id.subdomain.clone()),
    }
}

/// An app can be registered: its spec names it and passes validation, and
/// neither its name nor its subdomain is taken.
pub open spec fn may_deploy<V>(registry: Registry<V>, spec: AppSpec) -> bool {
    &&& spec.name is Some
    &&& spec.fault() is None
    &&& registry.collision(spec.name_text(), spec.subdomain_text()) is None
}

/// Decide on a request to register an app, before anything is written. The
/// outcome is the identity of the app, or the first thing that stands against
/// it.
pub fn check_deploy<V>(registry: &Registry<V>, spec: &AppSpec) -> (r: Result<
    AppIdentity,
    DeployError,
>)
    requires
        registry.wf(),
    ensures
        match r {
            Ok(id) => {
                &&& may_deploy(*registry, *spec)
                &&& id.name@ == spec.name_text()
                &&& id.subdomain@ == spec.subdomain_text()
            },
            Err(DeployError::MissingName) => spec.name is None,
            Err(DeployError::InvalidSpec(e)) => spec.name is Some && spec.fault() == Some(e@),
            Err(DeployError::AlreadyExists(n)) => {
                &&& spec.name is Some && spec.fault() is None
                &&& registry.named(spec.name_text()) is Some
                &&& n@ == spec.name_text()
            },
            Err(DeployError::SubdomainTaken(s)) => {
                &&& spec.name is Some && spec.fault() is None
                &&& registry.named(spec.name_text()) is None
                &&& registry.at_subdomain(spec.subdomain_text()) is Some
                &&& s@ == spec.subdomain_text()
            },
            Err(_) => false,
        },
{
    if spec.name.is_none() {
        return Err(DeployError::MissingName);
    }
    let id = match spec.identity() {
        Ok(id) => id,
        Err(e) => {
            return Err(DeployError::InvalidSpec(e));
        },
    };
    match registry.would_collide(id.name.as_str(), id.subdomain.as_str()) {
        Some(c) => Err(collision_error(c, &id)),
        None => Ok(id),
    }
}

/// How far the registration of an app has got.
#[derive(Debug)]
pub enum DeployPhase {
    /// The spec is being written down.
    Persisting,
    /// The app is being entered.
    Registering,
    /// Another app was faster; the spec that was written down is being dropped.
    Discarding { error: DeployError },
    Done { result: Result<(), DeployError> },
}

/// What to do next.
#[derive(Debug, Clone, Copy, PartialEq, Eq, Structural)]
pub enum DeployAction {
    PersistSpec,
    Register,
    DiscardSpec,
    /// The registration is over.
    Finish,
    /// The event was not waited for; nothing has changed.
    Ignore,
}

/// What came of it.
#[derive(Debug)]
pub enum DeployEvent {
    Persisted(Result<(), String>),
    Registered(Result<(), InsertCollision>),
    Discarded,
}

/// Begin to register an app that nothing stands against, as far as can be seen
/// beforehand.
pub fn begin_deploy() -> (r: (DeployPhase, DeployAction))
    ensures
        r == (DeployPhase::Persisting, DeployAction::PersistSpec),
{
    (DeployPhase::Persisting, DeployAction::PersistSpec)
}

/// How a registration goes on.
pub open spec fn deploy_follows(
    id: AppIdentity,
    before: DeployPhase,
    event: DeployEvent,
    after: DeployPhase,
    action: DeployAction,
) -> bool {
    match (before, event) {
        (DeployPhase::Persisting, DeployEvent::Persisted(Ok(_))) => {
            after == DeployPhase::Registering && action == DeployAction::Register
        },
        (DeployPhase::Persisting, DeployEvent::Persisted(Err(e))) => {
            &&& after == (DeployPhase::Done { result: Err(DeployError::Internal(e)) })
            &&& action == DeployAction::Finish
        },
        (DeployPhase::Registering, DeployEvent::Registered(Ok(_))) => {
            after == (DeployPhase::Done { result: Ok(()) }) && action == DeployAction::Finish
        },
        (DeployPhase::Registering, DeployEvent::Registered(Err(c))) => {
            &&& after matches DeployPhase::Discarding { error } && tells_of(error, c, id)
            &&& action == DeployAction::DiscardSpec
        },
        (DeployPhase::Discarding { error }, DeployEvent::Discarded) => {
            after == (DeployPhase::Done { result: Err(error) }) && action == DeployAction::Finish
        },
        _ => after == before && action == DeployAction::Ignore,
    }
}

/// Take in what came of the last action and say what is next.
pub fn deploy_step(id: &AppIdentity, phase: DeployPhase, event: DeployEvent) -> (r: (
    DeployPhase,
    DeployAction,
))
    ensures
        deploy_follows(*id, phase, event, r.0, r.1),
{
    match (phase, event) {
        (DeployPhase::Persisting, DeployEvent::Persisted(Ok(_))) => (
            DeployPhase::Registering,
            DeployAction::Register,
        ),
        (DeployPhase::Persisting, DeployEvent::Persisted(Err(e))) => (
            DeployPhase::Done { result: Err(DeployError::Internal(e)) },
            DeployAction::Finish,
        ),
        (DeployPhase::Registering, DeployEvent::Registered(Ok(_))) => (
            DeployPhase::Done { result: Ok(()) },
            DeployAction::Finish,
        ),
        (DeployPhase::Registering, DeployEvent::Registered(Err(c))) => (
            DeployPhase::Discarding { error: collision_error(c, id) },
            DeployAction::DiscardSpec,
        ),
        (DeployPhase::Discarding { error }, DeployEvent::Discarded) => (
            DeployPhase::Done { result: Err(error) },
            DeployAction::Finish,
        ),
        (phase, _) => (phase, DeployAction::Ignore),
    }
}

/// What is done to remove an app, in this order. A step that fails does not keep
/// the others from being done.
#[derive(Debug, Clone, Copy, PartialEq, Eq, Structural)]
pub enum RemoveStep {
    /// The app is no longer found by name or subdomain.
    Unregister,
    /// Its container, if there is one, is stopped and its endpoint released.
    Stop,
    /// What its container left on disk goes, volumes included.
    CleanUpContainer,
    DeleteSpecFile,
    DeleteRolloutsFile,
    Finished,
}

impl RemoveStep {
    /// How many steps are left.
    pub open spec fn left(self) -> nat {
        match self {
            RemoveStep::Unregister => 5,
            RemoveStep::Stop => 4,
            RemoveStep::CleanUpContainer => 3,
            RemoveStep::DeleteSpecFile => 2,
            RemoveStep::DeleteRolloutsFile => 1,
            RemoveStep::Finished => 0,
        }
    }

    /// What is done after this step.
    pub fn next(self) -> (r: RemoveStep)
        ensures
            self.left() > 0 ==> r.left() == self.left() - 1,
            self.left() == 0 ==> r == self,
    {
        match self {
            RemoveStep::Unregister => RemoveStep::Stop,
            RemoveStep::Stop => RemoveStep::CleanUpContainer,
            RemoveStep::CleanUpContainer => RemoveStep::DeleteSpecFile,
            RemoveStep::DeleteSpecFile => RemoveStep::DeleteRolloutsFile,
            RemoveStep::DeleteRolloutsFile => RemoveStep::Finished,
            RemoveStep::Finished => RemoveStep::Finished,
        }
    }
}

// ---- laws ------------------------------------------------------------------

/// An app is entered only after its spec was written down. A spec that was
/// written down is dropped again exactly where another app was faster, and only
/// then is the collision told.
pub proof fn lemma_deploy_in_order(
    id: AppIdentity,
    before: DeployPhase,
    event: DeployEvent,
    after: DeployPhase,
    action: DeployAction,
)
    requires
        deploy_follows(id, before, event, after, action),
    ensures
        action == DeployAction::Register ==> before is Persisting && (
        event matches DeployEvent::Persisted(Ok(_))),
        action == DeployAction::DiscardSpec <==> before is Registering && (
        event matches DeployEvent::Registered(Err(_))),
        before is Discarding && action == DeployAction::Finish ==> event is Discarded,
        before is Registering ==> !(after matches DeployPhase::Done { result: Err(_) }),
{
}

/// A collision is told with what is taken.
pub proof fn lemma_tells_of(e: DeployError, collision: InsertCollision, id: AppIdentity)
    requires
        tells_of(e, collision, id),
    ensures
        collision is NameTaken ==> e is AlreadyExists && e->AlreadyExists_0@ == id.name@,
        collision is SubdomainTaken ==> e is SubdomainTaken && e->SubdomainTaken_0@
            == id.subdomain@,
{
}

/// An app can be registered exactly if its spec gives a name and passes, and no
/// app has that name or that subdomain.
pub proof fn lemma_may_deploy<V>(registry: Registry<V>, spec: AppSpec)
    ensures
        may_deploy(registry, spec) <==> spec.name is Some && spec.fault() is None
            && registry.named(spec.name_text()) is None && registry.at_subdomain(
            spec.subdomain_text(),
        ) is None,
{
}

/// How a registration goes on: what was written down is entered; what could not
/// be written down is an internal failure; what another app was faster with is
/// dropped again and then told.
pub proof fn lemma_deploy_goes_on(
    id: AppIdentity,
    before: DeployPhase,
    event: DeployEvent,
    after: DeployPhase,
    action: DeployAction,
)
    requires
        deploy_follows(id, before, event, after, action),
    ensures
        before is Persisting ==> (event matches DeployEvent::Persisted(Ok(_)) ==> after
            is Registering && action == DeployAction::Register),
        before is Persisting ==> (event matches DeployEvent::Persisted(Err(e)) ==> after == (
        DeployPhase::Done { result: Err(DeployError::Internal(e)) }) && action
            == DeployAction::Finish),
        before is Registering ==> (event matches DeployEvent::Registered(Ok(_)) ==> after == (
        DeployPhase::Done { result: Ok(()) }) && action == DeployAction::Finish),
        before is Registering ==> (event matches DeployEvent::Registered(Err(c)) ==> action
            == DeployAction::DiscardSpec && after is Discarding && tells_of(
            after->Discarding_error,
            c,
            id,
        )),
        before matches DeployPhase::Discarding { error } ==> event is Discarded ==> after == (
        DeployPhase::Done { result: Err(error) }) && action == DeployAction::Finish,
        before is Done ==> after == before && action == DeployAction::Ignore,
        action == DeployAction::Ignore ==> after == before,
        before is Persisting && !(event is Persisted) ==> action == DeployAction::Ignore,
        before is Registering && !(event is Registered) ==> action == DeployAction::Ignore,
        before is Discarding && !(event is Discarded) ==> action == DeployAction::Ignore,
{
}

/// An app is removed in this order: it is no longer found, then it is stopped,
/// then what its container left goes, then its spec, then its history.
pub proof fn lemma_remove_order()
    ensures
        RemoveStep::Unregister.left() == 5,
        RemoveStep::Stop.left() == 4,
        RemoveStep::CleanUpContainer.left() == 3,
        RemoveStep::DeleteSpecFile.left() == 2,
        RemoveStep::DeleteRolloutsFile.left() == 1,
        RemoveStep::Finished.left() == 0,
{
}

} // verus!
