//! Bringing an app up from scratch, step by step.
//!
//! An endpoint is allocated, the image pulled, the container started and the
//! app waited for. Each step is somebody else's work; here is decided what the
//! next one is, and what has to be undone where one fails.

use vstd::prelude::*;
use vstd::string::StringExecFns;

use super::handle::{AppHandle, HandleInner};
use crate::text::{chars_of, has_char};

verus! {

/// An image reference with the digest that its tag is known to stand for. One
/// that names a digest itself stays as it is.
pub open spec fn pinned_ref(image: Seq<char>, digest: Option<Seq<char>>) -> Seq<char> {
    match digest {
        Some(d) => if image.contains('@') {
            image
        } else {
            image + "@"@ + d
        },
        None => image,
    }
}

pub fn digest_pinned_ref(image: &str, digest: Option<&str>) -> (r: String)
    ensures
        r@ == pinned_ref(
            image@,
            match digest {
                Some(d) => Some(d@),
                None => None,
            },
        ),
{
    match digest {
        Some(d) => {
            if has_char(&chars_of(image), '@') {
                return image.to_owned();
            }
            let mut r = String::from_str(image);
            r.append("@");
            r.append(d);
            r
        },
        None => image.to_owned(),
    }
}

/// Pinning a reference twice is pinning it once.
pub proof fn lemma_pinned_once(image: Seq<char>, d: Seq<char>, e: Seq<char>)
    ensures
        pinned_ref(pinned_ref(image, Some(d)), Some(e)) == pinned_ref(image, Some(d)),
{
    reveal_strlit("@");
    let once = pinned_ref(image, Some(d));
    if !image.contains('@') {
        assert(once[image.len() as int] == '@');
    }
}

/// The image of an app: its repository and the tag of its current rollout.
pub open spec fn image_text(h: AppHandle) -> Seq<char> {
    h.spec.repo@ + ":"@ + h.inner.rollouts@.last().tag@
}

/// The image that an app runs. Without a rollout there is none.
pub fn resolve_image_ref(h: &AppHandle) -> (r: Result<String, String>)
    ensures
        match r {
            Ok(i) => h.inner.rollouts@.len() > 0 && i@ == image_text(*h),
            Err(e) => h.inner.rollouts@.len() == 0 && e@ == "app '"@ + h.identity.name@
                + "' has no rollout; POST a rollout first"@,
        },
{
    match h.inner.current_rollout() {
        Some(x) => {
            let mut r = String::from_str(h.spec.repo.as_str());
            r.append(":");
            r.append(x.tag.as_str());
            Ok(r)
        },
        None => {
            let mut e = String::from_str("app '");
            e.append(h.identity.name.as_str());
            e.append("' has no rollout; POST a rollout first");
            Err(e)
        },
    }
}

/// How far a start has got.
#[derive(Debug)]
pub enum StartPhase {
    Allocating,
    Pulling { ip: u32 },
    Launching { ip: u32 },
    Probing { ip: u32 },
    /// The app did not become ready; its container is being stopped.
    TakingDown { error: String },
    /// The start has failed; its endpoint is being released.
    Releasing { error: String },
    Done { result: Result<u32, String> },
}

/// What to do next.
#[derive(Debug)]
pub enum StartAction {
    AllocateEndpoint,
    PullImage { image_ref: String },
    /// Run the image that was pulled, by its digest.
    StartContainer { image_id: String },
    WaitForReady,
    StopContainer,
    ReleaseEndpoint,
    /// The start is over.
    Finish,
    /// The event was not waited for; nothing has changed.
    Ignore,
}

/// What came of it. A failure to stop or to release does not change anything
/// and is not told.
#[derive(Debug)]
pub enum StartEvent {
    Allocated(Result<u32, String>),
    /// The digest of the image.
    Pulled(Result<String, String>),
    Started(Result<(), String>),
    Ready(Result<(), String>),
    Stopped,
    Released,
}

/// A start of an app.
#[derive(Debug)]
pub struct ColdStart {
    pub name: String,
    pub repo: String,
    /// The image without a digest.
    pub image_ref: String,
    pub phase: StartPhase,
}

/// A message and what it is about.
pub open spec fn about(context: Seq<char>, name: Seq<char>, e: Seq<char>) -> Seq<char> {
    context + name + ": "@ + e
}

fn tell(context: &str, name: &str, e: &str) -> (r: String)
    ensures
        r@ == about(context@, name@, e@),
{
    let mut r = String::from_str(context);
    r.append(name);
    r.append(": ");
    r.append(e);
    r
}

impl ColdStart {
    /// Begin to start an app. Without a rollout there is nothing to start.
    pub fn begin(h: &AppHandle) -> (r: Result<(ColdStart, StartAction), String>)
        ensures
            match r {
                Ok((s, a)) => {
                    &&& h.inner.rollouts@.len() > 0
                    &&& s.name@ == h.identity.name@
                    &&& s.repo@ == h.spec.repo@
                    &&& s.image_ref@ == image_text(*h)
                    &&& s.phase == StartPhase::Allocating
                    &&& a == StartAction::AllocateEndpoint
                },
                Err(e) => h.inner.rollouts@.len() == 0 && e@ == "app '"@ + h.identity.name@
                    + "' has no rollout; POST a rollout first"@,
            },
    {
        let image_ref = match resolve_image_ref(h) {
            Ok(i) => i,
            Err(e) => {
                return Err(e);
            },
        };
        Ok(
            (
                ColdStart {
                    name: h.identity.name.clone(),
                    repo: h.spec.repo.clone(),
                    image_ref,
                    phase: StartPhase::Allocating,
                },
                StartAction::AllocateEndpoint,
            ),
        )
    }

    /// The start is still of the same image of the same app.
    pub open spec fn same_app(self, other: ColdStart) -> bool {
        self.name == other.name && self.repo == other.repo && self.image_ref == other.image_ref
    }

    /// What follows from an event: the next phase and the next action. `digest`
    /// is what the image is known to resolve to.
    pub open spec fn follows(
        before: ColdStart,
        digest: Option<Seq<char>>,
        event: StartEvent,
        after: ColdStart,
        action: StartAction,
    ) -> bool {
        &&& after.same_app(before)
        &&& match (before.phase, event) {
            (StartPhase::Allocating, StartEvent::Allocated(Ok(ip))) => {
                &&& after.phase == (StartPhase::Pulling { ip })
                &&& action matches StartAction::PullImage { image_ref }
                    && image_ref@ == pinned_ref(before.image_ref@, digest)
            },
            (StartPhase::Allocating, StartEvent::Allocated(Err(e))) => {
                &&& after.phase matches StartPhase::Done { result: Err(m) } && m@ == about(
                    "allocate endpoint for "@,
                    before.name@,
                    e@,
                )
                &&& action == StartAction::Finish
            },
            (StartPhase::Pulling { ip }, StartEvent::Pulled(Ok(pulled))) => {
                &&& after.phase == (StartPhase::Launching { ip })
                &&& action == (StartAction::StartContainer { image_id: pulled })
            },
            (StartPhase::Pulling { ip }, StartEvent::Pulled(Err(e))) => {
                &&& after.phase matches StartPhase::Releasing { error } && error@ == about(
                    "pull image for "@,
                    before.name@,
                    e@,
                )
                &&& action == StartAction::ReleaseEndpoint
            },
            (StartPhase::Launching { ip }, StartEvent::Started(Ok(_))) => {
                &&& after.phase == (StartPhase::Probing { ip })
                &&& action == StartAction::WaitForReady
            },
            (StartPhase::Launching { ip }, StartEvent::Started(Err(e))) => {
                &&& after.phase matches StartPhase::Releasing { error } && error@ == about(
                    "start container for "@,
                    before.name@,
                    e@,
                )
                &&& action == StartAction::ReleaseEndpoint
            },
            (StartPhase::Probing { ip }, StartEvent::Ready(Ok(_))) => {
                &&& after.phase == (StartPhase::Done { result: Ok(ip) })
                &&& action == StartAction::Finish
            },
            (StartPhase::Probing { ip }, StartEvent::Ready(Err(e))) => {
                &&& after.phase == (StartPhase::TakingDown { error: e })
                &&& action == StartAction::StopContainer
            },
            (StartPhase::TakingDown { error }, StartEvent::Stopped) => {
                &&& after.phase == (StartPhase::Releasing { error })
                &&& action == StartAction::ReleaseEndpoint
            },
            (StartPhase::Releasing { error }, StartEvent::Released) => {
                &&& after.phase == (StartPhase::Done { result: Err(error) })
                &&& action == StartAction::Finish
            },
            _ => after == before && action == StartAction::Ignore,
        }
    }

    /// Take in what came of the last action and say what is next. What a pull
    /// resolved to is remembered for the app.
    pub fn step(self, inner: &mut HandleInner, event: StartEvent) -> (r: (ColdStart, StartAction))
        ensures
            ColdStart::follows(self, old(inner).known_digest(self.repo@), event, r.0, r.1),
            match (self.phase, event) {
                (StartPhase::Pulling { .. }, StartEvent::Pulled(Ok(d))) => {
                    &&& final(inner).remembers(*old(inner), self.repo@, d@)
                    &&& final(inner).known_digest(self.repo@) is Some
                },
                _ => *final(inner) == *old(inner),
            },
    {
        let ColdStart { name, repo, image_ref, phase } = self;
        match (phase, event) {
            (StartPhase::Allocating, StartEvent::Allocated(Ok(ip))) => {
                let pinned = digest_pinned_ref(
                    image_ref.as_str(),
                    inner.cached_digest(repo.as_str()),
                );
                (
                    ColdStart { name, repo, image_ref, phase: StartPhase::Pulling { ip } },
                    StartAction::PullImage { image_ref: pinned },
                )
            },
            (StartPhase::Allocating, StartEvent::Allocated(Err(e))) => {
                let m = tell("allocate endpoint for ", name.as_str(), e.as_str());
                (
                    ColdStart { name, repo, image_ref, phase: StartPhase::Done { result: Err(m) } },
                    StartAction::Finish,
                )
            },
            (StartPhase::Pulling { ip }, StartEvent::Pulled(Ok(d))) => {
                inner.remember_digest(repo.as_str(), d.as_str());
                (
                    ColdStart { name, repo, image_ref, phase: StartPhase::Launching { ip } },
                    StartAction::StartContainer { image_id: d },
                )
            },
            (StartPhase::Pulling { .. }, StartEvent::Pulled(Err(e))) => {
                let error = tell("pull image for ", name.as_str(), e.as_str());
                (
                    ColdStart { name, repo, image_ref, phase: StartPhase::Releasing { error } },
                    StartAction::ReleaseEndpoint,
                )
            },
            (StartPhase::Launching { ip }, StartEvent::Started(Ok(_))) => (
                ColdStart { name, repo, image_ref, phase: StartPhase::Probing { ip } },
                StartAction::WaitForReady,
            ),
            (StartPhase::Launching { .. }, StartEvent::Started(Err(e))) => {
                let error = tell("start container for ", name.as_str(), e.as_str());
                (
                    ColdStart { name, repo, image_ref, phase: StartPhase::Releasing { error } },
                    StartAction::ReleaseEndpoint,
                )
            },
            (StartPhase::Probing { ip }, StartEvent::Ready(Ok(_))) => (
                ColdStart { name, repo, image_ref, phase: StartPhase::Done { result: Ok(ip) } },
                StartAction::Finish,
            ),
            (StartPhase::Probing { .. }, StartEvent::Ready(Err(e))) => (
                ColdStart { name, repo, image_ref, phase: StartPhase::TakingDown { error: e } },
                StartAction::StopContainer,
            ),
            (StartPhase::TakingDown { error }, StartEvent::Stopped) => (
                ColdStart { name, repo, image_ref, phase: StartPhase::Releasing { error } },
                StartAction::ReleaseEndpoint,
            ),
            (StartPhase::Releasing { error }, StartEvent::Released) => (
                ColdStart {
                    name,
                    repo,
                    image_ref,
                    phase: StartPhase::Done { result: Err(error) },
                },
                StartAction::Finish,
            ),
            (phase, _) => (ColdStart { name, repo, image_ref, phase }, StartAction::Ignore),
        }
    }
}

/// The outcome of resuming a frozen container: it serves where it served before.
pub fn finish_resume(container_ip: u32, unfrozen: Result<(), String>) -> (r: Result<u32, String>)
    ensures
        match unfrozen {
            Ok(_) => r == Ok::<u32, String>(container_ip),
            Err(e) => r == Err::<u32, String>(e),
        },
{
    match unfrozen {
        Ok(_) => Ok(container_ip),
        Err(e) => Err(e),
    }
}

// ---- laws ------------------------------------------------------------------

/// What a start has taken up on the host and not given back.
pub struct Held {
    pub endpoint: bool,
    pub container: bool,
}

/// What is held in a phase.
pub open spec fn held_in(p: StartPhase) -> Held {
    match p {
        StartPhase::Allocating => Held { endpoint: false, container: false },
        StartPhase::Pulling { .. } => Held { endpoint: true, container: false },
        StartPhase::Launching { .. } => Held { endpoint: true, container: false },
        StartPhase::Probing { .. } => Held { endpoint: true, container: true },
        StartPhase::TakingDown { .. } => Held { endpoint: true, container: true },
        StartPhase::Releasing { .. } => Held { endpoint: true, container: false },
        StartPhase::Done { result } => Held { endpoint: result is Ok, container: result is Ok },
    }
}

/// What is held after an event that was waited for.
pub open spec fn held_after(h: Held, e: StartEvent) -> Held {
    match e {
        StartEvent::Allocated(Ok(_)) => Held { endpoint: true, ..h },
        StartEvent::Started(Ok(_)) => Held { container: true, ..h },
        StartEvent::Stopped => Held { container: false, ..h },
        StartEvent::Released => Held { endpoint: false, ..h },
        _ => h,
    }
}

/// What is held after a run of events.
pub open spec fn held_after_all(h: Held, events: Seq<StartEvent>) -> Held
    decreases events.len(),
{
    if events.len() == 0 {
        h
    } else {
        held_after(held_after_all(h, events.drop_last()), events.last())
    }
}

/// A run of a start: each state follows from the one before it by an event that
/// was waited for.
pub open spec fn is_run(
    states: Seq<ColdStart>,
    digests: Seq<Option<Seq<char>>>,
    events: Seq<StartEvent>,
    actions: Seq<StartAction>,
) -> bool {
    &&& states.len() == events.len() + 1
    &&& digests.len() == events.len()
    &&& actions.len() == events.len()
    &&& states[0].phase == StartPhase::Allocating
    &&& forall|i: int|
        0 <= i < events.len() ==> #[trigger] ColdStart::follows(
            states[i],
            digests[i],
            events[i],
            states[i + 1],
            actions[i],
        ) && !(actions[i] is Ignore)
}

/// The phase of a start tells exactly what it holds on the host. So a start that
/// has failed holds nothing: whatever it allocated it has released, and whatever
/// it started it has stopped. One that has succeeded holds its endpoint and its
/// container.
pub proof fn lemma_start_leaves_nothing_behind(
    states: Seq<ColdStart>,
    digests: Seq<Option<Seq<char>>>,
    events: Seq<StartEvent>,
    actions: Seq<StartAction>,
)
    requires
        is_run(states, digests, events, actions),
    ensures
        held_after_all(Held { endpoint: false, container: false }, events) == held_in(
            states.last().phase,
        ),
        states.last().phase matches StartPhase::Done { result: Err(_) } ==> held_after_all(
            Held { endpoint: false, container: false },
            events,
        ) == (Held { endpoint: false, container: false }),
        states.last().phase matches StartPhase::Done { result: Ok(_) } ==> held_after_all(
            Held { endpoint: false, container: false },
            events,
        ) == (Held { endpoint: true, container: true }),
    decreases events.len(),
{
    if events.len() > 0 {
        let n = events.len() - 1;
        let s = states.drop_last();
        let d = digests.drop_last();
        let e = events.drop_last();
        let a = actions.drop_last();
        assert forall|i: int| 0 <= i < e.len() implies #[trigger] ColdStart::follows(
            s[i],
            d[i],
            e[i],
            s[i + 1],
            a[i],
        ) && !(a[i] is Ignore) by {
            assert(ColdStart::follows(states[i], digests[i], events[i], states[i + 1], actions[i]));
        }
        lemma_start_leaves_nothing_behind(s, d, e, a);
        assert(s.last() == states[n]);
        assert(ColdStart::follows(states[n], digests[n], events[n], states[n + 1], actions[n]));
    }
}

/// A container is started only once its image has been pulled, and with that very
/// image; an image is pulled only once there is an endpoint; and an app that is
/// told to be up has answered.
pub proof fn lemma_steps_in_order(
    before: ColdStart,
    digest: Option<Seq<char>>,
    event: StartEvent,
    after: ColdStart,
    action: StartAction,
)
    requires
        ColdStart::follows(before, digest, event, after, action),
    ensures
        action is StartContainer ==> (event matches StartEvent::Pulled(Ok(pulled))
            && action->image_id == pulled),
        action is PullImage ==> event matches StartEvent::Allocated(Ok(_)),
        after.phase != before.phase && (after.phase matches StartPhase::Done { result } && result
            is Ok) ==> (event matches StartEvent::Ready(Ok(_))),
        event matches StartEvent::Pulled(Err(_)) ==> !(action is StartContainer),
{
}

/// An image is pinned by an at sign and the digest, unless it names a digest
/// already or none is known.
pub proof fn lemma_pinned_ref(image: Seq<char>, digest: Seq<char>)
    ensures
        pinned_ref(image, None) == image,
        (forall|i: int| 0 <= i < image.len() ==> image[i] != '@') ==> pinned_ref(
            image,
            Some(digest),
        ) == image + seq!['@'] + digest,
        (exists|i: int| 0 <= i < image.len() && image[i] == '@') ==> pinned_ref(
            image,
            Some(digest),
        ) == image,
{
    reveal_strlit("@");
    assert("@"@ =~= seq!['@']);
}

/// The image of an app is its repository, a colon and the tag of the newest
/// rollout.
pub proof fn lemma_image_text(h: AppHandle)
    requires
        h.inner.rollouts@.len() > 0,
    ensures
        image_text(h) == h.spec.repo@ + seq![':'] + h.inner.rollouts@[h.inner.rollouts@.len()
            - 1].tag@,
{
    reveal_strlit(":");
    assert(":"@ =~= seq![':']);
}

/// A start that goes well allocates, pulls what is pinned, runs what was pulled
/// and waits for the app, which is then up at the address that was allocated.
pub proof fn lemma_start_goes_well(
    states: Seq<ColdStart>,
    actions: Seq<StartAction>,
    digest: Option<Seq<char>>,
    ip: u32,
    pulled: String,
)
    requires
        states.len() == 5,
        actions.len() == 4,
        states[0].phase is Allocating,
        ColdStart::follows(
            states[0],
            digest,
            StartEvent::Allocated(Ok(ip)),
            states[1],
            actions[0],
        ),
        ColdStart::follows(
            states[1],
            digest,
            StartEvent::Pulled(Ok(pulled)),
            states[2],
            actions[1],
        ),
        ColdStart::follows(states[2], digest, StartEvent::Started(Ok(())), states[3], actions[2]),
        ColdStart::follows(states[3], digest, StartEvent::Ready(Ok(())), states[4], actions[3]),
    ensures
        actions[0] matches StartAction::PullImage { image_ref } && image_ref@ == pinned_ref(
            states[0].image_ref@,
            digest,
        ),
        actions[1] == (StartAction::StartContainer { image_id: pulled }),
        actions[2] is WaitForReady,
        actions[3] is Finish,
        states[4].phase == (StartPhase::Done { result: Ok(ip) }),
        states[4].name == states[0].name,
        states[4].repo == states[0].repo,
        states[4].image_ref == states[0].image_ref,
{
}

/// Whatever fails, it is told at the end, with the app's name where the host was
/// at fault; and before that what was taken up is given back, the container
/// before the endpoint.
pub proof fn lemma_start_fails(
    before: ColdStart,
    digest: Option<Seq<char>>,
    event: StartEvent,
    after: ColdStart,
    action: StartAction,
)
    requires
        ColdStart::follows(before, digest, event, after, action),
    ensures
        before.phase is Allocating ==> (event matches StartEvent::Allocated(Err(e)) ==> action
            is Finish && (after.phase matches StartPhase::Done { result: Err(m) } && m@
            == "allocate endpoint for "@ + before.name@ + seq![':', ' '] + e@)),
        before.phase is Pulling ==> (event matches StartEvent::Pulled(Err(e)) ==> action
            is ReleaseEndpoint && (after.phase matches StartPhase::Releasing { error } && error@
            == "pull image for "@ + before.name@ + seq![':', ' '] + e@)),
        before.phase is Launching ==> (event matches StartEvent::Started(Err(e)) ==> action
            is ReleaseEndpoint && (after.phase matches StartPhase::Releasing { error } && error@
            == "start container for "@ + before.name@ + seq![':', ' '] + e@)),
        before.phase is Probing ==> (event matches StartEvent::Ready(Err(e)) ==> action
            is StopContainer && after.phase == (StartPhase::TakingDown { error: e })),
        before.phase matches StartPhase::TakingDown { error } ==> event is Stopped ==> action
            is ReleaseEndpoint && after.phase == (StartPhase::Releasing { error }),
        before.phase matches StartPhase::Releasing { error } ==> event is Released ==> action
            is Finish && after.phase == (StartPhase::Done { result: Err(error) }),
{
    reveal_strlit(": ");
    assert(": "@ =~= seq![':', ' ']);
}

/// An event that a phase does not wait for changes nothing, and every event that
/// it waits for leads to another phase.
pub proof fn lemma_start_waits_for(
    before: ColdStart,
    digest: Option<Seq<char>>,
    event: StartEvent,
    after: ColdStart,
    action: StartAction,
)
    requires
        ColdStart::follows(before, digest, event, after, action),
    ensures
        ({
            let waited = match before.phase {
                StartPhase::Allocating => event is Allocated,
                StartPhase::Pulling { .. } => event is Pulled,
                StartPhase::Launching { .. } => event is Started,
                StartPhase::Probing { .. } => event is Ready,
                StartPhase::TakingDown { .. } => event is Stopped,
                StartPhase::Releasing { .. } => event is Released,
                StartPhase::Done { .. } => false,
            };
            &&& waited ==> !(action is Ignore) && after.phase != before.phase
            &&& !waited ==> action is Ignore && after == before
        }),
        after.name == before.name,
        after.repo == before.repo,
        after.image_ref == before.image_ref,
{
}

} // verus!
