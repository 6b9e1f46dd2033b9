use std::collections::{HashMap, VecDeque};
use std::sync::{Arc, Mutex};

use bugpot::apps::boot::{
    claim_survivor, finish_reattach, first_failure, orphan_steps, pick_always_on, EagerCandidate,
    Once, OrphanStep,
};
use bugpot::apps::deploy::{
    begin_deploy, check_deploy, collision_error, deploy_step, DeployAction, DeployEvent,
    DeployPhase, RemoveStep,
};
use bugpot::apps::error::{DeployError, RolloutError, UpdateError};
use bugpot::apps::handle::{
    container_id, make_handle, make_handle_with_rollouts, AppHandle, AppState, DigestCache, Slot,
    StartClaim,
};
use bugpot::apps::mempressure::{parse_mem_available, parse_mem_available_kb};
use bugpot::apps::probe::{
    judge_response, parse_http_status_code, readiness_wait, render_probe_request, ProbeStep,
    ReadinessWait,
};
use bugpot::apps::pull::{resolve_auth, PullAuth};
use bugpot::apps::registry::{InsertCollision, Registered, Registry};
use bugpot::apps::resolve::{find_app, finish_resolve};
use bugpot::apps::rollout::{
    list_rollouts, PullFailure, RolloutAction, RolloutEvent, RolloutPhase, RolloutRun,
};
use bugpot::apps::start::{
    digest_pinned_ref, finish_resume, ColdStart, StartAction, StartEvent, StartPhase,
};
use bugpot::apps::store::{accept_spec, is_spec_file, sort_by_name, AppStore, KeptApp};
use bugpot::apps::sweep::{
    lru_frozen, sweep_begin, sweep_checked, sweep_idle, MemoryPressure, SweepAction,
};
use bugpot::apps::update::{begin_update, update_step, UpdateAction, UpdateEvent, UpdatePhase};
use bugpot::apps::view::{view_of, AppStateView, AppView};
use bugpot::config::auth::{AuthConfig, RegistryCredential};
use bugpot::config::duration::Span;
use bugpot::config::spec::{AppSpec, EgressSpec, Readiness, Resources, Rollout, Scaling};
use bugpot::egress::addr::{parse_ipv4, show_ipv4, IpAddr, SocketAddr};
use bugpot::egress::state::{discover_endpoints, StartupClaims};
use bugpot::router::forward::ResolveError;

const LOCALHOST: u32 = 0x7f00_0001;

fn ip(s: &str) -> u32 {
    parse_ipv4(s).unwrap()
}

fn spec_with_name(name: &str) -> AppSpec {
    AppSpec {
        repo: "registry.example/img".to_owned(),
        port: 8080,
        name: Some(name.to_owned()),
        subdomain: None,
        egress: EgressSpec::default(),
        env: Vec::new(),
        scaling: Scaling::default(),
        readiness: Readiness::default(),
        resources: Resources::default(),
        volumes: Vec::new(),
        source_path: String::new(),
    }
}

fn rollout(tag: &str) -> Rollout {
    Rollout { tag: tag.to_owned(), created_at: "1970-01-01T00:00:00Z".to_owned() }
}

fn text_of(spec: &AppSpec) -> Option<String> {
    Some(format!("{} {} {:?} {:?} {:?}", spec.repo, spec.port, spec.name, spec.subdomain, spec.env))
}

fn claims_with(entries: &[(&str, u32)]) -> StartupClaims {
    let found = entries.iter().map(|(n, a)| (n.to_string(), Some(*a))).collect();
    StartupClaims::new(discover_endpoints(found))
}

/// A host whose containers and network are pretended.
struct Host {
    registry: Registry<Mutex<AppHandle>>,
    store: AppStore,
    files: HashMap<String, String>,
    pulls: VecDeque<Result<String, String>>,
    starts: VecDeque<Result<(), String>>,
    ready: VecDeque<Result<(), String>>,
    running: HashMap<String, bool>,
    paused: HashMap<String, bool>,
    calls: Vec<String>,
    /// The images that containers were started from.
    started_with: Vec<String>,
    once: Once,
    /// Someone who is registered between the check and the registration.
    rival: Option<App>,
    now: Span,
}

type App = Arc<Registered<Mutex<AppHandle>>>;

impl Host {
    fn new(kept: Vec<(AppSpec, Option<Rollout>)>) -> Host {
        let mut apps = Vec::new();
        for (spec, first) in kept {
            let handle = make_handle(spec, first, Span::from_secs(0)).unwrap();
            apps.push(Arc::new(Registered {
                identity: handle.identity.clone(),
                value: Mutex::new(handle),
            }));
        }
        Host {
            registry: Registry::from_handles(apps),
            store: AppStore::new("/state".to_owned()),
            files: HashMap::new(),
            pulls: VecDeque::new(),
            starts: VecDeque::new(),
            ready: VecDeque::new(),
            running: HashMap::new(),
            paused: HashMap::new(),
            calls: Vec::new(),
            started_with: Vec::new(),
            once: Once::new(),
            rival: None,
            now: Span::from_secs(1000),
        }
    }

    fn app(&self, name: &str) -> App {
        self.registry.find_by_name(name).unwrap()
    }

    fn state(&self, name: &str) -> AppState {
        self.app(name).value.lock().unwrap().inner.state
    }

    fn set_state(&self, name: &str, state: AppState) {
        self.app(name).value.lock().unwrap().inner.state = state;
    }

    fn called(&self, call: &str) -> bool {
        self.calls.iter().any(|c| c == call)
    }

    fn called_with_prefix(&self, prefix: &str) -> bool {
        self.calls.iter().any(|c| c.starts_with(prefix))
    }

    fn deploy(&mut self, spec: AppSpec) -> Result<AppView, DeployError> {
        let id = check_deploy(&self.registry, &spec)?;
        let path = self.store.spec_path(id.name());
        let handle = make_handle(spec.clone(), None, self.now).map_err(DeployError::InvalidSpec)?;
        let view = view_of(&handle);
        let app = Arc::new(Registered { identity: id.clone(), value: Mutex::new(handle) });
        let (mut phase, mut action) = begin_deploy();
        loop {
            let event = match action {
                DeployAction::PersistSpec => {
                    self.files.insert(path.clone(), text_of(&spec).unwrap());
                    DeployEvent::Persisted(Ok(()))
                }
                DeployAction::Register => {
                    if let Some(rival) = self.rival.take() {
                        self.registry.try_insert(rival).unwrap();
                    }
                    DeployEvent::Registered(self.registry.try_insert(app.clone()))
                }
                DeployAction::DiscardSpec => {
                    self.files.remove(&path);
                    DeployEvent::Discarded
                }
                DeployAction::Finish => break,
                DeployAction::Ignore => panic!("an event was not waited for"),
            };
            (phase, action) = deploy_step(&id, phase, event);
        }
        match phase {
            DeployPhase::Done { result } => result.map(|()| view),
            other => panic!("finished in {other:?}"),
        }
    }

    fn cold_start(&mut self, app: &App) -> Result<u32, String> {
        let name = app.identity.name.clone();
        let begun = ColdStart::begin(&app.value.lock().unwrap());
        let (mut start, mut action) = begun?;
        loop {
            let event = match action {
                StartAction::AllocateEndpoint => {
                    self.calls.push(format!("allocate_endpoint({name})"));
                    StartEvent::Allocated(Ok(LOCALHOST))
                }
                StartAction::PullImage { image_ref } => {
                    self.calls.push(format!("pull_image({image_ref})"));
                    let queued = self.pulls.pop_front();
                    StartEvent::Pulled(queued.unwrap_or(Err("no pull queued".to_owned())))
                }
                StartAction::StartContainer { image_id } => {
                    self.calls.push(format!("start_app({name})"));
                    self.started_with.push(image_id);
                    let queued = self.starts.pop_front();
                    StartEvent::Started(queued.unwrap_or(Err("no start queued".to_owned())))
                }
                StartAction::WaitForReady => {
                    let queued = self.ready.pop_front();
                    StartEvent::Ready(queued.unwrap_or(Ok(())))
                }
                StartAction::StopContainer => {
                    self.calls.push(format!("stop_app({name})"));
                    StartEvent::Stopped
                }
                StartAction::ReleaseEndpoint => {
                    self.calls.push(format!("release_endpoint({name})"));
                    StartEvent::Released
                }
                StartAction::Finish => break,
                StartAction::Ignore => panic!("an event was not waited for"),
            };
            (start, action) = start.step(&mut app.value.lock().unwrap().inner, event);
        }
        match start.phase {
            StartPhase::Done { result } => result,
            other => panic!("finished in {other:?}"),
        }
    }

    fn ensure_running(&mut self, name: &str) -> Result<u32, String> {
        let app = self.app(name);
        let claim = app.value.lock().unwrap().inner.claim_start_slot(self.now);
        match claim {
            StartClaim::Ready(addr) => Ok(addr),
            StartClaim::Claimed { resume_from: None } => {
                let result = self.cold_start(&app);
                app.value.lock().unwrap().inner.finish_start(result.as_ref().ok().copied());
                result
            }
            StartClaim::Claimed { resume_from: Some(addr) } => {
                self.calls.push(format!("unfreeze_app({name})"));
                self.paused.remove(name);
                let result = finish_resume(addr, Ok(()));
                app.value.lock().unwrap().inner.finish_start(result.as_ref().ok().copied());
                result
            }
            StartClaim::Coalesce | StartClaim::WaitForStopping => panic!("nobody else is here"),
        }
    }

    fn stop(&mut self, name: &str) {
        let app = self.app(name);
        self.stop_app(&app);
    }

    fn stop_app(&mut self, app: &App) {
        let name = app.identity.name.clone();
        if app.value.lock().unwrap().inner.begin_stop() {
            self.calls.push(format!("stop_app({name})"));
            self.running.remove(&name);
            self.calls.push(format!("release_endpoint({name})"));
            app.value.lock().unwrap().inner.finish_stop();
        }
    }

    fn freeze(&mut self, name: &str) {
        let app = self.app(name);
        let addr = {
            let h = app.value.lock().unwrap();
            h.inner.begin_freeze(h.active_upgrades)
        };
        if let Some(addr) = addr {
            self.calls.push(format!("freeze_app({name})"));
            self.paused.insert(name.to_owned(), true);
            app.value.lock().unwrap().inner.finish_freeze(addr);
        }
    }

    fn update(&mut self, name: &str, spec: AppSpec) -> Result<AppView, UpdateError> {
        let app = self.app(name);
        let old_text = text_of(&app.value.lock().unwrap().spec);
        let new_text = text_of(&spec);
        let begun = begin_update(&mut app.value.lock().unwrap(), spec, old_text, new_text);
        let (mut phase, mut action) = begun;
        loop {
            let event = match action {
                UpdateAction::PersistSpec => {
                    let text = text_of(&app.value.lock().unwrap().spec).unwrap();
                    self.files.insert(self.store.spec_path(name), text);
                    UpdateEvent::Persisted(Ok(()))
                }
                UpdateAction::StopApp => {
                    self.stop(name);
                    UpdateEvent::Stopped(Ok(()))
                }
                UpdateAction::StartApp => UpdateEvent::Started(self.ensure_running(name)),
                UpdateAction::Finish => break,
                UpdateAction::Ignore => panic!("an event was not waited for"),
            };
            (phase, action) = update_step(phase, event);
        }
        match phase {
            UpdatePhase::Done { result } => {
                result?;
                let view = view_of(&app.value.lock().unwrap());
                Ok(view)
            }
            other => panic!("finished in {other:?}"),
        }
    }

    fn set_rollout(&mut self, name: &str, tag: &str) -> Result<Rollout, RolloutError> {
        let app = self.app(name);
        let begun = RolloutRun::begin(&app.value.lock().unwrap(), tag.to_owned());
        let (mut run, mut action) = begun?;
        loop {
            let event = match action {
                RolloutAction::PullImage { image_ref } => {
                    self.calls.push(format!("pull_image({image_ref})"));
                    let queued = self.pulls.pop_front().unwrap_or(Err("none queued".to_owned()));
                    let outcome = queued.map_err(|reason| PullFailure {
                        is_auth: reason.contains("401"),
                        reason,
                    });
                    RolloutEvent::Pulled { outcome, now: "2026-01-01T00:00:00Z".to_owned() }
                }
                RolloutAction::PersistRollouts => {
                    self.files.insert(self.store.rollouts_path(name), tag.to_owned());
                    RolloutEvent::Persisted
                }
                RolloutAction::StopApp => {
                    self.stop(name);
                    RolloutEvent::Stopped
                }
                RolloutAction::StartApp => RolloutEvent::Started(self.ensure_running(name)),
                RolloutAction::Finish => break,
                RolloutAction::Ignore => panic!("an event was not waited for"),
            };
            (run, action) = run.step(&mut app.value.lock().unwrap(), event);
        }
        match run.phase {
            RolloutPhase::Done { result } => result,
            other => panic!("finished in {other:?}"),
        }
    }

    fn sweep(&mut self) {
        for app in self.registry.list() {
            let name = app.identity.name.clone();
            let mut action = sweep_begin(&app.value.lock().unwrap());
            loop {
                action = match action {
                    SweepAction::CheckContainer => {
                        sweep_checked(self.running.get(&name).copied().unwrap_or(false))
                    }
                    SweepAction::StopCrashed => {
                        self.stop(&name);
                        break;
                    }
                    SweepAction::SampleUsage => sweep_idle(&app.value.lock().unwrap(), self.now),
                    SweepAction::Freeze => {
                        self.freeze(&name);
                        break;
                    }
                    SweepAction::Leave => break,
                };
            }
        }
    }

    fn reattach(&mut self, claims: &mut StartupClaims) {
        let first = self.once.enter();
        for app in self.registry.list() {
            let name = app.identity.name.clone();
            let running = self.running.get(&name).copied().unwrap_or(false);
            let paused = self.paused.get(&name).copied().unwrap_or(false);
            let mut h = app.value.lock().unwrap();
            let claimed = claim_survivor(first, &h, running, paused, claims);
            if let Some(addr) = claimed {
                self.calls.push(format!("reattach_endpoint({name})"));
                if finish_reattach(&mut h, Ok(addr), paused, self.now) {
                    self.calls.push(format!("ensure_log_tails({name})"));
                }
            }
        }
    }

    fn cleanup_orphans(&mut self, claims: StartupClaims) {
        for step in orphan_steps(&claims.drain()) {
            self.calls.push(match step {
                OrphanStep::CleanUpContainer { name } => format!("cleanup_orphan_container({name})"),
                OrphanStep::CleanUpEndpoint { name, ip } => {
                    format!("cleanup_orphan_endpoint({name},{})", show_ipv4(ip))
                }
            });
        }
    }

    fn evict(&mut self) -> bool {
        let apps = self.registry.list();
        let rows = apps
            .iter()
            .map(|a| {
                let h = a.value.lock().unwrap();
                (h.inner.state, h.inner.last_access)
            })
            .collect();
        match lru_frozen(&rows) {
            Some(i) => {
                self.stop(&apps[i].identity.name);
                true
            }
            None => false,
        }
    }

    fn remove(&mut self, name: &str) {
        let app = self.app(name);
        let mut step = RemoveStep::Unregister;
        while step != RemoveStep::Finished {
            match step {
                RemoveStep::Unregister => {
                    self.registry.remove(name, app.identity.subdomain())
                }
                RemoveStep::Stop => self.stop_app(&app),
                RemoveStep::CleanUpContainer => {
                    self.calls.push(format!("cleanup_orphan_container({name})"))
                }
                RemoveStep::DeleteSpecFile => {
                    self.files.remove(&self.store.spec_path(name));
                }
                RemoveStep::DeleteRolloutsFile => {
                    self.files.remove(&self.store.rollouts_path(name));
                }
                RemoveStep::Finished => {}
            }
            step = step.next();
        }
    }
}

fn with_rollout(name: &str) -> (AppSpec, Option<Rollout>) {
    (spec_with_name(name), Some(rollout("v1")))
}

// ---- image references ------------------------------------------------------

#[test]
fn lib_digest_pinned_ref_appends_digest_when_absent() {
    assert_eq!(
        digest_pinned_ref("gcr.io/x/y:1.0", Some("sha256:abc123")),
        "gcr.io/x/y:1.0@sha256:abc123"
    );
    assert_eq!(
        digest_pinned_ref("gcr.io/x/y", Some("sha256:abc123")),
        "gcr.io/x/y@sha256:abc123"
    );
}

#[test]
fn lib_digest_pinned_ref_passthrough_when_no_digest_or_already_pinned() {
    assert_eq!(digest_pinned_ref("gcr.io/x/y:1.0", None), "gcr.io/x/y:1.0");
    assert_eq!(
        digest_pinned_ref("gcr.io/x/y@sha256:def", Some("sha256:abc")),
        "gcr.io/x/y@sha256:def"
    );
}

// ---- operations ------------------------------------------------------------

#[test]
fn lib_deploy_app_does_not_pull() {
    let mut host = Host::new(vec![]);
    host.pulls.push_back(Err("would-be pull failure".into()));
    let view = host.deploy(spec_with_name("alpha")).expect("register should succeed");
    assert_eq!(view.name, "alpha");
    assert!(view.current_rollout.is_none());
    assert!(host.files.contains_key("/state/apps/alpha.toml"));
    assert!(!host.called_with_prefix("pull_image"));
}

#[test]
fn deploys_that_are_refused() {
    let mut host = Host::new(vec![with_rollout("alpha")]);
    let mut nameless = spec_with_name("x");
    nameless.name = None;
    assert!(matches!(host.deploy(nameless), Err(DeployError::MissingName)));
    assert!(matches!(
        host.deploy(spec_with_name("Bad")),
        Err(DeployError::InvalidSpec(e)) if e.field == "name"
    ));
    assert!(matches!(
        host.deploy(spec_with_name("alpha")),
        Err(DeployError::AlreadyExists(n)) if n == "alpha"
    ));
    let mut squatter = spec_with_name("beta");
    squatter.subdomain = Some("alpha".to_owned());
    assert!(matches!(
        host.deploy(squatter),
        Err(DeployError::SubdomainTaken(s)) if s == "alpha"
    ));
}

#[test]
fn a_deploy_that_another_beats_leaves_no_spec_behind() {
    for (name, subdomain) in [("alpha", "other"), ("rival", "alpha")] {
        let mut host = Host::new(vec![]);
        let mut taken = spec_with_name(name);
        taken.subdomain = Some(subdomain.to_owned());
        let handle = make_handle(taken, None, Span::from_secs(0)).unwrap();
        host.rival = Some(Arc::new(Registered {
            identity: handle.identity.clone(),
            value: Mutex::new(handle),
        }));
        match host.deploy(spec_with_name("alpha")) {
            Err(DeployError::AlreadyExists(n)) => assert_eq!((name, n.as_str()), ("alpha", "alpha")),
            Err(DeployError::SubdomainTaken(d)) => assert_eq!((name, d.as_str()), ("rival", "alpha")),
            other => panic!("{other:?}"),
        }
        assert!(host.files.is_empty());
        assert!(host.registry.find_by_name(name).is_some());
    }
}

#[test]
fn a_spec_that_cannot_be_written_down_is_not_registered() {
    let id = spec_with_name("alpha").identity().unwrap();
    let (phase, action) = begin_deploy();
    assert_eq!(action, DeployAction::PersistSpec);
    let full = DeployEvent::Persisted(Err("disk full".to_owned()));
    let (phase, action) = deploy_step(&id, phase, full);
    assert_eq!(action, DeployAction::Finish);
    assert!(matches!(
        phase,
        DeployPhase::Done { result: Err(DeployError::Internal(m)) } if m == "disk full"
    ));
    let (_, action) = deploy_step(&id, DeployPhase::Registering, DeployEvent::Discarded);
    assert_eq!(action, DeployAction::Ignore);
    let taken = collision_error(InsertCollision::SubdomainTaken, &id);
    assert!(matches!(taken, DeployError::SubdomainTaken(s) if s == "alpha"));
}

#[test]
fn lib_set_rollout_propagates_pull_failure() {
    let mut host = Host::new(vec![]);
    host.deploy(spec_with_name("alpha")).unwrap();
    host.pulls.push_back(Err("registry unreachable".into()));
    let err = host.set_rollout("alpha", "v1").expect_err("expected pull failure");
    assert!(matches!(err, RolloutError::ImagePull(_)), "got {err:?}");
    let app = host.app("alpha");
    assert!(view_of(&app.value.lock().unwrap()).current_rollout.is_none());
}

#[test]
fn rollouts_that_are_refused() {
    let mut host = Host::new(vec![with_rollout("alpha")]);
    assert!(matches!(host.set_rollout("alpha", " \t"), Err(RolloutError::EmptyTag)));
    host.pulls.push_back(Err("401 from registry".into()));
    match host.set_rollout("alpha", "v2") {
        Err(RolloutError::ImageAuth(m)) => {
            assert_eq!(m, "pull registry.example/img:v2 for alpha: 401 from registry")
        }
        other => panic!("{other:?}"),
    }
    host.set_state("alpha", AppState::Starting);
    assert!(matches!(
        host.set_rollout("alpha", "v2"),
        Err(RolloutError::Conflict(n)) if n == "alpha"
    ));
}

#[test]
fn a_rollout_restarts_the_app_under_the_new_image() {
    let mut host = Host::new(vec![with_rollout("alpha")]);
    host.set_state("alpha", AppState::Running { container_ip: ip("10.0.0.9") });
    host.pulls.push_back(Ok("sha256:new".into()));
    host.pulls.push_back(Ok("sha256:new".into()));
    host.starts.push_back(Ok(()));
    let r = host.set_rollout("alpha", "v2").unwrap();
    assert_eq!(r.tag, "v2");
    assert_eq!(r.created_at, "2026-01-01T00:00:00Z");
    assert_eq!(
        host.calls,
        vec![
            "pull_image(registry.example/img:v2)",
            "stop_app(alpha)",
            "release_endpoint(alpha)",
            "allocate_endpoint(alpha)",
            "pull_image(registry.example/img:v2@sha256:new)",
            "start_app(alpha)",
        ]
    );
    assert_eq!(host.state("alpha"), AppState::Running { container_ip: LOCALHOST });
    let app = host.app("alpha");
    let tags: Vec<String> =
        list_rollouts(&app.value.lock().unwrap()).into_iter().map(|r| r.tag).collect();
    assert_eq!(tags, vec!["v1", "v2"]);
}

#[test]
fn a_rollout_replaces_the_container_of_a_frozen_app() {
    let mut host = Host::new(vec![with_rollout("alpha")]);
    host.set_state("alpha", AppState::Frozen { container_ip: ip("10.0.0.9") });
    host.pulls.push_back(Ok("sha256:new".into()));
    host.pulls.push_back(Ok("sha256:new".into()));
    host.starts.push_back(Ok(()));
    host.set_rollout("alpha", "v2").unwrap();
    assert!(host.called("stop_app(alpha)"));
    assert!(!host.called("unfreeze_app(alpha)"));
    assert_eq!(host.started_with, vec!["sha256:new"]);
    assert_eq!(host.state("alpha"), AppState::Running { container_ip: LOCALHOST });
}

#[test]
fn a_rollout_that_does_not_start_is_still_recorded() {
    let mut host = Host::new(vec![with_rollout("alpha")]);
    for _ in 0..2 {
        host.pulls.push_back(Ok("sha256:new".into()));
    }
    host.starts.push_back(Err("no memory".into()));
    match host.set_rollout("alpha", "v2") {
        Err(RolloutError::StartFailed(m)) => {
            assert_eq!(m, "start container for alpha: no memory")
        }
        other => panic!("{other:?}"),
    }
    let app = host.app("alpha");
    assert_eq!(app.value.lock().unwrap().inner.current_rollout().unwrap().tag, "v2");
    assert!(host.files.contains_key("/state/rollouts/alpha.toml"));
}

#[test]
fn history_keeps_the_last_two() {
    let mut h =
        make_handle(spec_with_name("alpha"), Some(rollout("v1")), Span::from_secs(0)).unwrap();
    for tag in ["v2", "v3"] {
        h.inner.record_rollout(rollout(tag), "r".to_owned(), "d".to_owned());
    }
    let tags: Vec<String> = list_rollouts(&h).into_iter().map(|r| r.tag).collect();
    assert_eq!(tags, vec!["v2", "v3"]);
}

#[test]
fn lib_update_app_persists_new_spec() {
    let mut host = Host::new(vec![]);
    host.deploy(spec_with_name("alpha")).unwrap();
    let mut updated = spec_with_name("alpha");
    updated.port = 9999;
    updated.env.push(("LOG_LEVEL".to_owned(), "debug".to_owned()));
    let view = host.update("alpha", updated).expect("update succeeds");
    assert_eq!(view.port, 9999);
    let body = &host.files["/state/apps/alpha.toml"];
    assert!(body.contains("9999"), "{body}");
    assert!(body.contains("LOG_LEVEL"), "{body}");
}

#[test]
fn lib_update_app_rejects_name_change() {
    let mut host = Host::new(vec![]);
    host.deploy(spec_with_name("alpha")).unwrap();
    let err = host.update("alpha", spec_with_name("beta")).expect_err("expected NameImmutable");
    assert!(matches!(err, UpdateError::NameImmutable), "got {err:?}");
}

#[test]
fn an_update_need_not_repeat_the_name() {
    let mut spec = spec_with_name("alpha");
    spec.subdomain = Some("alpha".to_owned());
    let mut host = Host::new(vec![]);
    host.deploy(spec.clone()).unwrap();
    spec.name = None;
    spec.source_path = "/tmp/elsewhere.toml".to_owned();
    spec.port = 9999;
    assert_eq!(host.update("alpha", spec).expect("update succeeds").port, 9999);
}

#[test]
fn lib_update_app_rejects_subdomain_change() {
    let mut host = Host::new(vec![]);
    host.deploy(spec_with_name("alpha")).unwrap();
    let mut moved = spec_with_name("alpha");
    moved.subdomain = Some("alpha-renamed".to_owned());
    let err = host.update("alpha", moved).expect_err("expected SubdomainImmutable");
    assert!(matches!(err, UpdateError::SubdomainImmutable), "got {err:?}");
}

#[test]
fn lib_update_app_noop_when_unchanged() {
    let mut host = Host::new(vec![]);
    host.deploy(spec_with_name("alpha")).unwrap();
    let before = host.calls.len();
    host.update("alpha", spec_with_name("alpha")).expect("noop succeeds");
    assert_eq!(host.calls.len(), before, "noop PATCH must not touch the runtime");
}

#[test]
fn find_handle_returns_none_for_missing() {
    let host = Host::new(vec![]);
    assert!(host.registry.find_by_name("ghost").is_none());
}

#[test]
fn update_app_repo_change_makes_digest_cache_stale() {
    let mut host = Host::new(vec![]);
    host.deploy(spec_with_name("alpha")).unwrap();
    let app = host.app("alpha");
    let old_repo = app.value.lock().unwrap().repo().to_owned();
    app.value.lock().unwrap().inner.image_digest = Some(DigestCache {
        repo: old_repo.clone(),
        digest: "sha256:oldcacheddigest".to_owned(),
    });
    let mut new_spec = spec_with_name("alpha");
    new_spec.repo = "registry.example/other-img".to_owned();
    host.update("alpha", new_spec).expect("repo change PATCH succeeds");
    let h = app.value.lock().unwrap();
    let cached = h.inner.image_digest.as_ref().expect("the entry survives");
    assert_eq!(cached.repo, old_repo);
    assert_ne!(cached.repo, h.repo());
    assert_eq!(h.inner.cached_digest(h.repo()), None);
}

#[test]
fn an_update_restarts_an_app_that_runs() {
    let mut host = Host::new(vec![with_rollout("alpha")]);
    host.set_state("alpha", AppState::Running { container_ip: LOCALHOST });
    let mut updated = spec_with_name("alpha");
    updated.port = 9999;
    match host.update("alpha", updated) {
        Err(UpdateError::RestartFailed(m)) => assert_eq!(
            m,
            "restart after reconfigure: pull image for alpha: no pull queued"
        ),
        other => panic!("{other:?}"),
    }
    assert!(host.called("stop_app(alpha)"));
    assert_eq!(host.state("alpha"), AppState::Stopped);
    host.set_state("alpha", AppState::Stopping);
    assert!(matches!(
        host.update("alpha", spec_with_name("alpha")),
        Err(UpdateError::Conflict(n)) if n == "alpha"
    ));
    assert!(matches!(
        host.update("alpha", spec_with_name("Bad")),
        Err(UpdateError::InvalidSpec(_))
    ));
}

#[test]
fn updates_stop_at_the_first_failure() {
    let persisting = |was_running| UpdatePhase::Persisting { was_running };
    let (phase, action) =
        update_step(persisting(true), UpdateEvent::Persisted(Err("disk full".to_owned())));
    assert_eq!(action, UpdateAction::Finish);
    assert!(
        matches!(phase, UpdatePhase::Done { result: Err(UpdateError::Internal(m)) } if m == "disk full")
    );
    let (phase, _) = update_step(UpdatePhase::Stopping, UpdateEvent::Stopped(Err("x".to_owned())));
    assert!(matches!(
        phase,
        UpdatePhase::Done { result: Err(UpdateError::RestartFailed(m)) }
            if m == "stop before reconfigure: x"
    ));
    let (_, action) = update_step(persisting(false), UpdateEvent::Persisted(Ok(())));
    assert_eq!(action, UpdateAction::Finish);
    let (_, action) = update_step(persisting(false), UpdateEvent::Started(Ok(1)));
    assert_eq!(action, UpdateAction::Ignore);
}

// ---- lifecycle -------------------------------------------------------------

#[test]
fn lib_cold_start_releases_endpoint_on_pull_failure() {
    let mut host = Host::new(vec![with_rollout("alpha")]);
    host.pulls.push_back(Err("registry down".into()));
    assert_eq!(
        host.ensure_running("alpha"),
        Err("pull image for alpha: registry down".to_owned())
    );
    assert!(host.called("allocate_endpoint(alpha)"));
    assert!(host.called("release_endpoint(alpha)"));
    assert!(!host.called_with_prefix("start_app"));
    assert_eq!(host.state("alpha"), AppState::Stopped);
}

#[test]
fn a_cold_start_goes_through_all_steps() {
    let mut host = Host::new(vec![with_rollout("alpha")]);
    host.pulls.push_back(Ok("sha256:d".into()));
    host.starts.push_back(Ok(()));
    assert_eq!(host.ensure_running("alpha"), Ok(LOCALHOST));
    assert_eq!(host.ensure_running("alpha"), Ok(LOCALHOST), "a second call finds it running");
    assert_eq!(
        host.calls,
        vec![
            "allocate_endpoint(alpha)",
            "pull_image(registry.example/img:v1)",
            "start_app(alpha)",
        ]
    );
    host.stop("alpha");
    host.pulls.push_back(Ok("sha256:d".into()));
    host.starts.push_back(Ok(()));
    host.ensure_running("alpha").unwrap();
    assert!(host.called("pull_image(registry.example/img:v1@sha256:d)"));
    assert_eq!(host.started_with, vec!["sha256:d", "sha256:d"]);
}

#[test]
fn a_digest_of_another_repo_is_replaced_by_the_next_pull() {
    let mut host = Host::new(vec![with_rollout("alpha")]);
    host.app("alpha").value.lock().unwrap().inner.image_digest = Some(DigestCache {
        repo: "registry.example/old-img".to_owned(),
        digest: "sha256:old".to_owned(),
    });
    host.pulls.push_back(Ok("sha256:new".into()));
    host.starts.push_back(Ok(()));
    host.ensure_running("alpha").unwrap();
    assert!(host.called("pull_image(registry.example/img:v1)"));
    let app = host.app("alpha");
    let h = app.value.lock().unwrap();
    assert_eq!(h.inner.cached_digest("registry.example/img"), Some("sha256:new"));
    assert_eq!(h.inner.cached_digest("registry.example/old-img"), None);
}

#[test]
fn a_start_that_is_never_ready_is_taken_down() {
    let mut host = Host::new(vec![with_rollout("alpha")]);
    host.pulls.push_back(Ok("sha256:d".into()));
    host.starts.push_back(Ok(()));
    host.ready.push_back(Err("too slow".into()));
    assert_eq!(host.ensure_running("alpha"), Err("too slow".to_owned()));
    assert_eq!(host.calls[3..], ["stop_app(alpha)", "release_endpoint(alpha)"]);
}

#[test]
fn an_app_without_a_rollout_does_not_start() {
    let mut host = Host::new(vec![(spec_with_name("alpha"), None)]);
    assert_eq!(
        host.ensure_running("alpha"),
        Err("app 'alpha' has no rollout; POST a rollout first".to_owned())
    );
    assert!(host.calls.is_empty());
}

#[test]
fn an_allocation_that_fails_ends_the_start() {
    let h = make_handle(spec_with_name("alpha"), Some(rollout("v1")), Span::from_secs(0)).unwrap();
    let (start, _) = ColdStart::begin(&h).unwrap();
    let mut inner = h.inner;
    let (start, action) =
        start.step(&mut inner, StartEvent::Allocated(Err("exhausted".to_owned())));
    assert!(matches!(action, StartAction::Finish));
    assert!(matches!(
        start.phase,
        StartPhase::Done { result: Err(m) } if m == "allocate endpoint for alpha: exhausted"
    ));
}

#[test]
fn one_caller_starts_and_the_others_wait() {
    let mut h =
        make_handle(spec_with_name("alpha"), Some(rollout("v1")), Span::from_secs(0)).unwrap();
    let now = Span::from_secs(5);
    assert_eq!(h.inner.claim_start_slot(now), StartClaim::Claimed { resume_from: None });
    assert_eq!(h.inner.claim_start_slot(now), StartClaim::Coalesce);
    h.inner.finish_start(Some(LOCALHOST));
    assert_eq!(h.inner.claim_start_slot(now), StartClaim::Ready(LOCALHOST));
    assert!(h.inner.begin_stop());
    assert_eq!(h.inner.claim_start_slot(now), StartClaim::WaitForStopping);
    assert!(!h.inner.begin_stop());
    h.inner.finish_stop();
    assert_eq!(h.inner.state, AppState::Stopped);
    assert_eq!(h.inner.last_access, now);
}

#[test]
fn lib_ensure_running_unfreezes_from_frozen() {
    let mut host = Host::new(vec![with_rollout("alpha")]);
    let frozen_ip = ip("10.0.0.7");
    host.set_state("alpha", AppState::Frozen { container_ip: frozen_ip });
    host.paused.insert("alpha".to_owned(), true);
    assert_eq!(host.ensure_running("alpha").unwrap(), frozen_ip);
    assert!(host.called("unfreeze_app(alpha)"));
    assert!(!host.called_with_prefix("start_app"));
    assert!(!host.called_with_prefix("pull_image"));
}

#[test]
fn a_resume_that_fails_stops_the_app() {
    assert_eq!(finish_resume(7, Err("gone".to_owned())), Err("gone".to_owned()));
}

#[test]
fn lib_freeze_skipped_when_upgrades_active() {
    let mut host = Host::new(vec![with_rollout("alpha")]);
    host.set_state("alpha", AppState::Running { container_ip: LOCALHOST });
    let app = host.app("alpha");
    app.value.lock().unwrap().open_upgrade();
    host.freeze("alpha");
    assert!(host.state("alpha").is_running());
    assert!(!host.called("freeze_app(alpha)"));
    app.value.lock().unwrap().close_upgrade();
    host.freeze("alpha");
    assert!(host.state("alpha").is_frozen());
}

#[test]
fn lib_sweep_detects_dead_container() {
    let mut host = Host::new(vec![with_rollout("alpha")]);
    host.set_state("alpha", AppState::Running { container_ip: LOCALHOST });
    host.running.insert("alpha".to_owned(), false);
    host.sweep();
    assert_eq!(host.state("alpha"), AppState::Stopped);
    assert!(host.called("stop_app(alpha)"));
    assert!(host.called("release_endpoint(alpha)"));
}

#[test]
fn lib_idle_timeout_freezes_running_app() {
    let mut spec = spec_with_name("alpha");
    spec.scaling = Scaling { idle_timeout: Some("10ms".into()) };
    let mut host = Host::new(vec![(spec, Some(rollout("v1")))]);
    host.set_state("alpha", AppState::Running { container_ip: LOCALHOST });
    host.running.insert("alpha".to_owned(), true);
    host.app("alpha").value.lock().unwrap().inner.last_access = Span::from_secs(999);
    host.sweep();
    assert!(host.state("alpha").is_frozen());
    assert!(host.called("freeze_app(alpha)"));
    assert!(!host.called("stop_app(alpha)"));
}

#[test]
fn apps_that_are_used_or_always_on_stay() {
    let idle = |timeout: &str, last: u64| {
        let mut spec = spec_with_name("alpha");
        spec.scaling = Scaling { idle_timeout: Some(timeout.to_owned()) };
        let mut h = make_handle(spec, None, Span::from_secs(last)).unwrap();
        h.inner.state = AppState::Running { container_ip: LOCALHOST };
        sweep_idle(&h, Span::from_secs(100))
    };
    assert_eq!(idle("10s", 91), SweepAction::Leave);
    assert_eq!(idle("10s", 90), SweepAction::Freeze);
    assert_eq!(idle("0", 0), SweepAction::Leave);
    assert_eq!(idle("junk", 0), SweepAction::Leave);
    assert_eq!(idle("10s", 200), SweepAction::Leave);
    assert_eq!(idle("18446744073709551615s 1000ms", 0), SweepAction::Leave);
}

#[test]
fn lib_evict_lru_frozen_picks_oldest_last_access() {
    let mut host = Host::new(vec![with_rollout("alpha"), with_rollout("beta")]);
    host.set_state("alpha", AppState::Frozen { container_ip: ip("10.0.0.1") });
    host.set_state("beta", AppState::Frozen { container_ip: ip("10.0.0.2") });
    host.app("alpha").value.lock().unwrap().inner.last_access = Span::from_secs(940);
    host.app("beta").value.lock().unwrap().inner.last_access = Span::from_secs(1000);
    assert!(host.evict(), "expected an eviction");
    assert_eq!(host.state("alpha"), AppState::Stopped);
    assert!(host.state("beta").is_frozen());
    assert!(host.evict());
    assert!(!host.evict());
}

#[test]
fn memory_pressure_has_two_marks() {
    let mut p = MemoryPressure::new(100, 200);
    assert!(!p.tick(Some(150)));
    assert!(p.tick(Some(99)));
    assert!(p.tick(Some(150)));
    assert!(!p.tick(None));
    assert!(!p.tick(Some(200)));
    assert!(!p.tick(Some(150)));
    assert!(p.tick(Some(50)));
    p.evicted(true);
    assert!(p.tick(Some(150)));
    p.evicted(false);
    assert!(!p.tick(Some(150)));
}

#[test]
fn cpu_time_counts_from_the_last_sample() {
    let mut h = make_handle(spec_with_name("alpha"), None, Span::from_secs(0)).unwrap();
    assert_eq!(h.inner.sample_cpu(10), 10);
    assert_eq!(h.inner.sample_cpu(25), 15);
    assert_eq!(h.inner.sample_cpu(5), 5);
}

#[test]
fn lib_remove_app_runs_cleanup_orphan_container() {
    let mut host = Host::new(vec![with_rollout("alpha")]);
    host.files.insert("/state/apps/alpha.toml".to_owned(), String::new());
    host.files.insert("/state/rollouts/alpha.toml".to_owned(), String::new());
    host.remove("alpha");
    assert!(host.called("cleanup_orphan_container(alpha)"));
    assert!(host.files.is_empty());
    assert!(host.registry.find_by_name("alpha").is_none());
}

// ---- coming up -------------------------------------------------------------

#[test]
fn lib_reattach_running_recovers_live_containers() {
    let mut host = Host::new(vec![with_rollout("alpha"), with_rollout("beta")]);
    host.running.insert("alpha".to_owned(), true);
    let mut claims = claims_with(&[("alpha", ip("10.0.0.42"))]);
    host.reattach(&mut claims);
    assert_eq!(host.state("alpha"), AppState::Running { container_ip: ip("10.0.0.42") });
    assert_eq!(host.state("beta"), AppState::Stopped);
    assert!(host.called("reattach_endpoint(alpha)"));
    assert!(!host.called_with_prefix("allocate_endpoint"));
    assert!(host.called("ensure_log_tails(alpha)"));
}

#[test]
fn paused_containers_are_taken_up_frozen() {
    let mut host = Host::new(vec![with_rollout("alpha")]);
    host.paused.insert("alpha".to_owned(), true);
    let mut claims = claims_with(&[("alpha", ip("10.0.0.42"))]);
    host.reattach(&mut claims);
    assert_eq!(host.state("alpha"), AppState::Frozen { container_ip: ip("10.0.0.42") });
    let mut h = make_handle(spec_with_name("alpha"), None, Span::from_secs(0)).unwrap();
    assert!(!finish_reattach(&mut h, Err("no".to_owned()), false, Span::from_secs(1)));
    assert_eq!(h.inner.state, AppState::Stopped);
}

#[test]
fn lib_cleanup_orphans_reaps_unreclaimed_endpoints() {
    let mut host = Host::new(vec![with_rollout("alpha")]);
    host.running.insert("alpha".to_owned(), true);
    let mut claims = claims_with(&[("alpha", ip("10.0.0.5")), ("beta", ip("10.0.0.9"))]);
    host.reattach(&mut claims);
    host.cleanup_orphans(claims);
    assert!(!host.called("cleanup_orphan_container(alpha)"));
    let container = host.calls.iter().position(|c| c == "cleanup_orphan_container(beta)");
    let endpoint = host.calls.iter().position(|c| c == "cleanup_orphan_endpoint(beta,10.0.0.9)");
    assert!(container.unwrap() < endpoint.unwrap());
}

#[test]
fn lib_reattach_running_is_idempotent() {
    let mut host = Host::new(vec![with_rollout("alpha")]);
    host.running.insert("alpha".to_owned(), true);
    let mut claims = claims_with(&[("alpha", ip("10.0.0.7"))]);
    host.reattach(&mut claims);
    let mut second = claims_with(&[("alpha", ip("10.0.0.7"))]);
    host.reattach(&mut second);
    let count = |p: &str| host.calls.iter().filter(|c| c.starts_with(p)).count();
    assert_eq!(count("reattach_endpoint"), 1, "reattach_endpoint must run once");
    assert_eq!(count("ensure_log_tails"), 1, "ensure_log_tails must run once");
    assert_eq!(second.drain(), vec![("alpha".to_owned(), ip("10.0.0.7"))]);
}

fn candidate(name: &str, timeout: Option<&str>, rolled_out: bool) -> EagerCandidate {
    EagerCandidate {
        name: name.to_owned(),
        scaling: Scaling { idle_timeout: timeout.map(str::to_owned) },
        rolled_out,
    }
}

#[test]
fn always_on_apps_start_with_the_daemon() {
    let apps = vec![
        candidate("a", Some("0"), true),
        candidate("b", None, true),
        candidate("c", Some(""), true),
        candidate("d", Some("0"), false),
    ];
    assert_eq!(pick_always_on(&apps), Ok(vec![0, 2]));
    let apps = vec![candidate("a", Some("0"), true), candidate("b", Some("junk"), true)];
    let e = pick_always_on(&apps).unwrap_err();
    assert!(e.starts_with("b: scaling.idle_timeout: "), "{e}");
}

#[test]
fn the_first_failure_is_told() {
    let ok = |n: &str| (n.to_owned(), Ok(1));
    let bad = |n: &str, e: &str| (n.to_owned(), Err(e.to_owned()));
    assert_eq!(first_failure(&vec![ok("a"), ok("b")]), Ok(()));
    assert_eq!(
        first_failure(&vec![ok("a"), bad("b", "x"), bad("c", "y")]),
        Err("b: x".to_owned())
    );
}

#[test]
fn frozen_apps_outlive_the_daemon() {
    assert!(AppState::Running { container_ip: 1 }.stops_on_teardown());
    assert!(AppState::Starting.stops_on_teardown());
    assert!(!AppState::Frozen { container_ip: 1 }.stops_on_teardown());
    assert!(!AppState::Stopped.stops_on_teardown());
}

// ---- registry, views, store ------------------------------------------------

#[test]
fn registry_keeps_both_indexes() {
    let entry = |name: &str| {
        let h = make_handle(spec_with_name(name), None, Span::from_secs(0)).unwrap();
        Arc::new(Registered { identity: h.identity.clone(), value: 0u8 })
    };
    let mut r: Registry<u8> = Registry::new();
    assert_eq!(r.len(), 0);
    assert_eq!(r.try_insert(entry("alpha")), Ok(()));
    assert_eq!(r.try_insert(entry("alpha")), Err(InsertCollision::NameTaken));
    assert_eq!(r.would_collide("beta", "alpha"), Some(InsertCollision::SubdomainTaken));
    assert_eq!(r.would_collide("beta", "beta"), None);
    assert!(r.find_by_subdomain("alpha").is_some());
    r.remove("alpha", "alpha");
    assert!(r.find_by_subdomain("alpha").is_none());
    assert_eq!(r.list().len(), 0);
}

#[test]
fn requests_find_their_app() {
    let host = Host::new(vec![with_rollout("alpha")]);
    let found = find_app(&host.registry, "alpha.example:80").unwrap();
    assert_eq!(found.identity.name(), "alpha");
    assert!(matches!(find_app(&host.registry, "beta.example"), Err(ResolveError::NoSuchApp)));
    assert!(matches!(find_app(&host.registry, "[::1]"), Err(ResolveError::NoSuchApp)));
    assert_eq!(
        finish_resolve(Ok(LOCALHOST), 80).unwrap(),
        SocketAddr { ip: IpAddr::V4(LOCALHOST), port: 80 }
    );
    assert!(matches!(
        finish_resolve(Err("x".to_owned()), 80),
        Err(ResolveError::Unhealthy(e)) if e == "x"
    ));
}

#[test]
fn views_show_state_and_rollout() {
    let mut h =
        make_handle(spec_with_name("alpha"), Some(rollout("v1")), Span::from_secs(0)).unwrap();
    h.inner.state = AppState::Frozen { container_ip: 1 };
    let v = view_of(&h);
    assert_eq!(v.state, AppStateView::Frozen);
    assert_eq!(v.state.as_str(), "frozen");
    assert_eq!(v.current_rollout.unwrap().tag, "v1");
    assert_eq!((v.name.as_str(), v.subdomain.as_str(), v.port), ("alpha", "alpha", 8080));
}

#[test]
fn containers_are_named_by_slot() {
    assert_eq!(container_id("alpha", Slot::A), "alpha-a");
    assert_eq!(container_id("alpha", Slot::B), "alpha-b");
    let h = make_handle(spec_with_name("alpha"), None, Span::from_secs(0)).unwrap();
    assert_eq!(h.current_id(), "alpha-a");
    assert_eq!((h.name(), h.subdomain()), ("alpha", "alpha"));
}

#[test]
fn files_lie_below_the_state_directory() {
    let store = AppStore::new("/var/lib/bugpot".to_owned());
    assert_eq!(store.specs_dir(), "/var/lib/bugpot/apps");
    assert_eq!(store.rollouts_dir(), "/var/lib/bugpot/rollouts");
    assert_eq!(store.spec_path("alpha"), "/var/lib/bugpot/apps/alpha.toml");
    assert_eq!(store.rollouts_path("alpha"), "/var/lib/bugpot/rollouts/alpha.toml");
    assert!(is_spec_file("/s/apps/alpha.toml"));
    assert!(!is_spec_file("/s/apps/alpha.toml.bak"));
    assert!(!is_spec_file("/s/apps/.toml"));
}

#[test]
fn kept_specs_are_validated_and_sorted() {
    let mut spec = spec_with_name("x");
    spec.name = None;
    let accepted = accept_spec("/s/apps/beta.toml", spec).unwrap();
    assert_eq!(accepted.name(), "beta");
    assert_eq!(accepted.source_path, "/s/apps/beta.toml");
    let e = accept_spec("/s/apps/x.toml", spec_with_name("Bad")).unwrap_err();
    assert!(e.starts_with("validate /s/apps/x.toml: invalid name: "), "{e}");

    let kept = |n: &str, tag: &str| KeptApp {
        spec: spec_with_name(n),
        rollouts: vec![rollout(tag)],
    };
    let sorted =
        sort_by_name(vec![kept("b", "1"), kept("a", "2"), kept("c", "3"), kept("a", "4")]);
    let shown: Vec<(String, String)> =
        sorted.iter().map(|k| (k.spec.name(), k.rollouts[0].tag.clone())).collect();
    let want: Vec<(String, String)> = [("a", "2"), ("a", "4"), ("b", "1"), ("c", "3")]
        .iter()
        .map(|(a, b)| (a.to_string(), b.to_string()))
        .collect();
    assert_eq!(shown, want);
}

#[test]
fn handles_need_a_valid_spec() {
    assert!(make_handle_with_rollouts(spec_with_name("Bad"), vec![], Span::from_secs(0)).is_err());
    let h = make_handle_with_rollouts(
        spec_with_name("alpha"),
        vec![rollout("v1"), rollout("v2")],
        Span::from_secs(3),
    )
    .unwrap();
    assert_eq!(h.inner.current_rollout().unwrap().tag, "v2");
    assert_eq!(h.inner.state, AppState::Stopped);
}

// ---- pulling ---------------------------------------------------------------

#[test]
fn credentials_go_by_registry() {
    let mut auth = AuthConfig::default();
    auth.registries
        .insert("ghcr.io".to_owned(), RegistryCredential::Bearer { token: "t".to_owned() });
    auth.registries.insert(
        "docker.io".to_owned(),
        RegistryCredential::Basic { username: "u".to_owned(), password: "p".to_owned() },
    );
    assert!(matches!(resolve_auth(&auth, "ghcr.io/a/b"), PullAuth::BearerToken(t) if t == "t"));
    assert!(matches!(
        resolve_auth(&auth, "library/alpine"),
        PullAuth::Basic { user, pass } if user == "u" && pass == "p"
    ));
    assert!(matches!(resolve_auth(&auth, "quay.io/a/b"), PullAuth::Anonymous));
}

// ---- readiness -------------------------------------------------------------

#[test]
fn parse_http_status_code_handles_typical_responses() {
    assert_eq!(parse_http_status_code("HTTP/1.1 200 OK\r\n"), Some(200));
    assert_eq!(
        parse_http_status_code("HTTP/1.0 503 Service Unavailable\r\nServer: x\r\n"),
        Some(503),
    );
    assert_eq!(parse_http_status_code("HTTP/2 204 No Content\r\n"), Some(204));
}

#[test]
fn parse_http_status_code_rejects_garbage() {
    assert!(parse_http_status_code("").is_none());
    assert!(parse_http_status_code("hello world").is_none());
    assert!(parse_http_status_code("HTTP/1.1\r\n").is_none());
    assert!(parse_http_status_code("HTTP/1.1 oops OK\r\n").is_none());
}

#[test]
fn http_probe_accepts_2xx_rejects_5xx() {
    judge_response(b"HTTP/1.1 200 OK\r\nContent-Length: 0\r\n\r\n", "/health")
        .expect("2xx must be ready");
    let err = judge_response(
        b"HTTP/1.1 503 Service Unavailable\r\nContent-Length: 0\r\n\r\n",
        "/health",
    )
    .expect_err("5xx must not be ready");
    assert!(err.contains("503"), "got {err}");
    assert_eq!(err, "upstream returned HTTP 503 on /health");
}

#[test]
fn answers_that_are_no_answers() {
    assert_eq!(
        judge_response(b"", "/").unwrap_err(),
        "upstream closed before sending any bytes"
    );
    let bytes: &[u8] = &[0xff];
    assert_eq!(
        judge_response(bytes, "/").unwrap_err(),
        format!(
            "non-UTF-8 in HTTP status line: {}",
            std::str::from_utf8(bytes).unwrap_err()
        )
    );
    assert_eq!(
        judge_response("é\n".as_bytes(), "/").unwrap_err(),
        "could not parse HTTP status from \"é\\n\""
    );
}

#[test]
fn only_the_status_line_of_an_answer_counts() {
    assert_eq!(judge_response(b"HTTP/1.1 200 OK\r\n\r\n\xff", "/"), Ok(()));
    assert_eq!(judge_response(b"HTTP/1.1 204 \r\nX: \xff\xfe\r\n", "/"), Ok(()));
    assert_eq!(
        judge_response(b"HTTP/1.1 503 Busy\r\n\xff", "/up").unwrap_err(),
        "upstream returned HTTP 503 on /up"
    );
    let line: &[u8] = b"HTTP/1.1 200 \xff";
    assert_eq!(
        judge_response(b"HTTP/1.1 200 \xff\r\nok", "/").unwrap_err(),
        format!("non-UTF-8 in HTTP status line: {}", std::str::from_utf8(line).unwrap_err())
    );
}

#[test]
fn the_probe_asks_politely() {
    let addr = SocketAddr { ip: IpAddr::V4(ip("172.20.0.2")), port: 8080 };
    assert_eq!(
        render_probe_request("/health", &addr),
        "GET /health HTTP/1.1\r\nHost: 172.20.0.2:8080\r\nUser-Agent: bugpot-readiness\r\nConnection: close\r\nAccept: */*\r\n\r\n"
    );
}

#[test]
fn waiting_ends_with_the_last_error() {
    let addr = SocketAddr { ip: IpAddr::V4(LOCALHOST), port: 80 };
    let mut w = ReadinessWait::new(addr, None, Span::from_secs(10));
    assert!(matches!(w.next(Span { secs: 9, nanos: 999_999_999 }), ProbeStep::Attempt));
    match w.next(Span::from_secs(10)) {
        ProbeStep::GiveUp(m) => {
            assert_eq!(m, "TCP readiness probe of 127.0.0.1:80 timed out after 10s: None")
        }
        other => panic!("{other:?}"),
    }
    assert!(!w.attempted(Err("refused".to_owned())));
    w.path = Some("/health".to_owned());
    match w.next(Span::from_secs(11)) {
        ProbeStep::GiveUp(m) => assert_eq!(
            m,
            "HTTP readiness probe of 127.0.0.1:80 timed out after 10s: Some(refused)"
        ),
        other => panic!("{other:?}"),
    }
    assert!(w.attempted(Ok(())));
}

#[test]
fn waits_go_by_the_spec() {
    let mut h = make_handle(spec_with_name("alpha"), None, Span::from_secs(0)).unwrap();
    let w = readiness_wait(&h, LOCALHOST).unwrap();
    assert_eq!(w.timeout, Span::from_secs(10));
    assert_eq!(w.addr, SocketAddr { ip: IpAddr::V4(LOCALHOST), port: 8080 });
    h.spec.readiness = Readiness { timeout: Some("3s".to_owned()), path: Some("/h".to_owned()) };
    let w = readiness_wait(&h, LOCALHOST).unwrap();
    assert_eq!(w.timeout, Span::from_secs(3));
    assert_eq!(w.path.as_deref(), Some("/h"));
    h.spec.readiness.timeout = Some("junk".to_owned());
    let e = readiness_wait(&h, LOCALHOST).unwrap_err();
    assert!(e.starts_with("alpha: readiness.timeout: "), "{e}");
}

// ---- memory ----------------------------------------------------------------

#[test]
fn parse_mem_available_finds_value_and_converts_kb_to_bytes() {
    let sample = "MemTotal:        1014820 kB\nMemFree:          123456 kB\nMemAvailable:     200000 kB\nBuffers:           12345 kB\n";
    assert_eq!(parse_mem_available(sample), Some(200_000 * 1024));
}

#[test]
fn parse_mem_available_returns_none_when_field_missing() {
    let sample = "MemTotal: 1024 kB\nMemFree: 512 kB\n";
    assert!(parse_mem_available(sample).is_none());
}

#[test]
fn parse_mem_available_tolerates_extra_whitespace() {
    let sample = "MemAvailable:\t  500 kB\n";
    assert_eq!(parse_mem_available(sample), Some(500 * 1024));
}

#[test]
fn only_the_first_line_of_memory_counts() {
    assert_eq!(parse_mem_available_kb("MemAvailable: x\nMemAvailable: 5 kB\n"), None);
    assert_eq!(parse_mem_available_kb("MemAvailable:\n"), None);
    assert_eq!(parse_mem_available_kb("MemAvailable:7\nMemAvailable: 5 kB\n"), Some(7));
}
