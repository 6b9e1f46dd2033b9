//! What is shown of an app.

use vstd::prelude::*;

use super::handle::{AppHandle, AppState};
use crate::config::spec::Rollout;

verus! {

/// The state of an app, as it is shown.
#[derive(Debug, Clone, Copy, PartialEq, Eq, Structural)]
pub enum AppStateView {
    Stopped,
    Starting,
    Running,
    Frozen,
    Stopping,
}

impl AppStateView {
    /// The word for the state.
    pub open spec fn word(self) -> Seq<char> {
        match self {
            AppStateView::Stopped => "stopped"@,
            AppStateView::Starting => "starting"@,
            AppStateView::Running => "running"@,
            AppStateView::Frozen => "frozen"@,
            AppStateView::Stopping => "stopping"@,
        }
    }

    pub fn as_str(self) -> (r: &'static str)
        ensures
            r@ == self.word(),
    {
        match self {
            AppStateView::Stopped => "stopped",
            AppStateView::Starting => "starting",
            AppStateView::Running => "running",
            AppStateView::Frozen => "frozen",
            AppStateView::Stopping => "stopping",
        }
    }
}

/// What is shown of an app.
#[derive(Debug)]
pub struct AppView {
    pub name: String,
    pub subdomain: String,
    pub repo: String,
    pub port: u16,
    pub state: AppStateView,
    /// None if the app has never been rolled out.
    pub current_rollout: Option<Rollout>,
}

/// How a state is shown.
pub open spec fn shown_state(s: AppState) -> AppStateView {
    match s {
        AppState::Stopped => AppStateView::Stopped,
        AppState::Starting => AppStateView::Starting,
        AppState::Running { .. } => AppStateView::Running,
        AppState::Frozen { .. } => AppStateView::Frozen,
        AppState::Stopping => AppStateView::Stopping,
    }
}

/// The view shows the app.
pub open spec fn shows(v: AppView, h: AppHandle) -> bool {
    &&& v.name@ == h.identity.name@
    &&& v.subdomain@ == h.identity.subdomain@
    &&& v.repo@ == h.spec.repo@
    &&& v.port == h.spec.port
    &&& v.state == shown_state(h.inner.state)
    &&& match v.current_rollout {
        Some(x) => h.inner.rollouts@.len() > 0 && x == h.inner.rollouts@.last(),
        None => h.inner.rollouts@.len() == 0,
    }
}

pub fn view_of(handle: &AppHandle) -> (r: AppView)
    ensures
        shows(r, *handle),
{
    let state = match handle.inner.state {
        AppState::Stopped => AppStateView::Stopped,
        AppState::Starting => AppStateView::Starting,
        AppState::Running { .. } => AppStateView::Running,
        AppState::Frozen { .. } => AppStateView::Frozen,
        AppState::Stopping => AppStateView::Stopping,
    };
    let current_rollout = match handle.inner.current_rollout() {
        Some(x) => Some(x.clone()),
        None => None,
    };
    AppView {
        name: handle.identity.name.clone(),
        subdomain: handle.identity.subdomain.clone(),
        repo: handle.spec.repo.clone(),
        port: handle.spec.port,
        state,
        current_rollout,
    }
}

/// Each state has its own word.
pub proof fn lemma_state_words(s: AppState)
    ensures
        shown_state(s).word() == match s {
            AppState::Stopped => "stopped"@,
            AppState::Starting => "starting"@,
            AppState::Running { .. } => "running"@,
            AppState::Frozen { .. } => "frozen"@,
            AppState::Stopping => "stopping"@,
        },
{
}

/// What is shown of an app is its own: name, subdomain, repository, port, state
/// and the newest rollout, if there is one.
pub proof fn lemma_shows(v: AppView, h: AppHandle)
    requires
        shows(v, h),
    ensures
        v.name@ == h.identity.name@,
        v.subdomain@ == h.identity.subdomain@,
        v.repo@ == h.spec.repo@,
        v.port == h.spec.port,
        v.state is Stopped <==> h.inner.state is Stopped,
        v.state is Starting <==> h.inner.state is Starting,
        v.state is Running <==> h.inner.state is Running,
        v.state is Frozen <==> h.inner.state is Frozen,
        v.state is Stopping <==> h.inner.state is Stopping,
        v.current_rollout is None <==> h.inner.rollouts@.len() == 0,
        v.current_rollout matches Some(x) ==> x == h.inner.rollouts@[h.inner.rollouts@.len() - 1],
{
}

} // verus!
