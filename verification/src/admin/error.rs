//! How failures are answered over HTTP.

use vstd::prelude::*;

use crate::apps::error::{DeployError, RemoveError, RolloutError, UpdateError};

verus! {

pub const BAD_REQUEST: u16 = 400;

pub const NOT_FOUND: u16 = 404;

pub const CONFLICT: u16 = 409;

pub const TOO_MANY_REQUESTS: u16 = 429;

pub const INTERNAL_SERVER_ERROR: u16 = 500;

pub const BAD_GATEWAY: u16 = 502;

/// A status and what is told with it.
#[derive(Debug)]
pub struct AdminError {
    pub status: u16,
    pub message: String,
}

pub open spec fn deploy_status(e: DeployError) -> u16 {
    match e {
        DeployError::MissingName => BAD_REQUEST,
        DeployError::InvalidSpec(_) => BAD_REQUEST,
        DeployError::AlreadyExists(_) => CONFLICT,
        DeployError::SubdomainTaken(_) => CONFLICT,
        DeployError::ImageAuth(_) => BAD_GATEWAY,
        DeployError::ImagePull(_) => BAD_GATEWAY,
        DeployError::StartFailed(_) => INTERNAL_SERVER_ERROR,
        DeployError::Internal(_) => INTERNAL_SERVER_ERROR,
    }
}

pub open spec fn update_status(e: UpdateError) -> u16 {
    match e {
        UpdateError::InvalidSpec(_) => BAD_REQUEST,
        UpdateError::NameImmutable => BAD_REQUEST,
        UpdateError::SubdomainImmutable => BAD_REQUEST,
        UpdateError::Conflict(_) => CONFLICT,
        UpdateError::RestartFailed(_) => INTERNAL_SERVER_ERROR,
        UpdateError::Internal(_) => INTERNAL_SERVER_ERROR,
    }
}

pub open spec fn rollout_status(e: RolloutError) -> u16 {
    match e {
        RolloutError::EmptyTag => BAD_REQUEST,
        RolloutError::Conflict(_) => CONFLICT,
        RolloutError::ImageAuth(_) => BAD_GATEWAY,
        RolloutError::ImagePull(_) => BAD_GATEWAY,
        RolloutError::StartFailed(_) => INTERNAL_SERVER_ERROR,
        RolloutError::Internal(_) => INTERNAL_SERVER_ERROR,
    }
}

impl AdminError {
    pub open spec fn says(self, status: u16, message: Seq<char>) -> bool {
        self.status == status && self.message@ == message
    }

    pub fn new(status: u16, message: String) -> (r: AdminError)
        ensures
            r.says(status, message@),
    {
        AdminError { status, message }
    }

    pub fn from_deploy(e: &DeployError) -> (r: AdminError)
        ensures
            r.says(deploy_status(*e), e.text()),
    {
        let status = match e {
            DeployError::MissingName => BAD_REQUEST,
            DeployError::InvalidSpec(_) => BAD_REQUEST,
            DeployError::AlreadyExists(_) => CONFLICT,
            DeployError::SubdomainTaken(_) => CONFLICT,
            DeployError::ImageAuth(_) => BAD_GATEWAY,
            DeployError::ImagePull(_) => BAD_GATEWAY,
            DeployError::StartFailed(_) => INTERNAL_SERVER_ERROR,
            DeployError::Internal(_) => INTERNAL_SERVER_ERROR,
        };
        AdminError { status, message: e.message() }
    }

    pub fn from_remove(e: &RemoveError) -> (r: AdminError)
        ensures
            r.says(INTERNAL_SERVER_ERROR, e.text()),
    {
        AdminError { status: INTERNAL_SERVER_ERROR, message: e.message() }
    }

    pub fn from_update(e: &UpdateError) -> (r: AdminError)
        ensures
            r.says(update_status(*e), e.text()),
    {
        let status = match e {
            UpdateError::InvalidSpec(_) => BAD_REQUEST,
            UpdateError::NameImmutable => BAD_REQUEST,
            UpdateError::SubdomainImmutable => BAD_REQUEST,
            UpdateError::Conflict(_) => CONFLICT,
            UpdateError::RestartFailed(_) => INTERNAL_SERVER_ERROR,
            UpdateError::Internal(_) => INTERNAL_SERVER_ERROR,
        };
        AdminError { status, message: e.message() }
    }

    pub fn from_rollout(e: &RolloutError) -> (r: AdminError)
        ensures
            r.says(rollout_status(*e), e.text()),
    {
        let status = match e {
            RolloutError::EmptyTag => BAD_REQUEST,
            RolloutError::Conflict(_) => CONFLICT,
            RolloutError::ImageAuth(_) => BAD_GATEWAY,
            RolloutError::ImagePull(_) => BAD_GATEWAY,
            RolloutError::StartFailed(_) => INTERNAL_SERVER_ERROR,
            RolloutError::Internal(_) => INTERNAL_SERVER_ERROR,
        };
        AdminError { status, message: e.message() }
    }

    /// The fault lies on the server's side and is worth a line in the log.
    pub fn is_server_error(&self) -> (r: bool)
        ensures
            r == (500 <= self.status < 600),
    {
        500 <= self.status && self.status < 600
    }
}

/// What is at fault decides the kind of status: the request where it can be put
/// right by whoever sent it, the server otherwise.
pub proof fn lemma_refusals_are_not_server_errors(d: DeployError, u: UpdateError, r: RolloutError)
    ensures
        deploy_status(d) < 500 <==> (d is MissingName || d is InvalidSpec || d is AlreadyExists
            || d is SubdomainTaken),
        update_status(u) < 500 <==> !(u is RestartFailed || u is Internal),
        rollout_status(r) < 500 <==> (r is EmptyTag || r is Conflict),
{
}

/// Each failure is answered with its own status: what the caller can put right
/// with 400, what is in the way with 409, a registry that refuses with 502, and
/// the rest with 500.
pub proof fn lemma_statuses(d: DeployError, u: UpdateError, r: RolloutError)
    ensures
        d is MissingName || d is InvalidSpec <==> deploy_status(d) == 400,
        d is AlreadyExists || d is SubdomainTaken <==> deploy_status(d) == 409,
        d is ImageAuth || d is ImagePull <==> deploy_status(d) == 502,
        d is StartFailed || d is Internal <==> deploy_status(d) == 500,
        u is InvalidSpec || u is NameImmutable || u is SubdomainImmutable <==> update_status(u)
            == 400,
        u is Conflict <==> update_status(u) == 409,
        u is RestartFailed || u is Internal <==> update_status(u) == 500,
        r is EmptyTag <==> rollout_status(r) == 400,
        r is Conflict <==> rollout_status(r) == 409,
        r is ImageAuth || r is ImagePull <==> rollout_status(r) == 502,
        r is StartFailed || r is Internal <==> rollout_status(r) == 500,
        NOT_FOUND == 404,
        TOO_MANY_REQUESTS == 429,
        BAD_REQUEST == 400,
        INTERNAL_SERVER_ERROR == 500,
{
}

/// An answer says a status and a message where it has both.
pub proof fn lemma_says(a: AdminError, status: u16, message: Seq<char>)
    requires
        a.says(status, message),
    ensures
        a.status == status,
        a.message@ == message,
{
}

} // verus!
