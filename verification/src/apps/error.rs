//! What can go wrong with an operation on an app.

use vstd::prelude::*;
use vstd::string::StringExecFns;

use crate::config::auth::{quote, quoted};
use crate::config::validate::{Fault, InvalidSpec};

verus! {

impl InvalidSpec {
    /// What is told of a fault.
    pub open spec fn text(self) -> Seq<char> {
        fault_text(self@)
    }

    pub fn message(&self) -> (r: String)
        ensures
            r@ == self.text(),
    {
        let mut r = String::from_str("invalid ");
        r.append(self.field);
        r.append(": ");
        r.append(self.reason);
        r.append(" (value=");
        r.append(quote(self.value.as_str()).as_str());
        r.append(")");
        r
    }
}

/// What is told of a fault.
pub open spec fn fault_text(f: Fault) -> Seq<char> {
    "invalid "@ + f.field + ": "@ + f.reason + " (value="@ + quoted(f.value) + ")"@
}

fn join2(a: &str, b: &str) -> (r: String)
    ensures
        r@ == a@ + b@,
{
    let mut r = String::from_str(a);
    r.append(b);
    r
}

fn join3(a: &str, b: &str, c: &str) -> (r: String)
    ensures
        r@ == a@ + b@ + c@,
{
    let mut r = String::from_str(a);
    r.append(b);
    r.append(c);
    r
}

/// Why an app could not be registered.
#[derive(Debug)]
pub enum DeployError {
    MissingName,
    InvalidSpec(InvalidSpec),
    AlreadyExists(String),
    SubdomainTaken(String),
    /// The registry did not accept the credentials.
    ImageAuth(String),
    ImagePull(String),
    StartFailed(String),
    Internal(String),
}

impl DeployError {
    pub open spec fn text(self) -> Seq<char> {
        match self {
            DeployError::MissingName => "spec.name is required for deploy"@,
            DeployError::InvalidSpec(e) => "invalid spec: "@ + e.text(),
            DeployError::AlreadyExists(n) => "app '"@ + n@ + "' already exists"@,
            DeployError::SubdomainTaken(s) => "subdomain '"@ + s@ + "' already in use"@,
            DeployError::ImageAuth(e) => "registry authentication failed: "@ + e@,
            DeployError::ImagePull(e) => "image pull failed: "@ + e@,
            DeployError::StartFailed(e) => "eager start failed: "@ + e@,
            DeployError::Internal(e) => e@,
        }
    }

    pub fn message(&self) -> (r: String)
        ensures
            r@ == self.text(),
    {
        match self {
            DeployError::MissingName => String::from_str("spec.name is required for deploy"),
            DeployError::InvalidSpec(e) => join2("invalid spec: ", e.message().as_str()),
            DeployError::AlreadyExists(n) => join3("app '", n.as_str(), "' already exists"),
            DeployError::SubdomainTaken(s) => join3(
                "subdomain '",
                s.as_str(),
                "' already in use",
            ),
            DeployError::ImageAuth(e) => join2("registry authentication failed: ", e.as_str()),
            DeployError::ImagePull(e) => join2("image pull failed: ", e.as_str()),
            DeployError::StartFailed(e) => join2("eager start failed: ", e.as_str()),
            DeployError::Internal(e) => e.clone(),
        }
    }
}

/// Why an app could not be removed.
#[derive(Debug)]
pub enum RemoveError {
    Internal(String),
}

impl RemoveError {
    pub open spec fn text(self) -> Seq<char> {
        match self {
            RemoveError::Internal(e) => e@,
        }
    }

    pub fn message(&self) -> (r: String)
        ensures
            r@ == self.text(),
    {
        match self {
            RemoveError::Internal(e) => e.clone(),
        }
    }
}

/// Why a rollout did not come about.
#[derive(Debug)]
pub enum RolloutError {
    EmptyTag,
    ImageAuth(String),
    ImagePull(String),
    /// The app is between two states; the caller may try again.
    Conflict(String),
    /// The rollout is recorded but the app did not come up under it.
    StartFailed(String),
    Internal(String),
}

impl RolloutError {
    pub open spec fn text(self) -> Seq<char> {
        match self {
            RolloutError::EmptyTag => "rollout tag must not be empty"@,
            RolloutError::ImageAuth(e) => "registry authentication failed: "@ + e@,
            RolloutError::ImagePull(e) => "image pull failed: "@ + e@,
            RolloutError::Conflict(n) => "app '"@ + n@
                + "' is currently transitioning state; retry"@,
            RolloutError::StartFailed(e) => "rollout started but app failed to come up: "@ + e@,
            RolloutError::Internal(e) => e@,
        }
    }

    pub fn message(&self) -> (r: String)
        ensures
            r@ == self.text(),
    {
        match self {
            RolloutError::EmptyTag => String::from_str("rollout tag must not be empty"),
            RolloutError::ImageAuth(e) => join2("registry authentication failed: ", e.as_str()),
            RolloutError::ImagePull(e) => join2("image pull failed: ", e.as_str()),
            RolloutError::Conflict(n) => join3(
                "app '",
                n.as_str(),
                "' is currently transitioning state; retry",
            ),
            RolloutError::StartFailed(e) => join2(
                "rollout started but app failed to come up: ",
                e.as_str(),
            ),
            RolloutError::Internal(e) => e.clone(),
        }
    }
}

/// Why an app's spec could not be replaced.
#[derive(Debug)]
pub enum UpdateError {
    InvalidSpec(InvalidSpec),
    NameImmutable,
    SubdomainImmutable,
    /// The app is between two states; the caller may try again.
    Conflict(String),
    /// The new spec is kept but the app did not come up under it.
    RestartFailed(String),
    Internal(String),
}

impl UpdateError {
    pub open spec fn text(self) -> Seq<char> {
        match self {
            UpdateError::InvalidSpec(e) => "invalid spec: "@ + e.text(),
            UpdateError::NameImmutable => "name is immutable; delete + recreate to rename"@,
            UpdateError::SubdomainImmutable =>
            "subdomain is immutable; delete + recreate to change"@,
            UpdateError::Conflict(n) => "app '"@ + n@
                + "' is currently transitioning state; retry"@,
            UpdateError::RestartFailed(e) => "config updated but app failed to restart: "@ + e@,
            UpdateError::Internal(e) => e@,
        }
    }

    pub fn message(&self) -> (r: String)
        ensures
            r@ == self.text(),
    {
        match self {
            UpdateError::InvalidSpec(e) => join2("invalid spec: ", e.message().as_str()),
            UpdateError::NameImmutable => String::from_str(
                "name is immutable; delete + recreate to rename",
            ),
            UpdateError::SubdomainImmutable => String::from_str(
                "subdomain is immutable; delete + recreate to change",
            ),
            UpdateError::Conflict(n) => join3(
                "app '",
                n.as_str(),
                "' is currently transitioning state; retry",
            ),
            UpdateError::RestartFailed(e) => join2(
                "config updated but app failed to restart: ",
                e.as_str(),
            ),
            UpdateError::Internal(e) => e.clone(),
        }
    }
}

/// What is told of a pull that failed: the image, the app and the reason.
pub open spec fn pull_failure(image_ref: Seq<char>, name: Seq<char>, reason: Seq<char>) -> Seq<
    char,
> {
    "pull "@ + image_ref + " for "@ + name + ": "@ + reason
}

/// Tell a pull that the registry refused for lack of credentials from one that
/// failed otherwise.
pub fn classify_pull_error_for_rollout(
    is_auth: bool,
    reason: &str,
    name: &str,
    image_ref: &str,
) -> (r: RolloutError)
    ensures
        match r {
            RolloutError::ImageAuth(m) => is_auth && m@ == pull_failure(image_ref@, name@, reason@),
            RolloutError::ImagePull(m) => !is_auth && m@ == pull_failure(
                image_ref@,
                name@,
                reason@,
            ),
            _ => false,
        },
{
    let mut m = String::from_str("pull ");
    m.append(image_ref);
    m.append(" for ");
    m.append(name);
    m.append(": ");
    m.append(reason);
    if is_auth {
        RolloutError::ImageAuth(m)
    } else {
        RolloutError::ImagePull(m)
    }
}

/// What is told of a fault: the field, the reason and, in quotes, the value.
pub proof fn lemma_fault_text(e: InvalidSpec)
    ensures
        e.text() == "invalid "@ + e.field@ + ": "@ + e.reason@ + " (value="@ + quoted(e.value@)
            + ")"@,
        fault_text(e@) == e.text(),
{
}

/// What is told of each failure, and of what it is about.
pub proof fn lemma_error_texts(s: String, f: InvalidSpec)
    ensures
        DeployError::MissingName.text() == "spec.name is required for deploy"@,
        DeployError::InvalidSpec(f).text() == "invalid spec: "@ + f.text(),
        DeployError::AlreadyExists(s).text() == "app '"@ + s@ + "' already exists"@,
        DeployError::SubdomainTaken(s).text() == "subdomain '"@ + s@ + "' already in use"@,
        DeployError::ImageAuth(s).text() == "registry authentication failed: "@ + s@,
        DeployError::ImagePull(s).text() == "image pull failed: "@ + s@,
        DeployError::StartFailed(s).text() == "eager start failed: "@ + s@,
        DeployError::Internal(s).text() == s@,
        RemoveError::Internal(s).text() == s@,
        RolloutError::EmptyTag.text() == "rollout tag must not be empty"@,
        RolloutError::ImageAuth(s).text() == "registry authentication failed: "@ + s@,
        RolloutError::ImagePull(s).text() == "image pull failed: "@ + s@,
        RolloutError::Conflict(s).text() == "app '"@ + s@
            + "' is currently transitioning state; retry"@,
        RolloutError::StartFailed(s).text() == "rollout started but app failed to come up: "@ + s@,
        RolloutError::Internal(s).text() == s@,
        UpdateError::InvalidSpec(f).text() == "invalid spec: "@ + f.text(),
        UpdateError::NameImmutable.text() == "name is immutable; delete + recreate to rename"@,
        UpdateError::SubdomainImmutable.text()
            == "subdomain is immutable; delete + recreate to change"@,
        UpdateError::Conflict(s).text() == "app '"@ + s@
            + "' is currently transitioning state; retry"@,
        UpdateError::RestartFailed(s).text() == "config updated but app failed to restart: "@ + s@,
        UpdateError::Internal(s).text() == s@,
{
}

/// What is told of a pull that failed: the image, then the app, then the reason.
pub proof fn lemma_pull_failure(image_ref: Seq<char>, name: Seq<char>, reason: Seq<char>)
    ensures
        pull_failure(image_ref, name, reason) == "pull "@ + image_ref + " for "@ + name + ": "@
            + reason,
{
}

} // verus!
