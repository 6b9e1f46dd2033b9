//! App specs: what to run, where to reach it, what it may use.

use vstd::prelude::*;
use vstd::string::StringExecFns;

use super::duration::{parse_span, plain_secs, span_of, Span};
use super::path::{file_stem, file_stem_of};
use super::validate::{
    label_fault, opt_text, or_fault, readiness_path_fault, repo_fault, reports,
    validate_dns_label, validate_readiness_path, validate_repo, validate_volumes, volumes_fault,
    Fault, InvalidSpec,
};
use crate::number::{all_digits, decimal, lemma_decimal_reads_back};
use crate::text::{same_str, trim, trim_end, trim_start, trimmed_str};

verus! {

/// One image rollout of an app. The app's `repo` and this tag together name the
/// image that is pulled and run.
#[derive(Debug)]
pub struct Rollout {
    /// Image tag, such as `v1.2.3`, a commit hash or `latest`.
    pub tag: String,
    /// RFC 3339 time at which the rollout was made.
    pub created_at: String,
}

impl Clone for Rollout {
    fn clone(&self) -> (r: Rollout)
        ensures
            r == *self,
    {
        Rollout { tag: self.tag.clone(), created_at: self.created_at.clone() }
    }
}

#[derive(Debug, Clone)]
pub struct AppSpec {
    /// Image repository without tag or digest, such as `ghcr.io/owner/myapp`.
    pub repo: String,
    pub port: u16,
    pub name: Option<String>,
    pub subdomain: Option<String>,
    pub egress: EgressSpec,
    /// Environment of the container: each variable and its value.
    pub env: Vec<(String, String)>,
    pub scaling: Scaling,
    pub readiness: Readiness,
    pub resources: Resources,
    /// Persistent volumes, mounted from `<state>/volumes/<app>/<name>/`.
    pub volumes: Vec<VolumeSpec>,
    /// The file that the spec was read from; empty if it came from elsewhere.
    pub source_path: String,
}

/// One persistent bind mount into a container.
#[derive(Debug, Clone)]
pub struct VolumeSpec {
    /// Identifier of the volume, unique within an app. A strict DNS label.
    pub name: String,
    /// Absolute mount point inside the container.
    pub path: String,
    /// User (and group) that the host directory is handed to at start time.
    pub user: Option<u32>,
}

/// Outbound destinations that an app may reach.
#[derive(Debug, Clone)]
pub struct EgressSpec {
    pub allow: Vec<String>,
}

impl Default for EgressSpec {
    fn default() -> (r: EgressSpec)
        ensures
            r.allow@.len() == 0,
    {
        EgressSpec { allow: Vec::new() }
    }
}

impl EgressSpec {
    pub fn is_empty(&self) -> (r: bool)
        ensures
            r == (self.allow@.len() == 0),
    {
        self.allow.len() == 0
    }
}

/// When an app goes to sleep.
#[derive(Debug, Clone)]
pub struct Scaling {
    /// Idle time after which the app is frozen: a span such as `30s` or
    /// `5m 30s`; five minutes where nothing is given; `0` or an empty text keep
    /// the app running.
    pub idle_timeout: Option<String>,
}

impl Default for Scaling {
    fn default() -> (r: Scaling)
        ensures
            r.idle_timeout is None,
    {
        Scaling { idle_timeout: None }
    }
}

impl Scaling {
    pub fn is_empty(&self) -> (r: bool)
        ensures
            r == (self.idle_timeout is None),
    {
        self.idle_timeout.is_none()
    }

    /// The text that decides: what is given, or the default, without the white
    /// space around it.
    pub open spec fn idle_text(self) -> Seq<char> {
        trim(
            match self.idle_timeout {
                Some(t) => t@,
                None => "5m"@,
            },
        )
    }

    /// The timeout that a text stands for. `None` means always on.
    pub open spec fn idle_timeout_of(text: Seq<char>) -> Result<Option<(u64, u32)>, Seq<char>> {
        if text.len() == 0 || text == "0"@ {
            Ok(None)
        } else {
            match span_of(text) {
                Ok(d) => Ok(Some(d)),
                Err(e) => Err("scaling.idle_timeout: "@ + e),
            }
        }
    }

    /// Resolve `idle_timeout`. `Ok(None)` means always on; `Ok(Some(d))` means
    /// freeze after `d` of idleness.
    pub fn resolve_idle_timeout(&self) -> (r: Result<Option<Span>, String>)
        ensures
            match r {
                Ok(None) => Scaling::idle_timeout_of(self.idle_text()) == Ok::<
                    Option<(u64, u32)>,
                    Seq<char>,
                >(None),
                Ok(Some(d)) => Scaling::idle_timeout_of(self.idle_text()) == Ok::<
                    Option<(u64, u32)>,
                    Seq<char>,
                >(Some((d.secs, d.nanos))),
                Err(e) => Scaling::idle_timeout_of(self.idle_text()) == Err::<
                    Option<(u64, u32)>,
                    Seq<char>,
                >(e@),
            },
            self.idle_timeout is None ==> r == Ok::<Option<Span>, String>(
                Some(Span { secs: 300, nanos: 0 }),
            ),
            forall|n: nat, u: char|
                self.idle_text() == #[trigger] decimal(n).push(u) && plain_secs(n, u) is Some
                    ==> r == Ok::<Option<Span>, String>(
                    Some(Span { secs: plain_secs(n, u)->0, nanos: 0 }),
                ),
            r == Ok::<Option<Span>, String>(None) <==> self.idle_text().len() == 0
                || self.idle_text() == "0"@,
            all_digits(self.idle_text(), 10) && self.idle_text().len() > 0 && self.idle_text()
                != "0"@ ==> r is Err,
            r matches Err(e) ==> "scaling.idle_timeout: "@.is_prefix_of(e@),
            r matches Ok(Some(d)) ==> d.wf(),
    {
        let raw = match &self.idle_timeout {
            Some(t) => trimmed_str(t.as_str()),
            None => trimmed_str("5m"),
        };
        proof {
            reveal_strlit("0");
            reveal_strlit("5m");
            assert("5m"@ =~= decimal(5).push('m'));
            assert forall|n: nat| (#[trigger] decimal(n)).len() > 0 by {
                lemma_decimal_reads_back(n);
            }
            assert(trim("5m"@) =~= "5m"@) by {
                reveal_with_fuel(trim_start, 2);
                reveal_with_fuel(trim_end, 2);
            }
        }
        if raw.as_str().is_empty() || same_str(raw.as_str(), "0") {
            return Ok(None);
        }
        match parse_span(raw.as_str()) {
            Ok(d) => Ok(Some(d)),
            Err(e) => {
                let mut message = String::from_str("scaling.idle_timeout: ");
                message.append(e.as_str());
                Err(message)
            },
        }
    }
}

/// How an app tells that it is ready.
#[derive(Debug, Clone)]
pub struct Readiness {
    /// How long to wait for the app after a cold start: a span such as `30s`.
    pub timeout: Option<String>,
    /// HTTP path that answers with a 2xx status once the app is ready. Without
    /// one, accepting connections on the port is enough.
    pub path: Option<String>,
}

impl Default for Readiness {
    fn default() -> (r: Readiness)
        ensures
            r.timeout is None,
            r.path is None,
    {
        Readiness { timeout: None, path: None }
    }
}

impl Readiness {
    pub fn is_empty(&self) -> (r: bool)
        ensures
            r == (self.timeout is None && self.path is None),
    {
        self.timeout.is_none() && self.path.is_none()
    }

    /// What is given as timeout, without the white space around it.
    pub open spec fn timeout_text(self) -> Seq<char> {
        trim(
            match self.timeout {
                Some(t) => t@,
                None => ""@,
            },
        )
    }

    /// The timeout that a text stands for; the default for an empty text.
    pub open spec fn timeout_of(text: Seq<char>, default: Span) -> Result<(u64, u32), Seq<char>> {
        if text.len() == 0 {
            Ok((default.secs, default.nanos))
        } else {
            match span_of(text) {
                Ok(d) => Ok(d),
                Err(e) => Err("readiness.timeout: "@ + e),
            }
        }
    }

    /// Resolve `timeout`, falling back to `default` when unset or empty.
    pub fn resolve_timeout(&self, default: Span) -> (r: Result<Span, String>)
        ensures
            r is Ok && default.wf() ==> r->Ok_0.wf(),
            match r {
                Ok(d) => Readiness::timeout_of(self.timeout_text(), default) == Ok::<
                    (u64, u32),
                    Seq<char>,
                >((d.secs, d.nanos)),
                Err(e) => Readiness::timeout_of(self.timeout_text(), default) == Err::<
                    (u64, u32),
                    Seq<char>,
                >(e@),
            },
            forall|n: nat, u: char|
                self.timeout_text() == #[trigger] decimal(n).push(u) && plain_secs(n, u) is Some
                    ==> r == Ok::<Span, String>((Span { secs: plain_secs(n, u)->0, nanos: 0 })),
            all_digits(self.timeout_text(), 10) && self.timeout_text().len() > 0
                && self.timeout_text() != "0"@ ==> r is Err,
            r matches Err(e) ==> "readiness.timeout: "@.is_prefix_of(e@),
    {
        let raw = match &self.timeout {
            Some(t) => trimmed_str(t.as_str()),
            None => trimmed_str(""),
        };
        if raw.as_str().is_empty() {
            return Ok(default);
        }
        match parse_span(raw.as_str()) {
            Ok(d) => Ok(d),
            Err(e) => {
                let mut message = String::from_str("readiness.timeout: ");
                message.append(e.as_str());
                Err(message)
            },
        }
    }
}

/// What a container may use of the host.
#[derive(Debug, Clone)]
pub struct Resources {
    pub memory: Option<String>,
    pub cpu: Option<String>,
}

impl Default for Resources {
    fn default() -> (r: Resources)
        ensures
            r.memory is None,
            r.cpu is None,
    {
        Resources { memory: None, cpu: None }
    }
}

/// Memory limit of an app that names none.
pub const DEFAULT_MEMORY: &'static str = "128MB";

/// CPU share of an app that names none: half a core.
pub const DEFAULT_CPU: &'static str = "0.5";

impl Resources {
    pub fn is_empty(&self) -> (r: bool)
        ensures
            r == (self.memory is None && self.cpu is None),
    {
        self.memory.is_none() && self.cpu.is_none()
    }

    /// Memory limit that applies at start time.
    pub fn effective_memory(&self) -> (r: &str)
        ensures
            r@ == (match self.memory {
                Some(m) => m@,
                None => DEFAULT_MEMORY@,
            }),
    {
        match &self.memory {
            Some(m) => m.as_str(),
            None => DEFAULT_MEMORY,
        }
    }

    /// CPU share that applies at start time.
    pub fn effective_cpu(&self) -> (r: &str)
        ensures
            r@ == (match self.cpu {
                Some(c) => c@,
                None => DEFAULT_CPU@,
            }),
    {
        match &self.cpu {
            Some(c) => c.as_str(),
            None => DEFAULT_CPU,
        }
    }
}

/// Immutable identity of a registered app. Name and subdomain pin it to a file,
/// a network namespace, a control group and a routing key.
#[derive(Debug, Clone)]
pub struct AppIdentity {
    pub name: String,
    pub subdomain: String,
}

impl AppIdentity {
    pub fn name(&self) -> (r: &str)
        ensures
            r@ == self.name@,
    {
        self.name.as_str()
    }

    pub fn subdomain(&self) -> (r: &str)
        ensures
            r@ == self.subdomain@,
    {
        self.subdomain.as_str()
    }
}

impl AppSpec {
    /// The app's name: the given one, else the stem of the file that the spec
    /// was read from, else `unknown`.
    pub open spec fn name_text(self) -> Seq<char> {
        match self.name {
            Some(n) => n@,
            None => match file_stem(self.source_path@) {
                Some(s) => s,
                None => "unknown"@,
            },
        }
    }

    /// The app's subdomain: the given one, else the app's name.
    pub open spec fn subdomain_text(self) -> Seq<char> {
        match self.subdomain {
            Some(s) => s@,
            None => self.name_text(),
        }
    }

    /// The spec gives a name, and another one than this.
    pub open spec fn names_another(self, name: Seq<char>) -> bool {
        self.name matches Some(n) && n@ != name
    }

    /// The first thing that is wrong with the spec, if anything.
    pub open spec fn fault(self) -> Option<Fault> {
        if self.name is None && file_stem(self.source_path@) is None {
            Some(
                Fault {
                    field: "name"@,
                    value: seq![],
                    reason: "name is required when the spec has no inferrable source path"@,
                },
            )
        } else {
            or_fault(
                label_fault("name"@, self.name_text()),
                or_fault(
                    label_fault("subdomain"@, self.subdomain_text()),
                    or_fault(
                        repo_fault(self.repo@),
                        or_fault(
                            volumes_fault(self.volumes@),
                            readiness_path_fault(opt_text(self.readiness.path)),
                        ),
                    ),
                ),
            )
        }
    }

    pub fn gives_another_name(&self, name: &str) -> (r: bool)
        ensures
            r == self.names_another(name@),
    {
        match &self.name {
            Some(n) => !same_str(n.as_str(), name),
            None => false,
        }
    }

    pub fn name(&self) -> (r: String)
        ensures
            r@ == self.name_text(),
    {
        match &self.name {
            Some(n) => n.clone(),
            None => match file_stem_of(self.source_path.as_str()) {
                Some(s) => s,
                None => String::from_str("unknown"),
            },
        }
    }

    pub fn subdomain(&self) -> (r: String)
        ensures
            r@ == self.subdomain_text(),
    {
        match &self.subdomain {
            Some(s) => s.clone(),
            None => self.name(),
        }
    }

    /// The identity of a spec that passes validation.
    pub fn identity(&self) -> (r: Result<AppIdentity, InvalidSpec>)
        ensures
            match r {
                Ok(id) => self.fault() is None && id.name@ == self.name_text() && id.subdomain@
                    == self.subdomain_text(),
                Err(e) => self.fault() == Some(e@),
            },
    {
        match self.validate() {
            Ok(_) => Ok(AppIdentity { name: self.name(), subdomain: self.subdomain() }),
            Err(e) => Err(e),
        }
    }

    /// Reject specs whose texts would end up where they do no good: name and
    /// subdomain become file, namespace and host names and have to be strict
    /// DNS labels; repository, volumes and readiness path have rules of their
    /// own.
    pub fn validate(&self) -> (r: Result<(), InvalidSpec>)
        ensures
            reports(r, self.fault()),
    {
        if self.name.is_none() && file_stem_of(self.source_path.as_str()).is_none() {
            let value = String::new();
            return Err(
                InvalidSpec {
                    field: "name",
                    value,
                    reason: "name is required when the spec has no inferrable source path",
                },
            );
        }
        let name = self.name();
        match validate_dns_label("name", name.as_str()) {
            Ok(_) => {},
            Err(e) => {
                return Err(e);
            },
        }
        let subdomain = self.subdomain();
        match validate_dns_label("subdomain", subdomain.as_str()) {
            Ok(_) => {},
            Err(e) => {
                return Err(e);
            },
        }
        match validate_repo(self.repo.as_str()) {
            Ok(_) => {},
            Err(e) => {
                return Err(e);
            },
        }
        match validate_volumes(&self.volumes) {
            Ok(_) => {},
            Err(e) => {
                return Err(e);
            },
        }
        match &self.readiness.path {
            Some(p) => validate_readiness_path(Some(p.as_str())),
            None => validate_readiness_path(None),
        }
    }
}

/// A spec that passes validation names an app and a subdomain that are strict
/// DNS labels, a repository without tag and digest, and sound volumes.
pub proof fn lemma_valid_spec(spec: AppSpec)
    requires
        spec.fault() is None,
    ensures
        super::validate::is_dns_label(spec.name_text()),
        super::validate::is_dns_label(spec.subdomain_text()),
        spec.repo@.len() > 0,
        !spec.repo@.contains('@'),
        !super::validate::last_piece(spec.repo@).contains(':'),
        super::validate::volumes_sound(spec.volumes@),
        spec.readiness.path is Some ==> spec.readiness.path->0@.len() > 0
            && spec.readiness.path->0@[0] == '/',
{
    super::validate::lemma_label_fault_iff("name"@, spec.name_text());
    super::validate::lemma_label_fault_iff("subdomain"@, spec.subdomain_text());
    super::validate::lemma_volumes_fault_iff(spec.volumes@);
}

/// Where nothing is given the idle timeout is read from `5m`; else from what is
/// given, without the white space around it.
pub proof fn lemma_idle_text(s: Scaling)
    ensures
        s.idle_timeout matches Some(t) ==> s.idle_text() == trim(t@),
        s.idle_timeout is None ==> s.idle_text() == seq!['5', 'm'],
{
    reveal_strlit("5m");
    assert("5m"@ =~= seq!['5', 'm']);
    assert(trim("5m"@) =~= "5m"@) by {
        reveal_with_fuel(trim_start, 2);
        reveal_with_fuel(trim_end, 2);
    }
}

/// An app is always on exactly if its idle timeout is empty or a plain nought.
/// Any other text is read as a span of time, or is an error that names the
/// field.
pub proof fn lemma_idle_timeout_of(text: Seq<char>, secs: u64, nanos: u32, e: Seq<char>)
    ensures
        Scaling::idle_timeout_of(text) == Ok::<Option<(u64, u32)>, Seq<char>>(None) <==> text.len()
            == 0 || (text.len() == 1 && text[0] == '0'),
        text.len() > 1 || (text.len() == 1 && text[0] != '0') ==> {
            &&& span_of(text) == Ok::<(u64, u32), Seq<char>>((secs, nanos)) <==>
                Scaling::idle_timeout_of(text) == Ok::<Option<(u64, u32)>, Seq<char>>(
                Some((secs, nanos)),
            )
            &&& span_of(text) == Err::<(u64, u32), Seq<char>>(e) ==> Scaling::idle_timeout_of(text)
                == Err::<Option<(u64, u32)>, Seq<char>>("scaling.idle_timeout: "@ + e)
        },
{
    reveal_strlit("0");
    if text.len() == 1 && text[0] == '0' {
        assert(text =~= "0"@);
    }
}

/// The time that an app gets to come up is the default where none or a blank one
/// is given, and else what the text says, or an error that names the field.
pub proof fn lemma_timeout_of(r: Readiness, text: Seq<char>, default: Span, e: Seq<char>)
    ensures
        r.timeout matches Some(t) ==> r.timeout_text() == trim(t@),
        r.timeout is None ==> r.timeout_text().len() == 0,
        text.len() == 0 ==> Readiness::timeout_of(text, default) == Ok::<(u64, u32), Seq<char>>(
            (default.secs, default.nanos),
        ),
        text.len() > 0 && span_of(text) is Ok ==> Readiness::timeout_of(text, default) == span_of(
            text,
        ),
        text.len() > 0 && span_of(text) == Err::<(u64, u32), Seq<char>>(e) ==> Readiness::timeout_of(
            text,
            default,
        ) == Err::<(u64, u32), Seq<char>>("readiness.timeout: "@ + e),
{
    reveal_strlit("");
    assert(trim(""@).len() == 0);
}

/// An app is called what its spec says, else after the file of the spec, else
/// `unknown`. It is found at the subdomain that its spec gives, else at its name.
pub proof fn lemma_names(spec: AppSpec, name: Seq<char>)
    ensures
        spec.name matches Some(n) ==> spec.name_text() == n@,
        spec.name is None && file_stem(spec.source_path@) is Some ==> Some(spec.name_text())
            == file_stem(spec.source_path@),
        spec.name is None && file_stem(spec.source_path@) is None ==> spec.name_text()
            == "unknown"@,
        spec.subdomain matches Some(s) ==> spec.subdomain_text() == s@,
        spec.subdomain is None ==> spec.subdomain_text() == spec.name_text(),
        spec.names_another(name) <==> spec.name is Some && spec.name->0@ != name,
{
}

/// A spec passes exactly if it has a name, given or taken from its file, and
/// nothing is wrong with its name, its subdomain, its repository, its volumes and
/// its readiness path; else the first of these that is wrong is reported.
pub proof fn lemma_spec_fault(spec: AppSpec)
    ensures
        ({
            let named = label_fault("name"@, spec.name_text());
            let placed = label_fault("subdomain"@, spec.subdomain_text());
            let repo = repo_fault(spec.repo@);
            let volumes = volumes_fault(spec.volumes@);
            let path = match spec.readiness.path {
                Some(p) => readiness_path_fault(Some(p@)),
                None => None,
            };
            if spec.name is None && file_stem(spec.source_path@) is None {
                spec.fault() matches Some(f) && f.field == "name"@ && f.value.len() == 0 && f.reason
                    == "name is required when the spec has no inferrable source path"@
            } else {
                &&& spec.fault() is None <==> named is None && placed is None && repo is None
                    && volumes is None && path is None
                &&& named is Some ==> spec.fault() == named
                &&& named is None && placed is Some ==> spec.fault() == placed
                &&& named is None && placed is None && repo is Some ==> spec.fault() == repo
                &&& named is None && placed is None && repo is None && volumes is Some
                    ==> spec.fault() == volumes
                &&& named is None && placed is None && repo is None && volumes is None
                    ==> spec.fault() == path
            }
        }),
{
}

/// What an app gets where its spec says nothing.
pub proof fn lemma_default_resources()
    ensures
        DEFAULT_MEMORY@ == "128MB"@,
        DEFAULT_CPU@ == "0.5"@,
{
}

} // verus!
