//! The rules an app spec has to meet before anything is done with it.

use vstd::prelude::*;
use vstd::utf8::encode_utf8;

use super::path::{contains_dot_dot, has_dot_dot, is_absolute, normal_absolute, normalise_absolute};
use super::spec::VolumeSpec;
use crate::text::{chars_of, has_char, pieces, same, same_str, split, split_on};

verus! {

/// Reason an `AppSpec` field failed validation.
#[derive(Debug)]
pub struct InvalidSpec {
    pub field: &'static str,
    pub value: String,
    pub reason: &'static str,
}

/// What an `InvalidSpec` says, as text.
pub struct Fault {
    pub field: Seq<char>,
    pub value: Seq<char>,
    pub reason: Seq<char>,
}

impl View for InvalidSpec {
    type V = Fault;

    open spec fn view(&self) -> Fault {
        Fault { field: self.field@, value: self.value@, reason: self.reason@ }
    }
}

/// The result of a check reports the fault that the rules name.
pub open spec fn reports(r: Result<(), InvalidSpec>, fault: Option<Fault>) -> bool {
    match r {
        Ok(_) => fault is None,
        Err(e) => fault == Some(e@),
    }
}

/// The fault found first.
pub open spec fn or_fault(a: Option<Fault>, b: Option<Fault>) -> Option<Fault> {
    match a {
        Some(f) => Some(f),
        None => b,
    }
}

// ---- labels ----------------------------------------------------------------

/// A character of a DNS label: a small ASCII letter, a digit or a hyphen.
pub open spec fn is_label_char(c: char) -> bool {
    ('a' <= c && c <= 'z') || ('0' <= c && c <= '9') || c == '-'
}

/// A strict DNS label: one to 63 small ASCII letters, digits and hyphens, no
/// hyphen at either end.
pub open spec fn is_dns_label(s: Seq<char>) -> bool {
    &&& 1 <= s.len() <= 63
    &&& s[0] != '-'
    &&& s.last() != '-'
    &&& forall|i: int| 0 <= i < s.len() ==> is_label_char(#[trigger] s[i])
}

/// What is wrong with a label, if anything. The length counts bytes.
pub open spec fn label_fault(field: Seq<char>, s: Seq<char>) -> Option<Fault> {
    if s.len() == 0 {
        Some(Fault { field, value: s, reason: "must not be empty"@ })
    } else if encode_utf8(s).len() > 63 {
        Some(Fault { field, value: s, reason: "must be at most 63 characters"@ })
    } else if s[0] == '-' || s.last() == '-' {
        Some(Fault { field, value: s, reason: "must not start or end with '-'"@ })
    } else if exists|i: int| 0 <= i < s.len() && !is_label_char(#[trigger] s[i]) {
        Some(
            Fault {
                field,
                value: s,
                reason: "must contain only lowercase ASCII letters, digits, and '-'"@,
            },
        )
    } else {
        None
    }
}

/// Characters of labels take one byte each.
proof fn lemma_label_bytes(s: Seq<char>)
    requires
        forall|i: int| 0 <= i < s.len() ==> is_label_char(#[trigger] s[i]),
    ensures
        encode_utf8(s).len() == s.len(),
{
    assert(vstd::utf8::is_ascii_chars(s)) by {
        assert forall|i: int| 0 <= i < s.len() implies 0 <= (#[trigger] s[i]) as nat <= 127 by {
            assert(is_label_char(s[i]));
        }
    }
    vstd::utf8::is_ascii_chars_encode_utf8(s);
}

/// Nothing is wrong with a label exactly when it is a strict DNS label.
pub proof fn lemma_label_fault_iff(field: Seq<char>, s: Seq<char>)
    ensures
        label_fault(field, s) is None <==> is_dns_label(s),
{
    if is_dns_label(s) {
        lemma_label_bytes(s);
    }
    if label_fault(field, s) is None {
        assert forall|i: int| 0 <= i < s.len() implies is_label_char(#[trigger] s[i]) by {}
        lemma_label_bytes(s);
    }
}

/// A strict DNS label holds no slash, no dot and no white space: as a file or
/// namespace name it stays where it is put.
pub proof fn lemma_label_stays_in_place(s: Seq<char>)
    requires
        is_dns_label(s),
    ensures
        !s.contains('/'),
        !s.contains('.'),
        !s.contains('\0'),
        forall|i: int| 0 <= i < s.len() ==> !crate::text::is_white(#[trigger] s[i]),
{
    assert forall|i: int| 0 <= i < s.len() implies s[i] != '/' && s[i] != '.' && s[i] != '\0'
        && !crate::text::is_white(#[trigger] s[i]) by {
        assert(is_label_char(s[i]));
    }
}

pub fn validate_dns_label(field: &'static str, s: &str) -> (r: Result<(), InvalidSpec>)
    ensures
        reports(r, label_fault(field@, s@)),
{
    let v = chars_of(s);
    if v.len() == 0 {
        return Err(InvalidSpec { field, value: s.to_owned(), reason: "must not be empty" });
    }
    if s.as_bytes().len() > 63 {
        return Err(
            InvalidSpec { field, value: s.to_owned(), reason: "must be at most 63 characters" },
        );
    }
    if v[0] == '-' || v[v.len() - 1] == '-' {
        return Err(
            InvalidSpec { field, value: s.to_owned(), reason: "must not start or end with '-'" },
        );
    }
    let mut i: usize = 0;
    while i < v.len()
        invariant
            v@ == s@,
            s@.len() > 0,
            encode_utf8(s@).len() <= 63,
            s@[0] != '-',
            s@.last() != '-',
            forall|j: int| 0 <= j < i ==> is_label_char(#[trigger] s@[j]),
        decreases v@.len() - i,
    {
        let c = v[i];
        let ok = ('a' <= c && c <= 'z') || ('0' <= c && c <= '9') || c == '-';
        if !ok {
            proof {
                assert(!is_label_char(s@[i as int]));
            }
            return Err(
                InvalidSpec {
                    field,
                    value: s.to_owned(),
                    reason: "must contain only lowercase ASCII letters, digits, and '-'",
                },
            );
        }
        i += 1;
    }
    Ok(())
}

// ---- repository ------------------------------------------------------------

/// The last piece of a repository name, behind its last slash.
pub open spec fn last_piece(s: Seq<char>) -> Seq<char> {
    split(s, '/').last()
}

/// What is wrong with an image repository, if anything. It carries neither a
/// digest nor a tag; a colon before the last slash is a registry's port.
pub open spec fn repo_fault(s: Seq<char>) -> Option<Fault> {
    if s.len() == 0 {
        Some(Fault { field: "repo"@, value: s, reason: "must not be empty"@ })
    } else if s.contains('@') {
        Some(
            Fault {
                field: "repo"@,
                value: s,
                reason: "must not include a digest (`@sha256:…`); pin via a rollout instead"@,
            },
        )
    } else if last_piece(s).contains(':') {
        Some(
            Fault {
                field: "repo"@,
                value: s,
                reason: "must not include a tag (`:tag`); pin via a rollout instead"@,
            },
        )
    } else {
        None
    }
}

/// Reject image references that include a tag or a digest.
pub fn validate_repo(s: &str) -> (r: Result<(), InvalidSpec>)
    ensures
        reports(r, repo_fault(s@)),
{
    let v = chars_of(s);
    if v.len() == 0 {
        return Err(InvalidSpec { field: "repo", value: s.to_owned(), reason: "must not be empty" });
    }
    if has_char(&v, '@') {
        return Err(
            InvalidSpec {
                field: "repo",
                value: s.to_owned(),
                reason: "must not include a digest (`@sha256:…`); pin via a rollout instead",
            },
        );
    }
    let parts = split_on(&v, '/');
    let last = &parts[parts.len() - 1];
    proof {
        assert(pieces(parts@).last() == last@);
    }
    if has_char(last, ':') {
        return Err(
            InvalidSpec {
                field: "repo",
                value: s.to_owned(),
                reason: "must not include a tag (`:tag`); pin via a rollout instead",
            },
        );
    }
    Ok(())
}

// ---- readiness path --------------------------------------------------------

/// Some piece between slashes is `..`.
pub open spec fn goes_up(s: Seq<char>) -> bool {
    exists|i: int| 0 <= i < split(s, '/').len() && #[trigger] split(s, '/')[i] == seq!['.', '.']
}

/// What is wrong with a readiness path, if anything.
pub open spec fn readiness_path_fault(path: Option<Seq<char>>) -> Option<Fault> {
    match path {
        None => None,
        Some(raw) => if raw.len() == 0 || raw[0] != '/' {
            Some(Fault { field: "readiness.path"@, value: raw, reason: "must start with '/'"@ })
        } else if goes_up(raw) {
            Some(
                Fault {
                    field: "readiness.path"@,
                    value: raw,
                    reason: "must not contain '..' segments"@,
                },
            )
        } else if raw.contains('?') || raw.contains('#') {
            Some(
                Fault {
                    field: "readiness.path"@,
                    value: raw,
                    reason: "must not contain query string or fragment"@,
                },
            )
        } else {
            None
        },
    }
}

fn is_dot_dot(c: &[char]) -> (r: bool)
    ensures
        r == (c@ == seq!['.', '.']),
{
    proof {
        if c@.len() == 2 && c@[0] == '.' && c@[1] == '.' {
            assert(c@ =~= seq!['.', '.']);
        }
    }
    c.len() == 2 && c[0] == '.' && c[1] == '.'
}

fn has_up_segment(v: &[char]) -> (r: bool)
    ensures
        r == goes_up(v@),
{
    let parts = split_on(v, '/');
    let mut i: usize = 0;
    while i < parts.len()
        invariant
            pieces(parts@) == split(v@, '/'),
            forall|j: int| 0 <= j < i ==> (#[trigger] split(v@, '/')[j]) != seq!['.', '.'],
        decreases parts@.len() - i,
    {
        if is_dot_dot(&parts[i]) {
            proof {
                assert(pieces(parts@)[i as int] == seq!['.', '.']);
                assert(split(v@, '/')[i as int] == seq!['.', '.']);
            }
            return true;
        }
        proof {
            assert(pieces(parts@)[i as int] == parts@[i as int]@);
        }
        i += 1;
    }
    proof {
        assert(pieces(parts@).len() == parts@.len());
    }
    false
}

/// The text of an optional string.
pub open spec fn opt_text(s: Option<String>) -> Option<Seq<char>> {
    match s {
        Some(t) => Some(t@),
        None => None,
    }
}

/// `readiness.path`, when set, is an absolute path without segments that go up,
/// query or fragment.
pub fn validate_readiness_path(path: Option<&str>) -> (r: Result<(), InvalidSpec>)
    ensures
        reports(
            r,
            readiness_path_fault(
                match path {
                    Some(p) => Some(p@),
                    None => None,
                },
            ),
        ),
{
    let raw = match path {
        Some(p) => p,
        None => {
            return Ok(());
        },
    };
    let v = chars_of(raw);
    if v.len() == 0 || v[0] != '/' {
        return Err(
            InvalidSpec {
                field: "readiness.path",
                value: raw.to_owned(),
                reason: "must start with '/'",
            },
        );
    }
    if has_up_segment(&v) {
        return Err(
            InvalidSpec {
                field: "readiness.path",
                value: raw.to_owned(),
                reason: "must not contain '..' segments",
            },
        );
    }
    if has_char(&v, '?') || has_char(&v, '#') {
        return Err(
            InvalidSpec {
                field: "readiness.path",
                value: raw.to_owned(),
                reason: "must not contain query string or fragment",
            },
        );
    }
    Ok(())
}

// ---- volumes ---------------------------------------------------------------

/// Mount points that are taken in every container.
pub open spec fn is_reserved_mount(p: Seq<char>) -> bool {
    ||| p == "/"@
    ||| p == "/proc"@
    ||| p == "/sys"@
    ||| p == "/dev"@
    ||| p == "/dev/pts"@
    ||| p == "/dev/shm"@
    ||| p == "/dev/mqueue"@
    ||| p == "/etc/resolv.conf"@
}

/// What is wrong with the volume at `i`, given those before it.
pub open spec fn volume_fault(vols: Seq<VolumeSpec>, i: int) -> Option<Fault> {
    let v = vols[i];
    let normal = normal_absolute(v.path@);
    if label_fault("volumes.name"@, v.name@) is Some {
        label_fault("volumes.name"@, v.name@)
    } else if !is_absolute(v.path@) {
        Some(
            Fault {
                field: "volumes.path"@,
                value: v.path@,
                reason: "must be an absolute container-internal path"@,
            },
        )
    } else if has_dot_dot(normal) {
        Some(
            Fault {
                field: "volumes.path"@,
                value: v.path@,
                reason: "must not contain '..' segments"@,
            },
        )
    } else if is_reserved_mount(normal) {
        Some(
            Fault {
                field: "volumes.path"@,
                value: v.path@,
                reason: "collides with a path bugpot or libcontainer already mounts"@,
            },
        )
    } else if exists|j: int| 0 <= j < i && (#[trigger] vols[j]).name@ == v.name@ {
        Some(
            Fault {
                field: "volumes.name"@,
                value: v.name@,
                reason: "duplicate volume name within app"@,
            },
        )
    } else if exists|j: int| 0 <= j < i && normal_absolute((#[trigger] vols[j]).path@) == normal {
        Some(
            Fault {
                field: "volumes.path"@,
                value: v.path@,
                reason: "duplicate mount point within app"@,
            },
        )
    } else {
        None
    }
}

/// The first fault among the volumes from `i` on.
pub open spec fn volumes_fault_from(vols: Seq<VolumeSpec>, i: int) -> Option<Fault>
    decreases vols.len() - i,
{
    if i < 0 || i >= vols.len() {
        None
    } else {
        or_fault(volume_fault(vols, i), volumes_fault_from(vols, i + 1))
    }
}

/// What is wrong with an app's volumes, if anything.
pub open spec fn volumes_fault(vols: Seq<VolumeSpec>) -> Option<Fault> {
    volumes_fault_from(vols, 0)
}

/// The list of volumes is sound: each name a label, each mount point absolute,
/// free of `..` and not taken, and no two volumes share a name or a mount
/// point.
pub open spec fn volumes_sound(vols: Seq<VolumeSpec>) -> bool {
    &&& forall|i: int|
        0 <= i < vols.len() ==> {
            &&& is_dns_label((#[trigger] vols[i]).name@)
            &&& is_absolute(vols[i].path@)
            &&& !has_dot_dot(normal_absolute(vols[i].path@))
            &&& !is_reserved_mount(normal_absolute(vols[i].path@))
        }
    &&& forall|i: int, j: int|
        0 <= j < i < vols.len() ==> (#[trigger] vols[i]).name@ != (#[trigger] vols[j]).name@
            && normal_absolute(vols[i].path@) != normal_absolute(vols[j].path@)
}

proof fn lemma_no_volume_fault_from(vols: Seq<VolumeSpec>, i: int)
    requires
        0 <= i <= vols.len(),
    ensures
        volumes_fault_from(vols, i) is None <==> (forall|k: int|
            i <= k < vols.len() ==> (#[trigger] volume_fault(vols, k)) is None),
    decreases vols.len() - i,
{
    if i < vols.len() {
        lemma_no_volume_fault_from(vols, i + 1);
        if volumes_fault_from(vols, i) is None {
            assert forall|k: int| i <= k < vols.len() implies (#[trigger] volume_fault(
                vols,
                k,
            )) is None by {
                if k == i {
                }
            }
        }
    }
}

/// Nothing is wrong with the volumes exactly when the list is sound.
pub proof fn lemma_volumes_fault_iff(vols: Seq<VolumeSpec>)
    ensures
        volumes_fault(vols) is None <==> volumes_sound(vols),
{
    lemma_no_volume_fault_from(vols, 0);
    if volumes_fault(vols) is None {
        assert forall|i: int| 0 <= i < vols.len() implies {
            &&& is_dns_label((#[trigger] vols[i]).name@)
            &&& is_absolute(vols[i].path@)
            &&& !has_dot_dot(normal_absolute(vols[i].path@))
            &&& !is_reserved_mount(normal_absolute(vols[i].path@))
        } by {
            assert(volume_fault(vols, i) is None);
            lemma_label_fault_iff("volumes.name"@, vols[i].name@);
        }
        assert forall|i: int, j: int| 0 <= j < i < vols.len() implies (#[trigger] vols[i]).name@
            != (#[trigger] vols[j]).name@ && normal_absolute(vols[i].path@) != normal_absolute(
            vols[j].path@,
        ) by {
            assert(volume_fault(vols, i) is None);
        }
    }
    if volumes_sound(vols) {
        assert forall|k: int| 0 <= k < vols.len() implies (#[trigger] volume_fault(
            vols,
            k,
        )) is None by {
            lemma_label_fault_iff("volumes.name"@, vols[k].name@);
        }
    }
}

fn is_reserved(p: &[char]) -> (r: bool)
    ensures
        r == is_reserved_mount(p@),
{
    same(p, &chars_of("/")) || same(p, &chars_of("/proc")) || same(p, &chars_of("/sys")) || same(
        p,
        &chars_of("/dev"),
    ) || same(p, &chars_of("/dev/pts")) || same(p, &chars_of("/dev/shm")) || same(
        p,
        &chars_of("/dev/mqueue"),
    ) || same(p, &chars_of("/etc/resolv.conf"))
}

fn path_fault(value: &str, reason: &'static str) -> (e: InvalidSpec)
    ensures
        e@ == (Fault { field: "volumes.path"@, value: value@, reason: reason@ }),
{
    InvalidSpec { field: "volumes.path", value: value.to_owned(), reason }
}

pub fn validate_volumes(volumes: &Vec<VolumeSpec>) -> (r: Result<(), InvalidSpec>)
    ensures
        reports(r, volumes_fault(volumes@)),
{
    let mut seen_paths: Vec<Vec<char>> = Vec::new();
    let mut i: usize = 0;
    while i < volumes.len()
        invariant
            i <= volumes@.len(),
            seen_paths@.len() == i,
            forall|j: int|
                0 <= j < i ==> (#[trigger] seen_paths@[j])@ == normal_absolute(volumes@[j].path@),
            volumes_fault(volumes@) == volumes_fault_from(volumes@, i as int),
        decreases volumes@.len() - i,
    {
        let v = &volumes[i];
        let ghost fault = volume_fault(volumes@, i as int);
        match validate_dns_label("volumes.name", v.name.as_str()) {
            Ok(_) => {},
            Err(e) => {
                return Err(e);
            },
        }
        let path = chars_of(v.path.as_str());
        if path.len() == 0 || path[0] != '/' {
            return Err(path_fault(v.path.as_str(), "must be an absolute container-internal path"));
        }
        let normal = normalise_absolute(&path);
        if contains_dot_dot(&normal) {
            return Err(path_fault(v.path.as_str(), "must not contain '..' segments"));
        }
        if is_reserved(&normal) {
            return Err(
                path_fault(
                    v.path.as_str(),
                    "collides with a path bugpot or libcontainer already mounts",
                ),
            );
        }
        let mut j: usize = 0;
        while j < i
            invariant
                i < volumes@.len(),
                v == volumes@[i as int],
                forall|k: int| 0 <= k < j ==> (#[trigger] volumes@[k]).name@ != v.name@,
                fault == volume_fault(volumes@, i as int),
                volumes_fault(volumes@) == volumes_fault_from(volumes@, i as int),
                label_fault("volumes.name"@, v.name@) is None,
                is_absolute(v.path@),
                !has_dot_dot(normal_absolute(v.path@)),
                !is_reserved_mount(normal_absolute(v.path@)),
            decreases i - j,
        {
            if same_str(volumes[j].name.as_str(), v.name.as_str()) {
                return Err(
                    InvalidSpec {
                        field: "volumes.name",
                        value: v.name.clone(),
                        reason: "duplicate volume name within app",
                    },
                );
            }
            j += 1;
        }
        j = 0;
        while j < i
            invariant
                i < volumes@.len(),
                seen_paths@.len() == i,
                v == volumes@[i as int],
                normal@ == normal_absolute(v.path@),
                forall|k: int|
                    0 <= k < i ==> (#[trigger] seen_paths@[k])@ == normal_absolute(
                        volumes@[k].path@,
                    ),
                forall|k: int| 0 <= k < i ==> (#[trigger] volumes@[k]).name@ != v.name@,
                forall|k: int|
                    0 <= k < j ==> normal_absolute((#[trigger] volumes@[k]).path@) != normal@,
                fault == volume_fault(volumes@, i as int),
                volumes_fault(volumes@) == volumes_fault_from(volumes@, i as int),
                label_fault("volumes.name"@, v.name@) is None,
                is_absolute(v.path@),
                !has_dot_dot(normal_absolute(v.path@)),
                !is_reserved_mount(normal_absolute(v.path@)),
            decreases i - j,
        {
            if same(&seen_paths[j], &normal) {
                proof {
                    assert(normal_absolute(volumes@[j as int].path@) == normal@);
                }
                return Err(path_fault(v.path.as_str(), "duplicate mount point within app"));
            }
            proof {
                assert(seen_paths@[j as int]@ == normal_absolute(volumes@[j as int].path@));
            }
            j += 1;
        }
        seen_paths.push(normal);
        i += 1;
    }
    Ok(())
}

// ---- the rules in full -----------------------------------------------------

/// A strict DNS label: between one and 63 characters, each a small letter, a
/// digit or a hyphen, and neither the first nor the last a hyphen.
pub proof fn lemma_dns_label(s: Seq<char>)
    ensures
        is_dns_label(s) <==> {
            &&& 1 <= s.len() <= 63
            &&& forall|i: int|
                0 <= i < s.len() ==> 'a' <= #[trigger] s[i] <= 'z' || '0' <= s[i] <= '9' || (s[i]
                    == '-' && 0 < i < s.len() - 1)
        },
{
    if is_dns_label(s) {
        assert forall|i: int| 0 <= i < s.len() implies 'a' <= #[trigger] s[i] <= 'z' || '0' <= s[i]
            <= '9' || (s[i] == '-' && 0 < i < s.len() - 1) by {
            assert(is_label_char(s[i]));
        }
    }
    if 1 <= s.len() <= 63 && (forall|i: int|
        0 <= i < s.len() ==> 'a' <= #[trigger] s[i] <= 'z' || '0' <= s[i] <= '9' || (s[i] == '-' && 0
            < i < s.len() - 1)) {
        assert(s[0] != '-');
        assert(s[s.len() - 1] != '-');
        assert forall|i: int| 0 <= i < s.len() implies is_label_char(#[trigger] s[i]) by {}
    }
}

/// What is said of a text that is no label, and when: the field and the text as
/// they are, and the first of four reasons that applies.
pub proof fn lemma_label_reasons(field: Seq<char>, s: Seq<char>)
    ensures
        label_fault(field, s) matches Some(f) ==> {
            &&& f.field == field
            &&& f.value == s
            &&& f.reason == "must not be empty"@ || f.reason == "must be at most 63 characters"@
                || f.reason == "must not start or end with '-'"@ || f.reason
                == "must contain only lowercase ASCII letters, digits, and '-'"@
            &&& s.len() == 0 ==> f.reason == "must not be empty"@
            &&& encode_utf8(s).len() > 63 && s.len() > 0 ==> f.reason
                == "must be at most 63 characters"@
            &&& 0 < s.len() && encode_utf8(s).len() <= 63 && (s[0] == '-' || s[s.len() - 1] == '-')
                ==> f.reason == "must not start or end with '-'"@
            &&& 0 < s.len() && encode_utf8(s).len() <= 63 && s[0] != '-' && s[s.len() - 1] != '-'
                ==> f.reason == "must contain only lowercase ASCII letters, digits, and '-'"@
        },
        s.len() == 0 || encode_utf8(s).len() > 63 ==> label_fault(field, s) is Some,
{
}

/// What a check reports is the fault that was found, word for word.
pub proof fn lemma_reports(r: Result<(), InvalidSpec>, fault: Option<Fault>)
    requires
        reports(r, fault),
    ensures
        r is Ok <==> fault is None,
        r matches Err(e) ==> fault matches Some(f) && e.field@ == f.field && e.value@ == f.value
            && e.reason@ == f.reason,
{
}

/// Of two checks the first one's fault counts, and there is none only where
/// neither finds one.
pub proof fn lemma_first_fault(a: Option<Fault>, b: Option<Fault>)
    ensures
        a is Some ==> or_fault(a, b) == a,
        a is None ==> or_fault(a, b) == b,
{
}

/// Nothing is wrong with a repository exactly if it is not empty, holds no at
/// sign, and has a slash somewhere behind every colon.
pub proof fn lemma_repo(s: Seq<char>)
    ensures
        repo_fault(s) is None <==> {
            &&& s.len() > 0
            &&& forall|i: int| 0 <= i < s.len() ==> #[trigger] s[i] != '@'
            &&& forall|i: int|
                0 <= i < s.len() && #[trigger] s[i] == ':' ==> exists|j: int|
                    i < j < s.len() && #[trigger] s[j] == '/'
        },
        repo_fault(s) matches Some(f) ==> f.field == "repo"@ && f.value == s && f.reason == if s.len()
            == 0 {
            "must not be empty"@
        } else if exists|i: int| 0 <= i < s.len() && #[trigger] s[i] == '@' {
            "must not include a digest (`@sha256:…`); pin via a rollout instead"@
        } else {
            "must not include a tag (`:tag`); pin via a rollout instead"@
        },
{
    lemma_last_piece(s);
    let l = last_piece(s);
    let n = s.len() - l.len();
    if l.contains(':') {
        let k = choose|k: int| 0 <= k < l.len() && l[k] == ':';
        assert(s[n + k] == ':');
        assert forall|j: int| n + k < j < s.len() implies s[j] != '/' by {
            assert(l[j - n] == s[j]);
        }
    } else {
        assert forall|i: int| 0 <= i < s.len() && #[trigger] s[i] == ':' implies exists|j: int|
            i < j < s.len() && #[trigger] s[j] == '/' by {
            if i >= n {
                assert(l[i - n] == ':');
            } else {
                assert(s[n - 1] == '/');
            }
        }
    }
    if s.contains('@') {
        let i = choose|i: int| 0 <= i < s.len() && s[i] == '@';
        assert(s[i] == '@');
    }
}

/// The last piece of a text is what follows its last slash.
pub proof fn lemma_last_piece(s: Seq<char>)
    ensures
        last_piece(s).len() <= s.len(),
        s.skip(s.len() - last_piece(s).len()) == last_piece(s),
        forall|i: int| 0 <= i < last_piece(s).len() ==> #[trigger] last_piece(s)[i] != '/',
        last_piece(s).len() < s.len() ==> s[s.len() - last_piece(s).len() - 1] == '/',
    decreases s.len(),
{
    crate::text::lemma_find(s, '/');
    let i = crate::text::find(s, '/');
    if i < s.len() {
        let rest = s.skip(i + 1);
        lemma_last_piece(rest);
        let l = last_piece(rest);
        assert(split(s, '/') == seq![s.take(i)] + split(rest, '/'));
        crate::text::lemma_split_free(rest, '/');
        assert(split(rest, '/').len() > 0);
        assert(last_piece(s) == l);
        assert(s.skip(s.len() - l.len()) =~= rest.skip(rest.len() - l.len()));
        if l.len() < rest.len() {
            assert(rest[rest.len() - l.len() - 1] == s[s.len() - l.len() - 1]);
        }
    } else {
        assert(s.skip(0) =~= s);
    }
}

/// Nothing is wrong with a readiness path exactly if none is given, or if it
/// begins with a slash, none of its pieces between slashes is `..`, and neither
/// a question mark nor a hash stands in it.
pub proof fn lemma_readiness_path(raw: Seq<char>)
    ensures
        readiness_path_fault(None) is None,
        readiness_path_fault(Some(raw)) is None <==> {
            &&& raw.len() > 0 && raw[0] == '/'
            &&& forall|i: int|
                0 <= i < split(raw, '/').len() ==> #[trigger] split(raw, '/')[i] != seq!['.', '.']
            &&& forall|i: int| 0 <= i < raw.len() ==> #[trigger] raw[i] != '?' && raw[i] != '#'
        },
        readiness_path_fault(Some(raw)) matches Some(f) ==> f.field == "readiness.path"@ && f.value
            == raw && f.reason == if raw.len() == 0 || raw[0] != '/' {
            "must start with '/'"@
        } else if exists|i: int|
            0 <= i < split(raw, '/').len() && #[trigger] split(raw, '/')[i] == seq!['.', '.'] {
            "must not contain '..' segments"@
        } else {
            "must not contain query string or fragment"@
        },
{
    if raw.contains('?') {
        let i = choose|i: int| 0 <= i < raw.len() && raw[i] == '?';
        assert(raw[i] == '?');
    }
    if raw.contains('#') {
        let i = choose|i: int| 0 <= i < raw.len() && raw[i] == '#';
        assert(raw[i] == '#');
    }
}

/// Eight mount points are taken in every container.
pub proof fn lemma_reserved_mounts(p: Seq<char>)
    ensures
        is_reserved_mount(p) <==> p == "/"@ || p == "/proc"@ || p == "/sys"@ || p == "/dev"@ || p
            == "/dev/pts"@ || p == "/dev/shm"@ || p == "/dev/mqueue"@ || p == "/etc/resolv.conf"@,
{
}

/// What is wrong with a volume, in the order in which it is looked for: its name,
/// a mount point that is not absolute, goes up or is taken, and a name or a mount
/// point that a volume before it has.
pub proof fn lemma_volume_reasons(vols: Seq<VolumeSpec>, i: int)
    requires
        0 <= i < vols.len(),
    ensures
        ({
            let v = vols[i];
            let normal = normal_absolute(v.path@);
            let named = label_fault("volumes.name"@, v.name@);
            let r = volume_fault(vols, i);
            &&& named is Some ==> r == named
            &&& named is None && !is_absolute(v.path@) ==> r == Some(
                Fault {
                    field: "volumes.path"@,
                    value: v.path@,
                    reason: "must be an absolute container-internal path"@,
                },
            )
            &&& named is None && is_absolute(v.path@) && has_dot_dot(normal) ==> r == Some(
                Fault {
                    field: "volumes.path"@,
                    value: v.path@,
                    reason: "must not contain '..' segments"@,
                },
            )
            &&& named is None && is_absolute(v.path@) && !has_dot_dot(normal) && is_reserved_mount(
                normal,
            ) ==> r == Some(
                Fault {
                    field: "volumes.path"@,
                    value: v.path@,
                    reason: "collides with a path bugpot or libcontainer already mounts"@,
                },
            )
            &&& named is None && is_absolute(v.path@) && !has_dot_dot(normal) && !is_reserved_mount(
                normal,
            ) ==> r == if exists|j: int| 0 <= j < i && (#[trigger] vols[j]).name@ == v.name@ {
                Some(
                    Fault {
                        field: "volumes.name"@,
                        value: v.name@,
                        reason: "duplicate volume name within app"@,
                    },
                )
            } else if exists|j: int|
                0 <= j < i && normal_absolute((#[trigger] vols[j]).path@) == normal {
                Some(
                    Fault {
                        field: "volumes.path"@,
                        value: v.path@,
                        reason: "duplicate mount point within app"@,
                    },
                )
            } else {
                None
            }
        }),
{
}

/// The fault of a list of volumes is that of the first volume that has one.
pub proof fn lemma_first_bad_volume(vols: Seq<VolumeSpec>, i: int)
    requires
        0 <= i < vols.len(),
        volume_fault(vols, i) is Some,
        forall|j: int| 0 <= j < i ==> volume_fault(vols, j) is None,
    ensures
        volumes_fault(vols) == volume_fault(vols, i),
{
    lemma_first_bad_from(vols, 0, i);
}

proof fn lemma_first_bad_from(vols: Seq<VolumeSpec>, k: int, i: int)
    requires
        0 <= k <= i < vols.len(),
        volume_fault(vols, i) is Some,
        forall|j: int| k <= j < i ==> volume_fault(vols, j) is None,
    ensures
        volumes_fault_from(vols, k) == volume_fault(vols, i),
    decreases i - k,
{
    if k < i {
        lemma_first_bad_from(vols, k + 1, i);
    }
}

/// Sound volumes, one by one: each has a strict DNS label for a name and an
/// absolute mount point that does not go up and is not taken, and no other has
/// the same name or the same mount point.
pub proof fn lemma_sound_volumes(vols: Seq<VolumeSpec>, i: int, j: int)
    requires
        volumes_fault(vols) is None,
        0 <= i < vols.len(),
        0 <= j < vols.len(),
        i != j,
    ensures
        is_dns_label(vols[i].name@),
        vols[i].path@.len() > 0 && vols[i].path@[0] == '/',
        !has_dot_dot(normal_absolute(vols[i].path@)),
        !is_reserved_mount(normal_absolute(vols[i].path@)),
        vols[i].name@ != vols[j].name@,
        normal_absolute(vols[i].path@) != normal_absolute(vols[j].path@),
{
    lemma_volumes_fault_iff(vols);
    if i < j {
        assert(vols[j].name@ != vols[i].name@);
    } else {
        assert(vols[i].name@ != vols[j].name@);
    }
}

} // verus!
