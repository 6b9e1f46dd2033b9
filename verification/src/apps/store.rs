//! Where apps are kept on disk, and how they are read back.
//!
//! Each app has up to two files below the state directory: its spec at
//! `apps/<name>.toml` and its rollouts at `rollouts/<name>.toml`.

use vstd::prelude::*;
use vstd::string::StringExecFns;

use crate::apps::error::fault_text;
use crate::config::path::{extension, extension_of, join_path, joined};
use crate::config::spec::{AppSpec, Rollout};
use crate::config::validate::is_dns_label;
use crate::text::{chars_of, comes_before, same_str, text_le};

verus! {

/// The directories that apps are kept in.
#[derive(Debug)]
pub struct AppStore {
    pub state_dir: String,
}

/// The name of an app's file.
pub open spec fn toml_name(name: Seq<char>) -> Seq<char> {
    name + ".toml"@
}

impl AppStore {
    pub fn new(state_dir: String) -> (r: AppStore)
        ensures
            r.state_dir == state_dir,
    {
        AppStore { state_dir }
    }

    pub open spec fn specs(self) -> Seq<char> {
        joined(self.state_dir@, "apps"@)
    }

    pub open spec fn histories(self) -> Seq<char> {
        joined(self.state_dir@, "rollouts"@)
    }

    pub fn specs_dir(&self) -> (r: String)
        ensures
            r@ == self.specs(),
    {
        join_path(self.state_dir.as_str(), "apps")
    }

    pub fn rollouts_dir(&self) -> (r: String)
        ensures
            r@ == self.histories(),
    {
        join_path(self.state_dir.as_str(), "rollouts")
    }

    /// The file with an app's spec.
    pub fn spec_path(&self, name: &str) -> (r: String)
        ensures
            r@ == joined(self.specs(), toml_name(name@)),
    {
        let mut file = String::from_str(name);
        file.append(".toml");
        join_path(self.specs_dir().as_str(), file.as_str())
    }

    /// The file with an app's rollouts.
    pub fn rollouts_path(&self, name: &str) -> (r: String)
        ensures
            r@ == joined(self.histories(), toml_name(name@)),
    {
        let mut file = String::from_str(name);
        file.append(".toml");
        join_path(self.rollouts_dir().as_str(), file.as_str())
    }
}

/// A file in the directory of specs holds a spec: its name ends with `.toml`.
pub fn is_spec_file(path: &str) -> (r: bool)
    ensures
        r == (extension(path@) == Some("toml"@)),
{
    match extension_of(path) {
        Some(e) => same_str(e.as_str(), "toml"),
        None => false,
    }
}

/// Take a spec that was read from a file. One that does not pass validation is
/// an error: state that is damaged should be looked into, not passed over.
pub fn accept_spec(path: &str, spec: AppSpec) -> (r: Result<AppSpec, String>)
    ensures
        match r {
            Ok(s) => {
                &&& s.fault() is None
                &&& s.source_path@ == path@
                &&& s == (AppSpec { source_path: s.source_path, ..spec })
            },
            Err(m) => exists|s: AppSpec|
                {
                    &&& #[trigger] s.fault() is Some
                    &&& s.source_path@ == path@
                    &&& s == (AppSpec { source_path: s.source_path, ..spec })
                    &&& m@ == "validate "@ + path@ + ": "@ + fault_text(s.fault()->0)
                },
        },
{
    let mut s = spec;
    s.source_path = String::from_str(path);
    match s.validate() {
        Ok(_) => Ok(s),
        Err(e) => {
            let mut m = String::from_str("validate ");
            m.append(path);
            m.append(": ");
            m.append(e.message().as_str());
            proof {
                assert(s.fault() is Some);
            }
            Err(m)
        },
    }
}

/// An app that was kept: its spec and its rollouts, the oldest first.
#[derive(Debug)]
pub struct KeptApp {
    pub spec: AppSpec,
    pub rollouts: Vec<Rollout>,
}

/// The apps come in the order of their names.
pub open spec fn in_order(apps: Seq<KeptApp>) -> bool {
    forall|i: int, j: int|
        0 <= i <= j < apps.len() ==> text_le(
            (#[trigger] apps[i]).spec.name_text(),
            (#[trigger] apps[j]).spec.name_text(),
        )
}

/// The apps of a name, in the order in which they come.
pub open spec fn of_name(apps: Seq<KeptApp>, name: Seq<char>) -> Seq<KeptApp> {
    apps.filter(|a: KeptApp| a.spec.name_text() == name)
}

/// Where an app belongs among others that are in order: behind all whose names
/// do not come after its own.
fn place_of(apps: &Vec<KeptApp>, app: &KeptApp) -> (r: usize)
    requires
        in_order(apps@),
    ensures
        r <= apps@.len(),
        forall|i: int|
            0 <= i < r ==> text_le((#[trigger] apps@[i]).spec.name_text(), app.spec.name_text()),
        forall|i: int|
            r <= i < apps@.len() ==> !text_le(
                (#[trigger] apps@[i]).spec.name_text(),
                app.spec.name_text(),
            ),
{
    let name = app.spec.name();
    let name_chars = chars_of(name.as_str());
    let mut k: usize = apps.len();
    while k > 0
        invariant
            k <= apps@.len(),
            in_order(apps@),
            name_chars@ == app.spec.name_text(),
            forall|i: int|
                k <= i < apps@.len() ==> !text_le(
                    (#[trigger] apps@[i]).spec.name_text(),
                    app.spec.name_text(),
                ),
        decreases k,
    {
        let other = apps[k - 1].spec.name();
        let other_chars = chars_of(other.as_str());
        if comes_before(&other_chars, &name_chars) {
            proof {
                assert forall|i: int| 0 <= i < k implies text_le(
                    (#[trigger] apps@[i]).spec.name_text(),
                    app.spec.name_text(),
                ) by {
                    crate::text::lemma_text_le_transitive(
                        apps@[i].spec.name_text(),
                        apps@[k - 1].spec.name_text(),
                        app.spec.name_text(),
                    );
                }
            }
            return k;
        }
        k = k - 1;
    }
    k
}

/// Put apps in the order of their names. Apps of the same name keep the order in
/// which they came.
pub fn sort_by_name(apps: Vec<KeptApp>) -> (r: Vec<KeptApp>)
    ensures
        in_order(r@),
        r@.to_multiset() == apps@.to_multiset(),
        forall|name: Seq<char>| #[trigger] of_name(r@, name) == of_name(apps@, name),
{
    let ghost all = apps@;
    let mut rest = apps;
    let mut out: Vec<KeptApp> = Vec::new();
    proof {
        assert(all.take(0) =~= Seq::<KeptApp>::empty());
        assert(all.skip(0) =~= all);
        assert(out@ =~= all.take(0));
    }
    let mut i: usize = 0;
    let n: usize = rest.len();
    while i < n
        invariant
            i <= n,
            n == all.len(),
            rest@ == all.skip(i as int),
            in_order(out@),
            out@.to_multiset() == all.take(i as int).to_multiset(),
            forall|name: Seq<char>| #[trigger]
                of_name(out@, name) == of_name(all.take(i as int), name),
        decreases n - i,
    {
        let app = rest.remove(0);
        let k: usize = place_of(&out, &app);
        let ghost before = out@;
        out.insert(k, app);
        proof {
            assert(rest@ =~= all.skip(i + 1));
            assert(app == all[i as int]);
            assert(out@ =~= before.insert(k as int, app));
            lemma_insert_keeps_order(before, k as int, app);
            vstd::seq_lib::to_multiset_insert(before, k as int, app);
            assert(all.take(i + 1) =~= all.take(i as int).push(app));
            vstd::seq_lib::to_multiset_build(all.take(i as int), app);
            assert forall|name: Seq<char>| #[trigger] of_name(out@, name) == of_name(
                all.take(i + 1),
                name,
            ) by {
                assert(of_name(before, name) == of_name(all.take(i as int), name));
                lemma_insert_filters(before, all.take(i as int), k as int, app, name);
            }
        }
        i = i + 1;
    }
    proof {
        assert(all.take(i as int) =~= all);
    }
    out
}

proof fn lemma_insert_keeps_order(apps: Seq<KeptApp>, k: int, app: KeptApp)
    requires
        in_order(apps),
        0 <= k <= apps.len(),
        forall|i: int|
            0 <= i < k ==> text_le((#[trigger] apps[i]).spec.name_text(), app.spec.name_text()),
        forall|i: int|
            k <= i < apps.len() ==> !text_le(
                (#[trigger] apps[i]).spec.name_text(),
                app.spec.name_text(),
            ),
    ensures
        in_order(apps.insert(k, app)),
{
    let out = apps.insert(k, app);
    assert forall|i: int, j: int| 0 <= i <= j < out.len() implies text_le(
        (#[trigger] out[i]).spec.name_text(),
        (#[trigger] out[j]).spec.name_text(),
    ) by {
        let a = if i < k {
            i
        } else {
            i - 1
        };
        let b = if j < k {
            j
        } else {
            j - 1
        };
        if i == k && j == k {
            crate::text::lemma_text_le_total(app.spec.name_text(), app.spec.name_text());
        } else if i == k {
            assert(out[j] == apps[b]);
            crate::text::lemma_text_le_total(app.spec.name_text(), apps[b].spec.name_text());
        } else if j == k {
            assert(out[i] == apps[a]);
        } else {
            assert(out[i] == apps[a]);
            assert(out[j] == apps[b]);
        }
    }
}

proof fn lemma_insert_filters(
    out: Seq<KeptApp>,
    all: Seq<KeptApp>,
    k: int,
    app: KeptApp,
    name: Seq<char>,
)
    requires
        0 <= k <= out.len(),
        forall|i: int|
            k <= i < out.len() ==> !text_le(
                (#[trigger] out[i]).spec.name_text(),
                app.spec.name_text(),
            ),
        of_name(out, name) == of_name(all, name),
    ensures
        of_name(out.insert(k, app), name) == of_name(all.push(app), name),
{
    let f = |a: KeptApp| a.spec.name_text() == name;
    let head = out.take(k);
    let tail = out.skip(k);
    assert(out =~= head + tail);
    assert(out.insert(k, app) =~= head + seq![app] + tail);
    Seq::filter_distributes_over_add(head, tail, f);
    Seq::filter_distributes_over_add(head + seq![app], tail, f);
    Seq::filter_distributes_over_add(head, seq![app], f);
    Seq::filter_distributes_over_add(all, seq![app], f);
    assert(all.push(app) =~= all + seq![app]);
    if f(app) {
        crate::text::lemma_text_le_total(app.spec.name_text(), app.spec.name_text());
        assert forall|i: int| 0 <= i < tail.len() implies !f(#[trigger] tail[i]) by {
            assert(tail[i] == out[k + i]);
        }
        lemma_filter_none(tail, f);
        assert(head.filter(f) + tail.filter(f) =~= head.filter(f));
        assert(head.filter(f) + seq![app].filter(f) + tail.filter(f) =~= head.filter(f)
            + seq![app].filter(f));
    } else {
        lemma_filter_none(seq![app], f);
        assert(head.filter(f) + seq![app].filter(f) =~= head.filter(f));
        assert(all.filter(f) + seq![app].filter(f) =~= all.filter(f));
    }
}

proof fn lemma_filter_none(s: Seq<KeptApp>, f: spec_fn(KeptApp) -> bool)
    requires
        forall|i: int| 0 <= i < s.len() ==> !f(#[trigger] s[i]),
    ensures
        s.filter(f) == Seq::<KeptApp>::empty(),
    decreases s.len(),
{
    reveal(Seq::filter);
    if s.len() > 0 {
        lemma_filter_none(s.drop_last(), f);
    }
}

// ---- laws ------------------------------------------------------------------

/// Different apps are kept in different files, and an app's spec never in the
/// file with its or another app's rollouts.
pub proof fn lemma_files_differ(store: AppStore, a: Seq<char>, b: Seq<char>)
    requires
        is_dns_label(a),
        is_dns_label(b),
    ensures
        joined(store.specs(), toml_name(a)) != joined(store.histories(), toml_name(b)),
        a != b ==> joined(store.specs(), toml_name(a)) != joined(store.specs(), toml_name(b)),
        a != b ==> joined(store.histories(), toml_name(a)) != joined(
            store.histories(),
            toml_name(b),
        ),
{
    reveal_strlit("apps");
    reveal_strlit("rollouts");
    reveal_strlit(".toml");
    reveal_strlit("/");
    let base = if store.state_dir@.len() == 0 || store.state_dir@.last() == '/' {
        store.state_dir@
    } else {
        store.state_dir@ + "/"@
    };
    assert(a[0] != '/');
    assert(b[0] != '/');
    let x = joined(store.specs(), toml_name(a));
    let y = joined(store.histories(), toml_name(b));
    assert(store.specs() =~= base + "apps"@);
    assert(store.histories() =~= base + "rollouts"@);
    assert(x =~= base + "apps"@ + "/"@ + toml_name(a));
    assert(y =~= base + "rollouts"@ + "/"@ + toml_name(b));
    assert(x[base.len() as int] == 'a');
    assert(y[base.len() as int] == 'r');
    if a != b {
        let p = joined(store.specs(), toml_name(b));
        let q = joined(store.histories(), toml_name(a));
        assert(p =~= base + "apps"@ + "/"@ + toml_name(b));
        assert(q =~= base + "rollouts"@ + "/"@ + toml_name(a));
        let n = base.len() as int + 5;
        let m = base.len() as int + 9;
        if x == p {
            assert(x.subrange(n, x.len() - 5) =~= a);
            assert(p.subrange(n, p.len() - 5) =~= b);
        }
        if y == q {
            assert(y.subrange(m, y.len() - 5) =~= b);
            assert(q.subrange(m, q.len() - 5) =~= a);
        }
    }
}

/// An app's file is called after it, and specs and histories are kept in two
/// directories of their own below the state directory.
pub proof fn lemma_file_names(store: AppStore, name: Seq<char>)
    ensures
        toml_name(name) == name + seq!['.', 't', 'o', 'm', 'l'],
        store.specs() == joined(store.state_dir@, seq!['a', 'p', 'p', 's']),
        store.histories() == joined(
            store.state_dir@,
            seq!['r', 'o', 'l', 'l', 'o', 'u', 't', 's'],
        ),
{
    reveal_strlit(".toml");
    reveal_strlit("apps");
    reveal_strlit("rollouts");
    assert(".toml"@ =~= seq!['.', 't', 'o', 'm', 'l']);
    assert("apps"@ =~= seq!['a', 'p', 'p', 's']);
    assert("rollouts"@ =~= seq!['r', 'o', 'l', 'l', 'o', 'u', 't', 's']);
}

/// Apps in order: no app has a name that comes after the name of a later one.
pub proof fn lemma_in_order(apps: Seq<KeptApp>, i: int, j: int)
    requires
        in_order(apps),
        0 <= i < j < apps.len(),
    ensures
        text_le(apps[i].spec.name_text(), apps[j].spec.name_text()),
{
}

/// The apps of a name are those of the list that have it, each as often and in
/// the order in which it comes.
pub proof fn lemma_of_name(apps: Seq<KeptApp>, app: KeptApp, name: Seq<char>)
    ensures
        of_name(seq![], name).len() == 0,
        app.spec.name_text() == name ==> of_name(apps.push(app), name) == of_name(apps, name).push(
            app,
        ),
        app.spec.name_text() != name ==> of_name(apps.push(app), name) == of_name(apps, name),
{
    reveal(Seq::filter);
    assert(apps.push(app).drop_last() =~= apps);
    assert(of_name(seq![], name) =~= seq![]);
}

} // verus!
