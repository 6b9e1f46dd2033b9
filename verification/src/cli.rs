//! What the command-line client asks the daemon, and how it shows the answers.

use vstd::prelude::*;
use vstd::string::StringExecFns;

use crate::config::spec::Rollout;
use crate::number::{decimal, decimal_text};
use crate::text::{chars_of, string_of, texts, trim, trimmed_str};

verus! {

pub const DEFAULT_ADMIN_URL: &'static str = "http://127.0.0.1:8081";

/// Which of the two tokens a request is made with.
#[derive(Debug, Clone, Copy, PartialEq, Eq, Structural)]
pub enum TokenKind {
    Admin,
    Deploy,
}

impl TokenKind {
    pub open spec fn direct_name(self) -> Seq<char> {
        match self {
            TokenKind::Admin => "BUGPOT_ADMIN_TOKEN"@,
            TokenKind::Deploy => "BUGPOT_DEPLOY_TOKEN"@,
        }
    }

    pub open spec fn file_name(self) -> Seq<char> {
        match self {
            TokenKind::Admin => "BUGPOT_ADMIN_TOKEN_FILE"@,
            TokenKind::Deploy => "BUGPOT_DEPLOY_TOKEN_FILE"@,
        }
    }

    /// The variable that holds the token.
    pub fn direct_var(self) -> (r: &'static str)
        ensures
            r@ == self.direct_name(),
    {
        match self {
            TokenKind::Admin => "BUGPOT_ADMIN_TOKEN",
            TokenKind::Deploy => "BUGPOT_DEPLOY_TOKEN",
        }
    }

    /// The variable that names a file with the token.
    pub fn file_var(self) -> (r: &'static str)
        ensures
            r@ == self.file_name(),
    {
        match self {
            TokenKind::Admin => "BUGPOT_ADMIN_TOKEN_FILE",
            TokenKind::Deploy => "BUGPOT_DEPLOY_TOKEN_FILE",
        }
    }
}

/// Take a token as it is given, else from the contents of a file, without the
/// white space around it. An empty one is an error, and so is none at all.
pub fn resolve_token(
    direct: Option<&str>,
    file_body: Option<&str>,
    direct_var: &str,
    file_var: &str,
) -> (r: Result<String, String>)
    ensures
        match (direct, file_body) {
            (Some(t), _) => match r {
                Ok(s) => s@ == trim(t@) && s@.len() > 0,
                Err(e) => trim(t@).len() == 0 && e@ == "$"@ + direct_var@ + " is set but empty"@,
            },
            (None, Some(t)) => match r {
                Ok(s) => s@ == trim(t@) && s@.len() > 0,
                Err(e) => trim(t@).len() == 0 && e@ == "$"@ + file_var@
                    + " points at an empty file"@,
            },
            (None, None) => r matches Err(e) && e@ == "Neither $"@ + direct_var@ + " nor $"@
                + file_var@ + " is set"@,
        },
{
    if let Some(t) = direct {
        let s = trimmed_str(t);
        if s.as_str().is_empty() {
            let mut e = String::from_str("$");
            e.append(direct_var);
            e.append(" is set but empty");
            return Err(e);
        }
        return Ok(s);
    }
    if let Some(t) = file_body {
        let s = trimmed_str(t);
        if s.as_str().is_empty() {
            let mut e = String::from_str("$");
            e.append(file_var);
            e.append(" points at an empty file");
            return Err(e);
        }
        return Ok(s);
    }
    let mut e = String::from_str("Neither $");
    e.append(direct_var);
    e.append(" nor $");
    e.append(file_var);
    e.append(" is set");
    Err(e)
}

/// What the client is told to do.
#[derive(Debug)]
pub enum Command {
    ListApps,
    GetApp { name: String },
    CreateApp,
    UpdateApp { name: String },
    DeleteApp { name: String },
    ListRollouts { app: String },
    RollOut { app: String },
    IssueDeployKey { app: String },
}

#[derive(Debug, Clone, Copy, PartialEq, Eq, Structural)]
pub enum Method {
    Get,
    Post,
    Patch,
    Delete,
}

/// What a request carries.
#[derive(Debug, Clone, Copy, PartialEq, Eq, Structural)]
pub enum Payload {
    Nothing,
    /// The spec file, as it is.
    Toml,
    Json,
}

/// A request to the daemon.
#[derive(Debug)]
pub struct ApiRequest {
    pub method: Method,
    pub path: String,
    pub token: TokenKind,
    pub payload: Payload,
}

impl ApiRequest {
    pub open spec fn is(
        self,
        method: Method,
        path: Seq<char>,
        token: TokenKind,
        payload: Payload,
    ) -> bool {
        self.method == method && self.path@ == path && self.token == token && self.payload
            == payload
    }
}

fn path_of(name: &str, tail: &str) -> (r: String)
    ensures
        r@ == "/apps/"@ + name@ + tail@,
{
    let mut r = String::from_str("/apps/");
    r.append(name);
    r.append(tail);
    r
}

/// The request that a command is carried out with. Rollouts go by the app's own
/// token, everything else by the admin's.
pub fn request_for(command: &Command) -> (r: ApiRequest)
    ensures
        match command {
            Command::ListApps => r.is(Method::Get, "/apps"@, TokenKind::Admin, Payload::Nothing),
            Command::GetApp { name } => r.is(
                Method::Get,
                "/apps/"@ + name@,
                TokenKind::Admin,
                Payload::Nothing,
            ),
            Command::CreateApp => r.is(Method::Post, "/apps"@, TokenKind::Admin, Payload::Toml),
            Command::UpdateApp { name } => r.is(
                Method::Patch,
                "/apps/"@ + name@,
                TokenKind::Admin,
                Payload::Toml,
            ),
            Command::DeleteApp { name } => r.is(
                Method::Delete,
                "/apps/"@ + name@,
                TokenKind::Admin,
                Payload::Nothing,
            ),
            Command::ListRollouts { app } => r.is(
                Method::Get,
                "/apps/"@ + app@ + "/rollouts"@,
                TokenKind::Deploy,
                Payload::Nothing,
            ),
            Command::RollOut { app } => r.is(
                Method::Post,
                "/apps/"@ + app@ + "/rollouts"@,
                TokenKind::Deploy,
                Payload::Json,
            ),
            Command::IssueDeployKey { app } => r.is(
                Method::Post,
                "/apps/"@ + app@ + "/deploy-keys"@,
                TokenKind::Admin,
                Payload::Json,
            ),
        },
{
    let admin = TokenKind::Admin;
    match command {
        Command::ListApps => ApiRequest {
            method: Method::Get,
            path: String::from_str("/apps"),
            token: admin,
            payload: Payload::Nothing,
        },
        Command::GetApp { name } => {
            let path = path_of(name.as_str(), "");
            proof {
                reveal_strlit("");
                assert(path@ =~= "/apps/"@ + name@);
            }
            ApiRequest { method: Method::Get, path, token: admin, payload: Payload::Nothing }
        },
        Command::CreateApp => ApiRequest {
            method: Method::Post,
            path: String::from_str("/apps"),
            token: admin,
            payload: Payload::Toml,
        },
        Command::UpdateApp { name } => {
            let path = path_of(name.as_str(), "");
            proof {
                reveal_strlit("");
                assert(path@ =~= "/apps/"@ + name@);
            }
            ApiRequest { method: Method::Patch, path, token: admin, payload: Payload::Toml }
        },
        Command::DeleteApp { name } => {
            let path = path_of(name.as_str(), "");
            proof {
                reveal_strlit("");
                assert(path@ =~= "/apps/"@ + name@);
            }
            ApiRequest { method: Method::Delete, path, token: admin, payload: Payload::Nothing }
        },
        Command::ListRollouts { app } => ApiRequest {
            method: Method::Get,
            path: path_of(app.as_str(), "/rollouts"),
            token: TokenKind::Deploy,
            payload: Payload::Nothing,
        },
        Command::RollOut { app } => ApiRequest {
            method: Method::Post,
            path: path_of(app.as_str(), "/rollouts"),
            token: TokenKind::Deploy,
            payload: Payload::Json,
        },
        Command::IssueDeployKey { app } => ApiRequest {
            method: Method::Post,
            path: path_of(app.as_str(), "/deploy-keys"),
            token: admin,
            payload: Payload::Json,
        },
    }
}

/// The address of a request.
pub fn request_url(base: &str, path: &str) -> (r: String)
    ensures
        r@ == base@ + path@,
{
    let mut r = String::from_str(base);
    r.append(path);
    r
}

/// What is told of a request that the daemon did not carry out.
pub fn failure_message(url: &str, status: &str, body: &str) -> (r: String)
    ensures
        r@ == url@ + " → "@ + status@ + ": "@ + trim(body@),
{
    let mut r = String::from_str(url);
    r.append(" → ");
    r.append(status);
    r.append(": ");
    r.append(trimmed_str(body).as_str());
    r
}

/// A text with as many spaces behind it as it takes to be so wide.
pub open spec fn padded(s: Seq<char>, width: nat) -> Seq<char> {
    if s.len() >= width {
        s
    } else {
        s + Seq::new((width - s.len()) as nat, |i: int| ' ')
    }
}

pub fn pad(s: &str, width: usize) -> (r: String)
    ensures
        r@ == padded(s@, width as nat),
{
    let mut v = chars_of(s);
    while v.len() < width
        invariant
            v@.len() >= s@.len(),
            s@.len() < v@.len() ==> v@.len() <= width,
            v@ == s@ + Seq::new((v@.len() - s@.len()) as nat, |i: int| ' '),
        decreases width - v@.len(),
    {
        v.push(' ');
        proof {
            assert(v@ =~= s@ + Seq::new((v@.len() - s@.len()) as nat, |i: int| ' '));
        }
    }
    proof {
        assert(v@ =~= padded(s@, width as nat));
    }
    string_of(&v)
}

/// An app as the daemon describes it.
#[derive(Debug)]
pub struct AppRow {
    pub name: String,
    pub subdomain: String,
    pub repo: String,
    pub port: u16,
    pub state: String,
    pub current_rollout: Option<Rollout>,
}

/// What is shown where there is no app.
pub const NO_APPS: &'static str = "(no apps registered)";

/// What is shown where there is no rollout.
pub const NO_ROLLOUTS: &'static str = "(no rollouts)";

/// The head of the table of apps.
pub const APPS_HEAD: &'static str =
    "NAME                 SUBDOMAIN            STATE      REPO                                     ROLLOUT";

/// The head of the table of rollouts.
pub const ROLLOUTS_HEAD: &'static str = "CREATED_AT               TAG";

/// The line of an app in the table.
pub open spec fn app_line(a: AppRow) -> Seq<char> {
    padded(a.name@, 20) + " "@ + padded(a.subdomain@, 20) + " "@ + padded(a.state@, 10) + " "@
        + padded(a.repo@, 40) + " "@ + (match a.current_rollout {
        Some(x) => x.tag@,
        None => "-"@,
    })
}

fn show_app_line(a: &AppRow) -> (r: String)
    ensures
        r@ == app_line(*a),
{
    let mut r = pad(a.name.as_str(), 20);
    r.append(" ");
    r.append(pad(a.subdomain.as_str(), 20).as_str());
    r.append(" ");
    r.append(pad(a.state.as_str(), 10).as_str());
    r.append(" ");
    r.append(pad(a.repo.as_str(), 40).as_str());
    r.append(" ");
    match &a.current_rollout {
        Some(x) => r.append(x.tag.as_str()),
        None => r.append("-"),
    }
    r
}

/// The table of apps, line by line; no line at all where there is no app.
pub fn apps_table(apps: &Vec<AppRow>) -> (r: Vec<String>)
    ensures
        texts(r@) == (if apps@.len() == 0 {
            seq![]
        } else {
            seq![APPS_HEAD@] + apps@.map_values(|a: AppRow| app_line(a))
        }),
{
    let mut out: Vec<String> = Vec::new();
    if apps.len() == 0 {
        proof {
            assert(texts(out@) =~= seq![]);
        }
        return out;
    }
    out.push(String::from_str(APPS_HEAD));
    let ghost lines = apps@.map_values(|a: AppRow| app_line(a));
    let mut i: usize = 0;
    proof {
        assert(texts(out@) =~= seq![APPS_HEAD@] + lines.take(0));
    }
    while i < apps.len()
        invariant
            i <= apps@.len(),
            lines == apps@.map_values(|a: AppRow| app_line(a)),
            texts(out@) == seq![APPS_HEAD@] + lines.take(i as int),
        decreases apps@.len() - i,
    {
        let ghost before = out@;
        let line = show_app_line(&apps[i]);
        out.push(line);
        proof {
            assert(texts(out@) =~= texts(before).push(line@));
            assert(texts(out@) =~= seq![APPS_HEAD@] + lines.take(i + 1));
        }
        i = i + 1;
    }
    proof {
        assert(lines.take(i as int) =~= lines);
    }
    out
}

fn labelled(label: &str, text: &str) -> (r: String)
    ensures
        r@ == label@ + text@,
{
    let mut r = String::from_str(label);
    r.append(text);
    r
}

/// What the last line about an app says of its rollout.
pub open spec fn rollout_note(a: AppRow) -> Seq<char> {
    match a.current_rollout {
        Some(x) => "rollout   : "@ + x.tag@ + " (at "@ + x.created_at@ + ")"@,
        None => "rollout   : (none — app registered but never deployed)"@,
    }
}

/// The lines about an app.
pub open spec fn app_lines(a: AppRow) -> Seq<Seq<char>> {
    seq![
        "name      : "@ + a.name@,
        "subdomain : "@ + a.subdomain@,
        "repo      : "@ + a.repo@,
        "port      : "@ + decimal(a.port as nat),
        "state     : "@ + a.state@,
        rollout_note(a),
    ]
}

/// An app, line by line.
pub fn app_human(a: &AppRow) -> (r: Vec<String>)
    ensures
        texts(r@) == app_lines(*a),
{
    let mut out: Vec<String> = Vec::new();
    out.push(labelled("name      : ", a.name.as_str()));
    out.push(labelled("subdomain : ", a.subdomain.as_str()));
    out.push(labelled("repo      : ", a.repo.as_str()));
    out.push(labelled("port      : ", decimal_text(a.port as u64).as_str()));
    out.push(labelled("state     : ", a.state.as_str()));
    match &a.current_rollout {
        Some(x) => {
            let mut line = labelled("rollout   : ", x.tag.as_str());
            line.append(" (at ");
            line.append(x.created_at.as_str());
            line.append(")");
            out.push(line);
        },
        None => {
            out.push(String::from_str("rollout   : (none — app registered but never deployed)"));
        },
    }
    proof {
        assert(texts(out@) =~= app_lines(*a));
    }
    out
}

/// The line of a rollout in the table.
pub open spec fn rollout_line(x: Rollout) -> Seq<char> {
    padded(x.created_at@, 24) + " "@ + x.tag@
}

/// The table of rollouts, line by line; no line at all where there is none.
pub fn rollouts_table(rollouts: &Vec<Rollout>) -> (r: Vec<String>)
    ensures
        texts(r@) == (if rollouts@.len() == 0 {
            seq![]
        } else {
            seq![ROLLOUTS_HEAD@] + rollouts@.map_values(|x: Rollout| rollout_line(x))
        }),
{
    let mut out: Vec<String> = Vec::new();
    if rollouts.len() == 0 {
        proof {
            assert(texts(out@) =~= seq![]);
        }
        return out;
    }
    out.push(String::from_str(ROLLOUTS_HEAD));
    let ghost lines = rollouts@.map_values(|x: Rollout| rollout_line(x));
    let mut i: usize = 0;
    proof {
        assert(texts(out@) =~= seq![ROLLOUTS_HEAD@] + lines.take(0));
    }
    while i < rollouts.len()
        invariant
            i <= rollouts@.len(),
            lines == rollouts@.map_values(|x: Rollout| rollout_line(x)),
            texts(out@) == seq![ROLLOUTS_HEAD@] + lines.take(i as int),
        decreases rollouts@.len() - i,
    {
        let ghost before = out@;
        let mut line = pad(rollouts[i].created_at.as_str(), 24);
        line.append(" ");
        line.append(rollouts[i].tag.as_str());
        out.push(line);
        proof {
            assert(texts(out@) =~= texts(before).push(line@));
            assert(texts(out@) =~= seq![ROLLOUTS_HEAD@] + lines.take(i + 1));
        }
        i = i + 1;
    }
    proof {
        assert(lines.take(i as int) =~= lines);
    }
    out
}

// ---- laws ------------------------------------------------------------------

/// A text is made as wide as a column by blanks behind it; one that is as wide
/// or wider stays as it is.
pub proof fn lemma_padded(s: Seq<char>, width: nat)
    ensures
        s.len() >= width ==> padded(s, width) == s,
        s.len() < width ==> padded(s, width).len() == width && padded(s, width).take(
            s.len() as int,
        ) == s && forall|i: int|
            s.len() <= i < width ==> #[trigger] padded(s, width)[i] == ' ',
{
    if s.len() < width {
        assert(padded(s, width).take(s.len() as int) =~= s);
    }
}

/// The columns of the table of apps stand below their heads: name, subdomain,
/// state, repository and tag, from the same places on in every line whose texts
/// fit their columns.
pub proof fn lemma_app_line(a: AppRow)
    requires
        a.name@.len() <= 20,
        a.subdomain@.len() <= 20,
        a.state@.len() <= 10,
        a.repo@.len() <= 40,
    ensures
        ({
            let l = app_line(a);
            &&& l.subrange(0, a.name@.len() as int) == a.name@
            &&& l.subrange(21, 21 + a.subdomain@.len() as int) == a.subdomain@
            &&& l.subrange(42, 42 + a.state@.len() as int) == a.state@
            &&& l.subrange(53, 53 + a.repo@.len() as int) == a.repo@
            &&& l.skip(94) == match a.current_rollout {
                Some(x) => x.tag@,
                None => seq!['-'],
            }
        }),
{
    reveal_strlit(" ");
    reveal_strlit("-");
    lemma_padded(a.name@, 20);
    lemma_padded(a.subdomain@, 20);
    lemma_padded(a.state@, 10);
    lemma_padded(a.repo@, 40);
    let l = app_line(a);
    let tag = match a.current_rollout {
        Some(x) => x.tag@,
        None => "-"@,
    };
    assert("-"@ =~= seq!['-']);
    let c1 = padded(a.name@, 20) + " "@;
    let c2 = c1 + padded(a.subdomain@, 20) + " "@;
    let c3 = c2 + padded(a.state@, 10) + " "@;
    let c4 = c3 + padded(a.repo@, 40) + " "@;
    assert(c1.len() == 21 && c2.len() == 42 && c3.len() == 53 && c4.len() == 94);
    assert(l =~= c4 + tag);
    assert(l.subrange(0, a.name@.len() as int) =~= a.name@);
    assert(l.subrange(21, 21 + a.subdomain@.len() as int) =~= a.subdomain@);
    assert(l.subrange(42, 42 + a.state@.len() as int) =~= a.state@);
    assert(l.subrange(53, 53 + a.repo@.len() as int) =~= a.repo@);
    assert(l.skip(94) =~= tag);
}

/// A line of the table of apps: each text in its column, with a blank between
/// columns, and the tag of the current rollout or a hyphen.
pub proof fn lemma_wide_app_line(a: AppRow)
    ensures
        app_line(a) == padded(a.name@, 20) + seq![' '] + padded(a.subdomain@, 20) + seq![' ']
            + padded(a.state@, 10) + seq![' '] + padded(a.repo@, 40) + seq![' '] + (
        match a.current_rollout {
            Some(x) => x.tag@,
            None => seq!['-'],
        }),
{
    reveal_strlit(" ");
    reveal_strlit("-");
    assert(" "@ =~= seq![' ']);
    assert("-"@ =~= seq!['-']);
}

/// The lines about an app, in this order: name, subdomain, repository, port,
/// state and rollout.
pub proof fn lemma_app_lines(a: AppRow)
    ensures
        ({
            let l = app_lines(a);
            &&& l.len() == 6
            &&& l[0] == "name      : "@ + a.name@
            &&& l[1] == "subdomain : "@ + a.subdomain@
            &&& l[2] == "repo      : "@ + a.repo@
            &&& l[3] == "port      : "@ + decimal(a.port as nat)
            &&& l[4] == "state     : "@ + a.state@
            &&& l[5] == match a.current_rollout {
                Some(x) => "rollout   : "@ + x.tag@ + " (at "@ + x.created_at@ + ")"@,
                None => "rollout   : (none — app registered but never deployed)"@,
            }
        }),
{
}

/// A line of the table of rollouts: when, and which tag.
pub proof fn lemma_rollout_line(x: Rollout)
    ensures
        rollout_line(x) == padded(x.created_at@, 24) + seq![' '] + x.tag@,
        x.created_at@.len() <= 24 ==> rollout_line(x).skip(25) == x.tag@,
{
    reveal_strlit(" ");
    assert(" "@ =~= seq![' ']);
    lemma_padded(x.created_at@, 24);
    if x.created_at@.len() <= 24 {
        assert(rollout_line(x).skip(25) =~= x.tag@);
    }
}

/// Where the two tokens are taken from.
pub proof fn lemma_token_names()
    ensures
        TokenKind::Admin.direct_name() == "BUGPOT_ADMIN_TOKEN"@,
        TokenKind::Admin.file_name() == "BUGPOT_ADMIN_TOKEN_FILE"@,
        TokenKind::Deploy.direct_name() == "BUGPOT_DEPLOY_TOKEN"@,
        TokenKind::Deploy.file_name() == "BUGPOT_DEPLOY_TOKEN_FILE"@,
{
}

/// A request is what its four parts say.
pub proof fn lemma_request(
    r: ApiRequest,
    method: Method,
    path: Seq<char>,
    token: TokenKind,
    payload: Payload,
)
    requires
        r.is(method, path, token, payload),
    ensures
        r.method == method,
        r.path@ == path,
        r.token == token,
        r.payload == payload,
{
}

/// Where the daemon is asked by default, and what is shown above the tables and
/// in their place.
pub proof fn lemma_fixed_texts()
    ensures
        DEFAULT_ADMIN_URL@ == "http://127.0.0.1:8081"@,
        NO_APPS@ == "(no apps registered)"@,
        NO_ROLLOUTS@ == "(no rollouts)"@,
        APPS_HEAD@
            == "NAME                 SUBDOMAIN            STATE      REPO                                     ROLLOUT"@,
        ROLLOUTS_HEAD@ == "CREATED_AT               TAG"@,
{
}

} // verus!
