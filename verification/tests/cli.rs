use bugpot::cli::{
    app_human, apps_table, failure_message, pad, request_for, request_url, resolve_token,
    rollouts_table, AppRow, Command, Method, Payload, TokenKind, APPS_HEAD,
};
use bugpot::config::spec::Rollout;

#[test]
fn token_literal_takes_precedence_and_trims() {
    let got = resolve_token(Some("  secret  "), None, "DIRECT", "FILE").unwrap();
    assert_eq!(got, "secret");
}

#[test]
fn token_literal_rejects_empty() {
    let err = resolve_token(Some("   "), None, "DIRECT", "FILE").unwrap_err();
    assert!(err.contains("empty"), "{err}");
    assert!(err.contains("DIRECT"), "{err}");
}

#[test]
fn token_missing_both_errors_clearly() {
    let err = resolve_token(None, None, "DIRECT", "FILE").unwrap_err();
    assert!(err.contains("DIRECT"), "{err}");
    assert!(err.contains("FILE"), "{err}");
}

#[test]
fn token_file_path_is_read() {
    let got = resolve_token(None, Some("  filetoken  \n"), "DIRECT", "FILE").unwrap();
    assert_eq!(got, "filetoken");
}

#[test]
fn token_errors_are_spelled_out() {
    assert_eq!(
        resolve_token(Some(""), Some("x"), "D", "F").unwrap_err(),
        "$D is set but empty"
    );
    assert_eq!(
        resolve_token(None, Some(" \n"), "D", "F").unwrap_err(),
        "$F points at an empty file"
    );
    assert_eq!(resolve_token(None, None, "D", "F").unwrap_err(), "Neither $D nor $F is set");
}

#[test]
fn tokens_come_from_variables_of_their_kind() {
    assert_eq!(TokenKind::Admin.direct_var(), "BUGPOT_ADMIN_TOKEN");
    assert_eq!(TokenKind::Admin.file_var(), "BUGPOT_ADMIN_TOKEN_FILE");
    assert_eq!(TokenKind::Deploy.direct_var(), "BUGPOT_DEPLOY_TOKEN");
    assert_eq!(TokenKind::Deploy.file_var(), "BUGPOT_DEPLOY_TOKEN_FILE");
}

#[test]
fn commands_become_requests() {
    let alpha = || "alpha".to_owned();
    for (command, method, path, token, payload) in [
        (Command::ListApps, Method::Get, "/apps", TokenKind::Admin, Payload::Nothing),
        (
            Command::GetApp { name: alpha() },
            Method::Get,
            "/apps/alpha",
            TokenKind::Admin,
            Payload::Nothing,
        ),
        (Command::CreateApp, Method::Post, "/apps", TokenKind::Admin, Payload::Toml),
        (
            Command::UpdateApp { name: alpha() },
            Method::Patch,
            "/apps/alpha",
            TokenKind::Admin,
            Payload::Toml,
        ),
        (
            Command::DeleteApp { name: alpha() },
            Method::Delete,
            "/apps/alpha",
            TokenKind::Admin,
            Payload::Nothing,
        ),
        (
            Command::ListRollouts { app: alpha() },
            Method::Get,
            "/apps/alpha/rollouts",
            TokenKind::Deploy,
            Payload::Nothing,
        ),
        (
            Command::RollOut { app: alpha() },
            Method::Post,
            "/apps/alpha/rollouts",
            TokenKind::Deploy,
            Payload::Json,
        ),
        (
            Command::IssueDeployKey { app: alpha() },
            Method::Post,
            "/apps/alpha/deploy-keys",
            TokenKind::Admin,
            Payload::Json,
        ),
    ] {
        let r = request_for(&command);
        assert_eq!(r.method, method);
        assert_eq!(r.path, path);
        assert_eq!(r.token, token);
        assert_eq!(r.payload, payload);
    }
    assert_eq!(request_url("http://127.0.0.1:8081", "/apps"), "http://127.0.0.1:8081/apps");
}

#[test]
fn failures_show_url_status_and_body() {
    assert_eq!(
        failure_message("http://h/apps", "404 Not Found", " gone \n"),
        "http://h/apps → 404 Not Found: gone"
    );
}

fn row(rollout: Option<Rollout>) -> AppRow {
    AppRow {
        name: "alpha".into(),
        subdomain: "alpha".into(),
        repo: "ghcr.io/x/y".into(),
        port: 8080,
        state: "running".into(),
        current_rollout: rollout,
    }
}

fn v1() -> Rollout {
    Rollout { tag: "v1".into(), created_at: "2026-01-01T00:00:00Z".into() }
}

#[test]
fn padding_counts_characters() {
    assert_eq!(pad("é", 3), format!("{:<3}", "é"));
    assert_eq!(pad("longer", 3), "longer");
}

#[test]
fn apps_show_as_a_table() {
    assert!(apps_table(&vec![]).is_empty());
    let lines = apps_table(&vec![row(Some(v1())), row(None)]);
    assert_eq!(lines[0], APPS_HEAD);
    assert_eq!(
        lines[1],
        format!(
            "{:<20} {:<20} {:<10} {:<40} {}",
            "alpha", "alpha", "running", "ghcr.io/x/y", "v1"
        )
    );
    assert!(lines[2].ends_with(" -"), "{}", lines[2]);
    assert_eq!(lines.len(), 3);
}

#[test]
fn one_app_shows_line_by_line() {
    let lines = app_human(&row(Some(v1())));
    assert_eq!(
        lines,
        vec![
            "name      : alpha",
            "subdomain : alpha",
            "repo      : ghcr.io/x/y",
            "port      : 8080",
            "state     : running",
            "rollout   : v1 (at 2026-01-01T00:00:00Z)",
        ]
    );
    let lines = app_human(&row(None));
    assert_eq!(lines[5], "rollout   : (none — app registered but never deployed)");
}

#[test]
fn rollouts_show_as_a_table() {
    assert!(rollouts_table(&vec![]).is_empty());
    let lines = rollouts_table(&vec![v1()]);
    assert_eq!(lines, vec!["CREATED_AT               TAG", "2026-01-01T00:00:00Z     v1"]);
}
