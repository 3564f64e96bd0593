use ai_allowance::clock::UtcTime;
use ai_allowance::local::{
    accept_account, account_to_wire, auto_wire_local_accounts, connect_local_account,
    discover_local_accounts, Findings,
};
use ai_allowance::models::{
    current_month_bounds, github_cli_login, github_login_arguments, login_of, AccountInput,
    CommandOutput, ProviderAccount, ProviderSnapshot,
};

fn input(scope: &str, secret: &str) -> AccountInput {
    AccountInput {
        provider: "github".into(),
        label: "Work".into(),
        scope_type: "organization".into(),
        scope: scope.into(),
        secret: secret.into(),
    }
}

fn account(scope_type: &str, scope: &str) -> ProviderAccount {
    ProviderAccount {
        id: "id".into(),
        provider: "openai".into(),
        label: "Label".into(),
        scope_type: scope_type.into(),
        scope: scope.into(),
        secret: "secret".into(),
    }
}

#[test]
fn an_input_becomes_an_account() {
    let account = input("  Acme Corp/42\u{3000}\n", " s ").into_account();
    assert_eq!(account.id, "github-organization-Acme-Corp-42");
    assert_eq!(account.scope, "Acme Corp/42");
    assert_eq!(account.provider, "github");
    assert_eq!(account.label, "Work");
    assert_eq!(account.scope_type, "organization");
    assert_eq!(account.secret, " s ");
    assert_eq!(input(" \t", "s").into_account().id, "github-organization-default");
    assert_eq!(input("é_ü", "s").into_account().id, "github-organization----");
}

#[test]
fn an_input_without_a_secret_is_refused() {
    assert_eq!(
        accept_account(input("acme", " \u{a0} ")).unwrap_err(),
        "A provider token or admin API key is required."
    );
    assert_eq!(accept_account(input("acme", "key")).unwrap().id, "github-organization-acme");
}

#[test]
fn a_scope_is_shown_or_described() {
    assert_eq!(account("organization", "acme").display_scope(), "acme");
    assert_eq!(account("personal", "").display_scope(), "Personal account");
    assert_eq!(account("local_env", "").display_scope(), "Local environment");
    assert_eq!(account("organization", "").display_scope(), "Organization");
    assert_eq!(account("local_cli", "").display_scope(), "Organization");
}

#[test]
fn a_failed_refresh_becomes_a_snapshot() {
    let now = UtcTime::new(1_789_473_600, 559_000_000).unwrap();
    let snapshot = ProviderSnapshot::error_at(&account("personal", ""), "No.".into(), &now);
    assert_eq!(snapshot.account_id, "id");
    assert_eq!(snapshot.provider, "openai");
    assert_eq!(snapshot.label, "Label");
    assert_eq!(snapshot.scope, "Personal account");
    assert_eq!(snapshot.freshness, "error");
    assert_eq!(snapshot.updated_at, "2026-09-15T12:00:00.559+00:00");
    assert!(snapshot.reset_at.is_none());
    assert!(snapshot.metrics.is_empty());
    assert_eq!(snapshot.message.as_deref(), Some("No."));
    let by_clock = ProviderSnapshot::error(&account("personal", ""), "No.".into());
    assert_eq!(by_clock.message.as_deref(), Some("No."));
    assert!(by_clock.updated_at > "2024".to_string());
}

#[test]
fn the_current_month_is_bounded() {
    let (start, end) = current_month_bounds();
    assert_eq!(start.len(), 20);
    assert!(start.ends_with("-01T00:00:00Z"));
    assert!(end.ends_with("-01T00:00:00Z"));
    assert!(start < end);
}

fn output(success: bool, stdout: &[u8]) -> Option<CommandOutput> {
    Some(CommandOutput { success, stdout: stdout.to_vec(), stderr: vec![] })
}

#[test]
fn the_github_login_is_read_from_the_cli() {
    assert_eq!(github_login_arguments(), vec!["api", "user", "--jq", ".login"]);
    assert_eq!(
        github_cli_login(None).unwrap_err(),
        "GitHub CLI is not installed or not available on PATH."
    );
    assert_eq!(
        github_cli_login(output(false, b"me\n")).unwrap_err(),
        "GitHub CLI is installed but not authenticated."
    );
    assert_eq!(
        github_cli_login(output(true, b" \n")).unwrap_err(),
        "GitHub CLI did not return an authenticated account."
    );
    assert_eq!(github_cli_login(output(true, b"octocat\n")).unwrap(), "octocat");
    assert_eq!(github_cli_login(output(true, b"oct\xffcat")).unwrap(), "oct\u{fffd}cat");
    assert_eq!(login_of("\tme ").unwrap(), "me");
    assert!(login_of("").is_err());
}

fn everything() -> Findings {
    Findings {
        github_login: Some("octocat".into()),
        anthropic_key: true,
        openai_key: true,
        anthropic_command: true,
        openai_command: true,
    }
}

#[test]
fn what_is_found_is_listed_in_order() {
    let found = discover_local_accounts(everything(), "Sonata");
    let ids: Vec<&str> = found.iter().map(|c| c.id.as_str()).collect();
    assert_eq!(ids, vec!["github-local-octocat", "anthropic-env", "openai-env", "anthropic-local", "openai-local"]);
    assert_eq!(found[0].account, "octocat");
    assert_eq!(found[0].source, "GitHub CLI");
    assert_eq!(found[1].account, "ANTHROPIC_API_KEY");
    assert_eq!(found[1].label, "Anthropic API");
    assert_eq!(
        found[2].message,
        "Uses OPENAI_API_KEY directly from the app environment; the key is not copied into SQLite or the credential vault."
    );
    assert_eq!(found[3].label, "Sonata Code");
    assert_eq!(found[3].source, "Sonata Code CLI");
    assert_eq!(found[3].provider, "anthropic");
    assert_eq!(found[4].label, "Codex CLI");
    assert_eq!(found[4].source, "Codex CLI CLI");
    assert_eq!(found[4].account, "Local CLI installation");
    assert_eq!(
        found[4].message,
        "Installed, but its local consumer login is not imported because no documented third-party allowance API is available."
    );
    let connectable: Vec<bool> = found.iter().map(|c| c.can_connect).collect();
    assert_eq!(connectable, vec![true, true, true, false, false]);
    assert!(found.iter().all(|c| !c.connected));

    let nothing = Findings {
        github_login: None,
        anthropic_key: false,
        openai_key: false,
        anthropic_command: false,
        openai_command: false,
    };
    assert!(discover_local_accounts(nothing, "Sonata").is_empty());
}

#[test]
fn what_can_be_connected_is_wired_without_a_secret() {
    let (accounts, candidates) = auto_wire_local_accounts(discover_local_accounts(everything(), "Sonata"));
    assert_eq!(accounts.len(), 3);
    assert_eq!(accounts[0].scope_type, "local_cli");
    assert_eq!(accounts[0].scope, "octocat");
    assert_eq!(accounts[1].scope_type, "local_env");
    assert_eq!(accounts[1].scope, "ANTHROPIC_API_KEY");
    assert_eq!(accounts[2].id, "openai-env");
    assert!(accounts.iter().all(|a| a.secret.is_empty()));
    let connected: Vec<bool> = candidates.iter().map(|c| c.connected).collect();
    assert_eq!(connected, vec![true, true, true, false, false]);
    assert!(account_to_wire(&candidates[3]).is_none());
}

#[test]
fn the_github_account_is_connected_if_it_is_still_the_same() {
    let account = connect_local_account("github-local-octocat", Ok("octocat".into())).unwrap();
    assert_eq!(account.id, "github-local-octocat");
    assert_eq!(account.provider, "github");
    assert_eq!(account.label, "GitHub Copilot");
    assert_eq!(account.scope_type, "local_cli");
    assert_eq!(account.scope, "octocat");
    assert_eq!(account.secret, "");
    assert_eq!(
        connect_local_account("github-local-other", Ok("octocat".into())).unwrap_err(),
        "The discovered account changed. Run discovery again."
    );
    assert_eq!(connect_local_account("x", Err("No login.".into())).unwrap_err(), "No login.");
    let wired = auto_wire_local_accounts(discover_local_accounts(everything(), "Sonata")).0;
    assert_eq!(wired[0].id, account.id);
    assert_eq!(wired[0].scope_type, account.scope_type);
    assert_eq!(wired[0].label, account.label);
}
