use ai_allowance::amount::Amount;
use ai_allowance::clock::UtcTime;
use ai_allowance::json::parse_json;
use ai_allowance::models::{CommandOutput, ProviderAccount};
use ai_allowance::refresh::{
    complaint_message, key_variable, next_step, refresh, settle, settled, Event, HttpRequest, Step,
};

/// A name for Anthropic's consumer product.
const PRODUCT: &str = "Sonata";

fn number(amount: Amount) -> f64 {
    f64::from_bits(amount.bits)
}

fn account(provider: &str, scope_type: &str, scope: &str, secret: &str) -> ProviderAccount {
    ProviderAccount {
        id: "id".into(),
        provider: provider.into(),
        label: "Label".into(),
        scope_type: scope_type.into(),
        scope: scope.into(),
        secret: secret.into(),
    }
}

fn noon() -> UtcTime {
    UtcTime::new(1_789_473_600, 0).unwrap()
}

fn next_year() -> UtcTime {
    UtcTime::new(1_800_000_000, 0).unwrap()
}

fn failure(step: Step) -> String {
    match step {
        Step::Done { result: Err(message) } => message,
        _ => panic!("no failure"),
    }
}

fn header<'a>(request: &'a HttpRequest, name: &str) -> Option<&'a str> {
    request.headers.iter().find(|(n, _)| n == name).map(|(_, value)| value.as_str())
}

fn output(success: bool, stdout: &str, stderr: &str) -> Option<CommandOutput> {
    Some(CommandOutput {
        success,
        stdout: stdout.as_bytes().to_vec(),
        stderr: stderr.as_bytes().to_vec(),
    })
}

fn start(account: ProviderAccount) -> Step {
    next_step(Event::Started { account }, PRODUCT, &noon())
}

#[test]
fn keys_of_the_environment_have_their_variables() {
    assert_eq!(key_variable("anthropic").as_deref(), Some("ANTHROPIC_API_KEY"));
    assert_eq!(key_variable("openai").as_deref(), Some("OPENAI_API_KEY"));
    assert_eq!(key_variable("github"), None);
}

#[test]
fn a_refresh_fails_without_a_credential_or_a_known_provider() {
    assert_eq!(
        failure(start(account("github", "organization", "acme", ""))),
        "Credential is missing from the OS vault."
    );
    assert_eq!(failure(start(account("mystery", "organization", "acme", "k"))), "Unsupported provider.");
    assert_eq!(
        failure(start(account("github", "local_env", "", ""))),
        "Unsupported environment-backed provider."
    );
}

#[test]
fn a_key_is_read_from_the_environment() {
    let step = start(account("openai", "local_env", "OPENAI_API_KEY", ""));
    let (asked, variable) = match step {
        Step::ReadVariable { account, variable } => (account, variable),
        _ => panic!("no variable is read"),
    };
    assert_eq!(variable, "OPENAI_API_KEY");
    let missing = next_step(Event::VariableRead { account: asked, value: None }, PRODUCT, &noon());
    assert_eq!(failure(missing), "OPENAI_API_KEY is no longer available to the application.");

    let asked = account("openai", "local_env", "OPENAI_API_KEY", "");
    let step = next_step(Event::VariableRead { account: asked, value: Some("key".into()) }, PRODUCT, &noon());
    match step {
        Step::FetchCosts { account, start, request } => {
            assert_eq!(account.secret, "key");
            assert_eq!(start, 1_788_220_800);
            assert_eq!(
                request.url,
                "https://api.openai.com/v1/organization/costs?start_time=1788220800&limit=31"
            );
            assert_eq!(request.bearer.as_deref(), Some("key"));
            assert!(request.headers.is_empty());
        }
        _ => panic!("no costs are asked for"),
    }

    let empty = account("anthropic", "local_env", "ANTHROPIC_API_KEY", "");
    let step = next_step(Event::VariableRead { account: empty, value: Some(String::new()) }, PRODUCT, &noon());
    assert_eq!(failure(step), "Credential is missing from the OS vault.");

    let wrong = account("github", "local_env", "", "");
    let step = next_step(Event::VariableRead { account: wrong, value: Some("k".into()) }, PRODUCT, &noon());
    assert_eq!(failure(step), "Unsupported environment-backed provider.");
}

#[test]
fn personal_plans_are_reported_as_unavailable() {
    for (provider, message) in [
        (
            "anthropic",
            "Sonata Pro/Max allowance is not exposed through a documented third-party API.",
        ),
        (
            "openai",
            "Personal ChatGPT/Codex allowance is not exposed through a documented third-party API.",
        ),
    ] {
        match start(account(provider, "personal", "", "key")) {
            Step::Done { result: Ok(snapshot) } => {
                assert_eq!(snapshot.freshness, "unsupported");
                assert!(snapshot.metrics.is_empty());
                assert!(snapshot.reset_at.is_none());
                assert_eq!(snapshot.account_id, "id");
                assert_eq!(snapshot.scope, "Personal account");
                assert_eq!(snapshot.message.as_deref(), Some(message));
            }
            _ => panic!("a request was made"),
        }
    }
}

#[test]
fn an_organization_is_asked_for_its_billing_report() {
    match start(account("github", "organization", "acme", "token")) {
        Step::FetchBilling { request, .. } => {
            assert_eq!(
                request.url,
                "https://api.github.com/organizations/acme/settings/billing/ai_credit/usage?year=2026&month=9"
            );
            assert_eq!(header(&request, "Authorization"), Some("Bearer token"));
            assert_eq!(header(&request, "Accept"), Some("application/vnd.github+json"));
            assert_eq!(header(&request, "X-GitHub-Api-Version"), Some("2026-03-10"));
            assert_eq!(header(&request, "User-Agent"), Some("ai-allowance"));
            assert!(request.bearer.is_none());
        }
        _ => panic!("no report is asked for"),
    }
    match start(account("github", "personal", "octocat", "token")) {
        Step::FetchBilling { request, .. } => {
            assert_eq!(
                request.url,
                "https://api.github.com/users/octocat/settings/billing/ai_credit/usage?year=2026&month=9"
            );
        }
        _ => panic!("no report is asked for"),
    }
    assert_eq!(
        failure(start(account("github", "personal", "", "token"))),
        "GitHub personal reporting requires the account username."
    );
}

#[test]
fn the_cli_is_asked_for_the_quota_first() {
    match start(account("github", "local_cli", "octocat", "")) {
        Step::AskQuota { arguments, .. } => assert_eq!(
            arguments,
            vec!["api", "--method", "GET", "-H", "Accept: application/json", "/copilot_internal/user"]
        ),
        _ => panic!("the quota is not asked for"),
    }
}

#[test]
fn a_quota_ends_the_refresh() {
    let answer = r#"{"quota_snapshots":{"premium_interactions":{"entitlement":10,"remaining":4}}}"#;
    let step = next_step(
        Event::QuotaAnswered {
            account: account("github", "local_cli", "octocat", ""),
            started: noon(),
            output: output(true, answer, ""),
        },
        PRODUCT,
        &next_year(),
    );
    match step {
        Step::Done { result: Ok(snapshot) } => {
            assert_eq!(number(snapshot.metrics[0].consumed), 6.0);
            assert_eq!(snapshot.updated_at, "2027-01-15T08:00:00+00:00");
        }
        _ => panic!("the refresh goes on"),
    }
}

#[test]
fn without_a_quota_the_report_of_the_month_of_the_start_is_asked_for() {
    for (success, answer) in [(false, "{}"), (true, "{}")] {
        let step = next_step(
            Event::QuotaAnswered {
                account: account("github", "local_cli", "octocat", ""),
                started: noon(),
                output: output(success, answer, ""),
            },
            PRODUCT,
        &next_year(),
        );
        match step {
            Step::AskReport { arguments, .. } => assert_eq!(
                arguments,
                vec![
                    "api",
                    "--method",
                    "GET",
                    "-H",
                    "Accept: application/vnd.github+json",
                    "-H",
                    "X-GitHub-Api-Version: 2026-03-10",
                    "/users/octocat/settings/billing/ai_credit/usage?year=2026&month=9",
                ]
            ),
            _ => panic!("no report is asked for"),
        }
    }
}

#[test]
fn a_quota_that_cannot_be_read_is_a_failure() {
    let ask = |output: Option<CommandOutput>| {
        failure(next_step(
            Event::QuotaAnswered {
                account: account("github", "local_cli", "octocat", ""),
                started: noon(),
                output,
            },
            PRODUCT,
            &noon(),
        ))
    };
    assert_eq!(ask(None), "GitHub CLI is no longer available.");
    assert_eq!(
        ask(output(true, "nope", "")),
        "Invalid Copilot quota response: expected ident at line 1 column 2"
    );
    let nameless = next_step(
        Event::QuotaAnswered {
            account: account("github", "local_cli", "", ""),
            started: noon(),
            output: output(false, "", ""),
        },
        PRODUCT,
        &noon(),
    );
    assert_eq!(failure(nameless), "GitHub personal reporting requires the account username.");
}

#[test]
fn a_report_of_the_cli_is_shown_or_explained() {
    let ask = |output: Option<CommandOutput>| {
        next_step(
            Event::ReportAnswered { account: account("github", "local_cli", "octocat", ""), output },
            PRODUCT,
            &noon(),
        )
    };
    assert_eq!(failure(ask(None)), "GitHub CLI is no longer available.");
    assert_eq!(
        failure(ask(output(true, "[", ""))),
        "Invalid GitHub CLI response: EOF while parsing a list at line 1 column 1"
    );
    assert_eq!(
        failure(ask(output(false, "", "gh: this needs the \"user\" scope."))),
        "Connected as octocat. The GitHub CLI token needs the `user` scope before it can read AI-credit usage. Run: gh auth refresh -h github.com -s user"
    );
    assert_eq!(
        failure(ask(output(false, "", "gh: Not Found (HTTP 404)"))),
        "Connected as octocat through GitHub CLI, but GitHub did not return an AI-credit usage report for this account or plan."
    );
    match ask(output(true, r#"{"usageItems":[{"grossQuantity":3}]}"#, "")) {
        Step::Done { result: Ok(snapshot) } => {
            assert_eq!(number(snapshot.metrics[0].consumed), 3.0);
            assert_eq!(snapshot.updated_at, "2026-09-15T12:00:00+00:00");
        }
        _ => panic!("no snapshot"),
    }
    assert!(complaint_message("me", "").starts_with("Connected as me through"));
}

#[test]
fn a_billing_response_is_shown_or_passed_on() {
    let report = parse_json(br#"{"usageItems":[{"netAmount":3}]}"#);
    let step = next_step(
        Event::BillingAnswered { account: account("github", "organization", "acme", "t"), report },
        PRODUCT,
        &noon(),
    );
    match step {
        Step::Done { result: Ok(snapshot) } => {
            assert_eq!(number(snapshot.metrics[0].consumed), 3.0)
        }
        _ => panic!("no snapshot"),
    }
    let step = next_step(
        Event::BillingAnswered {
            account: account("github", "organization", "acme", "t"),
            report: Err("no route".into()),
        },
        PRODUCT,
        &noon(),
    );
    assert_eq!(failure(step), "no route");
}

#[test]
fn anthropic_is_asked_for_two_reports_on_the_month() {
    match start(account("anthropic", "organization", "", "key")) {
        Step::FetchReports { cost, usage, .. } => {
            assert_eq!(
                cost.url,
                "https://api.anthropic.com/v1/organizations/cost_report?starting_at=2026-09-01T00:00:00Z&ending_at=2026-10-01T00:00:00Z&bucket_width=1d&limit=31"
            );
            assert_eq!(
                usage.url,
                "https://api.anthropic.com/v1/organizations/usage_report/messages?starting_at=2026-09-01T00:00:00Z&ending_at=2026-10-01T00:00:00Z&bucket_width=1d&limit=31"
            );
            for request in [cost, usage] {
                assert_eq!(header(&request, "x-api-key"), Some("key"));
                assert_eq!(header(&request, "anthropic-version"), Some("2023-06-01"));
                assert_eq!(request.headers.len(), 2);
                assert!(request.bearer.is_none());
            }
        }
        _ => panic!("no reports are asked for"),
    }
    let reports = Ok((
        parse_json(br#"{"amount":"50"}"#).unwrap(),
        parse_json(br#"{"output_tokens":9}"#).unwrap(),
    ));
    let done = next_step(
        Event::ReportsAnswered { account: account("anthropic", "organization", "", "key"), reports },
        PRODUCT,
        &noon(),
    );
    match done {
        Step::Done { result: Ok(snapshot) } => {
            assert_eq!(number(snapshot.metrics[0].consumed), 0.5);
            assert_eq!(number(snapshot.metrics[1].consumed), 9.0);
            assert_eq!(snapshot.scope, "Organization");
        }
        _ => panic!("no snapshot"),
    }
    let failed = next_step(
        Event::ReportsAnswered {
            account: account("anthropic", "organization", "", "key"),
            reports: Err("timed out".into()),
        },
        PRODUCT,
        &noon(),
    );
    assert_eq!(failure(failed), "timed out");
}

#[test]
fn openai_is_asked_for_the_usage_after_the_costs() {
    let costs = parse_json(br#"{"value":1.5}"#);
    let step = next_step(
        Event::CostsAnswered {
            account: account("openai", "organization", "", "key"),
            start: 1_788_220_800,
            costs,
        },
        PRODUCT,
        &noon(),
    );
    let (asked, costs) = match step {
        Step::FetchUsage { account, costs, request } => {
            assert_eq!(
                request.url,
                "https://api.openai.com/v1/organization/usage/completions?start_time=1788220800&bucket_width=1d&limit=31"
            );
            assert_eq!(request.bearer.as_deref(), Some("key"));
            (account, costs)
        }
        _ => panic!("no usage is asked for"),
    };
    let usage = parse_json(br#"[{"input_tokens":3},{"output_tokens":4}]"#);
    match next_step(Event::UsageAnswered { account: asked, costs, usage }, PRODUCT, &noon()) {
        Step::Done { result: Ok(snapshot) } => {
            assert_eq!(number(snapshot.metrics[0].consumed), 1.5);
            assert_eq!(number(snapshot.metrics[1].consumed), 7.0);
        }
        _ => panic!("no snapshot"),
    }
    let failed = next_step(
        Event::CostsAnswered {
            account: account("openai", "organization", "", "key"),
            start: 0,
            costs: Err("a".into()),
        },
        PRODUCT,
        &noon(),
    );
    assert_eq!(failure(failed), "a");
    let failed = next_step(
        Event::UsageAnswered {
            account: account("openai", "organization", "", "key"),
            costs: parse_json(b"{}").unwrap(),
            usage: Err("b".into()),
        },
        PRODUCT,
        &noon(),
    );
    assert_eq!(failure(failed), "b");
}

#[test]
fn a_refresh_uses_the_clock() {
    match refresh(Event::Started { account: account("openai", "organization", "", "key") }, PRODUCT) {
        Step::FetchCosts { start, .. } => {
            assert!(start > 1_700_000_000);
            assert_eq!(start % 86400, 0);
        }
        _ => panic!("no costs are asked for"),
    }
}

#[test]
fn a_secret_is_seen_in_headers_only() {
    let one = start(account("github", "organization", "acme", "first"));
    let two = start(account("github", "organization", "acme", "second"));
    match (one, two) {
        (Step::FetchBilling { request: a, .. }, Step::FetchBilling { request: b, .. }) => {
            assert_eq!(a.url, b.url);
            assert_ne!(header(&a, "Authorization"), header(&b, "Authorization"));
        }
        _ => panic!("no report is asked for"),
    }
}

#[test]
fn a_failed_refresh_leaves_a_card_that_says_so() {
    let mine = account("openai", "personal", "", "key");
    let snapshot = settled(&mine, Err("No route.".into()), &noon());
    assert_eq!(snapshot.freshness, "error");
    assert_eq!(snapshot.account_id, "id");
    assert_eq!(snapshot.updated_at, "2026-09-15T12:00:00+00:00");
    assert_eq!(snapshot.message.as_deref(), Some("No route."));
    let kept = settled(&mine, Ok(snapshot), &next_year());
    assert_eq!(kept.updated_at, "2026-09-15T12:00:00+00:00");
    let by_clock = settle(&mine, Err("No route.".into()));
    assert_eq!(by_clock.freshness, "error");
    assert!(by_clock.updated_at > "2024".to_string());
}
