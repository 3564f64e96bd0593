//! Refreshing an account, step by step.
//!
//! A refresh alternates between decisions and work in the outside world: reading
//! an environment variable, running the GitHub CLI, sending requests. The
//! decisions are made here. Each event is answered with a step that names the
//! work to be done next, or gives the result.

use crate::clock::{
    bounds_text, current_time, days_before_month, in_month, month_of, month_start_text, year_of,
    UtcTime,
};
use crate::json::{parse_json, parsed_contents, Json, JsonView};
use crate::models::{
    error_snapshot, shown_scope, strings, text_if_any, texts, AccountView, CommandOutput, ProviderAccount,
    ProviderSnapshot, SnapshotView,
};
use crate::providers::{
    anthropic_report_snapshot, anthropic_snapshot, billing_snapshot, document_or_message,
    github_billing_snapshot, github_copilot_quota_snapshot_at, openai_report_snapshot,
    openai_snapshot, quota_snapshot, unsupported, unsupported_snapshot,
};
use crate::text::{contains, digits, lossy_string, lossy_text, number, number_text, occurs_in, same};
use vstd::prelude::*;
use vstd::string::*;

verus! {

/// A request for a document.
#[derive(Debug)]
pub struct HttpRequest {
    pub url: String,
    pub headers: Vec<(String, String)>,
    pub bearer: Option<String>,
}

pub struct RequestView {
    pub url: Seq<char>,
    pub headers: Seq<(Seq<char>, Seq<char>)>,
    pub bearer: Option<Seq<char>>,
}

impl View for HttpRequest {
    type V = RequestView;

    open spec fn view(&self) -> RequestView {
        RequestView {
            url: self.url@,
            headers: self.headers@.map_values(|header: (String, String)| (header.0@, header.1@)),
            bearer: text_if_any(self.bearer),
        }
    }
}

pub struct OutputView {
    pub success: bool,
    pub stdout: Seq<u8>,
    pub stderr: Seq<u8>,
}

/// What a command has left, if it could be run.
pub open spec fn output_if_any(output: Option<CommandOutput>) -> Option<OutputView> {
    match output {
        Some(output) => Some(
            OutputView {
                success: output.success,
                stdout: output.stdout@,
                stderr: output.stderr@,
            },
        ),
        None => None,
    }
}

/// What has happened.
pub enum Event {
    /// An account is to be refreshed.
    Started { account: ProviderAccount },
    /// The environment variable was read, if it is there.
    VariableRead { account: ProviderAccount, value: Option<String> },
    /// The GitHub CLI was asked for the Copilot quota, if it could be run.
    QuotaAnswered { account: ProviderAccount, started: UtcTime, output: Option<CommandOutput> },
    /// The GitHub CLI was asked for the billing report, if it could be run.
    ReportAnswered { account: ProviderAccount, output: Option<CommandOutput> },
    /// GitHub was asked for the billing report.
    BillingAnswered { account: ProviderAccount, report: Result<Json, String> },
    /// Anthropic was asked for its two reports, cost and usage.
    ReportsAnswered { account: ProviderAccount, reports: Result<(Json, Json), String> },
    /// OpenAI was asked for the costs since a second.
    CostsAnswered { account: ProviderAccount, start: i64, costs: Result<Json, String> },
    /// OpenAI was asked for the usage.
    UsageAnswered { account: ProviderAccount, costs: Json, usage: Result<Json, String> },
}

pub enum EventView {
    Started { account: AccountView },
    VariableRead { account: AccountView, value: Option<Seq<char>> },
    QuotaAnswered { account: AccountView, started: UtcTime, output: Option<OutputView> },
    ReportAnswered { account: AccountView, output: Option<OutputView> },
    BillingAnswered { account: AccountView, report: Result<JsonView, Seq<char>> },
    ReportsAnswered { account: AccountView, reports: Result<(JsonView, JsonView), Seq<char>> },
    CostsAnswered { account: AccountView, start: int, costs: Result<JsonView, Seq<char>> },
    UsageAnswered { account: AccountView, costs: JsonView, usage: Result<JsonView, Seq<char>> },
}

/// What two documents hold, or the message that came in their place.
pub open spec fn documents_or_message(outcome: Result<(Json, Json), String>) -> Result<
    (JsonView, JsonView),
    Seq<char>,
> {
    match outcome {
        Ok(pair) => Ok((pair.0@, pair.1@)),
        Err(message) => Err(message@),
    }
}

impl View for Event {
    type V = EventView;

    open spec fn view(&self) -> EventView {
        match *self {
            Event::Started { account } => EventView::Started { account: account@ },
            Event::VariableRead { account, value } => EventView::VariableRead {
                account: account@,
                value: text_if_any(value),
            },
            Event::QuotaAnswered { account, started, output } => EventView::QuotaAnswered {
                account: account@,
                started,
                output: output_if_any(output),
            },
            Event::ReportAnswered { account, output } => EventView::ReportAnswered {
                account: account@,
                output: output_if_any(output),
            },
            Event::BillingAnswered { account, report } => EventView::BillingAnswered {
                account: account@,
                report: document_or_message(report),
            },
            Event::ReportsAnswered { account, reports } => EventView::ReportsAnswered {
                account: account@,
                reports: documents_or_message(reports),
            },
            Event::CostsAnswered { account, start, costs } => EventView::CostsAnswered {
                account: account@,
                start: start as int,
                costs: document_or_message(costs),
            },
            Event::UsageAnswered { account, costs, usage } => EventView::UsageAnswered {
                account: account@,
                costs: costs@,
                usage: document_or_message(usage),
            },
        }
    }
}

/// What is to be done next. Every step but the last hands back what the event
/// that follows it has to bring.
pub enum Step {
    /// Read an environment variable.
    ReadVariable { account: ProviderAccount, variable: String },
    /// Run the GitHub CLI for the Copilot quota.
    AskQuota { account: ProviderAccount, started: UtcTime, arguments: Vec<String> },
    /// Run the GitHub CLI for the billing report.
    AskReport { account: ProviderAccount, arguments: Vec<String> },
    /// Ask GitHub for the billing report.
    FetchBilling { account: ProviderAccount, request: HttpRequest },
    /// Ask Anthropic for its two reports at the same time.
    FetchReports { account: ProviderAccount, cost: HttpRequest, usage: HttpRequest },
    /// Ask OpenAI for the costs.
    FetchCosts { account: ProviderAccount, start: i64, request: HttpRequest },
    /// Ask OpenAI for the usage.
    FetchUsage { account: ProviderAccount, costs: Json, request: HttpRequest },
    /// The refresh is over.
    Done { result: Result<ProviderSnapshot, String> },
}

pub enum StepView {
    ReadVariable { account: AccountView, variable: Seq<char> },
    AskQuota { account: AccountView, started: UtcTime, arguments: Seq<Seq<char>> },
    AskReport { account: AccountView, arguments: Seq<Seq<char>> },
    FetchBilling { account: AccountView, request: RequestView },
    FetchReports { account: AccountView, cost: RequestView, usage: RequestView },
    FetchCosts { account: AccountView, start: int, request: RequestView },
    FetchUsage { account: AccountView, costs: JsonView, request: RequestView },
    Done { result: Result<SnapshotView, Seq<char>> },
}

/// What a snapshot holds, or the message that came in its place.
pub open spec fn snapshot_or_message(outcome: Result<ProviderSnapshot, String>) -> Result<
    SnapshotView,
    Seq<char>,
> {
    match outcome {
        Ok(snapshot) => Ok(snapshot@),
        Err(message) => Err(message@),
    }
}

impl View for Step {
    type V = StepView;

    open spec fn view(&self) -> StepView {
        match *self {
            Step::ReadVariable { account, variable } => StepView::ReadVariable {
                account: account@,
                variable: variable@,
            },
            Step::AskQuota { account, started, arguments } => StepView::AskQuota {
                account: account@,
                started,
                arguments: texts(arguments@),
            },
            Step::AskReport { account, arguments } => StepView::AskReport {
                account: account@,
                arguments: texts(arguments@),
            },
            Step::FetchBilling { account, request } => StepView::FetchBilling {
                account: account@,
                request: request@,
            },
            Step::FetchReports { account, cost, usage } => StepView::FetchReports {
                account: account@,
                cost: cost@,
                usage: usage@,
            },
            Step::FetchCosts { account, start, request } => StepView::FetchCosts {
                account: account@,
                start: start as int,
                request: request@,
            },
            Step::FetchUsage { account, costs, request } => StepView::FetchUsage {
                account: account@,
                costs: costs@,
                request: request@,
            },
            Step::Done { result } => StepView::Done { result: snapshot_or_message(result) },
        }
    }
}

/// The refresh ends with a message.
pub open spec fn failed(message: Seq<char>) -> StepView {
    StepView::Done { result: Err(message) }
}

/// The refresh ends with a snapshot.
pub open spec fn finished(snapshot: SnapshotView) -> StepView {
    StepView::Done { result: Ok(snapshot) }
}

/// The environment variable that holds the key of a provider, if any does.
pub open spec fn variable_of(provider: Seq<char>) -> Option<Seq<char>> {
    if provider == "anthropic"@ {
        Some("ANTHROPIC_API_KEY"@)
    } else if provider == "openai"@ {
        Some("OPENAI_API_KEY"@)
    } else {
        None
    }
}

/// The first step of a refresh at the time `now`.
pub open spec fn step_after_start(
    account: AccountView,
    product: Seq<char>,
    now: UtcTime,
) -> StepView {
    if account.scope_type == "local_env"@ {
        match variable_of(account.provider) {
            Some(variable) => StepView::ReadVariable { account, variable },
            None => failed("Unsupported environment-backed provider."@),
        }
    } else {
        step_by_provider(account, product, now)
    }
}

/// The step after the variable was read.
pub open spec fn step_after_variable(
    account: AccountView,
    value: Option<Seq<char>>,
    product: Seq<char>,
    now: UtcTime,
) -> StepView {
    match variable_of(account.provider) {
        None => failed("Unsupported environment-backed provider."@),
        Some(variable) => match value {
            None => failed(variable + " is no longer available to the application."@),
            Some(secret) => step_by_provider(
                AccountView { secret, ..account },
                product,
                now,
            ),
        },
    }
}

/// The step for an account whose secret is known.
pub open spec fn step_by_provider(
    account: AccountView,
    product: Seq<char>,
    now: UtcTime,
) -> StepView {
    if account.secret.len() == 0 && account.scope_type != "local_cli"@ {
        failed("Credential is missing from the OS vault."@)
    } else if account.provider == "github"@ {
        github_step(account, now)
    } else if account.provider == "anthropic"@ {
        anthropic_step(account, product, now)
    } else if account.provider == "openai"@ {
        openai_step(account, now)
    } else {
        failed("Unsupported provider."@)
    }
}

/// The arguments with which the GitHub CLI is asked for the Copilot quota.
pub open spec fn quota_arguments() -> Seq<Seq<char>> {
    seq![
        "api"@,
        "--method"@,
        "GET"@,
        "-H"@,
        "Accept: application/json"@,
        "/copilot_internal/user"@,
    ]
}

/// The arguments with which the GitHub CLI is asked for a billing report.
pub open spec fn report_arguments(path: Seq<char>) -> Seq<Seq<char>> {
    seq![
        "api"@,
        "--method"@,
        "GET"@,
        "-H"@,
        "Accept: application/vnd.github+json"@,
        "-H"@,
        "X-GitHub-Api-Version: 2026-03-10"@,
        path,
    ]
}

/// The path of the billing report for the month that holds a second. An account
/// that is no organization has none without a name.
pub open spec fn billing_path(account: AccountView, seconds: int) -> Option<Seq<char>> {
    if account.scope_type != "organization"@ && account.scope.len() == 0 {
        None
    } else {
        Some(
            (if account.scope_type == "organization"@ {
                "/organizations/"@
            } else {
                "/users/"@
            }) + account.scope + "/settings/billing/ai_credit/usage?year="@ + number(
                year_of(seconds),
                0,
            ) + "&month="@ + number(month_of(seconds), 0),
        )
    }
}

/// The request for a billing report.
pub open spec fn billing_request(secret: Seq<char>, path: Seq<char>) -> RequestView {
    RequestView {
        url: "https://api.github.com"@ + path,
        headers: seq![
            ("Accept"@, "application/vnd.github+json"@),
            ("Authorization"@, "Bearer "@ + secret),
            ("X-GitHub-Api-Version"@, "2026-03-10"@),
            ("User-Agent"@, "ai-allowance"@),
        ],
        bearer: None,
    }
}

/// The first step for a GitHub account: the Copilot quota where the GitHub CLI
/// can be asked, else the billing report.
pub open spec fn github_step(account: AccountView, now: UtcTime) -> StepView {
    if account.scope_type == "local_cli"@ {
        StepView::AskQuota { account, started: now, arguments: quota_arguments() }
    } else {
        billing_step(account, now)
    }
}

/// The step that asks for the billing report of the month of `started`.
pub open spec fn billing_step(account: AccountView, started: UtcTime) -> StepView {
    match billing_path(account, started.seconds()) {
        None => failed("GitHub personal reporting requires the account username."@),
        Some(path) => if account.scope_type == "local_cli"@ {
            StepView::AskReport { account, arguments: report_arguments(path) }
        } else {
            StepView::FetchBilling { account, request: billing_request(account.secret, path) }
        },
    }
}

/// The step after a Copilot answer was read, or could not be.
pub open spec fn step_after_quota(
    account: AccountView,
    started: UtcTime,
    document: Result<JsonView, Seq<char>>,
    now: UtcTime,
) -> StepView {
    match document {
        Err(error) => failed("Invalid Copilot quota response: "@ + error),
        Ok(document) => match quota_snapshot(account, document, now.text()) {
            Some(snapshot) => finished(snapshot),
            None => billing_step(account, started),
        },
    }
}

/// The step after the GitHub CLI was asked for the Copilot quota.
pub open spec fn step_after_quota_output(
    account: AccountView,
    started: UtcTime,
    output: Option<OutputView>,
    now: UtcTime,
) -> StepView {
    match output {
        None => failed("GitHub CLI is no longer available."@),
        Some(output) => if output.success {
            step_after_quota(account, started, parsed_contents(output.stdout), now)
        } else {
            billing_step(account, started)
        },
    }
}

/// What is said of a billing report that the GitHub CLI did not get, by what it
/// complained of.
pub open spec fn report_complaint(scope: Seq<char>, complaint: Seq<char>) -> Seq<char> {
    if occurs_in("needs the \"user\" scope"@, complaint) {
        "Connected as "@ + scope
            + ". The GitHub CLI token needs the `user` scope before it can read AI-credit usage. Run: gh auth refresh -h github.com -s user"@
    } else {
        "Connected as "@ + scope
            + " through GitHub CLI, but GitHub did not return an AI-credit usage report for this account or plan."@
    }
}

/// The step after a billing report of the GitHub CLI was read, or could not be.
pub open spec fn step_after_report(
    account: AccountView,
    document: Result<JsonView, Seq<char>>,
    now: UtcTime,
) -> StepView {
    match document {
        Err(error) => failed("Invalid GitHub CLI response: "@ + error),
        Ok(document) => finished(billing_snapshot(account, document, now.text())),
    }
}

/// The step after the GitHub CLI was asked for the billing report.
pub open spec fn step_after_report_output(
    account: AccountView,
    output: Option<OutputView>,
    now: UtcTime,
) -> StepView {
    match output {
        None => failed("GitHub CLI is no longer available."@),
        Some(output) => if output.success {
            step_after_report(account, parsed_contents(output.stdout), now)
        } else {
            failed(report_complaint(account.scope, lossy_text(output.stderr)))
        },
    }
}

/// The step after GitHub was asked for the billing report.
pub open spec fn step_after_billing(
    account: AccountView,
    report: Result<JsonView, Seq<char>>,
    now: UtcTime,
) -> StepView {
    match report {
        Err(message) => failed(message),
        Ok(document) => finished(billing_snapshot(account, document, now.text())),
    }
}

/// A request for a report of Anthropic on the month that holds a second.
pub open spec fn anthropic_request(
    secret: Seq<char>,
    report: Seq<char>,
    seconds: int,
) -> RequestView {
    let bounds = bounds_text(year_of(seconds), month_of(seconds));
    RequestView {
        url: "https://api.anthropic.com/v1/organizations/"@ + report + "?starting_at="@ + bounds.0
            + "&ending_at="@ + bounds.1 + "&bucket_width=1d&limit=31"@,
        headers: seq![("x-api-key"@, secret), ("anthropic-version"@, "2023-06-01"@)],
        bearer: None,
    }
}

/// The first step for an Anthropic account.
pub open spec fn anthropic_step(
    account: AccountView,
    product: Seq<char>,
    now: UtcTime,
) -> StepView {
    if account.scope_type == "personal"@ {
        finished(
            unsupported_snapshot(
                account,
                product + " Pro/Max allowance is not exposed through a documented third-party API."@,
                now.text(),
            ),
        )
    } else {
        StepView::FetchReports {
            account,
            cost: anthropic_request(account.secret, "cost_report"@, now.seconds()),
            usage: anthropic_request(account.secret, "usage_report/messages"@, now.seconds()),
        }
    }
}

/// The step after Anthropic was asked for its reports.
pub open spec fn step_after_reports(
    account: AccountView,
    reports: Result<(JsonView, JsonView), Seq<char>>,
    product: Seq<char>,
    now: UtcTime,
) -> StepView {
    match reports {
        Err(message) => failed(message),
        Ok(reports) => finished(
            anthropic_snapshot(account, reports.0, reports.1, product, now.text()),
        ),
    }
}

/// The second at which the month that holds a second began.
pub open spec fn month_start_of(seconds: int) -> int {
    days_before_month(year_of(seconds), month_of(seconds)) * 86400
}

/// A request to OpenAI for what has been since a second.
pub open spec fn openai_request(
    secret: Seq<char>,
    report: Seq<char>,
    start: int,
    rest: Seq<char>,
) -> RequestView {
    RequestView {
        url: "https://api.openai.com/v1/organization/"@ + report + "?start_time="@ + number(
            start,
            0,
        ) + rest,
        headers: Seq::empty(),
        bearer: Some(secret),
    }
}

/// The first step for an OpenAI account.
pub open spec fn openai_step(account: AccountView, now: UtcTime) -> StepView {
    if account.scope_type == "personal"@ {
        finished(
            unsupported_snapshot(
                account,
                "Personal ChatGPT/Codex allowance is not exposed through a documented third-party API."@,
                now.text(),
            ),
        )
    } else {
        let start = month_start_of(now.seconds());
        StepView::FetchCosts {
            account,
            start,
            request: openai_request(account.secret, "costs"@, start, "&limit=31"@),
        }
    }
}

/// The step after OpenAI was asked for the costs.
pub open spec fn step_after_costs(
    account: AccountView,
    start: int,
    costs: Result<JsonView, Seq<char>>,
) -> StepView {
    match costs {
        Err(message) => failed(message),
        Ok(costs) => StepView::FetchUsage {
            account,
            costs,
            request: openai_request(
                account.secret,
                "usage/completions"@,
                start,
                "&bucket_width=1d&limit=31"@,
            ),
        },
    }
}

/// The step after OpenAI was asked for the usage.
pub open spec fn step_after_usage(
    account: AccountView,
    costs: JsonView,
    usage: Result<JsonView, Seq<char>>,
    now: UtcTime,
) -> StepView {
    match usage {
        Err(message) => failed(message),
        Ok(usage) => finished(openai_snapshot(account, costs, usage, now.text())),
    }
}

/// The step that an event at the time `now` is answered with. `product` is the
/// name of Anthropic's consumer product, which some messages speak of.
pub open spec fn step_after(event: EventView, product: Seq<char>, now: UtcTime) -> StepView {
    match event {
        EventView::Started { account } => step_after_start(account, product, now),
        EventView::VariableRead { account, value } => step_after_variable(
            account,
            value,
            product,
            now,
        ),
        EventView::QuotaAnswered { account, started, output } => step_after_quota_output(
            account,
            started,
            output,
            now,
        ),
        EventView::ReportAnswered { account, output } => step_after_report_output(
            account,
            output,
            now,
        ),
        EventView::BillingAnswered { account, report } => step_after_billing(account, report, now),
        EventView::ReportsAnswered { account, reports } => step_after_reports(
            account,
            reports,
            product,
            now,
        ),
        EventView::CostsAnswered { account, start, costs } => step_after_costs(
            account,
            start,
            costs,
        ),
        EventView::UsageAnswered { account, costs, usage } => step_after_usage(
            account,
            costs,
            usage,
            now,
        ),
    }
}

fn fail(message: &str) -> (step: Step)
    ensures
        step@ == failed(message@),
{
    Step::Done { result: Err(message.to_string()) }
}

fn finish(snapshot: ProviderSnapshot) -> (step: Step)
    ensures
        step@ == finished(snapshot@),
{
    Step::Done { result: Ok(snapshot) }
}

/// The environment variable that holds the key of a provider, if any does.
pub fn key_variable(provider: &str) -> (variable: Option<String>)
    ensures
        text_if_any(variable) == variable_of(provider@),
{
    if same(provider, "anthropic") {
        Some("ANTHROPIC_API_KEY".to_string())
    } else if same(provider, "openai") {
        Some("OPENAI_API_KEY".to_string())
    } else {
        None
    }
}

/// The first step of a refresh.
pub fn after_start(account: ProviderAccount, product: &str, now: &UtcTime) -> (step: Step)
    ensures
        step@ == step_after_start(account@, product@, *now),
{
    if same(account.scope_type.as_str(), "local_env") {
        match key_variable(account.provider.as_str()) {
            Some(variable) => Step::ReadVariable { account, variable },
            None => fail("Unsupported environment-backed provider."),
        }
    } else {
        by_provider(account, product, now)
    }
}

/// The step after the variable was read.
pub fn after_variable(
    account: ProviderAccount,
    value: Option<String>,
    product: &str,
    now: &UtcTime,
) -> (step: Step)
    ensures
        step@ == step_after_variable(account@, text_if_any(value), product@, *now),
{
    match key_variable(account.provider.as_str()) {
        None => fail("Unsupported environment-backed provider."),
        Some(variable) => match value {
            None => fail(
                variable.concat(" is no longer available to the application.").as_str(),
            ),
            Some(secret) => {
                let mut resolved = account;
                resolved.secret = secret;
                by_provider(resolved, product, now)
            },
        },
    }
}

/// The step for an account whose secret is known.
pub fn by_provider(account: ProviderAccount, product: &str, now: &UtcTime) -> (step: Step)
    ensures
        step@ == step_by_provider(account@, product@, *now),
{
    if account.secret.as_str().is_empty() && !same(account.scope_type.as_str(), "local_cli") {
        return fail("Credential is missing from the OS vault.");
    }
    if same(account.provider.as_str(), "github") {
        github(account, now)
    } else if same(account.provider.as_str(), "anthropic") {
        anthropic(account, product, now)
    } else if same(account.provider.as_str(), "openai") {
        openai(account, now)
    } else {
        fail("Unsupported provider.")
    }
}

/// The headers that a list of names and values spells.
fn headers_of(list: &[(&str, &str)]) -> (headers: Vec<(String, String)>)
    ensures
        headers@.map_values(|header: (String, String)| (header.0@, header.1@)) == list@.map_values(
            |header: (&str, &str)| (header.0@, header.1@),
        ),
{
    let mut out: Vec<(String, String)> = Vec::new();
    let mut i: usize = 0;
    while i < list.len()
        invariant
            i <= list@.len(),
            out@.len() == i,
            forall|j: int|
                0 <= j < i ==> (#[trigger] out@[j]).0@ == list@[j].0@ && out@[j].1@ == list@[j].1@,
        decreases list@.len() - i,
    {
        let (name, value) = list[i];
        out.push((name.to_string(), value.to_string()));
        i += 1;
    }
    assert(out@.map_values(|header: (String, String)| (header.0@, header.1@)) =~= list@.map_values(
        |header: (&str, &str)| (header.0@, header.1@),
    ));
    out
}

/// The path of the billing report for the month of `started`, if the account has one.
pub fn billing_report_path(account: &ProviderAccount, started: &UtcTime) -> (path: Option<String>)
    ensures
        text_if_any(path) == billing_path(account@, started.seconds()),
{
    let organization = same(account.scope_type.as_str(), "organization");
    if !organization && account.scope.as_str().is_empty() {
        return None;
    }
    let first = if organization {
        "/organizations/"
    } else {
        "/users/"
    };
    let (year, month) = started.year_and_month();
    Some(
        first.to_string().concat(account.scope.as_str()).concat(
            "/settings/billing/ai_credit/usage?year=",
        ).concat(number_text(year as i64, 0).as_str()).concat("&month=").concat(
            number_text(month as i64, 0).as_str(),
        ),
    )
}

/// The first step for a GitHub account.
pub fn github(account: ProviderAccount, now: &UtcTime) -> (step: Step)
    ensures
        step@ == github_step(account@, *now),
{
    if same(account.scope_type.as_str(), "local_cli") {
        let arguments = strings(
            &["api", "--method", "GET", "-H", "Accept: application/json", "/copilot_internal/user"],
        );
        assert(texts(arguments@) =~= quota_arguments());
        Step::AskQuota { account, started: *now, arguments }
    } else {
        billing(account, now)
    }
}

/// The step that asks for the billing report of the month of `started`.
pub fn billing(account: ProviderAccount, started: &UtcTime) -> (step: Step)
    ensures
        step@ == billing_step(account@, *started),
{
    match billing_report_path(&account, started) {
        None => fail("GitHub personal reporting requires the account username."),
        Some(path) => if same(account.scope_type.as_str(), "local_cli") {
            let arguments = strings(
                &[
                    "api",
                    "--method",
                    "GET",
                    "-H",
                    "Accept: application/vnd.github+json",
                    "-H",
                    "X-GitHub-Api-Version: 2026-03-10",
                    path.as_str(),
                ],
            );
            assert(texts(arguments@) =~= report_arguments(path@));
            Step::AskReport { account, arguments }
        } else {
            let authorization = "Bearer ".to_string().concat(account.secret.as_str());
            let headers = headers_of(
                &[
                    ("Accept", "application/vnd.github+json"),
                    ("Authorization", authorization.as_str()),
                    ("X-GitHub-Api-Version", "2026-03-10"),
                    ("User-Agent", "ai-allowance"),
                ],
            );
            let request = HttpRequest {
                url: "https://api.github.com".to_string().concat(path.as_str()),
                headers,
                bearer: None,
            };
            assert(request@.headers =~= billing_request(account.secret@, path@).headers);
            Step::FetchBilling { account, request }
        },
    }
}

/// The step after a Copilot answer was read, or could not be.
pub fn after_quota(
    account: ProviderAccount,
    started: &UtcTime,
    document: Result<Json, String>,
    now: &UtcTime,
) -> (step: Step)
    ensures
        step@ == step_after_quota(account@, *started, document_or_message(document), *now),
{
    match document {
        Err(error) => fail(
            "Invalid Copilot quota response: ".to_string().concat(error.as_str()).as_str(),
        ),
        Ok(json) => match github_copilot_quota_snapshot_at(&account, &json, now) {
            Some(snapshot) => finish(snapshot),
            None => billing(account, started),
        },
    }
}

/// The step after the GitHub CLI was asked for the Copilot quota.
pub fn after_quota_output(
    account: ProviderAccount,
    started: &UtcTime,
    output: Option<CommandOutput>,
    now: &UtcTime,
) -> (step: Step)
    ensures
        step@ == step_after_quota_output(account@, *started, output_if_any(output), *now),
{
    match output {
        None => fail("GitHub CLI is no longer available."),
        Some(output) => if output.success {
            after_quota(account, started, parse_json(output.stdout.as_slice()), now)
        } else {
            billing(account, started)
        },
    }
}

/// What is said of a billing report that the GitHub CLI did not get.
pub fn complaint_message(scope: &str, complaint: &str) -> (message: String)
    ensures
        message@ == report_complaint(scope@, complaint@),
{
    let connected = "Connected as ".to_string().concat(scope);
    if contains(complaint, "needs the \"user\" scope") {
        connected.concat(
            ". The GitHub CLI token needs the `user` scope before it can read AI-credit usage. Run: gh auth refresh -h github.com -s user",
        )
    } else {
        connected.concat(
            " through GitHub CLI, but GitHub did not return an AI-credit usage report for this account or plan.",
        )
    }
}

/// The step after a billing report of the GitHub CLI was read, or could not be.
pub fn after_report(
    account: ProviderAccount,
    document: Result<Json, String>,
    now: &UtcTime,
) -> (step: Step)
    ensures
        step@ == step_after_report(account@, document_or_message(document), *now),
{
    match document {
        Err(error) => fail(
            "Invalid GitHub CLI response: ".to_string().concat(error.as_str()).as_str(),
        ),
        Ok(json) => finish(github_billing_snapshot(&account, &json, now)),
    }
}

/// The step after the GitHub CLI was asked for the billing report.
pub fn after_report_output(
    account: ProviderAccount,
    output: Option<CommandOutput>,
    now: &UtcTime,
) -> (step: Step)
    ensures
        step@ == step_after_report_output(account@, output_if_any(output), *now),
{
    match output {
        None => fail("GitHub CLI is no longer available."),
        Some(output) => if output.success {
            after_report(account, parse_json(output.stdout.as_slice()), now)
        } else {
            let complaint = lossy_string(output.stderr.as_slice());
            fail(complaint_message(account.scope.as_str(), complaint.as_str()).as_str())
        },
    }
}

/// The step after GitHub was asked for the billing report.
pub fn after_billing(
    account: ProviderAccount,
    report: Result<Json, String>,
    now: &UtcTime,
) -> (step: Step)
    ensures
        step@ == step_after_billing(account@, document_or_message(report), *now),
{
    match report {
        Err(message) => Step::Done { result: Err(message) },
        Ok(json) => finish(github_billing_snapshot(&account, &json, now)),
    }
}

fn report_request(secret: &str, report: &str, now: &UtcTime) -> (request: HttpRequest)
    ensures
        request@ == anthropic_request(secret@, report@, now.seconds()),
{
    let (start, end) = crate::clock::month_bounds(now);
    let url = "https://api.anthropic.com/v1/organizations/".to_string().concat(report).concat(
        "?starting_at=",
    ).concat(start.as_str()).concat("&ending_at=").concat(end.as_str()).concat(
        "&bucket_width=1d&limit=31",
    );
    let headers = headers_of(&[("x-api-key", secret), ("anthropic-version", "2023-06-01")]);
    let request = HttpRequest { url, headers, bearer: None };
    assert(request@.headers =~= anthropic_request(secret@, report@, now.seconds()).headers);
    request
}

/// The first step for an Anthropic account.
pub fn anthropic(account: ProviderAccount, product: &str, now: &UtcTime) -> (step: Step)
    ensures
        step@ == anthropic_step(account@, product@, *now),
{
    if same(account.scope_type.as_str(), "personal") {
        let message = product.to_string().concat(
            " Pro/Max allowance is not exposed through a documented third-party API.",
        );
        return finish(unsupported(&account, message.as_str(), now));
    }
    let cost = report_request(account.secret.as_str(), "cost_report", now);
    let usage = report_request(account.secret.as_str(), "usage_report/messages", now);
    Step::FetchReports { account, cost, usage }
}

/// The step after Anthropic was asked for its reports.
pub fn after_reports(
    account: ProviderAccount,
    reports: Result<(Json, Json), String>,
    product: &str,
    now: &UtcTime,
) -> (step: Step)
    ensures
        step@ == step_after_reports(account@, documents_or_message(reports), product@, *now),
{
    match reports {
        Err(message) => Step::Done { result: Err(message) },
        Ok((cost, usage)) => finish(
            anthropic_report_snapshot(&account, &cost, &usage, product, now),
        ),
    }
}

fn since_request(secret: &str, report: &str, start: i64, rest: &str) -> (request: HttpRequest)
    ensures
        request@ == openai_request(secret@, report@, start as int, rest@),
{
    let url = "https://api.openai.com/v1/organization/".to_string().concat(report).concat(
        "?start_time=",
    ).concat(number_text(start, 0).as_str()).concat(rest);
    let headers: Vec<(String, String)> = Vec::new();
    let request = HttpRequest { url, headers, bearer: Some(secret.to_string()) };
    assert(request@.headers =~= Seq::empty());
    request
}

/// The first step for an OpenAI account.
pub fn openai(account: ProviderAccount, now: &UtcTime) -> (step: Step)
    ensures
        step@ == openai_step(account@, *now),
{
    if same(account.scope_type.as_str(), "personal") {
        return finish(
            unsupported(
                &account,
                "Personal ChatGPT/Codex allowance is not exposed through a documented third-party API.",
                now,
            ),
        );
    }
    let start: i64 = now.month_start();
    let request = since_request(account.secret.as_str(), "costs", start, "&limit=31");
    Step::FetchCosts { account, start, request }
}

/// The step after OpenAI was asked for the costs.
pub fn after_costs(account: ProviderAccount, start: i64, costs: Result<Json, String>) -> (step:
    Step)
    ensures
        step@ == step_after_costs(account@, start as int, document_or_message(costs)),
{
    match costs {
        Err(message) => Step::Done { result: Err(message) },
        Ok(costs) => {
            let request = since_request(
                account.secret.as_str(),
                "usage/completions",
                start,
                "&bucket_width=1d&limit=31",
            );
            Step::FetchUsage { account, costs, request }
        },
    }
}

/// The step after OpenAI was asked for the usage.
pub fn after_usage(
    account: ProviderAccount,
    costs: Json,
    usage: Result<Json, String>,
    now: &UtcTime,
) -> (step: Step)
    ensures
        step@ == step_after_usage(account@, costs@, document_or_message(usage), *now),
{
    match usage {
        Err(message) => Step::Done { result: Err(message) },
        Ok(usage) => finish(openai_report_snapshot(&account, &costs, &usage, now)),
    }
}

/// The step that an event at a point in time is answered with.
pub fn next_step(event: Event, product: &str, now: &UtcTime) -> (step: Step)
    ensures
        step@ == step_after(event@, product@, *now),
{
    match event {
        Event::Started { account } => after_start(account, product, now),
        Event::VariableRead { account, value } => after_variable(account, value, product, now),
        Event::QuotaAnswered { account, started, output } => after_quota_output(
            account,
            &started,
            output,
            now,
        ),
        Event::ReportAnswered { account, output } => after_report_output(account, output, now),
        Event::BillingAnswered { account, report } => after_billing(account, report, now),
        Event::ReportsAnswered { account, reports } => after_reports(
            account,
            reports,
            product,
            now,
        ),
        Event::CostsAnswered { account, start, costs } => after_costs(account, start, costs),
        Event::UsageAnswered { account, costs, usage } => after_usage(account, costs, usage, now),
    }
}

/// The step that an event which has just happened is answered with.
pub fn refresh(event: Event, product: &str) -> (step: Step)
    ensures
        exists|now: UtcTime|
            now.is_clock_time() && step@ == #[trigger] step_after(event@, product@, now),
{
    let now = current_time();
    next_step(event, product, &now)
}

/// The snapshot that a refresh which ended at the time `now` leaves: the one that
/// it gave, or in its place the card of the failure.
pub open spec fn settled_snapshot(
    account: AccountView,
    outcome: Result<SnapshotView, Seq<char>>,
    now: UtcTime,
) -> SnapshotView {
    match outcome {
        Ok(snapshot) => snapshot,
        Err(message) => error_snapshot(account, message, now.text()),
    }
}

/// The snapshot that a refresh which has just ended leaves.
pub fn settle(account: &ProviderAccount, outcome: Result<ProviderSnapshot, String>) -> (snapshot:
    ProviderSnapshot)
    ensures
        exists|now: UtcTime|
            now.is_clock_time() && snapshot@ == #[trigger] settled_snapshot(
                account@,
                snapshot_or_message(outcome),
                now,
            ),
{
    let now = current_time();
    settled(account, outcome, &now)
}

/// The snapshot that a refresh which ended at a point in time leaves.
pub fn settled(
    account: &ProviderAccount,
    outcome: Result<ProviderSnapshot, String>,
    now: &UtcTime,
) -> (snapshot: ProviderSnapshot)
    ensures
        snapshot@ == settled_snapshot(account@, snapshot_or_message(outcome), *now),
{
    match outcome {
        Ok(snapshot) => snapshot,
        Err(message) => ProviderSnapshot::error_at(account, message, now),
    }
}

/// The account that an event is about.
pub open spec fn account_in(event: EventView) -> AccountView {
    match event {
        EventView::Started { account } => account,
        EventView::VariableRead { account, .. } => account,
        EventView::QuotaAnswered { account, .. } => account,
        EventView::ReportAnswered { account, .. } => account,
        EventView::BillingAnswered { account, .. } => account,
        EventView::ReportsAnswered { account, .. } => account,
        EventView::CostsAnswered { account, .. } => account,
        EventView::UsageAnswered { account, .. } => account,
    }
}

/// An event may follow a step: it is the answer to it, about the same account.
pub open spec fn answers(step: StepView, event: EventView) -> bool {
    match (step, event) {
        (
            StepView::ReadVariable { account, .. },
            EventView::VariableRead { account: about, .. },
        ) => about == account,
        (
            StepView::AskQuota { account, started, .. },
            EventView::QuotaAnswered { account: about, started: since, .. },
        ) => about == account && since == started,
        (
            StepView::AskReport { account, .. },
            EventView::ReportAnswered { account: about, .. },
        ) => about == account,
        (
            StepView::FetchBilling { account, .. },
            EventView::BillingAnswered { account: about, .. },
        ) => about == account,
        (
            StepView::FetchReports { account, .. },
            EventView::ReportsAnswered { account: about, .. },
        ) => about == account,
        (
            StepView::FetchCosts { account, start, .. },
            EventView::CostsAnswered { account: about, start: since, .. },
        ) => about == account && since == start,
        (
            StepView::FetchUsage { account, costs, .. },
            EventView::UsageAnswered { account: about, costs: read, .. },
        ) => about == account && read == costs,
        _ => false,
    }
}

/// How far a refresh has come.
pub open spec fn stage(event: EventView) -> nat {
    match event {
        EventView::Started { .. } => 0,
        EventView::VariableRead { .. } => 1,
        EventView::QuotaAnswered { .. } => 2,
        EventView::CostsAnswered { .. } => 2,
        EventView::ReportAnswered { .. } => 3,
        EventView::BillingAnswered { .. } => 3,
        EventView::ReportsAnswered { .. } => 3,
        EventView::UsageAnswered { .. } => 3,
    }
}

/// A refresh comes to its end: every answer is further on than the event that
/// led to it, and an event of the last stage is answered with the result.
pub proof fn law_refresh_ends(
    event: EventView,
    product: Seq<char>,
    now: UtcTime,
    next: EventView,
)
    ensures
        answers(step_after(event, product, now), next) ==> stage(event) < stage(next),
        stage(event) == 3 ==> step_after(event, product, now) is Done,
        stage(event) <= 3,
{
}

/// A refresh stays with its account, but for the secret, which an environment
/// variable may give: the next event is about it, and so is the snapshot.
#[verifier::spinoff_prover]
#[verifier::rlimit(40)]
pub proof fn law_refresh_keeps_its_account(
    event: EventView,
    product: Seq<char>,
    now: UtcTime,
    next: EventView,
)
    ensures
        answers(step_after(event, product, now), next) ==> account_in(next) == (AccountView {
            secret: account_in(next).secret,
            ..account_in(event)
        }),
        step_after(event, product, now) matches StepView::Done { result: Ok(snapshot) }
            ==> snapshot.account_id == account_in(event).id && snapshot.provider == account_in(
            event,
        ).provider && snapshot.label == account_in(event).label,
{
}

/// The event with another secret in it.
pub open spec fn with_secret(event: EventView, secret: Seq<char>) -> EventView {
    let known = AccountView { secret, ..account_in(event) };
    match event {
        EventView::Started { .. } => EventView::Started { account: known },
        EventView::VariableRead { value, .. } => EventView::VariableRead {
            account: known,
            value: match value {
                Some(_) => Some(secret),
                None => None,
            },
        },
        EventView::QuotaAnswered { started, output, .. } => EventView::QuotaAnswered {
            account: known,
            started,
            output,
        },
        EventView::ReportAnswered { output, .. } => EventView::ReportAnswered {
            account: known,
            output,
        },
        EventView::BillingAnswered { report, .. } => EventView::BillingAnswered {
            account: known,
            report,
        },
        EventView::ReportsAnswered { reports, .. } => EventView::ReportsAnswered {
            account: known,
            reports,
        },
        EventView::CostsAnswered { start, costs, .. } => EventView::CostsAnswered {
            account: known,
            start,
            costs,
        },
        EventView::UsageAnswered { costs, usage, .. } => EventView::UsageAnswered {
            account: known,
            costs,
            usage,
        },
    }
}

/// The request without what it authenticates itself with.
pub open spec fn open_request(request: RequestView) -> RequestView {
    RequestView { url: request.url, headers: Seq::empty(), bearer: None }
}

/// The step without the secret of its account and without what its requests
/// authenticate themselves with.
pub open spec fn open_part(step: StepView) -> StepView {
    match step {
        StepView::ReadVariable { account, variable } => StepView::ReadVariable {
            account: AccountView { secret: Seq::empty(), ..account },
            variable,
        },
        StepView::AskQuota { account, started, arguments } => StepView::AskQuota {
            account: AccountView { secret: Seq::empty(), ..account },
            started,
            arguments,
        },
        StepView::AskReport { account, arguments } => StepView::AskReport {
            account: AccountView { secret: Seq::empty(), ..account },
            arguments,
        },
        StepView::FetchBilling { account, request } => StepView::FetchBilling {
            account: AccountView { secret: Seq::empty(), ..account },
            request: open_request(request),
        },
        StepView::FetchReports { account, cost, usage } => StepView::FetchReports {
            account: AccountView { secret: Seq::empty(), ..account },
            cost: open_request(cost),
            usage: open_request(usage),
        },
        StepView::FetchCosts { account, start, request } => StepView::FetchCosts {
            account: AccountView { secret: Seq::empty(), ..account },
            start,
            request: open_request(request),
        },
        StepView::FetchUsage { account, costs, request } => StepView::FetchUsage {
            account: AccountView { secret: Seq::empty(), ..account },
            costs,
            request: open_request(request),
        },
        StepView::Done { result } => StepView::Done { result },
    }
}

/// A secret goes nowhere but into the headers of requests: snapshots, messages,
/// addresses and the arguments of commands are the same whatever it is. Only
/// whether there is one makes a difference.
#[verifier::spinoff_prover]
#[verifier::rlimit(40)]
pub proof fn law_secret_stays_in_headers(
    event: EventView,
    secret: Seq<char>,
    other: Seq<char>,
    product: Seq<char>,
    now: UtcTime,
)
    requires
        secret.len() > 0 <==> other.len() > 0,
    ensures
        open_part(step_after(with_secret(event, secret), product, now)) == open_part(
            step_after(with_secret(event, other), product, now),
        ),
{
}

/// The allowance of a personal plan of Anthropic or OpenAI is reported as not
/// available, without any request.
pub proof fn law_personal_plans_are_not_asked_for(
    account: AccountView,
    product: Seq<char>,
    now: UtcTime,
)
    requires
        account.provider == "anthropic"@ || account.provider == "openai"@,
        account.scope_type == "personal"@,
        account.secret.len() > 0,
    ensures
        step_after(EventView::Started { account }, product, now) matches StepView::Done {
            result: Ok(snapshot),
        } && snapshot.freshness == "unsupported"@ && snapshot.metrics.len() == 0,
{
    reveal_strlit("personal");
    reveal_strlit("local_env");
    reveal_strlit("local_cli");
    reveal_strlit("github");
    reveal_strlit("anthropic");
    reveal_strlit("openai");
    assert("personal"@.len() == 8);
    assert("local_env"@.len() == 9);
    assert("github"@[0] != "openai"@[0]);
    assert("anthropic"@.len() == 9);
    assert("github"@.len() == 6);
    assert("openai"@.len() == 6);
}

/// A GitHub account of the CLI is asked for the Copilot quota first. Where the
/// answer has no figure, or there is none, the billing report of the month in
/// which the refresh began is asked for.
#[verifier::spinoff_prover]
#[verifier::rlimit(40)]
pub proof fn law_quota_comes_first(
    account: AccountView,
    started: UtcTime,
    output: OutputView,
    product: Seq<char>,
    now: UtcTime,
)
    requires
        account.provider == "github"@,
        account.scope_type == "local_cli"@,
        account.scope.len() > 0,
    ensures
        step_after(EventView::Started { account }, product, now) == (StepView::AskQuota {
            account,
            started: now,
            arguments: quota_arguments(),
        }),
        ({
            let step = step_after(
                EventView::QuotaAnswered { account, started, output: Some(output) },
                product,
                now,
            );
            let asked = StepView::AskReport {
                account,
                arguments: report_arguments(billing_path(account, started.seconds())->0),
            };
            &&& !output.success ==> step == asked
            &&& output.success && parsed_contents(output.stdout) is Ok && quota_snapshot(
                account,
                parsed_contents(output.stdout)->Ok_0,
                now.text(),
            ) is None ==> step == asked
            &&& output.success && parsed_contents(output.stdout) is Ok && quota_snapshot(
                account,
                parsed_contents(output.stdout)->Ok_0,
                now.text(),
            ) is Some ==> step == finished(
                quota_snapshot(account, parsed_contents(output.stdout)->Ok_0, now.text())->0,
            )
        }),
{
    reveal_strlit("local_env");
    reveal_strlit("local_cli");
    assert("local_env"@[6] != "local_cli"@[6]);
}

/// Without a secret nothing is asked of a provider, unless the GitHub CLI holds
/// the login or the environment holds the key.
pub proof fn law_nothing_is_asked_without_a_secret(
    account: AccountView,
    product: Seq<char>,
    now: UtcTime,
)
    requires
        account.secret.len() == 0,
        account.scope_type != "local_cli"@,
        account.scope_type != "local_env"@,
    ensures
        step_after(EventView::Started { account }, product, now) == failed(
            "Credential is missing from the OS vault."@,
        ),
{
}

proof fn lemma_words()
    ensures
        "local_env"@ != "local_cli"@,
        "local_env"@ != "organization"@,
        "local_env"@ != "personal"@,
        "local_cli"@ != "organization"@,
        "local_cli"@ != "personal"@,
        "organization"@ != "personal"@,
        "github"@ != "anthropic"@,
        "github"@ != "openai"@,
        "anthropic"@ != "openai"@,
{
    reveal_strlit("local_env");
    reveal_strlit("local_cli");
    reveal_strlit("organization");
    reveal_strlit("personal");
    reveal_strlit("github");
    reveal_strlit("anthropic");
    reveal_strlit("openai");
    assert("local_env"@[6] == 'e' && "local_cli"@[6] == 'c');
    assert("local_env"@.len() == 9 && "organization"@.len() == 12 && "personal"@.len() == 8);
    assert("local_cli"@.len() == 9);
    assert("github"@[0] == 'g' && "anthropic"@[0] == 'a' && "openai"@[0] == 'o');
}

/// How a refresh begins, and how it goes on once a key was read from the
/// environment. An account of the environment has its key read first, which only
/// Anthropic and OpenAI have. Any other account, and that one with the key as its
/// secret, is refused without a secret unless it is of the GitHub CLI, and
/// refused with a provider that is not known.
#[verifier::spinoff_prover]
#[verifier::rlimit(40)]
pub proof fn law_refresh_begins_with_the_credential(
    account: AccountView,
    value: Option<Seq<char>>,
    product: Seq<char>,
    now: UtcTime,
)
    ensures
        ({
            let begun = step_after(EventView::Started { account }, product, now);
            let read = step_after(EventView::VariableRead { account, value }, product, now);
            let local = account.scope_type == "local_env"@;
            let anthropic = account.provider == "anthropic"@;
            let openai = account.provider == "openai"@;
            let github = account.provider == "github"@;
            let unsupported = StepView::Done {
                result: Err("Unsupported environment-backed provider."@),
            };
            &&& local && anthropic ==> begun == (StepView::ReadVariable {
                account,
                variable: "ANTHROPIC_API_KEY"@,
            })
            &&& local && openai ==> begun == (StepView::ReadVariable {
                account,
                variable: "OPENAI_API_KEY"@,
            })
            &&& local && !anthropic && !openai ==> begun == unsupported
            &&& !anthropic && !openai ==> read == unsupported
            &&& anthropic && value is None ==> read == (StepView::Done {
                result: Err(
                    "ANTHROPIC_API_KEY"@ + " is no longer available to the application."@,
                ),
            })
            &&& openai && value is None ==> read == (StepView::Done {
                result: Err("OPENAI_API_KEY"@ + " is no longer available to the application."@),
            })
            &&& (anthropic || openai) && value is Some && account.scope_type != "local_env"@
                ==> read == step_after(
                EventView::Started { account: AccountView { secret: value->0, ..account } },
                product,
                now,
            )
            &&& !local && account.secret.len() == 0 && account.scope_type != "local_cli"@ ==> begun
                == (StepView::Done { result: Err("Credential is missing from the OS vault."@) })
            &&& !local && (account.secret.len() > 0 || account.scope_type == "local_cli"@) && !github
                && !anthropic && !openai ==> begun == (StepView::Done {
                result: Err("Unsupported provider."@),
            })
            &&& local && (anthropic || openai) && value is Some && value->0.len() == 0 ==> read == (
            StepView::Done { result: Err("Credential is missing from the OS vault."@) })
        }),
{
    lemma_words();
}

/// What is asked of GitHub. The report is that of the account, by its name, for
/// the year and the month in which the refresh began; the token goes into the
/// header that authorizes.
#[verifier::spinoff_prover]
#[verifier::rlimit(40)]
pub proof fn law_github_is_asked_for_the_month(
    account: AccountView,
    product: Seq<char>,
    now: UtcTime,
    year: nat,
    month: nat,
)
    requires
        in_month(now.seconds(), year as int, month as int),
        account.provider == "github"@,
        account.scope_type != "local_env"@,
        account.scope_type != "local_cli"@,
        account.secret.len() > 0,
    ensures
        ({
            let step = step_after(EventView::Started { account }, product, now);
            let organization = account.scope_type == "organization"@;
            let path = (if organization {
                "/organizations/"@
            } else {
                "/users/"@
            }) + account.scope + "/settings/billing/ai_credit/usage?year="@ + digits(year)
                + "&month="@ + digits(month);
            &&& !organization && account.scope.len() == 0 ==> step == (StepView::Done {
                result: Err("GitHub personal reporting requires the account username."@),
            })
            &&& organization || account.scope.len() > 0 ==> step == (StepView::FetchBilling {
                account,
                request: RequestView {
                    url: "https://api.github.com"@ + path,
                    headers: seq![
                        ("Accept"@, "application/vnd.github+json"@),
                        ("Authorization"@, "Bearer "@ + account.secret),
                        ("X-GitHub-Api-Version"@, "2026-03-10"@),
                        ("User-Agent"@, "ai-allowance"@),
                    ],
                    bearer: None,
                },
            })
        }),
{
    crate::clock::lemma_month_of(now.seconds(), year as int, month as int);
    lemma_words();
}

/// What is asked of the GitHub CLI, and what is made of its answers: the quota
/// first; the report for the month in which the refresh began where the quota
/// gives no card or the command failed; a message where it could not be run or
/// its answer could not be read.
#[verifier::spinoff_prover]
#[verifier::rlimit(40)]
pub proof fn law_github_cli_is_asked_twice_at_most(
    account: AccountView,
    product: Seq<char>,
    started: UtcTime,
    now: UtcTime,
    output: OutputView,
    year: nat,
    month: nat,
)
    requires
        in_month(started.seconds(), year as int, month as int),
        account.provider == "github"@,
        account.scope_type == "local_cli"@,
    ensures
        ({
            let begun = step_after(EventView::Started { account }, product, started);
            let quota = step_after(
                EventView::QuotaAnswered { account, started, output: Some(output) },
                product,
                now,
            );
            let report = step_after(
                EventView::ReportAnswered { account, output: Some(output) },
                product,
                now,
            );
            let asked = if account.scope.len() == 0 {
                StepView::Done {
                    result: Err("GitHub personal reporting requires the account username."@),
                }
            } else {
                StepView::AskReport {
                    account,
                    arguments: seq![
                        "api"@,
                        "--method"@,
                        "GET"@,
                        "-H"@,
                        "Accept: application/vnd.github+json"@,
                        "-H"@,
                        "X-GitHub-Api-Version: 2026-03-10"@,
                        "/users/"@ + account.scope + "/settings/billing/ai_credit/usage?year="@
                            + digits(year) + "&month="@ + digits(month),
                    ],
                }
            };
            let gone = StepView::Done { result: Err("GitHub CLI is no longer available."@) };
            &&& begun == (StepView::AskQuota {
                account,
                started,
                arguments: seq![
                    "api"@,
                    "--method"@,
                    "GET"@,
                    "-H"@,
                    "Accept: application/json"@,
                    "/copilot_internal/user"@,
                ],
            })
            &&& step_after(
                EventView::QuotaAnswered { account, started, output: None },
                product,
                now,
            ) == gone
            &&& step_after(EventView::ReportAnswered { account, output: None }, product, now) == gone
            &&& !output.success ==> quota == asked
            &&& output.success ==> match parsed_contents(output.stdout) {
                Err(error) => quota == (StepView::Done {
                    result: Err("Invalid Copilot quota response: "@ + error),
                }) && report == (StepView::Done {
                    result: Err("Invalid GitHub CLI response: "@ + error),
                }),
                Ok(document) => (match quota_snapshot(account, document, now.text()) {
                    Some(card) => quota == (StepView::Done { result: Ok(card) }),
                    None => quota == asked,
                }) && report == (StepView::Done {
                    result: Ok(billing_snapshot(account, document, now.text())),
                }),
            }
            &&& !output.success && occurs_in(
                "needs the \"user\" scope"@,
                lossy_text(output.stderr),
            ) ==> report == (StepView::Done {
                result: Err(
                    "Connected as "@ + account.scope
                        + ". The GitHub CLI token needs the `user` scope before it can read AI-credit usage. Run: gh auth refresh -h github.com -s user"@,
                ),
            })
            &&& !output.success && !occurs_in(
                "needs the \"user\" scope"@,
                lossy_text(output.stderr),
            ) ==> report == (StepView::Done {
                result: Err(
                    "Connected as "@ + account.scope
                        + " through GitHub CLI, but GitHub did not return an AI-credit usage report for this account or plan."@,
                ),
            })
        }),
{
    crate::clock::lemma_month_of(started.seconds(), year as int, month as int);
    lemma_words();
}

/// What is asked of Anthropic for an account that is not personal: two reports on
/// the month, from its first instant up to the first of the next, by the key. It
/// makes no difference whether the key was stored or read from the environment.
#[verifier::spinoff_prover]
#[verifier::rlimit(40)]
pub proof fn law_anthropic_is_asked_for_the_month(
    account: AccountView,
    before: Seq<char>,
    product: Seq<char>,
    now: UtcTime,
    year: int,
    month: int,
)
    requires
        in_month(now.seconds(), year, month),
        account.provider == "anthropic"@,
        account.scope_type != "personal"@,
        account.secret.len() > 0 || account.scope_type == "local_cli"@,
    ensures
        ({
            let next = if month == 12 {
                month_start_text(year + 1, 1)
            } else {
                month_start_text(year, month + 1)
            };
            let period = "?starting_at="@ + month_start_text(year, month) + "&ending_at="@ + next
                + "&bucket_width=1d&limit=31"@;
            let headers = seq![
                ("x-api-key"@, account.secret),
                ("anthropic-version"@, "2023-06-01"@),
            ];
            let asked = StepView::FetchReports {
                account,
                cost: RequestView {
                    url: "https://api.anthropic.com/v1/organizations/"@ + "cost_report"@ + period,
                    headers,
                    bearer: None,
                },
                usage: RequestView {
                    url: "https://api.anthropic.com/v1/organizations/"@ + "usage_report/messages"@
                        + period,
                    headers,
                    bearer: None,
                },
            };
            &&& account.scope_type != "local_env"@ ==> step_after(
                EventView::Started { account },
                product,
                now,
            ) == asked
            &&& step_after(
                EventView::VariableRead {
                    account: AccountView { secret: before, ..account },
                    value: Some(account.secret),
                },
                product,
                now,
            ) == asked
        }),
{
    lemma_words();
    assert(AccountView {
        secret: account.secret,
        ..AccountView { secret: before, ..account }
    } == account);
    lemma_anthropic_request(account.secret, "cost_report"@, now.seconds(), year, month);
    lemma_anthropic_request(account.secret, "usage_report/messages"@, now.seconds(), year, month);
}

proof fn lemma_anthropic_request(
    secret: Seq<char>,
    report: Seq<char>,
    seconds: int,
    year: int,
    month: int,
)
    requires
        in_month(seconds, year, month),
    ensures
        ({
            let next = if month == 12 {
                month_start_text(year + 1, 1)
            } else {
                month_start_text(year, month + 1)
            };
            let period = "?starting_at="@ + month_start_text(year, month) + "&ending_at="@ + next
                + "&bucket_width=1d&limit=31"@;
            anthropic_request(secret, report, seconds) == (RequestView {
                url: "https://api.anthropic.com/v1/organizations/"@ + report + period,
                headers: seq![("x-api-key"@, secret), ("anthropic-version"@, "2023-06-01"@)],
                bearer: None,
            })
        }),
{
    crate::clock::lemma_month_of(seconds, year, month);
    let start: Seq<char> = month_start_text(year, month);
    let next: Seq<char> = if month == 12 {
        month_start_text(year + 1, 1)
    } else {
        month_start_text(year, month + 1)
    };
    let head: Seq<char> = "https://api.anthropic.com/v1/organizations/"@ + report;
    lemma_joined_behind(
        head,
        "?starting_at="@,
        start,
        "&ending_at="@,
        next,
        "&bucket_width=1d&limit=31"@,
    );
}

proof fn lemma_joined_behind(
    head: Seq<char>,
    a: Seq<char>,
    b: Seq<char>,
    c: Seq<char>,
    d: Seq<char>,
    e: Seq<char>,
)
    ensures
        head + a + b + c + d + e == head + (a + b + c + d + e),
{
    assert(head + a + b + c + d + e =~= head + (a + b + c + d + e));
}

/// What is asked of OpenAI for an account that is not personal: the costs, and
/// then the usage, both from the second at which the month began, by the key,
/// whether it was stored or read from the environment.
#[verifier::spinoff_prover]
#[verifier::rlimit(40)]
pub proof fn law_openai_is_asked_from_the_start_of_the_month(
    account: AccountView,
    before: Seq<char>,
    product: Seq<char>,
    now: UtcTime,
    year: int,
    month: int,
    start: int,
    costs: JsonView,
)
    requires
        in_month(now.seconds(), year, month),
        account.provider == "openai"@,
        account.scope_type != "personal"@,
        account.secret.len() > 0 || account.scope_type == "local_cli"@,
    ensures
        ({
            let first = days_before_month(year, month) * 86400;
            let asked = StepView::FetchCosts {
                account,
                start: first,
                request: RequestView {
                    url: "https://api.openai.com/v1/organization/"@ + "costs"@ + "?start_time="@
                        + number(first, 0) + "&limit=31"@,
                    headers: Seq::empty(),
                    bearer: Some(account.secret),
                },
            };
            &&& account.scope_type != "local_env"@ ==> step_after(
                EventView::Started { account },
                product,
                now,
            ) == asked
            &&& step_after(
                EventView::VariableRead {
                    account: AccountView { secret: before, ..account },
                    value: Some(account.secret),
                },
                product,
                now,
            ) == asked
            &&& step_after(
                EventView::CostsAnswered { account, start, costs: Ok(costs) },
                product,
                now,
            ) == (StepView::FetchUsage {
                account,
                costs,
                request: RequestView {
                    url: "https://api.openai.com/v1/organization/"@ + "usage/completions"@
                        + "?start_time="@ + number(start, 0) + "&bucket_width=1d&limit=31"@,
                    headers: Seq::empty(),
                    bearer: Some(account.secret),
                },
            })
        }),
{
    crate::clock::lemma_month_of(now.seconds(), year, month);
    lemma_words();
    assert(AccountView {
        secret: account.secret,
        ..AccountView { secret: before, ..account }
    } == account);
}

/// What ends a refresh: a message that came in the place of an answer is passed
/// on as it is, and answers become the card of their provider. A personal plan of
/// Anthropic or OpenAI has a card that says why it has no figures.
#[verifier::spinoff_prover]
#[verifier::rlimit(40)]
pub proof fn law_answers_become_cards(
    account: AccountView,
    message: Seq<char>,
    report: JsonView,
    other: JsonView,
    start: int,
    product: Seq<char>,
    now: UtcTime,
)
    ensures
        ({
            let passed_on = StepView::Done { result: Err(message) };
            &&& step_after(
                EventView::BillingAnswered { account, report: Err(message) },
                product,
                now,
            ) == passed_on
            &&& step_after(
                EventView::ReportsAnswered { account, reports: Err(message) },
                product,
                now,
            ) == passed_on
            &&& step_after(
                EventView::CostsAnswered { account, start, costs: Err(message) },
                product,
                now,
            ) == passed_on
            &&& step_after(
                EventView::UsageAnswered { account, costs: report, usage: Err(message) },
                product,
                now,
            ) == passed_on
            &&& step_after(
                EventView::BillingAnswered { account, report: Ok(report) },
                product,
                now,
            ) == (StepView::Done { result: Ok(billing_snapshot(account, report, now.text())) })
            &&& step_after(
                EventView::ReportsAnswered { account, reports: Ok((report, other)) },
                product,
                now,
            ) == (StepView::Done {
                result: Ok(anthropic_snapshot(account, report, other, product, now.text())),
            })
            &&& step_after(
                EventView::UsageAnswered { account, costs: report, usage: Ok(other) },
                product,
                now,
            ) == (StepView::Done {
                result: Ok(openai_snapshot(account, report, other, now.text())),
            })
        }),
        (account.provider == "anthropic"@ || account.provider == "openai"@) && account.scope_type
            == "personal"@ && account.secret.len() > 0 ==> step_after(
            EventView::Started { account },
            product,
            now,
        ) == (StepView::Done {
            result: Ok(
                SnapshotView {
                    account_id: account.id,
                    provider: account.provider,
                    label: account.label,
                    scope: shown_scope(account.scope_type, account.scope),
                    freshness: "unsupported"@,
                    updated_at: now.text(),
                    reset_at: None,
                    metrics: Seq::empty(),
                    message: Some(
                        if account.provider == "anthropic"@ {
                            product
                                + " Pro/Max allowance is not exposed through a documented third-party API."@
                        } else {
                            "Personal ChatGPT/Codex allowance is not exposed through a documented third-party API."@
                        },
                    ),
                },
            ),
        }),
{
    lemma_words();
}

/// What a refresh gave is kept as it is, and a failure becomes the card of it.
pub proof fn law_refresh_is_settled(
    account: AccountView,
    card: SnapshotView,
    message: Seq<char>,
    now: UtcTime,
)
    ensures
        settled_snapshot(account, Ok(card), now) == card,
        settled_snapshot(account, Err(message), now) == error_snapshot(
            account,
            message,
            now.text(),
        ),
{
}

} // verus!
