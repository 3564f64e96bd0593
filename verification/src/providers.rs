//! What the providers' reports say of an account.

use crate::amount::{
    clamped, difference, hundredth, law_difference_bounded, less, sum, zero, Amount,
};
use crate::clock::{current_time, UtcTime};
use crate::counts::{
    all_counts, count_limit, is_count, law_counts_add, law_totals_add_over_held_arrays,
    nested_size, same_number, size_of, with_array,
};
use crate::json::{
    amount_at, documents, first_amount, items_of, items_total,
    law_first_name_with_an_amount_decides, member, names, nested_total, optional_number,
    parse_json, parsed_contents, recursive_sum, sum_numbers, text_of, Json, JsonView,
};
use crate::models::{
    metric_views, shown_scope, AccountView, AllowanceMetric, MetricView, ProviderAccount,
    ProviderSnapshot, SnapshotView,
};
use crate::text::{begins, digits};
use vstd::prelude::*;
use vstd::string::*;

verus! {

/// What `reqwest::StatusCode` shows of a code.
pub uninterp spec fn status_line(code: u16) -> Seq<char>;

/// `reqwest::StatusCode::from_u16` and its `Display`: the code in digits, a
/// space, and the reason that is registered for it or a note that there is none.
/// The table of reasons is not spelled out.
#[verifier::external_body]
fn status_text(code: u16) -> (text: String)
    requires
        100 <= code <= 999,
    ensures
        text@ == status_line(code),
        begins(text@, digits(code as nat) + " "@),
{
    reqwest::StatusCode::from_u16(code).unwrap().to_string()
}

/// The message that a response of that status is answered with, unless the
/// status is one of success.
pub open spec fn refusal(code: u16) -> Option<Seq<char>> {
    if code == 401 {
        Some("Authentication failed. Check the stored credential."@)
    } else if code == 403 {
        Some("The credential does not have the required billing or administration permission."@)
    } else if code == 429 {
        Some("Provider rate limit reached. The previous snapshot remains available."@)
    } else if 200 <= code < 300 {
        None
    } else {
        Some("Provider returned HTTP "@ + status_line(code) + "."@)
    }
}

/// The message that a response of that status is answered with, if any.
pub fn refused(code: u16) -> (message: Option<String>)
    requires
        100 <= code <= 999,
    ensures
        crate::models::text_if_any(message) == refusal(code),
        !(200 <= code < 300) && code != 401 && code != 403 && code != 429 ==> message is Some
            && begins(message->0@, "Provider returned HTTP "@ + digits(code as nat) + " "@),
{
    if code == 401 {
        Some("Authentication failed. Check the stored credential.".to_string())
    } else if code == 403 {
        Some(
            "The credential does not have the required billing or administration permission.".to_string(),
        )
    } else if code == 429 {
        Some(
            "Provider rate limit reached. The previous snapshot remains available.".to_string(),
        )
    } else if 200 <= code && code < 300 {
        None
    } else {
        let line = status_text(code);
        let message = "Provider returned HTTP ".to_string().concat(line.as_str()).concat(".");
        proof {
            let shown: Seq<char> = digits(code as nat) + " "@;
            let prefix: Seq<char> = "Provider returned HTTP "@ + digits(code as nat) + " "@;
            assert(line@.subrange(0, shown.len() as int) == shown);
            assert(prefix =~= "Provider returned HTTP "@ + shown);
            assert(message@.subrange(0, prefix.len() as int) =~= prefix);
        }
        Some(message)
    }
}

/// What a document holds, or the message that came in its place.
pub open spec fn document_or_message(outcome: Result<Json, String>) -> Result<JsonView, Seq<char>> {
    match outcome {
        Ok(json) => Ok(json@),
        Err(message) => Err(message@),
    }
}

/// The document that the body of a response spells, or the message that the
/// response is answered with. A body that could not be read is given by the text
/// of the error; one that is no document is worded as `reqwest` words it.
pub fn checked_json(code: u16, body: Result<Vec<u8>, String>) -> (outcome: Result<Json, String>)
    requires
        100 <= code <= 999,
    ensures
        document_or_message(outcome) == match refusal(code) {
            Some(message) => Err(message),
            None => match body {
                Err(error) => Err("Invalid provider response: "@ + error@),
                Ok(bytes) => match parsed_contents(bytes@) {
                    Ok(document) => Ok(document),
                    Err(_) => Err("Invalid provider response: error decoding response body"@),
                },
            },
        },
{
    match refused(code) {
        Some(message) => Err(message),
        None => match body {
            Err(error) => Err(
                "Invalid provider response: ".to_string().concat(error.as_str()),
            ),
            Ok(bytes) => match parse_json(bytes.as_slice()) {
                Ok(json) => Ok(json),
                Err(_) => Err(
                    "Invalid provider response: error decoding response body".to_string(),
                ),
            },
        },
    }
}

/// A figure without a limit.
pub open spec fn counter(
    kind: Seq<char>,
    label: Seq<char>,
    unit: Seq<char>,
    consumed: Amount,
) -> MetricView {
    MetricView { kind, label, unit, consumed, limit: None, remaining: None }
}

/// A figure without a limit.
pub(crate) fn counted(kind: &str, label: &str, unit: &str, consumed: Amount) -> (metric:
    AllowanceMetric)
    ensures
        metric@ == counter(kind@, label@, unit@, consumed),
{
    AllowanceMetric {
        kind: kind.to_string(),
        label: label.to_string(),
        unit: unit.to_string(),
        consumed,
        limit: None,
        remaining: None,
    }
}

/// The snapshot of an account whose figures are fresh.
pub open spec fn fresh_snapshot(
    account: AccountView,
    metrics: Seq<MetricView>,
    message: Seq<char>,
    updated_at: Seq<char>,
) -> SnapshotView {
    SnapshotView {
        account_id: account.id,
        provider: account.provider,
        label: account.label,
        scope: shown_scope(account.scope_type, account.scope),
        freshness: "fresh"@,
        updated_at,
        reset_at: None,
        metrics,
        message: Some(message),
    }
}

/// The snapshot of an account whose allowance cannot be asked for.
pub open spec fn unsupported_snapshot(
    account: AccountView,
    message: Seq<char>,
    updated_at: Seq<char>,
) -> SnapshotView {
    SnapshotView {
        freshness: "unsupported"@,
        ..fresh_snapshot(account, Seq::empty(), message, updated_at)
    }
}

/// The snapshot of an account whose figures are fresh at a point in time.
pub fn snapshot(
    account: &ProviderAccount,
    metrics: Vec<AllowanceMetric>,
    message: &str,
    now: &UtcTime,
) -> (snapshot: ProviderSnapshot)
    ensures
        snapshot@ == fresh_snapshot(account@, metric_views(metrics@), message@, now.text()),
{
    ProviderSnapshot {
        account_id: account.id.clone(),
        provider: account.provider.clone(),
        label: account.label.clone(),
        scope: account.display_scope(),
        freshness: "fresh".to_string(),
        updated_at: now.to_rfc3339(),
        reset_at: None,
        metrics,
        message: Some(message.to_string()),
    }
}

/// The snapshot of an account whose allowance cannot be asked for.
pub fn unsupported(account: &ProviderAccount, message: &str, now: &UtcTime) -> (result:
    ProviderSnapshot)
    ensures
        result@ == unsupported_snapshot(account@, message@, now.text()),
{
    let metrics: Vec<AllowanceMetric> = Vec::new();
    assert(metric_views(metrics@) =~= Seq::empty());
    let mut result = snapshot(account, metrics, message, now);
    result.freshness = "unsupported".to_string();
    result
}

/// The first of two members that is there.
pub open spec fn either_member(
    document: JsonView,
    name: Seq<char>,
    other: Seq<char>,
) -> Option<JsonView> {
    if member(document, name) is Some {
        member(document, name)
    } else {
        member(document, other)
    }
}

/// The first of two members that is there.
fn either<'a>(document: &'a Json, name: &str, other: &str) -> (found: Option<&'a Json>)
    ensures
        found is Some <==> either_member(document@, name@, other@) is Some,
        found is Some ==> Some(found->0@) == either_member(document@, name@, other@),
{
    match document.get(name) {
        Some(found) => Some(found),
        None => document.get(other),
    }
}

/// The text of a member, where it is there and is a text.
pub open spec fn text_in(found: Option<JsonView>) -> Option<Seq<char>> {
    match found {
        Some(document) => text_of(document),
        None => None,
    }
}

/// The part of a Copilot answer that holds the figures.
pub open spec fn quota_part(document: JsonView) -> Option<JsonView> {
    match member(document, "quota_snapshots"@) {
        Some(snapshots) => member(snapshots, "premium_interactions"@),
        None => None,
    }
}

pub open spec fn entitlement_of(quota: JsonView) -> Option<Amount> {
    first_amount(quota, seq!["entitlement"@])
}

pub open spec fn remaining_of(quota: JsonView) -> Option<Amount> {
    first_amount(quota, seq!["quota_remaining"@, "remaining"@])
}

pub open spec fn reported_use_of(quota: JsonView) -> Option<Amount> {
    first_amount(quota, seq!["credits_used"@])
}

/// The quota tells of an allowance: how much it is, which is more than nothing,
/// and how much of it remains.
pub open spec fn has_allowance(quota: JsonView) -> bool {
    &&& entitlement_of(quota) is Some
    &&& remaining_of(quota) is Some
    &&& less(zero(), entitlement_of(quota)->0)
}

/// The figures of an allowance, of which a part remains: what was used of it is
/// what does not remain, and a credit is worth a cent.
pub open spec fn allowance_figures(entitlement: Amount, remaining: Amount) -> Seq<MetricView> {
    let left = clamped(remaining, zero(), entitlement);
    let used = difference(entitlement, left);
    seq![
        MetricView {
            kind: "credits"@,
            label: "Copilot allowance (AIC)"@,
            unit: "AIC"@,
            consumed: used,
            limit: Some(entitlement),
            remaining: Some(left),
        },
        counter("currency"@, "Used quota value (USD equivalent)"@, "USD"@, hundredth(used)),
    ]
}

/// The figures of a Copilot quota.
pub open spec fn quota_figures(quota: JsonView) -> Seq<MetricView> {
    (if has_allowance(quota) {
        allowance_figures(entitlement_of(quota)->0, remaining_of(quota)->0)
    } else {
        Seq::empty()
    }) + (match reported_use_of(quota) {
        Some(used) => seq![
            counter("credits"@, "GitHub-reported credits_used (AIC)"@, "AIC"@, used),
        ],
        None => Seq::empty(),
    })
}

/// What a card says of a Copilot quota with an allowance.
pub const ALLOWANCE_MESSAGE: &'static str =
    "Copilot allowance consumption is derived from entitlement minus remaining. One AIC has $0.01 of quota value, but neither AIC nor its USD equivalent is actual billed or cross-ecosystem spend. Power BI spend is not currently imported. GitHub's reported counter is shown separately because it can refresh on a different cadence.";

/// What a card says of a Copilot quota without one.
pub const COUNTER_MESSAGE: &'static str =
    "GitHub returned a finite credits_used counter, but the entitlement or remaining field was missing or malformed, so no allowance metric was created. Power BI spend is not currently imported.";

/// The snapshot that a Copilot answer gives of an account, if it has any figure.
/// `now` is the time at which it is read.
pub open spec fn quota_snapshot(
    account: AccountView,
    document: JsonView,
    now: Seq<char>,
) -> Option<SnapshotView> {
    match quota_part(document) {
        None => None,
        Some(quota) => {
            if quota_figures(quota).len() == 0 {
                None
            } else {
                let plan = match text_in(member(document, "copilot_plan"@)) {
                    Some(plan) => plan,
                    None => "Copilot"@,
                };
                Some(
                    SnapshotView {
                        account_id: account.id,
                        provider: account.provider,
                        label: account.label,
                        scope: account.scope + " · "@ + plan + " plan"@,
                        freshness: "fresh"@,
                        updated_at: match text_in(member(quota, "timestamp_utc"@)) {
                            Some(stamp) => stamp,
                            None => now,
                        },
                        reset_at: text_in(
                            either_member(document, "quota_reset_date_utc"@, "quota_reset_date"@),
                        ),
                        metrics: quota_figures(quota),
                        message: Some(
                            if has_allowance(quota) {
                                ALLOWANCE_MESSAGE@
                            } else {
                                COUNTER_MESSAGE@
                            },
                        ),
                    },
                )
            }
        },
    }
}

/// The characters of the snapshot that there may be.
pub open spec fn snapshot_if_any(snapshot: Option<ProviderSnapshot>) -> Option<SnapshotView> {
    match snapshot {
        Some(snapshot) => Some(snapshot@),
        None => None,
    }
}

/// The amount of the member of that name, if it has one.
fn amount_under(document: &Json, name: &str) -> (amount: Option<Amount>)
    ensures
        amount == first_amount(document@, seq![name@]),
{
    let keys = [name];
    assert(names(keys@) =~= seq![name@]);
    optional_number(document, &keys)
}

/// The figures of a Copilot quota.
fn quota_metrics(quota: &Json) -> (r: (Vec<AllowanceMetric>, bool))
    ensures
        metric_views(r.0@) == quota_figures(quota@),
        r.1 == has_allowance(quota@),
{
    let entitlement = amount_under(quota, "entitlement");
    let remaining = optional_number(quota, &["quota_remaining", "remaining"]);
    assert(names(seq!["quota_remaining", "remaining"]) =~= seq!["quota_remaining"@, "remaining"@]);
    let reported_used = amount_under(quota, "credits_used");
    let mut metrics: Vec<AllowanceMetric> = Vec::new();
    let mut allowance = false;
    if let (Some(entitlement), Some(remaining)) = (entitlement, remaining) {
        let nothing = Amount { bits: 0 };
        if nothing.is_less(entitlement) {
            let left = remaining.clamp(nothing, entitlement);
            let used = entitlement.minus(left);
            metrics.push(
                AllowanceMetric {
                    kind: "credits".to_string(),
                    label: "Copilot allowance (AIC)".to_string(),
                    unit: "AIC".to_string(),
                    consumed: used,
                    limit: Some(entitlement),
                    remaining: Some(left),
                },
            );
            metrics.push(
                counted("currency", "Used quota value (USD equivalent)", "USD", used.hundredth()),
            );
            allowance = true;
        }
    }
    if let Some(used) = reported_used {
        metrics.push(counted("credits", "GitHub-reported credits_used (AIC)", "AIC", used));
    }
    assert(metric_views(metrics@) =~= quota_figures(quota@));
    (metrics, allowance)
}

/// The text of a member, where it is there and is a text.
fn owned_text(found: Option<&Json>) -> (text: Option<String>)
    ensures
        crate::models::text_if_any(text) == match found {
            Some(document) => text_of(document@),
            None => None,
        },
{
    match found {
        Some(document) => match document.as_str() {
            Some(text) => Some(text.to_string()),
            None => None,
        },
        None => None,
    }
}

/// The snapshot that a Copilot answer gives of an account, if it has any figure.
/// Where the answer bears no time, it is given the one at which it is read.
pub fn github_copilot_quota_snapshot(account: &ProviderAccount, json: &Json) -> (snapshot: Option<
    ProviderSnapshot,
>)
    ensures
        exists|now: UtcTime|
            now.is_clock_time() && snapshot_if_any(snapshot) == #[trigger] quota_snapshot(
                account@,
                json@,
                now.text(),
            ),
{
    let now = current_time();
    github_copilot_quota_snapshot_at(account, json, &now)
}

/// The snapshot that a Copilot answer read at a point in time gives of an
/// account, if it has any figure.
pub fn github_copilot_quota_snapshot_at(
    account: &ProviderAccount,
    json: &Json,
    now: &UtcTime,
) -> (snapshot: Option<ProviderSnapshot>)
    ensures
        snapshot_if_any(snapshot) == quota_snapshot(account@, json@, now.text()),
{
    let quota = match json.get("quota_snapshots") {
        Some(snapshots) => match snapshots.get("premium_interactions") {
            Some(quota) => quota,
            None => return None,
        },
        None => return None,
    };
    let (metrics, allowance) = quota_metrics(quota);
    assert(metric_views(metrics@).len() == metrics@.len());
    if metrics.len() == 0 {
        return None;
    }
    let updated_at = match owned_text(quota.get("timestamp_utc")) {
        Some(stamp) => stamp,
        None => now.to_rfc3339(),
    };
    let reset_at = owned_text(either(json, "quota_reset_date_utc", "quota_reset_date"));
    let plan = match owned_text(json.get("copilot_plan")) {
        Some(plan) => plan,
        None => "Copilot".to_string(),
    };
    Some(
        ProviderSnapshot {
            account_id: account.id.clone(),
            provider: account.provider.clone(),
            label: account.label.clone(),
            scope: account.scope.as_str().to_string().concat(" · ").concat(plan.as_str()).concat(
                " plan",
            ),
            freshness: "fresh".to_string(),
            updated_at,
            reset_at,
            metrics,
            message: Some(
                if allowance {
                    ALLOWANCE_MESSAGE.to_string()
                } else {
                    COUNTER_MESSAGE.to_string()
                },
            ),
        },
    )
}

/// The figures of a billing report: the gross quantity of credits and the net
/// amount that was billed, each where an item has it.
pub open spec fn billing_figures(items: Seq<JsonView>) -> Seq<MetricView> {
    (match items_total(items, seq!["grossQuantity"@, "gross_quantity"@]) {
        Some(credits) => seq![counter("credits"@, "AIC consumed"@, "AIC"@, credits)],
        None => Seq::empty(),
    }) + (match items_total(items, seq!["netAmount"@, "net_amount"@]) {
        Some(cost) => seq![counter("currency"@, "Actual billed spend"@, "USD"@, cost)],
        None => Seq::empty(),
    })
}

/// The figures of a billing report.
pub fn github_billing_metrics(items: &Vec<Json>) -> (metrics: Vec<AllowanceMetric>)
    ensures
        metric_views(metrics@) == billing_figures(documents(items@)),
{
    let mut metrics: Vec<AllowanceMetric> = Vec::new();
    let credits = sum_numbers(items, &["grossQuantity", "gross_quantity"]);
    let cost = sum_numbers(items, &["netAmount", "net_amount"]);
    proof {
        assert(names(seq!["grossQuantity", "gross_quantity"])
            =~= seq!["grossQuantity"@, "gross_quantity"@]);
        assert(names(seq!["netAmount", "net_amount"]) =~= seq!["netAmount"@, "net_amount"@]);
    }
    if let Some(credits) = credits {
        metrics.push(counted("credits", "AIC consumed", "AIC", credits));
    }
    if let Some(cost) = cost {
        metrics.push(counted("currency", "Actual billed spend", "USD", cost));
    }
    assert(metric_views(metrics@) =~= billing_figures(documents(items@)));
    metrics
}

/// What a card says of a billing report.
pub const BILLING_MESSAGE: &'static str =
    "GitHub billing reports use grossQuantity for total AIC consumed and netAmount for actual billed spend. This spend is separate from Copilot quota value and from Power BI cross-ecosystem spend, which is not currently imported.";

/// The items of a billing report.
pub open spec fn billing_items(document: JsonView) -> Seq<JsonView> {
    match either_member(document, "usageItems"@, "usage_items"@) {
        Some(found) => match items_of(found) {
            Some(items) => items,
            None => Seq::empty(),
        },
        None => Seq::empty(),
    }
}

/// The snapshot that a billing report gives of an account.
pub open spec fn billing_snapshot(
    account: AccountView,
    document: JsonView,
    now: Seq<char>,
) -> SnapshotView {
    fresh_snapshot(
        account,
        billing_figures(billing_items(document)),
        BILLING_MESSAGE@,
        now,
    )
}

/// The snapshot that a billing report read at a point in time gives of an account.
pub fn github_billing_snapshot(account: &ProviderAccount, json: &Json, now: &UtcTime) -> (result:
    ProviderSnapshot)
    ensures
        result@ == billing_snapshot(account@, json@, now.text()),
{
    let none: Vec<Json> = Vec::new();
    assert(documents(none@) =~= Seq::empty());
    let items = match either(json, "usageItems", "usage_items") {
        Some(found) => match found.as_array() {
            Some(items) => items,
            None => &none,
        },
        None => &none,
    };
    snapshot(account, github_billing_metrics(items), BILLING_MESSAGE, now)
}

/// The figures that are shown of a cost in cents, four counts of tokens and the
/// count of web searches, which is left out where there were none.
pub open spec fn token_figures(
    cents: Amount,
    uncached: Amount,
    created: Amount,
    read: Amount,
    output: Amount,
    searches: Amount,
) -> Seq<MetricView> {
    let total = sum(sum(sum(uncached, created), read), output);
    let figures = seq![
        counter("currency"@, "API cost this month"@, "USD"@, hundredth(cents)),
        counter("tokens"@, "Total API tokens"@, "tokens"@, total),
        counter("tokens"@, "Uncached input"@, "tokens"@, uncached),
        counter("tokens"@, "Output"@, "tokens"@, output),
        counter("tokens"@, "Cache creation"@, "tokens"@, created),
        counter("tokens"@, "Cache reads"@, "tokens"@, read),
    ];
    if less(zero(), searches) {
        figures.push(counter("requests"@, "Web searches"@, "requests"@, searches))
    } else {
        figures
    }
}

/// The figures of Anthropic's cost report and usage report.
pub open spec fn anthropic_figures(cost: JsonView, usage: JsonView) -> Seq<MetricView> {
    token_figures(
        nested_total(cost, seq!["amount"@]),
        nested_total(usage, seq!["uncached_input_tokens"@]),
        nested_total(usage, seq!["ephemeral_1h_input_tokens"@, "ephemeral_5m_input_tokens"@]),
        nested_total(usage, seq!["cache_read_input_tokens"@]),
        nested_total(usage, seq!["output_tokens"@]),
        nested_total(usage, seq!["web_search_requests"@]),
    )
}

/// The sum of the amounts of all members of that name, at any depth.
fn sum_under(document: &Json, name: &str) -> (amount: Amount)
    ensures
        amount == nested_total(document@, seq![name@]),
{
    let keys = [name];
    assert(names(keys@) =~= seq![name@]);
    recursive_sum(document, &keys)
}

/// The figures of Anthropic's cost report and usage report.
pub fn anthropic_metrics(cost_json: &Json, usage_json: &Json) -> (metrics: Vec<AllowanceMetric>)
    ensures
        metric_views(metrics@) == anthropic_figures(cost_json@, usage_json@),
{
    let cost = sum_under(cost_json, "amount").hundredth();
    let uncached = sum_under(usage_json, "uncached_input_tokens");
    let created = recursive_sum(
        usage_json,
        &["ephemeral_1h_input_tokens", "ephemeral_5m_input_tokens"],
    );
    assert(names(seq!["ephemeral_1h_input_tokens", "ephemeral_5m_input_tokens"])
        =~= seq!["ephemeral_1h_input_tokens"@, "ephemeral_5m_input_tokens"@]);
    let read = sum_under(usage_json, "cache_read_input_tokens");
    let output = sum_under(usage_json, "output_tokens");
    let total = uncached.plus(created).plus(read).plus(output);
    let searches = sum_under(usage_json, "web_search_requests");

    let mut metrics: Vec<AllowanceMetric> = Vec::new();
    metrics.push(counted("currency", "API cost this month", "USD", cost));
    metrics.push(counted("tokens", "Total API tokens", "tokens", total));
    metrics.push(counted("tokens", "Uncached input", "tokens", uncached));
    metrics.push(counted("tokens", "Output", "tokens", output));
    metrics.push(counted("tokens", "Cache creation", "tokens", created));
    metrics.push(counted("tokens", "Cache reads", "tokens", read));
    if (Amount { bits: 0 }).is_less(searches) {
        metrics.push(counted("requests", "Web searches", "requests", searches));
    }
    assert(metric_views(metrics@) =~= anthropic_figures(cost_json@, usage_json@));
    metrics
}

/// What a card says of Anthropic's reports. `product` is the name of Anthropic's
/// consumer product, which the reports leave out.
pub open spec fn reports_message(activity: bool, product: Seq<char>) -> Seq<char> {
    if activity {
        "Anthropic reports this month's organization API usage and cost. These values do not include "@
            + product
            + " web, Desktop, or personal Pro/Max activity, and the API does not provide a remaining balance."@
    } else {
        "Connected successfully, but Anthropic reports no organization API activity for this month. "@
            + product + " web, Desktop, and personal Pro/Max activity are not included in this API."@
    }
}

/// Some figure is above zero.
pub open spec fn has_activity(metrics: Seq<MetricView>) -> bool {
    exists|i: int| 0 <= i < metrics.len() && less(zero(), (#[trigger] metrics[i]).consumed)
}

/// The snapshot that Anthropic's reports give of an account.
pub open spec fn anthropic_snapshot(
    account: AccountView,
    cost: JsonView,
    usage: JsonView,
    product: Seq<char>,
    now: Seq<char>,
) -> SnapshotView {
    fresh_snapshot(
        account,
        anthropic_figures(cost, usage),
        reports_message(has_activity(anthropic_figures(cost, usage)), product),
        now,
    )
}

fn any_activity(metrics: &Vec<AllowanceMetric>) -> (r: bool)
    ensures
        r == has_activity(metric_views(metrics@)),
{
    let mut i: usize = 0;
    while i < metrics.len()
        invariant
            i <= metrics@.len(),
            forall|j: int|
                0 <= j < i ==> !less(zero(), (#[trigger] metric_views(metrics@)[j]).consumed),
        decreases metrics@.len() - i,
    {
        assert(metric_views(metrics@)[i as int] == metrics@[i as int]@);
        if (Amount { bits: 0 }).is_less(metrics[i].consumed) {
            return true;
        }
        i += 1;
    }
    false
}

/// The snapshot that Anthropic's reports read at a point in time give of an account.
pub fn anthropic_report_snapshot(
    account: &ProviderAccount,
    cost_json: &Json,
    usage_json: &Json,
    product: &str,
    now: &UtcTime,
) -> (result: ProviderSnapshot)
    ensures
        result@ == anthropic_snapshot(account@, cost_json@, usage_json@, product@, now.text()),
{
    let metrics = anthropic_metrics(cost_json, usage_json);
    let message = if any_activity(&metrics) {
        "Anthropic reports this month's organization API usage and cost. These values do not include ".to_string().concat(
            product,
        ).concat(
            " web, Desktop, or personal Pro/Max activity, and the API does not provide a remaining balance.",
        )
    } else {
        "Connected successfully, but Anthropic reports no organization API activity for this month. ".to_string().concat(
            product,
        ).concat(
            " web, Desktop, and personal Pro/Max activity are not included in this API.",
        )
    };
    snapshot(account, metrics, message.as_str(), now)
}

/// What a card says of OpenAI's reports.
pub const OPENAI_MESSAGE: &'static str =
    "OpenAI organization APIs report API usage and costs separately from personal Codex plan limits.";

/// The figures of OpenAI's costs and usage.
pub open spec fn openai_figures(costs: JsonView, usage: JsonView) -> Seq<MetricView> {
    seq![
        counter("currency"@, "Current period"@, "USD"@, nested_total(costs, seq!["value"@])),
        counter(
            "tokens"@,
            "Tokens used"@,
            "tokens"@,
            nested_total(usage, seq!["input_tokens"@, "output_tokens"@, "input_cached_tokens"@]),
        ),
    ]
}

/// The snapshot that OpenAI's costs and usage give of an account.
pub open spec fn openai_snapshot(
    account: AccountView,
    costs: JsonView,
    usage: JsonView,
    now: Seq<char>,
) -> SnapshotView {
    fresh_snapshot(account, openai_figures(costs, usage), OPENAI_MESSAGE@, now)
}

/// The snapshot that OpenAI's costs and usage read at a point in time give of
/// an account.
pub fn openai_report_snapshot(
    account: &ProviderAccount,
    costs: &Json,
    usage: &Json,
    now: &UtcTime,
) -> (result: ProviderSnapshot)
    ensures
        result@ == openai_snapshot(account@, costs@, usage@, now.text()),
{
    let cost = sum_under(costs, "value");
    let tokens = recursive_sum(usage, &["input_tokens", "output_tokens", "input_cached_tokens"]);
    assert(names(seq!["input_tokens", "output_tokens", "input_cached_tokens"])
        =~= seq!["input_tokens"@, "output_tokens"@, "input_cached_tokens"@]);
    let mut metrics: Vec<AllowanceMetric> = Vec::new();
    metrics.push(counted("currency", "Current period", "USD", cost));
    metrics.push(counted("tokens", "Tokens used", "tokens", tokens));
    assert(metric_views(metrics@) =~= openai_figures(costs@, usage@));
    snapshot(account, metrics, OPENAI_MESSAGE, now)
}

/// An amount found in a document is finite.
proof fn lemma_found_is_finite(document: JsonView, names: Seq<Seq<char>>)
    ensures
        first_amount(document, names) is Some ==> first_amount(document, names)->0.finite(),
    decreases names.len(),
{
    if names.len() > 0 {
        if let Some(value) = member(document, names.first()) {
            if let JsonView::Text(text) = value {
                crate::decimal::lemma_amount_is_finite(text);
            }
        }
        lemma_found_is_finite(document, names.drop_first());
    }
}

/// An allowance is made of what the provider reported. The limit of a figure is
/// the reported entitlement, which is above zero; what remains lies between zero
/// and the limit; what was consumed is the limit less what remains, and lies
/// between zero and the limit too.
pub proof fn law_allowance_is_authoritative(quota: JsonView, i: int)
    requires
        0 <= i < quota_figures(quota).len(),
        quota_figures(quota)[i].limit is Some,
    ensures
        ({
            let figure = quota_figures(quota)[i];
            let limit = figure.limit->0;
            let left = figure.remaining->0;
            &&& has_allowance(quota)
            &&& limit == entitlement_of(quota)->0
            &&& limit.finite() && limit.units() > 0
            &&& figure.remaining is Some
            &&& left == clamped(remaining_of(quota)->0, zero(), limit)
            &&& 0 <= left.units() <= limit.units()
            &&& figure.consumed == difference(limit, left)
            &&& figure.consumed.finite()
            &&& 0 <= figure.consumed.units() <= limit.units()
        }),
{
    lemma_found_is_finite(quota, seq!["entitlement"@]);
    lemma_found_is_finite(quota, seq!["quota_remaining"@, "remaining"@]);
    crate::rounding::lemma_magnitude_zero();
    let entitlement: Amount = entitlement_of(quota)->0;
    let left: Amount = clamped(remaining_of(quota)->0, zero(), entitlement);
    assert(has_allowance(quota));
    law_difference_bounded(entitlement, left);
}

/// Without both numbers of an allowance, or with an entitlement of nothing, no
/// figure has a limit; with them, the first figure has one and the second is
/// its worth, a cent for a credit.
pub proof fn law_incomplete_allowance_is_omitted(quota: JsonView)
    ensures
        has_allowance(quota) <==> exists|i: int|
            0 <= i < quota_figures(quota).len() && (#[trigger] quota_figures(quota)[i]).limit
                is Some,
        has_allowance(quota) ==> quota_figures(quota)[1].consumed == hundredth(
            quota_figures(quota)[0].consumed,
        ),
{
    if has_allowance(quota) {
        assert(quota_figures(quota)[0].limit is Some);
    }
}

/// The counter that GitHub reports is shown as it was reported, with or without
/// an allowance beside it; where no finite one was reported, none is shown.
pub proof fn law_reported_counter_is_kept(quota: JsonView, i: int)
    ensures
        reported_use_of(quota) is Some ==> quota_figures(quota).len() > 0
            && quota_figures(quota).last() == counter(
            "credits"@,
            "GitHub-reported credits_used (AIC)"@,
            "AIC"@,
            reported_use_of(quota)->0,
        ),
        reported_use_of(quota) is None && 0 <= i < quota_figures(quota).len()
            ==> quota_figures(quota)[i].label != "GitHub-reported credits_used (AIC)"@,
{
    reveal_strlit("GitHub-reported credits_used (AIC)");
    reveal_strlit("Copilot allowance (AIC)");
    reveal_strlit("Used quota value (USD equivalent)");
    assert("GitHub-reported credits_used (AIC)"@[0] == 'G');
    assert("Copilot allowance (AIC)"@[0] == 'C');
    assert("Used quota value (USD equivalent)"@[0] == 'U');
}

/// No limit is made up for what only billing or organization reports tell.
#[verifier::spinoff_prover]
#[verifier::rlimit(40)]
pub proof fn law_reports_have_no_limit(
    items: Seq<JsonView>,
    cost: JsonView,
    usage: JsonView,
    i: int,
)
    ensures
        0 <= i < billing_figures(items).len() ==> billing_figures(items)[i].limit is None
            && billing_figures(items)[i].remaining is None,
        0 <= i < anthropic_figures(cost, usage).len() ==> anthropic_figures(cost, usage)[i].limit
            is None && anthropic_figures(cost, usage)[i].remaining is None,
        0 <= i < openai_figures(cost, usage).len() ==> openai_figures(cost, usage)[i].limit is None
            && openai_figures(cost, usage)[i].remaining is None,
{
    lemma_token_figures_have_no_limit(
        nested_total(cost, seq!["amount"@]),
        nested_total(usage, seq!["uncached_input_tokens"@]),
        nested_total(usage, seq!["ephemeral_1h_input_tokens"@, "ephemeral_5m_input_tokens"@]),
        nested_total(usage, seq!["cache_read_input_tokens"@]),
        nested_total(usage, seq!["output_tokens"@]),
        nested_total(usage, seq!["web_search_requests"@]),
        i,
    );
}

proof fn lemma_token_figures_have_no_limit(
    cents: Amount,
    uncached: Amount,
    created: Amount,
    read: Amount,
    output: Amount,
    searches: Amount,
    i: int,
)
    ensures
        ({
            let figures = token_figures(cents, uncached, created, read, output, searches);
            0 <= i < figures.len() ==> figures[i].limit is None && figures[i].remaining is None
        }),
{
}

proof fn lemma_total_of_figures(
    cents: Amount,
    uncached: Amount,
    created: Amount,
    read: Amount,
    output: Amount,
    searches: Amount,
)
    ensures
        ({
            let figures = token_figures(cents, uncached, created, read, output, searches);
            &&& figures[1].consumed == sum(sum(sum(uncached, created), read), output)
            &&& figures[2].consumed == uncached
            &&& figures[3].consumed == output
            &&& figures[4].consumed == created
            &&& figures[5].consumed == read
        }),
{
}

proof fn lemma_four_counts_add(
    a: (Amount, int),
    b: (Amount, int),
    c: (Amount, int),
    d: (Amount, int),
)
    requires
        is_count(a.0, a.1),
        is_count(b.0, b.1),
        is_count(c.0, c.1),
        is_count(d.0, d.1),
        size_of(a.1) + size_of(b.1) + size_of(c.1) + size_of(d.1) <= count_limit(),
    ensures
        is_count(sum(sum(sum(a.0, b.0), c.0), d.0), a.1 + b.1 + c.1 + d.1),
{
    law_counts_add(a.0, a.1, b.0, b.1);
    law_counts_add(sum(a.0, b.0), a.1 + b.1, c.0, c.1);
    law_counts_add(sum(sum(a.0, b.0), c.0), a.1 + b.1 + c.1, d.0, d.1);
}

/// The total of Anthropic's tokens is exactly the sum of the four counts shown
/// beside it, where these are whole numbers and their sizes add up to no more
/// than the limit up to which all whole numbers can be held.
#[verifier::spinoff_prover]
#[verifier::rlimit(40)]
pub proof fn law_token_total_is_exact(
    cost: JsonView,
    usage: JsonView,
    uncached: int,
    output: int,
    created: int,
    read: int,
)
    requires
        is_count(anthropic_figures(cost, usage)[2].consumed, uncached),
        is_count(anthropic_figures(cost, usage)[3].consumed, output),
        is_count(anthropic_figures(cost, usage)[4].consumed, created),
        is_count(anthropic_figures(cost, usage)[5].consumed, read),
        size_of(uncached) + size_of(output) + size_of(created) + size_of(read) <= count_limit(),
    ensures
        is_count(anthropic_figures(cost, usage)[1].consumed, uncached + output + created + read),
{
    let a: Amount = nested_total(usage, seq!["uncached_input_tokens"@]);
    let b: Amount = nested_total(
        usage,
        seq!["ephemeral_1h_input_tokens"@, "ephemeral_5m_input_tokens"@],
    );
    let c: Amount = nested_total(usage, seq!["cache_read_input_tokens"@]);
    let d: Amount = nested_total(usage, seq!["output_tokens"@]);
    lemma_total_of_figures(
        nested_total(cost, seq!["amount"@]),
        a,
        b,
        c,
        d,
        nested_total(usage, seq!["web_search_requests"@]),
    );
    lemma_four_counts_add((a, uncached), (b, created), (c, read), (d, output));
}

/// A response of a status from 200 to 299 is read; every other one is answered
/// with a message, and the three that call for something have their own.
pub proof fn law_only_success_is_read(code: u16)
    ensures
        refusal(code) is None <==> 200 <= code <= 299,
        code == 401 ==> refusal(code) == Some(
            "Authentication failed. Check the stored credential."@,
        ),
        code == 403 ==> refusal(code) == Some(
            "The credential does not have the required billing or administration permission."@,
        ),
        code == 429 ==> refusal(code) == Some(
            "Provider rate limit reached. The previous snapshot remains available."@,
        ),
        !(200 <= code <= 299) && code != 401 && code != 403 && code != 429 ==> refusal(code)
            == Some("Provider returned HTTP "@ + status_line(code) + "."@),
{
}

/// The amount that remains of a Copilot quota: the one under the newer name, or
/// else the one under the older.
pub open spec fn amount_left(quota: JsonView) -> Option<Amount> {
    match amount_at(quota, "quota_remaining"@) {
        Some(amount) => Some(amount),
        None => amount_at(quota, "remaining"@),
    }
}

proof fn lemma_quota_amounts(quota: JsonView)
    ensures
        entitlement_of(quota) == amount_at(quota, "entitlement"@),
        remaining_of(quota) == amount_left(quota),
        reported_use_of(quota) == amount_at(quota, "credits_used"@),
        entitlement_of(quota) is Some ==> entitlement_of(quota)->0.finite(),
        remaining_of(quota) is Some ==> remaining_of(quota)->0.finite(),
{
    let one: Seq<Seq<char>> = seq!["entitlement"@];
    let two: Seq<Seq<char>> = seq!["quota_remaining"@, "remaining"@];
    let three: Seq<Seq<char>> = seq!["credits_used"@];
    assert(one[0] == "entitlement"@ && three[0] == "credits_used"@);
    assert(two[0] == "quota_remaining"@ && two[1] == "remaining"@);
    law_first_name_with_an_amount_decides(quota, one, 0);
    law_first_name_with_an_amount_decides(quota, three, 0);
    law_first_name_with_an_amount_decides(quota, two, 0);
    law_first_name_with_an_amount_decides(quota, two, 1);
}

/// An allowance is shown whenever its size and what remains of it are reported,
/// as long as it is more than nothing. What remains may be any amount: it is
/// taken as it is from zero up to the whole allowance, as zero where it is less,
/// and as the whole where it is more. What is shown as used is the allowance less
/// what remains, and its worth is a cent for each credit.
#[verifier::spinoff_prover]
#[verifier::rlimit(40)]
pub proof fn law_reported_allowance_is_shown(
    account: AccountView,
    document: JsonView,
    snapshots: JsonView,
    quota: JsonView,
    now: Seq<char>,
    entitlement: Amount,
    remaining: Amount,
)
    requires
        member(document, "quota_snapshots"@) == Some(snapshots),
        member(snapshots, "premium_interactions"@) == Some(quota),
        amount_at(quota, "entitlement"@) == Some(entitlement),
        entitlement.units() > 0,
        amount_at(quota, "quota_remaining"@) == Some(remaining) || (amount_at(
            quota,
            "quota_remaining"@,
        ) is None && amount_at(quota, "remaining"@) == Some(remaining)),
    ensures
        quota_snapshot(account, document, now) is Some,
        ({
            let card = quota_snapshot(account, document, now)->0;
            let allowance = card.metrics[0];
            let left = allowance.remaining->0;
            &&& card.metrics.len() >= 2
            &&& allowance.kind == "credits"@
            &&& allowance.label == "Copilot allowance (AIC)"@
            &&& allowance.unit == "AIC"@
            &&& allowance.limit == Some(entitlement)
            &&& allowance.remaining is Some
            &&& 0 <= remaining.units() <= entitlement.units() ==> left == remaining
            &&& remaining.units() < 0 ==> left.units() == 0
            &&& remaining.units() > entitlement.units() ==> left == entitlement
            &&& allowance.consumed == difference(entitlement, left)
            &&& allowance.consumed.finite()
            &&& 0 <= allowance.consumed.units() <= entitlement.units()
            &&& card.metrics[1] == (MetricView {
                kind: "currency"@,
                label: "Used quota value (USD equivalent)"@,
                unit: "USD"@,
                consumed: hundredth(allowance.consumed),
                limit: None,
                remaining: None,
            })
            &&& card.message == Some(ALLOWANCE_MESSAGE@)
        }),
{
    lemma_quota_amounts(quota);
    crate::rounding::lemma_magnitude_zero();
    assert(has_allowance(quota));
    assert(quota_figures(quota)[0].limit is Some);
    law_allowance_is_authoritative(quota, 0);
}

/// A Copilot answer gives a card if and only if it reports an allowance of more
/// than nothing with what remains of it, or a counter of its own. The card has
/// two figures for the one and one, behind them, for the other.
#[verifier::spinoff_prover]
#[verifier::rlimit(40)]
pub proof fn law_copilot_card_is_complete(
    account: AccountView,
    document: JsonView,
    now: Seq<char>,
)
    ensures
        ({
            let card = quota_snapshot(account, document, now);
            match member(document, "quota_snapshots"@) {
                None => card is None,
                Some(snapshots) => match member(snapshots, "premium_interactions"@) {
                    None => card is None,
                    Some(quota) => {
                        let size = amount_at(quota, "entitlement"@);
                        let used = amount_at(quota, "credits_used"@);
                        let allowed = size is Some && amount_left(quota) is Some && size->0.units()
                            > 0;
                        let figures = (if allowed {
                            2int
                        } else {
                            0
                        }) + (if used is Some {
                            1int
                        } else {
                            0
                        });
                        &&& card is Some <==> allowed || used is Some
                        &&& card is Some ==> card->0.metrics.len() == figures
                        &&& used is Some ==> card->0.metrics[figures - 1] == (MetricView {
                            kind: "credits"@,
                            label: "GitHub-reported credits_used (AIC)"@,
                            unit: "AIC"@,
                            consumed: used->0,
                            limit: None,
                            remaining: None,
                        })
                        &&& card is Some ==> card->0.message == Some(
                            if allowed {
                                ALLOWANCE_MESSAGE@
                            } else {
                                COUNTER_MESSAGE@
                            },
                        )
                    },
                },
            }
        }),
{
    crate::rounding::lemma_magnitude_zero();
    if let Some(snapshots) = member(document, "quota_snapshots"@) {
        if let Some(quota) = member(snapshots, "premium_interactions"@) {
            lemma_quota_amounts(quota);
        }
    }
}

/// The text of a document that is one.
pub open spec fn plain_text(found: Option<JsonView>) -> Option<Seq<char>> {
    match found {
        Some(JsonView::Text(text)) => Some(text),
        _ => None,
    }
}

/// A Copilot card names its account and the plan that is reported, bears the time
/// that the quota bears or else the one at which it was read, and tells of the
/// reset that is reported.
pub proof fn law_copilot_card_is_labelled(
    account: AccountView,
    document: JsonView,
    now: Seq<char>,
)
    requires
        quota_snapshot(account, document, now) is Some,
    ensures
        ({
            let card = quota_snapshot(account, document, now)->0;
            let quota = member(member(document, "quota_snapshots"@)->0, "premium_interactions"@)->0;
            let plan = plain_text(member(document, "copilot_plan"@));
            let stamp = plain_text(member(quota, "timestamp_utc"@));
            &&& card.account_id == account.id
            &&& card.provider == account.provider
            &&& card.label == account.label
            &&& card.freshness == "fresh"@
            &&& plan is Some ==> card.scope == account.scope + " · "@ + plan->0 + " plan"@
            &&& plan is None ==> card.scope == account.scope + " · "@ + "Copilot"@ + " plan"@
            &&& stamp is Some ==> card.updated_at == stamp->0
            &&& stamp is None ==> card.updated_at == now
            &&& member(document, "quota_reset_date_utc"@) is Some ==> card.reset_at == plain_text(
                member(document, "quota_reset_date_utc"@),
            )
            &&& member(document, "quota_reset_date_utc"@) is None ==> card.reset_at == plain_text(
                member(document, "quota_reset_date"@),
            )
        }),
{
}

/// The items of a billing report are those of the array under the newer name, or
/// of the array under the older where the newer is not there. The card shows the
/// total of their gross quantities and of their net amounts, each where an item
/// has one, and nothing else.
#[verifier::spinoff_prover]
#[verifier::rlimit(40)]
pub proof fn law_billing_card_adds_up_all_items(
    account: AccountView,
    document: JsonView,
    items: Seq<JsonView>,
    now: Seq<char>,
)
    requires
        match member(document, "usageItems"@) {
            Some(JsonView::Array(list)) => items == list,
            Some(_) => items.len() == 0,
            None => match member(document, "usage_items"@) {
                Some(JsonView::Array(list)) => items == list,
                _ => items.len() == 0,
            },
        },
    ensures
        ({
            let card = billing_snapshot(account, document, now);
            let credits = items_total(items, seq!["grossQuantity"@, "gross_quantity"@]);
            let cost = items_total(items, seq!["netAmount"@, "net_amount"@]);
            let figures = (if credits is Some {
                1int
            } else {
                0
            }) + (if cost is Some {
                1int
            } else {
                0
            });
            &&& card.metrics.len() == figures
            &&& credits is Some ==> card.metrics[0] == (MetricView {
                kind: "credits"@,
                label: "AIC consumed"@,
                unit: "AIC"@,
                consumed: credits->0,
                limit: None,
                remaining: None,
            })
            &&& cost is Some ==> card.metrics[figures - 1] == (MetricView {
                kind: "currency"@,
                label: "Actual billed spend"@,
                unit: "USD"@,
                consumed: cost->0,
                limit: None,
                remaining: None,
            })
            &&& card.account_id == account.id
            &&& card.provider == account.provider
            &&& card.label == account.label
            &&& card.scope == shown_scope(account.scope_type, account.scope)
            &&& card.freshness == "fresh"@
            &&& card.updated_at == now
            &&& card.reset_at is None
            &&& card.message == Some(BILLING_MESSAGE@)
        }),
{
    if items.len() == 0 {
        assert(items =~= Seq::empty());
        assert(billing_items(document) =~= items);
    }
}

/// A figure that says what was consumed and no more.
pub open spec fn says(
    metric: MetricView,
    kind: Seq<char>,
    label: Seq<char>,
    unit: Seq<char>,
    consumed: Amount,
) -> bool {
    &&& metric.kind == kind
    &&& metric.label == label
    &&& metric.unit == unit
    &&& metric.consumed == consumed
    &&& metric.limit is None
    &&& metric.remaining is None
}

#[verifier::spinoff_prover]
#[verifier::rlimit(40)]
proof fn lemma_token_figures(
    cents: Amount,
    uncached: Amount,
    created: Amount,
    read: Amount,
    output: Amount,
    searches: Amount,
)
    ensures
        ({
            let figures = token_figures(cents, uncached, created, read, output, searches);
            let total = sum(sum(sum(uncached, created), read), output);
            let searched = !searches.undefined() && searches.units() > 0;
            &&& figures.len() == if searched {
                7int
            } else {
                6
            }
            &&& says(figures[0], "currency"@, "API cost this month"@, "USD"@, hundredth(cents))
            &&& says(figures[1], "tokens"@, "Total API tokens"@, "tokens"@, total)
            &&& says(figures[2], "tokens"@, "Uncached input"@, "tokens"@, uncached)
            &&& says(figures[3], "tokens"@, "Output"@, "tokens"@, output)
            &&& says(figures[4], "tokens"@, "Cache creation"@, "tokens"@, created)
            &&& says(figures[5], "tokens"@, "Cache reads"@, "tokens"@, read)
            &&& searched ==> says(
                figures[6],
                "requests"@,
                "Web searches"@,
                "requests"@,
                searches,
            )
        }),
{
    crate::rounding::lemma_magnitude_zero();
}

/// An Anthropic card is made of everything that the two reports hold: the cost is
/// a hundredth of all amounts of the cost report together, each count of tokens
/// is the total of the usage report under its name, and web searches are shown
/// where there were any.
#[verifier::spinoff_prover]
#[verifier::rlimit(40)]
pub proof fn law_anthropic_card_adds_up_all_reports(
    account: AccountView,
    cost: JsonView,
    usage: JsonView,
    product: Seq<char>,
    now: Seq<char>,
)
    ensures
        ({
            let figures = anthropic_snapshot(account, cost, usage, product, now).metrics;
            let cents = nested_total(cost, seq!["amount"@]);
            let uncached = nested_total(usage, seq!["uncached_input_tokens"@]);
            let created = nested_total(
                usage,
                seq!["ephemeral_1h_input_tokens"@, "ephemeral_5m_input_tokens"@],
            );
            let read = nested_total(usage, seq!["cache_read_input_tokens"@]);
            let output = nested_total(usage, seq!["output_tokens"@]);
            let searches = nested_total(usage, seq!["web_search_requests"@]);
            let total = sum(sum(sum(uncached, created), read), output);
            let searched = !searches.undefined() && searches.units() > 0;
            &&& figures.len() == if searched {
                7int
            } else {
                6
            }
            &&& says(figures[0], "currency"@, "API cost this month"@, "USD"@, hundredth(cents))
            &&& says(figures[1], "tokens"@, "Total API tokens"@, "tokens"@, total)
            &&& says(figures[2], "tokens"@, "Uncached input"@, "tokens"@, uncached)
            &&& says(figures[3], "tokens"@, "Output"@, "tokens"@, output)
            &&& says(figures[4], "tokens"@, "Cache creation"@, "tokens"@, created)
            &&& says(figures[5], "tokens"@, "Cache reads"@, "tokens"@, read)
            &&& searched ==> says(
                figures[6],
                "requests"@,
                "Web searches"@,
                "requests"@,
                searches,
            )
        }),
{
    lemma_token_figures(
        nested_total(cost, seq!["amount"@]),
        nested_total(usage, seq!["uncached_input_tokens"@]),
        nested_total(usage, seq!["ephemeral_1h_input_tokens"@, "ephemeral_5m_input_tokens"@]),
        nested_total(usage, seq!["cache_read_input_tokens"@]),
        nested_total(usage, seq!["output_tokens"@]),
        nested_total(usage, seq!["web_search_requests"@]),
    );
}

/// No day of a cost report is left out. The cents of a report whose days are
/// those of two reports behind one another are the cents of the two together;
/// what such reports hold beside the days is counted in each.
#[verifier::spinoff_prover]
#[verifier::rlimit(40)]
pub proof fn law_every_day_is_paid_for(
    account: AccountView,
    members: Seq<(Seq<char>, JsonView)>,
    at: int,
    days: Seq<JsonView>,
    more: Seq<JsonView>,
    usage: JsonView,
    product: Seq<char>,
    now: Seq<char>,
)
    requires
        0 <= at < members.len(),
        all_counts(with_array(members, at, days), seq!["amount"@]),
        all_counts(with_array(members, at, more), seq!["amount"@]),
        nested_size(with_array(members, at, days), seq!["amount"@]) + nested_size(
            with_array(members, at, more),
            seq!["amount"@],
        ) <= count_limit(),
    ensures
        ({
            let names = seq!["amount"@];
            let whole = nested_total(with_array(members, at, days + more), names);
            let rest = nested_total(with_array(members, at, Seq::empty()), names);
            let first = nested_total(with_array(members, at, days), names);
            let second = nested_total(with_array(members, at, more), names);
            &&& same_number(sum(whole, rest), sum(first, second))
            &&& anthropic_snapshot(
                account,
                with_array(members, at, days + more),
                usage,
                product,
                now,
            ).metrics[0].consumed == hundredth(whole)
            &&& anthropic_snapshot(
                account,
                with_array(members, at, days),
                usage,
                product,
                now,
            ).metrics[0].consumed == hundredth(first)
            &&& anthropic_snapshot(
                account,
                with_array(members, at, more),
                usage,
                product,
                now,
            ).metrics[0].consumed == hundredth(second)
        }),
{
    law_totals_add_over_held_arrays(members, at, days, more, seq!["amount"@]);
    law_anthropic_card_adds_up_all_reports(
        account,
        with_array(members, at, days + more),
        usage,
        product,
        now,
    );
    law_anthropic_card_adds_up_all_reports(
        account,
        with_array(members, at, days),
        usage,
        product,
        now,
    );
    law_anthropic_card_adds_up_all_reports(
        account,
        with_array(members, at, more),
        usage,
        product,
        now,
    );
}

/// An Anthropic card says whether there was activity: there was if any of its
/// figures is above zero. It names its account and the time at which it was made.
#[verifier::spinoff_prover]
#[verifier::rlimit(40)]
pub proof fn law_anthropic_card_tells_of_activity(
    account: AccountView,
    cost: JsonView,
    usage: JsonView,
    product: Seq<char>,
    now: Seq<char>,
)
    ensures
        ({
            let card = anthropic_snapshot(account, cost, usage, product, now);
            let active = exists|i: int|
                0 <= i < card.metrics.len() && !(#[trigger] card.metrics[i]).consumed.undefined()
                    && card.metrics[i].consumed.units() > 0;
            &&& active ==> card.message == Some(
                "Anthropic reports this month's organization API usage and cost. These values do not include "@
                    + product
                    + " web, Desktop, or personal Pro/Max activity, and the API does not provide a remaining balance."@,
            )
            &&& !active ==> card.message == Some(
                "Connected successfully, but Anthropic reports no organization API activity for this month. "@
                    + product
                    + " web, Desktop, and personal Pro/Max activity are not included in this API."@,
            )
            &&& card.account_id == account.id
            &&& card.provider == account.provider
            &&& card.label == account.label
            &&& card.scope == shown_scope(account.scope_type, account.scope)
            &&& card.freshness == "fresh"@
            &&& card.updated_at == now
            &&& card.reset_at is None
        }),
{
    let figures: Seq<MetricView> = anthropic_figures(cost, usage);
    lemma_activity(figures);
}

proof fn lemma_activity(figures: Seq<MetricView>)
    ensures
        has_activity(figures) <==> exists|i: int|
            0 <= i < figures.len() && !(#[trigger] figures[i]).consumed.undefined()
                && figures[i].consumed.units() > 0,
{
    crate::rounding::lemma_magnitude_zero();
    if has_activity(figures) {
        let i: int = choose|i: int|
            0 <= i < figures.len() && less(zero(), (#[trigger] figures[i]).consumed);
        assert(figures[i].consumed.units() > 0);
    }
}

/// An OpenAI card is made of everything that the two reports hold: all values of
/// the costs, and all input, output and cached tokens of the usage.
#[verifier::spinoff_prover]
#[verifier::rlimit(40)]
pub proof fn law_openai_card_adds_up_all_reports(
    account: AccountView,
    costs: JsonView,
    usage: JsonView,
    now: Seq<char>,
)
    ensures
        ({
            let card = openai_snapshot(account, costs, usage, now);
            let cost = nested_total(costs, seq!["value"@]);
            let tokens = nested_total(
                usage,
                seq!["input_tokens"@, "output_tokens"@, "input_cached_tokens"@],
            );
            &&& card.metrics.len() == 2
            &&& says(card.metrics[0], "currency"@, "Current period"@, "USD"@, cost)
            &&& says(card.metrics[1], "tokens"@, "Tokens used"@, "tokens"@, tokens)
            &&& card.account_id == account.id
            &&& card.provider == account.provider
            &&& card.label == account.label
            &&& card.scope == shown_scope(account.scope_type, account.scope)
            &&& card.freshness == "fresh"@
            &&& card.updated_at == now
            &&& card.reset_at is None
            &&& card.message == Some(OPENAI_MESSAGE@)
        }),
{
}

} // verus!
