use ai_allowance::amount::Amount;
use ai_allowance::clock::UtcTime;
use ai_allowance::json::{
    decimal, json_of, optional_number, parse_json, recursive_sum, sum_numbers, Json,
};
use ai_allowance::models::ProviderAccount;
use ai_allowance::providers::{
    anthropic_metrics, anthropic_report_snapshot, checked_json, github_billing_metrics,
    github_billing_snapshot, github_copilot_quota_snapshot, github_copilot_quota_snapshot_at,
    openai_report_snapshot, refused, unsupported,
};

fn number(amount: Amount) -> f64 {
    f64::from_bits(amount.bits)
}

fn document(text: &str) -> Json {
    let value: serde_json::Value = serde_json::from_str(text).unwrap();
    json_of(value)
}

fn local_account() -> ProviderAccount {
    ProviderAccount {
        id: "github-local-test".into(),
        provider: "github".into(),
        label: "GitHub Copilot".into(),
        scope_type: "local_cli".into(),
        scope: "developer".into(),
        secret: String::new(),
    }
}

fn noon() -> UtcTime {
    UtcTime::new(1_789_473_600, 0).unwrap()
}

#[test]
fn sums_nested_provider_values() {
    let value = document(
        r#"{"data":[{"results":[{"input_tokens":10,"output_tokens":5},{"input_tokens":"3"}]}]}"#,
    );
    assert_eq!(number(recursive_sum(&value, &["input_tokens", "output_tokens"])), 18.0);
}

#[test]
fn reads_only_finite_camel_and_snake_case_values() {
    let value = document(r#"{"netAmount":"not-a-number","net_amount":2.5}"#);
    assert_eq!(optional_number(&value, &["netAmount", "net_amount"]).map(number), Some(2.5));

    let non_finite = document(r#"{"credits_used":"NaN"}"#);
    assert_eq!(optional_number(&non_finite, &["credits_used"]).map(number), None);
}

#[test]
fn maps_anthropic_cost_cents_and_token_breakdown() {
    let cost = document(r#"{"data":[{"results":[{"amount":"123.45","currency":"USD"}]}]}"#);
    let usage = document(
        r#"{"data":[{"results":[{
            "uncached_input_tokens":1500,
            "cache_creation":{"ephemeral_1h_input_tokens":10,"ephemeral_5m_input_tokens":20},
            "cache_read_input_tokens":200,
            "output_tokens":500,
            "server_tool_use":{"web_search_requests":3}
        }]}]}"#,
    );

    let metrics = anthropic_metrics(&cost, &usage);
    assert_eq!(number(metrics[0].consumed), 1.2345);
    assert_eq!(number(metrics[1].consumed), 2230.0);
    assert_eq!(number(metrics[2].consumed), 1500.0);
    assert_eq!(number(metrics[3].consumed), 500.0);
    assert_eq!(number(metrics[4].consumed), 30.0);
    assert_eq!(number(metrics[5].consumed), 200.0);
    assert_eq!(number(metrics[6].consumed), 3.0);
}

#[test]
fn maps_copilot_account_allowance_with_remaining_precedence() {
    let account = local_account();
    let value = document(
        r#"{
            "copilot_plan":"enterprise",
            "quota_reset_date_utc":"2026-10-01T00:00:00Z",
            "quota_snapshots":{"premium_interactions":{
                "timestamp_utc":"2026-09-15T23:27:34.559Z",
                "credits_used":501,
                "quota_remaining":199498.6,
                "entitlement":200000
            }}
        }"#,
    );

    let snapshot = github_copilot_quota_snapshot(&account, &value).expect("quota snapshot");
    assert_eq!(snapshot.reset_at.as_deref(), Some("2026-10-01T00:00:00Z"));
    assert_eq!(snapshot.metrics[0].label, "Copilot allowance (AIC)");
    assert_eq!(snapshot.metrics[0].unit, "AIC");
    assert!((number(snapshot.metrics[0].consumed) - 501.4).abs() < 1e-9);
    assert_eq!(snapshot.metrics[0].limit.map(number), Some(200000.0));
    assert_eq!(snapshot.metrics[0].remaining.map(number), Some(199498.6));
    assert_eq!(snapshot.metrics[1].label, "Used quota value (USD equivalent)");
    assert!((number(snapshot.metrics[1].consumed) - 5.014).abs() < 1e-9);
    assert_eq!(snapshot.metrics[2].label, "GitHub-reported credits_used (AIC)");
    assert_eq!(number(snapshot.metrics[2].consumed), 501.0);
}

#[test]
fn omits_incomplete_allowance_but_preserves_a_finite_reported_counter() {
    let account = local_account();
    let value = document(
        r#"{
            "quota_snapshots":{"premium_interactions":{
                "credits_used":501,
                "quota_remaining":"malformed",
                "entitlement":200000
            }}
        }"#,
    );

    let snapshot = github_copilot_quota_snapshot(&account, &value).expect("counter snapshot");
    assert_eq!(snapshot.metrics.len(), 1);
    assert_eq!(snapshot.metrics[0].label, "GitHub-reported credits_used (AIC)");
    assert_eq!(number(snapshot.metrics[0].consumed), 501.0);
    assert!(snapshot.metrics[0].limit.is_none());
    assert!(snapshot
        .message
        .as_deref()
        .is_some_and(|message| message.contains("missing or malformed")));
}

#[test]
fn omits_a_non_finite_reported_counter() {
    let account = local_account();
    let value = document(
        r#"{
            "quota_snapshots":{"premium_interactions":{
                "credits_used":"NaN",
                "quota_remaining":199498.6,
                "entitlement":200000
            }}
        }"#,
    );

    let snapshot = github_copilot_quota_snapshot(&account, &value).expect("allowance snapshot");
    assert_eq!(snapshot.metrics.len(), 2);
    assert!(snapshot
        .metrics
        .iter()
        .all(|metric| metric.label != "GitHub-reported credits_used (AIC)"));
}

#[test]
fn maps_gross_aic_and_net_billed_spend_from_billing_reports() {
    let items = document(
        r#"[
            {
                "grossQuantity":12,
                "netQuantity":3,
                "grossAmount":9,
                "netAmount":2.5
            },
            {
                "gross_quantity":"8",
                "net_quantity":1,
                "net_amount":"1.25"
            }
        ]"#,
    );

    let metrics = github_billing_metrics(items.as_array().unwrap());
    assert_eq!(metrics.len(), 2);
    assert_eq!(metrics[0].label, "AIC consumed");
    assert_eq!(metrics[0].unit, "AIC");
    assert_eq!(number(metrics[0].consumed), 20.0);
    assert_eq!(metrics[1].label, "Actual billed spend");
    assert_eq!(metrics[1].unit, "USD");
    assert_eq!(number(metrics[1].consumed), 3.75);
}

#[test]
fn documents_are_parsed_from_bytes() {
    let json = parse_json(br#"{"a":[null,true,"x",{"b":1.5}],"c":-3}"#).unwrap();
    assert_eq!(json.get("c").and_then(decimal).map(number), Some(-3.0));
    let items = json.get("a").and_then(|a| a.as_array()).unwrap();
    assert_eq!(items.len(), 4);
    assert!(matches!(items[0], Json::Null));
    assert!(matches!(items[1], Json::Bool(true)));
    assert_eq!(items[2].as_str(), Some("x"));
    assert_eq!(items[3].get("b").and_then(decimal).map(number), Some(1.5));
    assert!(json.get("d").is_none());
    assert!(json.as_str().is_none());
    assert!(items[2].as_array().is_none());
    assert_eq!(parse_json(b"{").unwrap_err(), "EOF while parsing an object at line 1 column 1");
    assert_eq!(parse_json(b"").unwrap_err(), "EOF while parsing a value at line 1 column 0");
}

#[test]
fn of_two_members_of_one_name_the_last_counts() {
    let json = parse_json(br#"{"n":1,"n":2}"#).unwrap();
    assert_eq!(json.get("n").and_then(decimal).map(number), Some(2.0));
    assert_eq!(number(recursive_sum(&json, &["n"])), 2.0);
}

#[test]
fn large_integers_become_the_nearest_double() {
    let json = parse_json(b"[18446744073709551615,-9223372036854775808,9007199254740993]").unwrap();
    let items = json.as_array().unwrap();
    assert_eq!(decimal(&items[0]).map(number), Some(18446744073709551615u64 as f64));
    assert_eq!(decimal(&items[1]).map(number), Some(-9223372036854775808.0));
    assert_eq!(decimal(&items[2]).map(number), Some(9007199254740992.0));
}

#[test]
fn only_numbers_and_numerals_are_amounts() {
    assert_eq!(decimal(&document("true")).map(number), None);
    assert_eq!(decimal(&document("null")).map(number), None);
    assert_eq!(decimal(&document("[1]")).map(number), None);
    assert_eq!(decimal(&document(r#""1e400""#)).map(number), None);
    assert_eq!(decimal(&document(r#""-2.5e2""#)).map(number), Some(-250.0));
}

#[test]
fn sums_of_nothing_are_told_apart_from_sums_of_zero() {
    assert!(sum_numbers(&vec![], &["a"]).is_none());
    assert!(sum_numbers(&vec![document(r#"{"b":1}"#)], &["a"]).is_none());
    let zero = sum_numbers(&vec![document(r#"{"a":0}"#)], &["a"]);
    assert_eq!(zero.map(number), Some(0.0));
}

#[test]
fn nested_sums_start_from_negative_zero_in_empty_containers() {
    assert_eq!(recursive_sum(&document("{}"), &["a"]).bits, (-0.0f64).to_bits());
    assert_eq!(recursive_sum(&document("[]"), &["a"]).bits, (-0.0f64).to_bits());
    assert_eq!(recursive_sum(&document("1"), &["a"]).bits, 0);
}

#[test]
fn nested_counts_add_up_exactly() {
    let value = document(
        r#"{"a":4503599627370496,"x":[{"a":4503599627370495},{"y":{"a":1}}]}"#,
    );
    assert_eq!(number(recursive_sum(&value, &["a"])), 9007199254740992.0);
}

#[test]
fn an_allowance_is_clamped_to_its_limit() {
    let over = document(
        r#"{"quota_snapshots":{"premium_interactions":{"entitlement":100,"remaining":250}}}"#,
    );
    let snapshot = github_copilot_quota_snapshot_at(&local_account(), &over, &noon()).unwrap();
    assert_eq!(number(snapshot.metrics[0].consumed), 0.0);
    assert_eq!(snapshot.metrics[0].remaining.map(number), Some(100.0));

    let under = document(
        r#"{"quota_snapshots":{"premium_interactions":{"entitlement":100,"remaining":-5}}}"#,
    );
    let snapshot = github_copilot_quota_snapshot_at(&local_account(), &under, &noon()).unwrap();
    assert_eq!(number(snapshot.metrics[0].consumed), 100.0);
    assert_eq!(snapshot.metrics[0].remaining.map(number), Some(0.0));
    assert_eq!(number(snapshot.metrics[1].consumed), 1.0);
}

#[test]
fn an_entitlement_of_nothing_is_no_allowance() {
    let nothing = document(
        r#"{"quota_snapshots":{"premium_interactions":{"entitlement":0,"remaining":0}}}"#,
    );
    assert!(github_copilot_quota_snapshot_at(&local_account(), &nothing, &noon()).is_none());
    assert!(github_copilot_quota_snapshot_at(&local_account(), &document("{}"), &noon()).is_none());
    let elsewhere = document(r#"{"quota_snapshots":{"chat":{"entitlement":5,"remaining":1}}}"#);
    assert!(github_copilot_quota_snapshot_at(&local_account(), &elsewhere, &noon()).is_none());
}

#[test]
fn a_quota_without_a_time_is_dated_when_it_is_read() {
    let value = document(
        r#"{"quota_reset_date":"2026-10-01",
            "quota_snapshots":{"premium_interactions":{"entitlement":100,"remaining":40}}}"#,
    );
    let snapshot = github_copilot_quota_snapshot_at(&local_account(), &value, &noon()).unwrap();
    assert_eq!(snapshot.updated_at, "2026-09-15T12:00:00+00:00");
    assert_eq!(snapshot.reset_at.as_deref(), Some("2026-10-01"));
    assert_eq!(snapshot.scope, "developer · Copilot plan");
    assert_eq!(snapshot.freshness, "fresh");
    assert_eq!(snapshot.account_id, "github-local-test");
    assert_eq!(number(snapshot.metrics[0].consumed), 60.0);
    assert_eq!(number(snapshot.metrics[1].consumed), 0.6);

    let by_clock = github_copilot_quota_snapshot(&local_account(), &value).unwrap();
    assert!(by_clock.updated_at.ends_with("+00:00"));
    assert!(by_clock.updated_at > "2024".to_string());
}

#[test]
fn a_billing_report_may_be_empty() {
    for text in ["{}", r#"{"usageItems":[]}"#, r#"{"usageItems":5}"#, "[]"] {
        let snapshot = github_billing_snapshot(&local_account(), &document(text), &noon());
        assert!(snapshot.metrics.is_empty());
        assert_eq!(snapshot.freshness, "fresh");
        assert_eq!(snapshot.scope, "developer");
        assert_eq!(
            snapshot.message.as_deref(),
            Some("GitHub billing reports use grossQuantity for total AIC consumed and netAmount for actual billed spend. This spend is separate from Copilot quota value and from Power BI cross-ecosystem spend, which is not currently imported.")
        );
    }
    let snake = document(r#"{"usage_items":[{"netAmount":4}]}"#);
    let snapshot = github_billing_snapshot(&local_account(), &snake, &noon());
    assert_eq!(snapshot.metrics.len(), 1);
    assert_eq!(snapshot.metrics[0].label, "Actual billed spend");
    assert_eq!(number(snapshot.metrics[0].consumed), 4.0);
    let both = document(r#"{"usageItems":5,"usage_items":[{"netAmount":4}]}"#);
    assert!(github_billing_snapshot(&local_account(), &both, &noon()).metrics.is_empty());
}

#[test]
fn a_month_without_activity_is_said_to_be_one() {
    let nothing = document(r#"{"data":[]}"#);
    let snapshot = anthropic_report_snapshot(&local_account(), &nothing, &nothing, "Sonata", &noon());
    assert_eq!(snapshot.metrics.len(), 6);
    assert_eq!(
        snapshot.message.as_deref(),
        Some("Connected successfully, but Anthropic reports no organization API activity for this month. Sonata web, Desktop, and personal Pro/Max activity are not included in this API.")
    );

    let some = document(r#"{"data":[{"output_tokens":1}]}"#);
    let snapshot = anthropic_report_snapshot(&local_account(), &nothing, &some, "Sonata", &noon());
    assert_eq!(
        snapshot.message.as_deref(),
        Some("Anthropic reports this month's organization API usage and cost. These values do not include Sonata web, Desktop, or personal Pro/Max activity, and the API does not provide a remaining balance.")
    );
}

#[test]
fn openai_costs_and_tokens_are_added_up() {
    let costs = document(r#"{"data":[{"results":[{"amount":{"value":0.5}},{"amount":{"value":0.25}}]}]}"#);
    let usage = document(
        r#"{"data":[{"results":[{"input_tokens":7,"output_tokens":2,"input_cached_tokens":1}]}]}"#,
    );
    let snapshot = openai_report_snapshot(&local_account(), &costs, &usage, &noon());
    assert_eq!(snapshot.metrics.len(), 2);
    assert_eq!(snapshot.metrics[0].label, "Current period");
    assert_eq!(number(snapshot.metrics[0].consumed), 0.75);
    assert_eq!(snapshot.metrics[1].label, "Tokens used");
    assert_eq!(number(snapshot.metrics[1].consumed), 10.0);
    assert!(snapshot.metrics.iter().all(|m| m.limit.is_none() && m.remaining.is_none()));
    assert_eq!(
        snapshot.message.as_deref(),
        Some("OpenAI organization APIs report API usage and costs separately from personal Codex plan limits.")
    );
}

#[test]
fn a_copilot_card_explains_its_figures() {
    let allowance = document(
        r#"{"quota_snapshots":{"premium_interactions":{"entitlement":100,"remaining":40}}}"#,
    );
    let snapshot = github_copilot_quota_snapshot_at(&local_account(), &allowance, &noon()).unwrap();
    assert_eq!(
        snapshot.message.as_deref(),
        Some("Copilot allowance consumption is derived from entitlement minus remaining. One AIC has $0.01 of quota value, but neither AIC nor its USD equivalent is actual billed or cross-ecosystem spend. Power BI spend is not currently imported. GitHub's reported counter is shown separately because it can refresh on a different cadence.")
    );
    let counter = document(r#"{"quota_snapshots":{"premium_interactions":{"credits_used":5}}}"#);
    let snapshot = github_copilot_quota_snapshot_at(&local_account(), &counter, &noon()).unwrap();
    assert_eq!(
        snapshot.message.as_deref(),
        Some("GitHub returned a finite credits_used counter, but the entitlement or remaining field was missing or malformed, so no allowance metric was created. Power BI spend is not currently imported.")
    );
}

#[test]
fn nested_counts_add_over_names_and_arrays() {
    let value = document(r#"[{"a":1,"b":[{"a":2,"c":5}]},7,"8",{"b":3,"d":9}]"#);
    let total = |keys: &[&str]| number(recursive_sum(&value, keys));
    assert_eq!(total(&["a"]), 3.0);
    assert_eq!(total(&["b", "c"]), 8.0);
    assert_eq!(total(&["a", "b", "c"]), total(&["a"]) + total(&["b", "c"]));
    assert_eq!(total(&["a", "a", "c", "a"]), total(&["c", "a"]));
    assert_eq!(total(&["x"]), 0.0);
    let negative = document(r#"{"a":-9007199254740000,"b":[{"a":"-992"}]}"#);
    assert_eq!(number(recursive_sum(&negative, &["a"])), -9007199254740992.0);
    let first = document(r#"[{"a":1,"b":[{"a":2,"c":5}]},7]"#);
    let second = document(r#"["8",{"b":3,"d":9}]"#);
    let keys = ["a", "b", "c"];
    assert_eq!(
        total(&keys),
        number(recursive_sum(&first, &keys)) + number(recursive_sum(&second, &keys))
    );
}

#[test]
fn an_unsupported_account_has_no_figures() {
    let snapshot = unsupported(&local_account(), "Not available.", &noon());
    assert_eq!(snapshot.freshness, "unsupported");
    assert!(snapshot.metrics.is_empty());
    assert_eq!(snapshot.message.as_deref(), Some("Not available."));
}

#[test]
fn statuses_are_answered_with_their_messages() {
    assert!(refused(200).is_none());
    assert!(refused(204).is_none());
    assert_eq!(
        refused(401).as_deref(),
        Some("Authentication failed. Check the stored credential.")
    );
    assert_eq!(
        refused(403).as_deref(),
        Some("The credential does not have the required billing or administration permission.")
    );
    assert_eq!(
        refused(429).as_deref(),
        Some("Provider rate limit reached. The previous snapshot remains available.")
    );
    assert_eq!(refused(404).as_deref(), Some("Provider returned HTTP 404 Not Found."));
    assert_eq!(refused(302).as_deref(), Some("Provider returned HTTP 302 Found."));
    assert_eq!(
        refused(599).as_deref(),
        Some("Provider returned HTTP 599 <unknown status code>.")
    );
}

#[test]
fn responses_are_checked_before_they_are_read() {
    let json = checked_json(200, Ok(b"[1]".to_vec())).unwrap();
    assert_eq!(json.as_array().unwrap().len(), 1);
    assert_eq!(
        checked_json(200, Ok(b"<html>".to_vec())).unwrap_err(),
        "Invalid provider response: error decoding response body"
    );
    assert_eq!(
        checked_json(200, Err("connection reset".into())).unwrap_err(),
        "Invalid provider response: connection reset"
    );
    assert_eq!(
        checked_json(500, Ok(b"[1]".to_vec())).unwrap_err(),
        "Provider returned HTTP 500 Internal Server Error."
    );
}
