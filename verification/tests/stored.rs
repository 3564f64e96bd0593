use ai_allowance::amount::Amount;
use ai_allowance::clock::UtcTime;
use ai_allowance::models::{AllowanceMetric, ProviderAccount, ProviderSnapshot};
use ai_allowance::storage::{
    copilot_month_bounds, dashboard, dashboard_at, delete_account, hidden, local_copilot_snapshot,
    purge_log, query_local_copilot_usage, save_account, save_account_at, save_snapshot,
    save_snapshot_at, save_snapshots, save_snapshots_at,
    stored_account, usage_query, AccountRow, LocalCopilotUsage, Statement, UsageRow, SCHEMA,
    SELECT_ACCOUNTS, SELECT_SNAPSHOTS, SELECT_USAGE, VAULT_SERVICE,
};
use rusqlite::Connection;

fn amount(number: f64) -> Amount {
    Amount { bits: number.to_bits() }
}

fn number(amount: Amount) -> f64 {
    f64::from_bits(amount.bits)
}

fn time(year: i32, month: u32, day: u32, hour: u32, minute: u32, second: u32) -> UtcTime {
    let moment = chrono::TimeZone::with_ymd_and_hms(
        &chrono::Utc,
        year,
        month,
        day,
        hour,
        minute,
        second,
    )
    .single()
    .expect("valid date");
    UtcTime::new(moment.timestamp(), 0).expect("in range")
}

fn usage_connection() -> Connection {
    let connection = Connection::open_in_memory().expect("in-memory database");
    connection
        .execute_batch(
            "CREATE TABLE assistant_usage_events (
               session_id TEXT NOT NULL,
               total_nano_aiu INTEGER,
               input_tokens INTEGER,
               output_tokens INTEGER,
               cache_read_tokens INTEGER,
               created_at TEXT
             );",
        )
        .expect("usage table");
    connection
}

fn usage_row(connection: &Connection, start: &str, end: &str) -> Option<UsageRow> {
    connection
        .query_row(SELECT_USAGE, [start, end], |row| {
            Ok(UsageRow {
                event_count: row.get(0)?,
                session_count: row.get(1)?,
                aic: amount(row.get(2)?),
                input: amount(row.get(3)?),
                output: amount(row.get(4)?),
                cached: amount(row.get(5)?),
                updated_at: row.get(6)?,
            })
        })
        .ok()
}

fn usage_between(connection: &Connection, start: &str, end: &str) -> Option<LocalCopilotUsage> {
    query_local_copilot_usage(usage_row(connection, start, end))
}

fn snapshot_at(connection: &Connection, now: &UtcTime) -> Option<ProviderSnapshot> {
    let query = usage_query(now);
    assert_eq!(query.sql, SELECT_USAGE);
    let start = query.parameters[0].clone().unwrap();
    let end = query.parameters[1].clone().unwrap();
    local_copilot_snapshot(usage_row(connection, &start, &end), now)
}

#[test]
fn aggregates_all_sessions_in_current_utc_month() {
    let connection = usage_connection();
    let rows = [
        ("old", 9_000_000_000_i64, 900_i64, 900_i64, 900_i64, "2026-08-31T23:59:59Z"),
        ("one", 1_500_000_000, 10, 20, 30, "2026-09-01 00:00:00"),
        ("two", 2_250_000_000, 100, 200, 300, "2026-09-15T12:30:00Z"),
        ("future", 8_000_000_000, 800, 800, 800, "2026-10-01T00:00:00Z"),
    ];
    for row in rows {
        connection
            .execute(
                "INSERT INTO assistant_usage_events
                 (session_id, total_nano_aiu, input_tokens, output_tokens, cache_read_tokens, created_at)
                 VALUES (?1, ?2, ?3, ?4, ?5, ?6)",
                row,
            )
            .expect("usage event");
    }

    let usage = usage_between(&connection, "2026-09-01T00:00:00Z", "2026-10-01T00:00:00Z")
        .expect("monthly usage");

    assert_eq!(usage.session_count, 2);
    assert!((number(usage.aic) - 3.75).abs() < f64::EPSILON);
    assert_eq!(number(usage.input), 110.0);
    assert_eq!(number(usage.output), 220.0);
    assert_eq!(number(usage.cached), 330.0);
    assert_eq!(usage.updated_at, "2026-09-15T12:30:00.000Z");
}

#[test]
fn maps_local_usage_to_an_unlimited_telemetry_card() {
    let connection = usage_connection();
    connection
        .execute(
            "INSERT INTO assistant_usage_events
             (session_id, total_nano_aiu, input_tokens, output_tokens, cache_read_tokens, created_at)
             VALUES ('one', 1250000000, 10, 20, 30, '2026-09-15T12:30:00Z')",
            [],
        )
        .expect("usage event");
    let now = time(2026, 9, 15, 17, 0, 0);

    let snapshot = snapshot_at(&connection, &now).expect("local snapshot");

    assert_eq!(snapshot.account_id, "copilot-cli-local-usage");
    assert_eq!(snapshot.label, "Copilot CLI · local usage");
    assert_eq!(snapshot.scope, "All local Copilot CLI sessions · September 2026 (UTC)");
    assert_eq!(snapshot.reset_at.as_deref(), Some("2026-10-01T00:00:00Z"));
    assert!(snapshot
        .message
        .as_deref()
        .is_some_and(|message| message.contains("not the authoritative GitHub account allowance")));
    assert!(snapshot
        .metrics
        .iter()
        .all(|metric| metric.limit.is_none() && metric.remaining.is_none()));
}

#[test]
fn returns_none_for_missing_schema_or_empty_period() {
    let missing_table = Connection::open_in_memory().expect("in-memory database");
    assert!(
        usage_between(&missing_table, "2026-09-01T00:00:00Z", "2026-10-01T00:00:00Z").is_none()
    );

    let empty_period = usage_connection();
    assert!(usage_between(&empty_period, "2026-09-01T00:00:00Z", "2026-10-01T00:00:00Z").is_none());
}

#[test]
fn month_bounds_roll_over_at_year_end() {
    let now = time(2026, 12, 31, 23, 59, 59);

    assert_eq!(
        copilot_month_bounds(&now),
        ("2026-12-01T00:00:00Z".into(), "2027-01-01T00:00:00Z".into())
    );
}

fn row(event_count: i64, session_count: i64, updated_at: Option<&str>) -> UsageRow {
    UsageRow {
        event_count,
        session_count,
        aic: amount(3.75),
        input: amount(110.0),
        output: amount(220.0),
        cached: amount(330.0),
        updated_at: updated_at.map(str::to_string),
    }
}

#[test]
fn usage_needs_an_event_and_a_time() {
    assert!(query_local_copilot_usage(None).is_none());
    assert!(query_local_copilot_usage(Some(row(0, 1, Some("t")))).is_none());
    assert!(query_local_copilot_usage(Some(row(3, 1, None))).is_none());
    assert_eq!(query_local_copilot_usage(Some(row(3, 2, Some("t")))).unwrap().session_count, 2);
    assert!(local_copilot_snapshot(None, &time(2026, 9, 15, 0, 0, 0)).is_none());
}

#[test]
fn the_local_card_tells_how_many_sessions_there_were() {
    let now = time(2026, 9, 15, 0, 0, 0);
    let one = local_copilot_snapshot(Some(row(4, 1, Some("t"))), &now).unwrap();
    assert_eq!(
        one.message.as_deref(),
        Some("Local Copilot CLI telemetry summed across 1 session for the current UTC month. This is not the authoritative GitHub account allowance.")
    );
    let two = local_copilot_snapshot(Some(row(4, 2, Some("t"))), &now).unwrap();
    assert_eq!(
        two.message.as_deref(),
        Some("Local Copilot CLI telemetry summed across 2 sessions for the current UTC month. This is not the authoritative GitHub account allowance.")
    );
    assert_eq!(two.updated_at, "t");
    let figures: Vec<(&str, f64)> =
        two.metrics.iter().map(|m| (m.label.as_str(), number(m.consumed))).collect();
    assert_eq!(
        figures,
        vec![
            ("AI credits used", 3.75),
            ("Input tokens", 110.0),
            ("Output tokens", 220.0),
            ("Cached input", 330.0)
        ]
    );
    assert_eq!(usage_query(&now).parameters[1], two.reset_at);
}

fn account(id: &str, secret: &str) -> ProviderAccount {
    ProviderAccount {
        id: id.into(),
        provider: "github".into(),
        label: "GitHub".into(),
        scope_type: "organization".into(),
        scope: "acme".into(),
        secret: secret.into(),
    }
}

fn run(connection: &Connection, statement: &Statement) -> usize {
    connection
        .execute(statement.sql, rusqlite::params_from_iter(statement.parameters.iter()))
        .expect("statement")
}

fn stored(id: &str, figures: Vec<(f64, Option<f64>)>) -> ProviderSnapshot {
    ProviderSnapshot {
        account_id: id.into(),
        provider: "github".into(),
        label: "GitHub".into(),
        scope: "acme".into(),
        freshness: "fresh".into(),
        updated_at: "2026-09-15T00:00:00Z".into(),
        reset_at: None,
        metrics: figures
            .into_iter()
            .map(|(consumed, limit)| AllowanceMetric {
                kind: "credits".into(),
                label: "AIC".into(),
                unit: "AIC".into(),
                consumed: amount(consumed),
                limit: limit.map(amount),
                remaining: limit.map(amount),
            })
            .collect(),
        message: None,
    }
}

fn database() -> Connection {
    let connection = Connection::open_in_memory().expect("in-memory database");
    connection.execute_batch(SCHEMA).expect("schema");
    connection
}

fn accounts(connection: &Connection) -> Vec<AccountRow> {
    let mut statement = connection.prepare(SELECT_ACCOUNTS).expect("query");
    let rows = statement
        .query_map([], |row| {
            Ok(AccountRow {
                id: row.get(0)?,
                provider: row.get(1)?,
                label: row.get(2)?,
                scope_type: row.get(3)?,
                scope: row.get(4)?,
            })
        })
        .expect("rows");
    rows.map(|row| row.expect("row")).collect()
}

#[test]
fn an_account_is_stored_without_its_secret_and_read_back() {
    let connection = database();
    let now = time(2026, 9, 15, 17, 0, 0);
    let statement = save_account_at(&account("a", "top-secret"), &now);
    assert!(statement.parameters.iter().all(|p| p.as_deref() != Some("top-secret")));
    assert_eq!(
        statement.parameters,
        save_account_at(&account("a", "another"), &now).parameters
    );
    assert_eq!(statement.parameters[5].as_deref(), Some("2026-09-15T17:00:00+00:00"));
    run(&connection, &statement);
    run(&connection, &save_account(&account("b", "")));

    let rows = accounts(&connection);
    assert_eq!(rows.len(), 2);
    let mut rows = rows.into_iter();
    let first = stored_account(rows.next().unwrap(), Some("top-secret".into()));
    assert_eq!(first.id, "a");
    assert_eq!(first.scope_type, "organization");
    assert_eq!(first.scope, "acme");
    assert_eq!(first.secret, "top-secret");
    let second = stored_account(rows.next().unwrap(), None);
    assert_eq!(second.id, "b");
    assert_eq!(second.secret, "");
    assert_eq!(VAULT_SERVICE, "ai-allowance");
}

#[test]
fn storing_an_account_again_changes_its_label_and_scope_only() {
    let connection = database();
    run(&connection, &save_account(&account("a", "")));
    let mut renamed = account("a", "");
    renamed.label = "Renamed".into();
    renamed.scope = "other".into();
    renamed.provider = "openai".into();
    run(&connection, &save_account(&renamed));
    let rows = accounts(&connection);
    assert_eq!(rows.len(), 1);
    assert_eq!(rows[0].label, "Renamed");
    assert_eq!(rows[0].scope, "other");
    assert_eq!(rows[0].provider, "github");
}

#[test]
fn an_account_is_removed_with_its_snapshot() {
    let connection = database();
    run(&connection, &save_account(&account("a", "")));
    for statement in save_snapshots(&vec![(stored("a", vec![]), "{}".to_string())]) {
        run(&connection, &statement);
    }
    let statements = delete_account("a");
    assert_eq!(statements.len(), 2);
    assert_eq!(run(&connection, &statements[0]), 1);
    assert_eq!(run(&connection, &statements[1]), 1);
    assert!(accounts(&connection).is_empty());
}

#[test]
fn snapshots_are_stored_newest_first_and_every_refresh_is_logged() {
    let connection = database();
    run(&connection, &save_account(&account("a", "")));
    run(&connection, &save_account(&account("b", "")));
    let mut later = stored("b", vec![]);
    later.updated_at = "2026-09-16T00:00:00Z".into();
    later.message = Some("hello".into());
    let records = vec![
        (stored("a", vec![]), "payload of a".to_string()),
        (later, "payload of b".to_string()),
    ];
    let times = vec![time(2026, 9, 15, 1, 0, 0), time(2026, 9, 15, 2, 0, 0)];
    let statements = save_snapshots_at(&records, &times);
    assert_eq!(statements.len(), 5);
    assert_eq!(statements[1].parameters[2], None);
    assert_eq!(statements[3].parameters[2].as_deref(), Some("hello"));
    assert_eq!(statements[3].parameters[3].as_deref(), Some("2026-09-15T02:00:00+00:00"));
    assert!(statements[4].parameters.is_empty());
    for statement in &statements {
        run(&connection, statement);
    }
    let mut query = connection.prepare(SELECT_SNAPSHOTS).expect("query");
    let payloads: Vec<String> = query
        .query_map([], |row| row.get::<_, String>(0))
        .expect("rows")
        .map(|row| row.expect("row"))
        .collect();
    assert_eq!(payloads, vec!["payload of b".to_string(), "payload of a".to_string()]);

    let fresh = save_snapshots(&records);
    assert_eq!(fresh.len(), 5);
    assert_eq!(fresh[0].parameters, statements[0].parameters);
    assert!(save_snapshots(&vec![]).len() == 1);
}

#[test]
fn the_log_is_cleared_of_what_is_older_than_a_year() {
    let connection = database();
    let record = (stored("a", vec![]), "{}".to_string());
    let old = save_snapshots_at(&vec![record], &vec![time(2001, 1, 1, 0, 0, 0)]);
    run(&connection, &old[1]);
    let count = |connection: &Connection| -> i64 {
        connection
            .query_row("SELECT COUNT(*) FROM refresh_runs", [], |row| row.get(0))
            .expect("count")
    };
    assert_eq!(count(&connection), 1);
    run(&connection, &old[2]);
    assert_eq!(count(&connection), 0);
}

#[test]
fn empty_counters_of_local_github_accounts_are_hidden() {
    assert!(hidden(&stored("github-local-me", vec![(0.0, None)])));
    assert!(hidden(&stored("github-local-me", vec![(0.0, None), (-1e-17, None)])));
    assert!(!hidden(&stored("github-local-me", vec![])));
    assert!(!hidden(&stored("github-local-me", vec![(0.0, None), (1.0, None)])));
    assert!(!hidden(&stored("github-local-me", vec![(f64::EPSILON, None)])));
    assert!(!hidden(&stored("github-local-me", vec![(f64::NAN, None)])));
    assert!(!hidden(&stored("github-org", vec![(0.0, None)])));
}

#[test]
fn a_zero_used_allowance_is_kept() {
    let unused = stored("github-local-me", vec![(0.0, Some(200000.0)), (0.0, None)]);
    assert!(!hidden(&unused));
    let shown = dashboard(vec![unused], None);
    assert_eq!(shown.providers.len(), 1);
    assert!(shown.generated_at.ends_with("+00:00"));
}

#[test]
fn the_local_card_stands_in_front_and_replaces_its_like() {
    let local = stored("copilot-cli-local-usage", vec![(5.0, None)]);
    let list = vec![
        stored("a", vec![(1.0, None)]),
        stored("copilot-cli-local-usage", vec![(4.0, None)]),
        stored("github-local-me", vec![(0.0, None)]),
        stored("b", vec![]),
    ];
    let now = time(2026, 9, 15, 17, 0, 0);
    let shown = dashboard_at(list, Some(local), &now);
    let ids: Vec<&str> = shown.providers.iter().map(|p| p.account_id.as_str()).collect();
    assert_eq!(ids, vec!["copilot-cli-local-usage", "a", "b"]);
    assert_eq!(number(shown.providers[0].metrics[0].consumed), 5.0);
    assert_eq!(shown.generated_at, "2026-09-15T17:00:00+00:00");
}

#[test]
fn a_snapshot_is_stored_by_itself_as_with_others() {
    let record = (stored("a", vec![]), "payload".to_string());
    let now = time(2026, 9, 15, 1, 0, 0);
    let alone = save_snapshot_at(&record.0, &record.1, &now);
    let all = save_snapshots_at(&vec![record], &vec![now]);
    assert_eq!(alone.len(), 2);
    assert_eq!(all.len(), 3);
    for i in 0..2 {
        assert_eq!(alone[i].sql, all[i].sql);
        assert_eq!(alone[i].parameters, all[i].parameters);
    }
    assert_eq!(purge_log().sql, all[2].sql);
    assert!(purge_log().parameters.is_empty());
    let by_clock = save_snapshot(&stored("a", vec![]), "payload");
    assert_eq!(by_clock[0].parameters, alone[0].parameters);
}

#[test]
fn a_second_snapshot_replaces_the_first() {
    let connection = database();
    run(&connection, &save_account(&account("a", "")));
    for payload in ["first", "second"] {
        for statement in save_snapshot(&stored("a", vec![]), payload) {
            run(&connection, &statement);
        }
    }
    let payload: String =
        connection.query_row(SELECT_SNAPSHOTS, [], |row| row.get(0)).expect("one row");
    assert_eq!(payload, "second");
    let count: i64 = connection
        .query_row("SELECT COUNT(*) FROM snapshots", [], |row| row.get(0))
        .expect("count");
    assert_eq!(count, 1);
}

#[test]
fn removing_an_account_leaves_the_others_and_may_be_repeated() {
    let connection = database();
    run(&connection, &save_account(&account("a", "")));
    run(&connection, &save_account(&account("b", "")));
    for statement in save_snapshot(&stored("b", vec![]), "payload") {
        run(&connection, &statement);
    }
    for _ in 0..2 {
        for statement in delete_account("a") {
            run(&connection, &statement);
        }
        let rows = accounts(&connection);
        assert_eq!(rows.len(), 1);
        assert_eq!(rows[0].id, "b");
        let payload: String =
            connection.query_row(SELECT_SNAPSHOTS, [], |row| row.get(0)).expect("one row");
        assert_eq!(payload, "payload");
    }
}

#[test]
fn a_dashboard_shows_one_card_for_an_account() {
    let list = vec![stored("a", vec![]), stored("b", vec![]), stored("c", vec![])];
    let shown = dashboard(list, Some(stored("b", vec![(1.0, None)])));
    let ids: Vec<&str> = shown.providers.iter().map(|p| p.account_id.as_str()).collect();
    assert_eq!(ids, vec!["b", "a", "c"]);
}
