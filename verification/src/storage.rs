//! What is stored of accounts and snapshots, and what is shown of it.
//!
//! The statements that a database is to run are made here, with the values that
//! go into them, and so is what becomes of the rows that it gives back.

use crate::amount::{
    absolute, epsilon, law_epsilon_is_the_gap_above_one, less, Amount,
};
use crate::clock::{
    bounds_text, current_time, in_month, month_bounds, month_name, month_of, month_start_text,
    title_text, year_of, year_text, UtcTime,
};
use crate::models::{
    metric_views, snapshot_views, text_if_any, AccountView, AllowanceMetric, Dashboard, MetricView,
    ProviderAccount, ProviderSnapshot, SnapshotView,
};
use crate::providers::{counted, counter, says, snapshot_if_any};
use crate::text::{begins, number, number_text, same, starts_with};
use vstd::prelude::*;
use vstd::string::*;

verus! {

/// The name under which secrets are kept in the credential vault.
pub const VAULT_SERVICE: &'static str = "ai-allowance";

/// The tables, made where they are not there yet.
pub const SCHEMA: &'static str = "PRAGMA journal_mode=WAL;
CREATE TABLE IF NOT EXISTS provider_accounts (
  id TEXT PRIMARY KEY,
  provider TEXT NOT NULL,
  label TEXT NOT NULL,
  scope_type TEXT NOT NULL,
  scope TEXT NOT NULL,
  enabled INTEGER NOT NULL DEFAULT 1,
  created_at TEXT NOT NULL,
  updated_at TEXT NOT NULL
);
CREATE TABLE IF NOT EXISTS snapshots (
  account_id TEXT PRIMARY KEY,
  payload TEXT NOT NULL,
  updated_at TEXT NOT NULL,
  FOREIGN KEY(account_id) REFERENCES provider_accounts(id) ON DELETE CASCADE
);
CREATE TABLE IF NOT EXISTS refresh_runs (
  id INTEGER PRIMARY KEY AUTOINCREMENT,
  account_id TEXT NOT NULL,
  status TEXT NOT NULL,
  message TEXT,
  created_at TEXT NOT NULL
);";

pub const SAVE_ACCOUNT: &'static str =
    "INSERT INTO provider_accounts(id, provider, label, scope_type, scope, created_at, updated_at)
VALUES (?1, ?2, ?3, ?4, ?5, ?6, ?6)
ON CONFLICT(id) DO UPDATE SET label=excluded.label, scope=excluded.scope, updated_at=excluded.updated_at, enabled=1";

pub const SELECT_ACCOUNTS: &'static str =
    "SELECT id, provider, label, scope_type, scope FROM provider_accounts WHERE enabled=1 ORDER BY provider, label";

pub const DELETE_SNAPSHOT: &'static str = "DELETE FROM snapshots WHERE account_id=?1";

pub const DELETE_ACCOUNT: &'static str = "DELETE FROM provider_accounts WHERE id=?1";

pub const SAVE_SNAPSHOT: &'static str =
    "INSERT INTO snapshots(account_id, payload, updated_at) VALUES (?1, ?2, ?3)
ON CONFLICT(account_id) DO UPDATE SET payload=excluded.payload, updated_at=excluded.updated_at";

pub const LOG_REFRESH: &'static str =
    "INSERT INTO refresh_runs(account_id, status, message, created_at) VALUES (?1, ?2, ?3, ?4)";

pub const PURGE_LOG: &'static str =
    "DELETE FROM refresh_runs WHERE created_at < datetime('now', '-365 days')";

pub const SELECT_SNAPSHOTS: &'static str =
    "SELECT payload FROM snapshots ORDER BY updated_at DESC";

pub const SELECT_USAGE: &'static str = "SELECT
  COUNT(*),
  COUNT(DISTINCT session_id),
  TOTAL(total_nano_aiu) / 1000000000.0,
  TOTAL(input_tokens),
  TOTAL(output_tokens),
  TOTAL(cache_read_tokens),
  strftime('%Y-%m-%dT%H:%M:%fZ', MAX(julianday(created_at)))
FROM assistant_usage_events
WHERE julianday(created_at) >= julianday(?1)
  AND julianday(created_at) < julianday(?2)";

/// The identifier of the card that shows the local telemetry.
pub const LOCAL_USAGE_ID: &'static str = "copilot-cli-local-usage";

/// What the message of that card ends with.
pub const LOCAL_USAGE_NOTE: &'static str =
    " for the current UTC month. This is not the authoritative GitHub account allowance.";

/// A statement with the values of its parameters.
#[derive(Debug)]
pub struct Statement {
    pub sql: &'static str,
    pub parameters: Vec<Option<String>>,
}

pub struct StatementView {
    pub sql: Seq<char>,
    pub parameters: Seq<Option<Seq<char>>>,
}

impl View for Statement {
    type V = StatementView;

    open spec fn view(&self) -> StatementView {
        StatementView {
            sql: self.sql@,
            parameters: self.parameters@.map_values(|text: Option<String>| text_if_any(text)),
        }
    }
}

pub open spec fn statement_views(statements: Seq<Statement>) -> Seq<StatementView> {
    statements.map_values(|statement: Statement| statement@)
}

fn filled(sql: &'static str, values: &[&str]) -> (statement: Statement)
    ensures
        statement@ == (StatementView {
            sql: sql@,
            parameters: values@.map_values(|text: &str| Some(text@)),
        }),
{
    let mut parameters: Vec<Option<String>> = Vec::new();
    let mut i: usize = 0;
    while i < values.len()
        invariant
            i <= values@.len(),
            parameters@.len() == i,
            forall|j: int|
                0 <= j < i ==> text_if_any(#[trigger] parameters@[j]) == Some(values@[j]@),
        decreases values@.len() - i,
    {
        parameters.push(Some(values[i].to_string()));
        i += 1;
    }
    let statement = Statement { sql, parameters };
    assert(statement@.parameters =~= values@.map_values(|text: &str| Some(text@)));
    statement
}

/// The statement that stores an account.
pub open spec fn account_statement(account: AccountView, now: Seq<char>) -> StatementView {
    StatementView {
        sql: SAVE_ACCOUNT@,
        parameters: seq![
            Some(account.id),
            Some(account.provider),
            Some(account.label),
            Some(account.scope_type),
            Some(account.scope),
            Some(now),
        ],
    }
}

/// The statement that stores an account now.
pub fn save_account(account: &ProviderAccount) -> (statement: Statement)
    ensures
        exists|now: UtcTime|
            now.is_clock_time() && statement@ == #[trigger] account_statement(
                account@,
                now.text(),
            ),
{
    let now = current_time();
    save_account_at(account, &now)
}

/// The statement that stores an account at a point in time.
pub fn save_account_at(account: &ProviderAccount, now: &UtcTime) -> (statement: Statement)
    ensures
        statement@ == account_statement(account@, now.text()),
{
    let stamp = now.to_rfc3339();
    let statement = filled(
        SAVE_ACCOUNT,
        &[
            account.id.as_str(),
            account.provider.as_str(),
            account.label.as_str(),
            account.scope_type.as_str(),
            account.scope.as_str(),
            stamp.as_str(),
        ],
    );
    assert(statement@.parameters =~= account_statement(account@, now.text()).parameters);
    statement
}

/// A stored account, without its secret.
#[derive(Debug)]
pub struct AccountRow {
    pub id: String,
    pub provider: String,
    pub label: String,
    pub scope_type: String,
    pub scope: String,
}

/// The account of a row, with the secret that the vault holds for it. Without
/// one the secret is empty.
pub fn stored_account(row: AccountRow, secret: Option<String>) -> (account: ProviderAccount)
    ensures
        account@ == (AccountView {
            id: row.id@,
            provider: row.provider@,
            label: row.label@,
            scope_type: row.scope_type@,
            scope: row.scope@,
            secret: match secret {
                Some(secret) => secret@,
                None => Seq::empty(),
            },
        }),
{
    ProviderAccount {
        id: row.id,
        provider: row.provider,
        label: row.label,
        scope_type: row.scope_type,
        scope: row.scope,
        secret: match secret {
            Some(secret) => secret,
            None => String::new(),
        },
    }
}

/// The statements that remove an account: its snapshot first.
pub open spec fn removal_statements(account_id: Seq<char>) -> Seq<StatementView> {
    seq![
        StatementView { sql: DELETE_SNAPSHOT@, parameters: seq![Some(account_id)] },
        StatementView { sql: DELETE_ACCOUNT@, parameters: seq![Some(account_id)] },
    ]
}

/// The statements that remove an account, in the order in which they are to run.
pub fn delete_account(account_id: &str) -> (statements: Vec<Statement>)
    ensures
        statement_views(statements@) == removal_statements(account_id@),
{
    let id = [account_id];
    let first = filled(DELETE_SNAPSHOT, &id);
    let second = filled(DELETE_ACCOUNT, &id);
    assert(id@.map_values(|text: &str| Some(text@)) =~= seq![Some(account_id@)]);
    let mut statements: Vec<Statement> = Vec::new();
    statements.push(first);
    statements.push(second);
    assert(statement_views(statements@) =~= removal_statements(account_id@));
    statements
}

/// The statements that store a snapshot, written out as `payload`, and note in
/// the log how its refresh went.
pub open spec fn snapshot_statements(
    snapshot: SnapshotView,
    payload: Seq<char>,
    now: Seq<char>,
) -> Seq<StatementView> {
    seq![
        StatementView {
            sql: SAVE_SNAPSHOT@,
            parameters: seq![Some(snapshot.account_id), Some(payload), Some(snapshot.updated_at)],
        },
        StatementView {
            sql: LOG_REFRESH@,
            parameters: seq![
                Some(snapshot.account_id),
                Some(snapshot.freshness),
                snapshot.message,
                Some(now),
            ],
        },
    ]
}

/// The statements for the first `n` records, each at its time.
pub open spec fn record_statements(
    records: Seq<(ProviderSnapshot, String)>,
    times: Seq<UtcTime>,
    n: nat,
) -> Seq<StatementView>
    decreases n,
{
    if n == 0 {
        Seq::empty()
    } else {
        record_statements(records, times, (n - 1) as nat) + snapshot_statements(
            records[n - 1].0@,
            records[n - 1].1@,
            times[n - 1].text(),
        )
    }
}

/// The statements that store snapshots, each at its time, and then clear the
/// log of what is older than a year.
pub open spec fn saving_statements(
    records: Seq<(ProviderSnapshot, String)>,
    times: Seq<UtcTime>,
) -> Seq<StatementView> {
    record_statements(records, times, records.len()).push(purge_statement())
}

/// The statements that store a snapshot now, written out as `payload`, and note
/// in the log how its refresh went.
pub fn save_snapshot(snapshot: &ProviderSnapshot, payload: &str) -> (statements: Vec<Statement>)
    ensures
        exists|now: UtcTime|
            now.is_clock_time() && statement_views(statements@) == #[trigger] snapshot_statements(
                snapshot@,
                payload@,
                now.text(),
            ),
{
    let now = current_time();
    save_snapshot_at(snapshot, payload, &now)
}

/// The statements that store a snapshot at a point in time.
pub fn save_snapshot_at(snapshot: &ProviderSnapshot, payload: &str, now: &UtcTime) -> (statements:
    Vec<Statement>)
    ensures
        statement_views(statements@) == snapshot_statements(snapshot@, payload@, now.text()),
{
    let stamp = now.to_rfc3339();
    let ghost wanted = snapshot_statements(snapshot@, payload@, now.text());
    let save = filled(
        SAVE_SNAPSHOT,
        &[snapshot.account_id.as_str(), payload, snapshot.updated_at.as_str()],
    );
    let message = match &snapshot.message {
        Some(message) => Some(message.clone()),
        None => None,
    };
    let mut parameters: Vec<Option<String>> = Vec::new();
    parameters.push(Some(snapshot.account_id.clone()));
    parameters.push(Some(snapshot.freshness.clone()));
    parameters.push(message);
    parameters.push(Some(stamp));
    let log = Statement { sql: LOG_REFRESH, parameters };
    proof {
        assert(text_if_any(message) == snapshot@.message);
        assert(save@.parameters =~= wanted[0].parameters);
        assert(log@.parameters =~= wanted[1].parameters);
    }
    let mut statements: Vec<Statement> = Vec::new();
    statements.push(save);
    statements.push(log);
    assert(statement_views(statements@) =~= wanted);
    statements
}

/// The statement that clears the log of what is older than a year.
pub open spec fn purge_statement() -> StatementView {
    StatementView { sql: PURGE_LOG@, parameters: Seq::empty() }
}

/// The statement that clears the log of what is older than a year.
pub fn purge_log() -> (statement: Statement)
    ensures
        statement@ == purge_statement(),
{
    let statement = filled(PURGE_LOG, &[]);
    assert(statement@.parameters =~= Seq::empty());
    statement
}

/// The statements that store snapshots now. Each comes with what it is written
/// out as.
pub fn save_snapshots(records: &Vec<(ProviderSnapshot, String)>) -> (statements: Vec<Statement>)
    ensures
        exists|times: Seq<UtcTime>|
            times.len() == records@.len() && (forall|i: int|
                0 <= i < times.len() ==> (#[trigger] times[i]).is_clock_time()) && statement_views(
                statements@,
            ) == #[trigger] saving_statements(records@, times),
{
    let mut times: Vec<UtcTime> = Vec::new();
    let mut i: usize = 0;
    while i < records.len()
        invariant
            i <= records@.len(),
            times@.len() == i,
            forall|j: int| 0 <= j < i ==> (#[trigger] times@[j]).is_clock_time(),
        decreases records@.len() - i,
    {
        times.push(current_time());
        i += 1;
    }
    save_snapshots_at(records, &times)
}

/// The statements that store snapshots, each at its time.
pub fn save_snapshots_at(
    records: &Vec<(ProviderSnapshot, String)>,
    times: &Vec<UtcTime>,
) -> (statements: Vec<Statement>)
    requires
        times@.len() == records@.len(),
    ensures
        statement_views(statements@) == saving_statements(records@, times@),
{
    let mut statements: Vec<Statement> = Vec::new();
    let mut i: usize = 0;
    assert(statement_views(statements@) =~= Seq::empty());
    while i < records.len()
        invariant
            i <= records@.len(),
            times@.len() == records@.len(),
            statement_views(statements@) == record_statements(records@, times@, i as nat),
        decreases records@.len() - i,
    {
        let ghost before = statements@;
        let mut more = save_snapshot_at(&records[i].0, records[i].1.as_str(), &times[i]);
        let ghost added = more@;
        statements.append(&mut more);
        assert(statement_views(before + added) =~= statement_views(before) + statement_views(added));
        i += 1;
    }
    let ghost before = statement_views(statements@);
    statements.push(purge_log());
    assert(statement_views(statements@) =~= before.push(purge_statement()));
    statements
}

/// A figure tells nothing: nothing was consumed of it and it has no limit.
pub open spec fn is_empty_figure(metric: MetricView) -> bool {
    less(absolute(metric.consumed), epsilon()) && metric.limit is None
}

/// A snapshot of a GitHub account of this machine whose figures all tell nothing.
pub open spec fn is_hidden(snapshot: SnapshotView) -> bool {
    &&& begins(snapshot.account_id, "github-local-"@)
    &&& snapshot.metrics.len() > 0
    &&& forall|i: int|
        0 <= i < snapshot.metrics.len() ==> is_empty_figure(#[trigger] snapshot.metrics[i])
}

/// A stored snapshot is shown beside the local one.
pub open spec fn is_shown(snapshot: SnapshotView, local: Option<SnapshotView>) -> bool {
    !is_hidden(snapshot) && match local {
        Some(local) => snapshot.account_id != local.account_id,
        None => true,
    }
}

/// The snapshots of a dashboard: the local one in front, where there is one, and
/// behind it the stored ones in their order, without those that are not shown.
pub open spec fn shown_snapshots(
    stored: Seq<SnapshotView>,
    local: Option<SnapshotView>,
) -> Seq<SnapshotView> {
    (match local {
        Some(local) => seq![local],
        None => Seq::empty(),
    }) + stored.filter(|snapshot: SnapshotView| is_shown(snapshot, local))
}

fn tells_nothing(metric: &AllowanceMetric) -> (r: bool)
    ensures
        r == is_empty_figure(metric@),
{
    metric.consumed.abs().is_less(Amount { bits: 0x3cb0_0000_0000_0000 }) && metric.limit.is_none()
}

/// Whether a snapshot is one of a GitHub account of this machine whose figures
/// all tell nothing.
pub fn hidden(snapshot: &ProviderSnapshot) -> (r: bool)
    ensures
        r == is_hidden(snapshot@),
{
    assert(snapshot@.metrics.len() == snapshot.metrics@.len());
    if !starts_with(snapshot.account_id.as_str(), "github-local-") || snapshot.metrics.len() == 0 {
        return false;
    }
    let mut i: usize = 0;
    while i < snapshot.metrics.len()
        invariant
            i <= snapshot.metrics@.len(),
            snapshot@.metrics.len() == snapshot.metrics@.len(),
            forall|j: int|
                0 <= j < i ==> is_empty_figure(#[trigger] snapshot@.metrics[j]),
        decreases snapshot.metrics@.len() - i,
    {
        assert(snapshot@.metrics[i as int] == snapshot.metrics@[i as int]@);
        if !tells_nothing(&snapshot.metrics[i]) {
            return false;
        }
        i += 1;
    }
    true
}

/// The dashboard of the stored snapshots, newest first, and of the local one, now.
pub fn dashboard(stored: Vec<ProviderSnapshot>, local: Option<ProviderSnapshot>) -> (dashboard:
    Dashboard)
    ensures
        snapshot_views(dashboard.providers@) == shown_snapshots(
            snapshot_views(stored@),
            snapshot_if_any(local),
        ),
        exists|now: UtcTime| now.is_clock_time() && dashboard.generated_at@ == #[trigger] now.text(),
{
    let now = current_time();
    dashboard_at(stored, local, &now)
}

/// The dashboard of the stored snapshots and of the local one at a point in time.
pub fn dashboard_at(
    stored: Vec<ProviderSnapshot>,
    local: Option<ProviderSnapshot>,
    now: &UtcTime,
) -> (dashboard: Dashboard)
    ensures
        dashboard.generated_at@ == now.text(),
        snapshot_views(dashboard.providers@) == shown_snapshots(
            snapshot_views(stored@),
            snapshot_if_any(local),
        ),
{
    let ghost views = snapshot_views(stored@);
    let ghost beside = snapshot_if_any(local);
    let ghost wanted = |snapshot: SnapshotView| is_shown(snapshot, beside);
    let mut kept: Vec<ProviderSnapshot> = Vec::new();
    proof {
        reveal(Seq::filter);
        assert(snapshot_views(kept@) =~= views.take(0).filter(wanted));
    }
    let ghost all = stored@;
    for snapshot in iter: stored
        invariant
            iter.seq() == all,
            views == snapshot_views(all),
            beside == snapshot_if_any(local),
            wanted == (|snapshot: SnapshotView| is_shown(snapshot, beside)),
            snapshot_views(kept@) == views.take(iter.index() as int).filter(wanted),
    {
        let ghost before = snapshot_views(kept@);
        proof {
            reveal(Seq::filter);
            assert(views.take(iter.index() + 1).drop_last() =~= views.take(iter.index() as int));
            assert(views[iter.index() as int] == snapshot@);
        }
        let apart = match &local {
            Some(local) => !same(snapshot.account_id.as_str(), local.account_id.as_str()),
            None => true,
        };
        if apart && !hidden(&snapshot) {
            kept.push(snapshot);
            assert(snapshot_views(kept@) =~= before.push(snapshot@));
        }
    }
    assert(views.take(views.len() as int) =~= views);
    let ghost rest = snapshot_views(kept@);
    match local {
        Some(local) => {
            kept.insert(0, local);
            assert(snapshot_views(kept@) =~= seq![local@] + rest);
        },
        None => {
            assert(snapshot_views(kept@) =~= Seq::empty() + rest);
        },
    }
    Dashboard { generated_at: now.to_rfc3339(), providers: kept }
}

/// What the session store of the Copilot CLI adds up to over a period.
#[derive(Debug)]
pub struct UsageRow {
    pub event_count: i64,
    pub session_count: i64,
    pub aic: Amount,
    pub input: Amount,
    pub output: Amount,
    pub cached: Amount,
    pub updated_at: Option<String>,
}

/// The usage of the Copilot CLI on this machine over a period.
#[derive(Debug)]
pub struct LocalCopilotUsage {
    pub session_count: i64,
    pub aic: Amount,
    pub input: Amount,
    pub output: Amount,
    pub cached: Amount,
    pub updated_at: String,
}

pub struct UsageView {
    pub session_count: int,
    pub aic: Amount,
    pub input: Amount,
    pub output: Amount,
    pub cached: Amount,
    pub updated_at: Seq<char>,
}

impl View for LocalCopilotUsage {
    type V = UsageView;

    open spec fn view(&self) -> UsageView {
        UsageView {
            session_count: self.session_count as int,
            aic: self.aic,
            input: self.input,
            output: self.output,
            cached: self.cached,
            updated_at: self.updated_at@,
        }
    }
}

/// What there may be of usage.
pub open spec fn usage_if_any(usage: Option<LocalCopilotUsage>) -> Option<UsageView> {
    match usage {
        Some(usage) => Some(usage@),
        None => None,
    }
}

/// The usage that a row tells of, if it counts an event and dates the last one.
pub open spec fn usage_in(row: Option<UsageRow>) -> Option<UsageView> {
    match row {
        None => None,
        Some(row) => match row.updated_at {
            None => None,
            Some(updated_at) => if row.event_count == 0 {
                None
            } else {
                Some(
                    UsageView {
                        session_count: row.session_count as int,
                        aic: row.aic,
                        input: row.input,
                        output: row.output,
                        cached: row.cached,
                        updated_at: updated_at@,
                    },
                )
            },
        },
    }
}

/// The usage that the session store gives. There is no row where the store could
/// not be asked.
pub fn query_local_copilot_usage(row: Option<UsageRow>) -> (usage: Option<LocalCopilotUsage>)
    ensures
        usage_if_any(usage) == usage_in(row),
{
    match row {
        None => None,
        Some(row) => {
            if row.event_count == 0 {
                return None;
            }
            match row.updated_at {
                None => None,
                Some(updated_at) => Some(
                    LocalCopilotUsage {
                        session_count: row.session_count,
                        aic: row.aic,
                        input: row.input,
                        output: row.output,
                        cached: row.cached,
                        updated_at,
                    },
                ),
            }
        },
    }
}

/// The first instants of the month that holds a point in time and of the next.
pub fn copilot_month_bounds(now: &UtcTime) -> (bounds: (String, String))
    ensures
        (bounds.0@, bounds.1@) == bounds_text(year_of(now.seconds()), month_of(now.seconds())),
{
    month_bounds(now)
}

/// The statement that adds up the usage of the month that holds a second.
pub open spec fn usage_statement(seconds: int) -> StatementView {
    let bounds = bounds_text(year_of(seconds), month_of(seconds));
    StatementView { sql: SELECT_USAGE@, parameters: seq![Some(bounds.0), Some(bounds.1)] }
}

/// The statement that adds up the usage of the month that holds a point in time.
pub fn usage_query(now: &UtcTime) -> (statement: Statement)
    ensures
        statement@ == usage_statement(now.seconds()),
{
    let (start, end) = copilot_month_bounds(now);
    let statement = filled(SELECT_USAGE, &[start.as_str(), end.as_str()]);
    assert(statement@.parameters =~= usage_statement(now.seconds()).parameters);
    statement
}

/// The figures of the local telemetry.
pub open spec fn usage_figures(usage: UsageView) -> Seq<MetricView> {
    seq![
        counter("credits"@, "AI credits used"@, "AIC"@, usage.aic),
        counter("tokens"@, "Input tokens"@, "tokens"@, usage.input),
        counter("tokens"@, "Output tokens"@, "tokens"@, usage.output),
        counter("tokens"@, "Cached input"@, "tokens"@, usage.cached),
    ]
}

/// The card that shows the usage of the month that holds a second.
pub open spec fn usage_snapshot(usage: UsageView, seconds: int) -> SnapshotView {
    SnapshotView {
        account_id: LOCAL_USAGE_ID@,
        provider: "github"@,
        label: "Copilot CLI · local usage"@,
        scope: "All local Copilot CLI sessions · "@ + title_text(seconds) + " (UTC)"@,
        freshness: "fresh"@,
        updated_at: usage.updated_at,
        reset_at: Some(bounds_text(year_of(seconds), month_of(seconds)).1),
        metrics: usage_figures(usage),
        message: Some(
            "Local Copilot CLI telemetry summed across "@ + number(usage.session_count, 0)
                + " session"@ + (if usage.session_count == 1 {
                ""@
            } else {
                "s"@
            }) + LOCAL_USAGE_NOTE@,
        ),
    }
}

/// The card that shows the usage of the month that holds a point in time.
pub fn usage_card(usage: LocalCopilotUsage, now: &UtcTime) -> (snapshot: ProviderSnapshot)
    ensures
        snapshot@ == usage_snapshot(usage@, now.seconds()),
{
    let (_, period_end) = copilot_month_bounds(now);
    let mut metrics: Vec<AllowanceMetric> = Vec::new();
    metrics.push(counted("credits", "AI credits used", "AIC", usage.aic));
    metrics.push(counted("tokens", "Input tokens", "tokens", usage.input));
    metrics.push(counted("tokens", "Output tokens", "tokens", usage.output));
    metrics.push(counted("tokens", "Cached input", "tokens", usage.cached));
    assert(metric_views(metrics@) =~= usage_figures(usage@));
    let plural = if usage.session_count == 1 {
        ""
    } else {
        "s"
    };
    ProviderSnapshot {
        account_id: LOCAL_USAGE_ID.to_string(),
        provider: "github".to_string(),
        label: "Copilot CLI · local usage".to_string(),
        scope: "All local Copilot CLI sessions · ".to_string().concat(
            now.month_title().as_str(),
        ).concat(" (UTC)"),
        freshness: "fresh".to_string(),
        updated_at: usage.updated_at,
        reset_at: Some(period_end),
        metrics,
        message: Some(
            "Local Copilot CLI telemetry summed across ".to_string().concat(
                number_text(usage.session_count, 0).as_str(),
            ).concat(" session").concat(plural).concat(LOCAL_USAGE_NOTE),
        ),
    }
}

/// The card that shows what the session store gives for the month that holds a
/// point in time, if it gives anything.
pub fn local_copilot_snapshot(row: Option<UsageRow>, now: &UtcTime) -> (snapshot: Option<
    ProviderSnapshot,
>)
    ensures
        snapshot_if_any(snapshot) == match usage_in(row) {
            Some(usage) => Some(usage_snapshot(usage, now.seconds())),
            None => None,
        },
{
    match query_local_copilot_usage(row) {
        Some(usage) => Some(usage_card(usage, now)),
        None => None,
    }
}

/// The secret of an account is not stored: the statement that stores the
/// account is the same whatever it is.
pub proof fn law_secret_is_not_stored(account: AccountView, secret: Seq<char>, now: Seq<char>)
    ensures
        account_statement(AccountView { secret, ..account }, now) == account_statement(
            account,
            now,
        ),
{
}

/// What is stored of an account is what is read back of it: with the secret that
/// the vault keeps it is the account again.
pub proof fn law_stored_account_comes_back(account: AccountView, now: Seq<char>)
    ensures
        ({
            let stored = account_statement(account, now).parameters;
            account == (AccountView {
                id: stored[0]->0,
                provider: stored[1]->0,
                label: stored[2]->0,
                scope_type: stored[3]->0,
                scope: stored[4]->0,
                secret: account.secret,
            })
        }),
{
}

/// Every snapshot that is stored leaves one note in the log, and the log is
/// cleared once, at the end.
pub proof fn law_every_refresh_is_logged(
    records: Seq<(ProviderSnapshot, String)>,
    times: Seq<UtcTime>,
    i: int,
)
    requires
        times.len() == records.len(),
    ensures
        ({
            let statements = saving_statements(records, times);
            &&& statements.len() == 2 * records.len() + 1
            &&& statements.last() == purge_statement()
            &&& 0 <= i < records.len() ==> seq![statements[2 * i], statements[2 * i + 1]]
                == snapshot_statements(records[i].0@, records[i].1@, times[i].text())
        }),
{
    lemma_two_statements_each(records, times, records.len());
    if 0 <= i < records.len() {
        lemma_statements_of_record(records, times, records.len(), i);
        assert(seq![
            saving_statements(records, times)[2 * i],
            saving_statements(records, times)[2 * i + 1],
        ] =~= snapshot_statements(records[i].0@, records[i].1@, times[i].text()));
    }
}

proof fn lemma_statements_of_record(
    records: Seq<(ProviderSnapshot, String)>,
    times: Seq<UtcTime>,
    n: nat,
    i: int,
)
    requires
        0 <= i < n,
    ensures
        record_statements(records, times, n).len() == 2 * n,
        record_statements(records, times, n)[2 * i] == snapshot_statements(
            records[i].0@,
            records[i].1@,
            times[i].text(),
        )[0],
        record_statements(records, times, n)[2 * i + 1] == snapshot_statements(
            records[i].0@,
            records[i].1@,
            times[i].text(),
        )[1],
    decreases n,
{
    lemma_two_statements_each(records, times, (n - 1) as nat);
    if i < n - 1 {
        lemma_statements_of_record(records, times, (n - 1) as nat, i);
    }
}

proof fn lemma_two_statements_each(
    records: Seq<(ProviderSnapshot, String)>,
    times: Seq<UtcTime>,
    n: nat,
)
    ensures
        record_statements(records, times, n).len() == 2 * n,
    decreases n,
{
    if n > 0 {
        lemma_two_statements_each(records, times, (n - 1) as nat);
    }
}

proof fn lemma_filter_holds<A>(s: Seq<A>, wanted: spec_fn(A) -> bool, i: int)
    requires
        0 <= i < s.filter(wanted).len(),
    ensures
        wanted(s.filter(wanted)[i]),
        s.contains(s.filter(wanted)[i]),
    decreases s.len(),
{
    reveal(Seq::filter);
    if s.len() > 0 {
        let before: Seq<A> = s.drop_last().filter(wanted);
        if i < before.len() {
            lemma_filter_holds(s.drop_last(), wanted, i);
            let at: int = choose|at: int| 0 <= at < s.len() - 1 && s.drop_last()[at] == before[i];
            assert(s[at] == before[i]);
        } else {
            assert(s[s.len() - 1] == s.last());
        }
    }
}

proof fn lemma_filter_keeps<A>(s: Seq<A>, wanted: spec_fn(A) -> bool, i: int)
    requires
        0 <= i < s.len(),
        wanted(s[i]),
    ensures
        s.filter(wanted).contains(s[i]),
    decreases s.len(),
{
    reveal(Seq::filter);
    let before: Seq<A> = s.drop_last().filter(wanted);
    if i < s.len() - 1 {
        lemma_filter_keeps(s.drop_last(), wanted, i);
        let at: int = choose|at: int| 0 <= at < before.len() && before[at] == s[i];
        assert(s.filter(wanted)[at] == s[i]);
    } else {
        assert(s.filter(wanted)[before.len() as int] == s[i]);
    }
}

/// The local card, where there is one, stands in front, and no other snapshot
/// bears its identifier. What stands behind it was stored.
pub proof fn law_local_card_stands_in_front_once(
    stored: Seq<SnapshotView>,
    local: SnapshotView,
    i: int,
)
    ensures
        shown_snapshots(stored, Some(local)).len() > 0,
        shown_snapshots(stored, Some(local))[0] == local,
        0 < i < shown_snapshots(stored, Some(local)).len() ==> shown_snapshots(
            stored,
            Some(local),
        )[i].account_id != local.account_id && stored.contains(
            shown_snapshots(stored, Some(local))[i],
        ),
{
    let wanted = |snapshot: SnapshotView| is_shown(snapshot, Some(local));
    if 0 < i < shown_snapshots(stored, Some(local)).len() {
        lemma_filter_holds(stored, wanted, i - 1);
    }
}

/// No two snapshots are of the same account.
pub open spec fn one_each(snapshots: Seq<SnapshotView>) -> bool {
    forall|i: int, j: int|
        0 <= i < j < snapshots.len() ==> (#[trigger] snapshots[i]).account_id != (
        #[trigger] snapshots[j]).account_id
}

proof fn lemma_filter_keeps_one_each(
    stored: Seq<SnapshotView>,
    wanted: spec_fn(SnapshotView) -> bool,
)
    requires
        one_each(stored),
    ensures
        one_each(stored.filter(wanted)),
    decreases stored.len(),
{
    reveal(Seq::filter);
    if stored.len() > 0 {
        let first: Seq<SnapshotView> = stored.drop_last();
        let before: Seq<SnapshotView> = first.filter(wanted);
        assert(one_each(first)) by {
            assert forall|i: int, j: int| 0 <= i < j < first.len() implies (
            #[trigger] first[i]).account_id != (#[trigger] first[j]).account_id by {
                assert(stored[i].account_id != stored[j].account_id);
            }
        }
        lemma_filter_keeps_one_each(first, wanted);
        assert forall|i: int| 0 <= i < before.len() implies (#[trigger] before[i]).account_id
            != stored.last().account_id by {
            lemma_filter_holds(first, wanted, i);
            let at: int = choose|at: int| 0 <= at < first.len() && first[at] == before[i];
            assert(stored[at].account_id != stored[stored.len() - 1].account_id);
        }
    }
}

/// A dashboard shows one card for an account, as long as one snapshot is stored
/// for it.
pub proof fn law_one_card_for_an_account(
    stored: Seq<SnapshotView>,
    local: Option<SnapshotView>,
)
    requires
        one_each(stored),
    ensures
        one_each(shown_snapshots(stored, local)),
{
    let wanted = |snapshot: SnapshotView| is_shown(snapshot, local);
    let rest: Seq<SnapshotView> = stored.filter(wanted);
    lemma_filter_keeps_one_each(stored, wanted);
    assert forall|i: int| 0 <= i < rest.len() implies is_shown(#[trigger] rest[i], local) by {
        lemma_filter_holds(stored, wanted, i);
    }
    match local {
        Some(card) => {
            let shown: Seq<SnapshotView> = shown_snapshots(stored, local);
            assert(shown =~= seq![card] + rest);
            assert forall|i: int, j: int| 0 <= i < j < shown.len() implies (
            #[trigger] shown[i]).account_id != (#[trigger] shown[j]).account_id by {
                assert(shown[j] == rest[j - 1]);
                if i > 0 {
                    assert(shown[i] == rest[i - 1]);
                }
            }
        },
        None => {
            assert(shown_snapshots(stored, local) =~= rest);
        },
    }
}

/// A stored snapshot that shows an allowance is kept, though nothing was used of
/// it, and so is every one that is not of a GitHub account of this machine. Only
/// the local card can stand in the place of one.
pub proof fn law_allowances_are_kept(
    stored: Seq<SnapshotView>,
    local: Option<SnapshotView>,
    i: int,
    j: int,
)
    requires
        0 <= i < stored.len(),
        local is Some ==> stored[i].account_id != local->0.account_id,
        !begins(stored[i].account_id, "github-local-"@) || stored[i].metrics.len() == 0 || (0 <= j
            < stored[i].metrics.len() && stored[i].metrics[j].limit is Some),
    ensures
        shown_snapshots(stored, local).contains(stored[i]),
{
    let wanted = |snapshot: SnapshotView| is_shown(snapshot, local);
    if begins(stored[i].account_id, "github-local-"@) && stored[i].metrics.len() > 0 {
        assert(!is_empty_figure(stored[i].metrics[j]));
    }
    lemma_filter_keeps(stored, wanted, i);
    let rest: Seq<SnapshotView> = stored.filter(wanted);
    let at: int = choose|at: int| 0 <= at < rest.len() && rest[at] == stored[i];
    match local {
        Some(_) => {
            assert(shown_snapshots(stored, local)[at + 1] == stored[i]);
        },
        None => {
            assert(shown_snapshots(stored, local)[at] == stored[i]);
        },
    }
}

/// Local telemetry is never an allowance: none of its figures has a limit or a
/// remainder.
pub proof fn law_local_usage_has_no_limit(usage: UsageView, seconds: int, i: int)
    requires
        0 <= i < usage_snapshot(usage, seconds).metrics.len(),
    ensures
        usage_snapshot(usage, seconds).metrics[i].limit is None,
        usage_snapshot(usage, seconds).metrics[i].remaining is None,
{
}

/// The usage is added up over the month up to the very instant at which the card
/// says that it starts anew.
pub proof fn law_usage_period_ends_at_reset(usage: UsageView, seconds: int)
    ensures
        usage_statement(seconds).parameters[1] == usage_snapshot(usage, seconds).reset_at,
{
}

/// Some figure of a snapshot tells something: it has a limit, or what was
/// consumed of it is not below epsilon, on either side of zero.
pub open spec fn tells_something(snapshot: SnapshotView) -> bool {
    exists|j: int|
        0 <= j < snapshot.metrics.len() && ((#[trigger] snapshot.metrics[j]).limit is Some
            || snapshot.metrics[j].consumed.undefined() || snapshot.metrics[j].consumed.units()
            >= epsilon().units() || snapshot.metrics[j].consumed.units() <= -epsilon().units())
}

/// Which stored snapshots are shown. One that bears the identifier of the local
/// card is not. Of the others, every one is shown of which some figure, at any
/// position, tells something, and every one that has no figures or is not of a
/// GitHub account of this machine. The rest is not shown.
#[verifier::spinoff_prover]
#[verifier::rlimit(40)]
pub proof fn law_what_tells_something_is_shown(
    stored: Seq<SnapshotView>,
    local: Option<SnapshotView>,
    i: int,
)
    requires
        0 <= i < stored.len(),
    ensures
        ({
            let apart = local is None || stored[i].account_id != local->0.account_id;
            let of_use = tells_something(stored[i]) || stored[i].metrics.len() == 0 || !begins(
                stored[i].account_id,
                "github-local-"@,
            );
            let shown = shown_snapshots(stored, local);
            &&& apart && of_use ==> shown.contains(stored[i])
            &&& !(apart && of_use) && (local is None || stored[i] != local->0) ==> !shown.contains(
                stored[i],
            )
        }),
{
    let wanted = |snapshot: SnapshotView| is_shown(snapshot, local);
    let rest: Seq<SnapshotView> = stored.filter(wanted);
    let shown: Seq<SnapshotView> = shown_snapshots(stored, local);
    lemma_hidden(stored[i]);
    if wanted(stored[i]) {
        lemma_filter_keeps(stored, wanted, i);
        let at: int = choose|at: int| 0 <= at < rest.len() && rest[at] == stored[i];
        let shift: int = if local is Some {
            1
        } else {
            0
        };
        assert(shown[at + shift] == stored[i]);
    } else if shown.contains(stored[i]) {
        let at: int = choose|at: int| 0 <= at < shown.len() && shown[at] == stored[i];
        if local is Some {
            if at > 0 {
                lemma_filter_holds(stored, wanted, at - 1);
            }
        } else {
            assert(shown =~= rest);
            lemma_filter_holds(stored, wanted, at);
        }
    }
}

proof fn lemma_hidden(snapshot: SnapshotView)
    ensures
        is_hidden(snapshot) <==> begins(snapshot.account_id, "github-local-"@)
            && snapshot.metrics.len() > 0 && !tells_something(snapshot),
{
    law_epsilon_is_the_gap_above_one();
    assert forall|j: int| 0 <= j < snapshot.metrics.len() implies (is_empty_figure(
        #[trigger] snapshot.metrics[j],
    ) <==> !(snapshot.metrics[j].limit is Some || snapshot.metrics[j].consumed.undefined()
        || snapshot.metrics[j].consumed.units() >= epsilon().units()
        || snapshot.metrics[j].consumed.units() <= -epsilon().units())) by {
        let consumed: Amount = snapshot.metrics[j].consumed;
        crate::amount::lemma_signed(false, consumed.rank());
    }
}

/// The stored snapshots that are shown keep the order in which they were stored.
pub proof fn law_stored_order_is_kept(
    stored: Seq<SnapshotView>,
    local: Option<SnapshotView>,
    i: int,
    j: int,
) -> (places: (int, int))
    requires
        0 <= i < j < stored.len(),
        is_shown(stored[i], local),
        is_shown(stored[j], local),
    ensures
        0 <= places.0 < places.1 < shown_snapshots(stored, local).len(),
        shown_snapshots(stored, local)[places.0] == stored[i],
        shown_snapshots(stored, local)[places.1] == stored[j],
{
    let wanted = |snapshot: SnapshotView| is_shown(snapshot, local);
    let shift: int = if local is Some {
        1
    } else {
        0
    };
    let places: (int, int) = lemma_filter_order(stored, wanted, i, j);
    assert(shown_snapshots(stored, local)[places.0 + shift] == stored[i]);
    assert(shown_snapshots(stored, local)[places.1 + shift] == stored[j]);
    (places.0 + shift, places.1 + shift)
}

proof fn lemma_filter_place<A>(s: Seq<A>, wanted: spec_fn(A) -> bool, i: int) -> (place: int)
    requires
        0 <= i < s.len(),
        wanted(s[i]),
    ensures
        0 <= place < s.filter(wanted).len(),
        s.filter(wanted)[place] == s[i],
    decreases s.len(),
{
    reveal(Seq::filter);
    if i < s.len() - 1 {
        lemma_filter_place(s.drop_last(), wanted, i)
    } else {
        s.drop_last().filter(wanted).len() as int
    }
}

proof fn lemma_filter_order<A>(s: Seq<A>, wanted: spec_fn(A) -> bool, i: int, j: int) -> (places: (
    int,
    int,
))
    requires
        0 <= i < j < s.len(),
        wanted(s[i]),
        wanted(s[j]),
    ensures
        0 <= places.0 < places.1 < s.filter(wanted).len(),
        s.filter(wanted)[places.0] == s[i],
        s.filter(wanted)[places.1] == s[j],
    decreases s.len(),
{
    reveal(Seq::filter);
    if j < s.len() - 1 {
        lemma_filter_order(s.drop_last(), wanted, i, j)
    } else {
        let p: int = lemma_filter_place(s.drop_last(), wanted, i);
        (p, s.drop_last().filter(wanted).len() as int)
    }
}

/// A dashboard holds no more than what was stored and the local card.
pub proof fn law_nothing_is_shown_twice_over(
    stored: Seq<SnapshotView>,
    local: Option<SnapshotView>,
)
    ensures
        local is None ==> shown_snapshots(stored, local).len() <= stored.len(),
        local is Some ==> 1 <= shown_snapshots(stored, local).len() <= stored.len() + 1,
{
    let wanted = |snapshot: SnapshotView| is_shown(snapshot, local);
    lemma_filter_is_no_longer(stored, wanted);
}

proof fn lemma_filter_is_no_longer<A>(s: Seq<A>, wanted: spec_fn(A) -> bool)
    ensures
        s.filter(wanted).len() <= s.len(),
    decreases s.len(),
{
    reveal(Seq::filter);
    if s.len() > 0 {
        lemma_filter_is_no_longer(s.drop_last(), wanted);
    }
}

/// Each figure of the local card is, to the bit, the total that the session store
/// gave for it: four figures, none of which depends on another total. The rest
/// of the card tells of the month, of the last event and of the sessions.
#[verifier::spinoff_prover]
#[verifier::rlimit(40)]
pub proof fn law_local_card_shows_what_was_stored(
    row: UsageRow,
    seconds: int,
    year: int,
    month: int,
)
    requires
        in_month(seconds, year, month),
        row.event_count != 0,
        row.updated_at is Some,
    ensures
        usage_in(Some(row)) is Some,
        ({
            let card = usage_snapshot(usage_in(Some(row))->0, seconds);
            &&& card.metrics.len() == 4
            &&& says(card.metrics[0], "credits"@, "AI credits used"@, "AIC"@, row.aic)
            &&& says(card.metrics[1], "tokens"@, "Input tokens"@, "tokens"@, row.input)
            &&& says(card.metrics[2], "tokens"@, "Output tokens"@, "tokens"@, row.output)
            &&& says(card.metrics[3], "tokens"@, "Cached input"@, "tokens"@, row.cached)
            &&& card.account_id == "copilot-cli-local-usage"@
            &&& card.provider == "github"@
            &&& card.label == "Copilot CLI · local usage"@
            &&& card.scope == "All local Copilot CLI sessions · "@ + month_name(month) + " "@
                + year_text(year) + " (UTC)"@
            &&& card.freshness == "fresh"@
            &&& card.updated_at == row.updated_at->0@
            &&& card.reset_at == Some(
                if month == 12 {
                    month_start_text(year + 1, 1)
                } else {
                    month_start_text(year, month + 1)
                },
            )
            &&& row.session_count == 1 ==> card.message == Some(
                "Local Copilot CLI telemetry summed across "@ + number(1, 0) + " session"@ + ""@
                    + " for the current UTC month. This is not the authoritative GitHub account allowance."@,
            )
            &&& row.session_count != 1 ==> card.message == Some(
                "Local Copilot CLI telemetry summed across "@ + number(row.session_count as int, 0)
                    + " session"@ + "s"@
                    + " for the current UTC month. This is not the authoritative GitHub account allowance."@,
            )
        }),
{
    crate::clock::lemma_month_of(seconds, year, month);
    assert("All local Copilot CLI sessions · "@ + title_text(seconds) + " (UTC)"@
        =~= "All local Copilot CLI sessions · "@ + month_name(month) + " "@ + year_text(year)
        + " (UTC)"@);
}

/// Without an event, without the time of the last one, or without an answer of
/// the session store there is no usage to show.
pub proof fn law_no_usage_is_made_up(row: Option<UsageRow>)
    ensures
        usage_in(row) is Some <==> row is Some && row->0.event_count != 0 && row->0.updated_at
            is Some,
{
}

/// The usage of a month is asked for from its first instant up to the first of
/// the next, which is left out.
pub proof fn law_usage_is_asked_for_by_month(seconds: int, year: int, month: int)
    requires
        in_month(seconds, year, month),
    ensures
        usage_statement(seconds).sql == "SELECT
  COUNT(*),
  COUNT(DISTINCT session_id),
  TOTAL(total_nano_aiu) / 1000000000.0,
  TOTAL(input_tokens),
  TOTAL(output_tokens),
  TOTAL(cache_read_tokens),
  strftime('%Y-%m-%dT%H:%M:%fZ', MAX(julianday(created_at)))
FROM assistant_usage_events
WHERE julianday(created_at) >= julianday(?1)
  AND julianday(created_at) < julianday(?2)"@,
        usage_statement(seconds).parameters == seq![
            Some(month_start_text(year, month)),
            Some(
                if month == 12 {
                    month_start_text(year + 1, 1)
                } else {
                    month_start_text(year, month + 1)
                },
            ),
        ],
{
    crate::clock::lemma_month_of(seconds, year, month);
}

/// What is written for an account, for the snapshot of one, and to remove one:
/// every value goes where the statement wants it, and the statements run in the
/// order in which they are given.
pub proof fn law_values_go_where_they_belong(
    account: AccountView,
    snapshot: SnapshotView,
    payload: Seq<char>,
    now: Seq<char>,
)
    ensures
        account_statement(account, now).sql == "INSERT INTO provider_accounts(id, provider, label, scope_type, scope, created_at, updated_at)
VALUES (?1, ?2, ?3, ?4, ?5, ?6, ?6)
ON CONFLICT(id) DO UPDATE SET label=excluded.label, scope=excluded.scope, updated_at=excluded.updated_at, enabled=1"@,
        account_statement(account, now).parameters == seq![
            Some(account.id),
            Some(account.provider),
            Some(account.label),
            Some(account.scope_type),
            Some(account.scope),
            Some(now),
        ],
        removal_statements(account.id).len() == 2,
        removal_statements(account.id)[0].sql == "DELETE FROM snapshots WHERE account_id=?1"@,
        removal_statements(account.id)[0].parameters == seq![Some(account.id)],
        removal_statements(account.id)[1].sql == "DELETE FROM provider_accounts WHERE id=?1"@,
        removal_statements(account.id)[1].parameters == seq![Some(account.id)],
        snapshot_statements(snapshot, payload, now).len() == 2,
        snapshot_statements(snapshot, payload, now)[0].sql == "INSERT INTO snapshots(account_id, payload, updated_at) VALUES (?1, ?2, ?3)
ON CONFLICT(account_id) DO UPDATE SET payload=excluded.payload, updated_at=excluded.updated_at"@,
        snapshot_statements(snapshot, payload, now)[0].parameters == seq![
            Some(snapshot.account_id),
            Some(payload),
            Some(snapshot.updated_at),
        ],
        snapshot_statements(snapshot, payload, now)[1].sql == "INSERT INTO refresh_runs(account_id, status, message, created_at) VALUES (?1, ?2, ?3, ?4)"@,
        snapshot_statements(snapshot, payload, now)[1].parameters == seq![
            Some(snapshot.account_id),
            Some(snapshot.freshness),
            snapshot.message,
            Some(now),
        ],
        purge_statement().sql == "DELETE FROM refresh_runs WHERE created_at < datetime('now', '-365 days')"@,
        purge_statement().parameters.len() == 0,
{
}

/// Accounts are read in the order of their providers and labels, without those
/// that are switched off, and snapshots with the newest first.
pub proof fn law_rows_are_asked_for_in_order()
    ensures
        SELECT_ACCOUNTS@ == "SELECT id, provider, label, scope_type, scope FROM provider_accounts WHERE enabled=1 ORDER BY provider, label"@,
        SELECT_SNAPSHOTS@ == "SELECT payload FROM snapshots ORDER BY updated_at DESC"@,
{
}

} // verus!
