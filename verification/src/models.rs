//! Accounts, what is known of their allowances, and the accounts found on this
//! machine.

use crate::amount::Amount;
use crate::clock::{bounds_text, current_time, month_bounds, month_of, year_of, UtcTime};
use crate::text::{
    is_space, law_only_white_space_is_trimmed, lossy_string, lossy_text, trim, trimmed,
};
use vstd::prelude::*;
use vstd::string::*;

verus! {

/// A connected account of a provider, with the secret that opens it.
#[derive(Clone, Debug)]
pub struct ProviderAccount {
    pub id: String,
    pub provider: String,
    pub label: String,
    pub scope_type: String,
    pub scope: String,
    pub secret: String,
}

pub struct AccountView {
    pub id: Seq<char>,
    pub provider: Seq<char>,
    pub label: Seq<char>,
    pub scope_type: Seq<char>,
    pub scope: Seq<char>,
    pub secret: Seq<char>,
}

impl View for ProviderAccount {
    type V = AccountView;

    open spec fn view(&self) -> AccountView {
        AccountView {
            id: self.id@,
            provider: self.provider@,
            label: self.label@,
            scope_type: self.scope_type@,
            scope: self.scope@,
            secret: self.secret@,
        }
    }
}

/// What is entered to connect an account.
#[derive(Debug)]
pub struct AccountInput {
    pub provider: String,
    pub label: String,
    pub scope_type: String,
    pub scope: String,
    pub secret: String,
}

/// One figure of an account: what was consumed and, where the provider says so,
/// out of how much.
#[derive(Clone, Debug)]
pub struct AllowanceMetric {
    pub kind: String,
    pub label: String,
    pub unit: String,
    pub consumed: Amount,
    pub limit: Option<Amount>,
    pub remaining: Option<Amount>,
}

pub struct MetricView {
    pub kind: Seq<char>,
    pub label: Seq<char>,
    pub unit: Seq<char>,
    pub consumed: Amount,
    pub limit: Option<Amount>,
    pub remaining: Option<Amount>,
}

impl View for AllowanceMetric {
    type V = MetricView;

    open spec fn view(&self) -> MetricView {
        MetricView {
            kind: self.kind@,
            label: self.label@,
            unit: self.unit@,
            consumed: self.consumed,
            limit: self.limit,
            remaining: self.remaining,
        }
    }
}

/// The figures of an account at one time.
#[derive(Clone, Debug)]
pub struct ProviderSnapshot {
    pub account_id: String,
    pub provider: String,
    pub label: String,
    pub scope: String,
    pub freshness: String,
    pub updated_at: String,
    pub reset_at: Option<String>,
    pub metrics: Vec<AllowanceMetric>,
    pub message: Option<String>,
}

pub struct SnapshotView {
    pub account_id: Seq<char>,
    pub provider: Seq<char>,
    pub label: Seq<char>,
    pub scope: Seq<char>,
    pub freshness: Seq<char>,
    pub updated_at: Seq<char>,
    pub reset_at: Option<Seq<char>>,
    pub metrics: Seq<MetricView>,
    pub message: Option<Seq<char>>,
}

impl View for ProviderSnapshot {
    type V = SnapshotView;

    open spec fn view(&self) -> SnapshotView {
        SnapshotView {
            account_id: self.account_id@,
            provider: self.provider@,
            label: self.label@,
            scope: self.scope@,
            freshness: self.freshness@,
            updated_at: self.updated_at@,
            reset_at: text_if_any(self.reset_at),
            metrics: metric_views(self.metrics@),
            message: text_if_any(self.message),
        }
    }
}

/// An account that was found on this machine.
#[derive(Clone, Debug)]
pub struct LocalAccountCandidate {
    pub id: String,
    pub provider: String,
    pub label: String,
    pub account: String,
    pub source: String,
    pub can_connect: bool,
    pub connected: bool,
    pub message: String,
}

pub struct CandidateView {
    pub id: Seq<char>,
    pub provider: Seq<char>,
    pub label: Seq<char>,
    pub account: Seq<char>,
    pub source: Seq<char>,
    pub can_connect: bool,
    pub connected: bool,
    pub message: Seq<char>,
}

impl View for LocalAccountCandidate {
    type V = CandidateView;

    open spec fn view(&self) -> CandidateView {
        CandidateView {
            id: self.id@,
            provider: self.provider@,
            label: self.label@,
            account: self.account@,
            source: self.source@,
            can_connect: self.can_connect,
            connected: self.connected,
            message: self.message@,
        }
    }
}

/// All snapshots that are shown together.
#[derive(Clone, Debug)]
pub struct Dashboard {
    pub generated_at: String,
    pub providers: Vec<ProviderSnapshot>,
}

/// The characters of a text that may be missing.
pub open spec fn text_if_any(text: Option<String>) -> Option<Seq<char>> {
    match text {
        Some(text) => Some(text@),
        None => None,
    }
}

/// The characters of a text, or of the message that came in its place.
pub open spec fn text_or_message(outcome: Result<String, String>) -> Result<Seq<char>, Seq<char>> {
    match outcome {
        Ok(text) => Ok(text@),
        Err(message) => Err(message@),
    }
}

pub open spec fn metric_views(metrics: Seq<AllowanceMetric>) -> Seq<MetricView> {
    metrics.map_values(|metric: AllowanceMetric| metric@)
}

pub open spec fn snapshot_views(snapshots: Seq<ProviderSnapshot>) -> Seq<SnapshotView> {
    snapshots.map_values(|snapshot: ProviderSnapshot| snapshot@)
}

/// A letter or a digit of ASCII.
pub open spec fn is_plain(c: char) -> bool {
    ('a' <= c && c <= 'z') || ('A' <= c && c <= 'Z') || ('0' <= c && c <= '9')
}

/// The text with a hyphen in the place of every character that is neither a
/// letter or digit of ASCII nor a hyphen.
pub open spec fn hyphenated(s: Seq<char>) -> Seq<char> {
    s.map_values(
        |c: char|
            if is_plain(c) {
                c
            } else {
                '-'
            },
    )
}

/// The identifier of an account with that provider, scope type and scope.
pub open spec fn account_id(
    provider: Seq<char>,
    scope_type: Seq<char>,
    scope: Seq<char>,
) -> Seq<char> {
    hyphenated(
        provider + "-"@ + scope_type + "-"@ + if scope.len() == 0 {
            "default"@
        } else {
            scope
        },
    )
}

/// The account that an input describes.
pub open spec fn entered_account(input: AccountInput) -> AccountView {
    AccountView {
        id: account_id(input.provider@, input.scope_type@, trimmed(input.scope@)),
        provider: input.provider@,
        label: input.label@,
        scope_type: input.scope_type@,
        scope: trimmed(input.scope@),
        secret: input.secret@,
    }
}

/// The scope of an account as a card shows it.
pub open spec fn shown_scope(scope_type: Seq<char>, scope: Seq<char>) -> Seq<char> {
    if scope.len() > 0 {
        scope
    } else if scope_type == "personal"@ {
        "Personal account"@
    } else if scope_type == "local_env"@ {
        "Local environment"@
    } else {
        "Organization"@
    }
}

/// The snapshot that stands for a failed refresh.
pub open spec fn error_snapshot(
    account: AccountView,
    message: Seq<char>,
    updated_at: Seq<char>,
) -> SnapshotView {
    SnapshotView {
        account_id: account.id,
        provider: account.provider,
        label: account.label,
        scope: shown_scope(account.scope_type, account.scope),
        freshness: "error"@,
        updated_at,
        reset_at: None,
        metrics: Seq::empty(),
        message: Some(message),
    }
}

fn hyphenate(s: &str) -> (r: String)
    ensures
        r@ == hyphenated(s@),
{
    let mut out = String::new();
    for c in iter: s.chars()
        invariant
            iter.seq() == s@,
            out@ == hyphenated(s@.take(iter.index() as int)),
    {
        proof {
            assert(s@.take(iter.index() + 1) =~= s@.take(iter.index() as int).push(c));
            assert(hyphenated(s@.take(iter.index() + 1)) =~= hyphenated(
                s@.take(iter.index() as int),
            ).push(hyphenated(s@)[iter.index() as int]));
        }
        if ('a' <= c && c <= 'z') || ('A' <= c && c <= 'Z') || ('0' <= c && c <= '9') {
            out.push(c);
        } else {
            out.push('-');
        }
    }
    proof {
        assert(s@.take(s@.len() as int) =~= s@);
    }
    out
}

impl AccountInput {
    /// The account that the input describes: the scope without white space at
    /// its ends, and an identifier made of the provider and the scope.
    pub fn into_account(self) -> (account: ProviderAccount)
        ensures
            account@ == entered_account(self),
    {
        let scope = trim(self.scope.as_str());
        let last = if scope.as_str().is_empty() {
            "default"
        } else {
            scope.as_str()
        };
        let name = self.provider.as_str().to_string().concat("-").concat(
            self.scope_type.as_str(),
        ).concat("-").concat(last);
        let id = hyphenate(name.as_str());
        ProviderAccount {
            id,
            provider: self.provider,
            label: self.label,
            scope_type: self.scope_type,
            scope,
            secret: self.secret,
        }
    }
}

impl ProviderSnapshot {
    /// The snapshot that stands for a refresh that failed just now.
    pub fn error(account: &ProviderAccount, message: String) -> (snapshot: ProviderSnapshot)
        ensures
            exists|now: UtcTime|
                now.is_clock_time() && snapshot@ == #[trigger] error_snapshot(
                    account@,
                    message@,
                    now.text(),
                ),
    {
        let now = current_time();
        Self::error_at(account, message, &now)
    }

    /// The snapshot that stands for a refresh that failed at a point in time.
    pub fn error_at(account: &ProviderAccount, message: String, now: &UtcTime) -> (snapshot:
        ProviderSnapshot)
        ensures
            snapshot@ == error_snapshot(account@, message@, now.text()),
    {
        let metrics: Vec<AllowanceMetric> = Vec::new();
        let snapshot = ProviderSnapshot {
            account_id: account.id.clone(),
            provider: account.provider.clone(),
            label: account.label.clone(),
            scope: account.display_scope(),
            freshness: "error".to_string(),
            updated_at: now.to_rfc3339(),
            reset_at: None,
            metrics,
            message: Some(message),
        };
        assert(snapshot@.metrics =~= Seq::empty());
        snapshot
    }
}

impl ProviderAccount {
    /// The scope as a card shows it.
    pub fn display_scope(&self) -> (scope: String)
        ensures
            scope@ == shown_scope(self.scope_type@, self.scope@),
    {
        if self.scope.as_str().is_empty() {
            if crate::text::same(self.scope_type.as_str(), "personal") {
                "Personal account".to_string()
            } else if crate::text::same(self.scope_type.as_str(), "local_env") {
                "Local environment".to_string()
            } else {
                "Organization".to_string()
            }
        } else {
            self.scope.clone()
        }
    }
}

/// What a command that ran to its end has left.
#[derive(Debug)]
pub struct CommandOutput {
    pub success: bool,
    pub stdout: Vec<u8>,
    pub stderr: Vec<u8>,
}

/// The texts of a list.
pub open spec fn texts(list: Seq<String>) -> Seq<Seq<char>> {
    list.map_values(|text: String| text@)
}

/// The list of strings that a list of texts spells.
pub fn strings(list: &[&str]) -> (r: Vec<String>)
    ensures
        texts(r@) == list@.map_values(|text: &str| text@),
{
    let mut out: Vec<String> = Vec::new();
    let mut i: usize = 0;
    while i < list.len()
        invariant
            i <= list@.len(),
            out@.len() == i,
            forall|j: int| 0 <= j < i ==> (#[trigger] out@[j])@ == list@[j]@,
        decreases list@.len() - i,
    {
        out.push(list[i].to_string());
        i += 1;
    }
    assert(texts(out@) =~= list@.map_values(|text: &str| text@));
    out
}

/// The arguments with which the GitHub CLI is asked for the name it is logged in under.
pub fn github_login_arguments() -> (arguments: Vec<String>)
    ensures
        texts(arguments@) == seq!["api"@, "user"@, "--jq"@, ".login"@],
{
    let arguments = strings(&["api", "user", "--jq", ".login"]);
    assert(texts(arguments@) =~= seq!["api"@, "user"@, "--jq"@, ".login"@]);
    arguments
}

/// The name that the text of an answer gives, or that it gives none.
pub open spec fn login_in(answer: Seq<char>) -> Result<Seq<char>, Seq<char>> {
    if trimmed(answer).len() == 0 {
        Err("GitHub CLI did not return an authenticated account."@)
    } else {
        Ok(trimmed(answer))
    }
}

/// The name that the text of an answer gives, or that it gives none.
pub fn login_of(answer: &str) -> (login: Result<String, String>)
    ensures
        text_or_message(login) == login_in(answer@),
{
    let login = trim(answer);
    if login.as_str().is_empty() {
        Err("GitHub CLI did not return an authenticated account.".to_string())
    } else {
        Ok(login)
    }
}

/// The name that the GitHub CLI is logged in under, out of what the command has
/// left. There is no output where the command could not be run.
pub fn github_cli_login(output: Option<CommandOutput>) -> (login: Result<String, String>)
    ensures
        text_or_message(login) == match output {
            None => Err("GitHub CLI is not installed or not available on PATH."@),
            Some(output) => if output.success {
                login_in(lossy_text(output.stdout@))
            } else {
                Err("GitHub CLI is installed but not authenticated."@)
            },
        },
{
    match output {
        None => Err("GitHub CLI is not installed or not available on PATH.".to_string()),
        Some(output) => {
            if !output.success {
                return Err("GitHub CLI is installed but not authenticated.".to_string());
            }
            login_of(lossy_string(output.stdout.as_slice()).as_str())
        },
    }
}

/// The first instants of the current month and of the next.
pub fn current_month_bounds() -> (bounds: (String, String))
    ensures
        exists|now: UtcTime|
            now.is_clock_time() && (bounds.0@, bounds.1@) == bounds_text(
                year_of(#[trigger] now.seconds()),
                month_of(now.seconds()),
            ),
{
    let now = current_time();
    month_bounds(&now)
}

/// An identifier holds letters and digits of ASCII and hyphens only.
pub proof fn law_account_ids_are_plain(
    provider: Seq<char>,
    scope_type: Seq<char>,
    scope: Seq<char>,
    i: int,
)
    requires
        0 <= i < account_id(provider, scope_type, scope).len(),
    ensures
        is_plain(account_id(provider, scope_type, scope)[i]) || account_id(
            provider,
            scope_type,
            scope,
        )[i] == '-',
{
}

/// Where the provider, the scope type and the scope are already plain or
/// hyphens, the identifier spells them out.
pub proof fn law_account_id_spells_plain_names(
    provider: Seq<char>,
    scope_type: Seq<char>,
    scope: Seq<char>,
)
    requires
        scope.len() > 0,
        forall|i: int|
            0 <= i < provider.len() ==> is_plain(#[trigger] provider[i]) || provider[i] == '-',
        forall|i: int|
            0 <= i < scope_type.len() ==> is_plain(#[trigger] scope_type[i]) || scope_type[i]
                == '-',
        forall|i: int| 0 <= i < scope.len() ==> is_plain(#[trigger] scope[i]) || scope[i] == '-',
    ensures
        account_id(provider, scope_type, scope) == provider + "-"@ + scope_type + "-"@ + scope,
{
    reveal_strlit("-");
    assert(account_id(provider, scope_type, scope) =~= provider + "-"@ + scope_type + "-"@ + scope);
}

/// What stands in an identifier for a character.
pub open spec fn letter_for(c: char) -> char {
    if 'a' <= c && c <= 'z' || 'A' <= c && c <= 'Z' || '0' <= c && c <= '9' || c == '-' {
        c
    } else {
        '-'
    }
}

/// An identifier follows its parts letter by letter, with a hyphen between each
/// two of them: the provider, the scope type, and the scope or a word for none.
pub proof fn law_account_id_follows_its_parts(
    provider: Seq<char>,
    scope_type: Seq<char>,
    scope: Seq<char>,
    last: Seq<char>,
)
    requires
        scope.len() > 0 ==> last == scope,
        scope.len() == 0 ==> last == "default"@,
    ensures
        ({
            let id = account_id(provider, scope_type, scope);
            let second = provider.len() + 1;
            let third = second + scope_type.len() + 1;
            &&& id.len() == third + last.len()
            &&& forall|i: int| 0 <= i < provider.len() ==> id[i] == letter_for(#[trigger] provider[i])
            &&& id[second - 1] == '-'
            &&& forall|i: int|
                0 <= i < scope_type.len() ==> id[second + i] == letter_for(#[trigger] scope_type[i])
            &&& id[third - 1] == '-'
            &&& forall|i: int| 0 <= i < last.len() ==> id[third + i] == letter_for(#[trigger] last[i])
        }),
{
    reveal_strlit("-");
    let id: Seq<char> = account_id(provider, scope_type, scope);
    let joined: Seq<char> = provider + "-"@ + scope_type + "-"@ + last;
    let second: int = provider.len() as int + 1;
    let third: int = second + scope_type.len() + 1;
    assert forall|i: int| 0 <= i < joined.len() implies id[i] == letter_for(
        #[trigger] joined[i],
    ) by {}
    assert forall|i: int| 0 <= i < provider.len() implies id[i] == letter_for(
        #[trigger] provider[i],
    ) by {
        assert(joined[i] == provider[i]);
    }
    assert(joined[second - 1] == '-');
    assert forall|i: int| 0 <= i < scope_type.len() implies id[second + i] == letter_for(
        #[trigger] scope_type[i],
    ) by {
        assert(joined[second + i] == scope_type[i]);
    }
    assert(joined[third - 1] == '-');
    assert forall|i: int| 0 <= i < last.len() implies id[third + i] == letter_for(
        #[trigger] last[i],
    ) by {
        assert(joined[third + i] == last[i]);
    }
}

/// What was entered is kept as it was, but for the white space around the scope.
pub proof fn law_input_is_kept(input: AccountInput)
    ensures
        entered_account(input).provider == input.provider@,
        entered_account(input).label == input.label@,
        entered_account(input).scope_type == input.scope_type@,
        entered_account(input).scope == trimmed(input.scope@),
        entered_account(input).secret == input.secret@,
        entered_account(input).id == account_id(
            input.provider@,
            input.scope_type@,
            trimmed(input.scope@),
        ),
{
}

/// A scope is shown as it is. Only where there is none does the scope type say
/// what is shown instead.
pub proof fn law_scope_is_shown_as_it_is(scope_type: Seq<char>, scope: Seq<char>)
    ensures
        scope.len() > 0 ==> shown_scope(scope_type, scope) == scope,
        scope.len() == 0 && scope_type == "personal"@ ==> shown_scope(scope_type, scope)
            == "Personal account"@,
        scope.len() == 0 && scope_type == "local_env"@ ==> shown_scope(scope_type, scope)
            == "Local environment"@,
        scope.len() == 0 && scope_type != "personal"@ && scope_type != "local_env"@ ==> shown_scope(
            scope_type,
            scope,
        ) == "Organization"@,
{
    reveal_strlit("personal");
    reveal_strlit("local_env");
    assert("personal"@.len() == 8 && "local_env"@.len() == 9);
}

/// The card of a failure names its account, says what went wrong and when, and
/// has no figures.
pub proof fn law_failure_card_has_no_figures(
    account: AccountView,
    message: Seq<char>,
    now: Seq<char>,
)
    ensures
        ({
            let card = error_snapshot(account, message, now);
            &&& card.account_id == account.id
            &&& card.provider == account.provider
            &&& card.label == account.label
            &&& card.scope == shown_scope(account.scope_type, account.scope)
            &&& card.freshness == "error"@
            &&& card.updated_at == now
            &&& card.reset_at is None
            &&& card.metrics.len() == 0
            &&& card.message == Some(message)
        }),
{
}

/// A login is the answer without the white space around it, and an answer of
/// nothing but white space is none.
pub proof fn law_login_is_the_answer(answer: Seq<char>)
    ensures
        (forall|i: int| 0 <= i < answer.len() ==> is_space(#[trigger] answer[i])) ==> login_in(
            answer,
        ) is Err,
        (exists|i: int| 0 <= i < answer.len() && !is_space(#[trigger] answer[i])) ==> login_in(
            answer,
        ) == Ok::<Seq<char>, Seq<char>>(trimmed(answer)),
{
    let from: int = law_only_white_space_is_trimmed(answer);
    if trimmed(answer).len() > 0 {
        assert(answer[from] == trimmed(answer)[0]);
    }
}

} // verus!
