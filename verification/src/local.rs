//! Accounts that this machine is already logged in to.

use crate::clock::UtcTime;
use crate::models::{
    AccountInput, AccountView, CandidateView, LocalAccountCandidate, ProviderAccount,
};
use crate::refresh::{quota_arguments, step_after, EventView, StepView};
use crate::text::{same, trim, trimmed};
use vstd::prelude::*;
use vstd::string::*;

verus! {

/// What was found on this machine.
#[derive(Debug)]
pub struct Findings {
    /// The name that the GitHub CLI is logged in under.
    pub github_login: Option<String>,
    /// Whether `ANTHROPIC_API_KEY` is set.
    pub anthropic_key: bool,
    /// Whether `OPENAI_API_KEY` is set.
    pub openai_key: bool,
    /// Whether the command of Anthropic's consumer product could be run.
    pub anthropic_command: bool,
    /// Whether `codex --version` could be run.
    pub openai_command: bool,
}

/// The identifier of the account that the GitHub CLI is logged in to.
pub open spec fn github_local_id(login: Seq<char>) -> Seq<char> {
    "github-local-"@ + login
}

/// The account that the GitHub CLI is logged in to.
pub open spec fn github_candidate(login: Seq<char>) -> CandidateView {
    CandidateView {
        id: github_local_id(login),
        provider: "github"@,
        label: "GitHub Copilot"@,
        account: login,
        source: "GitHub CLI"@,
        can_connect: true,
        connected: false,
        message: "Uses the existing GitHub CLI login through `gh api`; the OAuth token is never copied into AI Allowance."@,
    }
}

/// The account whose key an environment variable holds.
pub open spec fn variable_candidate(
    variable: Seq<char>,
    provider: Seq<char>,
    label: Seq<char>,
) -> CandidateView {
    CandidateView {
        id: provider + "-env"@,
        provider,
        label,
        account: variable,
        source: "Environment variable"@,
        can_connect: true,
        connected: false,
        message: "Uses "@ + variable
            + " directly from the app environment; the key is not copied into SQLite or the credential vault."@,
    }
}

/// A command that is installed, whose login is left alone.
pub open spec fn command_candidate(provider: Seq<char>, label: Seq<char>) -> CandidateView {
    CandidateView {
        id: provider + "-local"@,
        provider,
        label,
        account: "Local CLI installation"@,
        source: label + " CLI"@,
        can_connect: false,
        connected: false,
        message: "Installed, but its local consumer login is not imported because no documented third-party allowance API is available."@,
    }
}

/// One candidate, where it was found.
pub open spec fn where_found(found: bool, candidate: CandidateView) -> Seq<CandidateView> {
    if found {
        seq![candidate]
    } else {
        Seq::empty()
    }
}

/// The candidates that can be connected: logins and keys that were found.
pub open spec fn connectable_in(findings: Findings) -> Seq<CandidateView> {
    (match findings.github_login {
        Some(login) => seq![github_candidate(login@)],
        None => Seq::empty(),
    }) + where_found(
        findings.anthropic_key,
        variable_candidate("ANTHROPIC_API_KEY"@, "anthropic"@, "Anthropic API"@),
    ) + where_found(
        findings.openai_key,
        variable_candidate("OPENAI_API_KEY"@, "openai"@, "OpenAI API"@),
    )
}

/// The candidates that the findings give, in the order in which they are listed.
/// The two commands are listed where they are installed, so that it can be seen
/// why their logins are not used. `product` is the name of Anthropic's consumer
/// product.
pub open spec fn candidates_in(findings: Findings, product: Seq<char>) -> Seq<CandidateView> {
    connectable_in(findings) + where_found(
        findings.anthropic_command,
        command_candidate("anthropic"@, product + " Code"@),
    ) + where_found(findings.openai_command, command_candidate("openai"@, "Codex CLI"@))
}

pub open spec fn candidate_views(candidates: Seq<LocalAccountCandidate>) -> Seq<CandidateView> {
    candidates.map_values(|candidate: LocalAccountCandidate| candidate@)
}

fn push_candidate(candidates: &mut Vec<LocalAccountCandidate>, candidate: LocalAccountCandidate)
    ensures
        candidate_views(final(candidates)@) == candidate_views(old(candidates)@).push(candidate@),
{
    candidates.push(candidate);
    assert(candidate_views(candidates@) =~= candidate_views(old(candidates)@).push(candidate@));
}

fn by_variable(variable: &str, provider: &str, label: &str) -> (candidate: LocalAccountCandidate)
    ensures
        candidate@ == variable_candidate(variable@, provider@, label@),
{
    LocalAccountCandidate {
        id: provider.to_string().concat("-env"),
        provider: provider.to_string(),
        label: label.to_string(),
        account: variable.to_string(),
        source: "Environment variable".to_string(),
        can_connect: true,
        connected: false,
        message: "Uses ".to_string().concat(variable).concat(
            " directly from the app environment; the key is not copied into SQLite or the credential vault.",
        ),
    }
}

fn by_command(provider: &str, label: &str) -> (candidate: LocalAccountCandidate)
    ensures
        candidate@ == command_candidate(provider@, label@),
{
    LocalAccountCandidate {
        id: provider.to_string().concat("-local"),
        provider: provider.to_string(),
        label: label.to_string(),
        account: "Local CLI installation".to_string(),
        source: label.to_string().concat(" CLI"),
        can_connect: false,
        connected: false,
        message: "Installed, but its local consumer login is not imported because no documented third-party allowance API is available.".to_string(),
    }
}

/// The candidates that the findings give.
pub fn discover_local_accounts(findings: Findings, product: &str) -> (candidates: Vec<
    LocalAccountCandidate,
>)
    ensures
        candidate_views(candidates@) == candidates_in(findings, product@),
{
    let mut candidates: Vec<LocalAccountCandidate> = Vec::new();
    assert(candidate_views(candidates@) =~= Seq::empty());
    if let Some(login) = findings.github_login {
        push_candidate(
            &mut candidates,
            LocalAccountCandidate {
                id: "github-local-".to_string().concat(login.as_str()),
                provider: "github".to_string(),
                label: "GitHub Copilot".to_string(),
                account: login,
                source: "GitHub CLI".to_string(),
                can_connect: true,
                connected: false,
                message: "Uses the existing GitHub CLI login through `gh api`; the OAuth token is never copied into AI Allowance.".to_string(),
            },
        );
    }
    if findings.anthropic_key {
        push_candidate(
            &mut candidates,
            by_variable("ANTHROPIC_API_KEY", "anthropic", "Anthropic API"),
        );
    }
    if findings.openai_key {
        push_candidate(&mut candidates, by_variable("OPENAI_API_KEY", "openai", "OpenAI API"));
    }
    if findings.anthropic_command {
        let label = product.to_string().concat(" Code");
        push_candidate(&mut candidates, by_command("anthropic", label.as_str()));
    }
    if findings.openai_command {
        push_candidate(&mut candidates, by_command("openai", "Codex CLI"));
    }
    assert(candidate_views(candidates@) =~= candidates_in(findings, product@));
    candidates
}

/// The account that a candidate is connected as. It has no secret of its own.
pub open spec fn wired_account(candidate: CandidateView) -> AccountView {
    AccountView {
        id: candidate.id,
        provider: candidate.provider,
        label: candidate.label,
        scope_type: if candidate.source == "GitHub CLI"@ {
            "local_cli"@
        } else {
            "local_env"@
        },
        scope: candidate.account,
        secret: Seq::empty(),
    }
}

/// The account that a candidate is connected as, if it can be connected.
pub fn account_to_wire(candidate: &LocalAccountCandidate) -> (account: Option<ProviderAccount>)
    ensures
        account is Some <==> candidate.can_connect,
        account is Some ==> account->0@ == wired_account(candidate@),
{
    if !candidate.can_connect {
        return None;
    }
    let scope_type = if same(candidate.source.as_str(), "GitHub CLI") {
        "local_cli"
    } else {
        "local_env"
    };
    let secret = String::new();
    let account = ProviderAccount {
        id: candidate.id.clone(),
        provider: candidate.provider.clone(),
        label: candidate.label.clone(),
        scope_type: scope_type.to_string(),
        scope: candidate.account.clone(),
        secret,
    };
    assert(account@.secret =~= Seq::empty());
    Some(account)
}

/// The candidate as it is once it was connected, if it could be.
pub open spec fn wired(candidate: CandidateView) -> CandidateView {
    CandidateView { connected: candidate.connected || candidate.can_connect, ..candidate }
}

pub open spec fn account_views(accounts: Seq<ProviderAccount>) -> Seq<AccountView> {
    accounts.map_values(|account: ProviderAccount| account@)
}

/// The accounts that the candidates are connected as, in their order.
pub open spec fn wired_accounts(candidates: Seq<CandidateView>) -> Seq<AccountView>
    decreases candidates.len(),
{
    if candidates.len() == 0 {
        Seq::empty()
    } else if candidates.last().can_connect {
        wired_accounts(candidates.drop_last()).push(wired_account(candidates.last()))
    } else {
        wired_accounts(candidates.drop_last())
    }
}

/// The accounts to store so that every candidate that can be connected is, and
/// the candidates as they are once that has been done.
pub fn auto_wire_local_accounts(candidates: Vec<LocalAccountCandidate>) -> (r: (
    Vec<ProviderAccount>,
    Vec<LocalAccountCandidate>,
))
    ensures
        account_views(r.0@) == wired_accounts(candidate_views(candidates@)),
        candidate_views(r.1@) == candidate_views(candidates@).map_values(
            |candidate: CandidateView| wired(candidate),
        ),
{
    let ghost all = candidates@;
    let ghost views = candidate_views(all);
    let ghost done = views.map_values(|candidate: CandidateView| wired(candidate));
    let mut accounts: Vec<ProviderAccount> = Vec::new();
    let mut results: Vec<LocalAccountCandidate> = Vec::new();
    proof {
        assert(account_views(accounts@) =~= wired_accounts(views.take(0)));
        assert(candidate_views(results@) =~= done.take(0));
    }
    for candidate in iter: candidates
        invariant
            iter.seq() == all,
            views == candidate_views(all),
            done == views.map_values(|candidate: CandidateView| wired(candidate)),
            account_views(accounts@) == wired_accounts(views.take(iter.index() as int)),
            candidate_views(results@) == done.take(iter.index() as int),
    {
        let ghost before = account_views(accounts@);
        let ghost listed = candidate_views(results@);
        proof {
            assert(views.take(iter.index() + 1).drop_last() =~= views.take(iter.index() as int));
            assert(views[iter.index() as int] == candidate@);
            assert(done.take(iter.index() + 1) =~= listed.push(wired(candidate@)));
        }
        let mut result = candidate;
        if let Some(account) = account_to_wire(&result) {
            accounts.push(account);
            result.connected = true;
            assert(account_views(accounts@) =~= before.push(wired_account(candidate@)));
        }
        results.push(result);
        assert(candidate_views(results@) =~= listed.push(wired(candidate@)));
    }
    proof {
        assert(views.take(views.len() as int) =~= views);
        assert(done.take(views.len() as int) =~= done);
    }
    (accounts, results)
}

/// What an account holds, or the message that came in its place.
pub open spec fn account_or_message(outcome: Result<ProviderAccount, String>) -> Result<
    AccountView,
    Seq<char>,
> {
    match outcome {
        Ok(account) => Ok(account@),
        Err(message) => Err(message@),
    }
}

/// The account to store so that the GitHub CLI's account is connected, unless it
/// is no longer the one that was chosen.
pub fn connect_local_account(candidate_id: &str, login: Result<String, String>) -> (outcome: Result<
    ProviderAccount,
    String,
>)
    ensures
        account_or_message(outcome) == match login {
            Err(message) => Err(message@),
            Ok(login) => if candidate_id@ == github_local_id(login@) {
                Ok(wired_account(github_candidate(login@)))
            } else {
                Err("The discovered account changed. Run discovery again."@)
            },
        },
{
    match login {
        Err(message) => Err(message),
        Ok(login) => {
            let expected = "github-local-".to_string().concat(login.as_str());
            if !same(candidate_id, expected.as_str()) {
                return Err("The discovered account changed. Run discovery again.".to_string());
            }
            let secret = String::new();
            let account = ProviderAccount {
                id: expected,
                provider: "github".to_string(),
                label: "GitHub Copilot".to_string(),
                scope_type: "local_cli".to_string(),
                scope: login,
                secret,
            };
            assert(account@.secret =~= Seq::empty());
            Ok(account)
        },
    }
}

/// The account to store for what was entered, unless no secret was.
pub fn accept_account(input: AccountInput) -> (outcome: Result<ProviderAccount, String>)
    ensures
        account_or_message(outcome) == if trimmed(input.secret@).len() == 0 {
            Err("A provider token or admin API key is required."@)
        } else {
            Ok(crate::models::entered_account(input))
        },
{
    if trim(input.secret.as_str()).as_str().is_empty() {
        return Err("A provider token or admin API key is required.".to_string());
    }
    Ok(input.into_account())
}

/// What is connected without being entered has no secret: the login of the
/// GitHub CLI and the keys of the environment are used where they are.
pub proof fn law_wired_accounts_have_no_secret(candidates: Seq<CandidateView>, i: int)
    requires
        0 <= i < wired_accounts(candidates).len(),
    ensures
        wired_accounts(candidates)[i].secret.len() == 0,
    decreases candidates.len(),
{
    if candidates.len() > 0 {
        let before: Seq<AccountView> = wired_accounts(candidates.drop_last());
        if i < before.len() {
            law_wired_accounts_have_no_secret(candidates.drop_last(), i);
        }
    }
}

/// Of what is found, the GitHub CLI's login and the keys of the environment can
/// be connected, and the logins of other commands cannot. Nothing is connected yet.
#[verifier::spinoff_prover]
#[verifier::rlimit(40)]
pub proof fn law_consumer_logins_are_left_alone(findings: Findings, product: Seq<char>, i: int)
    requires
        0 <= i < candidates_in(findings, product).len(),
    ensures
        ({
            let candidate = candidates_in(findings, product)[i];
            &&& !candidate.connected
            &&& candidate.can_connect <==> i < connectable_in(findings).len()
            &&& candidate.can_connect <==> (candidate.source == "GitHub CLI"@ || candidate.source
                == "Environment variable"@)
        }),
{
    reveal_strlit("GitHub CLI");
    reveal_strlit("Environment variable");
    reveal_strlit(" Code");
    reveal_strlit("Codex CLI");
    reveal_strlit(" CLI");
    let code: Seq<char> = product + " Code"@ + " CLI"@;
    let codex: Seq<char> = "Codex CLI"@ + " CLI"@;
    assert(code.last() == 'I' && code[code.len() - 5] == 'e');
    assert(codex[0] == 'C');
    assert("GitHub CLI"@[5] == 'b' && "GitHub CLI"@.len() == 10 && "GitHub CLI"@[0] == 'G');
    assert("Environment variable"@.last() == 'e' && "Environment variable"@[0] == 'E');
}

/// No two of the accounts that are found have the same identifier.
#[verifier::spinoff_prover]
#[verifier::rlimit(40)]
pub proof fn law_candidates_are_told_apart(
    findings: Findings,
    product: Seq<char>,
    i: int,
    j: int,
)
    requires
        0 <= i < j < candidates_in(findings, product).len(),
    ensures
        candidates_in(findings, product)[i].id != candidates_in(findings, product)[j].id,
{
    reveal_strlit("github-local-");
    reveal_strlit("anthropic");
    reveal_strlit("openai");
    reveal_strlit("-env");
    reveal_strlit("-local");
    let ids: Seq<Seq<char>> = seq![
        "anthropic"@ + "-env"@,
        "openai"@ + "-env"@,
        "anthropic"@ + "-local"@,
        "openai"@ + "-local"@,
    ];
    assert(ids[0].len() == 13 && ids[0][0] == 'a');
    assert(ids[1].len() == 10 && ids[1][0] == 'o');
    assert(ids[2].len() == 15 && ids[2][0] == 'a');
    assert(ids[3].len() == 12 && ids[3][0] == 'o');
    if let Some(login) = findings.github_login {
        assert(github_local_id(login@)[0] == 'g');
    }
}

/// To connect the GitHub CLI's account by hand stores the very account that is
/// stored where it is connected with the others.
pub proof fn law_connecting_by_hand_is_wiring(findings: Findings, product: Seq<char>)
    requires
        findings.github_login is Some,
    ensures
        wired_accounts(candidates_in(findings, product)).len() > 0,
        wired_accounts(candidates_in(findings, product))[0] == wired_account(
            github_candidate(findings.github_login->0@),
        ),
{
    lemma_first_wired(candidates_in(findings, product));
}

/// A wired account finds its login or key where it was found: its refresh starts
/// with the GitHub CLI, or with the environment variable that it is named after.
pub proof fn law_wired_accounts_use_what_was_found(
    login: Seq<char>,
    product: Seq<char>,
    now: UtcTime,
)
    ensures
        ({
            let account = wired_account(github_candidate(login));
            step_after(EventView::Started { account }, product, now) == (StepView::AskQuota {
                account,
                started: now,
                arguments: quota_arguments(),
            })
        }),
        ({
            let candidate = variable_candidate("ANTHROPIC_API_KEY"@, "anthropic"@, "Anthropic API"@);
            let account = wired_account(candidate);
            step_after(EventView::Started { account }, product, now) == (StepView::ReadVariable {
                account,
                variable: candidate.account,
            })
        }),
        ({
            let candidate = variable_candidate("OPENAI_API_KEY"@, "openai"@, "OpenAI API"@);
            let account = wired_account(candidate);
            step_after(EventView::Started { account }, product, now) == (StepView::ReadVariable {
                account,
                variable: candidate.account,
            })
        }),
{
    reveal_strlit("GitHub CLI");
    reveal_strlit("Environment variable");
    reveal_strlit("local_cli");
    reveal_strlit("local_env");
    reveal_strlit("anthropic");
    reveal_strlit("openai");
    assert("GitHub CLI"@[0] != "Environment variable"@[0]);
    assert("local_cli"@[6] != "local_env"@[6]);
    assert("anthropic"@[0] != "openai"@[0]);
}

proof fn lemma_first_wired(candidates: Seq<CandidateView>)
    requires
        candidates.len() > 0,
        candidates[0].can_connect,
    ensures
        wired_accounts(candidates).len() > 0,
        wired_accounts(candidates)[0] == wired_account(candidates[0]),
    decreases candidates.len(),
{
    if candidates.len() == 1 {
        assert(wired_accounts(candidates.drop_last()) =~= Seq::empty());
    } else {
        lemma_first_wired(candidates.drop_last());
    }
}

/// What is listed for what was found. The GitHub CLI's login, the two keys and the
/// two commands are listed in this order, each if and only if it was found, and
/// the list holds nothing else.
#[verifier::spinoff_prover]
#[verifier::rlimit(40)]
pub proof fn law_what_was_found_is_listed(findings: Findings, product: Seq<char>)
    ensures
        ({
            let list = candidates_in(findings, product);
            let key = (if findings.github_login is Some {
                1int
            } else {
                0
            });
            let other_key = key + (if findings.anthropic_key {
                1int
            } else {
                0
            });
            let command = other_key + (if findings.openai_key {
                1int
            } else {
                0
            });
            let other_command = command + (if findings.anthropic_command {
                1int
            } else {
                0
            });
            let end = other_command + (if findings.openai_command {
                1int
            } else {
                0
            });
            &&& list.len() == end
            &&& findings.github_login is Some ==> list[0] == (CandidateView {
                id: "github-local-"@ + findings.github_login->0@,
                provider: "github"@,
                label: "GitHub Copilot"@,
                account: findings.github_login->0@,
                source: "GitHub CLI"@,
                can_connect: true,
                connected: false,
                message: "Uses the existing GitHub CLI login through `gh api`; the OAuth token is never copied into AI Allowance."@,
            })
            &&& findings.anthropic_key ==> list[key] == (CandidateView {
                id: "anthropic"@ + "-env"@,
                provider: "anthropic"@,
                label: "Anthropic API"@,
                account: "ANTHROPIC_API_KEY"@,
                source: "Environment variable"@,
                can_connect: true,
                connected: false,
                message: "Uses "@ + "ANTHROPIC_API_KEY"@
                    + " directly from the app environment; the key is not copied into SQLite or the credential vault."@,
            })
            &&& findings.openai_key ==> list[other_key] == (CandidateView {
                id: "openai"@ + "-env"@,
                provider: "openai"@,
                label: "OpenAI API"@,
                account: "OPENAI_API_KEY"@,
                source: "Environment variable"@,
                can_connect: true,
                connected: false,
                message: "Uses "@ + "OPENAI_API_KEY"@
                    + " directly from the app environment; the key is not copied into SQLite or the credential vault."@,
            })
            &&& findings.anthropic_command ==> list[command] == (CandidateView {
                id: "anthropic"@ + "-local"@,
                provider: "anthropic"@,
                label: product + " Code"@,
                account: "Local CLI installation"@,
                source: product + " Code"@ + " CLI"@,
                can_connect: false,
                connected: false,
                message: "Installed, but its local consumer login is not imported because no documented third-party allowance API is available."@,
            })
            &&& findings.openai_command ==> list[other_command] == (CandidateView {
                id: "openai"@ + "-local"@,
                provider: "openai"@,
                label: "Codex CLI"@,
                account: "Local CLI installation"@,
                source: "Codex CLI"@ + " CLI"@,
                can_connect: false,
                connected: false,
                message: "Installed, but its local consumer login is not imported because no documented third-party allowance API is available."@,
            })
        }),
{
}

/// One more candidate adds an account to those that are wired if and only if it
/// can be connected: the account bears its identifier, provider, label and name.
/// To be wired changes nothing of a candidate but that it is connected, and only
/// where it can be.
pub proof fn law_every_connectable_candidate_is_wired(
    candidates: Seq<CandidateView>,
    candidate: CandidateView,
)
    ensures
        wired_accounts(Seq::empty()).len() == 0,
        !candidate.can_connect ==> wired_accounts(candidates.push(candidate)) == wired_accounts(
            candidates,
        ),
        candidate.can_connect ==> wired_accounts(candidates.push(candidate)) == wired_accounts(
            candidates,
        ).push(
            AccountView {
                id: candidate.id,
                provider: candidate.provider,
                label: candidate.label,
                scope_type: if candidate.source == "GitHub CLI"@ {
                    "local_cli"@
                } else {
                    "local_env"@
                },
                scope: candidate.account,
                secret: Seq::empty(),
            },
        ),
        wired(candidate).connected == (candidate.connected || candidate.can_connect),
        (CandidateView { connected: candidate.connected, ..wired(candidate) }) == candidate,
{
    assert(candidates.push(candidate).drop_last() =~= candidates);
}

} // verus!
