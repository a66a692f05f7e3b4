//! `prio setup`: the decisions of setting a repository up for prio.
use vstd::prelude::*;
use vstd::string::{StrSliceExecFns, StringExecFns};
use crate::logger::{LogEntry, LogLevel};
use crate::result::PrioStatus;
use crate::storage::repo_state::{RepoState, StackEntry};
use crate::storage::str_map::StrMap;
use crate::storage::user_config::RepoRecord;
use crate::strings::{concat2, has_prefix, has_substring, contains_str, owned, str_eq, strip_prefix, trim, trim_spec, views};

verus! {

pub struct WorkBranchSuggestion {
    pub default_name: String,
    pub explanation: String,
}

/// What the UI shows when suggesting a work branch name.
pub open spec fn explanation_text() -> Seq<char> {
    "Your work branch is where prio dynamically applies and unapplies stacked changes. Use a unique name (e.g. prio/yourname) so an accidental git push won't overwrite anyone else's prio work."@
}

pub fn suggest_work_branch(default_name: String) -> (r: WorkBranchSuggestion)
    ensures
        r.default_name == default_name,
        r.explanation@ == explanation_text(),
{
    WorkBranchSuggestion {
        default_name,
        explanation: String::from_str(
            "Your work branch is where prio dynamically applies and unapplies stacked changes. Use a unique name (e.g. prio/yourname) so an accidental git push won't overwrite anyone else's prio work.",
        ),
    }
}

/// The work branch setup suggests: the one given, else the user's configured one,
/// else `prio/user` without an e-mail address, else `prio/` and the login found by
/// GitHub's user search (`prio/user` when none).
pub fn get_work_branch_default(
    override_name: Option<String>,
    prefix: Option<String>,
    email: &str,
    login: Option<String>,
) -> (r: String)
    ensures
        override_name matches Some(n) ==> r == n,
        override_name is None && prefix is Some ==> r == prefix.unwrap(),
        override_name is None && prefix is None ==> r@ == if trim_spec(email@).len() == 0 {
            "prio/user"@
        } else {
            match login {
                Some(l) => "prio/"@ + l@,
                None => "prio/user"@,
            }
        },
{
    if let Some(name) = override_name {
        return name;
    }
    if let Some(p) = prefix {
        return p;
    }
    let e = trim(email);
    if e.as_str().unicode_len() == 0 {
        return String::from_str("prio/user");
    }
    match login {
        Some(l) => concat2("prio/", l.as_str()),
        None => String::from_str("prio/user"),
    }
}

/// The work branch chosen at the prompt: the trimmed answer, or the default when empty.
pub fn prompt_work_branch(input: &str, default_name: &str) -> (r: String)
    ensures
        trim_spec(input@).len() == 0 ==> r@ == default_name@,
        trim_spec(input@).len() > 0 ==> r@ == trim_spec(input@),
{
    let t = trim(input);
    if t.as_str().unicode_len() == 0 {
        owned(default_name)
    } else {
        t
    }
}

/// Whether a repository's origin is on GitHub (prio warns otherwise).
pub fn is_github_origin(origin_normalized: &str) -> (r: bool)
    ensures
        r == has_substring(origin_normalized@, "github.com"@),
{
    contains_str(origin_normalized, "github.com")
}

/// The default branch: what `git symbolic-ref refs/remotes/origin/HEAD` names under
/// `refs/remotes/origin/`, else the one already configured, else `main`.
pub fn detect_default_branch(symbolic_ref: Option<String>, configured: Option<String>) -> (r: String)
    ensures
        ({
            let from_ref = match symbolic_ref {
                Some(s) => has_prefix(trim_spec(s@), "refs/remotes/origin/"@),
                None => false,
            };
            &&& from_ref ==> r@ == trim_spec(symbolic_ref.unwrap()@).skip(20)
            &&& !from_ref && configured is Some ==> r == configured.unwrap()
            &&& !from_ref && configured is None ==> r@ == "main"@
        }),
{
    proof {
        reveal_strlit("refs/remotes/origin/");
    }
    if let Some(sym) = symbolic_ref {
        let t = trim(sym.as_str());
        if let Some(b) = strip_prefix(t.as_str(), "refs/remotes/origin/") {
            assert(t@.subrange(20, t@.len() as int) =~= t@.skip(20));
            return b;
        }
    }
    match configured {
        Some(c) => c,
        None => String::from_str("main"),
    }
}

/// The branch checked out at setup is recorded as applied, unless it is the work
/// branch or the default branch.
pub fn initial_applied(branch_at_setup: &str, work_branch: &str, default_branch: &str) -> (r: Vec<String>)
    ensures
        branch_at_setup@ != work_branch@ && branch_at_setup@ != default_branch@ ==> views(r@) == seq![branch_at_setup@],
        !(branch_at_setup@ != work_branch@ && branch_at_setup@ != default_branch@) ==> r@.len() == 0,
{
    let mut v: Vec<String> = Vec::new();
    if !str_eq(branch_at_setup, work_branch) && !str_eq(branch_at_setup, default_branch) {
        crate::strings::push_string(&mut v, owned(branch_at_setup));
        assert(views(v@) =~= seq![branch_at_setup@]);
    }
    v
}

/// The state of a freshly set-up repository.
pub fn setup_state(work_branch: String, default_branch: String, baseline: String, applied: Vec<String>) -> (r: RepoState)
    ensures
        r.work_branch == work_branch,
        r.default_branch == default_branch,
        r.baseline_commit == baseline,
        r.applied_branches == applied,
        r.commit_map@.dom().len() == 0,
        r.commit_assignments@.dom().len() == 0,
        r.stacks@.len() == 0,
        !r.merge_in_progress,
        r.pending_merge_branches@.len() == 0,
        r.pending_merge_index == 0,
        r.mv_rebase_conflict is None,
{
    let m: StrMap<String> = StrMap::new();
    let a: StrMap<String> = StrMap::new();
    proof {
        assert(m@.dom() =~= Set::<Seq<char>>::empty());
        assert(a@.dom() =~= Set::<Seq<char>>::empty());
    }
    RepoState {
        work_branch,
        default_branch,
        baseline_commit: baseline,
        applied_branches: applied,
        commit_map: m,
        commit_assignments: a,
        stacks: Vec::new(),
        merge_in_progress: false,
        pending_merge_branches: Vec::new(),
        pending_merge_index: 0,
        mv_rebase_conflict: None,
    }
}

/// The registration of a set-up repository: a repository already registered with the
/// same origin keeps its id and the time it was added; otherwise `new_id` and `now`.
pub fn setup_record(existing: &Option<RepoRecord>, new_id: String, path: String, origin: String, mc_path: String, now: u64) -> (r: RepoRecord)
    ensures
        r.path == path,
        r.origin_normalized == origin,
        r.mc_clone_path == mc_path,
        match existing {
            Some(e) => r.id@ == e.id@ && r.added_at == e.added_at,
            None => r.id == new_id && r.added_at == now,
        },
{
    match existing {
        Some(e) => RepoRecord { id: e.id.clone(), path, origin_normalized: origin, mc_clone_path: mc_path, added_at: e.added_at },
        None => RepoRecord { id: new_id, path, origin_normalized: origin, mc_clone_path: mc_path, added_at: now },
    }
}

/// The status of a setup: a warning when anything logged a warning.
pub fn setup_status(logs: &Vec<LogEntry>) -> (r: PrioStatus)
    ensures
        r == (if exists|i: int| 0 <= i < logs@.len() && (#[trigger] logs@[i]).level == LogLevel::Warning {
            PrioStatus::Warning
        } else {
            PrioStatus::Success
        }),
{
    let mut i: usize = 0;
    while i < logs.len()
        invariant
            i <= logs.len(),
            forall|j: int| 0 <= j < i ==> (#[trigger] logs@[j]).level != LogLevel::Warning,
        decreases logs.len() - i,
    {
        if logs[i].level == LogLevel::Warning {
            return PrioStatus::Warning;
        }
        i = i + 1;
    }
    PrioStatus::Success
}

/// The GitHub user search that setup asks for a login, with the e-mail address
/// appended as it is.
pub fn user_search_url(email: &str) -> (r: String)
    ensures
        r@ == "https://api.github.com/search/users?q="@ + email@,
{
    concat2("https://api.github.com/search/users?q=", email)
}

} // verus!
