//! `prio recover`: roll the work branch back to the last known good state.
use vstd::prelude::*;
use vstd::string::StringExecFns;
use crate::error::PrioError;
use crate::result::PrioStatus;
use crate::storage::repo_state::{LastGoodState, McState, RepoState};
use crate::strings::{concat2, concat3, decimal, decimal_string, str_eq, trim_spec, trimmed_is_empty};

verus! {

/// What `prio recover` does before touching anything.
pub enum RecoverPlan {
    /// The work branch is already at the last good commit.
    AlreadyGood(String),
    /// Roll back; keep a backup of the commits made since (when `backup`).
    Rollback { backup: bool },
}

/// Decides `prio recover`: the work tree must be clean and a last good state
/// recorded; nothing is done when HEAD is already its commit; otherwise roll back,
/// backing up first when `git log <last-good baseline>..HEAD` lists commits.
pub fn run(worktree_clean: bool, last_good: &Option<LastGoodState>, head: &str, new_commits: &str) -> (r: Result<RecoverPlan, PrioError>)
    ensures
        !worktree_clean ==> (r matches Err(PrioError::DirtyWorktree)),
        worktree_clean && last_good is None ==> (r matches Err(PrioError::Message(m)) && m@ == "No last known good state recorded."@),
        worktree_clean && last_good is Some ==> {
            let lg = last_good.unwrap();
            if head@ == lg.commit_sha@ {
                r matches Ok(RecoverPlan::AlreadyGood(m)) && m@ == "Work branch already matches last known good state."@
            } else {
                r matches Ok(RecoverPlan::Rollback { backup }) && backup == (trim_spec(new_commits@).len() > 0)
            }
        },
{
    if !worktree_clean {
        return Err(PrioError::DirtyWorktree);
    }
    match last_good {
        None => Err(PrioError::Message(String::from_str("No last known good state recorded."))),
        Some(lg) => {
            if str_eq(head, lg.commit_sha.as_str()) {
                Ok(RecoverPlan::AlreadyGood(String::from_str("Work branch already matches last known good state.")))
            } else {
                Ok(RecoverPlan::Rollback { backup: !trimmed_is_empty(new_commits) })
            }
        },
    }
}

/// The prio-mc state after a recover: a move that was in progress is abandoned.
pub fn abandon_mv(mc: &mut McState)
    ensures
        !old(mc).mv_rebase_in_progress ==> *final(mc) == *old(mc),
        old(mc).mv_rebase_in_progress ==> !final(mc).mv_rebase_in_progress
            && final(mc).mv_rebase_source_branch@.len() == 0
            && final(mc).mv_rebase_remaining_commits@.len() == 0
            && final(mc).mv_rebase_phase == old(mc).mv_rebase_phase
            && final(mc).merge_in_progress == old(mc).merge_in_progress
            && final(mc).pending_merge_branches == old(mc).pending_merge_branches,
{
    if mc.mv_rebase_in_progress {
        mc.mv_rebase_in_progress = false;
        mc.mv_rebase_source_branch = String::new();
        mc.mv_rebase_remaining_commits = Vec::new();
    }
}

/// The outcome of a recover: a warning naming the backup when one was made.
pub fn recovered_result(backup_ts: Option<u64>) -> (r: (PrioStatus, String))
    ensures
        match backup_ts {
            Some(ts) => r.0 == PrioStatus::Warning && r.1@ == "Recovered. Backup created at .git/prio/backup/"@
                + decimal(ts as nat) + " before recover."@,
            None => r.0 == PrioStatus::Success && r.1@ == "Recovered to last known good state."@,
        },
{
    match backup_ts {
        Some(ts) => {
            let d = decimal_string(ts);
            (PrioStatus::Warning, concat3("Recovered. Backup created at .git/prio/backup/", d.as_str(), " before recover."))
        },
        None => (PrioStatus::Success, String::from_str("Recovered to last known good state.")),
    }
}

/// Whether the work branch's HEAD is at the baseline recorded in the state.
pub fn state_matches(state: &RepoState, head: &str) -> (r: bool)
    ensures
        r == (head@ == state.baseline_commit@),
{
    str_eq(head, state.baseline_commit.as_str())
}

} // verus!
