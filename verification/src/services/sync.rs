//! `prio sync`: advance the baseline to the default branch at origin and drop the
//! applied branches that have been merged there.
use vstd::prelude::*;
use vstd::string::StringExecFns;
use crate::json::{array_len, json_array_len};
use crate::result::PrioStatus;
use crate::storage::repo_state::RepoState;
use crate::strings::{concat3, join, join_spec, owned, push_string, str_eq, trim, trim_spec, views};

verus! {

/// Whether gh lists a merged pull request for the branch, from its answer to
/// `gh pr list --head <branch> --state merged --json number --limit 1`: a non-empty
/// array. Text that is not a JSON array counts as none.
pub fn merged_by_pr(json: &str) -> (r: bool)
    ensures
        r == (json_array_len(json@) matches Some(n) && n > 0),
{
    match array_len(json) {
        Some(n) => n > 0,
        None => false,
    }
}

/// Whether a branch has been merged into the default branch at origin, by the checks
/// in order: its local tip is an ancestor (only when it has commits of its own, else
/// it is a mere marker of the baseline); its tip at origin is an ancestor; gh reports
/// its pull request merged (squash and rebase merges rewrite the commits).
pub fn branch_fully_merged(has_own_commits: bool, local_is_ancestor: bool, remote_is_ancestor: bool, merged_pr: bool) -> (r: bool)
    ensures
        r == ((has_own_commits && local_is_ancestor) || remote_is_ancestor || merged_pr),
{
    if has_own_commits && local_is_ancestor {
        return true;
    }
    if remote_is_ancestor {
        return true;
    }
    merged_pr
}

/// The applied branches that were not merged (`merged[i]` tells of the i-th).
pub open spec fn unmerged(applied: Seq<Seq<char>>, merged: Seq<bool>) -> Seq<Seq<char>>
    decreases applied.len(),
{
    if applied.len() == 0 || merged.len() == 0 {
        Seq::empty()
    } else {
        let p = unmerged(applied.drop_last(), merged.drop_last());
        if merged.last() {
            p
        } else {
            p.push(applied.last())
        }
    }
}

/// The applied branches that were merged.
pub open spec fn merged_ones(applied: Seq<Seq<char>>, merged: Seq<bool>) -> Seq<Seq<char>>
    decreases applied.len(),
{
    if applied.len() == 0 || merged.len() == 0 {
        Seq::empty()
    } else {
        let p = merged_ones(applied.drop_last(), merged.drop_last());
        if merged.last() {
            p.push(applied.last())
        } else {
            p
        }
    }
}

/// The outcome of a sync: its message, and whether the work area must be rebuilt.
pub struct SyncOutcome {
    pub message: String,
    pub reapply: bool,
    pub removed: Vec<String>,
}

/// Records a sync in the state: the baseline moves to `origin_default` when it
/// resolved, and the merged branches leave the applied list (their local branch is
/// deleted by the caller). The work area is rebuilt when the baseline moved or a
/// branch left.
pub fn run(state: &mut RepoState, origin_default: Option<String>, merged: &Vec<bool>) -> (r: SyncOutcome)
    requires
        merged.len() == old(state).applied_branches.len(),
    ensures
        match origin_default {
            Some(sha) => final(state).baseline_commit@ == trim_spec(sha@),
            None => final(state).baseline_commit == old(state).baseline_commit,
        },
        views(final(state).applied_branches@) == unmerged(views(old(state).applied_branches@), merged@),
        views(r.removed@) == merged_ones(views(old(state).applied_branches@), merged@),
        r.reapply == (final(state).baseline_commit@ != old(state).baseline_commit@ || r.removed@.len() > 0),
        r.removed@.len() == 0 ==> r.message@ == "Sync complete."@,
        r.removed@.len() > 0 ==> r.message@ == "Sync complete. Removed from applied (merged into "@
            + old(state).default_branch@ + "): "@ + join_spec(views(r.removed@), ", "@),
        final(state).default_branch == old(state).default_branch,
        final(state).commit_map == old(state).commit_map,
        final(state).commit_assignments == old(state).commit_assignments,
        final(state).stacks == old(state).stacks,
{
    let old_baseline = state.baseline_commit.clone();
    match origin_default {
        Some(sha) => {
            state.baseline_commit = trim(sha.as_str());
        },
        None => {},
    }
    let mut kept: Vec<String> = Vec::new();
    let mut removed: Vec<String> = Vec::new();
    let mut i: usize = 0;
    while i < state.applied_branches.len()
        invariant
            i <= state.applied_branches.len(),
            merged.len() == state.applied_branches.len(),
            state.applied_branches == old(state).applied_branches,
            views(kept@) == unmerged(views(state.applied_branches@).take(i as int), merged@.take(i as int)),
            views(removed@) == merged_ones(views(state.applied_branches@).take(i as int), merged@.take(i as int)),
        decreases state.applied_branches.len() - i,
    {
        proof {
            assert(views(state.applied_branches@).take(i + 1).drop_last() =~= views(state.applied_branches@).take(i as int));
            assert(merged@.take(i + 1).drop_last() =~= merged@.take(i as int));
        }
        if merged[i] {
            push_string(&mut removed, state.applied_branches[i].clone());
        } else {
            push_string(&mut kept, state.applied_branches[i].clone());
        }
        i = i + 1;
    }
    proof {
        assert(views(state.applied_branches@).take(state.applied_branches@.len() as int) =~= views(state.applied_branches@));
        assert(merged@.take(merged@.len() as int) =~= merged@);
    }
    state.applied_branches = kept;
    let reapply = !str_eq(state.baseline_commit.as_str(), old_baseline.as_str()) || removed.len() > 0;
    let message = if removed.len() == 0 {
        String::from_str("Sync complete.")
    } else {
        let j = join(&removed, ", ");
        let mut m = concat3("Sync complete. Removed from applied (merged into ", state.default_branch.as_str(), "): ");
        m.append(j.as_str());
        m
    };
    SyncOutcome { message, reapply, removed }
}

/// The result of syncing every known repository: a warning when there is none, else
/// the message of each sync (or its error), one per line.
pub fn run_syncs(repo_count: usize, messages: &Vec<String>) -> (r: (PrioStatus, String))
    ensures
        repo_count == 0 ==> r.0 == PrioStatus::Warning && r.1@ == "No repositories configured. Run prio setup first."@,
        repo_count > 0 ==> r.0 == PrioStatus::Success && r.1@ == join_spec(views(messages@), "\n"@),
{
    if repo_count == 0 {
        return (PrioStatus::Warning, String::from_str("No repositories configured. Run prio setup first."));
    }
    (PrioStatus::Success, join(messages, "\n"))
}

} // verus!
