//! `prio abort`: abandon an in-progress `prio mv` / `prio cp` conflict.
use vstd::prelude::*;
use vstd::string::StringExecFns;
use crate::storage::repo_state::{McState, MvRebaseConflict, RepoState};
use crate::strings::{concat2, concat3, contains_string, join, join_spec, views};

verus! {

/// What `prio abort` finds when no move conflict is recorded.
pub enum NothingRecorded {
    /// prio-mc branches with no local branch in the work clone were deleted.
    Orphans(String),
    /// A cherry-pick was in progress in prio-mc without any prio operation.
    StrayPick(String),
    /// Nothing to do.
    Nothing(String),
}

/// The message when no move conflict is recorded: orphaned prio-mc branches were
/// removed (`orphans`), or a stray cherry-pick aborted, or there was nothing to do.
pub fn run_without_conflict(orphans: &Vec<String>, cherry_pick_active: bool) -> (r: NothingRecorded)
    ensures
        orphans@.len() > 0 ==> (r matches NothingRecorded::Orphans(m) && m@
            == "Removed stale prio-mc branch(es) not present in work clone: "@ + join_spec(views(orphans@), ", "@) + "."@),
        orphans@.len() == 0 && cherry_pick_active ==> (r matches NothingRecorded::StrayPick(m) && m@
            == "Aborted stray cherry-pick in prio-mc (no recorded prio operation in progress)."@),
        orphans@.len() == 0 && !cherry_pick_active ==> (r matches NothingRecorded::Nothing(m) && m@ == "Nothing to abort."@),
{
    if orphans.len() > 0 {
        let j = join(orphans, ", ");
        return NothingRecorded::Orphans(
            concat3("Removed stale prio-mc branch(es) not present in work clone: ", j.as_str(), "."),
        );
    }
    if cherry_pick_active {
        return NothingRecorded::StrayPick(
            String::from_str("Aborted stray cherry-pick in prio-mc (no recorded prio operation in progress)."),
        );
    }
    NothingRecorded::Nothing(String::from_str("Nothing to abort."))
}

/// Takes the recorded move conflict out of the state (none is left recorded).
pub fn take_conflict(state: &mut RepoState) -> (r: Option<MvRebaseConflict>)
    ensures
        r == old(state).mv_rebase_conflict,
        final(state).mv_rebase_conflict is None,
        final(state).applied_branches == old(state).applied_branches,
        final(state).commit_map == old(state).commit_map,
        final(state).commit_assignments == old(state).commit_assignments,
        final(state).baseline_commit == old(state).baseline_commit,
        final(state).stacks == old(state).stacks,
{
    let mut c: Option<MvRebaseConflict> = None;
    std::mem::swap(&mut c, &mut state.mv_rebase_conflict);
    c
}

/// Whether the destination branch of the aborted move is deleted from the work clone
/// too: when it is not applied (it was likely created by `-c`).
pub fn remove_dest_from_work(state: &RepoState, dest_branch: &str) -> (r: bool)
    ensures
        r == !views(state.applied_branches@).contains(dest_branch@),
{
    !contains_string(&state.applied_branches, dest_branch)
}

/// The prio-mc state once a move is aborted: no move in progress, its bookkeeping
/// cleared (an unassign's records are kept). Unchanged when no move was in progress.
pub fn clear_mv_progress(mc: &mut McState)
    ensures
        !old(mc).mv_rebase_in_progress ==> *final(mc) == *old(mc),
        old(mc).mv_rebase_in_progress ==> {
            &&& !final(mc).mv_rebase_in_progress
            &&& final(mc).mv_rebase_phase@.len() == 0
            &&& final(mc).mv_rebase_source_branch@.len() == 0
            &&& final(mc).mv_rebase_dest_branch@.len() == 0
            &&& final(mc).mv_rebase_remaining_dest@.len() == 0
            &&& final(mc).mv_rebase_source_shas_to_exclude@.len() == 0
            &&& final(mc).mv_rebase_remaining_commits@.len() == 0
            &&& final(mc).merge_in_progress == old(mc).merge_in_progress
            &&& final(mc).pending_merge_branches == old(mc).pending_merge_branches
            &&& final(mc).pending_merge_index == old(mc).pending_merge_index
            &&& final(mc).default_branch == old(mc).default_branch
            &&& final(mc).mv_rebase_force == old(mc).mv_rebase_force
        },
{
    if mc.mv_rebase_in_progress {
        mc.mv_rebase_in_progress = false;
        mc.mv_rebase_phase = String::new();
        mc.mv_rebase_source_branch = String::new();
        mc.mv_rebase_dest_branch = String::new();
        mc.mv_rebase_remaining_dest = Vec::new();
        mc.mv_rebase_source_shas_to_exclude = Vec::new();
        mc.mv_rebase_remaining_commits = Vec::new();
    }
}

/// The message of an abort: the destination was cleaned up in prio-mc, and removed
/// from the work clone when it had a name and was not applied.
pub fn aborted_message(dest_branch: &str, removed_from_work: bool) -> (r: String)
    ensures
        r@ == "Aborted prio mv conflict. Destination branch '"@ + dest_branch@ + "' cleaned up in prio-mc"@
            + (if dest_branch@.len() > 0 && removed_from_work {
            " and removed from WORK"@
        } else {
            Seq::<char>::empty()
        }) + "."@,
{
    let mut m = concat3("Aborted prio mv conflict. Destination branch '", dest_branch, "' cleaned up in prio-mc");
    if dest_branch.unicode_len() > 0 && removed_from_work {
        m.append(" and removed from WORK");
    }
    m.append(".");
    m
}

} // verus!
