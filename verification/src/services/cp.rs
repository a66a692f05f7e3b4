//! Copy commits to a branch non-destructively.
//!
//! `prio cp <sha>... <destination> [-c] [-a]` cherry-picks the commits onto the
//! destination branch in prio-mc. The source branch is never modified, which is
//! the difference from `prio mv`.
use vstd::prelude::*;
use vstd::string::StringExecFns;
use crate::error::PrioError;
use crate::services::common::{value_views, CherryPickOnMc};
use crate::storage::repo_state::{MvRebaseConflict, RepoState};
use crate::strings::{concat3, decimal, decimal_string, owned};

verus! {

/// A copy needs at least one commit.
pub fn check_commits(count: usize) -> (r: Result<(), PrioError>)
    ensures
        count == 0 ==> (r matches Err(PrioError::Message(m)) && m@ == "No commits specified."@),
        count > 0 ==> r is Ok,
{
    if count == 0 {
        return Err(PrioError::Message(String::from_str("No commits specified.")));
    }
    Ok(())
}

/// Records a copied commit: the picked commit maps to its cherry-pick, which is
/// assigned to the destination. The picked commit keeps its own assignment.
pub fn record_copy_pick(state: &mut RepoState, sha: &str, new_sha: &str, dest: &str)
    ensures
        value_views(final(state).commit_map@) == value_views(old(state).commit_map@).insert(sha@, new_sha@),
        value_views(final(state).commit_assignments@) == value_views(old(state).commit_assignments@).insert(
            new_sha@,
            dest@,
        ),
        final(state).applied_branches == old(state).applied_branches,
        final(state).baseline_commit == old(state).baseline_commit,
        final(state).mv_rebase_conflict == old(state).mv_rebase_conflict,
{
    let ghost m0 = state.commit_map@;
    let ghost a0 = state.commit_assignments@;
    state.commit_map.insert(owned(sha), owned(new_sha));
    state.commit_assignments.insert(owned(new_sha), owned(dest));
    proof {
        assert(value_views(state.commit_map@) =~= value_views(m0).insert(sha@, new_sha@));
        assert(value_views(state.commit_assignments@) =~= value_views(a0).insert(new_sha@, dest@));
    }
}

/// The conflict record left by a copy that stopped on `sha`.
pub fn cp_conflict_record(dest: &str, sha: &str, mc_path: &str) -> (r: MvRebaseConflict)
    ensures
        r.source_branch@.len() == 0,
        r.dest_branch@ == dest@,
        r.conflicting_commit@ == sha@,
        !r.source_is_pushed,
        r.mc_path@ == mc_path@,
        r.phase@ == "cp"@,
{
    MvRebaseConflict {
        source_branch: String::new(),
        dest_branch: owned(dest),
        conflicting_commit: owned(sha),
        source_is_pushed: false,
        mc_path: owned(mc_path),
        phase: String::from_str("cp"),
    }
}

pub open spec fn copy_conflict_text(sha: Seq<char>, dest: Seq<char>) -> Seq<char> {
    "Cherry-pick conflict for "@ + sha + " onto '"@ + dest
        + "' in prio-mc.\nRun `prio status` for resolution instructions."@
}

pub open spec fn copy_refused_text(sha: Seq<char>, dest: Seq<char>, mc_path: Seq<char>) -> Seq<char> {
    "Cherry-pick of "@ + sha + " onto '"@ + dest + "' failed in prio-mc at "@ + mc_path
        + ". The cherry-pick was refused (not a conflict). Run `prio abort` to clean up stale prio-mc branches."@
}

/// What the copy does after one cherry-pick in prio-mc.
pub enum CopyStep {
    /// The commit was copied and recorded; go on with the next.
    Recorded,
    /// A conflict was recorded; stop with this warning.
    Conflict { message: String },
    /// The cherry-pick was refused; stop with this failure.
    Refused { message: String },
}

/// Applies the outcome of cherry-picking `sha` onto `dest` in prio-mc to the
/// state: a picked (or skipped empty) commit is recorded under `new_sha`, the
/// commit at prio-mc's `HEAD` afterwards; a conflict is recorded for `prio status`
/// and the hook; a refusal changes nothing.
pub fn copy_pick_outcome(
    state: &mut RepoState,
    outcome: CherryPickOnMc,
    sha: &str,
    new_sha: &str,
    dest: &str,
    mc_path: &str,
) -> (r: CopyStep)
    ensures
        (outcome is Applied || outcome is SkippedEmpty) ==> r is Recorded
            && value_views(final(state).commit_map@) == value_views(old(state).commit_map@).insert(sha@, new_sha@)
            && value_views(final(state).commit_assignments@) == value_views(old(state).commit_assignments@).insert(new_sha@, dest@)
            && final(state).mv_rebase_conflict == old(state).mv_rebase_conflict,
        outcome is Conflict ==> (r matches CopyStep::Conflict { message } && message@ == copy_conflict_text(sha@, dest@))
            && final(state).commit_map == old(state).commit_map
            && final(state).commit_assignments == old(state).commit_assignments
            && (final(state).mv_rebase_conflict matches Some(c) && c.source_branch@.len() == 0
                && c.dest_branch@ == dest@ && c.conflicting_commit@ == sha@ && !c.source_is_pushed
                && c.mc_path@ == mc_path@ && c.phase@ == "cp"@),
        outcome is Failed ==> (r matches CopyStep::Refused { message } && message@ == copy_refused_text(sha@, dest@, mc_path@))
            && *final(state) == *old(state),
        final(state).applied_branches == old(state).applied_branches,
        final(state).baseline_commit == old(state).baseline_commit,
{
    match outcome {
        CherryPickOnMc::Applied | CherryPickOnMc::SkippedEmpty => {
            record_copy_pick(state, sha, new_sha, dest);
            CopyStep::Recorded
        },
        CherryPickOnMc::Conflict => {
            state.mv_rebase_conflict = Some(cp_conflict_record(dest, sha, mc_path));
            let a = concat3("Cherry-pick conflict for ", sha, " onto '");
            let b = concat3(a.as_str(), dest, "' in prio-mc.\nRun `prio status` for resolution instructions.");
            proof {
                assert(b@ =~= copy_conflict_text(sha@, dest@));
            }
            CopyStep::Conflict { message: b }
        },
        CherryPickOnMc::Failed => {
            let a = concat3("Cherry-pick of ", sha, " onto '");
            let b = concat3(a.as_str(), dest, "' failed in prio-mc at ");
            let c = concat3(
                b.as_str(),
                mc_path,
                ". The cherry-pick was refused (not a conflict). Run `prio abort` to clean up stale prio-mc branches.",
            );
            proof {
                assert(c@ =~= copy_refused_text(sha@, dest@, mc_path@));
            }
            CopyStep::Refused { message: c }
        },
    }
}

/// The message of a finished copy.
pub fn copied_message(count: u64, dest: &str) -> (r: String)
    ensures
        r@ == "Copied "@ + decimal(count as nat) + " commit(s) to "@ + dest@
            + ". Source branch(es) are unchanged."@,
{
    let n = decimal_string(count);
    let a = concat3("Copied ", n.as_str(), " commit(s) to ");
    let r = concat3(a.as_str(), dest, ". Source branch(es) are unchanged.");
    proof {
        assert(r@ =~= "Copied "@ + decimal(count as nat) + " commit(s) to "@ + dest@
            + ". Source branch(es) are unchanged."@);
    }
    r
}

/// After the copy the applied branches are merged again, unless the destination
/// tip is already in the work branch or nothing is applied.
pub fn remerge_after_copy(dest_already_in_work: bool, applied: &Vec<String>) -> (r: bool)
    ensures
        r == (!dest_already_in_work && applied@.len() > 0),
{
    !dest_already_in_work && applied.len() > 0
}

} // verus!
