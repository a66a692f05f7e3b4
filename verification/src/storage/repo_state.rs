//! The per-repository configuration and state, and the state of the prio-mc clone.
use vstd::prelude::*;
use vstd::string::StringExecFns;
use crate::storage::str_map::StrMap;
use crate::storage::{prio_dir, prio_dir_spec};
use crate::util::{join_path, path_join};

verus! {

pub struct RepoConfig {
    pub work_branch: String,
    pub default_branch: String,
}

/// The default branch assumed when the configuration names none.
pub fn default_main() -> (r: String)
    ensures
        r@ == "main"@,
{
    String::from_str("main")
}

/// `branch` is stacked after `dependencies`.
pub struct StackEntry {
    pub branch: String,
    pub dependencies: Vec<String>,
}

/// Recorded when a `prio mv` or `prio cp` left a cherry-pick conflict in prio-mc.
pub struct MvRebaseConflict {
    pub source_branch: String,
    pub dest_branch: String,
    pub conflicting_commit: String,
    pub source_is_pushed: bool,
    pub mc_path: String,
    /// `dest`, `source`, `cp`, `unassign-source` or `unassign-pick`.
    pub phase: String,
}

impl MvRebaseConflict {
    pub fn copy(&self) -> (r: Self)
        ensures
            r == *self,
    {
        MvRebaseConflict {
            source_branch: self.source_branch.clone(),
            dest_branch: self.dest_branch.clone(),
            conflicting_commit: self.conflicting_commit.clone(),
            source_is_pushed: self.source_is_pushed,
            mc_path: self.mc_path.clone(),
            phase: self.phase.clone(),
        }
    }
}

pub struct RepoState {
    pub work_branch: String,
    pub default_branch: String,
    pub baseline_commit: String,
    pub applied_branches: Vec<String>,
    /// Original commit → its cherry-pick made by prio.
    pub commit_map: StrMap<String>,
    /// Work-branch commit → branch name, or `.` when unassigned.
    pub commit_assignments: StrMap<String>,
    pub stacks: Vec<StackEntry>,
    pub merge_in_progress: bool,
    pub pending_merge_branches: Vec<String>,
    pub pending_merge_index: usize,
    pub mv_rebase_conflict: Option<MvRebaseConflict>,
}

pub struct LastGoodState {
    pub commit_sha: String,
    pub state: RepoState,
}

pub struct ConflictHistoryEntry {
    pub branch_a: String,
    pub branch_b: String,
    pub resolution_commit: String,
    pub depth: usize,
    pub resolved_at: u64,
    pub stale: bool,
}

/// Conflict scores of merge orders already tried, keyed by the branch list.
pub struct ApplyCache {
    pub entries: StrMap<usize>,
}

/// The state of the prio-mc clone across post-commit continuations.
pub struct McState {
    pub merge_in_progress: bool,
    pub pending_merge_branches: Vec<String>,
    pub pending_merge_index: usize,
    pub default_branch: String,
    pub merge_branch: String,
    pub mv_rebase_in_progress: bool,
    pub mv_rebase_phase: String,
    pub mv_rebase_source_branch: String,
    pub mv_rebase_dest_branch: String,
    pub mv_rebase_remaining_dest: Vec<String>,
    pub mv_rebase_source_shas_to_exclude: Vec<String>,
    pub mv_rebase_remaining_commits: Vec<String>,
    pub mv_rebase_source_is_pushed: bool,
    pub mv_rebase_force: bool,
    /// `branch:is_pushed` entries to force-push once an apply conflict is resolved.
    pub mv_pending_force_push_sources: Vec<String>,
    pub mv_rebase_unassign_commits: Vec<String>,
    pub mv_rebase_unassign_baseline: String,
    pub mv_rebase_unassign_all_sources: Vec<String>,
    pub mv_rebase_unassign_source_branches: Vec<String>,
}

/// The mc state with nothing in progress and nothing recorded.
pub open spec fn is_blank_mc_state(m: McState) -> bool {
    &&& !m.merge_in_progress
    &&& m.pending_merge_branches@.len() == 0
    &&& m.pending_merge_index == 0
    &&& m.default_branch@.len() == 0
    &&& m.merge_branch@.len() == 0
    &&& !m.mv_rebase_in_progress
    &&& m.mv_rebase_phase@.len() == 0
    &&& m.mv_rebase_source_branch@.len() == 0
    &&& m.mv_rebase_dest_branch@.len() == 0
    &&& m.mv_rebase_remaining_dest@.len() == 0
    &&& m.mv_rebase_source_shas_to_exclude@.len() == 0
    &&& m.mv_rebase_remaining_commits@.len() == 0
    &&& !m.mv_rebase_source_is_pushed
    &&& !m.mv_rebase_force
    &&& m.mv_pending_force_push_sources@.len() == 0
    &&& m.mv_rebase_unassign_commits@.len() == 0
    &&& m.mv_rebase_unassign_baseline@.len() == 0
    &&& m.mv_rebase_unassign_all_sources@.len() == 0
    &&& m.mv_rebase_unassign_source_branches@.len() == 0
}

impl McState {
    /// The default mc state: nothing in progress.
    pub fn blank() -> (r: McState)
        ensures
            is_blank_mc_state(r),
    {
        McState {
            merge_in_progress: false,
            pending_merge_branches: Vec::new(),
            pending_merge_index: 0,
            default_branch: String::new(),
            merge_branch: String::new(),
            mv_rebase_in_progress: false,
            mv_rebase_phase: String::new(),
            mv_rebase_source_branch: String::new(),
            mv_rebase_dest_branch: String::new(),
            mv_rebase_remaining_dest: Vec::new(),
            mv_rebase_source_shas_to_exclude: Vec::new(),
            mv_rebase_remaining_commits: Vec::new(),
            mv_rebase_source_is_pushed: false,
            mv_rebase_force: false,
            mv_pending_force_push_sources: Vec::new(),
            mv_rebase_unassign_commits: Vec::new(),
            mv_rebase_unassign_baseline: String::new(),
            mv_rebase_unassign_all_sources: Vec::new(),
            mv_rebase_unassign_source_branches: Vec::new(),
        }
    }
}

pub fn config_path(repo_path: &str) -> (r: String)
    ensures
        r@ == path_join(prio_dir_spec(repo_path@), "config.json"@),
{
    let d = prio_dir(repo_path);
    join_path(d.as_str(), "config.json")
}

pub fn state_path(repo_path: &str) -> (r: String)
    ensures
        r@ == path_join(prio_dir_spec(repo_path@), "state.json"@),
{
    let d = prio_dir(repo_path);
    join_path(d.as_str(), "state.json")
}

pub fn last_good_path(repo_path: &str) -> (r: String)
    ensures
        r@ == path_join(prio_dir_spec(repo_path@), "last_good_state.json"@),
{
    let d = prio_dir(repo_path);
    join_path(d.as_str(), "last_good_state.json")
}

/// The prio directory of the prio-mc clone.
pub fn mc_prio_dir(mc_path: &str) -> (r: String)
    ensures
        r@ == prio_dir_spec(mc_path@),
{
    prio_dir(mc_path)
}

pub fn mc_conflict_path(mc_path: &str) -> (r: String)
    ensures
        r@ == path_join(prio_dir_spec(mc_path@), "conflict_history.json"@),
{
    let d = mc_prio_dir(mc_path);
    join_path(d.as_str(), "conflict_history.json")
}

pub fn mc_apply_cache_path(mc_path: &str) -> (r: String)
    ensures
        r@ == path_join(prio_dir_spec(mc_path@), "apply_cache.json"@),
{
    let d = mc_prio_dir(mc_path);
    join_path(d.as_str(), "apply_cache.json")
}

pub fn mc_state_path(mc_path: &str) -> (r: String)
    ensures
        r@ == path_join(prio_dir_spec(mc_path@), "mc_state.json"@),
{
    let d = mc_prio_dir(mc_path);
    join_path(d.as_str(), "mc_state.json")
}

/// Where `prio recover` keeps backups.
pub fn backup_dir(repo_path: &str) -> (r: String)
    ensures
        r@ == path_join(prio_dir_spec(repo_path@), "backup"@),
{
    let d = prio_dir(repo_path);
    join_path(d.as_str(), "backup")
}

} // verus!
