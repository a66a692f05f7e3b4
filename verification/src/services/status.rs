//! `prio status`: which branches are applied, which commits belong to them, which
//! work-area commits are unassigned, and whether a conflict waits in prio-mc.
use vstd::prelude::*;
use vstd::string::StringExecFns;
use crate::json::{first_member_text, first_member_u64, json_first_member_text, json_first_member_u64};
use crate::logger::Logger;
use crate::result::{PrioResult, PrioStatus};
use crate::services::common::{assignment_for_work_sha, assignment_spec};
use crate::storage::repo_state::{McState, MvRebaseConflict, RepoState, StackEntry};
use crate::strings::{
    push_string,
    decimal, decimal_string, extend_strings, prefix_chars,
    after_first, before_first, concat2, concat3, contains_string, copy_strings, join, join_spec,
    lines_spec, nonempty_lines, nonempty_only, owned, slice_strings, splitn2, str_eq, trim_spec,
    trimmed_is, views, seq_lt, lemma_seq_lt_total, str_lt,
};

verus! {

pub struct CommitInfo {
    pub sha: String,
    pub message: String,
    pub branch: String,
    /// True when the commit is actually present on the branch's git ref
    /// (i.e. from `git log default..origin/<branch>`).
    /// False when it exists only above the work-area baseline (assigned via
    /// commit_assignments but not yet cherry-picked/merged into the branch).
    pub on_branch: bool,
}

pub struct BranchInfo {
    pub name: String,
    pub pr_number: Option<u32>,
    pub pr_url: Option<String>,
    pub commits: Vec<CommitInfo>,
    /// Merge pipeline state: "merged" | "conflict" | "pending", or none when the
    /// branch is fully in the work clone.
    pub apply_status: Option<String>,
    /// True when the branch is listed in `applied_branches` (merge-up active).
    pub applied: bool,
    /// Branches this branch is stacked after (from `prio stack`), if any.
    pub stacked_after: Vec<String>,
}

/// Present only when a merge conflict is in progress in the prio-mc clone.
pub struct MergeConflictInfo {
    /// Absolute path to the prio-mc clone.
    pub mc_path: String,
    /// The git branch name inside prio-mc where the conflict lives.
    pub merge_branch: String,
    /// The branch whose merge triggered the conflict.
    pub incoming_branch: String,
    /// Description of what has already been merged (e.g. "main + feature-a").
    pub base_desc: String,
    /// Branches that were successfully merged before the conflict.
    pub branches_merged: Vec<String>,
    /// Branches not yet attempted (after the conflicting one).
    pub branches_pending: Vec<String>,
}

pub struct StatusData {
    pub applied_branches: Vec<BranchInfo>,
    pub unassigned_commits: Vec<CommitInfo>,
    pub merge_conflict: Option<MergeConflictInfo>,
    /// Present when `prio mv -f` left a cherry-pick conflict in prio-mc while
    /// rebasing the source branch.
    pub mv_rebase_conflict: Option<MvRebaseConflict>,
}

pub struct StatusResult {
    pub data: StatusData,
    pub prio_result: PrioResult,
}

/// What has been merged so far, as the conflict banner shows it: the default branch,
/// then ` + ` and each merged branch.
pub open spec fn base_desc_spec(default_branch: Seq<char>, merged: Seq<Seq<char>>) -> Seq<char> {
    if merged.len() == 0 {
        default_branch
    } else {
        default_branch + " + "@ + join_spec(merged, " + "@)
    }
}

/// The conflict described by the prio-mc state: the branch at the pending index is
/// the incoming one, those before it are merged, those after it pending.
pub open spec fn conflict_info_spec(mc_path: Seq<char>, mc: McState, info: MergeConflictInfo) -> bool {
    let at = mc.pending_merge_index as int;
    let order = views(mc.pending_merge_branches@);
    &&& info.mc_path@ == mc_path
    &&& info.merge_branch@ == mc.merge_branch@
    &&& info.incoming_branch@ == (if at < order.len() {
        order[at]
    } else {
        Seq::<char>::empty()
    })
    &&& views(info.branches_merged@) == order.take(at)
    &&& views(info.branches_pending@) == (if at + 1 <= order.len() {
        order.skip(at + 1)
    } else {
        Seq::<Seq<char>>::empty()
    })
    &&& info.base_desc@ == base_desc_spec(mc.default_branch@, order.take(at))
}

/// The conflict info for the state of the prio-mc clone at `mc_path`.
pub fn conflict_info(mc_path: &str, mc: &McState) -> (r: MergeConflictInfo)
    requires
        mc.pending_merge_index <= mc.pending_merge_branches.len(),
    ensures
        conflict_info_spec(mc_path@, *mc, r),
{
    let at = mc.pending_merge_index;
    let order = &mc.pending_merge_branches;
    let incoming = if at < order.len() {
        order[at].clone()
    } else {
        String::new()
    };
    let merged = slice_strings(order, 0, at);
    let pending = if at < order.len() {
        slice_strings(order, at + 1, order.len())
    } else {
        Vec::new()
    };
    proof {
        assert(views(merged@) =~= views(order@).take(at as int));
        if at + 1 <= order.len() {
            assert(views(pending@) =~= views(order@).skip(at + 1));
        } else {
            assert(views(pending@) =~= Seq::<Seq<char>>::empty());
        }
    }
    let base_desc = if merged.len() == 0 {
        mc.default_branch.clone()
    } else {
        let j = join(&merged, " + ");
        concat3(mc.default_branch.as_str(), " + ", j.as_str())
    };
    MergeConflictInfo {
        mc_path: owned(mc_path),
        merge_branch: mc.merge_branch.clone(),
        incoming_branch: incoming,
        base_desc,
        branches_merged: merged,
        branches_pending: pending,
    }
}

/// What `prio status` finds about a merge conflict recorded in the work clone's state.
pub enum ConflictProbe {
    /// No conflict is recorded (or the prio-mc state could not be read).
    NoConflict,
    /// The work clone's flag is stale: prio-mc has no merge and nothing pending.
    /// The flag is cleared.
    StaleFlag,
    /// `MERGE_HEAD` is present in prio-mc: the conflict is live.
    Active,
    /// The conflict was resolved and committed on the merge branch, but the
    /// post-commit hook did not run: continue the merge.
    ContinueMerge,
    /// prio-mc was cleaned up while the state stayed dirty: clear the flags and
    /// apply again to bring the conflict back.
    Reapply,
}

/// Decides what a recorded merge conflict means. `mc` is the prio-mc state when it
/// could be read; `merge_head_active` says whether `MERGE_HEAD` resolves in prio-mc
/// and `mc_current_branch` is what `git branch --show-current` printed there (both
/// read only when prio-mc still reports a merge).
pub fn probe_conflict(
    merge_in_progress: bool,
    mc: Option<&McState>,
    merge_head_active: bool,
    mc_current_branch: &str,
) -> (r: ConflictProbe)
    ensures
        !merge_in_progress ==> r is NoConflict,
        merge_in_progress && mc is None ==> r is NoConflict,
        merge_in_progress && mc is Some ==> {
            let m = mc.unwrap();
            if !(m.merge_in_progress || m.pending_merge_branches@.len() > 0) {
                r is StaleFlag
            } else if merge_head_active {
                r is Active
            } else if m.merge_branch@.len() > 0 && trim_spec(mc_current_branch@) == m.merge_branch@ {
                r is ContinueMerge
            } else {
                r is Reapply
            }
        },
{
    if !merge_in_progress {
        return ConflictProbe::NoConflict;
    }
    match mc {
        None => ConflictProbe::NoConflict,
        Some(m) => {
            if !(m.merge_in_progress || m.pending_merge_branches.len() > 0) {
                ConflictProbe::StaleFlag
            } else if merge_head_active {
                ConflictProbe::Active
            } else if m.merge_branch.as_str().unicode_len() > 0 && trimmed_is(
                mc_current_branch,
                m.merge_branch.as_str(),
            ) {
                ConflictProbe::ContinueMerge
            } else {
                ConflictProbe::Reapply
            }
        },
    }
}

/// Clears the merge flags of the work clone's state; nothing else changes.
pub fn clear_merge_flags(state: &mut RepoState)
    ensures
        !final(state).merge_in_progress,
        final(state).pending_merge_branches@.len() == 0,
        final(state).pending_merge_index == 0,
        final(state).work_branch == old(state).work_branch,
        final(state).default_branch == old(state).default_branch,
        final(state).baseline_commit == old(state).baseline_commit,
        final(state).applied_branches == old(state).applied_branches,
        final(state).commit_map == old(state).commit_map,
        final(state).commit_assignments == old(state).commit_assignments,
        final(state).stacks == old(state).stacks,
        final(state).mv_rebase_conflict == old(state).mv_rebase_conflict,
{
    state.merge_in_progress = false;
    state.pending_merge_branches = Vec::new();
    state.pending_merge_index = 0;
}

/// Clears the merge flags of the prio-mc state; nothing else changes.
pub fn clear_mc_merge_flags(mc: &mut McState)
    ensures
        !final(mc).merge_in_progress,
        final(mc).pending_merge_branches@.len() == 0,
        final(mc).pending_merge_index == 0,
        final(mc).default_branch == old(mc).default_branch,
        final(mc).merge_branch == old(mc).merge_branch,
        final(mc).mv_rebase_in_progress == old(mc).mv_rebase_in_progress,
        final(mc).mv_rebase_phase == old(mc).mv_rebase_phase,
        final(mc).mv_rebase_source_branch == old(mc).mv_rebase_source_branch,
        final(mc).mv_rebase_dest_branch == old(mc).mv_rebase_dest_branch,
        final(mc).mv_rebase_remaining_dest == old(mc).mv_rebase_remaining_dest,
        final(mc).mv_rebase_source_shas_to_exclude == old(mc).mv_rebase_source_shas_to_exclude,
        final(mc).mv_rebase_remaining_commits == old(mc).mv_rebase_remaining_commits,
        final(mc).mv_rebase_source_is_pushed == old(mc).mv_rebase_source_is_pushed,
        final(mc).mv_rebase_force == old(mc).mv_rebase_force,
        final(mc).mv_pending_force_push_sources == old(mc).mv_pending_force_push_sources,
        final(mc).mv_rebase_unassign_commits == old(mc).mv_rebase_unassign_commits,
        final(mc).mv_rebase_unassign_baseline == old(mc).mv_rebase_unassign_baseline,
        final(mc).mv_rebase_unassign_all_sources == old(mc).mv_rebase_unassign_all_sources,
        final(mc).mv_rebase_unassign_source_branches == old(mc).mv_rebase_unassign_source_branches,
{
    mc.merge_in_progress = false;
    mc.pending_merge_branches = Vec::new();
    mc.pending_merge_index = 0;
}

/// A commit as status reports it: SHA, subject, branch, and whether it is on the
/// branch's git ref.
pub open spec fn commit_view(c: CommitInfo) -> (Seq<char>, Seq<char>, Seq<char>, bool) {
    (c.sha@, c.message@, c.branch@, c.on_branch)
}

pub open spec fn commit_views(s: Seq<CommitInfo>) -> Seq<(Seq<char>, Seq<char>, Seq<char>, bool)> {
    s.map_values(|c: CommitInfo| commit_view(c))
}

/// A `%H|%s` log line: the SHA before the first `|`, the subject after it.
pub open spec fn commit_line(l: Seq<char>) -> (Seq<char>, Seq<char>) {
    (
        before_first(l, '|'),
        match after_first(l, '|') {
            Some(m) => m,
            None => Seq::<char>::empty(),
        },
    )
}

/// The commits of a `git log --format=%H|%s` output, one per non-empty line.
pub open spec fn log_commits(log: Seq<char>) -> Seq<(Seq<char>, Seq<char>)> {
    nonempty_only(lines_spec(log)).map_values(|l: Seq<char>| commit_line(l))
}

pub open spec fn pair_views(s: Seq<(String, String)>) -> Seq<(Seq<char>, Seq<char>)> {
    s.map_values(|p: (String, String)| (p.0@, p.1@))
}

pub open spec fn triple_views(s: Seq<(String, String, String)>) -> Seq<(Seq<char>, Seq<char>, Seq<char>)> {
    s.map_values(|p: (String, String, String)| (p.0@, p.1@, p.2@))
}

/// Splits a `%H|%s` log line.
pub fn parse_commit_line(line: &str) -> (r: (String, String))
    ensures
        (r.0@, r.1@) == commit_line(line@),
{
    let (sha, rest) = splitn2(line, '|');
    let message = match rest {
        Some(m) => m,
        None => String::new(),
    };
    (sha, message)
}

fn log_commit_pairs(log: &str) -> (r: Vec<(String, String)>)
    ensures
        pair_views(r@) == log_commits(log@),
{
    let ls = nonempty_lines(log);
    let mut r: Vec<(String, String)> = Vec::new();
    let mut i: usize = 0;
    while i < ls.len()
        invariant
            i <= ls.len(),
            pair_views(r@) == views(ls@).take(i as int).map_values(|l: Seq<char>| commit_line(l)),
        decreases ls.len() - i,
    {
        let p = parse_commit_line(ls[i].as_str());
        let ghost before = r@;
        let ghost pv = (p.0@, p.1@);
        r.push(p);
        assert(pair_views(r@) =~= pair_views(before).push(pv));
        assert(views(ls@).take(i + 1).map_values(|l: Seq<char>| commit_line(l)) =~= views(ls@).take(
            i as int,
        ).map_values(|l: Seq<char>| commit_line(l)).push(commit_line(views(ls@)[i as int])));
        i = i + 1;
    }
    assert(views(ls@).take(ls@.len() as int) =~= views(ls@));
    r
}

/// The work-area commits that are unassigned, in log order.
pub open spec fn unassigned_first(cs: Seq<(Seq<char>, Seq<char>)>, state: RepoState) -> Seq<(Seq<char>, Seq<char>, Seq<char>, bool)>
    decreases cs.len(),
{
    if cs.len() == 0 {
        Seq::empty()
    } else {
        let p = unassigned_first(cs.drop_last(), state);
        if assignment_spec(cs.last().0, state) == "."@ {
            p.push((cs.last().0, cs.last().1, "."@, false))
        } else {
            p
        }
    }
}

/// The work-area commits that are assigned, with their branch, in log order.
pub open spec fn assigned_above(cs: Seq<(Seq<char>, Seq<char>)>, state: RepoState) -> Seq<(Seq<char>, Seq<char>, Seq<char>)>
    decreases cs.len(),
{
    if cs.len() == 0 {
        Seq::empty()
    } else {
        let p = assigned_above(cs.drop_last(), state);
        let a = assignment_spec(cs.last().0, state);
        if a == "."@ {
            p
        } else {
            p.push((cs.last().0, cs.last().1, a))
        }
    }
}

fn split_work_commits(cs: &Vec<(String, String)>, state: &RepoState) -> (r: (Vec<CommitInfo>, Vec<(String, String, String)>))
    ensures
        commit_views(r.0@) == unassigned_first(pair_views(cs@), *state),
        triple_views(r.1@) == assigned_above(pair_views(cs@), *state),
{
    proof {
        reveal_strlit(".");
    }
    let mut un: Vec<CommitInfo> = Vec::new();
    let mut above: Vec<(String, String, String)> = Vec::new();
    let mut i: usize = 0;
    while i < cs.len()
        invariant
            i <= cs.len(),
            commit_views(un@) == unassigned_first(pair_views(cs@).take(i as int), *state),
            triple_views(above@) == assigned_above(pair_views(cs@).take(i as int), *state),
        decreases cs.len() - i,
    {
        proof {
            assert(pair_views(cs@).take(i + 1).drop_last() =~= pair_views(cs@).take(i as int));
        }
        let a = assignment_for_work_sha(cs[i].0.as_str(), state);
        let ghost bu = un@;
        let ghost ba = above@;
        if str_eq(a.as_str(), ".") {
            un.push(
                CommitInfo {
                    sha: cs[i].0.clone(),
                    message: cs[i].1.clone(),
                    branch: String::from_str("."),
                    on_branch: false,
                },
            );
            assert(commit_views(un@) =~= commit_views(bu).push((cs@[i as int].0@, cs@[i as int].1@, "."@, false)));
        } else {
            above.push((cs[i].0.clone(), cs[i].1.clone(), a));
            assert(triple_views(above@) =~= triple_views(ba).push((cs@[i as int].0@, cs@[i as int].1@, assignment_spec(cs@[i as int].0@, *state))));
        }
        i = i + 1;
    }
    assert(pair_views(cs@).take(cs@.len() as int) =~= pair_views(cs@));
    (un, above)
}

/// The commits on a branch's git ref, from its log (none when the log could not be read).
pub open spec fn on_branch_commits(log: Option<Seq<char>>, branch: Seq<char>) -> Seq<(Seq<char>, Seq<char>, Seq<char>, bool)> {
    match log {
        None => Seq::empty(),
        Some(l) => log_commits(l).map_values(|p: (Seq<char>, Seq<char>)| (p.0, p.1, branch, true)),
    }
}

pub open spec fn shas_of(cs: Seq<(Seq<char>, Seq<char>, Seq<char>, bool)>) -> Seq<Seq<char>> {
    cs.map_values(|c: (Seq<char>, Seq<char>, Seq<char>, bool)| c.0)
}

/// A work-area commit assigned to `branch` that is not yet on the branch: neither it
/// nor the cherry-pick it was mapped to is among `on_shas`.
pub open spec fn pending_here(c: (Seq<char>, Seq<char>, Seq<char>), branch: Seq<char>, on_shas: Seq<Seq<char>>, cmap: Map<Seq<char>, String>) -> bool {
    &&& c.2 == branch
    &&& !on_shas.contains(c.0)
    &&& !(cmap.dom().contains(c.0) && on_shas.contains(cmap[c.0]@))
}

/// The pending commits of `branch`, the latest first.
pub open spec fn pending_on(above: Seq<(Seq<char>, Seq<char>, Seq<char>)>, branch: Seq<char>, on_shas: Seq<Seq<char>>, cmap: Map<Seq<char>, String>) -> Seq<(Seq<char>, Seq<char>, Seq<char>, bool)>
    decreases above.len(),
{
    if above.len() == 0 {
        Seq::empty()
    } else {
        let p = pending_on(above.drop_last(), branch, on_shas, cmap);
        let c = above.last();
        if pending_here(c, branch, on_shas, cmap) {
            seq![(c.0, c.1, branch, false)] + p
        } else {
            p
        }
    }
}

proof fn lemma_pending_entries(above: Seq<(Seq<char>, Seq<char>, Seq<char>)>, branch: Seq<char>, on_shas: Seq<Seq<char>>, cmap: Map<Seq<char>, String>)
    ensures
        forall|j: int| 0 <= j < pending_on(above, branch, on_shas, cmap).len() ==> {
            let e = #[trigger] pending_on(above, branch, on_shas, cmap)[j];
            &&& !e.3
            &&& e.2 == branch
            &&& !on_shas.contains(e.0)
            &&& !(cmap.dom().contains(e.0) && on_shas.contains(cmap[e.0]@))
        },
    decreases above.len(),
{
    if above.len() > 0 {
        lemma_pending_entries(above.drop_last(), branch, on_shas, cmap);
        let p = pending_on(above.drop_last(), branch, on_shas, cmap);
        let c = above.last();
        if pending_here(c, branch, on_shas, cmap) {
            let r = seq![(c.0, c.1, branch, false)] + p;
            assert forall|j: int| 1 <= j < r.len() implies r[j] == p[j - 1] by {}
        }
    }
}

/// Under an applied branch, status lists a work-area commit as pending (not yet on
/// the branch) only when it is assigned to that branch and neither the commit nor
/// the cherry-pick it was moved as is among the commits on the branch's ref; every
/// commit read from the ref is listed as on the branch.
pub proof fn law_moved_commit_not_pending(above: Seq<(Seq<char>, Seq<char>, Seq<char>)>, branch: Seq<char>, log: Option<Seq<char>>, cmap: Map<Seq<char>, String>)
    ensures
        ({
            let on = shas_of(on_branch_commits(log, branch));
            let r = branch_commits_spec(above, branch, log, cmap);
            forall|j: int| 0 <= j < r.len() && !(#[trigger] r[j]).3 ==> {
                &&& r[j].2 == branch
                &&& !on.contains(r[j].0)
                &&& !(cmap.dom().contains(r[j].0) && on.contains(cmap[r[j].0]@))
            }
        }),
        ({
            let on = shas_of(on_branch_commits(log, branch));
            forall|sha: Seq<char>| #[trigger] on.contains(sha) ==> exists|j: int| 0 <= j < branch_commits_spec(above, branch, log, cmap).len()
                && branch_commits_spec(above, branch, log, cmap)[j].0 == sha && branch_commits_spec(above, branch, log, cmap)[j].3
        }),
{
    let oc = on_branch_commits(log, branch);
    let on = shas_of(oc);
    let p = pending_on(above, branch, on, cmap);
    let r = branch_commits_spec(above, branch, log, cmap);
    lemma_pending_entries(above, branch, on, cmap);
    assert(r == p + oc);
    assert forall|j: int| 0 <= j < r.len() && !(#[trigger] r[j]).3 implies {
        &&& r[j].2 == branch
        &&& !on.contains(r[j].0)
        &&& !(cmap.dom().contains(r[j].0) && on.contains(cmap[r[j].0]@))
    } by {
        if j >= p.len() {
            assert(r[j] == oc[j - p.len()]);
            assert(oc[j - p.len()].3);
        } else {
            assert(r[j] == p[j]);
        }
    }
    assert forall|sha: Seq<char>| #[trigger] on.contains(sha) implies exists|j: int| 0 <= j < r.len() && r[j].0 == sha && r[j].3 by {
        let k = choose|k: int| 0 <= k < on.len() && on[k] == sha;
        assert(r[p.len() + k] == oc[k]);
    }
}

/// The commits status lists under an applied branch: the pending ones (latest first),
/// then those on its ref.
pub open spec fn branch_commits_spec(above: Seq<(Seq<char>, Seq<char>, Seq<char>)>, branch: Seq<char>, log: Option<Seq<char>>, cmap: Map<Seq<char>, String>) -> Seq<(Seq<char>, Seq<char>, Seq<char>, bool)> {
    let on = on_branch_commits(log, branch);
    pending_on(above, branch, shas_of(on), cmap) + on
}

pub open spec fn opt_view(o: Option<String>) -> Option<Seq<char>> {
    match o {
        None => None,
        Some(s) => Some(s@),
    }
}

fn branch_commits(state: &RepoState, branch: &str, log: &Option<String>, above: &Vec<(String, String, String)>) -> (r: Vec<CommitInfo>)
    ensures
        commit_views(r@) == branch_commits_spec(triple_views(above@), branch@, opt_view(*log), state.commit_map@),
{
    let mut commits: Vec<CommitInfo> = Vec::new();
    let mut on_shas: Vec<String> = Vec::new();
    match log {
        Some(l) => {
            let pairs = log_commit_pairs(l.as_str());
            let mut k: usize = 0;
            while k < pairs.len()
                invariant
                    k <= pairs.len(),
                    pair_views(pairs@) == log_commits(l@),
                    commit_views(commits@) == pair_views(pairs@).take(k as int).map_values(
                        |p: (Seq<char>, Seq<char>)| (p.0, p.1, branch@, true),
                    ),
                    views(on_shas@) == shas_of(commit_views(commits@)),
                decreases pairs.len() - k,
            {
                let ghost bc = commits@;
                let ghost bs = on_shas@;
                on_shas.push(pairs[k].0.clone());
                commits.push(
                    CommitInfo {
                        sha: pairs[k].0.clone(),
                        message: pairs[k].1.clone(),
                        branch: owned(branch),
                        on_branch: true,
                    },
                );
                assert(commit_views(commits@) =~= commit_views(bc).push((pairs@[k as int].0@, pairs@[k as int].1@, branch@, true)));
                assert(commit_views(commits@) =~= pair_views(pairs@).take(k + 1).map_values(
                    |p: (Seq<char>, Seq<char>)| (p.0, p.1, branch@, true),
                ));
                assert(views(on_shas@) =~= views(bs).push(pairs@[k as int].0@));
                assert(shas_of(commit_views(commits@)) =~= shas_of(commit_views(bc)).push(pairs@[k as int].0@));
                k = k + 1;
            }
            assert(pair_views(pairs@).take(pairs@.len() as int) =~= pair_views(pairs@));
        },
        None => {
            assert(commit_views(commits@) =~= Seq::<(Seq<char>, Seq<char>, Seq<char>, bool)>::empty());
            assert(views(on_shas@) =~= shas_of(commit_views(commits@)));
        },
    }
    let ghost on = commit_views(commits@);
    assert(on == on_branch_commits(opt_view(*log), branch@));
    let mut i: usize = 0;
    while i < above.len()
        invariant
            i <= above.len(),
            on == on_branch_commits(opt_view(*log), branch@),
            views(on_shas@) == shas_of(on),
            commit_views(commits@) == pending_on(triple_views(above@).take(i as int), branch@, shas_of(on), state.commit_map@) + on,
        decreases above.len() - i,
    {
        proof {
            assert(triple_views(above@).take(i + 1).drop_last() =~= triple_views(above@).take(i as int));
        }
        let sha = above[i].0.as_str();
        let mut skip = !str_eq(above[i].2.as_str(), branch) || contains_string(&on_shas, sha);
        if !skip {
            match state.commit_map.get(sha) {
                Some(mapped) => {
                    if contains_string(&on_shas, mapped.as_str()) {
                        skip = true;
                    }
                },
                None => {},
            }
        }
        if !skip {
            let ghost bc = commits@;
            commits.insert(
                0,
                CommitInfo {
                    sha: above[i].0.clone(),
                    message: above[i].1.clone(),
                    branch: owned(branch),
                    on_branch: false,
                },
            );
            assert(commit_views(commits@) =~= seq![(above@[i as int].0@, above@[i as int].1@, branch@, false)] + commit_views(bc));
        }
        i = i + 1;
    }
    assert(triple_views(above@).take(above@.len() as int) =~= triple_views(above@));
    commits
}

/// A branch that has work-area commits assigned to it but is not applied.
pub open spec fn extra_name(above: Seq<(Seq<char>, Seq<char>, Seq<char>)>, applied: Seq<Seq<char>>, n: Seq<char>) -> bool {
    &&& !applied.contains(n)
    &&& exists|i: int| 0 <= i < above.len() && #[trigger] above[i].2 == n
}

/// Each name sorts before the next.
pub open spec fn sorted_names(s: Seq<Seq<char>>) -> bool {
    forall|k: int| 0 <= k < s.len() - 1 ==> seq_lt(#[trigger] s[k], s[k + 1])
}

/// The branches with assigned work-area commits that are not applied, each once,
/// in name order.
fn extra_names(above: &Vec<(String, String, String)>, applied: &Vec<String>) -> (r: Vec<String>)
    ensures
        forall|n: Seq<char>| views(r@).contains(n) <==> extra_name(triple_views(above@), views(applied@), n),
        views(r@).no_duplicates(),
        sorted_names(views(r@)),
{
    let mut names: Vec<String> = Vec::new();
    let mut i: usize = 0;
    while i < above.len()
        invariant
            i <= above.len(),
            forall|n: Seq<char>| views(names@).contains(n) <==> extra_name(triple_views(above@).take(i as int), views(applied@), n),
            views(names@).no_duplicates(),
            sorted_names(views(names@)),
        decreases above.len() - i,
    {
        let a = above[i].2.as_str();
        let ghost t = triple_views(above@).take(i as int);
        let ghost t2 = triple_views(above@).take(i + 1);
        proof {
            assert(t2[i as int].2 == a@);
            assert forall|n: Seq<char>| #![auto] extra_name(t2, views(applied@), n) <==> (extra_name(t, views(applied@), n) || (n == a@ && !views(applied@).contains(n))) by {
                if extra_name(t2, views(applied@), n) {
                    let j = choose|j: int| 0 <= j < t2.len() && #[trigger] t2[j].2 == n;
                    if j < i {
                        assert(t[j].2 == n);
                    }
                }
                if extra_name(t, views(applied@), n) {
                    let j = choose|j: int| 0 <= j < t.len() && #[trigger] t[j].2 == n;
                    assert(t2[j].2 == n);
                }
            }
        }
        if !contains_string(applied, a) && !contains_string(&names, a) {
            let mut p: usize = 0;
            while p < names.len() && str_lt(names[p].as_str(), a)
                invariant
                    p <= names.len(),
                    forall|k: int| 0 <= k < p ==> seq_lt(#[trigger] views(names@)[k], a@),
                decreases names.len() - p,
            {
                p = p + 1;
            }
            let ghost old_names = views(names@);
            proof {
                if p < names.len() {
                    assert(old_names[p as int] != a@) by {
                        if old_names[p as int] == a@ {
                            assert(old_names.contains(a@));
                        }
                    }
                    lemma_seq_lt_total(old_names[p as int], a@);
                }
            }
            names.insert(p, owned(above[i].2.as_str()));
            proof {
                let nn = views(names@);
                assert(nn =~= old_names.insert(p as int, a@));
                assert forall|k: int| 0 <= k < nn.len() - 1 implies seq_lt(#[trigger] nn[k], nn[k + 1]) by {
                    if k + 1 < p {
                        assert(nn[k] == old_names[k] && nn[k + 1] == old_names[k + 1]);
                    } else if k + 1 == p {
                        assert(nn[k] == old_names[k] && nn[k + 1] == a@);
                    } else if k == p {
                        assert(nn[k] == a@ && nn[k + 1] == old_names[k]);
                    } else {
                        assert(nn[k] == old_names[k - 1] && nn[k + 1] == old_names[k]);
                    }
                }
                assert forall|x: int, y: int| 0 <= x < nn.len() && 0 <= y < nn.len() && x != y implies nn[x] != nn[y] by {
                    if nn[x] == nn[y] {
                        if x == p {
                            assert(old_names.contains(a@));
                        } else if y == p {
                            assert(old_names.contains(a@));
                        } else {
                            let ox = if x < p { x } else { x - 1 };
                            let oy = if y < p { y } else { y - 1 };
                            assert(old_names[ox] == old_names[oy]);
                        }
                    }
                }
                assert forall|n: Seq<char>| nn.contains(n) <==> (old_names.contains(n) || n == a@) by {
                    if nn.contains(n) {
                        let k = choose|k: int| 0 <= k < nn.len() && nn[k] == n;
                        if k != p {
                            let ok = if k < p { k } else { k - 1 };
                            assert(old_names[ok] == n);
                        }
                    }
                    if old_names.contains(n) {
                        let k = choose|k: int| 0 <= k < old_names.len() && old_names[k] == n;
                        if k < p {
                            assert(nn[k] == n);
                        } else {
                            assert(nn[k + 1] == n);
                        }
                    }
                    if n == a@ {
                        assert(nn[p as int] == n);
                    }
                }
            }
        }
        i = i + 1;
    }
    assert(triple_views(above@).take(above@.len() as int) =~= triple_views(above@));
    names
}

/// The work-area commits assigned to `n`, in log order.
pub open spec fn group_of(above: Seq<(Seq<char>, Seq<char>, Seq<char>)>, n: Seq<char>) -> Seq<(Seq<char>, Seq<char>, Seq<char>, bool)>
    decreases above.len(),
{
    if above.len() == 0 {
        Seq::empty()
    } else {
        let p = group_of(above.drop_last(), n);
        if above.last().2 == n {
            p.push((above.last().0, above.last().1, n, false))
        } else {
            p
        }
    }
}

fn group(above: &Vec<(String, String, String)>, name: &str) -> (r: Vec<CommitInfo>)
    ensures
        commit_views(r@) == group_of(triple_views(above@), name@),
{
    let mut r: Vec<CommitInfo> = Vec::new();
    let mut i: usize = 0;
    while i < above.len()
        invariant
            i <= above.len(),
            commit_views(r@) == group_of(triple_views(above@).take(i as int), name@),
        decreases above.len() - i,
    {
        proof {
            assert(triple_views(above@).take(i + 1).drop_last() =~= triple_views(above@).take(i as int));
        }
        if str_eq(above[i].2.as_str(), name) {
            let ghost b = r@;
            r.push(
                CommitInfo {
                    sha: above[i].0.clone(),
                    message: above[i].1.clone(),
                    branch: owned(name),
                    on_branch: false,
                },
            );
            assert(commit_views(r@) =~= commit_views(b).push((above@[i as int].0@, above@[i as int].1@, name@, false)));
        }
        i = i + 1;
    }
    assert(triple_views(above@).take(above@.len() as int) =~= triple_views(above@));
    r
}

/// The dependencies recorded by `prio stack` for `b`: those of the first entry for it.
pub open spec fn stack_deps(stacks: Seq<StackEntry>, b: Seq<char>) -> Seq<Seq<char>>
    decreases stacks.len(),
{
    if stacks.len() == 0 {
        Seq::empty()
    } else if stacks[0].branch@ == b {
        views(stacks[0].dependencies@)
    } else {
        stack_deps(stacks.drop_first(), b)
    }
}

pub fn stacked_after(stacks: &Vec<StackEntry>, b: &str) -> (r: Vec<String>)
    ensures
        views(r@) == stack_deps(stacks@, b@),
{
    let mut i: usize = 0;
    proof {
        assert(stacks@.skip(0) =~= stacks@);
    }
    while i < stacks.len()
        invariant
            i <= stacks.len(),
            stack_deps(stacks@, b@) == stack_deps(stacks@.skip(i as int), b@),
        decreases stacks.len() - i,
    {
        proof {
            assert(stacks@.skip(i as int).drop_first() =~= stacks@.skip(i + 1));
            assert(stacks@.skip(i as int)[0] == stacks@[i as int]);
        }
        if str_eq(stacks[i].branch.as_str(), b) {
            return copy_strings(&stacks[i].dependencies);
        }
        i = i + 1;
    }
    Vec::new()
}

/// Index of the last `x` in `s`, or -1.
pub open spec fn last_pos(s: Seq<Seq<char>>, x: Seq<char>) -> int
    decreases s.len(),
{
    if s.len() == 0 {
        -1
    } else if s.last() == x {
        s.len() - 1
    } else {
        last_pos(s.drop_last(), x)
    }
}

/// Where a branch stands in an interrupted merge: `merged` before the pending index,
/// `conflict` when it is the incoming branch, `pending` otherwise; none when no
/// conflict is shown or the branch is not in the merge order.
pub open spec fn apply_status_spec(state: RepoState, conflict: Option<MergeConflictInfo>, b: Seq<char>) -> Option<Seq<char>> {
    match conflict {
        None => None,
        Some(info) => {
            let p = views(state.pending_merge_branches@);
            let i = last_pos(p, b);
            if i < 0 {
                None
            } else if i < state.pending_merge_index {
                Some("merged"@)
            } else if p[i] == info.incoming_branch@ {
                Some("conflict"@)
            } else {
                Some("pending"@)
            }
        },
    }
}

proof fn lemma_last_pos(s: Seq<Seq<char>>, k: int)
    requires
        0 <= k < s.len(),
        forall|j: int| k < j < s.len() ==> s[j] != s[k],
    ensures
        last_pos(s, s[k]) == k,
    decreases s.len(),
{
    if s.len() - 1 != k {
        let t = s.drop_last();
        assert(t[k] == s[k]);
        lemma_last_pos(t, k);
    }
}

proof fn lemma_last_pos_absent(s: Seq<Seq<char>>, x: Seq<char>)
    requires
        !s.contains(x),
    ensures
        last_pos(s, x) == -1,
    decreases s.len(),
{
    if s.len() > 0 {
        assert(s.last() == s[s.len() - 1]);
        assert forall|j: int| 0 <= j < s.drop_last().len() implies s.drop_last()[j] != x by {
            assert(s.drop_last()[j] == s[j]);
        }
        lemma_last_pos_absent(s.drop_last(), x);
    }
}

/// While a merge conflict is shown, each branch of the interrupted merge order (at
/// its last place in the order) reads `merged` exactly when it comes before the
/// pending index; the branch at the pending index that is the incoming branch reads
/// `conflict`; later branches read `pending`; a branch outside the order has none,
/// and nothing reads anything without a conflict.
pub proof fn law_apply_status(state: RepoState, conflict: Option<MergeConflictInfo>, k: int, b: Seq<char>)
    ensures
        conflict is None ==> apply_status_spec(state, conflict, b) is None,
        conflict is Some && !views(state.pending_merge_branches@).contains(b) ==> apply_status_spec(state, conflict, b) is None,
        ({
            let p = views(state.pending_merge_branches@);
            (conflict is Some && 0 <= k < p.len() && (forall|j: int| k < j < p.len() ==> p[j] != p[k])) ==> {
                &&& (apply_status_spec(state, conflict, p[k]) == Some("merged"@) <==> k < state.pending_merge_index)
                &&& (k == state.pending_merge_index && p[k] == conflict->0.incoming_branch@
                    ==> apply_status_spec(state, conflict, p[k]) == Some("conflict"@))
                &&& (k > state.pending_merge_index && p[k] != conflict->0.incoming_branch@
                    ==> apply_status_spec(state, conflict, p[k]) == Some("pending"@))
            }
        }),
{
    reveal_strlit("merged");
    reveal_strlit("conflict");
    reveal_strlit("pending");
    assert("merged"@.len() != "conflict"@.len());
    assert("merged"@ != "pending"@) by {
        assert("merged"@[0] != "pending"@[0]);
    }
    let p = views(state.pending_merge_branches@);
    if conflict is Some && !p.contains(b) {
        lemma_last_pos_absent(p, b);
    }
    if conflict is Some && 0 <= k < p.len() && (forall|j: int| k < j < p.len() ==> p[j] != p[k]) {
        lemma_last_pos(p, k);
    }
}

#[verifier::loop_isolation(false)]
fn apply_status_of(state: &RepoState, conflict: &Option<MergeConflictInfo>, b: &str) -> (r: Option<String>)
    ensures
        opt_view(r) == apply_status_spec(*state, *conflict, b@),
{
    match conflict {
        None => None,
        Some(info) => {
            let p = &state.pending_merge_branches;
            let mut i: usize = p.len();
            proof {
                assert(views(p@).take(p@.len() as int) =~= views(p@));
                reveal_strlit("merged");
                reveal_strlit("conflict");
                reveal_strlit("pending");
            }
            while i > 0
                invariant
                    i <= p.len(),
                    last_pos(views(p@), b@) == last_pos(views(p@).take(i as int), b@),
                decreases i,
            {
                proof {
                    assert(views(p@).take(i as int).drop_last() =~= views(p@).take(i - 1));
                }
                if str_eq(p[i - 1].as_str(), b) {
                    let k = i - 1;
                    assert(views(p@).take(i as int).last() == b@);
                    assert(last_pos(views(p@), b@) == k);
                    if k < state.pending_merge_index {
                        return Some(String::from_str("merged"));
                    } else if str_eq(p[k].as_str(), info.incoming_branch.as_str()) {
                        return Some(String::from_str("conflict"));
                    } else {
                        return Some(String::from_str("pending"));
                    }
                }
                i = i - 1;
            }
            proof {
                assert(views(p@).take(0) =~= Seq::<Seq<char>>::empty());
                assert(views(p@).take(p@.len() as int) =~= views(p@));
            }
            None
        },
    }
}

/// A branch's pull request, as `gh pr list --head <branch>` reported it.
pub struct PrInfo {
    pub branch: String,
    pub number: Option<u32>,
    pub url: Option<String>,
}

/// The pull request recorded for `b`: the first entry for it, else none.
pub open spec fn pr_of(prs: Seq<PrInfo>, b: Seq<char>) -> (Option<u32>, Option<Seq<char>>)
    decreases prs.len(),
{
    if prs.len() == 0 {
        (None, None)
    } else if prs[0].branch@ == b {
        (prs[0].number, opt_view(prs[0].url))
    } else {
        pr_of(prs.drop_first(), b)
    }
}

fn pr_lookup(prs: &Vec<PrInfo>, b: &str) -> (r: (Option<u32>, Option<String>))
    ensures
        (r.0, opt_view(r.1)) == pr_of(prs@, b@),
{
    let mut i: usize = 0;
    proof {
        assert(prs@.skip(0) =~= prs@);
    }
    while i < prs.len()
        invariant
            i <= prs.len(),
            pr_of(prs@, b@) == pr_of(prs@.skip(i as int), b@),
        decreases prs.len() - i,
    {
        proof {
            assert(prs@.skip(i as int).drop_first() =~= prs@.skip(i + 1));
            assert(prs@.skip(i as int)[0] == prs@[i as int]);
        }
        if str_eq(prs[i].branch.as_str(), b) {
            return (prs[i].number, prs[i].url.clone());
        }
        i = i + 1;
    }
    (None, None)
}

/// The SHAs of the commits that are on their branch's ref.
pub open spec fn on_shas_of(cs: Seq<(Seq<char>, Seq<char>, Seq<char>, bool)>) -> Seq<Seq<char>>
    decreases cs.len(),
{
    if cs.len() == 0 {
        Seq::empty()
    } else {
        let p = on_shas_of(cs.drop_last());
        if cs.last().3 {
            p.push(cs.last().0)
        } else {
            p
        }
    }
}

/// The on-ref SHAs of all the branches status lists.
pub open spec fn on_shas_all(bs: Seq<BranchInfo>) -> Seq<Seq<char>>
    decreases bs.len(),
{
    if bs.len() == 0 {
        Seq::empty()
    } else {
        on_shas_all(bs.drop_last()) + on_shas_of(commit_views(bs.last().commits@))
    }
}

/// The commits whose SHA is not among `on`.
pub open spec fn keep_off(cs: Seq<(Seq<char>, Seq<char>, Seq<char>, bool)>, on: Seq<Seq<char>>) -> Seq<(Seq<char>, Seq<char>, Seq<char>, bool)>
    decreases cs.len(),
{
    if cs.len() == 0 {
        Seq::empty()
    } else {
        let p = keep_off(cs.drop_last(), on);
        if on.contains(cs.last().0) {
            p
        } else {
            p.push(cs.last())
        }
    }
}

pub open spec fn names_of(bs: Seq<BranchInfo>) -> Seq<Seq<char>> {
    bs.map_values(|b: BranchInfo| b.name@)
}

/// An applied branch as status lists it.
pub open spec fn applied_branch_ok(
    b: BranchInfo,
    name: Seq<char>,
    above: Seq<(Seq<char>, Seq<char>, Seq<char>)>,
    log: Option<Seq<char>>,
    state: RepoState,
    conflict: Option<MergeConflictInfo>,
    prs: Seq<PrInfo>,
) -> bool {
    &&& b.name@ == name
    &&& commit_views(b.commits@) == branch_commits_spec(above, name, log, state.commit_map@)
    &&& opt_view(b.apply_status) == apply_status_spec(state, conflict, name)
    &&& b.applied
    &&& views(b.stacked_after@) == stack_deps(state.stacks@, name)
    &&& (b.pr_number, opt_view(b.pr_url)) == pr_of(prs, name)
}

/// A branch with assigned commits that is not applied, as status lists it.
pub open spec fn extra_branch_ok(b: BranchInfo, above: Seq<(Seq<char>, Seq<char>, Seq<char>)>, state: RepoState, prs: Seq<PrInfo>) -> bool {
    &&& commit_views(b.commits@) == group_of(above, b.name@)
    &&& b.apply_status is None
    &&& !b.applied
    &&& views(b.stacked_after@) == stack_deps(state.stacks@, b.name@)
    &&& (b.pr_number, opt_view(b.pr_url)) == pr_of(prs, b.name@)
}

/// The state with the same content, the mv conflict record aside.
pub open spec fn same_but_mv_conflict(a: RepoState, b: RepoState) -> bool {
    &&& a.work_branch == b.work_branch
    &&& a.default_branch == b.default_branch
    &&& a.baseline_commit == b.baseline_commit
    &&& a.applied_branches == b.applied_branches
    &&& a.commit_map == b.commit_map
    &&& a.commit_assignments == b.commit_assignments
    &&& a.stacks == b.stacks
    &&& a.merge_in_progress == b.merge_in_progress
    &&& a.pending_merge_branches == b.pending_merge_branches
    &&& a.pending_merge_index == b.pending_merge_index
}

/// The message of a status whose stale conflict flag was cleared.
pub open spec fn stale_cleared_text() -> Seq<char> {
    "Stale conflict flag cleared \u{2014} prio-mc has no active merge or cherry-pick in progress. Status is clean."@
}

/// Assembles the status of the work clone.
///
/// `state` is the work clone's state once any recorded merge conflict has been
/// probed (see [`probe_conflict`]); `merge_conflict` is the conflict to show and
/// `stale_cleared` says whether a stale conflict flag was cleared. `log` is the
/// output of `git log <baseline>..HEAD --format=%H|%s`; `branch_logs[i]` is the
/// `%H|%s` log of the commits unique to the i-th applied branch (none when its tip
/// did not resolve or the log failed); `prs` holds the pull requests found for the
/// branches; `cherry_pick_active` says whether `CHERRY_PICK_HEAD` resolves in
/// prio-mc. A recorded mv conflict with no cherry-pick in progress is stale and is
/// cleared from `state`. The logger's entries become the result's log.
#[verifier::loop_isolation(false)]
pub fn run(
    state: &mut RepoState,
    merge_conflict: Option<MergeConflictInfo>,
    stale_cleared: bool,
    log: &str,
    branch_logs: &Vec<Option<String>>,
    prs: &Vec<PrInfo>,
    cherry_pick_active: bool,
    logger: &mut Logger,
) -> (r: StatusResult)
    requires
        branch_logs.len() == old(state).applied_branches.len(),
    ensures
        ({
            let st = *old(state);
            let cs = log_commits(log@);
            let above = assigned_above(cs, st);
            let applied = views(st.applied_branches@);
            let bs = r.data.applied_branches@;
            let n = applied.len();
            &&& bs.len() >= n
            &&& forall|i: int| 0 <= i < n ==> applied_branch_ok(#[trigger] bs[i], applied[i], above, opt_view(branch_logs@[i]), st, merge_conflict, prs@)
            &&& forall|i: int| n <= i < bs.len() ==> extra_branch_ok(#[trigger] bs[i], above, st, prs@)
            &&& forall|nm: Seq<char>| names_of(bs).skip(n as int).contains(nm) <==> extra_name(above, applied, nm)
            &&& names_of(bs).skip(n as int).no_duplicates()
            &&& sorted_names(names_of(bs).skip(n as int))
            &&& commit_views(r.data.unassigned_commits@) == keep_off(unassigned_first(cs, st), on_shas_all(bs))
        }),
        r.data.merge_conflict == merge_conflict,
        match old(state).mv_rebase_conflict {
            None => r.data.mv_rebase_conflict is None && *final(state) == *old(state),
            Some(c) => if cherry_pick_active {
                r.data.mv_rebase_conflict == Some(c) && *final(state) == *old(state)
            } else {
                r.data.mv_rebase_conflict is None && final(state).mv_rebase_conflict is None
                    && same_but_mv_conflict(*final(state), *old(state))
            },
        },
        stale_cleared ==> r.prio_result.status == PrioStatus::Warning && r.prio_result.message@
            == stale_cleared_text(),
        !stale_cleared ==> r.prio_result.status == PrioStatus::Success && r.prio_result.message@
            == "Status loaded."@,
        r.prio_result.logs@ == old(logger).recorded(),
        final(logger).same_kind(*old(logger)),
        final(logger).recorded().len() == 0,
{
    let ghost st = *state;
    let pairs = log_commit_pairs(log);
    let (unassigned0, above) = split_work_commits(&pairs, state);
    let ghost cs = log_commits(log@);
    let ghost abv = assigned_above(cs, st);
    let mut bs: Vec<BranchInfo> = Vec::new();
    let mut i: usize = 0;
    while i < state.applied_branches.len()
        invariant
            i <= state.applied_branches.len(),
            *state == st,
            bs.len() == i,
            forall|j: int| 0 <= j < i ==> applied_branch_ok(#[trigger] bs@[j], views(st.applied_branches@)[j], abv, opt_view(branch_logs@[j]), st, merge_conflict, prs@),
        decreases state.applied_branches.len() - i,
    {
        let name = state.applied_branches[i].as_str();
        let commits = branch_commits(state, name, &branch_logs[i], &above);
        let status = apply_status_of(state, &merge_conflict, name);
        let stacked = stacked_after(&state.stacks, name);
        let (num, url) = pr_lookup(prs, name);
        bs.push(
            BranchInfo {
                name: owned(name),
                pr_number: num,
                pr_url: url,
                commits,
                apply_status: status,
                applied: true,
                stacked_after: stacked,
            },
        );
        i = i + 1;
    }
    let n = bs.len();
    let extras = extra_names(&above, &state.applied_branches);
    let mut k: usize = 0;
    while k < extras.len()
        invariant
            k <= extras.len(),
            *state == st,
            bs.len() == n + k,
            forall|j: int| 0 <= j < n ==> applied_branch_ok(#[trigger] bs@[j], views(st.applied_branches@)[j], abv, opt_view(branch_logs@[j]), st, merge_conflict, prs@),
            forall|j: int| n <= j < bs.len() ==> extra_branch_ok(#[trigger] bs@[j], abv, st, prs@),
            names_of(bs@).skip(n as int) == views(extras@).take(k as int),
        decreases extras.len() - k,
    {
        let name = extras[k].as_str();
        let commits = group(&above, name);
        let stacked = stacked_after(&state.stacks, name);
        let (num, url) = pr_lookup(prs, name);
        let ghost before = bs@;
        bs.push(
            BranchInfo {
                name: owned(name),
                pr_number: num,
                pr_url: url,
                commits,
                apply_status: None,
                applied: false,
                stacked_after: stacked,
            },
        );
        proof {
            assert(names_of(bs@).skip(n as int) =~= names_of(before).skip(n as int).push(extras@[k as int]@));
            assert(views(extras@).take(k + 1) =~= views(extras@).take(k as int).push(extras@[k as int]@));
        }
        k = k + 1;
    }
    assert(views(extras@).take(extras@.len() as int) =~= views(extras@));
    // The SHAs on any listed branch's ref.
    let mut on: Vec<String> = Vec::new();
    let mut b: usize = 0;
    while b < bs.len()
        invariant
            b <= bs.len(),
            views(on@) == on_shas_all(bs@.take(b as int)),
        decreases bs.len() - b,
    {
        proof {
            assert(bs@.take(b + 1).drop_last() =~= bs@.take(b as int));
        }
        let ghost before = views(on@);
        let cs_b = &bs[b].commits;
        let mut c: usize = 0;
        while c < cs_b.len()
            invariant
                c <= cs_b.len(),
                views(on@) == before + on_shas_of(commit_views(cs_b@.take(c as int))),
            decreases cs_b.len() - c,
        {
            proof {
                assert(commit_views(cs_b@.take(c + 1)).drop_last() =~= commit_views(cs_b@.take(c as int)));
            }
            if cs_b[c].on_branch {
                let ghost prev = on@;
                on.push(cs_b[c].sha.clone());
                assert(views(on@) =~= views(prev).push(cs_b@[c as int].sha@));
            }
            c = c + 1;
        }
        assert(cs_b@.take(cs_b@.len() as int) =~= cs_b@);
        b = b + 1;
    }
    assert(bs@.take(bs@.len() as int) =~= bs@);
    let mut unassigned: Vec<CommitInfo> = Vec::new();
    let mut u: usize = 0;
    while u < unassigned0.len()
        invariant
            u <= unassigned0.len(),
            commit_views(unassigned@) == keep_off(commit_views(unassigned0@).take(u as int), views(on@)),
        decreases unassigned0.len() - u,
    {
        proof {
            assert(commit_views(unassigned0@).take(u + 1).drop_last() =~= commit_views(unassigned0@).take(u as int));
        }
        if !contains_string(&on, unassigned0[u].sha.as_str()) {
            let ghost prev = unassigned@;
            unassigned.push(
                CommitInfo {
                    sha: unassigned0[u].sha.clone(),
                    message: unassigned0[u].message.clone(),
                    branch: unassigned0[u].branch.clone(),
                    on_branch: unassigned0[u].on_branch,
                },
            );
            assert(commit_views(unassigned@) =~= commit_views(prev).push(commit_view(unassigned0@[u as int])));
        }
        u = u + 1;
    }
    assert(commit_views(unassigned0@).take(unassigned0@.len() as int) =~= commit_views(unassigned0@));
    let mv = match &state.mv_rebase_conflict {
        Some(c) => {
            if cherry_pick_active {
                Some(c.copy())
            } else {
                None
            }
        },
        None => None,
    };
    if mv.is_none() && state.mv_rebase_conflict.is_some() {
        state.mv_rebase_conflict = None;
    }
    let logs = logger.drain();
    let prio_result = if stale_cleared {
        PrioResult::warning(
            String::from_str(
                "Stale conflict flag cleared \u{2014} prio-mc has no active merge or cherry-pick in progress. Status is clean.",
            ),
            logs,
        )
    } else {
        PrioResult::success(String::from_str("Status loaded."), logs)
    };
    StatusResult {
        data: StatusData {
            applied_branches: bs,
            unassigned_commits: unassigned,
            merge_conflict,
            mv_rebase_conflict: mv,
        },
        prio_result,
    }
}

/// The pull request of a branch, from gh's answer to
/// `gh pr list --head <branch> --json number,url --limit 1`: the number (cut to 32
/// bits) and the URL of the first one listed.
pub fn pr_info(branch: &str, json: &str) -> (r: PrInfo)
    ensures
        r.branch@ == branch@,
        r.number == match json_first_member_u64(json@, "number"@) {
            Some(n) => Some(n as u32),
            None => None,
        },
        opt_view(r.url) == json_first_member_text(json@, "url"@),
{
    let number = match first_member_u64(json, "number") {
        Some(n) => Some(n as u32),
        None => None,
    };
    let url = first_member_text(json, "url");
    PrInfo { branch: owned(branch), number, url }
}

/// The first `n` characters of a SHA (all of it when shorter).
pub open spec fn short_sha(sha: Seq<char>, n: int) -> Seq<char> {
    if n < sha.len() {
        sha.take(n)
    } else {
        sha
    }
}

fn push_line(v: &mut Vec<String>, line: String)
    ensures
        views(final(v)@) == views(old(v)@).push(line@),
{
    let ghost prev = v@;
    v.push(line);
    assert(views(v@) =~= views(prev).push(line@));
}

/// The banner for a cherry-pick conflict left by `prio mv` or `prio cp`.
pub open spec fn mv_banner(i: MvRebaseConflict) -> Seq<Seq<char>> {
    let short = short_sha(i.conflicting_commit@, 12);
    let dest = i.dest_branch@;
    let head = if i.phase@ == "cp"@ {
        seq![
            "\u{26a0}  Cherry-pick conflict copying "@ + short + " to '"@ + dest + "' (prio cp):"@,
            "   Resolve the conflict, then continue the cherry-pick on '"@ + dest + "'."@,
        ]
    } else if i.phase@ == "dest"@ {
        seq![
            "\u{26a0}  Cherry-pick conflict adding "@ + short + " to '"@ + dest + "' (prio mv):"@,
            "   Resolve the conflict, then commit to apply '"@ + short + "' onto '"@ + dest + "'."@,
        ]
    } else {
        seq![
            "\u{26a0}  Cherry-pick conflict rebasing '"@ + i.source_branch@ + "' for prio mv:"@,
            "   Conflicting commit: "@ + short + "  (dest '"@ + dest + "' already updated \u{2713})"@,
        ]
    };
    let active = if i.phase@ == "dest"@ || i.phase@ == "cp"@ {
        dest
    } else {
        i.source_branch@
    };
    head + seq![
        Seq::<char>::empty(),
        "   Resolve conflicts in: "@ + i.mc_path@,
        "   Branch: "@ + active,
        Seq::<char>::empty(),
        "   To accept and continue:"@,
        "     git -C \""@ + i.mc_path@ + "\" cherry-pick --continue"@,
        "   Prio will automatically complete the operation after you commit."@,
        Seq::<char>::empty(),
        "   To abort:"@,
        "     prio abort"@,
        Seq::<char>::empty(),
    ]
}

fn mv_banner_lines(i: &MvRebaseConflict) -> (r: Vec<String>)
    ensures
        views(r@) == mv_banner(*i),
{
    let short = prefix_chars(i.conflicting_commit.as_str(), 12);
    let dest = i.dest_branch.as_str();
    let mut v: Vec<String> = Vec::new();
    let is_cp = str_eq(i.phase.as_str(), "cp");
    let is_dest = str_eq(i.phase.as_str(), "dest");
    if is_cp {
        let mut a = concat3("\u{26a0}  Cherry-pick conflict copying ", short.as_str(), " to '");
        a.append(dest);
        a.append("' (prio cp):");
        push_line(&mut v, a);
        let b = concat3("   Resolve the conflict, then continue the cherry-pick on '", dest, "'.");
        push_line(&mut v, b);
    } else if is_dest {
        let mut a = concat3("\u{26a0}  Cherry-pick conflict adding ", short.as_str(), " to '");
        a.append(dest);
        a.append("' (prio mv):");
        push_line(&mut v, a);
        let mut b = concat3("   Resolve the conflict, then commit to apply '", short.as_str(), "' onto '");
        b.append(dest);
        b.append("'.");
        push_line(&mut v, b);
    } else {
        let a = concat3("\u{26a0}  Cherry-pick conflict rebasing '", i.source_branch.as_str(), "' for prio mv:");
        push_line(&mut v, a);
        let mut b = concat3("   Conflicting commit: ", short.as_str(), "  (dest '");
        b.append(dest);
        b.append("' already updated \u{2713})");
        push_line(&mut v, b);
    }
    let active = if is_dest || is_cp {
        dest
    } else {
        i.source_branch.as_str()
    };
    push_line(&mut v, String::new());
    push_line(&mut v, concat2("   Resolve conflicts in: ", i.mc_path.as_str()));
    push_line(&mut v, concat2("   Branch: ", active));
    push_line(&mut v, String::new());
    push_line(&mut v, String::from_str("   To accept and continue:"));
    push_line(&mut v, concat3("     git -C \"", i.mc_path.as_str(), "\" cherry-pick --continue"));
    push_line(&mut v, String::from_str("   Prio will automatically complete the operation after you commit."));
    push_line(&mut v, String::new());
    push_line(&mut v, String::from_str("   To abort:"));
    push_line(&mut v, String::from_str("     prio abort"));
    push_line(&mut v, String::new());
    assert(views(v@) =~= mv_banner(*i));
    v
}

/// The banner for a merge conflict waiting in prio-mc.
pub open spec fn merge_banner(i: MergeConflictInfo) -> Seq<Seq<char>> {
    seq![
        "\u{26a0}  Merge conflict in prio-mc"@,
        "   Incoming: "@ + i.incoming_branch@ + "  \u{2192}  merging into: ("@ + i.base_desc@ + ")"@,
    ] + (if i.merge_branch@.len() > 0 {
        seq!["   Branch:   "@ + i.merge_branch@]
    } else {
        Seq::<Seq<char>>::empty()
    }) + seq![
        Seq::<char>::empty(),
        "   Resolve conflicts in:  "@ + i.mc_path@,
        "   When done, run:"@,
        "     git -C \""@ + i.mc_path@ + "\" commit --no-edit"@,
        "   Prio will automatically finish applying the remaining branches."@,
        "   (Or run `prio unapply "@ + i.incoming_branch@ + "` to discard and cancel.)"@,
        Seq::<char>::empty(),
    ]
}

fn merge_banner_lines(i: &MergeConflictInfo) -> (r: Vec<String>)
    ensures
        views(r@) == merge_banner(*i),
{
    let mut v: Vec<String> = Vec::new();
    push_line(&mut v, String::from_str("\u{26a0}  Merge conflict in prio-mc"));
    let mut a = concat3("   Incoming: ", i.incoming_branch.as_str(), "  \u{2192}  merging into: (");
    a.append(i.base_desc.as_str());
    a.append(")");
    push_line(&mut v, a);
    let ghost head = views(v@);
    if i.merge_branch.as_str().unicode_len() > 0 {
        push_line(&mut v, concat2("   Branch:   ", i.merge_branch.as_str()));
    }
    let ghost mid = views(v@);
    push_line(&mut v, String::new());
    push_line(&mut v, concat2("   Resolve conflicts in:  ", i.mc_path.as_str()));
    push_line(&mut v, String::from_str("   When done, run:"));
    push_line(&mut v, concat3("     git -C \"", i.mc_path.as_str(), "\" commit --no-edit"));
    push_line(&mut v, String::from_str("   Prio will automatically finish applying the remaining branches."));
    push_line(&mut v, concat3("   (Or run `prio unapply ", i.incoming_branch.as_str(), "` to discard and cancel.)"));
    push_line(&mut v, String::new());
    assert(views(v@) =~= merge_banner(*i));
    v
}

/// The icon and note of a branch's apply status.
pub open spec fn status_marks(s: Option<Seq<char>>) -> (Seq<char>, Seq<char>) {
    if s == Some("merged"@) {
        ("\u{21bb}"@, " (merged in prio-mc \u{2014} awaiting conflict resolution)"@)
    } else if s == Some("conflict"@) {
        ("\u{2717}"@, " \u{2190} merge conflict here"@)
    } else if s == Some("pending"@) {
        ("\u{b7}"@, " (pending)"@)
    } else {
        ("\u{2713}"@, Seq::<char>::empty())
    }
}

/// The pull-request tag of a branch line: its URL, else its number.
pub open spec fn pr_tag(url: Option<Seq<char>>, number: Option<u32>) -> Seq<char> {
    match url {
        Some(u) => "  "@ + u,
        None => match number {
            Some(n) => "  (PR #"@ + decimal(n as nat) + ")"@,
            None => Seq::<char>::empty(),
        },
    }
}

/// A branch's header line followed by a line per commit.
pub open spec fn branch_block(b: BranchInfo) -> Seq<Seq<char>> {
    let (icon, note) = status_marks(opt_view(b.apply_status));
    let stack_label = if b.stacked_after@.len() == 0 {
        Seq::<char>::empty()
    } else {
        "  (stacked after: "@ + join_spec(views(b.stacked_after@), ", "@) + ")"@
    };
    seq!["  "@ + icon + "  "@ + b.name@ + pr_tag(opt_view(b.pr_url), b.pr_number) + note + stack_label]
        + b.commits@.map_values(|c: CommitInfo| "       "@ + short_sha(c.sha@, 7) + "  "@ + c.message@ + (if c.on_branch {
        Seq::<char>::empty()
    } else {
        "  (pending apply)"@
    }))
}

fn branch_block_lines(b: &BranchInfo) -> (r: Vec<String>)
    ensures
        views(r@) == branch_block(*b),
{
    proof {
        reveal_strlit("merged");
        reveal_strlit("conflict");
        reveal_strlit("pending");
    }
    let (icon, note) = match &b.apply_status {
        Some(st) => {
            if str_eq(st.as_str(), "merged") {
                (String::from_str("\u{21bb}"), String::from_str(" (merged in prio-mc \u{2014} awaiting conflict resolution)"))
            } else if str_eq(st.as_str(), "conflict") {
                (String::from_str("\u{2717}"), String::from_str(" \u{2190} merge conflict here"))
            } else if str_eq(st.as_str(), "pending") {
                (String::from_str("\u{b7}"), String::from_str(" (pending)"))
            } else {
                (String::from_str("\u{2713}"), String::new())
            }
        },
        None => (String::from_str("\u{2713}"), String::new()),
    };
    let tag = match &b.pr_url {
        Some(u) => concat2("  ", u.as_str()),
        None => match b.pr_number {
            Some(n) => {
                let d = decimal_string(n as u64);
                concat3("  (PR #", d.as_str(), ")")
            },
            None => String::new(),
        },
    };
    let stack_label = if b.stacked_after.len() == 0 {
        String::new()
    } else {
        let j = join(&b.stacked_after, ", ");
        concat3("  (stacked after: ", j.as_str(), ")")
    };
    let mut head = concat3("  ", icon.as_str(), "  ");
    head.append(b.name.as_str());
    head.append(tag.as_str());
    head.append(note.as_str());
    head.append(stack_label.as_str());
    let mut v: Vec<String> = Vec::new();
    push_line(&mut v, head);
    let mut k: usize = 0;
    while k < b.commits.len()
        invariant
            k <= b.commits.len(),
            views(v@) == branch_block(*b).take(k + 1),
        decreases b.commits.len() - k,
    {
        let c = &b.commits[k];
        let sha = prefix_chars(c.sha.as_str(), 7);
        let mut line = concat3("       ", sha.as_str(), "  ");
        line.append(c.message.as_str());
        if !c.on_branch {
            line.append("  (pending apply)");
        }
        let ghost prev = views(v@);
        push_line(&mut v, line);
        assert(branch_block(*b).take(k + 2) =~= prev.push(line@));
        k = k + 1;
    }
    assert(branch_block(*b).take(b.commits.len() + 1) =~= branch_block(*b));
    v
}

/// The lines of all branch blocks, in order.
pub open spec fn branch_blocks(bs: Seq<BranchInfo>) -> Seq<Seq<char>>
    decreases bs.len(),
{
    if bs.len() == 0 {
        Seq::empty()
    } else {
        branch_blocks(bs.drop_last()) + branch_block(bs.last())
    }
}

/// The "Applied Branches" section.
pub open spec fn applied_section(bs: Seq<BranchInfo>) -> Seq<Seq<char>> {
    seq!["Applied Branches:"@] + if bs.len() == 0 {
        seq!["  (none)"@]
    } else {
        branch_blocks(bs)
    }
}

/// The "Unassigned Commits" section (its title line starts with a newline).
pub open spec fn unassigned_section(us: Seq<CommitInfo>) -> Seq<Seq<char>> {
    seq!["\nUnassigned Commits:"@] + if us.len() == 0 {
        seq!["  (none)"@]
    } else {
        us.map_values(|c: CommitInfo| "  "@ + short_sha(c.sha@, 7) + "  "@ + c.message@)
    }
}

/// How many listed commits are not yet on their branch's ref.
pub open spec fn pending_count(bs: Seq<BranchInfo>) -> nat
    decreases bs.len(),
{
    if bs.len() == 0 {
        0
    } else {
        pending_count(bs.drop_last()) + off_count(bs.last().commits@)
    }
}

pub open spec fn off_count(cs: Seq<CommitInfo>) -> nat
    decreases cs.len(),
{
    if cs.len() == 0 {
        0
    } else {
        off_count(cs.drop_last()) + if cs.last().on_branch {
            0nat
        } else {
            1nat
        }
    }
}

/// The advice shown when commits are assigned but not yet in the work area.
pub open spec fn recovery_section(count: nat, has_unassigned: bool) -> Seq<Seq<char>> {
    if count == 0 {
        Seq::empty()
    } else {
        seq![
            Seq::<char>::empty(),
            "\u{26a0}  "@ + decimal(count)
                + " commit(s) are assigned to a branch in prio metadata but not yet in the merged work area (see \"pending apply\" above)."@,
            "   This usually means `prio apply` did not run after a move, or was interrupted."@,
            Seq::<char>::empty(),
            if has_unassigned {
                "   Recovery: assign unassigned commits (`prio mv <sha> <branch>`), then run `prio apply`."@
            } else {
                "   Recovery: run `prio apply` to rebuild the work area."@
            },
            "   Warning: `prio apply` discards any above-baseline commits still unassigned."@,
        ]
    }
}

/// What `prio status` prints on the command line, line by line.
pub open spec fn cli_lines_spec(st: StatusResult) -> Seq<Seq<char>> {
    (match st.data.mv_rebase_conflict {
        Some(i) => mv_banner(i),
        None => Seq::empty(),
    }) + (match st.data.merge_conflict {
        Some(i) => merge_banner(i),
        None => Seq::empty(),
    }) + applied_section(st.data.applied_branches@) + unassigned_section(st.data.unassigned_commits@)
        + recovery_section(
        pending_count(st.data.applied_branches@),
        st.data.unassigned_commits@.len() > 0,
    )
}

fn applied_section_lines(bs: &Vec<BranchInfo>) -> (r: Vec<String>)
    ensures
        views(r@) == applied_section(bs@),
{
    let mut v: Vec<String> = Vec::new();
    push_line(&mut v, String::from_str("Applied Branches:"));
    if bs.len() == 0 {
        push_line(&mut v, String::from_str("  (none)"));
    } else {
        let ghost start = views(v@);
        let mut b: usize = 0;
        while b < bs.len()
            invariant
                b <= bs.len(),
                views(v@) == start + branch_blocks(bs@.take(b as int)),
            decreases bs.len() - b,
        {
            proof {
                assert(bs@.take(b + 1).drop_last() =~= bs@.take(b as int));
            }
            extend_strings(&mut v, branch_block_lines(&bs[b]));
            b = b + 1;
        }
        assert(bs@.take(bs@.len() as int) =~= bs@);
    }
    assert(views(v@) =~= applied_section(bs@));
    v
}

fn unassigned_section_lines(us: &Vec<CommitInfo>) -> (r: Vec<String>)
    ensures
        views(r@) == unassigned_section(us@),
{
    let mut v: Vec<String> = Vec::new();
    push_line(&mut v, String::from_str("\nUnassigned Commits:"));
    if us.len() == 0 {
        push_line(&mut v, String::from_str("  (none)"));
    } else {
        let ghost start = views(v@);
        let mut k: usize = 0;
        while k < us.len()
            invariant
                k <= us.len(),
                views(v@) == start + us@.take(k as int).map_values(
                    |c: CommitInfo| "  "@ + short_sha(c.sha@, 7) + "  "@ + c.message@,
                ),
            decreases us.len() - k,
        {
            let sha = prefix_chars(us[k].sha.as_str(), 7);
            let mut line = concat3("  ", sha.as_str(), "  ");
            line.append(us[k].message.as_str());
            push_line(&mut v, line);
            assert(us@.take(k + 1).map_values(|c: CommitInfo| "  "@ + short_sha(c.sha@, 7) + "  "@ + c.message@)
                =~= us@.take(k as int).map_values(|c: CommitInfo| "  "@ + short_sha(c.sha@, 7) + "  "@ + c.message@).push(line@));
            k = k + 1;
        }
        assert(us@.take(us@.len() as int) =~= us@);
    }
    assert(views(v@) =~= unassigned_section(us@));
    v
}

fn count_pending(bs: &Vec<BranchInfo>) -> (r: u64)
    requires
        pending_count(bs@) <= u64::MAX,
    ensures
        r == pending_count(bs@),
{
    let mut count: u64 = 0;
    let mut b: usize = 0;
    while b < bs.len()
        invariant
            b <= bs.len(),
            pending_count(bs@) <= u64::MAX,
            count == pending_count(bs@.take(b as int)),
        decreases bs.len() - b,
    {
        proof {
            assert(bs@.take(b + 1).drop_last() =~= bs@.take(b as int));
            lemma_pending_count_prefix(bs@, b + 1);
        }
        let cs = &bs[b].commits;
        let ghost base = count;
        let mut c: usize = 0;
        while c < cs.len()
            invariant
                c <= cs.len(),
                base + off_count(cs@) <= u64::MAX,
                count == base + off_count(cs@.take(c as int)),
            decreases cs.len() - c,
        {
            proof {
                assert(cs@.take(c + 1).drop_last() =~= cs@.take(c as int));
                lemma_off_count_prefix(cs@, c + 1);
            }
            if !cs[c].on_branch {
                count = count + 1;
            }
            c = c + 1;
        }
        assert(cs@.take(cs@.len() as int) =~= cs@);
        b = b + 1;
    }
    assert(bs@.take(bs@.len() as int) =~= bs@);
    count
}

fn recovery_lines(count: u64, has_unassigned: bool) -> (r: Vec<String>)
    ensures
        views(r@) == recovery_section(count as nat, has_unassigned),
{
    let mut v: Vec<String> = Vec::new();
    if count > 0 {
        push_line(&mut v, String::new());
        let d = decimal_string(count);
        let mut line = concat2("\u{26a0}  ", d.as_str());
        line.append(
            " commit(s) are assigned to a branch in prio metadata but not yet in the merged work area (see \"pending apply\" above).",
        );
        push_line(&mut v, line);
        push_line(
            &mut v,
            String::from_str("   This usually means `prio apply` did not run after a move, or was interrupted."),
        );
        push_line(&mut v, String::new());
        if has_unassigned {
            push_line(
                &mut v,
                String::from_str(
                    "   Recovery: assign unassigned commits (`prio mv <sha> <branch>`), then run `prio apply`.",
                ),
            );
        } else {
            push_line(&mut v, String::from_str("   Recovery: run `prio apply` to rebuild the work area."));
        }
        push_line(
            &mut v,
            String::from_str("   Warning: `prio apply` discards any above-baseline commits still unassigned."),
        );
    }
    assert(views(v@) =~= recovery_section(count as nat, has_unassigned));
    v
}

/// The lines `prio status` prints on the command line (the caller prints each).
pub fn cli_lines(status: &StatusResult) -> (r: Vec<String>)
    requires
        pending_count(status.data.applied_branches@) <= u64::MAX,
    ensures
        views(r@) == cli_lines_spec(*status),
{
    let mut v: Vec<String> = Vec::new();
    match &status.data.mv_rebase_conflict {
        Some(i) => extend_strings(&mut v, mv_banner_lines(i)),
        None => {},
    }
    let ghost a = views(v@);
    match &status.data.merge_conflict {
        Some(i) => extend_strings(&mut v, merge_banner_lines(i)),
        None => {},
    }
    let ghost b = views(v@);
    extend_strings(&mut v, applied_section_lines(&status.data.applied_branches));
    extend_strings(&mut v, unassigned_section_lines(&status.data.unassigned_commits));
    let count = count_pending(&status.data.applied_branches);
    extend_strings(&mut v, recovery_lines(count, status.data.unassigned_commits.len() > 0));
    assert(views(v@) =~= cli_lines_spec(*status));
    v
}

proof fn lemma_off_count_prefix(cs: Seq<CommitInfo>, k: int)
    requires
        0 <= k <= cs.len(),
    ensures
        off_count(cs.take(k)) <= off_count(cs),
    decreases cs.len(),
{
    if k < cs.len() {
        assert(cs.drop_last().take(k) =~= cs.take(k));
        lemma_off_count_prefix(cs.drop_last(), k);
    } else {
        assert(cs.take(k) =~= cs);
    }
}

proof fn lemma_pending_count_prefix(bs: Seq<BranchInfo>, k: int)
    requires
        0 <= k <= bs.len(),
    ensures
        pending_count(bs.take(k)) <= pending_count(bs),
    decreases bs.len(),
{
    if k < bs.len() {
        assert(bs.drop_last().take(k) =~= bs.take(k));
        lemma_pending_count_prefix(bs.drop_last(), k);
    } else {
        assert(bs.take(k) =~= bs);
    }
}

/// The arguments of `git log` that list the commits of an applied branch: those
/// between the default branch and its tip, or, when it is stacked, those reachable
/// from its tip but not from the default branch nor any dependency tip (the final
/// `--` keeps branch names from being read as paths).
pub fn branch_log_args(default_branch: &str, tip: &str, dep_tips: &Vec<String>) -> (r: Vec<String>)
    ensures
        dep_tips@.len() == 0 ==> views(r@) == seq!["log"@, default_branch@ + ".."@ + tip@, "--format=%H|%s"@],
        dep_tips@.len() > 0 ==> views(r@) == seq!["log"@, tip@, "--not"@, default_branch@] + views(dep_tips@)
            + seq!["--format=%H|%s"@, "--"@],
{
    let mut v: Vec<String> = Vec::new();
    push_string(&mut v, String::from_str("log"));
    if dep_tips.len() == 0 {
        push_string(&mut v, concat3(default_branch, "..", tip));
        push_string(&mut v, String::from_str("--format=%H|%s"));
        assert(views(v@) =~= seq!["log"@, default_branch@ + ".."@ + tip@, "--format=%H|%s"@]);
    } else {
        push_string(&mut v, owned(tip));
        push_string(&mut v, String::from_str("--not"));
        push_string(&mut v, owned(default_branch));
        extend_strings(&mut v, copy_strings(dep_tips));
        push_string(&mut v, String::from_str("--format=%H|%s"));
        push_string(&mut v, String::from_str("--"));
        assert(views(v@) =~= seq!["log"@, tip@, "--not"@, default_branch@] + views(dep_tips@)
            + seq!["--format=%H|%s"@, "--"@]);
    }
    v
}

} // verus!
