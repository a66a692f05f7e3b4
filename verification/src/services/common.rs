//! Decisions shared by the prio commands: where the prio-mc clone lives, which
//! branch owns a commit, which ref best represents a branch, and how git's
//! answers about commits and branches are read.
use vstd::prelude::*;
use vstd::string::StringExecFns;
use crate::error::PrioError;
use crate::git::runner::{branch_not_found, branch_not_found_text};
use crate::storage::repo_state::{RepoConfig, RepoState};
use crate::storage::user_config::{find_repo_by_path, first_with_path, RepoRecord};
use crate::strings::{
    concat2, contains_str, contains_string, has_prefix, has_substring, lines_spec, nonempty_lines,
    nonempty_only, output_lines, output_lines_spec, owned, starts_with, str_eq, views,
};
use crate::util::{dir_part, join_path, lemma_dir_name, name_part, path_join, split_path, trim_seps};

verus! {

/// The default location of the prio-mc clone: `<name>-prio-mc` beside the work
/// clone (`repo` when the path has no last component).
pub open spec fn default_mc_path_spec(repo: Seq<char>) -> Seq<char> {
    let name = name_part(repo);
    let n = if name.len() == 0 {
        "repo"@
    } else {
        name
    };
    let parent = if trim_seps(repo).len() == 0 {
        repo
    } else {
        dir_part(repo)
    };
    path_join(parent, n + "-prio-mc"@)
}

pub fn default_mc_path(repo_path: &str) -> (r: String)
    ensures
        r@ == default_mc_path_spec(repo_path@),
{
    let (dir, name) = split_path(repo_path);
    proof {
        lemma_dir_name(repo_path@);
    }
    let bare = dir.as_str().unicode_len() == 0 && name.as_str().unicode_len() == 0;
    let n = if name.as_str().unicode_len() == 0 {
        String::from_str("repo")
    } else {
        name
    };
    let seg = concat2(n.as_str(), "-prio-mc");
    if bare {
        join_path(repo_path, seg.as_str())
    } else {
        join_path(dir.as_str(), seg.as_str())
    }
}

/// The prio-mc clone of a repository: the override when given, else the clone
/// recorded for the repository's path, else the default location.
pub fn mc_path_for_repo(repo_path: &str, mc_override: Option<String>, repos: &Vec<RepoRecord>) -> (r: String)
    ensures
        match mc_override {
            Some(p) => r == p,
            None => if exists|i: int| first_with_path(repos@, repo_path@, i) {
                exists|i: int| first_with_path(repos@, repo_path@, i) && r@ == repos@[i].mc_clone_path@
            } else {
                r@ == default_mc_path_spec(repo_path@)
            },
        },
{
    if let Some(p) = mc_override {
        return p;
    }
    match find_repo_by_path(repos, repo_path) {
        Some(record) => record.mc_clone_path,
        None => default_mc_path(repo_path),
    }
}

/// `Ok` when the work clone is on its work branch; otherwise prio is inactive.
pub fn assert_on_work_branch(config: &RepoConfig, current: &str) -> (r: Result<(), PrioError>)
    ensures
        current@ == config.work_branch@ ==> r is Ok,
        current@ != config.work_branch@ ==> match r {
            Err(PrioError::Inactive { work_branch, current_branch }) => work_branch@
                == config.work_branch@ && current_branch@ == current@,
            _ => false,
        },
{
    if !str_eq(current, config.work_branch.as_str()) {
        return Err(
            PrioError::Inactive { work_branch: config.work_branch.clone(), current_branch: owned(current) },
        );
    }
    Ok(())
}

/// A commit argument that names a range (`a..b`), to be listed with `git rev-list`.
pub fn is_commit_range(arg: &str) -> (r: bool)
    ensures
        r == has_substring(arg@, ".."@),
{
    contains_str(arg, "..")
}

/// Commit arguments with each range replaced by the commits it lists.
pub open spec fn expanded_commits(args: Seq<Seq<char>>, listings: Seq<Seq<char>>) -> Seq<Seq<char>>
    decreases args.len(),
{
    if args.len() == 0 {
        Seq::empty()
    } else {
        expanded_commits(args.drop_last(), listings.drop_last()) + if has_substring(
            args.last(),
            ".."@,
        ) {
            nonempty_only(lines_spec(listings.last()))
        } else {
            seq![args.last()]
        }
    }
}

/// Expands commit arguments: `listings[i]` is the output of
/// `git rev-list --reverse <commits[i]>` for a range argument (unused otherwise).
pub fn expand_commit_args(commits: &Vec<String>, listings: &Vec<String>) -> (r: Vec<String>)
    requires
        listings.len() == commits.len(),
    ensures
        views(r@) == expanded_commits(views(commits@), views(listings@)),
{
    let mut out: Vec<String> = Vec::new();
    let mut i: usize = 0;
    while i < commits.len()
        invariant
            i <= commits.len(),
            listings.len() == commits.len(),
            views(out@) == expanded_commits(views(commits@).take(i as int), views(listings@).take(i as int)),
        decreases commits.len() - i,
    {
        proof {
            assert(views(commits@).take(i + 1).drop_last() =~= views(commits@).take(i as int));
            assert(views(listings@).take(i + 1).drop_last() =~= views(listings@).take(i as int));
        }
        let ghost before = views(out@);
        if is_commit_range(commits[i].as_str()) {
            let shas = nonempty_lines(listings[i].as_str());
            let mut k: usize = 0;
            while k < shas.len()
                invariant
                    k <= shas.len(),
                    views(out@) == before + views(shas@).take(k as int),
                decreases shas.len() - k,
            {
                let ghost prev = out@;
                out.push(shas[k].clone());
                assert(views(out@) =~= views(prev).push(shas@[k as int]@));
                assert(views(shas@).take(k + 1) =~= views(shas@).take(k as int).push(shas@[k as int]@));
                assert(views(out@) =~= before + views(shas@).take(k + 1));
                k = k + 1;
            }
            assert(views(shas@).take(shas@.len() as int) =~= views(shas@));
        } else {
            out.push(commits[i].clone());
            assert(views(out@) =~= before + seq![commits@[i as int]@]);
        }
        i = i + 1;
    }
    proof {
        assert(views(commits@).take(commits@.len() as int) =~= views(commits@));
        assert(views(listings@).take(listings@.len() as int) =~= views(listings@));
    }
    out
}

/// The ref whose tip best represents a branch in the work repo.
///
/// `prio mv` pushes from prio-mc into the work repo's `refs/heads/<branch>` but not
/// into `refs/remotes/origin/<branch>`, so when both exist the one that contains the
/// other wins, and the local one when they diverged. `has_local` and `has_origin`
/// tell whether `<branch>` and `origin/<branch>` resolve; the ancestry answers are
/// read only when both do.
pub open spec fn tip_choice(has_local: bool, has_origin: bool, origin_in_local: bool, local_in_origin: bool) -> int {
    if has_local && has_origin {
        if origin_in_local || !local_in_origin {
            0
        } else {
            1
        }
    } else if has_local {
        0
    } else if has_origin {
        1
    } else {
        -1
    }
}

pub fn branch_tip_ref(
    branch: &str,
    has_local: bool,
    has_origin: bool,
    origin_in_local: bool,
    local_in_origin: bool,
) -> (r: Result<String, PrioError>)
    ensures
        tip_choice(has_local, has_origin, origin_in_local, local_in_origin) == 0 ==> (r matches Ok(
            t,
        ) && t@ == branch@),
        tip_choice(has_local, has_origin, origin_in_local, local_in_origin) == 1 ==> (r matches Ok(
            t,
        ) && t@ == "origin/"@ + branch@),
        tip_choice(has_local, has_origin, origin_in_local, local_in_origin) == -1 ==> (r matches Err(
            PrioError::Message(m),
        ) && m@ == branch_not_found_text(branch@)),
{
    let local = owned(branch);
    let origin = concat2("origin/", branch);
    if has_local && has_origin {
        if origin_in_local {
            Ok(local)
        } else if local_in_origin {
            Ok(origin)
        } else {
            Ok(local)
        }
    } else if has_local {
        Ok(local)
    } else if has_origin {
        Ok(origin)
    } else {
        Err(branch_not_found(branch))
    }
}

/// `i` is the first applied branch found to contain the commit.
pub open spec fn first_containing(contains: Seq<bool>, i: int) -> bool {
    &&& 0 <= i < contains.len()
    &&& contains[i]
    &&& forall|j: int| 0 <= j < i ==> !contains[j]
}

/// Which applied branch a commit belongs to: the first whose tip has the commit in
/// its history (`contains[i]` says so of `applied[i]`, false when its tip did not
/// resolve). `None` when no applied branch has it.
pub fn find_commit_source_branch(applied: &Vec<String>, contains: &Vec<bool>) -> (r: Option<String>)
    requires
        contains.len() == applied.len(),
    ensures
        r is None <==> forall|j: int| 0 <= j < contains@.len() ==> !contains@[j],
        r matches Some(b) ==> exists|i: int| first_containing(contains@, i) && b@ == applied@[i]@,
{
    let mut i: usize = 0;
    while i < applied.len()
        invariant
            i <= applied.len(),
            contains.len() == applied.len(),
            forall|j: int| 0 <= j < i ==> !contains@[j],
        decreases applied.len() - i,
    {
        if contains[i] {
            assert(first_containing(contains@, i as int));
            return Some(applied[i].clone());
        }
        i = i + 1;
    }
    None
}

/// The branch a work-area commit is assigned to: its own assignment, else the
/// assignment of the cherry-pick it was mapped to, else `.` (unassigned).
pub open spec fn assignment_spec(sha: Seq<char>, state: RepoState) -> Seq<char> {
    let a = state.commit_assignments@;
    let m = state.commit_map@;
    if a.dom().contains(sha) {
        a[sha]@
    } else if m.dom().contains(sha) && a.dom().contains(m[sha]@) {
        a[m[sha]@]@
    } else {
        "."@
    }
}

/// Assignment for a work-area commit, following [`RepoState::commit_map`] after cherry-pick.
pub fn assignment_for_work_sha(sha: &str, state: &RepoState) -> (r: String)
    ensures
        r@ == assignment_spec(sha@, *state),
{
    if let Some(branch) = state.commit_assignments.get(sha) {
        return branch.clone();
    }
    if let Some(mapped) = state.commit_map.get(sha) {
        if let Some(branch) = state.commit_assignments.get(mapped.as_str()) {
            return branch.clone();
        }
    }
    String::from_str(".")
}

/// The commits of `shas` that are unassigned in `state`.
pub open spec fn unassigned_spec(shas: Seq<Seq<char>>, state: RepoState) -> Seq<Seq<char>>
    decreases shas.len(),
{
    if shas.len() == 0 {
        Seq::empty()
    } else {
        let p = unassigned_spec(shas.drop_last(), state);
        if assignment_spec(shas.last(), state) == "."@ {
            p.push(shas.last())
        } else {
            p
        }
    }
}

/// SHAs on the work branch above baseline that are still unassigned, from the output
/// of `git log <baseline>..HEAD --format=%H`.
pub fn unassigned_work_shas(log: &str, state: &RepoState) -> (r: Vec<String>)
    ensures
        views(r@) == unassigned_spec(output_lines_spec(log@), *state),
{
    proof {
        reveal_strlit(".");
    }
    let shas = output_lines(log);
    let mut r: Vec<String> = Vec::new();
    let mut i: usize = 0;
    while i < shas.len()
        invariant
            i <= shas.len(),
            views(r@) == unassigned_spec(views(shas@).take(i as int), *state),
        decreases shas.len() - i,
    {
        proof {
            assert(views(shas@).take(i + 1).drop_last() =~= views(shas@).take(i as int));
        }
        let a = assignment_for_work_sha(shas[i].as_str(), state);
        let ghost before = r@;
        if str_eq(a.as_str(), ".") {
            r.push(shas[i].clone());
            assert(views(r@) =~= views(before).push(shas@[i as int]@));
        }
        i = i + 1;
    }
    assert(views(shas@).take(shas@.len() as int) =~= views(shas@));
    r
}

/// Result of attempting a cherry-pick in prio-mc.
pub enum CherryPickOnMc {
    /// Cherry-pick created a new commit (or reused changes).
    Applied,
    /// Cherry-pick was empty (commit already present); skipped with `cherry-pick --skip`.
    SkippedEmpty,
    /// Real content conflict — cherry-pick left in progress for the user.
    Conflict,
    /// Cherry-pick refused before starting (not a conflict).
    Failed,
}

/// What a cherry-pick in prio-mc came to: `picked` when
/// `git cherry-pick --allow-empty --allow-empty-message <sha>` succeeded; otherwise
/// `head_active` when `CHERRY_PICK_HEAD` resolves afterwards, and then
/// `worktree_clean` when nothing is left to resolve (an empty duplicate, which the
/// caller skips with `git cherry-pick --skip`).
pub fn cherry_pick_on_mc(picked: bool, head_active: bool, worktree_clean: bool) -> (r: CherryPickOnMc)
    ensures
        picked ==> r is Applied,
        !picked && head_active && worktree_clean ==> r is SkippedEmpty,
        !picked && head_active && !worktree_clean ==> r is Conflict,
        !picked && !head_active ==> r is Failed,
{
    if picked {
        return CherryPickOnMc::Applied;
    }
    if head_active {
        if worktree_clean {
            return CherryPickOnMc::SkippedEmpty;
        }
        return CherryPickOnMc::Conflict;
    }
    CherryPickOnMc::Failed
}

/// The prio-mc branches to delete: those that are neither the default branch nor a
/// `prio-mc/` merge branch and have no local branch of the same name in the work clone.
pub open spec fn orphans_spec(mc: Seq<Seq<char>>, work: Seq<Seq<char>>, default_branch: Seq<char>) -> Seq<Seq<char>>
    decreases mc.len(),
{
    if mc.len() == 0 {
        Seq::empty()
    } else {
        let p = orphans_spec(mc.drop_last(), work, default_branch);
        let b = mc.last();
        if b == default_branch || has_prefix(b, "prio-mc/"@) || work.contains(b) {
            p
        } else {
            p.push(b)
        }
    }
}

/// The orphan candidates are prio-mc branches, each listed there, that the work clone
/// does not list: never the default branch, never a `prio-mc/` merge branch, whatever
/// the work clone lists; and every such listed branch is a candidate.
pub proof fn law_orphans(mc: Seq<Seq<char>>, work: Seq<Seq<char>>, default_branch: Seq<char>)
    ensures
        !orphans_spec(mc, work, default_branch).contains(default_branch),
        forall|x: Seq<char>| #[trigger] orphans_spec(mc, work, default_branch).contains(x) ==> {
            &&& mc.contains(x)
            &&& !work.contains(x)
            &&& x != default_branch
            &&& !has_prefix(x, "prio-mc/"@)
        },
        forall|x: Seq<char>| #[trigger] mc.contains(x) && !work.contains(x) && x != default_branch
            && !has_prefix(x, "prio-mc/"@) ==> orphans_spec(mc, work, default_branch).contains(x),
    decreases mc.len(),
{
    if mc.len() > 0 {
        let m0 = mc.drop_last();
        law_orphans(m0, work, default_branch);
        let r0 = orphans_spec(m0, work, default_branch);
        let r = orphans_spec(mc, work, default_branch);
        let b = mc.last();
        assert forall|x: Seq<char>| #[trigger] r.contains(x) implies {
            &&& mc.contains(x)
            &&& !work.contains(x)
            &&& x != default_branch
            &&& !has_prefix(x, "prio-mc/"@)
        } by {
            let k = choose|k: int| 0 <= k < r.len() && r[k] == x;
            if k < r0.len() {
                assert(r0[k] == x);
                assert(r0.contains(x));
                let j = choose|j: int| 0 <= j < m0.len() && m0[j] == x;
                assert(mc[j] == x);
            } else {
                assert(x == b);
                assert(mc[mc.len() - 1] == b);
            }
        }
        assert forall|x: Seq<char>| #[trigger] mc.contains(x) && !work.contains(x) && x != default_branch
            && !has_prefix(x, "prio-mc/"@) implies r.contains(x) by {
            let j = choose|j: int| 0 <= j < mc.len() && mc[j] == x;
            if j < m0.len() {
                assert(m0[j] == x);
                assert(m0.contains(x));
                let k = choose|k: int| 0 <= k < r0.len() && r0[k] == x;
                if r.len() > r0.len() {
                    assert(r[k] == r0[k]);
                }
            } else {
                assert(b == x);
                assert(r[r.len() - 1] == x);
            }
        }
    }
}

/// Branches that exist in prio-mc but not as local branches in the work clone, from
/// the outputs of `git branch --list --format=%(refname:short)` in each clone: the
/// candidates that the caller deletes in prio-mc (see [`removed_orphans`]).
pub fn cleanup_orphan_mc_branches(work_list: &str, mc_list: &str, default_branch: &str) -> (r: Vec<String>)
    ensures
        views(r@) == orphans_spec(output_lines_spec(mc_list@), output_lines_spec(work_list@), default_branch@),
{
    proof {
        reveal_strlit("prio-mc/");
    }
    let work = output_lines(work_list);
    let mc = output_lines(mc_list);
    let mut removed: Vec<String> = Vec::new();
    let mut i: usize = 0;
    while i < mc.len()
        invariant
            i <= mc.len(),
            views(work@) == output_lines_spec(work_list@),
            views(removed@) == orphans_spec(views(mc@).take(i as int), views(work@), default_branch@),
        decreases mc.len() - i,
    {
        proof {
            assert(views(mc@).take(i + 1).drop_last() =~= views(mc@).take(i as int));
        }
        let b = mc[i].as_str();
        let ghost before = removed@;
        if str_eq(b, default_branch) || starts_with(b, "prio-mc/") {
        } else if !contains_string(&work, b) {
            removed.push(mc[i].clone());
            assert(views(removed@) =~= views(before).push(mc@[i as int]@));
        }
        i = i + 1;
    }
    assert(views(mc@).take(mc@.len() as int) =~= views(mc@));
    removed
}

/// The candidates whose deletion succeeded, in order.
pub open spec fn succeeded(cands: Seq<Seq<char>>, deleted: Seq<bool>) -> Seq<Seq<char>>
    decreases cands.len(),
{
    if cands.len() == 0 || deleted.len() == 0 {
        Seq::empty()
    } else {
        let p = succeeded(cands.drop_last(), deleted.drop_last());
        if deleted.last() {
            p.push(cands.last())
        } else {
            p
        }
    }
}

/// The orphan branches actually removed from prio-mc: the candidates of
/// [`cleanup_orphan_mc_branches`] whose `git branch -D` succeeded (`deleted[i]`).
pub fn removed_orphans(candidates: &Vec<String>, deleted: &Vec<bool>) -> (r: Vec<String>)
    requires
        deleted.len() == candidates.len(),
    ensures
        views(r@) == succeeded(views(candidates@), deleted@),
{
    let mut r: Vec<String> = Vec::new();
    let mut i: usize = 0;
    while i < candidates.len()
        invariant
            i <= candidates.len(),
            deleted.len() == candidates.len(),
            views(r@) == succeeded(views(candidates@).take(i as int), deleted@.take(i as int)),
        decreases candidates.len() - i,
    {
        proof {
            assert(views(candidates@).take(i + 1).drop_last() =~= views(candidates@).take(i as int));
            assert(deleted@.take(i + 1).drop_last() =~= deleted@.take(i as int));
        }
        if deleted[i] {
            let ghost before = r@;
            r.push(candidates[i].clone());
            assert(views(r@) =~= views(before).push(candidates@[i as int]@));
        }
        i = i + 1;
    }
    assert(views(candidates@).take(candidates@.len() as int) =~= views(candidates@));
    assert(deleted@.take(deleted@.len() as int) =~= deleted@);
    r
}

/// Whether a commit is on the work branch after the current baseline, from two
/// ancestry answers: it is reachable from the work branch (`on_work_branch`) and not
/// from the baseline (`in_baseline`).
pub fn is_work_area_commit(on_work_branch: bool, in_baseline: bool) -> (r: bool)
    ensures
        r == (on_work_branch && !in_baseline),
{
    on_work_branch && !in_baseline
}

/// The views of a map's string values.
pub open spec fn value_views(m: Map<Seq<char>, String>) -> Map<Seq<char>, Seq<char>> {
    m.map_values(|v: String| v@)
}

/// `m` with each of `shas` assigned to `branch`.
pub open spec fn assign_all(m: Map<Seq<char>, Seq<char>>, shas: Seq<Seq<char>>, branch: Seq<char>) -> Map<Seq<char>, Seq<char>>
    decreases shas.len(),
{
    if shas.len() == 0 {
        m
    } else {
        assign_all(m, shas.drop_last(), branch).insert(shas.last(), branch)
    }
}

/// Assigns every work-area commit listed by `git log <baseline>..HEAD --format=%H`
/// to `branch`; the rest of the state is unchanged.
pub fn assign_work_commits_to_branch(state: &mut RepoState, log: &str, branch: &str)
    ensures
        value_views(final(state).commit_assignments@) == assign_all(
            value_views(old(state).commit_assignments@),
            output_lines_spec(log@),
            branch@,
        ),
        final(state).commit_map@ == old(state).commit_map@,
        final(state).work_branch == old(state).work_branch,
        final(state).default_branch == old(state).default_branch,
        final(state).baseline_commit == old(state).baseline_commit,
        final(state).applied_branches == old(state).applied_branches,
        final(state).stacks == old(state).stacks,
        final(state).merge_in_progress == old(state).merge_in_progress,
        final(state).pending_merge_branches == old(state).pending_merge_branches,
        final(state).pending_merge_index == old(state).pending_merge_index,
        final(state).mv_rebase_conflict == old(state).mv_rebase_conflict,
{
    let shas = output_lines(log);
    let mut i: usize = 0;
    while i < shas.len()
        invariant
            i <= shas.len(),
            value_views(state.commit_assignments@) == assign_all(
                value_views(old(state).commit_assignments@),
                views(shas@).take(i as int),
                branch@,
            ),
            views(shas@) == output_lines_spec(log@),
            state.commit_map@ == old(state).commit_map@,
            state.work_branch == old(state).work_branch,
            state.default_branch == old(state).default_branch,
            state.baseline_commit == old(state).baseline_commit,
            state.applied_branches == old(state).applied_branches,
            state.stacks == old(state).stacks,
            state.merge_in_progress == old(state).merge_in_progress,
            state.pending_merge_branches == old(state).pending_merge_branches,
            state.pending_merge_index == old(state).pending_merge_index,
            state.mv_rebase_conflict == old(state).mv_rebase_conflict,
        decreases shas.len() - i,
    {
        proof {
            assert(views(shas@).take(i + 1).drop_last() =~= views(shas@).take(i as int));
        }
        let ghost before = state.commit_assignments@;
        let b = owned(branch);
        state.commit_assignments.insert(shas[i].clone(), b);
        proof {
            assert(value_views(state.commit_assignments@) =~= value_views(before).insert(
                shas@[i as int]@,
                branch@,
            ));
        }
        i = i + 1;
    }
    assert(views(shas@).take(shas@.len() as int) =~= views(shas@));
}

} // verus!
