//! Move (assign) commits to branches via prio-mc.
//!
//! | Commit origin | Destination state | Strategy |
//! | ------------- | ----------------- | -------- |
//! | Above baseline on work branch | Any local branch | Cherry-pick in prio-mc |
//! | Above baseline on work branch | Pushed AND commit already on tip | Metadata-only |
//! | On an applied branch (cross-branch) | Any dest | Cherry-pick to dest in mc; rebase source in mc to remove commit; apply |
//! | On an applied branch (pushed source, no `-f`) | Any | Refused — use `-f` or `prio cp` |
//! | On an applied branch (pushed source, `-f`) | Any | Cherry-pick to dest in mc; rebase + force-push source; apply |
//! | Unassign (`.`) — work-area commit | — | Metadata-only |
//! | Unassign (`.`) — applied-branch commit | — | Rebase source in mc; apply merge in mc; cherry-pick onto work branch in mc; sync |
use vstd::prelude::*;
use vstd::string::StringExecFns;
use crate::error::PrioError;
use crate::services::common::{assign_all, value_views, CherryPickOnMc};
use crate::services::apply::{route_spec, PostCommitRoute};
use crate::storage::repo_state::{McState, MvRebaseConflict, RepoState};
use crate::storage::str_map::{lemma_map_of_dom, lemma_map_of_last, map_of};
use crate::strings::{
    after_first, before_first, lines_spec, nonempty_lines, nonempty_only, splitn2,
    concat2, concat3, contains_string, decimal, decimal_string, has_prefix, join, join_spec, owned,
    slice_strings, starts_with, str_eq, views,
};

verus! {

/// The applied branch a commit was cherry-picked to by an earlier move: the branch its
/// cherry-pick is assigned to, when that branch is applied.
pub open spec fn mapped_source_spec(sha: Seq<char>, state: RepoState) -> Option<Seq<char>> {
    let m = state.commit_map@;
    let a = state.commit_assignments@;
    if m.dom().contains(sha) && a.dom().contains(m[sha]@) && views(state.applied_branches@).contains(
        a[m[sha]@]@,
    ) {
        Some(a[m[sha]@]@)
    } else {
        None
    }
}

pub fn mapped_source(sha: &str, state: &RepoState) -> (r: Option<String>)
    ensures
        match r {
            None => mapped_source_spec(sha@, *state) is None,
            Some(b) => mapped_source_spec(sha@, *state) == Some(b@),
        },
{
    match state.commit_map.get(sha) {
        Some(cherry) => match state.commit_assignments.get(cherry.as_str()) {
            Some(branch) => {
                if contains_string(&state.applied_branches, branch.as_str()) {
                    Some(branch.clone())
                } else {
                    None
                }
            },
            None => None,
        },
        None => None,
    }
}

/// Where the commits of a move come from.
pub struct Classified {
    /// Commits on applied branches, with the branch each is on.
    pub cross_branch: Vec<(String, String)>,
    /// Commits above the baseline on the work branch.
    pub work_area: Vec<String>,
    /// Commits found nowhere prio looks.
    pub not_found: Vec<String>,
}

pub open spec fn opt_view(o: Option<String>) -> Option<Seq<char>> {
    match o {
        None => None,
        Some(s) => Some(s@),
    }
}

pub open spec fn pair_views(s: Seq<(String, String)>) -> Seq<(Seq<char>, Seq<char>)> {
    s.map_values(|p: (String, String)| (p.0@, p.1@))
}

/// The commits of a move sorted by origin. For the i-th commit, `mapped[i]` is what
/// [`mapped_source`] gave, `in_work_area[i]` whether it lies above the baseline, and
/// `found[i]` the first applied branch whose tip contains it.
pub fn classify_commits(
    shas: &Vec<String>,
    mapped: &Vec<Option<String>>,
    in_work_area: &Vec<bool>,
    found: &Vec<Option<String>>,
) -> (r: Classified)
    requires
        mapped.len() == shas.len(),
        in_work_area.len() == shas.len(),
        found.len() == shas.len(),
    ensures
        pair_views(r.cross_branch@) == cross_of(views(shas@), mapped@, in_work_area@, found@),
        views(r.work_area@) == work_of(views(shas@), mapped@, in_work_area@),
        views(r.not_found@) == missing_of(views(shas@), mapped@, in_work_area@, found@),
{
    let mut cross: Vec<(String, String)> = Vec::new();
    let mut work: Vec<String> = Vec::new();
    let mut missing: Vec<String> = Vec::new();
    let mut i: usize = 0;
    while i < shas.len()
        invariant
            i <= shas.len(),
            mapped.len() == shas.len(),
            in_work_area.len() == shas.len(),
            found.len() == shas.len(),
            pair_views(cross@) == cross_of(views(shas@).take(i as int), mapped@.take(i as int), in_work_area@.take(i as int), found@.take(i as int)),
            views(work@) == work_of(views(shas@).take(i as int), mapped@.take(i as int), in_work_area@.take(i as int)),
            views(missing@) == missing_of(views(shas@).take(i as int), mapped@.take(i as int), in_work_area@.take(i as int), found@.take(i as int)),
        decreases shas.len() - i,
    {
        proof {
            assert(views(shas@).take(i + 1).drop_last() =~= views(shas@).take(i as int));
            assert(mapped@.take(i + 1).drop_last() =~= mapped@.take(i as int));
            assert(in_work_area@.take(i + 1).drop_last() =~= in_work_area@.take(i as int));
            assert(found@.take(i + 1).drop_last() =~= found@.take(i as int));
        }
        let ghost pc = cross@;
        let ghost pw = work@;
        let ghost pm = missing@;
        match &mapped[i] {
            Some(src) => {
                cross.push((shas[i].clone(), src.clone()));
                assert(pair_views(cross@) =~= pair_views(pc).push((shas@[i as int]@, src@)));
            },
            None => {
                if in_work_area[i] {
                    work.push(shas[i].clone());
                    assert(views(work@) =~= views(pw).push(shas@[i as int]@));
                } else {
                    match &found[i] {
                        Some(src) => {
                            cross.push((shas[i].clone(), src.clone()));
                            assert(pair_views(cross@) =~= pair_views(pc).push((shas@[i as int]@, src@)));
                        },
                        None => {
                            missing.push(shas[i].clone());
                            assert(views(missing@) =~= views(pm).push(shas@[i as int]@));
                        },
                    }
                }
            },
        }
        i = i + 1;
    }
    proof {
        assert(views(shas@).take(shas@.len() as int) =~= views(shas@));
        assert(mapped@.take(shas@.len() as int) =~= mapped@);
        assert(in_work_area@.take(shas@.len() as int) =~= in_work_area@);
        assert(found@.take(shas@.len() as int) =~= found@);
    }
    Classified { cross_branch: cross, work_area: work, not_found: missing }
}

/// The commits of a move that are on applied branches, with their branch.
pub open spec fn cross_of(shas: Seq<Seq<char>>, mapped: Seq<Option<String>>, in_work: Seq<bool>, found: Seq<Option<String>>) -> Seq<(Seq<char>, Seq<char>)>
    decreases shas.len(),
{
    if shas.len() == 0 {
        Seq::empty()
    } else {
        let p = cross_of(shas.drop_last(), mapped.drop_last(), in_work.drop_last(), found.drop_last());
        let k = shas.len() - 1;
        match mapped[k] {
            Some(src) => p.push((shas[k], src@)),
            None => if in_work[k] {
                p
            } else {
                match found[k] {
                    Some(src) => p.push((shas[k], src@)),
                    None => p,
                }
            },
        }
    }
}

/// The commits of a move that lie in the work area.
pub open spec fn work_of(shas: Seq<Seq<char>>, mapped: Seq<Option<String>>, in_work: Seq<bool>) -> Seq<Seq<char>>
    decreases shas.len(),
{
    if shas.len() == 0 {
        Seq::empty()
    } else {
        let p = work_of(shas.drop_last(), mapped.drop_last(), in_work.drop_last());
        let k = shas.len() - 1;
        if mapped[k] is None && in_work[k] {
            p.push(shas[k])
        } else {
            p
        }
    }
}

/// The commits of a move found nowhere.
pub open spec fn missing_of(shas: Seq<Seq<char>>, mapped: Seq<Option<String>>, in_work: Seq<bool>, found: Seq<Option<String>>) -> Seq<Seq<char>>
    decreases shas.len(),
{
    if shas.len() == 0 {
        Seq::empty()
    } else {
        let p = missing_of(shas.drop_last(), mapped.drop_last(), in_work.drop_last(), found.drop_last());
        let k = shas.len() - 1;
        if mapped[k] is None && !in_work[k] && found[k] is None {
            p.push(shas[k])
        } else {
            p
        }
    }
}

/// Which way a move goes once its commits are classified.
pub enum MoveRoute {
    /// The move is refused with this message.
    Refuse(String),
    /// Commits on applied branches go back to the work area.
    CrossUnassign,
    /// Commits on applied branches go to another branch.
    CrossMove,
    /// Work-area commits go to a branch (or stay unassigned).
    WorkArea,
}

/// The refusal for commits found nowhere.
pub open spec fn not_found_text(missing: Seq<Seq<char>>) -> Seq<char> {
    "Commit(s) "@ + join_spec(missing, ", "@)
        + " are not on the work branch or any applied branch. They must be reachable from the work branch (above the baseline) or from an applied branch visible in `prio status`."@
}

/// The refusal for a move mixing work-area and applied-branch commits.
pub open spec fn mixed_text() -> Seq<char> {
    "Cannot mix work-branch commits with applied-branch commits in a single `prio mv` call. Use separate calls."@
}

/// Decides the way of a move: commits found nowhere, or a mix of work-area and
/// applied-branch commits, refuse it; applied-branch commits go the cross-branch way
/// (`-c` is an error when unassigning them with `.`); otherwise the work-area way.
pub fn route_move(c: &Classified, destination: &str, create: bool) -> (r: Result<MoveRoute, PrioError>)
    ensures
        c.not_found.len() > 0 ==> (r matches Ok(MoveRoute::Refuse(m)) && m@ == not_found_text(views(c.not_found@))),
        c.not_found.len() == 0 && c.work_area.len() > 0 && c.cross_branch.len() > 0 ==> (r matches Ok(
            MoveRoute::Refuse(m),
        ) && m@ == mixed_text()),
        c.not_found.len() == 0 && c.work_area.len() == 0 && c.cross_branch.len() > 0 && destination@
            == "."@ ==> if create {
            r matches Err(PrioError::Message(m)) && m@ == "-c is not allowed with destination `.` (unassign)."@
        } else {
            r matches Ok(MoveRoute::CrossUnassign)
        },
        c.not_found.len() == 0 && c.work_area.len() == 0 && c.cross_branch.len() > 0 && destination@
            != "."@ ==> (r matches Ok(MoveRoute::CrossMove)),
        c.not_found.len() == 0 && c.cross_branch.len() == 0 ==> (r matches Ok(MoveRoute::WorkArea)),
{
    if c.not_found.len() > 0 {
        let j = join(&c.not_found, ", ");
        return Ok(
            MoveRoute::Refuse(
                concat3(
                    "Commit(s) ",
                    j.as_str(),
                    " are not on the work branch or any applied branch. They must be reachable from the work branch (above the baseline) or from an applied branch visible in `prio status`.",
                ),
            ),
        );
    }
    if c.work_area.len() > 0 && c.cross_branch.len() > 0 {
        return Ok(
            MoveRoute::Refuse(
                String::from_str(
                    "Cannot mix work-branch commits with applied-branch commits in a single `prio mv` call. Use separate calls.",
                ),
            ),
        );
    }
    if c.cross_branch.len() > 0 {
        if str_eq(destination, ".") {
            if create {
                return Err(PrioError::Message(String::from_str("-c is not allowed with destination `.` (unassign).")));
            }
            return Ok(MoveRoute::CrossUnassign);
        }
        return Ok(MoveRoute::CrossMove);
    }
    Ok(MoveRoute::WorkArea)
}

/// Where work-area commits go: for `.` they stay on the work branch, unassigned;
/// otherwise to the resolved destination branch, assigned to it.
pub fn work_area_target(destination: &str, work_branch: &str, resolved: &str) -> (r: (String, String))
    ensures
        destination@ == "."@ ==> r.0@ == work_branch@ && r.1@ == "."@,
        destination@ != "."@ ==> r.0@ == resolved@ && r.1@ == resolved@,
{
    if str_eq(destination, ".") {
        (owned(work_branch), String::from_str("."))
    } else {
        (owned(resolved), owned(resolved))
    }
}

/// Checks that the destination branch exists unless `-c` asks to create it; tells
/// whether it will be created.
pub fn check_destination(dest: &str, branch_exists: bool, create: bool) -> (r: Result<bool, PrioError>)
    ensures
        !branch_exists && !create ==> (r matches Err(PrioError::Message(m)) && m@ == "Branch "@ + dest@
            + " does not exist. Use -c to create it."@),
        branch_exists || create ==> r == Ok::<bool, PrioError>(create && !branch_exists),
{
    if !branch_exists && !create {
        return Err(PrioError::Message(concat3("Branch ", dest, " does not exist. Use -c to create it.")));
    }
    Ok(create && !branch_exists)
}

/// `-c` cannot create a `pr-<number>` destination.
pub fn check_pr_create(destination: &str, create: bool) -> (r: Result<(), PrioError>)
    ensures
        has_prefix(destination@, "pr-"@) && create ==> (r matches Err(PrioError::Message(m)) && m@
            == "-c is not allowed for pr-{num} destinations."@),
        !(has_prefix(destination@, "pr-"@) && create) ==> r is Ok,
{
    proof {
        reveal_strlit("pr-");
    }
    if starts_with(destination, "pr-") && create {
        return Err(PrioError::Message(String::from_str("-c is not allowed for pr-{num} destinations.")));
    }
    Ok(())
}

/// Appends `dest` to the applied branches when asked and not there yet.
pub fn add_applied(state: &mut RepoState, dest: &str, should_apply: bool)
    ensures
        should_apply && !views(old(state).applied_branches@).contains(dest@) ==> views(final(state).applied_branches@)
            == views(old(state).applied_branches@).push(dest@),
        !(should_apply && !views(old(state).applied_branches@).contains(dest@)) ==> final(state).applied_branches
            == old(state).applied_branches,
        final(state).commit_map == old(state).commit_map,
        final(state).commit_assignments == old(state).commit_assignments,
        final(state).baseline_commit == old(state).baseline_commit,
        final(state).default_branch == old(state).default_branch,
        final(state).work_branch == old(state).work_branch,
        final(state).stacks == old(state).stacks,
        final(state).merge_in_progress == old(state).merge_in_progress,
        final(state).pending_merge_branches == old(state).pending_merge_branches,
        final(state).pending_merge_index == old(state).pending_merge_index,
        final(state).mv_rebase_conflict == old(state).mv_rebase_conflict,
{
    if should_apply && !contains_string(&state.applied_branches, dest) {
        let ghost prev = state.applied_branches@;
        state.applied_branches.push(owned(dest));
        assert(views(state.applied_branches@) =~= views(prev).push(dest@));
    }
}

/// Assigns each of `shas` to `assignment` (a branch, or `.` for unassigned).
pub fn tag_commits(state: &mut RepoState, shas: &Vec<String>, assignment: &str)
    ensures
        value_views(final(state).commit_assignments@) == assign_all(
            value_views(old(state).commit_assignments@),
            views(shas@),
            assignment@,
        ),
        final(state).commit_map == old(state).commit_map,
        final(state).applied_branches == old(state).applied_branches,
        final(state).baseline_commit == old(state).baseline_commit,
        final(state).mv_rebase_conflict == old(state).mv_rebase_conflict,
{
    let mut i: usize = 0;
    while i < shas.len()
        invariant
            i <= shas.len(),
            value_views(state.commit_assignments@) == assign_all(
                value_views(old(state).commit_assignments@),
                views(shas@).take(i as int),
                assignment@,
            ),
            state.commit_map == old(state).commit_map,
            state.applied_branches == old(state).applied_branches,
            state.baseline_commit == old(state).baseline_commit,
            state.mv_rebase_conflict == old(state).mv_rebase_conflict,
        decreases shas.len() - i,
    {
        proof {
            assert(views(shas@).take(i + 1).drop_last() =~= views(shas@).take(i as int));
        }
        let ghost before = state.commit_assignments@;
        state.commit_assignments.insert(shas[i].clone(), owned(assignment));
        proof {
            assert(value_views(state.commit_assignments@) =~= value_views(before).insert(shas@[i as int]@, assignment@));
        }
        i = i + 1;
    }
    assert(views(shas@).take(shas@.len() as int) =~= views(shas@));
}

/// Records a commit moved by cherry-pick: the picked commit maps to its cherry-pick, which
/// takes the assignment; the picked commit loses its own.
pub fn record_move_pick(state: &mut RepoState, sha: &str, new_sha: &str, assignment: &str)
    ensures
        value_views(final(state).commit_map@) == value_views(old(state).commit_map@).insert(sha@, new_sha@),
        value_views(final(state).commit_assignments@) == value_views(old(state).commit_assignments@).remove(
            sha@,
        ).insert(new_sha@, assignment@),
        final(state).applied_branches == old(state).applied_branches,
        final(state).baseline_commit == old(state).baseline_commit,
        final(state).mv_rebase_conflict == old(state).mv_rebase_conflict,
{
    let ghost m0 = state.commit_map@;
    let ghost a0 = state.commit_assignments@;
    state.commit_map.insert(owned(sha), owned(new_sha));
    state.commit_assignments.remove(sha);
    state.commit_assignments.insert(owned(new_sha), owned(assignment));
    proof {
        assert(value_views(state.commit_map@) =~= value_views(m0).insert(sha@, new_sha@));
        assert(value_views(state.commit_assignments@) =~= value_views(a0).remove(sha@).insert(new_sha@, assignment@));
    }
}

/// The message of a move whose commits were already on the destination.
pub fn tagged_message(count: u64, assignment: &str, dest: &str) -> (r: String)
    ensures
        r@ == "Tagged "@ + decimal(count as nat) + " commit(s) as "@ + assignment@ + " (already on "@ + dest@
            + ")."@,
{
    let n = decimal_string(count);
    let mut m = concat3("Tagged ", n.as_str(), " commit(s) as ");
    m.append(assignment);
    m.append(" (already on ");
    m.append(dest);
    m.append(").");
    m
}

/// The message of an unassign of work-area commits.
pub fn unassigned_message(count: u64) -> (r: String)
    ensures
        r@ == "Unassigned "@ + decimal(count as nat) + " commit(s) \u{2014} they remain in the work area."@,
{
    let n = decimal_string(count);
    concat3("Unassigned ", n.as_str(), " commit(s) \u{2014} they remain in the work area.")
}

/// The message when a work-area cherry-pick conflicted and was aborted.
pub fn work_pick_conflict_message(sha: &str, dest: &str, mc_path: &str) -> (r: String)
    ensures
        r@ == "Cherry-pick conflict for "@ + sha@ + " onto "@ + dest@ + " in prio-mc at "@ + mc_path@
            + ". The cherry-pick has been aborted \u{2014} resolve why this commit conflicts and retry."@,
{
    let mut m = concat3("Cherry-pick conflict for ", sha, " onto ");
    m.append(dest);
    m.append(" in prio-mc at ");
    m.append(mc_path);
    m.append(". The cherry-pick has been aborted \u{2014} resolve why this commit conflicts and retry.");
    m
}

/// The message of a work-area move that leaves unassigned commits behind.
pub fn moved_message(count: u64, assignment: &str, unassigned: u64) -> (r: String)
    ensures
        r@ == "Cherry-picked "@ + decimal(count as nat) + " commit(s) to "@ + assignment@ + "."@ + " "@
            + decimal(unassigned as nat)
            + " unassigned commit(s) remain above the baseline \u{2014} assign them with `prio mv` before running `prio apply`, or they will be discarded."@,
{
    let n = decimal_string(count);
    let u = decimal_string(unassigned);
    let mut m = concat3("Cherry-picked ", n.as_str(), " commit(s) to ");
    m.append(assignment);
    m.append(".");
    m.append(" ");
    m.append(u.as_str());
    m.append(
        " unassigned commit(s) remain above the baseline \u{2014} assign them with `prio mv` before running `prio apply`, or they will be discarded.",
    );
    m
}

/// The moved commits of one source branch, in the order of the move.
pub open spec fn shas_from(cross: Seq<(Seq<char>, Seq<char>)>, src: Seq<char>) -> Seq<Seq<char>>
    decreases cross.len(),
{
    if cross.len() == 0 {
        Seq::empty()
    } else {
        let p = shas_from(cross.drop_last(), src);
        if cross.last().1 == src {
            p.push(cross.last().0)
        } else {
            p
        }
    }
}

/// A source branch of the move.
pub open spec fn is_source(cross: Seq<(Seq<char>, Seq<char>)>, src: Seq<char>) -> bool {
    exists|i: int| 0 <= i < cross.len() && #[trigger] cross[i].1 == src
}

/// The source branches of a move, each once in the order they first appear, with the
/// commits moved off each.
pub fn group_sources(cross: &Vec<(String, String)>) -> (r: (Vec<String>, Vec<Vec<String>>))
    ensures
        r.0.len() == r.1.len(),
        views(r.0@).no_duplicates(),
        forall|x: Seq<char>| views(r.0@).contains(x) <==> is_source(pair_views(cross@), x),
        forall|k: int| 0 <= k < r.0.len() ==> views(#[trigger] r.1@[k]@) == shas_from(pair_views(cross@), r.0@[k]@),
{
    let mut names: Vec<String> = Vec::new();
    let mut lists: Vec<Vec<String>> = Vec::new();
    let mut i: usize = 0;
    while i < cross.len()
        invariant
            i <= cross.len(),
            names.len() == lists.len(),
            views(names@).no_duplicates(),
            forall|x: Seq<char>| views(names@).contains(x) <==> is_source(pair_views(cross@).take(i as int), x),
            forall|k: int| 0 <= k < names.len() ==> views(#[trigger] lists@[k]@) == shas_from(pair_views(cross@).take(i as int), names@[k]@),
        decreases cross.len() - i,
    {
        let ghost t = pair_views(cross@).take(i as int);
        let ghost t2 = pair_views(cross@).take(i + 1);
        proof {
            assert(t2.drop_last() =~= t);
            assert(t2.last() == (cross@[i as int].0@, cross@[i as int].1@));
            assert forall|x: Seq<char>| #![auto] is_source(t2, x) <==> (is_source(t, x) || x == cross@[i as int].1@) by {
                if is_source(t2, x) {
                    let j = choose|j: int| 0 <= j < t2.len() && #[trigger] t2[j].1 == x;
                    if j < i {
                        assert(t[j].1 == x);
                    }
                }
                if is_source(t, x) {
                    let j = choose|j: int| 0 <= j < t.len() && #[trigger] t[j].1 == x;
                    assert(t2[j].1 == x);
                }
                if x == cross@[i as int].1@ {
                    assert(t2[i as int].1 == x);
                }
            }
        }
        let src = cross[i].1.as_str();
        let mut k: usize = 0;
        while k < names.len() && !str_eq(names[k].as_str(), src)
            invariant
                k <= names.len(),
                forall|j: int| 0 <= j < k ==> names@[j]@ != src@,
            decreases names.len() - k,
        {
            k = k + 1;
        }
        if k < names.len() {
            assert(views(names@)[k as int] == src@);
            let mut l = crate::strings::copy_strings(&lists[k]);
            let ghost before = views(l@);
            l.push(cross[i].0.clone());
            assert(views(l@) =~= before.push(cross@[i as int].0@));
            let ghost old_lists = lists@;
            lists.set(k, l);
            proof {
                assert forall|j: int| 0 <= j < names.len() implies views(#[trigger] lists@[j]@) == shas_from(t2, names@[j]@) by {
                    if j != k {
                        assert(lists@[j] == old_lists[j]);
                        assert(names@[j]@ != src@) by {
                            if names@[j]@ == src@ {
                                assert(views(names@)[j] == views(names@)[k as int]);
                            }
                        }
                    }
                }
            }
        } else {
            let ghost old_names = views(names@);
            let ghost old_lists = lists@;
            proof {
                assert(!old_names.contains(src@)) by {
                    if old_names.contains(src@) {
                        let j = choose|j: int| 0 <= j < old_names.len() && old_names[j] == src@;
                        assert(names@[j]@ == src@);
                    }
                }
                assert(!is_source(t, src@));
                lemma_shas_from_absent(t, src@);
            }
            names.push(cross[i].1.clone());
            let mut l: Vec<String> = Vec::new();
            l.push(cross[i].0.clone());
            lists.push(l);
            proof {
                assert(views(names@) =~= old_names.push(src@));
                assert(views(l@) =~= seq![cross@[i as int].0@]);
                assert forall|j: int| 0 <= j < names.len() implies views(#[trigger] lists@[j]@) == shas_from(t2, names@[j]@) by {
                    if j < old_lists.len() {
                        assert(lists@[j] == old_lists[j]);
                        assert(names@[j]@ != src@) by {
                            if names@[j]@ == src@ {
                                assert(old_names[j] == src@);
                            }
                        }
                    } else {
                        assert(shas_from(t2, src@) =~= seq![cross@[i as int].0@]);
                    }
                }
                assert forall|x: Seq<char>| views(names@).contains(x) <==> is_source(t2, x) by {
                    if views(names@).contains(x) && x != src@ {
                        let j = choose|j: int| 0 <= j < views(names@).len() && views(names@)[j] == x;
                        assert(old_names[j] == x);
                        assert(old_names.contains(x));
                    }
                    if old_names.contains(x) {
                        let j = choose|j: int| 0 <= j < old_names.len() && old_names[j] == x;
                        assert(views(names@)[j] == x);
                    }
                    if x == src@ {
                        assert(views(names@)[old_names.len() as int] == x);
                    }
                }
            }
        }
        i = i + 1;
    }
    assert(pair_views(cross@).take(cross@.len() as int) =~= pair_views(cross@));
    (names, lists)
}

proof fn lemma_shas_from_absent(cross: Seq<(Seq<char>, Seq<char>)>, src: Seq<char>)
    requires
        !is_source(cross, src),
    ensures
        shas_from(cross, src).len() == 0,
    decreases cross.len(),
{
    if cross.len() > 0 {
        let t = cross.drop_last();
        assert(!is_source(t, src)) by {
            if is_source(t, src) {
                let j = choose|j: int| 0 <= j < t.len() && #[trigger] t[j].1 == src;
                assert(cross[j].1 == src);
            }
        }
        lemma_shas_from_absent(t, src);
        assert(cross[cross.len() - 1].1 != src);
    }
}

/// The refusal for moving commits off a pushed source branch without `-f`.
pub open spec fn pushed_source_text(source: Seq<char>, unassign: bool) -> Seq<char> {
    if unassign {
        "Source branch '"@ + source
            + "' has been pushed to origin. Unassigning commits rewrites remote history. Use `-f` to allow force-push after rebase."@
    } else {
        "Source branch '"@ + source
            + "' has been pushed to origin. Moving commits off it rewrites remote history. Either:\n  -f  to allow me to force-push source branch after rebase\n  prio cp <sha> <dest>  copy without modifying the source branch"@
    }
}

/// Without `-f`, the first pushed source branch refuses the move (`pushed[i]` tells
/// whether `sources[i]` exists at origin).
pub fn refuse_pushed_sources(sources: &Vec<String>, pushed: &Vec<bool>, force: bool, unassign: bool) -> (r: Option<String>)
    requires
        pushed.len() == sources.len(),
    ensures
        force ==> r is None,
        !force ==> match r {
            None => forall|j: int| 0 <= j < pushed@.len() ==> !pushed@[j],
            Some(m) => exists|i: int| 0 <= i < pushed@.len() && pushed@[i] && (forall|j: int| 0 <= j < i ==> !pushed@[j])
                && m@ == pushed_source_text(sources@[i]@, unassign),
        },
{
    if force {
        return None;
    }
    let mut i: usize = 0;
    while i < sources.len()
        invariant
            i <= sources.len(),
            pushed.len() == sources.len(),
            !force,
            forall|j: int| 0 <= j < i ==> !pushed@[j],
        decreases sources.len() - i,
    {
        if pushed[i] {
            let m = if unassign {
                concat3(
                    "Source branch '",
                    sources[i].as_str(),
                    "' has been pushed to origin. Unassigning commits rewrites remote history. Use `-f` to allow force-push after rebase.",
                )
            } else {
                concat3(
                    "Source branch '",
                    sources[i].as_str(),
                    "' has been pushed to origin. Moving commits off it rewrites remote history. Either:\n  -f  to allow me to force-push source branch after rebase\n  prio cp <sha> <dest>  copy without modifying the source branch",
                )
            };
            return Some(m);
        }
        i = i + 1;
    }
    None
}

/// The commits to leave out when rebasing a source branch: the moved commits, the
/// cherry-picks they were mapped to, and the commits mapped to a moved commit.
pub open spec fn excluded(shas: Seq<Seq<char>>, m: Map<Seq<char>, String>, x: Seq<char>) -> bool {
    ||| shas.contains(x)
    ||| exists|i: int| 0 <= i < shas.len() && m.dom().contains(#[trigger] shas[i]) && m[shas[i]]@ == x
    ||| (m.dom().contains(x) && shas.contains(m[x]@))
}

fn push_unique(v: &mut Vec<String>, x: &str)
    ensures
        forall|y: Seq<char>| views(final(v)@).contains(y) <==> (views(old(v)@).contains(y) || y == x@),
        views(old(v)@).no_duplicates() ==> views(final(v)@).no_duplicates(),
{
    if !contains_string(v, x) {
        let ghost prev = views(v@);
        v.push(owned(x));
        proof {
            assert(views(v@) =~= prev.push(x@));
            assert forall|y: Seq<char>| views(v@).contains(y) <==> (prev.contains(y) || y == x@) by {
                if views(v@).contains(y) && y != x@ {
                    let j = choose|j: int| 0 <= j < views(v@).len() && views(v@)[j] == y;
                    assert(prev[j] == y);
                }
                if prev.contains(y) {
                    let j = choose|j: int| 0 <= j < prev.len() && prev[j] == y;
                    assert(views(v@)[j] == y);
                }
                if y == x@ {
                    assert(views(v@)[prev.len() as int] == y);
                }
            }
        }
    }
}

/// Pre-compute the set of SHAs (in prio-mc space) to exclude from a source branch log.
///
/// Must be called before any cherry-picks to the destination, which overwrite the
/// `commit_map` entries (source commit → prio-mc cherry-pick) this reads.
pub fn effective_excludes_for_source(shas_to_move: &Vec<String>, state: &RepoState) -> (r: Vec<String>)
    ensures
        views(r@).no_duplicates(),
        forall|x: Seq<char>| views(r@).contains(x) <==> excluded(views(shas_to_move@), state.commit_map@, x),
{
    let ghost sv = views(shas_to_move@);
    let ghost m = state.commit_map@;
    let mut ex: Vec<String> = Vec::new();
    let mut i: usize = 0;
    while i < shas_to_move.len()
        invariant
            i <= shas_to_move.len(),
            sv == views(shas_to_move@),
            m == state.commit_map@,
            views(ex@).no_duplicates(),
            forall|x: Seq<char>| views(ex@).contains(x) <==> exists|j: int| 0 <= j < i && #[trigger] sv[j] == x,
        decreases shas_to_move.len() - i,
    {
        push_unique(&mut ex, shas_to_move[i].as_str());
        proof {
            assert(sv[i as int] == shas_to_move@[i as int]@);
            assert forall|x: Seq<char>| views(ex@).contains(x) <==> exists|j: int| 0 <= j < i + 1 && #[trigger] sv[j] == x by {
                if x == sv[i as int] {
                    assert(sv[i as int] == x);
                }
            }
        }
        i = i + 1;
    }
    let mut i: usize = 0;
    while i < shas_to_move.len()
        invariant
            i <= shas_to_move.len(),
            sv == views(shas_to_move@),
            m == state.commit_map@,
            views(ex@).no_duplicates(),
            forall|x: Seq<char>| views(ex@).contains(x) <==> ((exists|j: int| 0 <= j < sv.len() && #[trigger] sv[j] == x) || exists|j: int|
                0 <= j < i && m.dom().contains(#[trigger] sv[j]) && m[sv[j]]@ == x),
        decreases shas_to_move.len() - i,
    {
        assert(sv[i as int] == shas_to_move@[i as int]@);
        match state.commit_map.get(shas_to_move[i].as_str()) {
            Some(mapped) => {
                push_unique(&mut ex, mapped.as_str());
                proof {
                    assert forall|x: Seq<char>| views(ex@).contains(x) <==> ((exists|j: int| 0 <= j < sv.len() && #[trigger] sv[j] == x) || exists|j: int|
                        0 <= j < i + 1 && m.dom().contains(#[trigger] sv[j]) && m[sv[j]]@ == x) by {
                        if x == mapped@ {
                            assert(m.dom().contains(sv[i as int]) && m[sv[i as int]]@ == x);
                        }
                    }
                }
            },
            None => {
                proof {
                    assert forall|x: Seq<char>| views(ex@).contains(x) <==> ((exists|j: int| 0 <= j < sv.len() && #[trigger] sv[j] == x) || exists|j: int|
                        0 <= j < i + 1 && m.dom().contains(#[trigger] sv[j]) && m[sv[j]]@ == x) by {
                        if exists|j: int| 0 <= j < i + 1 && m.dom().contains(#[trigger] sv[j]) && m[sv[j]]@ == x {
                            let j = choose|j: int| 0 <= j < i + 1 && m.dom().contains(#[trigger] sv[j]) && m[sv[j]]@ == x;
                            assert(j != i);
                        }
                    }
                }
            },
        }
        i = i + 1;
    }
    let pairs = state.commit_map.to_pairs();
    proof {
        lemma_map_of_dom(pairs@);
    }
    let mut k: usize = 0;
    while k < pairs.len()
        invariant
            k <= pairs.len(),
            sv == views(shas_to_move@),
            m == state.commit_map@,
            map_of(pairs@) == m,
            forall|a: int, b: int| 0 <= a < b < pairs@.len() ==> pairs@[a].0@ != pairs@[b].0@,
            views(ex@).no_duplicates(),
            forall|x: Seq<char>| views(ex@).contains(x) <==> ((exists|j: int| 0 <= j < sv.len() && #[trigger] sv[j] == x) || (exists|j: int|
                0 <= j < sv.len() && m.dom().contains(#[trigger] sv[j]) && m[sv[j]]@ == x) || (exists|j: int|
                0 <= j < k && #[trigger] pairs@[j].0@ == x && sv.contains(pairs@[j].1@))),
        decreases pairs.len() - k,
    {
        if contains_string(shas_to_move, pairs[k].1.as_str()) {
            push_unique(&mut ex, pairs[k].0.as_str());
            proof {
                assert forall|x: Seq<char>| views(ex@).contains(x) <==> ((exists|j: int| 0 <= j < sv.len() && #[trigger] sv[j] == x) || (exists|j: int|
                    0 <= j < sv.len() && m.dom().contains(#[trigger] sv[j]) && m[sv[j]]@ == x) || (exists|j: int|
                    0 <= j < k + 1 && #[trigger] pairs@[j].0@ == x && sv.contains(pairs@[j].1@))) by {
                    if x == pairs@[k as int].0@ {
                        assert(pairs@[k as int].0@ == x && sv.contains(pairs@[k as int].1@));
                    }
                }
            }
        } else {
            proof {
                assert forall|x: Seq<char>| views(ex@).contains(x) <==> ((exists|j: int| 0 <= j < sv.len() && #[trigger] sv[j] == x) || (exists|j: int|
                    0 <= j < sv.len() && m.dom().contains(#[trigger] sv[j]) && m[sv[j]]@ == x) || (exists|j: int|
                    0 <= j < k + 1 && #[trigger] pairs@[j].0@ == x && sv.contains(pairs@[j].1@))) by {
                    if exists|j: int| 0 <= j < k + 1 && #[trigger] pairs@[j].0@ == x && sv.contains(pairs@[j].1@) {
                        let j = choose|j: int| 0 <= j < k + 1 && #[trigger] pairs@[j].0@ == x && sv.contains(pairs@[j].1@);
                        assert(j != k);
                    }
                }
            }
        }
        k = k + 1;
    }
    proof {
        assert forall|x: Seq<char>| views(ex@).contains(x) <==> excluded(sv, m, x) by {
            if exists|j: int| 0 <= j < sv.len() && #[trigger] sv[j] == x {
                let j = choose|j: int| 0 <= j < sv.len() && #[trigger] sv[j] == x;
                assert(sv.contains(x));
            }
            if sv.contains(x) {
                let j = choose|j: int| 0 <= j < sv.len() && sv[j] == x;
                assert(sv[j] == x);
            }
            if exists|j: int| 0 <= j < pairs@.len() && #[trigger] pairs@[j].0@ == x && sv.contains(pairs@[j].1@) {
                let j = choose|j: int| 0 <= j < pairs@.len() && #[trigger] pairs@[j].0@ == x && sv.contains(pairs@[j].1@);
                lemma_map_of_last(pairs@, j);
            }
            if m.dom().contains(x) && sv.contains(m[x]@) {
                assert(map_of(pairs@).dom().contains(x));
                let j = choose|j: int| 0 <= j < pairs@.len() && pairs@[j].0@ == x;
                lemma_map_of_last(pairs@, j);
                assert(pairs@[j].0@ == x && sv.contains(pairs@[j].1@));
            }
        }
    }
    ex
}

/// Before an unassign of applied-branch commits: the commits and the cherry-picks they
/// were mapped to lose their assignments (the map itself is kept).
pub open spec fn cleared(a: Map<Seq<char>, Seq<char>>, shas: Seq<Seq<char>>, m: Map<Seq<char>, String>) -> Map<Seq<char>, Seq<char>>
    decreases shas.len(),
{
    if shas.len() == 0 {
        a
    } else {
        let p = cleared(a, shas.drop_last(), m);
        let s = shas.last();
        let q = if m.dom().contains(s) {
            p.remove(m[s]@)
        } else {
            p
        };
        q.remove(s)
    }
}

pub fn clear_unassigned_assignments(state: &mut RepoState, shas: &Vec<String>)
    ensures
        value_views(final(state).commit_assignments@) == cleared(
            value_views(old(state).commit_assignments@),
            views(shas@),
            old(state).commit_map@,
        ),
        final(state).commit_map == old(state).commit_map,
        final(state).applied_branches == old(state).applied_branches,
        final(state).baseline_commit == old(state).baseline_commit,
        final(state).mv_rebase_conflict == old(state).mv_rebase_conflict,
{
    let mut i: usize = 0;
    while i < shas.len()
        invariant
            i <= shas.len(),
            value_views(state.commit_assignments@) == cleared(
                value_views(old(state).commit_assignments@),
                views(shas@).take(i as int),
                old(state).commit_map@,
            ),
            state.commit_map == old(state).commit_map,
            state.applied_branches == old(state).applied_branches,
            state.baseline_commit == old(state).baseline_commit,
            state.mv_rebase_conflict == old(state).mv_rebase_conflict,
        decreases shas.len() - i,
    {
        proof {
            assert(views(shas@).take(i + 1).drop_last() =~= views(shas@).take(i as int));
        }
        let ghost a0 = state.commit_assignments@;
        match state.commit_map.get(shas[i].as_str()) {
            Some(mapped) => {
                let mp = mapped.clone();
                state.commit_assignments.remove(mp.as_str());
            },
            None => {},
        }
        let ghost a1 = state.commit_assignments@;
        state.commit_assignments.remove(shas[i].as_str());
        proof {
            let s = shas@[i as int]@;
            let q = if old(state).commit_map@.dom().contains(s) {
                value_views(a0).remove(old(state).commit_map@[s]@)
            } else {
                value_views(a0)
            };
            assert(value_views(a1) =~= q);
            assert(value_views(state.commit_assignments@) =~= q.remove(s));
        }
        i = i + 1;
    }
    assert(views(shas@).take(shas@.len() as int) =~= views(shas@));
}

/// A commit of a source branch being rebuilt: its SHA, subject, and whether it stays.
pub struct ChainCommit {
    pub sha: String,
    pub subject: String,
    pub kept: bool,
}

/// A `%H %s` log line: the SHA before the first space, the subject after it.
pub open spec fn chain_line(l: Seq<char>) -> (Seq<char>, Seq<char>) {
    (
        before_first(l, ' '),
        match after_first(l, ' ') {
            Some(m) => m,
            None => Seq::<char>::empty(),
        },
    )
}

pub open spec fn chain_view(c: ChainCommit) -> (Seq<char>, Seq<char>, bool) {
    (c.sha@, c.subject@, c.kept)
}

/// The commits of a source branch (`git log <tip> --not <default> --no-merges
/// --format=%H %s --reverse`), each kept unless excluded.
pub open spec fn chain_spec(log: Seq<char>, excludes: Seq<Seq<char>>) -> Seq<(Seq<char>, Seq<char>, bool)> {
    nonempty_only(lines_spec(log)).map_values(
        |l: Seq<char>| (chain_line(l).0, chain_line(l).1, !excludes.contains(chain_line(l).0)),
    )
}

pub fn rebase_chain(log: &str, excludes: &Vec<String>) -> (r: Vec<ChainCommit>)
    ensures
        r@.map_values(|c: ChainCommit| chain_view(c)) == chain_spec(log@, views(excludes@)),
{
    let ls = nonempty_lines(log);
    let mut r: Vec<ChainCommit> = Vec::new();
    let mut i: usize = 0;
    while i < ls.len()
        invariant
            i <= ls.len(),
            views(ls@) == nonempty_only(lines_spec(log@)),
            r@.map_values(|c: ChainCommit| chain_view(c)) == views(ls@).take(i as int).map_values(
                |l: Seq<char>| (chain_line(l).0, chain_line(l).1, !views(excludes@).contains(chain_line(l).0)),
            ),
        decreases ls.len() - i,
    {
        let (sha, rest) = splitn2(ls[i].as_str(), ' ');
        let subject = match rest {
            Some(m) => m,
            None => String::new(),
        };
        let kept = !contains_string(excludes, sha.as_str());
        let ghost prev = r@;
        let c = ChainCommit { sha, subject, kept };
        let ghost cv = chain_view(c);
        r.push(c);
        proof {
            assert(r@.map_values(|c: ChainCommit| chain_view(c)) =~= prev.map_values(|c: ChainCommit| chain_view(c)).push(cv));
            assert(views(ls@).take(i + 1).map_values(
                |l: Seq<char>| (chain_line(l).0, chain_line(l).1, !views(excludes@).contains(chain_line(l).0)),
            ) =~= views(ls@).take(i as int).map_values(
                |l: Seq<char>| (chain_line(l).0, chain_line(l).1, !views(excludes@).contains(chain_line(l).0)),
            ).push(cv));
        }
        i = i + 1;
    }
    assert(views(ls@).take(ls@.len() as int) =~= views(ls@));
    r
}

/// The SHAs of the kept commits, in order.
pub open spec fn kept_spec(chain: Seq<ChainCommit>) -> Seq<Seq<char>>
    decreases chain.len(),
{
    if chain.len() == 0 {
        Seq::empty()
    } else {
        let p = kept_spec(chain.drop_last());
        if chain.last().kept {
            p.push(chain.last().sha@)
        } else {
            p
        }
    }
}

pub fn kept_commits(chain: &Vec<ChainCommit>) -> (r: Vec<String>)
    ensures
        views(r@) == kept_spec(chain@),
{
    let mut r: Vec<String> = Vec::new();
    let mut i: usize = 0;
    while i < chain.len()
        invariant
            i <= chain.len(),
            views(r@) == kept_spec(chain@.take(i as int)),
        decreases chain.len() - i,
    {
        proof {
            assert(chain@.take(i + 1).drop_last() =~= chain@.take(i as int));
        }
        if chain[i].kept {
            let ghost prev = r@;
            r.push(chain[i].sha.clone());
            assert(views(r@) =~= views(prev).push(chain@[i as int].sha@));
        }
        i = i + 1;
    }
    assert(chain@.take(chain@.len() as int) =~= chain@);
    r
}

/// Index of the first `x` in `s`, or -1.
pub open spec fn first_pos(s: Seq<Seq<char>>, x: Seq<char>) -> int
    decreases s.len(),
{
    if s.len() == 0 {
        -1
    } else if s[0] == x {
        0
    } else {
        let r = first_pos(s.drop_first(), x);
        if r < 0 {
            -1
        } else {
            r + 1
        }
    }
}

proof fn lemma_first_pos_bounds(s: Seq<Seq<char>>, x: Seq<char>)
    ensures
        -1 <= first_pos(s, x) < s.len(),
    decreases s.len(),
{
    if s.len() > 0 && s[0] != x {
        lemma_first_pos_bounds(s.drop_first(), x);
    }
}

fn position(v: &Vec<String>, x: &str) -> (r: Option<usize>)
    ensures
        match r {
            None => first_pos(views(v@), x@) == -1,
            Some(p) => first_pos(views(v@), x@) == p as int && p < v.len(),
        },
{
    let mut i: usize = 0;
    proof {
        assert(views(v@).skip(0) =~= views(v@));
    }
    while i < v.len()
        invariant
            i <= v.len(),
            first_pos(views(v@), x@) == (if first_pos(views(v@).skip(i as int), x@) < 0 {
                -1
            } else {
                first_pos(views(v@).skip(i as int), x@) + i
            }),
        decreases v.len() - i,
    {
        proof {
            assert(views(v@).skip(i as int).drop_first() =~= views(v@).skip(i + 1));
            assert(views(v@).skip(i as int)[0] == v@[i as int]@);
        }
        if str_eq(v[i].as_str(), x) {
            return Some(i);
        }
        i = i + 1;
    }
    None
}

/// The kept commits that still need replaying after a conflict at `at`: those after
/// its first occurrence (or from it, when `from_here`); none when it is not kept.
pub open spec fn remaining_spec(kept: Seq<Seq<char>>, at: Seq<char>, from_here: bool) -> Seq<Seq<char>> {
    let p = first_pos(kept, at);
    if p < 0 {
        Seq::empty()
    } else if from_here {
        kept.skip(p)
    } else {
        kept.skip(p + 1)
    }
}

fn remaining_from(kept: &Vec<String>, at: &str, from_here: bool) -> (r: Vec<String>)
    ensures
        views(r@) == remaining_spec(views(kept@), at@, from_here),
{
    match position(kept, at) {
        None => Vec::new(),
        Some(p) => {
            let start = if from_here {
                p
            } else {
                p + 1
            };
            let r = crate::strings::slice_strings(kept, start, kept.len());
            assert(views(r@) =~= views(kept@).skip(start as int));
            r
        },
    }
}

/// The first kept commit after index `i` of the chain.
pub open spec fn next_kept_spec(chain: Seq<ChainCommit>, i: int) -> Option<Seq<char>>
    decreases chain.len() - i,
{
    if i + 1 >= chain.len() {
        None
    } else if chain[i + 1].kept {
        Some(chain[i + 1].sha@)
    } else {
        next_kept_spec(chain, i + 1)
    }
}

fn next_kept(chain: &Vec<ChainCommit>, i: usize) -> (r: Option<String>)
    requires
        i < chain.len(),
    ensures
        match r {
            None => next_kept_spec(chain@, i as int) is None,
            Some(s) => next_kept_spec(chain@, i as int) == Some(s@),
        },
{
    let mut j: usize = i + 1;
    while j < chain.len()
        invariant
            i < j <= chain.len(),
            next_kept_spec(chain@, i as int) == next_kept_spec(chain@, j - 1),
        decreases chain.len() - j,
    {
        if chain[j].kept {
            return Some(chain[j].sha.clone());
        }
        j = j + 1;
    }
    None
}

/// What to do after one cherry-pick of the replay.
pub enum RebaseStep {
    /// Go on with the next commit.
    Next,
    /// `git reset --soft HEAD~count`, then commit under `subject`: the excluded
    /// predecessors are folded into the kept commit.
    Squash { count: usize, subject: String },
    /// `git reset --soft HEAD~count`: the excluded predecessors of an empty kept
    /// commit are dropped.
    Drop { count: usize },
    /// `git cherry-pick --abort` and go on: a conflict on excluded context that no
    /// kept commit follows.
    AbortPick,
    /// Stop: the conflict at `at_sha` is left for the user; `remaining` kept commits
    /// still need replaying afterwards.
    Conflict { at_sha: String, remaining: Vec<String> },
    /// Stop with an error: the cherry-pick was refused.
    Refused(PrioError),
}

/// The excluded commits waiting to be folded after a cherry-pick with `outcome`.
pub open spec fn next_pending(kept: bool, pending: nat, outcome: CherryPickOnMc) -> nat {
    match outcome {
        CherryPickOnMc::Applied => if kept {
            0
        } else {
            pending + 1
        },
        CherryPickOnMc::SkippedEmpty => if kept {
            0
        } else {
            pending
        },
        _ => pending,
    }
}

/// How many commits the step's `reset --soft` takes off the branch.
pub open spec fn reset_count(kept: bool, pending: nat, outcome: CherryPickOnMc) -> nat {
    if kept && pending > 0 && outcome is Applied {
        pending + 1
    } else if kept && pending > 0 && outcome is SkippedEmpty {
        pending
    } else {
        0
    }
}

/// How many commits the step creates with `git commit`.
pub open spec fn recommit_count(kept: bool, pending: nat, outcome: CherryPickOnMc) -> nat {
    if kept && pending > 0 && outcome is Applied {
        1
    } else {
        0
    }
}

/// The message of a refused cherry-pick during a rebase.
pub open spec fn refused_text(sha: Seq<char>, source: Seq<char>, mc_path: Seq<char>) -> Seq<char> {
    "Could not cherry-pick commit "@ + sha + " while rebasing '"@ + source
        + "': cherry-pick was refused. Check prio-mc at "@ + mc_path + "."@
}

/// One step of the squash replay that rebuilds `source_branch` without the excluded
/// commits: given the outcome of cherry-picking `chain[i]` with `pending` excluded
/// commits waiting, the excluded commits waiting afterwards and what to do.
pub fn rebase_step(
    chain: &Vec<ChainCommit>,
    kept: &Vec<String>,
    i: usize,
    pending: usize,
    outcome: CherryPickOnMc,
    source_branch: &str,
    mc_path: &str,
) -> (r: (usize, RebaseStep))
    requires
        i < chain.len(),
        pending < usize::MAX,
        views(kept@) == kept_spec(chain@),
    ensures
        (outcome is Applied || outcome is SkippedEmpty) ==> {
            &&& r.0 == next_pending(chain@[i as int].kept, pending as nat, outcome)
            &&& reset_count(chain@[i as int].kept, pending as nat, outcome) == 0 ==> r.1 is Next
            &&& recommit_count(chain@[i as int].kept, pending as nat, outcome) == 1 ==> (r.1 matches RebaseStep::Squash { count, subject }
                && count == reset_count(chain@[i as int].kept, pending as nat, outcome) && subject@ == chain@[i as int].subject@)
            &&& reset_count(chain@[i as int].kept, pending as nat, outcome) > 0 && recommit_count(chain@[i as int].kept, pending as nat, outcome) == 0
                ==> (r.1 matches RebaseStep::Drop { count } && count == reset_count(chain@[i as int].kept, pending as nat, outcome))
        },
        outcome is Conflict && chain@[i as int].kept ==> (r.1 matches RebaseStep::Conflict { at_sha, remaining }
            && at_sha@ == chain@[i as int].sha@ && views(remaining@) == remaining_spec(views(kept@), at_sha@, false)),
        outcome is Conflict && !chain@[i as int].kept ==> match next_kept_spec(chain@, i as int) {
            Some(k) => r.1 matches RebaseStep::Conflict { at_sha, remaining } && at_sha@ == k && views(remaining@)
                == remaining_spec(views(kept@), k, true),
            None => r.1 is AbortPick && r.0 == pending,
        },
        outcome is Failed ==> (r.1 matches RebaseStep::Refused(PrioError::Message(m)) && m@ == refused_text(
            chain@[i as int].sha@,
            source_branch@,
            mc_path@,
        )),
{
    let c = &chain[i];
    match outcome {
        CherryPickOnMc::Applied => {
            if c.kept {
                if pending > 0 {
                    (0, RebaseStep::Squash { count: pending + 1, subject: c.subject.clone() })
                } else {
                    (0, RebaseStep::Next)
                }
            } else {
                (pending + 1, RebaseStep::Next)
            }
        },
        CherryPickOnMc::SkippedEmpty => {
            if c.kept {
                if pending > 0 {
                    (0, RebaseStep::Drop { count: pending })
                } else {
                    (0, RebaseStep::Next)
                }
            } else {
                (pending, RebaseStep::Next)
            }
        },
        CherryPickOnMc::Conflict => {
            if c.kept {
                let remaining = remaining_from(kept, c.sha.as_str(), false);
                (pending, RebaseStep::Conflict { at_sha: c.sha.clone(), remaining })
            } else {
                match next_kept(chain, i) {
                    Some(k) => {
                        let remaining = remaining_from(kept, k.as_str(), true);
                        (pending, RebaseStep::Conflict { at_sha: k, remaining })
                    },
                    None => (pending, RebaseStep::AbortPick),
                }
            }
        },
        CherryPickOnMc::Failed => {
            let mut m = concat3("Could not cherry-pick commit ", c.sha.as_str(), " while rebasing '");
            m.append(source_branch);
            m.append("': cherry-pick was refused. Check prio-mc at ");
            m.append(mc_path);
            m.append(".");
            (pending, RebaseStep::Refused(PrioError::Message(m)))
        },
    }
}

/// The replay folded over cherry-pick outcomes: the commits above the default branch,
/// the excluded commits waiting, and the kept commits that applied.
pub open spec fn replay(kepts: Seq<bool>, outs: Seq<CherryPickOnMc>) -> (int, nat, nat)
    decreases kepts.len(),
{
    if kepts.len() == 0 || outs.len() == 0 {
        (0, 0, 0)
    } else {
        let (h, p, k) = replay(kepts.drop_last(), outs.drop_last());
        let kept = kepts.last();
        let o = outs.last();
        let picked: int = if o is Applied {
            1
        } else {
            0
        };
        (
            h + picked - reset_count(kept, p, o) + recommit_count(kept, p, o),
            next_pending(kept, p, o),
            k + if kept && o is Applied {
                1nat
            } else {
                0nat
            },
        )
    }
}

/// A replay whose cherry-picks all applied or were empty leaves, once the waiting
/// excluded commits are dropped, exactly one commit per kept commit that applied:
/// excluded commits are folded into the kept commit after them.
pub proof fn law_replay_keeps_one_commit_per_kept(kepts: Seq<bool>, outs: Seq<CherryPickOnMc>)
    requires
        kepts.len() == outs.len(),
        forall|j: int| 0 <= j < outs.len() ==> (#[trigger] outs[j] is Applied || outs[j] is SkippedEmpty),
    ensures
        replay(kepts, outs).0 - replay(kepts, outs).1 == replay(kepts, outs).2,
    decreases kepts.len(),
{
    if kepts.len() > 0 {
        let a = kepts.drop_last();
        let b = outs.drop_last();
        assert forall|j: int| 0 <= j < b.len() implies (#[trigger] b[j] is Applied || b[j] is SkippedEmpty) by {
            assert(b[j] == outs[j]);
        }
        law_replay_keeps_one_commit_per_kept(a, b);
        assert(outs.last() == outs[outs.len() - 1]);
    }
}

/// After the last commit: how many excluded commits are still waiting, to be dropped
/// from the rebuilt branch together with their changes (`git reset --hard HEAD~n`).
pub fn rebase_finish(pending: usize) -> (r: Option<usize>)
    ensures
        pending > 0 ==> r == Some(pending),
        pending == 0 ==> r is None,
{
    if pending > 0 {
        Some(pending)
    } else {
        None
    }
}

/// Whether no commit of the chain is kept (the source branch is then recreated empty).
pub fn nothing_kept(chain: &Vec<ChainCommit>) -> (r: bool)
    ensures
        r == forall|j: int| 0 <= j < chain@.len() ==> !(#[trigger] chain@[j]).kept,
{
    let mut i: usize = 0;
    while i < chain.len()
        invariant
            i <= chain.len(),
            forall|j: int| 0 <= j < i ==> !(#[trigger] chain@[j]).kept,
        decreases chain.len() - i,
    {
        if chain[i].kept {
            return false;
        }
        i = i + 1;
    }
    true
}

/// The merge fields and the unassign and force-push records of two prio-mc states agree.
pub open spec fn same_merge_fields(a: McState, b: McState) -> bool {
    &&& a.merge_in_progress == b.merge_in_progress
    &&& a.pending_merge_branches == b.pending_merge_branches
    &&& a.pending_merge_index == b.pending_merge_index
    &&& a.default_branch == b.default_branch
    &&& a.merge_branch == b.merge_branch
    &&& a.mv_pending_force_push_sources == b.mv_pending_force_push_sources
}

/// The prio-mc state when a move stops on a conflict while cherry-picking onto its
/// destination; the post-commit hook then finishes the destination.
pub fn dest_conflict_mc(
    base: McState,
    dest: &str,
    remaining_dest: Vec<String>,
    first_source: &str,
    source_shas: Vec<String>,
    first_source_is_pushed: bool,
    force: bool,
) -> (r: McState)
    ensures
        r.mv_rebase_in_progress,
        r.mv_rebase_phase@ == "dest"@,
        r.mv_rebase_dest_branch@ == dest@,
        r.mv_rebase_remaining_dest == remaining_dest,
        r.mv_rebase_source_branch@ == first_source@,
        r.mv_rebase_source_shas_to_exclude == source_shas,
        r.mv_rebase_source_is_pushed == first_source_is_pushed,
        r.mv_rebase_force == force,
        r.mv_rebase_remaining_commits == base.mv_rebase_remaining_commits,
        same_merge_fields(r, base),
        route_spec(r) is MvDest,
{
    let mut m = base;
    m.mv_rebase_in_progress = true;
    m.mv_rebase_phase = String::from_str("dest");
    m.mv_rebase_dest_branch = owned(dest);
    m.mv_rebase_remaining_dest = remaining_dest;
    m.mv_rebase_source_branch = owned(first_source);
    m.mv_rebase_source_shas_to_exclude = source_shas;
    m.mv_rebase_source_is_pushed = first_source_is_pushed;
    m.mv_rebase_force = force;
    proof {
        reveal_strlit("dest");
    }
    m
}

/// The prio-mc state when a copy stops on a conflict; the post-commit hook then
/// finishes the copy.
pub fn cp_conflict_mc(base: McState, dest: &str, remaining_dest: Vec<String>) -> (r: McState)
    ensures
        r.mv_rebase_in_progress,
        r.mv_rebase_phase@ == "cp"@,
        r.mv_rebase_dest_branch@ == dest@,
        r.mv_rebase_remaining_dest == remaining_dest,
        r.mv_rebase_source_branch == base.mv_rebase_source_branch,
        r.mv_rebase_force == base.mv_rebase_force,
        same_merge_fields(r, base),
        route_spec(r) is MvCp,
{
    let mut m = base;
    m.mv_rebase_in_progress = true;
    m.mv_rebase_phase = String::from_str("cp");
    m.mv_rebase_dest_branch = owned(dest);
    m.mv_rebase_remaining_dest = remaining_dest;
    proof {
        reveal_strlit("cp");
        reveal_strlit("dest");
        assert("cp"@.len() != "dest"@.len());
    }
    m
}

/// The prio-mc state when a move stops on a conflict while rebasing a source branch;
/// the post-commit hook then finishes that rebase.
pub fn source_conflict_mc(
    base: McState,
    source: &str,
    dest: &str,
    remaining: Vec<String>,
    source_is_pushed: bool,
    force: bool,
) -> (r: McState)
    ensures
        r.mv_rebase_in_progress,
        r.mv_rebase_phase@ == "source"@,
        r.mv_rebase_source_branch@ == source@,
        r.mv_rebase_dest_branch@ == dest@,
        r.mv_rebase_remaining_commits == remaining,
        r.mv_rebase_source_is_pushed == source_is_pushed,
        r.mv_rebase_force == force,
        same_merge_fields(r, base),
        route_spec(r) is MvSource,
{
    let mut m = base;
    m.mv_rebase_in_progress = true;
    m.mv_rebase_phase = String::from_str("source");
    m.mv_rebase_source_branch = owned(source);
    m.mv_rebase_dest_branch = owned(dest);
    m.mv_rebase_remaining_commits = remaining;
    m.mv_rebase_source_is_pushed = source_is_pushed;
    m.mv_rebase_force = force;
    proof {
        reveal_strlit("source");
        reveal_strlit("dest");
        reveal_strlit("cp");
        reveal_strlit("unassign-source");
        reveal_strlit("unassign-pick");
        assert("source"@.len() != "dest"@.len());
        assert("source"@.len() != "cp"@.len());
        assert("source"@.len() != "unassign-source"@.len());
        assert("source"@.len() != "unassign-pick"@.len());
    }
    m
}

/// The prio-mc state when an unassign stops on a conflict while rebasing a source
/// branch: the sources still to rebase (this one first) are recorded with the
/// commits to replay, and the hook continues from there.
pub fn unassign_source_conflict_mc(
    base: McState,
    source: &str,
    remaining: Vec<String>,
    source_is_pushed: bool,
    force: bool,
    all_shas: Vec<String>,
    all_sources: Vec<String>,
    remaining_sources: Vec<String>,
) -> (r: McState)
    ensures
        r.mv_rebase_in_progress,
        r.mv_rebase_phase@ == "unassign-source"@,
        r.mv_rebase_source_branch@ == source@,
        r.mv_rebase_dest_branch@ == "."@,
        r.mv_rebase_remaining_commits == remaining,
        r.mv_rebase_source_is_pushed == source_is_pushed,
        r.mv_rebase_force == force,
        r.mv_rebase_unassign_commits == all_shas,
        r.mv_rebase_unassign_all_sources == all_sources,
        r.mv_rebase_unassign_source_branches == remaining_sources,
        same_merge_fields(r, base),
        route_spec(r) is UnassignSource,
{
    let mut m = base;
    m.mv_rebase_in_progress = true;
    m.mv_rebase_phase = String::from_str("unassign-source");
    m.mv_rebase_source_branch = owned(source);
    m.mv_rebase_dest_branch = String::from_str(".");
    m.mv_rebase_remaining_commits = remaining;
    m.mv_rebase_source_is_pushed = source_is_pushed;
    m.mv_rebase_force = force;
    m.mv_rebase_unassign_commits = all_shas;
    m.mv_rebase_unassign_all_sources = all_sources;
    m.mv_rebase_unassign_source_branches = remaining_sources;
    proof {
        reveal_strlit("unassign-source");
        reveal_strlit("dest");
        reveal_strlit("cp");
        assert("unassign-source"@.len() != "dest"@.len());
        assert("unassign-source"@.len() != "cp"@.len());
    }
    m
}

/// The prio-mc state when replaying unassigned commits on the merge result stops on a
/// conflict: a fresh state that the hook continues in the replay phase.
pub fn unassign_pick_conflict_mc(
    default_branch: &str,
    remaining: Vec<String>,
    merge_head: &str,
    all_sources: Vec<String>,
    all_shas: Vec<String>,
    force: bool,
) -> (r: McState)
    ensures
        r.mv_rebase_in_progress,
        r.mv_rebase_phase@ == "unassign-pick"@,
        r.mv_rebase_remaining_commits == remaining,
        r.mv_rebase_unassign_baseline@ == merge_head@,
        r.mv_rebase_unassign_all_sources == all_sources,
        r.mv_rebase_unassign_commits == all_shas,
        r.mv_rebase_force == force,
        r.default_branch@ == default_branch@,
        !r.merge_in_progress,
        r.pending_merge_branches@.len() == 0,
        r.mv_rebase_source_branch@.len() == 0,
        route_spec(r) is UnassignPick,
{
    let mut m = McState::blank();
    m.mv_rebase_in_progress = true;
    m.mv_rebase_phase = String::from_str("unassign-pick");
    m.mv_rebase_remaining_commits = remaining;
    m.mv_rebase_unassign_baseline = owned(merge_head);
    m.mv_rebase_unassign_all_sources = all_sources;
    m.mv_rebase_unassign_commits = all_shas;
    m.mv_rebase_force = force;
    m.default_branch = owned(default_branch);
    proof {
        reveal_strlit("unassign-pick");
        reveal_strlit("unassign-source");
        reveal_strlit("dest");
        reveal_strlit("cp");
        assert("unassign-source"@.len() != "dest"@.len());
        assert("unassign-source"@.len() != "cp"@.len());
    }
    m
}

/// The conflict record left in the work clone when a move stops on `sha` while
/// cherry-picking onto its destination (continued in the `dest` phase).
pub fn dest_conflict_record(first_source: &str, dest: &str, sha: &str, first_source_is_pushed: bool, mc_path: &str) -> (r: MvRebaseConflict)
    ensures
        r.source_branch@ == first_source@,
        r.dest_branch@ == dest@,
        r.conflicting_commit@ == sha@,
        r.source_is_pushed == first_source_is_pushed,
        r.mc_path@ == mc_path@,
        r.phase@ == "dest"@,
{
    MvRebaseConflict {
        source_branch: owned(first_source),
        dest_branch: owned(dest),
        conflicting_commit: owned(sha),
        source_is_pushed: first_source_is_pushed,
        mc_path: owned(mc_path),
        phase: String::from_str("dest"),
    }
}

/// The conflict record left when a move stops on `sha` while rebasing a source
/// branch (continued in the `source` phase).
pub fn source_conflict_record(source: &str, dest: &str, sha: &str, source_is_pushed: bool, mc_path: &str) -> (r: MvRebaseConflict)
    ensures
        r.source_branch@ == source@,
        r.dest_branch@ == dest@,
        r.conflicting_commit@ == sha@,
        r.source_is_pushed == source_is_pushed,
        r.mc_path@ == mc_path@,
        r.phase@ == "source"@,
{
    MvRebaseConflict {
        source_branch: owned(source),
        dest_branch: owned(dest),
        conflicting_commit: owned(sha),
        source_is_pushed,
        mc_path: owned(mc_path),
        phase: String::from_str("source"),
    }
}

/// The conflict record left when an unassign stops on `sha` while rebasing a source
/// branch: the destination is the work area `.` (continued in `unassign-source`).
pub fn unassign_source_conflict_record(source: &str, sha: &str, source_is_pushed: bool, mc_path: &str) -> (r: MvRebaseConflict)
    ensures
        r.source_branch@ == source@,
        r.dest_branch@ == "."@,
        r.conflicting_commit@ == sha@,
        r.source_is_pushed == source_is_pushed,
        r.mc_path@ == mc_path@,
        r.phase@ == "unassign-source"@,
{
    MvRebaseConflict {
        source_branch: owned(source),
        dest_branch: String::from_str("."),
        conflicting_commit: owned(sha),
        source_is_pushed,
        mc_path: owned(mc_path),
        phase: String::from_str("unassign-source"),
    }
}

/// The conflict record left when replaying an unassigned commit on the merge result
/// stops on `sha`: no source, destination `.` (continued in `unassign-pick`).
pub fn unassign_pick_conflict_record(sha: &str, mc_path: &str) -> (r: MvRebaseConflict)
    ensures
        r.source_branch@.len() == 0,
        r.dest_branch@ == "."@,
        r.conflicting_commit@ == sha@,
        !r.source_is_pushed,
        r.mc_path@ == mc_path@,
        r.phase@ == "unassign-pick"@,
{
    MvRebaseConflict {
        source_branch: String::new(),
        dest_branch: String::from_str("."),
        conflicting_commit: owned(sha),
        source_is_pushed: false,
        mc_path: owned(mc_path),
        phase: String::from_str("unassign-pick"),
    }
}

/// The recorded form of a list of sources: `branch:true` or `branch:false` each.
pub open spec fn encoded_sources(s: Seq<(Seq<char>, bool)>) -> Seq<Seq<char>> {
    s.map_values(|e: (Seq<char>, bool)| crate::services::apply::encode_source_spec(e.0, e.1))
}

/// A recorded list of sources reads back as the list it was recorded from, in order.
pub proof fn law_sources_roundtrip(s: Seq<(Seq<char>, bool)>)
    ensures
        crate::services::apply::decoded_all(encoded_sources(s)) == s,
    decreases s.len(),
{
    if s.len() > 0 {
        law_sources_roundtrip(s.drop_last());
        assert(encoded_sources(s).drop_last() =~= encoded_sources(s.drop_last()));
        crate::services::apply::law_source_roundtrip(s.last().0, s.last().1);
        assert(s.drop_last().push(s.last()) =~= s);
    } else {
        assert(encoded_sources(s) =~= Seq::<Seq<char>>::empty());
    }
}

/// A queued unassign source stopped on a conflict while the hook rebased it: it
/// becomes the current source, with its remaining commits, and the queue is
/// recorded from it on. The phase and the other records stay as they are.
pub fn requeue_unassign_sources(mc: &mut McState, queued: &Vec<(String, bool)>, idx: usize, remaining: Vec<String>)
    requires
        idx < queued.len(),
    ensures
        final(mc).mv_rebase_source_branch@ == queued@[idx as int].0@,
        final(mc).mv_rebase_source_is_pushed == queued@[idx as int].1,
        final(mc).mv_rebase_remaining_commits == remaining,
        views(final(mc).mv_rebase_unassign_source_branches@) == encoded_sources(
            crate::services::apply::source_views(queued@).skip(idx as int),
        ),
        final(mc).mv_rebase_in_progress == old(mc).mv_rebase_in_progress,
        final(mc).mv_rebase_phase == old(mc).mv_rebase_phase,
        final(mc).mv_rebase_dest_branch == old(mc).mv_rebase_dest_branch,
        final(mc).mv_rebase_force == old(mc).mv_rebase_force,
        final(mc).mv_rebase_unassign_commits == old(mc).mv_rebase_unassign_commits,
        final(mc).mv_rebase_unassign_all_sources == old(mc).mv_rebase_unassign_all_sources,
        same_merge_fields(*final(mc), *old(mc)),
{
    let mut encoded: Vec<String> = Vec::new();
    let mut i: usize = idx;
    while i < queued.len()
        invariant
            idx <= i <= queued.len(),
            views(encoded@) == encoded_sources(
                crate::services::apply::source_views(queued@).subrange(idx as int, i as int),
            ),
        decreases queued.len() - i,
    {
        let ghost prev = encoded@;
        encoded.push(crate::services::apply::encode_source(queued[i].0.as_str(), queued[i].1));
        proof {
            let sv = crate::services::apply::source_views(queued@);
            assert(sv.subrange(idx as int, i + 1) =~= sv.subrange(idx as int, i as int).push(sv[i as int]));
            assert(views(encoded@) =~= views(prev).push(crate::services::apply::encode_source_spec(queued@[i as int].0@, queued@[i as int].1)));
            assert(views(encoded@) =~= encoded_sources(sv.subrange(idx as int, i + 1)));
        }
        i = i + 1;
    }
    proof {
        let sv = crate::services::apply::source_views(queued@);
        assert(sv.subrange(idx as int, queued@.len() as int) =~= sv.skip(idx as int));
    }
    mc.mv_rebase_source_branch = owned(queued[idx].0.as_str());
    mc.mv_rebase_source_is_pushed = queued[idx].1;
    mc.mv_rebase_remaining_commits = remaining;
    mc.mv_rebase_unassign_source_branches = encoded;
}

/// A move's destination is finished: the hook goes on with the source rebase, with
/// no destination commits left. The rest of the record stays as it is.
pub fn enter_source_phase(mc: &mut McState)
    ensures
        final(mc).mv_rebase_phase@ == "source"@,
        final(mc).mv_rebase_remaining_dest@.len() == 0,
        final(mc).mv_rebase_in_progress == old(mc).mv_rebase_in_progress,
        final(mc).mv_rebase_source_branch == old(mc).mv_rebase_source_branch,
        final(mc).mv_rebase_dest_branch == old(mc).mv_rebase_dest_branch,
        final(mc).mv_rebase_remaining_commits == old(mc).mv_rebase_remaining_commits,
        final(mc).mv_rebase_source_shas_to_exclude == old(mc).mv_rebase_source_shas_to_exclude,
        final(mc).mv_rebase_source_is_pushed == old(mc).mv_rebase_source_is_pushed,
        final(mc).mv_rebase_force == old(mc).mv_rebase_force,
        final(mc).mv_rebase_unassign_commits == old(mc).mv_rebase_unassign_commits,
        final(mc).mv_rebase_unassign_all_sources == old(mc).mv_rebase_unassign_all_sources,
        same_merge_fields(*final(mc), *old(mc)),
        old(mc).mv_rebase_in_progress ==> route_spec(*final(mc)) is MvSource,
{
    mc.mv_rebase_phase = String::from_str("source");
    mc.mv_rebase_remaining_dest = Vec::new();
    proof {
        reveal_strlit("source");
        reveal_strlit("dest");
        reveal_strlit("cp");
        reveal_strlit("unassign-source");
        reveal_strlit("unassign-pick");
        assert("source"@.len() != "dest"@.len());
        assert("source"@.len() != "cp"@.len());
        assert("source"@.len() != "unassign-source"@.len());
        assert("source"@.len() != "unassign-pick"@.len());
    }
}

/// The source rebase that follows a move's destination stopped on a conflict: the
/// commits after it are what remains of the source phase. Nothing else changes.
pub fn record_source_remaining(mc: &mut McState, remaining: Vec<String>)
    ensures
        final(mc).mv_rebase_remaining_commits == remaining,
        *final(mc) == (McState { mv_rebase_remaining_commits: final(mc).mv_rebase_remaining_commits, ..*old(mc) }),
{
    mc.mv_rebase_remaining_commits = remaining;
}

/// The prio-mc state when the apply that finishes an unassign stops on a merge
/// conflict: the merge's state (`done`) with the unassigned commits, all the
/// unassign's sources and the force flag recorded, so that the hook replays the
/// commits once the merge completes.
pub fn unassign_merge_conflict_mc(done: McState, unassign_shas: Vec<String>, all_sources: Vec<String>, force: bool) -> (r: McState)
    ensures
        r.mv_rebase_unassign_commits == unassign_shas,
        r.mv_rebase_unassign_all_sources == all_sources,
        r.mv_rebase_force == force,
        r == (McState {
            mv_rebase_unassign_commits: r.mv_rebase_unassign_commits,
            mv_rebase_unassign_all_sources: r.mv_rebase_unassign_all_sources,
            mv_rebase_force: r.mv_rebase_force,
            ..done
        }),
{
    let mut m = done;
    m.mv_rebase_unassign_commits = unassign_shas;
    m.mv_rebase_unassign_all_sources = all_sources;
    m.mv_rebase_force = force;
    m
}

/// What `prio mv` does with work-area commits once the destination is known.
pub enum WorkAreaPlan {
    /// Every commit is already on the destination's tip: record the assignment only.
    Tag,
    /// The destination is `.`: the commits stay in the work area, marked unassigned.
    Unassign,
    /// Cherry-pick the commits onto the destination in prio-mc.
    CherryPick,
}

/// Decides how work-area commits move: a destination that already holds them all is
/// only recorded (also when it is pushed); `.` unassigns; anything else is picked.
pub fn work_area_plan(unassign: bool, all_on_destination: bool) -> (r: WorkAreaPlan)
    ensures
        !unassign && all_on_destination ==> r is Tag,
        unassign ==> r is Unassign,
        !unassign && !all_on_destination ==> r is CherryPick,
{
    if !unassign && all_on_destination {
        WorkAreaPlan::Tag
    } else if unassign {
        WorkAreaPlan::Unassign
    } else {
        WorkAreaPlan::CherryPick
    }
}

/// What follows the cherry-picks of work-area commits in prio-mc.
pub enum AfterWorkPicks {
    /// No unassigned commit is left and branches are applied: rebuild the work area.
    Reapply,
    /// Unassigned commits remain and the destination is pushed: push it from prio-mc.
    PushDestination,
    /// Unassigned commits remain and the destination is local: fetch it into the work clone.
    FetchDestination,
}

pub fn after_work_picks(unassigned_left: usize, applied_count: usize, destination_pushed: bool) -> (r: AfterWorkPicks)
    ensures
        unassigned_left == 0 && applied_count > 0 ==> r is Reapply,
        !(unassigned_left == 0 && applied_count > 0) && destination_pushed ==> r is PushDestination,
        !(unassigned_left == 0 && applied_count > 0) && !destination_pushed ==> r is FetchDestination,
{
    if unassigned_left == 0 && applied_count > 0 {
        AfterWorkPicks::Reapply
    } else if destination_pushed {
        AfterWorkPicks::PushDestination
    } else {
        AfterWorkPicks::FetchDestination
    }
}

/// The destination commits still to pick after the one at `at` that conflicted.
pub fn picks_after(shas: &Vec<String>, at: usize) -> (r: Vec<String>)
    requires
        at < shas.len(),
    ensures
        r@ == shas@.subrange(at + 1, shas@.len() as int),
{
    slice_strings(shas, at + 1, shas.len())
}

/// The recorded sources still to rebase, from the one at `at` (which stopped) on.
pub fn sources_from(encoded: &Vec<String>, at: usize) -> (r: Vec<String>)
    requires
        at <= encoded.len(),
    ensures
        r@ == encoded@.subrange(at as int, encoded@.len() as int),
{
    slice_strings(encoded, at, encoded.len())
}

/// The source named in the record of a destination conflict: the first source
/// branch, or none (empty) when there is none.
pub fn first_source(sources: &Vec<String>) -> (r: String)
    ensures
        sources.len() > 0 ==> r@ == sources@[0]@,
        sources.len() == 0 ==> r@.len() == 0,
{
    if sources.len() > 0 {
        sources[0].clone()
    } else {
        String::new()
    }
}

/// The commits of all sources, in source order.
pub open spec fn flat_spec(lists: Seq<Vec<String>>) -> Seq<String>
    decreases lists.len(),
{
    if lists.len() == 0 {
        Seq::empty()
    } else {
        flat_spec(lists.drop_last()) + lists.last()@
    }
}

/// The commits of all sources in one list (the move's commits to exclude when the
/// sources are rebased).
pub fn flat_source_shas(lists: &Vec<Vec<String>>) -> (r: Vec<String>)
    ensures
        r@ == flat_spec(lists@),
{
    let mut r: Vec<String> = Vec::new();
    let mut i: usize = 0;
    while i < lists.len()
        invariant
            i <= lists.len(),
            r@ == flat_spec(lists@.take(i as int)),
        decreases lists.len() - i,
    {
        proof {
            assert(lists@.take(i + 1).drop_last() =~= lists@.take(i as int));
        }
        let ghost before = r@;
        let l = &lists[i];
        let mut j: usize = 0;
        while j < l.len()
            invariant
                j <= l.len(),
                r@ == before + l@.take(j as int),
            decreases l.len() - j,
        {
            r.push(l[j].clone());
            proof {
                assert(r@ =~= before + l@.take(j + 1));
            }
            j = j + 1;
        }
        proof {
            assert(l@.take(l@.len() as int) =~= l@);
            assert(lists@.take(i + 1).last() == lists@[i as int]);
        }
        i = i + 1;
    }
    assert(lists@.take(lists@.len() as int) =~= lists@);
    r
}

/// The sources with their pushed flags, paired.
pub open spec fn flagged(sources: Seq<Seq<char>>, pushed: Seq<bool>) -> Seq<(Seq<char>, bool)> {
    Seq::new(sources.len(), |i: int| (sources[i], pushed[i]))
}

/// The recorded form of each source of an unassign (`branch:true` / `branch:false`).
pub fn encode_sources(sources: &Vec<String>, pushed: &Vec<bool>) -> (r: Vec<String>)
    requires
        pushed.len() == sources.len(),
    ensures
        views(r@) == encoded_sources(flagged(views(sources@), pushed@)),
{
    let mut r: Vec<String> = Vec::new();
    let mut i: usize = 0;
    while i < sources.len()
        invariant
            i <= sources.len(),
            pushed.len() == sources.len(),
            views(r@) == encoded_sources(flagged(views(sources@), pushed@).take(i as int)),
        decreases sources.len() - i,
    {
        let ghost before = r@;
        r.push(crate::services::apply::encode_source(sources[i].as_str(), pushed[i]));
        proof {
            let f = flagged(views(sources@), pushed@);
            assert(f.take(i + 1) =~= f.take(i as int).push(f[i as int]));
            assert(views(r@) =~= views(before).push(crate::services::apply::encode_source_spec(f[i as int].0, f[i as int].1)));
            assert(views(r@) =~= encoded_sources(f.take(i + 1)));
        }
        i = i + 1;
    }
    assert(flagged(views(sources@), pushed@).take(sources@.len() as int) =~= flagged(views(sources@), pushed@));
    r
}

/// What a cross-branch move does with its destination once the apply succeeded.
pub enum DestinationSync {
    /// The destination is applied: the apply brought it along.
    Nothing,
    /// The destination is pushed: push it from prio-mc.
    Push,
    /// The destination is local: fetch it from prio-mc into the work clone.
    Fetch,
}

pub fn destination_sync(dest_applied: bool, dest_pushed: bool) -> (r: DestinationSync)
    ensures
        dest_applied ==> r is Nothing,
        !dest_applied && dest_pushed ==> r is Push,
        !dest_applied && !dest_pushed ==> r is Fetch,
{
    if dest_applied {
        DestinationSync::Nothing
    } else if dest_pushed {
        DestinationSync::Push
    } else {
        DestinationSync::Fetch
    }
}

/// The pushed sources, in order.
pub open spec fn pushed_sources(sources: Seq<Seq<char>>, pushed: Seq<bool>) -> Seq<Seq<char>>
    decreases sources.len(),
{
    if sources.len() == 0 || pushed.len() == 0 {
        Seq::empty()
    } else {
        let p = pushed_sources(sources.drop_last(), pushed.drop_last());
        if pushed.last() {
            p.push(sources.last())
        } else {
            p
        }
    }
}

/// How many flags are set.
pub open spec fn count_set(flags: Seq<bool>) -> nat
    decreases flags.len(),
{
    if flags.len() == 0 {
        0
    } else {
        count_set(flags.drop_last()) + if flags.last() { 1nat } else { 0nat }
    }
}

/// With `-f`, the sources force-pushed after a move are exactly the pushed ones: one
/// entry per set flag, each source whose flag is set among them, and nothing else.
pub proof fn law_force_push_every_pushed_source(sources: Seq<Seq<char>>, pushed: Seq<bool>)
    requires
        pushed.len() == sources.len(),
    ensures
        pushed_sources(sources, pushed).len() == count_set(pushed),
        forall|i: int| 0 <= i < sources.len() && #[trigger] pushed[i] ==> pushed_sources(sources, pushed).contains(sources[i]),
        forall|x: Seq<char>| #[trigger] pushed_sources(sources, pushed).contains(x) ==> exists|i: int|
            0 <= i < sources.len() && pushed[i] && sources[i] == x,
    decreases sources.len(),
{
    if sources.len() > 0 {
        let s0 = sources.drop_last();
        let p0 = pushed.drop_last();
        law_force_push_every_pushed_source(s0, p0);
        let r0 = pushed_sources(s0, p0);
        let r = pushed_sources(sources, pushed);
        let n = sources.len() - 1;
        assert forall|i: int| 0 <= i < sources.len() && #[trigger] pushed[i] implies r.contains(sources[i]) by {
            if i < n {
                assert(p0[i] == pushed[i] && s0[i] == sources[i]);
                let k = choose|k: int| 0 <= k < r0.len() && r0[k] == sources[i];
                if pushed.last() {
                    assert(r[k] == r0[k]);
                }
            } else {
                assert(r[r.len() - 1] == sources.last());
            }
        }
        assert forall|x: Seq<char>| #[trigger] r.contains(x) implies exists|i: int|
            0 <= i < sources.len() && pushed[i] && sources[i] == x by {
            let k = choose|k: int| 0 <= k < r.len() && r[k] == x;
            if k < r0.len() {
                assert(r0[k] == x);
                assert(r0.contains(x));
                let i = choose|i: int| 0 <= i < s0.len() && p0[i] && s0[i] == x;
                assert(pushed[i] && sources[i] == x);
            } else {
                assert(pushed[n] && sources[n] == x);
            }
        }
    }
}

/// The sources force-pushed after a forced move: the pushed ones, and none without `-f`.
pub fn sources_to_force_push(sources: &Vec<String>, pushed: &Vec<bool>, force: bool) -> (r: Vec<String>)
    requires
        pushed.len() == sources.len(),
    ensures
        !force ==> r@.len() == 0,
        force ==> views(r@) == pushed_sources(views(sources@), pushed@),
{
    let mut r: Vec<String> = Vec::new();
    if !force {
        return r;
    }
    let mut i: usize = 0;
    while i < sources.len()
        invariant
            i <= sources.len(),
            pushed.len() == sources.len(),
            views(r@) == pushed_sources(views(sources@).take(i as int), pushed@.take(i as int)),
        decreases sources.len() - i,
    {
        proof {
            assert(views(sources@).take(i + 1).drop_last() =~= views(sources@).take(i as int));
            assert(pushed@.take(i + 1).drop_last() =~= pushed@.take(i as int));
        }
        if pushed[i] {
            let ghost before = r@;
            r.push(sources[i].clone());
            assert(views(r@) =~= views(before).push(sources@[i as int]@));
        }
        i = i + 1;
    }
    assert(views(sources@).take(sources@.len() as int) =~= views(sources@));
    assert(pushed@.take(pushed@.len() as int) =~= pushed@);
    r
}

/// The force-push record before the apply that ends a move: `branch:true` for each
/// pushed source when forced.
pub fn force_push_record(sources: &Vec<String>, pushed: &Vec<bool>, force: bool) -> (r: Vec<String>)
    requires
        pushed.len() == sources.len(),
    ensures
        !force ==> r@.len() == 0,
        force ==> views(r@) == forced_sources(views(sources@), pushed@),
{
    let mut r: Vec<String> = Vec::new();
    if !force {
        return r;
    }
    let mut i: usize = 0;
    while i < sources.len()
        invariant
            i <= sources.len(),
            pushed.len() == sources.len(),
            views(r@) == forced_sources(views(sources@).take(i as int), pushed@.take(i as int)),
        decreases sources.len() - i,
    {
        proof {
            assert(views(sources@).take(i + 1).drop_last() =~= views(sources@).take(i as int));
            assert(pushed@.take(i + 1).drop_last() =~= pushed@.take(i as int));
        }
        if pushed[i] {
            let ghost prev = r@;
            r.push(crate::services::apply::encode_source(sources[i].as_str(), true));
            assert(views(r@) =~= views(prev).push(crate::services::apply::encode_source_spec(sources@[i as int]@, true)));
        }
        i = i + 1;
    }
    assert(views(sources@).take(sources@.len() as int) =~= views(sources@));
    assert(pushed@.take(sources@.len() as int) =~= pushed@);
    r
}

/// Records, before the apply that ends a move, which sources to force-push once it
/// completes (see [`force_push_record`]); the force flag is set exactly when there is one.
pub fn record_pending_force_pushes(mc: &mut McState, sources: &Vec<String>, pushed: &Vec<bool>, force: bool)
    requires
        pushed.len() == sources.len(),
    ensures
        !force ==> final(mc).mv_pending_force_push_sources@.len() == 0,
        force ==> views(final(mc).mv_pending_force_push_sources@) == forced_sources(views(sources@), pushed@),
        final(mc).mv_rebase_force == (final(mc).mv_pending_force_push_sources@.len() > 0),
        final(mc).mv_rebase_in_progress == old(mc).mv_rebase_in_progress,
        final(mc).mv_rebase_phase == old(mc).mv_rebase_phase,
        final(mc).merge_in_progress == old(mc).merge_in_progress,
        final(mc).pending_merge_branches == old(mc).pending_merge_branches,
        final(mc).pending_merge_index == old(mc).pending_merge_index,
        final(mc).default_branch == old(mc).default_branch,
        final(mc).merge_branch == old(mc).merge_branch,
{
    let record = force_push_record(sources, pushed, force);
    mc.mv_rebase_force = record.len() > 0;
    mc.mv_pending_force_push_sources = record;
}

/// The recorded form of the pushed sources.
pub open spec fn forced_sources(sources: Seq<Seq<char>>, pushed: Seq<bool>) -> Seq<Seq<char>>
    decreases sources.len(),
{
    if sources.len() == 0 || pushed.len() == 0 {
        Seq::empty()
    } else {
        let p = forced_sources(sources.drop_last(), pushed.drop_last());
        if pushed.last() {
            p.push(crate::services::apply::encode_source_spec(sources.last(), true))
        } else {
            p
        }
    }
}

} // verus!
