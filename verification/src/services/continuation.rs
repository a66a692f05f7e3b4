//! What the prio-mc post-commit hook and the cross-branch moves report while they
//! continue an interrupted operation, and how prio-mc's branch list is cleaned.
use vstd::prelude::*;
use vstd::string::StringExecFns;
use crate::services::apply::PostCommitRoute;
use crate::services::common::CherryPickOnMc;
use crate::services::mv::opt_view;
use crate::storage::repo_state::McState;
use crate::strings::{
    concat2, concat3, has_prefix, is_ws, lines_spec, lines, owned, push_string, slice_strings, str_eq, trim, trim_end_spec,
    trim_spec, trim_start_spec, views,
};

verus! {

/// A line of `git branch --list` as a name: trimmed, the `*` of the current branch
/// dropped, trimmed again.
pub open spec fn listed_branch(l: Seq<char>) -> Seq<char> {
    let t = trim_spec(l);
    trim_spec(if t.len() > 0 && t[0] == '*' { strip_stars(t) } else { t })
}

/// `s` without its leading `*` characters.
pub open spec fn strip_stars(s: Seq<char>) -> Seq<char>
    decreases s.len(),
{
    if s.len() > 0 && s[0] == '*' {
        strip_stars(s.drop_first())
    } else {
        s
    }
}

/// The branches of a `git branch --list` output to delete when prio-mc is reset:
/// every listed branch but the default one.
pub open spec fn stale_branches(ls: Seq<Seq<char>>, default_branch: Seq<char>) -> Seq<Seq<char>>
    decreases ls.len(),
{
    if ls.len() == 0 {
        Seq::empty()
    } else {
        let p = stale_branches(ls.drop_last(), default_branch);
        let b = listed_branch(ls.last());
        if b.len() == 0 || b == default_branch {
            p
        } else {
            p.push(b)
        }
    }
}

proof fn lemma_trim_start_shape(s: Seq<char>)
    ensures
        trim_start_spec(s).len() == 0 || !is_ws(trim_start_spec(s)[0]),
        trim_start_spec(s).len() <= s.len(),
    decreases s.len(),
{
    if s.len() > 0 && is_ws(s[0]) {
        lemma_trim_start_shape(s.drop_first());
    }
}

proof fn lemma_trim_end_shape(s: Seq<char>)
    ensures
        trim_end_spec(s).len() == 0 || !is_ws(trim_end_spec(s).last()),
        trim_end_spec(s).len() <= s.len(),
        trim_end_spec(s) == s.take(trim_end_spec(s).len() as int),
    decreases s.len(),
{
    if s.len() > 0 && is_ws(s.last()) {
        lemma_trim_end_shape(s.drop_last());
        let t = trim_end_spec(s.drop_last());
        assert(s.drop_last().take(t.len() as int) =~= s.take(t.len() as int));
    } else {
        assert(s.take(s.len() as int) =~= s);
    }
}

/// Trimming a trimmed text changes nothing.
pub proof fn lemma_trim_idempotent(s: Seq<char>)
    ensures
        trim_spec(trim_spec(s)) == trim_spec(s),
{
    let a = trim_start_spec(s);
    lemma_trim_start_shape(s);
    lemma_trim_end_shape(a);
    let u = trim_end_spec(a);
    if u.len() > 0 {
        assert(u[0] == a[0]);
        assert(trim_start_spec(u) == u);
        assert(trim_end_spec(u) == u);
    } else {
        assert(trim_start_spec(u) == u);
        assert(trim_end_spec(u) == u);
    }
}

/// Every branch the prio-mc reset deletes is the name read from one of the listed
/// lines, without surrounding whitespace, not empty, and never the default branch.
pub proof fn law_stale_branches(ls: Seq<Seq<char>>, default_branch: Seq<char>)
    ensures
        forall|k: int| 0 <= k < stale_branches(ls, default_branch).len() ==> {
            let e = #[trigger] stale_branches(ls, default_branch)[k];
            &&& e != default_branch
            &&& e.len() > 0
            &&& trim_spec(e) == e
            &&& exists|j: int| 0 <= j < ls.len() && listed_branch(ls[j]) == e
        },
    decreases ls.len(),
{
    if ls.len() > 0 {
        law_stale_branches(ls.drop_last(), default_branch);
        let p = stale_branches(ls.drop_last(), default_branch);
        let b = listed_branch(ls.last());
        let t = trim_spec(ls.last());
        lemma_trim_idempotent(if t.len() > 0 && t[0] == '*' { strip_stars(t) } else { t });
        let r = stale_branches(ls, default_branch);
        assert forall|k: int| 0 <= k < r.len() implies {
            let e = #[trigger] r[k];
            &&& e != default_branch
            &&& e.len() > 0
            &&& trim_spec(e) == e
            &&& exists|j: int| 0 <= j < ls.len() && listed_branch(ls[j]) == e
        } by {
            if k < p.len() {
                assert(r[k] == p[k]);
                let j = choose|j: int| 0 <= j < ls.drop_last().len() && listed_branch(ls.drop_last()[j]) == p[k];
                assert(ls[j] == ls.drop_last()[j]);
            } else {
                assert(r[k] == b);
                assert(ls[ls.len() - 1] == ls.last());
            }
        }
    }
}

/// The default branch's line in `git branch --list`, marked current (`* main`) or
/// not (`  main`), reads as the default branch itself, so the reset never deletes it.
pub proof fn law_default_line_kept(d: Seq<char>)
    requires
        d.len() > 0,
        trim_spec(d) == d,
        d[0] != '*',
    ensures
        listed_branch(seq!['*', ' '] + d) == d,
        listed_branch(seq![' ', ' '] + d) == d,
        stale_branches(seq![seq!['*', ' '] + d], d).len() == 0,
        stale_branches(seq![seq![' ', ' '] + d], d).len() == 0,
{
    lemma_trim_start_shape(d);
    lemma_trim_end_shape(trim_start_spec(d));
    assert(!is_ws(d.last()));
    assert(!is_ws(d[0])) by {
        assert(d[0] == trim_end_spec(trim_start_spec(d))[0]);
        assert(trim_start_spec(d)[0] == d[0]);
    }
    assert(trim_start_spec(d) == d);
    assert(trim_end_spec(d) == d);
    assert(is_ws(' '));
    assert(!is_ws('*'));
    let starred = seq!['*', ' '] + d;
    let plain = seq![' ', ' '] + d;
    let sd = seq![' '] + d;
    assert(starred.last() == d.last());
    assert(trim_start_spec(starred) == starred);
    assert(trim_end_spec(starred) == starred);
    assert(starred.drop_first() =~= sd);
    assert(strip_stars(sd) == sd);
    assert(strip_stars(starred) == sd);
    assert(sd.drop_first() =~= d);
    assert(trim_start_spec(sd) == d);
    assert(plain.drop_first() =~= sd);
    assert(trim_start_spec(plain) == d);
    assert(listed_branch(starred) == d);
    assert(listed_branch(plain) == d);
    let l1 = seq![starred];
    let l2 = seq![plain];
    assert(l1.drop_last() =~= Seq::<Seq<char>>::empty());
    assert(l2.drop_last() =~= Seq::<Seq<char>>::empty());
    assert(l1.last() == starred);
    assert(l2.last() == plain);
    assert(stale_branches(Seq::<Seq<char>>::empty(), d).len() == 0);
    assert(stale_branches(l1, d) == stale_branches(l1.drop_last(), d));
    assert(stale_branches(l2, d) == stale_branches(l2.drop_last(), d));
}

fn strip_leading_stars(s: &str) -> (r: String)
    ensures
        r@ == strip_stars(s@),
{
    let v = crate::strings::chars_of(s);
    let mut k: usize = 0;
    proof {
        assert(s@.skip(0) =~= s@);
    }
    while k < v.len() && v[k] == '*'
        invariant
            k <= v.len(),
            v@ == s@,
            strip_stars(s@) == strip_stars(s@.skip(k as int)),
        decreases v.len() - k,
    {
        proof {
            assert(s@.skip(k as int).drop_first() =~= s@.skip(k + 1));
        }
        k = k + 1;
    }
    proof {
        if k == v.len() {
            assert(s@.skip(k as int).len() == 0);
        }
    }
    let r = crate::strings::string_of_range(&v, k, v.len());
    proof {
        assert(r@ =~= s@.skip(k as int));
    }
    r
}

/// The branches to delete from prio-mc after it is reset to the default branch,
/// from the output of `git branch --list` there.
pub fn mc_branches_to_delete(list: &str, default_branch: &str) -> (r: Vec<String>)
    ensures
        views(r@) == stale_branches(lines_spec(list@), default_branch@),
{
    let ls = lines(list);
    let mut r: Vec<String> = Vec::new();
    let mut i: usize = 0;
    while i < ls.len()
        invariant
            i <= ls.len(),
            views(ls@) == lines_spec(list@),
            views(r@) == stale_branches(views(ls@).take(i as int), default_branch@),
        decreases ls.len() - i,
    {
        proof {
            assert(views(ls@).take(i + 1).drop_last() =~= views(ls@).take(i as int));
        }
        let t = trim(ls[i].as_str());
        let starred = crate::strings::starts_with(t.as_str(), "*");
        proof {
            reveal_strlit("*");
            if t@.len() > 0 && t@[0] == '*' {
                assert(t@.subrange(0, 1) =~= "*"@);
                assert(has_prefix(t@, "*"@));
            }
            if has_prefix(t@, "*"@) {
                assert(t@[0] == "*"@[0]);
            }
        }
        let u = if starred { strip_leading_stars(t.as_str()) } else { t };
        let b = trim(u.as_str());
        if b.as_str().unicode_len() > 0 && !str_eq(b.as_str(), default_branch) {
            push_string(&mut r, b);
        }
        i = i + 1;
    }
    proof {
        assert(views(ls@).take(ls@.len() as int) =~= views(ls@));
    }
    r
}

/// A continued merge finished.
pub fn merge_continued_message() -> (r: String)
    ensures
        r@ == "Merge continuation completed."@,
{
    String::from_str("Merge continuation completed.")
}

/// The hook ran in prio-mc with nothing in progress.
pub fn no_merge_message() -> (r: String)
    ensures
        r@ == "No merge in progress."@,
{
    String::from_str("No merge in progress.")
}

/// No registered repository uses this prio-mc clone (`for_rebase` when a move or
/// copy was being continued).
pub fn unknown_work_clone_message(for_rebase: bool) -> (r: String)
    ensures
        for_rebase ==> r@ == "Could not find work clone for this prio-mc repo."@,
        !for_rebase ==> r@ == "Could not find work clone for this mc repo."@,
{
    if for_rebase {
        String::from_str("Could not find work clone for this prio-mc repo.")
    } else {
        String::from_str("Could not find work clone for this mc repo.")
    }
}

pub open spec fn replay_conflict_text(sha: Seq<char>, mc_path: Seq<char>) -> Seq<char> {
    "Cherry-pick conflict for "@ + sha
        + " while replaying unassigned commits onto the work branch in prio-mc.\nResolve the conflict in: "@
        + mc_path + "\nThen run: git -C \""@ + mc_path + "\" commit --no-edit"@
}

/// Replaying unassigned commits on the merge result stopped on `sha`.
pub fn replay_conflict_message(sha: &str, mc_path: &str) -> (r: String)
    ensures
        r@ == replay_conflict_text(sha@, mc_path@),
{
    let mut m = concat3(
        "Cherry-pick conflict for ",
        sha,
        " while replaying unassigned commits onto the work branch in prio-mc.\nResolve the conflict in: ",
    );
    m.append(mc_path);
    m.append("\nThen run: git -C \"");
    m.append(mc_path);
    m.append("\" commit --no-edit");
    m
}

/// A cherry-pick was refused while continuing; `in_mc` names prio-mc.
pub fn pick_failed_message(sha: &str, in_mc: bool) -> (r: String)
    ensures
        in_mc ==> r@ == "Cherry-pick of "@ + sha@ + " failed in prio-mc. Run `prio abort` to clean up."@,
        !in_mc ==> r@ == "Cherry-pick of "@ + sha@ + " failed. Run `prio abort` to clean up."@,
{
    if in_mc {
        concat3("Cherry-pick of ", sha, " failed in prio-mc. Run `prio abort` to clean up.")
    } else {
        concat3("Cherry-pick of ", sha, " failed. Run `prio abort` to clean up.")
    }
}

/// A cherry-pick onto the destination was refused while continuing.
pub fn dest_pick_failed_message(sha: &str, dest: &str) -> (r: String)
    ensures
        r@ == "Cherry-pick of "@ + sha@ + " onto '"@ + dest@ + "' failed. Run `prio abort` to clean up."@,
{
    let mut m = concat3("Cherry-pick of ", sha, " onto '");
    m.append(dest);
    m.append("' failed. Run `prio abort` to clean up.");
    m
}

/// An unassign finished: its commits are back in the work area.
pub fn unassigned_moved_message() -> (r: String)
    ensures
        r@ == "Unassigned commits moved to work area."@,
{
    String::from_str("Unassigned commits moved to work area.")
}

/// Another conflict while finishing the cherry-picks onto the destination.
pub fn dest_again_message(sha: &str, dest: &str) -> (r: String)
    ensures
        r@ == "Another conflict at "@ + sha@ + " while finishing cherry-picks onto '"@ + dest@
            + "'. Run `prio status` for instructions."@,
{
    let mut m = concat3("Another conflict at ", sha, " while finishing cherry-picks onto '");
    m.append(dest);
    m.append("'. Run `prio status` for instructions.");
    m
}

/// A conflict while rebasing the source branch (`again` after an earlier one).
pub fn source_conflict_message(sha: &str, source: &str, again: bool) -> (r: String)
    ensures
        again ==> r@ == "Another conflict at "@ + sha@ + " rebasing '"@ + source@
            + "'. Run `prio status` for instructions."@,
        !again ==> r@ == "Conflict at "@ + sha@ + " rebasing '"@ + source@ + "'. Run `prio status` for instructions."@,
{
    let mut m = if again {
        concat3("Another conflict at ", sha, " rebasing '")
    } else {
        concat3("Conflict at ", sha, " rebasing '")
    };
    m.append(source);
    m.append("'. Run `prio status` for instructions.");
    m
}

/// A conflict while rebasing a further source branch of an unassign.
pub fn queued_source_conflict_message(source: &str, sha: &str) -> (r: String)
    ensures
        r@ == "Cherry-pick conflict while rebasing '"@ + source@ + "': commit "@ + sha@
            + " conflicts. Run `prio status` for instructions."@,
{
    let mut m = concat3("Cherry-pick conflict while rebasing '", source, "': commit ");
    m.append(sha);
    m.append(" conflicts. Run `prio status` for instructions.");
    m
}

/// Another conflict while replaying unassigned commits.
pub fn replay_again_message(sha: &str) -> (r: String)
    ensures
        r@ == "Another conflict at "@ + sha@ + " while replaying unassigned commits. Run `prio status` for instructions."@,
{
    concat3("Another conflict at ", sha, " while replaying unassigned commits. Run `prio status` for instructions.")
}

/// A copy finished after its conflict was resolved.
pub fn copy_done_message(dest: &str) -> (r: String)
    ensures
        r@ == "Copy to '"@ + dest@ + "' completed."@,
{
    concat3("Copy to '", dest, "' completed.")
}

/// The work clone's post-commit hook recorded the state.
pub fn last_good_recorded_message() -> (r: String)
    ensures
        r@ == "Recorded last known good state."@,
{
    String::from_str("Recorded last known good state.")
}

/// A cross-branch move or unassign stopped while rebasing `source` (`unassign`
/// for an unassign).
pub fn cross_source_conflict_message(source: &str, sha: &str, unassign: bool) -> (r: String)
    ensures
        unassign ==> r@ == "Cherry-pick conflict while rebasing '"@ + source@ + "' to unassign commit(s): commit "@
            + sha@ + " conflicts.\nRun `prio status` for resolution instructions."@,
        !unassign ==> r@ == "Cherry-pick conflict while rebasing '"@ + source@
            + "' to remove moved commits: commit "@ + sha@
            + " conflicts.\nRun `prio status` for resolution instructions."@,
{
    let mut m = if unassign {
        concat3("Cherry-pick conflict while rebasing '", source, "' to unassign commit(s): commit ")
    } else {
        concat3("Cherry-pick conflict while rebasing '", source, "' to remove moved commits: commit ")
    };
    m.append(sha);
    m.append(" conflicts.\nRun `prio status` for resolution instructions.");
    m
}

/// A cross-branch move's cherry-pick onto the destination was refused.
pub fn cross_dest_refused_message(sha: &str, dest: &str, mc_path: &str) -> (r: String)
    ensures
        r@ == "Cherry-pick of "@ + sha@ + " onto '"@ + dest@ + "' failed in prio-mc at "@ + mc_path@
            + ". Run `prio abort` to clean up stale prio-mc branches."@,
{
    let mut m = concat3("Cherry-pick of ", sha, " onto '");
    m.append(dest);
    m.append("' failed in prio-mc at ");
    m.append(mc_path);
    m.append(". Run `prio abort` to clean up stale prio-mc branches.");
    m
}

/// `prio unsetup` was not confirmed.
pub fn unsetup_cancelled_message() -> (r: String)
    ensures
        r@ == "Unsetup cancelled."@,
{
    String::from_str("Unsetup cancelled.")
}

/// The end of `prio setup`: with the branches recorded as applied, or plain.
pub fn setup_done_message(work_branch: &str, applied: &Vec<String>) -> (r: String)
    ensures
        applied@.len() > 0 ==> r@ == "Repository set up on work branch "@ + work_branch@ + " with "@
            + crate::strings::join_spec(views(applied@), ", "@) + " applied."@,
        applied@.len() == 0 ==> r@ == "Repository set up. Work branch: "@ + work_branch@,
{
    if applied.len() > 0 {
        let j = crate::strings::join(applied, ", ");
        let mut m = concat3("Repository set up on work branch ", work_branch, " with ");
        m.append(j.as_str());
        m.append(" applied.");
        m
    } else {
        concat2("Repository set up. Work branch: ", work_branch)
    }
}

/// The routes on which the post-commit hook finishes an interrupted series of
/// cherry-picks in prio-mc.
pub open spec fn picks_route(route: PostCommitRoute) -> bool {
    ||| route is MvDest
    ||| route is MvCp
    ||| route is UnassignSource
    ||| route is UnassignPick
    ||| route is MvSource
}

/// The destination phases (a move's or a copy's), whose remaining commits are
/// `mv_rebase_remaining_dest`; the others keep theirs in `mv_rebase_remaining_commits`.
pub open spec fn dest_route(route: PostCommitRoute) -> bool {
    route is MvDest || route is MvCp
}

/// Where a finished pick is recorded: onto the destination in a destination phase,
/// in the work area (`.`) when replaying unassigned commits, nowhere in a source rebase.
pub open spec fn pick_assignment(route: PostCommitRoute, mc: McState) -> Option<Seq<char>> {
    if dest_route(route) {
        Some(mc.mv_rebase_dest_branch@)
    } else if route is UnassignPick {
        Some("."@)
    } else {
        None
    }
}

/// What the hook reports when a continued pick of `sha` conflicts again.
pub open spec fn again_text(route: PostCommitRoute, mc: McState, sha: Seq<char>) -> Seq<char> {
    if dest_route(route) {
        "Another conflict at "@ + sha + " while finishing cherry-picks onto '"@ + mc.mv_rebase_dest_branch@
            + "'. Run `prio status` for instructions."@
    } else if route is UnassignPick {
        "Another conflict at "@ + sha + " while replaying unassigned commits. Run `prio status` for instructions."@
    } else {
        "Another conflict at "@ + sha + " rebasing '"@ + mc.mv_rebase_source_branch@
            + "'. Run `prio status` for instructions."@
    }
}

/// What the hook reports when a continued pick of `sha` is refused.
pub open spec fn refused_pick_text(route: PostCommitRoute, mc: McState, sha: Seq<char>) -> Seq<char> {
    if dest_route(route) {
        "Cherry-pick of "@ + sha + " onto '"@ + mc.mv_rebase_dest_branch@ + "' failed. Run `prio abort` to clean up."@
    } else {
        "Cherry-pick of "@ + sha + " failed. Run `prio abort` to clean up."@
    }
}

/// One step of the hook's continued cherry-picks.
pub enum ContinueStep {
    /// Go on with the next commit, recording the pick under `assignment` when there is one.
    Next { assignment: Option<String> },
    /// The pick conflicted: prio-mc's state records what remains; report `message`.
    Stop { message: String },
    /// The pick was refused: fail with `message`.
    Fail { message: String },
}

/// The hook continues the cherry-picks of an interrupted move, copy or unassign:
/// `outcome` is what picking `remaining[i]` in prio-mc came to. A picked (or empty)
/// commit leaves prio-mc's state as it is; a conflict records the commits after it as
/// the phase's remaining list and stops; a refused pick fails.
pub fn continue_pick_step(
    mc: &mut McState,
    route: PostCommitRoute,
    remaining: &Vec<String>,
    i: usize,
    outcome: CherryPickOnMc,
) -> (r: ContinueStep)
    requires
        i < remaining.len(),
        picks_route(route),
    ensures
        (outcome is Applied || outcome is SkippedEmpty) ==> *final(mc) == *old(mc) && (r matches ContinueStep::Next {
            assignment,
        } && opt_view(assignment) == pick_assignment(route, *old(mc))),
        outcome is Conflict ==> (r matches ContinueStep::Stop { message } && message@ == again_text(
            route,
            *old(mc),
            remaining@[i as int]@,
        )),
        outcome is Conflict && dest_route(route) ==> final(mc).mv_rebase_remaining_dest@ == remaining@.subrange(
            i + 1,
            remaining@.len() as int,
        ) && *final(mc) == (McState { mv_rebase_remaining_dest: final(mc).mv_rebase_remaining_dest, ..*old(mc) }),
        outcome is Conflict && !dest_route(route) ==> final(mc).mv_rebase_remaining_commits@ == remaining@.subrange(
            i + 1,
            remaining@.len() as int,
        ) && *final(mc) == (McState { mv_rebase_remaining_commits: final(mc).mv_rebase_remaining_commits, ..*old(mc) }),
        outcome is Failed ==> *final(mc) == *old(mc) && (r matches ContinueStep::Fail { message } && message@
            == refused_pick_text(route, *old(mc), remaining@[i as int]@)),
{
    let sha = remaining[i].as_str();
    let is_dest = match route {
        PostCommitRoute::MvDest => true,
        PostCommitRoute::MvCp => true,
        _ => false,
    };
    let is_pick = match route {
        PostCommitRoute::UnassignPick => true,
        _ => false,
    };
    match outcome {
        CherryPickOnMc::Applied | CherryPickOnMc::SkippedEmpty => {
            if is_dest {
                ContinueStep::Next { assignment: Some(mc.mv_rebase_dest_branch.clone()) }
            } else if is_pick {
                ContinueStep::Next { assignment: Some(String::from_str(".")) }
            } else {
                ContinueStep::Next { assignment: None }
            }
        },
        CherryPickOnMc::Conflict => {
            let message = if is_dest {
                dest_again_message(sha, mc.mv_rebase_dest_branch.as_str())
            } else if is_pick {
                replay_again_message(sha)
            } else {
                source_conflict_message(sha, mc.mv_rebase_source_branch.as_str(), true)
            };
            let rest = slice_strings(remaining, i + 1, remaining.len());
            if is_dest {
                mc.mv_rebase_remaining_dest = rest;
            } else {
                mc.mv_rebase_remaining_commits = rest;
            }
            ContinueStep::Stop { message }
        },
        CherryPickOnMc::Failed => {
            let message = if is_dest {
                dest_pick_failed_message(sha, mc.mv_rebase_dest_branch.as_str())
            } else {
                pick_failed_message(sha, false)
            };
            ContinueStep::Fail { message }
        },
    }
}

} // verus!
