//! Stack / unstack branch dependencies.
//!
//! `prio stack <branch> [dep1 dep2 ...]` records that `branch` depends on the
//! dependencies (which may also be joined with `+`) and re-applies the work area. `prio unstack <branch> [-k | -f]`
//! removes the record; by default the branch is rebased in prio-mc so it sits
//! directly on the default branch.
//!
//! | Branch state | Default | `-k` | `-f` |
//! |---|---|---|---|
//! | Local-only (never pushed) | Rebase in prio-mc, update WORK local ref, re-apply | Metadata-only | N/A |
//! | Pushed (`origin/<branch>` exists) | Refused — choose `-k` or `-f` | Metadata-only (safe) | Rebase + force-push |
use vstd::prelude::*;
use vstd::string::StringExecFns;
use crate::error::PrioError;
use crate::services::status::stack_deps;
use crate::storage::repo_state::{RepoState, StackEntry};
use crate::strings::{
    concat2, concat3, join, join_spec, nonempty_only, owned, push_string, split_char, split_nonempty, str_eq, views,
};

verus! {

/// The stack entries whose branch is not `b`.
pub open spec fn without_branch(s: Seq<StackEntry>, b: Seq<char>) -> Seq<StackEntry>
    decreases s.len(),
{
    if s.len() == 0 {
        Seq::empty()
    } else {
        let p = without_branch(s.drop_last(), b);
        if s.last().branch@ == b {
            p
        } else {
            p.push(s.last())
        }
    }
}

/// No branch has two stack entries.
pub open spec fn unique_entries(s: Seq<StackEntry>) -> bool {
    forall|i: int, j: int| 0 <= i < j < s.len() ==> s[i].branch@ != s[j].branch@
}

/// The description of the dependencies in the `prio stack` message.
pub open spec fn dep_desc(deps: Seq<Seq<char>>) -> Seq<char> {
    if deps.len() == 0 {
        "(no dependencies)"@
    } else {
        join_spec(deps, ", "@)
    }
}

/// The dependencies as given on the command line, each split on `+` (`a+b` names
/// `a` and `b`), in order, without empty parts.
pub open spec fn split_deps(deps: Seq<Seq<char>>) -> Seq<Seq<char>>
    decreases deps.len(),
{
    if deps.len() == 0 {
        Seq::empty()
    } else {
        split_deps(deps.drop_last()) + nonempty_only(split_char(deps.last(), '+'))
    }
}

/// Splits each dependency on `+` (see [`split_deps`]).
pub fn split_dependencies(deps: &Vec<String>) -> (r: Vec<String>)
    ensures
        views(r@) == split_deps(views(deps@)),
{
    let mut r: Vec<String> = Vec::new();
    let mut i: usize = 0;
    while i < deps.len()
        invariant
            i <= deps.len(),
            views(r@) == split_deps(views(deps@).take(i as int)),
        decreases deps.len() - i,
    {
        proof {
            assert(views(deps@).take(i + 1).drop_last() =~= views(deps@).take(i as int));
        }
        let parts = split_nonempty(deps[i].as_str(), '+');
        let ghost before = r@;
        let mut j: usize = 0;
        while j < parts.len()
            invariant
                j <= parts.len(),
                views(r@) == views(before) + views(parts@).take(j as int),
            decreases parts.len() - j,
        {
            let ghost b2 = r@;
            r.push(parts[j].clone());
            proof {
                assert(views(r@) =~= views(b2).push(parts@[j as int]@));
                assert(views(parts@).take(j + 1) =~= views(parts@).take(j as int).push(parts@[j as int]@));
                assert(views(r@) =~= views(before) + views(parts@).take(j + 1));
            }
            j = j + 1;
        }
        proof {
            assert(views(parts@).take(parts@.len() as int) =~= views(parts@));
        }
        i = i + 1;
    }
    assert(views(deps@).take(deps@.len() as int) =~= views(deps@));
    r
}

/// Records that `branch` is stacked after `dependencies` (in order, each split on
/// `+`), replacing any earlier entry for it; gives the message reported once the
/// re-apply succeeds, which lists the split dependencies.
pub fn run_stack(state: &mut RepoState, branch: String, dependencies: Vec<String>) -> (r: String)
    ensures
        final(state).stacks@.len() == without_branch(old(state).stacks@, branch@).len() + 1,
        final(state).stacks@.drop_last() == without_branch(old(state).stacks@, branch@),
        final(state).stacks@.last().branch == branch,
        views(final(state).stacks@.last().dependencies@) == split_deps(views(dependencies@)),
        r@ == "Stacked "@ + branch@ + " after "@ + dep_desc(split_deps(views(dependencies@))) + "."@,
        final(state).applied_branches == old(state).applied_branches,
        final(state).commit_map == old(state).commit_map,
        final(state).commit_assignments == old(state).commit_assignments,
        final(state).baseline_commit == old(state).baseline_commit,
        final(state).mv_rebase_conflict == old(state).mv_rebase_conflict,
{
    let dependencies = split_dependencies(&dependencies);
    let desc = if dependencies.len() == 0 {
        String::from_str("(no dependencies)")
    } else {
        join(&dependencies, ", ")
    };
    let mut msg = concat3("Stacked ", branch.as_str(), " after ");
    msg.append(desc.as_str());
    msg.append(".");
    remove_stack(state, branch.as_str());
    state.stacks.push(StackEntry { branch, dependencies });
    msg
}

/// Removes every stack entry of `branch`.
pub fn remove_stack(state: &mut RepoState, branch: &str)
    ensures
        final(state).stacks@ == without_branch(old(state).stacks@, branch@),
        final(state).applied_branches == old(state).applied_branches,
        final(state).commit_map == old(state).commit_map,
        final(state).commit_assignments == old(state).commit_assignments,
        final(state).baseline_commit == old(state).baseline_commit,
        final(state).mv_rebase_conflict == old(state).mv_rebase_conflict,
{
    let mut rest: Vec<StackEntry> = Vec::new();
    std::mem::swap(&mut rest, &mut state.stacks);
    let ghost s = rest@;
    let mut rev: Vec<StackEntry> = Vec::new();
    while rest.len() > 0
        invariant
            rest@.len() + rev@.len() == s.len(),
            rest@ == s.take(rest@.len() as int),
            forall|k: int| 0 <= k < rev@.len() ==> rev@[k] == s[s.len() - 1 - k],
        decreases rest.len(),
    {
        let ghost before = rest@;
        let e = rest.pop().unwrap();
        proof {
            assert(e == s[before.len() - 1]);
            assert(rest@ =~= s.take(rest@.len() as int));
        }
        rev.push(e);
    }
    let mut kept: Vec<StackEntry> = Vec::new();
    while rev.len() > 0
        invariant
            rev@.len() <= s.len(),
            forall|k: int| 0 <= k < rev@.len() ==> rev@[k] == s[s.len() - 1 - k],
            kept@ == without_branch(s.take(s.len() - rev@.len()), branch@),
        decreases rev.len(),
    {
        let ghost j = rev@.len();
        let e = rev.pop().unwrap();
        proof {
            assert(e == s[s.len() - j]);
            assert(s.take(s.len() - j + 1).drop_last() =~= s.take(s.len() - j));
            assert(s.take(s.len() - j + 1).last() == e);
        }
        if !str_eq(e.branch.as_str(), branch) {
            kept.push(e);
        }
    }
    assert(s.take(s.len() as int) =~= s);
    state.stacks = kept;
}

/// After `prio stack`, each branch still has at most one entry, and the branch's
/// dependencies are the ones just recorded.
pub proof fn law_stack_replaces_entry(s: Seq<StackEntry>, e: StackEntry)
    requires
        unique_entries(s),
    ensures
        unique_entries(without_branch(s, e.branch@).push(e)),
        stack_deps(without_branch(s, e.branch@).push(e), e.branch@) == views(e.dependencies@),
{
    lemma_without_branch(s, e.branch@);
    let t = without_branch(s, e.branch@);
    let u = t.push(e);
    assert forall|i: int, j: int| 0 <= i < j < u.len() implies u[i].branch@ != u[j].branch@ by {
        if j == u.len() - 1 {
            assert(u[i] == t[i]);
        } else {
            assert(u[i] == t[i] && u[j] == t[j]);
        }
    }
    lemma_stack_deps_last(u, e.branch@);
}

/// The entries kept by `without_branch` are entries of `s`, in order, none for `b`,
/// and no two for one branch when `s` had none.
pub proof fn lemma_without_branch(s: Seq<StackEntry>, b: Seq<char>)
    ensures
        forall|i: int| 0 <= i < without_branch(s, b).len() ==> (#[trigger] without_branch(s, b)[i]).branch@ != b,
        forall|i: int| 0 <= i < without_branch(s, b).len() ==> s.contains(#[trigger] without_branch(s, b)[i]),
        unique_entries(s) ==> unique_entries(without_branch(s, b)),
    decreases s.len(),
{
    if s.len() > 0 {
        let t = s.drop_last();
        lemma_without_branch(t, b);
        let p = without_branch(t, b);
        let w = without_branch(s, b);
        assert forall|i: int| 0 <= i < w.len() implies s.contains(#[trigger] w[i]) by {
            if i < p.len() {
                assert(w[i] == p[i]);
                assert(t.contains(p[i]));
                let k = choose|k: int| 0 <= k < t.len() && t[k] == p[i];
                assert(s[k] == t[k]);
            } else {
                assert(w[i] == s[s.len() - 1]);
            }
        }
        if unique_entries(s) {
            assert(unique_entries(t)) by {
                assert forall|i: int, j: int| 0 <= i < j < t.len() implies t[i].branch@ != t[j].branch@ by {
                    assert(t[i] == s[i] && t[j] == s[j]);
                }
            }
            if s.last().branch@ != b {
                assert forall|i: int, j: int| 0 <= i < j < w.len() implies w[i].branch@ != w[j].branch@ by {
                    if j == w.len() - 1 {
                        assert(w[i] == p[i]);
                        assert(t.contains(p[i]));
                        let k = choose|k: int| 0 <= k < t.len() && t[k] == p[i];
                        assert(s[k] == p[i]);
                        assert(s[s.len() - 1] == w[j]);
                    } else {
                        assert(w[i] == p[i] && w[j] == p[j]);
                    }
                }
            }
        }
    }
}

proof fn lemma_stack_deps_last(u: Seq<StackEntry>, b: Seq<char>)
    requires
        u.len() > 0,
        u.last().branch@ == b,
        forall|i: int| 0 <= i < u.len() - 1 ==> (#[trigger] u[i]).branch@ != b,
    ensures
        stack_deps(u, b) == views(u.last().dependencies@),
    decreases u.len(),
{
    if u.len() > 1 {
        let t = u.drop_first();
        assert forall|i: int| 0 <= i < t.len() - 1 implies (#[trigger] t[i]).branch@ != b by {
            assert(t[i] == u[i + 1]);
        }
        assert(u[0].branch@ != b);
        lemma_stack_deps_last(t, b);
    }
}

/// `-k` and `-f` cannot be given together.
pub fn unstack_flags(keep: bool, force: bool) -> (r: Result<(), PrioError>)
    ensures
        keep && force ==> (r matches Err(PrioError::Message(m)) && m@
            == "-k (keep) and -f (force) are mutually exclusive."@),
        !(keep && force) ==> r is Ok,
{
    if keep && force {
        return Err(PrioError::Message(String::from_str("-k (keep) and -f (force) are mutually exclusive.")));
    }
    Ok(())
}

/// What `prio unstack` does.
pub enum UnstackPlan {
    /// Refuse with this message.
    Refuse(String),
    /// Remove the entry; rebase off `deps` first when `rebase`.
    Proceed { deps: Vec<String>, rebase: bool },
}

/// The refusal for unstacking a pushed branch without `-k` or `-f`.
pub open spec fn pushed_unstack_text(branch: Seq<char>) -> Seq<char> {
    "Branch '"@ + branch
        + "' has been pushed to origin. Unstacking requires either:\n  -k  keep all upstream commits (metadata-only unstack)\n  -f  force-push after rebase (rewrites remote history)"@
}

/// Decides `prio unstack <branch>`: a pushed branch (`is_pushed`) needs `-k` or `-f`;
/// the branch is rebased off its recorded dependencies unless `-k` or it has none.
pub fn run_unstack(state: &RepoState, branch: &str, keep: bool, force: bool, is_pushed: bool) -> (r: UnstackPlan)
    ensures
        is_pushed && !keep && !force ==> (r matches UnstackPlan::Refuse(m) && m@ == pushed_unstack_text(branch@)),
        !(is_pushed && !keep && !force) ==> (r matches UnstackPlan::Proceed { deps, rebase } && views(deps@)
            == stack_deps(state.stacks@, branch@) && rebase == (!keep && deps@.len() > 0)),
{
    if is_pushed && !keep && !force {
        return UnstackPlan::Refuse(
            concat3(
                "Branch '",
                branch,
                "' has been pushed to origin. Unstacking requires either:\n  -k  keep all upstream commits (metadata-only unstack)\n  -f  force-push after rebase (rewrites remote history)",
            ),
        );
    }
    let deps = crate::services::status::stacked_after(&state.stacks, branch);
    let rebase = !keep && deps.len() > 0;
    UnstackPlan::Proceed { deps, rebase }
}

/// The message of a finished `prio unstack`.
pub fn unstacked_message(branch: &str, default_branch: &str, rebased: bool) -> (r: String)
    ensures
        rebased ==> r@ == "Unstacked "@ + branch@ + " and rebased onto "@ + default_branch@ + "."@,
        !rebased ==> r@ == "Unstacked "@ + branch@ + "."@,
{
    if rebased {
        let mut m = concat3("Unstacked ", branch, " and rebased onto ");
        m.append(default_branch);
        m.append(".");
        m
    } else {
        concat3("Unstacked ", branch, ".")
    }
}

/// The arguments of `git log` that list the commits unique to a branch, oldest first:
/// reachable from its tip but not from the default branch or any dependency tip.
pub fn unique_commits_args(tip: &str, default_branch: &str, dep_tips: &Vec<String>) -> (r: Vec<String>)
    ensures
        views(r@) == seq!["log"@, tip@, "--not"@, default_branch@] + views(dep_tips@) + seq![
            "--format=%H"@,
            "--reverse"@,
            "--"@,
        ],
{
    let mut v: Vec<String> = Vec::new();
    push_string(&mut v, String::from_str("log"));
    push_string(&mut v, owned(tip));
    push_string(&mut v, String::from_str("--not"));
    push_string(&mut v, owned(default_branch));
    crate::strings::extend_strings(&mut v, crate::strings::copy_strings(dep_tips));
    push_string(&mut v, String::from_str("--format=%H"));
    push_string(&mut v, String::from_str("--reverse"));
    push_string(&mut v, String::from_str("--"));
    assert(views(v@) =~= seq!["log"@, tip@, "--not"@, default_branch@] + views(dep_tips@) + seq![
        "--format=%H"@,
        "--reverse"@,
        "--"@,
    ]);
    v
}

/// The message when rebasing off the dependencies hits a conflict.
pub fn unstack_conflict_message(branch: &str, sha: &str, mc_path: &str) -> (r: String)
    ensures
        r@ == "Cherry-pick conflict while rebasing '"@ + branch@ + "': commit "@ + sha@
            + " conflicts. Resolve manually in prio-mc at "@ + mc_path@ + "."@,
{
    let mut m = concat3("Cherry-pick conflict while rebasing '", branch, "': commit ");
    m.append(sha);
    m.append(" conflicts. Resolve manually in prio-mc at ");
    m.append(mc_path);
    m.append(".");
    m
}

} // verus!
