//! `prio pr`: the body of a draft pull request and what it says of stacked branches.
use vstd::prelude::*;
use vstd::string::StringExecFns;
use crate::json::{first_member_u64, json_first_member_u64};
use crate::storage::repo_state::StackEntry;
use crate::strings::{
    concat2, concat3, decimal, decimal_string, join, join_spec, lines_spec, lines, push_string, str_eq, trim,
    trim_spec, views,
};

verus! {

/// The trimmed, non-empty dependencies of every stack entry of `branch`, in order.
pub open spec fn listed_deps(stacks: Seq<StackEntry>, branch: Seq<char>) -> Seq<Seq<char>>
    decreases stacks.len(),
{
    if stacks.len() == 0 {
        Seq::empty()
    } else {
        let p = listed_deps(stacks.drop_last(), branch);
        let e = stacks.last();
        if e.branch@ == branch {
            p + crate::strings::nonempty_trimmed(views(e.dependencies@))
        } else {
            p
        }
    }
}

pub fn stack_line_deps(stacks: &Vec<StackEntry>, branch: &str) -> (r: Vec<String>)
    ensures
        views(r@) == listed_deps(stacks@, branch@),
{
    let mut r: Vec<String> = Vec::new();
    let mut k: usize = 0;
    while k < stacks.len()
        invariant
            k <= stacks.len(),
            views(r@) == listed_deps(stacks@.take(k as int), branch@),
        decreases stacks.len() - k,
    {
        proof {
            assert(stacks@.take(k + 1).drop_last() =~= stacks@.take(k as int));
        }
        if str_eq(stacks[k].branch.as_str(), branch) {
            let deps = &stacks[k].dependencies;
            let ghost base = views(r@);
            let mut j: usize = 0;
            while j < deps.len()
                invariant
                    j <= deps.len(),
                    views(r@) == base + crate::strings::nonempty_trimmed(views(deps@).take(j as int)),
                decreases deps.len() - j,
            {
                proof {
                    assert(views(deps@).take(j + 1).drop_last() =~= views(deps@).take(j as int));
                }
                let t = trim(deps[j].as_str());
                if t.as_str().unicode_len() > 0 {
                    let ghost before = views(r@);
                    push_string(&mut r, t);
                }
                j = j + 1;
            }
            assert(views(deps@).take(deps@.len() as int) =~= views(deps@));
        }
        k = k + 1;
    }
    assert(stacks@.take(stacks@.len() as int) =~= stacks@);
    r
}

/// The line for a dependency: its pull request, else the branch, noting when it is
/// not pushed yet.
pub open spec fn dep_line(dep: Seq<char>, number: Option<u32>, pushed: bool) -> Seq<char> {
    match number {
        Some(n) => "- #"@ + decimal(n as nat),
        None => if pushed {
            "- "@ + dep
        } else {
            "- "@ + dep + " (not pushed yet)"@
        },
    }
}

/// The "Stacked after" lines for the dependencies `deps` (`numbers[i]` is the pull
/// request of `deps[i]` if any, `pushed[i]` whether it is at origin), one per line.
pub fn build_stack_lines(deps: &Vec<String>, numbers: &Vec<Option<u32>>, pushed: &Vec<bool>) -> (r: String)
    requires
        numbers.len() == deps.len(),
        pushed.len() == deps.len(),
    ensures
        r@ == join_spec(Seq::new(deps@.len(), |i: int| dep_line(deps@[i]@, numbers@[i], pushed@[i])), "\n"@),
{
    let mut ls: Vec<String> = Vec::new();
    let mut i: usize = 0;
    while i < deps.len()
        invariant
            i <= deps.len(),
            numbers.len() == deps.len(),
            pushed.len() == deps.len(),
            views(ls@) == Seq::new(i as nat, |k: int| dep_line(deps@[k]@, numbers@[k], pushed@[k])),
        decreases deps.len() - i,
    {
        let line = match numbers[i] {
            Some(n) => {
                let d = decimal_string(n as u64);
                concat2("- #", d.as_str())
            },
            None => if pushed[i] {
                concat2("- ", deps[i].as_str())
            } else {
                concat3("- ", deps[i].as_str(), " (not pushed yet)")
            },
        };
        push_string(&mut ls, line);
        assert(views(ls@) =~= Seq::new((i + 1) as nat, |k: int| dep_line(deps@[k]@, numbers@[k], pushed@[k])));
        i = i + 1;
    }
    join(&ls, "\n")
}

/// The pull request number gh reports for a branch, from its answer to
/// `gh pr list --head <branch> --json number --limit 1` (cut to 32 bits).
pub fn pr_number_for_branch(json: &str) -> (r: Option<u32>)
    ensures
        r == match json_first_member_u64(json@, "number"@) {
            Some(n) => Some(n as u32),
            None => None,
        },
{
    match first_member_u64(json, "number") {
        Some(n) => Some(n as u32),
        None => None,
    }
}

/// The body of the draft pull request: the content of `PR.md` (empty when there is
/// none), then, when the branch is stacked, a blank line (if there was content) and
/// the "Stacked after" section.
pub open spec fn pr_body_spec(pr_md: Seq<char>, stack_lines: Seq<char>) -> Seq<char> {
    if stack_lines.len() == 0 {
        pr_md
    } else {
        pr_md + (if pr_md.len() > 0 {
            "\n\n"@
        } else {
            Seq::<char>::empty()
        }) + "## Stacked after\n"@ + stack_lines
    }
}

pub fn build_pr_body(pr_md: String, stack_lines: &str) -> (r: String)
    ensures
        r@ == pr_body_spec(pr_md@, stack_lines@),
{
    let mut body = pr_md;
    if stack_lines.unicode_len() > 0 {
        if body.as_str().unicode_len() > 0 {
            body.append("\n\n");
        }
        body.append("## Stacked after\n");
        body.append(stack_lines);
    }
    body
}

/// Whether `git diff --cached --name-only` lists `PR.md` (it is then amended out of
/// the commit).
pub fn staged_has_pr_md(staged: &str) -> (r: bool)
    ensures
        r == lines_spec(staged@).contains("PR.md"@),
{
    let ls = lines(staged);
    crate::strings::contains_string(&ls, "PR.md")
}

/// The message of a created pull request.
pub fn created_message(url: &str) -> (r: String)
    ensures
        r@ == "Created draft PR: "@ + url@,
{
    concat2("Created draft PR: ", url)
}

} // verus!
