//! The command line: which invocations are commands, and how `mv` and `cp` read
//! their arguments.
use vstd::prelude::*;
use vstd::string::StringExecFns;
use crate::error::PrioError;
use crate::result::PrioStatus;
use crate::strings::{copy_strings, slice_strings, str_eq, views};

verus! {

/// Whether the process runs as a command line rather than opening the desktop UI:
/// any first argument means a command (unknown ones are reported by the parser);
/// none opens the UI.
pub fn is_cli_invocation(first_arg: Option<&str>) -> (r: bool)
    ensures
        r == first_arg is Some,
{
    match first_arg {
        None => false,
        Some(_) => true,
    }
}

/// A flag of `mv` (`-c`, `-a`, `-f`) or of `cp` (`-c`, `-a`).
pub open spec fn is_flag(s: Seq<char>, with_force: bool) -> bool {
    s == "-c"@ || s == "-a"@ || (with_force && s == "-f"@)
}

fn flag(s: &str, with_force: bool) -> (r: bool)
    ensures
        r == is_flag(s@, with_force),
{
    str_eq(s, "-c") || str_eq(s, "-a") || (with_force && str_eq(s, "-f"))
}

/// The commits of an `mv`/`cp` argument list: all but the last argument, with flags
/// that trail them dropped.
pub open spec fn commits_of(args: Seq<Seq<char>>, with_force: bool) -> Seq<Seq<char>>
    decreases args.len(),
{
    if args.len() == 0 {
        args
    } else if is_flag(args.last(), with_force) {
        commits_of(args.drop_last(), with_force)
    } else {
        args
    }
}

/// What reading `<commit>... <destination>` gives: fewer than two arguments is a
/// usage error, and so is a flag in the destination's place; otherwise the commits
/// (flags trailing them dropped) and the destination.
pub open spec fn parsed(args: Seq<String>, with_force: bool, r: Result<(Vec<String>, String), PrioError>) -> bool {
    &&& args.len() < 2 ==> (r matches Err(PrioError::Message(m)) && m@ == (if with_force {
        "Usage: prio mv [-c] [-a] [-f] <commit>... <destination>"@
    } else {
        "Usage: prio cp [-c] [-a] <commit>... <destination>"@
    }))
    &&& args.len() >= 2 && is_flag(args.last()@, with_force) ==> (r matches Err(PrioError::Message(m)) && m@
        == "Destination required before flags"@)
    &&& args.len() >= 2 && !is_flag(args.last()@, with_force) ==> (r matches Ok((commits, dest)) && dest@
        == args.last()@ && views(commits@) == commits_of(views(args).drop_last(), with_force))
}

/// Reads `<commit>... <destination>` (flags may trail the commits).
pub fn parse_move_args(args: &Vec<String>, with_force: bool) -> (r: Result<(Vec<String>, String), PrioError>)
    ensures
        parsed(args@, with_force, r),
{
    if args.len() < 2 {
        if with_force {
            return Err(PrioError::Message(String::from_str("Usage: prio mv [-c] [-a] [-f] <commit>... <destination>")));
        }
        return Err(PrioError::Message(String::from_str("Usage: prio cp [-c] [-a] <commit>... <destination>")));
    }
    let destination = args[args.len() - 1].clone();
    if flag(destination.as_str(), with_force) {
        return Err(PrioError::Message(String::from_str("Destination required before flags")));
    }
    let mut n = args.len() - 1;
    proof {
        assert(views(args@).drop_last() =~= views(args@).take(n as int));
    }
    while n > 0 && flag(args[n - 1].as_str(), with_force)
        invariant
            n < args.len(),
            commits_of(views(args@).drop_last(), with_force) == commits_of(views(args@).take(n as int), with_force),
        decreases n,
    {
        proof {
            assert(views(args@).take(n as int).drop_last() =~= views(args@).take(n - 1));
            assert(views(args@).take(n as int).last() == args@[n - 1]@);
        }
        n = n - 1;
    }
    let commits = slice_strings(args, 0, n);
    proof {
        assert(views(commits@) =~= views(args@).take(n as int));
        if n > 0 {
            assert(views(args@).take(n as int).last() == args@[n - 1]@);
        }
    }
    Ok((commits, destination))
}

/// `prio mv` arguments: `<commit>... <destination>` with `-c`, `-a`, `-f` flags.
pub fn parse_mv(args: &Vec<String>) -> (r: Result<(Vec<String>, String), PrioError>)
    ensures
        parsed(args@, true, r),
{
    parse_move_args(args, true)
}

/// `prio cp` arguments: `<commit>... <destination>` with `-c`, `-a` flags.
pub fn parse_cp(args: &Vec<String>) -> (r: Result<(Vec<String>, String), PrioError>)
    ensures
        parsed(args@, false, r),
{
    parse_move_args(args, false)
}

/// The notice printed when the hook check reinstalled prio's hooks in the work
/// clone and/or the prio-mc clone; none when neither needed it.
pub fn hooks_reinstalled_notice(work_clone: bool, mc_clone: bool) -> (r: Option<String>)
    ensures
        !work_clone && !mc_clone ==> r is None,
        work_clone && !mc_clone ==> (r matches Some(m) && m@ == "\x1b[33m⚠\x1b[0m  Hooks reinstalled (work clone)"@),
        !work_clone && mc_clone ==> (r matches Some(m) && m@ == "\x1b[33m⚠\x1b[0m  Hooks reinstalled (prio-mc clone)"@),
        work_clone && mc_clone ==> (r matches Some(m) && m@
            == "\x1b[33m⚠\x1b[0m  Hooks reinstalled (work clone, prio-mc clone)"@),
{
    if work_clone && mc_clone {
        Some(String::from_str("\x1b[33m⚠\x1b[0m  Hooks reinstalled (work clone, prio-mc clone)"))
    } else if work_clone {
        Some(String::from_str("\x1b[33m⚠\x1b[0m  Hooks reinstalled (work clone)"))
    } else if mc_clone {
        Some(String::from_str("\x1b[33m⚠\x1b[0m  Hooks reinstalled (prio-mc clone)"))
    } else {
        None
    }
}

/// A parsed `prio` command line: the global `--repo` and the command.
pub struct CliApp {
    pub repo: Option<String>,
    pub command: Command,
}

/// The commands of `prio`.
pub enum Command {
    /// Set up a repository for prio (defaults to the current directory).
    Setup { repo_path: Option<String>, mc_path: Option<String>, work_branch: Option<String> },
    /// Tear down prio for a repository (archive state, rename branches).
    Unsetup { yes: bool },
    /// Show applied branches and unassigned commits.
    Status,
    /// Apply branches or PRs to the work area.
    Apply { branches: Vec<String> },
    /// Remove branches from the work area.
    Unapply { branches: Vec<String> },
    /// Move commits to another branch.
    Mv { args: Vec<String>, create: bool, apply: bool, force: bool },
    /// Copy commits to another branch (the source branch is unchanged).
    Cp { args: Vec<String>, create: bool, apply: bool },
    /// Push a branch, with `push_deps` its unpushed stacked dependencies first.
    Push { branch: String, push_deps: bool },
    /// Create a draft PR for a branch.
    Pr { branch: String },
    /// List open PRs showing which are applied to the work area.
    Prs,
    /// Stack a branch after dependencies.
    Stack { branch: String, dependencies: Vec<String> },
    /// Remove stack metadata for a branch.
    Unstack { branch: String, keep: bool, force: bool },
    /// Sync merged branches for the current repository.
    Sync,
    /// Sync all known repositories.
    Syncs,
    /// Abort an in-progress `prio mv` conflict.
    Abort,
    /// Recover the work branch to the last known good state.
    Recover,
    /// Suggest a default work branch name (for the UI).
    SuggestWorkBranch { path: String },
    /// The work clone's post-commit hook.
    InternalWorkPostCommit,
    /// The prio-mc clone's post-commit hook.
    InternalMcPostCommit { mc_path: Option<String> },
}

/// The post-commit hook callbacks, whose output carries the hook prefix.
pub open spec fn is_hook_spec(c: Command) -> bool {
    c is InternalWorkPostCommit || c is InternalMcPostCommit
}

pub fn is_hook_command(c: &Command) -> (r: bool)
    ensures
        r == is_hook_spec(*c),
{
    match c {
        Command::InternalWorkPostCommit => true,
        Command::InternalMcPostCommit { .. } => true,
        _ => false,
    }
}

/// Whether the hooks are checked (and reinstalled) before the command: on every
/// user-facing command but setup, unsetup and the work-branch suggestion, which
/// manage hooks themselves or need none.
pub fn checks_hooks(c: &Command) -> (r: bool)
    ensures
        r == !(is_hook_spec(*c) || *c is Setup || *c is Unsetup || *c is SuggestWorkBranch),
{
    match c {
        Command::InternalWorkPostCommit => false,
        Command::InternalMcPostCommit { .. } => false,
        Command::Setup { .. } => false,
        Command::Unsetup { .. } => false,
        Command::SuggestWorkBranch { .. } => false,
        _ => true,
    }
}

/// The process exit status for a reported result: 1 on failure, else 0.
pub fn exit_code(status: PrioStatus) -> (r: i32)
    ensures
        status == PrioStatus::Failure ==> r == 1,
        status != PrioStatus::Failure ==> r == 0,
{
    match status {
        PrioStatus::Failure => 1,
        _ => 0,
    }
}

} // verus!
