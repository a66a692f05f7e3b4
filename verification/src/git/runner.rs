//! How prio reads the outcome of `git` and `gh` commands.
//!
//! The commands themselves are run by the caller; the functions here decide what
//! their outcomes mean: which error a failed command becomes, what is logged,
//! and what a command's output says about the repository.
use vstd::prelude::*;
use vstd::string::StringExecFns;
use crate::error::PrioError;
use crate::logger::{logged, LogEntry, LogLevel, Logger};
use crate::strings::{concat2, concat3, join, starts_with, strip_prefix, str_eq, trim, trim_spec, trimmed_is, trimmed_is_empty, views, join_spec, has_prefix, owned, split_once, split_once_spec, ends_with, string_of_range, chars_of, has_suffix};
use crate::util::{path_arg, strip_verbatim_spec};
use crate::json::{json_member_text, member_text};

verus! {

/// How to install Git on the operating system `os` (as `std::env::consts::OS` names it).
pub open spec fn git_hint_text(os: Seq<char>) -> Seq<char> {
    if os == "windows"@ {
        "Download from https://git-scm.com/download/win (also installs Git Bash)"@
    } else if os == "macos"@ {
        "Run `git --version` in Terminal to trigger Xcode CLI tools, or install from https://git-scm.com/download/mac"@
    } else {
        "Run: sudo apt install git-all (or see https://git-scm.com/download/linux)"@
    }
}

/// How to install the GitHub CLI on the operating system `os`.
pub open spec fn gh_hint_text(os: Seq<char>) -> Seq<char> {
    if os == "windows"@ {
        "Run: winget install --id GitHub.cli"@
    } else if os == "macos"@ {
        "Run: brew install gh"@
    } else {
        "See https://cli.github.com/packages for the official apt one-liner"@
    }
}

pub fn install_hint_git(os: &str) -> (r: String)
    ensures
        r@ == git_hint_text(os@),
{
    if str_eq(os, "windows") {
        String::from_str("Download from https://git-scm.com/download/win (also installs Git Bash)")
    } else if str_eq(os, "macos") {
        String::from_str(
            "Run `git --version` in Terminal to trigger Xcode CLI tools, or install from https://git-scm.com/download/mac",
        )
    } else {
        String::from_str("Run: sudo apt install git-all (or see https://git-scm.com/download/linux)")
    }
}

/// Install instructions for the GitHub CLI (shared by setup and other commands).
pub fn gh_install_hint(os: &str) -> (r: String)
    ensures
        r@ == gh_hint_text(os@),
{
    if str_eq(os, "windows") {
        String::from_str("Run: winget install --id GitHub.cli")
    } else if str_eq(os, "macos") {
        String::from_str("Run: brew install gh")
    } else {
        String::from_str("See https://cli.github.com/packages for the official apt one-liner")
    }
}

/// How to authenticate with the GitHub CLI.
pub fn gh_auth_hint() -> (r: String)
    ensures
        r@ == "Run: gh auth login"@,
{
    String::from_str("Run: gh auth login")
}

/// The error for a tool that was not found: its name and how to install it.
pub open spec fn not_installed(r: Result<(), PrioError>, name: Seq<char>, hint: Seq<char>) -> bool {
    match r {
        Err(PrioError::ToolNotInstalled { tool, install_hint }) => tool@ == name
            && install_hint@ == hint,
        _ => false,
    }
}

/// `Ok` when the tool was found on the `PATH`, else the error that says how to install it.
pub fn ensure_tool(name: &str, found: bool, hint: String) -> (r: Result<(), PrioError>)
    ensures
        found ==> r is Ok,
        !found ==> not_installed(r, name@, hint@),
{
    if !found {
        return Err(PrioError::ToolNotInstalled { tool: owned(name), install_hint: hint });
    }
    Ok(())
}

/// `Ok` when `git` was found, else the error with the install hint for `os`.
pub fn ensure_git(git_found: bool, os: &str) -> (r: Result<(), PrioError>)
    ensures
        git_found ==> r is Ok,
        !git_found ==> not_installed(r, "git"@, git_hint_text(os@)),
{
    ensure_tool("git", git_found, install_hint_git(os))
}

/// `Ok` when `gh` was found, else the error with the install hint for `os`.
pub fn ensure_gh(gh_found: bool, os: &str) -> (r: Result<(), PrioError>)
    ensures
        gh_found ==> r is Ok,
        !gh_found ==> not_installed(r, "gh"@, gh_hint_text(os@)),
{
    ensure_tool("gh", gh_found, gh_install_hint(os))
}

/// The logged-in GitHub user, from the output of `gh api user -q .login` (when `gh`
/// is authenticated and the command succeeded): the trimmed output, unless empty.
pub fn gh_user_login(authenticated: bool, api_output: Option<String>) -> (r: Option<String>)
    ensures
        !authenticated ==> r is None,
        authenticated ==> match api_output {
            None => r is None,
            Some(out) => if trim_spec(out@).len() == 0 {
                r is None
            } else {
                r matches Some(l) && l@ == trim_spec(out@)
            },
        },
{
    if !authenticated {
        return None;
    }
    match api_output {
        None => None,
        Some(out) => {
            let login = trim(out.as_str());
            if login.as_str().unicode_len() == 0 {
                None
            } else {
                Some(login)
            }
        },
    }
}

/// `Ok` when `gh` is installed and authenticated. When it is installed but not
/// authenticated, a warning with the login hint is logged first.
pub fn ensure_gh_authenticated(
    gh_found: bool,
    authenticated: bool,
    os: &str,
    logger: &mut Logger,
) -> (r: Result<(), PrioError>)
    ensures
        gh_found && authenticated ==> r is Ok && *final(logger) == *old(logger),
        !gh_found ==> not_installed(r, "gh"@, gh_hint_text(os@)) && *final(logger) == *old(
            logger,
        ),
        gh_found && !authenticated ==> (r matches Err(PrioError::GhNotAuthenticated)) && logged(
            *old(logger),
            *final(logger),
            LogLevel::Warning,
            "GitHub CLI is not authenticated. Run: gh auth login"@,
        ),
{
    match ensure_gh(gh_found, os) {
        Err(e) => return Err(e),
        Ok(()) => {},
    }
    if !authenticated {
        let mut msg = String::from_str("GitHub CLI is not authenticated. ");
        msg.append(gh_auth_hint().as_str());
        proof {
            reveal_strlit("GitHub CLI is not authenticated. ");
            reveal_strlit("Run: gh auth login");
            reveal_strlit("GitHub CLI is not authenticated. Run: gh auth login");
            assert(msg@ =~= "GitHub CLI is not authenticated. Run: gh auth login"@);
        }
        logger.warning(msg);
        return Err(PrioError::GhNotAuthenticated);
    }
    Ok(())
}

/// What starting a program gave: it ran to the end (its exit status and its raw
/// output), it was not found, or it could not be started for another reason.
pub enum Spawned {
    Finished { success: bool, stdout: String, stderr: String },
    NotFound,
    Failed(String),
}

/// A command line as prio shows it: the program and its arguments, space-separated.
pub open spec fn command_text(program: Seq<char>, args: Seq<Seq<char>>) -> Seq<char> {
    program + " "@ + join_spec(args, " "@)
}

pub fn command_string(program: &str, args: &Vec<String>) -> (r: String)
    ensures
        r@ == command_text(program@, views(args@)),
{
    let j = join(args, " ");
    concat3(program, " ", j.as_str())
}

/// The log entry recorded before a command runs in `cwd`.
pub fn command_log_entry(cwd: &str, program: &str, args: &Vec<String>, comment: Option<String>) -> (r: LogEntry)
    ensures
        r.level == LogLevel::Info,
        r.message@.len() == 0,
        r.cli matches Some(c) && c.cwd@ == strip_verbatim_spec(cwd@) && c.command@ == command_text(
            program@,
            views(args@),
        ) && c.comment == comment,
{
    let dir = path_arg(cwd);
    let cmd = command_string(program, args);
    LogEntry::cli_command(LogLevel::Info, dir, cmd, comment)
}

/// The install hint for a program prio runs: Git's for `git`, the GitHub CLI's otherwise.
pub open spec fn program_hint(program: Seq<char>, os: Seq<char>) -> Seq<char> {
    if program == "git"@ {
        git_hint_text(os)
    } else {
        gh_hint_text(os)
    }
}

/// The text a failed command reports: its trimmed standard error, or its trimmed
/// standard output when the error stream is empty.
pub open spec fn failure_text(stdout: Seq<char>, stderr: Seq<char>) -> Seq<char> {
    if trim_spec(stderr).len() == 0 {
        trim_spec(stdout)
    } else {
        trim_spec(stderr)
    }
}

/// What a command gives back: its trimmed standard output on success, else the error.
pub fn command_result(program: &str, args: &Vec<String>, os: &str, spawned: Spawned) -> (r: Result<String, PrioError>)
    ensures
        match spawned {
            Spawned::NotFound => match r {
                Err(PrioError::ToolNotInstalled { tool, install_hint }) => tool@ == program@
                    && install_hint@ == program_hint(program@, os@),
                _ => false,
            },
            Spawned::Failed(m) => r == Err::<String, PrioError>(PrioError::Io(m)),
            Spawned::Finished { success, stdout, stderr } => if success {
                r matches Ok(o) && o@ == trim_spec(stdout@)
            } else {
                match r {
                    Err(PrioError::CommandFailed { command, stderr: e }) => command@ == command_text(
                        program@,
                        views(args@),
                    ) && e@ == failure_text(stdout@, stderr@),
                    _ => false,
                }
            },
        },
{
    match spawned {
        Spawned::NotFound => {
            let hint = if str_eq(program, "git") {
                install_hint_git(os)
            } else {
                gh_install_hint(os)
            };
            Err(PrioError::ToolNotInstalled { tool: owned(program), install_hint: hint })
        },
        Spawned::Failed(m) => Err(PrioError::Io(m)),
        Spawned::Finished { success, stdout, stderr } => {
            let out = trim(stdout.as_str());
            let err = trim(stderr.as_str());
            if success {
                Ok(out)
            } else {
                let command = command_string(program, args);
                let text = if err.as_str().unicode_len() == 0 {
                    out
                } else {
                    err
                };
                Err(PrioError::CommandFailed { command, stderr: text })
            }
        },
    }
}

/// Whether `path` is a Git working tree, from the outcome of
/// `git rev-parse --is-inside-work-tree` run there: it must print `true`. A failed
/// command, or any other answer, means it is not; other errors pass through.
pub fn ensure_git_work_tree(path: &str, rev_parse: Result<String, PrioError>) -> (r: Result<(), PrioError>)
    ensures
        match rev_parse {
            Ok(out) => if trim_spec(out@) == "true"@ {
                r is Ok
            } else {
                r matches Err(PrioError::NotGitRepo(p)) && p@ == path@
            },
            Err(PrioError::CommandFailed { .. }) => r matches Err(PrioError::NotGitRepo(p))
                && p@ == path@,
            Err(e) => r == Err::<(), PrioError>(e),
        },
{
    match rev_parse {
        Ok(out) => {
            if trimmed_is(out.as_str(), "true") {
                Ok(())
            } else {
                Err(PrioError::NotGitRepo(owned(path)))
            }
        },
        Err(PrioError::CommandFailed { .. }) => Err(PrioError::NotGitRepo(owned(path))),
        Err(e) => Err(e),
    }
}

/// Whether `path` is the root of a Git working tree, from the outcome of
/// `git rev-parse --show-toplevel` run in `path`: the top level it prints is `path`
/// itself (a subdirectory of a work tree is not its root).
pub fn is_git_repo(path: &str, show_toplevel: Result<String, PrioError>) -> (r: bool)
    ensures
        r == (show_toplevel matches Ok(out) && trim_spec(out@) == path@),
{
    match show_toplevel {
        Ok(out) => trimmed_is(out.as_str(), path),
        Err(_) => false,
    }
}

/// A remote URL as `host/owner/repo`: trimmed, without a `.git` suffix, and with the
/// `git@host:` or `https://` / `http://` form reduced to the host and path.
pub open spec fn normalize_origin_spec(url: Seq<char>) -> Seq<char> {
    let t = trim_spec(url);
    let s = if has_suffix(t, ".git"@) {
        t.subrange(0, t.len() - 4)
    } else {
        t
    };
    if has_prefix(s, "git@"@) && split_once_spec(s.subrange(4, s.len() as int), ':') is Some {
        let (host, path) = split_once_spec(s.subrange(4, s.len() as int), ':').unwrap();
        host + "/"@ + path
    } else if has_prefix(s, "https://"@) {
        s.subrange(8, s.len() as int)
    } else if has_prefix(s, "http://"@) {
        s.subrange(7, s.len() as int)
    } else {
        s
    }
}

pub fn normalize_origin(url: &str) -> (r: String)
    ensures
        r@ == normalize_origin_spec(url@),
{
    proof {
        reveal_strlit(".git");
        reveal_strlit("git@");
        reveal_strlit("https://");
        reveal_strlit("http://");
    }
    let t = trim(url);
    let s = if ends_with(t.as_str(), ".git") {
        let v = chars_of(t.as_str());
        string_of_range(&v, 0, v.len() - 4)
    } else {
        t
    };
    if let Some(rest) = strip_prefix(s.as_str(), "git@") {
        if let Some((host, path)) = split_once(rest.as_str(), ':') {
            return concat3(host.as_str(), "/", path.as_str());
        }
    }
    if let Some(rest) = strip_prefix(s.as_str(), "https://") {
        return rest;
    }
    if let Some(rest) = strip_prefix(s.as_str(), "http://") {
        return rest;
    }
    s
}

/// The current branch, from the output of `git rev-parse --abbrev-ref HEAD`.
pub fn current_branch(rev_parse: Result<String, PrioError>) -> (r: Result<String, PrioError>)
    ensures
        match rev_parse {
            Ok(out) => r matches Ok(b) && b@ == trim_spec(out@),
            Err(e) => r == Err::<String, PrioError>(e),
        },
{
    match rev_parse {
        Ok(out) => Ok(trim(out.as_str())),
        Err(e) => Err(e),
    }
}

/// What to do to make a branch available for `prio apply` in prio-mc.
pub enum BranchPrep {
    /// A local branch of that name exists.
    Ready,
    /// Fetch from origin first, noting why.
    Fetch { comment: String },
}

/// Prepare a branch for `prio apply` in the prio-mc clone.
///
/// When the branch has no local ref, fetch from origin — either to discover the branch
/// or to refresh a stale `origin/<branch>` before merge. `local_exists` and
/// `remote_exists` tell whether `refs/heads/<branch>` and `refs/remotes/origin/<branch>`
/// resolve.
pub fn ensure_branch_for_apply(local_exists: bool, remote_exists: bool) -> (r: BranchPrep)
    ensures
        local_exists ==> r is Ready,
        !local_exists ==> (r matches BranchPrep::Fetch { comment } && comment@ == (if remote_exists {
            "to ensure the latest commit from origin is applied"@
        } else {
            "to see if the branch is found at origin"@
        })),
{
    if local_exists {
        return BranchPrep::Ready;
    }
    let comment = if remote_exists {
        String::from_str("to ensure the latest commit from origin is applied")
    } else {
        String::from_str("to see if the branch is found at origin")
    };
    BranchPrep::Fetch { comment }
}

/// The message for a branch found neither locally nor at origin.
pub open spec fn branch_not_found_text(branch: Seq<char>) -> Seq<char> {
    "Branch '"@ + branch + "' not found locally or at origin/"@ + branch
}

pub fn branch_not_found(branch: &str) -> (r: PrioError)
    ensures
        r matches PrioError::Message(m) && m@ == branch_not_found_text(branch@),
{
    let mut m = concat3("Branch '", branch, "' not found locally or at origin/");
    m.append(branch);
    PrioError::Message(m)
}

/// After the fetch: the branch is usable when either ref now resolves.
pub fn branch_found_after_fetch(branch: &str, local_exists: bool, remote_exists: bool) -> (r: Result<(), PrioError>)
    ensures
        local_exists || remote_exists ==> r is Ok,
        !(local_exists || remote_exists) ==> (r matches Err(PrioError::Message(m)) && m@
            == branch_not_found_text(branch@)),
{
    if local_exists || remote_exists {
        return Ok(());
    }
    Err(branch_not_found(branch))
}

/// Whether `git status --porcelain` printed nothing but blanks.
pub fn working_tree_clean(porcelain: &str) -> (r: bool)
    ensures
        r == (trim_spec(porcelain@).len() == 0),
{
    trimmed_is_empty(porcelain)
}

/// The number of a `pr-<number>` reference.
pub fn pr_number(reference: &str) -> (r: Option<String>)
    ensures
        r is Some <==> has_prefix(reference@, "pr-"@),
        r matches Some(n) ==> n@ == reference@.subrange(3, reference@.len() as int),
{
    proof {
        reveal_strlit("pr-");
    }
    strip_prefix(reference, "pr-")
}

/// The branch a `pr-<number>` reference names, from gh's answer to
/// `gh pr view <number> --json headRefName` as read by `serde_json`.
pub fn branch_of_pr_view(number: &str, head_ref: Result<Option<String>, String>) -> (r: Result<String, PrioError>)
    ensures
        match head_ref {
            Ok(Some(b)) => r == Ok::<String, PrioError>(b),
            Ok(None) => r matches Err(PrioError::Message(m)) && m@ == "Could not resolve PR #"@
                + number@,
            Err(e) => r == Err::<String, PrioError>(PrioError::Json(e)),
        },
{
    match head_ref {
        Ok(Some(b)) => Ok(b),
        Ok(None) => Err(PrioError::Message(concat2("Could not resolve PR #", number))),
        Err(e) => Err(PrioError::Json(e)),
    }
}

/// The branch a reference names: a `pr-<number>` reference names the head branch
/// of that pull request, read from gh's JSON answer `pr_view_json`; any other
/// reference names itself.
pub fn resolve_branch_ref(reference: &str, pr_view_json: &str) -> (r: Result<String, PrioError>)
    ensures
        !has_prefix(reference@, "pr-"@) ==> (r matches Ok(b) && b@ == reference@),
        has_prefix(reference@, "pr-"@) ==> match json_member_text(pr_view_json@, "headRefName"@) {
            Ok(Some(b)) => r matches Ok(x) && x@ == b,
            Ok(None) => r matches Err(PrioError::Message(m)) && m@ == "Could not resolve PR #"@
                + reference@.subrange(3, reference@.len() as int),
            Err(e) => r matches Err(PrioError::Json(x)) && x@ == e,
        },
{
    match pr_number(reference) {
        Some(num) => {
            let head = member_text(pr_view_json, "headRefName");
            branch_of_pr_view(num.as_str(), head)
        },
        None => Ok(owned(reference)),
    }
}

} // verus!
