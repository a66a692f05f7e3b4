//! The errors of prio operations and their messages.
use vstd::prelude::*;
use vstd::string::StringExecFns;
use crate::strings::concat2;

verus! {

/// An error of a prio operation. Failures of the surrounding I/O (files, JSON,
/// HTTP) are carried as their rendered messages.
#[derive(Debug)]
pub enum PrioError {
    Io(String),
    Json(String),
    Http(String),
    LockTimeout { path: String },
    ToolNotInstalled { tool: String, install_hint: String },
    GhNotAuthenticated,
    NotGitRepo(String),
    Inactive { work_branch: String, current_branch: String },
    NotSetup(String),
    MergeConflict { mc_path: String },
    DirtyWorktree,
    Message(String),
    CommandFailed { command: String, stderr: String },
}

/// The text shown for an error.
pub open spec fn error_text(e: PrioError) -> Seq<char> {
    match e {
        PrioError::Io(m) => "IO error: "@ + m@,
        PrioError::Json(m) => "JSON error: "@ + m@,
        PrioError::Http(m) => "HTTP error: "@ + m@,
        PrioError::LockTimeout { path } => "Could not acquire lock at "@ + path@
            + " within 30 seconds. Another prio command may be running on this repository, or a git hook fired while prio was busy."@,
        PrioError::ToolNotInstalled { tool, install_hint } => tool@ + " is not installed. "@
            + install_hint@,
        PrioError::GhNotAuthenticated => "GitHub CLI is not authenticated. Run: gh auth login"@,
        PrioError::NotGitRepo(p) => "'"@ + p@
            + "' is not a Git repository.\n\nprio setup must be run inside a clone, or you must pass the path to one.\n\u{2022} To create a new repository here: git init\n\u{2022} To use an existing clone: cd into it and run `prio setup` (no path needed)"@,
        PrioError::Inactive { work_branch, current_branch } => "prio is inactive. You are on branch '"@
            + current_branch@ + "'.\n  To resume: git checkout "@ + work_branch@
            + "\n  Or re-run:  prio setup"@,
        PrioError::NotSetup(_) => "Repository is not set up for prio. Run: prio setup"@,
        PrioError::MergeConflict { mc_path } => "Merge conflicts in prio-mc clone at "@ + mc_path@
            + ". Resolve conflicts there, commit, then re-run prio apply."@,
        PrioError::DirtyWorktree => "Working tree is not clean. Run `git reset --hard` or `git stash` before prio recover."@,
        PrioError::Message(m) => m@,
        PrioError::CommandFailed { command, stderr } => "Command failed: "@ + command@ + "\n"@
            + stderr@,
    }
}

impl PrioError {
    /// The message of the error (what `to_string` shows).
    pub fn to_message(&self) -> (r: String)
        ensures
            r@ == error_text(*self),
    {
        match self {
            PrioError::Io(m) => concat2("IO error: ", m.as_str()),
            PrioError::Json(m) => concat2("JSON error: ", m.as_str()),
            PrioError::Http(m) => concat2("HTTP error: ", m.as_str()),
            PrioError::LockTimeout { path } => {
                let mut r = concat2("Could not acquire lock at ", path.as_str());
                r.append(
                    " within 30 seconds. Another prio command may be running on this repository, or a git hook fired while prio was busy.",
                );
                r
            },
            PrioError::ToolNotInstalled { tool, install_hint } => {
                let mut r = concat2(tool.as_str(), " is not installed. ");
                r.append(install_hint.as_str());
                r
            },
            PrioError::GhNotAuthenticated => String::from_str(
                "GitHub CLI is not authenticated. Run: gh auth login",
            ),
            PrioError::NotGitRepo(p) => {
                let mut r = concat2("'", p.as_str());
                r.append(
                    "' is not a Git repository.\n\nprio setup must be run inside a clone, or you must pass the path to one.\n\u{2022} To create a new repository here: git init\n\u{2022} To use an existing clone: cd into it and run `prio setup` (no path needed)",
                );
                r
            },
            PrioError::Inactive { work_branch, current_branch } => {
                let mut r = concat2("prio is inactive. You are on branch '", current_branch.as_str());
                r.append("'.\n  To resume: git checkout ");
                r.append(work_branch.as_str());
                r.append("\n  Or re-run:  prio setup");
                r
            },
            PrioError::NotSetup(_) => String::from_str(
                "Repository is not set up for prio. Run: prio setup",
            ),
            PrioError::MergeConflict { mc_path } => {
                let mut r = concat2("Merge conflicts in prio-mc clone at ", mc_path.as_str());
                r.append(". Resolve conflicts there, commit, then re-run prio apply.");
                r
            },
            PrioError::DirtyWorktree => String::from_str(
                "Working tree is not clean. Run `git reset --hard` or `git stash` before prio recover.",
            ),
            PrioError::Message(m) => m.clone(),
            PrioError::CommandFailed { command, stderr } => {
                let mut r = concat2("Command failed: ", command.as_str());
                r.append("\n");
                r.append(stderr.as_str());
                r
            },
        }
    }
}

} // verus!
