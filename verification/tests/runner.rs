use prio::error::PrioError;
use prio::git::runner::{
    branch_found_after_fetch, command_log_entry, command_result, command_string, current_branch,
    ensure_branch_for_apply, ensure_gh, ensure_gh_authenticated, ensure_git, ensure_git_work_tree,
    gh_auth_hint, gh_install_hint, gh_user_login, is_git_repo, normalize_origin, pr_number,
    resolve_branch_ref, working_tree_clean, BranchPrep, Spawned,
};
use prio::logger::{LogLevel, Logger};

fn args(v: &[&str]) -> Vec<String> {
    v.iter().map(|s| s.to_string()).collect()
}

#[test]
fn normalize_origin_forms() {
    assert_eq!(normalize_origin("git@github.com:owner/repo.git"), "github.com/owner/repo");
    assert_eq!(normalize_origin(" https://github.com/owner/repo.git\n"), "github.com/owner/repo");
    assert_eq!(normalize_origin("http://example.org/x"), "example.org/x");
    assert_eq!(normalize_origin("git@host-without-colon"), "git@host-without-colon");
    assert_eq!(normalize_origin("/local/path"), "/local/path");
}

#[test]
fn command_result_outcomes() {
    let a = args(&["status", "--porcelain"]);
    let ok = command_result(
        "git",
        &a,
        "linux",
        Spawned::Finished { success: true, stdout: " out \n".into(), stderr: "warn".into() },
    );
    assert_eq!(ok.unwrap(), "out");
    let failed = command_result(
        "git",
        &a,
        "linux",
        Spawned::Finished { success: false, stdout: "o".into(), stderr: "  ".into() },
    );
    match failed {
        Err(PrioError::CommandFailed { command, stderr }) => {
            assert_eq!(command, "git status --porcelain");
            assert_eq!(stderr, "o");
        }
        _ => panic!("expected a failed command"),
    }
    match command_result("gh", &a, "macos", Spawned::NotFound) {
        Err(PrioError::ToolNotInstalled { tool, install_hint }) => {
            assert_eq!(tool, "gh");
            assert_eq!(install_hint, "Run: brew install gh");
        }
        _ => panic!("expected tool not installed"),
    }
    match command_result("git", &a, "windows", Spawned::Failed("boom".into())) {
        Err(PrioError::Io(m)) => assert_eq!(m, "boom"),
        _ => panic!("expected an io error"),
    }
}

#[test]
fn command_string_and_log_entry() {
    let a = args(&["log", "--oneline"]);
    assert_eq!(command_string("git", &a), "git log --oneline");
    let e = command_log_entry("\\\\?\\C:\\repo", "git", &a, Some("why".into()));
    assert_eq!(e.level, LogLevel::Info);
    let cli = e.cli.unwrap();
    assert_eq!(cli.cwd, "C:\\repo");
    assert_eq!(cli.command, "git log --oneline");
    assert_eq!(cli.comment.as_deref(), Some("why"));
}

#[test]
fn tool_checks() {
    assert!(ensure_git(true, "linux").is_ok());
    match ensure_git(false, "linux") {
        Err(PrioError::ToolNotInstalled { tool, install_hint }) => {
            assert_eq!(tool, "git");
            assert_eq!(install_hint, "Run: sudo apt install git-all (or see https://git-scm.com/download/linux)");
        }
        _ => panic!("expected tool not installed"),
    }
    assert!(ensure_gh(false, "windows").is_err());
    assert_eq!(gh_install_hint("windows"), "Run: winget install --id GitHub.cli");
    assert_eq!(gh_auth_hint(), "Run: gh auth login");
}

#[test]
fn gh_authentication() {
    let mut logger = Logger::ui();
    assert!(ensure_gh_authenticated(true, true, "linux", &mut logger).is_ok());
    assert_eq!(logger.entries().len(), 0);
    let r = ensure_gh_authenticated(true, false, "linux", &mut logger);
    assert!(matches!(r, Err(PrioError::GhNotAuthenticated)));
    assert_eq!(logger.entries().len(), 1);
    assert_eq!(logger.entries()[0].message, "GitHub CLI is not authenticated. Run: gh auth login");
    assert_eq!(gh_user_login(true, Some(" octo \n".into())), Some("octo".to_string()));
    assert_eq!(gh_user_login(true, Some("  ".into())), None);
    assert_eq!(gh_user_login(false, Some("octo".into())), None);
}

#[test]
fn work_tree_checks() {
    assert!(ensure_git_work_tree("/r", Ok("true\n".into())).is_ok());
    assert!(matches!(ensure_git_work_tree("/r", Ok("false".into())), Err(PrioError::NotGitRepo(p)) if p == "/r"));
    let failed = Err(PrioError::CommandFailed { command: "git".into(), stderr: "no".into() });
    assert!(matches!(ensure_git_work_tree("/r", failed), Err(PrioError::NotGitRepo(_))));
    assert!(matches!(ensure_git_work_tree("/r", Err(PrioError::DirtyWorktree)), Err(PrioError::DirtyWorktree)));
    assert!(is_git_repo("/r", Ok("/r\n".into())));
    assert!(!is_git_repo("/r/sub", Ok("/r\n".into())));
    assert!(!is_git_repo("/r", Ok("true".into())));
    assert!(!is_git_repo("/r", Err(PrioError::DirtyWorktree)));
    assert_eq!(current_branch(Ok("main\n".into())).unwrap(), "main");
    assert!(working_tree_clean(" \n"));
    assert!(!working_tree_clean(" M src/lib.rs\n"));
}

#[test]
fn branch_preparation_for_apply() {
    assert!(matches!(ensure_branch_for_apply(true, false), BranchPrep::Ready));
    match ensure_branch_for_apply(false, true) {
        BranchPrep::Fetch { comment } => assert_eq!(comment, "to ensure the latest commit from origin is applied"),
        _ => panic!("expected a fetch"),
    }
    match ensure_branch_for_apply(false, false) {
        BranchPrep::Fetch { comment } => assert_eq!(comment, "to see if the branch is found at origin"),
        _ => panic!("expected a fetch"),
    }
    assert!(branch_found_after_fetch("b", false, true).is_ok());
    match branch_found_after_fetch("feat", false, false) {
        Err(PrioError::Message(m)) => assert_eq!(m, "Branch 'feat' not found locally or at origin/feat"),
        _ => panic!("expected not found"),
    }
}

#[test]
fn resolving_pr_references() {
    assert_eq!(pr_number("pr-12"), Some("12".to_string()));
    assert_eq!(pr_number("feature"), None);
    assert_eq!(resolve_branch_ref("feature", "").unwrap(), "feature");
    assert_eq!(resolve_branch_ref("pr-7", r#"{"headRefName":"feat/x"}"#).unwrap(), "feat/x");
    match resolve_branch_ref("pr-7", r#"{"other":1}"#) {
        Err(PrioError::Message(m)) => assert_eq!(m, "Could not resolve PR #7"),
        _ => panic!("expected a message"),
    }
    assert!(matches!(resolve_branch_ref("pr-7", "{oops"), Err(PrioError::Json(_))));
}
