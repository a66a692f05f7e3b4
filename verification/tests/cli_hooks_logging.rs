use prio::cli::{hooks_reinstalled_notice, is_cli_invocation, parse_cp, parse_mv};
use prio::error::PrioError;
use prio::hooks::{append_if_absent, hook_script, install_hooks_path, is_gitignored, uninstall, HookTarget, HooksPathPlan};
use prio::logger::{cli_result_lines, format_log_entry_terminal, prefix_hook_line, LogEntry, LogLevel, Logger};
use prio::result::{PrioResult, PrioStatus};

fn strings(v: &[&str]) -> Vec<String> {
    v.iter().map(|s| s.to_string()).collect()
}

#[test]
fn command_line_or_ui() {
    assert!(is_cli_invocation(Some("status")));
    assert!(!is_cli_invocation(None));
}

#[test]
fn move_and_copy_arguments() {
    let (commits, dest) = parse_mv(&strings(&["a", "b", "-f", "dest"])).unwrap();
    assert_eq!(commits, strings(&["a", "b"]));
    assert_eq!(dest, "dest");
    match parse_mv(&strings(&["a"])) {
        Err(PrioError::Message(m)) => assert_eq!(m, "Usage: prio mv [-c] [-a] [-f] <commit>... <destination>"),
        _ => panic!("expected usage"),
    }
    match parse_cp(&strings(&["a"])) {
        Err(PrioError::Message(m)) => assert_eq!(m, "Usage: prio cp [-c] [-a] <commit>... <destination>"),
        _ => panic!("expected usage"),
    }
    match parse_cp(&strings(&["a", "-c"])) {
        Err(PrioError::Message(m)) => assert_eq!(m, "Destination required before flags"),
        _ => panic!("expected an error"),
    }
    let (commits, dest) = parse_cp(&strings(&["a", "-c", "-a", "d"])).unwrap();
    assert_eq!(commits, strings(&["a"]));
    assert_eq!(dest, "d");
    let (commits, _) = parse_cp(&strings(&["a", "-f", "d"])).unwrap();
    assert_eq!(commits, strings(&["a", "-f"]));
}

#[test]
fn hook_reinstall_notices() {
    assert_eq!(hooks_reinstalled_notice(false, false), None);
    assert_eq!(hooks_reinstalled_notice(true, false).unwrap(), "\x1b[33m⚠\x1b[0m  Hooks reinstalled (work clone)");
    assert_eq!(hooks_reinstalled_notice(true, true).unwrap(), "\x1b[33m⚠\x1b[0m  Hooks reinstalled (work clone, prio-mc clone)");
    assert_eq!(hooks_reinstalled_notice(false, true).unwrap(), "\x1b[33m⚠\x1b[0m  Hooks reinstalled (prio-mc clone)");
}

#[test]
fn hook_files() {
    assert!(hook_script(HookTarget::WorkClone).contains("prio _internal-work-post-commit"));
    assert!(hook_script(HookTarget::McClone).contains("prio _internal-mc-post-commit"));
    assert!(is_gitignored(Some("target\n.husky/\n".into()), ".husky"));
    assert!(!is_gitignored(Some("husky\n".into()), ".husky"));
    assert!(!is_gitignored(None, ".husky"));
    assert_eq!(append_if_absent("#!/bin/sh\necho hi", "prio hook\n"), Some("#!/bin/sh\necho hi\nprio hook\n".to_string()));
    assert_eq!(append_if_absent("x\nprio hook\n", "prio hook\n"), None);
    assert_eq!(append_if_absent("", "line"), Some("line".to_string()));
}

#[test]
fn hooks_path_settings() {
    match install_hooks_path(true, "") {
        HooksPathPlan::SetTo(v) => assert_eq!(v, ".husky"),
        _ => panic!("expected set"),
    }
    match install_hooks_path(false, " \n") {
        HooksPathPlan::SetTo(v) => assert_eq!(v, ".git/prio/hooks"),
        _ => panic!("expected set"),
    }
    match install_hooks_path(false, "custom/hooks\n") {
        HooksPathPlan::Warn(m) => assert_eq!(m, "core.hooksPath is set to 'custom/hooks' \u{2014} prio hook may not run automatically"),
        _ => panic!("expected a warning"),
    }
    assert!(matches!(install_hooks_path(false, ".git/prio/hooks"), HooksPathPlan::Keep));
    assert!(matches!(install_hooks_path(true, "x"), HooksPathPlan::Keep));
    assert!(uninstall(".git/prio/hooks\n"));
    assert!(uninstall("C:\\repo\\.git\\prio\\hooks"));
    assert!(!uninstall(".husky"));
}

#[test]
fn terminal_lines() {
    let e = LogEntry::info("hello".into());
    assert_eq!(format_log_entry_terminal(&e), "[info] hello");
    let c = LogEntry::cli_command(LogLevel::Warning, "/r".into(), "git status".into(), Some("why".into()));
    assert_eq!(format_log_entry_terminal(&c), "[warn] /r $ git status \x1b[90m# why\x1b[0m");
    assert_eq!(prefix_hook_line("x"), "\x1b[38;5;130mprio:\x1b[0m x");
    let r = PrioResult::warning("careful".into(), vec![LogEntry::error("bad".into())]);
    assert_eq!(cli_result_lines(&r, false), strings(&["\x1b[33mWARNING\x1b[0m: careful", "  [error] bad"]));
    assert_eq!(
        cli_result_lines(&r, true),
        strings(&["\x1b[38;5;130mprio:\x1b[0m \x1b[33mWARNING\x1b[0m: careful", "\x1b[38;5;130mprio:\x1b[0m [error] bad"])
    );
}

#[test]
fn results_and_errors() {
    let r = PrioResult::from_error(PrioError::GhNotAuthenticated, vec![LogEntry::info("x".into())]);
    assert_eq!(r.status, PrioStatus::Failure);
    assert_eq!(r.message, "GitHub CLI is not authenticated. Run: gh auth login");
    assert_eq!(r.logs.len(), 2);
    assert_eq!(r.logs[1].level, LogLevel::Error);
    assert_eq!(PrioError::Io("disk".into()).to_message(), "IO error: disk");
    assert_eq!(
        PrioError::Inactive { work_branch: "w".into(), current_branch: "m".into() }.to_message(),
        "prio is inactive. You are on branch 'm'.\n  To resume: git checkout w\n  Or re-run:  prio setup"
    );
    assert_eq!(
        PrioError::CommandFailed { command: "git x".into(), stderr: "boom".into() }.to_message(),
        "Command failed: git x\nboom"
    );
    assert_eq!(PrioResult::success("ok".into(), Vec::new()).status, PrioStatus::Success);
}

#[test]
fn collecting_logger() {
    let mut l = Logger::ui();
    l.info("a".into());
    l.warning("b".into());
    assert_eq!(l.entries().len(), 2);
    assert_eq!(l.entries()[1].level, LogLevel::Warning);
    let drained = l.drain();
    assert_eq!(drained.len(), 2);
    assert_eq!(drained[0].message, "a");
    assert!(l.entries().is_empty());
    assert!(l.drain().is_empty());
    for m in ["x", "y", "z"] {
        l.log(LogEntry::info(m.to_string()));
    }
    let again: Vec<String> = l.drain().into_iter().map(|e| e.message).collect();
    assert_eq!(again, vec!["x".to_string(), "y".to_string(), "z".to_string()]);
    assert!(l.drain().is_empty());
    let mut hook = Logger::Hook;
    hook.log(LogEntry::info("h".to_string()));
    assert!(hook.drain().is_empty());
}
