use prio::error::PrioError;
use prio::logger::{LogEntry, Logger};
use prio::result::PrioStatus;
use prio::services::abort::{aborted_message, clear_mv_progress, remove_dest_from_work, run_without_conflict, take_conflict, NothingRecorded};
use prio::services::pr::{build_pr_body, build_stack_lines, created_message, pr_number_for_branch, stack_line_deps, staged_has_pr_md};
use prio::services::recover::{abandon_mv, recovered_result, state_matches, RecoverPlan};
use prio::services::setup::{
    detect_default_branch, get_work_branch_default, initial_applied, is_github_origin, prompt_work_branch,
    setup_record, setup_state, setup_status, suggest_work_branch,
};
use prio::services::stack::{remove_stack, run_stack, split_dependencies, run_unstack, unique_commits_args, unstack_conflict_message, unstack_flags, unstacked_message, UnstackPlan};
use prio::services::suggestions::{is_stacked, run_and_log, run_suggestions, suggestion_pairs};
use prio::services::sync::{branch_fully_merged, merged_by_pr, run_syncs};
use prio::services::unsetup::{archive_dir_name, archive_skips, backup_branch_name, exists_at_origin, mc_backup_path, tracks_origin, unsetup_message};
use prio::services::{recover, sync};
use prio::storage::repo_state::{LastGoodState, McState, MvRebaseConflict, RepoState, StackEntry};
use prio::storage::user_config::RepoRecord;

fn strings(v: &[&str]) -> Vec<String> {
    v.iter().map(|s| s.to_string()).collect()
}

fn state(applied: &[&str]) -> RepoState {
    setup_state("work".into(), "main".into(), "base".into(), strings(applied))
}

fn entry(b: &str, deps: &[&str]) -> StackEntry {
    StackEntry { branch: b.into(), dependencies: strings(deps) }
}

#[test]
fn stacking_replaces_entries() {
    let mut s = state(&["a", "b"]);
    assert_eq!(run_stack(&mut s, "b".into(), strings(&["a"])), "Stacked b after a.");
    assert_eq!(run_stack(&mut s, "c".into(), Vec::new()), "Stacked c after (no dependencies).");
    assert_eq!(run_stack(&mut s, "b".into(), strings(&["a", "c"])), "Stacked b after a, c.");
    assert_eq!(s.stacks.len(), 2);
    assert_eq!(s.stacks[0].branch, "c");
    assert_eq!(s.stacks[1].branch, "b");
    assert_eq!(s.stacks[1].dependencies, strings(&["a", "c"]));
    remove_stack(&mut s, "b");
    assert_eq!(s.stacks.len(), 1);
    s.stacks.push(entry("d", &["c"]));
    assert_eq!(run_stack(&mut s, "c".into(), strings(&["a+b"])), "Stacked c after a, b.");
    let c = s.stacks.iter().find(|e| e.branch == "c").unwrap();
    assert_eq!(c.dependencies, strings(&["a", "b"]));
    assert_eq!(s.stacks.iter().filter(|e| e.branch == "c").count(), 1);
    assert_eq!(split_dependencies(&strings(&["a+b", "c", "d++e+"])), strings(&["a", "b", "c", "d", "e"]));
    assert_eq!(s.stacks.len(), 2);
    assert_eq!(s.stacks[0].branch, "d");
    assert_eq!(s.stacks[0].dependencies, strings(&["c"]));
}

#[test]
fn unstacking() {
    match unstack_flags(true, true) {
        Err(PrioError::Message(m)) => assert_eq!(m, "-k (keep) and -f (force) are mutually exclusive."),
        _ => panic!("expected an error"),
    }
    assert!(unstack_flags(true, false).is_ok());
    let mut s = state(&[]);
    s.stacks.push(entry("b", &["a"]));
    match run_unstack(&s, "b", false, false, true) {
        UnstackPlan::Refuse(m) => assert_eq!(m, "Branch 'b' has been pushed to origin. Unstacking requires either:\n  -k  keep all upstream commits (metadata-only unstack)\n  -f  force-push after rebase (rewrites remote history)"),
        _ => panic!("expected a refusal"),
    }
    match run_unstack(&s, "b", false, true, true) {
        UnstackPlan::Proceed { deps, rebase } => {
            assert_eq!(deps, strings(&["a"]));
            assert!(rebase);
        }
        _ => panic!("expected to proceed"),
    }
    match run_unstack(&s, "b", true, false, true) {
        UnstackPlan::Proceed { rebase, .. } => assert!(!rebase),
        _ => panic!("expected to proceed"),
    }
    match run_unstack(&s, "x", false, false, false) {
        UnstackPlan::Proceed { deps, rebase } => {
            assert!(deps.is_empty());
            assert!(!rebase);
        }
        _ => panic!("expected to proceed"),
    }
    assert_eq!(unstacked_message("b", "main", true), "Unstacked b and rebased onto main.");
    assert_eq!(unstacked_message("b", "main", false), "Unstacked b.");
    assert_eq!(unique_commits_args("b", "main", &strings(&["a"])), strings(&["log", "b", "--not", "main", "a", "--format=%H", "--reverse", "--"]));
    assert_eq!(unstack_conflict_message("b", "s", "/mc"), "Cherry-pick conflict while rebasing 'b': commit s conflicts. Resolve manually in prio-mc at /mc.");
}

#[test]
fn stacking_suggestions() {
    let mut s = state(&["a", "b", "c"]);
    s.stacks.push(entry("c", &["a"]));
    assert_eq!(
        suggestion_pairs(&s.applied_branches),
        vec![("a".to_string(), "b".to_string()), ("a".to_string(), "c".to_string()), ("b".to_string(), "c".to_string())]
    );
    assert!(is_stacked(&s.stacks, "a", "c"));
    assert!(is_stacked(&s.stacks, "c", "a"));
    assert!(!is_stacked(&s.stacks, "a", "b"));
    let out = run_suggestions(&s, &vec![0, 3, 2]);
    assert_eq!(
        out,
        strings(&[
            "b has no conflicts with a \u{2014} consider: prio stack a b",
            "Stacking a and c may be unnecessary given conflict history",
            "b and c may conflict when merged \u{2014} consider: prio stack b c",
        ])
    );
    assert!(run_suggestions(&state(&["a"]), &Vec::new()).is_empty());
    let four = state(&["a", "b", "c", "d"]);
    let pairs: Vec<(String, String)> = [("a", "b"), ("a", "c"), ("a", "d"), ("b", "c"), ("b", "d"), ("c", "d")]
        .iter()
        .map(|(x, y)| (x.to_string(), y.to_string()))
        .collect();
    assert_eq!(suggestion_pairs(&four.applied_branches), pairs);
    let out4 = run_suggestions(&four, &vec![1, 1, 1, 1, 1, 1]);
    assert_eq!(out4[2], "a and d may conflict when merged \u{2014} consider: prio stack a d");
    let mut logger = Logger::ui();
    let logged = run_and_log(&s, &vec![1, 0, 0], &mut logger);
    assert_eq!(logger.entries().len(), logged.len());
    assert_eq!(logger.entries()[0].message, logged[0]);
}

#[test]
fn syncing() {
    assert!(branch_fully_merged(true, true, false, false));
    assert!(!branch_fully_merged(false, true, false, false));
    assert!(branch_fully_merged(false, false, true, false));
    assert!(branch_fully_merged(false, false, false, true));
    assert!(merged_by_pr("[{\"number\": 3}]"));
    assert!(!merged_by_pr("[]"));
    assert!(!merged_by_pr("not json"));
    let mut s = state(&["a", "b", "c"]);
    let out = sync::run(&mut s, Some("new\n".into()), &vec![false, true, true]);
    assert_eq!(s.baseline_commit, "new");
    assert_eq!(s.applied_branches, strings(&["a"]));
    assert_eq!(out.removed, strings(&["b", "c"]));
    assert!(out.reapply);
    assert_eq!(out.message, "Sync complete. Removed from applied (merged into main): b, c");
    let mut t = state(&["a"]);
    let out = sync::run(&mut t, Some("base".into()), &vec![false]);
    assert!(!out.reapply);
    assert_eq!(out.message, "Sync complete.");
    let (status, msg) = run_syncs(0, &Vec::new());
    assert_eq!(status, PrioStatus::Warning);
    assert_eq!(msg, "No repositories configured. Run prio setup first.");
    let (status, msg) = run_syncs(2, &strings(&["one", "two"]));
    assert_eq!(status, PrioStatus::Success);
    assert_eq!(msg, "one\ntwo");
}

#[test]
fn aborting() {
    match run_without_conflict(&strings(&["x", "y"]), false) {
        NothingRecorded::Orphans(m) => assert_eq!(m, "Removed stale prio-mc branch(es) not present in work clone: x, y."),
        _ => panic!("expected orphans"),
    }
    let mut s = state(&["a"]);
    s.mv_rebase_conflict = Some(MvRebaseConflict {
        source_branch: "s".into(),
        dest_branch: "d".into(),
        conflicting_commit: "c".into(),
        source_is_pushed: false,
        mc_path: "/mc".into(),
        phase: "dest".into(),
    });
    let c = take_conflict(&mut s).unwrap();
    assert_eq!(c.dest_branch, "d");
    assert!(s.mv_rebase_conflict.is_none());
    assert!(remove_dest_from_work(&s, "d"));
    assert!(!remove_dest_from_work(&s, "a"));
    let mut mc = McState::blank();
    mc.mv_rebase_in_progress = true;
    mc.mv_rebase_dest_branch = "d".into();
    mc.merge_in_progress = true;
    clear_mv_progress(&mut mc);
    assert!(!mc.mv_rebase_in_progress);
    assert_eq!(mc.mv_rebase_dest_branch, "");
    assert!(mc.merge_in_progress);
    assert_eq!(aborted_message("d", true), "Aborted prio mv conflict. Destination branch 'd' cleaned up in prio-mc and removed from WORK.");
    assert_eq!(aborted_message("d", false), "Aborted prio mv conflict. Destination branch 'd' cleaned up in prio-mc.");
}

#[test]
fn recovering() {
    assert!(matches!(recover::run(false, &None, "h", ""), Err(PrioError::DirtyWorktree)));
    match recover::run(true, &None, "h", "") {
        Err(PrioError::Message(m)) => assert_eq!(m, "No last known good state recorded."),
        _ => panic!("expected an error"),
    }
    let lg = Some(LastGoodState { commit_sha: "g".into(), state: state(&[]) });
    match recover::run(true, &lg, "g", "") {
        Ok(RecoverPlan::AlreadyGood(m)) => assert_eq!(m, "Work branch already matches last known good state."),
        _ => panic!("expected already good"),
    }
    assert!(matches!(recover::run(true, &lg, "h", "abc\n"), Ok(RecoverPlan::Rollback { backup: true })));
    assert!(matches!(recover::run(true, &lg, "h", " \n"), Ok(RecoverPlan::Rollback { backup: false })));
    let mut mc = McState::blank();
    mc.mv_rebase_in_progress = true;
    mc.mv_rebase_source_branch = "s".into();
    abandon_mv(&mut mc);
    assert!(!mc.mv_rebase_in_progress);
    assert_eq!(mc.mv_rebase_source_branch, "");
    assert_eq!(recovered_result(Some(5)), (PrioStatus::Warning, "Recovered. Backup created at .git/prio/backup/5 before recover.".to_string()));
    assert_eq!(recovered_result(None), (PrioStatus::Success, "Recovered to last known good state.".to_string()));
    assert!(state_matches(&state(&[]), "base"));
    assert!(!state_matches(&state(&[]), "other"));
}

#[test]
fn setting_up() {
    let s = suggest_work_branch("prio/me".into());
    assert_eq!(s.default_name, "prio/me");
    assert!(s.explanation.starts_with("Your work branch is where prio"));
    assert_eq!(get_work_branch_default(Some("x".into()), Some("p".into()), "a@b", Some("l".into())), "x");
    assert_eq!(get_work_branch_default(None, Some("p".into()), "a@b", Some("l".into())), "p");
    assert_eq!(get_work_branch_default(None, None, "  ", Some("l".into())), "prio/user");
    assert_eq!(get_work_branch_default(None, None, "a@b", Some("octo".into())), "prio/octo");
    assert_eq!(get_work_branch_default(None, None, "a@b", None), "prio/user");
    assert_eq!(prompt_work_branch("  \n", "prio/me"), "prio/me");
    assert_eq!(prompt_work_branch(" mine \n", "prio/me"), "mine");
    assert!(is_github_origin("github.com/o/r"));
    assert!(!is_github_origin("gitlab.com/o/r"));
    assert_eq!(detect_default_branch(Some("refs/remotes/origin/trunk\n".into()), Some("dev".into())), "trunk");
    assert_eq!(detect_default_branch(Some("garbage".into()), Some("dev".into())), "dev");
    assert_eq!(detect_default_branch(None, None), "main");
    assert_eq!(initial_applied("feat", "work", "main"), strings(&["feat"]));
    assert!(initial_applied("main", "work", "main").is_empty());
    assert!(initial_applied("work", "work", "main").is_empty());
    let st = state(&["feat"]);
    assert!(st.stacks.is_empty());
    assert!(!st.merge_in_progress);
    let existing = Some(RepoRecord { id: "old".into(), path: "/p".into(), origin_normalized: "o".into(), mc_clone_path: "/m".into(), added_at: 3 });
    let r = setup_record(&existing, "new".into(), "/q".into(), "o".into(), "/m2".into(), 9);
    assert_eq!((r.id.as_str(), r.added_at, r.path.as_str()), ("old", 3, "/q"));
    let r = setup_record(&None, "new".into(), "/q".into(), "o".into(), "/m2".into(), 9);
    assert_eq!((r.id.as_str(), r.added_at), ("new", 9));
    assert_eq!(setup_status(&vec![LogEntry::info("x".into())]), PrioStatus::Success);
    assert_eq!(setup_status(&vec![LogEntry::info("x".into()), LogEntry::warning("w".into())]), PrioStatus::Warning);
}

#[test]
fn unsetting_up() {
    assert_eq!(backup_branch_name(17), "prio/backup/17");
    assert_eq!(unsetup_message(17), "Prio unsetup complete. Work branch renamed to prio/backup/17; data archived under .git/prio/backup-17");
    assert!(tracks_origin(" origin\n"));
    assert!(!tracks_origin("upstream"));
    assert!(exists_at_origin("abc\trefs/heads/x\n"));
    assert!(!exists_at_origin("\n"));
    assert_eq!(archive_dir_name(4), "backup-4");
    assert!(archive_skips("backup-4", "backup-4"));
    assert!(archive_skips("prio.lock", "backup-4"));
    assert!(!archive_skips("state.json", "backup-4"));
    assert_eq!(mc_backup_path("/home/u/proj-prio-mc", 8), "/home/u/prio-mc-backup-8");
}

#[test]
fn pull_request_bodies() {
    let stacks = vec![entry("b", &[" a ", ""]), entry("c", &["x"]), entry("b", &["d"])];
    assert_eq!(stack_line_deps(&stacks, "b"), strings(&["a", "d"]));
    let lines = build_stack_lines(&strings(&["a", "d", "e"]), &vec![Some(12), None, None], &vec![true, true, false]);
    assert_eq!(lines, "- #12\n- d\n- e (not pushed yet)");
    assert_eq!(build_pr_body("Body".into(), &lines), format!("Body\n\n## Stacked after\n{lines}"));
    assert_eq!(build_pr_body("".into(), "- a"), "## Stacked after\n- a");
    assert_eq!(build_pr_body("Body".into(), ""), "Body");
    assert_eq!(pr_number_for_branch("[{\"number\": 42}]"), Some(42));
    assert_eq!(pr_number_for_branch("[]"), None);
    assert!(staged_has_pr_md("src/a.rs\nPR.md\n"));
    assert!(!staged_has_pr_md("src/PR.md\n"));
    assert_eq!(created_message("https://x/pr/1"), "Created draft PR: https://x/pr/1");
}
