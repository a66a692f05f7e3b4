use prio::logger::Logger;
use prio::result::PrioStatus;
use prio::services::setup::setup_state;
use prio::services::status::{branch_log_args, cli_lines, conflict_info, parse_commit_line, pr_info, run, PrInfo};
use prio::storage::repo_state::{McState, MvRebaseConflict};

fn strings(v: &[&str]) -> Vec<String> {
    v.iter().map(|s| s.to_string()).collect()
}

#[test]
fn commit_lines_and_log_args() {
    assert_eq!(parse_commit_line("abc|fix: a|b"), ("abc".to_string(), "fix: a|b".to_string()));
    assert_eq!(parse_commit_line("abc"), ("abc".to_string(), "".to_string()));
    assert_eq!(branch_log_args("main", "feat", &Vec::new()), strings(&["log", "main..feat", "--format=%H|%s"]));
    assert_eq!(
        branch_log_args("main", "feat", &strings(&["dep"])),
        strings(&["log", "feat", "--not", "main", "dep", "--format=%H|%s", "--"])
    );
}

#[test]
fn pull_request_info() {
    let p = pr_info("feat", "[{\"number\": 9, \"url\": \"https://x/9\"}]");
    assert_eq!(p.branch, "feat");
    assert_eq!(p.number, Some(9));
    assert_eq!(p.url.as_deref(), Some("https://x/9"));
    let none = pr_info("feat", "[]");
    assert_eq!(none.number, None);
    assert_eq!(none.url, None);
}

#[test]
fn merge_conflict_info() {
    let mut mc = McState::blank();
    mc.default_branch = "main".into();
    mc.merge_branch = "prio-mc/a+b+c".into();
    mc.pending_merge_branches = strings(&["a", "b", "c"]);
    mc.pending_merge_index = 1;
    let info = conflict_info("/mc", &mc);
    assert_eq!(info.incoming_branch, "b");
    assert_eq!(info.base_desc, "main + a");
    assert_eq!(info.branches_merged, strings(&["a"]));
    assert_eq!(info.branches_pending, strings(&["c"]));
}

#[test]
fn status_of_a_work_area() {
    let mut state = setup_state("work".into(), "main".into(), "base".into(), strings(&["feat"]));
    state.commit_assignments.insert("w2".into(), "feat".into());
    state.commit_assignments.insert("w3".into(), "other".into());
    let prs = vec![PrInfo { branch: "feat".into(), number: Some(4), url: None }];
    let mut logger = Logger::ui();
    logger.info("ran git".into());
    let r = run(
        &mut state,
        None,
        false,
        "w1|first\nw2|second\nw3|third\n",
        &vec![Some("b1|on branch\n".into())],
        &prs,
        false,
        &mut logger,
    );
    assert_eq!(r.prio_result.status, PrioStatus::Success);
    assert_eq!(r.prio_result.message, "Status loaded.");
    assert_eq!(r.prio_result.logs.len(), 1);
    let bs = &r.data.applied_branches;
    assert_eq!(bs.len(), 2);
    assert_eq!(bs[0].name, "feat");
    assert!(bs[0].applied);
    assert_eq!(bs[0].pr_number, Some(4));
    let feat: Vec<(&str, bool)> = bs[0].commits.iter().map(|c| (c.sha.as_str(), c.on_branch)).collect();
    assert_eq!(feat, vec![("w2", false), ("b1", true)]);
    assert_eq!(bs[1].name, "other");
    assert!(!bs[1].applied);
    assert_eq!(r.data.unassigned_commits.len(), 1);
    assert_eq!(r.data.unassigned_commits[0].sha, "w1");
    assert_eq!(
        cli_lines(&r),
        strings(&[
            "Applied Branches:",
            "  ✓  feat  (PR #4)",
            "       w2  second  (pending apply)",
            "       b1  on branch",
            "  ✓  other",
            "       w3  third  (pending apply)",
            "\nUnassigned Commits:",
            "  w1  first",
            "",
            "⚠  2 commit(s) are assigned to a branch in prio metadata but not yet in the merged work area (see \"pending apply\" above).",
            "   This usually means `prio apply` did not run after a move, or was interrupted.",
            "",
            "   Recovery: assign unassigned commits (`prio mv <sha> <branch>`), then run `prio apply`.",
            "   Warning: `prio apply` discards any above-baseline commits still unassigned.",
        ])
    );
}

#[test]
fn stale_move_conflicts_are_cleared() {
    let mut state = setup_state("work".into(), "main".into(), "base".into(), Vec::new());
    state.mv_rebase_conflict = Some(MvRebaseConflict {
        source_branch: "src".into(),
        dest_branch: "dst".into(),
        conflicting_commit: "0123456789abcdef".into(),
        source_is_pushed: false,
        mc_path: "/mc".into(),
        phase: "dest".into(),
    });
    let mut logger = Logger::ui();
    let r = run(&mut state, None, false, "", &Vec::new(), &Vec::new(), true, &mut logger);
    assert!(r.data.mv_rebase_conflict.is_some());
    let lines = cli_lines(&r);
    assert_eq!(lines[0], "⚠  Cherry-pick conflict adding 0123456789ab to 'dst' (prio mv):");
    assert_eq!(lines[1], "   Resolve the conflict, then commit to apply '0123456789ab' onto 'dst'.");
    assert!(lines.contains(&"   Branch: dst".to_string()));
    assert!(lines.contains(&"Applied Branches:".to_string()));
    assert!(lines.contains(&"  (none)".to_string()));
    let r = run(&mut state, None, false, "", &Vec::new(), &Vec::new(), false, &mut logger);
    assert!(r.data.mv_rebase_conflict.is_none());
    assert!(state.mv_rebase_conflict.is_none());
    let r = run(&mut state, None, true, "", &Vec::new(), &Vec::new(), false, &mut logger);
    assert_eq!(r.prio_result.status, PrioStatus::Warning);
}
