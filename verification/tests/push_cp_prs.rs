use prio::error::PrioError;
use prio::services::common::CherryPickOnMc;
use prio::services::cp::{
    check_commits, copied_message, copy_pick_outcome, cp_conflict_record, record_copy_pick,
    remerge_after_copy, CopyStep,
};
use prio::services::prs::{example_pr, pad_right, pr_list_lines, PrEntry};
use prio::services::push::{
    collect_unpushed_deps, dependency_push_note, has_own_commits, needs_mc_sync, plan_push,
    pushed_message, stack_dependencies, PushPlan,
};
use prio::storage::repo_state::{RepoState, StackEntry};
use prio::storage::str_map::StrMap;

fn strings(v: &[&str]) -> Vec<String> {
    v.iter().map(|s| s.to_string()).collect()
}

fn entry(b: &str, deps: &[&str]) -> StackEntry {
    StackEntry { branch: b.into(), dependencies: strings(deps) }
}

fn state() -> RepoState {
    RepoState {
        work_branch: "work".into(),
        default_branch: "main".into(),
        baseline_commit: "base".into(),
        applied_branches: strings(&["a"]),
        commit_map: StrMap::new(),
        commit_assignments: StrMap::new(),
        stacks: Vec::new(),
        merge_in_progress: false,
        pending_merge_branches: Vec::new(),
        pending_merge_index: 0,
        mv_rebase_conflict: None,
    }
}

#[test]
fn transitive_dependencies_in_order() {
    let stacks = vec![entry("top", &["mid", "side"]), entry("mid", &["base"]), entry("base", &[])];
    let deps = stack_dependencies("top", &stacks);
    assert_eq!(deps, strings(&["mid", "base", "side"]));
    assert!(stack_dependencies("base", &stacks).is_empty());
    assert!(stack_dependencies("unknown", &stacks).is_empty());
}

#[test]
fn dependency_cycles_end() {
    let stacks = vec![entry("a", &["b"]), entry("b", &["a", "b"])];
    let deps = stack_dependencies("a", &stacks);
    assert_eq!(deps, strings(&["b", "a"]));
}

#[test]
fn unpushed_filter() {
    let deps = strings(&["x", "y", "z"]);
    assert_eq!(collect_unpushed_deps(&deps, &vec![true, false, false]), strings(&["y", "z"]));
    assert!(collect_unpushed_deps(&deps, &vec![true, true, true]).is_empty());
}

#[test]
fn push_plans() {
    match plan_push("top", &strings(&["mid", "base"]), false) {
        PushPlan::Blocked { message } => assert_eq!(
            message,
            "Cannot push 'top': stacked dependency branch(es) [mid, base] have not been pushed yet.\nUse -p / --push-deps to push all dependency branches first."
        ),
        _ => panic!("expected blocked"),
    }
    match plan_push("top", &strings(&["mid"]), true) {
        PushPlan::Push { branches } => assert_eq!(branches, strings(&["mid", "top"])),
        _ => panic!("expected push"),
    }
    match plan_push("top", &Vec::new(), false) {
        PushPlan::Push { branches } => assert_eq!(branches, strings(&["top"])),
        _ => panic!("expected push"),
    }
    assert_eq!(dependency_push_note("mid"), "Pushing dependency branch: mid");
    assert_eq!(pushed_message("top"), "Pushed branch top.");
}

#[test]
fn syncing_from_prio_mc_before_push() {
    assert!(has_own_commits(&Ok("abc fix\n".into())));
    assert!(!has_own_commits(&Ok(" \n".into())));
    assert!(!has_own_commits(&Err(PrioError::DirtyWorktree)));
    let m = Some("m1".to_string());
    assert!(needs_mc_sync(false, false, &m, &Some("d1".into())));
    assert!(needs_mc_sync(false, false, &m, &None));
    assert!(!needs_mc_sync(false, false, &m, &Some("m1".into())));
    assert!(!needs_mc_sync(true, false, &m, &None));
    assert!(!needs_mc_sync(false, true, &m, &None));
    assert!(!needs_mc_sync(false, false, &None, &None));
}

#[test]
fn copy_checks_and_messages() {
    assert!(check_commits(2).is_ok());
    match check_commits(0) {
        Err(PrioError::Message(m)) => assert_eq!(m, "No commits specified."),
        _ => panic!("expected an error"),
    }
    assert_eq!(copied_message(3, "dest"), "Copied 3 commit(s) to dest. Source branch(es) are unchanged.");
    assert!(remerge_after_copy(false, &strings(&["a"])));
    assert!(!remerge_after_copy(true, &strings(&["a"])));
    assert!(!remerge_after_copy(false, &Vec::new()));
    let c = cp_conflict_record("dest", "s1", "/mc");
    assert_eq!(c.phase, "cp");
    assert_eq!(c.source_branch, "");
    assert_eq!(c.dest_branch, "dest");
}

#[test]
fn copy_records_picks() {
    let mut s = state();
    s.commit_assignments.insert("s1".into(), "src".into());
    record_copy_pick(&mut s, "s1", "n1", "dest");
    assert_eq!(s.commit_map.get("s1"), Some(&"n1".to_string()));
    assert_eq!(s.commit_assignments.get("n1"), Some(&"dest".to_string()));
    assert_eq!(s.commit_assignments.get("s1"), Some(&"src".to_string()));
}

#[test]
fn copy_pick_outcomes() {
    let mut s = state();
    assert!(matches!(copy_pick_outcome(&mut s, CherryPickOnMc::SkippedEmpty, "s1", "n1", "d", "/mc"), CopyStep::Recorded));
    assert_eq!(s.commit_map.get("s1"), Some(&"n1".to_string()));
    match copy_pick_outcome(&mut s, CherryPickOnMc::Conflict, "s2", "", "d", "/mc") {
        CopyStep::Conflict { message } => assert_eq!(
            message,
            "Cherry-pick conflict for s2 onto 'd' in prio-mc.\nRun `prio status` for resolution instructions."
        ),
        _ => panic!("expected a conflict"),
    }
    let c = s.mv_rebase_conflict.as_ref().unwrap();
    assert_eq!(c.conflicting_commit, "s2");
    assert_eq!(c.mc_path, "/mc");
    match copy_pick_outcome(&mut s, CherryPickOnMc::Failed, "s3", "", "d", "/mc") {
        CopyStep::Refused { message } => assert_eq!(
            message,
            "Cherry-pick of s3 onto 'd' failed in prio-mc at /mc. The cherry-pick was refused (not a conflict). Run `prio abort` to clean up stale prio-mc branches."
        ),
        _ => panic!("expected a refusal"),
    }
}

fn pr(n: u64, title: &str, head: &str) -> PrEntry {
    PrEntry { number: n, title: title.into(), head_ref: head.into() }
}

#[test]
fn listing_pull_requests() {
    assert_eq!(pad_right("ab", 4), "ab  ");
    assert_eq!(pad_right("abcdef", 4), "abcdef");
    assert_eq!(pr_list_lines(&Vec::new(), &Vec::new()), strings(&["No open pull requests."]));
    let prs = vec![pr(7, "Add x", "feat-x"), pr(12, "Fix y", "fix")];
    let lines = pr_list_lines(&prs, &strings(&["feat-x"]));
    assert_eq!(
        lines,
        strings(&[
            " ✅ applied    #7   feat-x  Add x",
            " ⬜ unapplied  #12  fix     Fix y",
            "",
            "To apply a PR:  prio apply pr-12",
        ])
    );
    assert_eq!(example_pr(&prs, &strings(&["feat-x", "fix"])), 7);
    assert_eq!(example_pr(&Vec::new(), &Vec::new()), 1);
}

#[test]
fn branch_column_counts_bytes() {
    // "café" is four characters and five bytes: the column is five wide.
    let prs = vec![pr(1, "T", "café"), pr(2, "U", "ab")];
    let lines = pr_list_lines(&prs, &Vec::new());
    assert_eq!(lines[0], " ⬜ unapplied  #1  café   T");
    assert_eq!(lines[1], " ⬜ unapplied  #2  ab     U");
    assert_eq!(lines[3], "To apply a PR:  prio apply pr-1");
}
