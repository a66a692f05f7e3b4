use prio::error::PrioError;
use prio::services::common::{
    assert_on_work_branch, assign_work_commits_to_branch, assignment_for_work_sha, branch_tip_ref,
    cherry_pick_on_mc, cleanup_orphan_mc_branches, removed_orphans, is_work_area_commit, default_mc_path, expand_commit_args,
    find_commit_source_branch, is_commit_range, mc_path_for_repo, unassigned_work_shas, CherryPickOnMc,
};
use prio::storage::repo_state::{RepoConfig, RepoState, StackEntry};
use prio::storage::str_map::StrMap;
use prio::storage::user_config::RepoRecord;

fn strings(v: &[&str]) -> Vec<String> {
    v.iter().map(|s| s.to_string()).collect()
}

fn state() -> RepoState {
    RepoState {
        work_branch: "work".into(),
        default_branch: "main".into(),
        baseline_commit: "base".into(),
        applied_branches: strings(&["feat-a", "feat-b"]),
        commit_map: StrMap::new(),
        commit_assignments: StrMap::new(),
        stacks: Vec::<StackEntry>::new(),
        merge_in_progress: false,
        pending_merge_branches: Vec::new(),
        pending_merge_index: 0,
        mv_rebase_conflict: None,
    }
}

#[test]
fn default_prio_mc_locations() {
    assert_eq!(default_mc_path("/home/u/proj"), "/home/u/proj-prio-mc");
    assert_eq!(default_mc_path("/home/u/proj/"), "/home/u/proj-prio-mc");
    assert_eq!(default_mc_path("proj"), "proj-prio-mc");
}

#[test]
fn prio_mc_path_choice() {
    let repos = vec![RepoRecord {
        id: "1".into(),
        path: "/home/u/proj".into(),
        origin_normalized: "github.com/o/p".into(),
        mc_clone_path: "/elsewhere/mc".into(),
        added_at: 1,
    }];
    assert_eq!(mc_path_for_repo("/home/u/proj", Some("/x".into()), &repos), "/x");
    assert_eq!(mc_path_for_repo("/home/u/proj", None, &repos), "/elsewhere/mc");
    assert_eq!(mc_path_for_repo("/home/u/other", None, &repos), "/home/u/other-prio-mc");
}

#[test]
fn work_branch_guard() {
    let config = RepoConfig { work_branch: "work".into(), default_branch: "main".into() };
    assert!(assert_on_work_branch(&config, "work").is_ok());
    match assert_on_work_branch(&config, "main") {
        Err(PrioError::Inactive { work_branch, current_branch }) => {
            assert_eq!(work_branch, "work");
            assert_eq!(current_branch, "main");
        }
        _ => panic!("expected inactive"),
    }
}

#[test]
fn commit_ranges_expand() {
    assert!(is_commit_range("a..b"));
    assert!(!is_commit_range("abc"));
    let commits = strings(&["c1", "a..b", "c2"]);
    let listings = strings(&["", "x1\n\nx2\n", "ignored"]);
    assert_eq!(expand_commit_args(&commits, &listings), strings(&["c1", "x1", "x2", "c2"]));
}

#[test]
fn branch_tips() {
    assert_eq!(branch_tip_ref("b", true, true, true, false).unwrap(), "b");
    assert_eq!(branch_tip_ref("b", true, true, false, true).unwrap(), "origin/b");
    assert_eq!(branch_tip_ref("b", true, true, false, false).unwrap(), "b");
    assert_eq!(branch_tip_ref("b", false, true, false, false).unwrap(), "origin/b");
    match branch_tip_ref("b", false, false, false, false) {
        Err(PrioError::Message(m)) => assert_eq!(m, "Branch 'b' not found locally or at origin/b"),
        _ => panic!("expected not found"),
    }
}

#[test]
fn commit_source_branch() {
    let applied = strings(&["a", "b", "c"]);
    assert_eq!(find_commit_source_branch(&applied, &vec![false, true, true]), Some("b".to_string()));
    assert_eq!(find_commit_source_branch(&applied, &vec![false, false, false]), None);
}

#[test]
fn assignments_follow_cherry_picks() {
    let mut s = state();
    s.commit_assignments.insert("n1".into(), "feat-a".into());
    s.commit_map.insert("w1".into(), "n1".into());
    s.commit_assignments.insert("w2".into(), "feat-b".into());
    assert_eq!(assignment_for_work_sha("w1", &s), "feat-a");
    assert_eq!(assignment_for_work_sha("w2", &s), "feat-b");
    assert_eq!(assignment_for_work_sha("w3", &s), ".");
    assert_eq!(unassigned_work_shas("w1\nw3\nw2\nw4\n", &s), strings(&["w3", "w4"]));
}

#[test]
fn assigning_all_work_commits() {
    let mut s = state();
    s.commit_assignments.insert("w1".into(), "old".into());
    assign_work_commits_to_branch(&mut s, "w1\nw2\n", "feat-c");
    assert_eq!(s.commit_assignments.get("w1"), Some(&"feat-c".to_string()));
    assert_eq!(s.commit_assignments.get("w2"), Some(&"feat-c".to_string()));
    assert_eq!(s.applied_branches, strings(&["feat-a", "feat-b"]));
}

#[test]
fn cherry_pick_outcomes() {
    assert!(matches!(cherry_pick_on_mc(true, false, false), CherryPickOnMc::Applied));
    assert!(matches!(cherry_pick_on_mc(false, true, true), CherryPickOnMc::SkippedEmpty));
    assert!(matches!(cherry_pick_on_mc(false, true, false), CherryPickOnMc::Conflict));
    assert!(matches!(cherry_pick_on_mc(false, false, true), CherryPickOnMc::Failed));
}

#[test]
fn orphan_prio_mc_branches() {
    let work = "main\nfeat-a\nwork\n";
    let mc = "main\nfeat-a\nprio-mc/merge-1\nstale\n";
    assert_eq!(cleanup_orphan_mc_branches(work, mc, "main"), strings(&["stale"]));
    assert_eq!(removed_orphans(&strings(&["x", "y", "z"]), &vec![true, false, true]), strings(&["x", "z"]));
    assert!(removed_orphans(&strings(&["x"]), &vec![false]).is_empty());
    assert!(is_work_area_commit(true, false));
    assert!(!is_work_area_commit(true, true));
    assert!(!is_work_area_commit(false, false));
}
