use prio::error::PrioError;
use prio::result::PrioStatus;
use prio::services::apply::{
    apply_conflict_message, base_desc, best_order, count_conflict_markers, decode_unassign_sources,
    encode_source, execute_apply_merge, finalize_cp, finalize_mv_rebase, finish_merge_continuation,
    finish_unassign_sync, mark_conflict, mc_post_commit, merge_branch_name, merge_ref_for_branch,
    pending_force_pushes, permutations, pushed_only, record_conflict_resolution,
    record_continued_conflict, record_pending_force_push_source, record_pick, ref_sync_branches,
    reorder, resolve_optimal_order, same_branches, score_merge_order, settled_mc, updated_applied,
    trial_merge_step, MergeOutcome, OrderPlan, PostCommitRoute, TrialStep,
};
use prio::storage::repo_state::{
    ApplyCache, ConflictHistoryEntry, McState, MvRebaseConflict, RepoState,
};
use prio::storage::str_map::StrMap;

fn strings(v: &[&str]) -> Vec<String> {
    v.iter().map(|s| s.to_string()).collect()
}

fn state(applied: &[&str]) -> RepoState {
    RepoState {
        work_branch: "work".into(),
        default_branch: "main".into(),
        baseline_commit: "base".into(),
        applied_branches: strings(applied),
        commit_map: StrMap::new(),
        commit_assignments: StrMap::new(),
        stacks: Vec::new(),
        merge_in_progress: false,
        pending_merge_branches: Vec::new(),
        pending_merge_index: 0,
        mv_rebase_conflict: None,
    }
}

#[test]
fn applying_and_unapplying() {
    let applied = strings(&["a", "b"]);
    assert_eq!(updated_applied(&applied, &strings(&["c", "a"]), false), strings(&["a", "b", "c"]));
    assert_eq!(updated_applied(&applied, &strings(&["a", "x"]), true), strings(&["b"]));
    assert_eq!(ref_sync_branches(&strings(&["main", "a"]), "main"), strings(&["a"]));
}

#[test]
fn reorder_checks() {
    let mut s = state(&["a", "b", "c"]);
    assert!(reorder(&s, &strings(&["c", "a", "b"])).is_ok());
    match reorder(&s, &strings(&["a", "b"])) {
        Err(PrioError::Message(m)) => assert_eq!(m, "Reorder must include exactly the currently applied branches."),
        _ => panic!("expected a refusal"),
    }
    s.merge_in_progress = true;
    s.pending_merge_branches = strings(&["a", "b", "c"]);
    s.pending_merge_index = 1;
    assert!(reorder(&s, &strings(&["a", "c", "b"])).is_ok());
    match reorder(&s, &strings(&["b", "a", "c"])) {
        Err(PrioError::Message(m)) => {
            assert_eq!(m, "Cannot reorder at or below branches already merged in the current apply.")
        }
        _ => panic!("expected a refusal"),
    }
    assert!(same_branches(&strings(&["x", "y", "x"]), &strings(&["x", "x", "y"])));
    assert!(!same_branches(&strings(&["x", "y"]), &strings(&["x", "x"])));
}

#[test]
fn merge_branch_names_and_refs() {
    assert_eq!(merge_branch_name(&strings(&["feat/a", "b"])), "prio-mc/feat-a+b");
    assert_eq!(merge_branch_name(&Vec::new()), "");
    assert_eq!(merge_ref_for_branch("b", true, true).unwrap(), "b");
    assert_eq!(merge_ref_for_branch("b", false, true).unwrap(), "origin/b");
    match merge_ref_for_branch("b", false, false) {
        Err(PrioError::Message(m)) => assert_eq!(m, "Branch 'b' not found in prio-mc (checked local and origin/b)"),
        _ => panic!("expected not found"),
    }
}

#[test]
fn merge_order_candidates() {
    let items = strings(&["a", "b", "c"]);
    let perms = permutations(&items, 10);
    assert_eq!(perms.len(), 6);
    assert_eq!(perms[0], items);
    for p in &perms {
        assert!(same_branches(p, &items));
    }
    assert_eq!(permutations(&items, 2).len(), 2);
    assert_eq!(permutations(&strings(&["a", "b", "c", "d"]), 100).len(), 24);
    assert_eq!(permutations(&Vec::new(), 5).len(), 1);
    assert_eq!(permutations(&items, 0).len(), 0);
    let expected: Vec<Vec<String>> = [["a", "b", "c"], ["a", "c", "b"], ["b", "a", "c"], ["b", "c", "a"], ["c", "b", "a"], ["c", "a", "b"]]
        .iter()
        .map(|p| strings(p))
        .collect();
    assert_eq!(perms, expected);
    assert_eq!(permutations(&items, 4), expected[..4].to_vec());
    let (best, score) = best_order(&perms, &vec![3, 1, 1, 5, usize::MAX, 2], &items);
    assert_eq!(best, perms[1]);
    assert_eq!(score, 1);
    let (fallback, score) = best_order(&perms[..1].to_vec(), &vec![usize::MAX], &items);
    assert_eq!(fallback, items);
    assert_eq!(score, usize::MAX);
    let (kept, score) = best_order(&perms, &vec![0, 0, 1, 2, 3, 4], &items);
    assert_eq!(kept, items);
    assert_eq!(score, 0);
}

#[test]
fn merge_order_cache() {
    let mut cache = ApplyCache { entries: StrMap::new() };
    assert!(matches!(resolve_optimal_order(&strings(&["a"]), &cache), OrderPlan::Keep));
    match resolve_optimal_order(&strings(&["a", "b"]), &cache) {
        OrderPlan::Search { key } => assert_eq!(key, "a,b"),
        _ => panic!("expected a search"),
    }
    cache.entries.insert("a,b".into(), 0);
    assert!(matches!(resolve_optimal_order(&strings(&["a", "b"]), &cache), OrderPlan::Keep));
    cache.entries.insert("a,b".into(), 2);
    assert!(matches!(resolve_optimal_order(&strings(&["a", "b"]), &cache), OrderPlan::Search { .. }));
}

#[test]
fn conflict_scores() {
    let diff = "f.rs:3: leftover conflict marker\nf.rs:9: leftover conflict marker\nf.rs:12: trailing whitespace.\n";
    assert_eq!(count_conflict_markers(diff), 2);
    assert_eq!(count_conflict_markers(""), 1);
    assert_eq!(score_merge_order(&vec![2, 1, 4]), 7);
    assert_eq!(score_merge_order(&Vec::new()), 0);
}

fn history_entry(b: &str, depth: usize) -> ConflictHistoryEntry {
    ConflictHistoryEntry {
        branch_a: "main".into(),
        branch_b: b.into(),
        resolution_commit: "c".into(),
        depth,
        resolved_at: 1,
        stale: false,
    }
}

#[test]
fn conflict_history_deepest_first() {
    let mut h = vec![history_entry("x", 3), history_entry("y", 1)];
    record_conflict_resolution(&mut h, "z", "main", "r1", 2, 99);
    let depths: Vec<usize> = h.iter().map(|e| e.depth).collect();
    assert_eq!(depths, vec![3, 2, 1]);
    assert_eq!(h[1].branch_b, "z");
    assert_eq!(h[1].resolution_commit, "r1");
    assert_eq!(h[1].resolved_at, 99);
    record_conflict_resolution(&mut h, "w", "main", "r2", 5, 100);
    assert_eq!(h[0].branch_b, "w");
}

#[test]
fn apply_messages() {
    assert_eq!(base_desc("main", &Vec::new()), "main");
    assert_eq!(base_desc("main", &strings(&["a", "b"])), "main + a + b");
    assert_eq!(
        apply_conflict_message(&strings(&["a", "b"]), 1, "main", "/mc", "prio-mc/a+b"),
        "Merge conflict in prio-mc: merging b into (main + a).\nResolve conflicts in: /mc\nBranch: prio-mc/a+b\nThen run: git -C \"/mc\" commit --no-edit"
    );
}

#[test]
fn apply_run_completes() {
    let mut s = state(&["a"]);
    s.merge_in_progress = true;
    let r = execute_apply_merge(&mut s, strings(&["a", "b"]), &strings(&["a", "b"]), "prio-mc/a+b", MergeOutcome::Complete("h1".into()), "/mc", &McState::blank());
    assert_eq!(r.status, PrioStatus::Success);
    assert_eq!(r.message, "Apply completed.");
    assert_eq!(s.baseline_commit, "h1");
    assert!(!s.merge_in_progress);
    assert_eq!(s.applied_branches, strings(&["a", "b"]));
    assert_eq!(r.mc_state.default_branch, "main");
    assert!(!r.mc_state.merge_in_progress);
}

#[test]
fn apply_run_stops_on_conflict() {
    let mut s = state(&[]);
    let mut existing = McState::blank();
    existing.mv_rebase_force = true;
    existing.mv_pending_force_push_sources = strings(&["src:true"]);
    let order = strings(&["a", "b"]);
    let r = execute_apply_merge(&mut s, order.clone(), &order, "prio-mc/a+b", MergeOutcome::Conflict { at_index: 1 }, "/mc", &existing);
    assert_eq!(r.status, PrioStatus::Warning);
    assert!(s.merge_in_progress);
    assert_eq!(s.pending_merge_index, 1);
    assert_eq!(s.pending_merge_branches, order);
    assert_eq!(s.baseline_commit, "base");
    assert!(r.mc_state.merge_in_progress);
    assert_eq!(r.mc_state.merge_branch, "prio-mc/a+b");
    assert!(r.mc_state.mv_rebase_force);
    assert_eq!(r.mc_state.mv_pending_force_push_sources, strings(&["src:true"]));
    assert!(r.message.starts_with("Merge conflict in prio-mc: merging b into (main + a)."));
}

#[test]
fn recorded_sources_round_trip() {
    assert_eq!(encode_source("feat:x", true), "feat:x:true");
    let d = decode_unassign_sources(&strings(&["feat:x:true", "b:false", "nocolon"]));
    assert_eq!(d, vec![("feat:x".to_string(), true), ("b".to_string(), false)]);
    assert_eq!(pushed_only(&d), strings(&["feat:x"]));
}

#[test]
fn pending_force_pushes_recorded() {
    let mut mc = McState::blank();
    record_pending_force_push_source(&mut mc, "src", true, true);
    assert!(mc.mv_rebase_force);
    assert_eq!(mc.mv_pending_force_push_sources, strings(&["src:true"]));
    assert_eq!(pending_force_pushes(&mc), strings(&["src"]));
    record_pending_force_push_source(&mut mc, "src", true, false);
    assert!(!mc.mv_rebase_force);
    assert!(mc.mv_pending_force_push_sources.is_empty());
    assert!(pending_force_pushes(&mc).is_empty());
}

#[test]
fn post_commit_routes() {
    let mut mc = McState::blank();
    assert!(matches!(mc_post_commit(&mc), PostCommitRoute::NoMerge));
    mc.merge_in_progress = true;
    mc.pending_merge_branches = strings(&["a", "b", "c"]);
    mc.pending_merge_index = 0;
    assert!(matches!(mc_post_commit(&mc), PostCommitRoute::ContinueMerge { start: 1 }));
    mc.pending_merge_index = 2;
    assert!(matches!(mc_post_commit(&mc), PostCommitRoute::FinishMerge));
    mc.mv_rebase_unassign_commits = strings(&["x"]);
    assert!(matches!(mc_post_commit(&mc), PostCommitRoute::UnassignPicksAfterMerge));
    mc.mv_rebase_in_progress = true;
    for (phase, want) in [("dest", 0), ("cp", 1), ("unassign-source", 2), ("unassign-pick", 3), ("", 4)] {
        mc.mv_rebase_phase = phase.into();
        let got = match mc_post_commit(&mc) {
            PostCommitRoute::MvDest => 0,
            PostCommitRoute::MvCp => 1,
            PostCommitRoute::UnassignSource => 2,
            PostCommitRoute::UnassignPick => 3,
            PostCommitRoute::MvSource => 4,
            _ => 9,
        };
        assert_eq!(got, want);
    }
    let mut m2 = McState::blank();
    record_continued_conflict(&mut m2, 2, 1);
    assert_eq!(m2.pending_merge_index, 3);
}

#[test]
fn continuation_bookkeeping() {
    let mut s = state(&["a"]);
    record_pick(&mut s, "s1", "n1", "a");
    assert_eq!(s.commit_map.get("s1"), Some(&"n1".to_string()));
    assert_eq!(s.commit_assignments.get("n1"), Some(&"a".to_string()));
    mark_conflict(&mut s, "s2", None);
    assert!(s.mv_rebase_conflict.is_none());
    s.mv_rebase_conflict = Some(MvRebaseConflict {
        source_branch: "src".into(),
        dest_branch: "dst".into(),
        conflicting_commit: "s1".into(),
        source_is_pushed: true,
        mc_path: "/mc".into(),
        phase: "dest".into(),
    });
    mark_conflict(&mut s, "s3", Some("source"));
    let c = s.mv_rebase_conflict.as_ref().unwrap();
    assert_eq!(c.conflicting_commit, "s3");
    assert_eq!(c.phase, "source");
    assert_eq!(c.dest_branch, "dst");
    s.merge_in_progress = true;
    finish_merge_continuation(&mut s, "h2".into());
    assert_eq!(s.baseline_commit, "h2");
    assert!(!s.merge_in_progress);
    s.pending_merge_branches = strings(&["a"]);
    finish_unassign_sync(&mut s, "h3".into());
    assert_eq!(s.baseline_commit, "h3");
    assert!(s.pending_merge_branches.is_empty());
    assert!(s.mv_rebase_conflict.is_none());
}

#[test]
fn finishing_mc_rebases() {
    let mut mc = settled_mc("main");
    mc.mv_rebase_in_progress = true;
    mc.mv_rebase_phase = "cp".into();
    mc.mv_rebase_dest_branch = "d".into();
    mc.mv_rebase_source_branch = "s".into();
    finalize_cp(&mut mc);
    assert!(!mc.mv_rebase_in_progress);
    assert_eq!(mc.mv_rebase_dest_branch, "");
    assert_eq!(mc.mv_rebase_source_branch, "s");
    mc.mv_rebase_in_progress = true;
    mc.mv_rebase_force = true;
    finalize_mv_rebase(&mut mc);
    assert_eq!(mc.mv_rebase_source_branch, "");
    assert!(mc.mv_rebase_force);
    assert_eq!(mc.default_branch, "main");
}

#[test]
fn trial_merges_keep_clean_merges() {
    assert!(matches!(trial_merge_step(true), TrialStep::Commit));
    assert!(matches!(trial_merge_step(false), TrialStep::Abort));
}
