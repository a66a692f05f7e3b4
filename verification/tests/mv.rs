use prio::error::PrioError;
use prio::services::apply::{decode_unassign_sources, queued_after_current, mc_post_commit, PostCommitRoute};
use prio::services::common::CherryPickOnMc;
use prio::services::continuation::{continue_pick_step, ContinueStep};
use prio::services::mv::{
    add_applied, check_destination, check_pr_create, classify_commits, clear_unassigned_assignments,
    cp_conflict_mc, dest_conflict_mc, dest_conflict_record, effective_excludes_for_source,
    enter_source_phase, force_push_record, group_sources, kept_commits, mapped_source, moved_message,
    nothing_kept, rebase_chain, rebase_finish, rebase_step, record_move_pick,
    record_pending_force_pushes, record_source_remaining, refuse_pushed_sources, requeue_unassign_sources, route_move,
    source_conflict_mc, source_conflict_record, tag_commits, tagged_message, unassign_pick_conflict_mc,
    unassign_merge_conflict_mc, unassign_pick_conflict_record, unassign_source_conflict_mc, unassign_source_conflict_record,
    unassigned_message, work_area_target, work_pick_conflict_message, ChainCommit, MoveRoute,
    RebaseStep, work_area_plan, after_work_picks, WorkAreaPlan, AfterWorkPicks, picks_after, sources_from,
    first_source, flat_source_shas, encode_sources, destination_sync, sources_to_force_push, DestinationSync,
};
use prio::storage::repo_state::{McState, RepoState};
use prio::storage::str_map::StrMap;

fn strings(v: &[&str]) -> Vec<String> {
    v.iter().map(|s| s.to_string()).collect()
}

fn state() -> RepoState {
    RepoState {
        work_branch: "work".into(),
        default_branch: "main".into(),
        baseline_commit: "base".into(),
        applied_branches: strings(&["feat"]),
        commit_map: StrMap::new(),
        commit_assignments: StrMap::new(),
        stacks: Vec::new(),
        merge_in_progress: false,
        pending_merge_branches: Vec::new(),
        pending_merge_index: 0,
        mv_rebase_conflict: None,
    }
}

#[test]
fn earlier_moves_map_to_sources() {
    let mut s = state();
    s.commit_map.insert("w1".into(), "p1".into());
    s.commit_assignments.insert("p1".into(), "feat".into());
    s.commit_map.insert("w2".into(), "p2".into());
    s.commit_assignments.insert("p2".into(), "other".into());
    assert_eq!(mapped_source("w1", &s), Some("feat".to_string()));
    assert_eq!(mapped_source("w2", &s), None);
    assert_eq!(mapped_source("w3", &s), None);
}

#[test]
fn classifying_and_routing() {
    let shas = strings(&["a", "b", "c", "d"]);
    let mapped = vec![Some("feat".to_string()), None, None, None];
    let in_work = vec![false, true, false, false];
    let found = vec![None, None, Some("x".to_string()), None];
    let c = classify_commits(&shas, &mapped, &in_work, &found);
    assert_eq!(c.cross_branch, vec![("a".to_string(), "feat".to_string()), ("c".to_string(), "x".to_string())]);
    assert_eq!(c.work_area, strings(&["b"]));
    assert_eq!(c.not_found, strings(&["d"]));
    match route_move(&c, "dest", false) {
        Ok(MoveRoute::Refuse(m)) => assert_eq!(m, "Commit(s) d are not on the work branch or any applied branch. They must be reachable from the work branch (above the baseline) or from an applied branch visible in `prio status`."),
        _ => panic!("expected a refusal"),
    }
    let mixed = classify_commits(&strings(&["a", "b"]), &vec![Some("feat".into()), None], &vec![false, true], &vec![None, None]);
    match route_move(&mixed, "dest", false) {
        Ok(MoveRoute::Refuse(m)) => assert_eq!(m, "Cannot mix work-branch commits with applied-branch commits in a single `prio mv` call. Use separate calls."),
        _ => panic!("expected a refusal"),
    }
    let cross = classify_commits(&strings(&["a"]), &vec![Some("feat".into())], &vec![false], &vec![None]);
    assert!(matches!(route_move(&cross, "dest", true), Ok(MoveRoute::CrossMove)));
    assert!(matches!(route_move(&cross, ".", false), Ok(MoveRoute::CrossUnassign)));
    match route_move(&cross, ".", true) {
        Err(PrioError::Message(m)) => assert_eq!(m, "-c is not allowed with destination `.` (unassign)."),
        _ => panic!("expected an error"),
    }
    let work = classify_commits(&strings(&["b"]), &vec![None], &vec![true], &vec![None]);
    assert!(matches!(route_move(&work, "dest", false), Ok(MoveRoute::WorkArea)));
}

#[test]
fn destinations() {
    assert_eq!(work_area_target(".", "work", "ignored"), ("work".to_string(), ".".to_string()));
    assert_eq!(work_area_target("d", "work", "feat-d"), ("feat-d".to_string(), "feat-d".to_string()));
    assert_eq!(check_destination("d", true, false).unwrap(), false);
    assert_eq!(check_destination("d", false, true).unwrap(), true);
    match check_destination("d", false, false) {
        Err(PrioError::Message(m)) => assert_eq!(m, "Branch d does not exist. Use -c to create it."),
        _ => panic!("expected an error"),
    }
    assert!(check_pr_create("pr-3", false).is_ok());
    match check_pr_create("pr-3", true) {
        Err(PrioError::Message(m)) => assert_eq!(m, "-c is not allowed for pr-{num} destinations."),
        _ => panic!("expected an error"),
    }
}

#[test]
fn move_bookkeeping() {
    let mut s = state();
    add_applied(&mut s, "d", true);
    add_applied(&mut s, "d", true);
    add_applied(&mut s, "e", false);
    assert_eq!(s.applied_branches, strings(&["feat", "d"]));
    tag_commits(&mut s, &strings(&["a", "b"]), "d");
    assert_eq!(s.commit_assignments.get("b"), Some(&"d".to_string()));
    record_move_pick(&mut s, "a", "a2", "d");
    assert_eq!(s.commit_map.get("a"), Some(&"a2".to_string()));
    assert_eq!(s.commit_assignments.get("a"), None);
    assert_eq!(s.commit_assignments.get("a2"), Some(&"d".to_string()));
    s.commit_map.insert("b".into(), "b2".into());
    s.commit_assignments.insert("b2".into(), "d".into());
    clear_unassigned_assignments(&mut s, &strings(&["b"]));
    assert_eq!(s.commit_assignments.get("b"), None);
    assert_eq!(s.commit_assignments.get("b2"), None);
}

#[test]
fn move_messages() {
    assert_eq!(tagged_message(2, "d", "d"), "Tagged 2 commit(s) as d (already on d).");
    assert_eq!(unassigned_message(1), "Unassigned 1 commit(s) \u{2014} they remain in the work area.");
    assert_eq!(
        work_pick_conflict_message("s", "d", "/mc"),
        "Cherry-pick conflict for s onto d in prio-mc at /mc. The cherry-pick has been aborted \u{2014} resolve why this commit conflicts and retry."
    );
    assert_eq!(
        moved_message(3, "d", 2),
        "Cherry-picked 3 commit(s) to d. 2 unassigned commit(s) remain above the baseline \u{2014} assign them with `prio mv` before running `prio apply`, or they will be discarded."
    );
}

#[test]
fn grouping_sources() {
    let cross = vec![
        ("a".to_string(), "s1".to_string()),
        ("b".to_string(), "s2".to_string()),
        ("c".to_string(), "s1".to_string()),
    ];
    let (names, lists) = group_sources(&cross);
    assert_eq!(names, strings(&["s1", "s2"]));
    assert_eq!(lists, vec![strings(&["a", "c"]), strings(&["b"])]);
}

#[test]
fn pushed_sources_refuse_without_force() {
    let sources = strings(&["s1", "s2"]);
    assert_eq!(refuse_pushed_sources(&sources, &vec![true, true], true, false), None);
    assert_eq!(refuse_pushed_sources(&sources, &vec![false, false], false, false), None);
    assert_eq!(
        refuse_pushed_sources(&sources, &vec![false, true], false, true),
        Some("Source branch 's2' has been pushed to origin. Unassigning commits rewrites remote history. Use `-f` to allow force-push after rebase.".to_string())
    );
    assert_eq!(
        refuse_pushed_sources(&sources, &vec![true, true], false, false),
        Some("Source branch 's1' has been pushed to origin. Moving commits off it rewrites remote history. Either:\n  -f  to allow me to force-push source branch after rebase\n  prio cp <sha> <dest>  copy without modifying the source branch".to_string())
    );
    assert_eq!(force_push_record(&sources, &vec![false, true], true), strings(&["s2:true"]));
    assert!(force_push_record(&sources, &vec![true, true], false).is_empty());
}

#[test]
fn excludes_follow_the_commit_map() {
    let mut s = state();
    s.commit_map.insert("m".into(), "m2".into());
    s.commit_map.insert("o".into(), "m".into());
    let mut ex = effective_excludes_for_source(&strings(&["m", "m"]), &s);
    ex.sort();
    assert_eq!(ex, strings(&["m", "m2", "o"]));
}

fn chain() -> Vec<ChainCommit> {
    rebase_chain("c1 first\nc2 second one\n\nc3 third\n", &strings(&["c2"]))
}

#[test]
fn source_rebase_chain() {
    let c = chain();
    assert_eq!(c.len(), 3);
    assert_eq!(c[1].sha, "c2");
    assert_eq!(c[1].subject, "second one");
    assert!(!c[1].kept);
    assert!(c[0].kept && c[2].kept);
    assert_eq!(kept_commits(&c), strings(&["c1", "c3"]));
    assert!(!nothing_kept(&c));
    assert!(nothing_kept(&rebase_chain("c2 x\n", &strings(&["c2"]))));
    assert_eq!(rebase_finish(2), Some(2));
    assert_eq!(rebase_finish(0), None);
}

#[test]
fn source_rebase_steps() {
    let c = chain();
    let kept = kept_commits(&c);
    let (p, step) = rebase_step(&c, &kept, 0, 0, CherryPickOnMc::Applied, "src", "/mc");
    assert_eq!(p, 0);
    assert!(matches!(step, RebaseStep::Next));
    let (p, step) = rebase_step(&c, &kept, 1, 0, CherryPickOnMc::Applied, "src", "/mc");
    assert_eq!(p, 1);
    assert!(matches!(step, RebaseStep::Next));
    let (p, step) = rebase_step(&c, &kept, 2, 1, CherryPickOnMc::Applied, "src", "/mc");
    assert_eq!(p, 0);
    match step {
        RebaseStep::Squash { count, subject } => {
            assert_eq!(count, 2);
            assert_eq!(subject, "third");
        }
        _ => panic!("expected a squash"),
    }
    let (_, step) = rebase_step(&c, &kept, 2, 1, CherryPickOnMc::SkippedEmpty, "src", "/mc");
    assert!(matches!(step, RebaseStep::Drop { count: 1 }));
    let (_, step) = rebase_step(&c, &kept, 0, 0, CherryPickOnMc::Conflict, "src", "/mc");
    match step {
        RebaseStep::Conflict { at_sha, remaining } => {
            assert_eq!(at_sha, "c1");
            assert_eq!(remaining, strings(&["c3"]));
        }
        _ => panic!("expected a conflict"),
    }
    let (_, step) = rebase_step(&c, &kept, 1, 0, CherryPickOnMc::Conflict, "src", "/mc");
    match step {
        RebaseStep::Conflict { at_sha, remaining } => {
            assert_eq!(at_sha, "c3");
            assert_eq!(remaining, strings(&["c3"]));
        }
        _ => panic!("expected a conflict"),
    }
    let (_, step) = rebase_step(&c, &kept, 0, 0, CherryPickOnMc::Failed, "src", "/mc");
    match step {
        RebaseStep::Refused(PrioError::Message(m)) => assert_eq!(
            m,
            "Could not cherry-pick commit c1 while rebasing 'src': cherry-pick was refused. Check prio-mc at /mc."
        ),
        _ => panic!("expected a refusal"),
    }
}

#[test]
fn conflict_states_route_the_hook() {
    let dest = dest_conflict_mc(McState::blank(), "d", strings(&["x"]), "s", strings(&["a"]), true, true);
    assert!(matches!(mc_post_commit(&dest), PostCommitRoute::MvDest));
    assert_eq!(dest.mv_rebase_dest_branch, "d");
    let cp = cp_conflict_mc(McState::blank(), "d", strings(&["x"]));
    assert!(matches!(mc_post_commit(&cp), PostCommitRoute::MvCp));
    assert_eq!(cp.mv_rebase_remaining_dest, strings(&["x"]));
    let src = source_conflict_mc(McState::blank(), "s", "d", strings(&["r"]), false, false);
    assert!(matches!(mc_post_commit(&src), PostCommitRoute::MvSource));
    assert_eq!(src.mv_rebase_source_branch, "s");
    let us = unassign_source_conflict_mc(McState::blank(), "s", strings(&["r"]), true, true, strings(&["a"]), strings(&["s:true"]), strings(&["t"]));
    assert!(matches!(mc_post_commit(&us), PostCommitRoute::UnassignSource));
    let up = unassign_pick_conflict_mc("main", strings(&["r"]), "h", strings(&["s:true"]), strings(&["a"]), false);
    assert!(matches!(mc_post_commit(&up), PostCommitRoute::UnassignPick));
    assert_eq!(up.mv_rebase_unassign_baseline, "h");
}

#[test]
fn replay_leaves_one_commit_per_kept_commit() {
    let c = rebase_chain("c1 a\nx1 b\nx2 c\nc3 d\nx4 e\nc5 f\n", &strings(&["x1", "x2", "x4"]));
    let kept = kept_commits(&c);
    let outcomes = [
        CherryPickOnMc::Applied,
        CherryPickOnMc::Applied,
        CherryPickOnMc::SkippedEmpty,
        CherryPickOnMc::Applied,
        CherryPickOnMc::Applied,
        CherryPickOnMc::SkippedEmpty,
    ];
    let mut height: i64 = 0;
    let mut pending: usize = 0;
    for (i, o) in outcomes.iter().enumerate() {
        let o2 = match o {
            CherryPickOnMc::Applied => CherryPickOnMc::Applied,
            _ => CherryPickOnMc::SkippedEmpty,
        };
        if matches!(o, CherryPickOnMc::Applied) {
            height += 1;
        }
        let (p, step) = rebase_step(&c, &kept, i, pending, o2, "src", "/mc");
        match step {
            RebaseStep::Next => {}
            RebaseStep::Squash { count, .. } => height = height - count as i64 + 1,
            RebaseStep::Drop { count } => height -= count as i64,
            _ => panic!("unexpected step"),
        }
        pending = p;
    }
    if let Some(n) = rebase_finish(pending) {
        height -= n as i64;
    }
    assert_eq!(height, 2);
}

#[test]
fn conflict_records_name_their_phase() {
    let d = dest_conflict_record("feat", "other", "abc", true, "/mc");
    assert_eq!((d.source_branch.as_str(), d.dest_branch.as_str(), d.conflicting_commit.as_str()), ("feat", "other", "abc"));
    assert!(d.source_is_pushed);
    assert_eq!((d.mc_path.as_str(), d.phase.as_str()), ("/mc", "dest"));
    let s = source_conflict_record("feat", "other", "def", false, "/mc");
    assert_eq!((s.source_branch.as_str(), s.dest_branch.as_str(), s.phase.as_str()), ("feat", "other", "source"));
    assert!(!s.source_is_pushed);
    let u = unassign_source_conflict_record("feat", "123", true, "/mc");
    assert_eq!((u.dest_branch.as_str(), u.conflicting_commit.as_str(), u.phase.as_str()), (".", "123", "unassign-source"));
    let p = unassign_pick_conflict_record("456", "/mc");
    assert_eq!((p.source_branch.as_str(), p.dest_branch.as_str(), p.phase.as_str()), ("", ".", "unassign-pick"));
    assert!(!p.source_is_pushed);
}

#[test]
fn queued_source_becomes_current() {
    let mut mc = unassign_source_conflict_mc(
        McState::blank(),
        "a",
        strings(&["x"]),
        false,
        true,
        strings(&["s1", "s2"]),
        strings(&["a:false", "b:true", "c:false"]),
        strings(&["a:false", "b:true", "c:false"]),
    );
    let queued = vec![("b".to_string(), true), ("c:d".to_string(), false)];
    requeue_unassign_sources(&mut mc, &queued, 0, strings(&["y", "z"]));
    assert_eq!(mc.mv_rebase_source_branch, "b");
    assert!(mc.mv_rebase_source_is_pushed);
    assert_eq!(mc.mv_rebase_remaining_commits, strings(&["y", "z"]));
    assert_eq!(mc.mv_rebase_unassign_source_branches, strings(&["b:true", "c:d:false"]));
    assert_eq!(mc.mv_rebase_phase, "unassign-source");
    assert_eq!(mc.mv_rebase_unassign_commits, strings(&["s1", "s2"]));
    assert!(mc.mv_rebase_force);
    assert_eq!(decode_unassign_sources(&mc.mv_rebase_unassign_source_branches), queued);
    requeue_unassign_sources(&mut mc, &queued, 1, Vec::new());
    assert_eq!(mc.mv_rebase_source_branch, "c:d");
    assert_eq!(mc.mv_rebase_unassign_source_branches, strings(&["c:d:false"]));
}

#[test]
fn destination_done_goes_on_with_source() {
    let mut mc = dest_conflict_mc(McState::blank(), "dest", strings(&["x", "y"]), "src", strings(&["s"]), true, false);
    assert!(matches!(mc_post_commit(&mc), PostCommitRoute::MvDest));
    enter_source_phase(&mut mc);
    assert_eq!(mc.mv_rebase_phase, "source");
    assert!(mc.mv_rebase_remaining_dest.is_empty());
    assert_eq!(mc.mv_rebase_source_branch, "src");
    assert_eq!(mc.mv_rebase_dest_branch, "dest");
    assert!(matches!(mc_post_commit(&mc), PostCommitRoute::MvSource));
}

#[test]
fn pending_force_pushes_set_the_force_flag() {
    let mut mc = McState::blank();
    let sources = strings(&["a", "b"]);
    record_pending_force_pushes(&mut mc, &sources, &vec![false, true], true);
    assert_eq!(mc.mv_pending_force_push_sources, strings(&["b:true"]));
    assert!(mc.mv_rebase_force);
    record_pending_force_pushes(&mut mc, &sources, &vec![true, true], false);
    assert!(mc.mv_pending_force_push_sources.is_empty());
    assert!(!mc.mv_rebase_force);
    record_pending_force_pushes(&mut mc, &sources, &vec![false, false], true);
    assert!(mc.mv_pending_force_push_sources.is_empty());
    assert!(!mc.mv_rebase_force);
}

#[test]
fn continued_picks_on_the_destination() {
    let base = dest_conflict_mc(McState::blank(), "dest", strings(&["b", "c"]), "src", strings(&["s"]), false, false);
    let remaining = strings(&["b", "c", "d"]);
    let mut mc = dest_conflict_mc(McState::blank(), "dest", strings(&["b", "c"]), "src", strings(&["s"]), false, false);
    match continue_pick_step(&mut mc, PostCommitRoute::MvDest, &remaining, 0, CherryPickOnMc::Applied) {
        ContinueStep::Next { assignment } => assert_eq!(assignment.as_deref(), Some("dest")),
        _ => panic!("expected the next pick"),
    }
    assert_eq!(mc.mv_rebase_remaining_dest, base.mv_rebase_remaining_dest);
    match continue_pick_step(&mut mc, PostCommitRoute::MvDest, &remaining, 1, CherryPickOnMc::Conflict) {
        ContinueStep::Stop { message } => assert_eq!(
            message,
            "Another conflict at c while finishing cherry-picks onto 'dest'. Run `prio status` for instructions."
        ),
        _ => panic!("expected a stop"),
    }
    assert_eq!(mc.mv_rebase_remaining_dest, strings(&["d"]));
    assert_eq!(mc.mv_rebase_phase, "dest");
    assert_eq!(mc.mv_rebase_source_shas_to_exclude, strings(&["s"]));
    match continue_pick_step(&mut mc, PostCommitRoute::MvCp, &remaining, 2, CherryPickOnMc::Failed) {
        ContinueStep::Fail { message } => {
            assert_eq!(message, "Cherry-pick of d onto 'dest' failed. Run `prio abort` to clean up.")
        }
        _ => panic!("expected a failure"),
    }
}

#[test]
fn continued_picks_in_source_and_replay_phases() {
    let remaining = strings(&["x", "y"]);
    let mut mc = source_conflict_mc(McState::blank(), "src", "dest", strings(&["x", "y"]), false, false);
    match continue_pick_step(&mut mc, PostCommitRoute::MvSource, &remaining, 0, CherryPickOnMc::SkippedEmpty) {
        ContinueStep::Next { assignment } => assert!(assignment.is_none()),
        _ => panic!("expected the next pick"),
    }
    match continue_pick_step(&mut mc, PostCommitRoute::MvSource, &remaining, 0, CherryPickOnMc::Conflict) {
        ContinueStep::Stop { message } => {
            assert_eq!(message, "Another conflict at x rebasing 'src'. Run `prio status` for instructions.")
        }
        _ => panic!("expected a stop"),
    }
    assert_eq!(mc.mv_rebase_remaining_commits, strings(&["y"]));
    let mut pick = unassign_pick_conflict_mc("main", strings(&["y"]), "head", Vec::new(), strings(&["x", "y"]), false);
    match continue_pick_step(&mut pick, PostCommitRoute::UnassignPick, &remaining, 1, CherryPickOnMc::Applied) {
        ContinueStep::Next { assignment } => assert_eq!(assignment.as_deref(), Some(".")),
        _ => panic!("expected the next pick"),
    }
    match continue_pick_step(&mut pick, PostCommitRoute::UnassignPick, &remaining, 1, CherryPickOnMc::Conflict) {
        ContinueStep::Stop { message } => assert_eq!(
            message,
            "Another conflict at y while replaying unassigned commits. Run `prio status` for instructions."
        ),
        _ => panic!("expected a stop"),
    }
    assert!(pick.mv_rebase_remaining_commits.is_empty());
    match continue_pick_step(&mut pick, PostCommitRoute::UnassignSource, &remaining, 0, CherryPickOnMc::Failed) {
        ContinueStep::Fail { message } => assert_eq!(message, "Cherry-pick of x failed. Run `prio abort` to clean up."),
        _ => panic!("expected a failure"),
    }
}

#[test]
fn unassign_merge_conflict_keeps_the_merge_record() {
    let mut done = McState::blank();
    done.merge_in_progress = true;
    done.pending_merge_branches = strings(&["a", "b"]);
    done.pending_merge_index = 1;
    done.merge_branch = "prio-mc/a+b".into();
    let mc = unassign_merge_conflict_mc(done, strings(&["s1"]), strings(&["a:true"]), true);
    assert!(mc.merge_in_progress);
    assert_eq!(mc.pending_merge_branches, strings(&["a", "b"]));
    assert_eq!(mc.pending_merge_index, 1);
    assert_eq!(mc.merge_branch, "prio-mc/a+b");
    assert_eq!(mc.mv_rebase_unassign_commits, strings(&["s1"]));
    assert_eq!(mc.mv_rebase_unassign_all_sources, strings(&["a:true"]));
    assert!(mc.mv_rebase_force);
    assert!(matches!(mc_post_commit(&mc), PostCommitRoute::UnassignPicksAfterMerge));
    let mut src = source_conflict_mc(McState::blank(), "src", "dest", Vec::new(), true, true);
    record_source_remaining(&mut src, strings(&["p", "q"]));
    assert_eq!(src.mv_rebase_remaining_commits, strings(&["p", "q"]));
    assert_eq!(src.mv_rebase_source_branch, "src");
}

#[test]
fn work_area_moves_are_planned() {
    assert!(matches!(work_area_plan(false, true), WorkAreaPlan::Tag));
    assert!(matches!(work_area_plan(true, true), WorkAreaPlan::Unassign));
    assert!(matches!(work_area_plan(true, false), WorkAreaPlan::Unassign));
    assert!(matches!(work_area_plan(false, false), WorkAreaPlan::CherryPick));
    assert!(matches!(after_work_picks(0, 2, true), AfterWorkPicks::Reapply));
    assert!(matches!(after_work_picks(0, 0, true), AfterWorkPicks::PushDestination));
    assert!(matches!(after_work_picks(3, 2, true), AfterWorkPicks::PushDestination));
    assert!(matches!(after_work_picks(3, 2, false), AfterWorkPicks::FetchDestination));
}

#[test]
fn cross_move_bookkeeping_helpers() {
    let shas = strings(&["a", "b", "c"]);
    assert_eq!(picks_after(&shas, 0), strings(&["b", "c"]));
    assert!(picks_after(&shas, 2).is_empty());
    assert_eq!(sources_from(&shas, 1), strings(&["b", "c"]));
    assert!(sources_from(&shas, 3).is_empty());
    assert_eq!(first_source(&strings(&["s1", "s2"])), "s1");
    assert_eq!(first_source(&Vec::new()), "");
    assert_eq!(flat_source_shas(&vec![strings(&["a", "b"]), Vec::new(), strings(&["c"])]), shas);
    let encoded = encode_sources(&strings(&["x", "y:z"]), &vec![true, false]);
    assert_eq!(encoded, strings(&["x:true", "y:z:false"]));
    assert_eq!(queued_after_current(&encoded), vec![("y:z".to_string(), false)]);
    assert!(queued_after_current(&strings(&["x:true"])).is_empty());
    assert!(queued_after_current(&Vec::new()).is_empty());
    assert!(matches!(destination_sync(true, true), DestinationSync::Nothing));
    assert!(matches!(destination_sync(false, true), DestinationSync::Push));
    assert!(matches!(destination_sync(false, false), DestinationSync::Fetch));
    assert_eq!(sources_to_force_push(&strings(&["p", "q"]), &vec![true, false], true), strings(&["p"]));
    assert!(sources_to_force_push(&strings(&["p"]), &vec![true], false).is_empty());
}
