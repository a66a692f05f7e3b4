use prio::storage::repo_state::{config_path, last_good_path, state_path, McState};
use prio::storage::str_map::StrMap;
use prio::storage::user_config::{
    find_repo_by_origin, find_repo_by_path, remove_repo_by_path, upsert_repo, RepoRecord,
};
use prio::storage::{prio_dir, repo_lock_path, user_lock_path};
use prio::util::{join_path, path_arg, split_path, strip_verbatim_prefix};

fn record(id: &str, path: &str, origin: &str) -> RepoRecord {
    RepoRecord {
        id: id.to_string(),
        path: path.to_string(),
        origin_normalized: origin.to_string(),
        mc_clone_path: format!("{path}-prio-mc"),
        added_at: 7,
    }
}

#[test]
fn joining_paths() {
    assert_eq!(join_path("/a/b", "c"), "/a/b/c");
    assert_eq!(join_path("/a/b/", "c"), "/a/b/c");
    assert_eq!(join_path("C:\\x\\", "c"), "C:\\x\\c");
    assert_eq!(join_path("", "c"), "c");
}

#[test]
fn prio_locations() {
    assert_eq!(prio_dir("/r"), "/r/.git/prio");
    assert_eq!(repo_lock_path("/r"), "/r/.git/prio/prio.lock");
    assert_eq!(user_lock_path("/home/u/.config/prio"), "/home/u/.config/prio/prio.lock");
    assert_eq!(config_path("/r"), "/r/.git/prio/config.json");
    assert_eq!(state_path("/r/"), "/r/.git/prio/state.json");
    assert_eq!(last_good_path("/r"), "/r/.git/prio/last_good_state.json");
}

#[test]
fn verbatim_prefixes() {
    assert_eq!(strip_verbatim_prefix("\\\\?\\C:\\repo"), "C:\\repo");
    assert_eq!(strip_verbatim_prefix("\\\\?\\UNC\\server\\share"), "\\\\server\\share");
    assert_eq!(strip_verbatim_prefix("/plain/path"), "/plain/path");
    assert_eq!(path_arg("\\\\?\\D:\\x"), "D:\\x");
}

#[test]
fn splitting_paths() {
    let (d, n) = split_path("/home/u/repo/");
    assert_eq!(d, "/home/u/");
    assert_eq!(n, "repo");
    let (d, n) = split_path("repo");
    assert_eq!(d, "");
    assert_eq!(n, "repo");
}

#[test]
fn string_map_keeps_last_value() {
    let mut m: StrMap<String> = StrMap::new();
    m.insert("a".to_string(), "1".to_string());
    m.insert("b".to_string(), "2".to_string());
    m.insert("a".to_string(), "3".to_string());
    assert_eq!(m.get("a"), Some(&"3".to_string()));
    assert!(m.contains_key("b"));
    m.remove("b");
    assert!(!m.contains_key("b"));
    assert_eq!(m.get("b"), None);
    let keys = m.keys();
    assert_eq!(keys, vec!["a".to_string()]);
    let pairs = m.to_pairs();
    assert_eq!(pairs, vec![("a".to_string(), "3".to_string())]);
    let back: StrMap<String> = StrMap::from_pairs(vec![
        ("x".to_string(), "1".to_string()),
        ("x".to_string(), "2".to_string()),
    ]);
    assert_eq!(back.get("x"), Some(&"2".to_string()));
}

#[test]
fn registered_repositories() {
    let mut repos = vec![record("1", "/a", "github.com/o/a"), record("2", "/b", "github.com/o/b")];
    assert_eq!(find_repo_by_path(&repos, "/b").unwrap().id, "2");
    assert!(find_repo_by_path(&repos, "/c").is_none());
    assert_eq!(find_repo_by_origin(&repos, "github.com/o/a").unwrap().path, "/a");
    upsert_repo(&mut repos, record("2", "/b2", "github.com/o/b"));
    assert_eq!(repos.len(), 2);
    assert_eq!(repos[1].path, "/b2");
    upsert_repo(&mut repos, record("3", "/c", "github.com/o/c"));
    assert_eq!(repos.len(), 3);
    assert!(remove_repo_by_path(&mut repos, "/a"));
    assert!(!remove_repo_by_path(&mut repos, "/a"));
    assert_eq!(repos.len(), 2);
    assert_eq!(repos[0].id, "2");
}

#[test]
fn blank_mc_state() {
    let m = McState::blank();
    assert!(!m.merge_in_progress);
    assert!(!m.mv_rebase_in_progress);
    assert!(m.pending_merge_branches.is_empty());
    assert_eq!(m.mv_rebase_phase, "");
}
