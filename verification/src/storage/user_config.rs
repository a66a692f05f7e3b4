//! The user's configuration and the list of repositories set up for prio.
use vstd::prelude::*;
use crate::strings::str_eq;
use crate::util::{join_path, path_join};

verus! {

pub struct UserConfig {
    pub work_branch_prefix: Option<String>,
}

pub struct UiState {
    pub tab_order: Vec<String>,
}

pub struct RepoRecord {
    pub id: String,
    pub path: String,
    pub origin_normalized: String,
    pub mc_clone_path: String,
    pub added_at: u64,
}

/// Two records hold the same text in every field.
pub open spec fn same_record(a: RepoRecord, b: RepoRecord) -> bool {
    &&& a.id@ == b.id@
    &&& a.path@ == b.path@
    &&& a.origin_normalized@ == b.origin_normalized@
    &&& a.mc_clone_path@ == b.mc_clone_path@
    &&& a.added_at == b.added_at
}

impl RepoRecord {
    pub fn copy(&self) -> (r: RepoRecord)
        ensures
            same_record(r, *self),
    {
        RepoRecord {
            id: self.id.clone(),
            path: self.path.clone(),
            origin_normalized: self.origin_normalized.clone(),
            mc_clone_path: self.mc_clone_path.clone(),
            added_at: self.added_at,
        }
    }
}

pub fn config_path(user_config_dir: &str) -> (r: String)
    ensures
        r@ == path_join(user_config_dir@, "config.json"@),
{
    join_path(user_config_dir, "config.json")
}

pub fn ui_state_path(user_config_dir: &str) -> (r: String)
    ensures
        r@ == path_join(user_config_dir@, "ui-state.json"@),
{
    join_path(user_config_dir, "ui-state.json")
}

pub fn repos_path(user_config_dir: &str) -> (r: String)
    ensures
        r@ == path_join(user_config_dir@, "repos.json"@),
{
    join_path(user_config_dir, "repos.json")
}

/// `i` is the first record whose origin is `origin`.
pub open spec fn first_with_origin(s: Seq<RepoRecord>, origin: Seq<char>, i: int) -> bool {
    &&& 0 <= i < s.len()
    &&& s[i].origin_normalized@ == origin
    &&& forall|j: int| 0 <= j < i ==> s[j].origin_normalized@ != origin
}

/// `i` is the first record whose path is `path`.
pub open spec fn first_with_path(s: Seq<RepoRecord>, path: Seq<char>, i: int) -> bool {
    &&& 0 <= i < s.len()
    &&& s[i].path@ == path
    &&& forall|j: int| 0 <= j < i ==> s[j].path@ != path
}

/// `i` is the first record whose id is `id`.
pub open spec fn first_with_id(s: Seq<RepoRecord>, id: Seq<char>, i: int) -> bool {
    &&& 0 <= i < s.len()
    &&& s[i].id@ == id
    &&& forall|j: int| 0 <= j < i ==> s[j].id@ != id
}

/// The first registered repository with this normalized origin.
pub fn find_repo_by_origin(repos: &Vec<RepoRecord>, origin: &str) -> (r: Option<RepoRecord>)
    ensures
        match r {
            None => forall|j: int| 0 <= j < repos@.len() ==> repos@[j].origin_normalized@ != origin@,
            Some(rec) => exists|i: int| first_with_origin(repos@, origin@, i) && same_record(rec, repos@[i]),
        },
{
    let mut i: usize = 0;
    while i < repos.len()
        invariant
            i <= repos.len(),
            forall|j: int| 0 <= j < i ==> repos@[j].origin_normalized@ != origin@,
        decreases repos.len() - i,
    {
        if str_eq(repos[i].origin_normalized.as_str(), origin) {
            let rec = repos[i].copy();
            assert(first_with_origin(repos@, origin@, i as int));
            return Some(rec);
        }
        i = i + 1;
    }
    None
}

/// The first registered repository at this (absolute) path.
pub fn find_repo_by_path(repos: &Vec<RepoRecord>, abs_path: &str) -> (r: Option<RepoRecord>)
    ensures
        match r {
            None => forall|j: int| 0 <= j < repos@.len() ==> repos@[j].path@ != abs_path@,
            Some(rec) => exists|i: int| first_with_path(repos@, abs_path@, i) && same_record(rec, repos@[i]),
        },
{
    let mut i: usize = 0;
    while i < repos.len()
        invariant
            i <= repos.len(),
            forall|j: int| 0 <= j < i ==> repos@[j].path@ != abs_path@,
        decreases repos.len() - i,
    {
        if str_eq(repos[i].path.as_str(), abs_path) {
            let rec = repos[i].copy();
            assert(first_with_path(repos@, abs_path@, i as int));
            return Some(rec);
        }
        i = i + 1;
    }
    None
}

/// Replaces the first record with the same id, or appends the record.
pub fn upsert_repo(repos: &mut Vec<RepoRecord>, record: RepoRecord)
    ensures
        (exists|i: int| first_with_id(old(repos)@, record.id@, i) && final(repos)@ == old(repos)@.update(i, record))
        || ((forall|j: int| 0 <= j < old(repos)@.len() ==> old(repos)@[j].id@ != record.id@)
            && final(repos)@ == old(repos)@.push(record)),
{
    let mut i: usize = 0;
    while i < repos.len()
        invariant
            i <= repos.len(),
            repos@ == old(repos)@,
            forall|j: int| 0 <= j < i ==> repos@[j].id@ != record.id@,
        decreases repos.len() - i,
    {
        if str_eq(repos[i].id.as_str(), record.id.as_str()) {
            assert(first_with_id(old(repos)@, record.id@, i as int));
            repos.set(i, record);
            return;
        }
        i = i + 1;
    }
    repos.push(record);
}

/// The records whose path is not `path`, in order.
pub open spec fn without_path(s: Seq<RepoRecord>, path: Seq<char>) -> Seq<RepoRecord>
    decreases s.len(),
{
    if s.len() == 0 {
        Seq::empty()
    } else if s.last().path@ == path {
        without_path(s.drop_last(), path)
    } else {
        without_path(s.drop_last(), path).push(s.last())
    }
}

pub proof fn lemma_without_path(s: Seq<RepoRecord>, path: Seq<char>)
    ensures
        forall|j: int| 0 <= j < without_path(s, path).len() ==> #[trigger] without_path(s, path)[j].path@ != path,
        without_path(s, path).len() <= s.len(),
        without_path(s, path).len() == s.len() <==> forall|j: int| 0 <= j < s.len() ==> s[j].path@ != path,
    decreases s.len(),
{
    if s.len() > 0 {
        let t = s.drop_last();
        lemma_without_path(t, path);
        let w = without_path(t, path);
        if s.last().path@ != path {
            assert forall|j: int| 0 <= j < w.push(s.last()).len() implies #[trigger] w.push(s.last())[j].path@ != path by {
                if j < w.len() {
                    assert(w.push(s.last())[j] == w[j]);
                }
            }
        }
        if forall|j: int| 0 <= j < s.len() ==> s[j].path@ != path {
            assert forall|j: int| 0 <= j < t.len() implies t[j].path@ != path by {
                assert(t[j] == s[j]);
            }
        }
        if without_path(s, path).len() == s.len() {
            assert forall|j: int| 0 <= j < s.len() implies s[j].path@ != path by {
                if j < t.len() {
                    assert(t[j] == s[j]);
                } else {
                    assert(s[j] == s.last());
                }
            }
        }
    }
}

/// Drops every record at this path; says whether any was dropped.
pub fn remove_repo_by_path(repos: &mut Vec<RepoRecord>, abs_path: &str) -> (changed: bool)
    ensures
        final(repos)@ == without_path(old(repos)@, abs_path@),
        changed == (final(repos)@.len() < old(repos)@.len()),
{
    let mut kept: Vec<RepoRecord> = Vec::new();
    let n = repos.len();
    let mut i: usize = 0;
    while i < n
        invariant
            i <= n,
            n == repos@.len(),
            repos@ == old(repos)@,
            kept@ == without_path(old(repos)@.take(i as int), abs_path@),
        decreases n - i,
    {
        proof {
            assert(old(repos)@.take(i + 1).drop_last() =~= old(repos)@.take(i as int));
        }
        if !str_eq(repos[i].path.as_str(), abs_path) {
            kept.push(repos[i].copy_exact());
        }
        i = i + 1;
    }
    proof {
        assert(old(repos)@.take(n as int) =~= old(repos)@);
        lemma_without_path(old(repos)@, abs_path@);
    }
    let changed = kept.len() < n;
    *repos = kept;
    changed
}

impl RepoRecord {
    /// An exact copy.
    pub fn copy_exact(&self) -> (r: RepoRecord)
        ensures
            r == *self,
    {
        RepoRecord {
            id: self.id.clone(),
            path: self.path.clone(),
            origin_normalized: self.origin_normalized.clone(),
            mc_clone_path: self.mc_clone_path.clone(),
            added_at: self.added_at,
        }
    }
}

} // verus!
