//! Where prio keeps its data, and what that data is.
pub mod repo_state;
pub mod str_map;
pub mod user_config;

use vstd::prelude::*;
use crate::util::{join_path, path_join};

verus! {

/// `<repo>/.git/prio`.
pub open spec fn prio_dir_spec(repo: Seq<char>) -> Seq<char> {
    path_join(path_join(repo, ".git"@), "prio"@)
}

/// Prio metadata under the repository's `.git/prio`.
pub fn prio_dir(repo_path: &str) -> (r: String)
    ensures
        r@ == prio_dir_spec(repo_path@),
{
    let git = join_path(repo_path, ".git");
    join_path(git.as_str(), "prio")
}

/// The lock that serializes prio commands on one repository.
pub fn repo_lock_path(repo_path: &str) -> (r: String)
    ensures
        r@ == path_join(prio_dir_spec(repo_path@), "prio.lock"@),
{
    let d = prio_dir(repo_path);
    join_path(d.as_str(), "prio.lock")
}

/// The lock on the user configuration directory.
pub fn user_lock_path(user_config_dir: &str) -> (r: String)
    ensures
        r@ == path_join(user_config_dir@, "prio.lock"@),
{
    join_path(user_config_dir, "prio.lock")
}

} // verus!
