//! `prio unsetup`: the names and decisions of tearing prio down for a repository.
use vstd::prelude::*;
use vstd::string::StringExecFns;
use crate::strings::{concat2, concat3, decimal, decimal_string, str_eq, trim_spec, trimmed_is, trimmed_is_empty};
use crate::util::{dir_part, join_path, path_join, split_path, trim_seps};

verus! {

/// The branch the work branch is renamed to.
pub fn backup_branch_name(ts: u64) -> (r: String)
    ensures
        r@ == "prio/backup/"@ + decimal(ts as nat),
{
    let d = decimal_string(ts);
    concat2("prio/backup/", d.as_str())
}

/// The message of a finished unsetup.
pub fn unsetup_message(ts: u64) -> (r: String)
    ensures
        r@ == "Prio unsetup complete. Work branch renamed to "@ + "prio/backup/"@ + decimal(ts as nat)
            + "; data archived under .git/prio/backup-"@ + decimal(ts as nat),
{
    let b = backup_branch_name(ts);
    let d = decimal_string(ts);
    let mut m = concat3("Prio unsetup complete. Work branch renamed to ", b.as_str(), "; data archived under .git/prio/backup-");
    m.append(d.as_str());
    m
}

/// Whether the work branch tracks `origin`, from `git config --get branch.<b>.remote`.
pub fn tracks_origin(remote: &str) -> (r: bool)
    ensures
        r == (trim_spec(remote@) == "origin"@),
{
    trimmed_is(remote, "origin")
}

/// Whether `git ls-remote --heads origin refs/heads/<b>` found the branch at origin.
pub fn exists_at_origin(ls_remote: &str) -> (r: bool)
    ensures
        r == (trim_spec(ls_remote@).len() > 0),
{
    !trimmed_is_empty(ls_remote)
}

/// The name of the directory the prio data is archived into.
pub fn archive_dir_name(ts: u64) -> (r: String)
    ensures
        r@ == "backup-"@ + decimal(ts as nat),
{
    let d = decimal_string(ts);
    concat2("backup-", d.as_str())
}

/// Whether an entry of `.git/prio` stays where it is when archiving: the archive
/// itself and the lock file.
pub fn archive_skips(name: &str, archive_dir: &str) -> (r: bool)
    ensures
        r == (name@ == archive_dir@ || name@ == "prio.lock"@),
{
    str_eq(name, archive_dir) || str_eq(name, "prio.lock")
}

/// Where the prio-mc clone is moved: `prio-mc-backup-<ts>` beside it (`.` when the
/// path has no parent).
pub open spec fn mc_backup_spec(mc_path: Seq<char>, ts: u64) -> Seq<char> {
    let parent = if trim_seps(mc_path).len() == 0 {
        "."@
    } else {
        dir_part(mc_path)
    };
    path_join(parent, "prio-mc-backup-"@ + decimal(ts as nat))
}

pub fn mc_backup_path(mc_path: &str, ts: u64) -> (r: String)
    ensures
        r@ == mc_backup_spec(mc_path@, ts),
{
    let (dir, name) = split_path(mc_path);
    proof {
        crate::util::lemma_dir_name(mc_path@);
    }
    let d = decimal_string(ts);
    let seg = concat2("prio-mc-backup-", d.as_str());
    if dir.as_str().unicode_len() == 0 && name.as_str().unicode_len() == 0 {
        join_path(".", seg.as_str())
    } else {
        join_path(dir.as_str(), seg.as_str())
    }
}

} // verus!
