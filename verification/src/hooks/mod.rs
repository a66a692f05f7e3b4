//! The post-commit hooks prio installs in the work clone and in prio-mc.
use vstd::prelude::*;
use vstd::string::{StrSliceExecFns, StringExecFns};
use crate::strings::{
    concat2, contains_str, ends_with, has_substring, has_suffix, lines, lines_spec, replace_char,
    replace_char_spec, str_eq, trim, trim_spec, trimmed_is_empty, views,
};

verus! {

/// Which clone a hook is for.
#[derive(PartialEq, Eq, Structural, Clone, Copy)]
pub enum HookTarget {
    WorkClone,
    McClone,
}

/// The post-commit hook script for a clone.
pub open spec fn hook_script_text(target: HookTarget) -> Seq<char> {
    match target {
        HookTarget::WorkClone => "#!/bin/sh\n# prio work-clone post-commit hook\nif [ -n \"$PRIO_AUTOMATED\" ]; then exit 0; fi\nif command -v prio >/dev/null 2>&1; then\n  prio _internal-work-post-commit\nelif [ -f \".git/prio/hooks/post-commit\" ]; then\n  :\nfi\n"@,
        HookTarget::McClone => "#!/bin/sh\n# prio mc-clone post-commit hook\nif [ -n \"$PRIO_AUTOMATED\" ]; then exit 0; fi\nif command -v prio >/dev/null 2>&1; then\n  prio _internal-mc-post-commit\nfi\n"@,
    }
}

pub fn hook_script(target: HookTarget) -> (r: String)
    ensures
        r@ == hook_script_text(target),
{
    match target {
        HookTarget::WorkClone => String::from_str(
            "#!/bin/sh\n# prio work-clone post-commit hook\nif [ -n \"$PRIO_AUTOMATED\" ]; then exit 0; fi\nif command -v prio >/dev/null 2>&1; then\n  prio _internal-work-post-commit\nelif [ -f \".git/prio/hooks/post-commit\" ]; then\n  :\nfi\n",
        ),
        HookTarget::McClone => String::from_str(
            "#!/bin/sh\n# prio mc-clone post-commit hook\nif [ -n \"$PRIO_AUTOMATED\" ]; then exit 0; fi\nif command -v prio >/dev/null 2>&1; then\n  prio _internal-mc-post-commit\nfi\n",
        ),
    }
}

/// Whether a `.gitignore` (its content, none when absent) lists `pattern` or
/// `pattern/` on a line of its own.
pub open spec fn gitignored_spec(content: Option<Seq<char>>, pattern: Seq<char>) -> bool {
    match content {
        None => false,
        Some(c) => exists|i: int| 0 <= i < lines_spec(c).len() && #[trigger] names_pattern(lines_spec(c)[i], pattern),
    }
}

/// A `.gitignore` line names `pattern` (or `pattern/`).
pub open spec fn names_pattern(line: Seq<char>, pattern: Seq<char>) -> bool {
    trim_spec(line) == pattern || trim_spec(line) == pattern + "/"@
}

fn names_pattern_in(c: &str, pattern: &str) -> (r: bool)
    ensures
        r == exists|i: int| 0 <= i < lines_spec(c@).len() && #[trigger] names_pattern(lines_spec(c@)[i], pattern@),
{
    let ls = lines(c);
    let with_slash = concat2(pattern, "/");
    let mut i: usize = 0;
    while i < ls.len()
        invariant
            i <= ls.len(),
            views(ls@) == lines_spec(c@),
            with_slash@ == pattern@ + "/"@,
            forall|j: int| 0 <= j < i ==> !#[trigger] names_pattern(lines_spec(c@)[j], pattern@),
        decreases ls.len() - i,
    {
        let t = trim(ls[i].as_str());
        assert(lines_spec(c@)[i as int] == ls@[i as int]@);
        if str_eq(t.as_str(), pattern) || str_eq(t.as_str(), with_slash.as_str()) {
            assert(names_pattern(lines_spec(c@)[i as int], pattern@));
            return true;
        }
        i = i + 1;
    }
    false
}

pub fn is_gitignored(content: Option<String>, pattern: &str) -> (r: bool)
    ensures
        r == gitignored_spec(match content {
            None => None,
            Some(c) => Some(c@),
        }, pattern@),
{
    match content {
        None => false,
        Some(c) => names_pattern_in(c.as_str(), pattern),
    }
}

/// The new content of a hook file that must call prio's hook: unchanged (none) when
/// it already mentions the line, else the line appended on a line of its own.
pub open spec fn append_spec(existing: Seq<char>, line: Seq<char>) -> Option<Seq<char>> {
    if has_substring(existing, trim_spec(line)) {
        None
    } else {
        Some(
            existing + (if existing.len() > 0 && !has_suffix(existing, "\n"@) {
                "\n"@
            } else {
                Seq::<char>::empty()
            }) + line,
        )
    }
}

pub fn append_if_absent(existing: &str, line: &str) -> (r: Option<String>)
    ensures
        match r {
            None => append_spec(existing@, line@) is None,
            Some(c) => append_spec(existing@, line@) == Some(c@),
        },
{
    let t = trim(line);
    if contains_str(existing, t.as_str()) {
        return None;
    }
    let mut content = String::from_str(existing);
    if !ends_with(existing, "\n") && existing.unicode_len() > 0 {
        content.append("\n");
    }
    content.append(line);
    Some(content)
}

/// How `core.hooksPath` is set when installing.
pub enum HooksPathPlan {
    /// Set it to this value.
    SetTo(String),
    /// Warn that the configured path may keep prio's hook from running.
    Warn(String),
    /// Leave it as it is.
    Keep,
}

/// Decides `core.hooksPath` at install from its current value: with a gitignored
/// `.husky`, it is set to `.husky` when unset; otherwise it is set to prio's hook
/// directory when unset, and a warning names any other value that is not husky's.
pub fn install_hooks_path(husky_gitignored: bool, current: &str) -> (r: HooksPathPlan)
    ensures
        husky_gitignored && trim_spec(current@).len() == 0 ==> (r matches HooksPathPlan::SetTo(v) && v@ == ".husky"@),
        husky_gitignored && trim_spec(current@).len() > 0 ==> r is Keep,
        !husky_gitignored && trim_spec(current@).len() == 0 ==> (r matches HooksPathPlan::SetTo(v) && v@ == ".git/prio/hooks"@),
        !husky_gitignored && trim_spec(current@).len() > 0 ==> if trim_spec(current@) != ".git/prio/hooks"@ && !has_substring(current@, ".husky"@) {
            r matches HooksPathPlan::Warn(m) && m@ == "core.hooksPath is set to '"@ + trim_spec(current@)
                + "' \u{2014} prio hook may not run automatically"@
        } else {
            r is Keep
        },
{
    let t = trim(current);
    let empty = t.as_str().unicode_len() == 0;
    if husky_gitignored {
        if empty {
            return HooksPathPlan::SetTo(String::from_str(".husky"));
        }
        return HooksPathPlan::Keep;
    }
    if empty {
        return HooksPathPlan::SetTo(String::from_str(".git/prio/hooks"));
    }
    if !str_eq(t.as_str(), ".git/prio/hooks") && !contains_str(current, ".husky") {
        let mut m = concat2("core.hooksPath is set to '", t.as_str());
        m.append("' \u{2014} prio hook may not run automatically");
        return HooksPathPlan::Warn(m);
    }
    HooksPathPlan::Keep
}

/// Whether `core.hooksPath` was set by prio: `.git/prio/hooks` or `.git/prio`, alone
/// or at the end of a path (backslashes read as slashes, after trimming).
pub open spec fn is_prio_hooks_spec(current: Seq<char>) -> bool {
    let t = replace_char_spec(trim_spec(current), '\\', "/"@);
    t == ".git/prio/hooks"@ || t == ".git/prio"@ || has_suffix(t, "/.git/prio/hooks"@) || has_suffix(t, "/.git/prio"@)
}

/// Whether unsetup unsets `core.hooksPath`, given its current value: only when prio
/// configured it.
pub fn uninstall(current: &str) -> (r: bool)
    ensures
        r == is_prio_hooks_spec(current@),
{
    let t = trim(current);
    let s = replace_char(t.as_str(), '\\', "/");
    str_eq(s.as_str(), ".git/prio/hooks") || str_eq(s.as_str(), ".git/prio") || ends_with(s.as_str(), "/.git/prio/hooks")
        || ends_with(s.as_str(), "/.git/prio")
}

/// Whether a clone's hook must be written again: its script (none when the file
/// is missing) is not prio's.
pub fn needs_reinstall(current: Option<String>, target: HookTarget) -> (r: bool)
    ensures
        r == !(current matches Some(c) && c@ == hook_script_text(target)),
{
    match current {
        None => true,
        Some(c) => {
            let expected = hook_script(target);
            !str_eq(c.as_str(), expected.as_str())
        },
    }
}

} // verus!
