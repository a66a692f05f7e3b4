//! Paths as text, and the clock.
use std::time::{Duration, SystemTime, UNIX_EPOCH};
use vstd::prelude::*;
use vstd::string::StringExecFns;
use crate::strings::{chars_of, concat2, has_prefix, owned, string_of_range, strip_prefix};

verus! {

#[verifier::external_type_specification]
#[verifier::external_body]
pub struct ExSystemTime(SystemTime);

/// `SystemTime::now`: the clock's reading. Nothing is claimed of it.
#[verifier::external_body]
fn clock_now() -> SystemTime {
    SystemTime::now()
}

/// `SystemTime::duration_since(UNIX_EPOCH)`: the time since the epoch, `None` where
/// std reports an error (a clock reading earlier than the epoch). Nothing is claimed
/// of the duration.
#[verifier::external_body]
fn since_epoch(t: &SystemTime) -> Option<Duration> {
    match t.duration_since(UNIX_EPOCH) {
        Ok(d) => Some(d),
        Err(_) => None,
    }
}

/// `Duration::as_millis`: the whole milliseconds of `d`. Nothing is claimed of them.
#[verifier::external_body]
fn duration_millis(d: &Duration) -> u128 {
    d.as_millis()
}

/// Milliseconds since the Unix epoch, cut to 64 bits, or 0 when the clock reads
/// earlier than the epoch. Nothing is claimed of the value: it is the time.
pub fn now_ms() -> u64 {
    let t = clock_now();
    match since_epoch(&t) {
        Some(d) => {
            let ms = duration_millis(&d);
            #[verifier::truncate]
            (ms as u64)
        },
        None => 0,
    }
}

/// A path separator: `/`, or `\` as Windows also writes it.
pub open spec fn is_sep(c: char) -> bool {
    c == '/' || c == '\\'
}

/// `base` joined with a relative `segment`, with `/` added unless `base` is empty
/// or already ends in a separator.
pub open spec fn path_join(base: Seq<char>, segment: Seq<char>) -> Seq<char> {
    if base.len() == 0 {
        segment
    } else if is_sep(base.last()) {
        base + segment
    } else {
        base + seq!['/'] + segment
    }
}

/// Joins a relative segment onto a path.
pub fn join_path(base: &str, segment: &str) -> (r: String)
    ensures
        r@ == path_join(base@, segment@),
{
    let v = chars_of(base);
    let mut r = String::from_str(base);
    if v.len() > 0 && (v[v.len() - 1] == '/' || v[v.len() - 1] == '\\') {
        r.append(segment);
    } else if v.len() > 0 {
        r.push('/');
        r.append(segment);
    } else {
        r = String::from_str(segment);
    }
    r
}

/// `\\?\UNC\server\share` becomes `\\server\share`; `\\?\C:\x` becomes `C:\x`;
/// any other path is unchanged.
pub open spec fn strip_verbatim_spec(p: Seq<char>) -> Seq<char> {
    if has_prefix(p, "\\\\?\\UNC\\"@) {
        "\\\\"@ + p.subrange(8, p.len() as int)
    } else if has_prefix(p, "\\\\?\\"@) {
        p.subrange(4, p.len() as int)
    } else {
        p
    }
}

/// Removes the Windows verbatim prefix that `canonicalize` adds, so that Git and
/// other command-line tools accept the path.
pub fn strip_verbatim_prefix(path: &str) -> (r: String)
    ensures
        r@ == strip_verbatim_spec(path@),
{
    proof {
        reveal_strlit("\\\\?\\UNC\\");
        reveal_strlit("\\\\?\\");
        reveal_strlit("\\\\");
    }
    match strip_prefix(path, "\\\\?\\UNC\\") {
        Some(rest) => concat2("\\\\", rest.as_str()),
        None => match strip_prefix(path, "\\\\?\\") {
            Some(rest) => rest,
            None => owned(path),
        },
    }
}

/// A path as passed to Git on the command line (no verbatim prefix).
pub fn path_arg(path: &str) -> (r: String)
    ensures
        r@ == strip_verbatim_spec(path@),
{
    strip_verbatim_prefix(path)
}

/// `p` without its trailing separators.
pub open spec fn trim_seps(p: Seq<char>) -> Seq<char>
    decreases p.len(),
{
    if p.len() > 0 && is_sep(p.last()) {
        trim_seps(p.drop_last())
    } else {
        p
    }
}

/// Index of the last separator in `p`, or -1.
pub open spec fn last_sep(p: Seq<char>) -> int
    decreases p.len(),
{
    if p.len() == 0 {
        -1
    } else if is_sep(p.last()) {
        p.len() - 1
    } else {
        last_sep(p.drop_last())
    }
}

/// The directory part of a path, separator included (empty for a bare name).
pub open spec fn dir_part(p: Seq<char>) -> Seq<char> {
    let t = trim_seps(p);
    t.subrange(0, last_sep(t) + 1)
}

/// The last component of a path (`Path::file_name`); empty when there is none.
pub open spec fn name_part(p: Seq<char>) -> Seq<char> {
    let t = trim_seps(p);
    t.subrange(last_sep(t) + 1, t.len() as int)
}


/// `last_sep` is -1 or an index of `p`.
pub proof fn lemma_last_sep_bounds(p: Seq<char>)
    ensures
        -1 <= last_sep(p) < p.len(),
    decreases p.len(),
{
    if p.len() > 0 {
        lemma_last_sep_bounds(p.drop_last());
    }
}

/// A path is its directory part followed by its last component (trailing
/// separators aside).
pub proof fn lemma_dir_name(p: Seq<char>)
    ensures
        trim_seps(p) == dir_part(p) + name_part(p),
{
    lemma_last_sep_bounds(trim_seps(p));
    assert(trim_seps(p) =~= dir_part(p) + name_part(p));
}

proof fn lemma_last_sep(p: Seq<char>, i: int)
    requires
        -1 <= i < p.len(),
        forall|j: int| i < j < p.len() ==> !is_sep(#[trigger] p[j]),
        i == -1 || is_sep(p[i]),
    ensures
        last_sep(p) == i,
    decreases p.len(),
{
    if p.len() > 0 && i < p.len() - 1 {
        let t = p.drop_last();
        assert forall|j: int| i < j < t.len() implies !is_sep(#[trigger] t[j]) by {
            assert(t[j] == p[j]);
        }
        if i >= 0 {
            assert(t[i] == p[i]);
        }
        lemma_last_sep(t, i);
    }
}

proof fn lemma_trim_seps(p: Seq<char>, k: int)
    requires
        0 <= k <= p.len(),
        forall|j: int| k <= j < p.len() ==> is_sep(#[trigger] p[j]),
        k == 0 || !is_sep(p[k - 1]),
    ensures
        trim_seps(p) == p.subrange(0, k),
    decreases p.len(),
{
    if p.len() > k {
        let t = p.drop_last();
        assert forall|j: int| k <= j < t.len() implies is_sep(#[trigger] t[j]) by {
            assert(t[j] == p[j]);
        }
        if k > 0 {
            assert(t[k - 1] == p[k - 1]);
        }
        lemma_trim_seps(t, k);
        assert(t.subrange(0, k) =~= p.subrange(0, k));
    } else {
        assert(p.subrange(0, k) =~= p);
        if k > 0 {
            assert(p.last() == p[k - 1]);
        }
    }
}

/// Splits a path into its directory part (with the separator) and its last component.
pub fn split_path(p: &str) -> (r: (String, String))
    ensures
        r.0@ == dir_part(p@),
        r.1@ == name_part(p@),
{
    let v = chars_of(p);
    let mut k: usize = v.len();
    while k > 0 && (v[k - 1] == '/' || v[k - 1] == '\\')
        invariant
            k <= v.len(),
            forall|j: int| k <= j < v.len() ==> is_sep(#[trigger] v@[j]),
        decreases k,
    {
        k = k - 1;
    }
    proof {
        lemma_trim_seps(v@, k as int);
    }
    let ghost t = v@.subrange(0, k as int);
    let mut i: usize = k;
    while i > 0 && !(v[i - 1] == '/' || v[i - 1] == '\\')
        invariant
            i <= k <= v.len(),
            forall|j: int| i <= j < k ==> !is_sep(#[trigger] v@[j]),
        decreases i,
    {
        i = i - 1;
    }
    proof {
        assert forall|j: int| i <= j < t.len() implies !is_sep(#[trigger] t[j]) by {
            assert(t[j] == v@[j]);
        }
        if i > 0 {
            assert(t[i - 1] == v@[i - 1]);
        }
        lemma_last_sep(t, i - 1);
        assert(t.subrange(0, i as int) =~= v@.subrange(0, i as int));
        assert(t.subrange(i as int, t.len() as int) =~= v@.subrange(i as int, k as int));
    }
    (string_of_range(&v, 0, i), string_of_range(&v, i, k))
}

} // verus!
