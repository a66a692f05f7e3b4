//! Text helpers over `Seq<char>`: trimming, prefixes, searching, splitting and
//! joining, each with the meaning of the corresponding `str` operation.
use vstd::prelude::*;
use vstd::string::StrSliceExecFns;
use vstd::string::StringExecFns;

verus! {

/// `String::push` appends one character.
pub assume_specification[ String::push ](s: &mut String, ch: char)
    ensures
        final(s)@ == old(s)@.push(ch),
;

/// The views of a sequence of strings.
pub open spec fn views(v: Seq<String>) -> Seq<Seq<char>> {
    v.map_values(|s: String| s@)
}

/// Unicode `White_Space`, the set `char::is_whitespace` (and so `str::trim`) uses.
pub open spec fn is_ws(c: char) -> bool {
    let n = c as u32;
    ||| 0x09 <= n <= 0x0D
    ||| n == 0x20
    ||| n == 0x85
    ||| n == 0xA0
    ||| n == 0x1680
    ||| 0x2000 <= n <= 0x200A
    ||| n == 0x2028
    ||| n == 0x2029
    ||| n == 0x202F
    ||| n == 0x205F
    ||| n == 0x3000
}

pub fn is_ws_char(c: char) -> (b: bool)
    ensures
        b == is_ws(c),
{
    let n = c as u32;
    (0x09 <= n && n <= 0x0D) || n == 0x20 || n == 0x85 || n == 0xA0 || n == 0x1680 || (0x2000
        <= n && n <= 0x200A) || n == 0x2028 || n == 0x2029 || n == 0x202F || n == 0x205F || n
        == 0x3000
}

/// `s` without its leading whitespace.
pub open spec fn trim_start_spec(s: Seq<char>) -> Seq<char>
    decreases s.len(),
{
    if s.len() > 0 && is_ws(s[0]) {
        trim_start_spec(s.drop_first())
    } else {
        s
    }
}

/// `s` without its trailing whitespace.
pub open spec fn trim_end_spec(s: Seq<char>) -> Seq<char>
    decreases s.len(),
{
    if s.len() > 0 && is_ws(s.last()) {
        trim_end_spec(s.drop_last())
    } else {
        s
    }
}

/// `str::trim`: leading and trailing whitespace removed.
pub open spec fn trim_spec(s: Seq<char>) -> Seq<char> {
    trim_end_spec(trim_start_spec(s))
}

/// The characters of `s`, in order.
pub fn chars_of(s: &str) -> (v: Vec<char>)
    ensures
        v@ == s@,
{
    let n = s.unicode_len();
    let mut v: Vec<char> = Vec::new();
    let mut i: usize = 0;
    while i < n
        invariant
            i <= n,
            n == s@.len(),
            v@ == s@.subrange(0, i as int),
        decreases n - i,
    {
        v.push(s.get_char(i));
        i = i + 1;
        assert(v@ =~= s@.subrange(0, i as int));
    }
    assert(v@ =~= s@);
    v
}

/// The string made of `v[lo..hi]`.
pub fn string_of_range(v: &Vec<char>, lo: usize, hi: usize) -> (s: String)
    requires
        lo <= hi <= v.len(),
    ensures
        s@ == v@.subrange(lo as int, hi as int),
{
    let mut s = String::new();
    let mut i: usize = lo;
    while i < hi
        invariant
            lo <= i <= hi,
            hi <= v.len(),
            s@ == v@.subrange(lo as int, i as int),
        decreases hi - i,
    {
        s.push(v[i]);
        i = i + 1;
        assert(s@ =~= v@.subrange(lo as int, i as int));
    }
    s
}

/// The string made of all of `v`.
pub fn string_of(v: &Vec<char>) -> (s: String)
    ensures
        s@ == v@,
{
    let s = string_of_range(v, 0, v.len());
    assert(v@.subrange(0, v@.len() as int) =~= v@);
    s
}

/// A copy of a string slice.
pub fn owned(s: &str) -> (r: String)
    ensures
        r@ == s@,
{
    String::from_str(s)
}

/// String equality by content.
pub fn str_eq(a: &str, b: &str) -> (r: bool)
    ensures
        r == (a@ == b@),
{
    let x = String::from_str(a);
    let y = String::from_str(b);
    x == y
}

/// The concatenation of two strings.
pub fn concat2(a: &str, b: &str) -> (r: String)
    ensures
        r@ == a@ + b@,
{
    let mut r = String::from_str(a);
    r.append(b);
    r
}

/// The concatenation of three strings.
pub fn concat3(a: &str, b: &str, c: &str) -> (r: String)
    ensures
        r@ == a@ + b@ + c@,
{
    let mut r = String::from_str(a);
    r.append(b);
    r.append(c);
    r
}

proof fn lemma_trim_start_skip(s: Seq<char>, i: int)
    requires
        0 <= i <= s.len(),
        forall|j: int| 0 <= j < i ==> is_ws(#[trigger] s[j]),
    ensures
        trim_start_spec(s) == trim_start_spec(s.subrange(i, s.len() as int)),
    decreases i,
{
    if i > 0 {
        assert(s.drop_first() =~= s.subrange(1, s.len() as int));
        let t = s.drop_first();
        assert forall|j: int| 0 <= j < i - 1 implies is_ws(#[trigger] t[j]) by {
            assert(t[j] == s[j + 1]);
        }
        lemma_trim_start_skip(t, i - 1);
        assert(t.subrange(i - 1, t.len() as int) =~= s.subrange(i, s.len() as int));
    } else {
        assert(s.subrange(0, s.len() as int) =~= s);
    }
}

proof fn lemma_trim_end_skip(s: Seq<char>, j: int)
    requires
        0 <= j <= s.len(),
        forall|k: int| j <= k < s.len() ==> is_ws(#[trigger] s[k]),
    ensures
        trim_end_spec(s) == trim_end_spec(s.subrange(0, j)),
    decreases s.len() - j,
{
    if j < s.len() {
        let t = s.drop_last();
        assert forall|k: int| j <= k < t.len() implies is_ws(#[trigger] t[k]) by {
            assert(t[k] == s[k]);
        }
        lemma_trim_end_skip(t, j);
        assert(t.subrange(0, j) =~= s.subrange(0, j));
    } else {
        assert(s.subrange(0, j) =~= s);
    }
}

/// `str::trim`.
pub fn trim(s: &str) -> (r: String)
    ensures
        r@ == trim_spec(s@),
{
    let v = chars_of(s);
    let n = v.len();
    let mut i: usize = 0;
    while i < n && is_ws_char(v[i])
        invariant
            i <= n,
            n == v@.len(),
            forall|j: int| 0 <= j < i ==> is_ws(#[trigger] v@[j]),
        decreases n - i,
    {
        i = i + 1;
    }
    proof {
        lemma_trim_start_skip(v@, i as int);
        let t = v@.subrange(i as int, n as int);
        if t.len() > 0 {
            assert(t[0] == v@[i as int]);
        }
        assert(trim_start_spec(t) == t);
    }
    let mut j: usize = n;
    while j > i && is_ws_char(v[j - 1])
        invariant
            i <= j <= n,
            n == v@.len(),
            forall|k: int| j <= k < n ==> is_ws(#[trigger] v@[k]),
        decreases j - i,
    {
        j = j - 1;
    }
    proof {
        let t = v@.subrange(i as int, n as int);
        assert forall|k: int| j - i <= k < t.len() implies is_ws(#[trigger] t[k]) by {
            assert(t[k] == v@[k + i]);
        }
        lemma_trim_end_skip(t, j - i);
        let u = t.subrange(0, j - i);
        assert(u =~= v@.subrange(i as int, j as int));
        if u.len() > 0 {
            assert(u.last() == v@[j - 1]);
        }
        assert(trim_end_spec(u) == u);
    }
    string_of_range(&v, i, j)
}

/// `s` begins with `p`.
pub open spec fn has_prefix(s: Seq<char>, p: Seq<char>) -> bool {
    p.len() <= s.len() && s.subrange(0, p.len() as int) == p
}

/// `s` ends with `p`.
pub open spec fn has_suffix(s: Seq<char>, p: Seq<char>) -> bool {
    p.len() <= s.len() && s.subrange(s.len() - p.len(), s.len() as int) == p
}

/// `p` occurs in `s` at position `i`.
pub open spec fn occurs_at(s: Seq<char>, p: Seq<char>, i: int) -> bool {
    0 <= i && i + p.len() <= s.len() && s.subrange(i, i + p.len()) == p
}

/// `p` occurs somewhere in `s` (`str::contains`).
pub open spec fn has_substring(s: Seq<char>, p: Seq<char>) -> bool {
    exists|i: int| occurs_at(s, p, i)
}

/// Whether `v[i..i+|p|]` equals `p`.
pub fn matches_at(v: &Vec<char>, p: &Vec<char>, i: usize) -> (r: bool)
    requires
        i <= v.len(),
    ensures
        r == occurs_at(v@, p@, i as int),
{
    if p.len() > v.len() - i {
        return false;
    }
    let mut k: usize = 0;
    while k < p.len()
        invariant
            k <= p.len(),
            i + p.len() <= v.len(),
            forall|m: int| 0 <= m < k ==> v@[i + m] == p@[m],
        decreases p.len() - k,
    {
        if v[i + k] != p[k] {
            assert(v@.subrange(i as int, i + p.len())[k as int] != p@[k as int]);
            return false;
        }
        k = k + 1;
    }
    assert(v@.subrange(i as int, i + p.len()) =~= p@);
    true
}

/// `str::starts_with`.
pub fn starts_with(s: &str, p: &str) -> (r: bool)
    ensures
        r == has_prefix(s@, p@),
{
    let v = chars_of(s);
    let q = chars_of(p);
    matches_at(&v, &q, 0)
}

/// `str::ends_with`.
pub fn ends_with(s: &str, p: &str) -> (r: bool)
    ensures
        r == has_suffix(s@, p@),
{
    let v = chars_of(s);
    let q = chars_of(p);
    if q.len() > v.len() {
        return false;
    }
    matches_at(&v, &q, v.len() - q.len())
}

/// `str::strip_prefix`.
pub fn strip_prefix(s: &str, p: &str) -> (r: Option<String>)
    ensures
        r is Some <==> has_prefix(s@, p@),
        r matches Some(t) ==> t@ == s@.subrange(p@.len() as int, s@.len() as int),
{
    let v = chars_of(s);
    let q = chars_of(p);
    if matches_at(&v, &q, 0) {
        Some(string_of_range(&v, q.len(), v.len()))
    } else {
        None
    }
}

/// `str::contains` with a string pattern.
pub fn contains_str(s: &str, p: &str) -> (r: bool)
    ensures
        r == has_substring(s@, p@),
{
    let v = chars_of(s);
    let q = chars_of(p);
    if q.len() > v.len() {
        assert forall|i: int| !occurs_at(v@, q@, i) by {}
        return false;
    }
    let last = v.len() - q.len();
    let mut i: usize = 0;
    while i <= last
        invariant
            last + q.len() == v.len(),
            v@ == s@,
            q@ == p@,
            forall|j: int| 0 <= j < i ==> !occurs_at(v@, q@, j),
        decreases last + 1 - i,
    {
        if matches_at(&v, &q, i) {
            assert(occurs_at(v@, q@, i as int));
            return true;
        }
        if i == last {
            assert forall|j: int| !occurs_at(v@, q@, j) by {
                if 0 <= j && j + q@.len() <= v@.len() {
                    assert(j <= i);
                }
            }
            return false;
        }
        i = i + 1;
    }
    false
}

/// Index of the first `c` in `s`, or -1.
pub open spec fn first_index(s: Seq<char>, c: char) -> int
    decreases s.len(),
{
    if s.len() == 0 {
        -1
    } else if s[0] == c {
        0
    } else {
        let r = first_index(s.drop_first(), c);
        if r < 0 {
            -1
        } else {
            r + 1
        }
    }
}

/// Index of the last `c` in `s`, or -1.
pub open spec fn last_index(s: Seq<char>, c: char) -> int
    decreases s.len(),
{
    if s.len() == 0 {
        -1
    } else if s.last() == c {
        s.len() - 1
    } else {
        last_index(s.drop_last(), c)
    }
}

pub proof fn lemma_first_index(s: Seq<char>, c: char, i: int)
    requires
        0 <= i <= s.len(),
        forall|j: int| 0 <= j < i ==> s[j] != c,
        i == s.len() || s[i] == c,
    ensures
        first_index(s, c) == (if i == s.len() {
            -1
        } else {
            i
        }),
    decreases i,
{
    if i > 0 {
        let t = s.drop_first();
        assert forall|j: int| 0 <= j < i - 1 implies t[j] != c by {
            assert(t[j] == s[j + 1]);
        }
        if i < s.len() {
            assert(t[i - 1] == s[i]);
        }
        lemma_first_index(t, c, i - 1);
        assert(s[0] != c);
    }
}

pub proof fn lemma_last_index(s: Seq<char>, c: char, i: int)
    requires
        -1 <= i < s.len(),
        forall|j: int| i < j < s.len() ==> s[j] != c,
        i == -1 || s[i] == c,
    ensures
        last_index(s, c) == i,
    decreases s.len(),
{
    if s.len() > 0 && i < s.len() - 1 {
        let t = s.drop_last();
        assert forall|j: int| i < j < t.len() implies t[j] != c by {
            assert(t[j] == s[j]);
        }
        if i >= 0 {
            assert(t[i] == s[i]);
        }
        lemma_last_index(t, c, i);
    }
}

pub proof fn lemma_first_index_bounds(s: Seq<char>, c: char)
    ensures
        -1 <= first_index(s, c) < s.len(),
        first_index(s, c) >= 0 ==> s[first_index(s, c)] == c,
        forall|j: int| 0 <= j < s.len() && (first_index(s, c) < 0 || j < first_index(s, c)) ==> s[j] != c,
    decreases s.len(),
{
    if s.len() > 0 && s[0] != c {
        let t = s.drop_first();
        lemma_first_index_bounds(t, c);
        assert forall|j: int| 0 <= j < s.len() && (first_index(s, c) < 0 || j < first_index(s, c)) implies s[j] != c by {
            if j > 0 {
                assert(s[j] == t[j - 1]);
            }
        }
    }
}

/// Position of the first `c` in `v`.
pub fn find_char(v: &Vec<char>, c: char) -> (r: Option<usize>)
    ensures
        match r {
            None => first_index(v@, c) == -1,
            Some(i) => first_index(v@, c) == i as int && i < v.len(),
        },
{
    let mut i: usize = 0;
    while i < v.len()
        invariant
            i <= v.len(),
            forall|j: int| 0 <= j < i ==> v@[j] != c,
        decreases v.len() - i,
    {
        if v[i] == c {
            proof {
                lemma_first_index(v@, c, i as int);
            }
            return Some(i);
        }
        i = i + 1;
    }
    proof {
        lemma_first_index(v@, c, i as int);
    }
    None
}

/// Position of the last `c` in `v`.
pub fn rfind_char(v: &Vec<char>, c: char) -> (r: Option<usize>)
    ensures
        match r {
            None => last_index(v@, c) == -1,
            Some(i) => last_index(v@, c) == i as int && i < v.len(),
        },
{
    let mut i: usize = v.len();
    while i > 0
        invariant
            i <= v.len(),
            forall|j: int| i <= j < v.len() ==> v@[j] != c,
        decreases i,
    {
        if v[i - 1] == c {
            proof {
                lemma_last_index(v@, c, i - 1);
            }
            return Some(i - 1);
        }
        i = i - 1;
    }
    proof {
        lemma_last_index(v@, c, -1);
    }
    None
}

/// `str::split_once` at a character: the text before the first `c` and after it.
pub open spec fn split_once_spec(s: Seq<char>, c: char) -> Option<(Seq<char>, Seq<char>)> {
    let i = first_index(s, c);
    if i < 0 {
        None
    } else {
        Some((s.subrange(0, i), s.subrange(i + 1, s.len() as int)))
    }
}

/// `str::rsplit_once` at a character: the text before the last `c` and after it.
pub open spec fn rsplit_once_spec(s: Seq<char>, c: char) -> Option<(Seq<char>, Seq<char>)> {
    let i = last_index(s, c);
    if i < 0 {
        None
    } else {
        Some((s.subrange(0, i), s.subrange(i + 1, s.len() as int)))
    }
}

/// The views of an optional pair of strings.
pub open spec fn pair_view(r: Option<(String, String)>) -> Option<(Seq<char>, Seq<char>)> {
    match r {
        None => None,
        Some((a, b)) => Some((a@, b@)),
    }
}

/// `str::split_once` with a character pattern.
pub fn split_once(s: &str, c: char) -> (r: Option<(String, String)>)
    ensures
        pair_view(r) == split_once_spec(s@, c),
{
    let v = chars_of(s);
    match find_char(&v, c) {
        None => None,
        Some(i) => Some((string_of_range(&v, 0, i), string_of_range(&v, i + 1, v.len()))),
    }
}

/// `str::rsplit_once` with a character pattern.
pub fn rsplit_once(s: &str, c: char) -> (r: Option<(String, String)>)
    ensures
        pair_view(r) == rsplit_once_spec(s@, c),
{
    let v = chars_of(s);
    match rfind_char(&v, c) {
        None => None,
        Some(i) => Some((string_of_range(&v, 0, i), string_of_range(&v, i + 1, v.len()))),
    }
}

/// The text before the first `c` (all of `s` when there is none):
/// the first item of `str::split(c)` and of `str::splitn(2, c)`.
pub open spec fn before_first(s: Seq<char>, c: char) -> Seq<char> {
    let i = first_index(s, c);
    if i < 0 {
        s
    } else {
        s.subrange(0, i)
    }
}

/// The text after the first `c`, when there is one: the second item of `str::splitn(2, c)`.
pub open spec fn after_first(s: Seq<char>, c: char) -> Option<Seq<char>> {
    let i = first_index(s, c);
    if i < 0 {
        None
    } else {
        Some(s.subrange(i + 1, s.len() as int))
    }
}

/// `str::splitn(2, c)`: the first piece and, when `c` occurs, the rest.
pub fn splitn2(s: &str, c: char) -> (r: (String, Option<String>))
    ensures
        r.0@ == before_first(s@, c),
        match r.1 {
            None => after_first(s@, c) is None,
            Some(t) => after_first(s@, c) == Some(t@),
        },
{
    let v = chars_of(s);
    match find_char(&v, c) {
        None => (string_of(&v), None),
        Some(i) => (string_of_range(&v, 0, i), Some(string_of_range(&v, i + 1, v.len()))),
    }
}

/// The pieces of `s` between `'\n'` characters (always at least one piece).
pub open spec fn split_nl(s: Seq<char>) -> Seq<Seq<char>>
    decreases s.len(),
{
    if s.len() == 0 {
        seq![Seq::<char>::empty()]
    } else {
        let p = split_nl(s.drop_last());
        if s.last() == '\n' {
            p.push(Seq::<char>::empty())
        } else {
            p.update(p.len() - 1, p.last().push(s.last()))
        }
    }
}

pub proof fn lemma_split_nl_len(s: Seq<char>)
    ensures
        split_nl(s).len() >= 1,
    decreases s.len(),
{
    if s.len() > 0 {
        lemma_split_nl_len(s.drop_last());
    }
}

/// A line without the `'\r'` of a `"\r\n"` ending.
pub open spec fn strip_cr(l: Seq<char>) -> Seq<char> {
    if l.len() > 0 && l.last() == '\r' {
        l.drop_last()
    } else {
        l
    }
}

/// Each line with `strip_cr` applied.
pub open spec fn strip_cr_all(p: Seq<Seq<char>>) -> Seq<Seq<char>> {
    p.map_values(|l: Seq<char>| strip_cr(l))
}

/// `str::lines`: pieces ended by `"\n"` or `"\r\n"`; a last piece without an ending
/// counts only when it is not empty.
pub open spec fn lines_spec(s: Seq<char>) -> Seq<Seq<char>> {
    let p = split_nl(s);
    let body = strip_cr_all(p.drop_last());
    if p.last().len() == 0 {
        body
    } else {
        body.push(p.last())
    }
}

fn strip_cr_string(v: &Vec<char>) -> (s: String)
    ensures
        s@ == strip_cr(v@),
{
    if v.len() > 0 && v[v.len() - 1] == '\r' {
        let s = string_of_range(v, 0, v.len() - 1);
        assert(v@.drop_last() =~= v@.subrange(0, v.len() - 1));
        s
    } else {
        string_of(v)
    }
}

/// `str::lines`.
pub fn lines(s: &str) -> (r: Vec<String>)
    ensures
        views(r@) == lines_spec(s@),
{
    let v = chars_of(s);
    let n = v.len();
    let mut done: Vec<String> = Vec::new();
    let mut cur: Vec<char> = Vec::new();
    let mut i: usize = 0;
    proof {
        assert(v@.subrange(0, 0) =~= Seq::<char>::empty());
        assert(views(done@) =~= strip_cr_all(split_nl(v@.subrange(0, 0)).drop_last()));
    }
    while i < n
        invariant
            i <= n,
            n == v@.len(),
            split_nl(v@.subrange(0, i as int)).len() >= 1,
            views(done@) == strip_cr_all(split_nl(v@.subrange(0, i as int)).drop_last()),
            cur@ == split_nl(v@.subrange(0, i as int)).last(),
        decreases n - i,
    {
        let c = v[i];
        let ghost t = v@.subrange(0, i as int);
        let ghost t2 = v@.subrange(0, i + 1);
        proof {
            assert(t2.drop_last() =~= t);
            assert(t2.last() == c);
            lemma_split_nl_len(t);
        }
        if c == '\n' {
            let line = strip_cr_string(&cur);
            let ghost old_done = done@;
            done.push(line);
            cur = Vec::new();
            proof {
                assert(split_nl(t2) == split_nl(t).push(Seq::<char>::empty()));
                assert(split_nl(t2).drop_last() =~= split_nl(t));
                assert(views(done@) =~= views(old_done).push(line@));
                assert(split_nl(t) =~= split_nl(t).drop_last().push(split_nl(t).last()));
                assert(strip_cr_all(split_nl(t)) =~= strip_cr_all(split_nl(t).drop_last()).push(
                    strip_cr(split_nl(t).last()),
                ));
                assert(views(done@) =~= strip_cr_all(split_nl(t2).drop_last()));
            }
        } else {
            cur.push(c);
            proof {
                let p = split_nl(t);
                assert(split_nl(t2) == p.update(p.len() - 1, p.last().push(c)));
                assert(split_nl(t2).drop_last() =~= p.drop_last());
                assert(cur@ =~= split_nl(t2).last());
            }
        }
        i = i + 1;
    }
    proof {
        assert(v@.subrange(0, n as int) =~= v@);
        lemma_split_nl_len(v@);
    }
    if cur.len() == 0 {
        done
    } else {
        let last = string_of(&cur);
        done.push(last);
        proof {
            let p = split_nl(v@);
            assert(views(done@) =~= strip_cr_all(p.drop_last()).push(p.last()));
        }
        done
    }
}

/// `slice::join` of strings with a separator.
pub open spec fn join_spec(v: Seq<Seq<char>>, sep: Seq<char>) -> Seq<char>
    decreases v.len(),
{
    if v.len() == 0 {
        Seq::empty()
    } else if v.len() == 1 {
        v[0]
    } else {
        join_spec(v.drop_last(), sep) + sep + v.last()
    }
}

/// `[String]::join(sep)`.
pub fn join(v: &Vec<String>, sep: &str) -> (r: String)
    ensures
        r@ == join_spec(views(v@), sep@),
{
    let mut r = String::new();
    let mut i: usize = 0;
    while i < v.len()
        invariant
            i <= v.len(),
            r@ == join_spec(views(v@).take(i as int), sep@),
        decreases v.len() - i,
    {
        let ghost w = views(v@);
        proof {
            assert(w.take(i + 1).drop_last() =~= w.take(i as int));
        }
        if i > 0 {
            r.append(sep);
        }
        r.append(v[i].as_str());
        proof {
            if i == 0 {
                assert(w.take(1) =~= seq![v@[0]@]);
                assert(r@ =~= v@[0]@);
            }
        }
        i = i + 1;
    }
    proof {
        assert(views(v@).take(v@.len() as int) =~= views(v@));
    }
    r
}

/// `s` with every `from` replaced by `to`.
pub open spec fn replace_char_spec(s: Seq<char>, from: char, to: Seq<char>) -> Seq<char>
    decreases s.len(),
{
    if s.len() == 0 {
        Seq::empty()
    } else {
        replace_char_spec(s.drop_last(), from, to) + (if s.last() == from {
            to
        } else {
            seq![s.last()]
        })
    }
}

/// `str::replace` with a character pattern.
pub fn replace_char(s: &str, from: char, to: &str) -> (r: String)
    ensures
        r@ == replace_char_spec(s@, from, to@),
{
    let v = chars_of(s);
    let mut r = String::new();
    let mut i: usize = 0;
    while i < v.len()
        invariant
            i <= v.len(),
            r@ == replace_char_spec(v@.take(i as int), from, to@),
        decreases v.len() - i,
    {
        proof {
            assert(v@.take(i + 1).drop_last() =~= v@.take(i as int));
        }
        if v[i] == from {
            r.append(to);
        } else {
            r.push(v[i]);
        }
        proof {
            assert(r@ =~= replace_char_spec(v@.take(i + 1), from, to@));
        }
        i = i + 1;
    }
    proof {
        assert(v@.take(v@.len() as int) =~= v@);
    }
    r
}

/// The decimal digit for `d < 10`.
pub open spec fn digit_char(d: nat) -> char {
    if d == 0 { '0' } else if d == 1 { '1' } else if d == 2 { '2' } else if d == 3 { '3' }
    else if d == 4 { '4' } else if d == 5 { '5' } else if d == 6 { '6' } else if d == 7 { '7' }
    else if d == 8 { '8' } else { '9' }
}

/// The decimal notation of `n` (`u64::to_string`).
pub open spec fn decimal(n: nat) -> Seq<char>
    decreases n,
{
    if n < 10 {
        seq![digit_char(n)]
    } else {
        decimal(n / 10).push(digit_char(n % 10))
    }
}

/// The decimal notation of a `u64` has at most 20 digits.
pub proof fn lemma_decimal_len(n: nat)
    requires
        n <= u64::MAX,
    ensures
        decimal(n).len() <= 20,
{
    reveal_with_fuel(pow10_below, 21);
    lemma_decimal_len_below(n, 20, 100000000000000000000);
}

proof fn lemma_decimal_len_below(n: nat, k: nat, bound: nat)
    requires
        k >= 1,
        n < bound,
        pow10_below(k) * 10 == bound,
    ensures
        decimal(n).len() <= k,
    decreases k,
{
    if n >= 10 && k > 1 {
        assert(n / 10 < pow10_below(k)) by (nonlinear_arith)
            requires
                n < bound,
                pow10_below(k) * 10 == bound,
        ;
        lemma_decimal_len_below(n / 10, (k - 1) as nat, pow10_below(k));
    }
}

spec fn pow10_below(k: nat) -> nat
    decreases k,
{
    if k <= 1 { 1 } else { 10 * pow10_below((k - 1) as nat) }
}

fn digit(d: u64) -> (c: char)
    requires
        d < 10,
    ensures
        c == digit_char(d as nat),
{
    if d == 0 { '0' } else if d == 1 { '1' } else if d == 2 { '2' } else if d == 3 { '3' }
    else if d == 4 { '4' } else if d == 5 { '5' } else if d == 6 { '6' } else if d == 7 { '7' }
    else if d == 8 { '8' } else { '9' }
}

/// `u64::to_string`.
pub fn decimal_string(n: u64) -> (s: String)
    ensures
        s@ == decimal(n as nat),
    decreases n,
{
    if n < 10 {
        let mut s = String::new();
        s.push(digit(n));
        assert(s@ =~= seq![digit_char(n as nat)]);
        s
    } else {
        let mut s = decimal_string(n / 10);
        s.push(digit(n % 10));
        s
    }
}


/// The non-empty lines of `ls` after trimming each one.
pub open spec fn nonempty_trimmed(ls: Seq<Seq<char>>) -> Seq<Seq<char>>
    decreases ls.len(),
{
    if ls.len() == 0 {
        Seq::empty()
    } else {
        let p = nonempty_trimmed(ls.drop_last());
        let t = trim_spec(ls.last());
        if t.len() > 0 {
            p.push(t)
        } else {
            p
        }
    }
}

/// The lines of a command's output, trimmed, without the empty ones
/// (`lines().map(str::trim).filter(|s| !s.is_empty())`).
pub open spec fn output_lines_spec(s: Seq<char>) -> Seq<Seq<char>> {
    nonempty_trimmed(lines_spec(s))
}

/// The trimmed, non-empty lines of a command's output.
pub fn output_lines(s: &str) -> (r: Vec<String>)
    ensures
        views(r@) == output_lines_spec(s@),
{
    let ls = lines(s);
    let mut r: Vec<String> = Vec::new();
    let mut i: usize = 0;
    while i < ls.len()
        invariant
            i <= ls.len(),
            views(r@) == nonempty_trimmed(views(ls@).take(i as int)),
        decreases ls.len() - i,
    {
        let t = trim(ls[i].as_str());
        let ghost before = r@;
        proof {
            assert(views(ls@).take(i + 1).drop_last() =~= views(ls@).take(i as int));
        }
        if t.as_str().unicode_len() > 0 {
            r.push(t);
            assert(views(r@) =~= views(before).push(t@));
        }
        i = i + 1;
    }
    assert(views(ls@).take(ls@.len() as int) =~= views(ls@));
    r
}


/// The pieces of `s` between the characters `c` (always at least one piece).
pub open spec fn split_char(s: Seq<char>, c: char) -> Seq<Seq<char>>
    decreases s.len(),
{
    if s.len() == 0 {
        seq![Seq::<char>::empty()]
    } else {
        let p = split_char(s.drop_last(), c);
        if s.last() == c {
            p.push(Seq::<char>::empty())
        } else {
            p.update(p.len() - 1, p.last().push(s.last()))
        }
    }
}

pub proof fn lemma_split_char_len(s: Seq<char>, c: char)
    ensures
        split_char(s, c).len() >= 1,
    decreases s.len(),
{
    if s.len() > 0 {
        lemma_split_char_len(s.drop_last(), c);
    }
}

/// `str::split` on a character: every piece, empty ones included.
pub fn split_on(s: &str, c: char) -> (r: Vec<String>)
    ensures
        views(r@) == split_char(s@, c),
{
    let v = chars_of(s);
    let n = v.len();
    let mut done: Vec<String> = Vec::new();
    let mut cur: Vec<char> = Vec::new();
    let mut i: usize = 0;
    proof {
        assert(v@.subrange(0, 0) =~= Seq::<char>::empty());
        assert(views(done@) =~= split_char(v@.subrange(0, 0), c).drop_last());
    }
    while i < n
        invariant
            i <= n,
            n == v@.len(),
            split_char(v@.subrange(0, i as int), c).len() >= 1,
            views(done@) == split_char(v@.subrange(0, i as int), c).drop_last(),
            cur@ == split_char(v@.subrange(0, i as int), c).last(),
        decreases n - i,
    {
        let x = v[i];
        let ghost t = v@.subrange(0, i as int);
        let ghost t2 = v@.subrange(0, i + 1);
        proof {
            assert(t2.drop_last() =~= t);
            assert(t2.last() == x);
            lemma_split_char_len(t, c);
        }
        if x == c {
            let piece = string_of(&cur);
            let ghost old_done = done@;
            done.push(piece);
            cur = Vec::new();
            proof {
                let p = split_char(t, c);
                assert(split_char(t2, c) == p.push(Seq::<char>::empty()));
                assert(views(done@) =~= views(old_done).push(piece@));
                assert(p =~= p.drop_last().push(p.last()));
                assert(views(done@) =~= split_char(t2, c).drop_last());
            }
        } else {
            cur.push(x);
            proof {
                let p = split_char(t, c);
                assert(split_char(t2, c) == p.update(p.len() - 1, p.last().push(x)));
                assert(split_char(t2, c).drop_last() =~= p.drop_last());
                assert(cur@ =~= split_char(t2, c).last());
            }
        }
        i = i + 1;
    }
    proof {
        assert(v@.subrange(0, n as int) =~= v@);
        lemma_split_char_len(v@, c);
    }
    let last = string_of(&cur);
    let ghost before = done@;
    done.push(last);
    proof {
        let p = split_char(v@, c);
        assert(views(done@) =~= views(before).push(last@));
        assert(p =~= p.drop_last().push(p.last()));
    }
    done
}

/// The non-empty pieces of `s` between the characters `c`.
pub fn split_nonempty(s: &str, c: char) -> (r: Vec<String>)
    ensures
        views(r@) == nonempty_only(split_char(s@, c)),
{
    let ls = split_on(s, c);
    let mut r: Vec<String> = Vec::new();
    let mut i: usize = 0;
    while i < ls.len()
        invariant
            i <= ls.len(),
            views(r@) == nonempty_only(views(ls@).take(i as int)),
        decreases ls.len() - i,
    {
        let ghost before = r@;
        proof {
            assert(views(ls@).take(i + 1).drop_last() =~= views(ls@).take(i as int));
        }
        if ls[i].as_str().unicode_len() > 0 {
            let l = ls[i].clone();
            r.push(l);
            assert(views(r@) =~= views(before).push(ls@[i as int]@));
        }
        i = i + 1;
    }
    assert(views(ls@).take(ls@.len() as int) =~= views(ls@));
    r
}

/// The non-empty items of `ls`.
pub open spec fn nonempty_only(ls: Seq<Seq<char>>) -> Seq<Seq<char>>
    decreases ls.len(),
{
    if ls.len() == 0 {
        Seq::empty()
    } else {
        let p = nonempty_only(ls.drop_last());
        if ls.last().len() > 0 {
            p.push(ls.last())
        } else {
            p
        }
    }
}

/// The non-empty lines of `s` (`lines().filter(|l| !l.is_empty())`).
pub fn nonempty_lines(s: &str) -> (r: Vec<String>)
    ensures
        views(r@) == nonempty_only(lines_spec(s@)),
{
    let ls = lines(s);
    let mut r: Vec<String> = Vec::new();
    let mut i: usize = 0;
    while i < ls.len()
        invariant
            i <= ls.len(),
            views(r@) == nonempty_only(views(ls@).take(i as int)),
        decreases ls.len() - i,
    {
        let ghost before = r@;
        proof {
            assert(views(ls@).take(i + 1).drop_last() =~= views(ls@).take(i as int));
        }
        if ls[i].as_str().unicode_len() > 0 {
            let l = ls[i].clone();
            r.push(l);
            assert(views(r@) =~= views(before).push(ls@[i as int]@));
        }
        i = i + 1;
    }
    assert(views(ls@).take(ls@.len() as int) =~= views(ls@));
    r
}


/// A copy of a list of strings.
pub fn copy_strings(v: &Vec<String>) -> (r: Vec<String>)
    ensures
        r@ == v@,
{
    let mut r: Vec<String> = Vec::new();
    let mut i: usize = 0;
    while i < v.len()
        invariant
            i <= v.len(),
            r@ == v@.take(i as int),
        decreases v.len() - i,
    {
        r.push(v[i].clone());
        assert(r@ =~= v@.take(i + 1));
        i = i + 1;
    }
    assert(v@.take(v@.len() as int) =~= v@);
    r
}

/// Items `lo..hi` of a list of strings.
pub fn slice_strings(v: &Vec<String>, lo: usize, hi: usize) -> (r: Vec<String>)
    requires
        lo <= hi <= v.len(),
    ensures
        r@ == v@.subrange(lo as int, hi as int),
{
    let mut r: Vec<String> = Vec::new();
    let mut i: usize = lo;
    while i < hi
        invariant
            lo <= i <= hi <= v.len(),
            r@ == v@.subrange(lo as int, i as int),
        decreases hi - i,
    {
        r.push(v[i].clone());
        assert(r@ =~= v@.subrange(lo as int, i + 1));
        i = i + 1;
    }
    r
}


/// `a` sorts before `b`: lexicographic order of characters, the order of `str`.
pub open spec fn seq_lt(a: Seq<char>, b: Seq<char>) -> bool
    decreases a.len(),
{
    if a.len() == 0 {
        b.len() > 0
    } else if b.len() == 0 {
        false
    } else if a[0] != b[0] {
        (a[0] as int) < (b[0] as int)
    } else {
        seq_lt(a.drop_first(), b.drop_first())
    }
}

/// Of two different texts, one sorts before the other.
pub proof fn lemma_seq_lt_total(a: Seq<char>, b: Seq<char>)
    requires
        a != b,
    ensures
        seq_lt(a, b) || seq_lt(b, a),
    decreases a.len(),
{
    if a.len() == 0 {
        if b.len() == 0 {
            assert(a =~= b);
        }
    } else if b.len() == 0 {
    } else if a[0] != b[0] {
    } else {
        if a.drop_first() =~= b.drop_first() {
            assert forall|i: int| 0 <= i < a.len() implies a[i] == b[i] by {
                if i > 0 {
                    assert(a[i] == a.drop_first()[i - 1]);
                    assert(b[i] == b.drop_first()[i - 1]);
                }
            }
            assert(a =~= b);
        }
        lemma_seq_lt_total(a.drop_first(), b.drop_first());
    }
}

/// No text sorts before itself.
pub proof fn lemma_seq_lt_irreflexive(a: Seq<char>)
    ensures
        !seq_lt(a, a),
    decreases a.len(),
{
    if a.len() > 0 {
        lemma_seq_lt_irreflexive(a.drop_first());
    }
}

/// `a < b` in the order of `str`.
pub fn str_lt(a: &str, b: &str) -> (r: bool)
    ensures
        r == seq_lt(a@, b@),
{
    let va = chars_of(a);
    let vb = chars_of(b);
    let mut i: usize = 0;
    proof {
        assert(va@.skip(0) =~= va@);
        assert(vb@.skip(0) =~= vb@);
    }
    while i < va.len() && i < vb.len() && va[i] == vb[i]
        invariant
            i <= va.len(),
            i <= vb.len(),
            va@ == a@,
            vb@ == b@,
            seq_lt(a@, b@) == seq_lt(va@.skip(i as int), vb@.skip(i as int)),
        decreases va.len() - i,
    {
        proof {
            assert(va@.skip(i as int).drop_first() =~= va@.skip(i + 1));
            assert(vb@.skip(i as int).drop_first() =~= vb@.skip(i + 1));
        }
        i = i + 1;
    }
    if i == va.len() {
        return i < vb.len();
    }
    if i == vb.len() {
        return false;
    }
    va[i] < vb[i]
}


/// Appends the strings of `more` to `v`.
pub fn extend_strings(v: &mut Vec<String>, more: Vec<String>)
    ensures
        views(final(v)@) == views(old(v)@) + views(more@),
{
    let mut i: usize = 0;
    while i < more.len()
        invariant
            i <= more.len(),
            views(v@) == views(old(v)@) + views(more@).take(i as int),
        decreases more.len() - i,
    {
        let ghost prev = v@;
        v.push(more[i].clone());
        assert(views(v@) =~= views(prev).push(more@[i as int]@));
        assert(views(more@).take(i + 1) =~= views(more@).take(i as int).push(more@[i as int]@));
        i = i + 1;
    }
    assert(views(more@).take(more@.len() as int) =~= views(more@));
}

/// The first `n` characters of `s` (all of it when shorter).
pub fn prefix_chars(s: &str, n: usize) -> (r: String)
    ensures
        r@ == (if n < s@.len() { s@.take(n as int) } else { s@ }),
{
    let v = chars_of(s);
    let k = if n < v.len() { n } else { v.len() };
    let r = string_of_range(&v, 0, k);
    assert(v@.subrange(0, k as int) =~= v@.take(k as int));
    assert(v@.take(v@.len() as int) =~= v@);
    r
}


/// Appends one string to a list of strings.
pub fn push_string(v: &mut Vec<String>, x: String)
    ensures
        views(final(v)@) == views(old(v)@).push(x@),
{
    let ghost prev = v@;
    v.push(x);
    assert(views(v@) =~= views(prev).push(x@));
}

/// Whether `t` equals `s` after trimming.
pub fn trimmed_is(s: &str, t: &str) -> (r: bool)
    ensures
        r == (trim_spec(s@) == t@),
{
    let x = trim(s);
    str_eq(x.as_str(), t)
}

/// Whether `s` is empty after trimming.
pub fn trimmed_is_empty(s: &str) -> (r: bool)
    ensures
        r == (trim_spec(s@).len() == 0),
{
    let x = trim(s);
    x.as_str().unicode_len() == 0
}

/// Whether a list of strings contains one equal to `x`.
pub fn contains_string(v: &Vec<String>, x: &str) -> (r: bool)
    ensures
        r == views(v@).contains(x@),
{
    let mut i: usize = 0;
    while i < v.len()
        invariant
            i <= v.len(),
            forall|j: int| 0 <= j < i ==> v@[j]@ != x@,
        decreases v.len() - i,
    {
        if str_eq(v[i].as_str(), x) {
            assert(views(v@)[i as int] == x@);
            return true;
        }
        i = i + 1;
    }
    assert(!views(v@).contains(x@)) by {
        if views(v@).contains(x@) {
            let j = choose|j: int| 0 <= j < views(v@).len() && views(v@)[j] == x@;
            assert(v@[j]@ == x@);
        }
    }
    false
}

} // verus!
