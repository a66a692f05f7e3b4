//! Apply/unapply and the shared merge pipeline.
//!
//! All merges and cherry-picks run in the `*-prio-mc` clone; the work clone only
//! receives finished results. The functions here decide which branches are
//! applied, in what order they are merged, what a merge run leaves in the state,
//! and how an interrupted run continues.
use vstd::prelude::*;
use vstd::string::StringExecFns;
use crate::error::PrioError;
use crate::result::PrioStatus;
use crate::seqs::{count_of, is_perm, lemma_count_push, lemma_swap_perm};
use crate::services::status::base_desc_spec;
use crate::storage::repo_state::{ApplyCache, ConflictHistoryEntry, McState, RepoState};
use crate::strings::{
    lemma_last_index, rsplit_once, rsplit_once_spec,
    contains_str, has_substring, lines, lines_spec,
    concat2, concat3, contains_string, copy_strings, join, join_spec, owned, replace_char,
    replace_char_spec, slice_strings, str_eq, views,
};

verus! {

/// How a merge run in prio-mc ended: every branch merged (the resulting HEAD), or a
/// conflict when merging the branch at `at_index`.
pub enum MergeOutcome {
    Complete(String),
    Conflict { at_index: usize },
}

/// `s` without any `x`.
pub open spec fn remove_all(s: Seq<Seq<char>>, x: Seq<char>) -> Seq<Seq<char>>
    decreases s.len(),
{
    if s.len() == 0 {
        Seq::empty()
    } else {
        let p = remove_all(s.drop_last(), x);
        if s.last() == x {
            p
        } else {
            p.push(s.last())
        }
    }
}

pub proof fn lemma_remove_all_contains(s: Seq<Seq<char>>, x: Seq<char>, y: Seq<char>)
    ensures
        remove_all(s, x).contains(y) <==> (s.contains(y) && y != x),
    decreases s.len(),
{
    if s.len() > 0 {
        lemma_remove_all_contains(s.drop_last(), x, y);
        let p = remove_all(s.drop_last(), x);
        if remove_all(s, x).contains(y) {
            let k = choose|k: int| 0 <= k < remove_all(s, x).len() && remove_all(s, x)[k] == y;
            if k < p.len() {
                assert(p[k] == y);
                assert(p.contains(y));
                let j = choose|j: int| 0 <= j < s.drop_last().len() && s.drop_last()[j] == y;
                assert(s[j] == y);
            } else {
                assert(s[s.len() - 1] == y);
            }
        }
        if s.contains(y) && y != x {
            let k = choose|k: int| 0 <= k < s.len() && s[k] == y;
            if k < s.len() - 1 {
                assert(s.drop_last()[k] == y);
                assert(s.drop_last().contains(y));
                let j = choose|j: int| 0 <= j < p.len() && p[j] == y;
                if s.last() != x {
                    assert(p.push(s.last())[j] == y);
                }
            } else if s.last() != x {
                assert(p.push(s.last())[p.len() as int] == y);
            }
        }
    }
}

/// The applied list after applying (or unapplying) `resolved`: an applied branch is
/// appended unless already there; an unapplied one is removed wherever it occurs.
pub open spec fn applied_after(applied: Seq<Seq<char>>, resolved: Seq<Seq<char>>, unapply: bool) -> Seq<Seq<char>>
    decreases resolved.len(),
{
    if resolved.len() == 0 {
        applied
    } else {
        let a = applied_after(applied, resolved.drop_last(), unapply);
        let b = resolved.last();
        if unapply {
            remove_all(a, b)
        } else if a.contains(b) {
            a
        } else {
            a.push(b)
        }
    }
}

fn without(v: &Vec<String>, b: &str) -> (r: Vec<String>)
    ensures
        views(r@) == remove_all(views(v@), b@),
{
    let mut r: Vec<String> = Vec::new();
    let mut i: usize = 0;
    while i < v.len()
        invariant
            i <= v.len(),
            views(r@) == remove_all(views(v@).take(i as int), b@),
        decreases v.len() - i,
    {
        proof {
            assert(views(v@).take(i + 1).drop_last() =~= views(v@).take(i as int));
        }
        if !str_eq(v[i].as_str(), b) {
            let ghost prev = r@;
            r.push(v[i].clone());
            assert(views(r@) =~= views(prev).push(v@[i as int]@));
        }
        i = i + 1;
    }
    assert(views(v@).take(v@.len() as int) =~= views(v@));
    r
}

/// The applied branches after `prio apply` (or `prio unapply`) of `resolved`.
pub fn updated_applied(applied: &Vec<String>, resolved: &Vec<String>, unapply: bool) -> (r: Vec<String>)
    ensures
        views(r@) == applied_after(views(applied@), views(resolved@), unapply),
{
    let mut out = copy_strings(applied);
    let mut i: usize = 0;
    while i < resolved.len()
        invariant
            i <= resolved.len(),
            views(out@) == applied_after(views(applied@), views(resolved@).take(i as int), unapply),
        decreases resolved.len() - i,
    {
        proof {
            assert(views(resolved@).take(i + 1).drop_last() =~= views(resolved@).take(i as int));
        }
        let b = resolved[i].as_str();
        if unapply {
            out = without(&out, b);
        } else if !contains_string(&out, b) {
            let ghost prev = out@;
            out.push(resolved[i].clone());
            assert(views(out@) =~= views(prev).push(b@));
        }
        i = i + 1;
    }
    assert(views(resolved@).take(resolved@.len() as int) =~= views(resolved@));
    out
}

/// Applying puts every requested branch in the applied list and keeps the branches
/// that were applied before, in their order, ahead of the new ones.
pub proof fn law_apply_adds(applied: Seq<Seq<char>>, resolved: Seq<Seq<char>>)
    ensures
        forall|b: Seq<char>| resolved.contains(b) ==> applied_after(applied, resolved, false).contains(b),
        applied_after(applied, resolved, false).take(applied.len() as int) == applied,
        applied_after(applied, resolved, false).len() >= applied.len(),
    decreases resolved.len(),
{
    if resolved.len() > 0 {
        law_apply_adds(applied, resolved.drop_last());
        let a = applied_after(applied, resolved.drop_last(), false);
        let r = applied_after(applied, resolved, false);
        assert forall|b: Seq<char>| resolved.contains(b) implies r.contains(b) by {
            let k = choose|k: int| 0 <= k < resolved.len() && resolved[k] == b;
            if k < resolved.len() - 1 {
                assert(resolved.drop_last()[k] == b);
                assert(resolved.drop_last().contains(b));
                let j = choose|j: int| 0 <= j < a.len() && a[j] == b;
                if !a.contains(resolved.last()) {
                    assert(r[j] == b);
                }
            } else if !a.contains(b) {
                assert(r[a.len() as int] == b);
            }
        }
        if !a.contains(resolved.last()) {
            assert(r.take(applied.len() as int) =~= a.take(applied.len() as int));
        }
    } else {
        assert(applied.take(applied.len() as int) =~= applied);
    }
}

/// Unapplying leaves none of the requested branches applied.
pub proof fn law_unapply_removes(applied: Seq<Seq<char>>, resolved: Seq<Seq<char>>)
    ensures
        forall|b: Seq<char>| resolved.contains(b) ==> !applied_after(applied, resolved, true).contains(b),
    decreases resolved.len(),
{
    if resolved.len() > 0 {
        law_unapply_removes(applied, resolved.drop_last());
        let a = applied_after(applied, resolved.drop_last(), true);
        let last = resolved.last();
        assert forall|b: Seq<char>| resolved.contains(b) implies !applied_after(applied, resolved, true).contains(b) by {
            lemma_remove_all_contains(a, last, b);
            let k = choose|k: int| 0 <= k < resolved.len() && resolved[k] == b;
            if k < resolved.len() - 1 {
                assert(resolved.drop_last()[k] == b);
                assert(resolved.drop_last().contains(b));
            }
        }
    }
}

fn count_text(v: &Vec<String>, x: &str) -> (r: usize)
    ensures
        r == count_of(views(v@), x@),
{
    let mut n: usize = 0;
    let mut i: usize = 0;
    while i < v.len()
        invariant
            i <= v.len(),
            n == count_of(views(v@).take(i as int), x@),
            n <= i,
        decreases v.len() - i,
    {
        proof {
            assert(views(v@).take(i + 1).drop_last() =~= views(v@).take(i as int));
        }
        if str_eq(v[i].as_str(), x) {
            n = n + 1;
        }
        i = i + 1;
    }
    assert(views(v@).take(v@.len() as int) =~= views(v@));
    n
}

/// Whether every text in `a` occurs as often in `b` as in `a`.
fn counts_agree(a: &Vec<String>, b: &Vec<String>) -> (r: bool)
    ensures
        r == forall|i: int| 0 <= i < a@.len() ==> count_of(views(a@), #[trigger] views(a@)[i])
            == count_of(views(b@), views(a@)[i]),
{
    let mut i: usize = 0;
    while i < a.len()
        invariant
            i <= a.len(),
            forall|j: int| 0 <= j < i ==> count_of(views(a@), #[trigger] views(a@)[j]) == count_of(views(b@), views(a@)[j]),
        decreases a.len() - i,
    {
        if count_text(a, a[i].as_str()) != count_text(b, a[i].as_str()) {
            assert(count_of(views(a@), views(a@)[i as int]) != count_of(views(b@), views(a@)[i as int]));
            return false;
        }
        i = i + 1;
    }
    true
}

/// Whether `a` and `b` hold the same texts, each as often (equal once sorted).
pub fn same_branches(a: &Vec<String>, b: &Vec<String>) -> (r: bool)
    ensures
        r == is_perm(views(a@), views(b@)),
{
    let x = counts_agree(a, b);
    let y = counts_agree(b, a);
    proof {
        if x && y {
            assert forall|t: Seq<char>| #[trigger] count_of(views(a@), t) == count_of(views(b@), t) by {
                crate::seqs::lemma_count_contains(views(a@), t);
                crate::seqs::lemma_count_contains(views(b@), t);
                if views(a@).contains(t) {
                    let k = choose|k: int| 0 <= k < views(a@).len() && views(a@)[k] == t;
                    assert(count_of(views(a@), views(a@)[k]) == count_of(views(b@), views(a@)[k]));
                } else if views(b@).contains(t) {
                    let k = choose|k: int| 0 <= k < views(b@).len() && views(b@)[k] == t;
                    assert(count_of(views(b@), views(b@)[k]) == count_of(views(a@), views(b@)[k]));
                }
            }
        }
        if !x {
            let i = choose|i: int| 0 <= i < a@.len() && count_of(views(a@), #[trigger] views(a@)[i]) != count_of(views(b@), views(a@)[i]);
            assert(count_of(views(a@), views(a@)[i]) != count_of(views(b@), views(a@)[i]));
        }
        if !y {
            let i = choose|i: int| 0 <= i < b@.len() && count_of(views(b@), #[trigger] views(b@)[i]) != count_of(views(a@), views(b@)[i]);
            assert(count_of(views(b@), views(b@)[i]) != count_of(views(a@), views(b@)[i]));
        }
    }
    x && y
}

/// Whether the first `n` texts of `a` and `b` agree.
fn prefix_equal(a: &Vec<String>, b: &Vec<String>, n: usize) -> (r: bool)
    requires
        n <= a.len(),
        n <= b.len(),
    ensures
        r == (views(a@).take(n as int) == views(b@).take(n as int)),
{
    let mut k: usize = 0;
    while k < n
        invariant
            k <= n,
            n <= a.len(),
            n <= b.len(),
            forall|j: int| 0 <= j < k ==> a@[j]@ == b@[j]@,
        decreases n - k,
    {
        if !str_eq(a[k].as_str(), b[k].as_str()) {
            assert(views(a@).take(n as int)[k as int] != views(b@).take(n as int)[k as int]);
            return false;
        }
        k = k + 1;
    }
    assert(views(a@).take(n as int) =~= views(b@).take(n as int));
    true
}

/// Checks a new merge order given from the UI: it must hold exactly the applied
/// branches, and during an interrupted merge it must keep the branches already
/// merged, in place.
pub fn reorder(state: &RepoState, order: &Vec<String>) -> (r: Result<(), PrioError>)
    requires
        state.merge_in_progress && order.len() >= state.pending_merge_index
            ==> state.pending_merge_index <= state.pending_merge_branches.len(),
    ensures
        !is_perm(views(state.applied_branches@), views(order@)) ==> (r matches Err(PrioError::Message(m))
            && m@ == "Reorder must include exactly the currently applied branches."@),
        is_perm(views(state.applied_branches@), views(order@)) && state.merge_in_progress && (order.len()
            < state.pending_merge_index || views(order@).take(state.pending_merge_index as int)
            != views(state.pending_merge_branches@).take(state.pending_merge_index as int))
            ==> (r matches Err(PrioError::Message(m))
            && m@ == "Cannot reorder at or below branches already merged in the current apply."@),
        is_perm(views(state.applied_branches@), views(order@)) && !(state.merge_in_progress && (order.len()
            < state.pending_merge_index || views(order@).take(state.pending_merge_index as int)
            != views(state.pending_merge_branches@).take(state.pending_merge_index as int)))
            ==> r is Ok,
{
    if !same_branches(&state.applied_branches, order) {
        return Err(PrioError::Message(String::from_str("Reorder must include exactly the currently applied branches.")));
    }
    if state.merge_in_progress {
        let n = state.pending_merge_index;
        if order.len() < n || !prefix_equal(order, &state.pending_merge_branches, n) {
            return Err(PrioError::Message(String::from_str(
                "Cannot reorder at or below branches already merged in the current apply.",
            )));
        }
    }
    Ok(())
}

/// The name of the merge branch prio creates in prio-mc for a merge order:
/// `prio-mc/` and the branches, `/` turned into `-`, joined by `+` (none for an
/// empty order).
pub open spec fn merge_branch_name_spec(order: Seq<Seq<char>>) -> Seq<char> {
    if order.len() == 0 {
        Seq::empty()
    } else {
        "prio-mc/"@ + join_spec(order.map_values(|b: Seq<char>| replace_char_spec(b, '/', "-"@)), "+"@)
    }
}

pub fn merge_branch_name(order: &Vec<String>) -> (r: String)
    ensures
        r@ == merge_branch_name_spec(views(order@)),
{
    if order.len() == 0 {
        return String::new();
    }
    let mut parts: Vec<String> = Vec::new();
    let mut i: usize = 0;
    while i < order.len()
        invariant
            i <= order.len(),
            views(parts@) == views(order@).take(i as int).map_values(|b: Seq<char>| replace_char_spec(b, '/', "-"@)),
        decreases order.len() - i,
    {
        let p = replace_char(order[i].as_str(), '/', "-");
        let ghost prev = parts@;
        parts.push(p);
        proof {
            assert(views(parts@) =~= views(prev).push(p@));
            assert(views(order@).take(i + 1).map_values(|b: Seq<char>| replace_char_spec(b, '/', "-"@))
                =~= views(order@).take(i as int).map_values(|b: Seq<char>| replace_char_spec(b, '/', "-"@)).push(
                replace_char_spec(order@[i as int]@, '/', "-"@),
            ));
        }
        i = i + 1;
    }
    assert(views(order@).take(order@.len() as int) =~= views(order@));
    let j = join(&parts, "+");
    concat2("prio-mc/", j.as_str())
}

/// The ref merged for a branch in prio-mc: the local branch when it exists (it holds
/// the latest rebased state), else `origin/<branch>`.
pub fn merge_ref_for_branch(branch: &str, local_exists: bool, origin_exists: bool) -> (r: Result<String, PrioError>)
    ensures
        local_exists ==> (r matches Ok(x) && x@ == branch@),
        !local_exists && origin_exists ==> (r matches Ok(x) && x@ == "origin/"@ + branch@),
        !local_exists && !origin_exists ==> (r matches Err(PrioError::Message(m)) && m@ == "Branch '"@
            + branch@ + "' not found in prio-mc (checked local and origin/"@ + branch@ + ")"@),
{
    if local_exists {
        return Ok(owned(branch));
    }
    if origin_exists {
        return Ok(concat2("origin/", branch));
    }
    let mut m = concat3("Branch '", branch, "' not found in prio-mc (checked local and origin/");
    m.append(branch);
    m.append(")");
    Err(PrioError::Message(m))
}

/// The applied branches whose refs are copied from prio-mc into the work clone: all
/// but the default branch.
pub fn ref_sync_branches(applied: &Vec<String>, default_branch: &str) -> (r: Vec<String>)
    ensures
        views(r@) == remove_all(views(applied@), default_branch@),
{
    without(applied, default_branch)
}

fn swap_items(v: &mut Vec<String>, i: usize, j: usize)
    requires
        i < old(v).len(),
        j < old(v).len(),
    ensures
        final(v)@ == old(v)@.update(i as int, old(v)@[j as int]).update(j as int, old(v)@[i as int]),
{
    let a = v[i].clone();
    let b = v[j].clone();
    v.set(i, b);
    v.set(j, a);
}

/// Every list added to `out` from index `from` on is a reordering of `items`.
pub open spec fn all_perms_from(out: Seq<Vec<String>>, from: int, items: Seq<Seq<char>>) -> bool {
    forall|k: int| from <= k < out.len() ==> is_perm(#[trigger] views(out[k]@), items)
}

/// `n!`.
pub open spec fn factorial(n: nat) -> nat
    decreases n,
{
    if n == 0 {
        1
    } else {
        n * factorial((n - 1) as nat)
    }
}

/// The smaller of `a` and `b`.
pub open spec fn min_int(a: int, b: int) -> int {
    if a <= b { a } else { b }
}

/// `s` with the items at `a` and `b` swapped.
pub open spec fn swapped(s: Seq<Seq<char>>, a: int, b: int) -> Seq<Seq<char>> {
    s.update(a, s[b]).update(b, s[a])
}

/// The reorderings of `items` that keep `items[..start]` in place, in the order the
/// swap enumeration visits them: `items` itself when nothing is left to place;
/// otherwise, for each `i` from `start` on, those of `items` with `start` and `i`
/// swapped, placing from `start + 1`.
pub open spec fn swap_perms(items: Seq<Seq<char>>, start: nat) -> Seq<Seq<Seq<char>>>
    decreases items.len() - start, items.len() + 1 - start,
{
    if start >= items.len() {
        seq![items]
    } else {
        swap_perms_from(items, start, start)
    }
}

/// The part of [`swap_perms`] that swaps `start` with `i`, `i + 1`, ... in turn.
pub open spec fn swap_perms_from(items: Seq<Seq<char>>, start: nat, i: nat) -> Seq<Seq<Seq<char>>>
    decreases items.len() - start, items.len() - i,
{
    if start >= items.len() || i >= items.len() {
        Seq::empty()
    } else {
        swap_perms(swapped(items, start as int, i as int), start + 1) + swap_perms_from(items, start, i + 1)
    }
}

/// The part of [`swap_perms`] that swaps `start` with `start`, ..., `i - 1`.
pub open spec fn perms_upto(items: Seq<Seq<char>>, start: nat, i: nat) -> Seq<Seq<Seq<char>>>
    decreases i,
{
    if i <= start {
        Seq::empty()
    } else {
        perms_upto(items, start, (i - 1) as nat) + swap_perms(swapped(items, start as int, i - 1), start + 1)
    }
}

/// The lists of names in `out`.
pub open spec fn perm_views(out: Seq<Vec<String>>) -> Seq<Seq<Seq<char>>> {
    out.map_values(|v: Vec<String>| views(v@))
}

proof fn lemma_swap_perms_len(items: Seq<Seq<char>>, start: nat)
    ensures
        start <= items.len() ==> swap_perms(items, start).len() == factorial((items.len() - start) as nat),
    decreases items.len() - start, items.len() + 1 - start,
{
    if start < items.len() {
        lemma_swap_perms_from_len(items, start, start);
        let m = (items.len() - start) as nat;
        assert(factorial(m) == m * factorial((m - 1) as nat));
    }
}

proof fn lemma_swap_perms_from_len(items: Seq<Seq<char>>, start: nat, i: nat)
    ensures
        start < items.len() && start <= i <= items.len() ==> swap_perms_from(items, start, i).len() == (
        items.len() - i) * factorial((items.len() - start - 1) as nat),
    decreases items.len() - start, items.len() - i,
{
    if start < items.len() && start <= i < items.len() {
        let w = swapped(items, start as int, i as int);
        assert(w.len() == items.len());
        lemma_swap_perms_len(w, start + 1);
        lemma_swap_perms_from_len(items, start, i + 1);
        let f = factorial((items.len() - start - 1) as nat);
        let k = items.len() - i;
        assert(k * f == f + (k - 1) * f) by (nonlinear_arith);
    } else if start < items.len() && i == items.len() {
        let f = factorial((items.len() - start - 1) as nat);
        let k = items.len() - i;
        assert(k * f == 0) by (nonlinear_arith)
            requires
                k == 0,
        ;
    }
}

proof fn lemma_perms_upto(items: Seq<Seq<char>>, start: nat, i: nat)
    requires
        start < items.len(),
        start <= i <= items.len(),
    ensures
        perms_upto(items, start, i) + swap_perms_from(items, start, i) == swap_perms(items, start),
        perms_upto(items, start, i).len() == (i - start) * factorial((items.len() - start - 1) as nat),
    decreases i - start,
{
    let f = factorial((items.len() - start - 1) as nat);
    if i == start {
        assert(perms_upto(items, start, i) + swap_perms_from(items, start, i) =~= swap_perms_from(items, start, i));
        assert((i - start) * f == 0) by (nonlinear_arith)
            requires
                i == start,
        ;
    } else {
        let j = (i - 1) as nat;
        lemma_perms_upto(items, start, j);
        let w = swapped(items, start as int, j as int);
        assert(w.len() == items.len());
        lemma_swap_perms_len(w, start + 1);
        assert(swap_perms_from(items, start, j) == swap_perms(w, start + 1) + swap_perms_from(items, start, i));
        assert(perms_upto(items, start, i) + swap_perms_from(items, start, i) =~= perms_upto(items, start, j)
            + swap_perms_from(items, start, j));
        assert((i - start) * f == (j - start) * f + f) by (nonlinear_arith)
            requires
                i == j + 1,
        ;
    }
}

proof fn lemma_take_concat(t: Seq<Seq<Seq<char>>>, u: Seq<Seq<Seq<char>>>, a: int, b: int)
    requires
        0 <= a <= t.len(),
        0 <= b <= u.len(),
        a < t.len() ==> b == 0,
    ensures
        t.take(a) + u.take(b) == (t + u).take(a + b),
{
    assert(t.take(a) + u.take(b) =~= (t + u).take(a + b));
}

/// Adds to `out` the reorderings of `items` that keep `items[..start]` in place, by
/// swapping each later item to the front in turn, stopping once `out` holds `max`.
fn permute(items: &Vec<String>, start: usize, out: &mut Vec<Vec<String>>, max: usize)
    requires
        old(out).len() <= max,
        start <= items.len(),
    ensures
        final(out).len() == min_int(max as int, old(out).len() + factorial((items.len() - start) as nat)),
        final(out).len() >= old(out).len(),
        forall|k: int| 0 <= k < old(out).len() ==> final(out)@[k] == old(out)@[k],
        all_perms_from(final(out)@, old(out).len() as int, views(items@)),
        old(out).len() < max ==> final(out).len() > old(out).len() && views(final(out)@[old(out).len() as int]@) == views(items@),
        perm_views(final(out)@) == perm_views(old(out)@) + swap_perms(views(items@), start as nat).take(
            final(out).len() - old(out).len(),
        ),
    decreases items.len() - start,
{
    if out.len() >= max {
        assert(perm_views(out@) =~= perm_views(out@) + swap_perms(views(items@), start as nat).take(0));
        return;
    }
    if start >= items.len() {
        let ghost o = out@;
        let c = copy_strings(items);
        out.push(c);
        proof {
            assert(perm_views(out@) =~= perm_views(o).push(views(items@)));
            assert(swap_perms(views(items@), start as nat).take(1) =~= seq![views(items@)]);
        }
        return;
    }
    let ghost before = out@;
    let mut i: usize = start;
    while i < items.len()
        invariant
            start <= i <= items.len(),
            start < items.len(),
            before.len() < max,
            out.len() <= max,
            out.len() >= before.len(),
            forall|k: int| 0 <= k < before.len() ==> out@[k] == before[k],
            all_perms_from(out@, before.len() as int, views(items@)),
            i > start ==> out.len() > before.len() && views(out@[before.len() as int]@) == views(items@),
            i == start ==> out@ == before,
            out.len() == min_int(max as int, before.len() + (i - start) * factorial((items.len() - start - 1) as nat)),
            perm_views(out@) == perm_views(before) + perms_upto(views(items@), start as nat, i as nat).take(
                out.len() - before.len(),
            ),
        decreases items.len() - i,
    {
        let mut v = copy_strings(items);
        swap_items(&mut v, start, i);
        proof {
            let w = views(items@);
            lemma_swap_perm(w, start as int, i as int);
            assert(views(v@) =~= w.update(start as int, w[i as int]).update(i as int, w[start as int]));
            if i == start {
                assert(views(v@) =~= w);
            }
        }
        let ghost mid = out@;
        permute(&v, start + 1, out, max);
        proof {
            assert forall|k: int| before.len() <= k < out@.len() implies is_perm(#[trigger] views(out@[k]@), views(items@)) by {
                if k < mid.len() {
                    assert(out@[k] == mid[k]);
                } else {
                    assert(is_perm(views(out@[k]@), views(v@)));
                    assert forall|x: Seq<char>| #[trigger] count_of(views(out@[k]@), x) == count_of(views(items@), x) by {
                        assert(count_of(views(out@[k]@), x) == count_of(views(v@), x));
                        assert(count_of(views(v@), x) == count_of(views(items@), x));
                    }
                }
            }
            if i > start {
                assert(out@[before.len() as int] == mid[before.len() as int]);
            }
            let f = factorial((items.len() - start - 1) as nat);
            assert((i + 1 - start) * f == (i - start) * f + f) by (nonlinear_arith);
            let w = views(items@);
            let sw = swapped(w, start as int, i as int);
            assert(views(v@) == sw);
            lemma_perms_upto(w, start as nat, i as nat);
            lemma_swap_perms_len(sw, (start + 1) as nat);
            let t = perms_upto(w, start as nat, i as nat);
            let u = swap_perms(sw, (start + 1) as nat);
            assert(perms_upto(w, start as nat, (i + 1) as nat) == t + u);
            let a = mid.len() - before.len();
            let bb = out@.len() - mid.len();
            lemma_take_concat(t, u, a, bb);
        }
        i = i + 1;
    }
    proof {
        let m = (items.len() - start) as nat;
        assert(factorial(m) == m * factorial((m - 1) as nat));
        let w = views(items@);
        lemma_perms_upto(w, start as nat, items.len() as nat);
        assert(perms_upto(w, start as nat, items.len() as nat) =~= swap_perms(w, start as nat));
    }
}

/// The first `max` (or all `n!`, if fewer) reorderings of `items` that the swap
/// enumeration visits (see [`swap_perms`]), the first being `items` itself.
pub fn permutations(items: &Vec<String>, max: usize) -> (r: Vec<Vec<String>>)
    ensures
        r.len() == min_int(max as int, factorial(items.len() as nat) as int),
        perm_views(r@) == swap_perms(views(items@), 0).take(r.len() as int),
        all_perms_from(r@, 0, views(items@)),
        max > 0 ==> r.len() > 0 && views(r@[0]@) == views(items@),
{
    let mut result: Vec<Vec<String>> = Vec::new();
    permute(items, 0, &mut result, max);
    assert(perm_views(Seq::<Vec<String>>::empty()) =~= Seq::empty());
    assert(perm_views(result@) =~= swap_perms(views(items@), 0).take(result.len() as int));
    result
}

/// `k` holds the first lowest score, and that score is below `usize::MAX`.
pub open spec fn first_best(scores: Seq<usize>, k: int) -> bool {
    &&& 0 <= k < scores.len()
    &&& scores[k] < usize::MAX
    &&& forall|j: int| 0 <= j < k ==> scores[j] > scores[k]
    &&& forall|j: int| k < j < scores.len() ==> scores[j] >= scores[k]
}

/// The candidate order with the fewest conflicts (the first of those), and its score;
/// `fallback` when every score is `usize::MAX` (or there is no candidate).
pub fn best_order(candidates: &Vec<Vec<String>>, scores: &Vec<usize>, fallback: &Vec<String>) -> (r: (Vec<String>, usize))
    requires
        candidates.len() == scores.len(),
    ensures
        (exists|j: int| 0 <= j < scores@.len() && scores@[j] < usize::MAX) ==> exists|k: int|
            first_best(scores@, k) && r.1 == scores@[k] && r.0@ == candidates@[k]@,
        !(exists|j: int| 0 <= j < scores@.len() && scores@[j] < usize::MAX) ==> r.0@ == fallback@
            && r.1 == usize::MAX,
{
    let mut best_score: usize = usize::MAX;
    let mut best: usize = 0;
    let mut found = false;
    let mut i: usize = 0;
    while i < scores.len()
        invariant
            i <= scores.len(),
            candidates.len() == scores.len(),
            found ==> best < i && first_best(scores@.take(i as int), best as int) && best_score == scores@[best as int],
            !found ==> best_score == usize::MAX && forall|j: int| 0 <= j < i ==> scores@[j] == usize::MAX,
        decreases scores.len() - i,
    {
        if scores[i] < best_score {
            best_score = scores[i];
            best = i;
            found = true;
        }
        i = i + 1;
    }
    assert(scores@.take(scores@.len() as int) =~= scores@);
    if found {
        (copy_strings(&candidates[best]), best_score)
    } else {
        (copy_strings(fallback), usize::MAX)
    }
}

/// When the first candidate has no conflict, it is the one chosen: a requested order
/// that merges cleanly is kept as it is.
pub proof fn law_clean_first_order_kept(scores: Seq<usize>, k: int)
    requires
        scores.len() > 0,
        scores[0] == 0,
        first_best(scores, k),
    ensures
        k == 0,
{
}

/// What choosing a merge order needs.
pub enum OrderPlan {
    /// Use the branches in the given order (one branch or none, or a known clean order).
    Keep,
    /// Score the candidate orders; the cache records the best score under `key`.
    Search { key: String },
}

/// Whether the merge order has to be searched: not for one branch or none, nor when
/// the cache records no conflict for this list of branches (keyed by the branches
/// joined with `,`).
pub fn resolve_optimal_order(branches: &Vec<String>, cache: &ApplyCache) -> (r: OrderPlan)
    ensures
        branches.len() <= 1 ==> r is Keep,
        branches.len() > 1 ==> {
            let key = join_spec(views(branches@), ","@);
            if cache.entries@.dom().contains(key) && cache.entries@[key] == 0 {
                r is Keep
            } else {
                r matches OrderPlan::Search { key: k } && k@ == key
            }
        },
{
    if branches.len() <= 1 {
        return OrderPlan::Keep;
    }
    let key = join(branches, ",");
    match cache.entries.get(key.as_str()) {
        Some(score) => {
            if *score == 0 {
                return OrderPlan::Keep;
            }
        },
        None => {},
    }
    OrderPlan::Search { key }
}

/// How many lines of `git diff --check` report a leftover conflict marker.
pub open spec fn marker_lines(ls: Seq<Seq<char>>) -> nat
    decreases ls.len(),
{
    if ls.len() == 0 {
        0
    } else {
        marker_lines(ls.drop_last()) + if has_substring(ls.last(), "leftover conflict marker"@) {
            1nat
        } else {
            0nat
        }
    }
}

/// The conflict count of a failed trial merge, from the output of `git diff --check`
/// (empty when it could not be read): the lines reporting a leftover conflict
/// marker, and at least one.
pub fn count_conflict_markers(diff: &str) -> (r: usize)
    ensures
        r == (if marker_lines(lines_spec(diff@)) == 0 {
            1
        } else {
            marker_lines(lines_spec(diff@))
        }),
{
    let ls = lines(diff);
    let mut n: usize = 0;
    let mut i: usize = 0;
    while i < ls.len()
        invariant
            i <= ls.len(),
            views(ls@) == lines_spec(diff@),
            n == marker_lines(views(ls@).take(i as int)),
            n <= i,
        decreases ls.len() - i,
    {
        proof {
            assert(views(ls@).take(i + 1).drop_last() =~= views(ls@).take(i as int));
        }
        if contains_str(ls[i].as_str(), "leftover conflict marker") {
            n = n + 1;
        }
        i = i + 1;
    }
    assert(views(ls@).take(ls@.len() as int) =~= views(ls@));
    if n == 0 {
        1
    } else {
        n
    }
}

/// The total of a list of counts.
pub open spec fn total(s: Seq<usize>) -> nat
    decreases s.len(),
{
    if s.len() == 0 {
        0
    } else {
        total(s.drop_last()) + s.last() as nat
    }
}

proof fn lemma_total_prefix(s: Seq<usize>, k: int)
    requires
        0 <= k <= s.len(),
    ensures
        total(s.take(k)) <= total(s),
    decreases s.len(),
{
    if k < s.len() {
        assert(s.drop_last().take(k) =~= s.take(k));
        lemma_total_prefix(s.drop_last(), k);
    } else {
        assert(s.take(k) =~= s);
    }
}

/// What a trial merge of one branch of an order leads to in prio-mc.
pub enum TrialStep {
    /// The branch merged cleanly: commit the merge, so that the next branch of the
    /// order is merged onto it (`A+C`, then `A/C + B`).
    Commit,
    /// The branch conflicted: count its conflict markers, then abort the merge, so that
    /// the next branch is merged onto what merged before it.
    Abort,
}

/// Decides the step after trial-merging a branch of an order (see [`TrialStep`]).
pub fn trial_merge_step(merged_cleanly: bool) -> (r: TrialStep)
    ensures
        merged_cleanly <==> r is Commit,
{
    if merged_cleanly {
        TrialStep::Commit
    } else {
        TrialStep::Abort
    }
}

/// The score of a merge order: the conflict counts of the branches whose trial merge
/// failed, added up.
pub fn score_merge_order(conflict_counts: &Vec<usize>) -> (r: usize)
    requires
        total(conflict_counts@) <= usize::MAX,
    ensures
        r == total(conflict_counts@),
{
    let mut sum: usize = 0;
    let mut i: usize = 0;
    while i < conflict_counts.len()
        invariant
            i <= conflict_counts.len(),
            total(conflict_counts@) <= usize::MAX,
            sum == total(conflict_counts@.take(i as int)),
        decreases conflict_counts.len() - i,
    {
        proof {
            assert(conflict_counts@.take(i + 1).drop_last() =~= conflict_counts@.take(i as int));
            lemma_total_prefix(conflict_counts@, i + 1);
        }
        sum = sum + conflict_counts[i];
        i = i + 1;
    }
    assert(conflict_counts@.take(conflict_counts@.len() as int) =~= conflict_counts@);
    sum
}

/// Entries are ordered by depth, deepest first.
pub open spec fn deepest_first(h: Seq<ConflictHistoryEntry>) -> bool {
    forall|a: int, b: int| 0 <= a < b < h.len() ==> h[a].depth >= h[b].depth
}

/// The entry recorded when a branch merged cleanly at a depth of the merge order.
pub open spec fn resolution_entry(e: ConflictHistoryEntry, default_branch: Seq<char>, branch: Seq<char>, commit: Seq<char>, depth: usize, at: u64) -> bool {
    &&& e.branch_a@ == default_branch
    &&& e.branch_b@ == branch
    &&& e.resolution_commit@ == commit
    &&& e.depth == depth
    &&& e.resolved_at == at
    &&& !e.stale
}

/// Records that `branch` merged at `depth` into the merge result `commit`, and keeps
/// the history ordered deepest first (entries of equal depth keep their order).
pub fn record_conflict_resolution(
    history: &mut Vec<ConflictHistoryEntry>,
    branch: &str,
    default_branch: &str,
    commit: &str,
    depth: usize,
    resolved_at: u64,
)
    ensures
        deepest_first(final(history)@),
        exists|e: ConflictHistoryEntry| resolution_entry(e, default_branch@, branch@, commit@, depth, resolved_at)
            && is_perm(final(history)@, old(history)@.push(e)),
{
    let entry = ConflictHistoryEntry {
        branch_a: owned(default_branch),
        branch_b: owned(branch),
        resolution_commit: owned(commit),
        depth,
        resolved_at,
        stale: false,
    };
    let ghost e = entry;
    history.push(entry);
    let ghost start = history@;
    let mut i: usize = 1;
    if history.len() == 0 {
        i = 0;
    }
    while i < history.len()
        invariant
            1 <= i <= history.len() || (i == 0 && history.len() == 0),
            history.len() == start.len(),
            forall|a: int, b: int| 0 <= a < b < i ==> history@[a].depth >= history@[b].depth,
            is_perm(history@, start),
        decreases history.len() - i,
    {
        let ghost h0 = history@;
        let x = history.remove(i);
        let mut p: usize = i;
        while p > 0 && history[p - 1].depth < x.depth
            invariant
                p <= i,
                i <= history.len(),
                forall|k: int| p <= k < i ==> history@[k].depth < x.depth,
            decreases p,
        {
            p = p - 1;
        }
        let ghost h1 = history@;
        history.insert(p, x);
        proof {
            assert forall|t: ConflictHistoryEntry| #[trigger] count_of(history@, t) == count_of(start, t) by {
                crate::seqs::lemma_count_remove(h0, i as int, t);
                crate::seqs::lemma_count_insert(h1, p as int, x, t);
                assert(count_of(h0, t) == count_of(start, t));
            }
            assert forall|a: int, b: int| 0 <= a < b < i + 1 implies history@[a].depth >= history@[b].depth by {
                if b < p {
                    assert(history@[a] == h0[a] && history@[b] == h0[b]);
                } else if b == p {
                    assert(history@[b] == x);
                    if p > 0 {
                        assert(h1[p - 1].depth >= x.depth);
                        assert(history@[a] == h0[a]);
                        assert(h0[a].depth >= h0[p - 1].depth);
                    }
                } else if a == p {
                    assert(history@[a] == x);
                    assert(history@[b] == h1[b - 1]);
                } else if a < p {
                    assert(history@[a] == h0[a]);
                    assert(history@[b] == h1[b - 1]);
                    if b - 1 < i {
                        assert(h1[b - 1] == h0[b - 1]);
                    }
                } else {
                    assert(history@[a] == h1[a - 1] && history@[b] == h1[b - 1]);
                    assert(h1[a - 1] == h0[a - 1] && h1[b - 1] == h0[b - 1]);
                }
            }
        }
        i = i + 1;
    }
    proof {
        assert forall|t: ConflictHistoryEntry| #[trigger] count_of(history@, t) == count_of(old(history)@.push(e), t) by {
            assert(start == old(history)@.push(e));
        }
        assert(resolution_entry(e, default_branch@, branch@, commit@, depth, resolved_at));
        assert(is_perm(history@, old(history)@.push(e)));
    }
}

/// The mv fields of the prio-mc state other than the force-push record are empty.
pub open spec fn mv_fields_blank(m: McState) -> bool {
    &&& !m.mv_rebase_in_progress
    &&& m.mv_rebase_phase@.len() == 0
    &&& m.mv_rebase_source_branch@.len() == 0
    &&& m.mv_rebase_dest_branch@.len() == 0
    &&& m.mv_rebase_remaining_dest@.len() == 0
    &&& m.mv_rebase_source_shas_to_exclude@.len() == 0
    &&& m.mv_rebase_remaining_commits@.len() == 0
    &&& !m.mv_rebase_source_is_pushed
    &&& m.mv_rebase_unassign_commits@.len() == 0
    &&& m.mv_rebase_unassign_baseline@.len() == 0
    &&& m.mv_rebase_unassign_all_sources@.len() == 0
    &&& m.mv_rebase_unassign_source_branches@.len() == 0
}

/// The prio-mc state after a finished merge: nothing in progress, only the default
/// branch recorded.
pub open spec fn mc_settled(m: McState, default_branch: Seq<char>) -> bool {
    &&& !m.merge_in_progress
    &&& m.pending_merge_branches@.len() == 0
    &&& m.pending_merge_index == 0
    &&& m.default_branch@ == default_branch
    &&& m.merge_branch@.len() == 0
    &&& mv_fields_blank(m)
    &&& !m.mv_rebase_force
    &&& m.mv_pending_force_push_sources@.len() == 0
}

/// A settled prio-mc state for `default_branch`.
pub fn settled_mc(default_branch: &str) -> (r: McState)
    ensures
        mc_settled(r, default_branch@),
{
    let mut m = McState::blank();
    m.default_branch = owned(default_branch);
    m
}

/// What has been merged so far, as messages describe it.
pub fn base_desc(default_branch: &str, merged: &Vec<String>) -> (r: String)
    ensures
        r@ == base_desc_spec(default_branch@, views(merged@)),
{
    if merged.len() == 0 {
        owned(default_branch)
    } else {
        let j = join(merged, " + ");
        concat3(default_branch, " + ", j.as_str())
    }
}

/// The message of an apply that stopped on a merge conflict.
pub open spec fn apply_conflict_text(order: Seq<Seq<char>>, at: int, default_branch: Seq<char>, mc_path: Seq<char>, merge_branch: Seq<char>) -> Seq<char> {
    let incoming = if at < order.len() {
        order[at]
    } else {
        Seq::<char>::empty()
    };
    "Merge conflict in prio-mc: merging "@ + incoming + " into ("@ + base_desc_spec(default_branch, order.take(at))
        + ").\nResolve conflicts in: "@ + mc_path + "\nBranch: "@ + merge_branch
        + "\nThen run: git -C \""@ + mc_path + "\" commit --no-edit"@
}

pub fn apply_conflict_message(order: &Vec<String>, at: usize, default_branch: &str, mc_path: &str, merge_branch: &str) -> (r: String)
    requires
        at <= order.len(),
    ensures
        r@ == apply_conflict_text(views(order@), at as int, default_branch@, mc_path@, merge_branch@),
{
    let incoming = if at < order.len() {
        order[at].clone()
    } else {
        String::new()
    };
    let merged = slice_strings(order, 0, at);
    assert(views(merged@) =~= views(order@).take(at as int));
    let desc = base_desc(default_branch, &merged);
    let mut m = concat3("Merge conflict in prio-mc: merging ", incoming.as_str(), " into (");
    m.append(desc.as_str());
    m.append(").\nResolve conflicts in: ");
    m.append(mc_path);
    m.append("\nBranch: ");
    m.append(merge_branch);
    m.append("\nThen run: git -C \"");
    m.append(mc_path);
    m.append("\" commit --no-edit");
    m
}

/// How an apply run ends: its status and message, and the prio-mc state to save.
pub struct ApplyFinish {
    pub status: PrioStatus,
    pub message: String,
    pub mc_state: McState,
}

/// The work clone's state is `old` but for the applied list and the merge fields.
pub open spec fn same_but_merge(a: RepoState, b: RepoState) -> bool {
    &&& a.work_branch == b.work_branch
    &&& a.default_branch == b.default_branch
    &&& a.commit_map == b.commit_map
    &&& a.commit_assignments == b.commit_assignments
    &&& a.stacks == b.stacks
    &&& a.mv_rebase_conflict == b.mv_rebase_conflict
}

/// Records the end of an apply merge run in the work clone's state and decides what
/// prio-mc's state becomes. `merge_branch` is the merge branch created for `order`
/// and `existing_mc` the prio-mc state before the run (its force-push record is kept
/// when the run stops on a conflict).
///
/// A complete run makes `applied` the applied list and its HEAD the new baseline,
/// with no merge in progress. A conflict records the order and where it stopped.
pub fn execute_apply_merge(
    state: &mut RepoState,
    applied: Vec<String>,
    order: &Vec<String>,
    merge_branch: &str,
    outcome: MergeOutcome,
    mc_path: &str,
    existing_mc: &McState,
) -> (r: ApplyFinish)
    requires
        outcome matches MergeOutcome::Conflict { at_index } ==> at_index <= order.len(),
    ensures
        final(state).applied_branches@ == applied@,
        same_but_merge(*final(state), *old(state)),
        match outcome {
            MergeOutcome::Complete(head) => {
                &&& final(state).baseline_commit == head
                &&& !final(state).merge_in_progress
                &&& final(state).pending_merge_branches@.len() == 0
                &&& final(state).pending_merge_index == 0
                &&& r.status == PrioStatus::Success
                &&& r.message@ == "Apply completed."@
                &&& mc_settled(r.mc_state, old(state).default_branch@)
            },
            MergeOutcome::Conflict { at_index } => {
                &&& final(state).baseline_commit == old(state).baseline_commit
                &&& final(state).merge_in_progress
                &&& final(state).pending_merge_branches@ == order@
                &&& final(state).pending_merge_index == at_index
                &&& r.status == PrioStatus::Warning
                &&& r.message@ == apply_conflict_text(views(order@), at_index as int, old(state).default_branch@, mc_path@, merge_branch@)
                &&& r.mc_state.merge_in_progress
                &&& r.mc_state.pending_merge_branches@ == order@
                &&& r.mc_state.pending_merge_index == at_index
                &&& r.mc_state.default_branch@ == old(state).default_branch@
                &&& r.mc_state.merge_branch@ == merge_branch@
                &&& mv_fields_blank(r.mc_state)
                &&& r.mc_state.mv_rebase_force == existing_mc.mv_rebase_force
                &&& r.mc_state.mv_pending_force_push_sources@ == existing_mc.mv_pending_force_push_sources@
            },
        },
{
    state.applied_branches = applied;
    match outcome {
        MergeOutcome::Complete(head) => {
            state.baseline_commit = head;
            state.merge_in_progress = false;
            state.pending_merge_branches = Vec::new();
            state.pending_merge_index = 0;
            ApplyFinish {
                status: PrioStatus::Success,
                message: String::from_str("Apply completed."),
                mc_state: settled_mc(state.default_branch.as_str()),
            }
        },
        MergeOutcome::Conflict { at_index } => {
            state.merge_in_progress = true;
            state.pending_merge_branches = copy_strings(order);
            state.pending_merge_index = at_index;
            let message = apply_conflict_message(order, at_index, state.default_branch.as_str(), mc_path, merge_branch);
            let mut m = McState::blank();
            m.merge_in_progress = true;
            m.pending_merge_branches = copy_strings(order);
            m.pending_merge_index = at_index;
            m.default_branch = state.default_branch.clone();
            m.merge_branch = owned(merge_branch);
            m.mv_rebase_force = existing_mc.mv_rebase_force;
            m.mv_pending_force_push_sources = copy_strings(&existing_mc.mv_pending_force_push_sources);
            ApplyFinish { status: PrioStatus::Warning, message, mc_state: m }
        },
    }
}

/// A source branch of a move as recorded in the prio-mc state: `branch:true` when it
/// was pushed, `branch:false` otherwise.
pub open spec fn encode_source_spec(branch: Seq<char>, pushed: bool) -> Seq<char> {
    branch + ":"@ + if pushed {
        "true"@
    } else {
        "false"@
    }
}

pub fn encode_source(branch: &str, pushed: bool) -> (r: String)
    ensures
        r@ == encode_source_spec(branch@, pushed),
{
    if pushed {
        concat3(branch, ":", "true")
    } else {
        concat3(branch, ":", "false")
    }
}

/// A recorded source read back: the text before the last `:` and whether the text
/// after it is `true`; nothing when there is no `:`.
pub open spec fn decode_source(s: Seq<char>) -> Option<(Seq<char>, bool)> {
    match rsplit_once_spec(s, ':') {
        None => None,
        Some((b, flag)) => Some((b, flag == "true"@)),
    }
}

pub open spec fn decoded_all(s: Seq<Seq<char>>) -> Seq<(Seq<char>, bool)>
    decreases s.len(),
{
    if s.len() == 0 {
        Seq::empty()
    } else {
        let p = decoded_all(s.drop_last());
        match decode_source(s.last()) {
            None => p,
            Some(d) => p.push(d),
        }
    }
}

pub open spec fn source_views(s: Seq<(String, bool)>) -> Seq<(Seq<char>, bool)> {
    s.map_values(|p: (String, bool)| (p.0@, p.1))
}

/// Decode a list of "branch:is_pushed" encoded source entries into typed tuples.
pub fn decode_unassign_sources(encoded: &Vec<String>) -> (r: Vec<(String, bool)>)
    ensures
        source_views(r@) == decoded_all(views(encoded@)),
{
    let mut r: Vec<(String, bool)> = Vec::new();
    let mut i: usize = 0;
    while i < encoded.len()
        invariant
            i <= encoded.len(),
            source_views(r@) == decoded_all(views(encoded@).take(i as int)),
        decreases encoded.len() - i,
    {
        proof {
            assert(views(encoded@).take(i + 1).drop_last() =~= views(encoded@).take(i as int));
        }
        match rsplit_once(encoded[i].as_str(), ':') {
            Some((b, flag)) => {
                let pushed = str_eq(flag.as_str(), "true");
                let ghost prev = r@;
                let ghost item = (b@, pushed);
                r.push((b, pushed));
                assert(source_views(r@) =~= source_views(prev).push(item));
            },
            None => {},
        }
        i = i + 1;
    }
    assert(views(encoded@).take(encoded@.len() as int) =~= views(encoded@));
    r
}

/// The queued sources after the current one (the first recorded), read back: none
/// when there is at most one.
pub fn queued_after_current(queued: &Vec<String>) -> (r: Vec<(String, bool)>)
    ensures
        queued.len() > 0 ==> source_views(r@) == decoded_all(views(queued@).drop_first()),
        queued.len() == 0 ==> r@.len() == 0,
{
    if queued.len() == 0 {
        return Vec::new();
    }
    let rest = slice_strings(queued, 1, queued.len());
    proof {
        assert(views(rest@) =~= views(queued@).drop_first());
    }
    decode_unassign_sources(&rest)
}

/// A recorded source reads back as the branch and flag it was recorded with, even
/// when the branch name holds a `:`.
pub proof fn law_source_roundtrip(branch: Seq<char>, pushed: bool)
    ensures
        decode_source(encode_source_spec(branch, pushed)) == Some((branch, pushed)),
{
    reveal_strlit(":");
    reveal_strlit("true");
    reveal_strlit("false");
    let flag = if pushed {
        "true"@
    } else {
        "false"@
    };
    let s = encode_source_spec(branch, pushed);
    assert(s =~= branch + seq![':'] + flag);
    assert forall|j: int| branch.len() < j < s.len() implies s[j] != ':' by {
        assert(s[j] == flag[j - branch.len() - 1]);
    }
    lemma_last_index(s, ':', branch.len() as int);
    assert(s.subrange(0, branch.len() as int) =~= branch);
    assert(s.subrange(branch.len() as int + 1, s.len() as int) =~= flag);
    if !pushed {
        assert(flag != "true"@) by {
            assert(flag.len() != "true"@.len());
        }
    }
}

/// Records which source branch to force-push once an interrupted apply finishes:
/// with `-f` on a pushed source, that source alone; otherwise none.
pub fn record_pending_force_push_source(mc: &mut McState, source_branch: &str, force: bool, source_is_pushed: bool)
    ensures
        final(mc).mv_rebase_force == (force && source_is_pushed),
        force && source_is_pushed ==> views(final(mc).mv_pending_force_push_sources@) == seq![
            encode_source_spec(source_branch@, true),
        ],
        !(force && source_is_pushed) ==> final(mc).mv_pending_force_push_sources@.len() == 0,
        final(mc).merge_in_progress == old(mc).merge_in_progress,
        final(mc).pending_merge_branches == old(mc).pending_merge_branches,
        final(mc).pending_merge_index == old(mc).pending_merge_index,
        final(mc).default_branch == old(mc).default_branch,
        final(mc).merge_branch == old(mc).merge_branch,
        final(mc).mv_rebase_in_progress == old(mc).mv_rebase_in_progress,
        final(mc).mv_rebase_phase == old(mc).mv_rebase_phase,
        final(mc).mv_rebase_source_branch == old(mc).mv_rebase_source_branch,
        final(mc).mv_rebase_dest_branch == old(mc).mv_rebase_dest_branch,
        final(mc).mv_rebase_remaining_dest == old(mc).mv_rebase_remaining_dest,
        final(mc).mv_rebase_source_shas_to_exclude == old(mc).mv_rebase_source_shas_to_exclude,
        final(mc).mv_rebase_remaining_commits == old(mc).mv_rebase_remaining_commits,
        final(mc).mv_rebase_source_is_pushed == old(mc).mv_rebase_source_is_pushed,
        final(mc).mv_rebase_unassign_commits == old(mc).mv_rebase_unassign_commits,
        final(mc).mv_rebase_unassign_baseline == old(mc).mv_rebase_unassign_baseline,
        final(mc).mv_rebase_unassign_all_sources == old(mc).mv_rebase_unassign_all_sources,
        final(mc).mv_rebase_unassign_source_branches == old(mc).mv_rebase_unassign_source_branches,
{
    if force && source_is_pushed {
        mc.mv_rebase_force = true;
        let mut v: Vec<String> = Vec::new();
        v.push(encode_source(source_branch, true));
        assert(views(v@) =~= seq![encode_source_spec(source_branch@, true)]);
        mc.mv_pending_force_push_sources = v;
    } else {
        mc.mv_rebase_force = false;
        mc.mv_pending_force_push_sources = Vec::new();
    }
}

/// The pushed sources to force-push after an interrupted apply completes: none
/// unless the move was forced.
pub fn pending_force_pushes(mc: &McState) -> (r: Vec<String>)
    ensures
        !mc.mv_rebase_force ==> r@.len() == 0,
        mc.mv_rebase_force ==> views(r@) == pushed_branches(decoded_all(views(mc.mv_pending_force_push_sources@))),
{
    if !mc.mv_rebase_force {
        return Vec::new();
    }
    let decoded = decode_unassign_sources(&mc.mv_pending_force_push_sources);
    pushed_only(&decoded)
}

/// The branches of the decoded sources that were pushed.
pub open spec fn pushed_branches(d: Seq<(Seq<char>, bool)>) -> Seq<Seq<char>>
    decreases d.len(),
{
    if d.len() == 0 {
        Seq::empty()
    } else {
        let p = pushed_branches(d.drop_last());
        if d.last().1 {
            p.push(d.last().0)
        } else {
            p
        }
    }
}

pub fn pushed_only(d: &Vec<(String, bool)>) -> (r: Vec<String>)
    ensures
        views(r@) == pushed_branches(source_views(d@)),
{
    let mut r: Vec<String> = Vec::new();
    let mut i: usize = 0;
    while i < d.len()
        invariant
            i <= d.len(),
            views(r@) == pushed_branches(source_views(d@).take(i as int)),
        decreases d.len() - i,
    {
        proof {
            assert(source_views(d@).take(i + 1).drop_last() =~= source_views(d@).take(i as int));
        }
        if d[i].1 {
            let ghost prev = r@;
            r.push(d[i].0.clone());
            assert(views(r@) =~= views(prev).push(d@[i as int].0@));
        }
        i = i + 1;
    }
    assert(source_views(d@).take(d@.len() as int) =~= source_views(d@));
    r
}

/// Where a commit in prio-mc leads, as the post-commit hook sees the prio-mc state.
#[derive(Clone, Copy, Debug)]
pub enum PostCommitRoute {
    /// A move stopped while cherry-picking onto its destination: finish those.
    MvDest,
    /// A copy stopped while cherry-picking onto its destination: finish those.
    MvCp,
    /// An unassign stopped while rebasing a source branch: finish it, then the others.
    UnassignSource,
    /// An unassign stopped while replaying the unassigned commits: finish those.
    UnassignPick,
    /// A move stopped while rebasing its source branch: finish that rebase.
    MvSource,
    /// Nothing is in progress.
    NoMerge,
    /// The conflicting branch was the last one: the merge is complete.
    FinishMerge,
    /// The merge is complete and an unassign's commits are to be replayed on top.
    UnassignPicksAfterMerge,
    /// Merge the branches of the order from `start` on.
    ContinueMerge { start: usize },
}

/// The route for a prio-mc state (see [`PostCommitRoute`]).
pub open spec fn route_spec(mc: McState) -> PostCommitRoute {
    if mc.mv_rebase_in_progress {
        let ph = mc.mv_rebase_phase@;
        if ph == "dest"@ {
            PostCommitRoute::MvDest
        } else if ph == "cp"@ {
            PostCommitRoute::MvCp
        } else if ph == "unassign-source"@ {
            PostCommitRoute::UnassignSource
        } else if ph == "unassign-pick"@ {
            PostCommitRoute::UnassignPick
        } else {
            PostCommitRoute::MvSource
        }
    } else if !mc.merge_in_progress {
        PostCommitRoute::NoMerge
    } else if mc.pending_merge_index + 1 >= mc.pending_merge_branches@.len() {
        if mc.mv_rebase_unassign_commits@.len() > 0 {
            PostCommitRoute::UnassignPicksAfterMerge
        } else {
            PostCommitRoute::FinishMerge
        }
    } else {
        PostCommitRoute::ContinueMerge { start: (mc.pending_merge_index + 1) as usize }
    }
}

/// Decides how the prio-mc post-commit hook continues after the user committed a
/// conflict resolution.
pub fn mc_post_commit(mc: &McState) -> (r: PostCommitRoute)
    requires
        mc.pending_merge_index < usize::MAX,
    ensures
        r == route_spec(*mc),
{
    if mc.mv_rebase_in_progress {
        let ph = mc.mv_rebase_phase.as_str();
        if str_eq(ph, "dest") {
            PostCommitRoute::MvDest
        } else if str_eq(ph, "cp") {
            PostCommitRoute::MvCp
        } else if str_eq(ph, "unassign-source") {
            PostCommitRoute::UnassignSource
        } else if str_eq(ph, "unassign-pick") {
            PostCommitRoute::UnassignPick
        } else {
            PostCommitRoute::MvSource
        }
    } else if !mc.merge_in_progress {
        PostCommitRoute::NoMerge
    } else if mc.pending_merge_index + 1 >= mc.pending_merge_branches.len() {
        if mc.mv_rebase_unassign_commits.len() > 0 {
            PostCommitRoute::UnassignPicksAfterMerge
        } else {
            PostCommitRoute::FinishMerge
        }
    } else {
        PostCommitRoute::ContinueMerge { start: mc.pending_merge_index + 1 }
    }
}

/// A merge continued from `start` stopped on the branch `at_index` of the rest: the
/// conflict is recorded at its place in the whole order.
pub fn record_continued_conflict(mc: &mut McState, start: usize, at_index: usize)
    requires
        start + at_index <= usize::MAX,
    ensures
        final(mc).pending_merge_index == start + at_index,
        final(mc).pending_merge_branches == old(mc).pending_merge_branches,
        final(mc).merge_in_progress == old(mc).merge_in_progress,
        final(mc).merge_branch == old(mc).merge_branch,
        final(mc).default_branch == old(mc).default_branch,
{
    mc.pending_merge_index = start + at_index;
}

/// Records a cherry-pick replayed in prio-mc: the picked commit maps to its cherry-pick,
/// which is assigned to `assignment`.
pub fn record_pick(state: &mut RepoState, sha: &str, new_sha: &str, assignment: &str)
    ensures
        crate::services::common::value_views(final(state).commit_map@) == crate::services::common::value_views(
            old(state).commit_map@,
        ).insert(sha@, new_sha@),
        crate::services::common::value_views(final(state).commit_assignments@)
            == crate::services::common::value_views(old(state).commit_assignments@).insert(new_sha@, assignment@),
        final(state).applied_branches == old(state).applied_branches,
        final(state).baseline_commit == old(state).baseline_commit,
        final(state).mv_rebase_conflict == old(state).mv_rebase_conflict,
{
    let ghost m0 = state.commit_map@;
    let ghost a0 = state.commit_assignments@;
    state.commit_map.insert(owned(sha), owned(new_sha));
    state.commit_assignments.insert(owned(new_sha), owned(assignment));
    proof {
        assert(crate::services::common::value_views(state.commit_map@) =~= crate::services::common::value_views(m0).insert(sha@, new_sha@));
        assert(crate::services::common::value_views(state.commit_assignments@)
            =~= crate::services::common::value_views(a0).insert(new_sha@, assignment@));
    }
}

/// The recorded mv conflict now points at `sha` (and at `phase`, when given).
pub fn mark_conflict(state: &mut RepoState, sha: &str, phase: Option<&str>)
    ensures
        match old(state).mv_rebase_conflict {
            None => final(state).mv_rebase_conflict is None,
            Some(c) => final(state).mv_rebase_conflict matches Some(d) && d.conflicting_commit@ == sha@
                && d.phase@ == (match phase {
                    Some(p) => p@,
                    None => c.phase@,
                }) && d.source_branch == c.source_branch && d.dest_branch == c.dest_branch
                && d.source_is_pushed == c.source_is_pushed && d.mc_path == c.mc_path,
        },
        final(state).commit_map == old(state).commit_map,
        final(state).commit_assignments == old(state).commit_assignments,
        final(state).applied_branches == old(state).applied_branches,
        final(state).baseline_commit == old(state).baseline_commit,
{
    match &state.mv_rebase_conflict {
        None => {},
        Some(c) => {
            let mut d = c.copy();
            d.conflicting_commit = owned(sha);
            match phase {
                Some(p) => {
                    d.phase = owned(p);
                },
                None => {},
            }
            state.mv_rebase_conflict = Some(d);
        },
    }
}

/// The work clone's state after a continued merge completes: the merge result is the
/// new baseline and no merge is in progress (the recorded order is left as it was).
pub fn finish_merge_continuation(state: &mut RepoState, head: String)
    ensures
        final(state).baseline_commit == head,
        !final(state).merge_in_progress,
        final(state).pending_merge_branches == old(state).pending_merge_branches,
        final(state).pending_merge_index == old(state).pending_merge_index,
        final(state).applied_branches == old(state).applied_branches,
        final(state).commit_map == old(state).commit_map,
        final(state).commit_assignments == old(state).commit_assignments,
        final(state).mv_rebase_conflict == old(state).mv_rebase_conflict,
{
    state.baseline_commit = head;
    state.merge_in_progress = false;
}

/// The work clone's state once an unassign completes: the merge result (before the
/// replayed commits) is the new baseline, and nothing is in progress.
pub fn finish_unassign_sync(state: &mut RepoState, merge_head: String)
    ensures
        final(state).baseline_commit == merge_head,
        !final(state).merge_in_progress,
        final(state).pending_merge_branches@.len() == 0,
        final(state).pending_merge_index == 0,
        final(state).mv_rebase_conflict is None,
        final(state).applied_branches == old(state).applied_branches,
        final(state).commit_map == old(state).commit_map,
        final(state).commit_assignments == old(state).commit_assignments,
{
    state.baseline_commit = merge_head;
    state.merge_in_progress = false;
    state.pending_merge_branches = Vec::new();
    state.pending_merge_index = 0;
    state.mv_rebase_conflict = None;
}

/// The prio-mc state once a move's source rebase is done: no rebase in progress and
/// its bookkeeping cleared (the force-push record stays).
pub fn finalize_mv_rebase(mc: &mut McState)
    ensures
        !final(mc).mv_rebase_in_progress,
        final(mc).mv_rebase_remaining_commits@.len() == 0,
        final(mc).mv_rebase_remaining_dest@.len() == 0,
        final(mc).mv_rebase_source_branch@.len() == 0,
        final(mc).mv_rebase_dest_branch@.len() == 0,
        final(mc).mv_rebase_source_shas_to_exclude@.len() == 0,
        final(mc).mv_rebase_phase@.len() == 0,
        final(mc).mv_rebase_force == old(mc).mv_rebase_force,
        final(mc).mv_pending_force_push_sources == old(mc).mv_pending_force_push_sources,
        final(mc).merge_in_progress == old(mc).merge_in_progress,
        final(mc).pending_merge_branches == old(mc).pending_merge_branches,
        final(mc).pending_merge_index == old(mc).pending_merge_index,
        final(mc).default_branch == old(mc).default_branch,
{
    mc.mv_rebase_in_progress = false;
    mc.mv_rebase_remaining_commits = Vec::new();
    mc.mv_rebase_remaining_dest = Vec::new();
    mc.mv_rebase_source_branch = String::new();
    mc.mv_rebase_dest_branch = String::new();
    mc.mv_rebase_source_shas_to_exclude = Vec::new();
    mc.mv_rebase_phase = String::new();
}

/// The prio-mc state once a copy's cherry-picks are done.
pub fn finalize_cp(mc: &mut McState)
    ensures
        !final(mc).mv_rebase_in_progress,
        final(mc).mv_rebase_remaining_dest@.len() == 0,
        final(mc).mv_rebase_dest_branch@.len() == 0,
        final(mc).mv_rebase_phase@.len() == 0,
        final(mc).mv_rebase_source_branch == old(mc).mv_rebase_source_branch,
        final(mc).mv_rebase_remaining_commits == old(mc).mv_rebase_remaining_commits,
        final(mc).merge_in_progress == old(mc).merge_in_progress,
        final(mc).default_branch == old(mc).default_branch,
{
    mc.mv_rebase_in_progress = false;
    mc.mv_rebase_remaining_dest = Vec::new();
    mc.mv_rebase_dest_branch = String::new();
    mc.mv_rebase_phase = String::new();
}

} // verus!
