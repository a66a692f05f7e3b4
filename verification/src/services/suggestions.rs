//! Stacking suggestions: for each pair of applied branches, whether their trial merge
//! conflicts, and whether they are stacked already.
use vstd::prelude::*;
use vstd::string::StringExecFns;
use crate::logger::{logged, LogEntry, LogLevel, Logger};
use crate::storage::repo_state::{RepoState, StackEntry};
use crate::strings::{concat3, contains_string, owned, str_eq, views};

verus! {

/// The pairs of applied branches considered, `(applied[i], applied[j])` for `i < j`,
/// first index outer: every later branch paired with the first, then the pairs of the
/// rest.
pub open spec fn pairs_spec(applied: Seq<Seq<char>>) -> Seq<(Seq<char>, Seq<char>)>
    decreases applied.len(),
{
    if applied.len() == 0 {
        Seq::empty()
    } else {
        pair_row(applied, 0) + pairs_spec(applied.drop_first())
    }
}

/// The pairs of `applied[i]` with each later branch, in order.
pub open spec fn pair_row(applied: Seq<Seq<char>>, i: int) -> Seq<(Seq<char>, Seq<char>)> {
    Seq::new((applied.len() - 1 - i) as nat, |k: int| (applied[i], applied[i + 1 + k]))
}

proof fn lemma_pairs_skip(a: Seq<Seq<char>>, i: int)
    requires
        0 <= i < a.len(),
    ensures
        pairs_spec(a.skip(i)) == pair_row(a, i) + pairs_spec(a.skip(i + 1)),
{
    let t = a.skip(i);
    assert(t.drop_first() =~= a.skip(i + 1));
    assert(pair_row(t, 0) =~= pair_row(a, i));
}

/// `a` and `b` are stacked one after the other.
pub open spec fn stacked_spec(stacks: Seq<StackEntry>, a: Seq<char>, b: Seq<char>) -> bool {
    exists|k: int| 0 <= k < stacks.len() && ((#[trigger] stacks[k].branch@ == b && views(stacks[k].dependencies@).contains(a))
        || (stacks[k].branch@ == a && views(stacks[k].dependencies@).contains(b)))
}

/// The suggestion for a pair, from its trial-merge conflict count.
pub open spec fn suggestion_for(a: Seq<char>, b: Seq<char>, conflicts: usize, stacked: bool) -> Option<Seq<char>> {
    if conflicts == 0 && !stacked {
        Some(b + " has no conflicts with "@ + a + " \u{2014} consider: prio stack "@ + a + " "@ + b)
    } else if conflicts > 0 && !stacked {
        Some(a + " and "@ + b + " may conflict when merged \u{2014} consider: prio stack "@ + a + " "@ + b)
    } else if stacked && conflicts > 2 {
        Some("Stacking "@ + a + " and "@ + b + " may be unnecessary given conflict history"@)
    } else {
        None
    }
}

pub fn is_stacked(stacks: &Vec<StackEntry>, a: &str, b: &str) -> (r: bool)
    ensures
        r == stacked_spec(stacks@, a@, b@),
{
    let mut k: usize = 0;
    while k < stacks.len()
        invariant
            k <= stacks.len(),
            forall|j: int| 0 <= j < k ==> !((#[trigger] stacks@[j].branch@ == b@ && views(stacks@[j].dependencies@).contains(a@))
                || (stacks@[j].branch@ == a@ && views(stacks@[j].dependencies@).contains(b@))),
        decreases stacks.len() - k,
    {
        let e = &stacks[k];
        if (str_eq(e.branch.as_str(), b) && contains_string(&e.dependencies, a)) || (str_eq(e.branch.as_str(), a)
            && contains_string(&e.dependencies, b)) {
            return true;
        }
        k = k + 1;
    }
    false
}

/// The pairs of applied branches whose trial merges are scored.
pub fn suggestion_pairs(applied: &Vec<String>) -> (r: Vec<(String, String)>)
    ensures
        r@.map_values(|p: (String, String)| (p.0@, p.1@)) == pairs_spec(views(applied@)),
{
    let mut r: Vec<(String, String)> = Vec::new();
    let ghost w = views(applied@);
    let mut i: usize = 0;
    proof {
        assert(w.skip(0) =~= w);
        assert(r@.map_values(|p: (String, String)| (p.0@, p.1@)) =~= Seq::<(Seq<char>, Seq<char>)>::empty());
    }
    while i < applied.len()
        invariant
            i <= applied.len(),
            w == views(applied@),
            r@.map_values(|p: (String, String)| (p.0@, p.1@)) + pairs_spec(w.skip(i as int)) == pairs_spec(w),
        decreases applied.len() - i,
    {
        let ghost base = r@.map_values(|p: (String, String)| (p.0@, p.1@));
        proof {
            lemma_pairs_skip(w, i as int);
        }
        let mut j: usize = i + 1;
        proof {
            assert(r@.map_values(|p: (String, String)| (p.0@, p.1@)) =~= base + pair_row(w, i as int).take(0));
        }
        while j < applied.len()
            invariant
                i < j <= applied.len(),
                w == views(applied@),
                r@.map_values(|p: (String, String)| (p.0@, p.1@)) == base + pair_row(w, i as int).take(j - i - 1),
            decreases applied.len() - j,
        {
            let ghost prev = r@;
            r.push((applied[i].clone(), applied[j].clone()));
            proof {
                assert(r@.map_values(|p: (String, String)| (p.0@, p.1@)) =~= prev.map_values(|p: (String, String)| (p.0@, p.1@)).push((applied@[i as int]@, applied@[j as int]@)));
                assert(pair_row(w, i as int).take(j - i) =~= pair_row(w, i as int).take(j - i - 1).push((w[i as int], w[j as int])));
            }
            j = j + 1;
        }
        proof {
            assert(pair_row(w, i as int).take(j - i - 1) =~= pair_row(w, i as int));
            assert(r@.map_values(|p: (String, String)| (p.0@, p.1@)) + pairs_spec(w.skip(i + 1)) =~= base + pairs_spec(w.skip(i as int)));
        }
        i = i + 1;
    }
    proof {
        assert(w.skip(applied@.len() as int) =~= Seq::<Seq<char>>::empty());
        assert(r@.map_values(|p: (String, String)| (p.0@, p.1@)) =~= pairs_spec(w));
    }
    r
}

/// The suggestions in pair order, skipping pairs with none.
pub open spec fn suggestions_spec(pairs: Seq<(Seq<char>, Seq<char>)>, scores: Seq<usize>, stacks: Seq<StackEntry>) -> Seq<Seq<char>>
    decreases pairs.len(),
{
    if pairs.len() == 0 || scores.len() == 0 {
        Seq::empty()
    } else {
        let p = suggestions_spec(pairs.drop_last(), scores.drop_last(), stacks);
        let (a, b) = pairs.last();
        match suggestion_for(a, b, scores.last(), stacked_spec(stacks, a, b)) {
            Some(s) => p.push(s),
            None => p,
        }
    }
}

/// Stacking suggestions for the applied branches: `scores[k]` is the conflict score of
/// merging the k-th pair of [`suggestion_pairs`] in order. Fewer than two applied
/// branches give none.
pub fn run_suggestions(state: &RepoState, scores: &Vec<usize>) -> (r: Vec<String>)
    requires
        state.applied_branches.len() >= 2 ==> scores@.len() == pairs_spec(views(state.applied_branches@)).len(),
    ensures
        state.applied_branches.len() < 2 ==> r@.len() == 0,
        state.applied_branches.len() >= 2 ==> views(r@) == suggestions_spec(pairs_spec(views(state.applied_branches@)), scores@, state.stacks@),
{
    let mut out: Vec<String> = Vec::new();
    if state.applied_branches.len() < 2 {
        return out;
    }
    let pairs = suggestion_pairs(&state.applied_branches);
    let ghost pv = pairs@.map_values(|p: (String, String)| (p.0@, p.1@));
    let mut k: usize = 0;
    while k < pairs.len()
        invariant
            k <= pairs.len(),
            pv == pairs@.map_values(|p: (String, String)| (p.0@, p.1@)),
            scores@.len() == pairs@.len(),
            views(out@) == suggestions_spec(pv.take(k as int), scores@.take(k as int), state.stacks@),
        decreases pairs.len() - k,
    {
        proof {
            assert(pv.take(k + 1).drop_last() =~= pv.take(k as int));
            assert(scores@.take(k + 1).drop_last() =~= scores@.take(k as int));
            assert(pv.take(k + 1).last() == (pairs@[k as int].0@, pairs@[k as int].1@));
        }
        let a = pairs[k].0.as_str();
        let b = pairs[k].1.as_str();
        let stacked = is_stacked(&state.stacks, a, b);
        let c = scores[k];
        let ghost prev = views(out@);
        if c == 0 && !stacked {
            let mut m = concat3(b, " has no conflicts with ", a);
            m.append(" \u{2014} consider: prio stack ");
            m.append(a);
            m.append(" ");
            m.append(b);
            crate::strings::push_string(&mut out, m);
        } else if c > 0 && !stacked {
            let mut m = concat3(a, " and ", b);
            m.append(" may conflict when merged \u{2014} consider: prio stack ");
            m.append(a);
            m.append(" ");
            m.append(b);
            crate::strings::push_string(&mut out, m);
        } else if stacked && c > 2 {
            let mut m = concat3("Stacking ", a, " and ");
            m.append(b);
            m.append(" may be unnecessary given conflict history");
            crate::strings::push_string(&mut out, m);
        }
        k = k + 1;
    }
    proof {
        assert(pv.take(pv.len() as int) =~= pv);
        assert(scores@.take(scores@.len() as int) =~= scores@);
    }
    out
}

/// The messages of log entries.
pub open spec fn messages(es: Seq<LogEntry>) -> Seq<Seq<char>> {
    es.map_values(|e: LogEntry| e.message@)
}

/// Computes the suggestions and logs each as information.
pub fn run_and_log(state: &RepoState, scores: &Vec<usize>, logger: &mut Logger) -> (r: Vec<String>)
    requires
        state.applied_branches.len() >= 2 ==> scores@.len() == pairs_spec(views(state.applied_branches@)).len(),
    ensures
        state.applied_branches.len() < 2 ==> r@.len() == 0,
        state.applied_branches.len() >= 2 ==> views(r@) == suggestions_spec(pairs_spec(views(state.applied_branches@)), scores@, state.stacks@),
        final(logger).same_kind(*old(logger)),
        (*old(logger)) is Ui ==> final(logger).recorded().take(old(logger).recorded().len() as int) == old(logger).recorded()
            && messages(final(logger).recorded().skip(old(logger).recorded().len() as int)) == views(r@)
            && forall|k: int| old(logger).recorded().len() <= k < final(logger).recorded().len()
                ==> (#[trigger] final(logger).recorded()[k]).level == LogLevel::Info,
{
    let s = run_suggestions(state, scores);
    let ghost base = logger.recorded();
    let mut i: usize = 0;
    while i < s.len()
        invariant
            i <= s.len(),
            logger.same_kind(*old(logger)),
            base == old(logger).recorded(),
            (*old(logger)) is Ui ==> logger.recorded().len() == base.len() + i
                && logger.recorded().take(base.len() as int) == base
                && messages(logger.recorded().skip(base.len() as int)) == views(s@).take(i as int)
                && forall|k: int| base.len() <= k < logger.recorded().len() ==> (#[trigger] logger.recorded()[k]).level == LogLevel::Info,
        decreases s.len() - i,
    {
        let ghost before = logger.recorded();
        logger.info(s[i].clone());
        proof {
            if (*old(logger)) is Ui {
                let after = logger.recorded();
                assert(after.take(base.len() as int) =~= before.take(base.len() as int));
                assert(after.skip(base.len() as int) =~= before.skip(base.len() as int).push(after.last()));
                assert(messages(after.skip(base.len() as int)) =~= messages(before.skip(base.len() as int)).push(after.last().message@));
                assert(views(s@).take(i + 1) =~= views(s@).take(i as int).push(s@[i as int]@));
                assert forall|k: int| base.len() <= k < after.len() implies (#[trigger] after[k]).level == LogLevel::Info by {
                    if k < after.len() - 1 {
                        assert(after[k] == before[k]);
                    }
                }
            }
        }
        i = i + 1;
    }
    assert(views(s@).take(s@.len() as int) =~= views(s@));
    s
}

} // verus!
