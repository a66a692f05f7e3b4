//! Counting items of sequences, and what reordering keeps.
use vstd::prelude::*;

verus! {

/// How many times `x` occurs in `s`.
pub open spec fn count_of<T>(s: Seq<T>, x: T) -> nat
    decreases s.len(),
{
    if s.len() == 0 {
        0
    } else {
        count_of(s.drop_last(), x) + if s.last() == x {
            1nat
        } else {
            0nat
        }
    }
}

/// `a` and `b` hold the same items, each as often: `b` is a reordering of `a`.
pub open spec fn is_perm<T>(a: Seq<T>, b: Seq<T>) -> bool {
    forall|x: T| #[trigger] count_of(a, x) == count_of(b, x)
}

pub proof fn lemma_count_push<T>(s: Seq<T>, v: T, x: T)
    ensures
        count_of(s.push(v), x) == count_of(s, x) + if v == x {
            1nat
        } else {
            0nat
        },
{
    assert(s.push(v).drop_last() =~= s);
}

pub proof fn lemma_count_concat<T>(a: Seq<T>, b: Seq<T>, x: T)
    ensures
        count_of(a + b, x) == count_of(a, x) + count_of(b, x),
    decreases b.len(),
{
    if b.len() == 0 {
        assert(a + b =~= a);
    } else {
        assert((a + b).drop_last() =~= a + b.drop_last());
        lemma_count_concat(a, b.drop_last(), x);
    }
}

pub proof fn lemma_count_insert<T>(s: Seq<T>, i: int, v: T, x: T)
    requires
        0 <= i <= s.len(),
    ensures
        count_of(s.insert(i, v), x) == count_of(s, x) + if v == x {
            1nat
        } else {
            0nat
        },
{
    assert(s.insert(i, v) =~= s.take(i) + (seq![v] + s.skip(i)));
    assert(s =~= s.take(i) + s.skip(i));
    lemma_count_concat(s.take(i), seq![v] + s.skip(i), x);
    lemma_count_concat(seq![v], s.skip(i), x);
    lemma_count_concat(s.take(i), s.skip(i), x);
    assert(seq![v].drop_last() =~= Seq::<T>::empty());
    assert(count_of(seq![v].drop_last(), x) == 0);
    assert(count_of(seq![v], x) == if v == x {
        1nat
    } else {
        0nat
    });
}

pub proof fn lemma_count_update<T>(s: Seq<T>, i: int, v: T, x: T)
    requires
        0 <= i < s.len(),
    ensures
        count_of(s.update(i, v), x) + (if s[i] == x {
            1nat
        } else {
            0nat
        }) == count_of(s, x) + if v == x {
            1nat
        } else {
            0nat
        },
{
    assert(s.update(i, v) =~= s.take(i) + (seq![v] + s.skip(i + 1)));
    assert(s =~= s.take(i) + (seq![s[i]] + s.skip(i + 1)));
    lemma_count_concat(s.take(i), seq![v] + s.skip(i + 1), x);
    lemma_count_concat(seq![v], s.skip(i + 1), x);
    lemma_count_concat(s.take(i), seq![s[i]] + s.skip(i + 1), x);
    lemma_count_concat(seq![s[i]], s.skip(i + 1), x);
    assert(seq![v].drop_last() =~= Seq::<T>::empty());
    assert(seq![s[i]].drop_last() =~= Seq::<T>::empty());
}

/// Exchanging two items keeps every count.
pub proof fn lemma_swap_perm<T>(s: Seq<T>, i: int, j: int)
    requires
        0 <= i < s.len(),
        0 <= j < s.len(),
    ensures
        is_perm(s, s.update(i, s[j]).update(j, s[i])),
{
    assert forall|x: T| #[trigger] count_of(s, x) == count_of(s.update(i, s[j]).update(j, s[i]), x) by {
        let t = s.update(i, s[j]);
        lemma_count_update(s, i, s[j], x);
        lemma_count_update(t, j, s[i], x);
    }
}

/// An item that occurs is counted.
pub proof fn lemma_count_contains<T>(s: Seq<T>, x: T)
    ensures
        s.contains(x) <==> count_of(s, x) > 0,
    decreases s.len(),
{
    if s.len() > 0 {
        lemma_count_contains(s.drop_last(), x);
        if s.contains(x) && s.last() != x {
            let k = choose|k: int| 0 <= k < s.len() && s[k] == x;
            assert(s.drop_last()[k] == x);
        }
        if s.drop_last().contains(x) {
            let k = choose|k: int| 0 <= k < s.drop_last().len() && s.drop_last()[k] == x;
            assert(s[k] == x);
        }
    }
}

pub proof fn lemma_count_remove<T>(s: Seq<T>, i: int, x: T)
    requires
        0 <= i < s.len(),
    ensures
        count_of(s.remove(i), x) + (if s[i] == x {
            1nat
        } else {
            0nat
        }) == count_of(s, x),
{
    lemma_count_insert(s.remove(i), i, s[i], x);
    assert(s.remove(i).insert(i, s[i]) =~= s);
}

} // verus!
