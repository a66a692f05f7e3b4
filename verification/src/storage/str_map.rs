//! A map keyed by strings, kept as a list of entries in insertion order; the
//! last entry for a key is the one that counts.
use vstd::prelude::*;
use crate::strings::{contains_string, str_eq, views};

verus! {

/// Values that can be copied exactly.
pub trait CopyValue: Sized {
    fn copy_value(&self) -> (r: Self)
        ensures
            r == *self,
    ;
}

impl CopyValue for String {
    fn copy_value(&self) -> (r: Self) {
        self.clone()
    }
}

impl CopyValue for usize {
    fn copy_value(&self) -> (r: Self) {
        *self
    }
}

/// The map an entry list denotes: later entries override earlier ones.
pub open spec fn map_of<V>(s: Seq<(String, V)>) -> Map<Seq<char>, V>
    decreases s.len(),
{
    if s.len() == 0 {
        Map::empty()
    } else {
        map_of(s.drop_last()).insert(s.last().0@, s.last().1)
    }
}

/// The entries whose key is not `k`.
pub open spec fn without_key<V>(s: Seq<(String, V)>, k: Seq<char>) -> Seq<(String, V)>
    decreases s.len(),
{
    if s.len() == 0 {
        Seq::empty()
    } else if s.last().0@ == k {
        without_key(s.drop_last(), k)
    } else {
        without_key(s.drop_last(), k).push(s.last())
    }
}

pub proof fn lemma_without_key<V>(s: Seq<(String, V)>, k: Seq<char>)
    ensures
        map_of(without_key(s, k)) == map_of(s).remove(k),
    decreases s.len(),
{
    if s.len() > 0 {
        lemma_without_key(s.drop_last(), k);
        let t = without_key(s.drop_last(), k);
        if s.last().0@ != k {
            assert(t.push(s.last()).drop_last() =~= t);
        }
        assert(map_of(without_key(s, k)) =~= map_of(s).remove(k));
    } else {
        assert(map_of(without_key(s, k)) =~= map_of(s).remove(k));
    }
}

pub proof fn lemma_map_of_dom<V>(s: Seq<(String, V)>)
    ensures
        forall|k: Seq<char>| #[trigger] map_of(s).dom().contains(k) <==> exists|i: int|
            0 <= i < s.len() && s[i].0@ == k,
    decreases s.len(),
{
    if s.len() > 0 {
        let t = s.drop_last();
        lemma_map_of_dom(t);
        assert forall|k: Seq<char>| #[trigger] map_of(s).dom().contains(k) <==> exists|i: int|
            0 <= i < s.len() && s[i].0@ == k by {
            assert(map_of(s) == map_of(t).insert(s.last().0@, s.last().1));
            if map_of(s).dom().contains(k) {
                if k == s.last().0@ {
                    assert(s[s.len() - 1].0@ == k);
                } else {
                    assert(map_of(t).dom().contains(k));
                    let i = choose|i: int| 0 <= i < t.len() && t[i].0@ == k;
                    assert(s[i] == t[i]);
                }
            }
            if exists|i: int| 0 <= i < s.len() && s[i].0@ == k {
                let i = choose|i: int| 0 <= i < s.len() && s[i].0@ == k;
                if i < s.len() - 1 {
                    assert(t[i] == s[i]);
                    assert(map_of(t).dom().contains(k));
                }
            }
        }
    }
}

/// Scanning from the end, the first entry with key `k` gives the value.
pub proof fn lemma_map_of_last<V>(s: Seq<(String, V)>, i: int)
    requires
        0 <= i < s.len(),
        forall|j: int| i < j < s.len() ==> s[j].0@ != s[i].0@,
    ensures
        map_of(s).dom().contains(s[i].0@),
        map_of(s)[s[i].0@] == s[i].1,
    decreases s.len(),
{
    if i < s.len() - 1 {
        let t = s.drop_last();
        assert forall|j: int| i < j < t.len() implies t[j].0@ != t[i].0@ by {
            assert(t[j] == s[j]);
        }
        lemma_map_of_last(t, i);
    }
}

pub proof fn lemma_map_of_absent<V>(s: Seq<(String, V)>, k: Seq<char>)
    requires
        forall|j: int| 0 <= j < s.len() ==> s[j].0@ != k,
    ensures
        !map_of(s).dom().contains(k),
{
    lemma_map_of_dom(s);
}

pub struct StrMap<V> {
    entries: Vec<(String, V)>,
}

impl<V> View for StrMap<V> {
    type V = Map<Seq<char>, V>;

    closed spec fn view(&self) -> Map<Seq<char>, V> {
        map_of(self.entries@)
    }
}

impl<V: CopyValue> StrMap<V> {
    pub fn new() -> (r: Self)
        ensures
            r@ == Map::<Seq<char>, V>::empty(),
    {
        StrMap { entries: Vec::new() }
    }

    /// The value for `k`.
    pub fn get(&self, k: &str) -> (r: Option<&V>)
        ensures
            match r {
                None => !self@.dom().contains(k@),
                Some(v) => self@.dom().contains(k@) && *v == self@[k@],
            },
    {
        let mut i: usize = self.entries.len();
        while i > 0
            invariant
                i <= self.entries.len(),
                forall|j: int| i <= j < self.entries@.len() ==> self.entries@[j].0@ != k@,
            decreases i,
        {
            if str_eq(self.entries[i - 1].0.as_str(), k) {
                proof {
                    lemma_map_of_last(self.entries@, i - 1);
                }
                return Some(&self.entries[i - 1].1);
            }
            i = i - 1;
        }
        proof {
            lemma_map_of_absent(self.entries@, k@);
        }
        None
    }

    pub fn contains_key(&self, k: &str) -> (r: bool)
        ensures
            r == self@.dom().contains(k@),
    {
        self.get(k).is_some()
    }

    /// Removes the entry for `k`, if any.
    pub fn remove(&mut self, k: &str)
        ensures
            final(self)@ == old(self)@.remove(k@),
    {
        let mut kept: Vec<(String, V)> = Vec::new();
        let mut i: usize = 0;
        while i < self.entries.len()
            invariant
                i <= self.entries.len(),
                kept@ == without_key(self.entries@.take(i as int), k@),
            decreases self.entries.len() - i,
        {
            proof {
                assert(self.entries@.take(i + 1).drop_last() =~= self.entries@.take(i as int));
            }
            if !str_eq(self.entries[i].0.as_str(), k) {
                let key = self.entries[i].0.clone();
                let val = self.entries[i].1.copy_value();
                kept.push((key, val));
            }
            i = i + 1;
        }
        proof {
            assert(self.entries@.take(self.entries@.len() as int) =~= self.entries@);
            lemma_without_key(self.entries@, k@);
        }
        self.entries = kept;
    }

    /// Sets the value for `k`.
    pub fn insert(&mut self, k: String, v: V)
        ensures
            final(self)@ == old(self)@.insert(k@, v),
    {
        self.remove(k.as_str());
        let ghost before = self.entries@;
        self.entries.push((k, v));
        proof {
            assert(self.entries@.drop_last() =~= before);
            assert(map_of(self.entries@) =~= old(self)@.insert(k@, v));
        }
    }

    /// The keys, each once.
    pub fn keys(&self) -> (r: Vec<String>)
        ensures
            views(r@).to_set() == self@.dom(),
            views(r@).no_duplicates(),
    {
        let mut r: Vec<String> = Vec::new();
        let mut i: usize = 0;
        while i < self.entries.len()
            invariant
                i <= self.entries.len(),
                views(r@).no_duplicates(),
                forall|k: Seq<char>| views(r@).contains(k) <==> exists|j: int|
                    0 <= j < i && self.entries@[j].0@ == k,
            decreases self.entries.len() - i,
        {
            if !contains_string(&r, self.entries[i].0.as_str()) {
                let ghost before = r@;
                r.push(self.entries[i].0.clone());
                proof {
                    assert(views(r@) =~= views(before).push(self.entries@[i as int].0@));
                    assert forall|k: Seq<char>| views(r@).contains(k) <==> exists|j: int|
                        0 <= j < i + 1 && self.entries@[j].0@ == k by {
                        if views(r@).contains(k) {
                            let m = choose|m: int| 0 <= m < views(r@).len() && views(r@)[m] == k;
                            if m < views(before).len() {
                                assert(views(before)[m] == k);
                                assert(views(before).contains(k));
                            }
                        }
                        if exists|j: int| 0 <= j < i + 1 && self.entries@[j].0@ == k {
                            let j = choose|j: int| 0 <= j < i + 1 && self.entries@[j].0@ == k;
                            if j < i {
                                assert(views(before).contains(k));
                                let m = choose|m: int| 0 <= m < views(before).len() && views(before)[m] == k;
                                assert(views(r@)[m] == k);
                            } else {
                                assert(views(r@)[views(r@).len() - 1] == k);
                            }
                        }
                    }
                }
            }
            i = i + 1;
        }
        proof {
            lemma_map_of_dom(self.entries@);
            assert(views(r@).to_set() =~= map_of(self.entries@).dom());
        }
        r
    }

    /// A map from entries; a later entry for the same key overrides an earlier one.
    pub fn from_pairs(pairs: Vec<(String, V)>) -> (r: Self)
        ensures
            r@ == map_of(pairs@),
    {
        StrMap { entries: pairs }
    }

    /// The entries, one per key.
    pub fn to_pairs(&self) -> (r: Vec<(String, V)>)
        ensures
            map_of(r@) == self@,
            forall|i: int, j: int| 0 <= i < j < r@.len() ==> r@[i].0@ != r@[j].0@,
    {
        let ks = self.keys();
        let mut r: Vec<(String, V)> = Vec::new();
        let mut i: usize = 0;
        while i < ks.len()
            invariant
                i <= ks.len(),
                r@.len() == i,
                views(ks@).no_duplicates(),
                views(ks@).to_set() == self@.dom(),
                forall|j: int| 0 <= j < i ==> r@[j].0@ == ks@[j]@ && self@.dom().contains(ks@[j]@)
                    && r@[j].1 == self@[ks@[j]@],
                map_of(r@) == self@.restrict(views(ks@).take(i as int).to_set()),
            decreases ks.len() - i,
        {
            proof {
                assert(views(ks@).to_set().contains(views(ks@)[i as int]));
                assert(views(ks@)[i as int] == ks@[i as int]@);
            }
            let v = self.get(ks[i].as_str());
            match v {
                Some(v) => {
                    let ghost before = r@;
                    r.push((ks[i].clone(), v.copy_value()));
                    proof {
                        assert(r@.drop_last() =~= before);
                        views(ks@).lemma_take_succ_push(i as int);
                        views(ks@).take(i as int).lemma_push_to_set_commute(ks@[i as int]@);
                        assert(views(ks@).take(i + 1).to_set() =~= views(ks@).take(i as int).to_set().insert(ks@[i as int]@));
                        assert(map_of(r@) =~= self@.restrict(views(ks@).take(i + 1).to_set()));
                    }
                },
                None => {
                    assert(false);
                },
            }
            i = i + 1;
        }
        proof {
            assert(views(ks@).take(ks@.len() as int) =~= views(ks@));
            assert(self@.restrict(views(ks@).to_set()) =~= self@);
            assert forall|a: int, b: int| 0 <= a < b < r@.len() implies r@[a].0@ != r@[b].0@ by {
                assert(views(ks@)[a] == ks@[a]@);
                assert(views(ks@)[b] == ks@[b]@);
                assert(views(ks@)[a] != views(ks@)[b]);
            }
        }
        r
    }
}

} // verus!
