//! A map from texts to values that keeps its entries in insertion order.

use crate::seqs::lemma_push_members;
use crate::text::{list_contains, str_eq, texts};
use vstd::prelude::*;

verus! {

/// A map keyed by text. Entries stay in the order in which their keys were first inserted.
#[derive(Clone, Debug)]
pub struct StrMap<V> {
    entries: Vec<(String, V)>,
}

/// The number stored under `k`, or zero.
pub open spec fn count_of(m: Map<Seq<char>, usize>, k: Seq<char>) -> int {
    if m.dom().contains(k) {
        m[k] as int
    } else {
        0
    }
}

impl<V> View for StrMap<V> {
    type V = Map<Seq<char>, V>;

    closed spec fn view(&self) -> Map<Seq<char>, V> {
        Map::new(
            |k: Seq<char>| self.keys().contains(k),
            |k: Seq<char>| self.entries@[self.keys().index_of(k)].1,
        )
    }
}

impl<V> StrMap<V> {
    /// The keys, in insertion order.
    pub closed spec fn keys(&self) -> Seq<Seq<char>> {
        Seq::new(self.entries@.len(), |i: int| self.entries@[i].0@)
    }

    /// No key occurs twice.
    pub closed spec fn wf(&self) -> bool {
        self.keys().no_duplicates()
    }

    /// The keys of a well-formed map are distinct and are the domain of its view.
    pub proof fn lemma_keys(&self)
        requires
            self.wf(),
        ensures
            self.keys().no_duplicates(),
            forall|k: Seq<char>| #[trigger] self@.dom().contains(k) <==> self.keys().contains(k),
            forall|i: int| 0 <= i < self.keys().len() ==> self@.dom().contains(#[trigger] self.keys()[i]),
    {
    }

    pub fn new() -> (m: Self)
        ensures
            m.wf(),
            m@ == Map::<Seq<char>, V>::empty(),
            m.keys() == Seq::<Seq<char>>::empty(),
    {
        let m = StrMap { entries: Vec::new() };
        assert(m.keys() =~= Seq::<Seq<char>>::empty());
        assert(m@ =~= Map::<Seq<char>, V>::empty());
        m
    }

    /// The number of entries.
    pub fn len(&self) -> (n: usize)
        ensures
            n == self.keys().len(),
    {
        self.entries.len()
    }

    /// The key of entry `i`.
    pub fn key_at(&self, i: usize) -> (k: &String)
        requires
            i < self.keys().len(),
        ensures
            k@ == self.keys()[i as int],
    {
        &self.entries[i].0
    }

    /// The value of entry `i`.
    pub fn value_at(&self, i: usize) -> (v: &V)
        requires
            self.wf(),
            i < self.keys().len(),
        ensures
            *v == self@[self.keys()[i as int]],
    {
        assert(self.keys().index_of(self.keys()[i as int]) == i);
        &self.entries[i].1
    }

    /// The index of the entry of `k`, or the number of entries when there is none.
    pub fn position(&self, k: &str) -> (i: usize)
        requires
            self.wf(),
        ensures
            i <= self.keys().len(),
            i < self.keys().len() <==> self@.dom().contains(k@),
            i < self.keys().len() ==> self.keys()[i as int] == k@,
    {
        let mut i: usize = 0;
        while i < self.entries.len()
            invariant
                i <= self.entries@.len(),
                forall|j: int| 0 <= j < i ==> self.keys()[j] != k@,
            decreases self.entries@.len() - i,
        {
            if str_eq(self.entries[i].0.as_str(), k) {
                assert(self.keys()[i as int] == k@);
                return i;
            }
            i += 1;
        }
        i
    }

    /// The value stored under `k`.
    pub fn get(&self, k: &str) -> (r: Option<&V>)
        requires
            self.wf(),
        ensures
            r is Some <==> self@.dom().contains(k@),
            r is Some ==> *r->0 == self@[k@],
    {
        let i: usize = self.position(k);
        if i < self.entries.len() {
            Some(self.value_at(i))
        } else {
            None
        }
    }

    /// A mutable reference to the value of entry `i`.
    pub fn value_mut(&mut self, i: usize) -> (v: &mut V)
        requires
            old(self).wf(),
            i < old(self).keys().len(),
        ensures
            *v == old(self)@[old(self).keys()[i as int]],
            final(self).wf(),
            final(self).keys() == old(self).keys(),
            final(self)@ == old(self)@.insert(old(self).keys()[i as int], *final(v)),
    {
        let v = &mut self.entries[i].1;
        proof {
            let k = old(self).keys()[i as int];
            assert(after_borrow(*self).keys() =~= old(self).keys());
            assert(old(self).keys().index_of(k) == i);
            assert(after_borrow(*self)@ =~= old(self)@.insert(k, *final(v)));
        }
        v
    }

    /// Stores `v` under `k`, in place of the value that was there.
    pub fn insert(&mut self, k: String, v: V)
        requires
            old(self).wf(),
        ensures
            final(self).wf(),
            final(self)@ == old(self)@.insert(k@, v),
            final(self).keys() == if old(self)@.dom().contains(k@) {
                old(self).keys()
            } else {
                old(self).keys().push(k@)
            },
    {
        let i: usize = self.position(k.as_str());
        if i < self.entries.len() {
            *self.value_mut(i) = v;
        } else {
            let ghost key = k@;
            self.entries.push((k, v));
            proof {
                let before = old(self).keys();
                assert(self.keys() =~= before.push(key));
                assert(self.keys().last() == key);
                assert forall|q: Seq<char>| before.contains(q) implies #[trigger] self.keys().contains(q)
                    && self.keys().index_of(q) == before.index_of(q) by {
                    let j = before.index_of(q);
                    assert(self.keys()[j] == q);
                }
                assert(self.keys().index_of(key) == before.len());
                assert forall|q: Seq<char>| #[trigger] self.keys().contains(q) implies before.contains(q)
                    || q == key by {
                    let j = self.keys().index_of(q);
                    if j < before.len() {
                        assert(before[j] == q);
                    }
                }
                assert(self@ =~= old(self)@.insert(key, v));
            }
        }
    }
}

/// The sum of the numbers that `m` has under `keys`.
pub open spec fn sum_of(m: Map<Seq<char>, usize>, keys: Seq<Seq<char>>) -> nat
    decreases keys.len(),
{
    if keys.len() == 0 {
        0
    } else {
        sum_of(m, keys.drop_last()) + m[keys.last()] as nat
    }
}

/// The sum over more keys is no smaller, and includes each number on the way.
proof fn lemma_sum_of(m: Map<Seq<char>, usize>, keys: Seq<Seq<char>>, k: int)
    requires
        0 <= k < keys.len(),
    ensures
        sum_of(m, keys.take(k)) + m[keys[k]] == sum_of(m, keys.take(k + 1)),
        sum_of(m, keys.take(k + 1)) <= sum_of(m, keys),
    decreases keys.len() - k,
{
    let long = keys.take(k + 1);
    assert(long.drop_last() =~= keys.take(k));
    assert(long.last() == keys[k]);
    if k + 1 < keys.len() {
        lemma_sum_of(m, keys, k + 1);
    } else {
        assert(long =~= keys);
    }
}

impl StrMap<usize> {
    /// The sum of all numbers.
    pub open spec fn total(&self) -> nat {
        sum_of(self@, self.keys())
    }

    /// No number is larger than the sum of all.
    pub proof fn lemma_count_within_total(&self, k: Seq<char>)
        requires
            self.wf(),
        ensures
            count_of(self@, k) <= self.total(),
    {
        if self@.dom().contains(k) {
            let i = self.keys().index_of(k);
            lemma_sum_of(self@, self.keys(), i);
        }
    }

    /// The sum of all numbers, if it fits.
    pub fn checked_total(&self) -> (r: Option<usize>)
        requires
            self.wf(),
        ensures
            r is Some <==> self.total() <= usize::MAX,
            r is Some ==> r->0 == self.total(),
    {
        let ghost keys = self.keys();
        let mut sum: usize = 0;
        let mut i: usize = 0;
        while i < self.len()
            invariant
                i <= keys.len(),
                keys == self.keys(),
                self.wf(),
                sum == sum_of(self@, keys.take(i as int)),
            decreases keys.len() - i,
        {
            proof {
                lemma_sum_of(self@, keys, i as int);
            }
            match sum.checked_add(*self.value_at(i)) {
                Some(more) => {
                    sum = more;
                },
                None => {
                    return None;
                },
            }
            i += 1;
        }
        assert(keys.take(i as int) =~= keys);
        Some(sum)
    }

    /// The number stored under `k`, or zero.
    pub fn count(&self, k: &str) -> (n: usize)
        requires
            self.wf(),
        ensures
            n == count_of(self@, k@),
    {
        match self.get(k) {
            Some(n) => *n,
            None => 0,
        }
    }

    /// Adds one to the number stored under `k`, which starts at zero.
    pub fn bump(&mut self, k: &str)
        requires
            old(self).wf(),
            count_of(old(self)@, k@) < usize::MAX,
        ensures
            final(self).wf(),
            final(self)@ == old(self)@.insert(k@, (count_of(old(self)@, k@) + 1) as usize),
    {
        let n: usize = self.count(k);
        self.insert(k.to_owned(), n + 1);
    }

    /// Takes one from the number stored under `k`, not below zero. Without an entry for `k`
    /// nothing changes.
    pub fn drop_one(&mut self, k: &str)
        requires
            old(self).wf(),
        ensures
            final(self).wf(),
            final(self)@ == if old(self)@.dom().contains(k@) {
                old(self)@.insert(k@, less_one(old(self)@[k@]))
            } else {
                old(self)@
            },
    {
        let i: usize = self.position(k);
        if i < self.entries.len() {
            let n: usize = *self.value_at(i);
            *self.value_mut(i) = n.saturating_sub(1);
        }
    }
}

/// One less, not below zero.
pub open spec fn less_one(n: usize) -> usize {
    if n == 0 {
        0
    } else {
        (n - 1) as usize
    }
}

/// A set of texts in insertion order.
#[derive(Clone, Debug)]
pub struct StrSet {
    items: Vec<String>,
}

impl View for StrSet {
    type V = Set<Seq<char>>;

    closed spec fn view(&self) -> Set<Seq<char>> {
        texts(self.items@).to_set()
    }
}

impl StrSet {
    /// The members, in insertion order.
    pub closed spec fn members(&self) -> Seq<Seq<char>> {
        texts(self.items@)
    }

    /// No member occurs twice.
    pub closed spec fn wf(&self) -> bool {
        self.members().no_duplicates()
    }

    /// The listed members of a well-formed set are distinct and make up the set.
    pub proof fn lemma_members(&self)
        requires
            self.wf(),
        ensures
            self.members().no_duplicates(),
            self@ == self.members().to_set(),
    {
    }

    pub fn new() -> (s: Self)
        ensures
            s.wf(),
            s@ == Set::<Seq<char>>::empty(),
            s.members() == Seq::<Seq<char>>::empty(),
    {
        let s = StrSet { items: Vec::new() };
        assert(s.members() =~= Seq::<Seq<char>>::empty());
        assert(s@ =~= Set::<Seq<char>>::empty());
        s
    }

    /// The number of members.
    pub fn len(&self) -> (n: usize)
        ensures
            n == self.members().len(),
    {
        self.items.len()
    }

    /// The member at place `i`.
    pub fn at(&self, i: usize) -> (t: &String)
        requires
            i < self.members().len(),
        ensures
            t@ == self.members()[i as int],
    {
        &self.items[i]
    }

    pub fn contains(&self, t: &str) -> (r: bool)
        ensures
            r == self@.contains(t@),
    {
        list_contains(&self.items, t)
    }

    /// Adds `t`, if it is not a member yet.
    pub fn insert(&mut self, t: String)
        requires
            old(self).wf(),
        ensures
            final(self).wf(),
            final(self)@ == old(self)@.insert(t@),
            final(self).members() == if old(self)@.contains(t@) {
                old(self).members()
            } else {
                old(self).members().push(t@)
            },
    {
        if self.contains(t.as_str()) {
            assert(old(self)@.insert(t@) =~= old(self)@);
        } else {
            let ghost item = t@;
            self.items.push(t);
            proof {
                let before = old(self).members();
                assert(self.members() =~= before.push(item));
                lemma_push_members(before, item);
            }
        }
    }
}

} // verus!
