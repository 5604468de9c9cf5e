//! Maps, sets and counters keyed by text.

use crate::strmap::{StrMap, StrSet};
use vstd::prelude::*;

verus! {

/// A new map holds nothing.
pub proof fn law_new_map_is_empty<V>(m: StrMap<V>, k: &str, r: Option<&V>)
    requires
        call_ensures(StrMap::<V>::new, (), m),
        call_ensures(StrMap::<V>::get, (&m, k), r),
    ensures
        r is None,
{
}

/// What was stored under a key is found there, and nothing else changes.
pub proof fn law_insert_then_get<V>(
    m: &mut StrMap<V>,
    k: String,
    v: V,
    q: &str,
    before: Option<&V>,
    after: Option<&V>,
)
    requires
        call_ensures(StrMap::<V>::insert, (m, k, v), ()),
        call_ensures(StrMap::<V>::get, (&*old(m), q), before),
        call_ensures(StrMap::<V>::get, (&*final(m), q), after),
    ensures
        q@ == k@ ==> after is Some && *after->0 == v,
        q@ != k@ ==> (after is Some <==> before is Some),
        q@ != k@ && before is Some ==> *after->0 == *before->0,
{
}

/// Counting once more adds one to that count, and to no other.
pub proof fn law_bump(m: &mut StrMap<usize>, k: &str, q: &str, before: usize, after: usize)
    requires
        call_ensures(StrMap::<usize>::bump, (m, k), ()),
        call_ensures(StrMap::<usize>::count, (&*old(m), q), before),
        call_ensures(StrMap::<usize>::count, (&*final(m), q), after),
        before < usize::MAX,
    ensures
        q@ == k@ ==> after == before + 1,
        q@ != k@ ==> after == before,
{
}

/// Counting back takes one from that count unless it is zero, and from no other.
pub proof fn law_drop_one(m: &mut StrMap<usize>, k: &str, q: &str, before: usize, after: usize)
    requires
        call_ensures(StrMap::<usize>::drop_one, (m, k), ()),
        call_ensures(StrMap::<usize>::count, (&*old(m), q), before),
        call_ensures(StrMap::<usize>::count, (&*final(m), q), after),
    ensures
        q@ == k@ && before > 0 ==> after == before - 1,
        q@ == k@ && before == 0 ==> after == 0,
        q@ != k@ ==> after == before,
{
}

/// A count is the stored number, and zero where none is stored.
pub proof fn law_count(m: &StrMap<usize>, k: &str, stored: Option<&usize>, r: usize)
    requires
        call_ensures(StrMap::<usize>::get, (m, k), stored),
        call_ensures(StrMap::<usize>::count, (m, k), r),
    ensures
        stored matches Some(n) ==> r == *n,
        stored is None ==> r == 0,
{
}

/// The sum of the first `n` numbers of a map.
pub open spec fn sum_before(m: StrMap<usize>, n: int) -> int
    decreases n,
{
    if n <= 0 {
        0
    } else {
        sum_before(m, n - 1) + m@[m.keys()[n - 1]]
    }
}

proof fn lemma_sum_before(m: StrMap<usize>, n: int)
    requires
        0 <= n <= m.keys().len(),
    ensures
        crate::strmap::sum_of(m@, m.keys().take(n)) == sum_before(m, n),
    decreases n,
{
    if n > 0 {
        let keys = m.keys().take(n);
        assert(keys.drop_last() =~= m.keys().take(n - 1));
        assert(keys.last() == m.keys()[n - 1]);
        lemma_sum_before(m, n - 1);
    }
}

pub proof fn lemma_total(m: StrMap<usize>)
    ensures
        m.total() == sum_before(m, m.keys().len() as int),
{
    let n = m.keys().len() as int;
    lemma_sum_before(m, n);
    assert(m.keys().take(n) =~= m.keys());
}

/// The total is the sum of all numbers, each counted once, and is given whenever it fits.
pub proof fn law_checked_total(m: &StrMap<usize>, r: Option<usize>)
    requires
        call_ensures(StrMap::<usize>::checked_total, (m,), r),
    ensures
        r is Some <==> sum_before(*m, m.keys().len() as int) <= usize::MAX,
        r is Some ==> r->0 == sum_before(*m, m.keys().len() as int),
{
    lemma_total(*m);
}

/// The entries of a map are what is found under their keys, one for each key.
pub proof fn law_entries(
    m: &StrMap<usize>,
    i: usize,
    j: usize,
    key: &String,
    other: &String,
    value: &usize,
    found: Option<&usize>,
    k: &str,
)
    requires
        m.wf(),
        i < m.keys().len(),
        j < m.keys().len(),
        call_ensures(StrMap::<usize>::key_at, (m, i), key),
        call_ensures(StrMap::<usize>::key_at, (m, j), other),
        call_ensures(StrMap::<usize>::value_at, (m, i), value),
        k@ == key@,
        call_ensures(StrMap::<usize>::get, (m, k), found),
    ensures
        found is Some,
        *found->0 == *value,
        i != j ==> key@ != other@,
{
    m.lemma_keys();
}

/// A new set has no members.
pub proof fn law_new_set_is_empty(s: StrSet, t: &str, r: bool)
    requires
        call_ensures(StrSet::new, (), s),
        call_ensures(StrSet::contains, (&s, t), r),
    ensures
        !r,
{
}

/// What was added is a member, and no other text becomes one or ceases to be one.
pub proof fn law_insert_then_contains(
    s: &mut StrSet,
    t: String,
    q: &str,
    before: bool,
    after: bool,
)
    requires
        call_ensures(StrSet::insert, (s, t), ()),
        call_ensures(StrSet::contains, (&*old(s), q), before),
        call_ensures(StrSet::contains, (&*final(s), q), after),
    ensures
        after <==> before || q@ == t@,
{
}

} // verus!
