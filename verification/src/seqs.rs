//! Lemmas on searching and filtering sequences.

use vstd::prelude::*;

verus! {

/// The index of the first item of `s` that satisfies `p`, or `s.len()` when none does.
pub open spec fn first_index<A>(s: Seq<A>, p: spec_fn(A) -> bool) -> int
    decreases s.len(),
{
    if s.len() == 0 || p(s[0]) {
        0
    } else {
        1 + first_index(s.drop_first(), p)
    }
}

/// `first_index` is the only index with no match before it and, inside the sequence, a match at it.
pub proof fn lemma_first_index<A>(s: Seq<A>, p: spec_fn(A) -> bool, k: int)
    requires
        0 <= k <= s.len(),
        forall|j: int| 0 <= j < k ==> !p(#[trigger] s[j]),
        k < s.len() ==> p(s[k]),
    ensures
        first_index(s, p) == k,
    decreases s.len(),
{
    if k > 0 {
        assert(!p(s[0]));
        let t = s.drop_first();
        assert forall|j: int| 0 <= j < k - 1 implies !p(#[trigger] t[j]) by {
            assert(t[j] == s[j + 1]);
        }
        if k < s.len() {
            assert(t[k - 1] == s[k]);
        }
        lemma_first_index(t, p, k - 1);
    }
}

/// What `first_index` promises of its own result.
pub proof fn lemma_first_index_props<A>(s: Seq<A>, p: spec_fn(A) -> bool)
    ensures
        0 <= first_index(s, p) <= s.len(),
        forall|j: int| 0 <= j < first_index(s, p) ==> !p(#[trigger] s[j]),
        first_index(s, p) < s.len() ==> p(s[first_index(s, p)]),
    decreases s.len(),
{
    if s.len() == 0 || p(s[0]) {
    } else {
        let t = s.drop_first();
        lemma_first_index_props(t, p);
        assert forall|j: int| 0 <= j < first_index(s, p) implies !p(#[trigger] s[j]) by {
            if j > 0 {
                assert(t[j - 1] == s[j]);
            }
        }
    }
}

/// One more item at the end of a filtered sequence.
pub proof fn lemma_filter_push<A>(s: Seq<A>, p: spec_fn(A) -> bool, k: int)
    requires
        0 <= k < s.len(),
    ensures
        s.take(k + 1).filter(p) == if p(s[k]) {
            s.take(k).filter(p).push(s[k])
        } else {
            s.take(k).filter(p)
        },
{
    reveal(Seq::filter);
    assert(s.take(k + 1).drop_last() =~= s.take(k));
    assert(s.take(k + 1).last() == s[k]);
}

/// A pushed item joins the members.
pub proof fn lemma_push_members<A>(s: Seq<A>, x: A)
    ensures
        forall|y: A| #[trigger] s.push(x).contains(y) <==> s.contains(y) || y == x,
        s.push(x).to_set() == s.to_set().insert(x),
{
    let t = s.push(x);
    assert forall|y: A| #[trigger] t.contains(y) <==> s.contains(y) || y == x by {
        if s.contains(y) {
            let j = s.index_of(y);
            assert(t[j] == y);
        }
        if y == x {
            assert(t[s.len() as int] == y);
        }
        if t.contains(y) && y != x {
            let j = t.index_of(y);
            assert(s[j] == y);
        }
    }
    assert(t.to_set() =~= s.to_set().insert(x));
}

/// Whether each item of `s` comes before all the items after it.
pub open spec fn ordered_by<A>(s: Seq<A>, before: spec_fn(A, A) -> bool) -> bool {
    forall|i: int, j: int| 0 <= i < j < s.len() ==> before(#[trigger] s[i], #[trigger] s[j])
}

/// What remains of an ordered sequence behind its first item, which occurs only once.
proof fn lemma_ordered_rest<A>(s: Seq<A>, before: spec_fn(A, A) -> bool)
    requires
        s.len() > 0,
        ordered_by(s, before),
        forall|x: A, y: A| !(#[trigger] before(x, y) && before(y, x)),
    ensures
        ordered_by(s.drop_first(), before),
        s.drop_first().to_set() == s.to_set().remove(s[0]),
{
    let t = s.drop_first();
    assert forall|i: int, j: int| 0 <= i < j < t.len() implies before(
        #[trigger] t[i],
        #[trigger] t[j],
    ) by {
        assert(before(s[i + 1], s[j + 1]));
    }
    assert forall|y: A| t.to_set().contains(y) <==> #[trigger] s.to_set().remove(s[0]).contains(y) by {
        if t.contains(y) {
            let j = t.index_of(y);
            assert(s[j + 1] == y);
            assert(before(s[0], s[j + 1]));
        }
        if s.contains(y) && y != s[0] {
            let j = s.index_of(y);
            assert(t[j - 1] == y);
        }
    }
    assert(t.to_set() =~= s.to_set().remove(s[0]));
}

/// The members of a set can be put in order in at most one way.
pub proof fn lemma_one_order<A>(a: Seq<A>, b: Seq<A>, before: spec_fn(A, A) -> bool)
    requires
        ordered_by(a, before),
        ordered_by(b, before),
        a.to_set() == b.to_set(),
        forall|x: A, y: A| !(#[trigger] before(x, y) && before(y, x)),
    ensures
        a == b,
    decreases a.len(),
{
    if a.len() == 0 {
        if b.len() > 0 {
            assert(b.to_set().contains(b[0]));
        }
        assert(a =~= b);
    } else {
        assert(a.to_set().contains(a[0]));
        let k = b.index_of(a[0]);
        assert(b.to_set().contains(b[0]));
        let m = a.index_of(b[0]);
        assert(a[0] == b[0]) by {
            if k > 0 && m > 0 {
                assert(before(b[0], b[k]));
                assert(before(a[0], a[m]));
            }
        }
        lemma_ordered_rest(a, before);
        lemma_ordered_rest(b, before);
        lemma_one_order(a.drop_first(), b.drop_first(), before);
        assert(a =~= seq![a[0]] + a.drop_first());
        assert(b =~= seq![b[0]] + b.drop_first());
    }
}

/// An item put between those before it and those after it.
pub proof fn lemma_insert_ordered<A>(s: Seq<A>, i: int, x: A, before: spec_fn(A, A) -> bool)
    requires
        0 <= i <= s.len(),
        ordered_by(s, before),
        forall|j: int| 0 <= j < i ==> before(#[trigger] s[j], x),
        forall|j: int| i <= j < s.len() ==> before(x, #[trigger] s[j]),
    ensures
        ordered_by(s.insert(i, x), before),
        forall|y: A| #[trigger] s.insert(i, x).contains(y) <==> s.contains(y) || y == x,
        s.insert(i, x).to_set() == s.to_set().insert(x),
{
    let t = s.insert(i, x);
    assert forall|p: int, q: int| 0 <= p < q < t.len() implies before(
        #[trigger] t[p],
        #[trigger] t[q],
    ) by {
        if p < i {
            assert(t[p] == s[p]);
            if q > i {
                assert(t[q] == s[q - 1]);
            } else if q < i {
                assert(t[q] == s[q]);
            }
        } else {
            assert(t[q] == s[q - 1]);
            if p > i {
                assert(t[p] == s[p - 1]);
            }
        }
    }
    assert forall|y: A| #[trigger] t.contains(y) <==> s.contains(y) || y == x by {
        if s.contains(y) {
            let j = s.index_of(y);
            if j < i {
                assert(t[j] == y);
            } else {
                assert(t[j + 1] == y);
            }
        }
        if y == x {
            assert(t[i] == y);
        }
        if t.contains(y) {
            let j = t.index_of(y);
            if j < i {
                assert(s[j] == y);
            } else if j > i {
                assert(s[j - 1] == y);
            }
        }
    }
    assert(t.to_set() =~= s.to_set().insert(x));
}

/// The members of a finite set can be put in order.
pub proof fn lemma_order_exists<A>(set: Set<A>, before: spec_fn(A, A) -> bool)
    requires
        set.finite(),
        forall|x: A, y: A, z: A| #[trigger] before(x, y) && #[trigger] before(y, z) ==> before(x, z),
        forall|x: A, y: A| x != y ==> #[trigger] before(x, y) || before(y, x),
    ensures
        exists|s: Seq<A>| s.to_set() == set && #[trigger] ordered_by(s, before),
    decreases set.len(),
{
    if set.len() == 0 {
        let s = Seq::<A>::empty();
        assert(s.to_set() =~= set);
        assert(ordered_by(s, before));
    } else {
        let x = set.choose();
        lemma_order_exists(set.remove(x), before);
        let s = choose|s: Seq<A>| s.to_set() == set.remove(x) && #[trigger] ordered_by(s, before);
        let later = |y: A| !before(y, x);
        let i = first_index(s, later);
        lemma_first_index_props(s, later);
        assert forall|j: int| 0 <= j < i implies before(#[trigger] s[j], x) by {
            assert(!later(s[j]));
        }
        assert forall|j: int| i <= j < s.len() implies before(x, #[trigger] s[j]) by {
            assert(later(s[i]));
            assert(s.to_set().contains(s[i]));
            assert(before(x, s[i]));
            if j > i {
                assert(before(s[i], s[j]));
            }
        }
        lemma_insert_ordered(s, i, x, before);
        assert(set.remove(x).insert(x) =~= set);
        assert(s.insert(i, x).to_set() == set);
    }
}

/// A filter that everything passes changes nothing.
pub proof fn lemma_filter_all<A>(s: Seq<A>, p: spec_fn(A) -> bool)
    requires
        forall|i: int| 0 <= i < s.len() ==> p(#[trigger] s[i]),
    ensures
        s.filter(p) == s,
    decreases s.len(),
{
    reveal(Seq::filter);
    if s.len() > 0 {
        let t = s.drop_last();
        assert forall|i: int| 0 <= i < t.len() implies p(#[trigger] t[i]) by {
            assert(t[i] == s[i]);
        }
        lemma_filter_all(t, p);
        assert(p(s[s.len() - 1]));
        assert(t.push(s.last()) =~= s);
    } else {
        assert(s.filter(p) =~= s);
    }
}

} // verus!
