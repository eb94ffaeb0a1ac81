//! Stable sorting of values by an integer rank.

use vstd::prelude::*;

verus! {

/// A value with a rank to sort by.
pub trait Ranked: DeepView + Sized {
    /// The rank of what a value says.
    spec fn rank(v: Self::V) -> int;

    /// The rank of the value.
    fn rank_of(&self) -> (r: u64)
        ensures
            r == Self::rank(self.deep_view()),
    ;
}

/// Whether a value has a given rank.
pub open spec fn has_rank<T: Ranked>(k: int) -> spec_fn(T::V) -> bool {
    |v: T::V| T::rank(v) == k
}

/// The values of a given rank, in order.
pub open spec fn of_rank<T: Ranked>(s: Seq<T::V>, k: int) -> Seq<T::V> {
    s.filter(has_rank::<T>(k))
}

/// Whether ranks never fall along a sequence.
pub open spec fn is_sorted<T: Ranked>(s: Seq<T::V>) -> bool {
    forall|i: int, j: int|
        0 <= i < j < s.len() ==> T::rank(#[trigger] s[i]) <= T::rank(#[trigger] s[j])
}

/// Whether one sequence is the other sorted by rank, with the values of each
/// rank kept in the order they had.
pub open spec fn is_stable_sort<T: Ranked>(before: Seq<T::V>, after: Seq<T::V>) -> bool {
    &&& is_sorted::<T>(after)
    &&& forall|k: int| #[trigger] of_rank::<T>(after, k) == of_rank::<T>(before, k)
}

/// Moving a value ahead of values of other ranks changes no rank's values.
proof fn lemma_move_ahead<T: Ranked>(a: Seq<T::V>, b: Seq<T::V>, x: T::V, c: Seq<T::V>, k: int)
    requires
        forall|i: int| 0 <= i < b.len() ==> T::rank(#[trigger] b[i]) != T::rank(x),
    ensures
        of_rank::<T>(a + b + seq![x] + c, k) == of_rank::<T>(a + seq![x] + b + c, k),
{
    let p = has_rank::<T>(k);
    let one = seq![x];
    Seq::filter_distributes_over_add(a + b + one, c, p);
    Seq::filter_distributes_over_add(a + b, one, p);
    Seq::filter_distributes_over_add(a, b, p);
    Seq::filter_distributes_over_add(a + one + b, c, p);
    Seq::filter_distributes_over_add(a + one, b, p);
    Seq::filter_distributes_over_add(a, one, p);
    if p(x) {
        assert(b.filter(p).len() == 0) by {
            if b.filter(p).len() > 0 {
                b.lemma_filter_pred(p, 0);
                let v = b.filter(p)[0];
                assert(p(v));
                b.lemma_filter_contains_rev(p, v);
                let i = choose|i: int| 0 <= i < b.len() && b[i] == v;
                assert(T::rank(b[i]) != T::rank(x));
            }
        }
    } else {
        assert(one.filter(p).len() == 0) by {
            if one.filter(p).len() > 0 {
                one.lemma_filter_pred(p, 0);
                let v = one.filter(p)[0];
                assert(p(v));
                one.lemma_filter_contains_rev(p, v);
                let i = choose|i: int| 0 <= i < one.len() && one[i] == v;
                assert(one[i] == x);
            }
        }
    }
    assert((a + b + one + c).filter(p) =~= (a + one + b + c).filter(p));
}

/// Sort by rank, stably.
pub fn stable_sort<T: Ranked>(items: &mut Vec<T>)
    ensures
        is_stable_sort::<T>(old(items).deep_view(), final(items).deep_view()),
{
    let ghost before = items.deep_view();
    let n: usize = items.len();
    let mut i: usize = 0;
    while i < n
        invariant
            i <= n == items@.len(),
            forall|k: int|
                #[trigger] of_rank::<T>(items.deep_view(), k) == of_rank::<T>(before, k),
            is_sorted::<T>(items.deep_view().take(i as int)),
        decreases n - i,
    {
        let ghost current = items.deep_view();
        let ghost sorted = current.take(i as int);
        let item = items.remove(i);
        let ghost x = item.deep_view();
        let rank: u64 = item.rank_of();
        let ghost rest = items.deep_view();
        assert(rest =~= current.remove(i as int));
        let mut j: usize = i;
        while j > 0 && items[j - 1].rank_of() > rank
            invariant
                j <= i < n,
                items@.len() == n - 1,
                items.deep_view() == rest,
                rank == T::rank(x),
                forall|m: int| j <= m < i ==> T::rank(#[trigger] rest[m]) > rank,
            decreases j,
        {
            j -= 1;
        }
        items.insert(j, item);
        proof {
            let a = current.take(j as int);
            let b = current.subrange(j as int, i as int);
            let c = current.skip(i + 1);
            let next = items.deep_view();
            assert(current =~= a + b + seq![x] + c);
            assert(next =~= a + seq![x] + b + c);
            assert forall|m: int| 0 <= m < b.len() implies T::rank(#[trigger] b[m]) != T::rank(
                x,
            ) by {
                assert(b[m] == rest[j + m]);
            }
            assert forall|k: int| #[trigger]
                of_rank::<T>(next, k) == of_rank::<T>(before, k) by {
                lemma_move_ahead::<T>(a, b, x, c, k);
                assert(of_rank::<T>(current, k) == of_rank::<T>(before, k));
            }
            let grown = next.take(i + 1);
            assert forall|p: int, q: int| 0 <= p < q < grown.len() implies T::rank(
                #[trigger] grown[p],
            ) <= T::rank(#[trigger] grown[q]) by {
                let sp = if p < j {
                    p
                } else {
                    p - 1
                };
                let sq = if q < j {
                    q
                } else {
                    q - 1
                };
                if p == j {
                    assert(grown[q] == rest[q - 1]);
                } else if q == j {
                    assert(grown[p] == sorted[p]);
                    if j > 0 {
                        assert(sorted[j - 1] == rest[j - 1]);
                        assert(p < j - 1 ==> T::rank(sorted[p]) <= T::rank(sorted[j - 1]));
                    }
                } else {
                    assert(grown[p] == sorted[sp]);
                    assert(grown[q] == sorted[sq]);
                }
            }
        }
        i += 1;
    }
    assert(items.deep_view().take(n as int) =~= items.deep_view());
}

/// A rank's first value comes from the sequence's start where the start has it.
proof fn lemma_of_rank_first<T: Ranked>(s: Seq<T::V>, k: int)
    requires
        s.len() > 0,
    ensures
        T::rank(s[0]) == k ==> of_rank::<T>(s, k) == seq![s[0]] + of_rank::<T>(s.drop_first(), k),
        T::rank(s[0]) != k ==> of_rank::<T>(s, k) == of_rank::<T>(s.drop_first(), k),
{
    let p = has_rank::<T>(k);
    s.lemma_filter_eq_filter_alt(p);
}

/// Sorted sequences with the same values of each rank are the same.
proof fn lemma_sorted_same<T: Ranked>(s: Seq<T::V>, t: Seq<T::V>)
    requires
        is_sorted::<T>(s),
        is_sorted::<T>(t),
        forall|k: int| #[trigger] of_rank::<T>(s, k) == of_rank::<T>(t, k),
    ensures
        s == t,
    decreases s.len(),
{
    if s.len() == 0 {
        if t.len() > 0 {
            let k = T::rank(t[0]);
            lemma_of_rank_first::<T>(t, k);
            assert(of_rank::<T>(s, k) == of_rank::<T>(t, k));
            assert(of_rank::<T>(s, k).len() == 0);
        }
        assert(s =~= t);
    } else if t.len() == 0 {
        let k = T::rank(s[0]);
        lemma_of_rank_first::<T>(s, k);
        assert(of_rank::<T>(s, k) == of_rank::<T>(t, k));
        assert(of_rank::<T>(t, k).len() == 0);
    } else {
        lemma_first_rank::<T>(s, t);
        lemma_first_rank::<T>(t, s);
        let k = T::rank(s[0]);
        lemma_of_rank_first::<T>(s, k);
        lemma_of_rank_first::<T>(t, k);
        assert(of_rank::<T>(s, k) == of_rank::<T>(t, k));
        assert(of_rank::<T>(s, k)[0] == s[0]);
        assert(of_rank::<T>(t, k)[0] == t[0]);
        let s2 = s.drop_first();
        let t2 = t.drop_first();
        assert forall|m: int| #[trigger] of_rank::<T>(s2, m) == of_rank::<T>(t2, m) by {
            lemma_of_rank_first::<T>(s, m);
            lemma_of_rank_first::<T>(t, m);
            assert(of_rank::<T>(s, m) == of_rank::<T>(t, m));
            if m == k {
                assert(of_rank::<T>(s, m).drop_first() =~= of_rank::<T>(s2, m));
                assert(of_rank::<T>(t, m).drop_first() =~= of_rank::<T>(t2, m));
            }
        }
        assert forall|i: int, j: int| 0 <= i < j < s2.len() implies T::rank(#[trigger] s2[i])
            <= T::rank(#[trigger] s2[j]) by {
            assert(s2[i] == s[i + 1] && s2[j] == s[j + 1]);
        }
        assert forall|i: int, j: int| 0 <= i < j < t2.len() implies T::rank(#[trigger] t2[i])
            <= T::rank(#[trigger] t2[j]) by {
            assert(t2[i] == t[i + 1] && t2[j] == t[j + 1]);
        }
        lemma_sorted_same::<T>(s2, t2);
        assert(s =~= seq![s[0]] + s2);
        assert(t =~= seq![t[0]] + t2);
    }
}

/// The first of a sorted sequence has no higher rank than the first of another
/// that holds the same values.
proof fn lemma_first_rank<T: Ranked>(s: Seq<T::V>, t: Seq<T::V>)
    requires
        s.len() > 0,
        t.len() > 0,
        is_sorted::<T>(s),
        forall|k: int| #[trigger] of_rank::<T>(s, k) == of_rank::<T>(t, k),
    ensures
        T::rank(s[0]) <= T::rank(t[0]),
{
    let k = T::rank(t[0]);
    let p = has_rank::<T>(k);
    lemma_of_rank_first::<T>(t, k);
    assert(of_rank::<T>(s, k) == of_rank::<T>(t, k));
    let v = of_rank::<T>(s, k)[0];
    s.lemma_filter_pred(p, 0);
    assert(p(v));
    s.lemma_filter_contains_rev(p, v);
    let i = choose|i: int| 0 <= i < s.len() && s[i] == v;
    assert(T::rank(s[0]) <= T::rank(s[i]));
}

/// A stable sort is determined by the values of each rank: sequences that agree
/// on those sort to the same sequence, however they interleave the ranks.
pub proof fn stable_sort_is_determined<T: Ranked>(
    a: Seq<T::V>,
    b: Seq<T::V>,
    sorted_a: Seq<T::V>,
    sorted_b: Seq<T::V>,
)
    requires
        is_stable_sort::<T>(a, sorted_a),
        is_stable_sort::<T>(b, sorted_b),
        forall|k: int| #[trigger] of_rank::<T>(a, k) == of_rank::<T>(b, k),
    ensures
        sorted_a == sorted_b,
{
    assert forall|k: int| #[trigger] of_rank::<T>(sorted_a, k) == of_rank::<T>(sorted_b, k) by {
        assert(of_rank::<T>(a, k) == of_rank::<T>(b, k));
    }
    lemma_sorted_same::<T>(sorted_a, sorted_b);
}

/// A stable sort holds what the sorted sequence held.
pub proof fn stable_sort_keeps_values<T: Ranked>(before: Seq<T::V>, after: Seq<T::V>, v: T::V)
    requires
        is_stable_sort::<T>(before, after),
    ensures
        after.contains(v) <==> before.contains(v),
{
    let k = T::rank(v);
    let p = has_rank::<T>(k);
    assert(of_rank::<T>(after, k) == of_rank::<T>(before, k));
    if after.contains(v) {
        let i = choose|i: int| 0 <= i < after.len() && after[i] == v;
        after.lemma_filter_contains(p, i);
        before.lemma_filter_contains_rev(p, v);
    }
    if before.contains(v) {
        let i = choose|i: int| 0 <= i < before.len() && before[i] == v;
        before.lemma_filter_contains(p, i);
        after.lemma_filter_contains_rev(p, v);
    }
}

} // verus!
