//! Stable sorting, for anything with a rank.

use vstd::prelude::*;

verus! {

/// Values put in order by a rank; two values of one rank keep the order they came in.
pub trait Ranked: View + Sized {
    /// Whether `a` ranks before `b`, or with it.
    spec fn le(a: Self::V, b: Self::V) -> bool;

    proof fn le_total(a: Self::V, b: Self::V)
        ensures
            Self::le(a, b) || Self::le(b, a),
    ;

    proof fn le_transitive(a: Self::V, b: Self::V, c: Self::V)
        requires
            Self::le(a, b),
            Self::le(b, c),
        ensures
            Self::le(a, c),
    ;

    fn not_after(&self, other: &Self) -> (r: bool)
        ensures
            r == Self::le(self@, other@),
    ;
}

/// The view of each element.
pub open spec fn views_of<T: View>(s: Seq<T>) -> Seq<T::V> {
    Seq::new(s.len(), |i: int| s[i]@)
}

/// Whether `y` has the rank of `x`.
pub open spec fn same_rank<T: Ranked>(x: T::V) -> spec_fn(T::V) -> bool {
    |y: T::V| T::le(x, y) && T::le(y, x)
}

/// Every element ranks before, or with, each that follows it.
pub open spec fn in_order<T: Ranked>(s: Seq<T::V>) -> bool {
    forall|i: int, j: int| 0 <= i < j < s.len() ==> T::le(#[trigger] s[i], #[trigger] s[j])
}

/// `output` is `input` in order, with the elements of each rank as they stood in `input`.
pub open spec fn stable_sort_of<T: Ranked>(input: Seq<T::V>, output: Seq<T::V>) -> bool {
    &&& in_order::<T>(output)
    &&& forall|x: T::V| #[trigger]
        output.filter(same_rank::<T>(x)) == input.filter(same_rank::<T>(x))
}

/// A filter that nothing passes leaves nothing.
pub proof fn lemma_filter_none<A>(s: Seq<A>, p: spec_fn(A) -> bool)
    requires
        forall|i: int| 0 <= i < s.len() ==> !p(#[trigger] s[i]),
    ensures
        s.filter(p) == Seq::<A>::empty(),
    decreases s.len(),
{
    reveal(Seq::filter);
    if s.len() > 0 {
        assert(!p(s[s.len() - 1]));
        assert forall|i: int| 0 <= i < s.drop_last().len() implies !p(
            #[trigger] s.drop_last()[i],
        ) by {
            assert(!p(s[i]));
        }
        lemma_filter_none(s.drop_last(), p);
    }
}

proof fn lemma_filter_one<A>(a: A, p: spec_fn(A) -> bool)
    ensures
        seq![a].filter(p) == if p(a) {
            seq![a]
        } else {
            seq![]
        },
{
    reveal(Seq::filter);
    assert(seq![a].drop_last() =~= seq![]);
    assert(Seq::<A>::empty().filter(p) =~= seq![]);
    assert(seq![a].filter(p) =~= if p(a) {
        seq![a]
    } else {
        seq![]
    });
}

/// Moving an element to the front of a run that ranks after it keeps each rank's elements as
/// they stood.
proof fn lemma_move_keeps_ranks<T: Ranked>(s: Seq<T::V>, i: int, j: int)
    requires
        0 <= j <= i < s.len(),
        forall|k: int| j <= k < i ==> !T::le(#[trigger] s[k], s[i]),
    ensures
        forall|x: T::V| #[trigger]
            s.remove(i).insert(j, s[i]).filter(same_rank::<T>(x)) == s.filter(same_rank::<T>(x)),
{
    let y = s[i];
    let t = s.remove(i).insert(j, y);
    let a = s.take(j);
    let b = s.subrange(j, i);
    let c = s.skip(i + 1);
    assert(s =~= a + b + seq![y] + c);
    assert(t =~= a + seq![y] + b + c);
    assert forall|x: T::V| #[trigger] t.filter(same_rank::<T>(x)) == s.filter(
        same_rank::<T>(x),
    ) by {
        let p = same_rank::<T>(x);
        Seq::filter_distributes_over_add(a + b + seq![y], c, p);
        Seq::filter_distributes_over_add(a + b, seq![y], p);
        Seq::filter_distributes_over_add(a, b, p);
        Seq::filter_distributes_over_add(a + seq![y] + b, c, p);
        Seq::filter_distributes_over_add(a + seq![y], b, p);
        Seq::filter_distributes_over_add(a, seq![y], p);
        lemma_filter_one(y, p);
        if p(y) {
            assert forall|k: int| 0 <= k < b.len() implies !p(#[trigger] b[k]) by {
                assert(b[k] == s[j + k]);
                if p(b[k]) {
                    T::le_transitive(b[k], x, y);
                }
            }
            lemma_filter_none(b, p);
            assert(a.filter(p) + b.filter(p) + seq![y] =~= a.filter(p) + seq![y] + b.filter(p));
        } else {
            assert(a.filter(p) + b.filter(p) + Seq::<T::V>::empty() =~= a.filter(p)
                + Seq::<T::V>::empty() + b.filter(p));
        }
    }
}

/// Swaps the `k`-th element with the one before it.
fn swap_with_previous<T>(v: &mut [T], k: usize)
    requires
        0 < k < old(v)@.len(),
    ensures
        final(v)@ == old(v)@.update(k - 1, old(v)@[k as int]).update(k as int, old(v)@[k - 1]),
{
    let (front, back) = v.split_at_mut(k);
    if let (Some(a), Some(b)) = (front.last_mut(), back.first_mut()) {
        core::mem::swap(a, b);
    }
}

/// Sorts `v`, keeping elements of one rank in the order they came in.
pub fn stable_sort<T: Ranked>(v: &mut [T])
    ensures
        stable_sort_of::<T>(views_of(old(v)@), views_of(final(v)@)),
        final(v)@.len() == old(v)@.len(),
{
    let ghost input = views_of(v@);
    let mut i: usize = 0;
    while i < v.len()
        invariant
            i <= v@.len(),
            v@.len() == input.len(),
            input == views_of(old(v)@),
            in_order::<T>(views_of(v@).take(i as int)),
            forall|x: T::V| #[trigger]
                views_of(v@).filter(same_rank::<T>(x)) == input.filter(same_rank::<T>(x)),
        decreases v@.len() - i,
    {
        let ghost s = views_of(v@);
        let mut j: usize = i;
        assert(s.remove(i as int).insert(i as int, s[i as int]) =~= s);
        while j > 0 && !v[j - 1].not_after(&v[j])
            invariant
                j <= i < v@.len(),
                v@.len() == s.len(),
                views_of(v@) == s.remove(i as int).insert(j as int, s[i as int]),
                forall|k: int| j <= k < i ==> !T::le(#[trigger] s[k], s[i as int]),
            decreases j,
        {
            let ghost held = views_of(v@);
            assert(held[j as int] == s[i as int] && held[j - 1] == s[j - 1]);
            swap_with_previous(v, j);
            assert(views_of(v@) =~= held.update(j - 1, held[j as int]).update(
                j as int,
                held[j - 1],
            ));
            assert(views_of(v@) =~= s.remove(i as int).insert(j - 1, s[i as int]));
            j -= 1;
        }
        let ghost t = s.remove(i as int).insert(j as int, s[i as int]);
        proof {
            lemma_move_keeps_ranks::<T>(s, i as int, j as int);
            if j > 0 {
                assert(t[j - 1] == s[j - 1] && t[j as int] == s[i as int]);
            }
        }
        assert forall|a: int, b: int| 0 <= a < b < t.take(i + 1).len() implies T::le(
            #[trigger] t.take(i + 1)[a],
            #[trigger] t.take(i + 1)[b],
        ) by {
            let old_a = if a < j {
                a
            } else {
                a - 1
            };
            let old_b = if b < j {
                b
            } else {
                b - 1
            };
            let y = s[i as int];
            let sorted = s.take(i as int);
            if a == j {
                assert(t[b] == s[old_b]);
                assert(!T::le(s[old_b], y));
                T::le_total(s[old_b], y);
            } else if b == j {
                assert(t[a] == s[a]);
                if a < j - 1 {
                    assert(T::le(sorted[a], sorted[j - 1]));
                    T::le_transitive(s[a], s[j - 1], y);
                }
            } else {
                assert(t[a] == sorted[old_a]);
                assert(t[b] == sorted[old_b]);
            }
        }
        i += 1;
    }
    assert(views_of(v@).take(i as int) =~= views_of(v@));
}

proof fn lemma_filter_first<A>(s: Seq<A>, p: spec_fn(A) -> bool)
    requires
        s.len() > 0,
    ensures
        s.filter(p) == if p(s[0]) {
            seq![s[0]] + s.drop_first().filter(p)
        } else {
            s.drop_first().filter(p)
        },
{
    assert(s =~= seq![s[0]] + s.drop_first());
    Seq::filter_distributes_over_add(seq![s[0]], s.drop_first(), p);
    lemma_filter_one(s[0], p);
    assert(Seq::<A>::empty() + s.drop_first().filter(p) =~= s.drop_first().filter(p));
}

/// In sequences with the same elements of each rank, what the one holds the other holds.
proof fn lemma_shared_member<T: Ranked>(a: Seq<T::V>, b: Seq<T::V>, k: int) -> (m: int)
    requires
        forall|x: T::V| #[trigger]
            a.filter(same_rank::<T>(x)) == b.filter(same_rank::<T>(x)),
        0 <= k < a.len(),
    ensures
        0 <= m < b.len(),
        b[m] == a[k],
{
    let x = a[k];
    let p = same_rank::<T>(x);
    T::le_total(x, x);
    a.lemma_filter_contains(p, k);
    let w = choose|w: int| 0 <= w < b.filter(p).len() && b.filter(p)[w] == x;
    lemma_filter_member(b, p, w)
}

proof fn lemma_filter_member<A>(s: Seq<A>, p: spec_fn(A) -> bool, w: int) -> (m: int)
    requires
        0 <= w < s.filter(p).len(),
    ensures
        0 <= m < s.len(),
        s[m] == s.filter(p)[w],
    decreases s.len(),
{
    reveal(Seq::filter);
    let rest = s.drop_last().filter(p);
    if w < rest.len() {
        lemma_filter_member(s.drop_last(), p, w)
    } else {
        s.len() - 1
    }
}

/// There is one way to sort a sequence stably: two stable sorts of it are the same.
pub proof fn stable_sort_is_unique<T: Ranked>(input: Seq<T::V>, a: Seq<T::V>, b: Seq<T::V>)
    requires
        stable_sort_of::<T>(input, a),
        stable_sort_of::<T>(input, b),
    ensures
        a == b,
{
    assert forall|x: T::V| #[trigger]
        a.filter(same_rank::<T>(x)) == b.filter(same_rank::<T>(x)) by {
        assert(b.filter(same_rank::<T>(x)) == input.filter(same_rank::<T>(x)));
    }
    lemma_unique::<T>(a, b);
}

proof fn lemma_unique<T: Ranked>(a: Seq<T::V>, b: Seq<T::V>)
    requires
        in_order::<T>(a),
        in_order::<T>(b),
        forall|x: T::V| #[trigger]
            a.filter(same_rank::<T>(x)) == b.filter(same_rank::<T>(x)),
    ensures
        a == b,
    decreases a.len(),
{
    if a.len() == 0 {
        if b.len() > 0 {
            assert forall|x: T::V| #[trigger]
                b.filter(same_rank::<T>(x)) == a.filter(same_rank::<T>(x)) by {
                assert(a.filter(same_rank::<T>(x)) == b.filter(same_rank::<T>(x)));
            }
            let m = lemma_shared_member::<T>(b, a, 0);
        }
        assert(a =~= b);
    } else {
        let m = lemma_shared_member::<T>(a, b, 0);
        assert forall|x: T::V| #[trigger]
            b.filter(same_rank::<T>(x)) == a.filter(same_rank::<T>(x)) by {
            assert(a.filter(same_rank::<T>(x)) == b.filter(same_rank::<T>(x)));
        }
        let n = lemma_shared_member::<T>(b, a, 0);
        let x = a[0];
        let y = b[0];
        T::le_total(x, x);
        T::le_total(y, y);
        assert(T::le(x, y));
        assert(T::le(y, x));
        lemma_filter_first(a, same_rank::<T>(x));
        lemma_filter_first(b, same_rank::<T>(x));
        assert(a.filter(same_rank::<T>(x))[0] == x);
        assert(b.filter(same_rank::<T>(x))[0] == y);
        assert(x == y);
        let ta = a.drop_first();
        let tb = b.drop_first();
        assert forall|z: T::V| #[trigger]
            ta.filter(same_rank::<T>(z)) == tb.filter(same_rank::<T>(z)) by {
            let p = same_rank::<T>(z);
            lemma_filter_first(a, p);
            lemma_filter_first(b, p);
            assert(a.filter(p) == b.filter(p));
            if p(x) {
                assert(a.filter(p).drop_first() =~= ta.filter(p));
                assert(b.filter(p).drop_first() =~= tb.filter(p));
            }
        }
        lemma_unique::<T>(ta, tb);
        assert(a =~= seq![x] + ta);
        assert(b =~= seq![y] + tb);
    }
}

/// Sorting loses nothing and invents nothing.
pub proof fn sorting_keeps_every_element<T: Ranked>(input: Seq<T::V>, output: Seq<T::V>)
    requires
        stable_sort_of::<T>(input, output),
    ensures
        input.to_multiset() == output.to_multiset(),
{
    broadcast use vstd::multiset::group_multiset_axioms;

    assert forall|x: T::V| #[trigger]
        input.to_multiset().count(x) == output.to_multiset().count(x) by {
        let p = same_rank::<T>(x);
        T::le_total(x, x);
        lemma_filter_count(input, p, x);
        lemma_filter_count(output, p, x);
        assert(output.filter(p) == input.filter(p));
    }
    assert(input.to_multiset() =~= output.to_multiset());
}

proof fn lemma_filter_count<A>(s: Seq<A>, p: spec_fn(A) -> bool, x: A)
    requires
        p(x),
    ensures
        s.filter(p).to_multiset().count(x) == s.to_multiset().count(x),
    decreases s.len(),
{
    broadcast use vstd::seq_lib::group_to_multiset_ensures;

    reveal(Seq::filter);
    if s.len() > 0 {
        let t = s.drop_last();
        lemma_filter_count(t, p, x);
        assert(s =~= t.push(s.last()));
        assert(s.to_multiset() =~= t.to_multiset().insert(s.last()));
        if p(s.last()) {
            assert(s.filter(p) =~= t.filter(p).push(s.last()));
            assert(s.filter(p).to_multiset() =~= t.filter(p).to_multiset().insert(s.last()));
        }
    }
}

/// Sorting what was sorted already, with more behind it, is sorting all of it at once.
pub proof fn sorting_in_two_steps<T: Ranked>(
    first: Seq<T::V>,
    first_sorted: Seq<T::V>,
    more: Seq<T::V>,
    output: Seq<T::V>,
)
    requires
        stable_sort_of::<T>(first, first_sorted),
        stable_sort_of::<T>(first_sorted + more, output),
    ensures
        stable_sort_of::<T>(first + more, output),
{
    assert forall|x: T::V| #[trigger]
        output.filter(same_rank::<T>(x)) == (first + more).filter(same_rank::<T>(x)) by {
        let p = same_rank::<T>(x);
        Seq::filter_distributes_over_add(first, more, p);
        Seq::filter_distributes_over_add(first_sorted, more, p);
        assert(first_sorted.filter(p) == first.filter(p));
    }
}

/// A sorted list holds its elements in order, and those of one rank as they came.
pub proof fn a_sorted_list_is_in_order_and_stable<T: Ranked>(
    input: Seq<T::V>,
    output: Seq<T::V>,
    i: int,
    j: int,
    x: T::V,
)
    requires
        stable_sort_of::<T>(input, output),
        0 <= i < j < output.len(),
    ensures
        T::le(output[i], output[j]),
        output.filter(|y: T::V| T::le(x, y) && T::le(y, x)) == input.filter(
            |y: T::V| T::le(x, y) && T::le(y, x),
        ),
        output.len() == input.len(),
{
    let p = |y: T::V| T::le(x, y) && T::le(y, x);
    assert(p =~= same_rank::<T>(x));
    sorting_keeps_every_element::<T>(input, output);
    input.to_multiset_ensures();
    output.to_multiset_ensures();
}

/// The views of a list are the views of its elements, in order.
pub proof fn views_hold_every_element<T: View>(s: Seq<T>)
    ensures
        views_of(s).len() == s.len(),
        forall|i: int| 0 <= i < s.len() ==> #[trigger] views_of(s)[i] == s[i]@,
{
}

/// Sorting loses nothing and invents nothing: the two lists are as long, and what the one holds
/// the other holds.
pub proof fn a_sorted_list_holds_the_same<T: Ranked>(input: Seq<T::V>, output: Seq<T::V>)
    requires
        stable_sort_of::<T>(input, output),
    ensures
        output.len() == input.len(),
        forall|i: int|
            0 <= i < input.len() ==> output.contains(#[trigger] input[i]),
        forall|k: int|
            0 <= k < output.len() ==> input.contains(#[trigger] output[k]),
{
    sorting_keeps_every_element::<T>(input, output);
    input.to_multiset_ensures();
    output.to_multiset_ensures();
    assert forall|i: int| 0 <= i < input.len() implies output.contains(#[trigger] input[i]) by {
        assert(input.contains(input[i]));
        assert(output.to_multiset().count(input[i]) > 0);
    }
    assert forall|k: int| 0 <= k < output.len() implies input.contains(#[trigger] output[k]) by {
        assert(output.contains(output[k]));
        assert(input.to_multiset().count(output[k]) > 0);
    }
}

} // verus!
