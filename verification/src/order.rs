//! Stable ordering: the order that a stable sort gives, stated as repeated
//! insertion, with the facts that make it a sort.
use vstd::prelude::*;
use vstd::seq_lib::lemma_multiset_commutative;

verus! {

/// Where `x` is inserted into `s`: after the last element that `x` does not
/// come strictly before.
pub open spec fn insert_pos<T>(s: Seq<T>, x: T, before: spec_fn(T, T) -> bool) -> int
    decreases s.len(),
{
    if s.len() == 0 {
        0
    } else if !before(x, s.last()) {
        s.len() as int
    } else {
        insert_pos(s.drop_last(), x, before)
    }
}

/// `s` with `x` inserted at its place.
pub open spec fn insert_sorted<T>(s: Seq<T>, x: T, before: spec_fn(T, T) -> bool) -> Seq<T> {
    s.insert(insert_pos(s, x, before), x)
}

/// The elements of `s` in stable order: each element is inserted, in turn,
/// after everything that it does not come strictly before.
pub open spec fn sort_stable<T>(s: Seq<T>, before: spec_fn(T, T) -> bool) -> Seq<T>
    decreases s.len(),
{
    if s.len() == 0 {
        s
    } else {
        insert_sorted(sort_stable(s.drop_last(), before), s.last(), before)
    }
}

/// No element comes strictly before one that precedes it.
pub open spec fn sorted_by<T>(s: Seq<T>, before: spec_fn(T, T) -> bool) -> bool {
    forall|i: int, j: int| 0 <= i < j < s.len() ==> !before(#[trigger] s[j], #[trigger] s[i])
}

/// `before` is asymmetric, and "not before" is transitive.
pub open spec fn strict_order<T>(before: spec_fn(T, T) -> bool) -> bool {
    &&& forall|a: T, b: T| #[trigger] before(a, b) ==> !before(b, a)
    &&& forall|a: T, b: T, c: T|
        #![trigger before(a, b), before(b, c)]
        !before(a, b) && !before(b, c) ==> !before(a, c)
}

pub proof fn lemma_insert_pos<T>(s: Seq<T>, x: T, before: spec_fn(T, T) -> bool)
    ensures
        0 <= insert_pos(s, x, before) <= s.len(),
        forall|k: int| insert_pos(s, x, before) <= k < s.len() ==> before(x, #[trigger] s[k]),
        insert_pos(s, x, before) > 0 ==> !before(x, s[insert_pos(s, x, before) - 1]),
    decreases s.len(),
{
    if s.len() > 0 && before(x, s.last()) {
        lemma_insert_pos(s.drop_last(), x, before);
        assert forall|k: int| insert_pos(s, x, before) <= k < s.len() implies before(
            x,
            #[trigger] s[k],
        ) by {
            if k < s.len() - 1 {
                assert(s[k] == s.drop_last()[k]);
            }
        }
    }
}

/// One step of the scan from the back: while `x` comes before the element just
/// left of `k`, the insertion place is further left.
pub proof fn lemma_insert_pos_step<T>(s: Seq<T>, x: T, before: spec_fn(T, T) -> bool, k: int)
    requires
        0 < k <= s.len(),
    ensures
        before(x, s[k - 1]) ==> insert_pos(s.take(k), x, before) == insert_pos(
            s.take(k - 1),
            x,
            before,
        ),
        !before(x, s[k - 1]) ==> insert_pos(s.take(k), x, before) == k,
{
    assert(s.take(k).drop_last() =~= s.take(k - 1));
    assert(s.take(k).last() == s[k - 1]);
}

pub proof fn lemma_insert_sorted<T>(s: Seq<T>, x: T, before: spec_fn(T, T) -> bool)
    requires
        strict_order(before),
        sorted_by(s, before),
    ensures
        sorted_by(insert_sorted(s, x, before), before),
        insert_sorted(s, x, before).to_multiset() =~= s.to_multiset().insert(x),
        insert_sorted(s, x, before).len() == s.len() + 1,
{
    lemma_insert_pos(s, x, before);
    let p = insert_pos(s, x, before);
    let r = insert_sorted(s, x, before);
    assert(r =~= s.take(p).push(x) + s.skip(p));
    assert forall|i: int, j: int| 0 <= i < j < r.len() implies !before(
        #[trigger] r[j],
        #[trigger] r[i],
    ) by {
        if j < p {
            assert(r[i] == s[i] && r[j] == s[j]);
        } else if j == p {
            assert(r[i] == s[i]);
            assert(!before(x, s[p - 1]));
            if i < p - 1 {
                assert(!before(s[p - 1], s[i]));
            }
        } else if i == p {
            assert(r[j] == s[j - 1]);
            assert(before(x, s[j - 1]));
        } else if i < p {
            assert(r[i] == s[i] && r[j] == s[j - 1]);
        } else {
            assert(r[i] == s[i - 1] && r[j] == s[j - 1]);
        }
    }
    lemma_multiset_commutative(s.take(p).push(x), s.skip(p));
    lemma_multiset_commutative(s.take(p), s.skip(p));
    assert(s =~= s.take(p) + s.skip(p));
    broadcast use vstd::seq_lib::group_to_multiset_ensures;
    broadcast use vstd::multiset::group_multiset_axioms;

    assert(s.take(p).push(x).to_multiset() =~= s.take(p).to_multiset().insert(x));
}

/// A stable sort orders its result and keeps every element exactly as often as
/// it occurs.
pub proof fn lemma_sort_stable<T>(s: Seq<T>, before: spec_fn(T, T) -> bool)
    requires
        strict_order(before),
    ensures
        sorted_by(sort_stable(s, before), before),
        sort_stable(s, before).to_multiset() =~= s.to_multiset(),
        sort_stable(s, before).len() == s.len(),
    decreases s.len(),
{
    if s.len() > 0 {
        lemma_sort_stable(s.drop_last(), before);
        lemma_insert_sorted(sort_stable(s.drop_last(), before), s.last(), before);
        broadcast use vstd::seq_lib::group_to_multiset_ensures;

        assert(s =~= s.drop_last().push(s.last()));
    }
}

/// Inserting `x` keeps the elements of a class of mutual ties in their order,
/// `x` last among them.
pub proof fn lemma_insert_sorted_class<T>(
    s: Seq<T>,
    x: T,
    before: spec_fn(T, T) -> bool,
    class: spec_fn(T) -> bool,
)
    requires
        forall|a: T, b: T| class(a) && class(b) ==> !(#[trigger] before(a, b)),
    ensures
        insert_sorted(s, x, before).filter(class) == (if class(x) {
            s.filter(class).push(x)
        } else {
            s.filter(class)
        }),
{
    lemma_insert_pos(s, x, before);
    let p = insert_pos(s, x, before);
    assert(insert_sorted(s, x, before) =~= s.take(p).push(x) + s.skip(p));
    assert(s =~= s.take(p) + s.skip(p));
    Seq::filter_distributes_over_add(s.take(p).push(x), s.skip(p), class);
    Seq::filter_distributes_over_add(s.take(p), s.skip(p), class);
    s.take(p).lemma_filter_push(x, class);
    if class(x) {
        assert forall|k: int| 0 <= k < s.skip(p).len() implies !class(#[trigger] s.skip(p)[k]) by {
            assert(s.skip(p)[k] == s[p + k]);
            assert(before(x, s[p + k]));
        }
        assert(s.skip(p).all(|y: T| !class(y)));
        s.skip(p).lemma_all_neg_filter_empty(class);
        assert(s.skip(p).filter(class) =~= Seq::<T>::empty());
        assert(s.take(p).filter(class).push(x) + Seq::<T>::empty() =~= s.take(p).filter(class).push(
            x,
        ));
        assert(s.take(p).filter(class) + Seq::<T>::empty() =~= s.take(p).filter(class));
    }
}

/// A stable sort keeps the elements of a class of mutual ties in their order.
pub proof fn lemma_sort_stable_class<T>(
    s: Seq<T>,
    before: spec_fn(T, T) -> bool,
    class: spec_fn(T) -> bool,
)
    requires
        forall|a: T, b: T| class(a) && class(b) ==> !(#[trigger] before(a, b)),
    ensures
        sort_stable(s, before).filter(class) == s.filter(class),
    decreases s.len(),
{
    if s.len() > 0 {
        lemma_sort_stable_class(s.drop_last(), before, class);
        lemma_insert_sorted_class(sort_stable(s.drop_last(), before), s.last(), before, class);
        s.drop_last().lemma_filter_push(s.last(), class);
        assert(s.drop_last().push(s.last()) =~= s);
    }
}

} // verus!
