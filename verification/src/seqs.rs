//! Sequence vocabulary shared by the contracts: the first element that meets a
//! condition, and how such a search behaves under the usual operations.

use vstd::prelude::*;

verus! {

/// Index of the first element of `s` that meets `p`.
pub open spec fn first_where<T>(s: Seq<T>, p: spec_fn(T) -> bool) -> Option<int>
    decreases s.len(),
{
    if s.len() == 0 {
        None
    } else {
        match first_where(s.drop_last(), p) {
            Some(i) => Some(i),
            None => if p(s.last()) {
                Some(s.len() - 1)
            } else {
                None
            },
        }
    }
}

/// The element that [`first_where`] points at.
pub open spec fn find_where<T>(s: Seq<T>, p: spec_fn(T) -> bool) -> Option<T> {
    match first_where(s, p) {
        Some(i) => Some(s[i]),
        None => None,
    }
}

/// A first hit lies in range, meets the condition, and nothing before it does;
/// without a hit no element meets it.
pub proof fn first_where_facts<T>(s: Seq<T>, p: spec_fn(T) -> bool)
    ensures
        match first_where(s, p) {
            Some(i) => 0 <= i < s.len() && p(s[i]) && (forall|j: int| 0 <= j < i ==> !p(s[j])),
            None => forall|j: int| 0 <= j < s.len() ==> !p(s[j]),
        },
    decreases s.len(),
{
    if s.len() > 0 {
        let t = s.drop_last();
        first_where_facts(t, p);
        assert forall|j: int| 0 <= j < t.len() implies t[j] == s[j] by {}
        match first_where(t, p) {
            Some(i) => {
                assert(p(t[i]));
                assert forall|j: int| 0 <= j < i implies !p(s[j]) by {
                    assert(!p(t[j]));
                }
            },
            None => {
                assert forall|j: int| 0 <= j < s.len() - 1 implies !p(s[j]) by {
                    assert(!p(t[j]));
                }
            },
        }
    }
}

/// The index of a hit with nothing before it is the first.
pub proof fn first_where_is<T>(s: Seq<T>, p: spec_fn(T) -> bool, i: int)
    requires
        0 <= i < s.len(),
        p(s[i]),
        forall|j: int| 0 <= j < i ==> !p(s[j]),
    ensures
        first_where(s, p) == Some(i),
{
    first_where_facts(s, p);
}

/// A sequence without a hit has no first one.
pub proof fn first_where_none<T>(s: Seq<T>, p: spec_fn(T) -> bool)
    requires
        forall|j: int| 0 <= j < s.len() ==> !p(s[j]),
    ensures
        first_where(s, p) is None,
{
    first_where_facts(s, p);
}

/// One element more is the first hit when it is a hit and nothing before it is.
pub proof fn first_where_push<T>(s: Seq<T>, p: spec_fn(T) -> bool, x: T)
    ensures
        first_where(s.push(x), p) == match first_where(s, p) {
            Some(i) => Some(i),
            None => if p(x) {
                Some(s.len() as int)
            } else {
                None
            },
        },
{
    assert(s.push(x).drop_last() =~= s);
}

/// Filtering one element more keeps it exactly when it meets the condition.
pub proof fn filter_push<T>(s: Seq<T>, p: spec_fn(T) -> bool, x: T)
    ensures
        s.push(x).filter(p) == if p(x) {
            s.filter(p).push(x)
        } else {
            s.filter(p)
        },
{
    reveal(Seq::filter);
    assert(s.push(x).drop_last() =~= s);
}

/// A filter without hits leaves nothing.
pub proof fn filter_none<T>(s: Seq<T>, p: spec_fn(T) -> bool)
    requires
        forall|j: int| 0 <= j < s.len() ==> !p(s[j]),
    ensures
        s.filter(p) == Seq::<T>::empty(),
    decreases s.len(),
{
    reveal(Seq::filter);
    if s.len() > 0 {
        assert forall|j: int| 0 <= j < s.len() - 1 implies !p(s.drop_last()[j]) by {
            assert(!p(s[j]));
        }
        filter_none(s.drop_last(), p);
    }
}

/// A filter with one hit leaves that.
pub proof fn filter_single<T>(s: Seq<T>, p: spec_fn(T) -> bool, i: int)
    requires
        0 <= i < s.len(),
        p(s[i]),
        forall|j: int| 0 <= j < s.len() && j != i ==> !p(s[j]),
    ensures
        s.filter(p) == seq![s[i]],
    decreases s.len(),
{
    reveal(Seq::filter);
    let t = s.drop_last();
    assert forall|j: int| 0 <= j < t.len() implies t[j] == s[j] by {}
    if i < t.len() {
        assert forall|j: int| 0 <= j < t.len() && j != i implies !p(t[j]) by {
            assert(!p(s[j]));
        }
        filter_single(t, p, i);
        assert(!p(s[s.len() - 1]));
    } else {
        assert forall|j: int| 0 <= j < t.len() implies !p(t[j]) by {
            assert(!p(s[j]));
        }
        filter_none(t, p);
        assert(s.filter(p) =~= seq![s[i]]);
    }
}

/// What a filter leaves first is an element of the sequence.
pub proof fn filter_first<T>(s: Seq<T>, p: spec_fn(T) -> bool)
    ensures
        s.filter(p).len() > 0 ==> (exists|i: int|
            0 <= i < s.len() && #[trigger] s[i] == s.filter(p)[0]),
    decreases s.len(),
{
    reveal(Seq::filter);
    if s.len() > 0 {
        let t = s.drop_last();
        filter_first(t, p);
        if t.filter(p).len() > 0 {
            let i = choose|i: int| 0 <= i < t.len() && #[trigger] t[i] == t.filter(p)[0];
            assert(s[i] == t[i]);
            assert(s.filter(p)[0] == t.filter(p)[0]);
        } else if s.filter(p).len() > 0 {
            assert(s[s.len() - 1] == s.filter(p)[0]);
        }
    }
}

/// What a filter leaves meets the condition.
pub proof fn filter_meets<T>(s: Seq<T>, p: spec_fn(T) -> bool, j: int)
    requires
        0 <= j < s.filter(p).len(),
    ensures
        p(s.filter(p)[j]),
    decreases s.len(),
{
    reveal(Seq::filter);
    if s.len() > 0 {
        let t = s.drop_last();
        if j < t.filter(p).len() {
            filter_meets(t, p, j);
        }
    }
}

/// Filtering a prefix gives a prefix of the filtered sequence.
pub proof fn filter_of_prefix<T>(s: Seq<T>, p: spec_fn(T) -> bool, n: int)
    requires
        0 <= n <= s.len(),
    ensures
        s.take(n).filter(p).len() <= s.filter(p).len(),
        forall|j: int|
            0 <= j < s.take(n).filter(p).len() ==> s.filter(p)[j] == #[trigger] s.take(n).filter(
                p,
            )[j],
    decreases s.len() - n,
{
    if n < s.len() {
        let short = s.take(n).filter(p);
        let long = s.take(n + 1).filter(p);
        filter_of_prefix(s, p, n + 1);
        filter_push(s.take(n), p, s[n]);
        assert(s.take(n).push(s[n]) =~= s.take(n + 1));
        assert forall|j: int| 0 <= j < short.len() implies s.filter(p)[j] == #[trigger] short[j] by {
            assert(long[j] == short[j]);
        }
    } else {
        assert(s.take(n) =~= s);
    }
}

/// An element that meets the condition is in the filtered sequence.
pub proof fn filter_has<T>(s: Seq<T>, p: spec_fn(T) -> bool, i: int)
    requires
        0 <= i < s.len(),
        p(s[i]),
    ensures
        s.filter(p).contains(s[i]),
{
    filter_push(s.take(i), p, s[i]);
    assert(s.take(i).push(s[i]) =~= s.take(i + 1));
    filter_of_prefix(s, p, i + 1);
    let done = s.take(i + 1).filter(p);
    assert(s.filter(p)[done.len() - 1] == done[done.len() - 1]);
}

/// What a filter leaves is an element of the sequence.
pub proof fn filter_held<T>(s: Seq<T>, p: spec_fn(T) -> bool, k: int)
    requires
        0 <= k < s.filter(p).len(),
    ensures
        s.contains(s.filter(p)[k]),
{
    filters_alike(s, s, p);
}

/// Two sequences that meet a condition at the same places are filtered to the
/// elements of the same places.
pub proof fn filters_alike<T>(a: Seq<T>, b: Seq<T>, p: spec_fn(T) -> bool)
    requires
        a.len() == b.len(),
        forall|i: int| 0 <= i < a.len() ==> p(#[trigger] a[i]) == p(b[i]),
    ensures
        a.filter(p).len() == b.filter(p).len(),
        forall|k: int|
            0 <= k < a.filter(p).len() ==> exists|j: int|
                0 <= j < a.len() && a[j] == #[trigger] a.filter(p)[k] && #[trigger] b[j]
                    == b.filter(p)[k],
    decreases a.len(),
{
    reveal(Seq::filter);
    if a.len() > 0 {
        let s = a.drop_last();
        let t = b.drop_last();
        let n = a.len() - 1;
        assert forall|i: int| 0 <= i < s.len() implies p(#[trigger] s[i]) == p(t[i]) by {
            assert(p(a[i]) == p(b[i]));
        }
        filters_alike(s, t, p);
        assert(p(a[n]) == p(b[n]));
        assert forall|k: int| 0 <= k < a.filter(p).len() implies exists|j: int|
            0 <= j < a.len() && a[j] == #[trigger] a.filter(p)[k] && #[trigger] b[j] == b.filter(
                p,
            )[k] by {
            if k < s.filter(p).len() {
                assert(a.filter(p)[k] == s.filter(p)[k]);
                let j = choose|j: int|
                    0 <= j < s.len() && s[j] == s.filter(p)[k] && #[trigger] t[j] == t.filter(p)[k];
                assert(a[j] == s[j] && b[j] == t[j]);
            } else {
                assert(a[n] == a.filter(p)[k] && b[n] == b.filter(p)[k]);
            }
        }
    }
}

/// A filtered sequence holds nothing new, and keys that were distinct stay so.
pub proof fn filter_keeps_distinct<T, K>(s: Seq<T>, p: spec_fn(T) -> bool, key: spec_fn(T) -> K)
    requires
        forall|i: int, j: int|
            #![trigger s[i], s[j]]
            0 <= i < s.len() && 0 <= j < s.len() && i != j ==> key(s[i]) != key(s[j]),
    ensures
        forall|i: int| 0 <= i < s.filter(p).len() ==> s.contains(#[trigger] s.filter(p)[i]),
        forall|i: int, j: int|
            #![trigger s.filter(p)[i], s.filter(p)[j]]
            0 <= i < s.filter(p).len() && 0 <= j < s.filter(p).len() && i != j ==> key(
                s.filter(p)[i],
            ) != key(s.filter(p)[j]),
    decreases s.len(),
{
    reveal(Seq::filter);
    if s.len() > 0 {
        let t = s.drop_last();
        assert forall|i: int, j: int|
            #![trigger t[i], t[j]]
            0 <= i < t.len() && 0 <= j < t.len() && i != j implies key(t[i]) != key(t[j]) by {
            assert(key(s[i]) != key(s[j]));
        }
        filter_keeps_distinct(t, p, key);
        let u = t.filter(p);
        assert forall|i: int| 0 <= i < u.len() implies key(#[trigger] u[i]) != key(s.last())
            && s.contains(u[i]) by {
            let k = choose|k: int| 0 <= k < t.len() && t[k] == u[i];
            assert(s[k] == u[i]);
            assert(key(s[k]) != key(s[s.len() - 1]));
        }
        assert(s.contains(s.last())) by {
            assert(s[s.len() - 1] == s.last());
        }
    }
}

/// A sequence with one element more, put behind everything that it does not
/// come before, as far back as possible.
pub open spec fn placed<T>(s: Seq<T>, x: T, before: spec_fn(T, T) -> bool) -> Seq<T>
    decreases s.len(),
{
    if s.len() == 0 || !before(x, s.last()) {
        s.push(x)
    } else {
        placed(s.drop_last(), x, before).push(s.last())
    }
}

/// A sequence in order; elements of which neither comes before the other stay in
/// the order they had.
pub open spec fn arranged<T>(s: Seq<T>, before: spec_fn(T, T) -> bool) -> Seq<T>
    decreases s.len(),
{
    if s.len() == 0 {
        Seq::empty()
    } else {
        placed(arranged(s.drop_last(), before), s.last(), before)
    }
}

/// Where an element is put.
pub proof fn placed_is<T>(s: Seq<T>, x: T, before: spec_fn(T, T) -> bool, k: int)
    requires
        0 <= k <= s.len(),
        forall|j: int| k <= j < s.len() ==> before(x, #[trigger] s[j]),
        k > 0 ==> !before(x, s[k - 1]),
    ensures
        placed(s, x, before) == s.insert(k, x),
    decreases s.len(),
{
    if k == s.len() {
        assert(s.push(x) =~= s.insert(k, x));
    } else {
        let t = s.drop_last();
        assert(before(x, s[s.len() - 1]));
        assert forall|j: int| k <= j < t.len() implies before(x, #[trigger] t[j]) by {
            assert(before(x, s[j]));
        }
        placed_is(t, x, before, k);
        assert(t.insert(k, x).push(s.last()) =~= s.insert(k, x));
    }
}

/// The place of an element exists.
pub proof fn placed_somewhere<T>(s: Seq<T>, x: T, before: spec_fn(T, T) -> bool) -> (k: int)
    ensures
        0 <= k <= s.len(),
        forall|j: int| k <= j < s.len() ==> before(x, #[trigger] s[j]),
        k > 0 ==> !before(x, s[k - 1]),
        placed(s, x, before) == s.insert(k, x),
    decreases s.len(),
{
    if s.len() == 0 || !before(x, s.last()) {
        placed_is(s, x, before, s.len() as int);
        s.len() as int
    } else {
        let t = s.drop_last();
        let k = placed_somewhere(t, x, before);
        assert forall|j: int| k <= j < s.len() implies before(x, #[trigger] s[j]) by {
            if j < t.len() {
                assert(before(x, t[j]));
            }
        }
        placed_is(s, x, before, k);
        k
    }
}

/// Whether a relation orders its elements: it is one-way, and what does not come
/// after something does not come after anything later.
pub open spec fn orders<T>(before: spec_fn(T, T) -> bool) -> bool {
    &&& forall|a: T, b: T| #[trigger] before(a, b) ==> !before(b, a)
    &&& forall|a: T, b: T, c: T|
        !(#[trigger] before(b, a)) && !(#[trigger] before(c, b)) ==> !before(c, a)
}

/// An arranged sequence is in order.
pub proof fn arranged_in_order<T>(s: Seq<T>, before: spec_fn(T, T) -> bool, i: int, j: int)
    requires
        orders(before),
        0 <= i < j < arranged(s, before).len(),
    ensures
        !before(arranged(s, before)[j], arranged(s, before)[i]),
    decreases s.len(),
{
    let t = arranged(s.drop_last(), before);
    let x = s.last();
    let k = placed_somewhere(t, x, before);
    if i != k && j != k {
        let i0 = if i < k {
            i
        } else {
            i - 1
        };
        let j0 = if j < k {
            j
        } else {
            j - 1
        };
        arranged_in_order(s.drop_last(), before, i0, j0);
    } else if i == k {
        assert(before(x, t[j - 1]));
    } else {
        assert(!before(x, t[k - 1]));
        if i < k - 1 {
            arranged_in_order(s.drop_last(), before, i, k - 1);
            assert(!before(t[k - 1], t[i]));
        }
    }
}

/// An arranged sequence holds nothing new.
pub proof fn arranged_holds<T>(s: Seq<T>, before: spec_fn(T, T) -> bool, k: int)
    requires
        0 <= k < arranged(s, before).len(),
    ensures
        s.contains(arranged(s, before)[k]),
    decreases s.len(),
{
    let t = arranged(s.drop_last(), before);
    let at = placed_somewhere(t, s.last(), before);
    if k == at {
        assert(s[s.len() - 1] == s.last());
    } else {
        let k0 = if k < at {
            k
        } else {
            k - 1
        };
        arranged_holds(s.drop_last(), before, k0);
        let j = choose|j: int| 0 <= j < s.drop_last().len() && s.drop_last()[j] == t[k0];
        assert(s[j] == t[k0]);
    }
}

/// Arranging keeps every element as often as it occurs.
pub proof fn arranged_keeps_all<T>(s: Seq<T>, before: spec_fn(T, T) -> bool)
    ensures
        arranged(s, before).to_multiset() == s.to_multiset(),
        arranged(s, before).len() == s.len(),
    decreases s.len(),
{
    broadcast use vstd::seq_lib::group_to_multiset_ensures;

    if s.len() > 0 {
        let t = arranged(s.drop_last(), before);
        arranged_keeps_all(s.drop_last(), before);
        let k = placed_somewhere(t, s.last(), before);
        assert(s.drop_last().push(s.last()) =~= s);
        assert(t.insert(k, s.last()).to_multiset() =~= s.to_multiset());
    } else {
        assert(s =~= Seq::<T>::empty());
    }
}

/// A condition that everything meets filters nothing out.
pub proof fn filter_all<T>(s: Seq<T>, p: spec_fn(T) -> bool)
    requires
        forall|j: int| 0 <= j < s.len() ==> p(#[trigger] s[j]),
    ensures
        s.filter(p) == s,
    decreases s.len(),
{
    reveal(Seq::filter);
    if s.len() > 0 {
        let t = s.drop_last();
        assert forall|j: int| 0 <= j < t.len() implies p(#[trigger] t[j]) by {
            assert(t[j] == s[j]);
        }
        filter_all(t, p);
        assert(p(s[s.len() - 1]));
        assert(t.push(s.last()) =~= s);
    } else {
        assert(s.filter(p) =~= s);
    }
}

} // verus!
