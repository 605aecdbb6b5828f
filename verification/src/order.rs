//! Sorting by a key, and dropping neighbours with one key.

use vstd::prelude::*;

verus! {

/// A thing with a number to sort it by.
pub trait Keyed: Sized + Copy {
    spec fn key(&self) -> int;

    fn key_of(&self) -> (r: i64)
        ensures
            r == self.key(),
    ;
}

/// `s` with `x` behind the last item whose key is not above that of `x`.
pub open spec fn inserted<T: Keyed>(s: Seq<T>, x: T) -> Seq<T>
    decreases s.len(),
{
    if s.len() == 0 || s.last().key() <= x.key() {
        s.push(x)
    } else {
        inserted(s.drop_last(), x).push(s.last())
    }
}

/// The items of `s` by rising key; items of one key stay in the order in which they were.
pub open spec fn sorted<T: Keyed>(s: Seq<T>) -> Seq<T>
    decreases s.len(),
{
    if s.len() == 0 {
        s
    } else {
        inserted(sorted(s.drop_last()), s.last())
    }
}

/// Keys do not fall.
pub open spec fn rising<T: Keyed>(s: Seq<T>) -> bool {
    forall|i: int, j: int| 0 <= i <= j < s.len() ==> (#[trigger] s[i]).key() <= (#[trigger] s[j]).key()
}

/// Keys rise at each step.
pub open spec fn strictly_rising<T: Keyed>(s: Seq<T>) -> bool {
    forall|i: int, j: int| 0 <= i < j < s.len() ==> (#[trigger] s[i]).key() < (#[trigger] s[j]).key()
}

/// `s` without each item that has the key of the item kept before it.
pub open spec fn deduped<T: Keyed>(s: Seq<T>) -> Seq<T>
    decreases s.len(),
{
    if s.len() == 0 {
        s
    } else {
        let d = deduped(s.drop_last());
        if d.len() > 0 && d.last().key() == s.last().key() {
            d
        } else {
            d.push(s.last())
        }
    }
}

/// Sorts by rising key; items of one key stay in the order in which they were.
pub fn sort<T: Keyed>(v: &Vec<T>) -> (r: Vec<T>)
    ensures
        r@ == sorted(v@),
{
    let mut out: Vec<T> = Vec::new();
    let n: usize = v.len();
    for i in 0..n
        invariant
            n == v@.len(),
            out@.len() == i,
            out@ == sorted(v@.take(i as int)),
    {
        let x = v[i];
        let k: i64 = x.key_of();
        let ghost before = out@;
        let mut j: usize = i;
        assert(before.take(j as int) =~= before);
        assert(before.skip(j as int) =~= Seq::<T>::empty());
        assert(inserted(before, x) + Seq::<T>::empty() =~= inserted(before, x));
        while j > 0 && out[j - 1].key_of() > k
            invariant
                j <= before.len(),
                out@ == before,
                k == x.key(),
                inserted(before, x) == inserted(before.take(j as int), x) + before.skip(j as int),
            decreases j,
        {
            assert(before.take(j as int).last() == before[j - 1]);
            assert(before.take(j as int).drop_last() =~= before.take(j - 1));
            assert(inserted(before.take(j as int), x) == inserted(before.take(j - 1), x).push(before[j - 1]));
            assert(inserted(before.take(j - 1), x).push(before[j - 1]) + before.skip(j as int)
                =~= inserted(before.take(j - 1), x) + before.skip(j - 1));
            j = j - 1;
        }
        if j > 0 {
            assert(before.take(j as int).last() == before[j - 1]);
        }
        assert(inserted(before, x) =~= before.take(j as int).push(x) + before.skip(j as int));
        out.insert(j, x);
        assert(out@ =~= inserted(before, x));
        assert(v@.take(i + 1).drop_last() =~= v@.take(i as int));
    }
    assert(v@.take(n as int) =~= v@);
    out
}

/// Drops each item that has the key of the item kept before it.
pub fn dedup<T: Keyed>(v: &Vec<T>) -> (r: Vec<T>)
    ensures
        r@ == deduped(v@),
{
    let mut out: Vec<T> = Vec::new();
    let n: usize = v.len();
    for i in 0..n
        invariant
            n == v@.len(),
            out@ == deduped(v@.take(i as int)),
    {
        assert(v@.take(i + 1).drop_last() =~= v@.take(i as int));
        let m: usize = out.len();
        if m == 0 || out[m - 1].key_of() != v[i].key_of() {
            out.push(v[i]);
        }
    }
    assert(v@.take(n as int) =~= v@);
    out
}

proof fn inserted_rising<T: Keyed>(s: Seq<T>, x: T)
    requires
        rising(s),
    ensures
        rising(inserted(s, x)),
        inserted(s, x).len() == s.len() + 1,
        forall|i: int| 0 <= i < inserted(s, x).len() ==> (#[trigger] inserted(s, x)[i]) == x || s.contains(
            inserted(s, x)[i],
        ),
    decreases s.len(),
{
    let r = inserted(s, x);
    if s.len() == 0 || s.last().key() <= x.key() {
        assert forall|i: int| 0 <= i < r.len() implies (#[trigger] r[i]) == x || s.contains(r[i]) by {
            if i < s.len() {
                assert(r[i] == s[i]);
            }
        }
    } else {
        let t = s.drop_last();
        inserted_rising(t, x);
        let q = inserted(t, x);
        assert forall|i: int| 0 <= i < r.len() implies ((#[trigger] r[i]) == x || s.contains(r[i])) && r[i].key() <= s.last().key() by {
            if i < q.len() {
                assert(r[i] == q[i]);
                if q[i] != x {
                    let m = choose|m: int| 0 <= m < t.len() && t[m] == q[i];
                    assert(s[m] == q[i]);
                }
            } else {
                assert(r[i] == s[s.len() - 1]);
            }
        }
        assert forall|i: int, j: int| 0 <= i <= j < r.len() implies (#[trigger] r[i]).key() <= (#[trigger] r[j]).key() by {
            if j < q.len() {
                assert(r[i] == q[i] && r[j] == q[j]);
            }
        }
    }
}

/// What is sorted has rising keys.
pub proof fn sorted_is_rising<T: Keyed>(s: Seq<T>)
    ensures
        rising(sorted(s)),
        sorted(s).len() == s.len(),
    decreases s.len(),
{
    if s.len() > 0 {
        sorted_is_rising(s.drop_last());
        inserted_rising(sorted(s.drop_last()), s.last());
    }
}

proof fn inserted_same_items<T: Keyed>(s: Seq<T>, x: T)
    ensures
        inserted(s, x).to_multiset() == s.to_multiset().insert(x),
    decreases s.len(),
{
    broadcast use vstd::seq_lib::group_to_multiset_ensures;
    if s.len() == 0 || s.last().key() <= x.key() {
    } else {
        inserted_same_items(s.drop_last(), x);
        assert(s =~= s.drop_last().push(s.last()));
        assert(s.to_multiset() =~= s.drop_last().to_multiset().insert(s.last()));
        assert(inserted(s, x).to_multiset() =~= s.to_multiset().insert(x));
    }
}

/// Sorting keeps the items.
pub proof fn sorted_same_items<T: Keyed>(s: Seq<T>)
    ensures
        sorted(s).to_multiset() == s.to_multiset(),
    decreases s.len(),
{
    broadcast use vstd::seq_lib::group_to_multiset_ensures;
    if s.len() > 0 {
        sorted_same_items(s.drop_last());
        inserted_same_items(sorted(s.drop_last()), s.last());
        assert(s =~= s.drop_last().push(s.last()));
    }
}

/// Sorting keeps how many items there are, and which.
pub proof fn sorted_has_each<T: Keyed>(s: Seq<T>)
    ensures
        sorted(s).len() == s.len(),
        forall|x: T| sorted(s).contains(x) <==> s.contains(x),
{
    sorted_same_items(s);
    s.to_multiset_ensures();
    sorted(s).to_multiset_ensures();
    assert forall|x: T| sorted(s).contains(x) <==> s.contains(x) by {
        assert(sorted(s).contains(x) <==> sorted(s).to_multiset().count(x) > 0);
        assert(s.contains(x) <==> s.to_multiset().count(x) > 0);
    }
}

/// The items of `s` that have the key `k`.
pub open spec fn of_key<T: Keyed>(s: Seq<T>, k: int) -> Seq<T>
    decreases s.len(),
{
    if s.len() == 0 {
        s
    } else if s.last().key() == k {
        of_key(s.drop_last(), k).push(s.last())
    } else {
        of_key(s.drop_last(), k)
    }
}

proof fn inserted_stable<T: Keyed>(s: Seq<T>, x: T, k: int)
    requires
        rising(s),
    ensures
        of_key(inserted(s, x), k) == of_key(s.push(x), k),
    decreases s.len(),
{
    assert(s.push(x).drop_last() =~= s);
    if s.len() == 0 || s.last().key() <= x.key() {
    } else {
        let t = s.drop_last();
        inserted_stable(t, x, k);
        assert(t.push(x).drop_last() =~= t);
        assert(inserted(s, x).drop_last() =~= inserted(t, x));
        assert(inserted(s, x).last() == s.last());
        assert(t.push(x).last() == x);
        assert(of_key(t.push(x), k) == if x.key() == k {
            of_key(t, k).push(x)
        } else {
            of_key(t, k)
        });
        assert(of_key(s, k) == if s.last().key() == k {
            of_key(t, k).push(s.last())
        } else {
            of_key(t, k)
        });
        assert(of_key(s.push(x), k) == if x.key() == k {
            of_key(s, k).push(x)
        } else {
            of_key(s, k)
        });
    }
}

/// Sorting keeps the order of the items that share a key.
pub proof fn sorted_is_stable<T: Keyed>(s: Seq<T>, k: int)
    ensures
        of_key(sorted(s), k) == of_key(s, k),
    decreases s.len(),
{
    if s.len() > 0 {
        let t = s.drop_last();
        sorted_is_stable(t, k);
        sorted_is_rising(t);
        inserted_stable(sorted(t), s.last(), k);
        assert(sorted(t).push(s.last()).drop_last() =~= sorted(t));
    }
}

/// What is rising already is left as it is.
pub proof fn sorted_keeps_rising<T: Keyed>(s: Seq<T>)
    requires
        rising(s),
    ensures
        sorted(s) == s,
    decreases s.len(),
{
    if s.len() > 0 {
        let t = s.drop_last();
        assert forall|i: int, j: int| 0 <= i <= j < t.len() implies (#[trigger] t[i]).key() <= (#[trigger] t[j]).key() by {
            assert(t[i] == s[i] && t[j] == s[j]);
        }
        sorted_keeps_rising(t);
        if t.len() > 0 {
            assert(t.last() == s[s.len() - 2]);
            assert(s.last() == s[s.len() - 1]);
            assert(s[s.len() - 2].key() <= s[s.len() - 1].key());
        }
        assert(t.push(s.last()) =~= s);
    }
}

/// Of rising items, those that stay are strictly rising, and each is one of the items.
pub proof fn deduped_is_strict<T: Keyed>(s: Seq<T>)
    requires
        rising(s),
    ensures
        strictly_rising(deduped(s)),
        s.len() > 0 ==> deduped(s).len() > 0 && deduped(s).last().key() == s.last().key(),
        forall|i: int| 0 <= i < deduped(s).len() ==> s.contains(#[trigger] deduped(s)[i]),
    decreases s.len(),
{
    if s.len() > 0 {
        let t = s.drop_last();
        assert forall|i: int, j: int| 0 <= i <= j < t.len() implies (#[trigger] t[i]).key() <= (#[trigger] t[j]).key() by {
            assert(t[i] == s[i] && t[j] == s[j]);
        }
        deduped_is_strict(t);
        let d = deduped(t);
        let r = deduped(s);
        assert(s.contains(s.last())) by {
            assert(s[s.len() - 1] == s.last());
        }
        assert forall|i: int| 0 <= i < r.len() implies s.contains(#[trigger] r[i]) by {
            if i < d.len() {
                assert(r[i] == d[i]);
                let m = choose|m: int| 0 <= m < t.len() && t[m] == d[i];
                assert(s[m] == d[i]);
            }
        }
        if t.len() > 0 {
            assert(t.last() == s[s.len() - 2]);
            assert(s[s.len() - 2].key() <= s[s.len() - 1].key());
        }
        assert forall|i: int, j: int| 0 <= i < j < r.len() implies (#[trigger] r[i]).key() < (#[trigger] r[j]).key() by {
            if j < d.len() {
                assert(r[i] == d[i] && r[j] == d[j]);
            } else {
                assert(r[i] == d[i]);
                assert(d[d.len() - 1].key() <= t.last().key());
                if i < d.len() - 1 {
                    assert(d[i].key() < d[d.len() - 1].key());
                }
            }
        }
    }
}

proof fn other_keys_are_none<T: Keyed>(s: Seq<T>, k: int)
    requires
        forall|i: int| 0 <= i < s.len() ==> (#[trigger] s[i]).key() != k,
    ensures
        of_key(s, k).len() == 0,
    decreases s.len(),
{
    if s.len() > 0 {
        let t = s.drop_last();
        assert forall|i: int| 0 <= i < t.len() implies (#[trigger] t[i]).key() != k by {
            assert(t[i] == s[i]);
        }
        assert(s[s.len() - 1].key() != k);
        other_keys_are_none(t, k);
    }
}

proof fn some_key_is_found<T: Keyed>(s: Seq<T>, i: int)
    requires
        0 <= i < s.len(),
    ensures
        of_key(s, s[i].key()).len() > 0,
    decreases s.len(),
{
    if i < s.len() - 1 {
        assert(s.drop_last()[i] == s[i]);
        some_key_is_found(s.drop_last(), i);
    }
}

proof fn deduped_keeps_first<T: Keyed>(s: Seq<T>, k: int)
    requires
        rising(s),
    ensures
        of_key(deduped(s), k) == (if of_key(s, k).len() == 0 {
            Seq::empty()
        } else {
            seq![of_key(s, k)[0]]
        }),
    decreases s.len(),
{
    if s.len() == 0 {
        assert(of_key(deduped(s), k) =~= Seq::<T>::empty());
    } else {
        let t = s.drop_last();
        let x = s.last();
        let d = deduped(t);
        assert forall|i: int, j: int| 0 <= i <= j < t.len() implies (#[trigger] t[i]).key() <= (#[trigger] t[j]).key() by {
            assert(t[i] == s[i] && t[j] == s[j]);
        }
        deduped_keeps_first(t, k);
        deduped_is_strict(t);
        if t.len() > 0 {
            assert(t.last() == s[s.len() - 2]);
            assert(x == s[s.len() - 1]);
            assert(s[s.len() - 2].key() <= s[s.len() - 1].key());
        }
        if d.len() > 0 && d.last().key() == x.key() {
            if x.key() == k {
                assert(t[t.len() - 1].key() == k);
                some_key_is_found(t, t.len() - 1);
                assert(of_key(s, k)[0] == of_key(t, k)[0]);
            }
        } else {
            assert(d.push(x).drop_last() =~= d);
            if x.key() == k {
                assert forall|i: int| 0 <= i < t.len() implies (#[trigger] t[i]).key() != k by {
                    assert(t[i].key() <= t[t.len() - 1].key());
                }
                other_keys_are_none(t, k);
                assert(of_key(s, k) =~= seq![x]);
                assert(of_key(deduped(s), k) =~= seq![x]);
            }
        }
    }
}

/// Sorting and then dropping neighbours leaves of each key that occurs one item, the first of that
/// key in the order in which the items came, and the keys rise.
pub proof fn first_of_each_key_is_left<T: Keyed>(s: Seq<T>, k: int)
    ensures
        strictly_rising(deduped(sorted(s))),
        of_key(deduped(sorted(s)), k) == (if of_key(s, k).len() == 0 {
            Seq::empty()
        } else {
            seq![of_key(s, k)[0]]
        }),
{
    sorted_is_rising(s);
    deduped_is_strict(sorted(s));
    deduped_keeps_first(sorted(s), k);
    sorted_is_stable(s, k);
}

/// How many items have a key below `k`.
pub open spec fn count_below<T: Keyed>(s: Seq<T>, k: int) -> nat
    decreases s.len(),
{
    if s.len() == 0 {
        0
    } else {
        count_below(s.drop_last(), k) + if s.last().key() < k {
            1nat
        } else {
            0
        }
    }
}

proof fn inserted_counts<T: Keyed>(s: Seq<T>, x: T, k: int)
    ensures
        count_below(inserted(s, x), k) == count_below(s, k) + if x.key() < k {
            1nat
        } else {
            0
        },
    decreases s.len(),
{
    if s.len() == 0 || s.last().key() <= x.key() {
        assert(s.push(x).drop_last() =~= s);
    } else {
        inserted_counts(s.drop_last(), x, k);
        let r = inserted(s.drop_last(), x);
        assert(r.push(s.last()).drop_last() =~= r);
    }
}

proof fn sorted_counts<T: Keyed>(s: Seq<T>, k: int)
    ensures
        count_below(sorted(s), k) == count_below(s, k),
    decreases s.len(),
{
    if s.len() > 0 {
        sorted_counts(s.drop_last(), k);
        inserted_counts(sorted(s.drop_last()), s.last(), k);
    }
}

proof fn rising_counts<T: Keyed>(s: Seq<T>, k: int, m: int)
    requires
        0 <= m <= s.len(),
        forall|i: int| 0 <= i < m ==> (#[trigger] s[i]).key() < k,
        forall|i: int| m <= i < s.len() ==> (#[trigger] s[i]).key() >= k,
    ensures
        count_below(s, k) == m,
    decreases s.len(),
{
    if s.len() > 0 {
        let t = s.drop_last();
        let n = if m == s.len() {
            m - 1
        } else {
            m
        };
        assert forall|i: int| 0 <= i < n implies (#[trigger] t[i]).key() < k by {
            assert(t[i] == s[i]);
        }
        assert forall|i: int| n <= i < t.len() implies (#[trigger] t[i]).key() >= k by {
            assert(t[i] == s[i]);
        }
        rising_counts(t, k, n);
        assert(s.last() == s[s.len() - 1]);
    }
}

proof fn lower_part(s_len: int, keys: spec_fn(int) -> int, k: int) -> (m: int)
    requires
        0 <= s_len,
        forall|i: int, j: int| #![trigger keys(i), keys(j)] 0 <= i <= j < s_len ==> keys(i) <= keys(j),
    ensures
        0 <= m <= s_len,
        forall|i: int| 0 <= i < m ==> #[trigger] keys(i) < k,
        forall|i: int| m <= i < s_len ==> #[trigger] keys(i) >= k,
    decreases s_len,
{
    if s_len == 0 || keys(s_len - 1) < k {
        s_len
    } else {
        lower_part(s_len - 1, keys, k)
    }
}

/// The item at place `p` of what is sorted has the place that its key says: at most `p` items have
/// a key below its own, and more than `p` a key that is not above it.
pub proof fn sorted_place_is_by_count<T: Keyed>(s: Seq<T>, p: int)
    requires
        0 <= p < s.len(),
    ensures
        count_below(s, sorted(s)[p].key()) <= p,
        count_below(s, sorted(s)[p].key() + 1) > p,
{
    let v = sorted(s);
    sorted_is_rising(s);
    let k = v[p].key();
    sorted_counts(s, k);
    sorted_counts(s, k + 1);
    let keys = |i: int| v[i].key();
    assert forall|i: int, j: int| #![trigger keys(i), keys(j)] 0 <= i <= j < v.len() implies keys(i) <= keys(j) by {
        assert(v[i].key() <= v[j].key());
    }
    let a = lower_part(v.len() as int, keys, k);
    let b = lower_part(v.len() as int, keys, k + 1);
    assert forall|i: int| 0 <= i < a implies (#[trigger] v[i]).key() < k by {
        assert(keys(i) < k);
    }
    assert forall|i: int| a <= i < v.len() implies (#[trigger] v[i]).key() >= k by {
        assert(keys(i) >= k);
    }
    assert forall|i: int| 0 <= i < b implies (#[trigger] v[i]).key() < k + 1 by {
        assert(keys(i) < k + 1);
    }
    assert forall|i: int| b <= i < v.len() implies (#[trigger] v[i]).key() >= k + 1 by {
        assert(keys(i) >= k + 1);
    }
    rising_counts(v, k, a);
    rising_counts(v, k + 1, b);
    if a > p {
        assert(v[p].key() < k);
    }
    if b <= p {
        assert(v[p].key() >= k + 1);
    }
}

} // verus!
