//! Association lists: the small maps this crate keeps as vectors of pairs.
//! A key is looked up at its first occurrence, and assigning a key either
//! replaces that occurrence or appends a new pair.
use vstd::prelude::*;

verus! {

/// Index of the first pair at or after `i` whose key is `k`, or the length.
pub open spec fn find_from<K, V>(l: Seq<(K, V)>, k: K, i: int) -> int
    decreases l.len() - i,
{
    if i < 0 || i >= l.len() {
        l.len() as int
    } else if l[i].0 == k {
        i
    } else {
        find_from(l, k, i + 1)
    }
}

/// Index of the first pair whose key is `k`, or the length.
pub open spec fn find<K, V>(l: Seq<(K, V)>, k: K) -> int {
    find_from(l, k, 0)
}

/// The value stored for `k`.
pub open spec fn lookup<K, V>(l: Seq<(K, V)>, k: K) -> Option<V> {
    let i = find(l, k);
    if 0 <= i < l.len() {
        Some(l[i].1)
    } else {
        None
    }
}

/// `l` with the value for `k` set to `v`.
pub open spec fn assign<K, V>(l: Seq<(K, V)>, k: K, v: V) -> Seq<(K, V)> {
    let i = find(l, k);
    if 0 <= i < l.len() {
        l.update(i, (k, v))
    } else {
        l.push((k, v))
    }
}

/// `l` with `k` set to `v` only when it has no value yet.
pub open spec fn assign_if_absent<K, V>(l: Seq<(K, V)>, k: K, v: V) -> Seq<(K, V)> {
    if lookup(l, k) is Some {
        l
    } else {
        l.push((k, v))
    }
}

pub proof fn lemma_find_from_range<K, V>(l: Seq<(K, V)>, k: K, i: int)
    requires
        0 <= i <= l.len(),
    ensures
        i <= find_from(l, k, i) <= l.len(),
        find_from(l, k, i) < l.len() ==> l[find_from(l, k, i)].0 == k,
        forall|j: int| i <= j < find_from(l, k, i) ==> l[j].0 != k,
    decreases l.len() - i,
{
    if i < l.len() && l[i].0 != k {
        lemma_find_from_range(l, k, i + 1);
    }
}

pub proof fn lemma_find_characterized<K, V>(l: Seq<(K, V)>, k: K, n: int)
    requires
        0 <= n <= l.len(),
        n < l.len() ==> l[n].0 == k,
        forall|j: int| 0 <= j < n ==> l[j].0 != k,
    ensures
        find(l, k) == n,
{
    lemma_find_from_range(l, k, 0);
    let f = find(l, k);
    if f < n {
        assert(l[f].0 == k);
    } else if n < f {
        assert(l[n].0 != k);
    }
}

/// What `assign` does to every lookup: the assigned key reads back the new
/// value, and every other key reads what it did before.
pub proof fn lemma_lookup_assign<K, V>(l: Seq<(K, V)>, k: K, v: V, k2: K)
    ensures
        lookup(assign(l, k, v), k2) == (if k2 == k {
            Some(v)
        } else {
            lookup(l, k2)
        }),
{
    let i = find(l, k);
    lemma_find_from_range(l, k, 0);
    lemma_find_from_range(l, k2, 0);
    let l2 = assign(l, k, v);
    let f2 = find(l, k2);
    if k2 == k {
        if i < l.len() {
            lemma_find_characterized(l2, k, i);
        } else {
            lemma_find_characterized(l2, k, l.len() as int);
        }
    } else {
        if f2 < l.len() {
            assert forall|j: int| 0 <= j < f2 implies l2[j].0 != k2 by {
                assert(l[j].0 != k2);
            }
            lemma_find_characterized(l2, k2, f2);
        } else {
            assert forall|j: int| 0 <= j < l2.len() implies l2[j].0 != k2 by {
                if j < l.len() {
                    assert(l[j].0 != k2);
                }
            }
            lemma_find_characterized(l2, k2, l2.len() as int);
        }
    }
}

} // verus!
