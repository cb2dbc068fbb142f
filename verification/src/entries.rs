//! Keyed sequences: ordered lists of `(key, value)` pairs in which a key
//! occurs at most once. Both a style and an element's attribute list are
//! such sequences; the definitions and lemmas here are shared by them.

use vstd::prelude::*;

verus! {

/// A key occurs in `s`.
pub open spec fn has_key<K>(s: Seq<(K, Seq<char>)>, k: K) -> bool {
    exists|i: int| 0 <= i < s.len() && (#[trigger] s[i]).0 == k
}

/// A position at which `k` occurs in `s`; the only one where the keys of
/// `s` are unique.
pub open spec fn index_of<K>(s: Seq<(K, Seq<char>)>, k: K) -> int {
    choose|i: int| 0 <= i < s.len() && (#[trigger] s[i]).0 == k
}

/// The value stored under `k`, if any.
pub open spec fn lookup<K>(s: Seq<(K, Seq<char>)>, k: K) -> Option<Seq<char>> {
    if has_key(s, k) {
        Some(s[index_of(s, k)].1)
    } else {
        None
    }
}

/// No key occurs at two positions.
pub open spec fn unique_keys<K>(s: Seq<(K, Seq<char>)>) -> bool {
    forall|i: int, j: int|
        0 <= i < s.len() && 0 <= j < s.len() && (#[trigger] s[i]).0 == (#[trigger] s[j]).0 ==> i
            == j
}

/// Replace the value of `k` where it stands, or append `(k, v)` at the end.
pub open spec fn upsert<K>(s: Seq<(K, Seq<char>)>, k: K, v: Seq<char>) -> Seq<(K, Seq<char>)> {
    if has_key(s, k) {
        s.update(index_of(s, k), (k, v))
    } else {
        s.push((k, v))
    }
}

/// The result of a run of upserts on `s`: the pairs of `calls`, first pair
/// first.
pub open spec fn upsert_all<K>(s: Seq<(K, Seq<char>)>, calls: Seq<(K, Seq<char>)>) -> Seq<
    (K, Seq<char>),
>
    decreases calls.len(),
{
    if calls.len() == 0 {
        s
    } else {
        upsert(upsert_all(s, calls.drop_last()), calls.last().0, calls.last().1)
    }
}

/// With unique keys, any position holding `k` is the one `index_of` names.
pub proof fn lemma_index_of_unique<K>(s: Seq<(K, Seq<char>)>, k: K, i: int)
    requires
        unique_keys(s),
        0 <= i < s.len(),
        s[i].0 == k,
    ensures
        has_key(s, k),
        index_of(s, k) == i,
        lookup(s, k) == Some(s[i].1),
{
}

/// An upsert keeps keys unique, changes the length by at most one and only
/// when the key is new, and keeps every existing key at its position.
pub proof fn lemma_upsert_shape<K>(s: Seq<(K, Seq<char>)>, k: K, v: Seq<char>)
    requires
        unique_keys(s),
    ensures
        unique_keys(upsert(s, k, v)),
        has_key(s, k) ==> upsert(s, k, v).len() == s.len(),
        !has_key(s, k) ==> upsert(s, k, v).len() == s.len() + 1,
        forall|i: int| 0 <= i < s.len() ==> (#[trigger] upsert(s, k, v)[i]).0 == s[i].0,
        has_key(s, k) ==> index_of(upsert(s, k, v), k) == index_of(s, k),
        !has_key(s, k) ==> index_of(upsert(s, k, v), k) == s.len(),
{
    let t = upsert(s, k, v);
    if has_key(s, k) {
        let p = index_of(s, k);
        assert forall|i: int, j: int|
            0 <= i < t.len() && 0 <= j < t.len() && (#[trigger] t[i]).0 == (#[trigger] t[j]).0
        implies i == j by {
            assert(s[i].0 == t[i].0);
            assert(s[j].0 == t[j].0);
        }
        lemma_index_of_unique(t, k, p);
    } else {
        assert forall|i: int, j: int|
            0 <= i < t.len() && 0 <= j < t.len() && (#[trigger] t[i]).0 == (#[trigger] t[j]).0
        implies i == j by {
            if i < s.len() {
                assert(s[i].0 == t[i].0);
            }
            if j < s.len() {
                assert(s[j].0 == t[j].0);
            }
        }
        lemma_index_of_unique(t, k, s.len() as int);
    }
}

/// After an upsert of `(k, v)`, looking up `k` gives `v` and every other
/// key gives what it gave before.
pub proof fn lemma_upsert_lookup<K>(s: Seq<(K, Seq<char>)>, k: K, v: Seq<char>, other: K)
    requires
        unique_keys(s),
    ensures
        lookup(upsert(s, k, v), k) == Some(v),
        other != k ==> lookup(upsert(s, k, v), other) == lookup(s, other),
        other != k ==> has_key(upsert(s, k, v), other) == has_key(s, other),
{
    let t = upsert(s, k, v);
    lemma_upsert_shape(s, k, v);
    let p = index_of(t, k);
    assert(0 <= p < t.len() && t[p] == (k, v));
    lemma_index_of_unique(t, k, p);
    if other != k {
        if has_key(s, other) {
            let q = index_of(s, other);
            assert(t[q] == s[q]);
            lemma_index_of_unique(t, other, q);
        } else if has_key(t, other) {
            let q = index_of(t, other);
            assert(q < s.len());
            assert(s[q].0 == other);
        }
    }
}

/// Upserting the same key twice in a row: the second value is the one
/// held, the key stands where it stood after the first upsert, and the
/// result is what the second upsert alone would have given.
pub proof fn lemma_upsert_twice<K>(s: Seq<(K, Seq<char>)>, k: K, v: Seq<char>, v2: Seq<char>)
    requires
        unique_keys(s),
    ensures
        lookup(upsert(upsert(s, k, v), k, v2), k) == Some(v2),
        index_of(upsert(upsert(s, k, v), k, v2), k) == index_of(upsert(s, k, v), k),
        upsert(upsert(s, k, v), k, v2).len() == upsert(s, k, v).len(),
        upsert(upsert(s, k, v), k, v2) == upsert(s, k, v2),
{
    let once = upsert(s, k, v);
    lemma_upsert_shape(s, k, v);
    lemma_upsert_lookup(s, k, v, k);
    lemma_upsert_shape(once, k, v2);
    lemma_upsert_lookup(once, k, v2, k);
    assert(has_key(once, k));
    assert(upsert(once, k, v2) =~= upsert(s, k, v2));
}

/// Any run of upserts keeps the keys unique.
pub proof fn lemma_upsert_all_unique<K>(s: Seq<(K, Seq<char>)>, calls: Seq<(K, Seq<char>)>)
    requires
        unique_keys(s),
    ensures
        unique_keys(upsert_all(s, calls)),
    decreases calls.len(),
{
    if calls.len() > 0 {
        lemma_upsert_all_unique(s, calls.drop_last());
        lemma_upsert_shape(upsert_all(s, calls.drop_last()), calls.last().0, calls.last().1);
    }
}

/// After a run of upserts in which no key is written twice, a key that
/// was written holds the value written, and every other key holds what it
/// held before.
pub proof fn lemma_upsert_all_lookup<K>(s: Seq<(K, Seq<char>)>, calls: Seq<(K, Seq<char>)>, k: K)
    requires
        unique_keys(s),
        unique_keys(calls),
    ensures
        has_key(calls, k) ==> lookup(upsert_all(s, calls), k) == lookup(calls, k),
        !has_key(calls, k) ==> lookup(upsert_all(s, calls), k) == lookup(s, k),
    decreases calls.len(),
{
    if calls.len() > 0 {
        let init = calls.drop_last();
        let last = calls.len() - 1;
        let before = upsert_all(s, init);
        assert forall|i: int, j: int|
            0 <= i < init.len() && 0 <= j < init.len() && (#[trigger] init[i]).0 == (
            #[trigger] init[j]).0 implies i == j by {
            assert(calls[i].0 == calls[j].0);
        }
        lemma_upsert_all_unique(s, init);
        lemma_upsert_all_lookup(s, init, k);
        lemma_upsert_lookup(before, calls.last().0, calls.last().1, k);
        if k == calls.last().0 {
            lemma_index_of_unique(calls, k, last);
        } else {
            if has_key(init, k) {
                let q = index_of(init, k);
                assert(calls[q] == init[q]);
                lemma_index_of_unique(calls, k, q);
            } else if has_key(calls, k) {
                let q = index_of(calls, k);
                assert(q < last);
                assert(init[q].0 == k);
            }
        }
    }
}

} // verus!
