//! Association sequences keyed by byte strings: the registry's maps are
//! vectors of pairs with pairwise-distinct keys, and these are the shared
//! lookup and insert specifications over them.

use vstd::prelude::*;

verus! {

/// The first index among the first `n` entries whose key is `key`.
pub open spec fn find_key_upto<V>(pairs: Seq<(Seq<u8>, V)>, key: Seq<u8>, n: int) -> Option<int>
    decreases n,
{
    if n <= 0 {
        None
    } else {
        match find_key_upto(pairs, key, n - 1) {
            Some(i) => Some(i),
            None => if pairs[n - 1].0 == key {
                Some(n - 1)
            } else {
                None
            },
        }
    }
}

/// The first index of `key` in `pairs`.
pub open spec fn find_key<V>(pairs: Seq<(Seq<u8>, V)>, key: Seq<u8>) -> Option<int> {
    find_key_upto(pairs, key, pairs.len() as int)
}

/// The value bound to `key`, taken from its first binding.
pub open spec fn lookup_val<V>(pairs: Seq<(Seq<u8>, V)>, key: Seq<u8>) -> Option<V> {
    match find_key(pairs, key) {
        Some(i) => Some(pairs[i].1),
        None => None,
    }
}

/// Bind `key` to `v`: overwrite its binding where one exists, else append.
pub open spec fn insert_pair<V>(pairs: Seq<(Seq<u8>, V)>, key: Seq<u8>, v: V) -> Seq<(Seq<u8>, V)> {
    match find_key(pairs, key) {
        Some(i) => pairs.update(i, (key, v)),
        None => pairs.push((key, v)),
    }
}

/// Keys are pairwise distinct.
pub open spec fn unique_keys<V>(pairs: Seq<(Seq<u8>, V)>) -> bool {
    forall|j: int, k: int|
        0 <= j < k < pairs.len() ==> (#[trigger] pairs[j]).0 != (#[trigger] pairs[k]).0
}

/// What `find_key_upto` returns: a first binding of `key`, or nothing
/// where none of the first `n` entries binds it.
pub proof fn lemma_find_key_upto<V>(pairs: Seq<(Seq<u8>, V)>, key: Seq<u8>, n: int)
    requires
        n <= pairs.len(),
    ensures
        find_key_upto(pairs, key, n) matches Some(i) ==> 0 <= i < n && pairs[i].0 == key && forall|
            j: int,
        | 0 <= j < i ==> (#[trigger] pairs[j]).0 != key,
        find_key_upto(pairs, key, n) is None ==> forall|j: int|
            0 <= j < n ==> (#[trigger] pairs[j]).0 != key,
    decreases n,
{
    if n > 0 {
        lemma_find_key_upto(pairs, key, n - 1);
    }
}

/// Inserting preserves key uniqueness.
pub proof fn lemma_insert_pair_unique<V>(pairs: Seq<(Seq<u8>, V)>, key: Seq<u8>, v: V)
    requires
        unique_keys(pairs),
    ensures
        unique_keys(insert_pair(pairs, key, v)),
{
    lemma_find_key_upto(pairs, key, pairs.len() as int);
}

/// After an insert, `key` is bound to `v` and every other key keeps its
/// binding.
pub proof fn lemma_insert_pair_lookup<V>(pairs: Seq<(Seq<u8>, V)>, key: Seq<u8>, v: V)
    requires
        unique_keys(pairs),
    ensures
        lookup_val(insert_pair(pairs, key, v), key) == Some(v),
        forall|k2: Seq<u8>|
            k2 != key ==> #[trigger] lookup_val(insert_pair(pairs, key, v), k2) == lookup_val(
                pairs,
                k2,
            ),
{
    let res = insert_pair(pairs, key, v);
    lemma_find_key_upto(pairs, key, pairs.len() as int);
    assert forall|k2: Seq<u8>| true implies #[trigger] lookup_val(res, k2) == (if k2 == key {
        Some(v)
    } else {
        lookup_val(pairs, k2)
    }) by {
        lemma_find_key_upto(res, k2, res.len() as int);
        lemma_find_key_upto(pairs, k2, pairs.len() as int);
        match find_key(pairs, key) {
            Some(i) => {
                lemma_find_key_chain_update(pairs, key, v, i, k2);
            },
            None => {
                lemma_find_key_chain_push(pairs, key, v, k2);
            },
        }
    }
}

proof fn lemma_find_key_chain_update<V>(
    pairs: Seq<(Seq<u8>, V)>,
    key: Seq<u8>,
    v: V,
    i: int,
    k2: Seq<u8>,
)
    requires
        unique_keys(pairs),
        find_key(pairs, key) == Some(i),
        0 <= i < pairs.len(),
        pairs[i].0 == key,
    ensures
        lookup_val(pairs.update(i, (key, v)), k2) == (if k2 == key {
            Some(v)
        } else {
            lookup_val(pairs, k2)
        }),
{
    let res = pairs.update(i, (key, v));
    lemma_find_key_same_keys(pairs, res, k2);
    lemma_find_key_upto(pairs, k2, pairs.len() as int);
    lemma_find_key_upto(res, k2, res.len() as int);
}

/// Two sequences with pointwise-equal keys find every key at the same
/// index.
proof fn lemma_find_key_same_keys<V>(a: Seq<(Seq<u8>, V)>, b: Seq<(Seq<u8>, V)>, key: Seq<u8>)
    requires
        a.len() == b.len(),
        forall|j: int| 0 <= j < a.len() ==> (#[trigger] a[j]).0 == (#[trigger] b[j]).0,
    ensures
        find_key(a, key) == find_key(b, key),
{
    lemma_find_key_upto_same_keys(a, b, key, a.len() as int);
}

proof fn lemma_find_key_upto_same_keys<V>(
    a: Seq<(Seq<u8>, V)>,
    b: Seq<(Seq<u8>, V)>,
    key: Seq<u8>,
    n: int,
)
    requires
        a.len() == b.len(),
        n <= a.len(),
        forall|j: int| 0 <= j < a.len() ==> (#[trigger] a[j]).0 == (#[trigger] b[j]).0,
    ensures
        find_key_upto(a, key, n) == find_key_upto(b, key, n),
    decreases n,
{
    if n > 0 {
        lemma_find_key_upto_same_keys(a, b, key, n - 1);
    }
}

proof fn lemma_find_key_chain_push<V>(pairs: Seq<(Seq<u8>, V)>, key: Seq<u8>, v: V, k2: Seq<u8>)
    requires
        find_key(pairs, key) is None,
    ensures
        lookup_val(pairs.push((key, v)), k2) == (if k2 == key {
            Some(v)
        } else {
            lookup_val(pairs, k2)
        }),
{
    let res = pairs.push((key, v));
    lemma_find_key_upto(pairs, key, pairs.len() as int);
    lemma_find_key_upto_push(pairs, key, v, k2, pairs.len() as int);
    lemma_find_key_upto(res, k2, res.len() as int);
    lemma_find_key_upto(pairs, k2, pairs.len() as int);
    assert(find_key_upto(res, k2, res.len() as int) == find_key_upto(
        res,
        k2,
        pairs.len() as int + 1,
    ));
}

/// A push leaves lookups among the first `n` old entries unchanged.
proof fn lemma_find_key_upto_push<V>(
    pairs: Seq<(Seq<u8>, V)>,
    key: Seq<u8>,
    v: V,
    k2: Seq<u8>,
    n: int,
)
    requires
        n <= pairs.len(),
    ensures
        find_key_upto(pairs.push((key, v)), k2, n) == find_key_upto(pairs, k2, n),
    decreases n,
{
    if n > 0 {
        lemma_find_key_upto_push(pairs, key, v, k2, n - 1);
    }
}

/// Every key bound before an insert is still bound after it.
pub proof fn lemma_insert_pair_keeps_keys<V>(
    pairs: Seq<(Seq<u8>, V)>,
    key: Seq<u8>,
    v: V,
    k2: Seq<u8>,
)
    requires
        find_key(pairs, k2) is Some,
    ensures
        find_key(insert_pair(pairs, key, v), k2) is Some,
    decreases pairs.len(),
{
    let res = insert_pair(pairs, key, v);
    lemma_find_key_upto(pairs, key, pairs.len() as int);
    lemma_find_key_upto(pairs, k2, pairs.len() as int);
    lemma_find_key_upto(res, k2, res.len() as int);
    let i = find_key(pairs, k2).unwrap();
    match find_key(pairs, key) {
        Some(j) => {
            if find_key(res, k2) is None {
                assert(res[i].0 == if i == j {
                    key
                } else {
                    pairs[i].0
                });
                assert(false);
            }
        },
        None => {
            if find_key(res, k2) is None {
                assert(res[i].0 == pairs[i].0);
                assert(false);
            }
        },
    }
}

} // verus!
