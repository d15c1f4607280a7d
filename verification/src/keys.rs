//! Lookup of the first position at which a key occurs in a sequence of keys.
//! Every collection of the drawing model is searched front to back, so the
//! element an operation acts on is always the first one with the key.

use vstd::prelude::*;

verus! {

/// The first position at which `k` occurs in `keys`, or -1 when it does not occur.
pub open spec fn first_index<K>(keys: Seq<K>, k: K) -> int
    decreases keys.len(),
{
    if keys.len() == 0 {
        -1
    } else {
        let before = first_index(keys.drop_last(), k);
        if before >= 0 {
            before
        } else if keys.last() == k {
            keys.len() - 1
        } else {
            -1
        }
    }
}

/// `first_index` is -1 exactly when the key is absent; otherwise it names a
/// position holding the key, with no earlier position holding it.
pub proof fn lemma_first_index<K>(keys: Seq<K>, k: K)
    ensures
        -1 <= first_index(keys, k) < keys.len(),
        first_index(keys, k) == -1 <==> (forall|j: int| 0 <= j < keys.len() ==> keys[j] != k),
        first_index(keys, k) >= 0 ==> keys[first_index(keys, k)] == k,
        forall|j: int| 0 <= j < first_index(keys, k) ==> keys[j] != k,
    decreases keys.len(),
{
    if keys.len() > 0 {
        let p = keys.drop_last();
        lemma_first_index(p, k);
        assert forall|j: int| 0 <= j < p.len() implies p[j] == keys[j] by {}
    }
}

/// A position that holds the key, with no earlier position holding it, is `first_index`.
pub proof fn lemma_first_index_unique<K>(keys: Seq<K>, k: K, i: int)
    requires
        0 <= i < keys.len(),
        keys[i] == k,
        forall|j: int| 0 <= j < i ==> keys[j] != k,
    ensures
        first_index(keys, k) == i,
{
    lemma_first_index(keys, k);
    let f = first_index(keys, k);
    assert(f != -1);
    if f < i {
        assert(keys[f] != k);
    }
    if f > i {
        assert(keys[i] != k);
    }
}

/// Whether `k` occurs in `keys` at all.
pub open spec fn has_key<K>(keys: Seq<K>, k: K) -> bool {
    exists|j: int| 0 <= j < keys.len() && keys[j] == k
}

/// A key occurs exactly when its first position is defined.
pub proof fn lemma_has_key<K>(keys: Seq<K>, k: K)
    ensures
        has_key(keys, k) <==> first_index(keys, k) >= 0,
{
    lemma_first_index(keys, k);
    if first_index(keys, k) >= 0 {
        assert(keys[first_index(keys, k)] == k);
    }
}

/// No key occurs twice.
pub open spec fn keys_unique<K>(keys: Seq<K>) -> bool {
    forall|i: int, j: int| 0 <= i < keys.len() && 0 <= j < keys.len() && i != j ==> keys[i] != keys[j]
}

/// A key absent from `keys` is first found at the end once pushed.
pub proof fn lemma_first_index_push_absent<K>(keys: Seq<K>, k: K)
    requires
        !has_key(keys, k),
    ensures
        first_index(keys.push(k), k) == keys.len(),
{
    let s = keys.push(k);
    assert(s.drop_last() =~= keys);
    lemma_has_key(keys, k);
}

} // verus!
