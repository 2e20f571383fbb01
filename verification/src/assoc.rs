//! Ordered association sequences: the mathematical model behind every index
//! structure. Keys keep their first-insertion position; a repeated key
//! updates the entry in place, so building an index is a deterministic
//! function of the insertion order.

use vstd::prelude::*;

verus! {

/// Updates the first entry carrying `k` with `f`, or appends `(k, f(d))`
/// when no entry carries it: `d` is the fresh value a new key starts from.
pub open spec fn assoc_update<K, V>(m: Seq<(K, V)>, k: K, d: V, f: spec_fn(V) -> V) -> Seq<(K, V)>
    decreases m.len(),
{
    if m.len() == 0 {
        seq![(k, f(d))]
    } else if m[0].0 == k {
        seq![(k, f(m[0].1))] + m.drop_first()
    } else {
        seq![m[0]] + assoc_update(m.drop_first(), k, d, f)
    }
}

/// Stores `v` under `k`: last write wins, position of an existing key kept.
pub open spec fn assoc_set<K, V>(m: Seq<(K, V)>, k: K, v: V) -> Seq<(K, V)> {
    assoc_update(m, k, v, |x: V| v)
}

/// Appends `x` unless it is already present: an insertion-ordered set.
pub open spec fn seq_insert_unique<T>(s: Seq<T>, x: T) -> Seq<T> {
    if s.contains(x) {
        s
    } else {
        s.push(x)
    }
}

/// An in-place write at the first index carrying the key is exactly
/// `assoc_set`.
pub proof fn lemma_assoc_set_found<K, V>(m: Seq<(K, V)>, k: K, v: V, i: int)
    requires
        0 <= i < m.len(),
        m[i].0 == k,
        forall|j: int| 0 <= j < i ==> m[j].0 != k,
    ensures
        assoc_set(m, k, v) == m.update(i, (k, v)),
    decreases i,
{
    if i == 0 {
        assert(assoc_set(m, k, v) =~= m.update(0, (k, v)));
    } else {
        lemma_assoc_set_found(m.drop_first(), k, v, i - 1);
        assert(m.drop_first()[i - 1] == m[i]);
        assert(assoc_set(m, k, v) =~= m.update(i, (k, v)));
    }
}

/// Appending a fresh key is exactly `assoc_set` when no entry carries it.
pub proof fn lemma_assoc_set_absent<K, V>(m: Seq<(K, V)>, k: K, v: V)
    requires
        forall|j: int| 0 <= j < m.len() ==> m[j].0 != k,
    ensures
        assoc_set(m, k, v) == m.push((k, v)),
    decreases m.len(),
{
    if m.len() == 0 {
        assert(assoc_set(m, k, v) =~= m.push((k, v)));
    } else {
        lemma_assoc_set_absent(m.drop_first(), k, v);
        assert(assoc_set(m, k, v) =~= m.push((k, v)));
    }
}

} // verus!
