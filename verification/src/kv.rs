//! Spec-level helpers for key/value sequences.
//!
//! Both the configuration maps (identifier to resource) and the structured
//! value objects are modelled as sequences of key/value pairs, looked up by
//! the first matching key. The functions here define lookup, replacement,
//! removal and key uniqueness over such sequences, together with the lemmas
//! the rest of the library needs.

use vstd::prelude::*;

verus! {

/// Some pair in `m` has key `k`.
pub open spec fn kv_has_key<T>(m: Seq<(Seq<char>, T)>, k: Seq<char>) -> bool {
    exists|i: int| 0 <= i < m.len() && m[i].0 == k
}

/// The value of the first pair in `m` whose key is `k`, if any.
pub open spec fn kv_get<T>(m: Seq<(Seq<char>, T)>, k: Seq<char>) -> Option<T>
    decreases m.len(),
{
    if m.len() == 0 {
        None
    } else if m[0].0 == k {
        Some(m[0].1)
    } else {
        kv_get(m.subrange(1, m.len() as int), k)
    }
}

/// `m` with the first pair keyed `k` replaced by `(k, v)`, or with `(k, v)`
/// appended when no pair has key `k`.
pub open spec fn kv_set<T>(m: Seq<(Seq<char>, T)>, k: Seq<char>, v: T) -> Seq<(Seq<char>, T)>
    decreases m.len(),
{
    if m.len() == 0 {
        seq![(k, v)]
    } else if m[0].0 == k {
        seq![(k, v)] + m.subrange(1, m.len() as int)
    } else {
        seq![m[0]] + kv_set(m.subrange(1, m.len() as int), k, v)
    }
}

/// `m` with the first pair keyed `k` removed, if any.
pub open spec fn kv_remove<T>(m: Seq<(Seq<char>, T)>, k: Seq<char>) -> Seq<(Seq<char>, T)>
    decreases m.len(),
{
    if m.len() == 0 {
        m
    } else if m[0].0 == k {
        m.subrange(1, m.len() as int)
    } else {
        seq![m[0]] + kv_remove(m.subrange(1, m.len() as int), k)
    }
}

/// Shallow merge: each pair of `patch`, in order, replaces or extends
/// `base` through [`kv_set`].
pub open spec fn kv_merge<T>(
    base: Seq<(Seq<char>, T)>,
    patch: Seq<(Seq<char>, T)>,
) -> Seq<(Seq<char>, T)>
    decreases patch.len(),
{
    if patch.len() == 0 {
        base
    } else {
        kv_merge(kv_set(base, patch[0].0, patch[0].1), patch.subrange(1, patch.len() as int))
    }
}

/// Merging one more trailing pair is one more [`kv_set`].
pub proof fn lemma_kv_merge_snoc<T>(base: Seq<(Seq<char>, T)>, patch: Seq<(Seq<char>, T)>)
    requires
        patch.len() > 0,
    ensures
        kv_merge(base, patch) == kv_set(
            kv_merge(base, patch.drop_last()),
            patch.last().0,
            patch.last().1,
        ),
    decreases patch.len(),
{
    let rest = patch.subrange(1, patch.len() as int);
    let stepped = kv_set(base, patch[0].0, patch[0].1);
    assert(kv_merge(base, patch) == kv_merge(stepped, rest));
    if patch.len() == 1 {
        assert(patch.drop_last() =~= Seq::<(Seq<char>, T)>::empty());
        assert(rest =~= Seq::<(Seq<char>, T)>::empty());
        assert(kv_merge(stepped, rest) == stepped);
        assert(kv_merge(base, patch.drop_last()) == base);
        assert(patch.last() == patch[0]);
    } else {
        lemma_kv_merge_snoc(stepped, rest);
        let shorter = patch.drop_last();
        assert(shorter.len() > 0);
        assert(kv_merge(base, shorter) == kv_merge(
            kv_set(base, shorter[0].0, shorter[0].1),
            shorter.subrange(1, shorter.len() as int),
        ));
        assert(shorter[0] == patch[0]);
        assert(rest.drop_last() =~= shorter.subrange(1, shorter.len() as int));
        assert(rest.last() == patch.last());
    }
}

/// No two pairs of `m` share a key.
pub open spec fn kv_keys_unique<T>(m: Seq<(Seq<char>, T)>) -> bool {
    forall|i: int, j: int| 0 <= i < j < m.len() ==> m[i].0 != m[j].0
}

/// A key is present exactly when lookup returns a value.
pub proof fn lemma_kv_get_is_some<T>(m: Seq<(Seq<char>, T)>, k: Seq<char>)
    ensures
        kv_has_key(m, k) <==> kv_get(m, k) is Some,
    decreases m.len(),
{
    if m.len() > 0 && m[0].0 != k {
        lemma_kv_get_is_some(m.subrange(1, m.len() as int), k);
        assert(kv_has_key(m, k) ==> kv_has_key(m.subrange(1, m.len() as int), k)) by {
            if kv_has_key(m, k) {
                let i = choose|i: int| 0 <= i < m.len() && m[i].0 == k;
                assert(m.subrange(1, m.len() as int)[i - 1] == m[i]);
            }
        }
        assert(kv_has_key(m.subrange(1, m.len() as int), k) ==> kv_has_key(m, k)) by {
            if kv_has_key(m.subrange(1, m.len() as int), k) {
                let i = choose|i: int|
                    0 <= i < m.subrange(1, m.len() as int).len() && m.subrange(
                        1,
                        m.len() as int,
                    )[i].0 == k;
                assert(m[i + 1].0 == k);
            }
        }
    }
}

/// Lookup returns the value at the first index whose key matches.
pub proof fn lemma_kv_get_at<T>(m: Seq<(Seq<char>, T)>, k: Seq<char>, i: int)
    requires
        0 <= i < m.len(),
        m[i].0 == k,
        forall|t: int| 0 <= t < i ==> m[t].0 != k,
    ensures
        kv_get(m, k) == Some(m[i].1),
    decreases m.len(),
{
    if i > 0 {
        let rest = m.subrange(1, m.len() as int);
        assert(rest[i - 1] == m[i]);
        assert(forall|t: int| 0 <= t < i - 1 ==> rest[t] == m[t + 1]);
        lemma_kv_get_at(rest, k, i - 1);
    }
}

/// Lookup misses when no key matches.
pub proof fn lemma_kv_get_none<T>(m: Seq<(Seq<char>, T)>, k: Seq<char>)
    requires
        forall|t: int| 0 <= t < m.len() ==> m[t].0 != k,
    ensures
        kv_get(m, k) is None,
    decreases m.len(),
{
    if m.len() > 0 {
        let rest = m.subrange(1, m.len() as int);
        assert(forall|t: int| 0 <= t < rest.len() ==> rest[t] == m[t + 1]);
        lemma_kv_get_none(rest, k);
    }
}

/// Replacing at the first matching index is a pointwise update.
pub proof fn lemma_kv_set_at<T>(m: Seq<(Seq<char>, T)>, k: Seq<char>, v: T, i: int)
    requires
        0 <= i < m.len(),
        m[i].0 == k,
        forall|t: int| 0 <= t < i ==> m[t].0 != k,
    ensures
        kv_set(m, k, v) == m.update(i, (k, v)),
    decreases m.len(),
{
    if i == 0 {
        assert(kv_set(m, k, v) =~= m.update(0, (k, v)));
    } else {
        let rest = m.subrange(1, m.len() as int);
        assert(rest[i - 1] == m[i]);
        assert(forall|t: int| 0 <= t < i - 1 ==> rest[t] == m[t + 1]);
        lemma_kv_set_at(rest, k, v, i - 1);
        assert(kv_set(m, k, v) =~= m.update(i, (k, v)));
    }
}

/// Replacing a missing key appends the pair.
pub proof fn lemma_kv_set_absent<T>(m: Seq<(Seq<char>, T)>, k: Seq<char>, v: T)
    requires
        forall|t: int| 0 <= t < m.len() ==> m[t].0 != k,
    ensures
        kv_set(m, k, v) == m.push((k, v)),
    decreases m.len(),
{
    if m.len() == 0 {
        assert(kv_set(m, k, v) =~= m.push((k, v)));
    } else {
        let rest = m.subrange(1, m.len() as int);
        assert(forall|t: int| 0 <= t < rest.len() ==> rest[t] == m[t + 1]);
        lemma_kv_set_absent(rest, k, v);
        assert(kv_set(m, k, v) =~= m.push((k, v)));
    }
}

/// Removing at the first matching index deletes exactly that pair.
pub proof fn lemma_kv_remove_at<T>(m: Seq<(Seq<char>, T)>, k: Seq<char>, i: int)
    requires
        0 <= i < m.len(),
        m[i].0 == k,
        forall|t: int| 0 <= t < i ==> m[t].0 != k,
    ensures
        kv_remove(m, k) == m.subrange(0, i) + m.subrange(i + 1, m.len() as int),
    decreases m.len(),
{
    if i == 0 {
        assert(kv_remove(m, k) =~= m.subrange(0, 0) + m.subrange(1, m.len() as int));
    } else {
        let rest = m.subrange(1, m.len() as int);
        assert(rest[i - 1] == m[i]);
        assert(forall|t: int| 0 <= t < i - 1 ==> rest[t] == m[t + 1]);
        lemma_kv_remove_at(rest, k, i - 1);
        assert(kv_remove(m, k) =~= m.subrange(0, i) + m.subrange(i + 1, m.len() as int));
    }
}

/// Looking up a freshly appended key finds its value.
pub proof fn lemma_kv_get_push_new<T>(m: Seq<(Seq<char>, T)>, k: Seq<char>, v: T)
    requires
        !kv_has_key(m, k),
    ensures
        kv_get(m.push((k, v)), k) == Some(v),
{
    assert(forall|t: int| 0 <= t < m.len() ==> #[trigger] m.push((k, v))[t].0 != k);
    lemma_kv_get_at(m.push((k, v)), k, m.len() as int);
}

/// Looking up a key just set finds its value.
pub proof fn lemma_kv_get_set<T>(m: Seq<(Seq<char>, T)>, k: Seq<char>, v: T)
    ensures
        kv_get(kv_set(m, k, v), k) == Some(v),
    decreases m.len(),
{
    if m.len() == 0 {
    } else if m[0].0 == k {
        assert((seq![(k, v)] + m.subrange(1, m.len() as int))[0] == (k, v));
    } else {
        lemma_kv_get_set(m.subrange(1, m.len() as int), k, v);
        let r = seq![m[0]] + kv_set(m.subrange(1, m.len() as int), k, v);
        assert(r[0] == m[0]);
        assert(r.subrange(1, r.len() as int) =~= kv_set(m.subrange(1, m.len() as int), k, v));
    }
}

/// Looking up another key after a set finds what it found before.
pub proof fn lemma_kv_get_set_other<T>(m: Seq<(Seq<char>, T)>, k: Seq<char>, v: T, k2: Seq<char>)
    requires
        k2 != k,
    ensures
        kv_get(kv_set(m, k, v), k2) == kv_get(m, k2),
    decreases m.len(),
{
    if m.len() == 0 {
        let r = kv_set(m, k, v);
        assert(r == seq![(k, v)]);
        assert(r[0] == (k, v));
        assert(r.subrange(1, 1) =~= Seq::<(Seq<char>, T)>::empty());
        assert(kv_get(r.subrange(1, 1), k2) is None);
        assert(kv_get(r, k2) is None);
        assert(kv_get(m, k2) is None);
    } else if m[0].0 == k {
        let r = seq![(k, v)] + m.subrange(1, m.len() as int);
        assert(r[0] == (k, v));
        assert(r.subrange(1, r.len() as int) =~= m.subrange(1, m.len() as int));
    } else {
        lemma_kv_get_set_other(m.subrange(1, m.len() as int), k, v, k2);
        let r = seq![m[0]] + kv_set(m.subrange(1, m.len() as int), k, v);
        assert(r[0] == m[0]);
        assert(r.subrange(1, r.len() as int) =~= kv_set(m.subrange(1, m.len() as int), k, v));
    }
}

/// Removing a missing key leaves the sequence unchanged.
pub proof fn lemma_kv_remove_absent<T>(m: Seq<(Seq<char>, T)>, k: Seq<char>)
    requires
        forall|t: int| 0 <= t < m.len() ==> m[t].0 != k,
    ensures
        kv_remove(m, k) == m,
    decreases m.len(),
{
    if m.len() > 0 {
        let rest = m.subrange(1, m.len() as int);
        assert(forall|t: int| 0 <= t < rest.len() ==> rest[t] == m[t + 1]);
        lemma_kv_remove_absent(rest, k);
        assert(kv_remove(m, k) =~= m);
    }
}

} // verus!
