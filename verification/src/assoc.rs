use vstd::prelude::*;

verus! {

/// Index of the first entry of `s` with key `k`, or `-1`.
pub open spec fn assoc_index<K, V>(s: Seq<(K, V)>, k: K) -> int
    decreases s.len(),
{
    if s.len() == 0 {
        -1
    } else if s[0].0 == k {
        0
    } else {
        let i = assoc_index(s.drop_first(), k);
        if i < 0 {
            -1
        } else {
            i + 1
        }
    }
}

/// The value of the first entry of `s` with key `k`.
pub open spec fn assoc_lookup<K, V>(s: Seq<(K, V)>, k: K) -> Option<V> {
    let i = assoc_index(s, k);
    if i < 0 {
        None
    } else {
        Some(s[i].1)
    }
}

/// No key occurs twice in `s`.
pub open spec fn assoc_keys_unique<K, V>(s: Seq<(K, V)>) -> bool {
    forall|i: int, j: int| 0 <= i < j < s.len() ==> s[i].0 != s[j].0
}

/// `assoc_index` is the first position that holds the key.
pub proof fn lemma_assoc_index<K, V>(s: Seq<(K, V)>, k: K)
    ensures
        -1 <= assoc_index(s, k) < s.len(),
        assoc_index(s, k) >= 0 ==> s[assoc_index(s, k)].0 == k,
        forall|m: int| 0 <= m < assoc_index(s, k) ==> s[m].0 != k,
        assoc_index(s, k) < 0 <==> forall|m: int| 0 <= m < s.len() ==> s[m].0 != k,
    decreases s.len(),
{
    if s.len() > 0 {
        lemma_assoc_index(s.drop_first(), k);
        if s[0].0 != k {
            assert forall|m: int| 0 <= m < s.len() && s[m].0 == k implies assoc_index(s, k) >= 0
                && assoc_index(s, k) <= m by {
                assert(s.drop_first()[m - 1] == s[m]);
            }
            assert forall|m: int| 0 < m < assoc_index(s, k) implies s[m].0 != k by {
                assert(s.drop_first()[m - 1] == s[m]);
            }
            if assoc_index(s, k) >= 0 {
                assert(s.drop_first()[assoc_index(s, k) - 1] == s[assoc_index(s, k)]);
            }
        }
    }
}

/// Two lists with the same keys, in the same places, find every key in the
/// same place.
pub proof fn lemma_assoc_same_keys<K, V>(s: Seq<(K, V)>, t: Seq<(K, V)>, k: K)
    requires
        s.len() == t.len(),
        forall|m: int| 0 <= m < s.len() ==> s[m].0 == t[m].0,
    ensures
        assoc_index(s, k) == assoc_index(t, k),
{
    lemma_assoc_index(s, k);
    lemma_assoc_index(t, k);
    let a = assoc_index(s, k);
    let b = assoc_index(t, k);
    if a >= 0 && b >= 0 {
        if a < b {
            assert(t[a].0 == k);
        } else if b < a {
            assert(s[b].0 == k);
        }
    } else if a >= 0 {
        assert(t[a].0 == k);
    } else if b >= 0 {
        assert(s[b].0 == k);
    }
}

/// Replacing the value at the first entry of key `k` changes the lookup of
/// `k` only.
pub proof fn lemma_assoc_update<K, V>(s: Seq<(K, V)>, k: K, v: V)
    requires
        assoc_index(s, k) >= 0,
    ensures
        ({
            let t = s.update(assoc_index(s, k), (k, v));
            forall|k2: K| #[trigger]
                assoc_lookup(t, k2) == if k2 == k {
                    Some(v)
                } else {
                    assoc_lookup(s, k2)
                }
        }),
{
    lemma_assoc_index(s, k);
    let i = assoc_index(s, k);
    let t = s.update(i, (k, v));
    assert forall|k2: K| #[trigger]
        assoc_lookup(t, k2) == if k2 == k {
            Some(v)
        } else {
            assoc_lookup(s, k2)
        } by {
        lemma_assoc_same_keys(s, t, k2);
        lemma_assoc_index(s, k2);
        if k2 != k && assoc_index(s, k2) >= 0 {
            assert(assoc_index(s, k2) != i);
        }
    }
}

/// Appending an entry for a key that is not there makes it found, and
/// changes no other lookup.
pub proof fn lemma_assoc_push<K, V>(s: Seq<(K, V)>, k: K, v: V)
    requires
        assoc_index(s, k) < 0,
    ensures
        forall|k2: K| #[trigger]
            assoc_lookup(s.push((k, v)), k2) == if k2 == k {
                Some(v)
            } else {
                assoc_lookup(s, k2)
            },
        assoc_index(s.push((k, v)), k) == s.len(),
{
    let t = s.push((k, v));
    lemma_assoc_index(s, k);
    lemma_assoc_index(t, k);
    assert(t[s.len() as int].0 == k);
    assert forall|k2: K| #[trigger]
        assoc_lookup(t, k2) == if k2 == k {
            Some(v)
        } else {
            assoc_lookup(s, k2)
        } by {
        lemma_assoc_index(s, k2);
        lemma_assoc_index(t, k2);
        let a = assoc_index(s, k2);
        let b = assoc_index(t, k2);
        if k2 != k {
            if a >= 0 {
                assert(t[a] == s[a]);
                if b < a {
                    assert(t[b] == s[b]);
                }
            } else if b >= 0 {
                if b < s.len() {
                    assert(t[b] == s[b]);
                }
            }
        } else {
            if b < s.len() as int && b >= 0 {
                assert(t[b] == s[b]);
            }
        }
    }
}

/// Removing the entry at the first place of key `k`, where keys are unique,
/// loses `k` and changes no other lookup.
pub proof fn lemma_assoc_remove<K, V>(s: Seq<(K, V)>, k: K)
    requires
        assoc_index(s, k) >= 0,
        assoc_keys_unique(s),
    ensures
        ({
            let t = s.remove(assoc_index(s, k));
            &&& assoc_keys_unique(t)
            &&& forall|k2: K| #[trigger]
                assoc_lookup(t, k2) == if k2 == k {
                    None
                } else {
                    assoc_lookup(s, k2)
                }
        }),
{
    lemma_assoc_index(s, k);
    let i = assoc_index(s, k);
    let t = s.remove(i);
    assert forall|p: int, q: int| 0 <= p < q < t.len() implies t[p].0 != t[q].0 by {
        let sp = if p < i { p } else { p + 1 };
        let sq = if q < i { q } else { q + 1 };
        assert(t[p] == s[sp]);
        assert(t[q] == s[sq]);
    }
    assert forall|k2: K| #[trigger]
        assoc_lookup(t, k2) == if k2 == k {
            None
        } else {
            assoc_lookup(s, k2)
        } by {
        lemma_assoc_index(s, k2);
        lemma_assoc_index(t, k2);
        let a = assoc_index(s, k2);
        let b = assoc_index(t, k2);
        if k2 == k {
            if b >= 0 {
                let sb = if b < i { b } else { b + 1 };
                assert(t[b] == s[sb]);
            }
        } else {
            if a >= 0 {
                let ta = if a < i { a } else { a - 1 };
                assert(a != i);
                assert(t[ta] == s[a]);
                if b >= 0 {
                    let sb = if b < i { b } else { b + 1 };
                    assert(t[b] == s[sb]);
                    if b < ta {
                        assert(sb < a);
                    }
                }
            } else if b >= 0 {
                let sb = if b < i { b } else { b + 1 };
                assert(t[b] == s[sb]);
            }
        }
    }
}

/// Updating a value keeps keys unique.
pub proof fn lemma_assoc_update_unique<K, V>(s: Seq<(K, V)>, i: int, k: K, v: V)
    requires
        assoc_keys_unique(s),
        0 <= i < s.len(),
        s[i].0 == k,
    ensures
        assoc_keys_unique(s.update(i, (k, v))),
{
    let t = s.update(i, (k, v));
    assert forall|p: int, q: int| 0 <= p < q < t.len() implies t[p].0 != t[q].0 by {
        assert(t[p].0 == s[p].0);
        assert(t[q].0 == s[q].0);
    }
}

/// Appending a new key keeps keys unique.
pub proof fn lemma_assoc_push_unique<K, V>(s: Seq<(K, V)>, k: K, v: V)
    requires
        assoc_keys_unique(s),
        assoc_index(s, k) < 0,
    ensures
        assoc_keys_unique(s.push((k, v))),
{
    lemma_assoc_index(s, k);
    let t = s.push((k, v));
    assert forall|p: int, q: int| 0 <= p < q < t.len() implies t[p].0 != t[q].0 by {
        assert(t[p] == s[p]);
        if q < s.len() {
            assert(t[q] == s[q]);
        }
    }
}

/// The value that key `k` has after the entries of `s` are inserted one by
/// one into a map, each in place of any earlier value: the last value given.
pub open spec fn last_lookup<K, V>(s: Seq<(K, V)>, k: K) -> Option<V>
    decreases s.len(),
{
    if s.len() == 0 {
        None
    } else if s.last().0 == k {
        Some(s.last().1)
    } else {
        last_lookup(s.drop_last(), k)
    }
}

/// Inserting one more entry gives its key the new value and leaves the
/// other keys as they were.
pub proof fn lemma_last_lookup_push<K, V>(s: Seq<(K, V)>, k: K, v: V, k2: K)
    ensures
        last_lookup(s.push((k, v)), k2) == if k2 == k {
            Some(v)
        } else {
            last_lookup(s, k2)
        },
{
    assert(s.push((k, v)).drop_last() =~= s);
}

} // verus!
