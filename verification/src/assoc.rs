//! Association lists: the core keys its maps (live entities, identity cache,
//! damage buckets, health samples, wave timelines) by stable values held in
//! vectors of key/value pairs with distinct keys.

use vstd::prelude::*;
use crate::events::EntityEntry;

verus! {

/// All keys of the pair list are distinct.
pub open spec fn unique_keys<K, V>(s: Seq<(K, V)>) -> bool {
    forall|i: int, j: int| 0 <= i < j < s.len() ==> s[i].0 != s[j].0
}

/// The value of the first pair carrying the key, if any.
pub open spec fn find_pair_spec<K, V>(s: Seq<(K, V)>, k: K) -> Option<V>
    decreases s.len(),
{
    if s.len() == 0 {
        None
    } else if s[0].0 == k {
        Some(s[0].1)
    } else {
        find_pair_spec(s.drop_first(), k)
    }
}

/// If the first `i` pairs miss the key and pair `i` carries it, the lookup
/// yields pair `i`'s value.
pub proof fn lemma_find_at<K, V>(s: Seq<(K, V)>, k: K, i: int)
    requires
        0 <= i < s.len(),
        forall|j: int| 0 <= j < i ==> s[j].0 != k,
        s[i].0 == k,
    ensures
        find_pair_spec(s, k) == Some(s[i].1),
    decreases i,
{
    if i == 0 {
    } else {
        assert(s[0].0 != k);
        assert(s.drop_first()[i - 1] == s[i]);
        lemma_find_at(s.drop_first(), k, i - 1);
    }
}

/// If no pair carries the key, the lookup yields nothing.
pub proof fn lemma_find_none<K, V>(s: Seq<(K, V)>, k: K)
    requires
        forall|j: int| 0 <= j < s.len() ==> s[j].0 != k,
    ensures
        find_pair_spec(s, k) is None,
    decreases s.len(),
{
    if s.len() > 0 {
        lemma_find_none(s.drop_first(), k);
    }
}

/// Appending a pair leaves every earlier key's lookup unchanged and resolves
/// the new key to the appended value when it was absent before.
pub proof fn lemma_find_push<K, V>(s: Seq<(K, V)>, p: (K, V), k: K)
    ensures
        find_pair_spec(s, k) is Some ==> find_pair_spec(s.push(p), k) == find_pair_spec(s, k),
        find_pair_spec(s, k) is None && p.0 == k ==> find_pair_spec(s.push(p), k) == Some(p.1),
        find_pair_spec(s, k) is None && p.0 != k ==> find_pair_spec(s.push(p), k) is None,
    decreases s.len(),
{
    if s.len() == 0 {
        let t = s.push(p);
        assert(t[0] == p);
        assert(t.drop_first() =~= Seq::<(K, V)>::empty());
        if p.0 != k {
            assert(find_pair_spec(t, k) == find_pair_spec(t.drop_first(), k));
            assert(find_pair_spec(t.drop_first(), k) is None);
        }
    } else {
        assert(s.push(p)[0] == s[0]);
        assert(s.push(p).drop_first() =~= s.drop_first().push(p));
        lemma_find_push(s.drop_first(), p, k);
    }
}

/// Replacing pair `i` by one with the same key changes that key's lookup to
/// the new value and no other key's lookup.
pub proof fn lemma_find_update<K, V>(s: Seq<(K, V)>, i: int, p: (K, V), k: K)
    requires
        0 <= i < s.len(),
        s[i].0 == p.0,
    ensures
        p.0 == k && (forall|j: int| 0 <= j < i ==> s[j].0 != k) ==> find_pair_spec(
            s.update(i, p),
            k,
        ) == Some(p.1),
        p.0 != k ==> find_pair_spec(s.update(i, p), k) == find_pair_spec(s, k),
    decreases i,
{
    if i == 0 {
        if p.0 != k {
            assert(s.update(0, p).drop_first() =~= s.drop_first());
        } else {
            assert(s.update(0, p)[0] == p);
        }
    } else {
        assert(s.update(i, p)[0] == s[0]);
        assert(s.update(i, p).drop_first() =~= s.drop_first().update(i - 1, p));
        lemma_find_update(s.drop_first(), i - 1, p, k);
    }
}

/// The position of the first pair carrying the key, or `-1` when absent.
pub open spec fn find_key_idx<K, V>(s: Seq<(K, V)>, k: K) -> int
    decreases s.len(),
{
    if s.len() == 0 {
        -1
    } else if s[0].0 == k {
        0
    } else {
        let r = find_key_idx(s.drop_first(), k);
        if r < 0 {
            -1
        } else {
            r + 1
        }
    }
}

/// What the key position means, and how it ties to the lookup.
pub proof fn lemma_find_key_idx<K, V>(s: Seq<(K, V)>, k: K)
    ensures
        find_key_idx(s, k) == -1 ==> find_pair_spec(s, k) is None && (forall|j: int|
            0 <= j < s.len() ==> (#[trigger] s[j]).0 != k),
        find_key_idx(s, k) >= 0 ==> {
            let i = find_key_idx(s, k);
            &&& i < s.len()
            &&& s[i].0 == k
            &&& find_pair_spec(s, k) == Some(s[i].1)
            &&& forall|j: int| 0 <= j < i ==> (#[trigger] s[j]).0 != k
        },
    decreases s.len(),
{
    if s.len() > 0 && s[0].0 != k {
        lemma_find_key_idx(s.drop_first(), k);
        let r = find_key_idx(s.drop_first(), k);
        if r < 0 {
            assert forall|j: int| 0 <= j < s.len() implies (#[trigger] s[j]).0 != k by {
                if j > 0 {
                    assert(s.drop_first()[j - 1] == s[j]);
                }
            }
        } else {
            let i = find_key_idx(s, k);
            assert(i == r + 1);
            assert(s.drop_first()[r] == s[i]);
            assert forall|j: int| 0 <= j < i implies (#[trigger] s[j]).0 != k by {
                if j > 0 {
                    assert(s.drop_first()[j - 1] == s[j]);
                }
            }
        }
    }
}

/// Removing the pair at a key's first position, in a list whose keys are
/// distinct, drops that key from the lookup and leaves every other key's
/// lookup unchanged.
pub proof fn lemma_find_remove<K, V>(s: Seq<(K, V)>, i: int, k: K)
    requires
        unique_keys(s),
        0 <= i < s.len(),
        s[i].0 == k,
    ensures
        find_pair_spec(s.remove(i), k) is None,
        forall|k2: K| k2 != k ==> #[trigger] find_pair_spec(s.remove(i), k2) == find_pair_spec(
            s,
            k2,
        ),
    decreases i,
{
    if i == 0 {
        assert(s.remove(0) =~= s.drop_first());
        assert forall|j: int| 0 <= j < s.drop_first().len() implies (#[trigger] s.drop_first()[j]).0
            != k by {
            assert(s.drop_first()[j] == s[j + 1]);
        }
        lemma_find_none(s.drop_first(), k);
        assert forall|k2: K| k2 != k implies #[trigger] find_pair_spec(s.remove(i), k2)
            == find_pair_spec(s, k2) by {
            assert(find_pair_spec(s, k2) == find_pair_spec(s.drop_first(), k2));
        }
    } else {
        assert(s.remove(i)[0] == s[0]);
        assert(s.remove(i).drop_first() =~= s.drop_first().remove(i - 1));
        assert forall|a: int, b: int|
            0 <= a < b < s.drop_first().len() implies (#[trigger] s.drop_first()[a]).0 != (
        #[trigger] s.drop_first()[b]).0 by {
            assert(s.drop_first()[a] == s[a + 1]);
            assert(s.drop_first()[b] == s[b + 1]);
        }
        assert(s.drop_first()[i - 1] == s[i]);
        lemma_find_remove(s.drop_first(), i - 1, k);
        assert(s[0].0 != k);
        assert forall|k2: K| k2 != k implies #[trigger] find_pair_spec(s.remove(i), k2)
            == find_pair_spec(s, k2) by {
            if s[0].0 != k2 {
                assert(find_pair_spec(s.remove(i), k2) == find_pair_spec(
                    s.remove(i).drop_first(),
                    k2,
                ));
                assert(find_pair_spec(s.drop_first().remove(i - 1), k2) == find_pair_spec(
                    s.drop_first(),
                    k2,
                ));
                assert(find_pair_spec(s, k2) == find_pair_spec(s.drop_first(), k2));
            }
        }
    }
}

/// Find the position of the first pair carrying an `i32` key.
pub fn find_idx_i32<V>(s: &Vec<(i32, V)>, k: i32) -> (r: Option<usize>)
    ensures
        match r {
            Some(i) => i < s.len() && s@[i as int].0 == k && find_pair_spec(s@, k) == Some(
                s@[i as int].1,
            ) && (forall|j: int| 0 <= j < i ==> s@[j].0 != k),
            None => find_pair_spec(s@, k) is None,
        },
{
    let mut i: usize = 0;
    while i < s.len()
        invariant
            0 <= i <= s.len(),
            forall|j: int| 0 <= j < i ==> s@[j].0 != k,
        decreases s.len() - i,
    {
        if s[i].0 == k {
            proof {
                lemma_find_at(s@, k, i as int);
            }
            return Some(i);
        }
        i = i + 1;
    }
    proof {
        lemma_find_none(s@, k);
    }
    None
}

/// Find the position of the first pair carrying a `u32` key.
pub fn find_idx_u32<V>(s: &Vec<(u32, V)>, k: u32) -> (r: Option<usize>)
    ensures
        match r {
            Some(i) => i < s.len() && s@[i as int].0 == k && find_pair_spec(s@, k) == Some(
                s@[i as int].1,
            ) && (forall|j: int| 0 <= j < i ==> s@[j].0 != k),
            None => find_pair_spec(s@, k) is None,
        },
{
    let mut i: usize = 0;
    while i < s.len()
        invariant
            0 <= i <= s.len(),
            forall|j: int| 0 <= j < i ==> s@[j].0 != k,
        decreases s.len() - i,
    {
        if s[i].0 == k {
            proof {
                lemma_find_at(s@, k, i as int);
            }
            return Some(i);
        }
        i = i + 1;
    }
    proof {
        lemma_find_none(s@, k);
    }
    None
}

/// Set the value of an `i32` key: overwrite the pair in place when the key
/// is present, append it otherwise.
pub fn upsert_i32<V>(v: &mut Vec<(i32, V)>, k: i32, val: V)
    requires
        unique_keys(old(v)@),
    ensures
        unique_keys(final(v)@),
        final(v)@ == (if find_key_idx(old(v)@, k) >= 0 {
            old(v)@.update(find_key_idx(old(v)@, k), (k, val))
        } else {
            old(v)@.push((k, val))
        }),
        find_pair_spec(final(v)@, k) == Some(val),
        forall|k2: i32|
            k2 != k ==> #[trigger] find_pair_spec(final(v)@, k2) == find_pair_spec(old(v)@, k2),
        final(v)@.len() == old(v)@.len() + (if find_key_idx(old(v)@, k) >= 0 {
            0int
        } else {
            1int
        }),
        forall|j: int| 0 <= j < old(v)@.len() ==> (#[trigger] final(v)@[j]).0 == old(v)@[j].0,
{
    proof {
        lemma_find_key_idx(old(v)@, k);
    }
    let found = find_idx_i32(v, k);
    let ghost pre = v@;
    match found {
        Some(i) => {
            let _ = v.remove(i);
            v.insert(i, (k, val));
            proof {
                assert(i as int == find_key_idx(pre, k));
                assert(v@ =~= pre.update(i as int, (k, val)));
                assert forall|k2: i32| true implies #[trigger] find_pair_spec(v@, k2) == (if k2
                    == k {
                    Some(val)
                } else {
                    find_pair_spec(pre, k2)
                }) by {
                    lemma_find_update(pre, i as int, (k, val), k2);
                }
                assert forall|a: int, b: int| 0 <= a < b < v@.len() implies v@[a].0 != v@[b].0 by {
                    assert(v@[a].0 == pre[a].0);
                    assert(v@[b].0 == pre[b].0);
                }
            }
        },
        None => {
            v.push((k, val));
            proof {
                assert(find_key_idx(pre, k) == -1);
                assert forall|k2: i32| true implies #[trigger] find_pair_spec(v@, k2) == (if k2
                    == k {
                    Some(val)
                } else {
                    find_pair_spec(pre, k2)
                }) by {
                    lemma_find_push(pre, (k, val), k2);
                }
                assert forall|a: int, b: int| 0 <= a < b < v@.len() implies v@[a].0 != v@[b].0 by {
                    if b == v@.len() - 1 {
                        if v@[a].0 == k {
                            lemma_find_at(pre, k, a);
                        }
                    }
                }
            }
        },
    }
}

/// Drop an `i32` key: remove its pair when present, leaving every other
/// key's lookup unchanged.
pub fn remove_key_i32<V>(v: &mut Vec<(i32, V)>, k: i32)
    requires
        unique_keys(old(v)@),
    ensures
        unique_keys(final(v)@),
        final(v)@ == (if find_key_idx(old(v)@, k) >= 0 {
            old(v)@.remove(find_key_idx(old(v)@, k))
        } else {
            old(v)@
        }),
        find_pair_spec(final(v)@, k) is None,
        forall|k2: i32|
            k2 != k ==> #[trigger] find_pair_spec(final(v)@, k2) == find_pair_spec(old(v)@, k2),
{
    proof {
        lemma_find_key_idx(old(v)@, k);
    }
    let found = find_idx_i32(v, k);
    let ghost pre = v@;
    match found {
        Some(i) => {
            let _ = v.remove(i);
            proof {
                assert(i as int == find_key_idx(pre, k));
                lemma_find_remove(pre, i as int, k);
                assert forall|a: int, b: int| 0 <= a < b < v@.len() implies v@[a].0 != v@[b].0 by {
                    let a0 = if a < i as int {
                        a
                    } else {
                        a + 1
                    };
                    let b0 = if b < i as int {
                        b
                    } else {
                        b + 1
                    };
                    assert(v@[a].0 == pre[a0].0);
                    assert(v@[b].0 == pre[b0].0);
                }
            }
        },
        None => {},
    }
}

/// Find the position of the first live-entity pair carrying the key.
pub fn find_entity(s: &Vec<(i32, EntityEntry)>, k: i32) -> (r: Option<usize>)
    ensures
        match r {
            Some(i) => i < s.len() && s@[i as int].0 == k && find_pair_spec(s@, k) == Some(
                s@[i as int].1,
            ) && (forall|j: int| 0 <= j < i ==> s@[j].0 != k),
            None => find_pair_spec(s@, k) is None,
        },
{
    find_idx_i32(s, k)
}

} // verus!
