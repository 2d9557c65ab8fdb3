//! Association lists keyed by 32-bit handles: a vector of pairs with
//! distinct keys, read as a map.
use vstd::prelude::*;

verus! {

/// The map that a list of pairs holds (a later pair wins).
pub open spec fn assoc_view<T: View>(pairs: Seq<(u32, T)>) -> Map<u32, T::V>
    decreases pairs.len(),
{
    if pairs.len() == 0 {
        Map::empty()
    } else {
        assoc_view(pairs.drop_last()).insert(pairs.last().0, pairs.last().1@)
    }
}

/// No key occurs twice.
pub open spec fn unique_keys<T>(pairs: Seq<(u32, T)>) -> bool {
    forall|a: int, b: int| 0 <= a < b < pairs.len() ==> (#[trigger] pairs[a]).0 != (#[trigger] pairs[b]).0
}

pub proof fn lemma_assoc_lookup<T: View>(pairs: Seq<(u32, T)>, k: int)
    requires
        0 <= k < pairs.len(),
        unique_keys(pairs),
    ensures
        assoc_view(pairs).contains_key(pairs[k].0),
        assoc_view(pairs)[pairs[k].0] == pairs[k].1@,
    decreases pairs.len(),
{
    if k < pairs.len() - 1 {
        lemma_assoc_lookup(pairs.drop_last(), k);
        assert(pairs[k].0 != pairs[pairs.len() - 1].0);
    }
}

pub proof fn lemma_assoc_absent<T: View>(pairs: Seq<(u32, T)>, key: u32)
    requires
        forall|j: int| 0 <= j < pairs.len() ==> (#[trigger] pairs[j]).0 != key,
    ensures
        !assoc_view(pairs).contains_key(key),
    decreases pairs.len(),
{
    if pairs.len() > 0 {
        lemma_assoc_absent(pairs.drop_last(), key);
    }
}

pub proof fn lemma_assoc_update<T: View>(pairs: Seq<(u32, T)>, k: int, value: T)
    requires
        0 <= k < pairs.len(),
        unique_keys(pairs),
    ensures
        assoc_view(pairs.update(k, (pairs[k].0, value))) == assoc_view(pairs).insert(pairs[k].0, value@),
        unique_keys(pairs.update(k, (pairs[k].0, value))),
    decreases pairs.len(),
{
    let key = pairs[k].0;
    let updated = pairs.update(k, (key, value));
    assert forall|a: int, b: int| 0 <= a < b < updated.len() implies (#[trigger] updated[a]).0 != (#[trigger] updated[b]).0 by {
        assert(pairs[a].0 != pairs[b].0);
    }
    if k == pairs.len() - 1 {
        assert(updated.drop_last() =~= pairs.drop_last());
        assert(assoc_view(pairs.drop_last()).insert(key, pairs[k].1@).insert(key, value@) =~= assoc_view(
            pairs.drop_last(),
        ).insert(key, value@));
    } else {
        lemma_assoc_update(pairs.drop_last(), k, value);
        assert(updated.drop_last() =~= pairs.drop_last().update(k, (key, value)));
        assert(pairs[k].0 != pairs.last().0);
        assert(assoc_view(pairs.drop_last()).insert(key, value@).insert(pairs.last().0, pairs.last().1@) =~= assoc_view(
            pairs.drop_last(),
        ).insert(pairs.last().0, pairs.last().1@).insert(key, value@));
    }
}

pub proof fn lemma_assoc_remove<T: View>(pairs: Seq<(u32, T)>, k: int)
    requires
        0 <= k < pairs.len(),
        unique_keys(pairs),
    ensures
        assoc_view(pairs.remove(k)) == assoc_view(pairs).remove(pairs[k].0),
        unique_keys(pairs.remove(k)),
    decreases pairs.len(),
{
    let key = pairs[k].0;
    let removed = pairs.remove(k);
    assert forall|a: int, b: int| 0 <= a < b < removed.len() implies (#[trigger] removed[a]).0 != (#[trigger] removed[b]).0 by {
        let a2 = if a < k { a } else { a + 1 };
        let b2 = if b < k { b } else { b + 1 };
        assert(removed[a] == pairs[a2]);
        assert(removed[b] == pairs[b2]);
        assert(pairs[a2].0 != pairs[b2].0);
    }
    if k == pairs.len() - 1 {
        assert(removed =~= pairs.drop_last());
        assert forall|j: int| 0 <= j < pairs.drop_last().len() implies (#[trigger] pairs.drop_last()[j]).0 != key by {
            assert(pairs[j].0 != pairs[k].0);
        }
        lemma_assoc_absent(pairs.drop_last(), key);
        assert(assoc_view(pairs.drop_last()) =~= assoc_view(pairs.drop_last()).insert(key, pairs[k].1@).remove(key));
    } else {
        lemma_assoc_remove(pairs.drop_last(), k);
        assert(removed.drop_last() =~= pairs.drop_last().remove(k));
        assert(removed.last() == pairs.last());
        assert(pairs[k].0 != pairs.last().0);
        assert(assoc_view(pairs.drop_last()).remove(key).insert(pairs.last().0, pairs.last().1@) =~= assoc_view(
            pairs.drop_last(),
        ).insert(pairs.last().0, pairs.last().1@).remove(key));
    }
}

/// The position of `key`, if present.
pub fn find_key<T: View>(pairs: &Vec<(u32, T)>, key: u32) -> (r: Option<usize>)
    requires
        unique_keys(pairs@),
    ensures
        match r {
            Some(k) => k < pairs@.len() && pairs@[k as int].0 == key && assoc_view(pairs@).contains_key(key)
                && assoc_view(pairs@)[key] == pairs@[k as int].1@,
            None => !assoc_view(pairs@).contains_key(key),
        },
{
    let mut k: usize = 0;
    while k < pairs.len()
        invariant
            unique_keys(pairs@),
            k <= pairs@.len(),
            forall|j: int| 0 <= j < k ==> (#[trigger] pairs@[j]).0 != key,
        decreases pairs@.len() - k,
    {
        if pairs[k].0 == key {
            proof {
                lemma_assoc_lookup(pairs@, k as int);
            }
            return Some(k);
        }
        k = k + 1;
    }
    proof {
        lemma_assoc_absent(pairs@, key);
    }
    None
}

/// Maps `key` to `value`, replacing any earlier value.
pub fn assoc_insert<T: View>(pairs: &mut Vec<(u32, T)>, key: u32, value: T)
    requires
        unique_keys(old(pairs)@),
    ensures
        unique_keys(final(pairs)@),
        assoc_view(final(pairs)@) == assoc_view(old(pairs)@).insert(key, value@),
{
    match find_key(pairs, key) {
        Some(k) => {
            let ghost before = pairs@;
            let ghost v = value@;
            proof {
                lemma_assoc_update(before, k as int, value);
            }
            pairs.set(k, (key, value));
            assert(pairs@ == before.update(k as int, (before[k as int].0, value)));
        },
        None => {
            let ghost before = pairs@;
            pairs.push((key, value));
            assert(pairs@.drop_last() =~= before);
            assert forall|a: int, b: int| 0 <= a < b < pairs@.len() implies (#[trigger] pairs@[a]).0 != (#[trigger] pairs@[b]).0 by {
                if b == before.len() {
                    lemma_assoc_lookup(before, a);
                } else {
                    assert(before[a].0 != before[b].0);
                }
            }
        },
    }
}

/// Removes `key`, giving back its value.
pub fn assoc_remove<T: View>(pairs: &mut Vec<(u32, T)>, key: u32) -> (r: Option<T>)
    requires
        unique_keys(old(pairs)@),
    ensures
        unique_keys(final(pairs)@),
        assoc_view(final(pairs)@) == assoc_view(old(pairs)@).remove(key),
        match r {
            Some(v) => assoc_view(old(pairs)@).contains_key(key) && v@ == assoc_view(old(pairs)@)[key],
            None => !assoc_view(old(pairs)@).contains_key(key),
        },
{
    match find_key(pairs, key) {
        Some(k) => {
            let ghost before = pairs@;
            proof {
                lemma_assoc_remove(before, k as int);
            }
            let (_, v) = pairs.remove(k);
            Some(v)
        },
        None => {
            assert(assoc_view(pairs@).remove(key) =~= assoc_view(pairs@));
            None
        },
    }
}

} // verus!
