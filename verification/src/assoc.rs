//! Association lists: the manifest and the engine keep keyed data as
//! vectors of pairs with distinct keys, looked up by first match.

use vstd::prelude::*;
use crate::strutil::str_eq;

verus! {

broadcast use {vstd::map::group_map_axioms, vstd::set::group_set_axioms};

/// First-match lookup in an association sequence.
pub open spec fn alookup<K, V>(s: Seq<(K, V)>, k: K) -> Option<V>
    decreases s.len(),
{
    if s.len() == 0 {
        None
    } else if s[0].0 == k {
        Some(s[0].1)
    } else {
        alookup(s.drop_first(), k)
    }
}

/// The keys of an association sequence, in order.
pub open spec fn akeys<K, V>(s: Seq<(K, V)>) -> Seq<K> {
    s.map(|i: int, e: (K, V)| e.0)
}

/// No path occurs twice.
pub open spec fn distinct_strs(s: Seq<Seq<char>>) -> bool {
    forall|i: int, j: int| 0 <= i < j < s.len() ==> s[i] != s[j]
}

/// No key occurs twice.
pub open spec fn distinct_keys<K, V>(s: Seq<(K, V)>) -> bool {
    forall|i: int, j: int| 0 <= i < j < s.len() ==> (#[trigger] s[i]).0 != (#[trigger] s[j]).0
}

/// A lookup hit names some entry; a miss means no entry has the key.
pub proof fn lemma_alookup_index<K, V>(s: Seq<(K, V)>, k: K)
    ensures
        alookup(s, k) matches Some(v) ==> exists|i: int|
            0 <= i < s.len() && #[trigger] s[i] == (k, v),
        alookup(s, k) is None ==> forall|i: int| 0 <= i < s.len() ==> (#[trigger] s[i]).0 != k,
    decreases s.len(),
{
    if s.len() > 0 {
        lemma_alookup_index(s.drop_first(), k);
        if s[0].0 == k {
            assert(s[0] == (k, alookup(s, k).unwrap()));
        } else {
            if alookup(s, k) is Some {
                let v = alookup(s, k).unwrap();
                let i = choose|i: int|
                    0 <= i < s.drop_first().len() && #[trigger] s.drop_first()[i] == (k, v);
                assert(s[i + 1] == (k, v));
            } else {
                assert(forall|i: int|
                    1 <= i < s.len() ==> (#[trigger] s[i]).0 == s.drop_first()[i - 1].0);
            }
        }
    }
}

/// Appending an entry with a fresh key leaves other lookups as they were
/// and makes the new key find the new value.
pub proof fn lemma_alookup_push<K, V>(s: Seq<(K, V)>, k: K, v: V, q: K)
    ensures
        q == k && alookup(s, k) is None ==> alookup(s.push((k, v)), q) == Some(v),
        q != k ==> alookup(s.push((k, v)), q) == alookup(s, q),
        alookup(s, q) is Some ==> alookup(s.push((k, v)), q) == alookup(s, q),
    decreases s.len(),
{
    if s.len() == 0 {
        assert(s.push((k, v)).drop_first() =~= Seq::<(K, V)>::empty());
        assert(s.push((k, v))[0] == (k, v));
    } else {
        lemma_alookup_push(s.drop_first(), k, v, q);
        assert(s.push((k, v)).drop_first() =~= s.drop_first().push((k, v)));
        assert(s.push((k, v))[0] == s[0]);
        assert(alookup(s.push((k, v)), q) == if s[0].0 == q {
            Some(s[0].1)
        } else {
            alookup(s.drop_first().push((k, v)), q)
        });
        assert(alookup(s, q) == if s[0].0 == q {
            Some(s[0].1)
        } else {
            alookup(s.drop_first(), q)
        });
    }
}

/// When an entry's key matches and no earlier key does, the lookup finds
/// exactly that entry.
pub proof fn lemma_alookup_first_hit<K, V>(s: Seq<(K, V)>, k: K, i: int)
    requires
        0 <= i < s.len(),
        s[i].0 == k,
        forall|j: int| 0 <= j < i ==> (#[trigger] s[j]).0 != k,
    ensures
        alookup(s, k) == Some(s[i].1),
    decreases i,
{
    if i > 0 {
        lemma_alookup_first_hit(s.drop_first(), k, i - 1);
        assert(s.drop_first()[i - 1] == s[i]);
        assert(forall|j: int| 0 <= j < i - 1 ==> (#[trigger] s.drop_first()[j]).0 == s[j + 1].0);
    }
}

/// When no key matches, the lookup misses.
pub proof fn lemma_alookup_all_miss<K, V>(s: Seq<(K, V)>, k: K)
    requires
        forall|j: int| 0 <= j < s.len() ==> (#[trigger] s[j]).0 != k,
    ensures
        alookup(s, k) is None,
    decreases s.len(),
{
    if s.len() > 0 {
        assert(forall|j: int|
            0 <= j < s.drop_first().len() ==> (#[trigger] s.drop_first()[j]).0 == s[j + 1].0);
        lemma_alookup_all_miss(s.drop_first(), k);
    }
}

/// First-match lookup in a string-keyed association vector.
pub fn assoc_get<'a, V>(v: &'a Vec<(String, V)>, key: &str) -> (r: Option<&'a V>)
    ensures
        match r {
            Some(x) => exists|i: int|
                0 <= i < v@.len() && (#[trigger] v@[i]).0@ == key@ && v@[i].1 == *x && (forall|
                    j: int,
                |
                    0 <= j < i ==> (#[trigger] v@[j]).0@ != key@),
            None => forall|i: int| 0 <= i < v@.len() ==> (#[trigger] v@[i]).0@ != key@,
        },
{
    let mut i: usize = 0;
    while i < v.len()
        invariant
            i <= v@.len(),
            forall|j: int| 0 <= j < i ==> (#[trigger] v@[j]).0@ != key@,
        decreases v@.len() - i,
    {
        if str_eq(v[i].0.as_str(), key) {
            return Some(&v[i].1);
        }
        i += 1;
    }
    None
}

/// The first-match index for a key in a string-keyed association vector.
pub fn assoc_position<V>(v: &Vec<(String, V)>, key: &str) -> (r: Option<usize>)
    ensures
        match r {
            Some(i) => 0 <= i < v@.len() && (v@[i as int]).0@ == key@ && (forall|j: int|
                0 <= j < i ==> (#[trigger] v@[j]).0@ != key@),
            None => forall|i: int| 0 <= i < v@.len() ==> (#[trigger] v@[i]).0@ != key@,
        },
{
    let mut i: usize = 0;
    while i < v.len()
        invariant
            i <= v@.len(),
            forall|j: int| 0 <= j < i ==> (#[trigger] v@[j]).0@ != key@,
        decreases v@.len() - i,
    {
        if str_eq(v[i].0.as_str(), key) {
            return Some(i);
        }
        i += 1;
    }
    None
}


/// An association sequence as a map: the first entry for a key wins.
pub open spec fn amap<K, V>(s: Seq<(K, V)>) -> Map<K, V>
    decreases s.len(),
{
    if s.len() == 0 {
        Map::empty()
    } else {
        amap(s.drop_first()).insert(s[0].0, s[0].1)
    }
}

/// The map's domain is the key set.
pub proof fn lemma_amap_dom<K, V>(s: Seq<(K, V)>)
    ensures
        amap(s).dom() =~= akeys(s).to_set(),
    decreases s.len(),
{
    broadcast use vstd::set::group_set_axioms;

    if s.len() == 0 {
        assert(akeys(s).to_set() =~= Set::<K>::empty()) by {
            if exists|k: K| akeys(s).to_set().contains(k) {
                let k = choose|k: K| akeys(s).to_set().contains(k);
                assert(akeys(s).contains(k));
            }
        }
    } else {
        lemma_amap_dom(s.drop_first());
        assert forall|k: K| amap(s).dom().contains(k) == akeys(s).to_set().contains(k) by {
            if amap(s).dom().contains(k) {
                if k == s[0].0 {
                    assert(akeys(s)[0] == k);
                    assert(akeys(s).contains(k));
                } else {
                    assert(akeys(s.drop_first()).contains(k));
                    let i = choose|i: int|
                        0 <= i < akeys(s.drop_first()).len() && akeys(s.drop_first())[i] == k;
                    assert(akeys(s)[i + 1] == k);
                    assert(akeys(s).contains(k));
                }
            }
            if akeys(s).to_set().contains(k) {
                let i = choose|i: int| 0 <= i < akeys(s).len() && akeys(s)[i] == k;
                if i == 0 {
                    assert(amap(s).dom().contains(k));
                } else {
                    assert(akeys(s.drop_first())[i - 1] == k);
                    assert(akeys(s.drop_first()).contains(k));
                }
            }
        }
    }
}

/// The map agrees with the first-match lookup.
pub proof fn lemma_amap_alookup<K, V>(s: Seq<(K, V)>, k: K)
    ensures
        amap(s).contains_key(k) <==> alookup(s, k) is Some,
        amap(s).contains_key(k) ==> amap(s)[k] == alookup(s, k).unwrap(),
    decreases s.len(),
{
    if s.len() > 0 {
        lemma_amap_alookup(s.drop_first(), k);
    }
}

/// Appending an entry under a fresh key is a map insert.
pub proof fn lemma_amap_push_fresh<K, V>(s: Seq<(K, V)>, k: K, v: V)
    requires
        forall|i: int| 0 <= i < s.len() ==> (#[trigger] s[i]).0 != k,
    ensures
        amap(s.push((k, v))) =~= amap(s).insert(k, v),
    decreases s.len(),
{
    if s.len() == 0 {
        assert(s.push((k, v)).drop_first() =~= Seq::<(K, V)>::empty());
        assert(s.push((k, v))[0] == (k, v));
        assert(s.push((k, v))[0].0 == k && s.push((k, v))[0].1 == v);
        assert(amap(Seq::<(K, V)>::empty()) =~= Map::<K, V>::empty());
        assert(amap(s.push((k, v))) =~= amap(s.push((k, v)).drop_first()).insert(
            s.push((k, v))[0].0,
            s.push((k, v))[0].1,
        ));
        assert(amap(s.push((k, v))) =~= Map::<K, V>::empty().insert(k, v));
    } else {
        assert(forall|i: int|
            0 <= i < s.drop_first().len() ==> (#[trigger] s.drop_first()[i]).0 == s[i + 1].0);
        lemma_amap_push_fresh(s.drop_first(), k, v);
        assert(s.push((k, v)).drop_first() =~= s.drop_first().push((k, v)));
        assert(s.push((k, v))[0] == s[0]);
        assert(s[0].0 != k);
    }
}

/// The entries whose key differs from `k`, in order.
pub open spec fn without_key<K, V>(s: Seq<(K, V)>, k: K) -> Seq<(K, V)>
    decreases s.len(),
{
    if s.len() == 0 {
        Seq::empty()
    } else {
        let rest = without_key(s.drop_first(), k);
        if s[0].0 == k {
            rest
        } else {
            seq![s[0]] + rest
        }
    }
}

/// Dropping a key's entries is a map remove.
pub proof fn lemma_amap_without_key<K, V>(s: Seq<(K, V)>, k: K)
    ensures
        amap(without_key(s, k)) =~= amap(s).remove(k),
        forall|i: int| 0 <= i < without_key(s, k).len() ==> (#[trigger] without_key(s, k)[i]).0 != k,
    decreases s.len(),
{
    if s.len() > 0 {
        lemma_amap_without_key(s.drop_first(), k);
        let rest = without_key(s.drop_first(), k);
        if s[0].0 == k {
        } else {
            assert(without_key(s, k) =~= seq![s[0]] + rest);
            assert((seq![s[0]] + rest).drop_first() =~= rest);
            assert(amap(without_key(s, k)) =~= amap(rest).insert(s[0].0, s[0].1));
        }
    }
}

/// Updating the first entry for a key is a map insert.
pub proof fn lemma_amap_update_first<K, V>(s: Seq<(K, V)>, i: int, k: K, v: V)
    requires
        0 <= i < s.len(),
        s[i].0 == k,
        forall|j: int| 0 <= j < i ==> (#[trigger] s[j]).0 != k,
    ensures
        amap(s.update(i, (k, v))) =~= amap(s).insert(k, v),
    decreases i,
{
    if i == 0 {
        assert(s.update(0, (k, v)).drop_first() =~= s.drop_first());
        assert(s.update(0, (k, v))[0] == (k, v));
    } else {
        assert(forall|j: int|
            0 <= j < s.drop_first().len() ==> (#[trigger] s.drop_first()[j]).0 == s[j + 1].0);
        assert(s.drop_first()[i - 1] == s[i]);
        lemma_amap_update_first(s.drop_first(), i - 1, k, v);
        assert(s.update(i, (k, v)).drop_first() =~= s.drop_first().update(i - 1, (k, v)));
        assert(s.update(i, (k, v))[0] == s[0]);
        assert(s[0].0 != k);
    }
}

} // verus!
