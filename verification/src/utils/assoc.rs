//! A sequence of pairs read as a map. It stands in for a hash map where the
//! keys are records: the pairs are searched one by one, and no key occurs twice.

use vstd::prelude::*;

verus! {

/// No key occurs twice in `s`.
pub open spec fn distinct<K, V>(s: Seq<(K, V)>) -> bool {
    forall|i: int, j: int| 0 <= i < j < s.len() ==> (#[trigger] s[i]).0 != (#[trigger] s[j]).0
}

/// The map that the pairs of `s` spell; a later pair would win over an
/// earlier one with the same key.
pub open spec fn to_map<K, V>(s: Seq<(K, V)>) -> Map<K, V>
    decreases s.len(),
{
    if s.len() == 0 {
        Map::empty()
    } else {
        to_map(s.drop_last()).insert(s.last().0, s.last().1)
    }
}

/// The keys of the map are the keys of the pairs.
pub proof fn lemma_to_map_dom<K, V>(s: Seq<(K, V)>, k: K)
    ensures
        to_map(s).contains_key(k) <==> exists|i: int| 0 <= i < s.len() && (#[trigger] s[i]).0 == k,
    decreases s.len(),
{
    if s.len() > 0 {
        let t = s.drop_last();
        lemma_to_map_dom(t, k);
        if to_map(s).contains_key(k) {
            if s.last().0 == k {
                assert(s[s.len() - 1].0 == k);
            } else {
                let i = choose|i: int| 0 <= i < t.len() && (#[trigger] t[i]).0 == k;
                assert(s[i].0 == k);
            }
        }
        if exists|i: int| 0 <= i < s.len() && (#[trigger] s[i]).0 == k {
            let i = choose|i: int| 0 <= i < s.len() && (#[trigger] s[i]).0 == k;
            if i < t.len() {
                assert(t[i].0 == k);
            }
        }
    }
}

/// Where no key occurs twice, each pair is an entry of the map.
pub proof fn lemma_to_map_get<K, V>(s: Seq<(K, V)>, i: int)
    requires
        distinct(s),
        0 <= i < s.len(),
    ensures
        to_map(s).contains_key(s[i].0),
        to_map(s)[s[i].0] == s[i].1,
    decreases s.len(),
{
    let t = s.drop_last();
    if i < s.len() - 1 {
        assert(t[i] == s[i]);
        assert(s[i].0 != s[s.len() - 1].0);
        assert(distinct(t)) by {
            assert forall|a: int, b: int| 0 <= a < b < t.len() implies (#[trigger] t[a]).0 != (
            #[trigger] t[b]).0 by {
                assert(s[a].0 != s[b].0);
            }
        }
        lemma_to_map_get(t, i);
    }
}

/// A pair added at the end is an entry added to the map.
pub proof fn lemma_to_map_push<K, V>(s: Seq<(K, V)>, k: K, v: V)
    ensures
        to_map(s.push((k, v))) == to_map(s).insert(k, v),
{
    assert(s.push((k, v)).drop_last() =~= s);
}

/// Where no key occurs twice, a pair taken out is an entry taken out of the map.
pub proof fn lemma_to_map_remove<K, V>(s: Seq<(K, V)>, i: int)
    requires
        distinct(s),
        0 <= i < s.len(),
    ensures
        to_map(s.remove(i)) == to_map(s).remove(s[i].0),
        distinct(s.remove(i)),
    decreases s.len(),
{
    let t = s.drop_last();
    let r = s.remove(i);
    assert(distinct(r)) by {
        assert forall|a: int, b: int| 0 <= a < b < r.len() implies (#[trigger] r[a]).0 != (
        #[trigger] r[b]).0 by {
            let a2 = if a < i {
                a
            } else {
                a + 1
            };
            let b2 = if b < i {
                b
            } else {
                b + 1
            };
            assert(s[a2].0 != s[b2].0);
        }
    }
    assert(distinct(t)) by {
        assert forall|a: int, b: int| 0 <= a < b < t.len() implies (#[trigger] t[a]).0 != (
        #[trigger] t[b]).0 by {
            assert(s[a].0 != s[b].0);
        }
    }
    if i == s.len() - 1 {
        assert(r =~= t);
        lemma_to_map_dom(t, s[i].0);
        if to_map(t).contains_key(s[i].0) {
            let j = choose|j: int| 0 <= j < t.len() && (#[trigger] t[j]).0 == s[i].0;
            assert(s[j].0 != s[i].0);
        }
        assert(to_map(t) =~= to_map(s).remove(s[i].0));
    } else {
        assert(r.drop_last() =~= t.remove(i));
        assert(r.last() == s.last());
        assert(t[i] == s[i]);
        lemma_to_map_remove(t, i);
        assert(s[i].0 != s[s.len() - 1].0);
        assert(to_map(r) =~= to_map(s).remove(s[i].0));
    }
}

} // verus!
