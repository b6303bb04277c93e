//! Association lists: sequences of key/value pairs read as maps.
//!
//! The relay keeps its tables as vectors of entries in insertion order; their
//! meaning is the map from each key to its value, which is what the contracts
//! speak of.

use vstd::prelude::*;

verus! {

/// The map an association list denotes: later entries win.
pub open spec fn to_map<K, V>(s: Seq<(K, V)>) -> Map<K, V>
    decreases s.len(),
{
    if s.len() == 0 {
        Map::empty()
    } else {
        to_map(s.drop_last()).insert(s.last().0, s.last().1)
    }
}

/// No key occurs twice.
pub open spec fn distinct_keys<K, V>(s: Seq<(K, V)>) -> bool {
    forall|i: int, j: int| 0 <= i < j < s.len() ==> s[i].0 != s[j].0
}

/// The keys of the map are exactly the keys of the list.
pub proof fn lemma_to_map_dom<K, V>(s: Seq<(K, V)>)
    ensures
        to_map(s).dom().finite(),
        forall|k: K| #[trigger] to_map(s).dom().contains(k) <==> exists|i: int| 0 <= i < s.len() && s[i].0 == k,
    decreases s.len(),
{
    if s.len() > 0 {
        let t = s.drop_last();
        lemma_to_map_dom(t);
        assert forall|k: K| #[trigger] to_map(s).dom().contains(k) <==> exists|i: int| 0 <= i < s.len() && s[i].0 == k by {
            if to_map(s).dom().contains(k) && k != s.last().0 {
                let i = choose|i: int| 0 <= i < t.len() && t[i].0 == k;
                assert(s[i] == t[i]);
            }
            if exists|i: int| 0 <= i < s.len() && s[i].0 == k {
                let i = choose|i: int| 0 <= i < s.len() && s[i].0 == k;
                if i < t.len() {
                    assert(t[i] == s[i]);
                }
            }
        }
    }
}

/// With distinct keys, the map sends each key to its entry's value.
pub proof fn lemma_to_map_index<K, V>(s: Seq<(K, V)>, i: int)
    requires
        distinct_keys(s),
        0 <= i < s.len(),
    ensures
        to_map(s).dom().contains(s[i].0),
        to_map(s)[s[i].0] == s[i].1,
    decreases s.len(),
{
    if i < s.len() - 1 {
        let t = s.drop_last();
        assert(t[i] == s[i]);
        lemma_to_map_index(t, i);
    }
}

/// With distinct keys, the map has as many keys as the list has entries.
pub proof fn lemma_to_map_len<K, V>(s: Seq<(K, V)>)
    requires
        distinct_keys(s),
    ensures
        to_map(s).len() == s.len(),
    decreases s.len(),
{
    if s.len() > 0 {
        let t = s.drop_last();
        lemma_to_map_len(t);
        lemma_to_map_dom(t);
        assert(!to_map(t).dom().contains(s.last().0)) by {
            if to_map(t).dom().contains(s.last().0) {
                let i = choose|i: int| 0 <= i < t.len() && t[i].0 == s.last().0;
                assert(s[i] == t[i]);
            }
        }
    }
}

/// Appending an entry inserts it.
pub proof fn lemma_to_map_push<K, V>(s: Seq<(K, V)>, k: K, v: V)
    ensures
        to_map(s.push((k, v))) == to_map(s).insert(k, v),
{
    assert(s.push((k, v)).drop_last() =~= s);
}

/// Replacing the value of an entry updates the map at its key.
pub proof fn lemma_to_map_update<K, V>(s: Seq<(K, V)>, i: int, v: V)
    requires
        distinct_keys(s),
        0 <= i < s.len(),
    ensures
        distinct_keys(s.update(i, (s[i].0, v))),
        to_map(s.update(i, (s[i].0, v))) == to_map(s).insert(s[i].0, v),
{
    let s2 = s.update(i, (s[i].0, v));
    assert(distinct_keys(s2)) by {
        assert forall|a: int, b: int| 0 <= a < b < s2.len() implies s2[a].0 != s2[b].0 by {
            assert(s2[a].0 == s[a].0);
            assert(s2[b].0 == s[b].0);
        }
    }
    lemma_to_map_dom(s);
    lemma_to_map_dom(s2);
    assert forall|k: K| #[trigger] to_map(s2).dom().contains(k) <==> to_map(s).insert(s[i].0, v).dom().contains(k) by {
        if exists|j: int| 0 <= j < s2.len() && s2[j].0 == k {
            let j = choose|j: int| 0 <= j < s2.len() && s2[j].0 == k;
            assert(s[j].0 == k);
        }
        if exists|j: int| 0 <= j < s.len() && s[j].0 == k {
            let j = choose|j: int| 0 <= j < s.len() && s[j].0 == k;
            assert(s2[j].0 == k);
        }
    }
    assert forall|k: K| #[trigger] to_map(s2).dom().contains(k) implies to_map(s2)[k] == to_map(s).insert(s[i].0, v)[k] by {
        let j = choose|j: int| 0 <= j < s2.len() && s2[j].0 == k;
        lemma_to_map_index(s2, j);
        if j != i {
            lemma_to_map_index(s, j);
        }
    }
    assert(to_map(s2) =~= to_map(s).insert(s[i].0, v));
}

/// Removing an entry removes its key.
pub proof fn lemma_to_map_remove<K, V>(s: Seq<(K, V)>, i: int)
    requires
        distinct_keys(s),
        0 <= i < s.len(),
    ensures
        distinct_keys(s.remove(i)),
        to_map(s.remove(i)) == to_map(s).remove(s[i].0),
{
    let s2 = s.remove(i);
    assert forall|j: int| 0 <= j < s2.len() implies #[trigger] s2[j] == (if j < i { s[j] } else { s[j + 1] }) by {}
    assert(distinct_keys(s2)) by {
        assert forall|a: int, b: int| 0 <= a < b < s2.len() implies s2[a].0 != s2[b].0 by {
            assert(s2[a] == (if a < i { s[a] } else { s[a + 1] }));
            assert(s2[b] == (if b < i { s[b] } else { s[b + 1] }));
        }
    }
    lemma_to_map_dom(s);
    lemma_to_map_dom(s2);
    assert forall|k: K| #[trigger] to_map(s2).dom().contains(k) <==> to_map(s).remove(s[i].0).dom().contains(k) by {
        if exists|j: int| 0 <= j < s2.len() && s2[j].0 == k {
            let j = choose|j: int| 0 <= j < s2.len() && s2[j].0 == k;
            assert(s2[j] == (if j < i { s[j] } else { s[j + 1] }));
        }
        if k != s[i].0 && exists|j: int| 0 <= j < s.len() && s[j].0 == k {
            let j = choose|j: int| 0 <= j < s.len() && s[j].0 == k;
            if j < i {
                assert(s2[j] == s[j]);
            } else {
                assert(j > i);
                assert(s2[j - 1] == s[j]);
            }
        }
    }
    assert forall|k: K| #[trigger] to_map(s2).dom().contains(k) implies to_map(s2)[k] == to_map(s).remove(s[i].0)[k] by {
        let j = choose|j: int| 0 <= j < s2.len() && s2[j].0 == k;
        lemma_to_map_index(s2, j);
        let jj = if j < i { j } else { j + 1 };
        assert(s2[j] == s[jj]);
        lemma_to_map_index(s, jj);
    }
    assert(to_map(s2) =~= to_map(s).remove(s[i].0));
}

/// Appending a fresh key keeps the keys distinct.
pub proof fn lemma_distinct_push<K, V>(s: Seq<(K, V)>, k: K, v: V)
    requires
        distinct_keys(s),
        forall|i: int| 0 <= i < s.len() ==> s[i].0 != k,
    ensures
        distinct_keys(s.push((k, v))),
{
    let s2 = s.push((k, v));
    assert forall|a: int, b: int| 0 <= a < b < s2.len() implies s2[a].0 != s2[b].0 by {
        assert(s2[a] == s[a]);
        if b < s.len() {
            assert(s2[b] == s[b]);
        }
    }
}

} // verus!
