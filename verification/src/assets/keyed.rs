//! Sequences of key-value pairs, read as finite maps.
//!
//! The collections of this crate are vectors of pairs in which no key occurs
//! twice. These definitions say which map such a sequence stands for, and
//! how the map changes when the sequence does.

use vstd::prelude::*;

verus! {

/// No key occurs at two positions.
pub open spec fn keys_distinct<K, V>(s: Seq<(K, V)>) -> bool {
    forall|i: int, j: int| 0 <= i < j < s.len() ==> s[i].0 != s[j].0
}

/// Some pair of `s` has the key `k`.
pub open spec fn has_key<K, V>(s: Seq<(K, V)>, k: K) -> bool {
    exists|i: int| 0 <= i < s.len() && s[i].0 == k
}

/// A position at which `k` stands, where there is one.
pub open spec fn index_of<K, V>(s: Seq<(K, V)>, k: K) -> int {
    choose|i: int| 0 <= i < s.len() && s[i].0 == k
}

/// The map that sends each key of `s` to the value paired with it.
pub open spec fn as_map<K, V>(s: Seq<(K, V)>) -> Map<K, V> {
    Map::new(|k: K| has_key(s, k), |k: K| s[index_of(s, k)].1)
}

/// Where keys are distinct, the pair at position `i` is the map's entry for
/// its key.
pub proof fn lemma_entry<K, V>(s: Seq<(K, V)>, i: int)
    requires
        keys_distinct(s),
        0 <= i < s.len(),
    ensures
        has_key(s, s[i].0),
        index_of(s, s[i].0) == i,
        as_map(s).contains_key(s[i].0),
        as_map(s)[s[i].0] == s[i].1,
{
    let j = index_of(s, s[i].0);
    assert(0 <= j < s.len() && s[j].0 == s[i].0);
    if j < i {
        assert(s[j].0 != s[i].0);
    } else if i < j {
        assert(s[i].0 != s[j].0);
    }
}

/// The empty sequence stands for the empty map.
pub proof fn lemma_empty<K, V>()
    ensures
        keys_distinct(Seq::<(K, V)>::empty()),
        as_map(Seq::<(K, V)>::empty()) == Map::<K, V>::empty(),
{
    assert(as_map(Seq::<(K, V)>::empty()) =~= Map::<K, V>::empty());
}

/// `t` is `s` but for the value at position `i`: the keys, and all other
/// values, are the same.
pub open spec fn same_but_value_at<K, V>(s: Seq<(K, V)>, t: Seq<(K, V)>, i: int) -> bool {
    &&& t.len() == s.len()
    &&& 0 <= i < s.len()
    &&& t[i].0 == s[i].0
    &&& forall|j: int| 0 <= j < s.len() && j != i ==> t[j] == s[j]
}

/// Replacing the value at position `i` replaces the map's entry for the key
/// that stands there.
pub proof fn lemma_replace<K, V>(s: Seq<(K, V)>, t: Seq<(K, V)>, i: int)
    requires
        keys_distinct(s),
        same_but_value_at(s, t, i),
    ensures
        keys_distinct(t),
        as_map(t) == as_map(s).insert(s[i].0, t[i].1),
{
    assert forall|a: int, b: int| 0 <= a < b < t.len() implies t[a].0 != t[b].0 by {
        assert(t[a].0 == s[a].0);
        assert(t[b].0 == s[b].0);
    }
    assert forall|k: K| has_key(t, k) == has_key(s, k) by {
        if has_key(s, k) {
            let j = index_of(s, k);
            assert(t[j].0 == k);
        }
        if has_key(t, k) {
            let j = index_of(t, k);
            assert(s[j].0 == k);
        }
    }
    assert forall|k: K| has_key(t, k) implies #[trigger] as_map(t)[k] == as_map(s).insert(
        s[i].0,
        t[i].1,
    )[k] by {
        let j = index_of(t, k);
        lemma_entry(t, j);
        lemma_entry(s, j);
    }
    lemma_entry(s, i);
    assert(as_map(t) =~= as_map(s).insert(s[i].0, t[i].1));
}

/// Appending a pair whose key is new adds the map's entry for it.
pub proof fn lemma_append<K, V>(s: Seq<(K, V)>, k: K, v: V)
    requires
        keys_distinct(s),
        !has_key(s, k),
    ensures
        keys_distinct(s.push((k, v))),
        as_map(s.push((k, v))) == as_map(s).insert(k, v),
{
    let t = s.push((k, v));
    assert forall|i: int, j: int| 0 <= i < j < t.len() implies t[i].0 != t[j].0 by {
        if j == s.len() {
            assert(s[i].0 != k);
        }
    }
    assert forall|q: K| has_key(t, q) == (q == k || has_key(s, q)) by {
        if has_key(s, q) {
            let j = index_of(s, q);
            assert(t[j].0 == q);
        }
        if q == k {
            assert(t[s.len() as int].0 == q);
        }
        if has_key(t, q) {
            let j = index_of(t, q);
            if j < s.len() {
                assert(s[j].0 == q);
            }
        }
    }
    assert forall|q: K| has_key(t, q) implies #[trigger] as_map(t)[q] == as_map(s).insert(
        k,
        v,
    )[q] by {
        let j = index_of(t, q);
        lemma_entry(t, j);
        if j < s.len() {
            lemma_entry(s, j);
        }
    }
    assert(as_map(t) =~= as_map(s).insert(k, v));
}


/// Appending an element that is new adds it to the set of elements.
pub proof fn lemma_set_append<A>(s: Seq<A>, x: A)
    requires
        s.no_duplicates(),
        !s.contains(x),
    ensures
        s.push(x).no_duplicates(),
        s.push(x).to_set() == s.to_set().insert(x),
{
    let t = s.push(x);
    assert forall|i: int, j: int| 0 <= i < t.len() && 0 <= j < t.len() && i != j implies t[i]
        != t[j] by {
        if i == s.len() {
            assert(s.contains(s[j]));
        } else if j == s.len() {
            assert(s.contains(s[i]));
        }
    }
    assert forall|y: A| t.to_set().contains(y) == s.to_set().insert(x).contains(y) by {
        if t.contains(y) {
            let i = choose|i: int| 0 <= i < t.len() && t[i] == y;
            if i < s.len() {
                assert(s[i] == y);
            }
        }
        if s.contains(y) {
            let i = choose|i: int| 0 <= i < s.len() && s[i] == y;
            assert(t[i] == y);
        }
        if y == x {
            assert(t[s.len() as int] == y);
        }
    }
    assert(t.to_set() =~= s.to_set().insert(x));
}

/// Taking out the element at position `i` takes it out of the set of
/// elements.
pub proof fn lemma_set_remove<A>(s: Seq<A>, i: int)
    requires
        s.no_duplicates(),
        0 <= i < s.len(),
    ensures
        s.remove(i).no_duplicates(),
        s.remove(i).to_set() == s.to_set().remove(s[i]),
{
    let t = s.remove(i);
    assert forall|a: int, b: int| 0 <= a < t.len() && 0 <= b < t.len() && a != b implies t[a]
        != t[b] by {
        let a0 = if a < i { a } else { a + 1 };
        let b0 = if b < i { b } else { b + 1 };
        assert(t[a] == s[a0]);
        assert(t[b] == s[b0]);
    }
    assert forall|y: A| t.to_set().contains(y) == s.to_set().remove(s[i]).contains(y) by {
        if t.contains(y) {
            let a = choose|a: int| 0 <= a < t.len() && t[a] == y;
            let a0 = if a < i { a } else { a + 1 };
            assert(s[a0] == y);
            assert(s.contains(y));
        }
        if s.contains(y) && y != s[i] {
            let a0 = choose|a: int| 0 <= a < s.len() && s[a] == y;
            let a = if a0 < i { a0 } else { a0 - 1 };
            assert(t[a] == y);
        }
    }
    assert(t.to_set() =~= s.to_set().remove(s[i]));
}

} // verus!
