//! Lists of pairs of key and value: the order in which keys were added
//! matters, and no key occurs twice. JSON objects and tag maps are such lists.

use crate::text::{ascending, law_sorted_distinct, sorted};
use vstd::prelude::*;

verus! {

/// No key occurs twice.
pub open spec fn distinct_keys<V>(m: Seq<(Seq<char>, V)>) -> bool {
    forall|i: int, j: int| 0 <= i < j < m.len() ==> (#[trigger] m[i]).0 != (#[trigger] m[j]).0
}

/// The position of a key at or after `from`, or the length.
pub open spec fn key_index<V>(m: Seq<(Seq<char>, V)>, key: Seq<char>, from: int) -> int
    decreases m.len() - from,
{
    if 0 <= from < m.len() && m[from].0 != key {
        key_index(m, key, from + 1)
    } else {
        from
    }
}

/// Whether the list has the key.
pub open spec fn has_key<V>(m: Seq<(Seq<char>, V)>, key: Seq<char>) -> bool {
    key_index(m, key, 0) < m.len()
}

/// The value of a key.
pub open spec fn lookup<V>(m: Seq<(Seq<char>, V)>, key: Seq<char>) -> Option<V> {
    if has_key(m, key) {
        Some(m[key_index(m, key, 0)].1)
    } else {
        None
    }
}

/// The list with `value` under `key`: a key that is there keeps its place,
/// a new one comes last.
pub open spec fn put<V>(m: Seq<(Seq<char>, V)>, key: Seq<char>, value: V) -> Seq<(Seq<char>, V)> {
    if has_key(m, key) {
        m.update(key_index(m, key, 0), (key, value))
    } else {
        m.push((key, value))
    }
}

/// The list without `key`; what follows moves up.
pub open spec fn without<V>(m: Seq<(Seq<char>, V)>, key: Seq<char>) -> Seq<(Seq<char>, V)> {
    if has_key(m, key) {
        m.remove(key_index(m, key, 0))
    } else {
        m
    }
}

/// The keys, in order.
pub open spec fn key_list<V>(m: Seq<(Seq<char>, V)>) -> Seq<Seq<char>> {
    Seq::new(m.len(), |i: int| m[i].0)
}

/// The same pairs, ordered by their keys.
pub open spec fn by_key<V>(m: Seq<(Seq<char>, V)>) -> Seq<(Seq<char>, V)> {
    let keys = sorted(key_list(m));
    Seq::new(keys.len(), |i: int| (keys[i], lookup(m, keys[i])->0))
}

/// What `key_index` means.
pub proof fn lemma_key_index<V>(m: Seq<(Seq<char>, V)>, key: Seq<char>, from: int)
    requires
        0 <= from <= m.len(),
    ensures
        from <= key_index(m, key, from) <= m.len(),
        key_index(m, key, from) < m.len() ==> m[key_index(m, key, from)].0 == key,
        forall|j: int| from <= j < key_index(m, key, from) ==> (#[trigger] m[j]).0 != key,
    decreases m.len() - from,
{
    if from < m.len() && m[from].0 != key {
        lemma_key_index(m, key, from + 1);
    }
}

/// A key at a known place is found there.
pub proof fn lemma_key_found<V>(m: Seq<(Seq<char>, V)>, i: int)
    requires
        distinct_keys(m),
        0 <= i < m.len(),
    ensures
        key_index(m, m[i].0, 0) == i,
        lookup(m, m[i].0) == Some(m[i].1),
{
    lemma_key_index(m, m[i].0, 0);
    let k = key_index(m, m[i].0, 0);
    if k < i {
        assert(m[k].0 != m[i].0);
    } else if k > i {
        assert(m[i].0 != m[i].0);
    }
}

/// A key that no member has is not found.
pub proof fn lemma_key_absent<V>(m: Seq<(Seq<char>, V)>, key: Seq<char>)
    requires
        forall|i: int| 0 <= i < m.len() ==> (#[trigger] m[i]).0 != key,
    ensures
        !has_key(m, key),
        lookup(m, key) is None,
{
    lemma_key_index(m, key, 0);
}

/// What was put is what is found; other keys are as before.
pub proof fn law_put_then_lookup<V>(m: Seq<(Seq<char>, V)>, key: Seq<char>, value: V, other: Seq<char>)
    requires
        distinct_keys(m),
    ensures
        distinct_keys(put(m, key, value)),
        lookup(put(m, key, value), key) == Some(value),
        other != key ==> lookup(put(m, key, value), other) == lookup(m, other),
{
    let r = put(m, key, value);
    lemma_key_index(m, key, 0);
    lemma_key_index(m, other, 0);
    lemma_key_index(r, other, 0);
    lemma_key_index(r, key, 0);
    let at = key_index(m, key, 0);
    assert forall|i: int, j: int| 0 <= i < j < r.len() implies (#[trigger] r[i]).0 != (
    #[trigger] r[j]).0 by {
        if has_key(m, key) {
            assert(m[i].0 == r[i].0 && m[j].0 == r[j].0);
        } else {
            assert(m[i].0 == r[i].0);
            if j < m.len() {
                assert(m[j].0 == r[j].0);
            }
        }
    }
    assert(r[at].0 == key);
    lemma_key_found(r, at);
    if other != key {
        if has_key(m, other) {
            let k = key_index(m, other, 0);
            assert(r[k] == m[k]);
            lemma_key_found(r, k);
        } else if key_index(r, other, 0) < r.len() {
            let k = key_index(r, other, 0);
            assert(r[k].0 == other);
            assert(k < m.len() && m[k].0 == other);
        }
    }
}

/// A removed key is gone; other keys are as before.
pub proof fn law_without_then_lookup<V>(m: Seq<(Seq<char>, V)>, key: Seq<char>, other: Seq<char>)
    requires
        distinct_keys(m),
    ensures
        distinct_keys(without(m, key)),
        lookup(without(m, key), key) is None,
        other != key ==> lookup(without(m, key), other) == lookup(m, other),
{
    let r = without(m, key);
    let at = key_index(m, key, 0);
    lemma_key_index(m, key, 0);
    lemma_key_index(m, other, 0);
    lemma_key_index(r, other, 0);
    lemma_key_index(r, key, 0);
    if has_key(m, key) {
        assert forall|i: int| 0 <= i < r.len() implies #[trigger] r[i] == m[if i < at {
            i
        } else {
            i + 1
        }] by {}
        assert forall|i: int, j: int| 0 <= i < j < r.len() implies (#[trigger] r[i]).0 != (
        #[trigger] r[j]).0 by {}
        let k = key_index(r, key, 0);
        if k < r.len() {
            assert(r[k].0 == key);
            let o = if k < at {
                k
            } else {
                k + 1
            };
            assert(m[o].0 == m[at].0);
        }
        if other != key {
            let k = key_index(m, other, 0);
            if k < m.len() {
                let o = if k < at {
                    k
                } else {
                    k - 1
                };
                assert(r[o] == m[k]);
                lemma_key_found(r, o);
            } else if key_index(r, other, 0) < r.len() {
                let o = key_index(r, other, 0);
                assert(r[o].0 == other);
            }
        }
    }
}

/// Keys that do not occur twice in the list do not occur twice among the keys.
pub proof fn lemma_key_list<V>(m: Seq<(Seq<char>, V)>)
    requires
        distinct_keys(m),
    ensures
        key_list(m).no_duplicates(),
{
    assert forall|i: int, j: int|
        0 <= i < key_list(m).len() && 0 <= j < key_list(m).len() && i != j implies key_list(m)[i]
        != key_list(m)[j] by {
        if i < j {
            assert(m[i].0 != m[j].0);
        } else {
            assert(m[j].0 != m[i].0);
        }
    }
}

/// Ordering a list by its keys makes the keys strictly ascending and changes
/// no key's value.
pub proof fn law_by_key<V>(m: Seq<(Seq<char>, V)>, key: Seq<char>)
    requires
        distinct_keys(m),
    ensures
        ascending(key_list(by_key(m))),
        lookup(by_key(m), key) == lookup(m, key),
        by_key(m).len() == m.len(),
{
    let keys = sorted(key_list(m));
    let r = by_key(m);
    lemma_key_list(m);
    law_sorted_distinct(key_list(m));
    assert(key_list(r) =~= keys);
    assert forall|i: int, j: int| 0 <= i < j < r.len() implies (#[trigger] r[i]).0 != (
    #[trigger] r[j]).0 by {
        assert(keys[i] != keys[j]);
    }
    lemma_key_index(m, key, 0);
    if has_key(m, key) {
        let at = key_index(m, key, 0);
        assert(key_list(m)[at] == key);
        assert(key_list(m).contains(key));
        assert(keys.contains(key));
        let i = choose|i: int| 0 <= i < keys.len() && keys[i] == key;
        assert(r[i].0 == key);
        lemma_key_found(r, i);
    } else {
        assert forall|i: int| 0 <= i < r.len() implies (#[trigger] r[i]).0 != key by {
            assert(keys.contains(keys[i]));
            let j = choose|j: int| 0 <= j < key_list(m).len() && key_list(m)[j] == keys[i];
            assert(m[j].0 == keys[i]);
        }
        lemma_key_absent(r, key);
    }
}

/// A key that is set keeps its place, and a new one comes last; the other keys
/// stay where they were. Removing a key moves the rest up.
pub proof fn law_order_of_keys<V>(m: Seq<(Seq<char>, V)>, key: Seq<char>, value: V, i: int)
    requires
        distinct_keys(m),
        0 <= i < m.len(),
    ensures
        m[i].0 == key ==> put(m, key, value) == m.update(i, (key, value)) && without(m, key)
            == m.take(i) + m.skip(i + 1),
        (forall|j: int| 0 <= j < m.len() ==> (#[trigger] m[j]).0 != key) ==> put(m, key, value)
            == m.push((key, value)) && without(m, key) == m,
        lookup(m, m[i].0) == Some(m[i].1),
{
    lemma_key_found(m, i);
    if m[i].0 == key {
        assert(without(m, key) =~= m.take(i) + m.skip(i + 1));
    }
    if forall|j: int| 0 <= j < m.len() ==> (#[trigger] m[j]).0 != key {
        lemma_key_absent(m, key);
    }
}

/// What a list holds under a key is what some pair of it holds.
pub proof fn law_found_value_is_there<V>(m: Seq<(Seq<char>, V)>, key: Seq<char>)
    ensures
        has_key(m, key) <==> exists|i: int| 0 <= i < m.len() && (#[trigger] m[i]).0 == key,
        lookup(m, key) is Some <==> has_key(m, key),
        lookup(m, key) is Some ==> m.contains((key, lookup(m, key)->0)),
{
    lemma_key_index(m, key, 0);
    if has_key(m, key) {
        let i = key_index(m, key, 0);
        assert(m[i] == (key, lookup(m, key)->0));
    }
}

} // verus!
