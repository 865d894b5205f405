//! String maps that keep the order of insertion: `indexmap::IndexMap`, by
//! what it holds.

use crate::pairs::{
    by_key, distinct_keys, key_index, key_list, lemma_key_absent, lemma_key_index, lemma_key_list,
    lookup, put, without,
};
use crate::text::{law_sorted_distinct, lemma_views_push, sort_strings, sorted, views};
use vstd::prelude::*;

verus! {

/// An insertion-ordered map of `indexmap`.
#[verifier::external_type_specification]
#[verifier::external_body]
#[verifier::reject_recursive_types(K)]
#[verifier::reject_recursive_types(V)]
#[verifier::reject_recursive_types(S)]
pub struct ExIndexMap<K, V, S>(indexmap::IndexMap<K, V, S>);

/// An insertion-ordered string map, the shape of tags and environments.
pub type TagMap = indexmap::IndexMap<String, String>;

/// The same for the environment maps.
pub type EnvMap = indexmap::IndexMap<String, String>;

/// Changes to a string map by key: a value to set, or `None` to remove.
pub type TagChanges = indexmap::IndexMap<String, Option<String>>;

/// The pairs of key and value that a string map holds, in its order.
pub uninterp spec fn entries(m: TagMap) -> Seq<(Seq<char>, Seq<char>)>;

/// The changes that a map of changes holds, in its order.
pub uninterp spec fn changes(m: TagChanges) -> Seq<(Seq<char>, Option<Seq<char>>)>;

/// The view of an optional value.
pub open spec fn value_opt(v: Option<String>) -> Option<Seq<char>> {
    match v {
        Some(s) => Some(s@),
        None => None,
    }
}

/// Calls `IndexMap::new`: an empty map.
#[verifier::external_body]
pub(crate) fn tags_new() -> (m: TagMap)
    ensures
        entries(m) == Seq::<(Seq<char>, Seq<char>)>::empty(),
{
    indexmap::IndexMap::new()
}

/// Calls `IndexMap::len`.
#[verifier::external_body]
pub(crate) fn tags_len(m: &TagMap) -> (n: usize)
    ensures
        n == entries(*m).len(),
{
    m.len()
}

/// Calls `IndexMap::get`: the value under a key.
#[verifier::external_body]
pub(crate) fn tags_get<'a>(m: &'a TagMap, key: &str) -> (r: Option<&'a String>)
    ensures
        match r {
            Some(v) => lookup(entries(*m), key@) == Some(v@),
            None => lookup(entries(*m), key@) is None,
        },
{
    m.get(key)
}

/// Calls `IndexMap::get_index`: the pair at a position. No key occurs twice,
/// so its key is found nowhere before.
#[verifier::external_body]
pub(crate) fn tags_at(m: &TagMap, i: usize) -> (r: Option<(&String, &String)>)
    ensures
        match r {
            Some(p) => i < entries(*m).len() && entries(*m)[i as int] == (p.0@, p.1@) && key_index(
                entries(*m),
                p.0@,
                0,
            ) == i,
            None => i >= entries(*m).len(),
        },
{
    m.get_index(i)
}

/// Calls `IndexMap::insert`: a key that is there keeps its place, a new one
/// comes last.
#[verifier::external_body]
pub(crate) fn tags_insert(m: &mut TagMap, key: String, value: String)
    ensures
        entries(*final(m)) == put(entries(*old(m)), key@, value@),
{
    m.insert(key, value);
}

/// Calls `IndexMap::shift_remove`: the order of the rest stays.
#[verifier::external_body]
pub(crate) fn tags_remove(m: &mut TagMap, key: &str)
    ensures
        entries(*final(m)) == without(entries(*old(m)), key@),
{
    m.shift_remove(key);
}

/// Calls the `Clone` of `IndexMap`: the same pairs in the same order.
#[verifier::external_body]
pub(crate) fn tags_clone(m: &TagMap) -> (r: TagMap)
    ensures
        entries(r) == entries(*m),
{
    m.clone()
}

/// Calls `IndexMap::new`: no changes.
#[verifier::external_body]
pub(crate) fn changes_new() -> (m: TagChanges)
    ensures
        changes(m) == Seq::<(Seq<char>, Option<Seq<char>>)>::empty(),
{
    indexmap::IndexMap::new()
}

/// Calls `IndexMap::len`.
#[verifier::external_body]
pub(crate) fn changes_len(m: &TagChanges) -> (n: usize)
    ensures
        n == changes(*m).len(),
{
    m.len()
}

/// Calls `IndexMap::get_index`: the change at a position. No key occurs
/// twice, so its key is found nowhere before.
#[verifier::external_body]
pub(crate) fn changes_at(m: &TagChanges, i: usize) -> (r: Option<(&String, &Option<String>)>)
    ensures
        match r {
            Some(p) => i < changes(*m).len() && changes(*m)[i as int] == (p.0@, value_opt(*p.1))
                && key_index(changes(*m), p.0@, 0) == i,
            None => i >= changes(*m).len(),
        },
{
    m.get_index(i)
}

/// Calls `IndexMap::insert`: a key that is there keeps its place, a new one
/// comes last.
#[verifier::external_body]
pub(crate) fn changes_insert(m: &mut TagChanges, key: String, value: Option<String>)
    ensures
        changes(*final(m)) == put(changes(*old(m)), key@, value_opt(value)),
{
    m.insert(key, value);
}

/// The pairs of an optional map.
pub open spec fn opt_entries(m: Option<TagMap>) -> Option<Seq<(Seq<char>, Seq<char>)>> {
    match m {
        Some(t) => Some(entries(t)),
        None => None,
    }
}

/// The pairs behind an optional reference.
pub open spec fn ref_entries(m: Option<&TagMap>) -> Seq<(Seq<char>, Seq<char>)> {
    match m {
        Some(t) => entries(*t),
        None => Seq::empty(),
    }
}

/// The pairs of an optional map, ordered by key.
pub open spec fn opt_by_key(m: Option<TagMap>) -> Option<Seq<(Seq<char>, Seq<char>)>> {
    match m {
        Some(t) => Some(by_key(entries(t))),
        None => None,
    }
}

/// The keys of a map, in its order.
fn tag_keys(m: &TagMap) -> (keys: Vec<String>)
    ensures
        views(keys@) == key_list(entries(*m)),
        distinct_keys(entries(*m)),
{
    let n = tags_len(m);
    let ghost all = entries(*m);
    let mut keys: Vec<String> = Vec::new();
    let mut i: usize = 0;
    assert(views(keys@) =~= key_list(all).take(0));
    while i < n
        invariant
            i <= n,
            n == all.len(),
            all == entries(*m),
            views(keys@) == key_list(all).take(i as int),
            forall|j: int| 0 <= j < i ==> key_index(all, (#[trigger] all[j]).0, 0) == j,
        decreases n - i,
    {
        match tags_at(m, i) {
            Some((k, _)) => {
                proof {
                    lemma_views_push(keys@, *k);
                    assert(key_list(all).take(i + 1) =~= key_list(all).take(i as int).push(k@));
                }
                keys.push(k.clone());
                assert(views(keys@) =~= key_list(all).take(i + 1));
            },
            None => {
                assert(false);
            },
        }
        i += 1;
    }
    assert(key_list(all).take(n as int) =~= key_list(all));
    keys
}

/// The same tags, ordered by key.
pub fn tags_by_key(m: &TagMap) -> (r: TagMap)
    ensures
        entries(r) == by_key(entries(*m)),
{
    let keys = tag_keys(m);
    let ghost all = entries(*m);
    proof {
        lemma_key_list(all);
        law_sorted_distinct(key_list(all));
    }
    let ordered = sort_strings(keys.as_slice());
    let ghost want = by_key(all);
    let mut r = tags_new();
    let mut i: usize = 0;
    assert(entries(r) =~= want.take(0));
    while i < ordered.len()
        invariant
            i <= ordered@.len(),
            all == entries(*m),
            want == by_key(all),
            views(ordered@) == sorted(key_list(all)),
            views(ordered@).no_duplicates(),
            forall|x: Seq<char>|
                sorted(key_list(all)).contains(x) <==> #[trigger] key_list(all).contains(x),
            entries(r) == want.take(i as int),
        decreases ordered@.len() - i,
    {
        let ghost key = views(ordered@)[i as int];
        proof {
            assert(views(ordered@).contains(key));
            assert(key_list(all).contains(key));
            let at = choose|at: int| 0 <= at < key_list(all).len() && key_list(all)[at] == key;
            assert(all[at].0 == key);
            lemma_key_index(all, key, 0);
            assert(lookup(all, key) is Some);
            assert forall|j: int| 0 <= j < want.take(i as int).len() implies (#[trigger] want.take(
                i as int,
            )[j]).0 != key by {
                assert(want[j].0 == views(ordered@)[j]);
            }
            lemma_key_absent(want.take(i as int), key);
            assert(want.take(i + 1) =~= want.take(i as int).push(want[i as int]));
        }
        match tags_get(m, ordered[i].as_str()) {
            Some(v) => {
                tags_insert(&mut r, ordered[i].clone(), v.clone());
            },
            None => {
                assert(false);
            },
        }
        i += 1;
    }
    assert(want.take(ordered@.len() as int) =~= want);
    r
}

/// Values and maps that may be missing are what they hold.
pub proof fn law_maps_that_may_be_missing(s: String, m: TagMap, r: &TagMap)
    ensures
        value_opt(Some(s)) == Some(s@) && value_opt(None) is None,
        opt_entries(Some(m)) == Some(entries(m)) && opt_entries(None) is None,
        ref_entries(Some(r)) == entries(*r) && ref_entries(None).len() == 0,
        opt_by_key(Some(m)) == Some(by_key(entries(m))) && opt_by_key(None) is None,
{
}

} // verus!
