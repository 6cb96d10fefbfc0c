//! The hash map used throughout the crate, and what is relied on of it.

use std::hash::BuildHasherDefault;

use fxhash::{FxHashMap, FxHasher};
use vstd::prelude::*;

verus! {

/// The hasher of `fxhash`. It never appears by itself.
#[verifier::external_type_specification]
#[verifier::external_body]
pub struct ExFxHasher(FxHasher);

/// What builds the hasher of an `FxHashMap`. It never appears by itself.
#[verifier::external_type_specification]
#[verifier::external_body]
#[verifier::reject_recursive_types(H)]
pub struct ExBuildHasherDefault<H>(BuildHasherDefault<H>);

/// The hash map used throughout the crate.
pub type LmcHashMap<K, V> = FxHashMap<K, V>;

/// The contents of a map whose keys are strings, by the characters of its keys.
pub open spec fn by_topic<V>(m: Map<String, V>) -> Map<Seq<char>, V> {
    Map::new(
        |k: Seq<char>| exists|s: String| #[trigger] m.contains_key(s) && s@ == k,
        |k: Seq<char>| m[choose|s: String| #[trigger] m.contains_key(s) && s@ == k],
    )
}

/// `FxHashMap::default` on string keys: the new map is empty.
#[verifier::external_body]
pub(crate) fn topic_map_new<V>() -> (m: LmcHashMap<String, V>)
    ensures
        (by_topic(m@) == Map::<Seq<char>, V>::empty()),
{
    LmcHashMap::default()
}

/// `HashMap::get` on string keys: finds the value under the key with these characters,
/// if there is one.
#[verifier::external_body]
pub(crate) fn topic_map_get<'a, V>(m: &'a LmcHashMap<String, V>, k: &str) -> (r: Option<&'a V>)
    ensures
        match r {
            Some(v) => by_topic(m@).contains_key(k@) && *v == by_topic(m@)[k@],
            None => !by_topic(m@).contains_key(k@),
        },
{
    m.get(k)
}

/// `HashMap::get_mut` on string keys: lends the value under the key with these
/// characters, if there is one, and touches nothing else.
#[verifier::external_body]
pub(crate) fn topic_map_get_mut<'a, V>(m: &'a mut LmcHashMap<String, V>, k: &str) -> (r: Option<
    &'a mut V,
>)
    ensures
        match r {
            Some(v) => by_topic(old(m)@).contains_key(k@) && *v == by_topic(old(m)@)[k@]
                && by_topic(final(m)@) == by_topic(old(m)@).insert(k@, *final(v)),
            None => !by_topic(old(m)@).contains_key(k@) && by_topic(final(m)@) == by_topic(
                old(m)@,
            ),
        },
{
    m.get_mut(k)
}

/// `HashMap::insert` on string keys: puts the value under the key with these characters
/// and hands out the value that was there before.
#[verifier::external_body]
pub(crate) fn topic_map_insert<V>(m: &mut LmcHashMap<String, V>, k: String, v: V) -> (r: Option<V>)
    ensures
        by_topic(final(m)@) == by_topic(old(m)@).insert(k@, v),
        match r {
            Some(w) => by_topic(old(m)@).contains_key(k@) && w == by_topic(old(m)@)[k@],
            None => !by_topic(old(m)@).contains_key(k@),
        },
{
    m.insert(k, v)
}

/// `HashMap::remove` on string keys: takes out the value under the key with these
/// characters, if there is one, and touches nothing else.
#[verifier::external_body]
pub(crate) fn topic_map_remove<V>(m: &mut LmcHashMap<String, V>, k: &str) -> (r: Option<V>)
    ensures
        by_topic(final(m)@) == by_topic(old(m)@).remove(k@),
        match r {
            Some(w) => by_topic(old(m)@).contains_key(k@) && w == by_topic(old(m)@)[k@],
            None => !by_topic(old(m)@).contains_key(k@),
        },
{
    m.remove(k)
}

/// `HashMap::keys` on string keys: lists every key once, in an order that is left open.
#[verifier::external_body]
pub(crate) fn topic_map_keys<V>(m: &LmcHashMap<String, V>) -> (r: Vec<String>)
    ensures
        r@.to_set() == m@.dom(),
        forall|i: int, j: int|
            0 <= i < r@.len() && 0 <= j < r@.len() && i != j ==> #[trigger] r@[i]@
                != #[trigger] r@[j]@,
        forall|i: int| 0 <= i < r@.len() ==> by_topic(m@).contains_key(#[trigger] r@[i]@),
        forall|k: Seq<char>| #[trigger]
            by_topic(m@).contains_key(k) ==> exists|i: int| 0 <= i < r@.len() && r@[i]@ == k,
{
    m.keys().cloned().collect()
}

/// `FxHashMap::default` on integer keys: the new map is empty.
#[verifier::external_body]
pub(crate) fn id_map_new<V>() -> (m: LmcHashMap<u32, V>)
    ensures
        (m@ == Map::<u32, V>::empty()),
{
    LmcHashMap::default()
}

/// `HashMap::get` on integer keys: finds the value under the key, if there is one.
#[verifier::external_body]
pub(crate) fn id_map_get<V>(m: &LmcHashMap<u32, V>, k: u32) -> (r: Option<&V>)
    ensures
        match r {
            Some(v) => m@.contains_key(k) && *v == m@[k],
            None => !m@.contains_key(k),
        },
{
    m.get(&k)
}

/// `HashMap::insert` on integer keys: puts the value under the key and hands out the
/// value that was there before.
#[verifier::external_body]
pub(crate) fn id_map_insert<V>(m: &mut LmcHashMap<u32, V>, k: u32, v: V) -> (r: Option<V>)
    ensures
        final(m)@ == old(m)@.insert(k, v),
        match r {
            Some(w) => old(m)@.contains_key(k) && w == old(m)@[k],
            None => !old(m)@.contains_key(k),
        },
{
    m.insert(k, v)
}

/// `HashMap::remove` on integer keys: takes out the value under the key, if there is one,
/// and touches nothing else.
#[verifier::external_body]
pub(crate) fn id_map_remove<V>(m: &mut LmcHashMap<u32, V>, k: u32) -> (r: Option<V>)
    ensures
        final(m)@ == old(m)@.remove(k),
        match r {
            Some(w) => old(m)@.contains_key(k) && w == old(m)@[k],
            None => !old(m)@.contains_key(k),
        },
{
    m.remove(&k)
}

/// `HashMap::keys` on integer keys: lists every key once, in an order that is left open.
#[verifier::external_body]
pub(crate) fn id_map_keys<V>(m: &LmcHashMap<u32, V>) -> (r: Vec<u32>)
    ensures
        r@.no_duplicates(),
        forall|k: u32| #[trigger] m@.contains_key(k) <==> r@.contains(k),
{
    m.keys().copied().collect()
}

} // verus!
