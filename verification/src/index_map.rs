//! Insertion-ordered maps from the `indexmap` crate, seen through what the
//! logic reads of them: their entries in insertion order.
use vstd::prelude::*;
use indexmap::IndexMap;
use std::collections::hash_map::RandomState;
use crate::refs::strings_view;

verus! {

#[verifier::external_type_specification]
#[verifier::external_body]
#[verifier::reject_recursive_types(K)]
#[verifier::reject_recursive_types(V)]
#[verifier::reject_recursive_types(S)]
pub struct ExIndexMap<K, V, S>(IndexMap<K, V, S>);

/// Keys of an insertion-ordered set of texts, in insertion order.
pub uninterp spec fn ordered_keys(m: IndexMap<String, (), RandomState>) -> Seq<Seq<char>>;

/// Entries of an insertion-ordered counter of texts, in insertion order.
pub uninterp spec fn ordered_counts(m: IndexMap<String, usize, RandomState>) -> Seq<(Seq<char>, usize)>;

/// The keys of counter entries.
pub open spec fn count_keys(entries: Seq<(Seq<char>, usize)>) -> Seq<Seq<char>> {
    entries.map_values(|e: (Seq<char>, usize)| e.0)
}

/// `IndexMap::new`: an empty map.
#[verifier::external_body]
pub(crate) fn key_set_new() -> (m: IndexMap<String, (), RandomState>)
    ensures
        ordered_keys(m) == Seq::<Seq<char>>::empty(),
{
    IndexMap::new()
}

/// `IndexMap::insert`: a key already present keeps its place; a new key is
/// appended last (per the crate's documentation).
#[verifier::external_body]
pub(crate) fn key_set_insert(m: &mut IndexMap<String, (), RandomState>, key: String)
    ensures
        ordered_keys(*final(m)) == if ordered_keys(*old(m)).contains(key@) {
            ordered_keys(*old(m))
        } else {
            ordered_keys(*old(m)).push(key@)
        },
{
    m.insert(key, ());
}

/// `IndexMap::keys`, copied out in order.
#[verifier::external_body]
pub(crate) fn key_set_keys(m: &IndexMap<String, (), RandomState>) -> (keys: Vec<String>)
    ensures
        strings_view(keys@) == ordered_keys(*m),
{
    m.keys().cloned().collect()
}

/// `IndexMap::new`: an empty counter.
#[verifier::external_body]
pub(crate) fn counter_new() -> (m: IndexMap<String, usize, RandomState>)
    ensures
        ordered_counts(m) == Seq::<(Seq<char>, usize)>::empty(),
{
    IndexMap::new()
}

/// `IndexMap::get`: the value stored under the key, if any.
#[verifier::external_body]
pub(crate) fn counter_get(m: &IndexMap<String, usize, RandomState>, key: &str) -> (v: Option<usize>)
    ensures
        match v {
            Some(c) => count_keys(ordered_counts(*m)).contains(key@) && ordered_counts(*m)[count_keys(
                ordered_counts(*m),
            ).index_of(key@)].1 == c,
            None => !count_keys(ordered_counts(*m)).contains(key@),
        },
{
    m.get(key).copied()
}

/// `IndexMap::insert`: a key already present keeps its place and takes the
/// new value; a new key is appended last.
#[verifier::external_body]
pub(crate) fn counter_insert(m: &mut IndexMap<String, usize, RandomState>, key: String, value: usize)
    ensures
        ordered_counts(*final(m)) == if count_keys(ordered_counts(*old(m))).contains(key@) {
            ordered_counts(*old(m)).update(
                count_keys(ordered_counts(*old(m))).index_of(key@),
                (key@, value),
            )
        } else {
            ordered_counts(*old(m)).push((key@, value))
        },
{
    m.insert(key, value);
}

/// `IndexMap::values`, copied out in order.
#[verifier::external_body]
pub(crate) fn counter_values(m: &IndexMap<String, usize, RandomState>) -> (values: Vec<usize>)
    ensures
        values@ == ordered_counts(*m).map_values(|e: (Seq<char>, usize)| e.1),
{
    m.values().copied().collect()
}

} // verus!
