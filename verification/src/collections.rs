use vstd::prelude::*;

use indexmap::IndexMap;

use crate::ast::{Array, BufferSize, Channel, ChannelName, Int, TupleSpace, TupleSpaceName, TupleSpaceType, Variable};

verus! {

#[verifier::external_type_specification]
#[verifier::external_body]
#[verifier::reject_recursive_types(K)]
#[verifier::reject_recursive_types(V)]
#[verifier::reject_recursive_types(S)]
pub struct ExIndexMap<K, V, S>(IndexMap<K, V, S>);

// ---------------------------------------------------------------------------
// What each map holds, in its order, as plain values.

/// The entries of a map of tuple spaces: name, discipline, capacity, tuples.
pub uninterp spec fn tuple_space_entries(m: IndexMap<TupleSpaceName, TupleSpace>) -> Seq<
    (Seq<char>, (TupleSpaceType, BufferSize, Seq<Seq<i32>>)),
>;

/// The entries of a map of channels: name, capacity, contents.
pub uninterp spec fn channel_entries(m: IndexMap<ChannelName, Channel>) -> Seq<
    (Seq<char>, (BufferSize, Seq<i32>)),
>;

/// The entries of a map of array sizes.
pub uninterp spec fn array_size_entries(m: IndexMap<Array, u32>) -> Seq<(Seq<char>, u32)>;

/// The entries of a map of initial variable values.
pub uninterp spec fn variable_value_entries(m: IndexMap<Variable, Int>) -> Seq<(Seq<char>, i32)>;

/// The entries of a map of initial array contents.
pub uninterp spec fn array_value_entries(m: IndexMap<Array, Vec<Int>>) -> Seq<(Seq<char>, Seq<i32>)>;

/// No two entries share a name.
pub open spec fn keys_distinct<T>(e: Seq<(Seq<char>, T)>) -> bool {
    forall|i: int, j: int| 0 <= i < j < e.len() ==> #[trigger] e[i].0 != #[trigger] e[j].0
}

/// The map has an entry named `k`.
pub open spec fn has_key<T>(e: Seq<(Seq<char>, T)>, k: Seq<char>) -> bool {
    exists|i: int| 0 <= i < e.len() && #[trigger] e[i].0 == k
}

pub open spec fn tuple_space_entry_view(x: (TupleSpaceName, TupleSpace)) -> (Seq<char>, (TupleSpaceType, BufferSize, Seq<Seq<i32>>)) {
    (x.0.0@, (x.1.space_type, x.1.size, Seq::new(x.1.space@.len(), |i: int| x.1.space@[i]@)))
}

pub open spec fn channel_entry_view(x: (ChannelName, Channel)) -> (Seq<char>, (BufferSize, Seq<i32>)) {
    (x.0.0@, (x.1.size, x.1.channel@))
}

// ---------------------------------------------------------------------------
// The calls.

/// `IndexMap::into_iter` on a map of tuple spaces, collected: the entries
/// in the map's order. The keys of an `IndexMap` are distinct.
#[verifier::external_body]
pub(crate) fn tuple_space_map_entries(m: IndexMap<TupleSpaceName, TupleSpace>) -> (r: Vec<(TupleSpaceName, TupleSpace)>)
    ensures
        r@.map_values(|x: (TupleSpaceName, TupleSpace)| tuple_space_entry_view(x)) == tuple_space_entries(m),
        keys_distinct(r@.map_values(|x: (TupleSpaceName, TupleSpace)| tuple_space_entry_view(x))),
{
    m.into_iter().collect()
}

/// `IndexMap::into_iter` on a map of channels, collected: the entries in
/// the map's order. The keys of an `IndexMap` are distinct.
#[verifier::external_body]
pub(crate) fn channel_map_entries(m: IndexMap<ChannelName, Channel>) -> (r: Vec<(ChannelName, Channel)>)
    ensures
        r@.map_values(|x: (ChannelName, Channel)| channel_entry_view(x)) == channel_entries(m),
        keys_distinct(r@.map_values(|x: (ChannelName, Channel)| channel_entry_view(x))),
{
    m.into_iter().collect()
}

/// The value of the first entry named `k`, if there is one.
pub open spec fn lookup<T>(e: Seq<(Seq<char>, T)>, k: Seq<char>) -> Option<T>
    decreases e.len(),
{
    if e.len() == 0 {
        None
    } else if e[0].0 == k {
        Some(e[0].1)
    } else {
        lookup(e.drop_first(), k)
    }
}

/// `IndexMap::get` on a map of array sizes: the size stored under that
/// name, if there is one (keys are distinct, so the entry is the first one
/// with that name).
#[verifier::external_body]
pub(crate) fn array_size_get(m: &IndexMap<Array, u32>, k: &Array) -> (r: Option<u32>)
    ensures
        r == lookup(array_size_entries(*m), k.0@),
{
    m.get(k).copied()
}

/// `IndexMap::contains_key` on a map of tuple spaces.
#[verifier::external_body]
pub(crate) fn tuple_space_map_contains(m: &IndexMap<TupleSpaceName, TupleSpace>, k: &TupleSpaceName) -> (r: bool)
    ensures
        r == has_key(tuple_space_entries(*m), k.0@),
{
    m.contains_key(k)
}

/// `IndexMap::contains_key` on a map of channels.
#[verifier::external_body]
pub(crate) fn channel_map_contains(m: &IndexMap<ChannelName, Channel>, k: &ChannelName) -> (r: bool)
    ensures
        r == has_key(channel_entries(*m), k.0@),
{
    m.contains_key(k)
}

/// `IndexMap::iter` on a map of variable values: the entries in order.
#[verifier::external_body]
pub(crate) fn variable_value_list(m: &IndexMap<Variable, Int>) -> (r: Vec<(Variable, Int)>)
    ensures
        r@.map_values(|x: (Variable, Int)| (x.0.0@, x.1)) == variable_value_entries(*m),
{
    m.iter().map(|(k, v)| (k.clone(), *v)).collect()
}

/// `IndexMap::iter` on a map of array contents: the entries in order.
#[verifier::external_body]
pub(crate) fn array_value_list(m: &IndexMap<Array, Vec<Int>>) -> (r: Vec<(Array, Vec<Int>)>)
    ensures
        r@.map_values(|x: (Array, Vec<Int>)| (x.0.0@, x.1@)) == array_value_entries(*m),
{
    m.iter().map(|(k, v)| (k.clone(), v.clone())).collect()
}

/// `IndexMap::iter` on a map of tuple spaces: the entries in order.
#[verifier::external_body]
pub(crate) fn tuple_space_list(m: &IndexMap<TupleSpaceName, TupleSpace>) -> (r: Vec<(TupleSpaceName, TupleSpace)>)
    ensures
        r@.map_values(|x: (TupleSpaceName, TupleSpace)| tuple_space_entry_view(x)) == tuple_space_entries(*m),
{
    m.iter().map(|(k, v)| (k.clone(), v.clone())).collect()
}

/// `IndexMap::iter` on a map of channels: the entries in order.
#[verifier::external_body]
pub(crate) fn channel_list(m: &IndexMap<ChannelName, Channel>) -> (r: Vec<(ChannelName, Channel)>)
    ensures
        r@.map_values(|x: (ChannelName, Channel)| channel_entry_view(x)) == channel_entries(*m),
{
    m.iter().map(|(k, v)| (k.clone(), v.clone())).collect()
}

} // verus!
