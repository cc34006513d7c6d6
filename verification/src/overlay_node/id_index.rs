//! Lookup table from 32-byte ids to slot numbers, kept in a `DashMap`.
use vstd::prelude::*;
use dashmap::DashMap;
use std::collections::hash_map::RandomState;

verus! {

#[verifier::external_type_specification]
#[verifier::external_body]
#[verifier::reject_recursive_types(K)]
#[verifier::reject_recursive_types(V)]
#[verifier::reject_recursive_types(S)]
pub struct ExDashMap<K, V, S>(DashMap<K, V, S>);

/// A concurrent table from 32-byte ids to slot numbers.
pub type IdIndex = DashMap<[u8; 32], usize, RandomState>;

/// The entries of an id table: each id it holds, with the slot stored for it.
pub uninterp spec fn index_entries(table: IdIndex) -> Map<
    Seq<u8>,
    usize,
>;

/// An empty table, made by `DashMap::new`.
///
/// Trusted: a new map holds no entry.
#[verifier::external_body]
pub(crate) fn index_new() -> (created: IdIndex)
    ensures
        index_entries(created) == (Map::<Seq<u8>, usize>::empty()),
{
    DashMap::new()
}

/// The slot stored for `id`, read by `DashMap::get`.
///
/// Trusted: the result is the stored value when the id is present and `None`
/// when it is not; the table is left as it was.
#[verifier::external_body]
pub(crate) fn index_get(table: &IdIndex, id: &[u8; 32]) -> (slot:
    Option<usize>)
    ensures
        slot == (if index_entries(*table).contains_key(id@) {
            Some(index_entries(*table)[id@])
        } else {
            None
        }),
{
    table.get(id).map(|entry| *entry.value())
}

/// Stores `slot` for `id` with `DashMap::insert`.
///
/// Trusted: afterwards the table maps `id` to `slot` and is otherwise
/// unchanged; the result is the value that `id` had before, if any.
#[verifier::external_body]
pub(crate) fn index_insert(
    table: &mut IdIndex,
    id: [u8; 32],
    slot: usize,
) -> (previous: Option<usize>)
    ensures
        index_entries(*final(table)) == index_entries(*old(table)).insert(id@, slot),
        previous == (if index_entries(*old(table)).contains_key(id@) {
            Some(index_entries(*old(table))[id@])
        } else {
            None
        }),
{
    table.insert(id, slot)
}

/// Drops the entry of `id` with `DashMap::remove`.
///
/// Trusted: afterwards the table holds no entry for `id` and is otherwise
/// unchanged; the result is the value that `id` had before, if any.
#[verifier::external_body]
pub(crate) fn index_remove(table: &mut IdIndex, id: &[u8; 32]) -> (previous:
    Option<usize>)
    ensures
        index_entries(*final(table)) == index_entries(*old(table)).remove(id@),
        previous == (if index_entries(*old(table)).contains_key(id@) {
            Some(index_entries(*old(table))[id@])
        } else {
            None
        }),
{
    table.remove(id).map(|entry| entry.1)
}

} // verus!
