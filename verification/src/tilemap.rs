//! Hash maps keyed by tile coordinates.
//!
//! The arena keeps its tile tables in `bevy::platform::collections::HashMap`,
//! the engine's hash map with a fixed hasher. Verus cannot look inside that
//! type, so this module declares it, names what each table holds as a
//! mathematical `Map`, and gives every method the library calls a small
//! function whose contract is assumed rather than proved. Everything else in
//! the crate is verified against these contracts.

use bevy::platform::collections::HashMap;
use bevy::platform::hash::FixedHasher;
use vstd::prelude::*;

verus! {

/// A tile coordinate `(x, y)`: column, then row.
pub type TilePos = (u32, u32);

/// Tells whether two coordinates name the same tile.
pub fn same_tile(a: TilePos, b: TilePos) -> (r: bool)
    ensures
        r == (a == b),
{
    a.0 == b.0 && a.1 == b.1
}

/// `bevy::platform::collections::HashMap`, declared as a type whose inside
/// stays hidden.
#[verifier::external_type_specification]
#[verifier::external_body]
#[verifier::reject_recursive_types(K)]
#[verifier::reject_recursive_types(V)]
#[verifier::reject_recursive_types(S)]
pub struct ExHashMap<K, V, S>(HashMap<K, V, S>);

/// `bevy::platform::hash::FixedHasher`, the hasher of those maps, declared
/// likewise.
#[verifier::external_type_specification]
#[verifier::external_body]
pub struct ExFixedHasher(FixedHasher);

/// The key-value pairs held by a table from tiles to entity handles.
pub uninterp spec fn handle_entries(m: HashMap<TilePos, u64>) -> Map<TilePos, u64>;

/// The key-value pairs held by a table from tiles to neighbour lists.
pub uninterp spec fn neighbor_entries(m: HashMap<TilePos, Vec<TilePos>>) -> Map<
    TilePos,
    Seq<TilePos>,
>;

/// The key-value pairs held by a table from tiles to path costs.
pub uninterp spec fn cost_entries(m: HashMap<TilePos, u32>) -> Map<TilePos, u32>;

/// The key-value pairs held by a table from tiles to their predecessor tile.
pub uninterp spec fn parent_entries(m: HashMap<TilePos, TilePos>) -> Map<TilePos, TilePos>;

/// `HashMap::new`: assumed to return a table that holds nothing.
#[verifier::external_body]
pub(crate) fn handle_map_new() -> (r: HashMap<TilePos, u64>)
    ensures
        (handle_entries(r) == Map::<TilePos, u64>::empty()),
{
    HashMap::new()
}

/// `HashMap::insert`: assumed to bind `key` to `value`, leave every other key
/// as it was, and return the value that `key` was bound to before, if any.
#[verifier::external_body]
pub(crate) fn handle_map_insert(m: &mut HashMap<TilePos, u64>, key: TilePos, value: u64) -> (r:
    Option<u64>)
    ensures
        handle_entries(*final(m)) == handle_entries(*old(m)).insert(key, value),
        r == (if handle_entries(*old(m)).dom().contains(key) {
            Some(handle_entries(*old(m))[key])
        } else {
            None
        }),
{
    m.insert(key, value)
}

/// `HashMap::contains_key`: assumed to tell whether `key` is bound.
#[verifier::external_body]
pub(crate) fn handle_map_contains(m: &HashMap<TilePos, u64>, key: TilePos) -> (r: bool)
    ensures
        r == handle_entries(*m).dom().contains(key),
{
    m.contains_key(&key)
}

/// `HashMap::get`: assumed to return the handle bound to `key`, or nothing
/// when `key` is not bound.
#[verifier::external_body]
pub(crate) fn handle_map_get(m: &HashMap<TilePos, u64>, key: TilePos) -> (r: Option<u64>)
    ensures
        r == (if handle_entries(*m).dom().contains(key) {
            Some(handle_entries(*m)[key])
        } else {
            None
        }),
{
    m.get(&key).copied()
}

/// `HashMap::remove`: assumed to unbind `key`, leave every other key as it
/// was, and return the value that `key` was bound to, if any.
#[verifier::external_body]
pub(crate) fn handle_map_remove(m: &mut HashMap<TilePos, u64>, key: TilePos) -> (r: Option<u64>)
    ensures
        handle_entries(*final(m)) == handle_entries(*old(m)).remove(key),
        r == (if handle_entries(*old(m)).dom().contains(key) {
            Some(handle_entries(*old(m))[key])
        } else {
            None
        }),
{
    m.remove(&key)
}

/// `HashMap::keys`: assumed to visit every bound key exactly once. The order
/// of the visit is left open.
#[verifier::external_body]
pub(crate) fn handle_map_keys(m: &HashMap<TilePos, u64>) -> (r: Vec<TilePos>)
    ensures
        r@.no_duplicates(),
        r@.to_set() == handle_entries(*m).dom(),
{
    m.keys().copied().collect()
}

/// `HashMap::new`: assumed to return a table that holds nothing.
#[verifier::external_body]
pub(crate) fn neighbor_map_new() -> (r: HashMap<TilePos, Vec<TilePos>>)
    ensures
        (neighbor_entries(r) == Map::<TilePos, Seq<TilePos>>::empty()),
{
    HashMap::new()
}

/// `HashMap::insert`: assumed to bind `key` to `value` and leave every other
/// key as it was.
#[verifier::external_body]
pub(crate) fn neighbor_map_insert(
    m: &mut HashMap<TilePos, Vec<TilePos>>,
    key: TilePos,
    value: Vec<TilePos>,
)
    ensures
        neighbor_entries(*final(m)) == neighbor_entries(*old(m)).insert(key, value@),
{
    m.insert(key, value);
}

/// `HashMap::get`: assumed to return the list bound to `key`, or nothing when
/// `key` is not bound.
#[verifier::external_body]
pub(crate) fn neighbor_map_get(m: &HashMap<TilePos, Vec<TilePos>>, key: TilePos) -> (r: Option<
    &Vec<TilePos>,
>)
    ensures
        r.is_some() == neighbor_entries(*m).dom().contains(key),
        r.is_some() ==> r.unwrap()@ == neighbor_entries(*m)[key],
{
    m.get(&key)
}

/// `HashMap::new`: assumed to return a table that holds nothing.
#[verifier::external_body]
pub(crate) fn cost_map_new() -> (r: HashMap<TilePos, u32>)
    ensures
        (cost_entries(r) == Map::<TilePos, u32>::empty()),
{
    HashMap::new()
}

/// `HashMap::insert`: assumed to bind `key` to `value` and leave every other
/// key as it was.
#[verifier::external_body]
pub(crate) fn cost_map_insert(m: &mut HashMap<TilePos, u32>, key: TilePos, value: u32)
    ensures
        cost_entries(*final(m)) == cost_entries(*old(m)).insert(key, value),
{
    m.insert(key, value);
}

/// `HashMap::get`: assumed to return the cost bound to `key`, or nothing when
/// `key` is not bound.
#[verifier::external_body]
pub(crate) fn cost_map_get(m: &HashMap<TilePos, u32>, key: TilePos) -> (r: Option<u32>)
    ensures
        r == (if cost_entries(*m).dom().contains(key) {
            Some(cost_entries(*m)[key])
        } else {
            None
        }),
{
    m.get(&key).copied()
}

/// `HashMap::new`: assumed to return a table that holds nothing.
#[verifier::external_body]
pub(crate) fn parent_map_new() -> (r: HashMap<TilePos, TilePos>)
    ensures
        (parent_entries(r) == Map::<TilePos, TilePos>::empty()),
{
    HashMap::new()
}

/// `HashMap::insert`: assumed to bind `key` to `value` and leave every other
/// key as it was.
#[verifier::external_body]
pub(crate) fn parent_map_insert(m: &mut HashMap<TilePos, TilePos>, key: TilePos, value: TilePos)
    ensures
        parent_entries(*final(m)) == parent_entries(*old(m)).insert(key, value),
{
    m.insert(key, value);
}

/// `HashMap::get`: assumed to return the tile bound to `key`, or nothing when
/// `key` is not bound.
#[verifier::external_body]
pub(crate) fn parent_map_get(m: &HashMap<TilePos, TilePos>, key: TilePos) -> (r: Option<TilePos>)
    ensures
        r == (if parent_entries(*m).dom().contains(key) {
            Some(parent_entries(*m)[key])
        } else {
            None
        }),
{
    m.get(&key).copied()
}

} // verus!
