//! Tables from names to numbers.
use rustc_hash::{FxBuildHasher, FxHashMap};
use vstd::prelude::*;

verus! {

/// `rustc_hash::FxBuildHasher`, the hasher of the tables; nothing is claimed
/// of it.
#[verifier::external_type_specification]
#[verifier::external_body]
pub struct ExFxBuildHasher(FxBuildHasher);

/// A table from names to numbers (indices, or the bits of real numbers).
pub type Table = FxHashMap<String, u64>;

/// What a table holds.
pub uninterp spec fn entries(m: FxHashMap<String, u64>) -> Map<Seq<char>, u64>;

/// `FxHashMap::default` makes an empty map.
#[verifier::external_body]
pub(crate) fn table_new() -> (r: FxHashMap<String, u64>)
    ensures
        (entries(r) == Map::<Seq<char>, u64>::empty()),
{
    FxHashMap::default()
}

/// `HashMap::get`: the value under a key, if the map has that key. Two keys
/// are the same when their texts are.
#[verifier::external_body]
pub(crate) fn table_get(m: &FxHashMap<String, u64>, key: &str) -> (r: Option<u64>)
    ensures
        r == entries(*m).get(key@),
{
    m.get(key).copied()
}

/// `HashMap::insert` puts the value under the key, in place of one that is
/// already there; every other key keeps its value.
#[verifier::external_body]
pub(crate) fn table_insert(m: &mut FxHashMap<String, u64>, key: String, value: u64)
    ensures
        entries(*final(m)) == entries(*old(m)).insert(key@, value),
{
    m.insert(key, value);
}

/// `HashMap::clone` copies every entry.
#[verifier::external_body]
pub(crate) fn table_clone(m: &FxHashMap<String, u64>) -> (r: FxHashMap<String, u64>)
    ensures
        entries(r) == entries(*m),
{
    m.clone()
}

/// A table from symbols, by their numbers, to the bits of real numbers.
pub type SymbolTable = FxHashMap<u64, u64>;

/// What a table by symbol holds.
pub uninterp spec fn symbol_entries(m: FxHashMap<u64, u64>) -> Map<u64, u64>;

/// `FxHashMap::default` makes an empty map.
#[verifier::external_body]
pub(crate) fn symbol_table_new() -> (r: FxHashMap<u64, u64>)
    ensures
        (symbol_entries(r) == Map::<u64, u64>::empty()),
{
    FxHashMap::default()
}

/// `HashMap::insert` puts the value under the key, in place of one that is
/// already there; every other key keeps its value.
#[verifier::external_body]
pub(crate) fn symbol_table_insert(m: &mut FxHashMap<u64, u64>, key: u64, value: u64)
    ensures
        symbol_entries(*final(m)) == symbol_entries(*old(m)).insert(key, value),
{
    m.insert(key, value);
}

/// `HashMap::clone` copies every entry.
#[verifier::external_body]
pub(crate) fn symbol_table_clone(m: &FxHashMap<u64, u64>) -> (r: FxHashMap<u64, u64>)
    ensures
        symbol_entries(r) == symbol_entries(*m),
{
    m.clone()
}

} // verus!
