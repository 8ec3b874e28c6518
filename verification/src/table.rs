//! Hash tables keyed by integers.
use rustc_hash::FxHashMap;
use vstd::prelude::*;

verus! {

/// A table from integers.
pub type Table<K, V> = FxHashMap<K, V>;

/// The integers that tables are keyed by.
pub(crate) trait TableKey: Copy + Eq + std::hash::Hash {

}

impl TableKey for u128 {

}

impl TableKey for i64 {

}

/// The hasher of the tables.
#[verifier::external_type_specification]
#[verifier::external_body]
pub struct ExFxBuildHasher(rustc_hash::FxBuildHasher);

/// `FxHashMap::default`: a table without entries.
#[verifier::external_body]
pub(crate) fn table_new<K: TableKey, V: Copy>() -> (m: FxHashMap<K, V>)
    ensures
        m@.dom() == Set::<K>::empty(),
{
    FxHashMap::default()
}

/// `FxHashMap::insert`: afterwards the key has the value, and the other entries are as before.
#[verifier::external_body]
pub(crate) fn table_insert<K: TableKey, V: Copy>(m: &mut FxHashMap<K, V>, key: K, value: V)
    ensures
        final(m)@ == old(m)@.insert(key, value),
{
    m.insert(key, value);
}

/// `FxHashMap::get`: the value of the key, if it has one.
#[verifier::external_body]
pub(crate) fn table_get<K: TableKey, V: Copy>(m: &FxHashMap<K, V>, key: K) -> (r: Option<V>)
    ensures
        r == (if m@.contains_key(key) {
            Some(m@[key])
        } else {
            None
        }),
{
    m.get(&key).copied()
}

/// `FxHashMap::keys`: the keys, each once, in no particular order.
#[verifier::external_body]
pub(crate) fn table_keys<K: TableKey, V: Copy>(m: &FxHashMap<K, V>) -> (keys: Vec<K>)
    ensures
        keys@.no_duplicates(),
        forall|key: K| m@.contains_key(key) <==> keys@.contains(key),
{
    m.keys().copied().collect()
}

} // verus!
