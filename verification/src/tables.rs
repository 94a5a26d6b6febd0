//! Hash tables of outside crates, each seen as a mathematical map.
//!
//! A table keeps the map that it stands for in a ghost field. The field is
//! private and only the methods of this module touch the table behind it, so
//! what they promise of the map is what a caller may rely on.
use std::collections::HashMap;
use std::hash::BuildHasherDefault;
use std::hash::Hash;

use dashmap::DashMap;
use rustc_hash::FxHasher;
use vstd::prelude::*;

verus! {

/// `dashmap::DashMap`, the sharded concurrent hash map.
#[verifier::external_type_specification]
#[verifier::external_body]
#[verifier::reject_recursive_types(K)]
#[verifier::reject_recursive_types(V)]
#[verifier::reject_recursive_types(S)]
pub struct ExDashMap<K, V, S>(DashMap<K, V, S>);

/// `rustc_hash::FxHasher`, the hasher of the compiler's own tables.
#[verifier::external_type_specification]
#[verifier::external_body]
pub struct ExFxHasher(FxHasher);

/// `std::hash::BuildHasherDefault`, which builds hashers by their default.
#[verifier::external_type_specification]
#[verifier::external_body]
#[verifier::reject_recursive_types(H)]
pub struct ExBuildHasherDefault<H>(BuildHasherDefault<H>);

/// Keys that a table can hold: integers and tuples of integers, whose
/// equality and hash are those of their components.
pub trait TableKey: Eq + Hash {

}

impl TableKey for u32 {

}

impl TableKey for u64 {

}

impl TableKey for usize {

}

impl TableKey for (u32, u32) {

}

impl TableKey for (u32, u32, u32) {

}

impl TableKey for (u128, u128) {

}

impl TableKey for ((u128, u128), u64) {

}

impl TableKey for (usize, (u128, u128)) {

}

/// A `DashMap` that one owner updates at a time.
#[verifier::reject_recursive_types(K)]
#[verifier::reject_recursive_types(V)]
pub struct ConcurrentMap<K: TableKey, V> {
    table: DashMap<K, V>,
    contents: Ghost<Map<K, V>>,
}

impl<K: TableKey, V> View for ConcurrentMap<K, V> {
    type V = Map<K, V>;

    closed spec fn view(&self) -> Map<K, V> {
        self.contents@
    }
}

impl<K: TableKey, V> ConcurrentMap<K, V> {
    /// `DashMap::new`: an empty table.
    #[verifier::external_body]
    pub(crate) fn new() -> (made: Self)
        ensures
            made@.dom().finite(),
            forall|k: K| !made@.contains_key(k),
    {
        ConcurrentMap { table: DashMap::new(), contents: Ghost(Map::empty()) }
    }

    /// `DashMap::insert`: afterwards the key maps to the value and every other
    /// key is as before; the value that was there is handed back.
    #[verifier::external_body]
    pub(crate) fn insert(&mut self, key: K, value: V) -> (previous: Option<V>)
        ensures
            final(self)@ == old(self)@.insert(key, value),
            previous == old(self)@.get(key),
    {
        self.table.insert(key, value)
    }

    /// `DashMap::remove`: afterwards the key is absent and every other key is
    /// as before; the value that was there is handed back.
    #[verifier::external_body]
    pub(crate) fn remove(&mut self, key: &K) -> (previous: Option<V>)
        ensures
            final(self)@ == old(self)@.remove(*key),
            previous == old(self)@.get(*key),
    {
        self.table.remove(key).map(|entry| entry.1)
    }

    /// `DashMap::get`: a clone of the value under the key, if there is one.
    #[verifier::external_body]
    pub(crate) fn get(&self, key: &K) -> (value: Option<V>) where V: Clone
        ensures
            match value {
                Some(v) => self@.contains_key(*key) && cloned(self@[*key], v),
                None => !self@.contains_key(*key),
            },
    {
        self.table.get(key).map(|entry| entry.value().clone())
    }

    /// `DashMap::contains_key`: whether the key is present.
    #[verifier::external_body]
    pub(crate) fn contains_key(&self, key: &K) -> (present: bool)
        ensures
            present == self@.contains_key(*key),
    {
        self.table.contains_key(key)
    }

    /// `DashMap::len`: the number of keys.
    #[verifier::external_body]
    pub(crate) fn len(&self) -> (count: usize)
        ensures
            count == self@.dom().len(),
    {
        self.table.len()
    }

    /// `DashMap::iter`, each entry mapped to its key: every key once, in an
    /// order that is left open.
    #[verifier::external_body]
    pub(crate) fn keys(&self) -> (keys: Vec<K>) where K: Copy
        ensures
            keys@.no_duplicates(),
            forall|k: K| keys@.contains(k) <==> self@.contains_key(k),
    {
        self.table.iter().map(|entry| *entry.key()).collect()
    }
}

/// A `rustc_hash::FxHashMap`.
#[verifier::reject_recursive_types(K)]
#[verifier::reject_recursive_types(V)]
pub struct FxMap<K: TableKey, V> {
    table: HashMap<K, V, BuildHasherDefault<FxHasher>>,
    contents: Ghost<Map<K, V>>,
}

impl<K: TableKey, V> View for FxMap<K, V> {
    type V = Map<K, V>;

    closed spec fn view(&self) -> Map<K, V> {
        self.contents@
    }
}

impl<K: TableKey, V> FxMap<K, V> {
    /// `FxHashMap::default`: an empty table.
    #[verifier::external_body]
    pub(crate) fn new() -> (made: Self)
        ensures
            forall|k: K| !made@.contains_key(k),
    {
        FxMap { table: HashMap::default(), contents: Ghost(Map::empty()) }
    }

    /// `HashMap::insert` with the Fx hasher: afterwards the key maps to the
    /// value and every other key is as before.
    #[verifier::external_body]
    pub(crate) fn insert(&mut self, key: K, value: V) -> (previous: Option<V>)
        ensures
            final(self)@ == old(self)@.insert(key, value),
            previous == old(self)@.get(key),
    {
        self.table.insert(key, value)
    }

    /// `HashMap::get` with the Fx hasher: the value under the key, copied.
    #[verifier::external_body]
    pub(crate) fn get(&self, key: &K) -> (value: Option<V>) where V: Copy
        ensures
            value == self@.get(*key),
    {
        self.table.get(key).copied()
    }
}

} // verus!
