//! Hash tables keyed by identifiers.
//!
//! The tables are `fxhash::FxHashMap`s: hash maps of the standard library
//! that hash with `fxhash::FxHasher`. What the verifier is told about them
//! is stated here and proved nowhere.
use crate::message::Id;
use fxhash::FxHashMap;
use vstd::prelude::*;

verus! {

/// The hasher of `fxhash`, which the tables hash their keys with.
#[verifier::external_type_specification]
#[verifier::external_body]
pub struct ExFxHasher(fxhash::FxHasher);

/// The hasher factory of the standard library that `fxhash::FxBuildHasher`
/// is an instance of.
#[verifier::external_type_specification]
#[verifier::external_body]
#[verifier::reject_recursive_types(H)]
pub struct ExBuildHasherDefault<H>(core::hash::BuildHasherDefault<H>);

/// Calls `insert` of the standard library's `HashMap` on a table that hashes
/// with `fxhash::FxHasher`. Claimed: afterwards the table maps `key` to
/// `value` and every other key to what it was mapped to before, and the
/// result is the value that `key` was mapped to before, if there was one.
#[verifier::external_body]
pub(crate) fn insert<V>(table: &mut FxHashMap<Id, V>, key: Id, value: V) -> (previous: Option<V>)
    ensures
        final(table)@ == old(table)@.insert(key, value),
        previous == (if old(table)@.contains_key(key) {
            Some(old(table)@[key])
        } else {
            None
        }),
{
    table.insert(key, value)
}

/// Calls `remove` of the standard library's `HashMap` on a table that hashes
/// with `fxhash::FxHasher`. Claimed: afterwards `key` is not in the table
/// and every other key is mapped to what it was mapped to before, and the
/// result is the value that `key` was mapped to before, if there was one.
#[verifier::external_body]
pub(crate) fn remove<V>(table: &mut FxHashMap<Id, V>, key: Id) -> (taken: Option<V>)
    ensures
        final(table)@ == old(table)@.remove(key),
        taken == (if old(table)@.contains_key(key) {
            Some(old(table)@[key])
        } else {
            None
        }),
{
    table.remove(&key)
}

/// Calls `get` of the standard library's `HashMap` on a table that hashes
/// with `fxhash::FxHasher`. Claimed: the result is the value that `key` is
/// mapped to, if there is one.
#[verifier::external_body]
pub(crate) fn get<V>(table: &FxHashMap<Id, V>, key: Id) -> (found: Option<&V>)
    ensures
        found == (if table@.contains_key(key) {
            Some(&table@[key])
        } else {
            None
        }),
{
    table.get(&key)
}

} // verus!
