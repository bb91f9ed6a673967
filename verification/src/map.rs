use std::collections::HashMap;
use std::hash::Hash;

use vstd::prelude::*;
use vstd::std_specs::cmp::PartialEqSpec;

verus! {

/// Lookup of a key together with the value it should map to.
pub trait ContainsKeyValue {
    type Key;

    type Value;

    /// Whether `maps_key_to` describes the collection's behaviour.
    spec fn obeys_model() -> bool;

    /// Whether the collection maps `key` to a value equal to `value`.
    spec fn maps_key_to(&self, key: Self::Key, value: Self::Value) -> bool;

    /// Whether the collection maps `key` to a value equal to `value`.
    fn contains_key_value(&self, key: &Self::Key, value: &Self::Value) -> (r: bool)
        ensures
            Self::obeys_model() ==> r == self.maps_key_to(*key, *value),
    ;
}

impl<T: Eq + Hash, U: PartialEq> ContainsKeyValue for HashMap<T, U> {
    type Key = T;

    type Value = U;

    open spec fn obeys_model() -> bool {
        vstd::std_specs::hash::obeys_key_model::<T>() && U::obeys_eq_spec()
    }

    open spec fn maps_key_to(&self, key: T, value: U) -> bool {
        self@.contains_key(key) && self@[key].eq_spec(&value)
    }

    fn contains_key_value(&self, key: &T, value: &U) -> (r: bool) {
        broadcast use vstd::std_specs::hash::group_hash_axioms;

        match self.get(key) {
            Some(found) => found == value,
            None => false,
        }
    }
}

} // verus!
