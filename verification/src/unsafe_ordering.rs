use std::cmp::Ordering;

use vstd::prelude::*;
use vstd::std_specs::cmp::PartialOrdSpec;

verus! {

/// The ordering of `a` and `b`; they must be comparable.
pub fn unsafe_ordering<T: PartialOrd>(a: &T, b: &T) -> (r: Ordering)
    requires
        T::obeys_partial_cmp_spec(),
        a.partial_cmp_spec(b) is Some,
    ensures
        a.partial_cmp_spec(b) == Some(r),
{
    a.partial_cmp(b).unwrap()
}

/// The ordering of `a` and `b`, typically floats; they must be comparable.
pub fn unsafe_float_ordering<T: PartialOrd>(a: &T, b: &T) -> (r: Ordering)
    requires
        T::obeys_partial_cmp_spec(),
        a.partial_cmp_spec(b) is Some,
    ensures
        a.partial_cmp_spec(b) == Some(r),
{
    a.partial_cmp(b).unwrap()
}

} // verus!
