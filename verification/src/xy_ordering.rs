use std::cmp::Ordering;

use vstd::prelude::*;
use vstd::std_specs::cmp::PartialOrdSpec;

use crate::geometry::XY;

verus! {

/// The lexicographic ordering of two positions: by `x`, then by `y`; undefined when either
/// coordinate pair is incomparable.
pub open spec fn lexicographic(x: Option<Ordering>, y: Option<Ordering>) -> Option<Ordering> {
    match (x, y) {
        (Some(Ordering::Equal), Some(b)) => Some(b),
        (Some(a), Some(_)) => Some(a),
        _ => None,
    }
}

impl<T: PartialOrd> PartialOrd<XY<T>> for XY<T> {
    fn partial_cmp(&self, other: &XY<T>) -> (r: Option<Ordering>) {
        let x = match self.x.partial_cmp(&other.x) {
            Some(ordering) => ordering,
            None => {
                return None;
            },
        };
        let y = match self.y.partial_cmp(&other.y) {
            Some(ordering) => ordering,
            None => {
                return None;
            },
        };
        match x {
            Ordering::Equal => Some(y),
            _ => Some(x),
        }
    }
}

impl<T: PartialOrd> vstd::std_specs::cmp::PartialOrdSpecImpl<XY<T>> for XY<T> {
    open spec fn obeys_partial_cmp_spec() -> bool {
        T::obeys_partial_cmp_spec()
    }

    open spec fn partial_cmp_spec(&self, other: &XY<T>) -> Option<Ordering> {
        lexicographic(self.x.partial_cmp_spec(&other.x), self.y.partial_cmp_spec(&other.y))
    }
}

} // verus!
