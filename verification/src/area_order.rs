//! Comparing polygons by the area they enclose.
//!
//! Two polygons are equal when they enclose the same area, and one is less
//! than another when it encloses less. Every polygon has an area, so any
//! two polygons can be compared.

use core::cmp::Ordering;
use vstd::prelude::*;
use vstd::std_specs::cmp::{PartialEqSpecImpl, PartialOrdSpecImpl};
use crate::polygon::{doubled_area, Poly};

verus! {

impl PartialEq for Poly {
    fn eq(&self, other: &Self) -> (r: bool) {
        self.doubled_area() == other.doubled_area()
    }
}

impl PartialEqSpecImpl for Poly {
    open spec fn obeys_eq_spec() -> bool {
        true
    }

    open spec fn eq_spec(&self, other: &Self) -> bool {
        doubled_area(self@) == doubled_area(other@)
    }
}

impl PartialOrd for Poly {
    fn partial_cmp(&self, other: &Self) -> (r: Option<Ordering>) {
        let mine: u128 = self.doubled_area();
        let theirs: u128 = other.doubled_area();
        if mine < theirs {
            Some(Ordering::Less)
        } else if mine == theirs {
            Some(Ordering::Equal)
        } else {
            Some(Ordering::Greater)
        }
    }
}

impl PartialOrdSpecImpl for Poly {
    open spec fn obeys_partial_cmp_spec() -> bool {
        true
    }

    open spec fn partial_cmp_spec(&self, other: &Self) -> Option<Ordering> {
        if doubled_area(self@) < doubled_area(other@) {
            Some(Ordering::Less)
        } else if doubled_area(self@) == doubled_area(other@) {
            Some(Ordering::Equal)
        } else {
            Some(Ordering::Greater)
        }
    }
}

} // verus!
