//! Equality and order of decimal values.
//!
//! Two values of one type share their scale, so they compare as their
//! unscaled integers do.
use crate::DecimalU64;
use std::cmp::Ordering;
use vstd::prelude::*;
use vstd::std_specs::cmp::PartialEqSpecImpl;
use vstd::std_specs::cmp::PartialOrdSpecImpl;

verus! {

impl<S> PartialEq for DecimalU64<S> {
    fn eq(&self, other: &Self) -> (r: bool) {
        self.unscaled == other.unscaled
    }
}

impl<S> PartialEqSpecImpl for DecimalU64<S> {
    open spec fn obeys_eq_spec() -> bool {
        true
    }

    open spec fn eq_spec(&self, other: &Self) -> bool {
        self.unscaled == other.unscaled
    }
}

impl<S> Eq for DecimalU64<S> {

}

impl<S> PartialOrd for DecimalU64<S> {
    fn partial_cmp(&self, other: &Self) -> (r: Option<Ordering>) {
        if self.unscaled < other.unscaled {
            Some(Ordering::Less)
        } else if self.unscaled > other.unscaled {
            Some(Ordering::Greater)
        } else {
            Some(Ordering::Equal)
        }
    }
}

impl<S> PartialOrdSpecImpl for DecimalU64<S> {
    open spec fn obeys_partial_cmp_spec() -> bool {
        true
    }

    open spec fn partial_cmp_spec(&self, other: &Self) -> Option<Ordering> {
        if self.unscaled < other.unscaled {
            Some(Ordering::Less)
        } else if self.unscaled > other.unscaled {
            Some(Ordering::Greater)
        } else {
            Some(Ordering::Equal)
        }
    }
}

} // verus!
