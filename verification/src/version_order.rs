//! The order of versions as the comparison operators of the language see
//! it.

use crate::semantic::Sign;
use crate::version::{version_order, PackageVersion};
use std::cmp::Ordering;
use vstd::prelude::*;

verus! {

impl PartialOrd for PackageVersion {
    fn partial_cmp(&self, other: &Self) -> (r: Option<Ordering>) {
        match self.compare(other) {
            Sign::Less => Some(Ordering::Less),
            Sign::Equal => Some(Ordering::Equal),
            Sign::Greater => Some(Ordering::Greater),
        }
    }
}

impl vstd::std_specs::cmp::PartialOrdSpecImpl for PackageVersion {
    open spec fn obeys_partial_cmp_spec() -> bool {
        true
    }

    open spec fn partial_cmp_spec(&self, other: &Self) -> Option<Ordering> {
        match version_order(self@, other@) {
            Sign::Less => Some(Ordering::Less),
            Sign::Equal => Some(Ordering::Equal),
            Sign::Greater => Some(Ordering::Greater),
        }
    }
}

} // verus!
