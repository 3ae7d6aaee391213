//! Comparison operators on hand ranks.

use crate::card::HandRank;
use std::cmp::Ordering;
use vstd::prelude::*;

verus! {

impl PartialOrd for HandRank {
    fn partial_cmp(&self, other: &HandRank) -> (r: Option<Ordering>) {
        let a = self.strength();
        let b = other.strength();
        if a < b {
            Some(Ordering::Less)
        } else if a == b {
            Some(Ordering::Equal)
        } else {
            Some(Ordering::Greater)
        }
    }
}

impl vstd::std_specs::cmp::PartialOrdSpecImpl for HandRank {
    open spec fn obeys_partial_cmp_spec() -> bool {
        true
    }

    /// Hand ranks compare as their scores do.
    open spec fn partial_cmp_spec(&self, other: &HandRank) -> Option<Ordering> {
        if self.score() < other.score() {
            Some(Ordering::Less)
        } else if self.score() == other.score() {
            Some(Ordering::Equal)
        } else {
            Some(Ordering::Greater)
        }
    }
}

} // verus!
