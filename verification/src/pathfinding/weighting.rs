//! How the cost of a node and the estimate of what remains combine into the
//! key by which the frontier is ordered.

use crate::cost::Cost;
use vstd::prelude::*;

verus! {

/// A rule that gives every pair of cost and estimate a priority.
pub trait Weighting<F: Cost> {
    /// The priority of a node with this cost and estimate.
    open spec fn priority(&self, cost: int, estimate: int) -> int {
        arbitrary()
    }

    /// Whether the rule can work the priority out within the cost type.
    open spec fn keyed(&self, cost: int, estimate: int) -> bool {
        arbitrary()
    }

    /// The priority as a value of the cost type, or `None` where the rule
    /// cannot work it out within the type.
    fn combine(&self, cost: F, estimate: F) -> (key: Option<F>)
        ensures
            key.is_some() == self.keyed(cost.value(), estimate.value()),
            key matches Some(k) ==> k.value() == self.priority(cost.value(), estimate.value()),
    ;
}

/// Plain A*: cost plus estimate.
pub struct Plain;

impl<F: Cost> Weighting<F> for Plain {
    open spec fn priority(&self, cost: int, estimate: int) -> int {
        cost + estimate
    }

    open spec fn keyed(&self, cost: int, estimate: int) -> bool {
        F::representable(cost + estimate)
    }

    fn combine(&self, cost: F, estimate: F) -> (key: Option<F>) {
        cost.checked_sum(estimate)
    }
}

/// Weighted A* with a fixed weight: cost plus `weight` times the estimate.
pub struct StaticWeight {
    pub weight: u32,
}

impl<F: Cost> Weighting<F> for StaticWeight {
    open spec fn priority(&self, cost: int, estimate: int) -> int {
        cost + estimate * self.weight
    }

    open spec fn keyed(&self, cost: int, estimate: int) -> bool {
        F::representable(estimate * self.weight) && F::representable(cost + estimate * self.weight)
    }

    fn combine(&self, cost: F, estimate: F) -> (key: Option<F>) {
        match estimate.checked_times(self.weight) {
            Some(inflated) => cost.checked_sum(inflated),
            None => None,
        }
    }
}

} // verus!
