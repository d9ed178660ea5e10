use super::generic_movement::GenericMovementInfo;
use vstd::prelude::*;

verus! {

/// One step along an axis.
pub struct CardinalWalk {
    pub info: GenericMovementInfo,
}

} // verus!
