use vstd::prelude::*;

verus! {

/// What every kind of movement records about itself.
pub struct GenericMovementInfo {
    pub is_parkour: bool,
}

} // verus!
