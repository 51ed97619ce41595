use vstd::prelude::*;

verus! {

/// The index of a milestone.
#[derive(Clone, Copy, Debug, PartialEq, Eq, Structural, Hash)]
pub struct MilestoneIndex(pub u32);

} // verus!
