use vstd::prelude::*;

verus! {

/// The phases of a frame, in the order in which the host runs them.
#[derive(Clone, Copy, Debug, PartialEq, Eq, Structural, Hash)]
pub enum BevyCssSet {
    /// Prepares the state that the properties read from: which style sheets
    /// apply to the changed entities, which entities their rules select, and
    /// which declaration wins for each property of each entity.
    Prepare,
    /// Every property applies its winning declarations.
    Apply,
    /// Clears the state of the frame.
    Cleanup,
}

impl BevyCssSet {
    /// The phase that follows this one in a frame, if one does.
    pub fn next(&self) -> (next: Option<BevyCssSet>)
        ensures
            next == match *self {
                BevyCssSet::Prepare => Some(BevyCssSet::Apply),
                BevyCssSet::Apply => Some(BevyCssSet::Cleanup),
                BevyCssSet::Cleanup => None::<BevyCssSet>,
            },
    {
        match self {
            BevyCssSet::Prepare => Some(BevyCssSet::Apply),
            BevyCssSet::Apply => Some(BevyCssSet::Cleanup),
            BevyCssSet::Cleanup => None,
        }
    }
}

} // verus!
