use vstd::prelude::*;

verus! {

/// The label of the schedule in which changed style sheets are applied anew.
#[derive(Debug, Clone, Copy, PartialEq, Eq, Structural, Hash)]
pub struct BevyCssHotReload;

} // verus!
