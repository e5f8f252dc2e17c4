use vstd::prelude::*;

verus! {

/// What is kept of a property of a rule, so that the values of one rule of
/// one sheet are parsed only once.
#[derive(Debug, Clone)]
pub enum CacheState<T> {
    /// There is nothing to parse: the rule does not declare the property.
    Unparsed,
    /// The values were parsed and are valid.
    Parsed(T),
    /// The values were parsed and are not valid.
    ParseError,
}

impl<T> Default for CacheState<T> {
    fn default() -> (state: CacheState<T>)
        ensures
            state is Unparsed,
    {
        CacheState::Unparsed
    }
}

} // verus!
