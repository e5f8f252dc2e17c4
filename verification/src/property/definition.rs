use vstd::prelude::*;

use super::property_token::PropertyTokenModel;
use super::property_values::PropertyValues;
use crate::error::BevyCssError;

verus! {

/// Determines how a property of a style sheet becomes a value that the host
/// can apply.
///
/// A property has a name, under which the rules of a style sheet declare it,
/// and parses the values of a declaration into a value of its own kind. That
/// value is kept, so that the values of one rule of one sheet are parsed only
/// once, however many entities the rule selects. Applying the value to the
/// components of an entity is the part of the host.
pub trait Property: Sized {
    /// The value that the property keeps of a declaration.
    type Cache;

    /// The name of the property. A property that does not say what its name
    /// is has the name that `name` gives.
    open spec fn property_name() -> Seq<char> {
        arbitrary()
    }

    /// Whether `result` is what parsing `values` gives. A property that does
    /// not say what it parses may give any result.
    open spec fn parses(values: Seq<PropertyTokenModel>, result: Result<Self::Cache, BevyCssError>) -> bool {
        true
    }

    /// Indicates which property name should be matched for. It must be the
    /// name under which the rules of a style sheet declare the property.
    ///
    /// For compliance, use always `lower-case` and `kebab-case` names.
    fn name() -> (name: &'static str)
        ensures
            name@ == Self::property_name(),
    ;

    /// Parses the values of a declaration into the value to be reused across
    /// multiple entities.
    ///
    /// This function is called only once, on the first time a matching
    /// property is found while applying a style rule. If an error is returned,
    /// it is also kept so that no more attempts are made.
    fn parse(values: &PropertyValues) -> (result: Result<Self::Cache, BevyCssError>)
        ensures
            Self::parses(values@, result),
    ;
}

} // verus!
