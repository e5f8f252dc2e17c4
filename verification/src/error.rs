use vstd::prelude::*;

verus! {

/// Errors which can happen while a style sheet rule is parsed into a
/// selector or its values into a property.
#[derive(Debug, Clone, PartialEq, Eq)]
pub enum BevyCssError {
    /// An unsupported selector was found on a style sheet rule.
    UnsupportedSelector,
    /// An unsupported property was found on a style sheet rule.
    UnsupportedProperty(String),
    /// An invalid property value was found on a style sheet rule.
    InvalidPropertyValue(String),
    /// An invalid selector was found on a style sheet rule.
    InvalidSelector,
    /// An unexpected token was found on a style sheet rule.
    UnexpectedToken(String),
}

/// What a [`BevyCssError`] holds, with its texts as sequences of characters.
pub enum ErrorModel {
    UnsupportedSelector,
    UnsupportedProperty(Seq<char>),
    InvalidPropertyValue(Seq<char>),
    InvalidSelector,
    UnexpectedToken(Seq<char>),
}

impl View for BevyCssError {
    type V = ErrorModel;

    open spec fn view(&self) -> ErrorModel {
        match self {
            BevyCssError::UnsupportedSelector => ErrorModel::UnsupportedSelector,
            BevyCssError::UnsupportedProperty(p) => ErrorModel::UnsupportedProperty(p@),
            BevyCssError::InvalidPropertyValue(v) => ErrorModel::InvalidPropertyValue(v@),
            BevyCssError::InvalidSelector => ErrorModel::InvalidSelector,
            BevyCssError::UnexpectedToken(t) => ErrorModel::UnexpectedToken(t@),
        }
    }
}

impl ErrorModel {
    /// The line a reader of a log sees for this error.
    pub open spec fn message(self) -> Seq<char> {
        match self {
            ErrorModel::UnsupportedSelector => "Unsupported selector"@,
            ErrorModel::UnsupportedProperty(p) => "Unsupported property: "@ + p,
            ErrorModel::InvalidPropertyValue(v) => "Invalid property value: "@ + v,
            ErrorModel::InvalidSelector => "Invalid selector"@,
            ErrorModel::UnexpectedToken(t) => "Unexpected token: "@ + t,
        }
    }
}

impl BevyCssError {
    /// The error as a line of text.
    pub fn message(&self) -> (text: String)
        ensures
            text@ == self@.message(),
    {
        match self {
            BevyCssError::UnsupportedSelector => String::from_str("Unsupported selector"),
            BevyCssError::UnsupportedProperty(p) => String::from_str("Unsupported property: ").concat(
                p.as_str(),
            ),
            BevyCssError::InvalidPropertyValue(v) => String::from_str(
                "Invalid property value: ",
            ).concat(v.as_str()),
            BevyCssError::InvalidSelector => String::from_str("Invalid selector"),
            BevyCssError::UnexpectedToken(t) => String::from_str("Unexpected token: ").concat(
                t.as_str(),
            ),
        }
    }

    /// A copy of the error.
    pub fn duplicate(&self) -> (copy: BevyCssError)
        ensures
            copy@ == self@,
    {
        match self {
            BevyCssError::UnsupportedSelector => BevyCssError::UnsupportedSelector,
            BevyCssError::UnsupportedProperty(p) => BevyCssError::UnsupportedProperty(p.clone()),
            BevyCssError::InvalidPropertyValue(v) => BevyCssError::InvalidPropertyValue(v.clone()),
            BevyCssError::InvalidSelector => BevyCssError::InvalidSelector,
            BevyCssError::UnexpectedToken(t) => BevyCssError::UnexpectedToken(t.clone()),
        }
    }
}

} // verus!
