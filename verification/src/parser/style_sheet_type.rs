use vstd::prelude::*;

verus! {

/// The languages in which a style sheet can be written.
#[derive(Debug, Copy, Clone, PartialEq, Eq, Structural)]
pub enum StyleSheetType {
    Css,
}

impl Default for StyleSheetType {
    fn default() -> (kind: StyleSheetType)
        ensures
            kind == StyleSheetType::Css,
    {
        StyleSheetType::Css
    }
}

} // verus!
