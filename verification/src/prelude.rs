//! The items that most users of the library need.

pub use crate::component::{Class, StyleSheet};
pub use crate::error::BevyCssError;
pub use crate::property::{Property, PropertyToken, PropertyValues};
pub use crate::selector::{Selector, SelectorElement};
pub use crate::stylesheet::{StyleRule, StyleSheetAsset};
