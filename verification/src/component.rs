//! What the host attaches to an entity for the sake of its style.

pub mod class;
pub mod style_sheet;

pub use class::Class;
pub use style_sheet::StyleSheet;
