//! Properties: the values that the rules of a style sheet declare, and what
//! is kept of them once they are parsed.

pub mod cache_state;
pub mod colors;
pub mod definition;
pub mod impls;
pub mod property_meta;
pub mod property_token;
pub mod property_values;
pub mod selected_entities;
pub mod stylesheet_state;
pub mod text;

pub use cache_state::CacheState;
pub use colors::Color;
pub use definition::Property;
pub use impls::{
    BackgroundColorProperty, BorderColorProperty, BorderRadiusProperty, ImagePathProperty,
};
pub use property_meta::{apply_system, Application, PropertyMeta};
pub use property_token::PropertyToken;
pub use property_values::{BorderRadius, OverflowAxis, PropertyValues, UiRect, Val};
pub use selected_entities::SelectedEntities;
pub use text::{
    FontColorProperty, FontProperty, FontSizeProperty, JustifyText, TextAlignProperty,
    TextContentProperty,
};
pub use stylesheet_state::{
    ComputedStyle, StyleSheetState, StyleSheetStateBuilder, StyleSource,
};
