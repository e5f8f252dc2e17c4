//! Style sheets and their rules.

pub mod style_rule;
pub mod style_sheet_asset;
pub mod style_sheets;

pub use style_rule::StyleRule;
pub use style_sheet_asset::StyleSheetAsset;
pub use style_sheets::StyleSheets;
