//! From the text of a style sheet to its rules.

pub mod blocks;
pub mod joined;
pub mod property_parser;
pub mod runs;
pub mod style_sheet_parser;
pub mod style_sheet_type;
pub mod tokenizer;

pub use property_parser::PropertyParser;
pub use style_sheet_parser::{format_error, RuleError, RuleErrorKind, StyleSheetParser};
pub use style_sheet_type::StyleSheetType;
