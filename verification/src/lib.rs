//! Cascading style sheets for the UI nodes of an entity-component system.
//!
//! A style sheet is parsed into rules, each a selector with its properties.
//! Selectors are matched against a snapshot of the host's entity graph, the
//! matches are cascaded by specificity into one winning declaration per
//! property and entity, and each registered property turns its winning
//! declaration into a typed value that it parses once and then keeps.

pub mod component;
pub mod error;
pub mod parser;
pub mod prelude;
pub mod property;
pub mod selector;
pub mod seqs;
pub mod stylesheet;
pub mod system;
pub mod text;
