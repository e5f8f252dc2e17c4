//! From the entities of the host to the declarations that apply to them.

pub mod component_filter_registry;
pub mod descent;
pub mod entity_list;
pub mod graph;
pub mod prepare;
pub mod select;
pub mod sets;
pub mod style_tree;

pub use component_filter_registry::ComponentFilterRegistry;
pub use entity_list::{Entity, EntityList};
pub use graph::{EntityGraph, Interaction, SheetHandle, UiNode};
pub use style_tree::{StyleTree, StyleTreeNode};
pub use prepare::{clear_state, hot_reload_style_sheets, prepare, prepare_state};
pub use select::{get_entities_with, select_entities, select_entities_node};
