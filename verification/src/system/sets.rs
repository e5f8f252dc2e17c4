//! The labels under which the host schedules the work of the library.

pub mod bevy_css_hot_reload;
pub mod bevy_css_set;

pub use bevy_css_hot_reload::BevyCssHotReload;
pub use bevy_css_set::BevyCssSet;
