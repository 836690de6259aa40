//! Settings: formats, validated paths with placeholders, delta storage and events.

pub mod attribute;
pub mod error;
pub mod events;
pub mod format;
pub mod delta;
pub mod delta_law;
pub mod json;
pub mod loader;
pub mod path;
