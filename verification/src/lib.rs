//! Core logic of the Chicken game toolkit: integer geometry, settings paths and
//! deltas, surgical TOML edits, server access control and the session state machines.

pub mod content;
pub mod edit;
pub mod edit_law;
pub mod exitcodes;
pub mod identity;
pub mod network;
pub mod polygon;
pub mod protocols;
pub mod settings;
pub mod text;
