//! Settings content: player roles, server access control, networking ports and
//! display settings.

pub mod access;
pub mod graphics;
pub mod networking;
pub mod roles;
