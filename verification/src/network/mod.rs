//! Server and client session logic: authentication, access control, chat,
//! discovery and the session step machines.

pub mod crypto;
pub mod ids;
pub mod auth;
pub mod chat;
pub mod discovery;
pub mod session;
pub mod local_identity;
pub mod moderation;
pub mod target;
