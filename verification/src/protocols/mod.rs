//! Messages exchanged between client and server, and chat text helpers.

pub mod auth;
pub mod chat;
