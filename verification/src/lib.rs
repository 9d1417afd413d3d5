//! Peer authentication, message framing and solver settings of a task server.

pub mod auth;
pub mod auth_laws;
pub mod buffer;
pub mod config;
pub mod config_laws;
pub mod error;
pub mod handshake;
pub mod handshake_laws;
pub mod messages;
pub mod process_laws;
pub mod processes;
pub mod stream;
pub mod text;
pub mod text_laws;
pub mod transfer;
pub mod transfer_laws;
