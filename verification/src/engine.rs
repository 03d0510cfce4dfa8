//! The engine: what it decides on the way from a command or a query to its
//! outcome.
pub mod codec;
pub mod command_laws;
pub mod commands;
pub mod interactions;
pub mod plugins;
pub mod queries;
pub mod session_laws;
pub mod sessions;
pub mod submissions;
