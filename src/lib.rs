//! A small real-time messaging relay: a directory of online users, the
//! routing of direct messages between them, and the per-connection protocol.

pub mod command;
pub mod connection;
pub mod cryption;
pub mod server;
pub mod session;
pub mod table;
