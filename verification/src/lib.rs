//! Monami: a small monitoring service in which clients report the output of a
//! shell command to a server over encrypted datagrams, and the server keeps a
//! registry of the nodes that reported recently.

pub mod utils;
pub mod shared;
pub mod server;
pub mod client;
