//! The server core of a file-sharing rendezvous on a local network: the
//! framed wire protocol, the registry of online users with their queues of
//! file offers, the commands that users run against it, and the decisions of
//! a session and of its file transfers. Sockets and files are left to the
//! caller, who hands this library plain values and runs what it decides.

pub mod codec_laws;
pub mod commands;
pub mod data;
pub mod laws;
pub mod protocol;
pub mod registry;
pub mod session;
pub mod text;
pub mod transfers;
