//! A LAN chat service: the wire codec, the client registry and broadcast
//! engine of the server, and the decisions of the server and client sessions.
pub mod message;
pub mod wire;
pub mod registry;
pub mod delivery;
pub mod server;
pub mod client;
pub mod netif;
pub mod emoji;
pub mod input;
pub mod transcript;
