pub mod auth;
pub mod buffers;
pub mod client;
pub mod codec;
pub mod config;
pub mod gossip;
pub mod hello;
pub mod host;
pub mod ident;
pub mod registry;
pub mod session;
pub mod streams;
