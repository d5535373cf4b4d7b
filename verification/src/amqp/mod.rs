//! The AMQP 1.0 wire types and connection engine.

pub mod client;
pub mod composite;
pub mod connect;
pub mod encoding;
pub mod endpoint;
pub mod engine;
pub mod entries;
pub mod fault;
pub mod fields;
pub mod frame;
pub mod handshake;
pub mod laws;
pub mod link;
pub mod message;
pub mod promises;
pub mod requests;
pub mod session;
pub mod shape;
pub mod types;
pub mod value;
