//! The side of the proxy that faces the clients.
pub mod error;
pub mod reader;
pub mod writer;
