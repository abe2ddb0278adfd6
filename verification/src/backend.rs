//! The side of the proxy that faces the servers.
pub mod error;
pub mod reader;
pub mod writer;
