//! Message bodies: reading, writing and forwarding.
pub mod body_reader;
pub mod chunk_coding;
pub mod error;
pub mod forwarder;
pub mod parse_trailers;
pub mod peekable_reader;
pub mod reader;
pub mod writer;
