//! Message heads: versions, header fields, framing, requests and responses.
pub mod framing;
pub mod head;
pub mod header;
pub mod message;
pub mod raw;
pub mod span;
pub mod version;
