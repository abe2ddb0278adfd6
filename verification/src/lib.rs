//! The logic of an HTTP/1.x reverse proxy: message heads, body framing, and
//! the state machines that move bodies between connections.
pub mod backend;
pub mod body;
pub mod frontend;
pub mod http_message;
pub mod io_buffer;
pub mod octets;
pub mod parse;
pub mod pool;
pub mod session;
pub mod text;
pub mod transport;
