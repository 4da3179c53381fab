//! A minimal HTTP/1.1 origin server core: request parsing, response
//! formatting, routing decisions and the per-connection state machine.

pub mod error;
pub mod headers;
pub mod laws;
pub mod request;
pub mod response;
pub mod router;
pub mod connection;
pub mod text;
pub mod util;
