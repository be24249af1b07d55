//! A minimal HTTP/1.1 message engine: a request parser from raw bytes and a
//! response serializer to wire-format bytes, over a shared message model.
//!
//! The parser is a complete-buffer function: it never consults
//! Content-Length, so a body that the transport delivers over several reads
//! is cut short unless the caller gathers the whole message first.
pub mod headers;
pub mod method;
pub mod request;
pub mod response;
pub mod text;
