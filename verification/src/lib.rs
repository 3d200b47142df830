//! An HTTP/1.1 engine: parsing and construction of request/response
//! messages over byte buffers, transfer framing (content-length,
//! chunked), content-coding pipelines (gzip/deflate/brotli), URI
//! resolution, and the redirect and keep-alive decisions of the
//! connection loop.
//!
//! All wire text is handled as bytes (`Vec<u8>`); parsing works over a
//! buffer and a cursor position and reports how many bytes it
//! consumed, so an embedding application can feed a stream in and
//! retry on incomplete input.
pub mod bytes;
pub mod tokens;
pub mod wire;
pub mod uri;
pub mod payload;
pub mod message;
pub mod http;
pub mod laws;
