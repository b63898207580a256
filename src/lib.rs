//! A SOCKS5 proxy core: the wire codec, an HTTP message-boundary detector,
//! the per-connection handshake state machine and the bookkeeping of the
//! readiness-driven event loop.
pub mod address;
mod bytes;
pub mod connections;
pub mod http;
pub mod packet;
pub mod server;
pub mod tokens;
