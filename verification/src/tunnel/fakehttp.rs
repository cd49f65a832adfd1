//! A tunnel over a TCP stream that looks like HTTPS or like a WebSocket.

pub mod handshake;
pub mod send_queue;
pub mod tls_stream;
pub mod ws_stream;
