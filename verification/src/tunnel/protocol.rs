//! Protocols on top of connected sockets.

pub mod adapters;
