//! A tunnel whose packets look like the segments of a TCP connection.

pub mod disguise;
pub mod netfilter_guard;
pub mod pf_guard;
pub mod stack;
pub mod stream;
pub mod tls_disguise;
