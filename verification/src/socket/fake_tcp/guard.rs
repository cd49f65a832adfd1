//! Keeps the kernel quiet on the connections that were taken over from it.
//!
//! Each guard drops what the kernel still sends on one connection, at the packet filter.
//! Guards are best effort: one that cannot be installed costs throughput, never
//! correctness, so making one never fails the connection.

pub mod nft;
pub mod noop;
pub mod pf;
pub mod windivert;
