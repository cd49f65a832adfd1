//! Configuring network interfaces.

pub mod netlink;
