//! The instance's network interface on its host.

pub mod tun_desktop;
