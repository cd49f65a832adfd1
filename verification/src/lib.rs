//! Verified core of a mesh VPN's traffic camouflage and packet plumbing.

pub mod common;
pub mod display;
pub mod entropy;
pub mod instance;
pub mod laws;
pub mod locator;
pub mod net;
pub mod peers;
pub mod socket;
pub mod text;
pub mod tunnel;
pub mod wire;
