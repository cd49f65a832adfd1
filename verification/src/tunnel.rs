//! Tunnels: packet framing, padding and protocol camouflage.

pub mod disguise_protocol;
pub mod fake_tcp;
pub mod fakehttp;
pub mod http_upgrade;
pub mod packet_def;
pub mod padding;
pub mod protocol;
