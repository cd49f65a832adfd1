//! What the operations of the library are for, stated over bytes, numbers and events.

pub mod bytes;
pub mod connect;
pub mod cost;
pub mod disguise;
pub mod display;
pub mod endpoint;
pub mod exit_node;
pub mod frame;
pub mod guards;
pub mod handshake;
pub mod interface;
pub mod netlink;
pub mod packet;
pub mod replay;
pub mod routes;
pub mod segment;
pub mod socket;
pub mod stream;
pub mod tunnel_socket;
