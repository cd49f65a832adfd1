//! A datagram socket whose packets look like the segments of a TCP connection.

pub mod connect;
pub mod endpoint;
pub mod freeze;
pub mod guard;
pub mod ifnames;
pub mod packet;
pub mod stack;
pub mod tuples;
