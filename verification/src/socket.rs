//! Sockets that the tunnels run over.

pub mod fake_tcp;
