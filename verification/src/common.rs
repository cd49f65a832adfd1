//! Building blocks shared by the tunnels and the peers.

pub mod ifcfg;
pub mod replay_window;
