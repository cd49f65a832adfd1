//! Decisions about the peers of the mesh.

pub mod encrypt;
pub mod exit_node_selector;
pub mod util;
