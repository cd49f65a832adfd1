//! What an instance changes about its host.

pub mod default_route;
pub mod default_route_macos;
pub mod host;
pub mod runtime_host;
