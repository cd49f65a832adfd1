//! For platforms without a packet filter that can be driven.

use crate::net::SocketAddr;
use vstd::prelude::*;

verus! {

/// Guards nothing.
pub struct Guard;

impl Guard {
    /// Makes the guard. Says whether to warn that nothing is guarded: once.
    pub fn new(_local_addr: SocketAddr, _remote_addr: SocketAddr, warned: &mut bool) -> (r: (
        Self,
        bool,
    ))
        ensures
            r.1 == !*old(warned),
            *final(warned),
    {
        let warn: bool = !*warned;
        *warned = true;
        (Guard, warn)
    }
}

} // verus!
