//! Facts about an instance that connectors ask for.

use vstd::prelude::*;
use vstd::string::*;

verus! {

/// The mark on the sockets of an instance, and its network namespace.
#[derive(Debug, Clone, PartialEq, Eq)]
pub struct SocketContext {
    pub socket_mark: Option<u32>,
    pub netns: Option<String>,
}

/// Answers what connectors ask about an instance.
pub struct NativeInstanceEnvironment {
    socket_context: SocketContext,
}

impl NativeInstanceEnvironment {
    /// The context of its sockets.
    pub closed spec fn context(self) -> SocketContext {
        self.socket_context
    }

    /// Sockets are marked only where the instance takes the default route over: the mark
    /// keeps what they send out of the tunnel.
    pub fn new(default_route: bool, route_mark: u32, netns: Option<String>) -> (r: Self)
        ensures
            r.context().socket_mark == if default_route {
                Some(route_mark)
            } else {
                None
            },
            r.context().netns == netns,
    {
        let socket_mark: Option<u32> = if default_route {
            Some(route_mark)
        } else {
            None
        };
        NativeInstanceEnvironment { socket_context: SocketContext { socket_mark, netns } }
    }

    /// The context of its sockets.
    pub fn socket_context(&self) -> (r: &SocketContext)
        ensures
            *r == self.context(),
    {
        &self.socket_context
    }

    /// Whether an address is local: the instance's own in the mesh, or one of the host.
    pub fn is_local_ip(&self, is_virtual: bool, is_host: bool) -> (r: bool)
        ensures
            r == (is_virtual || is_host),
    {
        is_virtual || is_host
    }
}

} // verus!
