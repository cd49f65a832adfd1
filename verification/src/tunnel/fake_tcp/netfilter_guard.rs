//! Drops what the kernel sends on the tunnel's connections, with nftables.
//!
//! The table is the one that [`crate::socket::fake_tcp::guard::nft`] sets up.

use crate::net::SocketAddr;
use crate::socket::fake_tcp::guard::nft;
use crate::socket::fake_tcp::guard::nft::{element, element_command};
use vstd::prelude::*;
use vstd::string::*;

verus! {

/// The element for a connection and the set of the local address's family.
pub fn format_element(local: &SocketAddr, remote: &SocketAddr) -> (r: (String, &'static str))
    ensures
        r.0@ == nft::element_text(*local, *remote),
        r.1@ == if local.ip is V4 {
            nft::set_v4()
        } else {
            nft::set_v6()
        },
{
    let set_name: &'static str = if local.is_ipv4() {
        "conns4"
    } else {
        "conns6"
    };
    (element(local, remote), set_name)
}

/// A connection, and whether it is in the table.
#[derive(Debug, Clone, Copy, PartialEq, Eq, Structural)]
pub struct NftGuard {
    pub local_addr: SocketAddr,
    pub remote_addr: SocketAddr,
    pub active: bool,
}

impl NftGuard {
    /// Makes a guard and says which command installs it: none where the table could not
    /// be set up.
    pub fn new(ready: bool, local_addr: SocketAddr, remote_addr: SocketAddr) -> (r: (
        Self,
        Option<String>,
    ))
        ensures
            r.0 == (NftGuard { local_addr, remote_addr, active: false }),
            r.1 is Some == ready,
            r.1 matches Some(c) ==> c@ == nft::guard_command("add"@, local_addr, remote_addr),
    {
        let guard = NftGuard { local_addr, remote_addr, active: false };
        if !ready {
            return (guard, None);
        }
        let (elem, set_name) = format_element(&local_addr, &remote_addr);
        (guard, Some(element_command("add", set_name, elem.as_str())))
    }

    /// The command that installs the guard succeeded or failed.
    pub fn on_installed(&mut self, ok: bool)
        ensures
            *final(self) == (NftGuard { active: ok, ..*old(self) }),
    {
        self.active = ok;
    }

    /// The command that withdraws the guard, if it was installed.
    pub fn withdrawal(&self) -> (r: Option<String>)
        ensures
            r is Some == self.active,
            r matches Some(c) ==> c@ == nft::guard_command(
                "delete"@,
                self.local_addr,
                self.remote_addr,
            ),
    {
        if !self.active {
            return None;
        }
        let (elem, set_name) = format_element(&self.local_addr, &self.remote_addr);
        Some(element_command("delete", set_name, elem.as_str()))
    }
}

} // verus!
