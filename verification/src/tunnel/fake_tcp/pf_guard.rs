//! Drops what the kernel sends on the tunnel's connections, with pf: each connection has
//! an anchor of its own.

use crate::display;
use crate::display::append_decimal;
use crate::net;
use crate::net::SocketAddr;
use crate::socket::fake_tcp::guard::pf;
use crate::socket::fake_tcp::guard::pf::rule_for;
use vstd::prelude::*;
use vstd::string::*;

verus! {

/// Whether pf is enabled, and the number of the next anchor.
#[derive(Debug, Clone, Copy, PartialEq, Eq, Structural)]
pub struct PfAnchors {
    pub enabled: bool,
    pub next_id: u64,
}

/// The anchor of a connection.
pub open spec fn anchor_text(id: u64) -> Seq<char> {
    "com.easytier.faketcp/"@ + display::decimal(id as int)
}

fn anchor_for(id: u64) -> (r: String)
    ensures
        r@ == anchor_text(id),
{
    let mut out = String::new();
    out.append("com.easytier.faketcp/");
    append_decimal(&mut out, id);
    assert(out@ =~= anchor_text(id));
    out
}

/// A connection's anchor, and whether its rule is loaded.
#[derive(Debug, Clone, PartialEq, Eq)]
pub struct PfGuard {
    pub anchor: String,
    pub active: bool,
}

impl PfAnchors {
    /// pf was not enabled yet, and no anchor was used.
    pub fn new() -> (r: Self)
        ensures
            r == (PfAnchors { enabled: false, next_id: 0 }),
    {
        PfAnchors { enabled: false, next_id: 0 }
    }

    /// Whether pf is to be enabled before a guard is made.
    pub fn needs_enabling(&self) -> (r: bool)
        ensures
            r == !self.enabled,
    {
        !self.enabled
    }

    /// Enabling pf succeeded or failed.
    pub fn on_enabled(&mut self, ok: bool)
        ensures
            *final(self) == (PfAnchors { enabled: ok, ..*old(self) }),
    {
        self.enabled = ok;
    }
}

impl PfGuard {
    /// Makes a guard and says which rule to load into its anchor: none while pf is not
    /// enabled, and none for addresses of two families. Each attempt while pf is enabled
    /// uses up a number.
    pub fn new(anchors: &mut PfAnchors, local_addr: SocketAddr, remote_addr: SocketAddr) -> (r: (
        Self,
        Option<String>,
    ))
        ensures
            final(anchors).enabled == old(anchors).enabled,
            final(anchors).next_id == if old(anchors).enabled {
                ((old(anchors).next_id + 1) % 0x1_0000_0000_0000_0000) as u64
            } else {
                old(anchors).next_id
            },
            !r.0.active,
            r.1 is Some == (old(anchors).enabled && net::same_family(local_addr, remote_addr)),
            match r.1 {
                Some(rule) => {
                    &&& rule@ == pf::rule_text(local_addr, remote_addr)
                    &&& r.0.anchor@ == anchor_text(old(anchors).next_id)
                },
                None => r.0.anchor@ == Seq::<char>::empty(),
            },
    {
        if !anchors.enabled {
            return (PfGuard { anchor: String::new(), active: false }, None);
        }
        let id: u64 = anchors.next_id;
        anchors.next_id = id.wrapping_add(1);
        match rule_for(&local_addr, &remote_addr) {
            Some(rule) => (PfGuard { anchor: anchor_for(id), active: false }, Some(rule)),
            None => (PfGuard { anchor: String::new(), active: false }, None),
        }
    }

    /// The rule was loaded or not.
    pub fn on_loaded(&mut self, ok: bool)
        ensures
            final(self).active == ok,
            final(self).anchor == old(self).anchor,
    {
        self.active = ok;
    }

    /// The anchor to flush when the guard is dropped: none if its rule was not loaded.
    pub fn withdrawal(&self) -> (r: Option<&String>)
        ensures
            r is Some == self.active,
            r matches Some(anchor) ==> anchor@ == self.anchor@,
    {
        if self.active {
            Some(&self.anchor)
        } else {
            None
        }
    }
}

} // verus!
