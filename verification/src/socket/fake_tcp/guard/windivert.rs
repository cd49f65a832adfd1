//! Drops the resets that the kernel sends on taken-over connections, with WinDivert.
//!
//! A diverting handle takes matching packets out of the stack; never putting them back is
//! what drops them.

use crate::display;
use crate::display::{append_decimal, append_ip};
use crate::net;
use crate::net::{IpAddr, SocketAddr};
use vstd::prelude::*;
use vstd::string::*;

verus! {

/// The two addresses are not of one family.
#[derive(Debug, Clone, Copy, PartialEq, Eq, Structural)]
pub struct FamilyMismatch;

impl FamilyMismatch {
    /// What to report.
    pub fn message(&self) -> (r: &'static str)
        ensures
            r@ == "src/dst addr family mismatch"@,
    {
        "src/dst addr family mismatch"
    }
}

/// What the filter language calls the protocol of an address.
pub open spec fn protocol(ip: IpAddr) -> Seq<char> {
    match ip {
        IpAddr::V4(_) => "ip"@,
        IpAddr::V6(_) => "ipv6"@,
    }
}

/// The filter for resets that leave from `local` to `remote`.
pub open spec fn rst_filter_text(local: SocketAddr, remote: SocketAddr) -> Seq<char> {
    "outbound and tcp.Rst and "@ + protocol(local.ip) + ".SrcAddr == "@ + display::ip_text(local.ip)
        + " and tcp.SrcPort == "@ + display::decimal(local.port as int) + " and "@ + protocol(
        remote.ip,
    ) + ".DstAddr == "@ + display::ip_text(remote.ip) + " and tcp.DstPort == "@ + display::decimal(
        remote.port as int,
    )
}

fn protocol_name(ip: IpAddr) -> (r: &'static str)
    ensures
        r@ == protocol(ip),
{
    match ip {
        IpAddr::V4(_) => "ip",
        IpAddr::V6(_) => "ipv6",
    }
}

/// Builds the filter for resets that leave from `local_addr` to `remote_addr`.
pub fn build_rst_filter(local_addr: SocketAddr, remote_addr: SocketAddr) -> (r: Result<
    String,
    FamilyMismatch,
>)
    ensures
        r is Ok == net::same_family(local_addr, remote_addr),
        r matches Ok(filter) ==> filter@ == rst_filter_text(local_addr, remote_addr),
{
    if local_addr.is_ipv4() != remote_addr.is_ipv4() {
        return Err(FamilyMismatch);
    }
    let mut out = String::new();
    out.append("outbound and tcp.Rst and ");
    out.append(protocol_name(local_addr.ip));
    out.append(".SrcAddr == ");
    append_ip(&mut out, local_addr.ip);
    out.append(" and tcp.SrcPort == ");
    append_decimal(&mut out, local_addr.port as u64);
    out.append(" and ");
    out.append(protocol_name(remote_addr.ip));
    out.append(".DstAddr == ");
    append_ip(&mut out, remote_addr.ip);
    out.append(" and tcp.DstPort == ");
    append_decimal(&mut out, remote_addr.port as u64);
    assert(out@ =~= rst_filter_text(local_addr, remote_addr));
    Ok(out)
}

} // verus!
