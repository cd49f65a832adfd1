//! Decisions about addresses, routes and neighbours, which are read from the kernel and
//! changed through netlink.

use crate::net::{IpAddr, Ipv4Addr, Ipv6Addr};
use crate::text::same;
use crate::wire::{append, append_zeros, copy_range};
use vstd::prelude::*;
use vstd::string::*;

verus! {

/// Why an operation on an interface failed.
#[derive(Debug, Clone, Copy, PartialEq, Eq, Structural)]
pub enum Error {
    /// The interface does not have the address.
    NotFound,
    /// The kernel refused, with this error number.
    Os(i32),
    /// A message could not be read.
    Malformed,
    /// The tables changed while they were read.
    Interrupted,
    /// A message that answers no question.
    Unexpected,
    /// There is no route to the destination.
    NoRoute,
}

// --- Messages ---

/// A message that carries an error number, or zero for success.
pub const NLMSG_ERROR: u16 = 2;

/// The end of a list of messages.
pub const NLMSG_DONE: u16 = 3;

/// The list changed while it was read.
pub const NLM_F_DUMP_INTR: u16 = 16;

/// The head of a message. The error number is there in error messages, if it could be
/// read.
#[derive(Debug, Clone, Copy, PartialEq, Eq, Structural)]
pub struct Frame {
    pub message_type: u16,
    pub flags: u16,
    pub error_code: Option<i32>,
}

/// No error number is the one that has no absolute value.
pub open spec fn codes_have_magnitude(frames: Seq<Option<Frame>>) -> bool {
    forall|i: int|
        0 <= i < frames.len() && frames[i] is Some ==> (#[trigger] frames[i])->0.error_code != Some(
            i32::MIN,
        )
}

/// The size of an error number.
pub open spec fn magnitude(code: i32) -> i32 {
    if code < 0 {
        (0 - code) as i32
    } else {
        code
    }
}

/// What a frame says to someone who waits for an acknowledgement; nothing if it is about
/// something else.
pub open spec fn ack_in(frame: Option<Frame>) -> Option<Result<(), Error>> {
    match frame {
        None => Some(Err(Error::Malformed)),
        Some(f) => if f.message_type == 2 {
            match f.error_code {
                None => Some(Err(Error::Malformed)),
                Some(code) => if code == 0 {
                    Some(Ok(()))
                } else {
                    Some(Err(Error::Os(magnitude(code))))
                },
            }
        } else if f.message_type == 3 {
            Some(Ok(()))
        } else {
            None
        },
    }
}

/// What the first frame says that says anything.
pub open spec fn ack_of(frames: Seq<Option<Frame>>) -> Option<Result<(), Error>>
    decreases frames.len(),
{
    if frames.len() == 0 {
        None
    } else {
        match ack_in(frames[0]) {
            Some(r) => Some(r),
            None => ack_of(frames.drop_first()),
        }
    }
}

fn size_of_code(code: i32) -> (r: i32)
    requires
        code != i32::MIN,
    ensures
        r == magnitude(code),
{
    if code < 0 {
        0 - code
    } else {
        code
    }
}

/// Looks for an acknowledgement among the frames of a response. `None`: wait for more.
pub fn find_ack(frames: &Vec<Option<Frame>>) -> (r: Option<Result<(), Error>>)
    requires
        codes_have_magnitude(frames@),
    ensures
        r == ack_of(frames@),
{
    let mut i: usize = 0;
    assert(frames@.skip(0) =~= frames@);
    while i < frames.len()
        invariant
            i <= frames@.len(),
            codes_have_magnitude(frames@),
            ack_of(frames@) == ack_of(frames@.skip(i as int)),
        decreases frames@.len() - i,
    {
        assert(frames@.skip(i as int)[0] == frames@[i as int]);
        assert(frames@.skip(i as int).drop_first() =~= frames@.skip(i + 1));
        match frames[i] {
            None => return Some(Err(Error::Malformed)),
            Some(f) => {
                if f.message_type == NLMSG_ERROR {
                    return match f.error_code {
                        None => Some(Err(Error::Malformed)),
                        Some(code) => if code == 0 {
                            Some(Ok(()))
                        } else {
                            Some(Err(Error::Os(size_of_code(code))))
                        },
                    };
                }
                if f.message_type == NLMSG_DONE {
                    return Some(Ok(()));
                }
            },
        }
        i += 1;
    }
    assert(frames@.skip(i as int).len() == 0);
    None
}

/// How reading a list stands after some frames.
#[derive(Debug, Clone, Copy, PartialEq, Eq, Structural)]
pub enum DumpOutcome {
    /// More frames follow.
    More,
    /// The list is complete.
    Complete,
    Failed(Error),
}

/// The flag that says that the list changed is set.
pub open spec fn interrupted(flags: u16) -> bool {
    flags / 16 % 2 == 1
}

/// How a frame ends the list, if it does.
pub open spec fn dump_end(frame: Option<Frame>) -> Option<DumpOutcome> {
    match frame {
        None => Some(DumpOutcome::Failed(Error::Malformed)),
        Some(f) => if interrupted(f.flags) {
            Some(DumpOutcome::Failed(Error::Interrupted))
        } else if f.message_type == 3 {
            Some(DumpOutcome::Complete)
        } else if f.message_type == 2 {
            match f.error_code {
                None => Some(DumpOutcome::Failed(Error::Malformed)),
                Some(code) => if code == 0 {
                    None
                } else {
                    Some(DumpOutcome::Failed(Error::Os(magnitude(code))))
                },
            }
        } else {
            None
        },
    }
}

/// How many frames come before the end of the list.
pub open spec fn dump_len(frames: Seq<Option<Frame>>) -> int
    decreases frames.len(),
{
    if frames.len() == 0 || dump_end(frames[0]) is Some {
        0
    } else {
        1 + dump_len(frames.drop_first())
    }
}

/// The places of the messages of the wanted type among the first `n` frames.
pub open spec fn wanted(frames: Seq<Option<Frame>>, message_type: u16, n: int) -> Seq<usize>
    decreases n,
{
    if n <= 0 {
        Seq::empty()
    } else {
        let before = wanted(frames, message_type, n - 1);
        match frames[n - 1] {
            Some(f) => if f.message_type != 2 && f.message_type == message_type {
                before.push((n - 1) as usize)
            } else {
                before
            },
            None => before,
        }
    }
}

proof fn lemma_dump_len(frames: Seq<Option<Frame>>, n: int)
    requires
        0 <= n <= frames.len(),
        forall|i: int| 0 <= i < n ==> dump_end(#[trigger] frames[i]) is None,
        n < frames.len() ==> dump_end(frames[n]) is Some,
    ensures
        dump_len(frames) == n,
    decreases n,
{
    if n > 0 {
        assert(dump_end(frames[0]) is None);
        let rest = frames.drop_first();
        assert forall|i: int| 0 <= i < n - 1 implies dump_end(#[trigger] rest[i]) is None by {
            assert(rest[i] == frames[i + 1]);
        }
        if n < frames.len() {
            assert(rest[n - 1] == frames[n]);
        }
        lemma_dump_len(rest, n - 1);
    }
}

/// Reads the frames of a response to a list request: which of them hold messages of the
/// wanted type, and how the list stands. Nothing after the end of the list counts.
pub fn read_dump(frames: &Vec<Option<Frame>>, message_type: u16) -> (r: (Vec<usize>, DumpOutcome))
    requires
        codes_have_magnitude(frames@),
    ensures
        r.0@ == wanted(frames@, message_type, dump_len(frames@)),
        r.1 == if dump_len(frames@) == frames@.len() {
            DumpOutcome::More
        } else {
            dump_end(frames@[dump_len(frames@)])->0
        },
{
    let mut kept: Vec<usize> = Vec::new();
    let mut i: usize = 0;
    while i < frames.len()
        invariant
            i <= frames@.len(),
            codes_have_magnitude(frames@),
            forall|k: int| 0 <= k < i ==> dump_end(#[trigger] frames@[k]) is None,
            kept@ == wanted(frames@, message_type, i as int),
        decreases frames@.len() - i,
    {
        let end: Option<DumpOutcome> = match frames[i] {
            None => Some(DumpOutcome::Failed(Error::Malformed)),
            Some(f) => {
                if f.flags / NLM_F_DUMP_INTR % 2 == 1 {
                    Some(DumpOutcome::Failed(Error::Interrupted))
                } else if f.message_type == NLMSG_DONE {
                    Some(DumpOutcome::Complete)
                } else if f.message_type == NLMSG_ERROR {
                    match f.error_code {
                        None => Some(DumpOutcome::Failed(Error::Malformed)),
                        Some(code) => if code == 0 {
                            None
                        } else {
                            Some(DumpOutcome::Failed(Error::Os(size_of_code(code))))
                        },
                    }
                } else {
                    if f.message_type == message_type {
                        kept.push(i);
                    }
                    None
                }
            },
        };
        if let Some(outcome) = end {
            proof {
                lemma_dump_len(frames@, i as int);
            }
            return (kept, outcome);
        }
        i += 1;
    }
    proof {
        lemma_dump_len(frames@, i as int);
    }
    (kept, DumpOutcome::More)
}

// --- Addresses ---

/// An address and the length of its network's prefix.
#[derive(Debug, Clone, Copy, PartialEq, Eq, Structural)]
pub struct IpInet {
    pub address: IpAddr,
    pub network_length: u8,
}

/// An address of an interface, as the system lists it.
#[derive(Debug, Clone)]
pub struct InterfaceAddress {
    pub interface_name: String,
    pub address: Option<IpAddr>,
    pub netmask: Option<IpAddr>,
}

/// Two to the power of `n`.
pub open spec fn power(n: nat) -> int
    decreases n,
{
    if n == 0 {
        1
    } else {
        2 * power((n - 1) as nat)
    }
}

/// The mask of `bits` bits whose first `prefix` bits are set.
pub open spec fn mask_value(bits: nat, prefix: nat) -> int {
    power(bits) - power((bits - prefix) as nat)
}

/// `mask` is that of a prefix.
pub open spec fn mask_has_prefix(mask: IpAddr, prefix: u8) -> bool {
    match mask {
        IpAddr::V4(m) => prefix <= 32 && m.bits == mask_value(32, prefix as nat),
        IpAddr::V6(m) => {
            ||| prefix <= 64 && m.high == mask_value(64, prefix as nat) && m.low == 0
            ||| 64 < prefix <= 128 && m.high == u64::MAX && m.low == mask_value(
                64,
                (prefix - 64) as nat,
            )
        },
    }
}

/// `mask` is that of some prefix.
pub open spec fn is_mask(mask: IpAddr) -> bool {
    exists|p: u8| mask_has_prefix(mask, p)
}

proof fn lemma_powers()
    ensures
        power(32) == 0x1_0000_0000,
        power(64) == 0x1_0000_0000_0000_0000,
{
    reveal_with_fuel(power, 33);
    assert(power(32) == 0x1_0000_0000);
    assert(power(64) == 0x1_0000_0000 * power(32)) by {
        reveal_with_fuel(power, 33);
    }
}

proof fn lemma_power_positive(n: nat)
    ensures
        power(n) >= 1,
    decreases n,
{
    if n > 0 {
        lemma_power_positive((n - 1) as nat);
    }
}

proof fn lemma_power_grows(a: nat, b: nat)
    requires
        a < b,
    ensures
        power(a) < power(b),
    decreases b,
{
    lemma_power_positive(a);
    if a < b - 1 {
        lemma_power_grows(a, (b - 1) as nat);
    }
}

/// The prefix whose mask `bits` bits of `mask` are, if they are one's.
fn prefix_of_bits(mask: u64, bits: u8) -> (r: Option<u8>)
    requires
        bits == 32 || bits == 64,
        mask < power(bits as nat),
    ensures
        match r {
            Some(p) => p <= bits && mask == mask_value(bits as nat, p as nat),
            None => forall|p: u8| p <= bits ==> mask != #[trigger] mask_value(bits as nat, p as nat),
        },
{
    proof {
        lemma_powers();
    }
    let top: u128 = if bits == 32 {
        0x1_0000_0000
    } else {
        0x1_0000_0000_0000_0000
    };
    let mut prefix: u8 = bits;
    let mut size: u128 = 1;
    loop
        invariant
            prefix <= bits <= 64,
            top == power(bits as nat),
            top <= 0x1_0000_0000_0000_0000,
            size == power((bits - prefix) as nat),
            size <= top,
            forall|p: u8|
                prefix < p <= bits ==> mask != #[trigger] mask_value(bits as nat, p as nat),
        decreases prefix,
    {
        if mask as u128 == top - size {
            return Some(prefix);
        }
        if prefix == 0 {
            return None;
        }
        proof {
            lemma_power_grows((bits - prefix) as nat, (bits - prefix + 1) as nat);
            if prefix > 1 {
                lemma_power_grows((bits - prefix + 1) as nat, bits as nat);
            }
        }
        prefix = prefix - 1;
        size = size * 2;
    }
}

/// The length of the prefix that a mask selects, if it is a mask.
pub fn mask_to_prefix(mask: IpAddr) -> (r: Option<u8>)
    ensures
        match r {
            Some(p) => mask_has_prefix(mask, p),
            None => forall|p: u8| !mask_has_prefix(mask, p),
        },
        r is Some == is_mask(mask),
{
    proof {
        lemma_powers();
    }
    match mask {
        IpAddr::V4(m) => {
            let r = prefix_of_bits(m.bits as u64, 32);
            assert(r is None ==> forall|p: u8| !mask_has_prefix(mask, p)) by {
                if r is None {
                    assert forall|p: u8| !mask_has_prefix(mask, p) by {
                        let v = mask_value(32, p as nat);
                    }
                }
            }
            r
        },
        IpAddr::V6(m) => {
            let high = prefix_of_bits(m.high, 64);
            let low = prefix_of_bits(m.low, 64);
            let r = match (high, low) {
                (Some(h), Some(l)) => {
                    if l == 0 {
                        Some(h)
                    } else if h == 64 {
                        Some((64 + l) as u8)
                    } else {
                        None
                    }
                },
                _ => None,
            };
            proof {
                lemma_v6_prefix(m, high, low);
            }
            r
        },
    }
}

proof fn lemma_v6_prefix(m: Ipv6Addr, high: Option<u8>, low: Option<u8>)
    requires
        match high {
            Some(p) => p <= 64 && m.high == mask_value(64, p as nat),
            None => forall|p: u8| p <= 64 ==> m.high != #[trigger] mask_value(64, p as nat),
        },
        match low {
            Some(p) => p <= 64 && m.low == mask_value(64, p as nat),
            None => forall|p: u8| p <= 64 ==> m.low != #[trigger] mask_value(64, p as nat),
        },
    ensures
        low == Some(0u8) && high is Some ==> mask_has_prefix(IpAddr::V6(m), high->0),
        low is Some && low->0 > 0 && high == Some(64u8) ==> mask_has_prefix(
            IpAddr::V6(m),
            (64 + low->0) as u8,
        ),
        low is None || high is None || (low->0 > 0 && high->0 != 64) ==> forall|p: u8|
            !mask_has_prefix(IpAddr::V6(m), p),
{
    lemma_powers();
    assert(mask_value(64, 0u8 as nat) == 0);
    assert(power(0) == 1);
    assert(mask_value(64, 64u8 as nat) == u64::MAX);
    if low is Some && low->0 > 0 {
        lemma_power_grows((64 - low->0) as nat, 64);
        assert(m.low > 0);
    }
    if high is Some && high->0 != 64 {
        lemma_power_grows(0, (64 - high->0) as nat);
        assert(m.high < u64::MAX);
    }
    assert forall|p: u8|
        low is None || high is None || (low->0 > 0 && high->0
            != 64) implies !mask_has_prefix(IpAddr::V6(m), p) by {
        if p <= 64 {
            let v = mask_value(64, p as nat);
        } else if p <= 128 {
            let v = mask_value(64, (p - 64) as u8 as nat);
            assert(mask_value(64, (p - 64) as nat) == v);
        }
    }
}

/// A mask is that of one prefix only.
pub proof fn prefix_is_unique(mask: IpAddr, p: u8, q: u8)
    requires
        mask_has_prefix(mask, p),
        mask_has_prefix(mask, q),
    ensures
        p == q,
{
    lemma_powers();
    match mask {
        IpAddr::V4(_) => lemma_mask_values_differ(32, p as nat, q as nat),
        IpAddr::V6(_) => {
            assert(power(0) == 1);
            assert(mask_value(64, 64) == u64::MAX);
            assert(mask_value(64, 0) == 0);
            let ph: nat = if p <= 64 { p as nat } else { 64 };
            let qh: nat = if q <= 64 { q as nat } else { 64 };
            let pl: nat = if p <= 64 { 0 } else { (p - 64) as nat };
            let ql: nat = if q <= 64 { 0 } else { (q - 64) as nat };
            lemma_mask_values_differ(64, ph, qh);
            lemma_mask_values_differ(64, pl, ql);
        },
    }
}

proof fn lemma_mask_values_differ(bits: nat, p: nat, q: nat)
    requires
        p <= bits,
        q <= bits,
    ensures
        mask_value(bits, p) == mask_value(bits, q) ==> p == q,
{
    if p < q {
        lemma_power_grows((bits - q) as nat, (bits - p) as nat);
    } else if q < p {
        lemma_power_grows((bits - p) as nat, (bits - q) as nat);
    }
}

/// The system's list names both an address and a mask of one family, for this interface.
pub open spec fn is_listed(e: InterfaceAddress, name: Seq<char>) -> bool {
    &&& e.interface_name@ == name
    &&& e.address is Some && e.netmask is Some
    &&& (e.address->0 is V4) == (e.netmask->0 is V4)
}

/// Every mask that counts is one.
pub open spec fn masks_are_valid(entries: Seq<InterfaceAddress>, name: Seq<char>) -> bool {
    forall|i: int|
        0 <= i < entries.len() && is_listed(#[trigger] entries[i], name) ==> exists|p: u8|
            mask_has_prefix(entries[i].netmask->0, p)
}

/// `inet` is the address of `e` with the prefix of its mask.
pub open spec fn inet_of(e: InterfaceAddress, inet: IpInet) -> bool {
    Some(inet.address) == e.address && mask_has_prefix(e.netmask->0, inet.network_length)
}

/// The entries that count among the first `n`.
pub open spec fn listed(entries: Seq<InterfaceAddress>, name: Seq<char>, n: int) -> Seq<
    InterfaceAddress,
>
    decreases n,
{
    if n <= 0 {
        Seq::empty()
    } else {
        let before = listed(entries, name, n - 1);
        if is_listed(entries[n - 1], name) {
            before.push(entries[n - 1])
        } else {
            before
        }
    }
}

/// Where the first address in the list is that equals `ip`.
pub open spec fn first_with(addrs: Seq<IpInet>, ip: IpAddr, from: int) -> Option<int>
    decreases addrs.len() - from,
{
    if from >= addrs.len() || from < 0 {
        None
    } else if addrs[from].address == ip {
        Some(from)
    } else {
        first_with(addrs, ip, from + 1)
    }
}

/// The addresses of the family of `like`, in order.
pub open spec fn of_family(addrs: Seq<IpInet>, v4: bool) -> Seq<IpInet> {
    addrs.filter(|a: IpInet| (a.address is V4) == v4)
}

// --- Routes ---

/// A route, as far as it is looked at.
#[derive(Debug, Clone, Copy, PartialEq, Eq, Structural)]
pub struct RouteEntry {
    /// Whether it is an IPv4 route.
    pub v4: bool,
    pub destination: Option<IpAddr>,
    pub dst_len: u8,
    pub oif: Option<u32>,
}

/// The route leads to this network through this interface; no destination means the
/// wildcard of the family.
pub open spec fn is_route(r: RouteEntry, address: IpAddr, prefix: u8, ifindex: u32) -> bool {
    let destination = match r.destination {
        Some(d) => d,
        None => match address {
            IpAddr::V4(_) => IpAddr::V4(Ipv4Addr { bits: 0 }),
            IpAddr::V6(_) => IpAddr::V6(Ipv6Addr { high: 0, low: 0 }),
        },
    };
    destination == address && r.dst_len == prefix && r.oif == Some(ifindex)
}

/// Some route leads to this network through this interface.
pub open spec fn some_route(
    routes: Seq<RouteEntry>,
    address: IpAddr,
    prefix: u8,
    ifindex: u32,
) -> bool {
    exists|k: int|
        0 <= k < routes.len() && is_route(#[trigger] routes[k], address, prefix, ifindex)
}

/// A route to add.
#[derive(Debug, Clone, Copy, PartialEq, Eq, Structural)]
pub struct NewRoute {
    pub destination: Option<IpInet>,
    pub oif: u32,
    pub priority: u32,
}

/// An attribute of a route.
#[derive(Debug, Clone, Copy, PartialEq, Eq, Structural)]
pub enum RouteAttribute {
    /// The next hop; unreadable if of a family that is not known.
    Gateway(Option<IpAddr>),
    /// The interface that it leaves by.
    Oif(u32),
    Other,
}

/// The gateway that the attributes name, the last one if there are several.
pub open spec fn gateway_in(attrs: Seq<RouteAttribute>) -> Option<IpAddr>
    decreases attrs.len(),
{
    if attrs.len() == 0 {
        None
    } else {
        match attrs.last() {
            RouteAttribute::Gateway(g) => g,
            _ => gateway_in(attrs.drop_last()),
        }
    }
}

/// The interface that the attributes name, the last one if there are several.
pub open spec fn oif_in(attrs: Seq<RouteAttribute>) -> Option<u32>
    decreases attrs.len(),
{
    if attrs.len() == 0 {
        None
    } else {
        match attrs.last() {
            RouteAttribute::Oif(i) => Some(i),
            _ => oif_in(attrs.drop_last()),
        }
    }
}

/// A message that answers a question for a route.
#[derive(Debug, Clone)]
pub enum RouteReply {
    /// An error number; zero is none.
    Error(i32),
    Route(Vec<RouteAttribute>),
    Done,
    Other,
}

// --- Neighbours ---

/// What is known of a neighbour.
#[derive(Debug, Clone, Copy, PartialEq, Eq, Structural)]
pub enum NeighbourState {
    Unknown,
    Incomplete,
    Failed,
    /// Resolved in one way or another.
    Resolved,
}

/// An attribute of a neighbour.
#[derive(Debug, Clone)]
pub enum NeighbourAttribute {
    Destination(IpAddr),
    LinkAddress(Vec<u8>),
    Other,
}

/// A neighbour.
#[derive(Debug, Clone)]
pub struct NeighbourEntry {
    pub ifindex: u32,
    pub state: NeighbourState,
    pub attributes: Vec<NeighbourAttribute>,
}

/// The attributes name `ip`.
pub open spec fn names_ip(attrs: Seq<NeighbourAttribute>, ip: IpAddr) -> bool {
    exists|i: int| 0 <= i < attrs.len() && #[trigger] attrs[i] == NeighbourAttribute::Destination(ip)
}

/// The hardware address of six bytes that the attributes name, the last one if there are
/// several.
pub open spec fn mac_of(attrs: Seq<NeighbourAttribute>) -> Option<Seq<u8>>
    decreases attrs.len(),
{
    if attrs.len() == 0 {
        None
    } else {
        match attrs.last() {
            NeighbourAttribute::LinkAddress(bytes) => if bytes@.len() == 6 {
                Some(bytes@)
            } else {
                mac_of(attrs.drop_last())
            },
            _ => mac_of(attrs.drop_last()),
        }
    }
}

/// The neighbour is the next hop, on the right interface, with a hardware address.
pub open spec fn is_next_hop(n: NeighbourEntry, next_hop: IpAddr, oif: Option<u32>) -> bool {
    &&& oif is Some ==> n.ifindex == oif->0
    &&& n.state == NeighbourState::Resolved
    &&& names_ip(n.attributes@, next_hop)
    &&& mac_of(n.attributes@) is Some
}

/// Some neighbour is the next hop.
pub open spec fn some_next_hop(
    neighbours: Seq<NeighbourEntry>,
    next_hop: IpAddr,
    oif: Option<u32>,
) -> bool {
    exists|k: int|
        0 <= k < neighbours.len() && #[trigger] is_next_hop(neighbours[k], next_hop, oif)
}

/// A message that answers a request for the neighbours.
#[derive(Debug, Clone, Copy, PartialEq, Eq, Structural)]
pub enum NeighbourReply {
    /// An error number; zero is none.
    Error(i32),
    /// A neighbour.
    Entry,
    Done,
    Other,
}

/// How a reply ends the list of neighbours, if it does.
pub open spec fn neighbours_end(reply: NeighbourReply) -> Option<DumpOutcome> {
    match reply {
        NeighbourReply::Error(code) => if code == 0 {
            None
        } else {
            Some(DumpOutcome::Failed(Error::Os(magnitude(code))))
        },
        NeighbourReply::Entry => None,
        NeighbourReply::Done => Some(DumpOutcome::Complete),
        NeighbourReply::Other => Some(DumpOutcome::Failed(Error::Unexpected)),
    }
}

/// How many replies come before the end of the list.
pub open spec fn neighbours_len(replies: Seq<NeighbourReply>) -> int
    decreases replies.len(),
{
    if replies.len() == 0 || neighbours_end(replies[0]) is Some {
        0
    } else {
        1 + neighbours_len(replies.drop_first())
    }
}

/// The places of the neighbours among the first `n` replies.
pub open spec fn neighbour_places(replies: Seq<NeighbourReply>, n: int) -> Seq<usize>
    decreases n,
{
    if n <= 0 {
        Seq::empty()
    } else if replies[n - 1] == NeighbourReply::Entry {
        neighbour_places(replies, n - 1).push((n - 1) as usize)
    } else {
        neighbour_places(replies, n - 1)
    }
}

proof fn lemma_neighbours_len(replies: Seq<NeighbourReply>, n: int)
    requires
        0 <= n <= replies.len(),
        forall|i: int| 0 <= i < n ==> neighbours_end(#[trigger] replies[i]) is None,
        n < replies.len() ==> neighbours_end(replies[n]) is Some,
    ensures
        neighbours_len(replies) == n,
    decreases n,
{
    if n > 0 {
        assert(neighbours_end(replies[0]) is None);
        let rest = replies.drop_first();
        assert forall|i: int| 0 <= i < n - 1 implies neighbours_end(
            #[trigger] rest[i],
        ) is None by {
            assert(rest[i] == replies[i + 1]);
        }
        if n < replies.len() {
            assert(rest[n - 1] == replies[n]);
        }
        lemma_neighbours_len(rest, n - 1);
    }
}

/// A proxy entry among the neighbours.
#[derive(Debug, Clone, Copy, PartialEq, Eq, Structural)]
pub struct ProxyEntry {
    pub ifindex: u32,
    pub is_proxy: bool,
    pub destination: Option<IpAddr>,
}

/// The entry proxies for `a` on the interface.
pub open spec fn proxies(e: ProxyEntry, ifindex: u32, a: Ipv6Addr) -> bool {
    e.ifindex == ifindex && e.is_proxy && e.destination == Some(IpAddr::V6(a))
}

/// Some entry proxies for `a` on the interface.
pub open spec fn is_proxied(entries: Seq<ProxyEntry>, ifindex: u32, a: Ipv6Addr) -> bool {
    exists|i: int| 0 <= i < entries.len() && #[trigger] proxies(entries[i], ifindex, a)
}

/// `a` comes before `b`.
pub open spec fn v6_before(a: Ipv6Addr, b: Ipv6Addr) -> bool {
    a.high < b.high || (a.high == b.high && a.low < b.low)
}

/// The addresses stand in order, none twice.
pub open spec fn v6_in_order(s: Seq<Ipv6Addr>) -> bool {
    forall|i: int, j: int| 0 <= i < j < s.len() ==> v6_before(#[trigger] s[i], #[trigger] s[j])
}

/// The name of an interface in the field of a request: 16 bytes, filled up with zeros, of
/// which the last is one.
pub fn build_ifreq(name: &str) -> (r: Vec<u8>)
    requires
        name.spec_bytes().len() < 16,
        !name.spec_bytes().contains(0),
    ensures
        r@.len() == 16,
        r@ == name.spec_bytes() + Seq::new((16 - name.spec_bytes().len()) as nat, |i: int| 0u8),
{
    let bytes = name.as_bytes();
    let mut out: Vec<u8> = Vec::new();
    append(&mut out, bytes);
    let rest: usize = 16 - bytes.len();
    append_zeros(&mut out, rest);
    assert(out@ =~= name.spec_bytes() + Seq::new(
        (16 - name.spec_bytes().len()) as nat,
        |i: int| 0u8,
    ));
    out
}

/// Configures interfaces.
pub struct NetlinkIfConfiger {}

impl NetlinkIfConfiger {
    /// The addresses of an interface, out of the system's list.
    pub fn list_addresses(name: &str, entries: &Vec<InterfaceAddress>) -> (r: Vec<IpInet>)
        requires
            masks_are_valid(entries@, name@),
        ensures
            ({
                let all = listed(entries@, name@, entries@.len() as int);
                &&& r@.len() == all.len()
                &&& forall|i: int| 0 <= i < all.len() ==> #[trigger] inet_of(all[i], r@[i])
            }),
    {
        let mut result: Vec<IpInet> = Vec::new();
        let mut i: usize = 0;
        while i < entries.len()
            invariant
                i <= entries@.len(),
                masks_are_valid(entries@, name@),
                result@.len() == listed(entries@, name@, i as int).len(),
                forall|k: int|
                    0 <= k < result@.len() ==> #[trigger] inet_of(
                        listed(entries@, name@, i as int)[k],
                        result@[k],
                    ),
            decreases entries@.len() - i,
        {
            let e: &InterfaceAddress = &entries[i];
            let ghost before = listed(entries@, name@, i as int);
            let ghost after = listed(entries@, name@, i + 1);
            let ghost old_result = result@;
            if same(e.interface_name.as_str(), name) {
                if let (Some(address), Some(netmask)) = (e.address, e.netmask) {
                    let both: bool = match (address, netmask) {
                        (IpAddr::V4(_), IpAddr::V4(_)) => true,
                        (IpAddr::V6(_), IpAddr::V6(_)) => true,
                        _ => false,
                    };
                    if both {
                        assert(is_listed(entries@[i as int], name@));
                        if let Some(network_length) = mask_to_prefix(netmask) {
                            result.push(IpInet { address, network_length });
                        }
                    }
                }
            }
            assert forall|k: int| 0 <= k < result@.len() implies #[trigger] inet_of(
                after[k],
                result@[k],
            ) by {
                if k < old_result.len() {
                    assert(inet_of(before[k], old_result[k]));
                }
            }
            i += 1;
        }
        result
    }

    /// The length of the prefix with which an interface has an address.
    pub fn get_prefix_len(addrs: &Vec<IpInet>, ip: IpAddr) -> (r: Result<u8, Error>)
        ensures
            r == match first_with(addrs@, ip, 0) {
                Some(i) => Ok(addrs@[i].network_length),
                None => Err(Error::NotFound),
            },
    {
        let mut i: usize = 0;
        while i < addrs.len()
            invariant
                i <= addrs@.len(),
                first_with(addrs@, ip, 0) == first_with(addrs@, ip, i as int),
            decreases addrs@.len() - i,
        {
            if addrs[i].address == ip {
                return Ok(addrs[i].network_length);
            }
            i += 1;
        }
        Err(Error::NotFound)
    }

    fn all_of_family(addrs: &Vec<IpInet>, v4: bool) -> (r: Vec<IpInet>)
        ensures
            r@ == of_family(addrs@, v4),
    {
        let mut out: Vec<IpInet> = Vec::new();
        let mut i: usize = 0;
        assert(addrs@.take(0) =~= Seq::empty());
        reveal(Seq::filter);
        while i < addrs.len()
            invariant
                i <= addrs@.len(),
                out@ == of_family(addrs@.take(i as int), v4),
            decreases addrs@.len() - i,
        {
            reveal(Seq::filter);
            let a = addrs[i];
            assert(addrs@.take(i + 1).drop_last() =~= addrs@.take(i as int));
            assert(addrs@.take(i + 1).last() == a);
            let is_v4: bool = match a.address {
                IpAddr::V4(_) => true,
                IpAddr::V6(_) => false,
            };
            if is_v4 == v4 {
                out.push(a);
            }
            i += 1;
        }
        assert(addrs@.take(i as int) =~= addrs@);
        out
    }

    /// The IPv4 addresses to remove: one, with the prefix that the interface has it with,
    /// or all.
    pub fn remove_ip(addrs: &Vec<IpInet>, ip: Option<Ipv4Addr>) -> (r: Result<Vec<IpInet>, Error>)
        ensures
            match ip {
                Some(a) => match first_with(addrs@, IpAddr::V4(a), 0) {
                    Some(i) => r matches Ok(out) && out@ == seq![addrs@[i]],
                    None => r == Err::<Vec<IpInet>, Error>(Error::NotFound),
                },
                None => r matches Ok(out) && out@ == of_family(addrs@, true),
            },
    {
        match ip {
            Some(a) => NetlinkIfConfiger::one(addrs, IpAddr::V4(a)),
            None => Ok(NetlinkIfConfiger::all_of_family(addrs, true)),
        }
    }

    fn one(addrs: &Vec<IpInet>, address: IpAddr) -> (r: Result<Vec<IpInet>, Error>)
        ensures
            match first_with(addrs@, address, 0) {
                Some(i) => r matches Ok(out) && out@ == seq![addrs@[i]],
                None => r == Err::<Vec<IpInet>, Error>(Error::NotFound),
            },
    {
        match NetlinkIfConfiger::get_prefix_len(addrs, address) {
            Ok(network_length) => {
                let mut out: Vec<IpInet> = Vec::new();
                out.push(IpInet { address, network_length });
                proof {
                    lemma_first_with(addrs@, address, 0);
                }
                assert(out@ =~= seq![addrs@[first_with(addrs@, address, 0)->0]]);
                Ok(out)
            },
            Err(e) => Err(e),
        }
    }

    /// The IPv6 addresses to remove: one, with the prefix that the interface has it with,
    /// or all.
    pub fn remove_ipv6(addrs: &Vec<IpInet>, ip: Option<Ipv6Addr>) -> (r: Result<Vec<IpInet>, Error>)
        ensures
            match ip {
                Some(a) => match first_with(addrs@, IpAddr::V6(a), 0) {
                    Some(i) => r matches Ok(out) && out@ == seq![addrs@[i]],
                    None => r == Err::<Vec<IpInet>, Error>(Error::NotFound),
                },
                None => r matches Ok(out) && out@ == of_family(addrs@, false),
            },
    {
        match ip {
            Some(a) => NetlinkIfConfiger::one(addrs, IpAddr::V6(a)),
            None => Ok(NetlinkIfConfiger::all_of_family(addrs, false)),
        }
    }

    /// The broadcast address of the network of `address`: the bits behind the prefix are
    /// all set. An address with a full prefix is its own.
    pub fn broadcast(address: Ipv4Addr, cidr_prefix: u8) -> (r: Ipv4Addr)
        requires
            cidr_prefix <= 32,
        ensures
            r.bits == address.bits - address.bits as int % power((32 - cidr_prefix) as nat) + power(
                (32 - cidr_prefix) as nat,
            ) - 1,
    {
        let mut size: u64 = 1;
        let mut bits: u8 = 32;
        proof {
            lemma_powers();
        }
        while bits > cidr_prefix
            invariant
                cidr_prefix <= bits <= 32,
                size == power((32 - bits) as nat),
                1 <= size <= 0x1_0000_0000,
                power(32) == 0x1_0000_0000,
            decreases bits,
        {
            proof {
                lemma_power_positive((32 - bits) as nat);
                if bits > 1 {
                    lemma_power_grows((33 - bits) as nat, 32);
                }
            }
            size = size * 2;
            bits = bits - 1;
        }
        let a: u64 = address.bits as u64;
        proof {
            lemma_last_of_block(a as int, size as int, (32 - cidr_prefix) as nat);
        }
        Ipv4Addr { bits: (a - a % size + size - 1) as u32 }
    }

    /// The flags of an interface, with the lowest, which says that it is up, set or
    /// cleared.
    pub fn set_link_status(flags: u32, up: bool) -> (r: u32)
        ensures
            r == flags - flags % 2 + (if up {
                1int
            } else {
                0
            }),
    {
        flags - flags % 2 + if up {
            1
        } else {
            0
        }
    }

    /// The routes of one family, in order.
    pub fn list_route_messages(routes: &Vec<RouteEntry>, v4: bool) -> (r: Vec<RouteEntry>)
        ensures
            r@ == routes@.filter(|e: RouteEntry| e.v4 == v4),
    {
        let mut out: Vec<RouteEntry> = Vec::new();
        let mut i: usize = 0;
        assert(routes@.take(0) =~= Seq::empty());
        reveal(Seq::filter);
        while i < routes.len()
            invariant
                i <= routes@.len(),
                out@ == routes@.take(i as int).filter(|e: RouteEntry| e.v4 == v4),
            decreases routes@.len() - i,
        {
            reveal(Seq::filter);
            assert(routes@.take(i + 1).drop_last() =~= routes@.take(i as int));
            assert(routes@.take(i + 1).last() == routes@[i as int]);
            if routes[i].v4 == v4 {
                out.push(routes[i]);
            }
            i += 1;
        }
        assert(routes@.take(i as int) =~= routes@);
        out
    }

    /// The first route to a network through an interface, which is the one to remove.
    pub fn find_route(
        routes: &Vec<RouteEntry>,
        address: IpAddr,
        cidr_prefix: u8,
        ifindex: u32,
    ) -> (r: Option<usize>)
        ensures
            match r {
                Some(i) => {
                    &&& i < routes@.len()
                    &&& is_route(routes@[i as int], address, cidr_prefix, ifindex)
                    &&& forall|k: int|
                        0 <= k < i ==> !is_route(
                            #[trigger] routes@[k],
                            address,
                            cidr_prefix,
                            ifindex,
                        )
                },
                None => forall|k: int|
                    0 <= k < routes@.len() ==> !is_route(
                        #[trigger] routes@[k],
                        address,
                        cidr_prefix,
                        ifindex,
                    ),
            },
            r is Some == some_route(routes@, address, cidr_prefix, ifindex),
    {
        let wildcard: IpAddr = match address {
            IpAddr::V4(_) => IpAddr::V4(Ipv4Addr { bits: 0 }),
            IpAddr::V6(_) => IpAddr::V6(Ipv6Addr { high: 0, low: 0 }),
        };
        let mut i: usize = 0;
        while i < routes.len()
            invariant
                i <= routes@.len(),
                wildcard == match address {
                    IpAddr::V4(_) => IpAddr::V4(Ipv4Addr { bits: 0 }),
                    IpAddr::V6(_) => IpAddr::V6(Ipv6Addr { high: 0, low: 0 }),
                },
                forall|k: int|
                    0 <= k < i ==> !is_route(#[trigger] routes@[k], address, cidr_prefix, ifindex),
            decreases routes@.len() - i,
        {
            let e = routes[i];
            let destination: IpAddr = match e.destination {
                Some(d) => d,
                None => wildcard,
            };
            if destination == address && e.dst_len == cidr_prefix && e.oif == Some(ifindex) {
                return Some(i);
            }
            i += 1;
        }
        None
    }

    /// The IPv4 route to add. Without a cost it comes after all others.
    pub fn add_ipv4_route(ifindex: u32, address: Ipv4Addr, cidr_prefix: u8, cost: Option<i32>) -> (r:
        NewRoute)
        ensures
            r.destination == Some(IpInet { address: IpAddr::V4(address), network_length: cidr_prefix }),
            r.oif == ifindex,
            r.priority == route_priority(cost),
    {
        NewRoute {
            destination: Some(IpInet { address: IpAddr::V4(address), network_length: cidr_prefix }),
            oif: ifindex,
            priority: priority_for(cost),
        }
    }

    /// The IPv6 route to add. The default route names no destination.
    pub fn add_ipv6_route(ifindex: u32, address: Ipv6Addr, cidr_prefix: u8, cost: Option<i32>) -> (r:
        NewRoute)
        ensures
            r.destination == if cidr_prefix != 0 {
                Some(IpInet { address: IpAddr::V6(address), network_length: cidr_prefix })
            } else {
                None
            },
            r.oif == ifindex,
            r.priority == route_priority(cost),
    {
        let destination: Option<IpInet> = if cidr_prefix != 0 {
            Some(IpInet { address: IpAddr::V6(address), network_length: cidr_prefix })
        } else {
            None
        };
        NewRoute { destination, oif: ifindex, priority: priority_for(cost) }
    }

    /// Reads a reply to a question for the route to `dest`: the next hop, which is the
    /// gateway or `dest` itself, and the interface. `None`: wait for more.
    pub fn route_get(dest: IpAddr, reply: &RouteReply) -> (r: Option<
        Result<(IpAddr, Option<u32>), Error>,
    >)
        requires
            *reply != RouteReply::Error(i32::MIN),
        ensures
            r == match *reply {
                RouteReply::Error(code) => if code == 0 {
                    None
                } else {
                    Some(Err(Error::Os(magnitude(code))))
                },
                RouteReply::Route(attrs) => Some(
                    Ok(
                        (
                            match gateway_in(attrs@) {
                                Some(g) => g,
                                None => dest,
                            },
                            oif_in(attrs@),
                        ),
                    ),
                ),
                RouteReply::Done => Some(Err(Error::NoRoute)),
                RouteReply::Other => Some(Err(Error::Unexpected)),
            },
    {
        match reply {
            RouteReply::Error(code) => if *code == 0 {
                None
            } else {
                Some(Err(Error::Os(size_of_code(*code))))
            },
            RouteReply::Route(attrs) => {
                let mut gateway: Option<IpAddr> = None;
                let mut oif: Option<u32> = None;
                let mut i: usize = 0;
                assert(attrs@.take(0) =~= Seq::empty());
                while i < attrs.len()
                    invariant
                        i <= attrs@.len(),
                        gateway == gateway_in(attrs@.take(i as int)),
                        oif == oif_in(attrs@.take(i as int)),
                    decreases attrs@.len() - i,
                {
                    assert(attrs@.take(i + 1).drop_last() =~= attrs@.take(i as int));
                    assert(attrs@.take(i + 1).last() == attrs@[i as int]);
                    match attrs[i] {
                        RouteAttribute::Gateway(g) => {
                            gateway = g;
                        },
                        RouteAttribute::Oif(index) => {
                            oif = Some(index);
                        },
                        RouteAttribute::Other => {},
                    }
                    i += 1;
                }
                assert(attrs@.take(i as int) =~= attrs@);
                let next_hop: IpAddr = match gateway {
                    Some(g) => g,
                    None => dest,
                };
                Some(Ok((next_hop, oif)))
            },
            RouteReply::Done => Some(Err(Error::NoRoute)),
            RouteReply::Other => Some(Err(Error::Unexpected)),
        }
    }

    /// Reads the replies to a request for the neighbours: which of them are neighbours, and
    /// how the list stands. Nothing after the end of the list counts.
    pub fn dump_neighbours(replies: &Vec<NeighbourReply>) -> (r: (Vec<usize>, DumpOutcome))
        requires
            !replies@.contains(NeighbourReply::Error(i32::MIN)),
        ensures
            r.0@ == neighbour_places(replies@, neighbours_len(replies@)),
            r.1 == if neighbours_len(replies@) == replies@.len() {
                DumpOutcome::More
            } else {
                neighbours_end(replies@[neighbours_len(replies@)])->0
            },
    {
        let mut kept: Vec<usize> = Vec::new();
        let mut i: usize = 0;
        while i < replies.len()
            invariant
                i <= replies@.len(),
                !replies@.contains(NeighbourReply::Error(i32::MIN)),
                forall|k: int| 0 <= k < i ==> neighbours_end(#[trigger] replies@[k]) is None,
                kept@ == neighbour_places(replies@, i as int),
            decreases replies@.len() - i,
        {
            let reply = replies[i];
            assert(replies@.contains(reply));
            let end: Option<DumpOutcome> = match reply {
                NeighbourReply::Error(code) => if code == 0 {
                    None
                } else {
                    Some(DumpOutcome::Failed(Error::Os(size_of_code(code))))
                },
                NeighbourReply::Entry => {
                    kept.push(i);
                    None
                },
                NeighbourReply::Done => Some(DumpOutcome::Complete),
                NeighbourReply::Other => Some(DumpOutcome::Failed(Error::Unexpected)),
            };
            if let Some(outcome) = end {
                proof {
                    lemma_neighbours_len(replies@, i as int);
                }
                return (kept, outcome);
            }
            i += 1;
        }
        proof {
            lemma_neighbours_len(replies@, i as int);
        }
        (kept, DumpOutcome::More)
    }

    fn neighbour_mac(n: &NeighbourEntry, next_hop: IpAddr) -> (r: Option<Vec<u8>>)
        ensures
            r is Some == (names_ip(n.attributes@, next_hop) && mac_of(n.attributes@) is Some),
            r matches Some(mac) ==> mac@ == mac_of(n.attributes@)->0,
    {
        let attrs = &n.attributes;
        let mut dst_match: bool = false;
        let mut mac: Option<Vec<u8>> = None;
        let mut i: usize = 0;
        assert(attrs@.take(0) =~= Seq::empty());
        while i < attrs.len()
            invariant
                i <= attrs@.len(),
                dst_match == names_ip(attrs@.take(i as int), next_hop),
                mac is Some == mac_of(attrs@.take(i as int)) is Some,
                mac matches Some(m) ==> m@ == mac_of(attrs@.take(i as int))->0,
            decreases attrs@.len() - i,
        {
            let ghost before = attrs@.take(i as int);
            let ghost after = attrs@.take(i + 1);
            assert(after.drop_last() =~= before);
            assert(after.last() == attrs@[i as int]);
            assert forall|k: int| 0 <= k < before.len() implies before[k] == after[k] by {}
            match &attrs[i] {
                NeighbourAttribute::Destination(ip) => {
                    if *ip == next_hop {
                        dst_match = true;
                        assert(after[i as int] == NeighbourAttribute::Destination(next_hop));
                    }
                },
                NeighbourAttribute::LinkAddress(bytes) => {
                    if bytes.len() == 6 {
                        mac = Some(copy_range(bytes.as_slice(), 0, 6));
                        assert(bytes@.subrange(0, 6) =~= bytes@);
                    }
                },
                NeighbourAttribute::Other => {},
            }
            assert(names_ip(after, next_hop) == (names_ip(before, next_hop) || after[i as int]
                == NeighbourAttribute::Destination(next_hop))) by {
                if names_ip(before, next_hop) {
                    let k = choose|k: int|
                        0 <= k < before.len() && #[trigger] before[k]
                            == NeighbourAttribute::Destination(next_hop);
                    assert(after[k] == NeighbourAttribute::Destination(next_hop));
                }
                if names_ip(after, next_hop) {
                    let k = choose|k: int|
                        0 <= k < after.len() && #[trigger] after[k]
                            == NeighbourAttribute::Destination(next_hop);
                    if k < i {
                        assert(before[k] == after[k]);
                    }
                }
            }
            i += 1;
        }
        assert(attrs@.take(i as int) =~= attrs@);
        if dst_match {
            mac
        } else {
            None
        }
    }

    /// The hardware address of the next hop: that of the first neighbour which is it.
    pub fn get_next_hop_mac(
        neighbours: &Vec<NeighbourEntry>,
        next_hop: IpAddr,
        oif: Option<u32>,
    ) -> (r: Option<Vec<u8>>)
        ensures
            match r {
                Some(mac) => exists|i: int|
                    0 <= i < neighbours@.len() && #[trigger] is_next_hop(
                        neighbours@[i],
                        next_hop,
                        oif,
                    ) && mac_of(neighbours@[i].attributes@) == Some(mac@) && forall|k: int|
                        0 <= k < i ==> !#[trigger] is_next_hop(neighbours@[k], next_hop, oif),
                None => forall|k: int|
                    0 <= k < neighbours@.len() ==> !#[trigger] is_next_hop(
                        neighbours@[k],
                        next_hop,
                        oif,
                    ),
            },
            r is Some == some_next_hop(neighbours@, next_hop, oif),
    {
        let mut i: usize = 0;
        while i < neighbours.len()
            invariant
                i <= neighbours@.len(),
                forall|k: int|
                    0 <= k < i ==> !#[trigger] is_next_hop(neighbours@[k], next_hop, oif),
            decreases neighbours@.len() - i,
        {
            let n: &NeighbourEntry = &neighbours[i];
            let here: bool = match oif {
                Some(index) => n.ifindex == index,
                None => true,
            };
            let resolved: bool = match n.state {
                NeighbourState::Resolved => true,
                _ => false,
            };
            if here && resolved {
                if let Some(mac) = NetlinkIfConfiger::neighbour_mac(n, next_hop) {
                    assert(is_next_hop(neighbours@[i as int], next_hop, oif));
                    return Some(mac);
                }
            }
            assert(!is_next_hop(neighbours@[i as int], next_hop, oif));
            i += 1;
        }
        None
    }

    /// The addresses that an interface answers neighbour solicitations for, in order.
    pub fn list_ipv6_ndp_proxy(entries: &Vec<ProxyEntry>, ifindex: u32) -> (r: Vec<Ipv6Addr>)
        ensures
            v6_in_order(r@),
            forall|a: Ipv6Addr| #[trigger]
                r@.contains(a) == exists|i: int|
                    0 <= i < entries@.len() && #[trigger] proxies(entries@[i], ifindex, a),
            forall|a: Ipv6Addr| #[trigger]
                r@.contains(a) == is_proxied(entries@, ifindex, a),
    {
        let mut out: Vec<Ipv6Addr> = Vec::new();
        let mut i: usize = 0;
        while i < entries.len()
            invariant
                i <= entries@.len(),
                v6_in_order(out@),
                forall|a: Ipv6Addr| #[trigger]
                    out@.contains(a) == exists|k: int|
                        0 <= k < i && #[trigger] proxies(entries@[k], ifindex, a),
            decreases entries@.len() - i,
        {
            let e = entries[i];
            let ghost before = out@;
            let mut added: Option<Ipv6Addr> = None;
            if e.ifindex == ifindex && e.is_proxy {
                if let Some(IpAddr::V6(a)) = e.destination {
                    insert_v6(&mut out, a);
                    added = Some(a);
                }
            }
            assert forall|a: Ipv6Addr| #[trigger]
                out@.contains(a) == exists|k: int|
                    0 <= k < i + 1 && #[trigger] proxies(entries@[k], ifindex, a) by {
                assert(out@.contains(a) == (before.contains(a) || added == Some(a)));
                assert(proxies(entries@[i as int], ifindex, a) == (added == Some(a)));
                if before.contains(a) {
                    let k = choose|k: int|
                        0 <= k < i && #[trigger] proxies(entries@[k], ifindex, a);
                    assert(proxies(entries@[k], ifindex, a));
                }
            }
            i += 1;
        }
        out
    }
}

proof fn lemma_first_with(addrs: Seq<IpInet>, ip: IpAddr, from: int)
    requires
        0 <= from,
    ensures
        first_with(addrs, ip, from) matches Some(i) ==> from <= i < addrs.len() && addrs[i].address
            == ip,
    decreases addrs.len() - from,
{
    if from < addrs.len() && addrs[from].address != ip {
        lemma_first_with(addrs, ip, from + 1);
    }
}

/// The last number of the block of `size` that holds `a` fits in 32 bits.
proof fn lemma_last_of_block(a: int, size: int, k: nat)
    requires
        0 <= a < 0x1_0000_0000,
        k <= 32,
        size == power(k),
        size >= 1,
    ensures
        0 <= a - a % size + size - 1 < 0x1_0000_0000,
        0 <= a % size <= a,
{
    let other = power((32 - k) as nat);
    lemma_power_adds(k, (32 - k) as nat);
    lemma_powers();
    let q = a / size;
    vstd::arithmetic::div_mod::lemma_fundamental_div_mod(a, size);
    vstd::arithmetic::div_mod::lemma_div_pos_is_pos(a, size);
    assert(q < other) by (nonlinear_arith)
        requires
            a == size * q + a % size,
            0 <= a % size,
            a < size * other,
            size >= 1,
    ;
    assert((q + 1) * size <= other * size) by (nonlinear_arith)
        requires
            q + 1 <= other,
            size >= 1,
    ;
    assert((q + 1) * size == size * q + size) by (nonlinear_arith);
    assert(other * size == size * other) by (nonlinear_arith);
    assert(0 <= a % size < size);
    assert(size * q >= 0) by (nonlinear_arith)
        requires
            q >= 0,
            size >= 1,
    ;
}

proof fn lemma_power_adds(a: nat, b: nat)
    ensures
        power(a) * power(b) == power(a + b),
    decreases a,
{
    if a > 0 {
        lemma_power_adds((a - 1) as nat, b);
        assert(power(a) * power(b) == 2 * (power((a - 1) as nat) * power(b))) by (nonlinear_arith)
            requires
                power(a) == 2 * power((a - 1) as nat),
        ;
        assert(power(a + b) == 2 * power((a + b - 1) as nat));
    } else {
        assert(power(0) * power(b) == power(b)) by (nonlinear_arith)
            requires
                power(0) == 1,
        ;
    }
}

/// The priority of a route: its cost as the kernel reads it, or the last.
pub open spec fn route_priority(cost: Option<i32>) -> int {
    match cost {
        Some(c) => c as int % 0x1_0000_0000,
        None => 65535,
    }
}

fn priority_for(cost: Option<i32>) -> (r: u32)
    ensures
        r == route_priority(cost),
{
    match cost {
        Some(c) => if c >= 0 {
            c as u32
        } else {
            (0x1_0000_0000i64 + c as i64) as u32
        },
        None => 65535,
    }
}

fn insert_v6(v: &mut Vec<Ipv6Addr>, a: Ipv6Addr)
    requires
        v6_in_order(old(v)@),
    ensures
        v6_in_order(final(v)@),
        forall|x: Ipv6Addr| #[trigger]
            final(v)@.contains(x) == (old(v)@.contains(x) || x == a),
{
    let ghost before = v@;
    let mut i: usize = 0;
    while i < v.len() && (v[i].high < a.high || (v[i].high == a.high && v[i].low < a.low))
        invariant
            i <= v@.len(),
            v@ == before,
            forall|k: int| 0 <= k < i ==> v6_before(#[trigger] before[k], a),
        decreases v@.len() - i,
    {
        i += 1;
    }
    if i < v.len() && v[i].high == a.high && v[i].low == a.low {
        assert(before[i as int] == a);
        return;
    }
    assert forall|k: int| i <= k < before.len() implies v6_before(a, #[trigger] before[k]) by {
        if k > i {
            assert(v6_before(before[i as int], before[k]));
        }
    }
    v.insert(i, a);
    let ghost after = v@;
    assert(after =~= before.insert(i as int, a));
    assert forall|x: Ipv6Addr| #[trigger] after.contains(x) == (before.contains(x) || x == a) by {
        if before.contains(x) {
            let k = choose|k: int| 0 <= k < before.len() && before[k] == x;
            if k < i {
                assert(after[k] == x);
            } else {
                assert(after[k + 1] == x);
            }
        }
        if after.contains(x) {
            let k = choose|k: int| 0 <= k < after.len() && after[k] == x;
            if k < i {
                assert(before[k] == x);
            } else if k > i {
                assert(before[k - 1] == x);
            }
        }
        assert(after[i as int] == a);
    }
}

/// The broadcast address lies in the network of the address, and is the last one in it.
pub proof fn broadcast_is_last_of_network(address: Ipv4Addr, other: Ipv4Addr, cidr_prefix: u8)
    requires
        cidr_prefix <= 32,
        address.bits as int / power((32 - cidr_prefix) as nat) == other.bits as int / power(
            (32 - cidr_prefix) as nat,
        ),
    ensures
        other.bits <= address.bits - address.bits as int % power((32 - cidr_prefix) as nat) + power(
            (32 - cidr_prefix) as nat,
        ) - 1,
{
    let size = power((32 - cidr_prefix) as nat);
    lemma_power_positive((32 - cidr_prefix) as nat);
    vstd::arithmetic::div_mod::lemma_fundamental_div_mod(address.bits as int, size);
    vstd::arithmetic::div_mod::lemma_fundamental_div_mod(other.bits as int, size);
    assert(0 <= other.bits as int % size < size) by {
        vstd::arithmetic::div_mod::lemma_mod_bound(other.bits as int, size);
    }
}

} // verus!
