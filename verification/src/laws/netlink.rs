//! What is read from the kernel about addresses, routes and neighbours, and what is asked of
//! it.

use crate::common::ifcfg::netlink;
use crate::common::ifcfg::netlink::{
    DumpOutcome, Error, Frame, InterfaceAddress, IpInet, NeighbourAttribute, NeighbourEntry,
    NeighbourReply, NeighbourState, NetlinkIfConfiger, NewRoute, ProxyEntry, RouteAttribute,
    RouteEntry, RouteReply,
};
use crate::net::{IpAddr, Ipv4Addr, Ipv6Addr};
use vstd::arithmetic::power2::pow2;
use vstd::prelude::*;
use vstd::string::*;

verus! {

// --- Messages ---

/// The frame is about something else than the outcome of a request.
pub open spec fn says_nothing(f: Option<Frame>) -> bool {
    f matches Some(m) && m.message_type != 2 && m.message_type != 3
}

/// What the first frame says that is about the outcome is the outcome: an error number, zero
/// for success; the end of a list; or that it could not be read. What follows does not count.
pub proof fn first_outcome_counts(
    before: Seq<Option<Frame>>,
    f: Option<Frame>,
    after: Seq<Option<Frame>>,
)
    requires
        forall|i: int| 0 <= i < before.len() ==> says_nothing(#[trigger] before[i]),
    ensures
        netlink::ack_of(before) is None,
        ({
            let r = netlink::ack_of(before + seq![f] + after);
            &&& f is None ==> r == Some(Err::<(), Error>(Error::Malformed))
            &&& f matches Some(m) ==> {
                let error = m.message_type == 2;
                &&& m.message_type == 3 ==> r == Some(Ok::<(), Error>(()))
                &&& error && m.error_code is None ==> r == Some(
                    Err::<(), Error>(Error::Malformed),
                )
                &&& error && m.error_code == Some(0i32) ==> r == Some(Ok::<(), Error>(()))
                &&& m.error_code matches Some(c) ==> {
                    &&& error && c > 0 ==> r == Some(Err::<(), Error>(Error::Os(c)))
                    &&& error && i32::MIN < c < 0 ==> (r matches Some(Err(Error::Os(n))) && n == -c)
                }
            }
        }),
    decreases before.len(),
{
    let all = before + seq![f] + after;
    if before.len() == 0 {
        assert(all[0] == f);
    } else {
        assert(says_nothing(before[0]));
        assert(all[0] == before[0]);
        let rest = before.drop_first();
        assert forall|i: int| 0 <= i < rest.len() implies says_nothing(#[trigger] rest[i]) by {
            assert(rest[i] == before[i + 1]);
        }
        first_outcome_counts(rest, f, after);
        assert(all.drop_first() =~= rest + seq![f] + after);
    }
}

/// The outcome of a request is looked for in all frames of the response.
pub proof fn outcome_is_looked_for(frames: Vec<Option<Frame>>, r: Option<Result<(), Error>>)
    requires
        call_ensures(netlink::find_ack, (&frames,), r),
    ensures
        r == netlink::ack_of(frames@),
{
}

/// The frame does not end a list.
pub open spec fn goes_on(f: Option<Frame>) -> bool {
    &&& f matches Some(m) && m.flags as int / 16 % 2 == 0 && m.message_type != 3 && (m.message_type
        == 2 ==> m.error_code == Some(0i32))
}

/// A list is read up to its end: at the end mark it is complete; it fails where it changed
/// meanwhile, at an error number and at a frame that cannot be read. Up to there the frames
/// of the wanted type are kept, in order, and no others.
#[verifier::spinoff_prover]
pub proof fn list_is_read_to_its_end(
    frames: Vec<Option<Frame>>,
    wanted: u16,
    end: int,
    r: (Vec<usize>, DumpOutcome),
)
    requires
        call_ensures(netlink::read_dump, (&frames, wanted), r),
        0 <= end <= frames@.len(),
        forall|i: int| 0 <= i < end ==> goes_on(#[trigger] frames@[i]),
        end < frames@.len() ==> !goes_on(frames@[end]),
        end < frames@.len() ==> (frames@[end] matches Some(m) ==> m.error_code != Some(i32::MIN)),
        frames@.len() <= usize::MAX,
    ensures
        forall|i: int|
            0 <= i < end ==> r.0@.contains(i as usize) == (wanted != 2 && (#[trigger] frames@[i])->0.message_type
                == wanted),
        forall|k: int| 0 <= k < r.0@.len() ==> (#[trigger] r.0@[k]) < end,
        forall|k: int, l: int|
            0 <= k < l < r.0@.len() ==> (#[trigger] r.0@[k]) < (#[trigger] r.0@[l]),
        end == frames@.len() ==> r.1 == DumpOutcome::More,
        end < frames@.len() ==> {
            let f = frames@[end];
            &&& f is None ==> r.1 == DumpOutcome::Failed(Error::Malformed)
            &&& f matches Some(m) ==> {
                let changed = m.flags as int / 16 % 2 == 1;
                &&& changed ==> r.1 == DumpOutcome::Failed(Error::Interrupted)
                &&& !changed && m.message_type == 3 ==> r.1 == DumpOutcome::Complete
                &&& !changed && m.message_type == 2 && m.error_code is None ==> r.1
                    == DumpOutcome::Failed(Error::Malformed)
                &&& !changed && m.message_type == 2 && (m.error_code matches Some(c) && c != 0)
                    ==> (r.1 matches DumpOutcome::Failed(Error::Os(n)) && (n == m.error_code->0 || n
                    == -m.error_code->0) && n > 0)
            }
        },
{
    lemma_len(frames@, end);
    lemma_wanted(frames@, wanted, end);
    assert forall|i: int| 0 <= i < end implies r.0@.contains(i as usize) == (wanted != 2 && (
    #[trigger] frames@[i])->0.message_type == wanted) by {
        assert(goes_on(frames@[i]));
        if r.0@.contains(i as usize) {
            let k = choose|k: int| 0 <= k < r.0@.len() && r.0@[k] == i as usize;
            assert(r.0@[k] == i);
        }
    }
}

proof fn lemma_len(frames: Seq<Option<Frame>>, end: int)
    requires
        0 <= end <= frames.len(),
        forall|i: int| 0 <= i < end ==> goes_on(#[trigger] frames[i]),
        end < frames.len() ==> !goes_on(frames[end]),
    ensures
        netlink::dump_len(frames) == end,
    decreases end,
{
    if end > 0 {
        assert(goes_on(frames[0]));
        let rest = frames.drop_first();
        assert forall|i: int| 0 <= i < end - 1 implies goes_on(#[trigger] rest[i]) by {
            assert(rest[i] == frames[i + 1]);
        }
        lemma_len(rest, end - 1);
    }
}

proof fn lemma_wanted(frames: Seq<Option<Frame>>, wanted: u16, n: int)
    requires
        0 <= n <= frames.len() <= usize::MAX,
        forall|i: int| 0 <= i < n ==> goes_on(#[trigger] frames[i]),
    ensures
        ({
            let w = netlink::wanted(frames, wanted, n);
            &&& forall|i: int|
                0 <= i < n && wanted != 2 && (#[trigger] frames[i])->0.message_type == wanted
                    ==> w.contains(i as usize)
            &&& forall|k: int|
                0 <= k < w.len() ==> 0 <= (#[trigger] w[k]) < n && wanted != 2
                    && frames[w[k] as int]->0.message_type == wanted
            &&& forall|k: int, l: int|
                0 <= k < l < w.len() ==> (#[trigger] w[k]) < (#[trigger] w[l])
        }),
    decreases n,
{
    if n > 0 {
        lemma_wanted(frames, wanted, n - 1);
        assert(goes_on(frames[n - 1]));
        let b = netlink::wanted(frames, wanted, n - 1);
        let w = netlink::wanted(frames, wanted, n);
        assert forall|i: int|
            0 <= i < n && wanted != 2 && (#[trigger] frames[i])->0.message_type
                == wanted implies w.contains(i as usize) by {
            if i < n - 1 {
                assert(b.contains(i as usize));
                let k = choose|k: int| 0 <= k < b.len() && b[k] == i as usize;
                assert(w[k] == i as usize);
            } else {
                assert(w[b.len() as int] == i as usize);
            }
        }
    }
}

// --- Addresses ---

proof fn lemma_power(n: nat)
    ensures
        netlink::power(n) == pow2(n),
        pow2(n) >= 1,
    decreases n,
{
    if n > 0 {
        lemma_power((n - 1) as nat);
        vstd::arithmetic::power2::lemma_pow2_unfold(n);
    } else {
        vstd::arithmetic::power2::lemma2_to64();
    }
}

/// A mask is that of a prefix exactly if so many of its first bits are set and the others
/// are not: it falls short of the power of two behind it by that of the bits that are left.
pub proof fn mask_is_its_prefix(m: IpAddr, p: u8, r: Option<u8>)
    requires
        call_ensures(netlink::mask_to_prefix, (m,), r),
    ensures
        m matches IpAddr::V4(a) && p <= 32 && a.bits + pow2((32 - p) as nat) == 0x1_0000_0000
            ==> r == Some(p),
        m matches IpAddr::V6(a) && p <= 128 && a.high * 0x1_0000_0000_0000_0000 + a.low + pow2(
            (128 - p) as nat,
        ) == 0x1_0000_0000_0000_0000_0000_0000_0000_0000int ==> r == Some(p),
        r matches Some(q) ==> {
            &&& m matches IpAddr::V4(a) ==> q <= 32 && a.bits + pow2((32 - q) as nat)
                == 0x1_0000_0000
            &&& m matches IpAddr::V6(a) ==> q <= 128 && a.high * 0x1_0000_0000_0000_0000 + a.low
                + pow2((128 - q) as nat) == 0x1_0000_0000_0000_0000_0000_0000_0000_0000int
        },
{
    vstd::arithmetic::power2::lemma2_to64();
    vstd::arithmetic::power2::lemma_pow2_adds(64, 64);
    lemma_power(32);
    lemma_power(64);
    if p <= 32 {
        lemma_power((32 - p) as nat);
    }
    if let IpAddr::V4(a) = m {
        if p <= 32 && a.bits + pow2((32 - p) as nat) == 0x1_0000_0000 {
            assert(netlink::mask_has_prefix(m, p));
            assert(netlink::is_mask(m));
            if let Some(q) = r {
                netlink::prefix_is_unique(m, p, q);
            }
        }
    }
    if let IpAddr::V6(a) = m {
        if p <= 128 && a.high * 0x1_0000_0000_0000_0000 + a.low + pow2((128 - p) as nat)
            == 0x1_0000_0000_0000_0000_0000_0000_0000_0000int {
            lemma_long_mask(a, p);
            assert(netlink::is_mask(m));
            if let Some(q) = r {
                netlink::prefix_is_unique(m, p, q);
            }
        }
    }
    if let Some(q) = r {
        match m {
            IpAddr::V4(a) => {
                lemma_power((32 - q) as nat);
            },
            IpAddr::V6(a) => {
                if q <= 64 {
                    lemma_power((64 - q) as nat);
                    vstd::arithmetic::power2::lemma_pow2_adds((64 - q) as nat, 64);
                    let u = pow2((64 - q) as nat);
                    assert(pow2((128 - q) as nat) == u * 0x1_0000_0000_0000_0000) by {
                        assert(pow2((64 - q) as nat) * pow2(64) == pow2((128 - q) as nat));
                    }
                    assert(a.high * 0x1_0000_0000_0000_0000 + u * 0x1_0000_0000_0000_0000
                        == 0x1_0000_0000_0000_0000_0000_0000_0000_0000int) by (nonlinear_arith)
                        requires
                            a.high + u == 0x1_0000_0000_0000_0000,
                    ;
                } else {
                    lemma_power((64 - (q - 64)) as nat);
                    assert(a.high == 0xffff_ffff_ffff_ffff);
                }
            },
        }
    }
}

proof fn lemma_long_mask(a: Ipv6Addr, p: u8)
    requires
        p <= 128,
        a.high * 0x1_0000_0000_0000_0000 + a.low + pow2((128 - p) as nat)
            == 0x1_0000_0000_0000_0000_0000_0000_0000_0000int,
    ensures
        netlink::mask_has_prefix(IpAddr::V6(a), p),
{
    vstd::arithmetic::power2::lemma2_to64();
    lemma_power(64);
    let (h, l) = (a.high as int, a.low as int);
    if p <= 64 {
        lemma_power((64 - p) as nat);
        vstd::arithmetic::power2::lemma_pow2_adds((64 - p) as nat, 64);
        let u = pow2((64 - p) as nat) as int;
        let w = h + u;
        assert(pow2((64 - p) as nat) * pow2(64) == pow2((128 - p) as nat));
        assert(pow2((128 - p) as nat) == u * 0x1_0000_0000_0000_0000);
        assert(w * 0x1_0000_0000_0000_0000 + l
            == 0x1_0000_0000_0000_0000_0000_0000_0000_0000int) by (nonlinear_arith)
            requires
                w == h + u,
                h * 0x1_0000_0000_0000_0000 + l + u * 0x1_0000_0000_0000_0000
                    == 0x1_0000_0000_0000_0000_0000_0000_0000_0000int,
        ;
        assert(l == 0 && w == 0x1_0000_0000_0000_0000);
    } else {
        lemma_power((128 - p) as nat);
        if p > 64 {
            vstd::arithmetic::power2::lemma_pow2_strictly_increases((128 - p) as nat, 64);
        }
        assert(h == 0xffff_ffff_ffff_ffff);
        assert(64 - (p - 64) == 128 - p);
    }
}

/// The broadcast address has the bits of the prefix in common with the address, and all the
/// others set.
pub proof fn broadcast_sets_the_bits_behind_the_prefix(a: Ipv4Addr, prefix: u8, r: Ipv4Addr)
    requires
        call_ensures(NetlinkIfConfiger::broadcast, (a, prefix), r),
        prefix <= 32,
    ensures
        ({
            let size = pow2((32 - prefix) as nat) as int;
            &&& r.bits as int / size == a.bits as int / size
            &&& r.bits as int % size == size - 1
        }),
{
    let size = pow2((32 - prefix) as nat) as int;
    lemma_power((32 - prefix) as nat);
    let n = a.bits as int;
    vstd::arithmetic::div_mod::lemma_fundamental_div_mod(n, size);
    vstd::arithmetic::div_mod::lemma_mod_bound(n, size);
    let q = n / size;
    assert(r.bits == q * size + (size - 1)) by (nonlinear_arith)
        requires
            r.bits == n - n % size + size - 1,
            n == size * q + n % size,
    ;
    vstd::arithmetic::div_mod::lemma_fundamental_div_mod_converse(
        r.bits as int,
        size,
        q,
        size - 1,
    );
}

/// The lowest flag says whether an interface is up; the others stay.
pub proof fn link_status_is_the_lowest_flag(flags: u32, up: bool, r: u32)
    requires
        call_ensures(NetlinkIfConfiger::set_link_status, (flags, up), r),
    ensures
        r as int / 2 == flags as int / 2,
        (r as int % 2 == 1) == up,
{
}

/// The address stands in the list at `i`, and not before.
pub open spec fn stands_first(addrs: Seq<IpInet>, ip: IpAddr, i: int) -> bool {
    &&& 0 <= i < addrs.len() && addrs[i].address == ip
    &&& forall|k: int| 0 <= k < i ==> (#[trigger] addrs[k]).address != ip
}

/// The address is not in the list.
pub open spec fn is_missing(addrs: Seq<IpInet>, ip: IpAddr) -> bool {
    forall|k: int| 0 <= k < addrs.len() ==> (#[trigger] addrs[k]).address != ip
}

proof fn lemma_first(addrs: Seq<IpInet>, ip: IpAddr, from: int, i: int)
    requires
        0 <= from,
    ensures
        stands_first(addrs, ip, i) && from <= i ==> netlink::first_with(addrs, ip, from) == Some(i),
        is_missing(addrs, ip) ==> netlink::first_with(addrs, ip, from) is None,
    decreases addrs.len() - from,
{
    if from < addrs.len() {
        lemma_first(addrs, ip, from + 1, i);
    }
}

/// An address is removed with the prefix that the interface has it with; one that the
/// interface does not have is not found. Without one, all of the family are removed.
pub proof fn address_is_removed_as_it_is(
    addrs: Vec<IpInet>,
    a: Ipv4Addr,
    b: Ipv6Addr,
    i: int,
    prefix: Result<u8, Error>,
    v4: Result<Vec<IpInet>, Error>,
    v6: Result<Vec<IpInet>, Error>,
    all4: Result<Vec<IpInet>, Error>,
    all6: Result<Vec<IpInet>, Error>,
)
    requires
        call_ensures(NetlinkIfConfiger::get_prefix_len, (&addrs, IpAddr::V4(a)), prefix),
        call_ensures(NetlinkIfConfiger::remove_ip, (&addrs, Some(a)), v4),
        call_ensures(NetlinkIfConfiger::remove_ipv6, (&addrs, Some(b)), v6),
        call_ensures(NetlinkIfConfiger::remove_ip, (&addrs, None), all4),
        call_ensures(NetlinkIfConfiger::remove_ipv6, (&addrs, None), all6),
    ensures
        stands_first(addrs@, IpAddr::V4(a), i) ==> prefix == Ok::<u8, Error>(
            addrs@[i].network_length,
        ) && (v4 matches Ok(out) && out@ == seq![addrs@[i]]),
        is_missing(addrs@, IpAddr::V4(a)) ==> prefix == Err::<u8, Error>(Error::NotFound) && v4
            == Err::<Vec<IpInet>, Error>(Error::NotFound),
        stands_first(addrs@, IpAddr::V6(b), i) ==> (v6 matches Ok(out) && out@ == seq![addrs@[i]]),
        is_missing(addrs@, IpAddr::V6(b)) ==> v6 == Err::<Vec<IpInet>, Error>(Error::NotFound),
        all4 matches Ok(out) && out@ == addrs@.filter(|x: IpInet| x.address is V4),
        all6 matches Ok(out) && out@ == addrs@.filter(|x: IpInet| x.address is V6),
{
    lemma_first(addrs@, IpAddr::V4(a), 0, i);
    lemma_first(addrs@, IpAddr::V6(b), 0, i);
    lemma_families(addrs@);
}

proof fn lemma_families(addrs: Seq<IpInet>)
    ensures
        netlink::of_family(addrs, true) == addrs.filter(|x: IpInet| x.address is V4),
        netlink::of_family(addrs, false) == addrs.filter(|x: IpInet| x.address is V6),
    decreases addrs.len(),
{
    reveal(Seq::filter);
    if addrs.len() > 0 {
        lemma_families(addrs.drop_last());
    }
}

/// The addresses of an interface are those that the system lists for it with a mask of their
/// family, in order, with the prefix of the mask.
pub proof fn interface_has_what_is_listed(entries: Seq<InterfaceAddress>, name: Seq<char>, n: int)
    requires
        0 <= n < entries.len(),
    ensures
        ({
            let e = entries[n];
            let counts = e.interface_name@ == name && e.address is Some && e.netmask is Some && ((
            e.address->0 is V4) == (e.netmask->0 is V4));
            &&& netlink::listed(entries, name, 0).len() == 0
            &&& counts ==> netlink::listed(entries, name, n + 1) == netlink::listed(
                entries,
                name,
                n,
            ).push(e)
            &&& !counts ==> netlink::listed(entries, name, n + 1) == netlink::listed(
                entries,
                name,
                n,
            )
        }),
{
}

/// Each listed entry gives one address.
pub proof fn each_entry_gives_an_address(
    name: &str,
    entries: Vec<InterfaceAddress>,
    i: int,
    r: Vec<IpInet>,
)
    requires
        call_ensures(NetlinkIfConfiger::list_addresses, (name, &entries), r),
        0 <= i < r@.len(),
    ensures
        ({
            let all = netlink::listed(entries@, name@, entries@.len() as int);
            &&& r@.len() == all.len()
            &&& Some(r@[i].address) == all[i].address
            &&& all[i].netmask matches Some(IpAddr::V4(m)) ==> m.bits + pow2(
                (32 - r@[i].network_length) as nat,
            ) == 0x1_0000_0000
        }),
{
    let all = netlink::listed(entries@, name@, entries@.len() as int);
    assert(netlink::inet_of(all[i], r@[i]));
    lemma_listed(entries@, name@, entries@.len() as int);
    assert(netlink::is_listed(all[i], name@));
    vstd::arithmetic::power2::lemma2_to64();
    lemma_power(32);
    if r@[i].network_length <= 32 {
        lemma_power((32 - r@[i].network_length) as nat);
    }
}

proof fn lemma_listed(entries: Seq<InterfaceAddress>, name: Seq<char>, n: int)
    requires
        0 <= n <= entries.len(),
    ensures
        forall|i: int|
            0 <= i < netlink::listed(entries, name, n).len() ==> netlink::is_listed(
                #[trigger] netlink::listed(entries, name, n)[i],
                name,
            ),
    decreases n,
{
    if n > 0 {
        lemma_listed(entries, name, n - 1);
        let b = netlink::listed(entries, name, n - 1);
        let w = netlink::listed(entries, name, n);
        assert forall|i: int| 0 <= i < w.len() implies netlink::is_listed(
            #[trigger] w[i],
            name,
        ) by {
            if i < b.len() {
                assert(w[i] == b[i]);
            }
        }
    }
}

/// A request names its interface in sixteen bytes, filled up with zeros.
pub proof fn name_is_filled_up_with_zeros(name: &str, r: Vec<u8>)
    requires
        call_ensures(netlink::build_ifreq, (name,), r),
        name.spec_bytes().len() < 16,
    ensures
        r@.len() == 16,
        r@.subrange(0, name.spec_bytes().len() as int) == name.spec_bytes(),
        forall|i: int| name.spec_bytes().len() <= i < 16 ==> #[trigger] r@[i] == 0,
{
    assert(r@.subrange(0, name.spec_bytes().len() as int) =~= name.spec_bytes());
}

// --- Routes ---

/// The route leads to the network through the interface; without a destination it leads to
/// the network of zeros.
pub open spec fn leads_to(e: RouteEntry, address: IpAddr, prefix: u8, ifindex: u32) -> bool {
    &&& e.dst_len == prefix
    &&& e.oif == Some(ifindex)
    &&& match e.destination {
        Some(d) => d == address,
        None => match address {
            IpAddr::V4(a) => a.bits == 0,
            IpAddr::V6(a) => a.high == 0 && a.low == 0,
        },
    }
}

/// The route to remove is the first that leads to the network through the interface.
pub proof fn first_matching_route_is_found(
    routes: Vec<RouteEntry>,
    address: IpAddr,
    prefix: u8,
    ifindex: u32,
    r: Option<usize>,
)
    requires
        call_ensures(NetlinkIfConfiger::find_route, (&routes, address, prefix, ifindex), r),
    ensures
        r matches Some(i) ==> i < routes@.len() && leads_to(
            routes@[i as int],
            address,
            prefix,
            ifindex,
        ) && forall|k: int|
            0 <= k < i ==> !leads_to(#[trigger] routes@[k], address, prefix, ifindex),
        r is None ==> forall|k: int|
            0 <= k < routes@.len() ==> !leads_to(#[trigger] routes@[k], address, prefix, ifindex),
{
    assert forall|k: int| 0 <= k < routes@.len() implies leads_to(
        #[trigger] routes@[k],
        address,
        prefix,
        ifindex,
    ) == netlink::is_route(routes@[k], address, prefix, ifindex) by {}
    if r is None {
        assert(!netlink::some_route(routes@, address, prefix, ifindex));
    }
}

/// The routes of a family are listed in order.
pub proof fn routes_of_a_family_are_listed(routes: Vec<RouteEntry>, v4: bool, r: Vec<RouteEntry>)
    requires
        call_ensures(NetlinkIfConfiger::list_route_messages, (&routes, v4), r),
    ensures
        r@ == routes@.filter(|e: RouteEntry| e.v4 == v4),
{
}

/// A new route leads to its network through the interface. Without a cost it comes at 65535;
/// a cost counts as the kernel reads it. An IPv6 default route names no network.
pub proof fn new_route_has_its_cost(
    ifindex: u32,
    a: Ipv4Addr,
    b: Ipv6Addr,
    prefix: u8,
    cost: Option<i32>,
    r4: NewRoute,
    r6: NewRoute,
)
    requires
        call_ensures(NetlinkIfConfiger::add_ipv4_route, (ifindex, a, prefix, cost), r4),
        call_ensures(NetlinkIfConfiger::add_ipv6_route, (ifindex, b, prefix, cost), r6),
    ensures
        r4.oif == ifindex && r6.oif == ifindex,
        r4.priority == r6.priority,
        cost is None ==> r4.priority == 65535,
        cost matches Some(c) ==> r4.priority == if c >= 0 {
            c as int
        } else {
            0x1_0000_0000 + c
        },
        r4.destination matches Some(d) && d.address == IpAddr::V4(a) && d.network_length == prefix,
        r6.destination is Some == (prefix != 0),
        r6.destination matches Some(d) ==> d.address == IpAddr::V6(b) && d.network_length == prefix,
{
}

/// The next hop is the gateway that the last such attribute names, or the destination itself;
/// the interface is the one that the last such attribute names.
pub proof fn last_attribute_counts(
    attrs: Seq<RouteAttribute>,
    g: Option<IpAddr>,
    i: u32,
)
    ensures
        netlink::gateway_in(Seq::empty()) is None && netlink::oif_in(Seq::empty()) is None,
        netlink::gateway_in(attrs.push(RouteAttribute::Gateway(g))) == g,
        netlink::oif_in(attrs.push(RouteAttribute::Gateway(g))) == netlink::oif_in(attrs),
        netlink::gateway_in(attrs.push(RouteAttribute::Oif(i))) == netlink::gateway_in(attrs),
        netlink::oif_in(attrs.push(RouteAttribute::Oif(i))) == Some(i),
        netlink::gateway_in(attrs.push(RouteAttribute::Other)) == netlink::gateway_in(attrs),
        netlink::oif_in(attrs.push(RouteAttribute::Other)) == netlink::oif_in(attrs),
{
    assert(attrs.push(RouteAttribute::Gateway(g)).drop_last() =~= attrs);
    assert(attrs.push(RouteAttribute::Oif(i)).drop_last() =~= attrs);
    assert(attrs.push(RouteAttribute::Other).drop_last() =~= attrs);
}

/// What a reply means to someone who asks for a route: a route is the answer, zero is no
/// news, an error number is an error, the end means that there is no route.
pub proof fn route_is_answered(
    dest: IpAddr,
    reply: RouteReply,
    r: Option<Result<(IpAddr, Option<u32>), Error>>,
)
    requires
        call_ensures(NetlinkIfConfiger::route_get, (dest, &reply), r),
    ensures
        reply == RouteReply::Error(0) ==> r is None,
        reply matches RouteReply::Error(c) ==> (c != 0 && c != i32::MIN ==> (r matches Some(
            Err(Error::Os(n)),
        ) && n == if c > 0 {
            c as int
        } else {
            -c
        })),
        reply is Done ==> (r matches Some(Err(e)) && e == Error::NoRoute),
        reply is Other ==> (r matches Some(Err(e)) && e == Error::Unexpected),
        reply matches RouteReply::Route(attrs) ==> (r matches Some(Ok((hop, oif))) && oif
            == netlink::oif_in(attrs@) && hop == match netlink::gateway_in(attrs@) {
            Some(g) => g,
            None => dest,
        }),
{
}

// --- Neighbours ---

/// The reply does not end the list of neighbours.
pub open spec fn list_goes_on(r: NeighbourReply) -> bool {
    r == NeighbourReply::Entry || r == NeighbourReply::Error(0)
}

/// The list of neighbours is read up to its end; up to there every neighbour is kept, in
/// order, and nothing else.
#[verifier::spinoff_prover]
pub proof fn neighbours_are_read_to_the_end(
    replies: Vec<NeighbourReply>,
    end: int,
    r: (Vec<usize>, DumpOutcome),
)
    requires
        call_ensures(NetlinkIfConfiger::dump_neighbours, (&replies,), r),
        0 <= end <= replies@.len() <= usize::MAX,
        forall|i: int| 0 <= i < end ==> list_goes_on(#[trigger] replies@[i]),
        end < replies@.len() ==> !list_goes_on(replies@[end]) && replies@[end]
            != NeighbourReply::Error(i32::MIN),
    ensures
        forall|i: int|
            0 <= i < end ==> r.0@.contains(i as usize) == ((#[trigger] replies@[i])
                == NeighbourReply::Entry),
        forall|k: int| 0 <= k < r.0@.len() ==> (#[trigger] r.0@[k]) < end,
        forall|k: int, l: int|
            0 <= k < l < r.0@.len() ==> (#[trigger] r.0@[k]) < (#[trigger] r.0@[l]),
        end == replies@.len() ==> r.1 == DumpOutcome::More,
        end < replies@.len() ==> {
            let f = replies@[end];
            &&& f is Done ==> r.1 == DumpOutcome::Complete
            &&& f is Other ==> r.1 == DumpOutcome::Failed(Error::Unexpected)
            &&& f matches NeighbourReply::Error(c) ==> (r.1 matches DumpOutcome::Failed(Error::Os(
                n,
            )) && n > 0 && (n == c || n == -c))
        },
{
    lemma_neighbours(replies@, end);
    lemma_places(replies@, end);
    assert forall|i: int| 0 <= i < end implies r.0@.contains(i as usize) == ((
    #[trigger] replies@[i]) == NeighbourReply::Entry) by {
        if r.0@.contains(i as usize) {
            let k = choose|k: int| 0 <= k < r.0@.len() && r.0@[k] == i as usize;
            assert(r.0@[k] == i);
        }
    }
}

proof fn lemma_neighbours(replies: Seq<NeighbourReply>, end: int)
    requires
        0 <= end <= replies.len(),
        forall|i: int| 0 <= i < end ==> list_goes_on(#[trigger] replies[i]),
        end < replies.len() ==> !list_goes_on(replies[end]),
    ensures
        netlink::neighbours_len(replies) == end,
    decreases end,
{
    if end > 0 {
        assert(list_goes_on(replies[0]));
        let rest = replies.drop_first();
        assert forall|i: int| 0 <= i < end - 1 implies list_goes_on(#[trigger] rest[i]) by {
            assert(rest[i] == replies[i + 1]);
        }
        lemma_neighbours(rest, end - 1);
    }
}

proof fn lemma_places(replies: Seq<NeighbourReply>, n: int)
    requires
        0 <= n <= replies.len() <= usize::MAX,
    ensures
        ({
            let w = netlink::neighbour_places(replies, n);
            &&& forall|i: int|
                0 <= i < n && (#[trigger] replies[i]) == NeighbourReply::Entry ==> w.contains(
                    i as usize,
                )
            &&& forall|k: int|
                0 <= k < w.len() ==> 0 <= (#[trigger] w[k]) < n && replies[w[k] as int]
                    == NeighbourReply::Entry
            &&& forall|k: int, l: int|
                0 <= k < l < w.len() ==> (#[trigger] w[k]) < (#[trigger] w[l])
        }),
    decreases n,
{
    if n > 0 {
        lemma_places(replies, n - 1);
        let b = netlink::neighbour_places(replies, n - 1);
        let w = netlink::neighbour_places(replies, n);
        assert forall|i: int|
            0 <= i < n && (#[trigger] replies[i]) == NeighbourReply::Entry implies w.contains(
            i as usize,
        ) by {
            if i < n - 1 {
                assert(b.contains(i as usize));
                let k = choose|k: int| 0 <= k < b.len() && b[k] == i as usize;
                assert(w[k] == i as usize);
            } else {
                assert(w[b.len() as int] == i as usize);
            }
        }
    }
}

/// The hardware address is the last of six bytes among the attributes.
pub proof fn last_hardware_address_counts(attrs: Seq<NeighbourAttribute>, bytes: Vec<u8>, ip: IpAddr)
    ensures
        netlink::mac_of(Seq::empty()) is None,
        bytes@.len() == 6 ==> netlink::mac_of(attrs.push(NeighbourAttribute::LinkAddress(bytes)))
            == Some(bytes@),
        bytes@.len() != 6 ==> netlink::mac_of(attrs.push(NeighbourAttribute::LinkAddress(bytes)))
            == netlink::mac_of(attrs),
        netlink::mac_of(attrs.push(NeighbourAttribute::Destination(ip))) == netlink::mac_of(attrs),
        netlink::mac_of(attrs.push(NeighbourAttribute::Other)) == netlink::mac_of(attrs),
{
    assert(attrs.push(NeighbourAttribute::LinkAddress(bytes)).drop_last() =~= attrs);
    assert(attrs.push(NeighbourAttribute::Destination(ip)).drop_last() =~= attrs);
    assert(attrs.push(NeighbourAttribute::Other).drop_last() =~= attrs);
}

/// The neighbour is resolved, is on the interface if one is given, names the address and has
/// a hardware address.
pub open spec fn answers_for(n: NeighbourEntry, ip: IpAddr, oif: Option<u32>) -> bool {
    &&& n.state == NeighbourState::Resolved
    &&& oif matches Some(i) ==> n.ifindex == i
    &&& exists|k: int|
        0 <= k < n.attributes@.len() && #[trigger] n.attributes@[k]
            == NeighbourAttribute::Destination(ip)
    &&& netlink::mac_of(n.attributes@) is Some
}

/// The next hop's hardware address is that of the first neighbour that answers for it.
pub proof fn first_neighbour_answers(
    neighbours: Vec<NeighbourEntry>,
    ip: IpAddr,
    oif: Option<u32>,
    i: int,
    r: Option<Vec<u8>>,
)
    requires
        call_ensures(NetlinkIfConfiger::get_next_hop_mac, (&neighbours, ip, oif), r),
    ensures
        0 <= i < neighbours@.len() && answers_for(neighbours@[i], ip, oif) && (forall|k: int|
            0 <= k < i ==> !answers_for(#[trigger] neighbours@[k], ip, oif)) ==> (r matches Some(
            mac,
        ) && netlink::mac_of(neighbours@[i].attributes@) == Some(mac@)),
        (forall|k: int|
            0 <= k < neighbours@.len() ==> !answers_for(#[trigger] neighbours@[k], ip, oif))
            ==> r is None,
{
    assert forall|k: int| 0 <= k < neighbours@.len() implies answers_for(
        #[trigger] neighbours@[k],
        ip,
        oif,
    ) == netlink::is_next_hop(neighbours@[k], ip, oif) by {}
    if 0 <= i < neighbours@.len() && answers_for(neighbours@[i], ip, oif) && (forall|k: int|
        0 <= k < i ==> !answers_for(#[trigger] neighbours@[k], ip, oif)) {
        assert(netlink::is_next_hop(neighbours@[i], ip, oif));
        assert(netlink::some_next_hop(neighbours@, ip, oif));
        let mac = r->0;
        let j = choose|j: int|
            0 <= j < neighbours@.len() && #[trigger] netlink::is_next_hop(neighbours@[j], ip, oif)
                && netlink::mac_of(neighbours@[j].attributes@) == Some(mac@) && forall|k: int|
                0 <= k < j ==> !#[trigger] netlink::is_next_hop(neighbours@[k], ip, oif);
        if j < i {
            assert(!answers_for(neighbours@[j], ip, oif));
        }
    }
}

/// The addresses that an interface proxies for are those of its proxy entries, each once and
/// in the order of their numbers.
pub proof fn proxied_addresses_are_sorted(
    entries: Vec<ProxyEntry>,
    ifindex: u32,
    a: Ipv6Addr,
    r: Vec<Ipv6Addr>,
)
    requires
        call_ensures(NetlinkIfConfiger::list_ipv6_ndp_proxy, (&entries, ifindex), r),
    ensures
        r@.contains(a) ==> exists|i: int|
            0 <= i < entries@.len() && (#[trigger] entries@[i]).ifindex == ifindex
                && entries@[i].is_proxy && entries@[i].destination == Some(IpAddr::V6(a)),
        forall|i: int, j: int|
            0 <= i < j < r@.len() ==> (#[trigger] r@[i]).high * 0x1_0000_0000_0000_0000 + r@[i].low
                < (#[trigger] r@[j]).high * 0x1_0000_0000_0000_0000 + r@[j].low,
{
    if r@.contains(a) {
        let i = choose|i: int|
            0 <= i < entries@.len() && #[trigger] netlink::proxies(entries@[i], ifindex, a);
        assert(entries@[i].ifindex == ifindex);
    }
    assert forall|i: int, j: int| 0 <= i < j < r@.len() implies (#[trigger] r@[i]).high
        * 0x1_0000_0000_0000_0000 + r@[i].low < (#[trigger] r@[j]).high * 0x1_0000_0000_0000_0000
        + r@[j].low by {
        assert(netlink::v6_before(r@[i], r@[j]));
    }
}

/// Every proxy entry of the interface is among them.
pub proof fn proxied_address_is_listed(
    entries: Vec<ProxyEntry>,
    ifindex: u32,
    i: int,
    a: Ipv6Addr,
    r: Vec<Ipv6Addr>,
)
    requires
        call_ensures(NetlinkIfConfiger::list_ipv6_ndp_proxy, (&entries, ifindex), r),
        0 <= i < entries@.len(),
        entries@[i].ifindex == ifindex,
        entries@[i].is_proxy,
        entries@[i].destination == Some(IpAddr::V6(a)),
    ensures
        r@.contains(a),
{
    assert(netlink::proxies(entries@[i], ifindex, a));
    assert(netlink::is_proxied(entries@, ifindex, a));
}

} // verus!
