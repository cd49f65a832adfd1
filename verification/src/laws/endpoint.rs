//! Byte streams over a connection, the table of connections, and the addresses of interfaces.

use crate::laws::bytes::u32_at;
use crate::laws::frame;
use crate::laws::socket;
use crate::laws::socket::{gap, holds, segment_start};
use crate::net::{IpAddr, MacAddr, SocketAddr};
use crate::socket::fake_tcp::endpoint;
use crate::socket::fake_tcp::endpoint::{AcceptError, FakeTcpSocket, ReadStep, StackPlan};
use crate::socket::fake_tcp::ifnames;
use crate::socket::fake_tcp::ifnames::{Interface, IpToIfNameCache};
use crate::socket::fake_tcp::packet;
use crate::socket::fake_tcp::stack;
use crate::socket::fake_tcp::stack::{
    Dispatch, KernelTcpState, PurgeEvent, ReaderCache, Socket, Stack, State,
};
use crate::socket::fake_tcp::tuples::{AddrTuple, TupleTable};
use vstd::prelude::*;

verus! {

// --- Writing ---

/// The frame carries this data from where the connection stands.
pub open spec fn carries(c: Socket, b: Seq<u8>, data: Seq<u8>) -> bool {
    let t = segment_start(c);
    &&& b.len() == t + 32 + data.len()
    &&& u32_at(b, t + 4) == c.seq
    &&& b[t + 13] == 0x18
    &&& b.subrange(t + 32, b.len() as int) == data
    &&& socket::frame_between(c, b)
}

proof fn lemma_sealed(s: FakeTcpSocket, frames: Seq<Seq<u8>>, data: Seq<u8>, now_ms: u32)
    requires
        holds(s.connection(), data.len() as int),
        exists|window: u16|
            65023 < window && frames == s.frames().push(
                #[trigger] s.connection().outgoing(
                    0x18,
                    data,
                    s.connection().seq,
                    now_ms,
                    window,
                ),
            ),
    ensures
        frames.len() == s.frames().len() + 1,
        frames.subrange(0, s.frames().len() as int) == s.frames(),
        carries(s.connection(), frames.last(), data),
{
    let c = s.connection();
    let window = choose|window: u16|
        65023 < window && frames == s.frames().push(
            #[trigger] c.outgoing(0x18, data, c.seq, now_ms, window),
        );
    socket::segment_says_what_the_socket_knows(c, 0x18, data, c.seq, now_ms, window);
    assert(frames.subrange(0, s.frames().len() as int) =~= s.frames());
}

/// What was collected becomes one more segment, and the connection moves behind it. Nothing
/// is sealed while nothing is collected or the connection cannot send.
pub proof fn collected_bytes_become_a_segment(s: &mut FakeTcpSocket, now_ms: u32, now_secs: u32)
    requires
        call_ensures(FakeTcpSocket::seal_current_frame, (s, now_ms, now_secs), ()),
        holds(old(s).connection(), old(s).collected().len() as int),
    ensures
        ({
            let c = old(s).connection();
            let data = old(s).collected();
            let sealed = data.len() > 0 && c.state == State::Established && c.seq_calibrated;
            &&& !sealed ==> final(s).collected() == data && final(s).frames() == old(s).frames()
                && final(s).connection() == c
            &&& sealed ==> {
                &&& final(s).collected().len() == 0
                &&& final(s).frames().len() == old(s).frames().len() + 1
                &&& final(s).frames().subrange(0, old(s).frames().len() as int) == old(s).frames()
                &&& carries(c, final(s).frames().last(), data)
                &&& final(s).connection().seq == (c.seq + data.len()) % 0x1_0000_0000
            }
            &&& final(s).unread() == old(s).unread()
        }),
{
    let c = old(s).connection();
    let data = old(s).collected();
    if data.len() > 0 && c.state == State::Established && c.seq_calibrated {
        lemma_sealed(*old(s), final(s).frames(), data, now_ms);
        socket::building_changes_nothing_else(c, data.len() as int, now_secs);
    }
}

/// A write that would make the collected bytes exceed 1348 has them sealed first; every
/// other leaves them. Sixty-four waiting segments are to be sent before more are collected.
pub proof fn long_writes_seal_first(
    s: &mut FakeTcpSocket,
    len: usize,
    now_ms: u32,
    now_secs: u32,
    r: bool,
)
    requires
        call_ensures(FakeTcpSocket::begin_write, (s, len, now_ms, now_secs), r),
        holds(old(s).connection(), old(s).collected().len() as int),
    ensures
        ({
            let c = old(s).connection();
            let data = old(s).collected();
            let sealed = data.len() > 0 && data.len() + len > 1348 && c.state == State::Established
                && c.seq_calibrated;
            &&& r == (final(s).frames().len() >= 64)
            &&& !sealed ==> final(s).collected() == data && final(s).frames() == old(s).frames()
                && final(s).connection() == c
            &&& sealed ==> {
                &&& final(s).collected().len() == 0
                &&& final(s).frames().len() == old(s).frames().len() + 1
                &&& carries(c, final(s).frames().last(), data)
                &&& final(s).connection().seq == (c.seq + data.len()) % 0x1_0000_0000
            }
        }),
{
    let c = old(s).connection();
    let data = old(s).collected();
    if data.len() > 0 && data.len() + len > 1348 && c.state == State::Established
        && c.seq_calibrated {
        lemma_sealed(*old(s), final(s).frames(), data, now_ms);
        socket::building_changes_nothing_else(c, data.len() as int, now_secs);
    }
}

/// All that is written is collected, behind what was collected before.
pub proof fn written_bytes_are_collected(s: &mut FakeTcpSocket, buffer: &[u8], r: usize)
    requires
        call_ensures(FakeTcpSocket::end_write, (s, buffer), r),
    ensures
        r == buffer@.len(),
        final(s).collected() == old(s).collected() + buffer@,
        final(s).frames() == old(s).frames(),
        final(s).connection() == old(s).connection(),
{
}

/// Segments that were sent no longer wait; the others do, in their order.
pub proof fn sent_segments_leave(s: &mut FakeTcpSocket, sent: usize)
    requires
        call_ensures(FakeTcpSocket::on_sent, (s, sent), ()),
    ensures
        ({
            let n = old(s).frames().len();
            &&& sent >= n ==> final(s).frames().len() == 0
            &&& sent < n ==> final(s).frames() == old(s).frames().subrange(sent as int, n as int)
        }),
        final(s).collected() == old(s).collected(),
        final(s).connection() == old(s).connection(),
{
    let n = old(s).frames().len();
    if sent < n {
        assert(old(s).frames().skip(sent as int) =~= old(s).frames().subrange(
            sent as int,
            n as int,
        ));
    }
}

/// Whether the collected bytes can be sealed: they fit a segment, or are not sent yet.
pub proof fn sealing_needs_room(s: FakeTcpSocket, r: bool)
    requires
        call_ensures(FakeTcpSocket::can_seal, (&s,), r),
        (s.connection().local_addr.ip is V4) == (s.connection().remote_addr.ip is V4),
    ensures
        r == (holds(s.connection(), s.collected().len() as int) || !(s.connection().state
            == State::Established && s.connection().seq_calibrated)),
{
}

// --- Reading ---

/// A read takes what was received, in order and as much as there is room for; the rest
/// stays. With nothing left it waits, and at the end of the connection it takes nothing.
pub proof fn received_bytes_are_read_in_order(s: &mut FakeTcpSocket, room: usize, r: ReadStep)
    requires
        call_ensures(FakeTcpSocket::begin_read, (s, room), r),
    ensures
        ({
            let data = old(s).unread();
            let n = data.len() as int;
            let open = !old(s).read_closed();
            &&& !open ==> (r matches ReadStep::Deliver(out) && out@.len() == 0)
            &&& open && n == 0 ==> r is Receive && final(s).receiving()
            &&& open && n > 0 ==> (r matches ReadStep::Deliver(out) && out@ + final(s).unread()
                == data && out@.len() == if room < n {
                room as int
            } else {
                n
            })
            &&& final(s).collected() == old(s).collected() && final(s).frames() == old(s).frames()
        }),
{
    let data = old(s).unread();
    let n = if room < data.len() {
        room as int
    } else {
        data.len() as int
    };
    assert(data.take(n) + data.skip(n) =~= data);
}

/// What the connection received waits for the reader; its end is the reader's end.
pub proof fn received_payload_waits(s: &mut FakeTcpSocket, payload: Option<Vec<u8>>)
    requires
        call_ensures(FakeTcpSocket::on_receive, (s, payload), ()),
        old(s).receiving(),
    ensures
        payload matches Some(data) ==> final(s).unread() == data@ && !final(s).read_closed(),
        payload is None ==> final(s).read_closed() && final(s).unread().len() == 0,
        !final(s).receiving(),
        final(s).collected() == old(s).collected() && final(s).frames() == old(s).frames(),
{
}

// --- Addresses ---

/// An IPv4 address that is mapped into IPv6 is taken back; every other stays.
pub proof fn mapped_address_is_ipv4(ip: IpAddr, r: IpAddr)
    requires
        call_ensures(endpoint::to_canonical, (ip,), r),
    ensures
        ip is V4 ==> r == ip,
        ip matches IpAddr::V6(a) ==> {
            let mapped = a.high == 0 && 0xffff_0000_0000 <= a.low <= 0xffff_ffff_ffff;
            &&& mapped ==> (r matches IpAddr::V4(b) && 0xffff_0000_0000 + b.bits == a.low)
            &&& !mapped ==> r == ip
        },
{
}

/// A listener owns what it asked for, a stack is reused while it is open, and errors of a
/// single connection do not end the listener.
pub proof fn listener_decisions(
    bound: SocketAddr,
    wanted: SocketAddr,
    port: u16,
    owned: bool,
    e: AcceptError,
    again: bool,
    closed: Option<bool>,
    plan: StackPlan,
)
    requires
        call_ensures(endpoint::bound_as_requested, (bound, wanted, port), owned),
        call_ensures(endpoint::accept_is_retryable, (e,), again),
        call_ensures(endpoint::plan_stack, (closed,), plan),
    ensures
        owned == (bound.ip == wanted.ip && (port == 0 || bound.port == port)),
        again == (e == AcceptError::NotConnected || e == AcceptError::ConnectionAborted || e
            == AcceptError::ConnectionRefused || e == AcceptError::ConnectionReset),
        plan == StackPlan::Create <==> closed is None,
        plan == StackPlan::Replace <==> closed == Some(true),
        plan == StackPlan::Reuse <==> closed == Some(false),
{
}

/// The transport is named after its driver.
pub proof fn transport_is_named_after_its_driver(driver: &str, r: String)
    requires
        call_ensures(endpoint::faketcp_transport_label, (driver,), r),
    ensures
        r@ == seq!['f', 'a', 'k', 'e', 't', 'c', 'p', '_'] + driver@,
{
    reveal_strlit("faketcp_");
    assert("faketcp_"@ =~= seq!['f', 'a', 'k', 'e', 't', 'c', 'p', '_']);
}

// --- The table of connections ---

/// What was entered is found until it is removed, and every other entry stays as it was.
pub proof fn entered_connection_is_found(
    t: &mut TupleTable,
    u: &mut TupleTable,
    key: AddrTuple,
    other: AddrTuple,
    channel: u64,
    fresh: bool,
    there: bool,
    got: Option<u64>,
    got_other: Option<u64>,
)
    requires
        call_ensures(TupleTable::insert, (t, key, channel), fresh),
        call_ensures(TupleTable::get, (&*final(t), key), got),
        call_ensures(TupleTable::get, (&*final(t), other), got_other),
        call_ensures(TupleTable::remove, (u, key), there),
        *old(u) == *final(t),
        other != key,
    ensures
        fresh == !old(t)@.contains_key(key),
        got == Some(channel),
        got_other is Some == old(t)@.contains_key(other),
        got_other is Some ==> got_other->0 == old(t)@[other],
        there,
        !final(u)@.contains_key(key),
        final(u)@.contains_key(other) == old(t)@.contains_key(other),
        final(u)@.contains_key(other) ==> final(u)@[other] == old(t)@[other],
{
}

/// A connection is registered exactly by a stack that is open and has a reader: under a
/// channel of its own, with a socket that goes on from the kernel's numbers.
pub proof fn connection_gets_a_channel(
    s: &mut Stack,
    local_addr: SocketAddr,
    remote_addr: SocketAddr,
    state: State,
    kernel: Option<KernelTcpState>,
    reader_done: bool,
    r: Option<(Socket, u64)>,
)
    requires
        call_ensures(
            Stack::try_alloc_established_socket,
            (s, local_addr, remote_addr, state, kernel, reader_done),
            r,
        ),
    ensures
        r is Some == (!old(s).closed() && !reader_done),
        r is None ==> final(s).closed() && final(s).connections() == old(s).connections(),
        r matches Some((sock, channel)) ==> {
            let key = AddrTuple { local_addr, remote_addr };
            &&& sock.local_addr == local_addr && sock.remote_addr == remote_addr
            &&& sock.local_mac == old(s).mac() && sock.remote_mac is None && sock.state == state
            &&& kernel matches Some(k) ==> sock.seq == k.seq && sock.ack == k.ack
            &&& kernel is None ==> sock.seq == 0 && sock.ack == 0 && !sock.seq_calibrated
            &&& channel == old(s).next() && final(s).next() == channel + 1
            &&& final(s).connections().contains_key(key) && final(s).connections()[key] == channel
            &&& forall|k: AddrTuple|
                k != key ==> (#[trigger] final(s).connections().contains_key(k)
                    == old(s).connections().contains_key(k))
        },
{
    if let Some((sock, channel)) = r {
        socket::socket_goes_on_from_the_kernel(
            local_addr,
            remote_addr,
            old(s).mac(),
            kernel,
            state,
            sock.ip_id,
        );
    }
}

/// A packet is for the connection that it names: first as the reader remembers it, then as
/// the table has it. Of a stray it is told whether it is an RST.
pub proof fn packet_finds_its_connection(
    s: Stack,
    cache: &mut ReaderCache,
    raw: &[u8],
    r: Dispatch,
)
    requires
        call_ensures(Stack::dispatch, (&s, cache, raw), r),
    ensures
        r is Malformed == packet::tcp_start(raw@) is None,
        packet::tcp_start(raw@) matches Some(t) ==> {
            let key = stack::tuple_in(raw@, t);
            let cached = old(cache).known().contains_key(key);
            let listed = s.connections().contains_key(key);
            &&& cached ==> r == Dispatch::Channel(old(cache).known()[key])
            &&& !cached && listed ==> r == Dispatch::Channel(s.connections()[key])
            &&& !cached && !listed ==> (r matches Dispatch::Unknown { rst } && rst == (raw@[t + 13]
                as int / 4 % 2 == 1))
            &&& r matches Dispatch::Channel(channel) ==> final(cache).known()
                == old(cache).known().insert(key, channel)
            &&& r is Unknown ==> final(cache).known() == old(cache).known()
        },
        r is Malformed ==> final(cache).known() == old(cache).known(),
{
}

/// What the reader remembers goes with the news, and the end of the news or of the device
/// closes the stack.
pub proof fn reader_forgets_what_ended(
    s: &mut Stack,
    cache: &mut ReaderCache,
    event: PurgeEvent,
    r: bool,
    failed: &mut Stack,
    failed_cache: &mut ReaderCache,
)
    requires
        call_ensures(Stack::on_purge, (s, cache, event), r),
        call_ensures(Stack::on_read_error, (failed, failed_cache), ()),
    ensures
        r == !(event is Closed),
        event matches PurgeEvent::Dropped(key) ==> !final(cache).known().contains_key(key)
            && *final(s) == *old(s) && forall|k: AddrTuple|
            k != key ==> (#[trigger] final(cache).known().contains_key(k)
                == old(cache).known().contains_key(k)),
        event is Lagged ==> *final(s) == *old(s) && forall|k: AddrTuple|
            !#[trigger] final(cache).known().contains_key(k),
        event is Closed ==> final(s).closed() && forall|k: AddrTuple|
            !final(cache).known().contains_key(k)
                && !#[trigger] final(s).connections().contains_key(k),
        final(failed).closed(),
        forall|k: AddrTuple|
            !final(failed_cache).known().contains_key(k)
                && !#[trigger] final(failed).connections().contains_key(k),
{
}

/// Numbers on the circle of 2^32.
pub proof fn numbers_go_round(a: u32, b: u32, n: usize, sum: u32, apart: u32)
    requires
        call_ensures(stack::advance, (a, n), sum),
        call_ensures(stack::distance, (a, b), apart),
    ensures
        sum == (a + n) % 0x1_0000_0000,
        (b + apart) % 0x1_0000_0000 == a,
        apart == gap(a as int, b as int),
{
}

// --- Interfaces ---

/// An address is found under the last interface that has it: with that one's name and
/// hardware address.
pub proof fn address_is_found_with_its_interface(
    cache: &mut IpToIfNameCache,
    all: Vec<Interface>,
    i: int,
    k: int,
    ip: IpAddr,
    r: Option<(String, Option<MacAddr>)>,
)
    requires
        call_ensures(IpToIfNameCache::reload_ip_to_ifname, (cache, &Some(all)), ()),
        call_ensures(IpToIfNameCache::get_ifname, (&*final(cache), &ip), r),
        0 <= i < all@.len(),
        0 <= k < all@[i].addrs@.len(),
        all@[i].addrs@[k] == ip,
        forall|j: int, l: int|
            i < j < all@.len() && 0 <= l < all@[j].addrs@.len() ==> #[trigger] all@[j].addrs@[l]
                != ip,
    ensures
        r matches Some((name, mac)) && name@ == all@[i].name@ && (all@[i].mac_addr is None
            ==> mac is None) && (all@[i].mac_addr matches Some(text) ==> (mac is Some
            == ifnames::mac_spelled(text@) is Some) && (mac matches Some(m) ==> ifnames::mac_spelled(
            text@,
        ) == Some(seq![m.0, m.1, m.2, m.3, m.4, m.5]))),
{
    lemma_last_interface(all@, all@.len() as int, i, k);
    if let Some(text) = all@[i].mac_addr {
        if let Some(octets) = ifnames::mac_spelled(text@) {
            lemma_spelled_len(text@, 6);
            let m = ifnames::mac_with(octets);
            assert(octets =~= seq![m.0, m.1, m.2, m.3, m.4, m.5]);
        }
    }
}

proof fn lemma_spelled_len(text: Seq<char>, n: nat)
    requires
        n > 0,
    ensures
        ifnames::bytes_spelled(text, n) matches Some(b) ==> b.len() == n,
    decreases n,
{
    if n > 1 {
        lemma_spelled_len(text.skip(ifnames::first_colon(text) + 1), (n - 1) as nat);
    }
}

proof fn lemma_keys(a: IpAddr, b: IpAddr)
    requires
        ifnames::key_of(a) == ifnames::key_of(b),
    ensures
        a == b,
{
}

proof fn lemma_within(
    m: Map<(u64, u64, u64), (Seq<char>, Option<MacAddr>)>,
    f: Interface,
    n: int,
    ip: IpAddr,
)
    requires
        0 <= n <= f.addrs@.len(),
    ensures
        ({
            let after = ifnames::with_addresses(m, f, n);
            let had = exists|l: int| 0 <= l < n && #[trigger] f.addrs@[l] == ip;
            let key = ifnames::key_of(ip);
            &&& had ==> after.contains_key(key) && after[key] == (
                f.name@,
                ifnames::interface_mac(f),
            )
            &&& !had ==> (after.contains_key(key) == m.contains_key(key)) && after[key] == m[key]
        }),
    decreases n,
{
    if n > 0 {
        lemma_within(m, f, n - 1, ip);
        if f.addrs@[n - 1] != ip {
            if ifnames::key_of(f.addrs@[n - 1]) == ifnames::key_of(ip) {
                lemma_keys(f.addrs@[n - 1], ip);
            }
            if exists|l: int| 0 <= l < n && #[trigger] f.addrs@[l] == ip {
                let l = choose|l: int| 0 <= l < n && #[trigger] f.addrs@[l] == ip;
                assert(l < n - 1);
            }
        }
    }
}

proof fn lemma_last_interface(all: Seq<Interface>, n: int, i: int, k: int)
    requires
        0 <= i < n <= all.len(),
        0 <= k < all[i].addrs@.len(),
        forall|j: int, l: int|
            i < j < n && 0 <= l < all[j].addrs@.len() ==> #[trigger] all[j].addrs@[l]
                != all[i].addrs@[k],
    ensures
        ({
            let key = ifnames::key_of(all[i].addrs@[k]);
            &&& ifnames::with_interfaces(all, n).contains_key(key)
            &&& ifnames::with_interfaces(all, n)[key] == (
                all[i].name@,
                ifnames::interface_mac(all[i]),
            )
        }),
    decreases n,
{
    let ip = all[i].addrs@[k];
    let last = all[n - 1];
    lemma_within(ifnames::with_interfaces(all, n - 1), last, last.addrs@.len() as int, ip);
    if i < n - 1 {
        lemma_last_interface(all, n - 1, i, k);
        assert(forall|l: int| 0 <= l < last.addrs@.len() ==> #[trigger] all[n - 1].addrs@[l] != ip);
    } else {
        assert(last.addrs@[k] == ip);
    }
}

/// An address that no interface has is not found, and nothing is where the interfaces could
/// not be listed.
pub proof fn unknown_address_is_not_found(
    cache: &mut IpToIfNameCache,
    listed: Option<Vec<Interface>>,
    ip: IpAddr,
    r: Option<(String, Option<MacAddr>)>,
)
    requires
        call_ensures(IpToIfNameCache::reload_ip_to_ifname, (cache, &listed), ()),
        call_ensures(IpToIfNameCache::get_ifname, (&*final(cache), &ip), r),
        listed matches Some(all) ==> forall|j: int, l: int|
            0 <= j < all@.len() && 0 <= l < all@[j].addrs@.len() ==> #[trigger] all@[j].addrs@[l]
                != ip,
    ensures
        r is None,
{
    if let Some(all) = listed {
        ifnames::every_address_is_found(all@, all@.len() as int, ip);
        if final(cache).entries().contains_key(ifnames::key_of(ip)) {
            let (j, l) = choose|j: int, l: int|
                0 <= j < all@.len() && 0 <= l < (#[trigger] all@[j]).addrs@.len()
                    && ifnames::key_of(#[trigger] all@[j].addrs@[l]) == ifnames::key_of(ip);
            lemma_keys(all@[j].addrs@[l], ip);
        }
    }
}

/// A mapped address is looked up in its own family.
pub proof fn mapped_address_is_looked_up_as_ipv4(
    cache: IpToIfNameCache,
    ip: IpAddr,
    plain: IpAddr,
    r: Option<(String, Option<MacAddr>)>,
    s: Option<(String, Option<MacAddr>)>,
)
    requires
        call_ensures(IpToIfNameCache::get_ifname_canonical, (&cache, &ip), r),
        call_ensures(endpoint::to_canonical, (ip,), plain),
        call_ensures(IpToIfNameCache::get_ifname, (&cache, &plain), s),
    ensures
        r is Some == s is Some,
        r matches Some((name, mac)) ==> name@ == (s->0).0@ && mac == (s->0).1,
{
}

/// A stack takes connections while it is open and has a reader; closing it forgets them all.
pub proof fn closed_stack_forgets(
    s: Stack,
    done: bool,
    refuses: bool,
    c: &mut Stack,
    m: &mut Stack,
    key: AddrTuple,
    there: bool,
    reg: &mut Stack,
    channel: Option<u64>,
    mac: Option<MacAddr>,
    fresh: Stack,
)
    requires
        call_ensures(Stack::is_closed, (&s, done), refuses),
        call_ensures(Stack::mark_closed_and_clear_tuples, (c,), ()),
        call_ensures(Stack::remove, (m, key), there),
        call_ensures(Stack::register, (reg, key, done), channel),
        call_ensures(Stack::new, (mac,), fresh),
    ensures
        refuses == (s.closed() || done),
        final(c).closed() && forall|k: AddrTuple| !#[trigger] final(c).connections().contains_key(k),
        there == old(m).connections().contains_key(key),
        !final(m).connections().contains_key(key),
        channel is Some == (!old(reg).closed() && !done),
        channel matches Some(n) ==> n == old(reg).next() && final(reg).next() == n + 1
            && final(reg).connections().contains_key(key) && final(reg).connections()[key] == n,
        channel is None ==> final(reg).connections() == old(reg).connections()
            && final(reg).closed(),
        !fresh.closed() && fresh.next() == 0,
        mac matches Some(x) ==> fresh.mac() == x,
        mac is None ==> fresh.mac() == MacAddr(0, 0, 0, 0, 0, 0),
{
}

/// The waiting segments and the addresses are shown as they are.
pub proof fn parts_are_shown(
    s: FakeTcpSocket,
    pending: &Vec<Vec<u8>>,
    to: IpAddr,
    any: IpAddr,
    k: Stack,
    mac: MacAddr,
    zero: MacAddr,
    a: SocketAddr,
    v4: bool,
)
    requires
        call_ensures(FakeTcpSocket::pending, (&s,), pending),
        call_ensures(endpoint::unspecified_for, (to,), any),
        call_ensures(Stack::local_mac, (&k,), mac),
        call_ensures(MacAddr::zero, (), zero),
        call_ensures(SocketAddr::is_ipv4, (&a,), v4),
    ensures
        pending@.map_values(|f: Vec<u8>| f@) == s.frames(),
        (any is V4) == (to is V4),
        any matches IpAddr::V4(x) ==> x.bits == 0,
        any matches IpAddr::V6(x) ==> x.high == 0 && x.low == 0,
        mac == k.mac(),
        zero == MacAddr(0, 0, 0, 0, 0, 0),
        v4 == (a.ip is V4),
{
}

/// A failed reader takes the connections along and nothing else.
pub proof fn failed_reader_keeps_the_rest(
    s: &mut Stack,
    cache: &mut ReaderCache,
    failed: &mut Stack,
    failed_cache: &mut ReaderCache,
    r: bool,
)
    requires
        call_ensures(Stack::on_purge, (s, cache, PurgeEvent::Closed), r),
        call_ensures(Stack::on_read_error, (failed, failed_cache), ()),
    ensures
        final(s).next() == old(s).next() && final(s).mac() == old(s).mac(),
        final(failed).next() == old(failed).next() && final(failed).mac() == old(failed).mac(),
{
}

} // verus!
