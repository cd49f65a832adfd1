//! Which interface has which address.

use crate::net::{IpAddr, MacAddr};
use crate::socket::fake_tcp::endpoint;
use crate::socket::fake_tcp::endpoint::to_canonical;
use dashmap::DashMap;
use vstd::prelude::*;
use vstd::string::*;

verus! {

/// The concurrent map of the `dashmap` crate.
#[verifier::external_type_specification]
#[verifier::external_body]
#[verifier::reject_recursive_types(K)]
#[verifier::reject_recursive_types(V)]
#[verifier::reject_recursive_types(S)]
pub struct ExDashMap<K, V, S>(dashmap::DashMap<K, V, S>);

/// An address in numbers: its family, and its two halves.
pub open spec fn key_of(ip: IpAddr) -> (u64, u64, u64) {
    match ip {
        IpAddr::V4(a) => (4, 0, a.bits as u64),
        IpAddr::V6(a) => (6, a.high, a.low),
    }
}

/// What a map from addresses to interfaces holds.
pub uninterp spec fn ifname_entries(
    m: DashMap<(u64, u64, u64), (String, Option<MacAddr>)>,
) -> Map<(u64, u64, u64), (Seq<char>, Option<MacAddr>)>;

/// Nothing.
pub open spec fn no_entries() -> Map<(u64, u64, u64), (Seq<char>, Option<MacAddr>)> {
    Map::empty()
}

/// Calls `DashMap::new`, which makes a map without entries.
#[verifier::external_body]
fn new_map() -> (r: DashMap<(u64, u64, u64), (String, Option<MacAddr>)>)
    ensures
        ifname_entries(r) == no_entries(),
{
    DashMap::new()
}

/// Calls `DashMap::clear`, which removes all entries.
#[verifier::external_body]
fn clear_map(m: &mut DashMap<(u64, u64, u64), (String, Option<MacAddr>)>)
    ensures
        ifname_entries(*final(m)) == no_entries(),
{
    m.clear();
}

/// Calls `DashMap::insert`, which sets the entry of one key, whether it was there or not,
/// and leaves the others.
#[verifier::external_body]
fn insert_entry(
    m: &mut DashMap<(u64, u64, u64), (String, Option<MacAddr>)>,
    key: (u64, u64, u64),
    name: String,
    mac: Option<MacAddr>,
)
    ensures
        ifname_entries(*final(m)) == ifname_entries(*old(m)).insert(key, (name@, mac)),
{
    m.insert(key, (name, mac));
}

/// Calls `DashMap::get`, which finds the entry of a key if there is one, and copies the
/// entry.
#[verifier::external_body]
fn get_entry(
    m: &DashMap<(u64, u64, u64), (String, Option<MacAddr>)>,
    key: &(u64, u64, u64),
) -> (r: Option<(String, Option<MacAddr>)>)
    ensures
        r is Some == ifname_entries(*m).contains_key(*key),
        r matches Some((name, mac)) ==> (name@, mac) == ifname_entries(*m)[*key],
{
    m.get(key).map(|entry| entry.value().clone())
}

/// The value of a hexadecimal digit, in either case; 16 for any other character.
pub open spec fn hex_digit(c: char) -> int {
    if '0' <= c <= '9' {
        c as int - '0' as int
    } else if 'a' <= c <= 'f' {
        c as int - 'a' as int + 10
    } else if 'A' <= c <= 'F' {
        c as int - 'A' as int + 10
    } else {
        16
    }
}

/// All characters are hexadecimal digits.
pub open spec fn are_hex(digits: Seq<char>) -> bool {
    forall|i: int| 0 <= i < digits.len() ==> hex_digit(#[trigger] digits[i]) < 16
}

/// The number that hexadecimal digits spell.
pub open spec fn hex_number(digits: Seq<char>) -> int
    decreases digits.len(),
{
    if digits.len() == 0 {
        0
    } else {
        hex_number(digits.drop_last()) * 16 + hex_digit(digits.last())
    }
}

/// The byte that a text spells: one or more hexadecimal digits, which a plus sign may
/// precede.
pub open spec fn byte_spelled(text: Seq<char>) -> Option<u8> {
    let digits = if text.len() > 0 && text[0] == '+' {
        text.drop_first()
    } else {
        text
    };
    if digits.len() > 0 && are_hex(digits) && hex_number(digits) <= 255 {
        Some(hex_number(digits) as u8)
    } else {
        None
    }
}

/// Where the first colon stands, or the length of `text` if there is none.
pub open spec fn first_colon(text: Seq<char>) -> int
    decreases text.len(),
{
    if text.len() == 0 || text[0] == ':' {
        0
    } else {
        1 + first_colon(text.drop_first())
    }
}

/// The `n` bytes that a text spells, with a colon between each two.
pub open spec fn bytes_spelled(text: Seq<char>, n: nat) -> Option<Seq<u8>>
    recommends
        n > 0,
    decreases n,
{
    let c = first_colon(text);
    if n <= 1 {
        match byte_spelled(text) {
            Some(b) => Some(seq![b]),
            None => None,
        }
    } else if c >= text.len() {
        None
    } else {
        match (byte_spelled(text.take(c)), bytes_spelled(text.skip(c + 1), (n - 1) as nat)) {
            (Some(b), Some(rest)) => Some(seq![b] + rest),
            _ => None,
        }
    }
}

/// The hardware address that a text spells, if it spells one: its six bytes.
pub open spec fn mac_spelled(text: Seq<char>) -> Option<Seq<u8>> {
    bytes_spelled(text, 6)
}

/// Calls `pnet::util::MacAddr::from_str`, which cuts the text at its colons, wants six
/// parts, and reads each with `u8::from_str_radix` in base 16: an optional plus sign and
/// then digits only, with a value that fits in a byte.
#[verifier::external_body]
fn parse_mac(text: &str) -> (r: Option<MacAddr>)
    ensures
        r is Some == mac_spelled(text@) is Some,
        r matches Some(mac) ==> Some(mac.octets()) == mac_spelled(text@),
{
    match text.parse::<pnet::util::MacAddr>() {
        Ok(m) => Some(MacAddr(m.0, m.1, m.2, m.3, m.4, m.5)),
        Err(_) => None,
    }
}

/// An interface as the system lists it.
#[derive(Debug, Clone)]
pub struct Interface {
    pub name: String,
    pub mac_addr: Option<String>,
    pub addrs: Vec<IpAddr>,
}

/// The hardware address with these octets.
pub open spec fn mac_with(octets: Seq<u8>) -> MacAddr {
    MacAddr(octets[0], octets[1], octets[2], octets[3], octets[4], octets[5])
}

/// The hardware address of an interface, where it has one that can be read.
pub open spec fn interface_mac(i: Interface) -> Option<MacAddr> {
    match i.mac_addr {
        Some(text) => match mac_spelled(text@) {
            Some(octets) => Some(mac_with(octets)),
            None => None,
        },
        None => None,
    }
}

/// What the map holds once the first `n` addresses of an interface were entered.
pub open spec fn with_addresses(
    m: Map<(u64, u64, u64), (Seq<char>, Option<MacAddr>)>,
    i: Interface,
    n: int,
) -> Map<(u64, u64, u64), (Seq<char>, Option<MacAddr>)>
    decreases n,
{
    if n <= 0 {
        m
    } else {
        with_addresses(m, i, n - 1).insert(key_of(i.addrs@[n - 1]), (i.name@, interface_mac(i)))
    }
}

/// What the map holds once the first `n` interfaces were entered.
pub open spec fn with_interfaces(all: Seq<Interface>, n: int) -> Map<
    (u64, u64, u64),
    (Seq<char>, Option<MacAddr>),
>
    decreases n,
{
    if n <= 0 {
        Map::empty()
    } else {
        with_addresses(
            with_interfaces(all, n - 1),
            all[n - 1],
            all[n - 1].addrs@.len() as int,
        )
    }
}

fn exec_key(ip: IpAddr) -> (r: (u64, u64, u64))
    ensures
        r == key_of(ip),
{
    match ip {
        IpAddr::V4(a) => (4, 0, a.bits as u64),
        IpAddr::V6(a) => (6, a.high, a.low),
    }
}

/// Remembers which interface has which address.
pub struct IpToIfNameCache {
    ip_to_ifname: DashMap<(u64, u64, u64), (String, Option<MacAddr>)>,
}

impl IpToIfNameCache {
    /// What is remembered.
    pub closed spec fn entries(self) -> Map<(u64, u64, u64), (Seq<char>, Option<MacAddr>)> {
        ifname_entries(self.ip_to_ifname)
    }

    /// Nothing is remembered.
    pub fn new() -> (r: Self)
        ensures
            r.entries() == no_entries(),
    {
        IpToIfNameCache { ip_to_ifname: new_map() }
    }

    /// Forgets everything and enters the interfaces anew. Where they could not be listed,
    /// nothing is remembered.
    pub fn reload_ip_to_ifname(&mut self, interfaces: &Option<Vec<Interface>>)
        ensures
            final(self).entries() == match *interfaces {
                Some(all) => with_interfaces(all@, all@.len() as int),
                None => Map::empty(),
            },
    {
        clear_map(&mut self.ip_to_ifname);
        let all = match interfaces {
            Some(all) => all,
            None => return,
        };
        let mut i: usize = 0;
        while i < all.len()
            invariant
                i <= all@.len(),
                self.entries() == with_interfaces(all@, i as int),
            decreases all@.len() - i,
        {
            let iface: &Interface = &all[i];
            let mac: Option<MacAddr> = match &iface.mac_addr {
                Some(text) => {
                    let mac = parse_mac(text.as_str());
                    assert(mac matches Some(m) ==> m == mac_with(m.octets()));
                    mac
                },
                None => None,
            };
            assert(mac == interface_mac(all@[i as int]));
            let ghost before = self.entries();
            let mut k: usize = 0;
            while k < iface.addrs.len()
                invariant
                    k <= iface.addrs@.len(),
                    mac == interface_mac(*iface),
                    self.entries() == with_addresses(before, *iface, k as int),
                decreases iface.addrs@.len() - k,
            {
                let mut name = String::new();
                name.append(iface.name.as_str());
                assert(name@ =~= iface.name@);
                insert_entry(&mut self.ip_to_ifname, exec_key(iface.addrs[k]), name, mac);
                k += 1;
            }
            i += 1;
        }
    }

    /// The interface that is remembered for an address, if one is. Where none is, the
    /// interfaces are to be entered anew and the address is looked up once more.
    pub fn get_ifname(&self, ip: &IpAddr) -> (r: Option<(String, Option<MacAddr>)>)
        ensures
            r is Some == self.entries().contains_key(key_of(*ip)),
            r matches Some((name, mac)) ==> (name@, mac) == self.entries()[key_of(*ip)],
    {
        get_entry(&self.ip_to_ifname, &exec_key(*ip))
    }

    /// The same for an address that may be an IPv4 address mapped into IPv6: interfaces
    /// are remembered in their own family.
    pub fn get_ifname_canonical(&self, ip: &IpAddr) -> (r: Option<(String, Option<MacAddr>)>)
        ensures
            ({
                let key = key_of(endpoint::canonical(*ip));
                &&& r is Some == self.entries().contains_key(key)
                &&& r matches Some((name, mac)) ==> (name@, mac) == self.entries()[key]
            }),
    {
        self.get_ifname(&to_canonical(*ip))
    }
}

proof fn lemma_with_addresses(
    m: Map<(u64, u64, u64), (Seq<char>, Option<MacAddr>)>,
    i: Interface,
    n: int,
    key: (u64, u64, u64),
)
    requires
        0 <= n <= i.addrs@.len(),
    ensures
        with_addresses(m, i, n).contains_key(key) == (m.contains_key(key) || exists|k: int|
            0 <= k < n && key_of(#[trigger] i.addrs@[k]) == key),
    decreases n,
{
    if n > 0 {
        lemma_with_addresses(m, i, n - 1, key);
        if key_of(i.addrs@[n - 1]) == key {
            assert(exists|k: int| 0 <= k < n && key_of(#[trigger] i.addrs@[k]) == key);
        }
    }
}

/// Once the interfaces were entered, an address is found exactly if an interface has it.
pub proof fn every_address_is_found(all: Seq<Interface>, n: int, ip: IpAddr)
    requires
        0 <= n <= all.len(),
    ensures
        with_interfaces(all, n).contains_key(key_of(ip)) == exists|i: int, k: int|
            0 <= i < n && 0 <= k < (#[trigger] all[i]).addrs@.len() && key_of(
                #[trigger] all[i].addrs@[k],
            ) == key_of(ip),
    decreases n,
{
    if n > 0 {
        every_address_is_found(all, n - 1, ip);
        let last = all[n - 1];
        lemma_with_addresses(
            with_interfaces(all, n - 1),
            last,
            last.addrs@.len() as int,
            key_of(ip),
        );
        let here = exists|k: int|
            0 <= k < last.addrs@.len() && key_of(#[trigger] last.addrs@[k]) == key_of(ip);
        if here {
            let k = choose|k: int|
                0 <= k < last.addrs@.len() && key_of(#[trigger] last.addrs@[k]) == key_of(ip);
            assert(key_of(all[n - 1].addrs@[k]) == key_of(ip));
        }
        if exists|i: int, k: int|
            0 <= i < n && 0 <= k < (#[trigger] all[i]).addrs@.len() && key_of(
                #[trigger] all[i].addrs@[k],
            ) == key_of(ip) {
            let (i, k) = choose|i: int, k: int|
                0 <= i < n && 0 <= k < (#[trigger] all[i]).addrs@.len() && key_of(
                    #[trigger] all[i].addrs@[k],
                ) == key_of(ip);
            if i == n - 1 {
                assert(key_of(last.addrs@[k]) == key_of(ip));
            }
        }
    }
}

} // verus!
