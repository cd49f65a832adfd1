//! Commands that keep the kernel silent on connections that are continued in user space.

use crate::display;
use crate::net::{IpAddr, SocketAddr};
use crate::socket::fake_tcp::guard::nft::{Guard, Setup, SetupStage};
use crate::socket::fake_tcp::guard::pf::{PfState, PfStep, Tuple};
use crate::socket::fake_tcp::guard::windivert::FamilyMismatch;
use crate::socket::fake_tcp::guard::{nft, pf, windivert};
use crate::text;
use crate::tunnel::fake_tcp::netfilter_guard::NftGuard;
use crate::tunnel::fake_tcp::pf_guard::{PfAnchors, PfGuard};
use crate::tunnel::fake_tcp::{netfilter_guard, pf_guard};
use vstd::prelude::*;

verus! {

// --- nftables ---

/// The connection between two addresses, as the sets hold it: source and destination, each
/// with its port.
pub open spec fn connection(local: SocketAddr, remote: SocketAddr) -> Seq<char> {
    display::ip_text(local.ip) + (" . "@ + (display::decimal(local.port as int) + (" . "@ + (
    display::ip_text(remote.ip) + (" . "@ + display::decimal(remote.port as int))))))
}

/// The command on the set of the local address's family.
pub open spec fn set_command(verb: Seq<char>, local: SocketAddr, remote: SocketAddr) -> Seq<char> {
    verb + (" element inet easytier_faketcp "@ + ((if local.ip is V4 {
        "conns4"@
    } else {
        "conns6"@
    }) + (" { "@ + (connection(local, remote) + " }"@))))
}

proof fn lemma_command(verb: Seq<char>, local: SocketAddr, remote: SocketAddr)
    ensures
        nft::guard_command(verb, local, remote) == set_command(verb, local, remote),
        nft::element_text(local, remote) == connection(local, remote),
{
    assert(nft::element_text(local, remote) =~= connection(local, remote));
    assert(nft::guard_command(verb, local, remote) =~= set_command(verb, local, remote));
}

/// A guard adds its connection to the set of its family, and deletes what it added and
/// nothing else. Without the table, and between families, it does nothing.
pub proof fn guard_deletes_what_it_added(
    ready: bool,
    local: SocketAddr,
    remote: SocketAddr,
    ok: bool,
    made: (Guard, Option<String>),
    g: &mut Guard,
    undo: Option<String>,
)
    requires
        call_ensures(Guard::new, (ready, local, remote), made),
        call_ensures(Guard::on_installed, (g, ok), ()),
        *old(g) == made.0,
        call_ensures(Guard::withdrawal, (&*final(g),), undo),
    ensures
        ({
            let alike = (local.ip is V4) == (remote.ip is V4);
            &&& made.1 is Some == (ready && alike)
            &&& made.1 matches Some(c) ==> c@ == set_command("add"@, local, remote)
            &&& undo is Some == (ok && alike)
            &&& undo matches Some(c) ==> c@ == set_command("delete"@, local, remote)
            &&& final(g).active == ok && final(g).local_addr == local && final(g).remote_addr
                == remote
        }),
{
    lemma_command("add"@, local, remote);
    lemma_command("delete"@, local, remote);
}

/// The tunnel's guards do the same in the same table.
pub proof fn tunnel_guard_deletes_what_it_added(
    ready: bool,
    local: SocketAddr,
    remote: SocketAddr,
    ok: bool,
    made: (NftGuard, Option<String>),
    g: &mut NftGuard,
    undo: Option<String>,
)
    requires
        call_ensures(NftGuard::new, (ready, local, remote), made),
        call_ensures(NftGuard::on_installed, (g, ok), ()),
        *old(g) == made.0,
        call_ensures(NftGuard::withdrawal, (&*final(g),), undo),
    ensures
        made.1 is Some == ready,
        made.1 matches Some(c) ==> c@ == set_command("add"@, local, remote),
        undo is Some == ok,
        undo matches Some(c) ==> c@ == set_command("delete"@, local, remote),
{
    lemma_command("add"@, local, remote);
    lemma_command("delete"@, local, remote);
}

/// The table is set up in seven commands, of which the first clears what was left and may
/// fail. A failure behind the second takes the table down again.
pub proof fn table_is_set_up_in_order(s: &mut Setup, ok: bool)
    requires
        call_ensures(Setup::step, (s, ok), ()),
    ensures
        ({
            let from = old(s).stage;
            let to = final(s).stage;
            &&& from == SetupStage::DeleteStale ==> to == SetupStage::AddTable
            &&& from == SetupStage::AddTable && !ok ==> to == SetupStage::Failed
            &&& from == SetupStage::AddTable && ok ==> to == SetupStage::AddSetV4
            &&& from == SetupStage::AddSetV4 && ok ==> to == SetupStage::AddSetV6
            &&& from == SetupStage::AddSetV6 && ok ==> to == SetupStage::AddChain
            &&& from == SetupStage::AddChain && ok ==> to == SetupStage::AddRuleV4
            &&& from == SetupStage::AddRuleV4 && ok ==> to == SetupStage::AddRuleV6
            &&& from == SetupStage::AddRuleV6 && ok ==> to == SetupStage::Ready
            &&& !ok && (from == SetupStage::AddSetV4 || from == SetupStage::AddSetV6 || from
                == SetupStage::AddChain || from == SetupStage::AddRuleV4 || from
                == SetupStage::AddRuleV6) ==> to == SetupStage::RollBack
            &&& from == SetupStage::RollBack || from == SetupStage::Failed ==> to
                == SetupStage::Failed
            &&& from == SetupStage::Ready ==> to == SetupStage::Ready
        }),
{
}

/// The commands of the setup: what is dropped is what leaves on a connection of a set.
pub proof fn setup_commands(s: Setup, ready: bool, fresh: Setup, r: Option<&'static str>)
    requires
        call_ensures(Setup::command, (&s,), r),
        call_ensures(Setup::new, (ready,), fresh),
    ensures
        fresh.stage == SetupStage::Ready <==> ready,
        fresh.stage == SetupStage::DeleteStale <==> !ready,
        r is None == (s.stage == SetupStage::Ready || s.stage == SetupStage::Failed),
        s.stage == SetupStage::DeleteStale || s.stage == SetupStage::RollBack ==> (r->0)@
            == "delete table inet easytier_faketcp"@,
        s.stage == SetupStage::AddTable ==> (r->0)@ == "add table inet easytier_faketcp"@,
        s.stage == SetupStage::AddSetV4 ==> (r->0)@
            == "add set inet easytier_faketcp conns4 { type ipv4_addr . inet_service . ipv4_addr . inet_service ; }"@,
        s.stage == SetupStage::AddSetV6 ==> (r->0)@
            == "add set inet easytier_faketcp conns6 { type ipv6_addr . inet_service . ipv6_addr . inet_service ; }"@,
        s.stage == SetupStage::AddChain ==> (r->0)@
            == "add chain inet easytier_faketcp output { type filter hook output priority 0 ; policy accept ; }"@,
        s.stage == SetupStage::AddRuleV4 ==> (r->0)@
            == "add rule inet easytier_faketcp output meta l4proto tcp ip saddr . tcp sport . ip daddr . tcp dport @conns4 drop"@,
        s.stage == SetupStage::AddRuleV6 ==> (r->0)@
            == "add rule inet easytier_faketcp output meta l4proto tcp ip6 saddr . tcp sport . ip6 daddr . tcp dport @conns6 drop"@,
{
}

/// The table is taken down once.
pub proof fn table_is_taken_down_once(
    ready: &mut bool,
    still: &mut bool,
    r: Option<&'static str>,
    again: Option<&'static str>,
)
    requires
        call_ensures(nft::cleanup_all, (ready,), r),
        call_ensures(nft::cleanup_all, (still,), again),
        *old(still) == *final(ready),
    ensures
        r is Some == *old(ready),
        r matches Some(c) ==> c@ == "delete table inet easytier_faketcp"@,
        again is None,
{
}

/// A failed program is reported by what it printed, or by how it ended.
pub proof fn failure_is_reported(program: &str, status: &str, stderr: &str, r: String)
    requires
        call_ensures(nft::failure_text, (program, status, stderr), r),
    ensures
        text::trimmed(stderr@).len() > 0 ==> r@ == text::trimmed(stderr@),
        text::trimmed(stderr@).len() == 0 ==> r@ == program@ + (" exited with "@ + status@),
{
    assert(program@ + " exited with "@ + status@ =~= program@ + (" exited with "@ + status@));
}

// --- pf ---

/// The rule that blocks what leaves on a connection.
pub open spec fn block_rule(local: SocketAddr, remote: SocketAddr) -> Seq<char> {
    let family = if local.ip is V4 {
        "inet"@
    } else {
        "inet6"@
    };
    "block drop out quick "@ + family + " proto tcp from "@ + display::ip_text(local.ip) + " port "@
        + display::decimal(local.port as int) + " to "@ + display::ip_text(remote.ip) + " port "@
        + display::decimal(remote.port as int) + "\n"@
}

/// The rules of connections, one behind the other.
pub open spec fn block_rules(s: Seq<Tuple>) -> Seq<char>
    decreases s.len(),
{
    if s.len() == 0 {
        Seq::empty()
    } else {
        block_rules(s.drop_last()) + if (s.last().0.ip is V4) == (s.last().1.ip is V4) {
            block_rule(s.last().0, s.last().1)
        } else {
            Seq::empty()
        }
    }
}

proof fn lemma_rule(local: SocketAddr, remote: SocketAddr)
    ensures
        pf::rule_text(local, remote) == block_rule(local, remote),
{
}

proof fn lemma_rules(s: Seq<Tuple>)
    ensures
        pf::rules_text(s) == block_rules(s),
    decreases s.len(),
{
    if s.len() > 0 {
        lemma_rules(s.drop_last());
        lemma_rule(s.last().0, s.last().1);
    }
}

/// A connection within a family has its rule, and one between families none.
pub proof fn connection_has_a_rule(local: SocketAddr, remote: SocketAddr, r: Option<String>)
    requires
        call_ensures(pf::rule_for, (&local, &remote), r),
    ensures
        r is Some == ((local.ip is V4) == (remote.ip is V4)),
        r matches Some(rule) ==> rule@ == block_rule(local, remote),
{
    lemma_rule(local, remote);
}

/// Suppressing a connection: pf is enabled first where it is not held yet; then the rules of
/// all connections are loaded, with the new one among them.
pub proof fn connection_is_suppressed_with_the_others(
    s: &mut PfState,
    local: SocketAddr,
    remote: SocketAddr,
    step: PfStep,
    t: &mut PfState,
    token: Option<String>,
    rules: String,
)
    requires
        call_ensures(PfState::begin, (s, local, remote), step),
        call_ensures(PfState::on_enabled, (t, token, local, remote), rules),
    ensures
        ({
            let alike = (local.ip is V4) == (remote.ip is V4);
            &&& step is Inactive == !alike
            &&& step is Enable == (alike && old(s).reference() is None)
            &&& !(step is Load) ==> final(s).live() == old(s).live()
            &&& step matches PfStep::Load(text) ==> text@ == block_rules(final(s).list())
                && final(s).live() == old(s).live().insert((local, remote))
            &&& final(s).reference() == old(s).reference()
            &&& final(t).live() == old(t).live().insert((local, remote))
            &&& rules@ == block_rules(final(t).list())
            &&& token matches Some(k) ==> final(t).reference() == Some(k@)
            &&& token is None ==> final(t).reference() is None
        }),
{
    lemma_rules(final(s).list());
    lemma_rules(final(t).list());
    assert(old(s).list() == final(s).list() ==> old(s).live() == final(s).live());
}

/// A guard that is dropped takes its own rule out, and the last one releases pf. One that
/// could not be loaded leaves nothing behind.
pub proof fn last_guard_releases_pf(
    s: &mut PfState,
    guard: pf::Guard,
    r: Option<(String, Option<String>)>,
    t: &mut PfState,
    ok: bool,
    made: (pf::Guard, Option<String>),
)
    requires
        call_ensures(PfState::withdraw, (s, &guard), r),
        call_ensures(PfState::on_loaded, (t, guard.local_addr, guard.remote_addr, ok), made),
    ensures
        ({
            let gone = (guard.local_addr, guard.remote_addr);
            &&& r is Some == guard.active
            &&& !guard.active ==> final(s).live() == old(s).live() && final(s).reference()
                == old(s).reference()
            &&& r matches Some((rules, token)) ==> {
                &&& final(s).live() == old(s).live().remove(gone)
                &&& rules@ == block_rules(final(s).list())
                &&& final(s).list().len() > 0 ==> token is None && final(s).reference()
                    == old(s).reference()
                &&& final(s).list().len() == 0 ==> final(s).reference() is None && (token is Some
                    == old(s).reference() is Some) && (token matches Some(k) ==> Some(k@)
                    == old(s).reference())
            }
            &&& made.0.active == ok && made.0.local_addr == guard.local_addr && made.0.remote_addr
                == guard.remote_addr
            &&& ok ==> made.1 is None && final(t).live() == old(t).live() && final(t).reference()
                == old(t).reference()
            &&& !ok ==> final(t).live() == old(t).live().remove(gone)
            &&& !ok && final(t).list().len() == 0 ==> final(t).reference() is None && (
            made.1 is Some == old(t).reference() is Some)
            &&& !ok && final(t).list().len() > 0 ==> made.1 is None
        }),
{
    lemma_rules(final(s).list());
    assert(old(s).list() == final(s).list() ==> old(s).live() == final(s).live());
    assert(old(t).list() == final(t).list() ==> old(t).live() == final(t).live());
}

/// Cleaning up forgets all connections and releases pf once.
pub proof fn cleaning_up_releases_pf(
    s: &mut PfState,
    u: &mut PfState,
    r: Option<String>,
    again: Option<String>,
)
    requires
        call_ensures(PfState::cleanup_all, (s,), r),
        call_ensures(PfState::cleanup_all, (u,), again),
        *old(u) == *final(s),
    ensures
        r is Some == old(s).reference() is Some,
        r matches Some(k) ==> Some(k@) == old(s).reference(),
        again is None,
        final(s).list().len() == 0,
{
}

/// The order of connections: by the local address and then the remote one; of addresses the
/// IPv4 ones come first, then the numbers decide, and then the ports.
pub proof fn connections_are_ordered_by_address(a: SocketAddr, b: SocketAddr, x: SocketAddr, y: SocketAddr)
    ensures
        a.ip is V4 && b.ip is V6 ==> pf::addr_before(a, b) && !pf::addr_before(b, a),
        a.ip matches IpAddr::V4(p) && b.ip matches IpAddr::V4(q) && p.bits < q.bits
            ==> pf::addr_before(a, b),
        a.ip == b.ip ==> pf::addr_before(a, b) == (a.port < b.port),
        a.ip matches IpAddr::V6(p) && b.ip matches IpAddr::V6(q) && (p.high < q.high || (p.high
            == q.high && p.low < q.low)) ==> pf::addr_before(a, b),
        pf::addr_before(a, b) ==> pf::tuple_before((a, x), (b, y)),
        pf::tuple_before((a, x), (a, y)) == pf::addr_before(x, y),
        !(pf::addr_before(a, b) && pf::addr_before(b, a)),
{
}

/// The reference is what the first line that begins with its name says behind it.
pub proof fn reference_is_read_from_its_line(line: Seq<char>, rest: Seq<Seq<char>>, value: Seq<char>)
    ensures
        pf::token_from(Seq::empty()) is None,
        pf::token_from(seq!["Token : "@ + value] + rest) == Some(text::trimmed(value)),
        !text::has_prefix(line, "Token : "@) ==> pf::token_from(seq![line] + rest)
            == pf::token_from(rest),
{
    reveal_strlit("Token : ");
    let s = seq!["Token : "@ + value] + rest;
    assert(("Token : "@ + value).take(8) =~= "Token : "@);
    assert(("Token : "@ + value).skip(8) =~= value);
    assert(s[0] == "Token : "@ + value);
    let t = seq![line] + rest;
    assert(t.drop_first() =~= rest);
    assert(t[0] == line);
}

/// Each of the tunnel's connections has an anchor of its own, numbered in order while pf is
/// enabled; only a rule that was loaded is taken out.
pub proof fn anchors_are_numbered(
    anchors: &mut PfAnchors,
    local: SocketAddr,
    remote: SocketAddr,
    made: (PfGuard, Option<String>),
    g: &mut PfGuard,
    ok: bool,
    undo: Option<&String>,
)
    requires
        call_ensures(PfGuard::new, (anchors, local, remote), made),
        call_ensures(PfGuard::on_loaded, (g, ok), ()),
        *old(g) == made.0,
        call_ensures(PfGuard::withdrawal, (&*final(g),), undo),
    ensures
        ({
            let alike = (local.ip is V4) == (remote.ip is V4);
            let on = old(anchors).enabled;
            &&& made.1 is Some == (on && alike)
            &&& on ==> final(anchors).next_id == (old(anchors).next_id + 1)
                % 0x1_0000_0000_0000_0000
            &&& !on ==> final(anchors).next_id == old(anchors).next_id
            &&& final(anchors).enabled == on
            &&& made.1 matches Some(rule) ==> rule@ == block_rule(local, remote)
                && made.0.anchor@ == "com.easytier.faketcp/"@ + display::decimal(
                old(anchors).next_id as int,
            )
            &&& undo is Some == ok
            &&& undo matches Some(a) ==> a@ == made.0.anchor@
        }),
{
    lemma_rule(local, remote);
}

/// pf is enabled until that succeeded.
pub proof fn pf_is_enabled_until_it_is(a: &mut PfAnchors, ok: bool, fresh: PfAnchors, before: bool, after: bool)
    requires
        call_ensures(PfAnchors::new, (), fresh),
        call_ensures(PfAnchors::needs_enabling, (&*old(a),), before),
        call_ensures(PfAnchors::on_enabled, (a, ok), ()),
        call_ensures(PfAnchors::needs_enabling, (&*final(a),), after),
    ensures
        before == !old(a).enabled,
        after == !ok,
        final(a).next_id == old(a).next_id,
        !fresh.enabled && fresh.next_id == 0,
{
}

// --- WinDivert ---

/// What is diverted: resets that leave from the one address to the other.
pub proof fn resets_are_diverted(
    local: SocketAddr,
    remote: SocketAddr,
    r: Result<String, FamilyMismatch>,
)
    requires
        call_ensures(windivert::build_rst_filter, (local, remote), r),
    ensures
        r is Ok == ((local.ip is V4) == (remote.ip is V4)),
        r matches Ok(filter) ==> {
            let p = if local.ip is V4 {
                "ip"@
            } else {
                "ipv6"@
            };
            filter@ == "outbound and tcp.Rst and "@ + p + ".SrcAddr == "@ + display::ip_text(local.ip)
                + " and tcp.SrcPort == "@ + display::decimal(local.port as int) + " and "@ + p
                + ".DstAddr == "@ + display::ip_text(remote.ip) + " and tcp.DstPort == "@
                + display::decimal(remote.port as int)
        },
{
}

/// A connection belongs to the set of its family; one between two families to none.
pub proof fn connection_belongs_to_a_set(
    local: SocketAddr,
    remote: SocketAddr,
    verb: &str,
    set: &str,
    elem: &str,
    whole: String,
    found: Option<(String, &'static str)>,
    kept: (String, &'static str),
    command: String,
)
    requires
        call_ensures(nft::element, (&local, &remote), whole),
        call_ensures(nft::format_element, (&local, &remote), found),
        call_ensures(netfilter_guard::format_element, (&local, &remote), kept),
        call_ensures(nft::element_command, (verb, set, elem), command),
    ensures
        whole@ == connection(local, remote),
        found is Some == ((local.ip is V4) == (remote.ip is V4)),
        found matches Some((e, s)) ==> e@ == whole@ && s@ == kept.1@,
        kept.0@ == whole@,
        local.ip is V4 ==> kept.1@ == "conns4"@,
        local.ip is V6 ==> kept.1@ == "conns6"@,
        command@ == verb@ + " element inet easytier_faketcp "@ + set@ + " { "@ + elem@ + " }"@,
{
    lemma_command(verb@, local, remote);
}

/// pf's reference is read from what it printed, line by line.
pub proof fn reference_is_read_from_the_output(output: &str, r: Option<String>)
    requires
        call_ensures(pf::token_in, (output,), r),
    ensures
        ({
            let all = text::lines_of(output@);
            &&& r is Some == pf::token_from(all) is Some
            &&& r matches Some(t) ==> pf::token_from(all) == Some(t@)
        }),
{
}

} // verus!
