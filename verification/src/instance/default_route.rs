//! Sends all traffic into the tunnel with policy routing, except what the tunnel itself
//! sends.

use crate::common::ifcfg::netlink::IpInet;
use crate::display;
use crate::display::{append_decimal, append_hex, append_ipv4};
use crate::net::{IpAddr, Ipv4Addr};
use crate::text::{joined_text, same};
use vstd::prelude::*;
use vstd::string::*;

verus! {

/// The routing table that leads into the tunnel.
pub const VPN_TABLE: u32 = 6846;

/// The priorities of the first and the last rule.
pub const RULE_PRIO_FROM_PHY: u32 = 6839;

pub const RULE_PRIO_BYPASS_DEFAULT: u32 = 6843;

/// A command, and whether the whole fails where it fails.
#[derive(Debug, Clone, PartialEq, Eq)]
pub struct Step {
    pub command: String,
    pub required: bool,
}

/// The command and whether it must succeed.
pub open spec fn step_view(s: Step) -> (Seq<char>, bool) {
    (s.command@, s.required)
}

/// The steps as text.
pub open spec fn steps_view(s: Seq<Step>) -> Seq<(Seq<char>, bool)> {
    s.map_values(|x: Step| step_view(x))
}

fn push_step(steps: &mut Vec<Step>, command: String, required: bool)
    ensures
        steps_view(final(steps)@) == steps_view(old(steps)@).push((command@, required)),
{
    let ghost text = command@;
    steps.push(Step { command, required });
    assert(steps_view(steps@) =~= steps_view(old(steps)@).push((text, required)));
}

fn literal(s: &str) -> (r: String)
    ensures
        r@ == s@,
{
    let mut out = String::new();
    out.append(s);
    assert(out@ =~= s@);
    out
}

/// Whether to go on after a step.
pub fn proceeds(step: &Step, ok: bool) -> (r: bool)
    ensures
        r == (ok || !step.required),
{
    ok || !step.required
}

/// The command that deletes the rule at a priority.
pub open spec fn delete_rule_text(prio: int) -> Seq<char> {
    "ip rule del prio "@ + display::decimal(prio)
}

fn delete_rule(prio: u32) -> (r: String)
    ensures
        r@ == delete_rule_text(prio as int),
{
    let mut out = String::new();
    out.append("ip rule del prio ");
    append_decimal(&mut out, prio as u64);
    assert(out@ =~= delete_rule_text(prio as int));
    out
}

/// The commands that delete the rules, from the first priority to the last.
pub open spec fn delete_rules_steps(n: int) -> Seq<(Seq<char>, bool)>
    decreases n,
{
    if n <= 0 {
        Seq::empty()
    } else {
        delete_rules_steps(n - 1).push((delete_rule_text(6839 + n - 1), false))
    }
}

fn push_delete_rules(steps: &mut Vec<Step>)
    ensures
        steps_view(final(steps)@) == steps_view(old(steps)@) + delete_rules_steps(5),
{
    let ghost before = steps_view(steps@);
    let mut prio: u32 = RULE_PRIO_FROM_PHY;
    assert(before + delete_rules_steps(0) =~= before);
    while prio <= RULE_PRIO_BYPASS_DEFAULT
        invariant
            6839 <= prio <= 6844,
            steps_view(steps@) == before + delete_rules_steps(prio - 6839),
        decreases 6844 - prio,
    {
        push_step(steps, delete_rule(prio), false);
        assert(before + delete_rules_steps(prio + 1 - 6839) =~= (before + delete_rules_steps(
            prio - 6839,
        )).push((delete_rule_text(prio as int), false)));
        prio += 1;
    }
}

/// The networks that stay out of the tunnel, unless a more specific route leads there.
pub open spec fn throw_cidr(i: int) -> Seq<char> {
    if i == 0 {
        "10.0.0.0/8"@
    } else if i == 1 {
        "172.16.0.0/12"@
    } else if i == 2 {
        "192.168.0.0/16"@
    } else if i == 3 {
        "169.254.0.0/16"@
    } else if i == 4 {
        "224.0.0.0/4"@
    } else {
        "255.255.255.255/32"@
    }
}

/// The step that keeps a network out of the tunnel.
pub open spec fn throw_step(i: int) -> (Seq<char>, bool) {
    ("ip route add throw "@ + throw_cidr(i) + " table 6846"@, false)
}

/// The rules by source address for the first `n` addresses.
pub open spec fn source_rules(ips: Seq<Ipv4Addr>, n: int) -> Seq<(Seq<char>, bool)>
    decreases n,
{
    if n <= 0 {
        Seq::empty()
    } else {
        source_rules(ips, n - 1).push(
            (
                "ip rule add from "@ + display::ipv4_text(ips[n - 1]) + " table main prio 6839"@,
                false,
            ),
        )
    }
}

/// A mark in hexadecimal.
pub open spec fn mark_text(mark: u32) -> Seq<char> {
    "0x"@ + display::hex(mark as int)
}

fn marked_rule(before: &str, mark: u32, after: &str) -> (r: String)
    ensures
        r@ == before@ + mark_text(mark) + after@,
{
    let mut out = String::new();
    out.append(before);
    out.append("0x");
    append_hex(&mut out, mark as u64);
    out.append(after);
    assert(out@ =~= before@ + mark_text(mark) + after@);
    out
}

/// Removes what an earlier run may have left behind: the rules at each priority, one by
/// one until none can be deleted, and the table at the end.
pub struct StaleCleanup {
    prio: u32,
}

/// The stage after a command that succeeded or failed. The first five stages delete rules
/// and are left when that fails; the sixth flushes the table and is left in any case.
pub open spec fn next_stage(stage: int, ok: bool) -> int {
    if stage < 5 && ok {
        stage
    } else if stage < 6 {
        stage + 1
    } else {
        stage
    }
}

/// The command of a stage.
pub open spec fn stage_command(stage: int) -> Option<Seq<char>> {
    if stage < 5 {
        Some(delete_rule_text(6839 + stage))
    } else if stage == 5 {
        Some("ip route flush table 6846"@)
    } else {
        None
    }
}

impl StaleCleanup {
    /// How many stages are behind.
    pub closed spec fn stage(self) -> int {
        self.prio - 6839
    }

    pub closed spec fn well_formed(self) -> bool {
        6839 <= self.prio <= 6845
    }

    /// The command to run next, if any is left.
    pub fn command(&self) -> (r: Option<String>)
        requires
            self.well_formed(),
        ensures
            match r {
                Some(c) => stage_command(self.stage()) == Some(c@),
                None => stage_command(self.stage()) is None,
            },
    {
        if self.prio <= RULE_PRIO_BYPASS_DEFAULT {
            Some(delete_rule(self.prio))
        } else if self.prio == RULE_PRIO_BYPASS_DEFAULT + 1 {
            Some(literal("ip route flush table 6846"))
        } else {
            None
        }
    }

    /// The command succeeded, or failed.
    pub fn step(&mut self, ok: bool)
        requires
            old(self).well_formed(),
        ensures
            final(self).well_formed(),
            final(self).stage() == next_stage(old(self).stage(), ok),
    {
        if self.prio <= RULE_PRIO_BYPASS_DEFAULT {
            if !ok {
                self.prio += 1;
            }
        } else if self.prio == RULE_PRIO_BYPASS_DEFAULT + 1 {
            self.prio += 1;
        }
    }
}

/// The stage after commands with the given outcomes.
pub open spec fn stage_after(outcomes: Seq<bool>) -> int
    decreases outcomes.len(),
{
    if outcomes.len() == 0 {
        0
    } else {
        next_stage(stage_after(outcomes.drop_last()), outcomes.last())
    }
}

/// How many of the commands failed.
pub open spec fn failures(outcomes: Seq<bool>) -> int
    decreases outcomes.len(),
{
    if outcomes.len() == 0 {
        0
    } else {
        failures(outcomes.drop_last()) + if outcomes.last() {
            0int
        } else {
            1
        }
    }
}

/// A priority is left only when there was no rule to delete at it: up to the flush, there
/// is one failure for each priority behind.
pub proof fn no_stale_rule_is_left(outcomes: Seq<bool>)
    requires
        stage_after(outcomes) <= 5,
    ensures
        stage_after(outcomes) == failures(outcomes),
    decreases outcomes.len(),
{
    if outcomes.len() > 0 {
        no_stale_rule_is_left(outcomes.drop_last());
    }
}

/// The kernel settings as they were.
#[derive(Debug, Clone, PartialEq, Eq)]
pub struct ActiveState {
    pub original_ip_forward: String,
    pub original_src_valid_mark: String,
}

/// Sends traffic into the tunnel, and stops doing so.
pub struct DefaultRouteManager {
    tun_ifname: String,
    socket_mark: u32,
    state: Option<ActiveState>,
}

impl DefaultRouteManager {
    /// The tunnel's interface.
    pub closed spec fn ifname(self) -> Seq<char> {
        self.tun_ifname@
    }

    /// The mark on what the tunnel itself sends.
    pub closed spec fn mark(self) -> u32 {
        self.socket_mark
    }

    /// While active, the settings as they were.
    pub closed spec fn originals(self) -> Option<(Seq<char>, Seq<char>)> {
        match self.state {
            Some(s) => Some((s.original_ip_forward@, s.original_src_valid_mark@)),
            None => None,
        }
    }

    /// Traffic goes where it always went.
    pub fn new(tun_ifname: String, socket_mark: u32) -> (r: Self)
        ensures
            r.ifname() == tun_ifname@,
            r.mark() == socket_mark,
            r.originals() is None,
    {
        DefaultRouteManager { tun_ifname, socket_mark, state: None }
    }

    /// Whether traffic goes into the tunnel.
    pub fn is_active(&self) -> (r: bool)
        ensures
            r == self.originals() is Some,
    {
        self.state.is_some()
    }

    /// Begins to remove what an earlier run may have left behind.
    pub fn cleanup_stale(&self) -> (r: StaleCleanup)
        ensures
            r.well_formed(),
            r.stage() == 0,
    {
        StaleCleanup { prio: RULE_PRIO_FROM_PHY }
    }

    /// The first part of activating: settings and the tunnel's table.
    pub open spec fn prepare_steps(self) -> Seq<(Seq<char>, bool)> {
        seq![
            ("sysctl -w net.ipv4.ip_forward=1"@, true),
            ("sysctl -w net.ipv4.conf.all.src_valid_mark=1"@, true),
            throw_step(0),
            throw_step(1),
            throw_step(2),
            throw_step(3),
            throw_step(4),
            throw_step(5),
            ("ip route add default dev "@ + self.ifname() + " table 6846"@, true),
        ]
    }

    /// The steps of activating that come before the physical addresses are looked up.
    /// None if traffic goes into the tunnel already.
    pub fn prepare(&self) -> (r: Vec<Step>)
        ensures
            steps_view(r@) == if self.originals() is Some {
                Seq::empty()
            } else {
                self.prepare_steps()
            },
    {
        let mut steps: Vec<Step> = Vec::new();
        assert(steps_view(steps@) =~= Seq::empty());
        if self.state.is_some() {
            return steps;
        }
        push_step(&mut steps, literal("sysctl -w net.ipv4.ip_forward=1"), true);
        push_step(&mut steps, literal("sysctl -w net.ipv4.conf.all.src_valid_mark=1"), true);
        push_step(
            &mut steps,
            joined_text("ip route add throw ", "10.0.0.0/8", " table 6846"),
            false,
        );
        push_step(
            &mut steps,
            joined_text("ip route add throw ", "172.16.0.0/12", " table 6846"),
            false,
        );
        push_step(
            &mut steps,
            joined_text("ip route add throw ", "192.168.0.0/16", " table 6846"),
            false,
        );
        push_step(
            &mut steps,
            joined_text("ip route add throw ", "169.254.0.0/16", " table 6846"),
            false,
        );
        push_step(
            &mut steps,
            joined_text("ip route add throw ", "224.0.0.0/4", " table 6846"),
            false,
        );
        push_step(
            &mut steps,
            joined_text("ip route add throw ", "255.255.255.255/32", " table 6846"),
            false,
        );
        push_step(
            &mut steps,
            joined_text("ip route add default dev ", self.tun_ifname.as_str(), " table 6846"),
            true,
        );
        assert(steps_view(steps@) =~= self.prepare_steps());
        steps
    }

    /// The second part of activating: the rules. What comes from a physical address stays
    /// out of the tunnel, so that connections from outside are answered the way they came.
    pub open spec fn rule_steps(self, phy_ips: Seq<Ipv4Addr>) -> Seq<(Seq<char>, bool)> {
        source_rules(phy_ips, phy_ips.len() as int) + seq![
            ("ip rule add table main suppress_prefixlength 0 prio 6840"@, true),
            (
                "ip rule add not fwmark "@ + mark_text(self.mark()) + " table 6846 prio 6841"@,
                true,
            ),
            ("ip rule add fwmark "@ + mark_text(self.mark()) + " table main prio 6842"@, true),
            ("ip rule add fwmark "@ + mark_text(self.mark()) + " table default prio 6843"@, true),
        ]
    }

    /// The steps of activating that come after the physical addresses were looked up.
    pub fn rules(&self, phy_ips: &Vec<Ipv4Addr>) -> (r: Vec<Step>)
        ensures
            steps_view(r@) == self.rule_steps(phy_ips@),
    {
        let mut steps: Vec<Step> = Vec::new();
        let mut i: usize = 0;
        assert(steps_view(steps@) =~= Seq::empty());
        while i < phy_ips.len()
            invariant
                i <= phy_ips@.len(),
                steps_view(steps@) == source_rules(phy_ips@, i as int),
            decreases phy_ips@.len() - i,
        {
            let mut command = String::new();
            command.append("ip rule add from ");
            append_ipv4(&mut command, phy_ips[i]);
            command.append(" table main prio 6839");
            assert(command@ =~= "ip rule add from "@ + display::ipv4_text(phy_ips@[i as int])
                + " table main prio 6839"@);
            push_step(&mut steps, command, false);
            i += 1;
        }
        push_step(
            &mut steps,
            literal("ip rule add table main suppress_prefixlength 0 prio 6840"),
            true,
        );
        push_step(
            &mut steps,
            marked_rule("ip rule add not fwmark ", self.socket_mark, " table 6846 prio 6841"),
            true,
        );
        push_step(
            &mut steps,
            marked_rule("ip rule add fwmark ", self.socket_mark, " table main prio 6842"),
            true,
        );
        push_step(
            &mut steps,
            marked_rule("ip rule add fwmark ", self.socket_mark, " table default prio 6843"),
            true,
        );
        assert(steps_view(steps@) =~= self.rule_steps(phy_ips@));
        steps
    }

    /// All steps succeeded: remembers the settings as they were.
    pub fn on_activated(&mut self, original_ip_forward: String, original_src_valid_mark: String)
        ensures
            final(self).ifname() == old(self).ifname(),
            final(self).mark() == old(self).mark(),
            final(self).originals() == Some((original_ip_forward@, original_src_valid_mark@)),
    {
        self.state = Some(ActiveState { original_ip_forward, original_src_valid_mark });
    }

    /// The steps that undo what activating did, and restore the settings. None if traffic
    /// does not go into the tunnel.
    pub fn deactivate(&mut self) -> (r: Vec<Step>)
        ensures
            final(self).ifname() == old(self).ifname(),
            final(self).mark() == old(self).mark(),
            final(self).originals() is None,
            steps_view(r@) == match old(self).originals() {
                None => Seq::empty(),
                Some((ip_forward, src_valid_mark)) => delete_rules_steps(5) + seq![
                    ("ip route flush table 6846"@, false),
                    ("sysctl -w net.ipv4.ip_forward="@ + ip_forward, false),
                    ("sysctl -w net.ipv4.conf.all.src_valid_mark="@ + src_valid_mark, false),
                ],
            },
    {
        let mut steps: Vec<Step> = Vec::new();
        assert(steps_view(steps@) =~= Seq::empty());
        match self.state.take() {
            None => steps,
            Some(state) => {
                push_delete_rules(&mut steps);
                push_step(&mut steps, literal("ip route flush table 6846"), false);
                push_step(
                    &mut steps,
                    joined_text(
                        "sysctl -w net.ipv4.ip_forward=",
                        state.original_ip_forward.as_str(),
                        "",
                    ),
                    false,
                );
                push_step(
                    &mut steps,
                    joined_text(
                        "sysctl -w net.ipv4.conf.all.src_valid_mark=",
                        state.original_src_valid_mark.as_str(),
                        "",
                    ),
                    false,
                );
                proof {
                    reveal_strlit("");
                    let a = state.original_ip_forward@;
                    let b = state.original_src_valid_mark@;
                    assert("sysctl -w net.ipv4.ip_forward="@ + a + ""@
                        =~= "sysctl -w net.ipv4.ip_forward="@ + a);
                    assert("sysctl -w net.ipv4.conf.all.src_valid_mark="@ + b + ""@
                        =~= "sysctl -w net.ipv4.conf.all.src_valid_mark="@ + b);
                    assert(steps_view(steps@) =~= delete_rules_steps(5) + seq![
                        ("ip route flush table 6846"@, false),
                        ("sysctl -w net.ipv4.ip_forward="@ + a, false),
                        ("sysctl -w net.ipv4.conf.all.src_valid_mark="@ + b, false),
                    ]);
                }
                steps
            },
        }
    }

    /// One script that undoes the rules and the table, for when nothing can be awaited.
    pub fn generate_cleanup_script(&self) -> (r: String)
        ensures
            r@ == script_text(5) + "ip route flush table 6846 2>/dev/null"@,
    {
        let mut out = String::new();
        let mut prio: u32 = RULE_PRIO_FROM_PHY;
        assert(out@ =~= script_text(0));
        while prio <= RULE_PRIO_BYPASS_DEFAULT
            invariant
                6839 <= prio <= 6844,
                out@ == script_text(prio - 6839),
            decreases 6844 - prio,
        {
            let ghost before = out@;
            out.append("ip rule del prio ");
            append_decimal(&mut out, prio as u64);
            out.append(" 2>/dev/null;");
            assert(out@ =~= before + delete_rule_text(prio as int) + " 2>/dev/null;"@);
            prio += 1;
        }
        out.append("ip route flush table 6846 2>/dev/null");
        out
    }
}

/// The commands that delete the first `n` rules, one after the other.
pub open spec fn script_text(n: int) -> Seq<char>
    decreases n,
{
    if n <= 0 {
        Seq::empty()
    } else {
        script_text(n - 1) + delete_rule_text(6839 + n - 1) + " 2>/dev/null;"@
    }
}

// --- Physical addresses ---

/// A route and the name of its interface, where it has one.
#[derive(Debug, Clone)]
pub struct NamedRoute {
    pub destination: IpAddr,
    pub prefix: u8,
    pub ifindex: Option<u32>,
    pub ifname: Option<String>,
}

/// The route is a default route that leads elsewhere than into the tunnel.
pub open spec fn is_physical_default(r: NamedRoute, tun_ifname: Seq<char>) -> bool {
    &&& r.destination == IpAddr::V4(Ipv4Addr { bits: 0 })
    &&& r.prefix == 0
    &&& r.ifindex is Some
    &&& !(r.ifname is Some && r.ifname->0@ == tun_ifname)
}

/// Some route is a default route that leads elsewhere than into the tunnel.
pub open spec fn some_physical_default(routes: Seq<NamedRoute>, tun_ifname: Seq<char>) -> bool {
    exists|k: int| 0 <= k < routes.len() && is_physical_default(#[trigger] routes[k], tun_ifname)
}

/// The route whose interface carries the traffic now: the first default route that leads
/// elsewhere than into the tunnel.
pub fn physical_route(routes: &Vec<NamedRoute>, tun_ifname: &str) -> (r: Option<usize>)
    ensures
        match r {
            Some(i) => {
                &&& i < routes@.len()
                &&& is_physical_default(routes@[i as int], tun_ifname@)
                &&& forall|k: int|
                    0 <= k < i ==> !is_physical_default(#[trigger] routes@[k], tun_ifname@)
            },
            None => forall|k: int|
                0 <= k < routes@.len() ==> !is_physical_default(#[trigger] routes@[k], tun_ifname@),
        },
        r is Some == some_physical_default(routes@, tun_ifname@),
{
    let mut i: usize = 0;
    while i < routes.len()
        invariant
            i <= routes@.len(),
            forall|k: int|
                0 <= k < i ==> !is_physical_default(#[trigger] routes@[k], tun_ifname@),
        decreases routes@.len() - i,
    {
        let e: &NamedRoute = &routes[i];
        let into_tunnel: bool = match &e.ifname {
            Some(name) => same(name.as_str(), tun_ifname),
            None => false,
        };
        if e.destination == IpAddr::V4(Ipv4Addr { bits: 0 }) && e.prefix == 0
            && e.ifindex.is_some() && !into_tunnel {
            return Some(i);
        }
        i += 1;
    }
    None
}

/// The IPv4 addresses among the first `n`, in order.
pub open spec fn ipv4_of(addrs: Seq<IpInet>, n: int) -> Seq<Ipv4Addr>
    decreases n,
{
    if n <= 0 {
        Seq::empty()
    } else {
        match addrs[n - 1].address {
            IpAddr::V4(a) => ipv4_of(addrs, n - 1).push(a),
            IpAddr::V6(_) => ipv4_of(addrs, n - 1),
        }
    }
}

/// The IPv4 addresses of an interface.
pub fn ipv4_addresses(addrs: &Vec<IpInet>) -> (r: Vec<Ipv4Addr>)
    ensures
        r@ == ipv4_of(addrs@, addrs@.len() as int),
{
    let mut out: Vec<Ipv4Addr> = Vec::new();
    let mut i: usize = 0;
    while i < addrs.len()
        invariant
            i <= addrs@.len(),
            out@ == ipv4_of(addrs@, i as int),
        decreases addrs@.len() - i,
    {
        if let IpAddr::V4(a) = addrs[i].address {
            out.push(a);
        }
        i += 1;
    }
    out
}

/// Deactivating deletes a rule at every priority at which activating adds one.
pub proof fn every_rule_is_deleted(prio: int)
    requires
        6839 <= prio <= 6843,
    ensures
        delete_rules_steps(5).contains((delete_rule_text(prio), false)),
{
    reveal_with_fuel(delete_rules_steps, 6);
    let s = delete_rules_steps(5);
    assert(s[prio - 6839] == (delete_rule_text(prio), false));
}

} // verus!
