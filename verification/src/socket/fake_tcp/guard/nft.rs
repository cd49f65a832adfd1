//! Drops what the kernel sends on taken-over connections, with nftables.
//!
//! One table holds a chain on the `output` hook and a set of connections for each address
//! family. A connection is one element of a set.

use crate::display;
use crate::display::{append_decimal, append_ip};
use crate::net;
use crate::net::{IpAddr, SocketAddr};
use crate::text;
use crate::text::{joined_text, trim};
use vstd::prelude::*;
use vstd::string::*;

verus! {

/// The set of IPv4 connections.
pub open spec fn set_v4() -> Seq<char> {
    "conns4"@
}

/// The set of IPv6 connections.
pub open spec fn set_v6() -> Seq<char> {
    "conns6"@
}

/// A connection as an element of a set: source, source port, destination and destination
/// port, which on the `output` hook is local before remote.
pub open spec fn element_text(local: SocketAddr, remote: SocketAddr) -> Seq<char> {
    display::ip_text(local.ip) + " . "@ + display::decimal(local.port as int) + " . "@
        + display::ip_text(remote.ip) + " . "@ + display::decimal(remote.port as int)
}

/// Writes a connection as an element of a set.
pub fn element(local: &SocketAddr, remote: &SocketAddr) -> (r: String)
    ensures
        r@ == element_text(*local, *remote),
{
    let mut out = String::new();
    append_ip(&mut out, local.ip);
    out.append(" . ");
    append_decimal(&mut out, local.port as u64);
    out.append(" . ");
    append_ip(&mut out, remote.ip);
    out.append(" . ");
    append_decimal(&mut out, remote.port as u64);
    assert(out@ =~= element_text(*local, *remote));
    out
}

/// The element for a connection and the set that it belongs to. Addresses of two families
/// belong to none.
pub fn format_element(local: &SocketAddr, remote: &SocketAddr) -> (r: Option<
    (String, &'static str),
>)
    ensures
        r is Some == net::same_family(*local, *remote),
        r matches Some((elem, set)) ==> {
            &&& elem@ == element_text(*local, *remote)
            &&& set@ == if local.ip is V4 {
                set_v4()
            } else {
                set_v6()
            }
        },
{
    let set_name: &'static str = match (local.ip, remote.ip) {
        (IpAddr::V4(_), IpAddr::V4(_)) => "conns4",
        (IpAddr::V6(_), IpAddr::V6(_)) => "conns6",
        _ => return None,
    };
    Some((element(local, remote), set_name))
}

/// The command that adds a connection to the table, or deletes it.
pub open spec fn element_command_text(verb: Seq<char>, set: Seq<char>, elem: Seq<char>) -> Seq<
    char,
> {
    verb + " element inet easytier_faketcp "@ + set + " { "@ + elem + " }"@
}

/// Writes the command that adds an element or deletes it.
pub fn element_command(verb: &str, set: &str, elem: &str) -> (r: String)
    ensures
        r@ == element_command_text(verb@, set@, elem@),
{
    let mut out = String::new();
    out.append(verb);
    out.append(" element inet easytier_faketcp ");
    out.append(set);
    out.append(" { ");
    out.append(elem);
    out.append(" }");
    assert(out@ =~= element_command_text(verb@, set@, elem@));
    out
}

// --- The table ---

/// How far the table is set up.
#[derive(Debug, Clone, Copy, PartialEq, Eq, Structural)]
pub enum SetupStage {
    /// Delete what an earlier run left behind.
    DeleteStale,
    AddTable,
    AddSetV4,
    AddSetV6,
    AddChain,
    AddRuleV4,
    AddRuleV6,
    /// A step failed: delete the table again.
    RollBack,
    Ready,
    Failed,
}

/// Sets the table up, one command after the other.
#[derive(Debug, Clone, Copy, PartialEq, Eq, Structural)]
pub struct Setup {
    pub stage: SetupStage,
}

impl Setup {
    /// Begins, unless the table is there already.
    pub fn new(ready: bool) -> (r: Self)
        ensures
            r.stage == if ready {
                SetupStage::Ready
            } else {
                SetupStage::DeleteStale
            },
    {
        Setup {
            stage: if ready {
                SetupStage::Ready
            } else {
                SetupStage::DeleteStale
            },
        }
    }

    /// The command of a stage; none once the setup is over.
    pub open spec fn command_text(self) -> Option<Seq<char>> {
        match self.stage {
            SetupStage::DeleteStale | SetupStage::RollBack => Some(
                "delete table inet easytier_faketcp"@,
            ),
            SetupStage::AddTable => Some("add table inet easytier_faketcp"@),
            SetupStage::AddSetV4 => Some(
                "add set inet easytier_faketcp conns4 { type ipv4_addr . inet_service . ipv4_addr . inet_service ; }"@,
            ),
            SetupStage::AddSetV6 => Some(
                "add set inet easytier_faketcp conns6 { type ipv6_addr . inet_service . ipv6_addr . inet_service ; }"@,
            ),
            SetupStage::AddChain => Some(
                "add chain inet easytier_faketcp output { type filter hook output priority 0 ; policy accept ; }"@,
            ),
            SetupStage::AddRuleV4 => Some(
                "add rule inet easytier_faketcp output meta l4proto tcp ip saddr . tcp sport . ip daddr . tcp dport @conns4 drop"@,
            ),
            SetupStage::AddRuleV6 => Some(
                "add rule inet easytier_faketcp output meta l4proto tcp ip6 saddr . tcp sport . ip6 daddr . tcp dport @conns6 drop"@,
            ),
            SetupStage::Ready | SetupStage::Failed => None,
        }
    }

    /// The command to run next; none once the setup is over.
    pub fn command(&self) -> (r: Option<&'static str>)
        ensures
            r is Some == self.command_text() is Some,
            r matches Some(c) ==> c@ == self.command_text()->0,
    {
        match self.stage {
            SetupStage::DeleteStale | SetupStage::RollBack => Some(
                "delete table inet easytier_faketcp",
            ),
            SetupStage::AddTable => Some("add table inet easytier_faketcp"),
            SetupStage::AddSetV4 => Some(
                "add set inet easytier_faketcp conns4 { type ipv4_addr . inet_service . ipv4_addr . inet_service ; }",
            ),
            SetupStage::AddSetV6 => Some(
                "add set inet easytier_faketcp conns6 { type ipv6_addr . inet_service . ipv6_addr . inet_service ; }",
            ),
            SetupStage::AddChain => Some(
                "add chain inet easytier_faketcp output { type filter hook output priority 0 ; policy accept ; }",
            ),
            SetupStage::AddRuleV4 => Some(
                "add rule inet easytier_faketcp output meta l4proto tcp ip saddr . tcp sport . ip daddr . tcp dport @conns4 drop",
            ),
            SetupStage::AddRuleV6 => Some(
                "add rule inet easytier_faketcp output meta l4proto tcp ip6 saddr . tcp sport . ip6 daddr . tcp dport @conns6 drop",
            ),
            SetupStage::Ready | SetupStage::Failed => None,
        }
    }

    /// The setup is over.
    pub open spec fn is_over(self) -> bool {
        self.stage == SetupStage::Ready || self.stage == SetupStage::Failed
    }

    /// The setup after its command succeeded or failed.
    pub open spec fn stepped(self, ok: bool) -> Setup {
        let stage = match self.stage {
            SetupStage::DeleteStale => SetupStage::AddTable,
            SetupStage::AddTable => if ok { SetupStage::AddSetV4 } else { SetupStage::Failed },
            SetupStage::AddSetV4 => if ok { SetupStage::AddSetV6 } else { SetupStage::RollBack },
            SetupStage::AddSetV6 => if ok { SetupStage::AddChain } else { SetupStage::RollBack },
            SetupStage::AddChain => if ok { SetupStage::AddRuleV4 } else { SetupStage::RollBack },
            SetupStage::AddRuleV4 => if ok { SetupStage::AddRuleV6 } else { SetupStage::RollBack },
            SetupStage::AddRuleV6 => if ok { SetupStage::Ready } else { SetupStage::RollBack },
            SetupStage::RollBack => SetupStage::Failed,
            SetupStage::Ready | SetupStage::Failed => self.stage,
        };
        Setup { stage }
    }

    /// Takes the outcome of the command.
    pub fn step(&mut self, ok: bool)
        ensures
            *final(self) == old(self).stepped(ok),
    {
        self.stage = match self.stage {
            SetupStage::DeleteStale => SetupStage::AddTable,
            SetupStage::AddTable => if ok { SetupStage::AddSetV4 } else { SetupStage::Failed },
            SetupStage::AddSetV4 => if ok { SetupStage::AddSetV6 } else { SetupStage::RollBack },
            SetupStage::AddSetV6 => if ok { SetupStage::AddChain } else { SetupStage::RollBack },
            SetupStage::AddChain => if ok { SetupStage::AddRuleV4 } else { SetupStage::RollBack },
            SetupStage::AddRuleV4 => if ok { SetupStage::AddRuleV6 } else { SetupStage::RollBack },
            SetupStage::AddRuleV6 => if ok { SetupStage::Ready } else { SetupStage::RollBack },
            SetupStage::RollBack => SetupStage::Failed,
            SetupStage::Ready => SetupStage::Ready,
            SetupStage::Failed => SetupStage::Failed,
        };
    }

    /// The setup after a run of commands with these outcomes.
    pub open spec fn run(self, outcomes: Seq<bool>) -> Setup
        decreases outcomes.len(),
    {
        if outcomes.len() == 0 {
            self
        } else {
            self.stepped(outcomes[0]).run(outcomes.drop_first())
        }
    }

    /// How many commands have been run before this stage, at most.
    pub open spec fn progress(self) -> int {
        match self.stage {
            SetupStage::DeleteStale => 0,
            SetupStage::AddTable => 1,
            SetupStage::AddSetV4 => 2,
            SetupStage::AddSetV6 => 3,
            SetupStage::AddChain => 4,
            SetupStage::AddRuleV4 => 5,
            SetupStage::AddRuleV6 => 6,
            SetupStage::RollBack => 7,
            SetupStage::Ready | SetupStage::Failed => 8,
        }
    }
}

proof fn lemma_run_over(s: Setup, outcomes: Seq<bool>)
    requires
        s.is_over(),
    ensures
        s.run(outcomes) == s,
    decreases outcomes.len(),
{
    if outcomes.len() > 0 {
        lemma_run_over(s, outcomes.drop_first());
    }
}

/// The setup ends after eight commands at most, and it ends well only if every command
/// but the first succeeded.
pub proof fn ready_means_all_is_there(s: Setup, outcomes: Seq<bool>)
    requires
        !s.is_over(),
    ensures
        outcomes.len() >= 8 - s.progress() ==> s.run(outcomes).is_over(),
        s.run(outcomes).stage == SetupStage::Ready ==> {
            &&& s.stage != SetupStage::RollBack
            &&& outcomes.len() >= 7 - s.progress()
            &&& forall|i: int|
                0 <= i < 7 - s.progress() && !(s.stage == SetupStage::DeleteStale && i == 0)
                    ==> #[trigger] outcomes[i]
        },
    decreases outcomes.len(),
{
    if outcomes.len() > 0 {
        let next = s.stepped(outcomes[0]);
        let rest = outcomes.drop_first();
        if next.is_over() {
            lemma_run_over(next, rest);
        } else {
            ready_means_all_is_there(next, rest);
            if s.run(outcomes).stage == SetupStage::Ready {
                assert forall|i: int|
                    0 <= i < 7 - s.progress() && !(s.stage == SetupStage::DeleteStale && i
                        == 0) implies #[trigger] outcomes[i] by {
                    if i > 0 {
                        assert(rest[i - 1] == outcomes[i]);
                    }
                }
            }
        }
    }
}

/// Once the table is added, a step that fails is followed by the command that deletes the
/// table.
pub proof fn failed_setup_deletes_the_table(s: Setup)
    requires
        2 <= s.progress() <= 6,
    ensures
        s.stepped(false).command_text() == Some("delete table inet easytier_faketcp"@),
        s.stepped(false).stepped(true).stage == SetupStage::Failed,
        s.stepped(false).stepped(false).stage == SetupStage::Failed,
{
}

/// The command that removes the table, if it was set up. It counts as gone from then on.
pub fn cleanup_all(ready: &mut bool) -> (r: Option<&'static str>)
    ensures
        !*final(ready),
        r is Some == *old(ready),
        r matches Some(c) ==> c@ == "delete table inet easytier_faketcp"@,
{
    let was_ready: bool = *ready;
    *ready = false;
    if was_ready {
        Some("delete table inet easytier_faketcp")
    } else {
        None
    }
}

// --- Guards ---

/// A connection, and whether it is in the table.
#[derive(Debug, Clone, Copy, PartialEq, Eq, Structural)]
pub struct Guard {
    pub local_addr: SocketAddr,
    pub remote_addr: SocketAddr,
    pub active: bool,
}

/// The command that adds the connection to its set, or deletes it.
pub open spec fn guard_command(verb: Seq<char>, local: SocketAddr, remote: SocketAddr) -> Seq<
    char,
> {
    element_command_text(
        verb,
        if local.ip is V4 {
            set_v4()
        } else {
            set_v6()
        },
        element_text(local, remote),
    )
}

impl Guard {
    /// Makes a guard and says which command installs it: none where the table could not
    /// be set up or the addresses do not match.
    pub fn new(ready: bool, local_addr: SocketAddr, remote_addr: SocketAddr) -> (r: (
        Self,
        Option<String>,
    ))
        ensures
            r.0 == (Guard { local_addr, remote_addr, active: false }),
            r.1 is Some == (ready && net::same_family(local_addr, remote_addr)),
            r.1 matches Some(c) ==> c@ == guard_command("add"@, local_addr, remote_addr),
    {
        let guard = Guard { local_addr, remote_addr, active: false };
        if !ready {
            return (guard, None);
        }
        match format_element(&local_addr, &remote_addr) {
            Some((elem, set_name)) => (
                guard,
                Some(element_command("add", set_name, elem.as_str())),
            ),
            None => (guard, None),
        }
    }

    /// The command that installs the guard succeeded or failed.
    pub fn on_installed(&mut self, ok: bool)
        ensures
            *final(self) == (Guard { active: ok, ..*old(self) }),
    {
        self.active = ok;
    }

    /// The command that withdraws the guard, if it was installed.
    pub fn withdrawal(&self) -> (r: Option<String>)
        ensures
            r is Some == (self.active && net::same_family(self.local_addr, self.remote_addr)),
            r matches Some(c) ==> c@ == guard_command("delete"@, self.local_addr, self.remote_addr),
    {
        if !self.active {
            return None;
        }
        match format_element(&self.local_addr, &self.remote_addr) {
            Some((elem, set_name)) => Some(element_command("delete", set_name, elem.as_str())),
            None => None,
        }
    }
}

/// What a program's failure is reported as: what it printed, or how it ended if it printed
/// nothing but white space.
pub fn failure_text(program: &str, status: &str, stderr: &str) -> (r: String)
    ensures
        r@ == if text::trimmed(stderr@).len() == 0 {
            program@ + " exited with "@ + status@
        } else {
            text::trimmed(stderr@)
        },
{
    let printed = trim(stderr);
    if printed.as_str().unicode_len() == 0 {
        return joined_text(program, " exited with ", status);
    }
    printed
}

} // verus!
