//! Taking over a connection from the kernel socket that made it.
//!
//! The kernel socket is put in repair mode, which silences it and exposes its sequence
//! numbers. [`Freeze`] says which socket option to set or read next.

use crate::socket::fake_tcp::stack::KernelTcpState;
use vstd::prelude::*;

verus! {

/// The next operation on the kernel socket.
#[derive(Debug, Clone, Copy, PartialEq, Eq, Structural)]
pub enum FreezeAction {
    EnableRepair,
    SelectSendQueue,
    ReadSendSeq,
    SelectRecvQueue,
    ReadRecvSeq,
    ReadTimestamp,
    /// The numbers cannot be read: hand the socket back to the kernel.
    DisableRepair,
    /// The socket stays frozen, and these are its numbers.
    Done(KernelTcpState),
    Failed,
}

/// How far the takeover has come.
#[derive(Debug, Clone, Copy, PartialEq, Eq, Structural)]
pub struct Freeze {
    pub next: FreezeAction,
    pub seq: u32,
    pub ack: u32,
}

/// What an operation brought: nothing but success, a number, or an error.
#[derive(Debug, Clone, Copy, PartialEq, Eq, Structural)]
pub enum FreezeEvent {
    Succeeded,
    Read(u32),
    Error,
}

/// What our timestamps need added to line up with the kernel's clock.
pub open spec fn timestamp_offset(kernel_ts: u32, now_ms: u32) -> u32 {
    ((kernel_ts - now_ms) % 0x1_0000_0000) as u32
}

impl Freeze {
    /// Begins with repair mode.
    pub fn new() -> (r: Self)
        ensures
            r == (Freeze { next: FreezeAction::EnableRepair, seq: 0, ack: 0 }),
    {
        Freeze { next: FreezeAction::EnableRepair, seq: 0, ack: 0 }
    }

    /// The takeover after the pending operation.
    pub open spec fn stepped(self, event: FreezeEvent, now_ms: u32) -> Freeze {
        match (self.next, event) {
            (FreezeAction::EnableRepair, FreezeEvent::Succeeded) => Freeze {
                next: FreezeAction::SelectSendQueue,
                ..self
            },
            (FreezeAction::EnableRepair, _) => Freeze { next: FreezeAction::Failed, ..self },
            (FreezeAction::SelectSendQueue, FreezeEvent::Succeeded) => Freeze {
                next: FreezeAction::ReadSendSeq,
                ..self
            },
            (FreezeAction::ReadSendSeq, FreezeEvent::Read(seq)) => Freeze {
                next: FreezeAction::SelectRecvQueue,
                seq,
                ..self
            },
            (FreezeAction::SelectRecvQueue, FreezeEvent::Succeeded) => Freeze {
                next: FreezeAction::ReadRecvSeq,
                ..self
            },
            (FreezeAction::ReadRecvSeq, FreezeEvent::Read(ack)) => Freeze {
                next: FreezeAction::ReadTimestamp,
                ack,
                ..self
            },
            (FreezeAction::ReadTimestamp, FreezeEvent::Read(ts)) => Freeze {
                next: FreezeAction::Done(
                    KernelTcpState {
                        seq: self.seq,
                        ack: self.ack,
                        ts_offset: timestamp_offset(ts, now_ms),
                    },
                ),
                ..self
            },
            (FreezeAction::ReadTimestamp, _) => Freeze {
                next: FreezeAction::Done(
                    KernelTcpState { seq: self.seq, ack: self.ack, ts_offset: 0 },
                ),
                ..self
            },
            (FreezeAction::DisableRepair, _) => Freeze { next: FreezeAction::Failed, ..self },
            (FreezeAction::Done(_), _) => self,
            (FreezeAction::Failed, _) => self,
            (_, _) => Freeze { next: FreezeAction::DisableRepair, ..self },
        }
    }

    /// The pending operation brought `event`; `now_ms` is our own clock.
    pub fn step(&mut self, event: FreezeEvent, now_ms: u32)
        ensures
            *final(self) == old(self).stepped(event, now_ms),
    {
        match self.next {
            FreezeAction::EnableRepair => {
                self.next = match event {
                    FreezeEvent::Succeeded => FreezeAction::SelectSendQueue,
                    _ => FreezeAction::Failed,
                };
            },
            FreezeAction::SelectSendQueue => {
                self.next = match event {
                    FreezeEvent::Succeeded => FreezeAction::ReadSendSeq,
                    _ => FreezeAction::DisableRepair,
                };
            },
            FreezeAction::ReadSendSeq => {
                if let FreezeEvent::Read(seq) = event {
                    self.seq = seq;
                    self.next = FreezeAction::SelectRecvQueue;
                } else {
                    self.next = FreezeAction::DisableRepair;
                }
            },
            FreezeAction::SelectRecvQueue => {
                self.next = match event {
                    FreezeEvent::Succeeded => FreezeAction::ReadRecvSeq,
                    _ => FreezeAction::DisableRepair,
                };
            },
            FreezeAction::ReadRecvSeq => {
                if let FreezeEvent::Read(ack) = event {
                    self.ack = ack;
                    self.next = FreezeAction::ReadTimestamp;
                } else {
                    self.next = FreezeAction::DisableRepair;
                }
            },
            FreezeAction::ReadTimestamp => {
                let ts_offset: u32 = if let FreezeEvent::Read(ts) = event {
                    if ts >= now_ms {
                        ts - now_ms
                    } else {
                        (0x1_0000_0000u64 - (now_ms - ts) as u64) as u32
                    }
                } else {
                    0
                };
                self.next = FreezeAction::Done(
                    KernelTcpState { seq: self.seq, ack: self.ack, ts_offset },
                );
            },
            FreezeAction::DisableRepair => {
                self.next = FreezeAction::Failed;
            },
            FreezeAction::Done(_) => {},
            FreezeAction::Failed => {},
        }
    }
}

/// The takeover after a series of operations.
pub open spec fn run_freeze(f: Freeze, events: Seq<(FreezeEvent, u32)>) -> Freeze
    decreases events.len(),
{
    if events.len() == 0 {
        f
    } else {
        run_freeze(f, events.drop_last()).stepped(events.last().0, events.last().1)
    }
}

/// Repair mode was set and not unset again.
pub open spec fn in_repair(f: Freeze, events: Seq<(FreezeEvent, u32)>) -> bool
    decreases events.len(),
{
    if events.len() == 0 {
        false
    } else {
        let before = run_freeze(f, events.drop_last());
        if before.next == FreezeAction::EnableRepair {
            events.last().0 == FreezeEvent::Succeeded
        } else if before.next == FreezeAction::DisableRepair {
            false
        } else {
            in_repair(f, events.drop_last())
        }
    }
}

/// A takeover that failed never leaves the kernel socket frozen, and one that succeeded
/// always does.
pub proof fn failure_hands_the_socket_back(events: Seq<(FreezeEvent, u32)>)
    ensures
        ({
            let start = Freeze { next: FreezeAction::EnableRepair, seq: 0, ack: 0 };
            let f = run_freeze(start, events);
            &&& f.next == FreezeAction::Failed ==> !in_repair(start, events)
            &&& f.next is Done ==> in_repair(start, events)
        }),
{
    lemma_repair_tracks(events);
}

proof fn lemma_repair_tracks(events: Seq<(FreezeEvent, u32)>)
    ensures
        ({
            let start = Freeze { next: FreezeAction::EnableRepair, seq: 0, ack: 0 };
            let f = run_freeze(start, events);
            in_repair(start, events) == !(f.next == FreezeAction::EnableRepair || f.next
                == FreezeAction::Failed)
        }),
    decreases events.len(),
{
    if events.len() > 0 {
        lemma_repair_tracks(events.drop_last());
    }
}

} // verus!
