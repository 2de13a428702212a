use vstd::prelude::*;
use crate::codec::{answer_payload, answer_texts, decode_answer, encode_as_answer};
use crate::table::PeerAddress;
use crate::wire::{answer_fits, answer_wire};

verus! {

/// Which end of the tunnel this process is.
#[derive(Clone, Copy, Debug, PartialEq, Eq, Structural)]
pub enum Role {
    /// Replies from the destination arrive as DNS answers and are unwrapped.
    Client,
    /// Replies from the destination are wrapped into DNS answers.
    Server,
}

/// What happened to a flow.
pub enum FlowEvent {
    /// A datagram arrived on the flow's upstream socket.
    Upstream { from_destination: bool, data: Vec<u8> },
    /// The dispatcher handed over a payload from the flow's peer.
    Inbound { data: Vec<u8> },
    /// The idle timer fired.
    TimerFired,
}

/// What the flow's task does next.
pub enum FlowAction {
    /// Write these bytes to the flow's peer through the listening socket.
    ToPeer(Vec<u8>),
    /// Write these bytes to the tunnel destination through the upstream socket.
    ToDestination(Vec<u8>),
    /// Nothing to write.
    Nothing,
    /// The flow has ended: take its peer out of the table, close its
    /// channel and stop.
    Expire,
}

/// One flow's relay state. Times are in whatever unit the caller's clock
/// counts, `timeout` in the same unit.
#[derive(Clone, Copy, Debug, PartialEq, Eq, Structural)]
pub struct Flow {
    pub role: Role,
    pub peer: PeerAddress,
    pub timeout: u64,
    pub last_activity: u64,
    pub expired: bool,
}

/// The instant from which a flow that sees no more traffic is idle.
pub open spec fn deadline(f: Flow) -> int {
    f.last_activity + f.timeout
}

/// Whether the flow has been idle for its whole timeout at `now`.
pub open spec fn idle_due(f: Flow, now: int) -> bool {
    now >= deadline(f)
}

/// The flow after traffic at `now`: its idle timer starts again.
pub open spec fn reset(f: Flow, now: u64) -> Flow {
    Flow { last_activity: now, ..f }
}

/// The flow once it has ended.
pub open spec fn ended(f: Flow) -> Flow {
    Flow { expired: true, ..f }
}

/// A flow that sees no traffic is idle from its deadline on; traffic at or
/// after its last activity never moves that deadline earlier, and traffic
/// strictly after it keeps the flow alive past that deadline, for a whole
/// timeout counted from the traffic.
pub proof fn lemma_idle_eviction(f: Flow, t: u64)
    requires
        f.last_activity <= t,
    ensures
        forall|now: int| idle_due(f, now) <==> now >= f.last_activity + f.timeout,
        deadline(reset(f, t)) == t + f.timeout,
        deadline(reset(f, t)) >= deadline(f),
        f.last_activity < t ==> deadline(reset(f, t)) > deadline(f),
        f.last_activity < t ==> forall|now: int| #![trigger idle_due(reset(f, t), now)]
            deadline(f) <= now < t + f.timeout ==> idle_due(f, now) && !idle_due(reset(f, t), now),
{
}

impl Flow {
    /// A new flow for `peer`, active from `now`.
    pub fn new(role: Role, peer: PeerAddress, timeout: u64, now: u64) -> (r: Flow)
        ensures
            r == (Flow { role, peer, timeout, last_activity: now, expired: false }),
    {
        Flow { role, peer, timeout, last_activity: now, expired: false }
    }

    /// Whether the flow has been idle for its whole timeout at `now`.
    pub fn is_idle(&self, now: u64) -> (r: bool)
        ensures
            r == idle_due(*self, now as int),
    {
        now >= self.last_activity && now - self.last_activity >= self.timeout
    }

    /// Takes a reply from the destination, already transformed for the
    /// peer (`None` where that failed): a transformed reply goes to the peer
    /// and counts as traffic; a failed one is dropped and does not.
    pub fn on_reply(&mut self, transformed: Option<Vec<u8>>, now: u64) -> (r: FlowAction)
        requires
            !old(self).expired,
        ensures
            match transformed {
                Some(m) => r == FlowAction::ToPeer(m) && *final(self) == reset(*old(self), now),
                None => r == FlowAction::Nothing && *final(self) == *old(self),
            },
    {
        match transformed {
            Some(m) => {
                self.last_activity = now;
                FlowAction::ToPeer(m)
            },
            None => FlowAction::Nothing,
        }
    }

    /// Handles one event at time `now`. A payload from the peer goes to the
    /// destination verbatim; a datagram from the destination is decoded
    /// (client) or encoded as a DNS answer (server) for the peer; one from
    /// elsewhere is ignored; the timer ends a flow only once it is idle. A
/// server drops a reply only where its answer would not fit in a DNS
/// message, which never happens to one of at most 4096 bytes.
    pub fn step(&mut self, event: FlowEvent, now: u64) -> (r: FlowAction)
        requires
            !old(self).expired,
        ensures
            match event {
                FlowEvent::Inbound { data } => r == FlowAction::ToDestination(data)
                    && *final(self) == reset(*old(self), now),
                FlowEvent::TimerFired => if idle_due(*old(self), now as int) {
                    r == FlowAction::Expire && *final(self) == ended(*old(self))
                } else {
                    r == FlowAction::Nothing && *final(self) == *old(self)
                },
                FlowEvent::Upstream { from_destination, data } => if !from_destination {
                    r == FlowAction::Nothing && *final(self) == *old(self)
                } else if old(self).role == Role::Client {
                    match answer_payload(data@) {
                        Some(p) => (r matches FlowAction::ToPeer(m) && m@ == p)
                            && *final(self) == reset(*old(self), now),
                        None => r == FlowAction::Nothing && *final(self) == *old(self),
                    }
                } else {
                    &&& match r {
                        FlowAction::ToPeer(w) => (exists|id: u16| w@ == answer_wire(id, answer_texts(data@)))
                            && *final(self) == reset(*old(self), now),
                        FlowAction::Nothing => *final(self) == *old(self),
                        _ => false,
                    }
                    &&& (r is ToPeer <==> data@.len() <= usize::MAX / 2 && answer_fits(answer_texts(data@)))
                    &&& (data@.len() <= 4096 ==> r is ToPeer)
                },
            },
    {
        match event {
            FlowEvent::Inbound { data } => {
                self.last_activity = now;
                FlowAction::ToDestination(data)
            },
            FlowEvent::TimerFired => {
                if self.is_idle(now) {
                    self.expired = true;
                    FlowAction::Expire
                } else {
                    FlowAction::Nothing
                }
            },
            FlowEvent::Upstream { from_destination, data } => {
                if !from_destination {
                    FlowAction::Nothing
                } else {
                    let transformed = match self.role {
                        Role::Client => decode_answer(data.as_slice()),
                        Role::Server => encode_as_answer(data.as_slice()),
                    };
                    self.on_reply(transformed, now)
                }
            },
        }
    }
}

} // verus!
