//! What happened during recent ticks, for debugging tools and visualisers.

use std::collections::VecDeque;

use vstd::prelude::*;

use crate::ids::{LinkId, NodeId};
use crate::logic::AcceptRule;
use crate::monitor::Alert;
use crate::packet::{Packet, PacketId};

verus! {

/// Why a packet copy went nowhere.
#[derive(Debug, Clone, Copy, PartialEq, Eq, Structural, Hash)]
#[non_exhaustive]
pub enum DropReason {
    /// Its hop budget ran out: usually a routing loop.
    TtlExpired,
    /// Nobody on the link accepted it.
    NoRecipient,
    /// The sender left the link after queueing it, so it was never transmitted.
    SenderLeftLink,
}

/// What a [`TraceEvent`] holds.
#[verifier::ext_equal]
#[allow(inconsistent_fields)]
pub enum TraceView {
    Sent { tick: u64, packet: crate::packet::PacketView, sender: NodeId, link: LinkId },
    Delivered { tick: u64, packet: PacketId, receiver: NodeId, link: LinkId, rule: AcceptRule },
    Dropped { tick: u64, packet: PacketId, at: Option<NodeId>, reason: DropReason },
    Alert(crate::monitor::AlertView),
    Note { tick: u64, node: NodeId, text: Seq<char> },
}

/// Something that happened during a tick, for debugging tools and visualisers.
#[derive(Debug, PartialEq, Eq)]
#[non_exhaustive]
#[allow(inconsistent_fields)]
pub enum TraceEvent {
    /// `sender` put `packet` on `link`.
    Sent {
        /// Tick it happened on.
        tick: u64,
        /// The packet as transmitted.
        packet: Packet,
        /// The node that transmitted it.
        sender: NodeId,
        /// The link it went onto.
        link: LinkId,
    },
    /// `receiver` accepted a copy of a packet.
    Delivered {
        /// Tick it happened on.
        tick: u64,
        /// The transmission this copy came from.
        packet: PacketId,
        /// The node that accepted it.
        receiver: NodeId,
        /// The link it arrived on.
        link: LinkId,
        /// Why it was accepted.
        rule: AcceptRule,
    },
    /// A packet, or one copy of it, was discarded.
    Dropped {
        /// Tick it happened on.
        tick: u64,
        /// The transmission involved.
        packet: PacketId,
        /// The node that dropped it, if one did.
        at: Option<NodeId>,
        /// Why.
        reason: DropReason,
    },
    /// A monitor check noticed something. Always recorded, even when packet tracing is off.
    Alert(Alert),
    /// A note written by a node's logic.
    Note {
        /// Tick it happened on.
        tick: u64,
        /// The node whose logic wrote it.
        node: NodeId,
        /// The note.
        text: String,
    },
}

impl View for TraceEvent {
    type V = TraceView;

    open spec fn view(&self) -> TraceView {
        match *self {
            TraceEvent::Sent { tick, packet, sender, link } => TraceView::Sent {
                tick,
                packet: packet@,
                sender,
                link,
            },
            TraceEvent::Delivered { tick, packet, receiver, link, rule } => TraceView::Delivered {
                tick,
                packet,
                receiver,
                link,
                rule,
            },
            TraceEvent::Dropped { tick, packet, at, reason } => TraceView::Dropped {
                tick,
                packet,
                at,
                reason,
            },
            TraceEvent::Alert(alert) => TraceView::Alert(alert@),
            TraceEvent::Note { tick, node, text } => TraceView::Note { tick, node, text: text@ },
        }
    }
}

impl Clone for TraceEvent {
    fn clone(&self) -> (r: Self)
        ensures
            r@ == self@,
    {
        match self {
            TraceEvent::Sent { tick, packet, sender, link } => TraceEvent::Sent {
                tick: *tick,
                packet: packet.clone(),
                sender: *sender,
                link: *link,
            },
            TraceEvent::Delivered { tick, packet, receiver, link, rule } => TraceEvent::Delivered {
                tick: *tick,
                packet: *packet,
                receiver: *receiver,
                link: *link,
                rule: *rule,
            },
            TraceEvent::Dropped { tick, packet, at, reason } => TraceEvent::Dropped {
                tick: *tick,
                packet: *packet,
                at: *at,
                reason: *reason,
            },
            TraceEvent::Alert(alert) => TraceEvent::Alert(alert.clone()),
            TraceEvent::Note { tick, node, text } => TraceEvent::Note {
                tick: *tick,
                node: *node,
                text: text.clone(),
            },
        }
    }
}

/// The events' contents.
pub open spec fn event_views(events: Seq<TraceEvent>) -> Seq<TraceView> {
    events.map_values(|e: TraceEvent| e@)
}

/// A counter one higher, as far as it goes.
pub open spec fn bump(n: u64) -> u64 {
    if n < u64::MAX {
        (n + 1) as u64
    } else {
        n
    }
}

/// What a [`TraceLog`] holds.
#[verifier::ext_equal]
pub struct LogView {
    pub events: Seq<TraceView>,
    pub discarded: u64,
}

impl LogView {
    /// The log with one more event, at the expense of the oldest where it is full.
    pub open spec fn push(self, event: TraceView) -> LogView {
        if self.events.len() == TraceLog::CAPACITY {
            LogView {
                events: self.events.drop_first().push(event),
                discarded: bump(self.discarded),
            }
        } else {
            LogView { events: self.events.push(event), ..self }
        }
    }

    /// The log with several more events, one after the other.
    pub open spec fn extended(self, events: Seq<TraceView>) -> LogView
        decreases events.len(),
    {
        if events.len() == 0 {
            self
        } else {
            self.extended(events.drop_last()).push(events.last())
        }
    }

    /// Whether the log is within its capacity.
    pub open spec fn bounded(self) -> bool {
        self.events.len() <= TraceLog::CAPACITY
    }
}

/// Bounded buffer of trace events, so a host that never drains it cannot run out of memory.
#[derive(Debug)]
pub struct TraceLog {
    events: VecDeque<TraceEvent>,
    discarded: u64,
}

impl View for TraceLog {
    type V = LogView;

    closed spec fn view(&self) -> LogView {
        LogView { events: event_views(self.events@), discarded: self.discarded }
    }
}

impl TraceLog {
    /// Most events the buffer holds.
    pub const CAPACITY: usize = 100_000;

    /// An empty buffer.
    pub fn new() -> (r: Self)
        ensures
            r@ == (LogView { events: Seq::empty(), discarded: 0 }),
    {
        let r = TraceLog { events: VecDeque::new(), discarded: 0 };
        assert(r@.events =~= Seq::<TraceView>::empty());
        r
    }

    /// Adds an event, at the expense of the oldest where the buffer is full.
    pub fn push(&mut self, event: TraceEvent)
        ensures
            final(self)@ == old(self)@.push(event@),
    {
        if self.events.len() == Self::CAPACITY {
            let _ = self.events.pop_front();
            self.discarded = self.discarded.saturating_add(1);
        }
        self.events.push_back(event);
        proof {
            assert(self@.events =~= old(self)@.push(event@).events);
        }
    }

    /// Everything recorded since the last call, oldest first.
    pub fn drain(&mut self) -> (r: Vec<TraceEvent>)
        ensures
            event_views(r@) == old(self)@.events,
            final(self)@ == (LogView { events: Seq::empty(), discarded: old(self)@.discarded }),
    {
        let mut out: Vec<TraceEvent> = Vec::new();
        let ghost all = self.events@;
        assert(all.take(0) =~= Seq::<TraceEvent>::empty());
        while self.events.len() > 0
            invariant
                out@ + self.events@ == all,
                self.discarded == old(self).discarded,
            decreases self.events@.len(),
        {
            if let Some(event) = self.events.pop_front() {
                out.push(event);
                assert(out@ + self.events@ =~= all);
            }
        }
        proof {
            assert(out@ =~= all);
            assert(self@.events =~= Seq::<TraceView>::empty());
        }
        out
    }

    /// How many events were thrown away because nobody drained the buffer in time.
    pub fn discarded(&self) -> (r: u64)
        ensures
            r == self@.discarded,
    {
        self.discarded
    }

    /// How many events are waiting to be drained.
    pub fn len(&self) -> (r: usize)
        ensures
            r == self@.events.len(),
    {
        self.events.len()
    }
}

/// Adding events in two goes is adding them all.
pub proof fn lemma_extended(log: LogView, a: Seq<TraceView>, b: Seq<TraceView>)
    ensures
        log.extended(a).extended(b) == log.extended(a + b),
    decreases b.len(),
{
    if b.len() == 0 {
        assert(a + b =~= a);
    } else {
        lemma_extended(log, a, b.drop_last());
        assert((a + b).drop_last() =~= a + b.drop_last());
        assert((a + b).last() == b.last());
    }
}

/// Adding one event is adding a sequence of one.
pub proof fn lemma_extended_one(log: LogView, event: TraceView)
    ensures
        log.extended(seq![event]) == log.push(event),
        log.extended(Seq::empty()) == log,
{
    assert(seq![event].drop_last() =~= Seq::<TraceView>::empty());
    assert(log.extended(Seq::empty()) == log);
}

/// The buffer never grows past its capacity, whatever is recorded.
pub proof fn law_trace_is_bounded(log: LogView, events: Seq<TraceView>)
    requires
        log.bounded(),
    ensures
        log.extended(events).bounded(),
    decreases events.len(),
{
    if events.len() > 0 {
        law_trace_is_bounded(log, events.drop_last());
    }
}

/// The buffer holds the latest events, in order, as many as fit; what does not fit is counted as
/// discarded.
pub proof fn law_trace_keeps_the_latest(log: LogView, events: Seq<TraceView>)
    requires
        log.bounded(),
        log.discarded + log.events.len() + events.len() < u64::MAX,
    ensures
        log.extended(events).events == latest(log.events + events),
        log.extended(events).discarded + log.extended(events).events.len() == log.discarded
            + log.events.len() + events.len(),
    decreases events.len(),
{
    let all = log.events + events;
    if events.len() == 0 {
        assert(all =~= log.events);
        assert(latest(all) =~= all);
    } else {
        let front = events.drop_last();
        law_trace_keeps_the_latest(log, front);
        law_trace_is_bounded(log, front);
        let before = log.events + front;
        assert(all =~= before.push(events.last()));
        assert(log.extended(events).events =~= latest(all));
    }
}

/// The last [`TraceLog::CAPACITY`] of the events.
pub open spec fn latest(events: Seq<TraceView>) -> Seq<TraceView> {
    if events.len() <= TraceLog::CAPACITY {
        events
    } else {
        events.skip(events.len() - TraceLog::CAPACITY)
    }
}

} // verus!
