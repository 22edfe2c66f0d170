//! A self-contained simulation: a network, the logic attached to its nodes, and the clock.

use std::collections::VecDeque;

use vstd::prelude::*;
use vstd::string::*;

use crate::behaviour::{create_logic, Behaviour, Call, Held};
use crate::ids::{LinkId, NodeId};
use crate::lists::{copied, holds};
use crate::logic::{
    AcceptRule, Context, ControllerLogic, Limits, Outgoing, Relaying, SendError, SendQueue,
};
use crate::monitor::{Alert, Monitor, MonitorConfig};
use crate::names;
use crate::network::{Link, Network, NetworkError};
use crate::packet::{Event, Packet, PacketId};
use crate::route::PacketRoute;
use crate::side_slots::{LogicSlots, StatSlots};
use crate::text::same_text;
use crate::trace::{DropReason, TraceEvent, TraceLog};

verus! {

/// Traffic counters for one node.
#[derive(Debug, Clone, Copy, PartialEq, Eq, Structural)]
pub struct NodeStats {
    /// Packets this node put on a link.
    pub sent: u64,
    /// Packet copies this node accepted.
    pub received: u64,
}

impl Default for NodeStats {
    fn default() -> (r: Self)
        ensures
            r.sent == 0,
            r.received == 0,
    {
        NodeStats { sent: 0, received: 0 }
    }
}

/// What a [`LogicError`] says.
#[verifier::ext_equal]
pub enum LogicErrorView {
    UnknownNode(NodeId),
    UnknownKind(Seq<char>),
}

/// Why logic could not be attached.
#[derive(Debug, PartialEq, Eq)]
#[non_exhaustive]
#[allow(inconsistent_fields)]
pub enum LogicError {
    /// The node does not exist.
    UnknownNode(NodeId),
    /// No built-in logic has this name.
    UnknownKind(String),
}

impl View for LogicError {
    type V = LogicErrorView;

    open spec fn view(&self) -> LogicErrorView {
        match *self {
            LogicError::UnknownNode(id) => LogicErrorView::UnknownNode(id),
            LogicError::UnknownKind(kind) => LogicErrorView::UnknownKind(kind@),
        }
    }
}

impl Clone for LogicError {
    fn clone(&self) -> (r: Self)
        ensures
            r@ == self@,
    {
        match self {
            LogicError::UnknownNode(id) => LogicError::UnknownNode(*id),
            LogicError::UnknownKind(kind) => LogicError::UnknownKind(kind.clone()),
        }
    }
}

impl LogicErrorView {
    /// The problem in words.
    pub open spec fn text(self) -> Seq<char> {
        match self {
            LogicErrorView::UnknownNode(id) => "unknown node "@ + id.text(),
            LogicErrorView::UnknownKind(kind) => "no logic named `"@ + kind + "`"@,
        }
    }
}

impl LogicError {
    /// The problem in words, for people.
    pub fn to_string(&self) -> (r: String)
        ensures
            r@ == self@.text(),
    {
        match self {
            LogicError::UnknownNode(id) => {
                let mut out = "unknown node ".to_owned();
                out.append(id.to_text().as_str());
                out
            },
            LogicError::UnknownKind(kind) => {
                let mut out = "no logic named `".to_owned();
                out.append(kind.as_str());
                out.append("`");
                out
            },
        }
    }
}

/// Which limit a tick hit.
#[derive(Debug, Clone, Copy, PartialEq, Eq, Structural, Hash)]
#[non_exhaustive]
pub enum FuseLimit {
    /// [`Limits::max_transmissions_per_tick`].
    Transmissions,
    /// [`Limits::max_deliveries_per_tick`].
    Deliveries,
    /// [`Limits::max_pending`]: sends were refused.
    Queue,
}

impl FuseLimit {
    /// The limit's name.
    pub open spec fn text(self) -> Seq<char> {
        match self {
            FuseLimit::Transmissions => "transmissions"@,
            FuseLimit::Deliveries => "deliveries"@,
            FuseLimit::Queue => "queue"@,
        }
    }

    /// A stable machine-readable name, such as `"deliveries"`.
    pub fn name(self) -> (r: &'static str)
        ensures
            r@ == self.text(),
    {
        match self {
            FuseLimit::Transmissions => "transmissions",
            FuseLimit::Deliveries => "deliveries",
            FuseLimit::Queue => "queue",
        }
    }

    /// The configured value of the limit.
    pub open spec fn configured(self, limits: Limits) -> u64 {
        match self {
            FuseLimit::Transmissions => limits.max_transmissions_per_tick,
            FuseLimit::Deliveries => limits.max_deliveries_per_tick,
            FuseLimit::Queue => limits.max_pending as u64,
        }
    }
}

/// What a [`FuseReport`] holds.
#[verifier::ext_equal]
pub struct FuseView {
    pub tick: u64,
    pub limit: FuseLimit,
    pub max: u64,
    pub held_back: nat,
    pub top_senders: Seq<(NodeId, u64)>,
    pub top_links: Seq<(LinkId, u64)>,
    pub recent_alerts: Seq<crate::monitor::AlertView>,
}

/// What tripped the fuse, and the best available explanation of why.
#[derive(Debug, PartialEq, Eq)]
pub struct FuseReport {
    /// Tick it happened on.
    pub tick: u64,
    /// Which limit was hit.
    pub limit: FuseLimit,
    /// The configured limit.
    pub max: u64,
    /// Packets still queued when the tick stopped. They are delivered by later ticks if the host
    /// keeps going.
    pub held_back: usize,
    /// The nodes that sent the most this tick, busiest first.
    pub top_senders: Vec<(NodeId, u64)>,
    /// The links that carried the most this tick, busiest first.
    pub top_links: Vec<(LinkId, u64)>,
    /// The most recent monitor alerts, which usually name the cause (a relay loop,
    /// amplification, a flood).
    pub recent_alerts: Vec<Alert>,
}

impl View for FuseReport {
    type V = FuseView;

    open spec fn view(&self) -> FuseView {
        FuseView {
            tick: self.tick,
            limit: self.limit,
            max: self.max,
            held_back: self.held_back as nat,
            top_senders: self.top_senders@,
            top_links: self.top_links@,
            recent_alerts: crate::monitor::alert_views(self.recent_alerts@),
        }
    }
}

/// How a tick ended.
#[must_use]
#[derive(Debug, Clone, Copy, PartialEq, Eq, Structural)]
pub enum TickOutcome {
    /// Everything due was delivered.
    Completed,
    /// A hard limit was reached. See [`World::fuse_report`].
    FuseTripped,
}

/// Running totals for watching a world's load.
#[derive(Debug, Clone, Copy, PartialEq, Eq, Structural)]
pub struct Health {
    /// The current tick.
    pub tick: u64,
    /// Packets put on links during the last tick.
    pub transmissions: u64,
    /// Packet copies delivered during the last tick.
    pub deliveries: u64,
    /// The most transmissions seen in any one tick.
    pub peak_transmissions: u64,
    /// Packets waiting for the next tick.
    pub pending: usize,
    /// Sends refused because the queue was full.
    pub refused_sends: u64,
    /// Packet copies dropped because their TTL ran out.
    pub ttl_drops: u64,
    /// Queued packets dropped because the sender had left the link.
    pub sender_left_drops: u64,
    /// Monitor alerts raised.
    pub alerts: u64,
    /// Ticks that tripped the fuse.
    pub fuse_trips: u64,
    /// Trace events waiting to be drained.
    pub trace_len: usize,
    /// Trace events lost because the buffer was full.
    pub trace_discarded: u64,
}

/// The totals that a world keeps itself.
#[derive(Debug, Clone, Copy, PartialEq, Eq, Structural)]
pub struct Totals {
    /// Packets put on links during the last tick.
    pub transmissions: u64,
    /// Packet copies delivered during the last tick.
    pub deliveries: u64,
    /// The most transmissions seen in any one tick.
    pub peak_transmissions: u64,
    /// Packet copies dropped because their TTL ran out.
    pub ttl_drops: u64,
    /// Queued packets dropped because the sender had left the link.
    pub sender_left_drops: u64,
    /// Ticks that tripped the fuse.
    pub fuse_trips: u64,
}

/// What a [`World`] holds.
#[verifier::ext_equal]
pub struct WorldView {
    pub network: crate::graph::NetView,
    pub tick_count: u64,
    pub logics: Map<NodeId, crate::behaviour::BehaviourView>,
    pub stats: Map<NodeId, NodeStats>,
    pub queue: crate::logic::QueueView,
    pub next_packet: u64,
    pub watch: crate::monitor::Watch,
    pub trace_packets: bool,
    pub topology_changed: bool,
    pub totals: Totals,
    pub fuse: Option<FuseView>,
    pub refused_seen: u64,
}

/// Everyone who hears traffic on a link: its subscribers, then its owner (which hears its own
/// internal buses), minus the sender. The root is the world itself, not a device, so it never
/// listens.
pub open spec fn audience(
    network: crate::graph::NetView,
    link: crate::graph::LinkView,
    sender: NodeId,
) -> Seq<NodeId> {
    let all = match link.owner {
        Some(owner) => if link.subscribers.contains(owner) {
            link.subscribers
        } else {
            link.subscribers.push(owner)
        },
        None => link.subscribers,
    };
    crate::lists::without(all, set![sender, network.root])
}

/// How many of the listeners take a copy of a packet: by the standard rules, or because their logic
/// wants it.
pub open spec fn takers(
    network: crate::graph::NetView,
    logics: Map<NodeId, crate::behaviour::BehaviourView>,
    via: LinkId,
    packet: crate::packet::PacketView,
    listeners: Seq<NodeId>,
) -> nat
    decreases listeners.len(),
{
    if listeners.len() == 0 {
        0
    } else {
        let listener = listeners.last();
        takers(network, logics, via, packet, listeners.drop_last()) + if acceptance(
            network,
            listener,
            packet,
            network.links[via],
        ) is Some || logics.contains_key(listener) && logics[listener].wants(packet) {
            1nat
        } else {
            0nat
        }
    }
}

/// Whether a hop's link name means the link called `name`.
pub open spec fn means_link(hop: Seq<char>, name: Seq<char>) -> bool {
    hop == name || hop == crate::names::BROADCAST@ || hop == crate::names::ANY_LINK@
}

/// Whether one of the node's children has that name.
pub open spec fn has_child_named(
    network: crate::graph::NetView,
    node: crate::graph::NodeView,
    name: Seq<char>,
) -> bool {
    exists|i: int|
        0 <= i < node.children.len() && network.nodes.contains_key(#[trigger] node.children[i])
            && network.nodes[node.children[i]].name == name
}

/// Why `listener` accepts a packet that is on a link, if it does by the standard rules.
pub open spec fn acceptance(
    network: crate::graph::NetView,
    listener: NodeId,
    packet: crate::packet::PacketView,
    link: crate::graph::LinkView,
) -> Option<AcceptRule> {
    let node = network.nodes[listener];
    let (from, to) = (packet.from[0].node, packet.to[0]);
    if !network.nodes.contains_key(listener) || from == node.name {
        None
    } else if to.node == node.name && means_link(to.link, link.name) {
        Some(AcceptRule::Addressed)
    } else if to.node == crate::names::BROADCAST@ && means_link(to.link, link.name) {
        Some(AcceptRule::Broadcast)
    } else if link.owner != Some(listener) {
        None
    } else if to.node == crate::names::PARENT@ && has_child_named(network, node, from) {
        Some(AcceptRule::ChildToParent)
    } else if !means_link(to.link, link.name) {
        Some(AcceptRule::Gateway)
    } else {
        None
    }
}

/// What a listener's logic says and does when a packet is on the link: whether it wants it, and
/// what comes of it where it gets it.
#[verifier::ext_equal]
pub struct Hearing {
    pub wants: bool,
    pub reaction: crate::behaviour::Reaction,
}

/// What a crashed logic is reported as.
pub open spec fn crash_message(kind: Seq<char>, why: Seq<char>) -> Seq<char> {
    "`"@ + kind + "` logic panicked and was removed: "@ + why
}

/// A sum that goes up to what a counter can hold.
pub open spec fn capped(n: int) -> u64 {
    if n > u64::MAX {
        u64::MAX
    } else {
        n as u64
    }
}

/// The counters in a list that has none of its own for the node.
pub open spec fn stats_of(stats: Map<NodeId, NodeStats>, node: NodeId) -> NodeStats {
    if stats.contains_key(node) {
        stats[node]
    } else {
        NodeStats { sent: 0, received: 0 }
    }
}

impl WorldView {
    /// What a logic sees of the world.
    pub open spec fn context(
        self,
        tick: u64,
        node: NodeId,
        arrival: Option<(LinkId, AcceptRule)>,
    ) -> crate::logic::ContextView {
        crate::logic::ContextView {
            network: self.network,
            node,
            tick,
            arrived_on: match arrival {
                Some((link, _)) => Some(link),
                None => None,
            },
            accepted_by: match arrival {
                Some((_, rule)) => Some(rule),
                None => None,
            },
            queue: self.queue,
            log: self.watch.log,
        }
    }

    /// The world once something is in the trace.
    pub open spec fn traced(self, event: crate::trace::TraceView) -> WorldView {
        WorldView {
            watch: crate::monitor::Watch { log: self.watch.log.push(event), ..self.watch },
            ..self
        }
    }

    /// The world once something is in the trace, where packets are traced.
    pub open spec fn packet_traced(self, event: crate::trace::TraceView) -> WorldView {
        if self.trace_packets {
            self.traced(event)
        } else {
            self
        }
    }

    /// The world with what the monitor made of something.
    pub open spec fn watching(self, watch: crate::monitor::Watch) -> WorldView {
        WorldView { watch, ..self }
    }

    /// The world once a logic ran: its sends are queued, its notes are in the trace, and it is
    /// removed and reported where it crashed.
    pub open spec fn reacted(
        self,
        tick: u64,
        node: NodeId,
        kind: Seq<char>,
        out: crate::behaviour::Reaction,
    ) -> WorldView {
        let next = WorldView {
            queue: out.context.queue,
            watch: crate::monitor::Watch { log: out.context.log, ..self.watch },
            ..self
        };
        match out.crash {
            None => WorldView { logics: self.logics.insert(node, out.behaviour), ..next },
            Some(why) => WorldView {
                logics: self.logics.remove(node),
                watch: next.watch.logic_panicked(tick, node, crash_message(kind, why)),
                ..next
            },
        }
    }

    /// Whether `out` may come of a callback of the node's logic; anything will do where it has
    /// none.
    pub open spec fn may_react(
        self,
        tick: u64,
        node: NodeId,
        arrival: Option<(LinkId, AcceptRule)>,
        call: crate::behaviour::CallView,
        out: crate::behaviour::Reaction,
    ) -> bool {
        self.logics.contains_key(node) ==> self.logics[node].may_react(
            call,
            self.context(tick, node, arrival),
            out,
        )
    }

    /// The world once a callback of the node's logic ran, if it has one.
    pub open spec fn ran(
        self,
        tick: u64,
        node: NodeId,
        out: crate::behaviour::Reaction,
    ) -> WorldView {
        if self.logics.contains_key(node) {
            self.reacted(tick, node, self.logics[node].kind(), out)
        } else {
            self
        }
    }

    /// How many packets the node's logic tried to send in a callback.
    pub open spec fn sends(self, node: NodeId, out: crate::behaviour::Reaction) -> u64 {
        if self.logics.contains_key(node) {
            capped(
                (out.context.queue.items.len() - self.queue.items.len()) + (
                out.context.queue.refused - self.queue.refused),
            )
        } else {
            0
        }
    }

    /// The world with one more packet counted as sent by `node`.
    pub open spec fn counted_sent(self, node: NodeId) -> WorldView {
        let old = stats_of(self.stats, node);
        WorldView {
            stats: crate::side_slots::entered(
                self.stats,
                node,
                NodeStats { sent: crate::trace::bump(old.sent), ..old },
            ),
            ..self
        }
    }

    /// The world with one more packet counted as received by `node`.
    pub open spec fn counted_received(self, node: NodeId) -> WorldView {
        let old = stats_of(self.stats, node);
        WorldView {
            stats: crate::side_slots::entered(
                self.stats,
                node,
                NodeStats { received: crate::trace::bump(old.received), ..old },
            ),
            ..self
        }
    }

    /// Why `listener` gets a copy of a packet, if it does: by the standard rules, or because its
    /// logic wants it.
    pub open spec fn accepted(
        self,
        via: LinkId,
        packet: crate::packet::PacketView,
        listener: NodeId,
        wants: bool,
    ) -> Option<AcceptRule> {
        match acceptance(self.network, listener, packet, self.network.links[via]) {
            Some(rule) => Some(rule),
            None => if self.logics.contains_key(listener) && wants {
                Some(AcceptRule::Forced)
            } else {
                None
            },
        }
    }

    /// The world just before the logic of a node that got a copy of a packet runs.
    pub open spec fn arriving(
        self,
        tick: u64,
        via: LinkId,
        packet: crate::packet::PacketView,
        listener: NodeId,
        rule: AcceptRule,
    ) -> WorldView {
        let w = self.counted_received(listener);
        w.watching(w.watch.delivered(tick, listener, packet.copied_for(listener))).packet_traced(
            crate::trace::TraceView::Delivered {
                tick,
                packet: packet.id,
                receiver: listener,
                link: via,
                rule,
            },
        )
    }

    /// The world once a copy of a packet that has no hops left was dropped at `listener`.
    pub open spec fn expired(
        self,
        tick: u64,
        packet: crate::packet::PacketView,
        listener: NodeId,
    ) -> WorldView {
        let w = WorldView {
            totals: Totals {
                ttl_drops: crate::trace::bump(self.totals.ttl_drops),
                ..self.totals
            },
            watch: self.watch.ttl_expired(tick, listener),
            ..self
        };
        w.packet_traced(
            crate::trace::TraceView::Dropped {
                tick,
                packet: packet.id,
                at: Some(listener),
                reason: DropReason::TtlExpired,
            },
        )
    }

    /// Whether `hearing` is what the listener's logic may say and do.
    pub open spec fn may_hear(
        self,
        tick: u64,
        via: LinkId,
        packet: crate::packet::PacketView,
        listener: NodeId,
        hearing: Hearing,
    ) -> bool {
        &&& self.logics.contains_key(listener) ==> hearing.wants
            == self.logics[listener].wants(packet)
        &&& match self.accepted(via, packet, listener, hearing.wants) {
            Some(rule) => packet.ttl > 1 ==> self.arriving(
                tick,
                via,
                packet,
                listener,
                rule,
            ).may_react(
                tick,
                listener,
                Some((via, rule)),
                crate::behaviour::CallView::Received(packet.copied_for(listener)),
                hearing.reaction,
            ),
            None => true,
        }
    }

    /// The world once `listener` heard a packet: it ignores it, drops it for want of hops, or
    /// takes a copy and lets its logic handle it.
    pub open spec fn heard(
        self,
        tick: u64,
        via: LinkId,
        packet: crate::packet::PacketView,
        listener: NodeId,
        hearing: Hearing,
    ) -> WorldView {
        match self.accepted(via, packet, listener, hearing.wants) {
            None => self,
            Some(rule) => if packet.ttl <= 1 {
                self.expired(tick, packet, listener)
            } else {
                let w = self.arriving(tick, via, packet, listener, rule);
                let sends = w.sends(listener, hearing.reaction);
                let ran = w.ran(tick, listener, hearing.reaction);
                ran.watching(ran.watch.handled(tick, listener, sends))
            },
        }
    }

    /// The world once each of the listeners heard a packet, one after the other.
    pub open spec fn heard_by(
        self,
        tick: u64,
        via: LinkId,
        packet: crate::packet::PacketView,
        listeners: Seq<NodeId>,
        hearings: Seq<Hearing>,
    ) -> WorldView
        decreases listeners.len(),
    {
        if listeners.len() == 0 {
            self
        } else {
            let n = listeners.len() - 1;
            self.heard_by(tick, via, packet, listeners.drop_last(), hearings).heard(
                tick,
                via,
                packet,
                listeners[n],
                hearings[n],
            )
        }
    }

    /// Whether the hearings are what the listeners' logics may say and do, one after the other.
    pub open spec fn may_hear_all(
        self,
        tick: u64,
        via: LinkId,
        packet: crate::packet::PacketView,
        listeners: Seq<NodeId>,
        hearings: Seq<Hearing>,
    ) -> bool
        decreases listeners.len(),
    {
        if listeners.len() == 0 {
            true
        } else {
            let n = listeners.len() - 1;
            &&& self.may_hear_all(tick, via, packet, listeners.drop_last(), hearings)
            &&& self.heard_by(tick, via, packet, listeners.drop_last(), hearings).may_hear(
                tick,
                via,
                packet,
                listeners[n],
                hearings[n],
            )
        }
    }

    /// How many of the listeners got a copy of a packet.
    pub open spec fn copies(
        self,
        tick: u64,
        via: LinkId,
        packet: crate::packet::PacketView,
        listeners: Seq<NodeId>,
        hearings: Seq<Hearing>,
    ) -> nat
        decreases listeners.len(),
    {
        if listeners.len() == 0 {
            0
        } else {
            let n = listeners.len() - 1;
            let before = self.heard_by(tick, via, packet, listeners.drop_last(), hearings);
            self.copies(tick, via, packet, listeners.drop_last(), hearings) + if before.accepted(
                via,
                packet,
                listeners[n],
                hearings[n].wants,
            ) is Some {
                1nat
            } else {
                0nat
            }
        }
    }

    /// The number of the next transmission.
    pub open spec fn next_id(self) -> u64 {
        vstd::wrapping::u64_specs::wrapping_add(self.next_packet, 1)
    }

    /// The packet that a queued packet becomes when it is put on its link.
    pub open spec fn packet(self, out: crate::logic::OutgoingView) -> crate::packet::PacketView {
        crate::packet::PacketView {
            id: PacketId::of(self.next_id()),
            from: out.from,
            to: out.to,
            event: out.event,
            ttl: out.ttl,
            trace: out.trace,
        }
    }

    /// The world once a packet was put on its link, before anyone heard it.
    pub open spec fn on_air(self, tick: u64, out: crate::logic::OutgoingView) -> WorldView {
        let w = WorldView { next_packet: self.next_id(), ..self }.counted_sent(out.sender);
        WorldView {
            watch: crate::monitor::Watch {
                monitor: w.watch.monitor.transmitted(out.sender, out.via),
                ..w.watch
            },
            ..w
        }.packet_traced(
            crate::trace::TraceView::Sent {
                tick,
                packet: self.packet(out),
                sender: out.sender,
                link: out.via,
            },
        )
    }

    /// The world once a queued packet was dropped because its sender had left the link.
    pub open spec fn abandoned(self, tick: u64, out: crate::logic::OutgoingView) -> WorldView {
        WorldView {
            next_packet: self.next_id(),
            totals: Totals {
                sender_left_drops: crate::trace::bump(self.totals.sender_left_drops),
                ..self.totals
            },
            ..self
        }.packet_traced(
            crate::trace::TraceView::Dropped {
                tick,
                packet: PacketId::of(self.next_id()),
                at: Some(out.sender),
                reason: DropReason::SenderLeftLink,
            },
        )
    }

    /// Everyone who hears a queued packet.
    pub open spec fn audience_of(self, out: crate::logic::OutgoingView) -> Seq<NodeId> {
        audience(self.network, self.network.links[out.via], out.sender)
    }

    /// Whether the hearings are what may come of a queued packet.
    #[verifier::opaque]
    pub open spec fn may_transmit(
        self,
        tick: u64,
        out: crate::logic::OutgoingView,
        hearings: Seq<Hearing>,
    ) -> bool {
        self.network.can_use_link(out.sender, out.via) ==> self.on_air(tick, out).may_hear_all(
            tick,
            out.via,
            self.packet(out),
            self.audience_of(out),
            hearings,
        )
    }

    /// How many copies of a queued packet are delivered; nothing where it is not put on its link.
    #[verifier::opaque]
    pub open spec fn delivered(
        self,
        tick: u64,
        out: crate::logic::OutgoingView,
        hearings: Seq<Hearing>,
    ) -> Option<nat> {
        if self.network.can_use_link(out.sender, out.via) {
            Some(
                self.on_air(tick, out).copies(
                    tick,
                    out.via,
                    self.packet(out),
                    self.audience_of(out),
                    hearings,
                ),
            )
        } else {
            None
        }
    }

    /// The world once a queued packet was put on its link and heard by everyone on it, or dropped
    /// because its sender had left the link.
    #[verifier::opaque]
    pub open spec fn transmitted(
        self,
        tick: u64,
        out: crate::logic::OutgoingView,
        hearings: Seq<Hearing>,
    ) -> WorldView {
        if self.network.can_use_link(out.sender, out.via) {
            let packet = self.packet(out);
            let w = self.on_air(tick, out).heard_by(
                tick,
                out.via,
                packet,
                self.audience_of(out),
                hearings,
            );
            if self.delivered(tick, out, hearings) == Some(0nat) {
                w.packet_traced(
                    crate::trace::TraceView::Dropped {
                        tick,
                        packet: packet.id,
                        at: None,
                        reason: DropReason::NoRecipient,
                    },
                )
            } else {
                w
            }
        } else {
            self.abandoned(tick, out)
        }
    }
}

/// The logics' contents.
pub open spec fn behaviour_views(m: Map<NodeId, Behaviour>) -> Map<
    NodeId,
    crate::behaviour::BehaviourView,
> {
    Map::new(|id: NodeId| m.contains_key(id), |id: NodeId| m[id]@)
}

/// A self-contained simulation: a [`Network`], the logic attached to its nodes, and the clock.
///
/// The host owns the clock. Nothing moves between calls to [`World::tick`]: each tick runs
/// every logic's `on_tick`, then delivers everything that was sent before the tick began, as far
/// as the [`Limits`] allow. Anything sent during a tick, from an `on_tick` or while handling a
/// packet, waits for the next tick, so packets advance one hop per tick and a tick always
/// finishes.
pub struct World {
    network: Network,
    tick_count: u64,
    logics: LogicSlots,
    stats: StatSlots,
    /// The packets waiting for the next tick, with the fuse's limits.
    queue: SendQueue,
    next_packet: u64,
    trace: TraceLog,
    trace_packets: bool,
    monitor: Monitor,
    topology_changed: bool,
    totals: Totals,
    fuse: Option<FuseReport>,
    /// How many sends had been refused when the last tick ended.
    refused_seen: u64,
}

impl View for World {
    type V = WorldView;

    closed spec fn view(&self) -> WorldView {
        WorldView {
            network: self.network@,
            tick_count: self.tick_count,
            logics: behaviour_views(crate::side_slots::logic_entries(self.logics)),
            stats: crate::side_slots::stat_entries(self.stats),
            queue: self.queue@,
            next_packet: self.next_packet,
            watch: crate::monitor::Watch { monitor: self.monitor@, log: self.trace@ },
            trace_packets: self.trace_packets,
            topology_changed: self.topology_changed,
            totals: self.totals,
            fuse: match self.fuse {
                Some(report) => Some(report@),
                None => None,
            },
            refused_seen: self.refused_seen,
        }
    }
}

impl World {
    /// What is always true of a world between calls, its network aside: no packet of its queue is
    /// being delivered.
    pub open spec fn inv(&self) -> bool {
        &&& self.running()
        &&& self@.queue.reserved == 0
    }

    /// What is true of a world even in the middle of a tick.
    pub closed spec fn running(&self) -> bool {
        self.monitor.inv()
    }
}

/// Everyone who hears traffic on `link`: its subscribers, then its owner (which hears its own
/// internal buses), minus the sender. The root is the world itself, not a device, so it never
/// listens.
pub fn listeners(network: &Network, link: &Link, sender: NodeId) -> (r: Vec<NodeId>)
    ensures
        r@ == audience(network@, link@, sender),
{
    let mut all = copied(link.subscribers());
    if let Some(owner) = link.owner() {
        if !holds(&all, owner) {
            all.push(owner);
        }
    }
    let deaf: Vec<NodeId> = vec![sender, network.root()];
    assert(deaf@.to_set() =~= set![sender, network@.root]) by {
        assert(deaf@[0] == sender && deaf@[1] == network@.root);
        assert forall|n: NodeId| deaf@.to_set().contains(n) <==> set![
            sender,
            network@.root,
        ].contains(n) by {
            if n == sender {
                assert(deaf@.contains(deaf@[0]));
            }
            if n == network@.root {
                assert(deaf@.contains(deaf@[1]));
            }
        }
    }
    crate::lists::leaving_out(&all, &deaf)
}

/// Whether a hop's link name means the link called `name`.
fn is_on_link(hop: &str, name: &str) -> (r: bool)
    ensures
        r == means_link(hop@, name@),
{
    same_text(hop, name) || same_text(hop, names::BROADCAST) || same_text(hop, names::ANY_LINK)
}

/// Why `listener` accepts a packet that is on `link`, if it does by the standard rules.
pub fn accepts(network: &Network, listener: NodeId, packet: &Packet, link: &Link) -> (r: Option<
    AcceptRule,
>)
    ensures
        r == acceptance(network@, listener, packet@, link@),
{
    let node = match network.node(listener) {
        Some(node) => node,
        None => return None,
    };
    let name = node.name();
    let to = packet.to();
    if same_text(packet.from().node(), name) {
        return None; // Never accept your own echo.
    }
    if same_text(to.node(), name) && is_on_link(to.link(), link.name()) {
        return Some(AcceptRule::Addressed);
    }
    if same_text(to.node(), names::BROADCAST) && is_on_link(to.link(), link.name()) {
        return Some(AcceptRule::Broadcast);
    }
    if link.owner() != Some(listener) {
        return None;
    }
    if same_text(to.node(), names::PARENT) {
        let children = node.children();
        let mut i: usize = 0;
        let mut from_child = false;
        while i < children.len()
            invariant
                i <= children.len(),
                node@.children == children@,
                from_child == exists|j: int|
                    0 <= j < i && network@.nodes.contains_key(#[trigger] children@[j])
                        && network@.nodes[children@[j]].name == packet@.from[0].node,
            decreases children.len() - i,
        {
            if let Some(child) = network.node(children[i]) {
                if same_text(child.name(), packet.from().node()) {
                    from_child = true;
                }
            }
            i += 1;
        }
        if from_child {
            return Some(AcceptRule::ChildToParent);
        }
    }
    // Gateway: the next hop is off this bus. Only the next hop counts: a node must not intercept
    // replies addressed to its own children just because they continue further inside those
    // children.
    if !is_on_link(to.link(), link.name()) {
        return Some(AcceptRule::Gateway);
    }
    None
}

impl World {
    /// The logic attached to `node`, if any.
    fn logic(&self, node: NodeId) -> (r: Option<&Behaviour>)
        ensures
            match r {
                Some(logic) => self@.logics.contains_key(node) && logic@ == self@.logics[node]
                    && crate::ids::is_key(node.spec_raw()),
                None => !self@.logics.contains_key(node),
            },
    {
        if node.is_key() {
            self.logics.get(node)
        } else {
            None
        }
    }

    /// Runs one logic callback for `node`. A logic that crashes is removed and reported, and the
    /// rest of the world carries on. Returns how many packets it sent, and what came of it.
    fn run_logic(
        &mut self,
        tick: u64,
        node: NodeId,
        arrival: Option<(LinkId, AcceptRule)>,
        call: Call<'_>,
    ) -> (r: (u64, Ghost<crate::behaviour::Reaction>))
        requires
            old(self).running(),
        ensures
            final(self).issued() == old(self).issued(),
            final(self).running(),
            old(self)@.may_react(tick, node, arrival, call@, r.1@),
            final(self)@ == old(self)@.ran(tick, node, r.1@),
            r.0 == old(self)@.sends(node, r.1@),
    {
        if self.logic(node).is_none() {
            return (0, Ghost(arbitrary()));
        }
        let mut queue = SendQueue::new(self.queue.limits());
        let mut trace = TraceLog::new();
        core::mem::swap(&mut queue, &mut self.queue);
        core::mem::swap(&mut trace, &mut self.trace);
        let queued_before = queue.len();
        let refused_before = queue.refused();
        let mut ctx = Context::open(&self.network, node, tick, arrival, queue, trace);
        let ghost seen = ctx@;
        assert(seen == old(self)@.context(tick, node, arrival));
        let ghost was = crate::side_slots::logic_entries(self.logics)[node];
        let (kind, result) = match self.logics.get_mut(node) {
            Some(logic) => {
                let kind = logic.kind();
                let result = logic.run(call, &mut ctx);
                (kind, result)
            },
            None => ("", Ok(())),
        };
        let ghost now = crate::side_slots::logic_entries(self.logics)[node];
        let ghost out = crate::behaviour::Reaction {
            behaviour: now@,
            context: ctx@,
            crash: match &result {
                Ok(_) => None,
                Err(why) => Some(why@),
            },
        };
        let (queue, trace) = ctx.close();
        assert(out.context.extends(seen));
        let sent = ((queue.len() - queued_before) as u64).saturating_add(
            queue.refused() - refused_before,
        );
        self.queue = queue;
        self.trace = trace;
        match result {
            Ok(_) => {
                assert(self@.logics =~= old(self)@.logics.insert(node, out.behaviour));
            },
            Err(why) => {
                self.logics.remove(node);
                assert(self@.logics =~= old(self)@.logics.remove(node));
                let mut message = "`".to_owned();
                message.append(kind);
                message.append("` logic panicked and was removed: ");
                message.append(why.as_str());
                self.monitor.on_logic_panicked(&mut self.trace, tick, node, message);
            },
        }
        (sent, Ghost(out))
    }
}

impl World {
    /// Counts a packet that `node` sent.
    fn count_sent(&mut self, node: NodeId)
        requires
            old(self).running(),
        ensures
            final(self).issued() == old(self).issued(),
            final(self).running(),
            final(self)@ == old(self)@.counted_sent(node),
    {
        let old_stats = self.stats(node);
        if node.is_key() {
            self.stats.insert(
                node,
                NodeStats { sent: old_stats.sent.saturating_add(1), ..old_stats },
            );
        }
    }

    /// Counts a packet that `node` received.
    fn count_received(&mut self, node: NodeId)
        requires
            old(self).running(),
        ensures
            final(self).issued() == old(self).issued(),
            final(self).running(),
            final(self)@ == old(self)@.counted_received(node),
    {
        let old_stats = self.stats(node);
        if node.is_key() {
            self.stats.insert(
                node,
                NodeStats { received: old_stats.received.saturating_add(1), ..old_stats },
            );
        }
    }

    /// Traffic counters for `node`. All zero for unknown nodes.
    pub fn stats(&self, node: NodeId) -> (r: NodeStats)
        ensures
            r == stats_of(self@.stats, node),
    {
        if node.is_key() {
            if let Some(stats) = self.stats.get(node) {
                return *stats;
            }
        }
        NodeStats { sent: 0, received: 0 }
    }

    /// Records what happened to a packet, where packets are traced.
    fn trace_packet(&mut self, event: TraceEvent)
        requires
            old(self).running(),
        ensures
            final(self).issued() == old(self).issued(),
            final(self).running(),
            final(self)@ == old(self)@.packet_traced(event@),
    {
        if self.trace_packets {
            self.trace.push(event);
        }
    }

    /// Lets `listener` hear a packet on `via`. Returns whether it got a copy, and what its logic
    /// said and did.
    fn hear(&mut self, tick: u64, via: LinkId, packet: &Packet, listener: NodeId) -> (r: (
        bool,
        Ghost<Hearing>,
    ))
        requires
            old(self).running(),
            old(self)@.network.links.contains_key(via),
        ensures
            final(self).issued() == old(self).issued(),
            final(self).running(),
            old(self)@.may_hear(tick, via, packet@, listener, r.1@),
            final(self)@ == old(self)@.heard(tick, via, packet@, listener, r.1@),
            r.0 == (old(self)@.accepted(via, packet@, listener, r.1@.wants) is Some),
    {
        let wants = match self.logic(listener) {
            Some(logic) => logic.wants(packet),
            None => false,
        };
        let standard = match self.network.link(via) {
            Some(link) => accepts(&self.network, listener, packet, link),
            None => None,
        };
        let rule = match standard {
            Some(rule) => rule,
            None => if wants {
                AcceptRule::Forced
            } else {
                return (false, Ghost(Hearing { wants, reaction: arbitrary() }));
            },
        };
        assert(self@.accepted(via, packet@, listener, wants) == Some(rule));
        if packet.ttl() <= 1 {
            self.totals.ttl_drops = self.totals.ttl_drops.saturating_add(1);
            self.monitor.on_ttl_expired(&mut self.trace, tick, listener);
            self.trace_packet(
                TraceEvent::Dropped {
                    tick,
                    packet: packet.id(),
                    at: Some(listener),
                    reason: DropReason::TtlExpired,
                },
            );
            return (true, Ghost(Hearing { wants, reaction: arbitrary() }));
        }
        let copy = packet.copy_for(listener);
        self.count_received(listener);
        self.monitor.on_delivered(&mut self.trace, tick, listener, &copy);
        self.trace_packet(
            TraceEvent::Delivered { tick, packet: packet.id(), receiver: listener, link: via, rule },
        );
        assert(self@ == old(self)@.arriving(tick, via, packet@, listener, rule));
        let (sent, out) = self.run_logic(tick, listener, Some((via, rule)), Call::Received(&copy));
        self.monitor.on_handled(&mut self.trace, tick, listener, sent);
        (true, Ghost(Hearing { wants, reaction: out@ }))
    }
}

/// What the first listeners heard does not depend on what comes later.
proof fn lemma_heard_by_push(
    w: WorldView,
    tick: u64,
    via: LinkId,
    packet: crate::packet::PacketView,
    listeners: Seq<NodeId>,
    hearings: Seq<Hearing>,
    more: Hearing,
)
    requires
        listeners.len() <= hearings.len(),
    ensures
        w.heard_by(tick, via, packet, listeners, hearings.push(more)) == w.heard_by(
            tick,
            via,
            packet,
            listeners,
            hearings,
        ),
        w.may_hear_all(tick, via, packet, listeners, hearings.push(more)) == w.may_hear_all(
            tick,
            via,
            packet,
            listeners,
            hearings,
        ),
        w.copies(tick, via, packet, listeners, hearings.push(more)) == w.copies(
            tick,
            via,
            packet,
            listeners,
            hearings,
        ),
    decreases listeners.len(),
{
    if listeners.len() > 0 {
        lemma_heard_by_push(w, tick, via, packet, listeners.drop_last(), hearings, more);
        assert(hearings.push(more)[listeners.len() - 1] == hearings[listeners.len() - 1]);
    }
}

/// The network stays as it is while packets are heard.
proof fn lemma_heard_by_network(
    w: WorldView,
    tick: u64,
    via: LinkId,
    packet: crate::packet::PacketView,
    listeners: Seq<NodeId>,
    hearings: Seq<Hearing>,
)
    ensures
        w.heard_by(tick, via, packet, listeners, hearings).network == w.network,
    decreases listeners.len(),
{
    if listeners.len() > 0 {
        lemma_heard_by_network(w, tick, via, packet, listeners.drop_last(), hearings);
    }
}

impl World {
    /// Puts one packet on its link and hands a copy to every listener that accepts it. Returns
    /// how many copies were delivered, or `None` if nothing was transmitted, and what the
    /// listeners' logics said and did.
    fn transmit(&mut self, tick: u64, out: Outgoing) -> (r: (Option<u64>, Ghost<Seq<Hearing>>))
        requires
            old(self).running(),
        ensures
            final(self).issued() == old(self).issued(),
            final(self).running(),
            old(self)@.may_transmit(tick, out@, r.1@),
            final(self)@ == old(self)@.transmitted(tick, out@, r.1@),
            match r.0 {
                Some(n) => old(self)@.delivered(tick, out@, r.1@) == Some(n as nat) && n <= old(
                    self,
                )@.audience_of(out@).len(),
                None => old(self)@.delivered(tick, out@, r.1@) is None,
            },
    {
        let ghost sent = out@;
        let ghost none: Seq<Hearing> = Seq::empty();
        proof {
            reveal(WorldView::may_transmit);
            reveal(WorldView::delivered);
            reveal(WorldView::transmitted);
        }
        self.next_packet = self.next_packet.wrapping_add(1);
        let id = PacketId::new(self.next_packet);
        let (sender, via) = (out.sender(), out.via());
        if !self.network.can_use_link(sender, via) {
            self.totals.sender_left_drops = self.totals.sender_left_drops.saturating_add(1);
            self.trace_packet(
                TraceEvent::Dropped {
                    tick,
                    packet: id,
                    at: Some(sender),
                    reason: DropReason::SenderLeftLink,
                },
            );
            return (None, Ghost(none));
        }
        let heard = match self.network.link(via) {
            Some(link) => listeners(&self.network, link, sender),
            None => Vec::new(),
        };
        let packet = out.into_packet(id);
        self.count_sent(sender);
        self.monitor.on_transmit(sender, via);
        self.trace_packet(TraceEvent::Sent { tick, packet: packet.clone(), sender, link: via });
        let ghost w = self@;
        assert(w == old(self)@.on_air(tick, sent));
        assert(packet@ == old(self)@.packet(sent));
        assert(heard@ == old(self)@.audience_of(sent));
        let ghost mut hearings = none;
        let mut delivered: u64 = 0;
        let mut i: usize = 0;
        assert(heard@.take(0) =~= Seq::<NodeId>::empty());
        while i < heard.len()
            invariant
                self.issued() == old(self).issued(),
                i <= heard.len(),
                hearings.len() == i,
                self.running(),
                w.network.links.contains_key(via),
                self@ == w.heard_by(tick, via, packet@, heard@.take(i as int), hearings),
                w.may_hear_all(tick, via, packet@, heard@.take(i as int), hearings),
                delivered == w.copies(tick, via, packet@, heard@.take(i as int), hearings),
                delivered <= i,
            decreases heard.len() - i,
        {
            proof {
                lemma_heard_by_network(w, tick, via, packet@, heard@.take(i as int), hearings);
                assert(heard@.take(i + 1).drop_last() =~= heard@.take(i as int));
                assert(heard@.take(i + 1)[i as int] == heard@[i as int]);
            }
            let (got, hearing) = self.hear(tick, via, &packet, heard[i]);
            proof {
                lemma_heard_by_push(
                    w,
                    tick,
                    via,
                    packet@,
                    heard@.take(i as int),
                    hearings,
                    hearing@,
                );
                hearings = hearings.push(hearing@);
                assert(hearings[i as int] == hearing@);
            }
            if got {
                delivered += 1;
            }
            i += 1;
        }
        assert(heard@.take(i as int) =~= heard@);
        if delivered == 0 {
            self.trace_packet(
                TraceEvent::Dropped { tick, packet: id, at: None, reason: DropReason::NoRecipient },
            );
        }
        (Some(delivered), Ghost(hearings))
    }
}

/// What the logics said and did during a tick: how they relay (where that was asked), what came
/// of their ticks, and what came of each packet.
#[verifier::ext_equal]
pub struct TickRun {
    pub modes: Seq<(NodeId, Relaying)>,
    pub ticks: Seq<crate::behaviour::Reaction>,
    pub batch: Seq<Seq<Hearing>>,
}

/// How far a tick has come with its batch of packets.
#[verifier::ext_equal]
pub struct Progress {
    pub world: WorldView,
    pub handled: nat,
    pub transmissions: u64,
    pub deliveries: u64,
    pub tripped: Option<FuseLimit>,
}

/// The handles in slot order.
pub open spec fn listing(all: Set<NodeId>) -> Seq<NodeId> {
    choose|ids: Seq<NodeId>| crate::network::is_listing(all, ids)
}

impl WorldView {
    /// The world as a tick begins: everything that waits is taken out of the queue, to be
    /// delivered, and still counts as pending.
    pub open spec fn begun(self) -> WorldView {
        WorldView {
            tick_count: (self.tick_count + 1) as u64,
            fuse: None,
            queue: crate::logic::QueueView {
                items: Seq::empty(),
                reserved: self.queue.items.len(),
                ..self.queue
            },
            ..self
        }
    }

    /// Whether the logics may relay as `modes` says.
    pub open spec fn may_survey(self, modes: Seq<(NodeId, Relaying)>) -> bool {
        let nodes = listing(self.logics.dom());
        &&& modes.len() == nodes.len()
        &&& forall|i: int|
            0 <= i < nodes.len() ==> (#[trigger] modes[i]).0 == nodes[i]
                && self.logics.contains_key(nodes[i]) && modes[i].1
                == self.logics[nodes[i]].relaying()
    }

    /// The world once its topology was checked for relay cycles.
    pub open spec fn surveyed(self, tick: u64, modes: Seq<(NodeId, Relaying)>) -> WorldView {
        WorldView {
            topology_changed: false,
            watch: self.watch.raise_all(crate::monitor::cycles(self.network, tick, modes)),
            ..self
        }
    }

    /// The world once the logics of the nodes had their ticks, one after the other.
    pub open spec fn ticked_by(
        self,
        tick: u64,
        nodes: Seq<NodeId>,
        reactions: Seq<crate::behaviour::Reaction>,
    ) -> WorldView
        decreases nodes.len(),
    {
        if nodes.len() == 0 {
            self
        } else {
            let n = nodes.len() - 1;
            self.ticked_by(tick, nodes.drop_last(), reactions).ran(tick, nodes[n], reactions[n])
        }
    }

    /// Whether the reactions are what may come of the logics' ticks, one after the other.
    pub open spec fn may_tick_all(
        self,
        tick: u64,
        nodes: Seq<NodeId>,
        reactions: Seq<crate::behaviour::Reaction>,
    ) -> bool
        decreases nodes.len(),
    {
        if nodes.len() == 0 {
            true
        } else {
            let n = nodes.len() - 1;
            &&& self.may_tick_all(tick, nodes.drop_last(), reactions)
            &&& self.ticked_by(tick, nodes.drop_last(), reactions).may_react(
                tick,
                nodes[n],
                None,
                crate::behaviour::CallView::Tick,
                reactions[n],
            )
        }
    }

    /// The world while `reserved` packets that left the queue still count.
    pub open spec fn reserving(self, reserved: nat) -> WorldView {
        WorldView { queue: crate::logic::QueueView { reserved, ..self.queue }, ..self }
    }

    /// How many take a copy of a queued packet.
    pub open spec fn demand(self, out: crate::logic::OutgoingView) -> nat {
        if self.network.can_use_link(out.sender, out.via) {
            takers(self.network, self.logics, out.via, self.packet(out), self.audience_of(out))
        } else {
            0
        }
    }

    /// How many might get a copy of a queued packet.
    pub open spec fn reach(self, out: crate::logic::OutgoingView) -> nat {
        if self.network.links.contains_key(out.via) {
            self.network.links[out.via].subscribers.len() + 1
        } else {
            0
        }
    }

    /// How far a tick has come with the first `n` packets of its batch. It stops at the packet
    /// that would break a limit.
    pub open spec fn progress(
        self,
        tick: u64,
        batch: Seq<crate::logic::OutgoingView>,
        hearings: Seq<Seq<Hearing>>,
        n: nat,
    ) -> Progress
        decreases n,
    {
        if n == 0 {
            Progress {
                world: self,
                handled: 0,
                transmissions: 0,
                deliveries: 0,
                tripped: None,
            }
        } else {
            let p = self.progress(tick, batch, hearings, (n - 1) as nat);
            if p.tripped is Some {
                p
            } else {
                p.advanced(
                    tick,
                    batch[n - 1],
                    hearings[n - 1],
                    (batch.len() - n) as nat,
                )
            }
        }
    }

    /// Whether the hearings are what may come of the first `n` packets of a batch.
    pub open spec fn may_progress(
        self,
        tick: u64,
        batch: Seq<crate::logic::OutgoingView>,
        hearings: Seq<Seq<Hearing>>,
        n: nat,
    ) -> bool
        decreases n,
    {
        if n == 0 {
            true
        } else {
            let p = self.progress(tick, batch, hearings, (n - 1) as nat);
            let out = batch[n - 1];
            let left = (batch.len() - n) as nat;
            &&& self.may_progress(tick, batch, hearings, (n - 1) as nat)
            &&& p.tripped is None && p.trips(out) is None ==> p.world.reserving(
                left,
            ).may_transmit(tick, out, hearings[n - 1])
        }
    }

    /// The world once its topology was checked, where it changed since the last tick.
    pub open spec fn checked(self, tick: u64, run: TickRun) -> WorldView {
        if self.topology_changed {
            self.surveyed(tick, run.modes)
        } else {
            self
        }
    }

    /// The world once the logics had their ticks.
    pub open spec fn after_ticks(self, run: TickRun) -> WorldView {
        let w = self.begun();
        w.checked(w.tick_count, run).ticked_by(
            w.tick_count,
            listing(self.logics.dom()),
            run.ticks,
        )
    }

    /// How far a tick came with its batch: everything that was queued before it began.
    pub open spec fn batch_progress(self, run: TickRun) -> Progress {
        self.after_ticks(run).progress(
            self.begun().tick_count,
            self.queue.items,
            run.batch,
            self.queue.items.len(),
        )
    }

    /// The world once it had a tick.
    pub open spec fn ticked(self, run: TickRun) -> WorldView {
        self.batch_progress(run).finished(self.begun().tick_count, self.queue.items)
    }

    /// Whether the logics may say and do in a tick what `run` says.
    pub open spec fn may_run(self, run: TickRun) -> bool {
        let w = self.begun();
        let checked = w.checked(w.tick_count, run);
        &&& w.topology_changed ==> w.may_survey(run.modes)
        &&& checked.may_tick_all(w.tick_count, listing(self.logics.dom()), run.ticks)
        &&& self.after_ticks(run).may_progress(
            w.tick_count,
            self.queue.items,
            run.batch,
            self.queue.items.len(),
        )
    }
}

impl Progress {
    /// The world once a tick is over: what was not sent waits ahead of what was sent meanwhile,
    /// the totals are up to date, and the fuse tells why it tripped if it did.
    #[verifier::opaque]
    pub open spec fn finished(
        self,
        tick: u64,
        batch: Seq<crate::logic::OutgoingView>,
    ) -> WorldView {
        let w = self.world.reserving(0);
        let queue = if self.tripped is Some {
            crate::logic::QueueView { items: batch.skip(self.handled as int) + w.queue.items, ..w.queue }
        } else {
            w.queue
        };
        let limit = match self.tripped {
            Some(limit) => Some(limit),
            None => if queue.refused > w.refused_seen {
                Some(FuseLimit::Queue)
            } else {
                None
            },
        };
        let watch = w.watch.ended(tick);
        WorldView {
            queue,
            refused_seen: queue.refused,
            totals: Totals {
                transmissions: self.transmissions,
                deliveries: self.deliveries,
                peak_transmissions: if self.transmissions > w.totals.peak_transmissions {
                    self.transmissions
                } else {
                    w.totals.peak_transmissions
                },
                fuse_trips: if limit is Some {
                    crate::trace::bump(w.totals.fuse_trips)
                } else {
                    w.totals.fuse_trips
                },
                ..w.totals
            },
            fuse: match limit {
                Some(limit) => Some(
                    FuseView {
                        tick,
                        limit,
                        max: limit.configured(queue.limits),
                        held_back: queue.items.len(),
                        top_senders: crate::tally::top(w.watch.monitor.node_sends, 5),
                        top_links: crate::tally::top(w.watch.monitor.link_sends, 5),
                        recent_alerts: watch.monitor.recent_alerts(
                            crate::monitor::elapsed(tick, 200),
                        ),
                    },
                ),
                None => None,
            },
            watch,
            ..w
        }
    }

    /// The limit that the next packet would break, if it would. Once something was delivered, a
    /// packet has to wait where it might break the limit; before that, where it would.
    pub open spec fn trips(self, out: crate::logic::OutgoingView) -> Option<FuseLimit> {
        let limits = self.world.queue.limits;
        let more = if self.deliveries == 0 {
            self.world.demand(out)
        } else {
            self.world.reach(out)
        };
        if self.transmissions >= limits.max_transmissions_per_tick {
            Some(FuseLimit::Transmissions)
        } else if self.deliveries + more > limits.max_deliveries_per_tick {
            Some(FuseLimit::Deliveries)
        } else {
            None
        }
    }

    /// How far the tick has come once the next packet had its turn.
    pub open spec fn advanced(
        self,
        tick: u64,
        out: crate::logic::OutgoingView,
        hearings: Seq<Hearing>,
        left: nat,
    ) -> Progress {
        let w = self.world.reserving(left);
        match self.trips(out) {
            Some(limit) => Progress { world: w, tripped: Some(limit), ..self },
            None => match w.delivered(tick, out, hearings) {
                Some(n) => Progress {
                    world: w.transmitted(tick, out, hearings),
                    handled: self.handled + 1,
                    transmissions: capped(self.transmissions + 1),
                    deliveries: capped(self.deliveries + n),
                    tripped: None,
                },
                None => Progress {
                    world: w.transmitted(tick, out, hearings),
                    handled: self.handled + 1,
                    ..self
                },
            },
        }
    }
}

/// What the first nodes did on their ticks does not depend on what comes later.
proof fn lemma_ticked_by_push(
    w: WorldView,
    tick: u64,
    nodes: Seq<NodeId>,
    reactions: Seq<crate::behaviour::Reaction>,
    more: crate::behaviour::Reaction,
)
    requires
        nodes.len() <= reactions.len(),
    ensures
        w.ticked_by(tick, nodes, reactions.push(more)) == w.ticked_by(tick, nodes, reactions),
        w.may_tick_all(tick, nodes, reactions.push(more)) == w.may_tick_all(
            tick,
            nodes,
            reactions,
        ),
    decreases nodes.len(),
{
    if nodes.len() > 0 {
        lemma_ticked_by_push(w, tick, nodes.drop_last(), reactions, more);
        assert(reactions.push(more)[nodes.len() - 1] == reactions[nodes.len() - 1]);
    }
}

/// What came of the first packets does not depend on what comes later.
proof fn lemma_progress_push(
    w: WorldView,
    tick: u64,
    batch: Seq<crate::logic::OutgoingView>,
    hearings: Seq<Seq<Hearing>>,
    more: Seq<Hearing>,
    n: nat,
)
    requires
        n <= hearings.len(),
    ensures
        w.progress(tick, batch, hearings.push(more), n) == w.progress(tick, batch, hearings, n),
        w.may_progress(tick, batch, hearings.push(more), n) == w.may_progress(
            tick,
            batch,
            hearings,
            n,
        ),
    decreases n,
{
    if n > 0 {
        lemma_progress_push(w, tick, batch, hearings, more, (n - 1) as nat);
        assert(hearings.push(more)[n - 1] == hearings[n - 1]);
    }
}

/// Once a limit is reached, the rest of the batch makes no difference.
proof fn lemma_progress_stops(
    w: WorldView,
    tick: u64,
    batch: Seq<crate::logic::OutgoingView>,
    hearings: Seq<Seq<Hearing>>,
    n: nat,
    m: nat,
)
    requires
        n <= m,
        w.progress(tick, batch, hearings, n).tripped is Some,
        w.may_progress(tick, batch, hearings, n),
    ensures
        w.progress(tick, batch, hearings, m) == w.progress(tick, batch, hearings, n),
        w.may_progress(tick, batch, hearings, m),
    decreases m,
{
    if n < m {
        lemma_progress_stops(w, tick, batch, hearings, n, (m - 1) as nat);
    }
}

impl World {
    /// How the logics relay, in slot order.
    fn modes(&self) -> (r: Vec<(NodeId, Relaying)>)
        ensures
            self@.may_survey(r@),
    {
        let nodes = self.logic_nodes();
        let mut modes: Vec<(NodeId, Relaying)> = Vec::new();
        let mut i: usize = 0;
        while i < nodes.len()
            invariant
                i <= nodes.len(),
                modes.len() == i,
                nodes@ == listing(self@.logics.dom()),
                forall|k: NodeId| #[trigger] nodes@.contains(k) ==> self@.logics.contains_key(k),
                forall|j: int|
                    0 <= j < i ==> (#[trigger] modes@[j]).0 == nodes@[j]
                        && self@.logics.contains_key(nodes@[j])
                        && modes@[j].1
                        == self@.logics[nodes@[j]].relaying(),
            decreases nodes.len() - i,
        {
            assert(nodes@.contains(nodes@[i as int]));
            let mode = match self.logic(nodes[i]) {
                Some(logic) => logic.relaying(),
                None => Relaying::Never,
            };
            modes.push((nodes[i], mode));
            i += 1;
        }
        modes
    }

    /// The nodes that have a logic, in slot order.
    fn logic_nodes(&self) -> (r: Vec<NodeId>)
        ensures
            r@ == listing(self@.logics.dom()),
            forall|k: NodeId| #[trigger] r@.contains(k) ==> self@.logics.contains_key(k),
    {
        let r = self.logics.ids();
        proof {
            let all = self@.logics.dom();
            assert forall|k: NodeId| #[trigger] r@.contains(k) <==> all.contains(k) by {
                assert(crate::side_slots::logic_entries(self.logics).contains_key(k)
                    <==> self@.logics.contains_key(k));
            }
            assert(crate::network::is_listing(all, r@));
            crate::network::lemma_listing_unique(all, r@, listing(all));
        }
        r
    }

    /// Runs every logic's `on_tick`. Returns what came of them.
    fn tick_logics(&mut self, tick: u64, nodes: &Vec<NodeId>) -> (r: Ghost<
        Seq<crate::behaviour::Reaction>,
    >)
        requires
            old(self).running(),
        ensures
            final(self).issued() == old(self).issued(),
            final(self).running(),
            old(self)@.may_tick_all(tick, nodes@, r@),
            final(self)@ == old(self)@.ticked_by(tick, nodes@, r@),
    {
        let ghost mut reactions: Seq<crate::behaviour::Reaction> = Seq::empty();
        let mut i: usize = 0;
        assert(nodes@.take(0) =~= Seq::<NodeId>::empty());
        while i < nodes.len()
            invariant
                self.issued() == old(self).issued(),
                i <= nodes.len(),
                reactions.len() == i,
                self.running(),
                old(self)@.may_tick_all(tick, nodes@.take(i as int), reactions),
                self@ == old(self)@.ticked_by(tick, nodes@.take(i as int), reactions),
            decreases nodes.len() - i,
        {
            assert(nodes@.take(i + 1).drop_last() =~= nodes@.take(i as int));
            let (_, out) = self.run_logic(tick, nodes[i], None, Call::Tick);
            proof {
                lemma_ticked_by_push(
                    old(self)@,
                    tick,
                    nodes@.take(i as int),
                    reactions,
                    out@,
                );
                reactions = reactions.push(out@);
                assert(reactions[i as int] == out@);
            }
            i += 1;
        }
        assert(nodes@.take(i as int) =~= nodes@);
        Ghost(reactions)
    }

    /// How many take a copy of a queued packet.
    fn demand(&self, out: &Outgoing) -> (r: u64)
        ensures
            r == self@.demand(out@),
    {
        let (sender, via) = (out.sender(), out.via());
        if !self.network.can_use_link(sender, via) {
            return 0;
        }
        let packet = out.to_packet(PacketId::new(self.next_packet.wrapping_add(1)));
        assert(packet@ == self@.packet(out@));
        let mut count: u64 = 0;
        if let Some(link) = self.network.link(via) {
            let heard = listeners(&self.network, link, sender);
            let mut i: usize = 0;
            assert(heard@.take(0) =~= Seq::<NodeId>::empty());
            while i < heard.len()
                invariant
                    i <= heard.len(),
                    count <= i,
                    self.network@.links.contains_key(via),
                    link@ == self.network@.links[via],
                    count == takers(
                        self@.network,
                        self@.logics,
                        via,
                        packet@,
                        heard@.take(i as int),
                    ),
                decreases heard.len() - i,
            {
                assert(heard@.take(i + 1).drop_last() =~= heard@.take(i as int));
                let wants = match self.logic(heard[i]) {
                    Some(logic) => logic.wants(&packet),
                    None => false,
                };
                if wants || accepts(&self.network, heard[i], &packet, link).is_some() {
                    count += 1;
                }
                i += 1;
            }
            assert(heard@.take(i as int) =~= heard@);
        }
        count
    }

    /// The limit that a queued packet would break, if it would.
    fn limit_reached(&self, transmissions: u64, deliveries: u64, out: &Outgoing) -> (r: Option<
        FuseLimit,
    >)
        ensures
            forall|p: Progress|
                p.world.network == self@.network && p.world.logics == self@.logics
                    && p.world.next_packet == self@.next_packet && p.world.queue.limits
                    == self@.queue.limits && p.transmissions == transmissions && p.deliveries
                    == deliveries ==> r == #[trigger] p.trips(out@),
    {
        let limits = self.queue.limits();
        if transmissions >= limits.max_transmissions_per_tick {
            return Some(FuseLimit::Transmissions);
        }
        let max = limits.max_deliveries_per_tick;
        let over = if deliveries == 0 {
            self.demand(out) > max
        } else {
            match self.network.link(out.via()) {
                Some(link) => deliveries > max || link.subscribers().len() as u64 >= max
                    - deliveries,
                None => deliveries > max,
            }
        };
        if over {
            Some(FuseLimit::Deliveries)
        } else {
            None
        }
    }

    /// Delivers the batch, as far as the limits allow. Returns the packets left over, how far it
    /// came, and what came of each packet.
    fn deliver(&mut self, tick: u64, batch: VecDeque<Outgoing>) -> (r: (
        VecDeque<Outgoing>,
        u64,
        u64,
        Option<FuseLimit>,
        Ghost<Seq<Seq<Hearing>>>,
    ))
        requires
            old(self).running(),
        ensures
            final(self).issued() == old(self).issued(),
            final(self).running(),
            ({
                let all = crate::logic::outgoing_views(batch@);
                let p = old(self)@.progress(tick, all, r.4@, all.len());
                &&& old(self)@.may_progress(tick, all, r.4@, all.len())
                &&& final(self)@ == p.world
                &&& crate::logic::outgoing_views(r.0@) == all.skip(p.handled as int)
                &&& r.1 == p.transmissions
                &&& r.2 == p.deliveries
                &&& r.3 == p.tripped
            }),
    {
        let ghost all = crate::logic::outgoing_views(batch@);
        let ghost start = self@;
        let ghost mut hearings: Seq<Seq<Hearing>> = Seq::empty();
        let mut rest = batch;
        let mut transmissions: u64 = 0;
        let mut deliveries: u64 = 0;
        let mut tripped: Option<FuseLimit> = None;
        let ghost mut n: nat = 0;
        assert(all.skip(0) =~= all);
        while tripped.is_none() && rest.len() > 0
            invariant
                self.issued() == old(self).issued(),
                n <= all.len(),
                hearings.len() == n,
                self.running(),
                start.may_progress(tick, all, hearings, n),
                ({
                    let p = start.progress(tick, all, hearings, n);
                    &&& self@ == p.world
                    &&& transmissions == p.transmissions
                    &&& deliveries == p.deliveries
                    &&& tripped == p.tripped
                    &&& tripped is None ==> p.handled == n
                    &&& p.handled <= all.len()
                    &&& crate::logic::outgoing_views(rest@) == all.skip(p.handled as int)
                }),
            decreases all.len() - n,
        {
            let ghost was = rest@;
            let ghost views = crate::logic::outgoing_views(was);
            assert(views.len() == was.len());
            assert(views[0] == all[n as int]);
            if let Some(out) = rest.pop_front() {
                let ghost sent = out@;
                proof {
                    assert(sent == all[n as int]);
                    assert(rest@ =~= was.skip(1));
                    assert(crate::logic::outgoing_views(rest@) =~= views.skip(1));
                    assert(views.skip(1) =~= all.skip((n + 1) as int));
                    assert(crate::logic::outgoing_views(rest@).len() == rest@.len());
                }
                self.queue.set_reserved(rest.len());
                let ghost before = start.progress(tick, all, hearings, n);
                assert(self@ == before.world.reserving((all.len() - (n + 1)) as nat));
                let ghost mut more: Seq<Hearing> = Seq::empty();
                tripped = self.limit_reached(transmissions, deliveries, &out);
                assert(tripped == before.trips(sent));
                if tripped.is_some() {
                    rest.push_front(out);
                    assert(crate::logic::outgoing_views(rest@) =~= views);
                } else {
                    let (count, heard) = self.transmit(tick, out);
                    proof {
                        more = heard@;
                    }
                    if let Some(count) = count {
                        transmissions = transmissions.saturating_add(1);
                        deliveries = deliveries.saturating_add(count);
                    }
                }
                proof {
                    lemma_progress_push(start, tick, all, hearings, more, n);
                    hearings = hearings.push(more);
                    assert(hearings[n as int] == more);
                    n = n + 1;
                    assert(start.progress(tick, all, hearings, n) == before.advanced(
                        tick,
                        sent,
                        more,
                        (all.len() - n) as nat,
                    ));
                }
            }
        }
        proof {
            let p = start.progress(tick, all, hearings, n);
            if tripped is Some {
                lemma_progress_stops(start, tick, all, hearings, n, all.len());
            } else {
                assert(crate::logic::outgoing_views(rest@).len() == rest@.len());
                assert(n == all.len());
            }
        }
        (rest, transmissions, deliveries, tripped, Ghost(hearings))
    }
}

impl World {
    /// Ends a tick: keeps what was not sent ahead of what was sent meanwhile, brings the totals up
    /// to date, and reports why the fuse tripped if it did.
    fn finish(
        &mut self,
        tick: u64,
        held: VecDeque<Outgoing>,
        transmissions: u64,
        deliveries: u64,
        tripped: Option<FuseLimit>,
    )
        requires
            old(self).running(),
        ensures
            final(self).issued() == old(self).issued(),
            final(self).inv(),
            forall|batch: Seq<crate::logic::OutgoingView>, p: Progress|
                p.world == old(self)@ && p.transmissions == transmissions && p.deliveries
                    == deliveries && p.tripped == tripped && (tripped is Some ==> batch.skip(
                    p.handled as int,
                ) == crate::logic::outgoing_views(held@)) ==> final(self)@
                    == #[trigger] p.finished(tick, batch),
    {
        proof {
            reveal(Progress::finished);
        }
        self.queue.set_reserved(0);
        let mut limit = tripped;
        if tripped.is_some() {
            self.queue.put_back(held);
        } else if self.queue.refused() > self.refused_seen {
            limit = Some(FuseLimit::Queue);
        }
        self.refused_seen = self.queue.refused();
        self.totals.transmissions = transmissions;
        self.totals.deliveries = deliveries;
        if transmissions > self.totals.peak_transmissions {
            self.totals.peak_transmissions = transmissions;
        }
        match limit {
            Some(limit) => {
                self.totals.fuse_trips = self.totals.fuse_trips.saturating_add(1);
                let limits = self.queue.limits();
                let max = match limit {
                    FuseLimit::Transmissions => limits.max_transmissions_per_tick,
                    FuseLimit::Deliveries => limits.max_deliveries_per_tick,
                    FuseLimit::Queue => limits.max_pending as u64,
                };
                let held_back = self.queue.len();
                let top_senders = self.monitor.top_senders(5);
                let top_links = self.monitor.top_links(5);
                self.monitor.end_tick(&mut self.trace, tick);
                let recent_alerts = self.monitor.recent_alerts(tick.saturating_sub(200));
                self.fuse = Some(
                    FuseReport {
                        tick,
                        limit,
                        max,
                        held_back,
                        top_senders,
                        top_links,
                        recent_alerts,
                    },
                );
            },
            None => {
                self.monitor.end_tick(&mut self.trace, tick);
                self.fuse = None;
            },
        }
    }

    /// Advances the simulation by one tick. Returns [`TickOutcome::FuseTripped`] if a
    /// [`Limits`] bound was reached; the host should then pause and look at
    /// [`fuse_report`](Self::fuse_report).
    pub fn tick(&mut self) -> (r: TickOutcome)
        requires
            old(self).inv(),
            old(self)@.tick_count < u64::MAX,
        ensures
            final(self).issued() == old(self).issued(),
            final(self).inv(),
            exists|run: TickRun|
                #[trigger] old(self)@.may_run(run) && final(self)@ == old(self)@.ticked(run),
            r == (if final(self)@.fuse is Some {
                TickOutcome::FuseTripped
            } else {
                TickOutcome::Completed
            }),
    {
        let ghost start = self@;
        self.tick_count += 1;
        let tick = self.tick_count;
        self.fuse = None;
        let batch = self.queue.take();
        let ghost all = crate::logic::outgoing_views(batch@);
        assert(all.len() == batch@.len());
        self.queue.set_reserved(batch.len());
        let ghost begun = self@;
        assert(begun == start.begun());
        let ghost mut modes: Seq<(NodeId, Relaying)> = Seq::empty();
        if self.topology_changed {
            self.topology_changed = false;
            let found = self.modes();
            proof {
                modes = found@;
            }
            self.monitor.check_topology(&mut self.trace, tick, &self.network, &found);
        }
        let ghost checked = self@;
        let nodes = self.logic_nodes();
        let ticks = self.tick_logics(tick, &nodes);
        let ghost ticked = self@;
        let (held, transmissions, deliveries, tripped, hearings) = self.deliver(tick, batch);
        let ghost run = TickRun { modes, ticks: ticks@, batch: hearings@ };
        let ghost p = ticked.progress(tick, all, hearings@, all.len());
        self.finish(tick, held, transmissions, deliveries, tripped);
        proof {
            assert(checked == begun.checked(tick, run));
            assert(ticked == start.after_ticks(run));
            assert(start.queue.items == all);
            assert(p == start.batch_progress(run));
            assert(self@ == p.finished(tick, all));
            assert(start.may_run(run));
        }
        if self.fuse.is_some() {
            TickOutcome::FuseTripped
        } else {
            TickOutcome::Completed
        }
    }
}

impl WorldView {
    /// A world with nothing in it but the root node, at tick zero, with packet tracing on and the
    /// standard limits and settings.
    pub open spec fn is_new(self) -> bool {
        &&& self.network.only_root()
        &&& self.tick_count == 0
        &&& self.logics == Map::<NodeId, crate::behaviour::BehaviourView>::empty()
        &&& self.stats == Map::<NodeId, NodeStats>::empty()
        &&& self.queue.items == Seq::<crate::logic::OutgoingView>::empty()
        &&& self.queue.reserved == 0
        &&& self.queue.refused == 0
        &&& self.queue.limits.max_transmissions_per_tick == 5_000
        &&& self.queue.limits.max_deliveries_per_tick == 50_000
        &&& self.queue.limits.max_pending == 20_000
        &&& self.queue.limits.max_payload_bytes == 64 * 1024
        &&& self.next_packet == 0
        &&& self.watch.monitor == crate::monitor::MonitorView::fresh(MonitorConfig::standard())
        &&& self.watch.log.events == Seq::<crate::trace::TraceView>::empty()
        &&& self.watch.log.discarded == 0
        &&& self.trace_packets
        &&& !self.topology_changed
        &&& self.totals == Totals {
            transmissions: 0,
            deliveries: 0,
            peak_transmissions: 0,
            ttl_drops: 0,
            sender_left_drops: 0,
            fuse_trips: 0,
        }
        &&& self.fuse is None
        &&& self.refused_seen == 0
    }

    /// The world's load.
    pub open spec fn health(self) -> Health {
        Health {
            tick: self.tick_count,
            transmissions: self.totals.transmissions,
            deliveries: self.totals.deliveries,
            peak_transmissions: self.totals.peak_transmissions,
            pending: self.queue.items.len() as usize,
            refused_sends: self.queue.refused,
            ttl_drops: self.totals.ttl_drops,
            sender_left_drops: self.totals.sender_left_drops,
            alerts: self.watch.monitor.alerts_raised,
            fuse_trips: self.totals.fuse_trips,
            trace_len: self.watch.log.events.len() as usize,
            trace_discarded: self.watch.log.discarded,
        }
    }

    /// The world once a logic was attached to `node`, in place of any it had, and had its start.
    pub open spec fn attached(
        self,
        node: NodeId,
        behaviour: crate::behaviour::BehaviourView,
        out: crate::behaviour::Reaction,
    ) -> WorldView {
        let next = WorldView {
            queue: out.context.queue,
            watch: crate::monitor::Watch { log: out.context.log, ..self.watch },
            topology_changed: true,
            ..self
        };
        match out.crash {
            None => WorldView {
                logics: crate::side_slots::entered(self.logics, node, out.behaviour),
                ..next
            },
            Some(why) => WorldView {
                logics: self.logics.remove(node),
                watch: next.watch.logic_panicked(
                    self.tick_count,
                    node,
                    crash_message(behaviour.kind(), why),
                ),
                ..next
            },
        }
    }

    /// The world once one of the crate's own logics was attached to `node`. Their start changes
    /// nothing.
    pub open spec fn with_logic(
        self,
        node: NodeId,
        behaviour: crate::behaviour::BehaviourView,
    ) -> WorldView {
        WorldView {
            logics: crate::side_slots::entered(self.logics, node, behaviour),
            topology_changed: true,
            ..self
        }
    }

    /// The world once the logic of `node` was taken away.
    pub open spec fn without_logic(self, node: NodeId) -> WorldView {
        WorldView { logics: self.logics.remove(node), topology_changed: true, ..self }
    }

    /// The world once `node`, everything inside it, and all that belongs to them was removed.
    pub open spec fn without_node(self, node: NodeId) -> WorldView {
        let gone = self.network.doomed_nodes(node);
        WorldView {
            network: self.network.removed(node),
            logics: self.logics.remove_keys(gone),
            stats: self.stats.remove_keys(gone),
            topology_changed: true,
            ..self
        }
    }
}

/// Putting a value in and looking at the contents is looking at the contents and putting the
/// value's content in.
proof fn lemma_entered_views(m: Map<NodeId, Behaviour>, k: NodeId, v: Behaviour)
    ensures
        behaviour_views(crate::side_slots::entered(m, k, v)) == crate::side_slots::entered(
            behaviour_views(m),
            k,
            v@,
        ),
{
    assert(behaviour_views(m).dom() =~= m.dom());
    assert(behaviour_views(crate::side_slots::entered(m, k, v)) =~= crate::side_slots::entered(
        behaviour_views(m),
        k,
        v@,
    ));
}

impl Default for World {
    /// A world with an empty network, at tick zero, with packet tracing on.
    fn default() -> (r: Self)
        ensures
            r.inv(),
            r@.is_new(),
            r@.network.inv(),
            r.issued().nothing_removed(),
    {
        Self::new()
    }
}

impl World {
    /// Creates a world with an empty network, at tick zero, with packet tracing on.
    pub fn new() -> (r: Self)
        ensures
            r.inv(),
            r@.is_new(),
            r@.network.inv(),
            r.issued().nothing_removed(),
    {
        let r = World {
            network: Network::new(),
            tick_count: 0,
            logics: LogicSlots::empty(),
            stats: StatSlots::empty(),
            queue: SendQueue::new(Limits::default()),
            next_packet: 0,
            trace: TraceLog::new(),
            trace_packets: true,
            monitor: Monitor::new(MonitorConfig::default()),
            topology_changed: false,
            totals: Totals {
                transmissions: 0,
                deliveries: 0,
                peak_transmissions: 0,
                ttl_drops: 0,
                sender_left_drops: 0,
                fuse_trips: 0,
            },
            fuse: None,
            refused_seen: 0,
        };
        proof {
            assert(r@.logics =~= Map::<NodeId, crate::behaviour::BehaviourView>::empty());
            assert(r@.stats =~= Map::<NodeId, NodeStats>::empty());
        }
        r
    }

    /// Returns how many ticks have run since the world was created.
    pub fn tick_count(&self) -> (r: u64)
        ensures
            r == self@.tick_count,
    {
        self.tick_count
    }

    /// The handles given out so far.
    pub closed spec fn issued(&self) -> crate::handles::Issued {
        self.network.issued()
    }

    /// The world's node/link graph.
    pub fn network(&self) -> (r: &Network)
        ensures
            r@ == self@.network,
            r.issued() == self.issued(),
    {
        &self.network
    }

    /// Mutable access to the world's node/link graph, for building or changing topology.
    pub fn network_mut(&mut self) -> (r: &mut Network)
        ensures
            r@ == old(self)@.network,
            r.issued() == old(self).issued(),
            final(self).issued() == final(r).issued(),
            final(self)@ == (WorldView {
                network: final(r)@,
                topology_changed: true,
                ..old(self)@
            }),
            old(self).inv() ==> final(self).inv(),
    {
        self.topology_changed = true;
        &mut self.network
    }

    /// The fuse's limits.
    pub fn limits(&self) -> (r: Limits)
        ensures
            r == self@.queue.limits,
    {
        self.queue.limits()
    }

    /// Changes the fuse's limits.
    pub fn set_limits(&mut self, limits: Limits)
        requires
            old(self).inv(),
        ensures
            final(self).issued() == old(self).issued(),
            final(self).inv(),
            final(self)@ == (WorldView {
                queue: crate::logic::QueueView { limits, ..old(self)@.queue },
                ..old(self)@
            }),
    {
        self.queue.set_limits(limits);
    }

    /// The monitor's thresholds.
    pub fn monitor_config(&self) -> (r: &MonitorConfig)
        ensures
            *r == self@.watch.monitor.config,
    {
        self.monitor.config()
    }

    /// Changes the monitor's thresholds.
    pub fn set_monitor_config(&mut self, config: MonitorConfig)
        requires
            old(self).inv(),
        ensures
            final(self).issued() == old(self).issued(),
            final(self).inv(),
            final(self)@ == (WorldView {
                watch: crate::monitor::Watch {
                    monitor: crate::monitor::MonitorView { config, ..old(self)@.watch.monitor },
                    ..old(self)@.watch
                },
                ..old(self)@
            }),
    {
        self.monitor.set_config(config);
    }

    /// Whether every packet sent, delivered and dropped is recorded in the trace. Turning it off
    /// makes busy simulations much cheaper; alerts and notes are always recorded.
    pub fn set_trace_packets(&mut self, enabled: bool)
        requires
            old(self).inv(),
        ensures
            final(self).issued() == old(self).issued(),
            final(self).inv(),
            final(self)@ == (WorldView { trace_packets: enabled, ..old(self)@ }),
    {
        self.trace_packets = enabled;
    }

    /// Running totals for the world's load.
    pub fn health(&self) -> (r: Health)
        ensures
            r == self@.health(),
    {
        Health {
            tick: self.tick_count,
            transmissions: self.totals.transmissions,
            deliveries: self.totals.deliveries,
            peak_transmissions: self.totals.peak_transmissions,
            pending: self.queue.len(),
            refused_sends: self.queue.refused(),
            ttl_drops: self.totals.ttl_drops,
            sender_left_drops: self.totals.sender_left_drops,
            alerts: self.monitor.alerts_raised(),
            fuse_trips: self.totals.fuse_trips,
            trace_len: self.trace.len(),
            trace_discarded: self.trace.discarded(),
        }
    }

    /// Why the fuse tripped, if the last tick tripped it.
    pub fn fuse_report(&self) -> (r: Option<&FuseReport>)
        ensures
            match r {
                Some(report) => self@.fuse == Some(report@),
                None => self@.fuse is None,
            },
    {
        match &self.fuse {
            Some(report) => Some(report),
            None => None,
        }
    }

    /// Attaches `behaviour` to `node` and runs its start. Returns what came of that.
    fn attach_and_start(&mut self, node: NodeId, behaviour: Behaviour) -> (r: Ghost<
        crate::behaviour::Reaction,
    >)
        requires
            old(self).inv(),
            crate::ids::is_key(node.spec_raw()),
        ensures
            final(self).issued() == old(self).issued(),
            final(self).inv(),
            behaviour@.may_react(
                crate::behaviour::CallView::Start,
                old(self)@.context(old(self)@.tick_count, node, None),
                r@,
            ),
            final(self)@ == old(self)@.attached(node, behaviour@, r@),
    {
        let ghost start = self@;
        let mut behaviour = behaviour;
        let kind = behaviour.kind();
        let tick = self.tick_count;
        let mut queue = SendQueue::new(self.queue.limits());
        let mut trace = TraceLog::new();
        core::mem::swap(&mut queue, &mut self.queue);
        core::mem::swap(&mut trace, &mut self.trace);
        let mut ctx = Context::open(&self.network, node, tick, None, queue, trace);
        let ghost seen = ctx@;
        let result = behaviour.run(Call::Start, &mut ctx);
        let ghost out = crate::behaviour::Reaction {
            behaviour: behaviour@,
            context: ctx@,
            crash: match &result {
                Ok(_) => None,
                Err(why) => Some(why@),
            },
        };
        let (queue, trace) = ctx.close();
        assert(out.context.extends(seen));
        self.queue = queue;
        self.trace = trace;
        self.topology_changed = true;
        match result {
            Ok(_) => {
                proof {
                    lemma_entered_views(
                        crate::side_slots::logic_entries(self.logics),
                        node,
                        behaviour,
                    );
                }
                self.logics.insert(node, behaviour);
            },
            Err(why) => {
                self.logics.remove(node);
                assert(self@.logics =~= start.logics.remove(node));
                let mut message = "`".to_owned();
                message.append(kind);
                message.append("` logic panicked and was removed: ");
                message.append(why.as_str());
                self.monitor.on_logic_panicked(&mut self.trace, tick, node, message);
            },
        }
        Ghost(out)
    }

    /// Attaches `logic` to `node`, replacing any it had, and runs its `on_start`. A logic that
    /// crashes on its start is removed and reported.
    ///
    /// # Errors
    ///
    /// Fails if the node does not exist.
    pub fn set_logic(&mut self, node: NodeId, logic: Box<dyn ControllerLogic>) -> (r: Result<
        (),
        LogicError,
    >)
        requires
            old(self).inv(),
        ensures
            final(self).issued() == old(self).issued(),
            final(self).inv(),
            match r {
                Ok(_) => {
                    let behaviour = crate::behaviour::BehaviourView::Custom(
                        crate::behaviour::LogicView {
                            kind: logic.kind_text(),
                            rules: logic.rules(),
                            state: logic.state(),
                        },
                    );
                    &&& old(self)@.network.nodes.contains_key(node)
                    &&& exists|out: crate::behaviour::Reaction| #[trigger]
                        behaviour.may_react(
                            crate::behaviour::CallView::Start,
                            old(self)@.context(old(self)@.tick_count, node, None),
                            out,
                        ) && final(self)@ == old(self)@.attached(node, behaviour, out)
                },
                Err(e) => !old(self)@.network.nodes.contains_key(node) && e@
                    == LogicErrorView::UnknownNode(node) && final(self)@ == old(self)@,
            },
    {
        if self.network.node(node).is_none() {
            return Err(LogicError::UnknownNode(node));
        }
        let held = Held { logic };
        let _ = self.attach_and_start(node, Behaviour::Custom(held));
        Ok(())
    }

    /// Attaches one of the crate's own logics to `node`, replacing any it had.
    ///
    /// # Errors
    ///
    /// Fails if the node does not exist.
    pub fn attach(&mut self, node: NodeId, behaviour: Behaviour) -> (r: Result<(), LogicError>)
        requires
            old(self).inv(),
        ensures
            final(self).issued() == old(self).issued(),
            final(self).inv(),
            match r {
                Ok(_) => old(self)@.network.nodes.contains_key(node) && (behaviour@ !is Custom
                    ==> final(self)@ == old(self)@.with_logic(node, behaviour@)),
                Err(e) => !old(self)@.network.nodes.contains_key(node) && e@
                    == LogicErrorView::UnknownNode(node) && final(self)@ == old(self)@,
            },
            r is Ok ==> exists|out: crate::behaviour::Reaction| #[trigger]
                behaviour@.may_react(
                    crate::behaviour::CallView::Start,
                    old(self)@.context(old(self)@.tick_count, node, None),
                    out,
                ) && final(self)@ == old(self)@.attached(node, behaviour@, out),
    {
        if self.network.node(node).is_none() {
            return Err(LogicError::UnknownNode(node));
        }
        let out = self.attach_and_start(node, behaviour);
        assert(behaviour@.may_react(
            crate::behaviour::CallView::Start,
            old(self)@.context(old(self)@.tick_count, node, None),
            out@,
        ));
        Ok(())
    }

    /// Attaches a built-in logic by name (see
    /// [`LOGIC_KINDS`](crate::behaviour::LOGIC_KINDS)). An empty name or `"none"` removes the
    /// node's logic.
    ///
    /// # Errors
    ///
    /// Fails if the node does not exist or the name is unknown.
    pub fn set_logic_kind(&mut self, node: NodeId, kind: &str) -> (r: Result<(), LogicError>)
        requires
            old(self).inv(),
        ensures
            final(self).issued() == old(self).issued(),
            final(self).inv(),
            ({
                let known = old(self)@.network.nodes.contains_key(node);
                let unknown_node = LogicErrorView::UnknownNode(node);
                let no_logic = kind@.len() == 0 || kind@ == "none"@;
                match r {
                    Ok(_) => known && if no_logic {
                        final(self)@ == old(self)@.without_logic(node)
                    } else {
                        crate::behaviour::engine_logic(kind@) matches Some(b) && final(self)@
                            == old(self)@.with_logic(node, b)
                    },
                    Err(e) => final(self)@ == old(self)@ && if no_logic {
                        !known && e@ == unknown_node
                    } else if crate::behaviour::engine_logic(kind@) is None {
                        e@ == LogicErrorView::UnknownKind(kind@)
                    } else {
                        !known && e@ == unknown_node
                    },
                }
            }),
    {
        if same_text(kind, "") || same_text(kind, "none") {
            proof {
                reveal_strlit("");
                reveal_strlit("none");
                assert(kind@ == ""@ ==> kind@.len() == 0);
            }
            if self.network.node(node).is_none() {
                return Err(LogicError::UnknownNode(node));
            }
            self.logics.remove(node);
            assert(self@.logics =~= old(self)@.logics.remove(node));
            self.topology_changed = true;
            return Ok(());
        }
        proof {
            reveal_strlit("");
            assert(kind@.len() == 0 ==> kind@ =~= ""@);
        }
        match create_logic(kind) {
            Some(behaviour) => self.attach(node, behaviour),
            None => Err(LogicError::UnknownKind(kind.to_owned())),
        }
    }

    /// The kind of logic attached to `node`, if any.
    pub fn logic_kind(&self, node: NodeId) -> (r: Option<&'static str>)
        ensures
            match r {
                Some(kind) => self@.logics.contains_key(node) && kind@
                    == self@.logics[node].kind(),
                None => !self@.logics.contains_key(node),
            },
    {
        match self.logic(node) {
            Some(logic) => Some(logic.kind()),
            None => None,
        }
    }

    /// Queues a packet from `node` on `via`, as if the node's own logic had sent it. It is
    /// delivered on the next tick.
    ///
    /// # Errors
    ///
    /// Fails if the node or link does not exist, the node is not on the link, the event is
    /// too large, or the queue is full.
    pub fn send(&mut self, node: NodeId, via: LinkId, to: PacketRoute, event: Event) -> (r: Result<
        (),
        SendError,
    >)
        requires
            old(self).inv(),
        ensures
            final(self).issued() == old(self).issued(),
            final(self).inv(),
            ({
                let c = old(self)@.context(old(self)@.tick_count, node, None);
                &&& final(self)@ == (WorldView {
                    queue: c.after(c.fresh(via, to@, event@)).queue,
                    ..old(self)@
                })
                &&& match r {
                    Ok(_) => c.send_error(via, event@) is None,
                    Err(e) => c.send_error(via, event@) == Some(e@),
                }
            }),
    {
        let limits = self.queue.limits();
        let out = match crate::logic::outgoing(
            &self.network,
            &limits,
            node,
            via,
            None,
            to,
            event,
            None,
        ) {
            Ok(out) => out,
            Err(e) => return Err(e),
        };
        self.queue.push(out)
    }

    /// Everything that has happened since the last call, oldest first.
    pub fn drain_trace(&mut self) -> (r: Vec<TraceEvent>)
        requires
            old(self).inv(),
        ensures
            final(self).issued() == old(self).issued(),
            final(self).inv(),
            crate::trace::event_views(r@) == old(self)@.watch.log.events,
            final(self)@ == (WorldView {
                watch: crate::monitor::Watch {
                    log: crate::trace::LogView {
                        events: Seq::empty(),
                        ..old(self)@.watch.log
                    },
                    ..old(self)@.watch
                },
                ..old(self)@
            }),
    {
        self.trace.drain()
    }

    /// How many trace events were thrown away because nobody drained the buffer in time.
    pub fn trace_discarded(&self) -> (r: u64)
        ensures
            r == self@.watch.log.discarded,
    {
        self.trace.discarded()
    }

    /// Deletes a node, everything inside it, and the links they own, with their logic and
    /// counters.
    ///
    /// # Errors
    ///
    /// Fails if the node does not exist or is the root. Nothing changes then.
    pub fn remove_node(&mut self, node: NodeId) -> (r: Result<(), NetworkError>)
        requires
            old(self).inv(),
            old(self)@.network.inv(),
        ensures
            crate::handles::spends_removed(
                old(self).issued(),
                old(self)@.network,
                final(self).issued(),
                final(self)@.network,
            ),
            r is Err ==> final(self).issued() == old(self).issued(),
            final(self).inv(),
            final(self)@.network.inv(),
            match r {
                Ok(_) => old(self)@.network.nodes.contains_key(node) && node != old(
                    self,
                )@.network.root && final(self)@ == old(self)@.without_node(node),
                Err(e) => final(self)@ == old(self)@ && if !old(
                    self,
                )@.network.nodes.contains_key(node) {
                    e == NetworkError::UnknownNode(node)
                } else {
                    node == old(self)@.network.root && e == NetworkError::IsRoot
                },
            },
    {
        let gone = match self.network.remove_subtree(node) {
            Ok(gone) => gone,
            Err(e) => return Err(e),
        };
        let ghost start = *old(self);
        let ghost logics = crate::side_slots::logic_entries(start.logics);
        let ghost stats = crate::side_slots::stat_entries(start.stats);
        let ghost pruned = *self;
        let mut i: usize = 0;
        assert(gone@.take(0).to_set() =~= Set::<NodeId>::empty());
        assert(logics.remove_keys(gone@.take(0).to_set()) =~= logics);
        assert(stats.remove_keys(gone@.take(0).to_set()) =~= stats);
        while i < gone.len()
            invariant
                i <= gone.len(),
                *self == (World { logics: self.logics, stats: self.stats, ..pruned }),
                crate::side_slots::logic_entries(self.logics) == logics.remove_keys(
                    gone@.take(i as int).to_set(),
                ),
                crate::side_slots::stat_entries(self.stats) == stats.remove_keys(
                    gone@.take(i as int).to_set(),
                ),
            decreases gone.len() - i,
        {
            if gone[i].is_key() {
                self.logics.remove(gone[i]);
                self.stats.remove(gone[i]);
            }
            proof {
                let (before, after) = (gone@.take(i as int), gone@.take(i + 1));
                assert(after =~= before.push(gone@[i as int]));
                crate::lists::lemma_push_contains(before, gone@[i as int]);
                assert(after.to_set() =~= before.to_set().insert(gone@[i as int]));
                assert(logics.remove_keys(before.to_set()).remove(gone@[i as int])
                    =~= logics.remove_keys(after.to_set()));
                assert(stats.remove_keys(before.to_set()).remove(gone@[i as int])
                    =~= stats.remove_keys(after.to_set()));
            }
            i += 1;
        }
        self.topology_changed = true;
        proof {
            assert(gone@.take(i as int) =~= gone@);
            assert(self@.logics =~= start@.logics.remove_keys(gone@.to_set()));
        }
        Ok(())
    }
}

} // verus!
