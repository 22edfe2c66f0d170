//! What holds of a packet on a link: who hears it, who accepts it and why, and what a copy does
//! where it arrives.

use vstd::prelude::*;

use crate::behaviour::{BehaviourView, CallView};
use crate::graph::{LinkView, NetView};
use crate::ids::{LinkId, NodeId};
use crate::logic::{AcceptRule, ContextView, OutgoingView};
use crate::monitor::{AlertView, Check, Severity, Subject, Watch};
use crate::packet::PacketView;
use crate::trace::{DropReason, TraceView};
use crate::world::{Hearing, WorldView};

verus! {

/// Whether a hop's link is this one: by its name, as `*` for all links, or as `?` for whichever
/// link the packet is on.
pub open spec fn is_this_link(hop: Seq<char>, link: Seq<char>) -> bool {
    hop == link || hop == "*"@ || hop == "?"@
}

/// Whether the node is on the link, as a subscriber or as its owner.
pub open spec fn is_on(link: LinkView, node: NodeId) -> bool {
    link.subscribers.contains(node) || link.owner == Some(node)
}

/// Everyone on a link hears what is sent there, in the order in which they were attached and the
/// owner last where it is not attached itself: all but the sender, and all but the root, which is
/// no device. Nobody hears it twice.
pub proof fn law_everyone_on_the_link_hears(network: NetView, via: LinkId, sender: NodeId)
    requires
        network.inv(),
        network.links.contains_key(via),
    ensures
        ({
            let link = network.links[via];
            let hearing = crate::world::audience(network, link, sender);
            &&& hearing.no_duplicates()
            &&& forall|n: NodeId|
                #[trigger] hearing.contains(n) <==> is_on(link, n) && n != sender && n
                    != network.root
            &&& crate::lists::in_same_order(
                hearing,
                if link.owner is Some && !link.subscribers.contains(link.owner->0) {
                    link.subscribers.push(link.owner->0)
                } else {
                    link.subscribers
                },
            )
        }),
{
    let link = network.links[via];
    assert(link.subscribers.no_duplicates());
    let all = match link.owner {
        Some(owner) => if link.subscribers.contains(owner) {
            link.subscribers
        } else {
            link.subscribers.push(owner)
        },
        None => link.subscribers,
    };
    if let Some(owner) = link.owner {
        crate::lists::lemma_push_contains(link.subscribers, owner);
    }
    crate::lists::lemma_without(all, set![sender, network.root]);
    crate::lists::lemma_without_in_order(all, set![sender, network.root]);
}

/// A packet is accepted by whom its next hop names: every listener on the link but the sender and
/// the root, whose name is not the one the packet comes from, hears it and accepts it as
/// addressed to it where the hop's node is its name and the hop's link is `?`, `*` or the name of
/// the link. Where the hop's node is `*`, every other listener accepts it as a broadcast.
pub proof fn law_packets_are_accepted_by_name(
    network: NetView,
    via: LinkId,
    sender: NodeId,
    listener: NodeId,
    packet: PacketView,
)
    requires
        network.inv(),
        network.links.contains_key(via),
        network.links[via].subscribers.contains(listener) || network.links[via].owner == Some(
            listener,
        ),
        listener != sender,
        listener != network.root,
        network.nodes[listener].name != packet.from[0].node,
        packet.to[0].link == "?"@ || packet.to[0].link == "*"@ || packet.to[0].link
            == network.links[via].name,
    ensures
        ({
            let link = network.links[via];
            let name = network.nodes[listener].name;
            &&& crate::world::audience(network, link, sender).contains(listener)
            &&& packet.to[0].node == name ==> crate::world::acceptance(
                network,
                listener,
                packet,
                link,
            ) == Some(AcceptRule::Addressed)
            &&& packet.to[0].node == "*"@ ==> crate::world::acceptance(
                network,
                listener,
                packet,
                link,
            ) == Some(AcceptRule::Broadcast)
        }),
{
    law_everyone_on_the_link_hears(network, via, sender);
    let link = network.links[via];
    assert(network.nodes.contains_key(listener)) by {
        if link.subscribers.contains(listener) {
            assert(network.nodes.contains_key(listener));
        }
    }
    assert(crate::graph::valid_name(network.nodes[listener].name));
}

/// Just why a listener accepts a packet by the standard rules. It never accepts one that comes
/// from its own name. One for its name or for `*`, on this link, it accepts as addressed to it or
/// as a broadcast. The link's owner moreover accepts one for `^` from one of its children, and,
/// as the gateway, any that is for another link. Nothing else is accepted.
pub proof fn law_why_packets_are_accepted(
    network: NetView,
    via: LinkId,
    listener: NodeId,
    packet: PacketView,
)
    requires
        network.nodes.contains_key(listener),
    ensures
        ({
            let link = network.links[via];
            let node = network.nodes[listener];
            let from = packet.from[0].node;
            let to = packet.to[0];
            let here = is_this_link(to.link, link.name);
            let owns = link.owner == Some(listener);
            let childs = to.node == "^"@ && exists|i: int|
                0 <= i < node.children.len() && network.nodes.contains_key(
                    #[trigger] node.children[i],
                ) && network.nodes[node.children[i]].name == from;
            let rule = crate::world::acceptance(network, listener, packet, link);
            &&& from == node.name ==> rule is None
            &&& from != node.name && here && to.node == node.name ==> rule == Some(
                AcceptRule::Addressed,
            )
            &&& from != node.name && here && to.node != node.name && to.node == "*"@ ==> rule
                == Some(AcceptRule::Broadcast)
            &&& from != node.name && !(here && (to.node == node.name || to.node == "*"@)) && owns
                && childs ==> rule == Some(AcceptRule::ChildToParent)
            &&& from != node.name && !here && owns && !childs ==> rule == Some(
                AcceptRule::Gateway,
            )
            &&& from != node.name && here && to.node != node.name && to.node != "*"@ && !(owns
                && childs) ==> rule is None
            &&& from != node.name && !here && !owns ==> rule is None
        }),
{
}

/// Whether the counters of a node can be kept: its handle is one that a network hands out, and no
/// later handle took its slot over.
pub open spec fn is_counted(w: WorldView, node: NodeId) -> bool {
    &&& crate::ids::is_key(node.spec_raw())
    &&& !crate::ids::is_null(node.spec_raw())
    &&& !crate::side_slots::outdated(w.stats.dom(), node)
}

/// How many packets the node sent so far.
pub open spec fn sent_count(w: WorldView, node: NodeId) -> u64 {
    if w.stats.contains_key(node) {
        w.stats[node].sent
    } else {
        0
    }
}

/// How many packets the node received so far.
pub open spec fn received_count(w: WorldView, node: NodeId) -> u64 {
    if w.stats.contains_key(node) {
        w.stats[node].received
    } else {
        0
    }
}

/// What a copy of an accepted packet does where it arrives. With a hop to spend, it is counted as
/// received, it is recorded with the reason it was accepted for, and the node's logic handles it:
/// a copy with one hop less and the node in its trace, which arrived on that link for that reason.
/// What the logic sends waits in the queue, and the logic goes on as it then is unless it
/// crashed. Without a hop to spend it is dropped, counted and recorded as such, and the logic never
/// sees it.
pub proof fn law_accepted_packets_are_handled(
    w: WorldView,
    tick: u64,
    via: LinkId,
    packet: PacketView,
    listener: NodeId,
    hearing: Hearing,
    rule: AcceptRule,
)
    requires
        w.may_hear(tick, via, packet, listener, hearing),
        crate::world::acceptance(w.network, listener, packet, w.network.links[via]) == Some(rule),
    ensures
        ({
            let after = w.heard(tick, via, packet, listener, hearing);
            let copy = PacketView {
                ttl: (packet.ttl - 1) as u8,
                trace: packet.trace.push(listener),
                ..packet
            };
            let arrival = TraceView::Delivered {
                tick,
                packet: packet.id,
                receiver: listener,
                link: via,
                rule,
            };
            let loss = TraceView::Dropped {
                tick,
                packet: packet.id,
                at: Some(listener),
                reason: DropReason::TtlExpired,
            };
            &&& packet.ttl > 1 && is_counted(w, listener) && received_count(w, listener) < u64::MAX
                ==> received_count(after, listener) == received_count(w, listener) + 1
                && sent_count(after, listener) == sent_count(w, listener)
            &&& packet.ttl > 1 && w.logics.contains_key(listener) && w.logics[listener] !is Custom
                ==> exists|c: ContextView|
                {
                    &&& hearing.reaction == #[trigger] w.logics[listener].reaction(
                        CallView::Received(copy),
                        c,
                    )
                    &&& c.network == w.network
                    &&& c.queue == w.queue
                    &&& c.tick == tick
                    &&& c.node == listener
                    &&& c.arrived_on == Some(via)
                    &&& c.accepted_by == Some(rule)
                    &&& w.trace_packets ==> c.log.events.len() > 0 && c.log.events.last()
                        == arrival
                }
            &&& packet.ttl > 1 && w.logics.contains_key(listener) ==> after.queue
                == hearing.reaction.context.queue && (if hearing.reaction.crash is None {
                after.logics == w.logics.insert(listener, hearing.reaction.behaviour)
            } else {
                after.logics == w.logics.remove(listener)
            })
            &&& packet.ttl > 1 && !w.logics.contains_key(listener) ==> after.queue == w.queue
                && after.logics == w.logics
            &&& packet.ttl <= 1 ==> after.queue == w.queue && after.logics == w.logics
                && after.stats == w.stats && (w.totals.ttl_drops < u64::MAX
                ==> after.totals.ttl_drops == w.totals.ttl_drops + 1) && (w.trace_packets
                ==> after.watch.log.events.len() > 0 && after.watch.log.events.last() == loss)
        }),
{
    let copy = PacketView {
        ttl: (packet.ttl - 1) as u8,
        trace: packet.trace.push(listener),
        ..packet
    };
    if packet.ttl > 1 {
        assert(copy == packet.copied_for(listener));
        let arriving = w.arriving(tick, via, packet, listener, rule);
        let c = arriving.context(tick, listener, Some((via, rule)));
        if w.logics.contains_key(listener) && w.logics[listener] !is Custom {
            assert(hearing.reaction == w.logics[listener].reaction(CallView::Received(copy), c));
        }
    }
}

/// A packet that the standard rules give a listener nothing of changes nothing for it, unless its
/// logic wants it: then it gets it all the same, as one that it overheard.
pub proof fn law_ignored_packets_change_nothing(
    w: WorldView,
    tick: u64,
    via: LinkId,
    packet: PacketView,
    listener: NodeId,
    hearing: Hearing,
)
    requires
        w.may_hear(tick, via, packet, listener, hearing),
        crate::world::acceptance(w.network, listener, packet, w.network.links[via]) is None,
    ensures
        !(w.logics.contains_key(listener) && w.logics[listener].wants(packet)) ==> w.heard(
            tick,
            via,
            packet,
            listener,
            hearing,
        ) == w,
        w.logics.contains_key(listener) && w.logics[listener].wants(packet) ==> w.accepted(
            via,
            packet,
            listener,
            hearing.wants,
        ) == Some(AcceptRule::Forced),
{
}

/// Hearing a packet counts it as received where it is taken with a hop to spend, and nowhere
/// else.
proof fn lemma_heard_counts(
    w: WorldView,
    tick: u64,
    via: LinkId,
    packet: PacketView,
    listener: NodeId,
    hearing: Hearing,
    node: NodeId,
)
    requires
        is_counted(w, node),
        listener == node || !crate::ids::same_slot(listener, node),
        listener == node ==> received_count(w, node) < u64::MAX,
    ensures
        ({
            let after = w.heard(tick, via, packet, listener, hearing);
            &&& is_counted(after, node)
            &&& after.network == w.network
            &&& sent_count(after, node) == sent_count(w, node)
            &&& received_count(after, node) == received_count(w, node) + if listener == node
                && packet.ttl > 1 && w.accepted(via, packet, listener, hearing.wants) is Some {
                1int
            } else {
                0
            }
        }),
{
    let after = w.heard(tick, via, packet, listener, hearing);
    if !crate::side_slots::outdated(w.stats.dom(), node) && crate::side_slots::outdated(
        after.stats.dom(),
        node,
    ) {
        let j = choose|j: NodeId| #[trigger]
            after.stats.dom().contains(j) && j != node && crate::ids::same_slot(j, node)
                && crate::side_slots::is_older(node, j);
        if !w.stats.dom().contains(j) {
            assert(j == listener);
        }
    }
}

/// Everyone hearing a packet counts it as received by those who take it.
proof fn lemma_heard_by_counts(
    w: WorldView,
    tick: u64,
    via: LinkId,
    packet: PacketView,
    listeners: Seq<NodeId>,
    hearings: Seq<Hearing>,
    node: NodeId,
)
    requires
        is_counted(w, node),
        listeners.no_duplicates(),
        forall|i: int|
            0 <= i < listeners.len() ==> #[trigger] listeners[i] == node || !crate::ids::same_slot(
                listeners[i],
                node,
            ),
        received_count(w, node) < u64::MAX,
        w.network.nodes.contains_key(node),
        crate::world::acceptance(w.network, node, packet, w.network.links[via]) is Some,
    ensures
        ({
            let after = w.heard_by(tick, via, packet, listeners, hearings);
            &&& is_counted(after, node)
            &&& after.network == w.network
            &&& sent_count(after, node) == sent_count(w, node)
            &&& received_count(after, node) == received_count(w, node) + if listeners.contains(
                node,
            ) && packet.ttl > 1 {
                1int
            } else {
                0
            }
        }),
    decreases listeners.len(),
{
    if listeners.len() > 0 {
        let front = listeners.drop_last();
        let last = listeners.last();
        let n = listeners.len() - 1;
        assert(front.no_duplicates()) by {
            assert forall|i: int, j: int|
                0 <= i < front.len() && 0 <= j < front.len() && i != j implies front[i]
                != front[j] by {
                assert(listeners[i] != listeners[j]);
            }
        }
        assert forall|i: int| 0 <= i < front.len() implies #[trigger] front[i] == node
            || !crate::ids::same_slot(front[i], node) by {
            assert(listeners[i] == front[i]);
        }
        lemma_heard_by_counts(w, tick, via, packet, front, hearings, node);
        assert(listeners =~= front.push(last));
        crate::lists::lemma_push_contains(front, last);
        if last == node {
            assert(!front.contains(node)) by {
                if front.contains(node) {
                    let i = choose|i: int| 0 <= i < front.len() && front[i] == node;
                    assert(listeners[i] != listeners[n]);
                }
            }
        }
        assert(listeners[n] == last);
        lemma_heard_counts(
            w.heard_by(tick, via, packet, front, hearings),
            tick,
            via,
            packet,
            last,
            hearings[n],
            node,
        );
    }
}

/// A packet that its sender may put on its link reaches whom it is for: it counts as sent by the
/// sender, and everyone on the link who is to accept it by the standard rules counts it as
/// received, where it has a hop to spend. One whose sender left the link is dropped, and counted
/// and recorded as such.
pub proof fn law_packets_reach_whom_they_are_for(
    w: WorldView,
    tick: u64,
    out: OutgoingView,
    hearings: Seq<Hearing>,
    listener: NodeId,
)
    requires
        w.network.inv(),
        is_counted(w, out.sender),
        is_counted(w, listener),
        received_count(w, listener) < u64::MAX,
        sent_count(w, out.sender) < u64::MAX,
        w.network.nodes.contains_key(listener),
        forall|n: NodeId|
            #![trigger w.network.nodes.contains_key(n)]
            w.network.nodes.contains_key(n) && n != listener ==> !crate::ids::same_slot(
                n,
                listener,
            ),
    ensures
        ({
            let after = w.transmitted(tick, out, hearings);
            let link = w.network.links[out.via];
            let packet = PacketView {
                id: crate::packet::PacketId::of(w.next_id()),
                from: out.from,
                to: out.to,
                event: out.event,
                ttl: out.ttl,
                trace: out.trace,
            };
            let loss = TraceView::Dropped {
                tick,
                packet: packet.id,
                at: Some(out.sender),
                reason: DropReason::SenderLeftLink,
            };
            &&& w.network.links.contains_key(out.via) && is_on(link, out.sender) && is_on(
                link,
                listener,
            ) && listener != out.sender && listener != w.network.root && packet.ttl > 1
                && crate::world::acceptance(w.network, listener, packet, link) is Some
                ==> received_count(after, listener) == received_count(w, listener) + 1
            &&& w.network.links.contains_key(out.via) && is_on(link, out.sender) ==> sent_count(
                w.on_air(tick, out),
                out.sender,
            ) == sent_count(w, out.sender) + 1
            &&& !(w.network.links.contains_key(out.via) && is_on(link, out.sender))
                ==> after.stats == w.stats && after.logics == w.logics && after.queue == w.queue
                && (w.totals.sender_left_drops < u64::MAX ==> after.totals.sender_left_drops
                == w.totals.sender_left_drops + 1) && (w.trace_packets
                ==> after.watch.log.events.len() > 0 && after.watch.log.events.last() == loss)
        }),
{
    reveal(WorldView::transmitted);
    let link = w.network.links[out.via];
    let packet = w.packet(out);
    if w.network.links.contains_key(out.via) && is_on(link, out.sender) && is_on(link, listener)
        && listener != out.sender && listener != w.network.root && packet.ttl > 1
        && crate::world::acceptance(w.network, listener, packet, link) is Some {
        law_everyone_on_the_link_hears(w.network, out.via, out.sender);
        let listeners = w.audience_of(out);
        let on_air = w.on_air(tick, out);
        assert forall|i: int| 0 <= i < listeners.len() implies #[trigger] listeners[i] == listener
            || !crate::ids::same_slot(listeners[i], listener) by {
            assert(listeners.contains(listeners[i]));
            if link.subscribers.contains(listeners[i]) {
                assert(w.network.nodes.contains_key(listeners[i]));
            }
        }
        assert(w.network.nodes.contains_key(out.sender)) by {
            if link.subscribers.contains(out.sender) {
                assert(w.network.nodes.contains_key(out.sender));
            }
        }
        assert(is_counted(on_air, listener)) by {
            if crate::side_slots::outdated(on_air.stats.dom(), listener) {
                let j = choose|j: NodeId| #[trigger]
                    on_air.stats.dom().contains(j) && j != listener && crate::ids::same_slot(
                        j,
                        listener,
                    ) && crate::side_slots::is_older(listener, j);
                if !w.stats.dom().contains(j) {
                    assert(j == out.sender);
                }
            }
        }
        lemma_heard_by_counts(on_air, tick, out.via, packet, listeners, hearings, listener);
    }
}

/// The monitor sees what arrives: a copy that is taken counts for the replay check as a delivery of
/// that packet to that node on that tick, and what the logic then tries to send, refused or not,
/// is held against the levels for a single packet. A copy that is dropped for want of hops is
/// reported.
pub proof fn law_the_monitor_sees_arrivals(
    w: WorldView,
    tick: u64,
    via: LinkId,
    packet: PacketView,
    listener: NodeId,
    hearing: Hearing,
    rule: AcceptRule,
)
    requires
        w.may_hear(tick, via, packet, listener, hearing),
        crate::world::acceptance(w.network, listener, packet, w.network.links[via]) == Some(rule),
    ensures
        ({
            let after = w.heard(tick, via, packet, listener, hearing);
            let tried = (hearing.reaction.context.queue.items.len() - w.queue.items.len()) + (
            hearing.reaction.context.queue.refused - w.queue.refused);
            &&& packet.ttl > 1 ==> after.watch.monitor.replay == w.watch.delivered(
                tick,
                listener,
                packet,
            ).monitor.replay
            &&& packet.ttl > 1 && w.logics.contains_key(listener) && hearing.reaction.crash is None
                && tried <= u64::MAX ==> {
                let before = Watch {
                    monitor: w.watch.delivered(tick, listener, packet).monitor,
                    log: hearing.reaction.context.log,
                };
                match crate::traffic_laws::verdict(w.watch.monitor.config.amplification, tried) {
                    Some((severity, limit)) => crate::traffic_laws::is_reported(
                        before,
                        AlertView {
                            tick,
                            check: Check::Amplification,
                            severity,
                            subject: Subject::Node(listener),
                            value: tried as u64,
                            limit,
                            message: "one incoming packet made it send "@
                                + crate::text::decimal_text(tried as nat),
                        },
                        after.watch,
                    ),
                    None => after.watch == before,
                }
            }
            &&& packet.ttl <= 1 ==> after.watch.monitor == w.watch.raise(
                AlertView {
                    tick,
                    check: Check::TtlExpired,
                    severity: Severity::Error,
                    subject: Subject::Node(listener),
                    value: 0,
                    limit: 0,
                    message: "a packet ran out of hops here: there is a loop"@,
                },
            ).monitor
        }),
{
    let after = w.heard(tick, via, packet, listener, hearing);
    let copy = packet.copied_for(listener);
    let arriving = w.arriving(tick, via, packet, listener, rule);
    if packet.ttl > 1 {
        assert(w.watch.delivered(tick, listener, copy) == w.watch.delivered(
            tick,
            listener,
            packet,
        ));
        assert(arriving.queue == w.queue);
        assert(arriving.watch.monitor == w.watch.delivered(tick, listener, packet).monitor);
        let tried = (hearing.reaction.context.queue.items.len() - w.queue.items.len()) + (
        hearing.reaction.context.queue.refused - w.queue.refused);
        if w.logics.contains_key(listener) && hearing.reaction.crash is None && tried
            <= u64::MAX {
            assert(hearing.reaction.context.extends(
                arriving.context(tick, listener, Some((via, rule))),
            ));
            let ran = arriving.ran(tick, listener, hearing.reaction);
            let before = ran.watch;
            assert(before.monitor == arriving.watch.monitor);
            assert(before.log == hearing.reaction.context.log);
            assert(arriving.sends(listener, hearing.reaction) == tried);
            assert(after.watch == before.handled(tick, listener, tried as u64));
            assert(before.monitor.config == w.watch.monitor.config);
        }
    }
}

/// A packet that is put on its link gets the next number, counts as sent, on that link and by that
/// sender, and is recorded with all it says.
pub proof fn law_packets_on_air_are_counted(w: WorldView, tick: u64, out: OutgoingView)
    requires
        w.next_packet < u64::MAX,
        w.watch.monitor.network_sends < u64::MAX,
        crate::tally::in_places(w.watch.monitor.link_sends),
        crate::tally::in_places(w.watch.monitor.node_sends),
        crate::tally::count_of(w.watch.monitor.link_sends, out.via) < u64::MAX,
        crate::tally::count_of(w.watch.monitor.node_sends, out.sender) < u64::MAX,
    ensures
        ({
            let after = w.on_air(tick, out);
            let (was, now) = (w.watch.monitor, after.watch.monitor);
            &&& after.next_packet == w.next_packet + 1
            &&& now.network_sends == was.network_sends + 1
            &&& crate::tally::count_of(now.link_sends, out.via) == crate::tally::count_of(
                was.link_sends,
                out.via,
            ) + 1
            &&& crate::tally::count_of(now.node_sends, out.sender) == crate::tally::count_of(
                was.node_sends,
                out.sender,
            ) + 1
            &&& w.trace_packets ==> after.watch.log.events.len() > 0
                && after.watch.log.events.last() == (TraceView::Sent {
                tick,
                packet: PacketView {
                    id: crate::packet::PacketId::of((w.next_packet + 1) as u64),
                    from: out.from,
                    to: out.to,
                    event: out.event,
                    ttl: out.ttl,
                    trace: out.trace,
                },
                sender: out.sender,
                link: out.via,
            })
            &&& !w.trace_packets ==> after.watch.log == w.watch.log
            &&& after.queue == w.queue
            &&& after.logics == w.logics
            &&& after.network == w.network
        }),
{
    crate::tally::lemma_counted(w.watch.monitor.link_sends, out.via);
    crate::tally::lemma_counted(w.watch.monitor.node_sends, out.sender);
}

/// A packet that nobody takes is recorded as lost, for want of a recipient.
pub proof fn law_packets_for_nobody_are_recorded(
    w: WorldView,
    tick: u64,
    out: OutgoingView,
    hearings: Seq<Hearing>,
)
    requires
        w.may_transmit(tick, out, hearings),
        w.network.links.contains_key(out.via),
        is_on(w.network.links[out.via], out.sender),
        w.trace_packets,
        forall|n: NodeId|
            is_on(w.network.links[out.via], n) ==> #[trigger] crate::world::acceptance(
                w.network,
                n,
                w.packet(out),
                w.network.links[out.via],
            ) is None && !(w.logics.contains_key(n) && w.logics[n].wants(w.packet(out))),
    ensures
        ({
            let after = w.transmitted(tick, out, hearings);
            &&& after.watch.log.events.len() > 0
            &&& after.watch.log.events.last() == (TraceView::Dropped {
                tick,
                packet: crate::packet::PacketId::of(w.next_id()),
                at: None,
                reason: DropReason::NoRecipient,
            })
            &&& after.logics == w.logics
            &&& after.queue == w.queue
        }),
{
    reveal(WorldView::may_transmit);
    reveal(WorldView::transmitted);
    reveal(WorldView::delivered);
    let link = w.network.links[out.via];
    let all = match link.owner {
        Some(owner) => if link.subscribers.contains(owner) {
            link.subscribers
        } else {
            link.subscribers.push(owner)
        },
        None => link.subscribers,
    };
    if let Some(owner) = link.owner {
        crate::lists::lemma_push_contains(link.subscribers, owner);
    }
    crate::lists::lemma_without(all, set![out.sender, w.network.root]);
    let listeners = w.audience_of(out);
    assert forall|i: int| 0 <= i < listeners.len() implies is_on(link, #[trigger] listeners[i]) by {
        assert(listeners.contains(listeners[i]));
    }
    lemma_nobody(w.on_air(tick, out), tick, out.via, w.packet(out), listeners, hearings);
}

proof fn lemma_nobody(
    w: WorldView,
    tick: u64,
    via: LinkId,
    packet: PacketView,
    listeners: Seq<NodeId>,
    hearings: Seq<Hearing>,
)
    requires
        w.may_hear_all(tick, via, packet, listeners, hearings),
        forall|i: int|
            0 <= i < listeners.len() ==> is_on(w.network.links[via], #[trigger] listeners[i]),
        forall|n: NodeId|
            is_on(w.network.links[via], n) ==> #[trigger] crate::world::acceptance(
                w.network,
                n,
                packet,
                w.network.links[via],
            ) is None && !(w.logics.contains_key(n) && w.logics[n].wants(packet)),
    ensures
        w.heard_by(tick, via, packet, listeners, hearings) == w,
        w.copies(tick, via, packet, listeners, hearings) == 0,
    decreases listeners.len(),
{
    if listeners.len() > 0 {
        let front = listeners.drop_last();
        let n = listeners.len() - 1;
        assert forall|i: int| 0 <= i < front.len() implies is_on(
            w.network.links[via],
            #[trigger] front[i],
        ) by {
            assert(listeners[i] == front[i]);
        }
        lemma_nobody(w, tick, via, packet, front, hearings);
        assert(is_on(w.network.links[via], listeners[n]));
        assert(crate::world::acceptance(w.network, listeners[n], packet, w.network.links[via])
            is None);
        assert(w.accepted(via, packet, listeners[n], hearings[n].wants) is None);
    }
}

} // verus!
