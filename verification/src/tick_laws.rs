//! What happens in a tick: every logic has its turn, everything that waits is sent, and the fuse
//! trips where it has to and nowhere else.

use vstd::prelude::*;

use crate::behaviour::{CallView, Reaction};
use crate::ids::NodeId;
use crate::lists::Handle;
use crate::logic::{ContextView, OutgoingView};
use crate::monitor::{AlertView, Check};
use crate::packet::PacketView;
use crate::world::{FuseLimit, Hearing, Progress, TickRun, WorldView};

verus! {

/// Finitely many handles can be listed.
proof fn lemma_listing(all: Set<NodeId>)
    requires
        all.finite(),
    ensures
        crate::network::is_listing(all, crate::world::listing(all)),
{
    let ids = lemma_some_listing(all);
    assert(crate::network::is_listing(all, ids));
}

proof fn lemma_some_listing(all: Set<NodeId>) -> (ids: Seq<NodeId>)
    requires
        all.finite(),
    ensures
        crate::network::is_listing(all, ids),
    decreases all.len(),
{
    if all.len() == 0 {
        Seq::empty()
    } else {
        let x = all.choose();
        let rest = lemma_some_listing(all.remove(x));
        assert(crate::lists::ascending(rest)) by {
            assert forall|i: int, j: int| 0 <= i < j < rest.len() implies (
            #[trigger] rest[i]).place() < (#[trigger] rest[j]).place() by {
                assert(rest[i].rank() < rest[j].rank());
            }
        }
        crate::lists::lemma_placed(rest, x);
        let ids = crate::lists::placed(rest, x);
        assert forall|k: NodeId| #[trigger] ids.contains(k) <==> all.contains(k) by {
            assert(rest.contains(k) <==> all.remove(x).contains(k));
        }
        assert forall|i: int, j: int| 0 <= i < j < ids.len() implies #[trigger] ids[i].rank()
            < #[trigger] ids[j].rank() by {
            assert(ids[i].place() < ids[j].place());
        }
        ids
    }
}

/// The ticks of others leave a logic alone.
proof fn lemma_others_tick(
    w: WorldView,
    tick: u64,
    nodes: Seq<NodeId>,
    reactions: Seq<Reaction>,
    node: NodeId,
)
    requires
        !nodes.contains(node),
    ensures
        ({
            let after = w.ticked_by(tick, nodes, reactions);
            &&& after.logics.contains_key(node) == w.logics.contains_key(node)
            &&& after.logics[node] == w.logics[node]
        }),
    decreases nodes.len(),
{
    if nodes.len() > 0 {
        let front = nodes.drop_last();
        assert(nodes =~= front.push(nodes.last()));
        crate::lists::lemma_push_contains(front, nodes.last());
        lemma_others_tick(w, tick, front, reactions, node);
    }
}

/// Of nodes that tick one after the other, each ticks as it was before them all.
proof fn lemma_has_tick(
    w: WorldView,
    tick: u64,
    nodes: Seq<NodeId>,
    reactions: Seq<Reaction>,
    i: int,
)
    requires
        w.may_tick_all(tick, nodes, reactions),
        nodes.no_duplicates(),
        0 <= i < nodes.len(),
        w.logics.contains_key(nodes[i]),
    ensures
        ({
            let before = w.ticked_by(tick, nodes.take(i), reactions);
            let after = w.ticked_by(tick, nodes, reactions);
            &&& w.logics[nodes[i]].may_react(
                CallView::Tick,
                before.context(tick, nodes[i], None),
                reactions[i],
            )
            &&& after.logics.contains_key(nodes[i]) == (reactions[i].crash is None)
            &&& reactions[i].crash is None ==> after.logics[nodes[i]] == reactions[i].behaviour
            &&& reactions[i].context.queue.items.is_prefix_of(after.queue.items)
            &&& w.may_tick_all(tick, nodes.take(i), reactions)
        }),
    decreases nodes.len(),
{
    let front = nodes.drop_last();
    let n = nodes.len() - 1;
    assert(front.no_duplicates()) by {
        assert forall|a: int, b: int|
            0 <= a < front.len() && 0 <= b < front.len() && a != b implies front[a]
            != front[b] by {
            assert(nodes[a] != nodes[b]);
        }
    }
    if i < n {
        assert(front[i] == nodes[i]);
        assert(front.take(i) =~= nodes.take(i));
        lemma_has_tick(w, tick, front, reactions, i);
        assert(nodes[i] != nodes[n]);
        let before = w.ticked_by(tick, front, reactions);
        if before.logics.contains_key(nodes[n]) {
            assert(reactions[n].context.extends(before.context(tick, nodes[n], None)));
            assert(before.queue.items.is_prefix_of(reactions[n].context.queue.items));
        }
    } else {
        assert(nodes.take(i) =~= front);
        assert(!front.contains(nodes[n])) by {
            if front.contains(nodes[n]) {
                let a = choose|a: int| 0 <= a < front.len() && front[a] == nodes[n];
                assert(nodes[a] != nodes[n]);
            }
        }
        lemma_others_tick(w, tick, front, reactions, nodes[n]);
    }
}

/// In a tick every logic that is attached has its turn, exactly once: as it was before the tick,
/// with the clock one on, and with no packet at hand. It goes on as it then is unless it crashed,
/// and what it sends is queued.
pub proof fn law_every_logic_has_its_tick(w: WorldView, run: TickRun, node: NodeId) -> (i: int)
    requires
        w.may_run(run),
        w.tick_count < u64::MAX,
        w.logics.dom().finite(),
        w.logics.contains_key(node),
        w.logics[node] !is Custom,
    ensures
        ({
            let nodes = crate::world::listing(w.logics.dom());
            let after = w.after_ticks(run);
            &&& 0 <= i < nodes.len()
            &&& nodes[i] == node
            &&& forall|j: int| 0 <= j < nodes.len() && #[trigger] nodes[j] == node ==> j == i
            &&& forall|n: NodeId| #[trigger] nodes.contains(n) <==> w.logics.contains_key(n)
            &&& exists|c: ContextView|
                {
                    &&& run.ticks[i] == #[trigger] w.logics[node].reaction(CallView::Tick, c)
                    &&& c.node == node
                    &&& c.tick == w.tick_count + 1
                    &&& c.network == w.network
                    &&& c.arrived_on is None
                    &&& c.accepted_by is None
                    &&& c.queue.reserved == w.queue.items.len()
                    &&& c.queue.limits == w.queue.limits
                }
            &&& after.logics.contains_key(node) == (run.ticks[i].crash is None)
            &&& run.ticks[i].crash is None ==> after.logics[node] == run.ticks[i].behaviour
            &&& run.ticks[i].context.queue.items.is_prefix_of(after.queue.items)
        }),
{
    let nodes = crate::world::listing(w.logics.dom());
    let begun = w.begun();
    let tick = begun.tick_count;
    let checked = begun.checked(tick, run);
    lemma_listing(w.logics.dom());
    crate::network::lemma_listing_distinct(w.logics.dom(), nodes);
    assert(nodes.contains(node));
    let i = choose|i: int| 0 <= i < nodes.len() && nodes[i] == node;
    lemma_has_tick(checked, tick, nodes, run.ticks, i);
    let before = checked.ticked_by(tick, nodes.take(i), run.ticks);
    crate::world_laws::lemma_ticked_by_leads(checked, tick, nodes.take(i), run.ticks);
    let c = before.context(tick, node, None);
    assert(run.ticks[i] == w.logics[node].reaction(CallView::Tick, c));
    assert(c.network == w.network);
    i
}

/// How many of the packets are on the way over a link that their sender is on.
pub open spec fn sendable(w: WorldView, packets: Seq<OutgoingView>) -> nat
    decreases packets.len(),
{
    if packets.len() == 0 {
        0
    } else {
        let out = packets.last();
        sendable(w, packets.drop_last()) + if w.network.links.contains_key(out.via) && (
        w.network.links[out.via].subscribers.contains(out.sender)
            || w.network.links[out.via].owner == Some(out.sender)) {
            1nat
        } else {
            0nat
        }
    }
}

/// The most copies that the packets can make: one for each subscriber of the link and one for its
/// owner.
pub open spec fn most_copies(w: WorldView, packets: Seq<OutgoingView>) -> nat
    decreases packets.len(),
{
    if packets.len() == 0 {
        0
    } else {
        let out = packets.last();
        most_copies(w, packets.drop_last()) + if w.network.links.contains_key(out.via) {
            w.network.links[out.via].subscribers.len() + 1
        } else {
            0nat
        }
    }
}

/// No more take a copy than there are listeners.
proof fn lemma_takers_bounded(w: WorldView, out: OutgoingView, listeners: Seq<NodeId>)
    ensures
        crate::world::takers(w.network, w.logics, out.via, w.packet(out), listeners)
            <= listeners.len(),
    decreases listeners.len(),
{
    if listeners.len() > 0 {
        lemma_takers_bounded(w, out, listeners.drop_last());
    }
}

proof fn lemma_demand_bounded(w: WorldView, out: OutgoingView)
    ensures
        w.demand(out) <= w.reach(out),
{
    if w.network.can_use_link(out.sender, out.via) {
        lemma_takers_bounded(w, out, w.audience_of(out));
        crate::world_laws::lemma_audience_len(w, out);
    }
}

/// Less cannot make more copies.
proof fn lemma_most_copies_grow(w: WorldView, packets: Seq<OutgoingView>, n: int)
    requires
        0 <= n <= packets.len(),
    ensures
        most_copies(w, packets.take(n)) <= most_copies(w, packets),
    decreases packets.len(),
{
    if n < packets.len() {
        lemma_most_copies_grow(w, packets.drop_last(), n);
        assert(packets.drop_last().take(n) =~= packets.take(n));
    } else {
        assert(packets.take(n) =~= packets);
    }
}

/// A batch within the limits goes through whole.
proof fn lemma_goes_through(
    w: WorldView,
    tick: u64,
    batch: Seq<OutgoingView>,
    hearings: Seq<Seq<Hearing>>,
    n: nat,
)
    requires
        n <= batch.len(),
        w.may_progress(tick, batch, hearings, n),
        batch.len() <= w.queue.limits.max_transmissions_per_tick,
        most_copies(w, batch) <= w.queue.limits.max_deliveries_per_tick,
    ensures
        ({
            let p = w.progress(tick, batch, hearings, n);
            &&& p.tripped is None
            &&& p.handled == n
            &&& p.transmissions == sendable(w, batch.take(n as int))
            &&& p.deliveries <= most_copies(w, batch.take(n as int))
            &&& p.world.network == w.network
            &&& p.world.queue.limits == w.queue.limits
            &&& sendable(w, batch.take(n as int)) <= n
        }),
    decreases n,
{
    if n == 0 {
        assert(batch.take(0) =~= Seq::<OutgoingView>::empty());
    } else {
        let m = (n - 1) as nat;
        lemma_goes_through(w, tick, batch, hearings, m);
        let p = w.progress(tick, batch, hearings, m);
        let out = batch[m as int];
        let some = batch.take(n as int);
        assert(some.drop_last() =~= batch.take(m as int));
        assert(some.last() == out);
        lemma_most_copies_grow(w, batch, n as int);
        lemma_demand_bounded(p.world, out);
        assert(p.trips(out) is None);
        let reserving = p.world.reserving((batch.len() - n) as nat);
        crate::world_laws::lemma_transmitted_leads(reserving, tick, out, hearings[m as int]);
        reveal(WorldView::delivered);
    }
}

/// A tick sends everything that waits, as long as that is within the limits: with no more packets
/// than a tick may put on links, and no more subscribers and owners on their links than a tick may
/// hand copies to, it handles every packet, and transmits just those whose senders are on their
/// links. The fuse then trips only where a send was refused for want of room.
pub proof fn law_a_tick_within_limits_sends_everything(w: WorldView, run: TickRun)
    requires
        w.may_run(run),
        w.queue.items.len() <= w.queue.limits.max_transmissions_per_tick,
        most_copies(w, w.queue.items) <= w.queue.limits.max_deliveries_per_tick,
    ensures
        w.batch_progress(run).handled == w.queue.items.len(),
        w.ticked(run).totals.transmissions == sendable(w, w.queue.items),
        w.ticked(run).queue.refused == w.refused_seen ==> w.ticked(run).fuse is None,
        w.ticked(run).fuse matches Some(fuse) ==> fuse.limit == FuseLimit::Queue,
{
    crate::world_laws::lemma_batch(w, run);
    let ticked = w.after_ticks(run);
    assert(ticked.network == w.network);
    assert(ticked.queue.limits == w.queue.limits);
    lemma_same_counts(w, ticked, w.queue.items);
    lemma_goes_through(
        ticked,
        w.begun().tick_count,
        w.queue.items,
        run.batch,
        w.queue.items.len(),
    );
    assert(w.queue.items.take(w.queue.items.len() as int) =~= w.queue.items);
    reveal(Progress::finished);
}

proof fn lemma_same_counts(a: WorldView, b: WorldView, packets: Seq<OutgoingView>)
    requires
        a.network == b.network,
    ensures
        sendable(a, packets) == sendable(b, packets),
        most_copies(a, packets) == most_copies(b, packets),
    decreases packets.len(),
{
    if packets.len() > 0 {
        lemma_same_counts(a, b, packets.drop_last());
    }
}

/// A tripped fuse is reported: when, at which limit and how high that is, how many packets wait
/// now, and up to five of the busiest senders and links. It counts, and a fuse that did not trip
/// does not.
pub proof fn law_the_fuse_is_reported(w: WorldView, run: TickRun)
    requires
        w.may_run(run),
        w.tick_count < u64::MAX,
        w.batch_progress(run).world.totals.fuse_trips < u64::MAX,
    ensures
        ({
            let after = w.ticked(run);
            let trips = w.batch_progress(run).world.totals.fuse_trips;
            &&& match after.fuse {
                Some(fuse) => {
                    &&& fuse.tick == w.tick_count + 1
                    &&& fuse.held_back == after.queue.items.len()
                    &&& fuse.limit == FuseLimit::Transmissions ==> fuse.max
                        == w.queue.limits.max_transmissions_per_tick && after.totals.transmissions
                        == fuse.max
                    &&& fuse.limit == FuseLimit::Deliveries ==> fuse.max
                        == w.queue.limits.max_deliveries_per_tick
                    &&& fuse.limit == FuseLimit::Queue ==> fuse.max == w.queue.limits.max_pending
                        && after.queue.refused > w.refused_seen
                    &&& fuse.top_senders.len() <= 5
                    &&& fuse.top_links.len() <= 5
                    &&& forall|a: AlertView| #[trigger]
                        fuse.recent_alerts.contains(a) <==> exists|check: Check| #[trigger]
                            after.watch.monitor.latest.contains_key(check)
                                && after.watch.monitor.latest[check] == a && a.tick + 200
                                >= fuse.tick
                    &&& after.totals.fuse_trips == trips + 1
                },
                None => after.totals.fuse_trips == trips && after.queue.refused <= w.refused_seen
                    && w.batch_progress(run).handled == w.queue.items.len(),
            }
            &&& after.refused_seen == after.queue.refused
            &&& after.totals.transmissions <= after.totals.peak_transmissions
            &&& after.totals.peak_transmissions == after.totals.transmissions
                || after.totals.peak_transmissions
                == w.batch_progress(run).world.totals.peak_transmissions
        }),
{
    crate::world_laws::lemma_batch(w, run);
    let p = w.batch_progress(run);
    let n = w.queue.items.len();
    lemma_trip(w.after_ticks(run), w.begun().tick_count, w.queue.items, run.batch, n);
    let after = w.ticked(run);
    let tick = w.begun().tick_count;
    let since = crate::monitor::elapsed(tick, 200);
    let latest = after.watch.monitor.latest;
    assert forall|a: AlertView| #[trigger] after.watch.monitor.recent_alerts(since).contains(a)
        <==> exists|check: Check| #[trigger]
        latest.contains_key(check) && latest[check] == a && a.tick + 200 >= tick by {
        crate::monitor_laws::law_recent_alerts_are_complete(latest, since, a);
        if exists|check: Check| #[trigger]
            latest.contains_key(check) && latest[check] == a && a.tick + 200 >= tick {
            let check = choose|check: Check| #[trigger]
                latest.contains_key(check) && latest[check] == a && a.tick + 200 >= tick;
            assert(latest.contains_key(check) && a.tick >= since);
        }
        if exists|check: Check| #[trigger]
            latest.contains_key(check) && latest[check] == a && a.tick >= since {
            let check = choose|check: Check| #[trigger]
                latest.contains_key(check) && latest[check] == a && a.tick >= since;
            assert(latest.contains_key(check) && a.tick + 200 >= tick);
        }
    }
    crate::monitor_laws::law_busiest_lead(p.world.watch.monitor.node_sends, 5);
    crate::monitor_laws::law_busiest_lead(p.world.watch.monitor.link_sends, 5);
    reveal(Progress::finished);
}

/// A tick that stopped at the transmission limit reached it.
proof fn lemma_trip(
    w: WorldView,
    tick: u64,
    batch: Seq<OutgoingView>,
    hearings: Seq<Seq<Hearing>>,
    n: nat,
)
    requires
        n <= batch.len(),
        w.may_progress(tick, batch, hearings, n),
    ensures
        ({
            let p = w.progress(tick, batch, hearings, n);
            &&& p.world.queue.limits == w.queue.limits
            &&& p.transmissions <= w.queue.limits.max_transmissions_per_tick
            &&& p.tripped == Some(FuseLimit::Transmissions) ==> p.transmissions
                == w.queue.limits.max_transmissions_per_tick
            &&& p.tripped != Some(FuseLimit::Queue)
        }),
    decreases n,
{
    if n > 0 {
        let m = (n - 1) as nat;
        lemma_trip(w, tick, batch, hearings, m);
        let p = w.progress(tick, batch, hearings, m);
        let out = batch[m as int];
        if p.tripped is None && p.trips(out) is None {
            let reserving = p.world.reserving((batch.len() - n) as nat);
            crate::world_laws::lemma_transmitted_leads(reserving, tick, out, hearings[m as int]);
        }
    }
}

/// How many of the listeners take a copy of the packet: those that accept it by the standard
/// rules, and those whose logic wants it.
pub open spec fn copies_wanted(
    w: WorldView,
    out: OutgoingView,
    packet: PacketView,
    listeners: Seq<NodeId>,
) -> nat
    decreases listeners.len(),
{
    if listeners.len() == 0 {
        0
    } else {
        let n = listeners.last();
        copies_wanted(w, out, packet, listeners.drop_last()) + if crate::world::acceptance(
            w.network,
            n,
            packet,
            w.network.links[out.via],
        ) is Some || w.logics.contains_key(n) && w.logics[n].wants(packet) {
            1nat
        } else {
            0nat
        }
    }
}

/// A tick is never stuck: the first packet that waits goes through where a tick may put a packet
/// on a link at all and may hand out as many copies as that one makes, however many are on its
/// link.
pub proof fn law_the_first_packet_goes_through(w: WorldView, run: TickRun)
    requires
        w.may_run(run),
        w.queue.items.len() > 0,
        w.queue.limits.max_transmissions_per_tick > 0,
        ({
            let out = w.queue.items[0];
            let ticked = w.after_ticks(run);
            copies_wanted(ticked, out, ticked.packet(out), ticked.audience_of(out))
                <= w.queue.limits.max_deliveries_per_tick
        }),
    ensures
        w.batch_progress(run).handled >= 1,
{
    crate::world_laws::lemma_batch(w, run);
    let ticked = w.after_ticks(run);
    let out = w.queue.items[0];
    let tick = w.begun().tick_count;
    let start = ticked.progress(tick, w.queue.items, run.batch, 0);
    lemma_copies_wanted(ticked, out, ticked.packet(out), ticked.audience_of(out));
    assert(start.trips(out) is None);
    lemma_handled_grows(ticked, tick, w.queue.items, run.batch, 1, w.queue.items.len());
    reveal_with_fuel(WorldView::progress, 2);
}

proof fn lemma_copies_wanted(
    w: WorldView,
    out: OutgoingView,
    packet: PacketView,
    listeners: Seq<NodeId>,
)
    ensures
        copies_wanted(w, out, packet, listeners) == crate::world::takers(
            w.network,
            w.logics,
            out.via,
            packet,
            listeners,
        ),
    decreases listeners.len(),
{
    if listeners.len() > 0 {
        lemma_copies_wanted(w, out, packet, listeners.drop_last());
    }
}

proof fn lemma_handled_grows(
    w: WorldView,
    tick: u64,
    batch: Seq<OutgoingView>,
    hearings: Seq<Seq<Hearing>>,
    n: nat,
    m: nat,
)
    requires
        n <= m,
    ensures
        w.progress(tick, batch, hearings, n).handled <= w.progress(
            tick,
            batch,
            hearings,
            m,
        ).handled,
    decreases m - n,
{
    if n < m {
        lemma_handled_grows(w, tick, batch, hearings, n, (m - 1) as nat);
    }
}

/// A new world holds nothing but its root, at tick zero, and records packets; it lets a tick put
/// five thousand packets on links and hand out fifty thousand copies, twenty thousand packets wait
/// and an event carry sixty-four thousand bytes; and its monitor has the standard levels.
pub proof fn law_new_worlds(w: WorldView, node: NodeId)
    requires
        w.is_new(),
    ensures
        w.tick_count == 0,
        w.network.nodes.contains_key(node) <==> node == w.network.root,
        w.network.nodes[w.network.root].name == "."@,
        w.network.links.dom() == Set::<crate::ids::LinkId>::empty(),
        !w.logics.contains_key(node),
        !w.stats.contains_key(node),
        w.queue.items.len() == 0,
        w.queue.limits.max_transmissions_per_tick == 5000,
        w.queue.limits.max_deliveries_per_tick == 50000,
        w.queue.limits.max_pending == 20000,
        w.queue.limits.max_payload_bytes == 65536,
        w.trace_packets,
        w.fuse is None,
        w.watch.log.events.len() == 0,
        w.watch.monitor.alerts_raised == 0,
        w.watch.monitor.replay.dom() == Set::<crate::monitor::ReplayKey>::empty(),
        w.watch.monitor.config.network_rate.warn == 2000,
        w.watch.monitor.config.network_rate.error == 4000,
        w.watch.monitor.config.link_rate.warn == 500,
        w.watch.monitor.config.link_rate.error == 2000,
        w.watch.monitor.config.node_rate.warn == 50,
        w.watch.monitor.config.node_rate.error == 200,
        w.watch.monitor.config.replay.warn == 8,
        w.watch.monitor.config.replay.error == 24,
        w.watch.monitor.config.replay_window == 32,
        w.watch.monitor.config.amplification.warn == 10,
        w.watch.monitor.config.amplification.error == 40,
        w.watch.monitor.config.cooldown == 100,
{
    assert(w.network.links.dom() =~= Set::<crate::ids::LinkId>::empty());
    assert(w.watch.monitor.replay.dom() =~= Set::<crate::monitor::ReplayKey>::empty());
}

} // verus!
