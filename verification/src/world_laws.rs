//! What holds of every tick, whatever the logics do.

use vstd::prelude::*;

use crate::behaviour::{BehaviourView, CallView, Reaction};
use crate::ids::{LinkId, NodeId};
use crate::logic::{AcceptRule, ContextView, OutgoingView};
use crate::monitor::{AlertView, Watch};
use crate::packet::{Packet, PacketView};
use crate::trace::{LogView, TraceView};
use crate::world::{Hearing, Progress, TickRun, WorldView};

verus! {

/// Whether the monitor remembers no more packets than it may.
pub open spec fn memory_bounded(w: Watch) -> bool {
    w.monitor.replay.dom().finite() && w.monitor.replay.len() <= crate::monitor::REPLAY_MEMORY
}

/// Whether a world keeps within its bounds: the trace within its capacity, the replay check
/// within its memory, and every queued packet within its hop budget.
pub open spec fn is_bounded(w: WorldView) -> bool {
    &&& w.watch.log.bounded()
    &&& memory_bounded(w.watch)
    &&& w.queue.budgeted()
}

/// Whether the trace holds alerts and notes only.
#[verifier::opaque]
pub open spec fn free_of_packets(log: LogView) -> bool {
    forall|i: int|
        0 <= i < log.events.len() ==> (#[trigger] log.events[i]) is Alert || log.events[i] is Note
}

/// Whether a world records alerts and notes only, and recorded nothing else.
pub open spec fn is_quiet(w: WorldView) -> bool {
    !w.trace_packets && free_of_packets(w.watch.log)
}

/// Alerts and notes keep a trace free of packets.
proof fn lemma_still_free(log: LogView, event: TraceView)
    requires
        free_of_packets(log),
        event is Alert || event is Note,
    ensures
        free_of_packets(log.push(event)),
{
    reveal(free_of_packets);
    let after = log.push(event);
    assert forall|i: int| 0 <= i < after.events.len() implies (#[trigger] after.events[i]) is Alert
        || after.events[i] is Note by {
        if i < after.events.len() - 1 {
            if log.events.len() == crate::trace::TraceLog::CAPACITY {
                assert(after.events[i] == log.events[i + 1]);
            } else {
                assert(after.events[i] == log.events[i]);
            }
        }
    }
}

/// Alerts keep a trace free of packets.
proof fn lemma_alerts_free(log: LogView)
    ensures
        free_of_packets(log) ==> forall|a: AlertView|
            free_of_packets(#[trigger] log.push(TraceView::Alert(a))),
{
    if free_of_packets(log) {
        assert forall|a: AlertView| free_of_packets(
            #[trigger] log.push(TraceView::Alert(a)),
        ) by {
            lemma_still_free(log, TraceView::Alert(a));
        }
    }
}

/// Notes keep a trace free of packets.
proof fn lemma_notes_free(log: LogView, tick: u64, node: NodeId, texts: Seq<Seq<char>>)
    requires
        free_of_packets(log),
    ensures
        free_of_packets(log.extended(crate::logic::note_events(tick, node, texts))),
    decreases texts.len(),
{
    let events = crate::logic::note_events(tick, node, texts);
    if texts.len() > 0 {
        lemma_notes_free(log, tick, node, texts.drop_last());
        assert(events.drop_last() =~= crate::logic::note_events(tick, node, texts.drop_last()));
        lemma_still_free(log.extended(events.drop_last()), events.last());
    }
}

/// Whether `b` is a world that `a` can turn into in the middle of a tick: the network, the
/// limits and the clock stay, what keeps within its bounds goes on to, and the queue grows only
/// as far as there is room.
pub open spec fn leads_to(a: WorldView, b: WorldView) -> bool {
    &&& b.network == a.network
    &&& b.tick_count == a.tick_count
    &&& b.queue.limits == a.queue.limits
    &&& b.queue.reserved == a.queue.reserved
    &&& b.trace_packets == a.trace_packets
    &&& b.refused_seen == a.refused_seen
    &&& b.queue.refused >= a.queue.refused
    &&& is_bounded(a) ==> is_bounded(b)
    &&& is_quiet(a) ==> is_quiet(b)
    &&& a.queue.items.is_prefix_of(b.queue.items)
    &&& a.queue.items.len() < b.queue.items.len() ==> b.queue.items.len() + b.queue.reserved
        <= b.queue.limits.max_pending
}

/// Raising an alert keeps the monitor and the trace within bounds.
proof fn lemma_raise_bounded(w: Watch, a: AlertView)
    ensures
        w.log.bounded() ==> w.raise(a).log.bounded(),
        free_of_packets(w.log) ==> free_of_packets(w.raise(a).log),
        w.raise(a).monitor.replay == w.monitor.replay,
        w.raise(a).monitor.config == w.monitor.config,
{
    if free_of_packets(w.log) {
        lemma_still_free(w.log, TraceView::Alert(a));
    }
}

/// Raising alerts keeps the monitor and the trace within bounds.
proof fn lemma_raise_all_bounded(w: Watch, alerts: Seq<AlertView>)
    ensures
        w.log.bounded() ==> w.raise_all(alerts).log.bounded(),
        free_of_packets(w.log) ==> free_of_packets(w.raise_all(alerts).log),
        w.raise_all(alerts).monitor.replay == w.monitor.replay,
        w.raise_all(alerts).monitor.config == w.monitor.config,
    decreases alerts.len(),
{
    if alerts.len() > 0 {
        lemma_raise_all_bounded(w, alerts.drop_last());
        lemma_raise_bounded(w.raise_all(alerts.drop_last()), alerts.last());
    }
}

/// The replay check never remembers more packets than it may, whatever is delivered.
pub proof fn law_replay_memory_is_bounded(
    w: Watch,
    tick: u64,
    receiver: NodeId,
    packet: PacketView,
)
    requires
        memory_bounded(w),
    ensures
        memory_bounded(w.delivered(tick, receiver, packet)),
        w.log.bounded() ==> w.delivered(tick, receiver, packet).log.bounded(),
{
    let key = crate::monitor::ReplayKey {
        receiver,
        from: packet.from,
        to: packet.to,
        event: packet.event,
    };
    let replay = w.monitor.replay;
    if replay.contains_key(key) {
        assert(replay.dom().insert(key) =~= replay.dom());
    }
}

/// Running a callback keeps a world quiet.
proof fn lemma_ran_quiet(
    w: WorldView,
    tick: u64,
    node: NodeId,
    arrival: Option<(LinkId, AcceptRule)>,
    call: CallView,
    out: Reaction,
)
    requires
        w.may_react(tick, node, arrival, call, out),
        is_quiet(w),
    ensures
        is_quiet(w.ran(tick, node, out)),
{
    if w.logics.contains_key(node) {
        let c = w.context(tick, node, arrival);
        let d = out.context;
        assert(d.extends(c));
        let texts = choose|texts: Seq<Seq<char>>|
            d.log == c.log.extended(#[trigger] crate::logic::note_events(c.tick, c.node, texts));
        lemma_notes_free(c.log, c.tick, c.node, texts);
        lemma_alerts_free(d.log);
    }
}

/// Running a callback leads from one world to the next.
proof fn lemma_ran_leads(
    w: WorldView,
    tick: u64,
    node: NodeId,
    arrival: Option<(LinkId, AcceptRule)>,
    call: CallView,
    out: Reaction,
)
    requires
        w.may_react(tick, node, arrival, call, out),
    ensures
        leads_to(w, w.ran(tick, node, out)),
{
    if is_quiet(w) {
        lemma_ran_quiet(w, tick, node, arrival, call, out);
    }
    if w.logics.contains_key(node) {
        let c = w.context(tick, node, arrival);
        let d = out.context;
        assert(d.extends(c));
        let texts = choose|texts: Seq<Seq<char>>|
            d.log == c.log.extended(#[trigger] crate::logic::note_events(c.tick, c.node, texts));
        if w.watch.log.bounded() {
            crate::trace::law_trace_is_bounded(
                c.log,
                crate::logic::note_events(c.tick, c.node, texts),
            );
        }
        if w.queue.budgeted() {
            assert forall|i: int| 0 <= i < d.queue.items.len() implies crate::packet::budgeted(
                (#[trigger] d.queue.items[i]).ttl,
                d.queue.items[i].trace,
            ) by {
                if i < c.queue.items.len() {
                    assert(d.queue.items.take(c.queue.items.len() as int)[i] == d.queue.items[i]);
                    assert(c.queue.items[i] == d.queue.items[i]);
                } else {
                    assert(c.may_send(d.queue.items[i]));
                }
            }
        }
    }
}

/// Hearing a packet leads from one world to the next.
proof fn lemma_heard_leads(
    w: WorldView,
    tick: u64,
    via: LinkId,
    packet: PacketView,
    listener: NodeId,
    hearing: Hearing,
)
    requires
        w.may_hear(tick, via, packet, listener, hearing),
    ensures
        leads_to(w, w.heard(tick, via, packet, listener, hearing)),
{
    lemma_alerts_free(w.watch.log);
    match w.accepted(via, packet, listener, hearing.wants) {
        None => {},
        Some(rule) => {
            if packet.ttl > 1 {
                let copy = packet.copied_for(listener);
                let counted = w.counted_received(listener);
                if is_bounded(w) {
                    law_replay_memory_is_bounded(counted.watch, tick, listener, copy);
                }
                let arriving = w.arriving(tick, via, packet, listener, rule);
                assert(leads_to(w, arriving));
                lemma_ran_leads(
                    arriving,
                    tick,
                    listener,
                    Some((via, rule)),
                    CallView::Received(copy),
                    hearing.reaction,
                );
                let ran = arriving.ran(tick, listener, hearing.reaction);
                let sends = arriving.sends(listener, hearing.reaction);
                lemma_alerts_free(ran.watch.log);
                assert(leads_to(ran, ran.watching(ran.watch.handled(tick, listener, sends))));
            }
        },
    }
}

/// Everyone hearing a packet leads from one world to the next.
proof fn lemma_heard_by_leads(
    w: WorldView,
    tick: u64,
    via: LinkId,
    packet: PacketView,
    listeners: Seq<NodeId>,
    hearings: Seq<Hearing>,
)
    requires
        w.may_hear_all(tick, via, packet, listeners, hearings),
    ensures
        leads_to(w, w.heard_by(tick, via, packet, listeners, hearings)),
        w.copies(tick, via, packet, listeners, hearings) <= listeners.len(),
    decreases listeners.len(),
{
    if listeners.len() > 0 {
        let n = listeners.len() - 1;
        let front = listeners.drop_last();
        lemma_heard_by_leads(w, tick, via, packet, front, hearings);
        lemma_heard_leads(
            w.heard_by(tick, via, packet, front, hearings),
            tick,
            via,
            packet,
            listeners[n],
            hearings[n],
        );
    }
}

/// No more get a copy of a packet than it can reach.
pub proof fn lemma_audience_len(w: WorldView, out: OutgoingView)
    requires
        w.network.links.contains_key(out.via),
    ensures
        w.audience_of(out).len() <= w.reach(out),
{
    let link = w.network.links[out.via];
    let all = match link.owner {
        Some(owner) => if link.subscribers.contains(owner) {
            link.subscribers
        } else {
            link.subscribers.push(owner)
        },
        None => link.subscribers,
    };
    crate::lists::lemma_without(all, set![out.sender, w.network.root]);
}

/// Those who hear a packet are all different.
proof fn lemma_audience_distinct(w: WorldView, out: OutgoingView)
    requires
        w.network.inv(),
        w.network.links.contains_key(out.via),
    ensures
        w.audience_of(out).no_duplicates(),
{
    let link = w.network.links[out.via];
    assert(link.subscribers.no_duplicates());
    let all = match link.owner {
        Some(owner) => if link.subscribers.contains(owner) {
            link.subscribers
        } else {
            link.subscribers.push(owner)
        },
        None => link.subscribers,
    };
    if let Some(owner) = link.owner {
        crate::lists::lemma_push_contains(link.subscribers, owner);
    }
    crate::lists::lemma_without(all, set![out.sender, w.network.root]);
}

/// Just as many get a copy of a packet as take one, where nobody hears it twice; and what the
/// others' logics are does not change.
proof fn lemma_copies_are_taken(
    w: WorldView,
    tick: u64,
    via: LinkId,
    packet: PacketView,
    listeners: Seq<NodeId>,
    hearings: Seq<Hearing>,
)
    requires
        w.may_hear_all(tick, via, packet, listeners, hearings),
        listeners.no_duplicates(),
    ensures
        w.copies(tick, via, packet, listeners, hearings) == crate::world::takers(
            w.network,
            w.logics,
            via,
            packet,
            listeners,
        ),
        w.heard_by(tick, via, packet, listeners, hearings).network == w.network,
        forall|n: NodeId|
            !listeners.contains(n) ==> #[trigger] w.heard_by(
                tick,
                via,
                packet,
                listeners,
                hearings,
            ).logics.contains_key(n) == w.logics.contains_key(n) && w.heard_by(
                tick,
                via,
                packet,
                listeners,
                hearings,
            ).logics[n] == w.logics[n],
    decreases listeners.len(),
{
    if listeners.len() > 0 {
        let front = listeners.drop_last();
        let last = listeners.last();
        assert(front.no_duplicates()) by {
            assert forall|i: int, j: int|
                0 <= i < front.len() && 0 <= j < front.len() && i != j implies front[i]
                != front[j] by {
                assert(listeners[i] != listeners[j]);
            }
        }
        assert(!front.contains(last)) by {
            if front.contains(last) {
                let i = choose|i: int| 0 <= i < front.len() && front[i] == last;
                assert(listeners[i] != listeners[listeners.len() - 1]);
            }
        }
        lemma_copies_are_taken(w, tick, via, packet, front, hearings);
        let before = w.heard_by(tick, via, packet, front, hearings);
        let after = w.heard_by(tick, via, packet, listeners, hearings);
        assert(before.logics.contains_key(last) == w.logics.contains_key(last));
        assert forall|n: NodeId| !listeners.contains(n) implies #[trigger] after.logics.contains_key(
            n,
        ) == w.logics.contains_key(n) && after.logics[n] == w.logics[n] by {
            assert(!front.contains(n)) by {
                if front.contains(n) {
                    let i = choose|i: int| 0 <= i < front.len() && front[i] == n;
                    assert(listeners[i] == n);
                }
            }
            assert(n != last) by {
                assert(listeners[listeners.len() - 1] == last);
            }
            assert(before.logics.contains_key(n) == w.logics.contains_key(n));
        }
    }
}

/// A packet's turn leads from one world to the next.
pub proof fn lemma_transmitted_leads(
    w: WorldView,
    tick: u64,
    out: OutgoingView,
    hearings: Seq<Hearing>,
)
    requires
        w.may_transmit(tick, out, hearings),
    ensures
        leads_to(w, w.transmitted(tick, out, hearings)),
        w.delivered(tick, out, hearings) matches Some(n) ==> n <= w.reach(out) && (
        w.network.inv() ==> n == w.demand(out)),
{
    reveal(WorldView::may_transmit);
    reveal(WorldView::transmitted);
    reveal(WorldView::delivered);
    if w.network.can_use_link(out.sender, out.via) {
        let on_air = w.on_air(tick, out);
        assert(leads_to(w, on_air));
        lemma_heard_by_leads(
            on_air,
            tick,
            out.via,
            w.packet(out),
            w.audience_of(out),
            hearings,
        );
        lemma_audience_len(w, out);
        if w.network.inv() {
            lemma_audience_distinct(w, out);
            lemma_copies_are_taken(
                on_air,
                tick,
                out.via,
                w.packet(out),
                w.audience_of(out),
                hearings,
            );
        }
    }
}

/// The logics' ticks lead from one world to the next.
pub proof fn lemma_ticked_by_leads(
    w: WorldView,
    tick: u64,
    nodes: Seq<NodeId>,
    reactions: Seq<Reaction>,
)
    requires
        w.may_tick_all(tick, nodes, reactions),
    ensures
        leads_to(w, w.ticked_by(tick, nodes, reactions)),
    decreases nodes.len(),
{
    if nodes.len() > 0 {
        let n = nodes.len() - 1;
        let front = nodes.drop_last();
        lemma_ticked_by_leads(w, tick, front, reactions);
        lemma_ran_leads(
            w.ticked_by(tick, front, reactions),
            tick,
            nodes[n],
            None,
            CallView::Tick,
            reactions[n],
        );
    }
}

/// What holds of a tick that has come some way with its batch.
pub open spec fn is_on_course(w: WorldView, batch: Seq<OutgoingView>, p: Progress, n: nat) -> bool {
    let limits = w.queue.limits;
    &&& p.world.network == w.network
    &&& p.world.tick_count == w.tick_count
    &&& p.world.queue.limits == limits
    &&& p.world.refused_seen == w.refused_seen
    &&& p.world.queue.refused >= w.queue.refused
    &&& is_bounded(w) ==> is_bounded(p.world)
    &&& is_quiet(w) ==> is_quiet(p.world)
    &&& w.queue.items.is_prefix_of(p.world.queue.items)
    &&& p.handled <= n
    &&& p.tripped is None ==> p.handled == n
    &&& p.transmissions <= p.handled
    &&& p.transmissions <= limits.max_transmissions_per_tick
    &&& w.network.inv() ==> p.deliveries <= limits.max_deliveries_per_tick
    &&& w.queue.items.len() + batch.len() <= limits.max_pending ==> p.world.queue.items.len() + (
    batch.len() - p.handled) <= limits.max_pending
}

/// A tick stays on course with every packet of its batch.
proof fn lemma_progress_on_course(
    w: WorldView,
    tick: u64,
    batch: Seq<OutgoingView>,
    hearings: Seq<Seq<Hearing>>,
    n: nat,
)
    requires
        n <= batch.len(),
        w.may_progress(tick, batch, hearings, n),
    ensures
        is_on_course(w, batch, w.progress(tick, batch, hearings, n), n),
    decreases n,
{
    if n > 0 {
        let m = (n - 1) as nat;
        lemma_progress_on_course(w, tick, batch, hearings, m);
        let p = w.progress(tick, batch, hearings, m);
        let out = batch[n - 1];
        let left = (batch.len() - n) as nat;
        if p.tripped is None && p.trips(out) is None {
            let reserving = p.world.reserving(left);
            lemma_transmitted_leads(reserving, tick, out, hearings[n - 1]);
            assert(reserving.reach(out) == w.reach(out));
            assert(p.world.reach(out) == w.reach(out));
            assert(reserving.demand(out) == p.world.demand(out));
        }
    }
}

/// Everything about the batch of a tick that the laws below need.
pub proof fn lemma_batch(w: WorldView, run: TickRun)
    requires
        w.may_run(run),
    ensures
        ({
            let ticked = w.after_ticks(run);
            &&& leads_to(w.begun(), ticked)
            &&& is_on_course(
                ticked,
                w.queue.items,
                w.batch_progress(run),
                w.queue.items.len(),
            )
        }),
{
    let begun = w.begun();
    let tick = begun.tick_count;
    let checked = begun.checked(tick, run);
    lemma_raise_all_bounded(
        begun.watch,
        crate::monitor::cycles(begun.network, tick, run.modes),
    );
    assert(leads_to(begun, checked));
    lemma_ticked_by_leads(checked, tick, crate::world::listing(w.logics.dom()), run.ticks);
    lemma_progress_on_course(
        w.after_ticks(run),
        tick,
        w.queue.items,
        run.batch,
        w.queue.items.len(),
    );
}

/// A tick never puts more packets on links than the limit.
pub proof fn law_transmissions_are_limited(w: WorldView, run: TickRun)
    requires
        w.may_run(run),
    ensures
        w.ticked(run).totals.transmissions <= w.queue.limits.max_transmissions_per_tick,
{
    lemma_batch(w, run);
    reveal(Progress::finished);
}

/// A tick never delivers more copies than the limit.
pub proof fn law_deliveries_are_limited(w: WorldView, run: TickRun)
    requires
        w.may_run(run),
        w.network.inv(),
    ensures
        w.ticked(run).totals.deliveries <= w.queue.limits.max_deliveries_per_tick,
{
    lemma_batch(w, run);
    reveal(Progress::finished);
}

/// A full queue trips the fuse: a tick reports a send that was refused since the last one, unless
/// another limit was reached, which it reports then.
pub proof fn law_refused_sends_trip_the_fuse(w: WorldView, run: TickRun)
    requires
        w.may_run(run),
        w.queue.refused > w.refused_seen,
    ensures
        w.ticked(run).fuse matches Some(report) && report.limit == match w.batch_progress(
            run,
        ).tripped {
            Some(limit) => limit,
            None => crate::world::FuseLimit::Queue,
        },
{
    lemma_batch(w, run);
    reveal(Progress::finished);
}

/// The queue of waiting packets never outgrows its limit: where it is within the limit before a
/// tick, it is so afterwards.
pub proof fn law_queue_stays_bounded(w: WorldView, run: TickRun)
    requires
        w.may_run(run),
        w.queue.items.len() <= w.queue.limits.max_pending,
    ensures
        w.ticked(run).queue.items.len() <= w.queue.limits.max_pending,
        w.ticked(run).queue.limits == w.queue.limits,
{
    lemma_batch(w, run);
    reveal(Progress::finished);
    let p = w.batch_progress(run);
    let batch = w.queue.items;
    assert(batch.skip(p.handled as int).len() == batch.len() - p.handled);
}

/// A tick keeps the trace within its capacity, the replay check within its memory, and every
/// queued packet within its hop budget.
pub proof fn law_tick_keeps_bounds(w: WorldView, run: TickRun)
    requires
        w.may_run(run),
        is_bounded(w),
    ensures
        is_bounded(w.ticked(run)),
{
    lemma_batch(w, run);
    reveal(Progress::finished);
    let p = w.batch_progress(run);
    let tick = w.begun().tick_count;
    let batch = w.queue.items;
    let end = p.world.reserving(0).watch;
    lemma_raise_all_bounded(
        Watch {
            monitor: crate::monitor::MonitorView {
                link_sends: Seq::empty(),
                node_sends: Seq::empty(),
                network_sends: 0,
                ..end.monitor
            },
            ..end
        },
        end.monitor.rate_alerts(tick),
    );
    let done = w.ticked(run);
    assert(is_bounded(w.begun()));
    assert forall|i: int| 0 <= i < done.queue.items.len() implies crate::packet::budgeted(
        (#[trigger] done.queue.items[i]).ttl,
        done.queue.items[i].trace,
    ) by {
        if p.tripped is Some {
            let held = batch.skip(p.handled as int);
            if i < held.len() {
                assert(done.queue.items[i] == batch[i + p.handled]);
            } else {
                assert(done.queue.items[i] == p.world.queue.items[i - held.len()]);
            }
        } else {
            assert(done.queue.items[i] == p.world.queue.items[i]);
        }
    }
}

/// With packet tracing off, a tick records alerts and notes only: where the trace holds nothing
/// else before it, it holds nothing else afterwards.
pub proof fn law_untraced_ticks_record_no_packets(w: WorldView, run: TickRun)
    requires
        w.may_run(run),
        !w.trace_packets,
        free_of_packets(w.watch.log),
    ensures
        !w.ticked(run).trace_packets,
        free_of_packets(w.ticked(run).watch.log),
{
    lemma_batch(w, run);
    reveal(Progress::finished);
    let p = w.batch_progress(run);
    let end = p.world.reserving(0).watch;
    lemma_raise_all_bounded(
        Watch {
            monitor: crate::monitor::MonitorView {
                link_sends: Seq::empty(),
                node_sends: Seq::empty(),
                network_sends: 0,
                ..end.monitor
            },
            ..end
        },
        end.monitor.rate_alerts(w.begun().tick_count),
    );
}

/// A tick moves packets, not the topology: the network stays as it is, and the clock goes on by
/// one.
pub proof fn law_tick_leaves_the_network_alone(w: WorldView, run: TickRun)
    requires
        w.may_run(run),
        w.tick_count < u64::MAX,
    ensures
        w.ticked(run).network == w.network,
        w.ticked(run).tick_count == w.tick_count + 1,
        !w.ticked(run).topology_changed || !w.topology_changed,
{
    lemma_batch(w, run);
    reveal(Progress::finished);
    lemma_topology_seen(w, run);
}

/// A tick that hits no limit handles every packet that was sent before it began, and each just
/// once. What is sent meanwhile waits for the next tick: what the logics sent on their ticks
/// first, then what they sent for packets.
pub proof fn law_sends_wait_for_the_next_tick(w: WorldView, run: TickRun)
    requires
        w.may_run(run),
        w.batch_progress(run).tripped is None,
    ensures
        w.batch_progress(run).handled == w.queue.items.len(),
        w.ticked(run).totals.transmissions <= w.queue.items.len(),
        w.ticked(run).queue.items == w.batch_progress(run).world.queue.items,
        w.after_ticks(run).queue.items.is_prefix_of(w.ticked(run).queue.items),
{
    lemma_batch(w, run);
    reveal(Progress::finished);
}

/// Packets that a tick could not send because a limit was reached wait, in order, ahead of
/// everything that was sent meanwhile.
pub proof fn law_held_packets_keep_their_place(w: WorldView, run: TickRun)
    requires
        w.may_run(run),
        w.batch_progress(run).tripped is Some,
    ensures
        ({
            let held = w.queue.items.skip(w.batch_progress(run).handled as int);
            &&& w.ticked(run).queue.items.take(held.len() as int) == held
            &&& w.after_ticks(run).queue.items.is_prefix_of(
                w.ticked(run).queue.items.skip(held.len() as int),
            )
            &&& w.ticked(run).fuse is Some
        }),
{
    lemma_batch(w, run);
    reveal(Progress::finished);
    let held = w.queue.items.skip(w.batch_progress(run).handled as int);
    assert(w.ticked(run).queue.items.take(held.len() as int) =~= held);
    assert(w.ticked(run).queue.items.skip(held.len() as int)
        =~= w.batch_progress(run).world.queue.items);
}

/// The topology counts as unchanged once it was checked.
proof fn lemma_topology_seen(w: WorldView, run: TickRun)
    requires
        w.may_run(run),
    ensures
        !w.ticked(run).topology_changed,
{
    reveal(Progress::finished);
    let begun = w.begun();
    let tick = begun.tick_count;
    let checked = begun.checked(tick, run);
    lemma_ticked_by_topology(checked, tick, crate::world::listing(w.logics.dom()), run.ticks);
    lemma_progress_topology(
        w.after_ticks(run),
        tick,
        w.queue.items,
        run.batch,
        w.queue.items.len(),
    );
}

/// The logics' ticks neither change the topology nor put packets on links.
proof fn lemma_ticked_by_topology(
    w: WorldView,
    tick: u64,
    nodes: Seq<NodeId>,
    reactions: Seq<Reaction>,
)
    ensures
        w.ticked_by(tick, nodes, reactions).topology_changed == w.topology_changed,
        w.ticked_by(tick, nodes, reactions).next_packet == w.next_packet,
    decreases nodes.len(),
{
    if nodes.len() > 0 {
        lemma_ticked_by_topology(w, tick, nodes.drop_last(), reactions);
    }
}

/// Hearing a packet neither changes the topology nor puts packets on links.
proof fn lemma_heard_by_topology(
    w: WorldView,
    tick: u64,
    via: LinkId,
    packet: PacketView,
    listeners: Seq<NodeId>,
    hearings: Seq<Hearing>,
)
    ensures
        w.heard_by(tick, via, packet, listeners, hearings).topology_changed
            == w.topology_changed,
        w.heard_by(tick, via, packet, listeners, hearings).next_packet == w.next_packet,
    decreases listeners.len(),
{
    if listeners.len() > 0 {
        lemma_heard_by_topology(w, tick, via, packet, listeners.drop_last(), hearings);
    }
}

/// Packets do not change the topology, and are numbered one after the other.
proof fn lemma_progress_topology(
    w: WorldView,
    tick: u64,
    batch: Seq<OutgoingView>,
    hearings: Seq<Seq<Hearing>>,
    n: nat,
)
    ensures
        w.progress(tick, batch, hearings, n).world.topology_changed == w.topology_changed,
        w.next_packet + n <= u64::MAX ==> w.progress(tick, batch, hearings, n).world.next_packet
            == w.next_packet + w.progress(tick, batch, hearings, n).handled,
        w.progress(tick, batch, hearings, n).handled <= n,
        w.progress(tick, batch, hearings, n).tripped is None ==> w.progress(
            tick,
            batch,
            hearings,
            n,
        ).handled == n,
    decreases n,
{
    if n > 0 {
        lemma_progress_topology(w, tick, batch, hearings, (n - 1) as nat);
        reveal(WorldView::transmitted);
        reveal(WorldView::delivered);
        let p = w.progress(tick, batch, hearings, (n - 1) as nat);
        let reserving = p.world.reserving((batch.len() - n) as nat);
        let out = batch[n - 1];
        lemma_heard_by_topology(
            reserving.on_air(tick, out),
            tick,
            out.via,
            reserving.packet(out),
            reserving.audience_of(out),
            hearings[n - 1],
        );
    }
}

impl WorldView {
    /// The packet that the `i`th of the packets that wait becomes in a tick.
    pub open spec fn sent_in(self, run: TickRun, i: nat) -> PacketView {
        self.after_ticks(run).progress(
            self.begun().tick_count,
            self.queue.items,
            run.batch,
            i,
        ).world.packet(self.queue.items[i as int])
    }
}

/// How far a tick came does not shrink: what was handled before it tripped stays handled.
proof fn lemma_progress_grows(
    w: WorldView,
    tick: u64,
    batch: Seq<OutgoingView>,
    hearings: Seq<Seq<Hearing>>,
    n: nat,
    m: nat,
)
    requires
        n <= m,
        n < w.progress(tick, batch, hearings, m).handled,
    ensures
        w.progress(tick, batch, hearings, n).tripped is None,
        w.progress(tick, batch, hearings, n).handled == n,
    decreases m,
{
    lemma_progress_topology(w, tick, batch, hearings, n);
    lemma_progress_topology(w, tick, batch, hearings, m);
    if n < m {
        let before = (m - 1) as nat;
        lemma_progress_topology(w, tick, batch, hearings, before);
        if n < w.progress(tick, batch, hearings, before).handled {
            lemma_progress_grows(w, tick, batch, hearings, n, before);
        } else {
            assert(n == before);
        }
    }
}

/// Packets are numbered in the order in which they are put on links, whatever tick that is in:
/// each gets an ID that is greater than those before. Every copy that a link hands out shares the
/// packet's ID.
pub proof fn law_packet_ids_grow(w: WorldView, run: TickRun, i: nat, j: nat, listener: NodeId)
    requires
        w.may_run(run),
        w.next_packet + w.queue.items.len() <= u64::MAX,
        i <= j < w.batch_progress(run).handled,
    ensures
        w.next_packet < w.sent_in(run, i).id.spec_raw(),
        i < j ==> w.sent_in(run, i).id.spec_raw() < w.sent_in(run, j).id.spec_raw(),
        w.sent_in(run, j).id.spec_raw() <= w.ticked(run).next_packet,
        w.sent_in(run, i).copied_for(listener).id == w.sent_in(run, i).id,
{
    let begun = w.begun();
    let tick = begun.tick_count;
    let ticked = w.after_ticks(run);
    let (batch, n) = (w.queue.items, w.queue.items.len());
    lemma_ticked_by_topology(
        begun.checked(tick, run),
        tick,
        crate::world::listing(w.logics.dom()),
        run.ticks,
    );
    assert(ticked.next_packet == w.next_packet);
    lemma_progress_topology(ticked, tick, batch, run.batch, n);
    lemma_progress_topology(ticked, tick, batch, run.batch, i);
    lemma_progress_topology(ticked, tick, batch, run.batch, j);
    lemma_progress_grows(ticked, tick, batch, run.batch, i, n);
    lemma_progress_grows(ticked, tick, batch, run.batch, j, n);
    crate::packet::law_packet_ids_are_numbers((w.next_packet + i + 1) as u64, 0);
    crate::packet::law_packet_ids_are_numbers((w.next_packet + j + 1) as u64, 0);
    reveal(Progress::finished);
}

/// Whether every logic in the world is one of the crate's own.
pub open spec fn all_known(w: WorldView) -> bool {
    forall|n: NodeId| #[trigger] w.logics.contains_key(n) ==> w.logics[n] !is Custom
}

/// One of the crate's own logics does just one thing, and stays one of them.
proof fn lemma_reaction_settled(
    b: BehaviourView,
    call: CallView,
    c: ContextView,
    one: Reaction,
    two: Reaction,
)
    requires
        b !is Custom,
        b.may_react(call, c, one),
        b.may_react(call, c, two),
    ensures
        one == two,
        one.behaviour !is Custom,
{
}

/// A callback of one of the crate's own logics has just one outcome.
proof fn lemma_ran_settled(
    w: WorldView,
    tick: u64,
    node: NodeId,
    arrival: Option<(LinkId, AcceptRule)>,
    call: CallView,
    one: Reaction,
    two: Reaction,
)
    requires
        all_known(w),
        w.may_react(tick, node, arrival, call, one),
        w.may_react(tick, node, arrival, call, two),
    ensures
        w.ran(tick, node, one) == w.ran(tick, node, two),
        w.sends(node, one) == w.sends(node, two),
        all_known(w.ran(tick, node, one)),
{
    if w.logics.contains_key(node) {
        lemma_reaction_settled(
            w.logics[node],
            call,
            w.context(tick, node, arrival),
            one,
            two,
        );
    }
}

/// Hearing a packet has just one outcome where the logic is one of the crate's own.
proof fn lemma_heard_settled(
    w: WorldView,
    tick: u64,
    via: LinkId,
    packet: PacketView,
    listener: NodeId,
    one: Hearing,
    two: Hearing,
)
    requires
        all_known(w),
        w.may_hear(tick, via, packet, listener, one),
        w.may_hear(tick, via, packet, listener, two),
    ensures
        w.heard(tick, via, packet, listener, one) == w.heard(tick, via, packet, listener, two),
        w.accepted(via, packet, listener, one.wants) == w.accepted(
            via,
            packet,
            listener,
            two.wants,
        ),
        all_known(w.heard(tick, via, packet, listener, one)),
{
    assert(w.logics.contains_key(listener) ==> one.wants == two.wants);
    match w.accepted(via, packet, listener, one.wants) {
        None => {},
        Some(rule) => {
            if packet.ttl > 1 {
                let arriving = w.arriving(tick, via, packet, listener, rule);
                assert(arriving.logics == w.logics);
                lemma_ran_settled(
                    arriving,
                    tick,
                    listener,
                    Some((via, rule)),
                    CallView::Received(packet.copied_for(listener)),
                    one.reaction,
                    two.reaction,
                );
            }
        },
    }
}

/// Everyone hearing a packet has just one outcome where the logics are the crate's own.
proof fn lemma_heard_by_settled(
    w: WorldView,
    tick: u64,
    via: LinkId,
    packet: PacketView,
    listeners: Seq<NodeId>,
    one: Seq<Hearing>,
    two: Seq<Hearing>,
)
    requires
        all_known(w),
        w.may_hear_all(tick, via, packet, listeners, one),
        w.may_hear_all(tick, via, packet, listeners, two),
    ensures
        w.heard_by(tick, via, packet, listeners, one) == w.heard_by(
            tick,
            via,
            packet,
            listeners,
            two,
        ),
        w.copies(tick, via, packet, listeners, one) == w.copies(
            tick,
            via,
            packet,
            listeners,
            two,
        ),
        all_known(w.heard_by(tick, via, packet, listeners, one)),
    decreases listeners.len(),
{
    if listeners.len() > 0 {
        let n = listeners.len() - 1;
        let front = listeners.drop_last();
        lemma_heard_by_settled(w, tick, via, packet, front, one, two);
        lemma_heard_settled(
            w.heard_by(tick, via, packet, front, one),
            tick,
            via,
            packet,
            listeners[n],
            one[n],
            two[n],
        );
    }
}

/// A packet's turn has just one outcome where the logics are the crate's own.
proof fn lemma_transmitted_settled(
    w: WorldView,
    tick: u64,
    out: OutgoingView,
    one: Seq<Hearing>,
    two: Seq<Hearing>,
)
    requires
        all_known(w),
        w.may_transmit(tick, out, one),
        w.may_transmit(tick, out, two),
    ensures
        w.transmitted(tick, out, one) == w.transmitted(tick, out, two),
        w.delivered(tick, out, one) == w.delivered(tick, out, two),
        all_known(w.transmitted(tick, out, one)),
{
    reveal(WorldView::may_transmit);
    reveal(WorldView::transmitted);
    reveal(WorldView::delivered);
    if w.network.can_use_link(out.sender, out.via) {
        let on_air = w.on_air(tick, out);
        assert(on_air.logics == w.logics);
        lemma_heard_by_settled(
            on_air,
            tick,
            out.via,
            w.packet(out),
            w.audience_of(out),
            one,
            two,
        );
    }
}

/// The logics' ticks have just one outcome where the logics are the crate's own.
proof fn lemma_ticked_by_settled(
    w: WorldView,
    tick: u64,
    nodes: Seq<NodeId>,
    one: Seq<Reaction>,
    two: Seq<Reaction>,
)
    requires
        all_known(w),
        w.may_tick_all(tick, nodes, one),
        w.may_tick_all(tick, nodes, two),
    ensures
        w.ticked_by(tick, nodes, one) == w.ticked_by(tick, nodes, two),
        all_known(w.ticked_by(tick, nodes, one)),
    decreases nodes.len(),
{
    if nodes.len() > 0 {
        let n = nodes.len() - 1;
        let front = nodes.drop_last();
        lemma_ticked_by_settled(w, tick, front, one, two);
        lemma_ran_settled(
            w.ticked_by(tick, front, one),
            tick,
            nodes[n],
            None,
            CallView::Tick,
            one[n],
            two[n],
        );
    }
}

/// A batch has just one outcome where the logics are the crate's own.
proof fn lemma_progress_settled(
    w: WorldView,
    tick: u64,
    batch: Seq<OutgoingView>,
    one: Seq<Seq<Hearing>>,
    two: Seq<Seq<Hearing>>,
    n: nat,
)
    requires
        all_known(w),
        w.may_progress(tick, batch, one, n),
        w.may_progress(tick, batch, two, n),
    ensures
        w.progress(tick, batch, one, n) == w.progress(tick, batch, two, n),
        all_known(w.progress(tick, batch, one, n).world),
    decreases n,
{
    if n > 0 {
        let m = (n - 1) as nat;
        lemma_progress_settled(w, tick, batch, one, two, m);
        let p = w.progress(tick, batch, one, m);
        let out = batch[n - 1];
        if p.tripped is None && p.trips(out) is None {
            let reserving = p.world.reserving((batch.len() - n) as nat);
            assert(reserving.logics == p.world.logics);
            lemma_transmitted_settled(reserving, tick, out, one[n - 1], two[n - 1]);
        }
    }
}

/// Ticks are deterministic: where every logic is one of the crate's own, a tick has just one
/// outcome, so the same world run twice goes through the same events.
pub proof fn law_ticks_are_deterministic(w: WorldView, one: TickRun, two: TickRun)
    requires
        all_known(w),
        w.may_run(one),
        w.may_run(two),
    ensures
        w.ticked(one) == w.ticked(two),
        all_known(w.ticked(one)),
{
    let begun = w.begun();
    let tick = begun.tick_count;
    let nodes = crate::world::listing(w.logics.dom());
    if begun.topology_changed {
        assert(one.modes =~= two.modes) by {
            assert forall|i: int| 0 <= i < nodes.len() implies #[trigger] one.modes[i]
                == two.modes[i] by {
                assert(one.modes[i].0 == nodes[i]);
                assert(two.modes[i].0 == nodes[i]);
            }
        }
    }
    let checked = begun.checked(tick, one);
    assert(checked == begun.checked(tick, two));
    assert(checked.logics == w.logics);
    lemma_ticked_by_settled(checked, tick, nodes, one.ticks, two.ticks);
    let ticked = w.after_ticks(one);
    assert(ticked == w.after_ticks(two));
    lemma_progress_settled(
        ticked,
        tick,
        w.queue.items,
        one.batch,
        two.batch,
        w.queue.items.len(),
    );
    reveal(Progress::finished);
}

/// A logic that crashes is removed, and the crash is reported unless the same was reported
/// recently.
pub proof fn law_crashed_logic_is_removed(w: WorldView, tick: u64, node: NodeId, out: Reaction)
    requires
        w.logics.contains_key(node),
        out.crash is Some,
    ensures
        !w.ran(tick, node, out).logics.contains_key(node),
        forall|other: NodeId|
            other != node ==> (#[trigger] w.ran(tick, node, out).logics.contains_key(other)
                == w.logics.contains_key(other)),
        w.ran(tick, node, out).network == w.network,
{
}

/// A node never accepts a packet that bears its own name as the sender, so nothing is answered
/// to oneself.
pub proof fn law_own_echo_is_never_accepted(
    w: WorldView,
    via: LinkId,
    packet: PacketView,
    listener: NodeId,
)
    requires
        w.network.nodes.contains_key(listener),
        packet.from[0].node == w.network.nodes[listener].name,
    ensures
        crate::world::acceptance(w.network, listener, packet, w.network.links[via]) is None,
{
}

/// A broadcast on a link reaches everyone on it but the sender: each subscriber, and the owner,
/// other than the sender and the root, gets a copy, unless it bears the sender's name.
pub proof fn law_broadcast_reaches_everyone_else(
    w: WorldView,
    out: OutgoingView,
    node: NodeId,
    packet: PacketView,
)
    requires
        w.network.inv(),
        w.network.links.contains_key(out.via),
        w.network.links[out.via].subscribers.contains(node) || w.network.links[out.via].owner
            == Some(node),
        node != out.sender,
        node != w.network.root,
        packet.to[0].node == crate::names::BROADCAST@,
        crate::world::means_link(packet.to[0].link, w.network.links[out.via].name),
        packet.from[0].node != w.network.nodes[node].name,
    ensures
        w.audience_of(out).contains(node),
        crate::world::acceptance(
            w.network,
            node,
            packet,
            w.network.links[out.via],
        ) is Some,
        !w.audience_of(out).contains(out.sender),
        !w.audience_of(out).contains(w.network.root),
{
    let link = w.network.links[out.via];
    let all = match link.owner {
        Some(owner) => if link.subscribers.contains(owner) {
            link.subscribers
        } else {
            link.subscribers.push(owner)
        },
        None => link.subscribers,
    };
    match link.owner {
        Some(owner) => {
            crate::lists::lemma_push_contains(link.subscribers, owner);
        },
        None => {},
    }
    crate::lists::lemma_without(all, set![out.sender, w.network.root]);
    assert(w.network.nodes.contains_key(node));
}

/// A ping that can be answered is answered with a pong: to where the ping came from, over the link
/// it arrived on, with the ping's data.
pub proof fn law_ping_is_answered_with_pong(c: ContextView, packet: PacketView, via: LinkId)
    requires
        packet.event.kind == crate::builtin::PING@,
        c.arrived_on == Some(via),
        c.reply_error(
            crate::packet::EventView { kind: crate::builtin::PONG@, data: packet.event.data },
        ) is None,
    ensures
        c.answered(packet).queue.items == c.queue.items.push(
            OutgoingView {
                sender: c.node,
                via,
                from: crate::logic::address(c.network, c.node, via),
                to: packet.from,
                event: crate::packet::EventView {
                    kind: crate::builtin::PONG@,
                    data: packet.event.data,
                },
                ttl: Packet::DEFAULT_TTL,
                trace: Seq::empty(),
            },
        ),
        c.answered(packet).log == c.log,
{
}

/// Replies come back through the gateway: what a gateway passes to the outside bears a return
/// address that leads to the gateway first, and from there to where the packet came from.
pub proof fn law_replies_come_back_through_the_gateway(
    c: ContextView,
    packet: PacketView,
    via: LinkId,
)
    requires
        c.accepted_by == Some(AcceptRule::Gateway),
        c.external_link_named(packet.to[0].link) == Some(via),
        c.network.nodes.contains_key(c.node),
        c.network.links.contains_key(via),
        packet.from.len() < crate::route::PacketRoute::MAX_DEPTH,
        c.send_error(via, packet.event) is None,
    ensures
        c.gated(packet).queue.items.len() == c.queue.items.len() + 1,
        ({
            let out = c.gated(packet).queue.items.last();
            &&& out.via == via
            &&& out.to == packet.to
            &&& out.event == packet.event
            &&& out.from.take(1) == crate::logic::address(c.network, c.node, via)
            &&& out.from.drop_first() == packet.from
        }),
{
    let out = c.gated(packet).queue.items.last();
    assert(out.from == crate::logic::address(c.network, c.node, via) + packet.from);
    assert(out.from.take(1) =~= crate::logic::address(c.network, c.node, via));
    assert(out.from.drop_first() =~= packet.from);
}

/// Loops end: each copy of a packet that is passed on has one hop less to go, a copy with no hops
/// left is handed to nobody, and so no packet is ever accepted more often than the hop budget
/// allows.
pub proof fn law_loops_are_stopped_by_ttl(
    w: WorldView,
    tick: u64,
    via: LinkId,
    packet: PacketView,
    listener: NodeId,
    hearing: Hearing,
)
    requires
        crate::packet::budgeted(packet.ttl, packet.trace),
    ensures
        packet.trace.len() < Packet::DEFAULT_TTL,
        packet.ttl > 1 ==> {
            let copy = packet.copied_for(listener);
            &&& copy.ttl == packet.ttl - 1
            &&& copy.trace == packet.trace.push(listener)
            &&& crate::packet::budgeted(copy.ttl, copy.trace)
        },
        packet.ttl == 1 ==> w.heard(tick, via, packet, listener, hearing).logics == w.logics
            && w.heard(tick, via, packet, listener, hearing).queue == w.queue,
{
}

/// A logic that was attached to a node is the node's logic, whatever it had before, and the next
/// tick looks at the topology again. Other nodes keep theirs.
pub proof fn law_attached_logic_is_there(w: WorldView, node: NodeId, b: BehaviourView, other: NodeId)
    requires
        crate::ids::is_key(node.spec_raw()),
        !crate::ids::is_null(node.spec_raw()),
        !crate::side_slots::outdated(w.logics.dom(), node),
        !crate::ids::same_slot(other, node),
    ensures
        w.with_logic(node, b).logics.contains_key(node),
        w.with_logic(node, b).logics[node] == b,
        w.with_logic(node, b).topology_changed,
        w.with_logic(node, b).logics.contains_key(other) == w.logics.contains_key(other),
        w.logics.contains_key(other) ==> w.with_logic(node, b).logics[other] == w.logics[other],
        w.with_logic(node, b).network == w.network,
        w.with_logic(node, b).queue == w.queue,
        !w.without_logic(node).logics.contains_key(node),
        w.without_logic(node).topology_changed,
        w.logics.contains_key(other) ==> w.without_logic(node).logics.contains_key(other)
            && w.without_logic(node).logics[other] == w.logics[other],
{
}

/// A node that is removed takes everything inside it along, and leaves neither their logics nor
/// their counters behind. What is not inside it keeps its own.
pub proof fn law_removed_nodes_leave_nothing_behind(w: WorldView, node: NodeId, n: NodeId)
    requires
        w.network.inv(),
        w.network.nodes.contains_key(n),
    ensures
        ({
            let after = w.without_node(node);
            &&& crate::network_laws::is_inside(w.network.nodes, n, node)
                ==> !after.network.nodes.contains_key(n) && !after.logics.contains_key(n)
                && !after.stats.contains_key(n)
            &&& !crate::network_laws::is_inside(w.network.nodes, n, node)
                ==> after.network.nodes.contains_key(n) && after.logics.contains_key(n)
                == w.logics.contains_key(n) && (w.logics.contains_key(n) ==> after.logics[n]
                == w.logics[n]) && after.stats.contains_key(n) == w.stats.contains_key(n) && (
            w.stats.contains_key(n) ==> after.stats[n] == w.stats[n])
            &&& after.topology_changed
            &&& after.queue == w.queue
        }),
{
    crate::network_laws::lemma_inside(w.network.nodes, n, node);
    assert(w.logics.remove_keys(w.network.doomed_nodes(node)).contains_key(n)
        == w.logics.contains_key(n) || crate::graph::within(w.network.nodes, n, node));
}

/// The load report tells what it says: the clock, what the last tick put on links and handed
/// out, the most that any tick put on links, how many packets wait, how many sends were refused,
/// how many copies were lost for want of hops or of a sender, how many alerts and fuse trips there
/// were, and what the trace holds and lost.
pub proof fn law_health_tells_the_load(w: WorldView)
    ensures
        ({
            let h = w.health();
            &&& h.tick == w.tick_count
            &&& h.transmissions == w.totals.transmissions
            &&& h.deliveries == w.totals.deliveries
            &&& h.peak_transmissions == w.totals.peak_transmissions
            &&& w.queue.items.len() <= usize::MAX ==> h.pending == w.queue.items.len()
            &&& h.refused_sends == w.queue.refused
            &&& h.ttl_drops == w.totals.ttl_drops
            &&& h.sender_left_drops == w.totals.sender_left_drops
            &&& h.alerts == w.watch.monitor.alerts_raised
            &&& h.fuse_trips == w.totals.fuse_trips
            &&& w.watch.log.events.len() <= usize::MAX ==> h.trace_len
                == w.watch.log.events.len()
            &&& h.trace_discarded == w.watch.log.discarded
        }),
{
}

/// A tick looks at the topology if and only if it changed since the last one did: it then raises
/// an alert for every relay cycle there is. Afterwards there is nothing new to look at.
pub proof fn law_changed_topology_is_looked_at(w: WorldView, run: TickRun)
    requires
        w.may_run(run),
    ensures
        !w.ticked(run).topology_changed,
        w.topology_changed ==> w.begun().checked(w.begun().tick_count, run).watch
            == w.watch.raise_all(
            crate::monitor::cycles(w.network, w.begun().tick_count, run.modes),
        ),
        !w.topology_changed ==> w.begun().checked(w.begun().tick_count, run).watch == w.watch,
{
    lemma_topology_seen(w, run);
}

/// A logic that crashes is reported as an error about its node, which names the kind of logic and
/// why; what it sent and noted before is kept.
pub proof fn law_crashes_are_reported(w: WorldView, tick: u64, node: NodeId, out: Reaction)
    requires
        w.logics.contains_key(node),
        out.crash is Some,
    ensures
        crate::traffic_laws::is_reported(
            Watch { log: out.context.log, ..w.watch },
            AlertView {
                tick,
                check: crate::monitor::Check::LogicPanicked,
                severity: crate::monitor::Severity::Error,
                subject: crate::monitor::Subject::Node(node),
                value: 0,
                limit: 0,
                message: "`"@ + w.logics[node].kind() + "` logic panicked and was removed: "@
                    + out.crash->0,
            },
            w.ran(tick, node, out).watch,
        ),
        w.ran(tick, node, out).queue == out.context.queue,
{
}

} // verus!
