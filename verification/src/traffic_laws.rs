//! What the monitor makes of the traffic it sees, over any stretch of it.

use vstd::prelude::*;

use crate::ids::{LinkId, NodeId};
use crate::lists::Handle;
use crate::monitor::{AlertView, Check, MonitorConfig, MonitorView, ReplayKey, Severity, Subject,
    Threshold, Watch};
use crate::packet::PacketView;
use crate::trace::{LogView, TraceView};

verus! {

/// Something that a monitor sees.
#[verifier::ext_equal]
pub enum Sight {
    /// A packet was put on a link.
    Sent { sender: NodeId, link: LinkId },
    /// A node got a copy of a packet.
    Delivered { tick: u64, receiver: NodeId, packet: PacketView },
    /// A node's logic handled a packet and sent some.
    Handled { tick: u64, node: NodeId, sends: u64 },
    /// A packet ran out of hops.
    Expired { tick: u64, node: NodeId },
    /// A logic crashed.
    Crashed { tick: u64, node: NodeId, message: Seq<char> },
    /// A tick ended.
    Ended { tick: u64 },
}

/// The monitor and its log after one more sight.
pub open spec fn seen(w: Watch, sight: Sight) -> Watch {
    match sight {
        Sight::Sent { sender, link } => Watch {
            monitor: w.monitor.transmitted(sender, link),
            ..w
        },
        Sight::Delivered { tick, receiver, packet } => w.delivered(tick, receiver, packet),
        Sight::Handled { tick, node, sends } => w.handled(tick, node, sends),
        Sight::Expired { tick, node } => w.ttl_expired(tick, node),
        Sight::Crashed { tick, node, message } => w.logic_panicked(tick, node, message),
        Sight::Ended { tick } => w.ended(tick),
    }
}

/// The monitor and its log after all of it, in order.
pub open spec fn all_seen(w: Watch, sights: Seq<Sight>) -> Watch
    decreases sights.len(),
{
    if sights.len() == 0 {
        w
    } else {
        seen(all_seen(w, sights.drop_last()), sights.last())
    }
}

/// Whether the sight is a delivery of this packet to this node: from and to the same, with the
/// same event.
pub open spec fn is_repeat(sight: Sight, key: ReplayKey) -> bool {
    match sight {
        Sight::Delivered { tick, receiver, packet } => {
            &&& receiver == key.receiver
            &&& packet.from == key.from
            &&& packet.to == key.to
            &&& packet.event == key.event
        },
        _ => false,
    }
}

/// How many deliveries of the packet to the node there were less than `window` ticks before
/// `now`.
pub open spec fn repeats_within(sights: Seq<Sight>, key: ReplayKey, now: int, window: int) -> nat
    decreases sights.len(),
{
    if sights.len() == 0 {
        0
    } else {
        repeats_within(sights.drop_last(), key, now, window) + if is_repeat(sights.last(), key)
            && now - sights.last()->Delivered_tick < window {
            1nat
        } else {
            0nat
        }
    }
}

/// Whether deliveries come in the order of their ticks, up to `now`.
pub open spec fn in_time(sights: Seq<Sight>, now: u64) -> bool {
    &&& forall|i: int|
        0 <= i < sights.len() && (#[trigger] sights[i]) is Delivered ==> sights[i]->Delivered_tick
            <= now
    &&& forall|i: int, j: int|
        0 <= i < j < sights.len() && (#[trigger] sights[i]) is Delivered && (
        #[trigger] sights[j]) is Delivered ==> sights[i]->Delivered_tick
            <= sights[j]->Delivered_tick
}

/// Whether every packet delivered is one of these.
pub open spec fn are_among(sights: Seq<Sight>, keys: Set<ReplayKey>) -> bool {
    forall|i: int, key: ReplayKey|
        0 <= i < sights.len() && #[trigger] is_repeat(sights[i], key) ==> keys.contains(key)
}

/// How many of the ticks are less than `window` before `now`.
pub open spec fn ticks_within(ticks: Seq<u64>, now: int, window: int) -> nat
    decreases ticks.len(),
{
    if ticks.len() == 0 {
        0
    } else {
        ticks_within(ticks.drop_last(), now, window) + if now - ticks.last() < window {
            1nat
        } else {
            0nat
        }
    }
}

/// Counting from the front.
proof fn lemma_ticks_within_front(ticks: Seq<u64>, now: int, window: int)
    requires
        ticks.len() > 0,
    ensures
        ticks_within(ticks, now, window) == ticks_within(ticks.drop_first(), now, window) + (
        if now - ticks[0] < window {
            1nat
        } else {
            0nat
        }),
    decreases ticks.len(),
{
    if ticks.len() > 1 {
        lemma_ticks_within_front(ticks.drop_last(), now, window);
        assert(ticks.drop_last().drop_first() =~= ticks.drop_first().drop_last());
    } else {
        assert(ticks.drop_last() =~= Seq::<u64>::empty());
        assert(ticks.drop_first() =~= Seq::<u64>::empty());
    }
}

/// Where all of the ticks are recent, all of them count.
proof fn lemma_all_within(ticks: Seq<u64>, now: int, window: int)
    requires
        forall|i: int| 0 <= i < ticks.len() ==> now - #[trigger] ticks[i] < window,
    ensures
        ticks_within(ticks, now, window) == ticks.len(),
    decreases ticks.len(),
{
    if ticks.len() > 0 {
        lemma_all_within(ticks.drop_last(), now, window);
    }
}

/// What is dropped from a list of ticks would not have counted, then or later; what is left
/// counts, where the ticks never go down.
proof fn lemma_in_window(ticks: Seq<u64>, now: u64, window: u64)
    requires
        forall|i: int| 0 <= i < ticks.len() ==> #[trigger] ticks[i] <= now,
        forall|i: int, j: int| 0 <= i < j < ticks.len() ==> #[trigger] ticks[i] <= #[trigger] ticks[j],
    ensures
        ({
            let left = crate::monitor::in_window(ticks, now, window);
            &&& forall|later: int|
                now <= later ==> #[trigger] ticks_within(left, later, window as int)
                    == ticks_within(ticks, later, window as int)
            &&& left.len() == ticks_within(ticks, now as int, window as int)
            &&& forall|i: int| 0 <= i < left.len() ==> #[trigger] left[i] <= now
            &&& forall|i: int, j: int|
                0 <= i < j < left.len() ==> #[trigger] left[i] <= #[trigger] left[j]
        }),
    decreases ticks.len(),
{
    let left = crate::monitor::in_window(ticks, now, window);
    if ticks.len() == 0 {
    } else if now - ticks[0] < window {
        assert forall|i: int| 0 <= i < ticks.len() implies now - #[trigger] ticks[i] < window by {
            if i > 0 {
                assert(ticks[0] <= ticks[i]);
            }
        }
        lemma_all_within(ticks, now as int, window as int);
    } else {
        let rest = ticks.drop_first();
        assert forall|i: int| 0 <= i < rest.len() implies #[trigger] rest[i] <= now by {
            assert(rest[i] == ticks[i + 1]);
        }
        assert forall|i: int, j: int| 0 <= i < j < rest.len() implies #[trigger] rest[i]
            <= #[trigger] rest[j] by {
            assert(ticks[i + 1] <= ticks[j + 1]);
        }
        lemma_in_window(rest, now, window);
        assert forall|later: int| now <= later implies #[trigger] ticks_within(
            left,
            later,
            window as int,
        ) == ticks_within(ticks, later, window as int) by {
            lemma_ticks_within_front(ticks, later, window as int);
        }
        lemma_ticks_within_front(ticks, now as int, window as int);
    }
}

/// The ticks that the replay check remembers of a packet.
pub open spec fn ticks_of(w: Watch, key: ReplayKey) -> Seq<u64> {
    if w.monitor.replay.contains_key(key) {
        w.monitor.replay[key]
    } else {
        Seq::empty()
    }
}

/// Whether the ticks are in order, none of them after `now`, and give the number of deliveries
/// that count, now or later.
pub open spec fn tells(
    ticks: Seq<u64>,
    sights: Seq<Sight>,
    key: ReplayKey,
    now: u64,
    window: u64,
) -> bool {
    &&& forall|later: int|
        now <= later ==> #[trigger] ticks_within(ticks, later, window as int) == repeats_within(
            sights,
            key,
            later,
            window as int,
        )
    &&& forall|i: int| 0 <= i < ticks.len() ==> #[trigger] ticks[i] <= now
    &&& forall|i: int, j: int|
        0 <= i < j < ticks.len() ==> #[trigger] ticks[i] <= #[trigger] ticks[j]
}

/// Whether the replay check remembers of each packet of a stretch of traffic what it should.
pub open spec fn remembers(w: Watch, sights: Seq<Sight>, now: u64) -> bool {
    &&& w.monitor.replay.dom().finite()
    &&& forall|key: ReplayKey| #[trigger]
        tells(ticks_of(w, key), sights, key, now, w.monitor.config.replay_window)
}

/// Raising alerts changes neither the settings nor what the replay check remembers.
proof fn lemma_raise_all_keeps(w: Watch, alerts: Seq<AlertView>)
    ensures
        w.raise_all(alerts).monitor.replay == w.monitor.replay,
        w.raise_all(alerts).monitor.config == w.monitor.config,
        w.raise_all(alerts).monitor.link_sends == w.monitor.link_sends,
        w.raise_all(alerts).monitor.node_sends == w.monitor.node_sends,
        w.raise_all(alerts).monitor.network_sends == w.monitor.network_sends,
    decreases alerts.len(),
{
    if alerts.len() > 0 {
        lemma_raise_all_keeps(w, alerts.drop_last());
    }
}

/// A delivery is remembered after others.
proof fn lemma_delivery_remembered(
    w: Watch,
    sights: Seq<Sight>,
    keys: Set<ReplayKey>,
    before: u64,
    tick: u64,
    receiver: NodeId,
    packet: PacketView,
)
    requires
        remembers(w, sights, before),
        before <= tick,
        w.monitor.config.replay.warn > 0 || w.monitor.config.replay.error > 0,
        keys.finite(),
        keys.len() <= 50_000,
        keys.contains(
            (ReplayKey { receiver, from: packet.from, to: packet.to, event: packet.event }),
        ),
        w.monitor.replay.dom().subset_of(keys),
    ensures
        ({
            let sight = Sight::Delivered { tick, receiver, packet };
            let key = ReplayKey { receiver, from: packet.from, to: packet.to, event: packet.event };
            let after = w.delivered(tick, receiver, packet);
            &&& remembers(after, sights.push(sight), tick)
            &&& after.monitor.config == w.monitor.config
            &&& after.monitor.replay.dom().subset_of(keys)
            &&& after.monitor.replay.contains_key(key)
            &&& after.monitor.replay[key].len() == repeats_within(
                sights.push(sight),
                key,
                tick as int,
                w.monitor.config.replay_window as int,
            )
        }),
{
    let sight = Sight::Delivered { tick, receiver, packet };
    let key = ReplayKey { receiver, from: packet.from, to: packet.to, event: packet.event };
    let window = w.monitor.config.replay_window;
    let replay = w.monitor.replay;
    let after = w.delivered(tick, receiver, packet);
    if !replay.contains_key(key) {
        vstd::set_lib::lemma_len_subset(replay.dom().insert(key), keys);
        assert(replay.len() < 50_000);
    }
    let ticks = ticks_of(w, key);
    assert(tells(ticks, sights, key, before, window));
    let more = ticks.push(tick);
    assert(more.drop_last() =~= ticks);
    lemma_in_window(more, tick, window);
    let kept = crate::monitor::in_window(more, tick, window);
    assert(after.monitor.replay =~= replay.insert(key, kept));
    let all = sights.push(sight);
    assert(all.drop_last() =~= sights);
    assert(is_repeat(sight, key));
    assert forall|k: ReplayKey| #[trigger] tells(ticks_of(after, k), all, k, tick, window) by {
        assert(tells(ticks_of(w, k), sights, k, before, window));
        if k == key {
            assert forall|later: int| tick <= later implies #[trigger] ticks_within(
                kept,
                later,
                window as int,
            ) == repeats_within(all, k, later, window as int) by {
                assert(ticks_within(ticks, later, window as int) == repeats_within(
                    sights,
                    k,
                    later,
                    window as int,
                ));
            }
        } else {
            assert(!is_repeat(sight, k));
            assert(ticks_of(after, k) == ticks_of(w, k));
        }
    }
    assert(ticks_within(ticks, tick as int, window as int) == repeats_within(
        sights,
        key,
        tick as int,
        window as int,
    ));
}

/// A new monitor with these settings, and its log.
pub open spec fn new_watch(config: MonitorConfig, log: LogView) -> Watch {
    Watch { monitor: MonitorView::fresh(config), log }
}

/// Sights other than deliveries leave the replay check alone.
proof fn lemma_others_keep(w: Watch, sight: Sight)
    requires
        sight !is Delivered,
    ensures
        seen(w, sight).monitor.replay == w.monitor.replay,
        seen(w, sight).monitor.config == w.monitor.config,
{
    if let Sight::Ended { tick } = sight {
        let next = Watch {
            monitor: MonitorView {
                link_sends: Seq::empty(),
                node_sends: Seq::empty(),
                network_sends: 0,
                ..w.monitor
            },
            ..w
        };
        lemma_raise_all_keeps(next, w.monitor.rate_alerts(tick));
    }
}

/// A new monitor remembers all that counts of the traffic it saw.
proof fn lemma_remembers(
    config: MonitorConfig,
    log: LogView,
    sights: Seq<Sight>,
    keys: Set<ReplayKey>,
    now: u64,
)
    requires
        config.replay.warn > 0 || config.replay.error > 0,
        in_time(sights, now),
        keys.finite(),
        keys.len() <= 50_000,
        are_among(sights, keys),
    ensures
        remembers(all_seen(new_watch(config, log), sights), sights, now),
        all_seen(new_watch(config, log), sights).monitor.config == config,
        all_seen(new_watch(config, log), sights).monitor.replay.dom().subset_of(keys),
    decreases sights.len(),
{
    let w = all_seen(new_watch(config, log), sights);
    if sights.len() == 0 {
    } else {
        let before = sights.drop_last();
        let last = sights.last();
        let was = all_seen(new_watch(config, log), before);
        let n = sights.len() - 1;
        assert(sights =~= before.push(last));
        assert forall|i: int, key: ReplayKey|
            0 <= i < before.len() && #[trigger] is_repeat(before[i], key) implies keys.contains(
            key,
        ) by {
            assert(is_repeat(sights[i], key));
        }
        if let Sight::Delivered { tick, receiver, packet } = last {
            assert(sights[n]->Delivered_tick == tick);
            assert(in_time(before, tick)) by {
                assert forall|i: int|
                    0 <= i < before.len() && (
                    #[trigger] before[i]) is Delivered implies before[i]->Delivered_tick <= tick by {
                    assert(sights[i] is Delivered && sights[n] is Delivered);
                }
                assert forall|i: int, j: int|
                    0 <= i < j < before.len() && (#[trigger] before[i]) is Delivered && (
                    #[trigger] before[j]) is Delivered implies before[i]->Delivered_tick
                    <= before[j]->Delivered_tick by {
                    assert(sights[i] is Delivered && sights[j] is Delivered);
                }
            }
            lemma_remembers(config, log, before, keys, tick);
            let key = ReplayKey { receiver, from: packet.from, to: packet.to, event: packet.event };
            assert(is_repeat(sights[n], key));
            lemma_delivery_remembered(was, before, keys, tick, tick, receiver, packet);
            lemma_remembers_later(w, sights, tick, now);
        } else {
            assert(in_time(before, now)) by {
                assert forall|i: int|
                    0 <= i < before.len() && (
                    #[trigger] before[i]) is Delivered implies before[i]->Delivered_tick <= now by {
                    assert(sights[i] is Delivered);
                }
                assert forall|i: int, j: int|
                    0 <= i < j < before.len() && (#[trigger] before[i]) is Delivered && (
                    #[trigger] before[j]) is Delivered implies before[i]->Delivered_tick
                    <= before[j]->Delivered_tick by {
                    assert(sights[i] is Delivered && sights[j] is Delivered);
                }
            }
            lemma_remembers(config, log, before, keys, now);
            lemma_others_keep(was, last);
            assert forall|key: ReplayKey, later: int|
                #[trigger] repeats_within(sights, key, later, config.replay_window as int)
                    == repeats_within(before, key, later, config.replay_window as int) by {}
            lemma_remembers_same(was, before, w, sights, now);
        }
    }
}

/// What is remembered is remembered later on.
proof fn lemma_remembers_later(w: Watch, sights: Seq<Sight>, now: u64, later: u64)
    requires
        remembers(w, sights, now),
        now <= later,
    ensures
        remembers(w, sights, later),
{
    let window = w.monitor.config.replay_window;
    assert forall|key: ReplayKey| #[trigger] tells(ticks_of(w, key), sights, key, later, window) by {
        assert(tells(ticks_of(w, key), sights, key, now, window));
    }
}

/// What is remembered does not depend on what is no delivery.
proof fn lemma_remembers_same(a: Watch, before: Seq<Sight>, b: Watch, after: Seq<Sight>, now: u64)
    requires
        remembers(a, before, now),
        b.monitor.replay == a.monitor.replay,
        b.monitor.config == a.monitor.config,
        forall|key: ReplayKey, later: int|
            #[trigger] repeats_within(
                after,
                key,
                later,
                a.monitor.config.replay_window as int,
            ) == repeats_within(before, key, later, a.monitor.config.replay_window as int),
    ensures
        remembers(b, after, now),
{
    let window = a.monitor.config.replay_window;
    assert forall|key: ReplayKey| #[trigger] tells(ticks_of(b, key), after, key, now, window) by {
        assert(tells(ticks_of(a, key), before, key, now, window));
    }
}

/// What a value comes to at two levels, each of which is off at 0: an error from the error level
/// on, or else a warning from the warning level on.
pub open spec fn verdict(t: Threshold, value: int) -> Option<(Severity, u64)> {
    if t.error != 0 && value >= t.error {
        Some((Severity::Error, t.error))
    } else if t.warn != 0 && value >= t.warn {
        Some((Severity::Warning, t.warn))
    } else {
        None
    }
}

/// Whether such an alert is held back: one of the same check about the same thing was let through
/// less than the cooldown before, and that was an error or this is a mere warning.
pub open spec fn is_held_back(w: Watch, a: AlertView) -> bool {
    &&& w.monitor.fired.contains_key((a.check, a.subject))
    &&& a.tick - w.monitor.fired[(a.check, a.subject)].0 < w.monitor.config.cooldown
    &&& w.monitor.config.cooldown > 0
    &&& w.monitor.fired[(a.check, a.subject)].1 == Severity::Error || a.severity
        == Severity::Warning
}

/// Whether all that an alert changed is what it should: held back, nothing; or else it is counted,
/// it is the last thing in the log, it is the latest of its check, and it holds others of its
/// kind back from its tick on.
pub open spec fn is_reported(before: Watch, a: AlertView, after: Watch) -> bool {
    &&& after.monitor.replay == before.monitor.replay
    &&& after.monitor.config == before.monitor.config
    &&& is_held_back(before, a) ==> after == before
    &&& !is_held_back(before, a) ==> {
        &&& after.log.events.len() > 0
        &&& after.log.events.last() == TraceView::Alert(a)
        &&& before.monitor.alerts_raised < u64::MAX ==> after.monitor.alerts_raised
            == before.monitor.alerts_raised + 1
        &&& after.monitor.latest == before.monitor.latest.insert(a.check, a)
        &&& after.monitor.fired == before.monitor.fired.insert(
            (a.check, a.subject),
            (a.tick, a.severity),
        )
    }
}

/// Every alert is reported once, unless one like it was a moment ago.
pub proof fn law_alerts_are_reported(w: Watch, a: AlertView)
    ensures
        is_reported(w, a, w.raise(a)),
{
}

/// What the replay check counts for a packet is exactly how often that same packet was delivered
/// to that node less than the window ago, whatever else the monitor saw: with ticks that never go
/// down, a delivery counts as long as less than a window has passed since. It reports an alert if
/// and only if that number reaches a level that is on. It starts over only where it would have to
/// remember more than fifty thousand different packets.
pub proof fn law_replays_are_counted_in_the_window(
    config: MonitorConfig,
    log: LogView,
    sights: Seq<Sight>,
    keys: Set<ReplayKey>,
    tick: u64,
    receiver: NodeId,
    packet: PacketView,
)
    requires
        config.replay.warn > 0 || config.replay.error > 0,
        in_time(sights, tick),
        keys.finite(),
        keys.len() <= 50_000,
        are_among(sights.push(Sight::Delivered { tick, receiver, packet }), keys),
        sights.len() < u64::MAX,
    ensures
        ({
            let before = all_seen(new_watch(config, log), sights);
            let after = before.delivered(tick, receiver, packet);
            let key = ReplayKey { receiver, from: packet.from, to: packet.to, event: packet.event };
            let n = repeats_within(
                sights.push(Sight::Delivered { tick, receiver, packet }),
                key,
                tick as int,
                config.replay_window as int,
            );
            &&& after.monitor.replay.contains_key(key)
            &&& after.monitor.replay[key].len() == n
            &&& forall|i: int|
                0 <= i < n ==> tick - #[trigger] after.monitor.replay[key][i]
                    < config.replay_window
            &&& match verdict(config.replay, n as int) {
                Some((severity, limit)) => is_reported(
                    Watch {
                        monitor: MonitorView {
                            replay: after.monitor.replay,
                            ..before.monitor
                        },
                        ..before
                    },
                    AlertView {
                        tick,
                        check: Check::Replay,
                        severity,
                        subject: Subject::Node(receiver),
                        value: n as u64,
                        limit,
                        message: "received the same "@ + packet.event.kind + " packet "@
                            + crate::text::decimal_text(n) + " times in "@
                            + crate::text::decimal_text(config.replay_window as nat) + " ticks"@,
                    },
                    after,
                ),
                None => after.log == before.log && after.monitor.alerts_raised
                    == before.monitor.alerts_raised && after.monitor.fired
                    == before.monitor.fired && after.monitor.latest == before.monitor.latest,
            }
        }),
{
    let before = all_seen(new_watch(config, log), sights);
    let after = before.delivered(tick, receiver, packet);
    let key = ReplayKey { receiver, from: packet.from, to: packet.to, event: packet.event };
    let all = sights.push(Sight::Delivered { tick, receiver, packet });
    assert(is_repeat(all[sights.len() as int], key));
    assert forall|i: int, k: ReplayKey|
        0 <= i < sights.len() && #[trigger] is_repeat(sights[i], k) implies keys.contains(k) by {
        assert(is_repeat(all[i], k));
    }
    lemma_remembers(config, log, sights, keys, tick);
    lemma_delivery_remembered(before, sights, keys, tick, tick, receiver, packet);
    let kept = after.monitor.replay[key];
    let window = config.replay_window as int;
    assert(tells(ticks_of(after, key), all, key, tick, config.replay_window));
    assert(ticks_within(kept, tick as int, window) == kept.len());
    lemma_within_each(kept, tick as int, window);
    lemma_repeats_bounded(all, key, tick as int, window);
}

/// Where as many ticks count as there are, each does.
proof fn lemma_within_each(ticks: Seq<u64>, now: int, window: int)
    requires
        ticks_within(ticks, now, window) == ticks.len(),
    ensures
        forall|i: int| 0 <= i < ticks.len() ==> now - #[trigger] ticks[i] < window,
    decreases ticks.len(),
{
    if ticks.len() > 0 {
        lemma_ticks_within_bounded(ticks.drop_last(), now, window);
        lemma_within_each(ticks.drop_last(), now, window);
        assert forall|i: int| 0 <= i < ticks.len() implies now - #[trigger] ticks[i] < window by {
            if i < ticks.len() - 1 {
                assert(ticks.drop_last()[i] == ticks[i]);
            }
        }
    }
}

proof fn lemma_ticks_within_bounded(ticks: Seq<u64>, now: int, window: int)
    ensures
        ticks_within(ticks, now, window) <= ticks.len(),
    decreases ticks.len(),
{
    if ticks.len() > 0 {
        lemma_ticks_within_bounded(ticks.drop_last(), now, window);
    }
}

proof fn lemma_repeats_bounded(sights: Seq<Sight>, key: ReplayKey, now: int, window: int)
    ensures
        repeats_within(sights, key, now, window) <= sights.len(),
    decreases sights.len(),
{
    if sights.len() > 0 {
        lemma_repeats_bounded(sights.drop_last(), key, now, window);
    }
}

/// A packet that comes again only after a whole window is counted once every time, and so never
/// raises an alert where each level is off or above one.
pub proof fn law_spaced_packets_never_alert(
    config: MonitorConfig,
    log: LogView,
    sights: Seq<Sight>,
    keys: Set<ReplayKey>,
    tick: u64,
    receiver: NodeId,
    packet: PacketView,
)
    requires
        config.replay.warn > 1 || config.replay.error > 1,
        config.replay.warn != 1,
        config.replay.error != 1,
        config.replay_window > 0,
        in_time(sights, tick),
        keys.finite(),
        keys.len() <= 50_000,
        are_among(sights.push(Sight::Delivered { tick, receiver, packet }), keys),
        sights.len() < u64::MAX,
        forall|i: int|
            0 <= i < sights.len() && is_repeat(
                #[trigger] sights[i],
                ReplayKey { receiver, from: packet.from, to: packet.to, event: packet.event },
            ) ==> tick - sights[i]->Delivered_tick >= config.replay_window,
    ensures
        ({
            let before = all_seen(new_watch(config, log), sights);
            let after = before.delivered(tick, receiver, packet);
            let key = ReplayKey { receiver, from: packet.from, to: packet.to, event: packet.event };
            &&& after.monitor.replay.contains_key(key)
            &&& after.monitor.replay[key].len() == 1
            &&& after.log == before.log
            &&& after.monitor.alerts_raised == before.monitor.alerts_raised
        }),
{
    let key = ReplayKey { receiver, from: packet.from, to: packet.to, event: packet.event };
    let sight = Sight::Delivered { tick, receiver, packet };
    law_replays_are_counted_in_the_window(config, log, sights, keys, tick, receiver, packet);
    lemma_none_within(sights, key, tick as int, config.replay_window as int);
    assert(sights.push(sight).drop_last() =~= sights);
    assert(is_repeat(sight, key));
}

proof fn lemma_none_within(sights: Seq<Sight>, key: ReplayKey, now: int, window: int)
    requires
        forall|i: int|
            0 <= i < sights.len() && is_repeat(#[trigger] sights[i], key) ==> now
                - sights[i]->Delivered_tick >= window,
    ensures
        repeats_within(sights, key, now, window) == 0,
    decreases sights.len(),
{
    if sights.len() > 0 {
        let front = sights.drop_last();
        assert forall|i: int| 0 <= i < front.len() && is_repeat(#[trigger] front[i], key) implies now
            - front[i]->Delivered_tick >= window by {
            assert(sights[i] == front[i]);
        }
        lemma_none_within(front, key, now, window);
    }
}

/// With both levels off the replay check does nothing.
pub proof fn law_replay_check_can_be_off(w: Watch, tick: u64, receiver: NodeId, packet: PacketView)
    requires
        w.monitor.config.replay.warn == 0,
        w.monitor.config.replay.error == 0,
    ensures
        w.delivered(tick, receiver, packet) == w,
{
}

/// A logic that sends too much for one packet, a packet that runs out of hops and a logic that
/// crashes are reported, each about the node it happened at: the first where the number of sends
/// reaches a level that is on, the others always, as errors.
pub proof fn law_mishaps_are_reported(
    w: Watch,
    tick: u64,
    node: NodeId,
    sends: u64,
    message: Seq<char>,
)
    ensures
        match verdict(w.monitor.config.amplification, sends as int) {
            Some((severity, limit)) => is_reported(
                w,
                AlertView {
                    tick,
                    check: Check::Amplification,
                    severity,
                    subject: Subject::Node(node),
                    value: sends,
                    limit,
                    message: "one incoming packet made it send "@ + crate::text::decimal_text(
                        sends as nat,
                    ),
                },
                w.handled(tick, node, sends),
            ),
            None => w.handled(tick, node, sends) == w,
        },
        is_reported(
            w,
            AlertView {
                tick,
                check: Check::TtlExpired,
                severity: Severity::Error,
                subject: Subject::Node(node),
                value: 0,
                limit: 0,
                message: "a packet ran out of hops here: there is a loop"@,
            },
            w.ttl_expired(tick, node),
        ),
        is_reported(
            w,
            AlertView {
                tick,
                check: Check::LogicPanicked,
                severity: Severity::Error,
                subject: Subject::Node(node),
                value: 0,
                limit: 0,
                message,
            },
            w.logic_panicked(tick, node, message),
        ),
{
}

/// How many packets were put on the link since the last tick ended.
pub open spec fn sent_on(sights: Seq<Sight>, link: LinkId) -> nat
    decreases sights.len(),
{
    if sights.len() == 0 || sights.last() is Ended {
        0
    } else {
        sent_on(sights.drop_last(), link) + if sights.last() is Sent && sights.last()->link
            == link {
            1nat
        } else {
            0nat
        }
    }
}

/// How many packets the node sent since the last tick ended.
pub open spec fn sent_by(sights: Seq<Sight>, node: NodeId) -> nat
    decreases sights.len(),
{
    if sights.len() == 0 || sights.last() is Ended {
        0
    } else {
        sent_by(sights.drop_last(), node) + if sights.last() is Sent && sights.last()->sender
            == node {
            1nat
        } else {
            0nat
        }
    }
}

/// How many packets were sent since the last tick ended.
pub open spec fn sent_in_all(sights: Seq<Sight>) -> nat
    decreases sights.len(),
{
    if sights.len() == 0 || sights.last() is Ended {
        0
    } else {
        sent_in_all(sights.drop_last()) + if sights.last() is Sent {
            1nat
        } else {
            0nat
        }
    }
}

/// What is sent is counted: in all, by link and by sender, from the last tick's end on.
pub proof fn law_sends_are_counted(config: MonitorConfig, log: LogView, sights: Seq<Sight>)
    requires
        sights.len() <= u64::MAX,
    ensures
        ({
            let m = all_seen(new_watch(config, log), sights).monitor;
            &&& m.config == config
            &&& m.network_sends == sent_in_all(sights)
            &&& forall|link: LinkId| #[trigger]
                crate::tally::count_of(m.link_sends, link) == sent_on(sights, link)
            &&& forall|node: NodeId| #[trigger]
                crate::tally::count_of(m.node_sends, node) == sent_by(sights, node)
            &&& crate::tally::in_places(m.link_sends)
            &&& crate::tally::in_places(m.node_sends)
            &&& sent_in_all(sights) <= sights.len()
            &&& forall|link: LinkId| #[trigger] sent_on(sights, link) <= sights.len()
            &&& forall|node: NodeId| #[trigger] sent_by(sights, node) <= sights.len()
        }),
    decreases sights.len(),
{
    let w = all_seen(new_watch(config, log), sights);
    if sights.len() > 0 {
        let before = sights.drop_last();
        law_sends_are_counted(config, log, before);
        let was = all_seen(new_watch(config, log), before);
        match sights.last() {
            Sight::Sent { sender, link } => {
                crate::tally::lemma_counted(was.monitor.link_sends, link);
                crate::tally::lemma_counted(was.monitor.node_sends, sender);
                assert forall|l: LinkId| #[trigger]
                    crate::tally::count_of(w.monitor.link_sends, l) == sent_on(sights, l) by {
                    assert(crate::tally::count_of(was.monitor.link_sends, l) == sent_on(before, l));
                    assert(sent_on(before, l) <= before.len());
                }
                assert forall|n: NodeId| #[trigger]
                    crate::tally::count_of(w.monitor.node_sends, n) == sent_by(sights, n) by {
                    assert(crate::tally::count_of(was.monitor.node_sends, n) == sent_by(before, n));
                    assert(sent_by(before, n) <= before.len());
                }
                assert forall|l: LinkId| #[trigger] sent_on(sights, l) <= sights.len() by {
                    assert(sent_on(before, l) <= before.len());
                }
                assert forall|n: NodeId| #[trigger] sent_by(sights, n) <= sights.len() by {
                    assert(sent_by(before, n) <= before.len());
                }
            },
            Sight::Ended { tick } => {
                let next = Watch {
                    monitor: MonitorView {
                        link_sends: Seq::empty(),
                        node_sends: Seq::empty(),
                        network_sends: 0,
                        ..was.monitor
                    },
                    ..was
                };
                lemma_raise_all_keeps(next, was.monitor.rate_alerts(tick));
            },
            _ => {
                assert forall|l: LinkId| #[trigger] sent_on(sights, l) == sent_on(before, l) by {}
                assert forall|n: NodeId| #[trigger] sent_by(sights, n) == sent_by(before, n) by {}
            },
        }
    }
}

/// The alert that a rate calls for, where it calls for one.
pub open spec fn rate_alert(
    check: Check,
    subject: Subject,
    t: Threshold,
    tick: u64,
    n: nat,
    message: Seq<char>,
) -> Option<AlertView> {
    match verdict(t, n as int) {
        Some((severity, limit)) => Some(
            AlertView { tick, check, severity, subject, value: n as u64, limit, message },
        ),
        None => None,
    }
}

/// What the traffic on a link calls for.
pub open spec fn link_alert(t: Threshold, tick: u64, link: LinkId, n: nat) -> Option<AlertView> {
    rate_alert(
        Check::LinkRate,
        Subject::Link(link),
        t,
        tick,
        n,
        crate::text::decimal_text(n) + " packets on this link this tick"@,
    )
}

/// What the traffic from a node calls for.
pub open spec fn node_alert(t: Threshold, tick: u64, node: NodeId, n: nat) -> Option<AlertView> {
    rate_alert(
        Check::NodeRate,
        Subject::Node(node),
        t,
        tick,
        n,
        "sent "@ + crate::text::decimal_text(n) + " packets this tick"@,
    )
}

/// What the traffic in the network calls for.
pub open spec fn network_alert(t: Threshold, tick: u64, n: nat) -> Option<AlertView> {
    rate_alert(
        Check::NetworkRate,
        Subject::Network,
        t,
        tick,
        n,
        crate::text::decimal_text(n) + " packets this tick"@,
    )
}

proof fn lemma_link_alerts(t: Threshold, tick: u64, counts: Seq<(LinkId, u64)>)
    requires
        crate::tally::in_places(counts),
    ensures
        forall|link: LinkId|
            #![trigger crate::tally::count_of(counts, link)]
            match link_alert(t, tick, link, crate::tally::count_of(counts, link) as nat) {
                Some(a) => crate::monitor::link_alerts(t, tick, counts).contains(a),
                None => true,
            },
        forall|a: AlertView| #[trigger]
            crate::monitor::link_alerts(t, tick, counts).contains(a) ==> a.subject is Link && Some(
                a,
            ) == link_alert(
                t,
                tick,
                a.subject->Link_0,
                crate::tally::count_of(counts, a.subject->Link_0) as nat,
            ),
        forall|i: int, j: int|
            0 <= i < j < crate::monitor::link_alerts(t, tick, counts).len()
                ==> #[trigger] crate::monitor::link_alerts(t, tick, counts)[i].subject
                != #[trigger] crate::monitor::link_alerts(t, tick, counts)[j].subject,
    decreases counts.len(),
{
    let alerts = crate::monitor::link_alerts(t, tick, counts);
    if counts.len() > 0 {
        let front = counts.drop_last();
        assert(crate::tally::in_places(front)) by {
            assert forall|i: int, j: int| 0 <= i < j < front.len() implies (
            #[trigger] front[i]).0.place() < (#[trigger] front[j]).0.place() by {
                assert(counts[i].0.place() < counts[j].0.place());
            }
        }
        lemma_link_alerts(t, tick, front);
        let some = crate::monitor::link_alerts(t, tick, front);
        let (link, n) = counts.last();
        lemma_not_counted(counts);
        assert(crate::tally::count_of(front, link) == 0);
        if let Some((severity, limit)) = t.judged(n) {
            let last = alerts.last();
            crate::lists::lemma_push_contains(some, last);
            assert(alerts =~= some.push(last));
        }
        assert forall|a: AlertView| #[trigger] alerts.contains(a) implies a.subject is Link && Some(
            a,
        ) == link_alert(
            t,
            tick,
            a.subject->Link_0,
            crate::tally::count_of(counts, a.subject->Link_0) as nat,
        ) by {
            if some.contains(a) {
                if a.subject->Link_0 == link {
                    assert(link_alert(t, tick, link, 0) is None);
                }
            }
        }
        assert forall|l: LinkId|
            #![trigger crate::tally::count_of(counts, l)]
            match link_alert(t, tick, l, crate::tally::count_of(counts, l) as nat) {
                Some(a) => alerts.contains(a),
                None => true,
            } by {
            if l != link {
                assert(crate::tally::count_of(counts, l) == crate::tally::count_of(front, l));
            } else if let Some(a) = link_alert(
                t,
                tick,
                l,
                crate::tally::count_of(counts, l) as nat,
            ) {
                assert(alerts.last() == a);
            }
        }
        assert forall|i: int, j: int| 0 <= i < j < alerts.len() implies #[trigger] alerts[i].subject
            != #[trigger] alerts[j].subject by {
            if j == some.len() {
                assert(some.contains(alerts[i]));
                assert(link_alert(t, tick, link, 0) is None);
            }
        }
    }
}

/// The last handle of a list in order is nowhere before.
proof fn lemma_not_counted<T: Handle>(s: Seq<(T, u64)>)
    requires
        crate::tally::in_places(s),
        s.len() > 0,
    ensures
        crate::tally::count_of(s.drop_last(), s.last().0) == 0,
{
    lemma_absent_from(s.drop_last(), s.last().0, s);
}

proof fn lemma_absent_from<T: Handle>(front: Seq<(T, u64)>, x: T, s: Seq<(T, u64)>)
    requires
        crate::tally::in_places(s),
        front.len() < s.len(),
        front == s.take(front.len() as int),
        x == s.last().0,
    ensures
        crate::tally::count_of(front, x) == 0,
    decreases front.len(),
{
    if front.len() > 0 {
        let k = front.len() - 1;
        assert(front.last() == s[k]);
        assert(s[k].0.place() < s[s.len() - 1].0.place());
        assert(front.drop_last() =~= s.take(k));
        lemma_absent_from(front.drop_last(), x, s);
    }
}

proof fn lemma_node_alerts(t: Threshold, tick: u64, counts: Seq<(NodeId, u64)>)
    requires
        crate::tally::in_places(counts),
    ensures
        forall|node: NodeId|
            #![trigger crate::tally::count_of(counts, node)]
            match node_alert(t, tick, node, crate::tally::count_of(counts, node) as nat) {
                Some(a) => crate::monitor::node_alerts(t, tick, counts).contains(a),
                None => true,
            },
        forall|a: AlertView| #[trigger]
            crate::monitor::node_alerts(t, tick, counts).contains(a) ==> a.subject is Node && Some(
                a,
            ) == node_alert(
                t,
                tick,
                a.subject->Node_0,
                crate::tally::count_of(counts, a.subject->Node_0) as nat,
            ),
        forall|i: int, j: int|
            0 <= i < j < crate::monitor::node_alerts(t, tick, counts).len()
                ==> #[trigger] crate::monitor::node_alerts(t, tick, counts)[i].subject
                != #[trigger] crate::monitor::node_alerts(t, tick, counts)[j].subject,
    decreases counts.len(),
{
    let alerts = crate::monitor::node_alerts(t, tick, counts);
    if counts.len() > 0 {
        let front = counts.drop_last();
        assert(crate::tally::in_places(front)) by {
            assert forall|i: int, j: int| 0 <= i < j < front.len() implies (
            #[trigger] front[i]).0.place() < (#[trigger] front[j]).0.place() by {
                assert(counts[i].0.place() < counts[j].0.place());
            }
        }
        lemma_node_alerts(t, tick, front);
        let some = crate::monitor::node_alerts(t, tick, front);
        let (node, n) = counts.last();
        lemma_not_counted(counts);
        assert(crate::tally::count_of(front, node) == 0);
        if let Some((severity, limit)) = t.judged(n) {
            let last = alerts.last();
            crate::lists::lemma_push_contains(some, last);
            assert(alerts =~= some.push(last));
        }
        assert forall|a: AlertView| #[trigger] alerts.contains(a) implies a.subject is Node && Some(
            a,
        ) == node_alert(
            t,
            tick,
            a.subject->Node_0,
            crate::tally::count_of(counts, a.subject->Node_0) as nat,
        ) by {
            if some.contains(a) {
                if a.subject->Node_0 == node {
                    assert(node_alert(t, tick, node, 0) is None);
                }
            }
        }
        assert forall|l: NodeId|
            #![trigger crate::tally::count_of(counts, l)]
            match node_alert(t, tick, l, crate::tally::count_of(counts, l) as nat) {
                Some(a) => alerts.contains(a),
                None => true,
            } by {
            if l != node {
                assert(crate::tally::count_of(counts, l) == crate::tally::count_of(front, l));
            } else if let Some(a) = node_alert(
                t,
                tick,
                l,
                crate::tally::count_of(counts, l) as nat,
            ) {
                assert(alerts.last() == a);
            }
        }
        assert forall|i: int, j: int| 0 <= i < j < alerts.len() implies #[trigger] alerts[i].subject
            != #[trigger] alerts[j].subject by {
            if j == some.len() {
                assert(some.contains(alerts[i]));
                assert(node_alert(t, tick, node, 0) is None);
            }
        }
    }
}

/// Several alerts about different things are each held back or let through by themselves.
proof fn lemma_raise_all_each(w: Watch, alerts: Seq<AlertView>)
    requires
        forall|i: int, j: int|
            0 <= i < j < alerts.len() ==> #[trigger] alerts[i].subject
                != #[trigger] alerts[j].subject,
    ensures
        ({
            let after = w.raise_all(alerts);
            &&& after.monitor.config == w.monitor.config
            &&& forall|i: int|
                0 <= i < alerts.len() && !is_held_back(w, #[trigger] alerts[i])
                    ==> after.monitor.fired.contains_key((alerts[i].check, alerts[i].subject))
                    && after.monitor.fired[(alerts[i].check, alerts[i].subject)] == (
                alerts[i].tick, alerts[i].severity)
            &&& forall|key: (Check, Subject)|
                (forall|i: int|
                    0 <= i < alerts.len() && !is_held_back(w, #[trigger] alerts[i]) ==> (
                    alerts[i].check, alerts[i].subject) != key)
                    ==> #[trigger] after.monitor.fired.contains_key(key)
                    == w.monitor.fired.contains_key(key) && after.monitor.fired[key]
                    == w.monitor.fired[key]
        }),
    decreases alerts.len(),
{
    let after = w.raise_all(alerts);
    if alerts.len() > 0 {
        let front = alerts.drop_last();
        let last = alerts.last();
        let n = alerts.len() - 1;
        assert(alerts[n] == last);
        assert forall|i: int, j: int| 0 <= i < j < front.len() implies #[trigger] front[i].subject
            != #[trigger] front[j].subject by {
            assert(alerts[i].subject != alerts[j].subject);
        }
        lemma_raise_all_each(w, front);
        let was = w.raise_all(front);
        let key = (last.check, last.subject);
        assert forall|i: int| 0 <= i < front.len() implies (
        #[trigger] front[i].check, front[i].subject) != key by {
            assert(alerts[i].subject != alerts[n].subject);
        }
        assert(was.monitor.fired.contains_key(key) == w.monitor.fired.contains_key(key));
        assert(is_held_back(was, last) == is_held_back(w, last));
        assert forall|i: int|
            0 <= i < alerts.len() && !is_held_back(
                w,
                #[trigger] alerts[i],
            ) implies after.monitor.fired.contains_key((alerts[i].check, alerts[i].subject))
            && after.monitor.fired[(alerts[i].check, alerts[i].subject)] == (
        alerts[i].tick, alerts[i].severity) by {
            if i < n {
                assert(front[i] == alerts[i]);
                assert(alerts[i].subject != alerts[n].subject);
            }
        }
        assert forall|k: (Check, Subject)|
            (forall|i: int|
                0 <= i < alerts.len() && !is_held_back(w, #[trigger] alerts[i]) ==> (
                alerts[i].check, alerts[i].subject) != k) implies #[trigger] after.monitor.fired.contains_key(
            k,
        ) == w.monitor.fired.contains_key(k) && after.monitor.fired[k] == w.monitor.fired[k] by {
            assert forall|i: int|
                0 <= i < front.len() && !is_held_back(w, #[trigger] front[i]) implies (
            front[i].check, front[i].subject) != k by {
                assert(front[i] == alerts[i]);
            }
            assert(was.monitor.fired.contains_key(k) == w.monitor.fired.contains_key(k));
            if !is_held_back(w, last) {
                assert((alerts[n].check, alerts[n].subject) != k);
            }
        }
    }
}

/// Whether an alert that is called for got through at the end of a tick, unless it is held back;
/// and none did that is not called for.
pub open spec fn is_settled(
    before: Watch,
    alert: Option<AlertView>,
    key: (Check, Subject),
    after: Watch,
) -> bool {
    match alert {
        Some(a) if !is_held_back(before, a) => after.monitor.fired.contains_key(key)
            && after.monitor.fired[key] == (a.tick, a.severity),
        _ => after.monitor.fired.contains_key(key) == before.monitor.fired.contains_key(key)
            && after.monitor.fired[key] == before.monitor.fired[key],
    }
}

/// What comes of the only alert with a key.
proof fn lemma_settled(
    w: Watch,
    alerts: Seq<AlertView>,
    alert: Option<AlertView>,
    key: (Check, Subject),
)
    requires
        forall|i: int, j: int|
            0 <= i < j < alerts.len() ==> #[trigger] alerts[i].subject
                != #[trigger] alerts[j].subject,
        alert matches Some(a) ==> alerts.contains(a) && (a.check, a.subject) == key,
        forall|i: int|
            0 <= i < alerts.len() && !is_held_back(w, #[trigger] alerts[i]) && (
            alerts[i].check, alerts[i].subject) == key ==> alert == Some(alerts[i]),
    ensures
        is_settled(w, alert, key, w.raise_all(alerts)),
{
    lemma_raise_all_each(w, alerts);
    let after = w.raise_all(alerts);
    assert(after.monitor.fired.contains_key(key) == after.monitor.fired.contains_key(key));
    if let Some(a) = alert {
        let i = choose|i: int| 0 <= i < alerts.len() && alerts[i] == a;
        assert(alerts[i] == a);
    }
}

/// When a tick ends, rates are judged and counting starts over: an alert about the network, about
/// a link and about a node gets through if and only if the packets sent since the last tick's end
/// in all, on that link and by that node reach a level of that check that is on, and it is not
/// held back.
pub proof fn law_rates_are_judged_when_a_tick_ends(
    config: MonitorConfig,
    log: LogView,
    sights: Seq<Sight>,
    tick: u64,
    link: LinkId,
    node: NodeId,
)
    requires
        sights.len() <= u64::MAX,
    ensures
        ({
            let before = all_seen(new_watch(config, log), sights);
            let after = before.ended(tick);
            &&& is_settled(
                before,
                network_alert(config.network_rate, tick, sent_in_all(sights)),
                (Check::NetworkRate, Subject::Network),
                after,
            )
            &&& is_settled(
                before,
                link_alert(config.link_rate, tick, link, sent_on(sights, link)),
                (Check::LinkRate, Subject::Link(link)),
                after,
            )
            &&& is_settled(
                before,
                node_alert(config.node_rate, tick, node, sent_by(sights, node)),
                (Check::NodeRate, Subject::Node(node)),
                after,
            )
            &&& after.monitor.network_sends == 0
            &&& after.monitor.link_sends.len() == 0
            &&& after.monitor.node_sends.len() == 0
        }),
{
    law_sends_are_counted(config, log, sights);
    let before = all_seen(new_watch(config, log), sights);
    let m = before.monitor;
    let cleared = Watch {
        monitor: MonitorView {
            link_sends: Seq::empty(),
            node_sends: Seq::empty(),
            network_sends: 0,
            ..m
        },
        ..before
    };
    let n = crate::monitor::network_alerts(config.network_rate, tick, m.network_sends);
    let l = crate::monitor::link_alerts(config.link_rate, tick, m.link_sends);
    let o = crate::monitor::node_alerts(config.node_rate, tick, m.node_sends);
    let alerts = m.rate_alerts(tick);
    assert(alerts =~= n + l + o);
    lemma_link_alerts(config.link_rate, tick, m.link_sends);
    lemma_node_alerts(config.node_rate, tick, m.node_sends);
    assert forall|i: int| 0 <= i < alerts.len() implies {
        &&& i < n.len() ==> #[trigger] alerts[i] == n[i] && alerts[i].subject is Network
        &&& n.len() <= i < n.len() + l.len() ==> alerts[i] == l[i - n.len()]
            && alerts[i].subject is Link
        &&& n.len() + l.len() <= i ==> alerts[i] == o[i - n.len() - l.len()]
            && alerts[i].subject is Node
    } by {
        if n.len() <= i < n.len() + l.len() {
            assert(l.contains(l[i - n.len()]));
        } else if n.len() + l.len() <= i {
            assert(o.contains(o[i - n.len() - l.len()]));
        }
    }
    assert forall|i: int, j: int| 0 <= i < j < alerts.len() implies #[trigger] alerts[i].subject
        != #[trigger] alerts[j].subject by {
        if n.len() <= i && j < n.len() + l.len() {
            assert(l[i - n.len()].subject != l[j - n.len()].subject);
        } else if n.len() + l.len() <= i {
            assert(o[i - n.len() - l.len()].subject != o[j - n.len() - l.len()].subject);
        }
    }
    lemma_raise_all_each(cleared, alerts);
    lemma_raise_all_keeps(cleared, alerts);
    assert forall|a: AlertView| #[trigger] is_held_back(cleared, a) == is_held_back(before, a) by {}
    let na = network_alert(config.network_rate, tick, sent_in_all(sights));
    let la = link_alert(config.link_rate, tick, link, sent_on(sights, link));
    let oa = node_alert(config.node_rate, tick, node, sent_by(sights, node));
    assert(crate::tally::count_of(m.link_sends, link) == sent_on(sights, link));
    assert(crate::tally::count_of(m.node_sends, node) == sent_by(sights, node));
    if let Some(a) = na {
        assert(n[0] == a);
        assert(alerts[0] == a);
        assert(alerts.contains(a));
    }
    if let Some(a) = la {
        assert(l.contains(a));
        let i = choose|i: int| 0 <= i < l.len() && l[i] == a;
        assert(alerts[n.len() + i] == a);
        assert(alerts.contains(a));
    }
    if let Some(a) = oa {
        assert(o.contains(a));
        let i = choose|i: int| 0 <= i < o.len() && o[i] == a;
        assert(alerts[n.len() + l.len() + i] == a);
        assert(alerts.contains(a));
    }
    assert forall|i: int|
        0 <= i < alerts.len() && !is_held_back(cleared, #[trigger] alerts[i]) && (
        alerts[i].check, alerts[i].subject) == (Check::NetworkRate, Subject::Network) implies na
        == Some(alerts[i]) by {}
    assert forall|i: int|
        0 <= i < alerts.len() && !is_held_back(cleared, #[trigger] alerts[i]) && (
        alerts[i].check, alerts[i].subject) == (Check::LinkRate, Subject::Link(link)) implies la
        == Some(alerts[i]) by {
        assert(l.contains(alerts[i])) by {
            assert(l[i - n.len()] == alerts[i]);
        }
    }
    assert forall|i: int|
        0 <= i < alerts.len() && !is_held_back(cleared, #[trigger] alerts[i]) && (
        alerts[i].check, alerts[i].subject) == (Check::NodeRate, Subject::Node(node)) implies oa
        == Some(alerts[i]) by {
        assert(o.contains(alerts[i])) by {
            assert(o[i - n.len() - l.len()] == alerts[i]);
        }
    }
    lemma_settled(cleared, alerts, na, (Check::NetworkRate, Subject::Network));
    lemma_settled(cleared, alerts, la, (Check::LinkRate, Subject::Link(link)));
    lemma_settled(cleared, alerts, oa, (Check::NodeRate, Subject::Node(node)));
    assert(before.ended(tick) == cleared.raise_all(alerts));
}

} // verus!
