//! Watches traffic for the failure shapes that crash hosts: loops, replay storms, amplification
//! and floods. The monitor only observes and reports. The hard limits that stop a storm are the
//! fuse ([`Limits`](crate::logic::Limits)), which reports through
//! [`TickOutcome`](crate::world::TickOutcome) instead.

use std::collections::VecDeque;

use vstd::prelude::*;
use vstd::string::*;

use crate::ids::{LinkId, NodeId};
use crate::link_sets::LinkSets;
use crate::lists::{copied, ordered};
use crate::logic::Relaying;
use crate::network::{ControlNode, Network};
use crate::packet::{Event, Packet};
use crate::route::PacketRoute;
use crate::tally::Tally;
use crate::text::decimal;
use crate::trace::{TraceEvent, TraceLog};

verus! {

/// Which check raised an alert.
#[derive(Debug, Clone, Copy, PartialEq, Eq, Structural, Hash, PartialOrd, Ord)]
#[non_exhaustive]
pub enum Check {
    /// Too many packets per tick across the whole network.
    NetworkRate,
    /// Too many packets per tick on one link.
    LinkRate,
    /// Too many packets per tick from one node.
    NodeRate,
    /// A packet ran out of hops: a loop has happened.
    TtlExpired,
    /// Relaying nodes connect links in a cycle: a loop will happen as soon as something is
    /// broadcast into it. Found from the topology alone, before any traffic.
    RelayCycle,
    /// A node keeps receiving the same packet.
    Replay,
    /// One incoming packet made a node send many.
    Amplification,
    /// A node's logic crashed. Its logic was removed so the rest of the world keeps running.
    LogicPanicked,
}

/// How many checks there are.
pub const CHECKS: usize = 8;

/// The checks in order.
pub open spec fn check_at(i: int) -> Check {
    if i == 0 {
        Check::NetworkRate
    } else if i == 1 {
        Check::LinkRate
    } else if i == 2 {
        Check::NodeRate
    } else if i == 3 {
        Check::TtlExpired
    } else if i == 4 {
        Check::RelayCycle
    } else if i == 5 {
        Check::Replay
    } else if i == 6 {
        Check::Amplification
    } else {
        Check::LogicPanicked
    }
}

impl Check {
    /// Every check, for listing.
    pub const ALL: [Self; 8] = [
        Self::NetworkRate,
        Self::LinkRate,
        Self::NodeRate,
        Self::TtlExpired,
        Self::RelayCycle,
        Self::Replay,
        Self::Amplification,
        Self::LogicPanicked,
    ];

    /// The check's name.
    pub open spec fn text(self) -> Seq<char> {
        match self {
            Check::NetworkRate => "network_rate"@,
            Check::LinkRate => "link_rate"@,
            Check::NodeRate => "node_rate"@,
            Check::TtlExpired => "ttl_expired"@,
            Check::RelayCycle => "relay_cycle"@,
            Check::Replay => "replay"@,
            Check::Amplification => "amplification"@,
            Check::LogicPanicked => "logic_panicked"@,
        }
    }

    /// A stable machine-readable name, such as `"relay_cycle"`.
    pub fn name(self) -> (r: &'static str)
        ensures
            r@ == self.text(),
    {
        match self {
            Check::NetworkRate => "network_rate",
            Check::LinkRate => "link_rate",
            Check::NodeRate => "node_rate",
            Check::TtlExpired => "ttl_expired",
            Check::RelayCycle => "relay_cycle",
            Check::Replay => "replay",
            Check::Amplification => "amplification",
            Check::LogicPanicked => "logic_panicked",
        }
    }
}

/// How bad an alert is.
#[derive(Debug, Clone, Copy, PartialEq, Eq, Structural, Hash, PartialOrd, Ord)]
pub enum Severity {
    /// Getting close to a limit.
    Warning,
    /// Past a limit, or something that is always a bug.
    Error,
}

impl Severity {
    /// Whether this is at least as bad as `other`.
    pub open spec fn covers(self, other: Severity) -> bool {
        self == Severity::Error || other == Severity::Warning
    }

    /// Whether this is at least as bad as `other`.
    pub fn at_least(self, other: Severity) -> (r: bool)
        ensures
            r == self.covers(other),
    {
        self == Severity::Error || other == Severity::Warning
    }

    /// The severity as text.
    pub open spec fn text(self) -> Seq<char> {
        match self {
            Severity::Warning => "Warning"@,
            Severity::Error => "Error"@,
        }
    }
}

/// What an alert is about.
#[derive(Debug, Clone, Copy, PartialEq, Eq, Structural, Hash)]
#[allow(inconsistent_fields)]
pub enum Subject {
    /// The network as a whole.
    Network,
    /// One node.
    Node(NodeId),
    /// One link.
    Link(LinkId),
}

/// What an [`Alert`] holds.
#[verifier::ext_equal]
pub struct AlertView {
    pub tick: u64,
    pub check: Check,
    pub severity: Severity,
    pub subject: Subject,
    pub value: u64,
    pub limit: u64,
    pub message: Seq<char>,
}

/// Something a check noticed.
#[derive(Debug, PartialEq, Eq)]
pub struct Alert {
    /// Tick it was raised on.
    pub tick: u64,
    /// The check that raised it.
    pub check: Check,
    /// How bad it is.
    pub severity: Severity,
    /// What it is about.
    pub subject: Subject,
    /// The measured value, for threshold checks.
    pub value: u64,
    /// The threshold that was crossed, for threshold checks.
    pub limit: u64,
    /// A human-readable explanation.
    pub message: String,
}

impl View for Alert {
    type V = AlertView;

    open spec fn view(&self) -> AlertView {
        AlertView {
            tick: self.tick,
            check: self.check,
            severity: self.severity,
            subject: self.subject,
            value: self.value,
            limit: self.limit,
            message: self.message@,
        }
    }
}

impl Clone for Alert {
    fn clone(&self) -> (r: Self)
        ensures
            r@ == self@,
    {
        Alert {
            tick: self.tick,
            check: self.check,
            severity: self.severity,
            subject: self.subject,
            value: self.value,
            limit: self.limit,
            message: self.message.clone(),
        }
    }
}

impl Alert {
    /// The alert on one line: severity, check and message.
    pub fn to_string(&self) -> (r: String)
        ensures
            r@ == "["@ + self.severity.text() + "] "@ + self.check.text() + ": "@ + self.message@,
    {
        let mut out = "[".to_owned();
        out.append(
            match self.severity {
                Severity::Warning => "Warning",
                Severity::Error => "Error",
            },
        );
        out.append("] ");
        out.append(self.check.name());
        out.append(": ");
        out.append(self.message.as_str());
        out
    }
}

/// The alerts' contents.
pub open spec fn alert_views(alerts: Seq<Alert>) -> Seq<AlertView> {
    alerts.map_values(|a: Alert| a@)
}

/// Warning and error levels for a threshold check. A level of 0 disables it.
#[derive(Debug, Clone, Copy, PartialEq, Eq, Structural)]
pub struct Threshold {
    /// Value at which a warning is raised.
    pub warn: u64,
    /// Value at which an error is raised.
    pub error: u64,
}

impl Threshold {
    /// How bad a value is, with the level it reached; nothing if it reached none.
    pub open spec fn judged(self, value: u64) -> Option<(Severity, u64)> {
        if self.error > 0 && value >= self.error {
            Some((Severity::Error, self.error))
        } else if self.warn > 0 && value >= self.warn {
            Some((Severity::Warning, self.warn))
        } else {
            None
        }
    }

    /// How bad a value is, with the level it reached; nothing if it reached none.
    pub fn severity(self, value: u64) -> (r: Option<(Severity, u64)>)
        ensures
            r == self.judged(value),
    {
        if self.error > 0 && value >= self.error {
            Some((Severity::Error, self.error))
        } else if self.warn > 0 && value >= self.warn {
            Some((Severity::Warning, self.warn))
        } else {
            None
        }
    }
}

/// Monitor settings. The defaults suit the sandbox.
#[derive(Debug, Clone, Copy, PartialEq, Eq, Structural)]
pub struct MonitorConfig {
    /// Packets per tick across the network.
    pub network_rate: Threshold,
    /// Packets per tick on one link.
    pub link_rate: Threshold,
    /// Packets per tick sent by one node.
    pub node_rate: Threshold,
    /// Identical packets received by one node within [`replay_window`](Self::replay_window).
    pub replay: Threshold,
    /// Ticks the replay check looks back over.
    pub replay_window: u64,
    /// Packets one node sent while handling a single incoming packet.
    pub amplification: Threshold,
    /// Ticks before the same alert (check and subject) can be raised again at the same severity.
    pub cooldown: u64,
}

impl MonitorConfig {
    /// The settings a monitor starts with.
    pub open spec fn standard() -> MonitorConfig {
        MonitorConfig {
            network_rate: Threshold { warn: 2_000, error: 4_000 },
            link_rate: Threshold { warn: 500, error: 2_000 },
            node_rate: Threshold { warn: 50, error: 200 },
            replay: Threshold { warn: 8, error: 24 },
            replay_window: 32,
            amplification: Threshold { warn: 10, error: 40 },
            cooldown: 100,
        }
    }
}

impl Default for MonitorConfig {
    fn default() -> (r: Self)
        ensures
            r == Self::standard(),
    {
        MonitorConfig {
            network_rate: Threshold { warn: 2_000, error: 4_000 },
            link_rate: Threshold { warn: 500, error: 2_000 },
            node_rate: Threshold { warn: 50, error: 200 },
            replay: Threshold { warn: 8, error: 24 },
            replay_window: 32,
            amplification: Threshold { warn: 10, error: 40 },
            cooldown: 100,
        }
    }
}

/// Most distinct packets the replay check remembers before it starts over, so a storm of
/// unique packets cannot use unbounded memory.
pub const REPLAY_MEMORY: usize = 50_000;

/// What makes two deliveries the same to the replay check.
#[verifier::ext_equal]
pub struct ReplayKey {
    pub receiver: NodeId,
    pub from: Seq<crate::route::HopView>,
    pub to: Seq<crate::route::HopView>,
    pub event: crate::packet::EventView,
}

/// What a [`Monitor`] holds.
#[verifier::ext_equal]
pub struct MonitorView {
    pub config: MonitorConfig,
    pub link_sends: Seq<(LinkId, u64)>,
    pub node_sends: Seq<(NodeId, u64)>,
    pub network_sends: u64,
    pub replay: Map<ReplayKey, Seq<u64>>,
    pub fired: Map<(Check, Subject), (u64, Severity)>,
    pub latest: Map<Check, AlertView>,
    pub alerts_raised: u64,
}

/// A monitor and the log it reports to.
#[verifier::ext_equal]
pub struct Watch {
    pub monitor: MonitorView,
    pub log: crate::trace::LogView,
}

/// How long ago `then` was at `now`; not at all if it is still to come.
pub open spec fn elapsed(now: u64, then: u64) -> u64 {
    if now >= then {
        (now - then) as u64
    } else {
        0
    }
}

/// The ticks left of `seen` once those as old as the window are dropped from the front.
pub open spec fn in_window(seen: Seq<u64>, now: u64, window: u64) -> Seq<u64>
    decreases seen.len(),
{
    if seen.len() == 0 || elapsed(now, seen[0]) < window {
        seen
    } else {
        in_window(seen.drop_first(), now, window)
    }
}

/// The alerts, which are in order of their ticks, with `a` put after all that are not later.
pub open spec fn slotted(s: Seq<AlertView>, a: AlertView) -> Seq<AlertView>
    decreases s.len(),
{
    if s.len() == 0 || s.last().tick <= a.tick {
        s.push(a)
    } else {
        slotted(s.drop_last(), a).push(s.last())
    }
}

/// The latest alerts of the first `n` checks that were raised since `since`, oldest first.
pub open spec fn recent(latest: Map<Check, AlertView>, since: u64, n: nat) -> Seq<AlertView>
    decreases n,
{
    if n == 0 {
        Seq::empty()
    } else {
        let rest = recent(latest, since, (n - 1) as nat);
        let c = check_at(n - 1);
        if latest.contains_key(c) && latest[c].tick >= since {
            slotted(rest, latest[c])
        } else {
            rest
        }
    }
}

impl MonitorView {
    /// A monitor that has seen nothing.
    pub open spec fn fresh(config: MonitorConfig) -> MonitorView {
        MonitorView {
            config,
            link_sends: Seq::empty(),
            node_sends: Seq::empty(),
            network_sends: 0,
            replay: Map::empty(),
            fired: Map::empty(),
            latest: Map::empty(),
            alerts_raised: 0,
        }
    }

    /// Whether the same alert was raised recently at the same or higher severity.
    pub open spec fn suppresses(self, a: AlertView) -> bool {
        let key = (a.check, a.subject);
        &&& self.fired.contains_key(key)
        &&& self.fired[key].1.covers(a.severity)
        &&& elapsed(a.tick, self.fired[key].0) < self.config.cooldown
    }

    /// The latest alert from each check raised since `since`, oldest first.
    pub open spec fn recent_alerts(self, since: u64) -> Seq<AlertView> {
        recent(self.latest, since, CHECKS as nat)
    }

    /// One more packet was put on `link` by `sender`.
    pub open spec fn transmitted(self, sender: NodeId, link: LinkId) -> MonitorView {
        MonitorView {
            network_sends: crate::trace::bump(self.network_sends),
            link_sends: crate::tally::counted(self.link_sends, link),
            node_sends: crate::tally::counted(self.node_sends, sender),
            ..self
        }
    }

    /// The alerts that the traffic counted so far calls for: for the network, for each link and
    /// for each node.
    pub open spec fn rate_alerts(self, tick: u64) -> Seq<AlertView> {
        network_alerts(self.config.network_rate, tick, self.network_sends) + link_alerts(
            self.config.link_rate,
            tick,
            self.link_sends,
        ) + node_alerts(self.config.node_rate, tick, self.node_sends)
    }
}

/// The alert that the network's traffic calls for, if it does.
pub open spec fn network_alerts(t: Threshold, tick: u64, n: u64) -> Seq<AlertView> {
    match t.judged(n) {
        Some((severity, limit)) => seq![
            AlertView {
                tick,
                check: Check::NetworkRate,
                severity,
                subject: Subject::Network,
                value: n,
                limit,
                message: crate::text::decimal_text(n as nat) + " packets this tick"@,
            },
        ],
        None => Seq::empty(),
    }
}

/// The alerts that the links' traffic calls for.
pub open spec fn link_alerts(t: Threshold, tick: u64, counts: Seq<(LinkId, u64)>) -> Seq<AlertView>
    decreases counts.len(),
{
    if counts.len() == 0 {
        Seq::empty()
    } else {
        let rest = link_alerts(t, tick, counts.drop_last());
        let (link, n) = counts.last();
        match t.judged(n) {
            Some((severity, limit)) => rest.push(
                AlertView {
                    tick,
                    check: Check::LinkRate,
                    severity,
                    subject: Subject::Link(link),
                    value: n,
                    limit,
                    message: crate::text::decimal_text(n as nat)
                        + " packets on this link this tick"@,
                },
            ),
            None => rest,
        }
    }
}

/// The alerts that the nodes' traffic calls for.
pub open spec fn node_alerts(t: Threshold, tick: u64, counts: Seq<(NodeId, u64)>) -> Seq<AlertView>
    decreases counts.len(),
{
    if counts.len() == 0 {
        Seq::empty()
    } else {
        let rest = node_alerts(t, tick, counts.drop_last());
        let (node, n) = counts.last();
        match t.judged(n) {
            Some((severity, limit)) => rest.push(
                AlertView {
                    tick,
                    check: Check::NodeRate,
                    severity,
                    subject: Subject::Node(node),
                    value: n,
                    limit,
                    message: "sent "@ + crate::text::decimal_text(n as nat)
                        + " packets this tick"@,
                },
            ),
            None => rest,
        }
    }
}

impl Watch {
    /// An alert was raised: recorded, and the latest one of its check, unless the same one was
    /// raised recently at the same or higher severity.
    pub open spec fn raise(self, a: AlertView) -> Watch {
        if self.monitor.suppresses(a) {
            self
        } else {
            Watch {
                monitor: MonitorView {
                    fired: self.monitor.fired.insert((a.check, a.subject), (a.tick, a.severity)),
                    alerts_raised: crate::trace::bump(self.monitor.alerts_raised),
                    latest: self.monitor.latest.insert(a.check, a),
                    ..self.monitor
                },
                log: self.log.push(crate::trace::TraceView::Alert(a)),
            }
        }
    }

    /// Several alerts were raised, one after the other.
    pub open spec fn raise_all(self, alerts: Seq<AlertView>) -> Watch
        decreases alerts.len(),
    {
        if alerts.len() == 0 {
            self
        } else {
            self.raise_all(alerts.drop_last()).raise(alerts.last())
        }
    }

    /// A logic crashed.
    pub open spec fn logic_panicked(self, tick: u64, node: NodeId, message: Seq<char>) -> Watch {
        self.raise(
            AlertView {
                tick,
                check: Check::LogicPanicked,
                severity: Severity::Error,
                subject: Subject::Node(node),
                value: 0,
                limit: 0,
                message,
            },
        )
    }

    /// `receiver` got a copy of a packet.
    pub open spec fn delivered(
        self,
        tick: u64,
        receiver: NodeId,
        packet: crate::packet::PacketView,
    ) -> Watch {
        let t = self.monitor.config.replay;
        let window = self.monitor.config.replay_window;
        let key = ReplayKey { receiver, from: packet.from, to: packet.to, event: packet.event };
        let known = if self.monitor.replay.len() >= REPLAY_MEMORY
            && !self.monitor.replay.contains_key(key) {
            Map::empty()
        } else {
            self.monitor.replay
        };
        let before = if known.contains_key(key) {
            known[key]
        } else {
            Seq::empty()
        };
        let seen = in_window(before.push(tick), tick, window);
        let next = Watch {
            monitor: MonitorView { replay: known.insert(key, seen), ..self.monitor },
            ..self
        };
        if t.warn == 0 && t.error == 0 {
            self
        } else {
            match t.judged(seen.len() as u64) {
                Some((severity, limit)) => next.raise(
                    AlertView {
                        tick,
                        check: Check::Replay,
                        severity,
                        subject: Subject::Node(receiver),
                        value: seen.len() as u64,
                        limit,
                        message: "received the same "@ + packet.event.kind + " packet "@
                            + crate::text::decimal_text(seen.len()) + " times in "@
                            + crate::text::decimal_text(window as nat) + " ticks"@,
                    },
                ),
                None => next,
            }
        }
    }

    /// `node` sent `sends` packets while handling one.
    pub open spec fn handled(self, tick: u64, node: NodeId, sends: u64) -> Watch {
        match self.monitor.config.amplification.judged(sends) {
            Some((severity, limit)) => self.raise(
                AlertView {
                    tick,
                    check: Check::Amplification,
                    severity,
                    subject: Subject::Node(node),
                    value: sends,
                    limit,
                    message: "one incoming packet made it send "@ + crate::text::decimal_text(
                        sends as nat,
                    ),
                },
            ),
            None => self,
        }
    }

    /// A packet ran out of hops at `node`.
    pub open spec fn ttl_expired(self, tick: u64, node: NodeId) -> Watch {
        self.raise(
            AlertView {
                tick,
                check: Check::TtlExpired,
                severity: Severity::Error,
                subject: Subject::Node(node),
                value: 0,
                limit: 0,
                message: "a packet ran out of hops here: there is a loop"@,
            },
        )
    }

    /// A tick ended: the counters are judged and start over.
    pub open spec fn ended(self, tick: u64) -> Watch {
        Watch {
            monitor: MonitorView {
                link_sends: Seq::empty(),
                node_sends: Seq::empty(),
                network_sends: 0,
                ..self.monitor
            },
            ..self
        }.raise_all(self.monitor.rate_alerts(tick))
    }
}

/// Raising more alerts is raising them after the others.
pub proof fn lemma_raise_all(w: Watch, a: Seq<AlertView>, b: Seq<AlertView>)
    ensures
        w.raise_all(a).raise_all(b) == w.raise_all(a + b),
    decreases b.len(),
{
    if b.len() == 0 {
        assert(a + b =~= a);
    } else {
        lemma_raise_all(w, a, b.drop_last());
        assert((a + b).drop_last() =~= a + b.drop_last());
        assert((a + b).last() == b.last());
    }
}

/// One more alert at the end is raised last.
proof fn lemma_raise_one_more(w: Watch, a: Seq<AlertView>, x: AlertView)
    ensures
        w.raise_all(a.push(x)) == w.raise_all(a).raise(x),
{
    assert(a.push(x).drop_last() =~= a);
    assert(a.push(x).last() == x);
}

/// The pairs that a gateway connects: each of its internal links with each external one.
pub open spec fn crossings(inside: Seq<LinkId>, outside: Seq<LinkId>) -> Seq<(LinkId, LinkId)>
    decreases inside.len(),
{
    if inside.len() == 0 {
        Seq::empty()
    } else {
        crossings(inside.drop_last(), outside) + outside.map_values(
            |o: LinkId| (inside.last(), o),
        )
    }
}

/// The pairs of links that gateways connect.
pub open spec fn routed_joints(
    network: crate::graph::NetView,
    modes: Seq<(NodeId, Relaying)>,
) -> Seq<(LinkId, LinkId)>
    decreases modes.len(),
{
    if modes.len() == 0 {
        Seq::empty()
    } else {
        let rest = routed_joints(network, modes.drop_last());
        let (node, mode) = modes.last();
        if network.nodes.contains_key(node) && mode == Relaying::Routed {
            rest + crossings(
                network.nodes[node].internal_links,
                network.nodes[node].subscriptions,
            )
        } else {
            rest
        }
    }
}

/// The pairs that a flooding node connects: each of the links it is on with the next.
pub open spec fn chain(links: Seq<LinkId>) -> Seq<(LinkId, LinkId)>
    decreases links.len(),
{
    if links.len() < 2 {
        Seq::empty()
    } else {
        chain(links.drop_last()).push((links[links.len() - 2], links.last()))
    }
}

/// The pairs of links that flooding nodes connect.
pub open spec fn flooding_joints(
    network: crate::graph::NetView,
    modes: Seq<(NodeId, Relaying)>,
) -> Seq<(LinkId, LinkId)>
    decreases modes.len(),
{
    if modes.len() == 0 {
        Seq::empty()
    } else {
        let rest = flooding_joints(network, modes.drop_last());
        let (node, mode) = modes.last();
        if network.nodes.contains_key(node) && mode == Relaying::Flooding {
            rest + chain(links_of(network.nodes[node]))
        } else {
            rest
        }
    }
}

/// Whether the `i`th flooding joint is part of a loop: the links that it connects are linked by the
/// other joints too, those of gateways among them.
pub open spec fn is_in_loop(
    routed: Seq<(LinkId, LinkId)>,
    flooding: Seq<(LinkId, LinkId)>,
    i: int,
) -> bool {
    0 <= i < flooding.len() && crate::link_sets::linked(
        routed + flooding.remove(i),
        flooding[i].0,
        flooding[i].1,
    )
}

/// A link's name in an alert.
pub open spec fn shown_name(network: crate::graph::NetView, link: LinkId) -> Seq<char> {
    if network.links.contains_key(link) {
        network.links[link].name
    } else {
        "?"@
    }
}

/// The alert for a flooding node that connects two links which are connected already.
pub open spec fn cycle_alert(
    network: crate::graph::NetView,
    tick: u64,
    node: NodeId,
    a: LinkId,
    b: LinkId,
) -> AlertView {
    AlertView {
        tick,
        check: Check::RelayCycle,
        severity: Severity::Error,
        subject: Subject::Node(node),
        value: 0,
        limit: 0,
        message: network.nodes[node].name + " closes a relay loop between "@ + shown_name(
            network,
            a,
        ) + " and "@ + shown_name(network, b),
    }
}

/// The links connected so far, and the cycles found.
#[verifier::ext_equal]
pub struct Survey {
    pub joints: Seq<(LinkId, LinkId)>,
    pub alerts: Seq<AlertView>,
}

impl Survey {
    /// A flooding node connects two links: a cycle, if they are connected already.
    pub open spec fn bridged(
        self,
        network: crate::graph::NetView,
        tick: u64,
        node: NodeId,
        a: LinkId,
        b: LinkId,
    ) -> Survey {
        if crate::link_sets::linked(self.joints, a, b) {
            Survey { alerts: self.alerts.push(cycle_alert(network, tick, node, a, b)), ..self }
        } else {
            Survey { joints: self.joints.push((a, b)), ..self }
        }
    }

    /// A flooding node connects all of the links, each with the next.
    pub open spec fn flooded(
        self,
        network: crate::graph::NetView,
        tick: u64,
        node: NodeId,
        links: Seq<LinkId>,
    ) -> Survey
        decreases links.len(),
    {
        if links.len() < 2 {
            self
        } else {
            self.flooded(network, tick, node, links.drop_last()).bridged(
                network,
                tick,
                node,
                links[links.len() - 2],
                links.last(),
            )
        }
    }

    /// Each flooding node connects all the links it is on, in the links' order.
    pub open spec fn surveyed(
        self,
        network: crate::graph::NetView,
        tick: u64,
        modes: Seq<(NodeId, Relaying)>,
    ) -> Survey
        decreases modes.len(),
    {
        if modes.len() == 0 {
            self
        } else {
            let rest = self.surveyed(network, tick, modes.drop_last());
            let (node, mode) = modes.last();
            if network.nodes.contains_key(node) && mode == Relaying::Flooding {
                rest.flooded(network, tick, node, links_of(network.nodes[node]))
            } else {
                rest
            }
        }
    }
}

/// The links a node is on, in order, each once.
pub open spec fn links_of(node: crate::graph::NodeView) -> Seq<LinkId> {
    crate::lists::in_order(node.subscriptions + node.internal_links)
}

/// The relay cycles in a network whose nodes relay as `modes` says. A cycle only loops endlessly
/// if a flooding relay (a bridge) is part of it: gateways follow routes, which are bounded. So
/// routed connections are made first without reporting, then every flooding connection that
/// closes a cycle is reported.
pub open spec fn cycles(
    network: crate::graph::NetView,
    tick: u64,
    modes: Seq<(NodeId, Relaying)>,
) -> Seq<AlertView> {
    Survey { joints: routed_joints(network, modes), alerts: Seq::empty() }.surveyed(
        network,
        tick,
        modes,
    ).alerts
}

/// A packet that the replay check remembers, with the ticks it was received on.
#[derive(Debug)]
struct Remembered {
    receiver: NodeId,
    from: PacketRoute,
    to: PacketRoute,
    event: Event,
    seen: VecDeque<u64>,
}

impl Remembered {
    spec fn entry(self) -> (ReplayKey, Seq<u64>) {
        (
            ReplayKey {
                receiver: self.receiver,
                from: self.from@,
                to: self.to@,
                event: self.event@,
            },
            self.seen@,
        )
    }

    fn is(&self, receiver: NodeId, packet: &Packet) -> (r: bool)
        ensures
            r == (self.entry().0 == (ReplayKey {
                receiver,
                from: packet@.from,
                to: packet@.to,
                event: packet@.event,
            })),
    {
        self.receiver == receiver && self.event.same_as(packet.event()) && self.from.same_as(
            packet.from(),
        ) && self.to.same_as(packet.to())
    }
}

spec fn replay_entries(s: Seq<Remembered>) -> Seq<(ReplayKey, Seq<u64>)> {
    s.map_values(|e: Remembered| e.entry())
}

spec fn latest_entries(s: Seq<(Check, Alert)>) -> Seq<(Check, AlertView)> {
    s.map_values(|e: (Check, Alert)| (e.0, e.1@))
}

/// The monitor's state. Owned by [`World`](crate::world::World).
#[derive(Debug)]
pub struct Monitor {
    pub(crate) config: MonitorConfig,
    link_sends: Tally<LinkId>,
    node_sends: Tally<NodeId>,
    network_sends: u64,
    replay: Vec<Remembered>,
    fired: Vec<((Check, Subject), (u64, Severity))>,
    /// The latest alert from each check, for explaining a tripped fuse.
    latest: Vec<(Check, Alert)>,
    pub(crate) alerts_raised: u64,
}

impl View for Monitor {
    type V = MonitorView;

    closed spec fn view(&self) -> MonitorView {
        MonitorView {
            config: self.config,
            link_sends: self.link_sends@,
            node_sends: self.node_sends@,
            network_sends: self.network_sends,
            replay: crate::assoc::as_map(replay_entries(self.replay@)),
            fired: crate::assoc::as_map(self.fired@),
            latest: crate::assoc::as_map(latest_entries(self.latest@)),
            alerts_raised: self.alerts_raised,
        }
    }
}

impl Monitor {
    /// Each packet is remembered once, each alert fired once, and each check has one latest alert.
    pub closed spec fn inv(self) -> bool {
        &&& crate::assoc::distinct_keys(replay_entries(self.replay@))
        &&& crate::assoc::distinct_keys(self.fired@)
        &&& crate::assoc::distinct_keys(latest_entries(self.latest@))
    }

    /// A monitor that has seen nothing.
    pub fn new(config: MonitorConfig) -> (r: Self)
        ensures
            r.inv(),
            r@ == MonitorView::fresh(config),
    {
        let r = Monitor {
            config,
            link_sends: Tally::new(),
            node_sends: Tally::new(),
            network_sends: 0,
            replay: Vec::new(),
            fired: Vec::new(),
            latest: Vec::new(),
            alerts_raised: 0,
        };
        assert(r@.replay == Map::<ReplayKey, Seq<u64>>::empty());
        assert(r@.latest == Map::<Check, AlertView>::empty());
        r
    }

    /// The settings.
    pub fn config(&self) -> (r: &MonitorConfig)
        ensures
            *r == self@.config,
    {
        &self.config
    }

    /// Changes the settings.
    pub fn set_config(&mut self, config: MonitorConfig)
        requires
            old(self).inv(),
        ensures
            final(self).inv(),
            final(self)@ == (MonitorView { config, ..old(self)@ }),
    {
        self.config = config;
    }

    /// How many alerts were raised.
    pub fn alerts_raised(&self) -> (r: u64)
        ensures
            r == self@.alerts_raised,
    {
        self.alerts_raised
    }

    /// Where the alert was fired before, if it was.
    fn fired_at(&self, check: Check, subject: Subject) -> (r: Option<usize>)
        requires
            self.inv(),
        ensures
            match r {
                Some(i) => i < self.fired@.len() && self.fired@[i as int].0 == (check, subject)
                    && self@.fired.contains_key((check, subject)) && self@.fired[(check, subject)]
                    == self.fired@[i as int].1,
                None => !self@.fired.contains_key((check, subject)) && forall|j: int|
                    0 <= j < self.fired@.len() ==> (#[trigger] self.fired@[j]).0 != (
                        check,
                        subject,
                    ),
            },
    {
        let mut i: usize = 0;
        while i < self.fired.len()
            invariant
                i <= self.fired.len(),
                self.inv(),
                forall|j: int| 0 <= j < i ==> (#[trigger] self.fired@[j]).0 != (check, subject),
            decreases self.fired.len() - i,
        {
            let (c, s) = self.fired[i].0;
            if c == check && s == subject {
                proof {
                    crate::assoc::lemma_as_map(self.fired@);
                }
                return Some(i);
            }
            i += 1;
        }
        proof {
            crate::assoc::lemma_as_map(self.fired@);
        }
        None
    }

    /// Where the latest alert of the check is, if it has one.
    fn latest_at(&self, check: Check) -> (r: Option<usize>)
        requires
            self.inv(),
        ensures
            match r {
                Some(i) => i < self.latest@.len() && self.latest@[i as int].0 == check
                    && self@.latest.contains_key(check) && self@.latest[check]
                    == self.latest@[i as int].1@,
                None => !self@.latest.contains_key(check) && forall|j: int|
                    0 <= j < self.latest@.len() ==> (#[trigger] self.latest@[j]).0 != check,
            },
    {
        let ghost entries = latest_entries(self.latest@);
        let mut i: usize = 0;
        while i < self.latest.len()
            invariant
                i <= self.latest.len(),
                self.inv(),
                entries == latest_entries(self.latest@),
                forall|j: int| 0 <= j < i ==> (#[trigger] self.latest@[j]).0 != check,
            decreases self.latest.len() - i,
        {
            if self.latest[i].0 == check {
                proof {
                    crate::assoc::lemma_as_map(entries);
                    assert(entries[i as int].0 == check);
                }
                return Some(i);
            }
            i += 1;
        }
        proof {
            crate::assoc::lemma_as_map(entries);
            if self@.latest.contains_key(check) {
                let j = choose|j: int| 0 <= j < entries.len() && (#[trigger] entries[j]).0 == check;
                assert(self.latest@[j].0 == check);
            }
        }
        None
    }

    /// Records an alert unless the same one was raised recently at the same or higher severity.
    pub fn raise(&mut self, trace: &mut TraceLog, alert: Alert)
        requires
            old(self).inv(),
        ensures
            final(self).inv(),
            (Watch { monitor: final(self)@, log: final(trace)@ }) == (Watch {
                monitor: old(self)@,
                log: old(trace)@,
            }).raise(alert@),
    {
        let ghost a = alert@;
        let at = self.fired_at(alert.check, alert.subject);
        if let Some(i) = at {
            let (tick, severity) = self.fired[i].1;
            if severity.at_least(alert.severity) && alert.tick.saturating_sub(tick)
                < self.config.cooldown {
                return;
            }
        }
        let ghost fired = self.fired@;
        match at {
            Some(i) => {
                let key = self.fired[i].0;
                self.fired.set(i, (key, (alert.tick, alert.severity)));
                proof {
                    crate::assoc::lemma_as_map_update(fired, i as int, (a.tick, a.severity));
                }
            },
            None => {
                self.fired.push(((alert.check, alert.subject), (alert.tick, alert.severity)));
                proof {
                    crate::assoc::lemma_as_map_push(
                        fired,
                        (a.check, a.subject),
                        (a.tick, a.severity),
                    );
                }
            },
        }
        self.alerts_raised = self.alerts_raised.saturating_add(1);
        let ghost latest = self.latest@;
        let ghost entries = latest_entries(latest);
        match self.latest_at(alert.check) {
            Some(i) => {
                self.latest.set(i, (alert.check, alert.clone()));
                proof {
                    crate::assoc::lemma_as_map_update(entries, i as int, a);
                    assert(latest_entries(self.latest@) =~= entries.update(
                        i as int,
                        (entries[i as int].0, a),
                    ));
                }
            },
            None => {
                self.latest.push((alert.check, alert.clone()));
                proof {
                    assert forall|j: int| 0 <= j < entries.len() implies (#[trigger] entries[j]).0
                        != a.check by {
                        assert(latest[j].0 != a.check);
                    }
                    crate::assoc::lemma_as_map_push(entries, a.check, a);
                    assert(latest_entries(self.latest@) =~= entries.push((a.check, a)));
                }
            },
        }
        trace.push(TraceEvent::Alert(alert));
    }

    /// The latest alert from each check raised since `since`, oldest first, so the earliest
    /// (usually the root cause) leads.
    pub fn recent_alerts(&self, since: u64) -> (r: Vec<Alert>)
        requires
            self.inv(),
        ensures
            alert_views(r@) == self@.recent_alerts(since),
    {
        let mut out: Vec<Alert> = Vec::new();
        let mut i: usize = 0;
        assert(alert_views(out@) =~= recent(self@.latest, since, 0));
        while i < CHECKS
            invariant
                i <= CHECKS,
                self.inv(),
                alert_views(out@) == recent(self@.latest, since, i as nat),
            decreases CHECKS - i,
        {
            if let Some(at) = self.latest_at(nth_check(i)) {
                if self.latest[at].1.tick >= since {
                    slot_in(&mut out, self.latest[at].1.clone());
                }
            }
            i += 1;
        }
        out
    }

    /// The nodes that sent the most this tick, busiest first.
    pub fn top_senders(&self, n: usize) -> (r: Vec<(NodeId, u64)>)
        ensures
            r@ == crate::tally::top(self@.node_sends, n as nat),
    {
        self.node_sends.highest(n)
    }

    /// The links that carried the most this tick, busiest first.
    pub fn top_links(&self, n: usize) -> (r: Vec<(LinkId, u64)>)
        ensures
            r@ == crate::tally::top(self@.link_sends, n as nat),
    {
        self.link_sends.highest(n)
    }

    /// A logic crashed.
    pub fn on_logic_panicked(
        &mut self,
        trace: &mut TraceLog,
        tick: u64,
        node: NodeId,
        message: String,
    )
        requires
            old(self).inv(),
        ensures
            final(self).inv(),
            (Watch { monitor: final(self)@, log: final(trace)@ }) == (Watch {
                monitor: old(self)@,
                log: old(trace)@,
            }).logic_panicked(tick, node, message@),
    {
        self.raise(
            trace,
            Alert {
                tick,
                check: Check::LogicPanicked,
                severity: Severity::Error,
                subject: Subject::Node(node),
                value: 0,
                limit: 0,
                message,
            },
        );
    }

    /// Counts a packet that `sender` put on `link`.
    pub fn on_transmit(&mut self, sender: NodeId, link: LinkId)
        requires
            old(self).inv(),
        ensures
            final(self).inv(),
            final(self)@ == old(self)@.transmitted(sender, link),
    {
        self.network_sends = self.network_sends.saturating_add(1);
        self.link_sends.count(link);
        self.node_sends.count(sender);
    }

    /// Notes that `node` sent `sends` packets while handling one.
    pub fn on_handled(&mut self, trace: &mut TraceLog, tick: u64, node: NodeId, sends: u64)
        requires
            old(self).inv(),
        ensures
            final(self).inv(),
            (Watch { monitor: final(self)@, log: final(trace)@ }) == (Watch {
                monitor: old(self)@,
                log: old(trace)@,
            }).handled(tick, node, sends),
    {
        if let Some((severity, limit)) = self.config.amplification.severity(sends) {
            let mut message = "one incoming packet made it send ".to_owned();
            message.append(decimal(sends).as_str());
            self.raise(
                trace,
                Alert {
                    tick,
                    check: Check::Amplification,
                    severity,
                    subject: Subject::Node(node),
                    value: sends,
                    limit,
                    message,
                },
            );
        }
    }

    /// Notes that a packet ran out of hops at `node`.
    pub fn on_ttl_expired(&mut self, trace: &mut TraceLog, tick: u64, node: NodeId)
        requires
            old(self).inv(),
        ensures
            final(self).inv(),
            (Watch { monitor: final(self)@, log: final(trace)@ }) == (Watch {
                monitor: old(self)@,
                log: old(trace)@,
            }).ttl_expired(tick, node),
    {
        self.raise(
            trace,
            Alert {
                tick,
                check: Check::TtlExpired,
                severity: Severity::Error,
                subject: Subject::Node(node),
                value: 0,
                limit: 0,
                message: "a packet ran out of hops here: there is a loop".to_owned(),
            },
        );
    }
}

impl Monitor {
    /// Where the packet is remembered, if it is.
    fn remembered_at(&self, receiver: NodeId, packet: &Packet) -> (r: Option<usize>)
        requires
            self.inv(),
        ensures
            ({
                let key = ReplayKey {
                    receiver,
                    from: packet@.from,
                    to: packet@.to,
                    event: packet@.event,
                };
                match r {
                    Some(i) => i < self.replay@.len() && self.replay@[i as int].entry().0 == key
                        && self@.replay.contains_key(key) && self@.replay[key]
                        == self.replay@[i as int].seen@,
                    None => !self@.replay.contains_key(key) && forall|j: int|
                        0 <= j < self.replay@.len() ==> (#[trigger] self.replay@[j]).entry().0
                            != key,
                }
            }),
            self@.replay.len() == self.replay@.len(),
    {
        let ghost entries = replay_entries(self.replay@);
        let ghost key = ReplayKey {
            receiver,
            from: packet@.from,
            to: packet@.to,
            event: packet@.event,
        };
        let mut i: usize = 0;
        while i < self.replay.len()
            invariant
                i <= self.replay.len(),
                self.inv(),
                entries == replay_entries(self.replay@),
                key == (ReplayKey {
                    receiver,
                    from: packet@.from,
                    to: packet@.to,
                    event: packet@.event,
                }),
                forall|j: int| 0 <= j < i ==> (#[trigger] self.replay@[j]).entry().0 != key,
            decreases self.replay.len() - i,
        {
            if self.replay[i].is(receiver, packet) {
                proof {
                    crate::assoc::lemma_as_map(entries);
                    assert(entries[i as int].0 == key);
                }
                return Some(i);
            }
            i += 1;
        }
        proof {
            crate::assoc::lemma_as_map(entries);
            if self@.replay.contains_key(key) {
                let j = choose|j: int| 0 <= j < entries.len() && (#[trigger] entries[j]).0 == key;
                assert(self.replay@[j].entry().0 == key);
            }
        }
        None
    }

    /// Remembers that `receiver` got the packet now, and counts how often it did within the
    /// replay window.
    fn remember(&mut self, tick: u64, receiver: NodeId, packet: &Packet) -> (r: usize)
        requires
            old(self).inv(),
        ensures
            final(self).inv(),
            ({
                let key = ReplayKey {
                    receiver,
                    from: packet@.from,
                    to: packet@.to,
                    event: packet@.event,
                };
                let known = if old(self)@.replay.len() >= REPLAY_MEMORY && !old(
                    self,
                )@.replay.contains_key(key) {
                    Map::empty()
                } else {
                    old(self)@.replay
                };
                let before = if known.contains_key(key) {
                    known[key]
                } else {
                    Seq::empty()
                };
                let seen = in_window(before.push(tick), tick, old(self)@.config.replay_window);
                &&& final(self)@ == (MonitorView {
                    replay: known.insert(key, seen),
                    ..old(self)@
                })
                &&& r == seen.len()
            }),
    {
        let ghost key = ReplayKey {
            receiver,
            from: packet@.from,
            to: packet@.to,
            event: packet@.event,
        };
        match self.remembered_at(receiver, packet) {
            Some(i) => {
                let ghost entries = replay_entries(self.replay@);
                let window = self.config.replay_window;
                let mut seen: VecDeque<u64> = VecDeque::new();
                core::mem::swap(&mut seen, &mut self.replay[i].seen);
                seen.push_back(tick);
                forget_old(&mut seen, tick, window);
                let count = seen.len();
                let ghost kept = seen@;
                core::mem::swap(&mut seen, &mut self.replay[i].seen);
                proof {
                    crate::assoc::lemma_as_map_update(entries, i as int, kept);
                    assert(replay_entries(self.replay@) =~= entries.update(
                        i as int,
                        (entries[i as int].0, kept),
                    ));
                }
                count
            },
            None => {
                if self.replay.len() >= REPLAY_MEMORY {
                    self.replay.clear();
                    proof {
                        assert(replay_entries(self.replay@) =~= Seq::<(
                            ReplayKey,
                            Seq<u64>,
                        )>::empty());
                    }
                }
                let ghost entries = replay_entries(self.replay@);
                let mut seen: VecDeque<u64> = VecDeque::new();
                seen.push_back(tick);
                forget_old(&mut seen, tick, self.config.replay_window);
                let count = seen.len();
                let ghost kept = seen@;
                self.replay.push(
                    Remembered {
                        receiver,
                        from: packet.from().clone(),
                        to: packet.to().clone(),
                        event: packet.event().clone(),
                        seen,
                    },
                );
                proof {
                    assert forall|j: int| 0 <= j < entries.len() implies (#[trigger] entries[j]).0
                        != key by {
                        assert(old(self).replay@[j].entry().0 != key);
                    }
                    crate::assoc::lemma_as_map_push(entries, key, kept);
                    assert(replay_entries(self.replay@) =~= entries.push((key, kept)));
                }
                count
            },
        }
    }

    /// Notes that `receiver` got a copy of a packet.
    pub fn on_delivered(
        &mut self,
        trace: &mut TraceLog,
        tick: u64,
        receiver: NodeId,
        packet: &Packet,
    )
        requires
            old(self).inv(),
        ensures
            final(self).inv(),
            (Watch { monitor: final(self)@, log: final(trace)@ }) == (Watch {
                monitor: old(self)@,
                log: old(trace)@,
            }).delivered(tick, receiver, packet@),
    {
        let t = self.config.replay;
        if t.warn == 0 && t.error == 0 {
            return;
        }
        let count = self.remember(tick, receiver, packet);
        if let Some((severity, limit)) = t.severity(count as u64) {
            let mut message = "received the same ".to_owned();
            message.append(packet.event().kind.as_str());
            message.append(" packet ");
            message.append(decimal(count as u64).as_str());
            message.append(" times in ");
            message.append(decimal(self.config.replay_window).as_str());
            message.append(" ticks");
            self.raise(
                trace,
                Alert {
                    tick,
                    check: Check::Replay,
                    severity,
                    subject: Subject::Node(receiver),
                    value: count as u64,
                    limit,
                    message,
                },
            );
        }
    }

    /// Rate checks for the tick that just ended; resets the per-tick counters.
    pub fn end_tick(&mut self, trace: &mut TraceLog, tick: u64)
        requires
            old(self).inv(),
        ensures
            final(self).inv(),
            (Watch { monitor: final(self)@, log: final(trace)@ }) == (Watch {
                monitor: old(self)@,
                log: old(trace)@,
            }).ended(tick),
    {
        let network = self.network_sends;
        let mut links: Tally<LinkId> = Tally::new();
        let mut nodes: Tally<NodeId> = Tally::new();
        self.network_sends = 0;
        core::mem::swap(&mut links, &mut self.link_sends);
        core::mem::swap(&mut nodes, &mut self.node_sends);
        let ghost start = Watch { monitor: self@, log: trace@ };
        let ghost config = self.config;
        let ghost mut raised = network_alerts(config.network_rate, tick, network);
        if let Some((severity, limit)) = self.config.network_rate.severity(network) {
            let mut message = decimal(network);
            message.append(" packets this tick");
            self.raise(
                trace,
                Alert {
                    tick,
                    check: Check::NetworkRate,
                    severity,
                    subject: Subject::Network,
                    value: network,
                    limit,
                    message,
                },
            );
            proof {
                lemma_raise_one_more(start, Seq::empty(), raised[0]);
                assert(raised =~= Seq::<AlertView>::empty().push(raised[0]));
            }
        }
        let ghost first = raised;
        let mut i: usize = 0;
        assert(first + link_alerts(config.link_rate, tick, links@.take(0)) =~= first);
        while i < links.len()
            invariant
                i <= links@.len(),
                self.inv(),
                self.config == config,
                (Watch { monitor: self@, log: trace@ }) == start.raise_all(
                    first + link_alerts(config.link_rate, tick, links@.take(i as int)),
                ),
            decreases links@.len() - i,
        {
            let (link, n) = links.at(i);
            let ghost sofar = link_alerts(config.link_rate, tick, links@.take(i as int));
            assert(links@.take(i + 1).drop_last() =~= links@.take(i as int));
            assert(links@.take(i + 1).last() == (link, n));
            if let Some((severity, limit)) = self.config.link_rate.severity(n) {
                let mut message = decimal(n);
                message.append(" packets on this link this tick");
                let alert = Alert {
                    tick,
                    check: Check::LinkRate,
                    severity,
                    subject: Subject::Link(link),
                    value: n,
                    limit,
                    message,
                };
                proof {
                    lemma_raise_one_more(start, first + sofar, alert@);
                    assert(first + sofar.push(alert@) =~= (first + sofar).push(alert@));
                }
                self.raise(trace, alert);
            }
            i += 1;
        }
        assert(links@.take(i as int) =~= links@);
        let ghost second = first + link_alerts(config.link_rate, tick, links@);
        let mut j: usize = 0;
        assert(second + node_alerts(config.node_rate, tick, nodes@.take(0)) =~= second);
        while j < nodes.len()
            invariant
                j <= nodes@.len(),
                self.inv(),
                self.config == config,
                (Watch { monitor: self@, log: trace@ }) == start.raise_all(
                    second + node_alerts(config.node_rate, tick, nodes@.take(j as int)),
                ),
            decreases nodes@.len() - j,
        {
            let (node, n) = nodes.at(j);
            let ghost sofar = node_alerts(config.node_rate, tick, nodes@.take(j as int));
            assert(nodes@.take(j + 1).drop_last() =~= nodes@.take(j as int));
            assert(nodes@.take(j + 1).last() == (node, n));
            if let Some((severity, limit)) = self.config.node_rate.severity(n) {
                let mut message = "sent ".to_owned();
                message.append(decimal(n).as_str());
                message.append(" packets this tick");
                let alert = Alert {
                    tick,
                    check: Check::NodeRate,
                    severity,
                    subject: Subject::Node(node),
                    value: n,
                    limit,
                    message,
                };
                proof {
                    lemma_raise_one_more(start, second + sofar, alert@);
                    assert(second + sofar.push(alert@) =~= (second + sofar).push(alert@));
                }
                self.raise(trace, alert);
            }
            j += 1;
        }
        assert(nodes@.take(j as int) =~= nodes@);
    }
}

impl Monitor {
    /// Looks for relaying nodes that connect links in a cycle. `modes` says how each node that
    /// has a logic relays. A cycle only loops endlessly if a flooding relay (a bridge) is part of
    /// it: gateways follow routes, which are bounded. So routed connections are joined first
    /// without reporting, then every flooding connection that closes a cycle is reported.
    pub fn check_topology(
        &mut self,
        trace: &mut TraceLog,
        tick: u64,
        network: &Network,
        modes: &Vec<(NodeId, Relaying)>,
    )
        requires
            old(self).inv(),
        ensures
            final(self).inv(),
            (Watch { monitor: final(self)@, log: final(trace)@ }) == (Watch {
                monitor: old(self)@,
                log: old(trace)@,
            }).raise_all(cycles(network@, tick, modes@)),
    {
        let mut sets = join_routed(network, modes);
        let ghost start = Watch { monitor: self@, log: trace@ };
        let ghost begun = Survey {
            joints: routed_joints(network@, modes@),
            alerts: Seq::empty(),
        };
        let ghost mut survey = begun;
        let mut i: usize = 0;
        while i < modes.len()
            invariant
                i <= modes.len(),
                self.inv(),
                sets.inv(),
                sets.represents(survey.joints),
                survey == begun.surveyed(network@, tick, modes@.take(i as int)),
                (Watch { monitor: self@, log: trace@ }) == start.raise_all(survey.alerts),
            decreases modes.len() - i,
        {
            let (node, mode) = modes[i];
            assert(modes@.take(i + 1).drop_last() =~= modes@.take(i as int));
            assert(modes@.take(i + 1).last() == (node, mode));
            if let Some(n) = network.node(node) {
                if mode == Relaying::Flooding {
                    let mut all = copied(n.subscriptions());
                    let mut inside = copied(n.internal_links());
                    all.append(&mut inside);
                    assert(all@ =~= n@.subscriptions + n@.internal_links);
                    let links = ordered(&all);
                    let ghost before = survey;
                    let mut j: usize = 1;
                    while j < links.len()
                        invariant
                            j >= 1,
                            links@.len() >= 1 ==> j <= links.len(),
                            self.inv(),
                            sets.inv(),
                            sets.represents(survey.joints),
                            network@.nodes.contains_key(node),
                            n@ == network@.nodes[node],
                            survey == before.flooded(
                                network@,
                                tick,
                                node,
                                links@.take(if links@.len() == 0 {
                                    0
                                } else {
                                    j as int
                                }),
                            ),
                            (Watch { monitor: self@, log: trace@ }) == start.raise_all(
                                survey.alerts,
                            ),
                        decreases links.len() - j,
                    {
                        let (a, b) = (links[j - 1], links[j]);
                        assert(links@.take(j + 1).drop_last() =~= links@.take(j as int));
                        let cyclic = sets.same_set(a, b);
                        assert(sets.represents(survey.joints));
                        if cyclic {
                            let alert = Alert {
                                tick,
                                check: Check::RelayCycle,
                                severity: Severity::Error,
                                subject: Subject::Node(node),
                                value: 0,
                                limit: 0,
                                message: cycle_message(network, n, a, b),
                            };
                            proof {
                                lemma_raise_one_more(start, survey.alerts, alert@);
                                survey = survey.bridged(network@, tick, node, a, b);
                            }
                            self.raise(trace, alert);
                        } else {
                            sets.join(a, b);
                            proof {
                                survey = survey.bridged(network@, tick, node, a, b);
                            }
                        }
                        j += 1;
                    }
                    assert(links@.len() > 0 ==> links@.take(j as int) =~= links@);
                    assert(links@.len() == 0 ==> links@.take(0) =~= links@);
                }
            }
            i += 1;
        }
        assert(modes@.take(i as int) =~= modes@);
    }
}

/// The sets of links that gateways connect.
fn join_routed(network: &Network, modes: &Vec<(NodeId, Relaying)>) -> (r: LinkSets)
    ensures
        r.inv(),
        r.represents(routed_joints(network@, modes@)),
{
    let mut sets = LinkSets::new();
    let mut i: usize = 0;
    while i < modes.len()
        invariant
            i <= modes.len(),
            sets.inv(),
            sets.represents(routed_joints(network@, modes@.take(i as int))),
        decreases modes.len() - i,
    {
        let (node, mode) = modes[i];
        let ghost sofar = routed_joints(network@, modes@.take(i as int));
        assert(modes@.take(i + 1).drop_last() =~= modes@.take(i as int));
        assert(modes@.take(i + 1).last() == (node, mode));
        if let Some(n) = network.node(node) {
            if mode == Relaying::Routed {
                join_crossings(&mut sets, n.internal_links(), n.subscriptions(), Ghost(sofar));
            }
        }
        i += 1;
    }
    assert(modes@.take(i as int) =~= modes@);
    sets
}

/// Connects each internal link of a gateway to each external one.
fn join_crossings(
    sets: &mut LinkSets,
    inside: &[LinkId],
    outside: &[LinkId],
    joints: Ghost<Seq<(LinkId, LinkId)>>,
)
    requires
        old(sets).inv(),
        old(sets).represents(joints@),
    ensures
        final(sets).inv(),
        final(sets).represents(joints@ + crossings(inside@, outside@)),
{
    let mut i: usize = 0;
    assert(joints@ + crossings(inside@.take(0), outside@) =~= joints@);
    while i < inside.len()
        invariant
            i <= inside.len(),
            sets.inv(),
            sets.represents(joints@ + crossings(inside@.take(i as int), outside@)),
        decreases inside.len() - i,
    {
        let ghost sofar = joints@ + crossings(inside@.take(i as int), outside@);
        let a = inside[i];
        let mut j: usize = 0;
        assert(sofar + outside@.take(0).map_values(|o: LinkId| (a, o)) =~= sofar);
        while j < outside.len()
            invariant
                j <= outside.len(),
                sets.inv(),
                sets.represents(sofar + outside@.take(j as int).map_values(|o: LinkId| (a, o))),
            decreases outside.len() - j,
        {
            let b = outside[j];
            sets.join(a, b);
            j += 1;
            assert((sofar + outside@.take(j - 1).map_values(|o: LinkId| (a, o))).push((a, b))
                =~= sofar + outside@.take(j as int).map_values(|o: LinkId| (a, o)));
        }
        i += 1;
        proof {
            assert(outside@.take(j as int) =~= outside@);
            assert(inside@.take(i as int).drop_last() =~= inside@.take(i - 1));
            assert(inside@.take(i as int).last() == a);
            assert(sofar + outside@.map_values(|o: LinkId| (a, o)) =~= joints@ + crossings(
                inside@.take(i as int),
                outside@,
            ));
        }
    }
    assert(inside@.take(i as int) =~= inside@);
}

/// A link's name in an alert.
fn name_shown<'a>(network: &'a Network, link: LinkId) -> (r: &'a str)
    ensures
        r@ == shown_name(network@, link),
{
    match network.link(link) {
        Some(link) => link.name(),
        None => "?",
    }
}

/// What a relay cycle's alert says.
fn cycle_message(network: &Network, node: &ControlNode, a: LinkId, b: LinkId) -> (r: String)
    ensures
        r@ == node@.name + " closes a relay loop between "@ + shown_name(network@, a) + " and "@
            + shown_name(network@, b),
{
    let mut out = node.name().to_owned();
    out.append(" closes a relay loop between ");
    out.append(name_shown(network, a));
    out.append(" and ");
    out.append(name_shown(network, b));
    out
}

/// Drops the ticks as old as the window from the front.
fn forget_old(seen: &mut VecDeque<u64>, now: u64, window: u64)
    ensures
        final(seen)@ == in_window(old(seen)@, now, window),
{
    while seen.len() > 0 && now.saturating_sub(seen[0]) >= window
        invariant
            in_window(seen@, now, window) == in_window(old(seen)@, now, window),
        decreases seen@.len(),
    {
        let ghost was = seen@;
        let _ = seen.pop_front();
        assert(seen@ =~= was.drop_first());
    }
}

/// The checks in order.
fn nth_check(i: usize) -> (r: Check)
    ensures
        r == check_at(i as int),
{
    match i {
        0 => Check::NetworkRate,
        1 => Check::LinkRate,
        2 => Check::NodeRate,
        3 => Check::TtlExpired,
        4 => Check::RelayCycle,
        5 => Check::Replay,
        6 => Check::Amplification,
        _ => Check::LogicPanicked,
    }
}

/// Puts `a` after all alerts that are not later.
fn slot_in(alerts: &mut Vec<Alert>, a: Alert)
    ensures
        alert_views(final(alerts)@) == slotted(alert_views(old(alerts)@), a@),
{
    let mut i: usize = alerts.len();
    let ghost all = alert_views(alerts@);
    let ghost x = a@;
    assert(all.take(i as int) =~= all);
    assert(all.skip(i as int) =~= Seq::<AlertView>::empty());
    assert(slotted(all, x) =~= slotted(all.take(i as int), x) + all.skip(i as int));
    while i > 0 && alerts[i - 1].tick > a.tick
        invariant
            i <= alerts.len(),
            x == a@,
            alert_views(alerts@) == all,
            slotted(all, x) == slotted(all.take(i as int), x) + all.skip(i as int),
        decreases i,
    {
        proof {
            let front = all.take(i as int);
            assert(alerts@[i - 1]@ == all[i - 1]);
            assert(front.drop_last() =~= all.take(i - 1));
            assert(front.last() == all[i - 1]);
            assert(slotted(front, x) == slotted(all.take(i - 1), x).push(all[i - 1]));
            assert(all.skip(i - 1) =~= seq![all[i - 1]] + all.skip(i as int));
            assert(slotted(all.take(i - 1), x).push(all[i - 1]) + all.skip(i as int) =~= slotted(
                all.take(i - 1),
                x,
            ) + all.skip(i - 1));
        }
        i -= 1;
    }
    proof {
        let front = all.take(i as int);
        if i > 0 {
            assert(alerts@[i - 1]@ == all[i - 1]);
            assert(front.last() == all[i - 1]);
        }
        assert(slotted(front, x) == front.push(x));
    }
    alerts.insert(i, a);
    assert(alert_views(alerts@) =~= all.take(i as int).push(x) + all.skip(i as int));
}

} // verus!
