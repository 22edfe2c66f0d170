//! Plain forms of what a world reports, for hosts on the other side of an ABI: trace entries,
//! alerts, health counters, fuse reports and deliveries, with handles as integers and names as
//! text.

use vstd::prelude::*;
use vstd::string::*;

use crate::ids::{LinkId, NodeId};
use crate::logic::AcceptRule;
use crate::monitor::{Alert, Severity, Subject};
use crate::packet::{copy_bytes, Packet};
use crate::route::PacketRoute;
use crate::text::{decimal, same_text};
use crate::trace::{DropReason, TraceEvent};
use crate::world::{FuseReport, World};

verus! {

/// Version of the trace format.
pub const TRACE_FORMAT: u32 = 2;

/// `String::from_utf8`: the text the bytes encode, where they are valid UTF-8.
#[verifier::external_body]
fn text_from(bytes: Vec<u8>) -> (r: Option<String>)
    ensures
        match r {
            Some(s) => vstd::utf8::valid_utf8(bytes@) && s@ == vstd::utf8::decode_utf8(bytes@),
            None => !vstd::utf8::valid_utf8(bytes@),
        },
{
    String::from_utf8(bytes).ok()
}

/// What an alert is about. Nothing at all means the whole network.
#[derive(Debug, Clone, Copy, PartialEq, Eq, Structural, Hash)]
pub enum About {
    /// A node, by handle.
    Node(u64),
    /// A link, by handle.
    Link(u64),
}

/// What an [`AlertReport`] holds.
#[verifier::ext_equal]
pub struct AlertReportView {
    pub tick: u64,
    pub check: Seq<char>,
    pub severity: Severity,
    pub subject: Option<About>,
    pub value: u64,
    pub limit: u64,
    pub message: Seq<char>,
}

/// A monitor alert.
#[derive(Debug)]
pub struct AlertReport {
    /// Tick it was raised on.
    pub tick: u64,
    /// The check that raised it, by name.
    pub check: String,
    /// How bad it is.
    pub severity: Severity,
    /// What it is about.
    pub subject: Option<About>,
    /// The measured value, for threshold checks.
    pub value: u64,
    /// The threshold that was crossed, for threshold checks.
    pub limit: u64,
    /// A human-readable explanation.
    pub message: String,
}

/// What an alert is about, with handles as integers.
pub open spec fn about(subject: Subject) -> Option<About> {
    match subject {
        Subject::Network => None,
        Subject::Node(n) => Some(About::Node(n.spec_raw())),
        Subject::Link(l) => Some(About::Link(l.spec_raw())),
    }
}

impl View for AlertReport {
    type V = AlertReportView;

    open spec fn view(&self) -> AlertReportView {
        AlertReportView {
            tick: self.tick,
            check: self.check@,
            severity: self.severity,
            subject: self.subject,
            value: self.value,
            limit: self.limit,
            message: self.message@,
        }
    }
}

impl Clone for AlertReport {
    fn clone(&self) -> (r: Self)
        ensures
            r@ == self@,
    {
        AlertReport {
            tick: self.tick,
            check: self.check.clone(),
            severity: self.severity,
            subject: self.subject,
            value: self.value,
            limit: self.limit,
            message: self.message.clone(),
        }
    }
}

/// The reports' contents.
pub open spec fn report_views(alerts: Seq<AlertReport>) -> Seq<AlertReportView> {
    alerts.map_values(|a: AlertReport| a@)
}

impl AlertReport {
    /// Whether this reports `a`.
    pub open spec fn shows(self, a: crate::monitor::AlertView) -> bool {
        self@ == AlertReportView {
            tick: a.tick,
            check: a.check.text(),
            severity: a.severity,
            subject: about(a.subject),
            value: a.value,
            limit: a.limit,
            message: a.message,
        }
    }

    /// Reports `a`.
    pub fn of(a: &Alert) -> (r: Self)
        ensures
            r.shows(a@),
    {
        AlertReport {
            tick: a.tick,
            check: a.check.name().to_owned(),
            severity: a.severity,
            subject: match a.subject {
                Subject::Network => None,
                Subject::Node(n) => Some(About::Node(n.to_raw())),
                Subject::Link(l) => Some(About::Link(l.to_raw())),
            },
            value: a.value,
            limit: a.limit,
            message: a.message.clone(),
        }
    }
}

/// A severity's name.
pub fn severity_name(severity: Severity) -> (r: &'static str)
    ensures
        r@ == (match severity {
            Severity::Warning => "warning"@,
            Severity::Error => "error"@,
        }),
{
    match severity {
        Severity::Warning => "warning",
        Severity::Error => "error",
    }
}

/// A rule's name.
pub open spec fn rule_text(rule: AcceptRule) -> Seq<char> {
    match rule {
        AcceptRule::Addressed => "addressed"@,
        AcceptRule::Broadcast => "broadcast"@,
        AcceptRule::ChildToParent => "child_to_parent"@,
        AcceptRule::Gateway => "gateway"@,
        AcceptRule::Forced => "forced"@,
    }
}

/// A rule's name.
pub fn rule_name(rule: AcceptRule) -> (r: &'static str)
    ensures
        r@ == rule_text(rule),
{
    match rule {
        AcceptRule::Addressed => "addressed",
        AcceptRule::Broadcast => "broadcast",
        AcceptRule::ChildToParent => "child_to_parent",
        AcceptRule::Gateway => "gateway",
        AcceptRule::Forced => "forced",
    }
}

/// A reason's name.
pub open spec fn reason_text(reason: DropReason) -> Seq<char> {
    match reason {
        DropReason::TtlExpired => "ttl_expired"@,
        DropReason::NoRecipient => "no_recipient"@,
        DropReason::SenderLeftLink => "sender_left_link"@,
    }
}

/// A reason's name.
pub fn reason_name(reason: DropReason) -> (r: &'static str)
    ensures
        r@ == reason_text(reason),
{
    match reason {
        DropReason::TtlExpired => "ttl_expired",
        DropReason::NoRecipient => "no_recipient",
        DropReason::SenderLeftLink => "sender_left_link",
    }
}

/// Something that happened during a tick.
#[derive(Debug, Clone)]
#[allow(inconsistent_fields)]
pub enum TraceEntry {
    /// `sender` put a packet on `link`.
    Sent {
        /// Tick it happened on.
        tick: u64,
        /// The transmission.
        packet: u64,
        /// The node that transmitted it.
        sender: u64,
        /// The link it went onto.
        link: u64,
        /// Where it comes from.
        from: String,
        /// Where it is headed.
        to: String,
        /// The event's kind.
        kind: String,
        /// The payload as text, if it is valid UTF-8.
        data: Option<String>,
        /// Bytes of payload.
        data_len: u64,
        /// Hops left.
        ttl: u8,
    },
    /// `receiver` accepted a copy of a packet.
    Delivered {
        /// Tick it happened on.
        tick: u64,
        /// The transmission this copy came from.
        packet: u64,
        /// The node that accepted it.
        receiver: u64,
        /// The link it arrived on.
        link: u64,
        /// Why it was accepted.
        rule: String,
    },
    /// A packet, or one copy of it, was discarded.
    Dropped {
        /// Tick it happened on.
        tick: u64,
        /// The transmission involved.
        packet: u64,
        /// The node that dropped it, if one did.
        at: Option<u64>,
        /// Why.
        reason: String,
    },
    /// A note written by a node's logic.
    Note {
        /// Tick it happened on.
        tick: u64,
        /// The node whose logic wrote it.
        node: u64,
        /// The note.
        text: String,
    },
    /// A monitor check noticed something.
    Alert(AlertReport),
    /// Anything newer than this crate understands.
    Other,
}

/// Whether `data` is what can be shown of a payload: its text, if it is valid UTF-8.
pub open spec fn shows_payload(data: Option<String>, payload: Seq<u8>) -> bool {
    match data {
        Some(s) => vstd::utf8::valid_utf8(payload) && s@ == vstd::utf8::decode_utf8(payload),
        None => !vstd::utf8::valid_utf8(payload),
    }
}

impl TraceEntry {
    /// Whether this reports `e`.
    pub open spec fn shows(self, e: crate::trace::TraceView) -> bool {
        match e {
            crate::trace::TraceView::Sent { tick, packet, sender, link } => {
                &&& self is Sent
                &&& self->Sent_tick == tick
                &&& self->Sent_packet == packet.id.spec_raw()
                &&& self->Sent_sender == sender.spec_raw()
                &&& self->Sent_link == link.spec_raw()
                &&& self->Sent_from@ == crate::route::route_text(packet.from)
                &&& self->Sent_to@ == crate::route::route_text(packet.to)
                &&& self->Sent_kind@ == packet.event.kind
                &&& shows_payload(self->Sent_data, packet.event.data)
                &&& self->Sent_data_len == packet.event.data.len()
                &&& self->Sent_ttl == packet.ttl
            },
            crate::trace::TraceView::Delivered { tick, packet, receiver, link, rule } => {
                &&& self is Delivered
                &&& self->Delivered_tick == tick
                &&& self->Delivered_packet == packet.spec_raw()
                &&& self->Delivered_receiver == receiver.spec_raw()
                &&& self->Delivered_link == link.spec_raw()
                &&& self->Delivered_rule@ == rule_text(rule)
            },
            crate::trace::TraceView::Dropped { tick, packet, at, reason } => {
                &&& self is Dropped
                &&& self->Dropped_tick == tick
                &&& self->Dropped_packet == packet.spec_raw()
                &&& self->Dropped_at == (match at {
                    Some(n) => Some(n.spec_raw()),
                    None => None,
                })
                &&& self->Dropped_reason@ == reason_text(reason)
            },
            crate::trace::TraceView::Alert(a) => self is Alert && self->Alert_0.shows(a),
            crate::trace::TraceView::Note { tick, node, text } => {
                &&& self is Note
                &&& self->Note_tick == tick
                &&& self->Note_node == node.spec_raw()
                &&& self->Note_text@ == text
            },
        }
    }

    /// Reports `e`.
    pub fn of(e: &TraceEvent) -> (r: Self)
        ensures
            r.shows(e@),
    {
        match e {
            TraceEvent::Sent { tick, packet, sender, link } => sent_entry(
                *tick,
                packet,
                *sender,
                *link,
            ),
            TraceEvent::Delivered { tick, packet, receiver, link, rule } => TraceEntry::Delivered {
                tick: *tick,
                packet: packet.to_raw(),
                receiver: receiver.to_raw(),
                link: link.to_raw(),
                rule: rule_name(*rule).to_owned(),
            },
            TraceEvent::Dropped { tick, packet, at, reason } => TraceEntry::Dropped {
                tick: *tick,
                packet: packet.to_raw(),
                at: match at {
                    Some(n) => Some(n.to_raw()),
                    None => None,
                },
                reason: reason_name(*reason).to_owned(),
            },
            TraceEvent::Alert(a) => TraceEntry::Alert(AlertReport::of(a)),
            TraceEvent::Note { tick, node, text } => TraceEntry::Note {
                tick: *tick,
                node: node.to_raw(),
                text: text.clone(),
            },
        }
    }
}

/// Reports a transmission.
fn sent_entry(tick: u64, packet: &Packet, sender: NodeId, link: LinkId) -> (r: TraceEntry)
    ensures
        r.shows(crate::trace::TraceView::Sent { tick, packet: packet@, sender, link }),
{
    let event = packet.event();
    TraceEntry::Sent {
        tick,
        packet: packet.id().to_raw(),
        sender: sender.to_raw(),
        link: link.to_raw(),
        from: packet.from().to_string(),
        to: packet.to().to_string(),
        kind: event.kind.clone(),
        data: text_from(copy_bytes(event.data.as_slice())),
        data_len: event.data.len() as u64,
        ttl: packet.ttl(),
    }
}

/// What happened during recent ticks.
#[derive(Debug, Clone)]
pub struct Trace {
    /// Version of the format.
    pub format: u32,
    /// Events lost because the buffer filled before it was drained.
    pub discarded: u64,
    /// The events, oldest first.
    pub events: Vec<TraceEntry>,
}

impl Trace {
    /// Reports `events`.
    pub fn of(events: &Vec<TraceEvent>, discarded: u64) -> (r: Self)
        ensures
            r.format == TRACE_FORMAT,
            r.discarded == discarded,
            r.events@.len() == events@.len(),
            forall|i: int| 0 <= i < events@.len() ==> (#[trigger] r.events@[i]).shows(events@[i]@),
    {
        let mut entries: Vec<TraceEntry> = Vec::new();
        let mut i: usize = 0;
        while i < events.len()
            invariant
                i <= events.len(),
                entries@.len() == i,
                forall|j: int| 0 <= j < i ==> (#[trigger] entries@[j]).shows(events@[j]@),
            decreases events.len() - i,
        {
            entries.push(TraceEntry::of(&events[i]));
            i += 1;
        }
        Trace { format: TRACE_FORMAT, discarded, events: entries }
    }

    /// The events, where the format is one this crate understands; otherwise the format.
    pub fn read(self) -> (r: Result<Vec<TraceEntry>, u32>)
        ensures
            1 <= self.format <= TRACE_FORMAT ==> r == Ok::<_, u32>(self.events),
            !(1 <= self.format <= TRACE_FORMAT) ==> r == Err::<Vec<TraceEntry>, u32>(self.format),
    {
        if 1 <= self.format && self.format <= TRACE_FORMAT {
            Ok(self.events)
        } else {
            Err(self.format)
        }
    }
}

/// Why a trace could not be read.
pub fn unsupported_trace(format: u32) -> (r: String)
    ensures
        r@ == "trace format "@ + crate::text::decimal_text(format as nat)
            + " is not supported (expected "@ + crate::text::decimal_text(TRACE_FORMAT as nat)
            + ")"@,
{
    let mut out = "trace format ".to_owned();
    out.append(decimal(format as u64).as_str());
    out.append(" is not supported (expected ");
    out.append(decimal(TRACE_FORMAT as u64).as_str());
    out.append(")");
    out
}

/// The fuse's limits.
#[derive(Debug, Clone, Copy, PartialEq, Eq, Structural)]
pub struct LimitsReport {
    /// Most packets put on links in one tick.
    pub max_transmissions_per_tick: u64,
    /// Most packet copies handed to listeners in one tick.
    pub max_deliveries_per_tick: u64,
    /// Most packets waiting for the next tick.
    pub max_pending: u64,
    /// Largest event payload, in bytes.
    pub max_payload_bytes: u64,
}

/// A world's load, and the limits it runs under.
#[derive(Debug, Clone, Copy, PartialEq, Eq, Structural)]
pub struct HealthReport {
    /// The current tick.
    pub tick: u64,
    /// Packets put on links during the last tick.
    pub transmissions: u64,
    /// Packet copies delivered during the last tick.
    pub deliveries: u64,
    /// The most transmissions seen in any one tick.
    pub peak_transmissions: u64,
    /// Packets waiting for the next tick.
    pub pending: u64,
    /// Sends refused because the queue was full.
    pub refused_sends: u64,
    /// Packet copies dropped because their TTL ran out.
    pub ttl_drops: u64,
    /// Queued packets dropped because the sender had left the link.
    pub sender_left_drops: u64,
    /// Alerts raised so far.
    pub alerts: u64,
    /// Ticks that tripped the fuse.
    pub fuse_trips: u64,
    /// Events waiting to be drained.
    pub trace_len: u64,
    /// Events thrown away because nobody drained them in time.
    pub trace_discarded: u64,
    /// The fuse's limits.
    pub limits: LimitsReport,
}

impl HealthReport {
    /// What is reported of these counters and limits.
    pub open spec fn shown(h: crate::world::Health, l: crate::logic::Limits) -> HealthReport {
        HealthReport {
            tick: h.tick,
            transmissions: h.transmissions,
            deliveries: h.deliveries,
            peak_transmissions: h.peak_transmissions,
            pending: h.pending as u64,
            refused_sends: h.refused_sends,
            ttl_drops: h.ttl_drops,
            sender_left_drops: h.sender_left_drops,
            alerts: h.alerts,
            fuse_trips: h.fuse_trips,
            trace_len: h.trace_len as u64,
            trace_discarded: h.trace_discarded,
            limits: LimitsReport {
                max_transmissions_per_tick: l.max_transmissions_per_tick,
                max_deliveries_per_tick: l.max_deliveries_per_tick,
                max_pending: l.max_pending as u64,
                max_payload_bytes: l.max_payload_bytes as u64,
            },
        }
    }

    /// Reports on `world`.
    pub fn of(world: &World) -> (r: Self)
        ensures
            r == Self::shown(world@.health(), world@.queue.limits),
    {
        let h = world.health();
        let l = world.limits();
        HealthReport {
            tick: h.tick,
            transmissions: h.transmissions,
            deliveries: h.deliveries,
            peak_transmissions: h.peak_transmissions,
            pending: h.pending as u64,
            refused_sends: h.refused_sends,
            ttl_drops: h.ttl_drops,
            sender_left_drops: h.sender_left_drops,
            alerts: h.alerts,
            fuse_trips: h.fuse_trips,
            trace_len: h.trace_len as u64,
            trace_discarded: h.trace_discarded,
            limits: LimitsReport {
                max_transmissions_per_tick: l.max_transmissions_per_tick,
                max_deliveries_per_tick: l.max_deliveries_per_tick,
                max_pending: l.max_pending as u64,
                max_payload_bytes: l.max_payload_bytes as u64,
            },
        }
    }
}

/// Why the fuse tripped.
#[derive(Debug, Clone)]
pub struct FuseSummary {
    /// Tick it happened on.
    pub tick: u64,
    /// Which limit was hit, by name.
    pub limit: String,
    /// The configured limit.
    pub max: u64,
    /// Packets still queued when the tick stopped.
    pub held_back: u64,
    /// Nodes and how much they sent this tick, busiest first.
    pub top_senders: Vec<(u64, u64)>,
    /// Links and how much they carried this tick, busiest first.
    pub top_links: Vec<(u64, u64)>,
    /// The latest alert from each check, oldest first.
    pub recent_alerts: Vec<AlertReport>,
}

/// What is reported of counts by node.
pub open spec fn node_counts(counts: Seq<(NodeId, u64)>) -> Seq<(u64, u64)> {
    counts.map_values(|c: (NodeId, u64)| (c.0.spec_raw(), c.1))
}

/// What is reported of counts by link.
pub open spec fn link_counts(counts: Seq<(LinkId, u64)>) -> Seq<(u64, u64)> {
    counts.map_values(|c: (LinkId, u64)| (c.0.spec_raw(), c.1))
}

/// What a limit means, for people.
pub open spec fn limit_words(limit: Seq<char>, max: u64) -> Seq<char> {
    let n = crate::text::decimal_text(max as nat);
    if limit == "transmissions"@ {
        n + " packets sent in one tick"@
    } else if limit == "deliveries"@ {
        n + " packet deliveries in one tick"@
    } else if limit == "queue"@ {
        n + " packets waiting (new sends were refused)"@
    } else {
        limit + " limit of "@ + n
    }
}

impl FuseSummary {
    /// Whether this reports `f`.
    pub open spec fn shows(self, f: crate::world::FuseView) -> bool {
        &&& self.tick == f.tick
        &&& self.limit@ == f.limit.text()
        &&& self.max == f.max
        &&& self.held_back == f.held_back
        &&& self.top_senders@ == node_counts(f.top_senders)
        &&& self.top_links@ == link_counts(f.top_links)
        &&& self.recent_alerts@.len() == f.recent_alerts.len()
        &&& forall|i: int|
            0 <= i < f.recent_alerts.len() ==> (#[trigger] self.recent_alerts@[i]).shows(
                f.recent_alerts[i],
            )
    }

    /// Reports `f`.
    pub fn of(f: &FuseReport) -> (r: Self)
        ensures
            r.shows(f@),
    {
        let mut top_senders: Vec<(u64, u64)> = Vec::new();
        let mut i: usize = 0;
        while i < f.top_senders.len()
            invariant
                i <= f.top_senders.len(),
                top_senders@ == node_counts(f.top_senders@.take(i as int)),
            decreases f.top_senders.len() - i,
        {
            let (node, count) = f.top_senders[i];
            top_senders.push((node.to_raw(), count));
            i += 1;
            assert(top_senders@ =~= node_counts(f.top_senders@.take(i as int)));
        }
        assert(f.top_senders@.take(i as int) =~= f.top_senders@);
        let mut top_links: Vec<(u64, u64)> = Vec::new();
        let mut j: usize = 0;
        while j < f.top_links.len()
            invariant
                j <= f.top_links.len(),
                top_links@ == link_counts(f.top_links@.take(j as int)),
            decreases f.top_links.len() - j,
        {
            let (link, count) = f.top_links[j];
            top_links.push((link.to_raw(), count));
            j += 1;
            assert(top_links@ =~= link_counts(f.top_links@.take(j as int)));
        }
        assert(f.top_links@.take(j as int) =~= f.top_links@);
        let mut recent_alerts: Vec<AlertReport> = Vec::new();
        let mut k: usize = 0;
        while k < f.recent_alerts.len()
            invariant
                k <= f.recent_alerts.len(),
                recent_alerts@.len() == k,
                forall|n: int|
                    0 <= n < k ==> (#[trigger] recent_alerts@[n]).shows(f.recent_alerts@[n]@),
            decreases f.recent_alerts.len() - k,
        {
            recent_alerts.push(AlertReport::of(&f.recent_alerts[k]));
            k += 1;
        }
        FuseSummary {
            tick: f.tick,
            limit: f.limit.name().to_owned(),
            max: f.max,
            held_back: f.held_back as u64,
            top_senders,
            top_links,
            recent_alerts,
        }
    }

    /// What the limit means, for people.
    pub fn limit_text(&self) -> (r: String)
        ensures
            r@ == limit_words(self.limit@, self.max),
    {
        let mut out = decimal(self.max);
        if same_text(self.limit.as_str(), "transmissions") {
            out.append(" packets sent in one tick");
            out
        } else if same_text(self.limit.as_str(), "deliveries") {
            out.append(" packet deliveries in one tick");
            out
        } else if same_text(self.limit.as_str(), "queue") {
            out.append(" packets waiting (new sends were refused)");
            out
        } else {
            let mut other = self.limit.clone();
            other.append(" limit of ");
            other.append(out.as_str());
            other
        }
    }
}

/// A packet handed to a node the host plays itself.
#[derive(Debug)]
pub struct HostDelivery {
    /// The node that received it.
    pub receiver: NodeId,
    /// The link it arrived on.
    pub link: LinkId,
    /// The packet.
    pub packet: Packet,
}

/// A delivery with its route spelled out and its payload in hexadecimal.
#[derive(Debug, Clone)]
pub struct Delivery {
    /// The node that received it.
    pub receiver: u64,
    /// The link it arrived on.
    pub link: u64,
    /// Where it comes from, as node and link names.
    pub from: Vec<(String, String)>,
    /// Where it is headed, as node and link names.
    pub to: Vec<(String, String)>,
    /// The event's kind.
    pub kind: String,
    /// The payload, two digits a byte.
    pub data: String,
    /// Hops left.
    pub ttl: u8,
}

/// Whether the pairs name these hops.
pub open spec fn names_hops(pairs: Seq<(String, String)>, hops: Seq<crate::route::HopView>) -> bool {
    &&& pairs.len() == hops.len()
    &&& forall|i: int|
        0 <= i < hops.len() ==> (#[trigger] pairs[i]).0@ == hops[i].node && pairs[i].1@
            == hops[i].link
}

/// A hexadecimal digit.
pub open spec fn hex_digit(d: nat) -> char {
    if d < 10 {
        (48 + d) as char
    } else {
        (87 + d) as char
    }
}

/// Two digits a byte.
pub open spec fn hex_text(bytes: Seq<u8>) -> Seq<char>
    decreases bytes.len(),
{
    if bytes.len() == 0 {
        Seq::empty()
    } else {
        hex_text(bytes.drop_last()).push(hex_digit(bytes.last() as nat / 16)).push(
            hex_digit(bytes.last() as nat % 16),
        )
    }
}

/// A hexadecimal digit.
fn hex_char(d: u8) -> (r: char)
    requires
        d < 16,
    ensures
        r == hex_digit(d as nat),
{
    if d < 10 {
        (48 + d) as char
    } else {
        (87 + d) as char
    }
}

/// The bytes in hexadecimal, two digits each.
pub fn hex(bytes: &[u8]) -> (r: String)
    ensures
        r@ == hex_text(bytes@),
{
    let mut out = String::new();
    let mut i: usize = 0;
    while i < bytes.len()
        invariant
            i <= bytes.len(),
            out@ == hex_text(bytes@.take(i as int)),
        decreases bytes.len() - i,
    {
        let b: u8 = bytes[i];
        out.push(hex_char(b / 16));
        out.push(hex_char(b % 16));
        i += 1;
        assert(bytes@.take(i as int).drop_last() =~= bytes@.take(i - 1));
    }
    assert(bytes@.take(i as int) =~= bytes@);
    out
}

/// A route's hops by name.
pub fn hops(route: &PacketRoute) -> (r: Vec<(String, String)>)
    ensures
        names_hops(r@, route@),
{
    let hops = route.hops();
    let mut out: Vec<(String, String)> = Vec::new();
    let mut i: usize = 0;
    while i < hops.len()
        invariant
            i <= hops.len(),
            crate::route::hop_views(hops@) == route@,
            out@.len() == i,
            forall|j: int|
                0 <= j < i ==> (#[trigger] out@[j]).0@ == route@[j].node && out@[j].1@
                    == route@[j].link,
        decreases hops.len() - i,
    {
        assert(route@[i as int] == hops@[i as int]@);
        out.push((hops[i].node.clone(), hops[i].link.clone()));
        i += 1;
    }
    out
}

impl Delivery {
    /// Whether this reports a packet's arrival at `receiver` over `link`.
    pub open spec fn shows(
        self,
        receiver: NodeId,
        link: LinkId,
        packet: crate::packet::PacketView,
    ) -> bool {
        &&& self.receiver == receiver.spec_raw()
        &&& self.link == link.spec_raw()
        &&& names_hops(self.from@, packet.from)
        &&& names_hops(self.to@, packet.to)
        &&& self.kind@ == packet.event.kind
        &&& self.data@ == hex_text(packet.event.data)
        &&& self.ttl == packet.ttl
    }

    /// Reports `d`.
    pub fn of(d: &HostDelivery) -> (r: Self)
        ensures
            r.shows(d.receiver, d.link, d.packet@),
    {
        let event = d.packet.event();
        Delivery {
            receiver: d.receiver.to_raw(),
            link: d.link.to_raw(),
            from: hops(d.packet.from()),
            to: hops(d.packet.to()),
            kind: event.kind.clone(),
            data: hex(event.data.as_slice()),
            ttl: d.packet.ttl(),
        }
    }
}

/// Everything collected in one drain.
pub fn deliveries(all: &Vec<HostDelivery>) -> (r: Vec<Delivery>)
    ensures
        r@.len() == all@.len(),
        forall|i: int|
            0 <= i < all@.len() ==> (#[trigger] r@[i]).shows(
                all@[i].receiver,
                all@[i].link,
                all@[i].packet@,
            ),
{
    let mut out: Vec<Delivery> = Vec::new();
    let mut i: usize = 0;
    while i < all.len()
        invariant
            i <= all.len(),
            out@.len() == i,
            forall|j: int|
                0 <= j < i ==> (#[trigger] out@[j]).shows(
                    all@[j].receiver,
                    all@[j].link,
                    all@[j].packet@,
                ),
        decreases all.len() - i,
    {
        out.push(Delivery::of(&all[i]));
        i += 1;
    }
    out
}

} // verus!
