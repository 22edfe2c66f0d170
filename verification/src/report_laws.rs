//! What reports tell of what they report on.

use vstd::prelude::*;

use crate::ids::{LinkId, NodeId};
use crate::logic::{AcceptRule, Limits};
use crate::monitor::{AlertView, Check, Subject};
use crate::packet::PacketView;
use crate::report::{About, AlertReport, Delivery, FuseSummary, HealthReport, TraceEntry};
use crate::trace::{DropReason, TraceView};
use crate::world::{FuseLimit, FuseView, Health};

verus! {

/// The name that a check goes by.
pub open spec fn check_name(check: Check) -> Seq<char> {
    match check {
        Check::NetworkRate => "network_rate"@,
        Check::LinkRate => "link_rate"@,
        Check::NodeRate => "node_rate"@,
        Check::TtlExpired => "ttl_expired"@,
        Check::RelayCycle => "relay_cycle"@,
        Check::Replay => "replay"@,
        Check::Amplification => "amplification"@,
        Check::LogicPanicked => "logic_panicked"@,
    }
}

/// The name that a reason to accept a packet goes by.
pub open spec fn rule_name(rule: AcceptRule) -> Seq<char> {
    match rule {
        AcceptRule::Addressed => "addressed"@,
        AcceptRule::Broadcast => "broadcast"@,
        AcceptRule::ChildToParent => "child_to_parent"@,
        AcceptRule::Gateway => "gateway"@,
        AcceptRule::Forced => "forced"@,
    }
}

/// The name that a reason to drop a packet goes by.
pub open spec fn reason_name(reason: DropReason) -> Seq<char> {
    match reason {
        DropReason::TtlExpired => "ttl_expired"@,
        DropReason::NoRecipient => "no_recipient"@,
        DropReason::SenderLeftLink => "sender_left_link"@,
    }
}

/// A report on an alert tells all of it: when, which check by its name, how bad, about what, what
/// was measured against what, and in words.
pub proof fn law_alert_reports_tell_all(r: AlertReport, a: AlertView)
    requires
        r.shows(a),
    ensures
        r.tick == a.tick,
        r.check@ == check_name(a.check),
        r.severity == a.severity,
        a.subject == Subject::Network ==> r.subject is None,
        a.subject matches Subject::Node(n) ==> r.subject == Some(About::Node(n.spec_raw())),
        a.subject matches Subject::Link(l) ==> r.subject == Some(About::Link(l.spec_raw())),
        r.value == a.value,
        r.limit == a.limit,
        r.message@ == a.message,
{
    assert(r@.tick == a.tick);
    assert(r@.check == check_name(a.check));
    assert(r@.value == a.value && r@.limit == a.limit);
    assert(r@.message == a.message && r@.severity == a.severity);
}

/// A report on what happened tells all of it.
pub proof fn law_trace_reports_tell_all(r: TraceEntry, e: TraceView)
    requires
        r.shows(e),
    ensures
        match e {
            TraceView::Sent { tick, packet, sender, link } => match r {
                TraceEntry::Sent {
                    tick: t,
                    packet: id,
                    sender: s,
                    link: l,
                    from,
                    to,
                    kind,
                    data_len,
                    ttl,
                    ..
                } => {
                    &&& t == tick
                    &&& id == packet.id.spec_raw()
                    &&& s == sender.spec_raw()
                    &&& l == link.spec_raw()
                    &&& from@ == crate::route::route_text(packet.from)
                    &&& to@ == crate::route::route_text(packet.to)
                    &&& kind@ == packet.event.kind
                    &&& data_len == packet.event.data.len()
                    &&& ttl == packet.ttl
                },
                _ => false,
            },
            TraceView::Delivered { tick, packet, receiver, link, rule } => match r {
                TraceEntry::Delivered { tick: t, packet: id, receiver: n, link: l, rule: why } => {
                    &&& t == tick
                    &&& id == packet.spec_raw()
                    &&& n == receiver.spec_raw()
                    &&& l == link.spec_raw()
                    &&& why@ == rule_name(rule)
                },
                _ => false,
            },
            TraceView::Dropped { tick, packet, at, reason } => match r {
                TraceEntry::Dropped { tick: t, packet: id, at: n, reason: why } => {
                    &&& t == tick
                    &&& id == packet.spec_raw()
                    &&& at matches Some(node) ==> n == Some(node.spec_raw())
                    &&& at is None ==> n is None
                    &&& why@ == reason_name(reason)
                },
                _ => false,
            },
            TraceView::Alert(a) => match r {
                TraceEntry::Alert(report) => report.shows(a),
                _ => false,
            },
            TraceView::Note { tick, node, text } => match r {
                TraceEntry::Note { tick: t, node: n, text: words } => t == tick && n
                    == node.spec_raw() && words@ == text,
                _ => false,
            },
        },
{
}

/// A report on a world's load tells what the counters and the limits are.
pub proof fn law_load_reports_tell_all(h: Health, l: Limits)
    ensures
        ({
            let r = HealthReport::shown(h, l);
            &&& r.tick == h.tick
            &&& r.transmissions == h.transmissions
            &&& r.deliveries == h.deliveries
            &&& r.peak_transmissions == h.peak_transmissions
            &&& r.pending == h.pending
            &&& r.refused_sends == h.refused_sends
            &&& r.ttl_drops == h.ttl_drops
            &&& r.sender_left_drops == h.sender_left_drops
            &&& r.alerts == h.alerts
            &&& r.fuse_trips == h.fuse_trips
            &&& r.trace_len == h.trace_len
            &&& r.trace_discarded == h.trace_discarded
            &&& r.limits.max_transmissions_per_tick == l.max_transmissions_per_tick
            &&& r.limits.max_deliveries_per_tick == l.max_deliveries_per_tick
            &&& r.limits.max_pending == l.max_pending
            &&& r.limits.max_payload_bytes == l.max_payload_bytes
        }),
{
}

/// A report on a tripped fuse tells all of it, the busiest by their handles.
pub proof fn law_fuse_reports_tell_all(r: FuseSummary, f: FuseView, i: int)
    requires
        r.shows(f),
    ensures
        r.tick == f.tick,
        f.limit == FuseLimit::Transmissions ==> r.limit@ == "transmissions"@,
        f.limit == FuseLimit::Deliveries ==> r.limit@ == "deliveries"@,
        f.limit == FuseLimit::Queue ==> r.limit@ == "queue"@,
        r.max == f.max,
        r.held_back == f.held_back,
        r.top_senders@.len() == f.top_senders.len(),
        r.top_links@.len() == f.top_links.len(),
        0 <= i < f.top_senders.len() ==> r.top_senders@[i] == (
            f.top_senders[i].0.spec_raw(),
            f.top_senders[i].1,
        ),
        0 <= i < f.top_links.len() ==> r.top_links@[i] == (
            f.top_links[i].0.spec_raw(),
            f.top_links[i].1,
        ),
        r.recent_alerts@.len() == f.recent_alerts.len(),
        0 <= i < f.recent_alerts.len() ==> r.recent_alerts@[i].shows(f.recent_alerts[i]),
{
}

/// A report on a packet that arrived tells who got it over which link, and all of the packet: its
/// routes hop by hop, its event, the data in hexadecimal, and the hops it has left.
pub proof fn law_arrival_reports_tell_all(
    r: Delivery,
    receiver: NodeId,
    link: LinkId,
    packet: PacketView,
    i: int,
)
    requires
        r.shows(receiver, link, packet),
    ensures
        r.receiver == receiver.spec_raw(),
        r.link == link.spec_raw(),
        r.from@.len() == packet.from.len(),
        r.to@.len() == packet.to.len(),
        0 <= i < packet.from.len() ==> r.from@[i].0@ == packet.from[i].node && r.from@[i].1@
            == packet.from[i].link,
        0 <= i < packet.to.len() ==> r.to@[i].0@ == packet.to[i].node && r.to@[i].1@
            == packet.to[i].link,
        r.kind@ == packet.event.kind,
        r.data@ == crate::report::hex_text(packet.event.data),
        r.ttl == packet.ttl,
{
}

} // verus!
