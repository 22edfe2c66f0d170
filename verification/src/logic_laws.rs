//! What holds of the logics a node can have: what each of them sends, when, and to whom.

use vstd::prelude::*;

use crate::behaviour::{BehaviourView, CallView};
use crate::ids::{LinkId, NodeId};
use crate::logic::{AcceptRule, ContextView, OutgoingView, QueueView, Relaying, SendErrorView};
use crate::packet::{EventView, PacketView};
use crate::route::HopView;

verus! {

/// Whether the node is on the link, as a subscriber or as its owner, and the event is small
/// enough to go over it.
pub open spec fn may_use(c: ContextView, via: LinkId, event: EventView) -> bool {
    &&& c.network.nodes.contains_key(c.node)
    &&& c.network.links.contains_key(via)
    &&& c.network.links[via].subscribers.contains(c.node) || c.network.links[via].owner == Some(
        c.node,
    )
    &&& event.data.len() <= c.queue.limits.max_payload_bytes
    &&& vstd::utf8::encode_utf8(event.kind).len() <= 64
}

/// Whether `n` more packets can wait.
pub open spec fn has_room(c: ContextView, n: nat) -> bool {
    c.queue.items.len() + c.queue.reserved + n <= c.queue.limits.max_pending
}

/// A new packet of the node's own on `via`: from its name on that link, with sixteen hops to go
/// and nowhere been yet.
pub open spec fn own_packet(
    c: ContextView,
    via: LinkId,
    to: Seq<HopView>,
    event: EventView,
) -> OutgoingView {
    OutgoingView {
        sender: c.node,
        via,
        from: seq![
            HopView { node: c.network.nodes[c.node].name, link: c.network.links[via].name },
        ],
        to,
        event,
        ttl: 16,
        trace: Seq::empty(),
    }
}

/// Whether all that changed from `before` to `after` is that the packets wait too, last and in
/// this order.
pub open spec fn sent_only(
    before: ContextView,
    packets: Seq<OutgoingView>,
    after: ContextView,
) -> bool {
    after == ContextView {
        queue: QueueView { items: before.queue.items + packets, ..before.queue },
        ..before
    }
}

/// To everyone on the link of that name.
pub open spec fn to_all(link: Seq<char>) -> Seq<HopView> {
    seq![HopView { node: "*"@, link }]
}

/// A packet of the node's own is queued if and only if the node may use the link and there is
/// room; otherwise nothing is queued, and the error says why: the first of these that holds. A
/// send that only failed for want of room is counted.
pub proof fn law_sends_are_queued_where_allowed(
    c: ContextView,
    via: LinkId,
    to: Seq<HopView>,
    event: EventView,
)
    ensures
        c.send_error(via, event) is None <==> may_use(c, via, event) && has_room(c, 1),
        may_use(c, via, event) && has_room(c, 1) ==> sent_only(
            c,
            seq![own_packet(c, via, to, event)],
            c.after(c.fresh(via, to, event)),
        ),
        !(may_use(c, via, event) && has_room(c, 1)) ==> c.after(
            c.fresh(via, to, event),
        ).queue.items == c.queue.items,
        !may_use(c, via, event) ==> c.after(c.fresh(via, to, event)) == c,
        may_use(c, via, event) && !has_room(c, 1) && c.queue.refused < u64::MAX ==> c.after(
            c.fresh(via, to, event),
        ).queue.refused == c.queue.refused + 1,
        !c.network.nodes.contains_key(c.node) ==> c.send_error(via, event) == Some(
            SendErrorView::UnknownNode(c.node),
        ),
        c.network.nodes.contains_key(c.node) && !c.network.links.contains_key(via)
            ==> c.send_error(via, event) == Some(SendErrorView::UnknownLink(via)),
        c.network.nodes.contains_key(c.node) && c.network.links.contains_key(via)
            && !c.network.links[via].subscribers.contains(c.node) && c.network.links[via].owner
            != Some(c.node) ==> c.send_error(via, event) == Some(SendErrorView::NotOnLink(via)),
        may_use(c, via, event) && !has_room(c, 1) ==> c.send_error(via, event) == Some(
            SendErrorView::QueueFull,
        ),
        may_use(c, via, EventView { kind: Seq::empty(), data: Seq::empty() }) && !may_use(
            c,
            via,
            event,
        ) ==> c.send_error(via, event) == Some(SendErrorView::PayloadTooLarge),
{
    let after = c.after(c.fresh(via, to, event));
    if may_use(c, via, event) && has_room(c, 1) {
        assert(after.queue.items =~= c.queue.items + seq![own_packet(c, via, to, event)]);
    }
}

/// Sending nothing leaves everything as it was.
pub proof fn lemma_sent_nothing(c: ContextView)
    ensures
        sent_only(c, Seq::empty(), c),
{
    assert(c.queue.items + Seq::<OutgoingView>::empty() =~= c.queue.items);
}

/// One more packet after others.
pub proof fn lemma_sent_one_more(
    a: ContextView,
    packets: Seq<OutgoingView>,
    b: ContextView,
    out: OutgoingView,
)
    requires
        sent_only(a, packets, b),
        has_room(a, packets.len() + 1),
        may_use(a, out.via, out.event),
    ensures
        sent_only(a, packets.push(out), b.after(out)),
        b.send_error(out.via, out.event) is None,
{
    assert(b.queue.items.push(out) =~= a.queue.items + packets.push(out));
}

/// A node's name as a number: its bytes as digits in base 31.
pub open spec fn name_number(bytes: Seq<u8>) -> nat
    decreases bytes.len(),
{
    if bytes.len() == 0 {
        0
    } else {
        name_number(bytes.drop_last()) * 31 + bytes.last() as nat
    }
}

/// What a number of 64 bits holds of a name's number.
proof fn lemma_phase(bytes: Seq<u8>)
    ensures
        crate::builtin::phase(bytes) == name_number(bytes) % 0x1_0000_0000_0000_0000,
    decreases bytes.len(),
{
    if bytes.len() > 0 {
        let m: int = 0x1_0000_0000_0000_0000;
        let front = bytes.drop_last();
        lemma_phase(front);
        let n = name_number(front) as int;
        let last = bytes.last() as int;
        vstd::arithmetic::div_mod::lemma_mul_mod_noop_left(n, 31, m);
        vstd::arithmetic::div_mod::lemma_add_mod_noop(n * 31, last, m);
        vstd::arithmetic::div_mod::lemma_small_mod(last as nat, m as nat);
        let x = (n * 31) % m;
        assert((x + last) % m == (n * 31 + last) % m);
        if x + last < m {
            vstd::arithmetic::div_mod::lemma_small_mod((x + last) as nat, m as nat);
        } else {
            vstd::arithmetic::div_mod::lemma_small_mod((x + last - m) as nat, m as nat);
            vstd::arithmetic::div_mod::lemma_mod_sub_multiples_vanish(x + last, m);
        }
    }
}

/// Whether it is the turn of the context's node in a schedule that repeats every `interval` ticks:
/// a node's turns lie as many ticks off the multiples of the interval as its name's number says.
pub open spec fn has_turn(c: ContextView, interval: u64) -> bool {
    let shift = name_number(vstd::utf8::encode_utf8(c.network.nodes[c.node].name))
        % 0x1_0000_0000_0000_0000;
    interval > 0 && (c.tick + shift) % (interval as int) == 0
}

/// Different multiples of a number are at least that number apart.
proof fn lemma_multiples_apart(x: int, y: int, n: int)
    requires
        n > 0,
        x % n == 0,
        y % n == 0,
        -n < x - y < n,
    ensures
        x == y,
{
    vstd::arithmetic::div_mod::lemma_fundamental_div_mod(x, n);
    vstd::arithmetic::div_mod::lemma_fundamental_div_mod(y, n);
    let (a, b) = (x / n, y / n);
    assert(a == b) by (nonlinear_arith)
        requires
            n > 0,
            x == n * a,
            y == n * b,
            -n < x - y < n,
    ;
}

/// Turns come once every interval, whatever the node is called: of as many ticks in a row as the
/// interval has, just one is the node's turn, and a whole interval later it is again.
pub proof fn law_turns_come_once_an_interval(name: Seq<char>, from: u64, interval: u64) -> (at: u64)
    requires
        interval > 0,
        from + interval <= u64::MAX,
    ensures
        from <= at < from + interval,
        crate::builtin::is_turn(name, at, interval),
        forall|t: u64|
            from <= t < from + interval && #[trigger] crate::builtin::is_turn(name, t, interval)
                ==> t == at,
        at + interval <= u64::MAX ==> crate::builtin::is_turn(
            name,
            (at + interval) as u64,
            interval,
        ),
{
    let p = crate::builtin::phase(vstd::utf8::encode_utf8(name)) as int;
    let n = interval as int;
    let r = (from + p) % n;
    let d = if r == 0 {
        0
    } else {
        n - r
    };
    let at = (from + d) as u64;
    let q = (from + p) / n;
    vstd::arithmetic::div_mod::lemma_fundamental_div_mod(from + p, n);
    vstd::arithmetic::div_mod::lemma_mod_bound(from + p, n);
    let k = if r == 0 {
        q
    } else {
        q + 1
    };
    assert(at + p == k * n) by (nonlinear_arith)
        requires
            from + p == n * q + r,
            at as int == from + d,
            r == 0 ==> d == 0 && k == q,
            r != 0 ==> d == n - r && k == q + 1,
    ;
    vstd::arithmetic::div_mod::lemma_mod_multiples_basic(k, n);
    assert forall|t: u64|
        from <= t < from + interval && #[trigger] crate::builtin::is_turn(
            name,
            t,
            interval,
        ) implies t == at by {
        let (x, y) = (t + p, at + p);
        lemma_multiples_apart(x, y, n);
    }
    assert(at + n + p == (k + 1) * n) by (nonlinear_arith)
        requires
            at + p == k * n,
    ;
    vstd::arithmetic::div_mod::lemma_mod_multiples_basic(k + 1, n);
    at
}

/// Nodes are spread across the interval by name: names that differ in their last byte only, and
/// there by less than the interval, never have their turn on the same tick, where the names are
/// short enough to be numbered exactly.
pub proof fn law_similar_names_take_turns(
    a: Seq<char>,
    b: Seq<char>,
    front: Seq<u8>,
    x: u8,
    y: u8,
    tick: u64,
    interval: u64,
)
    requires
        vstd::utf8::encode_utf8(a) == front.push(x),
        vstd::utf8::encode_utf8(b) == front.push(y),
        x < y < x + interval,
        name_number(front.push(y)) <= u64::MAX,
    ensures
        !(crate::builtin::is_turn(a, tick, interval) && crate::builtin::is_turn(b, tick, interval)),
{
    lemma_phase(front.push(x));
    lemma_phase(front.push(y));
    assert(front.push(x).drop_last() =~= front);
    assert(front.push(y).drop_last() =~= front);
    let n = interval as int;
    let (p, q) = (name_number(front.push(x)) as int, name_number(front.push(y)) as int);
    vstd::arithmetic::div_mod::lemma_small_mod(p as nat, 0x1_0000_0000_0000_0000);
    vstd::arithmetic::div_mod::lemma_small_mod(q as nat, 0x1_0000_0000_0000_0000);
    let (s, t) = (tick + p, tick + q);
    if s % n == 0 && t % n == 0 {
        lemma_multiples_apart(s, t, n);
    }
}

/// The pings a beacon sends.
proof fn lemma_pinged(c: ContextView, links: Seq<LinkId>, packets: Seq<OutgoingView>)
    requires
        ({
            let ping = EventView {
                kind: "ping"@,
                data: vstd::utf8::encode_utf8("t"@ + crate::text::decimal_text(c.tick as nat)),
            };
            &&& packets.len() == links.len()
            &&& has_room(c, links.len())
            &&& forall|i: int|
                0 <= i < links.len() ==> may_use(c, #[trigger] links[i], ping) && packets[i]
                    == own_packet(c, links[i], to_all(c.network.links[links[i]].name), ping)
        }),
    ensures
        sent_only(c, packets, c.pinged(links)),
    decreases links.len(),
{
    if links.len() == 0 {
        assert(packets =~= Seq::<OutgoingView>::empty());
        lemma_sent_nothing(c);
    } else {
        let front = links.drop_last();
        let some = packets.drop_last();
        assert forall|i: int| 0 <= i < front.len() implies #[trigger] front[i] == links[i]
            && some[i] == packets[i] by {}
        lemma_pinged(c, front, some);
        let last = links.len() - 1;
        assert(links[last] == links.last());
        assert(packets[last] == packets.last());
        lemma_sent_one_more(c, some, c.pinged(front), packets.last());
        assert(some.push(packets.last()) =~= packets);
    }
}

/// On its turn a beacon pings everyone on every link it is attached to: where it may send and
/// there is room, the queue grows by exactly one packet per link, in the links' order, each to
/// `*` on that link with an event of the kind `ping`. On every other tick it sends nothing.
pub proof fn law_beacons_ping_every_link(c: ContextView, interval: u64)
    requires
        c.network.nodes.contains_key(c.node),
    ensures
        ({
            let out = BehaviourView::Beacon(interval).reaction(CallView::Tick, c);
            let links = c.network.nodes[c.node].subscriptions;
            let ping = EventView {
                kind: "ping"@,
                data: vstd::utf8::encode_utf8("t"@ + crate::text::decimal_text(c.tick as nat)),
            };
            &&& out.behaviour == BehaviourView::Beacon(interval)
            &&& out.crash is None
            &&& has_turn(c, interval) && has_room(c, links.len()) && (forall|i: int|
                0 <= i < links.len() ==> may_use(c, #[trigger] links[i], ping)) ==> sent_only(
                c,
                Seq::new(
                    links.len(),
                    |i: int|
                        own_packet(c, links[i], to_all(c.network.links[links[i]].name), ping),
                ),
                out.context,
            )
            &&& interval > 0 && !has_turn(c, interval) ==> out.context == c
            &&& interval == 0 && c.tick > 0 ==> out.context == c
        }),
{
    let links = c.network.nodes[c.node].subscriptions;
    let ping = EventView {
        kind: "ping"@,
        data: vstd::utf8::encode_utf8("t"@ + crate::text::decimal_text(c.tick as nat)),
    };
    lemma_phase(vstd::utf8::encode_utf8(c.network.nodes[c.node].name));
    if has_turn(c, interval) && has_room(c, links.len()) && (forall|i: int|
        0 <= i < links.len() ==> may_use(c, #[trigger] links[i], ping)) {
        let packets = Seq::new(
            links.len(),
            |i: int| own_packet(c, links[i], to_all(c.network.links[links[i]].name), ping),
        );
        lemma_pinged(c, links, packets);
    }
}

/// The scans a scanner sends.
proof fn lemma_scanned(
    c: ContextView,
    bus: LinkId,
    targets: Seq<LinkId>,
    packets: Seq<OutgoingView>,
)
    requires
        ({
            let ping = EventView {
                kind: "ping"@,
                data: vstd::utf8::encode_utf8(
                    "scan t"@ + crate::text::decimal_text(c.tick as nat),
                ),
            };
            &&& packets.len() == targets.len()
            &&& has_room(c, targets.len())
            &&& may_use(c, bus, ping)
            &&& forall|i: int|
                0 <= i < targets.len() ==> c.network.links.contains_key(#[trigger] targets[i])
                    && packets[i] == own_packet(
                    c,
                    bus,
                    to_all(c.network.links[targets[i]].name),
                    ping,
                )
        }),
    ensures
        sent_only(c, packets, c.scanned(bus, targets)),
    decreases targets.len(),
{
    if targets.len() == 0 {
        assert(packets =~= Seq::<OutgoingView>::empty());
        lemma_sent_nothing(c);
    } else {
        let front = targets.drop_last();
        let some = packets.drop_last();
        assert forall|i: int| 0 <= i < front.len() implies #[trigger] front[i] == targets[i]
            && some[i] == packets[i] by {}
        lemma_scanned(c, bus, front, some);
        let last = targets.len() - 1;
        assert(targets[last] == targets.last());
        assert(packets[last] == packets.last());
        lemma_sent_one_more(c, some, c.scanned(bus, front), packets.last());
        assert(some.push(packets.last()) =~= packets);
    }
}

/// The first link of an owner is the one before which there is none.
proof fn lemma_first_owned(
    network: crate::graph::NetView,
    links: Seq<LinkId>,
    owner: NodeId,
    k: int,
)
    requires
        0 <= k < links.len(),
        network.links.contains_key(links[k]),
        network.links[links[k]].owner == Some(owner),
        forall|i: int|
            0 <= i < k ==> !network.links.contains_key(#[trigger] links[i])
                || network.links[links[i]].owner != Some(owner),
    ensures
        crate::builtin::first_owned(network, links, owner) == Some(links[k]),
    decreases links.len(),
{
    if k > 0 {
        let rest = links.drop_first();
        assert(!network.links.contains_key(links[0]) || network.links[links[0]].owner != Some(
            owner,
        ));
        assert forall|i: int| 0 <= i < k - 1 implies !network.links.contains_key(
            #[trigger] rest[i],
        ) || network.links[rest[i]].owner != Some(owner) by {
            assert(rest[i] == links[i + 1]);
        }
        assert(rest[k - 1] == links[k]);
        lemma_first_owned(network, rest, owner, k - 1);
    }
}

/// On its turn a scanner scans the networks its parent is on: over the first link it shares with
/// the parent as the owner, it sends one packet for each link that the parent is attached to, in
/// their order, to `*` on that link with an event of the kind `ping`. On every other tick it
/// sends nothing.
pub proof fn law_scanners_scan_the_parents_links(
    c: ContextView,
    interval: u64,
    parent: NodeId,
    k: int,
)
    requires
        c.network.inv(),
        c.network.nodes.contains_key(c.node),
        c.network.nodes[c.node].parent == Some(parent),
        0 <= k < c.network.nodes[c.node].subscriptions.len(),
        c.network.links[c.network.nodes[c.node].subscriptions[k]].owner == Some(parent),
        forall|i: int|
            0 <= i < k ==> c.network.links[#[trigger] c.network.nodes[c.node].subscriptions[i]].owner
                != Some(parent),
    ensures
        ({
            let out = BehaviourView::Scanner(interval).reaction(CallView::Tick, c);
            let bus = c.network.nodes[c.node].subscriptions[k];
            let targets = c.network.nodes[parent].subscriptions;
            let ping = EventView {
                kind: "ping"@,
                data: vstd::utf8::encode_utf8(
                    "scan t"@ + crate::text::decimal_text(c.tick as nat),
                ),
            };
            &&& out.behaviour == BehaviourView::Scanner(interval)
            &&& out.crash is None
            &&& has_turn(c, interval) && has_room(c, targets.len()) && may_use(c, bus, ping)
                ==> sent_only(
                c,
                Seq::new(
                    targets.len(),
                    |i: int|
                        own_packet(c, bus, to_all(c.network.links[targets[i]].name), ping),
                ),
                out.context,
            )
            &&& interval > 0 && !has_turn(c, interval) ==> out.context == c
            &&& interval == 0 && c.tick > 0 ==> out.context == c
        }),
{
    let links = c.network.nodes[c.node].subscriptions;
    let bus = links[k];
    let targets = c.network.nodes[parent].subscriptions;
    let ping = EventView {
        kind: "ping"@,
        data: vstd::utf8::encode_utf8("scan t"@ + crate::text::decimal_text(c.tick as nat)),
    };
    lemma_phase(vstd::utf8::encode_utf8(c.network.nodes[c.node].name));
    assert(links.contains(bus));
    assert(c.network.links.contains_key(bus));
    lemma_first_owned(c.network, links, parent, k);
    assert(c.network.nodes.contains_key(parent));
    assert forall|i: int| 0 <= i < targets.len() implies c.network.links.contains_key(
        #[trigger] targets[i],
    ) by {
        assert(c.network.nodes[parent].subscriptions.contains(targets[i]));
    }
    if has_turn(c, interval) && has_room(c, targets.len()) && may_use(c, bus, ping) {
        let packets = Seq::new(
            targets.len(),
            |i: int| own_packet(c, bus, to_all(c.network.links[targets[i]].name), ping),
        );
        lemma_scanned(c, bus, targets, packets);
    }
}

/// A packet on its way through a node: everything but the node and the link stays as it was.
pub open spec fn passed_on(
    c: ContextView,
    packet: PacketView,
    via: LinkId,
    from: Seq<HopView>,
    to: Seq<HopView>,
) -> OutgoingView {
    OutgoingView {
        sender: c.node,
        via,
        from,
        to,
        event: packet.event,
        ttl: packet.ttl,
        trace: packet.trace,
    }
}

/// What a bridge relays.
proof fn lemma_relayed_to(c: ContextView, packet: PacketView, links: Seq<LinkId>) -> (packets: Seq<
    OutgoingView,
>)
    requires
        has_room(c, links.len()),
        forall|i: int| 0 <= i < links.len() ==> may_use(c, #[trigger] links[i], packet.event),
        crate::lists::ascending(links),
    ensures
        sent_only(c, packets, c.relayed_to(packet, links)),
        packets.len() <= links.len(),
        forall|i: int|
            0 <= i < packets.len() ==> links.contains((#[trigger] packets[i]).via)
                && c.arrived_on != Some(packets[i].via) && packets[i] == passed_on(
                c,
                packet,
                packets[i].via,
                packet.from,
                packet.to,
            ),
        forall|i: int, j: int|
            0 <= i < j < packets.len() ==> (#[trigger] packets[i]).via.rank() < (
            #[trigger] packets[j]).via.rank(),
        forall|l: LinkId| #[trigger]
            links.contains(l) && c.arrived_on != Some(l) ==> exists|i: int|
                0 <= i < packets.len() && (#[trigger] packets[i]).via == l,
    decreases links.len(),
{
    if links.len() == 0 {
        lemma_sent_nothing(c);
        Seq::empty()
    } else {
        let front = links.drop_last();
        let last = links.last();
        assert(links[links.len() - 1] == last);
        assert forall|i: int| 0 <= i < front.len() implies #[trigger] front[i] == links[i] by {}
        assert(crate::lists::ascending(front));
        let some = lemma_relayed_to(c, packet, front);
        crate::lists::lemma_push_contains(front, last);
        assert(front.push(last) =~= links);
        if c.arrived_on == Some(last) {
            some
        } else {
            let out = passed_on(c, packet, last, packet.from, packet.to);
            lemma_sent_one_more(c, some, c.relayed_to(packet, front), out);
            let all = some.push(out);
            assert forall|i: int, j: int| 0 <= i < j < all.len() implies (
            #[trigger] all[i]).via.rank() < (#[trigger] all[j]).via.rank() by {
                if j == some.len() {
                    let l = some[i].via;
                    assert(all[i] == some[i]);
                    assert(front.contains(l));
                    let k = choose|k: int| 0 <= k < front.len() && front[k] == l;
                    assert(links[k].rank() < links[links.len() - 1].rank());
                } else {
                    assert(all[i] == some[i] && all[j] == some[j]);
                }
            }
            assert forall|l: LinkId| #[trigger] links.contains(l) && c.arrived_on != Some(
                l,
            ) implies exists|i: int| 0 <= i < all.len() && (#[trigger] all[i]).via == l by {
                if l == last {
                    assert(all[some.len() as int].via == l);
                } else {
                    assert(front.contains(l));
                    let i = choose|i: int| 0 <= i < some.len() && (#[trigger] some[i]).via == l;
                    assert(all[i].via == l);
                }
            }
            assert forall|i: int| 0 <= i < all.len() implies links.contains((#[trigger] all[i]).via)
                && c.arrived_on != Some(all[i].via) && all[i] == passed_on(
                c,
                packet,
                all[i].via,
                packet.from,
                packet.to,
            ) by {
                if i < some.len() {
                    assert(all[i] == some[i]);
                }
            }
            all
        }
    }
}

/// A bridge passes a packet to all the other links its node is on, unchanged: each of them, those
/// it is attached to and its own, gets it exactly once, the link it arrived on gets nothing, and
/// neither does any other.
pub proof fn law_bridges_pass_everything_on(c: ContextView, packet: PacketView) -> (packets: Seq<
    OutgoingView,
>)
    requires
        c.network.nodes.contains_key(c.node),
        forall|l: LinkId|
            c.network.nodes[c.node].subscriptions.contains(l)
                || c.network.nodes[c.node].internal_links.contains(l) ==> #[trigger] may_use(
                c,
                l,
                packet.event,
            ),
        has_room(
            c,
            c.network.nodes[c.node].subscriptions.len()
                + c.network.nodes[c.node].internal_links.len(),
        ),
    ensures
        ({
            let out = BehaviourView::Bridge.reaction(CallView::Received(packet), c);
            let node = c.network.nodes[c.node];
            &&& out.behaviour == BehaviourView::Bridge
            &&& out.crash is None
            &&& sent_only(c, packets, out.context)
            &&& forall|i: int|
                0 <= i < packets.len() ==> (node.subscriptions.contains(
                    (#[trigger] packets[i]).via,
                ) || node.internal_links.contains(packets[i].via)) && c.arrived_on != Some(
                    packets[i].via,
                ) && packets[i] == passed_on(c, packet, packets[i].via, packet.from, packet.to)
            &&& forall|i: int, j: int|
                0 <= i < j < packets.len() ==> (#[trigger] packets[i]).via != (
                #[trigger] packets[j]).via
            &&& forall|l: LinkId|
                (#[trigger] node.subscriptions.contains(l) || node.internal_links.contains(l))
                    && c.arrived_on != Some(l) ==> exists|i: int|
                    0 <= i < packets.len() && (#[trigger] packets[i]).via == l
        }),
        BehaviourView::Bridge.wants(packet),
{
    let node = c.network.nodes[c.node];
    let all = node.subscriptions + node.internal_links;
    let links = crate::lists::in_order(all);
    crate::lists::lemma_in_order(all);
    lemma_in_order_len(all);
    assert forall|l: LinkId| #[trigger] all.contains(l) <==> node.subscriptions.contains(l)
        || node.internal_links.contains(l) by {
        if node.subscriptions.contains(l) {
            let i = node.subscriptions.index_of(l);
            assert(all[i] == l);
        }
        if node.internal_links.contains(l) {
            let i = node.internal_links.index_of(l);
            assert(all[node.subscriptions.len() + i] == l);
        }
    }
    assert forall|i: int| 0 <= i < links.len() implies may_use(
        c,
        #[trigger] links[i],
        packet.event,
    ) by {
        assert(links.contains(links[i]));
        assert(all.contains(links[i]));
    }
    let packets = lemma_relayed_to(c, packet, links);
    assert forall|l: LinkId|
        (#[trigger] node.subscriptions.contains(l) || node.internal_links.contains(l))
            && c.arrived_on != Some(l) implies exists|i: int|
        0 <= i < packets.len() && (#[trigger] packets[i]).via == l by {
        assert(all.contains(l));
        assert(links.contains(l));
    }
    packets
}

/// Putting a list in order makes it no longer.
proof fn lemma_in_order_len<T: crate::lists::Handle>(s: Seq<T>)
    ensures
        crate::lists::in_order(s).len() <= s.len(),
    decreases s.len(),
{
    if s.len() > 0 {
        lemma_in_order_len(s.drop_last());
        lemma_placed_len(crate::lists::in_order(s.drop_last()), s.last());
    }
}

/// Putting one more in its place makes a list one longer at most.
proof fn lemma_placed_len<T: crate::lists::Handle>(s: Seq<T>, x: T)
    ensures
        crate::lists::placed(s, x).len() <= s.len() + 1,
    decreases s.len(),
{
    if s.len() > 0 {
        lemma_placed_len(s.drop_last(), x);
    }
}

/// The first link of a name is the one before which there is none.
proof fn lemma_first_named(c: ContextView, links: Seq<LinkId>, name: Seq<char>, k: int)
    requires
        0 <= k < links.len(),
        c.network.links.contains_key(links[k]),
        c.network.links[links[k]].name == name,
        forall|i: int|
            0 <= i < k ==> !c.network.links.contains_key(#[trigger] links[i])
                || c.network.links[links[i]].name != name,
    ensures
        c.first_named(links, name) == Some(links[k]),
    decreases links.len(),
{
    if k > 0 {
        let rest = links.drop_first();
        assert(!c.network.links.contains_key(links[0]) || c.network.links[links[0]].name != name);
        assert forall|i: int| 0 <= i < k - 1 implies !c.network.links.contains_key(
            #[trigger] rest[i],
        ) || c.network.links[rest[i]].name != name by {
            assert(rest[i] == links[i + 1]);
        }
        assert(rest[k - 1] == links[k]);
        lemma_first_named(c, rest, name, k - 1);
    }
}

/// Where no link has the name, none is found.
proof fn lemma_none_named(c: ContextView, links: Seq<LinkId>, name: Seq<char>)
    requires
        forall|i: int|
            0 <= i < links.len() ==> !c.network.links.contains_key(#[trigger] links[i])
                || c.network.links[links[i]].name != name,
    ensures
        c.first_named(links, name) is None,
    decreases links.len(),
{
    if links.len() > 0 {
        let rest = links.drop_first();
        assert(!c.network.links.contains_key(links[0]) || c.network.links[links[0]].name != name);
        assert forall|i: int| 0 <= i < rest.len() implies !c.network.links.contains_key(
            #[trigger] rest[i],
        ) || c.network.links[rest[i]].name != name by {
            assert(rest[i] == links[i + 1]);
        }
        lemma_none_named(c, rest, name);
    }
}

/// Whether a logic is a gateway that handles packets as gateways do: every gateway, and every
/// computer's kernel but for packets it overhears.
pub open spec fn is_gate(b: BehaviourView, c: ContextView) -> bool {
    b is Gateway || b is Kernel && c.accepted_by != Some(AcceptRule::Forced)
}

/// A gateway passes what its children send outside on: a packet that it accepted as the gateway
/// goes out once, over the first link it is attached to that has the name of the next hop's link,
/// or over the first of all for `?`. It stays on its way to the same place, with the gateway's
/// own hop put in front of the way back.
pub proof fn law_gateways_pass_packets_out(
    b: BehaviourView,
    c: ContextView,
    packet: PacketView,
    k: int,
)
    requires
        is_gate(b, c),
        c.network.inv(),
        c.network.nodes.contains_key(c.node),
        c.accepted_by == Some(AcceptRule::Gateway),
        0 <= k < c.network.nodes[c.node].subscriptions.len(),
        ({
            let links = c.network.nodes[c.node].subscriptions;
            let name = packet.to[0].link;
            if name == "?"@ {
                k == 0
            } else {
                c.network.links[links[k]].name == name && forall|i: int|
                    0 <= i < k ==> c.network.links[#[trigger] links[i]].name != name
            }
        }),
        has_room(c, 1),
        may_use(c, c.network.nodes[c.node].subscriptions[k], packet.event),
        packet.from.len() < 8,
    ensures
        ({
            let out = b.reaction(CallView::Received(packet), c);
            let via = c.network.nodes[c.node].subscriptions[k];
            let me = HopView {
                node: c.network.nodes[c.node].name,
                link: c.network.links[via].name,
            };
            &&& out.crash is None
            &&& sent_only(
                c,
                seq![passed_on(c, packet, via, seq![me] + packet.from, packet.to)],
                out.context,
            )
        }),
{
    let links = c.network.nodes[c.node].subscriptions;
    let via = links[k];
    let me = HopView { node: c.network.nodes[c.node].name, link: c.network.links[via].name };
    assert(links.contains(via));
    if packet.to[0].link != "?"@ {
        assert forall|i: int| 0 <= i < k implies !c.network.links.contains_key(#[trigger] links[i])
            || c.network.links[links[i]].name != packet.to[0].link by {}
        lemma_first_named(c, links, packet.to[0].link, k);
    }
    let out = passed_on(c, packet, via, seq![me] + packet.from, packet.to);
    lemma_sent_nothing(c);
    lemma_sent_one_more(c, Seq::empty(), c, out);
    assert(Seq::<OutgoingView>::empty().push(out) =~= seq![out]);
}

/// A gateway passes what is for its inside on: a packet that it accepted by name and that has
/// further hops goes in once, over the first of its own links that has the name of the next hop's
/// link, with the gateway's own hop taken off and the way back left alone.
pub proof fn law_gateways_pass_packets_in(
    b: BehaviourView,
    c: ContextView,
    packet: PacketView,
    k: int,
)
    requires
        is_gate(b, c),
        c.network.inv(),
        c.network.nodes.contains_key(c.node),
        c.accepted_by == Some(AcceptRule::Addressed),
        packet.to.len() > 1,
        0 <= k < c.network.nodes[c.node].internal_links.len(),
        ({
            let links = c.network.nodes[c.node].internal_links;
            c.network.links[links[k]].name == packet.to[1].link && forall|i: int|
                0 <= i < k ==> c.network.links[#[trigger] links[i]].name != packet.to[1].link
        }),
        has_room(c, 1),
        may_use(c, c.network.nodes[c.node].internal_links[k], packet.event),
    ensures
        ({
            let out = b.reaction(CallView::Received(packet), c);
            let via = c.network.nodes[c.node].internal_links[k];
            &&& out.crash is None
            &&& sent_only(
                c,
                seq![passed_on(c, packet, via, packet.from, packet.to.skip(1))],
                out.context,
            )
        }),
{
    let links = c.network.nodes[c.node].internal_links;
    let via = links[k];
    assert(links.contains(via));
    let next = packet.to.drop_first();
    assert(next =~= packet.to.skip(1));
    assert(next[0] == packet.to[1]);
    assert forall|i: int| 0 <= i < k implies !c.network.links.contains_key(#[trigger] links[i])
        || c.network.links[links[i]].name != next[0].link by {}
    lemma_first_named(c, links, next[0].link, k);
    let out = passed_on(c, packet, via, packet.from, next);
    lemma_sent_nothing(c);
    lemma_sent_one_more(c, Seq::empty(), c, out);
    assert(Seq::<OutgoingView>::empty().push(out) =~= seq![out]);
}

/// A gateway sends nothing where there is no way on: it accepted the packet as the gateway and is
/// attached to no link of the name, or it was addressed with further hops and owns none.
pub proof fn law_gateways_send_nothing_without_a_way(
    b: BehaviourView,
    c: ContextView,
    packet: PacketView,
)
    requires
        is_gate(b, c),
        c.network.nodes.contains_key(c.node),
        ({
            ||| c.accepted_by == Some(AcceptRule::Gateway) && packet.to[0].link != "?"@ && forall|
                l: LinkId,
            |
                c.network.nodes[c.node].subscriptions.contains(l) && (
                #[trigger] c.network.links.contains_key(l)) ==> c.network.links[l].name
                    != packet.to[0].link
            ||| c.accepted_by == Some(AcceptRule::Addressed) && packet.to.len() > 1 && forall|
                l: LinkId,
            |
                c.network.nodes[c.node].internal_links.contains(l) && (
                #[trigger] c.network.links.contains_key(l)) ==> c.network.links[l].name
                    != packet.to[1].link
        }),
    ensures
        b.reaction(CallView::Received(packet), c).context.queue == c.queue,
        b.reaction(CallView::Received(packet), c).crash is None,
{
    let node = c.network.nodes[c.node];
    if c.accepted_by == Some(AcceptRule::Gateway) {
        let links = node.subscriptions;
        assert forall|i: int| 0 <= i < links.len() implies !c.network.links.contains_key(
            #[trigger] links[i],
        ) || c.network.links[links[i]].name != packet.to[0].link by {
            assert(links.contains(links[i]));
        }
        lemma_none_named(c, links, packet.to[0].link);
    } else {
        let links = node.internal_links;
        let next = packet.to.drop_first();
        assert(next[0] == packet.to[1]);
        assert forall|i: int| 0 <= i < links.len() implies !c.network.links.contains_key(
            #[trigger] links[i],
        ) || c.network.links[links[i]].name != next[0].link by {
            assert(links.contains(links[i]));
        }
        lemma_none_named(c, links, next[0].link);
    }
}

/// Whether a logic answers this packet as most do, where it is a ping: responders, beacons and
/// scanners always, gateways and kernels where the packet is not theirs to pass on.
pub open spec fn is_answering(b: BehaviourView, c: ContextView, packet: PacketView) -> bool {
    ||| b is Responder || b is Beacon || b is Scanner
    ||| is_gate(b, c) && c.accepted_by != Some(AcceptRule::Gateway) && !(c.accepted_by == Some(
        AcceptRule::Addressed,
    ) && packet.to.len() > 1)
}

/// A `ping` is answered with a `pong`, exactly once: to where the ping came from, over the link it
/// arrived on, with the ping's data. Anything else is not answered at all.
pub proof fn law_pings_and_only_pings_are_answered(
    b: BehaviourView,
    c: ContextView,
    packet: PacketView,
    via: LinkId,
)
    requires
        is_answering(b, c, packet),
        c.arrived_on == Some(via),
    ensures
        ({
            let out = b.reaction(CallView::Received(packet), c);
            let pong = EventView { kind: "pong"@, data: packet.event.data };
            &&& out.crash is None
            &&& packet.event.kind == "ping"@ && may_use(c, via, pong) && has_room(c, 1)
                ==> sent_only(c, seq![own_packet(c, via, packet.from, pong)], out.context)
            &&& packet.event.kind != "ping"@ ==> out.context == c
        }),
{
    let pong = EventView { kind: "pong"@, data: packet.event.data };
    if packet.event.kind == "ping"@ && may_use(c, via, pong) && has_room(c, 1) {
        let out = own_packet(c, via, packet.from, pong);
        lemma_sent_nothing(c);
        lemma_sent_one_more(c, Seq::empty(), c, out);
        assert(Seq::<OutgoingView>::empty().push(out) =~= seq![out]);
    }
}

/// The same packet, over and over.
proof fn lemma_repeated(c: ContextView, via: LinkId, to: Seq<HopView>, event: EventView, n: nat)
    requires
        has_room(c, n),
        may_use(c, via, event),
    ensures
        sent_only(
            c,
            Seq::new(n, |i: int| own_packet(c, via, to, event)),
            c.repeated(via, to, event, n),
        ),
    decreases n,
{
    let packets = Seq::new(n, |i: int| own_packet(c, via, to, event));
    if n == 0 {
        assert(packets =~= Seq::<OutgoingView>::empty());
        lemma_sent_nothing(c);
    } else {
        let m = (n - 1) as nat;
        let some = Seq::new(m, |i: int| own_packet(c, via, to, event));
        lemma_repeated(c, via, to, event, m);
        let out = own_packet(c, via, to, event);
        lemma_sent_one_more(c, some, c.repeated(via, to, event, m), out);
        assert(some.push(out) =~= packets);
    }
}

/// What the misbehaving logics do for a packet, where they may send and there is room: an echo
/// answers it with its own event, an amplifier broadcasts fifty pings on the link it came over, a
/// flooder and a replayer send nothing yet, and a crasher crashes.
pub proof fn law_faulty_logics_react(
    c: ContextView,
    packet: PacketView,
    via: LinkId,
    stuck: Option<crate::faulty::ReplayView>,
)
    requires
        c.arrived_on == Some(via),
        may_use(c, via, packet.event),
        may_use(c, via, EventView { kind: "ping"@, data: Seq::empty() }),
        has_room(c, 50),
    ensures
        ({
            let call = CallView::Received(packet);
            let echo = BehaviourView::Echo.reaction(call, c);
            let amplifier = BehaviourView::Amplifier.reaction(call, c);
            let flooder = BehaviourView::Flooder.reaction(call, c);
            let crasher = BehaviourView::Crasher.reaction(call, c);
            let replayer = BehaviourView::Replayer(stuck).reaction(call, c);
            &&& echo.crash is None && sent_only(
                c,
                seq![own_packet(c, via, packet.from, packet.event)],
                echo.context,
            )
            &&& amplifier.crash is None && sent_only(
                c,
                Seq::new(
                    50,
                    |i: int|
                        own_packet(
                            c,
                            via,
                            to_all(c.network.links[via].name),
                            EventView { kind: "ping"@, data: Seq::empty() },
                        ),
                ),
                amplifier.context,
            )
            &&& flooder.crash is None && flooder.context == c
            &&& crasher.crash is Some && crasher.context == c
            &&& replayer.crash is None && replayer.context == c
            // A replayer sticks to the first packet it got, and remembers where it came from.
            &&& replayer.behaviour == BehaviourView::Replayer(
                Some(
                    match stuck {
                        Some(first) => first,
                        None => crate::faulty::ReplayView {
                            via,
                            to: packet.from,
                            event: packet.event,
                        },
                    },
                ),
            )
        }),
{
    let out = own_packet(c, via, packet.from, packet.event);
    lemma_sent_nothing(c);
    lemma_sent_one_more(c, Seq::empty(), c, out);
    assert(Seq::<OutgoingView>::empty().push(out) =~= seq![out]);
    lemma_repeated(
        c,
        via,
        to_all(c.network.links[via].name),
        EventView { kind: "ping"@, data: Seq::empty() },
        50,
    );
}

/// What the misbehaving logics do on a tick, where they may send and there is room: a flooder
/// broadcasts a thousand packets on the first link it is attached to, and a replayer sends the
/// packet it is stuck on four times, back to where it came from; a replayer that got none and the
/// others send nothing.
pub proof fn law_faulty_logics_tick(c: ContextView, stuck: crate::faulty::ReplayView)
    requires
        c.network.nodes.contains_key(c.node),
        c.network.nodes[c.node].subscriptions.len() > 0,
        may_use(
            c,
            c.network.nodes[c.node].subscriptions[0],
            EventView { kind: "noise"@, data: Seq::empty() },
        ),
        may_use(c, stuck.via, stuck.event),
        has_room(c, 1_000),
    ensures
        ({
            let first = c.network.nodes[c.node].subscriptions[0];
            let flooder = BehaviourView::Flooder.reaction(CallView::Tick, c);
            let replayer = BehaviourView::Replayer(Some(stuck)).reaction(CallView::Tick, c);
            let waiting = BehaviourView::Replayer(None).reaction(CallView::Tick, c);
            &&& flooder.crash is None && sent_only(
                c,
                Seq::new(
                    1_000,
                    |i: int|
                        own_packet(
                            c,
                            first,
                            to_all(c.network.links[first].name),
                            EventView { kind: "noise"@, data: Seq::empty() },
                        ),
                ),
                flooder.context,
            )
            &&& replayer.crash is None && replayer.behaviour == BehaviourView::Replayer(
                Some(stuck),
            ) && sent_only(
                c,
                Seq::new(4, |i: int| own_packet(c, stuck.via, stuck.to, stuck.event)),
                replayer.context,
            )
            &&& waiting.crash is None && waiting.context == c
            &&& BehaviourView::Echo.reaction(CallView::Tick, c).context == c
            &&& BehaviourView::Amplifier.reaction(CallView::Tick, c).context == c
            &&& BehaviourView::Crasher.reaction(CallView::Tick, c).context == c
            &&& BehaviourView::Crasher.reaction(CallView::Tick, c).crash is None
        }),
{
    let first = c.network.nodes[c.node].subscriptions[0];
    lemma_repeated(
        c,
        first,
        to_all(c.network.links[first].name),
        EventView { kind: "noise"@, data: Seq::empty() },
        1_000,
    );
    lemma_repeated(c, stuck.via, stuck.to, stuck.event, 4);
}

/// Logics that are not asked to do anything do nothing: those that only answer stay quiet on a
/// tick, and none of the crate's own does anything on its start.
pub proof fn law_quiet_logics_stay_quiet(b: BehaviourView, c: ContextView)
    requires
        b !is Custom,
    ensures
        b.reaction(CallView::Start, c).context == c,
        b.reaction(CallView::Start, c).behaviour == b,
        b.reaction(CallView::Start, c).crash is None,
        b is Responder || b is Gateway || b is Bridge || b is Kernel ==> b.reaction(
            CallView::Tick,
            c,
        ).context == c && b.reaction(CallView::Tick, c).behaviour == b && b.reaction(
            CallView::Tick,
            c,
        ).crash is None,
{
}

/// What a logic is called is what it is asked for by: a name gives a logic of that kind, the ten
/// names that there are give one each, and no other name does. Bridges alone flood and want every
/// packet; gateways and computers' kernels alone follow routes; of the rest only a kernel with a
/// promiscuous card wants more than the standard rules give it.
pub proof fn law_logics_are_what_their_names_say(
    kind: Seq<char>,
    b: BehaviourView,
    packet: PacketView,
)
    requires
        b !is Custom,
    ensures
        crate::behaviour::engine_logic(kind) matches Some(logic) ==> logic.kind() == kind,
        crate::behaviour::engine_logic(kind) is Some <==> kind == "responder"@ || kind
            == "gateway"@ || kind == "beacon"@ || kind == "scanner"@ || kind == "bridge"@ || kind
            == "echo"@ || kind == "replayer"@ || kind == "amplifier"@ || kind == "flooder"@ || kind
            == "crasher"@,
        crate::behaviour::engine_logic("beacon"@) == Some(BehaviourView::Beacon(24)),
        crate::behaviour::engine_logic("scanner"@) == Some(BehaviourView::Scanner(40)),
        crate::behaviour::engine_logic("replayer"@) == Some(BehaviourView::Replayer(None)),
        b is Responder ==> b.kind() == "responder"@,
        b is Gateway ==> b.kind() == "gateway"@,
        b is Beacon ==> b.kind() == "beacon"@,
        b is Scanner ==> b.kind() == "scanner"@,
        b is Bridge ==> b.kind() == "bridge"@,
        b is Echo ==> b.kind() == "echo"@,
        b is Replayer ==> b.kind() == "replayer"@,
        b is Amplifier ==> b.kind() == "amplifier"@,
        b is Flooder ==> b.kind() == "flooder"@,
        b is Crasher ==> b.kind() == "crasher"@,
        b is Kernel ==> b.kind() == "kernel"@,
        b is Npc ==> b.kind() == "npc"@,
        b.relaying() == Relaying::Flooding <==> b is Bridge,
        b.relaying() == Relaying::Routed <==> b is Gateway || b is Kernel,
        b.wants(packet) <==> b is Bridge || (b matches BehaviourView::Kernel(k) && k.promiscuous),
{
    reveal_strlit("responder");
    reveal_strlit("gateway");
    reveal_strlit("beacon");
    reveal_strlit("scanner");
    reveal_strlit("bridge");
    reveal_strlit("echo");
    reveal_strlit("replayer");
    reveal_strlit("amplifier");
    reveal_strlit("flooder");
    reveal_strlit("crasher");
    assert("beacon"@[0] == 'b' && "bridge"@[1] == 'r' && "beacon"@[1] == 'e');
    assert("responder"@.len() == 9 && "replayer"@.len() == 8 && "amplifier"@[0] == 'a');
    assert("gateway"@.len() == 7 && "scanner"@.len() == 7 && "flooder"@.len() == 7
        && "crasher"@.len() == 7);
    assert("gateway"@[0] == 'g' && "scanner"@[0] == 's' && "flooder"@[0] == 'f' && "crasher"@[0]
        == 'c' && "responder"@[0] == 'r');
}

/// The context with one more note of the node's in the trace.
pub open spec fn with_note(c: ContextView, text: Seq<char>) -> ContextView {
    ContextView {
        log: c.log.push(
            crate::trace::TraceView::Note { tick: c.tick, node: c.node, text },
        ),
        ..c
    }
}

/// A send that fails is not lost silently: nothing is queued, and the node notes what failed and
/// why. A pong that cannot be sent is noted so, as is an echo, and one that there is nothing to
/// reply to.
pub proof fn law_failed_replies_are_noted(
    b: BehaviourView,
    c: ContextView,
    packet: PacketView,
    via: LinkId,
)
    requires
        b is Responder || b is Beacon || b is Scanner || b is Echo,
        packet.event.kind == "ping"@,
    ensures
        ({
            let out = b.reaction(CallView::Received(packet), c).context;
            let event = if b is Echo {
                packet.event
            } else {
                EventView { kind: "pong"@, data: packet.event.data }
            };
            let what = if b is Echo {
                "echo"@
            } else {
                "pong"@
            };
            &&& c.arrived_on is None ==> out == with_note(
                c,
                what + " failed: there is no received packet to reply to"@,
            )
            &&& c.arrived_on == Some(via) && !may_use(c, via, event) ==> c.send_error(
                via,
                event,
            ) is Some && out == with_note(
                c,
                what + " failed: "@ + c.send_error(via, event)->0.text(),
            )
            &&& c.arrived_on == Some(via) && may_use(c, via, event) && !has_room(c, 1)
                ==> out.queue.items == c.queue.items && out.log == with_note(
                c,
                what + " failed: the send queue is full"@,
            ).log
        }),
{
    let event = if b is Echo {
        packet.event
    } else {
        EventView { kind: "pong"@, data: packet.event.data }
    };
    let what = if b is Echo {
        "echo"@
    } else {
        "pong"@
    };
    law_sends_are_queued_where_allowed(c, via, packet.from, event);
    lemma_words(what);
}

/// How words are put together.
proof fn lemma_words(what: Seq<char>)
    ensures
        what + " failed: "@ + "there is no received packet to reply to"@ == what
            + " failed: there is no received packet to reply to"@,
        what + " failed: "@ + "the send queue is full"@ == what
            + " failed: the send queue is full"@,
{
    reveal_strlit(" failed: ");
    reveal_strlit("there is no received packet to reply to");
    reveal_strlit(" failed: there is no received packet to reply to");
    reveal_strlit("the send queue is full");
    reveal_strlit(" failed: the send queue is full");
    assert(" failed: "@ + "there is no received packet to reply to"@
        =~= " failed: there is no received packet to reply to"@);
    assert(" failed: "@ + "the send queue is full"@ =~= " failed: the send queue is full"@);
    assert(what + " failed: "@ + "there is no received packet to reply to"@ =~= what + (
    " failed: "@ + "there is no received packet to reply to"@));
    assert(what + " failed: "@ + "the send queue is full"@ =~= what + (" failed: "@
        + "the send queue is full"@));
}

/// A gateway that finds no way on for a packet notes so, with the route it could not serve; and a
/// scanner that shares no bus with its parent notes that on its turn.
pub proof fn law_missing_ways_are_noted(
    b: BehaviourView,
    c: ContextView,
    packet: PacketView,
    interval: u64,
)
    requires
        is_gate(b, c),
        c.network.nodes.contains_key(c.node),
    ensures
        ({
            let node = c.network.nodes[c.node];
            let out = b.reaction(CallView::Received(packet), c).context;
            &&& c.accepted_by == Some(AcceptRule::Gateway) && packet.to[0].link != "?"@ && (forall|
                l: LinkId,
            |
                node.subscriptions.contains(l) && (#[trigger] c.network.links.contains_key(l))
                    ==> c.network.links[l].name != packet.to[0].link) ==> out == with_note(
                c,
                "no way out to "@ + crate::route::route_text(packet.to),
            )
            &&& c.accepted_by == Some(AcceptRule::Addressed) && packet.to.len() > 1 && (forall|
                l: LinkId,
            |
                node.internal_links.contains(l) && (#[trigger] c.network.links.contains_key(l))
                    ==> c.network.links[l].name != packet.to[1].link) ==> out == with_note(
                c,
                "no internal link for "@ + crate::route::route_text(packet.to.skip(1)),
            )
            &&& has_turn(c, interval) && node.parent is Some && (forall|l: LinkId|
                node.subscriptions.contains(l) && (#[trigger] c.network.links.contains_key(l))
                    ==> c.network.links[l].owner != node.parent) ==> BehaviourView::Scanner(
                interval,
            ).reaction(CallView::Tick, c).context == with_note(c, "no bus to the parent"@)
        }),
{
    let node = c.network.nodes[c.node];
    let subs = node.subscriptions;
    let own = node.internal_links;
    if c.accepted_by == Some(AcceptRule::Gateway) && packet.to[0].link != "?"@ && (forall|l: LinkId|
        subs.contains(l) && (#[trigger] c.network.links.contains_key(l)) ==> c.network.links[l].name
            != packet.to[0].link) {
        assert forall|i: int| 0 <= i < subs.len() implies !c.network.links.contains_key(
            #[trigger] subs[i],
        ) || c.network.links[subs[i]].name != packet.to[0].link by {
            assert(subs.contains(subs[i]));
        }
        lemma_none_named(c, subs, packet.to[0].link);
    }
    if packet.to.len() > 1 && (forall|l: LinkId|
        own.contains(l) && (#[trigger] c.network.links.contains_key(l)) ==> c.network.links[l].name
            != packet.to[1].link) {
        let next = packet.to.drop_first();
        assert(next =~= packet.to.skip(1));
        assert(next[0] == packet.to[1]);
        assert forall|i: int| 0 <= i < own.len() implies !c.network.links.contains_key(
            #[trigger] own[i],
        ) || c.network.links[own[i]].name != next[0].link by {
            assert(own.contains(own[i]));
        }
        lemma_none_named(c, own, next[0].link);
    }
    lemma_phase(vstd::utf8::encode_utf8(node.name));
    if let Some(parent) = node.parent {
        if forall|l: LinkId|
            subs.contains(l) && (#[trigger] c.network.links.contains_key(l))
                ==> c.network.links[l].owner != node.parent {
            lemma_none_owned(c.network, subs, parent);
        }
    }
}

/// Where the owner has none of the links, none is found.
proof fn lemma_none_owned(network: crate::graph::NetView, links: Seq<LinkId>, owner: NodeId)
    requires
        forall|l: LinkId|
            links.contains(l) && (#[trigger] network.links.contains_key(l))
                ==> network.links[l].owner != Some(owner),
    ensures
        crate::builtin::first_owned(network, links, owner) is None,
    decreases links.len(),
{
    if links.len() > 0 {
        let rest = links.drop_first();
        assert(links.contains(links[0]));
        assert forall|l: LinkId|
            rest.contains(l) && (
            #[trigger] network.links.contains_key(l)) implies network.links[l].owner != Some(
            owner,
        ) by {
            let i = choose|i: int| 0 <= i < rest.len() && rest[i] == l;
            assert(links[i + 1] == l);
        }
        lemma_none_owned(network, rest, owner);
    }
}

} // verus!
