//! What holds of everything the monitor reports.

use vstd::prelude::*;

use crate::ids::{LinkId, NodeId};
use crate::logic::Relaying;
use crate::monitor::{AlertView, Check, Survey, Threshold, Watch};

verus! {

/// The same alert is not raised twice within the cooldown: raising it again at the same or lower
/// severity changes nothing.
pub proof fn law_alerts_are_not_repeated(w: Watch, a: AlertView, b: AlertView)
    requires
        !w.monitor.suppresses(a),
        b.check == a.check,
        b.subject == a.subject,
        a.severity.covers(b.severity),
        crate::monitor::elapsed(b.tick, a.tick) < w.monitor.config.cooldown,
    ensures
        w.raise(a).raise(b) == w.raise(a),
{
}

/// An alert that is worse than the last one, or comes when the cooldown is over, always gets
/// through: it is counted, recorded, and the latest one of its check from then on.
pub proof fn law_new_alerts_get_through(w: Watch, a: AlertView)
    requires
        !w.monitor.fired.contains_key((a.check, a.subject)) || !w.monitor.fired[(
            a.check,
            a.subject,
        )].1.covers(a.severity) || crate::monitor::elapsed(
            a.tick,
            w.monitor.fired[(a.check, a.subject)].0,
        ) >= w.monitor.config.cooldown,
    ensures
        w.raise(a).log == w.log.push(crate::trace::TraceView::Alert(a)),
        w.raise(a).monitor.alerts_raised == crate::trace::bump(w.monitor.alerts_raised),
        w.raise(a).monitor.latest == w.monitor.latest.insert(a.check, a),
{
}

/// A threshold with both levels off is never reached.
pub proof fn law_disabled_thresholds_never_alert(t: Threshold, value: u64)
    requires
        t.warn == 0,
        t.error == 0,
    ensures
        t.judged(value) is None,
{
}

/// Alerts that explain a tripped fuse are listed oldest first.
pub proof fn law_recent_alerts_are_oldest_first(
    latest: Map<Check, AlertView>,
    since: u64,
    n: nat,
    i: int,
    j: int,
)
    requires
        0 <= i < j < crate::monitor::recent(latest, since, n).len(),
    ensures
        crate::monitor::recent(latest, since, n)[i].tick <= crate::monitor::recent(
            latest,
            since,
            n,
        )[j].tick,
{
    lemma_recent(latest, since, n);
}

/// The alerts that explain a tripped fuse are exactly the latest ones of each check since then.
pub proof fn law_recent_alerts_are_complete(latest: Map<Check, AlertView>, since: u64, a: AlertView)
    ensures
        crate::monitor::recent(latest, since, crate::monitor::CHECKS as nat).contains(a) <==> exists|
            c: Check,
        |
            #[trigger] latest.contains_key(c) && latest[c] == a && a.tick >= since,
{
    let all = crate::monitor::recent(latest, since, crate::monitor::CHECKS as nat);
    lemma_recent(latest, since, crate::monitor::CHECKS as nat);
    if all.contains(a) {
        let k = choose|k: int|
            0 <= k < crate::monitor::CHECKS && latest.contains_key(crate::monitor::check_at(k))
                && #[trigger] latest[crate::monitor::check_at(k)] == a && a.tick >= since;
        assert(latest.contains_key(crate::monitor::check_at(k)));
    }
    if exists|c: Check| #[trigger] latest.contains_key(c) && latest[c] == a && a.tick >= since {
        let c = choose|c: Check| #[trigger]
            latest.contains_key(c) && latest[c] == a && a.tick >= since;
        let k: int = match c {
            Check::NetworkRate => 0,
            Check::LinkRate => 1,
            Check::NodeRate => 2,
            Check::TtlExpired => 3,
            Check::RelayCycle => 4,
            Check::Replay => 5,
            Check::Amplification => 6,
            Check::LogicPanicked => 7,
        };
        assert(crate::monitor::check_at(k) == c);
        assert(latest[crate::monitor::check_at(k)] == a);
    }
}

/// Whether the ticks never go down along the list.
pub open spec fn oldest_first(s: Seq<AlertView>) -> bool {
    forall|i: int, j: int|
        0 <= i < j < s.len() ==> (#[trigger] s[i]).tick <= (#[trigger] s[j]).tick
}

/// Putting an alert in its place keeps the order and adds just that alert.
proof fn lemma_slotted(s: Seq<AlertView>, a: AlertView)
    requires
        oldest_first(s),
    ensures
        oldest_first(crate::monitor::slotted(s, a)),
        forall|x: AlertView| #[trigger]
            crate::monitor::slotted(s, a).contains(x) <==> s.contains(x) || x == a,
    decreases s.len(),
{
    let r = crate::monitor::slotted(s, a);
    if s.len() == 0 || s.last().tick <= a.tick {
        crate::lists::lemma_push_contains(s, a);
        assert forall|i: int, j: int| 0 <= i < j < r.len() implies (#[trigger] r[i]).tick <= (
        #[trigger] r[j]).tick by {
            if j == s.len() && i < s.len() - 1 {
                assert(s[i].tick <= s[s.len() - 1].tick);
            }
        }
    } else {
        let front = s.drop_last();
        assert(oldest_first(front)) by {
            assert forall|i: int, j: int| 0 <= i < j < front.len() implies (
            #[trigger] front[i]).tick <= (#[trigger] front[j]).tick by {
                assert(s[i].tick <= s[j].tick);
            }
        }
        lemma_slotted(front, a);
        let rf = crate::monitor::slotted(front, a);
        crate::lists::lemma_push_contains(rf, s.last());
        crate::lists::lemma_push_contains(front, s.last());
        assert(front.push(s.last()) =~= s);
        assert forall|i: int, j: int| 0 <= i < j < r.len() implies (#[trigger] r[i]).tick <= (
        #[trigger] r[j]).tick by {
            if j == rf.len() {
                assert(rf.contains(rf[i]));
                if front.contains(rf[i]) {
                    let k = choose|k: int| 0 <= k < front.len() && front[k] == rf[i];
                    assert(s[k].tick <= s[s.len() - 1].tick);
                }
            } else {
                assert(rf[i].tick <= rf[j].tick);
            }
        }
    }
}

/// The recent alerts are in order, and are those of the checks that have one.
proof fn lemma_recent(latest: Map<Check, AlertView>, since: u64, n: nat)
    ensures
        oldest_first(crate::monitor::recent(latest, since, n)),
        forall|a: AlertView| #[trigger]
            crate::monitor::recent(latest, since, n).contains(a) <==> exists|k: int|
                0 <= k < n && latest.contains_key(crate::monitor::check_at(k))
                    && #[trigger] latest[crate::monitor::check_at(k)] == a && a.tick >= since,
    decreases n,
{
    let r = crate::monitor::recent(latest, since, n);
    if n > 0 {
        let m = (n - 1) as nat;
        lemma_recent(latest, since, m);
        let rest = crate::monitor::recent(latest, since, m);
        let c = crate::monitor::check_at(n - 1);
        let fits = latest.contains_key(c) && latest[c].tick >= since;
        if fits {
            lemma_slotted(rest, latest[c]);
        }
        assert forall|a: AlertView| #[trigger] r.contains(a) <==> exists|k: int|
            0 <= k < n && latest.contains_key(crate::monitor::check_at(k))
                && #[trigger] latest[crate::monitor::check_at(k)] == a && a.tick >= since by {
            if r.contains(a) {
                if rest.contains(a) {
                    let k = choose|k: int|
                        0 <= k < m && latest.contains_key(crate::monitor::check_at(k))
                            && #[trigger] latest[crate::monitor::check_at(k)] == a && a.tick
                            >= since;
                    assert(latest[crate::monitor::check_at(k)] == a);
                } else {
                    assert(latest[crate::monitor::check_at(n - 1)] == a);
                }
            }
            if exists|k: int|
                0 <= k < n && latest.contains_key(crate::monitor::check_at(k))
                    && #[trigger] latest[crate::monitor::check_at(k)] == a && a.tick >= since {
                let k = choose|k: int|
                    0 <= k < n && latest.contains_key(crate::monitor::check_at(k))
                        && #[trigger] latest[crate::monitor::check_at(k)] == a && a.tick >= since;
                if k < m {
                    assert(latest[crate::monitor::check_at(k)] == a);
                    assert(rest.contains(a));
                }
            }
        }
    }
}

/// Gateways alone are never a relay loop: without a flooding node there is no cycle to report.
pub proof fn law_gateways_alone_never_loop(
    network: crate::graph::NetView,
    tick: u64,
    modes: Seq<(NodeId, Relaying)>,
)
    requires
        forall|i: int| 0 <= i < modes.len() ==> (#[trigger] modes[i]).1 != Relaying::Flooding,
    ensures
        crate::monitor::cycles(network, tick, modes) == Seq::<AlertView>::empty(),
{
    lemma_nothing_surveyed(
        Survey {
            joints: crate::monitor::routed_joints(network, modes),
            alerts: Seq::empty(),
        },
        network,
        tick,
        modes,
    );
}

proof fn lemma_nothing_surveyed(
    s: Survey,
    network: crate::graph::NetView,
    tick: u64,
    modes: Seq<(NodeId, Relaying)>,
)
    requires
        forall|i: int| 0 <= i < modes.len() ==> (#[trigger] modes[i]).1 != Relaying::Flooding,
    ensures
        s.surveyed(network, tick, modes) == s,
    decreases modes.len(),
{
    if modes.len() > 0 {
        let front = modes.drop_last();
        assert forall|i: int| 0 <= i < front.len() implies (#[trigger] front[i]).1
            != Relaying::Flooding by {
            assert(modes[i].1 != Relaying::Flooding);
        }
        lemma_nothing_surveyed(s, network, tick, front);
        assert(modes[modes.len() - 1].1 != Relaying::Flooding);
    }
}

/// A link is linked with itself.
proof fn lemma_linked_self(joints: Seq<(LinkId, LinkId)>, a: LinkId)
    ensures
        crate::link_sets::linked(joints, a, a),
    decreases joints.len(),
{
    if joints.len() > 0 {
        lemma_linked_self(joints.drop_last(), a);
    }
}

/// Links are linked both ways.
proof fn lemma_linked_back(joints: Seq<(LinkId, LinkId)>, a: LinkId, b: LinkId)
    ensures
        crate::link_sets::linked(joints, a, b) ==> crate::link_sets::linked(joints, b, a),
    decreases joints.len(),
{
    if joints.len() > 0 {
        let rest = joints.drop_last();
        let (x, y) = joints.last();
        lemma_linked_back(rest, a, b);
        lemma_linked_back(rest, a, x);
        lemma_linked_back(rest, y, b);
        lemma_linked_back(rest, a, y);
        lemma_linked_back(rest, x, b);
    }
}

/// Links that are linked with the same link are linked with each other.
proof fn lemma_linked_on(joints: Seq<(LinkId, LinkId)>, a: LinkId, b: LinkId, c: LinkId)
    requires
        crate::link_sets::linked(joints, a, b),
        crate::link_sets::linked(joints, b, c),
    ensures
        crate::link_sets::linked(joints, a, c),
    decreases joints.len(),
{
    if joints.len() > 0 {
        let rest = joints.drop_last();
        let (x, y) = joints.last();
        lemma_linked_back(rest, y, b);
        lemma_linked_back(rest, x, b);
        if crate::link_sets::linked(rest, a, b) {
            if crate::link_sets::linked(rest, b, c) {
                lemma_linked_on(rest, a, b, c);
            } else if crate::link_sets::linked(rest, b, x) && crate::link_sets::linked(rest, y, c) {
                lemma_linked_on(rest, a, b, x);
            } else {
                lemma_linked_on(rest, a, b, y);
            }
        } else if crate::link_sets::linked(rest, a, x) && crate::link_sets::linked(rest, y, b) {
            if crate::link_sets::linked(rest, b, c) {
                lemma_linked_on(rest, y, b, c);
            } else if crate::link_sets::linked(rest, b, x) && crate::link_sets::linked(rest, y, c) {
            } else {
                lemma_linked_on(rest, y, b, y);
                lemma_linked_on(rest, a, x, c);
            }
        } else {
            if crate::link_sets::linked(rest, b, c) {
                lemma_linked_on(rest, x, b, c);
            } else if crate::link_sets::linked(rest, b, x) && crate::link_sets::linked(rest, y, c) {
                lemma_linked_on(rest, a, y, c);
            } else {
            }
        }
    }
}

/// More joints link more.
proof fn lemma_linked_more(joints: Seq<(LinkId, LinkId)>, x: LinkId, y: LinkId)
    ensures
        crate::link_sets::linked(joints.push((x, y)), x, y),
        forall|a: LinkId, b: LinkId|
            crate::link_sets::linked(joints, a, b) ==> #[trigger] crate::link_sets::linked(joints.push((x, y)), a, b),
{
    let more = joints.push((x, y));
    assert(more.drop_last() =~= joints);
    assert(more.last() == (x, y));
    lemma_linked_self(joints, x);
    lemma_linked_self(joints, y);
}

/// Whether everything linked by the first survey is linked by the second, which found at least as
/// many cycles.
spec fn grows(s: Survey, t: Survey) -> bool {
    &&& s.alerts.len() <= t.alerts.len()
    &&& forall|a: LinkId, b: LinkId| crate::link_sets::linked(s.joints, a, b) ==> #[trigger] crate::link_sets::linked(t.joints, a, b)
}

/// A flooding node links all the links it is on.
proof fn lemma_flooded(
    s: Survey,
    network: crate::graph::NetView,
    tick: u64,
    node: NodeId,
    links: Seq<LinkId>,
    i: int,
)
    requires
        0 <= i < links.len(),
    ensures
        grows(s, s.flooded(network, tick, node, links)),
        crate::link_sets::linked(s.flooded(network, tick, node, links).joints, links[i], links.last()),
    decreases links.len(),
{
    let t = s.flooded(network, tick, node, links);
    if links.len() < 2 {
        lemma_linked_self(t.joints, links[i]);
    } else {
        let front = links.drop_last();
        let u = s.flooded(network, tick, node, front);
        let (a, b) = (links[links.len() - 2], links.last());
        assert(front.last() == a);
        lemma_linked_more(u.joints, a, b);
        if i < front.len() {
            lemma_flooded(s, network, tick, node, front, i);
            assert(front[i] == links[i]);
            assert(crate::link_sets::linked(t.joints, links[i], a));
            assert(crate::link_sets::linked(t.joints, a, b));
            lemma_linked_on(t.joints, links[i], a, b);
        } else {
            lemma_flooded(s, network, tick, node, front, front.len() - 1);
            lemma_linked_self(t.joints, b);
        }
    }
}

/// A flooding node on two links that are linked already closes a cycle.
proof fn lemma_flooded_cycle(
    s: Survey,
    network: crate::graph::NetView,
    tick: u64,
    node: NodeId,
    links: Seq<LinkId>,
    i: int,
    j: int,
)
    requires
        0 <= i < j < links.len(),
        crate::link_sets::linked(s.joints, links[i], links[j]),
    ensures
        s.flooded(network, tick, node, links).alerts.len() > s.alerts.len(),
    decreases links.len(),
{
    let front = links.drop_last();
    let u = s.flooded(network, tick, node, front);
    let (a, b) = (links[links.len() - 2], links.last());
    assert(front.last() == a);
    if j < front.len() {
        assert(front[i] == links[i] && front[j] == links[j]);
        lemma_flooded_cycle(s, network, tick, node, front, i, j);
    } else {
        lemma_flooded(s, network, tick, node, front, i);
        assert(front[i] == links[i]);
        assert(crate::link_sets::linked(u.joints, links[i], a));
        assert(crate::link_sets::linked(u.joints, links[i], b));
        lemma_linked_back(u.joints, links[i], a);
        lemma_linked_on(u.joints, a, links[i], b);
    }
}

/// Surveying more nodes links more.
proof fn lemma_surveyed_grows(
    s: Survey,
    network: crate::graph::NetView,
    tick: u64,
    modes: Seq<(NodeId, Relaying)>,
    n: int,
)
    requires
        0 <= n <= modes.len(),
    ensures
        grows(
            s.surveyed(network, tick, modes.take(n)),
            s.surveyed(network, tick, modes),
        ),
    decreases modes.len(),
{
    if n == modes.len() {
        assert(modes.take(n) =~= modes);
    } else {
        let front = modes.drop_last();
        assert(front.take(n) =~= modes.take(n));
        lemma_surveyed_grows(s, network, tick, front, n);
        let (node, mode) = modes.last();
        let u = s.surveyed(network, tick, front);
        if network.nodes.contains_key(node) && mode == Relaying::Flooding {
            let links = crate::monitor::links_of(network.nodes[node]);
            if links.len() > 0 {
                lemma_flooded(u, network, tick, node, links, 0);
            }
        }
    }
}

/// Two flooding nodes on the same two links are a relay loop, and it is found from the topology
/// alone.
pub proof fn law_two_bridges_are_a_loop(
    network: crate::graph::NetView,
    tick: u64,
    modes: Seq<(NodeId, Relaying)>,
    first: int,
    second: int,
    a: LinkId,
    b: LinkId,
)
    requires
        0 <= first < second < modes.len(),
        modes[first].1 == Relaying::Flooding,
        modes[second].1 == Relaying::Flooding,
        network.nodes.contains_key(modes[first].0),
        network.nodes.contains_key(modes[second].0),
        a != b,
        crate::monitor::links_of(network.nodes[modes[first].0]).contains(a),
        crate::monitor::links_of(network.nodes[modes[first].0]).contains(b),
        crate::monitor::links_of(network.nodes[modes[second].0]).contains(a),
        crate::monitor::links_of(network.nodes[modes[second].0]).contains(b),
    ensures
        crate::monitor::cycles(network, tick, modes).len() > 0,
{
    let begun = Survey {
        joints: crate::monitor::routed_joints(network, modes),
        alerts: Seq::empty(),
    };
    let one = modes.take(first + 1);
    let links = crate::monitor::links_of(network.nodes[modes[first].0]);
    let i = choose|i: int| 0 <= i < links.len() && links[i] == a;
    let j = choose|j: int| 0 <= j < links.len() && links[j] == b;
    let s = begun.surveyed(network, tick, one.drop_last());
    let t = begun.surveyed(network, tick, one);
    assert(one.last() == modes[first]);
    lemma_flooded(s, network, tick, modes[first].0, links, i);
    lemma_flooded(s, network, tick, modes[first].0, links, j);
    lemma_linked_back(t.joints, b, links.last());
    lemma_linked_on(t.joints, a, links.last(), b);
    let two = modes.take(second + 1);
    assert(two.last() == modes[second]);
    assert(two.drop_last().take(first + 1) =~= one);
    lemma_surveyed_grows(begun, network, tick, two.drop_last(), first + 1);
    let u = begun.surveyed(network, tick, two.drop_last());
    assert(crate::link_sets::linked(u.joints, a, b));
    lemma_linked_back(u.joints, a, b);
    let more = crate::monitor::links_of(network.nodes[modes[second].0]);
    let k = choose|k: int| 0 <= k < more.len() && more[k] == a;
    let l = choose|l: int| 0 <= l < more.len() && more[l] == b;
    if k < l {
        lemma_flooded_cycle(u, network, tick, modes[second].0, more, k, l);
    } else {
        lemma_flooded_cycle(u, network, tick, modes[second].0, more, l, k);
    }
    lemma_surveyed_grows(begun, network, tick, modes, second + 1);
}

/// What is linked by some joints is linked by all joints that link what they connect.
proof fn lemma_linked_by_all(
    joints: Seq<(LinkId, LinkId)>,
    all: Seq<(LinkId, LinkId)>,
    a: LinkId,
    b: LinkId,
)
    requires
        forall|i: int|
            0 <= i < joints.len() ==> crate::link_sets::linked(
                all,
                (#[trigger] joints[i]).0,
                joints[i].1,
            ),
        crate::link_sets::linked(joints, a, b),
    ensures
        crate::link_sets::linked(all, a, b),
    decreases joints.len(),
{
    if joints.len() == 0 {
        lemma_linked_self(all, a);
    } else {
        let rest = joints.drop_last();
        let (x, y) = joints.last();
        assert(joints[joints.len() - 1] == (x, y));
        assert forall|i: int| 0 <= i < rest.len() implies crate::link_sets::linked(
            all,
            (#[trigger] rest[i]).0,
            rest[i].1,
        ) by {
            assert(rest[i] == joints[i]);
        }
        if crate::link_sets::linked(rest, a, b) {
            lemma_linked_by_all(rest, all, a, b);
        } else if crate::link_sets::linked(rest, a, x) && crate::link_sets::linked(rest, y, b) {
            lemma_linked_by_all(rest, all, a, x);
            lemma_linked_by_all(rest, all, y, b);
            lemma_linked_on(all, a, x, y);
            lemma_linked_on(all, a, y, b);
        } else {
            lemma_linked_by_all(rest, all, a, y);
            lemma_linked_by_all(rest, all, x, b);
            lemma_linked_back(all, x, y);
            lemma_linked_on(all, a, y, x);
            lemma_linked_on(all, a, x, b);
        }
    }
}

/// A joint links what it connects.
proof fn lemma_joint_links(joints: Seq<(LinkId, LinkId)>, i: int)
    requires
        0 <= i < joints.len(),
    ensures
        crate::link_sets::linked(joints, joints[i].0, joints[i].1),
    decreases joints.len(),
{
    let rest = joints.drop_last();
    let (x, y) = joints.last();
    assert(rest.push((x, y)) =~= joints);
    lemma_linked_more(rest, x, y);
    if i < rest.len() {
        lemma_joint_links(rest, i);
        assert(rest[i] == joints[i]);
    }
}

/// What is linked by joints that are all among others is linked by the others.
proof fn lemma_linked_by_more(
    joints: Seq<(LinkId, LinkId)>,
    all: Seq<(LinkId, LinkId)>,
    a: LinkId,
    b: LinkId,
)
    requires
        forall|i: int| 0 <= i < joints.len() ==> all.contains(#[trigger] joints[i]),
        crate::link_sets::linked(joints, a, b),
    ensures
        crate::link_sets::linked(all, a, b),
{
    assert forall|i: int| 0 <= i < joints.len() implies crate::link_sets::linked(
        all,
        (#[trigger] joints[i]).0,
        joints[i].1,
    ) by {
        assert(all.contains(joints[i]));
        lemma_joint_links(all, all.index_of(joints[i]));
    }
    lemma_linked_by_all(joints, all, a, b);
}

/// Whether one of the flooding joints connects links that the joints before it link.
spec fn closes(routed: Seq<(LinkId, LinkId)>, flooding: Seq<(LinkId, LinkId)>) -> bool
    decreases flooding.len(),
{
    flooding.len() > 0 && (closes(routed, flooding.drop_last()) || crate::link_sets::linked(
        routed + flooding.drop_last(),
        flooding.last().0,
        flooding.last().1,
    ))
}

/// Whether a survey stands for the joints: it links what they link, and found a cycle if and only
/// if one of them closes one.
spec fn stands_for(
    s: Survey,
    routed: Seq<(LinkId, LinkId)>,
    flooding: Seq<(LinkId, LinkId)>,
) -> bool {
    &&& s.alerts.len() > 0 <==> closes(routed, flooding)
    &&& forall|a: LinkId, b: LinkId| #[trigger]
        crate::link_sets::linked(s.joints, a, b) <==> crate::link_sets::linked(
            routed + flooding,
            a,
            b,
        )
}

/// A survey goes on to stand for the joints with one more.
proof fn lemma_bridged_stands_for(
    s: Survey,
    network: crate::graph::NetView,
    tick: u64,
    node: NodeId,
    routed: Seq<(LinkId, LinkId)>,
    flooding: Seq<(LinkId, LinkId)>,
    x: LinkId,
    y: LinkId,
)
    requires
        stands_for(s, routed, flooding),
    ensures
        stands_for(s.bridged(network, tick, node, x, y), routed, flooding.push((x, y))),
{
    let more = flooding.push((x, y));
    let t = s.bridged(network, tick, node, x, y);
    let (before, after) = (routed + flooding, routed + more);
    assert(more.drop_last() =~= flooding);
    assert(after.drop_last() =~= before);
    assert(before.push((x, y)) =~= after);
    lemma_linked_more(before, x, y);
    assert forall|a: LinkId, b: LinkId| #[trigger]
        crate::link_sets::linked(t.joints, a, b) <==> crate::link_sets::linked(after, a, b) by {
        assert(crate::link_sets::linked(s.joints, a, b) <==> crate::link_sets::linked(before, a, b));
        if crate::link_sets::linked(s.joints, x, y) {
            if crate::link_sets::linked(after, a, b) {
                assert forall|i: int| 0 <= i < after.len() implies crate::link_sets::linked(
                    before,
                    (#[trigger] after[i]).0,
                    after[i].1,
                ) by {
                    if i < before.len() {
                        lemma_joint_links(before, i);
                        assert(after[i] == before[i]);
                    }
                }
                lemma_linked_by_all(after, before, a, b);
            }
        } else {
            assert(t.joints.drop_last() =~= s.joints);
            assert(crate::link_sets::linked(s.joints, a, x) <==> crate::link_sets::linked(
                before,
                a,
                x,
            ));
            assert(crate::link_sets::linked(s.joints, y, b) <==> crate::link_sets::linked(
                before,
                y,
                b,
            ));
            assert(crate::link_sets::linked(s.joints, a, y) <==> crate::link_sets::linked(
                before,
                a,
                y,
            ));
            assert(crate::link_sets::linked(s.joints, x, b) <==> crate::link_sets::linked(
                before,
                x,
                b,
            ));
        }
    }
}

/// A survey goes on to stand for the joints with those of a flooding node.
proof fn lemma_flooded_stands_for(
    s: Survey,
    network: crate::graph::NetView,
    tick: u64,
    node: NodeId,
    links: Seq<LinkId>,
    routed: Seq<(LinkId, LinkId)>,
    flooding: Seq<(LinkId, LinkId)>,
)
    requires
        stands_for(s, routed, flooding),
    ensures
        stands_for(
            s.flooded(network, tick, node, links),
            routed,
            flooding + crate::monitor::chain(links),
        ),
    decreases links.len(),
{
    let all = flooding + crate::monitor::chain(links);
    if links.len() < 2 {
        assert(all =~= flooding);
    } else {
        let front = links.drop_last();
        lemma_flooded_stands_for(s, network, tick, node, front, routed, flooding);
        let (x, y) = (links[links.len() - 2], links.last());
        lemma_bridged_stands_for(
            s.flooded(network, tick, node, front),
            network,
            tick,
            node,
            routed,
            flooding + crate::monitor::chain(front),
            x,
            y,
        );
        assert((flooding + crate::monitor::chain(front)).push((x, y)) =~= all);
    }
}

/// A survey stands for the joints of all the nodes it went through.
proof fn lemma_surveyed_stands_for(
    s: Survey,
    network: crate::graph::NetView,
    tick: u64,
    modes: Seq<(NodeId, Relaying)>,
    routed: Seq<(LinkId, LinkId)>,
)
    requires
        stands_for(s, routed, Seq::empty()),
    ensures
        stands_for(
            s.surveyed(network, tick, modes),
            routed,
            crate::monitor::flooding_joints(network, modes),
        ),
    decreases modes.len(),
{
    if modes.len() > 0 {
        let front = modes.drop_last();
        lemma_surveyed_stands_for(s, network, tick, front, routed);
        let (node, mode) = modes.last();
        if network.nodes.contains_key(node) && mode == Relaying::Flooding {
            lemma_flooded_stands_for(
                s.surveyed(network, tick, front),
                network,
                tick,
                node,
                crate::monitor::links_of(network.nodes[node]),
                routed,
                crate::monitor::flooding_joints(network, front),
            );
        }
    }
}

/// Where a flooding joint closes a cycle, one is part of a loop.
proof fn lemma_closing_joint_is_in_loop(
    routed: Seq<(LinkId, LinkId)>,
    flooding: Seq<(LinkId, LinkId)>,
) -> (i: int)
    requires
        closes(routed, flooding),
    ensures
        crate::monitor::is_in_loop(routed, flooding, i),
    decreases flooding.len(),
{
    let front = flooding.drop_last();
    let last = flooding.len() - 1;
    if closes(routed, front) {
        let i = lemma_closing_joint_is_in_loop(routed, front);
        let (some, all) = (routed + front.remove(i), routed + flooding.remove(i));
        assert forall|k: int| 0 <= k < some.len() implies all.contains(#[trigger] some[k]) by {
            assert(all[k] == some[k]);
        }
        lemma_linked_by_more(some, all, front[i].0, front[i].1);
        i
    } else {
        assert(flooding.remove(last) =~= front);
        last
    }
}

/// Where no flooding joint closes a cycle, none is part of a loop.
proof fn lemma_no_joint_is_in_loop(
    routed: Seq<(LinkId, LinkId)>,
    flooding: Seq<(LinkId, LinkId)>,
    i: int,
)
    requires
        !closes(routed, flooding),
    ensures
        !crate::monitor::is_in_loop(routed, flooding, i),
    decreases flooding.len(),
{
    if 0 <= i < flooding.len() {
        let front = flooding.drop_last();
        let (x, y) = flooding.last();
        if i == flooding.len() - 1 {
            assert(flooding.remove(i) =~= front);
        } else {
            lemma_no_joint_is_in_loop(routed, front, i);
            let (a, b) = flooding[i];
            assert(front[i] == (a, b));
            let (some, all) = (routed + front.remove(i), routed + front);
            let more = routed + flooding.remove(i);
            assert(more =~= some.push((x, y)));
            assert(more.drop_last() =~= some);
            assert(all[routed.len() + i] == (a, b));
            lemma_joint_links(all, routed.len() + i);
            assert forall|k: int| 0 <= k < some.len() implies all.contains(#[trigger] some[k]) by {
                if k < routed.len() + i {
                    assert(all[k] == some[k]);
                } else {
                    assert(all[k + 1] == some[k]);
                }
            }
            if crate::link_sets::linked(more, a, b) {
                lemma_linked_back(all, a, b);
                if crate::link_sets::linked(some, a, x) && crate::link_sets::linked(some, y, b) {
                    lemma_linked_by_more(some, all, a, x);
                    lemma_linked_by_more(some, all, y, b);
                    lemma_linked_back(all, a, x);
                    lemma_linked_back(all, y, b);
                    lemma_linked_on(all, x, a, b);
                    lemma_linked_on(all, x, b, y);
                } else {
                    lemma_linked_by_more(some, all, a, y);
                    lemma_linked_by_more(some, all, x, b);
                    lemma_linked_on(all, x, b, a);
                    lemma_linked_on(all, x, a, y);
                }
            }
        }
    }
}

/// A relay cycle is reported if and only if there is one: some flooding joint connects two links
/// that the other joints, those of gateways among them, link already.
pub proof fn law_relay_loops_are_found(
    network: crate::graph::NetView,
    tick: u64,
    modes: Seq<(NodeId, Relaying)>,
)
    ensures
        crate::monitor::cycles(network, tick, modes).len() > 0 <==> exists|i: int| #[trigger]
            crate::monitor::is_in_loop(
                crate::monitor::routed_joints(network, modes),
                crate::monitor::flooding_joints(network, modes),
                i,
            ),
{
    let routed = crate::monitor::routed_joints(network, modes);
    let flooding = crate::monitor::flooding_joints(network, modes);
    let begun = Survey { joints: routed, alerts: Seq::empty() };
    assert(routed + Seq::<(LinkId, LinkId)>::empty() =~= routed);
    lemma_surveyed_stands_for(begun, network, tick, modes, routed);
    if closes(routed, flooding) {
        let i = lemma_closing_joint_is_in_loop(routed, flooding);
    } else {
        assert forall|i: int| !(#[trigger] crate::monitor::is_in_loop(routed, flooding, i)) by {
            lemma_no_joint_is_in_loop(routed, flooding, i);
        }
    }
}

/// The only flooding node's joints are all the flooding joints there are.
proof fn lemma_only_flooding_joints(
    network: crate::graph::NetView,
    modes: Seq<(NodeId, Relaying)>,
    at: int,
)
    requires
        0 <= at < modes.len(),
        network.nodes.contains_key(modes[at].0),
        modes[at].1 == Relaying::Flooding,
        forall|i: int|
            0 <= i < modes.len() && i != at ==> (#[trigger] modes[i]).1 != Relaying::Flooding,
    ensures
        crate::monitor::flooding_joints(network, modes) == crate::monitor::chain(
            crate::monitor::links_of(network.nodes[modes[at].0]),
        ),
    decreases modes.len(),
{
    let front = modes.drop_last();
    if at < front.len() {
        assert(modes[modes.len() - 1].1 != Relaying::Flooding);
        lemma_only_flooding_joints(network, front, at);
    } else {
        lemma_no_flooding_joints(network, front);
        assert(crate::monitor::flooding_joints(network, modes) =~= crate::monitor::chain(
            crate::monitor::links_of(network.nodes[modes[at].0]),
        ));
    }
}

/// Without flooding nodes there are no flooding joints.
proof fn lemma_no_flooding_joints(
    network: crate::graph::NetView,
    modes: Seq<(NodeId, Relaying)>,
)
    requires
        forall|i: int| 0 <= i < modes.len() ==> (#[trigger] modes[i]).1 != Relaying::Flooding,
    ensures
        crate::monitor::flooding_joints(network, modes) == Seq::<(LinkId, LinkId)>::empty(),
    decreases modes.len(),
{
    if modes.len() > 0 {
        assert(modes[modes.len() - 1].1 != Relaying::Flooding);
        lemma_no_flooding_joints(network, modes.drop_last());
    }
}

/// One bridge between two links is no loop by itself: with no other flooding node, a cycle is
/// reported if and only if gateways link the two.
pub proof fn law_one_bridge_alone_is_no_loop(
    network: crate::graph::NetView,
    tick: u64,
    modes: Seq<(NodeId, Relaying)>,
    at: int,
    a: LinkId,
    b: LinkId,
)
    requires
        0 <= at < modes.len(),
        network.nodes.contains_key(modes[at].0),
        modes[at].1 == Relaying::Flooding,
        forall|i: int|
            0 <= i < modes.len() && i != at ==> (#[trigger] modes[i]).1 != Relaying::Flooding,
        crate::monitor::links_of(network.nodes[modes[at].0]) == seq![a, b],
    ensures
        crate::monitor::cycles(network, tick, modes).len() > 0 <==> crate::link_sets::linked(
            crate::monitor::routed_joints(network, modes),
            a,
            b,
        ),
{
    let routed = crate::monitor::routed_joints(network, modes);
    let flooding = crate::monitor::flooding_joints(network, modes);
    law_relay_loops_are_found(network, tick, modes);
    lemma_only_flooding_joints(network, modes, at);
    reveal_with_fuel(crate::monitor::chain, 2);
    assert(flooding =~= seq![(a, b)]);
    assert(routed + flooding.remove(0) =~= routed);
    assert(crate::monitor::is_in_loop(routed, flooding, 0) <==> crate::link_sets::linked(
        routed,
        a,
        b,
    ));
}

/// The busiest lead: counts are listed highest first, as many as there are up to the number asked
/// for.
pub proof fn law_busiest_lead<T>(counts: Seq<(T, u64)>, n: nat)
    ensures
        crate::tally::top(counts, n).len() == if n < counts.len() {
            n
        } else {
            counts.len()
        },
        forall|i: int, j: int|
            0 <= i < j < crate::tally::top(counts, n).len() ==> (#[trigger] crate::tally::top(
                counts,
                n,
            )[i]).1 >= (#[trigger] crate::tally::top(counts, n)[j]).1,
        forall|i: int|
            0 <= i < crate::tally::top(counts, n).len() ==> counts.contains(
                #[trigger] crate::tally::top(counts, n)[i],
            ),
    decreases n,
{
    if n > 0 && counts.len() > 0 {
        let b = crate::tally::busiest(counts);
        crate::tally::lemma_busiest(counts);
        let rest = counts.remove(b);
        law_busiest_lead(rest, (n - 1) as nat);
        let top = crate::tally::top(counts, n);
        let tail = crate::tally::top(rest, (n - 1) as nat);
        assert forall|i: int| 0 <= i < top.len() implies counts.contains(#[trigger] top[i]) by {
            if i == 0 {
                assert(counts[b] == top[0]);
            } else {
                assert(rest.contains(tail[i - 1]));
                let k = choose|k: int| 0 <= k < rest.len() && rest[k] == tail[i - 1];
                assert(counts[if k < b {
                    k
                } else {
                    k + 1
                }] == top[i]);
            }
        }
        assert forall|i: int, j: int| 0 <= i < j < top.len() implies (#[trigger] top[i]).1 >= (
        #[trigger] top[j]).1 by {
            if i == 0 {
                let k = choose|k: int| 0 <= k < counts.len() && counts[k] == top[j];
                assert(counts.contains(top[j]));
                assert(counts[k].1 <= counts[b].1);
            } else {
                assert(tail[i - 1].1 >= tail[j - 1].1);
            }
        }
    }
}

/// Nothing that is listed among the busiest is less busy than something left out.
pub proof fn law_nothing_busier_is_left_out<T>(counts: Seq<(T, u64)>, n: nat, i: int)
    requires
        0 <= i < counts.len(),
        n > 0,
    ensures
        ({
            let top = crate::tally::top(counts, n);
            top.contains(counts[i]) || top.len() == n && forall|k: int|
                0 <= k < top.len() ==> (#[trigger] top[k]).1 >= counts[i].1
        }),
    decreases n,
{
    let b = crate::tally::busiest(counts);
    crate::tally::lemma_busiest(counts);
    let top = crate::tally::top(counts, n);
    assert(top[0] == counts[b]);
    if i != b {
        let rest = counts.remove(b);
        let tail = crate::tally::top(rest, (n - 1) as nat);
        let at = if i < b {
            i
        } else {
            i - 1
        };
        assert(rest[at] == counts[i]);
        law_busiest_lead(counts, n);
        if n > 1 {
            law_nothing_busier_is_left_out(rest, (n - 1) as nat, at);
            if tail.contains(counts[i]) {
                let k = choose|k: int| 0 <= k < tail.len() && tail[k] == counts[i];
                assert(top[k + 1] == counts[i]);
            } else {
                assert forall|k: int| 0 <= k < top.len() implies (#[trigger] top[k]).1
                    >= counts[i].1 by {
                    if k > 0 {
                        assert(tail[k - 1] == top[k]);
                    }
                }
            }
        }
    }
}

/// Whether the two links are joined directly, in either direction.
pub open spec fn are_joined(joints: Seq<(LinkId, LinkId)>, a: LinkId, b: LinkId) -> bool {
    joints.contains((a, b)) || joints.contains((b, a))
}

/// Whether the links lead from `a` to `b`, each joined with the next.
pub open spec fn is_way(
    joints: Seq<(LinkId, LinkId)>,
    a: LinkId,
    b: LinkId,
    way: Seq<LinkId>,
) -> bool {
    &&& way.len() > 0
    &&& way[0] == a
    &&& way.last() == b
    &&& forall|i: int| 0 < i < way.len() ==> are_joined(joints, way[i - 1], #[trigger] way[i])
}

/// Traffic can pass between two links if and only if there is a way over joints from one to the
/// other.
pub proof fn law_linked_means_there_is_a_way(
    joints: Seq<(LinkId, LinkId)>,
    a: LinkId,
    b: LinkId,
)
    ensures
        crate::link_sets::linked(joints, a, b) <==> exists|way: Seq<LinkId>|
            is_way(joints, a, b, way),
{
    if crate::link_sets::linked(joints, a, b) {
        let way = lemma_way(joints, a, b);
        assert(is_way(joints, a, b, way));
    }
    if exists|way: Seq<LinkId>| is_way(joints, a, b, way) {
        let way = choose|way: Seq<LinkId>| is_way(joints, a, b, way);
        lemma_way_links(joints, a, b, way);
    }
}

proof fn lemma_way(joints: Seq<(LinkId, LinkId)>, a: LinkId, b: LinkId) -> (way: Seq<LinkId>)
    requires
        crate::link_sets::linked(joints, a, b),
    ensures
        is_way(joints, a, b, way),
    decreases joints.len(),
{
    if joints.len() == 0 {
        seq![a]
    } else {
        let rest = joints.drop_last();
        let (x, y) = joints.last();
        assert(joints =~= rest.push((x, y)));
        crate::lists::lemma_push_contains(rest, (x, y));
        if crate::link_sets::linked(rest, a, b) {
            lemma_way(rest, a, b)
        } else if crate::link_sets::linked(rest, a, x) && crate::link_sets::linked(rest, y, b) {
            lemma_two_ways(joints, rest, a, x, y, b)
        } else {
            lemma_two_ways(joints, rest, a, y, x, b)
        }
    }
}

/// A way to one end of a joint and one from its other end make a way.
proof fn lemma_two_ways(
    joints: Seq<(LinkId, LinkId)>,
    rest: Seq<(LinkId, LinkId)>,
    a: LinkId,
    x: LinkId,
    y: LinkId,
    b: LinkId,
) -> (way: Seq<LinkId>)
    requires
        rest.len() < joints.len(),
        crate::link_sets::linked(rest, a, x),
        crate::link_sets::linked(rest, y, b),
        are_joined(joints, x, y),
        forall|j: (LinkId, LinkId)| #[trigger] rest.contains(j) ==> joints.contains(j),
    ensures
        is_way(joints, a, b, way),
    decreases joints.len(), 0nat,
{
    let there = lemma_way(rest, a, x);
    let on = lemma_way(rest, y, b);
    let way = there + on;
    assert forall|i: int| 0 < i < way.len() implies are_joined(
        joints,
        way[i - 1],
        #[trigger] way[i],
    ) by {
        if i < there.len() {
            assert(are_joined(rest, there[i - 1], there[i]));
        } else if i > there.len() {
            let k = i - there.len();
            assert(are_joined(rest, on[k - 1], on[k]));
        }
    }
    way
}

proof fn lemma_way_links(
    joints: Seq<(LinkId, LinkId)>,
    a: LinkId,
    b: LinkId,
    way: Seq<LinkId>,
)
    requires
        is_way(joints, a, b, way),
    ensures
        crate::link_sets::linked(joints, a, b),
    decreases way.len(),
{
    if way.len() == 1 {
        lemma_linked_self(joints, a);
    } else {
        let front = way.drop_last();
        let n = way.len() - 1;
        assert forall|i: int| 0 < i < front.len() implies are_joined(
            joints,
            front[i - 1],
            #[trigger] front[i],
        ) by {
            assert(way[i] == front[i]);
        }
        lemma_way_links(joints, a, front.last(), front);
        let c = way[n - 1];
        assert(are_joined(joints, c, way[n]));
        if joints.contains((c, b)) {
            let i = choose|i: int| 0 <= i < joints.len() && joints[i] == (c, b);
            lemma_joint_links(joints, i);
        } else {
            let i = choose|i: int| 0 <= i < joints.len() && joints[i] == (b, c);
            lemma_joint_links(joints, i);
            lemma_linked_back(joints, b, c);
        }
        lemma_linked_on(joints, a, c, b);
    }
}

/// Whether the `i`th node follows routes from a link of its own, `a`, to `b`.
pub open spec fn routes(
    network: crate::graph::NetView,
    modes: Seq<(NodeId, Relaying)>,
    i: int,
    a: LinkId,
    b: LinkId,
) -> bool {
    &&& 0 <= i < modes.len()
    &&& modes[i].1 == Relaying::Routed
    &&& network.nodes.contains_key(modes[i].0)
    &&& network.nodes[modes[i].0].internal_links.contains(a)
    &&& network.nodes[modes[i].0].subscriptions.contains(b)
}

/// Whether the `i`th node floods the links `a` and `b`, the `k`th and the next of its links.
pub open spec fn floods(
    network: crate::graph::NetView,
    modes: Seq<(NodeId, Relaying)>,
    i: int,
    k: int,
    a: LinkId,
    b: LinkId,
) -> bool {
    let links = crate::monitor::links_of(network.nodes[modes[i].0]);
    &&& 0 <= i < modes.len()
    &&& modes[i].1 == Relaying::Flooding
    &&& network.nodes.contains_key(modes[i].0)
    &&& 0 <= k < links.len() - 1
    &&& links[k] == a
    &&& links[k + 1] == b
}

/// What relays join. A node that follows routes joins each link it owns with each link it is
/// attached to; a node that floods joins all the links that it is attached to or owns, each with
/// the next; and no other node joins any.
pub proof fn law_what_relays_join(
    network: crate::graph::NetView,
    modes: Seq<(NodeId, Relaying)>,
    a: LinkId,
    b: LinkId,
)
    ensures
        crate::monitor::routed_joints(network, modes).contains((a, b)) <==> exists|i: int|
            routes(network, modes, i, a, b),
        crate::monitor::flooding_joints(network, modes).contains((a, b)) <==> exists|
            i: int,
            k: int,
        |
            floods(network, modes, i, k, a, b),
        forall|n: NodeId, l: LinkId| #[trigger]
            crate::monitor::links_of(network.nodes[n]).contains(l)
                <==> network.nodes[n].subscriptions.contains(l)
                || network.nodes[n].internal_links.contains(l),
    decreases modes.len(),
{
    assert forall|n: NodeId, l: LinkId| #[trigger]
        crate::monitor::links_of(network.nodes[n]).contains(l)
            <==> network.nodes[n].subscriptions.contains(l)
            || network.nodes[n].internal_links.contains(l) by {
        lemma_links_of(network.nodes[n]);
    }
    if modes.len() > 0 {
        let front = modes.drop_last();
        let n = modes.len() - 1;
        law_what_relays_join(network, front, a, b);
        let (node, mode) = modes.last();
        let view = network.nodes[node];
        let routed = crate::monitor::routed_joints(network, front);
        let flooding = crate::monitor::flooding_joints(network, front);
        let crossings = crate::monitor::crossings(view.internal_links, view.subscriptions);
        let links = crate::monitor::links_of(view);
        let chain = crate::monitor::chain(links);
        lemma_crossings(view.internal_links, view.subscriptions, a, b);
        lemma_chain(links);
        lemma_either(routed, crossings, (a, b));
        lemma_either(flooding, chain, (a, b));
        assert(modes[n] == (node, mode));
        assert forall|i: int| 0 <= i < n implies routes(network, front, i, a, b) == #[trigger] routes(
            network,
            modes,
            i,
            a,
            b,
        ) by {
            assert(front[i] == modes[i]);
        }
        assert forall|i: int, k: int| 0 <= i < n implies floods(network, front, i, k, a, b)
            == #[trigger] floods(network, modes, i, k, a, b) by {
            assert(front[i] == modes[i]);
        }
        if routed.contains((a, b)) {
            let i = choose|i: int| routes(network, front, i, a, b);
            assert(routes(network, modes, i, a, b));
        }
        if network.nodes.contains_key(node) && mode == Relaying::Routed && crossings.contains(
            (a, b),
        ) {
            assert(routes(network, modes, n, a, b));
        }
        if exists|i: int| routes(network, modes, i, a, b) {
            let i = choose|i: int| routes(network, modes, i, a, b);
            if i < n {
                assert(routes(network, front, i, a, b));
            }
        }
        if flooding.contains((a, b)) {
            let (i, k) = choose|i: int, k: int| floods(network, front, i, k, a, b);
            assert(floods(network, modes, i, k, a, b));
        }
        if network.nodes.contains_key(node) && mode == Relaying::Flooding && chain.contains(
            (a, b),
        ) {
            let k = choose|k: int| 0 <= k < chain.len() && chain[k] == (a, b);
            assert(floods(network, modes, n, k, a, b));
        }
        if exists|i: int, k: int| floods(network, modes, i, k, a, b) {
            let (i, k) = choose|i: int, k: int| floods(network, modes, i, k, a, b);
            if i < n {
                assert(floods(network, front, i, k, a, b));
            } else {
                assert(chain[k] == (a, b));
            }
        }
    } else {
        if exists|i: int| routes(network, modes, i, a, b) {
            let i = choose|i: int| routes(network, modes, i, a, b);
            assert(false);
        }
        if exists|i: int, k: int| floods(network, modes, i, k, a, b) {
            let (i, k) = choose|i: int, k: int| floods(network, modes, i, k, a, b);
            assert(false);
        }
    }
}

proof fn lemma_links_of(node: crate::graph::NodeView)
    ensures
        forall|l: LinkId| #[trigger]
            crate::monitor::links_of(node).contains(l) <==> node.subscriptions.contains(l)
                || node.internal_links.contains(l),
{
    let all = node.subscriptions + node.internal_links;
    crate::lists::lemma_in_order(all);
    assert forall|l: LinkId| #[trigger] crate::monitor::links_of(node).contains(l)
        <==> node.subscriptions.contains(l) || node.internal_links.contains(l) by {
        lemma_either(node.subscriptions, node.internal_links, l);
    }
}

proof fn lemma_either<T>(a: Seq<T>, b: Seq<T>, x: T)
    ensures
        (a + b).contains(x) <==> a.contains(x) || b.contains(x),
{
    if (a + b).contains(x) {
        let i = choose|i: int| 0 <= i < (a + b).len() && (a + b)[i] == x;
        if i < a.len() {
            assert(a[i] == x);
        } else {
            assert(b[i - a.len()] == x);
        }
    }
    if a.contains(x) {
        let i = choose|i: int| 0 <= i < a.len() && a[i] == x;
        assert((a + b)[i] == x);
    }
    if b.contains(x) {
        let i = choose|i: int| 0 <= i < b.len() && b[i] == x;
        assert((a + b)[i + a.len()] == x);
    }
}

proof fn lemma_crossings(inside: Seq<LinkId>, outside: Seq<LinkId>, a: LinkId, b: LinkId)
    ensures
        crate::monitor::crossings(inside, outside).contains((a, b)) <==> inside.contains(a)
            && outside.contains(b),
    decreases inside.len(),
{
    if inside.len() > 0 {
        let front = inside.drop_last();
        let last = inside.last();
        lemma_crossings(front, outside, a, b);
        let row = outside.map_values(|o: LinkId| (last, o));
        lemma_either(crate::monitor::crossings(front, outside), row, (a, b));
        assert(inside =~= front.push(last));
        crate::lists::lemma_push_contains(front, last);
        if row.contains((a, b)) {
            let i = choose|i: int| 0 <= i < row.len() && row[i] == (a, b);
            assert(outside[i] == b);
        }
        if a == last && outside.contains(b) {
            let i = choose|i: int| 0 <= i < outside.len() && outside[i] == b;
            assert(row[i] == (a, b));
        }
    }
}

proof fn lemma_chain(links: Seq<LinkId>)
    ensures
        crate::monitor::chain(links).len() == if links.len() < 2 {
            0
        } else {
            links.len() - 1
        },
        forall|k: int|
            0 <= k < crate::monitor::chain(links).len() ==> #[trigger] crate::monitor::chain(
                links,
            )[k] == (links[k], links[k + 1]),
    decreases links.len(),
{
    if links.len() >= 2 {
        lemma_chain(links.drop_last());
    }
}

/// Two different relays that flood, each attached to or owning the same two links, are a loop, and
/// it is reported.
pub proof fn law_two_floods_between_two_links_loop(
    network: crate::graph::NetView,
    tick: u64,
    modes: Seq<(NodeId, Relaying)>,
    first: int,
    second: int,
    a: LinkId,
    b: LinkId,
)
    requires
        0 <= first < second < modes.len(),
        modes[first].1 == Relaying::Flooding,
        modes[second].1 == Relaying::Flooding,
        a != b,
        ({
            let (x, y) = (modes[first].0, modes[second].0);
            &&& network.nodes.contains_key(x)
            &&& network.nodes.contains_key(y)
            &&& network.nodes[x].subscriptions.contains(a)
                || network.nodes[x].internal_links.contains(a)
            &&& network.nodes[x].subscriptions.contains(b)
                || network.nodes[x].internal_links.contains(b)
            &&& network.nodes[y].subscriptions.contains(a)
                || network.nodes[y].internal_links.contains(a)
            &&& network.nodes[y].subscriptions.contains(b)
                || network.nodes[y].internal_links.contains(b)
        }),
    ensures
        crate::monitor::cycles(network, tick, modes).len() > 0,
{
    lemma_links_of(network.nodes[modes[first].0]);
    lemma_links_of(network.nodes[modes[second].0]);
    law_two_bridges_are_a_loop(network, tick, modes, first, second, a, b);
}

/// A relay that floods between two links, neighbours in its order, is a loop where a gateway joins
/// the same two, and it is reported.
pub proof fn law_a_flood_beside_a_gateway_loops(
    network: crate::graph::NetView,
    tick: u64,
    modes: Seq<(NodeId, Relaying)>,
    flood: int,
    k: int,
    gate: int,
)
    requires
        0 <= flood < modes.len(),
        0 <= gate < modes.len(),
        modes[flood].1 == Relaying::Flooding,
        modes[gate].1 == Relaying::Routed,
        network.nodes.contains_key(modes[flood].0),
        network.nodes.contains_key(modes[gate].0),
        ({
            let links = crate::monitor::links_of(network.nodes[modes[flood].0]);
            let gateway = network.nodes[modes[gate].0];
            &&& 0 <= k < links.len() - 1
            &&& gateway.internal_links.contains(links[k]) && gateway.subscriptions.contains(
                links[k + 1],
            ) || gateway.internal_links.contains(links[k + 1]) && gateway.subscriptions.contains(
                links[k],
            )
        }),
    ensures
        crate::monitor::cycles(network, tick, modes).len() > 0,
{
    let links = crate::monitor::links_of(network.nodes[modes[flood].0]);
    let (a, b) = (links[k], links[k + 1]);
    let routed = crate::monitor::routed_joints(network, modes);
    let flooding = crate::monitor::flooding_joints(network, modes);
    law_what_relays_join(network, modes, a, b);
    law_what_relays_join(network, modes, b, a);
    assert(floods(network, modes, flood, k, a, b));
    assert(flooding.contains((a, b)));
    let i = choose|i: int| 0 <= i < flooding.len() && flooding[i] == (a, b);
    let others = routed + flooding.remove(i);
    lemma_either(routed, flooding.remove(i), (a, b));
    lemma_either(routed, flooding.remove(i), (b, a));
    assert(routes(network, modes, gate, a, b) || routes(network, modes, gate, b, a));
    assert(are_joined(others, a, b));
    let way = seq![a, b];
    assert(is_way(others, a, b, way));
    law_linked_means_there_is_a_way(others, a, b);
    assert(crate::monitor::is_in_loop(routed, flooding, i));
    law_relay_loops_are_found(network, tick, modes);
}

} // verus!
