//! What holds of the sandbox: runs of ticks, the checklist, and what is shown of the traffic.

use vstd::prelude::*;

use crate::activity::{ActivityView, BatchView, FlightView, LineView, PendingView, ToneView};
use crate::checklist::{ChecklistView, RunnerEvent, Status};
use crate::probe::TestReport;
use crate::report::{AlertReportView, TraceEntry};
use crate::run::Run;
use crate::scene::{Item, SceneView};
use crate::snapshot::SnapView;
use crate::world::TickOutcome;

verus! {

/// A run goes on until it has taken the ticks asked for, or until a tick trips the fuse where it
/// is to stop there: given enough ticks it ends in no other way. Whether the fuse tripped is
/// remembered.
pub proof fn law_runs_go_on(run: Run, outcomes: Seq<TickOutcome>)
    requires
        run.ran <= run.steps,
        outcomes.len() >= run.steps - run.ran,
    ensures
        ({
            let end = run.after_all(outcomes);
            &&& end.ran == run.steps || run.stop_at_fuse && end.tripped
            &&& end.steps == run.steps
            &&& end.stop_at_fuse == run.stop_at_fuse
            &&& end.tripped <==> run.tripped || exists|i: int|
                0 <= i < end.ran - run.ran && #[trigger] outcomes[i] == TickOutcome::FuseTripped
        }),
    decreases outcomes.len(),
{
    if outcomes.len() > 0 && run.due() {
        let rest = outcomes.drop_first();
        let next = run.after(outcomes[0]);
        law_runs_go_on(next, rest);
        let end = run.after_all(outcomes);
        crate::run::law_runs_stop(next, rest);
        lemma_run_grows(next, rest);
        if exists|i: int|
            0 <= i < end.ran - next.ran && #[trigger] rest[i] == TickOutcome::FuseTripped {
            let i = choose|i: int|
                0 <= i < end.ran - next.ran && #[trigger] rest[i] == TickOutcome::FuseTripped;
            assert(outcomes[i + 1] == TickOutcome::FuseTripped);
        }
        if exists|i: int|
            0 <= i < end.ran - run.ran && #[trigger] outcomes[i] == TickOutcome::FuseTripped {
            let i = choose|i: int|
                0 <= i < end.ran - run.ran && #[trigger] outcomes[i] == TickOutcome::FuseTripped;
            if i > 0 {
                assert(rest[i - 1] == outcomes[i]);
            }
        }
        assert(outcomes[0] == outcomes[0]);
    }
}

proof fn lemma_run_grows(run: Run, outcomes: Seq<TickOutcome>)
    requires
        run.ran <= run.steps,
    ensures
        run.ran <= run.after_all(outcomes).ran,
    decreases outcomes.len(),
{
    if outcomes.len() > 0 && run.due() {
        lemma_run_grows(run.after(outcomes[0]), outcomes.drop_first());
    }
}

/// Tests that are asked for wait to run, and what was known of them is forgotten; the others
/// stand where they stood.
pub proof fn law_asking_for_tests(list: ChecklistView, tests: Seq<usize>, i: int)
    requires
        forall|k: int| 0 <= k < tests.len() ==> (#[trigger] tests[k]) < list.reports.len(),
        0 <= i < list.reports.len(),
    ensures
        ({
            let after = list.enqueued(tests);
            let asked = exists|k: int| 0 <= k < tests.len() && #[trigger] tests[k] == i;
            &&& after.reports.len() == list.reports.len()
            &&& after.running == list.running
            &&& after.expanded == list.expanded
            &&& asked ==> after.reports[i] is None && after.queued.contains(i)
            &&& !asked ==> after.reports[i] == list.reports[i] && after.queued.contains(i)
                == list.queued.contains(i)
        }),
    decreases tests.len(),
{
    if tests.len() > 0 {
        let front = tests.drop_last();
        assert forall|k: int| 0 <= k < front.len() implies (#[trigger] front[k])
            < list.reports.len() by {
            assert(tests[k] == front[k]);
        }
        law_asking_for_tests(list, front, i);
        let n = tests.len() - 1;
        assert(tests[n] == tests.last());
        if exists|k: int| 0 <= k < front.len() && #[trigger] front[k] == i {
            let k = choose|k: int| 0 <= k < front.len() && #[trigger] front[k] == i;
            assert(tests[k] == i);
        }
        if exists|k: int| 0 <= k < tests.len() && #[trigger] tests[k] == i {
            let k = choose|k: int| 0 <= k < tests.len() && #[trigger] tests[k] == i;
            if k < n {
                assert(front[k] == i);
            }
        }
    }
}

/// What comes of one test leaves the others where they stand, but for one that was running. A
/// test that failed is opened up, one that passed is not.
pub proof fn law_tests_stand_by_themselves(
    list: ChecklistView,
    i: usize,
    report: TestReport,
    other: int,
)
    requires
        i < list.reports.len(),
        0 <= other < list.reports.len(),
        other != i,
        list.running is None || list.running == Some(i),
    ensures
        list.after(RunnerEvent::Started(i)).status(other) == list.status(other),
        list.after(RunnerEvent::Finished(i, report)).status(other) == list.status(other),
        list.after(RunnerEvent::Finished(i, report)).expanded.contains(other)
            == list.expanded.contains(other),
        !report.passed ==> list.after(RunnerEvent::Finished(i, report)).expanded.contains(
            i as int,
        ),
        report.passed ==> list.after(RunnerEvent::Finished(i, report)).expanded == list.expanded,
        list.after(RunnerEvent::Finished(i, report)).reports[i as int] == Some(report),
        !list.queued.contains(i as int) ==> list.after(
            RunnerEvent::Finished(i, report),
        ).status(i as int) == (if report.passed {
            Status::Passed
        } else {
            Status::Failed
        }),
        list.after(RunnerEvent::Done).reports == list.reports,
{
}

/// Who got a copy of the packet, of those told of after place `s`.
pub open spec fn receivers_after(events: Seq<TraceEntry>, s: int, id: u64) -> Seq<u64>
    decreases events.len(),
{
    if events.len() == 0 || events.len() <= s + 1 {
        Seq::empty()
    } else {
        let before = receivers_after(events.drop_last(), s, id);
        match events.last() {
            TraceEntry::Delivered { packet, receiver, .. } => if packet == id {
                before.push(receiver)
            } else {
                before
            },
            _ => before,
        }
    }
}

/// Why each copy of the packet was taken, of those told of after place `s`.
pub open spec fn rules_after(events: Seq<TraceEntry>, s: int, id: u64) -> Seq<Seq<char>>
    decreases events.len(),
{
    if events.len() == 0 || events.len() <= s + 1 {
        Seq::empty()
    } else {
        let before = rules_after(events.drop_last(), s, id);
        match events.last() {
            TraceEntry::Delivered { packet, rule, .. } => if packet == id {
                before.push(rule@)
            } else {
                before
            },
            _ => before,
        }
    }
}

/// How the packet was lost, by what is told last of it after place `s`: why, and where if that is
/// known.
pub open spec fn loss_after(snap: SnapView, events: Seq<TraceEntry>, s: int, id: u64) -> Option<
    Seq<char>,
>
    decreases events.len(),
{
    if events.len() == 0 || events.len() <= s + 1 {
        None
    } else {
        let before = loss_after(snap, events.drop_last(), s, id);
        match events.last() {
            TraceEntry::Dropped { packet, at, reason, .. } => if packet == id {
                Some(
                    crate::text::spaced(reason@) + match at {
                        Some(n) => " at "@ + snap.node_name(n),
                        None => Seq::empty(),
                    },
                )
            } else {
                before
            },
            _ => before,
        }
    }
}

/// Where a packet that was sent is followed to.
proof fn lemma_flight(activity: ActivityView, snap: SnapView, events: Seq<TraceEntry>, s: int)
    requires
        activity.bounded(),
        activity.drops + events.len() <= u64::MAX,
        0 <= s < events.len(),
        events[s] is Sent,
        forall|j: int|
            s < j < events.len() && (#[trigger] events[j]) is Sent ==> events[j]->Sent_packet
                != events[s]->Sent_packet,
    ensures
        ({
            let read = BatchView::start(activity).all_read(snap, events);
            let id = events[s]->Sent_packet;
            let k = crate::activity::sent_count(events.take(s)) as int;
            &&& 0 <= k < read.sent.len()
            &&& read.places.contains_key(id)
            &&& read.places[id] == k
            &&& forall|other: u64| #[trigger]
                read.places.contains_key(other) && other != id ==> read.places[other] != k && 0
                    <= read.places[other] < read.sent.len()
            &&& read.sent[k].flight == (FlightView {
                sender: events[s]->sender,
                link: events[s]->Sent_link,
                receivers: receivers_after(events, s, id),
                kind: events[s]->kind@,
            })
            &&& read.sent[k].tick == events[s]->Sent_tick
            &&& read.sent[k].to == events[s]->to@
            &&& read.sent[k].data == (match events[s]->data {
                Some(data) => Some(data@),
                None => None,
            })
            &&& read.sent[k].rules == rules_after(events, s, id)
            &&& read.sent[k].lost == loss_after(snap, events, s, id)
        }),
    decreases events.len(),
{
    let before = events.drop_last();
    let id = events[s]->Sent_packet;
    let k = crate::activity::sent_count(events.take(s)) as int;
    let n = events.len() - 1;
    crate::activity::lemma_all_read(activity, snap, before);
    if s == n {
        assert(events.take(s) =~= before);
    } else {
        assert(before[s] == events[s]);
        assert(before.take(s) =~= events.take(s));
        assert forall|j: int|
            s < j < before.len() && (
            #[trigger] before[j]) is Sent implies before[j]->Sent_packet != id by {
            assert(events[j] == before[j]);
        }
        lemma_flight(activity, snap, before, s);
        assert(events[n] == events.last());
    }
}

/// Each packet in a trace is shown as one flight: from its sender, over its link, to everyone whom
/// the trace says later that it was delivered to, in that order, as long as no later packet goes
/// by its number. Its place among the flights is its place among the packets sent.
pub proof fn law_flights_reach_their_receivers(
    activity: ActivityView,
    snap: SnapView,
    events: Seq<TraceEntry>,
    s: int,
)
    requires
        activity.bounded(),
        activity.drops + events.len() <= u64::MAX,
        0 <= s < events.len(),
        events[s] is Sent,
        forall|j: int|
            s < j < events.len() && (#[trigger] events[j]) is Sent ==> events[j]->Sent_packet
                != events[s]->Sent_packet,
    ensures
        ({
            let k = crate::activity::sent_count(events.take(s)) as int;
            &&& k < activity.flights(snap, events).len()
            &&& activity.flights(snap, events)[k] == (FlightView {
                sender: events[s]->sender,
                link: events[s]->Sent_link,
                receivers: receivers_after(events, s, events[s]->Sent_packet),
                kind: events[s]->kind@,
            })
        }),
{
    lemma_flight(activity, snap, events, s);
}

/// A packet's line in the log is about its sender and its receivers. It is marked lost if the
/// packet was, and by the kind of its event otherwise.
pub proof fn law_lines_are_about_those_involved(packet: PendingView, snap: SnapView, node: u64)
    ensures
        packet.line(snap).tick == packet.tick,
        packet.line(snap).nodes.contains(node) <==> node == packet.flight.sender
            || packet.flight.receivers.contains(node),
        packet.lost is Some ==> packet.line(snap).tone == ToneView::Lost,
        packet.lost is None ==> packet.line(snap).tone == ToneView::Event(packet.flight.kind),
{
    let nodes = packet.line(snap).nodes;
    let receivers = packet.flight.receivers;
    assert(nodes[0] == packet.flight.sender);
    if receivers.contains(node) {
        let i = choose|i: int| 0 <= i < receivers.len() && receivers[i] == node;
        assert(nodes[i + 1] == node);
    }
    if nodes.contains(node) {
        let i = choose|i: int| 0 <= i < nodes.len() && nodes[i] == node;
        if i > 0 {
            assert(receivers[i - 1] == node);
        }
    }
}

/// Drawing spokes to some links draws just those, and shows just the links that the level does
/// not own.
proof fn lemma_spokes(scene: SceneView, own: Seq<u64>, child: u64, links: Seq<u64>)
    ensures
        ({
            let after = scene.with_spokes(own, child, links);
            &&& forall|c: u64, l: u64| #[trigger]
                after.edges.contains((c, l)) <==> scene.edges.contains((c, l)) || c == child
                    && links.contains(l)
            &&& forall|l: u64| #[trigger]
                after.outer_links.contains(l) <==> scene.outer_links.contains(l)
                    || !own.contains(l) && links.contains(l)
            &&& forall|n: u64| #[trigger]
                after.items.contains(Item::Node(n)) <==> scene.items.contains(Item::Node(n))
        }),
    decreases links.len(),
{
    let after = scene.with_spokes(own, child, links);
    if links.len() > 0 {
        let front = links.drop_last();
        let last = links.last();
        lemma_spokes(scene, own, child, front);
        let before = scene.with_spokes(own, child, front);
        assert(links =~= front.push(last));
        crate::lists::lemma_push_contains(front, last);
        crate::lists::lemma_push_contains(before.edges, (child, last));
        crate::lists::lemma_push_contains(before.outer_links, last);
        crate::lists::lemma_push_contains(before.items, Item::Link(last));
    }
}

/// The links that a node is attached to.
pub open spec fn links_of(snap: SnapView, id: u64) -> Seq<u64> {
    match snap.node(id) {
        Some(n) => n.subscriptions@,
        None => Seq::empty(),
    }
}

/// Showing some children shows just those, with just their spokes.
proof fn lemma_children(scene: SceneView, snap: SnapView, own: Seq<u64>, children: Seq<u64>)
    ensures
        ({
            let after = scene.with_children(snap, own, children);
            &&& forall|c: u64, l: u64| #[trigger]
                after.edges.contains((c, l)) <==> scene.edges.contains((c, l))
                    || children.contains(c) && links_of(snap, c).contains(l)
            &&& forall|l: u64| #[trigger]
                after.outer_links.contains(l) <==> scene.outer_links.contains(l)
                    || !own.contains(l) && exists|c: u64| #[trigger]
                    children.contains(c) && links_of(snap, c).contains(l)
            &&& forall|n: u64| #[trigger]
                after.items.contains(Item::Node(n)) <==> scene.items.contains(Item::Node(n))
                    || children.contains(n)
        }),
    decreases children.len(),
{
    if children.len() > 0 {
        let front = children.drop_last();
        let last = children.last();
        lemma_children(scene, snap, own, front);
        let before = scene.with_children(snap, own, front);
        let after = scene.with_children(snap, own, children);
        let shown = SceneView { items: before.items.push(Item::Node(last)), ..before };
        assert(children =~= front.push(last));
        crate::lists::lemma_push_contains(front, last);
        crate::lists::lemma_push_contains(before.items, Item::Node(last));
        lemma_spokes(shown, own, last, links_of(snap, last));
        assert forall|l: u64| #[trigger] after.outer_links.contains(l)
            <==> scene.outer_links.contains(l) || !own.contains(l) && exists|c: u64| #[trigger]
            children.contains(c) && links_of(snap, c).contains(l) by {
            if exists|c: u64| #[trigger] front.contains(c) && links_of(snap, c).contains(l) {
                let c = choose|c: u64| #[trigger]
                    front.contains(c) && links_of(snap, c).contains(l);
                assert(children.contains(c));
            }
            if exists|c: u64| #[trigger] children.contains(c) && links_of(snap, c).contains(l) {
                let c = choose|c: u64| #[trigger]
                    children.contains(c) && links_of(snap, c).contains(l);
                if c != last {
                    assert(front.contains(c));
                }
            }
            assert(children.contains(last));
        }
    }
}

/// A level draws a spoke from each of its nodes to each link that node is attached to, and no
/// other. Of the links that it does not own it shows just those that one of its nodes is attached
/// to, and of the nodes just its own.
pub proof fn law_spokes_are_attachments(snap: SnapView, scope: u64)
    requires
        snap.node(scope) is Some,
    ensures
        ({
            let scene = SceneView::of(snap, scope);
            let node = snap.node(scope)->0;
            &&& forall|c: u64, l: u64| #[trigger]
                scene.edges.contains((c, l)) <==> node.children@.contains(c) && links_of(
                    snap,
                    c,
                ).contains(l)
            &&& forall|l: u64| #[trigger]
                scene.outer_links.contains(l) <==> !node.internal_links@.contains(l) && exists|
                    c: u64,
                | #[trigger]
                    node.children@.contains(c) && links_of(snap, c).contains(l)
            &&& forall|n: u64| #[trigger]
                scene.items.contains(Item::Node(n)) <==> node.children@.contains(n)
        }),
{
    let node = snap.node(scope)->0;
    let own = node.internal_links@;
    let start = SceneView { items: crate::scene::link_items(own), ..SceneView::empty() };
    lemma_children(start, snap, own, node.children@);
    assert forall|n: u64| !#[trigger] start.items.contains(Item::Node(n)) by {
        if start.items.contains(Item::Node(n)) {
            let i = choose|i: int| 0 <= i < start.items.len() && start.items[i] == Item::Node(n);
            assert(start.items[i] == Item::Link(own[i]));
        }
    }
}

/// What an item is shown in: a node in the node it is inside, a link in its owner, and what is in
/// nothing in the world.
pub proof fn law_what_shows_an_item(snap: SnapView, id: u64)
    ensures
        snap.parent(id) matches Some(p) ==> crate::scene::container(snap, Item::Node(id)) == p,
        snap.parent(id) is None ==> crate::scene::container(snap, Item::Node(id)) == snap.root,
        snap.link(id) matches Some(l) ==> l.owner matches Some(o) ==> crate::scene::container(
            snap,
            Item::Link(id),
        ) == o,
        snap.link(id) matches Some(l) ==> l.owner is None ==> crate::scene::container(
            snap,
            Item::Link(id),
        ) == snap.root,
{
}

/// Underscores show as spaces, everything else as it is.
pub proof fn law_underscores_show_as_spaces(s: Seq<char>, i: int)
    ensures
        crate::text::spaced(s).len() == s.len(),
        0 <= i < s.len() ==> crate::text::spaced(s)[i] == if s[i] == '_' {
            ' '
        } else {
            s[i]
        },
{
}

/// What a line says of a receiver: the name, and in brackets why the packet was taken unless it
/// was meant for the receiver or for all.
pub open spec fn receiver_words(snap: SnapView, receiver: u64, rule: Seq<char>) -> Seq<char> {
    if rule == "addressed"@ || rule == "broadcast"@ {
        snap.node_name(receiver)
    } else {
        snap.node_name(receiver) + " ("@ + crate::text::spaced(rule) + ")"@
    }
}

/// What the line of the packet sent at place `s` of a trace says: who sent what to where over which
/// link, who heard it, and how it was lost.
pub open spec fn packet_words(snap: SnapView, events: Seq<TraceEntry>, s: int) -> Seq<char> {
    let sent = events[s];
    let id = sent->Sent_packet;
    let receivers = receivers_after(events, s, id);
    let rules = rules_after(events, s, id);
    snap.node_name(sent->sender) + " ─"@ + sent->kind@ + (match sent->data {
        Some(data) => if data@.len() > 0 {
            " \""@ + data@ + "\""@
        } else {
            Seq::empty()
        },
        None => Seq::empty(),
    }) + "→ "@ + sent->to@ + "  via "@ + snap.link_name(sent->Sent_link) + (if receivers.len()
        == 0 {
        "  ⇒ nobody"@
    } else {
        "  ⇒ "@ + crate::text::join_text(
            Seq::new(receivers.len(), |i: int| receiver_words(snap, receivers[i], rules[i])),
            ", "@,
        )
    }) + (match loss_after(snap, events, s, id) {
        Some(lost) => "  ✕ "@ + lost,
        None => Seq::empty(),
    })
}

/// The lines about what was noted.
pub open spec fn note_lines(snap: SnapView, events: Seq<TraceEntry>) -> Seq<LineView>
    decreases events.len(),
{
    if events.len() == 0 {
        Seq::empty()
    } else {
        let before = note_lines(snap, events.drop_last());
        match events.last() {
            TraceEntry::Note { tick, node, text } => before.push(
                LineView {
                    tick,
                    text: snap.node_name(node) + ": "@ + text@,
                    tone: ToneView::Note,
                    nodes: seq![node],
                },
            ),
            _ => before,
        }
    }
}

/// The alerts in a trace.
pub open spec fn alerts_in(events: Seq<TraceEntry>) -> Seq<AlertReportView>
    decreases events.len(),
{
    if events.len() == 0 {
        Seq::empty()
    } else {
        let before = alerts_in(events.drop_last());
        match events.last() {
            TraceEntry::Alert(a) => before.push(a@),
            _ => before,
        }
    }
}

/// The last two thousand lines.
pub open spec fn kept(lines: Seq<LineView>) -> Seq<LineView> {
    if lines.len() <= 2000 {
        lines
    } else {
        lines.skip(lines.len() - 2000)
    }
}

proof fn lemma_kept(lines: Seq<LineView>, line: LineView, activity: ActivityView)
    requires
        activity.log == kept(lines),
    ensures
        activity.logged(line).log == kept(lines.push(line)),
{
    assert(activity.logged(line).log =~= kept(lines.push(line)));
}

proof fn lemma_notes(activity: ActivityView, snap: SnapView, events: Seq<TraceEntry>)
    requires
        activity.bounded(),
    ensures
        ({
            let read = BatchView::start(activity).all_read(snap, events);
            &&& read.activity.log == kept(activity.log + note_lines(snap, events))
            &&& read.activity.alerts == activity.alerts + alerts_in(events)
        }),
    decreases events.len(),
{
    let read = BatchView::start(activity).all_read(snap, events);
    if events.len() == 0 {
        assert(activity.log + note_lines(snap, events) =~= activity.log);
        assert(activity.alerts + alerts_in(events) =~= activity.alerts);
    } else {
        let front = events.drop_last();
        lemma_notes(activity, snap, front);
        let before = BatchView::start(activity).all_read(snap, front);
        let lines = activity.log + note_lines(snap, front);
        match events.last() {
            TraceEntry::Note { tick, node, text } => {
                let line = LineView {
                    tick,
                    text: snap.node_name(node) + ": "@ + text@,
                    tone: ToneView::Note,
                    nodes: seq![node],
                };
                lemma_kept(lines, line, before.activity);
                assert(lines.push(line) =~= activity.log + note_lines(snap, events));
            },
            TraceEntry::Alert(a) => {
                assert((activity.alerts + alerts_in(front)).push(a@) =~= activity.alerts
                    + alerts_in(events));
            },
            _ => {},
        }
    }
}

proof fn lemma_packets_logged(
    activity: ActivityView,
    lines: Seq<LineView>,
    snap: SnapView,
    batch: Seq<PendingView>,
)
    requires
        activity.log == kept(lines),
    ensures
        activity.all_flown(snap, batch).log == kept(
            lines + Seq::new(batch.len(), |k: int| batch[k].line(snap)),
        ),
        activity.all_flown(snap, batch).alerts == activity.alerts,
    decreases batch.len(),
{
    let told = Seq::new(batch.len(), |k: int| batch[k].line(snap));
    if batch.len() == 0 {
        assert(lines + told =~= lines);
    } else {
        let front = batch.drop_last();
        lemma_packets_logged(activity, lines, snap, front);
        let before = lines + Seq::new(front.len(), |k: int| front[k].line(snap));
        let flown = activity.all_flown(snap, front);
        let counted = ActivityView { packets: crate::trace::bump(flown.packets), ..flown };
        lemma_kept(before, batch.last().line(snap), counted);
        assert(before.push(batch.last().line(snap)) =~= lines + told);
    }
}

/// A trace is told of in the log: first what was noted, then one line for each packet sent, after
/// all that was there; of all this the last two thousand lines are kept. Alerts are added to the
/// alerts there were.
pub proof fn law_the_log_keeps_the_latest(
    activity: ActivityView,
    snap: SnapView,
    events: Seq<TraceEntry>,
) -> (told: Seq<LineView>)
    requires
        activity.bounded(),
        activity.drops + events.len() <= u64::MAX,
    ensures
        told.len() == crate::activity::sent_count(events),
        activity.ingested(snap, events).log == kept(
            activity.log + note_lines(snap, events) + told,
        ),
        activity.ingested(snap, events).alerts == activity.alerts + alerts_in(events),
        forall|s: int|
            is_followed(events, s) ==> #[trigger] told[crate::activity::sent_count(
                events.take(s),
            ) as int] == (LineView {
                tick: events[s]->Sent_tick,
                text: packet_words(snap, events, s),
                tone: if loss_after(snap, events, s, events[s]->Sent_packet) is Some {
                    ToneView::Lost
                } else {
                    ToneView::Event(events[s]->kind@)
                },
                nodes: seq![events[s]->sender] + receivers_after(
                    events,
                    s,
                    events[s]->Sent_packet,
                ),
            }),
{
    crate::activity::lemma_all_read(activity, snap, events);
    let read = BatchView::start(activity).all_read(snap, events);
    lemma_notes(activity, snap, events);
    lemma_packets_logged(
        read.activity,
        activity.log + note_lines(snap, events),
        snap,
        read.sent,
    );
    let told = Seq::new(read.sent.len(), |k: int| read.sent[k].line(snap));
    assert forall|s: int| is_followed(events, s) implies #[trigger] told[crate::activity::sent_count(
        events.take(s),
    ) as int] == (LineView {
        tick: events[s]->Sent_tick,
        text: packet_words(snap, events, s),
        tone: if loss_after(snap, events, s, events[s]->Sent_packet) is Some {
            ToneView::Lost
        } else {
            ToneView::Event(events[s]->kind@)
        },
        nodes: seq![events[s]->sender] + receivers_after(events, s, events[s]->Sent_packet),
    }) by {
        lemma_flight(activity, snap, events, s);
        lemma_as_many_rules(events, s, events[s]->Sent_packet);
        let k = crate::activity::sent_count(events.take(s)) as int;
        let p = read.sent[k];
        let receivers = receivers_after(events, s, events[s]->Sent_packet);
        let rules = rules_after(events, s, events[s]->Sent_packet);
        assert(crate::activity::all_heard(snap, receivers, rules) =~= Seq::new(
            receivers.len(),
            |i: int| receiver_words(snap, receivers[i], rules[i]),
        ));
        assert(p.text(snap) =~= packet_words(snap, events, s));
    }
    told
}

/// Whether a packet was sent at place `s` of a trace, and no later one goes by its number.
pub open spec fn is_followed(events: Seq<TraceEntry>, s: int) -> bool {
    &&& 0 <= s < events.len()
    &&& events[s] is Sent
    &&& forall|j: int|
        s < j < events.len() && (#[trigger] events[j]) is Sent ==> events[j]->Sent_packet
            != events[s]->Sent_packet
}

proof fn lemma_as_many_rules(events: Seq<TraceEntry>, s: int, id: u64)
    ensures
        rules_after(events, s, id).len() == receivers_after(events, s, id).len(),
    decreases events.len(),
{
    if events.len() > 0 && events.len() > s + 1 {
        lemma_as_many_rules(events.drop_last(), s, id);
    }
}

/// Tests that passed and tests that failed are counted one by one; a test that has not been run
/// counts as neither.
pub proof fn law_results_are_counted(
    front: Seq<Option<TestReport>>,
    back: Seq<Option<TestReport>>,
    one: Option<TestReport>,
    passed: bool,
)
    ensures
        crate::checklist::count(seq![one], passed) == (if one matches Some(r) && r.passed
            == passed {
            1nat
        } else {
            0nat
        }),
        crate::checklist::count(front + back, passed) == crate::checklist::count(front, passed)
            + crate::checklist::count(back, passed),
    decreases back.len(),
{
    assert(seq![one].drop_last() =~= Seq::<Option<TestReport>>::empty());
    reveal_with_fuel(crate::checklist::count, 2);
    if back.len() > 0 {
        law_results_are_counted(front, back.drop_last(), one, passed);
        assert((front + back).drop_last() =~= front + back.drop_last());
    } else {
        assert(front + back =~= front);
    }
}

} // verus!
