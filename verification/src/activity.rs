//! Turns the trace into things to show: packets in flight, a traffic log and a list of alerts.

use std::collections::{HashMap, VecDeque};

use vstd::prelude::*;
use vstd::string::*;

use crate::forms::holds_link;
use crate::report::{AlertReport, TraceEntry};
use crate::snapshot::Snapshot;
use crate::text::{join, same_text, spaced_out};

verus! {

broadcast use vstd::std_specs::hash::group_hash_axioms;

/// Most lines the traffic log holds.
pub const LOG_CAPACITY: usize = 2_000;

/// What a [`Flight`] holds.
#[verifier::ext_equal]
pub struct FlightView {
    pub sender: u64,
    pub link: u64,
    pub receivers: Seq<u64>,
    pub kind: Seq<char>,
}

/// One transmission: a sender puts a packet on a link and some listeners accept it.
#[derive(Debug)]
pub struct Flight {
    /// The node that sent it.
    pub sender: u64,
    /// The link it went onto.
    pub link: u64,
    /// The nodes that accepted a copy.
    pub receivers: Vec<u64>,
    /// The event's kind.
    pub kind: String,
}

impl View for Flight {
    type V = FlightView;

    open spec fn view(&self) -> FlightView {
        FlightView {
            sender: self.sender,
            link: self.link,
            receivers: self.receivers@,
            kind: self.kind@,
        }
    }
}

/// The flights' contents.
pub open spec fn flight_views(flights: Seq<Flight>) -> Seq<FlightView> {
    flights.map_values(|f: Flight| f@)
}

/// What colour a line of the log has.
#[verifier::ext_equal]
pub enum ToneView {
    Note,
    Lost,
    Event(Seq<char>),
}

/// What colour a line of the log has.
#[derive(Debug)]
pub enum Tone {
    /// A node's note.
    Note,
    /// A packet, or a copy of it, was lost.
    Lost,
    /// An event of this kind.
    Event(String),
}

impl View for Tone {
    type V = ToneView;

    open spec fn view(&self) -> ToneView {
        match *self {
            Tone::Note => ToneView::Note,
            Tone::Lost => ToneView::Lost,
            Tone::Event(kind) => ToneView::Event(kind@),
        }
    }
}

/// What a [`LogLine`] holds.
#[verifier::ext_equal]
pub struct LineView {
    pub tick: u64,
    pub text: Seq<char>,
    pub tone: ToneView,
    pub nodes: Seq<u64>,
}

/// A line in the traffic log.
#[derive(Debug)]
pub struct LogLine {
    /// Tick it is about.
    pub tick: u64,
    /// What happened.
    pub text: String,
    /// What colour it has.
    pub tone: Tone,
    /// Nodes involved, for filtering by selection.
    pub nodes: Vec<u64>,
}

impl View for LogLine {
    type V = LineView;

    open spec fn view(&self) -> LineView {
        LineView { tick: self.tick, text: self.text@, tone: self.tone@, nodes: self.nodes@ }
    }
}

impl LogLine {
    /// Whether the line is about `node`.
    pub fn involves(&self, node: u64) -> (r: bool)
        ensures
            r == self@.nodes.contains(node),
    {
        holds_link(&self.nodes, node)
    }
}

/// The lines' contents.
pub open spec fn line_views(lines: Seq<LogLine>) -> Seq<LineView> {
    lines.map_values(|l: LogLine| l@)
}

/// A packet whose delivery is still being read from the trace.
#[verifier::ext_equal]
pub struct PendingView {
    pub flight: FlightView,
    pub tick: u64,
    pub to: Seq<char>,
    pub data: Option<Seq<char>>,
    pub rules: Seq<Seq<char>>,
    pub lost: Option<Seq<char>>,
}

/// A packet whose delivery is still being read from the trace.
struct Pending {
    flight: Flight,
    tick: u64,
    to: String,
    data: Option<String>,
    rules: Vec<String>,
    lost: Option<String>,
}

/// An optional text's content.
pub open spec fn opt_text(s: Option<String>) -> Option<Seq<char>> {
    match s {
        Some(s) => Some(s@),
        None => None,
    }
}

impl View for Pending {
    type V = PendingView;

    closed spec fn view(&self) -> PendingView {
        PendingView {
            flight: self.flight@,
            tick: self.tick,
            to: self.to@,
            data: opt_text(self.data),
            rules: crate::text::texts(self.rules@),
            lost: opt_text(self.lost),
        }
    }
}

/// The packets' contents.
spec fn pending_views(batch: Seq<Pending>) -> Seq<PendingView> {
    batch.map_values(|p: Pending| p@)
}

/// How a receiver is listed: by name, and by what it accepted the packet for unless that goes
/// without saying.
pub open spec fn heard(
    snap: crate::snapshot::SnapView,
    receiver: u64,
    rule: Seq<char>,
) -> Seq<char> {
    if rule == "addressed"@ || rule == "broadcast"@ {
        snap.node_name(receiver)
    } else {
        snap.node_name(receiver) + " ("@ + crate::text::spaced(rule) + ")"@
    }
}

/// How the receivers are listed.
pub open spec fn all_heard(
    snap: crate::snapshot::SnapView,
    receivers: Seq<u64>,
    rules: Seq<Seq<char>>,
) -> Seq<Seq<char>> {
    Seq::new(
        if receivers.len() < rules.len() {
            receivers.len()
        } else {
            rules.len()
        },
        |i: int| heard(snap, receivers[i], rules[i]),
    )
}

impl PendingView {
    /// The packet on one line: who sent what to where over which link, who heard it, and how it
    /// was lost.
    pub open spec fn text(self, snap: crate::snapshot::SnapView) -> Seq<char> {
        let data = match self.data {
            Some(d) => if d.len() > 0 {
                " \""@ + d + "\""@
            } else {
                Seq::empty()
            },
            None => Seq::empty(),
        };
        let start = snap.node_name(self.flight.sender) + " ─"@ + self.flight.kind + data + "→ "@
            + self.to + "  via "@ + snap.link_name(self.flight.link);
        let middle = if self.flight.receivers.len() == 0 {
            "  ⇒ nobody"@
        } else {
            "  ⇒ "@ + crate::text::join_text(
                all_heard(snap, self.flight.receivers, self.rules),
                ", "@,
            )
        };
        let end = match self.lost {
            Some(lost) => "  ✕ "@ + lost,
            None => Seq::empty(),
        };
        start + middle + end
    }

    /// The packet as a line of the log.
    pub open spec fn line(self, snap: crate::snapshot::SnapView) -> LineView {
        LineView {
            tick: self.tick,
            text: self.text(snap),
            tone: if self.lost is Some {
                ToneView::Lost
            } else {
                ToneView::Event(self.flight.kind)
            },
            nodes: seq![self.flight.sender] + self.flight.receivers,
        }
    }
}

/// What an [`Activity`] holds.
#[verifier::ext_equal]
pub struct ActivityView {
    pub log: Seq<LineView>,
    pub alerts: Seq<crate::report::AlertReportView>,
    pub packets: u64,
    pub drops: u64,
}

impl ActivityView {
    /// With one more line in the log, at the expense of the oldest where it is full.
    pub open spec fn logged(self, line: LineView) -> ActivityView {
        ActivityView {
            log: if self.log.len() == LOG_CAPACITY {
                self.log.drop_first().push(line)
            } else {
                self.log.push(line)
            },
            ..self
        }
    }

    /// With one more packet, read to the end.
    pub open spec fn flown(
        self,
        snap: crate::snapshot::SnapView,
        packet: PendingView,
    ) -> ActivityView {
        (ActivityView { packets: crate::trace::bump(self.packets), ..self }).logged(
            packet.line(snap),
        )
    }

    /// With several more packets, read to the end.
    pub open spec fn all_flown(
        self,
        snap: crate::snapshot::SnapView,
        batch: Seq<PendingView>,
    ) -> ActivityView
        decreases batch.len(),
    {
        if batch.len() == 0 {
            self
        } else {
            self.all_flown(snap, batch.drop_last()).flown(snap, batch.last())
        }
    }

    /// With a trace read: notes as they come, packets after them.
    pub open spec fn ingested(
        self,
        snap: crate::snapshot::SnapView,
        events: Seq<TraceEntry>,
    ) -> ActivityView {
        let read = BatchView::start(self).all_read(snap, events);
        read.activity.all_flown(snap, read.sent)
    }

    /// The packets of a trace.
    pub open spec fn flights(
        self,
        snap: crate::snapshot::SnapView,
        events: Seq<TraceEntry>,
    ) -> Seq<FlightView> {
        BatchView::start(self).all_read(snap, events).sent.map_values(|p: PendingView| p.flight)
    }

    /// Whether the log is within its capacity.
    pub open spec fn bounded(self) -> bool {
        self.log.len() <= LOG_CAPACITY
    }
}

/// How far reading a trace has come. Packets are told apart by handle; what becomes of one
/// follows it.
#[verifier::ext_equal]
pub struct BatchView {
    pub sent: Seq<PendingView>,
    pub places: Map<u64, int>,
    pub activity: ActivityView,
}

impl BatchView {
    /// Nothing is read yet.
    pub open spec fn start(activity: ActivityView) -> BatchView {
        BatchView { sent: Seq::empty(), places: Map::empty(), activity }
    }

    /// With one event read.
    pub open spec fn read(self, snap: crate::snapshot::SnapView, event: TraceEntry) -> BatchView {
        match event {
            TraceEntry::Sent { tick, packet, sender, link, to, kind, data, .. } => BatchView {
                sent: self.sent.push(
                    PendingView {
                        flight: FlightView { sender, link, receivers: Seq::empty(), kind: kind@ },
                        tick,
                        to: to@,
                        data: opt_text(data),
                        rules: Seq::empty(),
                        lost: None,
                    },
                ),
                places: self.places.insert(packet, self.sent.len() as int),
                ..self
            },
            TraceEntry::Delivered { packet, receiver, rule, .. } => if self.places.contains_key(
                packet,
            ) {
                let i = self.places[packet];
                let was = self.sent[i];
                BatchView {
                    sent: self.sent.update(
                        i,
                        PendingView {
                            flight: FlightView {
                                receivers: was.flight.receivers.push(receiver),
                                ..was.flight
                            },
                            rules: was.rules.push(rule@),
                            ..was
                        },
                    ),
                    ..self
                }
            } else {
                self
            },
            TraceEntry::Dropped { packet, at, reason, .. } => {
                let activity = ActivityView {
                    drops: crate::trace::bump(self.activity.drops),
                    ..self.activity
                };
                if self.places.contains_key(packet) {
                    let i = self.places[packet];
                    BatchView {
                        sent: self.sent.update(
                            i,
                            PendingView { lost: Some(loss(snap, at, reason@)), ..self.sent[i] },
                        ),
                        activity,
                        ..self
                    }
                } else {
                    BatchView { activity, ..self }
                }
            },
            TraceEntry::Note { tick, node, text } => BatchView {
                activity: self.activity.logged(
                    LineView {
                        tick,
                        text: snap.node_name(node) + ": "@ + text@,
                        tone: ToneView::Note,
                        nodes: seq![node],
                    },
                ),
                ..self
            },
            TraceEntry::Alert(a) => BatchView {
                activity: ActivityView {
                    alerts: self.activity.alerts.push(a@),
                    ..self.activity
                },
                ..self
            },
            TraceEntry::Other => self,
        }
    }

    /// With several events read.
    pub open spec fn all_read(
        self,
        snap: crate::snapshot::SnapView,
        events: Seq<TraceEntry>,
    ) -> BatchView
        decreases events.len(),
    {
        if events.len() == 0 {
            self
        } else {
            self.all_read(snap, events.drop_last()).read(snap, events.last())
        }
    }
}

/// How and where a packet was lost.
pub open spec fn loss(
    snap: crate::snapshot::SnapView,
    at: Option<u64>,
    reason: Seq<char>,
) -> Seq<char> {
    crate::text::spaced(reason) + match at {
        Some(n) => " at "@ + snap.node_name(n),
        None => Seq::empty(),
    }
}

/// Says how and where a packet was lost.
fn loss_text(snap: &Snapshot, at: Option<u64>, reason: &str) -> (r: String)
    ensures
        r@ == loss(snap@, at, reason@),
{
    let mut out = spaced_out(reason);
    match at {
        Some(n) => {
            out.append(" at ");
            out.append(snap.node_name(n));
            assert(out@ =~= loss(snap@, at, reason@));
        },
        None => {
            assert(out@ =~= loss(snap@, at, reason@));
        },
    }
    out
}

/// Lists the receivers.
fn list_heard(snap: &Snapshot, receivers: &Vec<u64>, rules: &Vec<String>) -> (r: Vec<String>)
    ensures
        crate::text::texts(r@) == all_heard(snap@, receivers@, crate::text::texts(rules@)),
{
    let n: usize = if receivers.len() < rules.len() {
        receivers.len()
    } else {
        rules.len()
    };
    let mut out: Vec<String> = Vec::new();
    let mut i: usize = 0;
    while i < n
        invariant
            i <= n <= receivers.len(),
            n <= rules.len(),
            out@.len() == i,
            forall|j: int|
                0 <= j < i ==> (#[trigger] out@[j])@ == heard(
                    snap@,
                    receivers@[j],
                    rules@[j]@,
                ),
        decreases n - i,
    {
        let rule = rules[i].as_str();
        let mut name = snap.node_name(receivers[i]).to_owned();
        if !same_text(rule, "addressed") && !same_text(rule, "broadcast") {
            name.append(" (");
            name.append(spaced_out(rule).as_str());
            name.append(")");
        }
        out.push(name);
        i += 1;
    }
    assert(crate::text::texts(out@) =~= all_heard(
        snap@,
        receivers@,
        crate::text::texts(rules@),
    ));
    out
}

/// A copy of a list of handles.
fn copy_of(list: &Vec<u64>) -> (r: Vec<u64>)
    ensures
        r@ == list@,
{
    let mut out: Vec<u64> = Vec::new();
    let mut i: usize = 0;
    while i < list.len()
        invariant
            i <= list.len(),
            out@ == list@.take(i as int),
        decreases list.len() - i,
    {
        out.push(list[i]);
        i += 1;
        assert(out@ =~= list@.take(i as int));
    }
    assert(list@.take(i as int) =~= list@);
    out
}

/// Describes a packet as a line of the log.
fn describe(snap: &Snapshot, p: &Pending) -> (r: LogLine)
    ensures
        r@ == p@.line(snap@),
{
    let ghost view = p@;
    let ghost data = match view.data {
        Some(d) => if d.len() > 0 {
            " \""@ + d + "\""@
        } else {
            Seq::empty()
        },
        None => Seq::empty(),
    };
    let mut text = snap.node_name(p.flight.sender).to_owned();
    text.append(" ─");
    text.append(p.flight.kind.as_str());
    let ghost before = text@;
    if let Some(d) = &p.data {
        if !same_text(d.as_str(), "") {
            text.append(" \"");
            text.append(d.as_str());
            text.append("\"");
        }
    }
    proof {
        reveal_strlit("");
        assert(""@ =~= Seq::<char>::empty());
        if let Some(d) = view.data {
            if d.len() == 0 {
                assert(d =~= ""@);
            }
        }
        assert(text@ =~= before + data);
    }
    text.append("→ ");
    text.append(p.to.as_str());
    text.append("  via ");
    text.append(snap.link_name(p.flight.link));
    let ghost start = text@;
    if p.flight.receivers.len() == 0 {
        text.append("  ⇒ nobody");
    } else {
        text.append("  ⇒ ");
        text.append(join(&list_heard(snap, &p.flight.receivers, &p.rules), ", ").as_str());
        assert(text@ =~= start + ("  ⇒ "@ + crate::text::join_text(
            all_heard(snap@, view.flight.receivers, view.rules),
            ", "@,
        )));
    }
    let ghost middle = text@;
    if let Some(lost) = &p.lost {
        text.append("  ✕ ");
        text.append(lost.as_str());
        assert(text@ =~= middle + ("  ✕ "@ + lost@));
    }
    assert(text@ =~= view.text(snap@));
    let tone = match &p.lost {
        Some(_) => Tone::Lost,
        None => Tone::Event(p.flight.kind.clone()),
    };
    let mut nodes: Vec<u64> = Vec::new();
    nodes.push(p.flight.sender);
    let mut receivers = copy_of(&p.flight.receivers);
    nodes.append(&mut receivers);
    assert(nodes@ =~= seq![view.flight.sender] + view.flight.receivers);
    LogLine { tick: p.tick, text, tone, nodes }
}

/// Recent traffic, kept for drawing.
#[derive(Debug)]
pub struct Activity {
    log: VecDeque<LogLine>,
    alerts: Vec<AlertReport>,
    packets: u64,
    drops: u64,
}

impl View for Activity {
    type V = ActivityView;

    closed spec fn view(&self) -> ActivityView {
        ActivityView {
            log: line_views(self.log@),
            alerts: crate::report::report_views(self.alerts@),
            packets: self.packets,
            drops: self.drops,
        }
    }
}

/// Whether `index` says where each packet of the batch is.
spec fn indexes(index: Map<u64, usize>, places: Map<u64, int>, n: nat) -> bool {
    &&& forall|id: u64| #[trigger] index.contains_key(id) <==> places.contains_key(id)
    &&& forall|id: u64| #[trigger] index.contains_key(id) ==> index[id] == places[id] && index[id] < n
}

/// An optional text once more.
fn copied_text(s: &Option<String>) -> (r: Option<String>)
    ensures
        opt_text(r) == opt_text(*s),
{
    match s {
        Some(s) => Some(s.clone()),
        None => None,
    }
}

impl Activity {
    /// No traffic yet.
    pub fn new() -> (r: Self)
        ensures
            r@ == (ActivityView { log: Seq::empty(), alerts: Seq::empty(), packets: 0, drops: 0 }),
    {
        let r = Activity { log: VecDeque::new(), alerts: Vec::new(), packets: 0, drops: 0 };
        assert(r@ =~= ActivityView { log: Seq::empty(), alerts: Seq::empty(), packets: 0, drops: 0 });
        r
    }

    /// Forgets everything.
    pub fn clear(&mut self)
        ensures
            final(self)@ == (ActivityView {
                log: Seq::empty(),
                alerts: Seq::empty(),
                packets: 0,
                drops: 0,
            }),
    {
        *self = Activity::new();
    }

    /// Forgets the lines of the log.
    pub fn clear_log(&mut self)
        ensures
            final(self)@ == (ActivityView { log: Seq::empty(), ..old(self)@ }),
    {
        self.log = VecDeque::new();
        assert(self@ =~= ActivityView { log: Seq::empty(), ..old(self)@ });
    }

    /// Packets seen so far.
    pub fn packets(&self) -> (r: u64)
        ensures
            r == self@.packets,
    {
        self.packets
    }

    /// Packets, or copies of them, seen lost so far.
    pub fn drops(&self) -> (r: u64)
        ensures
            r == self@.drops,
    {
        self.drops
    }

    /// Lines in the log.
    pub fn log_len(&self) -> (r: usize)
        ensures
            r == self@.log.len(),
    {
        self.log.len()
    }

    /// A line of the log, oldest first.
    pub fn line(&self, i: usize) -> (r: &LogLine)
        requires
            i < self@.log.len(),
        ensures
            r@ == self@.log[i as int],
    {
        &self.log[i]
    }

    /// The alerts, oldest first.
    pub fn alerts(&self) -> (r: &Vec<AlertReport>)
        ensures
            crate::report::report_views(r@) == self@.alerts,
    {
        &self.alerts
    }

    /// Adds a line to the log, at the expense of the oldest where it is full.
    fn push_log(&mut self, line: LogLine)
        ensures
            final(self)@ == old(self)@.logged(line@),
    {
        if self.log.len() == LOG_CAPACITY {
            let _ = self.log.pop_front();
        }
        self.log.push_back(line);
        assert(self@ =~= old(self)@.logged(line@));
    }

    /// Reads one event of a trace.
    fn read(
        &mut self,
        snap: &Snapshot,
        event: &TraceEntry,
        batch: &mut Vec<Pending>,
        index: &mut HashMap<u64, usize>,
        Ghost(state): Ghost<BatchView>,
    )
        requires
            state.activity == old(self)@,
            state.sent == pending_views(old(batch)@),
            indexes(old(index)@, state.places, old(batch)@.len()),
        ensures
            ({
                let next = state.read(snap@, *event);
                &&& next.activity == final(self)@
                &&& next.sent == pending_views(final(batch)@)
                &&& indexes(final(index)@, next.places, final(batch)@.len())
            }),
    {
        let ghost next = state.read(snap@, *event);
        match event {
            TraceEntry::Sent { tick, packet, sender, link, to, kind, data, .. } => {
                index.insert(*packet, batch.len());
                let p = Pending {
                    flight: Flight {
                        sender: *sender,
                        link: *link,
                        receivers: Vec::new(),
                        kind: kind.clone(),
                    },
                    tick: *tick,
                    to: to.clone(),
                    data: copied_text(data),
                    rules: Vec::new(),
                    lost: None,
                };
                assert(p@.flight.receivers =~= Seq::<u64>::empty());
                assert(p@.rules =~= Seq::<Seq<char>>::empty());
                batch.push(p);
                assert(pending_views(batch@) =~= next.sent);
            },
            TraceEntry::Delivered { packet, receiver, rule, .. } => {
                match index.get(packet) {
                    Some(i) => {
                        let ghost before = batch@;
                        let p = &mut batch[*i];
                        let ghost was = *p;
                        p.flight.receivers.push(*receiver);
                        p.rules.push(rule.clone());
                        proof {
                            assert(p@.rules =~= was@.rules.push(rule@));
                        }
                        assert(pending_views(batch@) =~= next.sent);
                    },
                    None => {},
                }
            },
            TraceEntry::Dropped { packet, at, reason, .. } => {
                self.drops = self.drops.saturating_add(1);
                assert(self@ =~= next.activity);
                match index.get(packet) {
                    Some(i) => {
                        let p = &mut batch[*i];
                        p.lost = Some(loss_text(snap, *at, reason.as_str()));
                        assert(pending_views(batch@) =~= next.sent);
                    },
                    None => {},
                }
            },
            TraceEntry::Note { tick, node, text } => {
                let mut line = snap.node_name(*node).to_owned();
                line.append(": ");
                line.append(text.as_str());
                let nodes: Vec<u64> = vec![*node];
                assert(nodes@ =~= seq![*node]);
                self.push_log(LogLine { tick: *tick, text: line, tone: Tone::Note, nodes });
            },
            TraceEntry::Alert(a) => {
                self.alerts.push(a.clone());
                assert(self@ =~= next.activity);
            },
            TraceEntry::Other => {},
        }
    }

    /// Adds one tick's trace. Returns its packets, for animating them.
    pub fn ingest(&mut self, snap: &Snapshot, events: &Vec<TraceEntry>) -> (r: Vec<Flight>)
        ensures
            final(self)@ == old(self)@.ingested(snap@, events@),
            flight_views(r@) == old(self)@.flights(snap@, events@),
    {
        let ghost start = BatchView::start(self@);
        let mut batch: Vec<Pending> = Vec::new();
        let mut index: HashMap<u64, usize> = HashMap::new();
        let mut i: usize = 0;
        proof {
            assert(pending_views(batch@) =~= Seq::<PendingView>::empty());
            assert(events@.take(0) =~= Seq::<TraceEntry>::empty());
        }
        while i < events.len()
            invariant
                i <= events.len(),
                start == BatchView::start(old(self)@),
                ({
                    let state = start.all_read(snap@, events@.take(i as int));
                    &&& state.activity == self@
                    &&& state.sent == pending_views(batch@)
                    &&& indexes(index@, state.places, batch@.len())
                }),
            decreases events.len() - i,
        {
            let ghost state = start.all_read(snap@, events@.take(i as int));
            self.read(snap, &events[i], &mut batch, &mut index, Ghost(state));
            i += 1;
            proof {
                assert(events@.take(i as int).drop_last() =~= events@.take(i - 1));
                assert(events@.take(i as int).last() == events@[i - 1]);
            }
        }
        assert(events@.take(i as int) =~= events@);
        let ghost read = start.all_read(snap@, events@);
        let ghost all = batch@;
        let mut flights: Vec<Flight> = Vec::new();
        proof {
            assert(pending_views(all).take(0) =~= Seq::<PendingView>::empty());
        }
        let mut queue = into_queue(batch);
        let ghost mut done: int = 0;
        while queue.len() > 0
            invariant
                0 <= done <= all.len(),
                queue@ == all.skip(done),
                read.sent == pending_views(all),
                self@ == read.activity.all_flown(snap@, read.sent.take(done)),
                flight_views(flights@) == read.sent.take(done).map_values(
                    |p: PendingView| p.flight,
                ),
            decreases queue@.len(),
        {
            if let Some(p) = queue.pop_front() {
                let ghost next = read.sent.take(done + 1);
                proof {
                    assert(next.drop_last() =~= read.sent.take(done));
                    assert(next.last() == p@);
                }
                self.packets = self.packets.saturating_add(1);
                assert(self@ =~= ActivityView {
                    packets: crate::trace::bump(
                        read.activity.all_flown(snap@, read.sent.take(done)).packets,
                    ),
                    ..read.activity.all_flown(snap@, read.sent.take(done))
                });
                let line = describe(snap, &p);
                self.push_log(line);
                let ghost flight = p@.flight;
                let ghost was = flights@;
                flights.push(p.flight);
                proof {
                    assert(flight_views(flights@) =~= flight_views(was).push(flight));
                    assert(read.sent[done].flight == flight);
                    assert(read.sent.take(done + 1).map_values(|p: PendingView| p.flight)
                        =~= read.sent.take(done).map_values(|p: PendingView| p.flight).push(
                        flight,
                    ));
                    done = done + 1;
                    assert(queue@ =~= all.skip(done));
                }
            }
        }
        proof {
            assert(read.sent.take(done) =~= read.sent);
        }
        flights
    }
}

/// The packets in the same order, to be taken from the front.
fn into_queue(batch: Vec<Pending>) -> (r: VecDeque<Pending>)
    ensures
        r@ == batch@,
{
    let mut batch = batch;
    let mut queue: VecDeque<Pending> = VecDeque::new();
    let ghost all = batch@;
    while batch.len() > 0
        invariant
            batch@ + queue@ == all,
        decreases batch@.len(),
    {
        if let Some(p) = batch.pop() {
            queue.push_front(p);
            assert(batch@ + queue@ =~= all);
        }
    }
    assert(queue@ =~= all);
    queue
}

/// How many packets were sent.
pub open spec fn sent_count(events: Seq<TraceEntry>) -> nat
    decreases events.len(),
{
    if events.len() == 0 {
        0
    } else {
        sent_count(events.drop_last()) + if events.last() is Sent {
            1nat
        } else {
            0
        }
    }
}

/// How many packets, or copies of them, were lost.
pub open spec fn dropped_count(events: Seq<TraceEntry>) -> nat
    decreases events.len(),
{
    if events.len() == 0 {
        0
    } else {
        dropped_count(events.drop_last()) + if events.last() is Dropped {
            1nat
        } else {
            0
        }
    }
}

/// Reading finds each packet sent and each one lost, and keeps the log within its capacity.
pub proof fn lemma_all_read(
    activity: ActivityView,
    snap: crate::snapshot::SnapView,
    events: Seq<TraceEntry>,
)
    requires
        activity.bounded(),
        activity.drops + events.len() <= u64::MAX,
    ensures
        ({
            let read = BatchView::start(activity).all_read(snap, events);
            &&& read.sent.len() == sent_count(events)
            &&& read.activity.packets == activity.packets
            &&& read.activity.drops == activity.drops + dropped_count(events)
            &&& dropped_count(events) <= events.len()
            &&& read.activity.bounded()
            &&& forall|id: u64| #[trigger] read.places.contains_key(id) ==> 0 <= read.places[id]
                < read.sent.len()
        }),
    decreases events.len(),
{
    if events.len() > 0 {
        lemma_all_read(activity, snap, events.drop_last());
    }
}

/// Showing packets counts each one, and keeps the log within its capacity.
proof fn lemma_all_flown(
    activity: ActivityView,
    snap: crate::snapshot::SnapView,
    batch: Seq<PendingView>,
)
    requires
        activity.bounded(),
        activity.packets + batch.len() <= u64::MAX,
    ensures
        activity.all_flown(snap, batch).bounded(),
        activity.all_flown(snap, batch).packets == activity.packets + batch.len(),
        activity.all_flown(snap, batch).drops == activity.drops,
    decreases batch.len(),
{
    if batch.len() > 0 {
        lemma_all_flown(activity, snap, batch.drop_last());
    }
}

/// How many packets were sent is no more than how much happened.
proof fn lemma_sent_count(events: Seq<TraceEntry>)
    ensures
        sent_count(events) <= events.len(),
    decreases events.len(),
{
    if events.len() > 0 {
        lemma_sent_count(events.drop_last());
    }
}

/// The log never grows past its capacity, and every packet sent and every loss in the trace is
/// counted once, with one flight for each packet.
pub proof fn law_activity_counts_everything(
    activity: ActivityView,
    snap: crate::snapshot::SnapView,
    events: Seq<TraceEntry>,
)
    requires
        activity.bounded(),
        activity.packets + events.len() <= u64::MAX,
        activity.drops + events.len() <= u64::MAX,
    ensures
        activity.ingested(snap, events).bounded(),
        activity.ingested(snap, events).packets == activity.packets + sent_count(events),
        activity.ingested(snap, events).drops == activity.drops + dropped_count(events),
        activity.flights(snap, events).len() == sent_count(events),
{
    lemma_sent_count(events);
    lemma_all_read(activity, snap, events);
    let read = BatchView::start(activity).all_read(snap, events);
    lemma_all_flown(read.activity, snap, read.sent);
}

} // verus!
