//! Node behaviour: what a logic can see and do while it runs.

use std::collections::VecDeque;

use vstd::prelude::*;
use vstd::string::*;

use crate::ids::{LinkId, NodeId};
use crate::lists::copied;
use crate::names;
use crate::network::Network;
use crate::packet::{Event, Packet, PacketId};
use crate::route::{Hop, PacketRoute, RouteError};
use crate::text::same_text;
use crate::trace::{TraceEvent, TraceLog};

verus! {

/// What a logic remembers.
#[verifier::ext_equal]
pub enum LogicState {
    /// Nothing.
    Nothing,
    /// How many ticks lie between its turns.
    Interval(u64),
    /// What it sends over and over.
    Replayer(Option<crate::faulty::ReplayView>),
    /// A computer's gateway.
    Kernel(crate::computer::KernelView),
    /// A non-player character.
    Npc(crate::npc::NpcView),
    /// Whatever a logic from outside remembers, written down in numbers.
    Other(Seq<int>),
}

/// What comes of a callback: what the logic remembers and its context afterwards, and why it
/// crashed if it did.
#[verifier::ext_equal]
pub struct Response {
    pub state: LogicState,
    pub context: ContextView,
    pub crash: Option<Seq<char>>,
}

/// What comes of a callback that left `state` and `context` and returned `r`.
pub open spec fn response(
    state: LogicState,
    context: ContextView,
    r: Result<(), String>,
) -> Response {
    Response {
        state,
        context,
        crash: match r {
            Ok(_) => None,
            Err(why) => Some(why@),
        },
    }
}

/// How a logic behaves, whatever it remembers: what may come of a callback, which packets it
/// wants that the standard rules would ignore, and how it relays.
#[verifier::ext_equal]
pub struct LogicRules {
    pub reacts: spec_fn(LogicState, crate::behaviour::CallView, ContextView, Response) -> bool,
    pub wants: spec_fn(LogicState, crate::packet::PacketView) -> bool,
    pub relaying: spec_fn(LogicState) -> Relaying,
}

/// Behaviour attached to a node: what it does when packets arrive and as time passes.
///
/// Implementations never touch links, queues or scheduling. Everything they send through the
/// [`Context`] is queued and delivered on the next [`World::tick`](crate::world::World::tick),
/// which keeps delivery deterministic and stops a reply from cascading inside the same tick.
///
/// A callback that returns an error has crashed: the error says why. The world then removes the
/// logic, reports the crash, and carries on. A logic that has nothing to do on its start or every
/// tick returns `Ok(())` there; one that wants and relays nothing special says `false` and
/// [`Relaying::Never`].
///
/// A callback must not panic: while it runs, the world's queue and trace are in its context, and a
/// panic would take them with it. A host whose logic may panic attaches a logic around it that
/// catches the panic and returns what it said as the error.
///
/// A logic keeps to its rules: they say what may come of each callback, given what the logic
/// remembers. What it remembers may change, the rules and the kind stay.
pub trait ControllerLogic: Send {
    /// What the logic is called.
    open spec fn kind_text(&self) -> Seq<char> {
        arbitrary()
    }

    /// How the logic behaves.
    open spec fn rules(&self) -> LogicRules {
        arbitrary()
    }

    /// What the logic remembers.
    open spec fn state(&self) -> LogicState {
        arbitrary()
    }

    /// Identifies the logic, such as `"responder"`. Used by hosts, the UI and save files.
    fn kind(&self) -> (r: &'static str)
        ensures
            r@ == self.kind_text(),
    ;

    /// Called once when the logic is attached to a node.
    fn on_start(&mut self, ctx: &mut Context<'_>) -> (r: Result<(), String>)
        ensures
            final(ctx)@.extends(old(ctx)@),
            final(self).kind_text() == old(self).kind_text(),
            final(self).rules() == old(self).rules(),
            (old(self).rules().reacts)(
                old(self).state(),
                crate::behaviour::CallView::Start,
                old(ctx)@,
                response(final(self).state(), final(ctx)@, r),
            ),
    ;

    /// Called once per tick, before that tick's packets are delivered.
    fn on_tick(&mut self, ctx: &mut Context<'_>) -> (r: Result<(), String>)
        ensures
            final(ctx)@.extends(old(ctx)@),
            final(self).kind_text() == old(self).kind_text(),
            final(self).rules() == old(self).rules(),
            (old(self).rules().reacts)(
                old(self).state(),
                crate::behaviour::CallView::Tick,
                old(ctx)@,
                response(final(self).state(), final(ctx)@, r),
            ),
    ;

    /// Called for every packet this node accepts. [`Context::accepted_by`] says why it was
    /// accepted and [`Context::arrived_on`] which link it came in on.
    fn on_received(&mut self, packet: &Packet, ctx: &mut Context<'_>) -> (r: Result<(), String>)
        ensures
            final(ctx)@.extends(old(ctx)@),
            final(self).kind_text() == old(self).kind_text(),
            final(self).rules() == old(self).rules(),
            (old(self).rules().reacts)(
                old(self).state(),
                crate::behaviour::CallView::Received(packet@),
                old(ctx)@,
                response(final(self).state(), final(ctx)@, r),
            ),
    ;

    /// Opt in to packets the standard accept rules would ignore. Use sparingly.
    fn wants(&self, packet: &Packet) -> (r: bool)
        ensures
            r == (self.rules().wants)(self.state(), packet@),
    ;

    /// How this logic passes traffic between the links its node is on. The monitor uses it to
    /// find loops in the topology before any traffic flows.
    fn relaying(&self) -> (r: Relaying)
        ensures
            r == (self.rules().relaying)(self.state()),
    ;
}

/// How a logic passes traffic between links, for loop detection.
#[derive(Debug, Clone, Copy, PartialEq, Eq, Structural, Hash)]
pub enum Relaying {
    /// Never passes traffic on.
    Never,
    /// Passes traffic between its internal and external links only where a packet's route says
    /// to (a gateway). Route depth bounds this, so routed nodes alone cannot make an endless
    /// loop, but they can complete one that a flooding relay starts.
    Routed,
    /// Passes everything it hears to its other links (a hub or bridge). Any cycle through one of
    /// these loops.
    Flooding,
}

/// Why a node accepted a packet.
#[derive(Debug, Clone, Copy, PartialEq, Eq, Structural, Hash)]
pub enum AcceptRule {
    /// Addressed to this node by name.
    Addressed,
    /// Addressed to everyone (`*`).
    Broadcast,
    /// Sent by one of this node's children to `^` on a link this node owns.
    ChildToParent,
    /// Sent on a link this node owns, headed for a link it does not: this node is the gateway.
    Gateway,
    /// Accepted because the node's logic asked for it ([`ControllerLogic::wants`]).
    Forced,
}

/// Hard limits that keep a runaway network from taking the host down with it: the fuse.
///
/// When a tick reaches a limit it stops delivering, keeps the rest queued, and returns
/// [`TickOutcome::FuseTripped`](crate::world::TickOutcome::FuseTripped) with a
/// [`FuseReport`](crate::world::FuseReport) explaining why. The world is never left
/// inconsistent; what to do next (pause, inspect, carry on) is the host's decision.
#[derive(Debug, Clone, Copy, PartialEq, Eq, Structural)]
pub struct Limits {
    /// Most packets put on links in one tick.
    pub max_transmissions_per_tick: u64,
    /// Most packet copies handed to listeners in one tick.
    pub max_deliveries_per_tick: u64,
    /// Most packets waiting for the next tick. Sends beyond this are refused.
    pub max_pending: usize,
    /// Largest event payload, in bytes.
    pub max_payload_bytes: usize,
}

impl Default for Limits {
    fn default() -> (r: Self)
        ensures
            r.max_transmissions_per_tick == 5_000,
            r.max_deliveries_per_tick == 50_000,
            r.max_pending == 20_000,
            r.max_payload_bytes == 64 * 1024,
    {
        Limits {
            max_transmissions_per_tick: 5_000,
            max_deliveries_per_tick: 50_000,
            max_pending: 20_000,
            max_payload_bytes: 64 * 1024,
        }
    }
}

/// Longest event kind allowed, in bytes.
pub const MAX_KIND_LEN: usize = 64;

/// Whether an event is within the limits.
pub open spec fn fits(limits: Limits, event: crate::packet::EventView) -> bool {
    &&& event.data.len() <= limits.max_payload_bytes
    &&& vstd::utf8::encode_utf8(event.kind).len() <= MAX_KIND_LEN
}

/// What a [`SendError`] says.
#[verifier::ext_equal]
pub enum SendErrorView {
    UnknownNode(NodeId),
    UnknownLink(LinkId),
    NotOnLink(LinkId),
    NothingToReplyTo,
    Route(crate::route::RouteErrorView),
    PayloadTooLarge,
    QueueFull,
}

/// Why a send was refused.
#[derive(Debug, PartialEq, Eq)]
#[allow(inconsistent_fields)]
pub enum SendError {
    /// The sending node does not exist.
    UnknownNode(NodeId),
    /// The link does not exist.
    UnknownLink(LinkId),
    /// The node is neither subscribed to the link nor its owner.
    NotOnLink(LinkId),
    /// [`Context::reply`] was called outside [`ControllerLogic::on_received`].
    NothingToReplyTo,
    /// The route would be too deep.
    Route(RouteError),
    /// The payload or event kind is bigger than [`Limits`] allow.
    PayloadTooLarge,
    /// The send queue is full ([`Limits::max_pending`]). The world is overloaded; the packet was
    /// not sent.
    QueueFull,
}

impl View for SendError {
    type V = SendErrorView;

    open spec fn view(&self) -> SendErrorView {
        match *self {
            SendError::UnknownNode(id) => SendErrorView::UnknownNode(id),
            SendError::UnknownLink(id) => SendErrorView::UnknownLink(id),
            SendError::NotOnLink(id) => SendErrorView::NotOnLink(id),
            SendError::NothingToReplyTo => SendErrorView::NothingToReplyTo,
            SendError::Route(e) => SendErrorView::Route(e@),
            SendError::PayloadTooLarge => SendErrorView::PayloadTooLarge,
            SendError::QueueFull => SendErrorView::QueueFull,
        }
    }
}

impl Clone for SendError {
    fn clone(&self) -> (r: Self)
        ensures
            r@ == self@,
    {
        match self {
            SendError::UnknownNode(id) => SendError::UnknownNode(*id),
            SendError::UnknownLink(id) => SendError::UnknownLink(*id),
            SendError::NotOnLink(id) => SendError::NotOnLink(*id),
            SendError::NothingToReplyTo => SendError::NothingToReplyTo,
            SendError::Route(e) => SendError::Route(e.clone()),
            SendError::PayloadTooLarge => SendError::PayloadTooLarge,
            SendError::QueueFull => SendError::QueueFull,
        }
    }
}

impl SendErrorView {
    /// The problem in words.
    pub open spec fn text(self) -> Seq<char> {
        match self {
            SendErrorView::UnknownNode(id) => "unknown node "@ + id.text(),
            SendErrorView::UnknownLink(id) => "unknown link "@ + id.text(),
            SendErrorView::NotOnLink(id) => "the node is not on link "@ + id.text(),
            SendErrorView::NothingToReplyTo => "there is no received packet to reply to"@,
            SendErrorView::Route(e) => "bad route: "@ + e.text(),
            SendErrorView::PayloadTooLarge => "the payload or event kind is too large"@,
            SendErrorView::QueueFull => "the send queue is full"@,
        }
    }
}

impl SendError {
    /// The problem in words, for people.
    pub fn to_string(&self) -> (r: String)
        ensures
            r@ == self@.text(),
    {
        match self {
            SendError::UnknownNode(id) => {
                let mut out = "unknown node ".to_owned();
                out.append(id.to_text().as_str());
                out
            },
            SendError::UnknownLink(id) => {
                let mut out = "unknown link ".to_owned();
                out.append(id.to_text().as_str());
                out
            },
            SendError::NotOnLink(id) => {
                let mut out = "the node is not on link ".to_owned();
                out.append(id.to_text().as_str());
                out
            },
            SendError::NothingToReplyTo => "there is no received packet to reply to".to_owned(),
            SendError::Route(e) => {
                let mut out = "bad route: ".to_owned();
                out.append(e.to_string().as_str());
                out
            },
            SendError::PayloadTooLarge => "the payload or event kind is too large".to_owned(),
            SendError::QueueFull => "the send queue is full".to_owned(),
        }
    }
}

/// What an [`Outgoing`] holds.
#[verifier::ext_equal]
pub struct OutgoingView {
    pub sender: NodeId,
    pub via: LinkId,
    pub from: Seq<crate::route::HopView>,
    pub to: Seq<crate::route::HopView>,
    pub event: crate::packet::EventView,
    pub ttl: u8,
    pub trace: Seq<NodeId>,
}

/// A packet waiting for the next tick.
#[derive(Debug)]
pub struct Outgoing {
    pub(crate) sender: NodeId,
    pub(crate) via: LinkId,
    pub(crate) from: PacketRoute,
    pub(crate) to: PacketRoute,
    pub(crate) event: Event,
    pub(crate) ttl: u8,
    pub(crate) trace: Vec<NodeId>,
}

impl View for Outgoing {
    type V = OutgoingView;

    closed spec fn view(&self) -> OutgoingView {
        OutgoingView {
            sender: self.sender,
            via: self.via,
            from: self.from@,
            to: self.to@,
            event: self.event@,
            ttl: self.ttl,
            trace: self.trace@,
        }
    }
}

impl Outgoing {
    #[verifier::type_invariant]
    spec fn on_budget(self) -> bool {
        crate::packet::budgeted(self.ttl, self.trace@)
    }

    /// The node that sends it.
    pub(crate) fn sender(&self) -> (r: NodeId)
        ensures
            r == self@.sender,
    {
        self.sender
    }

    /// The link it goes onto.
    pub(crate) fn via(&self) -> (r: LinkId)
        ensures
            r == self@.via,
    {
        self.via
    }

    /// A copy of the packet it becomes when it is put on its link.
    pub(crate) fn to_packet(&self, id: PacketId) -> (r: Packet)
        ensures
            r@ == (crate::packet::PacketView {
                id,
                from: self@.from,
                to: self@.to,
                event: self@.event,
                ttl: self@.ttl,
                trace: self@.trace,
            }),
    {
        proof {
            use_type_invariant(&self);
        }
        Packet::new(
            id,
            self.from.clone(),
            self.to.clone(),
            self.event.clone(),
            self.ttl,
            copied(self.trace.as_slice()),
        )
    }

    /// The packet it becomes when it is put on its link.
    pub(crate) fn into_packet(self, id: PacketId) -> (r: Packet)
        ensures
            r@ == (crate::packet::PacketView {
                id,
                from: self@.from,
                to: self@.to,
                event: self@.event,
                ttl: self@.ttl,
                trace: self@.trace,
            }),
    {
        proof {
            use_type_invariant(&self);
        }
        Packet::new(id, self.from, self.to, self.event, self.ttl, self.trace)
    }
}

/// The packets' contents.
pub open spec fn outgoing_views(items: Seq<Outgoing>) -> Seq<OutgoingView> {
    items.map_values(|o: Outgoing| o@)
}

/// The address of `node` on `link`, by their names.
pub open spec fn address(
    network: crate::graph::NetView,
    node: NodeId,
    link: LinkId,
) -> Seq<crate::route::HopView> {
    seq![crate::route::HopView { node: network.nodes[node].name, link: network.links[link].name }]
}

/// Why `sender` may not put `event` on `via`, if it may not.
pub open spec fn outgoing_error(
    network: crate::graph::NetView,
    limits: Limits,
    sender: NodeId,
    via: LinkId,
    event: crate::packet::EventView,
) -> Option<SendErrorView> {
    if !network.nodes.contains_key(sender) {
        Some(SendErrorView::UnknownNode(sender))
    } else if !network.links.contains_key(via) {
        Some(SendErrorView::UnknownLink(via))
    } else if !network.can_use_link(sender, via) {
        Some(SendErrorView::NotOnLink(via))
    } else if !fits(limits, event) {
        Some(SendErrorView::PayloadTooLarge)
    } else {
        None
    }
}

/// Builds an [`Outgoing`] from `sender` on `via`, checking the sender may use the link and the
/// event fits the limits. It is from the sender's own address on the link unless `from` says
/// otherwise, and fresh unless it carries on the budget and trace of `relayed`.
pub(crate) fn outgoing(
    network: &Network,
    limits: &Limits,
    sender: NodeId,
    via: LinkId,
    from: Option<PacketRoute>,
    to: PacketRoute,
    event: Event,
    relayed: Option<&Packet>,
) -> (r: Result<Outgoing, SendError>)
    ensures
        match r {
            Ok(out) => {
                &&& outgoing_error(network@, *limits, sender, via, event@) is None
                &&& out@ == (OutgoingView {
                    sender,
                    via,
                    from: match from {
                        Some(route) => route@,
                        None => address(network@, sender, via),
                    },
                    to: to@,
                    event: event@,
                    ttl: match relayed {
                        Some(packet) => packet@.ttl,
                        None => Packet::DEFAULT_TTL,
                    },
                    trace: match relayed {
                        Some(packet) => packet@.trace,
                        None => Seq::empty(),
                    },
                })
                &&& crate::packet::budgeted(out@.ttl, out@.trace)
            },
            Err(e) => outgoing_error(network@, *limits, sender, via, event@) == Some(e@),
        },
{
    let node = match network.node(sender) {
        Some(node) => node,
        None => return Err(SendError::UnknownNode(sender)),
    };
    let link = match network.link(via) {
        Some(link) => link,
        None => return Err(SendError::UnknownLink(via)),
    };
    if !network.can_use_link(sender, via) {
        return Err(SendError::NotOnLink(via));
    }
    if event.data.len() > limits.max_payload_bytes || event.kind.as_str().as_bytes().len()
        > MAX_KIND_LEN {
        return Err(SendError::PayloadTooLarge);
    }
    let from = match from {
        Some(route) => route,
        None => PacketRoute::new(node.name(), link.name()),
    };
    let (ttl, trace) = match relayed {
        Some(packet) => (packet.ttl(), copied(packet.trace())),
        None => (Packet::DEFAULT_TTL, Vec::new()),
    };
    Ok(Outgoing { sender, via, from, to, event, ttl, trace })
}

/// What a [`SendQueue`] holds.
#[verifier::ext_equal]
pub struct QueueView {
    pub items: Seq<OutgoingView>,
    pub limits: Limits,
    pub reserved: nat,
    pub refused: u64,
}

impl QueueView {
    /// Whether the queue has no room left.
    pub open spec fn full(self) -> bool {
        self.items.len() + self.reserved >= self.limits.max_pending
    }

    /// The queue after a packet was handed to it.
    pub open spec fn offered(self, out: OutgoingView) -> QueueView {
        if self.full() {
            QueueView { refused: crate::trace::bump(self.refused), ..self }
        } else {
            QueueView { items: self.items.push(out), ..self }
        }
    }

    /// Whether every packet in the queue has a sound hop budget.
    pub open spec fn budgeted(self) -> bool {
        forall|i: int|
            0 <= i < self.items.len() ==> crate::packet::budgeted(
                (#[trigger] self.items[i]).ttl,
                self.items[i].trace,
            )
    }
}

/// The queue of packets waiting for the next tick, with its size limit.
#[derive(Debug)]
pub struct SendQueue {
    pub(crate) items: VecDeque<Outgoing>,
    pub(crate) limits: Limits,
    /// Packets from the current batch not yet delivered, which count against the limit.
    pub(crate) reserved: usize,
    /// Sends refused because the queue was full.
    pub(crate) refused: u64,
}

impl View for SendQueue {
    type V = QueueView;

    closed spec fn view(&self) -> QueueView {
        QueueView {
            items: outgoing_views(self.items@),
            limits: self.limits,
            reserved: self.reserved as nat,
            refused: self.refused,
        }
    }
}

impl SendQueue {
    /// An empty queue.
    pub(crate) fn new(limits: Limits) -> (r: Self)
        ensures
            r@ == (QueueView { items: Seq::empty(), limits, reserved: 0, refused: 0 }),
    {
        let r = SendQueue { items: VecDeque::new(), limits, reserved: 0, refused: 0 };
        assert(r@.items =~= Seq::<OutgoingView>::empty());
        r
    }

    /// How many packets are waiting.
    pub(crate) fn len(&self) -> (r: usize)
        ensures
            r == self@.items.len(),
    {
        proof {
            assert(self@.items.len() == self.items@.len());
        }
        self.items.len()
    }

    /// How many sends were refused.
    pub(crate) fn refused(&self) -> (r: u64)
        ensures
            r == self@.refused,
    {
        self.refused
    }

    /// The limits.
    pub(crate) fn limits(&self) -> (r: Limits)
        ensures
            r == self@.limits,
    {
        self.limits
    }

    /// Changes the limits.
    pub(crate) fn set_limits(&mut self, limits: Limits)
        ensures
            final(self)@ == (QueueView { limits, ..old(self)@ }),
    {
        self.limits = limits;
    }

    /// Changes how many packets count against the limit that are not in the queue.
    pub(crate) fn set_reserved(&mut self, reserved: usize)
        ensures
            final(self)@ == (QueueView { reserved: reserved as nat, ..old(self)@ }),
    {
        self.reserved = reserved;
    }

    /// Takes all the packets out.
    pub(crate) fn take(&mut self) -> (r: VecDeque<Outgoing>)
        ensures
            outgoing_views(r@) == old(self)@.items,
            final(self)@ == (QueueView { items: Seq::empty(), ..old(self)@ }),
    {
        let mut items: VecDeque<Outgoing> = VecDeque::new();
        core::mem::swap(&mut items, &mut self.items);
        proof {
            assert(self@.items =~= Seq::<OutgoingView>::empty());
        }
        items
    }

    /// Puts packets back ahead of those that are there.
    pub(crate) fn put_back(&mut self, held: VecDeque<Outgoing>)
        ensures
            final(self)@ == (QueueView {
                items: outgoing_views(held@) + old(self)@.items,
                ..old(self)@
            }),
    {
        let mut all = held;
        all.append(&mut self.items);
        core::mem::swap(&mut all, &mut self.items);
        proof {
            assert(self@.items =~= outgoing_views(held@) + old(self)@.items);
        }
    }

    /// Adds a packet, or counts it as refused where the queue is full.
    pub(crate) fn push(&mut self, out: Outgoing) -> (r: Result<(), SendError>)
        ensures
            final(self)@ == old(self)@.offered(out@),
            match r {
                Ok(_) => !old(self)@.full(),
                Err(e) => old(self)@.full() && e@ == SendErrorView::QueueFull,
            },
    {
        if self.items.len().saturating_add(self.reserved) >= self.limits.max_pending {
            self.refused = self.refused.saturating_add(1);
            return Err(SendError::QueueFull);
        }
        self.items.push_back(out);
        proof {
            assert(self@.items =~= old(self)@.items.push(out@));
        }
        Ok(())
    }
}

/// What a [`Context`] holds.
#[verifier::ext_equal]
pub struct ContextView {
    pub network: crate::graph::NetView,
    pub node: NodeId,
    pub tick: u64,
    pub arrived_on: Option<LinkId>,
    pub accepted_by: Option<AcceptRule>,
    pub queue: QueueView,
    pub log: crate::trace::LogView,
}

/// The notes that a node's logic wrote, as trace events.
pub open spec fn note_events(tick: u64, node: NodeId, texts: Seq<Seq<char>>) -> Seq<
    crate::trace::TraceView,
> {
    texts.map_values(|text: Seq<char>| crate::trace::TraceView::Note { tick, node, text })
}

impl ContextView {
    /// The node's name, or nothing if the node is gone.
    pub open spec fn name(self) -> Seq<char> {
        if self.network.nodes.contains_key(self.node) {
            self.network.nodes[self.node].name
        } else {
            ""@
        }
    }

    /// The name of a link, or nothing if the link is gone.
    pub open spec fn link_name(self, link: LinkId) -> Seq<char> {
        if self.network.links.contains_key(link) {
            self.network.links[link].name
        } else {
            ""@
        }
    }

    /// The links the node is subscribed to; none if the node is gone.
    pub open spec fn subscriptions(self) -> Seq<LinkId> {
        if self.network.nodes.contains_key(self.node) {
            self.network.nodes[self.node].subscriptions
        } else {
            Seq::empty()
        }
    }

    /// The node's internal links; none if the node is gone.
    pub open spec fn internal_links(self) -> Seq<LinkId> {
        if self.network.nodes.contains_key(self.node) {
            self.network.nodes[self.node].internal_links
        } else {
            Seq::empty()
        }
    }

    /// The first of the links that is called `name`.
    pub open spec fn first_named(self, links: Seq<LinkId>, name: Seq<char>) -> Option<LinkId>
        decreases links.len(),
    {
        if links.len() == 0 {
            None
        } else if self.network.links.contains_key(links[0]) && self.network.links[links[0]].name
            == name {
            Some(links[0])
        } else {
            self.first_named(links.drop_first(), name)
        }
    }

    /// The link the node subscribes to by that name; `?` is the first one.
    pub open spec fn external_link_named(self, name: Seq<char>) -> Option<LinkId> {
        if name == crate::names::ANY_LINK@ {
            if self.subscriptions().len() > 0 {
                Some(self.subscriptions()[0])
            } else {
                None
            }
        } else {
            self.first_named(self.subscriptions(), name)
        }
    }

    /// The node's own internal link of that name.
    pub open spec fn internal_link_named(self, name: Seq<char>) -> Option<LinkId> {
        self.first_named(self.internal_links(), name)
    }

    /// Why the node cannot send `event` on `via` right now, if it cannot.
    pub open spec fn send_error(
        self,
        via: LinkId,
        event: crate::packet::EventView,
    ) -> Option<SendErrorView> {
        match outgoing_error(self.network, self.queue.limits, self.node, via, event) {
            Some(e) => Some(e),
            None => if self.queue.full() {
                Some(SendErrorView::QueueFull)
            } else {
                None
            },
        }
    }

    /// What the context is after the node tried to send `out`.
    pub open spec fn after(self, out: OutgoingView) -> ContextView {
        if outgoing_error(self.network, self.queue.limits, self.node, out.via, out.event) is None {
            ContextView { queue: self.queue.offered(out), ..self }
        } else {
            self
        }
    }

    /// A fresh packet from the node's own address on `via`.
    pub open spec fn fresh(
        self,
        via: LinkId,
        to: Seq<crate::route::HopView>,
        event: crate::packet::EventView,
    ) -> OutgoingView {
        OutgoingView {
            sender: self.node,
            via,
            from: address(self.network, self.node, via),
            to,
            event,
            ttl: Packet::DEFAULT_TTL,
            trace: Seq::empty(),
        }
    }

    /// A packet that carries on the event, hop budget and trace of `packet`.
    pub open spec fn relayed(
        self,
        packet: crate::packet::PacketView,
        via: LinkId,
        from: Seq<crate::route::HopView>,
        to: Seq<crate::route::HopView>,
    ) -> OutgoingView {
        OutgoingView {
            sender: self.node,
            via,
            from,
            to,
            event: packet.event,
            ttl: packet.ttl,
            trace: packet.trace,
        }
    }

    /// Why the node cannot reply right now, if it cannot.
    pub open spec fn reply_error(self, event: crate::packet::EventView) -> Option<SendErrorView> {
        match self.arrived_on {
            Some(via) => self.send_error(via, event),
            None => Some(SendErrorView::NothingToReplyTo),
        }
    }

    /// What the context is after the node tried to reply to `packet`.
    pub open spec fn replied(
        self,
        packet: crate::packet::PacketView,
        event: crate::packet::EventView,
    ) -> ContextView {
        match self.arrived_on {
            Some(via) => self.after(self.fresh(via, packet.from, event)),
            None => self,
        }
    }

    /// The route with the node's own address on `via` in front, where that is not too deep.
    pub open spec fn via_me(self, via: LinkId, route: Seq<crate::route::HopView>) -> Option<
        Seq<crate::route::HopView>,
    > {
        if route.len() < PacketRoute::MAX_DEPTH {
            Some(
                seq![crate::route::HopView { node: self.name(), link: self.link_name(via) }]
                    + route,
            )
        } else {
            None
        }
    }

    /// What the context is after the node wrote a note.
    pub open spec fn noted(self, text: Seq<char>) -> ContextView {
        ContextView {
            log: self.log.push(
                crate::trace::TraceView::Note { tick: self.tick, node: self.node, text },
            ),
            ..self
        }
    }

    /// Whether `out` is something the node may have sent: over a link it may use, within the
    /// limits, with a sound hop budget.
    pub open spec fn may_send(self, out: OutgoingView) -> bool {
        &&& out.sender == self.node
        &&& outgoing_error(self.network, self.queue.limits, self.node, out.via, out.event) is None
        &&& crate::packet::budgeted(out.ttl, out.trace)
    }

    /// Whether all that changed since `before` is that the node sent what it may send, was
    /// refused some sends, and wrote notes.
    pub open spec fn extends(self, before: ContextView) -> bool {
        &&& self.network == before.network
        &&& self.node == before.node
        &&& self.tick == before.tick
        &&& self.arrived_on == before.arrived_on
        &&& self.accepted_by == before.accepted_by
        &&& self.queue.limits == before.queue.limits
        &&& self.queue.reserved == before.queue.reserved
        &&& self.queue.refused >= before.queue.refused
        &&& before.queue.items.len() <= self.queue.items.len()
        &&& before.queue.items == self.queue.items.take(before.queue.items.len() as int)
        &&& forall|i: int|
            before.queue.items.len() <= i < self.queue.items.len() ==> before.may_send(
                #[trigger] self.queue.items[i],
            )
        &&& before.queue.items.len() < self.queue.items.len() ==> self.queue.items.len()
            + self.queue.reserved <= self.queue.limits.max_pending
        &&& self.only_notes_since(before)
    }

    /// Whether all that was recorded since `before` is notes by the node.
    pub open spec fn only_notes_since(self, before: ContextView) -> bool {
        exists|texts: Seq<Seq<char>>|
            self.log == before.log.extended(
                #[trigger] note_events(before.tick, before.node, texts),
            )
    }
}

/// Doing nothing leaves everything as it was.
pub proof fn lemma_extends_same(c: ContextView)
    ensures
        c.extends(c),
{
    assert(note_events(c.tick, c.node, Seq::empty()) =~= Seq::<crate::trace::TraceView>::empty());
    crate::trace::lemma_extended_one(
        c.log,
        crate::trace::TraceView::Note { tick: c.tick, node: c.node, text: Seq::empty() },
    );
    assert(c.queue.items.take(c.queue.items.len() as int) =~= c.queue.items);
}

/// What extends an extension extends the beginning.
pub proof fn lemma_extends_further(a: ContextView, b: ContextView, c: ContextView)
    requires
        b.extends(a),
        c.extends(b),
    ensures
        c.extends(a),
{
    let one = choose|texts: Seq<Seq<char>>|
        b.log == a.log.extended(#[trigger] note_events(a.tick, a.node, texts));
    let two = choose|texts: Seq<Seq<char>>|
        c.log == b.log.extended(#[trigger] note_events(b.tick, b.node, texts));
    crate::trace::lemma_extended(
        a.log,
        note_events(a.tick, a.node, one),
        note_events(a.tick, a.node, two),
    );
    assert(note_events(a.tick, a.node, one + two) =~= note_events(a.tick, a.node, one)
        + note_events(a.tick, a.node, two));
    assert(c.only_notes_since(a));
    let n = a.queue.items.len() as int;
    assert(c.queue.items.take(n) =~= c.queue.items.take(b.queue.items.len() as int).take(n));
    assert forall|i: int| n <= i < c.queue.items.len() implies a.may_send(
        #[trigger] c.queue.items[i],
    ) by {
        if i < b.queue.items.len() {
            assert(c.queue.items.take(b.queue.items.len() as int)[i] == c.queue.items[i]);
            assert(a.may_send(b.queue.items[i]));
        } else {
            assert(b.may_send(c.queue.items[i]));
        }
    }
}

/// Writing a note is an extension.
pub proof fn lemma_extends_note(c: ContextView, text: Seq<char>)
    ensures
        c.noted(text).extends(c),
{
    lemma_extends_same(c);
    assert(note_events(c.tick, c.node, seq![text]) =~= seq![
        crate::trace::TraceView::Note { tick: c.tick, node: c.node, text },
    ]);
    crate::trace::lemma_extended_one(
        c.log,
        crate::trace::TraceView::Note { tick: c.tick, node: c.node, text },
    );
    assert(c.noted(text).only_notes_since(c));
}

/// Trying to send something sound is an extension.
pub proof fn lemma_extends_after(c: ContextView, out: OutgoingView)
    requires
        out.sender == c.node,
        crate::packet::budgeted(out.ttl, out.trace),
    ensures
        c.after(out).extends(c),
{
    lemma_extends_same(c);
    let d = c.after(out);
    assert(d.queue.items.take(c.queue.items.len() as int) =~= c.queue.items);
    assert(d.only_notes_since(c));
}

/// What a [`ControllerLogic`] can see and do while it runs.
pub struct Context<'a> {
    pub(crate) network: &'a Network,
    pub(crate) node: NodeId,
    pub(crate) tick: u64,
    pub(crate) arrived_on: Option<LinkId>,
    pub(crate) accepted_by: Option<AcceptRule>,
    pub(crate) queue: SendQueue,
    pub(crate) trace: TraceLog,
}

impl<'a> View for Context<'a> {
    type V = ContextView;

    closed spec fn view(&self) -> ContextView {
        ContextView {
            network: self.network@,
            node: self.node,
            tick: self.tick,
            arrived_on: self.arrived_on,
            accepted_by: self.accepted_by,
            queue: self.queue@,
            log: self.trace@,
        }
    }
}

impl<'a> Context<'a> {
    /// What a logic of `node` can see and do.
    pub(crate) fn open(
        network: &'a Network,
        node: NodeId,
        tick: u64,
        arrival: Option<(LinkId, AcceptRule)>,
        queue: SendQueue,
        trace: TraceLog,
    ) -> (r: Self)
        ensures
            r@ == (ContextView {
                network: network@,
                node,
                tick,
                arrived_on: match arrival {
                    Some((link, _)) => Some(link),
                    None => None,
                },
                accepted_by: match arrival {
                    Some((_, rule)) => Some(rule),
                    None => None,
                },
                queue: queue@,
                log: trace@,
            }),
    {
        let (arrived_on, accepted_by) = match arrival {
            Some((link, rule)) => (Some(link), Some(rule)),
            None => (None, None),
        };
        Context { network, node, tick, arrived_on, accepted_by, queue, trace }
    }

    /// Hands back the queue and the trace.
    pub(crate) fn close(self) -> (r: (SendQueue, TraceLog))
        ensures
            r.0@ == self@.queue,
            r.1@ == self@.log,
    {
        (self.queue, self.trace)
    }

    /// The node this logic belongs to.
    pub fn node(&self) -> (r: NodeId)
        ensures
            r == self@.node,
    {
        self.node
    }

    /// This node's name.
    pub fn name(&self) -> (r: &str)
        ensures
            r@ == self@.name(),
    {
        match self.network.node(self.node) {
            Some(node) => node.name(),
            None => "",
        }
    }

    /// The current tick.
    pub fn tick(&self) -> (r: u64)
        ensures
            r == self@.tick,
    {
        self.tick
    }

    /// Read-only view of the whole network.
    pub fn network(&self) -> (r: &'a Network)
        ensures
            r@ == self@.network,
    {
        self.network
    }

    /// The link the packet being handled arrived on. `None` outside `on_received`.
    pub fn arrived_on(&self) -> (r: Option<LinkId>)
        ensures
            r == self@.arrived_on,
    {
        self.arrived_on
    }

    /// Why the packet being handled was accepted. `None` outside `on_received`.
    pub fn accepted_by(&self) -> (r: Option<AcceptRule>)
        ensures
            r == self@.accepted_by,
    {
        self.accepted_by
    }

    /// The links this node is subscribed to.
    pub(crate) fn subscriptions(&self) -> (r: Vec<LinkId>)
        ensures
            r@ == self@.subscriptions(),
    {
        match self.network.node(self.node) {
            Some(node) => copied(node.subscriptions()),
            None => Vec::new(),
        }
    }

    /// A link's name, or nothing if the link is gone.
    pub(crate) fn link_name(&self, link: LinkId) -> (r: &str)
        ensures
            r@ == self@.link_name(link),
    {
        match self.network.link(link) {
            Some(link) => link.name(),
            None => "",
        }
    }

    /// The first of the links that is called `name`.
    fn first_named(&self, links: &[LinkId], name: &str) -> (r: Option<LinkId>)
        ensures
            r == self@.first_named(links@, name@),
    {
        let mut i: usize = 0;
        assert(links@.skip(0) =~= links@);
        while i < links.len()
            invariant
                i <= links.len(),
                self@.first_named(links@, name@) == self@.first_named(links@.skip(i as int), name@),
            decreases links.len() - i,
        {
            assert(links@.skip(i as int)[0] == links@[i as int]);
            assert(links@.skip(i as int).drop_first() =~= links@.skip(i + 1));
            if let Some(link) = self.network.link(links[i]) {
                if same_text(link.name(), name) {
                    return Some(links[i]);
                }
            }
            i += 1;
        }
        None
    }

    /// A link this node subscribes to (from outside), by name. `?` means its first one.
    pub fn external_link_named(&self, name: &str) -> (r: Option<LinkId>)
        ensures
            r == self@.external_link_named(name@),
    {
        match self.network.node(self.node) {
            Some(node) => {
                let subs = node.subscriptions();
                if same_text(name, names::ANY_LINK) {
                    if subs.len() > 0 {
                        Some(subs[0])
                    } else {
                        None
                    }
                } else {
                    self.first_named(subs, name)
                }
            },
            None => None,
        }
    }

    /// One of this node's own internal links, by name.
    pub fn internal_link_named(&self, name: &str) -> (r: Option<LinkId>)
        ensures
            r == self@.internal_link_named(name@),
    {
        match self.network.node(self.node) {
            Some(node) => self.first_named(node.internal_links(), name),
            None => None,
        }
    }

    /// Sends `event` to `to` over `via`, from this node's own address on that link.
    ///
    /// # Errors
    ///
    /// Fails if this node can neither subscribe to nor own `via`.
    pub fn send(&mut self, via: LinkId, to: PacketRoute, event: Event) -> (r: Result<
        (),
        SendError,
    >)
        ensures
            final(self)@ == old(self)@.after(old(self)@.fresh(via, to@, event@)),
            final(self)@.extends(old(self)@),
            match r {
                Ok(_) => old(self)@.send_error(via, event@) is None,
                Err(e) => old(self)@.send_error(via, event@) == Some(e@),
            },
    {
        proof {
            lemma_extends_after(self@, self@.fresh(via, to@, event@));
        }
        let out = match outgoing(
            self.network,
            &self.queue.limits,
            self.node,
            via,
            None,
            to,
            event,
            None,
        ) {
            Ok(out) => out,
            Err(e) => return Err(e),
        };
        self.queue.push(out)
    }

    /// Replies to `packet` with `event`, on the link it arrived on.
    ///
    /// # Errors
    ///
    /// Fails outside `on_received`.
    pub fn reply(&mut self, packet: &Packet, event: Event) -> (r: Result<(), SendError>)
        ensures
            final(self)@ == old(self)@.replied(packet@, event@),
            final(self)@.extends(old(self)@),
            match r {
                Ok(_) => old(self)@.reply_error(event@) is None,
                Err(e) => old(self)@.reply_error(event@) == Some(e@),
            },
    {
        match self.arrived_on {
            Some(via) => self.send(via, packet.from().clone(), event),
            None => {
                proof {
                    lemma_extends_same(self@);
                }
                Err(SendError::NothingToReplyTo)
            },
        }
    }

    /// Re-sends `packet`'s event with new addresses, keeping its remaining TTL and trace so loop
    /// protection carries through relays.
    ///
    /// # Errors
    ///
    /// Fails if this node can neither subscribe to nor own `via`.
    pub fn forward(
        &mut self,
        packet: &Packet,
        via: LinkId,
        from: PacketRoute,
        to: PacketRoute,
    ) -> (r: Result<(), SendError>)
        ensures
            final(self)@ == old(self)@.after(old(self)@.relayed(packet@, via, from@, to@)),
            final(self)@.extends(old(self)@),
            match r {
                Ok(_) => old(self)@.send_error(via, packet@.event) is None,
                Err(e) => old(self)@.send_error(via, packet@.event) == Some(e@),
            },
    {
        let ghost relayed = self@.relayed(packet@, via, from@, to@);
        let _ = packet.ttl();
        proof {
            lemma_extends_after(self@, relayed);
        }
        let out = match outgoing(
            self.network,
            &self.queue.limits,
            self.node,
            via,
            Some(from),
            to,
            packet.event().clone(),
            Some(packet),
        ) {
            Ok(out) => out,
            Err(e) => return Err(e),
        };
        self.queue.push(out)
    }

    /// Re-sends `packet` unchanged (same addresses, event, TTL and trace) on another link, the
    /// way a hub or bridge passes traffic through.
    ///
    /// # Errors
    ///
    /// Fails if this node can neither subscribe to nor own `via`.
    pub fn relay(&mut self, packet: &Packet, via: LinkId) -> (r: Result<(), SendError>)
        ensures
            final(self)@ == old(self)@.after(
                old(self)@.relayed(packet@, via, packet@.from, packet@.to),
            ),
            final(self)@.extends(old(self)@),
            match r {
                Ok(_) => old(self)@.send_error(via, packet@.event) is None,
                Err(e) => old(self)@.send_error(via, packet@.event) == Some(e@),
            },
    {
        self.forward(packet, via, packet.from().clone(), packet.to().clone())
    }

    /// `route` with this node's own address on `via` added in front, so replies come back
    /// through this node.
    ///
    /// # Errors
    ///
    /// Fails if the route would be too deep.
    pub fn via_me(&self, via: LinkId, route: &PacketRoute) -> (r: Result<PacketRoute, SendError>)
        ensures
            match r {
                Ok(longer) => self@.via_me(via, route@) == Some(longer@),
                Err(e) => self@.via_me(via, route@) is None && e@ == SendErrorView::Route(
                    crate::route::RouteErrorView::TooDeep,
                ),
            },
    {
        match route.prepended(Hop::new(self.name(), self.link_name(via))) {
            Ok(longer) => Ok(longer),
            Err(e) => Err(SendError::Route(e)),
        }
    }

    /// Records a human-readable note in the trace, for debugging and the UI.
    pub fn note(&mut self, text: &str)
        ensures
            final(self)@ == old(self)@.noted(text@),
            final(self)@.extends(old(self)@),
    {
        proof {
            lemma_extends_note(self@, text@);
        }
        self.trace.push(
            TraceEvent::Note { tick: self.tick, node: self.node, text: text.to_owned() },
        );
    }
}

} // verus!
