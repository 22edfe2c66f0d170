//! Built-in logics, selectable by name.

use vstd::prelude::*;
use vstd::string::*;

use crate::behaviour::BehaviourView;
use crate::ids::LinkId;
use crate::lists::copied;
use crate::logic::{
    AcceptRule, Context, ControllerLogic, LogicRules, LogicState, Relaying, SendError,
};
use crate::names;
use crate::packet::{bytes_of, copy_bytes, Event, Packet};
use crate::route::PacketRoute;
use crate::text::{decimal, same_text};

verus! {

/// "Is anyone there?" Any responder answers with [`PONG`].
pub const PING: &'static str = "ping";

/// The answer to [`PING`], carrying the ping's data back.
pub const PONG: &'static str = "pong";

impl crate::logic::ContextView {
    /// What the context is once a failed send was noted.
    pub open spec fn noted_err(
        self,
        what: Seq<char>,
        error: Option<crate::logic::SendErrorView>,
    ) -> crate::logic::ContextView {
        match error {
            Some(e) => self.noted(what + " failed: "@ + e.text()),
            None => self,
        }
    }

    /// What the context is once the node tried to send a fresh packet, and noted it if that
    /// failed.
    pub open spec fn sent_or_noted(
        self,
        what: Seq<char>,
        via: LinkId,
        to: Seq<crate::route::HopView>,
        event: crate::packet::EventView,
    ) -> crate::logic::ContextView {
        self.after(self.fresh(via, to, event)).noted_err(what, self.send_error(via, event))
    }

    /// What the context is once the node answered `packet`, if that is a ping.
    pub open spec fn answered(
        self,
        packet: crate::packet::PacketView,
    ) -> crate::logic::ContextView {
        if packet.event.kind == PING@ {
            let pong = crate::packet::EventView { kind: PONG@, data: packet.event.data };
            self.replied(packet, pong).noted_err("pong"@, self.reply_error(pong))
        } else {
            self
        }
    }
}

/// Notes a failed send instead of losing it silently.
pub(crate) fn note_err(ctx: &mut Context<'_>, what: &str, result: Result<(), SendError>)
    ensures
        final(ctx)@ == old(ctx)@.noted_err(
            what@,
            match result {
                Ok(_) => None,
                Err(e) => Some(e@),
            },
        ),
        final(ctx)@.extends(old(ctx)@),
{
    match result {
        Ok(_) => {
            proof {
                crate::logic::lemma_extends_same(ctx@);
            }
        },
        Err(e) => {
            let mut text = what.to_owned();
            text.append(" failed: ");
            text.append(e.to_string().as_str());
            ctx.note(text.as_str());
        },
    }
}

/// Sends a fresh packet, and notes it if that fails.
pub(crate) fn send_or_note(
    ctx: &mut Context<'_>,
    what: &str,
    via: LinkId,
    to: PacketRoute,
    event: Event,
)
    ensures
        final(ctx)@ == old(ctx)@.sent_or_noted(what@, via, to@, event@),
        final(ctx)@.extends(old(ctx)@),
{
    let result = ctx.send(via, to, event);
    let ghost sent = ctx@;
    note_err(ctx, what, result);
    proof {
        crate::logic::lemma_extends_further(old(ctx)@, sent, ctx@);
    }
}

/// Answers a ping with a pong. Shared by every built-in logic.
pub(crate) fn answer_ping(packet: &Packet, ctx: &mut Context<'_>)
    ensures
        final(ctx)@ == old(ctx)@.answered(packet@),
        final(ctx)@.extends(old(ctx)@),
{
    if same_text(packet.event().kind.as_str(), PING) {
        let pong = Event::with_data(PONG, copy_bytes(packet.event().data.as_slice()));
        let result = ctx.reply(packet, pong);
        let ghost sent = ctx@;
        note_err(ctx, "pong", result);
        proof {
            crate::logic::lemma_extends_further(old(ctx)@, sent, ctx@);
        }
    } else {
        proof {
            crate::logic::lemma_extends_same(ctx@);
        }
    }
}

/// The number that spreads a node across an interval: its name's bytes as digits in base 31.
pub open spec fn phase(bytes: Seq<u8>) -> u64
    decreases bytes.len(),
{
    if bytes.len() == 0 {
        0
    } else {
        vstd::wrapping::u64_specs::wrapping_add(
            vstd::wrapping::u64_specs::wrapping_mul(phase(bytes.drop_last()), 31),
            bytes.last() as u64,
        )
    }
}

/// Whether `tick` is the turn of the node called `name` in a schedule that repeats every
/// `interval` ticks.
pub open spec fn is_turn(name: Seq<char>, tick: u64, interval: u64) -> bool {
    let time = tick + phase(vstd::utf8::encode_utf8(name));
    if interval == 0 {
        time == 0
    } else {
        time % (interval as int) == 0
    }
}

/// True on this node's turn in a repeating schedule. Nodes are spread across the interval by
/// name, so they do not all fire on the same tick.
fn on_schedule(ctx: &Context<'_>, interval: u64) -> (r: bool)
    ensures
        r == is_turn(ctx@.name(), ctx@.tick, interval),
{
    let bytes = ctx.name().as_bytes();
    let mut h: u64 = 0;
    let mut i: usize = 0;
    while i < bytes.len()
        invariant
            i <= bytes.len(),
            h == phase(bytes@.take(i as int)),
        decreases bytes.len() - i,
    {
        assert(bytes@.take(i + 1).drop_last() =~= bytes@.take(i as int));
        h = h.wrapping_mul(31).wrapping_add(bytes[i] as u64);
        i += 1;
    }
    assert(bytes@.take(i as int) =~= bytes@);
    let time: u128 = ctx.tick() as u128 + h as u128;
    if interval == 0 {
        time == 0
    } else {
        time % (interval as u128) == 0
    }
}

/// A ping whose data is `prefix` and the tick.
pub open spec fn ping_at(prefix: Seq<char>, tick: u64) -> crate::packet::EventView {
    crate::packet::EventView {
        kind: PING@,
        data: vstd::utf8::encode_utf8(prefix + crate::text::decimal_text(tick as nat)),
    }
}

/// A ping whose data is `prefix` and the tick.
fn make_ping(prefix: &str, tick: u64) -> (r: Event)
    ensures
        r@ == ping_at(prefix@, tick),
{
    let mut text = prefix.to_owned();
    text.append(decimal(tick).as_str());
    Event::with_data(PING, bytes_of(text.as_str()))
}

/// The route to everyone on the link of that name.
pub open spec fn everyone(link: Seq<char>) -> Seq<crate::route::HopView> {
    seq![crate::route::HopView { node: crate::names::BROADCAST@, link }]
}

/// Answers pings. The simplest useful logic: proves a node is reachable.
#[derive(Debug, Clone, Copy, PartialEq, Eq, Structural)]
pub struct Responder;

impl Default for Responder {
    fn default() -> (r: Self)
        ensures
            r == Responder,
    {
        Responder
    }
}

impl Responder {
    /// Name of this logic.
    pub const KIND: &'static str = "responder";
}

impl ControllerLogic for Responder {
    open spec fn kind_text(&self) -> Seq<char> {
        Self::KIND@
    }

    open spec fn rules(&self) -> LogicRules {
        crate::behaviour::own_rules(|s: LogicState| BehaviourView::Responder)
    }

    open spec fn state(&self) -> LogicState {
        LogicState::Nothing
    }

    fn kind(&self) -> (r: &'static str) {
        Self::KIND
    }

    fn on_start(&mut self, ctx: &mut Context<'_>) -> (r: Result<(), String>)
        ensures
            r is Ok,
            *final(self) == *old(self),
            final(ctx)@ == old(ctx)@,
    {
        proof {
            crate::logic::lemma_extends_same(ctx@);
        }
        Ok(())
    }

    fn on_tick(&mut self, ctx: &mut Context<'_>) -> (r: Result<(), String>)
        ensures
            r is Ok,
            *final(self) == *old(self),
            final(ctx)@ == old(ctx)@,
    {
        proof {
            crate::logic::lemma_extends_same(ctx@);
        }
        Ok(())
    }

    fn on_received(&mut self, packet: &Packet, ctx: &mut Context<'_>) -> (r: Result<(), String>)
        ensures
            r is Ok,
            *final(self) == *old(self),
            final(ctx)@ == old(ctx)@.answered(packet@),
    {
        answer_ping(packet, ctx);
        Ok(())
    }

    fn wants(&self, packet: &Packet) -> (r: bool)
        ensures
            !r,
    {
        false
    }

    fn relaying(&self) -> (r: Relaying)
        ensures
            r == Relaying::Never,
    {
        Relaying::Never
    }
}

/// A composite node (a computer, a rack) that connects its internal bus to the outside world.
///
/// - Packets from its children headed outside (accepted by the gateway rule) are forwarded out
///   on the matching external link, with this node added to the return address so replies
///   come back through it.
/// - Multi-hop packets addressed to it have its hop popped and are forwarded inside.
/// - Pings addressed to it are answered.
#[derive(Debug, Clone, Copy, PartialEq, Eq, Structural)]
pub struct Gateway;

impl Default for Gateway {
    fn default() -> (r: Self)
        ensures
            r == Gateway,
    {
        Gateway
    }
}

impl crate::logic::ContextView {
    /// What the context is once a gateway passed `packet` to the outside.
    pub open spec fn forwarded_out(
        self,
        packet: crate::packet::PacketView,
    ) -> crate::logic::ContextView {
        match self.external_link_named(packet.to[0].link) {
            None => self.noted("no way out to "@ + crate::route::route_text(packet.to)),
            Some(via) => match self.via_me(via, packet.from) {
                None => self.noted_err(
                    "forward out"@,
                    Some(
                        crate::logic::SendErrorView::Route(crate::route::RouteErrorView::TooDeep),
                    ),
                ),
                Some(from) => self.after(self.relayed(packet, via, from, packet.to)).noted_err(
                    "forward out"@,
                    self.send_error(via, packet.event),
                ),
            },
        }
    }

    /// What the context is once a gateway passed `packet` to the inside, on its way to `next`.
    pub open spec fn forwarded_in(
        self,
        packet: crate::packet::PacketView,
        next: Seq<crate::route::HopView>,
    ) -> crate::logic::ContextView {
        match self.internal_link_named(next[0].link) {
            None => self.noted("no internal link for "@ + crate::route::route_text(next)),
            Some(via) => self.after(self.relayed(packet, via, packet.from, next)).noted_err(
                "forward in"@,
                self.send_error(via, packet.event),
            ),
        }
    }

    /// What the context is once a gateway handled `packet`.
    pub open spec fn gated(self, packet: crate::packet::PacketView) -> crate::logic::ContextView {
        if self.accepted_by == Some(AcceptRule::Gateway) {
            self.forwarded_out(packet)
        } else if self.accepted_by == Some(AcceptRule::Addressed) && packet.to.len() > 1 {
            self.forwarded_in(packet, packet.to.drop_first())
        } else {
            self.answered(packet)
        }
    }
}

impl Gateway {
    /// Name of this logic.
    pub const KIND: &'static str = "gateway";

    fn forward_out(packet: &Packet, ctx: &mut Context<'_>)
        ensures
            final(ctx)@ == old(ctx)@.forwarded_out(packet@),
            final(ctx)@.extends(old(ctx)@),
    {
        let to = packet.to();
        let via = match ctx.external_link_named(to.link()) {
            Some(via) => via,
            None => {
                let mut text = "no way out to ".to_owned();
                text.append(to.to_string().as_str());
                ctx.note(text.as_str());
                return;
            },
        };
        match ctx.via_me(via, packet.from()) {
            Ok(from) => {
                let result = ctx.forward(packet, via, from, to.clone());
                let ghost sent = ctx@;
                note_err(ctx, "forward out", result);
                proof {
                    crate::logic::lemma_extends_further(old(ctx)@, sent, ctx@);
                }
            },
            Err(e) => note_err(ctx, "forward out", Err(e)),
        }
    }

    fn forward_in(packet: &Packet, next: PacketRoute, ctx: &mut Context<'_>)
        ensures
            final(ctx)@ == old(ctx)@.forwarded_in(packet@, next@),
            final(ctx)@.extends(old(ctx)@),
    {
        let via = match ctx.internal_link_named(next.link()) {
            Some(via) => via,
            None => {
                let mut text = "no internal link for ".to_owned();
                text.append(next.to_string().as_str());
                ctx.note(text.as_str());
                return;
            },
        };
        let result = ctx.forward(packet, via, packet.from().clone(), next);
        let ghost sent = ctx@;
        note_err(ctx, "forward in", result);
        proof {
            crate::logic::lemma_extends_further(old(ctx)@, sent, ctx@);
        }
    }

    /// Passes a packet on, or answers it. Shared by every logic that is a gateway.
    pub(crate) fn handle(packet: &Packet, ctx: &mut Context<'_>)
        ensures
            final(ctx)@ == old(ctx)@.gated(packet@),
            final(ctx)@.extends(old(ctx)@),
    {
        match (ctx.accepted_by(), packet.to().popped()) {
            (Some(AcceptRule::Gateway), _) => Self::forward_out(packet, ctx),
            (Some(AcceptRule::Addressed), Some(next)) => Self::forward_in(packet, next, ctx),
            _ => answer_ping(packet, ctx),
        }
    }
}

impl ControllerLogic for Gateway {
    open spec fn kind_text(&self) -> Seq<char> {
        Self::KIND@
    }

    open spec fn rules(&self) -> LogicRules {
        crate::behaviour::own_rules(|s: LogicState| BehaviourView::Gateway)
    }

    open spec fn state(&self) -> LogicState {
        LogicState::Nothing
    }

    fn kind(&self) -> (r: &'static str) {
        Self::KIND
    }

    fn on_start(&mut self, ctx: &mut Context<'_>) -> (r: Result<(), String>)
        ensures
            r is Ok,
            *final(self) == *old(self),
            final(ctx)@ == old(ctx)@,
    {
        proof {
            crate::logic::lemma_extends_same(ctx@);
        }
        Ok(())
    }

    fn on_tick(&mut self, ctx: &mut Context<'_>) -> (r: Result<(), String>)
        ensures
            r is Ok,
            *final(self) == *old(self),
            final(ctx)@ == old(ctx)@,
    {
        proof {
            crate::logic::lemma_extends_same(ctx@);
        }
        Ok(())
    }

    fn on_received(&mut self, packet: &Packet, ctx: &mut Context<'_>) -> (r: Result<(), String>)
        ensures
            r is Ok,
            *final(self) == *old(self),
            final(ctx)@ == old(ctx)@.gated(packet@),
    {
        Self::handle(packet, ctx);
        Ok(())
    }

    fn relaying(&self) -> (r: Relaying)
        ensures
            r == Relaying::Routed,
    {
        Relaying::Routed
    }

    fn wants(&self, packet: &Packet) -> (r: bool)
        ensures
            !r,
    {
        false
    }
}

/// Periodically pings everyone on every link it is attached to, and answers pings itself.
#[derive(Debug, Clone, Copy, PartialEq, Eq, Structural)]
pub struct Beacon {
    /// Ticks between pings.
    pub interval: u64,
}

impl Beacon {
    /// Name of this logic.
    pub const KIND: &'static str = "beacon";
}

impl Default for Beacon {
    fn default() -> (r: Self)
        ensures
            r.interval == 24,
    {
        Beacon { interval: 24 }
    }
}

impl crate::logic::ContextView {
    /// What the context is once the node pinged everyone on each of the links.
    pub open spec fn pinged(self, links: Seq<LinkId>) -> crate::logic::ContextView
        decreases links.len(),
    {
        if links.len() == 0 {
            self
        } else {
            let c = self.pinged(links.drop_last());
            c.sent_or_noted(
                "ping"@,
                links.last(),
                everyone(c.link_name(links.last())),
                ping_at("t"@, c.tick),
            )
        }
    }

    /// What the context is once a beacon had its tick.
    pub open spec fn beaconed(self, interval: u64) -> crate::logic::ContextView {
        if is_turn(self.name(), self.tick, interval) {
            self.pinged(self.subscriptions())
        } else {
            self
        }
    }
}

impl ControllerLogic for Beacon {
    open spec fn kind_text(&self) -> Seq<char> {
        Self::KIND@
    }

    open spec fn rules(&self) -> LogicRules {
        crate::behaviour::own_rules(|s: LogicState| BehaviourView::Beacon(s->Interval_0))
    }

    open spec fn state(&self) -> LogicState {
        LogicState::Interval(self.interval)
    }

    fn kind(&self) -> (r: &'static str) {
        Self::KIND
    }

    fn on_start(&mut self, ctx: &mut Context<'_>) -> (r: Result<(), String>)
        ensures
            r is Ok,
            *final(self) == *old(self),
            final(ctx)@ == old(ctx)@,
    {
        proof {
            crate::logic::lemma_extends_same(ctx@);
        }
        Ok(())
    }

    fn on_tick(&mut self, ctx: &mut Context<'_>) -> (r: Result<(), String>)
        ensures
            r is Ok,
            *final(self) == *old(self),
            final(ctx)@ == old(ctx)@.beaconed(old(self).interval),
    {
        proof {
            crate::logic::lemma_extends_same(ctx@);
        }
        if !on_schedule(ctx, self.interval) {
            return Ok(());
        }
        let links = ctx.subscriptions();
        let mut i: usize = 0;
        assert(links@.take(0) =~= Seq::<LinkId>::empty());
        while i < links.len()
            invariant
                i <= links.len(),
                ctx@ == old(ctx)@.pinged(links@.take(i as int)),
                ctx@.extends(old(ctx)@),
            decreases links.len() - i,
        {
            let ghost before = ctx@;
            assert(links@.take(i + 1).drop_last() =~= links@.take(i as int));
            let to = PacketRoute::new(names::BROADCAST, ctx.link_name(links[i]));
            let ping = make_ping("t", ctx.tick());
            send_or_note(ctx, "ping", links[i], to, ping);
            proof {
                crate::logic::lemma_extends_further(old(ctx)@, before, ctx@);
            }
            i += 1;
        }
        assert(links@.take(i as int) =~= links@);
        Ok(())
    }

    fn on_received(&mut self, packet: &Packet, ctx: &mut Context<'_>) -> (r: Result<(), String>)
        ensures
            r is Ok,
            *final(self) == *old(self),
            final(ctx)@ == old(ctx)@.answered(packet@),
    {
        answer_ping(packet, ctx);
        Ok(())
    }

    fn wants(&self, packet: &Packet) -> (r: bool)
        ensures
            !r,
    {
        false
    }

    fn relaying(&self) -> (r: Relaying)
        ensures
            r == Relaying::Never,
    {
        Relaying::Never
    }
}

/// An app that scans the networks its computer is on: it periodically broadcasts a ping out
/// through its parent gateway onto each of the parent's external links. The replies travel
/// back through the gateway to the scanner.
#[derive(Debug, Clone, Copy, PartialEq, Eq, Structural)]
pub struct Scanner {
    /// Ticks between scans.
    pub interval: u64,
}

impl Scanner {
    /// Name of this logic.
    pub const KIND: &'static str = "scanner";
}

impl Default for Scanner {
    fn default() -> (r: Self)
        ensures
            r.interval == 40,
    {
        Scanner { interval: 40 }
    }
}

/// The first of the links that `owner` owns.
pub open spec fn first_owned(
    network: crate::graph::NetView,
    links: Seq<LinkId>,
    owner: crate::ids::NodeId,
) -> Option<LinkId>
    decreases links.len(),
{
    if links.len() == 0 {
        None
    } else if network.links.contains_key(links[0]) && network.links[links[0]].owner == Some(owner) {
        Some(links[0])
    } else {
        first_owned(network, links.drop_first(), owner)
    }
}

impl crate::logic::ContextView {
    /// What the context is once the node sent a scan for each of the target links over `bus`.
    pub open spec fn scanned(self, bus: LinkId, targets: Seq<LinkId>) -> crate::logic::ContextView
        decreases targets.len(),
    {
        if targets.len() == 0 {
            self
        } else {
            let c = self.scanned(bus, targets.drop_last());
            if c.network.links.contains_key(targets.last()) {
                c.sent_or_noted(
                    "scan"@,
                    bus,
                    everyone(c.network.links[targets.last()].name),
                    ping_at("scan t"@, c.tick),
                )
            } else {
                c
            }
        }
    }

    /// What the context is once a scanner had its tick.
    pub open spec fn scan_ticked(self, interval: u64) -> crate::logic::ContextView {
        if !is_turn(self.name(), self.tick, interval) || !self.network.nodes.contains_key(
            self.node,
        ) {
            self
        } else {
            match self.network.nodes[self.node].parent {
                None => self,
                Some(parent) => match first_owned(self.network, self.subscriptions(), parent) {
                    None => self.noted("no bus to the parent"@),
                    Some(bus) => self.scanned(
                        bus,
                        if self.network.nodes.contains_key(parent) {
                            self.network.nodes[parent].subscriptions
                        } else {
                            Seq::empty()
                        },
                    ),
                },
            }
        }
    }
}

/// The first of the links that `owner` owns.
fn find_owned(
    network: &crate::network::Network,
    links: &[LinkId],
    owner: crate::ids::NodeId,
) -> (r: Option<LinkId>)
    ensures
        r == first_owned(network@, links@, owner),
{
    let mut i: usize = 0;
    assert(links@.skip(0) =~= links@);
    while i < links.len()
        invariant
            i <= links.len(),
            first_owned(network@, links@, owner) == first_owned(
                network@,
                links@.skip(i as int),
                owner,
            ),
        decreases links.len() - i,
    {
        assert(links@.skip(i as int)[0] == links@[i as int]);
        assert(links@.skip(i as int).drop_first() =~= links@.skip(i + 1));
        if let Some(link) = network.link(links[i]) {
            if link.owner() == Some(owner) {
                return Some(links[i]);
            }
        }
        i += 1;
    }
    None
}

impl ControllerLogic for Scanner {
    open spec fn kind_text(&self) -> Seq<char> {
        Self::KIND@
    }

    open spec fn rules(&self) -> LogicRules {
        crate::behaviour::own_rules(|s: LogicState| BehaviourView::Scanner(s->Interval_0))
    }

    open spec fn state(&self) -> LogicState {
        LogicState::Interval(self.interval)
    }

    fn kind(&self) -> (r: &'static str) {
        Self::KIND
    }

    fn on_start(&mut self, ctx: &mut Context<'_>) -> (r: Result<(), String>)
        ensures
            r is Ok,
            *final(self) == *old(self),
            final(ctx)@ == old(ctx)@,
    {
        proof {
            crate::logic::lemma_extends_same(ctx@);
        }
        Ok(())
    }

    fn on_tick(&mut self, ctx: &mut Context<'_>) -> (r: Result<(), String>)
        ensures
            r is Ok,
            *final(self) == *old(self),
            final(ctx)@ == old(ctx)@.scan_ticked(old(self).interval),
    {
        proof {
            crate::logic::lemma_extends_same(ctx@);
        }
        if !on_schedule(ctx, self.interval) {
            return Ok(());
        }
        let network = ctx.network();
        let node = match network.node(ctx.node()) {
            Some(node) => node,
            None => return Ok(()),
        };
        let parent = match node.parent() {
            Some(parent) => parent,
            None => return Ok(()),
        };
        // The bus shared with the parent: a subscription the parent owns.
        let bus = match find_owned(network, node.subscriptions(), parent) {
            Some(bus) => bus,
            None => {
                ctx.note("no bus to the parent");
                return Ok(());
            },
        };
        let targets = match network.node(parent) {
            Some(parent) => copied(parent.subscriptions()),
            None => Vec::new(),
        };
        let mut i: usize = 0;
        assert(targets@.take(0) =~= Seq::<LinkId>::empty());
        while i < targets.len()
            invariant
                i <= targets.len(),
                network@ == old(ctx)@.network,
                ctx@ == old(ctx)@.scanned(bus, targets@.take(i as int)),
                ctx@.extends(old(ctx)@),
            decreases targets.len() - i,
        {
            let ghost before = ctx@;
            assert(targets@.take(i + 1).drop_last() =~= targets@.take(i as int));
            if let Some(target) = network.link(targets[i]) {
                let to = PacketRoute::new(names::BROADCAST, target.name());
                let ping = make_ping("scan t", ctx.tick());
                send_or_note(ctx, "scan", bus, to, ping);
                proof {
                    crate::logic::lemma_extends_further(old(ctx)@, before, ctx@);
                }
            }
            i += 1;
        }
        assert(targets@.take(i as int) =~= targets@);
        Ok(())
    }

    fn on_received(&mut self, packet: &Packet, ctx: &mut Context<'_>) -> (r: Result<(), String>)
        ensures
            r is Ok,
            *final(self) == *old(self),
            final(ctx)@ == old(ctx)@.answered(packet@),
    {
        answer_ping(packet, ctx);
        Ok(())
    }

    fn wants(&self, packet: &Packet) -> (r: bool)
        ensures
            !r,
    {
        false
    }

    fn relaying(&self) -> (r: Relaying)
        ensures
            r == Relaying::Never,
    {
        Relaying::Never
    }
}

/// A hub: passes every packet it hears to all the other links its node is on, unchanged.
#[derive(Debug, Clone, Copy, PartialEq, Eq, Structural)]
pub struct Bridge;

impl Default for Bridge {
    fn default() -> (r: Self)
        ensures
            r == Bridge,
    {
        Bridge
    }
}

impl Bridge {
    /// Name of this logic.
    pub const KIND: &'static str = "bridge";
}

impl crate::logic::ContextView {
    /// What the context is once `packet` was relayed to each of the links but the one it arrived
    /// on.
    pub open spec fn relayed_to(
        self,
        packet: crate::packet::PacketView,
        links: Seq<LinkId>,
    ) -> crate::logic::ContextView
        decreases links.len(),
    {
        if links.len() == 0 {
            self
        } else {
            let c = self.relayed_to(packet, links.drop_last());
            let via = links.last();
            if c.arrived_on == Some(via) {
                c
            } else {
                c.after(c.relayed(packet, via, packet.from, packet.to)).noted_err(
                    "relay"@,
                    c.send_error(via, packet.event),
                )
            }
        }
    }

    /// What the context is once a bridge handled `packet`.
    pub open spec fn bridged(self, packet: crate::packet::PacketView) -> crate::logic::ContextView {
        self.relayed_to(packet, crate::lists::in_order(self.subscriptions() + self.internal_links()))
    }
}

impl ControllerLogic for Bridge {
    open spec fn kind_text(&self) -> Seq<char> {
        Self::KIND@
    }

    open spec fn rules(&self) -> LogicRules {
        crate::behaviour::own_rules(|s: LogicState| BehaviourView::Bridge)
    }

    open spec fn state(&self) -> LogicState {
        LogicState::Nothing
    }

    fn kind(&self) -> (r: &'static str) {
        Self::KIND
    }

    fn on_start(&mut self, ctx: &mut Context<'_>) -> (r: Result<(), String>)
        ensures
            r is Ok,
            *final(self) == *old(self),
            final(ctx)@ == old(ctx)@,
    {
        proof {
            crate::logic::lemma_extends_same(ctx@);
        }
        Ok(())
    }

    fn on_tick(&mut self, ctx: &mut Context<'_>) -> (r: Result<(), String>)
        ensures
            r is Ok,
            *final(self) == *old(self),
            final(ctx)@ == old(ctx)@,
    {
        proof {
            crate::logic::lemma_extends_same(ctx@);
        }
        Ok(())
    }

    fn on_received(&mut self, packet: &Packet, ctx: &mut Context<'_>) -> (r: Result<(), String>)
        ensures
            r is Ok,
            *final(self) == *old(self),
            final(ctx)@ == old(ctx)@.bridged(packet@),
    {
        proof {
            crate::logic::lemma_extends_same(ctx@);
        }
        let mut all = ctx.subscriptions();
        let mut inside = match ctx.network().node(ctx.node()) {
            Some(node) => copied(node.internal_links()),
            None => Vec::new(),
        };
        all.append(&mut inside);
        assert(all@ =~= ctx@.subscriptions() + ctx@.internal_links());
        let links = crate::lists::ordered(&all);
        let mut i: usize = 0;
        assert(links@.take(0) =~= Seq::<LinkId>::empty());
        while i < links.len()
            invariant
                i <= links.len(),
                ctx@ == old(ctx)@.relayed_to(packet@, links@.take(i as int)),
                ctx@.extends(old(ctx)@),
            decreases links.len() - i,
        {
            let ghost before = ctx@;
            assert(links@.take(i + 1).drop_last() =~= links@.take(i as int));
            if ctx.arrived_on() != Some(links[i]) {
                let result = ctx.relay(packet, links[i]);
                let ghost sent = ctx@;
                note_err(ctx, "relay", result);
                proof {
                    crate::logic::lemma_extends_further(before, sent, ctx@);
                    crate::logic::lemma_extends_further(old(ctx)@, before, ctx@);
                }
            }
            i += 1;
        }
        assert(links@.take(i as int) =~= links@);
        Ok(())
    }

    fn wants(&self, packet: &Packet) -> (r: bool)
        ensures
            r,
    {
        true
    }

    fn relaying(&self) -> (r: Relaying)
        ensures
            r == Relaying::Flooding,
    {
        Relaying::Flooding
    }
}

} // verus!
