//! Logics that misbehave on purpose, for trying out the defences: the monitor's checks and the
//! fuse.

use vstd::prelude::*;
use vstd::string::*;

use crate::behaviour::BehaviourView;
use crate::builtin::{note_err, PING};
use crate::ids::LinkId;
use crate::logic::{Context, ControllerLogic, LogicRules, LogicState, Relaying};
use crate::names;
use crate::packet::{Event, Packet};
use crate::route::PacketRoute;

verus! {

/// Answers every packet with a copy of its event. Every answer is a new packet, so two of these
/// talk to each other forever.
#[derive(Debug, Clone, Copy, PartialEq, Eq, Structural)]
pub struct Echo;

impl Echo {
    /// Name of this logic.
    pub const KIND: &'static str = "echo";
}

impl crate::logic::ContextView {
    /// What the context is once the node answered `packet` with a copy of its event.
    pub open spec fn echoed(self, packet: crate::packet::PacketView) -> crate::logic::ContextView {
        self.replied(packet, packet.event).noted_err("echo"@, self.reply_error(packet.event))
    }

    /// What the context is once the node tried to send the same packet `n` times.
    pub open spec fn repeated(
        self,
        via: LinkId,
        to: Seq<crate::route::HopView>,
        event: crate::packet::EventView,
        n: nat,
    ) -> crate::logic::ContextView
        decreases n,
    {
        if n == 0 {
            self
        } else {
            let c = self.repeated(via, to, event, (n - 1) as nat);
            c.after(c.fresh(via, to, event))
        }
    }

    /// What the context is once an amplifier was set off.
    pub open spec fn amplified(self) -> crate::logic::ContextView {
        match self.arrived_on {
            Some(via) => self.repeated(
                via,
                crate::builtin::everyone(self.link_name(via)),
                crate::packet::EventView { kind: PING@, data: Seq::empty() },
                Amplifier::SENDS as nat,
            ),
            None => self,
        }
    }

    /// What the context is once a flooder had its tick.
    pub open spec fn flooded(self) -> crate::logic::ContextView {
        if self.subscriptions().len() > 0 {
            let via = self.subscriptions()[0];
            self.repeated(
                via,
                crate::builtin::everyone(self.link_name(via)),
                crate::packet::EventView { kind: Flooder::EVENT@, data: Seq::empty() },
                Flooder::SENDS as nat,
            )
        } else {
            self
        }
    }
}

/// Sends the same packet `n` times, as far as that succeeds.
fn send_repeatedly(ctx: &mut Context<'_>, via: LinkId, to: &PacketRoute, event: &Event, n: usize)
    ensures
        final(ctx)@ == old(ctx)@.repeated(via, to@, event@, n as nat),
        final(ctx)@.extends(old(ctx)@),
{
    proof {
        crate::logic::lemma_extends_same(ctx@);
    }
    let mut i: usize = 0;
    while i < n
        invariant
            i <= n,
            ctx@ == old(ctx)@.repeated(via, to@, event@, i as nat),
            ctx@.extends(old(ctx)@),
        decreases n - i,
    {
        let ghost before = ctx@;
        let _ = ctx.send(via, to.clone(), event.clone());
        proof {
            crate::logic::lemma_extends_further(old(ctx)@, before, ctx@);
        }
        i += 1;
    }
}

impl ControllerLogic for Echo {
    open spec fn kind_text(&self) -> Seq<char> {
        Self::KIND@
    }

    open spec fn rules(&self) -> LogicRules {
        crate::behaviour::own_rules(|s: LogicState| BehaviourView::Echo)
    }

    open spec fn state(&self) -> LogicState {
        LogicState::Nothing
    }

    fn kind(&self) -> (r: &'static str) {
        Self::KIND
    }

    fn on_start(&mut self, ctx: &mut Context<'_>) -> (r: Result<(), String>)
        ensures
            r is Ok,
            *final(self) == *old(self),
            final(ctx)@ == old(ctx)@,
    {
        proof {
            crate::logic::lemma_extends_same(ctx@);
        }
        Ok(())
    }

    fn on_tick(&mut self, ctx: &mut Context<'_>) -> (r: Result<(), String>)
        ensures
            r is Ok,
            *final(self) == *old(self),
            final(ctx)@ == old(ctx)@,
    {
        proof {
            crate::logic::lemma_extends_same(ctx@);
        }
        Ok(())
    }

    fn on_received(&mut self, packet: &Packet, ctx: &mut Context<'_>) -> (r: Result<(), String>)
        ensures
            r is Ok,
            *final(self) == *old(self),
            final(ctx)@ == old(ctx)@.echoed(packet@),
    {
        let result = ctx.reply(packet, packet.event().clone());
        let ghost sent = ctx@;
        note_err(ctx, "echo", result);
        proof {
            crate::logic::lemma_extends_further(old(ctx)@, sent, ctx@);
        }
        Ok(())
    }

    fn wants(&self, packet: &Packet) -> (r: bool)
        ensures
            !r,
    {
        false
    }

    fn relaying(&self) -> (r: Relaying)
        ensures
            r == Relaying::Never,
    {
        Relaying::Never
    }
}

/// Sends many pings for every packet it receives.
#[derive(Debug, Clone, Copy, PartialEq, Eq, Structural)]
pub struct Amplifier;

impl Amplifier {
    /// Name of this logic.
    pub const KIND: &'static str = "amplifier";

    /// How many pings one packet sets off.
    pub const SENDS: usize = 50;
}

impl ControllerLogic for Amplifier {
    open spec fn kind_text(&self) -> Seq<char> {
        Self::KIND@
    }

    open spec fn rules(&self) -> LogicRules {
        crate::behaviour::own_rules(|s: LogicState| BehaviourView::Amplifier)
    }

    open spec fn state(&self) -> LogicState {
        LogicState::Nothing
    }

    fn kind(&self) -> (r: &'static str) {
        Self::KIND
    }

    fn on_start(&mut self, ctx: &mut Context<'_>) -> (r: Result<(), String>)
        ensures
            r is Ok,
            *final(self) == *old(self),
            final(ctx)@ == old(ctx)@,
    {
        proof {
            crate::logic::lemma_extends_same(ctx@);
        }
        Ok(())
    }

    fn on_tick(&mut self, ctx: &mut Context<'_>) -> (r: Result<(), String>)
        ensures
            r is Ok,
            *final(self) == *old(self),
            final(ctx)@ == old(ctx)@,
    {
        proof {
            crate::logic::lemma_extends_same(ctx@);
        }
        Ok(())
    }

    fn on_received(&mut self, packet: &Packet, ctx: &mut Context<'_>) -> (r: Result<(), String>)
        ensures
            r is Ok,
            *final(self) == *old(self),
            final(ctx)@ == old(ctx)@.amplified(),
    {
        match ctx.arrived_on() {
            Some(via) => {
                let to = PacketRoute::new(names::BROADCAST, ctx.link_name(via));
                send_repeatedly(ctx, via, &to, &Event::new(PING), Self::SENDS);
            },
            None => {
                proof {
                    crate::logic::lemma_extends_same(ctx@);
                }
            },
        }
        Ok(())
    }

    fn wants(&self, packet: &Packet) -> (r: bool)
        ensures
            !r,
    {
        false
    }

    fn relaying(&self) -> (r: Relaying)
        ensures
            r == Relaying::Never,
    {
        Relaying::Never
    }
}

/// Sends many broadcasts every tick, on the first link its node is on.
#[derive(Debug, Clone, Copy, PartialEq, Eq, Structural)]
pub struct Flooder;

impl Flooder {
    /// Name of this logic.
    pub const KIND: &'static str = "flooder";

    /// How many broadcasts it sends per tick.
    pub const SENDS: usize = 1_000;

    /// The kind of event it sends.
    pub const EVENT: &'static str = "noise";
}

impl ControllerLogic for Flooder {
    open spec fn kind_text(&self) -> Seq<char> {
        Self::KIND@
    }

    open spec fn rules(&self) -> LogicRules {
        crate::behaviour::own_rules(|s: LogicState| BehaviourView::Flooder)
    }

    open spec fn state(&self) -> LogicState {
        LogicState::Nothing
    }

    fn kind(&self) -> (r: &'static str) {
        Self::KIND
    }

    fn on_start(&mut self, ctx: &mut Context<'_>) -> (r: Result<(), String>)
        ensures
            r is Ok,
            *final(self) == *old(self),
            final(ctx)@ == old(ctx)@,
    {
        proof {
            crate::logic::lemma_extends_same(ctx@);
        }
        Ok(())
    }

    fn on_tick(&mut self, ctx: &mut Context<'_>) -> (r: Result<(), String>)
        ensures
            r is Ok,
            *final(self) == *old(self),
            final(ctx)@ == old(ctx)@.flooded(),
    {
        proof {
            crate::logic::lemma_extends_same(ctx@);
        }
        let links = ctx.subscriptions();
        if links.len() > 0 {
            let to = PacketRoute::new(names::BROADCAST, ctx.link_name(links[0]));
            send_repeatedly(ctx, links[0], &to, &Event::new(Self::EVENT), Self::SENDS);
        }
        Ok(())
    }

    fn on_received(&mut self, packet: &Packet, ctx: &mut Context<'_>) -> (r: Result<(), String>)
        ensures
            r is Ok,
            *final(self) == *old(self),
            final(ctx)@ == old(ctx)@,
    {
        proof {
            crate::logic::lemma_extends_same(ctx@);
        }
        Ok(())
    }

    fn wants(&self, packet: &Packet) -> (r: bool)
        ensures
            !r,
    {
        false
    }

    fn relaying(&self) -> (r: Relaying)
        ensures
            r == Relaying::Never,
    {
        Relaying::Never
    }
}

/// Crashes on the first packet it receives.
#[derive(Debug, Clone, Copy, PartialEq, Eq, Structural)]
pub struct Crasher;

impl Crasher {
    /// Name of this logic.
    pub const KIND: &'static str = "crasher";

    /// What it says when it crashes.
    pub const WHY: &'static str = "crashed on purpose";
}

impl ControllerLogic for Crasher {
    open spec fn kind_text(&self) -> Seq<char> {
        Self::KIND@
    }

    open spec fn rules(&self) -> LogicRules {
        crate::behaviour::own_rules(|s: LogicState| BehaviourView::Crasher)
    }

    open spec fn state(&self) -> LogicState {
        LogicState::Nothing
    }

    fn kind(&self) -> (r: &'static str) {
        Self::KIND
    }

    fn on_start(&mut self, ctx: &mut Context<'_>) -> (r: Result<(), String>)
        ensures
            r is Ok,
            *final(self) == *old(self),
            final(ctx)@ == old(ctx)@,
    {
        proof {
            crate::logic::lemma_extends_same(ctx@);
        }
        Ok(())
    }

    fn on_tick(&mut self, ctx: &mut Context<'_>) -> (r: Result<(), String>)
        ensures
            r is Ok,
            *final(self) == *old(self),
            final(ctx)@ == old(ctx)@,
    {
        proof {
            crate::logic::lemma_extends_same(ctx@);
        }
        Ok(())
    }

    fn on_received(&mut self, packet: &Packet, ctx: &mut Context<'_>) -> (r: Result<(), String>)
        ensures
            r matches Err(why) && why@ == Self::WHY@,
            *final(self) == *old(self),
            final(ctx)@ == old(ctx)@,
    {
        proof {
            crate::logic::lemma_extends_same(ctx@);
        }
        Err(Self::WHY.to_owned())
    }

    fn wants(&self, packet: &Packet) -> (r: bool)
        ensures
            !r,
    {
        false
    }

    fn relaying(&self) -> (r: Relaying)
        ensures
            r == Relaying::Never,
    {
        Relaying::Never
    }
}

/// What a [`Replayer`] sends over and over.
#[verifier::ext_equal]
pub struct ReplayView {
    pub via: LinkId,
    pub to: Seq<crate::route::HopView>,
    pub event: crate::packet::EventView,
}

/// Sends the first packet it received back to where it came from, several times every tick,
/// forever.
#[derive(Debug)]
pub struct Replayer {
    stuck: Option<(LinkId, PacketRoute, Event)>,
}

impl View for Replayer {
    type V = Option<ReplayView>;

    closed spec fn view(&self) -> Option<ReplayView> {
        match self.stuck {
            Some((via, to, event)) => Some(ReplayView { via, to: to@, event: event@ }),
            None => None,
        }
    }
}

impl Replayer {
    /// Name of this logic.
    pub const KIND: &'static str = "replayer";

    /// How many times it sends the packet per tick.
    pub const SENDS: usize = 4;

    /// Nothing to send yet.
    pub fn new() -> (r: Self)
        ensures
            r@ is None,
    {
        Replayer { stuck: None }
    }
}

/// What a replayer sends once it got `packet`: what it sent before, or else the packet's event
/// back to where it came from.
pub open spec fn stuck_on(
    stuck: Option<ReplayView>,
    c: crate::logic::ContextView,
    packet: crate::packet::PacketView,
) -> Option<ReplayView> {
    match stuck {
        Some(r) => Some(r),
        None => match c.arrived_on {
            Some(via) => Some(ReplayView { via, to: packet.from, event: packet.event }),
            None => None,
        },
    }
}

/// What the context is once a replayer had its tick.
pub open spec fn replay_ticked(
    stuck: Option<ReplayView>,
    c: crate::logic::ContextView,
) -> crate::logic::ContextView {
    match stuck {
        Some(r) => c.repeated(r.via, r.to, r.event, Replayer::SENDS as nat),
        None => c,
    }
}

impl ControllerLogic for Replayer {
    open spec fn kind_text(&self) -> Seq<char> {
        Self::KIND@
    }

    open spec fn rules(&self) -> LogicRules {
        crate::behaviour::own_rules(|s: LogicState| BehaviourView::Replayer(s->Replayer_0))
    }

    open spec fn state(&self) -> LogicState {
        LogicState::Replayer(self@)
    }

    fn kind(&self) -> (r: &'static str) {
        Self::KIND
    }

    fn on_start(&mut self, ctx: &mut Context<'_>) -> (r: Result<(), String>)
        ensures
            r is Ok,
            final(self)@ == old(self)@,
            final(ctx)@ == old(ctx)@,
    {
        proof {
            crate::logic::lemma_extends_same(ctx@);
        }
        Ok(())
    }

    fn on_tick(&mut self, ctx: &mut Context<'_>) -> (r: Result<(), String>)
        ensures
            r is Ok,
            final(self)@ == old(self)@,
            final(ctx)@ == replay_ticked(old(self)@, old(ctx)@),
    {
        proof {
            crate::logic::lemma_extends_same(ctx@);
        }
        if let Some((via, to, event)) = &self.stuck {
            send_repeatedly(ctx, *via, to, event, Self::SENDS);
        }
        Ok(())
    }

    fn on_received(&mut self, packet: &Packet, ctx: &mut Context<'_>) -> (r: Result<(), String>)
        ensures
            r is Ok,
            final(self)@ == stuck_on(old(self)@, old(ctx)@, packet@),
            final(ctx)@ == old(ctx)@,
    {
        proof {
            crate::logic::lemma_extends_same(ctx@);
        }
        if self.stuck.is_none() {
            if let Some(via) = ctx.arrived_on() {
                self.stuck = Some((via, packet.from().clone(), packet.event().clone()));
            }
        }
        Ok(())
    }

    fn wants(&self, packet: &Packet) -> (r: bool)
        ensures
            !r,
    {
        false
    }

    fn relaying(&self) -> (r: Relaying)
        ensures
            r == Relaying::Never,
    {
        Relaying::Never
    }
}

} // verus!
