//! What can be attached to a node: one of the crate's own logics, or one from outside.

use vstd::prelude::*;

use crate::builtin::{Beacon, Bridge, Gateway, Responder, Scanner};
use crate::computer::Kernel;
use crate::faulty::{Amplifier, Crasher, Echo, Flooder, Replayer};
use crate::logic::{Context, ControllerLogic, Relaying};
use crate::npc::Npc;
use crate::packet::Packet;
use crate::text::same_text;

verus! {

/// What a logic from outside is: its kind, its rules, and what it remembers.
#[verifier::ext_equal]
pub struct LogicView {
    pub kind: Seq<char>,
    pub rules: crate::logic::LogicRules,
    pub state: crate::logic::LogicState,
}

/// What a [`Behaviour`] holds.
#[verifier::ext_equal]
pub enum BehaviourView {
    Responder,
    Gateway,
    Beacon(u64),
    Scanner(u64),
    Bridge,
    Echo,
    Replayer(Option<crate::faulty::ReplayView>),
    Amplifier,
    Flooder,
    Crasher,
    Kernel(crate::computer::KernelView),
    Npc(crate::npc::NpcView),
    Custom(LogicView),
}

/// Which callback of a logic runs.
#[verifier::ext_equal]
pub enum CallView {
    Start,
    Tick,
    Received(crate::packet::PacketView),
}

/// What came of a callback: the logic and its context afterwards, and why it crashed if it did.
#[verifier::ext_equal]
pub struct Reaction {
    pub behaviour: BehaviourView,
    pub context: crate::logic::ContextView,
    pub crash: Option<Seq<char>>,
}

impl BehaviourView {
    /// The kind of logic.
    pub open spec fn kind(self) -> Seq<char> {
        match self {
            BehaviourView::Responder => Responder::KIND@,
            BehaviourView::Gateway => Gateway::KIND@,
            BehaviourView::Beacon(_) => Beacon::KIND@,
            BehaviourView::Scanner(_) => Scanner::KIND@,
            BehaviourView::Bridge => Bridge::KIND@,
            BehaviourView::Echo => Echo::KIND@,
            BehaviourView::Replayer(_) => Replayer::KIND@,
            BehaviourView::Amplifier => Amplifier::KIND@,
            BehaviourView::Flooder => Flooder::KIND@,
            BehaviourView::Crasher => Crasher::KIND@,
            BehaviourView::Kernel(_) => Kernel::KIND@,
            BehaviourView::Npc(_) => Npc::KIND@,
            BehaviourView::Custom(logic) => logic.kind,
        }
    }

    /// How the logic relays.
    pub open spec fn relaying(self) -> Relaying {
        match self {
            BehaviourView::Gateway | BehaviourView::Kernel(_) => Relaying::Routed,
            BehaviourView::Bridge => Relaying::Flooding,
            BehaviourView::Custom(logic) => (logic.rules.relaying)(logic.state),
            _ => Relaying::Never,
        }
    }

    /// Whether the logic wants a packet that the standard rules would ignore.
    pub open spec fn wants(self, packet: crate::packet::PacketView) -> bool {
        match self {
            BehaviourView::Bridge => true,
            BehaviourView::Kernel(kernel) => kernel.promiscuous,
            BehaviourView::Custom(logic) => (logic.rules.wants)(logic.state, packet),
            _ => false,
        }
    }

    /// What the logic remembers.
    pub open spec fn state(self) -> crate::logic::LogicState {
        match self {
            BehaviourView::Beacon(interval) => crate::logic::LogicState::Interval(interval),
            BehaviourView::Scanner(interval) => crate::logic::LogicState::Interval(interval),
            BehaviourView::Replayer(stuck) => crate::logic::LogicState::Replayer(stuck),
            BehaviourView::Kernel(kernel) => crate::logic::LogicState::Kernel(kernel),
            BehaviourView::Npc(npc) => crate::logic::LogicState::Npc(npc),
            BehaviourView::Custom(logic) => logic.state,
            _ => crate::logic::LogicState::Nothing,
        }
    }

    /// What comes of a tick.
    pub open spec fn ticked(self, c: crate::logic::ContextView) -> Reaction {
        match self {
            BehaviourView::Beacon(interval) => Reaction {
                behaviour: self,
                context: c.beaconed(interval),
                crash: None,
            },
            BehaviourView::Scanner(interval) => Reaction {
                behaviour: self,
                context: c.scan_ticked(interval),
                crash: None,
            },
            BehaviourView::Replayer(stuck) => Reaction {
                behaviour: self,
                context: crate::faulty::replay_ticked(stuck, c),
                crash: None,
            },
            BehaviourView::Flooder => Reaction {
                behaviour: self,
                context: c.flooded(),
                crash: None,
            },
            BehaviourView::Npc(npc) => if npc.spec.day_length == 0 {
                Reaction { behaviour: self, context: c, crash: Some(crate::npc::NO_DIVISOR@) }
            } else {
                match npc.goal_at(c.tick) {
                    Some(goal) => Reaction {
                        behaviour: BehaviourView::Npc(npc.with_goal(goal)),
                        context: npc.goal_told(goal, c),
                        crash: None,
                    },
                    None => Reaction { behaviour: self, context: c, crash: None },
                }
            },
            _ => Reaction { behaviour: self, context: c, crash: None },
        }
    }

    /// What comes of a packet.
    pub open spec fn received(
        self,
        packet: crate::packet::PacketView,
        c: crate::logic::ContextView,
    ) -> Reaction {
        match self {
            BehaviourView::Gateway => Reaction {
                behaviour: self,
                context: c.gated(packet),
                crash: None,
            },
            BehaviourView::Bridge => Reaction {
                behaviour: self,
                context: c.bridged(packet),
                crash: None,
            },
            BehaviourView::Echo => Reaction {
                behaviour: self,
                context: c.echoed(packet),
                crash: None,
            },
            BehaviourView::Replayer(stuck) => Reaction {
                behaviour: BehaviourView::Replayer(crate::faulty::stuck_on(stuck, c, packet)),
                context: c,
                crash: None,
            },
            BehaviourView::Amplifier => Reaction {
                behaviour: self,
                context: c.amplified(),
                crash: None,
            },
            BehaviourView::Flooder => Reaction { behaviour: self, context: c, crash: None },
            BehaviourView::Crasher => Reaction {
                behaviour: self,
                context: c,
                crash: Some(Crasher::WHY@),
            },
            BehaviourView::Kernel(kernel) => Reaction {
                behaviour: BehaviourView::Kernel(kernel.received(c.accepted_by)),
                context: kernel.reacted(packet, c),
                crash: None,
            },
            BehaviourView::Npc(npc) => Reaction {
                behaviour: BehaviourView::Npc(npc.received(packet)),
                context: npc.reacted(packet, c),
                crash: if npc.speechless(packet) {
                    Some(crate::npc::NO_DIVISOR@)
                } else {
                    None
                },
            },
            _ => Reaction { behaviour: self, context: c.answered(packet), crash: None },
        }
    }

    /// What comes of a callback of one of the crate's own logics.
    pub open spec fn reaction(self, call: CallView, c: crate::logic::ContextView) -> Reaction {
        match call {
            CallView::Start => Reaction { behaviour: self, context: c, crash: None },
            CallView::Tick => self.ticked(c),
            CallView::Received(packet) => self.received(packet, c),
        }
    }

    /// Whether `out` may come of a callback. What comes of a logic from outside is what its rules
    /// allow; it stays what it is but for what it remembers, and does no more than a logic can.
    pub open spec fn may_react(
        self,
        call: CallView,
        c: crate::logic::ContextView,
        out: Reaction,
    ) -> bool {
        &&& out.context.extends(c)
        &&& match self {
            BehaviourView::Custom(logic) => {
                let state = out.behaviour.state();
                &&& out.behaviour == BehaviourView::Custom(LogicView { state, ..logic })
                &&& (logic.rules.reacts)(
                    logic.state,
                    call,
                    c,
                    crate::logic::Response { state, context: out.context, crash: out.crash },
                )
            },
            _ => out == self.reaction(call, c),
        }
    }
}

/// The rules of one of the crate's own logics, which `of` finds by what it remembers: just one
/// thing comes of each callback.
pub open spec fn own_rules(
    of: spec_fn(crate::logic::LogicState) -> BehaviourView,
) -> crate::logic::LogicRules {
    crate::logic::LogicRules {
        reacts: |
            state: crate::logic::LogicState,
            call: CallView,
            c: crate::logic::ContextView,
            out: crate::logic::Response,
        |
            {
                let own = of(state).reaction(call, c);
                out == crate::logic::Response {
                    state: own.behaviour.state(),
                    context: own.context,
                    crash: own.crash,
                }
            },
        wants: |state: crate::logic::LogicState, packet: crate::packet::PacketView|
            of(state).wants(packet),
        relaying: |state: crate::logic::LogicState| of(state).relaying(),
    }
}

/// Something that is kept just as it was handed over.
pub struct Held<L> {
    /// What is kept.
    pub logic: L,
}

/// What is attached to a node.
pub enum Behaviour {
    /// Answers pings.
    Responder(Responder),
    /// Connects its internal links to the outside.
    Gateway(Gateway),
    /// Pings everyone now and then.
    Beacon(Beacon),
    /// Scans the networks its parent is on.
    Scanner(Scanner),
    /// Passes everything on.
    Bridge(Bridge),
    /// Answers everything with a copy.
    Echo(Echo),
    /// Sends the same packet over and over.
    Replayer(Replayer),
    /// Sends many packets for each it gets.
    Amplifier(Amplifier),
    /// Sends many packets every tick.
    Flooder(Flooder),
    /// Crashes.
    Crasher(Crasher),
    /// A computer's gateway.
    Kernel(Kernel),
    /// A non-player character.
    Npc(Npc),
    /// A logic from outside.
    Custom(Held<Box<dyn ControllerLogic>>),
}

impl View for Behaviour {
    type V = BehaviourView;

    open spec fn view(&self) -> BehaviourView {
        match *self {
            Behaviour::Responder(_) => BehaviourView::Responder,
            Behaviour::Gateway(_) => BehaviourView::Gateway,
            Behaviour::Beacon(b) => BehaviourView::Beacon(b.interval),
            Behaviour::Scanner(s) => BehaviourView::Scanner(s.interval),
            Behaviour::Bridge(_) => BehaviourView::Bridge,
            Behaviour::Echo(_) => BehaviourView::Echo,
            Behaviour::Replayer(r) => BehaviourView::Replayer(r@),
            Behaviour::Amplifier(_) => BehaviourView::Amplifier,
            Behaviour::Flooder(_) => BehaviourView::Flooder,
            Behaviour::Crasher(_) => BehaviourView::Crasher,
            Behaviour::Kernel(k) => BehaviourView::Kernel(k@),
            Behaviour::Npc(n) => BehaviourView::Npc(n@),
            Behaviour::Custom(held) => BehaviourView::Custom(
                LogicView {
                    kind: held.logic.kind_text(),
                    rules: held.logic.rules(),
                    state: held.logic.state(),
                },
            ),
        }
    }
}

/// Which callback of a logic runs.
pub enum Call<'a> {
    /// It was attached.
    Start,
    /// A tick begins.
    Tick,
    /// A packet arrived.
    Received(&'a Packet),
}

impl<'a> View for Call<'a> {
    type V = CallView;

    open spec fn view(&self) -> CallView {
        match *self {
            Call::Start => CallView::Start,
            Call::Tick => CallView::Tick,
            Call::Received(packet) => CallView::Received(packet@),
        }
    }
}

/// Names of the engine's own logic kinds.
pub const LOGIC_KINDS: [&'static str; 10] = [
    "responder",
    "gateway",
    "beacon",
    "scanner",
    "bridge",
    "echo",
    "replayer",
    "amplifier",
    "flooder",
    "crasher",
];

/// The engine's own logic of that name, with default settings; nothing if the name is unknown.
pub open spec fn engine_logic(kind: Seq<char>) -> Option<BehaviourView> {
    if kind == Responder::KIND@ {
        Some(BehaviourView::Responder)
    } else if kind == Gateway::KIND@ {
        Some(BehaviourView::Gateway)
    } else if kind == Beacon::KIND@ {
        Some(BehaviourView::Beacon(24))
    } else if kind == Scanner::KIND@ {
        Some(BehaviourView::Scanner(40))
    } else if kind == Bridge::KIND@ {
        Some(BehaviourView::Bridge)
    } else if kind == Echo::KIND@ {
        Some(BehaviourView::Echo)
    } else if kind == Replayer::KIND@ {
        Some(BehaviourView::Replayer(None))
    } else if kind == Amplifier::KIND@ {
        Some(BehaviourView::Amplifier)
    } else if kind == Flooder::KIND@ {
        Some(BehaviourView::Flooder)
    } else if kind == Crasher::KIND@ {
        Some(BehaviourView::Crasher)
    } else {
        None
    }
}

/// Creates one of the engine's own logics by name, or `None` if the name is unknown.
pub fn create_logic(kind: &str) -> (r: Option<Behaviour>)
    ensures
        match r {
            Some(b) => engine_logic(kind@) == Some(b@),
            None => engine_logic(kind@) is None,
        },
{
    if same_text(kind, Responder::KIND) {
        Some(Behaviour::Responder(Responder))
    } else if same_text(kind, Gateway::KIND) {
        Some(Behaviour::Gateway(Gateway))
    } else if same_text(kind, Beacon::KIND) {
        Some(Behaviour::Beacon(Beacon { interval: 24 }))
    } else if same_text(kind, Scanner::KIND) {
        Some(Behaviour::Scanner(Scanner { interval: 40 }))
    } else if same_text(kind, Bridge::KIND) {
        Some(Behaviour::Bridge(Bridge))
    } else if same_text(kind, Echo::KIND) {
        Some(Behaviour::Echo(Echo))
    } else if same_text(kind, Replayer::KIND) {
        Some(Behaviour::Replayer(Replayer::new()))
    } else if same_text(kind, Amplifier::KIND) {
        Some(Behaviour::Amplifier(Amplifier))
    } else if same_text(kind, Flooder::KIND) {
        Some(Behaviour::Flooder(Flooder))
    } else if same_text(kind, Crasher::KIND) {
        Some(Behaviour::Crasher(Crasher))
    } else {
        None
    }
}

impl Behaviour {
    /// The kind of logic.
    pub fn kind(&self) -> (r: &'static str)
        ensures
            r@ == self@.kind(),
    {
        match self {
            Behaviour::Responder(_) => Responder::KIND,
            Behaviour::Gateway(_) => Gateway::KIND,
            Behaviour::Beacon(_) => Beacon::KIND,
            Behaviour::Scanner(_) => Scanner::KIND,
            Behaviour::Bridge(_) => Bridge::KIND,
            Behaviour::Echo(_) => Echo::KIND,
            Behaviour::Replayer(_) => Replayer::KIND,
            Behaviour::Amplifier(_) => Amplifier::KIND,
            Behaviour::Flooder(_) => Flooder::KIND,
            Behaviour::Crasher(_) => Crasher::KIND,
            Behaviour::Kernel(_) => Kernel::KIND,
            Behaviour::Npc(_) => Npc::KIND,
            Behaviour::Custom(held) => held.logic.kind(),
        }
    }

    /// How the logic passes traffic between the links its node is on.
    pub fn relaying(&self) -> (r: Relaying)
        ensures
            r == self@.relaying(),
    {
        match self {
            Behaviour::Gateway(gateway) => gateway.relaying(),
            Behaviour::Bridge(bridge) => bridge.relaying(),
            Behaviour::Kernel(kernel) => kernel.relaying(),
            Behaviour::Custom(held) => held.logic.relaying(),
            _ => Relaying::Never,
        }
    }

    /// Whether the logic wants a packet that the standard rules would ignore.
    pub fn wants(&self, packet: &Packet) -> (r: bool)
        ensures
            r == self@.wants(packet@),
    {
        match self {
            Behaviour::Bridge(bridge) => bridge.wants(packet),
            Behaviour::Kernel(kernel) => kernel.wants(packet),
            Behaviour::Custom(held) => held.logic.wants(packet),
            _ => false,
        }
    }

    /// Runs a callback.
    pub fn run(&mut self, call: Call<'_>, ctx: &mut Context<'_>) -> (r: Result<(), String>)
        ensures
            old(self)@.may_react(
                call@,
                old(ctx)@,
                (Reaction {
                    behaviour: final(self)@,
                    context: final(ctx)@,
                    crash: match r {
                        Ok(_) => None,
                        Err(why) => Some(why@),
                    },
                }),
            ),
    {
        match call {
            Call::Start => self.start(ctx),
            Call::Tick => self.tick(ctx),
            Call::Received(packet) => self.receive(packet, ctx),
        }
    }

    fn start(&mut self, ctx: &mut Context<'_>) -> (r: Result<(), String>)
        ensures
            old(self)@.may_react(
                CallView::Start,
                old(ctx)@,
                (Reaction {
                    behaviour: final(self)@,
                    context: final(ctx)@,
                    crash: match r {
                        Ok(_) => None,
                        Err(why) => Some(why@),
                    },
                }),
            ),
    {
        proof {
            crate::logic::lemma_extends_same(ctx@);
        }
        match self {
            Behaviour::Custom(held) => held.logic.on_start(ctx),
            _ => Ok(()),
        }
    }

    fn tick(&mut self, ctx: &mut Context<'_>) -> (r: Result<(), String>)
        ensures
            old(self)@.may_react(
                CallView::Tick,
                old(ctx)@,
                (Reaction {
                    behaviour: final(self)@,
                    context: final(ctx)@,
                    crash: match r {
                        Ok(_) => None,
                        Err(why) => Some(why@),
                    },
                }),
            ),
    {
        proof {
            crate::logic::lemma_extends_same(ctx@);
        }
        match self {
            Behaviour::Beacon(beacon) => beacon.on_tick(ctx),
            Behaviour::Scanner(scanner) => scanner.on_tick(ctx),
            Behaviour::Replayer(replayer) => replayer.on_tick(ctx),
            Behaviour::Flooder(flooder) => flooder.on_tick(ctx),
            Behaviour::Npc(npc) => npc.on_tick(ctx),
            Behaviour::Custom(held) => held.logic.on_tick(ctx),
            _ => Ok(()),
        }
    }

    fn receive(&mut self, packet: &Packet, ctx: &mut Context<'_>) -> (r: Result<(), String>)
        ensures
            old(self)@.may_react(
                CallView::Received(packet@),
                old(ctx)@,
                (Reaction {
                    behaviour: final(self)@,
                    context: final(ctx)@,
                    crash: match r {
                        Ok(_) => None,
                        Err(why) => Some(why@),
                    },
                }),
            ),
    {
        match self {
            Behaviour::Responder(responder) => responder.on_received(packet, ctx),
            Behaviour::Gateway(gateway) => gateway.on_received(packet, ctx),
            Behaviour::Beacon(beacon) => beacon.on_received(packet, ctx),
            Behaviour::Scanner(scanner) => scanner.on_received(packet, ctx),
            Behaviour::Bridge(bridge) => bridge.on_received(packet, ctx),
            Behaviour::Echo(echo) => echo.on_received(packet, ctx),
            Behaviour::Replayer(replayer) => replayer.on_received(packet, ctx),
            Behaviour::Amplifier(amplifier) => amplifier.on_received(packet, ctx),
            Behaviour::Flooder(flooder) => flooder.on_received(packet, ctx),
            Behaviour::Crasher(crasher) => crasher.on_received(packet, ctx),
            Behaviour::Kernel(kernel) => kernel.on_received(packet, ctx),
            Behaviour::Npc(npc) => npc.on_received(packet, ctx),
            Behaviour::Custom(held) => held.logic.on_received(packet, ctx),
        }
    }
}

} // verus!
