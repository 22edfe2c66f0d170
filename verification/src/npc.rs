//! Non-player characters: a schedule, dialogue, and a reaction to being seen.

use vstd::prelude::*;
use vstd::string::*;

use crate::behaviour::BehaviourView;
use crate::builtin::{PING, PONG};
use crate::ids::LinkId;
use crate::logic::{Context, ControllerLogic, LogicRules, LogicState, Relaying};
use crate::names;
use crate::npc_events;
use crate::packet::{bytes_of, copy_bytes, Event, Packet};
use crate::route::PacketRoute;
use crate::text::same_text;

verus! {

/// What kind of NPC this is, which decides how it reacts to seeing the player.
#[derive(Debug, Clone, Copy, PartialEq, Eq, Structural, Hash)]
pub enum NpcRole {
    /// Raises the alarm when it sees the player.
    Guard,
    /// Flees when it sees the player.
    Civilian,
}

impl Default for NpcRole {
    fn default() -> (r: Self)
        ensures
            r == NpcRole::Civilian,
    {
        NpcRole::Civilian
    }
}

impl NpcRole {
    /// Every role.
    pub const ALL: [Self; 2] = [Self::Guard, Self::Civilian];

    /// The role's name, such as `"guard"`.
    pub fn name(self) -> (r: &'static str)
        ensures
            r@ == (match self {
                NpcRole::Guard => "guard"@,
                NpcRole::Civilian => "civilian"@,
            }),
    {
        match self {
            NpcRole::Guard => "guard",
            NpcRole::Civilian => "civilian",
        }
    }
}

/// What is wrong with an [`NpcSpec`].
#[derive(Debug, Clone, Copy, PartialEq, Eq, Structural)]
pub enum NpcSpecProblem {
    /// `day_length` is 0.
    ZeroDayLength,
    /// The schedule has no entries.
    EmptySchedule,
    /// The first schedule entry is not at tick 0.
    ScheduleNotFromZero,
    /// Schedule times are not strictly increasing.
    ScheduleOutOfOrder,
    /// A schedule time is not within the day.
    ScheduleOutsideDay,
    /// There are no lines of dialogue.
    NoLines,
}

impl NpcSpecProblem {
    /// The problem in words.
    pub open spec fn text(self) -> Seq<char> {
        match self {
            NpcSpecProblem::ZeroDayLength => "day_length must be at least 1"@,
            NpcSpecProblem::EmptySchedule => "the schedule needs at least one entry"@,
            NpcSpecProblem::ScheduleNotFromZero => "the schedule must start at tick 0"@,
            NpcSpecProblem::ScheduleOutOfOrder => "schedule times must be in increasing order"@,
            NpcSpecProblem::ScheduleOutsideDay => "schedule times must be within the day"@,
            NpcSpecProblem::NoLines => "an NPC needs at least one line of dialogue"@,
        }
    }

    /// The problem in words, for people.
    pub fn to_string(&self) -> (r: String)
        ensures
            r@ == self.text(),
    {
        match self {
            NpcSpecProblem::ZeroDayLength => "day_length must be at least 1".to_owned(),
            NpcSpecProblem::EmptySchedule => "the schedule needs at least one entry".to_owned(),
            NpcSpecProblem::ScheduleNotFromZero => "the schedule must start at tick 0".to_owned(),
            NpcSpecProblem::ScheduleOutOfOrder => {
                "schedule times must be in increasing order".to_owned()
            },
            NpcSpecProblem::ScheduleOutsideDay => {
                "schedule times must be within the day".to_owned()
            },
            NpcSpecProblem::NoLines => "an NPC needs at least one line of dialogue".to_owned(),
        }
    }
}

/// What an [`NpcSpec`] holds.
#[verifier::ext_equal]
pub struct NpcSpecView {
    pub role: NpcRole,
    pub day_length: u64,
    pub schedule: Seq<(u64, Seq<char>)>,
    pub lines: Seq<Seq<char>>,
}

/// Parameters for building an NPC.
#[derive(Debug, PartialEq, Eq)]
pub struct NpcSpec {
    /// How it reacts to seeing the player.
    pub role: NpcRole,
    /// Ticks in one day of its schedule.
    pub day_length: u64,
    /// `(tick of the day, goal)` pairs in order, starting at 0. The goal is a free-form name
    /// the host turns into movement, such as `"patrol"` or `"sleep"`.
    pub schedule: Vec<(u64, String)>,
    /// What it says, in order, when talked to. It cycles.
    pub lines: Vec<String>,
}

/// The schedule's contents.
pub open spec fn schedule_view(schedule: Seq<(u64, String)>) -> Seq<(u64, Seq<char>)> {
    schedule.map_values(|e: (u64, String)| (e.0, e.1@))
}

/// The lines' contents.
pub open spec fn line_views(lines: Seq<String>) -> Seq<Seq<char>> {
    lines.map_values(|l: String| l@)
}

impl View for NpcSpec {
    type V = NpcSpecView;

    open spec fn view(&self) -> NpcSpecView {
        NpcSpecView {
            role: self.role,
            day_length: self.day_length,
            schedule: schedule_view(self.schedule@),
            lines: line_views(self.lines@),
        }
    }
}

impl Clone for NpcSpec {
    fn clone(&self) -> (r: Self)
        ensures
            r@ == self@,
    {
        let mut schedule: Vec<(u64, String)> = Vec::new();
        let mut i: usize = 0;
        while i < self.schedule.len()
            invariant
                i <= self.schedule.len(),
                schedule@.len() == i,
                forall|j: int|
                    0 <= j < i ==> (#[trigger] schedule@[j]).0 == self.schedule@[j].0
                        && schedule@[j].1@ == self.schedule@[j].1@,
            decreases self.schedule.len() - i,
        {
            schedule.push((self.schedule[i].0, self.schedule[i].1.clone()));
            i += 1;
        }
        let mut lines: Vec<String> = Vec::new();
        let mut k: usize = 0;
        while k < self.lines.len()
            invariant
                k <= self.lines.len(),
                lines@.len() == k,
                forall|j: int| 0 <= j < k ==> (#[trigger] lines@[j])@ == self.lines@[j]@,
            decreases self.lines.len() - k,
        {
            lines.push(self.lines[k].clone());
            k += 1;
        }
        proof {
            assert(schedule_view(schedule@) =~= schedule_view(self.schedule@));
            assert(line_views(lines@) =~= line_views(self.lines@));
        }
        NpcSpec { role: self.role, day_length: self.day_length, schedule, lines }
    }
}

impl NpcSpecView {
    /// The spec of an ordinary citizen.
    pub open spec fn ordinary() -> NpcSpecView {
        NpcSpecView {
            role: NpcRole::Civilian,
            day_length: 240,
            schedule: seq![(0u64, "sleep"@), (60u64, "work"@), (180u64, "relax"@)],
            lines: seq!["Hello."@, "Nice weather today."@],
        }
    }

    /// What is wrong with the spec, if anything.
    pub open spec fn problem(self) -> Option<NpcSpecProblem> {
        if self.day_length == 0 {
            Some(NpcSpecProblem::ZeroDayLength)
        } else if self.schedule.len() == 0 {
            Some(NpcSpecProblem::EmptySchedule)
        } else if self.schedule[0].0 != 0 {
            Some(NpcSpecProblem::ScheduleNotFromZero)
        } else if !self.rising() {
            Some(NpcSpecProblem::ScheduleOutOfOrder)
        } else if !self.within_the_day() {
            Some(NpcSpecProblem::ScheduleOutsideDay)
        } else if self.lines.len() == 0 {
            Some(NpcSpecProblem::NoLines)
        } else {
            None
        }
    }

    /// Whether the schedule's times are strictly increasing.
    pub open spec fn rising(self) -> bool {
        forall|i: int, j: int|
            0 <= i < j < self.schedule.len() ==> (#[trigger] self.schedule[i]).0 < (
            #[trigger] self.schedule[j]).0
    }

    /// Whether the schedule's times are within the day.
    pub open spec fn within_the_day(self) -> bool {
        forall|i: int|
            0 <= i < self.schedule.len() ==> (#[trigger] self.schedule[i]).0 < self.day_length
    }
}

impl Default for NpcSpec {
    fn default() -> (r: Self)
        ensures
            r@ == NpcSpecView::ordinary(),
    {
        let mut schedule: Vec<(u64, String)> = Vec::new();
        schedule.push((0, "sleep".to_owned()));
        schedule.push((60, "work".to_owned()));
        schedule.push((180, "relax".to_owned()));
        let mut lines: Vec<String> = Vec::new();
        lines.push("Hello.".to_owned());
        lines.push("Nice weather today.".to_owned());
        let r = NpcSpec { role: NpcRole::Civilian, day_length: 240, schedule, lines };
        assert(r@.schedule =~= NpcSpecView::ordinary().schedule);
        assert(r@.lines =~= NpcSpecView::ordinary().lines);
        r
    }
}

impl NpcSpec {
    /// What is wrong with the spec, if anything.
    pub fn problem(&self) -> (r: Option<NpcSpecProblem>)
        ensures
            r == self@.problem(),
    {
        if self.day_length == 0 {
            return Some(NpcSpecProblem::ZeroDayLength);
        }
        if self.schedule.len() == 0 {
            return Some(NpcSpecProblem::EmptySchedule);
        }
        assert(self@.schedule[0].0 == self.schedule@[0].0);
        if self.schedule[0].0 != 0 {
            return Some(NpcSpecProblem::ScheduleNotFromZero);
        }
        let mut i: usize = 1;
        while i < self.schedule.len()
            invariant
                1 <= i <= self.schedule.len(),
                self.day_length > 0,
                self@.schedule[0].0 == 0,
                forall|a: int, b: int|
                    0 <= a < b < i ==> (#[trigger] self@.schedule[a]).0 < (
                    #[trigger] self@.schedule[b]).0,
            decreases self.schedule.len() - i,
        {
            assert(self@.schedule[i as int].0 == self.schedule@[i as int].0);
            assert(self@.schedule[i - 1].0 == self.schedule@[i - 1].0);
            if self.schedule[i - 1].0 >= self.schedule[i].0 {
                assert(!self@.rising());
                return Some(NpcSpecProblem::ScheduleOutOfOrder);
            }
            i += 1;
        }
        assert(self@.rising());
        let mut k: usize = 0;
        while k < self.schedule.len()
            invariant
                k <= self.schedule.len(),
                self.schedule.len() > 0,
                self.day_length > 0,
                self@.schedule[0].0 == 0,
                self@.rising(),
                forall|a: int| 0 <= a < k ==> (#[trigger] self@.schedule[a]).0 < self.day_length,
            decreases self.schedule.len() - k,
        {
            assert(self@.schedule[k as int].0 == self.schedule@[k as int].0);
            if self.schedule[k].0 >= self.day_length {
                assert(!self@.within_the_day());
                return Some(NpcSpecProblem::ScheduleOutsideDay);
            }
            k += 1;
        }
        assert(self@.within_the_day());
        if self.lines.len() == 0 {
            return Some(NpcSpecProblem::NoLines);
        }
        None
    }
}

/// What an [`Npc`] holds.
#[verifier::ext_equal]
pub struct NpcView {
    pub spec: NpcSpecView,
    pub goal: Option<Seq<char>>,
    pub next_line: nat,
}

/// An NPC's logic.
#[derive(Debug)]
pub struct Npc {
    spec: NpcSpec,
    goal: Option<String>,
    next_line: usize,
}

impl View for Npc {
    type V = NpcView;

    closed spec fn view(&self) -> NpcView {
        NpcView {
            spec: self.spec@,
            goal: match self.goal {
                Some(goal) => Some(goal@),
                None => None,
            },
            next_line: self.next_line as nat,
        }
    }
}

/// Why a logic crashes that divides by nothing.
pub const NO_DIVISOR: &'static str =
    "attempt to calculate the remainder with a divisor of zero";

/// The goal of the last entry that starts by `time`.
pub open spec fn scheduled_goal(schedule: Seq<(u64, Seq<char>)>, time: u64) -> Option<Seq<char>>
    decreases schedule.len(),
{
    if schedule.len() == 0 {
        None
    } else if schedule.last().0 <= time {
        Some(schedule.last().1)
    } else {
        scheduled_goal(schedule.drop_last(), time)
    }
}

/// Whether an entry starts at `time`.
pub open spec fn starts_at(schedule: Seq<(u64, Seq<char>)>, time: u64) -> bool {
    exists|i: int| 0 <= i < schedule.len() && (#[trigger] schedule[i]).0 == time
}

impl crate::logic::ContextView {
    /// What the context is once the node tried to send `event` to everyone on each of the links.
    pub open spec fn broadcasted(
        self,
        links: Seq<LinkId>,
        event: crate::packet::EventView,
    ) -> crate::logic::ContextView
        decreases links.len(),
    {
        if links.len() == 0 {
            self
        } else {
            let c = self.broadcasted(links.drop_last(), event);
            let via = links.last();
            c.after(c.fresh(via, crate::builtin::everyone(c.link_name(via)), event))
        }
    }
}

/// An event whose data is text.
pub open spec fn said(kind: Seq<char>, text: Seq<char>) -> crate::packet::EventView {
    crate::packet::EventView { kind, data: vstd::utf8::encode_utf8(text) }
}

impl NpcView {
    /// The NPC with a new goal.
    pub open spec fn with_goal(self, goal: Seq<char>) -> NpcView {
        NpcView { goal: Some(goal), ..self }
    }

    /// What the context is once the NPC took up `goal`: nothing changes if that is its goal
    /// already, or else the change is noted and told to everyone.
    pub open spec fn goal_told(
        self,
        goal: Seq<char>,
        c: crate::logic::ContextView,
    ) -> crate::logic::ContextView {
        if self.goal == Some(goal) {
            c
        } else {
            let noted = c.noted("goal: "@ + goal);
            noted.broadcasted(noted.subscriptions(), said(npc_events::GOAL@, goal))
        }
    }

    /// The goal the NPC takes up on this tick, if it takes one up. Fleeing overrides the schedule
    /// until the next scheduled change.
    pub open spec fn goal_at(self, tick: u64) -> Option<Seq<char>> {
        let time = (tick % self.spec.day_length) as u64;
        if self.goal == Some("flee"@) && !starts_at(self.spec.schedule, time) {
            None
        } else {
            scheduled_goal(self.spec.schedule, time)
        }
    }

    /// The line the NPC says next.
    pub open spec fn line(self) -> Seq<char> {
        self.spec.lines[(self.next_line % self.spec.lines.len()) as int]
    }

    /// The NPC once it got `packet`.
    pub open spec fn received(self, packet: crate::packet::PacketView) -> NpcView {
        if packet.event.kind == npc_events::TALK@ {
            if self.spec.lines.len() == 0 {
                self
            } else {
                NpcView { next_line: self.next_line % self.spec.lines.len() + 1, ..self }
            }
        } else if packet.event.kind == npc_events::PLAYER_SEEN@ && self.spec.role
            == NpcRole::Civilian {
            self.with_goal("flee"@)
        } else {
            self
        }
    }

    /// What the context is once the NPC got `packet`.
    pub open spec fn reacted(
        self,
        packet: crate::packet::PacketView,
        c: crate::logic::ContextView,
    ) -> crate::logic::ContextView {
        if packet.event.kind == npc_events::TALK@ {
            if self.spec.lines.len() == 0 {
                c
            } else {
                c.replied(packet, said(npc_events::SAY@, self.line()))
            }
        } else if packet.event.kind == npc_events::PLAYER_SEEN@ {
            match self.spec.role {
                NpcRole::Guard => {
                    let noted = c.noted("saw the player: raising the alarm"@);
                    noted.broadcasted(noted.subscriptions(), said(npc_events::ALARM@, c.name()))
                },
                NpcRole::Civilian => self.goal_told("flee"@, c),
            }
        } else if packet.event.kind == PING@ {
            c.replied(packet, crate::packet::EventView { kind: PONG@, data: packet.event.data })
        } else {
            c
        }
    }

    /// Whether the NPC crashes on `packet`: it is talked to and has nothing to say.
    pub open spec fn speechless(self, packet: crate::packet::PacketView) -> bool {
        packet.event.kind == npc_events::TALK@ && self.spec.lines.len() == 0
    }
}

/// Sends `event` to everyone on every link the node is on.
fn broadcast(ctx: &mut Context<'_>, event: &Event)
    ensures
        final(ctx)@ == old(ctx)@.broadcasted(old(ctx)@.subscriptions(), event@),
        final(ctx)@.extends(old(ctx)@),
{
    proof {
        crate::logic::lemma_extends_same(ctx@);
    }
    let links = ctx.subscriptions();
    let mut i: usize = 0;
    assert(links@.take(0) =~= Seq::<LinkId>::empty());
    while i < links.len()
        invariant
            i <= links.len(),
            ctx@ == old(ctx)@.broadcasted(links@.take(i as int), event@),
            ctx@.extends(old(ctx)@),
        decreases links.len() - i,
    {
        let ghost before = ctx@;
        assert(links@.take(i + 1).drop_last() =~= links@.take(i as int));
        let to = PacketRoute::new(names::BROADCAST, ctx.link_name(links[i]));
        let _ = ctx.send(links[i], to, event.clone());
        proof {
            crate::logic::lemma_extends_further(old(ctx)@, before, ctx@);
        }
        i += 1;
    }
    assert(links@.take(i as int) =~= links@);
}

impl Npc {
    /// Name of this logic.
    pub const KIND: &'static str = "npc";

    /// An NPC following `spec`.
    pub fn new(spec: NpcSpec) -> (r: Self)
        ensures
            r@ == (NpcView { spec: spec@, goal: None, next_line: 0 }),
    {
        Npc { spec, goal: None, next_line: 0 }
    }

    /// Its current goal, once the schedule has started.
    pub fn goal(&self) -> (r: Option<&str>)
        ensures
            match r {
                Some(goal) => self@.goal == Some(goal@),
                None => self@.goal is None,
            },
    {
        match &self.goal {
            Some(goal) => Some(goal.as_str()),
            None => None,
        }
    }

    fn has_goal(&self, goal: &str) -> (r: bool)
        ensures
            r == (self@.goal == Some(goal@)),
    {
        match &self.goal {
            Some(current) => same_text(current.as_str(), goal),
            None => false,
        }
    }

    fn set_goal(&mut self, goal: &str, ctx: &mut Context<'_>)
        ensures
            final(self)@ == old(self)@.with_goal(goal@),
            final(ctx)@ == old(self)@.goal_told(goal@, old(ctx)@),
            final(ctx)@.extends(old(ctx)@),
    {
        if self.has_goal(goal) {
            proof {
                crate::logic::lemma_extends_same(ctx@);
            }
            return;
        }
        self.goal = Some(goal.to_owned());
        let mut text = "goal: ".to_owned();
        text.append(goal);
        ctx.note(text.as_str());
        let ghost noted = ctx@;
        broadcast(ctx, &Event::with_data(npc_events::GOAL, bytes_of(goal)));
        proof {
            crate::logic::lemma_extends_further(old(ctx)@, noted, ctx@);
        }
    }

    /// The goal of the last entry that starts by `time`.
    fn goal_by(&self, time: u64) -> (r: Option<String>)
        ensures
            match r {
                Some(goal) => scheduled_goal(self@.spec.schedule, time) == Some(goal@),
                None => scheduled_goal(self@.spec.schedule, time) is None,
            },
    {
        let ghost all = self@.spec.schedule;
        let mut i: usize = self.spec.schedule.len();
        assert(all.take(i as int) =~= all);
        while i > 0
            invariant
                i <= self.spec.schedule.len(),
                all == self@.spec.schedule,
                scheduled_goal(all, time) == scheduled_goal(all.take(i as int), time),
            decreases i,
        {
            proof {
                assert(all.take(i as int).drop_last() =~= all.take(i - 1));
                assert(all.take(i as int).last() == all[i - 1]);
                assert(all[i - 1].0 == self.spec.schedule@[i - 1].0);
                assert(all[i - 1].1 == self.spec.schedule@[i - 1].1@);
            }
            if self.spec.schedule[i - 1].0 <= time {
                return Some(self.spec.schedule[i - 1].1.clone());
            }
            i -= 1;
        }
        None
    }

    /// Whether an entry starts at `time`.
    fn changes_at(&self, time: u64) -> (r: bool)
        ensures
            r == starts_at(self@.spec.schedule, time),
    {
        let mut i: usize = 0;
        while i < self.spec.schedule.len()
            invariant
                i <= self.spec.schedule.len(),
                forall|j: int| 0 <= j < i ==> (#[trigger] self@.spec.schedule[j]).0 != time,
            decreases self.spec.schedule.len() - i,
        {
            assert(self@.spec.schedule[i as int].0 == self.spec.schedule@[i as int].0);
            if self.spec.schedule[i].0 == time {
                return true;
            }
            i += 1;
        }
        false
    }
}

impl ControllerLogic for Npc {
    open spec fn kind_text(&self) -> Seq<char> {
        Self::KIND@
    }

    open spec fn rules(&self) -> LogicRules {
        crate::behaviour::own_rules(|s: LogicState| BehaviourView::Npc(s->Npc_0))
    }

    open spec fn state(&self) -> LogicState {
        LogicState::Npc(self@)
    }

    fn kind(&self) -> (r: &'static str) {
        Self::KIND
    }

    fn on_start(&mut self, ctx: &mut Context<'_>) -> (r: Result<(), String>)
        ensures
            r is Ok,
            final(self)@ == old(self)@,
            final(ctx)@ == old(ctx)@,
    {
        proof {
            crate::logic::lemma_extends_same(ctx@);
        }
        Ok(())
    }

    fn on_tick(&mut self, ctx: &mut Context<'_>) -> (r: Result<(), String>)
        ensures
            match r {
                Ok(_) => old(self)@.spec.day_length > 0,
                Err(why) => old(self)@.spec.day_length == 0 && why@ == NO_DIVISOR@,
            },
            r is Err ==> final(self)@ == old(self)@ && final(ctx)@ == old(ctx)@,
            r is Ok ==> match old(self)@.goal_at(old(ctx)@.tick) {
                Some(goal) => final(self)@ == old(self)@.with_goal(goal) && final(ctx)@ == old(
                    self,
                )@.goal_told(goal, old(ctx)@),
                None => final(self)@ == old(self)@ && final(ctx)@ == old(ctx)@,
            },
    {
        proof {
            crate::logic::lemma_extends_same(ctx@);
        }
        if self.spec.day_length == 0 {
            return Err(NO_DIVISOR.to_owned());
        }
        let time = ctx.tick() % self.spec.day_length;
        // "flee" overrides the schedule until the next scheduled change.
        if !self.has_goal("flee") || self.changes_at(time) {
            if let Some(goal) = self.goal_by(time) {
                self.set_goal(goal.as_str(), ctx);
            }
        }
        Ok(())
    }

    fn on_received(&mut self, packet: &Packet, ctx: &mut Context<'_>) -> (r: Result<(), String>)
        ensures
            match r {
                Ok(_) => !old(self)@.speechless(packet@),
                Err(why) => old(self)@.speechless(packet@) && why@ == NO_DIVISOR@,
            },
            final(self)@ == old(self)@.received(packet@),
            final(ctx)@ == old(self)@.reacted(packet@, old(ctx)@),
    {
        proof {
            crate::logic::lemma_extends_same(ctx@);
        }
        let kind = packet.event().kind.as_str();
        if same_text(kind, npc_events::TALK) {
            if self.spec.lines.len() == 0 {
                return Err(NO_DIVISOR.to_owned());
            }
            let at = self.next_line % self.spec.lines.len();
            let ghost line = self@.line();
            assert(line == self.spec.lines@[at as int]@);
            let say = Event::with_data(npc_events::SAY, bytes_of(self.spec.lines[at].as_str()));
            self.next_line = at + 1;
            let _ = ctx.reply(packet, say);
        } else if same_text(kind, npc_events::PLAYER_SEEN) {
            match self.spec.role {
                NpcRole::Guard => {
                    let who = bytes_of(ctx.name());
                    ctx.note("saw the player: raising the alarm");
                    let ghost noted = ctx@;
                    broadcast(ctx, &Event::with_data(npc_events::ALARM, who));
                    proof {
                        crate::logic::lemma_extends_further(old(ctx)@, noted, ctx@);
                    }
                },
                NpcRole::Civilian => self.set_goal("flee", ctx),
            }
        } else if same_text(kind, PING) {
            let pong = Event::with_data(PONG, copy_bytes(packet.event().data.as_slice()));
            let _ = ctx.reply(packet, pong);
        }
        Ok(())
    }

    fn wants(&self, packet: &Packet) -> (r: bool)
        ensures
            !r,
    {
        false
    }

    fn relaying(&self) -> (r: Relaying)
        ensures
            r == Relaying::Never,
    {
        Relaying::Never
    }
}

} // verus!
