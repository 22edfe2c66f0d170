//! What holds of NPCs, whatever they lived through before.

use vstd::prelude::*;

use crate::behaviour::{BehaviourView, CallView};
use crate::ids::LinkId;
use crate::logic::{ContextView, OutgoingView};
use crate::npc::{NpcRole, NpcSpecProblem, NpcSpecView, NpcView};
use crate::packet::{EventView, PacketView};

verus! {

/// Something that happened to an NPC: a callback, and the context it ran in.
#[verifier::ext_equal]
pub struct Moment {
    pub call: CallView,
    pub context: ContextView,
}

/// A logic after all that happened to it, one thing after the other.
pub open spec fn after_all(b: BehaviourView, moments: Seq<Moment>) -> BehaviourView
    decreases moments.len(),
{
    if moments.len() == 0 {
        b
    } else {
        let last = moments.last();
        after_all(b, moments.drop_last()).reaction(last.call, last.context).behaviour
    }
}

/// How many of the things that happened were someone talking.
pub open spec fn times_talked_to(moments: Seq<Moment>) -> nat
    decreases moments.len(),
{
    if moments.len() == 0 {
        0
    } else {
        times_talked_to(moments.drop_last()) + match moments.last().call {
            CallView::Received(packet) => if packet.event.kind == "talk"@ {
                1nat
            } else {
                0nat
            },
            _ => 0nat,
        }
    }
}

/// A new NPC.
pub open spec fn new_npc(spec: NpcSpecView) -> BehaviourView {
    BehaviourView::Npc(NpcView { spec, goal: None, next_line: 0 })
}

/// The event kinds differ.
proof fn lemma_kinds_differ()
    ensures
        "talk"@ != "player-seen"@,
        "talk"@ != "ping"@,
        "player-seen"@ != "ping"@,
{
    reveal_strlit("talk");
    reveal_strlit("player-seen");
    reveal_strlit("ping");
    assert("talk"@[0] == 't' && "ping"@[0] == 'p' && "player-seen"@.len() == 11);
}

/// An NPC stays the NPC it is, and its next line is as many lines on as it was talked to, going
/// round.
proof fn lemma_next_line(spec: NpcSpecView, moments: Seq<Moment>)
    requires
        spec.lines.len() > 0,
    ensures
        after_all(new_npc(spec), moments) matches BehaviourView::Npc(npc) && npc.spec == spec
            && npc.next_line % spec.lines.len() == times_talked_to(moments) % spec.lines.len(),
    decreases moments.len(),
{
    if moments.len() > 0 {
        let before = moments.drop_last();
        lemma_next_line(spec, before);
        lemma_kinds_differ();
        let n = spec.lines.len() as int;
        let k = times_talked_to(before) as int;
        vstd::arithmetic::div_mod::lemma_add_mod_noop_right(1, k, n);
    }
}

/// An NPC says its lines in order and starts over after the last: the first time it is talked to
/// it says the first, and the `k`-th time after that the `k`-th after the first, going round,
/// whatever else it got and however many ticks passed in between. It says a line once, to
/// whoever talked to it, over the link that the talk came on.
pub proof fn law_lines_come_in_order(
    spec: NpcSpecView,
    moments: Seq<Moment>,
    c: ContextView,
    packet: PacketView,
    via: LinkId,
)
    requires
        spec.lines.len() > 0,
        packet.event.kind == "talk"@,
        c.arrived_on == Some(via),
    ensures
        ({
            let out = after_all(new_npc(spec), moments).reaction(CallView::Received(packet), c);
            let line = spec.lines[(times_talked_to(moments) % spec.lines.len()) as int];
            let say = EventView { kind: "say"@, data: vstd::utf8::encode_utf8(line) };
            &&& out.crash is None
            &&& crate::logic_laws::may_use(c, via, say) && crate::logic_laws::has_room(c, 1)
                ==> crate::logic_laws::sent_only(
                c,
                seq![crate::logic_laws::own_packet(c, via, packet.from, say)],
                out.context,
            )
        }),
{
    lemma_next_line(spec, moments);
    lemma_kinds_differ();
    let line = spec.lines[(times_talked_to(moments) % spec.lines.len()) as int];
    let say = EventView { kind: "say"@, data: vstd::utf8::encode_utf8(line) };
    if crate::logic_laws::may_use(c, via, say) && crate::logic_laws::has_room(c, 1) {
        let out = crate::logic_laws::own_packet(c, via, packet.from, say);
        crate::logic_laws::lemma_sent_nothing(c);
        crate::logic_laws::lemma_sent_one_more(c, Seq::empty(), c, out);
        assert(Seq::<OutgoingView>::empty().push(out) =~= seq![out]);
    }
}

/// An NPC answers pings as everyone does, and nothing else but talk and the sight of the player:
/// other packets change neither it nor what it sends.
pub proof fn law_npcs_answer_pings(npc: NpcView, c: ContextView, packet: PacketView, via: LinkId)
    requires
        c.arrived_on == Some(via),
        packet.event.kind != "talk"@,
        packet.event.kind != "player-seen"@,
    ensures
        ({
            let out = BehaviourView::Npc(npc).reaction(CallView::Received(packet), c);
            let pong = EventView { kind: "pong"@, data: packet.event.data };
            &&& out.crash is None
            &&& out.behaviour == BehaviourView::Npc(npc)
            &&& packet.event.kind != "ping"@ ==> out.context == c
            &&& packet.event.kind == "ping"@ && crate::logic_laws::may_use(c, via, pong)
                && crate::logic_laws::has_room(c, 1) ==> crate::logic_laws::sent_only(
                c,
                seq![crate::logic_laws::own_packet(c, via, packet.from, pong)],
                out.context,
            )
        }),
{
    let pong = EventView { kind: "pong"@, data: packet.event.data };
    if packet.event.kind == "ping"@ && crate::logic_laws::may_use(c, via, pong)
        && crate::logic_laws::has_room(c, 1) {
        let out = crate::logic_laws::own_packet(c, via, packet.from, pong);
        crate::logic_laws::lemma_sent_nothing(c);
        crate::logic_laws::lemma_sent_one_more(c, Seq::empty(), c, out);
        assert(Seq::<OutgoingView>::empty().push(out) =~= seq![out]);
    }
}

/// Whether the node can send the event on every link it is attached to.
pub open spec fn may_tell_all(c: ContextView, event: EventView) -> bool {
    let links = c.network.nodes[c.node].subscriptions;
    &&& c.network.nodes.contains_key(c.node)
    &&& crate::logic_laws::has_room(c, links.len())
    &&& forall|i: int|
        0 <= i < links.len() ==> crate::logic_laws::may_use(c, #[trigger] links[i], event)
}

/// The event, once for each link the node is attached to, to everyone there.
pub open spec fn to_everyone(c: ContextView, event: EventView) -> Seq<OutgoingView> {
    let links = c.network.nodes[c.node].subscriptions;
    Seq::new(
        links.len(),
        |i: int|
            crate::logic_laws::own_packet(
                c,
                links[i],
                crate::logic_laws::to_all(c.network.links[links[i]].name),
                event,
            ),
    )
}

/// A broadcast on some links.
proof fn lemma_broadcasted(
    c: ContextView,
    links: Seq<LinkId>,
    event: EventView,
    packets: Seq<OutgoingView>,
)
    requires
        packets.len() == links.len(),
        crate::logic_laws::has_room(c, links.len()),
        forall|i: int|
            0 <= i < links.len() ==> crate::logic_laws::may_use(c, #[trigger] links[i], event)
                && packets[i] == crate::logic_laws::own_packet(
                c,
                links[i],
                crate::logic_laws::to_all(c.network.links[links[i]].name),
                event,
            ),
    ensures
        crate::logic_laws::sent_only(c, packets, c.broadcasted(links, event)),
    decreases links.len(),
{
    if links.len() == 0 {
        assert(packets =~= Seq::<OutgoingView>::empty());
        crate::logic_laws::lemma_sent_nothing(c);
    } else {
        let front = links.drop_last();
        let some = packets.drop_last();
        assert forall|i: int| 0 <= i < front.len() implies #[trigger] front[i] == links[i]
            && some[i] == packets[i] by {}
        lemma_broadcasted(c, front, event, some);
        let last = links.len() - 1;
        assert(links[last] == links.last());
        assert(packets[last] == packets.last());
        crate::logic_laws::lemma_sent_one_more(
            c,
            some,
            c.broadcasted(front, event),
            packets.last(),
        );
        assert(some.push(packets.last()) =~= packets);
    }
}

/// A broadcast after a note.
proof fn lemma_told_all(c: ContextView, text: Seq<char>, event: EventView)
    requires
        may_tell_all(c, event),
    ensures
        crate::logic_laws::sent_only(
            c.noted(text),
            to_everyone(c, event),
            c.noted(text).broadcasted(c.network.nodes[c.node].subscriptions, event),
        ),
{
    let noted = c.noted(text);
    let links = c.network.nodes[c.node].subscriptions;
    assert forall|i: int| 0 <= i < links.len() implies crate::logic_laws::may_use(
        noted,
        #[trigger] links[i],
        event,
    ) by {
        assert(crate::logic_laws::may_use(c, links[i], event));
    }
    lemma_broadcasted(noted, links, event, to_everyone(c, event));
}

/// A guard that sees the player stays as it is and raises the alarm: on every link it is attached
/// to it tells everyone its own name, with an event of the kind `alarm`.
pub proof fn law_guards_raise_the_alarm(npc: NpcView, c: ContextView, packet: PacketView)
    requires
        npc.spec.role == NpcRole::Guard,
        packet.event.kind == "player-seen"@,
        c.network.nodes.contains_key(c.node),
    ensures
        ({
            let out = BehaviourView::Npc(npc).reaction(CallView::Received(packet), c);
            let alarm = EventView {
                kind: "alarm"@,
                data: vstd::utf8::encode_utf8(c.network.nodes[c.node].name),
            };
            &&& out.crash is None
            &&& out.behaviour == BehaviourView::Npc(npc)
            &&& may_tell_all(c, alarm) ==> crate::logic_laws::sent_only(
                c.noted("saw the player: raising the alarm"@),
                to_everyone(c, alarm),
                out.context,
            )
        }),
{
    lemma_kinds_differ();
    let alarm = EventView {
        kind: "alarm"@,
        data: vstd::utf8::encode_utf8(c.network.nodes[c.node].name),
    };
    if may_tell_all(c, alarm) {
        lemma_told_all(c, "saw the player: raising the alarm"@, alarm);
    }
}

/// Whether a callback made the NPC take up a goal as it should: it has the goal, and unless it
/// had it already it notes so and tells everyone on every link it is attached to, with an event
/// of the kind `goal`.
pub open spec fn takes_up(
    npc: NpcView,
    c: ContextView,
    out: crate::behaviour::Reaction,
    goal: Seq<char>,
) -> bool {
    let event = EventView { kind: "goal"@, data: vstd::utf8::encode_utf8(goal) };
    &&& out.crash is None
    &&& out.behaviour == BehaviourView::Npc(NpcView { goal: Some(goal), ..npc })
    &&& npc.goal == Some(goal) ==> out.context == c
    &&& npc.goal != Some(goal) && may_tell_all(c, event) ==> crate::logic_laws::sent_only(
        c.noted("goal: "@ + goal),
        to_everyone(c, event),
        out.context,
    )
}

/// Taking up a goal.
proof fn lemma_takes_up(npc: NpcView, c: ContextView, goal: Seq<char>)
    ensures
        takes_up(
            npc,
            c,
            crate::behaviour::Reaction {
                behaviour: BehaviourView::Npc(npc.with_goal(goal)),
                context: npc.goal_told(goal, c),
                crash: None,
            },
            goal,
        ),
{
    let event = EventView { kind: "goal"@, data: vstd::utf8::encode_utf8(goal) };
    if npc.goal != Some(goal) && may_tell_all(c, event) {
        lemma_told_all(c, "goal: "@ + goal, event);
    }
}

/// A civilian that sees the player flees.
pub proof fn law_civilians_flee(npc: NpcView, c: ContextView, packet: PacketView)
    requires
        npc.spec.role == NpcRole::Civilian,
        packet.event.kind == "player-seen"@,
    ensures
        takes_up(
            npc,
            c,
            BehaviourView::Npc(npc).reaction(CallView::Received(packet), c),
            "flee"@,
        ),
{
    lemma_kinds_differ();
    lemma_takes_up(npc, c, "flee"@);
}

/// Whether the entry is the one that holds at `time`: it has begun, and the next has not.
pub open spec fn holds_at(spec: NpcSpecView, k: int, time: int) -> bool {
    &&& 0 <= k < spec.schedule.len()
    &&& spec.schedule[k].0 <= time
    &&& k + 1 < spec.schedule.len() ==> time < spec.schedule[k + 1].0
}

/// What a schedule's entry that holds is worth.
proof fn lemma_scheduled(spec: NpcSpecView, k: int, time: u64)
    requires
        spec.problem() is None,
        holds_at(spec, k, time as int),
    ensures
        crate::npc::scheduled_goal(spec.schedule, time) == Some(spec.schedule[k].1),
{
    lemma_scheduled_in(spec, spec.schedule.len() as int, k, time);
    assert(spec.schedule.take(spec.schedule.len() as int) =~= spec.schedule);
}

proof fn lemma_scheduled_in(spec: NpcSpecView, n: int, k: int, time: u64)
    requires
        spec.problem() is None,
        k < n <= spec.schedule.len(),
        holds_at(spec, k, time as int),
    ensures
        crate::npc::scheduled_goal(spec.schedule.take(n), time) == Some(spec.schedule[k].1),
    decreases n,
{
    let some = spec.schedule.take(n);
    assert(some.last() == spec.schedule[n - 1]);
    assert(some.drop_last() =~= spec.schedule.take(n - 1));
    if n - 1 > k {
        if n - 1 > k + 1 {
            assert(spec.schedule[k + 1].0 < spec.schedule[n - 1].0);
        }
        lemma_scheduled_in(spec, n - 1, k, time);
    }
}

/// At every tick of every day exactly one entry of a sound schedule holds.
pub proof fn law_one_entry_holds_at_a_time(spec: NpcSpecView, tick: u64) -> (k: int)
    requires
        spec.problem() is None,
    ensures
        spec.day_length > 0,
        holds_at(spec, k, tick as int % spec.day_length as int),
        forall|j: int|
            #[trigger] holds_at(spec, j, tick as int % spec.day_length as int) ==> j == k,
{
    let time = tick as int % spec.day_length as int;
    let k = lemma_last_begun(spec, spec.schedule.len() as int, time);
    assert forall|j: int| #[trigger] holds_at(spec, j, time) implies j == k by {
        if j < k {
            if j + 1 < k {
                assert(spec.schedule[j + 1].0 < spec.schedule[k].0);
            }
        } else if k < j {
            if k + 1 < j {
                assert(spec.schedule[k + 1].0 < spec.schedule[j].0);
            }
        }
    }
    k
}

proof fn lemma_last_begun(spec: NpcSpecView, n: int, time: int) -> (k: int)
    requires
        spec.problem() is None,
        0 < n <= spec.schedule.len(),
        0 <= time,
        n < spec.schedule.len() ==> time < spec.schedule[n].0,
    ensures
        holds_at(spec, k, time),
    decreases n,
{
    if spec.schedule[n - 1].0 <= time {
        n - 1
    } else {
        lemma_last_begun(spec, n - 1, time)
    }
}

/// On a tick an NPC takes up the goal of the entry that holds at that time of its day. One that
/// flees goes on fleeing until an entry begins, and takes that entry's goal up then.
pub proof fn law_goals_follow_the_schedule(npc: NpcView, c: ContextView, k: int)
    requires
        npc.spec.problem() is None,
        holds_at(npc.spec, k, c.tick as int % npc.spec.day_length as int),
    ensures
        ({
            let out = BehaviourView::Npc(npc).reaction(CallView::Tick, c);
            let begins = npc.spec.schedule[k].0 == c.tick as int % npc.spec.day_length as int;
            &&& npc.goal != Some("flee"@) || begins ==> takes_up(
                npc,
                c,
                out,
                npc.spec.schedule[k].1,
            )
            &&& npc.goal == Some("flee"@) && !begins ==> out.context == c && out.behaviour
                == BehaviourView::Npc(npc) && out.crash is None
        }),
{
    let time = c.tick % npc.spec.day_length;
    let schedule = npc.spec.schedule;
    lemma_scheduled(npc.spec, k, time);
    lemma_takes_up(npc, c, schedule[k].1);
    if schedule[k].0 == time {
        assert(crate::npc::starts_at(schedule, time));
    } else if crate::npc::starts_at(schedule, time) {
        let i = choose|i: int| 0 <= i < schedule.len() && (#[trigger] schedule[i]).0 == time;
        if i < k {
            assert(schedule[i].0 < schedule[k].0);
        } else if k + 1 < i {
            assert(schedule[k + 1].0 < schedule[i].0);
        }
        assert(false);
    }
}

/// A spec is sound if and only if the day has some length, the schedule begins at its start and
/// each entry after the one before, the last of them within the day, and there is something to
/// say. Of an unsound one the first of these that fails is reported.
pub proof fn law_sound_specs(spec: NpcSpecView)
    ensures
        ({
            let s = spec.schedule;
            let rises = forall|i: int| 0 < i < s.len() ==> s[i - 1].0 < (#[trigger] s[i]).0;
            &&& spec.problem() is None <==> {
                &&& spec.day_length > 0
                &&& s.len() > 0
                &&& s[0].0 == 0
                &&& rises
                &&& s.last().0 < spec.day_length
                &&& spec.lines.len() > 0
            }
            &&& spec.day_length == 0 ==> spec.problem() == Some(NpcSpecProblem::ZeroDayLength)
            &&& spec.day_length > 0 && s.len() == 0 ==> spec.problem() == Some(
                NpcSpecProblem::EmptySchedule,
            )
            &&& spec.day_length > 0 && s.len() > 0 && s[0].0 > 0 ==> spec.problem() == Some(
                NpcSpecProblem::ScheduleNotFromZero,
            )
            &&& spec.day_length > 0 && s.len() > 0 && s[0].0 == 0 && !rises ==> spec.problem()
                == Some(NpcSpecProblem::ScheduleOutOfOrder)
            &&& spec.day_length > 0 && s.len() > 0 && s[0].0 == 0 && rises && s.last().0
                >= spec.day_length ==> spec.problem() == Some(NpcSpecProblem::ScheduleOutsideDay)
            &&& spec.day_length > 0 && s.len() > 0 && s[0].0 == 0 && rises && s.last().0
                < spec.day_length && spec.lines.len() == 0 ==> spec.problem() == Some(
                NpcSpecProblem::NoLines,
            )
        }),
{
    let s = spec.schedule;
    if forall|i: int| 0 < i < s.len() ==> s[i - 1].0 < (#[trigger] s[i]).0 {
        assert forall|i: int, j: int| 0 <= i < j < s.len() implies (#[trigger] s[i]).0 < (
        #[trigger] s[j]).0 by {
            lemma_rises(s, i, j);
        }
        assert(spec.rising());
        if s.len() > 0 && s.last().0 < spec.day_length {
            assert forall|i: int| 0 <= i < s.len() implies (#[trigger] s[i]).0 < spec.day_length by {
                if i < s.len() - 1 {
                    assert(s[i].0 < s[s.len() - 1].0);
                }
            }
            assert(spec.within_the_day());
        } else if s.len() > 0 {
            assert(s[s.len() - 1].0 >= spec.day_length);
            assert(!spec.within_the_day());
        }
    } else {
        let i = choose|i: int| 0 < i < s.len() && s[i - 1].0 >= (#[trigger] s[i]).0;
        assert(!(s[i - 1].0 < s[i].0));
        assert(!spec.rising());
    }
    if spec.problem() is None {
        assert(s[s.len() - 1].0 < spec.day_length);
    }
}

proof fn lemma_rises(s: Seq<(u64, Seq<char>)>, i: int, j: int)
    requires
        forall|i: int| 0 < i < s.len() ==> s[i - 1].0 < (#[trigger] s[i]).0,
        0 <= i < j < s.len(),
    ensures
        s[i].0 < s[j].0,
    decreases j - i,
{
    if i < j - 1 {
        lemma_rises(s, i, j - 1);
    }
    assert(s[j - 1].0 < s[j].0);
}

} // verus!
