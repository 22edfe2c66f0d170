//! Worlds: delivery, built-in logics and the defences.

use emergence::builtin as events;
use emergence::monitor::Monitor;
use emergence::trace::TraceLog;
use emergence::{
    AcceptRule, Alert, Check, Context, ControllerLogic, DropReason, Event, FuseLimit, Limits,
    LinkId, LogicError, MonitorConfig, NetworkError, NodeId, Packet, Relaying, RouteError,
    SendError, Severity, Subject, TemplateError, TickOutcome, TraceEvent, World,
};

/// What made a test fail.
#[derive(Debug)]
struct Failure(String);

impl From<NetworkError> for Failure {
    fn from(e: NetworkError) -> Self {
        Failure(e.to_string())
    }
}

impl From<RouteError> for Failure {
    fn from(e: RouteError) -> Self {
        Failure(e.to_string())
    }
}

impl From<SendError> for Failure {
    fn from(e: SendError) -> Self {
        Failure(e.to_string())
    }
}

impl From<LogicError> for Failure {
    fn from(e: LogicError) -> Self {
        Failure(e.to_string())
    }
}

impl From<TemplateError> for Failure {
    fn from(e: TemplateError) -> Self {
        Failure(e.to_string())
    }
}

impl From<&str> for Failure {
    fn from(e: &str) -> Self {
        Failure(e.to_owned())
    }
}

type TestResult = Result<(), Failure>;

#[test]
fn new_world_starts_at_tick_zero() {
    assert_eq!(World::new().tick_count(), 0);
}

/// wifi: laptop, pc (gateway) ── pc/ipc: fileman (responder), scanner
struct Office {
    world: World,
    wifi: LinkId,
    ipc: LinkId,
    laptop: NodeId,
    pc: NodeId,
    fileman: NodeId,
    scanner: NodeId,
}

fn office() -> Result<Office, Failure> {
    let mut world = World::new();
    let net = world.network_mut();
    let root = net.root();
    let wifi = net.create_link("wifi")?;
    let ipc = net.create_link("ipc")?;
    let laptop = net.create_node("laptop", "computer")?;
    let pc = net.create_node("pc", "computer")?;
    let fileman = net.create_node("fileman", "app")?;
    let scanner = net.create_node("scanner", "app")?;
    net.connect(root, laptop, Some(wifi))?;
    net.connect(root, pc, Some(wifi))?;
    net.connect(pc, fileman, Some(ipc))?;
    net.connect(pc, scanner, Some(ipc))?;
    world.set_logic_kind(laptop, "responder")?;
    world.set_logic_kind(pc, "gateway")?;
    world.set_logic_kind(fileman, "responder")?;
    Ok(Office {
        world,
        wifi,
        ipc,
        laptop,
        pc,
        fileman,
        scanner,
    })
}

fn delivered(trace: &[TraceEvent]) -> Vec<(NodeId, AcceptRule)> {
    trace
        .iter()
        .filter_map(|e| match e {
            TraceEvent::Delivered { receiver, rule, .. } => Some((*receiver, *rule)),
            _ => None,
        })
        .collect()
}

#[test]
fn sends_wait_for_the_next_tick() -> TestResult {
    let mut o = office()?;
    o.world
        .send(o.laptop, o.wifi, "pc@wifi".parse()?, Event::new("hello"))?;
    assert_eq!(o.world.stats(o.pc).received, 0);
    assert_eq!(o.world.tick(), TickOutcome::Completed);
    assert_eq!(o.world.stats(o.pc).received, 1);
    Ok(())
}

#[test]
fn ping_is_answered_with_pong() -> TestResult {
    let mut o = office()?;
    o.world.send(
        o.laptop,
        o.wifi,
        "pc@wifi".parse()?,
        Event::new(events::PING),
    )?;
    assert_eq!(o.world.tick(), TickOutcome::Completed);
    assert_eq!(o.world.tick(), TickOutcome::Completed);
    let trace = o.world.drain_trace();
    assert_eq!(
        delivered(&trace),
        vec![
            (o.pc, AcceptRule::Addressed),
            (o.laptop, AcceptRule::Addressed)
        ]
    );
    Ok(())
}

#[test]
fn broadcast_reaches_everyone_on_the_link_but_the_sender() -> TestResult {
    let mut o = office()?;
    o.world
        .send(o.fileman, o.ipc, "*@ipc".parse()?, Event::new("hi"))?;
    assert_eq!(o.world.tick(), TickOutcome::Completed);
    let got = delivered(&o.world.drain_trace());
    assert_eq!(
        got,
        vec![
            (o.scanner, AcceptRule::Broadcast),
            (o.pc, AcceptRule::Broadcast)
        ]
    );
    Ok(())
}

#[test]
fn multi_hop_ping_reaches_the_app_and_the_pong_comes_back() -> TestResult {
    let mut o = office()?;
    let to = "pc@wifi/fileman@ipc".parse()?;
    o.world
        .send(o.laptop, o.wifi, to, Event::new(events::PING))?;
    for _ in 0..4 {
        assert_eq!(o.world.tick(), TickOutcome::Completed);
    }
    let got = delivered(&o.world.drain_trace());
    assert_eq!(
        got,
        vec![
            (o.pc, AcceptRule::Addressed),      // pc pops its hop...
            (o.fileman, AcceptRule::Addressed), // ...fileman gets the ping, pongs
            (o.pc, AcceptRule::Gateway),        // pong leaves via the gateway...
            (o.laptop, AcceptRule::Addressed),  // ...and reaches the laptop
        ]
    );
    Ok(())
}

#[test]
fn scanner_pings_through_the_gateway_and_gets_replies_back() -> TestResult {
    let mut o = office()?;
    o.world.set_logic_kind(o.scanner, "scanner")?;
    for _ in 0..60 {
        assert_eq!(o.world.tick(), TickOutcome::Completed);
    }
    // The laptop answered at least one scan, and the pong made it back to the scanner.
    assert!(o.world.stats(o.laptop).received >= 1);
    let trace = o.world.drain_trace();
    let back = trace.iter().any(|e| {
        matches!(e, TraceEvent::Delivered { receiver, rule: AcceptRule::Addressed, .. }
            if *receiver == o.scanner)
    });
    assert!(back, "no pong reached the scanner");
    Ok(())
}

#[test]
fn owner_does_not_intercept_multi_hop_packets_for_its_children() -> TestResult {
    // A reply to a nested app travels to its computer first: the computer's parent (which
    // owns the link) must not grab it as a gateway just because later hops go elsewhere.
    let mut o = office()?;
    let house = o.world.network_mut().create_node("house", "building")?;
    let net = o.world.network_mut();
    let lan = net.create_link("lan")?;
    let root = net.root();
    net.disconnect(root, o.pc)?;
    net.disconnect(root, o.laptop)?;
    net.connect(root, house, None)?;
    net.connect(house, o.pc, Some(lan))?;
    net.connect(house, o.laptop, Some(lan))?;
    o.world.set_logic_kind(house, "gateway")?;
    o.world.send(
        o.laptop,
        lan,
        "pc@lan/fileman@ipc".parse()?,
        Event::new("x"),
    )?;
    assert_eq!(o.world.tick(), TickOutcome::Completed);
    assert_eq!(
        delivered(&o.world.drain_trace()),
        vec![(o.pc, AcceptRule::Addressed)]
    );
    Ok(())
}

#[test]
fn child_can_address_its_parent_structurally() -> TestResult {
    let mut o = office()?;
    o.world
        .send(o.fileman, o.ipc, "^@ipc".parse()?, Event::new("up"))?;
    assert_eq!(o.world.tick(), TickOutcome::Completed);
    assert_eq!(
        delivered(&o.world.drain_trace()),
        vec![(o.pc, AcceptRule::ChildToParent)]
    );
    Ok(())
}

#[test]
fn unheard_packets_are_reported() -> TestResult {
    let mut o = office()?;
    o.world
        .send(o.laptop, o.wifi, "nobody@wifi".parse()?, Event::new("x"))?;
    assert_eq!(o.world.tick(), TickOutcome::Completed);
    let dropped = o.world.drain_trace().into_iter().any(|e| {
        matches!(
            e,
            TraceEvent::Dropped {
                reason: DropReason::NoRecipient,
                ..
            }
        )
    });
    assert!(dropped);
    Ok(())
}

/// Two gateways bouncing a packet between them forever must be stopped by the TTL.
#[derive(Debug)]
struct Bouncer;
impl ControllerLogic for Bouncer {
    fn kind(&self) -> &'static str {
        "bouncer"
    }
    fn on_start(&mut self, _: &mut Context<'_>) -> Result<(), String> {
        Ok(())
    }
    fn on_tick(&mut self, _: &mut Context<'_>) -> Result<(), String> {
        Ok(())
    }
    fn on_received(&mut self, packet: &Packet, ctx: &mut Context<'_>) -> Result<(), String> {
        let _ = ctx.forward(
            packet,
            ctx.arrived_on().unwrap_or_default(),
            packet.to().clone(),
            packet.from().clone(),
        );
        Ok(())
    }
    fn wants(&self, _: &Packet) -> bool {
        false
    }
    fn relaying(&self) -> Relaying {
        Relaying::Never
    }
}

#[test]
fn loops_are_stopped_by_ttl() -> TestResult {
    let mut o = office()?;
    o.world.set_logic(o.laptop, Box::new(Bouncer))?;
    o.world.set_logic(o.pc, Box::new(Bouncer))?;
    o.world
        .send(o.laptop, o.wifi, "pc@wifi".parse()?, Event::new("loop"))?;
    for _ in 0..40 {
        assert_eq!(o.world.tick(), TickOutcome::Completed);
    }
    let trace = o.world.drain_trace();
    let expired = trace.iter().any(|e| {
        matches!(
            e,
            TraceEvent::Dropped {
                reason: DropReason::TtlExpired,
                ..
            }
        )
    });
    assert!(expired);
    let sends = trace
        .iter()
        .filter(|e| matches!(e, TraceEvent::Sent { .. }))
        .count();
    assert!(sends <= usize::from(Packet::DEFAULT_TTL) + 1);
    Ok(())
}

#[test]
fn host_cannot_send_on_a_link_the_node_is_not_on() -> TestResult {
    let mut o = office()?;
    let err = o
        .world
        .send(o.laptop, o.ipc, "pc@ipc".parse()?, Event::new("x"));
    assert_eq!(err, Err(SendError::NotOnLink(o.ipc)));
    Ok(())
}

#[test]
fn logic_kinds_are_validated() -> TestResult {
    let mut o = office()?;
    assert_eq!(
        o.world.set_logic_kind(o.pc, "teleporter"),
        Err(LogicError::UnknownKind("teleporter".into()))
    );
    o.world.set_logic_kind(o.pc, "none")?;
    assert_eq!(o.world.logic_kind(o.pc), None);
    Ok(())
}

// ---- Defences ------------------------------------------------------------------------

/// A world with one shared link and `n` named nodes on it, each with `logic`.
fn on_one_link(
    logics: &[(&str, &str)],
) -> Result<(World, LinkId, Vec<NodeId>), Failure> {
    let mut world = World::new();
    let net = world.network_mut();
    let root = net.root();
    let link = net.create_link("bus")?;
    let mut nodes = Vec::new();
    for (name, _) in logics {
        let n = net.create_node(*name, "device")?;
        net.connect(root, n, Some(link))?;
        nodes.push(n);
    }
    for (&n, (_, logic)) in nodes.iter().zip(logics) {
        world.set_logic_kind(n, logic)?;
    }
    Ok((world, link, nodes))
}

fn alerts(trace: &[TraceEvent]) -> Vec<(Check, Severity)> {
    trace
        .iter()
        .filter_map(|e| match e {
            TraceEvent::Alert(a) => Some((a.check, a.severity)),
            _ => None,
        })
        .collect()
}

/// Runs up to `ticks`, stopping at the first tripped fuse (as a host would). Returns the
/// trace and whether the fuse tripped.
fn run(world: &mut World, ticks: u32) -> (Vec<TraceEvent>, bool) {
    let mut trace = Vec::new();
    let mut tripped = false;
    for _ in 0..ticks {
        let outcome = world.tick();
        trace.extend(world.drain_trace());
        if outcome == TickOutcome::FuseTripped {
            tripped = true;
            break;
        }
    }
    (trace, tripped)
}

/// Two links joined by `bridges` bridges, with a sender on the first link.
fn bridged(bridges: usize) -> Result<(World, NodeId, LinkId), Failure> {
    let mut world = World::new();
    let net = world.network_mut();
    let root = net.root();
    let (a, b) = (net.create_link("a")?, net.create_link("b")?);
    let sender = net.create_node("sender", "device")?;
    net.connect(root, sender, Some(a))?;
    let mut ids = Vec::new();
    for i in 0..bridges {
        let bridge = net.create_node(&format!("bridge-{i}"), "hub")?;
        net.connect(root, bridge, Some(a))?;
        net.subscribe(bridge, b)?;
        ids.push(bridge);
    }
    for id in ids {
        world.set_logic_kind(id, "bridge")?;
    }
    Ok((world, sender, a))
}

#[test]
fn relay_cycle_is_reported_before_any_traffic() -> TestResult {
    let (mut world, _, _) = bridged(2)?;
    let (trace, _) = run(&mut world, 1);
    assert!(alerts(&trace).contains(&(Check::RelayCycle, Severity::Error)));
    assert_eq!(world.health().transmissions, 0);
    Ok(())
}

#[test]
fn two_bridge_loop_is_ended_by_ttl() -> TestResult {
    let (mut world, sender, a) = bridged(2)?;
    world.send(sender, a, "*@a".parse()?, Event::new("hello"))?;
    let (trace, tripped) = run(&mut world, 40);
    assert!(!tripped);
    assert!(alerts(&trace).contains(&(Check::TtlExpired, Severity::Error)));
    assert_eq!(world.health().transmissions, 0, "the loop died out");
    Ok(())
}

#[test]
fn broadcast_storm_trips_the_fuse_within_limits() -> TestResult {
    let (mut world, sender, a) = bridged(4)?;
    world.send(sender, a, "*@a".parse()?, Event::new("hello"))?;
    let (_, tripped) = run(&mut world, 40);
    assert!(tripped, "an exponential storm must trip the fuse");
    let health = world.health();
    assert!(health.peak_transmissions <= world.limits().max_transmissions_per_tick);
    assert!(health.pending <= world.limits().max_pending);
    // Even if the host ignores the fuse and keeps ticking, the queue stays bounded.
    for _ in 0..20 {
        let _ = world.tick();
        assert!(world.health().pending <= world.limits().max_pending);
    }
    let report = world.fuse_report().ok_or("no fuse report")?;
    assert!(!report.top_senders.is_empty());
    assert!(
        report
            .recent_alerts
            .iter()
            .any(|a| a.check == Check::RelayCycle),
        "the report points at the relay loop"
    );
    Ok(())
}

#[test]
fn echo_pair_is_caught_by_replay_not_ttl() -> TestResult {
    let (mut world, bus, nodes) = on_one_link(&[("a", "echo"), ("b", "echo")])?;
    world.send(nodes[0], bus, "b@bus".parse()?, Event::new("ping"))?;
    let (trace, tripped) = run(&mut world, 60);
    let found = alerts(&trace);
    assert!(!tripped);
    assert!(found.iter().any(|&(c, _)| c == Check::Replay));
    assert!(!found.iter().any(|&(c, _)| c == Check::TtlExpired));
    Ok(())
}

#[test]
fn amplifier_is_reported() -> TestResult {
    let (mut world, bus, nodes) = on_one_link(&[
        ("amp", "amplifier"),
        ("r1", "responder"),
        ("r2", "responder"),
    ])?;
    world.send(nodes[1], bus, "amp@bus".parse()?, Event::new("ping"))?;
    let (trace, _) = run(&mut world, 5);
    assert!(alerts(&trace).contains(&(Check::Amplification, Severity::Error)));
    Ok(())
}

#[test]
fn panicking_logic_is_removed_and_the_world_keeps_going() -> TestResult {
    let (mut world, bus, nodes) = on_one_link(&[("boom", "crasher"), ("ok", "responder")])?;
    world.send(nodes[1], bus, "boom@bus".parse()?, Event::new("ping"))?;
    world.send(nodes[0], bus, "ok@bus".parse()?, Event::new("ping"))?;
    let (trace, _) = run(&mut world, 3);
    let panics = alerts(&trace)
        .iter()
        .filter(|a| **a == (Check::LogicPanicked, Severity::Error))
        .count();
    assert_eq!(panics, 1);
    assert_eq!(world.logic_kind(nodes[0]), None);
    // It still sits on the link: it received the ping it crashed on, then the pong.
    assert_eq!(world.stats(nodes[0]).received, 2);
    assert_eq!(world.stats(nodes[1]).received, 1);
    Ok(())
}

#[test]
fn a_full_queue_refuses_sends_and_trips_the_fuse() -> TestResult {
    let (mut world, bus, nodes) = on_one_link(&[("a", "none"), ("b", "none")])?;
    world.set_limits(Limits {
        max_pending: 10,
        ..Limits::default()
    });
    for _ in 0..10 {
        world.send(nodes[0], bus, "b@bus".parse()?, Event::new("x"))?;
    }
    assert_eq!(
        world.send(nodes[0], bus, "b@bus".parse()?, Event::new("x")),
        Err(SendError::QueueFull)
    );
    assert_eq!(world.tick(), TickOutcome::FuseTripped);
    assert_eq!(world.fuse_report().map(|r| r.limit), Some(FuseLimit::Queue));
    Ok(())
}

#[test]
fn oversized_payloads_are_refused() -> TestResult {
    let (mut world, bus, nodes) = on_one_link(&[("a", "none"), ("b", "none")])?;
    let big = vec![0_u8; world.limits().max_payload_bytes + 1];
    assert_eq!(
        world.send(nodes[0], bus, "b@bus".parse()?, Event::with_data("x", big)),
        Err(SendError::PayloadTooLarge)
    );
    Ok(())
}

#[test]
fn packets_from_a_node_that_left_the_link_are_dropped() -> TestResult {
    let (mut world, bus, nodes) = on_one_link(&[("a", "none"), ("b", "none")])?;
    world.send(nodes[0], bus, "b@bus".parse()?, Event::new("x"))?;
    let root = world.network().root();
    world.network_mut().disconnect(root, nodes[0])?;
    assert_eq!(world.tick(), TickOutcome::Completed);
    assert_eq!(world.stats(nodes[1]).received, 0);
    assert_eq!(world.health().sender_left_drops, 1);
    Ok(())
}

#[test]
fn normal_traffic_raises_no_alerts() -> TestResult {
    let mut o = office()?;
    o.world.set_logic_kind(o.scanner, "scanner")?;
    let (trace, tripped) = run(&mut o.world, 300);
    assert!(!tripped);
    assert_eq!(alerts(&trace), Vec::new());
    Ok(())
}

#[test]
fn gateways_alone_never_count_as_a_relay_loop() -> TestResult {
    // Two buildings on the same two world links: a cycle of gateways, but gateways follow
    // routes, so it cannot loop. One building also plugs into its own LAN.
    let mut world = World::new();
    let net = world.network_mut();
    let root = net.root();
    let (fibre, street) = (net.create_link("fibre")?, net.create_link("street")?);
    let mut buildings = Vec::new();
    for i in 0..2 {
        let b = net.create_node(&format!("building-{i}"), "building")?;
        net.connect(root, b, Some(fibre))?;
        net.subscribe(b, street)?;
        let lan = net.create_link("lan")?;
        net.add_internal_link(b, lan)?;
        buildings.push((b, lan));
    }
    net.subscribe(buildings[0].0, buildings[0].1)?;
    for (b, _) in buildings {
        world.set_logic_kind(b, "gateway")?;
    }
    let (trace, _) = run(&mut world, 1);
    assert_eq!(alerts(&trace), Vec::new());
    Ok(())
}

#[test]
fn a_bridge_completing_a_loop_through_a_gateway_is_caught() -> TestResult {
    let mut world = World::new();
    let net = world.network_mut();
    let root = net.root();
    let wifi = net.create_link("wifi")?;
    let pc = net.create_node("pc", "computer")?;
    net.connect(root, pc, Some(wifi))?;
    let ipc = net.create_link("ipc")?;
    let patch = net.create_node("patch", "hub")?;
    net.connect(pc, patch, Some(ipc))?;
    net.subscribe(patch, wifi)?;
    world.set_logic_kind(pc, "gateway")?;
    world.set_logic_kind(patch, "bridge")?;
    let (trace, _) = run(&mut world, 1);
    assert!(alerts(&trace).contains(&(Check::RelayCycle, Severity::Error)));
    Ok(())
}

#[test]
fn untraced_ticks_record_alerts_and_notes_only() -> TestResult {
    let mut o = office()?;
    o.world.set_logic_kind(o.scanner, "scanner")?;
    o.world.drain_trace();
    o.world.set_trace_packets(false);
    for _ in 0..200 {
        o.world.tick();
    }
    let events = o.world.drain_trace();
    assert!(events
        .iter()
        .all(|e| matches!(e, TraceEvent::Note { .. } | TraceEvent::Alert(_))));
    assert!(o.world.stats(o.laptop).received > 0, "traffic went on");
    o.world.set_trace_packets(true);
    for _ in 0..200 {
        o.world.tick();
    }
    assert!(o
        .world
        .drain_trace()
        .iter()
        .any(|e| matches!(e, TraceEvent::Sent { .. })));
    Ok(())
}

#[test]
fn sends_from_on_tick_wait_for_the_next_tick() -> TestResult {
    let (mut world, bus, nodes) = on_one_link(&[("loud", "flooder"), ("quiet", "none")])?;
    world.send(nodes[1], bus, "loud@bus".parse()?, Event::new("hello"))?;
    assert_eq!(world.tick(), TickOutcome::Completed);
    // Just what was sent before the tick began.
    assert_eq!(world.stats(nodes[0]).received, 1);
    assert_eq!(world.stats(nodes[1]).received, 0);
    assert_eq!(world.health().transmissions, 1);
    assert_eq!(world.health().pending, 1_000);
    world.tick();
    assert_eq!(world.stats(nodes[1]).received, 1_000);
    assert_eq!(world.health().pending, 1_000);
    Ok(())
}

#[test]
fn what_waits_counts_while_logics_tick() -> TestResult {
    let (mut world, bus, nodes) = on_one_link(&[("loud", "flooder"), ("quiet", "none")])?;
    world.set_limits(Limits {
        max_pending: 10,
        ..Limits::default()
    });
    for _ in 0..7 {
        world.send(nodes[1], bus, "loud@bus".parse()?, Event::new("x"))?;
    }
    assert_eq!(world.tick(), TickOutcome::FuseTripped);
    assert_eq!(world.fuse_report().map(|r| r.limit), Some(FuseLimit::Queue));
    assert_eq!(world.health().pending, 3);
    assert_eq!(world.health().refused_sends, 997);
    assert_eq!(world.stats(nodes[0]).received, 7);
    Ok(())
}

#[test]
fn even_the_first_packet_keeps_to_the_delivery_limit() -> TestResult {
    let (mut world, bus, nodes) =
        on_one_link(&[("a", "none"), ("b", "none"), ("c", "none"), ("d", "none")])?;
    world.set_limits(Limits {
        max_deliveries_per_tick: 2,
        ..Limits::default()
    });
    world.send(nodes[0], bus, "*@bus".parse()?, Event::new("x"))?;
    assert_eq!(world.tick(), TickOutcome::FuseTripped);
    assert_eq!(
        world.fuse_report().map(|r| (r.limit, r.max, r.held_back)),
        Some((FuseLimit::Deliveries, 2, 1))
    );
    assert_eq!(world.health().deliveries, 0);
    assert_eq!(world.health().transmissions, 0);
    // It goes out as soon as it fits, to the copy.
    world.set_limits(Limits {
        max_deliveries_per_tick: 3,
        ..Limits::default()
    });
    assert_eq!(world.tick(), TickOutcome::Completed);
    assert_eq!(world.health().deliveries, 3);
    // One copy on a link of four fits a limit of one; a second packet has to wait.
    world.set_limits(Limits {
        max_deliveries_per_tick: 1,
        ..Limits::default()
    });
    world.send(nodes[0], bus, "b@bus".parse()?, Event::new("x"))?;
    world.send(nodes[0], bus, "c@bus".parse()?, Event::new("x"))?;
    assert_eq!(world.tick(), TickOutcome::FuseTripped);
    assert_eq!(world.health().deliveries, 1);
    assert_eq!(world.tick(), TickOutcome::Completed);
    assert_eq!(world.health().deliveries, 1);
    assert_eq!(world.stats(nodes[2]).received, 2);
    Ok(())
}

#[test]
fn a_milder_later_alert_is_the_latest_one() {
    let mut monitor = Monitor::new(MonitorConfig::default());
    let mut trace = TraceLog::new();
    let alert = |tick, severity, link| Alert {
        tick,
        check: Check::LinkRate,
        severity,
        subject: Subject::Link(LinkId::from_raw(link)),
        value: 9,
        limit: 5,
        message: "busy".to_owned(),
    };
    monitor.raise(&mut trace, alert(10, Severity::Error, 0x1_0000_0001));
    monitor.raise(&mut trace, alert(50, Severity::Warning, 0x1_0000_0002));
    assert_eq!(
        monitor.recent_alerts(20),
        vec![alert(50, Severity::Warning, 0x1_0000_0002)]
    );
    // The same one again is not recorded.
    monitor.raise(&mut trace, alert(51, Severity::Warning, 0x1_0000_0002));
    assert_eq!(
        monitor.recent_alerts(0),
        vec![alert(50, Severity::Warning, 0x1_0000_0002)]
    );
    assert_eq!(monitor.alerts_raised(), 2);
}

#[test]
fn links_rebuilt_from_different_integers_are_different() {
    let mut monitor = Monitor::new(MonitorConfig::default());
    let mut trace = TraceLog::new();
    let alert = |tick, severity, link, value, message: &str| Alert {
        tick,
        check: Check::LinkRate,
        severity,
        subject: Subject::Link(LinkId::from_raw(link)),
        value,
        limit: value,
        message: message.to_owned(),
    };
    monitor.raise(&mut trace, alert(10, Severity::Error, 1, 9, "a"));
    monitor.raise(&mut trace, alert(50, Severity::Warning, 2, 5, "b"));
    assert_eq!(
        monitor.recent_alerts(20),
        vec![alert(50, Severity::Warning, 2, 5, "b")]
    );
}

#[test]
fn handles_that_are_no_keys_have_no_logic_and_no_counters() -> TestResult {
    let (mut world, bus, nodes) = on_one_link(&[("a", "responder"), ("b", "none")])?;
    world.send(nodes[1], bus, "a@bus".parse()?, Event::new("x"))?;
    world.tick();
    // The same slot at the version before.
    let near = NodeId::from_raw(nodes[0].to_raw() & !0x1_0000_0000);
    assert_ne!(near, nodes[0]);
    assert!(world.network().node(near).is_none());
    assert_eq!(world.logic_kind(near), None);
    assert_eq!(world.stats(near).received, 0);
    assert_eq!(world.logic_kind(nodes[0]), Some("responder"));
    assert_eq!(world.stats(nodes[0]).received, 1);
    assert_eq!(
        world.set_logic_kind(near, "none"),
        Err(LogicError::UnknownNode(near))
    );
    assert_eq!(
        world.remove_node(near),
        Err(NetworkError::UnknownNode(near))
    );
    let lost = LinkId::from_raw(bus.to_raw() & !0x1_0000_0000);
    assert!(world.network().link(lost).is_none());
    assert_eq!(
        world.send(nodes[1], lost, "a@bus".parse()?, Event::new("x")),
        Err(SendError::UnknownLink(lost))
    );
    Ok(())
}

#[test]
fn packet_ids_grow_and_copies_share_them() -> TestResult {
    let (mut world, bus, nodes) = on_one_link(&[("a", "none"), ("b", "none"), ("c", "none")])?;
    for _ in 0..2 {
        world.send(nodes[0], bus, "*@bus".parse()?, Event::new("x"))?;
        world.send(nodes[1], bus, "c@bus".parse()?, Event::new("y"))?;
        world.tick();
    }
    let trace = world.drain_trace();
    let mut sent = Vec::new();
    let mut copies = Vec::new();
    for e in &trace {
        match e {
            TraceEvent::Sent { packet, .. } => sent.push(packet.id().to_raw()),
            TraceEvent::Delivered { packet, .. } => copies.push(packet.to_raw()),
            _ => {}
        }
    }
    assert_eq!(sent, vec![1, 2, 3, 4]);
    assert_eq!(copies, vec![1, 1, 2, 3, 3, 4]);
    Ok(())
}

/// Counts its ticks, and wants everything it hears.
struct Eavesdropper {
    ticks: usize,
}

impl ControllerLogic for Eavesdropper {
    fn kind(&self) -> &'static str {
        "eavesdropper"
    }
    fn on_start(&mut self, ctx: &mut Context<'_>) -> Result<(), String> {
        ctx.note("listening");
        Ok(())
    }
    fn on_tick(&mut self, _: &mut Context<'_>) -> Result<(), String> {
        self.ticks += 1;
        if self.ticks == 3 {
            return Err("fell asleep".to_owned());
        }
        Ok(())
    }
    fn on_received(&mut self, _: &Packet, ctx: &mut Context<'_>) -> Result<(), String> {
        ctx.note(&format!("heard one on tick {}", self.ticks));
        Ok(())
    }
    fn wants(&self, _: &Packet) -> bool {
        true
    }
    fn relaying(&self) -> Relaying {
        Relaying::Never
    }
}

#[test]
fn a_logic_from_outside_does_what_it_says() -> TestResult {
    let (mut world, bus, nodes) = on_one_link(&[("a", "none"), ("b", "none"), ("spy", "none")])?;
    world.set_logic(nodes[2], Box::new(Eavesdropper { ticks: 0 }))?;
    assert_eq!(world.logic_kind(nodes[2]), Some("eavesdropper"));
    world.send(nodes[0], bus, "b@bus".parse()?, Event::new("secret"))?;
    let (trace, _) = run(&mut world, 4);
    let notes: Vec<&str> = trace
        .iter()
        .filter_map(|e| match e {
            TraceEvent::Note { text, .. } => Some(text.as_str()),
            _ => None,
        })
        .collect();
    assert_eq!(notes, vec!["listening", "heard one on tick 1"]);
    assert!(delivered(&trace).contains(&(nodes[2], AcceptRule::Forced)));
    assert_eq!(world.logic_kind(nodes[2]), None);
    assert!(trace.iter().any(|e| matches!(
        e,
        TraceEvent::Alert(a) if a.tick == 3
            && a.message == "`eavesdropper` logic panicked and was removed: fell asleep"
    )));
    Ok(())
}

#[test]
fn a_new_world_is_just_its_root() -> TestResult {
    let world = World::new();
    let net = world.network();
    let root = net.node(net.root()).ok_or("no root")?;
    assert_eq!((root.name(), root.kind()), (".", "root"));
    assert_eq!((root.parent(), root.children().len()), (None, 0));
    assert_eq!(net.node_ids(), vec![net.root()]);
    assert!(net.link_ids().is_empty());
    Ok(())
}

#[test]
fn a_bridge_is_a_loop_only_with_another_way_round() -> TestResult {
    // One bridge between two links is none.
    let (mut world, _, _) = bridged(1)?;
    assert_eq!(alerts(&run(&mut world, 1).0), vec![]);
    // A second one closes it.
    let (mut world, _, _) = bridged(2)?;
    assert_eq!(
        alerts(&run(&mut world, 1).0),
        vec![(Check::RelayCycle, Severity::Error)]
    );
    Ok(())
}
