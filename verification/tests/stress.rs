//! Networks built to fail the way player-built networks might (loops, storms, replays, floods,
//! bad names, edits mid-flight), and what is expected of each.

use emergence::builder::{build, BuildError};
use emergence::probe::{Probe, TestReport};
use emergence::report::{FuseSummary, HealthReport, Trace};
use emergence::run::Run;
use emergence::scenarios::{self, Blueprint};
use emergence::snapshot::{RawSnapshot, Snapshot, SnapshotError};
use emergence::{
    Event, LinkId, LogicError, NetworkError, NodeId, PacketRoute, RouteError, SendError, Severity,
    TickOutcome, World,
};

/// What stopped a test.
#[derive(Debug)]
struct Failure(String);

impl From<NetworkError> for Failure {
    fn from(e: NetworkError) -> Self {
        Failure(e.to_string())
    }
}

impl From<RouteError> for Failure {
    fn from(e: RouteError) -> Self {
        Failure(e.to_string())
    }
}

impl From<SendError> for Failure {
    fn from(e: SendError) -> Self {
        Failure(e.to_string())
    }
}

impl From<LogicError> for Failure {
    fn from(e: LogicError) -> Self {
        Failure(e.to_string())
    }
}

impl From<SnapshotError> for Failure {
    fn from(e: SnapshotError) -> Self {
        Failure(e.to_string())
    }
}

impl From<BuildError> for Failure {
    fn from(e: BuildError) -> Self {
        Failure(format!("{e:?}"))
    }
}

type Outcome = Result<(), Failure>;

/// A world under test.
struct Bench {
    world: World,
    probe: Probe,
    ticks: u64,
}

impl Bench {
    fn new() -> Self {
        let mut world = World::new();
        world.set_trace_packets(false);
        let probe = Probe::new(HealthReport::of(&world));
        Bench {
            world,
            probe,
            ticks: 0,
        }
    }

    fn root(&self) -> NodeId {
        self.world.network().root()
    }

    fn world_link(&mut self, name: &str) -> Result<LinkId, Failure> {
        let root = self.root();
        self.internal_link(root, name)
    }

    fn internal_link(&mut self, owner: NodeId, name: &str) -> Result<LinkId, Failure> {
        let link = self.world.network_mut().create_link(name)?;
        self.world.network_mut().add_internal_link(owner, link)?;
        Ok(link)
    }

    fn device(
        &mut self,
        parent: NodeId,
        name: &str,
        kind: &str,
        links: &[LinkId],
        logic: &str,
    ) -> Result<NodeId, Failure> {
        let net = self.world.network_mut();
        let node = net.create_node(name, kind)?;
        net.connect(parent, node, links.first().copied())?;
        for &link in links.iter().skip(1) {
            net.subscribe(node, link)?;
        }
        self.world.set_logic_kind(node, logic)?;
        Ok(node)
    }

    fn computer(
        &mut self,
        parent: NodeId,
        name: &str,
        links: &[LinkId],
        apps: &[&str],
    ) -> Result<(NodeId, LinkId), Failure> {
        let pc = self.device(parent, name, "computer", links, "gateway")?;
        let ipc = self.internal_link(pc, "ipc")?;
        for (service, kind) in scenarios::COMPUTER_SERVICES {
            self.device(pc, service, kind, &[ipc], "responder")?;
        }
        for &app in apps {
            let logic = if app == "net-scan" {
                "scanner"
            } else {
                "responder"
            };
            self.device(pc, app, "app", &[ipc], logic)?;
        }
        Ok((pc, ipc))
    }

    fn crowd(&mut self, link: LinkId, prefix: &str, n: usize, logic: &str) -> Outcome {
        let root = self.root();
        for i in 0..n {
            self.device(root, &format!("{prefix}-{i}"), "device", &[link], logic)?;
        }
        Ok(())
    }

    /// Two links joined by `n` bridges, with a sender on the first, which broadcasts once.
    fn bridged(&mut self, n: usize) -> Outcome {
        let root = self.root();
        let a = self.world_link("a")?;
        let other = self.world_link("b")?;
        let sender = self.device(root, "sender", "device", &[a], "none")?;
        for i in 0..n {
            self.device(root, &format!("bridge-{i}"), "hub", &[a, other], "bridge")?;
        }
        self.post(sender, "a", "*@a", "hello", b"")
    }

    fn snapshot(&self) -> Result<Snapshot, Failure> {
        Ok(Snapshot::load(RawSnapshot::of(&self.world))?)
    }

    fn node(&self, name: &str) -> Result<NodeId, Failure> {
        self.snapshot()?
            .find_node(name)
            .map(NodeId::from_raw)
            .ok_or_else(|| Failure(format!("no node named {name}")))
    }

    fn link(&self, name: &str) -> Result<LinkId, Failure> {
        self.snapshot()?
            .find_link(name)
            .map(LinkId::from_raw)
            .ok_or_else(|| Failure(format!("no link named {name}")))
    }

    fn received(&self, name: &str) -> Result<u64, Failure> {
        let snap = self.snapshot()?;
        let id = snap
            .find_node(name)
            .ok_or_else(|| Failure(format!("no node named {name}")))?;
        Ok(snap.node(id).map_or(0, |n| n.received))
    }

    /// Sends from a node over one of the links it can use, by name.
    fn post(&mut self, from: NodeId, via: &str, to: &str, kind: &str, data: &[u8]) -> Outcome {
        let via = self.usable(from, via)?;
        let to = PacketRoute::parse(to)?;
        self.world
            .send(from, via, to, Event::with_data(kind, data.to_vec()))?;
        Ok(())
    }

    fn usable(&self, from: NodeId, via: &str) -> Result<LinkId, Failure> {
        let net = self.world.network();
        let node = net
            .node(from)
            .ok_or_else(|| Failure("unknown node".to_owned()))?;
        node.subscriptions()
            .iter()
            .chain(node.internal_links())
            .copied()
            .find(|&l| net.link(l).map(|l| l.name()) == Some(via))
            .ok_or_else(|| Failure(format!("no link named {via}")))
    }

    fn send(&mut self, from: &str, via: &str, to: &str, kind: &str) -> Outcome {
        let node = self.node(from)?;
        self.post(node, via, to, kind, b"")
    }

    fn run(&mut self, ticks: u64) {
        self.run_inner(ticks, true, true);
    }

    fn run_inner(&mut self, ticks: u64, stop_at_fuse: bool, drain: bool) {
        let mut run = Run::new(ticks, stop_at_fuse);
        while run.is_due() {
            let outcome = self.world.tick();
            self.ticks += 1;
            self.probe.ticked();
            if drain {
                let discarded = self.world.trace_discarded();
                let trace = Trace::of(&self.world.drain_trace(), discarded);
                self.probe.observe(&trace.events);
            }
            if outcome == TickOutcome::FuseTripped {
                let report = self.world.fuse_report().map(FuseSummary::of);
                self.probe.tripped(report);
            }
            run.ticked(outcome);
        }
        self.probe.set_health(HealthReport::of(&self.world));
    }

    fn check(&mut self, label: &str, passed: bool, detail: String) {
        self.probe.check(label.to_owned(), passed, detail);
    }

    fn healthy_run(&mut self, ticks: u64) {
        self.run(ticks);
        self.probe.expect_no_fuse();
        self.probe.expect_no_alerts();
        let drops = self.probe.health().ttl_drops;
        self.check(
            "no packets run out of hops",
            drops == 0,
            format!("{drops} TTL drops"),
        );
    }

    fn finish(self, outcome: Outcome) -> TestReport {
        let health = HealthReport::of(&self.world);
        let outcome = outcome.map_err(|e| e.0);
        self.probe
            .finish(outcome, None, Some(health), "0ms".to_owned(), 0)
    }
}

/// Runs a test and asserts that every expectation was met.
fn passes(test: impl FnOnce(&mut Bench) -> Outcome) {
    let mut bench = Bench::new();
    let outcome = test(&mut bench);
    let report = bench.finish(outcome);
    let failed: Vec<String> = report
        .lines
        .iter()
        .filter(|l| !l.passed)
        .map(|l| format!("{}: {}", l.label, l.detail))
        .chain(report.error)
        .collect();
    assert!(failed.is_empty(), "{}", failed.join("; "));
    assert!(report.passed, "nothing was checked");
}

fn status_of(result: Result<(), NetworkError>) -> Result<(), (Option<u32>, String)> {
    result.map_err(|e| {
        let code = match e {
            NetworkError::AlreadyHasParent(_) => Some(6),
            NetworkError::WouldCreateCycle => Some(7),
            NetworkError::IsRoot => Some(8),
            NetworkError::InvalidName => Some(14),
            NetworkError::NameConflict { .. } => Some(15),
            _ => None,
        };
        (code, e.to_string())
    })
}

// ---- Healthy traffic ------------------------------------------------------------------------

#[test]
fn office_runs_clean() {
    passes(|b| {
        build(&mut b.world, &scenarios::office())?;
        b.healthy_run(300);
        Ok(())
    });
}

#[test]
fn city_block_runs_clean() {
    passes(|b| {
        build(&mut b.world, &scenarios::city_block())?;
        b.healthy_run(200);
        Ok(())
    });
}

#[test]
fn mesh_runs_clean() {
    passes(|b| {
        build(&mut b.world, &scenarios::mesh())?;
        b.healthy_run(300);
        Ok(())
    });
}

#[test]
fn big_legitimate_broadcast() {
    passes(|b| {
        let root = b.root();
        let hall = b.world_link("hall")?;
        b.device(root, "host", "device", &[hall], "none")?;
        b.crowd(hall, "guest", 400, "responder")?;
        for _ in 0..5 {
            b.send("host", "hall", "*@hall", "ping")?;
            b.run(20);
        }
        b.probe.expect_no_fuse();
        b.probe.expect_no_alerts();
        let got = b.received("host")?;
        b.check(
            "every guest answered every ping",
            got == 2_000,
            format!("{got} of 2000 pongs"),
        );
        Ok(())
    });
}

// ---- Loops ----------------------------------------------------------------------------------

#[test]
fn relay_loop_two_bridges() {
    passes(|b| {
        b.bridged(2)?;
        b.run(1);
        b.probe.expect_alert_by("relay_cycle", 1);
        b.run(40);
        b.probe.expect_alert("ttl_expired", Severity::Error);
        b.probe.expect_no_fuse();
        b.probe.expect_quiet();
        Ok(())
    });
}

#[test]
fn broadcast_storm_four_bridges() {
    passes(|b| {
        b.bridged(4)?;
        b.run(40);
        b.probe.expect_alert("relay_cycle", Severity::Error);
        b.probe.expect_fuse("transmissions");
        b.probe.expect_report_names("relay_cycle");
        b.probe.expect_bounded();
        Ok(())
    });
}

#[test]
fn loop_across_levels() {
    passes(|b| {
        let root = b.root();
        let wifi = b.world_link("wifi")?;
        let laptop = b.device(root, "laptop", "computer", &[wifi], "responder")?;
        let pc = b.device(root, "pc", "computer", &[wifi], "gateway")?;
        let ipc = b.internal_link(pc, "ipc")?;
        b.device(pc, "patch", "hub", &[ipc, wifi], "bridge")?;
        b.post(laptop, "wifi", "*@wifi", "hello", b"")?;
        b.run(60);
        b.probe.expect_alert("relay_cycle", Severity::Error);
        b.probe.expect_no_fuse();
        b.probe.expect_quiet();
        Ok(())
    });
}

#[test]
fn echo_ping_pong() {
    passes(|b| {
        let root = b.root();
        let bus = b.world_link("bus")?;
        let a = b.device(root, "a", "device", &[bus], "echo")?;
        b.device(root, "b", "device", &[bus], "echo")?;
        b.post(a, "bus", "b@bus", "ping", b"")?;
        b.run(80);
        b.probe.expect_alert("replay", Severity::Warning);
        b.probe.expect_no_alert("ttl_expired");
        let t = b.probe.health().transmissions;
        b.check(
            "still running (the TTL cannot stop it)",
            t > 0,
            format!("{t} packets on the last tick"),
        );
        Ok(())
    });
}

// ---- Replay and amplification ---------------------------------------------------------------

#[test]
fn stuck_retry() {
    passes(|b| {
        let root = b.root();
        let bus = b.world_link("bus")?;
        b.device(root, "retry", "device", &[bus], "replayer")?;
        let server = b.device(root, "server", "device", &[bus], "responder")?;
        b.post(server, "bus", "retry@bus", "ping", b"")?;
        b.run(40);
        b.probe.expect_alert("replay", Severity::Error);
        b.probe.expect_no_fuse();
        Ok(())
    });
}

#[test]
fn amplifier_is_stopped_by_the_fuse() {
    passes(|b| {
        let root = b.root();
        let bus = b.world_link("bus")?;
        b.device(root, "amp", "device", &[bus], "amplifier")?;
        b.crowd(bus, "r", 3, "responder")?;
        let first = b.node("r-0")?;
        b.post(first, "bus", "amp@bus", "ping", b"")?;
        b.run(20);
        b.probe.expect_alert("amplification", Severity::Error);
        b.probe.expect_fuse("transmissions");
        b.probe.expect_bounded();
        Ok(())
    });
}

#[test]
fn two_amplifiers_facing_each_other() {
    passes(|b| {
        let root = b.root();
        let bus = b.world_link("bus")?;
        let a = b.device(root, "amp-1", "device", &[bus], "amplifier")?;
        b.device(root, "amp-2", "device", &[bus], "amplifier")?;
        b.post(a, "bus", "amp-2@bus", "x", b"")?;
        b.run(10);
        b.probe.expect_alert("amplification", Severity::Error);
        b.probe.expect_fuse_any();
        let t = b.ticks;
        b.check("caught within 5 ticks", t <= 5, format!("stopped on tick {t}"));
        b.probe.expect_bounded();
        Ok(())
    });
}

// ---- Floods and limits ----------------------------------------------------------------------

#[test]
fn noisy_node() {
    passes(|b| {
        let root = b.root();
        let bus = b.world_link("bus")?;
        b.device(root, "noisy", "device", &[bus], "flooder")?;
        b.crowd(bus, "listener", 3, "none")?;
        b.run(10);
        b.probe.expect_alert("node_rate", Severity::Error);
        b.probe.expect_alert("link_rate", Severity::Warning);
        b.probe.expect_no_fuse();
        Ok(())
    });
}

#[test]
fn firehose() {
    passes(|b| {
        let bus = b.world_link("bus")?;
        b.crowd(bus, "flooder", 6, "flooder")?;
        b.run(5);
        b.probe.expect_fuse("transmissions");
        b.probe.expect_alert("network_rate", Severity::Error);
        b.run_inner(20, false, true);
        b.probe.expect_bounded();
        Ok(())
    });
}

#[test]
fn fan_out_bomb() {
    passes(|b| {
        let root = b.root();
        let stadium = b.world_link("stadium")?;
        let announcer = b.device(root, "announcer", "device", &[stadium], "none")?;
        b.crowd(stadium, "fan", 1_200, "none")?;
        for _ in 0..60 {
            b.post(announcer, "stadium", "*@stadium", "cheer", b"")?;
        }
        b.run(5);
        b.probe.expect_fuse("deliveries");
        b.probe.expect_bounded();
        Ok(())
    });
}

#[test]
fn host_floods_the_queue() {
    passes(|b| {
        let bus = b.world_link("bus")?;
        b.crowd(bus, "n", 2, "none")?;
        let from = b.node("n-0")?;
        let to = PacketRoute::parse("n-1@bus")?;
        let (mut ok, mut full) = (0, 0);
        for _ in 0..25_000 {
            match b.world.send(from, bus, to.clone(), Event::new("x")) {
                Ok(()) => ok += 1,
                Err(SendError::QueueFull) => full += 1,
                Err(e) => return Err(e.into()),
            }
        }
        b.check(
            "20,000 accepted, 5,000 refused",
            ok == 20_000 && full == 5_000,
            format!("{ok} accepted, {full} refused"),
        );
        b.run(1);
        b.probe.expect_fuse_any();
        let refused = b.probe.health().refused_sends;
        b.check(
            "refusals are counted",
            refused == 5_000,
            format!("{refused} refused"),
        );
        b.probe.expect_bounded();
        Ok(())
    });
}

#[test]
fn huge_payloads() {
    passes(|b| {
        let root = b.root();
        let bus = b.world_link("bus")?;
        let from = b.device(root, "sender", "device", &[bus], "none")?;
        b.crowd(bus, "l", 1_000, "none")?;
        let limit = b.world.limits().max_payload_bytes;
        let to = PacketRoute::parse("*@bus")?;
        let refused = b.world.send(
            from,
            bus,
            to.clone(),
            Event::with_data("big", vec![7; limit + 1]),
        );
        let status = match refused {
            Ok(()) => Ok(()),
            Err(SendError::PayloadTooLarge { .. }) => Err((Some(17), "too large".to_owned())),
            Err(e) => Err((None, e.to_string())),
        };
        b.probe.expect_status("oversized payload refused", status, 17);
        b.world
            .send(from, bus, to, Event::with_data("big", vec![7; limit]))?;
        b.run(1);
        b.probe.expect_no_fuse();
        let got = b.received("l-999")?;
        b.check("delivered", got == 1, format!("{got} received"));
        Ok(())
    });
}

#[test]
fn trace_never_drained() {
    passes(|b| {
        let root = b.root();
        let bus = b.world_link("bus")?;
        b.device(root, "chatty", "device", &[bus], "flooder")?;
        b.crowd(bus, "l", 2, "none")?;
        b.world.set_trace_packets(true);
        b.run_inner(150, false, false);
        let (len, lost) = (b.probe.health().trace_len, b.probe.health().trace_discarded);
        b.check(
            "trace buffer stays capped",
            len <= 100_000,
            format!("{len} events buffered"),
        );
        b.check(
            "overflow is counted",
            lost > 0,
            format!("{lost} events discarded"),
        );
        Ok(())
    });
}

// ---- Player edits ---------------------------------------------------------------------------

#[test]
fn invalid_names() {
    passes(|b| {
        for bad in ["", "*", "^", "?", ".", "a@b", "a/b", " padded", "tab\there"] {
            let node = b.world.network_mut().create_node(bad, "x").map(|_| ());
            b.probe
                .expect_status(&format!("node name {bad:?} refused"), status_of(node), 14);
            let link = b.world.network_mut().create_link(bad).map(|_| ());
            b.probe
                .expect_status(&format!("link name {bad:?} refused"), status_of(link), 14);
        }
        Ok(())
    });
}

#[test]
fn name_clashes() {
    passes(|b| {
        let root = b.root();
        let wifi = b.world_link("wifi")?;
        let (pc1, _) = b.computer(root, "pc-1", &[wifi], &[])?;
        b.computer(root, "pc-2", &[wifi], &[])?;
        let registries = b.snapshot()?.nodes_named("registry");
        b.check(
            "each computer has its own registry",
            registries == 2,
            format!("{registries} registries"),
        );
        let dup = b.world.network_mut().create_node("pc-1", "computer")?;
        let result = b.world.network_mut().connect(root, dup, Some(wifi));
        b.probe.expect_status(
            "second pc-1 on the same Wi-Fi refused",
            status_of(result),
            15,
        );
        let bus = b.world.network_mut().create_link("ipc")?;
        let result = b.world.network_mut().add_internal_link(pc1, bus);
        b.probe
            .expect_status("second ipc in one computer refused", status_of(result), 15);
        Ok(())
    });
}

#[test]
fn nesting_mistakes() {
    passes(|b| {
        let root = b.root();
        let outer = b.world.network_mut().create_node("box", "x")?;
        let inner = b.world.network_mut().create_node("crate", "x")?;
        let bag = b.world.network_mut().create_node("bag", "x")?;
        b.world.network_mut().connect(outer, inner, None)?;
        let r = b.world.network_mut().connect(inner, outer, None);
        b.probe
            .expect_status("node inside its own child refused", status_of(r), 7);
        let r = b.world.network_mut().connect(outer, outer, None);
        b.probe
            .expect_status("node inside itself refused", status_of(r), 7);
        let r = b.world.network_mut().connect(bag, inner, None);
        b.probe
            .expect_status("second parent refused", status_of(r), 6);
        let r = b.world.network_mut().connect(outer, root, None);
        b.probe
            .expect_status("world inside a node refused", status_of(r), 8);
        let parent = b.snapshot()?.parent_of(inner.to_raw());
        b.check(
            "nothing changed",
            parent == Some(outer.to_raw()),
            "crate is still in box".to_owned(),
        );
        Ok(())
    });
}

#[test]
fn unplugged_mid_flight() {
    passes(|b| {
        let root = b.root();
        let bus = b.world_link("bus")?;
        let sender = b.device(root, "sender", "device", &[bus], "none")?;
        b.device(root, "receiver", "device", &[bus], "none")?;
        for _ in 0..50 {
            b.post(sender, "bus", "receiver@bus", "x", b"")?;
        }
        b.world.network_mut().disconnect(root, sender)?;
        b.run(2);
        let dropped = b.probe.health().sender_left_drops;
        b.check(
            "queued packets dropped",
            dropped == 50,
            format!("{dropped} dropped"),
        );
        let got = b.received("receiver")?;
        b.check("nothing delivered", got == 0, format!("{got} received"));
        Ok(())
    });
}

#[test]
fn gateway_loses_its_uplink() {
    passes(|b| {
        let root = b.root();
        let wifi = b.world_link("wifi")?;
        b.device(root, "laptop", "computer", &[wifi], "responder")?;
        let (pc, _) = b.computer(root, "pc", &[wifi], &["net-scan", "fileman"])?;
        b.run(50);
        let wifi = b.link("wifi")?;
        b.world.network_mut().unsubscribe(pc, wifi)?;
        b.run(50);
        // An app still tries to reach the Wi-Fi through its now-unplugged computer.
        b.send("fileman", "ipc", "laptop@wifi", "ping")?;
        b.run(5);
        b.probe.expect_no_fuse();
        b.probe.expect_no_alerts();
        let notes = b.probe.notes();
        let noted = notes.iter().any(|n| n.contains("no way out"));
        let count = notes.len();
        b.check(
            "gateway reports it has no way out",
            noted,
            format!("{count} notes"),
        );
        Ok(())
    });
}

#[test]
fn logic_removed_mid_storm() {
    passes(|b| {
        b.bridged(3)?;
        b.run(6);
        let t = b.probe.health().transmissions;
        b.check("storm is building", t >= 16, format!("{t} packets on tick 6"));
        for i in 0..3 {
            let bridge = b.node(&format!("bridge-{i}"))?;
            b.world.set_logic_kind(bridge, "none")?;
        }
        b.run(30);
        b.probe.expect_no_fuse();
        b.probe.expect_quiet();
        Ok(())
    });
}

#[test]
fn nested_2000_deep() {
    passes(|b| {
        let mut parent = b.root();
        let mut bus = b.world_link("bus")?;
        for i in 0..2_000 {
            let node = b.device(parent, &format!("level-{i}"), "computer", &[bus], "gateway")?;
            bus = b.internal_link(node, "bus")?;
            parent = node;
        }
        b.device(parent, "deep-scan", "app", &[bus], "scanner")?;
        b.run(100);
        b.probe.expect_no_fuse();
        let snap = b.snapshot()?;
        let depth = snap.descendant_count(snap.root());
        b.check(
            "all 2,001 nested nodes present",
            depth == 2_001,
            format!("{depth} nodes"),
        );
        let bottom = snap
            .find_node("deep-scan")
            .map_or(0, |n| snap.path_to(n).len());
        b.check(
            "path from the bottom resolves",
            bottom == 2_002,
            format!("path of {bottom}"),
        );
        Ok(())
    });
}

#[test]
fn twenty_thousand_nodes() {
    passes(|b| {
        let root = b.root();
        for l in 0..200 {
            let link = b.world_link(&format!("net-{l}"))?;
            b.device(root, &format!("beacon-{l}"), "device", &[link], "beacon")?;
            for d in 0..99 {
                b.device(root, &format!("d-{l}-{d}"), "device", &[link], "responder")?;
            }
        }
        b.run(100);
        b.probe.expect_no_fuse();
        Ok(())
    });
}

#[test]
fn computer_plugged_into_its_own_bus() {
    passes(|b| {
        let root = b.root();
        let wifi = b.world_link("wifi")?;
        b.device(root, "laptop", "computer", &[wifi], "responder")?;
        let pc = b.device(root, "pc", "computer", &[wifi], "gateway")?;
        let ipc = b.internal_link(pc, "ipc")?;
        b.world.network_mut().subscribe(pc, ipc)?;
        let app = b.device(pc, "app", "app", &[ipc], "responder")?;
        b.post(app, "ipc", "*@wifi", "ping", b"")?;
        b.run(6);
        let (laptop, app) = (b.received("laptop")?, b.received("app")?);
        b.check("laptop got one ping", laptop == 1, format!("{laptop}"));
        b.check("app got one pong", app == 1, format!("{app}"));
        b.probe.expect_no_alerts();
        Ok(())
    });
}

#[test]
fn odd_addresses() {
    passes(|b| {
        let root = b.root();
        let bus = b.world_link("bus")?;
        b.device(root, "x", "device", &[bus], "responder")?;
        b.device(root, "y", "device", &[bus], "responder")?;
        b.send("x", "bus", "^@bus", "ping")?;
        b.send("x", "bus", "ghost@bus", "ping")?;
        b.run(2);
        let y = b.received("y")?;
        b.check(
            "parent-of-top-level and unknown node reach nobody",
            y == 0,
            format!("y received {y}"),
        );
        let deep = ["a@bus"; 9].join("/");
        let status = match PacketRoute::parse(&deep) {
            Ok(_) => Ok(()),
            Err(e) => Err((Some(12), e.to_string())),
        };
        b.probe.expect_status("9-hop route refused", status, 12);
        b.send("x", "bus", "*@*", "ping")?;
        b.run(2);
        let y = b.received("y")?;
        b.check(
            "*@* reaches everyone on the link",
            y == 1,
            format!("y received {y}"),
        );
        b.probe.expect_no_alerts();
        Ok(())
    });
}

// ---- Robustness -----------------------------------------------------------------------------

#[test]
fn crashing_logic() {
    passes(|b| {
        let root = b.root();
        let bus = b.world_link("bus")?;
        b.device(root, "bug", "device", &[bus], "crasher")?;
        let ok = b.device(root, "ok", "device", &[bus], "responder")?;
        b.post(ok, "bus", "bug@bus", "ping", b"")?;
        b.run(5);
        b.probe.expect_alert("logic_panicked", Severity::Error);
        let t = b.ticks;
        b.check("world kept ticking", t == 5, format!("{t} ticks"));
        let snap = b.snapshot()?;
        let logic = snap
            .find_node("bug")
            .and_then(|n| snap.node(n))
            .and_then(|n| n.logic.clone());
        b.check(
            "the crashing logic was removed",
            logic.is_none(),
            format!("{logic:?}"),
        );
        Ok(())
    });
}

#[test]
fn the_same_network_runs_the_same_way_twice() -> Outcome {
    let mut traces = Vec::new();
    for _ in 0..2 {
        let mut world = World::new();
        build(&mut world, &scenarios::office())?;
        let mut seen = String::new();
        for _ in 0..200 {
            world.tick();
            let discarded = world.trace_discarded();
            for e in Trace::of(&world.drain_trace(), discarded).events {
                seen.push_str(&format!("{e:?}"));
            }
        }
        traces.push(seen);
    }
    assert!(!traces[0].is_empty());
    assert_eq!(traces[0], traces[1]);
    Ok(())
}

/// The whole catalogue, in the order it is listed.
#[test]
fn every_stress_test_passes() -> Outcome {
    office_runs_clean();
    city_block_runs_clean();
    mesh_runs_clean();
    big_legitimate_broadcast();
    relay_loop_two_bridges();
    broadcast_storm_four_bridges();
    loop_across_levels();
    echo_ping_pong();
    stuck_retry();
    amplifier_is_stopped_by_the_fuse();
    two_amplifiers_facing_each_other();
    noisy_node();
    firehose();
    fan_out_bomb();
    host_floods_the_queue();
    huge_payloads();
    trace_never_drained();
    invalid_names();
    name_clashes();
    nesting_mistakes();
    unplugged_mid_flight();
    gateway_loses_its_uplink();
    logic_removed_mid_storm();
    nested_2000_deep();
    twenty_thousand_nodes();
    computer_plugged_into_its_own_bus();
    odd_addresses();
    crashing_logic();
    the_same_network_runs_the_same_way_twice()
}

#[test]
fn a_failed_build_keeps_what_it_came_to() {
    let mut plan = Blueprint::new();
    let lan = plan.link(None, "lan");
    let desk = plan.device(None, "desk", "device", &[lan], "responder");
    plan.device(Some(desk), "lamp", "device", &[], "teleporter");
    plan.device(None, "chair", "device", &[], "none");
    let mut world = World::new();
    let tried = build(&mut world, &plan);
    assert!(matches!(
        tried,
        Err(BuildError::Logic(LogicError::UnknownKind(kind))) if kind == "teleporter"
    ));
    let names: Vec<String> = world
        .network()
        .node_ids()
        .into_iter()
        .filter_map(|n| world.network().node(n).map(|n| n.name().to_owned()))
        .collect();
    // The lamp stands on the desk, without a logic.
    assert_eq!(names, vec![".", "desk", "lamp"]);
    assert_eq!(world.network().link_ids().len(), 1);
}

#[test]
fn a_step_that_builds_on_nothing_does_nothing() {
    let lan: usize = 0;
    // A link is no place to put a device in, and there is no seventh step.
    for (parent, links) in [(Some(lan), vec![]), (Some(6), vec![]), (None, vec![6])] {
        let mut plan = Blueprint::new();
        plan.link(None, "lan");
        plan.device(parent, "lost", "device", &links, "none");
        let mut world = World::new();
        assert!(matches!(build(&mut world, &plan), Err(BuildError::Missing)));
        assert_eq!(world.network().node_ids().len(), 1);
        assert_eq!(world.network().link_ids().len(), 1);
    }
    let mut world = World::new();
    let mut twice = Blueprint::new();
    twice.link(None, "lan");
    twice.link(None, "lan");
    assert!(matches!(
        build(&mut world, &twice),
        Err(BuildError::Network(NetworkError::NameConflict { .. }))
    ));
    // The second link is left loose.
    assert_eq!(world.network().link_ids().len(), 2);
}

#[test]
fn every_scenario_builds() -> Outcome {
    for (i, (name, _)) in scenarios::SCENARIOS.iter().enumerate() {
        let mut world = World::new();
        let made = build(&mut world, &scenarios::scenario(i))?;
        assert!(!made.is_empty(), "{name}");
        let snap = Snapshot::load(RawSnapshot::of(&world))?;
        assert!(snap.node_count() > 1, "{} built nothing", name);
    }
    Ok(())
}
