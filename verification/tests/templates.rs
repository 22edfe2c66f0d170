//! Templates: computers and NPCs.

use emergence::{
    build_computer, build_computer_at, build_npc, build_npc_at, npc_events, or_remove, AppKind,
    ComputerSpec, ControlNode, Event, HardwareTag, LogicError, NetworkError, NodeId, NpcRole,
    NpcSpec, NpcSpecProblem, Placement, RouteError, SendError, TemplateError, TickOutcome,
    TraceEvent, World, BASE_SERVICES,
};

/// What made a test fail.
#[derive(Debug)]
struct Failure(String);

impl From<NetworkError> for Failure {
    fn from(e: NetworkError) -> Self {
        Failure(e.to_string())
    }
}

impl From<RouteError> for Failure {
    fn from(e: RouteError) -> Self {
        Failure(e.to_string())
    }
}

impl From<SendError> for Failure {
    fn from(e: SendError) -> Self {
        Failure(e.to_string())
    }
}

impl From<LogicError> for Failure {
    fn from(e: LogicError) -> Self {
        Failure(e.to_string())
    }
}

impl From<TemplateError> for Failure {
    fn from(e: TemplateError) -> Self {
        Failure(e.to_string())
    }
}

impl From<&str> for Failure {
    fn from(e: &str) -> Self {
        Failure(e.to_owned())
    }
}

type TestResult = Result<(), Failure>;

fn names_inside(world: &World, node: NodeId) -> Vec<String> {
    world
        .network()
        .node(node)
        .map(|n| {
            n.children()
                .iter()
                .filter_map(|&c| world.network().node(c).map(|c| c.name().to_owned()))
                .collect()
        })
        .unwrap_or_default()
}

#[test]
fn a_computer_has_its_services_and_apps_and_is_detached() -> TestResult {
    let mut world = World::new();
    let spec = ComputerSpec {
        apps: vec![AppKind::Mail, AppKind::NetScan],
        ..ComputerSpec::default()
    };
    let pc = build_computer(&mut world, "pc", &spec)?;
    let inside = names_inside(&world, pc);
    for (service, _) in BASE_SERVICES {
        assert!(inside.contains(&service.to_owned()), "missing {service}");
    }
    assert!(inside.contains(&"mail".to_owned()));
    assert!(inside.contains(&"net-scan".to_owned()));
    assert_eq!(
        world
            .network()
            .node(pc)
            .and_then(ControlNode::parent),
        None
    );
    assert_eq!(world.logic_kind(pc), Some("kernel"));
    Ok(())
}

#[test]
fn an_app_cannot_be_installed_twice() {
    let mut world = World::new();
    let spec = ComputerSpec {
        apps: vec![AppKind::Mail, AppKind::Mail],
        ..ComputerSpec::default()
    };
    assert_eq!(
        build_computer(&mut world, "pc", &spec),
        Err(TemplateError::AppInstalledTwice(AppKind::Mail))
    );
    assert_eq!(world.network().nodes().len(), 1, "nothing was built");
}

#[test]
fn a_built_computer_routes_like_any_other() -> TestResult {
    let mut world = World::new();
    let spec = ComputerSpec {
        apps: vec![AppKind::FileManager],
        ..ComputerSpec::default()
    };
    let pc = build_computer(&mut world, "pc", &spec)?;
    let net = world.network_mut();
    let (root, wifi) = (net.root(), net.create_link("wifi")?);
    let laptop = net.create_node("laptop", "computer")?;
    net.connect(root, pc, Some(wifi))?;
    net.connect(root, laptop, Some(wifi))?;
    world.send(
        laptop,
        wifi,
        "pc@wifi/fileman@ipc".parse()?,
        Event::new("ping"),
    )?;
    for _ in 0..4 {
        assert_eq!(world.tick(), TickOutcome::Completed);
    }
    assert_eq!(world.stats(laptop).received, 1, "the pong came back out");
    Ok(())
}

#[test]
fn a_promiscuous_nic_overhears_traffic() -> TestResult {
    let mut world = World::new();
    let spec = ComputerSpec {
        hardware: [HardwareTag::PromiscuousNic].into(),
        ..ComputerSpec::default()
    };
    let sniffer = build_computer(&mut world, "sniffer", &spec)?;
    let net = world.network_mut();
    let (root, wifi) = (net.root(), net.create_link("wifi")?);
    let (a, b) = (net.create_node("a", "x")?, net.create_node("b", "x")?);
    for n in [sniffer, a, b] {
        net.connect(root, n, Some(wifi))?;
    }
    world.send(a, wifi, "b@wifi".parse()?, Event::new("secret"))?;
    let _ = world.tick();
    assert_eq!(world.stats(sniffer).received, 1);
    Ok(())
}

fn notes(world: &mut World) -> Vec<String> {
    world
        .drain_trace()
        .into_iter()
        .filter_map(|e| match e {
            TraceEvent::Note { text, .. } => Some(text),
            _ => None,
        })
        .collect()
}

#[test]
fn an_npc_follows_its_schedule_talks_and_reacts() -> TestResult {
    let mut world = World::new();
    let spec = NpcSpec {
        role: NpcRole::Guard,
        day_length: 10,
        schedule: vec![(0, "patrol".into()), (5, "rest".into())],
        lines: vec!["Halt!".into()],
    };
    let guard = build_npc(&mut world, "guard", &spec)?;
    let net = world.network_mut();
    let (root, hall) = (net.root(), net.create_link("hall")?);
    let player = net.create_node("player", "player")?;
    net.connect(root, guard, Some(hall))?;
    net.connect(root, player, Some(hall))?;

    for _ in 0..6 {
        let _ = world.tick();
    }
    let seen = notes(&mut world);
    assert!(
        seen.contains(&"goal: patrol".to_owned()) && seen.contains(&"goal: rest".to_owned())
    );

    world.send(
        player,
        hall,
        "guard@hall".parse()?,
        Event::new(npc_events::TALK),
    )?;
    world.send(
        player,
        hall,
        "guard@hall".parse()?,
        Event::new(npc_events::PLAYER_SEEN),
    )?;
    let _ = world.tick();
    let _ = world.tick();
    assert!(notes(&mut world).iter().any(|n| n.contains("alarm")));
    assert!(
        world.stats(player).received >= 2,
        "got the line and the alarm"
    );
    Ok(())
}

#[test]
fn a_computer_cannot_share_a_name_with_its_insides() {
    let mut world = World::new();
    let spec = ComputerSpec {
        apps: vec![AppKind::Mail],
        ..ComputerSpec::default()
    };
    for name in ["registry", "mail"] {
        assert_eq!(
            build_computer(&mut world, name, &spec),
            Err(TemplateError::NameUsedInside(name.into()))
        );
    }
    assert_eq!(world.network().nodes().len(), 1, "nothing was built");
}

#[test]
fn two_steps_a_refused_connect_leaves_the_node_built_but_detached() -> TestResult {
    let mut world = World::new();
    let net = world.network_mut();
    let (root, wifi) = (net.root(), net.create_link("wifi")?);
    let first = net.create_node("pc", "computer")?;
    net.connect(root, first, Some(wifi))?;

    let pc = build_computer(&mut world, "pc", &ComputerSpec::default())?;
    let refused = world.network_mut().connect(root, pc, Some(wifi));
    assert!(matches!(refused, Err(NetworkError::NameConflict { .. })));
    assert!(world.network().node(pc).is_some(), "still built");
    assert_eq!(
        world
            .network()
            .node(pc)
            .and_then(ControlNode::parent),
        None
    );
    Ok(())
}

#[test]
fn one_step_a_refused_connect_leaves_nothing() -> TestResult {
    let mut world = World::new();
    let net = world.network_mut();
    let (root, wifi) = (net.root(), net.create_link("wifi")?);
    let first = net.create_node("pc", "computer")?;
    net.connect(root, first, Some(wifi))?;
    let (nodes, links) = (world.network().nodes().len(), world.network().links().len());

    let at = Placement {
        parent: root,
        link: Some(wifi),
    };
    let result = build_computer_at(&mut world, "pc", &ComputerSpec::default(), at);
    assert!(matches!(
        result,
        Err(TemplateError::Network(NetworkError::NameConflict { .. }))
    ));
    assert_eq!(world.network().nodes().len(), nodes, "no nodes left behind");
    assert_eq!(world.network().links().len(), links, "no links left behind");

    let npc = build_npc_at(&mut world, "pc", &NpcSpec::default(), at);
    assert!(npc.is_err());
    assert_eq!(world.network().nodes().len(), nodes);

    let ok = build_computer_at(&mut world, "pc-2", &ComputerSpec::default(), at)?;
    assert_eq!(
        world
            .network()
            .node(ok)
            .and_then(ControlNode::parent),
        Some(root)
    );
    Ok(())
}

#[test]
fn a_build_that_fails_part_way_removes_what_it_made() -> TestResult {
    let mut world = World::new();
    let before = (world.network().nodes().len(), world.network().links().len());
    let root = world.network_mut().create_node("half-built", "computer")?;
    let net = world.network_mut();
    let bus = net.create_link("bus")?;
    let part = net.create_node("part", "x")?;
    net.connect(root, part, Some(bus))?;
    let late = Err(TemplateError::NameUsedInside("late failure".into()));
    let result = or_remove(&mut world, root, late);
    assert!(result.is_err());
    assert_eq!(
        (world.network().nodes().len(), world.network().links().len()),
        before
    );
    Ok(())
}

#[test]
fn bad_npc_specs_are_refused() {
    let mut world = World::new();
    let spec = NpcSpec {
        schedule: vec![(5, "late start".into())],
        ..NpcSpec::default()
    };
    assert_eq!(
        build_npc(&mut world, "npc", &spec),
        Err(TemplateError::Npc(NpcSpecProblem::ScheduleNotFromZero))
    );
}
