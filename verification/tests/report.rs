//! What a world reports across an ABI.

use emergence::abi::{
    emergence_abi_version, emergence_world_create, emergence_world_tick,
    emergence_world_tick_count, EmergenceStatus, EMERGENCE_ABI_VERSION,
};
use emergence::report::{
    deliveries, hex, reason_name, rule_name, severity_name, unsupported_trace, About, AlertReport,
    FuseSummary, HealthReport, HostDelivery, Trace, TraceEntry,
};
use emergence::{
    AcceptRule, Alert, Check, DropReason, Event, Limits, LinkId, NetworkError, NodeId, PacketRoute,
    Severity, Subject, TraceEvent, World,
};
use serde_json::Value;

fn id(v: &Value) -> u64 {
    v.as_u64().unwrap_or(0)
}

fn text(v: &Value) -> String {
    v.as_str().unwrap_or_default().to_owned()
}

/// A trace from its JSON form; what it does not know is `Other`.
fn parse(json: &[u8]) -> Result<Vec<TraceEntry>, u32> {
    let v: Value = serde_json::from_slice(json).unwrap_or(Value::Null);
    let entry = |e: &Value| match e["type"].as_str() {
        Some("sent") => TraceEntry::Sent {
            tick: id(&e["tick"]),
            packet: id(&e["packet"]),
            sender: id(&e["sender"]),
            link: id(&e["link"]),
            from: text(&e["from"]),
            to: text(&e["to"]),
            kind: text(&e["kind"]),
            data: e["data"].as_str().map(str::to_owned),
            data_len: id(&e["data_len"]),
            ttl: u8::try_from(id(&e["ttl"])).unwrap_or(0),
        },
        Some("delivered") => TraceEntry::Delivered {
            tick: id(&e["tick"]),
            packet: id(&e["packet"]),
            receiver: id(&e["receiver"]),
            link: id(&e["link"]),
            rule: text(&e["rule"]),
        },
        Some("dropped") => TraceEntry::Dropped {
            tick: id(&e["tick"]),
            packet: id(&e["packet"]),
            at: e["at"].as_u64(),
            reason: text(&e["reason"]),
        },
        Some("note") => TraceEntry::Note {
            tick: id(&e["tick"]),
            node: id(&e["node"]),
            text: text(&e["text"]),
        },
        _ => TraceEntry::Other,
    };
    Trace {
        format: u32::try_from(id(&v["format"])).unwrap_or(0),
        discarded: id(&v["discarded"]),
        events: v["events"]
            .as_array()
            .map(|events| events.iter().map(entry).collect())
            .unwrap_or_default(),
    }
    .read()
}

#[test]
fn parses_every_entry_type_and_tolerates_new_ones() -> Result<(), u32> {
    let json = br#"{"format":1,"discarded":0,"events":[
            {"type":"sent","tick":1,"packet":7,"sender":2,"link":3,"from":"a@w","to":"*@w","kind":"ping","data":"t1","data_len":2,"ttl":16},
            {"type":"delivered","tick":1,"packet":7,"receiver":4,"link":3,"rule":"broadcast"},
            {"type":"dropped","tick":1,"packet":7,"at":null,"reason":"no_recipient"},
            {"type":"note","tick":1,"node":2,"text":"hi"},
            {"type":"teleported","tick":1}]}"#;
    let events = parse(json)?;
    assert_eq!(events.len(), 5);
    assert!(matches!(events[4], TraceEntry::Other));
    Ok(())
}

#[test]
fn an_unknown_trace_format_is_refused() {
    let read = |format: u32| parse(format!(r#"{{"format":{format},"events":[]}}"#).as_bytes());
    assert!(matches!(read(0), Err(0)));
    assert!(matches!(read(3), Err(3)));
    assert!(read(2).is_ok());
    assert_eq!(
        unsupported_trace(3),
        "trace format 3 is not supported (expected 2)"
    );
}

#[test]
fn names_are_stable() {
    assert_eq!(rule_name(AcceptRule::Addressed), "addressed");
    assert_eq!(rule_name(AcceptRule::Broadcast), "broadcast");
    assert_eq!(rule_name(AcceptRule::ChildToParent), "child_to_parent");
    assert_eq!(rule_name(AcceptRule::Gateway), "gateway");
    assert_eq!(rule_name(AcceptRule::Forced), "forced");
    assert_eq!(reason_name(DropReason::TtlExpired), "ttl_expired");
    assert_eq!(reason_name(DropReason::NoRecipient), "no_recipient");
    assert_eq!(reason_name(DropReason::SenderLeftLink), "sender_left_link");
    assert_eq!(severity_name(Severity::Warning), "warning");
    assert_eq!(severity_name(Severity::Error), "error");
}

/// A sender and a receiver on one link.
fn pair() -> Result<(World, LinkId, NodeId, NodeId), NetworkError> {
    let mut world = World::new();
    let net = world.network_mut();
    let root = net.root();
    let bus = net.create_link("bus")?;
    let a = net.create_node("a", "device")?;
    let b = net.create_node("b", "device")?;
    net.connect(root, a, Some(bus))?;
    net.connect(root, b, Some(bus))?;
    Ok((world, bus, a, b))
}

#[test]
fn a_trace_shows_payloads_that_are_text() -> Result<(), NetworkError> {
    let (mut world, bus, a, b) = pair()?;
    let to = PacketRoute::new("b", "bus");
    for data in [b"gr\xc3\xbc\xc3\x9fe".to_vec(), vec![0xff, 0xfe]] {
        assert!(world
            .send(a, bus, to.clone(), Event::with_data("say", data))
            .is_ok());
    }
    world.tick();
    let discarded = world.trace_discarded();
    let trace = Trace::of(&world.drain_trace(), discarded);
    assert_eq!((trace.format, trace.discarded), (2, 0));
    let shown: Vec<(Option<String>, u64)> = trace
        .events
        .iter()
        .filter_map(|e| match e {
            TraceEntry::Sent {
                sender,
                link,
                from,
                to,
                kind,
                data,
                data_len,
                ttl,
                ..
            } => {
                assert_eq!((*sender, *link), (a.to_raw(), bus.to_raw()));
                assert_eq!((from.as_str(), to.as_str()), ("a@bus", "b@bus"));
                assert_eq!((kind.as_str(), *ttl), ("say", 16));
                Some((data.clone(), *data_len))
            }
            _ => None,
        })
        .collect();
    assert_eq!(shown, vec![(Some("grüße".to_owned()), 7), (None, 2)]);
    let heard = trace
        .events
        .iter()
        .filter(|e| matches!(e, TraceEntry::Delivered { receiver, rule, .. } if *receiver == b.to_raw() && rule == "addressed"))
        .count();
    assert_eq!(heard, 2);
    Ok(())
}

#[test]
fn alerts_are_reported_by_name() -> Result<(), NetworkError> {
    let (_, bus, a, _) = pair()?;
    let alert = Alert {
        tick: 4,
        check: Check::LinkRate,
        severity: Severity::Error,
        subject: Subject::Link(bus),
        value: 9,
        limit: 8,
        message: "busy".to_owned(),
    };
    let report = AlertReport::of(&alert);
    assert_eq!(report.check, "link_rate");
    assert_eq!(report.subject, Some(About::Link(bus.to_raw())));
    assert_eq!((report.value, report.limit), (9, 8));
    let node = AlertReport::of(&Alert {
        subject: Subject::Node(a),
        ..alert.clone()
    });
    assert_eq!(node.subject, Some(About::Node(a.to_raw())));
    let network = AlertReport::of(&Alert {
        subject: Subject::Network,
        ..alert
    });
    assert_eq!(network.subject, None);
    Ok(())
}

#[test]
fn health_and_fuse_are_reported() -> Result<(), NetworkError> {
    let (mut world, bus, a, _) = pair()?;
    world.set_limits(Limits {
        max_transmissions_per_tick: 2,
        ..Limits::default()
    });
    for _ in 0..5 {
        assert!(world
            .send(a, bus, PacketRoute::new("b", "bus"), Event::new("x"))
            .is_ok());
    }
    assert_eq!(HealthReport::of(&world).pending, 5);
    world.tick();
    let health = HealthReport::of(&world);
    assert_eq!((health.transmissions, health.pending), (2, 3));
    assert_eq!(health.limits.max_transmissions_per_tick, 2);
    let fuse = world.fuse_report().map(FuseSummary::of);
    assert_eq!(
        fuse.as_ref().map(|f| (f.tick, f.limit.as_str(), f.held_back)),
        Some((1, "transmissions", 3))
    );
    assert_eq!(
        fuse.as_ref().map(|f| f.top_senders.clone()),
        Some(vec![(a.to_raw(), 2)])
    );
    assert_eq!(
        fuse.as_ref().map(FuseSummary::limit_text),
        Some("2 packets sent in one tick".to_owned())
    );
    Ok(())
}

#[test]
fn limits_are_explained() {
    let fuse = |limit: &str| {
        FuseSummary {
            tick: 1,
            limit: limit.to_owned(),
            max: 10,
            held_back: 0,
            top_senders: vec![],
            top_links: vec![],
            recent_alerts: vec![],
        }
        .limit_text()
    };
    assert_eq!(fuse("deliveries"), "10 packet deliveries in one tick");
    assert_eq!(
        fuse("queue"),
        "10 packets waiting (new sends were refused)"
    );
    assert_eq!(fuse("patience"), "patience limit of 10");
}

#[test]
fn deliveries_spell_out_routes_and_payloads() -> Result<(), NetworkError> {
    let (mut world, bus, a, b) = pair()?;
    let event = Event::with_data("say", vec![0, 10, 255]);
    assert!(world
        .send(a, bus, PacketRoute::new("b", "bus"), event)
        .is_ok());
    world.tick();
    let all: Vec<HostDelivery> = world
        .drain_trace()
        .into_iter()
        .filter_map(|e| match e {
            TraceEvent::Sent { packet, link, .. } => Some(HostDelivery {
                receiver: b,
                link,
                packet,
            }),
            _ => None,
        })
        .collect();
    let out = deliveries(&all);
    assert_eq!(out.len(), 1);
    assert_eq!(out[0].receiver, b.to_raw());
    assert_eq!(out[0].from, vec![("a".to_owned(), "bus".to_owned())]);
    assert_eq!(out[0].to, vec![("b".to_owned(), "bus".to_owned())]);
    assert_eq!(out[0].data, "000aff");
    assert_eq!(hex(b""), "");
    Ok(())
}

#[test]
fn world_lifecycle_through_the_abi() {
    let mut world = None;
    let mut count = u64::MAX;
    assert_eq!(
        emergence_world_create(Some(&mut world)),
        EmergenceStatus::Success
    );
    assert_eq!(emergence_world_tick(world.as_mut()), EmergenceStatus::Success);
    assert_eq!(
        emergence_world_tick_count(world.as_ref(), Some(&mut count)),
        EmergenceStatus::Success
    );
    assert_eq!(count, 1);
}

#[test]
fn null_pointers_are_rejected_not_dereferenced() {
    let mut count = 0;
    assert_eq!(emergence_world_create(None), EmergenceStatus::NullPointer);
    assert_eq!(emergence_world_tick(None), EmergenceStatus::NullPointer);
    assert_eq!(
        emergence_world_tick_count(None, Some(&mut count)),
        EmergenceStatus::NullPointer
    );
    assert_eq!(count, 0);
    let mut world = None;
    assert_eq!(
        emergence_world_create(Some(&mut world)),
        EmergenceStatus::Success
    );
    assert_eq!(
        emergence_world_tick_count(world.as_ref(), None),
        EmergenceStatus::NullPointer
    );
}

#[test]
fn the_abi_has_a_version_and_numbered_statuses() {
    assert_eq!(emergence_abi_version(), EMERGENCE_ABI_VERSION);
    assert_eq!(EmergenceStatus::Success.code(), 0);
    assert_eq!(EmergenceStatus::NullPointer.code(), 1);
    assert_eq!(EmergenceStatus::Panic.code(), 2);
}
