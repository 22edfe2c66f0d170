//! Snapshots: loading, looking things up, and what the canvas shows of them.

use emergence::report::About;
use emergence::scene::{container_of, Item, Scene};
use emergence::snapshot::{LinkEntry, NodeEntry, RawSnapshot, Snapshot, SnapshotError};
use emergence::{NetworkError, World};
use serde_json::Value;

fn id(v: &Value) -> u64 {
    v.as_u64().unwrap_or(0)
}

fn ids(v: &Value) -> Vec<u64> {
    v.as_array()
        .map(|list| list.iter().map(id).collect())
        .unwrap_or_default()
}

fn text(v: &Value) -> String {
    v.as_str().unwrap_or_default().to_owned()
}

fn list(v: &Value) -> Vec<Value> {
    v.as_array().cloned().unwrap_or_default()
}

/// A snapshot from its JSON form.
fn from_json(json: &[u8]) -> Result<Snapshot, SnapshotError> {
    let v: Value = serde_json::from_slice(json).unwrap_or(Value::Null);
    Snapshot::load(RawSnapshot {
        format: u32::try_from(id(&v["format"])).unwrap_or(0),
        tick: id(&v["tick"]),
        root: id(&v["root"]),
        nodes: list(&v["nodes"])
            .iter()
            .map(|n| NodeEntry {
                id: id(&n["id"]),
                name: text(&n["name"]),
                kind: text(&n["kind"]),
                parent: n["parent"].as_u64(),
                children: ids(&n["children"]),
                internal_links: ids(&n["internal_links"]),
                subscriptions: ids(&n["subscriptions"]),
                logic: n["logic"].as_str().map(str::to_owned),
                sent: id(&n["sent"]),
                received: id(&n["received"]),
            })
            .collect(),
        links: list(&v["links"])
            .iter()
            .map(|l| LinkEntry {
                id: id(&l["id"]),
                name: text(&l["name"]),
                owner: l["owner"].as_u64(),
                subscribers: ids(&l["subscribers"]),
            })
            .collect(),
    })
}

#[test]
fn parses_and_indexes_a_snapshot() -> Result<(), SnapshotError> {
    let json = br#"{"format":1,"root":1,
            "nodes":[{"id":1,"name":".","kind":"root","parent":null,"children":[2],"internal_links":[9],"subscriptions":[]},
                     {"id":2,"name":"pc","kind":"computer","parent":1,"children":[],"internal_links":[],"subscriptions":[9]}],
            "links":[{"id":9,"name":"wifi","owner":1,"subscribers":[2]}]}"#;
    let snap = from_json(json)?;
    let pc = snap.node(snap.root()).map(|r| r.children[0]);
    assert_eq!(pc.map(|pc| snap.node_name(pc)), Some("pc"));
    assert_eq!(pc.map(|pc| snap.path_to(pc).len()), Some(2));
    assert_eq!(snap.descendant_count(snap.root()), 1);
    Ok(())
}

#[test]
fn rejects_unknown_format() {
    let json = br#"{"format":99,"root":1,"nodes":[],"links":[]}"#;
    assert!(matches!(
        from_json(json),
        Err(SnapshotError::UnsupportedFormat(99))
    ));
}

#[test]
fn rejects_a_missing_root() {
    let json = br#"{"format":2,"root":1,"nodes":[],"links":[]}"#;
    assert!(matches!(from_json(json), Err(SnapshotError::MissingRoot)));
    assert_eq!(
        SnapshotError::MissingRoot.to_string(),
        "the root node is missing"
    );
    assert_eq!(
        SnapshotError::UnsupportedFormat(0).to_string(),
        "snapshot format 0 is not supported (expected 2)"
    );
}

#[test]
fn the_last_of_two_nodes_with_one_handle_counts() -> Result<(), SnapshotError> {
    let json = br#"{"format":2,"root":1,"nodes":[{"id":1,"name":"old"},{"id":1,"name":"new"}],"links":[]}"#;
    let snap = from_json(json)?;
    assert_eq!(snap.node_name(1), "new");
    assert_eq!(snap.node_count(), 2);
    assert_eq!(snap.find_node("old"), Some(1));
    Ok(())
}

/// root ─ house(10) ─ room(11) ─ lamp(12); root owns street(20), house owns lan(21).
fn house() -> Result<Snapshot, SnapshotError> {
    from_json(
        br#"{"format":2,"tick":7,"root":1,
        "nodes":[{"id":1,"name":".","kind":"root","children":[10],"internal_links":[20]},
                 {"id":10,"name":"house","kind":"building","parent":1,"children":[11,13],"internal_links":[21],"subscriptions":[20]},
                 {"id":11,"name":"room","kind":"room","parent":10,"children":[12],"subscriptions":[21,20]},
                 {"id":12,"name":"lamp","kind":"lamp","parent":11},
                 {"id":13,"name":"hall","kind":"room","parent":10,"subscriptions":[20,21]}],
        "links":[{"id":20,"name":"street","owner":1,"subscribers":[10,11,13]},
                 {"id":21,"name":"lan","owner":10,"subscribers":[11,13]}]}"#,
    )
}

#[test]
fn paths_lead_down_from_the_root() -> Result<(), SnapshotError> {
    let snap = house()?;
    assert_eq!(snap.tick(), 7);
    assert_eq!(snap.path_to(12), vec![1, 10, 11, 12]);
    assert_eq!(snap.path_to(1), vec![1]);
    assert_eq!(snap.path_to(99), vec![99]);
    assert_eq!(snap.descendant_count(1), 4);
    assert_eq!(snap.descendant_count(10), 3);
    assert_eq!(snap.descendant_count(99), 0);
    Ok(())
}

#[test]
fn names_are_shown_as_people_know_them() -> Result<(), SnapshotError> {
    let snap = house()?;
    assert_eq!(snap.name_of(1), "world");
    assert_eq!(snap.name_of(12), "lamp");
    assert_eq!(snap.name_of(99), "?");
    assert_eq!(snap.link_name(21), "lan");
    assert_eq!(snap.link_name(99), "?");
    assert_eq!(snap.subject_name(Some(About::Node(1))), "world");
    assert_eq!(snap.subject_name(Some(About::Link(20))), "link street");
    assert_eq!(snap.subject_name(None), "network");
    assert_eq!(snap.find_link("lan"), Some(21));
    assert_eq!(snap.find_link("wan"), None);
    assert_eq!(snap.nodes_named("room"), 1);
    assert_eq!(snap.link_count(), 2);
    Ok(())
}

#[test]
fn a_nested_node_appears_as_the_child_that_contains_it() -> Result<(), SnapshotError> {
    let snap = house()?;
    assert_eq!(snap.child_of_scope_containing(10, 11), Some(11));
    assert_eq!(snap.child_of_scope_containing(10, 12), Some(11));
    assert_eq!(snap.child_of_scope_containing(1, 12), Some(10));
    assert_eq!(snap.child_of_scope_containing(10, 10), None);
    assert_eq!(snap.child_of_scope_containing(12, 11), None);
    Ok(())
}

#[test]
fn a_scene_shows_children_links_and_spokes() -> Result<(), SnapshotError> {
    let snap = house()?;
    let scene = Scene::new(&snap, 10);
    assert_eq!(
        scene.items,
        vec![
            Item::Link(21),
            Item::Node(11),
            Item::Link(20),
            Item::Node(13)
        ]
    );
    assert_eq!(scene.edges, vec![(11, 21), (11, 20), (13, 20), (13, 21)]);
    assert!(scene.is_outer(20) && !scene.is_outer(21));
    assert!(scene.has_edge(Item::Link(20), Item::Node(13)));
    assert!(scene.has_edge(Item::Node(13), Item::Link(20)));
    assert!(!scene.has_edge(Item::Node(13), Item::Node(11)));
    assert_eq!(
        scene.topmost_first(),
        vec![
            Item::Node(11),
            Item::Node(13),
            Item::Link(21),
            Item::Link(20)
        ]
    );
    assert!(Scene::new(&snap, 99).items.is_empty());
    Ok(())
}

#[test]
fn layout_work_per_frame_is_bounded() {
    let scene = |n: u64| Scene {
        items: (0..n).map(Item::Node).collect(),
        outer_links: vec![],
        edges: vec![],
    };
    assert_eq!(scene(0).steps_per_frame(), 12);
    assert_eq!(scene(60).steps_per_frame(), 11);
    assert_eq!(scene(200).steps_per_frame(), 1);
    assert_eq!(scene(1_000).steps_per_frame(), 1);
}

#[test]
fn items_are_shown_where_they_are_contained() -> Result<(), SnapshotError> {
    let snap = house()?;
    assert_eq!(container_of(&snap, Item::Node(12)), 11);
    assert_eq!(container_of(&snap, Item::Node(1)), 1);
    assert_eq!(container_of(&snap, Item::Link(21)), 10);
    assert_eq!(container_of(&snap, Item::Link(99)), 1);
    Ok(())
}

#[test]
fn a_worlds_snapshot_loads_and_finds_every_node() -> Result<(), NetworkError> {
    let mut world = World::new();
    let net = world.network_mut();
    let root = net.root();
    let wifi = net.create_link("wifi")?;
    let pc = net.create_node("pc", "computer")?;
    net.connect(root, pc, Some(wifi))?;
    assert!(world.set_logic_kind(pc, "responder").is_ok());
    world.tick();
    let raw = RawSnapshot::of(&world);
    assert_eq!(raw.format, 2);
    assert_eq!(raw.tick, 1);
    let snap = Snapshot::load(raw);
    let entry = snap.as_ref().ok().and_then(|s| s.node(pc.to_raw()));
    assert_eq!(entry.map(|n| n.name.as_str()), Some("pc"));
    assert_eq!(entry.and_then(|n| n.logic.as_deref()), Some("responder"));
    assert_eq!(entry.map(|n| n.subscriptions.clone()), Some(vec![wifi.to_raw()]));
    assert_eq!(entry.and_then(|n| n.parent), Some(root.to_raw()));
    Ok(())
}
