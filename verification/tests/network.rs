//! The node/link graph.

use emergence::{ControlNode, Link, LinkId, Network, NetworkError, NodeId};

type TestResult = Result<(), NetworkError>;

fn node_of(net: &Network, id: NodeId) -> &ControlNode {
    net.node(id).expect("a known node")
}

fn link_of(net: &Network, id: LinkId) -> &Link {
    net.link(id).expect("a known link")
}

#[test]
fn new_network_has_only_the_root() {
    let net = Network::new();
    assert_eq!(net.nodes().len(), 1);
    assert_eq!(net.links().len(), 0);
    assert_eq!(net.node(net.root()).map(ControlNode::name), Some("."));
}

#[test]
fn connect_with_link_builds_hierarchy_and_subscription() -> TestResult {
    let mut net = Network::new();
    let root = net.root();
    let pc = net.create_node("pc", "computer")?;
    let app = net.create_node("app", "app")?;
    let ipc = net.create_link("ipc")?;
    net.connect(root, pc, None)?;
    net.connect(pc, app, Some(ipc))?;

    let pc_node = node_of(&net, pc);
    assert_eq!(pc_node.children(), &[app]);
    assert_eq!(pc_node.internal_links(), &[ipc]);
    assert_eq!(node_of(&net, app).parent(), Some(pc));
    assert_eq!(node_of(&net, app).subscriptions(), &[ipc]);
    assert_eq!(link_of(&net, ipc).owner(), Some(pc));
    assert_eq!(link_of(&net, ipc).subscribers(), &[app]);
    Ok(())
}

#[test]
fn connecting_twice_to_same_parent_adds_second_link_only() -> TestResult {
    let mut net = Network::new();
    let root = net.root();
    let pc = net.create_node("pc", "computer")?;
    let a = net.create_link("a")?;
    let b = net.create_link("b")?;
    net.connect(root, pc, Some(a))?;
    net.connect(root, pc, Some(b))?;
    assert_eq!(node_of(&net, root).children(), &[pc]);
    assert_eq!(node_of(&net, pc).subscriptions(), &[a, b]);
    Ok(())
}

#[test]
fn a_node_cannot_have_two_parents() -> TestResult {
    let mut net = Network::new();
    let (p1, p2, child) = (
        net.create_node("p1", "x")?,
        net.create_node("p2", "x")?,
        net.create_node("c", "x")?,
    );
    net.connect(p1, child, None)?;
    assert_eq!(
        net.connect(p2, child, None),
        Err(NetworkError::AlreadyHasParent(child))
    );
    Ok(())
}

#[test]
fn cycles_and_root_reparenting_are_rejected() -> TestResult {
    let mut net = Network::new();
    let root = net.root();
    let a = net.create_node("a", "x")?;
    let b = net.create_node("b", "x")?;
    net.connect(a, b, None)?;
    assert_eq!(net.connect(b, a, None), Err(NetworkError::WouldCreateCycle));
    assert_eq!(net.connect(a, a, None), Err(NetworkError::WouldCreateCycle));
    assert_eq!(net.connect(a, root, None), Err(NetworkError::IsRoot));
    Ok(())
}

#[test]
fn rejected_connect_changes_nothing() -> TestResult {
    let mut net = Network::new();
    let (p1, p2, child) = (
        net.create_node("p1", "x")?,
        net.create_node("p2", "x")?,
        net.create_node("c", "x")?,
    );
    let link = net.create_link("l")?;
    net.add_internal_link(p1, link)?;

    assert_eq!(
        net.connect(p2, child, Some(link)),
        Err(NetworkError::LinkOwnedElsewhere(link))
    );
    assert_eq!(node_of(&net, child).parent(), None);
    assert!(node_of(&net, p2).children().is_empty());
    assert!(link_of(&net, link).subscribers().is_empty());
    Ok(())
}

#[test]
fn subscribe_to_outside_link_leaves_hierarchy_alone() -> TestResult {
    let mut net = Network::new();
    let root = net.root();
    let wifi = net.create_link("wifi")?;
    let house = net.create_node("house", "building")?;
    let laptop = net.create_node("laptop", "computer")?;
    net.add_internal_link(root, wifi)?;
    net.connect(house, laptop, None)?;
    net.subscribe(laptop, wifi)?;
    net.subscribe(laptop, wifi)?; // idempotent
    assert_eq!(node_of(&net, laptop).parent(), Some(house));
    assert_eq!(link_of(&net, wifi).subscribers(), &[laptop]);
    Ok(())
}

#[test]
fn disconnect_leaves_parent_links_but_keeps_everything_else() -> TestResult {
    let mut net = Network::new();
    let pc = net.create_node("pc", "computer")?;
    let app = net.create_node("app", "app")?;
    let ipc = net.create_link("ipc")?;
    let wifi = net.create_link("wifi")?;
    net.connect(pc, app, Some(ipc))?;
    net.subscribe(app, wifi)?;

    net.disconnect(pc, app)?;
    assert_eq!(node_of(&net, app).parent(), None);
    assert!(node_of(&net, pc).children().is_empty());
    assert_eq!(node_of(&net, app).subscriptions(), &[wifi]);
    assert!(link_of(&net, ipc).subscribers().is_empty());
    assert_eq!(net.disconnect(pc, app), Err(NetworkError::NotAChild(app)));
    Ok(())
}

#[test]
fn stale_and_foreign_handles_are_rejected() {
    let mut net = Network::new();
    let root = net.root();
    let bogus = NodeId::from_raw(0xDEAD_BEEF_0000_0001);
    assert_eq!(
        net.connect(root, bogus, None),
        Err(NetworkError::UnknownNode(bogus))
    );
}

#[test]
fn raw_handles_round_trip_and_are_never_zero() -> TestResult {
    let mut net = Network::new();
    let node = net.create_node("n", "x")?;
    assert_ne!(node.to_raw(), 0);
    assert_eq!(NodeId::from_raw(node.to_raw()), node);
    assert!(net.node(NodeId::from_raw(0)).is_none());
    Ok(())
}

#[test]
fn removed_handles_never_come_to_mean_something_newer() -> TestResult {
    let mut net = Network::new();
    let mut spent: Vec<NodeId> = Vec::new();
    let mut spent_links: Vec<LinkId> = Vec::new();
    for _ in 0..50 {
        let node = net.create_node("n", "x")?;
        let link = net.create_link("l")?;
        assert!(!spent.contains(&node) && !spent_links.contains(&link));
        assert!(spent.iter().all(|&id| net.node(id).is_none()));
        assert!(spent_links.iter().all(|&id| net.link(id).is_none()));
        net.remove_node(node)?;
        net.remove_link(link)?;
        spent.push(node);
        spent_links.push(link);
    }
    // One slot was used over and over, at a new version each time.
    let slot = |id: NodeId| id.to_raw() & 0xffff_ffff;
    assert!(spent.iter().all(|&id| slot(id) == slot(spent[0])));
    assert_eq!(net.remove_node(spent[0]), Err(NetworkError::UnknownNode(spent[0])));
    Ok(())
}

#[test]
fn nodes_and_links_are_listed_in_creation_order() -> TestResult {
    let mut net = Network::new();
    let a = net.create_node("a", "device")?;
    let b = net.create_node("b", "device")?;
    let x = net.create_link("x")?;
    let y = net.create_link("y")?;
    net.remove_node(a)?;
    net.remove_link(x)?;
    // The new ones take the slots over, and come last all the same.
    let c = net.create_node("c", "device")?;
    let z = net.create_link("z")?;
    assert_eq!(c.to_raw() & 0xffff_ffff, a.to_raw() & 0xffff_ffff);
    assert_eq!(net.node_ids(), vec![net.root(), b, c]);
    assert_eq!(net.link_ids(), vec![y, z]);
    let names: Vec<&str> = net.nodes().iter().map(|(_, n)| n.name()).collect();
    assert_eq!(names, vec![".", "b", "c"]);
    let names: Vec<&str> = net.links().iter().map(|(_, l)| l.name()).collect();
    assert_eq!(names, vec!["y", "z"]);
    Ok(())
}

#[test]
fn integers_that_are_no_handles_are_kept_apart() {
    let net = Network::new();
    for raw in [1_u64, 2, 0x2_0000_0001, 0xffff_fffe_0000_0001] {
        assert_eq!(NodeId::from_raw(raw).to_raw(), raw);
        assert_eq!(LinkId::from_raw(raw).to_raw(), raw);
        assert!(net.node(NodeId::from_raw(raw)).is_none());
        assert!(net.link(LinkId::from_raw(raw)).is_none());
    }
    assert_ne!(NodeId::from_raw(1), NodeId::from_raw(2));
    assert_ne!(NodeId::from_raw(0).to_raw(), 0);
    // Messages show the key that an integer is read as.
    assert_eq!(NodeId::from_raw(1).to_text(), "NodeId(1v1)");
    assert_eq!(LinkId::from_raw(0x2_0000_0007).to_text(), "LinkId(7v3)");
}

#[test]
fn handles_for_the_slot_that_is_never_used_are_null() {
    for raw in [0x1_ffff_ffff_u64, 0x3_ffff_ffff, 0xffff_ffff_ffff_ffff] {
        let node = NodeId::from_raw(raw);
        assert_eq!(
            NetworkError::UnknownNode(node).to_string(),
            "unknown node NodeId(null)"
        );
        assert!(Network::new().node(node).is_none());
    }
    assert_eq!(
        NetworkError::UnknownNode(NodeId::from_raw(0x3_ffff_fffe)).to_string(),
        "unknown node NodeId(4294967294v3)"
    );
}
