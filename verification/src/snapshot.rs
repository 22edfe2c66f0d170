//! A read-only copy of a whole network, with handles as integers, indexed for lookups: what a
//! host displays or inspects.

use std::collections::HashMap;

use vstd::prelude::*;
use vstd::string::*;

use crate::ids::{LinkId, NodeId};
use crate::network::{ControlNode, Link};
use crate::report::About;
use crate::text::{decimal, joined, same_text};
use crate::world::World;

verus! {

broadcast use vstd::std_specs::hash::group_hash_axioms;

/// Version of the snapshot format.
pub const SNAPSHOT_FORMAT: u32 = 2;

/// A node.
#[derive(Debug, Clone)]
pub struct NodeEntry {
    /// Its handle.
    pub id: u64,
    /// Its name.
    pub name: String,
    /// What it is.
    pub kind: String,
    /// The node it is nested inside, if any.
    pub parent: Option<u64>,
    /// Nodes nested directly inside it.
    pub children: Vec<u64>,
    /// Links it owns.
    pub internal_links: Vec<u64>,
    /// Links it is attached to.
    pub subscriptions: Vec<u64>,
    /// Kind of attached logic, if any.
    pub logic: Option<String>,
    /// Packets it put on a link.
    pub sent: u64,
    /// Packet copies it accepted.
    pub received: u64,
}

/// A link.
#[derive(Debug, Clone)]
pub struct LinkEntry {
    /// Its handle.
    pub id: u64,
    /// Its name.
    pub name: String,
    /// The node it is internal to, if any.
    pub owner: Option<u64>,
    /// Nodes attached to it.
    pub subscribers: Vec<u64>,
}

/// A network as it is handed over, not indexed yet.
#[derive(Debug, Clone)]
pub struct RawSnapshot {
    /// Version of the format.
    pub format: u32,
    /// Ticks the world has run.
    pub tick: u64,
    /// The root node.
    pub root: u64,
    /// Every node, in creation order.
    pub nodes: Vec<NodeEntry>,
    /// Every link, in creation order.
    pub links: Vec<LinkEntry>,
}

/// The integer form of an optional handle.
pub open spec fn raw_of(id: Option<NodeId>) -> Option<u64> {
    match id {
        Some(id) => Some(id.spec_raw()),
        None => None,
    }
}

/// The integer forms of node handles.
pub open spec fn raw_nodes(ids: Seq<NodeId>) -> Seq<u64> {
    ids.map_values(|id: NodeId| id.spec_raw())
}

/// The integer forms of link handles.
pub open spec fn raw_links(ids: Seq<LinkId>) -> Seq<u64> {
    ids.map_values(|id: LinkId| id.spec_raw())
}

impl NodeEntry {
    /// Whether this describes the node `id` of `world`.
    pub open spec fn shows(self, world: crate::world::WorldView, id: NodeId) -> bool {
        let node = world.network.nodes[id];
        &&& self.id == id.spec_raw()
        &&& self.name@ == node.name
        &&& self.kind@ == node.kind
        &&& self.parent == raw_of(node.parent)
        &&& self.children@ == raw_nodes(node.children)
        &&& self.internal_links@ == raw_links(node.internal_links)
        &&& self.subscriptions@ == raw_links(node.subscriptions)
        &&& match self.logic {
            Some(kind) => world.logics.contains_key(id) && kind@ == world.logics[id].kind(),
            None => !world.logics.contains_key(id),
        }
        &&& self.sent == crate::world::stats_of(world.stats, id).sent
        &&& self.received == crate::world::stats_of(world.stats, id).received
    }
}

impl LinkEntry {
    /// Whether this describes the link `id` of `world`.
    pub open spec fn shows(self, world: crate::world::WorldView, id: LinkId) -> bool {
        let link = world.network.links[id];
        &&& self.id == id.spec_raw()
        &&& self.name@ == link.name
        &&& self.owner == raw_of(link.owner)
        &&& self.subscribers@ == raw_nodes(link.subscribers)
    }
}

/// Whether `entries` describes every node of `world`, in creation order.
pub open spec fn shows_nodes(entries: Seq<NodeEntry>, world: crate::world::WorldView) -> bool {
    let ids = world.network.node_order;
    &&& entries.len() == ids.len()
    &&& forall|i: int| 0 <= i < ids.len() ==> (#[trigger] entries[i]).shows(world, ids[i])
}

/// Whether `entries` describes every link of `world`, in creation order.
pub open spec fn shows_links(entries: Seq<LinkEntry>, world: crate::world::WorldView) -> bool {
    let ids = world.network.link_order;
    &&& entries.len() == ids.len()
    &&& forall|i: int| 0 <= i < ids.len() ==> (#[trigger] entries[i]).shows(world, ids[i])
}

/// The integer forms of node handles.
fn nodes(ids: &[NodeId]) -> (r: Vec<u64>)
    ensures
        r@ == raw_nodes(ids@),
{
    let mut out: Vec<u64> = Vec::new();
    let mut i: usize = 0;
    while i < ids.len()
        invariant
            i <= ids.len(),
            out@ == raw_nodes(ids@.take(i as int)),
        decreases ids.len() - i,
    {
        out.push(ids[i].to_raw());
        i += 1;
        assert(out@ =~= raw_nodes(ids@.take(i as int)));
    }
    assert(ids@.take(i as int) =~= ids@);
    out
}

/// The integer forms of link handles.
fn links(ids: &[LinkId]) -> (r: Vec<u64>)
    ensures
        r@ == raw_links(ids@),
{
    let mut out: Vec<u64> = Vec::new();
    let mut i: usize = 0;
    while i < ids.len()
        invariant
            i <= ids.len(),
            out@ == raw_links(ids@.take(i as int)),
        decreases ids.len() - i,
    {
        out.push(ids[i].to_raw());
        i += 1;
        assert(out@ =~= raw_links(ids@.take(i as int)));
    }
    assert(ids@.take(i as int) =~= ids@);
    out
}

/// Describes a node of `world`.
fn node_entry(world: &World, id: NodeId, node: &ControlNode) -> (r: NodeEntry)
    requires
        world@.network.nodes.contains_key(id),
        node@ == world@.network.nodes[id],
    ensures
        r.shows(world@, id),
{
    let stats = world.stats(id);
    NodeEntry {
        id: id.to_raw(),
        name: node.name().to_owned(),
        kind: node.kind().to_owned(),
        parent: match node.parent() {
            Some(p) => Some(p.to_raw()),
            None => None,
        },
        children: nodes(node.children()),
        internal_links: links(node.internal_links()),
        subscriptions: links(node.subscriptions()),
        logic: match world.logic_kind(id) {
            Some(kind) => Some(kind.to_owned()),
            None => None,
        },
        sent: stats.sent,
        received: stats.received,
    }
}

/// Describes a link of `world`.
fn link_entry(world: &World, id: LinkId, link: &Link) -> (r: LinkEntry)
    requires
        link@ == world@.network.links[id],
    ensures
        r.shows(world@, id),
{
    LinkEntry {
        id: id.to_raw(),
        name: link.name().to_owned(),
        owner: match link.owner() {
            Some(o) => Some(o.to_raw()),
            None => None,
        },
        subscribers: nodes(link.subscribers()),
    }
}

impl RawSnapshot {
    /// Whether this describes `world`.
    pub open spec fn shows(self, world: crate::world::WorldView) -> bool {
        &&& self.format == SNAPSHOT_FORMAT
        &&& self.tick == world.tick_count
        &&& self.root == world.network.root.spec_raw()
        &&& shows_nodes(self.nodes@, world)
        &&& shows_links(self.links@, world)
    }

    /// Describes `world`.
    pub fn of(world: &World) -> (r: Self)
        requires
            world@.network.inv(),
        ensures
            r.shows(world@),
    {
        let network = world.network();
        let mut nodes: Vec<NodeEntry> = Vec::new();
        let all_nodes = network.nodes();
        let ghost node_ids = world@.network.node_order;
        assert(node_ids == all_nodes@.map_values(|e: (NodeId, &ControlNode)| e.0));
        let mut i: usize = 0;
        while i < all_nodes.len()
            invariant
                i <= all_nodes.len(),
                network@ == world@.network,
                network@.inv(),
                node_ids == network@.node_order,
                node_ids == all_nodes@.map_values(|e: (NodeId, &ControlNode)| e.0),
                forall|j: int|
                    0 <= j < all_nodes@.len() ==> (#[trigger] all_nodes@[j]).1@
                        == network@.nodes[all_nodes@[j].0],
                nodes@.len() == i,
                forall|j: int| 0 <= j < i ==> (#[trigger] nodes@[j]).shows(world@, node_ids[j]),
            decreases all_nodes.len() - i,
        {
            let (id, node) = all_nodes[i];
            proof {
                assert(node_ids[i as int] == id);
                assert(node_ids.contains(id));
            }
            nodes.push(node_entry(world, id, node));
            i += 1;
        }
        let mut links: Vec<LinkEntry> = Vec::new();
        let all_links = network.links();
        let ghost link_ids = world@.network.link_order;
        assert(link_ids == all_links@.map_values(|e: (LinkId, &Link)| e.0));
        let mut k: usize = 0;
        while k < all_links.len()
            invariant
                k <= all_links.len(),
                network@ == world@.network,
                link_ids == all_links@.map_values(|e: (LinkId, &Link)| e.0),
                forall|j: int|
                    0 <= j < all_links@.len() ==> (#[trigger] all_links@[j]).1@
                        == network@.links[all_links@[j].0],
                links@.len() == k,
                forall|j: int| 0 <= j < k ==> (#[trigger] links@[j]).shows(world@, link_ids[j]),
            decreases all_links.len() - k,
        {
            let (id, link) = all_links[k];
            links.push(link_entry(world, id, link));
            k += 1;
        }
        RawSnapshot {
            format: SNAPSHOT_FORMAT,
            tick: world.tick_count(),
            root: network.root().to_raw(),
            nodes,
            links,
        }
    }
}

/// Why a snapshot could not be loaded.
#[derive(Debug, Clone, Copy, PartialEq, Eq, Structural)]
pub enum SnapshotError {
    /// The format is not one this crate understands.
    UnsupportedFormat(u32),
    /// The root is not among the nodes.
    MissingRoot,
}

impl SnapshotError {
    /// What went wrong, for people.
    pub fn to_string(&self) -> (r: String)
        ensures
            r@ == (match *self {
                SnapshotError::UnsupportedFormat(v) => "snapshot format "@
                    + crate::text::decimal_text(v as nat) + " is not supported (expected "@
                    + crate::text::decimal_text(SNAPSHOT_FORMAT as nat) + ")"@,
                SnapshotError::MissingRoot => "the root node is missing"@,
            }),
    {
        match self {
            SnapshotError::UnsupportedFormat(v) => {
                let mut out = "snapshot format ".to_owned();
                out.append(decimal(*v as u64).as_str());
                out.append(" is not supported (expected ");
                out.append(decimal(SNAPSHOT_FORMAT as u64).as_str());
                out.append(")");
                out
            },
            SnapshotError::MissingRoot => "the root node is missing".to_owned(),
        }
    }
}

/// Where the node `id` is among `nodes`: its last place, should there be several.
pub open spec fn node_place(nodes: Seq<NodeEntry>, id: u64) -> Option<int>
    decreases nodes.len(),
{
    if nodes.len() == 0 {
        None
    } else if nodes.last().id == id {
        Some(nodes.len() - 1)
    } else {
        node_place(nodes.drop_last(), id)
    }
}

/// Where the link `id` is among `links`: its last place, should there be several.
pub open spec fn link_place(links: Seq<LinkEntry>, id: u64) -> Option<int>
    decreases links.len(),
{
    if links.len() == 0 {
        None
    } else if links.last().id == id {
        Some(links.len() - 1)
    } else {
        link_place(links.drop_last(), id)
    }
}

/// A place is within the nodes, and holds the node.
pub proof fn lemma_node_place(nodes: Seq<NodeEntry>, id: u64)
    ensures
        match node_place(nodes, id) {
            Some(i) => 0 <= i < nodes.len() && nodes[i].id == id && forall|j: int|
                i < j < nodes.len() ==> (#[trigger] nodes[j]).id != id,
            None => forall|j: int| 0 <= j < nodes.len() ==> (#[trigger] nodes[j]).id != id,
        },
    decreases nodes.len(),
{
    if nodes.len() > 0 && nodes.last().id != id {
        lemma_node_place(nodes.drop_last(), id);
        let front = nodes.drop_last();
        assert forall|j: int| 0 <= j < front.len() implies front[j] == nodes[j] by {}
        assert forall|j: int|
            (node_place(nodes, id) matches Some(i) ==> i < j) && 0 <= j < nodes.len() implies (
        #[trigger] nodes[j]).id != id by {
            if j < front.len() {
                assert(front[j] == nodes[j]);
            }
        }
    }
}

/// A place is within the links, and holds the link.
pub proof fn lemma_link_place(links: Seq<LinkEntry>, id: u64)
    ensures
        match link_place(links, id) {
            Some(i) => 0 <= i < links.len() && links[i].id == id && forall|j: int|
                i < j < links.len() ==> (#[trigger] links[j]).id != id,
            None => forall|j: int| 0 <= j < links.len() ==> (#[trigger] links[j]).id != id,
        },
    decreases links.len(),
{
    if links.len() > 0 && links.last().id != id {
        lemma_link_place(links.drop_last(), id);
        let front = links.drop_last();
        assert forall|j: int| 0 <= j < front.len() implies front[j] == links[j] by {}
        assert forall|j: int|
            (link_place(links, id) matches Some(i) ==> i < j) && 0 <= j < links.len() implies (
        #[trigger] links[j]).id != id by {
            if j < front.len() {
                assert(front[j] == links[j]);
            }
        }
    }
}

/// The first of `nodes` with this name.
pub open spec fn first_named(nodes: Seq<NodeEntry>, name: Seq<char>) -> Option<u64>
    decreases nodes.len(),
{
    if nodes.len() == 0 {
        None
    } else if nodes[0].name@ == name {
        Some(nodes[0].id)
    } else {
        first_named(nodes.drop_first(), name)
    }
}

/// The first of `links` with this name.
pub open spec fn first_link_named(links: Seq<LinkEntry>, name: Seq<char>) -> Option<u64>
    decreases links.len(),
{
    if links.len() == 0 {
        None
    } else if links[0].name@ == name {
        Some(links[0].id)
    } else {
        first_link_named(links.drop_first(), name)
    }
}

/// How many of `nodes` have this name.
pub open spec fn named_count(nodes: Seq<NodeEntry>, name: Seq<char>) -> nat
    decreases nodes.len(),
{
    if nodes.len() == 0 {
        0
    } else {
        named_count(nodes.drop_last(), name) + if nodes.last().name@ == name {
            1nat
        } else {
            0
        }
    }
}

/// What a [`Snapshot`] holds.
#[verifier::ext_equal]
pub struct SnapView {
    pub tick: u64,
    pub root: u64,
    pub nodes: Seq<NodeEntry>,
    pub links: Seq<LinkEntry>,
}

impl SnapView {
    /// The node with this handle.
    pub open spec fn node(self, id: u64) -> Option<NodeEntry> {
        match node_place(self.nodes, id) {
            Some(i) => Some(self.nodes[i]),
            None => None,
        }
    }

    /// The link with this handle.
    pub open spec fn link(self, id: u64) -> Option<LinkEntry> {
        match link_place(self.links, id) {
            Some(i) => Some(self.links[i]),
            None => None,
        }
    }

    /// A node's name, or `?`.
    pub open spec fn node_name(self, id: u64) -> Seq<char> {
        match self.node(id) {
            Some(n) => n.name@,
            None => "?"@,
        }
    }

    /// A link's name, or `?`.
    pub open spec fn link_name(self, id: u64) -> Seq<char> {
        match self.link(id) {
            Some(l) => l.name@,
            None => "?"@,
        }
    }

    /// What a node is called in the display: the root is the world.
    pub open spec fn shown_name(self, id: u64) -> Seq<char> {
        if id == self.root {
            "world"@
        } else {
            self.node_name(id)
        }
    }

    /// What an alert's subject is called in the display.
    pub open spec fn subject_name(self, subject: Option<About>) -> Seq<char> {
        match subject {
            Some(About::Node(n)) => self.shown_name(n),
            Some(About::Link(l)) => "link "@ + self.link_name(l),
            None => "network"@,
        }
    }

    /// The node a node is nested inside.
    pub open spec fn parent(self, id: u64) -> Option<u64> {
        match self.node(id) {
            Some(n) => n.parent,
            None => None,
        }
    }

    /// `id`, the node it is inside, the node that is inside, and so on, at most `n` of them.
    pub open spec fn upwards(self, id: u64, n: nat) -> Seq<u64>
        decreases n,
    {
        if n == 0 {
            Seq::empty()
        } else {
            seq![id] + match self.parent(id) {
                Some(p) => self.upwards(p, (n - 1) as nat),
                None => Seq::empty(),
            }
        }
    }

    /// Root first, down to and including `id`.
    pub open spec fn path_to(self, id: u64) -> Seq<u64> {
        self.upwards(id, self.nodes.len()).reverse()
    }

    /// `id`, or the node it is nested in at any depth up to `n`, whichever is a child of `scope`.
    pub open spec fn within(self, scope: u64, id: u64, n: nat) -> Option<u64>
        decreases n,
    {
        if n == 0 {
            None
        } else {
            match self.parent(id) {
                Some(p) => if p == scope {
                    Some(id)
                } else {
                    self.within(scope, p, (n - 1) as nat)
                },
                None => None,
            }
        }
    }

    /// How many nodes are nested below `id`, down to `depth` levels.
    pub open spec fn nested(self, id: u64, depth: nat) -> nat
        decreases depth, 0nat,
    {
        if depth == 0 {
            0
        } else {
            match self.node(id) {
                Some(n) => self.nested_in(n.children@, (depth - 1) as nat),
                None => 0,
            }
        }
    }

    /// How many nodes `ids` are, with what is nested below them, down to `depth` levels.
    pub open spec fn nested_in(self, ids: Seq<u64>, depth: nat) -> nat
        decreases depth, ids.len(),
    {
        if ids.len() == 0 {
            0
        } else {
            self.nested_in(ids.drop_last(), depth) + 1 + self.nested(ids.last(), depth)
        }
    }

    /// Whether no node is nested inside itself: every node is nearer to the bottom than its
    /// parent, and nothing is further from it than there are nodes.
    pub open spec fn layered(self, height: spec_fn(u64) -> nat) -> bool {
        &&& forall|id: u64| #[trigger] height(id) <= self.nodes.len()
        &&& forall|id: u64, i: int|
            self.node(id) is Some && 0 <= i < self.node(id)->0.children@.len() ==> height(
                #[trigger] self.node(id)->0.children@[i],
            ) < height(id)
    }
}

/// A count that goes up to what a counter can hold.
pub open spec fn at_most(n: nat) -> usize {
    if n > usize::MAX {
        usize::MAX
    } else {
        n as usize
    }
}

/// A read-only copy of the whole network, with lookups by handle.
#[derive(Debug)]
pub struct Snapshot {
    tick: u64,
    root: u64,
    nodes: Vec<NodeEntry>,
    links: Vec<LinkEntry>,
    node_index: HashMap<u64, usize>,
    link_index: HashMap<u64, usize>,
}

impl View for Snapshot {
    type V = SnapView;

    closed spec fn view(&self) -> SnapView {
        SnapView { tick: self.tick, root: self.root, nodes: self.nodes@, links: self.links@ }
    }
}

/// Whether `index` says where each of `nodes` is.
spec fn indexes_nodes(index: Map<u64, usize>, nodes: Seq<NodeEntry>) -> bool {
    forall|id: u64|
        match node_place(nodes, id) {
            Some(i) => #[trigger] index.contains_key(id) && index[id] == i,
            None => !index.contains_key(id),
        }
}

/// Whether `index` says where each of `links` is.
spec fn indexes_links(index: Map<u64, usize>, links: Seq<LinkEntry>) -> bool {
    forall|id: u64|
        match link_place(links, id) {
            Some(i) => #[trigger] index.contains_key(id) && index[id] == i,
            None => !index.contains_key(id),
        }
}

/// Where each node is.
fn index_nodes(nodes: &Vec<NodeEntry>) -> (r: HashMap<u64, usize>)
    ensures
        indexes_nodes(r@, nodes@),
{
    let mut index: HashMap<u64, usize> = HashMap::new();
    let mut i: usize = 0;
    while i < nodes.len()
        invariant
            i <= nodes.len(),
            indexes_nodes(index@, nodes@.take(i as int)),
        decreases nodes.len() - i,
    {
        let ghost before = index@;
        index.insert(nodes[i].id, i);
        i += 1;
        let ghost now = nodes@.take(i as int);
        assert(now.drop_last() =~= nodes@.take(i - 1));
        assert forall|id: u64|
            match node_place(now, id) {
                Some(i) => #[trigger] index@.contains_key(id) && index@[id] == i,
                None => !index@.contains_key(id),
            } by {
            assert(before.contains_key(id) == (node_place(now.drop_last(), id) is Some));
        }
    }
    assert(nodes@.take(i as int) =~= nodes@);
    index
}

/// Where each link is.
fn index_links(links: &Vec<LinkEntry>) -> (r: HashMap<u64, usize>)
    ensures
        indexes_links(r@, links@),
{
    let mut index: HashMap<u64, usize> = HashMap::new();
    let mut i: usize = 0;
    while i < links.len()
        invariant
            i <= links.len(),
            indexes_links(index@, links@.take(i as int)),
        decreases links.len() - i,
    {
        let ghost before = index@;
        index.insert(links[i].id, i);
        i += 1;
        let ghost now = links@.take(i as int);
        assert(now.drop_last() =~= links@.take(i - 1));
        assert forall|id: u64|
            match link_place(now, id) {
                Some(i) => #[trigger] index@.contains_key(id) && index@[id] == i,
                None => !index@.contains_key(id),
            } by {
            assert(before.contains_key(id) == (link_place(now.drop_last(), id) is Some));
        }
    }
    assert(links@.take(i as int) =~= links@);
    index
}

impl Snapshot {
    #[verifier::type_invariant]
    spec fn indexed(self) -> bool {
        &&& indexes_nodes(self.node_index@, self.nodes@)
        &&& indexes_links(self.link_index@, self.links@)
    }

    /// Indexes a snapshot, where its format is understood and its root is there.
    pub fn load(raw: RawSnapshot) -> (r: Result<Self, SnapshotError>)
        ensures
            match r {
                Ok(snap) => 1 <= raw.format <= SNAPSHOT_FORMAT && node_place(
                    raw.nodes@,
                    raw.root,
                ) is Some && snap@ == (SnapView {
                    tick: raw.tick,
                    root: raw.root,
                    nodes: raw.nodes@,
                    links: raw.links@,
                }),
                Err(SnapshotError::UnsupportedFormat(v)) => !(1 <= raw.format <= SNAPSHOT_FORMAT)
                    && v == raw.format,
                Err(SnapshotError::MissingRoot) => 1 <= raw.format <= SNAPSHOT_FORMAT
                    && node_place(raw.nodes@, raw.root) is None,
            },
    {
        if raw.format < 1 || raw.format > SNAPSHOT_FORMAT {
            return Err(SnapshotError::UnsupportedFormat(raw.format));
        }
        let node_index = index_nodes(&raw.nodes);
        let link_index = index_links(&raw.links);
        let snapshot = Snapshot {
            tick: raw.tick,
            root: raw.root,
            nodes: raw.nodes,
            links: raw.links,
            node_index,
            link_index,
        };
        if snapshot.node(snapshot.root).is_none() {
            return Err(SnapshotError::MissingRoot);
        }
        Ok(snapshot)
    }

    /// Ticks the world had run.
    pub fn tick(&self) -> (r: u64)
        ensures
            r == self@.tick,
    {
        self.tick
    }

    /// The root node.
    pub fn root(&self) -> (r: u64)
        ensures
            r == self@.root,
    {
        self.root
    }

    /// The node with this handle.
    pub fn node(&self, id: u64) -> (r: Option<&NodeEntry>)
        ensures
            match r {
                Some(n) => self@.node(id) == Some(*n),
                None => self@.node(id) is None,
            },
    {
        proof {
            use_type_invariant(self);
            lemma_node_place(self.nodes@, id);
            assert(self.node_index@.contains_key(id) == (node_place(self.nodes@, id) is Some));
        }
        match self.node_index.get(&id) {
            Some(i) => Some(&self.nodes[*i]),
            None => None,
        }
    }

    /// The link with this handle.
    pub fn link(&self, id: u64) -> (r: Option<&LinkEntry>)
        ensures
            match r {
                Some(l) => self@.link(id) == Some(*l),
                None => self@.link(id) is None,
            },
    {
        proof {
            use_type_invariant(self);
            lemma_link_place(self.links@, id);
            assert(self.link_index@.contains_key(id) == (link_place(self.links@, id) is Some));
        }
        match self.link_index.get(&id) {
            Some(i) => Some(&self.links[*i]),
            None => None,
        }
    }

    /// How many nodes there are.
    pub fn node_count(&self) -> (r: usize)
        ensures
            r == self@.nodes.len(),
    {
        self.nodes.len()
    }

    /// How many links there are.
    pub fn link_count(&self) -> (r: usize)
        ensures
            r == self@.links.len(),
    {
        self.links.len()
    }

    /// A node's name, or `?`.
    pub fn node_name(&self, id: u64) -> (r: &str)
        ensures
            r@ == self@.node_name(id),
    {
        match self.node(id) {
            Some(n) => n.name.as_str(),
            None => "?",
        }
    }

    /// A link's name, or `?`.
    pub fn link_name(&self, id: u64) -> (r: &str)
        ensures
            r@ == self@.link_name(id),
    {
        match self.link(id) {
            Some(l) => l.name.as_str(),
            None => "?",
        }
    }

    /// What a node is called in the display: the root is the world.
    pub fn name_of(&self, id: u64) -> (r: &str)
        ensures
            r@ == self@.shown_name(id),
    {
        if id == self.root {
            "world"
        } else {
            self.node_name(id)
        }
    }

    /// What an alert's subject is called in the display.
    pub fn subject_name(&self, subject: Option<About>) -> (r: String)
        ensures
            r@ == self@.subject_name(subject),
    {
        match subject {
            Some(About::Node(n)) => self.name_of(n).to_owned(),
            Some(About::Link(l)) => joined("link ", self.link_name(l)),
            None => "network".to_owned(),
        }
    }

    /// The first node (in creation order) with this name.
    pub fn find_node(&self, name: &str) -> (r: Option<u64>)
        ensures
            r == first_named(self@.nodes, name@),
    {
        let mut i: usize = 0;
        assert(self.nodes@.skip(0) =~= self.nodes@);
        while i < self.nodes.len()
            invariant
                i <= self.nodes.len(),
                first_named(self.nodes@, name@) == first_named(self.nodes@.skip(i as int), name@),
            decreases self.nodes.len() - i,
        {
            if same_text(self.nodes[i].name.as_str(), name) {
                return Some(self.nodes[i].id);
            }
            assert(self.nodes@.skip(i as int).drop_first() =~= self.nodes@.skip(i + 1));
            i += 1;
        }
        None
    }

    /// How many nodes have this name.
    pub fn nodes_named(&self, name: &str) -> (r: usize)
        ensures
            r == named_count(self@.nodes, name@),
    {
        let mut n: usize = 0;
        let mut i: usize = 0;
        while i < self.nodes.len()
            invariant
                i <= self.nodes.len(),
                n <= i,
                n == named_count(self.nodes@.take(i as int), name@),
            decreases self.nodes.len() - i,
        {
            assert(self.nodes@.take(i + 1).drop_last() =~= self.nodes@.take(i as int));
            if same_text(self.nodes[i].name.as_str(), name) {
                n += 1;
            }
            i += 1;
        }
        assert(self.nodes@.take(i as int) =~= self.nodes@);
        n
    }

    /// The first link (in creation order) with this name.
    pub fn find_link(&self, name: &str) -> (r: Option<u64>)
        ensures
            r == first_link_named(self@.links, name@),
    {
        let mut i: usize = 0;
        assert(self.links@.skip(0) =~= self.links@);
        while i < self.links.len()
            invariant
                i <= self.links.len(),
                first_link_named(self.links@, name@) == first_link_named(
                    self.links@.skip(i as int),
                    name@,
                ),
            decreases self.links.len() - i,
        {
            if same_text(self.links[i].name.as_str(), name) {
                return Some(self.links[i].id);
            }
            assert(self.links@.skip(i as int).drop_first() =~= self.links@.skip(i + 1));
            i += 1;
        }
        None
    }

    /// The node a node is nested inside.
    pub fn parent_of(&self, id: u64) -> (r: Option<u64>)
        ensures
            r == self@.parent(id),
    {
        match self.node(id) {
            Some(n) => n.parent,
            None => None,
        }
    }

    /// Root first, down to and including `id`.
    pub fn path_to(&self, id: u64) -> (r: Vec<u64>)
        ensures
            r@ == self@.path_to(id),
    {
        let total: usize = self.nodes.len();
        let mut up: Vec<u64> = Vec::new();
        let mut next: Option<u64> = Some(id);
        let mut left: usize = total;
        let ghost all = self@.upwards(id, total as nat);
        while left > 0 && next.is_some()
            invariant
                left <= total,
                all == up@ + (match next {
                    Some(n) => self@.upwards(n, left as nat),
                    None => Seq::empty(),
                }),
            decreases left,
        {
            if let Some(n) = next {
                let ghost was = up@;
                up.push(n);
                next = self.parent_of(n);
                left -= 1;
                proof {
                    let rest = match next {
                        Some(p) => self@.upwards(p, left as nat),
                        None => Seq::empty(),
                    };
                    assert(was + (seq![n] + rest) =~= was.push(n) + rest);
                }
            }
        }
        assert(all =~= up@);
        let mut path: Vec<u64> = Vec::new();
        let mut i: usize = up.len();
        while i > 0
            invariant
                i <= up.len(),
                path@ == up@.skip(i as int).reverse(),
            decreases i,
        {
            i -= 1;
            path.push(up[i]);
            assert(path@ =~= up@.skip(i as int).reverse());
        }
        assert(up@.skip(0) =~= up@);
        path
    }

    /// Where a node appears when looking inside `scope`: itself if it is a child of `scope`, or
    /// the child that contains it. Nothing for `scope` itself and for what is outside it.
    pub fn child_of_scope_containing(&self, scope: u64, node: u64) -> (r: Option<u64>)
        ensures
            r == self@.within(scope, node, self@.nodes.len()),
    {
        let mut at: u64 = node;
        let mut left: usize = self.nodes.len();
        while left > 0
            invariant
                left <= self.nodes.len(),
                self@.within(scope, node, self@.nodes.len()) == self@.within(
                    scope,
                    at,
                    left as nat,
                ),
            decreases left,
        {
            match self.parent_of(at) {
                Some(p) => {
                    if p == scope {
                        return Some(at);
                    }
                    at = p;
                    left -= 1;
                },
                None => {
                    return None;
                },
            }
        }
        None
    }

    /// How many nodes are nested below `id`, down to `depth` levels.
    fn nested(&self, id: u64, depth: usize) -> (r: usize)
        ensures
            r == at_most(self@.nested(id, depth as nat)),
        decreases depth,
    {
        if depth == 0 {
            return 0;
        }
        let children = match self.node(id) {
            Some(n) => &n.children,
            None => {
                return 0;
            },
        };
        let mut total: usize = 0;
        let mut i: usize = 0;
        while i < children.len()
            invariant
                i <= children.len(),
                depth > 0,
                total == at_most(self@.nested_in(children@.take(i as int), (depth - 1) as nat)),
            decreases children.len() - i,
        {
            let below = self.nested(children[i], depth - 1);
            total = total.saturating_add(1).saturating_add(below);
            i += 1;
            assert(children@.take(i as int).drop_last() =~= children@.take(i - 1));
        }
        assert(children@.take(i as int) =~= children@);
        total
    }

    /// Number of nodes nested anywhere below `id`.
    pub fn descendant_count(&self, id: u64) -> (r: usize)
        ensures
            r == at_most(self@.nested(id, self@.nodes.len())),
    {
        self.nested(id, self.nodes.len())
    }
}

/// Looking up a handle in a world's snapshot gives the node it stands for, and nothing where it
/// stands for none.
pub proof fn law_snapshot_finds_every_node(
    raw: RawSnapshot,
    snap: SnapView,
    world: crate::world::WorldView,
    id: NodeId,
)
    requires
        world.network.inv(),
        raw.shows(world),
        snap.nodes == raw.nodes@,
    ensures
        match snap.node(id.spec_raw()) {
            Some(entry) => world.network.nodes.contains_key(id) && entry.shows(world, id),
            None => !world.network.nodes.contains_key(id),
        },
{
    let ids = world.network.node_order;
    lemma_node_place(snap.nodes, id.spec_raw());
    match node_place(snap.nodes, id.spec_raw()) {
        Some(i) => {
            assert(snap.nodes[i].shows(world, ids[i]));
            crate::ids::law_node_raw_round_trip(ids[i], id);
            assert(ids.contains(ids[i]));
        },
        None => {
            if world.network.nodes.contains_key(id) {
                assert(ids.contains(id));
                let i = ids.index_of(id);
                assert(raw.nodes@[i].shows(world, ids[i]));
            }
        },
    }
}

/// A world's snapshot is one that can be loaded.
pub proof fn law_snapshot_of_a_world_loads(raw: RawSnapshot, world: crate::world::WorldView)
    requires
        world.network.inv(),
        raw.shows(world),
    ensures
        1 <= raw.format <= SNAPSHOT_FORMAT,
        node_place(raw.nodes@, raw.root) is Some,
{
    let snap = SnapView {
        tick: raw.tick,
        root: raw.root,
        nodes: raw.nodes@,
        links: raw.links@,
    };
    law_snapshot_finds_every_node(raw, snap, world, world.network.root);
}

/// Going up from `id`, every node is the parent of the one before.
proof fn lemma_upwards(snap: SnapView, id: u64, n: nat)
    requires
        n > 0,
    ensures
        snap.upwards(id, n).len() > 0,
        snap.upwards(id, n)[0] == id,
        forall|i: int|
            0 < i < snap.upwards(id, n).len() ==> snap.parent(snap.upwards(id, n)[i - 1]) == Some(
                #[trigger] snap.upwards(id, n)[i],
            ),
    decreases n,
{
    reveal_with_fuel(SnapView::upwards, 2);
    if n > 1 {
        if let Some(p) = snap.parent(id) {
            let rest = snap.upwards(p, (n - 1) as nat);
            lemma_upwards(snap, p, (n - 1) as nat);
            let all = snap.upwards(id, n);
            assert(all =~= seq![id] + rest);
            assert forall|i: int| 0 < i < all.len() implies snap.parent(all[i - 1]) == Some(
                #[trigger] all[i],
            ) by {
                assert(all[i] == rest[i - 1]);
                if i > 1 {
                    assert(all[i - 1] == rest[i - 2]);
                }
            }
        }
    }
}

/// A path leads down to its node: it ends there, and each step is from a node to one nested
/// directly inside it.
pub proof fn law_paths_lead_down(snap: SnapView, id: u64)
    requires
        snap.nodes.len() > 0,
    ensures
        snap.path_to(id).len() > 0,
        snap.path_to(id).last() == id,
        forall|i: int|
            0 < i < snap.path_to(id).len() ==> snap.parent(#[trigger] snap.path_to(id)[i]) == Some(
                snap.path_to(id)[i - 1],
            ),
{
    let up = snap.upwards(id, snap.nodes.len());
    lemma_upwards(snap, id, snap.nodes.len());
    let path = snap.path_to(id);
    assert forall|i: int| 0 < i < path.len() implies snap.parent(#[trigger] path[i]) == Some(
        path[i - 1],
    ) by {
        let k = path.len() - i;
        assert(up[k] == path[i - 1]);
        assert(up[k - 1] == path[i]);
    }
}

/// Looking deeper than a node is high finds nothing more below it.
proof fn lemma_nested_settles(
    snap: SnapView,
    height: spec_fn(u64) -> nat,
    id: u64,
    depth: nat,
    deeper: nat,
)
    requires
        snap.layered(height),
        height(id) <= depth <= deeper,
    ensures
        snap.nested(id, depth) == snap.nested(id, deeper),
    decreases depth, 0nat,
{
    if let Some(n) = snap.node(id) {
        if depth == 0 {
            if n.children@.len() > 0 {
                assert(height(snap.node(id)->0.children@[0]) < height(id));
            }
            assert(n.children@ =~= Seq::<u64>::empty());
            assert(snap.nested(id, deeper) == 0);
        } else {
            assert forall|i: int| 0 <= i < n.children@.len() implies height(
                #[trigger] n.children@[i],
            ) <= depth - 1 by {
                assert(height(snap.node(id)->0.children@[i]) < height(id));
            }
            lemma_nested_in_settles(
                snap,
                height,
                n.children@,
                (depth - 1) as nat,
                (deeper - 1) as nat,
            );
        }
    }
}

/// Looking deeper than nodes are high finds nothing more below them.
proof fn lemma_nested_in_settles(
    snap: SnapView,
    height: spec_fn(u64) -> nat,
    ids: Seq<u64>,
    depth: nat,
    deeper: nat,
)
    requires
        snap.layered(height),
        depth <= deeper,
        forall|i: int| 0 <= i < ids.len() ==> height(#[trigger] ids[i]) <= depth,
    ensures
        snap.nested_in(ids, depth) == snap.nested_in(ids, deeper),
    decreases depth, ids.len(),
{
    if ids.len() > 0 {
        assert(height(ids[ids.len() - 1]) <= depth);
        assert forall|i: int| 0 <= i < ids.drop_last().len() implies height(
            #[trigger] ids.drop_last()[i],
        ) <= depth by {
            assert(height(ids[i]) <= depth);
        }
        lemma_nested_in_settles(snap, height, ids.drop_last(), depth, deeper);
        lemma_nested_settles(snap, height, ids.last(), depth, deeper);
    }
}

/// Where no node is nested inside itself, a node's descendants are its children with all of
/// theirs: none is too deep to be counted.
pub proof fn law_descendants_are_all_counted(
    snap: SnapView,
    height: spec_fn(u64) -> nat,
    id: u64,
)
    requires
        snap.layered(height),
        snap.node(id) is Some,
    ensures
        snap.nested(id, snap.nodes.len()) == snap.nested_in(
            snap.node(id)->0.children@,
            snap.nodes.len(),
        ),
{
    let all = snap.nodes.len();
    assert(height(id) <= all);
    lemma_nested_settles(snap, height, id, all, all + 1);
}

} // verus!
