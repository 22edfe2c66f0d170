//! The node/link graph: a tree of nodes plus the links between them.

use vstd::prelude::*;
use vstd::string::*;

use crate::ids::{LinkId, NodeId};
use crate::lists::{copied, holds, leaving_out, leaving_out_one};
use crate::names;
use crate::slots::{LinkSlots, NodeSlots};
use crate::text::{chars_of, same_text};

verus! {

/// A node in the network: a device, a service, an app, or a container of other nodes.
///
/// Nodes form a tree. Each node has at most one parent, may own *internal links* for its children
/// to talk over, and may subscribe to any number of links (its own children's links are the
/// usual case, but a node can also join links owned elsewhere, like a laptop joining a Wi-Fi
/// zone).
///
/// Behaviour is attached to nodes by a [`World`](crate::world::World); `kind` is a free-form
/// label.
#[derive(Debug)]
pub struct ControlNode {
    name: String,
    kind: String,
    parent: Option<NodeId>,
    children: Vec<NodeId>,
    internal_links: Vec<LinkId>,
    subscriptions: Vec<LinkId>,
}

impl View for ControlNode {
    type V = crate::graph::NodeView;

    closed spec fn view(&self) -> crate::graph::NodeView {
        crate::graph::NodeView {
            name: self.name@,
            kind: self.kind@,
            parent: self.parent,
            children: self.children@,
            internal_links: self.internal_links@,
            subscriptions: self.subscriptions@,
        }
    }
}

impl ControlNode {
    fn new(name: &str, kind: &str) -> (r: Self)
        ensures
            r@ == (crate::graph::NodeView {
                name: name@,
                kind: kind@,
                parent: None,
                children: Seq::empty(),
                internal_links: Seq::empty(),
                subscriptions: Seq::empty(),
            }),
    {
        ControlNode {
            name: name.to_owned(),
            kind: kind.to_owned(),
            parent: None,
            children: Vec::new(),
            internal_links: Vec::new(),
            subscriptions: Vec::new(),
        }
    }

    /// The node's name, used for routing. Unique among the subscribers of each link it is on.
    pub fn name(&self) -> (r: &str)
        ensures
            r@ == self@.name,
    {
        self.name.as_str()
    }

    /// Free-form label describing what the node is, such as `"computer"` or `"app"`.
    pub fn kind(&self) -> (r: &str)
        ensures
            r@ == self@.kind,
    {
        self.kind.as_str()
    }

    /// The node this one is nested inside, if any.
    pub fn parent(&self) -> (r: Option<NodeId>)
        ensures
            r == self@.parent,
    {
        self.parent
    }

    /// Nodes nested directly inside this one, in the order they were connected.
    pub fn children(&self) -> (r: &[NodeId])
        ensures
            r@ == self@.children,
    {
        self.children.as_slice()
    }

    /// Links owned by this node, used by its children to talk to each other.
    pub fn internal_links(&self) -> (r: &[LinkId])
        ensures
            r@ == self@.internal_links,
    {
        self.internal_links.as_slice()
    }

    /// Links this node is attached to, in the order it subscribed.
    pub fn subscriptions(&self) -> (r: &[LinkId])
        ensures
            r@ == self@.subscriptions,
    {
        self.subscriptions.as_slice()
    }
}

/// A shared broadcast medium, such as a Wi-Fi zone, a cable, or a computer's internal bus.
///
/// A link is not a point-to-point pipe: any number of nodes can subscribe to it.
#[derive(Debug)]
pub struct Link {
    name: String,
    owner: Option<NodeId>,
    subscribers: Vec<NodeId>,
}

impl View for Link {
    type V = crate::graph::LinkView;

    closed spec fn view(&self) -> crate::graph::LinkView {
        crate::graph::LinkView {
            name: self.name@,
            owner: self.owner,
            subscribers: self.subscribers@,
        }
    }
}

impl Link {
    /// The link's name, used for routing.
    pub fn name(&self) -> (r: &str)
        ensures
            r@ == self@.name,
    {
        self.name.as_str()
    }

    /// The node this link is internal to. `None` until it is attached to one.
    pub fn owner(&self) -> (r: Option<NodeId>)
        ensures
            r == self@.owner,
    {
        self.owner
    }

    /// Nodes attached to this link, in the order they subscribed.
    pub fn subscribers(&self) -> (r: &[NodeId])
        ensures
            r@ == self@.subscribers,
    {
        self.subscribers.as_slice()
    }
}

/// Why a [`Network`] operation was rejected. A rejected operation changes nothing.
#[derive(Debug, Clone, Copy, PartialEq, Eq, Structural)]
#[non_exhaustive]
pub enum NetworkError {
    /// The node handle does not refer to a node in this network.
    UnknownNode(NodeId),
    /// The link handle does not refer to a link in this network.
    UnknownLink(LinkId),
    /// The node already has a different parent. Disconnect it first.
    AlreadyHasParent(NodeId),
    /// The operation would make a node its own ancestor.
    WouldCreateCycle,
    /// The root node cannot be given a parent or removed.
    IsRoot,
    /// The link is already internal to a different node.
    LinkOwnedElsewhere(LinkId),
    /// The node is not a child of the given parent.
    NotAChild(NodeId),
    /// A node or link name is empty, reserved, or holds route syntax, control characters or
    /// whitespace at either end.
    InvalidName,
    /// The name is taken: another subscriber of the link has the node's name, or another internal
    /// link of the owner has the link's name.
    NameConflict {
        /// The link involved.
        link: LinkId,
    },
}

impl NetworkError {
    /// The problem in words.
    pub open spec fn text(self) -> Seq<char> {
        match self {
            NetworkError::UnknownNode(id) => "unknown node "@ + id.text(),
            NetworkError::UnknownLink(id) => "unknown link "@ + id.text(),
            NetworkError::AlreadyHasParent(id) => "node "@ + id.text()
                + " already has a parent"@,
            NetworkError::WouldCreateCycle => "a node cannot be nested inside itself"@,
            NetworkError::IsRoot => "the root node cannot have a parent"@,
            NetworkError::LinkOwnedElsewhere(id) => "link "@ + id.text()
                + " is already internal to another node"@,
            NetworkError::NotAChild(id) => "node "@ + id.text()
                + " is not a child of that parent"@,
            NetworkError::InvalidName => "the name is not valid"@,
            NetworkError::NameConflict { link } => "the name is already taken on link "@
                + link.text(),
        }
    }

    /// The problem in words, for people.
    pub fn to_string(&self) -> (r: String)
        ensures
            r@ == self.text(),
    {
        match *self {
            NetworkError::UnknownNode(id) => {
                let mut out = "unknown node ".to_owned();
                out.append(id.to_text().as_str());
                out
            },
            NetworkError::UnknownLink(id) => {
                let mut out = "unknown link ".to_owned();
                out.append(id.to_text().as_str());
                out
            },
            NetworkError::AlreadyHasParent(id) => {
                let mut out = "node ".to_owned();
                out.append(id.to_text().as_str());
                out.append(" already has a parent");
                out
            },
            NetworkError::WouldCreateCycle => "a node cannot be nested inside itself".to_owned(),
            NetworkError::IsRoot => "the root node cannot have a parent".to_owned(),
            NetworkError::LinkOwnedElsewhere(id) => {
                let mut out = "link ".to_owned();
                out.append(id.to_text().as_str());
                out.append(" is already internal to another node");
                out
            },
            NetworkError::NotAChild(id) => {
                let mut out = "node ".to_owned();
                out.append(id.to_text().as_str());
                out.append(" is not a child of that parent");
                out
            },
            NetworkError::InvalidName => "the name is not valid".to_owned(),
            NetworkError::NameConflict { link } => {
                let mut out = "the name is already taken on link ".to_owned();
                out.append(link.to_text().as_str());
                out
            },
        }
    }
}

/// The whole node/link graph: a tree of [`ControlNode`]s plus the [`Link`]s between them.
///
/// Every network has a root node, named [`Network::ROOT_NAME`], that everything else is
/// ultimately connected under. Links owned by the root are "world" links.
pub struct Network {
    nodes: NodeSlots,
    links: LinkSlots,
    root: NodeId,
    /// The nodes in the order in which they were created.
    node_order: Vec<NodeId>,
    /// The links in the order in which they were created.
    link_order: Vec<LinkId>,
}

/// The nodes' contents.
pub open spec fn node_views(m: Map<NodeId, ControlNode>) -> Map<NodeId, crate::graph::NodeView> {
    Map::new(|id: NodeId| m.contains_key(id), |id: NodeId| m[id]@)
}

/// The links' contents.
pub open spec fn link_views(m: Map<LinkId, Link>) -> Map<LinkId, crate::graph::LinkView> {
    Map::new(|id: LinkId| m.contains_key(id), |id: LinkId| m[id]@)
}

impl View for Network {
    type V = crate::graph::NetView;

    closed spec fn view(&self) -> crate::graph::NetView {
        crate::graph::NetView {
            nodes: node_views(crate::slots::node_entries(self.nodes)),
            links: link_views(crate::slots::link_entries(self.links)),
            root: self.root,
            node_order: self.node_order@,
            link_order: self.link_order@,
        }
    }
}

impl Default for Network {
    /// A network containing only the root node.
    fn default() -> (r: Self)
        ensures
            r.inv(),
            r.only_root(),
    {
        Self::new()
    }
}

impl Network {
    /// Name of the root node.
    pub const ROOT_NAME: &'static str = ".";

    /// What is always true of a network.
    pub open spec fn inv(&self) -> bool {
        self@.inv()
    }

    /// Whether the network holds the root node, connected to nothing, and nothing else.
    pub open spec fn only_root(&self) -> bool {
        &&& self@.only_root()
        &&& self.issued().nothing_removed()
    }

    /// The handles given out so far.
    pub closed spec fn issued(&self) -> crate::handles::Issued {
        crate::handles::Issued {
            nodes: crate::slots::node_versions(self.nodes),
            links: crate::slots::link_versions(self.links),
        }
    }

    /// Creates a network containing only the root node.
    pub fn new() -> (r: Self)
        ensures
            r.inv(),
            r.only_root(),
    {
        let mut nodes = NodeSlots::empty();
        assert(crate::slots::node_entries(nodes).dom() =~= Set::<NodeId>::empty());
        let root = nodes.insert(ControlNode::new(Self::ROOT_NAME, "root"));
        let net = Network {
            nodes,
            links: LinkSlots::empty(),
            root,
            node_order: vec![root],
            link_order: Vec::new(),
        };
        proof {
            assert(net@.nodes =~= Map::<NodeId, crate::graph::NodeView>::empty().insert(
                root,
                crate::slots::node_entries(nodes)[root]@,
            ));
            assert(net@.links =~= Map::<LinkId, crate::graph::LinkView>::empty());
            assert(net@.node_order =~= seq![root]);
            assert(crate::graph::lists(net@.node_order, net@.nodes.dom())) by {
                assert(net@.node_order[0] == root);
            }
            assert(crate::graph::lists(net@.link_order, net@.links.dom()));
            assert(crate::graph::up(net@.nodes, root, 0) == Some(root));
            assert(crate::graph::up(net@.nodes, root, 1) is None);
        }
        net
    }

    /// The root node.
    pub fn root(&self) -> (r: NodeId)
        ensures
            r == self@.root,
    {
        self.root
    }

    /// Looks up a node.
    pub fn node(&self, id: NodeId) -> (r: Option<&ControlNode>)
        ensures
            match r {
                Some(node) => self@.nodes.contains_key(id) && node@ == self@.nodes[id],
                None => !self@.nodes.contains_key(id),
            },
            crate::handles::spent(self.issued().nodes, id.spec_raw()) ==> r is None,
            !crate::ids::is_key(id.spec_raw()) ==> r is None,
    {
        if id.is_key() {
            self.nodes.get(id)
        } else {
            None
        }
    }

    /// Looks up a link.
    pub fn link(&self, id: LinkId) -> (r: Option<&Link>)
        ensures
            match r {
                Some(link) => self@.links.contains_key(id) && link@ == self@.links[id],
                None => !self@.links.contains_key(id),
            },
            crate::handles::spent(self.issued().links, id.spec_raw()) ==> r is None,
            !crate::ids::is_key(id.spec_raw()) ==> r is None,
    {
        if id.is_key() {
            self.links.get(id)
        } else {
            None
        }
    }

    /// Handles of all nodes, in creation order.
    pub fn node_ids(&self) -> (r: Vec<NodeId>)
        ensures
            r@ == self@.node_order,
    {
        copied(self.node_order.as_slice())
    }

    /// Handles of all links, in creation order.
    pub fn link_ids(&self) -> (r: Vec<LinkId>)
        ensures
            r@ == self@.link_order,
    {
        copied(self.link_order.as_slice())
    }

    /// All nodes, in creation order.
    pub fn nodes(&self) -> (r: Vec<(NodeId, &ControlNode)>)
        requires
            self.inv(),
        ensures
            r@.map_values(|e: (NodeId, &ControlNode)| e.0) == self@.node_order,
            forall|i: int| 0 <= i < r@.len() ==> (#[trigger] r@[i]).1@ == self@.nodes[r@[i].0],
    {
        let mut out: Vec<(NodeId, &ControlNode)> = Vec::new();
        let mut i: usize = 0;
        while i < self.node_order.len()
            invariant
                i <= self.node_order@.len(),
                self.inv(),
                out@.len() == i,
                forall|j: int| 0 <= j < i ==> (#[trigger] out@[j]).0 == self.node_order@[j],
                forall|j: int| 0 <= j < i ==> (#[trigger] out@[j]).1@ == self@.nodes[out@[j].0],
            decreases self.node_order.len() - i,
        {
            let id = self.node_order[i];
            assert(self@.node_order[i as int] == id);
            assert(self@.node_order.contains(id));
            if let Some(found) = self.node(id) {
                out.push((id, found));
            }
            i += 1;
        }
        assert(out@.map_values(|e: (NodeId, &ControlNode)| e.0) =~= self@.node_order);
        out
    }

    /// All links, in creation order.
    pub fn links(&self) -> (r: Vec<(LinkId, &Link)>)
        requires
            self.inv(),
        ensures
            r@.map_values(|e: (LinkId, &Link)| e.0) == self@.link_order,
            forall|i: int| 0 <= i < r@.len() ==> (#[trigger] r@[i]).1@ == self@.links[r@[i].0],
    {
        let mut out: Vec<(LinkId, &Link)> = Vec::new();
        let mut i: usize = 0;
        while i < self.link_order.len()
            invariant
                i <= self.link_order@.len(),
                self.inv(),
                out@.len() == i,
                forall|j: int| 0 <= j < i ==> (#[trigger] out@[j]).0 == self.link_order@[j],
                forall|j: int| 0 <= j < i ==> (#[trigger] out@[j]).1@ == self@.links[out@[j].0],
            decreases self.link_order.len() - i,
        {
            let id = self.link_order[i];
            assert(self@.link_order[i as int] == id);
            assert(self@.link_order.contains(id));
            if let Some(found) = self.link(id) {
                out.push((id, found));
            }
            i += 1;
        }
        assert(out@.map_values(|e: (LinkId, &Link)| e.0) =~= self@.link_order);
        out
    }

    /// Checks that a node or link may be called `name`.
    ///
    /// # Errors
    ///
    /// Fails if the name is empty, has a special meaning in routes, holds route syntax (`@` or
    /// `/`) or control characters, or has whitespace around it.
    pub fn validate_name(name: &str) -> (r: Result<(), NetworkError>)
        ensures
            r == (if crate::graph::valid_name(name@) {
                Ok::<(), NetworkError>(())
            } else {
                Err(NetworkError::InvalidName)
            }),
    {
        if same_text(name, names::ROOT) || same_text(name, names::PARENT) || same_text(
            name,
            names::BROADCAST,
        ) || same_text(name, names::ANY_LINK) {
            return Err(NetworkError::InvalidName);
        }
        let chars = chars_of(name);
        if chars.len() == 0 || chars[0].is_whitespace() || chars[chars.len() - 1].is_whitespace() {
            return Err(NetworkError::InvalidName);
        }
        let mut i: usize = 0;
        while i < chars.len()
            invariant
                i <= chars.len(),
                chars@ == name@,
                forall|j: int|
                    0 <= j < i ==> chars@[j] != '@' && chars@[j] != '/' && !crate::graph::is_control(
                        #[trigger] chars@[j],
                    ),
            decreases chars.len() - i,
        {
            let c: char = chars[i];
            let code: u32 = c as u32;
            if c == '@' || c == '/' || code < 0x20 || (0x7f <= code && code < 0xa0) {
                assert(crate::graph::is_control(name@[i as int]) || name@[i as int] == '@'
                    || name@[i as int] == '/');
                return Err(NetworkError::InvalidName);
            }
            i += 1;
        }
        Ok(())
    }

    /// Creates a detached node. Attach it with [`connect`](Self::connect).
    ///
    /// # Errors
    ///
    /// Fails if the name is not valid; see [`validate_name`](Self::validate_name).
    pub fn create_node(&mut self, name: &str, kind: &str) -> (r: Result<NodeId, NetworkError>)
        requires
            old(self).inv(),
            old(self)@.nodes.len() < u32::MAX - 1,
        ensures
            final(self).inv(),
            match r {
                Ok(id) => crate::graph::valid_name(name@) && !old(self)@.nodes.contains_key(id)
                    && crate::ids::is_key(id.spec_raw()) && !crate::ids::is_null(id.spec_raw())
                    && final(self)@ == old(self)@.with_node(id, name@, kind@),
                Err(e) => e == NetworkError::InvalidName && !crate::graph::valid_name(name@)
                    && final(self)@ == old(self)@,
            },
            final(self).issued().links == old(self).issued().links,
            match r {
                Ok(id) => crate::slots::handed_out(
                    old(self).issued().nodes,
                    id.spec_raw(),
                    final(self).issued().nodes,
                ),
                Err(_) => final(self).issued() == old(self).issued(),
            },
            old(self).issued().nothing_removed() ==> final(self).issued().nothing_removed(),
            r matches Ok(id) ==> forall|k: NodeId| #[trigger]
                old(self)@.nodes.contains_key(k) ==> !crate::ids::same_slot(k, id),
    {
        Self::validate_name(name)?;
        proof {
            assert(self@.nodes.dom() =~= crate::slots::node_entries(self.nodes).dom());
        }
        let id = self.nodes.insert(ControlNode::new(name, kind));
        self.node_order.push(id);
        proof {
            assert(self@.nodes =~= old(self)@.with_node(id, name@, kind@).nodes);
            crate::graph::lemma_with_node(old(self)@, id, name@, kind@);
        }
        Ok(id)
    }

    /// Creates a link with no owner and no subscribers.
    ///
    /// # Errors
    ///
    /// Fails if the name is not valid; see [`validate_name`](Self::validate_name).
    pub fn create_link(&mut self, name: &str) -> (r: Result<LinkId, NetworkError>)
        requires
            old(self).inv(),
            old(self)@.links.len() < u32::MAX - 1,
        ensures
            final(self).inv(),
            match r {
                Ok(id) => crate::graph::valid_name(name@) && !old(self)@.links.contains_key(id)
                    && crate::ids::is_key(id.spec_raw()) && !crate::ids::is_null(id.spec_raw())
                    && final(self)@ == old(self)@.with_link(id, name@),
                Err(e) => e == NetworkError::InvalidName && !crate::graph::valid_name(name@)
                    && final(self)@ == old(self)@,
            },
            final(self).issued().nodes == old(self).issued().nodes,
            match r {
                Ok(id) => crate::slots::handed_out(
                    old(self).issued().links,
                    id.spec_raw(),
                    final(self).issued().links,
                ),
                Err(_) => final(self).issued() == old(self).issued(),
            },
            old(self).issued().nothing_removed() ==> final(self).issued().nothing_removed(),
    {
        Self::validate_name(name)?;
        proof {
            assert(self@.links.dom() =~= crate::slots::link_entries(self.links).dom());
        }
        let id = self.links.insert(
            Link { name: name.to_owned(), owner: None, subscribers: Vec::new() },
        );
        self.link_order.push(id);
        proof {
            assert(self@.links =~= old(self)@.with_link(id, name@).links);
            crate::graph::lemma_with_link(old(self)@, id, name@);
        }
        Ok(id)
    }

    /// Whether `node` may transmit on `link`: it is subscribed to it or owns it.
    pub fn can_use_link(&self, node: NodeId, link: LinkId) -> (r: bool)
        ensures
            r == self@.can_use_link(node, link),
    {
        match self.link(link) {
            Some(l) => holds(&l.subscribers, node) || l.owner == Some(node),
            None => false,
        }
    }
}

/// Whether `ids` lists the handles in `all`, each once, in slot order.
pub open spec fn is_listing(all: Set<NodeId>, ids: Seq<NodeId>) -> bool {
    &&& forall|k: NodeId| #[trigger] ids.contains(k) <==> all.contains(k)
    &&& forall|i: int, j: int|
        0 <= i < j < ids.len() ==> #[trigger] ids[i].rank() < #[trigger] ids[j].rank()
}

/// A listing holds each handle once.
pub proof fn lemma_listing_distinct(all: Set<NodeId>, ids: Seq<NodeId>)
    requires
        is_listing(all, ids),
    ensures
        ids.no_duplicates(),
{
    assert forall|i: int, j: int| 0 <= i < ids.len() && 0 <= j < ids.len() && i != j implies ids[i]
        != ids[j] by {
        if i < j {
            assert(ids[i].rank() < ids[j].rank());
        } else {
            assert(ids[j].rank() < ids[i].rank());
        }
    }
}

impl Network {
    /// Makes `link` internal to `owner`. Does nothing if it already is.
    ///
    /// # Errors
    ///
    /// Fails without changing anything if either handle is unknown, the link is already internal
    /// to another node, or another internal link of `owner` has its name.
    pub fn add_internal_link(&mut self, owner: NodeId, link: LinkId) -> (r: Result<
        (),
        NetworkError,
    >)
        requires
            old(self).inv(),
        ensures
            final(self).inv(),
            match r {
                Ok(()) => old(self)@.own_error(owner, link) is None && final(self)@ == old(
                    self,
                )@.own_result(owner, link),
                Err(e) => old(self)@.own_error(owner, link) == Some(e) && final(self)@ == old(
                    self,
                )@,
            },
            final(self).issued() == old(self).issued(),
    {
        match self.check_own(owner, link)? {
            true => Ok(()),
            false => {
                self.set_owner(owner, link);
                Ok(())
            },
        }
    }

    /// Nests `node` inside `parent` and, if `link` is given, makes that link internal to
    /// `parent` and subscribes `node` to it.
    ///
    /// Connecting a node to a parent it already has is allowed, which is how a child is attached
    /// to a second internal link.
    ///
    /// # Errors
    ///
    /// Fails without changing anything if a handle is unknown, `node` is the root, `node`
    /// already has a different parent, the connection would create a cycle, `link` is internal
    /// to a different node, or a name is taken ([`NetworkError::NameConflict`]): the link's by
    /// another internal link of `parent`, or the node's by another node on the link.
    pub fn connect(&mut self, parent: NodeId, node: NodeId, link: Option<LinkId>) -> (r: Result<
        (),
        NetworkError,
    >)
        requires
            old(self).inv(),
        ensures
            final(self).inv(),
            match r {
                Ok(()) => old(self)@.connect_error(parent, node, link) is None && final(self)@
                    == old(self)@.connect_result(parent, node, link),
                Err(e) => old(self)@.connect_error(parent, node, link) == Some(e) && final(self)@
                    == old(self)@,
            },
            final(self).issued() == old(self).issued(),
    {
        if self.node(parent).is_none() {
            return Err(NetworkError::UnknownNode(parent));
        }
        let current_parent = match self.node(node) {
            Some(n) => n.parent,
            None => {
                return Err(NetworkError::UnknownNode(node));
            },
        };
        if node == self.root {
            return Err(NetworkError::IsRoot);
        }
        if current_parent.is_some() && current_parent != Some(parent) {
            return Err(NetworkError::AlreadyHasParent(node));
        }
        proof {
            crate::graph::lemma_ancestors(self@.nodes, parent);
        }
        if holds(&self.ancestors_and_self(parent), node) {
            return Err(NetworkError::WouldCreateCycle);
        }
        let mut is_owner: bool = false;
        let mut is_subscribed: bool = false;
        if let Some(link) = link {
            is_owner = self.check_own(parent, link)?;
            is_subscribed = self.check_subscribe(node, link)?;
        }
        // Everything is validated; nothing below can fail.

        if current_parent.is_none() {
            self.set_parent(parent, node);
        }
        let ghost inside = self@;
        assert(inside == old(self)@.nest_result(parent, node));
        if let Some(link) = link {
            proof {
                lemma_nest_keeps_errors(old(self)@, parent, node, link);
            }
            if !is_owner {
                self.set_owner(parent, link);
            }
            proof {
                lemma_own_keeps_errors(inside, parent, node, link);
            }
            if !is_subscribed {
                self.set_subscribed(node, link);
            }
        }
        Ok(())
    }

    /// Attaches `node` to `link` without changing the hierarchy. Does nothing if it already is.
    ///
    /// # Errors
    ///
    /// Fails without changing anything if either handle is unknown, or another subscriber of the
    /// link has the node's name.
    pub fn subscribe(&mut self, node: NodeId, link: LinkId) -> (r: Result<(), NetworkError>)
        requires
            old(self).inv(),
        ensures
            final(self).inv(),
            match r {
                Ok(()) => old(self)@.subscribe_error(node, link) is None && final(self)@ == old(
                    self,
                )@.subscribe_result(node, link),
                Err(e) => old(self)@.subscribe_error(node, link) == Some(e) && final(self)@ == old(
                    self,
                )@,
            },
            final(self).issued() == old(self).issued(),
    {
        match self.check_subscribe(node, link)? {
            true => Ok(()),
            false => {
                self.set_subscribed(node, link);
                Ok(())
            },
        }
    }

    /// Detaches `node` from `link`. Does nothing if it was not attached.
    ///
    /// # Errors
    ///
    /// Fails without changing anything if either handle is unknown.
    pub fn unsubscribe(&mut self, node: NodeId, link: LinkId) -> (r: Result<(), NetworkError>)
        requires
            old(self).inv(),
        ensures
            final(self).inv(),
            match r {
                Ok(()) => old(self)@.nodes.contains_key(node) && old(self)@.links.contains_key(link)
                    && final(self)@ == old(self)@.left(node, link),
                Err(e) => final(self)@ == old(self)@ && if !old(self)@.nodes.contains_key(node) {
                    e == NetworkError::UnknownNode(node)
                } else {
                    !old(self)@.links.contains_key(link) && e == NetworkError::UnknownLink(link)
                },
            },
            final(self).issued() == old(self).issued(),
    {
        if self.node(node).is_none() {
            return Err(NetworkError::UnknownNode(node));
        }
        if self.link(link).is_none() {
            return Err(NetworkError::UnknownLink(link));
        }
        if let Some(l) = self.links.get_mut(link) {
            l.subscribers = leaving_out_one(&l.subscribers, node);
        }
        if let Some(n) = self.nodes.get_mut(node) {
            n.subscriptions = leaving_out_one(&n.subscriptions, link);
        }
        proof {
            assert(self@.nodes =~= old(self)@.left(node, link).nodes);
            assert(self@.links =~= old(self)@.left(node, link).links);
            crate::graph::lemma_left(old(self)@, node, link);
        }
        Ok(())
    }

    /// Removes `node` from `parent`, the inverse of [`connect`](Self::connect). The node also
    /// leaves all of `parent`'s internal links. Its own children and other subscriptions are
    /// kept, so it can be connected somewhere else as a whole.
    ///
    /// # Errors
    ///
    /// Fails without changing anything if either handle is unknown or `node` is not a child of
    /// `parent`.
    pub fn disconnect(&mut self, parent: NodeId, node: NodeId) -> (r: Result<(), NetworkError>)
        requires
            old(self).inv(),
        ensures
            final(self).inv(),
            match r {
                Ok(()) => old(self)@.nodes.contains_key(parent) && old(self)@.nodes.contains_key(
                    node,
                ) && old(self)@.nodes[node].parent == Some(parent) && final(self)@ == old(
                    self,
                )@.disconnected(parent, node),
                Err(e) => final(self)@ == old(self)@ && if !old(self)@.nodes.contains_key(parent) {
                    e == NetworkError::UnknownNode(parent)
                } else if !old(self)@.nodes.contains_key(node) {
                    e == NetworkError::UnknownNode(node)
                } else {
                    old(self)@.nodes[node].parent != Some(parent) && e == NetworkError::NotAChild(
                        node,
                    )
                },
            },
            final(self).issued() == old(self).issued(),
    {
        let links = match self.node(parent) {
            Some(p) => copied(p.internal_links()),
            None => {
                return Err(NetworkError::UnknownNode(parent));
            },
        };
        match self.node(node) {
            Some(n) => {
                if n.parent != Some(parent) {
                    return Err(NetworkError::NotAChild(node));
                }
            },
            None => {
                return Err(NetworkError::UnknownNode(node));
            },
        }
        let ghost start = self@;
        let mut i: usize = 0;
        assert(links@.take(0) =~= Seq::<LinkId>::empty());
        while i < links.len()
            invariant
                i <= links.len(),
                start.inv(),
                start == old(self)@,
                start.nodes.contains_key(node),
                start.nodes.contains_key(parent),
                links@ == start.nodes[parent].internal_links,
                self.inv(),
                self@ == start.left_all(node, links@.take(i as int)),
                self.issued() == old(self).issued(),
            decreases links.len() - i,
        {
            proof {
                assert forall|j: int| 0 <= j < links@.take(i as int).len() implies
                    start.links.contains_key(#[trigger] links@.take(i as int)[j]) by {
                    assert(start.nodes[parent].internal_links.contains(links@[j]));
                }
                assert(start.nodes[parent].internal_links.contains(links@[i as int]));
                crate::graph::lemma_left_all(start, node, links@.take(i as int));
                assert(self@.links.dom().contains(links@[i as int]));
                assert(links@.take(i + 1).drop_last() =~= links@.take(i as int));
            }
            let _ = self.unsubscribe(node, links[i]);
            i += 1;
        }
        assert(links@.take(i as int) =~= links@);
        let ghost off = self@;
        proof {
            assert forall|j: int| 0 <= j < links@.len() implies start.links.contains_key(
                #[trigger] links@[j],
            ) by {
                assert(start.nodes[parent].internal_links.contains(links@[j]));
            }
            crate::graph::lemma_left_all(start, node, links@);
            assert(off.nodes[node].parent == Some(parent));
            assert(off.nodes.dom().contains(node) && off.nodes.dom().contains(parent));
            crate::graph::lemma_unnested(off, parent, node);
        }
        if let Some(p) = self.nodes.get_mut(parent) {
            p.children = leaving_out_one(&p.children, node);
        }
        if let Some(n) = self.nodes.get_mut(node) {
            n.parent = None;
        }
        proof {
            assert(self@.nodes =~= off.unnested(parent, node).nodes);
            assert(self@.links =~= off.links);
        }
        Ok(())
    }

    /// `node`, then its parent, then its grandparent, up to the top of its tree. Empty if the
    /// node is unknown.
    pub fn ancestors_and_self(&self, node: NodeId) -> (r: Vec<NodeId>)
        requires
            self.inv(),
        ensures
            r@ == crate::graph::ancestors(self@.nodes, node),
    {
        proof {
            crate::graph::lemma_ancestors(self@.nodes, node);
        }
        let ghost nodes = self@.nodes;
        let ghost h = crate::graph::height(nodes, node);
        let mut out: Vec<NodeId> = Vec::new();
        let mut next = match self.node(node) {
            Some(_) => Some(node),
            None => None,
        };
        while next.is_some()
            invariant
                self.inv(),
                nodes == self@.nodes,
                crate::graph::is_height(nodes, node, h),
                out@.len() <= h,
                next == crate::graph::up(nodes, node, out@.len()),
                forall|j: int|
                    0 <= j < out@.len() ==> crate::graph::up(nodes, node, j as nat) == Some(
                        #[trigger] out@[j],
                    ),
            decreases h - out@.len(),
        {
            if let Some(at) = next {
                proof {
                    crate::graph::lemma_up_known(nodes, node, out@.len());
                }
                let ghost done = out@.len();
                out.push(at);
                next = match self.node(at) {
                    Some(n) => n.parent,
                    None => None,
                };
                assert(next == crate::graph::up(nodes, node, done + 1));
            }
        }
        assert(out@ =~= crate::graph::ancestors(nodes, node));
        out
    }

    /// Removes `node`, everything inside it, and the links they own. Everything else leaves those
    /// links.
    ///
    /// # Errors
    ///
    /// Fails without changing anything if the node is unknown or the root.
    pub fn remove_node(&mut self, node: NodeId) -> (r: Result<(), NetworkError>)
        requires
            old(self).inv(),
        ensures
            final(self).inv(),
            match r {
                Ok(()) => old(self)@.nodes.contains_key(node) && node != old(self)@.root
                    && final(self)@ == old(self)@.removed(node),
                Err(e) => final(self)@ == old(self)@ && if !old(self)@.nodes.contains_key(node) {
                    e == NetworkError::UnknownNode(node)
                } else {
                    node == old(self)@.root && e == NetworkError::IsRoot
                },
            },
            crate::handles::spends_removed(
                old(self).issued(),
                old(self)@,
                final(self).issued(),
                final(self)@,
            ),
            r is Err ==> final(self).issued() == old(self).issued(),
    {
        self.remove_subtree(node)?;
        Ok(())
    }

    /// Removes `link`. Its subscribers and owner stay.
    ///
    /// # Errors
    ///
    /// Fails without changing anything if the link is unknown.
    pub fn remove_link(&mut self, link: LinkId) -> (r: Result<(), NetworkError>)
        requires
            old(self).inv(),
        ensures
            final(self).inv(),
            match r {
                Ok(()) => old(self)@.links.contains_key(link) && final(self)@ == old(
                    self,
                )@.link_removed(link),
                Err(e) => final(self)@ == old(self)@ && !old(self)@.links.contains_key(link) && e
                    == NetworkError::UnknownLink(link),
            },
            crate::handles::spends_removed(
                old(self).issued(),
                old(self)@,
                final(self).issued(),
                final(self)@,
            ),
            r is Err ==> final(self).issued() == old(self).issued(),
    {
        if self.link(link).is_none() {
            return Err(NetworkError::UnknownLink(link));
        }
        let ghost start = self@;
        let mut gone: Vec<LinkId> = Vec::new();
        gone.push(link);
        let nobody: Vec<NodeId> = Vec::new();
        proof {
            assert(gone@.to_set() =~= set![link]) by {
                assert(gone@[0] == link);
            }
            assert(nobody@.to_set() =~= Set::<NodeId>::empty());
        }
        let ids = self.node_ids();
        self.prune_nodes(&ids, &nobody, &gone);
        let ghost issued = self.issued();
        let _ = self.links.remove(link);
        self.link_order = leaving_out(&self.link_order, &gone);
        proof {
            if crate::handles::unworn(issued.links) {
                crate::handles::law_removed_handles_are_spent(
                    issued.links,
                    link.spec_raw(),
                    self.issued().links,
                );
            }
            assert(self@.nodes =~= start.link_removed(link).nodes) by {
                assert forall|n: NodeId| #[trigger]
                    self@.nodes.contains_key(n) == start.link_removed(link).nodes.contains_key(n) by {}
                assert forall|n: NodeId| #[trigger] self@.nodes.contains_key(n) implies self@.nodes[n]
                    == start.link_removed(link).nodes[n] by {
                    assert(ids@.contains(n));
                }
            }
            assert(self@.links =~= start.link_removed(link).links);
            crate::graph::lemma_link_removed(start, link);
        }
        Ok(())
    }

    /// Removes `node`, everything inside it and the links they own; returns the nodes removed.
    pub(crate) fn remove_subtree(&mut self, node: NodeId) -> (r: Result<Vec<NodeId>, NetworkError>)
        requires
            old(self).inv(),
        ensures
            final(self).inv(),
            match r {
                Ok(gone) => old(self)@.nodes.contains_key(node) && node != old(self)@.root
                    && final(self)@ == old(self)@.removed(node) && gone@.to_set() == old(
                    self,
                )@.doomed_nodes(node),
                Err(e) => final(self)@ == old(self)@ && if !old(self)@.nodes.contains_key(node) {
                    e == NetworkError::UnknownNode(node)
                } else {
                    node == old(self)@.root && e == NetworkError::IsRoot
                },
            },
            crate::handles::spends_removed(
                old(self).issued(),
                old(self)@,
                final(self).issued(),
                final(self)@,
            ),
            r is Err ==> final(self).issued() == old(self).issued(),
    {
        if self.node(node).is_none() {
            return Err(NetworkError::UnknownNode(node));
        }
        if node == self.root {
            return Err(NetworkError::IsRoot);
        }
        let ghost start = self@;
        let node_ids = self.node_ids();
        let link_ids = self.link_ids();
        let gone = self.nodes_within(&node_ids, node);
        let gone_links = self.links_owned(&link_ids, &gone);
        assert(gone_links@.to_set() =~= start.doomed_links(node)) by {
            assert forall|l: LinkId| gone_links@.to_set().contains(l) == start.doomed_links(
                node,
            ).contains(l) by {
                assert(gone_links@.contains(l) <==> link_ids@.contains(l) && start.links[l].owner
                    is Some && gone@.contains(start.links[l].owner->0));
            }
        }
        let kept = leaving_out(&node_ids, &gone);
        let kept_links = leaving_out(&link_ids, &gone_links);
        proof {
            crate::lists::lemma_without(node_ids@, gone@.to_set());
            crate::lists::lemma_without(link_ids@, gone_links@.to_set());
        }
        self.prune_nodes(&kept, &gone, &gone_links);
        self.prune_links(&kept_links, &gone);
        self.drop_nodes(&gone);
        self.drop_links(&gone_links);
        let ghost dropped = self@;
        let ghost (left, left_links) = (kept@, kept_links@);
        self.node_order = kept;
        self.link_order = kept_links;
        proof {
            assert(self@.nodes == dropped.nodes);
            assert(self@.links == dropped.links);
            let end = start.removed(node);
            assert(self@.nodes =~= end.nodes) by {
                assert forall|n: NodeId| #[trigger] self@.nodes.contains_key(n)
                    == end.nodes.contains_key(n) by {
                    assert(gone@.contains(n) <==> start.doomed_nodes(node).contains(n));
                }
                assert forall|n: NodeId| #[trigger] self@.nodes.contains_key(n) implies self@.nodes[n]
                    == end.nodes[n] by {
                    assert(node_ids@.contains(n));
                    assert(left.contains(n));
                }
            }
            assert(self@.links =~= end.links) by {
                assert forall|l: LinkId| #[trigger] self@.links.contains_key(l)
                    == end.links.contains_key(l) by {
                    assert(gone_links@.contains(l) <==> start.doomed_links(node).contains(l));
                }
                assert forall|l: LinkId| #[trigger] self@.links.contains_key(l) implies self@.links[l]
                    == end.links[l] by {
                    assert(link_ids@.contains(l));
                    assert(left_links.contains(l));
                }
            }
            crate::graph::lemma_removed(start, node);
        }
        Ok(gone)
    }

    /// Those of `ids` that are `node` or inside it.
    fn nodes_within(&self, ids: &Vec<NodeId>, node: NodeId) -> (r: Vec<NodeId>)
        requires
            self.inv(),
            ids@ == self@.node_order,
        ensures
            r@.to_set() == self@.doomed_nodes(node),
    {
        let mut out: Vec<NodeId> = Vec::new();
        let mut i: usize = 0;
        while i < ids.len()
            invariant
                i <= ids.len(),
                self.inv(),
                ids@ == self@.node_order,
                forall|n: NodeId| #[trigger]
                    out@.contains(n) <==> ids@.take(i as int).contains(n) && crate::graph::within(
                        self@.nodes,
                        n,
                        node,
                    ),
            decreases ids.len() - i,
        {
            let id: NodeId = ids[i];
            proof {
                crate::graph::lemma_ancestors(self@.nodes, id);
                crate::lists::lemma_push_contains(ids@.take(i as int), id);
                crate::lists::lemma_push_contains(out@, id);
                assert(ids@.take(i + 1) =~= ids@.take(i as int).push(id));
            }
            if holds(&self.ancestors_and_self(id), node) {
                out.push(id);
            }
            i += 1;
        }
        assert(ids@.take(i as int) =~= ids@);
        assert(out@.to_set() =~= self@.doomed_nodes(node)) by {
            assert forall|n: NodeId| out@.to_set().contains(n) == self@.doomed_nodes(node).contains(
                n,
            ) by {
                assert(out@.contains(n) <==> ids@.contains(n) && crate::graph::within(
                    self@.nodes,
                    n,
                    node,
                ));
            }
        }
        out
    }

    /// Those of `ids` whose owner is one of `owners`.
    fn links_owned(&self, ids: &Vec<LinkId>, owners: &Vec<NodeId>) -> (r: Vec<LinkId>)
        requires
            crate::graph::lists(ids@, self@.links.dom()),
        ensures
            forall|l: LinkId| #[trigger]
                r@.contains(l) <==> ids@.contains(l) && self@.links[l].owner is Some
                    && owners@.contains(self@.links[l].owner->0),
    {
        let mut out: Vec<LinkId> = Vec::new();
        let mut i: usize = 0;
        while i < ids.len()
            invariant
                i <= ids.len(),
                crate::graph::lists(ids@, self@.links.dom()),
                forall|l: LinkId| #[trigger]
                    out@.contains(l) <==> ids@.take(i as int).contains(l) && self@.links[l].owner
                        is Some && owners@.contains(self@.links[l].owner->0),
            decreases ids.len() - i,
        {
            let id: LinkId = ids[i];
            proof {
                assert(ids@.contains(id));
                crate::lists::lemma_push_contains(ids@.take(i as int), id);
                crate::lists::lemma_push_contains(out@, id);
                assert(ids@.take(i + 1) =~= ids@.take(i as int).push(id));
            }
            if let Some(link) = self.link(id) {
                if let Some(owner) = link.owner {
                    if holds(owners, owner) {
                        out.push(id);
                    }
                }
            }
            i += 1;
        }
        assert(ids@.take(i as int) =~= ids@);
        out
    }

    /// Takes the given nodes and links off the lists of each node in `ids`.
    fn prune_nodes(&mut self, ids: &Vec<NodeId>, nodes: &Vec<NodeId>, links: &Vec<LinkId>)
        requires
            ids@.no_duplicates(),
        ensures
            final(self).issued() == old(self).issued(),
            final(self)@.node_order == old(self)@.node_order,
            final(self)@.link_order == old(self)@.link_order,
            final(self)@.root == old(self)@.root,
            final(self)@.links == old(self)@.links,
            final(self)@.nodes.dom() == old(self)@.nodes.dom(),
            forall|n: NodeId| #[trigger]
                final(self)@.nodes.contains_key(n) ==> final(self)@.nodes[n] == (if ids@.contains(n) {
                    old(self)@.pruned_node(n, nodes@.to_set(), links@.to_set())
                } else {
                    old(self)@.nodes[n]
                }),
    {
        let ghost start = self@;
        let mut i: usize = 0;
        while i < ids.len()
            invariant
                i <= ids.len(),
                ids@.no_duplicates(),
                start == old(self)@,
                self.issued() == old(self).issued(),
                self@.node_order == start.node_order,
                self@.link_order == start.link_order,
                self@.root == start.root,
                self@.links == start.links,
                self@.nodes.dom() == start.nodes.dom(),
                forall|n: NodeId| #[trigger]
                    self@.nodes.contains_key(n) ==> self@.nodes[n] == (if ids@.take(
                        i as int,
                    ).contains(n) {
                        start.pruned_node(n, nodes@.to_set(), links@.to_set())
                    } else {
                        start.nodes[n]
                    }),
            decreases ids.len() - i,
        {
            let id: NodeId = ids[i];
            let ghost before = self@;
            proof {
                crate::lists::lemma_push_contains(ids@.take(i as int), id);
                assert(ids@.take(i + 1) =~= ids@.take(i as int).push(id));
                assert(!ids@.take(i as int).contains(id));
            }
            if id.is_key() {
                if let Some(n) = self.nodes.get_mut(id) {
                    n.children = leaving_out(&n.children, nodes);
                    n.internal_links = leaving_out(&n.internal_links, links);
                    n.subscriptions = leaving_out(&n.subscriptions, links);
                }
            }
            proof {
                assert(self@.nodes.dom() =~= before.nodes.dom());
                assert(self@.links =~= before.links);
                assert forall|n: NodeId| #[trigger] self@.nodes.contains_key(n) implies self@.nodes[n]
                    == (if ids@.take(i + 1).contains(n) {
                    start.pruned_node(n, nodes@.to_set(), links@.to_set())
                } else {
                    start.nodes[n]
                }) by {
                    assert(before.nodes.contains_key(n));
                }
            }
            i += 1;
        }
        assert(ids@.take(i as int) =~= ids@);
    }

    /// Takes the given nodes off the subscribers of each link in `ids`.
    fn prune_links(&mut self, ids: &Vec<LinkId>, nodes: &Vec<NodeId>)
        requires
            ids@.no_duplicates(),
        ensures
            final(self).issued() == old(self).issued(),
            final(self)@.node_order == old(self)@.node_order,
            final(self)@.link_order == old(self)@.link_order,
            final(self)@.root == old(self)@.root,
            final(self)@.nodes == old(self)@.nodes,
            final(self)@.links.dom() == old(self)@.links.dom(),
            forall|l: LinkId| #[trigger]
                final(self)@.links.contains_key(l) ==> final(self)@.links[l] == (if ids@.contains(l) {
                    old(self)@.pruned_link(l, nodes@.to_set())
                } else {
                    old(self)@.links[l]
                }),
    {
        let ghost start = self@;
        let mut i: usize = 0;
        while i < ids.len()
            invariant
                i <= ids.len(),
                ids@.no_duplicates(),
                start == old(self)@,
                self.issued() == old(self).issued(),
                self@.node_order == start.node_order,
                self@.link_order == start.link_order,
                self@.root == start.root,
                self@.nodes == start.nodes,
                self@.links.dom() == start.links.dom(),
                forall|l: LinkId| #[trigger]
                    self@.links.contains_key(l) ==> self@.links[l] == (if ids@.take(
                        i as int,
                    ).contains(l) {
                        start.pruned_link(l, nodes@.to_set())
                    } else {
                        start.links[l]
                    }),
            decreases ids.len() - i,
        {
            let id: LinkId = ids[i];
            let ghost before = self@;
            proof {
                crate::lists::lemma_push_contains(ids@.take(i as int), id);
                assert(ids@.take(i + 1) =~= ids@.take(i as int).push(id));
                assert(!ids@.take(i as int).contains(id));
            }
            if id.is_key() {
                if let Some(l) = self.links.get_mut(id) {
                    l.subscribers = leaving_out(&l.subscribers, nodes);
                }
            }
            proof {
                assert(self@.links.dom() =~= before.links.dom());
                assert(self@.nodes =~= before.nodes);
                assert forall|l: LinkId| #[trigger] self@.links.contains_key(l) implies self@.links[l]
                    == (if ids@.take(i + 1).contains(l) {
                    start.pruned_link(l, nodes@.to_set())
                } else {
                    start.links[l]
                }) by {
                    assert(before.links.contains_key(l));
                }
            }
            i += 1;
        }
        assert(ids@.take(i as int) =~= ids@);
    }

    /// Takes the given nodes out of the node map.
    fn drop_nodes(&mut self, gone: &Vec<NodeId>)
        ensures
            final(self).issued().links == old(self).issued().links,
            crate::handles::keeps_spent(old(self).issued().nodes, final(self).issued().nodes),
            crate::handles::unworn(old(self).issued().nodes) ==> forall|k: NodeId|
                old(self)@.nodes.contains_key(k) && gone@.contains(k)
                    ==> #[trigger] crate::handles::spent(final(self).issued().nodes, k.spec_raw()),
            final(self)@.node_order == old(self)@.node_order,
            final(self)@.link_order == old(self)@.link_order,
            final(self)@.root == old(self)@.root,
            final(self)@.links == old(self)@.links,
            forall|n: NodeId| #[trigger]
                final(self)@.nodes.contains_key(n) <==> old(self)@.nodes.contains_key(n)
                    && !gone@.contains(n),
            forall|n: NodeId| #[trigger]
                final(self)@.nodes.contains_key(n) ==> final(self)@.nodes[n] == old(self)@.nodes[n],
    {
        let ghost start = self@;
        let mut i: usize = 0;
        while i < gone.len()
            invariant
                i <= gone.len(),
                start == old(self)@,
                self.issued().links == old(self).issued().links,
                crate::handles::keeps_spent(old(self).issued().nodes, self.issued().nodes),
                crate::handles::unworn(old(self).issued().nodes) ==> forall|k: NodeId|
                    start.nodes.contains_key(k) && gone@.take(i as int).contains(k)
                        ==> #[trigger] crate::handles::spent(self.issued().nodes, k.spec_raw()),
                self@.node_order == start.node_order,
                self@.link_order == start.link_order,
                self@.root == start.root,
                self@.links == start.links,
                forall|n: NodeId| #[trigger]
                    self@.nodes.contains_key(n) <==> start.nodes.contains_key(n) && !gone@.take(
                        i as int,
                    ).contains(n),
                forall|n: NodeId| #[trigger]
                    self@.nodes.contains_key(n) ==> self@.nodes[n] == start.nodes[n],
            decreases gone.len() - i,
        {
            let ghost before = self@;
            proof {
                crate::lists::lemma_push_contains(gone@.take(i as int), gone@[i as int]);
                assert(gone@.take(i + 1) =~= gone@.take(i as int).push(gone@[i as int]));
            }
            let ghost versions = self.issued().nodes;
            let was = if gone[i].is_key() {
                self.nodes.remove(gone[i])
            } else {
                None
            };
            proof {
                if crate::handles::unworn(old(self).issued().nodes) {
                    if was is Some {
                        crate::handles::law_removed_handles_are_spent(
                            versions,
                            gone@[i as int].spec_raw(),
                            self.issued().nodes,
                        );
                    }
                    assert forall|k: NodeId| start.nodes.contains_key(k) && gone@.take(i + 1).contains(
                        k,
                    ) implies #[trigger] crate::handles::spent(
                        self.issued().nodes,
                        k.spec_raw(),
                    ) by {
                        assert(before.nodes.contains_key(k) <==> start.nodes.contains_key(k)
                            && !gone@.take(i as int).contains(k));
                        assert(gone@.take(i as int).contains(k) ==> crate::handles::spent(
                            versions,
                            k.spec_raw(),
                        ));
                    }
                }
                assert(self@.links =~= before.links);
                assert forall|n: NodeId| #[trigger] self@.nodes.contains_key(n) <==> (
                start.nodes.contains_key(n) && !gone@.take(i + 1).contains(n)) by {
                    assert(before.nodes.contains_key(n) <==> start.nodes.contains_key(n)
                        && !gone@.take(i as int).contains(n));
                }
                assert forall|n: NodeId| #[trigger] self@.nodes.contains_key(n) implies self@.nodes[n]
                    == start.nodes[n] by {
                    assert(before.nodes.contains_key(n));
                }
            }
            i += 1;
        }
        assert(gone@.take(i as int) =~= gone@);
    }

    /// Takes the given links out of the link map.
    fn drop_links(&mut self, gone: &Vec<LinkId>)
        ensures
            final(self).issued().nodes == old(self).issued().nodes,
            crate::handles::keeps_spent(old(self).issued().links, final(self).issued().links),
            crate::handles::unworn(old(self).issued().links) ==> forall|k: LinkId|
                old(self)@.links.contains_key(k) && gone@.contains(k)
                    ==> #[trigger] crate::handles::spent(final(self).issued().links, k.spec_raw()),
            final(self)@.node_order == old(self)@.node_order,
            final(self)@.link_order == old(self)@.link_order,
            final(self)@.root == old(self)@.root,
            final(self)@.nodes == old(self)@.nodes,
            forall|l: LinkId| #[trigger]
                final(self)@.links.contains_key(l) <==> old(self)@.links.contains_key(l)
                    && !gone@.contains(l),
            forall|l: LinkId| #[trigger]
                final(self)@.links.contains_key(l) ==> final(self)@.links[l] == old(self)@.links[l],
    {
        let ghost start = self@;
        let mut i: usize = 0;
        while i < gone.len()
            invariant
                i <= gone.len(),
                start == old(self)@,
                self.issued().nodes == old(self).issued().nodes,
                crate::handles::keeps_spent(old(self).issued().links, self.issued().links),
                crate::handles::unworn(old(self).issued().links) ==> forall|k: LinkId|
                    start.links.contains_key(k) && gone@.take(i as int).contains(k)
                        ==> #[trigger] crate::handles::spent(self.issued().links, k.spec_raw()),
                self@.node_order == start.node_order,
                self@.link_order == start.link_order,
                self@.root == start.root,
                self@.nodes == start.nodes,
                forall|l: LinkId| #[trigger]
                    self@.links.contains_key(l) <==> start.links.contains_key(l) && !gone@.take(
                        i as int,
                    ).contains(l),
                forall|l: LinkId| #[trigger]
                    self@.links.contains_key(l) ==> self@.links[l] == start.links[l],
            decreases gone.len() - i,
        {
            let ghost before = self@;
            proof {
                crate::lists::lemma_push_contains(gone@.take(i as int), gone@[i as int]);
                assert(gone@.take(i + 1) =~= gone@.take(i as int).push(gone@[i as int]));
            }
            let ghost versions = self.issued().links;
            let was = if gone[i].is_key() {
                self.links.remove(gone[i])
            } else {
                None
            };
            proof {
                if crate::handles::unworn(old(self).issued().links) {
                    if was is Some {
                        crate::handles::law_removed_handles_are_spent(
                            versions,
                            gone@[i as int].spec_raw(),
                            self.issued().links,
                        );
                    }
                    assert forall|k: LinkId| start.links.contains_key(k) && gone@.take(i + 1).contains(
                        k,
                    ) implies #[trigger] crate::handles::spent(
                        self.issued().links,
                        k.spec_raw(),
                    ) by {
                        assert(before.links.contains_key(k) <==> start.links.contains_key(k)
                            && !gone@.take(i as int).contains(k));
                        assert(gone@.take(i as int).contains(k) ==> crate::handles::spent(
                            versions,
                            k.spec_raw(),
                        ));
                    }
                }
                assert(self@.nodes =~= before.nodes);
                assert forall|l: LinkId| #[trigger] self@.links.contains_key(l) <==> (
                start.links.contains_key(l) && !gone@.take(i + 1).contains(l)) by {
                    assert(before.links.contains_key(l) <==> start.links.contains_key(l)
                        && !gone@.take(i as int).contains(l));
                }
                assert forall|l: LinkId| #[trigger] self@.links.contains_key(l) implies self@.links[l]
                    == start.links[l] by {
                    assert(before.links.contains_key(l));
                }
            }
            i += 1;
        }
        assert(gone@.take(i as int) =~= gone@);
    }

    /// Checks that `link` can be made internal to `owner`; says whether it already is.
    fn check_own(&self, owner: NodeId, link: LinkId) -> (r: Result<bool, NetworkError>)
        requires
            self.inv(),
        ensures
            match r {
                Ok(already) => self@.own_error(owner, link) is None && already == (
                self@.links[link].owner == Some(owner)),
                Err(e) => self@.own_error(owner, link) == Some(e),
            },
    {
        let node = match self.node(owner) {
            Some(n) => n,
            None => {
                return Err(NetworkError::UnknownNode(owner));
            },
        };
        let l = match self.link(link) {
            Some(l) => l,
            None => {
                return Err(NetworkError::UnknownLink(link));
            },
        };
        if l.owner == Some(owner) {
            return Ok(true);
        }
        if l.owner.is_some() {
            return Err(NetworkError::LinkOwnedElsewhere(link));
        }
        let mut i: usize = 0;
        while i < node.internal_links.len()
            invariant
                i <= node.internal_links.len(),
                self.inv(),
                self@.nodes.contains_key(owner),
                self@.links.contains_key(link),
                node@ == self@.nodes[owner],
                l@ == self@.links[link],
                self@.links[link].owner is None,
                forall|j: int|
                    0 <= j < i ==> self@.links[#[trigger] node.internal_links@[j]].name
                        != self@.links[link].name,
            decreases node.internal_links.len() - i,
        {
            let other_id: LinkId = node.internal_links[i];
            assert(self@.nodes[owner].internal_links.contains(other_id));
            if let Some(other) = self.link(other_id) {
                if same_text(other.name(), l.name()) {
                    return Err(NetworkError::NameConflict { link });
                }
            }
            i += 1;
        }
        Ok(false)
    }

    /// Checks that `node` can be subscribed to `link`; says whether it already is.
    fn check_subscribe(&self, node: NodeId, link: LinkId) -> (r: Result<bool, NetworkError>)
        requires
            self.inv(),
        ensures
            match r {
                Ok(already) => self@.subscribe_error(node, link) is None && already
                    == self@.links[link].subscribers.contains(node),
                Err(e) => self@.subscribe_error(node, link) == Some(e),
            },
    {
        let n = match self.node(node) {
            Some(n) => n,
            None => {
                return Err(NetworkError::UnknownNode(node));
            },
        };
        let l = match self.link(link) {
            Some(l) => l,
            None => {
                return Err(NetworkError::UnknownLink(link));
            },
        };
        if holds(&l.subscribers, node) {
            return Ok(true);
        }
        let mut i: usize = 0;
        while i < l.subscribers.len()
            invariant
                i <= l.subscribers.len(),
                self.inv(),
                self@.nodes.contains_key(node),
                self@.links.contains_key(link),
                n@ == self@.nodes[node],
                l@ == self@.links[link],
                !self@.links[link].subscribers.contains(node),
                forall|j: int|
                    0 <= j < i ==> self@.nodes[#[trigger] l.subscribers@[j]].name
                        != self@.nodes[node].name,
            decreases l.subscribers.len() - i,
        {
            let other_id: NodeId = l.subscribers[i];
            assert(self@.links[link].subscribers.contains(other_id));
            if let Some(other) = self.node(other_id) {
                if same_text(other.name(), n.name()) {
                    return Err(NetworkError::NameConflict { link });
                }
            }
            i += 1;
        }
        Ok(false)
    }

    /// Nests a detached node.
    fn set_parent(&mut self, parent: NodeId, node: NodeId)
        requires
            old(self).inv(),
            old(self)@.nodes.contains_key(parent),
            old(self)@.nodes.contains_key(node),
            node != old(self)@.root,
            old(self)@.nodes[node].parent is None,
            !crate::graph::within(old(self)@.nodes, parent, node),
        ensures
            final(self).inv(),
            final(self)@ == old(self)@.nested(parent, node),
            final(self).issued() == old(self).issued(),
    {
        proof {
            assert(crate::graph::up(self@.nodes, parent, 0) == Some(parent));
        }
        if let Some(n) = self.nodes.get_mut(node) {
            n.parent = Some(parent);
        }
        if let Some(p) = self.nodes.get_mut(parent) {
            p.children.push(node);
        }
        proof {
            assert(self@.nodes =~= old(self)@.nested(parent, node).nodes);
            assert(self@.links =~= old(self)@.links);
            crate::graph::lemma_nested(old(self)@, parent, node);
        }
    }

    /// Makes a link without an owner internal to `owner`.
    fn set_owner(&mut self, owner: NodeId, link: LinkId)
        requires
            old(self).inv(),
            old(self)@.own_error(owner, link) is None,
            old(self)@.links[link].owner != Some(owner),
        ensures
            final(self).inv(),
            final(self)@ == old(self)@.owning(owner, link),
            final(self).issued() == old(self).issued(),
    {
        if let Some(l) = self.links.get_mut(link) {
            l.owner = Some(owner);
        }
        if let Some(n) = self.nodes.get_mut(owner) {
            n.internal_links.push(link);
        }
        proof {
            assert(self@.nodes =~= old(self)@.owning(owner, link).nodes);
            assert(self@.links =~= old(self)@.owning(owner, link).links);
            crate::graph::lemma_owning(old(self)@, owner, link);
        }
    }

    /// Subscribes a node that is not subscribed yet.
    fn set_subscribed(&mut self, node: NodeId, link: LinkId)
        requires
            old(self).inv(),
            old(self)@.subscribe_error(node, link) is None,
            !old(self)@.links[link].subscribers.contains(node),
        ensures
            final(self).inv(),
            final(self)@ == old(self)@.joined(node, link),
            final(self).issued() == old(self).issued(),
    {
        if let Some(l) = self.links.get_mut(link) {
            l.subscribers.push(node);
        }
        if let Some(n) = self.nodes.get_mut(node) {
            n.subscriptions.push(link);
        }
        proof {
            assert(self@.nodes =~= old(self)@.joined(node, link).nodes);
            assert(self@.links =~= old(self)@.joined(node, link).links);
            crate::graph::lemma_joined(old(self)@, node, link);
        }
    }
}

/// Nesting a node changes neither who owns a link nor who is on it.
proof fn lemma_nest_keeps_errors(
    v: crate::graph::NetView,
    parent: NodeId,
    node: NodeId,
    link: LinkId,
)
    requires
        v.inv(),
        v.nodes.contains_key(parent),
        v.nodes.contains_key(node),
        v.own_error(parent, link) is None,
        v.subscribe_error(node, link) is None,
    ensures
        v.nest_result(parent, node).own_error(parent, link) is None,
        v.nest_result(parent, node).subscribe_error(node, link) is None,
{
    let w = v.nest_result(parent, node);
    if w.link_name_taken(parent, link) {
        let other = choose|other: LinkId| #[trigger]
            w.nodes[parent].internal_links.contains(other) && w.links[other].name
                == w.links[link].name;
        assert(v.nodes[parent].internal_links.contains(other));
    }
    if w.node_name_taken(node, link) {
        let other = choose|other: NodeId| #[trigger]
            w.links[link].subscribers.contains(other) && w.nodes[other].name == w.nodes[node].name;
        assert(v.links[link].subscribers.contains(other));
    }
}

/// Owning a link does not change who is on it.
proof fn lemma_own_keeps_errors(
    v: crate::graph::NetView,
    owner: NodeId,
    node: NodeId,
    link: LinkId,
)
    requires
        v.inv(),
        v.own_error(owner, link) is None,
        v.subscribe_error(node, link) is None,
    ensures
        v.own_result(owner, link).subscribe_error(node, link) is None,
{
    let w = v.own_result(owner, link);
    if w.node_name_taken(node, link) {
        let other = choose|other: NodeId| #[trigger]
            w.links[link].subscribers.contains(other) && w.nodes[other].name == w.nodes[node].name;
        assert(v.links[link].subscribers.contains(other));
    }
}

/// There is only one listing of a set of handles.
pub proof fn lemma_listing_unique(all: Set<NodeId>, a: Seq<NodeId>, b: Seq<NodeId>)
    requires
        is_listing(all, a),
        is_listing(all, b),
    ensures
        a == b,
    decreases a.len(),
{
    if a.len() == 0 {
        if b.len() > 0 {
            assert(b.contains(b[0]));
            assert(a.contains(b[0]));
        }
    } else {
        assert(a.contains(a.last()));
        assert(b.contains(a.last()));
        assert(b.contains(b.last()));
        assert(a.contains(b.last()));
        let i = choose|i: int| 0 <= i < b.len() && b[i] == a.last();
        let j = choose|j: int| 0 <= j < a.len() && a[j] == b.last();
        assert(a.last() == b.last()) by {
            if i < b.len() - 1 {
                assert(b[i].rank() < b[b.len() - 1].rank());
                if j < a.len() - 1 {
                    assert(a[j].rank() < a[a.len() - 1].rank());
                }
            }
        }
        let rest = all.remove(a.last());
        lemma_listing_front(all, a);
        lemma_listing_front(all, b);
        lemma_listing_unique(rest, a.drop_last(), b.drop_last());
        assert(a =~= a.drop_last().push(a.last()));
        assert(b =~= b.drop_last().push(b.last()));
    }
}

proof fn lemma_listing_front(all: Set<NodeId>, a: Seq<NodeId>)
    requires
        is_listing(all, a),
        a.len() > 0,
    ensures
        is_listing(all.remove(a.last()), a.drop_last()),
{
    let front = a.drop_last();
    lemma_listing_distinct(all, a);
    assert forall|k: NodeId| #[trigger] front.contains(k) <==> all.remove(a.last()).contains(k) by {
        if front.contains(k) {
            let i = choose|i: int| 0 <= i < front.len() && front[i] == k;
            assert(a[i] == k);
            assert(a.contains(k));
        }
        if all.remove(a.last()).contains(k) {
            assert(a.contains(k));
            let i = choose|i: int| 0 <= i < a.len() && a[i] == k;
            assert(front[i] == k);
        }
    }
    assert forall|i: int, j: int| 0 <= i < j < front.len() implies #[trigger] front[i].rank()
        < #[trigger] front[j].rank() by {
        assert(a[i].rank() < a[j].rank());
    }
}

/// Nodes and links are listed in creation order: a new one comes last, and removing some leaves
/// the others in the order they were in.
pub proof fn law_listings_are_in_creation_order(
    v: crate::graph::NetView,
    id: NodeId,
    link: LinkId,
    name: Seq<char>,
    kind: Seq<char>,
    gone: NodeId,
    gone_link: LinkId,
)
    ensures
        v.with_node(id, name, kind).node_order == v.node_order.push(id),
        v.with_node(id, name, kind).link_order == v.link_order,
        v.with_link(link, name).link_order == v.link_order.push(link),
        v.with_link(link, name).node_order == v.node_order,
        crate::lists::in_same_order(v.removed(gone).node_order, v.node_order),
        crate::lists::in_same_order(v.removed(gone).link_order, v.link_order),
        v.link_removed(gone_link).node_order == v.node_order,
        crate::lists::in_same_order(v.link_removed(gone_link).link_order, v.link_order),
{
    crate::lists::lemma_without_in_order(v.node_order, v.doomed_nodes(gone));
    crate::lists::lemma_without_in_order(v.link_order, v.doomed_links(gone));
    crate::lists::lemma_without_in_order(v.link_order, set![gone_link]);
}

} // verus!
