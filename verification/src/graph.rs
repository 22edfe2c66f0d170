//! The node/link graph as a mathematical value: what a network holds, what is always true of it,
//! and what each change makes of it.

use vstd::prelude::*;

use crate::ids::{LinkId, NodeId};
use crate::network::NetworkError;

verus! {

/// What a node holds.
#[verifier::ext_equal]
pub struct NodeView {
    pub name: Seq<char>,
    pub kind: Seq<char>,
    pub parent: Option<NodeId>,
    pub children: Seq<NodeId>,
    pub internal_links: Seq<LinkId>,
    pub subscriptions: Seq<LinkId>,
}

/// What a link holds.
#[verifier::ext_equal]
pub struct LinkView {
    pub name: Seq<char>,
    pub owner: Option<NodeId>,
    pub subscribers: Seq<NodeId>,
}

/// What a network holds.
#[verifier::ext_equal]
pub struct NetView {
    pub nodes: Map<NodeId, NodeView>,
    pub links: Map<LinkId, LinkView>,
    pub root: NodeId,
    /// The nodes in the order in which they were created.
    pub node_order: Seq<NodeId>,
    /// The links in the order in which they were created.
    pub link_order: Seq<LinkId>,
}

/// Whether `order` has everything in `all`, each once, and nothing else.
pub open spec fn lists<T>(order: Seq<T>, all: Set<T>) -> bool {
    &&& order.no_duplicates()
    &&& forall|k: T| #[trigger] order.contains(k) <==> all.contains(k)
}

/// Whether `c` is a control character.
pub open spec fn is_control(c: char) -> bool {
    (c as u32) < 0x20 || 0x7f <= (c as u32) < 0xa0
}

/// Whether `name` is one of the names with a special meaning in routes.
pub open spec fn is_reserved(name: Seq<char>) -> bool {
    ||| name == crate::names::ROOT@
    ||| name == crate::names::PARENT@
    ||| name == crate::names::BROADCAST@
    ||| name == crate::names::ANY_LINK@
}

/// Whether a node or link may be called `name`: it is not empty, has no special meaning in
/// routes, holds no route syntax and no control characters, and has no whitespace around it.
pub open spec fn valid_name(name: Seq<char>) -> bool {
    &&& name.len() > 0
    &&& !is_reserved(name)
    &&& !crate::text::is_white(name[0])
    &&& !crate::text::is_white(name.last())
    &&& forall|i: int|
        0 <= i < name.len() ==> name[i] != '@' && name[i] != '/' && !is_control(#[trigger] name[i])
}

/// No name of two characters or more has a special meaning in routes.
pub proof fn lemma_not_reserved(name: Seq<char>)
    requires
        name.len() > 1,
    ensures
        !is_reserved(name),
{
    reveal_strlit(".");
    reveal_strlit("^");
    reveal_strlit("*");
    reveal_strlit("?");
}

/// The `k`th ancestor of `x`: itself, its parent, its grandparent and so on.
pub open spec fn up(nodes: Map<NodeId, NodeView>, x: NodeId, k: nat) -> Option<NodeId>
    decreases k,
{
    if k == 0 {
        if nodes.contains_key(x) {
            Some(x)
        } else {
            None
        }
    } else {
        match up(nodes, x, (k - 1) as nat) {
            Some(y) => nodes[y].parent,
            None => None,
        }
    }
}

/// Whether `a` is `x` itself or one of its ancestors.
pub open spec fn within(nodes: Map<NodeId, NodeView>, x: NodeId, a: NodeId) -> bool {
    exists|k: nat| up(nodes, x, k) == Some(a)
}

/// Whether `x` has exactly `k` ancestors, itself included.
pub open spec fn is_height(nodes: Map<NodeId, NodeView>, x: NodeId, k: nat) -> bool {
    &&& up(nodes, x, k) is None
    &&& forall|j: nat| j < k ==> up(nodes, x, j) is Some
}

/// How many ancestors `x` has, itself included.
pub open spec fn height(nodes: Map<NodeId, NodeView>, x: NodeId) -> nat {
    choose|k: nat| is_height(nodes, x, k)
}

/// `x`, then its parent, then its grandparent, up to the top of its tree.
pub open spec fn ancestors(nodes: Map<NodeId, NodeView>, x: NodeId) -> Seq<NodeId> {
    Seq::new(height(nodes, x), |i: int| up(nodes, x, i as nat)->0)
}

/// Parents and children agree.
pub open spec fn tree(nodes: Map<NodeId, NodeView>) -> bool {
    &&& forall|n: NodeId|
        #![trigger nodes[n]]
        nodes.contains_key(n) ==> nodes[n].children.no_duplicates() && match nodes[n].parent {
            Some(p) => nodes.contains_key(p) && nodes[p].children.contains(n),
            None => true,
        }
    &&& forall|n: NodeId, c: NodeId|
        #![trigger nodes[n].children.contains(c)]
        nodes.contains_key(n) && nodes[n].children.contains(c) ==> nodes.contains_key(c)
            && nodes[c].parent == Some(n)
}

/// Whether the chain of parents from `x` ends.
pub open spec fn ends(nodes: Map<NodeId, NodeView>, x: NodeId) -> bool {
    exists|k: nat| up(nodes, x, k) is None
}

/// No node is its own ancestor: every chain of parents ends.
pub open spec fn grounded(nodes: Map<NodeId, NodeView>) -> bool {
    forall|x: NodeId| nodes.contains_key(x) ==> #[trigger] ends(nodes, x)
}

/// Owners and internal links agree.
pub open spec fn owned(nodes: Map<NodeId, NodeView>, links: Map<LinkId, LinkView>) -> bool {
    &&& forall|n: NodeId|
        #![trigger nodes[n]]
        nodes.contains_key(n) ==> nodes[n].internal_links.no_duplicates()
    &&& forall|n: NodeId, l: LinkId|
        #![trigger nodes[n].internal_links.contains(l)]
        nodes.contains_key(n) && nodes[n].internal_links.contains(l) ==> links.contains_key(l)
            && links[l].owner == Some(n)
    &&& forall|l: LinkId|
        #![trigger links[l]]
        links.contains_key(l) ==> match links[l].owner {
            Some(n) => nodes.contains_key(n) && nodes[n].internal_links.contains(l),
            None => true,
        }
}

/// Subscriptions and subscribers agree.
pub open spec fn attached(nodes: Map<NodeId, NodeView>, links: Map<LinkId, LinkView>) -> bool {
    &&& forall|n: NodeId|
        #![trigger nodes[n]]
        nodes.contains_key(n) ==> nodes[n].subscriptions.no_duplicates()
    &&& forall|l: LinkId|
        #![trigger links[l]]
        links.contains_key(l) ==> links[l].subscribers.no_duplicates()
    &&& forall|n: NodeId, l: LinkId|
        #![trigger nodes[n].subscriptions.contains(l)]
        nodes.contains_key(n) && nodes[n].subscriptions.contains(l) ==> links.contains_key(l)
            && links[l].subscribers.contains(n)
    &&& forall|l: LinkId, n: NodeId|
        #![trigger links[l].subscribers.contains(n)]
        links.contains_key(l) && links[l].subscribers.contains(n) ==> nodes.contains_key(n)
            && nodes[n].subscriptions.contains(l)
}

/// Names are valid, no two subscribers of a link share one, and no two internal links of a node
/// share one.
pub open spec fn named(
    nodes: Map<NodeId, NodeView>,
    links: Map<LinkId, LinkView>,
    root: NodeId,
) -> bool {
    &&& forall|n: NodeId|
        #![trigger nodes[n]]
        nodes.contains_key(n) && n != root ==> valid_name(nodes[n].name)
    &&& forall|l: LinkId| #![trigger links[l]] links.contains_key(l) ==> valid_name(links[l].name)
    &&& forall|l: LinkId, a: NodeId, b: NodeId|
        #![trigger links[l].subscribers.contains(a), links[l].subscribers.contains(b)]
        links.contains_key(l) && links[l].subscribers.contains(a)
            && links[l].subscribers.contains(b) && a != b ==> nodes[a].name != nodes[b].name
    &&& forall|n: NodeId, a: LinkId, b: LinkId|
        #![trigger nodes[n].internal_links.contains(a), nodes[n].internal_links.contains(b)]
        nodes.contains_key(n) && nodes[n].internal_links.contains(a)
            && nodes[n].internal_links.contains(b) && a != b ==> links[a].name != links[b].name
}

impl NetView {
    /// What is always true of a network.
    pub open spec fn inv(self) -> bool {
        &&& self.nodes.dom().finite()
        &&& self.links.dom().finite()
        &&& self.nodes.contains_key(self.root)
        &&& self.nodes[self.root].parent is None
        &&& tree(self.nodes)
        &&& grounded(self.nodes)
        &&& owned(self.nodes, self.links)
        &&& attached(self.nodes, self.links)
        &&& named(self.nodes, self.links, self.root)
        &&& lists(self.node_order, self.nodes.dom())
        &&& lists(self.link_order, self.links.dom())
    }

    /// Whether `node` may transmit on `link`: it is subscribed to it or owns it.
    pub open spec fn can_use_link(self, node: NodeId, link: LinkId) -> bool {
        self.links.contains_key(link) && (self.links[link].subscribers.contains(node)
            || self.links[link].owner == Some(node))
    }

    /// Whether there is nothing but the root node, with nothing in it.
    pub open spec fn only_root(self) -> bool {
        &&& self.nodes == Map::<NodeId, NodeView>::empty().insert(
            self.root,
            NodeView {
                name: crate::names::ROOT@,
                kind: "root"@,
                parent: None,
                children: Seq::empty(),
                internal_links: Seq::empty(),
                subscriptions: Seq::empty(),
            },
        )
        &&& self.links == Map::<LinkId, LinkView>::empty()
        &&& self.node_order == seq![self.root]
        &&& self.link_order == Seq::<LinkId>::empty()
    }

    /// The network with a detached node added.
    pub open spec fn with_node(self, id: NodeId, name: Seq<char>, kind: Seq<char>) -> NetView {
        NetView {
            nodes: self.nodes.insert(
                id,
                NodeView {
                    name,
                    kind,
                    parent: None,
                    children: Seq::empty(),
                    internal_links: Seq::empty(),
                    subscriptions: Seq::empty(),
                },
            ),
            node_order: self.node_order.push(id),
            ..self
        }
    }

    /// The network with a link added that has no owner and no subscribers.
    pub open spec fn with_link(self, id: LinkId, name: Seq<char>) -> NetView {
        NetView {
            links: self.links.insert(
                id,
                LinkView { name, owner: None, subscribers: Seq::empty() },
            ),
            link_order: self.link_order.push(id),
            ..self
        }
    }

    /// The network with `node` nested in `parent`.
    pub open spec fn nested(self, parent: NodeId, node: NodeId) -> NetView {
        let inner = NodeView { parent: Some(parent), ..self.nodes[node] };
        let outer = NodeView {
            children: self.nodes[parent].children.push(node),
            ..self.nodes[parent]
        };
        NetView { nodes: self.nodes.insert(node, inner).insert(parent, outer), ..self }
    }

    /// The network with `link` internal to `owner`.
    pub open spec fn owning(self, owner: NodeId, link: LinkId) -> NetView {
        let inner = LinkView { owner: Some(owner), ..self.links[link] };
        let outer = NodeView {
            internal_links: self.nodes[owner].internal_links.push(link),
            ..self.nodes[owner]
        };
        NetView {
            nodes: self.nodes.insert(owner, outer),
            links: self.links.insert(link, inner),
            ..self
        }
    }

    /// The network with `node` subscribed to `link`.
    pub open spec fn joined(self, node: NodeId, link: LinkId) -> NetView {
        let n = NodeView {
            subscriptions: self.nodes[node].subscriptions.push(link),
            ..self.nodes[node]
        };
        let l = LinkView {
            subscribers: self.links[link].subscribers.push(node),
            ..self.links[link]
        };
        NetView {
            nodes: self.nodes.insert(node, n),
            links: self.links.insert(link, l),
            ..self
        }
    }

    /// The network with `node` no longer subscribed to `link`.
    pub open spec fn left(self, node: NodeId, link: LinkId) -> NetView {
        let n = NodeView {
            subscriptions: crate::lists::without(self.nodes[node].subscriptions, set![link]),
            ..self.nodes[node]
        };
        let l = LinkView {
            subscribers: crate::lists::without(self.links[link].subscribers, set![node]),
            ..self.links[link]
        };
        NetView {
            nodes: self.nodes.insert(node, n),
            links: self.links.insert(link, l),
            ..self
        }
    }

    /// The network with `node` no longer subscribed to any of `gone`.
    pub open spec fn left_all(self, node: NodeId, gone: Seq<LinkId>) -> NetView
        decreases gone.len(),
    {
        if gone.len() == 0 {
            self
        } else {
            self.left_all(node, gone.drop_last()).left(node, gone.last())
        }
    }

    /// The network with `node` taken out of `parent`, its links left alone.
    pub open spec fn unnested(self, parent: NodeId, node: NodeId) -> NetView {
        let outer = NodeView {
            children: crate::lists::without(self.nodes[parent].children, set![node]),
            ..self.nodes[parent]
        };
        let inner = NodeView { parent: None, ..self.nodes[node] };
        NetView { nodes: self.nodes.insert(parent, outer).insert(node, inner), ..self }
    }

    /// The network with `node` taken out of `parent` and off all of `parent`'s internal links.
    pub open spec fn disconnected(self, parent: NodeId, node: NodeId) -> NetView {
        self.left_all(node, self.nodes[parent].internal_links).unnested(parent, node)
    }

    /// Whether some other internal link of `owner` has the name of `link`.
    pub open spec fn link_name_taken(self, owner: NodeId, link: LinkId) -> bool {
        exists|other: LinkId| #[trigger]
            self.nodes[owner].internal_links.contains(other) && self.links[other].name
                == self.links[link].name
    }

    /// Whether some other subscriber of `link` has the name of `node`.
    pub open spec fn node_name_taken(self, node: NodeId, link: LinkId) -> bool {
        exists|other: NodeId| #[trigger]
            self.links[link].subscribers.contains(other) && self.nodes[other].name
                == self.nodes[node].name
    }

    /// Why `link` cannot be made internal to `owner`, if it cannot.
    pub open spec fn own_error(self, owner: NodeId, link: LinkId) -> Option<NetworkError> {
        if !self.nodes.contains_key(owner) {
            Some(NetworkError::UnknownNode(owner))
        } else if !self.links.contains_key(link) {
            Some(NetworkError::UnknownLink(link))
        } else if self.links[link].owner == Some(owner) {
            None
        } else if self.links[link].owner is Some {
            Some(NetworkError::LinkOwnedElsewhere(link))
        } else if self.link_name_taken(owner, link) {
            Some(NetworkError::NameConflict { link })
        } else {
            None
        }
    }

    /// The network after `link` was made internal to `owner`, which it may already be.
    pub open spec fn own_result(self, owner: NodeId, link: LinkId) -> NetView {
        if self.links[link].owner == Some(owner) {
            self
        } else {
            self.owning(owner, link)
        }
    }

    /// Why `node` cannot be subscribed to `link`, if it cannot.
    pub open spec fn subscribe_error(self, node: NodeId, link: LinkId) -> Option<NetworkError> {
        if !self.nodes.contains_key(node) {
            Some(NetworkError::UnknownNode(node))
        } else if !self.links.contains_key(link) {
            Some(NetworkError::UnknownLink(link))
        } else if self.links[link].subscribers.contains(node) {
            None
        } else if self.node_name_taken(node, link) {
            Some(NetworkError::NameConflict { link })
        } else {
            None
        }
    }

    /// The network after `node` was subscribed to `link`, which it may already be.
    pub open spec fn subscribe_result(self, node: NodeId, link: LinkId) -> NetView {
        if self.links[link].subscribers.contains(node) {
            self
        } else {
            self.joined(node, link)
        }
    }

    /// Why `node` cannot be connected under `parent` on `link`, if it cannot.
    pub open spec fn connect_error(
        self,
        parent: NodeId,
        node: NodeId,
        link: Option<LinkId>,
    ) -> Option<NetworkError> {
        if !self.nodes.contains_key(parent) {
            Some(NetworkError::UnknownNode(parent))
        } else if !self.nodes.contains_key(node) {
            Some(NetworkError::UnknownNode(node))
        } else if node == self.root {
            Some(NetworkError::IsRoot)
        } else if self.nodes[node].parent is Some && self.nodes[node].parent != Some(parent) {
            Some(NetworkError::AlreadyHasParent(node))
        } else if within(self.nodes, parent, node) {
            Some(NetworkError::WouldCreateCycle)
        } else {
            match link {
                None => None,
                Some(link) => match self.own_error(parent, link) {
                    Some(e) => Some(e),
                    None => self.subscribe_error(node, link),
                },
            }
        }
    }

    /// The network after `node` was nested in `parent`, which it may already be.
    pub open spec fn nest_result(self, parent: NodeId, node: NodeId) -> NetView {
        if self.nodes[node].parent == Some(parent) {
            self
        } else {
            self.nested(parent, node)
        }
    }

    /// The network after `node` was connected under `parent` on `link`.
    pub open spec fn connect_result(
        self,
        parent: NodeId,
        node: NodeId,
        link: Option<LinkId>,
    ) -> NetView {
        let inside = self.nest_result(parent, node);
        match link {
            None => inside,
            Some(link) => inside.own_result(parent, link).subscribe_result(node, link),
        }
    }

    /// The nodes that go when `id` goes: itself and everything inside it.
    pub open spec fn doomed_nodes(self, id: NodeId) -> Set<NodeId> {
        Set::new(|x: NodeId| self.nodes.contains_key(x) && within(self.nodes, x, id))
    }

    /// The links that go when `id` goes: those owned by the nodes that go.
    pub open spec fn doomed_links(self, id: NodeId) -> Set<LinkId> {
        Set::new(
            |l: LinkId|
                self.links.contains_key(l) && self.links[l].owner is Some && self.doomed_nodes(
                    id,
                ).contains(self.links[l].owner->0),
        )
    }

    /// A node as it is when the given nodes and links are gone.
    pub open spec fn pruned_node(
        self,
        n: NodeId,
        nodes: Set<NodeId>,
        links: Set<LinkId>,
    ) -> NodeView {
        NodeView {
            children: crate::lists::without(self.nodes[n].children, nodes),
            internal_links: crate::lists::without(self.nodes[n].internal_links, links),
            subscriptions: crate::lists::without(self.nodes[n].subscriptions, links),
            ..self.nodes[n]
        }
    }

    /// A link as it is when the given nodes are gone.
    pub open spec fn pruned_link(self, l: LinkId, nodes: Set<NodeId>) -> LinkView {
        LinkView {
            subscribers: crate::lists::without(self.links[l].subscribers, nodes),
            ..self.links[l]
        }
    }

    /// The network without the given nodes and links.
    pub open spec fn pruned(self, nodes: Set<NodeId>, links: Set<LinkId>) -> NetView {
        NetView {
            nodes: Map::new(
                |n: NodeId| self.nodes.contains_key(n) && !nodes.contains(n),
                |n: NodeId| self.pruned_node(n, nodes, links),
            ),
            links: Map::new(
                |l: LinkId| self.links.contains_key(l) && !links.contains(l),
                |l: LinkId| self.pruned_link(l, nodes),
            ),
            node_order: crate::lists::without(self.node_order, nodes),
            link_order: crate::lists::without(self.link_order, links),
            ..self
        }
    }

    /// The network without `id`, everything inside it, and the links they own.
    pub open spec fn removed(self, id: NodeId) -> NetView {
        self.pruned(self.doomed_nodes(id), self.doomed_links(id))
    }

    /// The network without `link`; its subscribers and owner stay.
    pub open spec fn link_removed(self, link: LinkId) -> NetView {
        NetView {
            nodes: Map::new(
                |n: NodeId| self.nodes.contains_key(n),
                |n: NodeId| self.pruned_node(n, Set::empty(), set![link]),
            ),
            links: self.links.remove(link),
            link_order: crate::lists::without(self.link_order, set![link]),
            ..self
        }
    }
}

/// Once a chain of parents has ended it stays ended.
pub proof fn lemma_up_ended(nodes: Map<NodeId, NodeView>, x: NodeId, j: nat, k: nat)
    requires
        j <= k,
        up(nodes, x, j) is None,
    ensures
        up(nodes, x, k) is None,
    decreases k,
{
    if j < k {
        lemma_up_ended(nodes, x, j, (k - 1) as nat);
    }
}

/// A chain of parents goes on from any node in it.
pub proof fn lemma_up_from(nodes: Map<NodeId, NodeView>, x: NodeId, y: NodeId, a: nat, b: nat)
    requires
        up(nodes, x, a) == Some(y),
        nodes.contains_key(y),
    ensures
        up(nodes, x, a + b) == up(nodes, y, b),
    decreases b,
{
    if b > 0 {
        lemma_up_from(nodes, x, y, a, (b - 1) as nat);
        assert((a + b - 1) as nat == a + (b - 1) as nat);
    }
}

/// In a tree, ancestors are nodes of the tree.
pub proof fn lemma_up_known(nodes: Map<NodeId, NodeView>, x: NodeId, k: nat)
    requires
        tree(nodes),
    ensures
        up(nodes, x, k) matches Some(y) ==> nodes.contains_key(y),
    decreases k,
{
    if k > 0 {
        lemma_up_known(nodes, x, (k - 1) as nat);
    }
}

/// A chain of parents that ends has a length.
pub proof fn lemma_height(nodes: Map<NodeId, NodeView>, x: NodeId, k: nat)
    requires
        up(nodes, x, k) is None,
    ensures
        is_height(nodes, x, height(nodes, x)),
        height(nodes, x) <= k,
{
    lemma_some_height(nodes, x, k);
    let h = height(nodes, x);
    if k < h {
        assert(up(nodes, x, k) is Some);
    }
}

proof fn lemma_some_height(nodes: Map<NodeId, NodeView>, x: NodeId, k: nat)
    requires
        up(nodes, x, k) is None,
    ensures
        exists|h: nat| is_height(nodes, x, h),
    decreases k,
{
    if k == 0 {
        assert(is_height(nodes, x, 0));
    } else if up(nodes, x, (k - 1) as nat) is None {
        lemma_some_height(nodes, x, (k - 1) as nat);
    } else {
        assert forall|j: nat| j < k implies up(nodes, x, j) is Some by {
            if up(nodes, x, j) is None {
                lemma_up_ended(nodes, x, j, (k - 1) as nat);
            }
        }
        assert(is_height(nodes, x, k));
    }
}

/// The ancestors are exactly the nodes that `x` is within.
pub proof fn lemma_ancestors(nodes: Map<NodeId, NodeView>, x: NodeId)
    requires
        grounded(nodes),
    ensures
        is_height(nodes, x, height(nodes, x)),
        forall|a: NodeId| ancestors(nodes, x).contains(a) <==> #[trigger] within(nodes, x, a),
{
    if nodes.contains_key(x) {
        assert(ends(nodes, x));
        let k = choose|k: nat| up(nodes, x, k) is None;
        lemma_height(nodes, x, k);
    } else {
        lemma_height(nodes, x, 0);
    }
    let h = height(nodes, x);
    let s = ancestors(nodes, x);
    assert forall|a: NodeId| s.contains(a) <==> #[trigger] within(nodes, x, a) by {
        if s.contains(a) {
            let i = choose|i: int| 0 <= i < s.len() && s[i] == a;
            assert(up(nodes, x, i as nat) == Some(a));
        }
        if within(nodes, x, a) {
            let k = choose|k: nat| up(nodes, x, k) == Some(a);
            if k >= h {
                lemma_up_ended(nodes, x, h, k);
            }
            assert(s[k as int] == a);
        }
    }
}

/// A chain of parents that meets no changed parent on the way is the same in both maps.
proof fn lemma_up_same(
    a: Map<NodeId, NodeView>,
    b: Map<NodeId, NodeView>,
    x: NodeId,
    k: nat,
    node: NodeId,
)
    requires
        a.contains_key(x) <==> b.contains_key(x),
        forall|y: NodeId| #[trigger] a[y].parent == b[y].parent || y == node,
        forall|j: nat| j < k ==> up(a, x, j) != Some(node),
    ensures
        up(b, x, k) == up(a, x, k),
    decreases k,
{
    if k > 0 {
        lemma_up_same(a, b, x, (k - 1) as nat, node);
        assert(up(a, x, (k - 1) as nat) != Some(node));
        match up(a, x, (k - 1) as nat) {
            Some(y) => {
                assert(a[y].parent == b[y].parent);
            },
            None => {},
        }
    }
}

/// The first place where a chain of parents meets `a`.
proof fn lemma_first_meeting(nodes: Map<NodeId, NodeView>, x: NodeId, a: NodeId, k: nat) -> (r: nat)
    requires
        up(nodes, x, k) == Some(a),
    ensures
        up(nodes, x, r) == Some(a),
        forall|j: nat| j < r ==> up(nodes, x, j) != Some(a),
    decreases k,
{
    if exists|j: nat| j < k && up(nodes, x, j) == Some(a) {
        let j = choose|j: nat| j < k && up(nodes, x, j) == Some(a);
        lemma_first_meeting(nodes, x, a, j)
    } else {
        k
    }
}

/// Adding a detached node keeps the invariant.
pub proof fn lemma_with_node(v: NetView, id: NodeId, name: Seq<char>, kind: Seq<char>)
    requires
        v.inv(),
        !v.nodes.contains_key(id),
        valid_name(name),
    ensures
        v.with_node(id, name, kind).inv(),
        forall|x: NodeId, k: nat| v.nodes.contains_key(x) ==> #[trigger] up(
            v.with_node(id, name, kind).nodes,
            x,
            k,
        ) == up(v.nodes, x, k),
{
    let w = v.with_node(id, name, kind);
    assert forall|x: NodeId, k: nat| v.nodes.contains_key(x) implies #[trigger] up(w.nodes, x, k)
        == up(v.nodes, x, k) by {
        lemma_up_with_node(v, id, name, kind, x, k);
    }
    assert(grounded(w.nodes)) by {
        assert forall|x: NodeId| w.nodes.contains_key(x) implies #[trigger] ends(w.nodes, x) by {
            if x == id {
                assert(up(w.nodes, x, 0) == Some(id));
                assert(up(w.nodes, x, 1) is None);
            } else {
                assert(ends(v.nodes, x));
                let k = choose|k: nat| up(v.nodes, x, k) is None;
                assert(up(w.nodes, x, k) is None);
            }
        }
    }
    assert(tree(w.nodes));
    assert(owned(w.nodes, w.links));
    assert(attached(w.nodes, w.links));
    assert(named(w.nodes, w.links, w.root));
    crate::lists::lemma_push_contains(v.node_order, id);
    assert(lists(w.node_order, w.nodes.dom()));
}

proof fn lemma_up_with_node(
    v: NetView,
    id: NodeId,
    name: Seq<char>,
    kind: Seq<char>,
    x: NodeId,
    k: nat,
)
    requires
        v.inv(),
        !v.nodes.contains_key(id),
        v.nodes.contains_key(x),
    ensures
        up(v.with_node(id, name, kind).nodes, x, k) == up(v.nodes, x, k),
    decreases k,
{
    if k > 0 {
        lemma_up_with_node(v, id, name, kind, x, (k - 1) as nat);
        lemma_up_known(v.nodes, x, (k - 1) as nat);
    }
}

/// Adding a link keeps the invariant.
pub proof fn lemma_with_link(v: NetView, id: LinkId, name: Seq<char>)
    requires
        v.inv(),
        !v.links.contains_key(id),
        valid_name(name),
    ensures
        v.with_link(id, name).inv(),
{
    let w = v.with_link(id, name);
    assert(owned(w.nodes, w.links));
    assert(attached(w.nodes, w.links));
    assert(named(w.nodes, w.links, w.root));
    crate::lists::lemma_push_contains(v.link_order, id);
    assert(lists(w.link_order, w.links.dom()));
}

/// Nesting a detached node keeps the invariant, as long as it makes no cycle.
pub proof fn lemma_nested(v: NetView, parent: NodeId, node: NodeId)
    requires
        v.inv(),
        v.nodes.contains_key(parent),
        v.nodes.contains_key(node),
        node != v.root,
        v.nodes[node].parent is None,
        !within(v.nodes, parent, node),
    ensures
        v.nested(parent, node).inv(),
{
    let w = v.nested(parent, node);
    assert(up(v.nodes, parent, 0) == Some(parent));
    assert(parent != node);
    assert(!v.nodes[parent].children.contains(node));
    crate::lists::lemma_push_contains(v.nodes[parent].children, node);
    assert(tree(w.nodes)) by {
        assert forall|n: NodeId|
            #![trigger w.nodes[n]]
            w.nodes.contains_key(n) implies w.nodes[n].children.no_duplicates()
            && match w.nodes[n].parent {
            Some(p) => w.nodes.contains_key(p) && w.nodes[p].children.contains(n),
            None => true,
        } by {
            assert(v.nodes.contains_key(n));
            assert(v.nodes[n] == v.nodes[n]);
        }
    }
    assert(grounded(w.nodes)) by {
        assert forall|x: NodeId| w.nodes.contains_key(x) implies #[trigger] ends(w.nodes, x) by {
            lemma_nested_chain(v, parent, node, x);
        }
    }
    assert(owned(w.nodes, w.links)) by {
        assert forall|n: NodeId, l: LinkId|
            #![trigger w.nodes[n].internal_links.contains(l)]
            w.nodes.contains_key(n) && w.nodes[n].internal_links.contains(
                l,
            ) implies w.links.contains_key(l) && w.links[l].owner == Some(n) by {
            assert(v.nodes[n].internal_links.contains(l));
        }
    }
    assert(attached(w.nodes, w.links)) by {
        assert forall|n: NodeId, l: LinkId|
            #![trigger w.nodes[n].subscriptions.contains(l)]
            w.nodes.contains_key(n) && w.nodes[n].subscriptions.contains(
                l,
            ) implies w.links.contains_key(l) && w.links[l].subscribers.contains(n) by {
            assert(v.nodes[n].subscriptions.contains(l));
        }
    }
    assert(named(w.nodes, w.links, w.root)) by {
        assert forall|n: NodeId, a: LinkId, b: LinkId|
            #![trigger w.nodes[n].internal_links.contains(a), w.nodes[n].internal_links.contains(b)]
            w.nodes.contains_key(n) && w.nodes[n].internal_links.contains(a)
                && w.nodes[n].internal_links.contains(b) && a != b implies w.links[a].name
            != w.links[b].name by {
            assert(v.nodes[n].internal_links.contains(a));
            assert(v.nodes[n].internal_links.contains(b));
        }
    }
}

proof fn lemma_nested_chain(v: NetView, parent: NodeId, node: NodeId, x: NodeId)
    requires
        v.inv(),
        v.nodes.contains_key(parent),
        v.nodes.contains_key(node),
        v.nodes.contains_key(x),
        v.nodes[node].parent is None,
        !within(v.nodes, parent, node),
    ensures
        ends(v.nested(parent, node).nodes, x),
{
    let a = v.nodes;
    let b = v.nested(parent, node).nodes;
    assert(up(a, parent, 0) == Some(parent));
    assert(parent != node);
    assert forall|y: NodeId| #[trigger] a[y].parent == b[y].parent || y == node by {}
    assert(ends(a, x));
    assert(ends(a, parent));
    if within(a, x, node) {
        let k0 = choose|k: nat| up(a, x, k) == Some(node);
        let j = lemma_first_meeting(a, x, node, k0);
        lemma_up_same(a, b, x, j, node);
        assert(up(b, x, j) == Some(node));
        assert(up(b, node, 0) == Some(node));
        assert(up(b, node, 1) == Some(parent));
        let m = choose|k: nat| up(a, parent, k) is None;
        assert forall|i: nat| i < m implies up(a, parent, i) != Some(node) by {
            if up(a, parent, i) == Some(node) {
                assert(within(a, parent, node));
            }
        }
        lemma_up_same(a, b, parent, m, node);
        lemma_up_from(b, x, node, j, 1);
        lemma_up_from(b, x, parent, j + 1, m);
        assert(up(b, x, j + 1 + m) is None);
    } else {
        let m = choose|k: nat| up(a, x, k) is None;
        assert forall|i: nat| i < m implies up(a, x, i) != Some(node) by {
            if up(a, x, i) == Some(node) {
                assert(within(a, x, node));
            }
        }
        lemma_up_same(a, b, x, m, node);
    }
}

/// Changing anything but parents changes no chain of parents.
proof fn lemma_same_parents(a: Map<NodeId, NodeView>, b: Map<NodeId, NodeView>)
    requires
        grounded(a),
        forall|y: NodeId| #[trigger] b.contains_key(y) ==> a.contains_key(y),
        forall|y: NodeId| #[trigger] b.contains_key(y) ==> a[y].parent == b[y].parent,
        forall|y: NodeId| #[trigger]
            b.contains_key(y) ==> (b[y].parent matches Some(p) ==> b.contains_key(p)),
    ensures
        grounded(b),
        forall|x: NodeId, k: nat| b.contains_key(x) ==> #[trigger] up(b, x, k) == up(a, x, k),
{
    assert forall|x: NodeId, k: nat| b.contains_key(x) implies #[trigger] up(b, x, k) == up(
        a,
        x,
        k,
    ) by {
        lemma_same_chain(a, b, x, k);
    }
    assert forall|x: NodeId| b.contains_key(x) implies #[trigger] ends(b, x) by {
        assert(ends(a, x));
        let k = choose|k: nat| up(a, x, k) is None;
        assert(up(b, x, k) is None);
    }
}

proof fn lemma_same_chain(a: Map<NodeId, NodeView>, b: Map<NodeId, NodeView>, x: NodeId, k: nat)
    requires
        b.contains_key(x),
        forall|y: NodeId| #[trigger] b.contains_key(y) ==> a.contains_key(y),
        forall|y: NodeId| #[trigger] b.contains_key(y) ==> a[y].parent == b[y].parent,
        forall|y: NodeId| #[trigger]
            b.contains_key(y) ==> (b[y].parent matches Some(p) ==> b.contains_key(p)),
    ensures
        up(b, x, k) == up(a, x, k),
        up(b, x, k) matches Some(y) ==> b.contains_key(y),
    decreases k,
{
    if k > 0 {
        lemma_same_chain(a, b, x, (k - 1) as nat);
    }
}

/// Making a link internal to a node keeps the invariant.
pub proof fn lemma_owning(v: NetView, owner: NodeId, link: LinkId)
    requires
        v.inv(),
        v.nodes.contains_key(owner),
        v.links.contains_key(link),
        v.links[link].owner is None,
        !v.link_name_taken(owner, link),
    ensures
        v.owning(owner, link).inv(),
{
    let w = v.owning(owner, link);
    assert(!v.nodes[owner].internal_links.contains(link));
    crate::lists::lemma_push_contains(v.nodes[owner].internal_links, link);
    assert forall|n: NodeId| #[trigger] w.nodes.contains_key(n) implies v.nodes.contains_key(n)
        && w.nodes[n].parent == v.nodes[n].parent by {}
    assert(tree(w.nodes)) by {
        assert forall|n: NodeId|
            #![trigger w.nodes[n]]
            w.nodes.contains_key(n) implies w.nodes[n].children.no_duplicates()
            && match w.nodes[n].parent {
            Some(p) => w.nodes.contains_key(p) && w.nodes[p].children.contains(n),
            None => true,
        } by {
            assert(v.nodes[n] == v.nodes[n]);
        }
        assert forall|n: NodeId, c: NodeId|
            #![trigger w.nodes[n].children.contains(c)]
            w.nodes.contains_key(n) && w.nodes[n].children.contains(c) implies w.nodes.contains_key(
            c,
        ) && w.nodes[c].parent == Some(n) by {
            assert(v.nodes[n].children.contains(c));
        }
    }
    lemma_same_parents(v.nodes, w.nodes);
    assert(owned(w.nodes, w.links)) by {
        assert forall|n: NodeId, l: LinkId|
            #![trigger w.nodes[n].internal_links.contains(l)]
            w.nodes.contains_key(n) && w.nodes[n].internal_links.contains(
                l,
            ) implies w.links.contains_key(l) && w.links[l].owner == Some(n) by {
            if l != link {
                assert(v.nodes[n].internal_links.contains(l));
            } else if n != owner {
                assert(v.nodes[n].internal_links.contains(l));
            }
        }
        assert forall|l: LinkId|
            #![trigger w.links[l]]
            w.links.contains_key(l) implies match w.links[l].owner {
            Some(n) => w.nodes.contains_key(n) && w.nodes[n].internal_links.contains(l),
            None => true,
        } by {
            assert(v.links[l] == v.links[l]);
        }
    }
    assert(attached(w.nodes, w.links)) by {
        assert forall|n: NodeId, l: LinkId|
            #![trigger w.nodes[n].subscriptions.contains(l)]
            w.nodes.contains_key(n) && w.nodes[n].subscriptions.contains(
                l,
            ) implies w.links.contains_key(l) && w.links[l].subscribers.contains(n) by {
            assert(v.nodes[n].subscriptions.contains(l));
        }
        assert forall|l: LinkId, n: NodeId|
            #![trigger w.links[l].subscribers.contains(n)]
            w.links.contains_key(l) && w.links[l].subscribers.contains(
                n,
            ) implies w.nodes.contains_key(n) && w.nodes[n].subscriptions.contains(l) by {
            assert(v.links[l].subscribers.contains(n));
        }
    }
    assert(named(w.nodes, w.links, w.root)) by {
        assert forall|n: NodeId, a: LinkId, b: LinkId|
            #![trigger w.nodes[n].internal_links.contains(a), w.nodes[n].internal_links.contains(b)]
            w.nodes.contains_key(n) && w.nodes[n].internal_links.contains(a)
                && w.nodes[n].internal_links.contains(b) && a != b implies w.links[a].name
            != w.links[b].name by {
            if n == owner && a == link {
                assert(v.nodes[owner].internal_links.contains(b));
            } else if n == owner && b == link {
                assert(v.nodes[owner].internal_links.contains(a));
            } else {
                assert(v.nodes[n].internal_links.contains(a));
                assert(v.nodes[n].internal_links.contains(b));
            }
        }
        assert forall|l: LinkId, a: NodeId, b: NodeId|
            #![trigger w.links[l].subscribers.contains(a), w.links[l].subscribers.contains(b)]
            w.links.contains_key(l) && w.links[l].subscribers.contains(a)
                && w.links[l].subscribers.contains(b) && a != b implies w.nodes[a].name
            != w.nodes[b].name by {
            assert(v.links[l].subscribers.contains(a));
            assert(v.links[l].subscribers.contains(b));
        }
    }
}

/// Subscribing a node to a link keeps the invariant.
pub proof fn lemma_joined(v: NetView, node: NodeId, link: LinkId)
    requires
        v.inv(),
        v.nodes.contains_key(node),
        v.links.contains_key(link),
        !v.links[link].subscribers.contains(node),
        !v.node_name_taken(node, link),
    ensures
        v.joined(node, link).inv(),
{
    let w = v.joined(node, link);
    assert(!v.nodes[node].subscriptions.contains(link));
    crate::lists::lemma_push_contains(v.nodes[node].subscriptions, link);
    crate::lists::lemma_push_contains(v.links[link].subscribers, node);
    assert(tree(w.nodes)) by {
        assert forall|n: NodeId|
            #![trigger w.nodes[n]]
            w.nodes.contains_key(n) implies w.nodes[n].children.no_duplicates()
            && match w.nodes[n].parent {
            Some(p) => w.nodes.contains_key(p) && w.nodes[p].children.contains(n),
            None => true,
        } by {
            assert(v.nodes[n] == v.nodes[n]);
        }
        assert forall|n: NodeId, c: NodeId|
            #![trigger w.nodes[n].children.contains(c)]
            w.nodes.contains_key(n) && w.nodes[n].children.contains(c) implies w.nodes.contains_key(
            c,
        ) && w.nodes[c].parent == Some(n) by {
            assert(v.nodes[n].children.contains(c));
        }
    }
    lemma_same_parents(v.nodes, w.nodes);
    assert(owned(w.nodes, w.links)) by {
        assert forall|n: NodeId, l: LinkId|
            #![trigger w.nodes[n].internal_links.contains(l)]
            w.nodes.contains_key(n) && w.nodes[n].internal_links.contains(
                l,
            ) implies w.links.contains_key(l) && w.links[l].owner == Some(n) by {
            assert(v.nodes[n].internal_links.contains(l));
        }
        assert forall|l: LinkId|
            #![trigger w.links[l]]
            w.links.contains_key(l) implies match w.links[l].owner {
            Some(n) => w.nodes.contains_key(n) && w.nodes[n].internal_links.contains(l),
            None => true,
        } by {
            assert(v.links[l] == v.links[l]);
        }
    }
    assert(attached(w.nodes, w.links)) by {
        assert forall|n: NodeId, l: LinkId|
            #![trigger w.nodes[n].subscriptions.contains(l)]
            w.nodes.contains_key(n) && w.nodes[n].subscriptions.contains(
                l,
            ) implies w.links.contains_key(l) && w.links[l].subscribers.contains(n) by {
            if !(n == node && l == link) {
                assert(v.nodes[n].subscriptions.contains(l));
            }
        }
        assert forall|l: LinkId, n: NodeId|
            #![trigger w.links[l].subscribers.contains(n)]
            w.links.contains_key(l) && w.links[l].subscribers.contains(
                n,
            ) implies w.nodes.contains_key(n) && w.nodes[n].subscriptions.contains(l) by {
            if !(n == node && l == link) {
                assert(v.links[l].subscribers.contains(n));
            }
        }
    }
    assert(named(w.nodes, w.links, w.root)) by {
        assert forall|n: NodeId, a: LinkId, b: LinkId|
            #![trigger w.nodes[n].internal_links.contains(a), w.nodes[n].internal_links.contains(b)]
            w.nodes.contains_key(n) && w.nodes[n].internal_links.contains(a)
                && w.nodes[n].internal_links.contains(b) && a != b implies w.links[a].name
            != w.links[b].name by {
            assert(v.nodes[n].internal_links.contains(a));
            assert(v.nodes[n].internal_links.contains(b));
        }
        assert forall|l: LinkId, a: NodeId, b: NodeId|
            #![trigger w.links[l].subscribers.contains(a), w.links[l].subscribers.contains(b)]
            w.links.contains_key(l) && w.links[l].subscribers.contains(a)
                && w.links[l].subscribers.contains(b) && a != b implies w.nodes[a].name
            != w.nodes[b].name by {
            if l == link && a == node {
                assert(v.links[link].subscribers.contains(b));
            } else if l == link && b == node {
                assert(v.links[link].subscribers.contains(a));
            } else {
                assert(v.links[l].subscribers.contains(a));
                assert(v.links[l].subscribers.contains(b));
            }
        }
    }
}

/// Unsubscribing a node from a link keeps the invariant.
pub proof fn lemma_left(v: NetView, node: NodeId, link: LinkId)
    requires
        v.inv(),
        v.nodes.contains_key(node),
        v.links.contains_key(link),
    ensures
        v.left(node, link).inv(),
{
    let w = v.left(node, link);
    crate::lists::lemma_without(v.nodes[node].subscriptions, set![link]);
    crate::lists::lemma_without(v.links[link].subscribers, set![node]);
    assert(v.nodes[node] == v.nodes[node]);
    assert(v.links[link] == v.links[link]);
    assert(tree(w.nodes)) by {
        assert forall|n: NodeId|
            #![trigger w.nodes[n]]
            w.nodes.contains_key(n) implies w.nodes[n].children.no_duplicates()
            && match w.nodes[n].parent {
            Some(p) => w.nodes.contains_key(p) && w.nodes[p].children.contains(n),
            None => true,
        } by {
            assert(v.nodes[n] == v.nodes[n]);
        }
        assert forall|n: NodeId, c: NodeId|
            #![trigger w.nodes[n].children.contains(c)]
            w.nodes.contains_key(n) && w.nodes[n].children.contains(c) implies w.nodes.contains_key(
            c,
        ) && w.nodes[c].parent == Some(n) by {
            assert(v.nodes[n].children.contains(c));
        }
    }
    lemma_same_parents(v.nodes, w.nodes);
    assert(owned(w.nodes, w.links)) by {
        assert forall|n: NodeId, l: LinkId|
            #![trigger w.nodes[n].internal_links.contains(l)]
            w.nodes.contains_key(n) && w.nodes[n].internal_links.contains(
                l,
            ) implies w.links.contains_key(l) && w.links[l].owner == Some(n) by {
            assert(v.nodes[n].internal_links.contains(l));
        }
        assert forall|l: LinkId|
            #![trigger w.links[l]]
            w.links.contains_key(l) implies match w.links[l].owner {
            Some(n) => w.nodes.contains_key(n) && w.nodes[n].internal_links.contains(l),
            None => true,
        } by {
            assert(v.links[l] == v.links[l]);
        }
    }
    assert(attached(w.nodes, w.links)) by {
        assert forall|n: NodeId, l: LinkId|
            #![trigger w.nodes[n].subscriptions.contains(l)]
            w.nodes.contains_key(n) && w.nodes[n].subscriptions.contains(
                l,
            ) implies w.links.contains_key(l) && w.links[l].subscribers.contains(n) by {
            assert(v.nodes[n].subscriptions.contains(l));
        }
        assert forall|l: LinkId, n: NodeId|
            #![trigger w.links[l].subscribers.contains(n)]
            w.links.contains_key(l) && w.links[l].subscribers.contains(
                n,
            ) implies w.nodes.contains_key(n) && w.nodes[n].subscriptions.contains(l) by {
            assert(v.links[l].subscribers.contains(n));
        }
    }
    assert(named(w.nodes, w.links, w.root)) by {
        assert forall|n: NodeId, a: LinkId, b: LinkId|
            #![trigger w.nodes[n].internal_links.contains(a), w.nodes[n].internal_links.contains(b)]
            w.nodes.contains_key(n) && w.nodes[n].internal_links.contains(a)
                && w.nodes[n].internal_links.contains(b) && a != b implies w.links[a].name
            != w.links[b].name by {
            assert(v.nodes[n].internal_links.contains(a));
            assert(v.nodes[n].internal_links.contains(b));
        }
        assert forall|l: LinkId, a: NodeId, b: NodeId|
            #![trigger w.links[l].subscribers.contains(a), w.links[l].subscribers.contains(b)]
            w.links.contains_key(l) && w.links[l].subscribers.contains(a)
                && w.links[l].subscribers.contains(b) && a != b implies w.nodes[a].name
            != w.nodes[b].name by {
            assert(v.links[l].subscribers.contains(a));
            assert(v.links[l].subscribers.contains(b));
        }
    }
}

/// Unsubscribing a node from several links keeps the invariant, and changes nothing but the
/// node's subscriptions and those links' subscribers.
pub proof fn lemma_left_all(v: NetView, node: NodeId, gone: Seq<LinkId>)
    requires
        v.inv(),
        v.nodes.contains_key(node),
        forall|i: int| 0 <= i < gone.len() ==> v.links.contains_key(#[trigger] gone[i]),
    ensures
        v.left_all(node, gone).inv(),
        v.left_all(node, gone).root == v.root,
        v.left_all(node, gone).node_order == v.node_order,
        v.left_all(node, gone).link_order == v.link_order,
        v.left_all(node, gone).nodes.dom() == v.nodes.dom(),
        v.left_all(node, gone).links.dom() == v.links.dom(),
        forall|n: NodeId|
            #![trigger v.left_all(node, gone).nodes[n]]
            v.left_all(node, gone).nodes[n] == (NodeView {
                subscriptions: v.left_all(node, gone).nodes[n].subscriptions,
                ..v.nodes[n]
            }),
        forall|n: NodeId|
            n != node ==> #[trigger] v.left_all(node, gone).nodes[n] == v.nodes[n],
        forall|l: LinkId|
            #![trigger v.left_all(node, gone).links[l]]
            v.left_all(node, gone).links[l] == (LinkView {
                subscribers: v.left_all(node, gone).links[l].subscribers,
                ..v.links[l]
            }),
    decreases gone.len(),
{
    if gone.len() > 0 {
        let front = gone.drop_last();
        assert forall|i: int| 0 <= i < front.len() implies v.links.contains_key(
            #[trigger] front[i],
        ) by {
            assert(front[i] == gone[i]);
        }
        lemma_left_all(v, node, front);
        let u = v.left_all(node, front);
        assert(v.links.dom().contains(gone[gone.len() - 1]));
        assert(u.links.contains_key(gone.last()));
        lemma_left(u, node, gone.last());
        assert(u.left(node, gone.last()).nodes.dom() =~= v.nodes.dom());
        assert(u.left(node, gone.last()).links.dom() =~= v.links.dom());
    }
}

/// A node that left several links is subscribed to exactly the others, and so are they to it.
pub proof fn lemma_left_all_members(v: NetView, node: NodeId, gone: Seq<LinkId>)
    requires
        v.inv(),
        v.nodes.contains_key(node),
        forall|i: int| 0 <= i < gone.len() ==> v.links.contains_key(#[trigger] gone[i]),
    ensures
        v.left_all(node, gone).nodes[node].subscriptions == crate::lists::without(
            v.nodes[node].subscriptions,
            gone.to_set(),
        ),
        forall|l: LinkId| #[trigger]
            v.links.contains_key(l) ==> v.left_all(node, gone).links[l].subscribers == (
            if gone.contains(l) {
                crate::lists::without(v.links[l].subscribers, set![node])
            } else {
                v.links[l].subscribers
            }),
    decreases gone.len(),
{
    let subs = v.nodes[node].subscriptions;
    if gone.len() == 0 {
        assert forall|l: LinkId| subs.contains(l) implies !gone.to_set().contains(l) by {}
        crate::lists::lemma_without_none(subs, gone.to_set());
    } else {
        let front = gone.drop_last();
        assert forall|i: int| 0 <= i < front.len() implies v.links.contains_key(
            #[trigger] front[i],
        ) by {
            assert(front[i] == gone[i]);
        }
        lemma_left_all_members(v, node, front);
        lemma_left_all(v, node, front);
        let u = v.left_all(node, front);
        let last = gone.last();
        assert(v.links.dom().contains(gone[gone.len() - 1]));
        lemma_without_twice(subs, front.to_set(), set![last]);
        assert(front.to_set().union(set![last]) =~= gone.to_set()) by {
            assert forall|l: LinkId| front.to_set().union(set![last]).contains(
                l,
            ) == gone.to_set().contains(l) by {
                if gone.contains(l) {
                    let i = choose|i: int| 0 <= i < gone.len() && gone[i] == l;
                    if i < front.len() {
                        assert(front[i] == l);
                    }
                }
                if front.contains(l) {
                    let i = choose|i: int| 0 <= i < front.len() && front[i] == l;
                    assert(gone[i] == l);
                }
                assert(gone[gone.len() - 1] == last);
            }
        }
        assert forall|l: LinkId| #[trigger] v.links.contains_key(l) implies v.left_all(
            node,
            gone,
        ).links[l].subscribers == (if gone.contains(l) {
            crate::lists::without(v.links[l].subscribers, set![node])
        } else {
            v.links[l].subscribers
        }) by {
            if gone.contains(l) {
                let i = choose|i: int| 0 <= i < gone.len() && gone[i] == l;
                if i < front.len() {
                    assert(front[i] == l);
                }
            }
            if front.contains(l) {
                let i = choose|i: int| 0 <= i < front.len() && front[i] == l;
                assert(gone[i] == l);
            }
            assert(gone[gone.len() - 1] == last);
            if l == last && front.contains(l) {
                lemma_without_twice(v.links[l].subscribers, set![node], set![node]);
                assert(set![node].union(set![node]) =~= set![node]);
            }
        }
    }
}

/// Leaving out members in two steps is leaving all of them out.
proof fn lemma_without_twice<T>(s: Seq<T>, a: Set<T>, b: Set<T>)
    ensures
        crate::lists::without(crate::lists::without(s, a), b) == crate::lists::without(
            s,
            a.union(b),
        ),
    decreases s.len(),
{
    if s.len() > 0 {
        lemma_without_twice(s.drop_last(), a, b);
        if !a.contains(s.last()) {
            let r = crate::lists::without(s.drop_last(), a);
            assert(r.push(s.last()).drop_last() =~= r);
        }
    }
}

/// Taking a node out of its parent keeps the invariant.
pub proof fn lemma_unnested(v: NetView, parent: NodeId, node: NodeId)
    requires
        v.inv(),
        v.nodes.contains_key(parent),
        v.nodes.contains_key(node),
        v.nodes[node].parent == Some(parent),
    ensures
        v.unnested(parent, node).inv(),
        parent != node,
{
    let w = v.unnested(parent, node);
    crate::lists::lemma_without(v.nodes[parent].children, set![node]);
    assert(v.nodes[parent] == v.nodes[parent]);
    assert(parent != node) by {
        if parent == node {
            assert(ends(v.nodes, node));
            let k = choose|k: nat| up(v.nodes, node, k) is None;
            lemma_self_parent(v.nodes, node, k);
        }
    }
    assert(tree(w.nodes)) by {
        assert forall|n: NodeId|
            #![trigger w.nodes[n]]
            w.nodes.contains_key(n) implies w.nodes[n].children.no_duplicates()
            && match w.nodes[n].parent {
            Some(p) => w.nodes.contains_key(p) && w.nodes[p].children.contains(n),
            None => true,
        } by {
            assert(v.nodes[n] == v.nodes[n]);
        }
        assert forall|n: NodeId, c: NodeId|
            #![trigger w.nodes[n].children.contains(c)]
            w.nodes.contains_key(n) && w.nodes[n].children.contains(c) implies w.nodes.contains_key(
            c,
        ) && w.nodes[c].parent == Some(n) by {
            assert(v.nodes[n].children.contains(c));
        }
    }
    assert(grounded(w.nodes)) by {
        assert forall|x: NodeId| w.nodes.contains_key(x) implies #[trigger] ends(w.nodes, x) by {
            assert(ends(v.nodes, x));
            let a = v.nodes;
            let b = w.nodes;
            assert forall|y: NodeId| #[trigger] a[y].parent == b[y].parent || y == node by {}
            if within(a, x, node) {
                let k0 = choose|k: nat| up(a, x, k) == Some(node);
                let j = lemma_first_meeting(a, x, node, k0);
                lemma_up_same(a, b, x, j, node);
                assert(up(b, x, j + 1) is None);
            } else {
                let m = choose|k: nat| up(a, x, k) is None;
                assert forall|i: nat| i < m implies up(a, x, i) != Some(node) by {
                    if up(a, x, i) == Some(node) {
                        assert(within(a, x, node));
                    }
                }
                lemma_up_same(a, b, x, m, node);
            }
        }
    }
    assert(owned(w.nodes, w.links)) by {
        assert forall|n: NodeId, l: LinkId|
            #![trigger w.nodes[n].internal_links.contains(l)]
            w.nodes.contains_key(n) && w.nodes[n].internal_links.contains(
                l,
            ) implies w.links.contains_key(l) && w.links[l].owner == Some(n) by {
            assert(v.nodes[n].internal_links.contains(l));
        }
    }
    assert(attached(w.nodes, w.links)) by {
        assert forall|n: NodeId, l: LinkId|
            #![trigger w.nodes[n].subscriptions.contains(l)]
            w.nodes.contains_key(n) && w.nodes[n].subscriptions.contains(
                l,
            ) implies w.links.contains_key(l) && w.links[l].subscribers.contains(n) by {
            assert(v.nodes[n].subscriptions.contains(l));
        }
    }
    assert(named(w.nodes, w.links, w.root)) by {
        assert forall|n: NodeId, a: LinkId, b: LinkId|
            #![trigger w.nodes[n].internal_links.contains(a), w.nodes[n].internal_links.contains(b)]
            w.nodes.contains_key(n) && w.nodes[n].internal_links.contains(a)
                && w.nodes[n].internal_links.contains(b) && a != b implies w.links[a].name
            != w.links[b].name by {
            assert(v.nodes[n].internal_links.contains(a));
            assert(v.nodes[n].internal_links.contains(b));
        }
    }
}

/// The chain of a node that is its own parent never ends.
proof fn lemma_self_parent(nodes: Map<NodeId, NodeView>, x: NodeId, k: nat)
    requires
        nodes.contains_key(x),
        nodes[x].parent == Some(x),
    ensures
        up(nodes, x, k) == Some(x),
    decreases k,
{
    if k > 0 {
        lemma_self_parent(nodes, x, (k - 1) as nat);
    }
}

/// Removing nodes together with everything inside them and the links they own keeps the
/// invariant.
pub proof fn lemma_removed(v: NetView, id: NodeId)
    requires
        v.inv(),
        id != v.root,
    ensures
        v.removed(id).inv(),
        forall|x: NodeId, k: nat|
            v.removed(id).nodes.contains_key(x) ==> #[trigger] up(v.removed(id).nodes, x, k) == up(
                v.nodes,
                x,
                k,
            ),
{
    let dn = v.doomed_nodes(id);
    let dl = v.doomed_links(id);
    let w = v.removed(id);
    assert(w.nodes.dom() =~= v.nodes.dom().difference(dn));
    assert(w.links.dom() =~= v.links.dom().difference(dl));
    assert(w.nodes.contains_key(v.root)) by {
        if within(v.nodes, v.root, id) {
            let k = choose|k: nat| up(v.nodes, v.root, k) == Some(id);
            assert(up(v.nodes, v.root, 0) == Some(v.root));
            assert(up(v.nodes, v.root, 1) is None);
            if k > 0 {
                lemma_up_ended(v.nodes, v.root, 1, k);
            }
        }
    }
    assert forall|n: NodeId| #[trigger] w.nodes.contains_key(n) implies v.nodes.contains_key(n)
        && v.nodes[n].parent == w.nodes[n].parent && (w.nodes[n].parent matches Some(
        p,
    ) ==> w.nodes.contains_key(p)) by {
        if let Some(p) = v.nodes[n].parent {
            assert(v.nodes[n] == v.nodes[n]);
            if within(v.nodes, p, id) {
                let k = choose|k: nat| up(v.nodes, p, k) == Some(id);
                assert(up(v.nodes, n, 0) == Some(n));
                assert(up(v.nodes, n, 1) == Some(p));
                lemma_up_from(v.nodes, n, p, 1, k);
                assert(within(v.nodes, n, id));
            }
        }
    }
    lemma_same_parents(v.nodes, w.nodes);
    assert forall|n: NodeId| #[trigger] w.nodes.contains_key(n) implies w.nodes[n]
        == v.pruned_node(n, dn, dl) by {}
    assert(tree(w.nodes)) by {
        assert forall|n: NodeId|
            #![trigger w.nodes[n]]
            w.nodes.contains_key(n) implies w.nodes[n].children.no_duplicates()
            && match w.nodes[n].parent {
            Some(p) => w.nodes.contains_key(p) && w.nodes[p].children.contains(n),
            None => true,
        } by {
            assert(v.nodes[n] == v.nodes[n]);
            crate::lists::lemma_without(v.nodes[n].children, dn);
            if let Some(p) = v.nodes[n].parent {
                crate::lists::lemma_without(v.nodes[p].children, dn);
                assert(w.nodes.contains_key(p));
            }
        }
        assert forall|n: NodeId, c: NodeId|
            #![trigger w.nodes[n].children.contains(c)]
            w.nodes.contains_key(n) && w.nodes[n].children.contains(c) implies w.nodes.contains_key(
            c,
        ) && w.nodes[c].parent == Some(n) by {
            crate::lists::lemma_without(v.nodes[n].children, dn);
            assert(v.nodes[n].children.contains(c));
        }
    }
    assert(owned(w.nodes, w.links)) by {
        assert forall|n: NodeId|
            #![trigger w.nodes[n]]
            w.nodes.contains_key(n) implies w.nodes[n].internal_links.no_duplicates() by {
            assert(v.nodes[n] == v.nodes[n]);
            crate::lists::lemma_without(v.nodes[n].internal_links, dl);
        }
        assert forall|n: NodeId, l: LinkId|
            #![trigger w.nodes[n].internal_links.contains(l)]
            w.nodes.contains_key(n) && w.nodes[n].internal_links.contains(
                l,
            ) implies w.links.contains_key(l) && w.links[l].owner == Some(n) by {
            crate::lists::lemma_without(v.nodes[n].internal_links, dl);
            assert(v.nodes[n].internal_links.contains(l));
        }
        assert forall|l: LinkId|
            #![trigger w.links[l]]
            w.links.contains_key(l) implies match w.links[l].owner {
            Some(n) => w.nodes.contains_key(n) && w.nodes[n].internal_links.contains(l),
            None => true,
        } by {
            assert(v.links[l] == v.links[l]);
            if let Some(n) = v.links[l].owner {
                crate::lists::lemma_without(v.nodes[n].internal_links, dl);
                assert(w.nodes.contains_key(n));
            }
        }
    }
    assert(attached(w.nodes, w.links)) by {
        assert forall|n: NodeId|
            #![trigger w.nodes[n]]
            w.nodes.contains_key(n) implies w.nodes[n].subscriptions.no_duplicates() by {
            assert(v.nodes[n] == v.nodes[n]);
            crate::lists::lemma_without(v.nodes[n].subscriptions, dl);
        }
        assert forall|l: LinkId|
            #![trigger w.links[l]]
            w.links.contains_key(l) implies w.links[l].subscribers.no_duplicates() by {
            assert(v.links[l] == v.links[l]);
            crate::lists::lemma_without(v.links[l].subscribers, dn);
        }
        assert forall|n: NodeId, l: LinkId|
            #![trigger w.nodes[n].subscriptions.contains(l)]
            w.nodes.contains_key(n) && w.nodes[n].subscriptions.contains(
                l,
            ) implies w.links.contains_key(l) && w.links[l].subscribers.contains(n) by {
            crate::lists::lemma_without(v.nodes[n].subscriptions, dl);
            assert(v.nodes[n].subscriptions.contains(l));
            crate::lists::lemma_without(v.links[l].subscribers, dn);
        }
        assert forall|l: LinkId, n: NodeId|
            #![trigger w.links[l].subscribers.contains(n)]
            w.links.contains_key(l) && w.links[l].subscribers.contains(
                n,
            ) implies w.nodes.contains_key(n) && w.nodes[n].subscriptions.contains(l) by {
            crate::lists::lemma_without(v.links[l].subscribers, dn);
            assert(v.links[l].subscribers.contains(n));
            crate::lists::lemma_without(v.nodes[n].subscriptions, dl);
        }
    }
    crate::lists::lemma_without(v.node_order, v.doomed_nodes(id));
    crate::lists::lemma_without(v.link_order, v.doomed_links(id));
    assert(lists(w.node_order, w.nodes.dom()));
    assert(lists(w.link_order, w.links.dom()));
    assert(named(w.nodes, w.links, w.root)) by {
        assert forall|n: NodeId, a: LinkId, b: LinkId|
            #![trigger w.nodes[n].internal_links.contains(a), w.nodes[n].internal_links.contains(b)]
            w.nodes.contains_key(n) && w.nodes[n].internal_links.contains(a)
                && w.nodes[n].internal_links.contains(b) && a != b implies w.links[a].name
            != w.links[b].name by {
            crate::lists::lemma_without(v.nodes[n].internal_links, dl);
            assert(v.nodes[n].internal_links.contains(a));
            assert(v.nodes[n].internal_links.contains(b));
        }
        assert forall|l: LinkId, a: NodeId, b: NodeId|
            #![trigger w.links[l].subscribers.contains(a), w.links[l].subscribers.contains(b)]
            w.links.contains_key(l) && w.links[l].subscribers.contains(a)
                && w.links[l].subscribers.contains(b) && a != b implies w.nodes[a].name
            != w.nodes[b].name by {
            crate::lists::lemma_without(v.links[l].subscribers, dn);
            assert(v.links[l].subscribers.contains(a));
            assert(v.links[l].subscribers.contains(b));
        }
        assert forall|n: NodeId|
            #![trigger w.nodes[n]]
            w.nodes.contains_key(n) && n != w.root implies valid_name(w.nodes[n].name) by {
            assert(v.nodes[n] == v.nodes[n]);
        }
        assert forall|l: LinkId| #![trigger w.links[l]] w.links.contains_key(l) implies valid_name(
            w.links[l].name,
        ) by {
            assert(v.links[l] == v.links[l]);
        }
    }
}

/// Removing a link keeps the invariant.
pub proof fn lemma_link_removed(v: NetView, link: LinkId)
    requires
        v.inv(),
    ensures
        v.link_removed(link).inv(),
{
    let w = v.link_removed(link);
    let gone = set![link];
    assert(w.nodes.dom() =~= v.nodes.dom());
    assert forall|n: NodeId| #[trigger] w.nodes.contains_key(n) implies v.nodes.contains_key(n)
        && w.nodes[n] == v.pruned_node(n, Set::empty(), gone) && w.nodes[n].children
        == v.nodes[n].children && v.nodes[n].parent == w.nodes[n].parent && (
    w.nodes[n].parent matches Some(p) ==> w.nodes.contains_key(p)) by {
        crate::lists::lemma_without_none(v.nodes[n].children, Set::<NodeId>::empty());
        assert(v.nodes[n] == v.nodes[n]);
    }
    lemma_same_parents(v.nodes, w.nodes);
    assert(w.nodes[w.root].parent is None) by {
        assert(w.nodes.contains_key(w.root));
    }
    assert(tree(w.nodes)) by {
        assert forall|n: NodeId|
            #![trigger w.nodes[n]]
            w.nodes.contains_key(n) implies w.nodes[n].children.no_duplicates()
            && match w.nodes[n].parent {
            Some(p) => w.nodes.contains_key(p) && w.nodes[p].children.contains(n),
            None => true,
        } by {
            assert(v.nodes[n] == v.nodes[n]);
            if let Some(p) = v.nodes[n].parent {
                assert(w.nodes.contains_key(p));
            }
        }
        assert forall|n: NodeId, c: NodeId|
            #![trigger w.nodes[n].children.contains(c)]
            w.nodes.contains_key(n) && w.nodes[n].children.contains(c) implies w.nodes.contains_key(
            c,
        ) && w.nodes[c].parent == Some(n) by {
            assert(v.nodes[n].children.contains(c));
            assert(w.nodes.contains_key(c));
        }
    }
    assert(owned(w.nodes, w.links)) by {
        assert forall|n: NodeId|
            #![trigger w.nodes[n]]
            w.nodes.contains_key(n) implies w.nodes[n].internal_links.no_duplicates() by {
            assert(v.nodes[n] == v.nodes[n]);
            crate::lists::lemma_without(v.nodes[n].internal_links, gone);
        }
        assert forall|n: NodeId, l: LinkId|
            #![trigger w.nodes[n].internal_links.contains(l)]
            w.nodes.contains_key(n) && w.nodes[n].internal_links.contains(
                l,
            ) implies w.links.contains_key(l) && w.links[l].owner == Some(n) by {
            crate::lists::lemma_without(v.nodes[n].internal_links, gone);
            assert(v.nodes[n].internal_links.contains(l));
        }
        assert forall|l: LinkId|
            #![trigger w.links[l]]
            w.links.contains_key(l) implies match w.links[l].owner {
            Some(n) => w.nodes.contains_key(n) && w.nodes[n].internal_links.contains(l),
            None => true,
        } by {
            assert(v.links[l] == v.links[l]);
            if let Some(n) = v.links[l].owner {
                crate::lists::lemma_without(v.nodes[n].internal_links, gone);
                assert(w.nodes.contains_key(n));
            }
        }
    }
    assert(attached(w.nodes, w.links)) by {
        assert forall|n: NodeId|
            #![trigger w.nodes[n]]
            w.nodes.contains_key(n) implies w.nodes[n].subscriptions.no_duplicates() by {
            assert(v.nodes[n] == v.nodes[n]);
            crate::lists::lemma_without(v.nodes[n].subscriptions, gone);
        }
        assert forall|l: LinkId|
            #![trigger w.links[l]]
            w.links.contains_key(l) implies w.links[l].subscribers.no_duplicates() by {
            assert(v.links[l] == v.links[l]);
        }
        assert forall|n: NodeId, l: LinkId|
            #![trigger w.nodes[n].subscriptions.contains(l)]
            w.nodes.contains_key(n) && w.nodes[n].subscriptions.contains(
                l,
            ) implies w.links.contains_key(l) && w.links[l].subscribers.contains(n) by {
            crate::lists::lemma_without(v.nodes[n].subscriptions, gone);
            assert(v.nodes[n].subscriptions.contains(l));
        }
        assert forall|l: LinkId, n: NodeId|
            #![trigger w.links[l].subscribers.contains(n)]
            w.links.contains_key(l) && w.links[l].subscribers.contains(
                n,
            ) implies w.nodes.contains_key(n) && w.nodes[n].subscriptions.contains(l) by {
            assert(v.links[l].subscribers.contains(n));
            assert(w.nodes.contains_key(n));
            crate::lists::lemma_without(v.nodes[n].subscriptions, gone);
        }
    }
    crate::lists::lemma_without(v.link_order, set![link]);
    assert(lists(w.node_order, w.nodes.dom()));
    assert(lists(w.link_order, w.links.dom()));
    assert(named(w.nodes, w.links, w.root)) by {
        assert forall|n: NodeId, a: LinkId, b: LinkId|
            #![trigger w.nodes[n].internal_links.contains(a), w.nodes[n].internal_links.contains(b)]
            w.nodes.contains_key(n) && w.nodes[n].internal_links.contains(a)
                && w.nodes[n].internal_links.contains(b) && a != b implies w.links[a].name
            != w.links[b].name by {
            crate::lists::lemma_without(v.nodes[n].internal_links, gone);
            assert(v.nodes[n].internal_links.contains(a));
            assert(v.nodes[n].internal_links.contains(b));
        }
        assert forall|l: LinkId, a: NodeId, b: NodeId|
            #![trigger w.links[l].subscribers.contains(a), w.links[l].subscribers.contains(b)]
            w.links.contains_key(l) && w.links[l].subscribers.contains(a)
                && w.links[l].subscribers.contains(b) && a != b implies w.nodes[a].name
            != w.nodes[b].name by {
            assert(v.links[l].subscribers.contains(a));
            assert(v.links[l].subscribers.contains(b));
            assert(w.nodes.contains_key(a) && w.nodes.contains_key(b));
        }
        assert forall|n: NodeId|
            #![trigger w.nodes[n]]
            w.nodes.contains_key(n) && n != w.root implies valid_name(w.nodes[n].name) by {
            assert(v.nodes[n] == v.nodes[n]);
        }
    }
}

/// Connecting a detached node to a parent whose links it is not on, and disconnecting it again,
/// leaves the network as it was. A link given to `connect` must be the parent's already: becoming
/// internal to the parent is not undone.
pub proof fn law_disconnect_undoes_connect(
    v: NetView,
    parent: NodeId,
    node: NodeId,
    link: Option<LinkId>,
)
    requires
        v.inv(),
        v.connect_error(parent, node, link) is None,
        v.nodes[node].parent is None,
        forall|l: LinkId| #[trigger]
            v.nodes[parent].internal_links.contains(l) ==> !v.links[l].subscribers.contains(node),
        link matches Some(l) ==> v.links[l].owner == Some(parent),
    ensures
        v.connect_result(parent, node, link).disconnected(parent, node) == v,
{
    let u = v.nested(parent, node);
    lemma_nested(v, parent, node);
    assert(up(v.nodes, parent, 0) == Some(parent));
    assert(parent != node);
    assert(!v.nodes[parent].children.contains(node));
    let owned_links = v.nodes[parent].internal_links;
    if let Some(l) = link {
        assert(v.links[l] == v.links[l]);
        assert(owned_links.contains(l));
        assert forall|other: NodeId| #[trigger]
            u.links[l].subscribers.contains(other) implies u.nodes[other].name != u.nodes[node].name by {
            assert(v.links[l].subscribers.contains(other));
        }
        lemma_joined(u, node, l);
    }
    let w = v.connect_result(parent, node, link);
    assert(w.inv());
    assert(w.nodes[parent].internal_links == owned_links);
    assert forall|i: int| 0 <= i < owned_links.len() implies w.links.contains_key(
        #[trigger] owned_links[i],
    ) by {
        assert(w.nodes[parent].internal_links.contains(owned_links[i]));
    }
    lemma_left_all(w, node, owned_links);
    lemma_left_all_members(w, node, owned_links);
    let off = w.left_all(node, owned_links);
    let end = off.unnested(parent, node);
    let subs = v.nodes[node].subscriptions;
    assert(crate::lists::without(subs, owned_links.to_set()) == subs) by {
        assert forall|x: LinkId| subs.contains(x) implies !owned_links.to_set().contains(x) by {
            assert(v.nodes[node].subscriptions.contains(x));
        }
        crate::lists::lemma_without_none(subs, owned_links.to_set());
    }
    if let Some(l) = link {
        assert(subs.push(l).drop_last() =~= subs);
    }
    assert(off.nodes[node].subscriptions == subs);
    crate::lists::lemma_without_push(v.nodes[parent].children, node);
    assert(end.nodes =~= v.nodes) by {
        assert(end.nodes.dom() =~= v.nodes.dom());
        assert forall|n: NodeId| #[trigger] v.nodes.contains_key(n) implies end.nodes[n]
            == v.nodes[n] by {
            if n == node {
                assert(off.nodes[n] == (NodeView { subscriptions: subs, ..w.nodes[n] }));
            }
        }
    }
    assert(end.links =~= v.links) by {
        assert(end.links.dom() =~= v.links.dom());
        assert forall|l: LinkId| #[trigger] v.links.contains_key(l) implies end.links[l]
            == v.links[l] by {
            assert(w.links.contains_key(l));
            if owned_links.contains(l) {
                if link == Some(l) {
                    crate::lists::lemma_without_push(v.links[l].subscribers, node);
                } else {
                    assert forall|x: NodeId| v.links[l].subscribers.contains(x) implies !set![
                        node,
                    ].contains(x) by {}
                    crate::lists::lemma_without_none(v.links[l].subscribers, set![node]);
                }
            }
        }
    }
}

/// Subscribing twice is subscribing once, and is never refused the second time.
pub proof fn law_subscribe_is_idempotent(v: NetView, node: NodeId, link: LinkId)
    requires
        v.inv(),
        v.subscribe_error(node, link) is None,
    ensures
        v.subscribe_result(node, link).subscribe_error(node, link) is None,
        v.subscribe_result(node, link).subscribe_result(node, link) == v.subscribe_result(
            node,
            link,
        ),
{
    crate::lists::lemma_push_contains(v.links[link].subscribers, node);
}

/// Making a link internal twice is doing it once, and is never refused the second time.
pub proof fn law_owning_is_idempotent(v: NetView, owner: NodeId, link: LinkId)
    requires
        v.inv(),
        v.own_error(owner, link) is None,
    ensures
        v.own_result(owner, link).own_error(owner, link) is None,
        v.own_result(owner, link).own_result(owner, link) == v.own_result(owner, link),
{
}

/// A node that unsubscribes can no longer use the link, unless it owns it.
pub proof fn law_unsubscribed_node_is_off_the_link(v: NetView, node: NodeId, link: LinkId)
    requires
        v.inv(),
        v.nodes.contains_key(node),
        v.links.contains_key(link),
        v.links[link].owner != Some(node),
    ensures
        !v.left(node, link).can_use_link(node, link),
{
    crate::lists::lemma_without(v.links[link].subscribers, set![node]);
}

} // verus!
