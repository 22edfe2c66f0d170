//! What the operations on a network do and leave alone, and what they refuse.

use vstd::prelude::*;

use crate::graph::{LinkView, NetView, NodeView};
use crate::ids::{LinkId, NodeId};
use crate::network::NetworkError;

verus! {

/// Whether the nodes lead up from `x` to `a`: each is followed by its parent.
pub open spec fn leads_up(
    nodes: Map<NodeId, NodeView>,
    x: NodeId,
    a: NodeId,
    chain: Seq<NodeId>,
) -> bool {
    &&& chain.len() > 0
    &&& chain[0] == x
    &&& chain.last() == a
    &&& forall|i: int| 0 <= i < chain.len() ==> nodes.contains_key(#[trigger] chain[i])
    &&& forall|i: int|
        0 < i < chain.len() ==> nodes[chain[i - 1]].parent == Some(#[trigger] chain[i])
}

/// Whether `x` is `a` or somewhere inside it.
pub open spec fn is_inside(nodes: Map<NodeId, NodeView>, x: NodeId, a: NodeId) -> bool {
    exists|chain: Seq<NodeId>| leads_up(nodes, x, a, chain)
}

/// Going up some steps is following a chain.
proof fn lemma_chain(nodes: Map<NodeId, NodeView>, x: NodeId, a: NodeId, k: nat) -> (chain: Seq<
    NodeId,
>)
    requires
        crate::graph::tree(nodes),
        crate::graph::up(nodes, x, k) == Some(a),
    ensures
        leads_up(nodes, x, a, chain),
    decreases k,
{
    crate::graph::lemma_up_known(nodes, x, k);
    if k == 0 {
        seq![x]
    } else {
        let below = crate::graph::up(nodes, x, (k - 1) as nat)->0;
        let rest = lemma_chain(nodes, x, below, (k - 1) as nat);
        let chain = rest.push(a);
        assert forall|i: int| 0 < i < chain.len() implies nodes[chain[i - 1]].parent == Some(
            #[trigger] chain[i],
        ) by {
            if i < rest.len() {
                assert(rest[i] == chain[i]);
            }
        }
        assert forall|i: int| 0 <= i < chain.len() implies nodes.contains_key(
            #[trigger] chain[i],
        ) by {
            if i < rest.len() {
                assert(rest[i] == chain[i]);
            }
        }
        chain
    }
}

/// Following a chain is going up some steps.
proof fn lemma_chain_up(nodes: Map<NodeId, NodeView>, x: NodeId, a: NodeId, chain: Seq<NodeId>)
    requires
        leads_up(nodes, x, a, chain),
    ensures
        crate::graph::up(nodes, x, (chain.len() - 1) as nat) == Some(a),
    decreases chain.len(),
{
    let n = chain.len() - 1;
    assert(nodes.contains_key(chain[0]));
    if n > 0 {
        let rest = chain.drop_last();
        assert forall|i: int| 0 < i < rest.len() implies nodes[rest[i - 1]].parent == Some(
            #[trigger] rest[i],
        ) by {
            assert(chain[i] == rest[i]);
        }
        assert forall|i: int| 0 <= i < rest.len() implies nodes.contains_key(#[trigger] rest[i]) by {
            assert(chain[i] == rest[i]);
        }
        lemma_chain_up(nodes, x, rest.last(), rest);
        assert(nodes[chain[n - 1]].parent == Some(chain[n]));
    }
}

/// Being inside is having as an ancestor.
pub proof fn lemma_inside(nodes: Map<NodeId, NodeView>, x: NodeId, a: NodeId)
    requires
        crate::graph::tree(nodes),
    ensures
        crate::graph::within(nodes, x, a) <==> is_inside(nodes, x, a),
{
    if crate::graph::within(nodes, x, a) {
        let k = choose|k: nat| crate::graph::up(nodes, x, k) == Some(a);
        let chain = lemma_chain(nodes, x, a, k);
        assert(leads_up(nodes, x, a, chain));
    }
    if is_inside(nodes, x, a) {
        let chain = choose|chain: Seq<NodeId>| leads_up(nodes, x, a, chain);
        lemma_chain_up(nodes, x, a, chain);
    }
}

/// A node's ancestors are the node, its parent, the parent's parent and so on, up to one that has
/// no parent; of an unknown node there are none.
pub proof fn law_ancestors_lead_up(v: NetView, x: NodeId)
    requires
        v.inv(),
    ensures
        ({
            let all = crate::graph::ancestors(v.nodes, x);
            &&& !v.nodes.contains_key(x) ==> all.len() == 0
            &&& v.nodes.contains_key(x) ==> all.len() > 0 && all[0] == x
                && v.nodes[all.last()].parent is None
            &&& forall|i: int| 0 <= i < all.len() ==> v.nodes.contains_key(#[trigger] all[i])
            &&& forall|i: int|
                0 < i < all.len() ==> v.nodes[all[i - 1]].parent == Some(#[trigger] all[i])
        }),
{
    crate::graph::lemma_ancestors(v.nodes, x);
    let all = crate::graph::ancestors(v.nodes, x);
    let h = crate::graph::height(v.nodes, x);
    assert(crate::graph::up(v.nodes, x, 0) is Some <==> v.nodes.contains_key(x));
    assert forall|i: int| 0 <= i < all.len() implies v.nodes.contains_key(#[trigger] all[i]) by {
        assert(crate::graph::up(v.nodes, x, i as nat) is Some);
        crate::graph::lemma_up_known(v.nodes, x, i as nat);
    }
    assert forall|i: int| 0 < i < all.len() implies v.nodes[all[i - 1]].parent == Some(
        #[trigger] all[i],
    ) by {
        assert(crate::graph::up(v.nodes, x, i as nat) is Some);
        assert(crate::graph::up(v.nodes, x, (i - 1) as nat) is Some);
    }
    if v.nodes.contains_key(x) {
        if h == 0 {
            assert(crate::graph::up(v.nodes, x, 0) is None);
        }
        assert(crate::graph::up(v.nodes, x, (h - 1) as nat) is Some);
        assert(crate::graph::up(v.nodes, x, h) is None);
    }
}

/// Whether a name says something special in a route.
pub open spec fn is_special(name: Seq<char>) -> bool {
    name == "."@ || name == "^"@ || name == "*"@ || name == "?"@
}

/// A name will do if and only if there is one, it says nothing special in a route, neither begins
/// nor ends with whitespace, and has neither `@` nor `/` nor a control character in it.
pub proof fn law_valid_names(name: Seq<char>)
    ensures
        crate::graph::valid_name(name) <==> {
            &&& name.len() > 0
            &&& !is_special(name)
            &&& !crate::text::is_white(name[0])
            &&& !crate::text::is_white(name.last())
            &&& forall|i: int|
                0 <= i < name.len() ==> #[trigger] name[i] != '@' && name[i] != '/' && !((
                name[i] as u32) < 0x20 || 0x7f <= (name[i] as u32) < 0xa0)
        },
{
    if crate::graph::valid_name(name) {
        assert forall|i: int| 0 <= i < name.len() implies #[trigger] name[i] != '@' && name[i]
            != '/' && !((name[i] as u32) < 0x20 || 0x7f <= (name[i] as u32) < 0xa0) by {
            assert(!crate::graph::is_control(name[i]));
        }
    }
}

/// Whether only the links' subscribers and the nodes' subscriptions may differ, and of these only
/// those of `node` and `link`.
pub open spec fn only_attachment_differs(
    v: NetView,
    w: NetView,
    node: NodeId,
    link: LinkId,
) -> bool {
    &&& w.root == v.root
    &&& w.node_order == v.node_order
    &&& w.link_order == v.link_order
    &&& w.nodes.dom() == v.nodes.dom()
    &&& w.links.dom() == v.links.dom()
    &&& forall|n: NodeId| #[trigger]
        v.nodes.contains_key(n) ==> w.nodes[n] == (NodeView {
            subscriptions: if n == node {
                w.nodes[n].subscriptions
            } else {
                v.nodes[n].subscriptions
            },
            ..v.nodes[n]
        })
    &&& forall|l: LinkId| #[trigger]
        v.links.contains_key(l) ==> w.links[l] == (LinkView {
            subscribers: if l == link {
                w.links[l].subscribers
            } else {
                v.links[l].subscribers
            },
            ..v.links[l]
        })
}

/// Subscribing puts the node last among the link's subscribers and the link last among the node's
/// subscriptions, where it is not there already, and changes nothing else. It is refused for what
/// does not exist, and where a subscriber of the link goes by the node's name.
pub proof fn law_subscribing(v: NetView, node: NodeId, link: LinkId)
    ensures
        ({
            let w = v.subscribe_result(node, link);
            let known = v.nodes.contains_key(node) && v.links.contains_key(link);
            let on = v.links[link].subscribers.contains(node);
            let clash = exists|other: NodeId| #[trigger]
                v.links[link].subscribers.contains(other) && v.nodes[other].name
                    == v.nodes[node].name;
            &&& !v.nodes.contains_key(node) ==> v.subscribe_error(node, link) == Some(
                NetworkError::UnknownNode(node),
            )
            &&& v.nodes.contains_key(node) && !v.links.contains_key(link) ==> v.subscribe_error(
                node,
                link,
            ) == Some(NetworkError::UnknownLink(link))
            &&& known && !on && clash ==> v.subscribe_error(node, link) == Some(
                NetworkError::NameConflict { link },
            )
            &&& known && (on || !clash) ==> v.subscribe_error(node, link) is None
            &&& known && on ==> w == v
            &&& known && !on ==> {
                &&& w.links[link].subscribers == v.links[link].subscribers.push(node)
                &&& w.nodes[node].subscriptions == v.nodes[node].subscriptions.push(link)
                &&& only_attachment_differs(v, w, node, link)
            }
        }),
{
    let w = v.subscribe_result(node, link);
    if v.nodes.contains_key(node) && v.links.contains_key(link) {
        assert(w.nodes.dom() =~= v.nodes.dom());
        assert(w.links.dom() =~= v.links.dom());
    }
}

/// Unsubscribing takes the node and the link off each other's lists, which keep their order, and
/// changes nothing else.
pub proof fn law_unsubscribing(v: NetView, node: NodeId, link: LinkId)
    requires
        v.nodes.contains_key(node),
        v.links.contains_key(link),
    ensures
        ({
            let w = v.left(node, link);
            &&& only_attachment_differs(v, w, node, link)
            &&& forall|n: NodeId| #[trigger]
                w.links[link].subscribers.contains(n) <==> v.links[link].subscribers.contains(n)
                    && n != node
            &&& forall|l: LinkId| #[trigger]
                w.nodes[node].subscriptions.contains(l) <==> v.nodes[node].subscriptions.contains(
                    l,
                ) && l != link
            &&& crate::lists::in_same_order(
                w.links[link].subscribers,
                v.links[link].subscribers,
            )
            &&& crate::lists::in_same_order(
                w.nodes[node].subscriptions,
                v.nodes[node].subscriptions,
            )
        }),
{
    let w = v.left(node, link);
    crate::lists::lemma_without(v.links[link].subscribers, set![node]);
    crate::lists::lemma_without(v.nodes[node].subscriptions, set![link]);
    crate::lists::lemma_without_in_order(v.links[link].subscribers, set![node]);
    crate::lists::lemma_without_in_order(v.nodes[node].subscriptions, set![link]);
    assert(w.nodes.dom() =~= v.nodes.dom());
    assert(w.links.dom() =~= v.links.dom());
}

/// Making a link internal to a node makes the node its owner and puts it last among the node's
/// internal links, where it is not there already, and changes nothing else. It is refused for what
/// does not exist, for a link that another node owns, and where an internal link of the node goes
/// by its name.
pub proof fn law_owning(v: NetView, owner: NodeId, link: LinkId)
    ensures
        ({
            let w = v.own_result(owner, link);
            let known = v.nodes.contains_key(owner) && v.links.contains_key(link);
            let mine = v.links[link].owner == Some(owner);
            let clash = exists|other: LinkId| #[trigger]
                v.nodes[owner].internal_links.contains(other) && v.links[other].name
                    == v.links[link].name;
            &&& !v.nodes.contains_key(owner) ==> v.own_error(owner, link) == Some(
                NetworkError::UnknownNode(owner),
            )
            &&& v.nodes.contains_key(owner) && !v.links.contains_key(link) ==> v.own_error(
                owner,
                link,
            ) == Some(NetworkError::UnknownLink(link))
            &&& known && !mine && v.links[link].owner is Some ==> v.own_error(owner, link) == Some(
                NetworkError::LinkOwnedElsewhere(link),
            )
            &&& known && v.links[link].owner is None && clash ==> v.own_error(owner, link) == Some(
                NetworkError::NameConflict { link },
            )
            &&& known && (mine || v.links[link].owner is None && !clash) ==> v.own_error(
                owner,
                link,
            ) is None
            &&& known && mine ==> w == v
            &&& known && !mine ==> {
                &&& w.nodes == v.nodes.insert(
                    owner,
                    NodeView {
                        internal_links: v.nodes[owner].internal_links.push(link),
                        ..v.nodes[owner]
                    },
                )
                &&& w.links == v.links.insert(
                    link,
                    LinkView { owner: Some(owner), ..v.links[link] },
                )
                &&& w.root == v.root
                &&& w.node_order == v.node_order
                &&& w.link_order == v.link_order
            }
        }),
{
}

/// Connecting is refused for what does not exist, for the root, for a node that is in another
/// node already, for a node that the parent is inside of or is, and for a link that cannot be made
/// internal to the parent or that the node cannot be subscribed to.
pub proof fn law_what_can_be_connected(
    v: NetView,
    parent: NodeId,
    node: NodeId,
    link: Option<LinkId>,
)
    requires
        v.inv(),
    ensures
        ({
            let error = v.connect_error(parent, node, link);
            let known = v.nodes.contains_key(parent) && v.nodes.contains_key(node);
            let taken = v.nodes[node].parent is Some && v.nodes[node].parent != Some(parent);
            let round = is_inside(v.nodes, parent, node);
            let free = known && node != v.root && !taken && !round;
            &&& !v.nodes.contains_key(parent) ==> error == Some(NetworkError::UnknownNode(parent))
            &&& v.nodes.contains_key(parent) && !v.nodes.contains_key(node) ==> error == Some(
                NetworkError::UnknownNode(node),
            )
            &&& known && node == v.root ==> error == Some(NetworkError::IsRoot)
            &&& known && node != v.root && taken ==> error == Some(
                NetworkError::AlreadyHasParent(node),
            )
            &&& known && node != v.root && !taken && round ==> error == Some(
                NetworkError::WouldCreateCycle,
            )
            &&& free && link is None ==> error is None
            &&& free && link is Some ==> error == (match v.own_error(parent, link->0) {
                Some(e) => Some(e),
                None => v.subscribe_error(node, link->0),
            })
        }),
{
    lemma_inside(v.nodes, parent, node);
}

/// A node that was connected is in its parent, the last of its children unless it was there
/// already, and, where a link was given, on that link, which is the parent's. Nobody else's parent
/// changes, nor who else is on which link.
pub proof fn law_connecting(v: NetView, parent: NodeId, node: NodeId, link: Option<LinkId>)
    requires
        v.inv(),
        v.connect_error(parent, node, link) is None,
    ensures
        ({
            let w = v.connect_result(parent, node, link);
            &&& w.nodes.dom() == v.nodes.dom()
            &&& w.links.dom() == v.links.dom()
            &&& w.root == v.root
            &&& w.node_order == v.node_order
            &&& w.link_order == v.link_order
            &&& w.nodes[node].parent == Some(parent)
            &&& w.nodes[parent].children == (if v.nodes[node].parent == Some(parent) {
                v.nodes[parent].children
            } else {
                v.nodes[parent].children.push(node)
            })
            &&& forall|n: NodeId| #[trigger]
                v.nodes.contains_key(n) ==> {
                    &&& w.nodes[n].name == v.nodes[n].name
                    &&& w.nodes[n].kind == v.nodes[n].kind
                    &&& n != node ==> w.nodes[n].parent == v.nodes[n].parent
                    &&& n != node ==> w.nodes[n].subscriptions == v.nodes[n].subscriptions
                    &&& n != parent ==> w.nodes[n].children == v.nodes[n].children
                    &&& n != parent ==> w.nodes[n].internal_links == v.nodes[n].internal_links
                }
            &&& forall|l: LinkId| #[trigger]
                v.links.contains_key(l) ==> w.links[l].name == v.links[l].name && (link != Some(l)
                    ==> w.links[l] == v.links[l])
            &&& link is None ==> w.nodes[node].subscriptions == v.nodes[node].subscriptions
                && w.nodes[parent].internal_links == v.nodes[parent].internal_links
            &&& link matches Some(l) ==> {
                &&& w.links[l].owner == Some(parent)
                &&& w.nodes[parent].internal_links.contains(l)
                &&& w.links[l].subscribers == (if v.links[l].subscribers.contains(node) {
                    v.links[l].subscribers
                } else {
                    v.links[l].subscribers.push(node)
                })
                &&& w.nodes[node].subscriptions == (if v.links[l].subscribers.contains(node) {
                    v.nodes[node].subscriptions
                } else {
                    v.nodes[node].subscriptions.push(l)
                })
            }
        }),
{
    let w = v.connect_result(parent, node, link);
    lemma_inside(v.nodes, parent, node);
    assert(parent != node) by {
        if parent == node {
            assert(crate::graph::up(v.nodes, parent, 0) == Some(node));
        }
    }
    assert(w.nodes.dom() =~= v.nodes.dom());
    if let Some(l) = link {
        assert(w.links.dom() =~= v.links.dom());
        crate::lists::lemma_push_contains(v.nodes[parent].internal_links, l);
        if v.links[l].owner == Some(parent) {
            assert(v.nodes[parent].internal_links.contains(l));
        }
    }
}

/// A node that was disconnected has no parent, is no child of the one it had, and is off all of
/// that one's internal links, but on every other link it was on.
pub proof fn law_disconnecting(v: NetView, parent: NodeId, node: NodeId)
    requires
        v.inv(),
        v.nodes.contains_key(node),
        v.nodes[node].parent == Some(parent),
    ensures
        ({
            let w = v.disconnected(parent, node);
            &&& w.nodes[node].parent is None
            &&& forall|n: NodeId| #[trigger]
                w.nodes[parent].children.contains(n) <==> v.nodes[parent].children.contains(n) && n
                    != node
            &&& forall|l: LinkId| #[trigger]
                w.nodes[node].subscriptions.contains(l) <==> v.nodes[node].subscriptions.contains(
                    l,
                ) && v.links[l].owner != Some(parent)
            &&& w.nodes[parent].internal_links == v.nodes[parent].internal_links
            &&& w.root == v.root
            &&& w.node_order == v.node_order
            &&& w.link_order == v.link_order
        }),
{
    let links = v.nodes[parent].internal_links;
    assert forall|i: int| 0 <= i < links.len() implies v.links.contains_key(
        #[trigger] links[i],
    ) by {
        assert(v.nodes[parent].internal_links.contains(links[i]));
    }
    lemma_left_all_nodes(v, node, links);
    let off = v.left_all(node, links);
    let w = v.disconnected(parent, node);
    assert(parent != node) by {
        if parent == node {
            let chain = seq![node, node];
            assert(crate::graph::ends(v.nodes, node));
            let k = choose|k: nat| crate::graph::up(v.nodes, node, k) is None;
            lemma_own_parent(v.nodes, node, k);
        }
    }
    crate::lists::lemma_without(v.nodes[parent].children, set![node]);
    assert forall|l: LinkId| #[trigger] w.nodes[node].subscriptions.contains(l)
        <==> v.nodes[node].subscriptions.contains(l) && v.links[l].owner != Some(parent) by {
        assert(links.contains(l) <==> v.nodes[parent].internal_links.contains(l));
        if v.nodes[node].subscriptions.contains(l) {
            assert(v.links.contains_key(l));
            if v.links[l].owner == Some(parent) {
                assert(v.nodes[parent].internal_links.contains(l));
            }
        }
        if links.contains(l) {
            assert(v.nodes[parent].internal_links.contains(l));
        }
    }
}

proof fn lemma_own_parent(nodes: Map<NodeId, NodeView>, x: NodeId, k: nat)
    requires
        nodes.contains_key(x),
        nodes[x].parent == Some(x),
    ensures
        crate::graph::up(nodes, x, k) == Some(x),
    decreases k,
{
    if k > 0 {
        lemma_own_parent(nodes, x, (k - 1) as nat);
    }
}

/// Leaving some links changes nothing of the nodes but one node's subscriptions.
proof fn lemma_left_all_nodes(v: NetView, node: NodeId, gone: Seq<LinkId>)
    requires
        v.nodes.contains_key(node),
    ensures
        ({
            let w = v.left_all(node, gone);
            &&& w.nodes.dom() == v.nodes.dom()
            &&& w.root == v.root
            &&& w.node_order == v.node_order
            &&& w.link_order == v.link_order
            &&& forall|n: NodeId| n != node ==> #[trigger] w.nodes[n] == v.nodes[n]
            &&& w.nodes[node] == (NodeView {
                subscriptions: w.nodes[node].subscriptions,
                ..v.nodes[node]
            })
            &&& forall|l: LinkId| #[trigger]
                w.nodes[node].subscriptions.contains(l) <==> v.nodes[node].subscriptions.contains(
                    l,
                ) && !gone.contains(l)
        }),
    decreases gone.len(),
{
    if gone.len() > 0 {
        let front = gone.drop_last();
        lemma_left_all_nodes(v, node, front);
        let u = v.left_all(node, front);
        let w = v.left_all(node, gone);
        assert(gone =~= front.push(gone.last()));
        crate::lists::lemma_push_contains(front, gone.last());
        crate::lists::lemma_without(u.nodes[node].subscriptions, set![gone.last()]);
        assert(w.nodes.dom() =~= v.nodes.dom());
    }
}

/// Removing a node removes it, everything inside it and the links that they own, and nothing else:
/// every other node and link stays, without those that are gone in its lists, which keep their
/// order.
pub proof fn law_removing_nodes(v: NetView, id: NodeId)
    requires
        v.inv(),
        v.nodes.contains_key(id),
        id != v.root,
    ensures
        ({
            let w = v.removed(id);
            &&& forall|n: NodeId| #[trigger]
                w.nodes.contains_key(n) <==> v.nodes.contains_key(n) && !is_inside(v.nodes, n, id)
            &&& forall|l: LinkId| #[trigger]
                w.links.contains_key(l) <==> v.links.contains_key(l) && !(v.links[l].owner is Some
                    && is_inside(v.nodes, v.links[l].owner->0, id))
            &&& forall|n: NodeId| #[trigger]
                w.nodes.contains_key(n) ==> {
                    &&& w.nodes[n].name == v.nodes[n].name
                    &&& w.nodes[n].kind == v.nodes[n].kind
                    &&& w.nodes[n].parent == v.nodes[n].parent
                    &&& forall|c: NodeId| #[trigger]
                        w.nodes[n].children.contains(c) <==> v.nodes[n].children.contains(c) && c
                            != id
                    &&& crate::lists::in_same_order(w.nodes[n].children, v.nodes[n].children)
                    &&& forall|l: LinkId| #[trigger]
                        w.nodes[n].internal_links.contains(l) <==> v.nodes[n].internal_links.contains(
                            l,
                        )
                    &&& forall|l: LinkId| #[trigger]
                        w.nodes[n].subscriptions.contains(l) <==> v.nodes[n].subscriptions.contains(
                            l,
                        ) && w.links.contains_key(l)
                    &&& crate::lists::in_same_order(
                        w.nodes[n].subscriptions,
                        v.nodes[n].subscriptions,
                    )
                }
            &&& forall|l: LinkId| #[trigger]
                w.links.contains_key(l) ==> {
                    &&& w.links[l].name == v.links[l].name
                    &&& w.links[l].owner == v.links[l].owner
                    &&& forall|n: NodeId| #[trigger]
                        w.links[l].subscribers.contains(n) <==> v.links[l].subscribers.contains(n)
                            && w.nodes.contains_key(n)
                    &&& crate::lists::in_same_order(
                        w.links[l].subscribers,
                        v.links[l].subscribers,
                    )
                }
            &&& w.root == v.root
            &&& crate::lists::in_same_order(w.node_order, v.node_order)
            &&& crate::lists::in_same_order(w.link_order, v.link_order)
        }),
{
    let w = v.removed(id);
    let (nodes, links) = (v.doomed_nodes(id), v.doomed_links(id));
    assert forall|n: NodeId| #[trigger] w.nodes.contains_key(n) <==> v.nodes.contains_key(n)
        && !is_inside(v.nodes, n, id) by {
        lemma_inside(v.nodes, n, id);
    }
    assert forall|l: LinkId| #[trigger] w.links.contains_key(l) <==> v.links.contains_key(l) && !(
    v.links[l].owner is Some && is_inside(v.nodes, v.links[l].owner->0, id)) by {
        if v.links.contains_key(l) {
            assert(v.links[l] == v.links[l]);
            if let Some(owner) = v.links[l].owner {
                lemma_inside(v.nodes, owner, id);
                assert(v.nodes.contains_key(owner));
            }
        }
    }
    crate::lists::lemma_without_in_order(v.node_order, nodes);
    crate::lists::lemma_without_in_order(v.link_order, links);
    assert forall|n: NodeId| #[trigger] w.nodes.contains_key(n) implies {
        &&& forall|c: NodeId| #[trigger]
            w.nodes[n].children.contains(c) <==> v.nodes[n].children.contains(c) && c != id
        &&& crate::lists::in_same_order(w.nodes[n].children, v.nodes[n].children)
        &&& forall|l: LinkId| #[trigger]
            w.nodes[n].internal_links.contains(l) <==> v.nodes[n].internal_links.contains(l)
        &&& forall|l: LinkId| #[trigger]
            w.nodes[n].subscriptions.contains(l) <==> v.nodes[n].subscriptions.contains(l)
                && w.links.contains_key(l)
        &&& crate::lists::in_same_order(w.nodes[n].subscriptions, v.nodes[n].subscriptions)
    } by {
        let node = v.nodes[n];
        crate::lists::lemma_without(node.children, nodes);
        crate::lists::lemma_without(node.internal_links, links);
        crate::lists::lemma_without(node.subscriptions, links);
        crate::lists::lemma_without_in_order(node.children, nodes);
        crate::lists::lemma_without_in_order(node.subscriptions, links);
        assert forall|c: NodeId| #[trigger] w.nodes[n].children.contains(c)
            <==> node.children.contains(c) && c != id by {
            if v.nodes[n].children.contains(c) {
                assert(v.nodes[c].parent == Some(n));
                if c == id {
                    assert(crate::graph::up(v.nodes, c, 0) == Some(id));
                    assert(nodes.contains(c));
                } else if crate::graph::within(v.nodes, c, id) {
                    let k = choose|k: nat| crate::graph::up(v.nodes, c, k) == Some(id);
                    assert(k > 0);
                    assert(crate::graph::up(v.nodes, c, 1) == Some(n)) by {
                        assert(crate::graph::up(v.nodes, c, 0) == Some(c));
                    }
                    crate::graph::lemma_up_from(v.nodes, c, n, 1, (k - 1) as nat);
                    assert(crate::graph::up(v.nodes, n, (k - 1) as nat) == Some(id));
                    assert(crate::graph::within(v.nodes, n, id));
                    assert(false);
                }
            }
        }
        assert forall|l: LinkId| #[trigger] w.nodes[n].internal_links.contains(l)
            <==> node.internal_links.contains(l) by {
            if v.nodes[n].internal_links.contains(l) {
                assert(v.links[l].owner == Some(n));
                lemma_inside(v.nodes, n, id);
            }
        }
        assert forall|l: LinkId| #[trigger] w.nodes[n].subscriptions.contains(l)
            <==> node.subscriptions.contains(l) && w.links.contains_key(l) by {
            if v.nodes[n].subscriptions.contains(l) {
                assert(v.links.contains_key(l));
            }
        }
    }
    assert forall|l: LinkId| #[trigger] w.links.contains_key(l) implies {
        &&& forall|n: NodeId| #[trigger]
            w.links[l].subscribers.contains(n) <==> v.links[l].subscribers.contains(n)
                && w.nodes.contains_key(n)
        &&& crate::lists::in_same_order(w.links[l].subscribers, v.links[l].subscribers)
    } by {
        crate::lists::lemma_without(v.links[l].subscribers, nodes);
        crate::lists::lemma_without_in_order(v.links[l].subscribers, nodes);
        assert forall|n: NodeId| #[trigger] w.links[l].subscribers.contains(n)
            <==> v.links[l].subscribers.contains(n) && w.nodes.contains_key(n) by {
            if v.links[l].subscribers.contains(n) {
                assert(v.nodes.contains_key(n));
            }
        }
    }
}

/// Removing a link takes it away, off every list that it is on, and changes nothing else.
pub proof fn law_removing_links(v: NetView, link: LinkId)
    requires
        v.inv(),
        v.links.contains_key(link),
    ensures
        ({
            let w = v.link_removed(link);
            &&& w.links == v.links.remove(link)
            &&& w.nodes.dom() == v.nodes.dom()
            &&& w.root == v.root
            &&& w.node_order == v.node_order
            &&& crate::lists::in_same_order(w.link_order, v.link_order)
            &&& forall|l: LinkId| #[trigger]
                w.link_order.contains(l) <==> v.links.contains_key(l) && l != link
            &&& forall|n: NodeId| #[trigger]
                v.nodes.contains_key(n) ==> {
                    &&& w.nodes[n].name == v.nodes[n].name
                    &&& w.nodes[n].kind == v.nodes[n].kind
                    &&& w.nodes[n].parent == v.nodes[n].parent
                    &&& w.nodes[n].children == v.nodes[n].children
                    &&& forall|l: LinkId| #[trigger]
                        w.nodes[n].internal_links.contains(l) <==> v.nodes[n].internal_links.contains(
                            l,
                        ) && l != link
                    &&& forall|l: LinkId| #[trigger]
                        w.nodes[n].subscriptions.contains(l) <==> v.nodes[n].subscriptions.contains(
                            l,
                        ) && l != link
                    &&& crate::lists::in_same_order(
                        w.nodes[n].subscriptions,
                        v.nodes[n].subscriptions,
                    )
                    &&& crate::lists::in_same_order(
                        w.nodes[n].internal_links,
                        v.nodes[n].internal_links,
                    )
                }
        }),
{
    let w = v.link_removed(link);
    assert(w.nodes.dom() =~= v.nodes.dom());
    crate::lists::lemma_without(v.link_order, set![link]);
    crate::lists::lemma_without_in_order(v.link_order, set![link]);
    assert forall|n: NodeId| #[trigger] v.nodes.contains_key(n) implies {
        &&& w.nodes[n].children == v.nodes[n].children
        &&& forall|l: LinkId| #[trigger]
            w.nodes[n].internal_links.contains(l) <==> v.nodes[n].internal_links.contains(l) && l
                != link
        &&& forall|l: LinkId| #[trigger]
            w.nodes[n].subscriptions.contains(l) <==> v.nodes[n].subscriptions.contains(l) && l
                != link
        &&& crate::lists::in_same_order(w.nodes[n].subscriptions, v.nodes[n].subscriptions)
        &&& crate::lists::in_same_order(w.nodes[n].internal_links, v.nodes[n].internal_links)
    } by {
        let node = v.nodes[n];
        crate::lists::lemma_without_none(node.children, Set::empty());
        crate::lists::lemma_without(node.internal_links, set![link]);
        crate::lists::lemma_without(node.subscriptions, set![link]);
        crate::lists::lemma_without_in_order(node.internal_links, set![link]);
        crate::lists::lemma_without_in_order(node.subscriptions, set![link]);
    }
}

/// What is created is there, last in the order, with the name it was given, and attached to
/// nothing; all else stays.
pub proof fn law_creating(
    v: NetView,
    id: NodeId,
    link: LinkId,
    name: Seq<char>,
    kind: Seq<char>,
)
    ensures
        v.with_node(id, name, kind).nodes == v.nodes.insert(
            id,
            NodeView {
                name,
                kind,
                parent: None,
                children: Seq::empty(),
                internal_links: Seq::empty(),
                subscriptions: Seq::empty(),
            },
        ),
        v.with_node(id, name, kind).node_order == v.node_order.push(id),
        v.with_node(id, name, kind).links == v.links,
        v.with_node(id, name, kind).link_order == v.link_order,
        v.with_link(link, name).links == v.links.insert(
            link,
            LinkView { name, owner: None, subscribers: Seq::empty() },
        ),
        v.with_link(link, name).link_order == v.link_order.push(link),
        v.with_link(link, name).nodes == v.nodes,
        v.with_link(link, name).node_order == v.node_order,
{
}

} // verus!
