//! Builds a world from a blueprint, step by step.

use vstd::prelude::*;
use vstd::string::*;

use crate::ids::{LinkId, NodeId};
use crate::network::NetworkError;
use crate::scenarios::{Blueprint, Step};
use crate::world::{LogicError, World};

verus! {

/// What a step of a blueprint became.
#[derive(Debug, Clone, Copy, PartialEq, Eq, Structural)]
pub enum Made {
    /// A node.
    Node(NodeId),
    /// A link.
    Link(LinkId),
}

/// What a [`BuildError`] says.
#[verifier::ext_equal]
#[allow(inconsistent_fields)]
pub enum BuildErrorView {
    Missing,
    Network(NetworkError),
    Logic(crate::world::LogicErrorView),
}

/// Why a blueprint could not be followed.
#[derive(Debug)]
#[allow(inconsistent_fields)]
pub enum BuildError {
    /// A step builds on something that is not there.
    Missing,
    /// The network refused a node, link or connection.
    Network(NetworkError),
    /// Logic could not be attached.
    Logic(LogicError),
}

impl View for BuildError {
    type V = BuildErrorView;

    open spec fn view(&self) -> BuildErrorView {
        match *self {
            BuildError::Missing => BuildErrorView::Missing,
            BuildError::Network(e) => BuildErrorView::Network(e),
            BuildError::Logic(e) => BuildErrorView::Logic(e@),
        }
    }
}

/// The node a place stands for: what was made there, or the root.
pub open spec fn node_at(made: Seq<Made>, root: NodeId, at: Option<int>) -> Option<NodeId> {
    match at {
        None => Some(root),
        Some(i) => if 0 <= i < made.len() {
            match made[i] {
                Made::Node(n) => Some(n),
                Made::Link(_) => None,
            }
        } else {
            None
        },
    }
}

/// The link a place stands for.
pub open spec fn link_at(made: Seq<Made>, i: int) -> Option<LinkId> {
    if 0 <= i < made.len() {
        match made[i] {
            Made::Node(_) => None,
            Made::Link(l) => Some(l),
        }
    } else {
        None
    }
}

/// The links places stand for, if all of them do.
pub open spec fn links_at(made: Seq<Made>, at: Seq<int>) -> Option<Seq<LinkId>>
    decreases at.len(),
{
    if at.len() == 0 {
        Some(Seq::empty())
    } else {
        match (links_at(made, at.drop_last()), link_at(made, at.last())) {
            (Some(before), Some(l)) => Some(before.push(l)),
            _ => None,
        }
    }
}

/// A world once something was tried on it, and why that failed if it did.
#[verifier::ext_equal]
pub struct Stage {
    pub world: crate::world::WorldView,
    pub error: Option<BuildErrorView>,
}

/// The network with `node` subscribed to each of `links`, up to the first refusal.
pub open spec fn subscribed_all(
    net: crate::graph::NetView,
    node: NodeId,
    links: Seq<LinkId>,
) -> (crate::graph::NetView, Option<NetworkError>)
    decreases links.len(),
{
    if links.len() == 0 {
        (net, None)
    } else {
        match subscribed_all(net, node, links.drop_last()) {
            (before, Some(e)) => (before, Some(e)),
            (before, None) => match before.subscribe_error(node, links.last()) {
                Some(e) => (before, Some(e)),
                None => (before.subscribe_result(node, links.last()), None),
            },
        }
    }
}

/// The world with a built-in logic on `node`, where there is one of that name.
pub open spec fn with_kind(w: crate::world::WorldView, node: NodeId, kind: Seq<char>) -> Stage {
    if kind.len() == 0 || kind == "none"@ {
        Stage { world: w.without_logic(node), error: None }
    } else {
        match crate::behaviour::engine_logic(kind) {
            Some(b) => Stage { world: w.with_logic(node, b), error: None },
            None => Stage {
                world: w,
                error: Some(
                    BuildErrorView::Logic(crate::world::LogicErrorView::UnknownKind(kind)),
                ),
            },
        }
    }
}

/// The world with its network changed.
pub open spec fn rewired(
    w: crate::world::WorldView,
    network: crate::graph::NetView,
) -> crate::world::WorldView {
    crate::world::WorldView { network, topology_changed: true, ..w }
}

/// The first of the links, if there are any.
pub open spec fn first_of(links: Seq<LinkId>) -> Option<LinkId> {
    if links.len() > 0 {
        Some(links[0])
    } else {
        None
    }
}

/// The links after the first.
pub open spec fn rest_of(links: Seq<LinkId>) -> Seq<LinkId> {
    if links.len() > 0 {
        links.skip(1)
    } else {
        Seq::empty()
    }
}

/// The world where the network refused something.
pub open spec fn refused(
    w: crate::world::WorldView,
    network: crate::graph::NetView,
    e: NetworkError,
) -> Stage {
    Stage { world: rewired(w, network), error: Some(BuildErrorView::Network(e)) }
}

/// The world with a link laid inside `owner`. A link that cannot be laid there is left loose.
pub open spec fn with_laid(
    w: crate::world::WorldView,
    id: LinkId,
    owner: NodeId,
    name: Seq<char>,
) -> Stage {
    if !crate::graph::valid_name(name) {
        refused(w, w.network, NetworkError::InvalidName)
    } else {
        let laid = w.network.with_link(id, name);
        match laid.own_error(owner, id) {
            Some(e) => refused(w, laid, e),
            None => Stage { world: rewired(w, laid.own_result(owner, id)), error: None },
        }
    }
}

/// The world with a device placed. One that cannot be placed is left as far as it came: loose, or
/// in its place without some of its links, or without its logic.
pub open spec fn with_placed(
    w: crate::world::WorldView,
    id: NodeId,
    parent: NodeId,
    name: Seq<char>,
    kind: Seq<char>,
    links: Seq<LinkId>,
    logic: Seq<char>,
) -> Stage {
    if !crate::graph::valid_name(name) {
        refused(w, w.network, NetworkError::InvalidName)
    } else {
        let alone = w.network.with_node(id, name, kind);
        match alone.connect_error(parent, id, first_of(links)) {
            Some(e) => refused(w, alone, e),
            None => match subscribed_all(
                alone.connect_result(parent, id, first_of(links)),
                id,
                rest_of(links),
            ) {
                (net, Some(e)) => refused(w, net, e),
                (net, None) => with_kind(rewired(w, net), id, logic),
            },
        }
    }
}

/// The world once a step was tried, where what it makes is `m`. A step fails with
/// [`BuildErrorView::Missing`], and does nothing, if and only if a place it builds on does not
/// stand for what it should.
pub open spec fn step_taken(
    w: crate::world::WorldView,
    step: crate::scenarios::StepView,
    made: Seq<Made>,
    m: Made,
) -> Stage {
    match step {
        crate::scenarios::StepView::Link { owner, name } => match node_at(
            made,
            w.network.root,
            owner,
        ) {
            Some(o) => with_laid(w, m->Link_0, o, name),
            None => Stage { world: w, error: Some(BuildErrorView::Missing) },
        },
        crate::scenarios::StepView::Device { parent, name, kind, links, logic } => match (
            node_at(made, w.network.root, parent),
            links_at(made, links),
        ) {
            (Some(p), Some(on)) => with_placed(w, m->Node_0, p, name, kind, on, logic),
            _ => Stage { world: w, error: Some(BuildErrorView::Missing) },
        },
    }
}

/// Whether a step may make `m`: a link or a device, as the step says, that the world does not have
/// yet.
pub open spec fn may_make(
    w: crate::world::WorldView,
    step: crate::scenarios::StepView,
    m: Made,
) -> bool {
    match (step, m) {
        (crate::scenarios::StepView::Link { .. }, Made::Link(id)) => {
            !w.network.links.contains_key(id)
        },
        (crate::scenarios::StepView::Device { .. }, Made::Node(id)) => {
            !w.network.nodes.contains_key(id)
        },
        _ => false,
    }
}

/// Whether a step leads from one world to the next, and makes `m`.
pub open spec fn leads(
    from: crate::world::WorldView,
    step: crate::scenarios::StepView,
    made: Seq<Made>,
    m: Made,
    to: crate::world::WorldView,
) -> bool {
    may_make(from, step, m) && step_taken(from, step, made, m) == (Stage { world: to, error: None })
}

/// Whether `trail` is how the world changes from `w` on as the first steps of `plan` are taken,
/// each making something new.
pub open spec fn follows(
    w: crate::world::WorldView,
    plan: Seq<crate::scenarios::StepView>,
    trail: Seq<crate::world::WorldView>,
    made: Seq<Made>,
) -> bool {
    &&& made.len() <= plan.len()
    &&& trail.len() == made.len() + 1
    &&& trail[0] == w
    &&& forall|i: int|
        0 <= i < made.len() ==> leads(
            trail[i],
            plan[i],
            made.take(i),
            #[trigger] made[i],
            trail[i + 1],
        )
}

/// Whether `after` is the world once all of `plan` was followed from `w` on, where `made` is what
/// the steps became.
pub open spec fn built(
    w: crate::world::WorldView,
    plan: Seq<crate::scenarios::StepView>,
    made: Seq<Made>,
    after: crate::world::WorldView,
) -> bool {
    exists|trail: Seq<crate::world::WorldView>| #[trigger]
        follows(w, plan, trail, made) && made.len() == plan.len() && trail.last() == after
}

/// Whether following `plan` from `w` on fails with `e` and leaves `after`: some first steps are
/// taken, and the next one fails on the world they led to.
pub open spec fn fails(
    w: crate::world::WorldView,
    plan: Seq<crate::scenarios::StepView>,
    e: BuildErrorView,
    after: crate::world::WorldView,
) -> bool {
    exists|trail: Seq<crate::world::WorldView>, made: Seq<Made>, m: Made|
        #![trigger follows(w, plan, trail, made), may_make(trail.last(), plan[made.len() as int], m)]
        follows(w, plan, trail, made) && made.len() < plan.len() && may_make(
            trail.last(),
            plan[made.len() as int],
            m,
        ) && step_taken(trail.last(), plan[made.len() as int], made, m) == (Stage {
            world: after,
            error: Some(e),
        })
}

/// There is always a handle that a finite map does not have.
proof fn lemma_spare_node(nodes: Map<NodeId, crate::graph::NodeView>) -> (id: NodeId)
    requires
        nodes.dom().finite(),
        nodes.len() < u32::MAX,
    ensures
        !nodes.contains_key(id),
{
    let n = nodes.len() + 1;
    let range = vstd::set_lib::set_int_range(0, n as int);
    let handle = |i: int| NodeId { raw: i as u64 };
    let handles = range.map(handle);
    vstd::set_lib::lemma_int_range(0, n as int);
    vstd::set_lib::lemma_map_size(range, handles, handle);
    if handles.subset_of(nodes.dom()) {
        vstd::set_lib::lemma_len_subset(handles, nodes.dom());
    }
    choose|id: NodeId| handles.contains(id) && !nodes.contains_key(id)
}

/// There is always a handle that a finite map does not have.
proof fn lemma_spare_link(links: Map<LinkId, crate::graph::LinkView>) -> (id: LinkId)
    requires
        links.dom().finite(),
        links.len() < u32::MAX,
    ensures
        !links.contains_key(id),
{
    let n = links.len() + 1;
    let range = vstd::set_lib::set_int_range(0, n as int);
    let handle = |i: int| LinkId { raw: i as u64 };
    let handles = range.map(handle);
    vstd::set_lib::lemma_int_range(0, n as int);
    vstd::set_lib::lemma_map_size(range, handles, handle);
    if handles.subset_of(links.dom()) {
        vstd::set_lib::lemma_len_subset(handles, links.dom());
    }
    choose|id: LinkId| handles.contains(id) && !links.contains_key(id)
}

/// Connecting adds no nodes and no links.
proof fn lemma_connect_keeps_all(
    net: crate::graph::NetView,
    parent: NodeId,
    node: NodeId,
    link: Option<LinkId>,
)
    requires
        net.connect_error(parent, node, link) is None,
    ensures
        net.connect_result(parent, node, link).nodes.dom() == net.nodes.dom(),
        net.connect_result(parent, node, link).links.dom() == net.links.dom(),
        net.connect_result(parent, node, link).root == net.root,
{
    let inside = net.nest_result(parent, node);
    assert(inside.nodes.dom() =~= net.nodes.dom());
    if let Some(l) = link {
        let owned = inside.own_result(parent, l);
        assert(net.own_error(parent, l) is None);
        assert(owned.nodes.dom() =~= net.nodes.dom());
        assert(owned.links.dom() =~= net.links.dom());
        let done = owned.subscribe_result(node, l);
        assert(done.nodes.dom() =~= net.nodes.dom());
        assert(done.links.dom() =~= net.links.dom());
    }
}

/// Subscribing adds no nodes and no links.
proof fn lemma_subscribe_keeps_all(net: crate::graph::NetView, node: NodeId, link: LinkId)
    requires
        net.subscribe_error(node, link) is None,
    ensures
        net.subscribe_result(node, link).nodes.dom() == net.nodes.dom(),
        net.subscribe_result(node, link).links.dom() == net.links.dom(),
        net.subscribe_result(node, link).root == net.root,
{
    assert(net.subscribe_result(node, link).nodes.dom() =~= net.nodes.dom());
    assert(net.subscribe_result(node, link).links.dom() =~= net.links.dom());
}

/// The node a place stands for.
fn find_node(made: &Vec<Made>, root: NodeId, at: Option<usize>) -> (r: Option<NodeId>)
    ensures
        r == node_at(made@, root, crate::scenarios::place(at)),
{
    match at {
        None => Some(root),
        Some(i) => if i < made.len() {
            match made[i] {
                Made::Node(n) => Some(n),
                Made::Link(_) => None,
            }
        } else {
            None
        },
    }
}

/// The links places stand for, if all of them do.
fn find_links(made: &Vec<Made>, at: &Vec<usize>) -> (r: Option<Vec<LinkId>>)
    ensures
        match r {
            Some(links) => links_at(made@, crate::scenarios::places(at@)) == Some(links@),
            None => links_at(made@, crate::scenarios::places(at@)) is None,
        },
{
    let ghost all = crate::scenarios::places(at@);
    let mut out: Vec<LinkId> = Vec::new();
    let mut i: usize = 0;
    assert(all.take(0) =~= Seq::<int>::empty());
    assert(out@ =~= Seq::<LinkId>::empty());
    while i < at.len()
        invariant
            i <= at.len(),
            all == crate::scenarios::places(at@),
            links_at(made@, all.take(i as int)) == Some(out@),
        decreases at.len() - i,
    {
        let k: usize = at[i];
        proof {
            assert(all.take(i + 1).drop_last() =~= all.take(i as int));
            assert(all.take(i + 1).last() == k);
        }
        let found: Option<LinkId> = if k < made.len() {
            match made[k] {
                Made::Node(_) => None,
                Made::Link(l) => Some(l),
            }
        } else {
            None
        };
        match found {
            Some(l) => {
                out.push(l);
            },
            None => {
                proof {
                    assert(links_at(made@, all.take(i + 1)) is None);
                    lemma_missing_link(made@, all, i + 1);
                }
                return None;
            },
        }
        i += 1;
    }
    assert(all.take(i as int) =~= all);
    Some(out)
}

/// One place that stands for no link spoils the rest.
proof fn lemma_missing_link(made: Seq<Made>, at: Seq<int>, n: int)
    requires
        0 <= n <= at.len(),
        links_at(made, at.take(n)) is None,
    ensures
        links_at(made, at) is None,
    decreases at.len() - n,
{
    if n == at.len() {
        assert(at.take(n) =~= at);
    } else {
        assert(at.take(n + 1).drop_last() =~= at.take(n));
        lemma_missing_link(made, at, n + 1);
    }
}

/// The first refusal is the answer, however many links follow.
proof fn lemma_subscribed_error(
    net: crate::graph::NetView,
    node: NodeId,
    links: Seq<LinkId>,
    n: int,
)
    requires
        0 <= n <= links.len(),
        subscribed_all(net, node, links.take(n)).1 is Some,
    ensures
        subscribed_all(net, node, links) == subscribed_all(net, node, links.take(n)),
    decreases links.len() - n,
{
    if n == links.len() {
        assert(links.take(n) =~= links);
    } else {
        assert(links.take(n + 1).drop_last() =~= links.take(n));
        lemma_subscribed_error(net, node, links, n + 1);
    }
}

/// Lays a link inside `owner`.
fn lay(world: &mut World, owner: NodeId, name: &str) -> (r: Result<LinkId, BuildError>)
    requires
        old(world).inv(),
        old(world)@.network.inv(),
        old(world)@.network.links.len() < u32::MAX - 1,
    ensures
        final(world).inv(),
        final(world)@.network.inv(),
        match r {
            Ok(id) => !old(world)@.network.links.contains_key(id) && with_laid(
                old(world)@,
                id,
                owner,
                name@,
            ) == (Stage { world: final(world)@, error: None })
                && final(world)@.network.nodes.dom() == old(world)@.network.nodes.dom()
                && final(world)@.network.links.dom() == old(world)@.network.links.dom().insert(id),
            Err(e) => exists|id: LinkId|
                !old(world)@.network.links.contains_key(id) && #[trigger] with_laid(
                    old(world)@,
                    id,
                    owner,
                    name@,
                ) == (Stage { world: final(world)@, error: Some(e@) }),
        },
{
    let ghost start = world@;
    let made = world.network_mut().create_link(name);
    let id = match made {
        Ok(id) => id,
        Err(e) => {
            proof {
                let any = lemma_spare_link(start.network.links);
                assert(with_laid(start, any, owner, name@) == refused(start, start.network, e));
            }
            return Err(BuildError::Network(e));
        },
    };
    let ghost laid = start.network.with_link(id, name@);
    assert(world@ == rewired(start, laid));
    let owned = world.network_mut().add_internal_link(owner, id);
    match owned {
        Ok(_) => {
            proof {
                assert(world@ == rewired(start, laid.own_result(owner, id)));
                assert(laid.own_result(owner, id).nodes.dom() =~= start.network.nodes.dom());
                assert(laid.own_result(owner, id).links.dom() =~= start.network.links.dom().insert(
                    id,
                ));
            }
            Ok(id)
        },
        Err(e) => {
            assert(with_laid(start, id, owner, name@) == refused(start, laid, e));
            Err(BuildError::Network(e))
        },
    }
}

/// Places a device.
fn put(
    world: &mut World,
    parent: NodeId,
    name: &str,
    kind: &str,
    links: &Vec<LinkId>,
    logic: &str,
) -> (r: Result<NodeId, BuildError>)
    requires
        old(world).inv(),
        old(world)@.network.inv(),
        old(world)@.network.nodes.len() < u32::MAX - 1,
    ensures
        final(world).inv(),
        final(world)@.network.inv(),
        match r {
            Ok(id) => !old(world)@.network.nodes.contains_key(id) && with_placed(
                old(world)@,
                id,
                parent,
                name@,
                kind@,
                links@,
                logic@,
            ) == (Stage { world: final(world)@, error: None })
                && final(world)@.network.nodes.dom() == old(world)@.network.nodes.dom().insert(id)
                && final(world)@.network.links.dom() == old(world)@.network.links.dom(),
            Err(e) => exists|id: NodeId|
                !old(world)@.network.nodes.contains_key(id) && #[trigger] with_placed(
                    old(world)@,
                    id,
                    parent,
                    name@,
                    kind@,
                    links@,
                    logic@,
                ) == (Stage { world: final(world)@, error: Some(e@) }),
        },
{
    let ghost start = world@;
    let made = world.network_mut().create_node(name, kind);
    let id = match made {
        Ok(id) => id,
        Err(e) => {
            proof {
                let any = lemma_spare_node(start.network.nodes);
                assert(with_placed(start, any, parent, name@, kind@, links@, logic@) == refused(
                    start,
                    start.network,
                    e,
                ));
            }
            return Err(BuildError::Network(e));
        },
    };
    let ghost alone = start.network.with_node(id, name@, kind@);
    assert(world@ == rewired(start, alone));
    let first: Option<LinkId> = if links.len() > 0 {
        Some(links[0])
    } else {
        None
    };
    let connected = world.network_mut().connect(parent, id, first);
    if let Err(e) = connected {
        assert(with_placed(start, id, parent, name@, kind@, links@, logic@) == refused(
            start,
            alone,
            e,
        ));
        return Err(BuildError::Network(e));
    }
    let ghost inside = alone.connect_result(parent, id, first);
    let ghost rest = rest_of(links@);
    proof {
        lemma_connect_keeps_all(alone, parent, id, first);
        assert(inside.nodes.dom() =~= start.network.nodes.dom().insert(id));
        assert(rest.take(0) =~= Seq::<LinkId>::empty());
    }
    let mut i: usize = 1;
    while i < links.len()
        invariant
            1 <= i,
            links.len() > 0 ==> i <= links.len(),
            links.len() == 0 ==> i == 1,
            rest == rest_of(links@),
            start == old(world)@,
            !start.network.nodes.contains_key(id),
            alone == start.network.with_node(id, name@, kind@),
            crate::graph::valid_name(name@),
            first == first_of(links@),
            alone.connect_error(parent, id, first) is None,
            inside == alone.connect_result(parent, id, first),
            world.inv(),
            world@.network.inv(),
            world@ == rewired(start, world@.network),
            subscribed_all(inside, id, rest.take(i - 1)) == (world@.network, None::<NetworkError>),
            world@.network.nodes.dom() == start.network.nodes.dom().insert(id),
            world@.network.links.dom() == start.network.links.dom(),
        decreases links.len() - i,
    {
        let ghost before = world@.network;
        proof {
            assert(rest.take(i as int).drop_last() =~= rest.take(i - 1));
            assert(rest.take(i as int).last() == links@[i as int]);
        }
        let subscribed = world.network_mut().subscribe(id, links[i]);
        if let Err(e) = subscribed {
            proof {
                lemma_subscribed_error(inside, id, rest, i as int);
                assert(with_placed(start, id, parent, name@, kind@, links@, logic@) == refused(
                    start,
                    before,
                    e,
                ));
            }
            return Err(BuildError::Network(e));
        }
        proof {
            lemma_subscribe_keeps_all(before, id, links@[i as int]);
        }
        i += 1;
    }
    proof {
        assert(rest.take(i - 1) =~= rest);
    }
    let ghost wired = world@;
    let set = world.set_logic_kind(id, logic);
    match set {
        Ok(_) => Ok(id),
        Err(e) => {
            assert(with_placed(start, id, parent, name@, kind@, links@, logic@) == (Stage {
                world: wired,
                error: Some(BuildErrorView::Logic(e@)),
            }));
            Err(BuildError::Logic(e))
        },
    }
}

/// Takes one step of a blueprint.
fn take_step(world: &mut World, step: &Step, made: &Vec<Made>) -> (r: Result<Made, BuildError>)
    requires
        old(world).inv(),
        old(world)@.network.inv(),
        old(world)@.network.nodes.len() < u32::MAX - 1,
        old(world)@.network.links.len() < u32::MAX - 1,
    ensures
        final(world).inv(),
        final(world)@.network.inv(),
        match r {
            Ok(m) => may_make(old(world)@, step@, m) && step_taken(old(world)@, step@, made@, m)
                == (Stage { world: final(world)@, error: None })
                && final(world)@.network.nodes.len() <= old(world)@.network.nodes.len() + 1
                && final(world)@.network.links.len() <= old(world)@.network.links.len() + 1,
            Err(e) => exists|m: Made| #[trigger]
                may_make(old(world)@, step@, m) && step_taken(old(world)@, step@, made@, m) == (
                Stage { world: final(world)@, error: Some(e@) }),
        },
{
    let ghost start = world@;
    let root = world.network().root();
    match step {
        Step::Link { owner, name } => {
            let owner = match find_node(made, root, *owner) {
                Some(n) => n,
                None => {
                    proof {
                        let m = Made::Link(lemma_spare_link(start.network.links));
                        assert(may_make(start, step@, m));
                    }
                    return Err(BuildError::Missing);
                },
            };
            match lay(world, owner, name.as_str()) {
                Ok(id) => Ok(Made::Link(id)),
                Err(e) => {
                    proof {
                        let id = choose|id: LinkId|
                            !start.network.links.contains_key(id) && #[trigger] with_laid(
                                start,
                                id,
                                owner,
                                name@,
                            ) == (Stage { world: world@, error: Some(e@) });
                        assert(may_make(start, step@, Made::Link(id)));
                    }
                    Err(e)
                },
            }
        },
        Step::Device { parent, name, kind, links, logic } => {
            let (parent, on) = match (find_node(made, root, *parent), find_links(made, links)) {
                (Some(p), Some(on)) => (p, on),
                _ => {
                    proof {
                        let m = Made::Node(lemma_spare_node(start.network.nodes));
                        assert(may_make(start, step@, m));
                    }
                    return Err(BuildError::Missing);
                },
            };
            match put(world, parent, name.as_str(), kind.as_str(), &on, logic.as_str()) {
                Ok(id) => Ok(Made::Node(id)),
                Err(e) => {
                    proof {
                        let id = choose|id: NodeId|
                            !start.network.nodes.contains_key(id) && #[trigger] with_placed(
                                start,
                                id,
                                parent,
                                name@,
                                kind@,
                                on@,
                                logic@,
                            ) == (Stage { world: world@, error: Some(e@) });
                        assert(may_make(start, step@, Made::Node(id)));
                    }
                    Err(e)
                },
            }
        },
    }
}

/// A step that is taken leads on.
proof fn lemma_follows_on(
    w: crate::world::WorldView,
    plan: Seq<crate::scenarios::StepView>,
    trail: Seq<crate::world::WorldView>,
    made: Seq<Made>,
    m: Made,
    after: crate::world::WorldView,
)
    requires
        follows(w, plan, trail, made),
        made.len() < plan.len(),
        leads(trail.last(), plan[made.len() as int], made, m, after),
    ensures
        follows(w, plan, trail.push(after), made.push(m)),
{
    let (more, all) = (trail.push(after), made.push(m));
    assert forall|k: int| 0 <= k < all.len() implies leads(
        more[k],
        plan[k],
        all.take(k),
        #[trigger] all[k],
        more[k + 1],
    ) by {
        assert(more[k] == trail[k]);
        if k < made.len() {
            assert(more[k + 1] == trail[k + 1]);
            assert(all.take(k) =~= made.take(k));
            assert(all[k] == made[k]);
        } else {
            assert(all.take(k) =~= made);
        }
    }
}

/// Builds everything in `blueprint` into `world`. Returns what each step became. If a step fails,
/// what was built before it stays, and so does what the step itself came to.
///
/// # Errors
///
/// Fails with what the first step that could not be taken failed with.
pub fn build(world: &mut World, blueprint: &Blueprint) -> (r: Result<Vec<Made>, BuildError>)
    requires
        old(world).inv(),
        old(world)@.network.inv(),
        old(world)@.network.nodes.len() + blueprint@.len() < u32::MAX - 1,
        old(world)@.network.links.len() + blueprint@.len() < u32::MAX - 1,
    ensures
        final(world).inv(),
        final(world)@.network.inv(),
        match r {
            Ok(made) => built(old(world)@, blueprint@, made@, final(world)@),
            Err(e) => fails(old(world)@, blueprint@, e@, final(world)@),
        },
{
    let steps = blueprint.steps();
    let ghost plan = blueprint@;
    let mut made: Vec<Made> = Vec::new();
    let ghost mut trail: Seq<crate::world::WorldView> = seq![world@];
    let mut i: usize = 0;
    while i < steps.len()
        invariant
            i <= steps.len(),
            plan == blueprint@,
            plan == crate::scenarios::step_views(steps@),
            world.inv(),
            world@.network.inv(),
            made@.len() == i,
            follows(old(world)@, plan, trail, made@),
            trail.last() == world@,
            old(world)@.network.nodes.len() + plan.len() < u32::MAX - 1,
            old(world)@.network.links.len() + plan.len() < u32::MAX - 1,
            world@.network.nodes.len() <= old(world)@.network.nodes.len() + i,
            world@.network.links.len() <= old(world)@.network.links.len() + i,
        decreases steps.len() - i,
    {
        let ghost before = world@;
        assert(plan[i as int] == steps@[i as int]@);
        match take_step(world, &steps[i], &made) {
            Ok(m) => {
                proof {
                    lemma_follows_on(old(world)@, plan, trail, made@, m, world@);
                    trail = trail.push(world@);
                }
                made.push(m);
                i += 1;
            },
            Err(e) => {
                proof {
                    let m = choose|m: Made| #[trigger]
                        may_make(before, plan[i as int], m) && step_taken(
                            before,
                            plan[i as int],
                            made@,
                            m,
                        ) == (Stage { world: world@, error: Some(e@) });
                    assert(follows(old(world)@, plan, trail, made@));
                    assert(may_make(trail.last(), plan[made@.len() as int], m));
                }
                return Err(e);
            },
        }
    }
    assert(follows(old(world)@, plan, trail, made@));
    Ok(made)
}

} // verus!
