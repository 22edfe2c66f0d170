//! What building from a plan comes to, and what the plans of computers hold.

use vstd::prelude::*;

use crate::graph::{LinkView, NetView};
use crate::ids::{LinkId, NodeId};
use crate::scenarios::StepView;
use crate::world::WorldView;

verus! {

/// Whether the node is on just the links that it says it is on.
pub open spec fn agrees(net: NetView, node: NodeId) -> bool {
    &&& net.nodes.contains_key(node)
    &&& forall|l: LinkId|
        net.links.contains_key(l) ==> (#[trigger] net.links[l].subscribers.contains(node)
            <==> net.nodes[node].subscriptions.contains(l))
}

/// Subscribing to several links, none of which the node is on.
proof fn lemma_subscribed_all(net: NetView, node: NodeId, links: Seq<LinkId>)
    requires
        agrees(net, node),
        links.no_duplicates(),
        forall|i: int|
            0 <= i < links.len() ==> !net.nodes[node].subscriptions.contains(#[trigger] links[i]),
        crate::builder::subscribed_all(net, node, links).1 is None,
    ensures
        ({
            let after = crate::builder::subscribed_all(net, node, links).0;
            &&& agrees(after, node)
            &&& after.nodes[node].name == net.nodes[node].name
            &&& after.nodes[node].kind == net.nodes[node].kind
            &&& after.nodes[node].parent == net.nodes[node].parent
            &&& after.nodes[node].subscriptions == net.nodes[node].subscriptions + links
            &&& after.nodes.dom() == net.nodes.dom()
            &&& after.links.dom() == net.links.dom()
            &&& after.root == net.root
            &&& forall|n: NodeId| n != node ==> #[trigger] after.nodes[n] == net.nodes[n]
            &&& forall|l: LinkId| #[trigger]
                net.links.contains_key(l) ==> after.links[l].owner == net.links[l].owner
                    && after.links[l].name == net.links[l].name
        }),
    decreases links.len(),
{
    if links.len() == 0 {
        assert(net.nodes[node].subscriptions + links =~= net.nodes[node].subscriptions);
    } else {
        let front = links.drop_last();
        let last = links.last();
        let n = links.len() - 1;
        assert(front.no_duplicates()) by {
            assert forall|i: int, j: int|
                0 <= i < front.len() && 0 <= j < front.len() && i != j implies front[i]
                != front[j] by {
                assert(links[i] != links[j]);
            }
        }
        assert forall|i: int| 0 <= i < front.len() implies !net.nodes[node].subscriptions.contains(
            #[trigger] front[i],
        ) by {
            assert(links[i] == front[i]);
        }
        lemma_subscribed_all(net, node, front);
        let before = crate::builder::subscribed_all(net, node, front).0;
        let after = crate::builder::subscribed_all(net, node, links).0;
        let subs = net.nodes[node].subscriptions;
        assert(links[n] == last);
        assert(!(subs + front).contains(last)) by {
            if (subs + front).contains(last) {
                let i = choose|i: int| 0 <= i < (subs + front).len() && (subs + front)[i] == last;
                if i < subs.len() {
                    assert(subs.contains(last));
                } else {
                    assert(links[i - subs.len()] != links[n]);
                }
            }
        }
        assert(before.links.contains_key(last));
        assert(!before.links[last].subscribers.contains(node));
        assert(after == before.joined(node, last));
        assert((subs + front).push(last) =~= subs + links);
        crate::lists::lemma_push_contains(subs + front, last);
        crate::lists::lemma_push_contains(before.links[last].subscribers, node);
        assert(after.nodes.dom() =~= before.nodes.dom());
        assert(after.links.dom() =~= before.links.dom());
        assert forall|l: LinkId| after.links.contains_key(l) implies (
        #[trigger] after.links[l].subscribers.contains(node)
            <==> after.nodes[node].subscriptions.contains(l)) by {
            assert(before.links[l].subscribers.contains(node)
                <==> before.nodes[node].subscriptions.contains(l));
        }
    }
}

/// A device that was placed is where the plan puts it: in its parent, by its name and kind, on the
/// links that it names and in their order, and with the logic that it names; with none where it
/// names none.
pub proof fn law_devices_are_placed(
    w: WorldView,
    id: NodeId,
    parent: NodeId,
    name: Seq<char>,
    kind: Seq<char>,
    links: Seq<LinkId>,
    logic: Seq<char>,
)
    requires
        w.network.inv(),
        !w.network.nodes.contains_key(id),
        crate::ids::is_key(id.spec_raw()),
        !crate::ids::is_null(id.spec_raw()),
        !crate::side_slots::outdated(w.logics.dom(), id),
        links.no_duplicates(),
        crate::builder::with_placed(w, id, parent, name, kind, links, logic).error is None,
    ensures
        ({
            let after = crate::builder::with_placed(w, id, parent, name, kind, links, logic).world;
            &&& after.network.nodes.contains_key(id)
            &&& after.network.nodes[id].name == name
            &&& after.network.nodes[id].kind == kind
            &&& after.network.nodes[id].parent == Some(parent)
            &&& after.network.nodes[id].subscriptions == links
            &&& forall|i: int|
                0 <= i < links.len() ==> after.network.links.contains_key(#[trigger] links[i])
                    && after.network.links[links[i]].subscribers.contains(id)
            &&& links.len() > 0 ==> after.network.links[links[0]].owner == Some(parent)
            &&& logic.len() == 0 || logic == "none"@ ==> !after.logics.contains_key(id)
            &&& !(logic.len() == 0 || logic == "none"@) ==> after.logics.contains_key(id)
                && after.logics[id].kind() == logic
        }),
{
    let alone = w.network.with_node(id, name, kind);
    let first = crate::builder::first_of(links);
    let rest = crate::builder::rest_of(links);
    crate::graph::lemma_with_node(w.network, id, name, kind);
    let placed = alone.connect_result(parent, id, first);
    crate::network_laws::law_connecting(alone, parent, id, first);
    assert forall|l: LinkId| w.network.links.contains_key(
        l,
    ) implies !#[trigger] w.network.links[l].subscribers.contains(id) by {
        if w.network.links[l].subscribers.contains(id) {
            assert(w.network.nodes.contains_key(id));
        }
    }
    assert(alone.nodes[id].subscriptions =~= Seq::<LinkId>::empty());
    if links.len() > 0 {
        let l = links[0];
        assert(alone.links.contains_key(l));
        assert(!alone.links[l].subscribers.contains(id));
        assert(placed.nodes[id].subscriptions =~= seq![l]);
        crate::lists::lemma_push_contains(alone.links[l].subscribers, id);
        assert(seq![l] + rest =~= links);
    } else {
        assert(placed.nodes[id].subscriptions =~= Seq::<LinkId>::empty());
        assert(Seq::<LinkId>::empty() + rest =~= links);
    }
    assert forall|l: LinkId| placed.links.contains_key(l) implies (
    #[trigger] placed.links[l].subscribers.contains(id)
        <==> placed.nodes[id].subscriptions.contains(l)) by {
        assert(!alone.links[l].subscribers.contains(id));
        if first == Some(l) {
            assert(placed.nodes[id].subscriptions[0] == l);
        } else {
            if placed.nodes[id].subscriptions.contains(l) {
                let i = choose|i: int|
                    0 <= i < placed.nodes[id].subscriptions.len()
                        && placed.nodes[id].subscriptions[i] == l;
                assert(i == 0);
            }
        }
    }
    assert(rest.no_duplicates()) by {
        assert forall|i: int, j: int|
            0 <= i < rest.len() && 0 <= j < rest.len() && i != j implies rest[i] != rest[j] by {
            assert(links[i + 1] != links[j + 1]);
        }
    }
    assert forall|i: int| 0 <= i < rest.len() implies !placed.nodes[id].subscriptions.contains(
        #[trigger] rest[i],
    ) by {
        assert(rest[i] == links[i + 1]);
        assert(links[0] != links[i + 1]);
        if placed.nodes[id].subscriptions.contains(rest[i]) {
            let k = choose|k: int|
                0 <= k < placed.nodes[id].subscriptions.len()
                    && placed.nodes[id].subscriptions[k] == rest[i];
            assert(k == 0);
        }
    }
    lemma_subscribed_all(placed, id, rest);
    let net = crate::builder::subscribed_all(placed, id, rest).0;
    let after = crate::builder::with_placed(w, id, parent, name, kind, links, logic).world;
    assert(after.network == net);
    lemma_known_links(placed, id, rest);
    assert forall|i: int| 0 <= i < links.len() implies net.links.contains_key(#[trigger] links[i])
        && net.links[links[i]].subscribers.contains(id) by {
        if i > 0 {
            assert(rest[i - 1] == links[i]);
        }
        assert(net.nodes[id].subscriptions.contains(links[i]));
    }
    if !(logic.len() == 0 || logic == "none"@) {
        crate::logic_laws::law_logics_are_what_their_names_say(
            logic,
            crate::behaviour::BehaviourView::Responder,
            arbitrary(),
        );
    }
}

/// Links that a node could be subscribed to exist.
proof fn lemma_known_links(net: NetView, node: NodeId, links: Seq<LinkId>)
    requires
        crate::builder::subscribed_all(net, node, links).1 is None,
        net.nodes.contains_key(node),
    ensures
        forall|i: int| 0 <= i < links.len() ==> net.links.contains_key(#[trigger] links[i]),
        crate::builder::subscribed_all(net, node, links).0.links.dom() == net.links.dom(),
        crate::builder::subscribed_all(net, node, links).0.nodes.dom() == net.nodes.dom(),
    decreases links.len(),
{
    if links.len() > 0 {
        let front = links.drop_last();
        lemma_known_links(net, node, front);
        let before = crate::builder::subscribed_all(net, node, front).0;
        let after = crate::builder::subscribed_all(net, node, links).0;
        assert(before.links.contains_key(links.last()));
        assert(after.links.dom() =~= before.links.dom());
        assert(after.nodes.dom() =~= before.nodes.dom());
        assert forall|i: int| 0 <= i < links.len() implies net.links.contains_key(
            #[trigger] links[i],
        ) by {
            if i < front.len() {
                assert(front[i] == links[i]);
            }
        }
    }
}

/// A link that was laid is its owner's, by its name, with nobody on it yet.
pub proof fn law_links_are_laid(w: WorldView, id: LinkId, owner: NodeId, name: Seq<char>)
    requires
        !w.network.links.contains_key(id),
        crate::builder::with_laid(w, id, owner, name).error is None,
    ensures
        ({
            let after = crate::builder::with_laid(w, id, owner, name).world;
            &&& after.network.links == w.network.links.insert(
                id,
                LinkView { name, owner: Some(owner), subscribers: Seq::empty() },
            )
            &&& after.network.nodes[owner].internal_links
                == w.network.nodes[owner].internal_links.push(id)
            &&& after.logics == w.logics
        }),
{
    let after = crate::builder::with_laid(w, id, owner, name).world;
    assert(after.network.links =~= w.network.links.insert(
        id,
        LinkView { name, owner: Some(owner), subscribers: Seq::empty() },
    ));
}

/// What a place in a plan stands for is what was made there; no place is the root.
pub proof fn law_places_stand_for_what_was_made(
    made: Seq<crate::builder::Made>,
    root: NodeId,
    i: int,
)
    requires
        0 <= i < made.len(),
    ensures
        crate::builder::node_at(made, root, None) == Some(root),
        made[i] matches crate::builder::Made::Node(n) ==> crate::builder::node_at(
            made,
            root,
            Some(i),
        ) == Some(n) && crate::builder::link_at(made, i) is None,
        made[i] matches crate::builder::Made::Link(l) ==> crate::builder::link_at(made, i) == Some(
            l,
        ) && crate::builder::node_at(made, root, Some(i)) is None,
        crate::builder::node_at(made, root, Some(made.len() as int)) is None,
        crate::builder::link_at(made, made.len() as int) is None,
{
}

/// A plan with a computer has, after all it had, the computer as a gateway on its links, its bus
/// `ipc`, its five services, and its apps in the order they were asked for, all on the bus. They
/// answer pings, but the app `net-scan` scans.
pub proof fn law_planned_computers(
    plan: Seq<StepView>,
    parent: Option<int>,
    name: Seq<char>,
    links: Seq<int>,
    apps: Seq<Seq<char>>,
)
    ensures
        ({
            let after = crate::scenarios::with_computer(plan, parent, name, links, apps);
            let n = plan.len() as int;
            &&& after.len() == n + 7 + apps.len()
            &&& after.take(n) == plan
            &&& after[n] == (StepView::Device {
                parent,
                name,
                kind: "computer"@,
                links,
                logic: "gateway"@,
            })
            &&& after[n + 1] == (StepView::Link { owner: Some(n), name: "ipc"@ })
            &&& forall|i: int|
                0 <= i < 5 ==> #[trigger] after[n + 2 + i] == (StepView::Device {
                    parent: Some(n),
                    name: if i == 0 {
                        "login-manager"@
                    } else if i == 1 {
                        "desktop"@
                    } else if i == 2 {
                        "registry"@
                    } else if i == 3 {
                        "file-system"@
                    } else {
                        "net-gateway"@
                    },
                    kind: if i == 4 {
                        "gateway"@
                    } else {
                        "service"@
                    },
                    links: seq![n + 1],
                    logic: "responder"@,
                })
            &&& forall|i: int|
                0 <= i < apps.len() ==> #[trigger] after[n + 7 + i] == (StepView::Device {
                    parent: Some(n),
                    name: apps[i],
                    kind: "app"@,
                    links: seq![n + 1],
                    logic: if apps[i] == "net-scan"@ {
                        "scanner"@
                    } else {
                        "responder"@
                    },
                })
        }),
{
    let n = plan.len() as int;
    let shell = plan.push(
        StepView::Device { parent, name, kind: "computer"@, links, logic: "gateway"@ },
    ).push(StepView::Link { owner: Some(n), name: "ipc"@ });
    let full = crate::scenarios::with_services(shell, n, n + 1, 5);
    reveal_with_fuel(crate::scenarios::with_services, 6);
    assert(full.len() == n + 7);
    assert(full.take(n) =~= plan);
    lemma_apps(full, n, n + 1, apps);
    let after = crate::scenarios::with_computer(plan, parent, name, links, apps);
    assert(after.take(n) =~= after.take(n + 7).take(n));
    assert forall|i: int| 0 <= i < n + 7 implies #[trigger] after[i] == full[i] by {
        assert(after.take(n + 7)[i] == after[i]);
    }
}

proof fn lemma_apps(plan: Seq<StepView>, pc: int, ipc: int, apps: Seq<Seq<char>>)
    ensures
        ({
            let after = crate::scenarios::with_apps(plan, pc, ipc, apps);
            &&& after.len() == plan.len() + apps.len()
            &&& after.take(plan.len() as int) == plan
            &&& forall|i: int|
                0 <= i < apps.len() ==> #[trigger] after[plan.len() + i] == (StepView::Device {
                    parent: Some(pc),
                    name: apps[i],
                    kind: "app"@,
                    links: seq![ipc],
                    logic: if apps[i] == "net-scan"@ {
                        "scanner"@
                    } else {
                        "responder"@
                    },
                })
        }),
    decreases apps.len(),
{
    let after = crate::scenarios::with_apps(plan, pc, ipc, apps);
    if apps.len() > 0 {
        let front = apps.drop_last();
        lemma_apps(plan, pc, ipc, front);
        let before = crate::scenarios::with_apps(plan, pc, ipc, front);
        assert(after.take(plan.len() as int) =~= before.take(plan.len() as int));
        assert forall|i: int| 0 <= i < apps.len() implies #[trigger] after[plan.len() + i] == (
        StepView::Device {
            parent: Some(pc),
            name: apps[i],
            kind: "app"@,
            links: seq![ipc],
            logic: if apps[i] == "net-scan"@ {
                "scanner"@
            } else {
                "responder"@
            },
        }) by {
            if i < front.len() {
                assert(before[plan.len() + i] == after[plan.len() + i]);
                assert(front[i] == apps[i]);
            }
        }
    } else {
        assert(after.take(plan.len() as int) =~= plan);
    }
}

/// The mesh is ten links and then its devices, each by its number in two digits at least, on one
/// to three of the links, in order and none of them twice. Every sixth is a beacon, the first
/// among them; the others answer pings.
pub proof fn law_the_mesh(n: nat)
    ensures
        ({
            let plan = crate::scenarios::mesh_devices(n).0;
            &&& plan.len() == 10 + n
            &&& forall|i: int|
                0 <= i < 10 ==> #[trigger] plan[i] == (StepView::Link {
                    owner: None,
                    name: "net-"@ + crate::text::decimal_text(i as nat),
                })
            &&& forall|i: int|
                0 <= i < n ==> is_mesh_device(#[trigger] plan[10 + i], i)
        }),
    decreases n,
{
    let plan = crate::scenarios::mesh_devices(n).0;
    if n == 0 {
        lemma_mesh_links(10);
    } else {
        let m = (n - 1) as nat;
        law_the_mesh(m);
        let (before, seed) = crate::scenarios::mesh_devices(m);
        let s = crate::scenarios::next_seed(seed);
        let count = 1 + crate::scenarios::drawn(s, 3);
        lemma_picks(s, count as nat);
        let chosen = crate::scenarios::picks(s, count as nat).0;
        lemma_ascending(chosen, 10);
        lemma_ascending_len(chosen, 10);
        assert forall|i: int| 0 <= i < n implies is_mesh_device(#[trigger] plan[10 + i], i) by {
            if i < m {
                assert(before[10 + i] == plan[10 + i]);
            }
        }
        assert forall|i: int| 0 <= i < 10 implies #[trigger] plan[i] == (StepView::Link {
            owner: None,
            name: "net-"@ + crate::text::decimal_text(i as nat),
        }) by {
            assert(before[i] == plan[i]);
        }
    }
}

/// Whether the step is the mesh's `i`th device.
pub open spec fn is_mesh_device(step: StepView, i: int) -> bool {
    match step {
        StepView::Device { parent, name, kind, links, logic } => {
            &&& parent is None
            &&& name == "device-"@ + (if i < 10 {
                "0"@ + crate::text::decimal_text(i as nat)
            } else {
                crate::text::decimal_text(i as nat)
            })
            &&& kind == "device"@
            &&& 1 <= links.len() <= 3
            &&& forall|k: int| 0 <= k < links.len() ==> 0 <= #[trigger] links[k] < 10
            &&& forall|k: int, j: int|
                0 <= k < j < links.len() ==> #[trigger] links[k] < #[trigger] links[j]
            &&& logic == (if i % 6 == 0 {
                "beacon"@
            } else {
                "responder"@
            })
        },
        _ => false,
    }
}

proof fn lemma_mesh_links(n: nat)
    ensures
        ({
            let links = crate::scenarios::mesh_links(n);
            &&& links.len() == n
            &&& forall|i: int|
                0 <= i < n ==> #[trigger] links[i] == (StepView::Link {
                    owner: None,
                    name: "net-"@ + crate::text::decimal_text(i as nat),
                })
        }),
    decreases n,
{
    if n > 0 {
        lemma_mesh_links((n - 1) as nat);
    }
}

proof fn lemma_picks(seed: u32, count: nat)
    ensures
        ({
            let chosen = crate::scenarios::picks(seed, count).0;
            &&& chosen.finite()
            &&& chosen.len() <= count
            &&& count > 0 ==> chosen.len() > 0
            &&& forall|i: int| #[trigger] chosen.contains(i) ==> 0 <= i < 10
        }),
    decreases count,
{
    if count > 0 {
        lemma_picks(seed, (count - 1) as nat);
        let (before, s) = crate::scenarios::picks(seed, (count - 1) as nat);
        let x = crate::scenarios::drawn(crate::scenarios::next_seed(s), 10);
        let chosen = crate::scenarios::picks(seed, count).0;
        assert(chosen.contains(x));
        if chosen.len() == 0 {
            assert(chosen =~= Set::<int>::empty());
        }
    }
}

proof fn lemma_ascending(chosen: Set<int>, n: nat)
    ensures
        ({
            let s = crate::scenarios::ascending(chosen, n);
            &&& forall|k: int| 0 <= k < s.len() ==> 0 <= #[trigger] s[k] < n && chosen.contains(
                s[k],
            )
            &&& forall|k: int, j: int|
                0 <= k < j < s.len() ==> #[trigger] s[k] < #[trigger] s[j]
        }),
    decreases n,
{
    if n > 0 {
        let m = (n - 1) as nat;
        lemma_ascending(chosen, m);
        let before = crate::scenarios::ascending(chosen, m);
        let s = crate::scenarios::ascending(chosen, n);
        assert forall|k: int| 0 <= k < s.len() implies 0 <= #[trigger] s[k] < n
            && chosen.contains(s[k]) by {
            if k < before.len() {
                assert(before[k] == s[k]);
            }
        }
        assert forall|k: int, j: int| 0 <= k < j < s.len() implies #[trigger] s[k]
            < #[trigger] s[j] by {
            assert(before[k] == s[k]);
            if j < before.len() {
                assert(before[j] == s[j]);
            }
        }
    }
}

/// As many are listed as there are below the bound.
proof fn lemma_ascending_len(chosen: Set<int>, n: nat)
    requires
        chosen.finite(),
        forall|i: int| #[trigger] chosen.contains(i) ==> 0 <= i < n,
    ensures
        crate::scenarios::ascending(chosen, n).len() == chosen.len(),
    decreases n,
{
    if n == 0 {
        assert(chosen =~= Set::<int>::empty());
    } else {
        let m = (n - 1) as nat;
        let fewer = chosen.remove(m as int);
        lemma_ascending_len(fewer, m);
        lemma_ascending_same(chosen, fewer, m);
        if !chosen.contains(m as int) {
            assert(fewer =~= chosen);
        }
    }
}

proof fn lemma_ascending_same(a: Set<int>, b: Set<int>, n: nat)
    requires
        forall|i: int| 0 <= i < n ==> #[trigger] a.contains(i) == b.contains(i),
    ensures
        crate::scenarios::ascending(a, n) == crate::scenarios::ascending(b, n),
    decreases n,
{
    if n > 0 {
        lemma_ascending_same(a, b, (n - 1) as nat);
        assert(a.contains(n - 1) == b.contains(n - 1));
    }
}

/// A building has a computer on every floor, one after the other, on its own network and by the
/// building's number and the floor's in two digits. The one on the first floor scans.
pub proof fn law_floors(plan: Seq<StepView>, building: nat, at: int, floors: nat)
    ensures
        ({
            let after = crate::scenarios::with_floors(plan, building, at, floors);
            &&& after.len() == plan.len() + 8 * floors + if floors > 0 {
                1int
            } else {
                0
            }
            &&& after.take(plan.len() as int) == plan
            &&& forall|i: int|
                1 <= i <= floors ==> after[#[trigger] floor_place(plan.len() as int, i)] == (
                StepView::Device {
                    parent: Some(at),
                    name: "pc-"@ + crate::text::decimal_text(building) + (if i < 10 {
                        "0"@ + crate::text::decimal_text(i as nat)
                    } else {
                        crate::text::decimal_text(i as nat)
                    }),
                    kind: "computer"@,
                    links: seq![at + 1],
                    logic: "gateway"@,
                })
            &&& floors > 0 ==> after[plan.len() as int + 8] == (StepView::Device {
                parent: Some(plan.len() as int),
                name: "net-scan"@,
                kind: "app"@,
                links: seq![plan.len() as int + 1],
                logic: "scanner"@,
            })
        }),
    decreases floors,
{
    let after = crate::scenarios::with_floors(plan, building, at, floors);
    if floors == 0 {
        assert(after.take(plan.len() as int) =~= plan);
    } else {
        let m = (floors - 1) as nat;
        law_floors(plan, building, at, m);
        let before = crate::scenarios::with_floors(plan, building, at, m);
        let apps = if floors == 1 {
            seq!["mail"@, "net-scan"@]
        } else {
            seq!["mail"@]
        };
        let name = "pc-"@ + crate::text::decimal_text(building) + crate::scenarios::two_digits(
            floors,
        );
        law_planned_computers(before, Some(at), name, seq![at + 1], apps);
        let n = before.len() as int;
        assert(after.take(plan.len() as int) =~= after.take(n).take(plan.len() as int));
        assert forall|i: int| 0 <= i < n implies #[trigger] after[i] == before[i] by {
            assert(after.take(n)[i] == after[i]);
        }
        if floors == 1 {
            assert(after[n + 7 + 1] == (StepView::Device {
                parent: Some(n),
                name: "net-scan"@,
                kind: "app"@,
                links: seq![n + 1],
                logic: "scanner"@,
            }));
        }
    }
}

/// Where the computer of a floor is in the plan.
pub open spec fn floor_place(start: int, floor: int) -> int {
    if floor == 1 {
        start
    } else {
        start + 9 + 8 * (floor - 2)
    }
}

/// Where a building is in the plan of a city block.
pub open spec fn building_place(start: int, building: int) -> int {
    start + 51 * (building - 1)
}

/// The buildings of a city block come one after the other, each a gateway between the fibre and a
/// street, the first four on one street and the others on the other. Each has a network of its own
/// and a computer on each of its six floors.
pub proof fn law_buildings(plan: Seq<StepView>, n: nat)
    ensures
        ({
            let after = crate::scenarios::with_buildings(plan, n);
            &&& after.len() == plan.len() + 51 * n
            &&& after.take(plan.len() as int) == plan
            &&& forall|i: int|
                1 <= i <= n ==> is_building(
                    after,
                    #[trigger] building_place(plan.len() as int, i),
                    i as nat,
                )
        }),
    decreases n,
{
    let after = crate::scenarios::with_buildings(plan, n);
    let start = plan.len() as int;
    if n == 0 {
        assert(after.take(start) =~= plan);
    } else {
        let m = (n - 1) as nat;
        law_buildings(plan, m);
        let before = crate::scenarios::with_buildings(plan, m);
        let at = before.len() as int;
        let shell = before.push(
            StepView::Device {
                parent: None,
                name: "building-"@ + crate::text::decimal_text(n),
                kind: "building"@,
                links: seq![
                    2,
                    if n <= 4 {
                        0int
                    } else {
                        1
                    },
                ],
                logic: "gateway"@,
            },
        ).push(StepView::Link { owner: Some(at), name: "lan"@ });
        law_floors(shell, n, at, 6);
        assert(after == crate::scenarios::with_floors(shell, n, at, 6));
        assert forall|i: int| 0 <= i < at + 2 implies #[trigger] after[i] == shell[i] by {
            assert(after.take(at + 2)[i] == after[i]);
        }
        assert forall|i: int| 0 <= i < at implies #[trigger] after[i] == before[i] by {
            assert(shell[i] == before[i]);
        }
        assert(after.take(start) =~= before.take(start));
        assert(building_place(start, n as int) == at);
        assert(after[at] == shell[at] && after[at + 1] == shell[at + 1]);
        assert(is_building(after, at, n));
        assert forall|i: int| 1 <= i <= n implies is_building(
            after,
            #[trigger] building_place(start, i),
            i as nat,
        ) by {
            if i < n {
                let place = building_place(start, i);
                assert(is_building(before, place, i as nat));
                assert(place + 51 <= at);
                assert forall|floor: int| 1 <= floor <= 6 implies after[#[trigger] floor_place(
                    place + 2,
                    floor,
                )] == before[floor_place(place + 2, floor)] by {}
            }
        }
    }
}

/// Whether a building with its network and the computers on its six floors stands at a place of a
/// plan.
pub open spec fn is_building(plan: Seq<StepView>, at: int, number: nat) -> bool {
    &&& plan[at] == (StepView::Device {
        parent: None,
        name: "building-"@ + crate::text::decimal_text(number),
        kind: "building"@,
        links: seq![
            2,
            if number <= 4 {
                0int
            } else {
                1
            },
        ],
        logic: "gateway"@,
    })
    &&& plan[at + 1] == (StepView::Link { owner: Some(at), name: "lan"@ })
    &&& forall|floor: int|
        1 <= floor <= 6 ==> plan[#[trigger] floor_place(at + 2, floor)] == (StepView::Device {
            parent: Some(at),
            name: "pc-"@ + crate::text::decimal_text(number) + ("0"@ + crate::text::decimal_text(
                floor as nat,
            )),
            kind: "computer"@,
            links: seq![at + 1],
            logic: "gateway"@,
        })
}

} // verus!
